use memwalk::context::{EProcessOffsets, KernelContext, MemoryContext, ProcessContext};
use memwalk::pe::{DosHeader, NtHeaders};
use memwalk::physical::{MemoryImage, ReadPhysicalMemory};
use memwalk::scan::{
    find_pattern, find_pattern_virtual_memory, resolve_relative_address, search_signature_physical,
    PatternError,
};
use memwalk::translate::DriverContext;

const FRAME_MASK: u64 = 0x000F_FFFF_FFFF_F000;

fn put_u64(img: &mut MemoryImage, addr: u64, v: u64) {
    assert!(img.write_bytes(addr, &v.to_le_bytes()));
}

fn get_u64(img: &MemoryImage, addr: u64) -> u64 {
    let mut b = Vec::new();
    assert!(img.read_raw_physical_memory(addr, &mut b, 8));
    let mut a = [0u8; 8];
    a.copy_from_slice(&b);
    u64::from_le_bytes(a)
}

fn map_4k(img: &mut MemoryImage, dtb: u64, va: u64, frame: u64, next: &mut u64) {
    let mut table = dtb & !0xf;
    for shift in [39u64, 30, 21] {
        let slot = table + ((va >> shift) & 0x1ff) * 8;
        let mut e = get_u64(img, slot);
        if e == 0 {
            e = *next | 0x3;
            *next += 0x1000;
            put_u64(img, slot, e);
        }
        table = e & FRAME_MASK;
    }
    put_u64(img, table + ((va >> 12) & 0x1ff) * 8, frame | 0x3);
}

fn mask(s: &str) -> Vec<char> {
    s.chars().collect()
}

#[test]
fn pattern_found_at_known_offset_with_wildcards() {
    let mut data = vec![0x90u8; 64];
    let at = 37;
    data[at..at + 8].copy_from_slice(&[0x4C, 0x8B, 0x15, 0x12, 0x34, 0x56, 0x78, 0x48]);
    let sig = [0x4C, 0x8B, 0x15, 0, 0, 0, 0, 0x48, 0x85];
    assert_eq!(find_pattern(&data, &sig, &mask("xxx????xx")), Ok(Some(at)));
}

#[test]
fn pattern_first_match_wins_and_terminator_is_not_compared() {
    let data = [1u8, 2, 3, 9, 1, 2, 3, 1, 2, 7];
    // the last element of each is a terminator
    assert_eq!(find_pattern(&data, &[1, 2, 0xEE], &mask("xx\0")), Ok(Some(0)));
    assert_eq!(find_pattern(&data, &[1, 2, 7, 0], &mask("xxx\0")), Ok(Some(7)));
    assert_eq!(find_pattern(&data, &[1, 0, 3, 0], &mask("x?x\0")), Ok(Some(0)));
    // the first byte is compared even under a wildcard
    assert_eq!(find_pattern(&data, &[5, 2, 0], &mask("??\0")), Ok(None));
    assert_eq!(find_pattern(&data, &[2, 3, 1, 2, 8, 0], &mask("xxxxx\0")), Ok(None));
}

#[test]
fn pattern_malformed_inputs() {
    let data = [1u8, 2, 3];
    assert_eq!(find_pattern(&data, &[1, 2, 3], &mask("xx")), Err(PatternError::LengthMismatch));
    assert_eq!(find_pattern(&data, &[], &[]), Err(PatternError::Empty));
    let long = vec![1u8; 0x1002];
    let long_mask = vec!['x'; 0x1002];
    assert_eq!(find_pattern(&data, &long, &long_mask), Err(PatternError::TooLong));
}

fn scan_space() -> (DriverContext<MemoryImage>, ProcessContext) {
    let mut img = MemoryImage::new(0x40000);
    let mut next = 0x20000;
    for i in 0..4u64 {
        map_4k(&mut img, 0x1000, 0x7000_0000 + i * 0x1000, 0x8000 + i * 0x3000, &mut next);
    }
    let mut process = ProcessContext::default();
    process.directory_table_base = 0x1000;
    (DriverContext::new(img, 0), process)
}

#[test]
fn virtual_scan_finds_match_across_frames() {
    let (mut ctx, process) = scan_space();
    // the signature straddles the boundary between the first and second page
    assert!(ctx.provider.write_bytes(0x8000 + 0xFFE, &[0xAA, 0xBB]));
    assert!(ctx.provider.write_bytes(0xB000, &[0x11, 0x22, 0xCC]));
    let sig = [0xAA, 0xBB, 0, 0, 0xCC, 0];
    let found = find_pattern_virtual_memory(&mut ctx, &process, 0x7000_0000, 0x7000_3000, &sig, &mask("xx??x\0"));
    assert_eq!(found, Ok(Some(0x7000_0FFE)));
    let later = find_pattern_virtual_memory(&mut ctx, &process, 0x7000_0FFF, 0x7000_3000, &sig, &mask("xx??x\0"));
    assert_eq!(later, Ok(None));
}

#[test]
fn virtual_scan_in_second_block() {
    let (mut ctx, process) = scan_space();
    assert!(ctx.provider.write_bytes(0xB000 + 0x234, &[0x48, 0x8B, 0x15]));
    let sig = [0x48, 0x8B, 0x15, 0];
    let found = find_pattern_virtual_memory(&mut ctx, &process, 0x7000_0010, 0x7000_2000, &sig, &mask("xxx\0"));
    assert_eq!(found, Ok(Some(0x7000_1234)));
    let bad = find_pattern_virtual_memory(&mut ctx, &process, 0x7000_0000, 0x7000_2000, &sig, &mask("xx\0"));
    assert_eq!(bad, Err(PatternError::LengthMismatch));
}

#[test]
fn virtual_scan_match_at_last_candidate_before_unmapped_page() {
    let mut img = MemoryImage::new(0x40000);
    let mut next = 0x20000;
    map_4k(&mut img, 0x1000, 0x7000_0000, 0x8000, &mut next);
    map_4k(&mut img, 0x1000, 0x7000_1000, 0xB000, &mut next);
    // three compared bytes ending at the last mapped byte
    assert!(img.write_bytes(0xBFFD, &[0x0F, 0x05, 0xC3]));
    let mut process = ProcessContext::default();
    process.directory_table_base = 0x1000;
    let mut ctx = DriverContext::new(img, 0);
    let sig = [0x0F, 0x05, 0xC3, 0];
    let found = find_pattern_virtual_memory(&mut ctx, &process, 0x7000_0FFE, 0x7000_2000, &sig, &mask("xxx\0"));
    assert_eq!(found, Ok(Some(0x7000_1FFD)));
}

#[test]
fn physical_scan_match_at_last_candidate_before_image_end() {
    let mut img = MemoryImage::new(0x3000);
    assert!(img.write_bytes(0x2FFE, &[0xAB, 0xCD]));
    let ctx = DriverContext::new(img, 0);
    let sig = [0xAB, 0xCD, 0];
    assert_eq!(search_signature_physical(&ctx, 0x1FFF, 0x3000, &sig, &mask("xx\0")), Ok(Some(0x2FFE)));
}

#[test]
fn physical_scan_finds_lowest_address() {
    let mut img = MemoryImage::new(0x10000);
    assert!(img.write_bytes(0x2345, &[0xDE, 0xAD, 0xBE, 0xEF]));
    assert!(img.write_bytes(0x5345, &[0xDE, 0xAD, 0xBE, 0xEF]));
    let ctx = DriverContext::new(img, 0);
    let sig = [0xDE, 0xAD, 0, 0xEF, 0];
    assert_eq!(search_signature_physical(&ctx, 0, 0x10000, &sig, &mask("xx?x\0")), Ok(Some(0x2345)));
    assert_eq!(search_signature_physical(&ctx, 0x2346, 0x10000, &sig, &mask("xx?x\0")), Ok(Some(0x5345)));
    assert_eq!(search_signature_physical(&ctx, 0x5346, 0x10000, &sig, &mask("xx?x\0")), Ok(None));
    assert_eq!(search_signature_physical(&ctx, 0, 0x10000, &sig, &mask("x")), Err(PatternError::LengthMismatch));
}

fn memory_context(driver_ctx: DriverContext<MemoryImage>) -> MemoryContext<MemoryImage> {
    MemoryContext {
        driver_ctx,
        kernel_ctx: KernelContext {
            base_virtual: 0,
            base_physical: 0,
            cr3_virt: 0,
            cr3_phys: 0x1000,
            nt_header: NtHeaders::zeroed(),
            dos_header: DosHeader { e_magic: 0, e_lfanew: 0 },
            image_section_header_ptr: 0,
            ps_initial_system_process: 0,
        },
        process_ctx: ProcessContext::default(),
        shadow_memory_physical_address: 0,
        eproc_ctx: EProcessOffsets::default(),
    }
}

#[test]
fn relative_address_forward_and_backward() {
    let (mut ctx, process) = scan_space();
    // mov rdx, [rip + 0x1000] at 0x7000_0100
    assert!(ctx.provider.write_bytes(0x8100, &[0x48, 0x8B, 0x15, 0x00, 0x10, 0x00, 0x00]));
    // displacement -0x20 at 0x7000_0200
    assert!(ctx.provider.write_bytes(0x8200, &[0x48, 0x8B, 0x15, 0xE0, 0xFF, 0xFF, 0xFF]));
    let mut mem_ctx = memory_context(ctx);
    assert_eq!(resolve_relative_address(&mut mem_ctx, &process, 0x7000_0100, 3, 7), 0x7000_1107);
    assert_eq!(resolve_relative_address(&mut mem_ctx, &process, 0x7000_0200, 3, 7), 0x7000_01E7);
    // an unreadable displacement counts as 0
    assert_eq!(resolve_relative_address(&mut mem_ctx, &process, 0x6000_0000, 3, 7), 0x6000_0007);
}
