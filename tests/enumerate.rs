use memwalk::context::{EProcessOffsets, KernelContext, MemoryContext, ProcessContext};
use memwalk::enumerate::{get_process, image_name_matches, ProcessError};
use memwalk::pe::{DosHeader, NtHeaders};
use memwalk::physical::{MemoryImage, ReadPhysicalMemory};
use memwalk::translate::DriverContext;

const FRAME_MASK: u64 = 0x000F_FFFF_FFFF_F000;
const DTB: u64 = 0x1000;
const KERNEL: u64 = 0x7000_0000;
const OBJECTS: u64 = 0x7100_0000;
const MODULE: u64 = 0x7200_0000;

fn put_u64(img: &mut MemoryImage, addr: u64, v: u64) {
    assert!(img.write_bytes(addr, &v.to_le_bytes()));
}

fn get_u64(img: &MemoryImage, addr: u64) -> u64 {
    let mut b = Vec::new();
    assert!(img.read_raw_physical_memory(addr, &mut b, 8));
    let mut a = [0u8; 8];
    a.copy_from_slice(&b);
    u64::from_le_bytes(a)
}

fn map_4k(img: &mut MemoryImage, dtb: u64, va: u64, frame: u64, next: &mut u64) {
    let mut table = dtb & !0xf;
    for shift in [39u64, 30, 21] {
        let slot = table + ((va >> shift) & 0x1ff) * 8;
        let mut e = get_u64(img, slot);
        if e == 0 {
            e = *next | 0x3;
            *next += 0x1000;
            put_u64(img, slot, e);
        }
        table = e & FRAME_MASK;
    }
    put_u64(img, table + ((va >> 12) & 0x1ff) * 8, frame | 0x3);
}

struct Obj {
    name: &'static [u8],
    pid: u64,
    live: bool,
}

/// Kernel page at KERNEL (frame 0x4000), object i at OBJECTS + i * 0x1000
/// (frame 0x8000 + i * 0x1000), module headers at MODULE (frame 0x6000).
/// `links[i]` is the object that object i links to.
fn process_list(objs: &[Obj], links: &[usize]) -> MemoryContext<MemoryImage> {
    let offs = EProcessOffsets::default();
    let mut img = MemoryImage::new(0x40000);
    let mut next = 0x30000;
    map_4k(&mut img, DTB, KERNEL, 0x4000, &mut next);
    map_4k(&mut img, DTB, MODULE, 0x6000, &mut next);
    put_u64(&mut img, 0x4000 + 0x100, OBJECTS);
    for (i, o) in objs.iter().enumerate() {
        let va = OBJECTS + i as u64 * 0x1000;
        let frame = 0x8000 + i as u64 * 0x1000;
        map_4k(&mut img, DTB, va, frame, &mut next);
        let mut name = [0u8; 16];
        name[..o.name.len()].copy_from_slice(o.name);
        assert!(img.write_bytes(frame + offs.image_file_name_offset, &name));
        put_u64(&mut img, frame + offs.unique_process_id_offset, o.pid);
        let target = OBJECTS + links[i] as u64 * 0x1000;
        put_u64(&mut img, frame + offs.active_process_link_offset, target + offs.active_process_link_offset);
        put_u64(&mut img, frame + offs.object_table_offset, if o.live { 0xFFFF_A000_0000_1000 } else { 0 });
        put_u64(&mut img, frame + offs.directory_table_base, DTB);
        put_u64(&mut img, frame + offs.section_base_offset, MODULE);
    }
    let mut dos = [0u8; 64];
    dos[0] = b'M';
    dos[1] = b'Z';
    dos[0x3C..0x40].copy_from_slice(&0x80i32.to_le_bytes());
    assert!(img.write_bytes(0x6000, &dos));
    assert!(img.write_bytes(0x6080, b"PE\0\0"));
    assert!(img.write_bytes(0x6080 + 6, &5u16.to_le_bytes()));
    assert!(img.write_bytes(0x6080 + 20, &0xF0u16.to_le_bytes()));
    assert!(img.write_bytes(0x6080 + 80, &0x5000u32.to_le_bytes()));
    MemoryContext {
        driver_ctx: DriverContext::new(img, 0),
        kernel_ctx: KernelContext {
            base_virtual: KERNEL,
            base_physical: 0x4000,
            cr3_virt: 0,
            cr3_phys: DTB,
            nt_header: NtHeaders::zeroed(),
            dos_header: DosHeader { e_magic: 0, e_lfanew: 0 },
            image_section_header_ptr: 0,
            ps_initial_system_process: 0x100,
        },
        process_ctx: ProcessContext::default(),
        shadow_memory_physical_address: 0,
        eproc_ctx: offs,
    }
}

fn four_objects(target_live: bool) -> Vec<Obj> {
    vec![
        Obj { name: b"System", pid: 4, live: true },
        Obj { name: b"svchost.exe", pid: 700, live: true },
        Obj { name: b"Target.exe", pid: 900, live: target_live },
        Obj { name: b"  target.EXE  ", pid: 1200, live: true },
    ]
}

#[test]
fn finds_live_process_and_reads_headers() {
    let mut mem_ctx = process_list(&four_objects(true), &[1, 2, 3, 0]);
    let p = get_process(&mut mem_ctx, "TARGET.exe", "other").unwrap();
    assert_eq!(p.eprocess, OBJECTS + 0x2000);
    assert_eq!(p.process_id, 900);
    assert_eq!(p.directory_table_base, DTB);
    assert_eq!(p.base_addr, MODULE);
    assert_eq!(p.dos_header.e_magic, 0x5A4D);
    assert_eq!(p.dos_header.e_lfanew, 0x80);
    assert_eq!(p.nt_header.signature, 0x4550);
    assert_eq!(p.nt_header.number_of_sections, 5);
    assert_eq!(p.nt_header.size_of_image, 0x5000);
    assert!(p.headers_valid);
    assert_eq!(p.image_section_header_ptr, MODULE + 0x80 + 24 + 0xF0);
}

#[test]
fn bad_dos_header_still_reads_nt_headers() {
    let mut mem_ctx = process_list(&four_objects(true), &[1, 2, 3, 0]);
    // wrong magic, offset kept
    assert!(mem_ctx.driver_ctx.provider.write_bytes(0x6000, b"ZZ"));
    let p = get_process(&mut mem_ctx, "target.exe", "x").unwrap();
    assert!(!p.headers_valid);
    assert_eq!(p.dos_header.e_magic, 0x5A5A);
    assert_eq!(p.nt_header.signature, 0x4550);
    assert_eq!(p.nt_header.number_of_sections, 5);
    assert_eq!(p.image_section_header_ptr, MODULE + 0x80 + 24 + 0xF0);
}

#[test]
fn zombie_match_is_skipped() {
    let mut mem_ctx = process_list(&four_objects(false), &[1, 2, 3, 0]);
    let p = get_process(&mut mem_ctx, "target.exe", "target.exe").unwrap();
    assert_eq!(p.eprocess, OBJECTS + 0x3000);
    assert_eq!(p.process_id, 1200);
}

#[test]
fn second_name_matches_too() {
    let mut mem_ctx = process_list(&four_objects(true), &[1, 2, 3, 0]);
    let p = get_process(&mut mem_ctx, "nothing", "SVCHOST.EXE").unwrap();
    assert_eq!(p.process_id, 700);
}

#[test]
fn circular_list_without_match_is_not_found() {
    let mut mem_ctx = process_list(&four_objects(true), &[1, 2, 3, 0]);
    assert_eq!(get_process(&mut mem_ctx, "absent.exe", "absent"), Err(ProcessError::NotFound));
    // only a zombie carries the name
    let mut mem_ctx = process_list(&four_objects(false), &[1, 2, 0, 0]);
    assert_eq!(get_process(&mut mem_ctx, "Target.exe", "x"), Err(ProcessError::NotFound));
}

#[test]
fn broken_link_is_reported() {
    let mut mem_ctx = process_list(&four_objects(true), &[1, 2, 3, 0]);
    let offs = EProcessOffsets::default();
    put_u64(&mut mem_ctx.driver_ctx.provider, 0x9000 + offs.active_process_link_offset, 0x10);
    assert_eq!(get_process(&mut mem_ctx, "absent.exe", "absent"), Err(ProcessError::BrokenLink));
}

#[test]
fn image_name_trim_and_case() {
    assert!(image_name_matches(b" Notepad.EXE \0junk", b"notepad.exe"));
    assert!(image_name_matches(b"\tabc\r\n", b"ABC"));
    assert!(!image_name_matches(b"abc\0", b"abcd"));
    assert!(!image_name_matches(b"a bc", b"abc"));
    assert!(image_name_matches(b"\0abc", b""));
}
