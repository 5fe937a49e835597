use memwalk::context::{EProcessOffsets, MemoryContext, ProcessContext};
use memwalk::kernel::{find_halp_low_stub, get_big_pool_table, get_big_pool_table_size, get_kernel_base};
use memwalk::physical::{MemoryImage, ReadPhysicalMemory};
use memwalk::translate::DriverContext;

const FRAME_MASK: u64 = 0x000F_FFFF_FFFF_F000;

fn put_u64(img: &mut MemoryImage, addr: u64, v: u64) {
    assert!(img.write_bytes(addr, &v.to_le_bytes()));
}

fn get_u64(img: &MemoryImage, addr: u64) -> u64 {
    let mut b = Vec::new();
    assert!(img.read_raw_physical_memory(addr, &mut b, 8));
    let mut a = [0u8; 8];
    a.copy_from_slice(&b);
    u64::from_le_bytes(a)
}

fn map_4k(img: &mut MemoryImage, dtb: u64, va: u64, frame: u64, next: &mut u64) {
    let mut table = dtb & !0xf;
    for shift in [39u64, 30, 21] {
        let slot = table + ((va >> shift) & 0x1ff) * 8;
        let mut e = get_u64(img, slot);
        if e == 0 {
            e = *next | 0x3;
            *next += 0x1000;
            put_u64(img, slot, e);
        }
        table = e & FRAME_MASK;
    }
    put_u64(img, table + ((va >> 12) & 0x1ff) * 8, frame | 0x3);
}

#[test]
fn low_stub_found() {
    let mut img = MemoryImage::new(0x10000);
    put_u64(&mut img, 0x3000, 0x0000_0001_0006_00E9 | 0xAB00);
    put_u64(&mut img, 0x3070, 0xFFFF_F800_1234_5000);
    put_u64(&mut img, 0x30A0, 0x1AD000);
    let ctx = DriverContext::new(img, 0);
    assert_eq!(find_halp_low_stub(&ctx), Some((0xFFFF_F800_1234_5000, 0x1AD000)));
}

#[test]
fn low_stub_shape_checks() {
    let mut img = MemoryImage::new(0x10000);
    // physical root not page aligned
    put_u64(&mut img, 0x1000, 0x0000_0001_0006_00E9);
    put_u64(&mut img, 0x1070, 0xFFFF_F800_1234_5000);
    put_u64(&mut img, 0x10A0, 0x1AD001);
    // virtual root outside the kernel range
    put_u64(&mut img, 0x2000, 0x0000_0001_0006_00E9);
    put_u64(&mut img, 0x2070, 0x0000_7800_1234_5000);
    put_u64(&mut img, 0x20A0, 0x1AD000);
    let ctx = DriverContext::new(img, 0);
    assert_eq!(find_halp_low_stub(&ctx), None);
}

const CR3_PA: u64 = 0x1000;
const CR3_VA: u64 = 0xFFFF_F800_1234_5000;
const START: u64 = 0xFFFF_F800_1000_0000;
const IMAGE: u64 = START + 0x20_0000;

/// A kernel image whose first page is the physical 1 MiB-aligned frame
/// 0x100000, mapped at the third candidate; further pages at 0x101000...
fn kernel_memory() -> MemoryImage {
    let mut img = MemoryImage::new(0x140000);
    let mut next = 0x20000;
    for i in 0..4u64 {
        map_4k(&mut img, CR3_PA, IMAGE + i * 0x1000, 0x100000 + i * 0x1000, &mut next);
    }
    let mut dos = [0u8; 64];
    dos[0] = b'M';
    dos[1] = b'Z';
    dos[0x3C..0x40].copy_from_slice(&0x80i32.to_le_bytes());
    assert!(img.write_bytes(0x100000, &dos));
    assert!(img.write_bytes(0x100080, b"PE\0\0"));
    assert!(img.write_bytes(0x100080 + 20, &0xF0u16.to_le_bytes()));
    assert!(img.write_bytes(0x100080 + 48, &IMAGE.to_le_bytes()));
    assert!(img.write_bytes(0x100080 + 80, &0x4000u32.to_le_bytes()));
    assert!(img.write_bytes(0x100080 + 136, &0x1000u32.to_le_bytes()));
    put_u64(&mut img, 0x100800, 0x4B4C45474150);
    // export directory with one name
    let mut dir = [0u8; 40];
    dir[20..24].copy_from_slice(&1u32.to_le_bytes());
    dir[28..32].copy_from_slice(&0x1100u32.to_le_bytes());
    dir[32..36].copy_from_slice(&0x1200u32.to_le_bytes());
    dir[36..40].copy_from_slice(&0x1300u32.to_le_bytes());
    assert!(img.write_bytes(0x101000, &dir));
    assert!(img.write_bytes(0x101100, &0x4242u32.to_le_bytes()));
    assert!(img.write_bytes(0x101200, &0x2000u32.to_le_bytes()));
    assert!(img.write_bytes(0x101300, &0u16.to_le_bytes()));
    assert!(img.write_bytes(0x102000, b"PsInitialSystemProcess\0"));
    img
}

#[test]
fn kernel_image_located() {
    let mut ctx = DriverContext::new(kernel_memory(), 0);
    let k = get_kernel_base(&mut ctx, CR3_PA, CR3_VA);
    assert_eq!(k.base_physical, 0x100000);
    assert_eq!(k.base_virtual, IMAGE);
    assert_eq!(k.cr3_phys, CR3_PA);
    assert_eq!(k.cr3_virt, CR3_VA);
    assert_eq!(k.ps_initial_system_process, 0x4242);
    assert_eq!(k.image_section_header_ptr, IMAGE + 0x80 + 24 + 0xF0);
    assert_eq!(k.nt_header.size_of_image, 0x4000);
}

#[test]
fn kernel_image_needs_marker() {
    let mut img = kernel_memory();
    put_u64(&mut img, 0x100800, 0);
    let mut ctx = DriverContext::new(img, 0);
    let k = get_kernel_base(&mut ctx, CR3_PA, CR3_VA);
    assert_eq!(k.base_physical, 0);
    assert_eq!(k.base_virtual, 0);
    assert_eq!(k.ps_initial_system_process, 0);
}

#[test]
fn big_pool_globals_through_instructions() {
    let mut img = kernel_memory();
    // mov rdx, [rip+0x800]; lea r9, [...]; at IMAGE + 0x2100 -> pointer at IMAGE + 0x2907
    assert!(img.write_bytes(
        0x102100,
        &[0x48, 0x8B, 0x15, 0x00, 0x08, 0x00, 0x00, 0x4C, 0x8D, 0x0D, 0, 0, 0, 0, 0x4C, 0x33]
    ));
    put_u64(&mut img, 0x102907, 0xFFFF_C000_0000_0000);
    // mov r10, [rip+0x400]; test ... at IMAGE + 0x3000 -> pointer at IMAGE + 0x3407
    assert!(img.write_bytes(0x103000, &[0x4C, 0x8B, 0x15, 0x00, 0x04, 0x00, 0x00, 0x48, 0x85]));
    put_u64(&mut img, 0x103407, 0x8000);
    let mut driver_ctx = DriverContext::new(img, 0);
    let kernel_ctx = get_kernel_base(&mut driver_ctx, CR3_PA, CR3_VA);
    assert_eq!(kernel_ctx.base_physical, 0x100000);
    let mut mem_ctx = MemoryContext {
        driver_ctx,
        kernel_ctx,
        process_ctx: ProcessContext::default(),
        shadow_memory_physical_address: 0,
        eproc_ctx: EProcessOffsets::default(),
    };
    assert_eq!(get_big_pool_table_size(&mut mem_ctx), Ok(0x8000));
    assert_eq!(get_big_pool_table(&mut mem_ctx), Ok((0xFFFF_C000_0000_0000, 0x8000)));
}

#[test]
fn big_pool_missing_instruction() {
    let mut driver_ctx = DriverContext::new(kernel_memory(), 0);
    let kernel_ctx = get_kernel_base(&mut driver_ctx, CR3_PA, CR3_VA);
    let mut mem_ctx = MemoryContext {
        driver_ctx,
        kernel_ctx,
        process_ctx: ProcessContext::default(),
        shadow_memory_physical_address: 0,
        eproc_ctx: EProcessOffsets::default(),
    };
    assert_eq!(get_big_pool_table_size(&mut mem_ctx), Err(()));
    assert_eq!(get_big_pool_table(&mut mem_ctx), Err(()));
}
