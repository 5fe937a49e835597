use memwalk::context::ProcessContext;
use memwalk::dump::module_dump_bytes;
use memwalk::physical::{MemoryImage, ReadPhysicalMemory};
use memwalk::translate::DriverContext;

const FRAME_MASK: u64 = 0x000F_FFFF_FFFF_F000;
const BASE: u64 = 0x7000_0000;

fn put_u64(img: &mut MemoryImage, addr: u64, v: u64) {
    assert!(img.write_bytes(addr, &v.to_le_bytes()));
}

fn get_u64(img: &MemoryImage, addr: u64) -> u64 {
    let mut b = Vec::new();
    assert!(img.read_raw_physical_memory(addr, &mut b, 8));
    let mut a = [0u8; 8];
    a.copy_from_slice(&b);
    u64::from_le_bytes(a)
}

fn map_4k(img: &mut MemoryImage, dtb: u64, va: u64, frame: u64, next: &mut u64) {
    let mut table = dtb & !0xf;
    for shift in [39u64, 30, 21] {
        let slot = table + ((va >> shift) & 0x1ff) * 8;
        let mut e = get_u64(img, slot);
        if e == 0 {
            e = *next | 0x3;
            *next += 0x1000;
            put_u64(img, slot, e);
        }
        table = e & FRAME_MASK;
    }
    put_u64(img, table + ((va >> 12) & 0x1ff) * 8, frame | 0x3);
}

fn section(va: u32, raw_size: u32, raw_ptr: u32) -> [u8; 40] {
    let mut s = [0u8; 40];
    s[12..16].copy_from_slice(&va.to_le_bytes());
    s[16..20].copy_from_slice(&raw_size.to_le_bytes());
    s[20..24].copy_from_slice(&raw_ptr.to_le_bytes());
    s
}

fn setup() -> (DriverContext<MemoryImage>, ProcessContext) {
    let mut img = MemoryImage::new(0x40000);
    let mut next = 0x30000;
    for i in 0..3u64 {
        map_4k(&mut img, 0x1000, BASE + i * 0x1000, 0x8000 + i * 0x2000, &mut next);
    }
    let headers: Vec<u8> = (0..0x200u32).map(|i| (i % 199) as u8).collect();
    assert!(img.write_bytes(0x8000, &headers));
    assert!(img.write_bytes(0x8000 + 0x188, &section(0x1000, 0x300, 0x1000)));
    assert!(img.write_bytes(0x8000 + 0x188 + 40, &section(0x1800, 0x10, 0x2000)));
    let first: Vec<u8> = (0..0x800u32).map(|i| (i % 7) as u8 + 1).collect();
    assert!(img.write_bytes(0xA000, &first));
    assert!(img.write_bytes(0xC000, &[0xEE; 0x10]));
    let mut p = ProcessContext::default();
    p.directory_table_base = 0x1000;
    p.base_addr = BASE;
    p.dos_header.e_magic = 0x5A4D;
    p.dos_header.e_lfanew = 0x80;
    p.nt_header.number_of_sections = 2;
    p.nt_header.size_of_headers = 0x200;
    (DriverContext::new(img, 0), p)
}

#[test]
fn dump_concatenates_headers_and_sections() {
    let (mut ctx, p) = setup();
    let bytes = module_dump_bytes(&mut ctx, &p, BASE).unwrap();
    assert_eq!(bytes.len(), 0x200 + 0x800 + 0x10);
    assert_eq!(bytes[0x1FF], (0x1FFu32 % 199) as u8);
    assert_eq!(bytes[0x200], 1);
    assert_eq!(bytes[0x200 + 0x7FF], (0x7FFu32 % 7) as u8 + 1);
    assert_eq!(&bytes[0xA00..], &[0xEE; 0x10]);
}

#[test]
fn dump_fails_on_unreadable_section() {
    let (mut ctx, mut p) = setup();
    p.nt_header.number_of_sections = 3;
    assert!(ctx.provider.write_bytes(0x8000 + 0x188 + 80, &section(0x2000, 0x10, 0x5000)));
    assert_eq!(module_dump_bytes(&mut ctx, &p, BASE), None);
}

#[test]
fn dump_rejects_descending_sections() {
    let (mut ctx, p) = setup();
    assert!(ctx.provider.write_bytes(0x8000 + 0x188 + 40, &section(0x0800, 0x10, 0x2000)));
    assert_eq!(module_dump_bytes(&mut ctx, &p, BASE), None);
    let mut q = p;
    q.dos_header.e_lfanew = -4;
    assert_eq!(module_dump_bytes(&mut ctx, &q, BASE), None);
}
