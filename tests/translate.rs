use memwalk::physical::{MemoryImage, ReadPhysicalMemory};
use memwalk::translate::DriverContext;

const FRAME_MASK: u64 = 0x000F_FFFF_FFFF_F000;

fn put_u64(img: &mut MemoryImage, addr: u64, v: u64) {
    assert!(img.write_bytes(addr, &v.to_le_bytes()));
}

fn get_u64(img: &MemoryImage, addr: u64) -> u64 {
    let mut b = Vec::new();
    assert!(img.read_raw_physical_memory(addr, &mut b, 8));
    let mut a = [0u8; 8];
    a.copy_from_slice(&b);
    u64::from_le_bytes(a)
}

/// Walks (creating where missing) the tables down to the level that holds
/// the entry at `stop_shift` for `va`, and returns that entry's address.
fn slot_for(img: &mut MemoryImage, dtb: u64, va: u64, stop_shift: u64, next: &mut u64) -> u64 {
    let mut table = dtb & !0xf;
    for shift in [39u64, 30, 21, 12] {
        let slot = table + ((va >> shift) & 0x1ff) * 8;
        if shift == stop_shift {
            return slot;
        }
        let mut e = get_u64(img, slot);
        if e == 0 {
            e = *next | 0x3;
            *next += 0x1000;
            put_u64(img, slot, e);
        }
        table = e & FRAME_MASK;
    }
    unreachable!()
}

fn map_4k(img: &mut MemoryImage, dtb: u64, va: u64, frame: u64, next: &mut u64) {
    let slot = slot_for(img, dtb, va, 12, next);
    put_u64(img, slot, frame | 0x3);
}

fn setup() -> (MemoryImage, u64, u64) {
    let img = MemoryImage::new(0x40000);
    (img, 0x1000, 0x20000)
}

#[test]
fn page_walk_4k_leaf() {
    let (mut img, dtb, mut next) = setup();
    let va: u64 = 0x0000_7FF6_1234_5678;
    map_4k(&mut img, dtb, va, 0x9000, &mut next);
    let mut ctx = DriverContext::new(img, 0);
    assert_eq!(ctx.translate_linear_address(dtb, va), 0x9678);
    // flag bits of the root are ignored
    assert_eq!(ctx.translate_linear_address(dtb | 0x7, va), 0x9678);
    // another offset in the same page
    assert_eq!(ctx.translate_linear_address(dtb, (va & !0xfff) | 0x10), 0x9010);
}

#[test]
fn page_walk_2m_large_page() {
    let (mut img, dtb, mut next) = setup();
    let va: u64 = 0xFFFF_F800_0123_4567;
    let slot = slot_for(&mut img, dtb, va, 21, &mut next);
    // frame bits below 2 MiB are set on purpose: they are not part of the base
    put_u64(&mut img, slot, 0x0060_0000 | 0x1000 | 0x83);
    let mut ctx = DriverContext::new(img, 0);
    assert_eq!(ctx.translate_linear_address(dtb, va), 0x0060_0000 + (va & 0x1F_FFFF));
    assert_eq!(ctx.tlb.len(), 0);
}

#[test]
fn page_walk_1g_large_page() {
    let (mut img, dtb, mut next) = setup();
    let va: u64 = 0x0000_0040_1234_5678;
    let slot = slot_for(&mut img, dtb, va, 30, &mut next);
    put_u64(&mut img, slot, 0x8000_0000 | 0x83);
    let mut ctx = DriverContext::new(img, 0);
    assert_eq!(ctx.translate_linear_address(dtb, va), 0x8000_0000 + (va & 0x3FFF_FFFF));
    assert_eq!(ctx.tlb.len(), 0);
}

#[test]
fn cache_hit_within_ttl_then_rewalk() {
    let (mut img, dtb, mut next) = setup();
    let va: u64 = 0x0000_1234_5000;
    map_4k(&mut img, dtb, va, 0x9000, &mut next);
    let mut ctx = DriverContext::new(img, 1_000);
    assert_eq!(ctx.translate_linear_address(dtb, va + 4), 0x9004);
    assert_eq!(ctx.tlb.len(), 1);
    // the leaf now points elsewhere
    let leaf = slot_for(&mut ctx.provider, dtb, va, 12, &mut next);
    put_u64(&mut ctx.provider, leaf, 0xA000 | 0x3);
    ctx.set_time(15_999);
    assert_eq!(ctx.translate_linear_address(dtb, va + 8), 0x9008);
    ctx.set_time(16_000);
    assert_eq!(ctx.translate_linear_address(dtb, va + 8), 0xA008);
    assert_eq!(ctx.tlb.len(), 1);
}

#[test]
fn cache_hit_survives_removed_tables() {
    let (mut img, dtb, mut next) = setup();
    let va: u64 = 0x0000_1234_5000;
    map_4k(&mut img, dtb, va, 0x9000, &mut next);
    let mut ctx = DriverContext::new(img, 0);
    assert_eq!(ctx.translate_linear_address(dtb, va), 0x9000);
    // wipe the root table: a re-walk would now fail
    assert!(ctx.provider.write_bytes(dtb, &[0u8; 0x1000]));
    assert_eq!(ctx.translate_linear_address(dtb, va + 0x123), 0x9123);
    ctx.set_time(15_000);
    assert_eq!(ctx.translate_linear_address(dtb, va + 0x123), 0);
    assert_eq!(ctx.tlb.len(), 0);
}

#[test]
fn unmapped_paths_give_zero() {
    let (mut img, dtb, mut next) = setup();
    let va: u64 = 0x0000_0001_0020_3000;
    map_4k(&mut img, dtb, va, 0x9000, &mut next);
    let mut ctx = DriverContext::new(img, 0);
    // no entry at level 4
    assert_eq!(ctx.translate_linear_address(dtb, 0x0000_7000_0000_0000), 0);
    // level 4 present, level 3 missing
    assert_eq!(ctx.translate_linear_address(dtb, va + 0x4000_0000), 0);
    // level 2 missing
    assert_eq!(ctx.translate_linear_address(dtb, va + 0x20_0000), 0);
    assert_eq!(ctx.tlb.len(), 0);
}

#[test]
fn zero_leaf_maps_frame_zero() {
    let (mut img, dtb, mut next) = setup();
    let va: u64 = 0x0000_0001_0020_3000;
    map_4k(&mut img, dtb, va, 0x9000, &mut next);
    let mut ctx = DriverContext::new(img, 0);
    // the neighbouring leaf entry is zero: frame 0 plus the offset, cached
    assert_eq!(ctx.translate_linear_address(dtb, va + 0x1234), 0x234);
    assert_eq!(ctx.tlb.len(), 1);
    assert_eq!(ctx.translate_linear_address(dtb, va + 0x1000), 0);
}

#[test]
fn expired_entry_sees_leaf_set_to_zero() {
    let (mut img, dtb, mut next) = setup();
    let va: u64 = 0x0000_1234_5000;
    map_4k(&mut img, dtb, va, 0x9000, &mut next);
    let mut ctx = DriverContext::new(img, 0);
    assert_eq!(ctx.translate_linear_address(dtb, va + 0x10), 0x9010);
    let leaf = slot_for(&mut ctx.provider, dtb, va, 12, &mut next);
    put_u64(&mut ctx.provider, leaf, 0);
    assert_eq!(ctx.translate_linear_address(dtb, va + 0x10), 0x9010);
    ctx.set_time(15_000);
    assert_eq!(ctx.translate_linear_address(dtb, va + 0x10), 0x10);
}

#[test]
fn zero_address_short_circuits() {
    let (mut img, dtb, mut next) = setup();
    map_4k(&mut img, dtb, 0, 0x9000, &mut next);
    let mut ctx = DriverContext::new(img, 0);
    assert_eq!(ctx.translate_linear_address(dtb, 0), 0);
    assert_eq!(ctx.tlb.len(), 0);
    assert_eq!(ctx.translate_linear_address(dtb, 1), 0x9001);
}

#[test]
fn unreadable_root_gives_zero() {
    let img = MemoryImage::new(0x1000);
    let mut ctx = DriverContext::new(img, 0);
    assert_eq!(ctx.translate_linear_address(0x10_0000, 0x1234_5000), 0);
    assert_eq!(ctx.translate_linear_address(u64::MAX, 0xFFFF_FFFF_FFFF_F000), 0);
}

#[test]
fn expired_entries_are_dropped() {
    let (mut img, dtb, mut next) = setup();
    map_4k(&mut img, dtb, 0x1000, 0x9000, &mut next);
    map_4k(&mut img, dtb, 0x2000, 0xA000, &mut next);
    let mut ctx = DriverContext::new(img, 0);
    ctx.translate_linear_address(dtb, 0x1000);
    ctx.set_time(10_000);
    ctx.translate_linear_address(dtb, 0x2000);
    assert_eq!(ctx.tlb.len(), 2);
    ctx.set_time(15_000);
    assert_eq!(ctx.translate_linear_address(dtb, 0x2004), 0xA004);
    assert_eq!(ctx.tlb.len(), 1);
}
