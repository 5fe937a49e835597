use memwalk::context::{EProcessOffsets, KernelContext, MemoryContext, ProcessContext};
use memwalk::game::{AgentManager, FNameEntry, FNameEntryHeader, FNameError, GameEngine, WeaponData};
use memwalk::guarded::{get_fname_entry, get_guarded_memory_address, ReadGame, ValorantContext};
use memwalk::pe::{DosHeader, NtHeaders};
use memwalk::physical::{MemoryImage, ReadPhysicalMemory};
use memwalk::translate::DriverContext;

const FRAME_MASK: u64 = 0x000F_FFFF_FFFF_F000;
const DTB: u64 = 0x1000;

fn put_u64(img: &mut MemoryImage, addr: u64, v: u64) {
    assert!(img.write_bytes(addr, &v.to_le_bytes()));
}

fn get_u64(img: &MemoryImage, addr: u64) -> u64 {
    let mut b = Vec::new();
    assert!(img.read_raw_physical_memory(addr, &mut b, 8));
    let mut a = [0u8; 8];
    a.copy_from_slice(&b);
    u64::from_le_bytes(a)
}

fn map_4k(img: &mut MemoryImage, dtb: u64, va: u64, frame: u64, next: &mut u64) {
    let mut table = dtb & !0xf;
    for shift in [39u64, 30, 21] {
        let slot = table + ((va >> shift) & 0x1ff) * 8;
        let mut e = get_u64(img, slot);
        if e == 0 {
            e = *next | 0x3;
            *next += 0x1000;
            put_u64(img, slot, e);
        }
        table = e & FRAME_MASK;
    }
    put_u64(img, table + ((va >> 12) & 0x1ff) * 8, frame | 0x3);
}

fn memory_context(img: MemoryImage) -> MemoryContext<MemoryImage> {
    MemoryContext {
        driver_ctx: DriverContext::new(img, 0),
        kernel_ctx: KernelContext {
            base_virtual: 0,
            base_physical: 0,
            cr3_virt: 0,
            cr3_phys: DTB,
            nt_header: NtHeaders::zeroed(),
            dos_header: DosHeader { e_magic: 0, e_lfanew: 0 },
            image_section_header_ptr: 0,
            ps_initial_system_process: 0,
        },
        process_ctx: ProcessContext::default(),
        shadow_memory_physical_address: 0,
        eproc_ctx: EProcessOffsets::default(),
    }
}

fn pool_entry(img: &mut MemoryImage, at: u64, va: u64, bytes: u64) {
    put_u64(img, at, va);
    put_u64(img, at + 16, bytes);
}

#[test]
fn guarded_pool_allocation_found() {
    let mut img = MemoryImage::new(0x40000);
    let mut next = 0x30000;
    map_4k(&mut img, DTB, 0x7000_0000, 0x8000, &mut next);
    map_4k(&mut img, DTB, 0x7100_0000, 0x9000, &mut next);
    map_4k(&mut img, DTB, 0x7100_1000, 0xA000, &mut next);
    pool_entry(&mut img, 0x8000, 0x7100_0000, 0x1000);
    pool_entry(&mut img, 0x8018, 0x7100_0000, 0x20_0000);
    pool_entry(&mut img, 0x8030, 0x7100_1000, 0x20_0000);
    put_u64(&mut img, 0x9060, 0x1234);
    put_u64(&mut img, 0xA060, 0x0080_0000_1000);
    let mut mem_ctx = memory_context(img);
    assert_eq!(get_guarded_memory_address(&mut mem_ctx, 0x7000_0000, 3), Ok(0x7100_1000));
    assert_eq!(get_guarded_memory_address(&mut mem_ctx, 0x7000_0000, 2), Err(()));
    assert_eq!(get_guarded_memory_address(&mut mem_ctx, 0x7000_0000, 0), Err(()));
}

fn game(img: MemoryImage, base: u64) -> ValorantContext<MemoryImage> {
    let mut valorant = ProcessContext::default();
    valorant.directory_table_base = DTB;
    valorant.base_addr = base;
    let mut game_engine = GameEngine::default();
    game_engine.fname_decryption_key = 0x1122_3344_5566_7788;
    ValorantContext {
        valorant,
        mem_ctx: memory_context(img),
        guarded_memory_physical: 0xC000,
        game_engine,
        weapon_data: WeaponData { weapon_name_mappings: vec![] },
        agent_data_manager: AgentManager { str_test_agent: "Jett".to_string(), agents: vec![], actor_name_mappings: vec![] },
        map_name: String::new(),
        please_exit: false,
        fname_cache: vec![],
    }
}

#[test]
fn game_reads_route_guarded_addresses() {
    let mut img = MemoryImage::new(0x40000);
    let mut next = 0x30000;
    map_4k(&mut img, DTB, 0x7000_0000, 0x8000, &mut next);
    put_u64(&mut img, 0x8010, 0xAAAA);
    put_u64(&mut img, 0xC010, 0xBBBB);
    let mut g = game(img, 0);
    assert_eq!(g.read_u64(0x7000_0010), 0xAAAA);
    assert_eq!(g.read_u64(0x0080_0000_0010), 0xBBBB);
    assert_eq!(g.read_u64(0x0100_0000_0010), 0xBBBB);
    let mut out = Vec::new();
    assert!(!g.read_into(0x0080_00FF_FFF0, &mut out, 4));
    assert_eq!(out, vec![0u8; 4]);
    assert!(g.read_into(0x7000_0010, &mut out, 2));
    assert_eq!(out, vec![0xAA, 0xAA]);
}

fn encrypt(plain: &[u8], key: u64) -> Vec<u8> {
    let len = plain.len() as u8;
    plain.iter().enumerate().map(|(i, c)| c ^ len ^ ((key >> ((i & 3) * 8)) & 0xFF) as u8).collect()
}

/// Entry 0x0001_0005: chunk slot 3 of the table at base + FNAME_POOL, the
/// entry at chunk + 20.
fn name_pool(name: &[u8], header: u16) -> ValorantContext<MemoryImage> {
    let base = 0x1000_0000u64;
    let slot = base + 0xA7B6780 + 3 * 8;
    let mut img = MemoryImage::new(0x40000);
    let mut next = 0x30000;
    map_4k(&mut img, DTB, slot & !0xfff, 0xB000, &mut next);
    map_4k(&mut img, DTB, 0x7200_0000, 0xD000, &mut next);
    put_u64(&mut img, 0xB000 + (slot & 0xfff), 0x7200_0000);
    assert!(img.write_bytes(0xD014, &7u32.to_le_bytes()));
    assert!(img.write_bytes(0xD018, &header.to_le_bytes()));
    assert!(img.write_bytes(0xD01A, name));
    game(img, base)
}

#[test]
fn fname_decrypts() {
    let key = 0x1122_3344_5566_7788;
    let mut g = name_pool(&encrypt(b"Wushu_PC_C", key), 20);
    assert_eq!(g.get_fname(0x0001_0005), Ok("Wushu_PC_C".to_string()));
    let entry = get_fname_entry(&mut g, 0x0001_0005).unwrap();
    assert_eq!(entry.get_length(), 10);
}

#[test]
fn fname_is_cached() {
    let key = 0x1122_3344_5566_7788;
    let mut g = name_pool(&encrypt(b"Wushu_PC_C", key), 20);
    assert_eq!(g.get_fname(0x0001_0005), Ok("Wushu_PC_C".to_string()));
    // the entry changes in memory; the decoded name stays
    assert!(g.mem_ctx.driver_ctx.provider.write_bytes(0xD01A, &encrypt(b"Clay_PC_Cx", key)));
    assert_eq!(g.get_fname(0x0001_0005), Ok("Wushu_PC_C".to_string()));
    assert_eq!(g.fname_cache.len(), 1);
}

#[test]
fn fname_errors() {
    let key = 0x1122_3344_5566_7788;
    let mut g = name_pool(&encrypt(b"abc", key), 0x400);
    assert_eq!(g.get_fname(0x0001_0005), Err(FNameError::InvalidLength));
    let mut g = name_pool(&encrypt(&[0xFF, 0xFE], key), 4);
    assert_eq!(g.get_fname(0x0001_0005), Err(FNameError::InvalidEncoding));
    let mut g = name_pool(b"", 0);
    g.valorant.base_addr = u64::MAX - 0x10;
    assert_eq!(g.get_fname(0x0001_0005), Err(FNameError::Overflow));
}

#[test]
fn decrypt_name_of_entry() {
    let key = 0x0102_0304_0A0B_0C0D;
    let mut name = [0u8; 1024];
    let enc = encrypt(b"Clay_PC_C", key);
    name[..enc.len()].copy_from_slice(&enc);
    let entry = FNameEntry::new(1, FNameEntryHeader(18), name);
    assert_eq!(entry.decrypt_name(key), Ok(b"Clay_PC_C".to_vec()));
    let long = FNameEntry::new(1, FNameEntryHeader(0x200), name);
    assert_eq!(long.decrypt_name(key), Err(FNameError::InvalidLength));
}
