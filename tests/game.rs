use memwalk::context::EProcessOffsets;
use memwalk::game::{
    bytes_contain, is_guarded_addr, AgentManager, EAresGamePhase, FNameEntry, FNameEntryHeader,
    WeaponData,
};

#[test]
fn guarded_regions() {
    assert!(is_guarded_addr(0x0080_0000_1234));
    assert!(is_guarded_addr(0x0100_0FFF_FFFF));
    assert!(!is_guarded_addr(0x0180_0000_0000));
    assert!(!is_guarded_addr(0x7FF6_0000_0000));
    assert!(!is_guarded_addr(0));
}

#[test]
fn name_entry_length() {
    let entry = FNameEntry::new(3, FNameEntryHeader(0x0025), [0u8; 1024]);
    assert_eq!(entry.get_length(), 0x12);
    assert_eq!(FNameEntry::default().get_length(), 0);
}

#[test]
fn game_phase_decoding() {
    assert_eq!(EAresGamePhase::from_raw(0), EAresGamePhase::NotStarted);
    assert_eq!(EAresGamePhase::from_raw(4), EAresGamePhase::InRound);
    assert_eq!(EAresGamePhase::from_raw(7), EAresGamePhase::GameEnded);
    assert_eq!(EAresGamePhase::from_raw(10), EAresGamePhase::EAresGamePhase_MAX);
    assert_eq!(EAresGamePhase::from_raw(9), EAresGamePhase::Invalid);
    assert_eq!(EAresGamePhase::from_raw(0x1234), EAresGamePhase::Invalid);
}

#[test]
fn weapon_names() {
    let w = WeaponData { weapon_name_mappings: vec![] };
    assert!(w.contains_developer_name("AssaultRifle_AK_C"));
    assert_eq!(w.translate_developer_name("AssaultRifle_AK_C"), Some("Vandal"));
    assert_eq!(w.translate_developer_name("TrainingBotBasePistol_C"), Some("Classic"));
    assert_eq!(w.translate_developer_name("HeavyMachineGun_C"), Some("Odin"));
    assert!(!w.contains_developer_name("assaultrifle_ak_c"));
    assert_eq!(w.translate_developer_name("Knife"), None);
}

fn agents() -> AgentManager {
    AgentManager {
        str_test_agent: "Jett".to_string(),
        agents: vec![
            ("wushu_pc_c".to_string(), "Jett".to_string()),
            ("clay_pc_c".to_string(), "Raze".to_string()),
        ],
        actor_name_mappings: vec![("Jett".to_string(), 0), ("Raze".to_string(), 1)],
    }
}

#[test]
fn agent_names_are_case_insensitive() {
    let a = agents();
    assert!(a.contains_developer_name("Clay_PC_C"));
    assert_eq!(a.translate_developer_name("Clay_PC_C"), Some(&"Raze".to_string()));
    assert_eq!(a.translate_developer_name("WUSHU_PC_C"), Some(&"Jett".to_string()));
    assert!(!a.contains_developer_name("Sarge_PC_C"));
    assert_eq!(a.translate_developer_name("Sarge_PC_C"), None);
}

#[test]
fn agent_bots() {
    let a = agents();
    assert!(a.contains_developer_name("AggroBot_PC_C"));
    assert!(!a.contains_developer_name("aggrobot_pc_c"));
    assert_eq!(a.translate_developer_name("TrainingBot_Med_C"), Some(&"Jett".to_string()));
    assert_eq!(a.translate_developer_name("AggroBot_PC_C"), None);
}

#[test]
fn substring_search() {
    assert!(bytes_contain(b"TrainingBot_Hard_C", b"Bot"));
    assert!(bytes_contain(b"Bot", b"Bot"));
    assert!(!bytes_contain(b"Bo", b"Bot"));
    assert!(bytes_contain(b"abc", b""));
}

#[test]
fn default_offsets() {
    let o = EProcessOffsets::default();
    assert_eq!(o.directory_table_base, 0x28);
    assert_eq!(o.image_file_name_offset, 0x5A8);
    assert_eq!(o.unique_process_id_offset, 0x440);
    assert_eq!(o.active_process_link_offset, 0x448);
    assert_eq!(o.object_table_offset, 0x570);
}
