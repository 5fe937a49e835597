//! Records of the inspected game's object model and the tables that map its
//! developer names to display names.
use vstd::prelude::*;
use vstd::string::StringSliceAdditionalSpecFns;

verus! {

/// Mask of the address bits that select a guarded region.
pub const GUARDED_REGION_MASK: u64 = 0xFFFF_FFF0_0000_0000;

/// Whether `addr` lies in one of the two guarded regions, whose contents are
/// read from the physically contiguous guarded memory instead.
pub open spec fn spec_is_guarded_addr(addr: u64) -> bool {
    addr & GUARDED_REGION_MASK == 0x0080_0000_0000 || addr & GUARDED_REGION_MASK == 0x0100_0000_0000
}

/// Whether `addr` lies in one of the two guarded regions.
pub fn is_guarded_addr(addr: u64) -> (r: bool)
    ensures
        r == spec_is_guarded_addr(addr),
{
    let result = addr & GUARDED_REGION_MASK;
    result == 0x0080_0000_0000 || result == 0x0100_0000_0000
}

/// Frequently read pointers and values of the running game.
#[derive(Default, Debug, Clone)]
pub struct GameEngine {
    pub fname_decryption_key: u64,
    pub uworld: u64,
    pub game_instance: u64,
    pub game_state: u64,
    pub persistence_level: u64,
    pub local_player_array: u64,
    pub local_player: u64,
    pub local_player_controller: u64,
    pub local_player_pawn: u64,
    pub local_player_state: u64,
    pub local_player_team_comp: u64,
    pub local_player_camera_pointer: u64,
    pub actor_array: u64,
    pub actor_count: u32,
    pub local_camera_manager: u64,
    pub local_team_id: u32,
    pub local_agent_name: String,
    pub is_in_game: bool,
}

/// A player actor as cached between polls.
#[derive(Debug, Default, Clone, Hash, PartialEq, Eq)]
pub struct ValorantActor {
    pub pointer: u64,
    pub fname_id: u32,
    pub name: String,
    pub team_id: i32,
    pub root_component: u64,
    pub damage_handler: u64,
    pub inventory: u64,
}

/// A name reference: indices into the name pool.
#[derive(Debug, Default, Clone)]
pub struct FName {
    pub comparison_id: u32,
    pub display_id: u32,
    pub number: u32,
}

/// Header of a name-pool entry; the name's length is held above its low bit.
#[derive(Debug, Copy, Clone)]
pub struct FNameEntryHeader(pub u16);

/// A name-pool entry: its index, header and (encrypted) name bytes.
#[derive(Debug, Copy, Clone)]
pub struct FNameEntry {
    index: u32,
    header: FNameEntryHeader,
    pub name: [u8; 1024],
}

impl Default for FNameEntry {
    fn default() -> (r: Self)
        ensures
            r.spec_index() == 0,
            r.spec_header().0 == 0,
            forall|i: int| 0 <= i < 1024 ==> r.spec_name()[i] == 0,
    {
        FNameEntry { index: 0, header: FNameEntryHeader(0), name: [0u8; 1024] }
    }
}

impl FNameEntry {
    /// The entry's index in the pool.
    pub closed spec fn spec_index(&self) -> u32 {
        self.index
    }

    /// The entry's name bytes.
    pub closed spec fn spec_name(&self) -> Seq<u8> {
        self.name@
    }

    /// The entry's header.
    pub closed spec fn spec_header(&self) -> FNameEntryHeader {
        self.header
    }

    /// An entry from its parts.
    pub fn new(index: u32, header: FNameEntryHeader, name: [u8; 1024]) -> (r: Self)
        ensures
            r.spec_index() == index,
            r.spec_header() == header,
            r.spec_name() == name@,
    {
        FNameEntry { index, header, name }
    }

    /// Length of the name, held in the header above its low bit.
    pub fn get_length(&self) -> (r: u16)
        ensures
            r == self.spec_header().0 / 2,
    {
        let h = self.header.0;
        assert(h >> 1u16 == h / 2) by (bit_vector);
        h >> 1
    }
}

/// Why a pool name could not be decoded.
#[derive(Clone, Copy, Debug, PartialEq, Eq, Structural)]
pub enum FNameError {
    /// The entry's length does not fit a byte.
    InvalidLength,
    /// The chunk pointer plus the entry's offset leaves the address space.
    Overflow,
    /// The decrypted bytes are not UTF-8.
    InvalidEncoding,
}

/// Byte `i` of a name of length `len` decrypted with `key`: the stored byte,
/// xor the length, xor byte `i % 4` of the key.
pub open spec fn decrypted_byte(c: u8, len: u8, key: u64, i: int) -> u8 {
    c ^ len ^ (((key >> ((i % 4) * 8) as u64) & 0xFF) as u8)
}

impl FNameEntry {
    /// The decrypted name: the first `get_length()` bytes, each decrypted
    /// with `key` (see `decrypted_byte`). `InvalidLength` when the length
    /// exceeds 255.
    pub fn decrypt_name(&self, key: u64) -> (r: Result<Vec<u8>, FNameError>)
        ensures
            self.spec_header().0 / 2 > 255 ==> r == Err::<Vec<u8>, FNameError>(FNameError::InvalidLength),
            self.spec_header().0 / 2 <= 255 ==> (r matches Ok(v) && v@ == Seq::new(
                (self.spec_header().0 / 2) as nat,
                |i: int| decrypted_byte(self.spec_name()[i], (self.spec_header().0 / 2) as u8, key, i),
            )),
    {
        let length = self.get_length();
        if length > 255 {
            return Err(FNameError::InvalidLength);
        }
        let len = length as u8;
        let n = length as usize;
        let mut out: Vec<u8> = Vec::new();
        let mut i: usize = 0;
        while i < n
            invariant
                n == self.spec_header().0 / 2,
                n <= 255,
                len == n as u8,
                i <= n,
                out@.len() == i,
                forall|t: int| 0 <= t < i ==> out@[t] == decrypted_byte(self.spec_name()[t], len, key, t),
            decreases n - i,
        {
            let shift: u64 = ((i % 4) * 8) as u64;
            out.push(self.name[i] ^ len ^ (((key >> shift) & 0xFF) as u8));
            i += 1;
        }
        assert(out@ =~= Seq::new(n as nat, |i: int| decrypted_byte(self.spec_name()[i], len, key, i)));
        Ok(out)
    }
}

/// Phase of a match.
#[allow(non_camel_case_types)]
#[derive(Debug, Clone, Copy, PartialEq, Eq, Structural)]
pub enum EAresGamePhase {
    NotStarted,
    GameStarted,
    BetweenRounds,
    RoundStarting,
    InRound,
    RoundEnding,
    SwitchingTeams,
    GameEnded,
    Count,
    Invalid,
    EAresGamePhase_MAX,
}

/// The phase a raw value encodes: the variants in declaration order from 0;
/// a value past the last one is `Invalid`.
pub open spec fn phase_of(raw: u16) -> EAresGamePhase {
    if raw == 0 {
        EAresGamePhase::NotStarted
    } else if raw == 1 {
        EAresGamePhase::GameStarted
    } else if raw == 2 {
        EAresGamePhase::BetweenRounds
    } else if raw == 3 {
        EAresGamePhase::RoundStarting
    } else if raw == 4 {
        EAresGamePhase::InRound
    } else if raw == 5 {
        EAresGamePhase::RoundEnding
    } else if raw == 6 {
        EAresGamePhase::SwitchingTeams
    } else if raw == 7 {
        EAresGamePhase::GameEnded
    } else if raw == 8 {
        EAresGamePhase::Count
    } else if raw == 10 {
        EAresGamePhase::EAresGamePhase_MAX
    } else {
        EAresGamePhase::Invalid
    }
}

impl EAresGamePhase {
    /// Decodes a raw phase value read from the game; unknown values give `Invalid`.
    pub fn from_raw(raw: u16) -> (r: EAresGamePhase)
        ensures
            r == phase_of(raw),
    {
        match raw {
            0 => EAresGamePhase::NotStarted,
            1 => EAresGamePhase::GameStarted,
            2 => EAresGamePhase::BetweenRounds,
            3 => EAresGamePhase::RoundStarting,
            4 => EAresGamePhase::InRound,
            5 => EAresGamePhase::RoundEnding,
            6 => EAresGamePhase::SwitchingTeams,
            7 => EAresGamePhase::GameEnded,
            8 => EAresGamePhase::Count,
            10 => EAresGamePhase::EAresGamePhase_MAX,
            _ => EAresGamePhase::Invalid,
        }
    }
}

/// Whether `pat` occurs in `s`.
pub open spec fn contains_bytes(s: Seq<u8>, pat: Seq<u8>) -> bool {
    exists|i: int| 0 <= i && i + pat.len() <= s.len() && #[trigger] s.subrange(i, i + pat.len()) == pat
}

/// Whether `pat` occurs in `s`.
pub fn bytes_contain(s: &[u8], pat: &[u8]) -> (r: bool)
    ensures
        r == contains_bytes(s@, pat@),
{
    if pat.len() == 0 {
        assert(s@.subrange(0, 0int + pat@.len()) =~= pat@);
        return true;
    }
    if pat.len() > s.len() {
        return false;
    }
    let n = s.len();
    let last = n - pat.len();
    let mut i: usize = 0;
    while i <= last
        invariant
            n == s@.len(),
            pat@.len() >= 1,
            last == n - pat@.len(),
            i <= last + 1,
            forall|t: int| 0 <= t < i ==> #[trigger] s@.subrange(t, t + pat@.len()) != pat@,
        decreases last + 1 - i,
    {
        let mut k: usize = 0;
        let mut same = true;
        while k < pat.len()
            invariant
                n == s@.len(),
                i <= last,
                last == n - pat@.len(),
                k <= pat@.len(),
                same == forall|t: int| 0 <= t < k ==> s@[i + t] == pat@[t],
            decreases pat@.len() - k,
        {
            if s[i + k] != pat[k] {
                same = false;
            }
            k += 1;
        }
        if same {
            assert(s@.subrange(i as int, i + pat@.len()) =~= pat@);
            return true;
        }
        assert(s@.subrange(i as int, i + pat@.len()) != pat@) by {
            let t = choose|t: int| 0 <= t < pat@.len() && s@[i + t] != pat@[t];
            assert(s@.subrange(i as int, i + pat@.len())[t] == s@[i + t]);
        }
        i += 1;
    }
    false
}

/// Whether the byte sequences `a` and `b` are equal.
pub fn bytes_eq(a: &[u8], b: &[u8]) -> (r: bool)
    ensures
        r == (a@ == b@),
{
    if a.len() != b.len() {
        return false;
    }
    let mut i: usize = 0;
    while i < a.len()
        invariant
            a@.len() == b@.len(),
            forall|t: int| 0 <= t < i ==> a@[t] == b@[t],
        decreases a@.len() - i,
    {
        if a[i] != b[i] {
            return false;
        }
        i += 1;
    }
    assert(a@ =~= b@);
    true
}

/// What the standard library's lower-case mapping gives for `s`.
pub uninterp spec fn lower_of(s: Seq<char>) -> Seq<char>;

/// Relies on `str::to_lowercase`: the Unicode lower-case mapping of the
/// characters, a function of them alone.
#[verifier::external_body]
fn lowercase(s: &str) -> (r: String)
    ensures
        r@ == lower_of(s@),
{
    s.to_lowercase()
}

/// Playable agents, keyed by lower-cased developer name.
pub struct AgentManager {
    /// Display name returned for training bots.
    pub str_test_agent: String,
    /// Pairs of lower-cased developer name and display name.
    pub agents: Vec<(String, String)>,
    /// Display names with their index.
    pub actor_name_mappings: Vec<(String, u16)>,
}

impl AgentManager {
    /// Whether some agent is keyed by `key`.
    pub open spec fn spec_has_key(&self, key: Seq<char>) -> bool {
        exists|i: int| 0 <= i < self.agents@.len() && #[trigger] self.agents@[i].0@ == key
    }

    /// Whether an agent is keyed by the already lower-cased name `lowered`,
    /// or `developer_name` mentions a bot.
    pub fn contains_lowered_name(&self, lowered: &String, developer_name: &str) -> (r: bool)
        ensures
            r == (self.spec_has_key(lowered@) || contains_bytes(developer_name.spec_bytes(), "Bot".spec_bytes())),
    {
        let mut i: usize = 0;
        while i < self.agents.len()
            invariant
                forall|t: int| 0 <= t < i ==> #[trigger] self.agents@[t].0@ != lowered@,
            decreases self.agents@.len() - i,
        {
            if self.agents[i].0 == *lowered {
                return true;
            }
            i += 1;
        }
        bytes_contain(developer_name.as_bytes(), "Bot".as_bytes())
    }

    /// Whether `developer_name`, lower-cased, names an agent, or it mentions a bot.
    pub fn contains_developer_name(&self, developer_name: &str) -> (r: bool)
        ensures
            r == (self.spec_has_key(lower_of(developer_name@)) || contains_bytes(
                developer_name.spec_bytes(),
                "Bot".spec_bytes(),
            )),
    {
        let lowered = lowercase(developer_name);
        self.contains_lowered_name(&lowered, developer_name)
    }

    /// The display name of the first agent keyed by `key`.
    pub open spec fn spec_lookup(&self, key: Seq<char>) -> Option<String> {
        if self.spec_has_key(key) {
            let i = choose|i: int| 0 <= i < self.agents@.len() && #[trigger] self.agents@[i].0@ == key && forall|
                t: int,
            | 0 <= t < i ==> #[trigger] self.agents@[t].0@ != key;
            Some(self.agents@[i].1)
        } else {
            None
        }
    }

    /// The display name for `developer_name`: the test agent for a training
    /// bot, else that of the agent keyed by the already lower-cased
    /// `lowered`.
    pub fn translate_lowered_name(&self, lowered: &String, developer_name: &str) -> (r: Option<&String>)
        ensures
            contains_bytes(developer_name.spec_bytes(), "TrainingBot".spec_bytes()) ==> r == Some(
                &self.str_test_agent,
            ),
            !contains_bytes(developer_name.spec_bytes(), "TrainingBot".spec_bytes()) ==> match r {
                Some(v) => self.spec_lookup(lowered@) == Some(*v),
                None => self.spec_lookup(lowered@) is None,
            },
    {
        if bytes_contain(developer_name.as_bytes(), "TrainingBot".as_bytes()) {
            return Some(&self.str_test_agent);
        }
        let mut i: usize = 0;
        while i < self.agents.len()
            invariant
                !contains_bytes(developer_name.spec_bytes(), "TrainingBot".spec_bytes()),
                forall|t: int| 0 <= t < i ==> #[trigger] self.agents@[t].0@ != lowered@,
            decreases self.agents@.len() - i,
        {
            if self.agents[i].0 == *lowered {
                let ghost j = choose|j: int| 0 <= j < self.agents@.len() && #[trigger] self.agents@[j].0@ == lowered@
                    && forall|t: int| 0 <= t < j ==> #[trigger] self.agents@[t].0@ != lowered@;
                assert(j == i) by {
                    if j < i {
                    } else if j > i {
                        assert(self.agents@[i as int].0@ == lowered@);
                    }
                }
                return Some(&self.agents[i].1);
            }
            i += 1;
        }
        None
    }

    /// The display name for `developer_name`: the test agent for a training
    /// bot, else that of the agent keyed by its lower-cased form.
    pub fn translate_developer_name(&self, developer_name: &str) -> (r: Option<&String>)
        ensures
            contains_bytes(developer_name.spec_bytes(), "TrainingBot".spec_bytes()) ==> r == Some(
                &self.str_test_agent,
            ),
            !contains_bytes(developer_name.spec_bytes(), "TrainingBot".spec_bytes()) ==> match r {
                Some(v) => self.spec_lookup(lower_of(developer_name@)) == Some(*v),
                None => self.spec_lookup(lower_of(developer_name@)) is None,
            },
    {
        let lowered = lowercase(developer_name);
        self.translate_lowered_name(&lowered, developer_name)
    }
}

/// Weapon developer names and their display names.
pub open spec fn weapon_table() -> Seq<(&'static str, &'static str)> {
    seq![
        ("Ability_Melee_Base_C", "Melee"),
        ("BasePistol_C", "Classic"),
        ("TrainingBotBasePistol_C", "Classic"),
        ("SawedOffShotgun_C", "Shorty"),
        ("RevolverPistol_C", "Sheriff"),
        ("AutomaticPistol_C", "Frenzy"),
        ("LugerPistol_C", "Ghost"),
        ("Vector_C", "Stinger"),
        ("SubMachineGun_MP5_C", "Spectre"),
        ("PumpShotgun_C", "Bucky"),
        ("AutomaticShotgun_C", "Judge"),
        ("AssaultRifle_Burst_C", "Bulldog"),
        ("DMR_C", "Guardian"),
        ("AssaultRifle_ACR_C", "Phantom"),
        ("AssaultRifle_AK_C", "Vandal"),
        ("LeverSniperRifle_C", "Marshal"),
        ("BoltSniper_C", "Operator"),
        ("LightMachineGun_C", "Ares"),
        ("HeavyMachineGun_C", "Odin"),
    ]
}

fn weapon_names() -> (r: Vec<(&'static str, &'static str)>)
    ensures
        r@ == weapon_table(),
{
    let r = vec![
        ("Ability_Melee_Base_C", "Melee"),
        ("BasePistol_C", "Classic"),
        ("TrainingBotBasePistol_C", "Classic"),
        ("SawedOffShotgun_C", "Shorty"),
        ("RevolverPistol_C", "Sheriff"),
        ("AutomaticPistol_C", "Frenzy"),
        ("LugerPistol_C", "Ghost"),
        ("Vector_C", "Stinger"),
        ("SubMachineGun_MP5_C", "Spectre"),
        ("PumpShotgun_C", "Bucky"),
        ("AutomaticShotgun_C", "Judge"),
        ("AssaultRifle_Burst_C", "Bulldog"),
        ("DMR_C", "Guardian"),
        ("AssaultRifle_ACR_C", "Phantom"),
        ("AssaultRifle_AK_C", "Vandal"),
        ("LeverSniperRifle_C", "Marshal"),
        ("BoltSniper_C", "Operator"),
        ("LightMachineGun_C", "Ares"),
        ("HeavyMachineGun_C", "Odin"),
    ];
    assert(r@ =~= weapon_table());
    r
}

/// Index of the first weapon whose developer name is `name`, if any.
pub open spec fn weapon_index(name: Seq<u8>) -> Option<int> {
    if exists|i: int| 0 <= i < weapon_table().len() && (#[trigger] weapon_table()[i]).0.spec_bytes() == name {
        Some(
            choose|i: int|
                0 <= i < weapon_table().len() && (#[trigger] weapon_table()[i]).0.spec_bytes() == name && forall|t: int|
                    0 <= t < i ==> (#[trigger] weapon_table()[t]).0.spec_bytes() != name,
        )
    } else {
        None
    }
}

fn find_weapon(developer_name: &str) -> (r: Option<(usize, &'static str)>)
    ensures
        match r {
            Some((i, v)) => weapon_index(developer_name.spec_bytes()) == Some(i as int) && v == weapon_table()[i as int].1,
            None => weapon_index(developer_name.spec_bytes()) is None,
        },
{
    let table = weapon_names();
    let name = developer_name.as_bytes();
    let mut i: usize = 0;
    while i < table.len()
        invariant
            table@ == weapon_table(),
            name@ == developer_name.spec_bytes(),
            forall|t: int| 0 <= t < i ==> (#[trigger] weapon_table()[t]).0.spec_bytes() != name@,
        decreases table@.len() - i,
    {
        if bytes_eq(table[i].0.as_bytes(), name) {
            let ghost j = choose|j: int|
                0 <= j < weapon_table().len() && (#[trigger] weapon_table()[j]).0.spec_bytes() == name@ && forall|t: int|
                    0 <= t < j ==> (#[trigger] weapon_table()[t]).0.spec_bytes() != name@;
            assert(j == i) by {
                if j > i {
                    assert(weapon_table()[i as int].0.spec_bytes() == name@);
                }
            }
            return Some((i, table[i].1));
        }
        i += 1;
    }
    None
}

/// The weapons the game knows, with their display names in order.
pub struct WeaponData {
    pub weapon_name_mappings: Vec<(String, u16)>,
}

impl WeaponData {
    /// Whether `developer_name` is a known weapon.
    pub fn contains_developer_name(&self, developer_name: &str) -> (r: bool)
        ensures
            r == weapon_index(developer_name.spec_bytes()) is Some,
    {
        find_weapon(developer_name).is_some()
    }

    /// The display name of the weapon `developer_name`.
    pub fn translate_developer_name(&self, developer_name: &str) -> (r: Option<&'static str>)
        ensures
            r == match weapon_index(developer_name.spec_bytes()) {
                Some(i) => Some(weapon_table()[i].1),
                None => None::<&'static str>,
            },
    {
        match find_weapon(developer_name) {
            Some((_, v)) => Some(v),
            None => None,
        }
    }
}

} // verus!
