//! Location of the game's guarded memory region through the kernel's
//! big-pool allocation table.
use vstd::prelude::*;
use crate::bytes::read_le_u64;
use crate::context::{MemoryContext, ProcessContext};
use crate::exports::or_zeros;
use crate::bytes::{le_u16, le_u32, read_le_u16, read_le_u32};
use crate::game::{
    decrypted_byte, is_guarded_addr, spec_is_guarded_addr, AgentManager, FNameEntry, FNameEntryHeader,
    FNameError, GameEngine, WeaponData,
};
use vstd::utf8::{decode_utf8, valid_utf8};
use crate::pe::field_u64;
use crate::physical::{phys_range, read_physical_range, zeros, ReadPhysicalMemory};
use crate::reader::or_zero_u64;
use crate::translate::DriverContext;

verus! {

/// Size of one big-pool table entry.
pub const POOL_ENTRY_SIZE: u64 = 0x18;
/// Size of the allocation that holds the guarded region's pointers.
pub const GUARDED_POOL_BYTES: u64 = 0x20_0000;
/// Offset of the world pointer within that allocation.
pub const UWORLD: u64 = 0x60;

impl<P: ReadPhysicalMemory> DriverContext<P> {
    /// Entry `i` of the big-pool table at `table`: its virtual address (bytes
    /// 0..8) and allocation size (bytes 16..24), zero where unreadable.
    pub open spec fn spec_pool_entry(&self, space: ProcessContext, table: u64, i: int) -> (u64, u64) {
        let b = or_zeros(
            self.spec_read(space.directory_table_base, table + POOL_ENTRY_SIZE * i, POOL_ENTRY_SIZE as int),
            POOL_ENTRY_SIZE as int,
        );
        (field_u64(b, 0), field_u64(b, 16))
    }

    /// Whether entry `i` is an allocation of `GUARDED_POOL_BYTES` whose world
    /// pointer lies in a guarded region.
    pub open spec fn spec_is_guarded_pool(&self, space: ProcessContext, table: u64, i: int) -> bool {
        let (va, bytes) = self.spec_pool_entry(space, table, i);
        bytes == GUARDED_POOL_BYTES && spec_is_guarded_addr(
            or_zero_u64(self.spec_read(space.directory_table_base, va + UWORLD, 8)),
        )
    }

    /// The address of the first guarded allocation among entries `[i, size)`.
    pub open spec fn spec_guarded_from(&self, space: ProcessContext, table: u64, size: u64, i: int) -> Result<u64, ()>
        decreases size - i,
    {
        if i < 0 || i >= size {
            Err(())
        } else if self.spec_is_guarded_pool(space, table, i) {
            Ok(self.spec_pool_entry(space, table, i).0)
        } else {
            self.spec_guarded_from(space, table, size, i + 1)
        }
    }

    fn guarded_pool_entry(
        &mut self,
        space: &ProcessContext,
        table: u64,
        i: u64,
        Ghost(init): Ghost<Self>,
    ) -> (r: Option<u64>)
        requires
            old(self).agrees_with(&init),
            init.tlb.wf(),
        ensures
            r == (if init.spec_is_guarded_pool(*space, table, i as int) {
                Some(init.spec_pool_entry(*space, table, i as int).0)
            } else {
                None
            }),
            final(self).agrees_with(&init),
    {
        let b = if i <= u64::MAX / POOL_ENTRY_SIZE {
            self.read_bytes_at(space, table, POOL_ENTRY_SIZE * i, POOL_ENTRY_SIZE as usize, Ghost(init))
        } else {
            proof {
                init.lemma_agree_read(&init, space.directory_table_base, table + POOL_ENTRY_SIZE * i, POOL_ENTRY_SIZE as int);
            }
            let z = vec![0u8; POOL_ENTRY_SIZE as usize];
            assert(z@ =~= crate::physical::zeros(POOL_ENTRY_SIZE as int));
            z
        };
        let va = read_le_u64(b.as_slice(), 0);
        let bytes = read_le_u64(b.as_slice(), 16);
        if bytes != GUARDED_POOL_BYTES {
            return None;
        }
        let uworld = self.read_u64_at(space, va, UWORLD, Ghost(init));
        if is_guarded_addr(uworld) {
            Some(va)
        } else {
            None
        }
    }
}

/// Searches the first `bigpool_table_size` entries of the kernel's big-pool
/// table for the allocation that holds the guarded region: one of
/// `GUARDED_POOL_BYTES` whose world pointer is a guarded address. Returns its
/// virtual address; `Err` when no entry qualifies (the region may not exist
/// yet, and the caller may retry).
pub fn get_guarded_memory_address<P: ReadPhysicalMemory>(
    mem_ctx: &mut MemoryContext<P>,
    bigpool_table: u64,
    bigpool_table_size: u64,
) -> (r: Result<u64, ()>)
    ensures
        r == old(mem_ctx).driver_ctx.spec_guarded_from(
            old(mem_ctx).kernel_ctx.spec_as_process(),
            bigpool_table,
            bigpool_table_size,
            0,
        ),
        final(mem_ctx).driver_ctx.agrees_with(&old(mem_ctx).driver_ctx),
        final(mem_ctx).kernel_ctx == old(mem_ctx).kernel_ctx,
        final(mem_ctx).process_ctx == old(mem_ctx).process_ctx,
        final(mem_ctx).eproc_ctx == old(mem_ctx).eproc_ctx,
        final(mem_ctx).shadow_memory_physical_address == old(mem_ctx).shadow_memory_physical_address,
{
    mem_ctx.driver_ctx.tlb.check_wf();
    let ghost init = mem_ctx.driver_ctx;
    proof {
        init.lemma_agree_refl();
    }
    let space = mem_ctx.kernel_ctx.as_process();
    let mut i: u64 = 0;
    while i < bigpool_table_size
        invariant
            i <= bigpool_table_size,
            init == old(mem_ctx).driver_ctx,
            init.tlb.wf(),
            space == old(mem_ctx).kernel_ctx.spec_as_process(),
            mem_ctx.driver_ctx.agrees_with(&init),
            mem_ctx.kernel_ctx == old(mem_ctx).kernel_ctx,
            mem_ctx.process_ctx == old(mem_ctx).process_ctx,
            mem_ctx.eproc_ctx == old(mem_ctx).eproc_ctx,
            mem_ctx.shadow_memory_physical_address == old(mem_ctx).shadow_memory_physical_address,
            init.spec_guarded_from(space, bigpool_table, bigpool_table_size, 0) == init.spec_guarded_from(
                space,
                bigpool_table,
                bigpool_table_size,
                i as int,
            ),
        decreases bigpool_table_size - i,
    {
        if let Some(va) = mem_ctx.driver_ctx.guarded_pool_entry(&space, bigpool_table, i, Ghost(init)) {
            return Ok(va);
        }
        i += 1;
    }
    Err(())
}

/// Mask of the offset of a guarded address within the guarded region.
pub const GUARDED_OFFSET_MASK: u64 = 0x00FF_FFFF;

/// Reads of the game's memory.
pub trait ReadGame {
    /// The little-endian `u64` at `address`; 0 when it cannot be read.
    fn read_u64(&mut self, address: u64) -> u64;

    /// Reads `size` bytes at `address` into `out_buffer`; returns whether all
    /// of them were obtained, zeros in the buffer otherwise.
    fn read_into(&mut self, address: u64, out_buffer: &mut Vec<u8>, size: usize) -> bool;
}

/// The state of an inspection of the game: the memory context, the game's
/// process, the physical base of its guarded region and the decoded tables.
pub struct ValorantContext<P: ReadPhysicalMemory> {
    pub valorant: ProcessContext,
    pub mem_ctx: MemoryContext<P>,
    pub guarded_memory_physical: u64,
    pub game_engine: GameEngine,
    pub weapon_data: WeaponData,
    pub agent_data_manager: AgentManager,
    pub map_name: String,
    pub please_exit: bool,
    /// Names decoded so far, by pool entry id.
    pub fname_cache: Vec<(u32, String)>,
}

impl<P: ReadPhysicalMemory> ValorantContext<P> {
    /// The bytes at `address`: a guarded address is read from physical
    /// memory at the guarded region's base plus its low 24 bits (nothing when
    /// that sum leaves the address space), any other through the game's
    /// address space.
    pub open spec fn spec_game_read(&self, address: u64, size: int) -> Option<Seq<u8>> {
        if spec_is_guarded_addr(address) {
            if self.guarded_memory_physical + (address & GUARDED_OFFSET_MASK) > u64::MAX {
                None
            } else {
                phys_range(
                    self.mem_ctx.driver_ctx.mem(),
                    self.guarded_memory_physical + (address & GUARDED_OFFSET_MASK),
                    size,
                )
            }
        } else {
            self.mem_ctx.driver_ctx.spec_read(self.valorant.directory_table_base, address as int, size)
        }
    }

    /// Reads `size` bytes at `address`, routed as `spec_game_read` says.
    pub fn read_game(&mut self, address: u64, out_buffer: &mut Vec<u8>, size: usize) -> (ok: bool)
        ensures
            final(out_buffer)@.len() == size,
            ok == old(self).spec_game_read(address, size as int) is Some,
            ok ==> Some(final(out_buffer)@) == old(self).spec_game_read(address, size as int),
            !ok ==> final(out_buffer)@ == zeros(size as int),
            final(self).mem_ctx.driver_ctx.agrees_with(&old(self).mem_ctx.driver_ctx),
            final(self).valorant == old(self).valorant,
            final(self).guarded_memory_physical == old(self).guarded_memory_physical,
            final(self).fname_cache == old(self).fname_cache,
            final(self).game_engine == old(self).game_engine,
    {
        self.mem_ctx.driver_ctx.tlb.check_wf();
        if is_guarded_addr(address) {
            let offset = address & GUARDED_OFFSET_MASK;
            proof {
                self.mem_ctx.driver_ctx.lemma_agree_refl();
            }
            let r = if self.guarded_memory_physical <= u64::MAX - offset {
                read_physical_range(&self.mem_ctx.driver_ctx.provider, self.guarded_memory_physical + offset, size)
            } else {
                None
            };
            match r {
                Some(v) => {
                    *out_buffer = v;
                    true
                },
                None => {
                    let z = vec![0u8; size];
                    assert(z@ =~= zeros(size as int));
                    *out_buffer = z;
                    false
                },
            }
        } else {
            let process = self.valorant;
            self.mem_ctx.driver_ctx.read_virtual_memory_into(&process, address, out_buffer, size)
        }
    }
}

impl<P: ReadPhysicalMemory> ReadGame for ValorantContext<P> {
    fn read_u64(&mut self, address: u64) -> u64 {
        let mut out: Vec<u8> = Vec::new();
        if self.read_game(address, &mut out, 8) {
            read_le_u64(out.as_slice(), 0)
        } else {
            0
        }
    }

    fn read_into(&mut self, address: u64, out_buffer: &mut Vec<u8>, size: usize) -> bool {
        self.read_game(address, out_buffer, size)
    }
}

/// Offset of the name pool's chunk table from the game module's base.
pub const FNAME_POOL: u64 = 0xA7B6780;
/// Size of a name-pool entry record: index, header and 1024 name bytes.
pub const FNAME_ENTRY_SIZE: usize = 1030;

impl<P: ReadPhysicalMemory> ValorantContext<P> {
    /// Contexts whose drivers agree read the game alike.
    pub proof fn lemma_agree_game_read(&self, other: &Self, address: u64, size: int)
        requires
            self.mem_ctx.driver_ctx.agrees_with(&other.mem_ctx.driver_ctx),
            self.valorant == other.valorant,
            self.guarded_memory_physical == other.guarded_memory_physical,
        ensures
            self.spec_game_read(address, size) == other.spec_game_read(address, size),
    {
        self.mem_ctx.driver_ctx.lemma_agree_read(
            &other.mem_ctx.driver_ctx,
            self.valorant.directory_table_base,
            address as int,
            size,
        );
    }

    /// A game read that succeeds yields as many bytes as were asked for.
    pub proof fn lemma_game_read_len(&self, address: u64, size: int)
        requires
            size >= 0,
        ensures
            self.spec_game_read(address, size) matches Some(b) ==> b.len() == size,
    {
        crate::reader::lemma_virtual_bytes_len(
            self.mem_ctx.driver_ctx.tlb@,
            self.mem_ctx.driver_ctx.mem(),
            self.valorant.directory_table_base,
            address as int,
            size,
            self.mem_ctx.driver_ctx.now_ms,
        );
    }

    /// The record bytes of name-pool entry `entry_id`: the chunk pointer is
    /// read from the chunk table at the module base plus `FNAME_POOL`, slot
    /// `(entry_id >> 16) + 2`; the entry lies at that chunk plus four times
    /// the low 16 bits. Unreadable parts read as zero.
    pub open spec fn spec_fname_entry_bytes(&self, entry_id: u32) -> Result<Seq<u8>, FNameError> {
        let slot = self.valorant.base_addr + FNAME_POOL + ((entry_id >> 16u32) + 2) * 8;
        if slot > u64::MAX {
            Err(FNameError::Overflow)
        } else {
            let chunk = or_zero_u64(self.spec_game_read(slot as u64, 8));
            let at = chunk + 4 * (entry_id & 0xFFFF);
            if at > u64::MAX {
                Err(FNameError::Overflow)
            } else {
                Ok(or_zeros(self.spec_game_read(at as u64, FNAME_ENTRY_SIZE as int), FNAME_ENTRY_SIZE as int))
            }
        }
    }
}

/// Whether `e` is the entry record held by `b`.
pub open spec fn fname_entry_of(e: FNameEntry, b: Seq<u8>) -> bool {
    &&& e.spec_index() == le_u32(b.subrange(0, 4))
    &&& e.spec_header().0 == le_u16(b.subrange(4, 6))
    &&& e.spec_name() == b.subrange(6, FNAME_ENTRY_SIZE as int)
}

/// The name bytes of an entry record.
fn name_bytes(b: &Vec<u8>) -> (r: [u8; 1024])
    requires
        b@.len() == FNAME_ENTRY_SIZE,
    ensures
        r@ == b@.subrange(6, FNAME_ENTRY_SIZE as int),
{
    let mut name = [0u8; 1024];
    let mut i: usize = 0;
    while i < 1024
        invariant
            b@.len() == FNAME_ENTRY_SIZE,
            i <= 1024,
            name@.len() == 1024,
            forall|t: int| 0 <= t < i ==> name@[t] == b@[6 + t],
        decreases 1024 - i,
    {
        name.set(i, b[6 + i]);
        i += 1;
    }
    assert(name@ =~= b@.subrange(6, FNAME_ENTRY_SIZE as int));
    name
}

/// Reads name-pool entry `entry_id` of the game.
pub fn get_fname_entry<P: ReadPhysicalMemory>(val_ctx: &mut ValorantContext<P>, entry_id: u32) -> (r: Result<FNameEntry, FNameError>)
    ensures
        match old(val_ctx).spec_fname_entry_bytes(entry_id) {
            Ok(b) => r matches Ok(e) && fname_entry_of(e, b),
            Err(x) => r == Err::<FNameEntry, FNameError>(x),
        },
        final(val_ctx).mem_ctx.driver_ctx.agrees_with(&old(val_ctx).mem_ctx.driver_ctx),
        final(val_ctx).valorant == old(val_ctx).valorant,
        final(val_ctx).guarded_memory_physical == old(val_ctx).guarded_memory_physical,
        final(val_ctx).fname_cache == old(val_ctx).fname_cache,
        final(val_ctx).game_engine == old(val_ctx).game_engine,
{
    val_ctx.mem_ctx.driver_ctx.tlb.check_wf();
    let ghost init = *val_ctx;
    proof {
        init.mem_ctx.driver_ctx.lemma_agree_refl();
    }
    let chunk_offset = (entry_id >> 16) as u64;
    let name_offset = (entry_id & 0xFFFF) as u64;
    assert((entry_id >> 16u32) <= 0xFFFF) by (bit_vector);
    let base = val_ctx.valorant.base_addr;
    let step = FNAME_POOL + (chunk_offset + 2) * 8;
    if base > u64::MAX - step {
        return Err(FNameError::Overflow);
    }
    let mut slot_bytes: Vec<u8> = Vec::new();
    let ok = val_ctx.read_game(base + step, &mut slot_bytes, 8);
    let chunk = if ok {
        read_le_u64(slot_bytes.as_slice(), 0)
    } else {
        0
    };
    proof {
        assert(slot_bytes@.subrange(0, 8) =~= slot_bytes@);
        val_ctx.lemma_agree_game_read(&init, (base + step) as u64, 8);
    }
    if chunk > u64::MAX - 4 * name_offset {
        return Err(FNameError::Overflow);
    }
    let ghost mid = *val_ctx;
    let mut b: Vec<u8> = Vec::new();
    val_ctx.read_game(chunk + 4 * name_offset, &mut b, FNAME_ENTRY_SIZE);
    proof {
        val_ctx.mem_ctx.driver_ctx.lemma_agree_trans(&mid.mem_ctx.driver_ctx, &init.mem_ctx.driver_ctx);
        mid.lemma_agree_game_read(&init, (chunk + 4 * name_offset) as u64, FNAME_ENTRY_SIZE as int);
    }
    let index = read_le_u32(b.as_slice(), 0);
    let header = read_le_u16(b.as_slice(), 4);
    let name = name_bytes(&b);
    Ok(FNameEntry::new(index, FNameEntryHeader(header), name))
}

/// Relies on `String::from_utf8`: the string that valid UTF-8 bytes encode,
/// and an error exactly when they are not valid UTF-8.
#[verifier::external_body]
fn string_from_utf8(bytes: Vec<u8>) -> (r: Option<String>)
    ensures
        match r {
            Some(s) => valid_utf8(bytes@) && s@ == decode_utf8(bytes@),
            None => !valid_utf8(bytes@),
        },
{
    String::from_utf8(bytes).ok()
}

impl<P: ReadPhysicalMemory> ValorantContext<P> {
    /// The name of pool entry `entry_id`, decrypted with the engine's name
    /// key: `InvalidLength` when the entry's length exceeds 255,
    /// `InvalidEncoding` when the result is not UTF-8.
    fn decode_fname(&mut self, entry_id: u32) -> (r: Result<String, FNameError>)
        ensures
            match old(self).spec_fname_entry_bytes(entry_id) {
                Err(x) => r == Err::<String, FNameError>(x),
                Ok(b) => {
                    let len = le_u16(b.subrange(4, 6)) / 2;
                    let plain = Seq::new(
                        len as nat,
                        |i: int| decrypted_byte(b[6 + i], len as u8, old(self).game_engine.fname_decryption_key, i),
                    );
                    if len > 255 {
                        r == Err::<String, FNameError>(FNameError::InvalidLength)
                    } else if !valid_utf8(plain) {
                        r == Err::<String, FNameError>(FNameError::InvalidEncoding)
                    } else {
                        r matches Ok(s) && s@ == decode_utf8(plain)
                    }
                },
            },
            final(self).mem_ctx.driver_ctx.agrees_with(&old(self).mem_ctx.driver_ctx),
            final(self).fname_cache == old(self).fname_cache,
    {
        self.mem_ctx.driver_ctx.tlb.check_wf();
        let key = self.game_engine.fname_decryption_key;
        let entry = match get_fname_entry(self, entry_id) {
            Ok(e) => e,
            Err(x) => {
                return Err(x);
            },
        };
        let plain = match entry.decrypt_name(key) {
            Ok(p) => p,
            Err(x) => {
                return Err(x);
            },
        };
        proof {
            let b = old(self).spec_fname_entry_bytes(entry_id)->Ok_0;
            let len = le_u16(b.subrange(4, 6)) / 2;
            assert(fname_entry_of(entry, b));
            let slot = old(self).valorant.base_addr + FNAME_POOL + ((entry_id >> 16u32) + 2) * 8;
            let chunk = or_zero_u64(old(self).spec_game_read(slot as u64, 8));
            old(self).lemma_game_read_len((chunk + 4 * (entry_id & 0xFFFF)) as u64, FNAME_ENTRY_SIZE as int);
            assert(b.len() == FNAME_ENTRY_SIZE);
            assert forall|i: int| 0 <= i < len implies entry.spec_name()[i] == b[6 + i] by {
                assert(b.subrange(6, FNAME_ENTRY_SIZE as int)[i] == b[6 + i]);
            }
            assert(plain@ =~= Seq::new(
                len as nat,
                |i: int| decrypted_byte(b[6 + i], len as u8, key, i),
            ));
        }
        match string_from_utf8(plain) {
            Some(s) => Ok(s),
            None => Err(FNameError::InvalidEncoding),
        }
    }
}

impl<P: ReadPhysicalMemory> ValorantContext<P> {
    /// The name cached for `entry_id`: that of its first cache entry.
    pub open spec fn spec_cached_fname(&self, entry_id: u32) -> Option<String> {
        if exists|i: int| 0 <= i < self.fname_cache@.len() && #[trigger] self.fname_cache@[i].0 == entry_id {
            let i = choose|i: int|
                0 <= i < self.fname_cache@.len() && #[trigger] self.fname_cache@[i].0 == entry_id && forall|t: int|
                    0 <= t < i ==> #[trigger] self.fname_cache@[t].0 != entry_id;
            Some(self.fname_cache@[i].1)
        } else {
            None
        }
    }

    fn cached_fname(&self, entry_id: u32) -> (r: Option<String>)
        ensures
            r == self.spec_cached_fname(entry_id),
    {
        let mut i: usize = 0;
        while i < self.fname_cache.len()
            invariant
                forall|t: int| 0 <= t < i ==> #[trigger] self.fname_cache@[t].0 != entry_id,
            decreases self.fname_cache@.len() - i,
        {
            if self.fname_cache[i].0 == entry_id {
                let ghost j = choose|j: int|
                    0 <= j < self.fname_cache@.len() && #[trigger] self.fname_cache@[j].0 == entry_id && forall|t: int|
                        0 <= t < j ==> #[trigger] self.fname_cache@[t].0 != entry_id;
                assert(j == i) by {
                    if j > i {
                        assert(self.fname_cache@[i as int].0 == entry_id);
                    }
                }
                return Some(self.fname_cache[i].1.clone());
            }
            i += 1;
        }
        None
    }

    /// The name of pool entry `entry_id`: the cached one if there is one,
    /// else the decoded one (see `decode_fname`), which is cached when it
    /// decodes, so later calls return it.
    pub fn get_fname(&mut self, entry_id: u32) -> (r: Result<String, FNameError>)
        ensures
            match old(self).spec_cached_fname(entry_id) {
                Some(s) => r == Ok::<String, FNameError>(s) && final(self).fname_cache@ == old(self).fname_cache@,
                None => {
                    &&& match old(self).spec_fname_entry_bytes(entry_id) {
                        Err(x) => r == Err::<String, FNameError>(x),
                        Ok(b) => {
                            let len = le_u16(b.subrange(4, 6)) / 2;
                            let plain = Seq::new(
                                len as nat,
                                |i: int| decrypted_byte(b[6 + i], len as u8, old(self).game_engine.fname_decryption_key, i),
                            );
                            if len > 255 {
                                r == Err::<String, FNameError>(FNameError::InvalidLength)
                            } else if !valid_utf8(plain) {
                                r == Err::<String, FNameError>(FNameError::InvalidEncoding)
                            } else {
                                r matches Ok(s) && s@ == decode_utf8(plain)
                            }
                        },
                    }
                    &&& final(self).fname_cache@ == match r {
                        Ok(s) => old(self).fname_cache@.push((entry_id, s)),
                        Err(_) => old(self).fname_cache@,
                    }
                },
            },
            r matches Ok(s) ==> final(self).spec_cached_fname(entry_id) == Some(s),
            final(self).mem_ctx.driver_ctx.agrees_with(&old(self).mem_ctx.driver_ctx),
    {
        self.mem_ctx.driver_ctx.tlb.check_wf();
        proof {
            self.mem_ctx.driver_ctx.lemma_agree_refl();
        }
        if let Some(s) = self.cached_fname(entry_id) {
            return Ok(s);
        }
        let r = self.decode_fname(entry_id);
        if let Ok(s) = &r {
            let ghost before = self.fname_cache@;
            self.fname_cache.push((entry_id, s.clone()));
            proof {
                let c = self.fname_cache@;
                let n = before.len() as int;
                assert(c[n].0 == entry_id);
                assert forall|t: int| 0 <= t < n implies #[trigger] c[t].0 != entry_id by {
                    assert(c[t] == before[t]);
                    if before[t].0 == entry_id {
                        assert(old(self).spec_cached_fname(entry_id) is Some);
                    }
                }
                let j = choose|j: int|
                    0 <= j < c.len() && #[trigger] c[j].0 == entry_id && forall|t: int| 0 <= t < j ==> #[trigger] c[t].0 != entry_id;
                assert(j == n) by {
                    if j < n {
                        assert(c[j] == before[j]);
                    }
                }
            }
        }
        r
    }
}

} // verus!
