//! Masked byte-pattern scanning over virtual or physical ranges, and the
//! resolution of instruction-relative operands.
use vstd::prelude::*;
use crate::context::{MemoryContext, ProcessContext};
use crate::physical::{phys_range, read_physical_range, ReadPhysicalMemory};
use crate::reader::or_zero_u32;
use crate::translate::DriverContext;

verus! {

/// Bytes of candidate start positions per block read.
pub const SCAN_BLOCK: u64 = 0x1000;

/// Why a signature could not be scanned for.
#[derive(Clone, Copy, Debug, PartialEq, Eq, Structural)]
pub enum PatternError {
    /// Signature or mask has no element.
    Empty,
    /// Signature and mask differ in length.
    LengthMismatch,
    /// The compared part of the signature is longer than a scan block.
    TooLong,
}

/// The error for a signature and mask, if any. The last element of each is a
/// terminator, so `len - 1` elements are compared.
pub open spec fn pattern_error(sig: Seq<u8>, mask: Seq<char>) -> Option<PatternError> {
    if sig.len() != mask.len() {
        Some(PatternError::LengthMismatch)
    } else if sig.len() == 0 {
        Some(PatternError::Empty)
    } else if sig.len() - 1 > SCAN_BLOCK {
        Some(PatternError::TooLong)
    } else {
        None
    }
}

/// Bytes read for one scan block: its `SCAN_BLOCK` candidates and the bytes
/// after them that a match at its last candidate covers.
pub open spec fn scan_read_size(sig: Seq<u8>) -> int {
    SCAN_BLOCK + if sig.len() >= 2 { sig.len() - 2 } else { 0 }
}

fn block_read_size(signature: &[u8]) -> (r: usize)
    requires
        1 <= signature@.len() <= SCAN_BLOCK + 1,
    ensures
        r == scan_read_size(signature@),
{
    if signature.len() >= 2 {
        SCAN_BLOCK as usize + (signature.len() - 2)
    } else {
        SCAN_BLOCK as usize
    }
}

/// Whether the signature occurs in `data` at `j`: the first byte always
/// compares, each following compared byte unless its mask is `?`.
pub open spec fn pattern_at(data: Seq<u8>, j: int, sig: Seq<u8>, mask: Seq<char>) -> bool {
    let n = sig.len() - 1;
    &&& 0 <= j
    &&& j + n <= data.len()
    &&& j < data.len()
    &&& data[j] == sig[0]
    &&& forall|k: int| 1 <= k < n ==> mask[k] == '?' || #[trigger] data[j + k] == sig[k]
}

fn check_pattern(signature: &[u8], signature_mask: &[char]) -> (r: Option<PatternError>)
    ensures
        r == pattern_error(signature@, signature_mask@),
{
    if signature.len() != signature_mask.len() {
        Some(PatternError::LengthMismatch)
    } else if signature.len() == 0 {
        Some(PatternError::Empty)
    } else if (signature.len() - 1) as u64 > SCAN_BLOCK {
        Some(PatternError::TooLong)
    } else {
        None
    }
}

fn matches_at(data: &[u8], j: usize, signature: &[u8], signature_mask: &[char]) -> (r: bool)
    requires
        signature@.len() == signature_mask@.len(),
        signature@.len() >= 1,
    ensures
        r == pattern_at(data@, j as int, signature@, signature_mask@),
{
    let n = signature.len() - 1;
    if j >= data.len() || n > data.len() - j || data[j] != signature[0] {
        return false;
    }
    let dlen = data.len();
    let mut k: usize = 1;
    while k < n
        invariant
            dlen == data@.len(),
            1 <= k,
            n == signature@.len() - 1,
            signature@.len() == signature_mask@.len(),
            j + n <= data@.len(),
            forall|t: int| 1 <= t < k && t < n ==> signature_mask@[t] == '?' || #[trigger] data@[j + t]
                == signature@[t],
        decreases n - k,
    {
        assert(j + k < data@.len());
        if data[j + k] != signature[k] && signature_mask[k] != '?' {
            return false;
        }
        k += 1;
    }
    true
}

/// First `j < limit` at which the signature occurs in `data`.
fn first_match(data: &[u8], limit: usize, signature: &[u8], signature_mask: &[char]) -> (r: Option<usize>)
    requires
        signature@.len() == signature_mask@.len(),
        signature@.len() >= 1,
    ensures
        match r {
            Some(j) => j < limit && pattern_at(data@, j as int, signature@, signature_mask@) && forall|
                t: int,
            | 0 <= t < j ==> !pattern_at(data@, t, signature@, signature_mask@),
            None => forall|t: int| 0 <= t < limit ==> !pattern_at(data@, t, signature@, signature_mask@),
        },
{
    let mut j: usize = 0;
    while j < limit
        invariant
            j <= limit,
            signature@.len() == signature_mask@.len(),
            signature@.len() >= 1,
            forall|t: int| 0 <= t < j ==> !pattern_at(data@, t, signature@, signature_mask@),
        decreases limit - j,
    {
        if matches_at(data, j, signature, signature_mask) {
            return Some(j);
        }
        j += 1;
    }
    None
}

/// Finds the first offset of `data` at which the signature occurs, the last
/// element of signature and mask being a terminator that is not compared.
pub fn find_pattern(data: &[u8], signature: &[u8], signature_mask: &[char]) -> (r: Result<
    Option<usize>,
    PatternError,
>)
    ensures
        match pattern_error(signature@, signature_mask@) {
            Some(e) => r == Err::<Option<usize>, PatternError>(e),
            None => match r {
                Ok(Some(j)) => j < data@.len() && pattern_at(data@, j as int, signature@, signature_mask@)
                    && forall|t: int| 0 <= t < j ==> !pattern_at(data@, t, signature@, signature_mask@),
                Ok(None) => forall|t: int|
                    0 <= t < data@.len() ==> !pattern_at(data@, t, signature@, signature_mask@),
                Err(_) => false,
            },
        },
{
    if let Some(e) = check_pattern(signature, signature_mask) {
        return Err(e);
    }
    Ok(first_match(data, data.len(), signature, signature_mask))
}

/// Whether the signature occurs at offset `j` of a block: in the block read
/// with its overlap `wide`, or, where that read failed, in the block alone
/// `narrow`. A block of which neither could be read holds no match.
pub open spec fn block_hit(
    wide: Option<Seq<u8>>,
    narrow: Option<Seq<u8>>,
    j: int,
    sig: Seq<u8>,
    mask: Seq<char>,
) -> bool {
    match wide {
        Some(d) => pattern_at(d, j, sig, mask),
        None => match narrow {
            Some(d) => pattern_at(d, j, sig, mask),
            None => false,
        },
    }
}

/// The outcome of a scan of `[start, end)` whose `k`-th block is read by
/// `read(k)`: the least candidate `start + SCAN_BLOCK * k + j` (with
/// `j < SCAN_BLOCK`) below `end` at which the signature occurs in its block.
pub open spec fn scan_result(
    r: Option<u64>,
    start: u64,
    end: u64,
    hit: spec_fn(int, int) -> bool,
) -> bool {
    match r {
        Some(a) => exists|k: int, j: int|
            #![trigger hit(k, j)]
            {
                &&& 0 <= k
                &&& 0 <= j < SCAN_BLOCK
                &&& a == start + SCAN_BLOCK * k + j
                &&& a < end
                &&& hit(k, j)
                &&& forall|k2: int, j2: int|
                    0 <= k2 && 0 <= j2 < SCAN_BLOCK && (k2 < k || (k2 == k && j2 < j)) ==> !#[trigger] hit(k2, j2)
            },
        None => forall|k: int, j: int|
            0 <= k && 0 <= j < SCAN_BLOCK && start + SCAN_BLOCK * k + j < end ==> !#[trigger] hit(k, j),
    }
}

impl<P: ReadPhysicalMemory> DriverContext<P> {
    /// Whether the signature occurs at offset `j` of the `k`-th virtual scan
    /// block from `start`.
    pub open spec fn spec_virtual_hit(
        &self,
        dtb: u64,
        start: u64,
        k: int,
        j: int,
        sig: Seq<u8>,
        mask: Seq<char>,
    ) -> bool {
        block_hit(
            self.spec_read(dtb, start + SCAN_BLOCK * k, scan_read_size(sig)),
            self.spec_read(dtb, start + SCAN_BLOCK * k, SCAN_BLOCK as int),
            j,
            sig,
            mask,
        )
    }

    /// The virtual scan hits, by block and offset.
    pub open spec fn virtual_hits(&self, dtb: u64, start: u64, sig: Seq<u8>, mask: Seq<char>) -> spec_fn(int, int) -> bool {
        |k: int, j: int| self.spec_virtual_hit(dtb, start, k, j, sig, mask)
    }

    /// The physical scan hits, by block and offset.
    pub open spec fn physical_hits(&self, start: u64, sig: Seq<u8>, mask: Seq<char>) -> spec_fn(int, int) -> bool {
        |k: int, j: int| self.spec_physical_hit(start, k, j, sig, mask)
    }

    /// Whether the signature occurs at offset `j` of the `k`-th physical scan
    /// block from `start`.
    pub open spec fn spec_physical_hit(&self, start: u64, k: int, j: int, sig: Seq<u8>, mask: Seq<char>) -> bool {
        block_hit(
            phys_range(self.mem(), start + SCAN_BLOCK * k, scan_read_size(sig)),
            phys_range(self.mem(), start + SCAN_BLOCK * k, SCAN_BLOCK as int),
            j,
            sig,
            mask,
        )
    }
}

/// Searches one virtual block at `block_start` for the first of its `limit`
/// candidates at which the signature occurs.
fn scan_virtual_block<P: ReadPhysicalMemory>(
    ctx: &mut DriverContext<P>,
    process: &ProcessContext,
    block_start: u64,
    limit: u64,
    signature: &[u8],
    signature_mask: &[char],
    Ghost(init): Ghost<DriverContext<P>>,
) -> (r: Option<u64>)
    requires
        old(ctx).agrees_with(&init),
        init.tlb.wf(),
        signature@.len() == signature_mask@.len(),
        1 <= signature@.len() <= SCAN_BLOCK + 1,
        limit <= SCAN_BLOCK,
    ensures
        ({
            let wide = init.spec_read(
                process.directory_table_base,
                block_start as int,
                scan_read_size(signature@),
            );
            let narrow = init.spec_read(process.directory_table_base, block_start as int, SCAN_BLOCK as int);
            match r {
                Some(j) => j < limit && block_hit(wide, narrow, j as int, signature@, signature_mask@) && forall|t: int|
                    0 <= t < j ==> !block_hit(wide, narrow, t, signature@, signature_mask@),
                None => forall|t: int| 0 <= t < limit ==> !block_hit(wide, narrow, t, signature@, signature_mask@),
            }
        }),
        final(ctx).agrees_with(&init),
{
    let read_size: usize = block_read_size(signature);
    let mut data: Vec<u8> = Vec::new();
    let ghost before = *ctx;
    let ok = ctx.read_virtual_memory_into(process, block_start, &mut data, read_size);
    proof {
        ctx.lemma_agree_trans(&before, &init);
        before.lemma_agree_read(&init, process.directory_table_base, block_start as int, read_size as int);
    }
    if !ok {
        let ghost before2 = *ctx;
        let ok2 = ctx.read_virtual_memory_into(process, block_start, &mut data, SCAN_BLOCK as usize);
        proof {
            ctx.lemma_agree_trans(&before2, &init);
            before2.lemma_agree_read(&init, process.directory_table_base, block_start as int, SCAN_BLOCK as int);
        }
        if !ok2 {
            return None;
        }
    }
    match first_match(data.as_slice(), limit as usize, signature, signature_mask) {
        Some(j) => Some(j as u64),
        None => None,
    }
}

/// Scans the virtual range `[start, end)` of `process` for the signature, in
/// blocks of `SCAN_BLOCK` candidates, each read with enough following bytes
/// to hold a match that starts at its last candidate; where those bytes
/// cannot be read, the block alone is searched, and a block that cannot be
/// read holds no match. Returns the lowest matching address.
pub fn find_pattern_virtual_memory<P: ReadPhysicalMemory>(
    ctx: &mut DriverContext<P>,
    process: &ProcessContext,
    start_addr: u64,
    end_addr: u64,
    signature: &[u8],
    signature_mask: &[char],
) -> (r: Result<Option<u64>, PatternError>)
    ensures
        match pattern_error(signature@, signature_mask@) {
            Some(e) => r == Err::<Option<u64>, PatternError>(e),
            None => match r {
                Ok(found) => scan_result(
                    found,
                    start_addr,
                    end_addr,
                    old(ctx).virtual_hits(process.directory_table_base, start_addr, signature@, signature_mask@),
                ),
                Err(_) => false,
            },
        },
        final(ctx).agrees_with(old(ctx)),
{
    ctx.tlb.check_wf();
    let ghost init = *ctx;
    proof {
        init.lemma_agree_refl();
    }
    if let Some(e) = check_pattern(signature, signature_mask) {
        return Err(e);
    }
    let ghost hit = init.virtual_hits(process.directory_table_base, start_addr, signature@, signature_mask@);
    if start_addr >= end_addr {
        return Ok(None);
    }
    let mut block_start: u64 = start_addr;
    let mut k: u64 = 0;
    loop
        invariant
            start_addr <= block_start < end_addr,
            block_start == start_addr + SCAN_BLOCK * k,
            signature@.len() == signature_mask@.len(),
            1 <= signature@.len() <= SCAN_BLOCK + 1,
            init.tlb.wf(),
            init == *old(ctx),
            ctx.agrees_with(&init),
            hit == init.virtual_hits(process.directory_table_base, start_addr, signature@, signature_mask@),
            forall|k2: int, j2: int| 0 <= k2 < k && 0 <= j2 < SCAN_BLOCK ==> !#[trigger] hit(k2, j2),
        decreases end_addr - block_start,
    {
        let remaining = end_addr - block_start;
        let limit: u64 = if remaining < SCAN_BLOCK { remaining } else { SCAN_BLOCK };
        let found = scan_virtual_block(ctx, process, block_start, limit, signature, signature_mask, Ghost(init));
        match found {
            Some(j) => {
                proof {
                    lemma_scan_found(hit, start_addr, end_addr, k as int, j as int);
                }
                return Ok(Some(block_start + j));
            },
            None => {
                if remaining <= SCAN_BLOCK {
                    proof {
                        lemma_scan_exhausted(hit, start_addr, end_addr, k as int, limit as int);
                    }
                    return Ok(None);
                }
                assert forall|k2: int, j2: int| 0 <= k2 < k + 1 && 0 <= j2 < SCAN_BLOCK implies !#[trigger] hit(k2, j2) by {
                    if k2 == k {
                        assert(!hit(k as int, j2));
                    }
                }
                block_start = block_start + SCAN_BLOCK;
                k = k + 1;
            },
        }
    }
}

proof fn lemma_scan_found(hit: spec_fn(int, int) -> bool, start: u64, end: u64, k: int, j: int)
    requires
        0 <= k,
        0 <= j < SCAN_BLOCK,
        start + SCAN_BLOCK * k + j < end,
        hit(k, j),
        forall|t: int| 0 <= t < j ==> !#[trigger] hit(k, t),
        forall|k2: int, j2: int| 0 <= k2 < k && 0 <= j2 < SCAN_BLOCK ==> !#[trigger] hit(k2, j2),
    ensures
        scan_result(Some((start + SCAN_BLOCK * k + j) as u64), start, end, hit),
{
    assert forall|k2: int, j2: int|
        0 <= k2 && 0 <= j2 < SCAN_BLOCK && (k2 < k || (k2 == k && j2 < j)) implies !#[trigger] hit(k2, j2) by {
        if k2 == k {
            assert(!hit(k, j2));
        }
    }
}

proof fn lemma_scan_exhausted(hit: spec_fn(int, int) -> bool, start: u64, end: u64, k: int, limit: int)
    requires
        0 <= k,
        start + SCAN_BLOCK * k + limit >= end,
        forall|t: int| 0 <= t < limit ==> !#[trigger] hit(k, t),
        forall|k2: int, j2: int| 0 <= k2 < k && 0 <= j2 < SCAN_BLOCK ==> !#[trigger] hit(k2, j2),
        limit <= SCAN_BLOCK,
    ensures
        scan_result(None, start, end, hit),
{
    assert forall|k2: int, j2: int|
        0 <= k2 && 0 <= j2 < SCAN_BLOCK && start + SCAN_BLOCK * k2 + j2 < end implies !#[trigger] hit(k2, j2) by {
        if k2 > k {
            assert(SCAN_BLOCK * k2 >= SCAN_BLOCK * (k + 1)) by (nonlinear_arith)
                requires
                    k2 > k,
            ;
        } else if k2 == k {
            assert(!hit(k, j2));
        }
    }
}

/// Searches one physical block at `block_start` for the first of its `limit`
/// candidates at which the signature occurs.
fn scan_physical_block<P: ReadPhysicalMemory>(
    ctx: &DriverContext<P>,
    block_start: u64,
    limit: u64,
    signature: &[u8],
    signature_mask: &[char],
) -> (r: Option<u64>)
    requires
        signature@.len() == signature_mask@.len(),
        1 <= signature@.len() <= SCAN_BLOCK + 1,
        limit <= SCAN_BLOCK,
    ensures
        ({
            let wide = phys_range(ctx.mem(), block_start as int, scan_read_size(signature@));
            let narrow = phys_range(ctx.mem(), block_start as int, SCAN_BLOCK as int);
            match r {
                Some(j) => j < limit && block_hit(wide, narrow, j as int, signature@, signature_mask@) && forall|t: int|
                    0 <= t < j ==> !block_hit(wide, narrow, t, signature@, signature_mask@),
                None => forall|t: int| 0 <= t < limit ==> !block_hit(wide, narrow, t, signature@, signature_mask@),
            }
        }),
{
    let read_size: usize = block_read_size(signature);
    let data = match read_physical_range(&ctx.provider, block_start, read_size) {
        Some(d) => d,
        None => match read_physical_range(&ctx.provider, block_start, SCAN_BLOCK as usize) {
            Some(d) => d,
            None => {
                return None;
            },
        },
    };
    match first_match(data.as_slice(), limit as usize, signature, signature_mask) {
        Some(j) => Some(j as u64),
        None => None,
    }
}

/// Scans the physical range `[start, end)` for the signature, block by block
/// as the virtual scan does. Returns the lowest matching address.
pub fn search_signature_physical<P: ReadPhysicalMemory>(
    ctx: &DriverContext<P>,
    start_addr: u64,
    end_addr: u64,
    signature: &[u8],
    signature_mask: &[char],
) -> (r: Result<Option<u64>, PatternError>)
    ensures
        match pattern_error(signature@, signature_mask@) {
            Some(e) => r == Err::<Option<u64>, PatternError>(e),
            None => match r {
                Ok(found) => scan_result(
                    found,
                    start_addr,
                    end_addr,
                    ctx.physical_hits(start_addr, signature@, signature_mask@),
                ),
                Err(_) => false,
            },
        },
{
    if let Some(e) = check_pattern(signature, signature_mask) {
        return Err(e);
    }
    let ghost hit = ctx.physical_hits(start_addr, signature@, signature_mask@);
    if start_addr >= end_addr {
        return Ok(None);
    }
    let mut block_start: u64 = start_addr;
    let mut k: u64 = 0;
    loop
        invariant
            start_addr <= block_start < end_addr,
            block_start == start_addr + SCAN_BLOCK * k,
            signature@.len() == signature_mask@.len(),
            1 <= signature@.len() <= SCAN_BLOCK + 1,
            hit == ctx.physical_hits(start_addr, signature@, signature_mask@),
            forall|k2: int, j2: int| 0 <= k2 < k && 0 <= j2 < SCAN_BLOCK ==> !#[trigger] hit(k2, j2),
        decreases end_addr - block_start,
    {
        let remaining = end_addr - block_start;
        let limit: u64 = if remaining < SCAN_BLOCK { remaining } else { SCAN_BLOCK };
        match scan_physical_block(ctx, block_start, limit, signature, signature_mask) {
            Some(j) => {
                proof {
                    lemma_scan_found(hit, start_addr, end_addr, k as int, j as int);
                }
                return Ok(Some(block_start + j));
            },
            None => {
                if remaining <= SCAN_BLOCK {
                    proof {
                        lemma_scan_exhausted(hit, start_addr, end_addr, k as int, limit as int);
                    }
                    return Ok(None);
                }
                assert forall|k2: int, j2: int| 0 <= k2 < k + 1 && 0 <= j2 < SCAN_BLOCK implies !#[trigger] hit(k2, j2) by {
                    if k2 == k {
                        assert(!hit(k as int, j2));
                    }
                }
                block_start = block_start + SCAN_BLOCK;
                k = k + 1;
            },
        }
    }
}

/// The absolute address that an instruction at `instruction` of length
/// `instruction_size` reaches through the signed 32-bit displacement `disp`,
/// modulo 2^64.
pub open spec fn rip_relative_target(instruction: u64, instruction_size: u32, disp: u32) -> u64 {
    let t = instruction as int + instruction_size as int + disp as i32 as int;
    if t > u64::MAX {
        (t - 0x1_0000_0000_0000_0000) as u64
    } else if t < 0 {
        (t + 0x1_0000_0000_0000_0000) as u64
    } else {
        t as u64
    }
}

impl<P: ReadPhysicalMemory> DriverContext<P> {
    /// The target of the instruction-relative operand at
    /// `instruction + offset_offset`, read through `process`.
    pub open spec fn spec_relative_address(
        &self,
        process: ProcessContext,
        instruction: u64,
        offset_offset: u32,
        instruction_size: u32,
    ) -> u64 {
        let disp = or_zero_u32(self.spec_read(process.directory_table_base, instruction + offset_offset, 4));
        rip_relative_target(instruction, instruction_size, disp)
    }
}

impl<P: ReadPhysicalMemory> DriverContext<P> {
    /// States that agree resolve relative operands alike.
    pub proof fn lemma_agree_relative(
        &self,
        other: &Self,
        process: ProcessContext,
        instruction: u64,
        offset_offset: u32,
        instruction_size: u32,
    )
        requires
            self.agrees_with(other),
        ensures
            self.spec_relative_address(process, instruction, offset_offset, instruction_size)
                == other.spec_relative_address(process, instruction, offset_offset, instruction_size),
    {
        self.lemma_agree_read(other, process.directory_table_base, instruction + offset_offset, 4);
    }
}

/// Reads the 32-bit displacement at `instruction + offset_offset` and returns
/// `instruction + instruction_size + displacement`, the absolute address an
/// instruction-relative operand refers to.
pub fn resolve_relative_address<P: ReadPhysicalMemory>(
    mem_ctx: &mut MemoryContext<P>,
    process: &ProcessContext,
    instruction: u64,
    offset_offset: u32,
    instruction_size: u32,
) -> (r: u64)
    ensures
        r == old(mem_ctx).driver_ctx.spec_relative_address(*process, instruction, offset_offset, instruction_size),
        final(mem_ctx).driver_ctx.agrees_with(&old(mem_ctx).driver_ctx),
        final(mem_ctx).kernel_ctx == old(mem_ctx).kernel_ctx,
        final(mem_ctx).process_ctx == old(mem_ctx).process_ctx,
        final(mem_ctx).eproc_ctx == old(mem_ctx).eproc_ctx,
        final(mem_ctx).shadow_memory_physical_address == old(mem_ctx).shadow_memory_physical_address,
{
    mem_ctx.driver_ctx.tlb.check_wf();
    let ghost init = mem_ctx.driver_ctx;
    proof {
        init.lemma_agree_refl();
    }
    let disp = mem_ctx.driver_ctx.read_u32_at(process, instruction, offset_offset as u64, Ghost(init));
    let t: i128 = instruction as i128 + instruction_size as i128 + disp as i32 as i128;
    if t > u64::MAX as i128 {
        (t - 0x1_0000_0000_0000_0000i128) as u64
    } else if t < 0 {
        (t + 0x1_0000_0000_0000_0000i128) as u64
    } else {
        t as u64
    }
}

} // verus!
