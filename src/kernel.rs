//! Discovery of the kernel: its page-table root from the processor bootstrap
//! block in low physical memory, then its image by probing aligned virtual
//! candidates for a valid executable header.
use vstd::prelude::*;
use vstd::string::StringSliceAdditionalSpecFns;
use crate::context::{KernelContext, MemoryContext};
use crate::scan::{find_pattern_virtual_memory, pattern_error, resolve_relative_address, scan_result};
use crate::exports::or_zeros;
use crate::pe::{
    dos_header_of, dos_header_sane, nt_headers_of, parse_dos_header, parse_nt_headers,
    zero_nt_headers, DosHeader, NtHeaders, DOS_HEADER_SIZE, DOS_SIGNATURE, FILE_HEADER_SIZE,
    MAX_LFANEW, NT_HEADERS_SIZE, NT_SIGNATURE,
};
use crate::physical::{phys_range, phys_u64, read_physical_range, read_physical_u64, ReadPhysicalMemory};
use crate::translate::DriverContext;

verus! {

/// Pages of low physical memory probed for the bootstrap block.
pub const LOW_STUB_PAGES: u64 = 0x100;
/// Number of 1 MiB-aligned candidates probed for the kernel image.
pub const KERNEL_CANDIDATES: u64 = 0x10000;
/// Distance between kernel image candidates.
pub const KERNEL_CANDIDATE_STEP: u64 = 0x10_0000;
/// The in-page marker that confirms the kernel image.
pub const PAGELK: u64 = 0x4B4C45474150;
/// The export that holds the initial system process.
pub const INITIAL_SYSTEM_PROCESS_EXPORT: &'static str = "PsInitialSystemProcess";

/// The bootstrap block in the page at `page`, if it is one: its jump
/// signature, then the kernel root's virtual address and the physical root,
/// both of the expected shape and non-zero.
pub open spec fn low_stub_at(mem: Map<int, u8>, page: u64) -> Option<(u64, u64)> {
    let stub = phys_u64(mem, page as int);
    let cr3_va = phys_u64(mem, page + 0x70);
    let cr3_pa = phys_u64(mem, page + 0xA0);
    if stub & 0xFFFF_FFFF_FFFF_00FF == 0x0000_0001_0006_00E9 && cr3_va & 0xFFFF_F800_0000_0003
        == 0xFFFF_F800_0000_0000 && cr3_pa & 0xFFFF_FF00_0000_0FFF == 0 && cr3_va != 0 && cr3_pa
        != 0 {
        Some((cr3_va, cr3_pa))
    } else {
        None
    }
}

/// The first bootstrap block among the low pages from `i` on.
pub open spec fn low_stub_from(mem: Map<int, u8>, i: int) -> Option<(u64, u64)>
    decreases LOW_STUB_PAGES - i,
{
    if i < 0 || i >= LOW_STUB_PAGES {
        None
    } else {
        match low_stub_at(mem, (i * 0x1000) as u64) {
            Some(r) => Some(r),
            None => low_stub_from(mem, i + 1),
        }
    }
}

/// Probes the low physical pages for the processor bootstrap block and returns
/// the kernel page-table root as (virtual address, physical address).
pub fn find_halp_low_stub<P: ReadPhysicalMemory>(driver_ctx: &DriverContext<P>) -> (r: Option<(u64, u64)>)
    ensures
        r == low_stub_from(driver_ctx.mem(), 0),
{
    let ghost mem = driver_ctx.mem();
    let mut i: u64 = 0;
    while i < LOW_STUB_PAGES
        invariant
            i <= LOW_STUB_PAGES,
            mem == driver_ctx.mem(),
            low_stub_from(mem, 0) == low_stub_from(mem, i as int),
        decreases LOW_STUB_PAGES - i,
    {
        let page = i * 0x1000;
        let stub = read_physical_u64(&driver_ctx.provider, page);
        let cr3_va = read_physical_u64(&driver_ctx.provider, page + 0x70);
        let cr3_pa = read_physical_u64(&driver_ctx.provider, page + 0xA0);
        if stub & 0xFFFF_FFFF_FFFF_00FF == 0x0000_0001_0006_00E9 && cr3_va & 0xFFFF_F800_0000_0003
            == 0xFFFF_F800_0000_0000 && cr3_pa & 0xFFFF_FF00_0000_0FFF == 0 && cr3_va != 0 && cr3_pa
            != 0 {
            return Some((cr3_va, cr3_pa));
        }
        i += 1;
    }
    None
}

/// Whether the page at physical `base` holds the `PAGELK` marker in one of its
/// aligned 8-byte words from word `i` on.
pub open spec fn marker_from(mem: Map<int, u8>, base: u64, i: int) -> bool
    decreases 512 - i,
{
    if i < 0 || i >= 512 {
        false
    } else {
        phys_u64(mem, base + 8 * i) == PAGELK || marker_from(mem, base, i + 1)
    }
}

fn has_marker<P: ReadPhysicalMemory>(provider: &P, base: u64) -> (r: bool)
    ensures
        r == marker_from(provider.phys_view(), base, 0),
{
    let mut i: u64 = 0;
    while i < 512
        invariant
            i <= 512,
            marker_from(provider.phys_view(), base, 0) == marker_from(provider.phys_view(), base, i as int),
        decreases 512 - i,
    {
        if base <= u64::MAX - 8 * i {
            if read_physical_u64(provider, base + 8 * i) == PAGELK {
                return true;
            }
        } else {
            assert(phys_range(provider.phys_view(), base + 8 * i, 8) is None);
        }
        i += 1;
    }
    false
}

/// The kernel descriptor of every address field zero, for a kernel not found.
pub open spec fn kernel_not_found(cr3_pa: u64, cr3_va: u64) -> KernelContext {
    KernelContext {
        base_virtual: 0,
        base_physical: 0,
        cr3_virt: cr3_va,
        cr3_phys: cr3_pa,
        nt_header: zero_nt_headers(),
        dos_header: DosHeader { e_magic: 0, e_lfanew: 0 },
        image_section_header_ptr: 0,
        ps_initial_system_process: 0,
    }
}

impl<P: ReadPhysicalMemory> DriverContext<P> {
    /// The kernel image at candidate `va`, if it is one: the candidate maps to
    /// a 1 MiB-aligned physical base holding a sane DOS header, NT headers
    /// with their signature and the `PAGELK` marker, and the image exports the
    /// initial system process.
    pub open spec fn spec_kernel_candidate(&self, cr3_pa: u64, cr3_va: u64, va: u64) -> Option<KernelContext> {
        let mem = self.mem();
        let base = self.spec_translate(cr3_pa, va);
        let dos = dos_header_of(or_zeros(phys_range(mem, base as int, DOS_HEADER_SIZE as int), DOS_HEADER_SIZE as int));
        if !dos_header_sane(dos) {
            None
        } else {
            let nt = nt_headers_of(
                or_zeros(phys_range(mem, base + dos.e_lfanew, NT_HEADERS_SIZE as int), NT_HEADERS_SIZE as int),
            );
            if nt.signature != NT_SIGNATURE || base % 0x10_0000 != 0 || !marker_from(mem, base, 0) {
                None
            } else {
                let table = nt.image_base + dos.e_lfanew + 4 + FILE_HEADER_SIZE + nt.size_of_optional_header;
                let k = KernelContext {
                    base_virtual: nt.image_base,
                    base_physical: base,
                    cr3_virt: cr3_va,
                    cr3_phys: cr3_pa,
                    nt_header: nt,
                    dos_header: dos,
                    image_section_header_ptr: if table <= u64::MAX { table as u64 } else { 0 },
                    ps_initial_system_process: 0,
                };
                let export = self.spec_export(k.spec_as_process(), INITIAL_SYSTEM_PROCESS_EXPORT.spec_bytes());
                if export == 0 {
                    None
                } else {
                    Some(KernelContext { ps_initial_system_process: export, ..k })
                }
            }
        }
    }

    /// The first kernel image among the candidates from the `i`-th on.
    pub open spec fn spec_kernel_from(&self, cr3_pa: u64, cr3_va: u64, start: u64, i: int) -> KernelContext
        decreases KERNEL_CANDIDATES - i,
    {
        if i < 0 || i >= KERNEL_CANDIDATES || start + KERNEL_CANDIDATE_STEP * i > u64::MAX {
            kernel_not_found(cr3_pa, cr3_va)
        } else {
            match self.spec_kernel_candidate(cr3_pa, cr3_va, (start + KERNEL_CANDIDATE_STEP * i) as u64) {
                Some(k) => k,
                None => self.spec_kernel_from(cr3_pa, cr3_va, start, i + 1),
            }
        }
    }

    fn kernel_candidate(&mut self, cr3_pa: u64, cr3_va: u64, va: u64, Ghost(init): Ghost<Self>) -> (r:
        Option<KernelContext>)
        requires
            old(self).agrees_with(&init),
            init.tlb.wf(),
        ensures
            r == init.spec_kernel_candidate(cr3_pa, cr3_va, va),
            final(self).agrees_with(&init),
    {
        let ghost before = *self;
        let base = self.translate_linear_address(cr3_pa, va);
        proof {
            self.lemma_agree_trans(&before, &init);
            assert(before.spec_translate(cr3_pa, va) == init.spec_translate(cr3_pa, va));
        }
        let dos = match read_physical_range(&self.provider, base, DOS_HEADER_SIZE) {
            Some(b) => parse_dos_header(b.as_slice()),
            None => {
                let z = vec![0u8; DOS_HEADER_SIZE];
                assert(z@ =~= crate::physical::zeros(DOS_HEADER_SIZE as int));
                parse_dos_header(z.as_slice())
            },
        };
        if !(dos.e_magic == DOS_SIGNATURE && 0 <= dos.e_lfanew && dos.e_lfanew <= MAX_LFANEW) {
            return None;
        }
        let lfanew = dos.e_lfanew as u64;
        let nt = if base <= u64::MAX - lfanew {
            match read_physical_range(&self.provider, base + lfanew, NT_HEADERS_SIZE) {
                Some(b) => parse_nt_headers(b.as_slice()),
                None => {
                    let z = vec![0u8; NT_HEADERS_SIZE];
                    assert(z@ =~= crate::physical::zeros(NT_HEADERS_SIZE as int));
                    parse_nt_headers(z.as_slice())
                },
            }
        } else {
            let z = vec![0u8; NT_HEADERS_SIZE];
            assert(z@ =~= crate::physical::zeros(NT_HEADERS_SIZE as int));
            parse_nt_headers(z.as_slice())
        };
        if nt.signature != NT_SIGNATURE || base % 0x10_0000 != 0 || !has_marker(&self.provider, base) {
            return None;
        }
        let extra: u64 = lfanew + 4 + FILE_HEADER_SIZE + nt.size_of_optional_header as u64;
        let table = if nt.image_base <= u64::MAX - extra { nt.image_base + extra } else { 0 };
        let mut kern = KernelContext {
            base_virtual: nt.image_base,
            base_physical: base,
            cr3_virt: cr3_va,
            cr3_phys: cr3_pa,
            nt_header: nt,
            dos_header: dos,
            image_section_header_ptr: table,
            ps_initial_system_process: 0,
        };
        let ghost before2 = *self;
        let export = self.get_kernel_export(&kern, INITIAL_SYSTEM_PROCESS_EXPORT);
        proof {
            self.lemma_agree_trans(&before2, &init);
            before2.lemma_agree_export(&init, kern.spec_as_process(), INITIAL_SYSTEM_PROCESS_EXPORT.spec_bytes());
        }
        if export == 0 {
            return None;
        }
        kern.ps_initial_system_process = export;
        Some(kern)
    }
}

/// Locates the kernel image: probes 1 MiB-aligned virtual candidates from the
/// 256 MiB-aligned base below `cr3_va`, translating each through `cr3_pa`,
/// and returns the first confirmed one (see `spec_kernel_candidate`). When
/// none is, the descriptor's base addresses are 0.
pub fn get_kernel_base<P: ReadPhysicalMemory>(
    driver_ctx: &mut DriverContext<P>,
    cr3_pa: u64,
    cr3_va: u64,
) -> (r: KernelContext)
    ensures
        r == old(driver_ctx).spec_kernel_from(cr3_pa, cr3_va, cr3_va & 0xFFFF_FFFF_F000_0000, 0),
        final(driver_ctx).agrees_with(old(driver_ctx)),
{
    driver_ctx.tlb.check_wf();
    let ghost init = *driver_ctx;
    proof {
        init.lemma_agree_refl();
    }
    let start = cr3_va & 0xFFFF_FFFF_F000_0000;
    let mut i: u64 = 0;
    while i < KERNEL_CANDIDATES
        invariant
            i <= KERNEL_CANDIDATES,
            init == *old(driver_ctx),
            init.tlb.wf(),
            driver_ctx.agrees_with(&init),
            start == cr3_va & 0xFFFF_FFFF_F000_0000,
            init.spec_kernel_from(cr3_pa, cr3_va, start, 0) == init.spec_kernel_from(cr3_pa, cr3_va, start, i as int),
        decreases KERNEL_CANDIDATES - i,
    {
        if start > u64::MAX - KERNEL_CANDIDATE_STEP * i {
            return not_found(cr3_pa, cr3_va);
        }
        let va = start + KERNEL_CANDIDATE_STEP * i;
        if let Some(k) = driver_ctx.kernel_candidate(cr3_pa, cr3_va, va, Ghost(init)) {
            return k;
        }
        i += 1;
    }
    not_found(cr3_pa, cr3_va)
}

fn not_found(cr3_pa: u64, cr3_va: u64) -> (r: KernelContext)
    ensures
        r == kernel_not_found(cr3_pa, cr3_va),
{
    KernelContext {
        base_virtual: 0,
        base_physical: 0,
        cr3_virt: cr3_va,
        cr3_phys: cr3_pa,
        nt_header: NtHeaders::zeroed(),
        dos_header: DosHeader { e_magic: 0, e_lfanew: 0 },
        image_section_header_ptr: 0,
        ps_initial_system_process: 0,
    }
}

/// The instruction that loads the big-pool table size (`mov r10, [rip+disp32]`
/// then `test`), with its terminator.
pub open spec fn pool_size_signature() -> Seq<u8> {
    seq![0x4Cu8, 0x8B, 0x15, 0x00, 0x00, 0x00, 0x00, 0x48, 0x85]
}

/// Its mask: `?` marks the displacement bytes.
pub open spec fn pool_size_mask() -> Seq<char> {
    seq!['x', 'x', 'x', '?', '?', '?', '?', 'x', 'x']
}

/// The instruction that loads the big-pool table (`mov rdx, [rip+disp32]`,
/// `lea r9, [rip+disp32]`), with its terminator.
pub open spec fn pool_table_signature() -> Seq<u8> {
    seq![0x48u8, 0x8B, 0x15, 0x00, 0x00, 0x00, 0x00, 0x4C, 0x8D, 0x0D, 0x00, 0x00, 0x00, 0x00, 0x4C]
}

/// Its mask: `?` marks the displacement bytes.
pub open spec fn pool_table_mask() -> Seq<char> {
    seq!['x', 'x', 'x', '?', '?', '?', '?', 'x', 'x', 'x', '?', '?', '?', '?', 'x']
}

/// End of the kernel image's virtual range, capped at the top of the address space.
pub open spec fn kernel_image_end(k: KernelContext) -> u64 {
    if k.base_virtual + k.nt_header.size_of_image <= u64::MAX {
        (k.base_virtual + k.nt_header.size_of_image) as u64
    } else {
        u64::MAX
    }
}

impl<P: ReadPhysicalMemory> DriverContext<P> {
    /// The value a pointer-loading instruction found by `sig`/`mask` in the
    /// kernel image refers to: the `u64` at the target of its operand at
    /// byte 3 of 7. `Err` when the instruction is not found.
    pub open spec fn spec_kernel_global(&self, k: KernelContext, sig: Seq<u8>, mask: Seq<char>, r: Result<u64, ()>) -> bool {
        let space = k.spec_as_process();
        let hits = self.virtual_hits(k.cr3_phys, k.base_virtual, sig, mask);
        match r {
            Ok(v) => exists|a: u64|
                #![trigger scan_result(Some(a), k.base_virtual, kernel_image_end(k), hits)]
                scan_result(Some(a), k.base_virtual, kernel_image_end(k), hits) && v == self.spec_field_u64(
                    space,
                    self.spec_relative_address(space, a, 3, 7),
                    0,
                ),
            Err(_) => scan_result(None, k.base_virtual, kernel_image_end(k), hits),
        }
    }
}

impl<P: ReadPhysicalMemory> DriverContext<P> {
    /// States that agree find kernel globals alike.
    pub proof fn lemma_agree_global(&self, other: &Self, k: KernelContext, sig: Seq<u8>, mask: Seq<char>, r: Result<u64, ()>)
        requires
            self.agrees_with(other),
        ensures
            self.spec_kernel_global(k, sig, mask, r) == other.spec_kernel_global(k, sig, mask, r),
    {
        let space = k.spec_as_process();
        let h1 = self.virtual_hits(k.cr3_phys, k.base_virtual, sig, mask);
        let h2 = other.virtual_hits(k.cr3_phys, k.base_virtual, sig, mask);
        assert forall|b: int, j: int| #[trigger] h1(b, j) == h2(b, j) by {
            self.lemma_agree_read(other, k.cr3_phys, k.base_virtual + crate::scan::SCAN_BLOCK * b, crate::scan::scan_read_size(sig));
            self.lemma_agree_read(other, k.cr3_phys, k.base_virtual + crate::scan::SCAN_BLOCK * b, crate::scan::SCAN_BLOCK as int);
        }
        assert(h1 =~= h2);
        assert forall|a: u64| #[trigger] self.spec_relative_address(space, a, 3, 7) == other.spec_relative_address(space, a, 3, 7)
            && self.spec_field_u64(space, self.spec_relative_address(space, a, 3, 7), 0) == other.spec_field_u64(
                space,
                other.spec_relative_address(space, a, 3, 7),
                0,
            ) by {
            self.lemma_agree_relative(other, space, a, 3, 7);
            self.lemma_agree_read(other, space.directory_table_base, self.spec_relative_address(space, a, 3, 7) + 0, 8);
        }
    }
}

fn kernel_global<P: ReadPhysicalMemory>(
    mem_ctx: &mut MemoryContext<P>,
    signature: &[u8],
    signature_mask: &[char],
) -> (r: Result<u64, ()>)
    requires
        pattern_error(signature@, signature_mask@) is None,
    ensures
        old(mem_ctx).driver_ctx.spec_kernel_global(old(mem_ctx).kernel_ctx, signature@, signature_mask@, r),
        final(mem_ctx).driver_ctx.agrees_with(&old(mem_ctx).driver_ctx),
        final(mem_ctx).kernel_ctx == old(mem_ctx).kernel_ctx,
        final(mem_ctx).process_ctx == old(mem_ctx).process_ctx,
        final(mem_ctx).eproc_ctx == old(mem_ctx).eproc_ctx,
        final(mem_ctx).shadow_memory_physical_address == old(mem_ctx).shadow_memory_physical_address,
{
    mem_ctx.driver_ctx.tlb.check_wf();
    let ghost init = mem_ctx.driver_ctx;
    let kernel_process = mem_ctx.kernel_ctx.as_process();
    let base = mem_ctx.kernel_ctx.base_virtual;
    let size = mem_ctx.kernel_ctx.nt_header.size_of_image as u64;
    let end = if base <= u64::MAX - size { base + size } else { u64::MAX };
    let found = find_pattern_virtual_memory(
        &mut mem_ctx.driver_ctx,
        &kernel_process,
        base,
        end,
        signature,
        signature_mask,
    );
    let instruction = match found {
        Ok(Some(a)) => a,
        _ => {
            return Err(());
        },
    };
    let ghost mid = mem_ctx.driver_ctx;
    let pointer = resolve_relative_address(mem_ctx, &kernel_process, instruction, 3, 7);
    let ghost mid2 = mem_ctx.driver_ctx;
    let value = mem_ctx.driver_ctx.read_virtual_u64(&kernel_process, pointer);
    proof {
        mid2.lemma_agree_trans(&mid, &init);
        mem_ctx.driver_ctx.lemma_agree_trans(&mid2, &init);
        mid.lemma_agree_relative(&init, kernel_process, instruction, 3, 7);
        mid2.lemma_agree_read(&init, kernel_process.directory_table_base, pointer as int, 8);
        assert(pointer + 0 == pointer);
        let k = mem_ctx.kernel_ctx;
        assert(end == kernel_image_end(k));
        assert(scan_result(Some(instruction), k.base_virtual, kernel_image_end(k), init.virtual_hits(k.cr3_phys, k.base_virtual, signature@, signature_mask@)));
        assert(value == init.spec_field_u64(kernel_process, init.spec_relative_address(kernel_process, instruction, 3, 7), 0));
    }
    Ok(value)
}

/// Finds the size of the kernel's big-pool table through the instruction
/// that loads it.
pub fn get_big_pool_table_size<P: ReadPhysicalMemory>(mem_ctx: &mut MemoryContext<P>) -> (r: Result<u64, ()>)
    ensures
        old(mem_ctx).driver_ctx.spec_kernel_global(old(mem_ctx).kernel_ctx, pool_size_signature(), pool_size_mask(), r),
        final(mem_ctx).driver_ctx.agrees_with(&old(mem_ctx).driver_ctx),
        final(mem_ctx).kernel_ctx == old(mem_ctx).kernel_ctx,
        final(mem_ctx).process_ctx == old(mem_ctx).process_ctx,
        final(mem_ctx).eproc_ctx == old(mem_ctx).eproc_ctx,
        final(mem_ctx).shadow_memory_physical_address == old(mem_ctx).shadow_memory_physical_address,
{
    mem_ctx.driver_ctx.tlb.check_wf();
    let signature: Vec<u8> = vec![0x4Cu8, 0x8B, 0x15, 0x00, 0x00, 0x00, 0x00, 0x48, 0x85];
    let mask: Vec<char> = vec!['x', 'x', 'x', '?', '?', '?', '?', 'x', 'x'];
    assert(signature@ =~= pool_size_signature());
    assert(mask@ =~= pool_size_mask());
    kernel_global(mem_ctx, signature.as_slice(), mask.as_slice())
}

/// Finds the kernel's big-pool table and its size, each through the
/// instruction that loads it.
pub fn get_big_pool_table<P: ReadPhysicalMemory>(mem_ctx: &mut MemoryContext<P>) -> (r: Result<(u64, u64), ()>)
    ensures
        ({
            let d = old(mem_ctx).driver_ctx;
            let k = old(mem_ctx).kernel_ctx;
            match r {
                Ok((table, size)) => d.spec_kernel_global(k, pool_table_signature(), pool_table_mask(), Ok(table))
                    && d.spec_kernel_global(k, pool_size_signature(), pool_size_mask(), Ok(size)),
                Err(_) => d.spec_kernel_global(k, pool_table_signature(), pool_table_mask(), Err(()))
                    || d.spec_kernel_global(k, pool_size_signature(), pool_size_mask(), Err(())),
            }
        }),
        final(mem_ctx).driver_ctx.agrees_with(&old(mem_ctx).driver_ctx),
        final(mem_ctx).kernel_ctx == old(mem_ctx).kernel_ctx,
        final(mem_ctx).process_ctx == old(mem_ctx).process_ctx,
        final(mem_ctx).eproc_ctx == old(mem_ctx).eproc_ctx,
        final(mem_ctx).shadow_memory_physical_address == old(mem_ctx).shadow_memory_physical_address,
{
    mem_ctx.driver_ctx.tlb.check_wf();
    let ghost init = mem_ctx.driver_ctx;
    let signature: Vec<u8> = vec![0x48u8, 0x8B, 0x15, 0x00, 0x00, 0x00, 0x00, 0x4C, 0x8D, 0x0D, 0x00, 0x00, 0x00, 0x00, 0x4C];
    let mask: Vec<char> = vec!['x', 'x', 'x', '?', '?', '?', '?', 'x', 'x', 'x', '?', '?', '?', '?', 'x'];
    assert(signature@ =~= pool_table_signature());
    assert(mask@ =~= pool_table_mask());
    let table = kernel_global(mem_ctx, signature.as_slice(), mask.as_slice());
    let table = match table {
        Ok(t) => t,
        Err(()) => {
            return Err(());
        },
    };
    let ghost mid = mem_ctx.driver_ctx;
    let size = get_big_pool_table_size(mem_ctx);
    proof {
        mem_ctx.driver_ctx.lemma_agree_trans(&mid, &init);
        mid.lemma_agree_global(&init, mem_ctx.kernel_ctx, pool_size_signature(), pool_size_mask(), size);
    }
    match size {
        Ok(s) => Ok((table, s)),
        Err(()) => Err(()),
    }
}

} // verus!
