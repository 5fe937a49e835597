//! Reassembly of a loaded module's image from remote memory: its headers
//! followed by the contents of each section.
use vstd::prelude::*;
use crate::bytes::{le_u32, read_le_u32};
use crate::context::ProcessContext;
use crate::physical::ReadPhysicalMemory;
use crate::translate::DriverContext;

verus! {

/// Size of one section header record.
pub const SECTION_HEADER_SIZE: u64 = 40;

/// The fields of a section header that the dump reads.
#[derive(Clone, Copy, Debug, PartialEq, Eq)]
pub struct SectionHeader {
    /// At byte 12.
    pub virtual_address: u32,
    /// At byte 16.
    pub size_of_raw_data: u32,
    /// At byte 20.
    pub pointer_to_raw_data: u32,
}

/// The section header held by `b`.
pub open spec fn section_header_of(b: Seq<u8>) -> SectionHeader {
    SectionHeader {
        virtual_address: le_u32(b.subrange(12, 16)),
        size_of_raw_data: le_u32(b.subrange(16, 20)),
        pointer_to_raw_data: le_u32(b.subrange(20, 24)),
    }
}

/// Size of section `i` of `secs`: the distance to the next section's virtual
/// address, or for the last section its raw data size. `None` when the next
/// section starts below this one.
pub open spec fn section_size(secs: Seq<SectionHeader>, i: int) -> Option<u32> {
    if i + 1 < secs.len() {
        if secs[i + 1].virtual_address >= secs[i].virtual_address {
            Some((secs[i + 1].virtual_address - secs[i].virtual_address) as u32)
        } else {
            None
        }
    } else {
        Some(secs[i].size_of_raw_data)
    }
}

impl<P: ReadPhysicalMemory> DriverContext<P> {
    /// The section headers `[0, n)` of the table at `table`, or `None` when one
    /// cannot be read.
    pub open spec fn spec_section_headers(&self, dtb: u64, table: int, n: int) -> Option<Seq<SectionHeader>>
        decreases n,
    {
        if n <= 0 {
            Some(Seq::empty())
        } else {
            match (self.spec_section_headers(dtb, table, n - 1), self.spec_read(dtb, table + SECTION_HEADER_SIZE * (n - 1), SECTION_HEADER_SIZE as int)) {
                (Some(s), Some(b)) => Some(s.push(section_header_of(b))),
                _ => None,
            }
        }
    }

    /// The contents of sections `[0, n)` of `secs` in order, each read at the
    /// module base plus its raw data pointer; `None` when a size is negative
    /// or a section cannot be read.
    pub open spec fn spec_section_data(&self, dtb: u64, base: u64, secs: Seq<SectionHeader>, n: int) -> Option<Seq<u8>>
        decreases n,
    {
        if n <= 0 {
            Some(Seq::empty())
        } else {
            match (self.spec_section_data(dtb, base, secs, n - 1), section_size(secs, n - 1)) {
                (Some(d), Some(size)) => match self.spec_read(dtb, base + secs[n - 1].pointer_to_raw_data, size as int) {
                    Some(b) => Some(d + b),
                    None => None,
                },
                _ => None,
            }
        }
    }

    /// The dump of the module at `base`: `size_of_headers` bytes of headers,
    /// then the sections that the table after the NT headers lists.
    pub open spec fn spec_module_dump(&self, process: ProcessContext, base: u64) -> Option<Seq<u8>> {
        let dtb = process.directory_table_base;
        let n = process.nt_header.number_of_sections as int;
        let table = base + process.dos_header.e_lfanew + crate::pe::NT_HEADERS_SIZE;
        match (self.spec_read(dtb, base as int, process.nt_header.size_of_headers as int), self.spec_section_headers(dtb, table, n)) {
            (Some(h), Some(secs)) => match self.spec_section_data(dtb, base, secs, n) {
                Some(d) => Some(h + d),
                None => None,
            },
            _ => None,
        }
    }
}

impl<P: ReadPhysicalMemory> DriverContext<P> {
    proof fn lemma_headers_len(&self, dtb: u64, table: int, n: int)
        ensures
            self.spec_section_headers(dtb, table, n) matches Some(s) ==> s.len() == if n < 0 { 0 } else { n },
        decreases n,
    {
        if n > 0 {
            self.lemma_headers_len(dtb, table, n - 1);
        }
    }

    proof fn lemma_headers_none(&self, dtb: u64, table: int, i: int, n: int)
        requires
            0 <= i <= n,
            self.spec_section_headers(dtb, table, i) is None,
        ensures
            self.spec_section_headers(dtb, table, n) is None,
        decreases n - i,
    {
        if i < n {
            self.lemma_headers_none(dtb, table, i, n - 1);
        }
    }

    proof fn lemma_data_none(&self, dtb: u64, base: u64, secs: Seq<SectionHeader>, i: int, n: int)
        requires
            0 <= i <= n,
            self.spec_section_data(dtb, base, secs, i) is None,
        ensures
            self.spec_section_data(dtb, base, secs, n) is None,
        decreases n - i,
    {
        if i < n {
            self.lemma_data_none(dtb, base, secs, i, n - 1);
        }
    }
}

fn read_section_headers<P: ReadPhysicalMemory>(
    ctx: &mut DriverContext<P>,
    process: &ProcessContext,
    table: u64,
    n: u64,
    Ghost(init): Ghost<DriverContext<P>>,
) -> (r: Option<Vec<SectionHeader>>)
    requires
        old(ctx).agrees_with(&init),
        init.tlb.wf(),
    ensures
        match r {
            Some(v) => init.spec_section_headers(process.directory_table_base, table as int, n as int) == Some(v@),
            None => init.spec_section_headers(process.directory_table_base, table as int, n as int) is None,
        },
        final(ctx).agrees_with(&init),
{
    let ghost dtb = process.directory_table_base;
    let mut secs: Vec<SectionHeader> = Vec::new();
    let mut i: u64 = 0;
    while i < n
        invariant
            i <= n,
            dtb == process.directory_table_base,
            init.tlb.wf(),
            ctx.agrees_with(&init),
            init.spec_section_headers(dtb, table as int, i as int) == Some(secs@),
        decreases n - i,
    {
        let ghost before = *ctx;
        let b = if table <= u64::MAX - SECTION_HEADER_SIZE * i {
            let mut b: Vec<u8> = Vec::new();
            let ok = ctx.read_virtual_memory_into(process, table + SECTION_HEADER_SIZE * i, &mut b, SECTION_HEADER_SIZE as usize);
            if ok { Some(b) } else { None }
        } else {
            None
        };
        proof {
            if table <= u64::MAX - SECTION_HEADER_SIZE * i {
                ctx.lemma_agree_trans(&before, &init);
            }
            before.lemma_agree_read(&init, dtb, table + SECTION_HEADER_SIZE * i, SECTION_HEADER_SIZE as int);
        }
        let b = match b {
            Some(b) => b,
            None => {
                proof {
                    init.lemma_headers_none(dtb, table as int, i + 1, n as int);
                }
                return None;
            },
        };
        let s = SectionHeader {
            virtual_address: read_le_u32(b.as_slice(), 12),
            size_of_raw_data: read_le_u32(b.as_slice(), 16),
            pointer_to_raw_data: read_le_u32(b.as_slice(), 20),
        };
        secs.push(s);
        i += 1;
    }
    Some(secs)
}

fn read_section<P: ReadPhysicalMemory>(
    ctx: &mut DriverContext<P>,
    process: &ProcessContext,
    module_base: u64,
    secs: &Vec<SectionHeader>,
    k: usize,
    Ghost(init): Ghost<DriverContext<P>>,
) -> (r: Option<Vec<u8>>)
    requires
        old(ctx).agrees_with(&init),
        init.tlb.wf(),
        k < secs@.len(),
    ensures
        match r {
            Some(v) => section_size(secs@, k as int) matches Some(size) && init.spec_read(
                process.directory_table_base,
                module_base + secs@[k as int].pointer_to_raw_data,
                size as int,
            ) == Some(v@),
            None => match section_size(secs@, k as int) {
                Some(size) => init.spec_read(
                    process.directory_table_base,
                    module_base + secs@[k as int].pointer_to_raw_data,
                    size as int,
                ) is None,
                None => true,
            },
        },
        final(ctx).agrees_with(&init),
{
    if k < secs.len() - 1 && secs[k + 1].virtual_address < secs[k].virtual_address {
        return None;
    }
    let size: u32 = if k < secs.len() - 1 {
        secs[k + 1].virtual_address - secs[k].virtual_address
    } else {
        secs[k].size_of_raw_data
    };
    let off = secs[k].pointer_to_raw_data as u64;
    let ghost before = *ctx;
    proof {
        before.lemma_agree_read(&init, process.directory_table_base, module_base + off, size as int);
    }
    if module_base > u64::MAX - off {
        if size == 0 {
            return Some(Vec::new());
        }
        return None;
    }
    let mut chunk: Vec<u8> = Vec::new();
    let ok = ctx.read_virtual_memory_into(process, module_base + off, &mut chunk, size as usize);
    proof {
        ctx.lemma_agree_trans(&before, &init);
    }
    if !ok {
        return None;
    }
    Some(chunk)
}

fn read_sections<P: ReadPhysicalMemory>(
    ctx: &mut DriverContext<P>,
    process: &ProcessContext,
    module_base: u64,
    secs: &Vec<SectionHeader>,
    Ghost(init): Ghost<DriverContext<P>>,
) -> (r: Option<Vec<u8>>)
    requires
        old(ctx).agrees_with(&init),
        init.tlb.wf(),
    ensures
        match r {
            Some(v) => init.spec_section_data(process.directory_table_base, module_base, secs@, secs@.len() as int)
                == Some(v@),
            None => init.spec_section_data(process.directory_table_base, module_base, secs@, secs@.len() as int) is None,
        },
        final(ctx).agrees_with(&init),
{
    let ghost dtb = process.directory_table_base;
    let mut out: Vec<u8> = Vec::new();
    let mut k: usize = 0;
    while k < secs.len()
        invariant
            k <= secs@.len(),
            dtb == process.directory_table_base,
            init.tlb.wf(),
            ctx.agrees_with(&init),
            init.spec_section_data(dtb, module_base, secs@, k as int) == Some(out@),
        decreases secs@.len() - k,
    {
        let mut chunk = match read_section(ctx, process, module_base, secs, k, Ghost(init)) {
            Some(c) => c,
            None => {
                proof {
                    assert(init.spec_section_data(dtb, module_base, secs@, k + 1) is None);
                    init.lemma_data_none(dtb, module_base, secs@, k + 1, secs@.len() as int);
                }
                return None;
            },
        };
        let ghost prev = out@;
        out.append(&mut chunk);
        assert(init.spec_section_data(dtb, module_base, secs@, k + 1) == Some(out@));
        k += 1;
    }
    Some(out)
}

/// Reads the image of the module at `module_base` of `process`: its headers,
/// then each section's contents in table order. `None` when any part cannot
/// be read, the header offset is negative, or a section starts below its
/// predecessor.
pub fn module_dump_bytes<P: ReadPhysicalMemory>(
    ctx: &mut DriverContext<P>,
    process: &ProcessContext,
    module_base: u64,
) -> (r: Option<Vec<u8>>)
    ensures
        process.dos_header.e_lfanew >= 0 && module_base + process.dos_header.e_lfanew + crate::pe::NT_HEADERS_SIZE
            <= u64::MAX ==> match r {
            Some(v) => old(ctx).spec_module_dump(*process, module_base) == Some(v@),
            None => old(ctx).spec_module_dump(*process, module_base) is None,
        },
        process.dos_header.e_lfanew < 0 || module_base + process.dos_header.e_lfanew + crate::pe::NT_HEADERS_SIZE
            > u64::MAX ==> r is None,
        final(ctx).agrees_with(old(ctx)),
{
    ctx.tlb.check_wf();
    let ghost init = *ctx;
    proof {
        init.lemma_agree_refl();
    }
    let dtb = process.directory_table_base;
    if process.dos_header.e_lfanew < 0 {
        return None;
    }
    let extra: u64 = process.dos_header.e_lfanew as u64 + crate::pe::NT_HEADERS_SIZE as u64;
    if module_base > u64::MAX - extra {
        return None;
    }
    let mut out: Vec<u8> = Vec::new();
    let ghost b0 = *ctx;
    let ok = ctx.read_virtual_memory_into(process, module_base, &mut out, process.nt_header.size_of_headers as usize);
    proof {
        ctx.lemma_agree_trans(&b0, &init);
    }
    if !ok {
        return None;
    }
    let ghost headers = out@;
    let n = process.nt_header.number_of_sections as u64;
    let table = module_base + extra;
    let secs = match read_section_headers(ctx, process, table, n, Ghost(init)) {
        Some(v) => v,
        None => {
            return None;
        },
    };
    proof {
        init.lemma_headers_len(dtb, table as int, n as int);
    }
    let mut data = match read_sections(ctx, process, module_base, &secs, Ghost(init)) {
        Some(d) => d,
        None => {
            return None;
        },
    };
    out.append(&mut data);
    Some(out)
}

} // verus!
