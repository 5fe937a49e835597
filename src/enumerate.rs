//! Traversal of the kernel's circular process list to locate a process by
//! image name, and the reading of its module headers.
use vstd::prelude::*;
use vstd::string::StringSliceAdditionalSpecFns;
use crate::context::{EProcessOffsets, MemoryContext, ProcessContext};
use crate::exports::or_zeros;
use crate::pe::{
    dos_header_of, dos_header_sane, nt_headers_of, parse_dos_header, parse_nt_headers,
    zero_nt_headers, DosHeader, NtHeaders, DOS_HEADER_SIZE, FILE_HEADER_SIZE, NT_HEADERS_SIZE,
    NT_SIGNATURE,
};
use crate::physical::ReadPhysicalMemory;
use crate::reader::or_zero_u64;
use crate::translate::DriverContext;

verus! {

/// Size of the buffer a process image name is read into.
pub const IMAGE_NAME_BUFFER: usize = 16;
/// Most objects one traversal visits before it gives up.
pub const MAX_LIST_OBJECTS: u64 = 0x10000;

/// Why a process could not be located.
#[derive(Clone, Copy, Debug, PartialEq, Eq, Structural)]
pub enum ProcessError {
    /// The traversal came back to its start, or visited `MAX_LIST_OBJECTS`
    /// objects, without a live match.
    NotFound,
    /// A list link pointed below the link field's offset, so no object base
    /// could be recovered from it.
    BrokenLink,
}

/// ASCII lower case of `c`.
pub open spec fn ascii_lower(c: u8) -> u8 {
    if 0x41 <= c <= 0x5A {
        (c + 0x20) as u8
    } else {
        c
    }
}

/// ASCII white space: tab, line feed, vertical tab, form feed, carriage
/// return and space.
pub open spec fn is_ascii_space(c: u8) -> bool {
    c == 0x20 || (0x09 <= c <= 0x0D)
}

/// Index of the first NUL of `b` at or after `i`, or its length.
pub open spec fn nul_from(b: Seq<u8>, i: int) -> int
    decreases b.len() - i,
{
    if i < 0 || i >= b.len() {
        b.len() as int
    } else if b[i] == 0 {
        i
    } else {
        nul_from(b, i + 1)
    }
}

/// First index in `[lo, hi)` of `b` from which no leading white space remains.
pub open spec fn trim_lo(b: Seq<u8>, lo: int, hi: int) -> int
    decreases hi - lo,
{
    if lo < hi && is_ascii_space(b[lo]) {
        trim_lo(b, lo + 1, hi)
    } else {
        lo
    }
}

/// End of `[lo, hi)` of `b` without trailing white space.
pub open spec fn trim_hi(b: Seq<u8>, lo: int, hi: int) -> int
    decreases hi - lo,
{
    if lo < hi && is_ascii_space(b[hi - 1]) {
        trim_hi(b, lo, hi - 1)
    } else {
        hi
    }
}

/// The image name held by a name buffer: its NUL-terminated string with
/// leading and trailing white space removed.
pub open spec fn image_name(b: Seq<u8>) -> Seq<u8> {
    let end = nul_from(b, 0);
    let lo = trim_lo(b, 0, end);
    let hi = trim_hi(b, lo, end);
    b.subrange(lo, hi)
}

/// Whether `a` and `b` are equal up to ASCII case.
pub open spec fn eq_ignore_ascii_case(a: Seq<u8>, b: Seq<u8>) -> bool {
    a.len() == b.len() && forall|i: int| 0 <= i < a.len() ==> ascii_lower(a[i]) == ascii_lower(b[i])
}

fn lower(c: u8) -> (r: u8)
    ensures
        r == ascii_lower(c),
{
    if 0x41 <= c && c <= 0x5A {
        c + 0x20
    } else {
        c
    }
}

fn is_space(c: u8) -> (r: bool)
    ensures
        r == is_ascii_space(c),
{
    c == 0x20 || (0x09 <= c && c <= 0x0D)
}

/// Whether the image name in `buf` is `target`, up to ASCII case.
pub fn image_name_matches(buf: &[u8], target: &[u8]) -> (r: bool)
    ensures
        r == eq_ignore_ascii_case(image_name(buf@), target@),
{
    let ghost b = buf@;
    let mut end: usize = 0;
    while end < buf.len() && buf[end] != 0
        invariant
            end <= b.len(),
            b == buf@,
            nul_from(b, 0) == nul_from(b, end as int),
        decreases b.len() - end,
    {
        end += 1;
    }
    let mut lo: usize = 0;
    while lo < end && is_space(buf[lo])
        invariant
            lo <= end,
            end == nul_from(b, 0),
            end <= b.len(),
            b == buf@,
            trim_lo(b, 0, end as int) == trim_lo(b, lo as int, end as int),
        decreases end - lo,
    {
        lo += 1;
    }
    let mut hi: usize = end;
    while hi > lo && is_space(buf[hi - 1])
        invariant
            lo <= hi <= end,
            end == nul_from(b, 0),
            end <= b.len(),
            lo == trim_lo(b, 0, end as int),
            b == buf@,
            trim_hi(b, lo as int, end as int) == trim_hi(b, lo as int, hi as int),
        decreases hi - lo,
    {
        hi -= 1;
    }
    let ghost name = b.subrange(lo as int, hi as int);
    assert(name == image_name(b));
    assert(name.len() == hi - lo);
    if hi - lo != target.len() {
        return false;
    }
    let mut i: usize = 0;
    while i < target.len()
        invariant
            i <= target@.len(),
            target@.len() == hi - lo,
            lo <= hi <= b.len(),
            b == buf@,
            name == b.subrange(lo as int, hi as int),
            name == image_name(b),
            forall|j: int| 0 <= j < i ==> ascii_lower(name[j]) == ascii_lower(target@[j]),
        decreases target@.len() - i,
    {
        if lower(buf[lo + i]) != lower(target[i]) {
            assert(name[i as int] == b[lo + i]);
            assert(!eq_ignore_ascii_case(name, target@));
            return false;
        }
        i += 1;
    }
    assert forall|j: int| 0 <= j < name.len() implies ascii_lower(name[j]) == ascii_lower(
        target@[j],
    ) by {}
    true
}

impl<P: ReadPhysicalMemory> DriverContext<P> {
    /// The `u64` field at `off` of the object at `obj`, read through `space`.
    pub open spec fn spec_field_u64(&self, space: ProcessContext, obj: u64, off: u64) -> u64 {
        or_zero_u64(self.spec_read(space.directory_table_base, obj + off, 8))
    }

    /// Whether the object at `obj` is named `a` or `b` and is live, that is,
    /// its handle-table pointer is non-zero.
    pub open spec fn spec_is_target(
        &self,
        space: ProcessContext,
        offs: EProcessOffsets,
        obj: u64,
        a: Seq<u8>,
        b: Seq<u8>,
    ) -> bool {
        let buf = or_zeros(
            self.spec_read(space.directory_table_base, obj + offs.image_file_name_offset, IMAGE_NAME_BUFFER as int),
            IMAGE_NAME_BUFFER as int,
        );
        (eq_ignore_ascii_case(image_name(buf), a) || eq_ignore_ascii_case(image_name(buf), b))
            && self.spec_field_u64(space, obj, offs.object_table_offset) != 0
    }

    /// The object that the list link of `obj` leads to: the link points at the
    /// link field of the next object, whose offset is subtracted. `None` when
    /// the link lies below that offset.
    pub open spec fn spec_next_object(&self, space: ProcessContext, offs: EProcessOffsets, obj: u64) -> Option<u64> {
        let link = self.spec_field_u64(space, obj, offs.active_process_link_offset);
        if link >= offs.active_process_link_offset {
            Some((link - offs.active_process_link_offset) as u64)
        } else {
            None
        }
    }

    /// The traversal from `cur` with `fuel` objects left to visit: the first
    /// live object named `a` or `b`, ending with `NotFound` on the way back to
    /// `anchor` or when the fuel runs out.
    pub open spec fn spec_find_from(
        &self,
        space: ProcessContext,
        offs: EProcessOffsets,
        anchor: u64,
        a: Seq<u8>,
        b: Seq<u8>,
        cur: u64,
        fuel: nat,
    ) -> Result<u64, ProcessError>
        decreases fuel,
    {
        if fuel == 0 {
            Err(ProcessError::NotFound)
        } else if self.spec_is_target(space, offs, cur, a, b) {
            Ok(cur)
        } else {
            match self.spec_next_object(space, offs, cur) {
                None => Err(ProcessError::BrokenLink),
                Some(next) => if next == anchor {
                    Err(ProcessError::NotFound)
                } else {
                    self.spec_find_from(space, offs, anchor, a, b, next, (fuel - 1) as nat)
                },
            }
        }
    }

    /// The descriptor of the process whose object is at `obj`: its id, page
    /// table root and module base read from the object, the module's headers
    /// read in its own address space, and the section table's address. The NT
    /// headers are read at `base + e_lfanew` whenever that address lies in the
    /// address space, sane DOS header or not; `headers_valid` reports whether
    /// both headers passed their checks.
    pub open spec fn spec_descriptor(&self, space: ProcessContext, offs: EProcessOffsets, obj: u64) -> ProcessContext {
        let dtb = self.spec_field_u64(space, obj, offs.directory_table_base);
        let base = self.spec_field_u64(space, obj, offs.section_base_offset);
        let dos = dos_header_of(or_zeros(self.spec_read(dtb, base as int, DOS_HEADER_SIZE as int), DOS_HEADER_SIZE as int));
        let sane = dos_header_sane(dos);
        let at = base + dos.e_lfanew;
        let in_range = 0 <= at <= u64::MAX;
        let nt = if in_range {
            nt_headers_of(or_zeros(self.spec_read(dtb, at, NT_HEADERS_SIZE as int), NT_HEADERS_SIZE as int))
        } else {
            zero_nt_headers()
        };
        let table = at + 4 + FILE_HEADER_SIZE + nt.size_of_optional_header;
        ProcessContext {
            eprocess: obj,
            directory_table_base: dtb,
            process_id: self.spec_field_u64(space, obj, offs.unique_process_id_offset) as u32,
            base_addr: base,
            nt_header: nt,
            dos_header: dos,
            image_section_header_ptr: if in_range && table <= u64::MAX { table as u64 } else { 0 },
            headers_valid: sane && nt.signature == NT_SIGNATURE,
        }
    }

    /// Whether the object at `obj` is a live object named `a` or `b`.
    fn is_target(
        &mut self,
        space: &ProcessContext,
        offs: &EProcessOffsets,
        obj: u64,
        a: &[u8],
        b: &[u8],
        Ghost(init): Ghost<Self>,
    ) -> (r: bool)
        requires
            old(self).agrees_with(&init),
            init.tlb.wf(),
        ensures
            r == init.spec_is_target(*space, *offs, obj, a@, b@),
            final(self).agrees_with(&init),
    {
        let buf = self.read_bytes_at(space, obj, offs.image_file_name_offset, IMAGE_NAME_BUFFER, Ghost(init));
        if image_name_matches(buf.as_slice(), a) || image_name_matches(buf.as_slice(), b) {
            let object_table = self.read_u64_at(space, obj, offs.object_table_offset, Ghost(init));
            object_table != 0
        } else {
            false
        }
    }

    /// The object that the list link of `obj` leads to.
    fn next_object(
        &mut self,
        space: &ProcessContext,
        offs: &EProcessOffsets,
        obj: u64,
        Ghost(init): Ghost<Self>,
    ) -> (r: Option<u64>)
        requires
            old(self).agrees_with(&init),
            init.tlb.wf(),
        ensures
            r == init.spec_next_object(*space, *offs, obj),
            final(self).agrees_with(&init),
    {
        let link = self.read_u64_at(space, obj, offs.active_process_link_offset, Ghost(init));
        if link < offs.active_process_link_offset {
            None
        } else {
            Some(link - offs.active_process_link_offset)
        }
    }

    fn read_descriptor(
        &mut self,
        space: &ProcessContext,
        offs: &EProcessOffsets,
        obj: u64,
        Ghost(init): Ghost<Self>,
    ) -> (r: ProcessContext)
        requires
            old(self).agrees_with(&init),
            init.tlb.wf(),
        ensures
            r == init.spec_descriptor(*space, *offs, obj),
            final(self).agrees_with(&init),
    {
        let dtb = self.read_u64_at(space, obj, offs.directory_table_base, Ghost(init));
        let base = self.read_u64_at(space, obj, offs.section_base_offset, Ghost(init));
        let pid = self.read_u64_at(space, obj, offs.unique_process_id_offset, Ghost(init));
        let mut process = ProcessContext {
            eprocess: obj,
            directory_table_base: dtb,
            process_id: pid as u32,
            base_addr: base,
            nt_header: NtHeaders::zeroed(),
            dos_header: DosHeader { e_magic: 0, e_lfanew: 0 },
            image_section_header_ptr: 0,
            headers_valid: false,
        };
        let dos_bytes = self.read_bytes_at(&process, base, 0, DOS_HEADER_SIZE, Ghost(init));
        let dos = parse_dos_header(dos_bytes.as_slice());
        process.dos_header = dos;
        let sane = dos.e_magic == crate::pe::DOS_SIGNATURE && 0 <= dos.e_lfanew && dos.e_lfanew
            <= crate::pe::MAX_LFANEW;
        let at: i128 = base as i128 + dos.e_lfanew as i128;
        if 0 <= at && at <= u64::MAX as i128 {
            let at = at as u64;
            let nt_bytes = self.read_bytes_at(&process, at, 0, NT_HEADERS_SIZE, Ghost(init));
            let nt = parse_nt_headers(nt_bytes.as_slice());
            process.nt_header = nt;
            process.headers_valid = sane && nt.signature == NT_SIGNATURE;
            let extra: u64 = 4 + FILE_HEADER_SIZE + nt.size_of_optional_header as u64;
            if at <= u64::MAX - extra {
                process.image_section_header_ptr = at + extra;
            }
        }
        process
    }
}

impl<P: ReadPhysicalMemory> DriverContext<P> {
    /// On a circular list of `objs.len()` objects that starts at `anchor` and
    /// holds no live object of either name, the traversal ends with
    /// `NotFound` having visited each object once: it needs no more fuel than
    /// the list's length and never goes round a second time.
    pub proof fn lemma_walk_terminates(
        &self,
        space: ProcessContext,
        offs: EProcessOffsets,
        a: Seq<u8>,
        b: Seq<u8>,
        objs: Seq<u64>,
        fuel: nat,
    )
        requires
            objs.len() >= 1,
            fuel >= objs.len(),
            forall|i: int| 0 <= i < objs.len() - 1 ==> self.spec_next_object(space, offs, #[trigger] objs[i])
                == Some(objs[i + 1]),
            forall|i: int| 1 <= i < objs.len() ==> #[trigger] objs[i] != objs[0],
            self.spec_next_object(space, offs, objs.last()) == Some(objs[0]),
            forall|i: int| 0 <= i < objs.len() ==> !self.spec_is_target(space, offs, #[trigger] objs[i], a, b),
        ensures
            self.spec_find_from(space, offs, objs[0], a, b, objs[0], fuel) == Err::<u64, ProcessError>(
                ProcessError::NotFound,
            ),
    {
        self.lemma_walk_suffix(space, offs, a, b, objs, 0, fuel);
    }

    #[verifier::rlimit(50)]
    proof fn lemma_walk_suffix(
        &self,
        space: ProcessContext,
        offs: EProcessOffsets,
        a: Seq<u8>,
        b: Seq<u8>,
        objs: Seq<u64>,
        j: int,
        fuel: nat,
    )
        requires
            0 <= j < objs.len(),
            fuel >= objs.len() - j,
            forall|i: int| 0 <= i < objs.len() - 1 ==> self.spec_next_object(space, offs, #[trigger] objs[i])
                == Some(objs[i + 1]),
            forall|i: int| 1 <= i < objs.len() ==> #[trigger] objs[i] != objs[0],
            self.spec_next_object(space, offs, objs.last()) == Some(objs[0]),
            forall|i: int| 0 <= i < objs.len() ==> !self.spec_is_target(space, offs, #[trigger] objs[i], a, b),
        ensures
            self.spec_find_from(space, offs, objs[0], a, b, objs[j], fuel) == Err::<u64, ProcessError>(
                ProcessError::NotFound,
            ),
        decreases objs.len() - j,
    {
        assert(!self.spec_is_target(space, offs, objs[j], a, b));
        if j < objs.len() - 1 {
            assert(self.spec_next_object(space, offs, objs[j]) == Some(objs[j + 1]));
            assert(objs[j + 1] != objs[0]);
            self.lemma_walk_suffix(space, offs, a, b, objs, j + 1, (fuel - 1) as nat);
        }
    }

    /// An object named like the target whose handle table is gone is no
    /// match: the traversal passes over it to the next object.
    pub proof fn lemma_zombie_skipped(
        &self,
        space: ProcessContext,
        offs: EProcessOffsets,
        anchor: u64,
        a: Seq<u8>,
        b: Seq<u8>,
        cur: u64,
        fuel: nat,
    )
        requires
            fuel > 0,
            self.spec_field_u64(space, cur, offs.object_table_offset) == 0,
            self.spec_next_object(space, offs, cur) matches Some(next) && next != anchor,
        ensures
            self.spec_find_from(space, offs, anchor, a, b, cur, fuel) == self.spec_find_from(
                space,
                offs,
                anchor,
                a,
                b,
                self.spec_next_object(space, offs, cur)->0,
                (fuel - 1) as nat,
            ),
    {
    }
}

/// Walks the process list from the kernel's initial system process, in the
/// kernel's address space, and returns the descriptor of the first live
/// process whose image name is `process_name` or `file_name` (trimmed, up to
/// ASCII case). A named object whose handle table is gone is passed over.
/// The walk ends with `NotFound` when it returns to its start, so the list is
/// walked at most once.
pub fn get_process<P: ReadPhysicalMemory>(
    mem_ctx: &mut MemoryContext<P>,
    process_name: &str,
    file_name: &str,
) -> (r: Result<ProcessContext, ProcessError>)
    ensures
        ({
            let d = old(mem_ctx).driver_ctx;
            let space = old(mem_ctx).kernel_ctx.spec_as_process();
            let offs = old(mem_ctx).eproc_ctx;
            let anchor = d.spec_field_u64(space, space.base_addr, old(mem_ctx).kernel_ctx.ps_initial_system_process);
            r == match d.spec_find_from(
                space,
                offs,
                anchor,
                process_name.spec_bytes(),
                file_name.spec_bytes(),
                anchor,
                MAX_LIST_OBJECTS as nat,
            ) {
                Ok(obj) => Ok(d.spec_descriptor(space, offs, obj)),
                Err(e) => Err(e),
            }
        }),
        final(mem_ctx).driver_ctx.agrees_with(&old(mem_ctx).driver_ctx),
        final(mem_ctx).kernel_ctx == old(mem_ctx).kernel_ctx,
        final(mem_ctx).process_ctx == old(mem_ctx).process_ctx,
        final(mem_ctx).eproc_ctx == old(mem_ctx).eproc_ctx,
        final(mem_ctx).shadow_memory_physical_address == old(mem_ctx).shadow_memory_physical_address,
{
    mem_ctx.driver_ctx.tlb.check_wf();
    let ghost init = mem_ctx.driver_ctx;
    proof {
        init.lemma_agree_refl();
    }
    let space = mem_ctx.kernel_ctx.as_process();
    let offs = mem_ctx.eproc_ctx;
    let a = process_name.as_bytes();
    let b = file_name.as_bytes();
    let anchor = mem_ctx.driver_ctx.read_u64_at(
        &space,
        space.base_addr,
        mem_ctx.kernel_ctx.ps_initial_system_process,
        Ghost(init),
    );
    let ghost outcome = init.spec_find_from(space, offs, anchor, a@, b@, anchor, MAX_LIST_OBJECTS as nat);
    let mut cur: u64 = anchor;
    let mut fuel: u64 = MAX_LIST_OBJECTS;
    while fuel > 0
        invariant
            fuel <= MAX_LIST_OBJECTS,
            init.tlb.wf(),
            mem_ctx.driver_ctx.agrees_with(&init),
            init == old(mem_ctx).driver_ctx,
            space == old(mem_ctx).kernel_ctx.spec_as_process(),
            offs == old(mem_ctx).eproc_ctx,
            mem_ctx.kernel_ctx == old(mem_ctx).kernel_ctx,
            mem_ctx.process_ctx == old(mem_ctx).process_ctx,
            mem_ctx.eproc_ctx == old(mem_ctx).eproc_ctx,
            mem_ctx.shadow_memory_physical_address == old(mem_ctx).shadow_memory_physical_address,
            a@ == process_name.spec_bytes(),
            b@ == file_name.spec_bytes(),
            outcome == init.spec_find_from(space, offs, anchor, a@, b@, cur, fuel as nat),
            outcome == init.spec_find_from(space, offs, anchor, a@, b@, anchor, MAX_LIST_OBJECTS as nat),
            anchor == init.spec_field_u64(space, space.base_addr, old(mem_ctx).kernel_ctx.ps_initial_system_process),
        decreases fuel,
    {
        if mem_ctx.driver_ctx.is_target(&space, &offs, cur, a, b, Ghost(init)) {
            let found = mem_ctx.driver_ctx.read_descriptor(&space, &offs, cur, Ghost(init));
            return Ok(found);
        }
        let next = match mem_ctx.driver_ctx.next_object(&space, &offs, cur, Ghost(init)) {
            Some(n) => n,
            None => {
                return Err(ProcessError::BrokenLink);
            },
        };
        if next == anchor {
            return Err(ProcessError::NotFound);
        }
        cur = next;
        fuel -= 1;
    }
    Err(ProcessError::NotFound)
}

} // verus!
