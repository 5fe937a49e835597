//! Virtual reads of arbitrary size, split at page boundaries: every page is
//! translated on its own, since consecutive virtual pages need not lie in
//! consecutive physical frames.
use vstd::prelude::*;
use crate::bytes::{le_u16, le_u32, le_u64, read_le_u16, read_le_u32, read_le_u64};
use crate::context::ProcessContext;
use crate::physical::{phys_range, zeros, ReadPhysicalMemory, PAGE_SIZE};
use crate::translate::{lemma_translation_offset, translation, DriverContext, TlbEntry};

verus! {

/// The bytes of the virtual range `[addr, addr + size)` of the address space
/// `dtb`, page by page: each page slice is translated and read from physical
/// memory. `None` when the range leaves the address space (its end must stay
/// below 2^64), a slice is unmapped, or a slice cannot be read.
pub open spec fn virtual_bytes(
    s: Seq<TlbEntry>,
    mem: Map<int, u8>,
    dtb: u64,
    addr: int,
    size: int,
    now: u64,
) -> Option<Seq<u8>>
    decreases size,
{
    if size <= 0 {
        Some(Seq::empty())
    } else if addr < 0 || addr + size > u64::MAX {
        None
    } else {
        let room = PAGE_SIZE - addr % PAGE_SIZE as int;
        let first = if size < room { size } else { room };
        let pa = translation(s, mem, dtb, addr as u64, now);
        if pa == 0 {
            None
        } else {
            match phys_range(mem, pa as int, first) {
                None => None,
                Some(b) => match virtual_bytes(s, mem, dtb, addr + first, size - first, now) {
                    Some(rest) => Some(b + rest),
                    None => None,
                },
            }
        }
    }
}

/// The little-endian `u64` that a read yielded, or 0 when it failed.
pub open spec fn or_zero_u64(r: Option<Seq<u8>>) -> u64 {
    match r {
        Some(b) => le_u64(b),
        None => 0,
    }
}

/// The little-endian `u32` that a read yielded, or 0 when it failed.
pub open spec fn or_zero_u32(r: Option<Seq<u8>>) -> u32 {
    match r {
        Some(b) => le_u32(b),
        None => 0,
    }
}

/// The little-endian `u16` that a read yielded, or 0 when it failed.
pub open spec fn or_zero_u16(r: Option<Seq<u8>>) -> u16 {
    match r {
        Some(b) => le_u16(b),
        None => 0,
    }
}

/// A range that crosses exactly one page boundary reads as the tail of the
/// first page's frame followed by the head of the second page's frame, each
/// frame found by its own translation; when either page is unmapped or its
/// slice unreadable, the read fails as a whole.
pub proof fn lemma_cross_page_read(
    s: Seq<TlbEntry>,
    mem: Map<int, u8>,
    dtb: u64,
    addr: u64,
    size: int,
    now: u64,
)
    requires
        addr % PAGE_SIZE + size > PAGE_SIZE,
        size <= PAGE_SIZE,
        addr + size <= u64::MAX,
    ensures
        ({
            let first = PAGE_SIZE - addr % PAGE_SIZE;
            let next = (addr + first) as u64;
            let pa1 = translation(s, mem, dtb, addr, now);
            let pa2 = translation(s, mem, dtb, next, now);
            virtual_bytes(s, mem, dtb, addr as int, size, now) == if pa1 != 0 && pa2 != 0 && phys_range(
                mem,
                pa1 as int,
                first as int,
            ) is Some && phys_range(mem, pa2 as int, size - first) is Some {
                Some(phys_range(mem, pa1 as int, first as int)->0 + phys_range(mem, pa2 as int, size - first)->0)
            } else {
                None::<Seq<u8>>
            }
        }),
{
    let first = PAGE_SIZE - addr % PAGE_SIZE;
    let next = addr + first;
    assert(next % PAGE_SIZE as int == 0) by {
        assert((addr + (PAGE_SIZE - addr % PAGE_SIZE)) % PAGE_SIZE as int == 0);
    }
    let rest = virtual_bytes(s, mem, dtb, next, size - first, now);
    assert(virtual_bytes(s, mem, dtb, next + (size - first), 0, now) == Some(Seq::<u8>::empty()));
    let pa2 = translation(s, mem, dtb, next as u64, now);
    if let Some(b) = phys_range(mem, pa2 as int, size - first) {
        assert(b + Seq::<u8>::empty() =~= b);
    }
}

/// A virtual read that succeeds yields as many bytes as were asked for.
pub proof fn lemma_virtual_bytes_len(
    s: Seq<TlbEntry>,
    mem: Map<int, u8>,
    dtb: u64,
    addr: int,
    size: int,
    now: u64,
)
    requires
        size >= 0,
    ensures
        virtual_bytes(s, mem, dtb, addr, size, now) matches Some(b) ==> b.len() == size,
    decreases size,
{
    if size > 0 && !(addr < 0 || addr + size > u64::MAX) {
        let room = PAGE_SIZE - addr % PAGE_SIZE as int;
        let first = if size < room { size } else { room };
        lemma_virtual_bytes_len(s, mem, dtb, addr + first, size - first, now);
    }
}

/// Translations that agree give the same virtual bytes.
pub proof fn lemma_virtual_bytes_same(
    a: Seq<TlbEntry>,
    b: Seq<TlbEntry>,
    mem: Map<int, u8>,
    dtb: u64,
    addr: int,
    size: int,
    now: u64,
)
    requires
        crate::translate::same_translations(a, b, mem, now),
    ensures
        virtual_bytes(a, mem, dtb, addr, size, now) == virtual_bytes(b, mem, dtb, addr, size, now),
    decreases size,
{
    if size > 0 && !(addr < 0 || addr + size > u64::MAX) {
        assert(translation(a, mem, dtb, addr as u64, now) == translation(b, mem, dtb, addr as u64, now));
        let room = PAGE_SIZE - addr % PAGE_SIZE as int;
        let first = if size < room { size } else { room };
        lemma_virtual_bytes_same(a, b, mem, dtb, addr + first, size - first, now);
    }
}

impl<P: ReadPhysicalMemory> DriverContext<P> {
    /// The bytes of `[addr, addr + size)` in the address space `dtb`, in this state.
    pub open spec fn spec_read(&self, dtb: u64, addr: int, size: int) -> Option<Seq<u8>> {
        virtual_bytes(self.tlb@, self.mem(), dtb, addr, size, self.now_ms)
    }

    /// States that agree read alike.
    pub proof fn lemma_agree_read(&self, other: &Self, dtb: u64, addr: int, size: int)
        requires
            self.agrees_with(other),
        ensures
            self.spec_read(dtb, addr, size) == other.spec_read(dtb, addr, size),
    {
        lemma_virtual_bytes_same(self.tlb@, other.tlb@, self.mem(), dtb, addr, size, self.now_ms);
    }

    /// Reads `size` bytes at virtual `addr` of the process's address space into
    /// `out_buffer`. Returns whether every byte was obtained; on failure the
    /// buffer holds zeros.
    pub fn read_virtual_memory_into(
        &mut self,
        process_ctx: &ProcessContext,
        addr: u64,
        out_buffer: &mut Vec<u8>,
        size: usize,
    ) -> (ok: bool)
        ensures
            final(out_buffer)@.len() == size,
            ok == old(self).spec_read(process_ctx.directory_table_base, addr as int, size as int) is Some,
            ok ==> Some(final(out_buffer)@) == old(self).spec_read(
                process_ctx.directory_table_base,
                addr as int,
                size as int,
            ),
            !ok ==> final(out_buffer)@ == zeros(size as int),
            final(self).agrees_with(old(self)),
    {
        self.tlb.check_wf();
        let ghost init = *self;
        let dtb = process_ctx.directory_table_base;
        let ghost whole = self.spec_read(dtb, addr as int, size as int);
        assert(self.agrees_with(&init));
        if size as u128 + addr as u128 > u64::MAX as u128 {
            *out_buffer = vec![0u8; size];
            assert(out_buffer@ =~= zeros(size as int));
            return false;
        }
        let mut data: Vec<u8> = Vec::new();
        let mut cur: u64 = addr;
        let mut remaining: usize = size;
        while remaining > 0
            invariant
                cur as int + remaining as int == addr as int + size as int,
                addr as int + size as int <= u64::MAX,
                data@.len() + remaining == size,
                self.agrees_with(&init),
                init == *old(self),
                dtb == process_ctx.directory_table_base,
                whole == init.spec_read(dtb, addr as int, size as int),
                whole == match init.spec_read(dtb, cur as int, remaining as int) {
                    Some(rest) => Some(data@ + rest),
                    None => None,
                },
            decreases remaining,
        {
            let room: u64 = PAGE_SIZE - cur % PAGE_SIZE;
            let first: usize = if (remaining as u64) < room {
                remaining
            } else {
                room as usize
            };
            let ghost before = *self;
            let pa = self.translate_linear_address(dtb, cur);
            assert(translation(before.tlb@, before.mem(), dtb, cur, before.now_ms) == translation(
                init.tlb@,
                init.mem(),
                dtb,
                cur,
                init.now_ms,
            ));
            assert forall|d: u64, v: u64| #[trigger]
                translation(self.tlb@, self.mem(), d, v, self.now_ms) == translation(
                    init.tlb@,
                    init.mem(),
                    d,
                    v,
                    init.now_ms,
                ) by {
                assert(translation(self.tlb@, self.mem(), d, v, self.now_ms) == translation(
                    before.tlb@,
                    before.mem(),
                    d,
                    v,
                    before.now_ms,
                ));
            }
            if pa == 0 {
                *out_buffer = vec![0u8; size];
                assert(out_buffer@ =~= zeros(size as int));
                return false;
            }
            proof {
                lemma_translation_offset(before.tlb@, before.mem(), dtb, cur, before.now_ms);
            }
            let mut page: Vec<u8> = Vec::new();
            let read_ok = self.provider.read_raw_physical_memory(pa, &mut page, first);
            if !read_ok {
                *out_buffer = vec![0u8; size];
                assert(out_buffer@ =~= zeros(size as int));
                return false;
            }
            let ghost old_data = data@;
            data.append(&mut page);
            proof {
                let rest = init.spec_read(dtb, cur as int + first, remaining - first);
                match rest {
                    Some(r) => {
                        assert(old_data + (phys_range(init.mem(), pa as int, first as int)->0 + r)
                            =~= data@ + r);
                    },
                    None => {},
                }
            }
            cur = cur + first as u64;
            remaining = remaining - first;
        }
        assert(data@ + Seq::<u8>::empty() =~= data@);
        *out_buffer = data;
        true
    }

    /// Reads `size` bytes at virtual `addr`; zeros when they cannot all be read.
    pub fn read_virtual_memory(&mut self, process_ctx: &ProcessContext, addr: u64, size: usize) -> (r:
        Vec<u8>)
        ensures
            r@.len() == size,
            r@ == match old(self).spec_read(process_ctx.directory_table_base, addr as int, size as int) {
                Some(b) => b,
                None => zeros(size as int),
            },
            final(self).agrees_with(old(self)),
    {
        self.tlb.check_wf();
        let mut out: Vec<u8> = Vec::new();
        self.read_virtual_memory_into(process_ctx, addr, &mut out, size);
        out
    }

    /// Reads the little-endian `u64` at virtual `addr`; 0 when it cannot be read.
    pub fn read_virtual_u64(&mut self, process_ctx: &ProcessContext, addr: u64) -> (r: u64)
        ensures
            r == or_zero_u64(old(self).spec_read(process_ctx.directory_table_base, addr as int, 8)),
            final(self).agrees_with(old(self)),
    {
        self.tlb.check_wf();
        let mut out: Vec<u8> = Vec::new();
        let ok = self.read_virtual_memory_into(process_ctx, addr, &mut out, 8);
        if !ok {
            return 0;
        }
        assert(out@.subrange(0, 8) =~= out@);
        read_le_u64(out.as_slice(), 0)
    }

    /// Reads the little-endian `u32` at virtual `addr`; 0 when it cannot be read.
    pub fn read_virtual_u32(&mut self, process_ctx: &ProcessContext, addr: u64) -> (r: u32)
        ensures
            r == or_zero_u32(old(self).spec_read(process_ctx.directory_table_base, addr as int, 4)),
            final(self).agrees_with(old(self)),
    {
        self.tlb.check_wf();
        let mut out: Vec<u8> = Vec::new();
        let ok = self.read_virtual_memory_into(process_ctx, addr, &mut out, 4);
        if !ok {
            return 0;
        }
        assert(out@.subrange(0, 4) =~= out@);
        read_le_u32(out.as_slice(), 0)
    }

    /// Reads the little-endian `u16` at virtual `addr`; 0 when it cannot be read.
    pub fn read_virtual_u16(&mut self, process_ctx: &ProcessContext, addr: u64) -> (r: u16)
        ensures
            r == or_zero_u16(old(self).spec_read(process_ctx.directory_table_base, addr as int, 2)),
            final(self).agrees_with(old(self)),
    {
        self.tlb.check_wf();
        let mut out: Vec<u8> = Vec::new();
        let ok = self.read_virtual_memory_into(process_ctx, addr, &mut out, 2);
        if !ok {
            return 0;
        }
        assert(out@.subrange(0, 2) =~= out@);
        read_le_u16(out.as_slice(), 0)
    }

    /// A well-formed state agrees with itself.
    pub proof fn lemma_agree_refl(&self)
        requires
            self.tlb.wf(),
        ensures
            self.agrees_with(self),
    {
        assert forall|d: u64, v: u64| #[trigger]
            translation(self.tlb@, self.mem(), d, v, self.now_ms) == translation(
                self.tlb@,
                self.mem(),
                d,
                v,
                self.now_ms,
            ) by {}
    }

    /// Agreement is transitive.
    pub proof fn lemma_agree_trans(&self, mid: &Self, other: &Self)
        requires
            self.agrees_with(mid),
            mid.agrees_with(other),
            other.tlb.wf(),
        ensures
            self.agrees_with(other),
    {
        assert forall|d: u64, v: u64| #[trigger]
            translation(self.tlb@, self.mem(), d, v, self.now_ms) == translation(
                other.tlb@,
                self.mem(),
                d,
                v,
                self.now_ms,
            ) by {
            assert(translation(self.tlb@, self.mem(), d, v, self.now_ms) == translation(
                mid.tlb@,
                mid.mem(),
                d,
                v,
                mid.now_ms,
            ));
            assert(translation(mid.tlb@, mid.mem(), d, v, mid.now_ms) == translation(
                other.tlb@,
                other.mem(),
                d,
                v,
                other.now_ms,
            ));
        }
    }

    /// Reads `size` bytes at `base + off` (zeros on failure), stated against
    /// the earlier state `init` that this one agrees with.
    pub(crate) fn read_bytes_at(
        &mut self,
        process_ctx: &ProcessContext,
        base: u64,
        off: u64,
        size: usize,
        Ghost(init): Ghost<Self>,
    ) -> (r: Vec<u8>)
        requires
            old(self).agrees_with(&init),
            init.tlb.wf(),
        ensures
            r@.len() == size,
            r@ == match init.spec_read(process_ctx.directory_table_base, base + off, size as int) {
                Some(b) => b,
                None => zeros(size as int),
            },
            final(self).agrees_with(&init),
    {
        proof {
            self.lemma_agree_read(&init, process_ctx.directory_table_base, base + off, size as int);
        }
        if base > u64::MAX - off {
            let z = vec![0u8; size];
            assert(z@ =~= zeros(size as int));
            return z;
        }
        let ghost before = *self;
        let r = self.read_virtual_memory(process_ctx, base + off, size);
        proof {
            self.lemma_agree_trans(&before, &init);
        }
        r
    }

    /// Reads the `u64` at `base + off` (0 on failure), stated against `init`.
    pub(crate) fn read_u64_at(
        &mut self,
        process_ctx: &ProcessContext,
        base: u64,
        off: u64,
        Ghost(init): Ghost<Self>,
    ) -> (r: u64)
        requires
            old(self).agrees_with(&init),
            init.tlb.wf(),
        ensures
            r == or_zero_u64(init.spec_read(process_ctx.directory_table_base, base + off, 8)),
            final(self).agrees_with(&init),
    {
        proof {
            self.lemma_agree_read(&init, process_ctx.directory_table_base, base + off, 8);
        }
        if base > u64::MAX - off {
            return 0;
        }
        let ghost before = *self;
        let r = self.read_virtual_u64(process_ctx, base + off);
        proof {
            self.lemma_agree_trans(&before, &init);
        }
        r
    }

    /// Reads the `u32` at `base + off` (0 on failure), stated against `init`.
    pub(crate) fn read_u32_at(
        &mut self,
        process_ctx: &ProcessContext,
        base: u64,
        off: u64,
        Ghost(init): Ghost<Self>,
    ) -> (r: u32)
        requires
            old(self).agrees_with(&init),
            init.tlb.wf(),
        ensures
            r == or_zero_u32(init.spec_read(process_ctx.directory_table_base, base + off, 4)),
            final(self).agrees_with(&init),
    {
        proof {
            self.lemma_agree_read(&init, process_ctx.directory_table_base, base + off, 4);
        }
        if base > u64::MAX - off {
            return 0;
        }
        let ghost before = *self;
        let r = self.read_virtual_u32(process_ctx, base + off);
        proof {
            self.lemma_agree_trans(&before, &init);
        }
        r
    }

    /// Reads the `u16` at `base + off` (0 on failure), stated against `init`.
    pub(crate) fn read_u16_at(
        &mut self,
        process_ctx: &ProcessContext,
        base: u64,
        off: u64,
        Ghost(init): Ghost<Self>,
    ) -> (r: u16)
        requires
            old(self).agrees_with(&init),
            init.tlb.wf(),
        ensures
            r == or_zero_u16(init.spec_read(process_ctx.directory_table_base, base + off, 2)),
            final(self).agrees_with(&init),
    {
        proof {
            self.lemma_agree_read(&init, process_ctx.directory_table_base, base + off, 2);
        }
        if base > u64::MAX - off {
            return 0;
        }
        let ghost before = *self;
        let r = self.read_virtual_u16(process_ctx, base + off);
        proof {
            self.lemma_agree_trans(&before, &init);
        }
        r
    }
}

} // verus!
