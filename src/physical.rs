//! The physical-memory backend: a page-local raw read primitive, reads of
//! arbitrary physical ranges built on it, and an in-memory image that serves
//! as a backend.
use vstd::prelude::*;
use crate::bytes::{le_u64, read_le_u64};

verus! {

/// Size of a base page and of one raw backend read at most.
pub const PAGE_SIZE: u64 = 0x1000;

/// Whether every byte of `[addr, addr + size)` is readable in `mem`.
pub open spec fn phys_readable(mem: Map<int, u8>, addr: int, size: int) -> bool {
    forall|i: int| 0 <= i < size ==> #[trigger] mem.dom().contains(addr + i)
}

/// The bytes of `[addr, addr + size)` in `mem`.
pub open spec fn phys_bytes(mem: Map<int, u8>, addr: int, size: int) -> Seq<u8> {
    Seq::new(size as nat, |i: int| mem[addr + i])
}

/// `size` zero bytes.
pub open spec fn zeros(size: int) -> Seq<u8> {
    Seq::new(size as nat, |i: int| 0u8)
}

/// The contents of `[addr, addr + size)`, or `None` when the range leaves the
/// 64-bit address space or holds an unreadable byte.
pub open spec fn phys_range(mem: Map<int, u8>, addr: int, size: int) -> Option<Seq<u8>> {
    if addr + size <= u64::MAX as int + 1 && phys_readable(mem, addr, size) {
        Some(phys_bytes(mem, addr, size))
    } else {
        None
    }
}

/// The little-endian `u64` at physical `addr`, or 0 when it cannot be read.
pub open spec fn phys_u64(mem: Map<int, u8>, addr: int) -> u64 {
    match phys_range(mem, addr, 8) {
        Some(b) => le_u64(b),
        None => 0,
    }
}

/// A source of physical memory. `phys_view` is the memory it serves: the
/// readable addresses and their contents. Contracts state each operation
/// against the memory as it is when the operation starts; memory that
/// changes between operations is seen anew by the next one.
pub trait ReadPhysicalMemory {
    /// By default a source serves no address; one that serves memory states
    /// what it serves.
    open spec fn phys_view(&self) -> Map<int, u8> {
        Map::empty()
    }

    /// Reads `size` bytes at `addr` into `out_buffer`, within one page.
    /// Returns whether all of them could be read; on failure the buffer
    /// holds zeros.
    fn read_raw_physical_memory(&self, addr: u64, out_buffer: &mut Vec<u8>, size: usize) -> (ok:
        bool)
        requires
            addr as int % PAGE_SIZE as int + size <= PAGE_SIZE,
        ensures
            final(out_buffer)@.len() == size,
            ok == phys_readable(self.phys_view(), addr as int, size as int),
            ok ==> final(out_buffer)@ == phys_bytes(self.phys_view(), addr as int, size as int),
            !ok ==> final(out_buffer)@ == zeros(size as int),
    ;
}

/// Reads the physical range `[addr, addr + size)`, one page-local backend read
/// at a time. All or nothing: `None` when any part of it cannot be read.
pub fn read_physical_range<P: ReadPhysicalMemory>(provider: &P, addr: u64, size: usize) -> (r:
    Option<Vec<u8>>)
    ensures
        match r {
            Some(v) => phys_range(provider.phys_view(), addr as int, size as int) == Some(v@),
            None => phys_range(provider.phys_view(), addr as int, size as int) is None,
        },
{
    let ghost mem = provider.phys_view();
    if addr as u128 + size as u128 > u64::MAX as u128 + 1 {
        return None;
    }
    let mut data: Vec<u8> = Vec::new();
    let mut done: usize = 0;
    while done < size
        invariant
            done <= size,
            addr as int + size as int <= u64::MAX as int + 1,
            data@.len() == done,
            phys_readable(mem, addr as int, done as int),
            data@ == phys_bytes(mem, addr as int, done as int),
            mem == provider.phys_view(),
        decreases size - done,
    {
        let cur: u64 = addr + done as u64;
        let in_page: u64 = PAGE_SIZE - cur % PAGE_SIZE;
        let chunk: usize = if ((size - done) as u64) < in_page {
            size - done
        } else {
            in_page as usize
        };
        let mut buf: Vec<u8> = Vec::new();
        let ok = provider.read_raw_physical_memory(cur, &mut buf, chunk);
        if !ok {
            proof {
                let i = choose|i: int| 0 <= i < chunk && !#[trigger] mem.dom().contains(cur as int + i);
                assert(!mem.dom().contains(addr as int + (done + i)));
            }
            return None;
        }
        let mut j: usize = 0;
        while j < chunk
            invariant
                j <= chunk,
                buf@.len() == chunk,
                buf@ == phys_bytes(mem, cur as int, chunk as int),
                data@.len() == done + j,
                data@ == phys_bytes(mem, addr as int, done + j),
                cur == addr + done,
            decreases chunk - j,
        {
            data.push(buf[j]);
            j += 1;
            assert(data@ =~= phys_bytes(mem, addr as int, done + j));
        }
        assert forall|i: int| 0 <= i < done + chunk implies #[trigger] mem.dom().contains(
            addr as int + i,
        ) by {
            if i >= done {
                assert(mem.dom().contains(cur as int + (i - done)));
            }
        }
        done = done + chunk;
    }
    Some(data)
}

/// Reads the little-endian `u64` at physical `addr`; 0 when it cannot be read.
pub fn read_physical_u64<P: ReadPhysicalMemory>(provider: &P, addr: u64) -> (r: u64)
    ensures
        r == phys_u64(provider.phys_view(), addr as int),
{
    match read_physical_range(provider, addr, 8) {
        Some(v) => {
            assert(v@.subrange(0, 8) =~= v@);
            read_le_u64(v.as_slice(), 0)
        },
        None => 0,
    }
}

/// A physical memory held in a byte vector, readable from address 0 up to its
/// length.
pub struct MemoryImage {
    bytes: Vec<u8>,
}

impl MemoryImage {
    /// The contents of the image as a byte sequence from address 0.
    pub closed spec fn contents(&self) -> Seq<u8> {
        self.bytes@
    }

    /// An image of `size` zero bytes.
    pub fn new(size: usize) -> (r: MemoryImage)
        ensures
            r.contents() == zeros(size as int),
    {
        let bytes = vec![0u8; size];
        assert(bytes@ =~= zeros(size as int));
        MemoryImage { bytes }
    }

    /// Length of the image in bytes.
    pub fn len(&self) -> (r: usize)
        ensures
            r == self.contents().len(),
    {
        self.bytes.len()
    }

    /// Overwrites `[addr, addr + data.len())` with `data`. Returns false, and
    /// changes nothing, when the range does not lie within the image.
    pub fn write_bytes(&mut self, addr: u64, data: &[u8]) -> (ok: bool)
        ensures
            ok == (addr as int + data@.len() <= old(self).contents().len()),
            ok ==> final(self).contents() == old(self).contents().subrange(0, addr as int)
                + data@ + old(self).contents().subrange(
                addr + data@.len(),
                old(self).contents().len() as int,
            ),
            !ok ==> final(self).contents() == old(self).contents(),
    {
        let n = self.bytes.len();
        if addr as u128 + data.len() as u128 > n as u128 {
            return false;
        }
        let start = addr as usize;
        let ghost before = self.bytes@;
        let mut j: usize = 0;
        while j < data.len()
            invariant
                start as int + data@.len() <= n,
                self.bytes@.len() == n,
                n == before.len(),
                j <= data@.len(),
                forall|i: int| 0 <= i < start ==> self.bytes@[i] == before[i],
                forall|i: int| start + j <= i < n ==> self.bytes@[i] == before[i],
                forall|i: int| 0 <= i < j ==> self.bytes@[start + i] == data@[i],
            decreases data@.len() - j,
        {
            self.bytes.set(start + j, data[j]);
            j += 1;
        }
        assert(self.bytes@ =~= before.subrange(0, addr as int) + data@ + before.subrange(
            addr + data@.len(),
            n as int,
        ));
        true
    }
}

impl ReadPhysicalMemory for MemoryImage {
    open spec fn phys_view(&self) -> Map<int, u8> {
        Map::new(|a: int| 0 <= a < self.contents().len(), |a: int| self.contents()[a])
    }

    fn read_raw_physical_memory(&self, addr: u64, out_buffer: &mut Vec<u8>, size: usize) -> (ok:
        bool) {
        let n = self.bytes.len();
        let mut out: Vec<u8> = vec![0u8; size];
        assert(out@ =~= zeros(size as int));
        if size == 0 {
            assert(out@ =~= phys_bytes(self.phys_view(), addr as int, 0));
            *out_buffer = out;
            return true;
        }
        if addr as u128 + size as u128 > n as u128 {
            assert(!self.phys_view().dom().contains(addr as int + (size - 1)));
            *out_buffer = out;
            return false;
        }
        let start = addr as usize;
        let mut j: usize = 0;
        while j < size
            invariant
                start as int + size <= n,
                n == self.contents().len(),
                out@.len() == size,
                j <= size,
                forall|i: int| 0 <= i < j ==> out@[i] == self.contents()[start + i],
            decreases size - j,
        {
            out.set(j, self.bytes[start + j]);
            j += 1;
        }
        assert(out@ =~= phys_bytes(self.phys_view(), addr as int, size as int));
        *out_buffer = out;
        true
    }
}

} // verus!
