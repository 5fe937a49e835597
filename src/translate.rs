//! Four-level page-table translation with a time-bounded translation cache.
use vstd::prelude::*;
use crate::physical::{phys_u64, read_physical_u64, ReadPhysicalMemory};

verus! {

/// Frame-number bits (12..=51) of a table entry.
pub const PMASK: u64 = 0x000F_FFFF_FFFF_F000;
/// Frame bits of an entry that maps a 1 GiB page.
pub const HUGE_1G_MASK: u64 = 0x000F_FFFF_C000_0000;
/// Frame bits of an entry that maps a 2 MiB page.
pub const HUGE_2M_MASK: u64 = 0x000F_FFFF_FFE0_0000;
/// The "large page" bit of a level-3 or level-2 entry.
pub const LARGE_PAGE_BIT: u64 = 0x80;
/// Mask that clears the flag bits of a page-table root.
pub const ROOT_MASK: u64 = 0xFFFF_FFFF_FFFF_FFF0;
/// Mask of the page-number bits of a virtual address.
pub const PAGE_MASK: u64 = 0xFFFF_FFFF_FFFF_F000;
/// Time a cached translation stays valid, in milliseconds.
pub const TLB_ENTRY_TIMEOUT_MS: u64 = 15_000;

/// The 9-bit table index that `va` selects at the level whose index starts at bit `shift`.
pub open spec fn table_index(va: u64, shift: u64) -> u64 {
    (va >> shift) & 0x1ff
}

/// The virtual page that holds `va`.
pub open spec fn page_of(va: u64) -> u64 {
    va & PAGE_MASK
}

/// The offset of `va` within its 4 KiB page.
pub open spec fn page_offset(va: u64) -> u64 {
    va & 0xfff
}

/// Where a page walk ends: nowhere, or at the entry that maps the page.
pub enum PageWalk {
    Unmapped,
    Huge1G(u64),
    Huge2M(u64),
    Page4K(u64),
}

/// The entry at `index` of the table at physical `base`.
pub open spec fn table_entry(mem: Map<int, u8>, base: u64, index: u64) -> u64 {
    phys_u64(mem, base as int + 8 * index as int)
}

/// The walk of the paging hierarchy rooted at `dtb` for `va`.
pub open spec fn page_walk(mem: Map<int, u8>, dtb: u64, va: u64) -> PageWalk {
    let l4 = table_entry(mem, dtb & ROOT_MASK, table_index(va, 39));
    if l4 == 0 {
        PageWalk::Unmapped
    } else {
        let l3 = table_entry(mem, l4 & PMASK, table_index(va, 30));
        if l3 == 0 {
            PageWalk::Unmapped
        } else if l3 & LARGE_PAGE_BIT != 0 {
            PageWalk::Huge1G(l3)
        } else {
            let l2 = table_entry(mem, l3 & PMASK, table_index(va, 21));
            if l2 == 0 {
                PageWalk::Unmapped
            } else if l2 & LARGE_PAGE_BIT != 0 {
                PageWalk::Huge2M(l2)
            } else {
                PageWalk::Page4K(table_entry(mem, l2 & PMASK, table_index(va, 12)))
            }
        }
    }
}

/// The physical address that a fresh walk gives for `va`; 0 when unmapped.
pub open spec fn walk_translate(mem: Map<int, u8>, dtb: u64, va: u64) -> u64 {
    match page_walk(mem, dtb, va) {
        PageWalk::Unmapped => 0,
        PageWalk::Huge1G(e) => ((e & HUGE_1G_MASK) + (va & 0x3FFF_FFFF)) as u64,
        PageWalk::Huge2M(e) => ((e & HUGE_2M_MASK) + (va & 0x1F_FFFF)) as u64,
        PageWalk::Page4K(e) => ((e & PMASK) + page_offset(va)) as u64,
    }
}

/// A cached translation of one virtual page of one address space.
#[derive(Clone, Copy, Debug, PartialEq, Eq)]
pub struct TlbEntry {
    pub dtb: u64,
    pub virtual_page: u64,
    pub physical_page: u64,
    pub inserted_at: u64,
}

/// Whether `e` is still valid at time `now`.
pub open spec fn entry_live(e: TlbEntry, now: u64) -> bool {
    (now as int) < e.inserted_at as int + TLB_ENTRY_TIMEOUT_MS as int
}

/// The latest entry of `s` for `(dtb, vpage)` that is valid at `now`.
pub open spec fn find_live(s: Seq<TlbEntry>, dtb: u64, vpage: u64, now: u64) -> Option<TlbEntry>
    decreases s.len(),
{
    if s.len() == 0 {
        None
    } else {
        let e = s.last();
        if e.dtb == dtb && e.virtual_page == vpage && entry_live(e, now) {
            Some(e)
        } else {
            find_live(s.drop_last(), dtb, vpage, now)
        }
    }
}

/// The entries of `s` still valid at `now`, in order.
pub open spec fn live_entries(s: Seq<TlbEntry>, now: u64) -> Seq<TlbEntry>
    decreases s.len(),
{
    if s.len() == 0 {
        s
    } else if entry_live(s.last(), now) {
        live_entries(s.drop_last(), now).push(s.last())
    } else {
        live_entries(s.drop_last(), now)
    }
}

/// The physical address for `va` in the address space `dtb`, given the cache
/// entries `s` and time `now`: 0 for `va == 0`, the cached page plus the page
/// offset on a valid hit, and the fresh walk otherwise.
pub open spec fn translation(s: Seq<TlbEntry>, mem: Map<int, u8>, dtb: u64, va: u64, now: u64) -> u64 {
    if va == 0 {
        0
    } else {
        match find_live(s, dtb, page_of(va), now) {
            Some(e) => (e.physical_page + page_offset(va)) as u64,
            None => walk_translate(mem, dtb, va),
        }
    }
}

/// The cache entries after translating `va`: expired entries are dropped, and
/// a miss that ends at a 4 KiB leaf adds an entry stamped `now`.
pub open spec fn cache_after(s: Seq<TlbEntry>, mem: Map<int, u8>, dtb: u64, va: u64, now: u64) -> Seq<TlbEntry> {
    if va == 0 {
        s
    } else {
        let kept = live_entries(s, now);
        if find_live(s, dtb, page_of(va), now) is Some {
            kept
        } else {
            match page_walk(mem, dtb, va) {
                PageWalk::Page4K(e) => kept.push(
                    TlbEntry { dtb, virtual_page: page_of(va), physical_page: e & PMASK, inserted_at: now },
                ),
                _ => kept,
            }
        }
    }
}

/// Whether `a` and `b` give every address the same translation.
pub open spec fn same_translations(a: Seq<TlbEntry>, b: Seq<TlbEntry>, mem: Map<int, u8>, now: u64) -> bool {
    forall|dtb: u64, va: u64| #[trigger]
        translation(a, mem, dtb, va, now) == translation(b, mem, dtb, va, now)
}

/// Whether an entry holds a page-aligned frame address within the 52-bit range.
pub open spec fn entry_ok(e: TlbEntry) -> bool {
    e.physical_page % 0x1000 == 0 && e.physical_page <= PMASK
}

proof fn lemma_masks(e: u64, va: u64)
    ensures
        e & PMASK <= PMASK,
        (e & PMASK) % 0x1000 == 0,
        e & HUGE_1G_MASK <= HUGE_1G_MASK,
        (e & HUGE_1G_MASK) % 0x1000 == 0,
        e & HUGE_2M_MASK <= HUGE_2M_MASK,
        (e & HUGE_2M_MASK) % 0x1000 == 0,
        va & 0x3FFF_FFFF <= 0x3FFF_FFFF,
        (va & 0x3FFF_FFFF) % 0x1000 == va % 0x1000,
        va & 0x1F_FFFF <= 0x1F_FFFF,
        (va & 0x1F_FFFF) % 0x1000 == va % 0x1000,
        va & 0xfff < 0x1000,
        va & 0xfff == va % 0x1000,
        va & 0x1ff < 512,
        (va >> 12) & 0x1ff < 512,
        (va >> 21) & 0x1ff < 512,
        (va >> 30) & 0x1ff < 512,
        (va >> 39) & 0x1ff < 512,
        (e & ROOT_MASK) % 16 == 0,
{
    assert(e & PMASK <= PMASK) by (bit_vector);
    assert((e & PMASK) % 0x1000 == 0) by (bit_vector);
    assert(e & HUGE_1G_MASK <= HUGE_1G_MASK) by (bit_vector);
    assert((e & HUGE_1G_MASK) % 0x1000 == 0) by (bit_vector);
    assert(e & HUGE_2M_MASK <= HUGE_2M_MASK) by (bit_vector);
    assert((e & HUGE_2M_MASK) % 0x1000 == 0) by (bit_vector);
    assert(va & 0x3FFF_FFFF <= 0x3FFF_FFFF) by (bit_vector);
    assert((va & 0x3FFF_FFFF) % 0x1000 == va % 0x1000) by (bit_vector);
    assert(va & 0x1F_FFFF <= 0x1F_FFFF) by (bit_vector);
    assert((va & 0x1F_FFFF) % 0x1000 == va % 0x1000) by (bit_vector);
    assert(va & 0xfff < 0x1000) by (bit_vector);
    assert(va & 0xfff == va % 0x1000) by (bit_vector);
    assert(va & 0x1ff < 512) by (bit_vector);
    assert((va >> 12) & 0x1ff < 512) by (bit_vector);
    assert((va >> 21) & 0x1ff < 512) by (bit_vector);
    assert((va >> 30) & 0x1ff < 512) by (bit_vector);
    assert((va >> 39) & 0x1ff < 512) by (bit_vector);
    assert((e & ROOT_MASK) % 16 == 0) by (bit_vector);
}

/// Addresses in one 4 KiB page select the same table entries.
proof fn lemma_same_page_same_walk(mem: Map<int, u8>, dtb: u64, a: u64, b: u64)
    requires
        page_of(a) == page_of(b),
    ensures
        page_walk(mem, dtb, a) == page_walk(mem, dtb, b),
{
    assert(a & PAGE_MASK == b & PAGE_MASK ==> (a >> 12) & 0x1ff == (b >> 12) & 0x1ff && (a >> 21)
        & 0x1ff == (b >> 21) & 0x1ff && (a >> 30) & 0x1ff == (b >> 30) & 0x1ff && (a >> 39) & 0x1ff
        == (b >> 39) & 0x1ff) by (bit_vector);
}

proof fn lemma_find_live_of_live_entries(s: Seq<TlbEntry>, dtb: u64, vpage: u64, now: u64)
    ensures
        find_live(live_entries(s, now), dtb, vpage, now) == find_live(s, dtb, vpage, now),
    decreases s.len(),
{
    if s.len() > 0 {
        lemma_find_live_of_live_entries(s.drop_last(), dtb, vpage, now);
        let k = live_entries(s.drop_last(), now);
        if entry_live(s.last(), now) {
            assert(k.push(s.last()).drop_last() =~= k);
        }
    }
}

/// A non-zero translation keeps the page offset of its virtual address.
pub proof fn lemma_translation_offset(s: Seq<TlbEntry>, mem: Map<int, u8>, dtb: u64, va: u64, now: u64)
    requires
        forall|i: int| 0 <= i < s.len() ==> entry_ok(#[trigger] s[i]),
    ensures
        translation(s, mem, dtb, va, now) != 0 ==> translation(s, mem, dtb, va, now) % 0x1000
            == va % 0x1000,
    decreases s.len(),
{
    lemma_masks(0, va);
    if va != 0 {
        match find_live(s, dtb, page_of(va), now) {
            Some(e) => {
                lemma_find_live_in(s, dtb, page_of(va), now);
            },
            None => {
                match page_walk(mem, dtb, va) {
                    PageWalk::Unmapped => {},
                    PageWalk::Huge1G(e) => { lemma_masks(e, va); },
                    PageWalk::Huge2M(e) => { lemma_masks(e, va); },
                    PageWalk::Page4K(e) => { lemma_masks(e, va); },
                }
            },
        }
    }
}

proof fn lemma_find_live_in(s: Seq<TlbEntry>, dtb: u64, vpage: u64, now: u64)
    ensures
        find_live(s, dtb, vpage, now) matches Some(e) ==> exists|i: int| 0 <= i < s.len() && s[i] == e,
    decreases s.len(),
{
    if s.len() > 0 {
        lemma_find_live_in(s.drop_last(), dtb, vpage, now);
        if let Some(e) = find_live(s.drop_last(), dtb, vpage, now) {
            if !(s.last().dtb == dtb && s.last().virtual_page == vpage && entry_live(s.last(), now)) {
                let i = choose|i: int| 0 <= i < s.len() - 1 && s.drop_last()[i] == e;
                assert(s[i] == e);
            }
        }
    }
}

/// Translating through the cache leaves every translation at the same time
/// unchanged: a miss adds only what the walk gives anyway.
pub proof fn lemma_cache_after_same(s: Seq<TlbEntry>, mem: Map<int, u8>, dtb: u64, va: u64, now: u64)
    ensures
        same_translations(cache_after(s, mem, dtb, va, now), s, mem, now),
{
    let t = cache_after(s, mem, dtb, va, now);
    assert forall|d: u64, v: u64| #[trigger]
        translation(t, mem, d, v, now) == translation(s, mem, d, v, now) by {
        if va != 0 && v != 0 {
            let kept = live_entries(s, now);
            lemma_find_live_of_live_entries(s, d, page_of(v), now);
            if find_live(s, dtb, page_of(va), now) is None {
                if let PageWalk::Page4K(e) = page_walk(mem, dtb, va) {
                    let x = TlbEntry { dtb, virtual_page: page_of(va), physical_page: e & PMASK, inserted_at: now };
                    assert(kept.push(x).drop_last() =~= kept);
                    if d == dtb && page_of(v) == page_of(va) {
                        lemma_same_page_same_walk(mem, dtb, v, va);
                    }
                }
            }
        }
    }
}

/// A walk through three non-zero intermediate entries without large-page
/// bits ends at the leaf entry's frame bits plus the page offset, whatever the
/// leaf holds (a zero leaf gives frame 0); one whose level-3 or level-2 entry has
/// the large-page bit ends at that entry's 1 GiB or 2 MiB frame plus the low
/// 30 or 21 bits of the address.
pub proof fn lemma_page_walk_correct(mem: Map<int, u8>, dtb: u64, va: u64)
    ensures
        ({
            let l4 = table_entry(mem, dtb & ROOT_MASK, table_index(va, 39));
            let l3 = table_entry(mem, l4 & PMASK, table_index(va, 30));
            let l2 = table_entry(mem, l3 & PMASK, table_index(va, 21));
            let l1 = table_entry(mem, l2 & PMASK, table_index(va, 12));
            &&& (l4 != 0 && l3 != 0 && l3 & LARGE_PAGE_BIT != 0 ==> walk_translate(mem, dtb, va) == (l3
                & HUGE_1G_MASK) + (va & 0x3FFF_FFFF))
            &&& (l4 != 0 && l3 != 0 && l3 & LARGE_PAGE_BIT == 0 && l2 != 0 && l2 & LARGE_PAGE_BIT != 0
                ==> walk_translate(mem, dtb, va) == (l2 & HUGE_2M_MASK) + (va & 0x1F_FFFF))
            &&& (l4 != 0 && l3 != 0 && l3 & LARGE_PAGE_BIT == 0 && l2 != 0 && l2 & LARGE_PAGE_BIT == 0
                ==> walk_translate(mem, dtb, va) == (l1 & PMASK) + (va & 0xfff))
        }),
{
    let l4 = table_entry(mem, dtb & ROOT_MASK, table_index(va, 39));
    let l3 = table_entry(mem, l4 & PMASK, table_index(va, 30));
    let l2 = table_entry(mem, l3 & PMASK, table_index(va, 21));
    let l1 = table_entry(mem, l2 & PMASK, table_index(va, 12));
    lemma_masks(l3, va);
    lemma_masks(l2, va);
    lemma_masks(l1, va);
}

/// A zero intermediate entry on the walk's path leaves the address unmapped, and
/// address 0 translates to 0 whatever memory holds, leaving the cache as it was.
pub proof fn lemma_unmapped_path(s: Seq<TlbEntry>, mem: Map<int, u8>, dtb: u64, va: u64, now: u64)
    ensures
        ({
            let l4 = table_entry(mem, dtb & ROOT_MASK, table_index(va, 39));
            let l3 = table_entry(mem, l4 & PMASK, table_index(va, 30));
            let l2 = table_entry(mem, l3 & PMASK, table_index(va, 21));
            let l1 = table_entry(mem, l2 & PMASK, table_index(va, 12));
            (l4 == 0 || (l3 == 0 || (l3 & LARGE_PAGE_BIT == 0 && l2 == 0))) ==> walk_translate(mem, dtb, va)
                == 0
        }),
        forall|m: Map<int, u8>| #[trigger] translation(s, m, dtb, 0, now) == 0,
        forall|m: Map<int, u8>| #[trigger] cache_after(s, m, dtb, 0, now) == s,
{
}

proof fn lemma_all_dead(s: Seq<TlbEntry>, dtb: u64, vpage: u64, t: u64)
    requires
        forall|i: int| 0 <= i < s.len() ==> !entry_live(#[trigger] s[i], t),
    ensures
        find_live(s, dtb, vpage, t) is None,
    decreases s.len(),
{
    if s.len() > 0 {
        assert(!entry_live(s[s.len() - 1], t));
        lemma_all_dead(s.drop_last(), dtb, vpage, t);
    }
}

proof fn lemma_live_entries_stamped(s: Seq<TlbEntry>, now: u64, t1: u64)
    requires
        forall|i: int| 0 <= i < s.len() ==> (#[trigger] s[i]).inserted_at <= t1,
    ensures
        forall|i: int| 0 <= i < live_entries(s, now).len() ==> (#[trigger] live_entries(s, now)[i]).inserted_at <= t1,
    decreases s.len(),
{
    if s.len() > 0 {
        lemma_live_entries_stamped(s.drop_last(), now, t1);
        let k = live_entries(s.drop_last(), now);
        assert(s.last() == s[s.len() - 1]);
        if entry_live(s.last(), now) {
            assert forall|i: int| 0 <= i < k.push(s.last()).len() implies (#[trigger] k.push(s.last())[i]).inserted_at <= t1 by {
                if i < k.len() {
                    assert(k.push(s.last())[i] == k[i]);
                }
            }
        }
    }
}

/// A translation that walked to a 4 KiB leaf at `t1` is answered from the
/// cache for any address of the same page until the entry expires: until
/// `t1 + TLB_ENTRY_TIMEOUT_MS` the result is the first walk's, whatever the
/// memory then holds, so the table levels are not walked again. Once the
/// entry has expired (and no entry was stamped after `t1`), the next
/// translation walks the memory as it then is.
pub proof fn lemma_cache_hit_avoids_rewalk(
    s: Seq<TlbEntry>,
    mem1: Map<int, u8>,
    mem2: Map<int, u8>,
    dtb: u64,
    va: u64,
    va2: u64,
    t1: u64,
    t2: u64,
)
    requires
        va != 0,
        va2 != 0,
        page_of(va2) == page_of(va),
        find_live(s, dtb, page_of(va), t1) is None,
        page_walk(mem1, dtb, va) is Page4K,
        t1 <= t2,
    ensures
        t2 < t1 + TLB_ENTRY_TIMEOUT_MS ==> translation(cache_after(s, mem1, dtb, va, t1), mem2, dtb, va2, t2)
            == walk_translate(mem1, dtb, va2),
        t2 >= t1 + TLB_ENTRY_TIMEOUT_MS && (forall|i: int| 0 <= i < s.len() ==> (#[trigger] s[i]).inserted_at <= t1)
            ==> translation(cache_after(s, mem1, dtb, va, t1), mem2, dtb, va2, t2) == walk_translate(mem2, dtb, va2),
{
    let kept = live_entries(s, t1);
    let e = page_walk(mem1, dtb, va)->Page4K_0;
    let x = TlbEntry { dtb, virtual_page: page_of(va), physical_page: e & PMASK, inserted_at: t1 };
    let t = kept.push(x);
    assert(t.drop_last() =~= kept);
    lemma_same_page_same_walk(mem1, dtb, va2, va);
    if t2 >= t1 + TLB_ENTRY_TIMEOUT_MS && (forall|i: int| 0 <= i < s.len() ==> (#[trigger] s[i]).inserted_at <= t1) {
        lemma_live_entries_stamped(s, t1, t1);
        assert forall|i: int| 0 <= i < t.len() implies !entry_live(#[trigger] t[i], t2) by {
            if i < kept.len() {
                assert(t[i] == kept[i]);
            }
        }
        lemma_all_dead(t, dtb, page_of(va2), t2);
    }
}

/// The translation cache: entries keyed by page-table root and virtual page,
/// valid for `TLB_ENTRY_TIMEOUT_MS` after insertion.
pub struct TranslationCache {
    entries: Vec<TlbEntry>,
}

impl View for TranslationCache {
    type V = Seq<TlbEntry>;

    closed spec fn view(&self) -> Seq<TlbEntry> {
        self.entries@
    }
}

impl TranslationCache {
    /// Every entry holds a page-aligned 52-bit frame address.
    pub open spec fn wf(&self) -> bool {
        forall|i: int| 0 <= i < self@.len() ==> entry_ok(#[trigger] self@[i])
    }

    /// The stored entries hold page-aligned 52-bit frame addresses.
    #[verifier::type_invariant]
    spec fn entries_ok(&self) -> bool {
        forall|i: int| 0 <= i < self.entries@.len() ==> entry_ok(#[trigger] self.entries@[i])
    }

    /// Every cache is well formed; this call makes that known.
    pub fn check_wf(&self)
        ensures
            self.wf(),
    {
        proof {
            use_type_invariant(self);
        }
    }

    /// An empty cache.
    pub fn new() -> (r: TranslationCache)
        ensures
            r@ == Seq::<TlbEntry>::empty(),
            r.wf(),
    {
        TranslationCache { entries: Vec::new() }
    }

    /// Number of entries held, valid or not.
    pub fn len(&self) -> (r: usize)
        ensures
            r == self@.len(),
    {
        self.entries.len()
    }

    /// Drops the entries that are no longer valid at `now`, then appends
    /// `added`, if any.
    fn refresh(&mut self, now: u64, added: Option<TlbEntry>)
        requires
            old(self).wf(),
            added matches Some(e) ==> entry_ok(e),
        ensures
            final(self)@ == match added {
                Some(e) => live_entries(old(self)@, now).push(e),
                None => live_entries(old(self)@, now),
            },
            final(self).wf(),
    {
        let ghost s = self@;
        let mut kept: Vec<TlbEntry> = Vec::new();
        let mut i: usize = 0;
        while i < self.entries.len()
            invariant
                i <= s.len(),
                self@ == s,
                kept@ == live_entries(s.subrange(0, i as int), now),
                forall|j: int| 0 <= j < kept@.len() ==> entry_ok(#[trigger] kept@[j]),
                forall|j: int| 0 <= j < s.len() ==> entry_ok(#[trigger] s[j]),
            decreases s.len() - i,
        {
            let e = self.entries[i];
            assert(s.subrange(0, i + 1).drop_last() =~= s.subrange(0, i as int));
            if (now as u128) < e.inserted_at as u128 + TLB_ENTRY_TIMEOUT_MS as u128 {
                kept.push(e);
            }
            i += 1;
        }
        assert(s.subrange(0, s.len() as int) =~= s);
        if let Some(e) = added {
            kept.push(e);
            assert forall|j: int| 0 <= j < kept@.len() implies entry_ok(#[trigger] kept@[j]) by {
                if j < kept@.len() - 1 {
                    assert(kept@[j] == live_entries(s, now)[j]);
                }
            }
        }
        self.entries = kept;
    }

    /// The latest entry for `(dtb, vpage)` that is valid at `now`.
    fn lookup(&self, dtb: u64, vpage: u64, now: u64) -> (r: Option<TlbEntry>)
        ensures
            r == find_live(self@, dtb, vpage, now),
    {
        let ghost s = self@;
        let mut i: usize = self.entries.len();
        assert(s.subrange(0, s.len() as int) =~= s);
        while i > 0
            invariant
                i <= s.len(),
                self@ == s,
                find_live(s, dtb, vpage, now) == find_live(s.subrange(0, i as int), dtb, vpage, now),
            decreases i,
        {
            let e = self.entries[i - 1];
            assert(s.subrange(0, i as int).drop_last() =~= s.subrange(0, i - 1));
            if e.dtb == dtb && e.virtual_page == vpage && (now as u128) < e.inserted_at as u128
                + TLB_ENTRY_TIMEOUT_MS as u128 {
                return Some(e);
            }
            i -= 1;
        }
        None
    }
}

/// A physical-memory backend together with the translation cache and the
/// clock reading that the cache's expiry is measured against.
pub struct DriverContext<P: ReadPhysicalMemory> {
    /// The physical-memory backend.
    pub provider: P,
    /// Recent translations; see `translate_linear_address`.
    pub tlb: TranslationCache,
    /// The clock reading, in milliseconds, that cache entries are stamped
    /// with and expire against; the caller advances it with `set_time`.
    pub now_ms: u64,
}

/// Reads the entry at `index` of the table at physical `base`; 0 when it
/// cannot be read.
fn read_table_entry<P: ReadPhysicalMemory>(provider: &P, base: u64, index: u64) -> (r: u64)
    requires
        index < 512,
    ensures
        r == table_entry(provider.phys_view(), base, index),
{
    if base > u64::MAX - 8 * index {
        return 0;
    }
    read_physical_u64(provider, base + 8 * index)
}

/// Walks the paging hierarchy rooted at `dtb` for `va`, level by level.
fn walk_page_tables<P: ReadPhysicalMemory>(provider: &P, dtb: u64, va: u64) -> (r: PageWalk)
    ensures
        r == page_walk(provider.phys_view(), dtb, va),
{
    proof {
        lemma_masks(0, va);
    }
    let l4 = read_table_entry(provider, dtb & ROOT_MASK, (va >> 39) & 0x1ff);
    if l4 == 0 {
        return PageWalk::Unmapped;
    }
    let l3 = read_table_entry(provider, l4 & PMASK, (va >> 30) & 0x1ff);
    if l3 == 0 {
        return PageWalk::Unmapped;
    }
    if l3 & LARGE_PAGE_BIT != 0 {
        return PageWalk::Huge1G(l3);
    }
    let l2 = read_table_entry(provider, l3 & PMASK, (va >> 21) & 0x1ff);
    if l2 == 0 {
        return PageWalk::Unmapped;
    }
    if l2 & LARGE_PAGE_BIT != 0 {
        return PageWalk::Huge2M(l2);
    }
    PageWalk::Page4K(read_table_entry(provider, l2 & PMASK, (va >> 12) & 0x1ff))
}

impl<P: ReadPhysicalMemory> DriverContext<P> {
    /// A context over `provider` with an empty cache and the clock at `now_ms`.
    pub fn new(provider: P, now_ms: u64) -> (r: Self)
        ensures
            r.provider == provider,
            r.tlb@ == Seq::<TlbEntry>::empty(),
            r.tlb.wf(),
            r.now_ms == now_ms,
    {
        DriverContext { provider, tlb: TranslationCache::new(), now_ms }
    }

    /// Sets the clock reading used for cache expiry.
    pub fn set_time(&mut self, now_ms: u64)
        ensures
            final(self).now_ms == now_ms,
            final(self).provider == old(self).provider,
            final(self).tlb == old(self).tlb,
    {
        self.now_ms = now_ms;
    }

    /// The physical memory that the backend serves.
    pub open spec fn mem(&self) -> Map<int, u8> {
        self.provider.phys_view()
    }

    /// The translation of `va` in the address space `dtb` in this state.
    pub open spec fn spec_translate(&self, dtb: u64, va: u64) -> u64 {
        translation(self.tlb@, self.mem(), dtb, va, self.now_ms)
    }

    /// Whether `self` and `other` serve the same memory at the same time and
    /// translate every address alike.
    pub open spec fn agrees_with(&self, other: &Self) -> bool {
        &&& self.provider == other.provider
        &&& self.now_ms == other.now_ms
        &&& self.tlb.wf()
        &&& same_translations(self.tlb@, other.tlb@, self.mem(), self.now_ms)
    }

    /// Walks the paging hierarchy of `dtb` for `virt_addr`, first consulting
    /// the cache. Returns the physical address, or 0 when the address is 0 or
    /// unmapped. Expired entries are dropped; a miss that ends at a 4 KiB leaf
    /// is cached.
    pub fn translate_linear_address(&mut self, dtb: u64, virt_addr: u64) -> (r: u64)
        ensures
            r == old(self).spec_translate(dtb, virt_addr),
            final(self).tlb@ == cache_after(
                old(self).tlb@,
                old(self).mem(),
                dtb,
                virt_addr,
                old(self).now_ms,
            ),
            final(self).provider == old(self).provider,
            final(self).now_ms == old(self).now_ms,
            final(self).tlb.wf(),
            final(self).agrees_with(old(self)),
    {
        self.tlb.check_wf();
        let ghost mem = self.mem();
        let ghost s = self.tlb@;
        let now = self.now_ms;
        proof {
            lemma_cache_after_same(s, mem, dtb, virt_addr, now);
        }
        if virt_addr == 0 {
            return 0;
        }
        let virtual_page = virt_addr & PAGE_MASK;
        let offset = virt_addr & 0xfff;
        proof {
            lemma_masks(0, virt_addr);
        }
        let hit = self.tlb.lookup(dtb, virtual_page, now);
        if let Some(e) = hit {
            self.tlb.refresh(now, None);
            proof {
                lemma_find_live_in(s, dtb, virtual_page, now);
            }
            return e.physical_page + offset;
        }
        match walk_page_tables(&self.provider, dtb, virt_addr) {
            PageWalk::Unmapped => {
                self.tlb.refresh(now, None);
                0
            },
            PageWalk::Huge1G(e) => {
                self.tlb.refresh(now, None);
                proof {
                    lemma_masks(e, virt_addr);
                }
                (e & HUGE_1G_MASK) + (virt_addr & 0x3FFF_FFFF)
            },
            PageWalk::Huge2M(e) => {
                self.tlb.refresh(now, None);
                proof {
                    lemma_masks(e, virt_addr);
                }
                (e & HUGE_2M_MASK) + (virt_addr & 0x1F_FFFF)
            },
            PageWalk::Page4K(e) => {
                let pa_page = e & PMASK;
                proof {
                    lemma_masks(e, virt_addr);
                }
                self.tlb.refresh(now, Some(TlbEntry { dtb, virtual_page, physical_page: pa_page, inserted_at: now }));
                pa_page + offset
            },
        }
    }
}

} // verus!
