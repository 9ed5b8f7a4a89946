//! Address spaces at page granularity, and the validation of user requests
//! that map or unmap ranges of them.
use vstd::prelude::*;

verus! {

/// Size of a page in bytes.
pub const PAGE_SIZE: usize = 4096;

/// Kernel permission flag: readable.
pub const PERM_R: u8 = 2;
/// Kernel permission flag: writable.
pub const PERM_W: u8 = 4;
/// Kernel permission flag: executable.
pub const PERM_X: u8 = 8;
/// Kernel permission flag: reachable from user mode.
pub const PERM_U: u8 = 16;

/// Number of pages covered by a byte length, rounding up; `len` is non-zero.
pub open spec fn page_count(len: usize) -> int {
    (len - 1) / (PAGE_SIZE as int) + 1
}

/// A user range `[start, start + len)` that can be mapped or unmapped: non-empty,
/// page-aligned, and inside the address space once rounded up to whole pages.
pub open spec fn range_ok(start: usize, len: usize) -> bool {
    &&& len > 0
    &&& start % PAGE_SIZE == 0
    &&& (start / PAGE_SIZE) + page_count(len) <= (usize::MAX / PAGE_SIZE) + 1
}

/// First page of a range.
pub open spec fn first_vpn(start: usize) -> int {
    (start / PAGE_SIZE) as int
}

/// A user permission mask holds Read, Write and Execute in its low three bits,
/// at least one of them, and nothing else.
pub open spec fn port_ok(port: usize) -> bool {
    1 <= port <= 7
}

/// Kernel flags for a user permission mask: User, plus one flag per requested bit.
pub open spec fn perm_of(port: usize) -> u8 {
    PERM_U | (if port & 1 == 1 { PERM_R } else { 0 }) | (if (port >> 1) & 1 == 1 {
        PERM_W
    } else {
        0
    }) | (if (port >> 2) & 1 == 1 {
        PERM_X
    } else {
        0
    })
}

/// The mapped pages of one task: each entry is a virtual page number with its
/// permission flags.
pub struct MemorySet {
    pub pages: Vec<(usize, u8)>,
}

/// A copy of a vector of plain values.
pub fn copy_vec<T: Copy>(v: &Vec<T>) -> (r: Vec<T>)
    ensures
        r@ == v@,
{
    let mut r: Vec<T> = Vec::new();
    let mut i: usize = 0;
    while i < v.len()
        invariant
            i <= v.len(),
            r@ == v@.subrange(0, i as int),
        decreases v.len() - i,
    {
        r.push(v[i]);
        i = i + 1;
        assert(r@ =~= v@.subrange(0, i as int));
    }
    assert(r@ =~= v@);
    r
}

/// No page number occurs twice.
pub open spec fn pages_unique(s: Seq<(usize, u8)>) -> bool {
    forall|i: int, j: int| 0 <= i < j < s.len() ==> s[i].0 != s[j].0
}

/// The entries of `s` outside the pages `[lo, hi)`.
pub open spec fn outside(s: Seq<(usize, u8)>, lo: int, hi: int) -> Seq<(usize, u8)> {
    s.filter(not_in(lo, hi))
}

/// Whether an entry lies outside the pages `[lo, hi)`.
pub open spec fn not_in(lo: int, hi: int) -> spec_fn((usize, u8)) -> bool {
    |e: (usize, u8)| !(lo <= e.0 < hi)
}

/// The entries that mapping pages `[lo, hi)` with `perm` appends.
pub open spec fn fresh_pages(lo: int, hi: int, perm: u8) -> Seq<(usize, u8)> {
    Seq::new((hi - lo) as nat, |i: int| ((lo + i) as usize, perm))
}

proof fn lemma_filter_keeps_unique(s: Seq<(usize, u8)>, lo: int, hi: int)
    requires
        pages_unique(s),
    ensures
        pages_unique(outside(s, lo, hi)),
    decreases s.len(),
{
    reveal(Seq::filter);
    if s.len() > 0 {
        let p = not_in(lo, hi);
        let d = s.drop_last();
        lemma_filter_keeps_unique(d, lo, hi);
        broadcast use vstd::seq_lib::group_filter_ensures;
        assert(outside(d, lo, hi) == d.filter(p));
        if p(s.last()) {
            assert forall|k: int| 0 <= k < d.filter(p).len() implies d.filter(p)[k].0 != s.last().0 by {
                let e = d.filter(p)[k];
                assert(d.filter(p).contains(e));
                d.lemma_filter_contains_rev(p, e);
                assert(d.contains(e));
                let m = choose|m: int| 0 <= m < d.len() && d[m] == e;
                assert(s[m] == e);
            }
        }
    }
}

impl MemorySet {
    pub open spec fn wf(&self) -> bool {
        pages_unique(self.pages@)
    }

    /// Page `vpn` is mapped.
    pub open spec fn is_mapped(&self, vpn: int) -> bool {
        exists|i: int| 0 <= i < self.pages@.len() && self.pages@[i].0 == vpn
    }

    /// An address space with nothing mapped.
    pub fn new() -> (r: Self)
        ensures
            r.pages@ == Seq::<(usize, u8)>::empty(),
            r.wf(),
    {
        MemorySet { pages: Vec::new() }
    }

    /// A copy of this address space, with the same pages.
    pub fn duplicate(&self) -> (r: Self)
        ensures
            r.pages@ == self.pages@,
    {
        MemorySet { pages: copy_vec(&self.pages) }
    }

    /// Whether no page of `[lo, hi)` is mapped.
    pub fn range_is_free(&self, lo: usize, hi: usize) -> (r: bool)
        ensures
            r == (forall|v: int| lo <= v < hi ==> !self.is_mapped(v)),
    {
        let mut i: usize = 0;
        while i < self.pages.len()
            invariant
                i <= self.pages.len(),
                forall|j: int| 0 <= j < i ==> !(lo <= #[trigger] self.pages@[j].0 < hi),
            decreases self.pages.len() - i,
        {
            let v = self.pages[i].0;
            if lo <= v && v < hi {
                assert(self.is_mapped(v as int));
                return false;
            }
            i = i + 1;
        }
        true
    }

    /// Whether page `vpn` is mapped.
    pub fn contains_vpn(&self, vpn: usize) -> (r: bool)
        ensures
            r == self.is_mapped(vpn as int),
    {
        let mut i: usize = 0;
        while i < self.pages.len()
            invariant
                i <= self.pages.len(),
                forall|j: int| 0 <= j < i ==> #[trigger] self.pages@[j].0 != vpn,
            decreases self.pages.len() - i,
        {
            if self.pages[i].0 == vpn {
                return true;
            }
            i = i + 1;
        }
        false
    }

    /// Whether every page of `[lo, hi)` is mapped.
    pub fn range_is_mapped(&self, lo: usize, hi: usize) -> (r: bool)
        ensures
            r == (forall|v: int| lo <= v < hi ==> self.is_mapped(v)),
    {
        let mut v: usize = lo;
        while v < hi
            invariant
                lo <= v,
                forall|w: int| lo <= w < v ==> self.is_mapped(w),
            decreases hi - v,
        {
            if !self.contains_vpn(v) {
                assert(!self.is_mapped(v as int));
                return false;
            }
            v = v + 1;
        }
        true
    }

    /// Maps pages `[lo, hi)` with `perm`, unless one of them is mapped already;
    /// nothing changes on failure.
    pub fn memory_map(&mut self, lo: usize, hi: usize, perm: u8) -> (r: bool)
        requires
            old(self).wf(),
            lo <= hi,
        ensures
            final(self).wf(),
            r == (forall|v: int| lo <= v < hi ==> !old(self).is_mapped(v)),
            r ==> final(self).pages@ == old(self).pages@ + fresh_pages(lo as int, hi as int, perm),
            !r ==> *final(self) == *old(self),
    {
        if !self.range_is_free(lo, hi) {
            return false;
        }
        self.map_free_range(lo, hi, perm);
        true
    }

    /// Maps pages `[lo, hi)`, none of which is mapped, with `perm`.
    pub fn map_free_range(&mut self, lo: usize, hi: usize, perm: u8)
        requires
            old(self).wf(),
            lo <= hi,
            forall|v: int| lo <= v < hi ==> !old(self).is_mapped(v),
        ensures
            final(self).wf(),
            final(self).pages@ == old(self).pages@ + fresh_pages(lo as int, hi as int, perm),
    {
        let ghost base = self.pages@;
        let ghost orig = *self;
        let mut v: usize = lo;
        while v < hi
            invariant
                lo <= v <= hi,
                orig.pages@ == base,
                forall|w: int| lo <= w < hi ==> !#[trigger] orig.is_mapped(w),
                pages_unique(base),
                self.pages@ == base + fresh_pages(lo as int, v as int, perm),
            decreases hi - v,
        {
            self.pages.push((v, perm));
            v = v + 1;
            assert(self.pages@ =~= base + fresh_pages(lo as int, v as int, perm));
        }
        assert forall|i: int, j: int| 0 <= i < j < self.pages@.len() implies self.pages@[i].0
            != self.pages@[j].0 by {
            if j >= base.len() && i < base.len() {
                let w = self.pages@[j].0 as int;
                assert(lo <= w < hi);
                assert(base[i] == self.pages@[i]);
                assert(!orig.is_mapped(w));
            }
        }
    }

    /// Unmaps pages `[lo, hi)` if every one of them is mapped; nothing changes
    /// otherwise.
    pub fn memory_unmap(&mut self, lo: usize, hi: usize) -> (r: bool)
        requires
            old(self).wf(),
        ensures
            final(self).wf(),
            r == (forall|v: int| lo <= v < hi ==> old(self).is_mapped(v)),
            r ==> final(self).pages@ == outside(old(self).pages@, lo as int, hi as int),
            !r ==> *final(self) == *old(self),
    {
        if !self.range_is_mapped(lo, hi) {
            return false;
        }
        self.unmap_range(lo, hi);
        true
    }

    /// Drops every entry of pages `[lo, hi)`.
    pub fn unmap_range(&mut self, lo: usize, hi: usize)
        requires
            old(self).wf(),
        ensures
            final(self).wf(),
            final(self).pages@ == outside(old(self).pages@, lo as int, hi as int),
    {
        let ghost base = self.pages@;
        let mut kept: Vec<(usize, u8)> = Vec::new();
        let mut i: usize = 0;
        while i < self.pages.len()
            invariant
                i <= self.pages.len(),
                self.pages@ == base,
                kept@ == base.subrange(0, i as int).filter(not_in(lo as int, hi as int)),
            decreases self.pages.len() - i,
        {
            let e = self.pages[i];
            proof {
                assert(base.subrange(0, i + 1) =~= base.subrange(0, i as int).push(e));
                base.subrange(0, i as int).lemma_filter_push(e, not_in(lo as int, hi as int));
            }
            if !(lo <= e.0 && e.0 < hi) {
                kept.push(e);
            }
            i = i + 1;
        }
        assert(base.subrange(0, i as int) =~= base);
        proof {
            lemma_filter_keeps_unique(base, lo as int, hi as int);
        }
        self.pages = kept;
    }
}

} // verus!
