//! A task's address space: the set of mapped virtual pages with their
//! permissions, and the checked mmap/munmap mutations on it.
//!
//! The page-table and frame-allocator machinery behind a mapping is an
//! external collaborator; the kernel's own obligation — which ranges may be
//! mapped or unmapped, and with which permission bits — is what this module
//! states and proves.

use vstd::prelude::*;
use crate::config::PAGE_SIZE;

verus! {

/// Readable permission bit, as stored in a page-table entry.
pub const PERM_R: usize = 2;

/// Writable permission bit.
pub const PERM_W: usize = 4;

/// Executable permission bit.
pub const PERM_X: usize = 8;

/// User-accessible permission bit, set implicitly on every mmap.
pub const PERM_U: usize = 16;

/// The three permission bits a caller of `mmap` may request.
pub const PROT_MASK: usize = 7;

/// One mapped page: its virtual page number and its permission bits.
#[derive(Clone, Copy, PartialEq, Eq, Structural)]
pub struct PageEntry {
    pub vpn: usize,
    pub perm: usize,
}

/// The set of mapped virtual regions owned by one task.
pub struct AddressSpace {
    pages: Vec<PageEntry>,
}

/// First virtual page of the byte range starting at `start`.
pub open spec fn first_vpn(start: int) -> int {
    start / (PAGE_SIZE as int)
}

/// Number of pages needed to cover `len` bytes from a page-aligned start.
pub open spec fn page_count(len: int) -> int {
    (len + (PAGE_SIZE as int) - 1) / (PAGE_SIZE as int)
}

/// A requested protection is valid when at least one of the
/// readable/writable/executable bits is set and no bit outside them is.
pub open spec fn spec_valid_prot(prot: usize) -> bool {
    prot & PROT_MASK != 0 && prot & !PROT_MASK == 0
}

/// The permission bits actually stored for a request `prot`: shifted into
/// page-table position, with the user-accessible bit added.
pub open spec fn stored_perm(prot: usize) -> usize {
    (prot << 1usize) | PERM_U
}

impl AddressSpace {
    /// No two entries map the same virtual page.
    pub closed spec fn wf(self) -> bool {
        forall|i: int, j: int|
            0 <= i < j < self.pages@.len() ==> (#[trigger] self.pages@[i]).vpn != (
            #[trigger] self.pages@[j]).vpn
    }

    /// Whether virtual page `vpn` is mapped.
    pub closed spec fn page_mapped(self, vpn: int) -> bool {
        exists|i: int| 0 <= i < self.pages@.len() && (#[trigger] self.pages@[i]).vpn == vpn
    }

    /// The permission bits of mapped page `vpn`.
    pub closed spec fn page_perm(self, vpn: int) -> usize {
        self.pages@[choose|i: int|
            0 <= i < self.pages@.len() && (#[trigger] self.pages@[i]).vpn == vpn].perm
    }

    /// No page of `[start_vpn, start_vpn + n)` is mapped.
    pub open spec fn range_unmapped(self, start_vpn: int, n: int) -> bool {
        forall|v: int| start_vpn <= v < start_vpn + n ==> !(#[trigger] self.page_mapped(v))
    }

    /// Every page of `[start_vpn, start_vpn + n)` is mapped.
    pub open spec fn range_mapped(self, start_vpn: int, n: int) -> bool {
        forall|v: int| start_vpn <= v < start_vpn + n ==> (#[trigger] self.page_mapped(v))
    }

    /// Pages outside `[start_vpn, start_vpn + n)` are the same in `self`
    /// and `other`.
    pub open spec fn same_outside(self, other: Self, start_vpn: int, n: int) -> bool {
        forall|v: int|
            !(start_vpn <= v < start_vpn + n) ==> (#[trigger] self.page_mapped(v))
                == other.page_mapped(v) && (other.page_mapped(v) ==> self.page_perm(v)
                == other.page_perm(v))
    }

    pub fn new() -> (r: Self)
        ensures
            r.wf(),
            forall|v: int| !(#[trigger] r.page_mapped(v)),
    {
        Self { pages: Vec::new() }
    }

    /// The entry at index `i` witnesses both that its page is mapped and
    /// what that page's permission is.
    proof fn lemma_perm_at(self, i: int)
        requires
            self.wf(),
            0 <= i < self.pages@.len(),
        ensures
            self.page_mapped(self.pages@[i].vpn as int),
            self.page_perm(self.pages@[i].vpn as int) == self.pages@[i].perm,
    {
        let v = self.pages@[i].vpn as int;
        assert(self.page_mapped(v));
        let c = choose|j: int| 0 <= j < self.pages@.len() && (#[trigger] self.pages@[j]).vpn == v;
        if c < i {
            assert(self.pages@[c].vpn != self.pages@[i].vpn);
        } else if c > i {
            assert(self.pages@[i].vpn != self.pages@[c].vpn);
        }
        assert(c == i);
    }

    /// Index of the entry mapping `vpn`, if any.
    fn find(&self, vpn: usize) -> (r: Option<usize>)
        requires
            self.wf(),
        ensures
            match r {
                Some(i) => i < self.pages@.len() && self.pages@[i as int].vpn == vpn
                    && self.page_mapped(vpn as int) && self.page_perm(vpn as int)
                    == self.pages@[i as int].perm,
                None => !self.page_mapped(vpn as int),
            },
    {
        let mut i: usize = 0;
        while i < self.pages.len()
            invariant
                self.wf(),
                i <= self.pages@.len(),
                forall|j: int| 0 <= j < i ==> (#[trigger] self.pages@[j]).vpn != vpn,
            decreases self.pages@.len() - i,
        {
            if self.pages[i].vpn == vpn {
                return Some(i);
            }
            i = i + 1;
        }
        None
    }

    /// Whether page `vpn` is mapped.
    pub fn is_page_mapped(&self, vpn: usize) -> (b: bool)
        requires
            self.wf(),
        ensures
            b == self.page_mapped(vpn as int),
    {
        self.find(vpn).is_some()
    }

    /// Whether no page of `[start_vpn, start_vpn + n)` is mapped.
    pub fn check_all_not_mapped(&self, start_vpn: usize, n: usize) -> (b: bool)
        requires
            self.wf(),
            start_vpn + n <= usize::MAX,
        ensures
            b == self.range_unmapped(start_vpn as int, n as int),
    {
        let mut k: usize = 0;
        while k < n
            invariant
                self.wf(),
                k <= n,
                start_vpn + n <= usize::MAX,
                forall|v: int| start_vpn <= v < start_vpn + k ==> !(#[trigger] self.page_mapped(v)),
            decreases n - k,
        {
            if self.is_page_mapped(start_vpn + k) {
                return false;
            }
            k = k + 1;
        }
        true
    }

    /// Whether every page of `[start_vpn, start_vpn + n)` is mapped.
    pub fn check_all_mapped(&self, start_vpn: usize, n: usize) -> (b: bool)
        requires
            self.wf(),
            start_vpn + n <= usize::MAX,
        ensures
            b == self.range_mapped(start_vpn as int, n as int),
    {
        let mut k: usize = 0;
        while k < n
            invariant
                self.wf(),
                k <= n,
                start_vpn + n <= usize::MAX,
                forall|v: int| start_vpn <= v < start_vpn + k ==> (#[trigger] self.page_mapped(v)),
            decreases n - k,
        {
            if !self.is_page_mapped(start_vpn + k) {
                return false;
            }
            k = k + 1;
        }
        true
    }

    /// Maps each page of `[start_vpn, start_vpn + n)` with permission
    /// `perm`.
    #[verifier::rlimit(60)]
    #[verifier::spinoff_prover]
    fn map_range(&mut self, start_vpn: usize, n: usize, perm: usize)
        requires
            old(self).wf(),
            old(self).range_unmapped(start_vpn as int, n as int),
            start_vpn + n <= usize::MAX,
        ensures
            final(self).wf(),
            forall|v: int|
                start_vpn <= v < start_vpn + n ==> (#[trigger] final(self).page_mapped(v)) && final(self).page_perm(v) == perm,
            final(self).same_outside(*old(self), start_vpn as int, n as int),
    {
        let mut k: usize = 0;
        while k < n
            invariant
                self.wf(),
                k <= n,
                start_vpn + n <= usize::MAX,
                self.pages@ == old(self).pages@ + Seq::new(
                    k as nat,
                    |m: int| PageEntry { vpn: (start_vpn + m) as usize, perm },
                ),
                old(self).range_unmapped(start_vpn as int, n as int),
            decreases n - k,
        {
            self.pages.push(PageEntry { vpn: start_vpn + k, perm });
            proof {
                assert(self.pages@ =~= old(self).pages@ + Seq::new(
                    (k + 1) as nat,
                    |m: int| PageEntry { vpn: (start_vpn + m) as usize, perm },
                ));
                assert forall|i: int, j: int| 0 <= i < j < self.pages@.len() implies (
                #[trigger] self.pages@[i]).vpn != (#[trigger] self.pages@[j]).vpn by {
                    let base = old(self).pages@.len() as int;
                    if j >= base {
                        assert(self.pages@[j].vpn == start_vpn + (j - base));
                        if i >= base {
                            assert(self.pages@[i].vpn == start_vpn + (i - base));
                        } else {
                            assert(!old(self).page_mapped(start_vpn + (j - base)));
                            assert(old(self).pages@[i] == self.pages@[i]);
                        }
                    }
                }
            }
            k = k + 1;
        }
        proof {
            let base = old(self).pages@.len() as int;
            assert forall|v: int| start_vpn <= v < start_vpn + n implies (
            #[trigger] self.page_mapped(v)) && self.page_perm(v) == perm by {
                let i = base + (v - start_vpn);
                assert(self.pages@[i].vpn == v);
                self.lemma_perm_at(i);
            }
            assert forall|v: int| !(start_vpn <= v < start_vpn + n) implies (
            #[trigger] self.page_mapped(v)) == old(self).page_mapped(v) && (old(self).page_mapped(
                v,
            ) ==> self.page_perm(v) == old(self).page_perm(v)) by {
                if old(self).page_mapped(v) {
                    let c = choose|j: int|
                        0 <= j < old(self).pages@.len() && (#[trigger] old(self).pages@[j]).vpn
                            == v;
                    assert(self.pages@[c] == old(self).pages@[c]);
                    old(self).lemma_perm_at(c);
                    self.lemma_perm_at(c);
                    assert(self.page_mapped(v) && self.page_perm(v) == old(self).page_perm(v));
                }
                if self.page_mapped(v) {
                    let c = choose|j: int|
                        0 <= j < self.pages@.len() && (#[trigger] self.pages@[j]).vpn == v;
                    assert(c < base) by {
                        if c >= base {
                            assert(self.pages@[c].vpn == start_vpn + (c - base));
                        }
                    }
                    assert(old(self).pages@[c] == self.pages@[c]);
                    old(self).lemma_perm_at(c);
                    assert(old(self).page_mapped(v));
                }
            }
            assert(self.same_outside(*old(self), start_vpn as int, n as int));
        }
    }

    /// Removes the entry mapping `vpn`.
    #[verifier::rlimit(30)]
    fn remove_page(&mut self, vpn: usize)
        requires
            old(self).wf(),
            old(self).page_mapped(vpn as int),
        ensures
            final(self).wf(),
            !final(self).page_mapped(vpn as int),
            forall|v: int|
                v != vpn ==> (#[trigger] final(self).page_mapped(v)) == old(self).page_mapped(v)
                    && (old(self).page_mapped(v) ==> final(self).page_perm(v) == old(self).page_perm(v)),
    {
        let idx = match self.find(vpn) {
            Some(i) => i,
            None => {
                proof {
                    assert(false);
                }
                0
            },
        };
        self.pages.remove(idx);
        proof {
            let oldseq = old(self).pages@;
            let i = idx as int;
            assert(self.pages@ =~= oldseq.subrange(0, i) + oldseq.subrange(
                i + 1,
                oldseq.len() as int,
            ));
            assert forall|j: int| 0 <= j < self.pages@.len() implies #[trigger] self.pages@[j] == (
            if j < i {
                oldseq[j]
            } else {
                oldseq[j + 1]
            }) by {}
            assert forall|v: int| v != vpn && old(self).page_mapped(v) implies (
            #[trigger] self.page_mapped(v)) && self.page_perm(v) == old(self).page_perm(v) by {
                let c = choose|m: int| 0 <= m < oldseq.len() && (#[trigger] oldseq[m]).vpn == v;
                let c2: int = if c < i {
                    c
                } else {
                    c - 1
                };
                assert(self.pages@[c2].vpn == v);
                let d = choose|m: int|
                    0 <= m < self.pages@.len() && (#[trigger] self.pages@[m]).vpn == v;
                let d2: int = if d < i {
                    d
                } else {
                    d + 1
                };
                assert(oldseq[d2].vpn == v);
                assert(oldseq[d2].perm == self.pages@[d].perm);
                assert(old(self).page_perm(v) == oldseq[choose|m: int|
                    0 <= m < oldseq.len() && (#[trigger] oldseq[m]).vpn == v].perm);
            }
            assert forall|v: int| self.page_mapped(v) implies old(self).page_mapped(v) by {
                let d = choose|m: int|
                    0 <= m < self.pages@.len() && (#[trigger] self.pages@[m]).vpn == v;
                let d2: int = if d < i {
                    d
                } else {
                    d + 1
                };
                assert(oldseq[d2].vpn == v);
            }
            assert forall|v: int| v == vpn implies !self.page_mapped(v) by {
                if self.page_mapped(v) {
                    let d = choose|m: int|
                        0 <= m < self.pages@.len() && (#[trigger] self.pages@[m]).vpn == v;
                    let d2: int = if d < i {
                        d
                    } else {
                        d + 1
                    };
                    assert(oldseq[d2].vpn == v);
                    assert(oldseq[i].vpn == v);
                }
            }
        }
    }

    /// Unmaps each page of `[start_vpn, start_vpn + n)`.
    #[verifier::rlimit(60)]
    #[verifier::spinoff_prover]
    fn unmap_range(&mut self, start_vpn: usize, n: usize)
        requires
            old(self).wf(),
            old(self).range_mapped(start_vpn as int, n as int),
            start_vpn + n <= usize::MAX,
        ensures
            final(self).wf(),
            final(self).range_unmapped(start_vpn as int, n as int),
            final(self).same_outside(*old(self), start_vpn as int, n as int),
    {
        let mut k: usize = 0;
        while k < n
            invariant
                self.wf(),
                k <= n,
                start_vpn + n <= usize::MAX,
                forall|v: int| start_vpn <= v < start_vpn + k ==> !(#[trigger] self.page_mapped(v)),
                forall|v: int|
                    start_vpn + k <= v < start_vpn + n ==> (#[trigger] self.page_mapped(v)),
                self.same_outside(*old(self), start_vpn as int, n as int),
            decreases n - k,
        {
            self.remove_page(start_vpn + k);
            k = k + 1;
        }
    }

    /// Maps `[start, start + len)` with the requested protection.
    ///
    /// Fails with `-1` when `start` is not page-aligned, when `prot` has no
    /// valid permission bit or a bit outside the permission set, or when
    /// any page of the range is already mapped; `len == 0` succeeds as a
    /// no-op. On success the whole range is mapped with the requested bits
    /// plus the user-accessible bit.
    pub fn mmap(&mut self, start: usize, len: usize, prot: usize) -> (r: isize)
        requires
            old(self).wf(),
        ensures
            final(self).wf(),
            r == -1 || r == 0,
            (r == -1) == mmap_rejected(*old(self), start as int, len as int, prot),
            r == -1 || len == 0 ==> *final(self) == *old(self),
            r == 0 && len > 0 ==> mmap_applied(
                *old(self),
                *final(self),
                start as int,
                len as int,
                prot,
            ),
    {
        if start % PAGE_SIZE != 0 {
            return -1;
        }
        if prot & PROT_MASK == 0 || prot & !PROT_MASK != 0 {
            return -1;
        }
        if len == 0 {
            return 0;
        }
        let sv = start / PAGE_SIZE;
        let n = len / PAGE_SIZE + if len % PAGE_SIZE != 0 {
            1
        } else {
            0
        };
        proof {
            assert(sv == first_vpn(start as int));
            assert(n == page_count(len as int));
            assert(sv + n <= usize::MAX);
        }
        if !self.check_all_not_mapped(sv, n) {
            return -1;
        }
        self.map_range(sv, n, (prot << 1usize) | PERM_U);
        proof {
            assert(mmap_applied(*old(self), *self, start as int, len as int, prot));
        }
        0
    }

    /// Unmaps `[start, start + len)`.
    ///
    /// Fails with `-1` when `start` is not page-aligned or when any page of
    /// the range is not currently mapped; on success the whole range is
    /// unmapped and nothing else changes.
    pub fn munmap(&mut self, start: usize, len: usize) -> (r: isize)
        requires
            old(self).wf(),
        ensures
            final(self).wf(),
            r == -1 || r == 0,
            (r == -1) == munmap_rejected(*old(self), start as int, len as int),
            r == -1 ==> *final(self) == *old(self),
            r == 0 ==> munmap_applied(*old(self), *final(self), start as int, len as int),
    {
        if start % PAGE_SIZE != 0 {
            return -1;
        }
        let sv = start / PAGE_SIZE;
        let n = len / PAGE_SIZE + if len % PAGE_SIZE != 0 {
            1
        } else {
            0
        };
        proof {
            assert(sv == first_vpn(start as int));
            assert(n == page_count(len as int));
            assert(sv + n <= usize::MAX);
        }
        if !self.check_all_mapped(sv, n) {
            return -1;
        }
        self.unmap_range(sv, n);
        proof {
            assert(munmap_applied(*old(self), *self, start as int, len as int));
        }
        0
    }

    /// Whether every byte of `[addr, addr + len)` lies on a mapped,
    /// user-accessible page; an empty range is always acceptable.
    pub fn check_buf(&self, addr: usize, len: usize) -> (b: bool)
        requires
            self.wf(),
        ensures
            b == spec_buf_ok(*self, addr as int, len as int),
    {
        if len == 0 {
            return true;
        }
        if addr > usize::MAX - (len - 1) {
            return false;
        }
        let last = addr + (len - 1);
        let sv = addr / PAGE_SIZE;
        let ev = last / PAGE_SIZE;
        let mut v = sv;
        while v <= ev
            invariant
                self.wf(),
                0 < len,
                addr + len - 1 <= usize::MAX,
                sv == addr as int / (PAGE_SIZE as int),
                ev == (addr + len - 1) / (PAGE_SIZE as int),
                sv <= v <= ev + 1,
                ev < usize::MAX,
                range_user_ok(*self, sv as int, v as int),
            decreases ev + 1 - v,
        {
            if !self.page_user_ok(v) {
                proof {
                    assert(!range_user_ok(*self, sv as int, ev as int + 1));
                }
                return false;
            }
            proof {
                assert forall|w: int|
                    sv <= w < v + 1 implies (#[trigger] self.page_mapped(w)) && self.page_perm(w)
                    & PERM_U != 0 by {
                    if w < v {
                        assert(self.page_mapped(w) && self.page_perm(w) & PERM_U != 0);
                    } else {
                        assert(self.page_mapped(v as int) && self.page_perm(v as int) & PERM_U
                            != 0);
                    }
                }
            }
            v = v + 1;
        }
        true
    }

    /// A value-equivalent, independently owned copy of the region set, as
    /// a fork hands to the child.
    pub fn clone_space(&self) -> (r: Self)
        requires
            self.wf(),
        ensures
            r.wf(),
            spaces_equiv(*self, r),
    {
        let mut pages: Vec<PageEntry> = Vec::new();
        let mut i: usize = 0;
        while i < self.pages.len()
            invariant
                i <= self.pages@.len(),
                pages@ == self.pages@.take(i as int),
            decreases self.pages@.len() - i,
        {
            pages.push(self.pages[i]);
            proof {
                assert(pages@ =~= self.pages@.take(i + 1 as int));
            }
            i = i + 1;
        }
        let r = AddressSpace { pages };
        proof {
            assert(r.pages@ =~= self.pages@);
        }
        r
    }

    /// Whether page `vpn` is mapped and user-accessible.
    fn page_user_ok(&self, vpn: usize) -> (b: bool)
        requires
            self.wf(),
        ensures
            b == (self.page_mapped(vpn as int) && self.page_perm(vpn as int) & PERM_U != 0),
    {
        match self.find(vpn) {
            Some(i) => self.pages[i].perm & PERM_U != 0,
            None => false,
        }
    }
}

/// What a successful `mmap(start, len, prot)` did: the whole range is
/// mapped with the requested bits plus the user-accessible bit, and no
/// other page changed.
pub open spec fn mmap_applied(
    pre: AddressSpace,
    post: AddressSpace,
    start: int,
    len: int,
    prot: usize,
) -> bool {
    &&& forall|v: int|
        first_vpn(start) <= v < first_vpn(start) + page_count(len) ==> (
        #[trigger] post.page_mapped(v)) && post.page_perm(v) == stored_perm(prot)
    &&& post.same_outside(pre, first_vpn(start), page_count(len))
}

/// What a successful `munmap(start, len)` did: the whole range is
/// unmapped, and no other page changed.
pub open spec fn munmap_applied(pre: AddressSpace, post: AddressSpace, start: int, len: int) -> bool {
    &&& post.range_unmapped(first_vpn(start), page_count(len))
    &&& post.same_outside(pre, first_vpn(start), page_count(len))
}

/// When an `mmap(start, len, prot)` request is refused: a misaligned
/// start, an invalid protection, or an already-mapped page in range.
pub open spec fn mmap_rejected(s: AddressSpace, start: int, len: int, prot: usize) -> bool {
    ||| start % (PAGE_SIZE as int) != 0
    ||| !spec_valid_prot(prot)
    ||| (len > 0 && !s.range_unmapped(first_vpn(start), page_count(len)))
}

/// When a `munmap(start, len)` request is refused: a misaligned start or
/// an unmapped page in range.
pub open spec fn munmap_rejected(s: AddressSpace, start: int, len: int) -> bool {
    ||| start % (PAGE_SIZE as int) != 0
    ||| !s.range_mapped(first_vpn(start), page_count(len))
}

/// Two region sets are value-equivalent: the same pages are mapped, with
/// the same permissions.
pub open spec fn spaces_equiv(a: AddressSpace, b: AddressSpace) -> bool {
    forall|v: int|
        (#[trigger] a.page_mapped(v)) == b.page_mapped(v) && (a.page_mapped(v) ==> a.page_perm(v)
            == b.page_perm(v))
}

/// Every page of `[lo, hi)` is mapped and user-accessible.
pub open spec fn range_user_ok(s: AddressSpace, lo: int, hi: int) -> bool {
    forall|v: int|
        lo <= v < hi ==> (#[trigger] s.page_mapped(v)) && s.page_perm(v) & PERM_U != 0
}

/// Every byte of `[addr, addr + len)` lies on a mapped, user-accessible
/// page.
pub open spec fn spec_buf_ok(s: AddressSpace, addr: int, len: int) -> bool {
    len == 0 || (addr + len - 1 <= usize::MAX && range_user_ok(
        s,
        addr / (PAGE_SIZE as int),
        (addr + len - 1) / (PAGE_SIZE as int) + 1,
    ))
}

/// A range that `munmap` just released is mappable again: once every page
/// of `[start, start + len)` is unmapped, an `mmap` of that range with an
/// aligned start and a valid protection is not refused.
pub proof fn lemma_remap_after_munmap(s: AddressSpace, start: int, len: int, prot: usize)
    requires
        start % (PAGE_SIZE as int) == 0,
        spec_valid_prot(prot),
        s.range_unmapped(first_vpn(start), page_count(len)),
    ensures
        !mmap_rejected(s, start, len, prot),
{
}

} // verus!
