//! A task's address space: which virtual pages are mapped, to which physical
//! frames, and with which permissions.

use vstd::prelude::*;
use std::collections::BTreeMap;
use crate::config::PAGE_SIZE;
use crate::mm::address::{frame_in_range, page_in_range};
use crate::mm::frame_allocator::FrameAllocator;

verus! {

broadcast use vstd::std_specs::btree::group_btree_axioms;

/// What a user program may do with a mapped page.
#[derive(Clone, Copy, PartialEq, Eq, Structural, Debug)]
pub struct MapPermission {
    pub read: bool,
    pub write: bool,
    pub execute: bool,
}

/// One mapped page: its frame and its permissions.
#[derive(Clone, Copy, PartialEq, Eq, Structural, Debug)]
pub struct PageEntry {
    pub ppn: usize,
    pub perm: MapPermission,
}

/// A permission request is valid when only its three low bits are used and at
/// least one of them is set.
pub open spec fn port_valid(port: usize) -> bool {
    1 <= port <= 7
}

/// The permissions that a request encodes: bit 0 reads, bit 1 writes, bit 2
/// executes.
pub open spec fn perm_of_port(port: usize) -> MapPermission {
    MapPermission {
        read: port % 2 == 1,
        write: (port / 2) % 2 == 1,
        execute: (port / 4) % 2 == 1,
    }
}

/// Number of pages needed to hold `len` bytes.
pub open spec fn page_count(len: usize) -> int {
    (len + PAGE_SIZE - 1) / (PAGE_SIZE as int)
}

/// Whether page `vpn` starts inside the byte range `[start, start + len)`.
/// For a page-aligned `start` these are the pages that the range touches.
pub open spec fn in_region(vpn: usize, start: usize, len: usize) -> bool {
    start <= vpn * PAGE_SIZE < start + len
}

/// Every mapped page and its frame are addressable, and no frame backs two
/// pages.
pub open spec fn pages_wf(pages: Map<usize, PageEntry>) -> bool {
    &&& pages.dom().finite()
    &&& forall|v: usize| #[trigger]
        pages.contains_key(v) ==> page_in_range(v) && frame_in_range(pages[v].ppn)
    &&& forall|v: usize, w: usize|
        #![trigger pages[v], pages[w]]
        pages.contains_key(v) && pages.contains_key(w) && v != w ==> pages[v].ppn != pages[w].ppn
}

/// No frame that backs a page is on the free list.
pub open spec fn frames_unused(pages: Map<usize, PageEntry>, free: Seq<usize>) -> bool {
    forall|v: usize| #[trigger] pages.contains_key(v) ==> !free.contains(pages[v].ppn)
}

/// When a request to map `[start, start + len)` is granted: `start` is
/// page-aligned, the permissions are valid, the range ends inside the address
/// space, none of its pages is mapped yet, and enough frames are free.
pub open spec fn mmap_accepts(
    pages: Map<usize, PageEntry>,
    free: Seq<usize>,
    start: usize,
    len: usize,
    port: usize,
) -> bool {
    &&& start % PAGE_SIZE == 0
    &&& port_valid(port)
    &&& start + len <= usize::MAX
    &&& forall|v: usize| in_region(v, start, len) ==> !#[trigger] pages.contains_key(v)
    &&& page_count(len) <= free.len()
}

/// The mapping after a granted request: the pages of the range are added, in
/// address order each with the frame then on top of the free stack.
pub open spec fn mmap_pages(
    pages: Map<usize, PageEntry>,
    free: Seq<usize>,
    start: usize,
    len: usize,
    port: usize,
) -> Map<usize, PageEntry> {
    Map::new(
        |v: usize| pages.contains_key(v) || in_region(v, start, len),
        |v: usize|
            if in_region(v, start, len) {
                PageEntry {
                    ppn: free[free.len() - 1 - (v - start / PAGE_SIZE)],
                    perm: perm_of_port(port),
                }
            } else {
                pages[v]
            },
    )
}

/// The free stack after a granted request to map `len` bytes.
pub open spec fn mmap_free(free: Seq<usize>, len: usize) -> Seq<usize> {
    free.take(free.len() - page_count(len))
}

/// When a request to unmap `[start, start + len)` is granted: `start` is
/// page-aligned, the range ends inside the address space, and every page of
/// it is mapped.
pub open spec fn munmap_accepts(pages: Map<usize, PageEntry>, start: usize, len: usize) -> bool {
    &&& start % PAGE_SIZE == 0
    &&& start + len <= usize::MAX
    &&& forall|v: usize| in_region(v, start, len) ==> #[trigger] pages.contains_key(v)
}

/// The mapping after a granted request to unmap: the pages of the range are
/// gone, the others are as before.
pub open spec fn munmap_pages(pages: Map<usize, PageEntry>, start: usize, len: usize) -> Map<
    usize,
    PageEntry,
> {
    Map::new(|v: usize| pages.contains_key(v) && !in_region(v, start, len), |v: usize| pages[v])
}

/// The free stack after a granted request to unmap: the frames of the range
/// are pushed in address order of their pages.
pub open spec fn munmap_free(
    pages: Map<usize, PageEntry>,
    free: Seq<usize>,
    start: usize,
    len: usize,
) -> Seq<usize> {
    free + Seq::new(
        page_count(len) as nat,
        |i: int| pages[(start / PAGE_SIZE + i) as usize].ppn,
    )
}

/// For an aligned range that ends inside the address space, the pages of the
/// range are the `page_count(len)` pages from `start / PAGE_SIZE` on.
pub proof fn lemma_region_pages(v: usize, start: usize, len: usize)
    requires
        start % PAGE_SIZE == 0,
        start + len <= usize::MAX,
    ensures
        in_region(v, start, len) <==> start / PAGE_SIZE <= v < start / PAGE_SIZE + page_count(len),
        (start / PAGE_SIZE + page_count(len)) * PAGE_SIZE <= usize::MAX + PAGE_SIZE,
{
    let first = start as int / 4096;
    let n = (len as int + 4095) / 4096;
    assert(start == first * 4096);
    assert(n * 4096 >= len && n * 4096 < len + 4096);
    assert((first + n) * 4096 == first * 4096 + n * 4096) by (nonlinear_arith);
    if first <= v < first + n {
        assert(v * 4096 >= first * 4096) by (nonlinear_arith)
            requires
                first <= v,
        ;
        assert(v * 4096 <= (first + n - 1) * 4096) by (nonlinear_arith)
            requires
                v <= first + n - 1,
        ;
        assert((first + n - 1) * 4096 == first * 4096 + n * 4096 - 4096) by (nonlinear_arith);
    }
    if in_region(v, start, len) {
        assert(v >= first) by (nonlinear_arith)
            requires
                v * 4096 >= first * 4096,
        ;
        assert(v < first + n) by (nonlinear_arith)
            requires
                v * 4096 < first * 4096 + n * 4096,
        ;
    }
}

impl MapPermission {
    /// Decodes a permission request.
    pub fn from_port(port: usize) -> (p: MapPermission)
        ensures
            p == perm_of_port(port),
    {
        MapPermission {
            read: port % 2 == 1,
            write: (port / 2) % 2 == 1,
            execute: (port / 4) % 2 == 1,
        }
    }
}

/// The address space of one task.
pub struct MemorySet {
    token: usize,
    pages: BTreeMap<usize, PageEntry>,
}

impl View for MemorySet {
    type V = Map<usize, PageEntry>;

    closed spec fn view(&self) -> Map<usize, PageEntry> {
        self.pages@
    }
}

impl MemorySet {
    /// The handle under which the hardware knows this address space.
    pub closed spec fn token_value(&self) -> usize {
        self.token
    }

    /// The address space's invariant.
    pub open spec fn wf(&self) -> bool {
        pages_wf(self@)
    }

    /// An address space with the handle `token` and no page mapped.
    pub fn new(token: usize) -> (ms: MemorySet)
        ensures
            ms.wf(),
            ms@ == Map::<usize, PageEntry>::empty(),
            ms.token_value() == token,
    {
        MemorySet { token, pages: BTreeMap::new() }
    }

    /// The handle under which the hardware knows this address space.
    pub fn token(&self) -> (t: usize)
        ensures
            t == self.token_value(),
    {
        self.token
    }

    /// Looks up the page `vpn`.
    pub fn translate(&self, vpn: usize) -> (r: Option<PageEntry>)
        ensures
            r == (if self@.contains_key(vpn) {
                Some(self@[vpn])
            } else {
                None
            }),
    {
        match self.pages.get(&vpn) {
            Some(e) => Some(*e),
            None => None,
        }
    }

    /// Number of mapped pages.
    pub fn mapped_pages(&self) -> (n: usize)
        ensures
            n == self@.len(),
    {
        self.pages.len()
    }

    /// Maps the bytes `[start, start + len)`, rounded up to whole pages, with
    /// the permissions that `port` encodes, on frames taken from `frames`.
    /// Returns 0 when the request is granted and -1, with nothing changed,
    /// when it is not.
    pub fn mmap(
        &mut self,
        frames: &mut FrameAllocator,
        start: usize,
        len: usize,
        port: usize,
    ) -> (r: isize)
        requires
            old(self).wf(),
            old(frames).wf(),
            frames_unused(old(self)@, old(frames)@),
        ensures
            final(self).wf(),
            final(frames).wf(),
            frames_unused(final(self)@, final(frames)@),
            final(self).token_value() == old(self).token_value(),
            r == 0 || r == -1,
            r == 0 <==> mmap_accepts(old(self)@, old(frames)@, start, len, port),
            r == 0 ==> final(self)@ == mmap_pages(old(self)@, old(frames)@, start, len, port)
                && final(frames)@ == mmap_free(old(frames)@, len),
            r == -1 ==> final(self)@ == old(self)@ && final(frames)@ == old(frames)@,
    {
        if start % PAGE_SIZE != 0 || port < 1 || port > 7 {
            return -1;
        }
        if len > usize::MAX - start {
            return -1;
        }
        let first: usize = start / PAGE_SIZE;
        let n: usize = if len % PAGE_SIZE == 0 {
            len / PAGE_SIZE
        } else {
            len / PAGE_SIZE + 1
        };
        assert(n == page_count(len));
        if n > frames.available() {
            return -1;
        }
        proof {
            lemma_region_pages(0, start, len);
        }
        let mut i: usize = 0;
        while i < n
            invariant
                i <= n,
                first + n <= usize::MAX,
                first == start / PAGE_SIZE,
                start % PAGE_SIZE == 0,
                start + len <= usize::MAX,
                n == page_count(len),
                *self == *old(self),
                *frames == *old(frames),
                old(self).wf(),
                old(frames).wf(),
                frames_unused(old(self)@, old(frames)@),
                forall|v: usize| first <= v < first + i ==> !#[trigger] self@.contains_key(v),
            decreases n - i,
        {
            if self.pages.contains_key(&(first + i)) {
                proof {
                    let v: usize = (first + i) as usize;
                    lemma_region_pages(v, start, len);
                }
                return -1;
            }
            i = i + 1;
        }
        proof {
            assert forall|v: usize| in_region(v, start, len) implies !#[trigger] self@.contains_key(
                v,
            ) by {
                lemma_region_pages(v, start, len);
            }
        }
        let perm = MapPermission::from_port(port);
        let ghost free0 = frames@;
        let ghost pages0 = self@;
        let mut i: usize = 0;
        while i < n
            invariant
                i <= n,
                n <= free0.len(),
                first + n <= usize::MAX,
                first == start / PAGE_SIZE,
                start % PAGE_SIZE == 0,
                start + len <= usize::MAX,
                n == page_count(len),
                perm == perm_of_port(port),
                free0 == old(frames)@,
                pages0 == old(self)@,
                pages_wf(pages0),
                frames_unused(pages0, free0),
                crate::mm::frame_allocator::free_list_wf(free0),
                forall|v: usize| in_region(v, start, len) ==> !#[trigger] pages0.contains_key(v),
                frames.wf(),
                frames@ == free0.take(free0.len() - i),
                self.token_value() == old(self).token_value(),
                self@.dom().finite(),
                forall|v: usize| #[trigger]
                    self@.contains_key(v) <==> pages0.contains_key(v) || first <= v < first + i,
                forall|v: usize| #[trigger]
                    pages0.contains_key(v) ==> self@[v] == pages0[v],
                forall|v: usize|
                    first <= v < first + i ==> #[trigger] self@[v] == (PageEntry {
                        ppn: free0[free0.len() - 1 - (v - first)],
                        perm,
                    }),
            decreases n - i,
        {
            let got = frames.frame_alloc();
            let ppn: usize = got.unwrap();
            let vpn: usize = first + i;
            assert(ppn == free0[free0.len() - 1 - i]);
            proof {
                lemma_region_pages(vpn, start, len);
                assert(frames@ =~= free0.take(free0.len() - (i + 1)));
            }
            self.pages.insert(vpn, PageEntry { ppn, perm });
            i = i + 1;
        }
        proof {
            let target = mmap_pages(pages0, free0, start, len, port);
            assert forall|v: usize| target.contains_key(v) <==> self@.contains_key(v) by {
                lemma_region_pages(v, start, len);
            }
            assert forall|v: usize| self@.contains_key(v) implies self@[v] == target[v] by {
                lemma_region_pages(v, start, len);
            }
            assert(self@ =~= target);
            lemma_mmap_keeps_wf(pages0, free0, start, len, port);
        }
        0
    }

    /// Unmaps the bytes `[start, start + len)`, rounded up to whole pages, and
    /// gives their frames back to `frames`. Returns 0 when the request is
    /// granted and -1, with nothing changed, when it is not.
    pub fn munmap(&mut self, frames: &mut FrameAllocator, start: usize, len: usize) -> (r: isize)
        requires
            old(self).wf(),
            old(frames).wf(),
            frames_unused(old(self)@, old(frames)@),
        ensures
            final(self).wf(),
            final(frames).wf(),
            frames_unused(final(self)@, final(frames)@),
            final(self).token_value() == old(self).token_value(),
            r == 0 || r == -1,
            r == 0 <==> munmap_accepts(old(self)@, start, len),
            r == 0 ==> final(self)@ == munmap_pages(old(self)@, start, len) && final(frames)@
                == munmap_free(old(self)@, old(frames)@, start, len),
            r == -1 ==> final(self)@ == old(self)@ && final(frames)@ == old(frames)@,
    {
        if start % PAGE_SIZE != 0 {
            return -1;
        }
        if len > usize::MAX - start {
            return -1;
        }
        let first: usize = start / PAGE_SIZE;
        let n: usize = if len % PAGE_SIZE == 0 {
            len / PAGE_SIZE
        } else {
            len / PAGE_SIZE + 1
        };
        assert(n == page_count(len));
        proof {
            lemma_region_pages(0, start, len);
        }
        let mut i: usize = 0;
        while i < n
            invariant
                i <= n,
                first + n <= usize::MAX,
                first == start / PAGE_SIZE,
                start % PAGE_SIZE == 0,
                start + len <= usize::MAX,
                n == page_count(len),
                *self == *old(self),
                *frames == *old(frames),
                old(self).wf(),
                old(frames).wf(),
                frames_unused(old(self)@, old(frames)@),
                forall|v: usize| first <= v < first + i ==> #[trigger] self@.contains_key(v),
            decreases n - i,
        {
            if !self.pages.contains_key(&(first + i)) {
                proof {
                    let v: usize = (first + i) as usize;
                    lemma_region_pages(v, start, len);
                }
                return -1;
            }
            i = i + 1;
        }
        proof {
            assert forall|v: usize| in_region(v, start, len) implies #[trigger] self@.contains_key(
                v,
            ) by {
                lemma_region_pages(v, start, len);
            }
        }
        let ghost free0 = frames@;
        let ghost pages0 = self@;
        let mut i: usize = 0;
        while i < n
            invariant
                i <= n,
                first + n <= usize::MAX,
                first == start / PAGE_SIZE,
                free0 == old(frames)@,
                pages0 == old(self)@,
                pages_wf(pages0),
                frames_unused(pages0, free0),
                forall|v: usize| first <= v < first + n ==> #[trigger] pages0.contains_key(v),
                frames.wf(),
                frames@ == free0 + Seq::new(i as nat, |j: int| pages0[(first + j) as usize].ppn),
                self.token_value() == old(self).token_value(),
                self@.dom().finite(),
                forall|v: usize| #[trigger]
                    self@.contains_key(v) <==> pages0.contains_key(v) && !(first <= v < first + i),
                forall|v: usize| #[trigger] self@.contains_key(v) ==> self@[v] == pages0[v],
            decreases n - i,
        {
            let vpn: usize = first + i;
            let gone = self.pages.remove(&vpn);
            let e: PageEntry = gone.unwrap();
            assert(e == pages0[vpn]);
            proof {
                let released = Seq::new(i as nat, |j: int| pages0[(first + j) as usize].ppn);
                assert forall|k: int| 0 <= k < frames@.len() implies frames@[k] != e.ppn by {
                    if k < free0.len() {
                        assert(free0.contains(free0[k]));
                    } else {
                        let w: usize = (first + (k - free0.len())) as usize;
                        assert(pages0.contains_key(w));
                        assert(frames@[k] == pages0[w].ppn);
                    }
                }
                assert(!frames@.contains(e.ppn));
            }
            let ghost before = frames@;
            frames.frame_dealloc(e.ppn);
            i = i + 1;
            proof {
                assert(frames@ =~= free0 + Seq::new(
                    i as nat,
                    |j: int| pages0[(first + j) as usize].ppn,
                ));
            }
        }
        proof {
            let target = munmap_pages(pages0, start, len);
            assert forall|v: usize| target.contains_key(v) <==> self@.contains_key(v) by {
                lemma_region_pages(v, start, len);
            }
            assert(self@ =~= target);
            assert(frames@ =~= munmap_free(pages0, free0, start, len));
            lemma_munmap_keeps_wf(pages0, free0, start, len);
        }
        0
    }
}

/// A granted request to map keeps the address space well formed, keeps the
/// free stack well formed, and leaves no mapped frame on the free stack.
pub proof fn lemma_mmap_keeps_wf(
    pages: Map<usize, PageEntry>,
    free: Seq<usize>,
    start: usize,
    len: usize,
    port: usize,
)
    requires
        pages_wf(pages),
        crate::mm::frame_allocator::free_list_wf(free),
        frames_unused(pages, free),
        mmap_accepts(pages, free, start, len, port),
    ensures
        pages_wf(mmap_pages(pages, free, start, len, port)),
        crate::mm::frame_allocator::free_list_wf(mmap_free(free, len)),
        frames_unused(mmap_pages(pages, free, start, len, port), mmap_free(free, len)),
{
    let after = mmap_pages(pages, free, start, len, port);
    let rest = mmap_free(free, len);
    let first = start / PAGE_SIZE;
    let n = page_count(len);
    let top = free.len() - 1;
    assert forall|v: usize| in_region(v, start, len) implies 0 <= top - (v - first) < free.len()
        && top - (v - first) >= free.len() - n by {
        lemma_region_pages(v, start, len);
    }
    assert forall|v: usize| #[trigger] after.contains_key(v) implies page_in_range(v)
        && frame_in_range(after[v].ppn) by {
        if in_region(v, start, len) {
            lemma_region_pages(v, start, len);
        }
    }
    assert forall|v: usize, w: usize|
        #![trigger after[v], after[w]]
        after.contains_key(v) && after.contains_key(w) && v != w implies after[v].ppn
        != after[w].ppn by {
        lemma_region_pages(v, start, len);
        lemma_region_pages(w, start, len);
        if in_region(v, start, len) {
            assert(free.contains(free[top - (v - first)]));
        }
        if in_region(w, start, len) {
            assert(free.contains(free[top - (w - first)]));
        }
    }
    assert forall|v: usize| #[trigger] after.contains_key(v) implies !rest.contains(
        after[v].ppn,
    ) by {
        if rest.contains(after[v].ppn) {
            let k = choose|k: int| 0 <= k < rest.len() && rest[k] == after[v].ppn;
            assert(free[k] == after[v].ppn);
            assert(free.contains(free[k]));
            if in_region(v, start, len) {
                lemma_region_pages(v, start, len);
            }
        }
    }
    assert(after.dom().finite()) by {
        lemma_region_finite(start, len);
        let region = Set::new(|v: usize| in_region(v, start, len));
        assert(after.dom() =~= pages.dom().union(region));
    }
}

/// The pages of an aligned range that ends inside the address space are
/// finitely many.
pub proof fn lemma_region_finite(start: usize, len: usize)
    requires
        start % PAGE_SIZE == 0,
        start + len <= usize::MAX,
    ensures
        Set::new(|v: usize| in_region(v, start, len)).finite(),
{
    let region = Set::new(|v: usize| in_region(v, start, len));
    let first = start as int / 4096;
    let n = page_count(len);
    let ints = vstd::set_lib::set_int_range(first, first + n);
    vstd::set_lib::lemma_int_range(first, first + n);
    let image = ints.map(|k: int| k as usize);
    ints.lemma_map_finite(|k: int| k as usize);
    assert forall|v: usize| region.contains(v) implies image.contains(v) by {
        lemma_region_pages(v, start, len);
        assert(ints.contains(v as int));
    }
    vstd::set_lib::lemma_len_subset(region, image);
}

/// A granted request to unmap keeps the address space well formed, keeps the
/// free stack well formed, and leaves no mapped frame on the free stack.
pub proof fn lemma_munmap_keeps_wf(
    pages: Map<usize, PageEntry>,
    free: Seq<usize>,
    start: usize,
    len: usize,
)
    requires
        pages_wf(pages),
        crate::mm::frame_allocator::free_list_wf(free),
        frames_unused(pages, free),
        munmap_accepts(pages, start, len),
    ensures
        pages_wf(munmap_pages(pages, start, len)),
        crate::mm::frame_allocator::free_list_wf(munmap_free(pages, free, start, len)),
        frames_unused(munmap_pages(pages, start, len), munmap_free(pages, free, start, len)),
{
    let after = munmap_pages(pages, start, len);
    let rest = munmap_free(pages, free, start, len);
    let first = start / PAGE_SIZE;
    let n = page_count(len);
    assert(after.dom().subset_of(pages.dom()));
    vstd::set_lib::lemma_len_subset(after.dom(), pages.dom());
    assert forall|k: int| free.len() <= k < rest.len() implies {
        let w = (first + (k - free.len())) as usize;
        in_region(w, start, len) && pages.contains_key(w) && #[trigger] rest[k] == pages[w].ppn
    } by {
        let w = (first + (k - free.len())) as usize;
        lemma_region_pages(0, start, len);
        lemma_region_pages(w, start, len);
    }
    assert forall|k: int| 0 <= k < free.len() implies #[trigger] rest[k] == free[k]
        && free.contains(free[k]) by {}
    assert forall|i: int, j: int|
        0 <= i < rest.len() && 0 <= j < rest.len() && i != j implies rest[i] != rest[j] by {
        if i >= free.len() && j >= free.len() {
            let w = (first + (i - free.len())) as usize;
            let x = (first + (j - free.len())) as usize;
            lemma_region_pages(0, start, len);
            assert(w != x);
            assert(pages[w].ppn != pages[x].ppn);
        }
    }
    assert forall|i: int| 0 <= i < rest.len() implies frame_in_range(#[trigger] rest[i]) by {
        if i < free.len() {
            assert(frame_in_range(free[i]));
        }
    }
    assert forall|v: usize| #[trigger] after.contains_key(v) implies !rest.contains(
        after[v].ppn,
    ) by {
        if rest.contains(after[v].ppn) {
            let k = choose|k: int| 0 <= k < rest.len() && rest[k] == after[v].ppn;
            if k >= free.len() {
                let w = (first + (k - free.len())) as usize;
                assert(pages[w].ppn == pages[v].ppn);
            }
        }
    }
}

/// Mapping a range and unmapping the same range leaves the address space as
/// it was, with no page of the range mapped and as many free frames as
/// before, so that the range can be mapped again.
pub proof fn lemma_mmap_munmap_round_trip(
    pages: Map<usize, PageEntry>,
    free: Seq<usize>,
    start: usize,
    len: usize,
    port: usize,
)
    requires
        pages_wf(pages),
        crate::mm::frame_allocator::free_list_wf(free),
        frames_unused(pages, free),
        mmap_accepts(pages, free, start, len, port),
    ensures
        munmap_accepts(mmap_pages(pages, free, start, len, port), start, len),
        munmap_pages(mmap_pages(pages, free, start, len, port), start, len) == pages,
        forall|v: usize|
            in_region(v, start, len) ==> !#[trigger] munmap_pages(
                mmap_pages(pages, free, start, len, port),
                start,
                len,
            ).contains_key(v),
        munmap_free(
            mmap_pages(pages, free, start, len, port),
            mmap_free(free, len),
            start,
            len,
        ).len() == free.len(),
        mmap_accepts(
            munmap_pages(mmap_pages(pages, free, start, len, port), start, len),
            munmap_free(
                mmap_pages(pages, free, start, len, port),
                mmap_free(free, len),
                start,
                len,
            ),
            start,
            len,
            port,
        ),
{
    let mapped = mmap_pages(pages, free, start, len, port);
    let back = munmap_pages(mapped, start, len);
    assert(back =~= pages);
}

/// While a range is mapped, a request to map any range that shares a byte
/// with it is refused.
pub proof fn lemma_mmap_overlap_rejected(
    pages: Map<usize, PageEntry>,
    free: Seq<usize>,
    start: usize,
    len: usize,
    port: usize,
    start2: usize,
    len2: usize,
    port2: usize,
    shared: int,
)
    requires
        mmap_accepts(pages, free, start, len, port),
        start <= shared < start + len,
        start2 <= shared < start2 + len2,
    ensures
        !mmap_accepts(
            mmap_pages(pages, free, start, len, port),
            mmap_free(free, len),
            start2,
            len2,
            port2,
        ),
{
    let mapped = mmap_pages(pages, free, start, len, port);
    if start2 % PAGE_SIZE == 0 {
        let v: usize = (shared / 4096) as usize;
        assert(start <= v * 4096 <= shared);
        assert(start2 <= v * 4096 <= shared);
        assert(in_region(v, start, len));
        assert(in_region(v, start2, len2));
        assert(mapped.contains_key(v));
    }
}

/// A request to map or to unmap at an address that is not page-aligned is
/// refused.
pub proof fn lemma_unaligned_rejected(
    pages: Map<usize, PageEntry>,
    free: Seq<usize>,
    start: usize,
    len: usize,
    port: usize,
)
    requires
        start % PAGE_SIZE != 0,
    ensures
        !mmap_accepts(pages, free, start, len, port),
        !munmap_accepts(pages, start, len),
{
}

} // verus!
