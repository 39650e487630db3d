//! Translation of a range of user addresses into windows of physical memory.

use vstd::prelude::*;
use crate::config::PAGE_SIZE;
use crate::mm::address::{offset_of, page_of};
use crate::mm::memory_set::{pages_wf, MemorySet, PageEntry};

verus! {

/// The direction in which the kernel wants to touch user memory.
#[derive(Clone, Copy, PartialEq, Eq, Structural, Debug)]
pub enum Access {
    Read,
    Write,
}

/// Why a range of user addresses cannot be translated.
#[derive(Clone, Copy, PartialEq, Eq, Structural, Debug)]
pub enum TranslateError {
    /// A page of the range has no mapping.
    UnmappedPage,
    /// A page of the range is mapped but forbids the access.
    PermissionDenied,
}

/// A run of `len` bytes of physical memory that starts at the physical
/// address `start`.
#[derive(Clone, Copy, PartialEq, Eq, Structural, Debug)]
pub struct Window {
    pub start: usize,
    pub len: usize,
}

/// Whether a mapped page permits the access.
pub open spec fn page_allows(e: PageEntry, access: Access) -> bool {
    match access {
        Access::Read => e.perm.read,
        Access::Write => e.perm.write,
    }
}

/// What goes wrong when page `vpn` is accessed, if anything.
pub open spec fn page_fault(pages: Map<usize, PageEntry>, vpn: int, access: Access) -> Option<
    TranslateError,
> {
    if !(0 <= vpn <= usize::MAX) || !pages.contains_key(vpn as usize) {
        Some(TranslateError::UnmappedPage)
    } else if !page_allows(pages[vpn as usize], access) {
        Some(TranslateError::PermissionDenied)
    } else {
        None
    }
}

/// The page of the first byte of a range.
pub open spec fn first_page(ptr: usize) -> int {
    page_of(ptr as int)
}

/// The page of the last byte of the range `[ptr, ptr + len)`.
pub open spec fn last_page(ptr: usize, len: usize) -> int {
    page_of(ptr + len - 1)
}

/// Every page of the range `[ptr, ptr + len)` is mapped and permits the
/// access.
pub open spec fn range_accessible(
    pages: Map<usize, PageEntry>,
    ptr: usize,
    len: usize,
    access: Access,
) -> bool {
    forall|v: int|
        first_page(ptr) <= v <= last_page(ptr, len) ==> #[trigger] page_fault(pages, v, access)
            is None
}

/// Page `v` is the lowest page of the range `[ptr, ptr + len)` that cannot be
/// accessed, and `e` is what is wrong with it.
pub open spec fn faults_at(
    pages: Map<usize, PageEntry>,
    ptr: usize,
    len: usize,
    access: Access,
    v: int,
    e: TranslateError,
) -> bool {
    &&& first_page(ptr) <= v <= last_page(ptr, len)
    &&& page_fault(pages, v, access) == Some(e)
    &&& forall|u: int| first_page(ptr) <= u < v ==> #[trigger] page_fault(pages, u, access) is None
}

/// The first virtual address of the range `[ptr, ptr + len)` on page `v`.
pub open spec fn page_lo(ptr: usize, v: int) -> int {
    if ptr >= v * PAGE_SIZE {
        ptr as int
    } else {
        v * PAGE_SIZE
    }
}

/// One past the last virtual address of the range `[ptr, ptr + len)` on
/// page `v`.
pub open spec fn page_hi(ptr: usize, len: usize, v: int) -> int {
    if ptr + len <= (v + 1) * PAGE_SIZE {
        ptr + len
    } else {
        (v + 1) * PAGE_SIZE
    }
}

/// The physical window of the part of the range `[ptr, ptr + len)` that lies
/// on its `i`-th page.
pub open spec fn window_of(pages: Map<usize, PageEntry>, ptr: usize, len: usize, i: int) -> Window {
    let v = first_page(ptr) + i;
    let lo = page_lo(ptr, v);
    let hi = page_hi(ptr, len, v);
    Window {
        start: (pages[v as usize].ppn * PAGE_SIZE + (lo - v * PAGE_SIZE)) as usize,
        len: (hi - lo) as usize,
    }
}

/// The windows of the range `[ptr, ptr + len)`: one for each page that the
/// range touches, in address order.
pub open spec fn windows_of(pages: Map<usize, PageEntry>, ptr: usize, len: usize) -> Seq<Window> {
    Seq::new(
        (last_page(ptr, len) - first_page(ptr) + 1) as nat,
        |i: int| window_of(pages, ptr, len, i),
    )
}

/// The physical addresses of the bytes of a list of windows, in order.
pub open spec fn window_addrs(ws: Seq<Window>) -> Seq<int>
    decreases ws.len(),
{
    if ws.len() == 0 {
        Seq::empty()
    } else {
        window_addrs(ws.drop_last()) + Seq::new(
            ws.last().len as nat,
            |k: int| ws.last().start + k,
        )
    }
}

/// The physical address behind the virtual address `va`.
pub open spec fn phys_addr(pages: Map<usize, PageEntry>, va: int) -> int {
    pages[page_of(va) as usize].ppn * PAGE_SIZE + offset_of(va)
}

/// Translates the user range `[ptr, ptr + len)` of the address space `space`
/// into physical windows, one per page touched, in address order. Fails with
/// the fault of the lowest page that is unmapped or forbids `access`.
pub fn translated_byte_buffer(space: &MemorySet, ptr: usize, len: usize, access: Access) -> (r:
    Result<Vec<Window>, TranslateError>)
    requires
        space.wf(),
        len > 0,
    ensures
        r is Ok <==> range_accessible(space@, ptr, len, access),
        r matches Ok(ws) ==> ws@ == windows_of(space@, ptr, len),
        r matches Err(e) ==> exists|v: int| faults_at(space@, ptr, len, access, v, e),
{
    let first: usize = ptr / PAGE_SIZE;
    let wraps: bool = len - 1 > usize::MAX - ptr;
    let last: usize = if wraps {
        usize::MAX / PAGE_SIZE
    } else {
        (ptr + (len - 1)) / PAGE_SIZE
    };
    let mut ws: Vec<Window> = Vec::new();
    let mut v: usize = first;
    while v <= last
        invariant
            space.wf(),
            len > 0,
            first == first_page(ptr),
            wraps == (ptr + len - 1 > usize::MAX),
            !wraps ==> last == last_page(ptr, len),
            wraps ==> last == usize::MAX / PAGE_SIZE && last < last_page(ptr, len),
            first <= v <= last + 1,
            last <= usize::MAX / PAGE_SIZE,
            forall|u: int| first <= u < v ==> #[trigger] page_fault(space@, u, access) is None,
            ws@.len() == v - first,
            !wraps ==> forall|i: int|
                0 <= i < ws@.len() ==> #[trigger] ws@[i] == window_of(space@, ptr, len, i),
        decreases last + 1 - v,
    {
        let entry = match space.translate(v) {
            Some(e) => e,
            None => {
                assert(faults_at(space@, ptr, len, access, v as int, TranslateError::UnmappedPage));
                return Err(TranslateError::UnmappedPage);
            },
        };
        let allowed = match access {
            Access::Read => entry.perm.read,
            Access::Write => entry.perm.write,
        };
        if !allowed {
            assert(faults_at(space@, ptr, len, access, v as int, TranslateError::PermissionDenied));
            return Err(TranslateError::PermissionDenied);
        }
        assert(page_fault(space@, v as int, access) is None);
        let off: usize = if v == first {
            ptr % PAGE_SIZE
        } else {
            0
        };
        let end_off: usize = if !wraps && v == last {
            (ptr + (len - 1)) % PAGE_SIZE + 1
        } else {
            PAGE_SIZE
        };
        proof {
            let ppn = entry.ppn;
            assert(ppn * PAGE_SIZE + PAGE_SIZE <= usize::MAX) by (nonlinear_arith)
                requires
                    (ppn + 1) * PAGE_SIZE <= usize::MAX,
            ;
            if !wraps {
                lemma_page_bounds(ptr, len, v as int);
            }
        }
        ws.push(Window { start: entry.ppn * PAGE_SIZE + off, len: end_off - off });
        v = v + 1;
    }
    if wraps {
        proof {
            let top: int = last + 1;
            assert(top * PAGE_SIZE > usize::MAX);
            assert(top <= last_page(ptr, len));
            if 0 <= top <= usize::MAX && space@.contains_key(top as usize) {
                assert(crate::mm::address::page_in_range(top as usize));
            }
            assert(faults_at(space@, ptr, len, access, top, TranslateError::UnmappedPage));
        }
        return Err(TranslateError::UnmappedPage);
    }
    proof {
        assert(ws@ =~= windows_of(space@, ptr, len));
    }
    Ok(ws)
}

/// On a page `v` of the range `[ptr, ptr + len)` the range starts at the
/// offset of `ptr` if `v` is the first page and at offset 0 otherwise, and
/// ends behind the offset of the last byte if `v` is the last page and at the
/// page's end otherwise.
pub proof fn lemma_page_bounds(ptr: usize, len: usize, v: int)
    requires
        len > 0,
        first_page(ptr) <= v <= last_page(ptr, len),
    ensures
        page_lo(ptr, v) - v * PAGE_SIZE == (if v == first_page(ptr) {
            offset_of(ptr as int)
        } else {
            0
        }),
        page_hi(ptr, len, v) - v * PAGE_SIZE == (if v == last_page(ptr, len) {
            offset_of(ptr + len - 1) + 1
        } else {
            PAGE_SIZE as int
        }),
        page_lo(ptr, v) < page_hi(ptr, len, v),
        v * PAGE_SIZE <= page_lo(ptr, v),
        page_hi(ptr, len, v) <= (v + 1) * PAGE_SIZE,
        ptr <= page_lo(ptr, v),
        page_hi(ptr, len, v) <= ptr + len,
{
    let p = ptr as int;
    let e = ptr + len - 1;
    let f = p / 4096;
    let l = e / 4096;
    assert(p == f * 4096 + p % 4096);
    assert(e == l * 4096 + e % 4096);
    if v > f {
        assert(v * 4096 >= f * 4096 + 4096) by (nonlinear_arith)
            requires
                v >= f + 1,
        ;
    }
    if v < l {
        assert((v + 1) * 4096 <= l * 4096) by (nonlinear_arith)
            requires
                v + 1 <= l,
        ;
    }
    assert((v + 1) * 4096 == v * 4096 + 4096) by (nonlinear_arith);
}

/// Number of bytes of the range `[ptr, ptr + len)` that lie on its first `j`
/// pages.
pub open spec fn bytes_on_pages(ptr: usize, len: usize, j: int) -> int {
    if j <= 0 {
        0
    } else {
        page_hi(ptr, len, first_page(ptr) + j - 1) - ptr
    }
}

/// The windows of the first `j` pages of an accessible range hold, in order,
/// the physical addresses of the first bytes of the range.
pub proof fn lemma_windows_prefix(
    pages: Map<usize, PageEntry>,
    ptr: usize,
    len: usize,
    access: Access,
    j: int,
)
    requires
        pages_wf(pages),
        len > 0,
        range_accessible(pages, ptr, len, access),
        0 <= j <= last_page(ptr, len) - first_page(ptr) + 1,
    ensures
        0 <= bytes_on_pages(ptr, len, j) <= len,
        window_addrs(windows_of(pages, ptr, len).take(j)) == Seq::new(
            bytes_on_pages(ptr, len, j) as nat,
            |k: int| phys_addr(pages, ptr + k),
        ),
    decreases j,
{
    let ws = windows_of(pages, ptr, len);
    let f = first_page(ptr);
    if j == 0 {
        assert(window_addrs(ws.take(0)) =~= Seq::<int>::empty());
        assert(Seq::new(0nat, |k: int| phys_addr(pages, ptr + k)) =~= Seq::<int>::empty());
    } else {
        lemma_windows_prefix(pages, ptr, len, access, j - 1);
        let v = f + j - 1;
        lemma_page_bounds(ptr, len, v);
        if j > 1 {
            lemma_page_bounds(ptr, len, v - 1);
            assert((v - 1 + 1) * PAGE_SIZE == v * PAGE_SIZE);
        }
        let done = bytes_on_pages(ptr, len, j - 1);
        let more = bytes_on_pages(ptr, len, j);
        let lo = page_lo(ptr, v);
        let hi = page_hi(ptr, len, v);
        assert(done == lo - ptr);
        assert(more == hi - ptr);
        let w = ws[j - 1];
        assert(w == window_of(pages, ptr, len, j - 1));
        assert(page_fault(pages, v, access) is None);
        let ppn = pages[v as usize].ppn;
        assert(ppn * PAGE_SIZE + PAGE_SIZE <= usize::MAX) by (nonlinear_arith)
            requires
                (ppn + 1) * PAGE_SIZE <= usize::MAX,
        ;
        assert(w.len == hi - lo);
        assert(w.start == ppn * PAGE_SIZE + (lo - v * PAGE_SIZE));
        assert(ws.take(j).drop_last() =~= ws.take(j - 1));
        assert(ws.take(j).last() == w);
        let tail = Seq::new(w.len as nat, |k: int| w.start + k);
        assert(window_addrs(ws.take(j)) == window_addrs(ws.take(j - 1)) + tail);
        let want = Seq::new(more as nat, |k: int| phys_addr(pages, ptr + k));
        assert forall|k: int| 0 <= k < more implies (window_addrs(ws.take(j - 1)) + tail)[k]
            == want[k] by {
            if k >= done {
                let va = ptr + k;
                assert(lo <= va < hi);
                assert(v * 4096 <= va < v * 4096 + 4096);
                assert(va / 4096 == v && va % 4096 == va - v * 4096) by (nonlinear_arith)
                    requires
                        v * 4096 <= va < v * 4096 + 4096,
                ;
                assert(tail[k - done] == w.start + (k - done));
            }
        }
        assert(window_addrs(ws.take(j)) =~= want);
    }
}

/// The windows of an accessible range, laid end to end, are the range: byte
/// `k` of the windows is the physical byte behind the virtual address
/// `ptr + k`.
pub proof fn lemma_windows_cover_range(
    pages: Map<usize, PageEntry>,
    ptr: usize,
    len: usize,
    access: Access,
)
    requires
        pages_wf(pages),
        len > 0,
        range_accessible(pages, ptr, len, access),
    ensures
        window_addrs(windows_of(pages, ptr, len)) == Seq::new(
            len as nat,
            |k: int| phys_addr(pages, ptr + k),
        ),
{
    let ws = windows_of(pages, ptr, len);
    let n = last_page(ptr, len) - first_page(ptr) + 1;
    assert(first_page(ptr) <= last_page(ptr, len));
    lemma_windows_prefix(pages, ptr, len, access, n);
    lemma_page_bounds(ptr, len, last_page(ptr, len));
    assert(ws.take(n) =~= ws);
    assert(bytes_on_pages(ptr, len, n) == len);
}

/// Two different bytes of an accessible range lie at different physical
/// addresses.
pub proof fn lemma_phys_addr_injective(
    pages: Map<usize, PageEntry>,
    ptr: usize,
    len: usize,
    access: Access,
    a: int,
    b: int,
)
    requires
        pages_wf(pages),
        len > 0,
        range_accessible(pages, ptr, len, access),
        0 <= a < len,
        0 <= b < len,
        a != b,
    ensures
        phys_addr(pages, ptr + a) != phys_addr(pages, ptr + b),
{
    let va = ptr + a;
    let vb = ptr + b;
    let pa = va / 4096;
    let pb = vb / 4096;
    assert(first_page(ptr) <= pa <= last_page(ptr, len));
    assert(first_page(ptr) <= pb <= last_page(ptr, len));
    assert(page_fault(pages, pa, access) is None);
    assert(page_fault(pages, pb, access) is None);
    let fa = pages[pa as usize].ppn as int;
    let fb = pages[pb as usize].ppn as int;
    if pa != pb {
        assert(fa != fb);
        assert(fa * 4096 + va % 4096 != fb * 4096 + vb % 4096) by (nonlinear_arith)
            requires
                fa != fb,
                0 <= va % 4096 < 4096,
                0 <= vb % 4096 < 4096,
        ;
    }
}

} // verus!
