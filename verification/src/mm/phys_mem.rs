//! Reading and writing physical memory through a list of windows.
//!
//! Physical memory is a vector of bytes indexed by physical address. A value
//! that a user buffer holds may be spread over several windows; it is written
//! and read window by window, in order.

use vstd::prelude::*;
use crate::mm::memory_set::{pages_wf, PageEntry};
use crate::mm::page_table::{
    lemma_phys_addr_injective,
    lemma_windows_cover_range,
    range_accessible,
    window_addrs,
    windows_of,
    Access,
    Window,
};

verus! {

/// Every window lies inside a memory of `size` bytes.
pub open spec fn windows_fit(ws: Seq<Window>, size: int) -> bool {
    forall|i: int| 0 <= i < ws.len() ==> (#[trigger] ws[i]).start + ws[i].len <= size
}

/// Memory after the bytes `data` were stored at the addresses `addrs`, one
/// after the other.
pub open spec fn scatter(mem: Seq<u8>, addrs: Seq<int>, data: Seq<u8>) -> Seq<u8>
    decreases addrs.len(),
{
    if addrs.len() == 0 {
        mem
    } else {
        scatter(mem, addrs.drop_last(), data.drop_last()).update(addrs.last(), data.last())
    }
}

/// The bytes that memory holds at the addresses `addrs`, in that order.
pub open spec fn gather(mem: Seq<u8>, addrs: Seq<int>) -> Seq<u8> {
    Seq::new(addrs.len(), |k: int| mem[addrs[k]])
}

/// The addresses of windows that fit a memory are addresses of that memory.
pub proof fn lemma_window_addrs_in_bounds(ws: Seq<Window>, size: int)
    requires
        windows_fit(ws, size),
    ensures
        forall|k: int|
            0 <= k < window_addrs(ws).len() ==> 0 <= #[trigger] window_addrs(ws)[k] < size,
    decreases ws.len(),
{
    if ws.len() > 0 {
        assert(windows_fit(ws.drop_last(), size)) by {
            let front = ws.drop_last();
            assert forall|i: int| 0 <= i < front.len() implies (#[trigger] front[i]).start
                + front[i].len <= size by {
                assert(front[i] == ws[i]);
            }
        }
        lemma_window_addrs_in_bounds(ws.drop_last(), size);
        let front = window_addrs(ws.drop_last());
        let w = ws[ws.len() - 1];
        let tail = Seq::new(w.len as nat, |k: int| w.start + k);
        assert(window_addrs(ws) == front + tail);
        assert forall|k: int| 0 <= k < window_addrs(ws).len() implies 0 <= #[trigger] window_addrs(
            ws,
        )[k] < size by {
            if k >= front.len() {
                assert(window_addrs(ws)[k] == tail[k - front.len()]);
            } else {
                assert(window_addrs(ws)[k] == front[k]);
            }
        }
    }
}

/// Storing keeps the size of memory.
pub proof fn lemma_scatter_len(mem: Seq<u8>, addrs: Seq<int>, data: Seq<u8>)
    requires
        addrs.len() == data.len(),
        forall|k: int| 0 <= k < addrs.len() ==> 0 <= #[trigger] addrs[k] < mem.len(),
    ensures
        scatter(mem, addrs, data).len() == mem.len(),
    decreases addrs.len(),
{
    if addrs.len() > 0 {
        lemma_scatter_len(mem, addrs.drop_last(), data.drop_last());
    }
}

/// After bytes were stored at pairwise different addresses, each address
/// holds its byte, and every other address holds what it held before.
pub proof fn lemma_scatter_distinct(mem: Seq<u8>, addrs: Seq<int>, data: Seq<u8>)
    requires
        addrs.len() == data.len(),
        addrs.no_duplicates(),
        forall|k: int| 0 <= k < addrs.len() ==> 0 <= #[trigger] addrs[k] < mem.len(),
    ensures
        scatter(mem, addrs, data).len() == mem.len(),
        forall|k: int|
            0 <= k < addrs.len() ==> scatter(mem, addrs, data)[#[trigger] addrs[k]] == data[k],
        forall|a: int|
            0 <= a < mem.len() && !addrs.contains(a) ==> #[trigger] scatter(mem, addrs, data)[a]
                == mem[a],
    decreases addrs.len(),
{
    if addrs.len() > 0 {
        let front = addrs.drop_last();
        let front_data = data.drop_last();
        lemma_scatter_len(mem, front, front_data);
        lemma_scatter_distinct(mem, front, front_data);
        let before = scatter(mem, front, front_data);
        let after = scatter(mem, addrs, data);
        assert(after == before.update(addrs.last(), data.last()));
        assert forall|k: int| 0 <= k < addrs.len() implies after[#[trigger] addrs[k]]
            == data[k] by {
            if k < addrs.len() - 1 {
                assert(front[k] == addrs[k]);
                assert(addrs[k] != addrs[addrs.len() - 1]);
                assert(before[front[k]] == front_data[k]);
            }
        }
        assert forall|a: int| 0 <= a < mem.len() && !addrs.contains(a) implies #[trigger] after[a]
            == mem[a] by {
            assert(a != addrs[addrs.len() - 1]);
            if front.contains(a) {
                let k = choose|k: int| 0 <= k < front.len() && front[k] == a;
                assert(addrs[k] == a);
            }
        }
    }
}

/// Stores `data` into memory through the windows `ws`, in order. Nothing is
/// stored, and `false` is returned, unless every window lies inside memory
/// and the windows together are as long as `data`.
pub fn write_windows(mem: &mut Vec<u8>, ws: &Vec<Window>, data: &Vec<u8>) -> (ok: bool)
    ensures
        ok == (windows_fit(ws@, old(mem)@.len() as int) && window_addrs(ws@).len()
            == data@.len()),
        ok ==> final(mem)@ == scatter(old(mem)@, window_addrs(ws@), data@),
        !ok ==> final(mem)@ == old(mem)@,
{
    let size: usize = mem.len();
    let mut total: usize = 0;
    let mut fits: bool = true;
    let mut i: usize = 0;
    while i < ws.len()
        invariant
            i <= ws@.len(),
            size == mem@.len(),
            *mem == *old(mem),
            fits == windows_fit(ws@.take(i as int), size as int),
            fits ==> total == window_addrs(ws@.take(i as int)).len(),
            fits ==> total <= data@.len(),
            !fits ==> !(windows_fit(ws@, size as int) && window_addrs(ws@).len() == data@.len()),
        decreases ws@.len() - i,
    {
        let w = ws[i];
        proof {
            assert(ws@.take(i + 1).drop_last() =~= ws@.take(i as int));
            assert(ws@.take(i + 1).last() == w);
            lemma_window_addrs_prefix_len(ws@, i + 1);
            lemma_window_addrs_prefix_len(ws@, i as int);
        }
        if fits {
            if w.start > size || w.len > size - w.start {
                fits = false;
                proof {
                    assert(!windows_fit(ws@.take(i + 1), size as int)) by {
                        assert(ws@.take(i + 1)[i as int] == w);
                    }
                    assert(!windows_fit(ws@, size as int)) by {
                        assert(ws@[i as int] == w);
                    }
                }
            } else if w.len > data.len() - total {
                proof {
                    assert(window_addrs(ws@).len() > data@.len());
                }
                return false;
            } else {
                total = total + w.len;
                proof {
                    assert forall|j: int| 0 <= j < ws@.take(i + 1).len() implies (
                    #[trigger] ws@.take(i + 1)[j]).start + ws@.take(i + 1)[j].len <= size by {
                        if j < i {
                            assert(ws@.take(i as int)[j] == ws@[j]);
                        }
                    }
                }
            }
        } else {
            proof {
                assert(!windows_fit(ws@.take(i + 1), size as int)) by {
                    let j = choose|j: int|
                        0 <= j < ws@.take(i as int).len() && !((#[trigger] ws@.take(
                            i as int,
                        )[j]).start + ws@.take(i as int)[j].len <= size);
                    assert(ws@.take(i + 1)[j] == ws@.take(i as int)[j]);
                }
            }
        }
        i = i + 1;
    }
    proof {
        assert(ws@.take(ws@.len() as int) =~= ws@);
    }
    if !fits || total != data.len() {
        return false;
    }
    let ghost mem0 = mem@;
    let ghost addrs = window_addrs(ws@);
    proof {
        lemma_window_addrs_in_bounds(ws@, size as int);
    }
    let mut pos: usize = 0;
    let mut i: usize = 0;
    while i < ws.len()
        invariant
            i <= ws@.len(),
            size == mem@.len(),
            mem0 == old(mem)@,
            mem0.len() == size,
            addrs == window_addrs(ws@),
            addrs.len() == data@.len(),
            data@.len() <= usize::MAX,
            windows_fit(ws@, size as int),
            forall|k: int| 0 <= k < addrs.len() ==> 0 <= #[trigger] addrs[k] < size,
            pos == window_addrs(ws@.take(i as int)).len(),
            pos <= data@.len(),
            mem@ == scatter(mem0, addrs.take(pos as int), data@.take(pos as int)),
        decreases ws@.len() - i,
    {
        let w = ws[i];
        let ghost base = pos;
        proof {
            assert(ws@.take(i + 1).drop_last() =~= ws@.take(i as int));
            assert(ws@.take(i + 1).last() == w);
            lemma_window_addrs_prefix_len(ws@, i + 1);
            lemma_window_addrs_prefix(ws@, i + 1);
            lemma_window_addrs_prefix(ws@, i as int);
            let front = window_addrs(ws@.take(i as int));
            let tail = Seq::new(w.len as nat, |k: int| w.start + k);
            let both = window_addrs(ws@.take(i + 1));
            assert(both == front + tail);
            assert(both.len() == base + w.len);
            assert forall|q: int| base <= q < base + w.len implies #[trigger] addrs[q] == w.start
                + (q - base) by {
                assert(addrs[q] == both[q]);
                assert(both[q] == tail[q - base]);
            }
        }
        let mut k: usize = 0;
        while k < w.len
            invariant
                k <= w.len,
                i < ws@.len(),
                w == ws@[i as int],
                size == mem@.len(),
                mem0.len() == size,
                addrs == window_addrs(ws@),
                addrs.len() == data@.len(),
                data@.len() <= usize::MAX,
                w.start + w.len <= size,
                base + w.len <= data@.len(),
                pos == base + k,
                forall|k: int| 0 <= k < addrs.len() ==> 0 <= #[trigger] addrs[k] < size,
                forall|q: int|
                    base <= q < base + w.len ==> #[trigger] addrs[q] == w.start + (q - base),
                mem@ == scatter(mem0, addrs.take(pos as int), data@.take(pos as int)),
            decreases w.len - k,
        {
            let byte = data[pos];
            proof {
                lemma_scatter_len(mem0, addrs.take(pos as int), data@.take(pos as int));
                assert(addrs.take(pos + 1).drop_last() =~= addrs.take(pos as int));
                assert(data@.take(pos + 1).drop_last() =~= data@.take(pos as int));
                assert(addrs.take(pos + 1).last() == w.start + k);
                assert(data@.take(pos + 1).last() == byte);
            }
            mem[w.start + k] = byte;
            k = k + 1;
            pos = pos + 1;
        }
        i = i + 1;
    }
    proof {
        assert(ws@.take(ws@.len() as int) =~= ws@);
        assert(addrs.take(pos as int) =~= addrs);
        assert(data@.take(pos as int) =~= data@);
    }
    true
}

/// Loads the bytes that memory holds in the windows `ws`, in order. Returns
/// `None` if a window does not lie inside memory.
pub fn read_windows(mem: &Vec<u8>, ws: &Vec<Window>) -> (r: Option<Vec<u8>>)
    ensures
        r is Some <==> windows_fit(ws@, mem@.len() as int),
        r matches Some(d) ==> d@ == gather(mem@, window_addrs(ws@)),
{
    let size: usize = mem.len();
    let mut out: Vec<u8> = Vec::new();
    let mut i: usize = 0;
    while i < ws.len()
        invariant
            i <= ws@.len(),
            size == mem@.len(),
            windows_fit(ws@.take(i as int), size as int),
            out@ == gather(mem@, window_addrs(ws@.take(i as int))),
        decreases ws@.len() - i,
    {
        let w = ws[i];
        proof {
            assert(ws@.take(i + 1).drop_last() =~= ws@.take(i as int));
            assert(ws@.take(i + 1).last() == w);
        }
        if w.start > size || w.len > size - w.start {
            proof {
                assert(!windows_fit(ws@, size as int)) by {
                    assert(ws@[i as int] == w);
                }
            }
            return None;
        }
        let ghost front = window_addrs(ws@.take(i as int));
        let mut k: usize = 0;
        while k < w.len
            invariant
                k <= w.len,
                size == mem@.len(),
                w.start + w.len <= size,
                front == window_addrs(ws@.take(i as int)),
                out@ == gather(mem@, front + Seq::new(k as nat, |j: int| w.start + j)),
            decreases w.len - k,
        {
            let byte = mem[w.start + k];
            out.push(byte);
            k = k + 1;
            proof {
                let grown = front + Seq::new(k as nat, |j: int| w.start + j);
                assert(out@ =~= gather(mem@, grown));
            }
        }
        proof {
            assert forall|j: int| 0 <= j < ws@.take(i + 1).len() implies (#[trigger] ws@.take(
                i + 1,
            )[j]).start + ws@.take(i + 1)[j].len <= size by {
                if j < i {
                    assert(ws@.take(i as int)[j] == ws@[j]);
                }
            }
        }
        i = i + 1;
    }
    proof {
        assert(ws@.take(ws@.len() as int) =~= ws@);
    }
    Some(out)
}

/// The addresses of the first `j` windows are the first addresses of all the
/// windows.
pub proof fn lemma_window_addrs_prefix(ws: Seq<Window>, j: int)
    requires
        0 <= j <= ws.len(),
    ensures
        window_addrs(ws.take(j)).len() <= window_addrs(ws).len(),
        window_addrs(ws.take(j)) == window_addrs(ws).take(window_addrs(ws.take(j)).len() as int),
    decreases ws.len() - j,
{
    if j == ws.len() {
        assert(ws.take(j) =~= ws);
        assert(window_addrs(ws).take(window_addrs(ws).len() as int) =~= window_addrs(ws));
    } else {
        lemma_window_addrs_prefix(ws, j + 1);
        assert(ws.take(j + 1).drop_last() =~= ws.take(j));
        let longer = window_addrs(ws.take(j + 1));
        let shorter = window_addrs(ws.take(j));
        assert(shorter =~= longer.take(shorter.len() as int));
        assert(shorter =~= window_addrs(ws).take(shorter.len() as int));
    }
}

/// The first `j` windows hold at most as many bytes as all the windows.
pub proof fn lemma_window_addrs_prefix_len(ws: Seq<Window>, j: int)
    requires
        0 <= j <= ws.len(),
    ensures
        window_addrs(ws.take(j)).len() <= window_addrs(ws).len(),
{
    lemma_window_addrs_prefix(ws, j);
}

/// A value stored through the windows of a range whose pages may be written
/// is read back unchanged through the windows of the same range, however
/// many pages the range spans.
pub proof fn lemma_translation_round_trip(
    pages: Map<usize, PageEntry>,
    ptr: usize,
    len: usize,
    mem: Seq<u8>,
    data: Seq<u8>,
)
    requires
        pages_wf(pages),
        len > 0,
        range_accessible(pages, ptr, len, Access::Write),
        range_accessible(pages, ptr, len, Access::Read),
        data.len() == len,
        windows_fit(windows_of(pages, ptr, len), mem.len() as int),
    ensures
        window_addrs(windows_of(pages, ptr, len)).len() == len,
        gather(
            scatter(mem, window_addrs(windows_of(pages, ptr, len)), data),
            window_addrs(windows_of(pages, ptr, len)),
        ) == data,
{
    let ws = windows_of(pages, ptr, len);
    let addrs = window_addrs(ws);
    lemma_windows_cover_range(pages, ptr, len, Access::Write);
    lemma_window_addrs_in_bounds(ws, mem.len() as int);
    assert forall|a: int, b: int|
        0 <= a < addrs.len() && 0 <= b < addrs.len() && a != b implies addrs[a] != addrs[b] by {
        lemma_phys_addr_injective(pages, ptr, len, Access::Write, a, b);
    }
    lemma_scatter_distinct(mem, addrs, data);
    assert(gather(scatter(mem, addrs, data), addrs) =~= data);
}

} // verus!
