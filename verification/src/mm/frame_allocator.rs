//! The pool of free physical frames.

use vstd::prelude::*;
use crate::config::PAGE_SIZE;
use crate::mm::address::frame_in_range;

verus! {

/// A stack of free physical frames: the frame handed out next is the last one
/// of the stack, and a frame given back becomes the last one.
pub struct FrameAllocator {
    free: Vec<usize>,
}

impl View for FrameAllocator {
    type V = Seq<usize>;

    closed spec fn view(&self) -> Seq<usize> {
        self.free@
    }
}

/// The frames `0 .. n`, highest first, so that a stack of them hands out
/// frame 0 first.
pub open spec fn descending_frames(n: nat) -> Seq<usize> {
    Seq::new(n, |i: int| (n - 1 - i) as usize)
}

/// No frame occurs twice and every frame lies in the addressable range.
pub open spec fn free_list_wf(free: Seq<usize>) -> bool {
    &&& free.no_duplicates()
    &&& forall|i: int| 0 <= i < free.len() ==> frame_in_range(#[trigger] free[i])
}

impl FrameAllocator {
    /// The allocator's invariant.
    pub open spec fn wf(&self) -> bool {
        free_list_wf(self@)
    }

    /// A pool of the frames `0 .. nframes`; frame 0 is handed out first.
    pub fn new(nframes: usize) -> (fa: FrameAllocator)
        requires
            nframes * PAGE_SIZE <= usize::MAX,
        ensures
            fa.wf(),
            fa@ == descending_frames(nframes as nat),
    {
        let mut free: Vec<usize> = Vec::new();
        let mut k: usize = nframes;
        while k > 0
            invariant
                k <= nframes,
                nframes * PAGE_SIZE <= usize::MAX,
                free@.len() == nframes - k,
                forall|i: int| 0 <= i < free@.len() ==> free@[i] == nframes - 1 - i,
            decreases k,
        {
            k = k - 1;
            free.push(k);
        }
        proof {
            assert(free@ =~= descending_frames(nframes as nat));
            assert forall|i: int| 0 <= i < free@.len() implies frame_in_range(
                #[trigger] free@[i],
            ) by {
                let f = free@[i];
                assert((f + 1) * PAGE_SIZE <= nframes * PAGE_SIZE) by (nonlinear_arith)
                    requires
                        f + 1 <= nframes,
                        PAGE_SIZE == 4096,
                ;
            }
        }
        FrameAllocator { free }
    }

    /// Number of free frames.
    pub fn available(&self) -> (n: usize)
        ensures
            n == self@.len(),
    {
        self.free.len()
    }

    /// Takes the frame on top of the stack, if there is one.
    pub fn frame_alloc(&mut self) -> (r: Option<usize>)
        requires
            old(self).wf(),
        ensures
            final(self).wf(),
            old(self)@.len() == 0 ==> r is None && final(self)@ == old(self)@,
            old(self)@.len() > 0 ==> r == Some(old(self)@.last())
                && final(self)@ == old(self)@.drop_last(),
    {
        self.free.pop()
    }

    /// Puts the frame `ppn` back on top of the stack.
    pub fn frame_dealloc(&mut self, ppn: usize)
        requires
            old(self).wf(),
            frame_in_range(ppn),
            !old(self)@.contains(ppn),
        ensures
            final(self).wf(),
            final(self)@ == old(self)@.push(ppn),
    {
        self.free.push(ppn);
        proof {
            let s = old(self)@;
            assert forall|i: int, j: int|
                0 <= i < s.push(ppn).len() && 0 <= j < s.push(ppn).len() && i != j implies s.push(
                ppn,
            )[i] != s.push(ppn)[j] by {
                if i < s.len() {
                    assert(s.contains(s[i]));
                }
                if j < s.len() {
                    assert(s.contains(s[j]));
                }
            }
        }
    }
}

} // verus!
