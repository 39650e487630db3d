//! The saved execution state of a suspended task.

use vstd::prelude::*;

verus! {

/// What a context switch saves and restores: the return address, the stack
/// pointer and the callee-saved registers.
#[derive(Clone, Copy, Debug)]
pub struct TaskContext {
    /// Address at which the task continues after the switch.
    pub ra: usize,
    /// Stack pointer.
    pub sp: usize,
    /// Callee-saved registers.
    pub s: [usize; 12],
}

impl TaskContext {
    /// A context with every register zero.
    pub fn zero_init() -> (cx: TaskContext)
        ensures
            cx.ra == 0,
            cx.sp == 0,
            forall|i: int| 0 <= i < 12 ==> cx.s[i] == 0,
    {
        TaskContext { ra: 0, sp: 0, s: [0; 12] }
    }

    /// A context that continues at `ra` on the kernel stack `kstack_ptr`.
    pub fn goto_trap_return(ra: usize, kstack_ptr: usize) -> (cx: TaskContext)
        ensures
            cx.ra == ra,
            cx.sp == kstack_ptr,
            forall|i: int| 0 <= i < 12 ==> cx.s[i] == 0,
    {
        TaskContext { ra, sp: kstack_ptr, s: [0; 12] }
    }
}

} // verus!
