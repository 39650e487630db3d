//! The task control block.

use vstd::prelude::*;
use crate::config::MAX_SYSCALL_NUM;
use crate::mm::memory_set::{MemorySet, PageEntry};
use crate::task::context::TaskContext;
use crate::trap::TrapContext;

verus! {

/// Where a task stands in its life: `UnInit`, then `Ready` and `Running` in
/// turn, at last `Exited`.
#[derive(Clone, Copy, PartialEq, Eq, Structural, Debug)]
pub enum TaskStatus {
    UnInit,
    Ready,
    Running,
    Exited,
}

/// All that the kernel keeps about one task.
pub struct TaskControlBlock {
    /// Index of the task in the task table.
    pub id: usize,
    /// Where the task stands in its life.
    pub task_status: TaskStatus,
    /// Execution state saved at the last switch away from the task.
    pub task_cx: TaskContext,
    /// The task's address space.
    pub memory_set: MemorySet,
    /// User-mode registers saved at the last trap.
    pub trap_cx: TrapContext,
    /// How often the task has made each syscall.
    pub syscall_times: [u32; MAX_SYSCALL_NUM],
    /// Time in milliseconds at which the task first ran.
    pub first_time: usize,
    /// Whether `first_time` has been recorded.
    pub dispatched: bool,
}

impl TaskControlBlock {
    /// The block's invariant: its address space is well formed, and a task
    /// that runs or has exited has its dispatch time recorded.
    pub open spec fn wf(&self) -> bool {
        &&& self.memory_set.wf()
        &&& (self.task_status == TaskStatus::Running || self.task_status == TaskStatus::Exited)
            ==> self.dispatched
    }

    /// The block of a task that is ready to run for the first time, with an
    /// empty address space under the handle `token`.
    pub fn new(id: usize, token: usize, task_cx: TaskContext, trap_cx: TrapContext) -> (tcb:
        TaskControlBlock)
        ensures
            tcb.wf(),
            tcb.id == id,
            tcb.task_status == TaskStatus::Ready,
            tcb.task_cx == task_cx,
            tcb.trap_cx == trap_cx,
            tcb.memory_set@ == Map::<usize, PageEntry>::empty(),
            tcb.memory_set.token_value() == token,
            forall|i: int| 0 <= i < MAX_SYSCALL_NUM ==> tcb.syscall_times[i] == 0,
            tcb.first_time == 0,
            !tcb.dispatched,
    {
        TaskControlBlock {
            id,
            task_status: TaskStatus::Ready,
            task_cx,
            memory_set: MemorySet::new(token),
            trap_cx,
            syscall_times: [0u32; MAX_SYSCALL_NUM],
            first_time: 0,
            dispatched: false,
        }
    }

    /// The handle of the task's address space.
    pub fn get_user_token(&self) -> (t: usize)
        ensures
            t == self.memory_set.token_value(),
    {
        self.memory_set.token()
    }

    /// The user-mode registers saved at the last trap.
    pub fn get_trap_cx(&self) -> (cx: &TrapContext)
        ensures
            *cx == self.trap_cx,
    {
        &self.trap_cx
    }
}

} // verus!
