//! Task management: the operations that the trap layer performs on the task
//! table, each on a manager that the caller owns.

pub mod context;
pub mod manager;
pub mod task;

use vstd::prelude::*;
use crate::config::MAX_SYSCALL_NUM;
use crate::mm::address::VirtAddr;
use crate::syscall::process::TaskInfo;
use crate::task::manager::{
    counted_call,
    dispatch,
    is_ready,
    lemma_next_task,
    mmap_outcome,
    munmap_outcome,
    none_ready,
    switched,
    with_status,
    SchedError,
    Switch,
    TaskManager,
};
use crate::task::task::{TaskControlBlock, TaskStatus};
use crate::trap::TrapContext;

verus! {

/// Gives the CPU to task 0 at time `now`, as the first scheduling step of
/// all.
pub fn run_first_task(tm: &mut TaskManager, now: usize) -> (sw: Switch)
    requires
        old(tm).wf(),
        old(tm).fresh(),
    ensures
        final(tm).wf(),
        sw.from is None,
        sw.to == 0,
        final(tm).current() == 0,
        final(tm).tasks() == old(tm).tasks().update(0, dispatch(old(tm).tasks()[0], now)),
        final(tm).tasks()[0].first_time == now,
        final(tm).free_frames() == old(tm).free_frames(),
{
    tm.run_first_task(now)
}

/// Gives the CPU to the next ready task at time `now`, or fails, with
/// nothing changed, if no task is ready.
pub fn run_next_task(tm: &mut TaskManager, now: usize) -> (r: Result<Switch, SchedError>)
    requires
        old(tm).wf(),
        old(tm).current_tcb().task_status != TaskStatus::Running,
    ensures
        final(tm).wf(),
        final(tm).free_frames() == old(tm).free_frames(),
        r is Err <==> none_ready(old(tm).tasks()),
        r matches Err(e) ==> {
            &&& e == SchedError::AllTasksCompleted
            &&& final(tm).tasks() == old(tm).tasks()
            &&& final(tm).current() == old(tm).current()
        },
        r matches Ok(sw) ==> switched(old(tm).tasks(), old(tm).current(), now, *final(tm), sw),
{
    tm.run_next_task(now)
}

/// Makes the running task ready again.
pub fn mark_current_suspended(tm: &mut TaskManager)
    requires
        old(tm).wf(),
        old(tm).current_tcb().task_status == TaskStatus::Running,
    ensures
        final(tm).wf(),
        final(tm).current() == old(tm).current(),
        final(tm).tasks() == with_status(old(tm).tasks(), old(tm).current(), TaskStatus::Ready),
        final(tm).free_frames() == old(tm).free_frames(),
{
    tm.mark_current_suspended()
}

/// Makes the running task an exited one, for good.
pub fn mark_current_exited(tm: &mut TaskManager)
    requires
        old(tm).wf(),
        old(tm).current_tcb().task_status == TaskStatus::Running,
    ensures
        final(tm).wf(),
        final(tm).current() == old(tm).current(),
        final(tm).tasks() == with_status(old(tm).tasks(), old(tm).current(), TaskStatus::Exited),
        final(tm).free_frames() == old(tm).free_frames(),
{
    tm.mark_current_exited()
}

/// Takes the CPU from the running task, which stays ready, and gives it to
/// the next ready task at time `now`. There always is one: if no other task
/// is ready, the task that was suspended runs on.
pub fn suspend_current_and_run_next(tm: &mut TaskManager, now: usize) -> (sw: Switch)
    requires
        old(tm).wf(),
        old(tm).current_tcb().task_status == TaskStatus::Running,
    ensures
        final(tm).wf(),
        final(tm).free_frames() == old(tm).free_frames(),
        switched(
            with_status(old(tm).tasks(), old(tm).current(), TaskStatus::Ready),
            old(tm).current(),
            now,
            *final(tm),
            sw,
        ),
{
    mark_current_suspended(tm);
    let current = tm.current_task();
    proof {
        assert(is_ready(tm.tasks(), tm.current()));
    }
    match run_next_task(tm, now) {
        Ok(sw) => sw,
        Err(_) => {
            // The suspended task itself is ready, so the scheduler cannot fail.
            assert(false);
            Switch { from: Some(current), to: current }
        },
    }
}

/// Ends the running task for good and gives the CPU to the next ready task
/// at time `now`. Fails if no task is ready: then every task has exited.
pub fn exit_current_and_run_next(tm: &mut TaskManager, now: usize) -> (r: Result<
    Switch,
    SchedError,
>)
    requires
        old(tm).wf(),
        old(tm).current_tcb().task_status == TaskStatus::Running,
    ensures
        final(tm).wf(),
        final(tm).free_frames() == old(tm).free_frames(),
        r is Err <==> none_ready(
            with_status(old(tm).tasks(), old(tm).current(), TaskStatus::Exited),
        ),
        r matches Err(e) ==> {
            &&& e == SchedError::AllTasksCompleted
            &&& final(tm).current() == old(tm).current()
            &&& final(tm).tasks() == with_status(
                old(tm).tasks(),
                old(tm).current(),
                TaskStatus::Exited,
            )
        },
        r matches Ok(sw) ==> sw.to != old(tm).current() && switched(
            with_status(old(tm).tasks(), old(tm).current(), TaskStatus::Exited),
            old(tm).current(),
            now,
            *final(tm),
            sw,
        ),
{
    mark_current_exited(tm);
    proof {
        lemma_next_task(tm.tasks(), tm.current());
    }
    run_next_task(tm, now)
}

/// The handle of the current task's address space.
pub fn current_user_token(tm: &TaskManager) -> (t: usize)
    requires
        tm.wf(),
    ensures
        t == tm.current_tcb().memory_set.token_value(),
{
    tm.get_current_token()
}

/// The current task's saved user-mode registers, for the trap layer to read
/// and write.
pub fn current_trap_cx(tm: &mut TaskManager) -> (cx: &mut TrapContext)
    requires
        old(tm).wf(),
    ensures
        *cx == old(tm).current_tcb().trap_cx,
        final(tm).tasks() == old(tm).tasks().update(
            old(tm).current(),
            (TaskControlBlock { trap_cx: *final(cx), ..old(tm).current_tcb() }),
        ),
        final(tm).current() == old(tm).current(),
        final(tm).free_frames() == old(tm).free_frames(),
        final(tm).wf(),
{
    tm.get_current_trap_cx()
}

/// Counts one more call of the syscall `id` for the current task.
pub fn add_one_while_syscall(tm: &mut TaskManager, id: usize)
    requires
        old(tm).wf(),
        id < MAX_SYSCALL_NUM,
        old(tm).current_tcb().syscall_times[id as int] < u32::MAX,
    ensures
        final(tm).wf(),
        counted_call(*old(tm), *final(tm), id as int),
{
    tm.add_one_to_current_task(id)
}

/// What is reported about the current task at time `now`: its status, its
/// syscall counts and the milliseconds since it first ran.
pub fn get_task_info_inner(tm: &TaskManager, now: usize) -> (info: TaskInfo)
    requires
        tm.wf(),
        now >= tm.current_tcb().first_time,
    ensures
        info.status == tm.current_tcb().task_status,
        info.syscall_times == tm.current_tcb().syscall_times,
        info.time == now - tm.current_tcb().first_time,
{
    let status = tm.get_current_task_status();
    let syscall_times = tm.get_current_task_syscall_times();
    let time = tm.get_current_task_costed_time(now);
    TaskInfo { status, syscall_times, time }
}

/// Maps the bytes `[start, start + len)` into the current task's address
/// space with the permissions that `port` encodes. Returns 0 when the request
/// is granted and -1, with nothing changed, when `start` is not page-aligned,
/// `port` is not a valid permission set, a page of the range is mapped
/// already, the range leaves the address space or the frames run out.
pub fn sys_mmap_inner(tm: &mut TaskManager, start: usize, len: usize, port: usize) -> (r: isize)
    requires
        old(tm).wf(),
    ensures
        final(tm).wf(),
        mmap_outcome(*old(tm), *final(tm), old(tm).current(), start, len, port, r),
{
    let va = VirtAddr(start);
    if !va.aligned() || port > 7 || port == 0 {
        return -1;
    }
    tm.mmap(start, len, port)
}

/// Unmaps the bytes `[start, start + len)` from the current task's address
/// space. Returns 0 when the request is granted and -1, with nothing changed,
/// when `start` is not page-aligned, the range leaves the address space or a
/// page of it is not mapped.
pub fn sys_munmap_inner(tm: &mut TaskManager, start: usize, len: usize) -> (r: isize)
    requires
        old(tm).wf(),
    ensures
        final(tm).wf(),
        munmap_outcome(*old(tm), *final(tm), old(tm).current(), start, len, r),
{
    let va = VirtAddr(start);
    if !va.aligned() {
        return -1;
    }
    tm.munmap(start, len)
}

} // verus!
