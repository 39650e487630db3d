//! The task table, the round-robin scheduler and the frames' bookkeeping.
//!
//! A [`TaskManager`] owns every task of the kernel and the pool of free
//! frames. The scheduler picks the next task round robin; the context switch
//! that follows a pick is described by a [`Switch`] and performed by the
//! caller.

use vstd::prelude::*;
use crate::config::{MAX_SYSCALL_NUM, PAGE_SIZE};
use crate::mm::frame_allocator::{descending_frames, free_list_wf, FrameAllocator};
use crate::mm::memory_set::{
    frames_unused,
    in_region,
    lemma_region_pages,
    mmap_accepts,
    mmap_free,
    mmap_pages,
    munmap_accepts,
    munmap_free,
    munmap_pages,
    PageEntry,
};
use crate::task::context::TaskContext;
use crate::task::task::{TaskControlBlock, TaskStatus};
use crate::trap::TrapContext;

verus! {

/// Why the scheduler cannot go on.
#[derive(Clone, Copy, PartialEq, Eq, Structural, Debug)]
pub enum SchedError {
    /// No task is ready: every task has exited.
    AllTasksCompleted,
}

/// A context switch that the caller has to perform: save the execution state
/// into the context of task `from`, or into a context that is thrown away if
/// there is none, and resume task `to`.
#[derive(Clone, Copy, PartialEq, Eq, Debug)]
pub struct Switch {
    pub from: Option<usize>,
    pub to: usize,
}

/// The task table and the pool of free frames.
pub struct TaskManager {
    num_app: usize,
    tasks: Vec<TaskControlBlock>,
    current_task: usize,
    frames: FrameAllocator,
}

/// The task at distance `d` behind `current` in a table of `n` tasks that is
/// walked in a circle.
pub open spec fn candidate(n: int, current: int, d: int) -> int {
    (current + d) % n
}

/// Whether task `i` is ready to run.
pub open spec fn is_ready(ts: Seq<TaskControlBlock>, i: int) -> bool {
    ts[i].task_status == TaskStatus::Ready
}

/// No task is ready.
pub open spec fn none_ready(ts: Seq<TaskControlBlock>) -> bool {
    forall|i: int| 0 <= i < ts.len() ==> !#[trigger] is_ready(ts, i)
}

/// `d` is the least distance behind `current`, from 1 up to a full circle, at
/// which a ready task stands.
pub open spec fn chosen_at(ts: Seq<TaskControlBlock>, current: int, d: int) -> bool {
    &&& 1 <= d <= ts.len()
    &&& is_ready(ts, candidate(ts.len() as int, current, d))
    &&& forall|e: int|
        1 <= e < d ==> !is_ready(ts, #[trigger] candidate(ts.len() as int, current, e))
}

/// The task that runs next: the first ready one among `current + 1`,
/// `current + 2`, and so on around the table, `current` itself last.
pub open spec fn next_task(ts: Seq<TaskControlBlock>, current: int) -> Option<int> {
    if exists|d: int| chosen_at(ts, current, d) {
        Some(candidate(ts.len() as int, current, choose|d: int| chosen_at(ts, current, d)))
    } else {
        None
    }
}

/// A task after it was given the CPU at time `now`: it runs, and its dispatch
/// time is `now` if it runs for the first time and as before if not.
pub open spec fn dispatch(t: TaskControlBlock, now: usize) -> TaskControlBlock {
    TaskControlBlock {
        task_status: TaskStatus::Running,
        first_time: if t.dispatched {
            t.first_time
        } else {
            now
        },
        dispatched: true,
        ..t
    }
}

/// Number of running tasks.
pub open spec fn running_count(ts: Seq<TaskControlBlock>) -> nat
    decreases ts.len(),
{
    if ts.len() == 0 {
        0
    } else {
        running_count(ts.drop_last()) + if ts.last().task_status == TaskStatus::Running {
            1nat
        } else {
            0nat
        }
    }
}

/// The table's invariant: there is a current task, every block is well
/// formed and carries its index, and only the current task may be running.
pub open spec fn table_wf(ts: Seq<TaskControlBlock>, current: int) -> bool {
    &&& 0 <= current < ts.len()
    &&& forall|i: int| 0 <= i < ts.len() ==> (#[trigger] ts[i]).wf() && ts[i].id == i
    &&& forall|i: int|
        0 <= i < ts.len() && (#[trigger] ts[i]).task_status == TaskStatus::Running ==> i == current
}

/// The frames' invariant: the free stack is well formed, no mapped frame is
/// free, and no frame is mapped by two tasks.
pub open spec fn frames_wf(ts: Seq<TaskControlBlock>, free: Seq<usize>) -> bool {
    &&& free_list_wf(free)
    &&& forall|i: int| 0 <= i < ts.len() ==> frames_unused((#[trigger] ts[i]).memory_set@, free)
    &&& forall|i: int, j: int, v: usize, w: usize|
        #![trigger ts[i].memory_set@[v], ts[j].memory_set@[w]]
        0 <= i < ts.len() && 0 <= j < ts.len() && i != j && ts[i].memory_set@.contains_key(v)
            && ts[j].memory_set@.contains_key(w) ==> ts[i].memory_set@[v].ppn
            != ts[j].memory_set@[w].ppn
}

/// Task `b` is task `a` but for its address space, whose handle is kept.
pub open spec fn same_but_memory(a: TaskControlBlock, b: TaskControlBlock) -> bool {
    &&& b.id == a.id
    &&& b.task_status == a.task_status
    &&& b.task_cx == a.task_cx
    &&& b.trap_cx == a.trap_cx
    &&& b.syscall_times == a.syscall_times
    &&& b.first_time == a.first_time
    &&& b.dispatched == a.dispatched
    &&& b.memory_set.token_value() == a.memory_set.token_value()
}

/// The candidate at a distance of at most one circle is found without a
/// division, and is a task of the table.
pub proof fn lemma_candidate(n: int, current: int, d: int)
    requires
        0 <= current < n,
        0 <= d <= n,
    ensures
        candidate(n, current, d) == (if current + d < n {
            current + d
        } else {
            current + d - n
        }),
        0 <= candidate(n, current, d) < n,
{
    let x = current + d;
    if x < n {
        vstd::arithmetic::div_mod::lemma_fundamental_div_mod_converse(x, n, 0, x);
    } else {
        vstd::arithmetic::div_mod::lemma_fundamental_div_mod_converse(x, n, 1, x - n);
    }
}

/// At most one distance is the least one with a ready task.
pub proof fn lemma_chosen_unique(ts: Seq<TaskControlBlock>, current: int, d: int, e: int)
    requires
        chosen_at(ts, current, d),
        chosen_at(ts, current, e),
    ensures
        d == e,
{
    if d < e {
        assert(!is_ready(ts, candidate(ts.len() as int, current, d)));
    }
    if e < d {
        assert(!is_ready(ts, candidate(ts.len() as int, current, e)));
    }
}

/// Every task of the table stands at some distance, from 1 up to a full
/// circle, behind the current one.
pub proof fn lemma_every_task_is_candidate(n: int, current: int, i: int)
    requires
        0 <= current < n,
        0 <= i < n,
    ensures
        ({
            let d = if i > current {
                i - current
            } else {
                i - current + n
            };
            1 <= d <= n && candidate(n, current, d) == i
        }),
{
    let d = if i > current {
        i - current
    } else {
        i - current + n
    };
    lemma_candidate(n, current, d);
}

/// Round robin: if a ready task stands at distance `d` behind the current
/// one, the next task is the ready task at the least such distance, so no
/// ready task that is nearer is passed over.
pub proof fn lemma_round_robin(ts: Seq<TaskControlBlock>, current: int, d: int)
    requires
        0 <= current < ts.len(),
        1 <= d <= ts.len(),
        is_ready(ts, candidate(ts.len() as int, current, d)),
    ensures
        next_task(ts, current) is Some,
        exists|e: int|
            1 <= e <= d && chosen_at(ts, current, e) && next_task(ts, current) == Some(
                candidate(ts.len() as int, current, e),
            ),
    decreases d,
{
    let n = ts.len() as int;
    if exists|e: int| 1 <= e < d && is_ready(ts, candidate(n, current, e)) {
        let e = choose|e: int| 1 <= e < d && is_ready(ts, candidate(n, current, e));
        lemma_round_robin(ts, current, e);
    } else {
        assert(chosen_at(ts, current, d));
        let c = choose|c: int| chosen_at(ts, current, c);
        lemma_chosen_unique(ts, current, c, d);
    }
}

/// The next task, if there is one, is a ready task of the table; there is
/// none exactly if no task is ready.
pub proof fn lemma_next_task(ts: Seq<TaskControlBlock>, current: int)
    requires
        0 <= current < ts.len(),
    ensures
        next_task(ts, current) is None <==> none_ready(ts),
        next_task(ts, current) matches Some(j) ==> 0 <= j < ts.len() && is_ready(ts, j),
{
    let n = ts.len() as int;
    if next_task(ts, current) is Some {
        let d = choose|d: int| chosen_at(ts, current, d);
        lemma_candidate(n, current, d);
        let j = candidate(n, current, d);
        assert(is_ready(ts, j));
    } else {
        assert forall|i: int| 0 <= i < ts.len() implies !#[trigger] is_ready(ts, i) by {
            if is_ready(ts, i) {
                lemma_every_task_is_candidate(n, current, i);
                let d = if i > current {
                    i - current
                } else {
                    i - current + n
                };
                lemma_round_robin(ts, current, d);
            }
        }
    }
}

/// In a table in which no task runs, the number of running tasks is 0.
pub proof fn lemma_none_running(ts: Seq<TaskControlBlock>)
    requires
        forall|i: int| 0 <= i < ts.len() ==> (#[trigger] ts[i]).task_status != TaskStatus::Running,
    ensures
        running_count(ts) == 0,
    decreases ts.len(),
{
    if ts.len() > 0 {
        let front = ts.drop_last();
        assert forall|i: int| 0 <= i < front.len() implies (#[trigger] front[i]).task_status
            != TaskStatus::Running by {
            assert(front[i] == ts[i]);
        }
        lemma_none_running(ts.drop_last());
        assert(ts.last() == ts[ts.len() - 1]);
    }
}

/// In a table in which only task `c` may run, the number of running tasks is
/// 0 or 1.
pub proof fn lemma_only_one_may_run(ts: Seq<TaskControlBlock>, c: int)
    requires
        forall|i: int|
            0 <= i < ts.len() && (#[trigger] ts[i]).task_status == TaskStatus::Running ==> i == c,
    ensures
        running_count(ts) <= 1,
    decreases ts.len(),
{
    if ts.len() > 0 {
        let front = ts.drop_last();
        assert forall|i: int| 0 <= i < front.len() && (#[trigger] front[i]).task_status
            == TaskStatus::Running implies i == c by {
            assert(front[i] == ts[i]);
        }
        assert(ts.last() == ts[ts.len() - 1]);
        if ts.last().task_status == TaskStatus::Running {
            assert forall|i: int| 0 <= i < front.len() implies (#[trigger] front[i]).task_status
                != TaskStatus::Running by {
                assert(front[i] == ts[i]);
            }
            lemma_none_running(front);
        } else {
            lemma_only_one_may_run(front, c);
        }
    }
}

/// Giving a task the CPU records its dispatch time if and only if none was
/// recorded before: the time of the first dispatch stays for good.
pub proof fn lemma_dispatch_time_recorded_once(t: TaskControlBlock, first: usize, later: usize)
    ensures
        dispatch(t, first).dispatched,
        !t.dispatched ==> dispatch(t, first).first_time == first,
        t.dispatched ==> dispatch(t, first).first_time == t.first_time,
        dispatch(dispatch(t, first), later).first_time == dispatch(t, first).first_time,
{
}

/// The table `ts` with the status of task `c` set to `status`.
pub open spec fn with_status(ts: Seq<TaskControlBlock>, c: int, status: TaskStatus) -> Seq<
    TaskControlBlock,
> {
    ts.update(c, (TaskControlBlock { task_status: status, ..ts[c] }))
}

/// `post` is the manager after the CPU went from task `current` of the table
/// `ts` to the next task at time `now`, and `sw` is the switch to perform:
/// the next task of `ts` runs, is current and has its dispatch time; every
/// other task is as in `ts`.
pub open spec fn switched(
    ts: Seq<TaskControlBlock>,
    current: int,
    now: usize,
    post: TaskManager,
    sw: Switch,
) -> bool {
    &&& sw.from == Some(current as usize)
    &&& next_task(ts, current) == Some(sw.to as int)
    &&& post.current() == sw.to
    &&& post.tasks() == ts.update(sw.to as int, dispatch(ts[sw.to as int], now))
}

/// `post` is the manager `pre` after one more call of the syscall `call_id`
/// was counted for the current task: that count is one higher, and nothing
/// else differs.
pub open spec fn counted_call(pre: TaskManager, post: TaskManager, call_id: int) -> bool {
    let c = pre.current();
    &&& post.current() == c
    &&& post.free_frames() == pre.free_frames()
    &&& post.tasks() == pre.tasks().update(
        c,
        (TaskControlBlock { syscall_times: post.tasks()[c].syscall_times, ..pre.tasks()[c] }),
    )
    &&& post.tasks()[c].syscall_times@ == pre.tasks()[c].syscall_times@.update(
        call_id,
        (pre.tasks()[c].syscall_times[call_id] + 1) as u32,
    )
}

/// `post` is the manager `pre` after task `id` asked to map the bytes
/// `[start, start + len)` with the permissions `port`, and `r` is the answer:
/// 0 and the pages mapped on the frames from the top of the free stack if the
/// request is granted, -1 and nothing changed if not. Nothing but the
/// address space of task `id` and the free stack differs.
pub open spec fn mmap_outcome(
    pre: TaskManager,
    post: TaskManager,
    id: int,
    start: usize,
    len: usize,
    port: usize,
    r: isize,
) -> bool {
    let pages = pre.tasks()[id].memory_set@;
    let free = pre.free_frames();
    &&& post.current() == pre.current()
    &&& post.tasks().len() == pre.tasks().len()
    &&& forall|i: int|
        0 <= i < pre.tasks().len() && i != id ==> #[trigger] post.tasks()[i] == pre.tasks()[i]
    &&& same_but_memory(pre.tasks()[id], post.tasks()[id])
    &&& if mmap_accepts(pages, free, start, len, port) {
        &&& r == 0
        &&& post.tasks()[id].memory_set@ == mmap_pages(pages, free, start, len, port)
        &&& post.free_frames() == mmap_free(free, len)
    } else {
        &&& r == -1
        &&& post.tasks()[id].memory_set@ == pages
        &&& post.free_frames() == free
    }
}

/// `post` is the manager `pre` after task `id` asked to unmap the bytes
/// `[start, start + len)`, and `r` is the answer: 0, the pages gone and
/// their frames back on the free stack if the request is granted, -1 and
/// nothing changed if not. Nothing but the address space of task `id` and
/// the free stack differs.
pub open spec fn munmap_outcome(
    pre: TaskManager,
    post: TaskManager,
    id: int,
    start: usize,
    len: usize,
    r: isize,
) -> bool {
    let pages = pre.tasks()[id].memory_set@;
    let free = pre.free_frames();
    &&& post.current() == pre.current()
    &&& post.tasks().len() == pre.tasks().len()
    &&& forall|i: int|
        0 <= i < pre.tasks().len() && i != id ==> #[trigger] post.tasks()[i] == pre.tasks()[i]
    &&& same_but_memory(pre.tasks()[id], post.tasks()[id])
    &&& if munmap_accepts(pages, start, len) {
        &&& r == 0
        &&& post.tasks()[id].memory_set@ == munmap_pages(pages, start, len)
        &&& post.free_frames() == munmap_free(pages, free, start, len)
    } else {
        &&& r == -1
        &&& post.tasks()[id].memory_set@ == pages
        &&& post.free_frames() == free
    }
}

impl TaskManager {
    /// The task table.
    pub closed spec fn tasks(&self) -> Seq<TaskControlBlock> {
        self.tasks@
    }

    /// Index of the current task: the one that runs, or ran last.
    pub closed spec fn current(&self) -> int {
        self.current_task as int
    }

    /// The stack of free frames.
    pub closed spec fn free_frames(&self) -> Seq<usize> {
        self.frames@
    }

    /// The block of the current task.
    pub open spec fn current_tcb(&self) -> TaskControlBlock {
        self.tasks()[self.current()]
    }

    /// The recorded number of tasks is the length of the table.
    pub closed spec fn counted(&self) -> bool {
        self.num_app == self.tasks@.len()
    }

    /// The manager's invariant.
    pub open spec fn wf(&self) -> bool {
        &&& self.counted()
        &&& table_wf(self.tasks(), self.current())
        &&& frames_wf(self.tasks(), self.free_frames())
    }

    /// No task has been given the CPU yet: task 0 is current and every task
    /// is ready and without a dispatch time.
    pub open spec fn fresh(&self) -> bool {
        &&& self.current() == 0
        &&& forall|i: int|
            0 <= i < self.tasks().len() ==> (#[trigger] self.tasks()[i]).task_status
                == TaskStatus::Ready && !self.tasks()[i].dispatched
    }

    /// At every instant at most one task runs.
    pub proof fn lemma_at_most_one_running(&self)
        requires
            self.wf(),
        ensures
            running_count(self.tasks()) <= 1,
    {
        lemma_only_one_may_run(self.tasks(), self.current());
    }

    /// A manager of one task per handle in `tokens`, each ready to run for
    /// the first time with an empty address space, zeroed contexts and no
    /// syscall counted, and of the free frames `0 .. nframes`.
    pub fn new(tokens: &Vec<usize>, nframes: usize) -> (tm: TaskManager)
        requires
            tokens@.len() > 0,
            nframes * PAGE_SIZE <= usize::MAX,
        ensures
            tm.wf(),
            tm.fresh(),
            tm.tasks().len() == tokens@.len(),
            tm.free_frames() == descending_frames(nframes as nat),
            forall|i: int|
                0 <= i < tokens@.len() ==> {
                    let t = #[trigger] tm.tasks()[i];
                    &&& t.memory_set@ == Map::<usize, PageEntry>::empty()
                    &&& t.memory_set.token_value() == tokens@[i]
                    &&& t.first_time == 0
                    &&& forall|k: int| 0 <= k < MAX_SYSCALL_NUM ==> t.syscall_times[k] == 0
                },
    {
        let frames = FrameAllocator::new(nframes);
        let mut tasks: Vec<TaskControlBlock> = Vec::new();
        let mut i: usize = 0;
        while i < tokens.len()
            invariant
                i <= tokens@.len(),
                tasks@.len() == i,
                forall|k: int|
                    0 <= k < i ==> {
                        let t = #[trigger] tasks@[k];
                        &&& t.wf()
                        &&& t.id == k
                        &&& t.task_status == TaskStatus::Ready
                        &&& !t.dispatched
                        &&& t.first_time == 0
                        &&& t.memory_set@ == Map::<usize, PageEntry>::empty()
                        &&& t.memory_set.token_value() == tokens@[k]
                        &&& forall|c: int| 0 <= c < MAX_SYSCALL_NUM ==> t.syscall_times[c] == 0
                    },
            decreases tokens@.len() - i,
        {
            let tcb = TaskControlBlock::new(
                i,
                tokens[i],
                TaskContext::zero_init(),
                TrapContext::app_init_context(0, 0, 0, 0, 0),
            );
            tasks.push(tcb);
            i = i + 1;
        }
        TaskManager { num_app: tokens.len(), tasks, current_task: 0, frames }
    }

    /// Number of tasks.
    pub fn num_app(&self) -> (n: usize)
        requires
            self.wf(),
        ensures
            n == self.tasks().len(),
    {
        self.num_app
    }

    /// Index of the current task.
    pub fn current_task(&self) -> (c: usize)
        ensures
            c == self.current(),
    {
        self.current_task
    }

    /// Number of free frames.
    pub fn free_frame_count(&self) -> (n: usize)
        ensures
            n == self.free_frames().len(),
    {
        self.frames.available()
    }

    /// The block of task `id`.
    pub fn task(&self, id: usize) -> (t: &TaskControlBlock)
        requires
            id < self.tasks().len(),
        ensures
            *t == self.tasks()[id as int],
    {
        &self.tasks[id]
    }

    /// The saved execution state of task `id`, for the context switch to
    /// write into.
    pub fn task_cx_mut(&mut self, id: usize) -> (cx: &mut TaskContext)
        requires
            id < old(self).tasks().len(),
        ensures
            *cx == old(self).tasks()[id as int].task_cx,
            final(self).tasks() == old(self).tasks().update(
                id as int,
                (TaskControlBlock { task_cx: *final(cx), ..old(self).tasks()[id as int] }),
            ),
            final(self).current() == old(self).current(),
            final(self).free_frames() == old(self).free_frames(),
            old(self).wf() ==> final(self).wf(),
    {
        &mut self.tasks[id].task_cx
    }

    /// Whether no task has been given the CPU yet.
    pub fn is_fresh(&self) -> (r: bool)
        requires
            self.wf(),
        ensures
            r == self.fresh(),
    {
        if self.current_task != 0 {
            return false;
        }
        let mut i: usize = 0;
        while i < self.tasks.len()
            invariant
                i <= self.tasks@.len(),
                forall|k: int|
                    0 <= k < i ==> (#[trigger] self.tasks@[k]).task_status == TaskStatus::Ready
                        && !self.tasks@[k].dispatched,
            decreases self.tasks@.len() - i,
        {
            let ready = match self.tasks[i].task_status {
                TaskStatus::Ready => true,
                _ => false,
            };
            if !ready || self.tasks[i].dispatched {
                return false;
            }
            i = i + 1;
        }
        true
    }

    /// Gives the CPU to task 0 at time `now`, as the first scheduling step of
    /// all: task 0 runs and has `now` as its dispatch time. The switch to
    /// perform starts from a context that is thrown away.
    pub fn run_first_task(&mut self, now: usize) -> (sw: Switch)
        requires
            old(self).wf(),
            old(self).fresh(),
        ensures
            final(self).wf(),
            sw.from is None,
            sw.to == 0,
            final(self).current() == 0,
            final(self).tasks() == old(self).tasks().update(0, dispatch(old(self).tasks()[0], now)),
            final(self).tasks()[0].first_time == now,
            final(self).free_frames() == old(self).free_frames(),
    {
        self.tasks[0].task_status = TaskStatus::Running;
        self.tasks[0].first_time = now;
        self.tasks[0].dispatched = true;
        proof {
            let t = dispatch(old(self).tasks@[0], now);
            assert(self.tasks@ =~= old(self).tasks@.update(0, t));
            lemma_update_keeps_frames(old(self).tasks@, old(self).frames@, 0, t);
        }
        Switch { from: None, to: 0 }
    }

    /// Makes the running task ready again.
    pub fn mark_current_suspended(&mut self)
        requires
            old(self).wf(),
            old(self).current_tcb().task_status == TaskStatus::Running,
        ensures
            final(self).wf(),
            final(self).current() == old(self).current(),
            final(self).tasks() == with_status(
                old(self).tasks(),
                old(self).current(),
                TaskStatus::Ready,
            ),
            final(self).free_frames() == old(self).free_frames(),
    {
        let current = self.current_task;
        self.tasks[current].task_status = TaskStatus::Ready;
        proof {
            let ts = with_status(old(self).tasks@, current as int, TaskStatus::Ready);
            assert(self.tasks@ =~= ts);
            lemma_update_keeps_frames(
                old(self).tasks@,
                old(self).frames@,
                current as int,
                ts[current as int],
            );
        }
    }

    /// Makes the running task an exited one, for good.
    pub fn mark_current_exited(&mut self)
        requires
            old(self).wf(),
            old(self).current_tcb().task_status == TaskStatus::Running,
        ensures
            final(self).wf(),
            final(self).current() == old(self).current(),
            final(self).tasks() == with_status(
                old(self).tasks(),
                old(self).current(),
                TaskStatus::Exited,
            ),
            final(self).free_frames() == old(self).free_frames(),
    {
        let current = self.current_task;
        self.tasks[current].task_status = TaskStatus::Exited;
        proof {
            let ts = with_status(old(self).tasks@, current as int, TaskStatus::Exited);
            assert(self.tasks@ =~= ts);
            lemma_update_keeps_frames(
                old(self).tasks@,
                old(self).frames@,
                current as int,
                ts[current as int],
            );
        }
    }

    /// Finds the task to run next: the first ready one behind the current
    /// task, walking the table in a circle and ending at the current task
    /// itself. `None` if no task is ready.
    pub fn find_next_task(&self) -> (r: Option<usize>)
        requires
            self.wf(),
        ensures
            r is None <==> none_ready(self.tasks()),
            r is None <==> next_task(self.tasks(), self.current()) is None,
            r matches Some(j) ==> next_task(self.tasks(), self.current()) == Some(j as int) && j
                < self.tasks().len() && is_ready(self.tasks(), j as int),
    {
        let n: usize = self.num_app;
        let current: usize = self.current_task;
        let ahead: usize = n - current - 1;
        proof {
            lemma_next_task(self.tasks@, current as int);
        }
        let mut k: usize = 0;
        while k < n
            invariant
                k <= n,
                n == self.tasks@.len(),
                current < n,
                current == self.current_task,
                ahead == n - current - 1,
                forall|e: int|
                    1 <= e <= k ==> !is_ready(
                        self.tasks@,
                        #[trigger] candidate(n as int, current as int, e),
                    ),
            decreases n - k,
        {
            let id: usize = if k < ahead {
                current + 1 + k
            } else {
                k - ahead
            };
            proof {
                lemma_candidate(n as int, current as int, k + 1);
            }
            let ready = match self.tasks[id].task_status {
                TaskStatus::Ready => true,
                _ => false,
            };
            if ready {
                proof {
                    assert(chosen_at(self.tasks@, current as int, k + 1));
                    let c = choose|c: int| chosen_at(self.tasks@, current as int, c);
                    lemma_chosen_unique(self.tasks@, current as int, c, k + 1);
                }
                return Some(id);
            }
            k = k + 1;
        }
        proof {
            assert forall|i: int| 0 <= i < n implies !#[trigger] is_ready(self.tasks@, i) by {
                lemma_every_task_is_candidate(n as int, current as int, i);
            }
        }
        None
    }

    /// Gives the CPU to the next task at time `now`: that task runs, becomes
    /// current, and has `now` recorded as its dispatch time if it runs for
    /// the first time. Fails, with nothing changed, if no task is ready. To
    /// be called after the current task was suspended or has exited.
    pub fn run_next_task(&mut self, now: usize) -> (r: Result<Switch, SchedError>)
        requires
            old(self).wf(),
            old(self).current_tcb().task_status != TaskStatus::Running,
        ensures
            final(self).wf(),
            final(self).free_frames() == old(self).free_frames(),
            r is Err <==> none_ready(old(self).tasks()),
            r matches Err(e) ==> {
                &&& e == SchedError::AllTasksCompleted
                &&& final(self).tasks() == old(self).tasks()
                &&& final(self).current() == old(self).current()
            },
            r matches Ok(sw) ==> switched(
                old(self).tasks(),
                old(self).current(),
                now,
                *final(self),
                sw,
            ),
    {
        match self.find_next_task() {
            Some(next) => {
                let current = self.current_task;
                self.tasks[next].task_status = TaskStatus::Running;
                if !self.tasks[next].dispatched {
                    self.tasks[next].first_time = now;
                    self.tasks[next].dispatched = true;
                }
                self.current_task = next;
                proof {
                    let t = dispatch(old(self).tasks@[next as int], now);
                    assert(self.tasks@ =~= old(self).tasks@.update(next as int, t));
                    lemma_update_keeps_frames(old(self).tasks@, old(self).frames@, next as int, t);
                }
                Ok(Switch { from: Some(current), to: next })
            },
            None => Err(SchedError::AllTasksCompleted),
        }
    }

    /// The handle of the current task's address space.
    pub fn get_current_token(&self) -> (t: usize)
        requires
            self.wf(),
        ensures
            t == self.current_tcb().memory_set.token_value(),
    {
        self.tasks[self.current_task].get_user_token()
    }

    /// The current task's saved user-mode registers, for the trap layer to
    /// read and write.
    pub fn get_current_trap_cx(&mut self) -> (cx: &mut TrapContext)
        requires
            old(self).wf(),
        ensures
            *cx == old(self).current_tcb().trap_cx,
            final(self).tasks() == old(self).tasks().update(
                old(self).current(),
                (TaskControlBlock { trap_cx: *final(cx), ..old(self).current_tcb() }),
            ),
            final(self).current() == old(self).current(),
            final(self).free_frames() == old(self).free_frames(),
            final(self).wf(),
    {
        let current = self.current_task;
        &mut self.tasks[current].trap_cx
    }

    /// The status of the current task.
    pub fn get_current_task_status(&self) -> (s: TaskStatus)
        requires
            self.wf(),
        ensures
            s == self.current_tcb().task_status,
    {
        self.tasks[self.current_task].task_status
    }

    /// The time in milliseconds that has passed at time `now` since the
    /// current task first ran.
    pub fn get_current_task_costed_time(&self, now: usize) -> (ms: usize)
        requires
            self.wf(),
            now >= self.current_tcb().first_time,
        ensures
            ms == now - self.current_tcb().first_time,
    {
        now - self.tasks[self.current_task].first_time
    }

    /// Counts one more call of the syscall `call_id` for the current task.
    pub fn add_one_to_current_task(&mut self, call_id: usize)
        requires
            old(self).wf(),
            call_id < MAX_SYSCALL_NUM,
            old(self).current_tcb().syscall_times[call_id as int] < u32::MAX,
        ensures
            final(self).wf(),
            counted_call(*old(self), *final(self), call_id as int),
    {
        let current = self.current_task;
        self.tasks[current].syscall_times[call_id] += 1;
        proof {
            let t = self.tasks@[current as int];
            assert(self.tasks@ =~= old(self).tasks@.update(current as int, t));
            lemma_update_keeps_frames(old(self).tasks@, old(self).frames@, current as int, t);
        }
    }

    /// The current task's syscall counts.
    pub fn get_current_task_syscall_times(&self) -> (counts: [u32; MAX_SYSCALL_NUM])
        requires
            self.wf(),
        ensures
            counts == self.current_tcb().syscall_times,
    {
        self.tasks[self.current_task].syscall_times
    }

    /// Maps the bytes `[start, start + len)` into the address space of task
    /// `id`. Returns 0 when the request is granted and -1, with nothing
    /// changed, when it is not.
    pub fn mmap_task(&mut self, id: usize, start: usize, len: usize, port: usize) -> (r: isize)
        requires
            old(self).wf(),
            id < old(self).tasks().len(),
        ensures
            final(self).wf(),
            mmap_outcome(*old(self), *final(self), id as int, start, len, port, r),
    {
        let r = self.tasks[id].memory_set.mmap(&mut self.frames, start, len, port);
        proof {
            let ts0 = old(self).tasks@;
            let ts1 = self.tasks@;
            let free0 = old(self).frames@;
            assert(ts1 =~= ts0.update(id as int, ts1[id as int]));
            if r == 0 {
                lemma_mmap_keeps_frames(ts0, free0, id as int, ts1[id as int], start, len, port);
            } else {
                lemma_same_pages_keeps_frames(ts0, free0, id as int, ts1[id as int]);
            }
        }
        r
    }

    /// Unmaps the bytes `[start, start + len)` from the address space of
    /// task `id`. Returns 0 when the request is granted and -1, with nothing
    /// changed, when it is not.
    pub fn munmap_task(&mut self, id: usize, start: usize, len: usize) -> (r: isize)
        requires
            old(self).wf(),
            id < old(self).tasks().len(),
        ensures
            final(self).wf(),
            munmap_outcome(*old(self), *final(self), id as int, start, len, r),
    {
        let r = self.tasks[id].memory_set.munmap(&mut self.frames, start, len);
        proof {
            let ts0 = old(self).tasks@;
            let ts1 = self.tasks@;
            let free0 = old(self).frames@;
            assert(ts1 =~= ts0.update(id as int, ts1[id as int]));
            if r == 0 {
                lemma_munmap_keeps_frames(ts0, free0, id as int, ts1[id as int], start, len);
            } else {
                lemma_same_pages_keeps_frames(ts0, free0, id as int, ts1[id as int]);
            }
        }
        r
    }

    /// Maps the bytes `[start, start + len)` into the address space of the
    /// current task. Returns 0 when the request is granted and -1, with
    /// nothing changed, when it is not.
    pub fn mmap(&mut self, start: usize, len: usize, port: usize) -> (r: isize)
        requires
            old(self).wf(),
        ensures
            final(self).wf(),
            mmap_outcome(*old(self), *final(self), old(self).current(), start, len, port, r),
    {
        let current = self.current_task;
        self.mmap_task(current, start, len, port)
    }

    /// Unmaps the bytes `[start, start + len)` from the address space of the
    /// current task. Returns 0 when the request is granted and -1, with
    /// nothing changed, when it is not.
    pub fn munmap(&mut self, start: usize, len: usize) -> (r: isize)
        requires
            old(self).wf(),
        ensures
            final(self).wf(),
            munmap_outcome(*old(self), *final(self), old(self).current(), start, len, r),
    {
        let current = self.current_task;
        self.munmap_task(current, start, len)
    }
}

/// Replacing a task by one with the same address space keeps the frames'
/// invariant.
pub proof fn lemma_update_keeps_frames(
    ts: Seq<TaskControlBlock>,
    free: Seq<usize>,
    c: int,
    t: TaskControlBlock,
)
    requires
        frames_wf(ts, free),
        0 <= c < ts.len(),
        t.memory_set == ts[c].memory_set,
    ensures
        frames_wf(ts.update(c, t), free),
{
    let us = ts.update(c, t);
    assert forall|i: int| 0 <= i < us.len() implies frames_unused(
        (#[trigger] us[i]).memory_set@,
        free,
    ) by {
        assert(us[i].memory_set == ts[i].memory_set);
    }
    assert forall|i: int, j: int, v: usize, w: usize|
        #![trigger us[i].memory_set@[v], us[j].memory_set@[w]]
        0 <= i < us.len() && 0 <= j < us.len() && i != j && us[i].memory_set@.contains_key(v)
            && us[j].memory_set@.contains_key(w) implies us[i].memory_set@[v].ppn
        != us[j].memory_set@[w].ppn by {
        assert(us[i].memory_set == ts[i].memory_set);
        assert(us[j].memory_set == ts[j].memory_set);
        assert(ts[i].memory_set@[v].ppn != ts[j].memory_set@[w].ppn);
    }
}

/// Replacing a task by one with the same mapped pages keeps the frames'
/// invariant.
pub proof fn lemma_same_pages_keeps_frames(
    ts: Seq<TaskControlBlock>,
    free: Seq<usize>,
    c: int,
    t: TaskControlBlock,
)
    requires
        frames_wf(ts, free),
        0 <= c < ts.len(),
        t.memory_set@ == ts[c].memory_set@,
    ensures
        frames_wf(ts.update(c, t), free),
{
    let us = ts.update(c, t);
    assert forall|i: int| 0 <= i < us.len() implies frames_unused(
        (#[trigger] us[i]).memory_set@,
        free,
    ) by {
        assert(us[i].memory_set@ == ts[i].memory_set@);
    }
    assert forall|i: int, j: int, v: usize, w: usize|
        #![trigger us[i].memory_set@[v], us[j].memory_set@[w]]
        0 <= i < us.len() && 0 <= j < us.len() && i != j && us[i].memory_set@.contains_key(v)
            && us[j].memory_set@.contains_key(w) implies us[i].memory_set@[v].ppn
        != us[j].memory_set@[w].ppn by {
        assert(us[i].memory_set@ == ts[i].memory_set@);
        assert(us[j].memory_set@ == ts[j].memory_set@);
        assert(ts[i].memory_set@[v].ppn != ts[j].memory_set@[w].ppn);
    }
}

/// A granted request to map pages into task `c` keeps the frames' invariant:
/// the new pages lie on frames that were free, so on frames of no task.
pub proof fn lemma_mmap_keeps_frames(
    ts: Seq<TaskControlBlock>,
    free: Seq<usize>,
    c: int,
    t: TaskControlBlock,
    start: usize,
    len: usize,
    port: usize,
)
    requires
        frames_wf(ts, free),
        0 <= c < ts.len(),
        mmap_accepts(ts[c].memory_set@, free, start, len, port),
        t.memory_set@ == mmap_pages(ts[c].memory_set@, free, start, len, port),
        free_list_wf(mmap_free(free, len)),
        frames_unused(t.memory_set@, mmap_free(free, len)),
    ensures
        frames_wf(ts.update(c, t), mmap_free(free, len)),
{
    let us = ts.update(c, t);
    let rest = mmap_free(free, len);
    let first = start / PAGE_SIZE;
    let top = free.len() - 1;
    assert forall|k: int| 0 <= k < rest.len() implies rest[k] == free[k] && free.contains(
        #[trigger] rest[k],
    ) by {}
    assert forall|i: int| 0 <= i < us.len() implies frames_unused(
        (#[trigger] us[i]).memory_set@,
        rest,
    ) by {
        if i != c {
            let pages = ts[i].memory_set@;
            assert(frames_unused(pages, free));
            assert forall|v: usize| #[trigger] pages.contains_key(v) implies !rest.contains(
                pages[v].ppn,
            ) by {
                if rest.contains(pages[v].ppn) {
                    let k = choose|k: int| 0 <= k < rest.len() && rest[k] == pages[v].ppn;
                    assert(free.contains(rest[k]));
                }
            }
        }
    }
    assert forall|i: int, j: int, v: usize, w: usize|
        #![trigger us[i].memory_set@[v], us[j].memory_set@[w]]
        0 <= i < us.len() && 0 <= j < us.len() && i != j && us[i].memory_set@.contains_key(v)
            && us[j].memory_set@.contains_key(w) implies us[i].memory_set@[v].ppn
        != us[j].memory_set@[w].ppn by {
        if i == c {
            lemma_new_page_on_free_frame(ts, free, c, t, start, len, port, v, j, w);
        } else if j == c {
            lemma_new_page_on_free_frame(ts, free, c, t, start, len, port, w, i, v);
        } else {
            assert(ts[i].memory_set@[v].ppn != ts[j].memory_set@[w].ppn);
        }
    }
}

/// After a granted request to map pages into task `c`, a page `v` of task
/// `c` and a page `w` of another task `j` lie on different frames.
pub proof fn lemma_new_page_on_free_frame(
    ts: Seq<TaskControlBlock>,
    free: Seq<usize>,
    c: int,
    t: TaskControlBlock,
    start: usize,
    len: usize,
    port: usize,
    v: usize,
    j: int,
    w: usize,
)
    requires
        frames_wf(ts, free),
        0 <= c < ts.len(),
        0 <= j < ts.len(),
        j != c,
        mmap_accepts(ts[c].memory_set@, free, start, len, port),
        t.memory_set@ == mmap_pages(ts[c].memory_set@, free, start, len, port),
        t.memory_set@.contains_key(v),
        ts[j].memory_set@.contains_key(w),
    ensures
        t.memory_set@[v].ppn != ts[j].memory_set@[w].ppn,
{
    if in_region(v, start, len) {
        lemma_region_pages(v, start, len);
        let k = free.len() - 1 - (v - start / PAGE_SIZE);
        assert(0 <= k < free.len());
        assert(free.contains(free[k]));
        assert(frames_unused(ts[j].memory_set@, free));
    } else {
        assert(ts[c].memory_set@[v].ppn != ts[j].memory_set@[w].ppn);
    }
}

/// A granted request to unmap pages of task `c` keeps the frames' invariant:
/// the frames given back were those of task `c` alone.
pub proof fn lemma_munmap_keeps_frames(
    ts: Seq<TaskControlBlock>,
    free: Seq<usize>,
    c: int,
    t: TaskControlBlock,
    start: usize,
    len: usize,
)
    requires
        frames_wf(ts, free),
        0 <= c < ts.len(),
        munmap_accepts(ts[c].memory_set@, start, len),
        t.memory_set@ == munmap_pages(ts[c].memory_set@, start, len),
        free_list_wf(munmap_free(ts[c].memory_set@, free, start, len)),
        frames_unused(t.memory_set@, munmap_free(ts[c].memory_set@, free, start, len)),
    ensures
        frames_wf(ts.update(c, t), munmap_free(ts[c].memory_set@, free, start, len)),
{
    let us = ts.update(c, t);
    let mine = ts[c].memory_set@;
    let rest = munmap_free(mine, free, start, len);
    let first = start / PAGE_SIZE;
    assert forall|k: int| 0 <= k < rest.len() implies (k < free.len() ==> #[trigger] rest[k]
        == free[k] && free.contains(free[k])) && (k >= free.len() ==> {
        let x = (first + (k - free.len())) as usize;
        mine.contains_key(x) && rest[k] == mine[x].ppn
    }) by {
        if k >= free.len() {
            let x = (first + (k - free.len())) as usize;
            lemma_region_pages(0, start, len);
            lemma_region_pages(x, start, len);
        }
    }
    assert forall|i: int| 0 <= i < us.len() implies frames_unused(
        (#[trigger] us[i]).memory_set@,
        rest,
    ) by {
        if i != c {
            let pages = ts[i].memory_set@;
            assert(frames_unused(pages, free));
            assert forall|v: usize| #[trigger] pages.contains_key(v) implies !rest.contains(
                pages[v].ppn,
            ) by {
                if rest.contains(pages[v].ppn) {
                    let k = choose|k: int| 0 <= k < rest.len() && rest[k] == pages[v].ppn;
                    if k >= free.len() {
                        let x = (first + (k - free.len())) as usize;
                        assert(ts[i].memory_set@[v].ppn != ts[c].memory_set@[x].ppn);
                    } else {
                        assert(free.contains(free[k]));
                    }
                }
            }
        }
    }
    assert forall|i: int, j: int, v: usize, w: usize|
        #![trigger us[i].memory_set@[v], us[j].memory_set@[w]]
        0 <= i < us.len() && 0 <= j < us.len() && i != j && us[i].memory_set@.contains_key(v)
            && us[j].memory_set@.contains_key(w) implies us[i].memory_set@[v].ppn
        != us[j].memory_set@[w].ppn by {
        assert(ts[i].memory_set@[v].ppn != ts[j].memory_set@[w].ppn);
    }
}

} // verus!
