//! System calls about tasks, time and memory.
//!
//! Each call works on the task manager, and on the physical memory where it
//! hands a record to the calling task. A record is stored only if the user
//! buffer lies on one page; a buffer that crosses a page boundary is
//! reported as a failure and nothing is stored.

use vstd::prelude::*;
use crate::config::MAX_SYSCALL_NUM;
use crate::mm::memory_set::{MemorySet, PageEntry};
use crate::mm::page_table::{
    first_page,
    last_page,
    lemma_windows_cover_range,
    range_accessible,
    translated_byte_buffer,
    window_addrs,
    windows_of,
    Access,
};
use crate::mm::phys_mem::{scatter, windows_fit, write_windows};
use crate::task::manager::{
    mmap_outcome,
    munmap_outcome,
    none_ready,
    switched,
    with_status,
    SchedError,
    Switch,
    TaskManager,
};
use crate::task::task::TaskStatus;
use crate::task::{
    exit_current_and_run_next,
    get_task_info_inner,
    suspend_current_and_run_next,
    sys_mmap_inner,
    sys_munmap_inner,
};

verus! {

/// Size in bytes of a time record in user memory.
pub const TIME_VAL_SIZE: usize = 16;

/// Size in bytes of a task-info record in user memory.
pub const TASK_INFO_SIZE: usize = 2016;

/// A point in time: whole seconds and the microseconds within the second.
#[derive(Clone, Copy, PartialEq, Eq, Structural, Debug)]
pub struct TimeVal {
    pub sec: usize,
    pub usec: usize,
}

/// What a task is told about itself.
#[derive(Clone, Copy, Debug)]
pub struct TaskInfo {
    /// The task's status.
    pub status: TaskStatus,
    /// How often the task has made each syscall.
    pub syscall_times: [u32; MAX_SYSCALL_NUM],
    /// Milliseconds since the task first ran.
    pub time: usize,
}

/// The `n` low bytes of `x`, lowest first.
pub open spec fn le_bytes(x: nat, n: nat) -> Seq<u8>
    decreases n,
{
    if n == 0 {
        Seq::empty()
    } else {
        seq![(x % 256) as u8] + le_bytes(x / 256, (n - 1) as nat)
    }
}

/// The number under which a status is reported.
pub open spec fn status_code(status: TaskStatus) -> nat {
    match status {
        TaskStatus::UnInit => 0,
        TaskStatus::Ready => 1,
        TaskStatus::Running => 2,
        TaskStatus::Exited => 3,
    }
}

/// The bytes of the first `k` syscall counts, four bytes each.
pub open spec fn counts_bytes(counts: Seq<u32>, k: nat) -> Seq<u8>
    decreases k,
{
    if k == 0 {
        Seq::empty()
    } else {
        counts_bytes(counts, (k - 1) as nat) + le_bytes(counts[k - 1] as nat, 4)
    }
}

/// `le_bytes` yields as many bytes as asked for.
pub proof fn lemma_le_bytes_len(x: nat, n: nat)
    ensures
        le_bytes(x, n).len() == n,
    decreases n,
{
    if n > 0 {
        lemma_le_bytes_len(x / 256, (n - 1) as nat);
    }
}

/// The first `k` counts take `4 * k` bytes.
pub proof fn lemma_counts_bytes_len(counts: Seq<u32>, k: nat)
    ensures
        counts_bytes(counts, k).len() == 4 * k,
    decreases k,
{
    if k > 0 {
        lemma_counts_bytes_len(counts, (k - 1) as nat);
        lemma_le_bytes_len(counts[k - 1] as nat, 4);
    }
}

/// Appends the `n` low bytes of `x` to `out`, lowest first.
pub fn push_le_bytes(out: &mut Vec<u8>, x: u64, n: usize)
    ensures
        final(out)@ == old(out)@ + le_bytes(x as nat, n as nat),
{
    let mut v: u64 = x;
    let mut i: usize = 0;
    proof {
        assert(old(out)@ + Seq::<u8>::empty() =~= old(out)@);
    }
    while i < n
        invariant
            i <= n,
            out@ + le_bytes(v as nat, (n - i) as nat) == old(out)@ + le_bytes(x as nat, n as nat),
        decreases n - i,
    {
        let ghost before = out@;
        let byte: u8 = (v % 256) as u8;
        out.push(byte);
        proof {
            let rest = le_bytes((v / 256) as nat, (n - i - 1) as nat);
            assert(le_bytes(v as nat, (n - i) as nat) == seq![byte] + rest);
            assert(before.push(byte) + rest =~= before + (seq![byte] + rest));
        }
        v = v / 256;
        i = i + 1;
    }
    proof {
        assert(out@ + Seq::<u8>::empty() =~= out@);
    }
}

impl TimeVal {
    /// The record as it lies in user memory: the seconds in eight bytes,
    /// then the microseconds in eight bytes, lowest byte first.
    pub open spec fn encoding(&self) -> Seq<u8> {
        le_bytes(self.sec as nat, 8) + le_bytes(self.usec as nat, 8)
    }

    /// The time `us` microseconds after boot.
    pub fn from_us(us: usize) -> (tv: TimeVal)
        ensures
            tv.sec == us / 1_000_000,
            tv.usec == us % 1_000_000,
    {
        TimeVal { sec: us / 1_000_000, usec: us % 1_000_000 }
    }

    /// The bytes of the record.
    pub fn encode(&self) -> (bytes: Vec<u8>)
        ensures
            bytes@ == self.encoding(),
            bytes@.len() == TIME_VAL_SIZE,
    {
        let mut out: Vec<u8> = Vec::new();
        push_le_bytes(&mut out, self.sec as u64, 8);
        push_le_bytes(&mut out, self.usec as u64, 8);
        proof {
            lemma_le_bytes_len(self.sec as nat, 8);
            lemma_le_bytes_len(self.usec as nat, 8);
            assert(out@ =~= self.encoding());
        }
        out
    }
}

impl TaskInfo {
    /// The record as it lies in user memory: the status code in eight
    /// bytes, each syscall count in four bytes, and the running time in
    /// eight bytes, lowest byte first.
    pub open spec fn encoding(&self) -> Seq<u8> {
        le_bytes(status_code(self.status), 8) + counts_bytes(
            self.syscall_times@,
            MAX_SYSCALL_NUM as nat,
        ) + le_bytes(self.time as nat, 8)
    }

    /// The bytes of the record.
    pub fn encode(&self) -> (bytes: Vec<u8>)
        ensures
            bytes@ == self.encoding(),
            bytes@.len() == TASK_INFO_SIZE,
    {
        let code: u64 = match self.status {
            TaskStatus::UnInit => 0,
            TaskStatus::Ready => 1,
            TaskStatus::Running => 2,
            TaskStatus::Exited => 3,
        };
        let mut out: Vec<u8> = Vec::new();
        push_le_bytes(&mut out, code, 8);
        let ghost head = out@;
        proof {
            assert(head =~= le_bytes(status_code(self.status), 8));
        }
        let mut k: usize = 0;
        while k < MAX_SYSCALL_NUM
            invariant
                k <= MAX_SYSCALL_NUM,
                out@ == head + counts_bytes(self.syscall_times@, k as nat),
            decreases MAX_SYSCALL_NUM - k,
        {
            let ghost before = out@;
            push_le_bytes(&mut out, self.syscall_times[k] as u64, 4);
            k = k + 1;
            proof {
                let front = counts_bytes(self.syscall_times@, (k - 1) as nat);
                let item = le_bytes(self.syscall_times@[k - 1] as nat, 4);
                assert((head + front) + item =~= head + (front + item));
            }
        }
        push_le_bytes(&mut out, self.time as u64, 8);
        proof {
            lemma_le_bytes_len(status_code(self.status), 8);
            lemma_counts_bytes_len(self.syscall_times@, MAX_SYSCALL_NUM as nat);
            lemma_le_bytes_len(self.time as nat, 8);
        }
        out
    }
}

/// Whether a record of `len` bytes can be handed to the user buffer at `ptr`:
/// the buffer lies on one page, that page is mapped and may be written, and
/// its frame lies inside a physical memory of `size` bytes.
pub open spec fn record_deliverable(
    pages: Map<usize, PageEntry>,
    ptr: usize,
    len: usize,
    size: int,
) -> bool {
    &&& range_accessible(pages, ptr, len, Access::Write)
    &&& first_page(ptr) == last_page(ptr, len)
    &&& windows_fit(windows_of(pages, ptr, len), size)
}

/// Physical memory after a record was handed to the user buffer at `ptr`.
pub open spec fn record_delivered(
    pages: Map<usize, PageEntry>,
    mem: Seq<u8>,
    ptr: usize,
    record: Seq<u8>,
) -> Seq<u8> {
    scatter(mem, window_addrs(windows_of(pages, ptr, record.len() as usize)), record)
}

/// Stores `record` in the user buffer at `ptr` of the address space
/// `space`, if the buffer lies on one writable page. Returns 0 when the
/// record was stored and -1, with nothing stored, when it was not.
pub fn deliver_record(
    space: &MemorySet,
    mem: &mut Vec<u8>,
    ptr: usize,
    record: &Vec<u8>,
) -> (r: isize)
    requires
        space.wf(),
        record@.len() > 0,
    ensures
        r == 0 || r == -1,
        r == 0 <==> record_deliverable(space@, ptr, record@.len() as usize, old(mem)@.len() as int),
        r == 0 ==> final(mem)@ == record_delivered(space@, old(mem)@, ptr, record@),
        r == -1 ==> final(mem)@ == old(mem)@,
{
    let len: usize = record.len();
    match translated_byte_buffer(space, ptr, len, Access::Write) {
        Err(_) => -1,
        Ok(ws) => {
            proof {
                lemma_windows_cover_range(space@, ptr, len, Access::Write);
            }
            if ws.len() != 1 {
                return -1;
            }
            if write_windows(mem, &ws, record) {
                0
            } else {
                -1
            }
        },
    }
}

/// Ends the running task, which has handed in `exit_code`, and gives the CPU
/// to the next ready task at time `now`. Fails if no task is ready: then
/// every task has exited and the kernel has nothing left to run.
pub fn sys_exit(tm: &mut TaskManager, exit_code: i32, now: usize) -> (r: Result<Switch, SchedError>)
    requires
        old(tm).wf(),
        old(tm).current_tcb().task_status == TaskStatus::Running,
    ensures
        final(tm).wf(),
        final(tm).free_frames() == old(tm).free_frames(),
        r is Err <==> none_ready(
            with_status(old(tm).tasks(), old(tm).current(), TaskStatus::Exited),
        ),
        r matches Err(e) ==> {
            &&& e == SchedError::AllTasksCompleted
            &&& final(tm).current() == old(tm).current()
            &&& final(tm).tasks() == with_status(
                old(tm).tasks(),
                old(tm).current(),
                TaskStatus::Exited,
            )
        },
        r matches Ok(sw) ==> sw.to != old(tm).current() && switched(
            with_status(old(tm).tasks(), old(tm).current(), TaskStatus::Exited),
            old(tm).current(),
            now,
            *final(tm),
            sw,
        ),
{
    exit_current_and_run_next(tm, now)
}

/// The running task gives up the CPU: it stays ready and the next ready
/// task runs from time `now` on. Returns 0 and the switch to perform.
pub fn sys_yield(tm: &mut TaskManager, now: usize) -> (r: (isize, Switch))
    requires
        old(tm).wf(),
        old(tm).current_tcb().task_status == TaskStatus::Running,
    ensures
        final(tm).wf(),
        final(tm).free_frames() == old(tm).free_frames(),
        r.0 == 0,
        switched(
            with_status(old(tm).tasks(), old(tm).current(), TaskStatus::Ready),
            old(tm).current(),
            now,
            *final(tm),
            r.1,
        ),
{
    let sw = suspend_current_and_run_next(tm, now);
    (0, sw)
}

/// Hands the time `now_us`, in microseconds since boot, to the current task
/// as a time record in its buffer at `ts`. Returns 0 when the record was
/// stored and -1, with nothing stored, when the buffer is not on one mapped
/// and writable page.
pub fn sys_get_time(
    tm: &TaskManager,
    mem: &mut Vec<u8>,
    ts: usize,
    _tz: usize,
    now_us: usize,
) -> (r: isize)
    requires
        tm.wf(),
    ensures
        r == 0 || r == -1,
        r == 0 <==> record_deliverable(
            tm.current_tcb().memory_set@,
            ts,
            TIME_VAL_SIZE,
            old(mem)@.len() as int,
        ),
        r == 0 ==> final(mem)@ == record_delivered(
            tm.current_tcb().memory_set@,
            old(mem)@,
            ts,
            (TimeVal { sec: now_us / 1_000_000, usec: now_us % 1_000_000 }).encoding(),
        ),
        r == -1 ==> final(mem)@ == old(mem)@,
{
    let record = TimeVal::from_us(now_us).encode();
    let current = tm.current_task();
    deliver_record(&tm.task(current).memory_set, mem, ts, &record)
}

/// Scheduling priorities are not supported: always -1.
pub fn sys_set_priority(_prio: isize) -> (r: isize)
    ensures
        r == -1,
{
    -1
}

/// Maps the bytes `[start, start + len)` into the current task's address
/// space with the permissions that `port` encodes. Returns 0 when the request
/// is granted and -1, with nothing changed, when it is not.
pub fn sys_mmap(tm: &mut TaskManager, start: usize, len: usize, port: usize) -> (r: isize)
    requires
        old(tm).wf(),
    ensures
        final(tm).wf(),
        mmap_outcome(*old(tm), *final(tm), old(tm).current(), start, len, port, r),
{
    sys_mmap_inner(tm, start, len, port)
}

/// Unmaps the bytes `[start, start + len)` from the current task's address
/// space. Returns 0 when the request is granted and -1, with nothing changed,
/// when it is not.
pub fn sys_munmap(tm: &mut TaskManager, start: usize, len: usize) -> (r: isize)
    requires
        old(tm).wf(),
    ensures
        final(tm).wf(),
        munmap_outcome(*old(tm), *final(tm), old(tm).current(), start, len, r),
{
    sys_munmap_inner(tm, start, len)
}

/// Hands the current task's status, syscall counts and running time at time
/// `now_ms` to it as a task-info record in its buffer at `ti`. Returns 0
/// when the record was stored and -1, with nothing stored, when the buffer is
/// not on one mapped and writable page.
pub fn sys_task_info(tm: &TaskManager, mem: &mut Vec<u8>, ti: usize, now_ms: usize) -> (r: isize)
    requires
        tm.wf(),
        now_ms >= tm.current_tcb().first_time,
    ensures
        r == 0 || r == -1,
        r == 0 <==> record_deliverable(
            tm.current_tcb().memory_set@,
            ti,
            TASK_INFO_SIZE,
            old(mem)@.len() as int,
        ),
        r == 0 ==> final(mem)@ == record_delivered(
            tm.current_tcb().memory_set@,
            old(mem)@,
            ti,
            (TaskInfo {
                status: tm.current_tcb().task_status,
                syscall_times: tm.current_tcb().syscall_times,
                time: (now_ms - tm.current_tcb().first_time) as usize,
            }).encoding(),
        ),
        r == -1 ==> final(mem)@ == old(mem)@,
{
    let record = get_task_info_inner(tm, now_ms).encode();
    let current = tm.current_task();
    deliver_record(&tm.task(current).memory_set, mem, ti, &record)
}

} // verus!
