use os4::config::{MAX_SYSCALL_NUM, PAGE_SIZE};
use os4::mm::page_table::{translated_byte_buffer, Access, Window};
use os4::mm::phys_mem::{read_windows, write_windows};
use os4::syscall::process::{
    deliver_record, push_le_bytes, sys_exit, sys_get_time, sys_mmap, sys_munmap,
    sys_set_priority, sys_task_info, sys_yield, TaskInfo, TimeVal, TASK_INFO_SIZE, TIME_VAL_SIZE,
};
use os4::task::manager::{SchedError, Switch, TaskManager};
use os4::task::task::TaskStatus;
use os4::task::{add_one_while_syscall, run_first_task, sys_mmap_inner, sys_munmap_inner};

const FRAMES: usize = 8;

fn started(n: usize) -> (TaskManager, Vec<u8>) {
    let tokens: Vec<usize> = (0..n).collect();
    let mut tm = TaskManager::new(&tokens, FRAMES);
    run_first_task(&mut tm, 0);
    (tm, vec![0u8; FRAMES * PAGE_SIZE])
}

fn word(bytes: &[u8]) -> u64 {
    let mut w = [0u8; 8];
    w.copy_from_slice(bytes);
    u64::from_le_bytes(w)
}

#[test]
fn little_endian_bytes() {
    let mut out = vec![0xaau8];
    push_le_bytes(&mut out, 0x0102_0304_0506_0708, 8);
    assert_eq!(out, vec![0xaa, 8, 7, 6, 5, 4, 3, 2, 1]);
    let mut short = Vec::new();
    push_le_bytes(&mut short, 0x1_0000_00ff, 4);
    assert_eq!(short, vec![0xff, 0, 0, 0]);
    push_le_bytes(&mut short, 5, 0);
    assert_eq!(short.len(), 4);
}

#[test]
fn time_record_splits_seconds_and_microseconds() {
    let tv = TimeVal::from_us(3_500_042);
    assert_eq!(tv, TimeVal { sec: 3, usec: 500_042 });
    assert_eq!(TimeVal::from_us(999_999), TimeVal { sec: 0, usec: 999_999 });
    assert_eq!(TimeVal::from_us(1_000_000), TimeVal { sec: 1, usec: 0 });
    let bytes = tv.encode();
    assert_eq!(bytes.len(), TIME_VAL_SIZE);
    assert_eq!(word(&bytes[..8]), 3);
    assert_eq!(word(&bytes[8..]), 500_042);
}

#[test]
fn task_info_record_layout() {
    let mut counts = [0u32; MAX_SYSCALL_NUM];
    counts[0] = 1;
    counts[7] = 0x0102_0304;
    counts[MAX_SYSCALL_NUM - 1] = u32::MAX;
    let info = TaskInfo { status: TaskStatus::Running, syscall_times: counts, time: 1234 };
    let bytes = info.encode();
    assert_eq!(bytes.len(), TASK_INFO_SIZE);
    assert_eq!(TASK_INFO_SIZE, 8 + 4 * MAX_SYSCALL_NUM + 8);
    assert_eq!(word(&bytes[..8]), 2);
    assert_eq!(&bytes[8..12], &[1, 0, 0, 0]);
    assert_eq!(&bytes[8 + 28..8 + 32], &[4, 3, 2, 1]);
    assert_eq!(&bytes[TASK_INFO_SIZE - 12..TASK_INFO_SIZE - 8], &[0xff; 4]);
    assert_eq!(word(&bytes[TASK_INFO_SIZE - 8..]), 1234);
    for (status, code) in [
        (TaskStatus::UnInit, 0u64),
        (TaskStatus::Ready, 1),
        (TaskStatus::Running, 2),
        (TaskStatus::Exited, 3),
    ] {
        let bytes = TaskInfo { status, syscall_times: counts, time: 0 }.encode();
        assert_eq!(word(&bytes[..8]), code);
    }
}

#[test]
fn yield_returns_zero_and_switches_to_the_next_task() {
    let (mut tm, _mem) = started(3);
    let (r, sw) = sys_yield(&mut tm, 10);
    assert_eq!(r, 0);
    assert_eq!(sw, Switch { from: Some(0), to: 1 });
    assert_eq!(tm.task(0).task_status, TaskStatus::Ready);
    assert_eq!(tm.task(1).task_status, TaskStatus::Running);
    assert_eq!(tm.task(1).first_time, 10);
}

#[test]
fn exit_marks_the_task_exited_and_schedules() {
    let (mut tm, _mem) = started(2);
    let sw = sys_exit(&mut tm, 0, 5).unwrap();
    assert_eq!(sw, Switch { from: Some(0), to: 1 });
    assert_eq!(tm.task(0).task_status, TaskStatus::Exited);
    assert_eq!(tm.task(1).task_status, TaskStatus::Running);
    // The exited task is never picked again.
    let (_, again) = sys_yield(&mut tm, 6);
    assert_eq!(again.to, 1);
    assert_eq!(tm.task(0).task_status, TaskStatus::Exited);
    assert_eq!(sys_exit(&mut tm, -1, 7), Err(SchedError::AllTasksCompleted));
    assert_eq!(tm.task(1).task_status, TaskStatus::Exited);
}

#[test]
fn set_priority_is_unsupported() {
    for prio in [isize::MIN, -1, 0, 1, 2, 16, isize::MAX] {
        assert_eq!(sys_set_priority(prio), -1);
    }
}

#[test]
fn mmap_and_munmap_work_on_the_current_task() {
    let (mut tm, _mem) = started(2);
    assert_eq!(sys_mmap(&mut tm, 0x1000_0000, 2 * PAGE_SIZE, 3), 0);
    assert_eq!(tm.task(0).memory_set.mapped_pages(), 2);
    assert_eq!(tm.task(1).memory_set.mapped_pages(), 0);
    assert_eq!(tm.free_frame_count(), FRAMES - 2);
    sys_yield(&mut tm, 1);
    // The same range is free in the other task's address space.
    assert_eq!(sys_munmap(&mut tm, 0x1000_0000, 2 * PAGE_SIZE), -1);
    assert_eq!(sys_mmap(&mut tm, 0x1000_0000, PAGE_SIZE, 1), 0);
    assert_eq!(tm.task(1).memory_set.translate(0x1_0000).unwrap().ppn, 2);
    assert_eq!(tm.task(0).memory_set.translate(0x1_0000).unwrap().ppn, 0);
    assert_eq!(tm.task(0).memory_set.translate(0x1_0001).unwrap().ppn, 1);
    sys_yield(&mut tm, 2);
    assert_eq!(sys_munmap(&mut tm, 0x1000_0000, 2 * PAGE_SIZE), 0);
    assert_eq!(tm.task(0).memory_set.mapped_pages(), 0);
    assert_eq!(tm.task(1).memory_set.mapped_pages(), 1);
    assert_eq!(tm.free_frame_count(), FRAMES - 1);
}

#[test]
fn mmap_validates_alignment_and_permissions() {
    let (mut tm, _mem) = started(1);
    assert_eq!(sys_mmap(&mut tm, 0x1000_0001, PAGE_SIZE, 3), -1);
    assert_eq!(sys_mmap(&mut tm, 0x1000_0000, PAGE_SIZE, 0), -1);
    assert_eq!(sys_mmap(&mut tm, 0x1000_0000, PAGE_SIZE, 8), -1);
    assert_eq!(sys_mmap_inner(&mut tm, 0x1000_0000, PAGE_SIZE, 0x17), -1);
    assert_eq!(sys_munmap(&mut tm, 0x1000_0001, PAGE_SIZE), -1);
    assert_eq!(sys_munmap_inner(&mut tm, 0x1000_0000, PAGE_SIZE), -1);
    assert_eq!(tm.task(0).memory_set.mapped_pages(), 0);
    assert_eq!(tm.free_frame_count(), FRAMES);
    assert_eq!(sys_mmap_inner(&mut tm, 0x1000_0000, PAGE_SIZE, 3), 0);
    assert_eq!(sys_mmap(&mut tm, 0x1000_0000, PAGE_SIZE, 3), -1);
    assert_eq!(sys_munmap_inner(&mut tm, 0x1000_0000, PAGE_SIZE), 0);
    assert_eq!(sys_mmap(&mut tm, 0x1000_0000, PAGE_SIZE, 3), 0);
}

#[test]
fn loader_can_map_pages_of_any_task() {
    let tokens = vec![1usize, 2, 3];
    let mut tm = TaskManager::new(&tokens, FRAMES);
    assert_eq!(tm.mmap_task(2, 0, PAGE_SIZE, 5), 0);
    assert_eq!(tm.mmap_task(1, 0, PAGE_SIZE, 5), 0);
    assert_eq!(tm.mmap_task(2, 0, PAGE_SIZE, 5), -1);
    assert!(tm.is_fresh());
    assert_eq!(tm.task(2).memory_set.translate(0).unwrap().ppn, 0);
    assert_eq!(tm.task(1).memory_set.translate(0).unwrap().ppn, 1);
    assert_eq!(tm.task(0).memory_set.translate(0), None);
    assert_eq!(tm.munmap_task(1, 0, PAGE_SIZE), 0);
    assert_eq!(tm.munmap_task(0, 0, PAGE_SIZE), -1);
    assert_eq!(tm.free_frame_count(), FRAMES - 1);
}

#[test]
fn get_time_stores_the_record_in_the_user_buffer() {
    let (mut tm, mut mem) = started(1);
    assert_eq!(sys_mmap(&mut tm, 4 * PAGE_SIZE, PAGE_SIZE, 3), 0);
    let ptr = 4 * PAGE_SIZE + 64;
    assert_eq!(sys_get_time(&tm, &mut mem, ptr, 0, 12_345_678), 0);
    // Page 4 lies on frame 0.
    assert_eq!(word(&mem[64..72]), 12);
    assert_eq!(word(&mem[72..80]), 345_678);
    assert_eq!(mem.iter().filter(|&&b| b != 0).count(), 1 + 3);
    let ws = translated_byte_buffer(&tm.task(0).memory_set, ptr, 16, Access::Read).unwrap();
    assert_eq!(read_windows(&mem, &ws), Some(TimeVal { sec: 12, usec: 345_678 }.encode()));
}

#[test]
fn get_time_at_the_end_of_a_page() {
    let (mut tm, mut mem) = started(1);
    assert_eq!(sys_mmap(&mut tm, 0, PAGE_SIZE, 3), 0);
    assert_eq!(sys_get_time(&tm, &mut mem, PAGE_SIZE - 16, 0, 2_000_001), 0);
    assert_eq!(word(&mem[PAGE_SIZE - 16..PAGE_SIZE - 8]), 2);
    assert_eq!(word(&mem[PAGE_SIZE - 8..PAGE_SIZE]), 1);
}

#[test]
fn get_time_fails_without_a_writable_mapping() {
    let (mut tm, mut mem) = started(1);
    assert_eq!(sys_get_time(&tm, &mut mem, 64, 0, 1), -1);
    assert_eq!(sys_mmap(&mut tm, 0, PAGE_SIZE, 1), 0);
    assert_eq!(sys_get_time(&tm, &mut mem, 64, 0, 1), -1);
    assert!(mem.iter().all(|&b| b == 0));
}

#[test]
fn get_time_fails_when_the_frame_is_outside_memory() {
    let (mut tm, _mem) = started(1);
    let mut small = vec![0u8; PAGE_SIZE];
    assert_eq!(sys_mmap(&mut tm, 0, 2 * PAGE_SIZE, 3), 0);
    assert_eq!(sys_get_time(&tm, &mut small, 0, 0, 1_000_000), 0);
    assert_eq!(word(&small[..8]), 1);
    // Page 1 lies on frame 1, which this memory does not have.
    assert_eq!(sys_get_time(&tm, &mut small, PAGE_SIZE, 0, 5), -1);
    assert_eq!(word(&small[..8]), 1);
}

#[test]
fn time_record_across_a_page_boundary() {
    let (mut tm, mut mem) = started(1);
    // Pages 0 and 1 lie on the frames 1 and 2.
    assert_eq!(sys_mmap(&mut tm, 7 * PAGE_SIZE, PAGE_SIZE, 3), 0);
    assert_eq!(sys_mmap(&mut tm, 0, 2 * PAGE_SIZE, 3), 0);
    let ptr = PAGE_SIZE - 4;
    let space = &tm.task(0).memory_set;
    let ws = translated_byte_buffer(space, ptr, TIME_VAL_SIZE, Access::Write).unwrap();
    assert_eq!(
        ws,
        vec![
            Window { start: 2 * PAGE_SIZE - 4, len: 4 },
            Window { start: 2 * PAGE_SIZE, len: 12 },
        ]
    );
    // The call itself does not serve a buffer that is split: it reports the
    // failure and stores nothing.
    assert_eq!(sys_get_time(&tm, &mut mem, ptr, 0, 7_000_009), -1);
    assert!(mem.iter().all(|&b| b == 0));
    // Stored window by window, the record is found intact in raw memory.
    let record = TimeVal::from_us(7_000_009).encode();
    assert!(write_windows(&mut mem, &ws, &record));
    let raw = &mem[2 * PAGE_SIZE - 4..2 * PAGE_SIZE + 12];
    assert_eq!(raw, &record[..]);
    assert_eq!(word(&raw[..8]), 7);
    assert_eq!(word(&raw[8..]), 9);
    assert_eq!(read_windows(&mem, &ws), Some(record));
}

#[test]
fn record_is_not_delivered_to_a_split_buffer() {
    let (mut tm, mut mem) = started(1);
    assert_eq!(sys_mmap(&mut tm, 0, 2 * PAGE_SIZE, 3), 0);
    let record = vec![1u8, 2, 3, 4];
    let space = &tm.task(0).memory_set;
    assert_eq!(deliver_record(space, &mut mem, PAGE_SIZE - 3, &record), -1);
    assert!(mem.iter().all(|&b| b == 0));
    assert_eq!(deliver_record(space, &mut mem, PAGE_SIZE - 4, &record), 0);
    assert_eq!(&mem[PAGE_SIZE - 4..PAGE_SIZE], &[1, 2, 3, 4]);
    assert_eq!(deliver_record(space, &mut mem, PAGE_SIZE, &record), 0);
    assert_eq!(&mem[PAGE_SIZE..PAGE_SIZE + 4], &[1, 2, 3, 4]);
}

#[test]
fn task_info_stores_the_record_in_the_user_buffer() {
    let (mut tm, mut mem) = started(2);
    sys_yield(&mut tm, 100);
    assert_eq!(tm.current_task(), 1);
    add_one_while_syscall(&mut tm, 124);
    add_one_while_syscall(&mut tm, 410);
    add_one_while_syscall(&mut tm, 410);
    assert_eq!(sys_mmap(&mut tm, 0x4000, PAGE_SIZE, 2), 0);
    assert_eq!(sys_task_info(&tm, &mut mem, 0x4000 + 8, 175), 0);
    let raw = &mem[8..8 + TASK_INFO_SIZE];
    assert_eq!(word(&raw[..8]), 2);
    assert_eq!(&raw[8 + 4 * 124..8 + 4 * 125], &[1, 0, 0, 0]);
    assert_eq!(&raw[8 + 4 * 410..8 + 4 * 411], &[2, 0, 0, 0]);
    assert_eq!(word(&raw[TASK_INFO_SIZE - 8..]), 75);
    assert_eq!(raw.iter().filter(|&&b| b != 0).count(), 4);
    assert!(mem[..8].iter().all(|&b| b == 0));
    assert!(mem[8 + TASK_INFO_SIZE..].iter().all(|&b| b == 0));
}

#[test]
fn task_info_fails_on_a_split_or_unmapped_buffer() {
    let (mut tm, mut mem) = started(1);
    assert_eq!(sys_task_info(&tm, &mut mem, 0, 10), -1);
    assert_eq!(sys_mmap(&mut tm, 0, 2 * PAGE_SIZE, 3), 0);
    assert_eq!(sys_task_info(&tm, &mut mem, PAGE_SIZE - TASK_INFO_SIZE + 1, 10), -1);
    assert!(mem.iter().all(|&b| b == 0));
    assert_eq!(sys_task_info(&tm, &mut mem, PAGE_SIZE - TASK_INFO_SIZE, 10), 0);
    assert_eq!(word(&mem[PAGE_SIZE - 8..PAGE_SIZE]), 10);
}
