use oscore::boundary::{translate_spanning, try_translate_contained};
use oscore::syscall::{
    sys_get_time, sys_mmap, sys_task_info, task_info_to_bytes, time_val_to_bytes, TaskInfo,
    TimeVal, TASK_INFO_SIZE, TIME_VAL_SIZE,
};
use oscore::task::{TaskManager, TaskStatus};
use oscore::PAGE_SIZE;

fn boot() -> TaskManager {
    let sizes: Vec<usize> = vec![100];
    let mut tm = TaskManager::new(&sizes);
    tm.run_first_task();
    tm
}

fn read_u64_le(bytes: &[u8]) -> u64 {
    let mut v: u64 = 0;
    for i in (0..8).rev() {
        v = (v << 8) | bytes[i] as u64;
    }
    v
}

#[test]
fn time_val_wire_format_is_little_endian() {
    let tv = TimeVal { sec: 1, usec: 0x0203 };
    let bytes = time_val_to_bytes(&tv);
    assert_eq!(bytes.len(), TIME_VAL_SIZE);
    assert_eq!(
        bytes,
        vec![1, 0, 0, 0, 0, 0, 0, 0, 0x03, 0x02, 0, 0, 0, 0, 0, 0]
    );
}

#[test]
fn task_info_empty_is_blank() {
    let ti = TaskInfo::empty();
    assert!(matches!(ti.status, TaskStatus::UnInit));
    assert_eq!(ti.syscall_times.len(), 500);
    assert!(ti.syscall_times.iter().all(|c| *c == 0));
    assert_eq!(ti.time, 0);
    assert_eq!(task_info_to_bytes(&ti).len(), TASK_INFO_SIZE);
}

#[test]
fn contained_path_only_within_one_page() {
    let tm = boot();
    let aspace = &tm.tasks[0].memory_set;
    // Entirely inside mapped page 0 of the image.
    let r = try_translate_contained(aspace, &tm.mem, 16, 16);
    assert_eq!(r, Some(16)); // the image page is backed by frame 0
    // Straddles the page boundary: the fast path refuses.
    assert_eq!(try_translate_contained(aspace, &tm.mem, PAGE_SIZE - 8, 16), None);
    // Unmapped page.
    assert_eq!(try_translate_contained(aspace, &tm.mem, 40 * PAGE_SIZE, 16), None);
}

#[test]
fn spanning_path_splits_at_page_boundary() {
    let mut tm = boot();
    assert_eq!(sys_mmap(&mut tm, 16 * PAGE_SIZE, 2 * PAGE_SIZE, 0b011), 0);
    let fb = tm.tasks[0].memory_set.regions[1].frame_base;
    let aspace = &tm.tasks[0].memory_set;
    let ptr = 17 * PAGE_SIZE - 8;
    let frags = translate_spanning(aspace, &tm.mem, ptr, 16);
    assert_eq!(frags.len(), 2);
    assert_eq!(frags[0].start, fb * PAGE_SIZE + PAGE_SIZE - 8);
    assert_eq!(frags[0].len, 8);
    assert_eq!(frags[1].start, (fb + 1) * PAGE_SIZE);
    assert_eq!(frags[1].len, 8);
}

#[test]
fn get_time_writes_seconds_and_microseconds() {
    let mut tm = boot();
    tm.set_time_us(3_234_567);
    let ts = 0x100; // inside the image page, backed by frame 0
    assert_eq!(sys_get_time(&mut tm, ts, 0), 0);
    let sec = read_u64_le(&tm.mem.bytes[ts..ts + 8]);
    let usec = read_u64_le(&tm.mem.bytes[ts + 8..ts + 16]);
    assert_eq!(sec, 3);
    assert_eq!(usec, 234_567);
}

#[test]
fn get_time_twice_is_non_decreasing() {
    let mut tm = boot();
    tm.set_time_us(1_500_000);
    let ts = 0x100;
    assert_eq!(sys_get_time(&mut tm, ts, 0), 0);
    let t1 = read_u64_le(&tm.mem.bytes[ts..ts + 8]) * 1_000_000
        + read_u64_le(&tm.mem.bytes[ts + 8..ts + 16]);
    tm.set_time_us(1_500_000); // the clock did not move
    assert_eq!(sys_get_time(&mut tm, ts, 0), 0);
    let t2 = read_u64_le(&tm.mem.bytes[ts..ts + 8]) * 1_000_000
        + read_u64_le(&tm.mem.bytes[ts + 8..ts + 16]);
    tm.set_time_us(2_750_001);
    assert_eq!(sys_get_time(&mut tm, ts, 0), 0);
    let t3 = read_u64_le(&tm.mem.bytes[ts..ts + 8]) * 1_000_000
        + read_u64_le(&tm.mem.bytes[ts + 8..ts + 16]);
    assert!(t1 <= t2 && t2 <= t3);
    assert_eq!(t3, 2_750_001);
}

#[test]
fn task_info_spanning_round_trip() {
    let mut tm = boot();
    // Map pages 16 and 17 through separate requests with another mapping
    // between them, so they are backed by frames that are not adjacent.
    assert_eq!(sys_mmap(&mut tm, 16 * PAGE_SIZE, PAGE_SIZE, 0b011), 0);
    assert_eq!(sys_mmap(&mut tm, 30 * PAGE_SIZE, PAGE_SIZE, 0b011), 0);
    assert_eq!(sys_mmap(&mut tm, 17 * PAGE_SIZE, PAGE_SIZE, 0b011), 0);
    let fb16 = tm.tasks[0].memory_set.regions[1].frame_base;
    let fb17 = tm.tasks[0].memory_set.regions[3].frame_base;
    assert!(fb17 != fb16 + 1);

    tm.set_time_us(42_000);
    tm.update_syscall_stats(64);
    tm.update_syscall_stats(64);
    tm.update_syscall_stats(169);

    // Place the record so that it straddles the two pages.
    let ti_ptr = 17 * PAGE_SIZE - 1000;
    assert_eq!(sys_task_info(&mut tm, ti_ptr), 0);

    // Gather the bytes back page by page from physical memory.
    let mut got: Vec<u8> = Vec::new();
    for i in 0..TASK_INFO_SIZE {
        let va = ti_ptr + i;
        let fb = if va / PAGE_SIZE == 16 { fb16 } else { fb17 };
        got.push(tm.mem.bytes[fb * PAGE_SIZE + va % PAGE_SIZE]);
    }

    let mut expected = TaskInfo::empty();
    expected.status = TaskStatus::Running;
    expected.syscall_times[64] = 2;
    expected.syscall_times[169] = 1;
    expected.time = 42; // (42_000 - 0) / 1000 milliseconds
    assert_eq!(got, task_info_to_bytes(&expected));
}

#[test]
fn get_current_task_info_snapshots_current() {
    let mut tm = boot();
    tm.set_time_us(5_000);
    tm.update_syscall_stats(93);
    let mut ti = TaskInfo::empty();
    assert_eq!(oscore::syscall::get_current_task_info(&tm, &mut ti), 0);
    assert!(matches!(ti.status, TaskStatus::Running));
    assert_eq!(ti.syscall_times[93], 1);
    assert_eq!(ti.syscall_times[94], 0);
    assert_eq!(ti.time, 5);
}
