use oscore::syscall::{sys_exit, sys_set_priority, sys_yield};
use oscore::task::{TaskManager, TaskStatus};

fn boot(n: usize) -> TaskManager {
    let sizes: Vec<usize> = vec![100; n];
    TaskManager::new(&sizes)
}

#[test]
fn first_task_is_task_zero() {
    let mut tm = boot(3);
    tm.set_time_us(5);
    let first = tm.run_first_task();
    assert_eq!(first, 0);
    assert_eq!(tm.current_task, 0);
    assert!(matches!(tm.tasks[0].task_status, TaskStatus::Running));
    assert_eq!(tm.tasks[0].start_time, 5);
    assert!(matches!(tm.tasks[1].task_status, TaskStatus::Ready));
    assert!(matches!(tm.tasks[2].task_status, TaskStatus::Ready));
}

#[test]
fn start_time_set_exactly_once() {
    let mut tm = boot(2);
    tm.set_time_us(10);
    tm.run_first_task();
    assert_eq!(tm.tasks[0].start_time, 10);
    tm.set_time_us(20);
    sys_yield(&mut tm); // task 1 starts at 20
    assert_eq!(tm.tasks[1].start_time, 20);
    tm.set_time_us(30);
    sys_yield(&mut tm); // back to task 0
    assert_eq!(tm.current_task, 0);
    assert_eq!(tm.tasks[0].start_time, 10); // not reset on re-entry
    assert_eq!(tm.tasks[1].start_time, 20);
}

#[test]
fn round_robin_picks_lowest_index_after_current() {
    let mut tm = boot(4);
    tm.run_first_task(); // 0 Running
    sys_yield(&mut tm); // 1 Running
    sys_yield(&mut tm); // 2 Running
    sys_yield(&mut tm); // 3 Running
    let r = sys_exit(&mut tm, 0); // 3 Exited, wraps to 0
    assert_eq!(r, Some(0));
    sys_yield(&mut tm); // 0 Ready, 1 Running
    // Now statuses are [Ready, Running, Ready, Exited] with current = 1.
    assert!(matches!(tm.tasks[0].task_status, TaskStatus::Ready));
    assert!(matches!(tm.tasks[1].task_status, TaskStatus::Running));
    assert!(matches!(tm.tasks[2].task_status, TaskStatus::Ready));
    assert!(matches!(tm.tasks[3].task_status, TaskStatus::Exited));
    assert_eq!(tm.current_task, 1);
    // The next pick must be index 2, not index 0.
    sys_yield(&mut tm);
    assert_eq!(tm.current_task, 2);
}

#[test]
fn exited_task_is_never_selected_again() {
    let mut tm = boot(3);
    tm.run_first_task();
    sys_yield(&mut tm); // current 1
    let r = sys_exit(&mut tm, 7); // 1 Exited
    assert!(r.is_some());
    for _ in 0..6 {
        sys_yield(&mut tm);
        assert_ne!(tm.current_task, 1);
        assert!(matches!(tm.tasks[1].task_status, TaskStatus::Exited));
    }
}

#[test]
fn halts_when_all_tasks_exited() {
    let mut tm = boot(2);
    tm.run_first_task();
    let r = sys_exit(&mut tm, 0); // 0 Exited, 1 runs
    assert_eq!(r, Some(1));
    let r = sys_exit(&mut tm, 0); // 1 Exited, nothing ready: halt
    assert_eq!(r, None);
    assert!(matches!(tm.tasks[0].task_status, TaskStatus::Exited));
    assert!(matches!(tm.tasks[1].task_status, TaskStatus::Exited));
}

#[test]
fn single_task_yields_to_itself() {
    let mut tm = boot(1);
    tm.run_first_task();
    sys_yield(&mut tm);
    assert_eq!(tm.current_task, 0);
    assert!(matches!(tm.tasks[0].task_status, TaskStatus::Running));
}

#[test]
fn set_priority_is_disabled() {
    assert_eq!(sys_set_priority(10), -1);
}

#[test]
fn current_accessors_follow_scheduler() {
    let mut tm = boot(3);
    tm.run_first_task();
    assert_eq!(tm.current_user_token(), 0);
    sys_yield(&mut tm);
    assert_eq!(tm.current_user_token(), 1);
    assert_eq!(tm.current_trap_cx(), tm.tasks[1].trap_cx_ppn);
}
