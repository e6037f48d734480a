use deadlock_guard::process::{
    mutex_lock_acquired, sys_condvar_create, sys_condvar_signal, sys_condvar_wait,
    sys_enable_deadlock_detect, sys_mutex_create, sys_mutex_lock, sys_mutex_unlock,
    sys_semaphore_create, sys_semaphore_down, sys_semaphore_up, MutexKind, ProcessSync,
    DEADLOCK, INVALID_ARGUMENT,
};
use deadlock_guard::task::{find_next_task, sys_sleep, TaskStatus};

fn held(p: &ProcessSync, id: usize) -> i64 {
    p.mutex_acct.allocation[id].iter().sum()
}

fn sem_held(p: &ProcessSync, id: usize) -> i64 {
    p.semaphore_acct.allocation[id].iter().sum()
}

#[test]
fn circular_wait_is_denied() {
    let mut p = ProcessSync::new();
    assert_eq!(sys_enable_deadlock_detect(&mut p, 1), 0);
    let m0 = sys_mutex_create(&mut p, 2, true) as usize;
    let m1 = sys_mutex_create(&mut p, 2, true) as usize;
    assert_eq!((m0, m1), (0, 1));
    // thread A = 0 takes M0, thread B = 1 takes M1
    assert_eq!(sys_mutex_lock(&mut p, m0, 0, 2), 0);
    mutex_lock_acquired(&mut p, m0, 0);
    assert_eq!(sys_mutex_lock(&mut p, m1, 1, 2), 0);
    mutex_lock_acquired(&mut p, m1, 1);
    // A asks for M1: B is unobstructed, so A may block
    assert_eq!(sys_mutex_lock(&mut p, m1, 0, 2), 0);
    // B asks for M0: both obstructed
    assert_eq!(sys_mutex_lock(&mut p, m0, 1, 2), DEADLOCK);
    // the denied request stays recorded
    assert_eq!(p.mutex_acct.request[m0][1], 1);
    assert_eq!(p.mutex_acct.remain, vec![0, 0]);
}

#[test]
fn circular_wait_without_detection_never_denied() {
    let mut p = ProcessSync::new();
    let m0 = sys_mutex_create(&mut p, 2, false) as usize;
    let m1 = sys_mutex_create(&mut p, 2, false) as usize;
    assert_eq!(sys_mutex_lock(&mut p, m0, 0, 2), 0);
    mutex_lock_acquired(&mut p, m0, 0);
    assert_eq!(sys_mutex_lock(&mut p, m1, 1, 2), 0);
    mutex_lock_acquired(&mut p, m1, 1);
    assert_eq!(sys_mutex_lock(&mut p, m1, 0, 2), 0);
    assert_eq!(sys_mutex_lock(&mut p, m0, 1, 2), 0);
    assert_eq!(sys_enable_deadlock_detect(&mut p, 0), 0);
    assert_eq!(p.deadlock_detect, 0);
}

#[test]
fn single_mutex_second_locker_goes_to_the_primitive() {
    let mut p = ProcessSync::new();
    let m = sys_mutex_create(&mut p, 2, true) as usize;
    assert_eq!(p.mutex_list[m], Some(MutexKind::Blocking));
    assert_eq!(sys_mutex_lock(&mut p, m, 0, 2), 0);
    mutex_lock_acquired(&mut p, m, 0);
    assert_eq!(p.mutex_acct.remain[m], 0);
    // the second request is not denied: it blocks in the primitive
    assert_eq!(sys_mutex_lock(&mut p, m, 1, 2), 0);
    assert_eq!(p.mutex_acct.allocation[m][1], 0);
    assert_eq!(sys_mutex_unlock(&mut p, m, 0), 0);
    assert_eq!(p.mutex_acct.remain[m], 1);
    mutex_lock_acquired(&mut p, m, 1);
    assert_eq!(p.mutex_acct.allocation[m], vec![0, 1]);
    assert_eq!(p.mutex_acct.request[m], vec![0, 1]);
    assert_eq!(p.mutex_acct.remain[m], 0);
}

#[test]
fn invalid_enable_flag_keeps_previous_value() {
    let mut p = ProcessSync::new();
    assert_eq!(sys_enable_deadlock_detect(&mut p, 2), INVALID_ARGUMENT);
    assert_eq!(p.deadlock_detect, 0);
    assert_eq!(sys_enable_deadlock_detect(&mut p, 1), 0);
    assert_eq!(sys_enable_deadlock_detect(&mut p, 2), -1);
    assert_eq!(p.deadlock_detect, 1);
}

#[test]
fn deadlock_code_value() {
    assert_eq!(DEADLOCK, -0xDEAD);
    assert_eq!(DEADLOCK, -57005);
}

#[test]
fn mutex_slot_reuse_gives_same_id_and_zero_row() {
    let mut p = ProcessSync::new();
    let a = sys_mutex_create(&mut p, 2, true) as usize;
    let b = sys_mutex_create(&mut p, 2, false) as usize;
    assert_eq!((a, b), (0, 1));
    assert_eq!(sys_mutex_lock(&mut p, a, 1, 2), 0);
    mutex_lock_acquired(&mut p, a, 1);
    p.vacate_mutex(a);
    let c = sys_mutex_create(&mut p, 3, false) as usize;
    assert_eq!(c, a);
    assert_eq!(p.mutex_list.len(), 2);
    assert_eq!(p.mutex_list[c], Some(MutexKind::Spin));
    assert_eq!(p.mutex_acct.request[c], vec![0, 0, 0]);
    assert_eq!(p.mutex_acct.allocation[c], vec![0, 0, 0]);
    assert_eq!(p.mutex_acct.remain[c], 1);
    // with no empty slot a new one is appended
    assert_eq!(sys_mutex_create(&mut p, 3, true), 2);
}

#[test]
fn reuse_keeps_columns_past_thread_count() {
    let mut p = ProcessSync::new();
    let s = sys_semaphore_create(&mut p, 3, 2) as usize;
    assert_eq!(sys_semaphore_down(&mut p, s, 2, 3), 0);
    assert_eq!(p.semaphore_acct.request[s], vec![0, 0, 1]);
    p.vacate_semaphore(s);
    // fewer threads now: only the first two columns are reset
    assert_eq!(sys_semaphore_create(&mut p, 2, 5), s as isize);
    assert_eq!(p.semaphore_acct.request[s], vec![0, 0, 1]);
    assert_eq!(p.semaphore_acct.remain[s], 5);
    assert_eq!(p.semaphore_list[s], Some(5));
}

#[test]
fn semaphore_slot_reuse_appends_missing_columns() {
    let mut p = ProcessSync::new();
    let s = sys_semaphore_create(&mut p, 1, 3) as usize;
    assert_eq!(p.semaphore_acct.request[s], vec![0]);
    p.vacate_semaphore(s);
    assert_eq!(sys_semaphore_create(&mut p, 3, 1), s as isize);
    assert_eq!(p.semaphore_acct.request[s], vec![0, 0, 0]);
    assert_eq!(p.semaphore_acct.allocation[s], vec![0, 0, 0]);
}

#[test]
fn lock_grows_rows_to_thread_count() {
    let mut p = ProcessSync::new();
    let a = sys_mutex_create(&mut p, 1, true) as usize;
    let b = sys_mutex_create(&mut p, 1, true) as usize;
    assert_eq!(sys_mutex_lock(&mut p, b, 3, 4), 0);
    assert_eq!(p.mutex_acct.request[a], vec![0, 0, 0, 0]);
    assert_eq!(p.mutex_acct.request[b], vec![0, 0, 0, 1]);
    assert_eq!(p.mutex_acct.allocation[b], vec![0, 0, 0, 0]);
}

#[test]
fn capacity_is_conserved_through_balanced_use() {
    let mut p = ProcessSync::new();
    let m = sys_mutex_create(&mut p, 2, true) as usize;
    let s = sys_semaphore_create(&mut p, 2, 3) as usize;
    assert_eq!(sys_enable_deadlock_detect(&mut p, 1), 0);
    assert_eq!(sys_mutex_lock(&mut p, m, 1, 2), 0);
    mutex_lock_acquired(&mut p, m, 1);
    assert_eq!(p.mutex_acct.remain[m] + held(&p, m), 1);
    assert_eq!(sys_semaphore_down(&mut p, s, 0, 2), 0);
    assert_eq!(p.semaphore_acct.remain[s], 2);
    assert_eq!(p.semaphore_acct.remain[s] + sem_held(&p, s), 3);
    assert_eq!(sys_semaphore_up(&mut p, s, 0), 0);
    assert_eq!(p.semaphore_acct.remain[s], 3);
    assert_eq!(sys_mutex_unlock(&mut p, m, 1), 0);
    assert_eq!(p.mutex_acct.remain[m] + held(&p, m), 1);
    assert_eq!(p.mutex_acct.remain[m], 1);
}

#[test]
fn semaphore_down_precommits_only_for_slot_zero_with_detection() {
    let mut p = ProcessSync::new();
    let s = sys_semaphore_create(&mut p, 2, 2) as usize;
    assert_eq!(sys_semaphore_down(&mut p, s, 1, 2), 0);
    assert_eq!(sys_semaphore_down(&mut p, s, 0, 2), 0);
    assert_eq!(p.semaphore_acct.allocation[s], vec![0, 0]);
    assert_eq!(p.semaphore_acct.remain[s], 2);
    assert_eq!(sys_enable_deadlock_detect(&mut p, 1), 0);
    assert_eq!(sys_semaphore_down(&mut p, s, 1, 2), 0);
    assert_eq!(p.semaphore_acct.allocation[s], vec![0, 0]);
    assert_eq!(sys_semaphore_down(&mut p, s, 0, 2), 0);
    assert_eq!(p.semaphore_acct.allocation[s], vec![1, 0]);
    assert_eq!(p.semaphore_acct.request[s], vec![2, 2]);
    assert_eq!(p.semaphore_acct.remain[s], 1);
}

#[test]
fn four_semaphores_leave_slot_zero_out_of_the_check() {
    let mut p = ProcessSync::new();
    for _ in 0..3 {
        sys_semaphore_create(&mut p, 1, 1);
    }
    assert_eq!(sys_enable_deadlock_detect(&mut p, 1), 0);
    assert_eq!(sys_semaphore_down(&mut p, 0, 0, 1), 0);
    assert_eq!(p.semaphore_acct.remain[0], 0);
    let mut q = ProcessSync::new();
    for _ in 0..4 {
        sys_semaphore_create(&mut q, 1, 1);
    }
    assert_eq!(sys_enable_deadlock_detect(&mut q, 1), 0);
    assert_eq!(sys_semaphore_down(&mut q, 0, 0, 1), DEADLOCK);
    assert_eq!(q.semaphore_acct.request[0], vec![1]);
    assert_eq!(q.semaphore_acct.remain[0], 1);
}

#[test]
fn semaphore_down_denied_when_every_thread_obstructed() {
    let mut p = ProcessSync::new();
    let s = sys_semaphore_create(&mut p, 2, 0) as usize;
    assert_eq!(sys_enable_deadlock_detect(&mut p, 1), 0);
    assert_eq!(sys_semaphore_down(&mut p, s, 1, 2), 0);
    assert_eq!(sys_semaphore_down(&mut p, s, 0, 2), DEADLOCK);
}

#[test]
fn unbalanced_unlock_goes_negative() {
    let mut p = ProcessSync::new();
    let m = sys_mutex_create(&mut p, 1, true) as usize;
    assert_eq!(sys_mutex_unlock(&mut p, m, 0), 0);
    assert_eq!(p.mutex_acct.allocation[m], vec![-1]);
    assert_eq!(p.mutex_acct.request[m], vec![-1]);
    assert_eq!(p.mutex_acct.remain[m], 2);
}

#[test]
fn condvar_wait_passes_through_without_accounting() {
    let mut p = ProcessSync::new();
    assert_eq!(sys_enable_deadlock_detect(&mut p, 1), 0);
    let m = sys_mutex_create(&mut p, 2, true) as usize;
    let c = sys_condvar_create(&mut p) as usize;
    assert_eq!(c, 0);
    assert_eq!(sys_mutex_lock(&mut p, m, 0, 2), 0);
    mutex_lock_acquired(&mut p, m, 0);
    assert_eq!(sys_condvar_wait(&p, c, m), 0);
    // while thread 0 waits, thread 1 takes and gives back the mutex, then signals
    assert_eq!(sys_mutex_lock(&mut p, m, 1, 2), 0);
    assert_eq!(sys_condvar_signal(&p, c), 0);
    assert_eq!(p.mutex_acct.allocation[m], vec![1, 0]);
    p.vacate_condvar(c);
    assert_eq!(sys_condvar_create(&mut p), 0);
    assert_eq!(sys_condvar_create(&mut p), 1);
}

#[test]
fn sleep_deadline() {
    assert_eq!(sys_sleep(1000, 250), 1250);
    assert_eq!(sys_sleep(0, 0), 0);
    assert!(TaskStatus::Ready != TaskStatus::Running);
}

#[test]
fn next_task_round_robin() {
    let s = vec![TaskStatus::Ready, TaskStatus::Running, TaskStatus::Exited, TaskStatus::Ready];
    assert_eq!(find_next_task(&s, 1), Some(3));
    assert_eq!(find_next_task(&s, 3), Some(0));
    assert_eq!(find_next_task(&s, 0), Some(3));
    let only_current = vec![TaskStatus::Ready, TaskStatus::UnInit];
    assert_eq!(find_next_task(&only_current, 0), Some(0));
    let none = vec![TaskStatus::Running, TaskStatus::Exited];
    assert_eq!(find_next_task(&none, 0), None);
}
