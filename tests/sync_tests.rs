use ksync::ledger::Ledger;
use ksync::process::{sys_sleep, Action, Outcome, Process, INVALID, WOULD_DEADLOCK};
use ksync::sync::{Acquire, Condvar, Mutex, Semaphore};

fn ret(v: isize) -> Outcome {
    Outcome { action: Action::Return(v), wake: None }
}

fn process_with_threads(n: usize) -> Process {
    let mut p = Process::new();
    for i in 0..n {
        assert_eq!(p.add_thread(), i);
    }
    p
}

#[test]
fn check_rejects_two_thread_cycle() {
    // A holds R1 and needs R2; B holds R2 and needs R1.
    let l = Ledger {
        available: vec![0, 0],
        allocation: vec![vec![1, 0], vec![0, 1]],
        need: vec![vec![0, 1], vec![1, 0]],
    };
    assert!(!l.check());
}

#[test]
fn check_accepts_state_with_completion_order() {
    // B can finish first and hand R2 to A.
    let l = Ledger {
        available: vec![0, 0],
        allocation: vec![vec![1, 0], vec![0, 1]],
        need: vec![vec![0, 1], vec![0, 0]],
    };
    assert!(l.check());
}

#[test]
fn check_needs_the_right_order() {
    // Only the order 2, 1, 0 completes.
    let l = Ledger {
        available: vec![1],
        allocation: vec![vec![0], vec![2], vec![1]],
        need: vec![vec![4], vec![2], vec![1]],
    };
    assert!(l.check());
    let l2 = Ledger {
        available: vec![0],
        allocation: vec![vec![0], vec![2], vec![1]],
        need: vec![vec![4], vec![2], vec![2]],
    };
    assert!(!l2.check());
}

#[test]
fn check_on_empty_ledger_is_safe() {
    assert!(Ledger::new().check());
    let mut l = Ledger::new();
    l.add_thread();
    l.add_thread();
    assert!(l.check());
}

#[test]
fn check_with_saturated_counts() {
    let l = Ledger {
        available: vec![usize::MAX],
        allocation: vec![vec![usize::MAX], vec![0]],
        need: vec![vec![usize::MAX], vec![usize::MAX]],
    };
    assert!(l.check());
}

#[test]
fn ledger_grant_and_release() {
    let mut l = Ledger::new();
    let t = l.add_thread();
    l.register_resource(0, 3);
    l.request(t, 0);
    assert_eq!(l.need[t][0], 1);
    l.commit_grant(t, 0);
    assert_eq!((l.available[0], l.need[t][0], l.allocation[t][0]), (2, 0, 1));
    l.commit_release(t, 0);
    assert_eq!((l.available[0], l.need[t][0], l.allocation[t][0]), (3, 0, 0));
    l.request(t, 0);
    l.withdraw(t, 0);
    assert_eq!(l.need[t][0], 0);
}

#[test]
fn new_resource_column_reaches_every_thread() {
    let mut l = Ledger::new();
    l.add_thread();
    l.add_thread();
    l.register_resource(0, 5);
    l.register_resource(1, 2);
    assert_eq!(l.available, vec![5, 2]);
    assert_eq!(l.allocation, vec![vec![0, 0], vec![0, 0]]);
    assert_eq!(l.need, vec![vec![0, 0], vec![0, 0]]);
    let t = l.add_thread();
    assert_eq!(t, 2);
    assert_eq!(l.allocation[2], vec![0, 0]);
    assert_eq!(l.need[2], vec![0, 0]);
}

#[test]
fn conservation_mutex_lock_unlock() {
    let mut p = process_with_threads(2);
    let m = p.sys_mutex_create(true) as usize;
    let before = p.mutex_detection.available[m];
    for _ in 0..3 {
        assert_eq!(p.sys_mutex_lock(0, m), ret(0));
        assert_eq!(p.sys_mutex_unlock(0, m), ret(0));
        assert_eq!(p.sys_mutex_lock(1, m), ret(0));
        assert_eq!(p.sys_mutex_unlock(1, m), ret(0));
    }
    assert_eq!(p.mutex_detection.available[m], before);
    assert_eq!(p.mutex_detection.allocation, vec![vec![0], vec![0]]);
}

#[test]
fn conservation_semaphore_down_up() {
    let mut p = process_with_threads(3);
    let s = p.sys_semaphore_create(3) as usize;
    assert_eq!(p.sys_semaphore_down(0, s), ret(0));
    assert_eq!(p.sys_semaphore_down(1, s), ret(0));
    assert_eq!(p.sys_semaphore_down(2, s), ret(0));
    assert_eq!(p.semaphore_detection.available[s], 0);
    assert_eq!(p.sys_semaphore_up(1, s), ret(0));
    assert_eq!(p.sys_semaphore_up(0, s), ret(0));
    assert_eq!(p.sys_semaphore_up(2, s), ret(0));
    assert_eq!(p.semaphore_detection.available[s], 3);
    assert_eq!(p.semaphore_list[s].as_ref().unwrap().count, 3);
}

#[test]
fn condvar_signal_after_wait_is_not_lost() {
    let mut p = process_with_threads(2);
    let m = p.sys_mutex_create(true) as usize;
    let c = p.sys_condvar_create() as usize;
    assert_eq!(p.sys_mutex_lock(0, m), ret(0));
    assert_eq!(p.sys_condvar_wait(0, c, m), Outcome { action: Action::Block, wake: None });
    // The mutex was released in the same step.
    assert_eq!(p.sys_mutex_lock(1, m), ret(0));
    assert_eq!(p.sys_condvar_signal(c), Outcome { action: Action::Return(0), wake: Some(0) });
    // The woken thread contends for the mutex again and waits for it.
    assert_eq!(p.resume_condvar_wait(0, m), Outcome { action: Action::Block, wake: None });
    assert_eq!(p.sys_mutex_unlock(1, m), Outcome { action: Action::Return(0), wake: Some(0) });
    assert_eq!(p.resume_condvar_wait(0, m), ret(0));
}

#[test]
fn condvar_signal_without_waiter_wakes_nobody() {
    let mut c = Condvar::new();
    assert_eq!(c.signal(), None);
    let mut m = Mutex::new(true);
    assert_eq!(m.lock(4), Acquire::Acquired);
    assert_eq!(c.wait(4, &mut m), None);
    assert!(!m.locked);
    assert_eq!(c.signal(), Some(4));
    assert_eq!(c.signal(), None);
}

#[test]
fn unlock_wakes_exactly_one_waiter() {
    let mut p = process_with_threads(4);
    let m = p.sys_mutex_create(true) as usize;
    assert_eq!(p.sys_mutex_lock(0, m), ret(0));
    for t in 1..4 {
        assert_eq!(p.sys_mutex_lock(t, m), Outcome { action: Action::Block, wake: None });
    }
    assert_eq!(p.sys_mutex_unlock(0, m), Outcome { action: Action::Return(0), wake: Some(1) });
    let mx = p.mutex_list[m].as_ref().unwrap();
    assert_eq!(mx.waiters, vec![2, 3]);
    assert!(!mx.locked);
    // The woken thread has to take the mutex itself.
    assert_eq!(p.resume_mutex_lock(1, m), ret(0));
    assert_eq!(p.mutex_detection.allocation[1][m], 1);
}

#[test]
fn semaphore_up_wakes_exactly_one_waiter() {
    let mut s = Semaphore::new(0);
    assert_eq!(s.down(1), Acquire::Blocked);
    assert_eq!(s.down(2), Acquire::Blocked);
    assert_eq!(s.up(), Some(1));
    assert_eq!(s.waiters, vec![2]);
    assert_eq!(s.count, 0);
    assert_eq!(s.up(), Some(2));
    assert_eq!(s.up(), None);
    assert_eq!(s.count, 1);
}

#[test]
fn spin_mutex_makes_caller_retry() {
    let mut p = process_with_threads(2);
    let m = p.sys_mutex_create(false) as usize;
    assert_eq!(p.sys_mutex_lock(0, m), ret(0));
    assert_eq!(p.sys_mutex_lock(1, m), Outcome { action: Action::Yield, wake: None });
    assert_eq!(p.resume_mutex_lock(1, m), Outcome { action: Action::Yield, wake: None });
    assert_eq!(p.sys_mutex_unlock(0, m), ret(0));
    assert_eq!(p.resume_mutex_lock(1, m), ret(0));
    assert_eq!(p.mutex_detection.need[1][m], 0);
    assert_eq!(p.mutex_detection.allocation[1][m], 1);
}

#[test]
fn slot_reuse_takes_lowest_free_id() {
    let mut p = process_with_threads(2);
    assert_eq!(p.sys_semaphore_create(1), 0);
    assert_eq!(p.sys_semaphore_create(1), 1);
    assert_eq!(p.sys_semaphore_create(1), 2);
    assert_eq!(p.sys_semaphore_down(1, 1), ret(0));
    assert_eq!(p.semaphore_detection.allocation[1][1], 1);
    assert_eq!(p.free_semaphore(2), 0);
    assert_eq!(p.free_semaphore(1), 0);
    assert_eq!(p.free_semaphore(1), INVALID);
    assert_eq!(p.sys_semaphore_create(7), 1);
    assert_eq!(p.semaphore_detection.available[1], 7);
    assert_eq!(p.semaphore_detection.allocation[0][1], 0);
    assert_eq!(p.semaphore_detection.allocation[1][1], 0);
    assert_eq!(p.semaphore_detection.need[1][1], 0);
    assert_eq!(p.sys_semaphore_create(4), 2);
    assert_eq!(p.sys_semaphore_create(4), 3);
    assert_eq!(p.semaphore_list.len(), 4);
}

#[test]
fn mutex_and_condvar_slot_reuse() {
    let mut p = process_with_threads(1);
    assert_eq!(p.sys_mutex_create(true), 0);
    assert_eq!(p.sys_mutex_create(false), 1);
    assert_eq!(p.sys_mutex_lock(0, 0), ret(0));
    assert_eq!(p.free_mutex(0), 0);
    assert_eq!(p.mutex_detection.allocation[0][0], 0);
    assert_eq!(p.sys_mutex_create(false), 0);
    assert_eq!(p.mutex_detection.available[0], 1);
    assert!(!p.mutex_list[0].as_ref().unwrap().blocking);
    assert_eq!(p.sys_condvar_create(), 0);
    assert_eq!(p.sys_condvar_create(), 1);
    assert_eq!(p.free_condvar(0), 0);
    assert_eq!(p.free_condvar(0), INVALID);
    assert_eq!(p.sys_condvar_create(), 0);
}

#[test]
fn scenario_blocking_mutex_hand_over() {
    let mut p = process_with_threads(2);
    let (a, b) = (0, 1);
    let m = p.sys_mutex_create(true) as usize;
    assert_eq!(p.sys_mutex_lock(a, m), ret(0));
    assert_eq!(p.sys_mutex_lock(b, m), Outcome { action: Action::Block, wake: None });
    assert_eq!(p.sys_mutex_unlock(a, m), Outcome { action: Action::Return(0), wake: Some(b) });
    assert_eq!(p.resume_mutex_lock(b, m), ret(0));
    assert_eq!(p.sys_mutex_lock(a, m), Outcome { action: Action::Block, wake: None });
    assert_eq!(p.sys_mutex_unlock(b, m), Outcome { action: Action::Return(0), wake: Some(a) });
    assert_eq!(p.resume_mutex_lock(a, m), ret(0));
}

#[test]
fn scenario_detector_refuses_cycle() {
    let mut p = process_with_threads(2);
    let (a, b) = (0, 1);
    assert_eq!(p.sys_enable_deadlock_detect(1), 0);
    let r1 = p.sys_mutex_create(true) as usize;
    let r2 = p.sys_mutex_create(true) as usize;
    assert_eq!(p.sys_mutex_lock(a, r1), ret(0));
    assert_eq!(p.sys_mutex_lock(b, r2), ret(0));
    assert_eq!(p.sys_mutex_lock(a, r2), Outcome { action: Action::Block, wake: None });
    assert_eq!(p.sys_mutex_lock(b, r1), ret(WOULD_DEADLOCK));
    // The refused request is withdrawn.
    assert_eq!(p.mutex_detection.need[b][r1], 0);
    assert_eq!(p.mutex_detection.need[a][r2], 1);
    assert!(p.mutex_list[r1].as_ref().unwrap().waiters.is_empty());
}

#[test]
fn detector_refuses_semaphore_cycle() {
    let mut p = process_with_threads(2);
    assert_eq!(p.sys_enable_deadlock_detect(1), 0);
    let s1 = p.sys_semaphore_create(1) as usize;
    let s2 = p.sys_semaphore_create(1) as usize;
    assert_eq!(p.sys_semaphore_down(0, s1), ret(0));
    assert_eq!(p.sys_semaphore_down(1, s2), ret(0));
    assert_eq!(p.sys_semaphore_down(0, s2), Outcome { action: Action::Block, wake: None });
    assert_eq!(p.sys_semaphore_down(1, s1), ret(WOULD_DEADLOCK));
    assert_eq!(p.semaphore_detection.need[1][s1], 0);
}

#[test]
fn detection_off_lets_cycle_block() {
    let mut p = process_with_threads(2);
    let r1 = p.sys_mutex_create(true) as usize;
    let r2 = p.sys_mutex_create(true) as usize;
    assert_eq!(p.sys_mutex_lock(0, r1), ret(0));
    assert_eq!(p.sys_mutex_lock(1, r2), ret(0));
    assert_eq!(p.sys_mutex_lock(0, r2), Outcome { action: Action::Block, wake: None });
    assert_eq!(p.sys_mutex_lock(1, r1), Outcome { action: Action::Block, wake: None });
    assert_eq!(p.sys_enable_deadlock_detect(1), 0);
    assert_eq!(p.sys_enable_deadlock_detect(0), 0);
    assert!(!p.deadlock_detect);
}

#[test]
fn scenario_semaphore_down_waits_for_up() {
    let mut p = process_with_threads(2);
    let s = p.sys_semaphore_create(0) as usize;
    assert_eq!(p.sys_semaphore_down(0, s), Outcome { action: Action::Block, wake: None });
    assert_eq!(p.sys_semaphore_up(1, s), Outcome { action: Action::Return(0), wake: Some(0) });
    assert_eq!(p.resume_semaphore_down(0, s), ret(0));
    assert_eq!(p.semaphore_detection.allocation[0][s], 1);
    assert_eq!(p.semaphore_detection.need[0][s], 0);
    assert_eq!(p.semaphore_detection.available[s], 0);
}

#[test]
fn invalid_handles_are_refused() {
    let mut p = process_with_threads(1);
    assert_eq!(p.sys_mutex_lock(0, 0), ret(INVALID));
    assert_eq!(p.sys_mutex_unlock(0, 3), ret(INVALID));
    assert_eq!(p.resume_mutex_lock(0, 0), ret(INVALID));
    assert_eq!(p.sys_semaphore_down(0, 0), ret(INVALID));
    assert_eq!(p.sys_semaphore_up(0, 0), ret(INVALID));
    assert_eq!(p.resume_semaphore_down(0, 0), ret(INVALID));
    assert_eq!(p.sys_condvar_signal(0), ret(INVALID));
    let c = p.sys_condvar_create() as usize;
    assert_eq!(p.sys_condvar_wait(0, c, 0), ret(INVALID));
    assert_eq!(p.resume_condvar_wait(0, 0), ret(INVALID));
    assert_eq!(p.free_mutex(0), INVALID);
    let m = p.sys_mutex_create(true) as usize;
    assert_eq!(p.free_mutex(m), 0);
    assert_eq!(p.sys_mutex_lock(0, m), ret(INVALID));
}

#[test]
fn enable_detect_refuses_other_flags() {
    let mut p = Process::new();
    assert_eq!(p.sys_enable_deadlock_detect(2), INVALID);
    assert!(!p.deadlock_detect);
    assert_eq!(p.sys_enable_deadlock_detect(1), 0);
    assert!(p.deadlock_detect);
    assert_eq!(p.sys_enable_deadlock_detect(usize::MAX), INVALID);
    assert!(p.deadlock_detect);
}

#[test]
fn sleep_deadline() {
    assert_eq!(sys_sleep(1000, 250), 1250);
    assert_eq!(sys_sleep(0, 0), 0);
}

#[test]
fn semaphore_up_without_down_adds_a_unit() {
    let mut p = process_with_threads(1);
    let s = p.sys_semaphore_create(1) as usize;
    assert_eq!(p.sys_semaphore_up(0, s), ret(0));
    assert_eq!(p.semaphore_detection.available[s], 2);
    assert_eq!(p.semaphore_detection.allocation[0][s], 0);
    assert_eq!(p.semaphore_list[s].as_ref().unwrap().count, 2);
}
