use syscall::matrix::Matrix;
use syscall::step::Step;
use syscall::sync::{
    acquire_possible, check_deadlock_internal, mutex_lock_taken, request_possible,
    semaphore_down_taken, sys_condvar_create, sys_condvar_signal, sys_condvar_wait,
    sys_enable_deadlock_detect, sys_mutex_create, sys_mutex_lock, sys_mutex_unlock,
    sys_semaphore_create, sys_semaphore_down, sys_semaphore_up, sys_sleep, InTurn, MutexKind, Process,
    ResourceType, Semaphore, SyncRequest, DEADLOCK_RETURN,
};

fn table(rows: Vec<Vec<usize>>) -> Matrix {
    Matrix { rows }
}

/// A process with detection on and `mutexes` blocking mutexes.
fn detecting(threads: usize, mutexes: usize) -> Process {
    let mut process = Process::new(threads);
    for _ in 0..mutexes {
        sys_mutex_create(&mut process, true);
    }
    assert_eq!(sys_enable_deadlock_detect(&mut process, 1), 0);
    process
}

fn lock_of(mutex_id: usize) -> Step<SyncRequest> {
    Step::Perform(SyncRequest::Lock { mutex_id, kind: MutexKind::Blocking })
}

#[test]
fn sleep_sets_a_timer_and_then_blocks() {
    assert_eq!(
        sys_sleep(4, 1_000, 250),
        InTurn {
            first: SyncRequest::AddTimer { task: 4, expire_ms: 1_250 },
            second: SyncRequest::BlockCurrent,
            result: 0,
        }
    );
}

#[test]
fn mutexes_take_the_first_free_slot() {
    let mut process = Process::new(1);
    assert_eq!(sys_mutex_create(&mut process, false), 0);
    assert_eq!(sys_mutex_create(&mut process, true), 1);
    assert_eq!(process.mutex_list, vec![Some(MutexKind::Spin), Some(MutexKind::Blocking)]);
    process.mutex_list[0] = None;
    assert_eq!(sys_mutex_create(&mut process, true), 0);
    assert_eq!(process.mutex_list, vec![Some(MutexKind::Blocking), Some(MutexKind::Blocking)]);
}

#[test]
fn semaphores_record_their_counts() {
    let mut process = Process::new(1);
    assert_eq!(sys_semaphore_create(&mut process, 3), 0);
    assert_eq!(sys_semaphore_create(&mut process, 5), 1);
    assert_eq!(process.semaphore_res_counts, vec![3, 5]);
    process.semaphore_list[0] = None;
    assert_eq!(sys_semaphore_create(&mut process, 9), 0);
    assert_eq!(process.semaphore_res_counts, vec![9, 5]);
    assert_eq!(
        process.semaphore_list,
        vec![Some(Semaphore { res_count: 9 }), Some(Semaphore { res_count: 5 })]
    );
}

#[test]
fn missing_semaphore_counts_are_filled_with_zeros() {
    let mut process = Process::new(1);
    let other = Some(Semaphore { res_count: 1 });
    process.semaphore_list = vec![other, other, None, other];
    assert_eq!(sys_semaphore_create(&mut process, 4), 2);
    assert_eq!(process.semaphore_res_counts, vec![0, 0, 4]);
}

#[test]
fn condvars_take_the_first_free_slot() {
    let mut process = Process::new(1);
    assert_eq!(sys_condvar_create(&mut process), 0);
    assert_eq!(sys_condvar_create(&mut process), 1);
    process.condvar_list[0] = None;
    assert_eq!(sys_condvar_create(&mut process), 0);
    assert_eq!(process.condvar_list.len(), 2);
}

#[test]
fn condvar_calls_name_their_slots() {
    let mut process = Process::new(1);
    sys_condvar_create(&mut process);
    sys_mutex_create(&mut process, false);
    assert_eq!(
        sys_condvar_signal(&process, 0),
        Step::PerformThenReturn(SyncRequest::Signal { condvar_id: 0 }, 0)
    );
    assert_eq!(
        sys_condvar_wait(&process, 0, 0),
        Step::PerformThenReturn(
            SyncRequest::Wait { condvar_id: 0, mutex_id: 0, kind: MutexKind::Spin },
            0
        )
    );
}

#[test]
fn without_detection_nothing_is_recorded() {
    let mut process = Process::new(2);
    sys_mutex_create(&mut process, true);
    sys_semaphore_create(&mut process, 0);
    assert_eq!(sys_mutex_lock(&mut process, 0, 0), lock_of(0));
    assert_eq!(mutex_lock_taken(&mut process, 0, 0), 0);
    assert_eq!(sys_semaphore_down(&mut process, 1, 0), Step::Perform(SyncRequest::Down { sem_id: 0 }));
    assert_eq!(semaphore_down_taken(&mut process, 1, 0), 0);
    assert_eq!(
        sys_mutex_unlock(&mut process, 0, 0),
        Step::PerformThenReturn(
            SyncRequest::Unlock { mutex_id: 0, kind: MutexKind::Blocking },
            0
        )
    );
    assert_eq!(
        sys_semaphore_up(&mut process, 1, 0),
        Step::PerformThenReturn(SyncRequest::Up { sem_id: 0 }, 0)
    );
    assert!(process.allocation.rows.is_empty());
    assert!(process.need.rows.is_empty());
}

#[test]
fn detection_is_turned_on_and_off() {
    let mut process = Process::new(1);
    assert_eq!(sys_enable_deadlock_detect(&mut process, 1), 0);
    assert!(process.deadlock_detection_enabled);
    process.allocation = table(vec![vec![1]]);
    process.need = table(vec![vec![2]]);
    assert_eq!(sys_enable_deadlock_detect(&mut process, 2), -1);
    assert!(process.deadlock_detection_enabled);
    assert_eq!(sys_enable_deadlock_detect(&mut process, 1), 0);
    assert_eq!(process.allocation.rows, vec![vec![1]]);
    assert_eq!(sys_enable_deadlock_detect(&mut process, 0), 0);
    assert!(!process.deadlock_detection_enabled);
    assert!(process.allocation.rows.is_empty());
    assert!(process.need.rows.is_empty());
}

#[test]
fn deadlock_of_two_threads_is_refused() {
    let mut process = detecting(2, 2);
    process.allocation = table(vec![vec![1, 0], vec![0, 1]]);
    process.need = table(vec![vec![0, 1], vec![0, 0]]);
    assert_eq!(DEADLOCK_RETURN, -57005);
    assert_eq!(sys_mutex_lock(&mut process, 1, 0), Step::Return(-57005));
    assert_eq!(process.allocation.rows, vec![vec![1, 0], vec![0, 1]]);
    assert_eq!(process.need.rows, vec![vec![0, 1], vec![0, 0]]);
}

#[test]
fn waiting_for_a_thread_that_can_finish_is_granted() {
    let mut process = detecting(2, 2);
    process.allocation = table(vec![vec![1, 0], vec![0, 1]]);
    assert_eq!(sys_mutex_lock(&mut process, 1, 0), lock_of(0));
    assert_eq!(process.need.rows, vec![vec![0, 0], vec![1, 0]]);
    assert_eq!(process.allocation.rows, vec![vec![1, 0], vec![0, 1]]);
}

#[test]
fn locking_a_mutex_twice_is_refused() {
    let mut process = detecting(1, 1);
    process.allocation = table(vec![vec![1]]);
    assert_eq!(sys_mutex_lock(&mut process, 0, 0), Step::Return(DEADLOCK_RETURN));
}

#[test]
fn unheld_mutex_is_granted() {
    let mut process = detecting(1, 1);
    assert_eq!(sys_mutex_lock(&mut process, 0, 0), lock_of(0));
    assert_eq!(process.allocation.rows, vec![vec![0]]);
    assert_eq!(process.need.rows, vec![vec![1]]);
    assert_eq!(mutex_lock_taken(&mut process, 0, 0), 0);
    assert_eq!(process.allocation.rows, vec![vec![1]]);
    assert_eq!(process.need.rows, vec![vec![0]]);
    assert_eq!(sys_mutex_lock(&mut process, 0, 0), Step::Return(DEADLOCK_RETURN));
    sys_mutex_unlock(&mut process, 0, 0);
    assert_eq!(sys_mutex_lock(&mut process, 0, 0), lock_of(0));
}

#[test]
fn lone_thread_asking_for_a_free_mutex_is_safe() {
    let mut process = Process::new(1);
    sys_mutex_create(&mut process, true);
    process.allocation = table(vec![vec![0]]);
    process.need = table(vec![vec![1]]);
    assert!(check_deadlock_internal(&mut process, 0, 0, ResourceType::Mutex));
    assert_eq!(process.allocation.rows, vec![vec![0]]);
    assert_eq!(process.need.rows, vec![vec![1]]);
}

#[test]
fn two_threads_lock_in_opposite_orders() {
    let mut process = detecting(2, 2);
    assert_eq!(sys_mutex_lock(&mut process, 0, 0), lock_of(0));
    assert_eq!(mutex_lock_taken(&mut process, 0, 0), 0);
    assert_eq!(sys_mutex_lock(&mut process, 1, 1), lock_of(1));
    assert_eq!(mutex_lock_taken(&mut process, 1, 1), 0);
    assert_eq!(sys_mutex_lock(&mut process, 0, 1), lock_of(1));
    assert_eq!(sys_mutex_lock(&mut process, 1, 0), Step::Return(DEADLOCK_RETURN));
    sys_mutex_unlock(&mut process, 1, 1);
    assert_eq!(mutex_lock_taken(&mut process, 0, 1), 0);
    assert_eq!(process.allocation.rows, vec![vec![1, 1], vec![0, 0]]);
    assert_eq!(process.need.rows, vec![vec![0, 0], vec![0, 0]]);
}

#[test]
fn free_unit_that_another_thread_needs_first_is_refused() {
    let mut process = detecting(2, 2);
    process.allocation = table(vec![vec![0, 0], vec![0, 1]]);
    process.need = table(vec![vec![0, 1], vec![1, 0]]);
    assert_eq!(sys_mutex_lock(&mut process, 0, 0), Step::Return(DEADLOCK_RETURN));
    assert_eq!(process.allocation.rows, vec![vec![0, 0], vec![0, 1]]);
    assert_eq!(process.need.rows, vec![vec![0, 1], vec![1, 0]]);
}

#[test]
fn semaphore_is_granted_down_to_its_last_unit() {
    let mut process = detecting(1, 0);
    sys_semaphore_create(&mut process, 2);
    assert_eq!(sys_semaphore_down(&mut process, 0, 0), Step::Perform(SyncRequest::Down { sem_id: 0 }));
    assert_eq!(process.need.rows, vec![vec![1]]);
    assert_eq!(semaphore_down_taken(&mut process, 0, 0), 0);
    assert_eq!(process.allocation.rows, vec![vec![1]]);
    assert_eq!(process.need.rows, vec![vec![0]]);
    assert_eq!(sys_semaphore_down(&mut process, 0, 0), Step::Perform(SyncRequest::Down { sem_id: 0 }));
    assert_eq!(semaphore_down_taken(&mut process, 0, 0), 0);
    assert_eq!(process.allocation.rows, vec![vec![2]]);
    assert_eq!(sys_semaphore_down(&mut process, 0, 0), Step::Return(DEADLOCK_RETURN));
}

#[test]
fn semaphores_come_behind_the_mutexes() {
    let mut process = detecting(1, 2);
    sys_semaphore_create(&mut process, 1);
    sys_semaphore_create(&mut process, 4);
    assert_eq!(sys_semaphore_down(&mut process, 0, 1), Step::Perform(SyncRequest::Down { sem_id: 1 }));
    assert_eq!(process.need.rows, vec![vec![0, 0, 0, 1]]);
    assert_eq!(semaphore_down_taken(&mut process, 0, 1), 0);
    assert_eq!(process.allocation.rows, vec![vec![0, 0, 0, 1]]);
    sys_semaphore_up(&mut process, 0, 1);
    assert_eq!(process.allocation.rows, vec![vec![0, 0, 0, 0]]);
}

#[test]
fn taking_and_giving_back_leaves_no_trace() {
    let mut process = detecting(2, 1);
    process.allocation = table(vec![vec![1], vec![0]]);
    process.need = table(vec![vec![0], vec![0]]);
    assert_eq!(sys_mutex_lock(&mut process, 1, 0), lock_of(0));
    sys_mutex_unlock(&mut process, 0, 0);
    assert_eq!(mutex_lock_taken(&mut process, 1, 0), 0);
    assert_eq!(process.allocation.rows, vec![vec![0], vec![1]]);
    sys_mutex_unlock(&mut process, 1, 0);
    assert_eq!(process.allocation.rows, vec![vec![0], vec![0]]);
    assert_eq!(process.need.rows, vec![vec![0], vec![0]]);
}

#[test]
fn giving_back_what_is_not_on_record_changes_nothing() {
    let mut process = detecting(2, 1);
    sys_mutex_unlock(&mut process, 1, 0);
    assert!(process.allocation.rows.is_empty());
    process.allocation = table(vec![vec![0], vec![]]);
    sys_mutex_unlock(&mut process, 0, 0);
    sys_mutex_unlock(&mut process, 1, 0);
    assert_eq!(process.allocation.rows, vec![vec![0], vec![]]);
}

#[test]
fn tables_grow_with_threads_and_resources() {
    let mut process = detecting(1, 1);
    process.allocation = table(vec![vec![1]]);
    process.thread_count = 3;
    sys_mutex_create(&mut process, true);
    assert_eq!(sys_mutex_lock(&mut process, 2, 0), lock_of(0));
    assert_eq!(process.allocation.rows, vec![vec![1, 0], vec![0, 0], vec![0, 0]]);
    assert_eq!(process.need.rows, vec![vec![0, 0], vec![0, 0], vec![1, 0]]);
}

#[test]
fn check_finds_an_order_that_is_not_by_number() {
    let mut process = Process::new(3);
    sys_semaphore_create(&mut process, 10);
    sys_semaphore_create(&mut process, 5);
    sys_semaphore_create(&mut process, 7);
    process.allocation = table(vec![vec![0, 1, 0], vec![2, 0, 0], vec![3, 0, 2]]);
    process.need = table(vec![vec![7, 4, 3], vec![1, 2, 2], vec![6, 0, 0]]);
    assert!(check_deadlock_internal(&mut process, 1, 0, ResourceType::Semaphore));
    assert_eq!(process.allocation.rows, vec![vec![0, 1, 0], vec![2, 0, 0], vec![3, 0, 2]]);
    process.need = table(vec![vec![7, 4, 3], vec![1, 6, 2], vec![6, 0, 0]]);
    assert!(!check_deadlock_internal(&mut process, 1, 0, ResourceType::Semaphore));
    assert_eq!(process.allocation.rows, vec![vec![0, 1, 0], vec![2, 0, 0], vec![3, 0, 2]]);
}

#[test]
fn semaphore_without_a_recorded_count_has_no_units() {
    let mut process = Process::new(1);
    sys_semaphore_create(&mut process, 9);
    process.semaphore_res_counts.clear();
    assert!(check_deadlock_internal(&mut process, 0, 0, ResourceType::Semaphore));
    process.need = table(vec![vec![1]]);
    assert!(!check_deadlock_internal(&mut process, 0, 0, ResourceType::Semaphore));
}

#[test]
fn request_needs_a_resource_and_room_to_count() {
    let mut process = detecting(1, 1);
    assert!(request_possible(&process, 0, 0));
    assert!(!request_possible(&process, 0, 1));
    assert!(!request_possible(&process, 1, 0));
    process.allocation = table(vec![vec![usize::MAX]]);
    assert!(!request_possible(&process, 0, 0));
    process.thread_count = 2;
    process.allocation = table(vec![vec![usize::MAX], vec![0]]);
    assert!(!request_possible(&process, 1, 0));
    process.allocation = table(vec![vec![usize::MAX - 1], vec![0]]);
    assert!(request_possible(&process, 1, 0));
    process.need = table(vec![vec![0], vec![usize::MAX]]);
    assert!(!request_possible(&process, 1, 0));
}

#[test]
fn acquiring_needs_rows_and_room_to_count() {
    let mut process = detecting(1, 1);
    assert!(!acquire_possible(&process, 0, 0));
    process.allocation = table(vec![vec![]]);
    process.need = table(vec![vec![]]);
    assert!(acquire_possible(&process, 0, 0));
    assert!(!acquire_possible(&process, 0, 1));
    process.allocation = table(vec![vec![usize::MAX]]);
    assert!(!acquire_possible(&process, 0, 0));
}
