use webb::job_manager::JobManager;

#[test]
fn new_manager_counts_nothing() {
    let jobs = JobManager::new();
    assert_eq!(jobs.count(), 0);
    assert!(!jobs.has_fired());
}

#[test]
fn last_deallocation_fires() {
    let mut jobs = JobManager::new();
    jobs.allocate();
    jobs.allocate();
    jobs.allocate();
    assert_eq!(jobs.count(), 3);
    assert!(!jobs.deallocate());
    assert!(!jobs.deallocate());
    assert_eq!(jobs.count(), 1);
    assert!(!jobs.has_fired());
    assert!(jobs.deallocate());
    assert_eq!(jobs.count(), 0);
    assert!(jobs.has_fired());
}

#[test]
fn fires_only_once() {
    let mut jobs = JobManager::new();
    jobs.allocate();
    assert!(jobs.deallocate());
    jobs.allocate();
    assert!(!jobs.deallocate());
    assert!(jobs.has_fired());
    assert_eq!(jobs.count(), 0);
}

#[test]
fn child_registered_before_parent_ends_keeps_count_above_zero() {
    let mut jobs = JobManager::new();
    jobs.allocate();
    jobs.allocate();
    assert!(!jobs.deallocate());
    assert_eq!(jobs.count(), 1);
    assert!(jobs.deallocate());
}
