use hartex::queue::{bucket_of, obtain, queue_kind, QueueKind, QueueSettingError};

#[test]
fn buckets_by_shard_modulo() {
    assert_eq!(bucket_of(7, 3), 1);
    assert_eq!(bucket_of(0, 16), 0);
    assert_eq!(bucket_of(31, 16), 15);
    assert_eq!(bucket_of(u32::MAX, 1), 0);
}

#[test]
fn concurrency_one_is_local() {
    assert!(matches!(queue_kind(1), QueueKind::Local));
    assert!(matches!(queue_kind(16), QueueKind::LargeBot { buckets: 16 }));
}

#[test]
fn obtain_reads_settings() {
    let plan = obtain("1", "5").ok().unwrap();
    assert!(matches!(plan.kind, QueueKind::Local));
    assert_eq!(plan.wait_seconds, 5);
    let plan = obtain("4", "+6").ok().unwrap();
    assert!(matches!(plan.kind, QueueKind::LargeBot { buckets: 4 }));
    assert_eq!(plan.wait_seconds, 6);
}

#[test]
fn obtain_reports_the_bad_setting() {
    assert!(matches!(obtain("x", "5"), Err(QueueSettingError::Concurrency)));
    assert!(matches!(obtain("x", "y"), Err(QueueSettingError::Concurrency)));
    assert!(matches!(obtain("2", "-1"), Err(QueueSettingError::WaitSeconds)));
    assert!(matches!(obtain("2", ""), Err(QueueSettingError::WaitSeconds)));
}
