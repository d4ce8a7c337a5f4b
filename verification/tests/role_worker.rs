use irium_poawx::role_worker::backoff_secs;

#[test]
fn backoff_grows_then_caps_and_never_stalls_a_healthy_worker() {
    assert_eq!(backoff_secs(2, 0, 60), 2);
    assert_eq!(backoff_secs(2, 1, 60), 2);
    assert_eq!(backoff_secs(2, 2, 60), 4);
    assert_eq!(backoff_secs(2, 3, 60), 8);
    assert_eq!(backoff_secs(2, 4, 60), 16);
    assert_eq!(backoff_secs(2, 20, 60), 60);
    assert_eq!(backoff_secs(2, u32::MAX, 60), 60);
    assert_eq!(backoff_secs(30, 5, 10), 30);
}

#[test]
fn backoff_saturates_instead_of_overflowing() {
    assert_eq!(backoff_secs(u64::MAX / 2, 3, u64::MAX), u64::MAX);
    assert_eq!(backoff_secs(1, 17, u64::MAX), 65_536);
    assert_eq!(backoff_secs(1, 40, u64::MAX), 65_536);
}
