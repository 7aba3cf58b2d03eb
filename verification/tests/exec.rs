use abar::exec::{BACKOFF_INITIAL_SECS, BACKOFF_MAX_SECS, next_backoff, script_payload};

#[test]
fn backoff_doubles_up_to_the_cap() {
    let mut b = BACKOFF_INITIAL_SECS;
    let mut seen = vec![b];
    for _ in 0..7 {
        b = next_backoff(b);
        seen.push(b);
    }
    assert_eq!(seen, vec![1, 2, 4, 8, 16, 30, 30, 30]);
    assert_eq!(next_backoff(BACKOFF_MAX_SECS), 30);
}

#[test]
fn payload_is_trimmed_line() {
    assert_eq!(script_payload("  {\"text\": \"hello\"}  \n").as_deref(), Some("{\"text\": \"hello\"}"));
    assert_eq!(script_payload("   "), None);
    assert_eq!(script_payload(""), None);
}

#[test]
fn restart_delay_after_each_exit() {
    // After the k-th exit the wait is min(2^(k-1), 30) seconds.
    let mut delay = BACKOFF_INITIAL_SECS;
    for k in 1..=10u32 {
        assert_eq!(delay, std::cmp::min(1u64 << (k - 1), 30), "exit {k}");
        delay = next_backoff(delay);
    }
}
