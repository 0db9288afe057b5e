use bedrock_bridge::reconnect::{backoff_delay_secs, ReconnectStep, Reconnector, MAX_RETRIES};

#[test]
fn backoff_schedule() {
    let delays: Vec<u64> = (1..=8).map(backoff_delay_secs).collect();
    assert_eq!(delays, vec![1, 2, 4, 8, 16, 30, 30, 30]);
    assert_eq!(backoff_delay_secs(u32::MAX), 30);
}

#[test]
fn statuses_before_and_after_start() {
    let mut r = Reconnector::new("play.example.org".to_string(), 19132);
    let s = r.attempt_status();
    assert_eq!(s.state, "starting");
    assert_eq!(s.message, "Connecting to play.example.org:19132");
    assert_eq!(s.retry_count, 0);
    let s = r.on_started();
    assert_eq!(s.state, "running");
    assert_eq!(s.retry_count, 0);
    assert_eq!(s.message, "Connected to play.example.org:19132");
    let s = r.stopped();
    assert_eq!(s.state, "stopped");
    assert_eq!(s.message, "Proxy stopped");
}

#[test]
fn gives_up_after_ten_retries() {
    let mut r = Reconnector::new("h".to_string(), 1);
    for attempt in 1..=MAX_RETRIES {
        match r.on_attempt_over(false) {
            ReconnectStep::Retry { delay_secs, status } => {
                assert_eq!(delay_secs, backoff_delay_secs(attempt));
                assert_eq!(status.state, "retrying");
                assert_eq!(
                    status.message,
                    format!("Retrying in {}s (attempt {}/{})", delay_secs, attempt, MAX_RETRIES)
                );
                assert_eq!(status.retry_count, attempt);
            }
            _ => panic!("expected a retry"),
        }
        let s = r.attempt_status();
        assert_eq!(s.state, "retrying");
        assert_eq!(s.message, format!("Reconnecting to h:1 (attempt {})", attempt));
    }
    match r.on_attempt_over(false) {
        ReconnectStep::GiveUp(s) => {
            assert_eq!(s.state, "failed");
            assert_eq!(s.message, "Failed after 10 retries. Click toggle to retry.");
            assert_eq!(s.retry_count, 11);
        }
        _ => panic!("expected to give up"),
    }
}

#[test]
fn cancel_stops_and_start_resets() {
    let mut r = Reconnector::new("h".to_string(), 2);
    assert!(matches!(r.on_attempt_over(false), ReconnectStep::Retry { .. }));
    assert!(matches!(r.on_attempt_over(false), ReconnectStep::Retry { delay_secs: 2, .. }));
    r.on_started();
    assert_eq!(r.retry_count, 2);
    r.on_stats();
    assert_eq!(r.retry_count, 0);
    match r.on_attempt_over(true) {
        ReconnectStep::Stop(s) => assert_eq!(s.state, "stopped"),
        _ => panic!("expected stop"),
    }
}

#[test]
fn spawned_but_silent_proxies_still_give_up() {
    let mut r = Reconnector::new("h".to_string(), 3);
    let mut retries = 0;
    loop {
        r.on_started();
        match r.on_attempt_over(false) {
            ReconnectStep::Retry { .. } => retries += 1,
            ReconnectStep::GiveUp(_) => break,
            ReconnectStep::Stop(_) => panic!("not cancelled"),
        }
    }
    assert_eq!(retries, MAX_RETRIES);
}
