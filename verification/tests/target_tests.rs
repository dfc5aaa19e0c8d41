use std::time::Duration;

use pinger::{Address, ReplyStatus, Target, HIST_SIZE};

fn sample() -> Target {
    Target::new("home".to_string(), Address::V4(0x0101_0101), 4000, 5, 50, 10)
}

fn hist(t: &Target) -> Vec<u32> {
    t.hist_iter().copied().collect()
}

#[test]
fn new_target_has_settings_and_no_statistics() {
    let t = sample();
    assert_eq!(t.name(), "home");
    assert_eq!(t.addr(), Address::V4(0x0101_0101));
    assert_eq!(t.last_rtt(), None);
    assert_eq!(t.avg_rtt(), None);
    assert_eq!(t.min_rtt(), None);
    assert_eq!(t.max_rtt(), None);
    assert_eq!(t.error_count(), 0);
    assert_eq!(t.error_count_threshold(), 10);
    assert!(hist(&t).is_empty());
}

#[test]
fn durations_have_their_units() {
    let t = sample();
    assert_eq!(t.sleep_duration(), Duration::from_secs(4000));
    assert_eq!(t.timeout_duration(), Duration::from_secs(5));
    assert_eq!(t.rtt_high_threshold(), Duration::from_millis(50));
}

#[test]
fn successes_update_statistics() {
    let mut t = sample();
    for rtt in [10, 30, 20] {
        assert!(t.accepts_reply(ReplyStatus::SuccessTimed(rtt)));
        t.update_from_reply(ReplyStatus::SuccessTimed(rtt));
    }
    assert_eq!(hist(&t), vec![10, 30, 20]);
    assert_eq!(t.last_rtt(), Some(20));
    assert_eq!(t.max_rtt(), Some(30));
    assert_eq!(t.min_rtt(), Some(10));
    assert_eq!(t.avg_rtt(), Some(20));
}

#[test]
fn average_rounds_down() {
    let mut t = sample();
    t.update_from_reply(ReplyStatus::SuccessTimed(1));
    t.update_from_reply(ReplyStatus::SuccessTimed(2));
    assert_eq!(t.avg_rtt(), Some(1));
    t.update_from_reply(ReplyStatus::SuccessTimed(4));
    assert_eq!(t.avg_rtt(), Some(2));
}

#[test]
fn errors_increment_and_successes_decrement() {
    let mut t = sample();
    t.update_from_reply(ReplyStatus::TimedOut);
    t.update_from_reply(ReplyStatus::OtherFailure);
    t.update_from_reply(ReplyStatus::TimedOut);
    assert_eq!(t.error_count(), 3);
    t.update_from_reply(ReplyStatus::SuccessTimed(5));
    assert_eq!(t.error_count(), 2);
    t.update_from_reply(ReplyStatus::SuccessTimed(5));
    t.update_from_reply(ReplyStatus::SuccessTimed(5));
    t.update_from_reply(ReplyStatus::SuccessTimed(5));
    assert_eq!(t.error_count(), 0);
}

#[test]
fn failure_keeps_rtt_statistics() {
    let mut t = sample();
    t.update_from_reply(ReplyStatus::SuccessTimed(12));
    t.update_from_reply(ReplyStatus::OtherFailure);
    assert_eq!(hist(&t), vec![12]);
    assert_eq!(t.last_rtt(), Some(12));
    assert_eq!(t.avg_rtt(), Some(12));
    assert_eq!(t.max_rtt(), Some(12));
    assert_eq!(t.min_rtt(), Some(12));
    assert_eq!(t.error_count(), 1);
}

#[test]
fn history_keeps_the_most_recent_values() {
    let mut t = sample();
    for rtt in 1..=(HIST_SIZE as u32 + 5) {
        t.update_from_reply(ReplyStatus::SuccessTimed(rtt));
    }
    let h = hist(&t);
    assert_eq!(h.len(), HIST_SIZE);
    assert_eq!(h[0], 6);
    assert_eq!(*h.last().unwrap(), HIST_SIZE as u32 + 5);
    // the extremes cover every success, not only the kept ones
    assert_eq!(t.min_rtt(), Some(1));
    assert_eq!(t.max_rtt(), Some(HIST_SIZE as u32 + 5));
    // the average is that of the kept values: 6 ..= 125
    assert_eq!(t.avg_rtt(), Some((6 + 125) / 2));
}

#[test]
fn average_stays_between_extremes() {
    let mut t = sample();
    for rtt in [7, 1000, 3, 48, 2] {
        t.update_from_reply(ReplyStatus::SuccessTimed(rtt));
        let avg = t.avg_rtt().unwrap();
        assert!(t.min_rtt().unwrap() <= avg && avg <= t.max_rtt().unwrap());
    }
}

#[test]
fn replies_that_would_overflow_are_refused() {
    let mut t = sample();
    assert!(t.accepts_reply(ReplyStatus::SuccessTimed(u32::MAX)));
    t.update_from_reply(ReplyStatus::SuccessTimed(u32::MAX));
    assert!(!t.accepts_reply(ReplyStatus::SuccessTimed(1)));
    assert!(t.accepts_reply(ReplyStatus::SuccessTimed(0)));
    assert!(t.accepts_reply(ReplyStatus::TimedOut));
    let mut full = sample();
    full.error_count = u32::MAX;
    assert!(!full.accepts_reply(ReplyStatus::TimedOut));
    assert!(!full.accepts_reply(ReplyStatus::OtherFailure));
    assert!(full.accepts_reply(ReplyStatus::SuccessTimed(3)));
}

#[test]
fn full_history_drops_oldest_before_summing() {
    let mut t = sample();
    t.update_from_reply(ReplyStatus::SuccessTimed(u32::MAX - 10));
    for _ in 1..HIST_SIZE {
        t.update_from_reply(ReplyStatus::SuccessTimed(0));
    }
    assert_eq!(hist(&t).len(), HIST_SIZE);
    // the large value leaves the history with the next success
    assert!(t.accepts_reply(ReplyStatus::SuccessTimed(u32::MAX)));
    t.update_from_reply(ReplyStatus::SuccessTimed(u32::MAX));
    assert_eq!(hist(&t)[0], 0);
    assert_eq!(t.avg_rtt(), Some(u32::MAX / HIST_SIZE as u32));
}

#[test]
fn clone_keeps_everything() {
    let mut t = sample();
    t.update_from_reply(ReplyStatus::SuccessTimed(9));
    let c = t.clone();
    assert_eq!(c.name(), "home");
    assert_eq!(hist(&c), vec![9]);
    assert_eq!(c.last_rtt(), Some(9));
}
