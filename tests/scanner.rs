use token_holders::scanner::{
    classify_provider_error, failure_event, ProviderFailure, resize_step, shrink_step, ScanAction, ScanEvent, ScanPhase, Scanner, DEFAULT_STEP, MIN_STEP,
};

#[test]
fn resize_doubles_sparse_windows() {
    assert_eq!(resize_step(1000, 0), 2000);
    assert_eq!(resize_step(1000, 100), 2000);
}

#[test]
fn resize_grows_by_half_up_to_a_thousand_logs() {
    assert_eq!(resize_step(1000, 101), 1500);
    assert_eq!(resize_step(1000, 1000), 1500);
    assert_eq!(resize_step(7, 500), 10);
}

#[test]
fn resize_grows_by_quarter_up_to_five_thousand_logs() {
    assert_eq!(resize_step(1000, 1001), 1250);
    assert_eq!(resize_step(1000, 5000), 1250);
}

#[test]
fn resize_keeps_dense_windows() {
    assert_eq!(resize_step(1000, 5001), 1000);
    assert_eq!(resize_step(1000, 1_000_000), 1000);
}

#[test]
fn shrink_takes_a_third_or_the_floor() {
    assert_eq!(shrink_step(9000), 3000);
    assert_eq!(shrink_step(10), 3);
    assert_eq!(shrink_step(2), MIN_STEP);
    assert_eq!(shrink_step(0), MIN_STEP);
}

#[test]
fn start_clamps_first_window_to_head() {
    let s = Scanner::start(-1, 50);
    assert_eq!(s.phase(), ScanPhase::Scanning);
    assert_eq!(s.action(), ScanAction::FetchLogs { from: 0, to: 50 });
    assert_eq!(s.watermark(), -1);
}

#[test]
fn start_uses_default_step_far_from_head() {
    let s = Scanner::start(99, 10_000_000);
    assert_eq!(s.step(), DEFAULT_STEP);
    assert_eq!(s.action(), ScanAction::FetchLogs { from: 100, to: 100 + DEFAULT_STEP });
}

#[test]
fn start_at_head_follows_at_once() {
    let s = Scanner::start(49, 50);
    assert_eq!(s.phase(), ScanPhase::Done);
    assert_eq!(s.action(), ScanAction::Follow { from_block: 50 });
}

#[test]
fn rate_limit_retries_same_window_narrower() {
    let s = Scanner::start(-1, 10_000_000);
    let t = s.on_event(ScanEvent::RateLimited);
    assert_eq!(t.from(), 0);
    assert_eq!(t.watermark(), -1);
    assert_eq!(t.step(), 333_333);
    assert_eq!(t.action(), ScanAction::FetchLogs { from: 0, to: 333_333 });
}

#[test]
fn rate_limit_floor_stays_within_head() {
    let mut s = Scanner::start(-1, 10_000_000);
    for _ in 0..20 {
        s = s.on_event(ScanEvent::RateLimited);
    }
    assert_eq!(s.step(), MIN_STEP);
    assert_eq!(s.from(), 0);
}

#[test]
fn window_success_moves_watermark_and_grows_step() {
    let s = Scanner::start(-1, 10_000_000);
    let t = s.on_event(ScanEvent::WindowApplied { logs: 150 });
    assert_eq!(t.watermark(), 1_000_000);
    assert_eq!(t.from(), 1_000_001);
    assert_eq!(t.step(), 1_500_000);
    assert_eq!(t.phase(), ScanPhase::Scanning);
}

#[test]
fn window_near_head_asks_for_fresh_head() {
    let s = Scanner::start(-1, 1_500_000);
    let t = s.on_event(ScanEvent::WindowApplied { logs: 0 });
    assert_eq!(t.action(), ScanAction::FetchHead);
    // Any fresh head ahead of the cached one is taken.
    let u = t.on_event(ScanEvent::Head { height: 1_500_005 });
    assert_eq!(u.head(), 1_500_005);
    assert_eq!(u.action(), ScanAction::FetchLogs { from: 1_000_001, to: 1_500_005 });
    // A lagging report does not move the cached head back.
    let w = t.on_event(ScanEvent::Head { height: 1_400_000 });
    assert_eq!(w.head(), 1_500_000);
    assert_eq!(w.action(), ScanAction::FetchLogs { from: 1_000_001, to: 1_500_000 });
}

#[test]
fn done_is_decided_against_the_fresh_head() {
    let s = Scanner::start(-1, 100);
    let t = s.on_event(ScanEvent::WindowApplied { logs: 0 });
    assert_eq!(t.from(), 101);
    let u = t.on_event(ScanEvent::Head { height: 105 });
    assert_eq!(u.phase(), ScanPhase::Scanning);
    assert_eq!(u.action(), ScanAction::FetchLogs { from: 101, to: 105 });
    let v = t.on_event(ScanEvent::Head { height: 100 });
    assert_eq!(v.action(), ScanAction::Follow { from_block: 101 });
}

#[test]
fn provider_failure_aborts() {
    let s = Scanner::start(-1, 50).on_event(ScanEvent::ProviderFailed);
    assert_eq!(s.phase(), ScanPhase::Failed);
    assert_eq!(s.action(), ScanAction::Abort);
    assert_eq!(s.on_event(ScanEvent::WindowApplied { logs: 1 }).phase(), ScanPhase::Failed);
}

#[test]
fn watermark_never_decreases_over_a_run() {
    let mut s = Scanner::start(-1, 3_000_000);
    let events = [
        ScanEvent::RateLimited,
        ScanEvent::WindowApplied { logs: 10 },
        ScanEvent::Head { height: 3_000_000 },
        ScanEvent::WindowApplied { logs: 2000 },
        ScanEvent::Head { height: 3_000_100 },
        ScanEvent::WindowApplied { logs: 0 },
        ScanEvent::Head { height: 3_000_100 },
        ScanEvent::WindowApplied { logs: 0 },
        ScanEvent::Head { height: 3_000_100 },
    ];
    let mut last = s.watermark();
    for e in events {
        s = s.on_event(e);
        assert!(s.watermark() >= last);
        last = s.watermark();
    }
    assert_eq!(s.phase(), ScanPhase::Done);
    assert_eq!(s.action(), ScanAction::Follow { from_block: 3_000_101 });
}

#[test]
fn provider_errors_are_classified() {
    let limited = "(code: -32005, message: query returned more than 10000 results, data: None)";
    assert_eq!(classify_provider_error(true, false, limited), ProviderFailure::RateLimited);
    assert_eq!(classify_provider_error(false, false, limited), ProviderFailure::Other);
    assert_eq!(classify_provider_error(true, true, "connection closed"), ProviderFailure::Unavailable);
    assert_eq!(classify_provider_error(true, false, "(code: -32000, message: header not found)"), ProviderFailure::Other);
    assert_eq!(failure_event(ProviderFailure::RateLimited), ScanEvent::RateLimited);
    assert_eq!(failure_event(ProviderFailure::Unavailable), ScanEvent::ProviderFailed);
    assert_eq!(failure_event(ProviderFailure::Other), ScanEvent::ProviderFailed);
}
