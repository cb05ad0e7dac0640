use dnd_thing_server::heartbeat::{
    HeartbeatMonitor, TickAction, CLIENT_TIMEOUT_MS, PING_INTERVAL_MS,
};

#[test]
fn schedule_constants() {
    assert_eq!(PING_INTERVAL_MS, 5000);
    assert_eq!(CLIENT_TIMEOUT_MS, 10000);
}

#[test]
fn silence_within_window_earns_a_ping() {
    let m = HeartbeatMonitor::new(1000);
    assert_eq!(m.on_tick(1000), TickAction::Ping);
    assert_eq!(m.on_tick(6000), TickAction::Ping);
    assert_eq!(m.on_tick(11000), TickAction::Ping);
}

#[test]
fn silence_past_window_times_out() {
    let m = HeartbeatMonitor::new(1000);
    assert_eq!(m.on_tick(11001), TickAction::TimedOut);
    assert_eq!(m.on_tick(16000), TickAction::TimedOut);
}

#[test]
fn refresh_restarts_the_window() {
    let mut m = HeartbeatMonitor::new(0);
    m.refresh(8000);
    assert_eq!(m.on_tick(12000), TickAction::Ping);
    assert_eq!(m.on_tick(18000), TickAction::Ping);
    assert_eq!(m.on_tick(18001), TickAction::TimedOut);
}

#[test]
fn clock_before_last_activity_counts_as_no_silence() {
    let m = HeartbeatMonitor::new(50000);
    assert_eq!(m.on_tick(10), TickAction::Ping);
}

#[test]
fn silent_connection_reclaimed_by_third_tick() {
    let m = HeartbeatMonitor::new(0);
    assert_eq!(m.on_tick(PING_INTERVAL_MS), TickAction::Ping);
    assert_eq!(m.on_tick(2 * PING_INTERVAL_MS), TickAction::Ping);
    assert_eq!(m.on_tick(3 * PING_INTERVAL_MS), TickAction::TimedOut);
}
