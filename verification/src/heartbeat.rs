//! Per-connection liveness policy: a timestamp of the last inbound activity
//! plus the fixed ping/timeout schedule. The monitor does not own the socket;
//! it only tells the owning connection loop what to do when the timer fires.

use vstd::prelude::*;

verus! {

/// Milliseconds between outbound pings.
pub const PING_INTERVAL_MS: u64 = 5000;

/// Milliseconds of inbound silence after which a connection is reclaimed
/// (two missed ping cycles).
pub const CLIENT_TIMEOUT_MS: u64 = 10000;

/// What the owning connection loop must do when the heartbeat timer fires.
#[derive(PartialEq, Eq, Structural, Clone, Copy, Debug)]
pub enum TickAction {
    /// The peer is still inside the timeout window: send a ping frame.
    Ping,
    /// The peer has been silent past the timeout window: terminal state; the
    /// owning loop closes the connection with a timeout reason.
    TimedOut,
}

/// Liveness state for one connection: the instant (in milliseconds on the
/// caller's monotonic clock) of the most recent inbound activity.
pub struct HeartbeatMonitor {
    last_activity: u64,
}

impl HeartbeatMonitor {
    /// The recorded instant of the last inbound activity.
    pub closed spec fn last(self) -> u64 {
        self.last_activity
    }

    /// The timeout policy: silence strictly longer than the timeout window is
    /// terminal, anything else earns the peer another ping. A clock reading
    /// earlier than the last activity counts as no elapsed silence.
    pub open spec fn spec_tick(last: u64, now: u64) -> TickAction {
        if now > last && now - last > CLIENT_TIMEOUT_MS {
            TickAction::TimedOut
        } else {
            TickAction::Ping
        }
    }

    pub fn new(now: u64) -> (m: HeartbeatMonitor)
        ensures
            m.last() == now,
    {
        HeartbeatMonitor { last_activity: now }
    }

    /// Record inbound activity (a data frame, a ping or a pong) at `now`.
    pub fn refresh(&mut self, now: u64)
        ensures
            final(self).last() == now,
    {
        self.last_activity = now;
    }

    /// Decide, at the timer instant `now`, whether the peer is still live.
    pub fn on_tick(&self, now: u64) -> (a: TickAction)
        ensures
            a == Self::spec_tick(self.last(), now),
    {
        if now > self.last_activity && now - self.last_activity > CLIENT_TIMEOUT_MS {
            TickAction::TimedOut
        } else {
            TickAction::Ping
        }
    }
}

/// Liveness: once a connection's silence window has elapsed by some tick
/// instant `t`, the tick one ping interval later reports it timed out — a
/// silent connection is reclaimed within one additional tick.
pub proof fn lemma_timeout_within_one_more_tick(last: u64, t: u64)
    requires
        last + CLIENT_TIMEOUT_MS <= t,
        t + PING_INTERVAL_MS <= u64::MAX,
    ensures
        HeartbeatMonitor::spec_tick(last, (t + PING_INTERVAL_MS) as u64) == TickAction::TimedOut,
{
}

/// Sharpness of the policy: with pings every interval and activity last seen
/// at `last`, the tick two intervals later still pings (the window is not yet
/// exceeded), and the tick three intervals later is the one that times out.
pub proof fn lemma_silent_connection_lifetime(last: u64)
    requires
        last + 3 * PING_INTERVAL_MS <= u64::MAX,
    ensures
        HeartbeatMonitor::spec_tick(last, (last + 2 * PING_INTERVAL_MS) as u64) == TickAction::Ping,
        HeartbeatMonitor::spec_tick(last, (last + 3 * PING_INTERVAL_MS) as u64)
            == TickAction::TimedOut,
{
}

} // verus!
