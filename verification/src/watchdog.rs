//! The liveness watchdog's decision rule.
//!
//! Each connection tracks the time of its last activity.  A periodic task
//! wakes at least every [`PING_AFTER_SECS`] seconds, measures the silence,
//! and acts on [`watchdog_event`]: past the first threshold a `PING` goes
//! out; past the second the connection is presumed dead and torn down.
//! The two thresholds are a pair and move together.

use vstd::prelude::*;

verus! {

/// Seconds of silence after which the client is pinged.
pub const PING_AFTER_SECS: u64 = 90;

/// Seconds of silence after which the connection is given up.  Twice the
/// ping threshold: one missed ping interval past the ping itself.
pub const TIMEOUT_AFTER_SECS: u64 = 180;

/// The events that travel between a connection's watchdog and its handler.
#[derive(Debug, PartialEq)]
pub enum PingPongBall {
    /// Send a PING message to the client.
    SendPing,
    /// Received a PONG message from the client.
    GotPong,
    /// Did not receive a PONG message from the client.
    PongTimeout,
}

/// What the elapsed silence calls for: nothing while the connection is
/// fresh, a ping once the first threshold passes, teardown once the second
/// does.
pub fn watchdog_event(elapsed_secs: u64) -> (r: Option<PingPongBall>)
    ensures
        elapsed_secs >= TIMEOUT_AFTER_SECS ==> r == Some(PingPongBall::PongTimeout),
        PING_AFTER_SECS <= elapsed_secs < TIMEOUT_AFTER_SECS ==> r == Some(
            PingPongBall::SendPing,
        ),
        elapsed_secs < PING_AFTER_SECS ==> r is None,
{
    if elapsed_secs >= TIMEOUT_AFTER_SECS {
        Some(PingPongBall::PongTimeout)
    } else if elapsed_secs >= PING_AFTER_SECS {
        Some(PingPongBall::SendPing)
    } else {
        None
    }
}

} // verus!
