//! Decisions of the monitoring control loop. The loop itself lives with
//! the process plumbing: it polls the tracking flag and the capture
//! process state on a fixed cadence, asks `monitor_directive` what to do,
//! and routes delivered events into the session manager - dropping any
//! event that arrives after tracking was paused.

use vstd::prelude::*;

verus! {

/// What the control loop should do on one poll.
#[derive(Debug, Clone, Copy, PartialEq, Eq, Structural)]
pub enum MonitorDirective {
    /// Tracking is on and no capture runs: start the capture process and
    /// consume its events.
    StartCapture,
    /// Tracking is on and the capture already runs: wait for the next poll.
    Idle,
    /// Tracking is off: stop any capture process.
    StopCapture,
}

/// The directive the loop follows, given the tracking flag and whether the
/// capture process is currently running.
pub open spec fn spec_directive(tracking: bool, capture_running: bool) -> MonitorDirective {
    if tracking {
        if !capture_running {
            MonitorDirective::StartCapture
        } else {
            MonitorDirective::Idle
        }
    } else {
        MonitorDirective::StopCapture
    }
}

/// Decides the control loop's next action from the tracking flag and the
/// capture process state.
pub fn monitor_directive(tracking: bool, capture_running: bool) -> (d: MonitorDirective)
    ensures
        d == spec_directive(tracking, capture_running),
{
    if tracking {
        if !capture_running {
            MonitorDirective::StartCapture
        } else {
            MonitorDirective::Idle
        }
    } else {
        MonitorDirective::StopCapture
    }
}

} // verus!
