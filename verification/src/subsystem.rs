//! The OS logging subsystems that can report camera activity, the query
//! predicates used to probe for and stream from each, and the detection
//! rule that picks one subsystem from the probe results.

use vstd::prelude::*;

verus! {

/// A logging subsystem that can report camera activity. Different OS
/// versions route camera telemetry through different subsystems, each with
/// its own message format.
#[derive(Debug, Clone, Copy, PartialEq, Eq, Structural)]
pub enum Subsystem {
    /// Emits `activeCameraAttributions` messages listing every active
    /// camera app as `[cam] Name (bundle-id)`.
    ControlCenter,
    /// Emits `camera status 0` / `camera status 1` messages.
    SkyLight,
    /// Emits `startRunning]:` / `stopRunning]:` capture-session messages.
    CameraCapture,
    /// Emits `CMIODeviceStartStream` / `CMIODeviceStopStream` or
    /// `startRunning` / `stopRunning` messages.
    Cmio,
}

/// The streaming-query predicate that selects a subsystem's camera lines.
pub open spec fn spec_stream_predicate(s: Subsystem) -> Seq<char> {
    match s {
        Subsystem::ControlCenter => "(subsystem == \"com.apple.controlcenter\") AND (eventMessage CONTAINS \"activeCameraAttributions\")"@,
        Subsystem::SkyLight => "(subsystem == \"com.apple.SkyLight\") AND (eventMessage CONTAINS \"camera status\")"@,
        Subsystem::CameraCapture => "(subsystem == \"com.apple.cameracapture\") AND (eventMessage CONTAINS \"startRunning]\" OR eventMessage CONTAINS \"stopRunning]\")"@,
        Subsystem::Cmio => "(subsystem == \"com.apple.cmio\") AND (eventMessage CONTAINS \"startRunning\" OR eventMessage CONTAINS \"stopRunning\" OR eventMessage CONTAINS \"CMIODeviceStartStream\" OR eventMessage CONTAINS \"CMIODeviceStopStream\")"@,
    }
}

/// Returns the streaming-query predicate argument for the subsystem.
pub fn predicate_for(subsystem: &Subsystem) -> (r: &'static str)
    ensures
        r@ == spec_stream_predicate(*subsystem),
{
    match subsystem {
        Subsystem::ControlCenter => "(subsystem == \"com.apple.controlcenter\") AND (eventMessage CONTAINS \"activeCameraAttributions\")",
        Subsystem::SkyLight => "(subsystem == \"com.apple.SkyLight\") AND (eventMessage CONTAINS \"camera status\")",
        Subsystem::CameraCapture => "(subsystem == \"com.apple.cameracapture\") AND (eventMessage CONTAINS \"startRunning]\" OR eventMessage CONTAINS \"stopRunning]\")",
        Subsystem::Cmio => "(subsystem == \"com.apple.cmio\") AND (eventMessage CONTAINS \"startRunning\" OR eventMessage CONTAINS \"stopRunning\" OR eventMessage CONTAINS \"CMIODeviceStartStream\" OR eventMessage CONTAINS \"CMIODeviceStopStream\")",
    }
}

/// The history-query predicate used when probing whether a subsystem is
/// present on this host.
pub open spec fn spec_probe_predicate(s: Subsystem) -> Seq<char> {
    match s {
        Subsystem::ControlCenter => "subsystem == \"com.apple.controlcenter\" AND eventMessage CONTAINS \"activeCameraAttributions\""@,
        Subsystem::SkyLight => "subsystem == \"com.apple.SkyLight\" AND eventMessage CONTAINS \"camera status\""@,
        Subsystem::CameraCapture => "subsystem == \"com.apple.cameracapture\""@,
        Subsystem::Cmio => "subsystem == \"com.apple.cmio\""@,
    }
}

/// Returns the probe-query predicate for the subsystem.
pub fn probe_predicate_for(subsystem: &Subsystem) -> (r: &'static str)
    ensures
        r@ == spec_probe_predicate(*subsystem),
{
    match subsystem {
        Subsystem::ControlCenter => "subsystem == \"com.apple.controlcenter\" AND eventMessage CONTAINS \"activeCameraAttributions\"",
        Subsystem::SkyLight => "subsystem == \"com.apple.SkyLight\" AND eventMessage CONTAINS \"camera status\"",
        Subsystem::CameraCapture => "subsystem == \"com.apple.cameracapture\"",
        Subsystem::Cmio => "subsystem == \"com.apple.cmio\"",
    }
}

/// The marker string whose presence in a probe's output means the
/// subsystem is active on this host.
pub open spec fn spec_probe_marker(s: Subsystem) -> Seq<char> {
    match s {
        Subsystem::ControlCenter => "activeCameraAttributions"@,
        Subsystem::SkyLight => "camera status"@,
        Subsystem::CameraCapture => "startRunning"@,
        Subsystem::Cmio => "CMIODeviceStartStream"@,
    }
}

/// Returns the marker string expected in the subsystem's probe output.
pub fn probe_marker_for(subsystem: &Subsystem) -> (r: &'static str)
    ensures
        r@ == spec_probe_marker(*subsystem),
{
    match subsystem {
        Subsystem::ControlCenter => "activeCameraAttributions",
        Subsystem::SkyLight => "camera status",
        Subsystem::CameraCapture => "startRunning",
        Subsystem::Cmio => "CMIODeviceStartStream",
    }
}

/// Whether a probe's captured output shows the subsystem's marker, i.e.
/// whether that probe succeeded.
pub fn probe_hit(output: &str, marker: &str) -> (r: bool)
    ensures
        r == crate::text::contains_seq(output@, marker@),
{
    crate::text::contains_str(output, marker)
}

/// The subsystem the detection rule picks, given which probes succeeded.
pub open spec fn spec_detected(cc: bool, sky: bool, cap: bool, cmio: bool) -> Subsystem {
    if cc {
        Subsystem::ControlCenter
    } else if sky {
        Subsystem::SkyLight
    } else if cap {
        Subsystem::CameraCapture
    } else if cmio {
        Subsystem::Cmio
    } else {
        Subsystem::ControlCenter
    }
}

/// Picks the logging subsystem to monitor from the four probe results, in
/// fixed priority order; when no probe succeeded, falls back to
/// `ControlCenter`, the most common subsystem.
pub fn detect_subsystem(cc: bool, sky: bool, cap: bool, cmio: bool) -> (r: Subsystem)
    ensures
        r == spec_detected(cc, sky, cap, cmio),
{
    if cc {
        Subsystem::ControlCenter
    } else if sky {
        Subsystem::SkyLight
    } else if cap {
        Subsystem::CameraCapture
    } else if cmio {
        Subsystem::Cmio
    } else {
        Subsystem::ControlCenter
    }
}

} // verus!
