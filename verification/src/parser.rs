//! Log-line parsing: turning raw telemetry lines from the OS logging
//! facility into camera activity events. The formats differ per subsystem;
//! two of them need state carried across lines.

use vstd::prelude::*;
use crate::text::{
    contains_seq, contains_str, find_char_before, find_from, find_sub, first_non_space, is_digit,
    is_space, lemma_find_sub_spec, lemma_first_non_space, lemma_token_end, scan_first_non_space,
    scan_token_end, space_char, token_end, trim_range, trim_to_string,
};

verus! {

/// All characters in `[a, b)` are decimal digits.
pub open spec fn all_digits_range(s: Seq<char>, a: int, b: int) -> bool {
    forall|j: int| a <= j < b ==> is_digit(#[trigger] s[j])
}

/// The process name carried by the token `[a, b)` of `s`, when that token
/// has the shape `Name[digits]:`: `Name` must be non-empty and the
/// brackets must enclose at least one digit. The name is the text before
/// the first `[`.
pub open spec fn token_name_at(s: Seq<char>, a: int, b: int) -> Option<Seq<char>>
    recommends
        0 <= a <= b <= s.len(),
{
    match find_char_before(s, '[', a, b) {
        Some(k) => if a + 1 <= k && k + 4 <= b && s[b - 2] == ']' && s[b - 1] == ':'
            && all_digits_range(s, k + 1, b - 2) {
            Some(s.subrange(a, k))
        } else {
            None
        },
        None => None,
    }
}

/// The app name found by scanning the whitespace-delimited tokens of `s`
/// from position `i` on: the name of the first token shaped `Name[digits]:`.
pub open spec fn app_name_in(s: Seq<char>, i: int) -> Option<Seq<char>>
    decreases s.len() - i,
    via app_name_in_dec
{
    if i < 0 || i >= s.len() {
        None
    } else if is_space(s[i]) {
        app_name_in(s, i + 1)
    } else {
        let b = token_end(s, i);
        match token_name_at(s, i, b) {
            Some(n) => Some(n),
            None => app_name_in(s, b),
        }
    }
}

#[via_fn]
proof fn app_name_in_dec(s: Seq<char>, i: int) {
    if 0 <= i < s.len() && !is_space(s[i]) {
        lemma_token_end(s, i);
    }
}

/// What `extract_app_name` returns: the first token-borne app name, or
/// `Unknown` when no token matches.
pub open spec fn spec_app_name(s: Seq<char>) -> Seq<char> {
    match app_name_in(s, 0) {
        Some(n) => n,
        None => "Unknown"@,
    }
}

/// Exec mirror of `find_char_before`: first occurrence of `c` in `[a, b)`.
fn scan_char_in(s: &str, c: char, a: usize, b: usize) -> (r: Option<usize>)
    requires
        a <= b <= s@.len(),
    ensures
        match r {
            Some(k) => a <= k < b && find_char_before(s@, c, a as int, b as int) == Some(
                k as int,
            ),
            None => find_char_before(s@, c, a as int, b as int) is None,
        },
{
    let mut k: usize = a;
    while k < b
        invariant
            a <= k <= b <= s@.len(),
            find_char_before(s@, c, a as int, b as int) == find_char_before(
                s@,
                c,
                k as int,
                b as int,
            ),
        decreases b - k,
    {
        if s.get_char(k) == c {
            return Some(k);
        }
        k = k + 1;
    }
    None
}

/// Exec mirror of `all_digits_range`.
fn check_digits(s: &str, a: usize, b: usize) -> (r: bool)
    requires
        a <= b <= s@.len(),
    ensures
        r == all_digits_range(s@, a as int, b as int),
{
    let mut k: usize = a;
    while k < b
        invariant
            a <= k <= b <= s@.len(),
            forall|j: int| a <= j < k ==> is_digit(#[trigger] s@[j]),
        decreases b - k,
    {
        if !crate::text::digit_char(s.get_char(k)) {
            return false;
        }
        k = k + 1;
    }
    true
}

/// Checks whether the token `[a, b)` has the shape `Name[digits]:` and, if
/// so, returns the position of its `[`; the name is then `[a, k)`.
fn token_name_check(s: &str, a: usize, b: usize) -> (r: Option<usize>)
    requires
        a <= b <= s@.len(),
    ensures
        match r {
            Some(k) => a < k < b && token_name_at(s@, a as int, b as int) == Some(
                s@.subrange(a as int, k as int),
            ),
            None => token_name_at(s@, a as int, b as int) is None,
        },
{
    match scan_char_in(s, '[', a, b) {
        Some(k) => {
            if k > a && b - k >= 4 && s.get_char(b - 2) == ']' && s.get_char(b - 1) == ':'
                && check_digits(s, k + 1, b - 2) {
                Some(k)
            } else {
                None
            }
        },
        None => None,
    }
}

/// Extracts the application name from a syslog-format log line: the text
/// before the bracket in the first token shaped `Name[digits]:`, or
/// `Unknown` when no token matches. A best-effort heuristic over an
/// externally defined log format; callers must tolerate `Unknown`.
pub fn extract_app_name(line: &str) -> (r: String)
    ensures
        r@ == spec_app_name(line@),
{
    let len = line.unicode_len();
    let mut i: usize = 0;
    while i < len
        invariant
            len == line@.len(),
            i <= len,
            app_name_in(line@, 0) == app_name_in(line@, i as int),
        decreases len - i,
    {
        if space_char(line.get_char(i)) {
            i = i + 1;
        } else {
            let b = scan_token_end(line, i);
            proof {
                lemma_token_end(line@, i as int);
            }
            match token_name_check(line, i, b) {
                Some(k) => {
                    return line.substring_char(i, k).to_owned();
                },
                None => {
                    i = b;
                },
            }
        }
    }
    "Unknown".to_owned()
}

/// The marker that precedes each active camera app's name in an
/// attribution line.
pub open spec fn cam_marker() -> Seq<char> {
    "[cam] "@
}

/// The delimiter between an app's name and its parenthesized bundle id.
pub open spec fn bundle_delim() -> Seq<char> {
    " ("@
}

/// The set of app names listed in `s` at or after `from` as
/// `[cam] Name (bundle-id)` attributions. After each marker, the name runs
/// up to the next ` (`, trimmed; when no ` (` follows, the name is the
/// first whitespace-delimited token of the remainder and the scan stops.
/// Empty names are discarded.
pub open spec fn cam_apps_from(s: Seq<char>, from: int) -> Set<Seq<char>>
    decreases s.len() + 1 - from,
    via cam_apps_from_dec
{
    match find_sub(s, cam_marker(), from) {
        None => Set::empty(),
        Some(m) => {
            let ns = m + cam_marker().len();
            match find_sub(s, bundle_delim(), ns) {
                Some(p) => {
                    let name = trim_range(s, ns, p);
                    let rest = cam_apps_from(s, p + 1);
                    if name.len() > 0 {
                        rest.insert(name)
                    } else {
                        rest
                    }
                },
                None => {
                    let a = first_non_space(s, ns, s.len() as int);
                    let b = token_end(s, a);
                    if a < b {
                        Set::empty().insert(s.subrange(a, b))
                    } else {
                        Set::empty()
                    }
                },
            }
        },
    }
}

#[via_fn]
proof fn cam_apps_from_dec(s: Seq<char>, from: int) {
    if 0 <= from {
        lemma_find_sub_spec(s, cam_marker(), from);
        if let Some(m) = find_sub(s, cam_marker(), from) {
            reveal_strlit("[cam] ");
            lemma_find_sub_spec(s, bundle_delim(), m + cam_marker().len());
        }
    }
}

/// The set of app names listed in the whole line.
pub open spec fn spec_cam_apps(s: Seq<char>) -> Set<Seq<char>> {
    cam_apps_from(s, 0)
}

/// The set of character sequences held by a vector of strings.
pub open spec fn names_set(v: Seq<String>) -> Set<Seq<char>> {
    Set::new(|n: Seq<char>| exists|i: int| 0 <= i < v.len() && v[i]@ == n)
}

/// No two strings of `v` hold the same characters.
pub open spec fn distinct_names(v: Seq<String>) -> bool {
    forall|i: int, j: int| 0 <= i < j < v.len() ==> v[i]@ != v[j]@
}

/// Adding a string to a vector adds its characters to the name set.
proof fn lemma_names_set_push(v: Seq<String>, s: String)
    ensures
        names_set(v.push(s)) =~= names_set(v).insert(s@),
{
    assert forall|n: Seq<char>| names_set(v.push(s)).contains(n) implies names_set(v).insert(
        s@,
    ).contains(n) by {
        let i = choose|i: int| 0 <= i < v.push(s).len() && v.push(s)[i]@ == n;
        if i < v.len() {
            assert(v[i]@ == n);
        }
    }
    assert forall|n: Seq<char>| names_set(v).insert(s@).contains(n) implies names_set(
        v.push(s),
    ).contains(n) by {
        if n == s@ {
            assert(v.push(s)[v.len() as int]@ == n);
        } else {
            let i = choose|i: int| 0 <= i < v.len() && v[i]@ == n;
            assert(v.push(s)[i]@ == n);
        }
    }
}

/// Whether some of the first `end` strings of `v` holds the characters of
/// `name`.
fn name_in_prefix(v: &Vec<String>, end: usize, name: &String) -> (r: bool)
    requires
        end <= v@.len(),
    ensures
        r == exists|i: int| 0 <= i < end && v@[i]@ == name@,
{
    let mut i: usize = 0;
    while i < end
        invariant
            i <= end <= v@.len(),
            forall|j: int| 0 <= j < i ==> v@[j]@ != name@,
        decreases end - i,
    {
        if v[i].eq(name) {
            return true;
        }
        i = i + 1;
    }
    false
}

/// Whether some string of `v` holds the characters of `name`.
fn name_in_vec(v: &Vec<String>, name: &String) -> (r: bool)
    ensures
        r == names_set(v@).contains(name@),
{
    let n = v.len();
    name_in_prefix(v, n, name)
}

/// Extracts the distinct app names from the `[cam] Name (bundle-id)`
/// attributions of a log line.
pub fn extract_cam_apps(line: &str) -> (r: Vec<String>)
    ensures
        names_set(r@) == spec_cam_apps(line@),
        distinct_names(r@),
{
    let len = line.unicode_len();
    let mut apps: Vec<String> = Vec::new();
    let mut cur: usize = 0;
    loop
        invariant
            len == line@.len(),
            cur <= len,
            distinct_names(apps@),
            spec_cam_apps(line@) == names_set(apps@).union(cam_apps_from(line@, cur as int)),
        ensures
            names_set(apps@) == spec_cam_apps(line@),
            distinct_names(apps@),
        decreases len - cur,
    {
        match find_from(line, "[cam] ", cur) {
            None => {
                proof {
                    assert(cam_apps_from(line@, cur as int) =~= Set::<Seq<char>>::empty());
                    assert(names_set(apps@).union(Set::empty()) =~= names_set(apps@));
                }
                break;
            },
            Some(m) => {
                proof {
                    lemma_find_sub_spec(line@, cam_marker(), cur as int);
                    reveal_strlit("[cam] ");
                }
                let ns = m + 6;
                match find_from(line, " (", ns) {
                    Some(p) => {
                        proof {
                            lemma_find_sub_spec(line@, bundle_delim(), ns as int);
                            reveal_strlit(" (");
                        }
                        let name = trim_to_string(line, ns, p);
                        let ghost pre = apps@;
                        let ghost nm = trim_range(line@, ns as int, p as int);
                        let ghost rest = cam_apps_from(line@, p + 1);
                        if name.as_str().unicode_len() > 0 {
                            if !name_in_vec(&apps, &name) {
                                apps.push(name);
                                proof {
                                    lemma_names_set_push(pre, apps@.last());
                                    assert(names_set(apps@).union(rest) =~= names_set(pre).union(
                                        rest.insert(nm),
                                    ));
                                }
                            } else {
                                proof {
                                    assert(names_set(apps@).union(rest) =~= names_set(pre).union(
                                        rest.insert(nm),
                                    ));
                                }
                            }
                        }
                        cur = p + 1;
                    },
                    None => {
                        proof {
                            lemma_first_non_space(line@, ns as int, len as int);
                            lemma_token_end(line@, first_non_space(line@, ns as int, len as int));
                        }
                        let a = scan_first_non_space(line, ns, len);
                        let b = scan_token_end(line, a);
                        let ghost pre = apps@;
                        if a < b {
                            let name = line.substring_char(a, b).to_owned();
                            if !name_in_vec(&apps, &name) {
                                apps.push(name);
                                proof {
                                    lemma_names_set_push(pre, apps@.last());
                                }
                            }
                        }
                        proof {
                            assert(names_set(apps@) =~= names_set(pre).union(
                                cam_apps_from(line@, cur as int),
                            ));
                        }
                        break;
                    },
                }
            },
        }
    }
    apps
}

/// A camera activity event produced by the parser: some application began
/// or ceased using the camera at the given time (Unix seconds).
#[derive(Debug)]
pub enum CameraEvent {
    Started { app_name: String, timestamp: i64 },
    Stopped { app_name: String, timestamp: i64 },
}

/// State carried across log lines for the subsystems that need it: the
/// set of currently active camera apps (for diff-based parsing) and the
/// last reported camera open/closed status (for transition-based parsing).
/// One fresh state per monitoring run.
#[derive(Debug, Default)]
pub struct ParserState {
    /// Currently known active camera apps; holds no duplicate name.
    pub active_apps: Vec<String>,
    /// Last known camera status: `Some(true)` open, `Some(false)` closed,
    /// `None` not yet reported.
    pub skylight_state: Option<bool>,
}

/// The app name an event carries.
pub open spec fn ev_app(e: CameraEvent) -> Seq<char> {
    match e {
        CameraEvent::Started { app_name, .. } => app_name@,
        CameraEvent::Stopped { app_name, .. } => app_name@,
    }
}

/// The timestamp an event carries.
pub open spec fn ev_ts(e: CameraEvent) -> int {
    match e {
        CameraEvent::Started { timestamp, .. } => timestamp as int,
        CameraEvent::Stopped { timestamp, .. } => timestamp as int,
    }
}

/// Whether the event reports a start of camera use.
pub open spec fn ev_is_start(e: CameraEvent) -> bool {
    e matches CameraEvent::Started { .. }
}

/// The event is `Started` for app `n` at time `ts`.
pub open spec fn started_ev(e: CameraEvent, n: Seq<char>, ts: int) -> bool {
    ev_is_start(e) && ev_app(e) == n && ev_ts(e) == ts
}

/// The event is `Stopped` for app `n` at time `ts`.
pub open spec fn stopped_ev(e: CameraEvent, n: Seq<char>, ts: int) -> bool {
    !ev_is_start(e) && ev_app(e) == n && ev_ts(e) == ts
}

/// Some event of `evs` is `Started` for app `n` at time `ts`.
pub open spec fn has_started(evs: Seq<CameraEvent>, n: Seq<char>, ts: int) -> bool {
    exists|i: int| 0 <= i < evs.len() && started_ev(#[trigger] evs[i], n, ts)
}

/// Some event of `evs` is `Stopped` for app `n` at time `ts`.
pub open spec fn has_stopped(evs: Seq<CameraEvent>, n: Seq<char>, ts: int) -> bool {
    exists|i: int| 0 <= i < evs.len() && stopped_ev(#[trigger] evs[i], n, ts)
}

/// No two events of `evs` concern the same app.
pub open spec fn distinct_apps(evs: Seq<CameraEvent>) -> bool {
    forall|i: int, j: int| 0 <= i < j < evs.len() ==> ev_app(evs[i]) != ev_app(evs[j])
}

/// Once a `Stopped` event appears, everything after it is `Stopped` too:
/// the `Started` events come first.
pub open spec fn starts_before_stops(evs: Seq<CameraEvent>) -> bool {
    forall|i: int, j: int|
        0 <= i < j < evs.len() && !ev_is_start(#[trigger] evs[i]) ==> !ev_is_start(
            #[trigger] evs[j],
        )
}

/// The events an attribution line produces, given the app sets before
/// (`prev`) and on (`cur`) the line: exactly one `Started` per newly
/// listed app, exactly one `Stopped` per app no longer listed, nothing
/// for unchanged apps, all timestamped `now`.
pub open spec fn cc_events_ok(
    cur: Set<Seq<char>>,
    prev: Set<Seq<char>>,
    evs: Seq<CameraEvent>,
    now: int,
) -> bool {
    &&& (forall|i: int| 0 <= i < evs.len() ==> ev_ts(#[trigger] evs[i]) == now)
    &&& (forall|i: int|
        0 <= i < evs.len() && ev_is_start(#[trigger] evs[i]) ==> cur.contains(ev_app(evs[i]))
            && !prev.contains(ev_app(evs[i])))
    &&& (forall|i: int|
        0 <= i < evs.len() && !ev_is_start(#[trigger] evs[i]) ==> prev.contains(ev_app(evs[i]))
            && !cur.contains(ev_app(evs[i])))
    &&& (forall|n: Seq<char>|
        cur.contains(n) && !prev.contains(n) ==> has_started(evs, n, now))
    &&& (forall|n: Seq<char>|
        prev.contains(n) && !cur.contains(n) ==> has_stopped(evs, n, now))
    &&& distinct_apps(evs)
    &&& starts_before_stops(evs)
}

/// Effect of one attribution line on the parser state and event output:
/// the stored active-set is replaced by the apps the line lists, and the
/// events are the symmetric difference against the previous set. A line
/// without the attribution marker leaves everything untouched.
pub open spec fn controlcenter_post(
    line: Seq<char>,
    pre: ParserState,
    post: ParserState,
    evs: Seq<CameraEvent>,
    now: int,
) -> bool {
    if contains_seq(line, "activeCameraAttributions"@) {
        &&& names_set(post.active_apps@) == spec_cam_apps(line)
        &&& distinct_names(post.active_apps@)
        &&& post.skylight_state == pre.skylight_state
        &&& cc_events_ok(spec_cam_apps(line), names_set(pre.active_apps@), evs, now)
    } else {
        post == pre && evs.len() == 0
    }
}

/// The camera status a `SkyLight` line reports, if any.
pub open spec fn spec_skylight_status(line: Seq<char>) -> Option<bool> {
    if contains_seq(line, "camera status 0"@) {
        Some(false)
    } else if contains_seq(line, "camera status 1"@) {
        Some(true)
    } else {
        None
    }
}

/// Effect of one `SkyLight` status line: an event is emitted only on an
/// actual transition from the last recorded status; repeated identical
/// statuses emit nothing.
pub open spec fn skylight_post(
    line: Seq<char>,
    pre: ParserState,
    post: ParserState,
    evs: Seq<CameraEvent>,
    now: int,
) -> bool {
    if contains_seq(line, "camera status"@) {
        match spec_skylight_status(line) {
            Some(st) => if pre.skylight_state == Some(st) {
                post == pre && evs.len() == 0
            } else {
                &&& post.skylight_state == Some(st)
                &&& post.active_apps == pre.active_apps
                &&& evs.len() == 1
                &&& (st ==> started_ev(evs[0], spec_app_name(line), now))
                &&& (!st ==> stopped_ev(evs[0], spec_app_name(line), now))
            },
            None => post == pre && evs.len() == 0,
        }
    } else {
        post == pre && evs.len() == 0
    }
}

/// The events a capture-session line produces: a line carrying the
/// `<private>` redaction marker never yields an event; otherwise the
/// `startRunning]:` / `stopRunning]:` markers decide.
pub open spec fn cameracapture_events(line: Seq<char>, evs: Seq<CameraEvent>, now: int) -> bool {
    if contains_seq(line, "<private>"@) {
        evs.len() == 0
    } else if contains_seq(line, "startRunning]:"@) {
        evs.len() == 1 && started_ev(evs[0], spec_app_name(line), now)
    } else if contains_seq(line, "stopRunning]:"@) {
        evs.len() == 1 && stopped_ev(evs[0], spec_app_name(line), now)
    } else {
        evs.len() == 0
    }
}

/// The events a CoreMediaIO line produces; a stop marker takes precedence
/// over a start marker when a line carries both.
pub open spec fn cmio_events(line: Seq<char>, evs: Seq<CameraEvent>, now: int) -> bool {
    let st = contains_seq(line, "startRunning"@) || contains_seq(line, "CMIODeviceStartStream"@);
    let sp = contains_seq(line, "stopRunning"@) || contains_seq(line, "CMIODeviceStopStream"@);
    if sp {
        evs.len() == 1 && stopped_ev(evs[0], spec_app_name(line), now)
    } else if st {
        evs.len() == 1 && started_ev(evs[0], spec_app_name(line), now)
    } else {
        evs.len() == 0
    }
}

/// Noise lines dropped before any subsystem dispatch.
pub open spec fn is_noise(line: Seq<char>) -> bool {
    contains_seq(line, "Filtering the log"@) || contains_seq(line, "backtrace"@)
}

/// Full effect of feeding one log line to the parser.
pub open spec fn parse_post(
    line: Seq<char>,
    sub: crate::subsystem::Subsystem,
    pre: ParserState,
    post: ParserState,
    evs: Seq<CameraEvent>,
    now: int,
) -> bool {
    if is_noise(line) {
        post == pre && evs.len() == 0
    } else {
        match sub {
            crate::subsystem::Subsystem::ControlCenter => controlcenter_post(
                line,
                pre,
                post,
                evs,
                now,
            ),
            crate::subsystem::Subsystem::SkyLight => skylight_post(line, pre, post, evs, now),
            crate::subsystem::Subsystem::CameraCapture => post == pre && cameracapture_events(
                line,
                evs,
                now,
            ),
            crate::subsystem::Subsystem::Cmio => post == pre && cmio_events(line, evs, now),
        }
    }
}

/// Appending an event keeps every started/stopped record already present.
proof fn lemma_events_push_keeps(evs: Seq<CameraEvent>, e: CameraEvent, n: Seq<char>, ts: int)
    ensures
        has_started(evs, n, ts) ==> has_started(evs.push(e), n, ts),
        has_stopped(evs, n, ts) ==> has_stopped(evs.push(e), n, ts),
{
    if has_started(evs, n, ts) {
        let i = choose|i: int| 0 <= i < evs.len() && started_ev(evs[i], n, ts);
        assert(started_ev(evs.push(e)[i], n, ts));
    }
    if has_stopped(evs, n, ts) {
        let i = choose|i: int| 0 <= i < evs.len() && stopped_ev(evs[i], n, ts);
        assert(stopped_ev(evs.push(e)[i], n, ts));
    }
}

/// Parses an `activeCameraAttributions` line: diffs the apps the line
/// lists against the stored active-set, emits `Started` for the new ones
/// and `Stopped` for the vanished ones, and stores the new set.
pub fn parse_controlcenter(line: &str, state: &mut ParserState, now: i64) -> (events: Vec<
    CameraEvent,
>)
    ensures
        controlcenter_post(line@, *old(state), *final(state), events@, now as int),
{
    if !contains_str(line, "activeCameraAttributions") {
        return Vec::new();
    }
    let cur = extract_cam_apps(line);
    let ghost cur_set = spec_cam_apps(line@);
    let ghost prev = names_set(old(state).active_apps@);
    let mut events: Vec<CameraEvent> = Vec::new();
    let n = cur.len();
    let mut i: usize = 0;
    while i < n
        invariant
            *state == *old(state),
            n == cur@.len(),
            names_set(cur@) == cur_set,
            distinct_names(cur@),
            prev == names_set(state.active_apps@),
            i <= n,
            forall|a: int| 0 <= a < events@.len() ==> ev_ts(#[trigger] events@[a]) == now,
            forall|a: int| 0 <= a < events@.len() ==> ev_is_start(#[trigger] events@[a]),
            forall|a: int|
                0 <= a < events@.len() ==> cur_set.contains(ev_app(#[trigger] events@[a]))
                    && !prev.contains(ev_app(events@[a])),
            forall|a: int|
                0 <= a < events@.len() ==> exists|k: int|
                    0 <= k < i && ev_app(#[trigger] events@[a]) == cur@[k]@,
            forall|k: int|
                0 <= k < i && !prev.contains((#[trigger] cur@[k])@) ==> has_started(
                    events@,
                    cur@[k]@,
                    now as int,
                ),
            distinct_apps(events@),
            starts_before_stops(events@),
        decreases n - i,
    {
        if !name_in_vec(&state.active_apps, &cur[i]) {
            let ghost pre_events = events@;
            events.push(
                CameraEvent::Started { app_name: cur[i].clone(), timestamp: now },
            );
            proof {
                assert(cur_set.contains(cur@[i as int]@));
                assert(started_ev(events@[events@.len() - 1], cur@[i as int]@, now as int));
                assert forall|k: int|
                    0 <= k < i + 1 && !prev.contains((#[trigger] cur@[k])@) implies has_started(
                    events@,
                    cur@[k]@,
                    now as int,
                ) by {
                    if k < i {
                        lemma_events_push_keeps(
                            pre_events,
                            events@.last(),
                            cur@[k]@,
                            now as int,
                        );
                    }
                }
            }
        }
        i = i + 1;
    }
    let ghost started = events@;
    let m = state.active_apps.len();
    let mut j: usize = 0;
    while j < m
        invariant
            *state == *old(state),
            m == state.active_apps@.len(),
            names_set(cur@) == cur_set,
            distinct_names(cur@),
            prev == names_set(state.active_apps@),
            j <= m,
            forall|a: int| 0 <= a < events@.len() ==> ev_ts(#[trigger] events@[a]) == now,
            forall|a: int|
                0 <= a < events@.len() && ev_is_start(#[trigger] events@[a]) ==> cur_set.contains(
                    ev_app(events@[a]),
                ) && !prev.contains(ev_app(events@[a])),
            forall|a: int|
                0 <= a < events@.len() && !ev_is_start(#[trigger] events@[a]) ==> prev.contains(
                    ev_app(events@[a]),
                ) && !cur_set.contains(ev_app(events@[a])),
            forall|n2: Seq<char>|
                cur_set.contains(n2) && !prev.contains(n2) ==> has_started(
                    events@,
                    n2,
                    now as int,
                ),
            forall|a: int|
                0 <= a < events@.len() && !ev_is_start(#[trigger] events@[a]) ==> exists|k: int|
                    0 <= k < j && ev_app(events@[a]) == state.active_apps@[k]@,
            forall|k: int|
                0 <= k < j && !cur_set.contains((#[trigger] state.active_apps@[k])@) ==> has_stopped(
                    events@,
                    state.active_apps@[k]@,
                    now as int,
                ),
            distinct_apps(events@),
            starts_before_stops(events@),
        decreases m - j,
    {
        let dup = name_in_prefix(&state.active_apps, j, &state.active_apps[j]);
        if !name_in_vec(&cur, &state.active_apps[j]) && !dup {
            let ghost pre_events = events@;
            events.push(
                CameraEvent::Stopped {
                    app_name: state.active_apps[j].clone(),
                    timestamp: now,
                },
            );
            proof {
                let ghost nm = state.active_apps@[j as int]@;
                assert(prev.contains(nm));
                assert(stopped_ev(events@[events@.len() - 1], nm, now as int));
                assert forall|n2: Seq<char>|
                    cur_set.contains(n2) && !prev.contains(n2) implies has_started(
                    events@,
                    n2,
                    now as int,
                ) by {
                    lemma_events_push_keeps(pre_events, events@.last(), n2, now as int);
                }
                assert forall|k: int|
                    0 <= k < j + 1 && !cur_set.contains(
                        (#[trigger] state.active_apps@[k])@,
                    ) implies has_stopped(events@, state.active_apps@[k]@, now as int) by {
                    if k < j {
                        lemma_events_push_keeps(
                            pre_events,
                            events@.last(),
                            state.active_apps@[k]@,
                            now as int,
                        );
                    }
                }
            }
        } else {
            proof {
                if !cur_set.contains(state.active_apps@[j as int]@) && dup {
                    let k = choose|k: int|
                        0 <= k < j && state.active_apps@[k]@ == state.active_apps@[j as int]@;
                    assert(has_stopped(events@, state.active_apps@[k]@, now as int));
                }
            }
        }
        j = j + 1;
    }
    proof {
        assert forall|n2: Seq<char>|
            prev.contains(n2) && !cur_set.contains(n2) implies has_stopped(
            events@,
            n2,
            now as int,
        ) by {
            let k = choose|k: int|
                0 <= k < state.active_apps@.len() && state.active_apps@[k]@ == n2;
            assert(has_stopped(events@, state.active_apps@[k]@, now as int));
        }
    }
    state.active_apps = cur;
    events
}

/// Parses a `camera status 0/1` line, emitting an event only when the
/// reported status differs from the last recorded one.
pub fn parse_skylight(line: &str, state: &mut ParserState, now: i64) -> (events: Vec<CameraEvent>)
    ensures
        skylight_post(line@, *old(state), *final(state), events@, now as int),
{
    if !contains_str(line, "camera status") {
        return Vec::new();
    }
    if contains_str(line, "camera status 0") {
        let already = match state.skylight_state {
            Some(false) => true,
            _ => false,
        };
        if !already {
            state.skylight_state = Some(false);
            let mut events: Vec<CameraEvent> = Vec::new();
            events.push(
                CameraEvent::Stopped { app_name: extract_app_name(line), timestamp: now },
            );
            return events;
        }
        Vec::new()
    } else if contains_str(line, "camera status 1") {
        let already = match state.skylight_state {
            Some(true) => true,
            _ => false,
        };
        if !already {
            state.skylight_state = Some(true);
            let mut events: Vec<CameraEvent> = Vec::new();
            events.push(
                CameraEvent::Started { app_name: extract_app_name(line), timestamp: now },
            );
            return events;
        }
        Vec::new()
    } else {
        Vec::new()
    }
}

/// Parses a capture-session line; `<private>`-redacted lines carry no
/// usable app identity and are dropped.
pub fn parse_cameracapture(line: &str, now: i64) -> (events: Vec<CameraEvent>)
    ensures
        cameracapture_events(line@, events@, now as int),
{
    if contains_str(line, "<private>") {
        return Vec::new();
    }
    let is_start = contains_str(line, "startRunning]:");
    let is_stop = contains_str(line, "stopRunning]:");
    if !is_start && !is_stop {
        return Vec::new();
    }
    let app_name = extract_app_name(line);
    let mut events: Vec<CameraEvent> = Vec::new();
    if is_start {
        events.push(CameraEvent::Started { app_name, timestamp: now });
    } else {
        events.push(CameraEvent::Stopped { app_name, timestamp: now });
    }
    events
}

/// Parses a CoreMediaIO line; a stop marker wins over a start marker.
pub fn parse_cmio(line: &str, now: i64) -> (events: Vec<CameraEvent>)
    ensures
        cmio_events(line@, events@, now as int),
{
    let is_start = contains_str(line, "startRunning") || contains_str(
        line,
        "CMIODeviceStartStream",
    );
    let is_stop = contains_str(line, "stopRunning") || contains_str(line, "CMIODeviceStopStream");
    if !is_start && !is_stop {
        return Vec::new();
    }
    let app_name = extract_app_name(line);
    let mut events: Vec<CameraEvent> = Vec::new();
    if is_stop {
        events.push(CameraEvent::Stopped { app_name, timestamp: now });
    } else {
        events.push(CameraEvent::Started { app_name, timestamp: now });
    }
    events
}

/// Parses a single log line for the given subsystem and returns the
/// camera events it reports, zero to many, each timestamped `now`. Known
/// noise lines are dropped before any dispatch.
pub fn parse_log_line(
    line: &str,
    subsystem: &crate::subsystem::Subsystem,
    state: &mut ParserState,
    now: i64,
) -> (events: Vec<CameraEvent>)
    ensures
        parse_post(line@, *subsystem, *old(state), *final(state), events@, now as int),
{
    if contains_str(line, "Filtering the log") || contains_str(line, "backtrace") {
        return Vec::new();
    }
    match subsystem {
        crate::subsystem::Subsystem::ControlCenter => parse_controlcenter(line, state, now),
        crate::subsystem::Subsystem::SkyLight => parse_skylight(line, state, now),
        crate::subsystem::Subsystem::CameraCapture => parse_cameracapture(line, now),
        crate::subsystem::Subsystem::Cmio => parse_cmio(line, now),
    }
}

/// Feeding the same attribution line twice in a row yields events only on
/// the first call: after the first parse the stored active-set already
/// equals what the line lists, so the second diff is empty.
pub proof fn lemma_controlcenter_idempotent(
    line: Seq<char>,
    s0: ParserState,
    s1: ParserState,
    s2: ParserState,
    evs1: Seq<CameraEvent>,
    evs2: Seq<CameraEvent>,
    t1: int,
    t2: int,
)
    requires
        parse_post(line, crate::subsystem::Subsystem::ControlCenter, s0, s1, evs1, t1),
        parse_post(line, crate::subsystem::Subsystem::ControlCenter, s1, s2, evs2, t2),
    ensures
        evs2.len() == 0,
{
    if !is_noise(line) && contains_seq(line, "activeCameraAttributions"@) {
        if evs2.len() > 0 {
            assert(ev_ts(evs2[0]) == t2);
        }
    }
}

/// A camera status equal to the one already recorded yields no further
/// event: feeding the same status line twice emits at most one event, on
/// the first call.
pub proof fn lemma_skylight_idempotent(
    line: Seq<char>,
    s0: ParserState,
    s1: ParserState,
    s2: ParserState,
    evs1: Seq<CameraEvent>,
    evs2: Seq<CameraEvent>,
    t1: int,
    t2: int,
)
    requires
        parse_post(line, crate::subsystem::Subsystem::SkyLight, s0, s1, evs1, t1),
        parse_post(line, crate::subsystem::Subsystem::SkyLight, s1, s2, evs2, t2),
    ensures
        evs2.len() == 0,
{
}

} // verus!
