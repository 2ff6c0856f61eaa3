//! The session data model: one session records one contiguous interval
//! during which an application used the camera. A session is `Running`
//! until an end time is recorded, then `Completed` with its duration.

use vstd::prelude::*;
use crate::timefmt::{rfc3339_of, rfc3339_parsed, ts_to_rfc3339, rfc3339_to_ts, TS_MAX};
use crate::text::str_eq;

verus! {

/// Status of a recorded camera session: `Running` while the application is
/// still using the camera, `Completed` once an end time has been recorded.
#[derive(Debug, Clone, Copy, PartialEq, Eq, Structural)]
pub enum SessionStatus {
    Running,
    Completed,
}

/// One recorded camera session. The identity is assigned by the store on
/// first persist. Exactly one of these holds at all times: the end time is
/// present and the status is `Completed`, or the end time is absent and
/// the status is `Running`.
#[derive(Debug)]
pub struct Session {
    pub id: Option<i64>,
    pub app_name: String,
    /// Unix seconds.
    pub start_time: i64,
    /// Unix seconds; present exactly on `Completed` sessions.
    pub end_time: Option<i64>,
    /// Whole seconds, never negative; present exactly on `Completed`
    /// sessions, computed as `max(0, end_time - start_time)`.
    pub duration_secs: Option<i64>,
    pub status: SessionStatus,
}

/// Mathematical model of a `Session`.
pub ghost struct SessionModel {
    pub id: Option<int>,
    pub app_name: Seq<char>,
    pub start_time: int,
    pub end_time: Option<int>,
    pub duration_secs: Option<int>,
    pub status: SessionStatus,
}

impl View for Session {
    type V = SessionModel;

    open spec fn view(&self) -> SessionModel {
        SessionModel {
            id: match self.id {
                Some(i) => Some(i as int),
                None => None,
            },
            app_name: self.app_name@,
            start_time: self.start_time as int,
            end_time: match self.end_time {
                Some(t) => Some(t as int),
                None => None,
            },
            duration_secs: match self.duration_secs {
                Some(d) => Some(d as int),
                None => None,
            },
            status: self.status,
        }
    }
}

/// The duration a session closed at `end` gets: `max(0, end - start)`.
pub open spec fn spec_duration(start: int, end: int) -> int {
    if end >= start {
        end - start
    } else {
        0
    }
}

/// The session invariant: timestamps in the representable range, and the
/// end time, duration and status consistent with one another.
pub open spec fn valid_session(s: SessionModel) -> bool {
    &&& 0 <= s.start_time <= TS_MAX as int
    &&& match s.end_time {
        Some(e) => {
            &&& 0 <= e <= TS_MAX as int
            &&& s.status == SessionStatus::Completed
            &&& s.duration_secs == Some(spec_duration(s.start_time, e))
        },
        None => s.status == SessionStatus::Running && s.duration_secs is None,
    }
    &&& match s.id {
        Some(i) => 1 <= i <= i64::MAX as int,
        None => true,
    }
}

/// The model of `s` after it is closed at time `end`.
pub open spec fn closed_session(s: SessionModel, end: int) -> SessionModel {
    SessionModel {
        end_time: Some(end),
        duration_secs: Some(spec_duration(s.start_time, end)),
        status: SessionStatus::Completed,
        ..s
    }
}

impl Clone for Session {
    /// The copy carries the same model as the value it copies.
    fn clone(&self) -> (res: Self)
        ensures
            res@ == self@,
    {
        Session {
            id: self.id,
            app_name: self.app_name.clone(),
            start_time: self.start_time,
            end_time: self.end_time,
            duration_secs: self.duration_secs,
            status: self.status,
        }
    }
}

impl Session {
    /// A fresh `Running` session for `app_name` starting at `start_time`,
    /// with no identity yet.
    pub fn new(app_name: String, start_time: i64) -> (r: Session)
        requires
            0 <= start_time <= TS_MAX,
        ensures
            r@ == (SessionModel {
                id: None,
                app_name: app_name@,
                start_time: start_time as int,
                end_time: None,
                duration_secs: None,
                status: SessionStatus::Running,
            }),
            valid_session(r@),
    {
        Session {
            id: None,
            app_name,
            start_time,
            end_time: None,
            duration_secs: None,
            status: SessionStatus::Running,
        }
    }

    /// Closes the session at `end_time`: records the end time, the
    /// duration `max(0, end - start)`, and the `Completed` status.
    pub fn close(&mut self, end_time: i64)
        requires
            0 <= old(self).start_time <= TS_MAX,
            0 <= end_time <= TS_MAX,
        ensures
            final(self)@ == closed_session(old(self)@, end_time as int),
            valid_session(old(self)@) ==> valid_session(final(self)@),
    {
        self.end_time = Some(end_time);
        self.duration_secs = Some(
            if end_time >= self.start_time {
                end_time - self.start_time
            } else {
                0
            },
        );
        self.status = SessionStatus::Completed;
    }

    /// Whether the session satisfies its invariant.
    pub fn is_valid(&self) -> (r: bool)
        ensures
            r == valid_session(self@),
    {
        if !(0 <= self.start_time && self.start_time <= TS_MAX) {
            return false;
        }
        let id_ok = match self.id {
            Some(i) => 1 <= i,
            None => true,
        };
        if !id_ok {
            return false;
        }
        match self.end_time {
            Some(e) => {
                if !(0 <= e && e <= TS_MAX) {
                    return false;
                }
                let dur = if e >= self.start_time {
                    e - self.start_time
                } else {
                    0
                };
                let dur_ok = match self.duration_secs {
                    Some(d) => d == dur,
                    None => false,
                };
                matches!(self.status, SessionStatus::Completed) && dur_ok
            },
            None => matches!(self.status, SessionStatus::Running)
                && self.duration_secs.is_none(),
        }
    }
}

/// The stored text of a status.
pub open spec fn spec_status_string(st: SessionStatus) -> Seq<char> {
    match st {
        SessionStatus::Running => "running"@,
        SessionStatus::Completed => "completed"@,
    }
}

/// The status a stored text denotes; unrecognized text reads as
/// `Completed`, the conservative choice for old or foreign rows.
pub open spec fn spec_status_of(s: Seq<char>) -> SessionStatus {
    if s == "running"@ {
        SessionStatus::Running
    } else {
        SessionStatus::Completed
    }
}

/// Renders a status as its stored text.
pub fn status_to_string(status: &SessionStatus) -> (r: &'static str)
    ensures
        r@ == spec_status_string(*status),
{
    match status {
        SessionStatus::Running => "running",
        SessionStatus::Completed => "completed",
    }
}

/// Reads a status back from its stored text.
pub fn string_to_status(s: &str) -> (r: SessionStatus)
    ensures
        r == spec_status_of(s@),
{
    if str_eq(s, "running") {
        SessionStatus::Running
    } else {
        SessionStatus::Completed
    }
}

/// A session in its string form: timestamps rendered as RFC 3339, the
/// status as its stored text. This is the shape the persisted store and
/// the outward-facing listing both use.
#[derive(Debug)]
pub struct SessionDto {
    pub id: Option<i64>,
    pub app_name: String,
    pub start_time: String,
    pub end_time: Option<String>,
    pub duration_secs: Option<i64>,
    pub status: String,
}

/// Mathematical model of a `SessionDto`.
pub ghost struct DtoModel {
    pub id: Option<int>,
    pub app_name: Seq<char>,
    pub start_time: Seq<char>,
    pub end_time: Option<Seq<char>>,
    pub duration_secs: Option<int>,
    pub status: Seq<char>,
}

impl View for SessionDto {
    type V = DtoModel;

    open spec fn view(&self) -> DtoModel {
        DtoModel {
            id: match self.id {
                Some(i) => Some(i as int),
                None => None,
            },
            app_name: self.app_name@,
            start_time: self.start_time@,
            end_time: match self.end_time {
                Some(ref t) => Some(t@),
                None => None,
            },
            duration_secs: match self.duration_secs {
                Some(d) => Some(d as int),
                None => None,
            },
            status: self.status@,
        }
    }
}

/// The string form of a session model.
pub open spec fn dto_of_session(s: SessionModel) -> DtoModel {
    DtoModel {
        id: s.id,
        app_name: s.app_name,
        start_time: rfc3339_of(s.start_time),
        end_time: match s.end_time {
            Some(e) => Some(rfc3339_of(e)),
            None => None,
        },
        duration_secs: s.duration_secs,
        status: spec_status_string(s.status),
    }
}

/// The session a string form denotes: `None` when a timestamp does not
/// parse as RFC 3339.
pub open spec fn session_of_dto(d: DtoModel) -> Option<SessionModel> {
    match rfc3339_parsed(d.start_time) {
        None => None,
        Some(st) => match d.end_time {
            None => Some(SessionModel {
                id: d.id,
                app_name: d.app_name,
                start_time: st,
                end_time: None,
                duration_secs: d.duration_secs,
                status: spec_status_of(d.status),
            }),
            Some(es) => match rfc3339_parsed(es) {
                None => None,
                Some(e) => Some(SessionModel {
                    id: d.id,
                    app_name: d.app_name,
                    start_time: st,
                    end_time: Some(e),
                    duration_secs: d.duration_secs,
                    status: spec_status_of(d.status),
                }),
            },
        },
    }
}

impl Session {
    /// Renders the session in its string form. The rendered timestamps
    /// parse back to the timestamps they came from.
    pub fn to_dto(&self) -> (r: SessionDto)
        requires
            valid_session(self@),
        ensures
            r@ == dto_of_session(self@),
            rfc3339_parsed(r@.start_time) == Some(self@.start_time),
            match (r@.end_time, self@.end_time) {
                (Some(es), Some(e)) => rfc3339_parsed(es) == Some(e),
                (None, None) => true,
                _ => false,
            },
    {
        SessionDto {
            id: self.id,
            app_name: self.app_name.clone(),
            start_time: ts_to_rfc3339(self.start_time),
            end_time: match self.end_time {
                Some(e) => Some(ts_to_rfc3339(e)),
                None => None,
            },
            duration_secs: self.duration_secs,
            status: status_to_string(&self.status).to_owned(),
        }
    }
}

impl SessionDto {
    /// Reads a session back from its string form; `None` when a timestamp
    /// does not parse.
    pub fn to_session(&self) -> (r: Option<Session>)
        ensures
            match r {
                Some(s) => session_of_dto(self@) == Some(s@),
                None => session_of_dto(self@) is None,
            },
    {
        let start_time = match rfc3339_to_ts(self.start_time.as_str()) {
            Some(t) => t,
            None => {
                return None;
            },
        };
        let end_time = match self.end_time {
            Some(ref es) => match rfc3339_to_ts(es.as_str()) {
                Some(e) => Some(e),
                None => {
                    return None;
                },
            },
            None => None,
        };
        Some(
            Session {
                id: self.id,
                app_name: self.app_name.clone(),
                start_time,
                end_time,
                duration_secs: self.duration_secs,
                status: string_to_status(self.status.as_str()),
            },
        )
    }
}

/// Round trip: a session rendered to its string form and read back is
/// reproduced exactly - the app name, both timestamps and the computed
/// duration all survive the trip through RFC 3339 text.
pub proof fn lemma_dto_round_trip(s: SessionModel, d: DtoModel)
    requires
        valid_session(s),
        d == dto_of_session(s),
        rfc3339_parsed(d.start_time) == Some(s.start_time),
        match (d.end_time, s.end_time) {
            (Some(es), Some(e)) => rfc3339_parsed(es) == Some(e),
            (None, None) => true,
            _ => false,
        },
    ensures
        session_of_dto(d) == Some(s),
{
    reveal_strlit("running");
    reveal_strlit("completed");
    assert("completed"@.len() == 9);
    assert("running"@.len() == 7);
    assert(spec_status_of(spec_status_string(s.status)) == s.status);
}

} // verus!
