//! Rendering sessions as CSV text: one header line, then one line per
//! session with the app name (commas escaped), both timestamps as RFC 3339,
//! the duration in seconds and the status. Writing the text to a file is
//! the caller's business.

use vstd::prelude::*;
use crate::session::{valid_session, Session, SessionModel, SessionStatus};
use crate::store::rows_model;
use crate::timefmt::{rfc3339_of, ts_to_rfc3339};

verus! {

/// The decimal digit character for `d`.
pub open spec fn digit_char_of(d: int) -> char {
    if d == 0 {
        '0'
    } else if d == 1 {
        '1'
    } else if d == 2 {
        '2'
    } else if d == 3 {
        '3'
    } else if d == 4 {
        '4'
    } else if d == 5 {
        '5'
    } else if d == 6 {
        '6'
    } else if d == 7 {
        '7'
    } else if d == 8 {
        '8'
    } else {
        '9'
    }
}

/// The decimal rendering of a non-negative integer, most significant digit
/// first.
pub open spec fn dec_str(n: int) -> Seq<char>
    decreases n,
{
    if n < 0 {
        Seq::empty()
    } else if n < 10 {
        seq![digit_char_of(n)]
    } else {
        dec_str(n / 10).push(digit_char_of(n % 10))
    }
}

/// Exec mirror of `digit_char_of`.
fn digit_char_exec(d: i64) -> (r: char)
    requires
        0 <= d <= 9,
    ensures
        r == digit_char_of(d as int),
{
    if d == 0 {
        '0'
    } else if d == 1 {
        '1'
    } else if d == 2 {
        '2'
    } else if d == 3 {
        '3'
    } else if d == 4 {
        '4'
    } else if d == 5 {
        '5'
    } else if d == 6 {
        '6'
    } else if d == 7 {
        '7'
    } else if d == 8 {
        '8'
    } else {
        '9'
    }
}

/// Relies on `String::push`: appends exactly the one character.
#[verifier::external_body]
fn push_char(s: &mut String, c: char)
    ensures
        final(s)@ == old(s)@.push(c),
{
    s.push(c);
}

/// Appends the decimal rendering of `n`.
fn push_dec(s: &mut String, n: i64)
    requires
        n >= 0,
    ensures
        final(s)@ == old(s)@ + dec_str(n as int),
    decreases n,
{
    if n < 10 {
        push_char(s, digit_char_exec(n));
        proof {
            assert(s@ =~= old(s)@ + dec_str(n as int));
        }
    } else {
        push_dec(s, n / 10);
        push_char(s, digit_char_exec(n % 10));
        proof {
            assert(s@ =~= old(s)@ + dec_str(n as int));
        }
    }
}

/// Renders a non-negative integer in decimal.
pub fn i64_to_string(n: i64) -> (r: String)
    requires
        n >= 0,
    ensures
        r@ == dec_str(n as int),
{
    let mut s = String::new();
    push_dec(&mut s, n);
    proof {
        assert(s@ =~= dec_str(n as int));
    }
    s
}

/// The app name with each comma replaced by a semicolon, so that it cannot
/// break the CSV column layout.
pub open spec fn escape_app(name: Seq<char>) -> Seq<char> {
    name.map_values(|c: char| if c == ',' { ';' } else { c })
}

/// Exec mirror of `escape_app`.
pub fn escape_app_name(name: &str) -> (r: String)
    ensures
        r@ == escape_app(name@),
{
    let len = name.unicode_len();
    let mut out = String::new();
    let mut i: usize = 0;
    while i < len
        invariant
            len == name@.len(),
            i <= len,
            out@ == escape_app(name@.subrange(0, i as int)),
        decreases len - i,
    {
        let c = name.get_char(i);
        if c == ',' {
            push_char(&mut out, ';');
        } else {
            push_char(&mut out, c);
        }
        proof {
            assert(out@ =~= escape_app(name@.subrange(0, i + 1)));
        }
        i = i + 1;
    }
    proof {
        assert(name@.subrange(0, len as int) =~= name@);
    }
    out
}

/// The status column text; capitalized, as the export format has it.
pub open spec fn csv_status(st: SessionStatus) -> Seq<char> {
    match st {
        SessionStatus::Running => "Running"@,
        SessionStatus::Completed => "Completed"@,
    }
}

/// The CSV header line.
pub open spec fn csv_header() -> Seq<char> {
    "App Name,Start Time,End Time,Duration (seconds),Status\n"@
}

/// The CSV line for one session. An absent end time or duration renders as
/// an empty column.
pub open spec fn csv_row(s: SessionModel) -> Seq<char> {
    escape_app(s.app_name) + ","@ + rfc3339_of(s.start_time) + ","@ + (match s.end_time {
        Some(e) => rfc3339_of(e),
        None => Seq::empty(),
    }) + ","@ + (match s.duration_secs {
        Some(d) => dec_str(d),
        None => Seq::empty(),
    }) + ","@ + csv_status(s.status) + "\n"@
}

/// The CSV lines of the rows from index `i` on.
pub open spec fn csv_rows_from(rows: Seq<SessionModel>, i: int) -> Seq<char>
    decreases rows.len() - i,
{
    if i < 0 || i >= rows.len() {
        Seq::empty()
    } else {
        csv_row(rows[i]) + csv_rows_from(rows, i + 1)
    }
}

/// The whole export: header line, then one line per session, in order.
pub open spec fn spec_sessions_csv(rows: Seq<SessionModel>) -> Seq<char> {
    csv_header() + csv_rows_from(rows, 0)
}

/// Appending a row's line commutes with taking one more row.
proof fn lemma_csv_rows_step(rows: Seq<SessionModel>, i: int, acc: Seq<char>)
    requires
        0 <= i < rows.len(),
    ensures
        acc + csv_rows_from(rows, i) == (acc + csv_row(rows[i])) + csv_rows_from(rows, i + 1),
{
    assert(acc + (csv_row(rows[i]) + csv_rows_from(rows, i + 1)) =~= (acc + csv_row(rows[i]))
        + csv_rows_from(rows, i + 1));
}

/// Renders the sessions as CSV text, header first, one line per session in
/// the given order.
pub fn export_sessions_to_csv(sessions: &Vec<Session>) -> (r: String)
    requires
        forall|i: int|
            0 <= i < sessions@.len() ==> valid_session((#[trigger] sessions@[i])@),
    ensures
        r@ == spec_sessions_csv(rows_model(sessions@)),
{
    let ghost m = rows_model(sessions@);
    let mut out = String::from_str("App Name,Start Time,End Time,Duration (seconds),Status\n");
    let n = sessions.len();
    let mut i: usize = 0;
    while i < n
        invariant
            n == sessions@.len(),
            i <= n,
            m == rows_model(sessions@),
            forall|j: int|
                0 <= j < sessions@.len() ==> valid_session((#[trigger] sessions@[j])@),
            out@ + csv_rows_from(m, i as int) == spec_sessions_csv(m),
        decreases n - i,
    {
        let ghost pre = out@;
        let s = &sessions[i];
        proof {
            assert(valid_session(s@));
            assert(m[i as int] == s@);
        }
        let app = escape_app_name(s.app_name.as_str());
        out.append(app.as_str());
        out.append(",");
        let start = ts_to_rfc3339(s.start_time);
        out.append(start.as_str());
        out.append(",");
        match s.end_time {
            Some(e) => {
                let end = ts_to_rfc3339(e);
                out.append(end.as_str());
            },
            None => {},
        }
        out.append(",");
        match s.duration_secs {
            Some(d) => {
                let dur = i64_to_string(d);
                out.append(dur.as_str());
            },
            None => {},
        }
        out.append(",");
        match s.status {
            SessionStatus::Running => out.append("Running"),
            SessionStatus::Completed => out.append("Completed"),
        }
        out.append("\n");
        proof {
            assert(out@ =~= pre + csv_row(m[i as int]));
            lemma_csv_rows_step(m, i as int, pre);
        }
        i = i + 1;
    }
    proof {
        assert(csv_rows_from(m, n as int) == Seq::<char>::empty());
        assert(out@ + Seq::<char>::empty() =~= out@);
    }
    out
}

} // verus!
