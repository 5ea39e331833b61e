//! The list of past sessions.

use vstd::prelude::*;
use crate::history::{records, sorted, ServerSessionHistory};
use crate::models::{ServerSessionRecord, MINUTE_PATTERN};
use crate::outside::time_text;
use crate::text;
use crate::text::{dec, join, strs};

verus! {

/// The whole minutes of a time, toward zero.
pub open spec fn whole_minutes(d: int) -> int {
    if d >= 0 {
        d / 60
    } else {
        -((-d) / 60)
    }
}

/// The seconds that are left of a time.
pub open spec fn left_seconds(d: int) -> int {
    if d >= 0 {
        d % 60
    } else {
        -((-d) % 60)
    }
}

/// How long a session was, in words.
pub open spec fn duration_text(d: int) -> Seq<char> {
    if whole_minutes(d) != 0 {
        dec(whole_minutes(d)) + "m "@ + dec(left_seconds(d)) + "s"@
    } else {
        dec(left_seconds(d)) + "s"@
    }
}

/// Parts a time into minutes and seconds.
pub(crate) fn minutes_and_seconds(d: i64) -> (r: (i64, i64))
    ensures
        r.0 == whole_minutes(d as int),
        r.1 == left_seconds(d as int),
{
    let wide: i128 = d as i128;
    if d >= 0 {
        (d / 60, d % 60)
    } else {
        let n: i128 = -wide;
        (-((n / 60) as i64), -((n % 60) as i64))
    }
}

fn duration_words(d: i64) -> (r: String)
    ensures
        r@ == duration_text(d as int),
{
    let (m, s): (i64, i64) = minutes_and_seconds(d);
    if m != 0 {
        let mut out: String = text::dec_i64(m);
        out.append("m ");
        out.append(text::dec_i64(s).as_str());
        out.append("s");
        out
    } else {
        let mut out: String = text::dec_i64(s);
        out.append("s");
        out
    }
}

/// The name that stands in a row.
pub open spec fn title_text(name: Seq<char>) -> Seq<char> {
    if name.len() == 0 {
        "Unknown Source"@
    } else {
        name
    }
}

/// Names the source of a session.
pub fn row_title(record: &ServerSessionRecord) -> (r: String)
    ensures
        r@ == title_text(record.source_info.name@),
{
    if record.source_info.name.as_str().is_empty() {
        "Unknown Source".to_owned()
    } else {
        record.source_info.name.clone()
    }
}

/// The parts of the line below the name: when, how long, how large where that
/// is known, and how much, which is given in words.
pub open spec fn row_parts(r: ServerSessionRecord, data: Seq<char>) -> Seq<Seq<char>> {
    let when = time_text(
        MINUTE_PATTERN@,
        r.timestamp.secs,
        r.timestamp.nanos,
        r.timestamp.offset,
    );
    let size = dec(r.stats.resolution.0 as int) + "x"@ + dec(r.stats.resolution.1 as int);
    seq![when, duration_text(r.stats.duration as int)] + if r.stats.resolution.0 > 0 {
        seq![size]
    } else {
        Seq::empty()
    } + seq![data]
}

/// Writes the line below the name.
pub fn row_subtitle(record: &ServerSessionRecord, data: &str) -> (r: String)
    requires
        record.wf(),
    ensures
        r@ == join(row_parts(*record, data@), " · "@),
{
    let mut parts: Vec<String> = Vec::new();
    parts.push(record.timestamp.to_minute());
    parts.push(duration_words(record.stats.duration));
    let (w, h): (u32, u32) = record.stats.resolution;
    if w > 0 {
        let mut size: String = text::dec_u64(w as u64);
        size.append("x");
        size.append(text::dec_u64(h as u64).as_str());
        parts.push(size);
    }
    parts.push(data.to_owned());
    assert(strs(parts@) =~= row_parts(*record, data@));
    text::join_strings(&parts, " · ")
}

/// The rows of the list, the newest session first, and whether there is
/// anything to clear.
pub fn refresh(history: &ServerSessionHistory) -> (r: (Vec<ServerSessionRecord>, bool))
    requires
        history.wf(),
    ensures
        records(r.0@) == sorted(records(history.sessions@), true),
        forall|i: int| 0 <= i < r.0@.len() ==> (#[trigger] r.0@[i]).wf(),
        r.1 == (r.0@.len() > 0),
{
    let rows: Vec<ServerSessionRecord> = history.get_sessions();
    let any: bool = rows.len() > 0;
    (rows, any)
}

/// Whether the answer to the question before clearing agrees.
pub fn clear_confirmed(response: &str) -> (r: bool)
    ensures
        r == (response@ == "clear"@),
{
    text::same_str(response, "clear")
}

} // verus!
