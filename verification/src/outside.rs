//! What the library takes from other crates and from std without proof.

use vstd::prelude::*;
use vstd::utf8::{decode_utf8, is_ascii_chars, valid_utf8};
use crate::connection::{station_from, STATION_CONNECTED_PATTERN, STATION_LOST_PATTERN};
use crate::models::{is_mac, ISO_PATTERN, MAC_PATTERN, MINUTE_PATTERN};
use crate::text::{ascii_lower, hex_lower};
use crate::utils::{is_safe_param, WPA_PARAM_PATTERN};

verus! {

/// `String::push` appends the given character to the end of the string.
pub assume_specification[ String::push ](s: &mut String, c: char)
    ensures
        final(s)@ == old(s)@.push(c),
;

/// What `String::from_utf8_lossy` makes of bytes.
pub uninterp spec fn utf8_lossy(data: Seq<u8>) -> Seq<char>;

/// `String::from_utf8_lossy`: bytes read as UTF-8, with replacement characters
/// where they are not valid. Valid bytes give exactly the text they encode; how
/// invalid ones are replaced is left to the name.
#[verifier::external_body]
pub(crate) fn from_utf8_lossy(data: &[u8]) -> (r: String)
    ensures
        r@ == utf8_lossy(data@),
        valid_utf8(data@) ==> r@ == decode_utf8(data@),
{
    String::from_utf8_lossy(data).into_owned()
}

/// What the `Debug` form of a string is: the text in double quotes, with the
/// characters that need it written as escapes.
pub uninterp spec fn debug_form(s: Seq<char>) -> Seq<char>;

/// `Debug` for `str`, as `{:?}` writes it. Which characters are escaped is left
/// to the name.
#[verifier::external_body]
pub(crate) fn debug_quoted(s: &str) -> (r: String)
    ensures
        r@ == debug_form(s@),
{
    format!("{s:?}")
}

/// What `str::to_lowercase` makes of a text.
pub uninterp spec fn unicode_lower(s: Seq<char>) -> Seq<char>;

/// `str::to_lowercase`: the text in lower case after Unicode's rules. For text
/// that is all ASCII that changes the letters `A` to `Z` and nothing else; the
/// rest is left to the name.
#[verifier::external_body]
pub(crate) fn to_lowercase(s: &str) -> (r: String)
    ensures
        r@ == unicode_lower(s@),
        is_ascii_chars(s@) ==> r@ == ascii_lower(s@),
{
    s.to_lowercase()
}

/// Whether a pattern is one of those that the library uses.
pub open spec fn known_pattern(pattern: Seq<char>) -> bool {
    ||| pattern == MAC_PATTERN@
    ||| pattern == WPA_PARAM_PATTERN@
    ||| pattern == STATION_LOST_PATTERN@
}

/// `Regex::new` and `Regex::is_match`: whether the text matches the pattern.
/// For each of the known patterns the contract says which texts those are. A
/// white space in a pattern stands for any character with Unicode's
/// `White_Space` property, and `$` only for the end of the text.
#[verifier::external_body]
pub(crate) fn regex_is_match(pattern: &str, text: &str) -> (r: bool)
    requires
        known_pattern(pattern@),
    ensures
        pattern@ == MAC_PATTERN@ ==> r == is_mac(text@),
        pattern@ == WPA_PARAM_PATTERN@ ==> r == is_safe_param(text@),
        pattern@ == STATION_LOST_PATTERN@ ==> r == (station_from(
            text@,
            "AP-STA-DISCONNECTED"@,
            0,
        ) is Some),
{
    regex::Regex::new(pattern).unwrap().is_match(text)
}

/// `Regex::new` and `Regex::captures`: the first group of the leftmost match of
/// the pattern, if there is a match. The contract says what that is for the one
/// pattern with a group that the library uses.
#[verifier::external_body]
pub(crate) fn regex_first_group(pattern: &str, text: &str) -> (r: Option<String>)
    requires
        pattern@ == STATION_CONNECTED_PATTERN@,
    ensures
        match r {
            Some(v) => station_from(text@, "AP-STA-CONNECTED"@, 0) == Some(v@),
            None => station_from(text@, "AP-STA-CONNECTED"@, 0) is None,
        },
{
    let re = regex::Regex::new(pattern).unwrap();
    re.captures(text).map(|c| c[1].to_string())
}

/// `rand::Rng::gen_range` on the thread's generator: some number between the
/// two bounds, both of which may come up.
#[verifier::external_body]
pub(crate) fn random_between(low: u32, high: u32) -> (r: u32)
    requires
        low <= high,
    ensures
        low <= r <= high,
{
    rand::Rng::gen_range(&mut rand::thread_rng(), low..=high)
}

/// `chrono::Local::now`: the seconds since 1970 and the nanoseconds of the
/// present, and how many seconds the local time is ahead. The clock gives no
/// leap second and no time before 1970.
#[verifier::external_body]
pub(crate) fn local_now() -> (r: (i64, u32, i32))
    ensures
        0 <= r.0 <= 8_210_266_876_799,
        r.1 < 1_000_000_000,
        -86_400 < r.2 < 86_400,
{
    let now = chrono::Local::now();
    (now.timestamp(), now.timestamp_subsec_nanos(), now.offset().local_minus_utc())
}

/// Whether `DateTime::from_timestamp` has a time for these seconds and
/// nanoseconds. Nanoseconds past a full second stand for a leap second.
pub open spec fn is_instant(secs: i64, nanos: u32) -> bool {
    &&& -8_334_601_228_800 <= secs <= 8_210_266_876_799
    &&& nanos < 1_000_000_000 || (nanos < 2_000_000_000 && secs % 60 == 59)
}

/// `DateTime::with_timezone` to `Local`: how many seconds the local time is
/// ahead at an instant. That depends on the machine.
#[verifier::external_body]
pub(crate) fn local_offset(secs: i64, nanos: u32) -> (r: i32)
    requires
        is_instant(secs, nanos),
    ensures
        -86_400 < r < 86_400,
{
    let utc = chrono::DateTime::from_timestamp(secs, nanos).unwrap();
    utc.with_timezone(&chrono::Local).offset().local_minus_utc()
}

/// What `DateTime::parse_from_rfc3339` makes of a text: the seconds, the
/// nanoseconds and the offset, or the words of its error.
pub uninterp spec fn rfc3339(text: Seq<char>) -> Result<(i64, u32, i32), Seq<char>>;

/// A text that was read as an instant and an offset.
pub open spec fn read_time(t: (i64, u32, i32)) -> Result<(i64, u32, i32), Seq<char>> {
    Ok(t)
}

/// A text that could not be read, with the reason.
pub open spec fn unread_time(why: Seq<char>) -> Result<(i64, u32, i32), Seq<char>> {
    Err(why)
}

/// `DateTime::parse_from_rfc3339`: the instant and the offset that a text in the
/// form of RFC 3339 gives. The year has four digits and the offset is under a
/// day; the rest is left to the name.
#[verifier::external_body]
pub(crate) fn parse_rfc3339(text: &str) -> (r: Result<(i64, u32, i32), String>)
    ensures
        match r {
            Ok(t) => rfc3339(text@) == read_time(t),
            Err(e) => rfc3339(text@) == unread_time(e@),
        },
        r matches Ok(t) ==> is_instant(t.0, t.1) && -86_400 < t.2 < 86_400,
{
    chrono::DateTime::parse_from_rfc3339(text)
        .map(|d| (d.timestamp(), d.timestamp_subsec_nanos(), d.offset().local_minus_utc()))
        .map_err(|e| e.to_string())
}

/// What `DateTime::format` makes of an instant at an offset.
pub uninterp spec fn time_text(pattern: Seq<char>, secs: i64, nanos: u32, offset: i32) -> Seq<char>;

/// Whether the local time of an instant has a year of four digits and an offset
/// of full minutes.
pub open spec fn is_plain_time(secs: i64, offset: i32) -> bool {
    &&& -62_167_219_200 <= secs + offset <= 253_402_300_799
    &&& offset % 60 == 0
}

/// `DateTime::format` on an instant at a fixed offset, with one of the two
/// patterns of the library. With the one that writes microseconds and the offset
/// in hours and minutes, a plain time is read back by `parse_from_rfc3339` as the
/// same instant without what is smaller than a microsecond; a leap second is
/// written as the second 60 and read back as one.
#[verifier::external_body]
pub(crate) fn format_time(pattern: &str, secs: i64, nanos: u32, offset: i32) -> (r: String)
    requires
        pattern@ == ISO_PATTERN@ || pattern@ == MINUTE_PATTERN@,
        is_instant(secs, nanos),
        -86_400 < offset < 86_400,
    ensures
        r@ == time_text(pattern@, secs, nanos, offset),
        pattern@ == ISO_PATTERN@ && is_plain_time(secs, offset) ==> rfc3339(r@) == read_time(
            (secs, (nanos - nanos % 1000) as u32, offset),
        ),
{
    let zone = chrono::FixedOffset::east_opt(offset).unwrap();
    let utc = chrono::DateTime::from_timestamp(secs, nanos).unwrap();
    utc.with_timezone(&zone).format(pattern).to_string()
}

/// A character as it stands inside a JSON string: the quote, the backslash and
/// the control characters are written as escapes.
pub open spec fn json_escape(c: char) -> Seq<char> {
    if c == '"' {
        seq!['\\', '"']
    } else if c == '\\' {
        seq!['\\', '\\']
    } else if c == '\u{8}' {
        seq!['\\', 'b']
    } else if c == '\u{c}' {
        seq!['\\', 'f']
    } else if c == '\n' {
        seq!['\\', 'n']
    } else if c == '\r' {
        seq!['\\', 'r']
    } else if c == '\t' {
        seq!['\\', 't']
    } else if c <= '\u{1f}' {
        "\\u00"@ + hex_lower(c as int, 2)
    } else {
        seq![c]
    }
}

/// A text as a JSON string.
pub open spec fn json_string(s: Seq<char>) -> Seq<char> {
    seq!['"'] + s.map_values(|c: char| json_escape(c)).flatten() + seq!['"']
}

/// `serde_json::to_string` on a `str`: the text as a JSON string. The contract
/// says which characters are escaped and how; all others stand as they are.
#[verifier::external_body]
pub(crate) fn quote_json(s: &str) -> (r: String)
    ensures
        r@ == json_string(s@),
{
    serde_json::to_string(s).unwrap()
}

/// What `serde_json` writes of the number that it reads in a text; nothing where
/// the text is no JSON value.
pub uninterp spec fn json_number(text: Seq<char>) -> Option<Seq<char>>;

/// `serde_json::from_str` to a `Value` and `Value::to_string`: the number that a
/// text gives, as JSON writes it. How a double-precision number is rounded and
/// written is left to the name.
#[verifier::external_body]
pub(crate) fn rewrite_number(text: &str) -> (r: Option<String>)
    ensures
        match r {
            Some(t) => json_number(text@) == Some(t@),
            None => json_number(text@) is None,
        },
{
    serde_json::from_str::<serde_json::Value>(text).ok().map(|v| v.to_string())
}

} // verus!
