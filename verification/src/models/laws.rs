//! What holds of the checks on a connection and on the numbers of a session.

use vstd::prelude::*;
use vstd::utf8::{is_ascii_chars, is_ascii_chars_encode_utf8};
use crate::json::{
    field, int_of, lemma_member_at, num, object, real_of, JsonModel, NumberModel,
};
use crate::models::{
    connection_fault, first_missing, first_non_integer, future_fault, interface_fault, ipv4_fault,
    is_hex, later, mac_fault, octet_fault, octets_fault, record_of, source_members, source_of,
    stats_fault, stats_members, stats_of, ConnectionModel, SourceModel, StatsModel, Timestamp,
};
use crate::net_backend::native::laws::lemma_mac_chars;
use crate::net_backend::native::mac_text;
use crate::text;
use crate::text::{dec, digits, split_char};

verus! {

proof fn lemma_leading_digit(n: int)
    requires
        n > 0,
    ensures
        digits(n, 10, false).len() > 0,
        digits(n, 10, false)[0] != '0',
    decreases n,
{
    if n >= 10 {
        assert(0 < n / 10 < n) by (nonlinear_arith)
            requires
                n >= 10,
        ;
        lemma_leading_digit(n / 10);
    }
}

proof fn lemma_octet(n: int, name: Seq<char>)
    requires
        0 <= n <= i64::MAX,
    ensures
        octet_fault(dec(n), name) is None <==> n <= 255,
        !dec(n).contains('.'),
{
    text::lemma_dec_read_back(n);
    text::lemma_digits_read_back(n, 10, false);
    if n > 0 {
        lemma_leading_digit(n);
    } else {
        assert(dec(0).len() == 1);
    }
    assert forall|i: int| 0 <= i < dec(n).len() implies dec(n)[i] != '.' by {}
}

/// An address in dotted decimals.
pub open spec fn dotted(a: int, b: int, c: int, d: int) -> Seq<char> {
    dec(a) + "."@ + dec(b) + "."@ + dec(c) + "."@ + dec(d)
}

/// An address of four numbers is accepted where none of them is over 255, and
/// refused otherwise.
pub proof fn law_octets_are_bytes(a: int, b: int, c: int, d: int, name: Seq<char>)
    requires
        0 <= a <= i64::MAX,
        0 <= b <= i64::MAX,
        0 <= c <= i64::MAX,
        0 <= d <= i64::MAX,
    ensures
        ipv4_fault(dotted(a, b, c, d), name) is None <==> a <= 255 && b <= 255 && c <= 255 && d
            <= 255,
{
    reveal_strlit(".");
    lemma_octet(a, name);
    lemma_octet(b, name);
    lemma_octet(c, name);
    lemma_octet(d, name);
    let z = dec(d);
    let y = dec(c).push('.') + z;
    let x = dec(b).push('.') + y;
    let t = dotted(a, b, c, d);
    assert(t =~= dec(a).push('.') + x);
    text::lemma_split_char_between(dec(a), '.', x);
    text::lemma_split_char_between(dec(b), '.', y);
    text::lemma_split_char_between(dec(c), '.', z);
    text::lemma_split_char_solid(dec(a), '.');
    text::lemma_split_char_solid(dec(b), '.');
    text::lemma_split_char_solid(dec(c), '.');
    text::lemma_split_char_solid(z, '.');
    let parts = split_char(t, '.');
    assert(parts =~= seq![dec(a), dec(b), dec(c), dec(d)]);
    reveal_with_fuel(octets_fault, 5);
    let p1 = parts.skip(1);
    let p2 = p1.skip(1);
    let p3 = p2.skip(1);
    assert(parts[0] == dec(a) && p1[0] == dec(b) && p2[0] == dec(c) && p3[0] == dec(d));
    assert(p3.skip(1).len() == 0);
    assert(octets_fault(p3.skip(1), name) is None);
}

/// An octet with a zero before its other digits is refused, and so is a text
/// that is not made of four parts.
pub proof fn law_odd_addresses_are_refused(value: Seq<char>, name: Seq<char>)
    ensures
        split_char(value, '.').len() != 4 ==> ipv4_fault(value, name) is Some,
        split_char(value, '.').len() == 4 && (exists|i: int|
            0 <= i < 4 && (#[trigger] split_char(value, '.')[i]).len() > 1 && split_char(
                value,
                '.',
            )[i][0] == '0') ==> ipv4_fault(value, name) is Some,
        split_char(value, '.').len() == 4 && (exists|i: int|
            0 <= i < 4 && (#[trigger] split_char(value, '.')[i]).len() == 0) ==> ipv4_fault(
            value,
            name,
        ) is Some,
{
    let parts = split_char(value, '.');
    if parts.len() == 4 {
        reveal_with_fuel(octets_fault, 5);
        let p1 = parts.skip(1);
        let p2 = p1.skip(1);
        let p3 = p2.skip(1);
        assert(p1[0] == parts[1] && p2[0] == parts[2] && p3[0] == parts[3]);
        if ipv4_fault(value, name) is None {
            assert(octet_fault(parts[0], name) is None);
            assert(octet_fault(parts[1], name) is None);
            assert(octet_fault(parts[2], name) is None);
            assert(octet_fault(parts[3], name) is None);
        }
    }
}

/// The hardware addresses that the library writes are accepted, and nothing that
/// is not six pairs of hexadecimal digits with colons between them is.
pub proof fn law_written_address_is_accepted(mac: Seq<u8>, value: Seq<char>, name: Seq<char>)
    requires
        mac.len() == 6,
    ensures
        mac_fault(mac_text(mac), name) is None,
        value.len() != 17 ==> mac_fault(value, name) is Some,
        value.len() == 17 && (exists|i: int|
            0 <= i < 17 && i % 3 == 2 && #[trigger] value[i] != ':') ==> mac_fault(value, name) is Some,
        value.len() == 17 && (exists|i: int|
            0 <= i < 17 && i % 3 != 2 && !is_hex(#[trigger] value[i])) ==> mac_fault(
            value,
            name,
        ) is Some,
{
    lemma_mac_chars(mac);
    let t = mac_text(mac);
    assert forall|i: int| 0 <= i < 17 implies if i % 3 == 2 {
        #[trigger] t[i] == ':'
    } else {
        is_hex(t[i])
    } by {}
}

/// The name of a group interface in ASCII is accepted where it has two to
/// sixteen characters.
pub proof fn law_interface_names_are_short(value: Seq<char>, name: Seq<char>)
    requires
        is_ascii_chars(value),
    ensures
        interface_fault(value, name) is None <==> 2 <= value.len() <= 16,
{
    is_ascii_chars_encode_utf8(value);
}

/// A connection may be up to a second ahead of the present, and no more.
pub proof fn law_future_is_refused(value: Timestamp, now: Timestamp, name: Seq<char>)
    requires
        value.nanos < 1_000_000_000,
        now.nanos < 1_000_000_000,
    ensures
        future_fault(value, now, name) is Some <==> value.secs * 1_000_000_000 + value.nanos
            > now.secs * 1_000_000_000 + now.nanos + 1_000_000_000,
{
}

/// One point in time is later than another where more time has passed until
/// then, wherever the two were taken.
pub proof fn law_later_goes_by_the_instant(a: Timestamp, b: Timestamp)
    requires
        a.nanos < 1_000_000_000,
        b.nanos < 1_000_000_000,
    ensures
        later(a, b) <==> a.secs * 1_000_000_000 + a.nanos > b.secs * 1_000_000_000 + b.nanos,
{
}

/// A connection is accepted where each of its fields is. What is said of one
/// that is not begins with the field that is wrong.
pub proof fn law_connection_is_checked_in_full(c: ConnectionModel, now: Timestamp)
    ensures
        connection_fault(c, now) is None <==> mac_fault(c.peer_address, "peer_address"@) is None
            && ipv4_fault(c.peer_ip, "peer_ip"@) is None && interface_fault(
            c.group_interface,
            "group_interface"@,
        ) is None && ipv4_fault(c.our_ip, "our_ip"@) is None && future_fault(
            c.connected_at,
            now,
            "connected_at"@,
        ) is None,
        mac_fault(c.peer_address, "peer_address"@) is Some ==> (connection_fault(c, now) matches
        Some(m) && "peer_address"@.is_prefix_of(m)),
{
    if let Some(m) = mac_fault(c.peer_address, "peer_address"@) {
        assert(m.take("peer_address"@.len() as int) =~= "peer_address"@);
    }
}

/// Each part of a source is stored under its name.
pub proof fn law_source_is_stored_under_its_names(s: SourceModel)
    ensures
        ({
            let v = object(source_members(s));
            &&& field(v, "name"@) == Some(JsonModel::Text(s.name))
            &&& field(v, "address"@) == Some(JsonModel::Text(s.address))
            &&& field(v, "model"@) == Some(JsonModel::Text(s.model))
            &&& field(v, "resolution"@) matches Some(JsonModel::Array(a)) && a.len() == 2 && a[0]
                == num(s.resolution.0 as int) && a[1] == num(s.resolution.1 as int)
            &&& field(v, "codec"@) == Some(JsonModel::Text(s.codec))
            &&& field(v, "audio_codec"@) == Some(JsonModel::Text(s.audio_codec))
        }),
{
    let m = source_members(s);
    reveal_strlit("name");
    reveal_strlit("address");
    reveal_strlit("model");
    reveal_strlit("resolution");
    reveal_strlit("codec");
    reveal_strlit("audio_codec");
    assert(m[0].0.len() == 4 && m[1].0.len() == 7 && m[2].0.len() == 5 && m[3].0.len() == 10
        && m[4].0.len() == 5 && m[5].0.len() == 11);
    assert(m[2].0[0] == 'm' && m[4].0[0] == 'c');
    lemma_member_at(m, "name"@, 0);
    lemma_member_at(m, "address"@, 1);
    lemma_member_at(m, "model"@, 2);
    lemma_member_at(m, "resolution"@, 3);
    lemma_member_at(m, "codec"@, 4);
    lemma_member_at(m, "audio_codec"@, 5);
}

/// Each number of a session is stored under its name, and so are its times.
pub proof fn law_numbers_are_stored_under_their_names(
    s: StatsModel,
    start: Seq<char>,
    end: Option<Seq<char>>,
)
    ensures
        ({
            let v = object(stats_members(s, start, end));
            &&& field(v, "start_time"@) == Some(JsonModel::Text(start))
            &&& end matches Some(t) ==> field(v, "end_time"@) == Some(JsonModel::Text(t))
            &&& end is None ==> field(v, "end_time"@) == Some(JsonModel::Null)
            &&& field(v, "duration"@) == Some(num(s.duration as int))
            &&& field(v, "data_received"@) == Some(num(s.data_received as int))
            &&& field(v, "average_bitrate"@) == Some(
                JsonModel::Number(NumberModel::Real(s.average_bitrate)),
            )
            &&& field(v, "peak_bitrate"@) == Some(
                JsonModel::Number(NumberModel::Real(s.peak_bitrate)),
            )
            &&& field(v, "frames_decoded"@) == Some(num(s.frames_decoded as int))
            &&& field(v, "frames_dropped"@) == Some(num(s.frames_dropped as int))
            &&& field(v, "errors"@) == Some(num(s.errors as int))
            &&& field(v, "codec"@) == Some(JsonModel::Text(s.codec))
        }),
{
    let m = stats_members(s, start, end);
    reveal_strlit("start_time");
    reveal_strlit("end_time");
    reveal_strlit("duration");
    reveal_strlit("data_received");
    reveal_strlit("average_bitrate");
    reveal_strlit("peak_bitrate");
    reveal_strlit("frames_decoded");
    reveal_strlit("frames_dropped");
    reveal_strlit("errors");
    reveal_strlit("resolution");
    reveal_strlit("codec");
    assert(m[0].0.len() == 10 && m[1].0.len() == 8 && m[2].0.len() == 8 && m[3].0.len() == 13
        && m[4].0.len() == 15 && m[5].0.len() == 12 && m[6].0.len() == 14 && m[7].0.len() == 14
        && m[8].0.len() == 6 && m[9].0.len() == 10 && m[10].0.len() == 5);
    assert(m[0].0[0] == 's' && m[9].0[0] == 'r' && m[1].0[0] == 'e' && m[2].0[0] == 'd');
    assert(m[6].0[8] == 'e' && m[7].0[8] == 'r');
    lemma_member_at(m, "start_time"@, 0);
    lemma_member_at(m, "end_time"@, 1);
    lemma_member_at(m, "duration"@, 2);
    lemma_member_at(m, "data_received"@, 3);
    lemma_member_at(m, "average_bitrate"@, 4);
    lemma_member_at(m, "peak_bitrate"@, 5);
    lemma_member_at(m, "frames_decoded"@, 6);
    lemma_member_at(m, "frames_dropped"@, 7);
    lemma_member_at(m, "errors"@, 8);
    lemma_member_at(m, "codec"@, 10);
}

/// A record is read only from an object with a source, numbers and a time, whose
/// required parts are all there and of their kind. Nothing is read in part.
pub proof fn law_records_are_read_in_full(v: JsonModel)
    ensures
        record_of(v) is Ok ==> v is Object && (field(v, "source_info"@) matches Some(s)
            && source_of(s) is Ok) && (field(v, "stats"@) matches Some(n) && stats_of(n) is Ok)
            && field(v, "timestamp"@) is Some,
        source_of(v) is Ok ==> v is Object && field(v, "name"@) is Some && field(
            v,
            "address"@,
        ) is Some && field(v, "model"@) is Some,
        stats_of(v) is Ok ==> v is Object && field(v, "start_time"@) is Some && (field(
            v,
            "duration"@,
        ) matches Some(x) && int_of(x) is Some) && (field(v, "data_received"@) matches Some(x)
            && int_of(x) is Some) && (field(v, "frames_decoded"@) matches Some(x)
            && int_of(x) is Some) && (field(v, "frames_dropped"@) matches Some(x)
            && int_of(x) is Some) && (field(v, "errors"@) matches Some(x) ==> int_of(x) is Some)
            && (field(v, "average_bitrate"@) matches Some(x) ==> real_of(x) is Some) && (field(
            v,
            "peak_bitrate"@,
        ) matches Some(x) ==> real_of(x) is Some),
{
    reveal_with_fuel(first_missing, 6);
    reveal_with_fuel(first_non_integer, 5);
    let a = seq!["source_info"@, "stats"@, "timestamp"@];
    assert(a.skip(1)[0] == "stats"@);
    assert(a.skip(1).skip(1)[0] == "timestamp"@);
    let b = seq!["name"@, "address"@, "model"@];
    assert(b.skip(1)[0] == "address"@);
    assert(b.skip(1).skip(1)[0] == "model"@);
    let c = seq![
        "start_time"@,
        "duration"@,
        "data_received"@,
        "frames_decoded"@,
        "frames_dropped"@,
    ];
    assert(c.skip(1)[0] == "duration"@);
    assert(c.skip(1).skip(1)[0] == "data_received"@);
    assert(c.skip(1).skip(1).skip(1)[0] == "frames_decoded"@);
    assert(c.skip(1).skip(1).skip(1).skip(1)[0] == "frames_dropped"@);
    let d = seq!["duration"@, "data_received"@, "frames_decoded"@, "frames_dropped"@];
    assert(d.skip(1)[0] == "data_received"@);
    assert(d.skip(1).skip(1)[0] == "frames_decoded"@);
    assert(d.skip(1).skip(1).skip(1)[0] == "frames_dropped"@);
}

/// The numbers of a session are accepted where none is negative and no more
/// frames were dropped than decoded.
pub proof fn law_numbers_are_checked(s: StatsModel)
    ensures
        stats_fault(s) is None <==> s.duration >= 0 && s.data_received >= 0 && 0
            <= s.frames_dropped <= s.frames_decoded,
{
}

} // verus!
