//! What is known of a connected source and of a session.

pub mod laws;

use vstd::prelude::*;
use vstd::utf8::encode_utf8;
use crate::json::{
    field, int_of, lemma_member_at, lemma_views, members, num, object, real_of, unsigned_of, values,
    written, Json, JsonModel, Members, Number, NumberModel, Real, RealModel,
};
use crate::outside::{
    format_time, is_instant, is_plain_time, local_now, local_offset, parse_rfc3339, read_time,
    regex_is_match, rfc3339, time_text,
};
use crate::text;
use crate::text::{as_i64, split_char, texts};

verus! {

/// A hardware address: six pairs of hexadecimal digits with colons between.
pub const MAC_PATTERN: &'static str = r"^([0-9A-Fa-f]{2}:){5}[0-9A-Fa-f]{2}$";

/// How a point in time is written.
pub const ISO_PATTERN: &'static str = "%Y-%m-%dT%H:%M:%S%.6f%:z";

/// How a point in time is shown, to the minute.
pub const MINUTE_PATTERN: &'static str = "%Y-%m-%d %H:%M";

/// Whether a character is a hexadecimal digit.
pub open spec fn is_hex(c: char) -> bool {
    ('0' <= c && c <= '9') || ('a' <= c && c <= 'f') || ('A' <= c && c <= 'F')
}

/// Whether a text is a hardware address.
pub open spec fn is_mac(s: Seq<char>) -> bool {
    s.len() == 17 && forall|i: int|
        0 <= i < 17 ==> if i % 3 == 2 {
            #[trigger] s[i] == ':'
        } else {
            is_hex(s[i])
        }
}

/// Why a value was refused, as `field: reason`.
#[derive(Debug, Clone)]
pub struct ValidationError(pub String);

impl ValidationError {
    /// The message in words.
    pub fn to_string(&self) -> (r: String)
        ensures
            r@ == self.0@,
    {
        self.0.clone()
    }
}

/// A check as contracts see it.
pub open spec fn fault(r: Result<(), ValidationError>) -> Option<Seq<char>> {
    match r {
        Ok(_) => None,
        Err(e) => Some(e.0@),
    }
}

fn refusal(field_name: &str, reason: &str) -> (r: ValidationError)
    ensures
        r.0@ == field_name@ + reason@,
{
    ValidationError(text::joined(field_name.to_owned(), reason))
}

/// A point in time: seconds since 1970 and nanoseconds, and how many seconds
/// the local time is ahead there.
#[derive(Debug, Clone, Copy, PartialEq, Eq, Structural)]
pub struct Timestamp {
    pub secs: i64,
    pub nanos: u32,
    pub offset: i32,
}

/// Whether a point in time is later than another, wherever they were taken.
pub open spec fn later(a: Timestamp, b: Timestamp) -> bool {
    a.secs > b.secs || (a.secs == b.secs && a.nanos > b.nanos)
}

/// The same point in time without regard to where it was taken.
pub open spec fn utc(t: Timestamp) -> Timestamp {
    Timestamp { offset: 0, ..t }
}

/// Whether a point in time can be the present of the clock.
pub open spec fn is_present(t: Timestamp) -> bool {
    t.wf() && t.secs >= 0 && t.nanos < 1_000_000_000
}

impl Timestamp {
    /// Whether the numbers make up a point in time.
    pub open spec fn wf(&self) -> bool {
        is_instant(self.secs, self.nanos) && -86_400 < self.offset < 86_400
    }

    /// Whether the point in time is written so that it can be read back.
    pub open spec fn is_plain(&self) -> bool {
        is_plain_time(self.secs, self.offset)
    }

    /// The present.
    pub fn now() -> (r: Timestamp)
        ensures
            is_present(r),
    {
        let (secs, nanos, offset): (i64, u32, i32) = local_now();
        Timestamp { secs, nanos, offset }
    }

    /// Whether this is later than another point in time.
    pub fn is_later(&self, other: &Timestamp) -> (r: bool)
        ensures
            r == later(*self, *other),
    {
        self.secs > other.secs || (self.secs == other.secs && self.nanos > other.nanos)
    }

    /// The full seconds from an earlier clock time to this one; zero where the
    /// other is not earlier.
    pub fn seconds_since(&self, start: &Timestamp) -> (r: i64)
        requires
            self.wf(),
            start.wf(),
            self.nanos < 1_000_000_000,
            start.nanos < 1_000_000_000,
        ensures
            r == {
                let total = (self.secs - start.secs) * 1_000_000_000 + self.nanos - start.nanos;
                if total > 0 {
                    total / 1_000_000_000
                } else {
                    0
                }
            },
    {
        let whole: i64 = self.secs - start.secs;
        let full: i64 = if self.nanos < start.nanos {
            whole - 1
        } else {
            whole
        };
        if full > 0 {
            full
        } else {
            0
        }
    }

    /// The point in time as it is shown.
    pub fn to_minute(&self) -> (r: String)
        requires
            self.wf(),
        ensures
            r@ == time_text(MINUTE_PATTERN@, self.secs, self.nanos, self.offset),
    {
        format_time(MINUTE_PATTERN, self.secs, self.nanos, self.offset)
    }

    /// The point in time in words.
    pub fn iso(&self) -> (r: String)
        requires
            self.wf(),
        ensures
            r@ == iso_text(*self),
            self.is_plain() ==> rfc3339(r@) == read_time(
                (self.secs, (self.nanos - self.nanos % 1000) as u32, self.offset),
            ),
    {
        format_time(ISO_PATTERN, self.secs, self.nanos, self.offset)
    }
}

/// How a point in time is written.
pub open spec fn iso_text(t: Timestamp) -> Seq<char> {
    time_text(ISO_PATTERN@, t.secs, t.nanos, t.offset)
}

/// Why a text is no hardware address.
pub open spec fn mac_fault(value: Seq<char>, name: Seq<char>) -> Option<Seq<char>> {
    if is_mac(value) {
        None
    } else {
        Some(name + ": must be a valid MAC address in XX:XX:XX:XX:XX:XX format"@)
    }
}

/// Checks that a text is a hardware address.
pub fn validate_mac_address(value: &str, field_name: &str) -> (r: Result<(), ValidationError>)
    ensures
        fault(r) == mac_fault(value@, field_name@),
{
    if regex_is_match(MAC_PATTERN, value) {
        Ok(())
    } else {
        Err(refusal(field_name, ": must be a valid MAC address in XX:XX:XX:XX:XX:XX format"))
    }
}

/// Why a part of an address is no octet.
pub open spec fn octet_fault(part: Seq<char>, name: Seq<char>) -> Option<Seq<char>> {
    if part.len() > 1 && part[0] == '0' {
        Some(name + ": must be a valid IPv4 address (no leading zeros in octets)"@)
    } else {
        match as_i64(part) {
            None => Some(
                name + ": must be a valid IPv4 address in dotted-decimal notation"@,
            ),
            Some(n) => if 0 <= n <= 255 {
                None
            } else {
                Some(name + ": must be a valid IPv4 address (octets must be 0-255)"@)
            },
        }
    }
}

/// What is wrong with the first part that is no octet.
pub open spec fn octets_fault(parts: Seq<Seq<char>>, name: Seq<char>) -> Option<Seq<char>>
    decreases parts.len(),
{
    if parts.len() == 0 {
        None
    } else {
        match octet_fault(parts[0], name) {
            Some(e) => Some(e),
            None => octets_fault(parts.skip(1), name),
        }
    }
}

/// Why a text is no IPv4 address.
pub open spec fn ipv4_fault(value: Seq<char>, name: Seq<char>) -> Option<Seq<char>> {
    let parts = split_char(value, '.');
    if parts.len() != 4 {
        Some(name + ": must be a valid IPv4 address in dotted-decimal notation"@)
    } else {
        octets_fault(parts, name)
    }
}

/// Checks that a text is an IPv4 address in dotted decimals.
pub fn validate_ipv4_address(value: &str, field_name: &str) -> (r: Result<(), ValidationError>)
    ensures
        fault(r) == ipv4_fault(value@, field_name@),
{
    let all: Vec<char> = text::chars_of(value);
    let parts: Vec<Vec<char>> = text::pieces(all.as_slice(), '.');
    let ghost ps = texts(parts@);
    if parts.len() != 4 {
        return Err(
            refusal(field_name, ": must be a valid IPv4 address in dotted-decimal notation"),
        );
    }
    let mut i: usize = 0;
    assert(ps.skip(0) =~= ps);
    while i < parts.len()
        invariant
            i <= parts@.len(),
            ps == texts(parts@),
            ps == split_char(value@, '.'),
            ps.len() == 4,
            octets_fault(ps, field_name@) == octets_fault(ps.skip(i as int), field_name@),
        decreases parts.len() - i,
    {
        let part: &Vec<char> = &parts[i];
        assert(ps.skip(i as int)[0] == part@);
        assert(ps.skip(i as int).skip(1) =~= ps.skip(i + 1));
        if part.len() > 1 && part[0] == '0' {
            return Err(
                refusal(
                    field_name,
                    ": must be a valid IPv4 address (no leading zeros in octets)",
                ),
            );
        }
        match text::read_i64(part.as_slice()) {
            None => {
                return Err(
                    refusal(
                        field_name,
                        ": must be a valid IPv4 address in dotted-decimal notation",
                    ),
                );
            },
            Some(n) => {
                if n < 0 || n > 255 {
                    return Err(
                        refusal(
                            field_name,
                            ": must be a valid IPv4 address (octets must be 0-255)",
                        ),
                    );
                }
            },
        }
        i += 1;
    }
    Ok(())
}

/// Why a name cannot be that of a group interface.
pub open spec fn interface_fault(value: Seq<char>, name: Seq<char>) -> Option<Seq<char>> {
    if 2 <= encode_utf8(value).len() <= 16 {
        None
    } else {
        Some(name + ": must be between 2 and 16 characters"@)
    }
}

/// Checks the length of the name of a group interface.
pub fn validate_group_interface(value: &str, field_name: &str) -> (r: Result<(), ValidationError>)
    ensures
        fault(r) == interface_fault(value@, field_name@),
{
    let n: usize = value.as_bytes().len();
    if n < 2 || n > 16 {
        Err(refusal(field_name, ": must be between 2 and 16 characters"))
    } else {
        Ok(())
    }
}

/// Why a point in time cannot be that of a connection: it is more than a second
/// ahead of the present.
pub open spec fn future_fault(
    value: Timestamp,
    now: Timestamp,
    name: Seq<char>,
) -> Option<Seq<char>> {
    if value.secs > now.secs + 1 || (value.secs == now.secs + 1 && value.nanos > now.nanos) {
        Some(name + ": must not be in the future"@)
    } else {
        None
    }
}

/// Checks that a point in time is not ahead of the given present.
pub fn validate_connected_at(value: &Timestamp, now: &Timestamp, field_name: &str) -> (r: Result<
    (),
    ValidationError,
>)
    requires
        now.wf(),
    ensures
        fault(r) == future_fault(*value, *now, field_name@),
{
    let limit: Timestamp = Timestamp { secs: now.secs + 1, nanos: now.nanos, offset: now.offset };
    if value.is_later(&limit) {
        Err(refusal(field_name, ": must not be in the future"))
    } else {
        Ok(())
    }
}

/// A connected source.
#[derive(Debug, Clone)]
pub struct IncomingConnection {
    pub peer_address: String,
    pub peer_ip: String,
    pub peer_name: String,
    pub group_interface: String,
    pub our_ip: String,
    pub connected_at: Timestamp,
    pub go_role: bool,
}

/// A connected source as contracts see it.
pub struct ConnectionModel {
    pub peer_address: Seq<char>,
    pub peer_ip: Seq<char>,
    pub peer_name: Seq<char>,
    pub group_interface: Seq<char>,
    pub our_ip: Seq<char>,
    pub connected_at: Timestamp,
    pub go_role: bool,
}

impl View for IncomingConnection {
    type V = ConnectionModel;

    open spec fn view(&self) -> ConnectionModel {
        ConnectionModel {
            peer_address: self.peer_address@,
            peer_ip: self.peer_ip@,
            peer_name: self.peer_name@,
            group_interface: self.group_interface@,
            our_ip: self.our_ip@,
            connected_at: self.connected_at,
            go_role: self.go_role,
        }
    }
}

/// Why a connection cannot be one, at the given present: the first field that
/// is wrong.
pub open spec fn connection_fault(c: ConnectionModel, now: Timestamp) -> Option<Seq<char>> {
    match mac_fault(c.peer_address, "peer_address"@) {
        Some(e) => Some(e),
        None => match ipv4_fault(c.peer_ip, "peer_ip"@) {
            Some(e) => Some(e),
            None => match interface_fault(c.group_interface, "group_interface"@) {
                Some(e) => Some(e),
                None => match ipv4_fault(c.our_ip, "our_ip"@) {
                    Some(e) => Some(e),
                    None => future_fault(c.connected_at, now, "connected_at"@),
                },
            },
        },
    }
}

impl IncomingConnection {
    /// A copy of the description.
    pub fn copy(&self) -> (r: IncomingConnection)
        ensures
            r@ == self@,
    {
        IncomingConnection {
            peer_address: self.peer_address.clone(),
            peer_ip: self.peer_ip.clone(),
            peer_name: self.peer_name.clone(),
            group_interface: self.group_interface.clone(),
            our_ip: self.our_ip.clone(),
            connected_at: self.connected_at,
            go_role: self.go_role,
        }
    }

    /// A connection as of the given present, if its fields are valid.
    pub fn try_new_at(
        peer_address: &str,
        peer_ip: &str,
        peer_name: &str,
        group_interface: &str,
        our_ip: &str,
        connected_at: Timestamp,
        go_role: bool,
        now: &Timestamp,
    ) -> (r: Result<IncomingConnection, ValidationError>)
        requires
            now.wf(),
        ensures
            ({
                let c = ConnectionModel {
                    peer_address: peer_address@,
                    peer_ip: peer_ip@,
                    peer_name: peer_name@,
                    group_interface: group_interface@,
                    our_ip: our_ip@,
                    connected_at,
                    go_role,
                };
                match connection_fault(c, *now) {
                    Some(m) => r matches Err(e) && e.0@ == m,
                    None => r matches Ok(v) && v@ == c,
                }
            }),
    {
        validate_mac_address(peer_address, "peer_address")?;
        validate_ipv4_address(peer_ip, "peer_ip")?;
        validate_group_interface(group_interface, "group_interface")?;
        validate_ipv4_address(our_ip, "our_ip")?;
        validate_connected_at(&connected_at, now, "connected_at")?;
        Ok(
            IncomingConnection {
                peer_address: peer_address.to_owned(),
                peer_ip: peer_ip.to_owned(),
                peer_name: peer_name.to_owned(),
                group_interface: group_interface.to_owned(),
                our_ip: our_ip.to_owned(),
                connected_at,
                go_role,
            },
        )
    }

    /// A connection, if its fields are valid. Whether its time lies ahead is
    /// judged by the clock.
    pub fn try_new(
        peer_address: &str,
        peer_ip: &str,
        peer_name: &str,
        group_interface: &str,
        our_ip: &str,
        connected_at: Timestamp,
        go_role: bool,
    ) -> (r: Result<IncomingConnection, ValidationError>)
        ensures
            ({
                let c = ConnectionModel {
                    peer_address: peer_address@,
                    peer_ip: peer_ip@,
                    peer_name: peer_name@,
                    group_interface: group_interface@,
                    our_ip: our_ip@,
                    connected_at,
                    go_role,
                };
                exists|now: Timestamp|
                    #![trigger connection_fault(c, now)]
                    is_present(now) && match connection_fault(c, now) {
                        Some(m) => r matches Err(e) && e.0@ == m,
                        None => r matches Ok(v) && v@ == c,
                    }
            }),
    {
        let now: Timestamp = Timestamp::now();
        let r: Result<IncomingConnection, ValidationError> = Self::try_new_at(
            peer_address,
            peer_ip,
            peer_name,
            group_interface,
            our_ip,
            connected_at,
            go_role,
            &now,
        );
        proof {
            let c = ConnectionModel {
                peer_address: peer_address@,
                peer_ip: peer_ip@,
                peer_name: peer_name@,
                group_interface: group_interface@,
                our_ip: our_ip@,
                connected_at,
                go_role,
            };
            assert(is_present(now) && match connection_fault(c, now) {
                Some(m) => r matches Err(e) && e.0@ == m,
                None => r matches Ok(v) && v@ == c,
            });
        }
        r
    }
}

/// The numbers of a session.
#[derive(Debug)]
pub struct ReceiverStats {
    pub start_time: Timestamp,
    pub end_time: Option<Timestamp>,
    pub duration: i64,
    pub data_received: i64,
    pub average_bitrate: Real,
    pub peak_bitrate: Real,
    pub frames_decoded: i64,
    pub frames_dropped: i64,
    pub errors: i64,
    pub resolution: (u32, u32),
    pub codec: String,
}

/// The numbers of a session as contracts see them.
pub struct StatsModel {
    pub start_time: Timestamp,
    pub end_time: Option<Timestamp>,
    pub duration: i64,
    pub data_received: i64,
    pub average_bitrate: RealModel,
    pub peak_bitrate: RealModel,
    pub frames_decoded: i64,
    pub frames_dropped: i64,
    pub errors: i64,
    pub resolution: (u32, u32),
    pub codec: Seq<char>,
}

impl View for ReceiverStats {
    type V = StatsModel;

    open spec fn view(&self) -> StatsModel {
        StatsModel {
            start_time: self.start_time,
            end_time: self.end_time,
            duration: self.duration,
            data_received: self.data_received,
            average_bitrate: self.average_bitrate@,
            peak_bitrate: self.peak_bitrate@,
            frames_decoded: self.frames_decoded,
            frames_dropped: self.frames_dropped,
            errors: self.errors,
            resolution: self.resolution,
            codec: self.codec@,
        }
    }
}

/// What is wrong with the numbers of a session.
pub open spec fn stats_fault(s: StatsModel) -> Option<Seq<char>> {
    if s.duration < 0 {
        Some("duration: must be a non-negative integer"@)
    } else if s.data_received < 0 {
        Some("data_received: must be a non-negative integer"@)
    } else if s.frames_decoded < 0 {
        Some("frames_decoded: must be a non-negative integer"@)
    } else if s.frames_dropped < 0 {
        Some("frames_dropped: must be a non-negative integer"@)
    } else if s.frames_decoded < s.frames_dropped {
        Some("frames_decoded: must be greater than or equal to frames_dropped"@)
    } else {
        None
    }
}

/// The numbers of a session that starts at the given time.
pub open spec fn fresh_stats(start: Timestamp) -> StatsModel {
    StatsModel {
        start_time: start,
        end_time: None,
        duration: 0,
        data_received: 0,
        average_bitrate: RealModel::Thousandths(0),
        peak_bitrate: RealModel::Thousandths(0),
        frames_decoded: 0,
        frames_dropped: 0,
        errors: 0,
        resolution: (0, 0),
        codec: Seq::empty(),
    }
}

impl ReceiverStats {
    /// Whether the times are points in time.
    pub open spec fn wf(&self) -> bool {
        self.start_time.wf() && (self.end_time matches Some(t) ==> t.wf())
    }

    /// The numbers of a session that starts at the given time.
    pub fn starting_at(start: Timestamp) -> (r: ReceiverStats)
        ensures
            r@ == fresh_stats(start),
    {
        ReceiverStats {
            start_time: start,
            end_time: None,
            duration: 0,
            data_received: 0,
            average_bitrate: Real::Thousandths(0),
            peak_bitrate: Real::Thousandths(0),
            frames_decoded: 0,
            frames_dropped: 0,
            errors: 0,
            resolution: (0, 0),
            codec: String::new(),
        }
    }

    /// Checks the numbers of a session.
    pub fn validate(&self) -> (r: Result<(), ValidationError>)
        ensures
            fault(r) == stats_fault(self@),
    {
        if self.duration < 0 {
            return Err(
                ValidationError("duration: must be a non-negative integer".to_owned()),
            );
        }
        if self.data_received < 0 {
            return Err(
                ValidationError("data_received: must be a non-negative integer".to_owned()),
            );
        }
        if self.frames_decoded < 0 {
            return Err(
                ValidationError("frames_decoded: must be a non-negative integer".to_owned()),
            );
        }
        if self.frames_dropped < 0 {
            return Err(
                ValidationError("frames_dropped: must be a non-negative integer".to_owned()),
            );
        }
        if self.frames_decoded < self.frames_dropped {
            return Err(
                ValidationError(
                    "frames_decoded: must be greater than or equal to frames_dropped".to_owned(),
                ),
            );
        }
        Ok(())
    }

    /// A copy of the numbers.
    pub fn copy(&self) -> (r: ReceiverStats)
        ensures
            r@ == self@,
    {
        ReceiverStats {
            start_time: self.start_time,
            end_time: self.end_time,
            duration: self.duration,
            data_received: self.data_received,
            average_bitrate: self.average_bitrate.copy(),
            peak_bitrate: self.peak_bitrate.copy(),
            frames_decoded: self.frames_decoded,
            frames_dropped: self.frames_dropped,
            errors: self.errors,
            resolution: self.resolution,
            codec: self.codec.clone(),
        }
    }
}

impl Default for ReceiverStats {
    /// The numbers of a session that starts now.
    fn default() -> (r: ReceiverStats)
        ensures
            is_present(r.start_time),
            r@ == fresh_stats(r.start_time),
    {
        ReceiverStats::starting_at(Timestamp::now())
    }
}

/// A source device.
#[derive(Debug, PartialEq, Eq)]
pub struct SourceInfo {
    pub name: String,
    pub address: String,
    pub model: String,
    pub resolution: (u32, u32),
    pub codec: String,
    pub audio_codec: String,
}

/// A source device as contracts see it.
pub struct SourceModel {
    pub name: Seq<char>,
    pub address: Seq<char>,
    pub model: Seq<char>,
    pub resolution: (u32, u32),
    pub codec: Seq<char>,
    pub audio_codec: Seq<char>,
}

impl View for SourceInfo {
    type V = SourceModel;

    open spec fn view(&self) -> SourceModel {
        SourceModel {
            name: self.name@,
            address: self.address@,
            model: self.model@,
            resolution: self.resolution,
            codec: self.codec@,
            audio_codec: self.audio_codec@,
        }
    }
}

/// A source of which nothing but name and address is known.
pub open spec fn named_source(name: Seq<char>, address: Seq<char>) -> SourceModel {
    SourceModel {
        name,
        address,
        model: Seq::empty(),
        resolution: (0, 0),
        codec: Seq::empty(),
        audio_codec: Seq::empty(),
    }
}

impl SourceInfo {
    /// A source of which nothing but name and address is known.
    pub fn named(name: &str, address: &str) -> (r: SourceInfo)
        ensures
            r@ == named_source(name@, address@),
    {
        SourceInfo {
            name: name.to_owned(),
            address: address.to_owned(),
            model: String::new(),
            resolution: (0, 0),
            codec: String::new(),
            audio_codec: String::new(),
        }
    }

    /// A copy of the description.
    pub fn copy(&self) -> (r: SourceInfo)
        ensures
            r@ == self@,
    {
        SourceInfo {
            name: self.name.clone(),
            address: self.address.clone(),
            model: self.model.clone(),
            resolution: self.resolution,
            codec: self.codec.clone(),
            audio_codec: self.audio_codec.clone(),
        }
    }
}

impl Default for SourceInfo {
    fn default() -> (r: SourceInfo)
        ensures
            r@ == named_source(Seq::empty(), Seq::empty()),
    {
        SourceInfo {
            name: String::new(),
            address: String::new(),
            model: String::new(),
            resolution: (0, 0),
            codec: String::new(),
            audio_codec: String::new(),
        }
    }
}

/// The record of a session.
#[derive(Debug)]
pub struct ServerSessionRecord {
    pub source_info: SourceInfo,
    pub stats: ReceiverStats,
    pub timestamp: Timestamp,
}

/// The record of a session as contracts see it.
pub struct RecordModel {
    pub source_info: SourceModel,
    pub stats: StatsModel,
    pub timestamp: Timestamp,
}

impl View for ServerSessionRecord {
    type V = RecordModel;

    open spec fn view(&self) -> RecordModel {
        RecordModel {
            source_info: self.source_info@,
            stats: self.stats@,
            timestamp: self.timestamp,
        }
    }
}

/// A resolution in JSON.
pub open spec fn resolution_json(r: (u32, u32)) -> JsonModel {
    JsonModel::Array(seq![num(r.0 as int), num(r.1 as int)])
}

/// A source in JSON.
pub open spec fn source_members(s: SourceModel) -> Members {
    seq![
        ("name"@, JsonModel::Text(s.name)),
        ("address"@, JsonModel::Text(s.address)),
        ("model"@, JsonModel::Text(s.model)),
        ("resolution"@, resolution_json(s.resolution)),
        ("codec"@, JsonModel::Text(s.codec)),
        ("audio_codec"@, JsonModel::Text(s.audio_codec)),
    ]
}

/// The numbers of a session in JSON, with its times in words.
pub open spec fn stats_members(s: StatsModel, start: Seq<char>, end: Option<Seq<char>>) -> Members {
    seq![
        ("start_time"@, JsonModel::Text(start)),
        (
            "end_time"@,
            match end {
                Some(t) => JsonModel::Text(t),
                None => JsonModel::Null,
            },
        ),
        ("duration"@, num(s.duration as int)),
        ("data_received"@, num(s.data_received as int)),
        ("average_bitrate"@, JsonModel::Number(NumberModel::Real(s.average_bitrate))),
        ("peak_bitrate"@, JsonModel::Number(NumberModel::Real(s.peak_bitrate))),
        ("frames_decoded"@, num(s.frames_decoded as int)),
        ("frames_dropped"@, num(s.frames_dropped as int)),
        ("errors"@, num(s.errors as int)),
        ("resolution"@, resolution_json(s.resolution)),
        ("codec"@, JsonModel::Text(s.codec)),
    ]
}

/// A record in JSON, with its times in words.
pub open spec fn record_members(
    r: RecordModel,
    start: Seq<char>,
    end: Option<Seq<char>>,
    stamp: Seq<char>,
) -> Members {
    seq![
        ("source_info"@, object(source_members(r.source_info))),
        ("stats"@, object(stats_members(r.stats, start, end))),
        ("timestamp"@, JsonModel::Text(stamp)),
    ]
}

/// A point in time without what is smaller than a microsecond.
pub open spec fn to_micros(t: Timestamp) -> Timestamp {
    Timestamp { nanos: (t.nanos - t.nanos % 1000) as u32, ..t }
}

/// A record with its times cut to microseconds.
pub open spec fn record_to_micros(r: RecordModel) -> RecordModel {
    RecordModel {
        stats: StatsModel {
            start_time: to_micros(r.stats.start_time),
            end_time: match r.stats.end_time {
                Some(t) => Some(to_micros(t)),
                None => None,
            },
            ..r.stats
        },
        timestamp: to_micros(r.timestamp),
        ..r
    }
}

/// The numbers of a session with its times without regard to where they were
/// taken.
pub open spec fn stats_in_utc(s: StatsModel) -> StatsModel {
    StatsModel {
        start_time: utc(s.start_time),
        end_time: maybe_utc(s.end_time),
        ..s
    }
}

/// A record with its times without regard to where they were taken.
pub open spec fn in_utc(r: RecordModel) -> RecordModel {
    RecordModel { stats: stats_in_utc(r.stats), timestamp: utc(r.timestamp), ..r }
}

/// The first of the names that an object lacks.
pub open spec fn first_missing(v: JsonModel, names: Seq<Seq<char>>) -> Option<Seq<char>>
    decreases names.len(),
{
    if names.len() == 0 {
        None
    } else if field(v, names[0]) is None {
        Some(names[0])
    } else {
        first_missing(v, names.skip(1))
    }
}

/// The first of the names whose value is no integer.
pub open spec fn first_non_integer(v: JsonModel, names: Seq<Seq<char>>) -> Option<Seq<char>>
    decreases names.len(),
{
    if names.len() == 0 {
        None
    } else if field(v, names[0]) matches Some(x) && int_of(x) is Some {
        first_non_integer(v, names.skip(1))
    } else {
        Some(names[0])
    }
}

/// The texts that borrowed strings stand for.
pub open spec fn names_of(v: Seq<&str>) -> Seq<Seq<char>> {
    Seq::new(v.len(), |i: int| v[i]@)
}

fn find_missing(v: &Json, names: &Vec<&'static str>) -> (r: Option<&'static str>)
    ensures
        match r {
            Some(n) => first_missing(v@, names_of(names@)) == Some(n@),
            None => first_missing(v@, names_of(names@)) is None,
        },
{
    let ghost ns = names_of(names@);
    let mut i: usize = 0;
    assert(ns.skip(0) =~= ns);
    while i < names.len()
        invariant
            i <= names@.len(),
            ns == names_of(names@),
            first_missing(v@, ns) == first_missing(v@, ns.skip(i as int)),
        decreases names.len() - i,
    {
        assert(ns.skip(i as int)[0] == names@[i as int]@);
        assert(ns.skip(i as int).skip(1) =~= ns.skip(i + 1));
        if v.get(names[i]).is_none() {
            return Some(names[i]);
        }
        i += 1;
    }
    None
}

fn find_non_integer(v: &Json, names: &Vec<&'static str>) -> (r: Option<&'static str>)
    ensures
        match r {
            Some(n) => first_non_integer(v@, names_of(names@)) == Some(n@),
            None => first_non_integer(v@, names_of(names@)) is None,
        },
{
    let ghost ns = names_of(names@);
    let mut i: usize = 0;
    assert(ns.skip(0) =~= ns);
    while i < names.len()
        invariant
            i <= names@.len(),
            ns == names_of(names@),
            first_non_integer(v@, ns) == first_non_integer(v@, ns.skip(i as int)),
        decreases names.len() - i,
    {
        assert(ns.skip(i as int)[0] == names@[i as int]@);
        assert(ns.skip(i as int).skip(1) =~= ns.skip(i + 1));
        let found: Option<i64> = match v.get(names[i]) {
            Some(x) => x.as_i64(),
            None => None,
        };
        if found.is_none() {
            return Some(names[i]);
        }
        i += 1;
    }
    None
}

/// The value of a member as text; nothing where it is missing.
pub open spec fn text_member(v: JsonModel, name: Seq<char>) -> Seq<char> {
    match field(v, name) {
        Some(x) => written(x),
        None => Seq::empty(),
    }
}

/// Whether a member is there and is no integer.
pub open spec fn is_odd_int(v: JsonModel, name: Seq<char>) -> bool {
    field(v, name) matches Some(x) && int_of(x) is None
}

/// Whether a member is there and is no number.
pub open spec fn is_odd_real(v: JsonModel, name: Seq<char>) -> bool {
    field(v, name) matches Some(x) && real_of(x) is None
}

/// Whether a value is a list that begins with two integers that are not
/// negative.
pub open spec fn is_resolution(v: JsonModel) -> bool {
    v matches JsonModel::Array(a) && a.len() >= 2 && unsigned_of(a[0]) is Some && unsigned_of(
        a[1],
    ) is Some
}

/// Whether a member is there and is no resolution.
pub open spec fn is_odd_resolution(v: JsonModel, name: Seq<char>) -> bool {
    field(v, name) matches Some(x) && !is_resolution(x)
}

/// What is wrong with the members of a session that may be missing.
pub open spec fn optional_fault(v: JsonModel) -> Option<Seq<char>> {
    if is_odd_real(v, "average_bitrate"@) {
        Some("stats.average_bitrate: must be a number"@)
    } else if is_odd_real(v, "peak_bitrate"@) {
        Some("stats.peak_bitrate: must be a number"@)
    } else if is_odd_int(v, "errors"@) {
        Some("stats.errors: must be an integer"@)
    } else if is_odd_resolution(v, "resolution"@) {
        Some("stats.resolution: must be a list of two non-negative integers"@)
    } else {
        None
    }
}

/// The value of a member as an integer; zero where it is none.
pub open spec fn int_member(v: JsonModel, name: Seq<char>) -> i64 {
    match field(v, name) {
        Some(x) => match int_of(x) {
            Some(n) => n,
            None => 0,
        },
        None => 0,
    }
}

/// The value of a member as a double-precision number; zero where it is none.
pub open spec fn real_member(v: JsonModel, name: Seq<char>) -> RealModel {
    match field(v, name) {
        Some(x) => match real_of(x) {
            Some(n) => n,
            None => RealModel::Thousandths(0),
        },
        None => RealModel::Thousandths(0),
    }
}

/// A value as one of the two numbers of a resolution.
pub open spec fn side(v: JsonModel) -> u32 {
    match unsigned_of(v) {
        Some(n) => n as u32,
        None => 0,
    }
}

/// The value of a member as a resolution; nothing by nothing where it is no
/// list of two values.
pub open spec fn resolution_member(v: JsonModel, name: Seq<char>) -> (u32, u32) {
    match field(v, name) {
        Some(JsonModel::Array(a)) => if a.len() >= 2 {
            (side(a[0]), side(a[1]))
        } else {
            (0, 0)
        },
        _ => (0, 0),
    }
}

fn has_odd_int(v: &Json, name: &str) -> (r: bool)
    ensures
        r == is_odd_int(v@, name@),
{
    match v.get(name) {
        Some(x) => x.as_i64().is_none(),
        None => false,
    }
}

fn has_odd_real(v: &Json, name: &str) -> (r: bool)
    ensures
        r == is_odd_real(v@, name@),
{
    match v.get(name) {
        Some(x) => x.as_real().is_none(),
        None => false,
    }
}

fn has_odd_resolution(v: &Json, name: &str) -> (r: bool)
    ensures
        r == is_odd_resolution(v@, name@),
{
    match v.get(name) {
        Some(Json::Array(a)) => {
            proof {
                lemma_views(arbitrary(), *a);
            }
            if a.len() >= 2 {
                assert(values(a@)[0] == a@[0]@ && values(a@)[1] == a@[1]@);
                a[0].as_u64().is_none() || a[1].as_u64().is_none()
            } else {
                true
            }
        },
        Some(_) => true,
        None => false,
    }
}

fn find_optional_fault(v: &Json) -> (r: Option<&'static str>)
    ensures
        match r {
            Some(m) => optional_fault(v@) == Some(m@),
            None => optional_fault(v@) is None,
        },
{
    if has_odd_real(v, "average_bitrate") {
        Some("stats.average_bitrate: must be a number")
    } else if has_odd_real(v, "peak_bitrate") {
        Some("stats.peak_bitrate: must be a number")
    } else if has_odd_int(v, "errors") {
        Some("stats.errors: must be an integer")
    } else if has_odd_resolution(v, "resolution") {
        Some("stats.resolution: must be a list of two non-negative integers")
    } else {
        None
    }
}

fn take_text(v: &Json, name: &str) -> (r: String)
    ensures
        r@ == text_member(v@, name@),
{
    match v.get(name) {
        Some(x) => x.as_string(),
        None => String::new(),
    }
}

fn take_int(v: &Json, name: &str) -> (r: i64)
    ensures
        r == int_member(v@, name@),
{
    match v.get(name) {
        Some(x) => match x.as_i64() {
            Some(n) => n,
            None => 0,
        },
        None => 0,
    }
}

fn take_real(v: &Json, name: &str) -> (r: Real)
    ensures
        r@ == real_member(v@, name@),
{
    match v.get(name) {
        Some(x) => match x.as_real() {
            Some(n) => n,
            None => Real::Thousandths(0),
        },
        None => Real::Thousandths(0),
    }
}

fn take_side(v: &Json) -> (r: u32)
    ensures
        r == side(v@),
{
    match v.as_u64() {
        Some(n) => n as u32,
        None => 0,
    }
}

fn take_resolution(v: &Json, name: &str) -> (r: (u32, u32))
    ensures
        r == resolution_member(v@, name@),
{
    match v.get(name) {
        Some(Json::Array(a)) => {
            proof {
                lemma_views(arbitrary(), *a);
            }
            if a.len() >= 2 {
                assert(values(a@)[0] == a@[0]@ && values(a@)[1] == a@[1]@);
                (take_side(&a[0]), take_side(&a[1]))
            } else {
                (0, 0)
            }
        },
        _ => (0, 0),
    }
}

/// The point in time that a text gives, without regard to where it was taken,
/// or why it gives none.
pub open spec fn time_of(t: Seq<char>) -> Result<Timestamp, Seq<char>> {
    match rfc3339(t) {
        Ok(v) => Ok(Timestamp { secs: v.0, nanos: v.1, offset: 0 }),
        Err(e) => Err("failed to deserialize ServerSessionRecord: "@ + e),
    }
}

/// Reads a point in time, and places it in the local zone.
pub fn parse_iso(t: &str) -> (r: Result<Timestamp, ValidationError>)
    ensures
        match time_of(t@) {
            Ok(i) => r matches Ok(v) && utc(v) == i && v.wf(),
            Err(m) => r matches Err(e) && e.0@ == m,
        },
{
    match parse_rfc3339(t) {
        Ok((secs, nanos, _)) => {
            let offset: i32 = local_offset(secs, nanos);
            Ok(Timestamp { secs, nanos, offset })
        },
        Err(e) => Err(
            ValidationError(
                text::joined("failed to deserialize ServerSessionRecord: ".to_owned(), e.as_str()),
            ),
        ),
    }
}

/// A point in time that may be missing, without regard to where it was taken.
pub open spec fn maybe_utc(t: Option<Timestamp>) -> Option<Timestamp> {
    match t {
        Some(v) => Some(utc(v)),
        None => None,
    }
}

/// The end of a session in JSON: missing, or a point in time.
pub open spec fn end_of(v: JsonModel) -> Result<Option<Timestamp>, Seq<char>> {
    match field(v, "end_time"@) {
        None => Ok(None),
        Some(JsonModel::Null) => Ok(None),
        Some(x) => match time_of(written(x)) {
            Ok(t) => Ok(Some(t)),
            Err(e) => Err(e),
        },
    }
}

/// The source that JSON gives.
pub open spec fn source_of(v: JsonModel) -> Result<SourceModel, Seq<char>> {
    if !(v is Object) {
        Err("source_info must be a dictionary"@)
    } else {
        match first_missing(v, seq!["name"@, "address"@, "model"@]) {
            Some(k) => Err("source_info missing required field: "@ + k),
            None => if is_odd_resolution(v, "resolution"@) {
                Err("source_info.resolution: must be a list of two non-negative integers"@)
            } else {
                Ok(
                    SourceModel {
                        name: text_member(v, "name"@),
                        address: text_member(v, "address"@),
                        model: text_member(v, "model"@),
                        resolution: resolution_member(v, "resolution"@),
                        codec: text_member(v, "codec"@),
                        audio_codec: text_member(v, "audio_codec"@),
                    },
                )
            },
        }
    }
}

/// The numbers of a session that JSON gives.
pub open spec fn stats_of(v: JsonModel) -> Result<StatsModel, Seq<char>> {
    if !(v is Object) {
        Err("stats must be a dictionary"@)
    } else {
        match first_missing(
            v,
            seq!["start_time"@, "duration"@, "data_received"@, "frames_decoded"@, "frames_dropped"@],
        ) {
            Some(k) => Err("stats missing required field: "@ + k),
            None => match time_of(text_member(v, "start_time"@)) {
                Err(e) => Err(e),
                Ok(start) => match end_of(v) {
                    Err(e) => Err(e),
                    Ok(end) => match first_non_integer(
                        v,
                        seq!["duration"@, "data_received"@, "frames_decoded"@, "frames_dropped"@],
                    ) {
                        Some(k) => Err("stats."@ + k + ": must be an integer"@),
                        None => match optional_fault(v) {
                            Some(m) => Err(m),
                            None => Ok(
                                StatsModel {
                                    start_time: start,
                                    end_time: end,
                                    duration: int_member(v, "duration"@),
                                    data_received: int_member(v, "data_received"@),
                                    average_bitrate: real_member(v, "average_bitrate"@),
                                    peak_bitrate: real_member(v, "peak_bitrate"@),
                                    frames_decoded: int_member(v, "frames_decoded"@),
                                    frames_dropped: int_member(v, "frames_dropped"@),
                                    errors: int_member(v, "errors"@),
                                    resolution: resolution_member(v, "resolution"@),
                                    codec: text_member(v, "codec"@),
                                },
                            ),
                        },
                    },
                },
            },
        }
    }
}

/// The record that JSON gives, or why it gives none.
pub open spec fn record_of(v: JsonModel) -> Result<RecordModel, Seq<char>> {
    if !(v is Object) {
        Err("data must be a dictionary"@)
    } else {
        match first_missing(v, seq!["source_info"@, "stats"@, "timestamp"@]) {
            Some(k) => Err("missing required field: "@ + k),
            None => match source_of(field(v, "source_info"@)->0) {
                Err(e) => Err(e),
                Ok(source_info) => match stats_of(field(v, "stats"@)->0) {
                    Err(e) => Err(e),
                    Ok(stats) => match time_of(text_member(v, "timestamp"@)) {
                        Err(e) => Err(e),
                        Ok(timestamp) => Ok(RecordModel { source_info, stats, timestamp }),
                    },
                },
            },
        }
    }
}

fn take_source(v: &Json) -> (r: Result<SourceInfo, ValidationError>)
    ensures
        match source_of(v@) {
            Ok(m) => r matches Ok(s) && s@ == m,
            Err(m) => r matches Err(e) && e.0@ == m,
        },
{
    if !v.is_object() {
        return Err(ValidationError("source_info must be a dictionary".to_owned()));
    }
    let mut names: Vec<&'static str> = Vec::new();
    names.push("name");
    names.push("address");
    names.push("model");
    assert(names_of(names@) =~= seq!["name"@, "address"@, "model"@]);
    if let Some(k) = find_missing(v, &names) {
        return Err(
            ValidationError(text::joined("source_info missing required field: ".to_owned(), k)),
        );
    }
    if has_odd_resolution(v, "resolution") {
        return Err(
            ValidationError(
                "source_info.resolution: must be a list of two non-negative integers".to_owned(),
            ),
        );
    }
    Ok(
        SourceInfo {
            name: take_text(v, "name"),
            address: take_text(v, "address"),
            model: take_text(v, "model"),
            resolution: take_resolution(v, "resolution"),
            codec: take_text(v, "codec"),
            audio_codec: take_text(v, "audio_codec"),
        },
    )
}

fn take_end(v: &Json) -> (r: Result<Option<Timestamp>, ValidationError>)
    ensures
        match end_of(v@) {
            Ok(m) => r matches Ok(t) && maybe_utc(t) == m && (t matches Some(x) ==> x.wf()),
            Err(m) => r matches Err(e) && e.0@ == m,
        },
{
    match v.get("end_time") {
        None => Ok(None),
        Some(Json::Null) => Ok(None),
        Some(x) => match parse_iso(x.as_string().as_str()) {
            Ok(t) => Ok(Some(t)),
            Err(e) => Err(e),
        },
    }
}

fn take_stats(v: &Json) -> (r: Result<ReceiverStats, ValidationError>)
    ensures
        match stats_of(v@) {
            Ok(m) => r matches Ok(s) && stats_in_utc(s@) == m && s.wf(),
            Err(m) => r matches Err(e) && e.0@ == m,
        },
{
    if !v.is_object() {
        return Err(ValidationError("stats must be a dictionary".to_owned()));
    }
    let mut names: Vec<&'static str> = Vec::new();
    names.push("start_time");
    names.push("duration");
    names.push("data_received");
    names.push("frames_decoded");
    names.push("frames_dropped");
    assert(names_of(names@) =~= seq![
        "start_time"@,
        "duration"@,
        "data_received"@,
        "frames_decoded"@,
        "frames_dropped"@,
    ]);
    if let Some(k) = find_missing(v, &names) {
        return Err(ValidationError(text::joined("stats missing required field: ".to_owned(), k)));
    }
    let start_time: Timestamp = parse_iso(take_text(v, "start_time").as_str())?;
    let end_time: Option<Timestamp> = take_end(v)?;
    let mut numbers: Vec<&'static str> = Vec::new();
    numbers.push("duration");
    numbers.push("data_received");
    numbers.push("frames_decoded");
    numbers.push("frames_dropped");
    assert(names_of(numbers@) =~= seq![
        "duration"@,
        "data_received"@,
        "frames_decoded"@,
        "frames_dropped"@,
    ]);
    if let Some(k) = find_non_integer(v, &numbers) {
        let mut m: String = text::joined("stats.".to_owned(), k);
        m.append(": must be an integer");
        return Err(ValidationError(m));
    }
    if let Some(m) = find_optional_fault(v) {
        return Err(ValidationError(m.to_owned()));
    }
    Ok(
        ReceiverStats {
            start_time,
            end_time,
            duration: take_int(v, "duration"),
            data_received: take_int(v, "data_received"),
            average_bitrate: take_real(v, "average_bitrate"),
            peak_bitrate: take_real(v, "peak_bitrate"),
            frames_decoded: take_int(v, "frames_decoded"),
            frames_dropped: take_int(v, "frames_dropped"),
            errors: take_int(v, "errors"),
            resolution: take_resolution(v, "resolution"),
            codec: take_text(v, "codec"),
        },
    )
}

fn resolution_value(r: (u32, u32)) -> (j: Json)
    ensures
        j@ == resolution_json(r),
{
    let mut v: Vec<Json> = Vec::new();
    v.push(Json::integer(r.0 as i64));
    v.push(Json::integer(r.1 as i64));
    assert(values(v@) =~= seq![num(r.0 as int), num(r.1 as int)]);
    Json::list(v)
}

impl SourceInfo {
    fn to_value(&self) -> (r: Json)
        ensures
            r@ == object(source_members(self@)),
    {
        let mut v: Vec<(String, Json)> = Vec::new();
        v.push(("name".to_owned(), Json::text(self.name.as_str())));
        v.push(("address".to_owned(), Json::text(self.address.as_str())));
        v.push(("model".to_owned(), Json::text(self.model.as_str())));
        v.push(("resolution".to_owned(), resolution_value(self.resolution)));
        v.push(("codec".to_owned(), Json::text(self.codec.as_str())));
        v.push(("audio_codec".to_owned(), Json::text(self.audio_codec.as_str())));
        assert(members(v@) =~= source_members(self@));
        Json::object(v)
    }
}

impl ReceiverStats {
    fn to_value(&self, start: &str, end: Option<&str>) -> (r: Json)
        ensures
            r@ == object(
                stats_members(
                    self@,
                    start@,
                    match end {
                        Some(t) => Some(t@),
                        None => None,
                    },
                ),
            ),
    {
        let end_value: Json = match end {
            Some(t) => Json::text(t),
            None => Json::Null,
        };
        let mut v: Vec<(String, Json)> = Vec::new();
        v.push(("start_time".to_owned(), Json::text(start)));
        v.push(("end_time".to_owned(), end_value));
        v.push(("duration".to_owned(), Json::integer(self.duration)));
        v.push(("data_received".to_owned(), Json::integer(self.data_received)));
        v.push(
            ("average_bitrate".to_owned(), Json::Number(Number::Real(self.average_bitrate.copy()))),
        );
        v.push(("peak_bitrate".to_owned(), Json::Number(Number::Real(self.peak_bitrate.copy()))));
        v.push(("frames_decoded".to_owned(), Json::integer(self.frames_decoded)));
        v.push(("frames_dropped".to_owned(), Json::integer(self.frames_dropped)));
        v.push(("errors".to_owned(), Json::integer(self.errors)));
        v.push(("resolution".to_owned(), resolution_value(self.resolution)));
        v.push(("codec".to_owned(), Json::text(self.codec.as_str())));
        assert(members(v@) =~= stats_members(
            self@,
            start@,
            match end {
                Some(t) => Some(t@),
                None => None,
            },
        ));
        Json::object(v)
    }
}

/// How the end of a session is written.
pub open spec fn end_text(t: Option<Timestamp>) -> Option<Seq<char>> {
    match t {
        Some(v) => Some(iso_text(v)),
        None => None,
    }
}

impl ServerSessionRecord {
    /// Whether the times are points in time.
    pub open spec fn wf(&self) -> bool {
        self.stats.wf() && self.timestamp.wf()
    }

    /// Whether the times are written so that they can be read back.
    pub open spec fn is_plain(&self) -> bool {
        self.stats.start_time.is_plain() && (self.stats.end_time matches Some(t) ==> t.is_plain())
            && self.timestamp.is_plain()
    }

    /// The record in JSON. With plain times it is read back as the same record,
    /// its times cut to microseconds.
    pub fn to_dict(&self) -> (r: Json)
        requires
            self.wf(),
        ensures
            r@ == object(
                record_members(
                    self@,
                    iso_text(self.stats.start_time),
                    end_text(self.stats.end_time),
                    iso_text(self.timestamp),
                ),
            ),
            self.is_plain() ==> record_of(r@) == Ok::<RecordModel, Seq<char>>(
                in_utc(record_to_micros(self@)),
            ),
    {
        let start: String = self.stats.start_time.iso();
        let stamp: String = self.timestamp.iso();
        let stats: Json = match &self.stats.end_time {
            Some(t) => {
                let end: String = t.iso();
                self.stats.to_value(start.as_str(), Some(end.as_str()))
            },
            None => self.stats.to_value(start.as_str(), None),
        };
        let mut v: Vec<(String, Json)> = Vec::new();
        v.push(("source_info".to_owned(), self.source_info.to_value()));
        v.push(("stats".to_owned(), stats));
        v.push(("timestamp".to_owned(), Json::text(stamp.as_str())));
        assert(members(v@) =~= record_members(
            self@,
            iso_text(self.stats.start_time),
            end_text(self.stats.end_time),
            iso_text(self.timestamp),
        ));
        proof {
            if self.is_plain() {
                lemma_record_read_back(
                    self@,
                    iso_text(self.stats.start_time),
                    end_text(self.stats.end_time),
                    iso_text(self.timestamp),
                );
            }
        }
        Json::object(v)
    }

    /// Takes a record out of JSON.
    pub fn from_dict(data: &Json) -> (r: Result<ServerSessionRecord, ValidationError>)
        ensures
            match record_of(data@) {
                Ok(m) => r matches Ok(v) && in_utc(v@) == m && v.wf(),
                Err(m) => r matches Err(e) && e.0@ == m,
            },
    {
        if !data.is_object() {
            return Err(ValidationError("data must be a dictionary".to_owned()));
        }
        let mut names: Vec<&'static str> = Vec::new();
        names.push("source_info");
        names.push("stats");
        names.push("timestamp");
        assert(names_of(names@) =~= seq!["source_info"@, "stats"@, "timestamp"@]);
        if let Some(k) = find_missing(data, &names) {
            return Err(ValidationError(text::joined("missing required field: ".to_owned(), k)));
        }
        proof {
            reveal_with_fuel(first_missing, 4);
            let ns = seq!["source_info"@, "stats"@, "timestamp"@];
            assert(ns.skip(1)[0] == "stats"@);
            assert(ns.skip(1).skip(1)[0] == "timestamp"@);
        }
        match (data.get("source_info"), data.get("stats")) {
            (Some(s), Some(n)) => {
                let source_info: SourceInfo = take_source(s)?;
                let stats: ReceiverStats = take_stats(n)?;
                let timestamp: Timestamp = parse_iso(take_text(data, "timestamp").as_str())?;
                Ok(ServerSessionRecord { source_info, stats, timestamp })
            },
            _ => {
                assert(false);
                Err(ValidationError(String::new()))
            },
        }
    }

    /// A copy of the record.
    pub fn copy(&self) -> (r: ServerSessionRecord)
        ensures
            r@ == self@,
    {
        ServerSessionRecord {
            source_info: self.source_info.copy(),
            stats: self.stats.copy(),
            timestamp: self.timestamp,
        }
    }
}

/// A time that is read back as the given one.
spec fn reads_as(t: Seq<char>, i: Timestamp) -> bool {
    rfc3339(t) matches Ok(v) && v.0 == i.secs && v.1 == i.nanos - i.nanos % 1000
}

proof fn lemma_record_read_back(
    r: RecordModel,
    start: Seq<char>,
    end: Option<Seq<char>>,
    stamp: Seq<char>,
)
    requires
        reads_as(start, r.stats.start_time),
        reads_as(stamp, r.timestamp),
        (end is Some) == (r.stats.end_time is Some),
        end matches Some(t) ==> reads_as(t, r.stats.end_time->0),
    ensures
        record_of(object(record_members(r, start, end, stamp))) == Ok::<RecordModel, Seq<char>>(
            in_utc(record_to_micros(r)),
        ),
{
    lemma_source_read_back(r.source_info);
    lemma_stats_read_back(r.stats, start, end);
    let m = record_members(r, start, end, stamp);
    let v = object(m);
    reveal_strlit("source_info");
    reveal_strlit("stats");
    reveal_strlit("timestamp");
    assert(m[0].0.len() == 11 && m[1].0.len() == 5 && m[2].0.len() == 9);
    lemma_member_at(m, "source_info"@, 0);
    lemma_member_at(m, "stats"@, 1);
    lemma_member_at(m, "timestamp"@, 2);
    let ns = seq!["source_info"@, "stats"@, "timestamp"@];
    reveal_with_fuel(first_missing, 4);
    assert(ns.skip(1)[0] == "stats"@);
    assert(ns.skip(1).skip(1)[0] == "timestamp"@);
    assert(first_missing(v, ns) is None);
}

proof fn lemma_source_read_back(s: SourceModel)
    ensures
        source_of(object(source_members(s))) == Ok::<SourceModel, Seq<char>>(s),
{
    let m = source_members(s);
    let v = object(m);
    reveal_strlit("name");
    reveal_strlit("address");
    reveal_strlit("model");
    reveal_strlit("resolution");
    reveal_strlit("codec");
    reveal_strlit("audio_codec");
    assert(m[0].0.len() == 4 && m[1].0.len() == 7 && m[2].0.len() == 5 && m[3].0.len() == 10
        && m[4].0.len() == 5 && m[5].0.len() == 11);
    assert(m[2].0[0] == 'm' && m[4].0[0] == 'c');
    lemma_member_at(m, "name"@, 0);
    lemma_member_at(m, "address"@, 1);
    lemma_member_at(m, "model"@, 2);
    lemma_member_at(m, "resolution"@, 3);
    lemma_member_at(m, "codec"@, 4);
    lemma_member_at(m, "audio_codec"@, 5);
    let ns = seq!["name"@, "address"@, "model"@];
    reveal_with_fuel(first_missing, 4);
    assert(ns.skip(1)[0] == "address"@);
    assert(ns.skip(1).skip(1)[0] == "model"@);
    assert(first_missing(v, ns) is None);
}

proof fn lemma_stats_read_back(s: StatsModel, start: Seq<char>, end: Option<Seq<char>>)
    requires
        reads_as(start, s.start_time),
        (end is Some) == (s.end_time is Some),
        end matches Some(t) ==> reads_as(t, s.end_time->0),
    ensures
        stats_of(object(stats_members(s, start, end))) == Ok::<StatsModel, Seq<char>>(
            StatsModel {
                start_time: utc(to_micros(s.start_time)),
                end_time: match s.end_time {
                    Some(t) => Some(utc(to_micros(t))),
                    None => None,
                },
                ..s
            },
        ),
{
    let m = stats_members(s, start, end);
    let v = object(m);
    reveal_strlit("start_time");
    reveal_strlit("end_time");
    reveal_strlit("duration");
    reveal_strlit("data_received");
    reveal_strlit("average_bitrate");
    reveal_strlit("peak_bitrate");
    reveal_strlit("frames_decoded");
    reveal_strlit("frames_dropped");
    reveal_strlit("errors");
    reveal_strlit("resolution");
    reveal_strlit("codec");
    assert(m[0].0.len() == 10 && m[1].0.len() == 8 && m[2].0.len() == 8 && m[3].0.len() == 13
        && m[4].0.len() == 15 && m[5].0.len() == 12 && m[6].0.len() == 14 && m[7].0.len() == 14
        && m[8].0.len() == 6 && m[9].0.len() == 10 && m[10].0.len() == 5);
    assert(m[0].0[0] == 's' && m[9].0[0] == 'r' && m[1].0[0] == 'e' && m[2].0[0] == 'd');
    assert(m[6].0[8] == 'e' && m[7].0[8] == 'r');
    lemma_member_at(m, "start_time"@, 0);
    lemma_member_at(m, "end_time"@, 1);
    lemma_member_at(m, "duration"@, 2);
    lemma_member_at(m, "data_received"@, 3);
    lemma_member_at(m, "average_bitrate"@, 4);
    lemma_member_at(m, "peak_bitrate"@, 5);
    lemma_member_at(m, "frames_decoded"@, 6);
    lemma_member_at(m, "frames_dropped"@, 7);
    lemma_member_at(m, "errors"@, 8);
    lemma_member_at(m, "resolution"@, 9);
    lemma_member_at(m, "codec"@, 10);
    let ns = seq![
        "start_time"@,
        "duration"@,
        "data_received"@,
        "frames_decoded"@,
        "frames_dropped"@,
    ];
    reveal_with_fuel(first_missing, 6);
    assert(ns.skip(1)[0] == "duration"@);
    assert(ns.skip(1).skip(1)[0] == "data_received"@);
    assert(ns.skip(1).skip(1).skip(1)[0] == "frames_decoded"@);
    assert(ns.skip(1).skip(1).skip(1).skip(1)[0] == "frames_dropped"@);
    assert(first_missing(v, ns) is None);
    let numbers = seq!["duration"@, "data_received"@, "frames_decoded"@, "frames_dropped"@];
    reveal_with_fuel(first_non_integer, 5);
    assert(numbers.skip(1)[0] == "data_received"@);
    assert(numbers.skip(1).skip(1)[0] == "frames_decoded"@);
    assert(numbers.skip(1).skip(1).skip(1)[0] == "frames_dropped"@);
    assert(first_non_integer(v, numbers) is None);
}

} // verus!
