//! The Wi-Fi Direct connection of a source: the PIN, and what the events of the
//! group interface mean.

pub mod handler;
pub mod laws;

pub use crate::connection::handler::ConnectionHandler;

use vstd::prelude::*;
use vstd::slice::slice_subrange;
use vstd::utf8::is_ascii_chars;
use crate::outside::{
    random_between, regex_first_group, regex_is_match, to_lowercase, unicode_lower,
};
use crate::p2p_backend::cli::{checked, command3, WpaCommand};
use crate::text;
use crate::text::{
    ascii_lower, contains, dec, digits, is_space, lines, occurs_at, pow10, strs, texts, trim,
    words,
};
use crate::utils::{maybe_text, wpa_cli_words};

verus! {

/// The event of a station that has joined, with its address as a group.
pub const STATION_CONNECTED_PATTERN: &'static str = r"AP-STA-CONNECTED\s+([0-9a-fA-F:]{17})";

/// The event of a station that has left.
pub const STATION_LOST_PATTERN: &'static str = r"AP-STA-DISCONNECTED\s+([0-9a-fA-F:]{17})";

/// Whether a character can stand in a hardware address.
pub open spec fn is_address_char(c: char) -> bool {
    ('0' <= c && c <= '9') || ('a' <= c && c <= 'f') || ('A' <= c && c <= 'F') || c == ':'
}

/// The first position from `i` on that holds no white space.
pub open spec fn space_end(s: Seq<char>, i: int) -> int
    decreases s.len() - i,
{
    if 0 <= i < s.len() && is_space(s[i]) {
        space_end(s, i + 1)
    } else {
        i
    }
}

/// The address behind an event that stands at a position: some white space,
/// then seventeen characters of an address.
pub open spec fn station_at(s: Seq<char>, event: Seq<char>, i: int) -> Option<Seq<char>> {
    let j = i + event.len();
    let k = space_end(s, j);
    if occurs_at(s, event, i) && k > j && k + 17 <= s.len() && (forall|n: int|
        k <= n < k + 17 ==> is_address_char(#[trigger] s[n])) {
        Some(s.subrange(k, k + 17))
    } else {
        None
    }
}

/// The address behind the first complete event from a position on.
pub open spec fn station_from(s: Seq<char>, event: Seq<char>, i: int) -> Option<Seq<char>>
    decreases s.len() - i + 1,
{
    if i < 0 || i > s.len() {
        None
    } else {
        match station_at(s, event, i) {
            Some(a) => Some(a),
            None => station_from(s, event, i + 1),
        }
    }
}

/// The address of the group owner.
pub const OUR_IP: &'static str = "192.168.173.1";

/// The address that a source is taken to have when none can be found: the first
/// that is given out.
pub const FALLBACK_PEER_IP: &'static str = "192.168.173.80";

/// The seconds after which a PIN is armed again.
pub const WPS_REARM_SECS: u64 = 90;

proof fn lemma_decimal_length(n: int, k: nat)
    requires
        k >= 1,
        n < pow10(k),
        k > 1 ==> pow10((k - 1) as nat) <= n,
        0 <= n,
    ensures
        digits(n, 10, false).len() == k,
    decreases k,
{
    if k == 1 {
        assert(pow10(1) == 10) by {
            reveal_with_fuel(pow10, 2);
        }
    } else {
        let h = (k - 1) as nat;
        assert(pow10(k) == 10 * pow10(h));
        assert(n / 10 < pow10(h));
        if h > 1 {
            let g = (h - 1) as nat;
            assert(pow10(h) == 10 * pow10(g));
            assert(pow10(g) <= n / 10);
        } else {
            assert(pow10(1) == 10) by {
                reveal_with_fuel(pow10, 2);
            }
        }
        assert(n >= 10) by {
            lemma_pow10_at_least(h);
        }
        lemma_decimal_length(n / 10, h);
    }
}

proof fn lemma_pow10_at_least(k: nat)
    requires
        k >= 1,
    ensures
        pow10(k) >= 10,
    decreases k,
{
    if k > 1 {
        lemma_pow10_at_least((k - 1) as nat);
    } else {
        reveal_with_fuel(pow10, 2);
    }
}

/// Whether a text is a PIN: eight digits.
pub open spec fn is_pin(s: Seq<char>) -> bool {
    s.len() == 8 && forall|i: int| 0 <= i < 8 ==> '0' <= #[trigger] s[i] && s[i] <= '9'
}

proof fn lemma_decimal_digits(n: int)
    requires
        0 <= n,
    ensures
        forall|i: int|
            0 <= i < digits(n, 10, false).len() ==> '0' <= #[trigger] digits(n, 10, false)[i]
                && digits(n, 10, false)[i] <= '9',
    decreases n,
{
    let s = digits(n, 10, false);
    if n >= 10 {
        lemma_decimal_digits(n / 10);
        let front = digits(n / 10, 10, false);
        assert forall|i: int| 0 <= i < s.len() implies '0' <= #[trigger] s[i] && s[i] <= '9' by {
            if i < front.len() {
                assert(s[i] == front[i]);
            }
        }
    }
}

/// The PIN of a number of eight digits.
pub fn pin_of(n: u32) -> (r: String)
    requires
        10_000_000 <= n <= 99_999_999,
    ensures
        r@ == dec(n as int),
        is_pin(r@),
{
    proof {
        reveal_with_fuel(pow10, 9);
        assert(pow10(8) == 100_000_000);
        assert(pow10(7) == 10_000_000);
        lemma_decimal_length(n as int, 8);
        lemma_decimal_digits(n as int);
    }
    text::dec_u64(n as u64)
}

/// Whether a text is a PIN that can be drawn: eight digits, the first of them
/// not zero.
pub open spec fn is_drawn_pin(s: Seq<char>) -> bool {
    is_pin(s) && exists|n: int| 10_000_000 <= n <= 99_999_999 && s == #[trigger] dec(n)
}

/// A fresh PIN of eight digits.
pub fn generate_pin() -> (r: String)
    ensures
        is_drawn_pin(r@),
{
    let n: u32 = random_between(10_000_000, 99_999_999);
    let r: String = pin_of(n);
    assert(r@ == dec(n as int));
    r
}

/// What a line of the supplicant says once prompt and white space are gone;
/// nothing where nothing is left.
pub open spec fn event_text(raw: Seq<char>) -> Option<Seq<char>> {
    let t = trim(raw);
    let u = if "> "@.is_prefix_of(t) {
        t.skip(2)
    } else if ">"@.is_prefix_of(t) {
        t.skip(1)
    } else {
        t
    };
    let v = trim(u);
    if t.len() == 0 || v.len() == 0 {
        None
    } else {
        Some(v)
    }
}

/// Takes the prompt and the white space off a line of the supplicant.
pub fn clean_event_line(raw: &str) -> (r: Option<String>)
    ensures
        match r {
            Some(t) => event_text(raw@) == Some(t@),
            None => event_text(raw@) is None,
        },
{
    proof {
        reveal_strlit("> ");
        reveal_strlit(">");
    }
    let all: Vec<char> = text::chars_of(raw);
    let t: &[char] = text::trimmed(all.as_slice());
    if t.len() == 0 {
        return None;
    }
    let u: &[char] = if text::begins_with(t, "> ") {
        slice_subrange(t, 2, t.len())
    } else if text::begins_with(t, ">") {
        slice_subrange(t, 1, t.len())
    } else {
        t
    };
    assert("> "@.is_prefix_of(t@) ==> u@ =~= t@.skip(2));
    assert(!"> "@.is_prefix_of(t@) && ">"@.is_prefix_of(t@) ==> u@ =~= t@.skip(1));
    let v: &[char] = text::trimmed(u);
    if v.len() == 0 {
        None
    } else {
        Some(text::string_of(v))
    }
}

/// What an event of the group interface means.
#[derive(Debug)]
pub enum GroupEvent {
    /// The station of this address has joined.
    StationConnected(String),
    /// A source asks for a PIN.
    PinNeeded,
    /// A station has left.
    StationDisconnected,
    /// The group is gone.
    GroupRemoved,
    /// Nothing that matters here.
    Other,
}

/// An event as contracts see it.
pub enum GroupEventModel {
    StationConnected(Seq<char>),
    PinNeeded,
    StationDisconnected,
    GroupRemoved,
    Other,
}

impl View for GroupEvent {
    type V = GroupEventModel;

    open spec fn view(&self) -> GroupEventModel {
        match self {
            GroupEvent::StationConnected(m) => GroupEventModel::StationConnected(m@),
            GroupEvent::PinNeeded => GroupEventModel::PinNeeded,
            GroupEvent::StationDisconnected => GroupEventModel::StationDisconnected,
            GroupEvent::GroupRemoved => GroupEventModel::GroupRemoved,
            GroupEvent::Other => GroupEventModel::Other,
        }
    }
}

/// The address of a station that the text says has joined.
pub open spec fn joined_station(t: Seq<char>) -> Option<Seq<char>> {
    station_from(t, "AP-STA-CONNECTED"@, 0)
}

/// Whether the text says that a station has left.
pub open spec fn says_station_left(t: Seq<char>) -> bool {
    station_from(t, "AP-STA-DISCONNECTED"@, 0) is Some
}

/// The meaning of an event's text.
pub open spec fn meaning(t: Seq<char>) -> GroupEventModel {
    match joined_station(t) {
        Some(mac) => GroupEventModel::StationConnected(mac),
        None => if contains(t, "WPS-PIN-NEEDED"@) {
            GroupEventModel::PinNeeded
        } else if says_station_left(t) {
            GroupEventModel::StationDisconnected
        } else if contains(t, "P2P-GROUP-REMOVED"@) {
            GroupEventModel::GroupRemoved
        } else {
            GroupEventModel::Other
        },
    }
}

/// The address of a station that the text says has joined.
pub fn connected_station(t: &str) -> (r: Option<String>)
    ensures
        match r {
            Some(m) => joined_station(t@) == Some(m@),
            None => joined_station(t@) is None,
        },
{
    regex_first_group(STATION_CONNECTED_PATTERN, t)
}

/// Whether the text says that a station has left.
pub fn station_left(t: &str) -> (r: bool)
    ensures
        r == says_station_left(t@),
{
    regex_is_match(STATION_LOST_PATTERN, t)
}

/// Tells what an event of the group interface means.
pub fn classify_event(t: &str) -> (r: GroupEvent)
    ensures
        r@ == meaning(t@),
{
    match connected_station(t) {
        Some(mac) => GroupEvent::StationConnected(mac),
        None => {
            let all: Vec<char> = text::chars_of(t);
            if text::holds(all.as_slice(), "WPS-PIN-NEEDED") {
                GroupEvent::PinNeeded
            } else if station_left(t) {
                GroupEvent::StationDisconnected
            } else if text::holds(all.as_slice(), "P2P-GROUP-REMOVED") {
                GroupEvent::GroupRemoved
            } else {
                GroupEvent::Other
            }
        },
    }
}

/// Whether a line is the last of the banner with which wpa_cli begins.
pub fn ends_banner(line: &str) -> (r: bool)
    ensures
        r == (contains(trim(line@), "Interactive mode"@) || trim(line@) == ">"@),
{
    let all: Vec<char> = text::chars_of(line);
    let t: &[char] = text::trimmed(all.as_slice());
    text::holds(t, "Interactive mode") || text::is_text(t, ">")
}

/// Whether an event is worth a line in the log.
pub fn is_notable(line: &str) -> (r: bool)
    ensures
        r == (contains(line@, "AP-STA"@) || contains(line@, "P2P"@) || contains(line@, "WPS"@)
            || contains(line@, "CTRL"@)),
{
    let all: Vec<char> = text::chars_of(line);
    text::holds(all.as_slice(), "AP-STA") || text::holds(all.as_slice(), "P2P") || text::holds(
        all.as_slice(),
        "WPS",
    ) || text::holds(all.as_slice(), "CTRL")
}

/// What came of an attempt to read the next line of the supplicant.
#[derive(Debug)]
pub enum MonitorRead<'a> {
    /// This line.
    Line(&'a str),
    /// The supplicant's end of the pipe is closed.
    End,
    /// Reading failed; the program may have died.
    Failed { died: bool },
}

/// What the event monitor does next.
#[derive(Debug)]
pub enum MonitorStep {
    /// Read on.
    Continue,
    /// Take this event and read on.
    Handle(GroupEvent),
    /// Stop.
    Stop,
}

/// A step as contracts see it.
pub enum MonitorModel {
    Continue,
    Handle(GroupEventModel),
    Stop,
}

impl View for MonitorStep {
    type V = MonitorModel;

    open spec fn view(&self) -> MonitorModel {
        match self {
            MonitorStep::Continue => MonitorModel::Continue,
            MonitorStep::Handle(e) => MonitorModel::Handle(e@),
            MonitorStep::Stop => MonitorModel::Stop,
        }
    }
}

/// What follows from a line: the event it holds, the end where the group is
/// gone, and otherwise nothing.
pub open spec fn line_step(raw: Seq<char>) -> MonitorModel {
    match event_text(raw) {
        None => MonitorModel::Continue,
        Some(t) => match meaning(t) {
            GroupEventModel::GroupRemoved => MonitorModel::Stop,
            GroupEventModel::Other => MonitorModel::Continue,
            e => MonitorModel::Handle(e),
        },
    }
}

/// Decides what the event monitor does after a read.
pub fn monitor_step(read: MonitorRead<'_>) -> (r: MonitorStep)
    ensures
        r@ == match read {
            MonitorRead::End => MonitorModel::Stop,
            MonitorRead::Failed { died } => if died {
                MonitorModel::Stop
            } else {
                MonitorModel::Continue
            },
            MonitorRead::Line(raw) => line_step(raw@),
        },
{
    match read {
        MonitorRead::End => MonitorStep::Stop,
        MonitorRead::Failed { died } => if died {
            MonitorStep::Stop
        } else {
            MonitorStep::Continue
        },
        MonitorRead::Line(raw) => match clean_event_line(raw) {
            None => MonitorStep::Continue,
            Some(t) => match classify_event(t.as_str()) {
                GroupEvent::GroupRemoved => MonitorStep::Stop,
                GroupEvent::Other => MonitorStep::Continue,
                e => MonitorStep::Handle(e),
            },
        },
    }
}

/// The command that arms a PIN for the time that the supplicant gives it.
pub fn arm_command(pin: &str) -> (r: WpaCommand)
    ensures
        r@ == checked(seq!["wps_pin"@, "any"@, pin@]),
{
    command3("wps_pin", "any", pin, false)
}

/// The command that watches a group interface for events.
pub fn monitor_command(group_interface: &str, ctrl_path: Option<&str>) -> (r: Vec<String>)
    ensures
        strs(r@) == wpa_cli_words(group_interface@, Seq::empty(), maybe_text(ctrl_path)),
{
    let mut out: Vec<String> = Vec::new();
    out.push("sudo".to_owned());
    out.push("wpa_cli".to_owned());
    if let Some(p) = ctrl_path {
        out.push("-p".to_owned());
        out.push(p.to_owned());
    }
    out.push("-i".to_owned());
    out.push(group_interface.to_owned());
    assert(strs(out@) =~= wpa_cli_words(group_interface@, Seq::empty(), maybe_text(ctrl_path)));
    out
}

/// Whether the PIN is to be armed again.
pub fn rearm_due(elapsed_secs: u64) -> (r: bool)
    ensures
        r == (elapsed_secs >= 90),
{
    elapsed_secs >= WPS_REARM_SECS
}

/// The address that the lines of a lease file give for a station, whose
/// hardware address is given in lower case.
pub open spec fn lease_in(ls: Seq<Seq<char>>, mac_lower: Seq<char>) -> Option<Seq<char>>
    decreases ls.len(),
{
    if ls.len() == 0 {
        None
    } else {
        let p = words(ls[0]);
        if p.len() >= 3 && unicode_lower(p[1]) == mac_lower {
            Some(p[2])
        } else {
            lease_in(ls.skip(1), mac_lower)
        }
    }
}

/// Whether lines of a lease file show the address of a station, whose hardware
/// address is given in lower case: the first line with it, in whatever case, as
/// its second word has the address as its third.
pub open spec fn shows_lease(
    ls: Seq<Seq<char>>,
    mac_lower: Seq<char>,
    k: int,
    ip: Seq<char>,
) -> bool {
    &&& 0 <= k < ls.len()
    &&& words(ls[k]).len() >= 3
    &&& is_ascii_chars(words(ls[k])[1])
    &&& ascii_lower(words(ls[k])[1]) == mac_lower
    &&& words(ls[k])[2] == ip
    &&& forall|j: int|
        0 <= j < k && words(#[trigger] ls[j]).len() >= 3 ==> is_ascii_chars(words(ls[j])[1])
            && ascii_lower(words(ls[j])[1]) != mac_lower
}

/// Whether lines of a neighbour table show the address of a station, whose
/// hardware address is given in lower case: the first line that holds it, in
/// whatever case, begins with the address.
pub open spec fn shows_neighbour(
    ls: Seq<Seq<char>>,
    mac_lower: Seq<char>,
    k: int,
    ip: Seq<char>,
) -> bool {
    &&& 0 <= k < ls.len()
    &&& is_ascii_chars(ls[k])
    &&& contains(ascii_lower(ls[k]), mac_lower)
    &&& words(ls[k]).len() > 0
    &&& words(ls[k])[0] == ip
    &&& forall|j: int|
        0 <= j < k ==> is_ascii_chars(#[trigger] ls[j]) && !contains(ascii_lower(ls[j]), mac_lower)
}

/// Whether lines of a lease file show that a station, whose hardware address is
/// given in lower case, has none.
pub open spec fn lacks_lease(ls: Seq<Seq<char>>, mac_lower: Seq<char>) -> bool {
    forall|j: int|
        0 <= j < ls.len() && words(#[trigger] ls[j]).len() >= 3 ==> is_ascii_chars(words(ls[j])[1])
            && ascii_lower(words(ls[j])[1]) != mac_lower
}

/// Finds the address of a station in a lease file.
pub fn lease_ip(leases: &str, mac_lower: &str) -> (r: Option<String>)
    ensures
        match r {
            Some(ip) => lease_in(lines(leases@), mac_lower@) == Some(ip@),
            None => lease_in(lines(leases@), mac_lower@) is None,
        },
        forall|k: int, ip: Seq<char>| #[trigger]
            shows_lease(lines(leases@), mac_lower@, k, ip) ==> (r matches Some(t) && t@ == ip),
        lacks_lease(lines(leases@), mac_lower@) ==> r is None,
{
    let all: Vec<char> = text::chars_of(leases);
    let ls: Vec<Vec<char>> = text::lines_of(all.as_slice());
    let ghost gs = texts(ls@);
    let mut i: usize = 0;
    assert(gs.skip(0) =~= gs);
    while i < ls.len()
        invariant
            i <= ls@.len(),
            gs == texts(ls@),
            gs == lines(leases@),
            lease_in(gs, mac_lower@) == lease_in(gs.skip(i as int), mac_lower@),
            forall|k: int, ip: Seq<char>| #[trigger]
                shows_lease(gs, mac_lower@, k, ip) ==> i <= k,
        decreases ls.len() - i,
    {
        assert(gs.skip(i as int)[0] == ls@[i as int]@);
        assert(gs.skip(i as int).skip(1) =~= gs.skip(i + 1));
        let p: Vec<Vec<char>> = text::words_of(ls[i].as_slice());
        assert(p@.len() >= 3 ==> texts(p@)[1] == p@[1]@ && texts(p@)[2] == p@[2]@);
        if p.len() >= 3 {
            let mac: String = text::string_of(p[1].as_slice());
            let lowered: String = to_lowercase(mac.as_str());
            if text::same_str(lowered.as_str(), mac_lower) {
                return Some(text::string_of(p[2].as_slice()));
            }
        }
        i += 1;
    }
    None
}

/// The address that the lines of a neighbour table give for a station, whose
/// hardware address is given in lower case.
pub open spec fn neighbour_in(ls: Seq<Seq<char>>, mac_lower: Seq<char>) -> Option<Seq<char>>
    decreases ls.len(),
{
    if ls.len() == 0 {
        None
    } else {
        let p = words(ls[0]);
        if contains(unicode_lower(ls[0]), mac_lower) && p.len() > 0 {
            Some(p[0])
        } else {
            neighbour_in(ls.skip(1), mac_lower)
        }
    }
}

/// Finds the address of a station in a neighbour table.
pub fn neighbour_ip(table: &str, mac_lower: &str) -> (r: Option<String>)
    ensures
        match r {
            Some(ip) => neighbour_in(lines(trim(table@)), mac_lower@) == Some(ip@),
            None => neighbour_in(lines(trim(table@)), mac_lower@) is None,
        },
        forall|k: int, ip: Seq<char>| #[trigger]
            shows_neighbour(lines(trim(table@)), mac_lower@, k, ip) ==> (r matches Some(t) && t@
                == ip),
{
    let all: Vec<char> = text::chars_of(table);
    let ls: Vec<Vec<char>> = text::lines_of(text::trimmed(all.as_slice()));
    let ghost gs = texts(ls@);
    let mut i: usize = 0;
    assert(gs.skip(0) =~= gs);
    while i < ls.len()
        invariant
            i <= ls@.len(),
            gs == texts(ls@),
            gs == lines(trim(table@)),
            neighbour_in(gs, mac_lower@) == neighbour_in(gs.skip(i as int), mac_lower@),
            forall|k: int, ip: Seq<char>| #[trigger]
                shows_neighbour(gs, mac_lower@, k, ip) ==> i <= k,
        decreases ls.len() - i,
    {
        assert(gs.skip(i as int)[0] == ls@[i as int]@);
        assert(gs.skip(i as int).skip(1) =~= gs.skip(i + 1));
        let whole: String = text::string_of(ls[i].as_slice());
        let lowered: String = to_lowercase(whole.as_str());
        let low: Vec<char> = text::chars_of(lowered.as_str());
        if text::holds(low.as_slice(), mac_lower) {
            let p: Vec<Vec<char>> = text::words_of(ls[i].as_slice());
            assert(p@.len() > 0 ==> texts(p@)[0] == p@[0]@);
            if p.len() > 0 {
                return Some(text::string_of(p[0].as_slice()));
            }
        }
        i += 1;
    }
    None
}

/// The address of a station, by the lease file first and then by the neighbour
/// table, as far as they could be read.
pub open spec fn peer_address_in(
    leases: Option<&str>,
    neighbours: Option<&str>,
    mac_lower: Seq<char>,
) -> Option<Seq<char>> {
    let first = match leases {
        Some(t) => lease_in(lines(t@), mac_lower),
        None => None,
    };
    match first {
        Some(ip) => Some(ip),
        None => match neighbours {
            Some(t) => neighbour_in(lines(trim(t@)), mac_lower),
            None => None,
        },
    }
}

/// Finds the address of a station.
pub fn find_peer_ip(leases: Option<&str>, neighbours: Option<&str>, peer_mac: &str) -> (r: Option<
    String,
>)
    ensures
        match r {
            Some(ip) => peer_address_in(leases, neighbours, unicode_lower(peer_mac@)) == Some(ip@),
            None => peer_address_in(leases, neighbours, unicode_lower(peer_mac@)) is None,
        },
        is_ascii_chars(peer_mac@) && leases is Some ==> forall|k: int, ip: Seq<char>| #[trigger]
            shows_lease(lines(leases->0@), ascii_lower(peer_mac@), k, ip) ==> (r matches Some(t)
                && t@ == ip),
        is_ascii_chars(peer_mac@) && (leases matches Some(t) ==> lacks_lease(
            lines(t@),
            ascii_lower(peer_mac@),
        )) && neighbours is Some ==> forall|
            k: int,
            ip: Seq<char>,
        | #[trigger]
            shows_neighbour(lines(trim(neighbours->0@)), ascii_lower(peer_mac@), k, ip) ==> (
            r matches Some(t) && t@ == ip),
{
    let mac_lower: String = to_lowercase(peer_mac);
    let first: Option<String> = match leases {
        Some(t) => lease_ip(t, mac_lower.as_str()),
        None => None,
    };
    match first {
        Some(ip) => Some(ip),
        None => match neighbours {
            Some(t) => neighbour_ip(t, mac_lower.as_str()),
            None => None,
        },
    }
}

} // verus!
