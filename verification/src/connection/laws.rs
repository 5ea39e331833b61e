//! What holds of the events of the group interface and of the handler that
//! takes them.

use vstd::prelude::*;
use crate::connection::handler::{
    arming, join_step, leave_step, listen_step, rearming, with_pin, HandlerModel, HandlerState,
};
use crate::connection::{
    event_text, is_address_char, line_step, meaning, space_end, station_at, station_from,
    GroupEventModel, MonitorModel,
};
use crate::models::{connection_fault, Timestamp};
use crate::p2p_backend::cli::{report_of, ReportModel};
use crate::p2p_backend::EventModel;
use crate::text;
use crate::text::{ascii_lower, contains, is_solid, is_space, occurs_at};

verus! {

/// Whether a text is a hardware address: seventeen characters of one.
pub open spec fn is_address(mac: Seq<char>) -> bool {
    mac.len() == 17 && forall|i: int| 0 <= i < 17 ==> is_address_char(#[trigger] mac[i])
}

proof fn lemma_station_first(s: Seq<char>, event: Seq<char>, i: int, k: int)
    requires
        0 <= i <= k <= s.len(),
        station_at(s, event, k) is Some,
        forall|j: int| i <= j < k ==> !#[trigger] occurs_at(s, event, j),
    ensures
        station_from(s, event, i) == station_at(s, event, k),
    decreases k - i,
{
    if i < k {
        assert(!occurs_at(s, event, i));
        lemma_station_first(s, event, i + 1, k);
    }
}

proof fn lemma_station_holds(s: Seq<char>, event: Seq<char>, i: int)
    requires
        0 <= i,
        station_from(s, event, i) is Some,
    ensures
        contains(s, event),
    decreases s.len() - i + 1,
{
    text::lemma_find_from(s, event, 0);
    if i <= s.len() {
        if station_at(s, event, i) is Some {
            assert(occurs_at(s, event, i));
        } else {
            lemma_station_holds(s, event, i + 1);
        }
    }
}

/// The text of an event with the address of a station.
pub open spec fn event_of(pre: Seq<char>, event: Seq<char>, mac: Seq<char>, rest: Seq<char>) -> Seq<
    char,
> {
    pre + event + " "@ + mac + rest
}

/// Whether an event does not stand before the place at which it is written.
pub open spec fn is_first(pre: Seq<char>, event: Seq<char>, mac: Seq<char>, rest: Seq<char>) -> bool {
    forall|j: int|
        0 <= j < pre.len() ==> !#[trigger] occurs_at(event_of(pre, event, mac, rest), event, j)
}

proof fn lemma_station_written(pre: Seq<char>, event: Seq<char>, mac: Seq<char>, rest: Seq<char>)
    requires
        is_address(mac),
        is_first(pre, event, mac, rest),
    ensures
        station_from(event_of(pre, event, mac, rest), event, 0) == Some(mac),
{
    let s = event_of(pre, event, mac, rest);
    let k = pre.len() as int;
    let j = k + event.len();
    reveal_strlit(" ");
    assert(s.subrange(k, k + event.len()) =~= event);
    assert(s[j] == ' ');
    assert(s[j + 1] == mac[0]);
    assert(is_address_char(mac[0]));
    assert(!is_space(mac[0]));
    assert(space_end(s, j + 1) == j + 1);
    assert(space_end(s, j) == j + 1);
    assert forall|n: int| j + 1 <= n < j + 18 implies is_address_char(#[trigger] s[n]) by {
        assert(s[n] == mac[n - j - 1]);
        assert(is_address_char(mac[n - j - 1]));
    }
    assert(s.subrange(j + 1, j + 18) =~= mac);
    lemma_station_first(s, event, 0, k);
}

/// A station that joins is told by its address, whatever stands around the
/// event.
pub proof fn law_joining_station_is_told(pre: Seq<char>, mac: Seq<char>, rest: Seq<char>)
    requires
        is_address(mac),
        is_first(pre, "AP-STA-CONNECTED"@, mac, rest),
    ensures
        meaning(event_of(pre, "AP-STA-CONNECTED"@, mac, rest))
            == GroupEventModel::StationConnected(mac),
{
    lemma_station_written(pre, "AP-STA-CONNECTED"@, mac, rest);
}

/// A station that leaves is told, unless the text says something else as well.
pub proof fn law_leaving_station_is_told(pre: Seq<char>, mac: Seq<char>, rest: Seq<char>)
    requires
        is_address(mac),
        is_first(pre, "AP-STA-DISCONNECTED"@, mac, rest),
        !contains(event_of(pre, "AP-STA-DISCONNECTED"@, mac, rest), "AP-STA-CONNECTED"@),
        !contains(event_of(pre, "AP-STA-DISCONNECTED"@, mac, rest), "WPS-PIN-NEEDED"@),
    ensures
        meaning(event_of(pre, "AP-STA-DISCONNECTED"@, mac, rest))
            == GroupEventModel::StationDisconnected,
{
    let s = event_of(pre, "AP-STA-DISCONNECTED"@, mac, rest);
    lemma_station_written(pre, "AP-STA-DISCONNECTED"@, mac, rest);
    if station_from(s, "AP-STA-CONNECTED"@, 0) is Some {
        lemma_station_holds(s, "AP-STA-CONNECTED"@, 0);
    }
}

/// A text that tells of no station that joins means that a PIN is needed where
/// it says so, that the group is gone where it says that and tells of no station
/// that leaves, and nothing where it says none of these.
pub proof fn law_other_events_are_told(t: Seq<char>)
    requires
        !contains(t, "AP-STA-CONNECTED"@),
    ensures
        contains(t, "WPS-PIN-NEEDED"@) ==> meaning(t) == GroupEventModel::PinNeeded,
        !contains(t, "WPS-PIN-NEEDED"@) && !contains(t, "AP-STA-DISCONNECTED"@) ==> meaning(t)
            == if contains(t, "P2P-GROUP-REMOVED"@) {
            GroupEventModel::GroupRemoved
        } else {
            GroupEventModel::Other
        },
{
    if station_from(t, "AP-STA-CONNECTED"@, 0) is Some {
        lemma_station_holds(t, "AP-STA-CONNECTED"@, 0);
    }
    if station_from(t, "AP-STA-DISCONNECTED"@, 0) is Some {
        lemma_station_holds(t, "AP-STA-DISCONNECTED"@, 0);
    }
}

/// The prompt before an event and the white space around it are taken off, and
/// nothing else is.
pub proof fn law_prompt_is_taken_off(t: Seq<char>)
    requires
        is_solid(t),
        t[0] != '>',
    ensures
        event_text(t) == Some(t),
        event_text("> "@ + t) == Some(t),
        event_text(">"@ + t) == Some(t),
        event_text(t.push('\n')) == Some(t),
        event_text(("> "@ + t).push('\n')) == Some(t),
{
    reveal_strlit("> ");
    reveal_strlit(">");
    text::lemma_trim_solid(t, ' ');
    text::lemma_trim_solid(t, '\n');
    let a = "> "@ + t;
    let b = ">"@ + t;
    assert(a[0] == '>' && a.last() == t.last() && b[0] == '>' && b.last() == t.last());
    text::lemma_trim_solid(a, '\n');
    text::lemma_trim_solid(b, '\n');
    assert(a.skip(2) =~= t);
    assert(b.skip(1) =~= t);
    assert(a.take(2) =~= "> "@);
    assert(b.take(1) =~= ">"@);
    if "> "@.is_prefix_of(b) {
        assert(b.subrange(0, 2)[1] == b[1]);
        assert(b[1] == t[0]);
    }
    if "> "@.is_prefix_of(t) {
        assert(t.subrange(0, 2)[0] == t[0]);
    }
    if ">"@.is_prefix_of(t) {
        assert(t.subrange(0, 1)[0] == t[0]);
    }
}

/// Both monitors take an event for what it means: a station and the need for a
/// PIN are handed on, the end of the group ends them, and the rest is passed
/// over. An address is reported in lower case.
pub proof fn law_monitors_agree(raw: Seq<char>, t: Seq<char>)
    requires
        event_text(raw) == Some(t),
    ensures
        match meaning(t) {
            GroupEventModel::StationConnected(mac) => line_step(raw) == MonitorModel::Handle(
                GroupEventModel::StationConnected(mac),
            ) && report_of(raw) == ReportModel::Report(
                EventModel::PeerConnected(ascii_lower(mac)),
            ),
            GroupEventModel::StationDisconnected => line_step(raw) == MonitorModel::Handle(
                GroupEventModel::StationDisconnected,
            ) && report_of(raw) == ReportModel::Report(EventModel::PeerDisconnected),
            GroupEventModel::PinNeeded => line_step(raw) == MonitorModel::Handle(
                GroupEventModel::PinNeeded,
            ) && report_of(raw) == ReportModel::Report(EventModel::WpsPinNeeded),
            GroupEventModel::GroupRemoved => line_step(raw) == MonitorModel::Stop && report_of(raw)
                == ReportModel::ReportAndStop(EventModel::GroupRemoved),
            GroupEventModel::Other => line_step(raw) == MonitorModel::Continue && report_of(raw)
                == ReportModel::Continue,
        },
{
}

/// Listening begins with the addresses; then the PIN is armed on the group,
/// shown, and the group is watched. A handler that listens is not disturbed.
pub proof fn law_listening_begins_once(
    s: HandlerState,
    group: Seq<char>,
    pin: Seq<char>,
    other_group: Seq<char>,
    other_pin: Seq<char>,
)
    requires
        !s.running,
    ensures
        ({
            let first = listen_step(s, group, pin);
            let second = listen_step(first.0, other_group, other_pin);
            &&& first.1.len() == 4
            &&& first.1[0] == HandlerModel::SetUpAddressing(group)
            &&& first.1[1] == HandlerModel::ArmPin(group, pin)
            &&& first.1[2] matches HandlerModel::ShowPin(p, _) && p == pin
            &&& first.1[3] == HandlerModel::StartMonitor(group)
            &&& arming(first.0) == seq![HandlerModel::ArmPin(group, pin)]
            &&& first.0.active == s.active
            &&& first.0.running && first.0.our_ip == "192.168.173.1"@
            &&& second == (first.0, Seq::<HandlerModel>::empty())
        }),
{
}

/// A new PIN is armed on the group of the handler and shown, and it is the one
/// that is armed from then on.
pub proof fn law_new_pin_is_the_one_in_use(s: HandlerState, group: Seq<char>, pin: Seq<char>)
    requires
        s.group == Some(group),
    ensures
        rearming(s, pin).len() == 2,
        rearming(s, pin)[0] == HandlerModel::ArmPin(group, pin),
        rearming(s, pin)[1] matches HandlerModel::ShowPin(p, _) && p == pin,
        arming(with_pin(s, pin)) == seq![HandlerModel::ArmPin(group, pin)],
        with_pin(s, pin).active == s.active,
        with_pin(s, pin).running == s.running,
        with_pin(s, pin).group == s.group,
{
}

/// A station that joins is told once with its own hardware address, with the
/// address that was found for it or else the first of the pool, on its group;
/// when it leaves, its loss is told and the handler has no source any more. A
/// station that cannot be used changes nothing, and what is wrong is told.
pub proof fn law_source_comes_and_goes(
    s: HandlerState,
    mac: Seq<char>,
    ip: Option<Seq<char>>,
    group: Seq<char>,
    now: Timestamp,
    pin: Seq<char>,
)
    ensures
        ({
            let joined = join_step(s, mac, ip, group, now);
            let left = leave_step(joined.0, pin);
            &&& joined.1.len() == 1
            &&& match joined.1[0] {
                HandlerModel::ReportConnection(c) => {
                    &&& c.peer_address == mac
                    &&& ip matches Some(t) ==> c.peer_ip == t
                    &&& ip is None ==> c.peer_ip == "192.168.173.80"@
                    &&& c.group_interface == group
                    &&& c.our_ip == s.our_ip
                    &&& c.connected_at == now
                    &&& connection_fault(c, now) is None
                    &&& joined.0.active == Some(c)
                    &&& left.0.active is None
                    &&& left.1.len() > 0 && left.1[0] == HandlerModel::ReportLoss
                    &&& left.0.pin == Some(pin)
                },
                HandlerModel::ReportError(_) => joined.0 == s,
                _ => false,
            }
        }),
{
}

} // verus!
