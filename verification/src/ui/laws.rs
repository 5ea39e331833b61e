//! What holds of the reactions of the application, of the order of its steps and
//! of what it shows.

use vstd::prelude::*;
use crate::config::lookup;
use crate::events::Event;
use crate::json::{num, JsonModel};
use crate::models::ServerSessionRecord;
use crate::service::text_setting;
use crate::text;
use crate::text::{as_i64, dec, split_once};
use crate::ui::app::{
    action_if, asked_adapter, ending, first_idle, reaction, ready_again, shell_if, switching,
    AppContext, AppModel, ShellStep,
};
use crate::ui::display_view::{clock_text, device_text, page, size_text, stats_text, DisplayState};
use crate::ui::sessions_view::{
    duration_text, left_seconds, row_parts, title_text, whole_minutes,
};
use crate::ui::settings_view::{
    choice_labels, choice_values, chosen, general_rows, groups, label_of, lemma_not_chosen,
    log_levels, network_rows, port_typed, resolutions, service_rows, streaming_rows, RowModel,
};
use crate::utils::InterfaceInfo;

verus! {

/// The first adapter that is not connected is taken. Where none is taken, every
/// one is connected.
pub proof fn law_first_idle_adapter_is_taken(adapters: Seq<Seq<char>>, connected: Seq<bool>)
    requires
        adapters.len() == connected.len(),
    ensures
        match first_idle(adapters, connected) {
            Some(n) => exists|i: int|
                0 <= i < adapters.len() && #[trigger] adapters[i] == n && !connected[i] && forall|
                    j: int,
                |
                    0 <= j < i ==> #[trigger] connected[j],
            None => forall|j: int| 0 <= j < adapters.len() ==> #[trigger] connected[j],
        },
    decreases adapters.len(),
{
    if adapters.len() > 0 {
        let a = adapters.skip(1);
        let c = connected.skip(1);
        law_first_idle_adapter_is_taken(a, c);
        assert forall|j: int| 1 <= j < connected.len() implies #[trigger] connected[j] == c[j - 1] by {}
        if !connected[0] {
            assert(adapters[0] == first_idle(adapters, connected)->0);
        } else {
            match first_idle(a, c) {
                Some(n) => {
                    let i = choose|i: int|
                        0 <= i < a.len() && #[trigger] a[i] == n && !c[i] && forall|j: int|
                            0 <= j < i ==> #[trigger] c[j];
                    assert(adapters[i + 1] == n);
                    assert(!connected[i + 1]);
                    assert forall|j: int| 0 <= j < i + 1 implies #[trigger] connected[j] by {
                        if j > 0 {
                            assert(c[j - 1]);
                        }
                    }
                },
                None => {
                    assert forall|j: int| 0 <= j < adapters.len() implies #[trigger] connected[j] by {
                        if j > 0 {
                            assert(c[j - 1]);
                        }
                    }
                },
            }
        }
    }
}

/// An adapter can be asked for by its own name or by that of its device.
pub proof fn law_adapter_is_asked_for_by_either_name(name: Seq<char>)
    ensures
        asked_adapter("p2p-dev-"@ + name) == name,
        !"p2p-dev-"@.is_prefix_of(name) ==> asked_adapter(name) == name,
{
    reveal_strlit("p2p-dev-");
    let full = "p2p-dev-"@ + name;
    assert(full.take(8) =~= "p2p-dev-"@);
    assert(full.skip(8) =~= name);
}

/// A group that is up is listened on, a PIN is shown as it is, a source that
/// connects is received from unless one is already, and its stream is shown,
/// over the whole screen where that is wanted.
pub proof fn law_session_is_followed(e: Event, c: AppContext)
    ensures
        e matches Event::AdvertisingStarted { group_interface } && group_interface@.len() > 0
            ==> reaction(e, c).contains(AppModel::StartListening(e->group_interface@)),
        e matches Event::PinDisplay { pin, .. } ==> reaction(e, c).contains(
            AppModel::ShowPin(e->pin@),
        ),
        e matches Event::ConnectionReceived(conn) ==> reaction(e, c).contains(AppModel::HidePin) && (
        !c.receiving <==> reaction(e, c).contains(AppModel::StartReceiving)),
        e is StreamStarted ==> reaction(e, c).contains(AppModel::ShowReceiving) && (
        c.fullscreen_on_stream <==> reaction(e, c).contains(AppModel::Fullscreen)),
        e is ConnectionLost ==> reaction(e, c).contains(AppModel::ShowIdle),
        e is StatsUpdated ==> reaction(e, c).contains(AppModel::ShowStats),
{
    let r = reaction(e, c);
    match e {
        Event::AdvertisingStarted { group_interface } => {
            if group_interface@.len() > 0 {
                assert(r[2] == AppModel::StartListening(group_interface@));
            }
        },
        Event::PinDisplay { pin, peer_info } => {
            assert(r[1] == AppModel::ShowPin(pin@));
        },
        Event::ConnectionReceived(conn) => {
            assert(r[1] == AppModel::HidePin);
            if !c.receiving {
                assert(r[3] == AppModel::StartReceiving);
            }
        },
        Event::StreamStarted => {
            assert(r[1] == AppModel::ShowReceiving);
            if c.fullscreen_on_stream {
                assert(r[2] == AppModel::Fullscreen);
            }
        },
        Event::ConnectionLost => {
            assert(r[1] == AppModel::ShowIdle);
        },
        Event::StatsUpdated(stats) => {
            assert(r[0] == AppModel::ShowStats);
        },
        _ => {},
    }
}

/// However a stream ends, the session of a known source is recorded before the
/// list is read again, the picture gives way, the whole screen is left where it
/// was taken, and the sink is made ready for the next source unless it ends. A
/// stream that fails is stopped before it is recorded.
pub proof fn law_ended_stream_is_recorded(e: Event, c: AppContext)
    requires
        e is StreamStopped || e is StreamError,
        c.has_source,
        c.fullscreen,
        c.has_handler,
        !c.shutting_down,
    ensures
        e is StreamStopped ==> reaction(e, c).skip(1) == seq![
            AppModel::RecordSession,
            AppModel::RefreshSessions,
            AppModel::ShowIdle,
            AppModel::Unfullscreen,
            AppModel::RearmPin,
        ],
        e is StreamError ==> reaction(e, c).skip(1) == seq![
            AppModel::StopReceiving,
            AppModel::RecordStopped,
            AppModel::RefreshSessions,
            AppModel::ShowIdle,
            AppModel::Unfullscreen,
            AppModel::RearmPin,
        ],
{
    let r = reaction(e, c);
    if e is StreamStopped {
        assert(r.skip(1) =~= seq![
            AppModel::RecordSession,
            AppModel::RefreshSessions,
            AppModel::ShowIdle,
            AppModel::Unfullscreen,
            AppModel::RearmPin,
        ]);
    } else {
        assert(r.skip(1) =~= seq![
            AppModel::StopReceiving,
            AppModel::RecordStopped,
            AppModel::RefreshSessions,
            AppModel::ShowIdle,
            AppModel::Unfullscreen,
            AppModel::RearmPin,
        ]);
    }
}

/// Nothing of an unknown source is recorded, a window that does not fill the
/// screen does not leave it, and an application that ends takes no new PIN into
/// use.
pub proof fn law_nothing_needless_is_done(e: Event, c: AppContext)
    ensures
        !c.has_source ==> !reaction(e, c).contains(AppModel::RecordSession) && !reaction(
            e,
            c,
        ).contains(AppModel::RecordStopped),
        !c.fullscreen ==> !reaction(e, c).contains(AppModel::Unfullscreen),
        c.shutting_down || !c.has_handler ==> !reaction(e, c).contains(AppModel::RearmPin),
{
    if !c.has_source {
        lemma_absent(e, c, AppModel::RecordSession);
        lemma_absent(e, c, AppModel::RecordStopped);
    }
    if !c.fullscreen {
        lemma_absent(e, c, AppModel::Unfullscreen);
    }
    if c.shutting_down || !c.has_handler {
        lemma_absent(e, c, AppModel::RearmPin);
    }
}

proof fn lemma_in_neither(a: Seq<AppModel>, b: Seq<AppModel>, x: AppModel)
    requires
        !a.contains(x),
        !b.contains(x),
    ensures
        !(a + b).contains(x),
{
    if (a + b).contains(x) {
        let i = choose|i: int| 0 <= i < (a + b).len() && (a + b)[i] == x;
        if i < a.len() {
            assert(a[i] == x);
        } else {
            assert(b[i - a.len()] == x);
        }
    }
}

/// What is done only under a condition is not done where that does not hold.
proof fn lemma_absent(e: Event, c: AppContext, x: AppModel)
    requires
        (x == AppModel::RecordSession && !c.has_source) || (x == AppModel::RecordStopped
            && !c.has_source) || (x == AppModel::Unfullscreen && !c.fullscreen) || (x
            == AppModel::RearmPin && (c.shutting_down || !c.has_handler)),
    ensures
        !reaction(e, c).contains(x),
{
    let ready = ready_again(c);
    let back = action_if(c.fullscreen, AppModel::Unfullscreen);
    assert(!ready.contains(x));
    assert(!back.contains(x));
    match e {
        Event::AdvertisingStarted { group_interface } => {
            let a = seq![
                AppModel::SetStatus(crate::ui::app::advertising_text(c.device_name@)),
                AppModel::ShowIdle,
            ];
            let b = action_if(
                group_interface@.len() > 0,
                AppModel::StartListening(group_interface@),
            );
            assert(!a.contains(x) && !b.contains(x));
            lemma_in_neither(a, b, x);
        },
        Event::ConnectionReceived(conn) => {
            let a = seq![
                AppModel::SetStatus("Connected: "@ + conn.peer_name@),
                AppModel::HidePin,
                AppModel::ShowConnected(conn.peer_name@),
            ];
            let b = action_if(!c.receiving, AppModel::StartReceiving);
            assert(!a.contains(x) && !b.contains(x));
            lemma_in_neither(a, b, x);
        },
        Event::ConnectionError(m) => {
            let a = seq![
                AppModel::SetStatus(crate::ui::app::advertising_text(c.device_name@)),
                AppModel::ShowIdle,
            ];
            assert(!a.contains(x));
            lemma_in_neither(a, ready, x);
        },
        Event::StreamStarted => {
            let a = seq![AppModel::SetStatus("Receiving stream"@), AppModel::ShowReceiving];
            let b = action_if(c.fullscreen_on_stream, AppModel::Fullscreen);
            assert(!a.contains(x) && !b.contains(x));
            lemma_in_neither(a, b, x);
        },
        Event::StreamStopped(stats) => {
            let a = seq![AppModel::SetStatus("Stream ended"@)];
            let b = action_if(c.has_source, AppModel::RecordSession);
            let d = seq![AppModel::RefreshSessions, AppModel::ShowIdle];
            assert(!a.contains(x) && !b.contains(x) && !d.contains(x));
            lemma_in_neither(a, b, x);
            lemma_in_neither(a + b, d, x);
            lemma_in_neither(a + b + d, back, x);
            lemma_in_neither(a + b + d + back, ready, x);
        },
        Event::StreamError(m) => {
            let a = seq![AppModel::SetStatus("Stream error"@)];
            let b = action_if(c.has_source, AppModel::StopReceiving);
            let d = action_if(c.has_source, AppModel::RecordStopped);
            let f = action_if(c.has_source, AppModel::RefreshSessions);
            let g = seq![AppModel::ShowIdle];
            assert(!a.contains(x) && !b.contains(x) && !d.contains(x) && !f.contains(x)
                && !g.contains(x));
            lemma_in_neither(a, b, x);
            lemma_in_neither(a + b, d, x);
            lemma_in_neither(a + b + d, f, x);
            lemma_in_neither(a + b + d + f, g, x);
            lemma_in_neither(a + b + d + f + g, back, x);
            lemma_in_neither(a + b + d + f + g + back, ready, x);
        },
        _ => {},
    }
}

/// The end stops what runs and nothing else, records the session of a known
/// source, and comes only once.
pub proof fn law_end_stops_what_runs(
    receiving: bool,
    has_source: bool,
    has_handler: bool,
    has_supplicant: bool,
)
    ensures
        ({
            let e = ending(false, receiving, has_source, has_handler, has_supplicant);
            &&& receiving <==> e.contains(ShellStep::StopReceiving)
            &&& receiving && has_source <==> e.contains(ShellStep::RecordStopped)
            &&& has_handler <==> e.contains(ShellStep::StopListening)
            &&& has_handler <==> e.contains(ShellStep::DisconnectPeer)
            &&& has_supplicant <==> e.contains(ShellStep::StopSupplicant)
        }),
        ending(true, receiving, has_source, has_handler, has_supplicant).len() == 0,
{
    let e = ending(false, receiving, has_source, has_handler, has_supplicant);
    let a = shell_if(receiving, ShellStep::StopReceiving);
    let b = shell_if(receiving && has_source, ShellStep::RecordStopped);
    let c = shell_if(has_handler, ShellStep::DisconnectPeer);
    let d = shell_if(has_handler, ShellStep::StopListening);
    if receiving {
        assert(e[0] == ShellStep::StopReceiving);
        if has_source {
            assert(e[1] == ShellStep::RecordStopped);
        }
    }
    if has_handler {
        let k = (a.len() + b.len()) as int;
        assert(e[k] == ShellStep::DisconnectPeer);
        assert(e[k + 1] == ShellStep::StopListening);
    }
    if has_supplicant {
        assert(e.last() == ShellStep::StopSupplicant);
    }
}

/// A change of the interface leaves the old group before the new interface is
/// set, stores it, and ends in announcing the sink on it. An empty name changes
/// nothing.
pub proof fn law_interface_is_changed_in_order(name: Seq<char>, advertising: bool, listening: bool)
    ensures
        name.len() == 0 ==> switching(name, advertising, listening).len() == 0,
        name.len() > 0 ==> ({
            let s = switching(name, advertising, listening);
            let n = s.len() as int;
            &&& n >= 4
            &&& s[n - 1] == ShellStep::StartAdvertising
            &&& s[n - 2] == ShellStep::StoreInterface
            &&& s[n - 3] == ShellStep::SetInterface
            &&& s[n - 4] == ShellStep::DropHandler
            &&& advertising <==> s.contains(ShellStep::StopAdvertising)
            &&& listening <==> s.contains(ShellStep::StopListening)
            &&& advertising ==> s[0] == ShellStep::StopAdvertising
        }),
{
    if name.len() > 0 {
        let s = switching(name, advertising, listening);
        let a = shell_if(advertising, ShellStep::StopAdvertising);
        if advertising {
            assert(s[0] == ShellStep::StopAdvertising);
        }
        if listening {
            assert(s[a.len() as int] == ShellStep::StopListening);
        }
    }
}

/// A time is parted into full minutes and the seconds that are left, and both
/// are shown.
pub proof fn law_time_is_parted(d: int)
    requires
        0 <= d <= i64::MAX,
    ensures
        60 * whole_minutes(d) + left_seconds(d) == d,
        0 <= left_seconds(d) < 60,
        d < 60 ==> duration_text(d) == dec(d) + "s"@,
        d >= 60 ==> duration_text(d) == dec(d / 60) + "m "@ + dec(d % 60) + "s"@,
{
}

/// The clock shows the minutes, a colon, and the seconds with two digits.
pub proof fn law_clock_shows_two_digits(d: int)
    requires
        0 <= d <= i64::MAX,
    ensures
        split_once(clock_text(d), ':') matches Some(p) && as_i64(p.0) == Some(d / 60) && p.1.len()
            == 2 && as_i64(p.1) == Some(d % 60),
{
    let m = dec(whole_minutes(d));
    let s = left_seconds(d);
    let t = text::zero_padded(dec(s), 2);
    reveal_strlit(":");
    text::lemma_dec_read_back(whole_minutes(d));
    text::lemma_digits_read_back(whole_minutes(d), 10, false);
    text::lemma_digits_read_back(s, 10, false);
    text::lemma_padded_read_back(dec(s), 2, 10);
    text::lemma_plain_is_word(t);
    reveal_with_fuel(text::zero_padded, 3);
    reveal_with_fuel(text::digits, 3);
    assert(dec(s).len() == 1 || dec(s).len() == 2) by {
        if s >= 10 {
            assert(s / 10 < 10);
        }
    }
    assert(!m.contains(':')) by {
        assert forall|i: int| 0 <= i < m.len() implies m[i] != ':' by {}
    }
    assert(clock_text(d) =~= m.push(':') + t);
    text::lemma_split_once_at(m, ':', t);
}

/// A known size is shown as its width and its height.
pub proof fn law_size_shows_width_and_height(width: u32, height: u32)
    requires
        width > 0,
    ensures
        split_once(size_text(width, height), 'x') matches Some(p) && as_i64(p.0) == Some(
            width as int,
        ) && as_i64(p.1) == Some(height as int),
{
    let w = dec(width as int);
    let h = dec(height as int);
    reveal_strlit("x");
    text::lemma_dec_read_back(width as int);
    text::lemma_dec_read_back(height as int);
    lemma_decimal_has_no_letter(width as int);
    assert(size_text(width, height) =~= w.push('x') + h);
    text::lemma_split_once_at(w, 'x', h);
}

proof fn lemma_decimal_has_no_letter(n: int)
    requires
        0 <= n,
    ensures
        !dec(n).contains('x'),
    decreases n,
{
    let d = dec(n);
    if n >= 10 {
        lemma_decimal_has_no_letter(n / 10);
        let front = dec(n / 10);
        assert forall|i: int| 0 <= i < d.len() implies d[i] != 'x' by {
            if i < front.len() {
                assert(d[i] == front[i]);
                assert(front.contains(d[i]));
            }
        }
    }
}

/// Each state of the display has a page of its own.
pub proof fn law_pages_differ(a: DisplayState, b: DisplayState)
    requires
        a != b,
    ensures
        page(a) != page(b),
{
    reveal_strlit("idle");
    reveal_strlit("connected");
    reveal_strlit("receiving");
    assert("idle"@.len() == 4 && "connected"@[0] == 'c' && "receiving"@[0] == 'r');
    assert("connected"@.len() == 9 && "receiving"@.len() == 9);
}

/// The numbers over the picture are its size, the rate and the time, in this
/// order.
pub proof fn law_numbers_stand_over_the_picture(width: u32, height: u32, mbps: Seq<char>, d: int)
    ensures
        size_text(width, height).is_prefix_of(stats_text(width, height, mbps, d)),
        clock_text(d).is_suffix_of(stats_text(width, height, mbps, d)),
        stats_text(width, height, mbps, d).subrange(
            (size_text(width, height).len() + " | "@.len()) as int,
            (size_text(width, height).len() + " | "@.len() + mbps.len()) as int,
        ) == mbps,
{
    let t = stats_text(width, height, mbps, d);
    let a = size_text(width, height);
    let c = clock_text(d);
    let k = a.len() + " | "@.len();
    assert(t.take(a.len() as int) =~= a);
    assert(t.subrange(t.len() - c.len(), t.len() as int) =~= c);
    assert(t.subrange(k as int, (k + mbps.len()) as int) =~= mbps);
}

/// A row of the list names the source, and says when the session was, how long
/// it was, how large its picture was where that is known, and how much came.
pub proof fn law_row_tells_of_the_session(r: ServerSessionRecord, data: Seq<char>)
    ensures
        r.source_info.name@.len() > 0 ==> title_text(r.source_info.name@) == r.source_info.name@,
        r.source_info.name@.len() == 0 ==> title_text(r.source_info.name@) == "Unknown Source"@,
        row_parts(r, data)[1] == duration_text(r.stats.duration as int),
        row_parts(r, data).last() == data,
        r.stats.resolution.0 > 0 ==> row_parts(r, data).len() == 4 && row_parts(r, data)[2]
            == size_text(r.stats.resolution.0, r.stats.resolution.1),
        r.stats.resolution.0 == 0 ==> row_parts(r, data).len() == 3,
{
}

/// The label of the device holds its name.
pub proof fn law_device_label_names_the_device(name: Seq<char>)
    ensures
        name.is_suffix_of(device_text(name)),
{
    let t = device_text(name);
    assert(t.subrange(t.len() - name.len(), t.len() as int) =~= name);
}

/// A choice stands at the first place where it is offered. One that is not
/// offered stands at the given place.
pub proof fn law_choice_is_found(choices: Seq<Seq<char>>, current: Seq<char>, otherwise: int)
    ensures
        choices.contains(current) ==> ({
            let k = chosen(choices, current, otherwise);
            &&& 0 <= k < choices.len() && choices[k] == current
            &&& forall|j: int| 0 <= j < k ==> choices[j] != current
        }),
        !choices.contains(current) ==> chosen(choices, current, otherwise) == otherwise,
    decreases choices.len(),
{
    if choices.contains(current) {
        let front = choices.drop_last();
        if front.contains(current) {
            law_choice_is_found(front, current, otherwise);
            let k = chosen(choices, current, otherwise);
            assert(choices[k] == front[k]);
            assert forall|j: int| 0 <= j < k implies choices[j] != current by {
                assert(choices[j] == front[j]);
            }
        } else {
            let k = choose|k: int| 0 <= k < choices.len() && choices[k] == current;
            if k < front.len() {
                assert(front[k] == current);
            }
            assert forall|j: int| 0 <= j < choices.len() - 1 implies choices[j] != current by {
                assert(front[j] == choices[j]);
                assert(front.contains(front[j]));
            }
        }
    } else {
        lemma_not_chosen(choices, current, otherwise);
    }
}

/// Whether a row shows what the configuration holds under its key.
pub open spec fn shows_its_key(r: RowModel, c: JsonModel) -> bool {
    match r {
        RowModel::Switch { section, key, active, .. } => lookup(c, section, key) matches Some(
            JsonModel::Bool(b),
        ) ==> active == b,
        RowModel::Spin { section, key, number, .. } => forall|n: i64|
            lookup(c, section, key) == Some(#[trigger] num(n as int)) ==> number == n,
        RowModel::Choice { section, key, choices, selected, .. } => lookup(
            c,
            section,
            key,
        ) matches Some(JsonModel::Text(t)) ==> (choices.contains(t) ==> 0 <= selected
            < choices.len() && choices[selected] == t),
        RowModel::Entry { section, key, value, .. } => {
            &&& lookup(c, section, key) matches Some(JsonModel::Text(t)) ==> key == "rtsp_port"@
                || value == t
            &&& forall|n: i64|
                key == "rtsp_port"@ && lookup(c, section, key) == Some(#[trigger] num(n as int))
                    ==> value == dec(n as int)
        },
        _ => true,
    }
}

/// Every row of the settings shows what the configuration holds under its key.
pub proof fn law_rows_show_the_configuration(c: JsonModel, g: int, i: int)
    requires
        0 <= g < groups(c).len(),
        0 <= i < groups(c)[g].rows.len(),
    ensures
        shows_its_key(groups(c)[g].rows[i], c),
{
    reveal_strlit("device_name");
    reveal_strlit("rtsp_port");
    assert("device_name"@.len() == 11 && "rtsp_port"@.len() == 9);
    let level = text_setting(c, "general"@, "log_level"@, "INFO"@);
    let size = text_setting(c, "streaming"@, "max_resolution"@, "1920x1080"@);
    law_choice_is_found(log_levels(), level, 1);
    law_choice_is_found(resolutions(), size, 0);
    if g == 0 {
        let r = general_rows(c);
        assert(groups(c)[0].rows == r);
        assert(shows_its_key(r[0], c));
        assert(shows_its_key(r[1], c));
        assert(shows_its_key(r[2], c));
        assert(shows_its_key(r[3], c));
    } else if g == 1 {
        let r = streaming_rows(c);
        assert(groups(c)[1].rows == r);
        assert(shows_its_key(r[0], c));
        assert(shows_its_key(r[1], c));
        assert(shows_its_key(r[2], c));
        assert(shows_its_key(r[3], c));
    } else if g == 2 {
        let r = network_rows(c);
        assert(groups(c)[2].rows == r);
        assert(shows_its_key(r[0], c));
        assert(shows_its_key(r[1], c));
        assert(shows_its_key(r[2], c));
        assert(shows_its_key(r[3], c));
        assert(shows_its_key(r[4], c));
    } else {
        let r = service_rows(c);
        assert(groups(c)[3].rows == r);
        assert(shows_its_key(r[0], c));
        assert(shows_its_key(r[1], c));
        assert(shows_its_key(r[2], c));
    }
}

/// A port that is typed is stored where it needs no privileges, with or without
/// white space around it, and not otherwise.
pub proof fn law_typed_port_is_checked(n: int)
    requires
        i64::MIN <= n <= i64::MAX,
    ensures
        port_typed(dec(n)) == if 1024 <= n <= 65535 {
            Some(n)
        } else {
            None
        },
        port_typed(dec(n).push(' ')) == port_typed(dec(n)),
        port_typed(seq![' '] + dec(n)) == port_typed(dec(n)),
{
    text::lemma_dec_read_back(n);
    let d = dec(n);
    assert(!text::is_space(d[0]) && !text::is_space(d[d.len() - 1]));
    text::lemma_trim_solid(d, ' ');
}

/// Each interface to choose has a label that begins with its name, at the same
/// place; the first choice stands for none.
pub proof fn law_labels_name_the_interfaces(infos: Seq<InterfaceInfo>, i: int)
    requires
        0 <= i < infos.len(),
    ensures
        choice_labels(infos).len() == choice_values(infos).len() == infos.len() + 1,
        choice_values(infos)[0].len() == 0,
        choice_values(infos)[i + 1] == infos[i].interface@,
        choice_values(infos)[i + 1].is_prefix_of(choice_labels(infos)[i + 1]),
{
    let n = infos[i].interface@;
    let l = choice_labels(infos)[i + 1];
    assert(l == label_of(n, infos[i].parent@, infos[i].driver@));
    assert(l.take(n.len() as int) =~= n);
}

} // verus!
