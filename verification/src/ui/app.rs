//! The application with a display: which adapter it takes for itself, what it
//! does on an event, and the order in which it ends.

use vstd::prelude::*;
use crate::events::Event;
use crate::text;
use crate::text::{contains, strs};
use crate::utils::{maybe_text, parent_name, parent_of};

verus! {

/// The adapter that is asked for by the name of a Wi-Fi Direct device or its
/// own.
pub open spec fn asked_adapter(name: Seq<char>) -> Seq<char> {
    match parent_of(name) {
        Some(p) => p,
        None => name,
    }
}

/// The first adapter that is not connected.
pub open spec fn first_idle(adapters: Seq<Seq<char>>, connected: Seq<bool>) -> Option<Seq<char>>
    decreases adapters.len(),
{
    if adapters.len() == 0 || connected.len() == 0 {
        None
    } else if !connected[0] {
        Some(adapters[0])
    } else {
        first_idle(adapters.skip(1), connected.skip(1))
    }
}

/// Picks the adapter for a supplicant of its own: the one that was asked for,
/// or else the first that is not connected.
pub fn choose_adapter(asked: Option<&str>, adapters: &Vec<String>, connected: &Vec<bool>) -> (r:
    Option<String>)
    requires
        connected@.len() == adapters@.len(),
    ensures
        match asked {
            Some(a) => r matches Some(n) && n@ == asked_adapter(a@),
            None => match r {
                Some(n) => first_idle(strs(adapters@), connected@) == Some(n@),
                None => first_idle(strs(adapters@), connected@) is None,
            },
        },
{
    match asked {
        Some(a) => {
            let all: Vec<char> = text::chars_of(a);
            match parent_name(all.as_slice()) {
                Some(p) => Some(text::string_of(p.as_slice())),
                None => Some(a.to_owned()),
            }
        },
        None => {
            let ghost names = strs(adapters@);
            let mut i: usize = 0;
            assert(names.skip(0) =~= names);
            assert(connected@.skip(0) =~= connected@);
            while i < adapters.len()
                invariant
                    i <= adapters@.len(),
                    connected@.len() == adapters@.len(),
                    names == strs(adapters@),
                    asked is None,
                    first_idle(names, connected@) == first_idle(
                        names.skip(i as int),
                        connected@.skip(i as int),
                    ),
                decreases adapters.len() - i,
            {
                assert(names.skip(i as int)[0] == adapters@[i as int]@);
                assert(connected@.skip(i as int)[0] == connected@[i as int]);
                assert(names.skip(i as int).skip(1) =~= names.skip(i + 1));
                assert(connected@.skip(i as int).skip(1) =~= connected@.skip(i + 1));
                if !connected[i] {
                    return Some(adapters[i].clone());
                }
                i += 1;
            }
            None
        },
    }
}

/// Whether an adapter carries a connection. One that cannot be asked is taken
/// to be idle.
pub fn on_wifi(status: Option<&str>) -> (r: bool)
    ensures
        r == (status matches Some(s) && contains(s@, "wpa_state=COMPLETED"@)),
{
    match status {
        Some(s) => text::holds(text::chars_of(s).as_slice(), "wpa_state=COMPLETED"),
        None => false,
    }
}

/// How things stand when an event comes.
#[derive(Debug)]
pub struct AppContext {
    pub device_name: String,
    pub receiving: bool,
    pub has_source: bool,
    pub has_handler: bool,
    pub fullscreen: bool,
    pub fullscreen_on_stream: bool,
    pub shutting_down: bool,
}

/// What the application does on an event, in order.
#[derive(Debug)]
pub enum AppAction {
    /// Write this into the title.
    SetStatus(String),
    /// Show that a source is waited for.
    ShowIdle,
    /// Hide the PIN.
    HidePin,
    /// Show this PIN.
    ShowPin(String),
    /// Show that this source has connected.
    ShowConnected(String),
    /// Show the picture.
    ShowReceiving,
    /// Show new numbers.
    ShowStats,
    /// Listen for sources on this group.
    StartListening(String),
    /// Receive from the source that has connected.
    StartReceiving,
    /// Stop receiving.
    StopReceiving,
    /// Record the session with the numbers that came with the event.
    RecordSession,
    /// Record the session with the numbers that stopping brought.
    RecordStopped,
    /// Read the list of sessions again.
    RefreshSessions,
    /// Take the whole screen.
    Fullscreen,
    /// Leave the whole screen.
    Unfullscreen,
    /// Take a new PIN into use.
    RearmPin,
}

/// An action as contracts see it.
pub enum AppModel {
    SetStatus(Seq<char>),
    ShowIdle,
    HidePin,
    ShowPin(Seq<char>),
    ShowConnected(Seq<char>),
    ShowReceiving,
    ShowStats,
    StartListening(Seq<char>),
    StartReceiving,
    StopReceiving,
    RecordSession,
    RecordStopped,
    RefreshSessions,
    Fullscreen,
    Unfullscreen,
    RearmPin,
}

impl View for AppAction {
    type V = AppModel;

    open spec fn view(&self) -> AppModel {
        match self {
            AppAction::SetStatus(t) => AppModel::SetStatus(t@),
            AppAction::ShowIdle => AppModel::ShowIdle,
            AppAction::HidePin => AppModel::HidePin,
            AppAction::ShowPin(p) => AppModel::ShowPin(p@),
            AppAction::ShowConnected(n) => AppModel::ShowConnected(n@),
            AppAction::ShowReceiving => AppModel::ShowReceiving,
            AppAction::ShowStats => AppModel::ShowStats,
            AppAction::StartListening(g) => AppModel::StartListening(g@),
            AppAction::StartReceiving => AppModel::StartReceiving,
            AppAction::StopReceiving => AppModel::StopReceiving,
            AppAction::RecordSession => AppModel::RecordSession,
            AppAction::RecordStopped => AppModel::RecordStopped,
            AppAction::RefreshSessions => AppModel::RefreshSessions,
            AppAction::Fullscreen => AppModel::Fullscreen,
            AppAction::Unfullscreen => AppModel::Unfullscreen,
            AppAction::RearmPin => AppModel::RearmPin,
        }
    }
}

/// Actions as contracts see them.
pub open spec fn app_views(v: Seq<AppAction>) -> Seq<AppModel> {
    Seq::new(v.len(), |i: int| v[i]@)
}

/// One action, or none.
pub open spec fn action_if(wanted: bool, a: AppModel) -> Seq<AppModel> {
    if wanted {
        seq![a]
    } else {
        Seq::empty()
    }
}

/// The title of an application that can be found.
pub open spec fn advertising_text(name: Seq<char>) -> Seq<char> {
    "Advertising as '"@ + name + "'"@
}

/// What makes the application ready for the next source: a new PIN, unless it
/// ends or does not listen.
pub open spec fn ready_again(c: AppContext) -> Seq<AppModel> {
    action_if(!c.shutting_down && c.has_handler, AppModel::RearmPin)
}

/// What the application does on an event.
pub open spec fn reaction(e: Event, c: AppContext) -> Seq<AppModel> {
    match e {
        Event::AdvertisingStarted { group_interface } => seq![
            AppModel::SetStatus(advertising_text(c.device_name@)),
            AppModel::ShowIdle,
        ] + action_if(
            group_interface@.len() > 0,
            AppModel::StartListening(group_interface@),
        ),
        Event::AdvertisingStopped => seq![AppModel::SetStatus("Advertising stopped"@)],
        Event::AdvertisingError(m) => seq![AppModel::SetStatus("Error: "@ + m@)],
        Event::ConnectionReceived(conn) => seq![
            AppModel::SetStatus("Connected: "@ + conn.peer_name@),
            AppModel::HidePin,
            AppModel::ShowConnected(conn.peer_name@),
        ] + action_if(!c.receiving, AppModel::StartReceiving),
        Event::ConnectionLost => seq![
            AppModel::SetStatus("Connection lost"@),
            AppModel::ShowIdle,
        ],
        Event::ConnectionError(m) => seq![
            AppModel::SetStatus(advertising_text(c.device_name@)),
            AppModel::ShowIdle,
        ] + ready_again(c),
        Event::PinDisplay { pin, peer_info } => seq![
            AppModel::SetStatus("PIN: "@ + pin@ + " — Waiting for source to connect"@),
            AppModel::ShowPin(pin@),
        ],
        Event::StreamStarted => seq![
            AppModel::SetStatus("Receiving stream"@),
            AppModel::ShowReceiving,
        ] + action_if(c.fullscreen_on_stream, AppModel::Fullscreen),
        Event::StreamStopped(stats) => seq![AppModel::SetStatus("Stream ended"@)] + action_if(
            c.has_source,
            AppModel::RecordSession,
        ) + seq![AppModel::RefreshSessions, AppModel::ShowIdle] + action_if(
            c.fullscreen,
            AppModel::Unfullscreen,
        ) + ready_again(c),
        Event::StreamError(m) => seq![AppModel::SetStatus("Stream error"@)] + action_if(
            c.has_source,
            AppModel::StopReceiving,
        ) + action_if(c.has_source, AppModel::RecordStopped) + action_if(
            c.has_source,
            AppModel::RefreshSessions,
        ) + seq![AppModel::ShowIdle] + action_if(c.fullscreen, AppModel::Unfullscreen)
            + ready_again(c),
        Event::StatsUpdated(stats) => seq![AppModel::ShowStats],
        Event::ResolutionChanged { width, height } => Seq::empty(),
    }
}

fn push_action(v: &mut Vec<AppAction>, a: AppAction)
    ensures
        app_views(final(v)@) == app_views(old(v)@).push(a@),
{
    let ghost m = a@;
    v.push(a);
    assert(app_views(v@) =~= app_views(old(v)@).push(m));
}

fn push_action_if(v: &mut Vec<AppAction>, wanted: bool, a: AppAction)
    ensures
        app_views(final(v)@) == app_views(old(v)@) + action_if(wanted, a@),
{
    if wanted {
        push_action(v, a);
    }
    assert(app_views(v@) =~= app_views(old(v)@) + action_if(wanted, a@));
}

fn advertising_status(name: &str) -> (r: String)
    ensures
        r@ == advertising_text(name@),
{
    let mut t: String = text::joined("Advertising as '".to_owned(), name);
    t.append("'");
    t
}

/// Decides what the application does on an event.
pub fn handle_event(e: &Event, c: &AppContext) -> (r: Vec<AppAction>)
    ensures
        app_views(r@) == reaction(*e, *c),
{
    let mut v: Vec<AppAction> = Vec::new();
    assert(app_views(v@) =~= Seq::<AppModel>::empty());
    match e {
        Event::AdvertisingStarted { group_interface } => {
            push_action(&mut v, AppAction::SetStatus(advertising_status(c.device_name.as_str())));
            push_action(&mut v, AppAction::ShowIdle);
            push_action_if(
                &mut v,
                !group_interface.as_str().is_empty(),
                AppAction::StartListening(group_interface.clone()),
            );
        },
        Event::AdvertisingStopped => {
            push_action(&mut v, AppAction::SetStatus("Advertising stopped".to_owned()));
        },
        Event::AdvertisingError(m) => {
            push_action(
                &mut v,
                AppAction::SetStatus(text::joined("Error: ".to_owned(), m.as_str())),
            );
        },
        Event::ConnectionReceived(conn) => {
            push_action(
                &mut v,
                AppAction::SetStatus(
                    text::joined("Connected: ".to_owned(), conn.peer_name.as_str()),
                ),
            );
            push_action(&mut v, AppAction::HidePin);
            push_action(&mut v, AppAction::ShowConnected(conn.peer_name.clone()));
            push_action_if(&mut v, !c.receiving, AppAction::StartReceiving);
        },
        Event::ConnectionLost => {
            push_action(&mut v, AppAction::SetStatus("Connection lost".to_owned()));
            push_action(&mut v, AppAction::ShowIdle);
        },
        Event::ConnectionError(_) => {
            push_action(&mut v, AppAction::SetStatus(advertising_status(c.device_name.as_str())));
            push_action(&mut v, AppAction::ShowIdle);
            push_action_if(&mut v, !c.shutting_down && c.has_handler, AppAction::RearmPin);
        },
        Event::PinDisplay { pin, peer_info: _ } => {
            let mut t: String = text::joined("PIN: ".to_owned(), pin.as_str());
            t.append(" — Waiting for source to connect");
            push_action(&mut v, AppAction::SetStatus(t));
            push_action(&mut v, AppAction::ShowPin(pin.clone()));
        },
        Event::StreamStarted => {
            push_action(&mut v, AppAction::SetStatus("Receiving stream".to_owned()));
            push_action(&mut v, AppAction::ShowReceiving);
            push_action_if(&mut v, c.fullscreen_on_stream, AppAction::Fullscreen);
        },
        Event::StreamStopped(_) => {
            push_action(&mut v, AppAction::SetStatus("Stream ended".to_owned()));
            push_action_if(&mut v, c.has_source, AppAction::RecordSession);
            push_action(&mut v, AppAction::RefreshSessions);
            push_action(&mut v, AppAction::ShowIdle);
            push_action_if(&mut v, c.fullscreen, AppAction::Unfullscreen);
            push_action_if(&mut v, !c.shutting_down && c.has_handler, AppAction::RearmPin);
        },
        Event::StreamError(_) => {
            push_action(&mut v, AppAction::SetStatus("Stream error".to_owned()));
            push_action_if(&mut v, c.has_source, AppAction::StopReceiving);
            push_action_if(&mut v, c.has_source, AppAction::RecordStopped);
            push_action_if(&mut v, c.has_source, AppAction::RefreshSessions);
            push_action(&mut v, AppAction::ShowIdle);
            push_action_if(&mut v, c.fullscreen, AppAction::Unfullscreen);
            push_action_if(&mut v, !c.shutting_down && c.has_handler, AppAction::RearmPin);
        },
        Event::StatsUpdated(_) => {
            push_action(&mut v, AppAction::ShowStats);
        },
        Event::ResolutionChanged { width: _, height: _ } => {},
    }
    assert(app_views(v@) =~= reaction(*e, *c));
    v
}

/// A step of the end or of a change of the interface.
#[derive(Debug, Clone, Copy, PartialEq, Eq, Structural)]
pub enum ShellStep {
    StopReceiving,
    RecordStopped,
    DisconnectPeer,
    StopListening,
    StopAdvertising,
    StopSupplicant,
    DropHandler,
    SetInterface,
    StoreInterface,
    StartAdvertising,
}

/// One step, or none.
pub open spec fn shell_if(wanted: bool, s: ShellStep) -> Seq<ShellStep> {
    if wanted {
        seq![s]
    } else {
        Seq::empty()
    }
}

/// How the application ends: first the stream, whose session is recorded, then
/// the connection, then the group, and last the supplicant. The end comes once.
pub open spec fn ending(
    already: bool,
    receiving: bool,
    has_source: bool,
    has_handler: bool,
    has_supplicant: bool,
) -> Seq<ShellStep> {
    if already {
        Seq::empty()
    } else {
        shell_if(receiving, ShellStep::StopReceiving) + shell_if(
            receiving && has_source,
            ShellStep::RecordStopped,
        ) + shell_if(has_handler, ShellStep::DisconnectPeer) + shell_if(
            has_handler,
            ShellStep::StopListening,
        ) + seq![ShellStep::StopAdvertising] + shell_if(
            has_supplicant,
            ShellStep::StopSupplicant,
        )
    }
}

fn push_step_if(v: &mut Vec<ShellStep>, wanted: bool, s: ShellStep)
    ensures
        final(v)@ == old(v)@ + shell_if(wanted, s),
{
    if wanted {
        v.push(s);
    }
    assert(v@ =~= old(v)@ + shell_if(wanted, s));
}

/// Lists the steps by which the application ends.
pub fn graceful_shutdown(
    already: bool,
    receiving: bool,
    has_source: bool,
    has_handler: bool,
    has_supplicant: bool,
) -> (r: Vec<ShellStep>)
    ensures
        r@ == ending(already, receiving, has_source, has_handler, has_supplicant),
{
    let mut v: Vec<ShellStep> = Vec::new();
    if already {
        assert(v@ =~= Seq::<ShellStep>::empty());
        return v;
    }
    push_step_if(&mut v, receiving, ShellStep::StopReceiving);
    push_step_if(&mut v, receiving && has_source, ShellStep::RecordStopped);
    push_step_if(&mut v, has_handler, ShellStep::DisconnectPeer);
    push_step_if(&mut v, has_handler, ShellStep::StopListening);
    push_step_if(&mut v, true, ShellStep::StopAdvertising);
    push_step_if(&mut v, has_supplicant, ShellStep::StopSupplicant);
    assert(v@ =~= ending(already, receiving, has_source, has_handler, has_supplicant));
    v
}

/// The rank of a step in the order of the end.
pub open spec fn rank(s: ShellStep) -> int {
    match s {
        ShellStep::StopReceiving => 0,
        ShellStep::RecordStopped => 1,
        ShellStep::DisconnectPeer => 2,
        ShellStep::StopListening => 3,
        ShellStep::StopAdvertising => 4,
        ShellStep::StopSupplicant => 5,
        _ => 6,
    }
}

/// The steps of the end always come in the same order, receiver, connection,
/// group, supplicant, each at most once, and the group is always left.
pub proof fn law_end_keeps_its_order(
    receiving: bool,
    has_source: bool,
    has_handler: bool,
    has_supplicant: bool,
)
    ensures
        forall|i: int, j: int|
            0 <= i < j < ending(false, receiving, has_source, has_handler, has_supplicant).len()
                ==> rank(
                #[trigger] ending(false, receiving, has_source, has_handler, has_supplicant)[i],
            ) < rank(
                #[trigger] ending(false, receiving, has_source, has_handler, has_supplicant)[j],
            ),
        ending(false, receiving, has_source, has_handler, has_supplicant).contains(
            ShellStep::StopAdvertising,
        ),
{
    let e = ending(false, receiving, has_source, has_handler, has_supplicant);
    let a = shell_if(receiving, ShellStep::StopReceiving);
    let b = shell_if(receiving && has_source, ShellStep::RecordStopped);
    let c = shell_if(has_handler, ShellStep::DisconnectPeer);
    let d = shell_if(has_handler, ShellStep::StopListening);
    let k = a.len() + b.len() + c.len() + d.len();
    assert(e[k as int] == ShellStep::StopAdvertising);
}

/// How the interface is changed: the present group is left and no source
/// listened for, then the new interface is set and stored and the sink
/// announced on it. An empty name changes nothing.
pub open spec fn switching(name: Seq<char>, advertising: bool, listening: bool) -> Seq<ShellStep> {
    if name.len() == 0 {
        Seq::empty()
    } else {
        shell_if(advertising, ShellStep::StopAdvertising) + shell_if(
            listening,
            ShellStep::StopListening,
        ) + seq![
            ShellStep::DropHandler,
            ShellStep::SetInterface,
            ShellStep::StoreInterface,
            ShellStep::StartAdvertising,
        ]
    }
}

/// Lists the steps by which the interface is changed.
pub fn switch_interface(name: &str, advertising: bool, listening: bool) -> (r: Vec<ShellStep>)
    ensures
        r@ == switching(name@, advertising, listening),
{
    let mut v: Vec<ShellStep> = Vec::new();
    if name.is_empty() {
        assert(v@ =~= Seq::<ShellStep>::empty());
        return v;
    }
    push_step_if(&mut v, advertising, ShellStep::StopAdvertising);
    push_step_if(&mut v, listening, ShellStep::StopListening);
    v.push(ShellStep::DropHandler);
    v.push(ShellStep::SetInterface);
    v.push(ShellStep::StoreInterface);
    v.push(ShellStep::StartAdvertising);
    assert(v@ =~= switching(name@, advertising, listening));
    v
}

/// The interface that the group is brought up on: that of a supplicant of its
/// own, or else the configured one.
pub fn effective_interface(own: Option<&str>, configured: Option<&str>) -> (r: Option<String>)
    ensures
        match r {
            Some(t) => Some(t@),
            None => None,
        } == match maybe_text(own) {
            Some(t) => Some(t),
            None => maybe_text(configured),
        },
{
    match own {
        Some(t) => Some(t.to_owned()),
        None => match configured {
            Some(t) => Some(t.to_owned()),
            None => None,
        },
    }
}

} // verus!
