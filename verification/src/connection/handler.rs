//! The handler of connections: what it does when it begins to listen, when a
//! source joins or leaves, and when a PIN is asked for.

use vstd::prelude::*;
use crate::connection::{generate_pin, is_drawn_pin, FALLBACK_PEER_IP, OUR_IP};
use crate::models::{connection_fault, ConnectionModel, IncomingConnection, Timestamp};

verus! {

/// What the handler asks to be done, in order.
#[derive(Debug)]
pub enum HandlerAction {
    /// Set the address of this interface and start the DHCP server on it.
    SetUpAddressing(String),
    /// Arm this PIN on this interface.
    ArmPin { group_interface: String, pin: String },
    /// Show this PIN.
    ShowPin { pin: String, peer_info: String },
    /// Watch this interface for events.
    StartMonitor(String),
    /// Tell that this source has connected.
    ReportConnection(IncomingConnection),
    /// Tell that the source has gone.
    ReportLoss,
    /// Tell that the connection failed.
    ReportError(String),
}

/// An action as contracts see it.
pub enum HandlerModel {
    SetUpAddressing(Seq<char>),
    ArmPin(Seq<char>, Seq<char>),
    ShowPin(Seq<char>, Seq<char>),
    StartMonitor(Seq<char>),
    ReportConnection(ConnectionModel),
    ReportLoss,
    ReportError(Seq<char>),
}

impl View for HandlerAction {
    type V = HandlerModel;

    open spec fn view(&self) -> HandlerModel {
        match self {
            HandlerAction::SetUpAddressing(i) => HandlerModel::SetUpAddressing(i@),
            HandlerAction::ArmPin { group_interface, pin } => HandlerModel::ArmPin(
                group_interface@,
                pin@,
            ),
            HandlerAction::ShowPin { pin, peer_info } => HandlerModel::ShowPin(pin@, peer_info@),
            HandlerAction::StartMonitor(i) => HandlerModel::StartMonitor(i@),
            HandlerAction::ReportConnection(c) => HandlerModel::ReportConnection(c@),
            HandlerAction::ReportLoss => HandlerModel::ReportLoss,
            HandlerAction::ReportError(m) => HandlerModel::ReportError(m@),
        }
    }
}

/// Actions as contracts see them.
pub open spec fn action_views(v: Seq<HandlerAction>) -> Seq<HandlerModel> {
    Seq::new(v.len(), |i: int| v[i]@)
}

/// The handler of connections.
#[derive(Debug)]
pub struct ConnectionHandler {
    pub running: bool,
    pub active_connection: Option<IncomingConnection>,
    pub current_pin: Option<String>,
    pub group_interface: Option<String>,
    pub ctrl_path: Option<String>,
    pub our_ip: String,
    pub p2p_interface: String,
    pub go_intent: i32,
    pub auto_accept: bool,
    pub connection_timeout: i32,
}

/// The handler as contracts see it: what changes while it works.
pub struct HandlerState {
    pub running: bool,
    pub active: Option<ConnectionModel>,
    pub pin: Option<Seq<char>>,
    pub group: Option<Seq<char>>,
    pub our_ip: Seq<char>,
}

impl View for ConnectionHandler {
    type V = HandlerState;

    open spec fn view(&self) -> HandlerState {
        HandlerState {
            running: self.running,
            active: match self.active_connection {
                Some(c) => Some(c@),
                None => None,
            },
            pin: match self.current_pin {
                Some(p) => Some(p@),
                None => None,
            },
            group: match self.group_interface {
                Some(g) => Some(g@),
                None => None,
            },
            our_ip: self.our_ip@,
        }
    }
}

/// What is shown beside a PIN.
pub open spec fn waiting() -> Seq<char> {
    "Waiting for source..."@
}

/// What arms the present PIN, if there are a PIN and a group.
pub open spec fn arming(s: HandlerState) -> Seq<HandlerModel> {
    match (s.group, s.pin) {
        (Some(g), Some(p)) => seq![HandlerModel::ArmPin(g, p)],
        _ => Seq::empty(),
    }
}

/// The handler with a new PIN.
pub open spec fn with_pin(s: HandlerState, pin: Seq<char>) -> HandlerState {
    HandlerState { pin: Some(pin), ..s }
}

/// What takes a new PIN into use.
pub open spec fn rearming(s: HandlerState, pin: Seq<char>) -> Seq<HandlerModel> {
    arming(with_pin(s, pin)) + seq![HandlerModel::ShowPin(pin, waiting())]
}

/// The handler once it listens on a group with a PIN, and what that takes: the
/// addresses come first, before any source can connect. A handler that listens
/// is left alone.
pub open spec fn listen_step(s: HandlerState, group: Seq<char>, pin: Seq<char>) -> (
    HandlerState,
    Seq<HandlerModel>,
) {
    if s.running {
        (s, Seq::empty())
    } else {
        (
            HandlerState {
                running: true,
                group: Some(group),
                pin: Some(pin),
                our_ip: "192.168.173.1"@,
                ..s
            },
            seq![
                HandlerModel::SetUpAddressing(group),
                HandlerModel::ArmPin(group, pin),
                HandlerModel::ShowPin(pin, waiting()),
                HandlerModel::StartMonitor(group),
            ],
        )
    }
}

/// The connection of a station with the given address, or with the first of the
/// pool where none was found.
pub open spec fn connection_of(
    s: HandlerState,
    mac: Seq<char>,
    ip: Option<Seq<char>>,
    group: Seq<char>,
    now: Timestamp,
) -> ConnectionModel {
    ConnectionModel {
        peer_address: mac,
        peer_ip: match ip {
            Some(t) => t,
            None => "192.168.173.80"@,
        },
        peer_name: "Miracast Source"@,
        group_interface: group,
        our_ip: s.our_ip,
        connected_at: now,
        go_role: true,
    }
}

/// The handler once a station has joined, and what is told: the connection if
/// it is valid, and otherwise what is wrong with it.
pub open spec fn join_step(
    s: HandlerState,
    mac: Seq<char>,
    ip: Option<Seq<char>>,
    group: Seq<char>,
    now: Timestamp,
) -> (HandlerState, Seq<HandlerModel>) {
    let c = connection_of(s, mac, ip, group, now);
    match connection_fault(c, now) {
        None => (
            HandlerState { active: Some(c), ..s },
            seq![HandlerModel::ReportConnection(c)],
        ),
        Some(m) => (s, seq![HandlerModel::ReportError(m)]),
    }
}

/// The handler once a station has left, and what follows where it was
/// connected: its loss is told and a new PIN is taken into use.
pub open spec fn leave_step(s: HandlerState, pin: Seq<char>) -> (HandlerState, Seq<HandlerModel>) {
    match s.active {
        None => (s, Seq::empty()),
        Some(_) => {
            let t = HandlerState { active: None, pin: Some(pin), ..s };
            (t, seq![HandlerModel::ReportLoss] + rearming(t, pin))
        },
    }
}

impl ConnectionHandler {
    /// A handler that does not listen yet.
    pub fn new(
        p2p_interface: &str,
        go_intent: i32,
        auto_accept: bool,
        connection_timeout: i32,
    ) -> (r: ConnectionHandler)
        ensures
            r@ == (HandlerState {
                running: false,
                active: None,
                pin: None,
                group: None,
                our_ip: "192.168.173.1"@,
            }),
            r.ctrl_path is None,
            r.p2p_interface@ == p2p_interface@,
            r.go_intent == go_intent,
            r.auto_accept == auto_accept,
            r.connection_timeout == connection_timeout,
    {
        ConnectionHandler {
            running: false,
            active_connection: None,
            current_pin: None,
            group_interface: None,
            ctrl_path: None,
            our_ip: OUR_IP.to_owned(),
            p2p_interface: p2p_interface.to_owned(),
            go_intent,
            auto_accept,
            connection_timeout,
        }
    }

    /// Whether the handler listens.
    pub fn is_listening(&self) -> (r: bool)
        ensures
            r == self@.running,
    {
        self.running
    }

    /// The source that is connected.
    pub fn active_connection(&self) -> (r: Option<IncomingConnection>)
        ensures
            match r {
                Some(c) => self@.active == Some(c@),
                None => self@.active is None,
            },
    {
        match &self.active_connection {
            Some(c) => Some(c.copy()),
            None => None,
        }
    }

    /// Sets where the supplicant listens.
    pub fn set_ctrl_path(&mut self, ctrl_path: Option<String>)
        ensures
            final(self)@ == old(self)@,
            final(self).same_setup(ConnectionHandler { ctrl_path, ..*old(self) }),
    {
        self.ctrl_path = ctrl_path;
    }

    /// Sets the interface of Wi-Fi Direct.
    pub fn set_p2p_interface(&mut self, iface: &str)
        ensures
            final(self)@ == old(self)@,
            final(self).p2p_interface@ == iface@,
            final(self).same_setup(
                ConnectionHandler { p2p_interface: final(self).p2p_interface, ..*old(self) },
            ),
    {
        self.p2p_interface = iface.to_owned();
    }

    /// Whether what the handler was made with, and where its supplicant listens,
    /// is the same.
    pub open spec fn same_setup(&self, other: ConnectionHandler) -> bool {
        &&& self.ctrl_path == other.ctrl_path
        &&& self.p2p_interface == other.p2p_interface
        &&& self.go_intent == other.go_intent
        &&& self.auto_accept == other.auto_accept
        &&& self.connection_timeout == other.connection_timeout
    }

    fn arm_action(&self) -> (r: Option<HandlerAction>)
        ensures
            match r {
                Some(a) => arming(self@) == seq![a@],
                None => arming(self@) == Seq::<HandlerModel>::empty(),
            },
    {
        match (&self.group_interface, &self.current_pin) {
            (Some(g), Some(p)) => Some(
                HandlerAction::ArmPin { group_interface: g.clone(), pin: p.clone() },
            ),
            _ => None,
        }
    }

    /// Begins to listen with the given PIN.
    pub fn start_listening_with(&mut self, group_interface: &str, pin: &str) -> (r: Vec<
        HandlerAction,
    >)
        ensures
            final(self).same_setup(*old(self)),
            (final(self)@, action_views(r@)) == listen_step(
                old(self)@,
                group_interface@,
                pin@,
            ),
    {
        let mut out: Vec<HandlerAction> = Vec::new();
        if self.running {
            assert(action_views(out@) =~= Seq::<HandlerModel>::empty());
            return out;
        }
        self.group_interface = Some(group_interface.to_owned());
        self.running = true;
        self.our_ip = OUR_IP.to_owned();
        self.current_pin = Some(pin.to_owned());
        out.push(HandlerAction::SetUpAddressing(group_interface.to_owned()));
        out.push(
            HandlerAction::ArmPin {
                group_interface: group_interface.to_owned(),
                pin: pin.to_owned(),
            },
        );
        out.push(
            HandlerAction::ShowPin {
                pin: pin.to_owned(),
                peer_info: "Waiting for source...".to_owned(),
            },
        );
        out.push(HandlerAction::StartMonitor(group_interface.to_owned()));
        proof {
            let want = listen_step(old(self)@, group_interface@, pin@);
            assert(action_views(out@) =~= want.1);
        }
        out
    }

    /// Begins to listen with a fresh PIN.
    pub fn start_listening(&mut self, group_interface: &str) -> (r: Vec<HandlerAction>)
        ensures
            final(self).same_setup(*old(self)),
            exists|pin: Seq<char>|
                is_drawn_pin(pin) && (final(self)@, action_views(r@)) == #[trigger] listen_step(
                    old(self)@,
                    group_interface@,
                    pin,
                ),
    {
        let pin: String = generate_pin();
        let r: Vec<HandlerAction> = self.start_listening_with(group_interface, pin.as_str());
        assert(is_drawn_pin(pin@) && (self@, action_views(r@)) == listen_step(
            old(self)@,
            group_interface@,
            pin@,
        ));
        r
    }

    /// Ceases to listen.
    pub fn stop_listening(&mut self)
        ensures
            final(self).same_setup(*old(self)),
            final(self)@ == (HandlerState { running: false, ..old(self)@ }),
    {
        self.running = false;
    }

    /// Forgets the source that is connected.
    pub fn disconnect_peer(&mut self)
        ensures
            final(self).same_setup(*old(self)),
            final(self)@ == (HandlerState { active: None, ..old(self)@ }),
    {
        self.active_connection = None;
    }

    /// Takes the given PIN into use for the next connection.
    pub fn rearm_with(&mut self, pin: &str) -> (r: Vec<HandlerAction>)
        ensures
            final(self).same_setup(*old(self)),
            final(self)@ == with_pin(old(self)@, pin@),
            action_views(r@) == rearming(old(self)@, pin@),
    {
        self.current_pin = Some(pin.to_owned());
        let mut out: Vec<HandlerAction> = Vec::new();
        if let Some(a) = self.arm_action() {
            out.push(a);
        }
        out.push(
            HandlerAction::ShowPin {
                pin: pin.to_owned(),
                peer_info: "Waiting for source...".to_owned(),
            },
        );
        assert(self@ == with_pin(old(self)@, pin@));
        assert(action_views(out@) =~= rearming(old(self)@, pin@));
        out
    }

    /// Takes a fresh PIN into use for the next connection.
    pub fn rearm_wps_pin(&mut self) -> (r: Vec<HandlerAction>)
        ensures
            final(self).same_setup(*old(self)),
            exists|pin: Seq<char>|
                is_drawn_pin(pin) && final(self)@ == with_pin(old(self)@, pin) && action_views(r@)
                    == #[trigger] rearming(old(self)@, pin),
    {
        let pin: String = generate_pin();
        let r: Vec<HandlerAction> = self.rearm_with(pin.as_str());
        assert(is_drawn_pin(pin@) && action_views(r@) == rearming(old(self)@, pin@));
        r
    }

    /// A source asks for a PIN: the present one is armed again.
    pub fn pin_needed(&self) -> (r: Vec<HandlerAction>)
        ensures
            action_views(r@) == arming(self@),
    {
        let mut out: Vec<HandlerAction> = Vec::new();
        if let Some(a) = self.arm_action() {
            out.push(a);
        }
        assert(action_views(out@) =~= arming(self@));
        out
    }

    /// A station has joined, at the given time and with the address that was
    /// found for it.
    pub fn station_connected_at(
        &mut self,
        mac: &str,
        ip: Option<&str>,
        group: &str,
        now: Timestamp,
    ) -> (r: Vec<HandlerAction>)
        requires
            now.wf(),
        ensures
            final(self).same_setup(*old(self)),
            (final(self)@, action_views(r@)) == join_step(
                old(self)@,
                mac@,
                crate::utils::maybe_text(ip),
                group@,
                now,
            ),
    {
        let peer_ip: &str = match ip {
            Some(t) => t,
            None => FALLBACK_PEER_IP,
        };
        let mut out: Vec<HandlerAction> = Vec::new();
        match IncomingConnection::try_new_at(
            mac,
            peer_ip,
            "Miracast Source",
            group,
            self.our_ip.as_str(),
            now,
            true,
            &now,
        ) {
            Ok(c) => {
                self.active_connection = Some(c.copy());
                out.push(HandlerAction::ReportConnection(c));
            },
            Err(e) => {
                out.push(HandlerAction::ReportError(e.to_string()));
            },
        }
        proof {
            let want = join_step(old(self)@, mac@, crate::utils::maybe_text(ip), group@, now);
            assert(action_views(out@) =~= want.1);
            assert(self@ == want.0);
        }
        out
    }

    /// A station has left; the given PIN is for the next one.
    pub fn station_disconnected_with(&mut self, pin: &str) -> (r: Vec<HandlerAction>)
        ensures
            final(self).same_setup(*old(self)),
            (final(self)@, action_views(r@)) == leave_step(old(self)@, pin@),
    {
        let mut out: Vec<HandlerAction> = Vec::new();
        if self.active_connection.is_none() {
            assert(action_views(out@) =~= Seq::<HandlerModel>::empty());
            return out;
        }
        self.active_connection = None;
        out.push(HandlerAction::ReportLoss);
        let ghost between = self@;
        let mut more: Vec<HandlerAction> = self.rearm_with(pin);
        let ghost second = more@;
        out.append(&mut more);
        proof {
            let want = leave_step(old(self)@, pin@);
            assert(self@ == want.0);
            assert(rearming(between, pin@) == rearming(want.0, pin@));
            assert(action_views(out@) =~= seq![HandlerModel::ReportLoss] + action_views(second));
        }
        out
    }

    /// A station has left; a fresh PIN is for the next one.
    pub fn station_disconnected(&mut self) -> (r: Vec<HandlerAction>)
        ensures
            final(self).same_setup(*old(self)),
            exists|pin: Seq<char>|
                is_drawn_pin(pin) && (final(self)@, action_views(r@)) == #[trigger] leave_step(
                    old(self)@,
                    pin,
                ),
    {
        let pin: String = generate_pin();
        let r: Vec<HandlerAction> = self.station_disconnected_with(pin.as_str());
        assert(is_drawn_pin(pin@) && (self@, action_views(r@)) == leave_step(old(self)@, pin@));
        r
    }
}

/// A loss is told once: a second station that leaves changes nothing, and the
/// handler stays ready for the next source with its PIN armed.
pub proof fn law_loss_is_told_once(s: HandlerState, first: Seq<char>, second: Seq<char>)
    requires
        s.active is Some,
        s.group is Some,
    ensures
        leave_step(leave_step(s, first).0, second) == (
            leave_step(s, first).0,
            Seq::<HandlerModel>::empty(),
        ),
        leave_step(s, first).1 == seq![
            HandlerModel::ReportLoss,
            HandlerModel::ArmPin(s.group->0, first),
            HandlerModel::ShowPin(first, waiting()),
        ],
{
    assert(leave_step(s, first).1 =~= seq![
        HandlerModel::ReportLoss,
        HandlerModel::ArmPin(s.group->0, first),
        HandlerModel::ShowPin(first, waiting()),
    ]);
}

} // verus!
