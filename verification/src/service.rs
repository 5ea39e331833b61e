//! The service without a display: its unit under systemd, and the decisions of
//! its main loop.

pub mod laws;

use vstd::prelude::*;
use crate::config::{lookup, ServerConfig};
use crate::json::{bool_of, int_of, text_of, JsonModel};
use crate::text;
use crate::text::trim;

verus! {

/// The name of the unit.
pub const SERVICE_NAME: &'static str = "ubuntu-miracast-server.service";

/// The unit.
pub const SERVICE_TEMPLATE: &'static str = "[Unit]\nDescription=Ubuntu Miracast Server (Wi-Fi Display Sink)\nAfter=network-online.target\nWants=network-online.target\n\n[Service]\nType=simple\nExecStart=/usr/bin/ubuntu-miracast-server --service\nRestart=on-failure\nRestartSec=5\nEnvironment=DISPLAY=:0\n\n[Install]\nWantedBy=default.target\n";

/// Why the unit could not be managed.
#[derive(Debug, Clone)]
pub struct ServiceError(pub String);

impl ServiceError {
    /// The error in words.
    pub fn to_string(&self) -> (r: String)
        ensures
            r@ == self.0@,
    {
        self.0.clone()
    }
}

/// A step in the management of the unit.
#[derive(Debug, Clone, Copy, PartialEq, Eq, Structural)]
pub enum ServiceAction {
    /// Make the directory of the unit.
    MakeDirectory,
    /// Write the unit.
    WriteUnit,
    /// Remove the unit.
    RemoveUnit,
    /// Have systemd read its units again.
    Reload,
    /// Have systemd read its units again; a failure does not matter.
    TryReload,
    Enable,
    Disable,
    Start,
    Stop,
}

/// The call that a step makes to systemd.
pub open spec fn bus_method(a: ServiceAction) -> Option<Seq<char>> {
    match a {
        ServiceAction::Reload => Some("Reload"@),
        ServiceAction::TryReload => Some("Reload"@),
        ServiceAction::Enable => Some("EnableUnitFiles"@),
        ServiceAction::Disable => Some("DisableUnitFiles"@),
        ServiceAction::Start => Some("StartUnit"@),
        ServiceAction::Stop => Some("StopUnit"@),
        _ => None,
    }
}

/// Names the call that a step makes to systemd.
pub fn method_of(a: ServiceAction) -> (r: Option<&'static str>)
    ensures
        match r {
            Some(m) => bus_method(a) == Some(m@),
            None => bus_method(a) is None,
        },
{
    match a {
        ServiceAction::Reload => Some("Reload"),
        ServiceAction::TryReload => Some("Reload"),
        ServiceAction::Enable => Some("EnableUnitFiles"),
        ServiceAction::Disable => Some("DisableUnitFiles"),
        ServiceAction::Start => Some("StartUnit"),
        ServiceAction::Stop => Some("StopUnit"),
        _ => None,
    }
}

/// How the error of a step begins.
pub open spec fn failure_text(a: ServiceAction) -> Seq<char> {
    match a {
        ServiceAction::MakeDirectory => "Failed to create service dir: "@,
        ServiceAction::WriteUnit => "Failed to write service file: "@,
        ServiceAction::RemoveUnit => "Failed to remove service file: "@,
        ServiceAction::Reload => "systemctl daemon-reload failed: "@,
        ServiceAction::TryReload => "systemctl daemon-reload failed: "@,
        ServiceAction::Enable => "systemctl enable failed: "@,
        ServiceAction::Disable => "systemctl disable failed: "@,
        ServiceAction::Start => "systemctl start failed: "@,
        ServiceAction::Stop => "systemctl stop failed: "@,
    }
}

/// The error of a step.
pub fn failure(a: ServiceAction, reason: &str) -> (r: ServiceError)
    ensures
        r.0@ == failure_text(a) + reason@,
{
    let head: &str = match a {
        ServiceAction::MakeDirectory => "Failed to create service dir: ",
        ServiceAction::WriteUnit => "Failed to write service file: ",
        ServiceAction::RemoveUnit => "Failed to remove service file: ",
        ServiceAction::Reload => "systemctl daemon-reload failed: ",
        ServiceAction::TryReload => "systemctl daemon-reload failed: ",
        ServiceAction::Enable => "systemctl enable failed: ",
        ServiceAction::Disable => "systemctl disable failed: ",
        ServiceAction::Start => "systemctl start failed: ",
        ServiceAction::Stop => "systemctl stop failed: ",
    };
    ServiceError(text::joined(head.to_owned(), reason))
}

/// The word for a step that systemd takes.
pub open spec fn verb(a: ServiceAction) -> Seq<char> {
    match a {
        ServiceAction::Enable => "enable"@,
        ServiceAction::Disable => "disable"@,
        ServiceAction::Start => "start"@,
        ServiceAction::Stop => "stop"@,
        _ => "daemon-reload"@,
    }
}

/// The error of a step for which systemd cannot be reached.
pub fn unreachable_manager(a: ServiceAction, reason: &str) -> (r: ServiceError)
    ensures
        r.0@ == "Failed to "@ + verb(a) + " service: "@ + reason@,
{
    let word: &str = match a {
        ServiceAction::Enable => "enable",
        ServiceAction::Disable => "disable",
        ServiceAction::Start => "start",
        ServiceAction::Stop => "stop",
        _ => "daemon-reload",
    };
    let mut m: String = text::joined("Failed to ".to_owned(), word);
    m.append(" service: ");
    m.append(reason);
    ServiceError(m)
}

/// The unit as it was found: whether its file is there, and what systemd says
/// of it where it could be asked.
#[derive(Debug)]
pub struct ServerServiceManager {
    pub installed: bool,
    pub unit_file_state: Option<String>,
    pub active_state: Option<String>,
}

/// Whether an answer is the given word.
pub open spec fn says(answer: Option<String>, word: Seq<char>) -> bool {
    answer matches Some(t) && trim(t@) == word
}

fn answers(answer: &Option<String>, word: &str) -> (r: bool)
    ensures
        r == says(*answer, word@),
{
    match answer {
        Some(t) => {
            let all: Vec<char> = text::chars_of(t.as_str());
            text::is_text(text::trimmed(all.as_slice()), word)
        },
        None => false,
    }
}

/// The steps of an installation.
pub open spec fn install_steps() -> Seq<ServiceAction> {
    seq![ServiceAction::MakeDirectory, ServiceAction::WriteUnit, ServiceAction::Reload]
}

/// The steps that come before one for which the unit has to be installed.
pub open spec fn ensure_installed(installed: bool) -> Seq<ServiceAction> {
    if installed {
        Seq::empty()
    } else {
        install_steps()
    }
}

/// One step, or none.
pub open spec fn only_if(wanted: bool, a: ServiceAction) -> Seq<ServiceAction> {
    if wanted {
        seq![a]
    } else {
        Seq::empty()
    }
}

impl ServerServiceManager {
    /// The unit with what was found of it.
    pub fn new(
        installed: bool,
        unit_file_state: Option<String>,
        active_state: Option<String>,
    ) -> (r: ServerServiceManager)
        ensures
            r.installed == installed,
            r.unit_file_state == unit_file_state,
            r.active_state == active_state,
    {
        ServerServiceManager { installed, unit_file_state, active_state }
    }

    /// Whether the file of the unit is there.
    pub fn is_installed(&self) -> (r: bool)
        ensures
            r == self.installed,
    {
        self.installed
    }

    /// Whether the unit is enabled.
    pub fn is_enabled(&self) -> (r: bool)
        ensures
            r == says(self.unit_file_state, "enabled"@),
    {
        answers(&self.unit_file_state, "enabled")
    }

    /// Whether the unit runs.
    pub fn is_running(&self) -> (r: bool)
        ensures
            r == says(self.active_state, "active"@),
    {
        answers(&self.active_state, "active")
    }

    /// The steps that install the unit. The first that fails ends them.
    pub fn install(&self) -> (r: Vec<ServiceAction>)
        ensures
            r@ == install_steps(),
    {
        let mut v: Vec<ServiceAction> = Vec::new();
        v.push(ServiceAction::MakeDirectory);
        v.push(ServiceAction::WriteUnit);
        v.push(ServiceAction::Reload);
        assert(v@ =~= install_steps());
        v
    }

    fn after_install(&self, a: ServiceAction) -> (r: Vec<ServiceAction>)
        ensures
            r@ == ensure_installed(self.installed).push(a),
    {
        let mut v: Vec<ServiceAction> = if self.installed {
            Vec::new()
        } else {
            self.install()
        };
        v.push(a);
        assert(v@ =~= ensure_installed(self.installed).push(a));
        v
    }

    /// The steps that remove the unit: it is stopped and disabled first, as far
    /// as it runs and is enabled.
    pub fn uninstall(&self) -> (r: Vec<ServiceAction>)
        ensures
            r@ == only_if(says(self.active_state, "active"@), ServiceAction::Stop) + only_if(
                says(self.unit_file_state, "enabled"@),
                ServiceAction::Disable,
            ) + only_if(self.installed, ServiceAction::RemoveUnit) + seq![ServiceAction::TryReload],
    {
        let mut v: Vec<ServiceAction> = Vec::new();
        if self.is_running() {
            v.push(ServiceAction::Stop);
        }
        if self.is_enabled() {
            v.push(ServiceAction::Disable);
        }
        if self.installed {
            v.push(ServiceAction::RemoveUnit);
        }
        v.push(ServiceAction::TryReload);
        v
    }

    /// The steps that enable the unit.
    pub fn enable(&self) -> (r: Vec<ServiceAction>)
        ensures
            r@ == ensure_installed(self.installed).push(ServiceAction::Enable),
    {
        self.after_install(ServiceAction::Enable)
    }

    /// The steps that disable the unit.
    pub fn disable(&self) -> (r: Vec<ServiceAction>)
        ensures
            r@ == seq![ServiceAction::Disable],
    {
        let mut v: Vec<ServiceAction> = Vec::new();
        v.push(ServiceAction::Disable);
        assert(v@ =~= seq![ServiceAction::Disable]);
        v
    }

    /// The steps that start the unit.
    pub fn start(&self) -> (r: Vec<ServiceAction>)
        ensures
            r@ == ensure_installed(self.installed).push(ServiceAction::Start),
    {
        self.after_install(ServiceAction::Start)
    }

    /// The steps that stop the unit.
    pub fn stop(&self) -> (r: Vec<ServiceAction>)
        ensures
            r@ == seq![ServiceAction::Stop],
    {
        let mut v: Vec<ServiceAction> = Vec::new();
        v.push(ServiceAction::Stop);
        assert(v@ =~= seq![ServiceAction::Stop]);
        v
    }
}

/// What undoes a step that failed: a unit that systemd could not read is
/// removed.
pub open spec fn undoing(failed: ServiceAction) -> Seq<ServiceAction> {
    if failed == ServiceAction::Reload {
        seq![ServiceAction::RemoveUnit]
    } else {
        Seq::empty()
    }
}

/// Lists what undoes a step that failed.
pub fn rollback(failed: ServiceAction) -> (r: Vec<ServiceAction>)
    ensures
        r@ == undoing(failed),
{
    let mut v: Vec<ServiceAction> = Vec::new();
    if failed == ServiceAction::Reload {
        v.push(ServiceAction::RemoveUnit);
    }
    assert(v@ =~= undoing(failed));
    v
}

/// Whether the steps go on after one that failed: only where its failure does
/// not matter.
pub fn goes_on_after(failed: ServiceAction) -> (r: bool)
    ensures
        r == (failed == ServiceAction::TryReload),
{
    failed == ServiceAction::TryReload
}

/// Whether the unit is there after a step that succeeded.
pub open spec fn present_after(present: bool, a: ServiceAction) -> bool {
    match a {
        ServiceAction::WriteUnit => true,
        ServiceAction::RemoveUnit => false,
        _ => present,
    }
}

/// Whether the unit is there after steps that succeeded.
pub open spec fn present_after_all(present: bool, steps: Seq<ServiceAction>) -> bool
    decreases steps.len(),
{
    if steps.len() == 0 {
        present
    } else {
        present_after(present_after_all(present, steps.drop_last()), steps.last())
    }
}

/// An installation leaves the unit where all its steps succeed. Where one fails,
/// a unit that was not there before is not there after what undoes that step.
pub proof fn law_failed_install_leaves_no_unit(failed: int)
    requires
        0 <= failed < install_steps().len(),
    ensures
        present_after_all(false, install_steps()),
        !present_after_all(
            false,
            install_steps().take(failed) + undoing(install_steps()[failed]),
        ),
{
    let steps = install_steps();
    reveal_with_fuel(present_after_all, 4);
    assert(steps.drop_last() =~= seq![ServiceAction::MakeDirectory, ServiceAction::WriteUnit]);
    assert(steps.drop_last().drop_last() =~= seq![ServiceAction::MakeDirectory]);
    assert(steps.drop_last().drop_last().drop_last() =~= Seq::<ServiceAction>::empty());
    let all = steps.take(failed) + undoing(steps[failed]);
    if failed == 0 {
        assert(all =~= Seq::<ServiceAction>::empty());
    } else if failed == 1 {
        assert(all =~= seq![ServiceAction::MakeDirectory]);
        assert(all.drop_last() =~= Seq::<ServiceAction>::empty());
    } else {
        assert(all.last() == ServiceAction::RemoveUnit);
    }
}

/// The settings of the service.
#[derive(Debug)]
pub struct ServiceSettings {
    pub device_name: String,
    pub rtsp_port: u16,
    pub rtp_port: i64,
    pub go_intent: i32,
    pub auto_accept: bool,
    pub connection_timeout: i32,
    pub audio_enabled: bool,
    pub idle_timeout: i64,
    pub interface: Option<String>,
}

/// The integer of a key, or the default.
pub open spec fn int_setting(c: JsonModel, section: Seq<char>, key: Seq<char>, default: i64) -> i64 {
    match lookup(c, section, key) {
        Some(v) => match int_of(v) {
            Some(n) => n,
            None => default,
        },
        None => default,
    }
}

/// The truth value of a key, or the default.
pub open spec fn bool_setting(
    c: JsonModel,
    section: Seq<char>,
    key: Seq<char>,
    default: bool,
) -> bool {
    match lookup(c, section, key) {
        Some(v) => match bool_of(v) {
            Some(b) => b,
            None => default,
        },
        None => default,
    }
}

/// The text of a key, or the default.
pub open spec fn text_setting(
    c: JsonModel,
    section: Seq<char>,
    key: Seq<char>,
    default: Seq<char>,
) -> Seq<char> {
    match lookup(c, section, key) {
        Some(v) => match text_of(v) {
            Some(t) => t,
            None => default,
        },
        None => default,
    }
}

impl ServiceSettings {
    /// Takes the settings from the configuration. A name and an interface that
    /// are given come before it, and an interface that is empty is none.
    pub fn from_config(config: &ServerConfig, device_name: Option<String>, interface: Option<String>) -> (r:
        ServiceSettings)
        ensures
            r.device_name@ == match device_name {
                Some(n) => n@,
                None => text_setting(
                    config.config@,
                    "general"@,
                    "device_name"@,
                    "Ubuntu Miracast Server"@,
                ),
            },
            r.rtsp_port == int_setting(config.config@, "streaming"@, "rtsp_port"@, 7236) as u16,
            r.rtp_port == int_setting(config.config@, "network"@, "rtp_port"@, 1028),
            r.go_intent == int_setting(config.config@, "network"@, "go_intent"@, 15) as i32,
            r.auto_accept == bool_setting(config.config@, "network"@, "auto_accept"@, true),
            r.connection_timeout == int_setting(
                config.config@,
                "network"@,
                "connection_timeout"@,
                30,
            ) as i32,
            r.audio_enabled == bool_setting(config.config@, "streaming"@, "audio_enabled"@, true),
            r.idle_timeout == int_setting(config.config@, "service"@, "idle_timeout"@, 0),
            match interface {
                Some(i) => r.interface == Some(i),
                None => {
                    let t = text_setting(config.config@, "network"@, "p2p_interface"@, ""@);
                    if t.len() == 0 {
                        r.interface is None
                    } else {
                        r.interface matches Some(i) && i@ == t
                    }
                },
            },
    {
        ServiceSettings {
            device_name: match device_name {
                Some(n) => n,
                None => config.get_str("general", "device_name", "Ubuntu Miracast Server"),
            },
            rtsp_port: config.get_i64("streaming", "rtsp_port", 7236) as u16,
            rtp_port: config.get_i64("network", "rtp_port", 1028),
            go_intent: config.get_i64("network", "go_intent", 15) as i32,
            auto_accept: config.get_bool("network", "auto_accept", true),
            connection_timeout: config.get_i64("network", "connection_timeout", 30) as i32,
            audio_enabled: config.get_bool("streaming", "audio_enabled", true),
            idle_timeout: config.get_i64("service", "idle_timeout", 0),
            interface: match interface {
                Some(i) => Some(i),
                None => {
                    let t: String = config.get_str("network", "p2p_interface", "");
                    if t.as_str().is_empty() {
                        None
                    } else {
                        Some(t)
                    }
                },
            },
        }
    }
}

/// What the main loop of the service sees in a round.
#[derive(Debug, Clone, Copy, PartialEq, Eq, Structural)]
pub enum ServiceInput {
    /// The service was told to end.
    Signal,
    /// The group is up.
    AdvertisingStarted,
    /// The group could not be brought up.
    AdvertisingError,
    /// A source has connected.
    ConnectionReceived,
    /// The stream has ended.
    StreamStopped,
    /// The stream failed.
    StreamError,
    /// Another event.
    OtherEvent,
    /// Nothing.
    Nothing,
    /// No events can come any more.
    ChannelClosed,
}

/// How things stand in a round of the main loop.
#[derive(Debug, Clone, Copy)]
pub struct ServiceContext {
    /// Whether the interface of Wi-Fi Direct is known.
    pub interface_known: bool,
    /// Whether a handler listens for sources.
    pub has_handler: bool,
    /// Whether the present source is known.
    pub has_source: bool,
    /// Whether a stream is received.
    pub receiving: bool,
    /// The seconds since the last event; none have passed after an event.
    pub idle_secs: i64,
    /// The seconds after which the service ends, or zero.
    pub idle_timeout: i64,
}

/// What the main loop does, in order.
#[derive(Debug, Clone, Copy, PartialEq, Eq, Structural)]
pub enum ServiceStep {
    /// Listen for sources on the new group.
    StartListening,
    /// Receive from the source that has connected.
    StartReceiving,
    /// Record the session with the numbers that came with the event.
    RecordSession,
    /// Stop receiving.
    StopReceiving,
    /// Record the session with the numbers that stopping brought.
    RecordStopped,
    /// Take a new PIN into use.
    RearmPin,
    /// Cease to announce the sink.
    StopAdvertising,
    /// Cease to listen for sources.
    StopListening,
    /// End with success.
    Exit,
}

/// One step, or none.
pub open spec fn step_if(wanted: bool, s: ServiceStep) -> Seq<ServiceStep> {
    if wanted {
        seq![s]
    } else {
        Seq::empty()
    }
}

/// What ends the service.
pub open spec fn leaving(has_handler: bool) -> Seq<ServiceStep> {
    step_if(has_handler, ServiceStep::StopListening).push(ServiceStep::Exit)
}

/// What follows from an event of its own.
pub open spec fn event_steps(input: ServiceInput, c: ServiceContext) -> Seq<ServiceStep> {
    match input {
        ServiceInput::AdvertisingStarted => step_if(
            c.interface_known,
            ServiceStep::StartListening,
        ),
        ServiceInput::ConnectionReceived => seq![ServiceStep::StartReceiving],
        ServiceInput::StreamStopped => step_if(c.has_source, ServiceStep::RecordSession) + step_if(
            c.has_handler,
            ServiceStep::RearmPin,
        ),
        ServiceInput::StreamError => step_if(c.has_source, ServiceStep::StopReceiving) + step_if(
            c.has_source,
            ServiceStep::RecordStopped,
        ) + step_if(c.has_handler, ServiceStep::RearmPin),
        _ => Seq::empty(),
    }
}

/// Whether the service ends because nothing has happened for long enough.
pub open spec fn idle_ends(c: ServiceContext) -> bool {
    c.idle_timeout > 0 && !c.receiving && c.idle_secs >= c.idle_timeout
}

/// What the main loop does on a signal, when the group cannot be brought up,
/// when no events can come, and otherwise on an event.
pub open spec fn round(input: ServiceInput, c: ServiceContext) -> Seq<ServiceStep> {
    match input {
        ServiceInput::Signal => step_if(c.receiving, ServiceStep::StopReceiving) + step_if(
            c.receiving && c.has_source,
            ServiceStep::RecordStopped,
        ) + seq![ServiceStep::StopAdvertising] + leaving(c.has_handler),
        ServiceInput::AdvertisingError => leaving(c.has_handler),
        ServiceInput::ChannelClosed => leaving(c.has_handler),
        _ => event_steps(input, c),
    }
}

fn push_if(v: &mut Vec<ServiceStep>, wanted: bool, s: ServiceStep)
    ensures
        final(v)@ == old(v)@ + step_if(wanted, s),
{
    if wanted {
        v.push(s);
    }
    assert(v@ =~= old(v)@ + step_if(wanted, s));
}

/// Decides what the main loop of the service does in a round.
pub fn run_as_service(input: ServiceInput, c: &ServiceContext) -> (r: Vec<ServiceStep>)
    ensures
        r@ == round(input, *c),
{
    let mut v: Vec<ServiceStep> = Vec::new();
    match input {
        ServiceInput::Signal => {
            push_if(&mut v, c.receiving, ServiceStep::StopReceiving);
            push_if(&mut v, c.receiving && c.has_source, ServiceStep::RecordStopped);
            v.push(ServiceStep::StopAdvertising);
            push_if(&mut v, c.has_handler, ServiceStep::StopListening);
            v.push(ServiceStep::Exit);
        },
        ServiceInput::AdvertisingError => {
            push_if(&mut v, c.has_handler, ServiceStep::StopListening);
            v.push(ServiceStep::Exit);
        },
        ServiceInput::ChannelClosed => {
            push_if(&mut v, c.has_handler, ServiceStep::StopListening);
            v.push(ServiceStep::Exit);
        },
        ServiceInput::AdvertisingStarted => {
            push_if(&mut v, c.interface_known, ServiceStep::StartListening);
        },
        ServiceInput::ConnectionReceived => {
            v.push(ServiceStep::StartReceiving);
        },
        ServiceInput::StreamStopped => {
            push_if(&mut v, c.has_source, ServiceStep::RecordSession);
            push_if(&mut v, c.has_handler, ServiceStep::RearmPin);
        },
        ServiceInput::StreamError => {
            push_if(&mut v, c.has_source, ServiceStep::StopReceiving);
            push_if(&mut v, c.has_source, ServiceStep::RecordStopped);
            push_if(&mut v, c.has_handler, ServiceStep::RearmPin);
        },
        _ => {},
    }
    assert(v@ =~= round(input, *c));
    v
}

/// Decides whether the service ends for want of events, and how: it ceases to
/// listen and to announce the sink.
pub fn idle_steps(c: &ServiceContext) -> (r: Vec<ServiceStep>)
    ensures
        r@ == if idle_ends(*c) {
            step_if(c.has_handler, ServiceStep::StopListening) + seq![
                ServiceStep::StopAdvertising,
                ServiceStep::Exit,
            ]
        } else {
            Seq::empty()
        },
{
    let mut v: Vec<ServiceStep> = Vec::new();
    if c.idle_timeout > 0 && !c.receiving && c.idle_secs >= c.idle_timeout {
        push_if(&mut v, c.has_handler, ServiceStep::StopListening);
        v.push(ServiceStep::StopAdvertising);
        v.push(ServiceStep::Exit);
        assert(v@ =~= step_if(c.has_handler, ServiceStep::StopListening) + seq![
            ServiceStep::StopAdvertising,
            ServiceStep::Exit,
        ]);
    } else {
        assert(v@ =~= Seq::<ServiceStep>::empty());
    }
    v
}

/// A signal ends the service in order: the stream is stopped and its session
/// recorded, then the sink is no longer announced, then no source is listened
/// for, and the end comes last.
pub proof fn law_signal_ends_in_order(c: ServiceContext)
    ensures
        c.receiving && c.has_source && c.has_handler ==> round(ServiceInput::Signal, c) == seq![
            ServiceStep::StopReceiving,
            ServiceStep::RecordStopped,
            ServiceStep::StopAdvertising,
            ServiceStep::StopListening,
            ServiceStep::Exit,
        ],
        round(ServiceInput::Signal, c).last() == ServiceStep::Exit,
        round(ServiceInput::Signal, c).contains(ServiceStep::StopAdvertising),
        c.receiving ==> round(ServiceInput::Signal, c)[0] == ServiceStep::StopReceiving,
{
    let r = round(ServiceInput::Signal, c);
    if c.receiving && c.has_source && c.has_handler {
        assert(r =~= seq![
            ServiceStep::StopReceiving,
            ServiceStep::RecordStopped,
            ServiceStep::StopAdvertising,
            ServiceStep::StopListening,
            ServiceStep::Exit,
        ]);
    }
    let k = step_if(c.receiving, ServiceStep::StopReceiving).len() + step_if(
        c.receiving && c.has_source,
        ServiceStep::RecordStopped,
    ).len();
    assert(r[k as int] == ServiceStep::StopAdvertising);
}

/// A session of a known source is recorded once, however it ends, and the sink
/// is then ready for the next source.
pub proof fn law_session_is_recorded_once(c: ServiceContext)
    requires
        c.has_source,
        c.has_handler,
    ensures
        round(ServiceInput::StreamStopped, c) == seq![
            ServiceStep::RecordSession,
            ServiceStep::RearmPin,
        ],
        round(ServiceInput::StreamError, c) == seq![
            ServiceStep::StopReceiving,
            ServiceStep::RecordStopped,
            ServiceStep::RearmPin,
        ],
{
    assert(round(ServiceInput::StreamStopped, c) =~= seq![
        ServiceStep::RecordSession,
        ServiceStep::RearmPin,
    ]);
    assert(round(ServiceInput::StreamError, c) =~= seq![
        ServiceStep::StopReceiving,
        ServiceStep::RecordStopped,
        ServiceStep::RearmPin,
    ]);
}

/// Without a time limit, and while a stream is received, the service never ends
/// for want of events.
pub proof fn law_service_stays_without_limit(c: ServiceContext)
    requires
        c.idle_timeout <= 0 || c.receiving,
    ensures
        !idle_ends(c),
{
}

} // verus!
