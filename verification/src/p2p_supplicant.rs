//! A supplicant of its own for Wi-Fi Direct on a second adapter, so that the
//! first one can stay connected.

pub mod laws;

use vstd::prelude::*;
use crate::text;
use crate::text::{dec, join, strs, trim};

verus! {

/// Where the supplicant listens.
pub const CTRL_DIR: &'static str = "/tmp/miracast-wpa-p2p";

/// The configuration of the supplicant.
pub const CONF_PATH: &'static str = "/tmp/miracast-wpa-p2p.conf";

/// The log of the supplicant.
pub const LOG_PATH: &'static str = "/tmp/miracast-wpa-p2p.log";

/// Why the supplicant could not be run.
#[derive(Debug, Clone)]
pub struct SupplicantError(pub String);

impl SupplicantError {
    /// The error in words.
    pub fn to_string(&self) -> (r: String)
        ensures
            r@ == self.0@,
    {
        self.0.clone()
    }
}

/// The configuration of a supplicant.
pub open spec fn conf_text(ctrl_dir: Seq<char>, device_name: Seq<char>) -> Seq<char> {
    "ctrl_interface="@ + ctrl_dir + "\nupdate_config=1\ndevice_name="@ + device_name
        + "\ndevice_type=7-0050F204-1\np2p_go_intent=1\ndriver_param=p2p_device=1\ncountry=FR\n"@
}

/// Writes the configuration of a supplicant.
pub fn render_config(ctrl_dir: &str, device_name: &str) -> (r: String)
    ensures
        r@ == conf_text(ctrl_dir@, device_name@),
{
    let mut out: String = text::joined("ctrl_interface=".to_owned(), ctrl_dir);
    out.append("\nupdate_config=1\ndevice_name=");
    out.append(device_name);
    out.append(
        "\ndevice_type=7-0050F204-1\np2p_go_intent=1\ndriver_param=p2p_device=1\ncountry=FR\n",
    );
    out
}

/// What ends the supplicant.
#[derive(Debug)]
pub struct SupplicantStop {
    /// Whether there is a process to end.
    pub end_process: bool,
    /// The command that gives the adapter back, where it was taken.
    pub give_back: Option<Vec<String>>,
}

/// The supplicant on a second adapter, and whether it runs.
#[derive(Debug)]
pub struct P2PSupplicantManager {
    pub interface: String,
    pub device_name: String,
    pub was_nm_managed: bool,
    pub started: bool,
    pub has_process: bool,
}

/// The command that takes an adapter away from the network manager or gives it
/// back.
pub open spec fn manage(interface: Seq<char>, managed: bool) -> Seq<Seq<char>> {
    seq![
        "nmcli"@,
        "device"@,
        "set"@,
        interface,
        "managed"@,
        if managed {
            "yes"@
        } else {
            "no"@
        },
    ]
}

fn manage_command(interface: &str, managed: bool) -> (r: Vec<String>)
    ensures
        strs(r@) == manage(interface@, managed),
{
    let mut v: Vec<String> = Vec::new();
    v.push("nmcli".to_owned());
    v.push("device".to_owned());
    v.push("set".to_owned());
    v.push(interface.to_owned());
    v.push("managed".to_owned());
    if managed {
        v.push("yes".to_owned());
    } else {
        v.push("no".to_owned());
    }
    assert(strs(v@) =~= manage(interface@, managed));
    v
}

/// A stop as contracts see it.
pub struct StopModel {
    pub end_process: bool,
    pub give_back: Option<Seq<Seq<char>>>,
}

impl View for SupplicantStop {
    type V = StopModel;

    open spec fn view(&self) -> StopModel {
        StopModel {
            end_process: self.end_process,
            give_back: maybe_words(self.give_back),
        }
    }
}

/// The supplicant as contracts see it.
pub struct SupplicantModel {
    pub interface: Seq<char>,
    pub device_name: Seq<char>,
    pub was_nm_managed: bool,
    pub started: bool,
    pub has_process: bool,
}

impl View for P2PSupplicantManager {
    type V = SupplicantModel;

    open spec fn view(&self) -> SupplicantModel {
        SupplicantModel {
            interface: self.interface@,
            device_name: self.device_name@,
            was_nm_managed: self.was_nm_managed,
            started: self.started,
            has_process: self.has_process,
        }
    }
}

/// The supplicant after it was stopped, and what that takes: its process is
/// ended and the adapter given back. One that does not run is left alone.
pub open spec fn stop_step(s: SupplicantModel) -> (SupplicantModel, Option<StopModel>) {
    if !s.started && !s.has_process {
        (s, None)
    } else {
        (
            SupplicantModel { started: false, has_process: false, ..s },
            Some(
                StopModel {
                    end_process: s.has_process,
                    give_back: giving_back(s),
                },
            ),
        )
    }
}

/// A supplicant that was stopped does not run, and a second stop does nothing.
pub proof fn law_stop_is_idempotent(s: SupplicantModel)
    ensures
        !stop_step(s).0.started && !stop_step(s).0.has_process,
        stop_step(stop_step(s).0) == (stop_step(s).0, None::<StopModel>),
{
}

/// What has happened in the course of a start.
#[derive(Debug, Clone, Copy)]
pub enum StartEvent<'a> {
    /// The start was asked for.
    Asked,
    /// What an earlier run left on the adapter was ended.
    StaleEnded,
    /// The adapter was taken away from the network manager, or was not.
    Unmanaged(bool),
    /// The configuration was written, unless there is a reason.
    Written(Option<&'a str>),
    /// The directory of the socket was made, unless there is a reason.
    DirectoryMade(Option<&'a str>),
    /// The supplicant was run, unless there is a reason.
    Spawned(Option<&'a str>),
    /// The socket was waited for, and has appeared or has not.
    SocketAwaited(bool),
}

/// What comes next in a start.
#[derive(Debug)]
pub enum StartStep {
    /// The supplicant has started before.
    Nothing,
    /// End what an earlier run left on the adapter.
    EndStale(Vec<String>),
    /// Take the adapter away from the network manager.
    Unmanage(Vec<String>),
    /// Write this configuration.
    WriteConfig(String),
    /// Make the directory of the socket.
    MakeDirectory,
    /// Run the supplicant.
    Spawn(Vec<String>),
    /// Wait for this socket.
    AwaitSocket(String),
    /// The supplicant runs.
    Running,
    /// The start has failed: give the adapter back, stop what runs, and report
    /// the error.
    Fail {
        error: SupplicantError,
        give_back: Option<Vec<String>>,
        stop: Option<SupplicantStop>,
    },
}

/// A step as contracts see it.
pub enum StartModel {
    Nothing,
    EndStale(Seq<Seq<char>>),
    Unmanage(Seq<Seq<char>>),
    WriteConfig(Seq<char>),
    MakeDirectory,
    Spawn(Seq<Seq<char>>),
    AwaitSocket(Seq<char>),
    Running,
    Fail { error: Seq<char>, give_back: Option<Seq<Seq<char>>>, stop: Option<StopModel> },
}

/// An optional command as contracts see it.
pub open spec fn maybe_words(v: Option<Vec<String>>) -> Option<Seq<Seq<char>>> {
    match v {
        Some(w) => Some(strs(w@)),
        None => None,
    }
}

impl View for StartStep {
    type V = StartModel;

    open spec fn view(&self) -> StartModel {
        match self {
            StartStep::Nothing => StartModel::Nothing,
            StartStep::EndStale(v) => StartModel::EndStale(strs(v@)),
            StartStep::Unmanage(v) => StartModel::Unmanage(strs(v@)),
            StartStep::WriteConfig(t) => StartModel::WriteConfig(t@),
            StartStep::MakeDirectory => StartModel::MakeDirectory,
            StartStep::Spawn(v) => StartModel::Spawn(strs(v@)),
            StartStep::AwaitSocket(t) => StartModel::AwaitSocket(t@),
            StartStep::Running => StartModel::Running,
            StartStep::Fail { error, give_back, stop } => StartModel::Fail {
                error: error.0@,
                give_back: maybe_words(*give_back),
                stop: match stop {
                    Some(s) => Some(s@),
                    None => None,
                },
            },
        }
    }
}

/// The command that ends what an earlier run left on the adapter.
pub open spec fn end_stale(interface: Seq<char>) -> Seq<Seq<char>> {
    seq!["sudo"@, "pkill"@, "-f"@, "wpa_supplicant.*-i.*"@ + interface]
}

/// The command that runs the supplicant.
pub open spec fn spawn(interface: Seq<char>) -> Seq<Seq<char>> {
    seq![
        "sudo"@,
        "wpa_supplicant"@,
        "-i"@,
        interface,
        "-c"@,
        "/tmp/miracast-wpa-p2p.conf"@,
        "-D"@,
        "nl80211"@,
        "-f"@,
        "/tmp/miracast-wpa-p2p.log"@,
    ]
}

/// The command that gives the adapter back, where it was taken.
pub open spec fn giving_back(s: SupplicantModel) -> Option<Seq<Seq<char>>> {
    if s.was_nm_managed {
        Some(manage(s.interface, true))
    } else {
        None
    }
}

/// A start that has failed with nothing to undo.
pub open spec fn plain_failure(error: Seq<char>) -> StartModel {
    StartModel::Fail { error, give_back: None, stop: None }
}

/// The socket for an interface: in the directory of the supplicant, unless the
/// name is a path from the root.
pub open spec fn socket_of(interface: Seq<char>) -> Seq<char> {
    if "/"@.is_prefix_of(interface) {
        interface
    } else {
        "/tmp/miracast-wpa-p2p/"@ + interface
    }
}

/// The supplicant after an event of its start, and what comes next. A
/// supplicant that cannot be run gives the adapter back, and one that makes no
/// socket is stopped.
pub open spec fn start_after(s: SupplicantModel, e: StartEvent<'_>) -> (
    SupplicantModel,
    StartModel,
) {
    match e {
        StartEvent::Asked => if s.started {
            (s, StartModel::Nothing)
        } else {
            (s, StartModel::EndStale(end_stale(s.interface)))
        },
        StartEvent::StaleEnded => (s, StartModel::Unmanage(manage(s.interface, false))),
        StartEvent::Unmanaged(done) => (
            SupplicantModel { was_nm_managed: s.was_nm_managed || done, ..s },
            StartModel::WriteConfig(conf_text("/tmp/miracast-wpa-p2p"@, s.device_name)),
        ),
        StartEvent::Written(None) => (s, StartModel::MakeDirectory),
        StartEvent::Written(Some(why)) => (
            s,
            plain_failure("Failed to write wpa_supplicant config: "@ + why@),
        ),
        StartEvent::DirectoryMade(None) => (s, StartModel::Spawn(spawn(s.interface))),
        StartEvent::DirectoryMade(Some(why)) => (
            s,
            plain_failure("Failed to create ctrl dir: "@ + why@),
        ),
        StartEvent::Spawned(None) => (
            SupplicantModel { has_process: true, ..s },
            StartModel::AwaitSocket(socket_of(s.interface)),
        ),
        StartEvent::Spawned(Some(why)) => (
            s,
            StartModel::Fail {
                error: "Failed to start wpa_supplicant: "@ + why@,
                give_back: giving_back(s),
                stop: None,
            },
        ),
        StartEvent::SocketAwaited(true) => (
            SupplicantModel { started: true, ..s },
            StartModel::Running,
        ),
        StartEvent::SocketAwaited(false) => (
            stop_step(s).0,
            StartModel::Fail {
                error:
                    "wpa_supplicant started but control socket not created within 5 seconds. Check /tmp/miracast-wpa-p2p.log for errors."@,
                give_back: None,
                stop: stop_step(s).1,
            },
        ),
    }
}

/// An adapter that was taken away from the network manager is given back: when
/// the supplicant cannot be run, when it makes no socket, and when it is
/// stopped. In none of these cases a process is left.
pub proof fn law_taken_adapter_is_given_back(s: SupplicantModel, why: &str)
    requires
        s.was_nm_managed,
        !s.started,
    ensures
        start_after(s, StartEvent::Spawned(Some(why))).1 matches StartModel::Fail {
            give_back,
            ..
        } && give_back == Some(manage(s.interface, true)),
        ({
            let run = start_after(s, StartEvent::Spawned(None)).0;
            let after = start_after(run, StartEvent::SocketAwaited(false));
            &&& !after.0.has_process && !after.0.started
            &&& after.1 matches StartModel::Fail { stop: Some(stop), .. } && stop.end_process
                && stop.give_back == Some(manage(s.interface, true))
        }),
        ({
            let run = start_after(s, StartEvent::Spawned(None)).0;
            let up = start_after(run, StartEvent::SocketAwaited(true)).0;
            &&& !stop_step(up).0.has_process
            &&& stop_step(up).1 matches Some(stop) && stop.end_process && stop.give_back == Some(
                manage(s.interface, true),
            )
        }),
{
}

/// Where every part of a start succeeds, the supplicant runs at its end, and to
/// ask for a start again does nothing.
pub proof fn law_start_leads_to_a_running_supplicant(s: SupplicantModel, unmanaged: bool)
    requires
        !s.started,
    ensures
        ({
            let s1 = start_after(s, StartEvent::Asked).0;
            let s2 = start_after(s1, StartEvent::StaleEnded).0;
            let s3 = start_after(s2, StartEvent::Unmanaged(unmanaged)).0;
            let s4 = start_after(s3, StartEvent::Written(None)).0;
            let s5 = start_after(s4, StartEvent::DirectoryMade(None)).0;
            let s6 = start_after(s5, StartEvent::Spawned(None)).0;
            let (s7, last) = start_after(s6, StartEvent::SocketAwaited(true));
            &&& last == StartModel::Running
            &&& s7.started && s7.has_process
            &&& start_after(s7, StartEvent::Asked) == (s7, StartModel::Nothing)
        }),
{
}

fn failed(head: &str, why: &str) -> (r: StartStep)
    ensures
        r@ == plain_failure(head@ + why@),
{
    StartStep::Fail {
        error: SupplicantError(text::joined(head.to_owned(), why)),
        give_back: None,
        stop: None,
    }
}

impl P2PSupplicantManager {
    /// Whether a supplicant that has started has a process.
    pub open spec fn wf(&self) -> bool {
        self.started ==> self.has_process
    }

    /// A supplicant that does not run.
    pub fn new(interface: &str, device_name: &str) -> (r: P2PSupplicantManager)
        ensures
            r.wf(),
            r@ == (SupplicantModel {
                interface: interface@,
                device_name: device_name@,
                was_nm_managed: false,
                started: false,
                has_process: false,
            }),
    {
        P2PSupplicantManager {
            interface: interface.to_owned(),
            device_name: device_name.to_owned(),
            was_nm_managed: false,
            started: false,
            has_process: false,
        }
    }

    /// The adapter.
    pub fn interface(&self) -> (r: &str)
        ensures
            r@ == self.interface@,
    {
        self.interface.as_str()
    }

    /// Where the supplicant listens.
    pub fn ctrl_path(&self) -> (r: &'static str)
        ensures
            r@ == "/tmp/miracast-wpa-p2p"@,
    {
        CTRL_DIR
    }

    fn end_stale_command(&self) -> (r: Vec<String>)
        ensures
            strs(r@) == end_stale(self.interface@),
    {
        let mut v: Vec<String> = Vec::new();
        v.push("sudo".to_owned());
        v.push("pkill".to_owned());
        v.push("-f".to_owned());
        v.push(text::joined("wpa_supplicant.*-i.*".to_owned(), self.interface.as_str()));
        assert(strs(v@) =~= end_stale(self.interface@));
        v
    }

    fn remanage_command(&self) -> (r: Option<Vec<String>>)
        ensures
            maybe_words(r) == giving_back(self@),
    {
        if self.was_nm_managed {
            Some(manage_command(self.interface.as_str(), true))
        } else {
            None
        }
    }

    fn spawn_command(&self) -> (r: Vec<String>)
        ensures
            strs(r@) == spawn(self.interface@),
    {
        let mut v: Vec<String> = Vec::new();
        v.push("sudo".to_owned());
        v.push("wpa_supplicant".to_owned());
        v.push("-i".to_owned());
        v.push(self.interface.clone());
        v.push("-c".to_owned());
        v.push(CONF_PATH.to_owned());
        v.push("-D".to_owned());
        v.push("nl80211".to_owned());
        v.push("-f".to_owned());
        v.push(LOG_PATH.to_owned());
        assert(strs(v@) =~= spawn(self.interface@));
        v
    }

    /// The socket of the supplicant.
    pub fn socket_path(&self) -> (r: String)
        ensures
            r@ == socket_of(self.interface@),
    {
        let name: Vec<char> = text::chars_of(self.interface.as_str());
        if text::begins_with(name.as_slice(), "/") {
            return self.interface.clone();
        }
        text::joined("/tmp/miracast-wpa-p2p/".to_owned(), self.interface.as_str())
    }

    /// Takes an event of a start and decides what comes next. The start begins
    /// when it is asked for, and the event that follows a step tells what came
    /// of it.
    pub fn start(&mut self, event: StartEvent<'_>) -> (r: StartStep)
        requires
            old(self).wf(),
            event is SocketAwaited ==> old(self).has_process,
        ensures
            final(self).wf(),
            (final(self)@, r@) == start_after(old(self)@, event),
    {
        match event {
            StartEvent::Asked => if self.started {
                StartStep::Nothing
            } else {
                StartStep::EndStale(self.end_stale_command())
            },
            StartEvent::StaleEnded => StartStep::Unmanage(
                manage_command(self.interface.as_str(), false),
            ),
            StartEvent::Unmanaged(done) => {
                if done {
                    self.was_nm_managed = true;
                }
                StartStep::WriteConfig(render_config(CTRL_DIR, self.device_name.as_str()))
            },
            StartEvent::Written(None) => StartStep::MakeDirectory,
            StartEvent::Written(Some(why)) => failed("Failed to write wpa_supplicant config: ", why),
            StartEvent::DirectoryMade(None) => StartStep::Spawn(self.spawn_command()),
            StartEvent::DirectoryMade(Some(why)) => failed("Failed to create ctrl dir: ", why),
            StartEvent::Spawned(None) => {
                self.has_process = true;
                StartStep::AwaitSocket(self.socket_path())
            },
            StartEvent::Spawned(Some(why)) => StartStep::Fail {
                error: SupplicantError(
                    text::joined("Failed to start wpa_supplicant: ".to_owned(), why),
                ),
                give_back: self.remanage_command(),
                stop: None,
            },
            StartEvent::SocketAwaited(true) => {
                self.started = true;
                StartStep::Running
            },
            StartEvent::SocketAwaited(false) => {
                let stop: Option<SupplicantStop> = self.stop();
                StartStep::Fail {
                    error: SupplicantError(
                        "wpa_supplicant started but control socket not created within 5 seconds. Check /tmp/miracast-wpa-p2p.log for errors.".to_owned(),
                    ),
                    give_back: None,
                    stop,
                }
            },
        }
    }

    /// Stops the supplicant: its process is ended and the adapter given back.
    /// Nothing is to be done where it does not run.
    pub fn stop(&mut self) -> (r: Option<SupplicantStop>)
        ensures
            final(self).wf(),
            final(self)@ == stop_step(old(self)@).0,
            match r {
                Some(s) => stop_step(old(self)@).1 == Some(s@),
                None => stop_step(old(self)@).1 is None,
            },
    {
        if !self.started && !self.has_process {
            return None;
        }
        let end_process: bool = self.has_process;
        self.has_process = false;
        self.started = false;
        let give_back: Option<Vec<String>> = self.remanage_command();
        Some(SupplicantStop { end_process, give_back })
    }

    /// The command that ends a process, gently or by force.
    pub fn kill_command(&self, pid: u32, force: bool) -> (r: Vec<String>)
        ensures
            strs(r@) == if force {
                seq!["sudo"@, "kill"@, "-9"@, dec(pid as int)]
            } else {
                seq!["sudo"@, "kill"@, dec(pid as int)]
            },
    {
        let mut v: Vec<String> = Vec::new();
        v.push("sudo".to_owned());
        v.push("kill".to_owned());
        if force {
            v.push("-9".to_owned());
        }
        v.push(text::dec_u64(pid as u64));
        assert(strs(v@) =~= if force {
            seq!["sudo"@, "kill"@, "-9"@, dec(pid as int)]
        } else {
            seq!["sudo"@, "kill"@, dec(pid as int)]
        });
        v
    }

    /// The words of a wpa_cli command for this supplicant.
    pub fn wpa_cli_command(&self, args: &Vec<String>) -> (r: Vec<String>)
        ensures
            strs(r@) == seq![
                "sudo"@,
                "wpa_cli"@,
                "-p"@,
                "/tmp/miracast-wpa-p2p"@,
                "-i"@,
                self.interface@,
            ] + strs(args@),
    {
        let mut v: Vec<String> = Vec::new();
        v.push("sudo".to_owned());
        v.push("wpa_cli".to_owned());
        v.push("-p".to_owned());
        v.push(CTRL_DIR.to_owned());
        v.push("-i".to_owned());
        v.push(self.interface.clone());
        let ghost head = seq![
            "sudo"@,
            "wpa_cli"@,
            "-p"@,
            "/tmp/miracast-wpa-p2p"@,
            "-i"@,
            self.interface@,
        ];
        assert(strs(v@) =~= head);
        let mut i: usize = 0;
        assert(strs(args@).take(0) =~= Seq::<Seq<char>>::empty());
        while i < args.len()
            invariant
                i <= args@.len(),
                strs(v@) == head + strs(args@).take(i as int),
            decreases args.len() - i,
        {
            let ghost before = strs(v@);
            let a: String = args[i].clone();
            let ghost av = a@;
            v.push(a);
            assert(strs(v@) =~= before.push(av));
            assert(strs(args@).take(i + 1) =~= strs(args@).take(i as int).push(av));
            i += 1;
        }
        assert(strs(args@).take(args@.len() as int) =~= strs(args@));
        v
    }

    /// What a wpa_cli command for this supplicant came to: what it wrote, or why
    /// it failed. No output at all means that it took too long.
    pub fn wpa_cli_answer(&self, args: &Vec<String>, output: Option<(bool, &str, &str)>) -> (r:
        Result<String, SupplicantError>)
        ensures
            match output {
                None => r matches Err(e) && e.0@ == "wpa_cli command timed out: "@ + join(
                    strs(args@),
                    " "@,
                ),
                Some((ok, stdout, stderr)) => if ok {
                    r matches Ok(t) && t@ == trim(stdout@)
                } else {
                    r matches Err(e) && e.0@ == "wpa_cli command failed: "@ + join(
                        strs(args@),
                        " "@,
                    ) + ": "@ + if trim(stderr@).len() > 0 {
                        trim(stderr@)
                    } else {
                        trim(stdout@)
                    }
                },
            },
    {
        let words: String = text::join_strings(args, " ");
        match output {
            None => Err(
                SupplicantError(
                    text::joined("wpa_cli command timed out: ".to_owned(), words.as_str()),
                ),
            ),
            Some((ok, stdout, stderr)) => {
                let outs: Vec<char> = text::chars_of(stdout);
                let out: &[char] = text::trimmed(outs.as_slice());
                if ok {
                    return Ok(text::string_of(out));
                }
                let errs: Vec<char> = text::chars_of(stderr);
                let err: &[char] = text::trimmed(errs.as_slice());
                let mut m: String = text::joined(
                    "wpa_cli command failed: ".to_owned(),
                    words.as_str(),
                );
                m.append(": ");
                if err.len() > 0 {
                    m.append(text::string_of(err).as_str());
                } else {
                    m.append(text::string_of(out).as_str());
                }
                Err(SupplicantError(m))
            },
        }
    }
}

} // verus!
