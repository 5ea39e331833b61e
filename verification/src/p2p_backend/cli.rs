//! The backend over wpa_cli: the commands that bring up the group, the ladder
//! of ways to do so, and what the event monitor reports.

pub mod laws;

use vstd::prelude::*;
use crate::capabilities::{GoBand, GoCandidate};
use crate::connection::{
    classify_event, clean_event_line, event_text, meaning, GroupEvent, GroupEventModel, MonitorRead,
};
use crate::p2p_backend::{BackendError, BackendErrorModel, EventModel, P2pEvent};
use crate::text;
use crate::text::{
    as_unsigned, ascii_lower, contains, dec, digits_value, hex_upper, lines, split_char, split_on,
    strs, texts, trim,
};
use crate::utils::maybe_text;

verus! {

/// The Wi-Fi Display element that names the associated access point: none.
pub const WFD_ASSOCIATED_BSSID_SUBELEMENT: &'static str = "0006000000000000";

/// The Wi-Fi Display element of the coupled sink: none.
pub const WFD_COUPLED_SINK_SUBELEMENT: &'static str = "000700000000000000";

/// The seconds after which a PIN is armed again.
pub const WPS_REARM_SECS: u64 = 240;

/// The seconds for which a PIN stays armed.
pub const WPS_PIN_TIMEOUT_SECS: &'static str = "300";

/// The Wi-Fi Display element that describes the device: a primary sink that can
/// take a session, its port, and its throughput.
pub open spec fn device_info(rtsp_port: int) -> Seq<char> {
    "0006"@ + hex_upper(0x11, 4) + hex_upper(rtsp_port, 4) + hex_upper(0x12C, 4)
}

/// Encodes the Wi-Fi Display element that describes the device.
pub fn encode_wfd_device_info(rtsp_port: u16) -> (r: String)
    ensures
        r@ == device_info(rtsp_port as int),
{
    let mut out: String = text::joined("0006".to_owned(), text::hex_upper_of(0x11, 4).as_str());
    out.append(text::hex_upper_of(rtsp_port as u64, 4).as_str());
    out.append(text::hex_upper_of(0x12C, 4).as_str());
    out
}

/// A command for wpa_cli. The last argument may be left unchecked.
#[derive(Debug)]
pub struct WpaCommand {
    pub args: Vec<String>,
    pub skip_last_validation: bool,
}

/// A command as contracts see it.
pub struct CommandModel {
    pub args: Seq<Seq<char>>,
    pub skip_last_validation: bool,
}

impl View for WpaCommand {
    type V = CommandModel;

    open spec fn view(&self) -> CommandModel {
        CommandModel {
            args: strs(self.args@),
            skip_last_validation: self.skip_last_validation,
        }
    }
}

/// Commands as contracts see them.
pub open spec fn command_views(v: Seq<WpaCommand>) -> Seq<CommandModel> {
    Seq::new(v.len(), |i: int| v[i]@)
}

/// A command all of whose arguments are checked.
pub open spec fn checked(args: Seq<Seq<char>>) -> CommandModel {
    CommandModel { args, skip_last_validation: false }
}

/// A command whose last argument is not checked.
pub open spec fn free_last(args: Seq<Seq<char>>) -> CommandModel {
    CommandModel { args, skip_last_validation: true }
}

pub(crate) fn command1(a: &str, skip: bool) -> (r: WpaCommand)
    ensures
        r@ == (CommandModel { args: seq![a@], skip_last_validation: skip }),
{
    let mut args: Vec<String> = Vec::new();
    args.push(a.to_owned());
    assert(strs(args@) =~= seq![a@]);
    WpaCommand { args, skip_last_validation: skip }
}

pub(crate) fn command2(a: &str, b: &str, skip: bool) -> (r: WpaCommand)
    ensures
        r@ == (CommandModel { args: seq![a@, b@], skip_last_validation: skip }),
{
    let mut args: Vec<String> = Vec::new();
    args.push(a.to_owned());
    args.push(b.to_owned());
    assert(strs(args@) =~= seq![a@, b@]);
    WpaCommand { args, skip_last_validation: skip }
}

pub(crate) fn command3(a: &str, b: &str, c: &str, skip: bool) -> (r: WpaCommand)
    ensures
        r@ == (CommandModel { args: seq![a@, b@, c@], skip_last_validation: skip }),
{
    let mut args: Vec<String> = Vec::new();
    args.push(a.to_owned());
    args.push(b.to_owned());
    args.push(c.to_owned());
    assert(strs(args@) =~= seq![a@, b@, c@]);
    WpaCommand { args, skip_last_validation: skip }
}

/// The commands that describe the sink and make it visible, in their order.
pub open spec fn setup(device_name: Seq<char>, rtsp_port: int) -> Seq<CommandModel> {
    seq![
        checked(seq!["set"@, "wifi_display"@, "1"@]),
        checked(seq!["wfd_subelem_set"@, "0"@, device_info(rtsp_port)]),
        checked(seq!["wfd_subelem_set"@, "1"@, "0006000000000000"@]),
        checked(seq!["wfd_subelem_set"@, "6"@, "000700000000000000"@]),
        free_last(seq!["set"@, "device_name"@, device_name]),
        checked(seq!["set"@, "device_type"@, "7-0050F204-1"@]),
        checked(seq!["set"@, "p2p_go_ht40"@, "1"@]),
        free_last(seq!["p2p_find"@, "type=progressive"@]),
    ]
}

/// Lists the commands that describe the sink and make it visible.
pub fn setup_commands(device_name: &str, rtsp_port: u16) -> (r: Vec<WpaCommand>)
    ensures
        command_views(r@) == setup(device_name@, rtsp_port as int),
{
    let info: String = encode_wfd_device_info(rtsp_port);
    let mut v: Vec<WpaCommand> = Vec::new();
    v.push(command3("set", "wifi_display", "1", false));
    v.push(command3("wfd_subelem_set", "0", info.as_str(), false));
    v.push(command3("wfd_subelem_set", "1", "0006000000000000", false));
    v.push(command3("wfd_subelem_set", "6", "000700000000000000", false));
    v.push(command3("set", "device_name", device_name, true));
    v.push(command3("set", "device_type", "7-0050F204-1", false));
    v.push(command3("set", "p2p_go_ht40", "1", false));
    v.push(command2("p2p_find", "type=progressive", true));
    assert(command_views(v@) =~= setup(device_name@, rtsp_port as int));
    v
}

/// The command that creates the group in a given way.
pub open spec fn group_add(freq_mhz: int) -> CommandModel {
    if freq_mhz == 0 {
        checked(seq!["p2p_group_add"@, "persistent"@])
    } else {
        checked(seq!["p2p_group_add"@, "persistent"@, "freq="@ + dec(freq_mhz)])
    }
}

/// Makes up the command that creates the group in a given way.
pub fn group_add_command(candidate: &GoCandidate) -> (r: WpaCommand)
    ensures
        r@ == group_add(candidate.freq_mhz as int),
{
    if candidate.freq_mhz == 0 {
        command2("p2p_group_add", "persistent", false)
    } else {
        let freq: String = text::joined(
            "freq=".to_owned(),
            text::dec_u64(candidate.freq_mhz as u64).as_str(),
        );
        command3("p2p_group_add", "persistent", freq.as_str(), false)
    }
}

/// The command that removes a group.
pub fn remove_group_command(group_interface: &str) -> (r: WpaCommand)
    ensures
        r@ == checked(seq!["p2p_group_remove"@, group_interface@]),
{
    command2("p2p_group_remove", group_interface, false)
}

/// The command that asks for the status of a group.
pub fn status_command() -> (r: WpaCommand)
    ensures
        r@ == free_last(seq!["status"@]),
{
    command1("status", true)
}

/// The command that arms a PIN.
pub fn arm_command(pin: &str) -> (r: WpaCommand)
    ensures
        r@ == checked(seq!["wps_pin"@, "any"@, pin@, "300"@]),
{
    let mut args: Vec<String> = Vec::new();
    args.push("wps_pin".to_owned());
    args.push("any".to_owned());
    args.push(pin.to_owned());
    args.push(WPS_PIN_TIMEOUT_SECS.to_owned());
    assert(strs(args@) =~= seq!["wps_pin"@, "any"@, pin@, "300"@]);
    WpaCommand { args, skip_last_validation: false }
}

/// The commands that describe the sink on the group interface. Each is tried
/// only if the one before it succeeded, and none has to.
pub fn group_commands(rtsp_port: u16) -> (r: Vec<WpaCommand>)
    ensures
        command_views(r@) == seq![
            checked(seq!["set"@, "wifi_display"@, "1"@]),
            checked(seq!["wfd_subelem_set"@, "0"@, device_info(rtsp_port as int)]),
        ],
{
    let info: String = encode_wfd_device_info(rtsp_port);
    let mut v: Vec<WpaCommand> = Vec::new();
    v.push(command3("set", "wifi_display", "1", false));
    v.push(command3("wfd_subelem_set", "0", info.as_str(), false));
    assert(command_views(v@) =~= seq![
        checked(seq!["set"@, "wifi_display"@, "1"@]),
        checked(seq!["wfd_subelem_set"@, "0"@, device_info(rtsp_port as int)]),
    ]);
    v
}

/// The commands that keep the device visible while the group runs. None has to
/// succeed.
pub fn discovery_commands() -> (r: Vec<WpaCommand>)
    ensures
        command_views(r@) == seq![
            checked(seq!["p2p_ext_listen"@, "200"@, "500"@]),
            free_last(seq!["p2p_find"@, "type=progressive"@]),
        ],
{
    let mut v: Vec<WpaCommand> = Vec::new();
    v.push(command3("p2p_ext_listen", "200", "500", false));
    v.push(command2("p2p_find", "type=progressive", true));
    assert(command_views(v@) =~= seq![
        checked(seq!["p2p_ext_listen"@, "200"@, "500"@]),
        free_last(seq!["p2p_find"@, "type=progressive"@]),
    ]);
    v
}

/// Whether a reply is not a refusal.
pub fn reply_accepts(reply: &str) -> (r: bool)
    ensures
        r == !contains(reply@, "FAIL"@),
{
    !text::holds(text::chars_of(reply).as_slice(), "FAIL")
}

/// Whether a PIN is armed after an attempt that brought this reply, or failed.
pub fn arm_succeeded(reply: Option<&str>) -> (r: bool)
    ensures
        r == (reply matches Some(t) && !contains(t@, "FAIL"@)),
{
    match reply {
        Some(t) => reply_accepts(t),
        None => false,
    }
}

/// The ladder that is used where none was set up.
pub open spec fn default_ladder() -> Seq<GoCandidate> {
    seq![
        GoCandidate {
            freq_mhz: 2412,
            band: GoBand::Band24,
            max_resolution: (1280, 720),
            label: "2.4GHz ch1",
        },
        GoCandidate {
            freq_mhz: 0,
            band: GoBand::Band24,
            max_resolution: (1280, 720),
            label: "driver-chosen",
        },
    ]
}

/// A sequence that starts at a place and goes round.
pub open spec fn rotated(s: Seq<GoCandidate>, by: int) -> Seq<GoCandidate> {
    s.skip(by) + s.take(by)
}

/// The ladder that is used: the one that was set up or the default one, from
/// the rung on to which the rotation has come.
pub open spec fn ladder_of(candidates: Seq<GoCandidate>, offset: int) -> Seq<GoCandidate> {
    let base = if candidates.len() == 0 {
        default_ladder()
    } else {
        candidates
    };
    rotated(base, offset % base.len() as int)
}

/// The rotated ladder has the same rungs as the one that was set up.
pub proof fn law_rotation_keeps_every_rung(s: Seq<GoCandidate>, offset: int)
    requires
        s.len() > 0,
        offset >= 0,
    ensures
        ladder_of(s, offset).to_multiset() == s.to_multiset(),
        ladder_of(s, offset).len() == s.len(),
        ladder_of(s, offset)[0] == s[offset % s.len() as int],
        ladder_of(s, s.len() as int) == s,
{
    let by = offset % s.len() as int;
    vstd::seq_lib::lemma_multiset_commutative(s.skip(by), s.take(by));
    vstd::seq_lib::lemma_multiset_commutative(s.take(by), s.skip(by));
    assert(s.take(by) + s.skip(by) =~= s);
    assert(s.len() as int % s.len() as int == 0) by (nonlinear_arith)
        requires
            s.len() > 0,
    ;
    assert(s.skip(0) + s.take(0) =~= s);
}

/// The frequency that a status names, as text; nothing where it names none.
pub open spec fn freq_in(ls: Seq<Seq<char>>) -> Seq<char>
    decreases ls.len(),
{
    if ls.len() == 0 {
        Seq::empty()
    } else if "freq="@.is_prefix_of(ls[0]) {
        trim(ls[0].skip(5))
    } else {
        freq_in(ls.skip(1))
    }
}

/// Whether a group with this status runs in the band that was asked for. In the
/// lower band only a frequency that begins with a five speaks against it.
pub open spec fn runs_in_band(band: GoBand, status: Seq<char>) -> bool {
    let five = "5"@.is_prefix_of(freq_in(lines(status)));
    match band {
        GoBand::Band24 => !five,
        GoBand::Band5 => five,
    }
}

/// Tells whether a group with this status runs in the band that was asked for.
pub fn status_fits(band: GoBand, status: &str) -> (r: bool)
    ensures
        r == runs_in_band(band, status@),
{
    proof {
        reveal_strlit("freq=");
    }
    let all: Vec<char> = text::chars_of(status);
    let ls: Vec<Vec<char>> = text::lines_of(all.as_slice());
    let ghost gs = texts(ls@);
    let mut freq: Vec<char> = Vec::new();
    let mut found: bool = false;
    let mut i: usize = 0;
    assert(gs.skip(0) =~= gs);
    while i < ls.len() && !found
        invariant
            i <= ls@.len(),
            gs == texts(ls@),
            "freq="@.len() == 5,
            found ==> freq@ == freq_in(gs),
            !found ==> freq@.len() == 0 && freq_in(gs) == freq_in(gs.skip(i as int)),
        decreases ls.len() - i,
    {
        let line: &[char] = ls[i].as_slice();
        assert(gs.skip(i as int)[0] == line@);
        assert(gs.skip(i as int).skip(1) =~= gs.skip(i + 1));
        if text::begins_with(line, "freq=") {
            let rest: &[char] = vstd::slice::slice_subrange(line, 5, line.len());
            assert(rest@ =~= line@.skip(5));
            freq = text::copied(text::trimmed(rest));
            found = true;
        }
        i += 1;
    }
    assert(freq@ =~= freq_in(gs));
    let five: bool = text::begins_with(freq.as_slice(), "5");
    match band {
        GoBand::Band24 => !five,
        GoBand::Band5 => five,
    }
}

/// Where the bring-up of the group stands.
#[derive(Debug, Clone, Copy, PartialEq, Eq, Structural)]
pub enum Phase {
    /// The group of the present rung is asked for.
    Adding,
    /// Its interface is waited for.
    Waiting,
    /// Its status is asked for.
    Checking,
    /// It is taken down again.
    Removing,
    /// The group is up.
    Up,
    /// No rung holds.
    Failed,
}

/// The phase and the rung that follow a rung that does not hold.
pub open spec fn after_rung(len: int, rung: int) -> (Phase, int) {
    if rung + 1 < len {
        (Phase::Adding, rung + 1)
    } else {
        (Phase::Failed, rung)
    }
}

/// Where the bring-up stands after the reply to the request for a group.
pub open spec fn on_reply(len: int, rung: int, reply: Seq<char>) -> (Phase, int) {
    if contains(reply, "FAIL"@) {
        after_rung(len, rung)
    } else {
        (Phase::Waiting, rung)
    }
}

/// Where the bring-up stands after the wait for a group interface.
pub open spec fn on_interface(len: int, rung: int, appeared: bool) -> (Phase, int) {
    if appeared {
        (Phase::Checking, rung)
    } else {
        after_rung(len, rung)
    }
}

/// Where the bring-up stands after the status of the group interface. One that
/// cannot be read counts in favour.
pub open spec fn on_status(band: GoBand, rung: int, status: Option<Seq<char>>) -> (Phase, int) {
    match status {
        Some(t) => if runs_in_band(band, t) {
            (Phase::Up, rung)
        } else {
            (Phase::Removing, rung)
        },
        None => (Phase::Up, rung),
    }
}

/// What the bring-up asks for or has come to.
#[derive(Debug)]
pub enum BringUpStep {
    /// Ask for a group in this way.
    AddGroup(WpaCommand),
    /// Wait for a new group interface.
    AwaitInterface,
    /// Ask for the status of this interface.
    ReadStatus(String),
    /// Remove the group on this interface; a failure does not matter.
    RemoveGroup(String),
    /// The group is up on this interface, with this resolution to offer.
    Up(String, (u32, u32)),
    /// The group cannot be brought up.
    Failed(BackendError),
}

/// The bring-up of the group: the ladder, the rung that is tried, and how far
/// it has come.
#[derive(Debug)]
pub struct BringUp {
    pub ladder: Vec<GoCandidate>,
    pub rung: usize,
    pub phase: Phase,
    pub group_interface: String,
}

impl BringUp {
    /// Whether the rung that is tried exists.
    pub open spec fn wf(&self) -> bool {
        self.phase == Phase::Failed || self.rung < self.ladder@.len()
    }

    /// Starts at the first rung.
    pub fn new(ladder: Vec<GoCandidate>) -> (r: BringUp)
        ensures
            r.wf(),
            r.ladder == ladder,
            r.rung == 0,
            r.phase == if ladder@.len() > 0 {
                Phase::Adding
            } else {
                Phase::Failed
            },
            r.group_interface@ == Seq::<char>::empty(),
    {
        let phase: Phase = if ladder.len() > 0 {
            Phase::Adding
        } else {
            Phase::Failed
        };
        BringUp { ladder, rung: 0, phase, group_interface: String::new() }
    }

    /// What is to be done next, or what has come of it.
    pub fn step(&self) -> (r: BringUpStep)
        requires
            self.wf(),
        ensures
            match self.phase {
                Phase::Adding => r matches BringUpStep::AddGroup(c) && c@ == group_add(
                    self.ladder@[self.rung as int].freq_mhz as int,
                ),
                Phase::Waiting => r is AwaitInterface,
                Phase::Checking => r matches BringUpStep::ReadStatus(i) && i@
                    == self.group_interface@,
                Phase::Removing => r matches BringUpStep::RemoveGroup(i) && i@
                    == self.group_interface@,
                Phase::Up => r matches BringUpStep::Up(i, res) && i@ == self.group_interface@ && res
                    == self.ladder@[self.rung as int].max_resolution,
                Phase::Failed => r matches BringUpStep::Failed(e) && e@
                    == BackendErrorModel::Runtime(
                    "GO bring-up failed on all candidate configs (see per-rung warnings)"@,
                ),
            },
    {
        match self.phase {
            Phase::Adding => BringUpStep::AddGroup(group_add_command(&self.ladder[self.rung])),
            Phase::Waiting => BringUpStep::AwaitInterface,
            Phase::Checking => BringUpStep::ReadStatus(self.group_interface.clone()),
            Phase::Removing => BringUpStep::RemoveGroup(self.group_interface.clone()),
            Phase::Up => BringUpStep::Up(
                self.group_interface.clone(),
                self.ladder[self.rung].max_resolution,
            ),
            Phase::Failed => BringUpStep::Failed(
                BackendError::Runtime(
                    "GO bring-up failed on all candidate configs (see per-rung warnings)".to_owned(),
                ),
            ),
        }
    }

    /// How far the bring-up has come.
    pub open spec fn at(&self) -> (Phase, int) {
        (self.phase, self.rung as int)
    }

    fn next_rung(&mut self)
        requires
            old(self).wf(),
            old(self).phase != Phase::Failed,
        ensures
            final(self).wf(),
            final(self).ladder == old(self).ladder,
            final(self).group_interface == old(self).group_interface,
            final(self).at() == after_rung(old(self).ladder@.len() as int, old(self).rung as int),
    {
        if self.rung < self.ladder.len() - 1 {
            self.rung = self.rung + 1;
            self.phase = Phase::Adding;
        } else {
            self.phase = Phase::Failed;
        }
    }

    /// Takes the reply to the request for a group.
    pub fn group_added(&mut self, reply: &str)
        requires
            old(self).wf(),
            old(self).phase == Phase::Adding,
        ensures
            final(self).wf(),
            final(self).ladder == old(self).ladder,
            final(self).group_interface == old(self).group_interface,
            final(self).at() == on_reply(
                old(self).ladder@.len() as int,
                old(self).rung as int,
                reply@,
            ),
    {
        if reply_accepts(reply) {
            self.phase = Phase::Waiting;
        } else {
            self.next_rung();
        }
    }

    /// Takes the new group interface, or that none came up in time.
    pub fn interface_appeared(&mut self, interface: Option<String>)
        requires
            old(self).wf(),
            old(self).phase == Phase::Waiting,
        ensures
            final(self).wf(),
            final(self).ladder == old(self).ladder,
            final(self).at() == on_interface(
                old(self).ladder@.len() as int,
                old(self).rung as int,
                interface is Some,
            ),
            final(self).group_interface@ == match interface {
                Some(i) => i@,
                None => old(self).group_interface@,
            },
    {
        match interface {
            Some(i) => {
                self.group_interface = i;
                self.phase = Phase::Checking;
            },
            None => {
                self.next_rung();
            },
        }
    }

    /// Takes the status of the group interface. One that cannot be read counts
    /// in favour.
    pub fn status_read(&mut self, status: Option<&str>)
        requires
            old(self).wf(),
            old(self).phase == Phase::Checking,
        ensures
            final(self).wf(),
            final(self).ladder == old(self).ladder,
            final(self).group_interface == old(self).group_interface,
            final(self).at() == on_status(
                old(self).ladder@[old(self).rung as int].band,
                old(self).rung as int,
                maybe_text(status),
            ),
    {
        let fits: bool = match status {
            Some(t) => status_fits(self.ladder[self.rung].band, t),
            None => true,
        };
        if fits {
            self.phase = Phase::Up;
        } else {
            self.phase = Phase::Removing;
        }
    }

    /// Takes that the group has been taken down again.
    pub fn group_removed(&mut self)
        requires
            old(self).wf(),
            old(self).phase == Phase::Removing,
        ensures
            final(self).wf(),
            final(self).ladder == old(self).ladder,
            final(self).group_interface == old(self).group_interface,
            final(self).at() == after_rung(old(self).ladder@.len() as int, old(self).rung as int),
    {
        self.next_rung();
    }
}

/// What came back at each rung of a ladder: the reply, the interface, and the
/// status, as far as they were asked for.
pub struct RungOutcome {
    pub reply: Seq<char>,
    pub interface: Option<Seq<char>>,
    pub status: Option<Seq<char>>,
}

/// Whether a rung holds.
pub open spec fn rung_holds(c: GoCandidate, o: RungOutcome) -> bool {
    !contains(o.reply, "FAIL"@) && o.interface is Some && (o.status matches Some(t)
        ==> runs_in_band(c.band, t))
}

/// Where the bring-up stands after all that came back at a rung.
pub open spec fn try_rung(ladder: Seq<GoCandidate>, rung: int, o: RungOutcome) -> (Phase, int) {
    let len = ladder.len() as int;
    let asked = on_reply(len, rung, o.reply);
    if asked.0 != Phase::Waiting {
        asked
    } else {
        let awaited = on_interface(len, rung, o.interface is Some);
        if awaited.0 != Phase::Checking {
            awaited
        } else {
            let checked = on_status(ladder[rung].band, rung, o.status);
            if checked.0 == Phase::Removing {
                after_rung(len, rung)
            } else {
                checked
            }
        }
    }
}

/// Where the bring-up ends when it goes on from a rung.
pub open spec fn climb(ladder: Seq<GoCandidate>, os: Seq<RungOutcome>, rung: int) -> (Phase, int)
    decreases ladder.len() - rung,
{
    if rung < 0 || rung >= ladder.len() {
        (Phase::Failed, rung)
    } else {
        let at = try_rung(ladder, rung, os[rung]);
        if at.0 == Phase::Adding && at.1 > rung {
            climb(ladder, os, at.1)
        } else {
            at
        }
    }
}

proof fn lemma_climb(ladder: Seq<GoCandidate>, os: Seq<RungOutcome>, rung: int)
    requires
        os.len() == ladder.len(),
        0 <= rung < ladder.len(),
    ensures
        ({
            let end = climb(ladder, os, rung);
            &&& rung <= end.1 < ladder.len()
            &&& end.0 == Phase::Up || end.0 == Phase::Failed
            &&& end.0 == Phase::Up ==> rung_holds(ladder[end.1], os[end.1])
            &&& forall|i: int| rung <= i < end.1 ==> !rung_holds(#[trigger] ladder[i], os[i])
            &&& end.0 == Phase::Failed ==> forall|i: int|
                rung <= i < ladder.len() ==> !rung_holds(#[trigger] ladder[i], os[i])
        }),
    decreases ladder.len() - rung,
{
    if !rung_holds(ladder[rung], os[rung]) && rung + 1 < ladder.len() {
        lemma_climb(ladder, os, rung + 1);
    }
}

/// The bring-up settles on the first rung that holds: its group is accepted, its
/// interface comes up, and it runs in its band as far as can be told. Where no
/// rung holds the bring-up fails.
pub proof fn law_first_holding_rung_wins(ladder: Seq<GoCandidate>, os: Seq<RungOutcome>)
    requires
        os.len() == ladder.len(),
        ladder.len() > 0,
    ensures
        ({
            let end = climb(ladder, os, 0);
            &&& end.0 == Phase::Up ==> 0 <= end.1 < ladder.len() && rung_holds(
                ladder[end.1],
                os[end.1],
            ) && forall|i: int| 0 <= i < end.1 ==> !rung_holds(#[trigger] ladder[i], os[i])
            &&& end.0 != Phase::Up ==> end.0 == Phase::Failed && forall|i: int|
                0 <= i < ladder.len() ==> !rung_holds(#[trigger] ladder[i], os[i])
        }),
{
    lemma_climb(ladder, os, 0);
}

/// The backend over wpa_cli: where its supplicant listens, which interface it
/// drives, the ladder, the resolution that was won, and how far the ladder has
/// been rotated.
#[derive(Debug)]
pub struct WpaCliBackend {
    pub ctrl_path: Option<String>,
    pub p2p_interface: Option<String>,
    pub go_candidates: Vec<GoCandidate>,
    pub won_resolution: (u32, u32),
    pub rotation_offset: usize,
}

/// Whether a rung is a social channel of the lower band.
pub open spec fn is_social(c: GoCandidate) -> bool {
    c.band == GoBand::Band24 && c.freq_mhz != 0
}

/// The rungs that are social channels.
pub open spec fn social(s: Seq<GoCandidate>) -> Seq<GoCandidate> {
    s.filter(|c: GoCandidate| is_social(c))
}

impl WpaCliBackend {
    /// A backend with nothing set but where its supplicant listens.
    pub fn new(ctrl_path: Option<String>) -> (r: WpaCliBackend)
        ensures
            r.ctrl_path == ctrl_path,
            r.p2p_interface is None,
            r.go_candidates@ == Seq::<GoCandidate>::empty(),
            r.won_resolution == (1280u32, 720u32),
            r.rotation_offset == 0,
    {
        WpaCliBackend {
            ctrl_path,
            p2p_interface: None,
            go_candidates: Vec::new(),
            won_resolution: (1280, 720),
            rotation_offset: 0,
        }
    }

    /// The backend with a ladder, and the resolution that holds until a rung is
    /// won.
    pub fn with_go_candidates(self, candidates: Vec<GoCandidate>, won_resolution: (u32, u32)) -> (r:
        WpaCliBackend)
        ensures
            r == (WpaCliBackend { go_candidates: candidates, won_resolution, ..self }),
    {
        WpaCliBackend {
            ctrl_path: self.ctrl_path,
            p2p_interface: self.p2p_interface,
            go_candidates: candidates,
            won_resolution,
            rotation_offset: self.rotation_offset,
        }
    }

    /// The backend with an interface, or with none.
    pub fn with_interface(self, iface: Option<String>) -> (r: WpaCliBackend)
        ensures
            r == (WpaCliBackend { p2p_interface: iface, ..self }),
    {
        WpaCliBackend {
            ctrl_path: self.ctrl_path,
            p2p_interface: iface,
            go_candidates: self.go_candidates,
            won_resolution: self.won_resolution,
            rotation_offset: self.rotation_offset,
        }
    }

    /// The ladder for the next bring-up.
    pub fn ladder(&self) -> (r: Vec<GoCandidate>)
        ensures
            r@ == ladder_of(self.go_candidates@, self.rotation_offset as int),
            r@.len() > 0,
    {
        let mut base: Vec<GoCandidate> = Vec::new();
        if self.go_candidates.len() == 0 {
            base.push(
                GoCandidate {
                    freq_mhz: 2412,
                    band: GoBand::Band24,
                    max_resolution: (1280, 720),
                    label: "2.4GHz ch1",
                },
            );
            base.push(
                GoCandidate {
                    freq_mhz: 0,
                    band: GoBand::Band24,
                    max_resolution: (1280, 720),
                    label: "driver-chosen",
                },
            );
            assert(base@ =~= default_ladder());
        } else {
            let mut i: usize = 0;
            while i < self.go_candidates.len()
                invariant
                    i <= self.go_candidates@.len(),
                    base@ == self.go_candidates@.take(i as int),
                decreases self.go_candidates.len() - i,
            {
                base.push(self.go_candidates[i]);
                assert(self.go_candidates@.take(i + 1) =~= self.go_candidates@.take(i as int).push(
                    self.go_candidates@[i as int],
                ));
                i += 1;
            }
            assert(base@ =~= self.go_candidates@);
        }
        let n: usize = base.len();
        let by: usize = self.rotation_offset % n;
        let mut out: Vec<GoCandidate> = Vec::new();
        let mut j: usize = 0;
        let ghost want = rotated(base@, by as int);
        while j < n
            invariant
                j <= n,
                n == base@.len(),
                by < n,
                want == rotated(base@, by as int),
                out@ == want.take(j as int),
            decreases n - j,
        {
            let k: usize = if j < n - by {
                j + by
            } else {
                j - (n - by)
            };
            out.push(base[k]);
            assert(want[j as int] == base@[k as int]);
            assert(want.take(j + 1) =~= want.take(j as int).push(want[j as int]));
            j += 1;
        }
        assert(want.take(n as int) =~= want);
        out
    }

    /// Moves on to the next social channel and names it; nothing is left where
    /// all of them have been tried.
    pub fn rotate_discovery_channel(&mut self) -> (r: Option<String>)
        requires
            old(self).rotation_offset < usize::MAX,
        ensures
            final(self).rotation_offset == old(self).rotation_offset + 1,
            final(self).go_candidates == old(self).go_candidates,
            final(self).ctrl_path == old(self).ctrl_path,
            final(self).p2p_interface == old(self).p2p_interface,
            final(self).won_resolution == old(self).won_resolution,
            match r {
                Some(l) => final(self).rotation_offset < social(old(self).go_candidates@).len()
                    && l@ == social(
                    old(self).go_candidates@,
                )[final(self).rotation_offset as int].label@,
                None => final(self).rotation_offset >= social(old(self).go_candidates@).len(),
            },
    {
        let mut found: Vec<GoCandidate> = Vec::new();
        let ghost all = self.go_candidates@;
        let mut i: usize = 0;
        proof {
            reveal(Seq::filter);
        }
        while i < self.go_candidates.len()
            invariant
                i <= self.go_candidates@.len(),
                all == self.go_candidates@,
                *self == *old(self),
                found@ == social(all.take(i as int)),
            decreases self.go_candidates.len() - i,
        {
            reveal(Seq::filter);
            assert(all.take(i + 1).drop_last() =~= all.take(i as int));
            let c: GoCandidate = self.go_candidates[i];
            if c.band == GoBand::Band24 && c.freq_mhz != 0 {
                found.push(c);
            }
            i += 1;
        }
        assert(all.take(all.len() as int) =~= all);
        let next: usize = self.rotation_offset + 1;
        self.rotation_offset = next;
        if next < found.len() {
            Some(found[next].label.to_owned())
        } else {
            None
        }
    }
}

/// A text without the colons at its end.
pub open spec fn without_colons(s: Seq<char>) -> Seq<char>
    decreases s.len(),
{
    if s.len() > 0 && s.last() == ':' {
        without_colons(s.drop_last())
    } else {
        s
    }
}

/// The group interface that a line of `ip link` describes.
pub open spec fn interface_in(line: Seq<char>) -> Option<Seq<char>> {
    let parts = split_on(line, ": "@);
    let name = trim(without_colons(split_char(parts[1], '@')[0]));
    if contains(line, ": p2p-"@) && parts.len() >= 2 && name.len() > 0 {
        Some(name)
    } else {
        None
    }
}

/// The group interfaces that lines of `ip link` describe.
pub open spec fn interfaces_in(ls: Seq<Seq<char>>) -> Seq<Seq<char>>
    decreases ls.len(),
{
    if ls.len() == 0 {
        Seq::empty()
    } else {
        match interface_in(ls.last()) {
            Some(n) => interfaces_in(ls.drop_last()).push(n),
            None => interfaces_in(ls.drop_last()),
        }
    }
}

fn read_interface(line: &[char]) -> (r: Option<String>)
    ensures
        match r {
            Some(n) => interface_in(line@) == Some(n@),
            None => interface_in(line@) is None,
        },
{
    proof {
        reveal_strlit(": ");
    }
    if !text::holds(line, ": p2p-") {
        return None;
    }
    let parts: Vec<Vec<char>> = text::pieces_on(line, ": ");
    if parts.len() < 2 {
        return None;
    }
    assert(texts(parts@)[1] == parts@[1]@);
    let names: Vec<Vec<char>> = text::pieces(parts[1].as_slice(), '@');
    assert(texts(names@)[0] == names@[0]@);
    let name: &[char] = names[0].as_slice();
    let mut n: usize = name.len();
    assert(name@.take(n as int) =~= name@);
    while n > 0 && name[n - 1] == ':'
        invariant
            n <= name@.len(),
            without_colons(name@.take(n as int)) == without_colons(name@),
        decreases n,
    {
        assert(name@.take(n as int).drop_last() =~= name@.take(n - 1));
        n -= 1;
    }
    let bare: &[char] = vstd::slice::slice_subrange(name, 0, n);
    assert(bare@ =~= name@.take(n as int));
    let t: &[char] = text::trimmed(bare);
    if t.len() > 0 {
        Some(text::string_of(t))
    } else {
        None
    }
}

/// Lists the group interfaces out of what `ip link` wrote.
pub fn list_group_interfaces(output: &str) -> (r: Vec<String>)
    ensures
        strs(r@) == interfaces_in(lines(output@)),
{
    let all: Vec<char> = text::chars_of(output);
    let ls: Vec<Vec<char>> = text::lines_of(all.as_slice());
    let ghost gs = texts(ls@);
    let mut out: Vec<String> = Vec::new();
    let mut i: usize = 0;
    assert(strs(out@) =~= interfaces_in(gs.take(0)));
    while i < ls.len()
        invariant
            i <= ls@.len(),
            gs == texts(ls@),
            strs(out@) == interfaces_in(gs.take(i as int)),
        decreases ls.len() - i,
    {
        assert(gs.take(i + 1).drop_last() =~= gs.take(i as int));
        let ghost before = strs(out@);
        if let Some(n) = read_interface(ls[i].as_slice()) {
            let ghost nv = n@;
            out.push(n);
            assert(strs(out@) =~= before.push(nv));
        }
        i += 1;
    }
    assert(gs.take(gs.len() as int) =~= gs);
    out
}

/// The first group interface, out of what `ip link` wrote.
pub fn parse_group_interface(output: &str) -> (r: Option<String>)
    ensures
        match r {
            Some(n) => interfaces_in(lines(output@)).len() > 0 && n@ == interfaces_in(
                lines(output@),
            )[0],
            None => interfaces_in(lines(output@)).len() == 0,
        },
{
    let found: Vec<String> = list_group_interfaces(output);
    assert(found@.len() > 0 ==> strs(found@)[0] == found@[0]@);
    assert(strs(found@).len() == found@.len());
    if found.len() > 0 {
        Some(found[0].clone())
    } else {
        None
    }
}

/// The first name that is not among the known ones.
pub open spec fn first_new(current: Seq<Seq<char>>, known: Seq<Seq<char>>) -> Option<Seq<char>>
    decreases current.len(),
{
    if current.len() == 0 {
        None
    } else if !known.contains(current[0]) {
        Some(current[0])
    } else {
        first_new(current.skip(1), known)
    }
}

fn is_known(known: &Vec<String>, name: &str) -> (r: bool)
    ensures
        r == strs(known@).contains(name@),
{
    let ghost ks = strs(known@);
    let mut i: usize = 0;
    while i < known.len()
        invariant
            i <= known@.len(),
            ks == strs(known@),
            forall|j: int| 0 <= j < i ==> ks[j] != name@,
        decreases known.len() - i,
    {
        if text::same_str(known[i].as_str(), name) {
            assert(ks[i as int] == name@);
            return true;
        }
        i += 1;
    }
    false
}

/// Finds the group interface that has appeared since the given ones were
/// listed, so that one left by an earlier run is not taken for it.
pub fn new_group_interface(current: &Vec<String>, known: &Vec<String>) -> (r: Option<String>)
    ensures
        match r {
            Some(n) => first_new(strs(current@), strs(known@)) == Some(n@),
            None => first_new(strs(current@), strs(known@)) is None,
        },
{
    let ghost cs = strs(current@);
    let mut i: usize = 0;
    assert(cs.skip(0) =~= cs);
    while i < current.len()
        invariant
            i <= current@.len(),
            cs == strs(current@),
            first_new(cs, strs(known@)) == first_new(cs.skip(i as int), strs(known@)),
        decreases current.len() - i,
    {
        assert(cs.skip(i as int)[0] == current@[i as int]@);
        assert(cs.skip(i as int).skip(1) =~= cs.skip(i + 1));
        if !is_known(known, current[i].as_str()) {
            return Some(current[i].clone());
        }
        i += 1;
    }
    None
}

/// An interface that existed before is never taken for the new group, and one
/// that did not is found.
pub proof fn law_stale_group_is_ignored(current: Seq<Seq<char>>, known: Seq<Seq<char>>)
    ensures
        match first_new(current, known) {
            Some(n) => current.contains(n) && !known.contains(n),
            None => forall|i: int| 0 <= i < current.len() ==> known.contains(#[trigger] current[i]),
        },
    decreases current.len(),
{
    if current.len() > 0 && known.contains(current[0]) {
        let rest = current.skip(1);
        law_stale_group_is_ignored(rest, known);
        assert forall|i: int| 0 < i < current.len() implies current[i] == rest[i - 1] by {}
        match first_new(current, known) {
            Some(n) => {
                let k = choose|k: int| 0 <= k < rest.len() && rest[k] == n;
                assert(current[k + 1] == n);
            },
            None => {
                assert forall|i: int| 0 <= i < current.len() implies known.contains(
                    #[trigger] current[i],
                ) by {
                    if i > 0 {
                        assert(current[i] == rest[i - 1]);
                    }
                }
            },
        }
    }
}

/// What the event monitor does next.
#[derive(Debug)]
pub enum ReportStep {
    /// Read on.
    Continue,
    /// Report this and read on.
    Report(P2pEvent),
    /// Report this and stop.
    ReportAndStop(P2pEvent),
    /// Stop.
    Stop,
}

/// A step as contracts see it.
pub enum ReportModel {
    Continue,
    Report(EventModel),
    ReportAndStop(EventModel),
    Stop,
}

impl View for ReportStep {
    type V = ReportModel;

    open spec fn view(&self) -> ReportModel {
        match self {
            ReportStep::Continue => ReportModel::Continue,
            ReportStep::Report(e) => ReportModel::Report(e@),
            ReportStep::ReportAndStop(e) => ReportModel::ReportAndStop(e@),
            ReportStep::Stop => ReportModel::Stop,
        }
    }
}

/// What is reported of a line. The address of a station is put in lower case.
pub open spec fn report_of(raw: Seq<char>) -> ReportModel {
    match event_text(raw) {
        None => ReportModel::Continue,
        Some(t) => match meaning(t) {
            GroupEventModel::StationConnected(mac) => ReportModel::Report(
                EventModel::PeerConnected(ascii_lower(mac)),
            ),
            GroupEventModel::PinNeeded => ReportModel::Report(EventModel::WpsPinNeeded),
            GroupEventModel::StationDisconnected => ReportModel::Report(
                EventModel::PeerDisconnected,
            ),
            GroupEventModel::GroupRemoved => ReportModel::ReportAndStop(EventModel::GroupRemoved),
            GroupEventModel::Other => ReportModel::Continue,
        },
    }
}

/// Decides what the event monitor reports after a read.
pub fn report_step(read: MonitorRead<'_>) -> (r: ReportStep)
    ensures
        r@ == match read {
            MonitorRead::End => ReportModel::Stop,
            MonitorRead::Failed { died } => if died {
                ReportModel::Stop
            } else {
                ReportModel::Continue
            },
            MonitorRead::Line(raw) => report_of(raw@),
        },
{
    match read {
        MonitorRead::End => ReportStep::Stop,
        MonitorRead::Failed { died } => if died {
            ReportStep::Stop
        } else {
            ReportStep::Continue
        },
        MonitorRead::Line(raw) => match clean_event_line(raw) {
            None => ReportStep::Continue,
            Some(t) => match classify_event(t.as_str()) {
                GroupEvent::StationConnected(mac) => {
                    let all: Vec<char> = text::chars_of(mac.as_str());
                    let low: Vec<char> = text::lowered(all.as_slice());
                    ReportStep::Report(
                        P2pEvent::PeerConnected { mac: text::string_of(low.as_slice()) },
                    )
                },
                GroupEvent::PinNeeded => ReportStep::Report(P2pEvent::WpsPinNeeded),
                GroupEvent::StationDisconnected => ReportStep::Report(P2pEvent::PeerDisconnected),
                GroupEvent::GroupRemoved => ReportStep::ReportAndStop(P2pEvent::GroupRemoved),
                GroupEvent::Other => ReportStep::Continue,
            },
        },
    }
}

/// Whether the PIN is to be armed again.
pub fn rearm_due(elapsed_secs: u64) -> (r: bool)
    ensures
        r == (elapsed_secs >= WPS_REARM_SECS),
{
    elapsed_secs >= WPS_REARM_SECS
}

/// The seconds for which the last word of a command that arms a PIN keeps it
/// armed.
pub open spec fn armed_seconds() -> Option<int> {
    as_unsigned(WPS_PIN_TIMEOUT_SECS@, 10, u64::MAX as int)
}

/// A PIN is armed again before it lapses: as long as that is not due, it is
/// still armed.
pub proof fn law_pin_does_not_lapse(elapsed_secs: u64)
    ensures
        armed_seconds() matches Some(n) && (elapsed_secs < WPS_REARM_SECS ==> elapsed_secs < n),
{
    reveal_strlit("300");
    let t = WPS_PIN_TIMEOUT_SECS@;
    reveal_with_fuel(digits_value, 4);
    assert(t.drop_last() =~= seq!['3', '0']);
    assert(t.drop_last().drop_last() =~= seq!['3']);
    assert(t.drop_last().drop_last().drop_last() =~= Seq::<char>::empty());
}

/// The report of a monitor that could not be started.
pub fn monitor_not_started(reason: &str) -> (r: P2pEvent)
    ensures
        r@ == EventModel::Error("Failed to start event monitor: "@ + reason@),
{
    P2pEvent::Error(text::joined("Failed to start event monitor: ".to_owned(), reason))
}

/// The report of a wpa_cli that ended at once, with what it wrote.
pub fn monitor_ended_at_once(stderr: &str) -> (r: P2pEvent)
    ensures
        r@ == EventModel::Error("wpa_cli failed: "@ + trim(stderr@)),
{
    let all: Vec<char> = text::chars_of(stderr);
    let t: String = text::string_of(text::trimmed(all.as_slice()));
    P2pEvent::Error(text::joined("wpa_cli failed: ".to_owned(), t.as_str()))
}

} // verus!
