//! The advertiser: the sink makes itself known by owning a Wi-Fi Direct group.

pub use crate::p2p_backend::cli::{
    encode_wfd_device_info, WFD_ASSOCIATED_BSSID_SUBELEMENT, WFD_COUPLED_SINK_SUBELEMENT,
};

use vstd::prelude::*;
use crate::p2p_backend::cli::{
    checked, command2, command_views, remove_group_command, reply_accepts, setup, setup_commands,
    CommandModel, WpaCommand,
};
use crate::text;
use crate::text::contains;
use crate::utils::{words_of_error, WpaError, WpaErrorModel};

verus! {

/// The advertiser: what it announces, where, and whether it does.
#[derive(Debug)]
pub struct MiracastAdvertiser {
    pub device_name: String,
    pub rtsp_port: u16,
    pub p2p_interface: Option<String>,
    pub ctrl_path: Option<String>,
    pub group_interface: Option<String>,
    pub advertising: bool,
}

/// An optional string as contracts see it.
pub open spec fn maybe(t: Option<String>) -> Option<Seq<char>> {
    match t {
        Some(s) => Some(s@),
        None => None,
    }
}

fn copy_of(t: &Option<String>) -> (r: Option<String>)
    ensures
        maybe(r) == maybe(*t),
{
    match t {
        Some(s) => Some(s.clone()),
        None => None,
    }
}

/// What ends the advertising: the group to remove, if there is one.
#[derive(Debug)]
pub struct StopPlan {
    pub remove: Option<WpaCommand>,
}

/// Whether the sink is announced, and in which group.
pub struct Announcement {
    pub advertising: bool,
    pub group: Option<Seq<char>>,
}

/// The announcement in a group that has come up.
pub open spec fn announced(group: Seq<char>) -> Announcement {
    Announcement { advertising: true, group: Some(group) }
}

/// What is left once the sink is no longer announced, and the command that
/// removes its group. Without an announcement nothing changes.
pub open spec fn withdrawn(s: Announcement) -> (Announcement, Option<CommandModel>) {
    if s.advertising {
        (
            Announcement { advertising: false, group: None },
            match s.group {
                Some(g) => Some(checked(seq!["p2p_group_remove"@, g])),
                None => None,
            },
        )
    } else {
        (s, None)
    }
}

/// The group that was brought up is the one that is removed, and a second
/// withdrawal does nothing.
pub proof fn law_announcement_is_withdrawn_once(s: Announcement, group: Seq<char>)
    ensures
        withdrawn(announced(group)).1 == Some(checked(seq!["p2p_group_remove"@, group])),
        !withdrawn(s).0.advertising,
        withdrawn(withdrawn(s).0) == (withdrawn(s).0, None::<CommandModel>),
{
}

impl MiracastAdvertiser {
    /// Whether the sink is announced, and in which group.
    pub open spec fn announcement(&self) -> Announcement {
        Announcement { advertising: self.advertising, group: maybe(self.group_interface) }
    }

    /// Whether the advertiser advertises only with a group.
    pub open spec fn wf(&self) -> bool {
        self.advertising ==> self.group_interface is Some
    }

    /// An advertiser that does not advertise yet.
    pub fn new(
        device_name: &str,
        rtsp_port: u16,
        p2p_interface: Option<String>,
        ctrl_path: Option<String>,
    ) -> (r: MiracastAdvertiser)
        ensures
            r.wf(),
            r.device_name@ == device_name@,
            r.rtsp_port == rtsp_port,
            r.p2p_interface == p2p_interface,
            r.ctrl_path == ctrl_path,
            r.group_interface is None,
            !r.advertising,
    {
        MiracastAdvertiser {
            device_name: device_name.to_owned(),
            rtsp_port,
            p2p_interface,
            ctrl_path,
            group_interface: None,
            advertising: false,
        }
    }

    /// Whether the sink is announced.
    pub fn is_advertising(&self) -> (r: bool)
        ensures
            r == self.advertising,
    {
        self.advertising
    }

    /// The interface of Wi-Fi Direct.
    pub fn p2p_interface(&self) -> (r: Option<String>)
        ensures
            maybe(r) == maybe(self.p2p_interface),
    {
        copy_of(&self.p2p_interface)
    }

    /// Where the supplicant listens.
    pub fn ctrl_path(&self) -> (r: Option<String>)
        ensures
            maybe(r) == maybe(self.ctrl_path),
    {
        copy_of(&self.ctrl_path)
    }

    /// The interface of the group.
    pub fn group_interface(&self) -> (r: Option<String>)
        ensures
            maybe(r) == maybe(self.group_interface),
    {
        copy_of(&self.group_interface)
    }

    /// Sets the interface of Wi-Fi Direct.
    pub fn set_p2p_interface(&mut self, iface: &str)
        ensures
            maybe(final(self).p2p_interface) == Some(iface@),
            final(self).device_name == old(self).device_name,
            final(self).rtsp_port == old(self).rtsp_port,
            final(self).ctrl_path == old(self).ctrl_path,
            final(self).group_interface == old(self).group_interface,
            final(self).advertising == old(self).advertising,
    {
        self.p2p_interface = Some(iface.to_owned());
    }

    /// The interface that a command is for: the given one or that of Wi-Fi
    /// Direct.
    pub fn target_interface(&self, interface: Option<&str>) -> (r: String)
        ensures
            r@ == match interface {
                Some(i) => i@,
                None => match self.p2p_interface {
                    Some(p) => p@,
                    None => Seq::empty(),
                },
            },
    {
        match interface {
            Some(i) => i.to_owned(),
            None => match &self.p2p_interface {
                Some(p) => p.clone(),
                None => String::new(),
            },
        }
    }

    /// The commands that announce the sink and create the group, in their
    /// order; the first that fails ends the attempt. Nothing is to be done where
    /// the sink is announced already.
    pub fn start_advertising(&self) -> (r: Option<Vec<WpaCommand>>)
        ensures
            match r {
                Some(v) => !self.advertising && command_views(v@) == setup(
                    self.device_name@,
                    self.rtsp_port as int,
                ).push(checked(seq!["p2p_group_add"@, "persistent"@])),
                None => self.advertising,
            },
    {
        if self.advertising {
            return None;
        }
        let mut v: Vec<WpaCommand> = setup_commands(self.device_name.as_str(), self.rtsp_port);
        let ghost before = command_views(v@);
        let add: WpaCommand = command2("p2p_group_add", "persistent", false);
        let ghost a = add@;
        v.push(add);
        assert(command_views(v@) =~= before.push(a));
        Some(v)
    }

    /// Whether the reply to the request for a group refuses it.
    pub fn group_refused(&self, reply: &str) -> (r: Option<WpaError>)
        ensures
            match r {
                Some(e) => contains(reply@, "FAIL"@) && e@ == WpaErrorModel::Runtime(
                    "p2p_group_add failed: "@ + reply@,
                ),
                None => !contains(reply@, "FAIL"@),
            },
    {
        if reply_accepts(reply) {
            None
        } else {
            Some(
                WpaError::Runtime(text::joined("p2p_group_add failed: ".to_owned(), reply)),
            )
        }
    }

    /// The error of a group whose interface has not appeared in time.
    pub fn group_missing(&self) -> (r: WpaError)
        ensures
            r@ == WpaErrorModel::Runtime("P2P group interface did not appear within 10 seconds"@),
    {
        WpaError::Runtime("P2P group interface did not appear within 10 seconds".to_owned())
    }

    /// The group is up on this interface: the sink is announced.
    pub fn advertising_started(&mut self, group_interface: &str)
        ensures
            final(self).wf(),
            final(self).announcement() == announced(group_interface@),
            final(self).device_name == old(self).device_name,
            final(self).rtsp_port == old(self).rtsp_port,
            final(self).p2p_interface == old(self).p2p_interface,
            final(self).ctrl_path == old(self).ctrl_path,
    {
        self.group_interface = Some(group_interface.to_owned());
        self.advertising = true;
    }

    /// What is told when the sink cannot be announced.
    pub fn start_failure(&self, e: &WpaError) -> (r: String)
        ensures
            r@ == "Failed to start advertising: "@ + words_of_error(e@),
    {
        text::joined("Failed to start advertising: ".to_owned(), e.to_string().as_str())
    }

    /// Ceases to announce the sink. Nothing is to be done where it is not
    /// announced.
    pub fn stop_advertising(&mut self) -> (r: Option<StopPlan>)
        requires
            old(self).wf(),
        ensures
            final(self).wf(),
            final(self).announcement() == withdrawn(old(self).announcement()).0,
            final(self).device_name == old(self).device_name,
            final(self).rtsp_port == old(self).rtsp_port,
            final(self).p2p_interface == old(self).p2p_interface,
            final(self).ctrl_path == old(self).ctrl_path,
            match r {
                None => !old(self).advertising,
                Some(plan) => old(self).advertising && (plan.remove matches Some(c) && withdrawn(
                    old(self).announcement(),
                ).1 == Some(c@)),
            },
    {
        if !self.advertising {
            return None;
        }
        self.advertising = false;
        let remove: Option<WpaCommand> = match &self.group_interface {
            Some(g) => Some(remove_group_command(g.as_str())),
            None => None,
        };
        self.group_interface = None;
        Some(StopPlan { remove })
    }
}

} // verus!
