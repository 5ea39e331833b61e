//! Control of Wi-Fi Direct: what a backend reports, and the decisions of the
//! two backends.

pub mod cli;
pub mod dbus;

use vstd::prelude::*;
use crate::text;
use crate::text::ascii_lower;
use crate::utils::WpaError;

verus! {

/// What a backend reports of the group.
#[derive(Debug, Clone)]
pub enum P2pEvent {
    /// A source has joined. Its address is in lower case.
    PeerConnected { mac: String },
    /// A source has left.
    PeerDisconnected,
    /// The group is gone.
    GroupRemoved,
    /// A source asks for a PIN and none is armed.
    WpsPinNeeded,
    /// Something failed.
    Error(String),
}

/// A report as contracts see it.
pub enum EventModel {
    PeerConnected(Seq<char>),
    PeerDisconnected,
    GroupRemoved,
    WpsPinNeeded,
    Error(Seq<char>),
}

impl View for P2pEvent {
    type V = EventModel;

    open spec fn view(&self) -> EventModel {
        match self {
            P2pEvent::PeerConnected { mac } => EventModel::PeerConnected(mac@),
            P2pEvent::PeerDisconnected => EventModel::PeerDisconnected,
            P2pEvent::GroupRemoved => EventModel::GroupRemoved,
            P2pEvent::WpsPinNeeded => EventModel::WpsPinNeeded,
            P2pEvent::Error(m) => EventModel::Error(m@),
        }
    }
}

/// Why a backend refused or failed.
#[derive(Debug, Clone)]
pub enum BackendError {
    /// A parameter was refused.
    Value(String),
    /// The operation failed.
    Runtime(String),
}

/// An error as contracts see it.
pub enum BackendErrorModel {
    Value(Seq<char>),
    Runtime(Seq<char>),
}

impl View for BackendError {
    type V = BackendErrorModel;

    open spec fn view(&self) -> BackendErrorModel {
        match self {
            BackendError::Value(m) => BackendErrorModel::Value(m@),
            BackendError::Runtime(m) => BackendErrorModel::Runtime(m@),
        }
    }
}

impl BackendError {
    /// The error in words.
    pub fn to_string(&self) -> (r: String)
        ensures
            r@ == match self@ {
                BackendErrorModel::Value(m) => m,
                BackendErrorModel::Runtime(m) => m,
            },
    {
        match self {
            BackendError::Value(m) => m.clone(),
            BackendError::Runtime(m) => m.clone(),
        }
    }
}

impl From<WpaError> for BackendError {
    fn from(e: WpaError) -> (r: BackendError) {
        match e {
            WpaError::Value(m) => BackendError::Value(m),
            WpaError::Runtime(m) => BackendError::Runtime(m),
        }
    }
}

impl vstd::std_specs::convert::FromSpecImpl<WpaError> for BackendError {
    open spec fn obeys_from_spec() -> bool {
        true
    }

    open spec fn from_spec(e: WpaError) -> BackendError {
        match e {
            WpaError::Value(m) => BackendError::Value(m),
            WpaError::Runtime(m) => BackendError::Runtime(m),
        }
    }
}

/// Which backend is used.
#[derive(Debug, Clone, Copy, PartialEq, Eq, Structural)]
pub enum BackendChoice {
    Cli,
    Dbus,
}

/// Picks the backend: the one over D-Bus only where it was asked for, in
/// whatever case, and can be reached.
pub fn choose_backend(wanted: Option<&str>, dbus_available: bool) -> (r: BackendChoice)
    ensures
        r == if (wanted matches Some(w) && ascii_lower(w@) == ascii_lower("dbus"@))
            && dbus_available {
            BackendChoice::Dbus
        } else {
            BackendChoice::Cli
        },
{
    if wants_dbus(wanted) && dbus_available {
        BackendChoice::Dbus
    } else {
        BackendChoice::Cli
    }
}

/// Whether the backend over D-Bus was asked for.
pub fn wants_dbus(wanted: Option<&str>) -> (r: bool)
    ensures
        r == (wanted matches Some(w) && ascii_lower(w@) == ascii_lower("dbus"@)),
{
    match wanted {
        Some(w) => text::same_ignoring_case(text::chars_of(w).as_slice(), "dbus"),
        None => false,
    }
}

/// The outcome of an attempt to arm the PIN.
#[derive(Debug)]
pub enum ArmStep {
    /// The PIN is armed.
    Armed,
    /// Wait a second and try again.
    Retry,
    /// The group interface is not ready.
    GiveUp(BackendError),
}

/// The attempts to arm the PIN.
pub const ARM_ATTEMPTS: u32 = 10;

/// Decides after an attempt to arm the PIN, counted from zero.
pub fn after_arm_attempt(attempt: u32, armed: bool) -> (r: ArmStep)
    ensures
        match r {
            ArmStep::Armed => armed,
            ArmStep::Retry => !armed && attempt < 9,
            ArmStep::GiveUp(e) => !armed && attempt >= 9 && e@ == BackendErrorModel::Runtime(
                "Failed to arm WPS PIN — group interface not ready"@,
            ),
        },
{
    if armed {
        ArmStep::Armed
    } else if attempt < ARM_ATTEMPTS - 1 {
        ArmStep::Retry
    } else {
        ArmStep::GiveUp(
            BackendError::Runtime("Failed to arm WPS PIN — group interface not ready".to_owned()),
        )
    }
}

} // verus!
