//! Addressing on the group interface: a fixed address for the group owner and
//! a small pool for the sources.

pub mod native;
pub mod subprocess;

use vstd::prelude::*;
use crate::text;
use crate::text::ascii_lower;

verus! {

/// The address of the group owner.
pub const OUR_IP: &'static str = "192.168.173.1";

/// Which backend sets the addresses.
#[derive(Debug, Clone, Copy, PartialEq, Eq, Structural)]
pub enum NetChoice {
    /// Outside programs.
    Subprocess,
    /// The kernel's own interface and a DHCP server of our own.
    Native,
}

/// Picks the backend: the native one only where it was asked for, in whatever
/// case.
pub fn choose_net_backend(wanted: Option<&str>) -> (r: NetChoice)
    ensures
        r == if wanted matches Some(w) && ascii_lower(w@) == ascii_lower("native"@) {
            NetChoice::Native
        } else {
            NetChoice::Subprocess
        },
{
    match wanted {
        Some(w) => if text::same_ignoring_case(text::chars_of(w).as_slice(), "native") {
            NetChoice::Native
        } else {
            NetChoice::Subprocess
        },
        None => NetChoice::Subprocess,
    }
}

} // verus!
