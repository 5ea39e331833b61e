//! What holds of the commands that set the addresses.

use vstd::prelude::*;
use crate::net_backend::subprocess::{address_commands, server_command};

verus! {

/// Every command is for the given interface: an old server on it is ended, old
/// addresses are removed before the new one is set, and the interface is taken
/// into use last.
pub proof fn law_addresses_are_set_in_order(iface: Seq<char>)
    ensures
        ({
            let c = address_commands(iface);
            &&& c.len() == 4
            &&& c[0][1] == "pkill"@ && iface.is_suffix_of(c[0].last())
            &&& c[1][3] == "flush"@ && c[1].last() == iface
            &&& c[2][3] == "add"@ && c[2].last() == iface
            &&& c[2].contains("192.168.173.1/24"@)
            &&& c[3].last() == "up"@ && c[3].contains(iface)
        }),
        ("--interface="@ + iface) == server_command(iface)[2],
{
    let c = address_commands(iface);
    let k = "dnsmasq.*"@ + iface;
    assert(c[0].last() == k);
    assert(k.subrange(k.len() - iface.len(), k.len() as int) =~= iface);
    assert(c[2][4] == "192.168.173.1/24"@);
    assert(c[3][4] == iface);
}

} // verus!
