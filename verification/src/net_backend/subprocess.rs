//! Addressing by outside programs: `ip` and `dnsmasq`.

pub mod laws;

use vstd::prelude::*;
use crate::text;
use crate::text::strs;

verus! {

/// Addressing by outside programs.
#[derive(Debug, Clone, Copy)]
pub struct SubprocessNetBackend;

/// The words of several commands, as contracts see them.
pub open spec fn commands(v: Seq<Vec<String>>) -> Seq<Seq<Seq<char>>> {
    Seq::new(v.len(), |i: int| strs(v[i]@))
}

/// The commands that set the address of the interface, in their order: what an
/// earlier run left is ended, then the address is replaced and the interface
/// taken into use.
pub open spec fn address_commands(iface: Seq<char>) -> Seq<Seq<Seq<char>>> {
    seq![
        seq!["sudo"@, "pkill"@, "-f"@, "dnsmasq.*"@ + iface],
        seq!["sudo"@, "ip"@, "addr"@, "flush"@, "dev"@, iface],
        seq!["sudo"@, "ip"@, "addr"@, "add"@, "192.168.173.1/24"@, "dev"@, iface],
        seq!["sudo"@, "ip"@, "link"@, "set"@, iface, "up"@],
    ]
}

/// The command that starts the DHCP server.
pub open spec fn server_command(iface: Seq<char>) -> Seq<Seq<char>> {
    seq![
        "sudo"@,
        "dnsmasq"@,
        "--interface="@ + iface,
        "--bind-interfaces"@,
        "--dhcp-range=192.168.173.80,192.168.173.90,255.255.255.0,5m"@,
        "--dhcp-option=3,192.168.173.1"@,
        "--dhcp-option=6,192.168.173.1"@,
        "--no-daemon"@,
        "--log-facility=-"@,
        "--except-interface=lo"@,
        "--no-resolv"@,
        "--no-hosts"@,
    ]
}

impl SubprocessNetBackend {
    /// The commands that set the address of the interface.
    pub fn address_setup(&self, iface: &str) -> (r: Vec<Vec<String>>)
        ensures
            commands(r@) == address_commands(iface@),
    {
        let mut kill: Vec<String> = Vec::new();
        kill.push("sudo".to_owned());
        kill.push("pkill".to_owned());
        kill.push("-f".to_owned());
        kill.push(text::joined("dnsmasq.*".to_owned(), iface));
        let mut flush: Vec<String> = Vec::new();
        flush.push("sudo".to_owned());
        flush.push("ip".to_owned());
        flush.push("addr".to_owned());
        flush.push("flush".to_owned());
        flush.push("dev".to_owned());
        flush.push(iface.to_owned());
        let mut assign: Vec<String> = Vec::new();
        assign.push("sudo".to_owned());
        assign.push("ip".to_owned());
        assign.push("addr".to_owned());
        assign.push("add".to_owned());
        assign.push("192.168.173.1/24".to_owned());
        assign.push("dev".to_owned());
        assign.push(iface.to_owned());
        let mut up: Vec<String> = Vec::new();
        up.push("sudo".to_owned());
        up.push("ip".to_owned());
        up.push("link".to_owned());
        up.push("set".to_owned());
        up.push(iface.to_owned());
        up.push("up".to_owned());
        let ghost want = address_commands(iface@);
        assert(strs(kill@) =~= want[0]);
        assert(strs(flush@) =~= want[1]);
        assert(strs(assign@) =~= want[2]);
        assert(strs(up@) =~= want[3]);
        let mut out: Vec<Vec<String>> = Vec::new();
        out.push(kill);
        out.push(flush);
        out.push(assign);
        out.push(up);
        assert(commands(out@) =~= want);
        out
    }

    /// The command that starts the DHCP server.
    pub fn dhcp_server(&self, iface: &str) -> (r: Vec<String>)
        ensures
            strs(r@) == server_command(iface@),
    {
        let mut v: Vec<String> = Vec::new();
        v.push("sudo".to_owned());
        v.push("dnsmasq".to_owned());
        v.push(text::joined("--interface=".to_owned(), iface));
        v.push("--bind-interfaces".to_owned());
        v.push("--dhcp-range=192.168.173.80,192.168.173.90,255.255.255.0,5m".to_owned());
        v.push("--dhcp-option=3,192.168.173.1".to_owned());
        v.push("--dhcp-option=6,192.168.173.1".to_owned());
        v.push("--no-daemon".to_owned());
        v.push("--log-facility=-".to_owned());
        v.push("--except-interface=lo".to_owned());
        v.push("--no-resolv".to_owned());
        v.push("--no-hosts".to_owned());
        assert(strs(v@) =~= server_command(iface@));
        v
    }
}

} // verus!
