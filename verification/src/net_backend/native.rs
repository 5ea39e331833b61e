//! Addressing without outside programs: the answers of the DHCP server and its
//! table of leases.

pub mod laws;

use vstd::prelude::*;
use vstd::utf8::is_ascii_chars;
use crate::outside::{to_lowercase, unicode_lower};
use crate::text;
use crate::text::{ascii_lower, dec, hex_lower, join, strs};

verus! {

/// An IPv4 address by its four octets.
#[derive(Debug, Clone, Copy, PartialEq, Eq, Structural)]
pub struct Ipv4(pub u8, pub u8, pub u8, pub u8);

/// The first address of the pool, in its last octet.
pub const POOL_FIRST: u8 = 80;

/// The last address of the pool, in its last octet.
pub const POOL_LAST: u8 = 90;

/// How long a lease lasts, in seconds.
pub const LEASE_SECS: u32 = 300;

/// The code of a message that replies.
pub const OP_REPLY: u8 = 2;

/// The option that holds the type of a message.
pub const OPT_MSG_TYPE: u8 = 53;

/// The option that names the server.
pub const OPT_SERVER_ID: u8 = 54;

/// The option that holds the time of the lease.
pub const OPT_LEASE_TIME: u8 = 51;

/// The option that holds the subnet mask.
pub const OPT_SUBNET_MASK: u8 = 1;

/// The option that names the router.
pub const OPT_ROUTER: u8 = 3;

/// The option that names the name server.
pub const OPT_DNS: u8 = 6;

/// The option by which a client asks for an address.
pub const OPT_REQUESTED_IP: u8 = 50;

/// What ends the options.
pub const OPT_END: u8 = 255;

/// A client looks for servers.
pub const DHCP_DISCOVER: u8 = 1;

/// A server offers an address.
pub const DHCP_OFFER: u8 = 2;

/// A client asks for an address.
pub const DHCP_REQUEST: u8 = 3;

/// A server gives an address.
pub const DHCP_ACK: u8 = 5;

/// The address of the server.
pub open spec fn server_ip() -> Ipv4 {
    Ipv4(192, 168, 173, 1)
}

impl Ipv4 {
    /// The four octets.
    pub open spec fn octets(&self) -> Seq<u8> {
        seq![self.0, self.1, self.2, self.3]
    }

    /// Whether the address belongs to the pool.
    pub open spec fn is_pooled(&self) -> bool {
        self.0 == 192 && self.1 == 168 && self.2 == 173 && 80 <= self.3 <= 90
    }

    /// The address in dotted decimals.
    pub fn to_string(&self) -> (r: String)
        ensures
            r@ == dec(self.0 as int) + "."@ + dec(self.1 as int) + "."@ + dec(self.2 as int) + "."@
                + dec(self.3 as int),
    {
        let mut out: String = text::dec_u64(self.0 as u64);
        out.append(".");
        out.append(text::dec_u64(self.1 as u64).as_str());
        out.append(".");
        out.append(text::dec_u64(self.2 as u64).as_str());
        out.append(".");
        out.append(text::dec_u64(self.3 as u64).as_str());
        out
    }
}

/// Whether an address belongs to the pool.
pub fn in_pool(ip: &Ipv4) -> (r: bool)
    ensures
        r == ip.is_pooled(),
{
    ip.0 == 192 && ip.1 == 168 && ip.2 == 173 && POOL_FIRST <= ip.3 && ip.3 <= POOL_LAST
}

/// Takes the next address in turn; behind the last one the first follows.
pub fn alloc_from_pool(next: &mut u8) -> (r: Ipv4)
    ensures
        r == Ipv4(192, 168, 173, *old(next)),
        *final(next) == if *old(next) >= 90 {
            80
        } else {
            (*old(next) + 1) as u8
        },
{
    let last: u8 = *next;
    *next = if last >= POOL_LAST {
        POOL_FIRST
    } else {
        last + 1
    };
    Ipv4(192, 168, 173, last)
}

/// The words of a hardware address: its first six bytes, as far as there are
/// so many.
pub open spec fn mac_words(mac: Seq<u8>) -> Seq<Seq<char>> {
    Seq::new(
        if mac.len() < 6 {
            mac.len()
        } else {
            6
        },
        |i: int| hex_lower(mac[i] as int, 2),
    )
}

/// A hardware address in lower case with colons.
pub open spec fn mac_text(mac: Seq<u8>) -> Seq<char> {
    join(mac_words(mac), ":"@)
}

/// Writes a hardware address in lower case with colons.
pub fn format_mac(mac: &[u8]) -> (r: String)
    ensures
        r@ == mac_text(mac@),
{
    let mut parts: Vec<String> = Vec::new();
    let ghost want = mac_words(mac@);
    let mut i: usize = 0;
    while i < mac.len() && i < 6
        invariant
            i <= want.len(),
            want == mac_words(mac@),
            strs(parts@) == want.take(i as int),
        decreases mac.len() - i,
    {
        let ghost before = strs(parts@);
        let p: String = text::hex_lower_of(mac[i] as u64, 2);
        let ghost pv = p@;
        parts.push(p);
        assert(strs(parts@) =~= before.push(pv));
        assert(want.take(i + 1) =~= want.take(i as int).push(want[i as int]));
        i += 1;
    }
    assert(want.take(want.len() as int) =~= want);
    text::join_strings(&parts, ":")
}

/// Leases as contracts see them.
pub type Leases = Seq<(Seq<char>, Ipv4)>;

/// The address that a station has.
pub open spec fn leased(t: Leases, mac: Seq<char>) -> Option<Ipv4>
    decreases t.len(),
{
    if t.len() == 0 {
        None
    } else if t[0].0 == mac {
        Some(t[0].1)
    } else {
        leased(t.skip(1), mac)
    }
}

/// The addresses that stations have, by their hardware addresses.
#[derive(Debug)]
pub struct LeaseTable {
    entries: Vec<(String, Ipv4)>,
}

impl View for LeaseTable {
    type V = Leases;

    closed spec fn view(&self) -> Leases {
        Seq::new(self.entries@.len(), |i: int| (self.entries@[i].0@, self.entries@[i].1))
    }
}

impl LeaseTable {
    /// Whether every address belongs to the pool and no station has two.
    pub open spec fn wf(&self) -> bool {
        &&& forall|i: int| 0 <= i < self@.len() ==> (#[trigger] self@[i]).1.is_pooled()
        &&& forall|i: int, j: int| 0 <= i < j < self@.len() ==> self@[i].0 != self@[j].0
    }

    /// No leases.
    pub fn new() -> (r: LeaseTable)
        ensures
            r@ == Leases::empty(),
            r.wf(),
    {
        let r: LeaseTable = LeaseTable { entries: Vec::new() };
        assert(r@ =~= Leases::empty());
        r
    }

    /// The address that a station has.
    pub fn get(&self, mac: &str) -> (r: Option<Ipv4>)
        ensures
            r == leased(self@, mac@),
    {
        let ghost t = self@;
        let mut i: usize = 0;
        assert(t.skip(0) =~= t);
        while i < self.entries.len()
            invariant
                i <= self.entries@.len(),
                t == self@,
                leased(t, mac@) == leased(t.skip(i as int), mac@),
            decreases self.entries.len() - i,
        {
            assert(t.skip(i as int)[0] == t[i as int]);
            assert(t.skip(i as int).skip(1) =~= t.skip(i + 1));
            if text::same_str(self.entries[i].0.as_str(), mac) {
                return Some(self.entries[i].1);
            }
            i += 1;
        }
        None
    }

    /// Whether a station has an address.
    pub fn contains_key(&self, mac: &str) -> (r: bool)
        ensures
            r == (leased(self@, mac@) is Some),
    {
        self.get(mac).is_some()
    }

    fn record(&mut self, mac: String, ip: Ipv4)
        requires
            leased(old(self)@, mac@) is None,
            ip.is_pooled(),
            old(self).wf(),
        ensures
            final(self)@ == old(self)@.push((mac@, ip)),
            final(self).wf(),
    {
        proof {
            lemma_leased(self@, mac@);
        }
        self.entries.push((mac, ip));
        assert(self@ =~= old(self)@.push((mac@, ip)));
    }
}

proof fn lemma_leased(t: Leases, mac: Seq<char>)
    ensures
        match leased(t, mac) {
            Some(ip) => exists|i: int| 0 <= i < t.len() && #[trigger] t[i] == (mac, ip),
            None => forall|i: int| 0 <= i < t.len() ==> (#[trigger] t[i]).0 != mac,
        },
    decreases t.len(),
{
    if t.len() > 0 && t[0].0 != mac {
        let s = t.skip(1);
        lemma_leased(s, mac);
        assert forall|i: int| 0 < i < t.len() implies #[trigger] t[i] == s[i - 1] by {}
        if let Some(ip) = leased(t, mac) {
            let i = choose|i: int| 0 <= i < s.len() && #[trigger] s[i] == (mac, ip);
            assert(t[i + 1] == (mac, ip));
        }
    } else if t.len() > 0 {
        assert(t[0] == (mac, t[0].1));
    }
}

proof fn lemma_leased_pushed(t: Leases, mac: Seq<char>, ip: Ipv4, other: Seq<char>)
    requires
        leased(t, mac) is None,
    ensures
        leased(t.push((mac, ip)), mac) == Some(ip),
        other != mac ==> leased(t.push((mac, ip)), other) == leased(t, other),
    decreases t.len(),
{
    let p = t.push((mac, ip));
    if t.len() == 0 {
        assert(p.skip(1) =~= Leases::empty());
        reveal_with_fuel(leased, 2);
    } else {
        assert(p.skip(1) =~= t.skip(1).push((mac, ip)));
        assert(p[0] == t[0]);
        lemma_leased_pushed(t.skip(1), mac, ip, other);
    }
}

/// The type of a message and the address that is asked for, as the options from
/// a position on give them.
pub open spec fn options_from(pkt: Seq<u8>, i: int, kind: u8, wanted: Option<Ipv4>) -> (
    u8,
    Option<Ipv4>,
)
    decreases pkt.len() - i,
{
    if i < 0 || i >= pkt.len() || pkt[i] == OPT_END {
        (kind, wanted)
    } else if pkt[i] == 0 {
        options_from(pkt, i + 1, kind, wanted)
    } else if i + 1 >= pkt.len() {
        (kind, wanted)
    } else {
        let start = i + 2;
        let end = if start + pkt[i + 1] < pkt.len() {
            start + pkt[i + 1]
        } else {
            pkt.len() as int
        };
        if pkt[i] == OPT_MSG_TYPE && end > start {
            options_from(pkt, end, pkt[start], wanted)
        } else if pkt[i] == OPT_REQUESTED_IP && end - start == 4 {
            options_from(
                pkt,
                end,
                kind,
                Some(Ipv4(pkt[start], pkt[start + 1], pkt[start + 2], pkt[start + 3])),
            )
        } else {
            options_from(pkt, end, kind, wanted)
        }
    }
}

/// Whether bytes are a DHCP message.
pub open spec fn is_message(pkt: Seq<u8>) -> bool {
    pkt.len() >= 240 && pkt[236] == 99 && pkt[237] == 130 && pkt[238] == 83 && pkt[239] == 99
}

/// The answer to a type of message.
pub open spec fn answer_kind(kind: u8) -> Option<u8> {
    if kind == DHCP_DISCOVER {
        Some(DHCP_OFFER)
    } else if kind == DHCP_REQUEST {
        Some(DHCP_ACK)
    } else {
        None
    }
}

/// The fixed part of a reply.
pub open spec fn reply_head(xid: Seq<u8>, chaddr: Seq<u8>, ip: Ipv4) -> Seq<u8> {
    Seq::new(
        240,
        |i: int|
            if i == 0 {
                2u8
            } else if i == 1 {
                1u8
            } else if i == 2 {
                6u8
            } else if 4 <= i < 8 {
                xid[i - 4]
            } else if 16 <= i < 20 {
                ip.octets()[i - 16]
            } else if 20 <= i < 24 {
                server_ip().octets()[i - 20]
            } else if 28 <= i < 34 {
                chaddr[i - 28]
            } else if i == 236 {
                99u8
            } else if i == 237 {
                130u8
            } else if i == 238 {
                83u8
            } else if i == 239 {
                99u8
            } else {
                0u8
            },
    )
}

/// An option with its value.
pub open spec fn option_bytes(code: u8, value: Seq<u8>) -> Seq<u8> {
    seq![code, value.len() as u8] + value
}

/// The options of a reply: its type, the server, the time of the lease, the
/// mask, the router and the name server.
pub open spec fn reply_options(kind: u8) -> Seq<u8> {
    option_bytes(OPT_MSG_TYPE, seq![kind]) + option_bytes(OPT_SERVER_ID, server_ip().octets())
        + option_bytes(OPT_LEASE_TIME, seq![0, 0, 1, 44]) + option_bytes(
        OPT_SUBNET_MASK,
        seq![255, 255, 255, 0],
    ) + option_bytes(OPT_ROUTER, server_ip().octets()) + option_bytes(
        OPT_DNS,
        server_ip().octets(),
    ) + seq![OPT_END]
}

/// A reply.
pub open spec fn reply_bytes(xid: Seq<u8>, chaddr: Seq<u8>, ip: Ipv4, kind: u8) -> Seq<u8> {
    reply_head(xid, chaddr, ip) + reply_options(kind)
}

/// Appends an option.
pub fn push_opt(p: &mut Vec<u8>, code: u8, val: &[u8])
    requires
        val@.len() <= 255,
    ensures
        final(p)@ == old(p)@ + option_bytes(code, val@),
{
    p.push(code);
    p.push(val.len() as u8);
    let ghost head = p@;
    let mut i: usize = 0;
    while i < val.len()
        invariant
            i <= val@.len(),
            p@ == head + val@.take(i as int),
        decreases val.len() - i,
    {
        p.push(val[i]);
        assert(val@.take(i + 1) =~= val@.take(i as int).push(val@[i as int]));
        i += 1;
    }
    assert(val@.take(val@.len() as int) =~= val@);
    assert(p@ =~= old(p)@ + option_bytes(code, val@));
}

/// Builds a reply.
pub fn build_reply(xid: &[u8], chaddr: &[u8], yiaddr: Ipv4, msg_type: u8) -> (r: Vec<u8>)
    requires
        xid@.len() == 4,
        chaddr@.len() >= 6,
    ensures
        r@ == reply_bytes(xid@, chaddr@, yiaddr, msg_type),
{
    let mut p: Vec<u8> = Vec::new();
    let mut i: usize = 0;
    while i < 240
        invariant
            i <= 240,
            xid@.len() == 4,
            chaddr@.len() >= 6,
            p@ == reply_head(xid@, chaddr@, yiaddr).take(i as int),
        decreases 240 - i,
    {
        let b: u8 = if i == 0 {
            OP_REPLY
        } else if i == 1 {
            1
        } else if i == 2 {
            6
        } else if 4 <= i && i < 8 {
            xid[i - 4]
        } else if i == 16 {
            yiaddr.0
        } else if i == 17 {
            yiaddr.1
        } else if i == 18 {
            yiaddr.2
        } else if i == 19 {
            yiaddr.3
        } else if i == 20 {
            192
        } else if i == 21 {
            168
        } else if i == 22 {
            173
        } else if i == 23 {
            1
        } else if 28 <= i && i < 34 {
            chaddr[i - 28]
        } else if i == 236 {
            99
        } else if i == 237 {
            130
        } else if i == 238 {
            83
        } else if i == 239 {
            99
        } else {
            0
        };
        p.push(b);
        let ghost head = reply_head(xid@, chaddr@, yiaddr);
        assert(head[i as int] == b);
        assert(head.take(i + 1) =~= head.take(i as int).push(b));
        i += 1;
    }
    let ghost head = reply_head(xid@, chaddr@, yiaddr);
    assert(head.take(240) =~= head);
    let server: [u8; 4] = [192, 168, 173, 1];
    let kind: [u8; 1] = [msg_type];
    let time: [u8; 4] = [0, 0, (LEASE_SECS / 256) as u8, (LEASE_SECS % 256) as u8];
    let mask: [u8; 4] = [255, 255, 255, 0];
    assert(server@ =~= server_ip().octets());
    assert(kind@ =~= seq![msg_type]);
    assert(time@ =~= seq![0u8, 0, 1, 44]);
    assert(mask@ =~= seq![255u8, 255, 255, 0]);
    push_opt(&mut p, OPT_MSG_TYPE, kind.as_slice());
    push_opt(&mut p, OPT_SERVER_ID, server.as_slice());
    push_opt(&mut p, OPT_LEASE_TIME, time.as_slice());
    push_opt(&mut p, OPT_SUBNET_MASK, mask.as_slice());
    push_opt(&mut p, OPT_ROUTER, server.as_slice());
    push_opt(&mut p, OPT_DNS, server.as_slice());
    p.push(OPT_END);
    assert(p@ =~= reply_bytes(xid@, chaddr@, yiaddr, msg_type));
    p
}

/// A DHCP server.
#[derive(Debug)]
pub struct DhcpServer {
    pub leases: LeaseTable,
    pub next: u8,
}

/// The server as contracts see it: the leases and the next address in turn.
pub struct ServerModel {
    pub leases: Leases,
    pub next: u8,
}

impl View for DhcpServer {
    type V = ServerModel;

    open spec fn view(&self) -> ServerModel {
        ServerModel { leases: self.leases@, next: self.next }
    }
}

/// The server after a message, and its reply. A station that has an address
/// keeps it; another one gets the one that it asks for, if that belongs to the
/// pool, and otherwise the next in turn.
pub open spec fn server_step(s: ServerModel, pkt: Seq<u8>) -> (ServerModel, Option<Seq<u8>>) {
    let options = options_from(pkt, 240, 0, None);
    match answer_kind(options.0) {
        Some(kind) if is_message(pkt) => {
            let xid = pkt.subrange(4, 8);
            let chaddr = pkt.subrange(28, 34);
            let mac = mac_text(chaddr);
            match leased(s.leases, mac) {
                Some(ip) => (s, Some(reply_bytes(xid, chaddr, ip, kind))),
                None => match options.1 {
                    Some(ip) if ip.is_pooled() => (
                        ServerModel { leases: s.leases.push((mac, ip)), ..s },
                        Some(reply_bytes(xid, chaddr, ip, kind)),
                    ),
                    _ => {
                        let ip = Ipv4(192, 168, 173, s.next);
                        (
                            ServerModel {
                                leases: s.leases.push((mac, ip)),
                                next: if s.next >= 90 {
                                    80
                                } else {
                                    (s.next + 1) as u8
                                },
                            },
                            Some(reply_bytes(xid, chaddr, ip, kind)),
                        )
                    },
                },
            }
        },
        _ => (s, None),
    }
}

fn read_options(pkt: &[u8]) -> (r: (u8, Option<Ipv4>))
    requires
        pkt@.len() >= 240,
    ensures
        r == options_from(pkt@, 240, 0, None),
{
    let n: usize = pkt.len();
    let mut kind: u8 = 0;
    let mut wanted: Option<Ipv4> = None;
    let mut i: usize = 240;
    while i < n && pkt[i] != OPT_END
        invariant
            n == pkt@.len(),
            240 <= i <= n,
            options_from(pkt@, i as int, kind, wanted) == options_from(pkt@, 240, 0, None),
        decreases n - i,
    {
        let code: u8 = pkt[i];
        if code == 0 {
            i += 1;
        } else if i >= n - 1 {
            return (kind, wanted);
        } else {
            let start: usize = i + 2;
            let len: usize = pkt[i + 1] as usize;
            let end: usize = if len < n - start {
                start + len
            } else {
                n
            };
            if code == OPT_MSG_TYPE && end > start {
                kind = pkt[start];
            } else if code == OPT_REQUESTED_IP && end - start == 4 {
                wanted = Some(Ipv4(pkt[start], pkt[start + 1], pkt[start + 2], pkt[start + 3]));
            }
            i = end;
        }
    }
    (kind, wanted)
}

impl DhcpServer {
    /// Whether all addresses, given or to be given, belong to the pool, and no
    /// station has two.
    pub open spec fn wf(&self) -> bool {
        keeps_pool(self@)
    }

    /// A server that has given no address yet.
    pub fn new() -> (r: DhcpServer)
        ensures
            r.wf(),
            r@ == (ServerModel { leases: Leases::empty(), next: 80 }),
    {
        DhcpServer { leases: LeaseTable::new(), next: POOL_FIRST }
    }

    /// Takes a message and answers it if it asks for an address.
    pub fn handle_packet(&mut self, pkt: &[u8]) -> (r: Option<Vec<u8>>)
        requires
            old(self).wf(),
        ensures
            final(self).wf(),
            ({
                let step = server_step(old(self)@, pkt@);
                final(self)@ == step.0 && match r {
                    Some(reply) => step.1 == Some(reply@),
                    None => step.1 is None,
                }
            }),
    {
        if pkt.len() < 240 || pkt[236] != 99 || pkt[237] != 130 || pkt[238] != 83 || pkt[239] != 99 {
            return None;
        }
        let (kind, wanted): (u8, Option<Ipv4>) = read_options(pkt);
        let reply_kind: u8 = if kind == DHCP_DISCOVER {
            DHCP_OFFER
        } else if kind == DHCP_REQUEST {
            DHCP_ACK
        } else {
            return None;
        };
        let xid: &[u8] = vstd::slice::slice_subrange(pkt, 4, 8);
        let chaddr: &[u8] = vstd::slice::slice_subrange(pkt, 28, 34);
        let mac: String = format_mac(chaddr);
        let assigned: Ipv4 = match self.leases.get(mac.as_str()) {
            Some(ip) => ip,
            None => {
                let ip: Ipv4 = match wanted {
                    Some(w) => if in_pool(&w) {
                        w
                    } else {
                        alloc_from_pool(&mut self.next)
                    },
                    None => alloc_from_pool(&mut self.next),
                };
                self.leases.record(mac, ip);
                ip
            },
        };
        Some(build_reply(xid, chaddr, assigned, reply_kind))
    }
}

/// A station that has an address is answered with it and keeps it, whatever it
/// or another one sends.
pub proof fn law_station_keeps_its_address(s: ServerModel, pkt: Seq<u8>, mac: Seq<char>)
    requires
        leased(s.leases, mac) is Some,
    ensures
        leased(server_step(s, pkt).0.leases, mac) == leased(s.leases, mac),
        (server_step(s, pkt).1 matches Some(reply) && mac_text(pkt.subrange(28, 34)) == mac)
            ==> server_step(s, pkt).1->0.subrange(16, 20) == leased(s.leases, mac)->0.octets(),
{
    let chaddr = pkt.subrange(28, 34);
    let other = mac_text(chaddr);
    let step = server_step(s, pkt);
    if leased(s.leases, other) is None {
        if step.0.leases != s.leases {
            let ip = step.0.leases.last().1;
            assert(step.0.leases =~= s.leases.push((other, ip)));
            lemma_leased_pushed(s.leases, other, ip, mac);
        }
    }
    if step.1 is Some && other == mac {
        let ip = leased(s.leases, mac)->0;
        assert(step.1->0.subrange(16, 20) =~= ip.octets());
    }
}

/// A station that is answered has an address from then on, the one that the
/// answer holds.
pub proof fn law_answer_records_the_lease(s: ServerModel, pkt: Seq<u8>)
    requires
        server_step(s, pkt).1 is Some,
    ensures
        leased(server_step(s, pkt).0.leases, mac_text(pkt.subrange(28, 34))) matches Some(ip)
            && server_step(s, pkt).1->0.subrange(16, 20) == ip.octets(),
        server_step(s, pkt).1->0.subrange(4, 8) == pkt.subrange(4, 8),
        server_step(s, pkt).1->0.subrange(28, 34) == pkt.subrange(28, 34),
{
    let chaddr = pkt.subrange(28, 34);
    let mac = mac_text(chaddr);
    let step = server_step(s, pkt);
    let reply = step.1->0;
    assert(reply.subrange(4, 8) =~= pkt.subrange(4, 8));
    assert(reply.subrange(28, 34) =~= pkt.subrange(28, 34));
    if leased(s.leases, mac) is None {
        let ip = step.0.leases.last().1;
        assert(step.0.leases =~= s.leases.push((mac, ip)));
        lemma_leased_pushed(s.leases, mac, ip, mac);
    }
    let ip = leased(step.0.leases, mac)->0;
    assert(reply.subrange(16, 20) =~= ip.octets());
}

/// Whether every address, given or next in turn, belongs to the pool, and no
/// station has two.
pub open spec fn keeps_pool(s: ServerModel) -> bool {
    &&& forall|i: int| 0 <= i < s.leases.len() ==> (#[trigger] s.leases[i]).1.is_pooled()
    &&& forall|i: int, j: int| 0 <= i < j < s.leases.len() ==> s.leases[i].0 != s.leases[j].0
    &&& 80 <= s.next <= 90
}

/// Every address that is handed out belongs to the pool, whatever was asked for,
/// and the server keeps to the pool from then on.
pub proof fn law_answer_lies_in_the_pool(s: ServerModel, pkt: Seq<u8>)
    requires
        keeps_pool(s),
    ensures
        keeps_pool(server_step(s, pkt).0),
        server_step(s, pkt).1 matches Some(reply) ==> exists|ip: Ipv4|
            #[trigger] ip.is_pooled() && reply.subrange(16, 20) == ip.octets(),
{
    let mac = mac_text(pkt.subrange(28, 34));
    lemma_leased(s.leases, mac);
    if server_step(s, pkt).1 is Some {
        law_answer_records_the_lease(s, pkt);
        let after = server_step(s, pkt).0.leases;
        lemma_leased(after, mac);
        let ip = leased(after, mac)->0;
        let i = choose|i: int| 0 <= i < after.len() && #[trigger] after[i] == (mac, ip);
        assert(after[i].1.is_pooled());
        assert(ip.is_pooled());
    }
}

/// The value of an option, from a position on.
pub open spec fn option_from(pkt: Seq<u8>, code: u8, i: int) -> Option<Seq<u8>>
    decreases pkt.len() - i,
{
    if i < 0 || i >= pkt.len() || pkt[i] == OPT_END {
        None
    } else if pkt[i] == 0 {
        option_from(pkt, code, i + 1)
    } else if i + 1 >= pkt.len() || i + 2 + pkt[i + 1] > pkt.len() {
        None
    } else if pkt[i] == code {
        Some(pkt.subrange(i + 2, i + 2 + pkt[i + 1]))
    } else {
        option_from(pkt, code, i + 2 + pkt[i + 1])
    }
}

/// A reply names the server as router and name server, with the mask of the
/// network and a lease of five minutes.
pub proof fn law_reply_names_router_and_dns(xid: Seq<u8>, chaddr: Seq<u8>, ip: Ipv4, kind: u8)
    requires
        xid.len() == 4,
        chaddr.len() >= 6,
    ensures
        option_from(reply_bytes(xid, chaddr, ip, kind), OPT_MSG_TYPE, 240) == Some(seq![kind]),
        option_from(reply_bytes(xid, chaddr, ip, kind), OPT_SERVER_ID, 240) == Some(
            server_ip().octets(),
        ),
        option_from(reply_bytes(xid, chaddr, ip, kind), OPT_LEASE_TIME, 240) == Some(
            seq![0u8, 0, 1, 44],
        ),
        option_from(reply_bytes(xid, chaddr, ip, kind), OPT_SUBNET_MASK, 240) == Some(
            seq![255u8, 255, 255, 0],
        ),
        option_from(reply_bytes(xid, chaddr, ip, kind), OPT_ROUTER, 240) == Some(
            server_ip().octets(),
        ),
        option_from(reply_bytes(xid, chaddr, ip, kind), OPT_DNS, 240) == Some(
            server_ip().octets(),
        ),
{
    reveal_with_fuel(option_from, 7);
    let r = reply_bytes(xid, chaddr, ip, kind);
    assert(r.len() == 240 + 3 + 6 + 6 + 6 + 6 + 6 + 1);
    assert(r[240] == 53 && r[241] == 1 && r[243] == 54 && r[244] == 4 && r[249] == 51 && r[250] == 4
        && r[255] == 1 && r[256] == 4 && r[261] == 3 && r[262] == 4 && r[267] == 6 && r[268] == 4);
    assert(r.subrange(242, 243) =~= seq![kind]);
    assert(r.subrange(245, 249) =~= server_ip().octets());
    assert(r.subrange(251, 255) =~= seq![0u8, 0, 1, 44]);
    assert(r.subrange(257, 261) =~= seq![255u8, 255, 255, 0]);
    assert(r.subrange(263, 267) =~= server_ip().octets());
    assert(r.subrange(269, 273) =~= server_ip().octets());
}

/// Finds the address of a station, whose hardware address may be in any case,
/// among the leases.
pub fn lease_of(leases: &LeaseTable, peer_mac: &str) -> (r: Option<String>)
    ensures
        match (r, leased(leases@, unicode_lower(peer_mac@))) {
            (Some(t), Some(ip)) => t@ == dec(ip.0 as int) + "."@ + dec(ip.1 as int) + "."@ + dec(
                ip.2 as int,
            ) + "."@ + dec(ip.3 as int),
            (None, None) => true,
            _ => false,
        },
        is_ascii_chars(peer_mac@) ==> match leased(leases@, ascii_lower(peer_mac@)) {
            Some(ip) => r matches Some(t) && t@ == dec(ip.0 as int) + "."@ + dec(ip.1 as int) + "."@
                + dec(ip.2 as int) + "."@ + dec(ip.3 as int),
            None => r is None,
        },
{
    let mac_lower: String = to_lowercase(peer_mac);
    match leases.get(mac_lower.as_str()) {
        Some(ip) => Some(ip.to_string()),
        None => None,
    }
}

} // verus!
