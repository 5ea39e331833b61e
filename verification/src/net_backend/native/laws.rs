//! What holds of the DHCP server over several messages, and of what it reads in
//! a single one.

use vstd::prelude::*;
use crate::net_backend::native::{
    answer_kind, is_message, keeps_pool, law_answer_lies_in_the_pool,
    law_answer_records_the_lease, law_reply_names_router_and_dns, leased,
    lemma_leased, lemma_leased_pushed, mac_text, mac_words, option_bytes, option_from,
    options_from, reply_bytes, server_ip, server_step, Ipv4, Leases, ServerModel,
};
use crate::text;
use crate::text::{digits, digits_value, hex_lower, join, zero_padded};

verus! {

proof fn lemma_byte_text(n: int)
    requires
        0 <= n < 256,
    ensures
        hex_lower(n, 2).len() == 2,
        digits_value(hex_lower(n, 2), 16) == Some(n),
{
    let d = digits(n, 16, false);
    text::lemma_digits_read_back(n, 16, false);
    text::lemma_padded_read_back(d, 2, 16);
    reveal_with_fuel(digits, 3);
    reveal_with_fuel(zero_padded, 3);
    if n >= 16 {
        assert(0 <= n / 16 < 16);
        assert(d.len() == 2);
    } else {
        assert(d.len() == 1);
    }
}

proof fn lemma_mac_byte(mac: Seq<u8>, i: int)
    requires
        mac.len() == 6,
        0 <= i < 6,
    ensures
        mac_text(mac).len() == 17,
        mac_text(mac).subrange(3 * i, 3 * i + 2) == hex_lower(mac[i] as int, 2),
{
    let w = mac_words(mac);
    reveal_strlit(":");
    lemma_byte_text(mac[0] as int);
    lemma_byte_text(mac[1] as int);
    lemma_byte_text(mac[2] as int);
    lemma_byte_text(mac[3] as int);
    lemma_byte_text(mac[4] as int);
    lemma_byte_text(mac[5] as int);
    let w1 = w.take(1);
    let w2 = w.take(2);
    let w3 = w.take(3);
    let w4 = w.take(4);
    let w5 = w.take(5);
    assert(w2.drop_last() =~= w1);
    assert(w3.drop_last() =~= w2);
    assert(w4.drop_last() =~= w3);
    assert(w5.drop_last() =~= w4);
    assert(w.drop_last() =~= w5);
    let t = mac_text(mac);
    assert(join(w1, ":"@) == w[0]);
    assert(join(w2, ":"@) == w[0] + ":"@ + w[1]);
    assert(join(w3, ":"@) == join(w2, ":"@) + ":"@ + w[2]);
    assert(join(w4, ":"@) == join(w3, ":"@) + ":"@ + w[3]);
    assert(join(w5, ":"@) == join(w4, ":"@) + ":"@ + w[4]);
    assert(t == join(w5, ":"@) + ":"@ + w[5]);
    assert(t.subrange(3 * i, 3 * i + 2) =~= w[i]);
}

/// Stations with different hardware addresses are told apart.
pub proof fn law_stations_are_told_apart(a: Seq<u8>, b: Seq<u8>)
    requires
        a.len() == 6,
        b.len() == 6,
        a != b,
    ensures
        mac_text(a) != mac_text(b),
{
    if mac_text(a) == mac_text(b) {
        assert forall|i: int| 0 <= i < 6 implies a[i] == b[i] by {
            lemma_mac_byte(a, i);
            lemma_mac_byte(b, i);
            lemma_byte_text(a[i] as int);
            lemma_byte_text(b[i] as int);
        }
        assert(a =~= b);
    }
}

proof fn lemma_byte_chars(n: int)
    requires
        0 <= n < 256,
    ensures
        hex_lower(n, 2).len() == 2,
        forall|i: int|
            0 <= i < 2 ==> {
                let c = #[trigger] hex_lower(n, 2)[i];
                ('0' <= c && c <= '9') || ('a' <= c && c <= 'f')
            },
{
    lemma_byte_text(n);
    reveal_with_fuel(digits, 3);
    reveal_with_fuel(zero_padded, 3);
    let d = digits(n, 16, false);
    if n >= 16 {
        assert(0 <= n / 16 < 16 && 0 <= n % 16 < 16);
        assert(d =~= seq![text::digit_char(n / 16, false), text::digit_char(n % 16, false)]);
        assert(hex_lower(n, 2) == d);
    } else {
        assert(d =~= seq![text::digit_char(n, false)]);
        assert(hex_lower(n, 2) == seq!['0'] + d);
    }
}

/// A hardware address is written in pairs of lower case digits with colons
/// between them.
pub proof fn lemma_mac_chars(mac: Seq<u8>)
    requires
        mac.len() == 6,
    ensures
        mac_text(mac).len() == 17,
        forall|i: int|
            0 <= i < 17 ==> {
                let c = #[trigger] mac_text(mac)[i];
                if i % 3 == 2 {
                    c == ':'
                } else {
                    ('0' <= c && c <= '9') || ('a' <= c && c <= 'f')
                }
            },
{
    let t = mac_text(mac);
    lemma_mac_byte(mac, 0);
    assert forall|i: int| 0 <= i < 17 implies {
        let c = #[trigger] t[i];
        if i % 3 == 2 {
            c == ':'
        } else {
            ('0' <= c && c <= '9') || ('a' <= c && c <= 'f')
        }
    } by {
        let k = i / 3;
        lemma_mac_byte(mac, k);
        lemma_byte_chars(mac[k] as int);
        if i % 3 != 2 {
            let w = t.subrange(3 * k, 3 * k + 2);
            assert(w[i - 3 * k] == t[i]);
        } else {
            lemma_mac_colon(mac, k);
        }
    }
}

proof fn lemma_mac_colon(mac: Seq<u8>, k: int)
    requires
        mac.len() == 6,
        0 <= k < 5,
    ensures
        mac_text(mac)[3 * k + 2] == ':',
{
    let w = mac_words(mac);
    reveal_strlit(":");
    lemma_byte_text(mac[0] as int);
    lemma_byte_text(mac[1] as int);
    lemma_byte_text(mac[2] as int);
    lemma_byte_text(mac[3] as int);
    lemma_byte_text(mac[4] as int);
    lemma_byte_text(mac[5] as int);
    let w1 = w.take(1);
    let w2 = w.take(2);
    let w3 = w.take(3);
    let w4 = w.take(4);
    let w5 = w.take(5);
    assert(w2.drop_last() =~= w1);
    assert(w3.drop_last() =~= w2);
    assert(w4.drop_last() =~= w3);
    assert(w5.drop_last() =~= w4);
    assert(w.drop_last() =~= w5);
    assert(join(w1, ":"@) == w[0]);
    assert(join(w2, ":"@) == w[0] + ":"@ + w[1]);
    assert(join(w3, ":"@) == join(w2, ":"@) + ":"@ + w[2]);
    assert(join(w4, ":"@) == join(w3, ":"@) + ":"@ + w[3]);
    assert(join(w5, ":"@) == join(w4, ":"@) + ":"@ + w[4]);
    assert(mac_text(mac) == join(w5, ":"@) + ":"@ + w[5]);
}

/// A hardware address is written in lower case, so that a station is found by
/// its address in whatever case that is given.
pub proof fn law_address_is_written_in_lower_case(mac: Seq<u8>)
    requires
        mac.len() == 6,
    ensures
        text::ascii_lower(mac_text(mac)) == mac_text(mac),
        text::ascii_lower(text::ascii_upper(mac_text(mac))) == mac_text(mac),
{
    let t = mac_text(mac);
    lemma_mac_chars(mac);
    assert(text::ascii_lower(t) =~= t);
    assert(text::ascii_lower(text::ascii_upper(t)) =~= t);
}

/// The hardware address of the station that sent a message.
pub open spec fn station_of(pkt: Seq<u8>) -> Seq<u8> {
    pkt.subrange(28, 34)
}

/// The address that a reply gives.
pub open spec fn address_in(reply: Seq<u8>) -> Seq<u8> {
    reply.subrange(16, 20)
}

/// Whether a message looks for a server or asks for an address, and names no
/// address of the pool.
pub open spec fn asks_for_any(pkt: Seq<u8>) -> bool {
    let options = options_from(pkt, 240, 0, None);
    &&& is_message(pkt)
    &&& options.0 == 1 || options.0 == 3
    &&& options.1 matches Some(ip) ==> !ip.is_pooled()
}

/// A new station that asks for no address of the pool is given the one next in
/// turn, and the next in turn is another one afterwards. Both belong to the
/// pool, and so does every one that follows: the turn passes through all of
/// them.
pub proof fn law_turn_passes_on(s: ServerModel, pkt: Seq<u8>)
    requires
        80 <= s.next <= 90,
        asks_for_any(pkt),
        leased(s.leases, mac_text(station_of(pkt))) is None,
    ensures
        server_step(s, pkt).1 matches Some(reply) && address_in(reply) == Ipv4(
            192,
            168,
            173,
            s.next,
        ).octets(),
        server_step(s, pkt).0.next != s.next,
        (server_step(s, pkt).0.next - 80) % 11 == (s.next - 80 + 1) % 11,
        80 <= server_step(s, pkt).0.next <= 90,
{
    let ip = Ipv4(192, 168, 173, s.next);
    let reply = server_step(s, pkt).1->0;
    assert(address_in(reply) =~= ip.octets());
}

/// The server after messages that came one after the other.
pub open spec fn server_after(s: ServerModel, pkts: Seq<Seq<u8>>) -> ServerModel
    decreases pkts.len(),
{
    if pkts.len() == 0 {
        s
    } else {
        server_step(server_after(s, pkts.drop_last()), pkts.last()).0
    }
}

/// The reply to the message at a place among those that came one after the
/// other.
pub open spec fn reply_to(s: ServerModel, pkts: Seq<Seq<u8>>, i: int) -> Option<Seq<u8>> {
    server_step(server_after(s, pkts.take(i)), pkts[i]).1
}

/// Whether messages come from different stations, none of which asks for an
/// address of the pool.
pub open spec fn are_newcomers(pkts: Seq<Seq<u8>>) -> bool {
    &&& forall|i: int| 0 <= i < pkts.len() ==> asks_for_any(#[trigger] pkts[i])
    &&& forall|i: int, j: int|
        0 <= i < j < pkts.len() ==> station_of(#[trigger] pkts[i]) != station_of(
            #[trigger] pkts[j],
        )
}

proof fn lemma_newcomers(pkts: Seq<Seq<u8>>, k: int)
    requires
        are_newcomers(pkts),
        0 <= k <= pkts.len(),
        k <= 11,
    ensures
        ({
            let s = server_after(ServerModel { leases: Leases::empty(), next: 80 }, pkts.take(k));
            &&& s.next == if k == 11 {
                80
            } else {
                80 + k
            }
            &&& s.leases.len() == k
            &&& forall|i: int|
                0 <= i < k ==> (#[trigger] s.leases[i]).0 == mac_text(station_of(pkts[i]))
        }),
    decreases k,
{
    let fresh = ServerModel { leases: Leases::empty(), next: 80 };
    if k > 0 {
        lemma_newcomers(pkts, k - 1);
        let s = server_after(fresh, pkts.take(k - 1));
        let pkt = pkts[k - 1];
        assert(pkts.take(k).drop_last() =~= pkts.take(k - 1));
        assert(pkts.take(k).last() == pkt);
        lemma_newcomer_is_unknown(pkts, s.leases, k - 1);
        assert(asks_for_any(pkt));
        law_turn_passes_on(s, pkt);
        let after = server_step(s, pkt).0;
        let ip = Ipv4(192, 168, 173, s.next);
        assert(after.leases =~= s.leases.push((mac_text(station_of(pkt)), ip)));
    }
}

proof fn lemma_newcomer_is_unknown(pkts: Seq<Seq<u8>>, t: Leases, k: int)
    requires
        are_newcomers(pkts),
        0 <= k < pkts.len(),
        t.len() == k,
        forall|i: int| 0 <= i < k ==> (#[trigger] t[i]).0 == mac_text(station_of(pkts[i])),
    ensures
        leased(t, mac_text(station_of(pkts[k]))) is None,
{
    let mac = mac_text(station_of(pkts[k]));
    lemma_leased(t, mac);
    if let Some(ip) = leased(t, mac) {
        let i = choose|i: int| 0 <= i < t.len() && #[trigger] t[i] == (mac, ip);
        assert(t[i].0 == mac_text(station_of(pkts[i])));
        assert(asks_for_any(pkts[i]) && asks_for_any(pkts[k]));
        law_stations_are_told_apart(station_of(pkts[i]), station_of(pkts[k]));
    }
}

/// Up to eleven stations that come to a fresh server, and ask for no address of
/// the pool, are all answered and get different addresses.
pub proof fn law_newcomers_get_different_addresses(pkts: Seq<Seq<u8>>, i: int, j: int)
    requires
        are_newcomers(pkts),
        pkts.len() <= 11,
        0 <= i < j < pkts.len(),
    ensures
        ({
            let fresh = ServerModel { leases: Leases::empty(), next: 80 };
            &&& reply_to(fresh, pkts, i) is Some
            &&& reply_to(fresh, pkts, j) is Some
            &&& address_in(reply_to(fresh, pkts, i)->0) != address_in(
                reply_to(fresh, pkts, j)->0,
            )
        }),
{
    let fresh = ServerModel { leases: Leases::empty(), next: 80 };
    lemma_newcomers(pkts, i);
    lemma_newcomers(pkts, j);
    let a = server_after(fresh, pkts.take(i));
    let b = server_after(fresh, pkts.take(j));
    lemma_newcomer_is_unknown(pkts, a.leases, i);
    lemma_newcomer_is_unknown(pkts, b.leases, j);
    assert(asks_for_any(pkts[i]) && asks_for_any(pkts[j]));
    law_turn_passes_on(a, pkts[i]);
    law_turn_passes_on(b, pkts[j]);
    assert(address_in(reply_to(fresh, pkts, i)->0)[3] == a.next);
    assert(address_in(reply_to(fresh, pkts, j)->0)[3] == b.next);
}

/// A new station that asks for an address of the pool is given that one, and the
/// turn stays where it is.
pub proof fn law_wish_is_granted(s: ServerModel, pkt: Seq<u8>, ip: Ipv4)
    requires
        is_message(pkt),
        options_from(pkt, 240, 0, None).0 == 1 || options_from(pkt, 240, 0, None).0 == 3,
        options_from(pkt, 240, 0, None).1 == Some(ip),
        ip.is_pooled(),
        leased(s.leases, mac_text(station_of(pkt))) is None,
    ensures
        server_step(s, pkt).1 matches Some(reply) && address_in(reply) == ip.octets(),
        leased(server_step(s, pkt).0.leases, mac_text(station_of(pkt))) == Some(ip),
        server_step(s, pkt).0.next == s.next,
{
    let mac = mac_text(station_of(pkt));
    let reply = server_step(s, pkt).1->0;
    assert(address_in(reply) =~= ip.octets());
    lemma_leased_pushed(s.leases, mac, ip, mac);
}

/// A reply goes to the station that asked, in the exchange that it named, as a
/// reply of this server: a search is answered by an offer and a request by an
/// acknowledgement. Whatever is neither changes nothing and gets no answer.
pub proof fn law_reply_fits_the_message(s: ServerModel, pkt: Seq<u8>)
    ensures
        ({
            let kind = options_from(pkt, 240, 0, None).0;
            let asks = is_message(pkt) && (kind == 1 || kind == 3);
            match server_step(s, pkt).1 {
                Some(reply) => {
                    &&& asks
                    &&& is_message(reply)
                    &&& reply[0] == 2 && reply[1] == 1 && reply[2] == 6
                    &&& reply.subrange(4, 8) == pkt.subrange(4, 8)
                    &&& station_of(reply) == station_of(pkt)
                    &&& reply.subrange(20, 24) == server_ip().octets()
                    &&& option_from(reply, 53, 240) == Some(
                        if kind == 1 {
                            seq![2u8]
                        } else {
                            seq![5u8]
                        },
                    )
                    &&& option_from(reply, 54, 240) == Some(seq![192u8, 168, 173, 1])
                    &&& option_from(reply, 51, 240) == Some(seq![0u8, 0, 1, 44])
                    &&& option_from(reply, 1, 240) == Some(seq![255u8, 255, 255, 0])
                    &&& option_from(reply, 3, 240) == Some(seq![192u8, 168, 173, 1])
                },
                None => !asks && server_step(s, pkt).0 == s,
            }
        }),
{
    let kind = options_from(pkt, 240, 0, None).0;
    if let Some(reply) = server_step(s, pkt).1 {
        law_answer_records_the_lease(s, pkt);
        let xid = pkt.subrange(4, 8);
        let chaddr = pkt.subrange(28, 34);
        let ip = leased(server_step(s, pkt).0.leases, mac_text(chaddr))->0;
        let k = answer_kind(kind)->0;
        if leased(s.leases, mac_text(chaddr)) is None {
            let new = server_step(s, pkt).0.leases.last().1;
            assert(server_step(s, pkt).0.leases =~= s.leases.push((mac_text(chaddr), new)));
            lemma_leased_pushed(s.leases, mac_text(chaddr), new, mac_text(chaddr));
        }
        assert(reply == reply_bytes(xid, chaddr, ip, k));
        law_reply_names_router_and_dns(xid, chaddr, ip, k);
        assert(reply.subrange(20, 24) =~= server_ip().octets());
        assert(server_ip().octets() =~= seq![192u8, 168, 173, 1]);
    }
}

/// Every address that is given lies between the two ends of the pool, in the
/// network of the server.
pub proof fn law_address_is_of_the_network(s: ServerModel, pkt: Seq<u8>)
    requires
        keeps_pool(s),
    ensures
        server_step(s, pkt).1 matches Some(reply) ==> reply[16] == 192 && reply[17] == 168
            && reply[18] == 173 && 80 <= reply[19] <= 90,
{
    law_answer_lies_in_the_pool(s, pkt);
    if let Some(reply) = server_step(s, pkt).1 {
        let ip = choose|ip: Ipv4|
            #[trigger] ip.is_pooled() && reply.subrange(16, 20) == ip.octets();
        assert(reply.subrange(16, 20)[0] == reply[16]);
        assert(reply.subrange(16, 20)[1] == reply[17]);
        assert(reply.subrange(16, 20)[2] == reply[18]);
        assert(reply.subrange(16, 20)[3] == reply[19]);
    }
}

/// Options one behind the other.
pub open spec fn encoded(os: Seq<(u8, Seq<u8>)>) -> Seq<u8>
    decreases os.len(),
{
    if os.len() == 0 {
        Seq::empty()
    } else {
        option_bytes(os[0].0, os[0].1) + encoded(os.skip(1))
    }
}

/// Whether options can be told apart from padding and from the end, and their
/// lengths can be written.
pub open spec fn are_options(os: Seq<(u8, Seq<u8>)>) -> bool {
    forall|i: int|
        0 <= i < os.len() ==> (#[trigger] os[i]).0 != 0 && os[i].0 != 255 && os[i].1.len() <= 255
}

proof fn lemma_options_skip(
    head: Seq<u8>,
    os: Seq<(u8, Seq<u8>)>,
    tail: Seq<u8>,
    kind: u8,
    wanted: Option<Ipv4>,
)
    requires
        are_options(os),
        os.len() > 0,
    ensures
        ({
            let pkt = head + encoded(os) + seq![255u8] + tail;
            let o = os[0];
            let k = if o.0 == 53 && o.1.len() > 0 {
                o.1[0]
            } else {
                kind
            };
            let w = if o.0 == 50 && o.1.len() == 4 {
                Some(Ipv4(o.1[0], o.1[1], o.1[2], o.1[3]))
            } else {
                wanted
            };
            let next = head + option_bytes(o.0, o.1);
            &&& next + encoded(os.skip(1)) + seq![255u8] + tail == pkt
            &&& options_from(pkt, head.len() as int, kind, wanted) == options_from(
                pkt,
                next.len() as int,
                k,
                w,
            )
        }),
{
    let pkt = head + encoded(os) + seq![255u8] + tail;
    let o = os[0];
    let n = head.len() as int;
    let next = head + option_bytes(o.0, o.1);
    assert(next + encoded(os.skip(1)) + seq![255u8] + tail =~= pkt);
    assert(o.0 != 0 && o.0 != 255 && o.1.len() <= 255);
    assert(pkt[n] == o.0);
    assert(pkt[n + 1] == o.1.len() as u8);
    assert(pkt.len() > n + 2 + o.1.len());
    assert forall|i: int| 0 <= i < o.1.len() implies pkt[n + 2 + i] == o.1[i] by {
        assert(option_bytes(o.0, o.1)[2 + i] == o.1[i]);
    }
}

proof fn lemma_options_read(
    head: Seq<u8>,
    os: Seq<(u8, Seq<u8>)>,
    tail: Seq<u8>,
    kind: u8,
    wanted: Option<Ipv4>,
)
    requires
        are_options(os),
    ensures
        ({
            let pkt = head + encoded(os) + seq![255u8] + tail;
            let r = options_from(pkt, head.len() as int, kind, wanted);
            &&& (forall|i: int|
                0 <= i < os.len() ==> (#[trigger] os[i]).0 != 53 || os[i].1.len() == 0) ==> r.0
                == kind
            &&& (forall|i: int|
                0 <= i < os.len() ==> (#[trigger] os[i]).0 != 50 || os[i].1.len() != 4) ==> r.1
                == wanted
        }),
    decreases os.len(),
{
    let pkt = head + encoded(os) + seq![255u8] + tail;
    if os.len() == 0 {
        assert(pkt[head.len() as int] == 255);
    } else {
        lemma_options_skip(head, os, tail, kind, wanted);
        let o = os[0];
        let rest = os.skip(1);
        assert forall|i: int| 0 <= i < rest.len() implies (#[trigger] rest[i]).0 != 0 && rest[i].0
            != 255 && rest[i].1.len() <= 255 by {
            assert(rest[i] == os[i + 1]);
        }
        let k = if o.0 == 53 && o.1.len() > 0 {
            o.1[0]
        } else {
            kind
        };
        let w = if o.0 == 50 && o.1.len() == 4 {
            Some(Ipv4(o.1[0], o.1[1], o.1[2], o.1[3]))
        } else {
            wanted
        };
        lemma_options_read(head + option_bytes(o.0, o.1), rest, tail, k, w);
        if forall|i: int| 0 <= i < os.len() ==> (#[trigger] os[i]).0 != 53 || os[i].1.len() == 0 {
            assert forall|i: int| 0 <= i < rest.len() implies (#[trigger] rest[i]).0 != 53
                || rest[i].1.len() == 0 by {
                assert(rest[i] == os[i + 1]);
            }
        }
        if forall|i: int| 0 <= i < os.len() ==> (#[trigger] os[i]).0 != 50 || os[i].1.len() != 4 {
            assert forall|i: int| 0 <= i < rest.len() implies (#[trigger] rest[i]).0 != 50
                || rest[i].1.len() != 4 by {
                assert(rest[i] == os[i + 1]);
            }
        }
    }
}

/// Among options that end in the end mark, whatever follows it, the last type is
/// taken for the type of the message and the last address for the one that is
/// asked for. Where there is none of either, none is read.
pub proof fn law_options_are_read(
    head: Seq<u8>,
    os: Seq<(u8, Seq<u8>)>,
    tail: Seq<u8>,
    at: int,
    kind: u8,
    wanted: Option<Ipv4>,
)
    requires
        are_options(os),
    ensures
        ({
            let pkt = head + encoded(os) + seq![255u8] + tail;
            let r = options_from(pkt, head.len() as int, kind, wanted);
            &&& (forall|i: int| 0 <= i < os.len() ==> (#[trigger] os[i]).0 != 53) ==> r.0 == kind
            &&& (forall|i: int| 0 <= i < os.len() ==> (#[trigger] os[i]).0 != 50) ==> r.1 == wanted
            &&& (0 <= at < os.len() && os[at].0 == 53 && os[at].1.len() == 1 && forall|i: int|
                at < i < os.len() ==> (#[trigger] os[i]).0 != 53) ==> r.0 == os[at].1[0]
            &&& (0 <= at < os.len() && os[at].0 == 50 && os[at].1.len() == 4 && forall|i: int|
                at < i < os.len() ==> (#[trigger] os[i]).0 != 50) ==> (r.1 matches Some(ip)
                && ip.octets() == os[at].1)
        }),
    decreases os.len(),
{
    lemma_options_read(head, os, tail, kind, wanted);
    if 0 <= at < os.len() {
        lemma_options_skip(head, os, tail, kind, wanted);
        let o = os[0];
        let rest = os.skip(1);
        assert forall|i: int| 0 <= i < rest.len() implies (#[trigger] rest[i]).0 != 0 && rest[i].0
            != 255 && rest[i].1.len() <= 255 by {
            assert(rest[i] == os[i + 1]);
        }
        let k = if o.0 == 53 && o.1.len() > 0 {
            o.1[0]
        } else {
            kind
        };
        let w = if o.0 == 50 && o.1.len() == 4 {
            Some(Ipv4(o.1[0], o.1[1], o.1[2], o.1[3]))
        } else {
            wanted
        };
        let next = head + option_bytes(o.0, o.1);
        if at == 0 {
            lemma_options_read(next, rest, tail, k, w);
            assert forall|i: int| 0 <= i < rest.len() implies #[trigger] rest[i] == os[i + 1] by {}
            if o.0 == 50 && o.1.len() == 4 {
                assert(w->0.octets() =~= o.1);
            }
        } else {
            law_options_are_read(next, rest, tail, at - 1, k, w);
            assert(rest[at - 1] == os[at]);
            assert forall|i: int| 0 <= i < rest.len() implies #[trigger] rest[i] == os[i + 1] by {}
        }
    }
}

} // verus!
