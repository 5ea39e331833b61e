//! The backend over D-Bus: the elements in their binary form, and what the
//! signals of the group mean.

pub mod laws;

use vstd::prelude::*;
use vstd::utf8::{encode_utf8, is_ascii_chars, is_ascii_chars_encode_utf8};
use crate::net_backend::native::{format_mac, mac_text};
use crate::p2p_backend::cli::{device_info, encode_wfd_device_info, ReportModel, ReportStep};
use crate::p2p_backend::{BackendError, BackendErrorModel, EventModel, P2pEvent};
use crate::text;
use crate::text::{dec, digit_char, digits, hex_upper, zero_padded};

verus! {

/// The seconds after which a PIN is armed again.
pub const WPS_REARM_SECS: u64 = 90;

/// The value of a hexadecimal digit, given as a byte.
pub open spec fn nibble(b: u8) -> Option<u8> {
    if 48 <= b <= 57 {
        Some((b - 48) as u8)
    } else if 97 <= b <= 102 {
        Some((b - 87) as u8)
    } else if 65 <= b <= 70 {
        Some((b - 55) as u8)
    } else {
        None
    }
}

/// The bytes that pairs of hexadecimal digits stand for, or the first byte that
/// is no digit.
pub open spec fn pairs_value(s: Seq<u8>) -> Result<Seq<u8>, u8>
    decreases s.len(),
{
    if s.len() < 2 {
        Ok(Seq::empty())
    } else {
        match (pairs_value(s.take(s.len() - 2)), nibble(s[s.len() - 2]), nibble(s[s.len() - 1])) {
            (Err(b), _, _) => Err(b),
            (Ok(_), None, _) => Err(s[s.len() - 2]),
            (Ok(_), Some(_), None) => Err(s[s.len() - 1]),
            (Ok(v), Some(h), Some(l)) => Ok(v.push((h * 16 + l) as u8)),
        }
    }
}

/// What a text of hexadecimal digits stands for, or why it stands for nothing.
pub open spec fn hex_value(s: Seq<char>) -> Result<Seq<u8>, Seq<char>> {
    let bytes = encode_utf8(s);
    if bytes.len() % 2 != 0 {
        Err("odd-length hex: "@ + s)
    } else {
        match pairs_value(bytes) {
            Ok(v) => Ok(v),
            Err(b) => Err("bad hex byte: "@ + seq![b as char]),
        }
    }
}

fn hex_nibble(b: u8) -> (r: Result<u8, BackendError>)
    ensures
        match nibble(b) {
            Some(v) => r == Ok::<u8, BackendError>(v) && v < 16,
            None => r matches Err(e) && e@ == BackendErrorModel::Value(
                "bad hex byte: "@ + seq![b as char],
            ),
        },
{
    if 48 <= b && b <= 57 {
        Ok(b - 48)
    } else if 97 <= b && b <= 102 {
        Ok(b - 87)
    } else if 65 <= b && b <= 70 {
        Ok(b - 55)
    } else {
        let mut m: String = "bad hex byte: ".to_owned();
        m.push(b as char);
        assert(m@ =~= "bad hex byte: "@ + seq![b as char]);
        Err(BackendError::Value(m))
    }
}

/// Decodes a text of hexadecimal digits.
pub fn hex_decode(s: &str) -> (r: Result<Vec<u8>, BackendError>)
    ensures
        match hex_value(s@) {
            Ok(v) => r matches Ok(x) && x@ == v,
            Err(m) => r matches Err(e) && e@ == BackendErrorModel::Value(m),
        },
{
    let bytes: &[u8] = s.as_bytes();
    let n: usize = bytes.len();
    if n % 2 != 0 {
        return Err(BackendError::Value(text::joined("odd-length hex: ".to_owned(), s)));
    }
    let mut out: Vec<u8> = Vec::new();
    let mut i: usize = 0;
    assert(pairs_value(bytes@.take(0)) == Ok::<Seq<u8>, u8>(Seq::empty()));
    while i < n
        invariant
            i <= n,
            n == bytes@.len(),
            n % 2 == 0,
            i % 2 == 0,
            bytes@ == encode_utf8(s@),
            pairs_value(bytes@.take(i as int)) == Ok::<Seq<u8>, u8>(out@),
        decreases n - i,
    {
        let ghost next = bytes@.take(i + 2);
        assert(next.take(next.len() - 2) =~= bytes@.take(i as int));
        proof {
            lemma_bad_pair(bytes@, i + 2);
        }
        let hi: u8 = hex_nibble(bytes[i])?;
        let lo: u8 = hex_nibble(bytes[i + 1])?;
        out.push(hi * 16 + lo);
        i += 2;
    }
    assert(bytes@.take(n as int) =~= bytes@);
    Ok(out)
}

proof fn lemma_bad_pair(s: Seq<u8>, n: int)
    requires
        0 <= n <= s.len(),
        n % 2 == 0,
        s.len() % 2 == 0,
    ensures
        pairs_value(s.take(n)) matches Err(b) ==> pairs_value(s) == Err::<Seq<u8>, u8>(b),
    decreases s.len(),
{
    if n < s.len() {
        let t = s.take(s.len() - 2);
        assert(t.take(n) =~= s.take(n));
        lemma_bad_pair(t, n);
    } else {
        assert(s.take(n) =~= s);
    }
}

/// The elements in their binary form: the device, the associated access point
/// and the coupled sink.
pub open spec fn wfd_ies(rtsp_port: int) -> Seq<u8> {
    seq![0u8, 6, 0, 0x11, (rtsp_port / 256) as u8, (rtsp_port % 256) as u8, 1, 0x2C] + seq![
        0u8,
        6,
        0,
        0,
        0,
        0,
        0,
        0,
    ] + seq![0u8, 7, 0, 0, 0, 0, 0, 0, 0]
}

proof fn lemma_padded_four(s: Seq<char>)
    requires
        1 <= s.len() <= 4,
    ensures
        zero_padded(s, 4) == Seq::new((4 - s.len()) as nat, |i: int| '0') + s,
{
    reveal_with_fuel(zero_padded, 5);
    assert(zero_padded(s, 4) =~= Seq::new((4 - s.len()) as nat, |i: int| '0') + s);
}

/// The four hexadecimal digits of a number of sixteen bits.
proof fn lemma_hex_four(n: int)
    requires
        0 <= n < 65536,
    ensures
        hex_upper(n, 4) == seq![
            digit_char(n / 4096, true),
            digit_char(n / 256 % 16, true),
            digit_char(n / 16 % 16, true),
            digit_char(n % 16, true),
        ],
{
    reveal_with_fuel(digits, 5);
    let d = digits(n, 16, true);
    assert(n / 16 / 16 == n / 256);
    assert(n / 256 / 16 == n / 4096);
    if n < 16 {
        assert(d =~= seq![digit_char(n, true)]);
    } else if n < 256 {
        assert(d =~= seq![digit_char(n / 16, true), digit_char(n % 16, true)]);
    } else if n < 4096 {
        assert(d =~= seq![
            digit_char(n / 256, true),
            digit_char(n / 16 % 16, true),
            digit_char(n % 16, true),
        ]);
    } else {
        assert(d =~= seq![
            digit_char(n / 4096, true),
            digit_char(n / 256 % 16, true),
            digit_char(n / 16 % 16, true),
            digit_char(n % 16, true),
        ]);
    }
    lemma_padded_four(d);
    assert(hex_upper(n, 4) =~= seq![
        digit_char(n / 4096, true),
        digit_char(n / 256 % 16, true),
        digit_char(n / 16 % 16, true),
        digit_char(n % 16, true),
    ]);
}

proof fn lemma_digit_nibble(v: int)
    requires
        0 <= v < 16,
    ensures
        (digit_char(v, true) as u8) < 128,
        digit_char(v, true) as int == digit_char(v, true) as u8,
        nibble(digit_char(v, true) as u8) == Some(v as u8),
{
}

/// The device element decodes to its eight bytes.
proof fn lemma_device_info_value(port: int)
    requires
        0 <= port < 65536,
    ensures
        hex_value(device_info(port)) == Ok::<Seq<u8>, Seq<char>>(
            seq![0u8, 6, 0, 0x11, (port / 256) as u8, (port % 256) as u8, 1, 0x2C],
        ),
{
    let s = device_info(port);
    reveal_strlit("0006");
    lemma_hex_four(0x11);
    lemma_hex_four(port);
    lemma_hex_four(0x12C);
    lemma_digit_nibble(port / 4096);
    lemma_digit_nibble(port / 256 % 16);
    lemma_digit_nibble(port / 16 % 16);
    lemma_digit_nibble(port % 16);
    let c = seq![
        '0',
        '0',
        '0',
        '6',
        '0',
        '0',
        '1',
        '1',
        digit_char(port / 4096, true),
        digit_char(port / 256 % 16, true),
        digit_char(port / 16 % 16, true),
        digit_char(port % 16, true),
        '0',
        '1',
        '2',
        'C',
    ];
    assert(digit_char(0, true) == '0' && digit_char(1, true) == '1' && digit_char(2, true) == '2'
        && digit_char(12, true) == 'C');
    assert(s =~= c);
    assert(is_ascii_chars(c));
    is_ascii_chars_encode_utf8(c);
    let b = encode_utf8(s);
    assert(b.len() == 16);
    assert(b[0] == 48 && b[1] == 48 && b[2] == 48 && b[3] == 54 && b[4] == 48 && b[5] == 48 && b[6]
        == 49 && b[7] == 49 && b[12] == 48 && b[13] == 49 && b[14] == 50 && b[15] == 67);
    lemma_pairs_step(b, 2);
    lemma_pairs_step(b, 4);
    lemma_pairs_step(b, 6);
    lemma_pairs_step(b, 8);
    lemma_pairs_step(b, 10);
    lemma_pairs_step(b, 12);
    lemma_pairs_step(b, 14);
    lemma_pairs_step(b, 16);
    assert(b.take(16) =~= b);
    assert(b.take(0) =~= Seq::<u8>::empty());
    assert((port / 4096) * 16 + port / 256 % 16 == port / 256);
    assert((port / 16 % 16) * 16 + port % 16 == port % 256);
    assert(pairs_value(b)->Ok_0 =~= seq![
        0u8,
        6,
        0,
        0x11,
        (port / 256) as u8,
        (port % 256) as u8,
        1,
        0x2C,
    ]);
}

proof fn lemma_pairs_step(b: Seq<u8>, n: int)
    requires
        2 <= n <= b.len(),
    ensures
        pairs_value(b.take(n)) == match (pairs_value(b.take(n - 2)), nibble(b[n - 2]), nibble(
            b[n - 1],
        )) {
            (Err(x), _, _) => Err(x),
            (Ok(_), None, _) => Err(b[n - 2]),
            (Ok(_), Some(_), None) => Err(b[n - 1]),
            (Ok(v), Some(h), Some(l)) => Ok(v.push((h * 16 + l) as u8)),
        },
{
    let t = b.take(n);
    assert(t.take(n - 2) =~= b.take(n - 2));
}

/// The element of the access point decodes to its eight bytes.
proof fn lemma_bssid_value()
    ensures
        hex_value("0006000000000000"@) == Ok::<Seq<u8>, Seq<char>>(seq![0u8, 6, 0, 0, 0, 0, 0, 0]),
{
    reveal_strlit("0006000000000000");
    let s = "0006000000000000"@;
    assert(is_ascii_chars(s));
    is_ascii_chars_encode_utf8(s);
    let b = encode_utf8(s);
    lemma_pairs_step(b, 2);
    lemma_pairs_step(b, 4);
    lemma_pairs_step(b, 6);
    lemma_pairs_step(b, 8);
    lemma_pairs_step(b, 10);
    lemma_pairs_step(b, 12);
    lemma_pairs_step(b, 14);
    lemma_pairs_step(b, 16);
    assert(b.take(16) =~= b);
    assert(b.take(0) =~= Seq::<u8>::empty());
    assert(pairs_value(b)->Ok_0 =~= seq![0u8, 6, 0, 0, 0, 0, 0, 0]);
}

/// The element of the coupled sink decodes to its nine bytes.
proof fn lemma_coupled_value()
    ensures
        hex_value("000700000000000000"@) == Ok::<Seq<u8>, Seq<char>>(
            seq![0u8, 7, 0, 0, 0, 0, 0, 0, 0],
        ),
{
    reveal_strlit("000700000000000000");
    let s = "000700000000000000"@;
    assert(is_ascii_chars(s));
    is_ascii_chars_encode_utf8(s);
    let b = encode_utf8(s);
    lemma_pairs_step(b, 2);
    lemma_pairs_step(b, 4);
    lemma_pairs_step(b, 6);
    lemma_pairs_step(b, 8);
    lemma_pairs_step(b, 10);
    lemma_pairs_step(b, 12);
    lemma_pairs_step(b, 14);
    lemma_pairs_step(b, 16);
    lemma_pairs_step(b, 18);
    assert(b.take(18) =~= b);
    assert(b.take(0) =~= Seq::<u8>::empty());
    assert(pairs_value(b)->Ok_0 =~= seq![0u8, 7, 0, 0, 0, 0, 0, 0, 0]);
}

/// The elements in binary are those that the other backend sends in
/// hexadecimal.
pub proof fn law_both_backends_send_the_same_elements(port: u16)
    ensures
        hex_value(device_info(port as int)) matches Ok(d) && hex_value(
            "0006000000000000"@,
        ) matches Ok(a) && hex_value("000700000000000000"@) matches Ok(c) && wfd_ies(port as int)
            == d + a + c,
{
    lemma_device_info_value(port as int);
    lemma_bssid_value();
    lemma_coupled_value();
}

/// Puts the elements together in their binary form.
pub fn build_wfd_ies(rtsp_port: u16) -> (r: Result<Vec<u8>, BackendError>)
    ensures
        r matches Ok(v) && v@ == wfd_ies(rtsp_port as int),
{
    proof {
        lemma_device_info_value(rtsp_port as int);
        lemma_bssid_value();
        lemma_coupled_value();
    }
    let mut out: Vec<u8> = hex_decode(encode_wfd_device_info(rtsp_port).as_str())?;
    let mut bssid: Vec<u8> = hex_decode("0006000000000000")?;
    let mut coupled: Vec<u8> = hex_decode("000700000000000000")?;
    out.append(&mut bssid);
    out.append(&mut coupled);
    assert(out@ =~= wfd_ies(rtsp_port as int));
    Ok(out)
}

/// Writes the address of a peer, which has six bytes.
pub fn peer_mac(addr: &Vec<u8>) -> (r: Result<String, BackendError>)
    ensures
        match r {
            Ok(t) => addr@.len() == 6 && t@ == mac_text(addr@),
            Err(e) => addr@.len() != 6 && e@ == BackendErrorModel::Runtime(
                "peer DeviceAddress has "@ + dec(addr@.len() as int) + " bytes, expected 6"@,
            ),
        },
{
    let n: usize = addr.len();
    if n != 6 {
        let mut m: String = text::joined(
            "peer DeviceAddress has ".to_owned(),
            text::dec_u64(n as u64).as_str(),
        );
        m.append(" bytes, expected 6");
        Err(BackendError::Runtime(m))
    } else {
        Ok(format_mac(addr.as_slice()))
    }
}

/// What came from the bus.
#[derive(Debug)]
pub enum Signal {
    /// A peer has joined; its address could be read or not.
    PeerJoined(Option<String>),
    /// A peer has left.
    PeerDisconnected,
    /// The group is gone.
    GroupFinished,
    /// Nothing in time.
    Nothing,
    /// The connection to the bus has ended.
    Ended,
}

/// Decides what is reported of a signal. A peer without a readable address is
/// not reported.
pub fn signal_step(signal: Signal) -> (r: ReportStep)
    ensures
        r@ == match signal {
            Signal::PeerJoined(Some(mac)) => ReportModel::Report(EventModel::PeerConnected(mac@)),
            Signal::PeerJoined(None) => ReportModel::Continue,
            Signal::PeerDisconnected => ReportModel::Report(EventModel::PeerDisconnected),
            Signal::GroupFinished => ReportModel::ReportAndStop(EventModel::GroupRemoved),
            Signal::Nothing => ReportModel::Continue,
            Signal::Ended => ReportModel::ReportAndStop(
                EventModel::Error("D-Bus signal stream ended unexpectedly"@),
            ),
        },
{
    match signal {
        Signal::PeerJoined(Some(mac)) => ReportStep::Report(P2pEvent::PeerConnected { mac }),
        Signal::PeerJoined(None) => ReportStep::Continue,
        Signal::PeerDisconnected => ReportStep::Report(P2pEvent::PeerDisconnected),
        Signal::GroupFinished => ReportStep::ReportAndStop(P2pEvent::GroupRemoved),
        Signal::Nothing => ReportStep::Continue,
        Signal::Ended => ReportStep::ReportAndStop(
            P2pEvent::Error("D-Bus signal stream ended unexpectedly".to_owned()),
        ),
    }
}

/// Whether the PIN is to be armed again.
pub fn rearm_due(elapsed_secs: u64) -> (r: bool)
    ensures
        r == (elapsed_secs >= 90),
{
    elapsed_secs >= WPS_REARM_SECS
}

/// The report of a group interface that is not on the bus.
pub fn group_not_found(group_interface: &str) -> (r: P2pEvent)
    ensures
        r@ == EventModel::Error("group interface "@ + group_interface@ + " not found on D-Bus"@),
{
    let mut m: String = text::joined("group interface ".to_owned(), group_interface);
    m.append(" not found on D-Bus");
    P2pEvent::Error(m)
}

/// The report of a signal that could not be subscribed to.
pub fn subscription_failed(signal: &str, reason: &str) -> (r: P2pEvent)
    ensures
        r@ == EventModel::Error("subscribe "@ + signal@ + " failed: "@ + reason@),
{
    let mut m: String = text::joined("subscribe ".to_owned(), signal);
    m.append(" failed: ");
    m.append(reason);
    P2pEvent::Error(m)
}

/// The error of a group whose interface has not appeared in time.
pub fn group_not_started() -> (r: BackendError)
    ensures
        r@ == BackendErrorModel::Runtime("P2P group interface did not appear within 10 seconds"@),
{
    BackendError::Runtime("P2P group interface did not appear within 10 seconds".to_owned())
}

} // verus!
