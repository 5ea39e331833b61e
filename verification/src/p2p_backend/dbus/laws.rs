//! What holds of the binary form of the elements.

use vstd::prelude::*;
use vstd::utf8::{encode_utf8, is_ascii_chars, is_ascii_chars_encode_utf8};
use crate::p2p_backend::dbus::{hex_value, nibble, pairs_value, wfd_ies};
use crate::text::{digit_char, digits, hex_lower, hex_upper, zero_padded};

verus! {

/// Bytes in hexadecimal, two digits for each, with the letters in the given case.
pub open spec fn hex_of(v: Seq<u8>, upper: bool) -> Seq<char>
    decreases v.len(),
{
    if v.len() == 0 {
        Seq::empty()
    } else {
        hex_of(v.drop_last(), upper) + if upper {
            hex_upper(v.last() as int, 2)
        } else {
            hex_lower(v.last() as int, 2)
        }
    }
}

proof fn lemma_pair(b: u8, upper: bool)
    ensures
        ({
            let t = if upper {
                hex_upper(b as int, 2)
            } else {
                hex_lower(b as int, 2)
            };
            &&& t.len() == 2
            &&& t[0] == digit_char(b as int / 16, upper)
            &&& t[1] == digit_char(b as int % 16, upper)
        }),
{
    let n = b as int;
    reveal_with_fuel(digits, 3);
    reveal_with_fuel(zero_padded, 3);
    let d = digits(n, 16, upper);
    assert(0 <= n / 16 < 16 && 0 <= n % 16 < 16);
    if n >= 16 {
        assert(d =~= seq![digit_char(n / 16, upper), digit_char(n % 16, upper)]);
    } else {
        assert(d =~= seq![digit_char(n, upper)]);
        assert(digit_char(0, upper) == '0');
        assert(zero_padded(d, 2) =~= seq!['0', digit_char(n, upper)]);
    }
}

proof fn lemma_nibble(v: int, upper: bool)
    requires
        0 <= v < 16,
    ensures
        '\0' <= digit_char(v, upper) <= '\u{7f}',
        nibble(digit_char(v, upper) as u8) == Some(v as u8),
{
}

/// Bytes that are written in hexadecimal, in either case, are decoded to the
/// same bytes.
pub proof fn law_bytes_are_decoded(v: Seq<u8>, upper: bool)
    ensures
        hex_value(hex_of(v, upper)) == Ok::<Seq<u8>, Seq<char>>(v),
        is_ascii_chars(hex_of(v, upper)),
        hex_of(v, upper).len() == 2 * v.len(),
        pairs_value(encode_utf8(hex_of(v, upper))) == Ok::<Seq<u8>, u8>(v),
    decreases v.len(),
{
    let t = hex_of(v, upper);
    if v.len() == 0 {
        assert(is_ascii_chars(t));
        is_ascii_chars_encode_utf8(t);
        assert(v =~= Seq::empty());
    } else {
        let front = v.drop_last();
        let b = v.last();
        let head = hex_of(front, upper);
        law_bytes_are_decoded(front, upper);
        lemma_pair(b, upper);
        lemma_nibble(b as int / 16, upper);
        lemma_nibble(b as int % 16, upper);
        let n = head.len() as int;
        assert(t[n] == digit_char(b as int / 16, upper));
        assert(t[n + 1] == digit_char(b as int % 16, upper));
        assert forall|i: int| 0 <= i < t.len() implies '\0' <= #[trigger] t[i] <= '\u{7f}' by {
            if i < n {
                assert(t[i] == head[i]);
            }
        }
        is_ascii_chars_encode_utf8(t);
        is_ascii_chars_encode_utf8(head);
        let bytes = encode_utf8(t);
        assert(bytes.take(n) =~= encode_utf8(head)) by {
            assert forall|i: int| 0 <= i < n implies bytes.take(n)[i] == encode_utf8(head)[i] by {
                assert(t[i] == head[i]);
            }
        }
        assert(bytes[n] == t[n] as u8 && bytes[n + 1] == t[n + 1] as u8);
        assert(front.push(b) =~= v);
    }
}

/// The first of the elements holds the port in its fifth and sixth byte, the
/// higher one first.
pub proof fn law_elements_hold_the_port(port: u16)
    ensures
        wfd_ies(port as int).len() == 25,
        wfd_ies(port as int)[4] * 256 + wfd_ies(port as int)[5] == port,
        wfd_ies(port as int)[2] == 0 && wfd_ies(port as int)[3] == 0x11,
{
}

} // verus!
