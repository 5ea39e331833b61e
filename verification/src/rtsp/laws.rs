//! What holds of every message: line ends of either form are read alike, and
//! the size check leaves nothing that the parser refuses for its size.

use vstd::prelude::*;
use vstd::utf8::{
    char_is_scalar, decode_utf8, decode_utf8_encode_utf8, encode_scalar, encode_utf8,
    has_width_1_encoding, has_width_2_encoding, has_width_3_encoding, is_ascii_chars_encode_utf8,
    last_continuation_byte, leading_byte_width_1, leading_byte_width_2, leading_byte_width_3,
    leading_byte_width_4, second_last_continuation_byte, third_last_continuation_byte, valid_utf8,
};
use crate::rtsp::{
    blank_line, header_lines, parse_data, parse_text, read_message, size_fault, split_message,
    splits_character, MAX_HEADER_SIZE, RTSP_REQUEST_ENTITY_TOO_LARGE,
};
use crate::text;
use crate::text::{contains, find, join, occurs_at, split_char, split_on};

verus! {

/// Whether the lines of a header block are such: none is empty and none holds
/// the end of a line.
pub open spec fn are_lines(ls: Seq<Seq<char>>) -> bool {
    ls.len() > 0 && forall|i: int|
        0 <= i < ls.len() ==> (#[trigger] ls[i]).len() > 0 && !ls[i].contains('\r')
            && !ls[i].contains('\n')
}

/// A message with the given lines, each with the given end, and a body behind
/// an empty line.
pub open spec fn message_of(ls: Seq<Seq<char>>, end: Seq<char>, body: Seq<char>) -> Seq<char> {
    join(ls, end) + (end + end) + body
}

proof fn lemma_join_front(ls: Seq<Seq<char>>, sep: Seq<char>)
    requires
        ls.len() >= 2,
    ensures
        join(ls, sep) == ls[0] + sep + join(ls.skip(1), sep),
    decreases ls.len(),
{
    let t = ls.skip(1);
    if ls.len() == 2 {
        assert(ls.drop_last() =~= seq![ls[0]]);
        assert(join(ls.drop_last(), sep) == ls[0]);
        assert(join(t, sep) == ls[1]);
    } else {
        lemma_join_front(ls.drop_last(), sep);
        assert(ls.drop_last().skip(1) =~= t.drop_last());
        assert(join(ls, sep) == join(ls.drop_last(), sep) + sep + ls.last());
        assert(join(t, sep) == join(t.drop_last(), sep) + sep + t.last());
        assert(join(ls, sep) =~= ls[0] + sep + join(t, sep));
    }
}

proof fn lemma_lines_rest(ls: Seq<Seq<char>>)
    requires
        are_lines(ls),
        ls.len() >= 2,
    ensures
        are_lines(ls.skip(1)),
        are_lines(ls.drop_last()),
{
    let t = ls.skip(1);
    assert forall|i: int| 0 <= i < t.len() implies (#[trigger] t[i]).len() > 0 && !t[i].contains(
        '\r',
    ) && !t[i].contains('\n') by {
        assert(t[i] == ls[i + 1]);
    }
    let u = ls.drop_last();
    assert forall|i: int| 0 <= i < u.len() implies (#[trigger] u[i]).len() > 0 && !u[i].contains(
        '\r',
    ) && !u[i].contains('\n') by {
        assert(u[i] == ls[i]);
    }
}

/// Lines that end in a carriage return and a line feed are found again.
pub proof fn lemma_long_ends(ls: Seq<Seq<char>>, body: Seq<char>)
    requires
        are_lines(ls),
    ensures
        header_lines(join(ls, "\r\n"@)) == ls,
        split_on(join(ls, "\r\n"@), "\r\n"@) == ls,
        find(message_of(ls, "\r\n"@, body), "\r\n\r\n"@) == Some(join(ls, "\r\n"@).len() as int),
        message_of(ls, "\r\n"@, body).len() > 0,
        message_of(ls, "\r\n"@, body)[0] == ls[0][0],
    decreases ls.len(),
{
    let e = "\r\n"@;
    let h = join(ls, e);
    let m = message_of(ls, e, body);
    reveal_strlit("\r\n");
    reveal_strlit("\r\n\r\n");
    assert(e + e =~= "\r\n\r\n"@);
    assert(ls[0].len() > 0 && !ls[0].contains('\r') && !ls[0].contains('\n'));
    if ls.len() == 1 {
        assert(h == ls[0]);
        text::lemma_find_empty_line(h, body);
        text::lemma_split_on_one_line(h);
        assert(ls =~= seq![h]);
        text::lemma_find_from(h, e, 0);
        if let Some(k) = find(h, e) {
            assert(h.subrange(k, k + 2)[0] == h[k]);
            assert(h.contains(h[k]));
        }
        text::lemma_split_char_solid(h, '\n');
        assert(m[0] == h[0]);
    } else {
        let t = ls.skip(1);
        lemma_lines_rest(ls);
        lemma_long_ends(t, body);
        lemma_join_front(ls, e);
        let rest = join(t, e);
        text::lemma_split_on_line_end(ls[0], rest);
        assert(seq![ls[0]] + t =~= ls);
        let tail = message_of(t, e, body);
        assert(m =~= ls[0] + e + tail);
        assert(t[0] == ls[1]);
        assert(tail[0] == ls[1][0]);
        assert(ls[1].len() > 0 && !ls[1].contains('\r'));
        assert(ls[1].contains(ls[1][0]));
        text::lemma_find_empty_line_later(ls[0], tail);
        assert(m[0] == ls[0][0]);
    }
}

/// Joined lines with plain ends hold no carriage return and no empty line.
proof fn lemma_plain_join(ls: Seq<Seq<char>>)
    requires
        are_lines(ls),
    ensures
        split_char(join(ls, "\n"@), '\n') == ls,
        !join(ls, "\n"@).contains('\r'),
        join(ls, "\n"@).len() > 0,
        join(ls, "\n"@).last() != '\n',
        forall|j: int|
            0 <= j < join(ls, "\n"@).len() - 1 ==> !(#[trigger] join(ls, "\n"@)[j] == '\n' && join(
                ls,
                "\n"@,
            )[j + 1] == '\n'),
        join(ls, "\n"@)[0] != '\n',
    decreases ls.len(),
{
    reveal_strlit("\n");
    let h = join(ls, "\n"@);
    let l = ls.last();
    assert(ls[ls.len() - 1].len() > 0 && !ls[ls.len() - 1].contains('\r') && !ls[ls.len()
        - 1].contains('\n'));
    text::lemma_split_char_solid(l, '\n');
    assert(l.contains(l[0]) && l.contains(l.last()));
    if ls.len() == 1 {
        assert(h == l);
        assert(ls =~= seq![l]);
        assert forall|j: int| 0 <= j < h.len() - 1 implies !(#[trigger] h[j] == '\n' && h[j + 1]
            == '\n') by {
            assert(h.contains(h[j]));
        }
    } else {
        lemma_lines_rest(ls);
        let front = ls.drop_last();
        lemma_plain_join(front);
        let a = join(front, "\n"@);
        assert(h =~= a.push('\n') + l);
        text::lemma_split_char_between(a, '\n', l);
        assert(front + seq![l] =~= ls);
        let n = a.len() as int;
        assert forall|j: int| 0 <= j < h.len() implies h[j] != '\r' by {
            if j < n {
                assert(h[j] == a[j]);
                assert(a.contains(a[j]));
            } else if j > n {
                assert(h[j] == l[j - n - 1]);
                assert(l.contains(h[j]));
            }
        }
        assert forall|j: int| 0 <= j < h.len() - 1 implies !(#[trigger] h[j] == '\n' && h[j + 1]
            == '\n') by {
            if j < n - 1 {
                assert(h[j] == a[j] && h[j + 1] == a[j + 1]);
                assert(!(a[j] == '\n' && a[j + 1] == '\n'));
            } else if j == n - 1 {
                assert(h[j] == a[n - 1]);
            } else if j == n {
                assert(h[j + 1] == l[0]);
            } else {
                assert(h[j] == l[j - n - 1]);
                assert(l.contains(h[j]));
            }
        }
        assert(h[0] == a[0]);
        assert(h.last() == l.last());
    }
}

/// Lines that end in a line feed alone are found again.
proof fn lemma_short_ends(ls: Seq<Seq<char>>, body: Seq<char>)
    requires
        are_lines(ls),
        !contains(body, "\r\n\r\n"@),
    ensures
        header_lines(join(ls, "\n"@)) == ls,
        find(message_of(ls, "\n"@, body), "\r\n\r\n"@) is None,
        find(message_of(ls, "\n"@, body), "\n\n"@) == Some(join(ls, "\n"@).len() as int),
{
    lemma_plain_join(ls);
    let h = join(ls, "\n"@);
    let m = message_of(ls, "\n"@, body);
    reveal_strlit("\n");
    reveal_strlit("\n\n");
    reveal_strlit("\r\n");
    reveal_strlit("\r\n\r\n");
    let n = h.len() as int;
    text::lemma_find_from(h, "\r\n"@, 0);
    if let Some(k) = find(h, "\r\n"@) {
        assert(h.subrange(k, k + 2)[0] == h[k]);
        assert(h.contains(h[k]));
    }
    text::lemma_find_from(m, "\r\n\r\n"@, 0);
    text::lemma_find_from(body, "\r\n\r\n"@, 0);
    if let Some(k) = find(m, "\r\n\r\n"@) {
        let w = m.subrange(k, k + 4);
        assert(w[0] == m[k]);
        if k < n {
            assert(m[k] == h[k]);
            assert(h.contains(h[k]));
        } else if k >= n + 2 {
            assert(w =~= body.subrange(k - n - 2, k - n - 2 + 4));
            assert(occurs_at(body, "\r\n\r\n"@, k - n - 2));
        }
    }
    assert(m.subrange(n, n + 2) =~= "\n\n"@);
    assert forall|j: int| 0 <= j < n implies !#[trigger] occurs_at(m, "\n\n"@, j) by {
        if occurs_at(m, "\n\n"@, j) {
            let w = m.subrange(j, j + 2);
            assert(w[0] == m[j] && w[1] == m[j + 1]);
            assert(m[j] == h[j]);
            if j < n - 1 {
                assert(m[j + 1] == h[j + 1]);
                assert(!(h[j] == '\n' && h[j + 1] == '\n'));
            } else {
                assert(h[j] == h.last());
            }
        }
    }
    text::lemma_find_at(m, "\n\n"@, n);
}

/// The bytes of two texts, one behind the other, are those of both.
proof fn lemma_encode_both(a: Seq<char>, b: Seq<char>)
    ensures
        encode_utf8(a + b) == encode_utf8(a) + encode_utf8(b),
    decreases a.len(),
{
    if a.len() == 0 {
        assert(a + b =~= b);
        assert(encode_utf8(a) + encode_utf8(b) =~= encode_utf8(b));
    } else {
        lemma_encode_both(a.drop_first(), b);
        assert((a + b).drop_first() =~= a.drop_first() + b);
        assert(encode_utf8(a + b) =~= encode_utf8(a) + encode_utf8(b));
    }
}

/// Plain line ends take no more bytes than long ones.
proof fn lemma_plain_is_shorter(ls: Seq<Seq<char>>)
    ensures
        encode_utf8(join(ls, "\n"@)).len() <= encode_utf8(join(ls, "\r\n"@)).len(),
    decreases ls.len(),
{
    if ls.len() > 1 {
        let front = ls.drop_last();
        lemma_plain_is_shorter(front);
        let a = join(front, "\n"@);
        let b = join(front, "\r\n"@);
        lemma_encode_both(a + "\n"@, ls.last());
        lemma_encode_both(a, "\n"@);
        lemma_encode_both(b + "\r\n"@, ls.last());
        lemma_encode_both(b, "\r\n"@);
        reveal_strlit("\n");
        reveal_strlit("\r\n");
        is_ascii_chars_encode_utf8("\n"@);
        is_ascii_chars_encode_utf8("\r\n"@);
    }
}

/// A message whose lines end in a carriage return and a line feed and the same
/// message with line feeds alone are read alike: both give the same request, or
/// both are refused for the same reason. Left out are messages that only their
/// line ends take over the size limit, and bodies that hold an empty line with
/// long ends, which would be taken for the end of the header.
pub proof fn law_line_ends_are_read_alike(ls: Seq<Seq<char>>, body: Seq<char>)
    requires
        are_lines(ls),
        encode_utf8(join(ls, "\r\n"@)).len() <= MAX_HEADER_SIZE || encode_utf8(
            join(ls, "\n"@),
        ).len() > MAX_HEADER_SIZE,
        !contains(body, "\r\n\r\n"@),
    ensures
        parse_text(message_of(ls, "\r\n"@, body)) == parse_text(message_of(ls, "\n"@, body)),
        parse_data(
            encode_utf8(message_of(ls, "\r\n"@, body)),
            message_of(ls, "\r\n"@, body),
        ) == parse_data(encode_utf8(message_of(ls, "\n"@, body)), message_of(ls, "\n"@, body)),
        splits_character(message_of(ls, "\r\n"@, body)) == splits_character(
            message_of(ls, "\n"@, body),
        ),
{
    lemma_long_ends(ls, body);
    lemma_short_ends(ls, body);
    lemma_plain_is_shorter(ls);
    reveal_strlit("\n");
    reveal_strlit("\r\n");
    let long = message_of(ls, "\r\n"@, body);
    let short = message_of(ls, "\n"@, body);
    let h = join(ls, "\r\n"@);
    let g = join(ls, "\n"@);
    assert(long.take(h.len() as int) =~= h);
    assert(long.skip((h.len() + 4) as int) =~= body);
    assert(short.take(g.len() as int) =~= g);
    assert(short.skip((g.len() + 2) as int) =~= body);
    assert(split_message(long) == (h, body));
    assert(split_message(short) == (g, body));
    assert(read_message(long) == read_message(short));
    lemma_scalar_bytes(long[0]);
    lemma_scalar_bytes(short[0]);
}

/// The bytes of a character: itself where it is ASCII, and otherwise bytes that
/// are not.
proof fn lemma_scalar_bytes(c: char)
    ensures
        ({
            let b = encode_scalar(c as u32);
            &&& b.len() > 0
            &&& (b.len() == 1 && b[0] == c as u32) || forall|i: int|
                0 <= i < b.len() ==> #[trigger] b[i] >= 128
        }),
{
    let s = c as u32;
    char_is_scalar(c);
    assert(forall|x: u8| #![trigger 0x80u8 | x] (0x80u8 | x) >= 128) by (bit_vector);
    assert(forall|x: u8| #![trigger 0xC0u8 | x] (0xC0u8 | x) >= 128) by (bit_vector);
    assert(forall|x: u8| #![trigger 0xE0u8 | x] (0xE0u8 | x) >= 128) by (bit_vector);
    assert(forall|x: u8| #![trigger 0xF0u8 | x] (0xF0u8 | x) >= 128) by (bit_vector);
    if has_width_1_encoding(s) {
        assert((s & 0x7F) as u8 == s) by (bit_vector)
            requires
                s <= 0x7F,
        ;
        assert(leading_byte_width_1(s) == s);
    } else if has_width_2_encoding(s) {
        assert(leading_byte_width_2(s) >= 128 && last_continuation_byte(s) >= 128);
    } else if has_width_3_encoding(s) {
        assert(leading_byte_width_3(s) >= 128 && second_last_continuation_byte(s) >= 128
            && last_continuation_byte(s) >= 128);
    } else {
        assert(leading_byte_width_4(s) >= 128 && third_last_continuation_byte(s) >= 128
            && second_last_continuation_byte(s) >= 128 && last_continuation_byte(s) >= 128);
    }
}

/// A text whose first byte is ASCII begins with that character.
proof fn lemma_first_byte(t: Seq<char>)
    requires
        encode_utf8(t).len() > 0,
        encode_utf8(t)[0] < 128,
    ensures
        t.len() > 0,
        t[0] as u32 == encode_utf8(t)[0],
        encode_utf8(t).skip(1) == encode_utf8(t.drop_first()),
{
    if t.len() > 0 {
        lemma_scalar_bytes(t[0]);
        let b = encode_scalar(t[0] as u32);
        assert(encode_utf8(t)[0] == b[0]);
        assert(encode_utf8(t).skip(1) =~= encode_utf8(t.drop_first()));
    }
}

proof fn lemma_same_char(a: char, b: char)
    requires
        a as u32 == b as u32,
    ensures
        a == b,
{
}

/// Where an empty line stands in the bytes of a text, one stands in the text.
proof fn lemma_empty_line_in_text(t: Seq<char>, p: int) -> (i: int)
    requires
        occurs_at(encode_utf8(t), blank_line(), p),
    ensures
        occurs_at(t, "\r\n\r\n"@, i),
        encode_utf8(t.take(i)).len() == p,
    decreases t.len(),
{
    let d = encode_utf8(t);
    let w = d.subrange(p, p + 4);
    reveal_strlit("\r\n\r\n");
    assert(w[0] == d[p] && w[1] == d[p + 1] && w[2] == d[p + 2] && w[3] == d[p + 3]);
    assert(t.len() > 0);
    let b = encode_scalar(t[0] as u32);
    let rest = t.drop_first();
    lemma_scalar_bytes(t[0]);
    if p >= b.len() {
        assert(encode_utf8(rest).subrange(p - b.len(), p - b.len() + 4) =~= w);
        let k = lemma_empty_line_in_text(rest, p - b.len());
        assert(t.subrange(k + 1, k + 5) =~= rest.subrange(k, k + 4));
        assert(t.take(k + 1).drop_first() =~= rest.take(k));
        k + 1
    } else {
        assert(d[p] == b[p]);
        assert(p == 0);
        lemma_first_byte(t);
        let t1 = t.drop_first();
        assert(encode_utf8(t1)[0] == d[1]);
        lemma_first_byte(t1);
        let t2 = t1.drop_first();
        assert(encode_utf8(t2)[0] == d[2]);
        lemma_first_byte(t2);
        let t3 = t2.drop_first();
        assert(encode_utf8(t3)[0] == d[3]);
        lemma_first_byte(t3);
        assert(t1[0] == t[1] && t2[0] == t[2] && t3[0] == t[3]);
        lemma_same_char(t[0], '\r');
        lemma_same_char(t[1], '\n');
        lemma_same_char(t[2], '\r');
        lemma_same_char(t[3], '\n');
        assert(t.subrange(0, 4) =~= "\r\n\r\n"@);
        assert(t.take(0) =~= Seq::empty());
        0
    }
}

/// Where an empty line stands in a text, one stands in its bytes.
proof fn lemma_empty_line_in_bytes(t: Seq<char>, k: int)
    requires
        occurs_at(t, "\r\n\r\n"@, k),
    ensures
        occurs_at(encode_utf8(t), blank_line(), encode_utf8(t.take(k)).len() as int),
        encode_utf8(t).len() == encode_utf8(t.take(k)).len() + 4 + encode_utf8(t.skip(k + 4)).len(),
{
    reveal_strlit("\r\n\r\n");
    let e = "\r\n\r\n"@;
    let a = t.take(k);
    let b = t.skip(k + 4);
    assert(t.subrange(k, k + 4) == e);
    assert(t =~= a + e + b) by {
        assert forall|j: int| 0 <= j < t.len() implies t[j] == (a + e + b)[j] by {
            if k <= j < k + 4 {
                assert(t.subrange(k, k + 4)[j - k] == t[j]);
            }
        }
    }
    lemma_encode_both(a + e, b);
    lemma_encode_both(a, e);
    is_ascii_chars_encode_utf8(e);
    assert(encode_utf8(e) =~= blank_line());
    let p = encode_utf8(a).len() as int;
    assert(encode_utf8(t).subrange(p, p + 4) =~= blank_line());
}

/// The bytes before a later place of a text are more.
proof fn lemma_earlier_is_shorter(t: Seq<char>, i: int, k: int)
    requires
        0 <= i <= t.len(),
        0 <= k <= t.len(),
        encode_utf8(t.take(i)).len() < encode_utf8(t.take(k)).len(),
    ensures
        i < k,
{
    if k <= i {
        let mid = t.subrange(k, i);
        assert(t.take(i) =~= t.take(k) + mid);
        lemma_encode_both(t.take(k), mid);
    }
}

/// The first empty line of a text and of its bytes are the same.
proof fn lemma_same_empty_line(t: Seq<char>)
    ensures
        match find(t, "\r\n\r\n"@) {
            Some(k) => 0 <= k <= t.len() - 4 && find(encode_utf8(t), blank_line()) == Some(
                encode_utf8(t.take(k)).len() as int,
            ) && encode_utf8(t).len() == encode_utf8(t.take(k)).len() + 4 + encode_utf8(
                t.skip(k + 4),
            ).len(),
            None => find(encode_utf8(t), blank_line()) is None,
        },
{
    let d = encode_utf8(t);
    let e = "\r\n\r\n"@;
    reveal_strlit("\r\n\r\n");
    text::lemma_find_from(t, e, 0);
    text::lemma_find_from(d, blank_line(), 0);
    match find(t, e) {
        Some(k) => {
            lemma_empty_line_in_bytes(t, k);
            let p = encode_utf8(t.take(k)).len() as int;
            assert forall|j: int| 0 <= j < p implies !#[trigger] occurs_at(d, blank_line(), j) by {
                if occurs_at(d, blank_line(), j) {
                    let i = lemma_empty_line_in_text(t, j);
                    lemma_earlier_is_shorter(t, i, k);
                }
            }
            text::lemma_find_at(d, blank_line(), p);
        },
        None => {
            if let Some(p) = find(d, blank_line()) {
                let i = lemma_empty_line_in_text(t, p);
            }
        },
    }
}

/// Nothing that keeps the size limits by its bytes is refused by the parser for
/// its size.
pub proof fn law_size_check_covers_the_parser(data: Seq<u8>)
    requires
        valid_utf8(data),
    ensures
        parse_data(data, decode_utf8(data)) matches Err(e) && e.1 == RTSP_REQUEST_ENTITY_TOO_LARGE
            ==> (size_fault(data) matches Some(f) && f.1 == RTSP_REQUEST_ENTITY_TOO_LARGE),
{
    let t = decode_utf8(data);
    decode_utf8_encode_utf8(data);
    lemma_same_empty_line(t);
    reveal_strlit("\n\n");
    if find(t, "\r\n\r\n"@) is None {
        text::lemma_find_from(t, "\n\n"@, 0);
        if let Some(k) = find(t, "\n\n"@) {
            let a = t.take(k);
            let b = t.skip(k + 2);
            assert(t =~= a + t.subrange(k, k + 2) + b);
            lemma_encode_both(a + t.subrange(k, k + 2), b);
            lemma_encode_both(a, t.subrange(k, k + 2));
        } else {
            assert(encode_utf8(Seq::<char>::empty()).len() == 0);
        }
    }
}

} // verus!
