//! What holds of the operations on texts.

use vstd::prelude::*;
use crate::text;
use crate::text::{
    as_i64, as_unsigned, ascii_lower, ascii_upper, dec, is_solid, is_space, is_word, join, lines,
    split_char, strip_cr, trim, trim_end, trim_start, words,
};

verus! {

/// Whether a text is nothing but white space.
pub open spec fn is_blank(s: Seq<char>) -> bool {
    forall|i: int| 0 <= i < s.len() ==> is_space(#[trigger] s[i])
}

proof fn lemma_trim_start(s: Seq<char>) -> (k: int)
    ensures
        0 <= k <= s.len(),
        trim_start(s) == s.skip(k),
        is_blank(s.take(k)),
        k < s.len() ==> !is_space(s[k]),
    decreases s.len(),
{
    if s.len() > 0 && is_space(s[0]) {
        let rest = s.skip(1);
        let j = lemma_trim_start(rest);
        assert(rest.skip(j) =~= s.skip(j + 1));
        assert forall|i: int| 0 <= i < j + 1 implies is_space(#[trigger] s.take(j + 1)[i]) by {
            if i > 0 {
                assert(rest.take(j)[i - 1] == s[i]);
                assert(is_space(rest.take(j)[i - 1]));
            }
        }
        j + 1
    } else {
        assert(s.skip(0) =~= s);
        0
    }
}

proof fn lemma_trim_end(s: Seq<char>) -> (k: int)
    ensures
        0 <= k <= s.len(),
        trim_end(s) == s.take(k),
        is_blank(s.skip(k)),
        k > 0 ==> !is_space(s[k - 1]),
    decreases s.len(),
{
    if s.len() > 0 && is_space(s.last()) {
        let front = s.drop_last();
        let j = lemma_trim_end(front);
        assert(front.take(j) =~= s.take(j));
        assert forall|i: int| 0 <= i < s.len() - j implies is_space(#[trigger] s.skip(j)[i]) by {
            if i < s.len() - j - 1 {
                assert(front.skip(j)[i] == s[i + j]);
                assert(is_space(front.skip(j)[i]));
            }
        }
        j
    } else {
        assert(s.take(s.len() as int) =~= s);
        s.len() as int
    }
}

/// What is taken off a text on both sides is white space, and what is left has
/// none there.
pub proof fn law_trim_takes_off_white_space(s: Seq<char>)
    ensures
        trim(s).len() == 0 || is_solid(trim(s)),
        exists|a: int, b: int|
            0 <= a <= b <= s.len() && trim(s) == #[trigger] s.subrange(a, b) && is_blank(s.take(a))
                && is_blank(s.skip(b)),
{
    let a = lemma_trim_start(s);
    let t = trim_start(s);
    let k = lemma_trim_end(t);
    assert(trim(s) == t.take(k));
    let b = a + k;
    assert(t.take(k) =~= s.subrange(a, b));
    assert forall|i: int| 0 <= i < s.len() - b implies is_space(#[trigger] s.skip(b)[i]) by {
        assert(t.skip(k)[i] == s[b + i]);
        assert(is_space(t.skip(k)[i]));
    }
    if k > 0 {
        assert(trim(s)[0] == s[a]);
        assert(trim(s).last() == t[k - 1]);
    }
    assert(0 <= a <= b <= s.len() && trim(s) == s.subrange(a, b) && is_blank(s.take(a)) && is_blank(
        s.skip(b),
    ));
}

/// A text that is cut at a character is made up again by joining the pieces with
/// it, and no piece holds it.
pub proof fn law_pieces_make_up_the_text(s: Seq<char>, c: char)
    ensures
        join(split_char(s, c), seq![c]) == s,
        forall|i: int|
            0 <= i < split_char(s, c).len() ==> !(#[trigger] split_char(s, c)[i]).contains(c),
        split_char(s, c).len() >= 1,
    decreases s.len(),
{
    text::lemma_split_char_some(s, c);
    let all = split_char(s, c);
    if s.len() == 0 {
        assert(s =~= Seq::<char>::empty());
        assert(all[0] == Seq::<char>::empty());
    } else {
        let front = s.drop_last();
        let before = split_char(front, c);
        law_pieces_make_up_the_text(front, c);
        assert(s =~= front.push(s.last()));
        if s.last() == c {
            assert(all.drop_last() =~= before);
            assert(all.last() == Seq::<char>::empty());
            assert(join(all, seq![c]) =~= join(before, seq![c]) + seq![c]);
            assert forall|i: int| 0 <= i < all.len() implies !(#[trigger] all[i]).contains(c) by {
                if i < before.len() {
                    assert(all[i] == before[i]);
                }
            }
        } else {
            let last = before.last();
            let new = last.push(s.last());
            assert(all.drop_last() =~= before.drop_last());
            assert(all.last() == new);
            assert(!before[before.len() - 1].contains(c));
            if before.len() == 1 {
                assert(join(all, seq![c]) =~= s);
            } else {
                assert(join(all, seq![c]) =~= join(before.drop_last(), seq![c]) + seq![c] + new);
                assert(join(before, seq![c]) == join(before.drop_last(), seq![c]) + seq![c] + last);
                assert(join(all, seq![c]) =~= s);
            }
            assert forall|i: int| 0 <= i < all.len() implies !(#[trigger] all[i]).contains(c) by {
                if i < all.len() - 1 {
                    assert(all[i] == before[i]);
                } else {
                    assert forall|j: int| 0 <= j < new.len() implies new[j] != c by {
                        if j < last.len() {
                            assert(last.contains(last[j]));
                        }
                    }
                }
            }
        }
    }
}

/// Lines one below the other, each with the given end.
pub open spec fn ended(ls: Seq<Seq<char>>, end: Seq<char>) -> Seq<char>
    decreases ls.len(),
{
    if ls.len() == 0 {
        Seq::empty()
    } else {
        ls[0] + end + ended(ls.skip(1), end)
    }
}

/// A line without the line feed that ends it.
spec fn raw_line(l: Seq<char>, cr: bool) -> Seq<char> {
    if cr {
        l.push('\r')
    } else {
        l
    }
}

spec fn line_end(cr: bool) -> Seq<char> {
    if cr {
        seq!['\r', '\n']
    } else {
        seq!['\n']
    }
}

spec fn raw_lines(ls: Seq<Seq<char>>, cr: bool) -> Seq<Seq<char>> {
    Seq::new(ls.len(), |i: int| raw_line(ls[i], cr))
}

proof fn lemma_ended(ls: Seq<Seq<char>>, cr: bool)
    requires
        forall|i: int| 0 <= i < ls.len() ==> !(#[trigger] ls[i]).contains('\n'),
    ensures
        split_char(ended(ls, line_end(cr)), '\n') == raw_lines(ls, cr).push(Seq::empty()),
    decreases ls.len(),
{
    let end = line_end(cr);
    let t = ended(ls, end);
    let want = raw_lines(ls, cr).push(Seq::<char>::empty());
    if ls.len() == 0 {
        assert(split_char(t, '\n') =~= want);
    } else {
        let rest = ls.skip(1);
        assert forall|i: int| 0 <= i < rest.len() implies !(#[trigger] rest[i]).contains('\n') by {
            assert(rest[i] == ls[i + 1]);
        }
        lemma_ended(rest, cr);
        let first = raw_line(ls[0], cr);
        assert(!ls[0].contains('\n'));
        assert(!first.contains('\n')) by {
            assert forall|i: int| 0 <= i < first.len() implies first[i] != '\n' by {
                if i < ls[0].len() {
                    assert(first[i] == ls[0][i]);
                    assert(ls[0].contains(ls[0][i]));
                }
            }
        }
        assert(t =~= first.push('\n') + ended(rest, end));
        text::lemma_split_char_between(first, '\n', ended(rest, end));
        text::lemma_split_char_solid(first, '\n');
        let more = raw_lines(rest, cr).push(Seq::<char>::empty());
        assert(seq![first] + more =~= want) by {
            assert forall|i: int| 0 <= i < want.len() implies (seq![first] + more)[i] == want[i] by {
                if 0 < i < ls.len() {
                    assert(rest[i - 1] == ls[i]);
                }
            }
        }
    }
}

/// Lines are read as they were written, whether they end in a line feed alone or
/// with a carriage return before it.
pub proof fn law_lines_are_read_as_written(ls: Seq<Seq<char>>)
    requires
        forall|i: int|
            0 <= i < ls.len() ==> !(#[trigger] ls[i]).contains('\n') && !ls[i].contains('\r'),
    ensures
        lines(ended(ls, seq!['\n'])) == ls,
        lines(ended(ls, seq!['\r', '\n'])) == ls,
{
    lemma_ended(ls, false);
    lemma_ended(ls, true);
    assert(line_end(false) =~= seq!['\n']);
    assert(line_end(true) =~= seq!['\r', '\n']);
    let a = raw_lines(ls, false);
    let b = raw_lines(ls, true);
    let none = Seq::<char>::empty();
    assert(a.push(none).drop_last() =~= a && b.push(none).drop_last() =~= b);
    assert forall|i: int| 0 <= i < ls.len() implies strip_cr(#[trigger] a[i]) == ls[i] by {
        assert(a[i] == ls[i]);
        if ls[i].len() > 0 {
            assert(ls[i].contains(ls[i][ls[i].len() - 1]));
        }
    }
    assert forall|i: int| 0 <= i < ls.len() implies strip_cr(#[trigger] b[i]) == ls[i] by {
        assert(b[i] == ls[i].push('\r'));
        assert(ls[i].push('\r').drop_last() =~= ls[i]);
    }
    assert(lines(ended(ls, seq!['\n'])) =~= ls);
    assert(lines(ended(ls, seq!['\r', '\n'])) =~= ls);
}

/// Words that are joined by spaces are read as those words.
pub proof fn law_words_are_read_as_joined(ws: Seq<Seq<char>>)
    requires
        ws.len() > 0,
        forall|i: int| 0 <= i < ws.len() ==> is_word(#[trigger] ws[i]),
    ensures
        words(join(ws, " "@)) == ws,
{
    text::lemma_words_of_join(ws);
}

/// A number in decimal is read as that number, with a plus before it too, and
/// none with something else behind it is read.
pub proof fn law_numbers_are_read_as_written(n: int, c: char)
    requires
        i64::MIN <= n <= i64::MAX,
    ensures
        as_i64(dec(n)) == Some(n),
        n >= 0 ==> as_i64(seq!['+'] + dec(n)) == Some(n),
        n >= 0 ==> as_unsigned(dec(n), 10, i64::MAX as int) == Some(n),
        n < 0 ==> as_unsigned(dec(n), 10, i64::MAX as int) is None,
        !('0' <= c && c <= '9') ==> as_i64(dec(n).push(c)) is None,
{
    text::lemma_dec_read_back(n);
    let d = dec(n);
    if n >= 0 {
        text::lemma_digits_read_back(n, 10, false);
        text::lemma_plain_is_word(d);
        assert((seq!['+'] + d).skip(1) =~= d);
    }
    let e = d.push(c);
    if !('0' <= c && c <= '9') {
        assert(text::digit_value(c, 10) is None);
        assert(e.drop_last() =~= d);
        assert(e.last() == c);
        if n >= 0 {
            assert(e[0] == d[0]);
            assert(text::digits_value(e, 10) is None);
        } else {
            let g = e.skip(1);
            assert(e[0] == '-');
            assert(g.last() == c);
            assert(text::digits_value(g, 10) is None);
        }
    }
}

/// Letters change their case and nothing else does; twice is as good as once.
pub proof fn law_case_is_changed_once(s: Seq<char>)
    ensures
        ascii_lower(ascii_lower(s)) == ascii_lower(s),
        ascii_upper(ascii_upper(s)) == ascii_upper(s),
        ascii_lower(ascii_upper(s)) == ascii_lower(s),
        ascii_lower(s).len() == s.len(),
        forall|i: int|
            0 <= i < s.len() && !('A' <= s[i] && s[i] <= 'Z') ==> #[trigger] ascii_lower(s)[i]
                == s[i],
        forall|i: int|
            0 <= i < s.len() && ('A' <= s[i] && s[i] <= 'Z') ==> #[trigger] ascii_lower(s)[i] as u32
                == s[i] as u32 + 32,
{
    assert(ascii_lower(ascii_lower(s)) =~= ascii_lower(s));
    assert(ascii_upper(ascii_upper(s)) =~= ascii_upper(s));
    assert(ascii_lower(ascii_upper(s)) =~= ascii_lower(s));
}

} // verus!
