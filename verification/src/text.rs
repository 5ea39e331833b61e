//! Text as sequences of characters: trimming, splitting, searching, and the
//! reading and writing of numbers.

pub mod laws;

use vstd::prelude::*;
use vstd::slice::slice_subrange;

verus! {

/// Whether the character has Unicode's `White_Space` property.
pub open spec fn is_space(c: char) -> bool {
    let n = c as u32;
    ||| 0x9 <= n <= 0xd
    ||| n == 0x20
    ||| n == 0x85
    ||| n == 0xa0
    ||| n == 0x1680
    ||| 0x2000 <= n <= 0x200a
    ||| n == 0x2028
    ||| n == 0x2029
    ||| n == 0x202f
    ||| n == 0x205f
    ||| n == 0x3000
}

/// Tells whether a character is white space.
pub fn char_is_space(c: char) -> (r: bool)
    ensures
        r == is_space(c),
{
    let n: u32 = c as u32;
    (0x9 <= n && n <= 0xd) || n == 0x20 || n == 0x85 || n == 0xa0 || n == 0x1680 || (0x2000 <= n
        && n <= 0x200a) || n == 0x2028 || n == 0x2029 || n == 0x202f || n == 0x205f || n == 0x3000
}

/// The characters of a string.
pub fn chars_of(s: &str) -> (r: Vec<char>)
    ensures
        r@ == s@,
{
    let mut out: Vec<char> = Vec::new();
    for c in it: s.chars()
        invariant
            out@ == s@.take(it.index() as int),
            it.seq() == s@,
    {
        out.push(c);
        assert(s@.take(it.index() + 1) =~= s@.take(it.index() as int).push(c));
    }
    assert(s@.take(s@.len() as int) =~= s@);
    out
}

/// The string made of the given characters.
pub fn string_of(c: &[char]) -> (r: String)
    ensures
        r@ == c@,
{
    let mut out: String = String::new();
    let mut i: usize = 0;
    while i < c.len()
        invariant
            i <= c.len(),
            out@ == c@.take(i as int),
        decreases c.len() - i,
    {
        out.push(c[i]);
        i += 1;
        assert(c@.take(i as int) =~= c@.take(i - 1).push(c@[i - 1]));
    }
    assert(c@.take(c@.len() as int) =~= c@);
    out
}

/// Whether two sequences of characters are the same.
pub fn same(a: &[char], b: &[char]) -> (r: bool)
    ensures
        r == (a@ == b@),
{
    if a.len() != b.len() {
        return false;
    }
    let mut i: usize = 0;
    while i < a.len()
        invariant
            i <= a.len(),
            a.len() == b.len(),
            a@.take(i as int) == b@.take(i as int),
        decreases a.len() - i,
    {
        if a[i] != b[i] {
            assert(a@[i as int] != b@[i as int]);
            return false;
        }
        i += 1;
        assert(a@.take(i as int) =~= a@.take(i - 1).push(a@[i - 1]));
        assert(b@.take(i as int) =~= b@.take(i - 1).push(b@[i - 1]));
    }
    assert(a@.take(a@.len() as int) =~= a@);
    assert(b@.take(b@.len() as int) =~= b@);
    true
}

/// Whether the characters are those of a string.
pub fn is_text(a: &[char], b: &str) -> (r: bool)
    ensures
        r == (a@ == b@),
{
    let y: Vec<char> = chars_of(b);
    same(a, y.as_slice())
}

/// Whether a string holds the same characters as another.
pub fn same_str(a: &str, b: &str) -> (r: bool)
    ensures
        r == (a@ == b@),
{
    let x: Vec<char> = chars_of(a);
    let y: Vec<char> = chars_of(b);
    same(x.as_slice(), y.as_slice())
}

/// A string with another one behind it.
pub fn joined(mut a: String, b: &str) -> (r: String)
    ensures
        r@ == a@ + b@,
{
    a.append(b);
    a
}

/// The text without the white space at its start.
pub open spec fn trim_start(s: Seq<char>) -> Seq<char>
    decreases s.len(),
{
    if s.len() > 0 && is_space(s[0]) {
        trim_start(s.skip(1))
    } else {
        s
    }
}

/// The text without the white space at its end.
pub open spec fn trim_end(s: Seq<char>) -> Seq<char>
    decreases s.len(),
{
    if s.len() > 0 && is_space(s.last()) {
        trim_end(s.drop_last())
    } else {
        s
    }
}

/// The text without the white space around it.
pub open spec fn trim(s: Seq<char>) -> Seq<char> {
    trim_end(trim_start(s))
}

/// Removes the white space around a text.
pub fn trimmed(s: &[char]) -> (r: &[char])
    ensures
        r@ == trim(s@),
{
    let mut i: usize = 0;
    assert(s@.skip(0) =~= s@);
    while i < s.len() && char_is_space(s[i])
        invariant
            i <= s.len(),
            trim_start(s@.skip(i as int)) == trim_start(s@),
        decreases s.len() - i,
    {
        assert(s@.skip(i as int).skip(1) =~= s@.skip(i + 1));
        i += 1;
    }
    let t: &[char] = slice_subrange(s, i, s.len());
    assert(t@ =~= s@.skip(i as int));
    trimmed_end(t)
}

/// Removes the white space at the end of a text.
pub fn trimmed_end(t: &[char]) -> (r: &[char])
    ensures
        r@ == trim_end(t@),
{
    let mut j: usize = t.len();
    assert(t@.take(j as int) =~= t@);
    while j > 0 && char_is_space(t[j - 1])
        invariant
            j <= t.len(),
            trim_end(t@.take(j as int)) == trim_end(t@),
        decreases j,
    {
        assert(t@.take(j as int).drop_last() =~= t@.take(j - 1));
        j -= 1;
    }
    let r: &[char] = slice_subrange(t, 0, j);
    assert(r@ =~= t@.take(j as int));
    r
}


/// Whether the pattern stands in the text at the given position.
pub open spec fn occurs_at<A>(s: Seq<A>, pat: Seq<A>, i: int) -> bool {
    0 <= i && i + pat.len() <= s.len() && s.subrange(i, i + pat.len()) == pat
}

/// The first position from `i` on at which the pattern stands in the text.
pub open spec fn find_from<A>(s: Seq<A>, pat: Seq<A>, i: int) -> Option<int>
    decreases s.len() - i + 1,
{
    if i < 0 || i + pat.len() > s.len() {
        None
    } else if occurs_at(s, pat, i) {
        Some(i)
    } else {
        find_from(s, pat, i + 1)
    }
}

/// The first position at which the pattern stands in the text.
pub open spec fn find<A>(s: Seq<A>, pat: Seq<A>) -> Option<int> {
    find_from(s, pat, 0)
}

/// Whether the pattern stands somewhere in the text.
pub open spec fn contains<A>(s: Seq<A>, pat: Seq<A>) -> bool {
    find(s, pat) is Some
}

/// A pattern is found at a place where it stands, and there is none before it;
/// where nothing is found it stands nowhere.
pub proof fn lemma_find_from<A>(s: Seq<A>, pat: Seq<A>, i: int)
    requires
        0 <= i,
    ensures
        find_from(s, pat, i) matches Some(k) ==> i <= k && occurs_at(s, pat, k),
        find_from(s, pat, i) matches Some(k) ==> forall|j: int|
            i <= j < k ==> !#[trigger] occurs_at(s, pat, j),
        find_from(s, pat, i) is None ==> forall|j: int| i <= j ==> !#[trigger] occurs_at(s, pat, j),
    decreases s.len() - i + 1,
{
    if i + pat.len() <= s.len() && !occurs_at(s, pat, i) {
        lemma_find_from(s, pat, i + 1);
    }
}

/// Tells whether the pattern stands in the text at the given position.
pub fn stands_at(s: &[char], pat: &[char], i: usize) -> (r: bool)
    ensures
        r == occurs_at(s@, pat@, i as int),
{
    if i > s.len() || s.len() - i < pat.len() {
        return false;
    }
    let t: &[char] = slice_subrange(s, i, i + pat.len());
    same(t, pat)
}

/// Finds the first place of the pattern in the text.
pub fn position(s: &[char], pat: &[char]) -> (r: Option<usize>)
    ensures
        match r {
            Some(k) => find(s@, pat@) == Some(k as int),
            None => find(s@, pat@) is None,
        },
        r matches Some(k) ==> k + pat@.len() <= s@.len(),
{
    let mut i: usize = 0;
    while i <= s.len() && pat.len() <= s.len() - i
        invariant
            i <= s.len(),
            find(s@, pat@) == find_from(s@, pat@, i as int),
        decreases s.len() - i,
    {
        if stands_at(s, pat, i) {
            return Some(i);
        }
        if i == s.len() {
            assert(pat@.len() == 0);
            assert(s@.subrange(i as int, i as int) =~= pat@);
            assert(false);
        }
        i += 1;
    }
    None
}

/// Whether the text holds the pattern.
pub fn holds(s: &[char], pat: &str) -> (r: bool)
    ensures
        r == contains(s@, pat@),
{
    let p: Vec<char> = chars_of(pat);
    position(s, p.as_slice()).is_some()
}

/// Whether the text begins with the pattern.
pub fn begins_with(s: &[char], pat: &str) -> (r: bool)
    ensures
        r == pat@.is_prefix_of(s@),
{
    let p: Vec<char> = chars_of(pat);
    let r: bool = stands_at(s, p.as_slice(), 0);
    assert(r ==> pat@ =~= s@.subrange(0, pat@.len() as int));
    r
}

/// Whether the text ends with the pattern.
pub fn finishes_with(s: &[char], pat: &str) -> (r: bool)
    ensures
        r == pat@.is_suffix_of(s@),
{
    let p: Vec<char> = chars_of(pat);
    if p.len() > s.len() {
        return false;
    }
    let k: usize = s.len() - p.len();
    let r: bool = stands_at(s, p.as_slice(), k);
    assert(s@.subrange(s@.len() - pat@.len(), s@.len() as int) == s@.subrange(k as int, k + p@.len()));
    r
}

/// The character sequences that the vectors stand for.
pub open spec fn texts(v: Seq<Vec<char>>) -> Seq<Seq<char>> {
    Seq::new(v.len(), |i: int| v[i]@)
}

/// The character sequences that the strings stand for.
pub open spec fn strs(v: Seq<String>) -> Seq<Seq<char>> {
    Seq::new(v.len(), |i: int| v[i]@)
}

/// The pieces of a text between the occurrences of a separating character.
pub open spec fn split_char(s: Seq<char>, sep: char) -> Seq<Seq<char>>
    decreases s.len(),
{
    if s.len() == 0 {
        seq![Seq::<char>::empty()]
    } else {
        let before = split_char(s.drop_last(), sep);
        if s.last() == sep {
            before.push(Seq::<char>::empty())
        } else {
            before.drop_last().push(before.last().push(s.last()))
        }
    }
}

/// There is always at least one piece.
pub proof fn lemma_split_char_some(s: Seq<char>, sep: char)
    ensures
        split_char(s, sep).len() >= 1,
    decreases s.len(),
{
    if s.len() > 0 {
        lemma_split_char_some(s.drop_last(), sep);
    }
}

/// Cuts a text at each occurrence of a separating character.
pub fn pieces(s: &[char], sep: char) -> (r: Vec<Vec<char>>)
    ensures
        texts(r@) == split_char(s@, sep),
        r@.len() >= 1,
{
    let mut out: Vec<Vec<char>> = Vec::new();
    let mut cur: Vec<char> = Vec::new();
    let mut i: usize = 0;
    assert(split_char(s@.take(0), sep) =~= texts(out@).push(cur@));
    while i < s.len()
        invariant
            i <= s.len(),
            split_char(s@.take(i as int), sep) == texts(out@).push(cur@),
        decreases s.len() - i,
    {
        let ghost before = texts(out@);
        let c: char = s[i];
        assert(s@.take(i + 1).drop_last() =~= s@.take(i as int));
        assert(before.push(cur@).drop_last() =~= before);
        if c == sep {
            out.push(cur);
            cur = Vec::new();
            assert(texts(out@) =~= split_char(s@.take(i as int), sep));
        } else {
            cur.push(c);
        }
        i += 1;
    }
    assert(s@.take(s@.len() as int) =~= s@);
    let ghost before = texts(out@);
    let ghost tail = cur@;
    out.push(cur);
    assert(texts(out@) =~= before.push(tail));
    out
}

/// The pieces of a text between the occurrences of a separating text.
pub open spec fn split_on(s: Seq<char>, sep: Seq<char>) -> Seq<Seq<char>>
    decreases s.len(),
{
    match find(s, sep) {
        Some(k) if 0 <= k && sep.len() > 0 && k + sep.len() <= s.len() => seq![s.take(k)] + split_on(
            s.skip(k + sep.len()),
            sep,
        ),
        _ => seq![s],
    }
}

/// Cuts a text at each occurrence of a separating text.
pub fn pieces_on(s: &[char], sep: &str) -> (r: Vec<Vec<char>>)
    requires
        sep@.len() > 0,
    ensures
        texts(r@) == split_on(s@, sep@),
        r@.len() >= 1,
{
    let p: Vec<char> = chars_of(sep);
    let mut out: Vec<Vec<char>> = Vec::new();
    let mut from: usize = 0;
    assert(s@.skip(0) =~= s@);
    assert(texts(out@) + split_on(s@.skip(0), sep@) =~= split_on(s@, sep@));
    loop
        invariant
            from <= s.len(),
            p@ == sep@,
            sep@.len() > 0,
            texts(out@) + split_on(s@.skip(from as int), sep@) == split_on(s@, sep@),
        decreases s.len() - from,
    {
        let rest: &[char] = slice_subrange(s, from, s.len());
        assert(rest@ =~= s@.skip(from as int));
        let ghost before = texts(out@);
        match position(rest, p.as_slice()) {
            Some(k) => {
                proof {
                    lemma_find_from(rest@, p@, 0);
                }
                let piece: &[char] = slice_subrange(rest, 0, k);
                let copy: Vec<char> = copied(piece);
                let ghost c = copy@;
                out.push(copy);
                assert(texts(out@) =~= before.push(c));
                assert(c =~= rest@.take(k as int));
                assert(rest@.skip(k + p@.len()) =~= s@.skip(from + k + p@.len()));
                from = from + k + p.len();
                assert(before + (seq![c] + split_on(s@.skip(from as int), sep@)) =~= before.push(c)
                    + split_on(s@.skip(from as int), sep@));
            },
            None => {
                let copy: Vec<char> = copied(rest);
                out.push(copy);
                assert(texts(out@) =~= before + seq![rest@]);
                return out;
            },
        }
    }
}

/// A copy of the characters.
pub fn copied(s: &[char]) -> (r: Vec<char>)
    ensures
        r@ == s@,
{
    let mut out: Vec<char> = Vec::new();
    let mut i: usize = 0;
    while i < s.len()
        invariant
            i <= s.len(),
            out@ == s@.take(i as int),
        decreases s.len() - i,
    {
        out.push(s[i]);
        i += 1;
        assert(s@.take(i as int) =~= s@.take(i - 1).push(s@[i - 1]));
    }
    assert(s@.take(s@.len() as int) =~= s@);
    out
}

/// The texts that are not empty, in their order.
pub open spec fn nonempty(v: Seq<Seq<char>>) -> Seq<Seq<char>> {
    v.filter(|w: Seq<char>| w.len() > 0)
}

/// The pieces of a text between its white space characters.
pub open spec fn split_space(s: Seq<char>) -> Seq<Seq<char>>
    decreases s.len(),
{
    if s.len() == 0 {
        seq![Seq::<char>::empty()]
    } else {
        let before = split_space(s.drop_last());
        if is_space(s.last()) {
            before.push(Seq::<char>::empty())
        } else {
            before.drop_last().push(before.last().push(s.last()))
        }
    }
}

/// The words of a text: what stands between its white space.
pub open spec fn words(s: Seq<char>) -> Seq<Seq<char>> {
    nonempty(split_space(s))
}

/// What stands before the last piece, and that piece.
proof fn lemma_nonempty_push(v: Seq<Seq<char>>, w: Seq<char>)
    ensures
        nonempty(v.push(w)) == if w.len() > 0 {
            nonempty(v).push(w)
        } else {
            nonempty(v)
        },
{
    reveal(Seq::filter);
    assert(v.push(w).drop_last() =~= v);
}

/// Cuts a text into its words.
pub fn words_of(s: &[char]) -> (r: Vec<Vec<char>>)
    ensures
        texts(r@) == words(s@),
{
    let mut out: Vec<Vec<char>> = Vec::new();
    let mut cur: Vec<char> = Vec::new();
    let mut i: usize = 0;
    let ghost mut all: Seq<Seq<char>> = Seq::empty();
    proof {
        reveal(Seq::filter);
        assert(split_space(s@.take(0)) =~= all.push(cur@));
        assert(nonempty(all) =~= texts(out@));
    }
    while i < s.len()
        invariant
            i <= s.len(),
            split_space(s@.take(i as int)) == all.push(cur@),
            nonempty(all) == texts(out@),
        decreases s.len() - i,
    {
        let ghost before = texts(out@);
        let c: char = s[i];
        assert(s@.take(i + 1).drop_last() =~= s@.take(i as int));
        assert(all.push(cur@).drop_last() =~= all);
        if char_is_space(c) {
            proof {
                lemma_nonempty_push(all, cur@);
                all = all.push(cur@);
            }
            if cur.len() > 0 {
                let ghost w = cur@;
                out.push(cur);
                assert(texts(out@) =~= before.push(w));
                cur = Vec::new();
            }
            assert(cur@ =~= Seq::<char>::empty());
        } else {
            cur.push(c);
        }
        i += 1;
    }
    assert(s@.take(s@.len() as int) =~= s@);
    proof {
        lemma_nonempty_push(all, cur@);
    }
    if cur.len() > 0 {
        let ghost before = texts(out@);
        let ghost w = cur@;
        out.push(cur);
        assert(texts(out@) =~= before.push(w));
    }
    out
}

/// The line without the carriage return that ends it.
pub open spec fn strip_cr(s: Seq<char>) -> Seq<char> {
    if s.len() > 0 && s.last() == '\r' {
        s.drop_last()
    } else {
        s
    }
}

/// The lines of a text: each ends in a line feed, with or without a carriage
/// return before it; what follows the last line feed is a line if it is not
/// empty.
pub open spec fn lines(s: Seq<char>) -> Seq<Seq<char>> {
    let all = split_char(s, '\n');
    let ended = all.drop_last().map_values(|l: Seq<char>| strip_cr(l));
    if all.last().len() == 0 {
        ended
    } else {
        ended.push(all.last())
    }
}

/// Cuts a text into its lines.
pub fn lines_of(s: &[char]) -> (r: Vec<Vec<char>>)
    ensures
        texts(r@) == lines(s@),
{
    let all: Vec<Vec<char>> = pieces(s, '\n');
    let mut out: Vec<Vec<char>> = Vec::new();
    let ghost want = texts(all@).drop_last().map_values(|l: Seq<char>| strip_cr(l));
    let mut i: usize = 0;
    while i < all.len() - 1
        invariant
            all@.len() >= 1,
            i + 1 <= all@.len(),
            want == texts(all@).drop_last().map_values(|l: Seq<char>| strip_cr(l)),
            texts(out@) == want.take(i as int),
        decreases all.len() - i,
    {
        let ghost before = texts(out@);
        let line: &Vec<char> = &all[i];
        let n: usize = line.len();
        let copy: Vec<char> = if n > 0 && line[n - 1] == '\r' {
            copied(slice_subrange(line.as_slice(), 0, n - 1))
        } else {
            copied(line.as_slice())
        };
        assert(copy@ =~= strip_cr(line@));
        let ghost c = copy@;
        out.push(copy);
        assert(texts(out@) =~= before.push(c));
        assert(want.take(i + 1) =~= want.take(i as int).push(want[i as int]));
        i += 1;
    }
    assert(want.take(want.len() as int) =~= want);
    if all[all.len() - 1].len() > 0 {
        let ghost before = texts(out@);
        let copy: Vec<char> = copied(all[all.len() - 1].as_slice());
        let ghost c = copy@;
        out.push(copy);
        assert(texts(out@) =~= before.push(c));
    }
    out
}

/// The position of the first occurrence of a character, if there is one.
pub open spec fn index_of(s: Seq<char>, c: char) -> Option<int>
    decreases s.len(),
{
    if s.len() == 0 {
        None
    } else {
        match index_of(s.drop_last(), c) {
            Some(k) => Some(k),
            None => if s.last() == c {
                Some(s.len() - 1)
            } else {
                None
            },
        }
    }
}

/// Finds the first occurrence of a character.
pub fn first_of(s: &[char], c: char) -> (r: Option<usize>)
    ensures
        match r {
            Some(k) => index_of(s@, c) == Some(k as int) && k < s@.len(),
            None => index_of(s@, c) is None,
        },
{
    let mut i: usize = 0;
    while i < s.len()
        invariant
            i <= s.len(),
            index_of(s@.take(i as int), c) is None,
        decreases s.len() - i,
    {
        assert(s@.take(i + 1).drop_last() =~= s@.take(i as int));
        if s[i] == c {
            proof {
                lemma_index_of_prefix(s@, i + 1, c);
            }
            return Some(i);
        }
        i += 1;
    }
    assert(s@.take(s@.len() as int) =~= s@);
    None
}

/// What is found in the first part of a text is found in the whole.
proof fn lemma_index_of_prefix(s: Seq<char>, n: int, c: char)
    requires
        0 <= n <= s.len(),
        index_of(s.take(n), c) is Some,
    ensures
        index_of(s, c) == index_of(s.take(n), c),
    decreases s.len(),
{
    if n < s.len() {
        assert(s.drop_last().take(n) =~= s.take(n));
        lemma_index_of_prefix(s.drop_last(), n, c);
    } else {
        assert(s.take(n) =~= s);
    }
}

/// What stands before and behind the first occurrence of a character.
pub open spec fn split_once(s: Seq<char>, c: char) -> Option<(Seq<char>, Seq<char>)> {
    match index_of(s, c) {
        Some(k) => Some((s.take(k), s.skip(k + 1))),
        None => None,
    }
}

/// Cuts a text at the first occurrence of a character.
pub fn cut_once(s: &[char], c: char) -> (r: Option<(&[char], &[char])>)
    ensures
        match r {
            Some(p) => split_once(s@, c) == Some((p.0@, p.1@)),
            None => split_once(s@, c) is None,
        },
{
    match first_of(s, c) {
        Some(k) => {
            let n: usize = s.len();
            let a: &[char] = slice_subrange(s, 0, k);
            let b: &[char] = slice_subrange(s, k + 1, n);
            assert(a@ =~= s@.take(k as int));
            assert(b@ =~= s@.skip(k + 1));
            Some((a, b))
        },
        None => None,
    }
}

/// The lower case form of an ASCII letter; any other character unchanged.
pub open spec fn lower(c: char) -> char {
    if 'A' <= c && c <= 'Z' {
        (c as u8 + 32) as u8 as char
    } else {
        c
    }
}

/// The upper case form of an ASCII letter; any other character unchanged.
pub open spec fn upper(c: char) -> char {
    if 'a' <= c && c <= 'z' {
        (c as u8 - 32) as u8 as char
    } else {
        c
    }
}

/// The text with its ASCII letters in lower case.
pub open spec fn ascii_lower(s: Seq<char>) -> Seq<char> {
    s.map_values(|c: char| lower(c))
}

/// The text with its ASCII letters in upper case.
pub open spec fn ascii_upper(s: Seq<char>) -> Seq<char> {
    s.map_values(|c: char| upper(c))
}

/// Puts the ASCII letters of a text in lower case.
pub fn lowered(s: &[char]) -> (r: Vec<char>)
    ensures
        r@ == ascii_lower(s@),
{
    let mut out: Vec<char> = Vec::new();
    let mut i: usize = 0;
    while i < s.len()
        invariant
            i <= s.len(),
            out@ == ascii_lower(s@.take(i as int)),
        decreases s.len() - i,
    {
        let c: char = s[i];
        let d: char = if 'A' <= c && c <= 'Z' {
            (c as u8 + 32) as char
        } else {
            c
        };
        out.push(d);
        i += 1;
        assert(ascii_lower(s@.take(i as int)) =~= ascii_lower(s@.take(i - 1)).push(d));
    }
    assert(s@.take(s@.len() as int) =~= s@);
    out
}

/// Puts the ASCII letters of a text in upper case.
pub fn uppered(s: &[char]) -> (r: Vec<char>)
    ensures
        r@ == ascii_upper(s@),
{
    let mut out: Vec<char> = Vec::new();
    let mut i: usize = 0;
    while i < s.len()
        invariant
            i <= s.len(),
            out@ == ascii_upper(s@.take(i as int)),
        decreases s.len() - i,
    {
        let c: char = s[i];
        let d: char = if 'a' <= c && c <= 'z' {
            (c as u8 - 32) as char
        } else {
            c
        };
        out.push(d);
        i += 1;
        assert(ascii_upper(s@.take(i as int)) =~= ascii_upper(s@.take(i - 1)).push(d));
    }
    assert(s@.take(s@.len() as int) =~= s@);
    out
}

/// Whether a text equals another without regard to the case of ASCII letters.
pub fn same_ignoring_case(a: &[char], b: &str) -> (r: bool)
    ensures
        r == (ascii_lower(a@) == ascii_lower(b@)),
{
    let x: Vec<char> = lowered(a);
    let y: Vec<char> = lowered(chars_of(b).as_slice());
    same(x.as_slice(), y.as_slice())
}

/// The value of a digit in the given base.
pub open spec fn digit_value(c: char, base: int) -> Option<int> {
    let v = if '0' <= c && c <= '9' {
        c as int - '0' as int
    } else if 'a' <= c && c <= 'z' {
        c as int - 'a' as int + 10
    } else if 'A' <= c && c <= 'Z' {
        c as int - 'A' as int + 10
    } else {
        -1
    };
    if 0 <= v < base {
        Some(v)
    } else {
        None
    }
}

/// The value of a digit in the given base.
pub fn digit_of(c: char, base: u32) -> (r: Option<u32>)
    requires
        base <= 36,
    ensures
        match r {
            Some(v) => digit_value(c, base as int) == Some(v as int) && v < base,
            None => digit_value(c, base as int) is None,
        },
{
    let n: u32 = c as u32;
    let v: u32 = if '0' <= c && c <= '9' {
        n - 48
    } else if 'a' <= c && c <= 'z' {
        n - 97 + 10
    } else if 'A' <= c && c <= 'Z' {
        n - 65 + 10
    } else {
        return None;
    };
    if v < base {
        Some(v)
    } else {
        None
    }
}

/// The number that a text of digits stands for in the given base; none where a
/// character is no digit.
pub open spec fn digits_value(s: Seq<char>, base: int) -> Option<int>
    decreases s.len(),
{
    if s.len() == 0 {
        Some(0)
    } else {
        match (digits_value(s.drop_last(), base), digit_value(s.last(), base)) {
            (Some(v), Some(d)) => Some(v * base + d),
            _ => None,
        }
    }
}

/// The value of the whole is not less than that of a first part, and it is no
/// number where the first part is none.
pub proof fn lemma_digits_prefix(s: Seq<char>, n: int, base: int)
    requires
        0 <= n <= s.len(),
        base >= 1,
    ensures
        digits_value(s.take(n), base) matches Some(v) ==> v >= 0,
        digits_value(s.take(n), base) is None ==> digits_value(s, base) is None,
        digits_value(s, base) matches Some(w) ==> digits_value(s.take(n), base)->0 <= w,
    decreases s.len(), n,
{
    if n < s.len() {
        assert(s.drop_last().take(n) =~= s.take(n));
        lemma_digits_prefix(s.drop_last(), n, base);
        assert(s.drop_last().take(s.len() - 1) =~= s.drop_last());
        lemma_digits_prefix(s.drop_last(), s.len() - 1, base);
        if let Some(v) = digits_value(s.drop_last(), base) {
            assert(v * base >= v) by (nonlinear_arith)
                requires
                    v >= 0,
                    base >= 1,
            ;
        }
    } else {
        assert(s.take(n) =~= s);
        if s.len() > 0 {
            assert(s.drop_last().take(s.len() - 1) =~= s.drop_last());
            lemma_digits_prefix(s.drop_last(), s.len() - 1, base);
            if let Some(v) = digits_value(s.drop_last(), base) {
                assert(v * base >= 0) by (nonlinear_arith)
                    requires
                        v >= 0,
                        base >= 1,
                ;
            }
        }
    }
}

/// Reads a text of digits whose value is at most `max`.
pub fn read_digits(s: &[char], base: u32, max: u64) -> (r: Option<u64>)
    requires
        2 <= base <= 36,
    ensures
        match r {
            Some(v) => digits_value(s@, base as int) == Some(v as int) && v <= max,
            None => digits_value(s@, base as int) matches Some(w) ==> w > max,
        },
{
    let mut acc: u64 = 0;
    let mut i: usize = 0;
    assert(digits_value(s@.take(0), base as int) == Some(0int));
    while i < s.len()
        invariant
            i <= s.len(),
            2 <= base <= 36,
            acc <= max,
            digits_value(s@.take(i as int), base as int) == Some(acc as int),
        decreases s.len() - i,
    {
        assert(s@.take(i + 1).drop_last() =~= s@.take(i as int));
        proof {
            lemma_digits_prefix(s@, i + 1, base as int);
        }
        match digit_of(s[i], base) {
            None => {
                return None;
            },
            Some(d) => {
                assert(acc as u128 * base as u128 <= 0xffff_ffff_ffff_ffff * 36) by (nonlinear_arith)
                    requires
                        acc <= 0xffff_ffff_ffff_ffff,
                        base <= 36,
                ;
                let next: u128 = acc as u128 * base as u128 + d as u128;
                if next > max as u128 {
                    return None;
                }
                acc = next as u64;
            },
        }
        i += 1;
    }
    assert(s@.take(s@.len() as int) =~= s@);
    Some(acc)
}

/// The number that a text stands for in the given base: digits, with a `+` or,
/// where `negative` allows it, a `-` before them.
pub open spec fn number_value(s: Seq<char>, base: int, negative: bool) -> Option<int> {
    if s.len() == 0 {
        None
    } else if s[0] == '+' || s[0] == '-' {
        if s.len() == 1 || (s[0] == '-' && !negative) {
            None
        } else {
            match digits_value(s.skip(1), base) {
                Some(v) => Some(
                    if s[0] == '-' {
                        -v
                    } else {
                        v
                    },
                ),
                None => None,
            }
        }
    } else {
        digits_value(s, base)
    }
}

/// The value of a text as a signed 64 bit number.
pub open spec fn as_i64(s: Seq<char>) -> Option<int> {
    match number_value(s, 10, true) {
        Some(v) if i64::MIN <= v <= i64::MAX => Some(v),
        _ => None,
    }
}

/// Reads a signed 64 bit number in decimal.
pub fn read_i64(s: &[char]) -> (r: Option<i64>)
    ensures
        match r {
            Some(v) => as_i64(s@) == Some(v as int),
            None => as_i64(s@) is None,
        },
{
    if s.len() == 0 {
        return None;
    }
    if s[0] == '+' || s[0] == '-' {
        if s.len() == 1 {
            return None;
        }
        let rest: &[char] = slice_subrange(s, 1, s.len());
        assert(rest@ =~= s@.skip(1));
        if s[0] == '-' {
            proof {
                lemma_digits_prefix(rest@, rest@.len() as int, 10);
                assert(rest@.take(rest@.len() as int) =~= rest@);
            }
            match read_digits(rest, 10, 0x8000_0000_0000_0000) {
                Some(v) => {
                    if v == 0x8000_0000_0000_0000 {
                        Some(i64::MIN)
                    } else {
                        Some(-(v as i64))
                    }
                },
                None => None,
            }
        } else {
            match read_digits(rest, 10, 0x7fff_ffff_ffff_ffff) {
                Some(v) => Some(v as i64),
                None => {
                    proof {
                        lemma_digits_prefix(rest@, rest@.len() as int, 10);
                        assert(rest@.take(rest@.len() as int) =~= rest@);
                    }
                    None
                },
            }
        }
    } else {
        match read_digits(s, 10, 0x7fff_ffff_ffff_ffff) {
            Some(v) => Some(v as i64),
            None => None,
        }
    }
}

/// The value of a text as an unsigned number of at most `max`.
pub open spec fn as_unsigned(s: Seq<char>, base: int, max: int) -> Option<int> {
    match number_value(s, base, false) {
        Some(v) if v <= max => Some(v),
        _ => None,
    }
}

/// Reads an unsigned number of at most `max` in the given base.
pub fn read_unsigned(s: &[char], base: u32, max: u64) -> (r: Option<u64>)
    requires
        2 <= base <= 36,
    ensures
        match r {
            Some(v) => as_unsigned(s@, base as int, max as int) == Some(v as int) && v <= max,
            None => as_unsigned(s@, base as int, max as int) is None,
        },
{
    if s.len() == 0 {
        return None;
    }
    if s[0] == '-' {
        return None;
    }
    if s[0] == '+' {
        if s.len() == 1 {
            return None;
        }
        let rest: &[char] = slice_subrange(s, 1, s.len());
        assert(rest@ =~= s@.skip(1));
        read_digits(rest, base, max)
    } else {
        read_digits(s, base, max)
    }
}

/// The digit of a value under sixteen, with the letters in the given case.
pub open spec fn digit_char(v: int, upper_case: bool) -> char {
    if v < 10 {
        (v + 48) as u8 as char
    } else if upper_case {
        (v + 55) as u8 as char
    } else {
        (v + 87) as u8 as char
    }
}

/// The digits of a number in a base of at most sixteen.
pub open spec fn digits(n: int, base: int, upper_case: bool) -> Seq<char>
    decreases n,
    via digits_shrink
{
    if n < base || base < 2 {
        seq![digit_char(n, upper_case)]
    } else {
        digits(n / base, base, upper_case).push(digit_char(n % base, upper_case))
    }
}

#[via_fn]
proof fn digits_shrink(n: int, base: int, upper_case: bool) {
    if n >= base && base >= 2 {
        assert(0 <= n / base < n) by (nonlinear_arith)
            requires
                n >= base,
                base >= 2,
        ;
    }
}

/// A number in decimal.
pub open spec fn dec(n: int) -> Seq<char> {
    if n < 0 {
        seq!['-'] + digits(-n, 10, false)
    } else {
        digits(n, 10, false)
    }
}

/// A text filled up with zeros on its left to the given width.
pub open spec fn zero_padded(s: Seq<char>, width: int) -> Seq<char>
    decreases width - s.len(),
{
    if s.len() >= width {
        s
    } else {
        zero_padded(seq!['0'] + s, width)
    }
}

/// A number in upper case hexadecimal of at least the given width.
pub open spec fn hex_upper(n: int, width: int) -> Seq<char> {
    zero_padded(digits(n, 16, true), width)
}

/// A number in lower case hexadecimal of at least the given width.
pub open spec fn hex_lower(n: int, width: int) -> Seq<char> {
    zero_padded(digits(n, 16, false), width)
}

/// Writes the digits of a number.
pub fn write_digits(n: u64, base: u64, upper_case: bool) -> (r: Vec<char>)
    requires
        2 <= base <= 16,
    ensures
        r@ == digits(n as int, base as int, upper_case),
    decreases n,
{
    let low: u8 = (n % base) as u8;
    let c: char = if low < 10 {
        (low + 48) as char
    } else if upper_case {
        (low + 55) as char
    } else {
        (low + 87) as char
    };
    if n < base {
        assert(n % base == n) by (nonlinear_arith)
            requires
                0 <= n < base,
        ;
        let mut out: Vec<char> = Vec::new();
        out.push(c);
        assert(out@ =~= seq![digit_char(n as int, upper_case)]);
        out
    } else {
        assert(n / base < n) by (nonlinear_arith)
            requires
                n >= base,
                base >= 2,
        ;
        let mut out: Vec<char> = write_digits(n / base, base, upper_case);
        out.push(c);
        out
    }
}

/// Fills a text up with zeros on its left.
pub fn padded(s: Vec<char>, width: usize) -> (r: Vec<char>)
    ensures
        r@ == zero_padded(s@, width as int),
{
    let mut out: Vec<char> = s;
    while out.len() < width
        invariant
            zero_padded(out@, width as int) == zero_padded(s@, width as int),
        decreases width - out@.len(),
    {
        let ghost before = out@;
        out.insert(0, '0');
        assert(out@ =~= seq!['0'] + before);
    }
    out
}

/// Writes an unsigned number in decimal.
pub fn dec_u64(n: u64) -> (r: String)
    ensures
        r@ == dec(n as int),
{
    string_of(write_digits(n, 10, false).as_slice())
}

/// Writes a signed number in decimal.
pub fn dec_i64(n: i64) -> (r: String)
    ensures
        r@ == dec(n as int),
{
    if n >= 0 {
        dec_u64(n as u64)
    } else {
        let m: u64 = if n == i64::MIN {
            0x8000_0000_0000_0000
        } else {
            (-n) as u64
        };
        let mut out: String = String::new();
        out.push('-');
        out.append(string_of(write_digits(m, 10, false).as_slice()).as_str());
        assert(out@ =~= dec(n as int));
        out
    }
}

/// Writes a number in upper case hexadecimal of at least the given width.
pub fn hex_upper_of(n: u64, width: usize) -> (r: String)
    ensures
        r@ == hex_upper(n as int, width as int),
{
    string_of(padded(write_digits(n, 16, true), width).as_slice())
}

/// Writes a number in lower case hexadecimal of at least the given width.
pub fn hex_lower_of(n: u64, width: usize) -> (r: String)
    ensures
        r@ == hex_lower(n as int, width as int),
{
    string_of(padded(write_digits(n, 16, false), width).as_slice())
}

/// The texts one behind the other with a separator between them.
pub open spec fn join(parts: Seq<Seq<char>>, sep: Seq<char>) -> Seq<char>
    decreases parts.len(),
{
    if parts.len() == 0 {
        Seq::empty()
    } else if parts.len() == 1 {
        parts[0]
    } else {
        join(parts.drop_last(), sep) + sep + parts.last()
    }
}

/// Puts the strings one behind the other with a separator between them.
pub fn join_strings(parts: &Vec<String>, sep: &str) -> (r: String)
    ensures
        r@ == join(strs(parts@), sep@),
{
    if parts.len() == 0 {
        return String::new();
    }
    let mut out: String = parts[0].clone();
    let mut i: usize = 1;
    assert(strs(parts@).take(1).len() == 1);
    while i < parts.len()
        invariant
            1 <= i <= parts.len(),
            out@ == join(strs(parts@).take(i as int), sep@),
        decreases parts.len() - i,
    {
        assert(strs(parts@).take(i + 1).drop_last() =~= strs(parts@).take(i as int));
        out.append(sep);
        out.append(parts[i].as_str());
        i += 1;
    }
    assert(strs(parts@).take(parts@.len() as int) =~= strs(parts@));
    out
}

/// Whether a text is a single word.
pub open spec fn is_word(s: Seq<char>) -> bool {
    s.len() > 0 && forall|i: int| 0 <= i < s.len() ==> !is_space(#[trigger] s[i])
}

proof fn lemma_split_space_some(s: Seq<char>)
    ensures
        split_space(s).len() >= 1,
    decreases s.len(),
{
    if s.len() > 0 {
        lemma_split_space_some(s.drop_last());
    }
}

/// Around a white space character a text splits into the pieces of both sides.
proof fn lemma_split_space_between(a: Seq<char>, sp: char, b: Seq<char>)
    requires
        is_space(sp),
    ensures
        split_space(a.push(sp) + b) == split_space(a) + split_space(b),
    decreases b.len(),
{
    let whole = a.push(sp) + b;
    if b.len() == 0 {
        assert(whole =~= a.push(sp));
        assert(whole.drop_last() =~= a);
        assert(split_space(whole) =~= split_space(a) + split_space(b));
    } else {
        assert(whole.drop_last() =~= a.push(sp) + b.drop_last());
        assert(whole.last() == b.last());
        lemma_split_space_between(a, sp, b.drop_last());
        lemma_split_space_some(b.drop_last());
        assert(split_space(whole) =~= split_space(a) + split_space(b));
    }
}

/// The words around a white space character are those of both sides.
pub proof fn lemma_words_between(a: Seq<char>, sp: char, b: Seq<char>)
    requires
        is_space(sp),
    ensures
        words(a.push(sp) + b) == words(a) + words(b),
{
    lemma_split_space_between(a, sp, b);
    Seq::filter_distributes_over_add(
        split_space(a),
        split_space(b),
        |w: Seq<char>| w.len() > 0,
    );
}

proof fn lemma_split_space_solid(s: Seq<char>)
    requires
        forall|i: int| 0 <= i < s.len() ==> !is_space(#[trigger] s[i]),
    ensures
        split_space(s) == seq![s],
    decreases s.len(),
{
    if s.len() > 0 {
        assert forall|i: int| 0 <= i < s.drop_last().len() implies !is_space(
            #[trigger] s.drop_last()[i],
        ) by {
            assert(s.drop_last()[i] == s[i]);
        }
        lemma_split_space_solid(s.drop_last());
        assert(!is_space(s[s.len() - 1]));
        assert(s.drop_last().push(s.last()) =~= s);
        assert(split_space(s) =~= seq![s]);
    } else {
        assert(s =~= Seq::<char>::empty());
    }
}

/// A single word has itself as its words.
pub proof fn lemma_words_of_word(w: Seq<char>)
    requires
        is_word(w),
    ensures
        words(w) == seq![w],
{
    lemma_split_space_solid(w);
    reveal(Seq::filter);
    assert(seq![w].drop_last() =~= Seq::<Seq<char>>::empty());
    assert(Seq::<Seq<char>>::empty().filter(|w: Seq<char>| w.len() > 0) =~= Seq::<
        Seq<char>,
    >::empty());
    assert(words(w) =~= seq![w]);
}

/// Words that are joined by spaces are the words of the text they make.
pub proof fn lemma_words_of_join(ws: Seq<Seq<char>>)
    requires
        forall|i: int| 0 <= i < ws.len() ==> is_word(#[trigger] ws[i]),
    ensures
        words(join(ws, " "@)) == ws,
    decreases ws.len(),
{
    reveal_strlit(" ");
    if ws.len() == 0 {
        let none = Seq::<Seq<char>>::empty();
        lemma_nonempty_push(none, Seq::empty());
        assert(none.push(Seq::empty()) =~= seq![Seq::<char>::empty()]);
        reveal(Seq::filter);
        assert(nonempty(none) =~= none);
        assert(ws =~= none);
    } else if ws.len() == 1 {
        lemma_words_of_word(ws[0]);
        assert(ws =~= seq![ws[0]]);
    } else {
        let front = ws.drop_last();
        assert forall|i: int| 0 <= i < front.len() implies is_word(#[trigger] front[i]) by {
            assert(front[i] == ws[i]);
        }
        lemma_words_of_join(front);
        let a = join(front, " "@);
        assert(a + " "@ + ws.last() =~= a.push(' ') + ws.last());
        lemma_words_between(a, ' ', ws.last());
        assert(is_word(ws[ws.len() - 1]));
        lemma_words_of_word(ws.last());
        assert(front + seq![ws.last()] =~= ws);
    }
}

/// A digit is read as what it was written for, and it is neither white space
/// nor a sign.
proof fn lemma_digit_char(v: int, base: int, upper_case: bool)
    requires
        0 <= v < base <= 16,
    ensures
        digit_value(digit_char(v, upper_case), base) == Some(v),
        !is_space(digit_char(v, upper_case)),
        digit_char(v, upper_case) != '+' && digit_char(v, upper_case) != '-',
        digit_char(v, upper_case) != ':' && digit_char(v, upper_case) != '\n',
{
}

/// Whether every character is a digit or a letter.
pub open spec fn plain(s: Seq<char>) -> bool {
    s.len() > 0 && forall|i: int|
        0 <= i < s.len() ==> {
            let c = #[trigger] s[i];
            ('0' <= c && c <= '9') || ('a' <= c && c <= 'z') || ('A' <= c && c <= 'Z')
        }
}

/// The digits of a number are read as that number, and they make a word.
pub proof fn lemma_digits_read_back(n: int, base: int, upper_case: bool)
    requires
        0 <= n,
        2 <= base <= 16,
    ensures
        digits_value(digits(n, base, upper_case), base) == Some(n),
        plain(digits(n, base, upper_case)),
    decreases n,
{
    let s = digits(n, base, upper_case);
    if n < base {
        lemma_digit_char(n, base, upper_case);
        assert(s.drop_last() =~= Seq::<char>::empty());
        assert(digits_value(s.drop_last(), base) == Some(0int));
        assert(0 * base == 0) by (nonlinear_arith);
    } else {
        assert(0 <= n / base < n && 0 <= n % base < base && n == (n / base) * base + n % base)
            by (nonlinear_arith)
            requires
                n >= base,
                base >= 2,
        ;
        lemma_digits_read_back(n / base, base, upper_case);
        lemma_digit_char(n % base, base, upper_case);
        let front = digits(n / base, base, upper_case);
        assert(s.drop_last() =~= front);
        assert forall|i: int| 0 <= i < s.len() implies {
            let c = #[trigger] s[i];
            ('0' <= c && c <= '9') || ('a' <= c && c <= 'z') || ('A' <= c && c <= 'Z')
        } by {
            if i < front.len() {
                assert(s[i] == front[i]);
            }
        }
    }
}

proof fn lemma_leading_zero(s: Seq<char>, base: int)
    requires
        2 <= base <= 16,
    ensures
        digits_value(seq!['0'] + s, base) == digits_value(s, base),
    decreases s.len(),
{
    let t = seq!['0'] + s;
    if s.len() == 0 {
        assert(t.drop_last() =~= Seq::<char>::empty());
        assert(digits_value(t.drop_last(), base) == Some(0int));
        assert(0 * base == 0) by (nonlinear_arith);
    } else {
        assert(t.drop_last() =~= seq!['0'] + s.drop_last());
        lemma_leading_zero(s.drop_last(), base);
    }
}

/// Zeros on the left change nothing.
pub proof fn lemma_padded_read_back(s: Seq<char>, width: int, base: int)
    requires
        2 <= base <= 16,
        plain(s),
    ensures
        digits_value(zero_padded(s, width), base) == digits_value(s, base),
        plain(zero_padded(s, width)),
    decreases width - s.len(),
{
    if s.len() < width {
        lemma_leading_zero(s, base);
        let t = seq!['0'] + s;
        assert forall|i: int| 0 <= i < t.len() implies {
            let c = #[trigger] t[i];
            ('0' <= c && c <= '9') || ('a' <= c && c <= 'z') || ('A' <= c && c <= 'Z')
        } by {
            if i > 0 {
                assert(t[i] == s[i - 1]);
            }
        }
        lemma_padded_read_back(t, width, base);
    }
}

/// Digits and letters make a word without a sign.
pub proof fn lemma_plain_is_word(s: Seq<char>)
    requires
        plain(s),
    ensures
        is_word(s),
        s[0] != '+' && s[0] != '-',
{
    assert forall|i: int| 0 <= i < s.len() implies !is_space(#[trigger] s[i]) by {}
}

/// A hexadecimal number of at least the given width is read as that number.
pub proof fn lemma_hex_upper_read_back(n: int, width: int, max: int)
    requires
        0 <= n <= max,
    ensures
        is_word(hex_upper(n, width)),
        as_unsigned(hex_upper(n, width), 16, max) == Some(n),
{
    lemma_digits_read_back(n, 16, true);
    lemma_padded_read_back(digits(n, 16, true), width, 16);
    lemma_plain_is_word(hex_upper(n, width));
}

/// A decimal number is read as that number.
pub proof fn lemma_dec_read_back(n: int)
    requires
        i64::MIN <= n <= i64::MAX,
    ensures
        is_word(dec(n)),
        as_i64(dec(n)) == Some(n),
{
    if n >= 0 {
        lemma_digits_read_back(n, 10, false);
        lemma_plain_is_word(dec(n));
    } else {
        lemma_digits_read_back(-n, 10, false);
        let d = digits(-n, 10, false);
        lemma_plain_is_word(d);
        assert(dec(n).skip(1) =~= d);
        assert forall|i: int| 0 <= i < dec(n).len() implies !is_space(#[trigger] dec(n)[i]) by {
            if i > 0 {
                assert(dec(n)[i] == d[i - 1]);
            }
        }
    }
}

/// Around a separating character a text splits into the pieces of both sides.
pub proof fn lemma_split_char_between(a: Seq<char>, sep: char, b: Seq<char>)
    ensures
        split_char(a.push(sep) + b, sep) == split_char(a, sep) + split_char(b, sep),
    decreases b.len(),
{
    let whole = a.push(sep) + b;
    if b.len() == 0 {
        assert(whole =~= a.push(sep));
        assert(whole.drop_last() =~= a);
        assert(split_char(whole, sep) =~= split_char(a, sep) + split_char(b, sep));
    } else {
        assert(whole.drop_last() =~= a.push(sep) + b.drop_last());
        assert(whole.last() == b.last());
        lemma_split_char_between(a, sep, b.drop_last());
        lemma_split_char_some(b.drop_last(), sep);
        assert(split_char(whole, sep) =~= split_char(a, sep) + split_char(b, sep));
    }
}

/// A text without the separating character is its only piece.
pub proof fn lemma_split_char_solid(s: Seq<char>, sep: char)
    requires
        !s.contains(sep),
    ensures
        split_char(s, sep) == seq![s],
    decreases s.len(),
{
    if s.len() > 0 {
        assert forall|i: int| 0 <= i < s.drop_last().len() implies s.drop_last()[i] != sep by {
            assert(s.drop_last()[i] == s[i]);
        }
        lemma_split_char_solid(s.drop_last(), sep);
        assert(s[s.len() - 1] != sep);
        assert(s.drop_last().push(s.last()) =~= s);
        assert(split_char(s, sep) =~= seq![s]);
    } else {
        assert(s =~= Seq::<char>::empty());
    }
}

/// Whether a text begins and ends in something other than white space.
pub open spec fn is_solid(s: Seq<char>) -> bool {
    s.len() > 0 && !is_space(s[0]) && !is_space(s.last())
}

/// A text with a white space character before it, behind it or on neither side
/// is trimmed to that text.
pub proof fn lemma_trim_solid(s: Seq<char>, sp: char)
    requires
        is_solid(s),
        is_space(sp),
    ensures
        trim(s) == s,
        trim(seq![sp] + s) == s,
        trim(s.push(sp)) == s,
{
    assert((seq![sp] + s).skip(1) =~= s);
    assert(trim_start(s) == s);
    assert(trim_end(s) == s);
    assert(trim_start(seq![sp] + s) == trim_start(s));
    assert(s.push(sp).drop_last() =~= s);
    assert(s.push(sp)[0] == s[0]);
    assert(trim_start(s.push(sp)) == s.push(sp));
    assert(trim_end(s.push(sp)) == trim_end(s));
}

/// Words that are joined by spaces make a text of one line without white space
/// around it.
pub proof fn lemma_joined_words_are_solid(ws: Seq<Seq<char>>)
    requires
        ws.len() > 0,
        forall|i: int| 0 <= i < ws.len() ==> is_word(#[trigger] ws[i]),
    ensures
        is_solid(join(ws, " "@)),
        !join(ws, " "@).contains('\n'),
    decreases ws.len(),
{
    reveal_strlit(" ");
    let s = join(ws, " "@);
    let last = ws.last();
    assert(is_word(ws[ws.len() - 1]));
    assert forall|i: int| 0 <= i < last.len() implies last[i] != '\n' by {
        assert(!is_space(last[i]));
    }
    assert(!is_space(last[0]) && !is_space(last[last.len() - 1]));
    if ws.len() > 1 {
        let front = ws.drop_last();
        assert forall|i: int| 0 <= i < front.len() implies is_word(#[trigger] front[i]) by {
            assert(front[i] == ws[i]);
        }
        lemma_joined_words_are_solid(front);
        let a = join(front, " "@);
        assert(s == a + " "@ + last);
        assert(s[0] == a[0]);
        assert(s.last() == last[last.len() - 1]);
        assert forall|i: int| 0 <= i < s.len() implies s[i] != '\n' by {
            if i < a.len() {
                assert(s[i] == a[i]);
                assert(a.contains(a[i]));
            } else if i == a.len() {
                assert(s[i] == ' ');
            } else {
                assert(s[i] == last[i - a.len() - 1]);
            }
        }
    } else {
        assert(s == last);
    }
}

/// A text with a character that does not occur before it is cut there.
pub proof fn lemma_split_once_at(a: Seq<char>, c: char, b: Seq<char>)
    requires
        !a.contains(c),
    ensures
        split_once(a.push(c) + b, c) == Some((a, b)),
{
    let s = a.push(c) + b;
    let k = a.len() as int;
    assert(s.take(k + 1) =~= a.push(c));
    assert(a.push(c).drop_last() =~= a);
    lemma_index_of_none(a, c);
    assert(index_of(a.push(c), c) == Some(k));
    lemma_index_of_prefix(s, k + 1, c);
    assert(s.take(k) =~= a);
    assert(s.skip(k + 1) =~= b);
}

proof fn lemma_index_of_none(s: Seq<char>, c: char)
    requires
        !s.contains(c),
    ensures
        index_of(s, c) is None,
    decreases s.len(),
{
    if s.len() > 0 {
        assert forall|i: int| 0 <= i < s.drop_last().len() implies s.drop_last()[i] != c by {
            assert(s.drop_last()[i] == s[i]);
        }
        lemma_index_of_none(s.drop_last(), c);
        assert(s[s.len() - 1] != c);
    }
}

/// A pattern is found at a place where it stands if it does not stand before.
pub proof fn lemma_find_at<A>(s: Seq<A>, pat: Seq<A>, k: int)
    requires
        occurs_at(s, pat, k),
        forall|j: int| 0 <= j < k ==> !#[trigger] occurs_at(s, pat, j),
    ensures
        find(s, pat) == Some(k),
{
    lemma_find_from(s, pat, 0);
}

/// The end of a line parts a text into that line and what follows it.
pub proof fn lemma_split_on_line_end(a: Seq<char>, b: Seq<char>)
    requires
        !a.contains('\r'),
    ensures
        contains(a + "\r\n"@ + b, "\r\n"@),
        split_on(a + "\r\n"@ + b, "\r\n"@) == seq![a] + split_on(b, "\r\n"@),
{
    reveal_strlit("\r\n");
    let e = "\r\n"@;
    let s = a + e + b;
    let k = a.len() as int;
    assert(s.subrange(k, k + 2) =~= e);
    assert forall|j: int| 0 <= j < k implies !#[trigger] occurs_at(s, e, j) by {
        assert(s[j] == a[j]);
        assert(a.contains(a[j]));
        if occurs_at(s, e, j) {
            assert(s.subrange(j, j + 2)[0] == s[j]);
        }
    }
    lemma_find_at(s, e, k);
    assert(s.take(k) =~= a);
    assert(s.skip(k + 2) =~= b);
}

/// A text without the end of a line is one line.
pub proof fn lemma_split_on_one_line(a: Seq<char>)
    requires
        !a.contains('\r'),
    ensures
        split_on(a, "\r\n"@) == seq![a],
{
    reveal_strlit("\r\n");
    let e = "\r\n"@;
    lemma_find_from(a, e, 0);
    if let Some(k) = find(a, e) {
        assert(a.subrange(k, k + 2)[0] == a[k]);
        assert(a.contains(a[k]));
    }
}

/// The first empty line of a text whose first line is ended by it.
pub proof fn lemma_find_empty_line(a: Seq<char>, b: Seq<char>)
    requires
        !a.contains('\r'),
    ensures
        find(a + "\r\n\r\n"@ + b, "\r\n\r\n"@) == Some(a.len() as int),
{
    reveal_strlit("\r\n\r\n");
    let e = "\r\n\r\n"@;
    let s = a + e + b;
    let k = a.len() as int;
    assert(s.subrange(k, k + 4) =~= e);
    assert forall|j: int| 0 <= j < k implies !#[trigger] occurs_at(s, e, j) by {
        assert(s[j] == a[j]);
        assert(a.contains(a[j]));
        if occurs_at(s, e, j) {
            assert(s.subrange(j, j + 4)[0] == s[j]);
        }
    }
    lemma_find_at(s, e, k);
}

/// A line before a text whose first line is not empty moves its first empty
/// line.
pub proof fn lemma_find_empty_line_later(a: Seq<char>, b: Seq<char>)
    requires
        !a.contains('\r'),
        b.len() > 0,
        b[0] != '\r',
        find(b, "\r\n\r\n"@) is Some,
    ensures
        find(a + "\r\n"@ + b, "\r\n\r\n"@) == Some(
            a.len() + 2 + find(b, "\r\n\r\n"@)->0,
        ),
{
    reveal_strlit("\r\n\r\n");
    reveal_strlit("\r\n");
    let e = "\r\n\r\n"@;
    let s = a + "\r\n"@ + b;
    lemma_find_from(b, e, 0);
    let m = find(b, e)->0;
    let k = a.len() + 2 + m;
    assert(s.subrange(k, k + 4) =~= b.subrange(m, m + 4));
    assert forall|j: int| 0 <= j < k implies !#[trigger] occurs_at(s, e, j) by {
        if occurs_at(s, e, j) {
            let w = s.subrange(j, j + 4);
            assert(w[0] == s[j] && w[1] == s[j + 1] && w[2] == s[j + 2]);
            if j < a.len() {
                assert(s[j] == a[j]);
                assert(a.contains(a[j]));
            } else if j == a.len() {
                assert(s[j + 2] == b[0]);
            } else if j > a.len() + 1 {
                assert(w =~= b.subrange(j - a.len() - 2, j - a.len() - 2 + 4));
                assert(occurs_at(b, e, j - a.len() - 2));
            }
        }
    }
    lemma_find_at(s, e, k);
}

/// The digits of a number below a power of ten are no more than its exponent.
pub proof fn lemma_digits_len(n: int, k: nat)
    requires
        0 <= n < pow10(k),
        k > 0,
    ensures
        digits(n, 10, false).len() <= k,
    decreases k,
{
    if n >= 10 {
        assert(pow10(k) == 10 * pow10((k - 1) as nat));
        if k == 1 {
            assert(pow10(0) == 1);
        } else {
            lemma_digits_len(n / 10, (k - 1) as nat);
        }
    }
}

/// A power of ten.
pub open spec fn pow10(k: nat) -> int
    decreases k,
{
    if k == 0 {
        1
    } else {
        10 * pow10((k - 1) as nat)
    }
}

/// Whether a text stands before another in the order of their characters.
pub open spec fn precedes(a: Seq<char>, b: Seq<char>) -> bool
    decreases a.len(),
{
    if b.len() == 0 {
        false
    } else if a.len() == 0 {
        true
    } else {
        a[0] < b[0] || (a[0] == b[0] && precedes(a.skip(1), b.skip(1)))
    }
}

/// Tells whether a text stands before another in the order of their characters.
pub fn stands_before(a: &str, b: &str) -> (r: bool)
    ensures
        r == precedes(a@, b@),
{
    let x: Vec<char> = chars_of(a);
    let y: Vec<char> = chars_of(b);
    let mut i: usize = 0;
    assert(x@.skip(0) =~= x@ && y@.skip(0) =~= y@);
    while i < x.len() && i < y.len()
        invariant
            i <= x@.len(),
            i <= y@.len(),
            precedes(a@, b@) == precedes(x@.skip(i as int), y@.skip(i as int)),
        decreases x.len() - i,
    {
        assert(x@.skip(i as int)[0] == x@[i as int] && y@.skip(i as int)[0] == y@[i as int]);
        if x[i] != y[i] {
            return x[i] < y[i];
        }
        assert(x@.skip(i as int).skip(1) =~= x@.skip(i + 1));
        assert(y@.skip(i as int).skip(1) =~= y@.skip(i + 1));
        i += 1;
    }
    i < y.len()
}

/// No text stands before itself, and of two different ones one stands before
/// the other.
proof fn lemma_precedes_total(a: Seq<char>, b: Seq<char>)
    ensures
        precedes(a, b) ==> !precedes(b, a),
        !precedes(a, b) && !precedes(b, a) ==> a == b,
    decreases a.len(),
{
    if a.len() > 0 && b.len() > 0 {
        lemma_precedes_total(a.skip(1), b.skip(1));
        if a[0] == b[0] && a.skip(1) == b.skip(1) {
            assert(a =~= seq![a[0]] + a.skip(1));
            assert(b =~= seq![b[0]] + b.skip(1));
        }
    } else {
        if a.len() == 0 && b.len() == 0 {
            assert(a =~= b);
        }
    }
}

/// What stands behind nothing that stands behind a third stands behind it.
proof fn lemma_precedes_chain(a: Seq<char>, b: Seq<char>, c: Seq<char>)
    requires
        !precedes(b, a),
        !precedes(c, b),
    ensures
        !precedes(c, a),
    decreases a.len(),
{
    if a.len() > 0 && b.len() > 0 && c.len() > 0 {
        if a[0] == b[0] && b[0] == c[0] {
            lemma_precedes_chain(a.skip(1), b.skip(1), c.skip(1));
        }
    }
}

/// Ordered pairs with one more, which comes before those of the same name.
pub open spec fn placed_by_name<T>(p: (Seq<char>, T), s: Seq<(Seq<char>, T)>) -> Seq<
    (Seq<char>, T),
>
    decreases s.len(),
{
    if s.len() == 0 || !precedes(s[0].0, p.0) {
        seq![p] + s
    } else {
        seq![s[0]] + placed_by_name(p, s.skip(1))
    }
}

/// Pairs in the order of their names. Those of the same name keep their order.
pub open spec fn by_name<T>(s: Seq<(Seq<char>, T)>) -> Seq<(Seq<char>, T)>
    decreases s.len(),
{
    if s.len() == 0 {
        s
    } else {
        placed_by_name(s[0], by_name(s.skip(1)))
    }
}

/// Whether pairs stand in the order of their names.
pub open spec fn in_name_order<T>(s: Seq<(Seq<char>, T)>) -> bool {
    forall|i: int, j: int| 0 <= i < j < s.len() ==> !precedes(#[trigger] s[j].0, #[trigger] s[i].0)
}

proof fn lemma_placed_by_name<T>(p: (Seq<char>, T), s: Seq<(Seq<char>, T)>)
    requires
        in_name_order(s),
    ensures
        in_name_order(placed_by_name(p, s)),
        placed_by_name(p, s).len() == s.len() + 1,
        placed_by_name(p, s).to_multiset() == s.to_multiset().insert(p),
        forall|i: int|
            0 <= i < placed_by_name(p, s).len() ==> #[trigger] placed_by_name(p, s)[i] == p
                || s.contains(placed_by_name(p, s)[i]),
    decreases s.len(),
{
    broadcast use vstd::seq_lib::group_to_multiset_ensures;

    let q = placed_by_name(p, s);
    if s.len() == 0 || !precedes(s[0].0, p.0) {
        assert(q =~= s.insert(0, p));
        assert forall|i: int, j: int| 0 <= i < j < q.len() implies !precedes(
            #[trigger] q[j].0,
            #[trigger] q[i].0,
        ) by {
            if i == 0 {
                assert(q[j] == s[j - 1]);
                if j > 1 {
                    assert(!precedes(s[j - 1].0, s[0].0));
                    lemma_precedes_chain(p.0, s[0].0, s[j - 1].0);
                }
            } else {
                assert(q[i] == s[i - 1] && q[j] == s[j - 1]);
            }
        }
        assert forall|i: int| 0 <= i < q.len() implies #[trigger] q[i] == p || s.contains(q[i]) by {
            if i > 0 {
                assert(q[i] == s[i - 1]);
            }
        }
    } else {
        let t = s.skip(1);
        assert forall|i: int, j: int| 0 <= i < j < t.len() implies !precedes(
            #[trigger] t[j].0,
            #[trigger] t[i].0,
        ) by {
            assert(t[i] == s[i + 1] && t[j] == s[j + 1]);
        }
        lemma_placed_by_name(p, t);
        let u = placed_by_name(p, t);
        assert(s =~= t.insert(0, s[0]));
        assert(q =~= u.insert(0, s[0]));
        assert(q.to_multiset() =~= s.to_multiset().insert(p));
        assert forall|i: int| 0 <= i < q.len() implies #[trigger] q[i] == p || s.contains(q[i]) by {
            if i > 0 {
                assert(q[i] == u[i - 1]);
                if u[i - 1] != p {
                    let k = choose|k: int| 0 <= k < t.len() && t[k] == u[i - 1];
                    assert(s[k + 1] == q[i]);
                }
            } else {
                assert(s[0] == q[0]);
            }
        }
        assert forall|i: int, j: int| 0 <= i < j < q.len() implies !precedes(
            #[trigger] q[j].0,
            #[trigger] q[i].0,
        ) by {
            assert(q[j] == u[j - 1]);
            if i > 0 {
                assert(q[i] == u[i - 1]);
            } else {
                if u[j - 1] == p {
                    lemma_precedes_total(s[0].0, p.0);
                } else {
                    let k = choose|k: int| 0 <= k < t.len() && t[k] == u[j - 1];
                    assert(s[k + 1] == q[j]);
                    assert(!precedes(s[k + 1].0, s[0].0));
                }
            }
        }
    }
}

/// Ordering by name puts pairs in order and neither loses nor adds one.
pub proof fn law_by_name_is_an_ordering<T>(s: Seq<(Seq<char>, T)>)
    ensures
        in_name_order(by_name(s)),
        by_name(s).len() == s.len(),
        by_name(s).to_multiset() == s.to_multiset(),
    decreases s.len(),
{
    broadcast use vstd::seq_lib::group_to_multiset_ensures;

    if s.len() > 0 {
        law_by_name_is_an_ordering(s.skip(1));
        lemma_placed_by_name(s[0], by_name(s.skip(1)));
        assert(s =~= s.skip(1).insert(0, s[0]));
    }
}

/// Pairs with their names as texts.
pub open spec fn named<T>(v: Seq<(String, T)>) -> Seq<(Seq<char>, T)> {
    Seq::new(v.len(), |i: int| (v[i].0@, v[i].1))
}

proof fn lemma_placed_by_name_at<T>(p: (Seq<char>, T), s: Seq<(Seq<char>, T)>, k: int)
    requires
        0 <= k <= s.len(),
        forall|i: int| 0 <= i < k ==> precedes(#[trigger] s[i].0, p.0),
        k < s.len() ==> !precedes(s[k].0, p.0),
    ensures
        placed_by_name(p, s) == s.insert(k, p),
    decreases s.len(),
{
    if k == 0 {
        assert(seq![p] + s =~= s.insert(0, p));
    } else {
        assert(precedes(s[0].0, p.0));
        let t = s.skip(1);
        assert forall|i: int| 0 <= i < k - 1 implies precedes(#[trigger] t[i].0, p.0) by {
            assert(t[i] == s[i + 1]);
        }
        lemma_placed_by_name_at(p, t, k - 1);
        assert(seq![s[0]] + t.insert(k - 1, p) =~= s.insert(k, p));
    }
}

/// Puts pairs in the order of their names.
pub fn order_by_name<T>(v: Vec<(String, T)>) -> (r: Vec<(String, T)>)
    ensures
        named(r@) == by_name(named(v@)),
{
    let ghost all = named(v@);
    let mut rest: Vec<(String, T)> = v;
    let mut out: Vec<(String, T)> = Vec::new();
    assert(all.skip(all.len() as int) =~= Seq::empty());
    assert(named(out@) =~= by_name(all.skip(all.len() as int)));
    while rest.len() > 0
        invariant
            rest@.len() <= all.len(),
            named(rest@) == all.take(rest@.len() as int),
            named(out@) == by_name(all.skip(rest@.len() as int)),
        decreases rest.len(),
    {
        let n: usize = rest.len();
        let ghost before = rest@;
        assert(named(before)[n - 1] == all[n - 1]);
        if let Some(p) = rest.pop() {
            let ghost s = named(out@);
            let ghost pv = (p.0@, p.1);
            let mut k: usize = 0;
            while k < out.len() && stands_before(out[k].0.as_str(), p.0.as_str())
                invariant
                    k <= out@.len(),
                    s == named(out@),
                    pv == (p.0@, p.1),
                    forall|i: int| 0 <= i < k ==> precedes(#[trigger] s[i].0, pv.0),
                decreases out.len() - k,
            {
                assert(s[k as int].0 == out@[k as int].0@);
                k += 1;
            }
            proof {
                if k < s.len() {
                    assert(s[k as int].0 == out@[k as int].0@);
                }
                lemma_placed_by_name_at(pv, s, k as int);
            }
            out.insert(k, p);
            proof {
                assert(named(out@) =~= s.insert(k as int, pv));
                let tail = all.skip(n - 1);
                assert(tail[0] == all[n - 1]);
                assert(tail.skip(1) =~= all.skip(n as int));
                assert(named(rest@) =~= all.take(n - 1));
            }
        }
    }
    assert(all.skip(0) =~= all);
    out
}

/// Pairs with something else in place of what is named.
pub open spec fn renamed<T, U>(s: Seq<(Seq<char>, T)>, f: spec_fn(T) -> U) -> Seq<(Seq<char>, U)> {
    Seq::new(s.len(), |i: int| (s[i].0, f(s[i].1)))
}

proof fn lemma_placed_renamed<T, U>(p: (Seq<char>, T), s: Seq<(Seq<char>, T)>, f: spec_fn(T) -> U)
    ensures
        placed_by_name((p.0, f(p.1)), renamed(s, f)) == renamed(placed_by_name(p, s), f),
    decreases s.len(),
{
    let q = (p.0, f(p.1));
    if s.len() == 0 || !precedes(s[0].0, p.0) {
        assert(seq![q] + renamed(s, f) =~= renamed(seq![p] + s, f));
    } else {
        lemma_placed_renamed(p, s.skip(1), f);
        assert(renamed(s, f).skip(1) =~= renamed(s.skip(1), f));
        assert(seq![renamed(s, f)[0]] + renamed(placed_by_name(p, s.skip(1)), f) =~= renamed(
            seq![s[0]] + placed_by_name(p, s.skip(1)),
            f,
        ));
    }
}

/// The order of pairs does not depend on what is named.
pub proof fn lemma_by_name_renamed<T, U>(s: Seq<(Seq<char>, T)>, f: spec_fn(T) -> U)
    ensures
        by_name(renamed(s, f)) == renamed(by_name(s), f),
    decreases s.len(),
{
    if s.len() == 0 {
        assert(renamed(s, f) =~= Seq::empty());
        assert(renamed(by_name(s), f) =~= Seq::empty());
    } else {
        lemma_by_name_renamed(s.skip(1), f);
        assert(renamed(s, f).skip(1) =~= renamed(s.skip(1), f));
        lemma_placed_renamed(s[0], by_name(s.skip(1)), f);
    }
}

} // verus!
