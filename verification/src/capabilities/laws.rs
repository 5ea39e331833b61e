//! What holds of the channels that a radio offers and of the settings that
//! follow from them.

use vstd::prelude::*;
use crate::capabilities::{
    band_of, channel_of, clean_freq, first_clean, lowest_clean, resolution_of,
    GoBand, SOCIAL_FREQ_2G,
};
use crate::text;
use crate::text::{
    ascii_lower, contains, dec, find, lines, occurs_at, split_char,
};

verus! {

/// A line that describes a channel: its frequency, what follows the point, and
/// what follows the unit.
pub open spec fn channel_line(f: int, fraction: Seq<char>, rest: Seq<char>) -> Seq<char> {
    "* "@ + dec(f) + fraction + " MHz"@ + rest
}

/// Whether a text is what may follow a whole frequency: nothing, or a point and
/// more without white space.
pub open spec fn is_fraction(s: Seq<char>) -> bool {
    (s.len() > 0 ==> s[0] == '.') && !s.contains(' ')
}

proof fn lemma_channel(f: int, fraction: Seq<char>, rest: Seq<char>)
    requires
        0 <= f <= u32::MAX,
        is_fraction(fraction),
        rest.len() == 0 || !text::is_space(rest.last()),
    ensures
        channel_of(channel_line(f, fraction, rest)) == Some((f, rest)),
{
    let line = channel_line(f, fraction, rest);
    let number = dec(f) + fraction;
    reveal_strlit("* ");
    reveal_strlit(" MHz");
    assert(line[0] == '*');
    assert(line.last() == if rest.len() > 0 {
        rest.last()
    } else {
        'z'
    });
    text::lemma_trim_solid(line, ' ');
    assert(line.take(2) =~= "* "@);
    let l = line.skip(2);
    assert(l =~= number + " MHz"@ + rest);
    text::lemma_digits_read_back(f, 10, false);
    text::lemma_plain_is_word(dec(f));
    assert forall|i: int| 0 <= i < number.len() implies number[i] != ' ' by {
        if i < dec(f).len() {
            assert(number[i] == dec(f)[i]);
            assert(!text::is_space(dec(f)[i]));
        } else {
            assert(number[i] == fraction[i - dec(f).len()]);
            assert(fraction.contains(number[i]));
        }
    }
    let k = number.len() as int;
    assert(l.subrange(k, k + 4) =~= " MHz"@);
    assert forall|j: int| 0 <= j < k implies !#[trigger] occurs_at(l, " MHz"@, j) by {
        assert(l[j] == number[j]);
        if occurs_at(l, " MHz"@, j) {
            assert(l.subrange(j, j + 4)[0] == l[j]);
        }
    }
    text::lemma_find_at(l, " MHz"@, k);
    assert(l.take(k) =~= number);
    assert(l.skip(k + 4) =~= rest);
    assert(!dec(f).contains('.')) by {
        assert forall|i: int| 0 <= i < dec(f).len() implies dec(f)[i] != '.' by {}
    }
    text::lemma_split_char_solid(dec(f), '.');
    if fraction.len() > 0 {
        let tail = fraction.skip(1);
        assert(number =~= dec(f).push('.') + tail);
        text::lemma_split_char_between(dec(f), '.', tail);
        text::lemma_split_char_some(tail, '.');
        assert(split_char(number, '.')[0] == dec(f));
    } else {
        assert(number =~= dec(f));
    }
}

proof fn lemma_contains_lower(s: Seq<char>, word: Seq<char>)
    requires
        contains(s, word),
    ensures
        contains(ascii_lower(s), ascii_lower(word)),
{
    text::lemma_find_from(s, word, 0);
    let k = find(s, word)->0;
    let low = ascii_lower(s);
    assert(low.subrange(k, k + word.len()) =~= ascii_lower(s.subrange(k, k + word.len())));
    text::lemma_find_from(low, ascii_lower(word), 0);
    assert(occurs_at(low, ascii_lower(word), k));
}

/// A channel of the upper band is clean where nothing is said against it. One on
/// which a group may not begin to send, one that is disabled, one that has to be
/// searched for radar, and one outside of the band are not.
pub proof fn law_clean_channels_are_told(f: int, fraction: Seq<char>, rest: Seq<char>)
    requires
        0 <= f <= u32::MAX,
        is_fraction(fraction),
        rest.len() == 0 || !text::is_space(rest.last()),
    ensures
        5000 <= f < 5925 && !contains(ascii_lower(rest), "no ir"@) && !contains(
            ascii_lower(rest),
            "disabled"@,
        ) && !contains(ascii_lower(rest), "radar"@) ==> clean_freq(channel_line(f, fraction, rest))
            == Some(f),
        contains(rest, "no IR"@) ==> clean_freq(channel_line(f, fraction, rest)) is None,
        contains(rest, "disabled"@) ==> clean_freq(channel_line(f, fraction, rest)) is None,
        contains(rest, "radar detection"@) ==> clean_freq(channel_line(f, fraction, rest)) is None,
        f < 5000 || f >= 5925 ==> clean_freq(channel_line(f, fraction, rest)) is None,
{
    lemma_channel(f, fraction, rest);
    reveal_strlit("no IR");
    reveal_strlit("no ir");
    reveal_strlit("disabled");
    reveal_strlit("radar detection");
    reveal_strlit("radar");
    if contains(rest, "no IR"@) {
        lemma_contains_lower(rest, "no IR"@);
        assert(ascii_lower("no IR"@) =~= "no ir"@);
    }
    if contains(rest, "disabled"@) {
        lemma_contains_lower(rest, "disabled"@);
        assert(ascii_lower("disabled"@) =~= "disabled"@);
    }
    if contains(rest, "radar detection"@) {
        let w = "radar detection"@;
        text::lemma_find_from(rest, w, 0);
        let k = find(rest, w)->0;
        assert(rest.subrange(k, k + 5) =~= w.subrange(0, 5));
        assert(w.subrange(0, 5) =~= "radar"@);
        text::lemma_find_from(rest, "radar"@, 0);
        assert(occurs_at(rest, "radar"@, k));
        lemma_contains_lower(rest, "radar"@);
        assert(ascii_lower("radar"@) =~= "radar"@);
    }
}

/// The first radio with a clean channel decides, by its lowest one. Where no
/// radio has one nothing is decided.
pub proof fn law_first_clean_radio_decides(v: Seq<Option<Seq<char>>>)
    ensures
        match first_clean(v) {
            Some(f) => exists|i: int|
                0 <= i < v.len() && ((#[trigger] v[i]) matches Some(t) && lowest_clean(lines(t))
                    == Some(f)) && forall|j: int|
                    0 <= j < i ==> ((#[trigger] v[j]) matches Some(t) ==> lowest_clean(
                        lines(t),
                    ) is None),
            None => forall|j: int|
                0 <= j < v.len() ==> ((#[trigger] v[j]) matches Some(t) ==> lowest_clean(
                    lines(t),
                ) is None),
        },
    decreases v.len(),
{
    if v.len() > 0 {
        let rest = v.skip(1);
        law_first_clean_radio_decides(rest);
        assert forall|j: int| 1 <= j < v.len() implies #[trigger] v[j] == rest[j - 1] by {}
        let here = v[0] matches Some(t) && lowest_clean(lines(t)) is Some;
        if !here {
            if let Some(f) = first_clean(rest) {
                let i = choose|i: int|
                    0 <= i < rest.len() && ((#[trigger] rest[i]) matches Some(t) && lowest_clean(
                        lines(t),
                    ) == Some(f)) && forall|j: int|
                        0 <= j < i ==> ((#[trigger] rest[j]) matches Some(t) ==> lowest_clean(
                            lines(t),
                        ) is None);
                assert(v[i + 1] == rest[i]);
                assert forall|j: int| 0 <= j < i + 1 implies ((#[trigger] v[j]) matches Some(t)
                    ==> lowest_clean(lines(t)) is None) by {
                    if j > 0 {
                        assert(v[j] == rest[j - 1]);
                    }
                }
            } else {
                assert forall|j: int| 0 <= j < v.len() implies ((#[trigger] v[j]) matches Some(t)
                    ==> lowest_clean(lines(t)) is None) by {
                    if j > 0 {
                        assert(v[j] == rest[j - 1]);
                    }
                }
            }
        } else {
            assert(v[0] is Some);
        }
    }
}

/// A frequency belongs to the band that it lies in, the upper band carries full
/// HD, and the lower one 1280 by 720. The channel that is used where nothing is
/// known lies in the lower band and is one that every source visits.
pub proof fn law_band_carries_its_resolution(f: int)
    ensures
        5000 <= f < 6000 ==> band_of(f) == GoBand::Band5 && resolution_of(band_of(f)) == (
            1920u32,
            1080u32,
        ),
        band_of(SOCIAL_FREQ_2G as int) == GoBand::Band24 && (SOCIAL_FREQ_2G == 2412
            || SOCIAL_FREQ_2G == 2437 || SOCIAL_FREQ_2G == 2462),
        2400 <= f < 2500 ==> band_of(f) == GoBand::Band24 && resolution_of(band_of(f)) == (
            1280u32,
            720u32,
        ),
{
}

} // verus!
