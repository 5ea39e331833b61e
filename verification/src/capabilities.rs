//! What the machine can do, and the settings that follow from it: the channel
//! of the group, the resolution that is offered, and whether hardware decoding
//! and audio are worth a try.

pub mod laws;

use vstd::prelude::*;
use vstd::slice::slice_subrange;
use crate::text;
use crate::text::{
    as_unsigned, ascii_lower, by_name, contains, dec, find, join, law_by_name_is_an_ordering, lines,
    named, order_by_name, precedes, split_char, strs, texts, trim,
};

verus! {

/// The band of the group.
#[derive(Debug, Clone, Copy, PartialEq, Eq, Structural)]
pub enum GoBand {
    /// 5 GHz: wide enough for 1080 lines.
    Band5,
    /// 2.4 GHz: found by every source, wide enough for 720 lines.
    Band24,
}

/// A way to bring up the group.
#[derive(Debug, Clone, Copy)]
pub struct GoCandidate {
    /// The frequency in MHz, or zero where the driver chooses.
    pub freq_mhz: u32,
    pub band: GoBand,
    pub max_resolution: (u32, u32),
    pub label: &'static str,
}

/// What the machine can do.
#[derive(Debug)]
pub struct Capabilities {
    pub wifi_interfaces: Vec<String>,
    pub go_freq_mhz: u32,
    pub go_band: GoBand,
    pub max_resolution: (u32, u32),
    pub hw_decode: bool,
    pub audio: bool,
}

/// The social channel that every source visits.
pub const SOCIAL_FREQ_2G: u32 = 2412;

/// The band of a frequency.
pub open spec fn band_of(freq: int) -> GoBand {
    if freq >= 5000 {
        GoBand::Band5
    } else {
        GoBand::Band24
    }
}

/// The resolution that a band carries without lag.
pub open spec fn resolution_of(band: GoBand) -> (u32, u32) {
    match band {
        GoBand::Band5 => (1920, 1080),
        GoBand::Band24 => (1280, 720),
    }
}

/// A truth value in words.
pub open spec fn yes_no(b: bool) -> Seq<char> {
    if b {
        "true"@
    } else {
        "false"@
    }
}

fn truth(b: bool) -> (r: &'static str)
    ensures
        r@ == yes_no(b),
{
    if b {
        "true"
    } else {
        "false"
    }
}

/// A band in words.
pub open spec fn band_name(b: GoBand) -> Seq<char> {
    match b {
        GoBand::Band5 => "5GHz"@,
        GoBand::Band24 => "2.4GHz"@,
    }
}

impl Capabilities {
    /// One line that sums up what was found.
    pub fn report(&self) -> (r: String)
        ensures
            r@ == "adapters=["@ + join(strs(self.wifi_interfaces@), ","@) + "] GO="@ + dec(
                self.go_freq_mhz as int,
            ) + "MHz ("@ + band_name(self.go_band) + ") res="@ + dec(self.max_resolution.0 as int)
                + "x"@ + dec(self.max_resolution.1 as int) + " hw_decode="@ + yes_no(self.hw_decode)
                + " audio="@ + yes_no(self.audio),
    {
        let mut out: String = text::joined(
            "adapters=[".to_owned(),
            text::join_strings(&self.wifi_interfaces, ",").as_str(),
        );
        out.append("] GO=");
        out.append(text::dec_u64(self.go_freq_mhz as u64).as_str());
        out.append("MHz (");
        let band: &str = match self.go_band {
            GoBand::Band5 => "5GHz",
            GoBand::Band24 => "2.4GHz",
        };
        out.append(band);
        out.append(") res=");
        out.append(text::dec_u64(self.max_resolution.0 as u64).as_str());
        out.append("x");
        out.append(text::dec_u64(self.max_resolution.1 as u64).as_str());
        out.append(" hw_decode=");
        out.append(truth(self.hw_decode));
        out.append(" audio=");
        out.append(truth(self.audio));
        out
    }
}

/// What stands before and behind the first occurrence of a text.
pub open spec fn split_at_text(s: Seq<char>, sep: Seq<char>) -> Option<(Seq<char>, Seq<char>)> {
    match find(s, sep) {
        Some(k) => Some((s.take(k), s.skip(k + sep.len()))),
        None => None,
    }
}

/// Whether the flags of a channel keep a group from using it without delay.
pub open spec fn is_flagged(flags: Seq<char>) -> bool {
    let f = ascii_lower(flags);
    contains(f, "no ir"@) || contains(f, "disabled"@) || contains(f, "radar"@)
}

/// The frequency of a line that describes a channel, in MHz and cut at the
/// point, with what follows the unit.
pub open spec fn channel_of(line: Seq<char>) -> Option<(int, Seq<char>)> {
    let l = trim(line);
    if !"* "@.is_prefix_of(l) {
        None
    } else {
        match split_at_text(l.skip(2), " MHz"@) {
            None => None,
            Some(p) => match as_unsigned(split_char(p.0, '.')[0], 10, u32::MAX as int) {
                Some(f) => Some((f, p.1)),
                None => None,
            },
        }
    }
}

/// The frequency of a line that describes a 5 GHz channel without flags.
pub open spec fn clean_freq(line: Seq<char>) -> Option<int> {
    match channel_of(line) {
        Some(c) => if 5000 <= c.0 < 5925 && !is_flagged(c.1) {
            Some(c.0)
        } else {
            None
        },
        None => None,
    }
}

/// The lowest of the clean frequencies that the lines name.
pub open spec fn lowest_clean(ls: Seq<Seq<char>>) -> Option<int>
    decreases ls.len(),
{
    if ls.len() == 0 {
        None
    } else {
        match (lowest_clean(ls.drop_last()), clean_freq(ls.last())) {
            (Some(a), Some(b)) => Some(
                if b < a {
                    b
                } else {
                    a
                },
            ),
            (Some(a), None) => Some(a),
            (None, b) => b,
        }
    }
}

/// The frequency that is picked is one of the clean ones and none of them is
/// lower; where none is picked there is none.
pub proof fn law_picked_frequency_is_lowest(ls: Seq<Seq<char>>)
    ensures
        match lowest_clean(ls) {
            Some(f) => 5000 <= f < 5925 && (exists|i: int|
                0 <= i < ls.len() && clean_freq(#[trigger] ls[i]) == Some(f)) && forall|i: int|
                0 <= i < ls.len() ==> (clean_freq(#[trigger] ls[i]) matches Some(g) ==> f <= g),
            None => forall|i: int| 0 <= i < ls.len() ==> clean_freq(#[trigger] ls[i]) is None,
        },
    decreases ls.len(),
{
    if ls.len() > 0 {
        let t = ls.drop_last();
        law_picked_frequency_is_lowest(t);
        assert forall|i: int| 0 <= i < t.len() implies #[trigger] ls[i] == t[i] by {}
        if let Some(f) = lowest_clean(ls) {
            if lowest_clean(t) == Some(f) {
                let i = choose|i: int| 0 <= i < t.len() && clean_freq(#[trigger] t[i]) == Some(f);
                assert(clean_freq(ls[i]) == Some(f));
            } else {
                assert(clean_freq(ls[ls.len() - 1]) == Some(f));
            }
            assert forall|i: int| 0 <= i < ls.len() implies (clean_freq(
                #[trigger] ls[i],
            ) matches Some(g) ==> f <= g) by {
                if i < t.len() {
                    assert(ls[i] == t[i]);
                }
            }
        } else {
            assert forall|i: int| 0 <= i < ls.len() implies clean_freq(
                #[trigger] ls[i],
            ) is None by {
                if i < t.len() {
                    assert(ls[i] == t[i]);
                }
            }
        }
    }
}

fn read_clean_freq(line: &[char]) -> (r: Option<u32>)
    ensures
        match r {
            Some(f) => clean_freq(line@) == Some(f as int),
            None => clean_freq(line@) is None,
        },
{
    proof {
        reveal_strlit("* ");
        reveal_strlit(" MHz");
    }
    let l: &[char] = text::trimmed(line);
    if !text::begins_with(l, "* ") {
        return None;
    }
    let star: &[char] = slice_subrange(l, 2, l.len());
    assert(star@ =~= l@.skip(2));
    let n: usize = star.len();
    match text::position(star, text::chars_of(" MHz").as_slice()) {
        None => None,
        Some(k) => {
            let freq: &[char] = slice_subrange(star, 0, k);
            let rest: &[char] = slice_subrange(star, k + 4, n);
            assert(freq@ =~= star@.take(k as int));
            assert(rest@ =~= star@.skip(k + 4));
            let parts: Vec<Vec<char>> = text::pieces(freq, '.');
            assert(texts(parts@)[0] == parts@[0]@);
            match text::read_unsigned(parts[0].as_slice(), 10, u32::MAX as u64) {
                None => None,
                Some(f) => {
                    let flags: Vec<char> = text::lowered(rest);
                    if f < 5000 || f >= 5925 || text::holds(flags.as_slice(), "no ir")
                        || text::holds(flags.as_slice(), "disabled") || text::holds(
                        flags.as_slice(),
                        "radar",
                    ) {
                        None
                    } else {
                        Some(f as u32)
                    }
                },
            }
        },
    }
}

/// Picks the lowest 5 GHz frequency that a group can use at once, out of what
/// `iw phy` says of a radio.
pub fn pick_clean_5ghz_freq(iw_phy_info: &str) -> (r: Option<u32>)
    ensures
        match r {
            Some(f) => lowest_clean(lines(iw_phy_info@)) == Some(f as int),
            None => lowest_clean(lines(iw_phy_info@)) is None,
        },
{
    let all: Vec<char> = text::chars_of(iw_phy_info);
    let ls: Vec<Vec<char>> = text::lines_of(all.as_slice());
    let ghost gs = texts(ls@);
    let mut best: Option<u32> = None;
    let mut i: usize = 0;
    while i < ls.len()
        invariant
            i <= ls@.len(),
            gs == texts(ls@),
            match best {
                Some(f) => lowest_clean(gs.take(i as int)) == Some(f as int),
                None => lowest_clean(gs.take(i as int)) is None,
            },
        decreases ls.len() - i,
    {
        assert(gs.take(i + 1).drop_last() =~= gs.take(i as int));
        if let Some(f) = read_clean_freq(ls[i].as_slice()) {
            best = match best {
                Some(b) => Some(
                    if f < b {
                        f
                    } else {
                        b
                    },
                ),
                None => Some(f),
            };
        }
        i += 1;
    }
    assert(gs.take(gs.len() as int) =~= gs);
    best
}

/// What is said of the radio of each interface, as contracts see it.
pub open spec fn infos(v: Seq<Option<String>>) -> Seq<Option<Seq<char>>> {
    Seq::new(
        v.len(),
        |i: int|
            match v[i] {
                Some(t) => Some(t@),
                None => None,
            },
    )
}

/// The frequency of the first radio that has a clean one.
pub open spec fn first_clean(v: Seq<Option<Seq<char>>>) -> Option<int>
    decreases v.len(),
{
    if v.len() == 0 {
        None
    } else {
        match v[0] {
            Some(t) => match lowest_clean(lines(t)) {
                Some(f) => Some(f),
                None => first_clean(v.skip(1)),
            },
            None => first_clean(v.skip(1)),
        }
    }
}

/// Picks the frequency of the group among the radios. A radio of which nothing
/// is known is passed over.
pub fn best_go_freq(phy_infos: &Vec<Option<String>>) -> (r: Option<u32>)
    ensures
        match r {
            Some(f) => first_clean(infos(phy_infos@)) == Some(f as int),
            None => first_clean(infos(phy_infos@)) is None,
        },
{
    let ghost vs = infos(phy_infos@);
    let mut i: usize = 0;
    assert(vs.skip(0) =~= vs);
    while i < phy_infos.len()
        invariant
            i <= phy_infos@.len(),
            vs == infos(phy_infos@),
            first_clean(vs) == first_clean(vs.skip(i as int)),
        decreases phy_infos.len() - i,
    {
        assert(vs.skip(i as int)[0] == vs[i as int]);
        assert(vs.skip(i as int).skip(1) =~= vs.skip(i + 1));
        if let Some(t) = &phy_infos[i] {
            if let Some(f) = pick_clean_5ghz_freq(t.as_str()) {
                return Some(f);
            }
        }
        i += 1;
    }
    None
}

/// The names of interfaces.
pub open spec fn names_of_radios(s: Seq<(Seq<char>, Option<String>)>) -> Seq<Seq<char>> {
    Seq::new(s.len(), |i: int| s[i].0)
}

/// What is said of the radios of interfaces.
pub open spec fn infos_of_radios(s: Seq<(Seq<char>, Option<String>)>) -> Seq<Option<String>> {
    Seq::new(s.len(), |i: int| s[i].1)
}

/// Whether texts stand in order.
pub open spec fn in_order(s: Seq<Seq<char>>) -> bool {
    forall|i: int, j: int| 0 <= i < j < s.len() ==> !precedes(#[trigger] s[j], #[trigger] s[i])
}

/// Derives the settings from what was found: the interfaces with what is said
/// of their radios, in whatever order, whether a hardware decoder is there, and
/// whether audio plays. The interfaces are put in order, and the first radio
/// with a clean channel decides.
pub fn detect(radios: Vec<(String, Option<String>)>, hw_decode: bool, audio: bool) -> (r:
    Capabilities)
    ensures
        strs(r.wifi_interfaces@) == names_of_radios(by_name(named(radios@))),
        in_order(strs(r.wifi_interfaces@)),
        r.go_freq_mhz == match first_clean(infos(infos_of_radios(by_name(named(radios@))))) {
            Some(f) => f,
            None => SOCIAL_FREQ_2G as int,
        },
        r.go_band == band_of(r.go_freq_mhz as int),
        r.max_resolution == resolution_of(r.go_band),
        r.hw_decode == hw_decode,
        r.audio == audio,
{
    proof {
        law_by_name_is_an_ordering(named(radios@));
    }
    let ordered: Vec<(String, Option<String>)> = order_by_name(radios);
    let ghost all = named(ordered@);
    let mut rest: Vec<(String, Option<String>)> = ordered;
    let mut wifi_interfaces: Vec<String> = Vec::new();
    let mut phy_infos: Vec<Option<String>> = Vec::new();
    assert(all.skip(0) =~= all);
    while rest.len() > 0
        invariant
            wifi_interfaces@.len() == phy_infos@.len(),
            wifi_interfaces@.len() + rest@.len() == all.len(),
            named(rest@) == all.skip(wifi_interfaces@.len() as int),
            strs(wifi_interfaces@) == names_of_radios(all).take(wifi_interfaces@.len() as int),
            phy_infos@ == infos_of_radios(all).take(wifi_interfaces@.len() as int),
        decreases rest.len(),
    {
        let ghost k = wifi_interfaces@.len() as int;
        let ghost names = strs(wifi_interfaces@);
        let ghost before = rest@;
        assert(named(before)[0] == all[k]);
        let (name, info): (String, Option<String>) = rest.remove(0);
        let ghost nv = name@;
        wifi_interfaces.push(name);
        phy_infos.push(info);
        proof {
            assert(strs(wifi_interfaces@) =~= names.push(nv));
            assert(names_of_radios(all).take(k + 1) =~= names_of_radios(all).take(k).push(nv));
            assert(infos_of_radios(all).take(k + 1) =~= infos_of_radios(all).take(k).push(info));
            assert(named(rest@) =~= all.skip(k + 1)) by {
                assert forall|i: int| 0 <= i < rest@.len() implies named(rest@)[i] == all.skip(
                    k + 1,
                )[i] by {
                    assert(rest@[i] == before[i + 1]);
                    assert(named(before)[i + 1] == all.skip(k)[i + 1]);
                }
            }
        }
    }
    proof {
        assert(names_of_radios(all).take(all.len() as int) =~= names_of_radios(all));
        assert(infos_of_radios(all).take(all.len() as int) =~= infos_of_radios(all));
    }
    let go_freq_mhz: u32 = match best_go_freq(&phy_infos) {
        Some(f) => f,
        None => SOCIAL_FREQ_2G,
    };
    let go_band: GoBand = if go_freq_mhz >= 5000 {
        GoBand::Band5
    } else {
        GoBand::Band24
    };
    let max_resolution: (u32, u32) = match go_band {
        GoBand::Band5 => (1920, 1080),
        GoBand::Band24 => (1280, 720),
    };
    Capabilities { wifi_interfaces, go_freq_mhz, go_band, max_resolution, hw_decode, audio }
}

/// Where nothing can be said of the radios, the group runs on the channel that
/// every source finds, at the resolution that it carries.
pub proof fn law_unknown_radios_get_the_safe_channel(v: Seq<Option<Seq<char>>>)
    requires
        forall|i: int| 0 <= i < v.len() ==> (#[trigger] v[i]) is None,
    ensures
        first_clean(v) is None,
        band_of(SOCIAL_FREQ_2G as int) == GoBand::Band24,
        resolution_of(band_of(SOCIAL_FREQ_2G as int)) == (1280u32, 720u32),
    decreases v.len(),
{
    if v.len() > 0 {
        let rest = v.skip(1);
        assert forall|i: int| 0 <= i < rest.len() implies (#[trigger] rest[i]) is None by {
            assert(rest[i] == v[i + 1]);
        }
        law_unknown_radios_get_the_safe_channel(rest);
        assert(v[0] is None);
    }
}

/// Whether a file is a driver for hardware video decoding, by its name.
pub fn is_video_driver(file_name: &str) -> (r: bool)
    ensures
        r == "_drv_video.so"@.is_suffix_of(file_name@),
{
    text::finishes_with(text::chars_of(file_name).as_slice(), "_drv_video.so")
}

/// Reads the number of a radio.
pub fn phy_index(t: &str) -> (r: Option<u32>)
    ensures
        match r {
            Some(n) => as_unsigned(trim(t@), 10, u32::MAX as int) == Some(n as int),
            None => as_unsigned(trim(t@), 10, u32::MAX as int) is None,
        },
{
    let all: Vec<char> = text::chars_of(t);
    match text::read_unsigned(text::trimmed(all.as_slice()), 10, u32::MAX as u64) {
        Some(n) => Some(n as u32),
        None => None,
    }
}

} // verus!
