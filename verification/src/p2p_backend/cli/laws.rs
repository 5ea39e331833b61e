//! What holds of the bring-up of the group: the band is judged by the frequency,
//! a rung that comes up in its band is kept, and what is sent can be read.

use vstd::prelude::*;
use crate::capabilities::{resolution_of, GoBand, GoCandidate};
use crate::p2p_backend::cli::{
    checked, climb, default_ladder, device_info, freq_in, group_add, interface_in, interfaces_in,
    is_social, ladder_of, law_first_holding_rung_wins, on_status, rotated, rung_holds,
    runs_in_band, setup, social, without_colons, Phase, RungOutcome,
};
use crate::text;
use crate::text::{
    as_unsigned, contains, dec, digits, find, hex_upper, is_word, lines, occurs_at, split_char,
    split_on, zero_padded,
};

verus! {

/// Whether a status names a frequency: the first line that names one has it.
pub open spec fn names_frequency(status: Seq<char>, k: int, f: int) -> bool {
    let ls = lines(status);
    &&& 0 <= k < ls.len()
    &&& ls[k] == "freq="@ + dec(f)
    &&& forall|j: int| 0 <= j < k ==> !"freq="@.is_prefix_of(#[trigger] ls[j])
}

/// Whether a frequency in MHz lies in a band.
pub open spec fn lies_in(f: int, band: GoBand) -> bool {
    match band {
        GoBand::Band24 => 2400 <= f < 2500,
        GoBand::Band5 => 5000 <= f < 6000,
    }
}

proof fn lemma_leading_digit(f: int)
    requires
        1000 <= f < 10_000,
    ensures
        dec(f).len() == 4,
        dec(f)[0] == text::digit_char(f / 1000, false),
{
    let a = f / 10;
    let b = a / 10;
    let c = b / 10;
    assert(b == f / 100 && c == f / 1000);
    assert(1 <= c < 10 && 10 <= b < 100 && 100 <= a < 1000);
    assert(digits(c, 10, false) == seq![text::digit_char(c, false)]);
    assert(digits(b, 10, false) == digits(c, 10, false).push(text::digit_char(b % 10, false)));
    assert(digits(a, 10, false) == digits(b, 10, false).push(text::digit_char(a % 10, false)));
    assert(digits(f, 10, false) == digits(a, 10, false).push(text::digit_char(f % 10, false)));
}

proof fn lemma_frequency_read(ls: Seq<Seq<char>>, k: int, f: int)
    requires
        0 <= k < ls.len(),
        0 <= f <= i64::MAX,
        ls[k] == "freq="@ + dec(f),
        forall|j: int| 0 <= j < k ==> !"freq="@.is_prefix_of(#[trigger] ls[j]),
    ensures
        freq_in(ls) == dec(f),
    decreases k,
{
    reveal_strlit("freq=");
    if k == 0 {
        assert(ls[0].skip(5) =~= dec(f));
        assert(ls[0].take(5) =~= "freq="@);
        text::lemma_dec_read_back(f);
        assert(!text::is_space(dec(f)[0]) && !text::is_space(dec(f)[dec(f).len() - 1]));
        text::lemma_trim_solid(dec(f), ' ');
    } else {
        let rest = ls.skip(1);
        assert(!"freq="@.is_prefix_of(ls[0]));
        assert forall|j: int| 0 <= j < k - 1 implies !"freq="@.is_prefix_of(#[trigger] rest[j]) by {
            assert(rest[j] == ls[j + 1]);
        }
        lemma_frequency_read(rest, k - 1, f);
    }
}

/// The band of a group is judged by its frequency in MHz: a group in the lower
/// band fits there and not in the upper one, and the other way round.
pub proof fn law_band_is_judged_by_the_frequency(status: Seq<char>, k: int, f: int)
    requires
        names_frequency(status, k, f),
        lies_in(f, GoBand::Band24) || lies_in(f, GoBand::Band5),
    ensures
        runs_in_band(GoBand::Band24, status) == lies_in(f, GoBand::Band24),
        runs_in_band(GoBand::Band5, status) == lies_in(f, GoBand::Band5),
{
    lemma_frequency_read(lines(status), k, f);
    lemma_leading_digit(f);
    reveal_strlit("5");
    let d = dec(f);
    if lies_in(f, GoBand::Band5) {
        assert(f / 1000 == 5);
        assert(d.take(1) =~= "5"@);
    } else {
        assert(f / 1000 == 2);
        assert(d[0] == '2');
        if "5"@.is_prefix_of(d) {
            assert(d.subrange(0, 1)[0] == d[0]);
        }
    }
}

/// A status that names no frequency speaks for the lower band and against the
/// upper one.
pub proof fn law_silent_status_is_the_lower_band(status: Seq<char>)
    requires
        forall|j: int|
            0 <= j < lines(status).len() ==> !"freq="@.is_prefix_of(#[trigger] lines(status)[j]),
    ensures
        runs_in_band(GoBand::Band24, status),
        !runs_in_band(GoBand::Band5, status),
{
    lemma_no_frequency(lines(status));
    reveal_strlit("5");
}

proof fn lemma_no_frequency(ls: Seq<Seq<char>>)
    requires
        forall|j: int| 0 <= j < ls.len() ==> !"freq="@.is_prefix_of(#[trigger] ls[j]),
    ensures
        freq_in(ls).len() == 0,
    decreases ls.len(),
{
    if ls.len() > 0 {
        let rest = ls.skip(1);
        assert forall|j: int| 0 <= j < rest.len() implies !"freq="@.is_prefix_of(
            #[trigger] rest[j],
        ) by {
            assert(rest[j] == ls[j + 1]);
        }
        assert(!"freq="@.is_prefix_of(ls[0]));
        lemma_no_frequency(rest);
    }
}

/// Whether all goes well at a rung: the supplicant says OK, the interface
/// appears, and its status names a frequency of the band.
pub open spec fn goes_well(c: GoCandidate, o: RungOutcome, k: int, f: int) -> bool {
    &&& o.reply == "OK"@ || o.reply == "OK\n"@
    &&& o.interface is Some
    &&& o.status matches Some(t) && names_frequency(t, k, f)
    &&& lies_in(f, c.band)
}

/// Whether a rung goes wrong: the supplicant refuses, no interface appears, or
/// its status names a frequency of the other band.
pub open spec fn goes_wrong(c: GoCandidate, o: RungOutcome, k: int, f: int) -> bool {
    ||| "FAIL"@.is_prefix_of(o.reply)
    ||| o.interface is None
    ||| (o.status matches Some(t) && names_frequency(t, k, f) && match c.band {
        GoBand::Band24 => lies_in(f, GoBand::Band5),
        GoBand::Band5 => lies_in(f, GoBand::Band24),
    })
}

proof fn lemma_goes_well(c: GoCandidate, o: RungOutcome, k: int, f: int)
    requires
        goes_well(c, o, k, f),
    ensures
        rung_holds(c, o),
{
    reveal_strlit("OK");
    reveal_strlit("OK\n");
    reveal_strlit("FAIL");
    text::lemma_find_from(o.reply, "FAIL"@, 0);
    law_band_is_judged_by_the_frequency(o.status->0, k, f);
}

proof fn lemma_goes_wrong(c: GoCandidate, o: RungOutcome, k: int, f: int)
    requires
        goes_wrong(c, o, k, f),
    ensures
        !rung_holds(c, o),
{
    if "FAIL"@.is_prefix_of(o.reply) {
        assert(o.reply.subrange(0, "FAIL"@.len() as int) =~= "FAIL"@);
        text::lemma_find_at(o.reply, "FAIL"@, 0);
    } else if o.interface is Some {
        law_band_is_judged_by_the_frequency(o.status->0, k, f);
    }
}

/// A group that comes up in its band at the first rung is kept: the bring-up
/// ends there.
pub proof fn law_first_rung_that_goes_well_is_kept(
    ladder: Seq<GoCandidate>,
    os: Seq<RungOutcome>,
    k: int,
    f: int,
)
    requires
        os.len() == ladder.len(),
        ladder.len() > 0,
        goes_well(ladder[0], os[0], k, f),
    ensures
        climb(ladder, os, 0) == (Phase::Up, 0int),
{
    lemma_goes_well(ladder[0], os[0], k, f);
    law_first_holding_rung_wins(ladder, os);
    let end = climb(ladder, os, 0);
    if end.1 > 0 || end.0 != Phase::Up {
        assert(!rung_holds(ladder[0], os[0]));
    }
}

/// Where everything goes wrong below a rung and that one goes well, the group is
/// brought up there. Where everything goes wrong the bring-up fails.
pub proof fn law_ladder_is_climbed(
    ladder: Seq<GoCandidate>,
    os: Seq<RungOutcome>,
    ks: Seq<int>,
    fs: Seq<int>,
    rung: int,
)
    requires
        os.len() == ladder.len(),
        ks.len() == ladder.len(),
        fs.len() == ladder.len(),
        ladder.len() > 0,
        0 <= rung <= ladder.len(),
        forall|i: int|
            0 <= i < rung ==> goes_wrong(#[trigger] ladder[i], os[i], ks[i], fs[i]),
        rung < ladder.len() ==> goes_well(ladder[rung], os[rung], ks[rung], fs[rung]),
    ensures
        rung < ladder.len() ==> climb(ladder, os, 0) == (Phase::Up, rung),
        rung == ladder.len() ==> climb(ladder, os, 0).0 == Phase::Failed,
{
    law_first_holding_rung_wins(ladder, os);
    let end = climb(ladder, os, 0);
    assert forall|i: int| 0 <= i < rung implies !rung_holds(#[trigger] ladder[i], os[i]) by {
        lemma_goes_wrong(ladder[i], os[i], ks[i], fs[i]);
    }
    if rung < ladder.len() {
        lemma_goes_well(ladder[rung], os[rung], ks[rung], fs[rung]);
        assert(rung_holds(ladder[rung], os[rung]));
    }
    if end.0 == Phase::Up {
        assert(rung_holds(ladder[end.1], os[end.1]));
    }
}

/// Every rung of the ladder that is used where none was set up names a frequency
/// of its band or leaves it to the driver, and offers what that band carries.
/// The first names a channel that every source visits.
pub proof fn law_default_ladder_keeps_its_bands(i: int)
    requires
        0 <= i < default_ladder().len(),
    ensures
        default_ladder()[i].freq_mhz == 0 || lies_in(
            default_ladder()[i].freq_mhz as int,
            default_ladder()[i].band,
        ),
        default_ladder()[i].max_resolution == resolution_of(default_ladder()[i].band),
        default_ladder()[0].freq_mhz == 2412 || default_ladder()[0].freq_mhz == 2437
            || default_ladder()[0].freq_mhz == 2462,
        ladder_of(Seq::empty(), 0) == default_ladder(),
{
    assert(rotated(default_ladder(), 0) =~= default_ladder());
}

/// A group in the wrong band is taken down again, and one whose status cannot be
/// read is kept.
pub proof fn law_wrong_band_is_taken_down(band: GoBand, rung: int, status: Seq<char>, k: int, f: int)
    requires
        names_frequency(status, k, f),
        match band {
            GoBand::Band24 => lies_in(f, GoBand::Band5),
            GoBand::Band5 => lies_in(f, GoBand::Band24),
        },
    ensures
        on_status(band, rung, Some(status)) == (Phase::Removing, rung),
        on_status(band, rung, None) == (Phase::Up, rung),
{
    law_band_is_judged_by_the_frequency(status, k, f);
}

/// The command that creates a group names the frequency of the rung, and none
/// where the driver chooses.
pub proof fn law_rung_is_asked_for(f: int)
    requires
        0 <= f <= u32::MAX,
    ensures
        group_add(f).args[0] == "p2p_group_add"@,
        !group_add(f).skip_last_validation,
        f == 0 ==> group_add(f).args == seq!["p2p_group_add"@, "persistent"@],
        f != 0 ==> group_add(f).args.len() == 3 && "freq="@.is_prefix_of(group_add(f).args[2])
            && as_unsigned(group_add(f).args[2].skip(5), 10, u32::MAX as int) == Some(f),
{
    reveal_strlit("freq=");
    if f != 0 {
        let a = "freq="@ + dec(f);
        assert(a.take(5) =~= "freq="@);
        assert(a.skip(5) =~= dec(f));
        text::lemma_digits_read_back(f, 10, false);
        text::lemma_plain_is_word(dec(f));
    }
}

proof fn lemma_padded_len(s: Seq<char>, width: int)
    requires
        s.len() <= width,
    ensures
        zero_padded(s, width).len() == width,
    decreases width - s.len(),
{
    if s.len() < width {
        lemma_padded_len(seq!['0'] + s, width);
    }
}

proof fn lemma_short_hex(n: int)
    requires
        0 <= n < 65536,
    ensures
        hex_upper(n, 4).len() == 4,
        as_unsigned(hex_upper(n, 4), 16, 65535) == Some(n),
{
    text::lemma_hex_upper_read_back(n, 4, 65535);
    let a = n / 16;
    let b = a / 16;
    let c = b / 16;
    assert(c < 16);
    let d = digits(n, 16, true);
    if n >= 16 {
        assert(d == digits(a, 16, true).push(text::digit_char(n % 16, true)));
        if a >= 16 {
            assert(digits(a, 16, true) == digits(b, 16, true).push(text::digit_char(a % 16, true)));
            if b >= 16 {
                assert(digits(b, 16, true) == digits(c, 16, true).push(
                    text::digit_char(b % 16, true),
                ));
            }
        }
    }
    assert(d.len() <= 4);
    lemma_padded_len(d, 4);
}

/// The element that describes the device holds six bytes: those of a primary
/// sink that can take a session, of the port, and of a throughput of 300.
pub proof fn law_device_info_holds_the_port(port: u16)
    ensures
        device_info(port as int).len() == 16,
        as_unsigned(device_info(port as int).subrange(0, 4), 16, 65535) == Some(6int),
        as_unsigned(device_info(port as int).subrange(4, 8), 16, 65535) == Some(0x11int),
        as_unsigned(device_info(port as int).subrange(8, 12), 16, 65535) == Some(port as int),
        as_unsigned(device_info(port as int).subrange(12, 16), 16, 65535) == Some(300int),
{
    let d = device_info(port as int);
    reveal_strlit("0006");
    lemma_short_hex(0x11);
    lemma_short_hex(port as int);
    lemma_short_hex(0x12C);
    lemma_short_hex(6);
    assert(d.subrange(4, 8) =~= hex_upper(0x11, 4));
    assert(d.subrange(8, 12) =~= hex_upper(port as int, 4));
    assert(d.subrange(12, 16) =~= hex_upper(0x12C, 4));
    assert(digits(6, 16, true) == seq!['6']);
    reveal_with_fuel(zero_padded, 5);
    assert(hex_upper(6, 4) =~= seq!['0', '0', '0', '6']);
    assert(d.subrange(0, 4) =~= hex_upper(6, 4));
}

/// Before anything else the display is switched on, its elements and its name
/// are set before it is looked for, and the name and the port are the given
/// ones.
pub proof fn law_sink_is_described_before_it_is_found(name: Seq<char>, port: int)
    ensures
        setup(name, port)[0].args == seq!["set"@, "wifi_display"@, "1"@],
        setup(name, port).last().args[0] == "p2p_find"@,
        exists|i: int|
            0 < i < setup(name, port).len() - 1 && (#[trigger] setup(name, port)[i]).args == seq![
                "set"@,
                "device_name"@,
                name,
            ] && setup(name, port)[i].skip_last_validation,
        exists|i: int|
            0 < i < setup(name, port).len() - 1 && (#[trigger] setup(name, port)[i]).args == seq![
                "wfd_subelem_set"@,
                "0"@,
                device_info(port),
            ],
        setup(name, port).contains(checked(seq!["wfd_subelem_set"@, "1"@, "0006000000000000"@])),
        setup(name, port).contains(checked(seq!["wfd_subelem_set"@, "6"@, "000700000000000000"@])),
        setup(name, port).contains(checked(seq!["set"@, "device_type"@, "7-0050F204-1"@])),
        setup(name, port).contains(checked(seq!["set"@, "p2p_go_ht40"@, "1"@])),
{
    let s = setup(name, port);
    assert(s[2] == checked(seq!["wfd_subelem_set"@, "1"@, "0006000000000000"@]));
    assert(s[3] == checked(seq!["wfd_subelem_set"@, "6"@, "000700000000000000"@]));
    assert(s[5] == checked(seq!["set"@, "device_type"@, "7-0050F204-1"@]));
    assert(s[6] == checked(seq!["set"@, "p2p_go_ht40"@, "1"@]));
    assert(s[4].args == seq!["set"@, "device_name"@, name]);
    assert(s[1].args == seq!["wfd_subelem_set"@, "0"@, device_info(port)]);
}

/// The channels that are gone through are the rungs of the lower band that name
/// a frequency, with none left out.
pub proof fn law_social_rungs_are_of_the_lower_band(s: Seq<GoCandidate>, c: GoCandidate)
    ensures
        social(s).contains(c) <==> s.contains(c) && c.band == GoBand::Band24 && c.freq_mhz != 0,
    decreases s.len(),
{
    reveal(Seq::filter);
    let all = social(s);
    if s.len() > 0 {
        let front = s.drop_last();
        let last = s.last();
        let before = social(front);
        law_social_rungs_are_of_the_lower_band(front, c);
        assert(all == if is_social(last) {
            before.push(last)
        } else {
            before
        });
        if all.contains(c) {
            let i = choose|i: int| 0 <= i < all.len() && all[i] == c;
            if i < before.len() {
                assert(before[i] == c);
                let k = choose|k: int| 0 <= k < front.len() && front[k] == c;
                assert(s[k] == c);
            } else {
                assert(s[s.len() - 1] == c);
            }
        }
        if s.contains(c) && is_social(c) {
            let k = choose|k: int| 0 <= k < s.len() && s[k] == c;
            if k < front.len() {
                assert(front[k] == c);
                let i = choose|i: int| 0 <= i < before.len() && before[i] == c;
                assert(all[i] == c);
            } else {
                assert(all[all.len() - 1] == c);
            }
        }
    }
}

/// A separating text whose first character does not occur before it parts a text
/// there.
proof fn lemma_split_on_at(a: Seq<char>, sep: Seq<char>, b: Seq<char>)
    requires
        sep.len() > 0,
        !a.contains(sep[0]),
    ensures
        split_on(a + sep + b, sep) == seq![a] + split_on(b, sep),
{
    let s = a + sep + b;
    let k = a.len() as int;
    assert(s.subrange(k, k + sep.len()) =~= sep);
    assert forall|j: int| 0 <= j < k implies !#[trigger] occurs_at(s, sep, j) by {
        assert(s[j] == a[j]);
        assert(a.contains(a[j]));
        if occurs_at(s, sep, j) {
            assert(s.subrange(j, j + sep.len())[0] == s[j]);
        }
    }
    text::lemma_find_at(s, sep, k);
    assert(s.take(k) =~= a);
    assert(s.skip(k + sep.len()) =~= b);
}

/// Whether a text is the name of a group interface.
pub open spec fn is_group_name(name: Seq<char>) -> bool {
    is_word(name) && "p2p-"@.is_prefix_of(name) && !name.contains(':') && !name.contains('@')
}

/// A line of `ip link` gives the group interface that it describes, whatever
/// follows the name and with or without its parent. A line without a group
/// interface gives none.
pub proof fn law_group_interface_is_read(
    index: Seq<char>,
    name: Seq<char>,
    parent: Seq<char>,
    rest: Seq<char>,
)
    requires
        !index.contains(':'),
        is_group_name(name),
        !parent.contains(':'),
    ensures
        interface_in(index + ": "@ + name + ": "@ + rest) == Some(name),
        interface_in(index + ": "@ + name.push('@') + parent + ": "@ + rest) == Some(name),
        forall|line: Seq<char>| !contains(line, "p2p-"@) ==> #[trigger] interface_in(line) is None,
{
    reveal_strlit(": ");
    reveal_strlit("p2p-");
    reveal_strlit(": p2p-");
    lemma_described(index, name, name, rest);
    let full = name.push('@') + parent;
    assert(index + ": "@ + name.push('@') + parent + ": "@ + rest =~= index + ": "@ + full + ": "@
        + rest);
    assert(!full.contains(':')) by {
        assert forall|i: int| 0 <= i < full.len() implies full[i] != ':' by {
            if i < name.len() {
                assert(full[i] == name[i]);
                assert(name.contains(name[i]));
            } else if i > name.len() {
                assert(full[i] == parent[i - name.len() - 1]);
                assert(parent.contains(full[i]));
            }
        }
    }
    assert("p2p-"@.is_prefix_of(full)) by {
        assert(full.take(4) =~= name.take(4));
    }
    text::lemma_split_char_between(name, '@', parent);
    text::lemma_split_char_solid(name, '@');
    text::lemma_split_char_some(parent, '@');
    assert(split_char(full, '@')[0] == name);
    lemma_described(index, name, full, rest);
    assert forall|line: Seq<char>| !contains(line, "p2p-"@) implies #[trigger] interface_in(
        line,
    ) is None by {
        let w = ": p2p-"@;
        if contains(line, w) {
            text::lemma_find_from(line, w, 0);
            let k = find(line, w)->0;
            assert(line.subrange(k + 2, k + 6) =~= w.subrange(2, 6));
            assert(w.subrange(2, 6) =~= "p2p-"@);
            text::lemma_find_from(line, "p2p-"@, 0);
            assert(occurs_at(line, "p2p-"@, k + 2));
        }
    }
}

proof fn lemma_described(index: Seq<char>, name: Seq<char>, full: Seq<char>, rest: Seq<char>)
    requires
        !index.contains(':'),
        is_group_name(name),
        !full.contains(':'),
        "p2p-"@.is_prefix_of(full),
        full == name || split_char(full, '@')[0] == name,
    ensures
        interface_in(index + ": "@ + full + ": "@ + rest) == Some(name),
{
    reveal_strlit(": ");
    reveal_strlit("p2p-");
    reveal_strlit(": p2p-");
    let tail = full + ": "@ + rest;
    let line = index + ": "@ + full + ": "@ + rest;
    assert(line =~= index + ": "@ + tail);
    lemma_split_on_at(index, ": "@, tail);
    lemma_split_on_at(full, ": "@, rest);
    assert(split_on(line, ": "@)[1] == full);
    assert(split_on(line, ": "@).len() >= 2);
    let k = index.len() as int;
    assert(full.take(4) =~= "p2p-"@);
    assert(line.subrange(k, k + 6) =~= ": p2p-"@) by {
        assert(line.subrange(k, k + 6) =~= ": "@ + full.take(4));
        assert(": p2p-"@ =~= ": "@ + "p2p-"@);
    }
    text::lemma_find_from(line, ": p2p-"@, 0);
    assert(occurs_at(line, ": p2p-"@, k));
    text::lemma_split_char_solid(name, '@');
    assert(split_char(full, '@')[0] == name);
    assert(name.contains(name[name.len() - 1]));
    assert(without_colons(name) == name);
    assert(!text::is_space(name[0]) && !text::is_space(name[name.len() - 1]));
    text::lemma_trim_solid(name, ' ');
}

proof fn lemma_listed(ls: Seq<Seq<char>>, k: int, name: Seq<char>)
    requires
        0 <= k < ls.len(),
        interface_in(ls[k]) == Some(name),
    ensures
        interfaces_in(ls).contains(name),
    decreases ls.len(),
{
    let all = interfaces_in(ls);
    if k == ls.len() - 1 {
        assert(all.last() == name);
    } else {
        let front = ls.drop_last();
        lemma_listed(front, k, name);
        let before = interfaces_in(front);
        let i = choose|i: int| 0 <= i < before.len() && before[i] == name;
        assert(all[i] == name);
    }
}

/// Of the group interfaces that are listed none is left out.
pub proof fn law_every_group_interface_is_listed(ls: Seq<Seq<char>>, k: int, name: Seq<char>)
    requires
        0 <= k < ls.len(),
        interface_in(ls[k]) == Some(name),
    ensures
        interfaces_in(ls).contains(name),
        interfaces_in(ls).len() <= ls.len(),
{
    lemma_listed(ls, k, name);
    lemma_no_more(ls);
}

proof fn lemma_no_more(ls: Seq<Seq<char>>)
    ensures
        interfaces_in(ls).len() <= ls.len(),
    decreases ls.len(),
{
    if ls.len() > 0 {
        lemma_no_more(ls.drop_last());
    }
}

} // verus!
