//! What holds of the commands for wpa_cli and of what is read from the answers of
//! outside programs.

use vstd::prelude::*;
use crate::text;
use crate::text::{contains, is_space, is_word, split_char, trim};
use crate::utils::search::{adapters_in, devices_in, is_parent, spare};
use crate::utils::{
    checked_params, dangerous_in, driver_in, is_dangerous, lemma_dangerous_in, lists,
    manager_devices, param_fault, params_fault, parent_of, state_in, supplicant_devices, with_pair,
    wpa_cli_words, Pairs,
};

verus! {

/// A command names the program, then where its supplicant listens if that is
/// given, then the interface, and ends in its arguments.
pub proof fn law_command_ends_in_its_arguments(
    interface: Seq<char>,
    args: Seq<Seq<char>>,
    ctrl_path: Option<Seq<char>>,
)
    ensures
        ({
            let w = wpa_cli_words(interface, args, ctrl_path);
            let k = w.len() - args.len();
            &&& w[0] == "sudo"@ && w[1] == "wpa_cli"@
            &&& w.skip(k) == args
            &&& w[k - 2] == "-i"@ && w[k - 1] == interface
            &&& ctrl_path matches Some(p) ==> k == 6 && w[2] == "-p"@ && w[3] == p
            &&& ctrl_path is None ==> k == 4
        }),
{
    let w = wpa_cli_words(interface, args, ctrl_path);
    let k = w.len() - args.len();
    assert(w.skip(k) =~= args);
}

proof fn lemma_params(ps: Seq<Seq<char>>)
    ensures
        params_fault(ps) is None <==> forall|i: int|
            0 <= i < ps.len() ==> param_fault(#[trigger] ps[i]) is None,
    decreases ps.len(),
{
    if ps.len() > 0 {
        let rest = ps.skip(1);
        lemma_params(rest);
        assert forall|i: int| 1 <= i < ps.len() implies #[trigger] ps[i] == rest[i - 1] by {}
        if params_fault(ps) is None {
            assert forall|i: int| 0 <= i < ps.len() implies param_fault(
                #[trigger] ps[i],
            ) is None by {
                if i > 0 {
                    assert(ps[i] == rest[i - 1]);
                }
            }
        }
        if forall|i: int| 0 <= i < ps.len() ==> param_fault(#[trigger] ps[i]) is None {
            assert(param_fault(ps[0]) is None);
            assert forall|i: int| 0 <= i < rest.len() implies param_fault(
                #[trigger] rest[i],
            ) is None by {
                assert(rest[i] == ps[i + 1]);
            }
        }
    }
}

/// A command is accepted exactly if its interface and each of its arguments is,
/// with the exception of the last argument where that is left unchecked.
pub proof fn law_every_parameter_is_checked(
    interface: Seq<char>,
    args: Seq<Seq<char>>,
    skip_last: bool,
)
    ensures
        params_fault(checked_params(interface, args, skip_last)) is None <==> param_fault(
            interface,
        ) is None && forall|i: int|
            0 <= i < args.len() && !(skip_last && i == args.len() - 1) ==> param_fault(
                #[trigger] args[i],
            ) is None,
{
    let ps = checked_params(interface, args, skip_last);
    lemma_params(ps);
    assert(ps[0] == interface);
    assert forall|i: int| 1 <= i < ps.len() implies #[trigger] ps[i] == args[i - 1] by {}
    if params_fault(ps) is None {
        assert(param_fault(ps[0]) is None);
        assert forall|i: int|
            0 <= i < args.len() && !(skip_last && i == args.len() - 1) implies param_fault(
            #[trigger] args[i],
        ) is None by {
            assert(ps[i + 1] == args[i]);
        }
    }
    if param_fault(interface) is None && forall|i: int|
        0 <= i < args.len() && !(skip_last && i == args.len() - 1) ==> param_fault(
            #[trigger] args[i],
        ) is None {
        assert forall|i: int| 0 <= i < ps.len() implies param_fault(#[trigger] ps[i]) is None by {
            if i > 0 {
                assert(ps[i] == args[i - 1]);
            }
        }
    }
}

/// A parameter with a character that means something to a shell is refused,
/// whatever else it holds.
pub proof fn law_shell_characters_are_refused(s: Seq<char>, i: int)
    requires
        0 <= i < s.len(),
        s[i] == ';' || s[i] == '|' || s[i] == '`' || s[i] == '$' || s[i] == '&' || s[i] == '\n'
            || s[i] == '\r' || s[i] == '\0' || s[i] == '<' || s[i] == '>' || s[i] == '(' || s[i]
            == ')' || s[i] == '{' || s[i] == '}',
    ensures
        param_fault(s) is Some,
        is_dangerous(s[i]),
        dangerous_in(s).len() > 0,
{
    lemma_dangerous_in(s);
    assert(is_dangerous(s[i]));
}

/// A Wi-Fi Direct device is named after its parent, and nothing else has one.
pub proof fn law_device_is_named_after_its_parent(name: Seq<char>, parent: Seq<char>)
    ensures
        parent_of(name) == Some(parent) <==> name == "p2p-dev-"@ + parent,
{
    reveal_strlit("p2p-dev-");
    let full = "p2p-dev-"@ + parent;
    assert(full.take(8) =~= "p2p-dev-"@);
    assert(full.skip(8) =~= parent);
    if parent_of(name) == Some(parent) {
        assert(name =~= name.take(8) + name.skip(8));
        assert(name.take(8) =~= "p2p-dev-"@);
    }
}

proof fn lemma_with_pair(p: Pairs, name: Seq<char>, parent: Seq<char>, other: Seq<char>)
    ensures
        lists(with_pair(p, name, parent), name),
        lists(p, other) ==> lists(with_pair(p, name, parent), other),
        lists(with_pair(p, name, parent), other) ==> lists(p, other) || other == name,
{
    let q = with_pair(p, name, parent);
    if !lists(p, name) {
        assert(q.last().0 == name);
        if lists(p, other) {
            let i = choose|i: int| 0 <= i < p.len() && (#[trigger] p[i]).0 == other;
            assert(q[i].0 == other);
        }
        if lists(q, other) {
            let i = choose|i: int| 0 <= i < q.len() && (#[trigger] q[i]).0 == other;
            if i < p.len() {
                assert(p[i].0 == other);
            }
        }
    }
}

/// Of the devices that the supplicant and the network manager name none is left
/// out: those of the supplicant by their names, those of the manager by their
/// kind.
pub proof fn law_no_device_is_left_out(known: Pairs, ls: Seq<Seq<char>>, k: int)
    requires
        0 <= k < ls.len(),
    ensures
        parent_of(trim(ls[k])) is Some ==> lists(supplicant_devices(known, ls), trim(ls[k])),
        split_char(ls[k], ':').len() >= 3 && split_char(ls[k], ':')[1] == "wifi-p2p"@ ==> lists(
            manager_devices(known, ls),
            split_char(ls[k], ':')[0],
        ),
    decreases ls.len(),
{
    let front = ls.drop_last();
    let last = ls.last();
    let s = supplicant_devices(known, front);
    let m = manager_devices(known, front);
    if k < front.len() {
        law_no_device_is_left_out(known, front, k);
        assert(front[k] == ls[k]);
        if let Some(parent) = parent_of(trim(last)) {
            lemma_with_pair(s, trim(last), parent, trim(ls[k]));
        }
        let f = split_char(last, ':');
        if f.len() >= 3 && f[1] == "wifi-p2p"@ {
            let parent = match parent_of(f[0]) {
                Some(parent) => parent,
                None => f[0],
            };
            lemma_with_pair(m, f[0], parent, split_char(ls[k], ':')[0]);
        }
    } else {
        if let Some(parent) = parent_of(trim(last)) {
            lemma_with_pair(s, trim(last), parent, trim(last));
        }
        let f = split_char(last, ':');
        if f.len() >= 3 && f[1] == "wifi-p2p"@ {
            let parent = match parent_of(f[0]) {
                Some(parent) => parent,
                None => f[0],
            };
            lemma_with_pair(m, f[0], parent, f[0]);
        }
    }
}

/// The driver of an adapter is read from the first line that names one.
pub proof fn law_driver_is_read(ls: Seq<Seq<char>>, k: int, name: Seq<char>)
    requires
        0 <= k < ls.len(),
        ls[k] == "driver: "@ + name,
        is_word(name),
        forall|j: int| 0 <= j < k ==> !"driver:"@.is_prefix_of(#[trigger] ls[j]),
    ensures
        driver_in(ls) == name,
    decreases k,
{
    reveal_strlit("driver:");
    reveal_strlit("driver: ");
    if k == 0 {
        assert(ls[0].take(7) =~= "driver:"@);
        assert(ls[0].skip(7) =~= seq![' '] + name);
        assert(!is_space(name[0]) && !is_space(name[name.len() - 1]));
        text::lemma_trim_solid(name, ' ');
    } else {
        let rest = ls.skip(1);
        assert(!"driver:"@.is_prefix_of(ls[0]));
        assert forall|j: int| 0 <= j < k - 1 implies !"driver:"@.is_prefix_of(
            #[trigger] rest[j],
        ) by {
            assert(rest[j] == ls[j + 1]);
        }
        law_driver_is_read(rest, k - 1, name);
    }
}

/// The state of an adapter is read from the last line that begins with its name:
/// connected where that says so, and otherwise disconnected. An adapter without
/// such a line is available.
pub proof fn law_state_is_read(ls: Seq<Seq<char>>, parent: Seq<char>, k: int, state: Seq<char>)
    ensures
        (forall|j: int| 0 <= j < ls.len() ==> !(parent + ":"@).is_prefix_of(#[trigger] ls[j]))
            ==> state_in(ls, parent) == "available"@,
        (0 <= k < ls.len() && ls[k] == parent + ":"@ + state && forall|j: int|
            k < j < ls.len() ==> !(parent + ":"@).is_prefix_of(#[trigger] ls[j])) ==> {
            &&& state == "connected"@ ==> state_in(ls, parent) == "connected"@
            &&& contains(state, "disconnected"@) ==> state_in(ls, parent) == "disconnected"@
            &&& !contains(state, "connected"@) ==> state_in(ls, parent) == "disconnected"@
        },
    decreases ls.len(),
{
    if ls.len() > 0 {
        let front = ls.drop_last();
        let key = parent + ":"@;
        law_state_is_read(front, parent, k, state);
        assert forall|j: int| 0 <= j < front.len() implies #[trigger] front[j] == ls[j] by {}
        if forall|j: int| 0 <= j < ls.len() ==> !key.is_prefix_of(#[trigger] ls[j]) {
            assert(!key.is_prefix_of(ls[ls.len() - 1]));
            assert forall|j: int| 0 <= j < front.len() implies !key.is_prefix_of(
                #[trigger] front[j],
            ) by {
                assert(front[j] == ls[j]);
            }
        }
        if 0 <= k < ls.len() && ls[k] == key + state && forall|j: int|
            k < j < ls.len() ==> !key.is_prefix_of(#[trigger] ls[j]) {
            if k == ls.len() - 1 {
                assert(ls[k].take(key.len() as int) =~= key);
                assert(ls[k].skip(key.len() as int) =~= state);
                if state == "connected"@ {
                    lemma_connected();
                }
            } else {
                assert(!key.is_prefix_of(ls[ls.len() - 1]));
                assert(front[k] == ls[k]);
                assert forall|j: int| k < j < front.len() implies !key.is_prefix_of(
                    #[trigger] front[j],
                ) by {
                    assert(front[j] == ls[j]);
                }
            }
        }
    }
}

proof fn lemma_connected()
    ensures
        contains("connected"@, "connected"@),
        !contains("connected"@, "disconnected"@),
{
    let c = "connected"@;
    reveal_strlit("connected");
    reveal_strlit("disconnected");
    assert(c.subrange(0, c.len() as int) =~= c);
    text::lemma_find_at(c, c, 0);
    text::lemma_find_from(c, "disconnected"@, 0);
}

/// The adapters of their own are those that are not the parent of a device, in
/// their order and with none left out.
pub proof fn law_spare_adapters_have_no_device(
    devices: Pairs,
    adapters: Seq<Seq<char>>,
    name: Seq<char>,
)
    ensures
        spare(devices, adapters).contains(name) <==> adapters.contains(name) && !is_parent(
            devices,
            name,
        ),
    decreases adapters.len(),
{
    let all = spare(devices, adapters);
    if adapters.len() > 0 {
        let front = adapters.drop_last();
        let last = adapters.last();
        let before = spare(devices, front);
        law_spare_adapters_have_no_device(devices, front, name);
        assert(adapters =~= front.push(last));
        if all.contains(name) {
            let i = choose|i: int| 0 <= i < all.len() && all[i] == name;
            if i < before.len() {
                assert(before[i] == name);
                let k = choose|k: int| 0 <= k < front.len() && front[k] == name;
                assert(adapters[k] == name);
            } else {
                assert(adapters[adapters.len() - 1] == name);
            }
        }
        if adapters.contains(name) && !is_parent(devices, name) {
            let k = choose|k: int| 0 <= k < adapters.len() && adapters[k] == name;
            if k < front.len() {
                assert(front[k] == name);
                let i = choose|i: int| 0 <= i < before.len() && before[i] == name;
                assert(all[i] == name);
            } else {
                assert(all.last() == name);
            }
        }
    }
}

/// A line with a device is listed among the devices with its parent, one with a
/// wireless adapter among the adapters, and no line among both.
pub proof fn law_lines_are_told_apart(ls: Seq<Seq<char>>, k: int)
    requires
        0 <= k < ls.len(),
    ensures
        parent_of(trim(ls[k])) matches Some(p) ==> devices_in(ls).contains((trim(ls[k]), p)),
        parent_of(trim(ls[k])) is None && "wl"@.is_prefix_of(trim(ls[k])) ==> adapters_in(
            ls,
        ).contains(trim(ls[k])),
        devices_in(ls).len() + adapters_in(ls).len() <= ls.len(),
    decreases ls.len(),
{
    let front = ls.drop_last();
    let name = trim(ls[k]);
    lemma_no_line_twice(ls);
    let ds = devices_in(ls);
    let aa = adapters_in(ls);
    if k < front.len() {
        law_lines_are_told_apart(front, k);
        assert(front[k] == ls[k]);
        let d = devices_in(front);
        let a = adapters_in(front);
        if let Some(p) = parent_of(name) {
            let i = choose|i: int| 0 <= i < d.len() && d[i] == (name, p);
            assert(ds[i] == (name, p));
        } else if "wl"@.is_prefix_of(name) {
            let i = choose|i: int| 0 <= i < a.len() && a[i] == name;
            assert(aa[i] == name);
        }
    } else {
        if let Some(p) = parent_of(name) {
            assert(ds.last() == (name, p));
        } else if "wl"@.is_prefix_of(name) {
            assert(aa.last() == name);
        }
    }
}

proof fn lemma_no_line_twice(ls: Seq<Seq<char>>)
    ensures
        devices_in(ls).len() + adapters_in(ls).len() <= ls.len(),
    decreases ls.len(),
{
    if ls.len() > 0 {
        lemma_no_line_twice(ls.drop_last());
    }
}

} // verus!
