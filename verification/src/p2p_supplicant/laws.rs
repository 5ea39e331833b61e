//! What holds of the start of the supplicant and of its configuration.

use vstd::prelude::*;
use crate::p2p_supplicant::{
    conf_text, manage, socket_of, start_after, StartEvent, StartModel, SupplicantModel,
};
use crate::text;
use crate::text::split_char;

verus! {

/// The configuration says where the supplicant listens and what the device is
/// called, each on a line of its own.
pub proof fn law_configuration_names_the_device(dir: Seq<char>, name: Seq<char>)
    requires
        !dir.contains('\n'),
        !name.contains('\n'),
    ensures
        ({
            let ls = split_char(conf_text(dir, name), '\n');
            &&& ls[0] == "ctrl_interface="@ + dir
            &&& ls[1] == "update_config=1"@
            &&& ls[2] == "device_name="@ + name
        }),
{
    let t = conf_text(dir, name);
    reveal_strlit("ctrl_interface=");
    reveal_strlit("\nupdate_config=1\ndevice_name=");
    reveal_strlit("update_config=1");
    reveal_strlit("device_name=");
    let tail =
        "\ndevice_type=7-0050F204-1\np2p_go_intent=1\ndriver_param=p2p_device=1\ncountry=FR\n"@;
    reveal_strlit(
        "\ndevice_type=7-0050F204-1\np2p_go_intent=1\ndriver_param=p2p_device=1\ncountry=FR\n",
    );
    let l0 = "ctrl_interface="@ + dir;
    let l1 = "update_config=1"@;
    let l2 = "device_name="@ + name;
    let rest = tail.skip(1);
    assert(tail[0] == '\n');
    let c = l2.push('\n') + rest;
    let b = l1.push('\n') + c;
    assert(t =~= l0.push('\n') + b) by {
        let m = "\nupdate_config=1\ndevice_name="@;
        assert(m =~= seq!['\n'] + l1 + seq!['\n'] + "device_name="@);
        assert(tail =~= seq!['\n'] + rest);
        assert(t == "ctrl_interface="@ + dir + m + name + tail);
    }
    assert(!l0.contains('\n')) by {
        assert forall|i: int| 0 <= i < l0.len() implies l0[i] != '\n' by {
            if i >= 15 {
                assert(l0[i] == dir[i - 15]);
                assert(dir.contains(l0[i]));
            }
        }
    }
    assert(!l2.contains('\n')) by {
        assert forall|i: int| 0 <= i < l2.len() implies l2[i] != '\n' by {
            if i >= 12 {
                assert(l2[i] == name[i - 12]);
                assert(name.contains(l2[i]));
            }
        }
    }
    assert(!l1.contains('\n'));
    text::lemma_split_char_between(l0, '\n', b);
    text::lemma_split_char_between(l1, '\n', c);
    text::lemma_split_char_between(l2, '\n', rest);
    text::lemma_split_char_solid(l0, '\n');
    text::lemma_split_char_solid(l1, '\n');
    text::lemma_split_char_solid(l2, '\n');
    text::lemma_split_char_some(rest, '\n');
}

/// To take an adapter away and to give it back are the same command but for the
/// last word, and both name the adapter.
pub proof fn law_adapter_is_taken_and_given_back(interface: Seq<char>)
    ensures
        manage(interface, false).drop_last() == manage(interface, true).drop_last(),
        manage(interface, false).last() == "no"@,
        manage(interface, true).last() == "yes"@,
        manage(interface, true)[3] == interface,
        manage(interface, true)[0] == "nmcli"@,
{
    assert(manage(interface, false).drop_last() =~= manage(interface, true).drop_last());
}

/// The parts of a start that succeeds, in their order: what an earlier run left
/// is ended and the adapter taken away before the configuration is written and
/// the directory made; then the supplicant is run on the adapter with that
/// configuration, and its socket is awaited.
pub proof fn law_start_goes_step_by_step(s: SupplicantModel, unmanaged: bool)
    requires
        !s.started,
    ensures
        ({
            let (s1, a) = start_after(s, StartEvent::Asked);
            let (s2, b) = start_after(s1, StartEvent::StaleEnded);
            let (s3, c) = start_after(s2, StartEvent::Unmanaged(unmanaged));
            let (s4, d) = start_after(s3, StartEvent::Written(None));
            let (s5, e) = start_after(s4, StartEvent::DirectoryMade(None));
            let (s6, f) = start_after(s5, StartEvent::Spawned(None));
            let (s7, g) = start_after(s6, StartEvent::SocketAwaited(true));
            &&& a matches StartModel::EndStale(w) && w[1] == "pkill"@
            &&& b == StartModel::Unmanage(manage(s.interface, false))
            &&& s3.was_nm_managed == (s.was_nm_managed || unmanaged)
            &&& c == StartModel::WriteConfig(conf_text("/tmp/miracast-wpa-p2p"@, s.device_name))
            &&& d == StartModel::MakeDirectory
            &&& e matches StartModel::Spawn(w) && w[1] == "wpa_supplicant"@ && w[2] == "-i"@ && w[3]
                == s.interface && w[4] == "-c"@ && w[5] == "/tmp/miracast-wpa-p2p.conf"@
            &&& f == StartModel::AwaitSocket(socket_of(s.interface))
            &&& g == StartModel::Running
            &&& s7.interface == s.interface && s7.device_name == s.device_name
        }),
{
}

/// A start that fails ends there: nothing runs afterwards, and why it failed is
/// told.
pub proof fn law_failed_start_runs_nothing(s: SupplicantModel, why: &str)
    requires
        !s.started,
        !s.has_process,
    ensures
        ({
            let w = start_after(s, StartEvent::Written(Some(why)));
            let d = start_after(s, StartEvent::DirectoryMade(Some(why)));
            let p = start_after(s, StartEvent::Spawned(Some(why)));
            &&& w.1 is Fail && !w.0.has_process && !w.0.started
            &&& d.1 is Fail && !d.0.has_process && !d.0.started
            &&& p.1 is Fail && !p.0.has_process && !p.0.started
            &&& w.1 matches StartModel::Fail { error, .. } && why@.is_suffix_of(error)
            &&& d.1 matches StartModel::Fail { error, .. } && why@.is_suffix_of(error)
            &&& p.1 matches StartModel::Fail { error, .. } && why@.is_suffix_of(error)
        }),
{
    let w = "Failed to write wpa_supplicant config: "@ + why@;
    let d = "Failed to create ctrl dir: "@ + why@;
    let p = "Failed to start wpa_supplicant: "@ + why@;
    assert(w.subrange(w.len() - why@.len(), w.len() as int) =~= why@);
    assert(d.subrange(d.len() - why@.len(), d.len() as int) =~= why@);
    assert(p.subrange(p.len() - why@.len(), p.len() as int) =~= why@);
}

/// The socket of a plain interface lies in the directory of the supplicant under
/// the name of the interface.
pub proof fn law_socket_is_named_after_the_interface(interface: Seq<char>)
    requires
        interface.len() == 0 || interface[0] != '/',
    ensures
        "/tmp/miracast-wpa-p2p/"@.is_prefix_of(socket_of(interface)),
        interface.is_suffix_of(socket_of(interface)),
{
    let s = socket_of(interface);
    reveal_strlit("/");
    let dir = "/tmp/miracast-wpa-p2p/"@;
    if "/"@.is_prefix_of(interface) {
        assert(interface.subrange(0, 1)[0] == interface[0]);
    }
    assert(s.take(dir.len() as int) =~= dir);
    assert(s.subrange(s.len() - interface.len(), s.len() as int) =~= interface);
}

} // verus!
