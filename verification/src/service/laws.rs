//! What holds of the unit of the service, of its settings and of its main loop.

use vstd::prelude::*;
use crate::config::{law_set_key_is_read_back, stored, takes_keys};
use crate::json::{num, JsonModel};
use crate::service::{
    bool_setting, bus_method, ensure_installed, idle_ends, install_steps, int_setting, only_if,
    present_after_all, round, text_setting, ServiceAction, ServiceContext, ServiceInput,
    ServiceStep,
};

verus! {

/// Each step calls what its name says.
pub proof fn law_calls_do_what_they_say()
    ensures
        bus_method(ServiceAction::Start) matches Some(m) && "Start"@.is_prefix_of(m),
        bus_method(ServiceAction::Stop) matches Some(m) && "Stop"@.is_prefix_of(m),
        bus_method(ServiceAction::Enable) matches Some(m) && "Enable"@.is_prefix_of(m),
        bus_method(ServiceAction::Disable) matches Some(m) && "Disable"@.is_prefix_of(m),
        bus_method(ServiceAction::Reload) == Some("Reload"@),
        bus_method(ServiceAction::TryReload) == Some("Reload"@),
        bus_method(ServiceAction::MakeDirectory) is None,
        bus_method(ServiceAction::WriteUnit) is None,
        bus_method(ServiceAction::RemoveUnit) is None,
{
    reveal_strlit("Start");
    reveal_strlit("Stop");
    reveal_strlit("Enable");
    reveal_strlit("Disable");
    reveal_strlit("StartUnit");
    reveal_strlit("StopUnit");
    reveal_strlit("EnableUnitFiles");
    reveal_strlit("DisableUnitFiles");
    assert("StartUnit"@.take(5) =~= "Start"@);
    assert("StopUnit"@.take(4) =~= "Stop"@);
    assert("EnableUnitFiles"@.take(6) =~= "Enable"@);
    assert("DisableUnitFiles"@.take(7) =~= "Disable"@);
}

/// Whenever the unit is enabled or started, it is there by then and systemd has
/// read it; one that is there is not written again.
pub proof fn law_unit_is_there_before_it_is_used(installed: bool)
    ensures
        present_after_all(installed, ensure_installed(installed)),
        !installed ==> ensure_installed(installed).last() == ServiceAction::Reload,
        installed ==> ensure_installed(installed).len() == 0,
{
    if !installed {
        let steps = install_steps();
        reveal_with_fuel(present_after_all, 4);
        assert(steps.drop_last() =~= seq![ServiceAction::MakeDirectory, ServiceAction::WriteUnit]);
        assert(steps.drop_last().drop_last() =~= seq![ServiceAction::MakeDirectory]);
    }
}

/// An uninstallation leaves no unit, and stops and disables one that runs and is
/// enabled before it is removed.
pub proof fn law_uninstall_leaves_no_unit(running: bool, enabled: bool, installed: bool)
    ensures
        ({
            let steps = only_if(running, ServiceAction::Stop) + only_if(
                enabled,
                ServiceAction::Disable,
            ) + only_if(installed, ServiceAction::RemoveUnit) + seq![ServiceAction::TryReload];
            &&& !present_after_all(installed, steps)
            &&& running ==> steps[0] == ServiceAction::Stop
            &&& installed ==> steps[steps.len() - 2] == ServiceAction::RemoveUnit
            &&& running && enabled ==> steps[1] == ServiceAction::Disable
            &&& steps.last() == ServiceAction::TryReload
        }),
{
    let head = only_if(running, ServiceAction::Stop) + only_if(enabled, ServiceAction::Disable);
    let most = head + only_if(installed, ServiceAction::RemoveUnit);
    let steps = most + seq![ServiceAction::TryReload];
    assert(steps.drop_last() =~= most);
    assert(steps.last() == ServiceAction::TryReload);
    assert(present_after_all(installed, steps) == present_after_all(installed, most));
    if installed {
        assert(steps[steps.len() - 2] == most.last());
        assert(most.drop_last() =~= head);
        assert(most.last() == ServiceAction::RemoveUnit);
    } else {
        lemma_none_is_written(most);
    }
}

proof fn lemma_none_is_written(steps: Seq<ServiceAction>)
    requires
        forall|i: int| 0 <= i < steps.len() ==> #[trigger] steps[i] != ServiceAction::WriteUnit,
    ensures
        !present_after_all(false, steps),
    decreases steps.len(),
{
    if steps.len() > 0 {
        let front = steps.drop_last();
        assert forall|i: int| 0 <= i < front.len() implies #[trigger] front[i]
            != ServiceAction::WriteUnit by {
            assert(front[i] == steps[i]);
        }
        lemma_none_is_written(front);
        assert(steps[steps.len() - 1] != ServiceAction::WriteUnit);
    }
}

/// What is set in the configuration is what the service takes; what is not set
/// there takes its default.
pub proof fn law_settings_come_from_the_configuration(
    c: JsonModel,
    section: Seq<char>,
    key: Seq<char>,
    n: i64,
    b: bool,
    t: Seq<char>,
)
    requires
        takes_keys(c, section),
    ensures
        forall|d: i64| #[trigger]
            int_setting(stored(c, section, key, num(n as int)), section, key, d) == n,
        forall|d: bool| #[trigger]
            bool_setting(stored(c, section, key, JsonModel::Bool(b)), section, key, d) == b,
        forall|d: Seq<char>| #[trigger]
            text_setting(stored(c, section, key, JsonModel::Text(t)), section, key, d) == t,
        crate::config::lookup(c, section, key) is None ==> (forall|d: i64| #[trigger]
            int_setting(c, section, key, d) == d) && (forall|d: bool| #[trigger]
            bool_setting(c, section, key, d) == d) && (forall|d: Seq<char>| #[trigger]
            text_setting(c, section, key, d) == d),
{
    law_set_key_is_read_back(c, section, key, num(n as int), section, key);
    law_set_key_is_read_back(c, section, key, JsonModel::Bool(b), section, key);
    law_set_key_is_read_back(c, section, key, JsonModel::Text(t), section, key);
}

/// Sources are listened for once the group is up, and a source that has
/// connected is received from. Nothing of this ends the service.
pub proof fn law_events_are_followed(c: ServiceContext)
    ensures
        c.interface_known ==> round(ServiceInput::AdvertisingStarted, c) == seq![
            ServiceStep::StartListening,
        ],
        round(ServiceInput::ConnectionReceived, c) == seq![ServiceStep::StartReceiving],
        round(ServiceInput::OtherEvent, c).len() == 0,
        round(ServiceInput::Nothing, c).len() == 0,
        !c.has_source ==> !round(ServiceInput::StreamStopped, c).contains(
            ServiceStep::RecordSession,
        ),
        !round(ServiceInput::StreamStopped, c).contains(ServiceStep::Exit),
        !round(ServiceInput::StreamError, c).contains(ServiceStep::Exit),
{
    if c.interface_known {
        assert(round(ServiceInput::AdvertisingStarted, c) =~= seq![ServiceStep::StartListening]);
    }
}

/// A group that cannot be brought up and the end of all events end the service,
/// and no source is listened for any more.
pub proof fn law_hopeless_service_ends(c: ServiceContext)
    ensures
        round(ServiceInput::AdvertisingError, c).last() == ServiceStep::Exit,
        round(ServiceInput::ChannelClosed, c).last() == ServiceStep::Exit,
        c.has_handler ==> round(ServiceInput::AdvertisingError, c)[0] == ServiceStep::StopListening
            && round(ServiceInput::ChannelClosed, c)[0] == ServiceStep::StopListening,
{
}

/// A service with a time limit ends once nothing has happened for that long and
/// no stream is received, and not before.
pub proof fn law_idle_service_ends(c: ServiceContext)
    requires
        c.idle_timeout > 0,
        !c.receiving,
    ensures
        idle_ends(c) <==> c.idle_secs >= c.idle_timeout,
{
}

} // verus!
