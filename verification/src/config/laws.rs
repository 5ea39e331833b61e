//! What holds of the rules for the values of the configuration and of the
//! settings of a first start.

use vstd::prelude::*;
use crate::config::{
    advanced_defaults, defaults, display_defaults, general_defaults, lookup, network_defaults,
    service_defaults, streaming_defaults, value_fault,
};
use crate::json::{lemma_member_at, num, JsonModel, NumberModel};

verus! {

proof fn lemma_keys_differ()
    ensures
        "network"@ != "streaming"@,
        "go_intent"@ != "connection_timeout"@,
        "go_intent"@ != "rtp_port"@,
        "connection_timeout"@ != "rtp_port"@,
        "rtsp_port"@ != "rtp_port"@,
{
    reveal_strlit("network");
    reveal_strlit("streaming");
    reveal_strlit("go_intent");
    reveal_strlit("connection_timeout");
    reveal_strlit("rtp_port");
    reveal_strlit("rtsp_port");
    assert("network"@.len() == 7 && "streaming"@.len() == 9);
    assert("go_intent"@.len() == 9 && "connection_timeout"@.len() == 18 && "rtp_port"@.len() == 8
        && "rtsp_port"@.len() == 9);
}

/// A port is accepted where it needs no privileges, an intent from 0 to 15, and
/// a timeout from one second to two minutes. Of these keys nothing else is
/// accepted, whatever it is; other keys take any value.
pub proof fn law_values_keep_their_bounds(n: i64, v: JsonModel, section: Seq<char>, key: Seq<char>)
    ensures
        value_fault("streaming"@, "rtsp_port"@, num(n as int)) is None <==> 1024 <= n <= 65535,
        value_fault("network"@, "rtp_port"@, num(n as int)) is None <==> 1024 <= n <= 65535,
        value_fault("network"@, "go_intent"@, num(n as int)) is None <==> 0 <= n <= 15,
        value_fault("network"@, "connection_timeout"@, num(n as int)) is None <==> 1 <= n <= 120,
        !(v matches JsonModel::Number(NumberModel::Int(_))) ==> value_fault(
            "streaming"@,
            "rtsp_port"@,
            v,
        ) is Some && value_fault("network"@, "rtp_port"@, v) is Some && value_fault(
            "network"@,
            "go_intent"@,
            v,
        ) is Some && value_fault("network"@, "connection_timeout"@, v) is Some,
        section != "streaming"@ && section != "network"@ ==> value_fault(section, key, v) is None,
        key != "rtsp_port"@ && key != "rtp_port"@ && key != "go_intent"@ && key
            != "connection_timeout"@ ==> value_fault(section, key, v) is None,
{
    lemma_keys_differ();
}

/// The refusal of a value names its key first.
pub proof fn law_refusal_names_the_key(section: Seq<char>, key: Seq<char>, v: JsonModel)
    ensures
        value_fault(section, key, v) matches Some(m) ==> (section + "."@ + key).is_prefix_of(m),
{
    if let Some(m) = value_fault(section, key, v) {
        let head = section + "."@ + key;
        assert(m.take(head.len() as int) =~= head);
    }
}

proof fn lemma_sections()
    ensures
        ({
            let m = defaults()->Object_0;
            &&& crate::json::field(defaults(), "general"@) == Some(
                JsonModel::Object(general_defaults()),
            )
            &&& crate::json::field(defaults(), "streaming"@) == Some(
                JsonModel::Object(streaming_defaults()),
            )
            &&& crate::json::field(defaults(), "network"@) == Some(
                JsonModel::Object(network_defaults()),
            )
            &&& crate::json::field(defaults(), "display"@) == Some(
                JsonModel::Object(display_defaults()),
            )
            &&& crate::json::field(defaults(), "advanced"@) == Some(
                JsonModel::Object(advanced_defaults()),
            )
            &&& crate::json::field(defaults(), "service"@) == Some(
                JsonModel::Object(service_defaults()),
            )
        }),
{
    reveal_strlit("general");
    reveal_strlit("streaming");
    reveal_strlit("network");
    reveal_strlit("display");
    reveal_strlit("advanced");
    reveal_strlit("service");
    let m = defaults()->Object_0;
    assert(m[0].0[0] == 'g' && m[1].0[0] == 's' && m[1].0[1] == 't' && m[2].0[0] == 'n'
        && m[3].0[0] == 'd' && m[4].0[0] == 'a' && m[5].0[0] == 's' && m[5].0[1] == 'e');
    lemma_member_at(m, "general"@, 0);
    lemma_member_at(m, "streaming"@, 1);
    lemma_member_at(m, "network"@, 2);
    lemma_member_at(m, "display"@, 3);
    lemma_member_at(m, "advanced"@, 4);
    lemma_member_at(m, "service"@, 5);
}

/// The settings of a first start.
pub proof fn law_first_start_has_every_setting()
    ensures
        lookup(defaults(), "general"@, "device_name"@) == Some(
            JsonModel::Text("Ubuntu Miracast Server"@),
        ),
        lookup(defaults(), "general"@, "start_minimized"@) == Some(JsonModel::Bool(false)),
        lookup(defaults(), "general"@, "fullscreen_on_stream"@) == Some(JsonModel::Bool(true)),
        lookup(defaults(), "general"@, "log_level"@) == Some(JsonModel::Text("INFO"@)),
        lookup(defaults(), "streaming"@, "rtsp_port"@) == Some(num(7236)),
        lookup(defaults(), "streaming"@, "audio_enabled"@) == Some(JsonModel::Bool(true)),
        lookup(defaults(), "streaming"@, "max_resolution"@) == Some(JsonModel::Text("1920x1080"@)),
        lookup(defaults(), "streaming"@, "preferred_codec"@) == Some(JsonModel::Text("H264"@)),
        lookup(defaults(), "network"@, "go_intent"@) == Some(num(15)),
        lookup(defaults(), "network"@, "connection_timeout"@) == Some(num(30)),
        lookup(defaults(), "network"@, "auto_accept"@) == Some(JsonModel::Bool(true)),
        lookup(defaults(), "network"@, "rtp_port"@) == Some(num(1028)),
        lookup(defaults(), "network"@, "p2p_interface"@) == Some(JsonModel::Text(""@)),
        lookup(defaults(), "network"@, "listen_channel"@) == Some(num(0)),
        lookup(defaults(), "display"@, "preferred_resolution"@) == Some(
            JsonModel::Text("1920x1080"@),
        ),
        lookup(defaults(), "display"@, "show_stream_info"@) == Some(JsonModel::Bool(true)),
        lookup(defaults(), "display"@, "hw_accel"@) == Some(JsonModel::Bool(true)),
        lookup(defaults(), "advanced"@, "session_timeout"@) == Some(num(30)),
        lookup(defaults(), "advanced"@, "keep_alive_interval"@) == Some(num(15)),
        lookup(defaults(), "advanced"@, "buffer_size_ms"@) == Some(num(100)),
        lookup(defaults(), "service"@, "enabled"@) == Some(JsonModel::Bool(false)),
        lookup(defaults(), "service"@, "virtual_display"@) == Some(JsonModel::Bool(false)),
        lookup(defaults(), "service"@, "idle_timeout"@) == Some(num(0)),
{
    lemma_sections();
    lemma_first_sections();
    lemma_last_sections();
}

proof fn lemma_first_sections()
    ensures
        lookup(defaults(), "general"@, "device_name"@) == Some(
            JsonModel::Text("Ubuntu Miracast Server"@),
        ),
        lookup(defaults(), "general"@, "start_minimized"@) == Some(JsonModel::Bool(false)),
        lookup(defaults(), "general"@, "fullscreen_on_stream"@) == Some(JsonModel::Bool(true)),
        lookup(defaults(), "general"@, "log_level"@) == Some(JsonModel::Text("INFO"@)),
        lookup(defaults(), "streaming"@, "rtsp_port"@) == Some(num(7236)),
        lookup(defaults(), "streaming"@, "audio_enabled"@) == Some(JsonModel::Bool(true)),
        lookup(defaults(), "streaming"@, "max_resolution"@) == Some(JsonModel::Text("1920x1080"@)),
        lookup(defaults(), "streaming"@, "preferred_codec"@) == Some(JsonModel::Text("H264"@)),
        lookup(defaults(), "display"@, "preferred_resolution"@) == Some(
            JsonModel::Text("1920x1080"@),
        ),
        lookup(defaults(), "display"@, "show_stream_info"@) == Some(JsonModel::Bool(true)),
        lookup(defaults(), "display"@, "hw_accel"@) == Some(JsonModel::Bool(true)),
{
    lemma_sections();
    reveal_strlit("device_name");
    reveal_strlit("start_minimized");
    reveal_strlit("fullscreen_on_stream");
    reveal_strlit("log_level");
    reveal_strlit("rtsp_port");
    reveal_strlit("audio_enabled");
    reveal_strlit("max_resolution");
    reveal_strlit("preferred_codec");
    reveal_strlit("preferred_resolution");
    reveal_strlit("show_stream_info");
    reveal_strlit("hw_accel");
    let g = general_defaults();
    assert(g[0].0.len() == 11 && g[1].0.len() == 15 && g[2].0.len() == 20 && g[3].0.len() == 9);
    lemma_member_at(g, "device_name"@, 0);
    lemma_member_at(g, "start_minimized"@, 1);
    lemma_member_at(g, "fullscreen_on_stream"@, 2);
    lemma_member_at(g, "log_level"@, 3);
    let s = streaming_defaults();
    assert(s[0].0.len() == 9 && s[1].0.len() == 13 && s[2].0.len() == 14 && s[3].0.len() == 15);
    lemma_member_at(s, "rtsp_port"@, 0);
    lemma_member_at(s, "audio_enabled"@, 1);
    lemma_member_at(s, "max_resolution"@, 2);
    lemma_member_at(s, "preferred_codec"@, 3);
    let d = display_defaults();
    assert(d[0].0.len() == 20 && d[1].0.len() == 16 && d[2].0.len() == 8);
    lemma_member_at(d, "preferred_resolution"@, 0);
    lemma_member_at(d, "show_stream_info"@, 1);
    lemma_member_at(d, "hw_accel"@, 2);
}

proof fn lemma_last_sections()
    ensures
        lookup(defaults(), "network"@, "go_intent"@) == Some(num(15)),
        lookup(defaults(), "network"@, "connection_timeout"@) == Some(num(30)),
        lookup(defaults(), "network"@, "auto_accept"@) == Some(JsonModel::Bool(true)),
        lookup(defaults(), "network"@, "rtp_port"@) == Some(num(1028)),
        lookup(defaults(), "network"@, "p2p_interface"@) == Some(JsonModel::Text(""@)),
        lookup(defaults(), "network"@, "listen_channel"@) == Some(num(0)),
        lookup(defaults(), "advanced"@, "session_timeout"@) == Some(num(30)),
        lookup(defaults(), "advanced"@, "keep_alive_interval"@) == Some(num(15)),
        lookup(defaults(), "advanced"@, "buffer_size_ms"@) == Some(num(100)),
        lookup(defaults(), "service"@, "enabled"@) == Some(JsonModel::Bool(false)),
        lookup(defaults(), "service"@, "virtual_display"@) == Some(JsonModel::Bool(false)),
        lookup(defaults(), "service"@, "idle_timeout"@) == Some(num(0)),
{
    lemma_sections();
    reveal_strlit("go_intent");
    reveal_strlit("connection_timeout");
    reveal_strlit("auto_accept");
    reveal_strlit("rtp_port");
    reveal_strlit("p2p_interface");
    reveal_strlit("listen_channel");
    reveal_strlit("session_timeout");
    reveal_strlit("keep_alive_interval");
    reveal_strlit("buffer_size_ms");
    reveal_strlit("enabled");
    reveal_strlit("virtual_display");
    reveal_strlit("idle_timeout");
    let n = network_defaults();
    assert(n[0].0.len() == 9 && n[1].0.len() == 18 && n[2].0.len() == 11 && n[3].0.len() == 8
        && n[4].0.len() == 13 && n[5].0.len() == 14);
    lemma_member_at(n, "go_intent"@, 0);
    lemma_member_at(n, "connection_timeout"@, 1);
    lemma_member_at(n, "auto_accept"@, 2);
    lemma_member_at(n, "rtp_port"@, 3);
    lemma_member_at(n, "p2p_interface"@, 4);
    lemma_member_at(n, "listen_channel"@, 5);
    let a = advanced_defaults();
    assert(a[0].0.len() == 15 && a[1].0.len() == 19 && a[2].0.len() == 14);
    lemma_member_at(a, "session_timeout"@, 0);
    lemma_member_at(a, "keep_alive_interval"@, 1);
    lemma_member_at(a, "buffer_size_ms"@, 2);
    let v = service_defaults();
    assert(v[0].0.len() == 7 && v[1].0.len() == 15 && v[2].0.len() == 12);
    lemma_member_at(v, "enabled"@, 0);
    lemma_member_at(v, "virtual_display"@, 1);
    lemma_member_at(v, "idle_timeout"@, 2);
}

} // verus!
