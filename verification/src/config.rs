//! The configuration: its defaults, the rules for its values, and how a stored
//! one is taken up.

pub mod laws;

use vstd::prelude::*;
use crate::json::{
    bool_of, field, int_of, law_set_member_is_read_back, lemma_member_at, lemma_views, member,
    member_index, members, num, object, seen, set_member, text_of, with_member, Json, JsonModel,
    Members, Number, NumberModel,
};
use crate::text;
use crate::text::dec;

verus! {

/// The defaults of the application.
pub open spec fn general_defaults() -> Members {
    seq![
        ("device_name"@, JsonModel::Text("Ubuntu Miracast Server"@)),
        ("start_minimized"@, JsonModel::Bool(false)),
        ("fullscreen_on_stream"@, JsonModel::Bool(true)),
        ("log_level"@, JsonModel::Text("INFO"@)),
    ]
}

/// The defaults of the media.
pub open spec fn streaming_defaults() -> Members {
    seq![
        ("rtsp_port"@, num(7236)),
        ("audio_enabled"@, JsonModel::Bool(true)),
        ("max_resolution"@, JsonModel::Text("1920x1080"@)),
        ("preferred_codec"@, JsonModel::Text("H264"@)),
    ]
}

/// The defaults of the connection.
pub open spec fn network_defaults() -> Members {
    seq![
        ("go_intent"@, num(15)),
        ("connection_timeout"@, num(30)),
        ("auto_accept"@, JsonModel::Bool(true)),
        ("rtp_port"@, num(1028)),
        ("p2p_interface"@, JsonModel::Text(""@)),
        ("listen_channel"@, num(0)),
    ]
}

/// The defaults of what is shown.
pub open spec fn display_defaults() -> Members {
    seq![
        ("preferred_resolution"@, JsonModel::Text("1920x1080"@)),
        ("show_stream_info"@, JsonModel::Bool(true)),
        ("hw_accel"@, JsonModel::Bool(true)),
    ]
}

/// The defaults of the protocol.
pub open spec fn advanced_defaults() -> Members {
    seq![
        ("session_timeout"@, num(30)),
        ("keep_alive_interval"@, num(15)),
        ("buffer_size_ms"@, num(100)),
    ]
}

/// The defaults of the service.
pub open spec fn service_defaults() -> Members {
    seq![
        ("enabled"@, JsonModel::Bool(false)),
        ("virtual_display"@, JsonModel::Bool(false)),
        ("idle_timeout"@, num(0)),
    ]
}

/// The configuration of a first start.
pub open spec fn defaults() -> JsonModel {
    object(
        seq![
            ("general"@, object(general_defaults())),
            ("streaming"@, object(streaming_defaults())),
            ("network"@, object(network_defaults())),
            ("display"@, object(display_defaults())),
            ("advanced"@, object(advanced_defaults())),
            ("service"@, object(service_defaults())),
        ],
    )
}

fn general_section() -> (r: Json)
    ensures
        r@ == object(general_defaults()),
{
    let mut v: Vec<(String, Json)> = Vec::new();
    v.push(("device_name".to_owned(), Json::text("Ubuntu Miracast Server")));
    v.push(("start_minimized".to_owned(), Json::flag(false)));
    v.push(("fullscreen_on_stream".to_owned(), Json::flag(true)));
    v.push(("log_level".to_owned(), Json::text("INFO")));
    assert(members(v@) =~= general_defaults());
    Json::object(v)
}

fn streaming_section() -> (r: Json)
    ensures
        r@ == object(streaming_defaults()),
{
    let mut v: Vec<(String, Json)> = Vec::new();
    v.push(("rtsp_port".to_owned(), Json::integer(7236)));
    v.push(("audio_enabled".to_owned(), Json::flag(true)));
    v.push(("max_resolution".to_owned(), Json::text("1920x1080")));
    v.push(("preferred_codec".to_owned(), Json::text("H264")));
    assert(members(v@) =~= streaming_defaults());
    Json::object(v)
}

fn network_section() -> (r: Json)
    ensures
        r@ == object(network_defaults()),
{
    let mut v: Vec<(String, Json)> = Vec::new();
    v.push(("go_intent".to_owned(), Json::integer(15)));
    v.push(("connection_timeout".to_owned(), Json::integer(30)));
    v.push(("auto_accept".to_owned(), Json::flag(true)));
    v.push(("rtp_port".to_owned(), Json::integer(1028)));
    v.push(("p2p_interface".to_owned(), Json::text("")));
    v.push(("listen_channel".to_owned(), Json::integer(0)));
    assert(members(v@) =~= network_defaults());
    Json::object(v)
}

fn display_section() -> (r: Json)
    ensures
        r@ == object(display_defaults()),
{
    let mut v: Vec<(String, Json)> = Vec::new();
    v.push(("preferred_resolution".to_owned(), Json::text("1920x1080")));
    v.push(("show_stream_info".to_owned(), Json::flag(true)));
    v.push(("hw_accel".to_owned(), Json::flag(true)));
    assert(members(v@) =~= display_defaults());
    Json::object(v)
}

fn advanced_section() -> (r: Json)
    ensures
        r@ == object(advanced_defaults()),
{
    let mut v: Vec<(String, Json)> = Vec::new();
    v.push(("session_timeout".to_owned(), Json::integer(30)));
    v.push(("keep_alive_interval".to_owned(), Json::integer(15)));
    v.push(("buffer_size_ms".to_owned(), Json::integer(100)));
    assert(members(v@) =~= advanced_defaults());
    Json::object(v)
}

fn service_section() -> (r: Json)
    ensures
        r@ == object(service_defaults()),
{
    let mut v: Vec<(String, Json)> = Vec::new();
    v.push(("enabled".to_owned(), Json::flag(false)));
    v.push(("virtual_display".to_owned(), Json::flag(false)));
    v.push(("idle_timeout".to_owned(), Json::integer(0)));
    assert(members(v@) =~= service_defaults());
    Json::object(v)
}

/// The configuration of a first start.
pub fn default_config() -> (r: Json)
    ensures
        r@ == defaults(),
{
    let mut v: Vec<(String, Json)> = Vec::new();
    v.push(("general".to_owned(), general_section()));
    v.push(("streaming".to_owned(), streaming_section()));
    v.push(("network".to_owned(), network_section()));
    v.push(("display".to_owned(), display_section()));
    v.push(("advanced".to_owned(), advanced_section()));
    v.push(("service".to_owned(), service_section()));
    proof {
        if let JsonModel::Object(m) = defaults() {
            assert(members(v@) =~= m);
        }
    }
    Json::object(v)
}

/// The least and the greatest value of a key that has a rule.
pub open spec fn rule(section: Seq<char>, key: Seq<char>) -> Option<(int, int)> {
    if section == "streaming"@ && key == "rtsp_port"@ {
        Some((1024, 65535))
    } else if section == "network"@ && key == "go_intent"@ {
        Some((0, 15))
    } else if section == "network"@ && key == "connection_timeout"@ {
        Some((1, 120))
    } else if section == "network"@ && key == "rtp_port"@ {
        Some((1024, 65535))
    } else {
        None
    }
}

fn rule_of(section: &str, key: &str) -> (r: Option<(i64, i64)>)
    ensures
        match r {
            Some(b) => rule(section@, key@) == Some((b.0 as int, b.1 as int)),
            None => rule(section@, key@) is None,
        },
{
    if text::same_str(section, "streaming") && text::same_str(key, "rtsp_port") {
        Some((1024, 65535))
    } else if text::same_str(section, "network") && text::same_str(key, "go_intent") {
        Some((0, 15))
    } else if text::same_str(section, "network") && text::same_str(key, "connection_timeout") {
        Some((1, 120))
    } else if text::same_str(section, "network") && text::same_str(key, "rtp_port") {
        Some((1024, 65535))
    } else {
        None
    }
}

/// The name of the kind of a value.
pub open spec fn kind(v: JsonModel) -> Seq<char> {
    match v {
        JsonModel::Null => "null"@,
        JsonModel::Bool(_) => "bool"@,
        JsonModel::Number(_) => "number"@,
        JsonModel::Text(_) => "str"@,
        JsonModel::Array(_) => "list"@,
        JsonModel::Object(_) => "dict"@,
    }
}

fn json_type_name(v: &Json) -> (r: &'static str)
    ensures
        r@ == kind(v@),
{
    match v {
        Json::Null => "null",
        Json::Bool(_) => "bool",
        Json::Number(_) => "number",
        Json::Text(_) => "str",
        Json::Array(_) => "list",
        Json::Object(_) => "dict",
    }
}

/// Why a value may not be set.
pub open spec fn value_fault(section: Seq<char>, key: Seq<char>, v: JsonModel) -> Option<Seq<char>> {
    match rule(section, key) {
        None => None,
        Some(b) => match v {
            JsonModel::Number(NumberModel::Int(n)) => if n < b.0 {
                Some(section + "."@ + key + " must be >= "@ + dec(b.0) + ", got "@ + dec(n as int))
            } else if n > b.1 {
                Some(section + "."@ + key + " must be <= "@ + dec(b.1) + ", got "@ + dec(n as int))
            } else {
                None
            },
            JsonModel::Number(NumberModel::Large(n)) => Some(
                section + "."@ + key + " must be <= "@ + dec(b.1) + ", got "@ + dec(n as int),
            ),
            _ => Some(section + "."@ + key + " must be int, got "@ + kind(v)),
        },
    }
}

fn message(section: &str, key: &str, middle: &str) -> (r: String)
    ensures
        r@ == section@ + "."@ + key@ + middle@,
{
    let mut m: String = text::joined(section.to_owned(), ".");
    m.append(key);
    m.append(middle);
    m
}

/// Checks a value against the rule of its key.
pub fn validate(section: &str, key: &str, value: &Json) -> (r: Result<(), String>)
    ensures
        match value_fault(section@, key@, value@) {
            Some(m) => r matches Err(e) && e@ == m,
            None => r is Ok,
        },
{
    match rule_of(section, key) {
        None => Ok(()),
        Some((min, max)) => match value.as_i64() {
            Some(n) => {
                if n < min {
                    let mut m: String = message(section, key, " must be >= ");
                    m.append(text::dec_i64(min).as_str());
                    m.append(", got ");
                    m.append(text::dec_i64(n).as_str());
                    Err(m)
                } else if n > max {
                    let mut m: String = message(section, key, " must be <= ");
                    m.append(text::dec_i64(max).as_str());
                    m.append(", got ");
                    m.append(text::dec_i64(n).as_str());
                    Err(m)
                } else {
                    Ok(())
                }
            },
            None => {
                if let Json::Number(Number::Large(n)) = value {
                    let mut m: String = message(section, key, " must be <= ");
                    m.append(text::dec_i64(max).as_str());
                    m.append(", got ");
                    m.append(text::dec_u64(*n).as_str());
                    return Err(m);
                }
                let mut m: String = message(section, key, " must be int, got ");
                m.append(json_type_name(value));
                Err(m)
            },
        },
    }
}

/// The value of a key.
pub open spec fn lookup(c: JsonModel, section: Seq<char>, key: Seq<char>) -> Option<JsonModel> {
    match field(c, section) {
        Some(s) => field(s, key),
        None => None,
    }
}

/// The configuration after a key is set. A section that is missing is made; in
/// place of one that is no object nothing is stored.
pub open spec fn stored(c: JsonModel, section: Seq<char>, key: Seq<char>, v: JsonModel) -> JsonModel {
    match c {
        JsonModel::Object(m) => match member(m, section) {
            None => object(with_member(m, section, object(with_member(Seq::empty(), key, v)))),
            Some(JsonModel::Object(s)) => object(
                with_member(m, section, object(with_member(s, key, v))),
            ),
            Some(_) => c,
        },
        _ => c,
    }
}

/// What was found of a stored configuration.
#[derive(Debug)]
pub enum StoredConfig {
    /// There is no file.
    Missing,
    /// The file could not be read.
    Unreadable,
    /// The file does not hold JSON.
    Malformed,
    /// The file holds this value.
    Parsed(Json),
}

/// The configuration.
#[derive(Debug)]
pub struct ServerConfig {
    pub config: Json,
}

impl ServerConfig {
    /// Takes up a stored configuration. An object is taken as it is; otherwise
    /// the defaults hold, and the second result says that they are to be
    /// written. A file that does not hold JSON is left alone.
    pub fn new(found: StoredConfig) -> (r: (ServerConfig, bool))
        ensures
            match found {
                StoredConfig::Parsed(v) => if v@ is Object {
                    r.0.config@ == v@ && !r.1
                } else {
                    r.0.config@ == defaults() && r.1
                },
                StoredConfig::Malformed => r.0.config@ == defaults() && !r.1,
                _ => r.0.config@ == defaults() && r.1,
            },
            r.0.config@ is Object,
    {
        match found {
            StoredConfig::Parsed(v) => if v.is_object() {
                (ServerConfig { config: v }, false)
            } else {
                (ServerConfig { config: default_config() }, true)
            },
            StoredConfig::Malformed => (ServerConfig { config: default_config() }, false),
            _ => (ServerConfig { config: default_config() }, true),
        }
    }

    fn find(&self, section: &str, key: &str) -> (r: Option<&Json>)
        ensures
            seen(r) == lookup(self.config@, section@, key@),
    {
        match self.config.get(section) {
            Some(s) => s.get(key),
            None => None,
        }
    }

    /// The value of a key, or the default.
    pub fn get(&self, section: &str, key: &str, default: Json) -> (r: Json)
        ensures
            r@ == match lookup(self.config@, section@, key@) {
                Some(v) => v,
                None => default@,
            },
    {
        match self.find(section, key) {
            Some(v) => v.copy(),
            None => default,
        }
    }

    /// The text of a key, or the default where it has none.
    pub fn get_str(&self, section: &str, key: &str, default: &str) -> (r: String)
        ensures
            r@ == match lookup(self.config@, section@, key@) {
                Some(v) => match text_of(v) {
                    Some(t) => t,
                    None => default@,
                },
                None => default@,
            },
    {
        match self.find(section, key) {
            Some(v) => match v.as_str() {
                Some(t) => t.to_owned(),
                None => default.to_owned(),
            },
            None => default.to_owned(),
        }
    }

    /// The integer of a key, or the default where it has none.
    pub fn get_i64(&self, section: &str, key: &str, default: i64) -> (r: i64)
        ensures
            r == match lookup(self.config@, section@, key@) {
                Some(v) => match int_of(v) {
                    Some(n) => n,
                    None => default,
                },
                None => default,
            },
    {
        match self.find(section, key) {
            Some(v) => match v.as_i64() {
                Some(n) => n,
                None => default,
            },
            None => default,
        }
    }

    /// The truth value of a key, or the default where it has none.
    pub fn get_bool(&self, section: &str, key: &str, default: bool) -> (r: bool)
        ensures
            r == match lookup(self.config@, section@, key@) {
                Some(v) => match bool_of(v) {
                    Some(b) => b,
                    None => default,
                },
                None => default,
            },
    {
        match self.find(section, key) {
            Some(v) => match v.as_bool() {
                Some(b) => b,
                None => default,
            },
            None => default,
        }
    }

    /// Sets a key if its value keeps the rule. A value that is refused leaves
    /// everything as it was.
    pub fn set(&mut self, section: &str, key: &str, value: Json) -> (r: Result<(), String>)
        requires
            old(self).config@ is Object,
        ensures
            final(self).config@ is Object,
            match value_fault(section@, key@, value@) {
                Some(m) => (r matches Err(e) && e@ == m) && final(self).config@ == old(
                    self,
                ).config@,
                None => r is Ok && final(self).config@ == stored(
                    old(self).config@,
                    section@,
                    key@,
                    value@,
                ),
            },
    {
        validate(section, key, &value)?;
        let section_value: Json = match self.config.get(section) {
            Some(s) => s.copy(),
            None => Json::object(Vec::new()),
        };
        match section_value {
            Json::Object(mut inner) => {
                proof {
                    lemma_views(inner, arbitrary());
                    if field(self.config@, section@) is None {
                        assert(members(inner@) =~= Seq::empty());
                    }
                }
                set_member(&mut inner, key, value);
                let root: Json = self.config.copy();
                if let Json::Object(mut outer) = root {
                    proof {
                        lemma_views(outer, arbitrary());
                    }
                    set_member(&mut outer, section, Json::object(inner));
                    self.config = Json::object(outer);
                }
            },
            _ => {},
        }
        Ok(())
    }

    /// Puts another configuration in the place of the present one, if one is
    /// given.
    pub fn save(&mut self, config: Option<Json>)
        ensures
            final(self).config@ == match config {
                Some(c) => c@,
                None => old(self).config@,
            },
    {
        if let Some(c) = config {
            self.config = c;
        }
    }
}

/// Whether a section can take a key: it is missing or an object.
pub open spec fn takes_keys(c: JsonModel, section: Seq<char>) -> bool {
    c is Object && (field(c, section) matches Some(s) ==> s is Object)
}

/// A key that was set is read back, and every other key keeps its value.
pub proof fn law_set_key_is_read_back(
    c: JsonModel,
    section: Seq<char>,
    key: Seq<char>,
    v: JsonModel,
    other_section: Seq<char>,
    other_key: Seq<char>,
)
    requires
        takes_keys(c, section),
    ensures
        lookup(stored(c, section, key, v), section, key) == Some(v),
        (other_section, other_key) != (section, key) ==> lookup(
            stored(c, section, key, v),
            other_section,
            other_key,
        ) == lookup(c, other_section, other_key),
{
    if let JsonModel::Object(m) = c {
        let inner = match member(m, section) {
            Some(JsonModel::Object(s)) => s,
            _ => Seq::empty(),
        };
        law_set_member_is_read_back(inner, key, v, other_key);
        law_set_member_is_read_back(m, section, object(with_member(inner, key, v)), other_section);
        if other_section == section && other_key != key && member(m, section) is None {
            assert(member_index(inner, other_key) is None);
        }
    }
}

/// Whether every value that has a rule keeps it.
pub open spec fn keeps_rules(c: JsonModel) -> bool {
    forall|s: Seq<char>, k: Seq<char>|
        #![trigger lookup(c, s, k)]
        lookup(c, s, k) is Some ==> value_fault(s, k, lookup(c, s, k)->0) is None
}

/// Setting keys leaves the rules kept.
pub proof fn law_set_keeps_rules(c: JsonModel, section: Seq<char>, key: Seq<char>, v: JsonModel)
    requires
        keeps_rules(c),
        value_fault(section, key, v) is None,
    ensures
        keeps_rules(stored(c, section, key, v)),
{
    let d = stored(c, section, key, v);
    assert forall|s: Seq<char>, k: Seq<char>| #[trigger] lookup(d, s, k) is Some implies value_fault(
        s,
        k,
        lookup(d, s, k)->0,
    ) is None by {
        if takes_keys(c, section) {
            law_set_key_is_read_back(c, section, key, v, s, k);
            if (s, k) != (section, key) {
                assert(lookup(c, s, k) == lookup(d, s, k));
            }
        } else {
            assert(d == c);
            assert(lookup(c, s, k) == lookup(d, s, k));
        }
    }
}

/// The defaults keep the rules.
pub proof fn law_defaults_keep_rules()
    ensures
        keeps_rules(defaults()),
        lookup(defaults(), "streaming"@, "rtsp_port"@) == Some(num(7236)),
        lookup(defaults(), "network"@, "go_intent"@) == Some(num(15)),
        lookup(defaults(), "network"@, "connection_timeout"@) == Some(num(30)),
        lookup(defaults(), "network"@, "rtp_port"@) == Some(num(1028)),
{
    reveal_strlit("general");
    reveal_strlit("streaming");
    reveal_strlit("network");
    reveal_strlit("rtsp_port");
    reveal_strlit("go_intent");
    reveal_strlit("connection_timeout");
    reveal_strlit("auto_accept");
    reveal_strlit("rtp_port");
    let d = defaults();
    if let JsonModel::Object(m) = d {
        assert(m[0].0[0] == 'g' && m[1].0[0] == 's');
        assert(m[0].0 != "streaming"@ && m[0].0 != "network"@ && m[1].0 != "network"@);
        lemma_member_at(m, "streaming"@, 1);
        lemma_member_at(m, "network"@, 2);
        let n = network_defaults();
        assert(n[0].0.len() == 9 && n[1].0.len() == 18 && n[2].0.len() == 11);
        lemma_member_at(streaming_defaults(), "rtsp_port"@, 0);
        lemma_member_at(n, "go_intent"@, 0);
        lemma_member_at(n, "connection_timeout"@, 1);
        lemma_member_at(n, "rtp_port"@, 3);
    }
}

} // verus!
