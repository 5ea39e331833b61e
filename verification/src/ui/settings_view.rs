//! The settings: which rows there are, what they show of the configuration, and
//! what a change stores.

use vstd::prelude::*;
use crate::config::{stored, value_fault, ServerConfig};
use crate::json::{num, Json, JsonModel};
use crate::service::{bool_setting, int_setting, text_setting};
use crate::text;
use crate::text::{as_i64, dec, strs, trim};
use crate::utils::InterfaceInfo;

verus! {

/// A row of the settings, bound to a key of the configuration.
#[derive(Debug)]
pub enum SettingRow {
    /// A field for text.
    Entry {
        title: &'static str,
        section: &'static str,
        key: &'static str,
        value: String,
    },
    /// A switch.
    Switch {
        title: &'static str,
        subtitle: &'static str,
        section: &'static str,
        key: &'static str,
        active: bool,
    },
    /// A choice among texts.
    Choice {
        title: &'static str,
        section: &'static str,
        key: &'static str,
        choices: Vec<&'static str>,
        selected: usize,
    },
    /// The only choice there is.
    Fixed { title: &'static str, only: &'static str },
    /// A number between two bounds.
    Spin {
        title: &'static str,
        subtitle: &'static str,
        section: &'static str,
        key: &'static str,
        min: i64,
        max: i64,
        step: i64,
        number: i64,
    },
    /// The choice of an interface.
    Interfaces {
        title: &'static str,
        subtitle: &'static str,
        section: &'static str,
        key: &'static str,
    },
    /// The button that looks for interfaces again.
    Refresh { title: &'static str, subtitle: &'static str },
}

/// A row as contracts see it.
pub enum RowModel {
    Entry { title: Seq<char>, section: Seq<char>, key: Seq<char>, value: Seq<char> },
    Switch {
        title: Seq<char>,
        subtitle: Seq<char>,
        section: Seq<char>,
        key: Seq<char>,
        active: bool,
    },
    Choice {
        title: Seq<char>,
        section: Seq<char>,
        key: Seq<char>,
        choices: Seq<Seq<char>>,
        selected: int,
    },
    Fixed { title: Seq<char>, only: Seq<char> },
    Spin {
        title: Seq<char>,
        subtitle: Seq<char>,
        section: Seq<char>,
        key: Seq<char>,
        min: int,
        max: int,
        step: int,
        number: int,
    },
    Interfaces { title: Seq<char>, subtitle: Seq<char>, section: Seq<char>, key: Seq<char> },
    Refresh { title: Seq<char>, subtitle: Seq<char> },
}

/// The texts of choices.
pub open spec fn choice_texts(v: Seq<&'static str>) -> Seq<Seq<char>> {
    Seq::new(v.len(), |i: int| v[i]@)
}

impl View for SettingRow {
    type V = RowModel;

    open spec fn view(&self) -> RowModel {
        match self {
            SettingRow::Entry { title, section, key, value } => RowModel::Entry {
                title: title@,
                section: section@,
                key: key@,
                value: value@,
            },
            SettingRow::Switch { title, subtitle, section, key, active } => RowModel::Switch {
                title: title@,
                subtitle: subtitle@,
                section: section@,
                key: key@,
                active: *active,
            },
            SettingRow::Choice { title, section, key, choices, selected } => RowModel::Choice {
                title: title@,
                section: section@,
                key: key@,
                choices: choice_texts(choices@),
                selected: *selected as int,
            },
            SettingRow::Fixed { title, only } => RowModel::Fixed { title: title@, only: only@ },
            SettingRow::Spin { title, subtitle, section, key, min, max, step, number } => {
                RowModel::Spin {
                    title: title@,
                    subtitle: subtitle@,
                    section: section@,
                    key: key@,
                    min: *min as int,
                    max: *max as int,
                    step: *step as int,
                    number: *number as int,
                }
            },
            SettingRow::Interfaces { title, subtitle, section, key } => RowModel::Interfaces {
                title: title@,
                subtitle: subtitle@,
                section: section@,
                key: key@,
            },
            SettingRow::Refresh { title, subtitle } => RowModel::Refresh {
                title: title@,
                subtitle: subtitle@,
            },
        }
    }
}

/// A group of rows.
#[derive(Debug)]
pub struct SettingsGroup {
    pub title: &'static str,
    pub rows: Vec<SettingRow>,
}

/// Rows as contracts see them.
pub open spec fn row_views(v: Seq<SettingRow>) -> Seq<RowModel> {
    Seq::new(v.len(), |i: int| v[i]@)
}

/// A group as contracts see it.
pub struct GroupModel {
    pub title: Seq<char>,
    pub rows: Seq<RowModel>,
}

impl View for SettingsGroup {
    type V = GroupModel;

    open spec fn view(&self) -> GroupModel {
        GroupModel { title: self.title@, rows: row_views(self.rows@) }
    }
}

/// Groups as contracts see them.
pub open spec fn group_views(v: Seq<SettingsGroup>) -> Seq<GroupModel> {
    Seq::new(v.len(), |i: int| v[i]@)
}

/// The place of a text among choices, or the given place where it is none of
/// them.
pub open spec fn chosen(choices: Seq<Seq<char>>, current: Seq<char>, otherwise: int) -> int
    decreases choices.len(),
{
    if choices.len() == 0 {
        otherwise
    } else if choices.drop_last().contains(current) {
        chosen(choices.drop_last(), current, otherwise)
    } else if choices.last() == current {
        choices.len() - 1
    } else {
        otherwise
    }
}

proof fn lemma_chosen_at(choices: Seq<Seq<char>>, current: Seq<char>, otherwise: int, k: int)
    requires
        0 <= k < choices.len(),
        choices[k] == current,
        forall|i: int| 0 <= i < k ==> choices[i] != current,
    ensures
        chosen(choices, current, otherwise) == k,
    decreases choices.len(),
{
    let front = choices.drop_last();
    if k < choices.len() - 1 {
        assert(front[k] == current);
        lemma_chosen_at(front, current, otherwise, k);
    } else {
        assert forall|i: int| 0 <= i < front.len() implies front[i] != current by {
            assert(front[i] == choices[i]);
        }
        assert(!front.contains(current));
    }
}

/// A text that is not offered stands at the given place.
pub proof fn lemma_not_chosen(choices: Seq<Seq<char>>, current: Seq<char>, otherwise: int)
    requires
        !choices.contains(current),
    ensures
        chosen(choices, current, otherwise) == otherwise,
{
    if choices.len() > 0 {
        let front = choices.drop_last();
        assert forall|i: int| 0 <= i < front.len() implies front[i] != current by {
            assert(front[i] == choices[i]);
        }
        assert(choices[choices.len() - 1] != current);
    }
}

/// Finds the place of a text among choices.
pub fn choice_index(choices: &Vec<&'static str>, current: &str, otherwise: usize) -> (r: usize)
    ensures
        r == chosen(choice_texts(choices@), current@, otherwise as int),
{
    let ghost cs = choice_texts(choices@);
    let mut i: usize = 0;
    while i < choices.len()
        invariant
            i <= choices@.len(),
            cs == choice_texts(choices@),
            forall|j: int| 0 <= j < i ==> cs[j] != current@,
        decreases choices.len() - i,
    {
        if text::same_str(choices[i], current) {
            proof {
                lemma_chosen_at(cs, current@, otherwise as int, i as int);
            }
            return i;
        }
        assert(cs[i as int] != current@);
        i += 1;
    }
    proof {
        lemma_not_chosen(cs, current@, otherwise as int);
    }
    otherwise
}

/// The rows of the application.
pub open spec fn general_rows(c: JsonModel) -> Seq<RowModel> {
    seq![
        RowModel::Entry {
            title: "Device Name"@,
            section: "general"@,
            key: "device_name"@,
            value: text_setting(c, "general"@, "device_name"@, "Ubuntu Miracast Server"@),
        },
        RowModel::Switch {
            title: "Start Minimized"@,
            subtitle: ""@,
            section: "general"@,
            key: "start_minimized"@,
            active: bool_setting(c, "general"@, "start_minimized"@, false),
        },
        RowModel::Switch {
            title: "Fullscreen on Stream"@,
            subtitle: "Automatically enter fullscreen when stream starts"@,
            section: "general"@,
            key: "fullscreen_on_stream"@,
            active: bool_setting(c, "general"@, "fullscreen_on_stream"@, true),
        },
        RowModel::Choice {
            title: "Log Level"@,
            section: "general"@,
            key: "log_level"@,
            choices: log_levels(),
            selected: chosen(
                log_levels(),
                text_setting(c, "general"@, "log_level"@, "INFO"@),
                1,
            ),
        },
    ]
}

/// The levels of the log.
pub open spec fn log_levels() -> Seq<Seq<char>> {
    seq!["DEBUG"@, "INFO"@, "WARNING"@, "ERROR"@]
}

/// The resolutions to choose from.
pub open spec fn resolutions() -> Seq<Seq<char>> {
    seq!["1920x1080"@, "1280x720"@, "640x480"@]
}

/// The rows of the media.
pub open spec fn streaming_rows(c: JsonModel) -> Seq<RowModel> {
    seq![
        RowModel::Entry {
            title: "RTSP Port"@,
            section: "streaming"@,
            key: "rtsp_port"@,
            value: dec(int_setting(c, "streaming"@, "rtsp_port"@, 7236) as int),
        },
        RowModel::Switch {
            title: "Audio Enabled"@,
            subtitle: ""@,
            section: "streaming"@,
            key: "audio_enabled"@,
            active: bool_setting(c, "streaming"@, "audio_enabled"@, true),
        },
        RowModel::Choice {
            title: "Max Resolution"@,
            section: "streaming"@,
            key: "max_resolution"@,
            choices: resolutions(),
            selected: chosen(
                resolutions(),
                text_setting(c, "streaming"@, "max_resolution"@, "1920x1080"@),
                0,
            ),
        },
        RowModel::Fixed { title: "Preferred Codec"@, only: "H264"@ },
    ]
}

/// The rows of the connection.
pub open spec fn network_rows(c: JsonModel) -> Seq<RowModel> {
    seq![
        RowModel::Interfaces {
            title: "P2P Interface"@,
            subtitle: "Wi-Fi adapter to use for Miracast (empty = auto-detect)"@,
            section: "network"@,
            key: "p2p_interface"@,
        },
        RowModel::Refresh {
            title: "Refresh Interfaces"@,
            subtitle: "Rescan for available P2P Wi-Fi adapters"@,
        },
        RowModel::Spin {
            title: "GO Intent"@,
            subtitle: "Higher values prefer being Group Owner (0-15)"@,
            section: "network"@,
            key: "go_intent"@,
            min: 0,
            max: 15,
            step: 1,
            number: int_setting(c, "network"@, "go_intent"@, 15) as int,
        },
        RowModel::Spin {
            title: "Connection Timeout"@,
            subtitle: "Seconds to wait for P2P group formation (1-120)"@,
            section: "network"@,
            key: "connection_timeout"@,
            min: 1,
            max: 120,
            step: 1,
            number: int_setting(c, "network"@, "connection_timeout"@, 30) as int,
        },
        RowModel::Switch {
            title: "Auto Accept Connections"@,
            subtitle: "Automatically accept incoming Miracast connections"@,
            section: "network"@,
            key: "auto_accept"@,
            active: bool_setting(c, "network"@, "auto_accept"@, true),
        },
    ]
}

/// The rows of the service.
pub open spec fn service_rows(c: JsonModel) -> Seq<RowModel> {
    seq![
        RowModel::Switch {
            title: "Enable Service Mode"@,
            subtitle: "Run as a background systemd user service"@,
            section: "service"@,
            key: "enabled"@,
            active: bool_setting(c, "service"@, "enabled"@, false),
        },
        RowModel::Switch {
            title: "Virtual Display"@,
            subtitle: "Use a virtual display in service mode"@,
            section: "service"@,
            key: "virtual_display"@,
            active: bool_setting(c, "service"@, "virtual_display"@, false),
        },
        RowModel::Spin {
            title: "Idle Timeout"@,
            subtitle: "Seconds before service exits when idle (0 = disabled)"@,
            section: "service"@,
            key: "idle_timeout"@,
            min: 0,
            max: 86400,
            step: 60,
            number: int_setting(c, "service"@, "idle_timeout"@, 0) as int,
        },
    ]
}

/// The groups of the settings.
pub open spec fn groups(c: JsonModel) -> Seq<GroupModel> {
    seq![
        GroupModel { title: "General"@, rows: general_rows(c) },
        GroupModel { title: "Streaming"@, rows: streaming_rows(c) },
        GroupModel { title: "Network"@, rows: network_rows(c) },
        GroupModel { title: "Service Mode"@, rows: service_rows(c) },
    ]
}

fn general_group(config: &ServerConfig) -> (r: SettingsGroup)
    ensures
        r@ == (GroupModel { title: "General"@, rows: general_rows(config.config@) }),
{
    let mut levels: Vec<&'static str> = Vec::new();
    levels.push("DEBUG");
    levels.push("INFO");
    levels.push("WARNING");
    levels.push("ERROR");
    assert(choice_texts(levels@) =~= log_levels());
    let current: String = config.get_str("general", "log_level", "INFO");
    let selected: usize = choice_index(&levels, current.as_str(), 1);
    let mut rows: Vec<SettingRow> = Vec::new();
    rows.push(
        SettingRow::Entry {
            title: "Device Name",
            section: "general",
            key: "device_name",
            value: config.get_str("general", "device_name", "Ubuntu Miracast Server"),
        },
    );
    rows.push(
        SettingRow::Switch {
            title: "Start Minimized",
            subtitle: "",
            section: "general",
            key: "start_minimized",
            active: config.get_bool("general", "start_minimized", false),
        },
    );
    rows.push(
        SettingRow::Switch {
            title: "Fullscreen on Stream",
            subtitle: "Automatically enter fullscreen when stream starts",
            section: "general",
            key: "fullscreen_on_stream",
            active: config.get_bool("general", "fullscreen_on_stream", true),
        },
    );
    rows.push(
        SettingRow::Choice {
            title: "Log Level",
            section: "general",
            key: "log_level",
            choices: levels,
            selected,
        },
    );
    assert(row_views(rows@) =~= general_rows(config.config@));
    SettingsGroup { title: "General", rows }
}

fn streaming_group(config: &ServerConfig) -> (r: SettingsGroup)
    ensures
        r@ == (GroupModel { title: "Streaming"@, rows: streaming_rows(config.config@) }),
{
    let mut sizes: Vec<&'static str> = Vec::new();
    sizes.push("1920x1080");
    sizes.push("1280x720");
    sizes.push("640x480");
    assert(choice_texts(sizes@) =~= resolutions());
    let current: String = config.get_str("streaming", "max_resolution", "1920x1080");
    let selected: usize = choice_index(&sizes, current.as_str(), 0);
    let mut rows: Vec<SettingRow> = Vec::new();
    rows.push(
        SettingRow::Entry {
            title: "RTSP Port",
            section: "streaming",
            key: "rtsp_port",
            value: text::dec_i64(config.get_i64("streaming", "rtsp_port", 7236)),
        },
    );
    rows.push(
        SettingRow::Switch {
            title: "Audio Enabled",
            subtitle: "",
            section: "streaming",
            key: "audio_enabled",
            active: config.get_bool("streaming", "audio_enabled", true),
        },
    );
    rows.push(
        SettingRow::Choice {
            title: "Max Resolution",
            section: "streaming",
            key: "max_resolution",
            choices: sizes,
            selected,
        },
    );
    rows.push(SettingRow::Fixed { title: "Preferred Codec", only: "H264" });
    assert(row_views(rows@) =~= streaming_rows(config.config@));
    SettingsGroup { title: "Streaming", rows }
}

fn network_group(config: &ServerConfig) -> (r: SettingsGroup)
    ensures
        r@ == (GroupModel { title: "Network"@, rows: network_rows(config.config@) }),
{
    let mut rows: Vec<SettingRow> = Vec::new();
    rows.push(
        SettingRow::Interfaces {
            title: "P2P Interface",
            subtitle: "Wi-Fi adapter to use for Miracast (empty = auto-detect)",
            section: "network",
            key: "p2p_interface",
        },
    );
    rows.push(
        SettingRow::Refresh {
            title: "Refresh Interfaces",
            subtitle: "Rescan for available P2P Wi-Fi adapters",
        },
    );
    rows.push(
        SettingRow::Spin {
            title: "GO Intent",
            subtitle: "Higher values prefer being Group Owner (0-15)",
            section: "network",
            key: "go_intent",
            min: 0,
            max: 15,
            step: 1,
            number: config.get_i64("network", "go_intent", 15),
        },
    );
    rows.push(
        SettingRow::Spin {
            title: "Connection Timeout",
            subtitle: "Seconds to wait for P2P group formation (1-120)",
            section: "network",
            key: "connection_timeout",
            min: 1,
            max: 120,
            step: 1,
            number: config.get_i64("network", "connection_timeout", 30),
        },
    );
    rows.push(
        SettingRow::Switch {
            title: "Auto Accept Connections",
            subtitle: "Automatically accept incoming Miracast connections",
            section: "network",
            key: "auto_accept",
            active: config.get_bool("network", "auto_accept", true),
        },
    );
    assert(row_views(rows@) =~= network_rows(config.config@));
    SettingsGroup { title: "Network", rows }
}

fn service_group(config: &ServerConfig) -> (r: SettingsGroup)
    ensures
        r@ == (GroupModel { title: "Service Mode"@, rows: service_rows(config.config@) }),
{
    let mut rows: Vec<SettingRow> = Vec::new();
    rows.push(
        SettingRow::Switch {
            title: "Enable Service Mode",
            subtitle: "Run as a background systemd user service",
            section: "service",
            key: "enabled",
            active: config.get_bool("service", "enabled", false),
        },
    );
    rows.push(
        SettingRow::Switch {
            title: "Virtual Display",
            subtitle: "Use a virtual display in service mode",
            section: "service",
            key: "virtual_display",
            active: config.get_bool("service", "virtual_display", false),
        },
    );
    rows.push(
        SettingRow::Spin {
            title: "Idle Timeout",
            subtitle: "Seconds before service exits when idle (0 = disabled)",
            section: "service",
            key: "idle_timeout",
            min: 0,
            max: 86400,
            step: 60,
            number: config.get_i64("service", "idle_timeout", 0),
        },
    );
    assert(row_views(rows@) =~= service_rows(config.config@));
    SettingsGroup { title: "Service Mode", rows }
}

/// Lists the groups of the settings with what they show of the configuration.
pub fn build(config: &ServerConfig) -> (r: Vec<SettingsGroup>)
    ensures
        group_views(r@) == groups(config.config@),
{
    let mut v: Vec<SettingsGroup> = Vec::new();
    v.push(general_group(config));
    v.push(streaming_group(config));
    v.push(network_group(config));
    v.push(service_group(config));
    assert(group_views(v@) =~= groups(config.config@));
    v
}

/// Stores a device name that was typed; an empty one is not stored. The result
/// says whether something was stored.
pub fn device_name_changed(config: &mut ServerConfig, typed: &str) -> (r: bool)
    requires
        old(config).config@ is Object,
    ensures
        final(config).config@ is Object,
        r == (trim(typed@).len() > 0),
        final(config).config@ == if r {
            stored(
                old(config).config@,
                "general"@,
                "device_name"@,
                JsonModel::Text(trim(typed@)),
            )
        } else {
            old(config).config@
        },
{
    let all: Vec<char> = text::chars_of(typed);
    let t: &[char] = text::trimmed(all.as_slice());
    if t.len() == 0 {
        return false;
    }
    proof {
        reveal_strlit("general");
        reveal_strlit("streaming");
        reveal_strlit("network");
        assert("general"@[0] == 'g' && "streaming"@[0] == 's' && "network"@[0] == 'n');
    }
    let value: String = text::string_of(t);
    let _ = config.set("general", "device_name", Json::Text(value));
    true
}

/// Whether what was typed is a port that can be stored.
pub open spec fn port_typed(typed: Seq<char>) -> Option<int> {
    match as_i64(trim(typed)) {
        Some(n) if 1024 <= n <= 65535 => Some(n),
        _ => None,
    }
}

/// Stores a port that was typed. The result says whether it was stored; if not,
/// the field is to be marked.
pub fn rtsp_port_changed(config: &mut ServerConfig, typed: &str) -> (r: bool)
    requires
        old(config).config@ is Object,
    ensures
        final(config).config@ is Object,
        r == (port_typed(typed@) is Some),
        final(config).config@ == match port_typed(typed@) {
            Some(n) => stored(old(config).config@, "streaming"@, "rtsp_port"@, num(n)),
            None => old(config).config@,
        },
{
    let all: Vec<char> = text::chars_of(typed);
    match text::read_i64(text::trimmed(all.as_slice())) {
        Some(n) => config.set("streaming", "rtsp_port", Json::integer(n)).is_ok(),
        None => false,
    }
}

/// Stores a value that a row gives, if its key takes it.
pub fn row_changed(config: &mut ServerConfig, section: &str, key: &str, value: Json) -> (r: bool)
    requires
        old(config).config@ is Object,
    ensures
        final(config).config@ is Object,
        r == (value_fault(section@, key@, value@) is None),
        final(config).config@ == if r {
            stored(old(config).config@, section@, key@, value@)
        } else {
            old(config).config@
        },
{
    config.set(section, key, value).is_ok()
}

/// The label of an interface.
pub open spec fn label_of(interface: Seq<char>, parent: Seq<char>, driver: Seq<char>) -> Seq<char> {
    if driver.len() == 0 {
        interface + " ("@ + parent + ")"@
    } else {
        interface + " ("@ + parent + " — "@ + driver + ")"@
    }
}

/// Writes the label of an interface.
pub fn interface_label(info: &InterfaceInfo) -> (r: String)
    ensures
        r@ == label_of(info.interface@, info.parent@, info.driver@),
{
    let mut out: String = text::joined(info.interface.clone(), " (");
    out.append(info.parent.as_str());
    if !info.driver.as_str().is_empty() {
        out.append(" — ");
        out.append(info.driver.as_str());
    }
    out.append(")");
    out
}

/// The interfaces to choose from: their labels and their names. The first
/// choice leaves it to the search.
#[derive(Debug)]
pub struct InterfaceChoices {
    pub labels: Vec<String>,
    pub values: Vec<String>,
}

/// The labels of interfaces behind the first choice.
pub open spec fn choice_labels(infos: Seq<InterfaceInfo>) -> Seq<Seq<char>> {
    seq!["(auto-detect)"@] + Seq::new(
        infos.len(),
        |i: int| label_of(infos[i].interface@, infos[i].parent@, infos[i].driver@),
    )
}

/// The names of interfaces behind the first choice.
pub open spec fn choice_values(infos: Seq<InterfaceInfo>) -> Seq<Seq<char>> {
    seq![Seq::<char>::empty()] + Seq::new(infos.len(), |i: int| infos[i].interface@)
}

impl InterfaceChoices {
    /// The choices for the given interfaces.
    pub fn new(infos: &Vec<InterfaceInfo>) -> (r: InterfaceChoices)
        ensures
            strs(r.labels@) == choice_labels(infos@),
            strs(r.values@) == choice_values(infos@),
    {
        let mut labels: Vec<String> = Vec::new();
        let mut values: Vec<String> = Vec::new();
        labels.push("(auto-detect)".to_owned());
        values.push(String::new());
        let ghost ls = choice_labels(infos@);
        let ghost vs = choice_values(infos@);
        let mut i: usize = 0;
        assert(strs(labels@) =~= ls.take(1));
        assert(strs(values@) =~= vs.take(1));
        while i < infos.len()
            invariant
                i <= infos@.len(),
                ls == choice_labels(infos@),
                vs == choice_values(infos@),
                strs(labels@) == ls.take(i + 1),
                strs(values@) == vs.take(i + 1),
            decreases infos.len() - i,
        {
            let ghost a = strs(labels@);
            let ghost b = strs(values@);
            let l: String = interface_label(&infos[i]);
            let v: String = infos[i].interface.clone();
            let ghost lv = l@;
            let ghost vv = v@;
            labels.push(l);
            values.push(v);
            assert(strs(labels@) =~= a.push(lv));
            assert(strs(values@) =~= b.push(vv));
            assert(ls.take(i + 2) =~= ls.take(i + 1).push(ls[i + 1]));
            assert(vs.take(i + 2) =~= vs.take(i + 1).push(vs[i + 1]));
            i += 1;
        }
        assert(ls.take(ls.len() as int) =~= ls);
        assert(vs.take(vs.len() as int) =~= vs);
        InterfaceChoices { labels, values }
    }

    /// The choice that stands for the configured interface; the first one where
    /// none is configured or it is not there.
    pub fn selected(&self, current: &str) -> (r: usize)
        ensures
            r == if current@.len() == 0 {
                0
            } else {
                chosen(strs(self.values@), current@, 0)
            },
    {
        if current.is_empty() {
            return 0;
        }
        let ghost vs = strs(self.values@);
        let mut i: usize = 0;
        while i < self.values.len()
            invariant
                i <= self.values@.len(),
                vs == strs(self.values@),
                current@.len() > 0,
                forall|j: int| 0 <= j < i ==> vs[j] != current@,
            decreases self.values.len() - i,
        {
            if text::same_str(self.values[i].as_str(), current) {
                proof {
                    lemma_chosen_at(vs, current@, 0, i as int);
                }
                return i;
            }
            assert(vs[i as int] != current@);
            i += 1;
        }
        proof {
            lemma_not_chosen(vs, current@, 0);
        }
        0
    }
}

} // verus!
