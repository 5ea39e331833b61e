//! What holds of the planned pipeline: its links form chains from the source to
//! the sinks, its properties sit where they belong, and it uses what is there.

use vstd::prelude::*;
use crate::receiver::pipeline::{
    attempts, audio_elements, audio_links, audio_sink_factory, decoder_factory, decoder_settings, plan_fault,
    queue_settings, route, sink_factory, sink_settings, source_settings, uid_in, video_elements,
    video_links, Attempt, Available, Launch, LinkPlan, PadRoute, SettingModel, ValueModel,
};
use crate::text;
use crate::text::{contains, dec, split_char};

verus! {

/// Whether a link leads from the element of one name to that of another.
pub open spec fn is_linked(
    els: Seq<(Seq<char>, Seq<char>)>,
    links: Seq<LinkPlan>,
    from: Seq<char>,
    to: Seq<char>,
) -> bool {
    exists|i: int|
        0 <= i < links.len() && (#[trigger] links[i]).from < els.len() && links[i].to < els.len()
            && els[links[i].from as int].1 == from && els[links[i].to as int].1 == to
}

/// Whether no two elements have the same name.
pub open spec fn has_distinct_names(els: Seq<(Seq<char>, Seq<char>)>) -> bool {
    forall|i: int, j: int| 0 <= i < j < els.len() ==> els[i].1 != els[j].1
}

/// Whether the links form chains: no element feeds two others or is fed by two,
/// and the links lead from the source to the demuxer, from the video queue over
/// the decoder to the video sink and, with audio, from the audio queue over its
/// decoder to the audio sink. There are no other links.
pub open spec fn is_chained(
    els: Seq<(Seq<char>, Seq<char>)>,
    links: Seq<LinkPlan>,
    audio: bool,
) -> bool {
    &&& has_distinct_names(els)
    &&& forall|i: int, j: int|
        0 <= i < j < links.len() ==> links[i].from != links[j].from && links[i].to != links[j].to
    &&& is_linked(els, links, "udpsrc"@, "jitterbuffer"@)
    &&& is_linked(els, links, "jitterbuffer"@, "rtpdepay"@)
    &&& is_linked(els, links, "rtpdepay"@, "demux"@)
    &&& is_linked(els, links, "video_queue"@, "h264parse"@)
    &&& is_linked(els, links, "h264parse"@, "videodec"@)
    &&& is_linked(els, links, "videodec"@, "videoconvert"@)
    &&& is_linked(els, links, "videoconvert"@, "videosink"@)
    &&& if audio {
        &&& is_linked(els, links, "audio_queue"@, "aacparse"@)
        &&& is_linked(els, links, "aacparse"@, "audiodec"@)
        &&& is_linked(els, links, "audiodec"@, "audioconvert"@)
        &&& is_linked(els, links, "audioconvert"@, "audiosink"@)
        &&& links.len() == 11
        &&& els.len() == 14
    } else {
        links.len() == 7 && els.len() == 9
    }
}

/// Whether a property of the element of a name is set to a value.
pub open spec fn is_set(
    els: Seq<(Seq<char>, Seq<char>)>,
    settings: Seq<SettingModel>,
    name: Seq<char>,
    property: Seq<char>,
    value: ValueModel,
) -> bool {
    exists|i: int|
        0 <= i < settings.len() && 0 <= (#[trigger] settings[i]).element < els.len()
            && els[settings[i].element].1 == name && settings[i].property == property
            && settings[i].value == value
}

/// Whether a queue is bounded in every way.
pub open spec fn is_bounded(
    els: Seq<(Seq<char>, Seq<char>)>,
    settings: Seq<SettingModel>,
    name: Seq<char>,
) -> bool {
    &&& is_set(els, settings, name, "max-size-buffers"@, ValueModel::UInt(200))
    &&& is_set(els, settings, name, "max-size-bytes"@, ValueModel::UInt(10_485_760))
    &&& is_set(els, settings, name, "max-size-time"@, ValueModel::Long(200_000_000))
}

/// Whether the source listens at the port for the stream, late packets are
/// waited for, the queues are bounded, and the sink keeps time only where
/// nothing is shown.
pub open spec fn is_tuned(
    els: Seq<(Seq<char>, Seq<char>)>,
    settings: Seq<SettingModel>,
    port: int,
    headless: bool,
    audio: bool,
) -> bool {
    &&& is_set(els, settings, "udpsrc"@, "port"@, ValueModel::Int(port))
    &&& is_set(els, settings, "udpsrc"@, "buffer-size"@, ValueModel::Int(2_097_152))
    &&& is_set(
        els,
        settings,
        "udpsrc"@,
        "caps"@,
        ValueModel::Caps("application/x-rtp,media=video,clock-rate=90000,encoding-name=MP2T"@),
    )
    &&& is_set(els, settings, "jitterbuffer"@, "latency"@, ValueModel::UInt(80))
    &&& is_set(els, settings, "jitterbuffer"@, "drop-on-latency"@, ValueModel::Flag(true))
    &&& is_set(els, settings, "jitterbuffer"@, "do-lost"@, ValueModel::Flag(true))
    &&& is_bounded(els, settings, "video_queue"@)
    &&& is_set(els, settings, "videosink"@, "sync"@, ValueModel::Flag(headless))
    &&& audio ==> is_bounded(els, settings, "audio_queue"@)
}

/// The elements of a planned pipeline.
pub open spec fn planned_elements(use_hw: bool, headless: bool, a: Available, audio: bool) -> Seq<
    (Seq<char>, Seq<char>),
> {
    video_elements(use_hw, headless, a) + if audio {
        audio_elements(a)
    } else {
        Seq::empty()
    }
}

/// The links of a planned pipeline.
pub open spec fn planned_links(audio: bool) -> Seq<LinkPlan> {
    video_links() + if audio {
        audio_links()
    } else {
        Seq::empty()
    }
}

/// The settings of a planned pipeline.
pub open spec fn planned_settings(
    port: int,
    use_hw: bool,
    headless: bool,
    a: Available,
    audio: bool,
) -> Seq<SettingModel> {
    source_settings(port) + decoder_settings(use_hw, a) + sink_settings(headless) + if audio {
        queue_settings(9)
    } else {
        Seq::empty()
    }
}

proof fn lemma_names_differ(use_hw: bool, headless: bool, a: Available, audio: bool)
    ensures
        has_distinct_names(planned_elements(use_hw, headless, a, audio)),
{
    reveal_strlit("udpsrc");
    reveal_strlit("jitterbuffer");
    reveal_strlit("rtpdepay");
    reveal_strlit("demux");
    reveal_strlit("video_queue");
    reveal_strlit("h264parse");
    reveal_strlit("videodec");
    reveal_strlit("videoconvert");
    reveal_strlit("videosink");
    reveal_strlit("audio_queue");
    reveal_strlit("aacparse");
    reveal_strlit("audiodec");
    reveal_strlit("audioconvert");
    reveal_strlit("audiosink");
    let els = planned_elements(use_hw, headless, a, audio);
    assert(els[0].1.len() == 6 && els[1].1.len() == 12 && els[2].1.len() == 8 && els[3].1.len() == 5
        && els[4].1.len() == 11 && els[5].1.len() == 9 && els[6].1.len() == 8 && els[7].1.len()
        == 12 && els[8].1.len() == 9);
    assert(els[1].1[0] == 'j' && els[2].1[0] == 'r' && els[4].1[0] == 'v' && els[5].1[0] == 'h'
        && els[6].1[0] == 'v' && els[7].1[0] == 'v' && els[8].1[0] == 'v');
    if audio {
        assert(els[9].1.len() == 11 && els[10].1.len() == 8 && els[11].1.len() == 8
            && els[12].1.len() == 12 && els[13].1.len() == 9);
        assert(els[9].1[0] == 'a' && els[10].1[0] == 'a' && els[10].1[1] == 'a' && els[11].1[0]
            == 'a' && els[11].1[1] == 'u' && els[12].1[0] == 'a' && els[13].1[0] == 'a');
    }
}

/// The planned links form chains, whatever is available.
pub proof fn law_links_form_chains(use_hw: bool, headless: bool, a: Available, audio: bool)
    ensures
        is_chained(
            planned_elements(use_hw, headless, a, audio),
            planned_links(audio),
            audio,
        ),
{
    let els = planned_elements(use_hw, headless, a, audio);
    let links = planned_links(audio);
    lemma_names_differ(use_hw, headless, a, audio);
    assert(links[0].from == 0 && links[0].to == 1);
    assert(links[1].from == 1 && links[1].to == 2);
    assert(links[2].from == 2 && links[2].to == 3);
    assert(links[3].from == 4 && links[3].to == 5);
    assert(links[4].from == 5 && links[4].to == 6);
    assert(links[5].from == 6 && links[5].to == 7);
    assert(links[6].from == 7 && links[6].to == 8);
    if audio {
        assert(links[7].from == 9 && links[7].to == 10);
        assert(links[8].from == 10 && links[8].to == 11);
        assert(links[9].from == 11 && links[9].to == 12);
        assert(links[10].from == 12 && links[10].to == 13);
    }
}

/// The planned properties sit where they belong, whatever is available.
pub proof fn law_properties_sit_where_they_belong(
    port: int,
    use_hw: bool,
    headless: bool,
    a: Available,
    audio: bool,
)
    ensures
        is_tuned(
            planned_elements(use_hw, headless, a, audio),
            planned_settings(port, use_hw, headless, a, audio),
            port,
            headless,
            audio,
        ),
{
    let els = planned_elements(use_hw, headless, a, audio);
    let s = planned_settings(port, use_hw, headless, a, audio);
    assert(s[0].element == 0 && s[0].property == "port"@ && s[0].value == ValueModel::Int(port));
    assert(s[1].element == 0 && s[2].element == 0 && s[3].element == 1 && s[4].element == 1
        && s[5].element == 1);
    assert(s[1].property == "buffer-size"@ && s[2].property == "caps"@ && s[3].property
        == "latency"@ && s[4].property == "drop-on-latency"@ && s[5].property == "do-lost"@);
    assert(s[6].element == 4 && s[7].element == 4 && s[8].element == 4);
    assert(s[6].property == "max-size-buffers"@ && s[7].property == "max-size-bytes"@
        && s[8].property == "max-size-time"@);
    let d = decoder_settings(use_hw, a).len();
    let k = sink_settings(headless).len();
    let at = (9 + d) as int;
    assert(s[at].element == 8 && s[at].property == "sync"@ && s[at].value == ValueModel::Flag(
        headless,
    ));
    if audio {
        let q = (9 + d + k) as int;
        assert(s[q].element == 9 && s[q + 1].element == 9 && s[q + 2].element == 9);
        assert(s[q].property == "max-size-buffers"@ && s[q + 1].property == "max-size-bytes"@
            && s[q + 2].property == "max-size-time"@);
    }
}

/// Every property belongs to an element of the pipeline. A decoder in software
/// uses every core, and one in hardware is left as it is. A sink that shows
/// something is not slowed down.
pub proof fn law_decoder_is_set_up(
    port: int,
    use_hw: bool,
    headless: bool,
    a: Available,
    audio: bool,
)
    ensures
        ({
            let els = planned_elements(use_hw, headless, a, audio);
            let s = planned_settings(port, use_hw, headless, a, audio);
            let hardware = use_hw && (a.vaapidecodebin || a.nvh264dec);
            &&& forall|i: int| 0 <= i < s.len() ==> 0 <= (#[trigger] s[i]).element < els.len()
            &&& !hardware ==> is_set(els, s, "videodec"@, "max-threads"@, ValueModel::Int(0))
                && is_set(els, s, "videodec"@, "std-compliance"@, ValueModel::Int(0))
            &&& hardware ==> forall|i: int| 0 <= i < s.len() ==> (#[trigger] s[i]).element != 6
            &&& !headless ==> is_set(els, s, "videosink"@, "qos"@, ValueModel::Flag(false))
            &&& els[6].1 == "videodec"@
        }),
{
    let els = planned_elements(use_hw, headless, a, audio);
    let s = planned_settings(port, use_hw, headless, a, audio);
    let d = decoder_settings(use_hw, a).len() as int;
    if d > 0 {
        assert(s[9].element == 6 && s[9].property == "max-threads"@ && s[9].value
            == ValueModel::Int(0));
        assert(s[10].element == 6 && s[10].property == "std-compliance"@ && s[10].value
            == ValueModel::Int(0));
    }
    if !headless {
        assert(s[10 + d].element == 8 && s[10 + d].property == "qos"@ && s[10 + d].value
            == ValueModel::Flag(false));
    }
}

/// Every variant that is wanted is tried: hardware first where it may be used,
/// and audio first where it is wanted.
pub proof fn law_every_variant_is_tried(use_hw: bool, want_audio: bool)
    ensures
        ({
            let t = attempts(use_hw, want_audio);
            &&& t[0] == (Attempt { hardware: use_hw, audio: want_audio })
            &&& t.contains(Attempt { hardware: false, audio: false })
            &&& want_audio ==> t.contains(Attempt { hardware: false, audio: true })
            &&& use_hw ==> t.contains(Attempt { hardware: true, audio: false })
            &&& t.len() == if use_hw && want_audio {
                4int
            } else if use_hw || want_audio {
                2
            } else {
                1
            }
        }),
{
    let t = attempts(use_hw, want_audio);
    assert(t.last() == (Attempt { hardware: false, audio: false }));
    assert(t[t.len() - 1] == t.last());
    if want_audio {
        assert(t[t.len() - 2] == (Attempt { hardware: false, audio: true }));
    }
    if use_hw {
        let k = if want_audio {
            1int
        } else {
            0
        };
        assert(t[k] == (Attempt { hardware: true, audio: false }));
    }
}

/// Elements that may be missing are planned only where they are there, and
/// hardware decodes only where it may. Where it may and is there it does. Nothing
/// is shown without a display.
pub proof fn law_plan_uses_what_is_there(use_hw: bool, headless: bool, a: Available)
    ensures
        ({
            let d = decoder_factory(use_hw, a);
            let v = sink_factory(headless, a);
            &&& d == "vaapidecodebin"@ ==> use_hw && a.vaapidecodebin
            &&& d == "nvh264dec"@ ==> use_hw && a.nvh264dec
            &&& d == "vaapidecodebin"@ || d == "nvh264dec"@ || d == "avdec_h264"@
            &&& use_hw && (a.vaapidecodebin || a.nvh264dec) ==> d != "avdec_h264"@
            &&& v == "gtk4paintablesink"@ ==> !headless && a.gtk4paintablesink
            &&& v == "fakesink"@ <==> headless
            &&& !headless && a.gtk4paintablesink ==> v == "gtk4paintablesink"@
            &&& audio_sink_factory(a) matches Some(f) ==> (f == "pulsesink"@ && a.pulsesink) || (f
                == "autoaudiosink"@ && a.autoaudiosink)
            &&& a.autoaudiosink ==> audio_sink_factory(a) is Some
            &&& a.decodes_audio() && a.pulsesink ==> audio_sink_factory(a) is Some
        }),
{
    reveal_strlit("vaapidecodebin");
    reveal_strlit("nvh264dec");
    reveal_strlit("avdec_h264");
    reveal_strlit("gtk4paintablesink");
    reveal_strlit("fakesink");
    reveal_strlit("autovideosink");
    reveal_strlit("pulsesink");
    reveal_strlit("autoaudiosink");
    assert("vaapidecodebin"@.len() == 14 && "nvh264dec"@.len() == 9 && "avdec_h264"@.len() == 10);
    assert("gtk4paintablesink"@.len() == 17 && "fakesink"@.len() == 8 && "autovideosink"@.len()
        == 13);
}

/// A pipeline is planned for every port that needs no privileges and the two
/// codecs of the sink, whatever the audio codec is where audio is off, and for
/// nothing else.
pub proof fn law_only_known_streams_are_planned(
    port: int,
    video: Seq<char>,
    audio: Seq<char>,
    on: bool,
)
    ensures
        plan_fault(port, video, audio, on) is None <==> 1024 <= port <= 65535 && video == "H264"@
            && (on ==> audio == "AAC"@),
{
}

/// A pad that carries video feeds the video queue. One that carries audio feeds
/// the audio queue where audio is on, and nothing where it is off. What is
/// neither feeds nothing.
pub proof fn law_pads_go_to_their_queues(caps: Seq<char>, lowered: Seq<char>, on: bool)
    ensures
        "video/"@.is_prefix_of(caps) ==> route(caps, lowered, on) == PadRoute::Video,
        contains(lowered, "h264"@) ==> route(caps, lowered, on) == PadRoute::Video,
        "audio/"@.is_prefix_of(caps) && !contains(caps, "video"@) && !contains(lowered, "h264"@)
            ==> route(caps, lowered, on) == if on {
            PadRoute::Audio
        } else {
            PadRoute::Ignore
        },
        !contains(caps, "video"@) && !contains(lowered, "h264"@) && !contains(caps, "audio"@)
            && !contains(lowered, "aac"@) ==> route(caps, lowered, on) == PadRoute::Ignore,
{
    reveal_strlit("video/");
    reveal_strlit("video");
    reveal_strlit("audio/");
    reveal_strlit("audio");
    if "video/"@.is_prefix_of(caps) {
        assert(caps.subrange(0, 5) =~= "video/"@.subrange(0, 5));
        assert("video/"@.subrange(0, 5) =~= "video"@);
        text::lemma_find_at(caps, "video"@, 0);
    }
    if "audio/"@.is_prefix_of(caps) {
        assert(caps.subrange(0, 5) =~= "audio/"@.subrange(0, 5));
        assert("audio/"@.subrange(0, 5) =~= "audio"@);
        text::lemma_find_at(caps, "audio"@, 0);
    }
}

/// A hardware decoder that fails without the audio sink being to blame is not
/// trusted again while there is something else to try. Nothing else costs it
/// that trust.
pub proof fn law_failed_hardware_is_given_up(l: Launch, audio_culprit: bool)
    requires
        l.wf(),
    ensures
        ({
            let a = l.attempts@[l.current as int];
            let more = l.current + 1 < l.attempts@.len();
            &&& a.hardware && !a.audio && more ==> !l.trusted_after(audio_culprit)
            &&& a.hardware && !audio_culprit && more ==> !l.trusted_after(audio_culprit)
            &&& !a.hardware ==> l.trusted_after(audio_culprit) == l.use_hw_decode
            &&& a.audio && audio_culprit ==> l.trusted_after(audio_culprit) == l.use_hw_decode
        }),
{
}

/// The number of a user is read from the first line that begins with the name.
pub proof fn law_user_is_found(
    ls: Seq<Seq<char>>,
    k: int,
    user: Seq<char>,
    password: Seq<char>,
    uid: u32,
    rest: Seq<char>,
)
    requires
        0 <= k < ls.len(),
        ls[k] == user + ":"@ + password + ":"@ + dec(uid as int) + ":"@ + rest,
        !user.contains(':'),
        !password.contains(':'),
        forall|j: int| 0 <= j < k ==> split_char(#[trigger] ls[j], ':')[0] != user,
    ensures
        uid_in(ls, user) == Some(uid as int),
    decreases k,
{
    if k == 0 {
        let n = dec(uid as int);
        let line = ls[0];
        reveal_strlit(":");
        text::lemma_digits_read_back(uid as int, 10, false);
        text::lemma_plain_is_word(n);
        assert(!n.contains(':')) by {
            assert forall|i: int| 0 <= i < n.len() implies n[i] != ':' by {}
        }
        let c = n.push(':') + rest;
        let b = password.push(':') + c;
        assert(line =~= user.push(':') + b);
        text::lemma_split_char_between(user, ':', b);
        text::lemma_split_char_between(password, ':', c);
        text::lemma_split_char_between(n, ':', rest);
        text::lemma_split_char_solid(user, ':');
        text::lemma_split_char_solid(password, ':');
        text::lemma_split_char_solid(n, ':');
        text::lemma_split_char_some(rest, ':');
        let f = split_char(line, ':');
        assert(f[0] == user && f[2] == n);
    } else {
        let t = ls.skip(1);
        assert(split_char(ls[0], ':')[0] != user);
        assert forall|j: int| 0 <= j < k - 1 implies split_char(#[trigger] t[j], ':')[0] != user by {
            assert(t[j] == ls[j + 1]);
        }
        law_user_is_found(t, k - 1, user, password, uid, rest);
    }
}

} // verus!
