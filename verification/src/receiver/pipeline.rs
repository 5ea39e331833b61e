//! The media pipeline: which elements it has, how they are set and linked, and
//! in which order its variants are tried.

pub mod laws;

use vstd::prelude::*;
use crate::outside::{to_lowercase, unicode_lower};
use crate::receiver::pipeline::laws::{is_chained, is_tuned};
use crate::text;
use crate::text::{contains, dec};

verus! {

/// The most buffers that a queue holds.
pub const QUEUE_MAX_BUFFERS: u32 = 200;

/// The most bytes that a queue holds.
pub const QUEUE_MAX_BYTES: u32 = 10_485_760;

/// The longest time in nanoseconds that a queue holds. A live stream shows a
/// long queue as delay.
pub const QUEUE_MAX_TIME: u64 = 200_000_000;

/// The bytes that the socket buffers.
pub const UDP_BUFFER_BYTES: i32 = 2_097_152;

/// The milliseconds for which packets may wait for late ones.
pub const JITTER_LATENCY_MS: u32 = 80;

/// Why a port cannot be used.
pub open spec fn port_fault(port: int) -> Option<Seq<char>> {
    if 1024 <= port <= 65535 {
        None
    } else {
        Some("Port must be integer in range 1024-65535, got "@ + dec(port))
    }
}

/// Why a video codec cannot be used.
pub open spec fn video_fault(codec: Seq<char>) -> Option<Seq<char>> {
    if codec == "H264"@ {
        None
    } else {
        Some("Video codec '"@ + codec + "' not in whitelist: [\"H264\"]"@)
    }
}

/// Why an audio codec cannot be used.
pub open spec fn audio_fault(codec: Seq<char>) -> Option<Seq<char>> {
    if codec == "AAC"@ {
        None
    } else {
        Some("Audio codec '"@ + codec + "' not in whitelist: [\"AAC\"]"@)
    }
}

/// A check as contracts see it.
pub open spec fn fault(r: Result<(), String>) -> Option<Seq<char>> {
    match r {
        Ok(_) => None,
        Err(e) => Some(e@),
    }
}

/// Checks that a port can be used without privileges.
pub fn validate_port(port: i64) -> (r: Result<(), String>)
    ensures
        fault(r) == port_fault(port as int),
{
    if port < 1024 || port > 65535 {
        Err(
            text::joined(
                "Port must be integer in range 1024-65535, got ".to_owned(),
                text::dec_i64(port).as_str(),
            ),
        )
    } else {
        Ok(())
    }
}

/// Checks a video codec against those that can be decoded.
pub fn validate_video_codec(codec: &str) -> (r: Result<(), String>)
    ensures
        fault(r) == video_fault(codec@),
{
    if text::same_str(codec, "H264") {
        Ok(())
    } else {
        let mut m: String = text::joined("Video codec '".to_owned(), codec);
        m.append("' not in whitelist: [\"H264\"]");
        Err(m)
    }
}

/// Checks an audio codec against those that can be decoded.
pub fn validate_audio_codec(codec: &str) -> (r: Result<(), String>)
    ensures
        fault(r) == audio_fault(codec@),
{
    if text::same_str(codec, "AAC") {
        Ok(())
    } else {
        let mut m: String = text::joined("Audio codec '".to_owned(), codec);
        m.append("' not in whitelist: [\"AAC\"]");
        Err(m)
    }
}

/// Which of the elements that may be missing can be made here.
#[derive(Debug, Clone, Copy)]
pub struct Available {
    pub vaapidecodebin: bool,
    pub nvh264dec: bool,
    pub gtk4paintablesink: bool,
    pub aacparse: bool,
    pub avdec_aac: bool,
    pub audioconvert: bool,
    pub pulsesink: bool,
    pub autoaudiosink: bool,
}

impl Available {
    /// Whether all that decodes audio can be made.
    pub open spec fn decodes_audio(&self) -> bool {
        self.aacparse && self.avdec_aac && self.audioconvert
    }

    /// Whether a usable sink never stands behind a decoder that is not there.
    pub open spec fn audio_is_whole(&self) -> bool {
        self.autoaudiosink ==> self.decodes_audio()
    }
}

/// The factory of the decoder: a hardware one where it may be used and is
/// there.
pub open spec fn decoder_factory(use_hw: bool, a: Available) -> Seq<char> {
    if use_hw && a.vaapidecodebin {
        "vaapidecodebin"@
    } else if use_hw && a.nvh264dec {
        "nvh264dec"@
    } else {
        "avdec_h264"@
    }
}

/// Picks the decoder.
pub fn choose_decoder(use_hw: bool, a: &Available) -> (r: &'static str)
    ensures
        r@ == decoder_factory(use_hw, *a),
{
    if use_hw && a.vaapidecodebin {
        "vaapidecodebin"
    } else if use_hw && a.nvh264dec {
        "nvh264dec"
    } else {
        "avdec_h264"
    }
}

/// The factory of the video sink.
pub open spec fn sink_factory(headless: bool, a: Available) -> Seq<char> {
    if headless {
        "fakesink"@
    } else if a.gtk4paintablesink {
        "gtk4paintablesink"@
    } else {
        "autovideosink"@
    }
}

/// Picks the video sink.
pub fn choose_video_sink(headless: bool, a: &Available) -> (r: &'static str)
    ensures
        r@ == sink_factory(headless, *a),
{
    if headless {
        "fakesink"
    } else if a.gtk4paintablesink {
        "gtk4paintablesink"
    } else {
        "autovideosink"
    }
}

/// The factory of the audio sink; none where audio has to be left out.
pub open spec fn audio_sink_factory(a: Available) -> Option<Seq<char>> {
    if a.decodes_audio() && a.pulsesink {
        Some("pulsesink"@)
    } else if a.autoaudiosink {
        Some("autoaudiosink"@)
    } else {
        None
    }
}

/// Picks the audio sink.
pub fn choose_audio_sink(a: &Available) -> (r: Option<&'static str>)
    ensures
        match r {
            Some(f) => audio_sink_factory(*a) == Some(f@),
            None => audio_sink_factory(*a) is None,
        },
{
    if a.aacparse && a.avdec_aac && a.audioconvert && a.pulsesink {
        Some("pulsesink")
    } else if a.autoaudiosink {
        Some("autoaudiosink")
    } else {
        None
    }
}

/// An element of the pipeline.
#[derive(Debug, Clone, Copy)]
pub struct ElementPlan {
    pub factory: &'static str,
    pub name: &'static str,
}

impl View for ElementPlan {
    type V = (Seq<char>, Seq<char>);

    open spec fn view(&self) -> (Seq<char>, Seq<char>) {
        (self.factory@, self.name@)
    }
}

/// Elements as contracts see them.
pub open spec fn element_views(v: Seq<ElementPlan>) -> Seq<(Seq<char>, Seq<char>)> {
    Seq::new(v.len(), |i: int| v[i]@)
}

/// A link from one element to another, by their places.
#[derive(Debug, Clone, Copy, PartialEq, Eq, Structural)]
pub struct LinkPlan {
    pub from: usize,
    pub to: usize,
}

/// The value of a property.
#[derive(Debug, Clone, Copy)]
pub enum PropertyValue {
    Int(i32),
    UInt(u32),
    Long(u64),
    Flag(bool),
    Caps(&'static str),
}

/// A property that is set on an element. One that is optional is left alone
/// where the element does not have it.
#[derive(Debug, Clone, Copy)]
pub struct SettingPlan {
    pub element: usize,
    pub property: &'static str,
    pub value: PropertyValue,
    pub optional: bool,
}

/// A setting as contracts see it.
pub struct SettingModel {
    pub element: int,
    pub property: Seq<char>,
    pub value: ValueModel,
    pub optional: bool,
}

/// A value as contracts see it. The kind of a number matters: a property takes
/// only numbers of its own kind.
pub enum ValueModel {
    Int(int),
    UInt(int),
    Long(int),
    Flag(bool),
    Caps(Seq<char>),
}

impl View for SettingPlan {
    type V = SettingModel;

    open spec fn view(&self) -> SettingModel {
        SettingModel {
            element: self.element as int,
            property: self.property@,
            value: match self.value {
                PropertyValue::Int(n) => ValueModel::Int(n as int),
                PropertyValue::UInt(n) => ValueModel::UInt(n as int),
                PropertyValue::Long(n) => ValueModel::Long(n as int),
                PropertyValue::Flag(b) => ValueModel::Flag(b),
                PropertyValue::Caps(c) => ValueModel::Caps(c@),
            },
            optional: self.optional,
        }
    }
}

/// Settings as contracts see them.
pub open spec fn setting_views(v: Seq<SettingPlan>) -> Seq<SettingModel> {
    Seq::new(v.len(), |i: int| v[i]@)
}

/// A pipeline that is to be built: elements, their properties, and the links
/// between them. The demuxer is linked when its pads appear.
#[derive(Debug)]
pub struct PipelinePlan {
    pub elements: Vec<ElementPlan>,
    pub settings: Vec<SettingPlan>,
    pub links: Vec<LinkPlan>,
    pub audio: bool,
}

/// The video elements.
pub open spec fn video_elements(use_hw: bool, headless: bool, a: Available) -> Seq<
    (Seq<char>, Seq<char>),
> {
    seq![
        ("udpsrc"@, "udpsrc"@),
        ("rtpjitterbuffer"@, "jitterbuffer"@),
        ("rtpmp2tdepay"@, "rtpdepay"@),
        ("tsdemux"@, "demux"@),
        ("queue"@, "video_queue"@),
        ("h264parse"@, "h264parse"@),
        (decoder_factory(use_hw, a), "videodec"@),
        ("videoconvert"@, "videoconvert"@),
        (sink_factory(headless, a), "videosink"@),
    ]
}

/// The audio elements.
pub open spec fn audio_elements(a: Available) -> Seq<(Seq<char>, Seq<char>)> {
    seq![
        ("queue"@, "audio_queue"@),
        ("aacparse"@, "aacparse"@),
        ("avdec_aac"@, "audiodec"@),
        ("audioconvert"@, "audioconvert"@),
        (audio_sink_factory(a)->0, "audiosink"@),
    ]
}

/// A link between two places.
pub open spec fn link(from: int, to: int) -> LinkPlan {
    LinkPlan { from: from as usize, to: to as usize }
}

/// The links of the video elements.
pub open spec fn video_links() -> Seq<LinkPlan> {
    seq![link(0, 1), link(1, 2), link(2, 3), link(4, 5), link(5, 6), link(6, 7), link(7, 8)]
}

/// The links of the audio elements.
pub open spec fn audio_links() -> Seq<LinkPlan> {
    seq![link(9, 10), link(10, 11), link(11, 12), link(12, 13)]
}

/// A setting that the element must have.
pub open spec fn must(element: int, property: Seq<char>, value: ValueModel) -> SettingModel {
    SettingModel { element, property, value, optional: false }
}

/// A setting that the element may have.
pub open spec fn may(element: int, property: Seq<char>, value: ValueModel) -> SettingModel {
    SettingModel { element, property, value, optional: true }
}

/// The bounds of a queue.
pub open spec fn queue_settings(element: int) -> Seq<SettingModel> {
    seq![
        must(element, "max-size-buffers"@, ValueModel::UInt(200)),
        must(element, "max-size-bytes"@, ValueModel::UInt(10_485_760)),
        must(element, "max-size-time"@, ValueModel::Long(200_000_000)),
    ]
}

/// The settings of the source, the jitter buffer and the video queue.
pub open spec fn source_settings(port: int) -> Seq<SettingModel> {
    seq![
        must(0, "port"@, ValueModel::Int(port)),
        must(0, "buffer-size"@, ValueModel::Int(2_097_152)),
        must(
            0,
            "caps"@,
            ValueModel::Caps(
                "application/x-rtp,media=video,clock-rate=90000,encoding-name=MP2T"@,
            ),
        ),
        may(1, "latency"@, ValueModel::UInt(80)),
        may(1, "drop-on-latency"@, ValueModel::Flag(true)),
        may(1, "do-lost"@, ValueModel::Flag(true)),
    ] + queue_settings(4)
}

/// The settings of the decoder: the software one uses every core.
pub open spec fn decoder_settings(use_hw: bool, a: Available) -> Seq<SettingModel> {
    if use_hw && (a.vaapidecodebin || a.nvh264dec) {
        Seq::empty()
    } else {
        seq![
            may(6, "max-threads"@, ValueModel::Int(0)),
            may(6, "std-compliance"@, ValueModel::Int(0)),
        ]
    }
}

/// The settings of the video sink: a visible one shows frames as they come.
pub open spec fn sink_settings(headless: bool) -> Seq<SettingModel> {
    if headless {
        seq![must(8, "sync"@, ValueModel::Flag(true))]
    } else {
        seq![
            may(8, "sync"@, ValueModel::Flag(false)),
            may(8, "qos"@, ValueModel::Flag(false)),
        ]
    }
}

/// Why no pipeline can be built.
pub open spec fn plan_fault(
    port: int,
    video: Seq<char>,
    audio: Seq<char>,
    audio_enabled: bool,
) -> Option<Seq<char>> {
    match port_fault(port) {
        Some(e) => Some(e),
        None => match video_fault(video) {
            Some(e) => Some(e),
            None => if audio_enabled {
                audio_fault(audio)
            } else {
                None
            },
        },
    }
}

fn push_element(v: &mut Vec<ElementPlan>, factory: &'static str, name: &'static str)
    ensures
        final(v)@.len() == old(v)@.len() + 1,
        element_views(final(v)@) == element_views(old(v)@).push((factory@, name@)),
{
    v.push(ElementPlan { factory, name });
    assert(element_views(v@) =~= element_views(old(v)@).push((factory@, name@)));
}

fn push_setting(
    v: &mut Vec<SettingPlan>,
    element: usize,
    property: &'static str,
    value: PropertyValue,
    optional: bool,
)
    ensures
        setting_views(final(v)@) == setting_views(old(v)@).push(
            (SettingPlan { element, property, value, optional })@,
        ),
{
    v.push(SettingPlan { element, property, value, optional });
    assert(setting_views(v@) =~= setting_views(old(v)@).push(
        (SettingPlan { element, property, value, optional })@,
    ));
}

fn push_queue(v: &mut Vec<SettingPlan>, element: usize)
    ensures
        setting_views(final(v)@) == setting_views(old(v)@) + queue_settings(element as int),
{
    push_setting(v, element, "max-size-buffers", PropertyValue::UInt(QUEUE_MAX_BUFFERS), false);
    push_setting(v, element, "max-size-bytes", PropertyValue::UInt(QUEUE_MAX_BYTES), false);
    push_setting(v, element, "max-size-time", PropertyValue::Long(QUEUE_MAX_TIME), false);
    assert(setting_views(v@) =~= setting_views(old(v)@) + queue_settings(element as int));
}

/// Plans pipelines that receive a stream.
#[derive(Debug)]
pub struct PipelineBuilder {
    pub headless: bool,
}

impl PipelineBuilder {
    /// A builder for a sink with or without a display.
    pub fn new(headless: bool) -> (r: PipelineBuilder)
        ensures
            r.headless == headless,
    {
        PipelineBuilder { headless }
    }

    /// Plans the pipeline for a stream. Audio is left out where no audio sink
    /// can be made.
    pub fn build_pipeline(
        &self,
        rtp_port: i64,
        video_codec: &str,
        audio_codec: &str,
        audio_enabled: bool,
        use_hw_decode: bool,
        available: &Available,
    ) -> (r: Result<PipelinePlan, String>)
        requires
            plan_fault(rtp_port as int, video_codec@, audio_codec@, audio_enabled) is None
                && audio_enabled ==> available.audio_is_whole(),
        ensures
            match plan_fault(rtp_port as int, video_codec@, audio_codec@, audio_enabled) {
                Some(m) => r matches Err(e) && e@ == m,
                None => r matches Ok(p) && {
                    let audio = audio_enabled && audio_sink_factory(*available) is Some;
                    &&& p.audio == audio
                    &&& element_views(p.elements@) == video_elements(
                        use_hw_decode,
                        self.headless,
                        *available,
                    ) + if audio {
                        audio_elements(*available)
                    } else {
                        Seq::empty()
                    }
                    &&& p.links@ == video_links() + if audio {
                        audio_links()
                    } else {
                        Seq::empty()
                    }
                    &&& setting_views(p.settings@) == source_settings(rtp_port as int)
                        + decoder_settings(use_hw_decode, *available) + sink_settings(
                        self.headless,
                    ) + if audio {
                        queue_settings(9)
                    } else {
                        Seq::empty()
                    }
                    &&& is_chained(element_views(p.elements@), p.links@, audio)
                    &&& is_tuned(
                        element_views(p.elements@),
                        setting_views(p.settings@),
                        rtp_port as int,
                        self.headless,
                        audio,
                    )
                },
            },
    {
        validate_port(rtp_port)?;
        validate_video_codec(video_codec)?;
        if audio_enabled {
            validate_audio_codec(audio_codec)?;
        }
        let mut elements: Vec<ElementPlan> = Vec::new();
        push_element(&mut elements, "udpsrc", "udpsrc");
        push_element(&mut elements, "rtpjitterbuffer", "jitterbuffer");
        push_element(&mut elements, "rtpmp2tdepay", "rtpdepay");
        push_element(&mut elements, "tsdemux", "demux");
        push_element(&mut elements, "queue", "video_queue");
        push_element(&mut elements, "h264parse", "h264parse");
        push_element(&mut elements, choose_decoder(use_hw_decode, available), "videodec");
        push_element(&mut elements, "videoconvert", "videoconvert");
        push_element(&mut elements, choose_video_sink(self.headless, available), "videosink");
        assert(element_views(elements@) =~= video_elements(
            use_hw_decode,
            self.headless,
            *available,
        ));

        let mut settings: Vec<SettingPlan> = Vec::new();
        push_setting(&mut settings, 0, "port", PropertyValue::Int(rtp_port as i32), false);
        push_setting(&mut settings, 0, "buffer-size", PropertyValue::Int(UDP_BUFFER_BYTES), false);
        push_setting(
            &mut settings,
            0,
            "caps",
            PropertyValue::Caps("application/x-rtp,media=video,clock-rate=90000,encoding-name=MP2T"),
            false,
        );
        push_setting(&mut settings, 1, "latency", PropertyValue::UInt(JITTER_LATENCY_MS), true);
        push_setting(&mut settings, 1, "drop-on-latency", PropertyValue::Flag(true), true);
        push_setting(&mut settings, 1, "do-lost", PropertyValue::Flag(true), true);
        push_queue(&mut settings, 4);
        assert(setting_views(settings@) =~= source_settings(rtp_port as int));
        if !(use_hw_decode && (available.vaapidecodebin || available.nvh264dec)) {
            push_setting(&mut settings, 6, "max-threads", PropertyValue::Int(0), true);
            push_setting(&mut settings, 6, "std-compliance", PropertyValue::Int(0), true);
        }
        assert(setting_views(settings@) =~= source_settings(rtp_port as int) + decoder_settings(
            use_hw_decode,
            *available,
        ));
        if self.headless {
            push_setting(&mut settings, 8, "sync", PropertyValue::Flag(true), false);
        } else {
            push_setting(&mut settings, 8, "sync", PropertyValue::Flag(false), true);
            push_setting(&mut settings, 8, "qos", PropertyValue::Flag(false), true);
        }
        assert(setting_views(settings@) =~= source_settings(rtp_port as int) + decoder_settings(
            use_hw_decode,
            *available,
        ) + sink_settings(self.headless));

        let mut links: Vec<LinkPlan> = Vec::new();
        links.push(LinkPlan { from: 0, to: 1 });
        links.push(LinkPlan { from: 1, to: 2 });
        links.push(LinkPlan { from: 2, to: 3 });
        links.push(LinkPlan { from: 4, to: 5 });
        links.push(LinkPlan { from: 5, to: 6 });
        links.push(LinkPlan { from: 6, to: 7 });
        links.push(LinkPlan { from: 7, to: 8 });
        assert(links@ =~= video_links());

        let mut audio: bool = false;
        if audio_enabled {
            if let Some(sink) = choose_audio_sink(available) {
                audio = true;
                let ghost before = element_views(elements@);
                push_element(&mut elements, "queue", "audio_queue");
                push_element(&mut elements, "aacparse", "aacparse");
                push_element(&mut elements, "avdec_aac", "audiodec");
                push_element(&mut elements, "audioconvert", "audioconvert");
                push_element(&mut elements, sink, "audiosink");
                assert(element_views(elements@) =~= before + audio_elements(*available));
                push_queue(&mut settings, 9);
                links.push(LinkPlan { from: 9, to: 10 });
                links.push(LinkPlan { from: 10, to: 11 });
                links.push(LinkPlan { from: 11, to: 12 });
                links.push(LinkPlan { from: 12, to: 13 });
                assert(links@ =~= video_links() + audio_links());
            }
        }
        proof {
            laws::law_links_form_chains(use_hw_decode, self.headless, *available, audio);
            laws::law_properties_sit_where_they_belong(
                rtp_port as int,
                use_hw_decode,
                self.headless,
                *available,
                audio,
            );
            assert(element_views(elements@) =~= laws::planned_elements(
                use_hw_decode,
                self.headless,
                *available,
                audio,
            ));
            assert(links@ =~= laws::planned_links(audio));
            assert(setting_views(settings@) =~= laws::planned_settings(
                rtp_port as int,
                use_hw_decode,
                self.headless,
                *available,
                audio,
            ));
        }
        Ok(PipelinePlan { elements, settings, links, audio })
    }
}

/// Whether the demuxer feeds the video or the audio queue through a new pad.
#[derive(Debug, Clone, Copy, PartialEq, Eq, Structural)]
pub enum PadRoute {
    Video,
    Audio,
    Ignore,
}

/// The queue for a pad with the given capabilities, which are also given in
/// lower case.
pub open spec fn route(caps: Seq<char>, lowered: Seq<char>, audio_on: bool) -> PadRoute {
    if contains(caps, "video"@) || contains(lowered, "h264"@) {
        PadRoute::Video
    } else if audio_on && (contains(caps, "audio"@) || contains(lowered, "aac"@)) {
        PadRoute::Audio
    } else {
        PadRoute::Ignore
    }
}

/// Picks the queue for a pad, given its capabilities as they are and in lower
/// case.
pub fn route_lowered(caps: &str, lowered: &str, audio_on: bool) -> (r: PadRoute)
    ensures
        r == route(caps@, lowered@, audio_on),
{
    let c: Vec<char> = text::chars_of(caps);
    let l: Vec<char> = text::chars_of(lowered);
    if text::holds(c.as_slice(), "video") || text::holds(l.as_slice(), "h264") {
        PadRoute::Video
    } else if audio_on && (text::holds(c.as_slice(), "audio") || text::holds(
        l.as_slice(),
        "aac",
    )) {
        PadRoute::Audio
    } else {
        PadRoute::Ignore
    }
}

/// Picks the queue for a pad.
pub fn route_pad(caps: &str, audio_on: bool) -> (r: PadRoute)
    ensures
        r == route(caps@, unicode_lower(caps@), audio_on),
{
    let lowered: String = to_lowercase(caps);
    route_lowered(caps, lowered.as_str(), audio_on)
}

/// A variant of the pipeline: with which decoder, and with or without audio.
#[derive(Debug, Clone, Copy, PartialEq, Eq, Structural)]
pub struct Attempt {
    pub hardware: bool,
    pub audio: bool,
}

/// The attempts with one decoder.
pub open spec fn attempts_with(hardware: bool, want_audio: bool) -> Seq<Attempt> {
    if want_audio {
        seq![Attempt { hardware, audio: true }, Attempt { hardware, audio: false }]
    } else {
        seq![Attempt { hardware, audio: false }]
    }
}

/// The attempts in their order: hardware before software, and with audio
/// before without.
pub open spec fn attempts(use_hw: bool, want_audio: bool) -> Seq<Attempt> {
    if use_hw {
        attempts_with(true, want_audio) + attempts_with(false, want_audio)
    } else {
        attempts_with(false, want_audio)
    }
}

/// Lists the attempts.
pub fn pipeline_attempts(use_hw: bool, want_audio: bool) -> (r: Vec<Attempt>)
    ensures
        r@ == attempts(use_hw, want_audio),
{
    let mut out: Vec<Attempt> = Vec::new();
    if use_hw {
        if want_audio {
            out.push(Attempt { hardware: true, audio: true });
        }
        out.push(Attempt { hardware: true, audio: false });
    }
    if want_audio {
        out.push(Attempt { hardware: false, audio: true });
    }
    out.push(Attempt { hardware: false, audio: false });
    assert(out@ =~= attempts(use_hw, want_audio));
    out
}

/// An attempt without audio follows each attempt with audio for the same
/// decoder, no hardware attempt follows a software one, and the last resort is
/// software without audio.
pub proof fn law_video_only_follows_audio(use_hw: bool, want_audio: bool)
    ensures
        forall|i: int|
            0 <= i < attempts(use_hw, want_audio).len() && (#[trigger] attempts(
                use_hw,
                want_audio,
            )[i]).audio ==> i + 1 < attempts(use_hw, want_audio).len() && attempts(
                use_hw,
                want_audio,
            )[i + 1] == (Attempt { hardware: attempts(use_hw, want_audio)[i].hardware, audio: false }),
        forall|i: int, j: int|
            0 <= i < j < attempts(use_hw, want_audio).len() && !(#[trigger] attempts(
                use_hw,
                want_audio,
            )[i]).hardware ==> !(#[trigger] attempts(use_hw, want_audio)[j]).hardware,
        attempts(use_hw, want_audio).last() == (Attempt { hardware: false, audio: false }),
        !want_audio ==> forall|i: int|
            0 <= i < attempts(use_hw, want_audio).len() ==> !(#[trigger] attempts(
                use_hw,
                want_audio,
            )[i]).audio,
{
}

/// How an attempt ended.
#[derive(Debug)]
pub enum AttemptOutcome {
    /// The pipeline could not be built, for this reason.
    NotBuilt(String),
    /// The pipeline plays.
    Playing,
    /// The pipeline did not come to play; the audio sink may be to blame.
    Refused { audio_culprit: bool },
}

/// What the launch leads to.
#[derive(Debug)]
pub enum LaunchStep {
    /// Try this variant.
    Try(Attempt),
    /// The pipeline plays.
    Started,
    /// No pipeline plays: report this.
    Failed(String),
}

/// A step as contracts see it.
pub enum LaunchModel {
    Try(Attempt),
    Started,
    Failed(Seq<char>),
}

impl View for LaunchStep {
    type V = LaunchModel;

    open spec fn view(&self) -> LaunchModel {
        match self {
            LaunchStep::Try(a) => LaunchModel::Try(*a),
            LaunchStep::Started => LaunchModel::Started,
            LaunchStep::Failed(m) => LaunchModel::Failed(m@),
        }
    }
}

/// The launch of a pipeline: the attempts, which of them is under way, and
/// whether the hardware decoder is still trusted.
#[derive(Debug)]
pub struct Launch {
    pub attempts: Vec<Attempt>,
    pub current: usize,
    pub use_hw_decode: bool,
}

impl Launch {
    /// Whether an attempt is under way.
    pub open spec fn wf(&self) -> bool {
        self.current < self.attempts@.len()
    }

    /// Whether the hardware decoder is trusted after an attempt that was
    /// refused: it is not where it was tried, the audio sink is not to blame,
    /// and there is something left to try.
    pub open spec fn trusted_after(&self, audio_culprit: bool) -> bool {
        let a = self.attempts@[self.current as int];
        if a.hardware && !(a.audio && audio_culprit) && self.current + 1 < self.attempts@.len() {
            false
        } else {
            self.use_hw_decode
        }
    }

    /// A launch at its first attempt.
    pub fn new(use_hw: bool, want_audio: bool) -> (r: Launch)
        ensures
            r.attempts@ == attempts(use_hw, want_audio),
            r.current == 0,
            r.use_hw_decode == use_hw,
            r.wf(),
    {
        Launch { attempts: pipeline_attempts(use_hw, want_audio), current: 0, use_hw_decode: use_hw }
    }

    /// The attempt that is under way.
    pub fn attempt(&self) -> (r: Attempt)
        requires
            self.wf(),
        ensures
            r == self.attempts@[self.current as int],
    {
        self.attempts[self.current]
    }

    /// Takes the outcome of the attempt that is under way.
    pub fn report(&mut self, outcome: AttemptOutcome) -> (r: LaunchStep)
        requires
            old(self).wf(),
        ensures
            final(self).wf(),
            final(self).attempts@ == old(self).attempts@,
            match outcome {
                AttemptOutcome::NotBuilt(e) => final(self).current == old(self).current
                    && final(self).use_hw_decode == old(self).use_hw_decode && r@
                    == LaunchModel::Failed("Failed to start pipeline: "@ + e@),
                AttemptOutcome::Playing => final(self).current == old(self).current
                    && final(self).use_hw_decode == old(self).use_hw_decode && r@
                    == LaunchModel::Started,
                AttemptOutcome::Refused { audio_culprit } => final(self).use_hw_decode == old(
                    self,
                ).trusted_after(audio_culprit) && if old(self).current + 1 < old(
                    self,
                ).attempts@.len() {
                    final(self).current == old(self).current + 1 && r@ == LaunchModel::Try(
                        old(self).attempts@[old(self).current + 1],
                    )
                } else {
                    final(self).current == old(self).current && r@ == LaunchModel::Failed(
                        "Pipeline failed to transition to PLAYING (hardware and software decode both failed)"@,
                    )
                },
            },
    {
        match outcome {
            AttemptOutcome::NotBuilt(e) => LaunchStep::Failed(
                text::joined("Failed to start pipeline: ".to_owned(), e.as_str()),
            ),
            AttemptOutcome::Playing => LaunchStep::Started,
            AttemptOutcome::Refused { audio_culprit } => {
                let a: Attempt = self.attempts[self.current];
                let more: bool = self.current < self.attempts.len() - 1;
                if a.hardware && !(a.audio && audio_culprit) && more {
                    self.use_hw_decode = false;
                }
                if more {
                    self.current = self.current + 1;
                    LaunchStep::Try(self.attempts[self.current])
                } else {
                    LaunchStep::Failed(
                        "Pipeline failed to transition to PLAYING (hardware and software decode both failed)".to_owned(),
                    )
                }
            },
        }
    }
}

/// Whether a failure's details name an audio sink.
pub fn blames_audio(debug: &str) -> (r: bool)
    ensures
        r == (contains(debug@, "pulsesink"@) || contains(debug@, "audiosink"@) || contains(
            debug@,
            "alsasink"@,
        )),
{
    let d: Vec<char> = text::chars_of(debug);
    text::holds(d.as_slice(), "pulsesink") || text::holds(d.as_slice(), "audiosink")
        || text::holds(d.as_slice(), "alsasink")
}

/// What follows from an error of a running pipeline.
#[derive(Debug)]
pub enum BusReaction {
    /// Decode in software from now on and drop the pipeline.
    FallBack,
    /// Report this.
    Report(String),
}

/// What follows from an error of a running pipeline, given the error and its
/// lower case form: a decoding error while the hardware decoder is in use makes
/// the software decoder take over, any other is reported.
pub fn on_error_lowered(error: &str, lowered: &str, use_hw_decode: bool) -> (r: BusReaction)
    ensures
        match r {
            BusReaction::FallBack => use_hw_decode && contains(lowered@, "decode"@),
            BusReaction::Report(m) => !(use_hw_decode && contains(lowered@, "decode"@)) && m@
                == "Pipeline error: "@ + error@,
        },
{
    let l: Vec<char> = text::chars_of(lowered);
    if use_hw_decode && text::holds(l.as_slice(), "decode") {
        BusReaction::FallBack
    } else {
        BusReaction::Report(text::joined("Pipeline error: ".to_owned(), error))
    }
}

/// What follows from an error of a running pipeline.
pub fn on_bus_error(error: &str, use_hw_decode: bool) -> (r: BusReaction)
    ensures
        match r {
            BusReaction::FallBack => use_hw_decode && contains(unicode_lower(error@), "decode"@),
            BusReaction::Report(m) => !(use_hw_decode && contains(
                unicode_lower(error@),
                "decode"@,
            )) && m@ == "Pipeline error: "@ + error@,
        },
{
    let lowered: String = to_lowercase(error);
    on_error_lowered(error, lowered.as_str(), use_hw_decode)
}

/// The codec for which the audio branch is built: the chosen one where audio is
/// on at all.
pub fn audio_codec_for(audio_enabled: bool, codec: &str) -> (r: String)
    ensures
        r@ == if audio_enabled {
            codec@
        } else {
            "AAC"@
        },
{
    if audio_enabled {
        codec.to_owned()
    } else {
        "AAC".to_owned()
    }
}

/// The resolution that newly negotiated sizes bring, where it differs from the
/// one before.
pub fn negotiated_resolution(current: (u32, u32), width: i32, height: i32) -> (r: Option<(u32, u32)>)
    ensures
        r == if current == (width as u32, height as u32) {
            None
        } else {
            Some((width as u32, height as u32))
        },
{
    let w: u32 = width as u32;
    let h: u32 = height as u32;
    if current.0 == w && current.1 == h {
        None
    } else {
        Some((w, h))
    }
}

/// The user number that the lines of a password file give for a name: that of
/// its first line.
pub open spec fn uid_in(lines: Seq<Seq<char>>, user: Seq<char>) -> Option<int>
    decreases lines.len(),
{
    if lines.len() == 0 {
        None
    } else {
        let f = text::split_char(lines[0], ':');
        if f[0] == user {
            if f.len() > 2 {
                text::as_unsigned(f[2], 10, u32::MAX as int)
            } else {
                None
            }
        } else {
            uid_in(lines.skip(1), user)
        }
    }
}

/// Finds the number of a user in the text of a password file.
pub fn uid_of_user(passwd: &str, user: &str) -> (r: Option<u32>)
    ensures
        match r {
            Some(n) => uid_in(text::lines(passwd@), user@) == Some(n as int),
            None => uid_in(text::lines(passwd@), user@) is None,
        },
{
    let all: Vec<char> = text::chars_of(passwd);
    let lines: Vec<Vec<char>> = text::lines_of(all.as_slice());
    let ghost ls = text::texts(lines@);
    let mut i: usize = 0;
    assert(ls.skip(0) =~= ls);
    while i < lines.len()
        invariant
            i <= lines@.len(),
            ls == text::texts(lines@),
            ls == text::lines(passwd@),
            uid_in(ls, user@) == uid_in(ls.skip(i as int), user@),
        decreases lines.len() - i,
    {
        assert(ls.skip(i as int)[0] == lines@[i as int]@);
        assert(ls.skip(i as int).skip(1) =~= ls.skip(i + 1));
        let f: Vec<Vec<char>> = text::pieces(lines[i].as_slice(), ':');
        assert(text::texts(f@)[0] == f@[0]@);
        assert(f@.len() > 2 ==> text::texts(f@)[2] == f@[2]@);
        if text::is_text(f[0].as_slice(), user) {
            if f.len() > 2 {
                return match text::read_unsigned(f[2].as_slice(), 10, u32::MAX as u64) {
                    Some(n) => Some(n as u32),
                    None => None,
                };
            }
            return None;
        }
        i += 1;
    }
    None
}

/// The sound server socket of a user.
pub fn pulse_socket(uid: u32) -> (r: String)
    ensures
        r@ == "/run/user/"@ + dec(uid as int) + "/pulse/native"@,
{
    let mut out: String = text::joined("/run/user/".to_owned(), text::dec_u64(uid as u64).as_str());
    out.append("/pulse/native");
    out
}

/// The file that lets another user in at the sound server of a user.
pub fn pulse_cookie(uid: u32) -> (r: String)
    ensures
        r@ == "/run/user/"@ + dec(uid as int) + "/pulse/cookie"@,
{
    let mut out: String = text::joined("/run/user/".to_owned(), text::dec_u64(uid as u64).as_str());
    out.append("/pulse/cookie");
    out
}

} // verus!
