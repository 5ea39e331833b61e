//! What a source finds in the capabilities that a session offers.

use vstd::prelude::*;
use crate::receiver::session::capability_body;
use crate::rtsp::{
    audio_text, cea_resolution, ended_lines, is_parameter_name, law_audio_codec_read_back,
    law_offer_keeps_to_the_resolution, law_video_formats_read_back, lemma_audio_words,
    lemma_join_is_solid,
    lemma_lines_of_join, lemma_parameter_line, lemma_parameter_names, lemma_parameters_read_back,
    lemma_ports_read_back, lemma_video_words, no_parameters, parameter_line, parameters_from,
    parameters_of, ports_text, video_text, video_up_to, with_parameter, AudioModel, Fields,
    ParametersModel, VideoModel,
};
use crate::text;
use crate::text::{ascii_lower, contains, join, split_char, trim};

verus! {

/// The audio codec that a session offers: AAC with two channels at 48 kHz.
pub open spec fn offered_audio() -> AudioModel {
    AudioModel { codec: "AAC"@, modes_bitmap: 1, latency: 0 }
}

/// The parameters that a session offers to every source.
spec fn usual_fields(rtp_port: int, v: VideoModel) -> Fields {
    seq![
        ("wfd_client_rtp_ports"@, ports_text(rtp_port)),
        ("wfd_audio_codecs"@, audio_text(offered_audio())),
        ("wfd_video_formats"@, video_text(v)),
        ("wfd_3d_video_formats"@, "none"@),
        ("wfd_coupled_sink"@, "none"@),
        ("wfd_connector_type"@, "05"@),
        ("wfd_uibc_capability"@, "none"@),
        ("wfd_standby_resume_capability"@, "none"@),
        ("wfd_content_protection"@, "none"@),
    ]
}

/// The parameters that a session offers.
spec fn offered_fields(rtp_port: int, v: VideoModel, idr: bool) -> Fields {
    if idr {
        usual_fields(rtp_port, v).push(("wfd_idr_request_capability"@, "1"@))
    } else {
        usual_fields(rtp_port, v)
    }
}

spec fn lines_for(ps: Fields) -> Seq<Seq<char>> {
    Seq::new(ps.len(), |i: int| parameter_line(ps[i].0, ps[i].1))
}

/// Whether a name is one that a reader of parameters does not know.
spec fn is_other_name(name: Seq<char>) -> bool {
    &&& is_parameter_name(name)
    &&& name != "wfd_video_formats"@
    &&& name != "wfd_audio_codecs"@
    &&& name != "wfd_presentation_url"@
    &&& name != "wfd_client_rtp_ports"@
    &&& name != "wfd_content_protection"@
}

proof fn lemma_known_names()
    ensures
        "wfd_video_formats"@.len() == 17 && "wfd_video_formats"@[4] == 'v',
        "wfd_audio_codecs"@.len() == 16 && "wfd_audio_codecs"@[4] == 'a',
        "wfd_presentation_url"@.len() == 20 && "wfd_presentation_url"@[4] == 'p',
        "wfd_client_rtp_ports"@.len() == 20 && "wfd_client_rtp_ports"@[4] == 'c',
        "wfd_content_protection"@.len() == 22 && "wfd_content_protection"@[4] == 'c',
{
    reveal_strlit("wfd_video_formats");
    reveal_strlit("wfd_audio_codecs");
    reveal_strlit("wfd_presentation_url");
    reveal_strlit("wfd_client_rtp_ports");
    reveal_strlit("wfd_content_protection");
}

proof fn lemma_depth_name()
    ensures
        is_other_name("wfd_3d_video_formats"@),
{
    lemma_known_names();
    reveal_strlit("wfd_3d_video_formats");
    assert(ascii_lower("wfd_3d_video_formats"@) =~= "wfd_3d_video_formats"@);
}

proof fn lemma_connector_name()
    ensures
        is_other_name("wfd_connector_type"@),
{
    lemma_known_names();
    reveal_strlit("wfd_connector_type");
    assert(ascii_lower("wfd_connector_type"@) =~= "wfd_connector_type"@);
}

proof fn lemma_input_name()
    ensures
        is_other_name("wfd_uibc_capability"@),
{
    lemma_known_names();
    reveal_strlit("wfd_uibc_capability");
    assert(ascii_lower("wfd_uibc_capability"@) =~= "wfd_uibc_capability"@);
}

proof fn lemma_standby_name()
    ensures
        is_other_name("wfd_standby_resume_capability"@),
{
    lemma_known_names();
    reveal_strlit("wfd_standby_resume_capability");
    assert(ascii_lower("wfd_standby_resume_capability"@) =~= "wfd_standby_resume_capability"@);
}

proof fn lemma_idr_name()
    ensures
        is_other_name("wfd_idr_request_capability"@),
{
    lemma_known_names();
    reveal_strlit("wfd_idr_request_capability");
    assert(ascii_lower("wfd_idr_request_capability"@) =~= "wfd_idr_request_capability"@);
}

/// The names that a reader of parameters does not know change nothing.
proof fn lemma_other_names()
    ensures
        is_parameter_name("wfd_3d_video_formats"@),
        is_parameter_name("wfd_connector_type"@),
        is_parameter_name("wfd_uibc_capability"@),
        is_parameter_name("wfd_standby_resume_capability"@),
        is_parameter_name("wfd_idr_request_capability"@),
        forall|m: ParametersModel, v: Seq<char>| #[trigger]
            with_parameter(m, "wfd_3d_video_formats"@, v) == m,
        forall|m: ParametersModel, v: Seq<char>| #[trigger]
            with_parameter(m, "wfd_connector_type"@, v) == m,
        forall|m: ParametersModel, v: Seq<char>| #[trigger]
            with_parameter(m, "wfd_uibc_capability"@, v) == m,
        forall|m: ParametersModel, v: Seq<char>| #[trigger]
            with_parameter(m, "wfd_standby_resume_capability"@, v) == m,
        forall|m: ParametersModel, v: Seq<char>| #[trigger]
            with_parameter(m, "wfd_idr_request_capability"@, v) == m,
{
    lemma_depth_name();
    lemma_connector_name();
    lemma_input_name();
    lemma_standby_name();
    lemma_idr_name();
}

/// The body is made of the lines of its parameters, each ended.
proof fn lemma_body_lines(rtp_port: int, max: (u32, u32), query: Seq<char>)
    ensures
        ({
            let idr = contains(query, "wfd_idr_request_capability"@);
            let ls = lines_for(offered_fields(rtp_port, video_up_to(max.0, max.1), idr));
            capability_body(rtp_port, max, query) == join(ls, "\r\n"@) + "\r\n"@
        }),
{
    let idr = contains(query, "wfd_idr_request_capability"@);
    let v = video_up_to(max.0, max.1);
    let us = lines_for(usual_fields(rtp_port, v));
    let e = "\r\n"@;
    lemma_joined_lines(us);
    lemma_usual_lines(rtp_port, v);
    lemma_tail_text();
    lemma_ports_and_audio();
    let usual = join(us, e) + e;
    let plain = "wfd_client_rtp_ports: RTP/AVP/UDP;unicast "@ + text::dec(rtp_port)
        + " 0 mode=play\r\nwfd_audio_codecs: AAC 00000001 00\r\nwfd_video_formats: "@ + video_text(v)
        + "\r\nwfd_3d_video_formats: none\r\nwfd_coupled_sink: none\r\nwfd_connector_type: 05\r\nwfd_uibc_capability: none\r\nwfd_standby_resume_capability: none\r\nwfd_content_protection: none\r\n"@;
    let name = "wfd_client_rtp_ports"@ + ": "@;
    let u = "RTP/AVP/UDP;unicast "@;
    let d = text::dec(rtp_port);
    let z = " 0 mode=play"@;
    let vp = "wfd_video_formats"@ + ": "@;
    let vt = video_text(v);
    lemma_regroup_head(name, u, d, z, e, us[1], vp, vt);
    let w = us[0] + e + us[1] + e + us[2];
    assert(us[0] == name + (u + d + z));
    assert(us[2] == vp + vt);
    lemma_regroup_tail(w, e, us[3], us[4], us[5], us[6], us[7], us[8]);
    assert(plain == usual);
    if idr {
        let ls = lines_for(offered_fields(rtp_port, v, true));
        let last = parameter_line("wfd_idr_request_capability"@, "1"@);
        assert(ls.drop_last() =~= us);
        assert(ls.last() == last);
        lemma_idr_line();
        assert(join(ls, e) == join(us, e) + e + last);
        assert(capability_body(rtp_port, max, query) =~= join(ls, e) + e);
    } else {
        assert(capability_body(rtp_port, max, query) =~= join(us, e) + e);
    }
}

proof fn lemma_idr_line()
    ensures
        "wfd_idr_request_capability: 1\r\n"@ == parameter_line(
            "wfd_idr_request_capability"@,
            "1"@,
        ) + "\r\n"@,
{
    reveal_strlit("wfd_idr_request_capability: 1\r\n");
    reveal_strlit("wfd_idr_request_capability");
    reveal_strlit(": ");
    reveal_strlit("1");
    reveal_strlit("\r\n");
    assert("wfd_idr_request_capability: 1\r\n"@ =~= parameter_line(
        "wfd_idr_request_capability"@,
        "1"@,
    ) + "\r\n"@);
}

proof fn lemma_regroup_head(
    name: Seq<char>,
    u: Seq<char>,
    d: Seq<char>,
    z: Seq<char>,
    e: Seq<char>,
    a: Seq<char>,
    vp: Seq<char>,
    vt: Seq<char>,
)
    ensures
        (name + u) + d + (z + e + a + e + vp) + vt == (name + (u + d + z)) + e + a + e + (vp + vt),
{
    assert((name + u) + d + (z + e + a + e + vp) =~= (name + (u + d + z)) + e + a + e + vp);
    assert(((name + (u + d + z)) + e + a + e + vp) + vt =~= (name + (u + d + z)) + e + a + e + (vp
        + vt));
}

proof fn lemma_regroup_tail(
    w: Seq<char>,
    e: Seq<char>,
    a: Seq<char>,
    b: Seq<char>,
    c: Seq<char>,
    d: Seq<char>,
    f: Seq<char>,
    g: Seq<char>,
)
    ensures
        w + (e + a + e + b + e + c + e + d + e + f + e + g + e) == w + e + a + e + b + e + c + e + d
            + e + f + e + g + e,
{
    let t1 = e + a;
    let t2 = t1 + e + b;
    let t3 = t2 + e + c;
    let t4 = t3 + e + d;
    let t5 = t4 + e + f;
    let t6 = t5 + e + g;
    assert(w + t1 =~= w + e + a);
    assert(w + t2 =~= (w + t1) + e + b);
    assert(w + t3 =~= (w + t2) + e + c);
    assert(w + t4 =~= (w + t3) + e + d);
    assert(w + t5 =~= (w + t4) + e + f);
    assert(w + t6 =~= (w + t5) + e + g);
    assert(w + (t6 + e) =~= (w + t6) + e);
}

proof fn lemma_joined_lines(ls: Seq<Seq<char>>)
    requires
        ls.len() == 9,
    ensures
        ({
            let e = "\r\n"@;
            join(ls, e) == ls[0] + e + ls[1] + e + ls[2] + e + ls[3] + e + ls[4] + e + ls[5] + e
                + ls[6] + e + ls[7] + e + ls[8]
        }),
{
    let l8 = ls.drop_last();
    let l7 = l8.drop_last();
    let l6 = l7.drop_last();
    let l5 = l6.drop_last();
    let l4 = l5.drop_last();
    let l3 = l4.drop_last();
    let l2 = l3.drop_last();
    let l1 = l2.drop_last();
    let e = "\r\n"@;
    assert(join(l1, e) == ls[0]);
    assert(join(l2, e) == join(l1, e) + e + ls[1]);
    assert(join(l3, e) == join(l2, e) + e + ls[2]);
    assert(join(l4, e) == join(l3, e) + e + ls[3]);
    assert(join(l5, e) == join(l4, e) + e + ls[4]);
    assert(join(l6, e) == join(l5, e) + e + ls[5]);
    assert(join(l7, e) == join(l6, e) + e + ls[6]);
    assert(join(l8, e) == join(l7, e) + e + ls[7]);
    assert(join(ls, e) == join(l8, e) + e + ls[8]);
}

proof fn lemma_usual_lines(rtp_port: int, v: VideoModel)
    ensures
        ({
            let us = lines_for(usual_fields(rtp_port, v));
            &&& us.len() == 9
            &&& us[0] == parameter_line("wfd_client_rtp_ports"@, ports_text(rtp_port))
            &&& us[1] == parameter_line("wfd_audio_codecs"@, audio_text(offered_audio()))
            &&& us[2] == parameter_line("wfd_video_formats"@, video_text(v))
            &&& us[3] == parameter_line("wfd_3d_video_formats"@, "none"@)
            &&& us[4] == parameter_line("wfd_coupled_sink"@, "none"@)
            &&& us[5] == parameter_line("wfd_connector_type"@, "05"@)
            &&& us[6] == parameter_line("wfd_uibc_capability"@, "none"@)
            &&& us[7] == parameter_line("wfd_standby_resume_capability"@, "none"@)
            &&& us[8] == parameter_line("wfd_content_protection"@, "none"@)
        }),
{
}

/// The text behind the video formats, line by line.
#[verifier::spinoff_prover]
proof fn lemma_tail_text()
    ensures
        ({
            let e = "\r\n"@;
            "\r\nwfd_3d_video_formats: none\r\nwfd_coupled_sink: none\r\nwfd_connector_type: 05\r\nwfd_uibc_capability: none\r\nwfd_standby_resume_capability: none\r\nwfd_content_protection: none\r\n"@
                == e + parameter_line("wfd_3d_video_formats"@, "none"@) + e + parameter_line(
                "wfd_coupled_sink"@,
                "none"@,
            ) + e + parameter_line("wfd_connector_type"@, "05"@) + e + parameter_line(
                "wfd_uibc_capability"@,
                "none"@,
            ) + e + parameter_line("wfd_standby_resume_capability"@, "none"@) + e + parameter_line(
                "wfd_content_protection"@,
                "none"@,
            ) + e
        }),
{
    let e = "\r\n"@;
    let t =
        "\r\nwfd_3d_video_formats: none\r\nwfd_coupled_sink: none\r\nwfd_connector_type: 05\r\nwfd_uibc_capability: none\r\nwfd_standby_resume_capability: none\r\nwfd_content_protection: none\r\n"@;
    reveal_strlit(
        "\r\nwfd_3d_video_formats: none\r\nwfd_coupled_sink: none\r\nwfd_connector_type: 05\r\nwfd_uibc_capability: none\r\nwfd_standby_resume_capability: none\r\nwfd_content_protection: none\r\n",
    );
    reveal_strlit("\r\n");
    reveal_strlit(": ");
    reveal_strlit("none");
    reveal_strlit("05");
    reveal_strlit("wfd_3d_video_formats");
    reveal_strlit("wfd_coupled_sink");
    reveal_strlit("wfd_connector_type");
    reveal_strlit("wfd_uibc_capability");
    reveal_strlit("wfd_standby_resume_capability");
    reveal_strlit("wfd_content_protection");
    assert(t.subrange(0, 2) =~= e);
    assert(t.subrange(2, 28) =~= parameter_line("wfd_3d_video_formats"@, "none"@));
    assert(t.subrange(28, 30) =~= e);
    assert(t.subrange(30, 52) =~= parameter_line("wfd_coupled_sink"@, "none"@));
    assert(t.subrange(52, 54) =~= e);
    assert(t.subrange(54, 76) =~= parameter_line("wfd_connector_type"@, "05"@));
    assert(t.subrange(76, 78) =~= e);
    assert(t.subrange(78, 103) =~= parameter_line("wfd_uibc_capability"@, "none"@));
    assert(t.subrange(103, 105) =~= e);
    assert(t.subrange(105, 140) =~= parameter_line("wfd_standby_resume_capability"@, "none"@));
    assert(t.subrange(140, 142) =~= e);
    assert(t.subrange(142, 170) =~= parameter_line("wfd_content_protection"@, "none"@));
    assert(t.subrange(170, 172) =~= e);
    assert(t.len() == 172);
    assert(t =~= t.subrange(0, 2) + t.subrange(2, 28) + t.subrange(28, 30) + t.subrange(30, 52)
        + t.subrange(52, 54) + t.subrange(54, 76) + t.subrange(76, 78) + t.subrange(78, 103)
        + t.subrange(103, 105) + t.subrange(105, 140) + t.subrange(140, 142) + t.subrange(142, 170)
        + t.subrange(170, 172));
}

/// The text before the video formats, line by line.
#[verifier::spinoff_prover]
proof fn lemma_ports_and_audio()
    ensures
        " 0 mode=play\r\nwfd_audio_codecs: AAC 00000001 00\r\nwfd_video_formats: "@
            == " 0 mode=play"@ + "\r\n"@ + parameter_line(
            "wfd_audio_codecs"@,
            audio_text(offered_audio()),
        ) + "\r\n"@ + ("wfd_video_formats"@ + ": "@),
        "wfd_client_rtp_ports: RTP/AVP/UDP;unicast "@ == "wfd_client_rtp_ports"@ + ": "@
            + "RTP/AVP/UDP;unicast "@,
{
    reveal_strlit("wfd_client_rtp_ports: RTP/AVP/UDP;unicast ");
    reveal_strlit("wfd_client_rtp_ports");
    reveal_strlit(": ");
    reveal_strlit("RTP/AVP/UDP;unicast ");
    let c = "wfd_client_rtp_ports: RTP/AVP/UDP;unicast "@;
    assert(c.subrange(0, 20) =~= "wfd_client_rtp_ports"@);
    assert(c.subrange(20, 22) =~= ": "@);
    assert(c.subrange(22, 42) =~= "RTP/AVP/UDP;unicast "@);
    assert(c =~= c.subrange(0, 20) + c.subrange(20, 22) + c.subrange(22, 42));
    let t = " 0 mode=play\r\nwfd_audio_codecs: AAC 00000001 00\r\nwfd_video_formats: "@;
    reveal_strlit(" 0 mode=play\r\nwfd_audio_codecs: AAC 00000001 00\r\nwfd_video_formats: ");
    reveal_strlit(" 0 mode=play");
    reveal_strlit("\r\n");
    reveal_strlit("wfd_audio_codecs");
    reveal_strlit("wfd_video_formats");
    reveal_strlit("AAC");
    reveal_strlit(" ");
    let a = offered_audio();
    let ws = crate::rtsp::audio_words(a);
    lemma_small_hex();
    assert(ws.drop_last() =~= seq![ws[0], ws[1]]);
    assert(ws.drop_last().drop_last() =~= seq![ws[0]]);
    reveal_with_fuel(join, 3);
    let x = audio_text(a);
    assert(x == ws[0] + " "@ + ws[1] + " "@ + ws[2]);
    assert(t.subrange(0, 12) =~= " 0 mode=play"@);
    assert(t.subrange(12, 14) =~= "\r\n"@);
    assert(t.subrange(14, 30) =~= "wfd_audio_codecs"@);
    assert(t.subrange(30, 32) =~= ": "@);
    assert(t.subrange(32, 47) =~= x);
    assert(t.subrange(47, 49) =~= "\r\n"@);
    assert(t.subrange(49, 66) =~= "wfd_video_formats"@);
    assert(t.subrange(66, 68) =~= ": "@);
    assert(t.len() == 68);
    assert(t =~= t.subrange(0, 12) + t.subrange(12, 14) + (t.subrange(14, 30) + t.subrange(30, 32)
        + t.subrange(32, 47)) + t.subrange(47, 49) + (t.subrange(49, 66) + t.subrange(66, 68)));
}

proof fn lemma_small_hex()
    ensures
        text::hex_upper(1, 8) == seq!['0', '0', '0', '0', '0', '0', '0', '1'],
        text::hex_upper(0, 2) == seq!['0', '0'],
{
    assert(text::digits(1, 16, true) == seq!['1']);
    assert(text::digits(0, 16, true) == seq!['0']);
    reveal_with_fuel(text::zero_padded, 9);
    assert(text::hex_upper(0, 2) =~= seq!['0', '0']);
    let s1 = seq!['1'];
    let s2 = seq!['0'] + s1;
    let s3 = seq!['0'] + s2;
    let s4 = seq!['0'] + s3;
    let s5 = seq!['0'] + s4;
    let s6 = seq!['0'] + s5;
    let s7 = seq!['0'] + s6;
    let s8 = seq!['0'] + s7;
    assert(text::zero_padded(s1, 8) == s8);
    assert(s8 =~= seq!['0', '0', '0', '0', '0', '0', '0', '1']);
}

proof fn lemma_trim_ended(s: Seq<char>)
    requires
        text::is_solid(s),
    ensures
        trim(s + "\r\n"@) == s,
{
    reveal_strlit("\r\n");
    let t = s + "\r\n"@;
    assert(t[0] == s[0]);
    assert(text::trim_start(t) == t);
    assert(t.drop_last() =~= s.push('\r'));
    assert(t.drop_last().drop_last() =~= s);
    assert(text::trim_end(s) == s);
    assert(text::trim_end(t.drop_last()) == text::trim_end(t.drop_last().drop_last()));
    assert(text::trim_end(t) == text::trim_end(t.drop_last()));
}

/// A source that reads what a session offers finds the port of the session, AAC,
/// and H.264 in the formats that the sink shows, the best of which is full HD
/// where the sink shows that much and 1280 by 720 otherwise.
#[verifier::spinoff_prover]
pub proof fn law_session_offer_is_read_back(rtp_port: i64, max: (u32, u32), query: Seq<char>)
    ensures
        parameters_of(split_char(trim(capability_body(rtp_port as int, max, query)), '\n')) == (
        ParametersModel {
            video_formats: Some(video_up_to(max.0, max.1)),
            audio_codecs: Some(offered_audio()),
            presentation_url: Seq::empty(),
            client_rtp_ports: ports_text(rtp_port as int),
            content_protection: "none"@,
            rtp_port: rtp_port as int,
            video_codec: "H264"@,
            audio_codec: "AAC"@,
            resolution: if max.0 >= 1920 && max.1 >= 1080 {
                (1920, 1080)
            } else {
                (1280, 720)
            },
        }),
{
    let idr = contains(query, "wfd_idr_request_capability"@);
    let v = video_up_to(max.0, max.1);
    let a = offered_audio();
    let ps = offered_fields(rtp_port as int, v, idr);
    let ls = lines_for(ps);
    let e = "\r\n"@;
    lemma_plain_values();
    lemma_body_lines(rtp_port as int, max, query);
    lemma_other_names();
    lemma_parameter_names();
    lemma_video_words(v);
    lemma_audio_words(a);
    lemma_fields_are_fit(rtp_port, v, idr);
    assert forall|i: int| 0 <= i < ls.len() implies !(#[trigger] ls[i]).contains('\n')
        && text::is_solid(ls[i]) by {
        assert(is_parameter_name(ps[i].0));
        lemma_parameter_line(no_parameters(), ps[i].0, ps[i].1);
    }
    lemma_lines_of_join(ls);
    lemma_join_is_solid(ls, e);
    lemma_trim_ended(join(ls, e));
    let n = ps.len() as int;
    lemma_parameters_read_back(ps, ls, n);
    assert(ended_lines(ls).take(n) =~= ended_lines(ls));
    assert(ps.take(n) =~= ps);
    law_video_formats_read_back(v);
    law_audio_codec_read_back(a);
    law_offer_keeps_to_the_resolution(max.0, max.1);
    let us = usual_fields(rtp_port as int, v);
    lemma_usual_read(rtp_port, v);
    if idr {
        assert(ps.drop_last() =~= us);
    }
}

proof fn lemma_plain_values()
    ensures
        text::is_solid("none"@) && !"none"@.contains('\n'),
        text::is_solid("05"@) && !"05"@.contains('\n'),
        text::is_solid("1"@) && !"1"@.contains('\n'),
        text::is_word("AAC"@),
        text::is_word("none"@),
{
    reveal_strlit("none");
    reveal_strlit("05");
    reveal_strlit("1");
    reveal_strlit("AAC");
}

/// Whether a field can be written on the line of a parameter.
spec fn is_fit(f: (Seq<char>, Seq<char>)) -> bool {
    is_parameter_name(f.0) && text::is_solid(f.1) && !f.1.contains('\n')
}

#[verifier::spinoff_prover]
proof fn lemma_fields_are_fit(rtp_port: i64, v: VideoModel, idr: bool)
    requires
        text::is_word(v.max_hres),
        text::is_word(v.max_vres),
    ensures
        ({
            let ps = offered_fields(rtp_port as int, v, idr);
            forall|i: int|
                0 <= i < ps.len() ==> is_parameter_name(#[trigger] ps[i].0) && text::is_solid(
                    ps[i].1,
                ) && !ps[i].1.contains('\n')
        }),
{
    lemma_depth_name();
    lemma_connector_name();
    lemma_input_name();
    lemma_standby_name();
    lemma_idr_name();
    lemma_parameter_names();
    lemma_plain_values();
    lemma_video_words(v);
    lemma_audio_words(offered_audio());
    lemma_ports_read_back(rtp_port, 0);
    let us = usual_fields(rtp_port as int, v);
    assert(is_fit(us[0]) && is_fit(us[1]) && is_fit(us[2]));
    assert(is_fit(us[3]) && is_fit(us[4]) && is_fit(us[5]));
    assert(is_fit(us[6]) && is_fit(us[7]) && is_fit(us[8]));
    let ps = offered_fields(rtp_port as int, v, idr);
    assert forall|i: int| 0 <= i < ps.len() implies is_parameter_name(#[trigger] ps[i].0)
        && text::is_solid(ps[i].1) && !ps[i].1.contains('\n') by {
        if i < 9 {
            assert(ps[i] == us[i]);
            assert(is_fit(us[i]));
        } else {
            assert(is_fit(("wfd_idr_request_capability"@, "1"@)));
        }
    }
}

#[verifier::spinoff_prover]
proof fn lemma_usual_read(rtp_port: i64, v: VideoModel)
    requires
        text::is_word(v.max_hres),
        text::is_word(v.max_vres),
    ensures
        parameters_from(usual_fields(rtp_port as int, v)) == (ParametersModel {
            video_formats: Some(v),
            audio_codecs: Some(offered_audio()),
            presentation_url: Seq::empty(),
            client_rtp_ports: ports_text(rtp_port as int),
            content_protection: "none"@,
            rtp_port: rtp_port as int,
            video_codec: "H264"@,
            audio_codec: "AAC"@,
            resolution: cea_resolution(v.cea_bitmap),
        }),
{
    let a = offered_audio();
    let ps = usual_fields(rtp_port as int, v);
    lemma_plain_values();
    law_video_formats_read_back(v);
    law_audio_codec_read_back(a);
    lemma_other_names();
    lemma_parameter_names();
    let p0 = no_parameters();
    lemma_ports_read_back(rtp_port, p0.rtp_port);
    let p1 = with_parameter(p0, "wfd_client_rtp_ports"@, ports_text(rtp_port as int));
    let p2 = with_parameter(p1, "wfd_audio_codecs"@, audio_text(a));
    let p3 = with_parameter(p2, "wfd_video_formats"@, video_text(v));
    let q8 = ps.drop_last();
    let q7 = q8.drop_last();
    let q6 = q7.drop_last();
    let q5 = q6.drop_last();
    let q4 = q5.drop_last();
    let q3 = q4.drop_last();
    let q2 = q3.drop_last();
    let q1 = q2.drop_last();
    assert(q1.drop_last().len() == 0);
    assert(parameters_from(q1.drop_last()) == p0);
    assert(parameters_from(q1) == p1);
    assert(parameters_from(q2) == p2);
    assert(parameters_from(q3) == p3);
    assert(parameters_from(q4) == with_parameter(p3, "wfd_3d_video_formats"@, "none"@));
    assert(parameters_from(q5) == with_parameter(p3, "wfd_coupled_sink"@, "none"@));
    assert(parameters_from(q5) == p3);
    assert(parameters_from(q6) == with_parameter(p3, "wfd_connector_type"@, "05"@));
    assert(parameters_from(q7) == with_parameter(p3, "wfd_uibc_capability"@, "none"@));
    assert(parameters_from(q8) == with_parameter(p3, "wfd_standby_resume_capability"@, "none"@));
    assert(parameters_from(q8) == p3);
}

/// A source that asks whether it can be sent for a fresh picture is told so, and
/// no other is.
pub proof fn law_fresh_pictures_are_offered_when_asked(
    rtp_port: int,
    max: (u32, u32),
    query: Seq<char>,
    other: Seq<char>,
)
    requires
        contains(query, "wfd_idr_request_capability"@),
        !contains(other, "wfd_idr_request_capability"@),
    ensures
        capability_body(rtp_port, max, query) == capability_body(rtp_port, max, other)
            + parameter_line("wfd_idr_request_capability"@, "1"@) + "\r\n"@,
{
    lemma_idr_line();
    assert(capability_body(rtp_port, max, query) =~= capability_body(rtp_port, max, other)
        + parameter_line("wfd_idr_request_capability"@, "1"@) + "\r\n"@);
}

} // verus!
