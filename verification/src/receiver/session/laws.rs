//! What holds of the exchange with the source: answers carry the numbers of the
//! requests, our requests hold what was agreed on, and a running stream is
//! served until the source ends it.

use vstd::prelude::*;
use vstd::utf8::{encode_utf8, is_ascii_chars};
use crate::receiver::session::{
    capability_body, choose_from, chosen, cseq_in, is_first_named, is_named, is_unnamed,
    m3_reply, message_lines, ok_reply, play_request, react, server_port_in, session_in,
    session_step, setup_request, shows_length, shows_number, shows_session, source_address,
    ActionModel, SessionModel, Stage, StreamStepModel,
};
use crate::rtsp::offer::law_session_offer_is_read_back;
use crate::rtsp::{options_request, parameters_of};
use crate::text;
use crate::text::{
    as_i64, ascii_lower, contains, dec, find, is_space, is_word, join, occurs_at, split_char,
    split_once, trim, words,
};

verus! {

proof fn lemma_dec_is_plain(n: int)
    requires
        i64::MIN <= n <= i64::MAX,
    ensures
        is_ascii_chars(dec(n)),
        forall|i: int|
            0 <= i < dec(n).len() ==> #[trigger] dec(n)[i] != '\r' && dec(n)[i] != '\n' && dec(n)[i]
                != ';' && dec(n)[i] != '=',
{
    let d = if n < 0 {
        text::digits(-n, 10, false)
    } else {
        text::digits(n, 10, false)
    };
    text::lemma_digits_read_back(
        if n < 0 {
            -n
        } else {
            n
        },
        10,
        false,
    );
    assert forall|i: int| 0 <= i < dec(n).len() implies '\0' <= #[trigger] dec(n)[i] <= '\u{7f}'
        && dec(n)[i] != '\r' && dec(n)[i] != '\n' && dec(n)[i] != ';' && dec(n)[i] != '=' by {
        if n < 0 && i > 0 {
            assert(dec(n)[i] == d[i - 1]);
        } else if n >= 0 {
            assert(dec(n)[i] == d[i]);
        }
    }
}

/// A line of a name that is a word, a colon and a word is read as the two.
proof fn lemma_field_line(name: Seq<char>, value: Seq<char>)
    requires
        !name.contains(':'),
        is_word(value),
    ensures
        split_once(name + ": "@ + value, ':') == Some((name, seq![' '] + value)),
        trim(seq![' '] + value) == value,
{
    reveal_strlit(": ");
    assert(name + ": "@ + value =~= name.push(':') + (seq![' '] + value));
    text::lemma_split_once_at(name, ':', seq![' '] + value);
    assert(!is_space(value[0]) && !is_space(value[value.len() - 1]));
    text::lemma_trim_solid(value, ' ');
}

/// The line that holds a sequence number.
proof fn lemma_number_line(n: int)
    requires
        i64::MIN <= n <= i64::MAX,
    ensures
        is_named("CSeq: "@ + dec(n), "cseq:"@),
        !("CSeq: "@ + dec(n)).contains('\r'),
        split_once("CSeq: "@ + dec(n), ':') matches Some(kv) && as_i64(trim(kv.1)) == Some(n),
{
    let line = "CSeq: "@ + dec(n);
    reveal_strlit("CSeq: ");
    reveal_strlit("CSeq");
    reveal_strlit("cseq:");
    reveal_strlit(": ");
    lemma_dec_is_plain(n);
    text::lemma_dec_read_back(n);
    assert(line =~= "CSeq"@ + ": "@ + dec(n));
    lemma_field_line("CSeq"@, dec(n));
    assert forall|i: int| 0 <= i < line.len() implies '\0' <= #[trigger] line[i] <= '\u{7f}'
        && line[i] != '\r' by {
        if i >= 6 {
            assert(line[i] == dec(n)[i - 6]);
        }
    }
    assert(ascii_lower(line).take(5) =~= "cseq:"@);
}

/// The first lines of an answer.
proof fn lemma_reply_lines(n: int, rest: Seq<char>)
    requires
        i64::MIN <= n <= i64::MAX,
    ensures
        ({
            let t = "RTSP/1.0 200 OK\r\nCSeq: "@ + dec(n) + "\r\n"@ + rest;
            &&& message_lines(t) == seq!["RTSP/1.0 200 OK"@, "CSeq: "@ + dec(n)] + message_lines(
                rest,
            )
            &&& shows_number(message_lines(t), 1, n)
        }),
{
    let t = "RTSP/1.0 200 OK\r\nCSeq: "@ + dec(n) + "\r\n"@ + rest;
    let status = "RTSP/1.0 200 OK"@;
    let line = "CSeq: "@ + dec(n);
    reveal_strlit("RTSP/1.0 200 OK\r\nCSeq: ");
    reveal_strlit("RTSP/1.0 200 OK");
    reveal_strlit("CSeq: ");
    reveal_strlit("cseq:");
    reveal_strlit("\r\n");
    lemma_number_line(n);
    let after = line + "\r\n"@ + rest;
    assert(t =~= status + "\r\n"@ + after);
    assert(!status.contains('\r'));
    text::lemma_split_on_line_end(status, after);
    text::lemma_split_on_line_end(line, rest);
    assert(message_lines(t) =~= seq![status, line] + message_lines(rest));
    assert(ascii_lower(status)[0] == 'r');
    assert(is_ascii_chars(status));
    assert("cseq:"@[0] == 'c');
    assert(is_unnamed(status, "cseq:"@));
    let ls = message_lines(t);
    assert(ls[0] == status && ls[1] == line);
}

proof fn lemma_number_in_range(ls: Seq<Seq<char>>)
    ensures
        i64::MIN <= cseq_in(ls) <= i64::MAX,
    decreases ls.len(),
{
    if ls.len() > 0 {
        lemma_number_in_range(ls.skip(1));
    }
}

/// The plain answer accepts, with the number that it was made for.
pub proof fn lemma_ok_reply(n: int)
    requires
        i64::MIN <= n <= i64::MAX,
    ensures
        shows_number(message_lines(ok_reply(n)), 1, n),
        message_lines(ok_reply(n))[0] == "RTSP/1.0 200 OK"@,
{
    reveal_strlit("\r\n\r\n");
    reveal_strlit("\r\n");
    lemma_reply_lines(n, "\r\n"@);
    assert(ok_reply(n) =~= "RTSP/1.0 200 OK\r\nCSeq: "@ + dec(n) + "\r\n"@ + "\r\n"@);
}

/// Whether a text is an answer that accepts, with the given number.
pub open spec fn accepts(reply: Seq<char>, n: int) -> bool {
    &&& message_lines(reply)[0] == "RTSP/1.0 200 OK"@
    &&& shows_number(message_lines(reply), 1, n)
}

/// Every request of the source is accepted before anything else is done, with
/// the number that it carries.
#[verifier::spinoff_prover]
pub proof fn law_reply_carries_the_number(s: SessionModel, data: Seq<char>)
    requires
        s.stage == Stage::M1 || s.stage == Stage::M3 || s.stage == Stage::M4 || s.stage
            == Stage::M5,
    ensures
        session_step(s, data).1.len() > 0,
        session_step(s, data).1[0] matches ActionModel::Send(reply) && accepts(
            reply,
            cseq_in(message_lines(data)),
        ),
{
    let n = cseq_in(message_lines(data));
    lemma_number_in_range(message_lines(data));
    lemma_ok_reply(n);
    let reply = session_step(s, data).1[0]->Send_0;
    reveal_strlit("\r\n");
    if s.stage == Stage::M1 {
        let rest = "Public: org.wfa.wfd1.0, SET_PARAMETER, GET_PARAMETER\r\n\r\n"@;
        lemma_reply_lines(n, rest);
        reveal_strlit("Public: org.wfa.wfd1.0, SET_PARAMETER, GET_PARAMETER\r\n\r\n");
        reveal_strlit("\r\nPublic: org.wfa.wfd1.0, SET_PARAMETER, GET_PARAMETER\r\n\r\n");
        assert(reply =~= "RTSP/1.0 200 OK\r\nCSeq: "@ + dec(n) + "\r\n"@ + rest);
    } else if s.stage == Stage::M3 {
        let k = "RTSP/1.0 200 OK\r\nCSeq: "@.len() + dec(n).len();
        let rest = reply.skip((k + 2) as int);
        reveal_strlit("\r\nContent-Type: text/parameters\r\nContent-Length: ");
        lemma_reply_lines(n, rest);
        assert(reply =~= "RTSP/1.0 200 OK\r\nCSeq: "@ + dec(n) + "\r\n"@ + rest);
    }
}

#[verifier::spinoff_prover]
proof fn lemma_offer_reply(n: int, body: Seq<char>)
    requires
        i64::MIN <= n <= i64::MAX,
        encode_utf8(body).len() <= i64::MAX,
    ensures
        ({
            let t = m3_reply(n, body);
            &&& find(t, "\r\n\r\n"@) matches Some(e) && t.skip(e + 4) == body
            &&& shows_length(message_lines(t), 3, encode_utf8(body).len() as int)
        }),
{
    let t = m3_reply(n, body);
    let e = "\r\n"@;
    let size = encode_utf8(body).len() as int;
    let l0 = "RTSP/1.0 200 OK"@;
    let l1 = "CSeq: "@ + dec(n);
    let l2 = "Content-Type: text/parameters"@;
    let l3 = "Content-Length"@ + ": "@ + dec(size);
    reveal_strlit("RTSP/1.0 200 OK\r\nCSeq: ");
    reveal_strlit("RTSP/1.0 200 OK");
    reveal_strlit("CSeq: ");
    reveal_strlit("\r\n");
    reveal_strlit("\r\n\r\n");
    reveal_strlit(": ");
    reveal_strlit("content-length:");
    reveal_strlit("Content-Type: text/parameters");
    reveal_strlit("Content-Length");
    reveal_strlit("\r\nContent-Type: text/parameters\r\nContent-Length: ");
    let c = "\r\nContent-Type: text/parameters\r\nContent-Length: "@;
    assert(c.subrange(0, 2) =~= e);
    assert(c.subrange(2, 31) =~= l2);
    assert(c.subrange(31, 33) =~= e);
    assert(c.subrange(33, 49) =~= "Content-Length"@ + ": "@);
    assert(c =~= c.subrange(0, 2) + c.subrange(2, 31) + c.subrange(31, 33) + c.subrange(33, 49));
    lemma_dec_is_plain(n);
    lemma_dec_is_plain(size);
    text::lemma_dec_read_back(size);
    text::lemma_digits_read_back(size, 10, false);
    text::lemma_plain_is_word(dec(size));
    lemma_number_line(n);
    lemma_field_line("Content-Length"@, dec(size));
    let t3 = l3 + "\r\n\r\n"@ + body;
    let t2 = l2 + e + t3;
    let t1 = l1 + e + t2;
    assert(t =~= l0 + e + t1) by {
        let x = "RTSP/1.0 200 OK\r\nCSeq: "@;
        assert(x =~= l0 + e + "CSeq: "@);
        assert(t == x + dec(n) + c + dec(size) + "\r\n\r\n"@ + body);
        assert(c =~= e + l2 + e + ("Content-Length"@ + ": "@));
    }
    assert forall|i: int| 0 <= i < l3.len() implies '\0' <= #[trigger] l3[i] <= '\u{7f}' && l3[i]
        != '\r' by {
        if i >= 16 {
            assert(l3[i] == dec(size)[i - 16]);
        }
    }
    assert(!l0.contains('\r') && !l2.contains('\r') && !l3.contains('\r'));
    text::lemma_find_empty_line(l3, body);
    text::lemma_find_empty_line_later(l2, t3);
    text::lemma_find_empty_line_later(l1, t2);
    text::lemma_find_empty_line_later(l0, t1);
    let k = find(t, "\r\n\r\n"@)->0;
    assert(k == l0.len() + 2 + l1.len() + 2 + l2.len() + 2 + l3.len());
    assert(t.skip(k + 4) =~= body);
    let rest = e + body;
    assert(t3 =~= l3 + e + rest);
    text::lemma_split_on_line_end(l0, t1);
    text::lemma_split_on_line_end(l1, t2);
    text::lemma_split_on_line_end(l2, t3);
    text::lemma_split_on_line_end(l3, rest);
    let ls = message_lines(t);
    assert(ls =~= seq![l0, l1, l2, l3] + message_lines(rest));
    assert(ls[0] == l0 && ls[1] == l1 && ls[2] == l2 && ls[3] == l3);
    let name = "content-length:"@;
    assert(ascii_lower(l3).subrange(0, 15) =~= name);
    lemma_starts_otherwise(l0, name);
    assert(is_ascii_chars(l0) && is_ascii_chars(l2));
    assert(ascii_lower(l1)[1] == 's');
    assert(ascii_lower(l2)[8] == 't');
    if name.is_prefix_of(ascii_lower(l1)) {
        assert(ascii_lower(l1).subrange(0, 15)[1] == ascii_lower(l1)[1]);
    }
    if name.is_prefix_of(ascii_lower(l2)) {
        assert(ascii_lower(l2).subrange(0, 15)[8] == ascii_lower(l2)[8]);
    }
}

/// A source that asks for the capabilities is sent the port of the session, AAC,
/// and H.264 at the best resolution of the sink that is offered, in a body of
/// the length that the answer declares.
pub proof fn law_capabilities_are_sent(s: SessionModel, data: Seq<char>)
    requires
        s.stage == Stage::M3,
        i64::MIN <= s.rtp_port <= i64::MAX,
        encode_utf8(capability_body(s.rtp_port, s.max_resolution, data)).len() <= i64::MAX,
    ensures
        session_step(s, data).1.len() == 1,
        session_step(s, data).1[0] matches ActionModel::Send(reply) && (find(
            reply,
            "\r\n\r\n"@,
        ) matches Some(e) && {
            let body = reply.skip(e + 4);
            let offer = parameters_of(split_char(trim(body), '\n'));
            &&& shows_length(message_lines(reply), 3, encode_utf8(body).len() as int)
            &&& offer.rtp_port == s.rtp_port
            &&& offer.audio_codec == "AAC"@
            &&& offer.video_codec == "H264"@
            &&& offer.resolution == if s.max_resolution.0 >= 1920 && s.max_resolution.1 >= 1080 {
                (1920u32, 1080u32)
            } else {
                (1280u32, 720u32)
            }
        }),
{
    let n = cseq_in(message_lines(data));
    lemma_number_in_range(message_lines(data));
    let body = capability_body(s.rtp_port, s.max_resolution, data);
    lemma_offer_reply(n, body);
    law_session_offer_is_read_back(s.rtp_port as i64, s.max_resolution, data);
}

/// The first line of a request of ours and the line of its number.
proof fn lemma_request_lines(first: Seq<char>, n: int, rest: Seq<char>)
    requires
        i64::MIN <= n <= i64::MAX,
        is_ascii_chars(first),
        first.len() > 0,
        first[0] == 'S' || first[0] == 'P' || first[0] == 'O',
        !first.contains('\r'),
    ensures
        ({
            let t = first + "\r\nCSeq: "@ + dec(n) + "\r\n"@ + rest;
            &&& message_lines(t) == seq![first, "CSeq: "@ + dec(n)] + message_lines(rest)
            &&& shows_number(message_lines(t), 1, n)
        }),
{
    let t = first + "\r\nCSeq: "@ + dec(n) + "\r\n"@ + rest;
    let line = "CSeq: "@ + dec(n);
    reveal_strlit("\r\nCSeq: ");
    reveal_strlit("CSeq: ");
    reveal_strlit("cseq:");
    reveal_strlit("\r\n");
    lemma_number_line(n);
    let after = line + "\r\n"@ + rest;
    assert(t =~= first + "\r\n"@ + after);
    text::lemma_split_on_line_end(first, after);
    text::lemma_split_on_line_end(line, rest);
    assert(message_lines(t) =~= seq![first, line] + message_lines(rest));
    assert(ascii_lower(first)[0] != 'c');
    assert("cseq:"@[0] == 'c');
    assert(is_unnamed(first, "cseq:"@)) by {
        if "cseq:"@.is_prefix_of(ascii_lower(first)) {
            assert(ascii_lower(first).subrange(0, 5)[0] == 'c');
        }
    }
    let ls = message_lines(t);
    assert(ls[0] == first && ls[1] == line);
}

/// The place of the stream at the source.
pub open spec fn stream_place(ip: Seq<char>) -> Seq<char> {
    "rtsp://"@ + ip + "/wfd1.0/streamid=0"@
}

/// Whether a text is the address of a host: a word in ASCII.
pub open spec fn is_host(ip: Seq<char>) -> bool {
    is_word(ip) && is_ascii_chars(ip)
}

#[verifier::spinoff_prover]
proof fn lemma_request_line(method: Seq<char>, ip: Seq<char>)
    requires
        is_word(method),
        is_ascii_chars(method),
        is_host(ip),
    ensures
        ({
            let line = method + " "@ + stream_place(ip) + " RTSP/1.0"@;
            &&& words(line) == seq![method, stream_place(ip), "RTSP/1.0"@]
            &&& is_ascii_chars(line)
            &&& !line.contains('\r')
            &&& line[0] == method[0]
        }),
{
    let place = stream_place(ip);
    let line = method + " "@ + place + " RTSP/1.0"@;
    reveal_strlit("rtsp://");
    reveal_strlit("/wfd1.0/streamid=0");
    reveal_strlit(" RTSP/1.0");
    reveal_strlit("RTSP/1.0");
    reveal_strlit(" ");
    assert forall|i: int| 0 <= i < place.len() implies !is_space(#[trigger] place[i]) && '\0'
        <= place[i] <= '\u{7f}' by {
        if i >= 7 && i < 7 + ip.len() {
            assert(place[i] == ip[i - 7]);
            assert(!is_space(ip[i - 7]));
        } else if i >= 7 + ip.len() {
            assert(place[i] == "/wfd1.0/streamid=0"@[i - 7 - ip.len()]);
        }
    }
    let ws = seq![method, place, "RTSP/1.0"@];
    assert(ws.drop_last() =~= seq![method, place]);
    assert(ws.drop_last().drop_last() =~= seq![method]);
    reveal_with_fuel(join, 3);
    assert(join(ws, " "@) =~= line);
    assert(is_word(ws[0]) && is_word(ws[1]) && is_word(ws[2]));
    text::lemma_words_of_join(ws);
    assert forall|i: int| 0 <= i < line.len() implies '\0' <= #[trigger] line[i] <= '\u{7f}'
        && line[i] != '\r' by {
        if i < method.len() {
            assert(line[i] == method[i]);
            assert(!is_space(method[i]));
        } else if i == method.len() {
            assert(line[i] == ' ');
        } else if i < method.len() + 1 + place.len() {
            assert(line[i] == place[i - method.len() - 1]);
        } else {
            assert(line[i] == " RTSP/1.0"@[i - method.len() - 1 - place.len()]);
        }
    }
}

/// The SETUP request is for the stream of the source, carries its number, and
/// names the port at which the stream is expected.
#[verifier::spinoff_prover]
pub proof fn law_setup_names_the_port(ip: Seq<char>, n: int, port: int)
    requires
        is_host(ip),
        i64::MIN <= n <= i64::MAX,
        i64::MIN <= port <= i64::MAX,
    ensures
        ({
            let ls = message_lines(setup_request(ip, n, port));
            let parts = split_char(ls[2], ';');
            &&& words(ls[0]) == seq!["SETUP"@, stream_place(ip), "RTSP/1.0"@]
            &&& shows_number(ls, 1, n)
            &&& is_first_named(ls, "transport:"@, 2)
            &&& parts[0] == "Transport: RTP/AVP/UDP"@
            &&& parts.len() == 3
            &&& split_once(parts[2], '=') matches Some(kv) && kv.0 == "client_port"@ && as_i64(kv.1)
                == Some(port)
            &&& ls.len() == 5 && ls[3].len() == 0 && ls[4].len() == 0
        }),
{
    let t = setup_request(ip, n, port);
    reveal_strlit("SETUP");
    reveal_strlit("SETUP rtsp://");
    reveal_strlit("rtsp://");
    reveal_strlit(" ");
    reveal_strlit("/wfd1.0/streamid=0 RTSP/1.0\r\nCSeq: ");
    reveal_strlit("/wfd1.0/streamid=0");
    reveal_strlit(" RTSP/1.0");
    reveal_strlit("\r\nCSeq: ");
    reveal_strlit("\r\nTransport: RTP/AVP/UDP;unicast;client_port=");
    reveal_strlit("Transport: RTP/AVP/UDP");
    reveal_strlit("unicast");
    reveal_strlit("client_port=");
    reveal_strlit("client_port");
    reveal_strlit("transport:");
    reveal_strlit("CSeq: ");
    reveal_strlit("\r\n\r\n");
    reveal_strlit("\r\n");
    assert(is_word("SETUP"@) && is_ascii_chars("SETUP"@));
    lemma_request_line("SETUP"@, ip);
    lemma_dec_is_plain(n);
    lemma_dec_is_plain(port);
    text::lemma_dec_read_back(port);
    let first = "SETUP"@ + " "@ + stream_place(ip) + " RTSP/1.0"@;
    let a = "Transport: RTP/AVP/UDP"@;
    let b = "unicast"@;
    let c = "client_port="@ + dec(port);
    let line = a.push(';') + (b.push(';') + c);
    let rest = line + "\r\n"@ + "\r\n"@;
    assert(t =~= first + "\r\nCSeq: "@ + dec(n) + "\r\n"@ + rest);
    lemma_request_lines(first, n, rest);
    assert(!c.contains(';')) by {
        assert forall|i: int| 0 <= i < c.len() implies c[i] != ';' by {
            if i >= 12 {
                assert(c[i] == dec(port)[i - 12]);
            }
        }
    }
    assert(!a.contains(';') && !b.contains(';'));
    text::lemma_split_char_between(a, ';', b.push(';') + c);
    text::lemma_split_char_between(b, ';', c);
    text::lemma_split_char_solid(a, ';');
    text::lemma_split_char_solid(b, ';');
    text::lemma_split_char_solid(c, ';');
    assert(split_char(line, ';') =~= seq![a, b, c]);
    assert(c =~= "client_port"@.push('=') + dec(port));
    assert(!"client_port"@.contains('='));
    text::lemma_split_once_at("client_port"@, '=', dec(port));
    assert forall|i: int| 0 <= i < line.len() implies '\0' <= #[trigger] line[i] <= '\u{7f}'
        && line[i] != '\r' by {
        if i >= 22 + 1 + 7 + 1 + 12 {
            assert(line[i] == dec(port)[i - 43]);
        } else if i > 30 {
            assert(line[i] == "client_port="@[i - 31]);
        } else if i > 22 && i < 30 {
            assert(line[i] == b[i - 23]);
        } else if i < 22 {
            assert(line[i] == a[i]);
        }
    }
    assert(!line.contains('\r'));
    text::lemma_split_on_line_end(line, "\r\n"@);
    let none = Seq::<char>::empty();
    assert("\r\n"@ =~= none + "\r\n"@ + none);
    text::lemma_split_on_line_end(none, none);
    text::lemma_split_on_one_line(none);
    assert(message_lines(rest) =~= seq![line, none, none]);
    let ls = message_lines(t);
    assert(ls[2] == line);
    assert(ascii_lower(line).subrange(0, 10) =~= "transport:"@);
    lemma_starts_otherwise(first, "transport:"@);
    lemma_starts_otherwise("CSeq: "@ + dec(n), "transport:"@);
    lemma_number_line(n);
}

/// A line that begins with another character does not have a name.
proof fn lemma_starts_otherwise(line: Seq<char>, name: Seq<char>)
    ensures
        (line.len() > 0 && name.len() > 0 && text::lower(line[0]) != name[0])
            ==> !name.is_prefix_of(ascii_lower(line)),
{
    if name.len() > 0 && line.len() > 0 && name.is_prefix_of(ascii_lower(line)) {
        assert(ascii_lower(line).subrange(0, name.len() as int)[0] == ascii_lower(line)[0]);
    }
}

/// The PLAY request is for the stream of the source, carries its number, and
/// names the session.
#[verifier::spinoff_prover]
pub proof fn law_play_names_the_session(ip: Seq<char>, n: int, id: Seq<char>)
    requires
        is_host(ip),
        i64::MIN <= n <= i64::MAX,
        is_host(id),
        !id.contains(';'),
    ensures
        ({
            let ls = message_lines(play_request(ip, n, id));
            &&& words(ls[0]) == seq!["PLAY"@, stream_place(ip), "RTSP/1.0"@]
            &&& shows_number(ls, 1, n)
            &&& shows_session(ls, 2, id)
            &&& ls.len() == 5 && ls[3].len() == 0 && ls[4].len() == 0
        }),
{
    let t = play_request(ip, n, id);
    reveal_strlit("PLAY");
    reveal_strlit("PLAY rtsp://");
    reveal_strlit("rtsp://");
    reveal_strlit(" ");
    reveal_strlit("/wfd1.0/streamid=0 RTSP/1.0\r\nCSeq: ");
    reveal_strlit("/wfd1.0/streamid=0");
    reveal_strlit(" RTSP/1.0");
    reveal_strlit("\r\nCSeq: ");
    reveal_strlit("\r\nSession: ");
    reveal_strlit("Session");
    reveal_strlit(": ");
    reveal_strlit("session:");
    reveal_strlit("CSeq: ");
    reveal_strlit("\r\n\r\n");
    reveal_strlit("\r\n");
    assert(is_word("PLAY"@) && is_ascii_chars("PLAY"@));
    lemma_request_line("PLAY"@, ip);
    lemma_dec_is_plain(n);
    let first = "PLAY"@ + " "@ + stream_place(ip) + " RTSP/1.0"@;
    let line = "Session"@ + ": "@ + id;
    let rest = line + "\r\n"@ + "\r\n"@;
    assert(t =~= first + "\r\nCSeq: "@ + dec(n) + "\r\n"@ + rest);
    lemma_request_lines(first, n, rest);
    assert forall|i: int| 0 <= i < line.len() implies '\0' <= #[trigger] line[i] <= '\u{7f}'
        && line[i] != '\r' by {
        if i >= 9 {
            assert(line[i] == id[i - 9]);
            assert(!is_space(id[i - 9]));
        }
    }
    assert(!line.contains('\r'));
    text::lemma_split_on_line_end(line, "\r\n"@);
    let none = Seq::<char>::empty();
    assert("\r\n"@ =~= none + "\r\n"@ + none);
    text::lemma_split_on_line_end(none, none);
    text::lemma_split_on_one_line(none);
    assert(message_lines(rest) =~= seq![line, none, none]);
    let ls = message_lines(t);
    assert(ls[2] == line);
    assert(ascii_lower(line).subrange(0, 8) =~= "session:"@);
    lemma_starts_otherwise(first, "session:"@);
    lemma_starts_otherwise("CSeq: "@ + dec(n), "session:"@);
    lemma_number_line(n);
    lemma_field_line("Session"@, id);
    text::lemma_split_char_solid(id, ';');
    assert(!is_space(id[0]) && !is_space(id[id.len() - 1]));
    text::lemma_trim_solid(id, ' ');
}

/// Every request of ours has the number behind that of the one before it, and
/// what it asks for is what was agreed on: the answer to OPTIONS is awaited
/// before anything else is asked for, SETUP names the port that the session
/// has, and PLAY comes behind the start of the pipeline and names the session
/// that the source has opened.
#[verifier::spinoff_prover]
pub proof fn law_own_requests_count_up(s: SessionModel, data: Seq<char>)
    requires
        s.stage == Stage::M1 || s.stage == Stage::M5 || s.stage == Stage::M6,
        i64::MIN <= s.cseq < i64::MAX,
        i64::MIN <= s.rtp_port <= i64::MAX,
        is_host(s.source_ip),
    ensures
        session_step(s, data).0.cseq == s.cseq + 1,
        session_step(s, data).1.len() == 2,
        session_step(s, data).1[1] matches ActionModel::Send(q) && {
            let ls = message_lines(q);
            &&& (s.stage == Stage::M6 ==> is_host(session_step(s, data).0.session_id)
                && !session_step(s, data).0.session_id.contains(';')) ==> shows_number(
                ls,
                1,
                s.cseq + 1,
            )
            &&& s.stage == Stage::M1 ==> words(ls[0]) == seq!["OPTIONS"@, "*"@, "RTSP/1.0"@]
            &&& s.stage == Stage::M5 ==> words(ls[0])[0] == "SETUP"@ && (split_once(
                split_char(ls[2], ';')[2],
                '=',
            ) matches Some(kv) && as_i64(kv.1) == Some(s.rtp_port))
            &&& s.stage == Stage::M6 ==> session_step(s, data).1[0] is StartPipeline && (is_host(
                session_step(s, data).0.session_id,
            ) && !session_step(s, data).0.session_id.contains(';') ==> words(ls[0])[0] == "PLAY"@
                && shows_session(ls, 2, session_step(s, data).0.session_id))
        },
{
    let n = s.cseq + 1;
    if s.stage == Stage::M1 {
        reveal_strlit("OPTIONS * RTSP/1.0");
        reveal_strlit("OPTIONS * RTSP/1.0\r\nCSeq: ");
        reveal_strlit("\r\nCSeq: ");
        reveal_strlit("\r\nRequire: org.wfa.wfd1.0\r\n\r\n");
        reveal_strlit("Require: org.wfa.wfd1.0\r\n\r\n");
        reveal_strlit("\r\n");
        reveal_strlit("OPTIONS");
        reveal_strlit("*");
        reveal_strlit("RTSP/1.0");
        reveal_strlit(" ");
        let first = "OPTIONS * RTSP/1.0"@;
        let rest = "Require: org.wfa.wfd1.0\r\n\r\n"@;
        let ws = seq!["OPTIONS"@, "*"@, "RTSP/1.0"@];
        assert(ws.drop_last() =~= seq!["OPTIONS"@, "*"@]);
        assert(ws.drop_last().drop_last() =~= seq!["OPTIONS"@]);
        reveal_with_fuel(join, 3);
        assert(join(ws, " "@) =~= first);
        assert(is_word(ws[0]) && is_word(ws[1]) && is_word(ws[2]));
        text::lemma_words_of_join(ws);
        lemma_request_lines(first, n, rest);
        assert(options_request(n) =~= first + "\r\nCSeq: "@ + dec(n) + "\r\n"@ + rest);
    } else if s.stage == Stage::M5 {
        law_setup_names_the_port(s.source_ip, n, s.rtp_port);
    } else {
        let id = session_step(s, data).0.session_id;
        if is_host(id) && !id.contains(';') {
            law_play_names_the_session(s.source_ip, n, id);
        }
    }
}

/// A session takes the port and the codec from the parameters that the source
/// has chosen, and its identifier and the port of the server from the answer to
/// SETUP. Everything else that it knows it keeps, whatever comes.
pub proof fn law_session_remembers(s: SessionModel, data: Seq<char>)
    ensures
        ({
            let t = session_step(s, data).0;
            &&& t.source_ip == s.source_ip
            &&& t.max_resolution == s.max_resolution
            &&& s.stage == Stage::M4 ==> (t.rtp_port, t.audio_codec) == chosen(
                s.rtp_port,
                s.audio_codec,
                data,
            )
            &&& s.stage != Stage::M4 ==> t.rtp_port == s.rtp_port && t.audio_codec == s.audio_codec
            &&& s.stage == Stage::M6 ==> t.session_id == session_in(message_lines(data))
                && t.server_port == server_port_in(message_lines(data))
            &&& s.stage != Stage::M6 ==> t.session_id == s.session_id && t.server_port
                == s.server_port
        }),
{
}

/// The exchange goes from one message to the next and never back: each message
/// leads to the next stage, until the stream runs.
pub proof fn law_stages_follow_each_other(s: SessionModel, data: Seq<char>)
    ensures
        ({
            let t = session_step(s, data).0.stage;
            &&& s.stage == Stage::M1 ==> t == Stage::M2
            &&& s.stage == Stage::M2 ==> t == Stage::M3
            &&& s.stage == Stage::M3 ==> t == Stage::M4
            &&& s.stage == Stage::M4 ==> t == Stage::M5
            &&& s.stage == Stage::M5 ==> t == Stage::M6
            &&& s.stage == Stage::M6 ==> t == Stage::M7
            &&& s.stage == Stage::M7 || s.stage == Stage::Streaming ==> t == Stage::Streaming
        }),
{
}

/// The address of the source's server is its host, a colon and the port.
pub proof fn law_address_holds_the_port(ip: Seq<char>, port: u16)
    requires
        !ip.contains(':'),
    ensures
        split_once(source_address(ip, port as int), ':') matches Some(p) && p.0 == ip && as_i64(
            p.1,
        ) == Some(port as int),
{
    reveal_strlit(":");
    text::lemma_dec_read_back(port as int);
    assert(source_address(ip, port as int) =~= ip.push(':') + dec(port as int));
    text::lemma_split_once_at(ip, ':', dec(port as int));
}

/// Whether a line chooses the port of the stream.
pub open spec fn is_port_line(line: Seq<char>) -> bool {
    "wfd_client_rtp_ports:"@.is_prefix_of(line)
}

/// Whether a line chooses the audio codec.
pub open spec fn is_audio_line(line: Seq<char>) -> bool {
    "wfd_audio_codecs:"@.is_prefix_of(line)
}

proof fn lemma_line_kinds(line: Seq<char>)
    ensures
        is_port_line(line) ==> !is_audio_line(line) && !"wfd_video_formats:"@.is_prefix_of(line),
        is_audio_line(line) ==> !is_port_line(line) && !"wfd_video_formats:"@.is_prefix_of(line),
{
    reveal_strlit("wfd_client_rtp_ports:");
    reveal_strlit("wfd_audio_codecs:");
    reveal_strlit("wfd_video_formats:");
    if is_port_line(line) {
        assert(line.subrange(0, 21)[4] == line[4]);
        assert("wfd_client_rtp_ports:"@[4] == 'c');
    }
    if is_audio_line(line) {
        assert(line.subrange(0, 17)[4] == line[4]);
        assert("wfd_audio_codecs:"@[4] == 'a');
    }
    if "wfd_video_formats:"@.is_prefix_of(line) {
        assert(line.subrange(0, 18)[4] == line[4]);
        assert("wfd_video_formats:"@[4] == 'v');
    }
}

proof fn lemma_chosen(port: int, codec: Seq<char>, ls: Seq<Seq<char>>, k: int)
    requires
        0 <= k <= ls.len(),
    ensures
        (forall|j: int| k <= j < ls.len() ==> !is_port_line(#[trigger] ls[j])) ==> choose_from(
            port,
            codec,
            ls,
        ).0 == choose_from(port, codec, ls.take(k)).0,
        (forall|j: int| k <= j < ls.len() ==> !is_audio_line(#[trigger] ls[j])) ==> choose_from(
            port,
            codec,
            ls,
        ).1 == choose_from(port, codec, ls.take(k)).1,
    decreases ls.len(),
{
    if k == ls.len() {
        assert(ls.take(k) =~= ls);
    } else {
        let front = ls.drop_last();
        lemma_chosen(port, codec, front, k);
        assert(front.take(k) =~= ls.take(k));
        lemma_line_kinds(ls.last());
        assert forall|j: int| k <= j < front.len() implies front[j] == ls[j] by {}
        if forall|j: int| k <= j < ls.len() ==> !is_port_line(#[trigger] ls[j]) {
            assert(!is_port_line(ls[ls.len() - 1]));
            assert forall|j: int| k <= j < front.len() implies !is_port_line(#[trigger] front[j]) by {
                assert(front[j] == ls[j]);
            }
        }
        if forall|j: int| k <= j < ls.len() ==> !is_audio_line(#[trigger] ls[j]) {
            assert(!is_audio_line(ls[ls.len() - 1]));
            assert forall|j: int| k <= j < front.len() implies !is_audio_line(
                #[trigger] front[j],
            ) by {
                assert(front[j] == ls[j]);
            }
        }
    }
}

/// Of the parameters that the source sends, the last port that a stream can come
/// to and the last audio codec are taken. Where it sends none of either, or one
/// port that no stream can come to, that stays as it was.
pub proof fn law_last_choice_counts(
    port: int,
    codec: Seq<char>,
    data: Seq<char>,
    empty: int,
    k: int,
    p: int,
)
    requires
        find(data, "\r\n\r\n"@) == Some(empty),
        i64::MIN <= p <= i64::MAX,
    ensures
        ({
            let ls = message_lines(data.skip(empty + 4));
            let got = chosen(port, codec, data);
            &&& (forall|j: int| 0 <= j < ls.len() ==> !is_port_line(#[trigger] ls[j])) ==> got.0
                == port
            &&& (forall|j: int| 0 <= j < ls.len() ==> !is_audio_line(#[trigger] ls[j])) ==> got.1
                == codec
            &&& (0 <= k < ls.len() && is_port_line(ls[k]) && words(ls[k]).len() >= 3 && words(
                ls[k],
            )[2] == dec(p) && forall|j: int| k < j < ls.len() ==> !is_port_line(#[trigger] ls[j]))
                ==> got.0 == if 1024 <= p <= 65535 {
                p
            } else {
                choose_from(port, codec, ls.take(k)).0
            }
            &&& (0 <= k < ls.len() && is_audio_line(ls[k]) && forall|j: int|
                k < j < ls.len() ==> !is_audio_line(#[trigger] ls[j])) ==> if contains(
                ls[k],
                "LPCM"@,
            ) {
                got.1 == "LPCM"@
            } else {
                got.1 == "AAC"@
            }
        }),
{
    let ls = message_lines(data.skip(empty + 4));
    assert(ls.take(0).len() == 0);
    lemma_chosen(port, codec, ls, 0);
    text::lemma_dec_read_back(p);
    if 0 <= k < ls.len() {
        lemma_chosen(port, codec, ls, k + 1);
        assert(ls.take(k + 1).drop_last() =~= ls.take(k));
        assert(ls.take(k + 1).last() == ls[k]);
        lemma_line_kinds(ls[k]);
    }
}

/// The first line of a text begins as the text does, as far as that is no end of
/// a line.
proof fn lemma_first_line_begins(data: Seq<char>, begin: Seq<char>)
    requires
        begin.is_prefix_of(data),
        !begin.contains('\r'),
    ensures
        begin.is_prefix_of(message_lines(data)[0]),
{
    reveal_strlit("\r\n");
    text::lemma_find_from(data, "\r\n"@, 0);
    if let Some(k) = find(data, "\r\n"@) {
        assert(data.subrange(k, k + 2)[0] == data[k]);
        if k < begin.len() {
            assert(begin[k] == data[k]);
        }
        assert(data.take(k).take(begin.len() as int) =~= begin);
    }
}

proof fn lemma_contains_prefix(s: Seq<char>, pat: Seq<char>)
    requires
        pat.is_prefix_of(s),
    ensures
        contains(s, pat),
{
    assert(s.subrange(0, pat.len() as int) =~= pat);
    text::lemma_find_at(s, pat, 0);
}

proof fn lemma_contains_part(s: Seq<char>, pat: Seq<char>, i: int, j: int)
    requires
        0 <= i <= j <= s.len(),
        contains(s.subrange(i, j), pat),
    ensures
        contains(s, pat),
{
    let p = s.subrange(i, j);
    text::lemma_find_from(p, pat, 0);
    let k = find(p, pat)->0;
    assert(s.subrange(i + k, i + k + pat.len()) =~= p.subrange(k, k + pat.len()));
    text::lemma_find_from(s, pat, 0);
    assert(occurs_at(s, pat, i + k));
}

/// While the stream runs, every message that asks for parameters or sets them is
/// accepted with the number that it carries. The stream goes on unless the first
/// line of the message is one of TEARDOWN or the message triggers one.
#[verifier::spinoff_prover]
pub proof fn law_parameters_are_answered(data: Seq<char>)
    requires
        contains(data, "GET_PARAMETER"@) || contains(data, "SET_PARAMETER"@)
            || "GET_PARAMETER "@.is_prefix_of(data) || "SET_PARAMETER "@.is_prefix_of(data),
    ensures
        ({
            let ends = contains(data, "wfd_trigger_method: TEARDOWN"@) || contains(
                message_lines(data)[0],
                "TEARDOWN"@,
            );
            match react(data) {
                StreamStepModel::Reply(t) => !ends && accepts(t, cseq_in(message_lines(data))),
                StreamStepModel::ReplyAndStop(t) => ends && accepts(
                    t,
                    cseq_in(message_lines(data)),
                ),
                _ => false,
            }
        }),
{
    lemma_number_in_range(message_lines(data));
    lemma_ok_reply(cseq_in(message_lines(data)));
    reveal_strlit("GET_PARAMETER ");
    reveal_strlit("GET_PARAMETER");
    reveal_strlit("SET_PARAMETER ");
    reveal_strlit("SET_PARAMETER");
    if "GET_PARAMETER "@.is_prefix_of(data) {
        assert(data.take(13) =~= "GET_PARAMETER "@.take(13));
        assert("GET_PARAMETER "@.take(13) =~= "GET_PARAMETER"@);
        lemma_contains_prefix(data, "GET_PARAMETER"@);
    }
    if "SET_PARAMETER "@.is_prefix_of(data) {
        assert(data.take(13) =~= "SET_PARAMETER "@.take(13));
        assert("SET_PARAMETER "@.take(13) =~= "SET_PARAMETER"@);
        lemma_contains_prefix(data, "SET_PARAMETER"@);
    }
}

/// The source ends the stream by a TEARDOWN request or by triggering one, and in
/// no other way: a message without that word never ends it. What ends the stream
/// is accepted first, with the number that it carries.
#[verifier::spinoff_prover]
pub proof fn law_only_teardown_ends_the_stream(data: Seq<char>)
    ensures
        ("TEARDOWN "@.is_prefix_of(data) || contains(data, "wfd_trigger_method: TEARDOWN"@)) ==> (
        react(data) matches StreamStepModel::ReplyAndStop(t) && accepts(
            t,
            cseq_in(message_lines(data)),
        )),
        !contains(data, "TEARDOWN"@) ==> react(data) is Reply || react(data) is Continue,
        !contains(data, "TEARDOWN"@) && !contains(data, "_PARAMETER"@) ==> react(data) is Continue,
{
    lemma_number_in_range(message_lines(data));
    lemma_ok_reply(cseq_in(message_lines(data)));
    reveal_strlit("TEARDOWN ");
    reveal_strlit("TEARDOWN");
    reveal_strlit("wfd_trigger_method: TEARDOWN");
    reveal_strlit("GET_PARAMETER");
    reveal_strlit("SET_PARAMETER");
    reveal_strlit("_PARAMETER");
    reveal_strlit("\r\n");
    let first = message_lines(data)[0];
    if "TEARDOWN "@.is_prefix_of(data) {
        assert(data.take(8) =~= "TEARDOWN "@.take(8));
        assert("TEARDOWN "@.take(8) =~= "TEARDOWN"@);
        lemma_first_line_begins(data, "TEARDOWN"@);
        lemma_contains_prefix(first, "TEARDOWN"@);
    }
    if contains(first, "TEARDOWN"@) {
        text::lemma_find_from(data, "\r\n"@, 0);
        assert(first =~= data.subrange(0, first.len() as int));
        lemma_contains_part(data, "TEARDOWN"@, 0, first.len() as int);
    }
    if contains(data, "wfd_trigger_method: TEARDOWN"@) {
        let w = "wfd_trigger_method: TEARDOWN"@;
        text::lemma_find_from(data, w, 0);
        let k = find(data, w)->0;
        assert(data.subrange(k + 20, k + 28) =~= w.subrange(20, 28));
        assert(w.subrange(20, 28) =~= "TEARDOWN"@);
        text::lemma_find_from(data, "TEARDOWN"@, 0);
        assert(occurs_at(data, "TEARDOWN"@, k + 20));
    }
    text::lemma_find_from(data, "_PARAMETER"@, 0);
    if contains(data, "GET_PARAMETER"@) {
        let w = "GET_PARAMETER"@;
        text::lemma_find_from(data, w, 0);
        let k = find(data, w)->0;
        assert(data.subrange(k + 3, k + 13) =~= w.subrange(3, 13));
        assert(w.subrange(3, 13) =~= "_PARAMETER"@);
        assert(occurs_at(data, "_PARAMETER"@, k + 3));
    }
    if contains(data, "SET_PARAMETER"@) {
        let w = "SET_PARAMETER"@;
        text::lemma_find_from(data, w, 0);
        let k = find(data, w)->0;
        assert(data.subrange(k + 3, k + 13) =~= w.subrange(3, 13));
        assert(w.subrange(3, 13) =~= "_PARAMETER"@);
        assert(occurs_at(data, "_PARAMETER"@, k + 3));
    }
}

} // verus!
