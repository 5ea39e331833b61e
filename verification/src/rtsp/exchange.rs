//! What is written into a message is what is read out of it.

use vstd::prelude::*;
use vstd::utf8::{
    encode_utf8, encode_utf8_decode_utf8, is_ascii_chars, is_ascii_chars_encode_utf8,
};
use crate::rtsp::laws::{are_lines, lemma_long_ends, message_of};
use crate::rtsp::{
    add_line, add_parameter, audio_of, cea_resolution, cseq_field, declared_fault,
    declared_length, default_audio, default_video, distinct_names, field, field_lines,
    fields_from, fields_of, header_lines, is_length_line, is_parameter_name, lemma_field_index,
    lemma_field_index_at, lemma_parameter_line, lemma_parameter_names, parameter_line, parse_text,
    phrase, read_message, response_lines, size_fault, split_message, video_of, with_field, Fields,
    ParametersModel, ResponseModel, RtspMethod, MAX_BODY_SIZE, MAX_HEADER_SIZE,
    RTSP_REQUEST_ENTITY_TOO_LARGE,
};
use crate::text;
use crate::text::{as_i64, ascii_lower, ascii_upper, dec, find, is_solid, is_word, join, trim, words};

verus! {

/// Whether fields can be written on lines: their names are words without a
/// colon and differ, and their values are single lines without white space
/// around them.
pub open spec fn are_fields(hs: Fields) -> bool {
    &&& distinct_names(hs)
    &&& forall|i: int|
        0 <= i < hs.len() ==> is_word(#[trigger] hs[i].0) && !hs[i].0.contains(':') && is_solid(
            hs[i].1,
        ) && !hs[i].1.contains('\r') && !hs[i].1.contains('\n')
}

proof fn lemma_field_line(h: Fields, name: Seq<char>, value: Seq<char>)
    requires
        is_word(name),
        !name.contains(':'),
        is_solid(value),
        !value.contains('\r'),
        !value.contains('\n'),
    ensures
        add_line(h, name + ": "@ + value) == with_field(h, name, value),
        !(name + ": "@ + value).contains('\r'),
        !(name + ": "@ + value).contains('\n'),
        (name + ": "@ + value).len() > 0,
{
    let line = name + ": "@ + value;
    reveal_strlit(": ");
    assert(line =~= name.push(':') + (seq![' '] + value));
    text::lemma_split_once_at(name, ':', seq![' '] + value);
    assert(!text::is_space(name[0]) && !text::is_space(name[name.len() - 1]));
    text::lemma_trim_solid(name, ' ');
    text::lemma_trim_solid(value, ' ');
    assert forall|i: int| 0 <= i < line.len() implies line[i] != '\r' && line[i] != '\n' by {
        if i < name.len() {
            assert(line[i] == name[i]);
            assert(!text::is_space(name[i]));
        } else if i >= name.len() + 2 {
            assert(line[i] == value[i - name.len() - 2]);
            assert(value.contains(line[i]));
        }
    }
}

proof fn lemma_fields_read(hs: Fields)
    requires
        are_fields(hs),
    ensures
        fields_of(field_lines(hs)) == hs,
    decreases hs.len(),
{
    let ls = field_lines(hs);
    if hs.len() == 0 {
        assert(hs =~= Fields::empty());
    } else {
        let front = hs.drop_last();
        let f = hs.last();
        assert forall|i: int| 0 <= i < front.len() implies is_word(#[trigger] front[i].0)
            && !front[i].0.contains(':') && is_solid(front[i].1) && !front[i].1.contains('\r')
            && !front[i].1.contains('\n') by {
            assert(front[i] == hs[i]);
            assert(is_word(hs[i].0));
        }
        assert forall|i: int, j: int| 0 <= i < j < front.len() implies front[i].0 != front[j].0 by {
            assert(hs[i].0 != hs[j].0);
        }
        lemma_fields_read(front);
        assert(ls.drop_last() =~= field_lines(front));
        assert(ls.last() == f.0 + ": "@ + f.1);
        assert(is_word(hs[hs.len() - 1].0));
        lemma_field_line(front, f.0, f.1);
        lemma_field_index(front, f.0);
        assert forall|j: int| 0 <= j < front.len() implies front[j].0 != f.0 by {
            assert(hs[j].0 != hs[hs.len() - 1].0);
        }
        assert(hs =~= front.push(f));
    }
}

proof fn lemma_lines_are_lines(first: Seq<char>, hs: Fields)
    requires
        first.len() > 0,
        !first.contains('\r'),
        !first.contains('\n'),
        are_fields(hs),
    ensures
        are_lines(seq![first] + field_lines(hs)),
{
    let ls = seq![first] + field_lines(hs);
    assert forall|i: int| 0 <= i < ls.len() implies (#[trigger] ls[i]).len() > 0 && !ls[i].contains(
        '\r',
    ) && !ls[i].contains('\n') by {
        if i > 0 {
            let f = hs[i - 1];
            assert(is_word(hs[i - 1].0));
            assert(ls[i] == f.0 + ": "@ + f.1);
            lemma_field_line(hs, f.0, f.1);
        }
    }
}

/// The first line of a request.
pub open spec fn request_line(name: Seq<char>, uri: Seq<char>, version: Seq<char>) -> Seq<char> {
    name + " "@ + uri + " "@ + version
}

proof fn lemma_request_line(name: Seq<char>, uri: Seq<char>, version: Seq<char>)
    requires
        is_word(name),
        is_word(uri),
        is_word(version),
    ensures
        words(trim(request_line(name, uri, version))) == seq![name, uri, version],
        request_line(name, uri, version).len() > 0,
        !request_line(name, uri, version).contains('\r'),
        !request_line(name, uri, version).contains('\n'),
{
    let line = request_line(name, uri, version);
    let ws = seq![name, uri, version];
    reveal_strlit(" ");
    assert(ws.drop_last() =~= seq![name, uri]);
    assert(ws.drop_last().drop_last() =~= seq![name]);
    reveal_with_fuel(join, 3);
    assert(join(ws, " "@) =~= line);
    assert(is_word(ws[0]) && is_word(ws[1]) && is_word(ws[2]));
    text::lemma_words_of_join(ws);
    text::lemma_joined_words_are_solid(ws);
    text::lemma_trim_solid(line, ' ');
    assert forall|i: int| 0 <= i < line.len() implies line[i] != '\r' && line[i] != '\n' by {
        if i < name.len() {
            assert(line[i] == name[i]);
            assert(!text::is_space(name[i]));
        } else if i == name.len() {
            assert(line[i] == ' ');
        } else if i <= name.len() + uri.len() {
            assert(line[i] == uri[i - name.len() - 1]);
            assert(!text::is_space(uri[i - name.len() - 1]));
        } else if i == name.len() + uri.len() + 1 {
            assert(line[i] == ' ');
        } else {
            assert(line[i] == version[i - name.len() - uri.len() - 2]);
            assert(!text::is_space(version[i - name.len() - uri.len() - 2]));
        }
    }
}

/// A request with a known method, the version of the protocol and a number is
/// read as what it was written from: its method, its place, its number, all of
/// its fields and its body. Of a body in ASCII that is longer than declared, as
/// much as is declared is kept.
pub proof fn law_request_is_read(
    name: Seq<char>,
    uri: Seq<char>,
    version: Seq<char>,
    hs: Fields,
    n: int,
    body: Seq<char>,
)
    requires
        is_word(name),
        is_word(uri),
        is_word(version),
        RtspMethod::named(name) is Some,
        "RTSP/"@.is_prefix_of(version),
        are_fields(hs),
        field(hs, "CSeq"@) == Some(dec(n)),
        0 <= n <= i64::MAX,
        encode_utf8(join(seq![request_line(name, uri, version)] + field_lines(hs), "\r\n"@)).len()
            <= MAX_HEADER_SIZE,
        encode_utf8(body).len() <= MAX_BODY_SIZE,
    ensures
        ({
            let ls = seq![request_line(name, uri, version)] + field_lines(hs);
            let size = encode_utf8(body).len() as int;
            let length = declared_length(hs);
            parse_text(message_of(ls, "\r\n"@, body)) matches Ok(q) && {
                &&& Some(q.method) == RtspMethod::named(name)
                &&& q.uri == uri
                &&& q.version == version
                &&& q.cseq == n
                &&& q.headers == hs
                &&& q.content_length == length
                &&& length <= 0 || length >= size ==> q.body == body
                &&& 0 < length < size && is_ascii_chars(body) ==> q.body == body.take(length)
            }
        }),
{
    let first = request_line(name, uri, version);
    let ls = seq![first] + field_lines(hs);
    let t = message_of(ls, "\r\n"@, body);
    lemma_request_line(name, uri, version);
    lemma_lines_are_lines(first, hs);
    lemma_long_ends(ls, body);
    lemma_fields_read(hs);
    text::lemma_dec_read_back(n);
    reveal_strlit("\r\n");
    let h = join(ls, "\r\n"@);
    assert(t.take(h.len() as int) =~= h);
    assert(t.skip((h.len() + 4) as int) =~= body);
    assert(split_message(t) == (h, body));
    assert(ls.skip(1) =~= field_lines(hs));
    assert(ls[0] == first);
    let q = read_message(t)->Ok_0;
    assert(read_message(t) is Ok);
    assert(q.body == body);
    let size = encode_utf8(body).len() as int;
    let length = declared_length(hs);
    if length <= 0 || length >= size {
        assert(encode_utf8(body).take(size) =~= encode_utf8(body));
        encode_utf8_decode_utf8(body);
    } else if is_ascii_chars(body) {
        is_ascii_chars_encode_utf8(body);
        let part = body.take(length);
        assert(is_ascii_chars(part));
        is_ascii_chars_encode_utf8(part);
        assert(encode_utf8(part) =~= encode_utf8(body).take(length)) by {
            assert forall|i: int| 0 <= i < length implies encode_utf8(part)[i] == encode_utf8(
                body,
            ).take(length)[i] by {
                assert(part[i] == body[i]);
            }
        }
        encode_utf8_decode_utf8(part);
    }
}

/// A request with an unknown method is refused as not implemented, one of another
/// protocol and one without a number as bad.
pub proof fn law_odd_requests_are_refused(
    name: Seq<char>,
    uri: Seq<char>,
    version: Seq<char>,
    hs: Fields,
    body: Seq<char>,
)
    requires
        is_word(name),
        is_word(uri),
        is_word(version),
        are_fields(hs),
        encode_utf8(join(seq![request_line(name, uri, version)] + field_lines(hs), "\r\n"@)).len()
            <= MAX_HEADER_SIZE,
        encode_utf8(body).len() <= MAX_BODY_SIZE,
    ensures
        ({
            let ls = seq![request_line(name, uri, version)] + field_lines(hs);
            let r = parse_text(message_of(ls, "\r\n"@, body));
            &&& RtspMethod::named(name) is None ==> (r matches Err(e) && e.1 == 501)
            &&& RtspMethod::named(name) is Some && !"RTSP/"@.is_prefix_of(version) ==> (r matches
            Err(e) && e.1 == 400)
            &&& RtspMethod::named(name) is Some && "RTSP/"@.is_prefix_of(version) && cseq_field(
                hs,
            ) is None ==> (r matches Err(e) && e.1 == 400)
        }),
{
    let first = request_line(name, uri, version);
    let ls = seq![first] + field_lines(hs);
    let t = message_of(ls, "\r\n"@, body);
    lemma_request_line(name, uri, version);
    lemma_lines_are_lines(first, hs);
    lemma_long_ends(ls, body);
    lemma_fields_read(hs);
    reveal_strlit("\r\n");
    let h = join(ls, "\r\n"@);
    assert(t.take(h.len() as int) =~= h);
    assert(t.skip((h.len() + 4) as int) =~= body);
    assert(split_message(t) == (h, body));
    assert(ls.skip(1) =~= field_lines(hs));
    assert(ls[0] == first);
}

/// Each method has its own name, and a name means the same in whatever case its
/// letters are. What is none of the names means nothing.
pub proof fn law_methods_are_told_by_their_names(s: Seq<char>)
    ensures
        RtspMethod::named(s) == RtspMethod::named(ascii_upper(s)),
        ascii_upper(s) == "OPTIONS"@ <==> RtspMethod::named(s) == Some(RtspMethod::Options),
        ascii_upper(s) == "GET_PARAMETER"@ <==> RtspMethod::named(s) == Some(
            RtspMethod::GetParameter,
        ),
        ascii_upper(s) == "SET_PARAMETER"@ <==> RtspMethod::named(s) == Some(
            RtspMethod::SetParameter,
        ),
        ascii_upper(s) == "SETUP"@ <==> RtspMethod::named(s) == Some(RtspMethod::Setup),
        ascii_upper(s) == "PLAY"@ <==> RtspMethod::named(s) == Some(RtspMethod::Play),
        ascii_upper(s) == "TEARDOWN"@ <==> RtspMethod::named(s) == Some(RtspMethod::Teardown),
        ascii_upper(s) == "PAUSE"@ <==> RtspMethod::named(s) == Some(RtspMethod::Pause),
{
    let u = ascii_upper(s);
    assert(ascii_upper(u) =~= u);
    reveal_strlit("OPTIONS");
    reveal_strlit("GET_PARAMETER");
    reveal_strlit("SET_PARAMETER");
    reveal_strlit("SETUP");
    reveal_strlit("PLAY");
    reveal_strlit("TEARDOWN");
    reveal_strlit("PAUSE");
    assert("OPTIONS"@.len() == 7 && "GET_PARAMETER"@.len() == 13 && "SET_PARAMETER"@.len() == 13
        && "SETUP"@.len() == 5 && "PLAY"@.len() == 4 && "TEARDOWN"@.len() == 8 && "PAUSE"@.len()
        == 5);
    assert("GET_PARAMETER"@[0] == 'G' && "SET_PARAMETER"@[0] == 'S' && "SETUP"@[0] == 'S'
        && "PAUSE"@[0] == 'P');
}

/// Whether the names of fields leave those to the response that it writes
/// itself.
pub open spec fn leaves_own_names(hs: Fields) -> bool {
    forall|i: int|
        0 <= i < hs.len() ==> #[trigger] hs[i].0 != "CSeq"@ && hs[i].0 != "Content-Length"@
}

/// All fields of a response with those that it writes itself.
spec fn all_fields(m: ResponseModel) -> Fields {
    seq![("CSeq"@, dec(m.cseq))] + m.headers + seq![
        ("Content-Length"@, dec(encode_utf8(m.body).len() as int)),
    ]
}

/// The first line of a response.
pub open spec fn status_line(code: u16) -> Seq<char> {
    "RTSP/1.0 "@ + dec(code as int) + " "@ + phrase(code)
}

proof fn lemma_response_lines(m: ResponseModel)
    requires
        are_fields(m.headers),
        leaves_own_names(m.headers),
        i64::MIN <= m.cseq <= i64::MAX,
        encode_utf8(m.body).len() <= i64::MAX,
    ensures
        are_fields(all_fields(m)),
        join(response_lines(m), "\r\n"@) == message_of(
            seq![status_line(m.status_code)] + field_lines(all_fields(m)),
            "\r\n"@,
            m.body,
        ),
{
    let e = "\r\n"@;
    let all = all_fields(m);
    let size = encode_utf8(m.body).len() as int;
    reveal_strlit("CSeq");
    reveal_strlit("CSeq: ");
    reveal_strlit("Content-Length");
    reveal_strlit("Content-Length: ");
    reveal_strlit("Content-Length: 0");
    reveal_strlit(": ");
    text::lemma_dec_read_back(m.cseq);
    text::lemma_dec_read_back(size);
    lemma_dec_solid(m.cseq);
    lemma_dec_solid(size);
    assert(is_word("CSeq"@) && !"CSeq"@.contains(':'));
    assert(is_word("Content-Length"@) && !"Content-Length"@.contains(':'));
    let k = m.headers.len() as int;
    assert forall|i: int| 0 <= i < all.len() implies is_word(#[trigger] all[i].0)
        && !all[i].0.contains(':') && is_solid(all[i].1) && !all[i].1.contains('\r')
        && !all[i].1.contains('\n') by {
        if 0 < i <= k {
            assert(all[i] == m.headers[i - 1]);
            assert(is_word(m.headers[i - 1].0));
        }
    }
    assert("CSeq"@.len() == 4 && "Content-Length"@.len() == 14);
    assert forall|i: int, j: int| 0 <= i < j < all.len() implies all[i].0 != all[j].0 by {
        if i > 0 && j <= k {
            assert(all[i] == m.headers[i - 1] && all[j] == m.headers[j - 1]);
        } else if j <= k {
            assert(all[j] == m.headers[j - 1]);
            assert(m.headers[j - 1].0 != "CSeq"@);
        } else if i > 0 {
            assert(all[i] == m.headers[i - 1]);
            assert(m.headers[i - 1].0 != "Content-Length"@);
        }
    }
    let head = seq![status_line(m.status_code)] + field_lines(all);
    let none = Seq::<char>::empty();
    let ls = response_lines(m);
    if m.body.len() == 0 {
        assert(m.body =~= none);
        assert(encode_utf8(none).len() == 0);
        assert(size == 0);
        assert(dec(0) =~= seq!['0']);
    }
    assert(ls =~= head + seq![none, m.body]) by {
        assert forall|i: int| 0 <= i < ls.len() implies ls[i] == (head + seq![none, m.body])[i] by {
            if i == 1 {
                assert(head[1] == "CSeq"@ + ": "@ + dec(m.cseq));
                assert("CSeq"@ + ": "@ =~= "CSeq: "@);
            } else if 2 <= i < 2 + k {
                assert(head[i] == m.headers[i - 2].0 + ": "@ + m.headers[i - 2].1);
            } else if i == 2 + k {
                assert(head[i] == "Content-Length"@ + ": "@ + dec(size));
                assert("Content-Length"@ + ": "@ =~= "Content-Length: "@);
                if m.body.len() == 0 {
                    assert("Content-Length: "@ + dec(0) =~= "Content-Length: 0"@);
                }
            }
        }
    }
    let most = ls.drop_last();
    assert(most.drop_last() =~= head);
    assert(join(ls, e) == join(most, e) + e + m.body);
    assert(join(most, e) == join(head, e) + e + none);
    assert(join(ls, e) =~= join(head, e) + (e + e) + m.body);
}

proof fn lemma_dec_solid(n: int)
    requires
        i64::MIN <= n <= i64::MAX,
    ensures
        is_solid(dec(n)),
        !dec(n).contains('\r'),
        !dec(n).contains('\n'),
{
    text::lemma_dec_read_back(n);
    let d = dec(n);
    assert(!text::is_space(d[0]) && !text::is_space(d[d.len() - 1]));
    assert forall|i: int| 0 <= i < d.len() implies d[i] != '\r' && d[i] != '\n' by {
        assert(!text::is_space(d[i]));
    }
}

proof fn lemma_phrase_is_plain(code: u16)
    ensures
        is_solid(phrase(code)),
        !phrase(code).contains('\r'),
        !phrase(code).contains('\n'),
{
    reveal_strlit("OK");
    reveal_strlit("Bad Request");
    reveal_strlit("Not Found");
    reveal_strlit("Method Not Allowed");
    reveal_strlit("Request Entity Too Large");
    reveal_strlit("Parameter Not Understood");
    reveal_strlit("Internal Server Error");
    reveal_strlit("Not Implemented");
    reveal_strlit("Unknown");
}

/// Whoever reads a response finds its status on the first line, its number, all
/// of its fields and the size of its body among the fields, and behind the first
/// empty line its body.
pub proof fn law_response_is_read(m: ResponseModel)
    requires
        are_fields(m.headers),
        leaves_own_names(m.headers),
        i64::MIN <= m.cseq <= i64::MAX,
        encode_utf8(m.body).len() <= i64::MAX,
    ensures
        ({
            let t = join(response_lines(m), "\r\n"@);
            let ls = header_lines(split_message(t).0);
            let hs = fields_of(ls.skip(1));
            &&& ("RTSP/1.0 "@ + dec(m.status_code as int) + " "@).is_prefix_of(ls[0])
            &&& field(hs, "CSeq"@) matches Some(v) && as_i64(v) == Some(m.cseq)
            &&& field(hs, "Content-Length"@) matches Some(v) && as_i64(v) == Some(
                encode_utf8(m.body).len() as int,
            )
            &&& forall|i: int|
                0 <= i < m.headers.len() ==> field(hs, #[trigger] m.headers[i].0) == Some(
                    m.headers[i].1,
                )
            &&& split_message(t).1 == m.body
        }),
{
    let t = join(response_lines(m), "\r\n"@);
    let first = status_line(m.status_code);
    let all = all_fields(m);
    let ls = seq![first] + field_lines(all);
    reveal_strlit("RTSP/1.0 ");
    reveal_strlit(" ");
    reveal_strlit("\r\n");
    lemma_response_lines(m);
    lemma_dec_solid(m.status_code as int);
    lemma_phrase_is_plain(m.status_code);
    let d = dec(m.status_code as int);
    let p = phrase(m.status_code);
    assert forall|i: int| 0 <= i < first.len() implies first[i] != '\r' && first[i] != '\n' by {
        if i < 9 {
            assert(first[i] == "RTSP/1.0 "@[i]);
        } else if i < 9 + d.len() {
            assert(first[i] == d[i - 9]);
            assert(d.contains(first[i]));
        } else if i == 9 + d.len() {
            assert(first[i] == ' ');
        } else {
            assert(first[i] == p[i - 10 - d.len()]);
            assert(p.contains(first[i]));
        }
    }
    lemma_lines_are_lines(first, all);
    lemma_long_ends(ls, m.body);
    lemma_fields_read(all);
    let h = join(ls, "\r\n"@);
    assert(t.take(h.len() as int) =~= h);
    assert(t.skip((h.len() + 4) as int) =~= m.body);
    assert(split_message(t) == (h, m.body));
    assert(ls.skip(1) =~= field_lines(all));
    let head = "RTSP/1.0 "@ + d + " "@;
    assert(first.take(head.len() as int) =~= head);
    text::lemma_dec_read_back(m.cseq);
    text::lemma_dec_read_back(encode_utf8(m.body).len() as int);
    lemma_field_index_at(all, "CSeq"@, 0);
    let k = m.headers.len() as int;
    assert(all[k + 1].0 == "Content-Length"@);
    assert forall|j: int| 0 <= j < k + 1 implies all[j].0 != "Content-Length"@ by {
        assert(all[j].0 != all[k + 1].0);
    }
    lemma_field_index_at(all, "Content-Length"@, k + 1);
    assert forall|i: int| 0 <= i < m.headers.len() implies field(
        all,
        #[trigger] m.headers[i].0,
    ) == Some(m.headers[i].1) by {
        assert(all[i + 1] == m.headers[i]);
        assert forall|j: int| 0 <= j < i + 1 implies all[j].0 != m.headers[i].0 by {
            assert(all[j].0 != all[i + 1].0);
        }
        lemma_field_index_at(all, m.headers[i].0, i + 1);
    }
}

/// The length that a message declares is the number in its field, under any of
/// the ways in which the name of that field is written.
pub proof fn law_declared_length_is_read(hs: Fields, n: int)
    requires
        i64::MIN <= n <= i64::MAX,
    ensures
        field(hs, "Content-Length"@) == Some(dec(n)) ==> declared_length(hs) == n,
        field(hs, "Content-Length"@) is None && field(hs, "content-length"@) == Some(dec(n))
            ==> declared_length(hs) == n,
        field(hs, "Content-Length"@) is None && field(hs, "content-length"@) is None && field(
            hs,
            "Content-length"@,
        ) == Some(dec(n)) ==> declared_length(hs) == n,
        field(hs, "Content-Length"@) is None && field(hs, "content-length"@) is None && field(
            hs,
            "Content-length"@,
        ) is None ==> declared_length(hs) == 0,
{
    text::lemma_dec_read_back(n);
}

/// Every status that the sink gives has its own phrase.
pub proof fn law_status_has_its_phrase(code: u16)
    ensures
        code == 200 <==> phrase(code) == "OK"@,
        code == 400 <==> phrase(code) == "Bad Request"@,
        code == 404 <==> phrase(code) == "Not Found"@,
        code == 405 <==> phrase(code) == "Method Not Allowed"@,
        code == 413 <==> phrase(code) == "Request Entity Too Large"@,
        code == 451 <==> phrase(code) == "Parameter Not Understood"@,
        code == 500 <==> phrase(code) == "Internal Server Error"@,
        code == 501 <==> phrase(code) == "Not Implemented"@,
{
    reveal_strlit("OK");
    reveal_strlit("Bad Request");
    reveal_strlit("Not Found");
    reveal_strlit("Method Not Allowed");
    reveal_strlit("Request Entity Too Large");
    reveal_strlit("Parameter Not Understood");
    reveal_strlit("Internal Server Error");
    reveal_strlit("Not Implemented");
    reveal_strlit("Unknown");
    assert("OK"@.len() == 2 && "Bad Request"@.len() == 11 && "Not Found"@.len() == 9
        && "Method Not Allowed"@.len() == 18 && "Request Entity Too Large"@.len() == 24
        && "Parameter Not Understood"@.len() == 24 && "Internal Server Error"@.len() == 21
        && "Not Implemented"@.len() == 15 && "Unknown"@.len() == 7);
    assert("Request Entity Too Large"@[0] == 'R' && "Parameter Not Understood"@[0] == 'P');
}

/// Fields with different names are written in the order in which they are given.
pub proof fn law_fields_keep_their_order(hs: Seq<(&str, &str)>)
    requires
        forall|i: int, j: int| 0 <= i < j < hs.len() ==> hs[i].0@ != hs[j].0@,
    ensures
        fields_from(hs).len() == hs.len(),
        forall|i: int| 0 <= i < hs.len() ==> #[trigger] fields_from(hs)[i] == (hs[i].0@, hs[i].1@),
    decreases hs.len(),
{
    if hs.len() > 0 {
        let front = hs.drop_last();
        assert forall|i: int, j: int| 0 <= i < j < front.len() implies front[i].0@ != front[j].0@ by {
            assert(hs[i].0@ != hs[j].0@);
        }
        law_fields_keep_their_order(front);
        let f = fields_from(front);
        let name = hs.last().0@;
        lemma_field_index(f, name);
        assert forall|j: int| 0 <= j < f.len() implies f[j].0 != name by {
            assert(f[j] == (front[j].0@, front[j].1@));
            assert(hs[j].0@ != hs[hs.len() - 1].0@);
        }
        assert(fields_from(hs) == f.push((name, hs.last().1@)));
        assert forall|i: int| 0 <= i < hs.len() implies #[trigger] fields_from(hs)[i] == (
            hs[i].0@,
            hs[i].1@,
        ) by {
            if i < front.len() {
                assert(f[i] == (front[i].0@, front[i].1@));
            }
        }
    }
}

/// A message passes the check of its size exactly if its header block is at most
/// 8192 bytes and what follows at most 65536; without an empty line all of it
/// counts as header block.
pub proof fn law_sizes_are_limited(data: Seq<u8>)
    ensures
        size_fault(data) is None <==> match find(data, seq![13u8, 10, 13, 10]) {
            Some(k) => k <= 8192 && data.len() - k - 4 <= 65536 && data.len() <= 73728,
            None => data.len() <= 8192,
        },
        size_fault(data) matches Some(f) ==> f.1 == 413,
{
}

/// The pixels of a resolution.
pub open spec fn pixels(r: (u32, u32)) -> int {
    r.0 * r.1
}

/// The resolution that a bit of a bitmap of formats stands for.
pub open spec fn bit_resolution(k: int) -> (u32, u32) {
    if k == 0 {
        (640, 480)
    } else if k <= 2 {
        (720, 480)
    } else if k <= 4 {
        (720, 576)
    } else if k <= 6 {
        (1280, 720)
    } else {
        (1920, 1080)
    }
}

/// Of the formats that a bitmap names the one with the most pixels is taken: it
/// is named, and none that is named has more.
pub proof fn law_highest_resolution_is_taken(bitmap: u32)
    requires
        bitmap & 1 != 0 || bitmap & 2 != 0 || bitmap & 4 != 0 || bitmap & 8 != 0 || bitmap & 16 != 0
            || bitmap & 32 != 0 || bitmap & 64 != 0 || bitmap & 128 != 0 || bitmap & 256 != 0,
    ensures
        ({
            let r = cea_resolution(bitmap);
            &&& bitmap & 1 != 0 ==> pixels(r) >= pixels(bit_resolution(0))
            &&& bitmap & 2 != 0 ==> pixels(r) >= pixels(bit_resolution(1))
            &&& bitmap & 4 != 0 ==> pixels(r) >= pixels(bit_resolution(2))
            &&& bitmap & 8 != 0 ==> pixels(r) >= pixels(bit_resolution(3))
            &&& bitmap & 16 != 0 ==> pixels(r) >= pixels(bit_resolution(4))
            &&& bitmap & 32 != 0 ==> pixels(r) >= pixels(bit_resolution(5))
            &&& bitmap & 64 != 0 ==> pixels(r) >= pixels(bit_resolution(6))
            &&& bitmap & 128 != 0 ==> pixels(r) >= pixels(bit_resolution(7))
            &&& bitmap & 256 != 0 ==> pixels(r) >= pixels(bit_resolution(8))
            &&& (bitmap & 1 != 0 && r == bit_resolution(0)) || (bitmap & 2 != 0 && r
                == bit_resolution(1)) || (bitmap & 4 != 0 && r == bit_resolution(2)) || (bitmap & 8
                != 0 && r == bit_resolution(3)) || (bitmap & 16 != 0 && r == bit_resolution(4)) || (
            bitmap & 32 != 0 && r == bit_resolution(5)) || (bitmap & 64 != 0 && r
                == bit_resolution(6)) || (bitmap & 128 != 0 && r == bit_resolution(7)) || (bitmap
                & 256 != 0 && r == bit_resolution(8))
        }),
{
}

/// The line of a parameter sets that parameter, in whatever case its name is
/// written, and leaves the others as they are.
pub proof fn law_parameter_line_sets_its_parameter(m: ParametersModel, value: Seq<char>)
    requires
        is_solid(value),
        !value.contains('\n'),
    ensures
        ({
            let u = add_parameter(m, "wfd_presentation_url: "@ + value);
            &&& u.presentation_url == value
            &&& u.client_rtp_ports == m.client_rtp_ports && u.content_protection
                == m.content_protection && u.rtp_port == m.rtp_port && u.resolution == m.resolution
                && u.audio_codec == m.audio_codec && u.video_codec == m.video_codec
        }),
        ({
            let p = add_parameter(m, "wfd_content_protection: "@ + value);
            &&& p.content_protection == value
            &&& p.presentation_url == m.presentation_url && p.rtp_port == m.rtp_port
                && p.resolution == m.resolution && p.audio_codec == m.audio_codec
        }),
{
    lemma_parameter_names();
    reveal_strlit("wfd_presentation_url");
    reveal_strlit("wfd_presentation_url: ");
    reveal_strlit("wfd_content_protection");
    reveal_strlit("wfd_content_protection: ");
    reveal_strlit("wfd_video_formats");
    reveal_strlit("wfd_audio_codecs");
    reveal_strlit(": ");
    let a = "wfd_presentation_url"@;
    let b = "wfd_content_protection"@;
    assert(ascii_lower(a) =~= a);
    assert(is_parameter_name(a));
    lemma_parameter_line(m, a, value);
    lemma_parameter_line(m, b, value);
    assert("wfd_presentation_url: "@ + value =~= parameter_line(a, value));
    assert("wfd_content_protection: "@ + value =~= parameter_line(b, value));
    assert(a.len() == 20 && "wfd_video_formats"@.len() == 17 && "wfd_audio_codecs"@.len() == 16);
}

/// What a value of formats or of a codec leaves out is the default.
pub proof fn law_what_is_left_out_is_the_default(value: Seq<char>)
    requires
        words(value).len() == 0,
    ensures
        video_of(value) == default_video(),
        audio_of(value) == default_audio(),
{
}

/// The first length that a message declares decides: one up to the limit is
/// accepted, a larger one is too large, and a negative one is no length.
pub proof fn law_declared_length_is_checked(ls: Seq<Seq<char>>, k: int, n: int)
    requires
        0 <= k < ls.len(),
        ls[k] == "Content-Length: "@ + dec(n),
        i64::MIN <= n <= i64::MAX,
        forall|j: int| 0 <= j < k ==> !is_length_line(#[trigger] ls[j]),
    ensures
        0 <= n <= 65536 ==> declared_fault(ls) is None,
        n > 65536 ==> (declared_fault(ls) matches Some(f) && f.1 == RTSP_REQUEST_ENTITY_TOO_LARGE),
        n < 0 ==> declared_fault(ls) is Some,
    decreases k,
{
    if k == 0 {
        let line = ls[0];
        reveal_strlit("Content-Length: ");
        reveal_strlit("Content-Length");
        reveal_strlit("content-length:");
        text::lemma_dec_read_back(n);
        lemma_dec_solid(n);
        assert(line =~= "Content-Length"@.push(':') + (seq![' '] + dec(n)));
        assert(!"Content-Length"@.contains(':'));
        text::lemma_split_once_at("Content-Length"@, ':', seq![' '] + dec(n));
        text::lemma_trim_solid(dec(n), ' ');
        assert(ascii_lower(line).take(15) =~= "content-length:"@);
    } else {
        let rest = ls.skip(1);
        assert(!is_length_line(ls[0]));
        assert forall|j: int| 0 <= j < k - 1 implies !is_length_line(#[trigger] rest[j]) by {
            assert(rest[j] == ls[j + 1]);
        }
        law_declared_length_is_checked(rest, k - 1, n);
    }
}

} // verus!
