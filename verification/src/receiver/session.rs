//! The RTSP session. The sink connects to the source and both sides exchange
//! seven messages, M1 to M7; then the stream runs until the source ends it.

pub mod laws;

use vstd::prelude::*;
use vstd::slice::slice_subrange;
use vstd::utf8::{decode_utf8, encode_utf8, is_ascii_chars, valid_utf8};
use crate::outside::{from_utf8_lossy, to_lowercase, unicode_lower, utf8_lossy};
use crate::receiver::session::laws::accepts;
use crate::rtsp::{blank_line, find_subslice, options_request, video_text, video_up_to, WfdVideoFormat};
use crate::text;
use crate::text::{
    as_i64, as_unsigned, ascii_lower, contains, dec, find, split_char, split_on, split_once, texts, trim, words,
};

verus! {

/// The size of the receive buffer.
pub const RTSP_BUFFER_SIZE: usize = 16384;

/// The value of a header line of the given name, where the lower case form of
/// the line shows that it has this name.
pub open spec fn value_of_line(line: Seq<char>, lowered: Seq<char>, name: Seq<char>) -> Option<
    Seq<char>,
> {
    if name.is_prefix_of(lowered) {
        match split_once(line, ':') {
            Some(kv) => Some(trim(kv.1)),
            None => None,
        }
    } else {
        None
    }
}

/// Reads the value of a header line, given the line in lower case.
pub fn line_value(line: &str, lowered: &str, name: &str) -> (r: Option<String>)
    ensures
        match r {
            Some(v) => value_of_line(line@, lowered@, name@) == Some(v@),
            None => value_of_line(line@, lowered@, name@) is None,
        },
{
    let low: Vec<char> = text::chars_of(lowered);
    if text::begins_with(low.as_slice(), name) {
        let all: Vec<char> = text::chars_of(line);
        match text::cut_once(all.as_slice(), ':') {
            Some((_, v)) => Some(text::string_of(text::trimmed(v))),
            None => None,
        }
    } else {
        None
    }
}

/// The value of a header line of the given name.
pub open spec fn named_value(line: Seq<char>, name: Seq<char>) -> Option<Seq<char>> {
    value_of_line(line, unicode_lower(line), name)
}

/// Whether a line is ASCII and begins with the given name, in whatever case.
pub open spec fn is_named(line: Seq<char>, name: Seq<char>) -> bool {
    is_ascii_chars(line) && name.is_prefix_of(ascii_lower(line))
}

/// Whether a line is ASCII and does not begin with the given name, in whatever
/// case.
pub open spec fn is_unnamed(line: Seq<char>, name: Seq<char>) -> bool {
    is_ascii_chars(line) && !name.is_prefix_of(ascii_lower(line))
}

/// Whether the line at a place is the first with the given name. The lines up to
/// it are ASCII.
pub open spec fn is_first_named(lines: Seq<Seq<char>>, name: Seq<char>, k: int) -> bool {
    &&& 0 <= k < lines.len()
    &&& is_named(lines[k], name)
    &&& forall|j: int| 0 <= j < k ==> is_unnamed(#[trigger] lines[j], name)
}

/// Whether lines show a sequence number: the first `CSeq` line has it.
pub open spec fn shows_number(lines: Seq<Seq<char>>, k: int, n: int) -> bool {
    &&& is_first_named(lines, "cseq:"@, k)
    &&& split_once(lines[k], ':') matches Some(kv) && as_i64(trim(kv.1)) == Some(n)
}

/// Whether lines show a session: the first `Session` line has it before its
/// parameters.
pub open spec fn shows_session(lines: Seq<Seq<char>>, k: int, id: Seq<char>) -> bool {
    &&& is_first_named(lines, "session:"@, k)
    &&& split_once(lines[k], ':') matches Some(kv) && trim(split_char(trim(kv.1), ';')[0]) == id
}

/// Whether lines show the length of a body: the first `Content-Length` line has
/// it.
pub open spec fn shows_length(lines: Seq<Seq<char>>, k: int, n: int) -> bool {
    &&& is_first_named(lines, "content-length:"@, k)
    &&& split_once(lines[k], ':') matches Some(kv) && as_unsigned(trim(kv.1), 10, u64::MAX as int)
        == Some(n)
}

/// Whether lines show the port of the server: the first `Transport` line has it
/// as its first parameter of that name.
pub open spec fn shows_server_port(lines: Seq<Seq<char>>, k: int, i: int, port: Seq<char>) -> bool {
    let parts = split_char(lines[k], ';');
    &&& is_first_named(lines, "transport:"@, k)
    &&& 0 <= i < parts.len()
    &&& parts[i] == "server_port="@ + port
    &&& trim(port) == port
    &&& forall|j: int| 0 <= j < i ==> !contains(#[trigger] parts[j], "server_port="@)
}

fn take_named(line: &Vec<char>, name: &str) -> (r: Option<String>)
    ensures
        match r {
            Some(v) => named_value(line@, name@) == Some(v@),
            None => named_value(line@, name@) is None,
        },
        is_named(line@, name@) ==> match r {
            Some(v) => split_once(line@, ':') matches Some(kv) && v@ == trim(kv.1),
            None => split_once(line@, ':') is None,
        },
        is_unnamed(line@, name@) ==> r is None,
{
    let whole: String = text::string_of(line.as_slice());
    let lowered: String = to_lowercase(whole.as_str());
    line_value(whole.as_str(), lowered.as_str(), name)
}

/// The lines of a message.
pub open spec fn message_lines(data: Seq<char>) -> Seq<Seq<char>> {
    split_on(data, "\r\n"@)
}

fn lines_of_message(data: &str) -> (r: Vec<Vec<char>>)
    ensures
        texts(r@) == message_lines(data@),
        r@.len() >= 1,
{
    proof {
        reveal_strlit("\r\n");
    }
    let all: Vec<char> = text::chars_of(data);
    text::pieces_on(all.as_slice(), "\r\n")
}

/// The sequence number that the lines give: the first that can be read, or zero.
pub open spec fn cseq_in(lines: Seq<Seq<char>>) -> int
    decreases lines.len(),
{
    if lines.len() == 0 {
        0
    } else {
        match named_value(lines[0], "cseq:"@) {
            Some(v) => match as_i64(v) {
                Some(n) => n,
                None => cseq_in(lines.skip(1)),
            },
            None => cseq_in(lines.skip(1)),
        }
    }
}

/// Reads the sequence number of a message; zero where it has none.
pub fn parse_cseq(data: &str) -> (r: i64)
    ensures
        r == cseq_in(message_lines(data@)),
        forall|k: int, n: int| #[trigger] shows_number(message_lines(data@), k, n) ==> r == n,
{
    let lines: Vec<Vec<char>> = lines_of_message(data);
    let ghost ls = texts(lines@);
    let mut i: usize = 0;
    assert(ls.skip(0) =~= ls);
    while i < lines.len()
        invariant
            i <= lines@.len(),
            ls == texts(lines@),
            cseq_in(ls) == cseq_in(ls.skip(i as int)),
            ls == message_lines(data@),
            forall|k: int, n: int| #[trigger] shows_number(ls, k, n) ==> i <= k,
        decreases lines.len() - i,
    {
        assert(ls.skip(i as int)[0] == lines@[i as int]@);
        assert(ls.skip(i as int).skip(1) =~= ls.skip(i + 1));
        if let Some(v) = take_named(&lines[i], "cseq:") {
            let value: Vec<char> = text::chars_of(v.as_str());
            if let Some(n) = text::read_i64(value.as_slice()) {
                return n;
            }
        }
        i += 1;
    }
    0
}

/// The session identifier that the lines give: that of the first `Session`
/// line without its parameters, or `0`.
pub open spec fn session_in(lines: Seq<Seq<char>>) -> Seq<char>
    decreases lines.len(),
{
    if lines.len() == 0 {
        "0"@
    } else {
        match named_value(lines[0], "session:"@) {
            Some(v) => trim(split_char(v, ';')[0]),
            None => session_in(lines.skip(1)),
        }
    }
}

/// Reads the session identifier of a message.
pub fn parse_session_id(data: &str) -> (r: String)
    ensures
        r@ == session_in(message_lines(data@)),
        forall|k: int, id: Seq<char>| #[trigger]
            shows_session(message_lines(data@), k, id) ==> r@ == id,
{
    let lines: Vec<Vec<char>> = lines_of_message(data);
    let ghost ls = texts(lines@);
    let mut i: usize = 0;
    assert(ls.skip(0) =~= ls);
    while i < lines.len()
        invariant
            i <= lines@.len(),
            ls == texts(lines@),
            session_in(ls) == session_in(ls.skip(i as int)),
            ls == message_lines(data@),
            forall|k: int, id: Seq<char>| #[trigger] shows_session(ls, k, id) ==> i <= k,
        decreases lines.len() - i,
    {
        assert(ls.skip(i as int)[0] == lines@[i as int]@);
        assert(ls.skip(i as int).skip(1) =~= ls.skip(i + 1));
        if let Some(v) = take_named(&lines[i], "session:") {
            let value: Vec<char> = text::chars_of(v.as_str());
            let parts: Vec<Vec<char>> = text::pieces(value.as_slice(), ';');
            assert(texts(parts@)[0] == parts@[0]@);
            return text::string_of(text::trimmed(parts[0].as_slice()));
        }
        i += 1;
    }
    "0".to_owned()
}

/// The port that one of the parts names as the server's.
pub open spec fn port_in_parts(parts: Seq<Seq<char>>) -> Option<Seq<char>>
    decreases parts.len(),
{
    if parts.len() == 0 {
        None
    } else {
        match split_once(parts[0], '=') {
            Some(kv) if contains(parts[0], "server_port="@) => Some(trim(kv.1)),
            _ => port_in_parts(parts.skip(1)),
        }
    }
}

/// The server port that the `Transport` lines give, or nothing.
pub open spec fn server_port_in(lines: Seq<Seq<char>>) -> Seq<char>
    decreases lines.len(),
{
    if lines.len() == 0 {
        Seq::empty()
    } else if "transport:"@.is_prefix_of(unicode_lower(lines[0])) && port_in_parts(
        split_char(lines[0], ';'),
    ) is Some {
        port_in_parts(split_char(lines[0], ';'))->0
    } else {
        server_port_in(lines.skip(1))
    }
}

fn find_port(line: &Vec<char>) -> (r: Option<String>)
    ensures
        match r {
            Some(v) => port_in_parts(split_char(line@, ';')) == Some(v@),
            None => port_in_parts(split_char(line@, ';')) is None,
        },
{
    let parts: Vec<Vec<char>> = text::pieces(line.as_slice(), ';');
    let ghost ps = texts(parts@);
    let mut i: usize = 0;
    assert(ps.skip(0) =~= ps);
    while i < parts.len()
        invariant
            i <= parts@.len(),
            ps == texts(parts@),
            port_in_parts(ps) == port_in_parts(ps.skip(i as int)),
            ps == split_char(line@, ';'),
        decreases parts.len() - i,
    {
        let part: &[char] = parts[i].as_slice();
        assert(ps.skip(i as int)[0] == part@);
        assert(ps.skip(i as int).skip(1) =~= ps.skip(i + 1));
        if text::holds(part, "server_port=") {
            if let Some((_, v)) = text::cut_once(part, '=') {
                return Some(text::string_of(text::trimmed(v)));
            }
        }
        i += 1;
    }
    None
}

proof fn lemma_port_in_parts(parts: Seq<Seq<char>>, i: int, port: Seq<char>)
    requires
        0 <= i < parts.len(),
        parts[i] == "server_port="@ + port,
        trim(port) == port,
        forall|j: int| 0 <= j < i ==> !contains(#[trigger] parts[j], "server_port="@),
    ensures
        port_in_parts(parts) == Some(port),
    decreases i,
{
    if i == 0 {
        reveal_strlit("server_port=");
        reveal_strlit("server_port");
        let name = "server_port"@;
        assert(parts[0] =~= name.push('=') + port);
        text::lemma_split_once_at(name, '=', port);
        assert(parts[0].subrange(0, 12) =~= "server_port="@);
        text::lemma_find_at(parts[0], "server_port="@, 0);
    } else {
        let rest = parts.skip(1);
        assert(!contains(parts[0], "server_port="@));
        assert forall|j: int| 0 <= j < i - 1 implies !contains(
            #[trigger] rest[j],
            "server_port="@,
        ) by {
            assert(rest[j] == parts[j + 1]);
        }
        lemma_port_in_parts(rest, i - 1, port);
    }
}

/// Reads the server port of a message.
pub fn parse_server_port(data: &str) -> (r: String)
    ensures
        r@ == server_port_in(message_lines(data@)),
        forall|k: int, i: int, port: Seq<char>| #[trigger]
            shows_server_port(message_lines(data@), k, i, port) ==> r@ == port,
{
    let lines: Vec<Vec<char>> = lines_of_message(data);
    let ghost ls = texts(lines@);
    let mut i: usize = 0;
    assert(ls.skip(0) =~= ls);
    while i < lines.len()
        invariant
            i <= lines@.len(),
            ls == texts(lines@),
            server_port_in(ls) == server_port_in(ls.skip(i as int)),
            ls == message_lines(data@),
            forall|k: int, j: int, port: Seq<char>| #[trigger]
                shows_server_port(ls, k, j, port) ==> i <= k,
        decreases lines.len() - i,
    {
        proof {
            assert forall|j: int, port: Seq<char>| #[trigger]
                shows_server_port(ls, i as int, j, port) implies port_in_parts(
                split_char(ls[i as int], ';'),
            ) == Some(port) by {
                lemma_port_in_parts(split_char(ls[i as int], ';'), j, port);
            }
        }
        assert(ls.skip(i as int)[0] == lines@[i as int]@);
        assert(ls.skip(i as int).skip(1) =~= ls.skip(i + 1));
        let whole: String = text::string_of(lines[i].as_slice());
        let lowered: String = to_lowercase(whole.as_str());
        let low: Vec<char> = text::chars_of(lowered.as_str());
        if text::begins_with(low.as_slice(), "transport:") {
            if let Some(p) = find_port(&lines[i]) {
                return p;
            }
        }
        i += 1;
    }
    String::new()
}

/// The body length that the first `Content-Length` line gives; zero where it
/// cannot be read or there is none.
pub open spec fn content_length_in(lines: Seq<Seq<char>>) -> int
    decreases lines.len(),
{
    if lines.len() == 0 {
        0
    } else if "content-length:"@.is_prefix_of(unicode_lower(lines[0])) {
        match split_once(lines[0], ':') {
            Some(kv) => match as_unsigned(trim(kv.1), 10, u64::MAX as int) {
                Some(n) => n,
                None => 0,
            },
            None => 0,
        }
    } else {
        content_length_in(lines.skip(1))
    }
}

/// Reads the body length that a message declares.
pub fn parse_content_length(data: &str) -> (r: u64)
    ensures
        r == content_length_in(message_lines(data@)),
        forall|k: int, n: int| #[trigger] shows_length(message_lines(data@), k, n) ==> r == n,
{
    let lines: Vec<Vec<char>> = lines_of_message(data);
    let ghost ls = texts(lines@);
    let mut i: usize = 0;
    assert(ls.skip(0) =~= ls);
    while i < lines.len()
        invariant
            i <= lines@.len(),
            ls == texts(lines@),
            content_length_in(ls) == content_length_in(ls.skip(i as int)),
            ls == message_lines(data@),
            forall|k: int, n: int| #[trigger] shows_length(ls, k, n) ==> i <= k,
        decreases lines.len() - i,
    {
        assert(ls.skip(i as int)[0] == lines@[i as int]@);
        assert(ls.skip(i as int).skip(1) =~= ls.skip(i + 1));
        let whole: String = text::string_of(lines[i].as_slice());
        let lowered: String = to_lowercase(whole.as_str());
        let low: Vec<char> = text::chars_of(lowered.as_str());
        if text::begins_with(low.as_slice(), "content-length:") {
            return match text::cut_once(lines[i].as_slice(), ':') {
                Some((_, v)) => match text::read_unsigned(text::trimmed(v), 10, u64::MAX) {
                    Some(n) => n,
                    None => 0,
                },
                None => 0,
            };
        }
        i += 1;
    }
    0
}

/// Where the body of a message begins and how long it is declared to be.
#[derive(Debug, Clone, Copy, PartialEq, Eq, Structural)]
pub struct Frame {
    pub body_start: usize,
    pub content_length: u64,
}

/// What the first bytes of a message, read as the given text, say of its body;
/// nothing where no body is declared or the header block has not ended.
pub open spec fn frame_of(first: Seq<u8>, t: Seq<char>) -> Option<Frame> {
    let n = content_length_in(message_lines(t));
    match find(first, blank_line()) {
        Some(k) if n > 0 => Some(
            Frame { body_start: (k + 4) as usize, content_length: n as u64 },
        ),
        _ => None,
    }
}

impl Frame {
    /// Judges the first bytes of a message.
    pub fn of(first: &[u8]) -> (r: Option<Frame>)
        ensures
            r == frame_of(first@, utf8_lossy(first@)),
            r matches Some(f) ==> f.body_start <= first@.len(),
            valid_utf8(first@) ==> forall|k: int, n: int| #[trigger]
                shows_length(message_lines(decode_utf8(first@)), k, n) ==> match find(
                    first@,
                    blank_line(),
                ) {
                    Some(e) if n > 0 => r matches Some(f) && f.body_start == e + 4
                        && f.content_length == n,
                    _ => r is None,
                },
    {
        let t: String = from_utf8_lossy(first);
        let n: u64 = parse_content_length(t.as_str());
        let needle: [u8; 4] = [13, 10, 13, 10];
        assert(needle@ =~= blank_line());
        let total: usize = first.len();
        match find_subslice(first, needle.as_slice()) {
            Some(k) => if n > 0 {
                Some(Frame { body_start: k + 4, content_length: n })
            } else {
                None
            },
            None => None,
        }
    }

    /// The number of bytes to ask for next when `have` bytes of the message are
    /// there: what is missing, at most one buffer full.
    pub fn next_read(&self, have: usize) -> (r: usize)
        ensures
            r == {
                let body = if have >= self.body_start {
                    have - self.body_start
                } else {
                    0
                };
                if body >= self.content_length {
                    0
                } else if self.content_length - body > RTSP_BUFFER_SIZE {
                    RTSP_BUFFER_SIZE as int
                } else {
                    self.content_length - body
                }
            },
            have >= self.body_start && r > 0 ==> have + r <= self.body_start + self.content_length,
            have >= self.body_start ==> (r == 0 <==> have >= self.body_start + self.content_length),
            r <= RTSP_BUFFER_SIZE,
    {
        let body: u64 = if have >= self.body_start {
            (have - self.body_start) as u64
        } else {
            0
        };
        if body >= self.content_length {
            0
        } else if self.content_length - body > RTSP_BUFFER_SIZE as u64 {
            RTSP_BUFFER_SIZE
        } else {
            (self.content_length - body) as usize
        }
    }
}

/// The plain answer to a request of the source.
pub open spec fn ok_reply(cseq: int) -> Seq<char> {
    "RTSP/1.0 200 OK\r\nCSeq: "@ + dec(cseq) + "\r\n\r\n"@
}

fn ok_text(cseq: i64) -> (r: String)
    ensures
        r@ == ok_reply(cseq as int),
{
    let mut out: String = text::joined(
        "RTSP/1.0 200 OK\r\nCSeq: ".to_owned(),
        text::dec_i64(cseq).as_str(),
    );
    out.append("\r\n\r\n");
    out
}

/// What the sink can do, as it answers a query. The capability to ask for a
/// fresh picture is named only where the source asked for it.
pub open spec fn capability_body(rtp_port: int, max_resolution: (u32, u32), query: Seq<char>) -> Seq<
    char,
> {
    let body = "wfd_client_rtp_ports: RTP/AVP/UDP;unicast "@ + dec(rtp_port)
        + " 0 mode=play\r\nwfd_audio_codecs: AAC 00000001 00\r\nwfd_video_formats: "@ + video_text(
        video_up_to(max_resolution.0, max_resolution.1),
    )
        + "\r\nwfd_3d_video_formats: none\r\nwfd_coupled_sink: none\r\nwfd_connector_type: 05\r\nwfd_uibc_capability: none\r\nwfd_standby_resume_capability: none\r\nwfd_content_protection: none\r\n"@;
    if contains(query, "wfd_idr_request_capability"@) {
        body + "wfd_idr_request_capability: 1\r\n"@
    } else {
        body
    }
}

/// Builds the body of the answer to a capability query.
pub fn build_capability_body(rtp_port: i64, max_resolution: (u32, u32), query: &str) -> (r: String)
    ensures
        r@ == capability_body(rtp_port as int, max_resolution, query@),
{
    let mut out: String = text::joined(
        "wfd_client_rtp_ports: RTP/AVP/UDP;unicast ".to_owned(),
        text::dec_i64(rtp_port).as_str(),
    );
    out.append(" 0 mode=play\r\nwfd_audio_codecs: AAC 00000001 00\r\nwfd_video_formats: ");
    let formats: WfdVideoFormat = WfdVideoFormat::for_max_resolution(
        max_resolution.0,
        max_resolution.1,
    );
    out.append(formats.to_wfd_string().as_str());
    out.append(
        "\r\nwfd_3d_video_formats: none\r\nwfd_coupled_sink: none\r\nwfd_connector_type: 05\r\nwfd_uibc_capability: none\r\nwfd_standby_resume_capability: none\r\nwfd_content_protection: none\r\n",
    );
    let asked: Vec<char> = text::chars_of(query);
    if text::holds(asked.as_slice(), "wfd_idr_request_capability") {
        out.append("wfd_idr_request_capability: 1\r\n");
    }
    out
}

/// The port and the audio codec that a line of chosen parameters leaves.
pub open spec fn choose_from_line(port: int, codec: Seq<char>, line: Seq<char>) -> (int, Seq<char>) {
    if "wfd_video_formats:"@.is_prefix_of(line) {
        (port, codec)
    } else if "wfd_audio_codecs:"@.is_prefix_of(line) {
        (
            port,
            if contains(line, "LPCM"@) {
                "LPCM"@
            } else {
                "AAC"@
            },
        )
    } else if "wfd_client_rtp_ports:"@.is_prefix_of(line) {
        let p = words(line);
        (
            if p.len() >= 3 {
                match as_i64(p[2]) {
                    Some(n) if 1024 <= n <= 65535 => n,
                    _ => port,
                }
            } else {
                port
            },
            codec,
        )
    } else {
        (port, codec)
    }
}

/// The port and the audio codec that lines of chosen parameters leave.
pub open spec fn choose_from(port: int, codec: Seq<char>, lines: Seq<Seq<char>>) -> (int, Seq<char>)
    decreases lines.len(),
{
    if lines.len() == 0 {
        (port, codec)
    } else {
        let before = choose_from(port, codec, lines.drop_last());
        choose_from_line(before.0, before.1, lines.last())
    }
}

/// The port and the audio codec that a message of chosen parameters leaves.
pub open spec fn chosen(port: int, codec: Seq<char>, data: Seq<char>) -> (int, Seq<char>) {
    match find(data, "\r\n\r\n"@) {
        Some(k) => choose_from(port, codec, split_on(data.skip(k + 4), "\r\n"@)),
        None => (port, codec),
    }
}

fn choose_line(port: i64, codec: String, line: &[char]) -> (r: (i64, String))
    ensures
        (r.0 as int, r.1@) == choose_from_line(port as int, codec@, line@),
{
    if text::begins_with(line, "wfd_video_formats:") {
        (port, codec)
    } else if text::begins_with(line, "wfd_audio_codecs:") {
        if text::holds(line, "LPCM") {
            (port, "LPCM".to_owned())
        } else {
            (port, "AAC".to_owned())
        }
    } else if text::begins_with(line, "wfd_client_rtp_ports:") {
        let parts: Vec<Vec<char>> = text::words_of(line);
        let ghost p = texts(parts@);
        if parts.len() >= 3 {
            assert(p[2] == parts@[2]@);
            if let Some(n) = text::read_i64(parts[2].as_slice()) {
                if 1024 <= n && n <= 65535 {
                    return (n, codec);
                }
            }
        }
        (port, codec)
    } else {
        (port, codec)
    }
}

/// Takes the stream parameters that the source has chosen.
pub fn parse_m4_params(port: i64, codec: String, data: &str) -> (r: (i64, String))
    ensures
        (r.0 as int, r.1@) == chosen(port as int, codec@, data@),
{
    proof {
        reveal_strlit("\r\n\r\n");
        reveal_strlit("\r\n");
    }
    let all: Vec<char> = text::chars_of(data);
    let n: usize = all.len();
    match text::position(all.as_slice(), text::chars_of("\r\n\r\n").as_slice()) {
        None => (port, codec),
        Some(k) => {
            let body: &[char] = slice_subrange(all.as_slice(), k + 4, n);
            assert(body@ =~= data@.skip(k + 4));
            let lines: Vec<Vec<char>> = text::pieces_on(body, "\r\n");
            let ghost ls = texts(lines@);
            let mut cur: (i64, String) = (port, codec);
            let mut i: usize = 0;
            while i < lines.len()
                invariant
                    i <= lines@.len(),
                    ls == texts(lines@),
                    (cur.0 as int, cur.1@) == choose_from(port as int, codec@, ls.take(i as int)),
                decreases lines.len() - i,
            {
                assert(ls.take(i + 1).drop_last() =~= ls.take(i as int));
                let (p, c): (i64, String) = cur;
                cur = choose_line(p, c, lines[i].as_slice());
                i += 1;
            }
            assert(ls.take(ls.len() as int) =~= ls);
            cur
        },
    }
}

/// What the session waits for.
#[derive(Debug, Clone, Copy, PartialEq, Eq, Structural)]
pub enum Stage {
    /// The source's OPTIONS request.
    M1,
    /// The source's answer to our OPTIONS request.
    M2,
    /// The source's capability query.
    M3,
    /// The parameters that the source has chosen.
    M4,
    /// The source's call for SETUP.
    M5,
    /// The source's answer to SETUP.
    M6,
    /// The source's answer to PLAY.
    M7,
    /// Nothing: the stream runs.
    Streaming,
}

/// What the session asks to be done, in order.
#[derive(Debug)]
pub enum SessionAction {
    /// Send this text to the source.
    Send(String),
    /// Start the media pipeline.
    StartPipeline,
    /// Tell the application that the stream has started.
    StreamStarted,
}

/// An action as contracts see it.
pub enum ActionModel {
    Send(Seq<char>),
    StartPipeline,
    StreamStarted,
}

impl View for SessionAction {
    type V = ActionModel;

    open spec fn view(&self) -> ActionModel {
        match self {
            SessionAction::Send(t) => ActionModel::Send(t@),
            SessionAction::StartPipeline => ActionModel::StartPipeline,
            SessionAction::StreamStarted => ActionModel::StreamStarted,
        }
    }
}

/// The actions as contracts see them.
pub open spec fn actions(v: Seq<SessionAction>) -> Seq<ActionModel> {
    Seq::new(v.len(), |i: int| v[i]@)
}

/// The session with a source.
#[derive(Debug)]
pub struct Session {
    pub stage: Stage,
    pub source_ip: String,
    pub cseq: i64,
    pub rtp_port: i64,
    pub audio_codec: String,
    pub max_resolution: (u32, u32),
    pub session_id: String,
    pub server_port: String,
}

/// A session as contracts see it.
pub struct SessionModel {
    pub stage: Stage,
    pub source_ip: Seq<char>,
    pub cseq: int,
    pub rtp_port: int,
    pub audio_codec: Seq<char>,
    pub max_resolution: (u32, u32),
    pub session_id: Seq<char>,
    pub server_port: Seq<char>,
}

impl View for Session {
    type V = SessionModel;

    open spec fn view(&self) -> SessionModel {
        SessionModel {
            stage: self.stage,
            source_ip: self.source_ip@,
            cseq: self.cseq as int,
            rtp_port: self.rtp_port as int,
            audio_codec: self.audio_codec@,
            max_resolution: self.max_resolution,
            session_id: self.session_id@,
            server_port: self.server_port@,
        }
    }
}

/// The number of our last request at a stage. They start behind one hundred.
pub open spec fn cseq_at(stage: Stage) -> int {
    match stage {
        Stage::M1 => 100,
        Stage::M2 => 101,
        Stage::M3 => 101,
        Stage::M4 => 101,
        Stage::M5 => 101,
        Stage::M6 => 102,
        Stage::M7 => 103,
        Stage::Streaming => 103,
    }
}

/// What failed when no message came at a stage.
pub open spec fn silence(stage: Stage) -> Seq<char> {
    match stage {
        Stage::M1 => "No M1 received from source"@,
        Stage::M2 => "No M2 response from source"@,
        Stage::M3 => "No M3 received from source"@,
        Stage::M4 => "No M4 received from source"@,
        Stage::M5 => "No M5 received from source"@,
        Stage::M6 => "No M6 response from source"@,
        Stage::M7 => "No M7 response from source"@,
        Stage::Streaming => Seq::empty(),
    }
}

/// The answer to the source's OPTIONS request.
pub open spec fn m1_reply(cseq: int) -> Seq<char> {
    "RTSP/1.0 200 OK\r\nCSeq: "@ + dec(cseq)
        + "\r\nPublic: org.wfa.wfd1.0, SET_PARAMETER, GET_PARAMETER\r\n\r\n"@
}

/// The answer to the source's capability query.
pub open spec fn m3_reply(cseq: int, body: Seq<char>) -> Seq<char> {
    "RTSP/1.0 200 OK\r\nCSeq: "@ + dec(cseq)
        + "\r\nContent-Type: text/parameters\r\nContent-Length: "@ + dec(
        encode_utf8(body).len() as int,
    ) + "\r\n\r\n"@ + body
}

/// The SETUP request.
pub open spec fn setup_request(ip: Seq<char>, cseq: int, port: int) -> Seq<char> {
    "SETUP rtsp://"@ + ip + "/wfd1.0/streamid=0 RTSP/1.0\r\nCSeq: "@ + dec(cseq)
        + "\r\nTransport: RTP/AVP/UDP;unicast;client_port="@ + dec(port) + "\r\n\r\n"@
}

/// The PLAY request.
pub open spec fn play_request(ip: Seq<char>, cseq: int, session: Seq<char>) -> Seq<char> {
    "PLAY rtsp://"@ + ip + "/wfd1.0/streamid=0 RTSP/1.0\r\nCSeq: "@ + dec(cseq)
        + "\r\nSession: "@ + session + "\r\n\r\n"@
}

/// The session after a message, and what is to be done.
pub open spec fn session_step(s: SessionModel, data: Seq<char>) -> (SessionModel, Seq<ActionModel>) {
    let n = cseq_in(message_lines(data));
    match s.stage {
        Stage::M1 => (
            SessionModel { stage: Stage::M2, cseq: s.cseq + 1, ..s },
            seq![ActionModel::Send(m1_reply(n)), ActionModel::Send(options_request(s.cseq + 1))],
        ),
        Stage::M2 => (SessionModel { stage: Stage::M3, ..s }, Seq::empty()),
        Stage::M3 => (
            SessionModel { stage: Stage::M4, ..s },
            seq![
                ActionModel::Send(
                    m3_reply(n, capability_body(s.rtp_port, s.max_resolution, data)),
                ),
            ],
        ),
        Stage::M4 => (
            SessionModel {
                stage: Stage::M5,
                rtp_port: chosen(s.rtp_port, s.audio_codec, data).0,
                audio_codec: chosen(s.rtp_port, s.audio_codec, data).1,
                ..s
            },
            seq![ActionModel::Send(ok_reply(n))],
        ),
        Stage::M5 => (
            SessionModel { stage: Stage::M6, cseq: s.cseq + 1, ..s },
            seq![
                ActionModel::Send(ok_reply(n)),
                ActionModel::Send(setup_request(s.source_ip, s.cseq + 1, s.rtp_port)),
            ],
        ),
        Stage::M6 => {
            let id = session_in(message_lines(data));
            (
                SessionModel {
                    stage: Stage::M7,
                    cseq: s.cseq + 1,
                    session_id: id,
                    server_port: server_port_in(message_lines(data)),
                    ..s
                },
                seq![
                    ActionModel::StartPipeline,
                    ActionModel::Send(play_request(s.source_ip, s.cseq + 1, id)),
                ],
            )
        },
        Stage::M7 => (
            SessionModel { stage: Stage::Streaming, ..s },
            seq![ActionModel::StreamStarted],
        ),
        Stage::Streaming => (s, Seq::empty()),
    }
}

fn m3_text(cseq: i64, body: &str) -> (r: String)
    ensures
        r@ == m3_reply(cseq as int, body@),
{
    let n: usize = body.as_bytes().len();
    let mut out: String = text::joined(
        "RTSP/1.0 200 OK\r\nCSeq: ".to_owned(),
        text::dec_i64(cseq).as_str(),
    );
    out.append("\r\nContent-Type: text/parameters\r\nContent-Length: ");
    out.append(text::dec_u64(n as u64).as_str());
    out.append("\r\n\r\n");
    out.append(body);
    out
}

fn setup_text(ip: &str, cseq: i64, port: i64) -> (r: String)
    ensures
        r@ == setup_request(ip@, cseq as int, port as int),
{
    let mut out: String = text::joined("SETUP rtsp://".to_owned(), ip);
    out.append("/wfd1.0/streamid=0 RTSP/1.0\r\nCSeq: ");
    out.append(text::dec_i64(cseq).as_str());
    out.append("\r\nTransport: RTP/AVP/UDP;unicast;client_port=");
    out.append(text::dec_i64(port).as_str());
    out.append("\r\n\r\n");
    out
}

fn play_text(ip: &str, cseq: i64, session: &str) -> (r: String)
    ensures
        r@ == play_request(ip@, cseq as int, session@),
{
    let mut out: String = text::joined("PLAY rtsp://".to_owned(), ip);
    out.append("/wfd1.0/streamid=0 RTSP/1.0\r\nCSeq: ");
    out.append(text::dec_i64(cseq).as_str());
    out.append("\r\nSession: ");
    out.append(session);
    out.append("\r\n\r\n");
    out
}

impl Session {
    /// Whether the number of the last request is that of the stage.
    pub open spec fn wf(&self) -> bool {
        self.cseq == cseq_at(self.stage)
    }

    /// A session that has just connected.
    pub fn new(
        source_ip: String,
        rtp_port: i64,
        audio_codec: String,
        max_resolution: (u32, u32),
    ) -> (r: Session)
        ensures
            r@ == (SessionModel {
                stage: Stage::M1,
                source_ip: source_ip@,
                cseq: 100,
                rtp_port: rtp_port as int,
                audio_codec: audio_codec@,
                max_resolution,
                session_id: "0"@,
                server_port: Seq::empty(),
            }),
            r.wf(),
    {
        Session {
            stage: Stage::M1,
            source_ip,
            cseq: 100,
            rtp_port,
            audio_codec,
            max_resolution,
            session_id: "0".to_owned(),
            server_port: String::new(),
        }
    }

    /// Takes what came from the source: the next message, or nothing.
    pub fn receive(&mut self, message: Option<&str>) -> (r: Result<Vec<SessionAction>, String>)
        requires
            old(self).wf(),
            old(self).stage != Stage::Streaming,
        ensures
            final(self).wf(),
            match message {
                None => final(self)@ == old(self)@ && (r matches Err(e) && e@ == silence(
                    old(self).stage,
                )),
                Some(data) => r matches Ok(v) && (final(self)@, actions(v@)) == session_step(
                    old(self)@,
                    data@,
                ),
            },
            (message matches Some(data) && (old(self).stage == Stage::M1 || old(self).stage
                == Stage::M3 || old(self).stage == Stage::M4 || old(self).stage == Stage::M5))
                ==> forall|k: int, n: int| #[trigger]
                shows_number(message_lines(message->0@), k, n) ==> (actions(r->Ok_0@)[0] matches
                ActionModel::Send(reply) && accepts(reply, n)),
            (message matches Some(data) && old(self).stage == Stage::M6) ==> (forall|
                k: int,
                id: Seq<char>,
            | #[trigger]
                shows_session(message_lines(message->0@), k, id) ==> final(self).session_id@ == id)
                && (forall|k: int, i: int, port: Seq<char>| #[trigger]
                shows_server_port(message_lines(message->0@), k, i, port)
                    ==> final(self).server_port@ == port),
    {
        let data: &str = match message {
            Some(d) => d,
            None => {
                let e: &str = match self.stage {
                    Stage::M1 => "No M1 received from source",
                    Stage::M2 => "No M2 response from source",
                    Stage::M3 => "No M3 received from source",
                    Stage::M4 => "No M4 received from source",
                    Stage::M5 => "No M5 received from source",
                    Stage::M6 => "No M6 response from source",
                    _ => "No M7 response from source",
                };
                return Err(e.to_owned());
            },
        };
        let n: i64 = parse_cseq(data);
        let ghost before = self@;
        let mut out: Vec<SessionAction> = Vec::new();
        match self.stage {
            Stage::M1 => {
                let mut reply: String = text::joined(
                    "RTSP/1.0 200 OK\r\nCSeq: ".to_owned(),
                    text::dec_i64(n).as_str(),
                );
                reply.append("\r\nPublic: org.wfa.wfd1.0, SET_PARAMETER, GET_PARAMETER\r\n\r\n");
                out.push(SessionAction::Send(reply));
                self.cseq = self.cseq + 1;
                let mut query: String = text::joined(
                    "OPTIONS * RTSP/1.0\r\nCSeq: ".to_owned(),
                    text::dec_i64(self.cseq).as_str(),
                );
                query.append("\r\nRequire: org.wfa.wfd1.0\r\n\r\n");
                out.push(SessionAction::Send(query));
                self.stage = Stage::M2;
            },
            Stage::M2 => {
                self.stage = Stage::M3;
            },
            Stage::M3 => {
                let body: String = build_capability_body(self.rtp_port, self.max_resolution, data);
                out.push(SessionAction::Send(m3_text(n, body.as_str())));
                self.stage = Stage::M4;
            },
            Stage::M4 => {
                let (port, codec): (i64, String) = parse_m4_params(
                    self.rtp_port,
                    self.audio_codec.clone(),
                    data,
                );
                self.rtp_port = port;
                self.audio_codec = codec;
                out.push(SessionAction::Send(ok_text(n)));
                self.stage = Stage::M5;
            },
            Stage::M5 => {
                out.push(SessionAction::Send(ok_text(n)));
                self.cseq = self.cseq + 1;
                out.push(
                    SessionAction::Send(
                        setup_text(self.source_ip.as_str(), self.cseq, self.rtp_port),
                    ),
                );
                self.stage = Stage::M6;
            },
            Stage::M6 => {
                self.session_id = parse_session_id(data);
                self.server_port = parse_server_port(data);
                out.push(SessionAction::StartPipeline);
                self.cseq = self.cseq + 1;
                out.push(
                    SessionAction::Send(
                        play_text(self.source_ip.as_str(), self.cseq, self.session_id.as_str()),
                    ),
                );
                self.stage = Stage::M7;
            },
            _ => {
                out.push(SessionAction::StreamStarted);
                self.stage = Stage::Streaming;
            },
        }
        proof {
            let want = session_step(before, data@);
            assert(self@ == want.0);
            assert(actions(out@) =~= want.1);
            if before.stage == Stage::M1 || before.stage == Stage::M3 || before.stage == Stage::M4
                || before.stage == Stage::M5 {
                laws::law_reply_carries_the_number(before, data@);
            }
        }
        Ok(out)
    }
}

/// The session after messages that came one after the other, and all that was
/// to be done.
pub open spec fn session_run(s: SessionModel, msgs: Seq<Seq<char>>) -> (
    SessionModel,
    Seq<ActionModel>,
)
    decreases msgs.len(),
{
    if msgs.len() == 0 {
        (s, Seq::empty())
    } else {
        let before = session_run(s, msgs.drop_last());
        let step = session_step(before.0, msgs.last());
        (step.0, before.1 + step.1)
    }
}

/// Seven messages bring the stream up, whatever they hold. The source's
/// requests are answered with their own numbers, our requests are numbered 101,
/// 102 and 103, SETUP names the port that was chosen last, the pipeline starts
/// before PLAY is sent, and PLAY names the session that the source opened.
pub proof fn law_seven_messages_start_the_stream(s: SessionModel, msgs: Seq<Seq<char>>)
    requires
        s.stage == Stage::M1,
        s.cseq == 100,
        msgs.len() == 7,
    ensures
        session_run(s, msgs).0.stage == Stage::Streaming,
        session_run(s, msgs).1 == seq![
            ActionModel::Send(m1_reply(cseq_in(message_lines(msgs[0])))),
            ActionModel::Send(options_request(101)),
            ActionModel::Send(
                m3_reply(
                    cseq_in(message_lines(msgs[2])),
                    capability_body(s.rtp_port, s.max_resolution, msgs[2]),
                ),
            ),
            ActionModel::Send(ok_reply(cseq_in(message_lines(msgs[3])))),
            ActionModel::Send(ok_reply(cseq_in(message_lines(msgs[4])))),
            ActionModel::Send(
                setup_request(s.source_ip, 102, chosen(s.rtp_port, s.audio_codec, msgs[3]).0),
            ),
            ActionModel::StartPipeline,
            ActionModel::Send(
                play_request(s.source_ip, 103, session_in(message_lines(msgs[5]))),
            ),
            ActionModel::StreamStarted,
        ],
{
    let m1 = msgs.take(1);
    let m2 = msgs.take(2);
    let m3 = msgs.take(3);
    let m4 = msgs.take(4);
    let m5 = msgs.take(5);
    let m6 = msgs.take(6);
    assert(m1.drop_last() =~= Seq::<Seq<char>>::empty());
    assert(m2.drop_last() =~= m1);
    assert(m3.drop_last() =~= m2);
    assert(m4.drop_last() =~= m3);
    assert(m5.drop_last() =~= m4);
    assert(m6.drop_last() =~= m5);
    assert(msgs.drop_last() =~= m6);
    assert(session_run(s, m1.drop_last()) == (s, Seq::<ActionModel>::empty()));
    assert(session_run(s, m1).0.stage == Stage::M2);
    assert(session_run(s, m2).0.stage == Stage::M3);
    assert(session_run(s, m3).0.stage == Stage::M4);
    assert(session_run(s, m4).0.stage == Stage::M5);
    assert(session_run(s, m5).0.stage == Stage::M6);
    assert(session_run(s, m6).0.stage == Stage::M7);
}

proof fn lemma_choose_keeps_range(port: int, codec: Seq<char>, lines: Seq<Seq<char>>)
    requires
        1024 <= port <= 65535,
    ensures
        1024 <= choose_from(port, codec, lines).0 <= 65535,
    decreases lines.len(),
{
    if lines.len() > 0 {
        lemma_choose_keeps_range(port, codec, lines.drop_last());
    }
}

/// Whatever the source sends, a port between 1024 and 65535 stays in that range
/// and the audio codec is the one before, AAC or LPCM.
pub proof fn law_message_keeps_port_in_range(s: SessionModel, data: Seq<char>)
    requires
        1024 <= s.rtp_port <= 65535,
    ensures
        1024 <= session_step(s, data).0.rtp_port <= 65535,
        session_step(s, data).0.audio_codec == s.audio_codec || session_step(s, data).0.audio_codec
            == "AAC"@ || session_step(s, data).0.audio_codec == "LPCM"@,
{
    if let Some(k) = find(data, "\r\n\r\n"@) {
        let lines = split_on(data.skip(k + 4), "\r\n"@);
        lemma_choose_keeps_range(s.rtp_port, s.audio_codec, lines);
        lemma_choose_codec(s.rtp_port, s.audio_codec, lines);
    }
}

proof fn lemma_choose_codec(port: int, codec: Seq<char>, lines: Seq<Seq<char>>)
    ensures
        ({
            let c = choose_from(port, codec, lines).1;
            c == codec || c == "AAC"@ || c == "LPCM"@
        }),
    decreases lines.len(),
{
    if lines.len() > 0 {
        lemma_choose_codec(port, codec, lines.drop_last());
    }
}

/// What came from the source while the stream runs.
#[derive(Debug)]
pub enum ReadOutcome<'a> {
    /// The source closed the connection.
    Closed,
    /// The source sent this text.
    Data(&'a str),
    /// Nothing yet.
    Nothing,
    /// The connection failed.
    Failed,
}

/// What is to be done while the stream runs.
#[derive(Debug)]
pub enum StreamStep {
    /// Read on.
    Continue,
    /// Wait a moment, then read on.
    Wait,
    /// Send this answer and read on.
    Reply(String),
    /// Send this answer and end the stream.
    ReplyAndStop(String),
    /// End the stream.
    Stop,
    /// Leave without ending the stream: someone else has.
    Leave,
}

/// A step as contracts see it.
pub enum StreamStepModel {
    Continue,
    Wait,
    Reply(Seq<char>),
    ReplyAndStop(Seq<char>),
    Stop,
    Leave,
}

impl View for StreamStep {
    type V = StreamStepModel;

    open spec fn view(&self) -> StreamStepModel {
        match self {
            StreamStep::Continue => StreamStepModel::Continue,
            StreamStep::Wait => StreamStepModel::Wait,
            StreamStep::Reply(t) => StreamStepModel::Reply(t@),
            StreamStep::ReplyAndStop(t) => StreamStepModel::ReplyAndStop(t@),
            StreamStep::Stop => StreamStepModel::Stop,
            StreamStep::Leave => StreamStepModel::Leave,
        }
    }
}

/// Whether a message ends the stream.
pub open spec fn is_teardown(data: Seq<char>) -> bool {
    contains(data, "wfd_trigger_method: TEARDOWN"@) || contains(
        message_lines(data)[0],
        "TEARDOWN"@,
    )
}

/// What follows from a message while the stream runs.
pub open spec fn react(data: Seq<char>) -> StreamStepModel {
    let reply = ok_reply(cseq_in(message_lines(data)));
    if is_teardown(data) {
        StreamStepModel::ReplyAndStop(reply)
    } else if contains(data, "GET_PARAMETER"@) || contains(data, "SET_PARAMETER"@) {
        StreamStepModel::Reply(reply)
    } else {
        StreamStepModel::Continue
    }
}

/// Decides what follows from a read while the stream runs. A failure counts
/// only while the receiver is running.
pub fn on_stream_read(outcome: ReadOutcome<'_>, running: bool) -> (r: StreamStep)
    ensures
        r@ == match outcome {
            ReadOutcome::Closed => StreamStepModel::Stop,
            ReadOutcome::Nothing => StreamStepModel::Wait,
            ReadOutcome::Failed => if running {
                StreamStepModel::Stop
            } else {
                StreamStepModel::Leave
            },
            ReadOutcome::Data(d) => react(d@),
        },
        outcome matches ReadOutcome::Data(d) ==> forall|k: int, n: int| #[trigger]
            shows_number(message_lines(d@), k, n) ==> match r@ {
                StreamStepModel::Reply(t) => accepts(t, n),
                StreamStepModel::ReplyAndStop(t) => accepts(t, n),
                _ => true,
            },
{
    match outcome {
        ReadOutcome::Closed => StreamStep::Stop,
        ReadOutcome::Nothing => StreamStep::Wait,
        ReadOutcome::Failed => if running {
            StreamStep::Stop
        } else {
            StreamStep::Leave
        },
        ReadOutcome::Data(d) => {
            let all: Vec<char> = text::chars_of(d);
            let lines: Vec<Vec<char>> = lines_of_message(d);
            assert(texts(lines@)[0] == lines@[0]@);
            let n: i64 = parse_cseq(d);
            proof {
                laws::lemma_ok_reply(n as int);
            }
            if text::holds(all.as_slice(), "wfd_trigger_method: TEARDOWN") || text::holds(
                lines[0].as_slice(),
                "TEARDOWN",
            ) {
                StreamStep::ReplyAndStop(ok_text(n))
            } else if text::holds(all.as_slice(), "GET_PARAMETER") || text::holds(
                all.as_slice(),
                "SET_PARAMETER",
            ) {
                StreamStep::Reply(ok_text(n))
            } else {
                StreamStep::Continue
            }
        },
    }
}

/// The address of the source's RTSP server.
pub open spec fn source_address(ip: Seq<char>, port: int) -> Seq<char> {
    ip + ":"@ + dec(port)
}

/// The address of the source's RTSP server.
pub fn rtsp_address(ip: &str, port: u16) -> (r: String)
    ensures
        r@ == source_address(ip@, port as int),
{
    let mut out: String = text::joined(ip.to_owned(), ":");
    out.append(text::dec_u64(port as u64).as_str());
    out
}

/// What an attempt to connect leads to.
#[derive(Debug)]
pub enum ConnectStep {
    /// The connection stands.
    Connected,
    /// Wait a second and try again.
    Retry,
    /// The time is over: report this.
    GiveUp(String),
    /// The receiver was stopped.
    Stopped,
}

/// The seconds for which connecting is tried.
pub const RTSP_CONNECT_TIMEOUT_SECS: u64 = 30;

/// Decides after an attempt to connect. The attempts go on while the receiver
/// runs and the time is not over.
pub fn after_connect_attempt(
    connected: bool,
    running: bool,
    elapsed_ms: u64,
    ip: &str,
    port: u16,
    attempts: u64,
) -> (r: ConnectStep)
    ensures
        match r {
            ConnectStep::Connected => connected,
            ConnectStep::Stopped => !connected && !running,
            ConnectStep::Retry => !connected && running && elapsed_ms < 30_000,
            ConnectStep::GiveUp(m) => !connected && running && elapsed_ms >= 30_000 && m@
                == "Failed to connect to source RTSP at "@ + source_address(ip@, port as int)
                + " after "@ + dec(attempts as int) + " attempts"@,
        },
{
    if connected {
        ConnectStep::Connected
    } else if !running {
        ConnectStep::Stopped
    } else if elapsed_ms < RTSP_CONNECT_TIMEOUT_SECS * 1000 {
        ConnectStep::Retry
    } else {
        let mut m: String = text::joined(
            "Failed to connect to source RTSP at ".to_owned(),
            rtsp_address(ip, port).as_str(),
        );
        m.append(" after ");
        m.append(text::dec_u64(attempts).as_str());
        m.append(" attempts");
        ConnectStep::GiveUp(m)
    }
}

} // verus!
