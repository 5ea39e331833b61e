//! RTSP messages of a Wi-Fi Display session: requests are parsed, responses
//! are written, and the `wfd_*` parameters are read and offered.

pub mod exchange;
pub mod laws;
pub mod offer;

use vstd::prelude::*;
use vstd::slice::slice_subrange;
use vstd::utf8::{decode_utf8, encode_utf8, is_char_boundary, valid_utf8};
use crate::outside::{debug_form, debug_quoted, from_utf8_lossy, utf8_lossy};
use crate::text;
use crate::text::{
    as_i64, ascii_lower, ascii_upper, contains, dec, find, hex_upper, join, split_char, split_on,
    split_once, strs, texts, trim, words,
};

verus! {

broadcast use vstd::utf8::encode_utf8_decode_utf8;

/// The largest header block in bytes.
pub const MAX_HEADER_SIZE: usize = 8192;

/// The largest body in bytes.
pub const MAX_BODY_SIZE: usize = 65536;

/// The request succeeded.
pub const RTSP_OK: u16 = 200;

/// The request could not be understood.
pub const RTSP_BAD_REQUEST: u16 = 400;

/// What was asked for does not exist.
pub const RTSP_NOT_FOUND: u16 = 404;

/// The method may not be used here.
pub const RTSP_METHOD_NOT_ALLOWED: u16 = 405;

/// The request exceeds a size limit.
pub const RTSP_REQUEST_ENTITY_TOO_LARGE: u16 = 413;

/// The server failed.
pub const RTSP_INTERNAL_SERVER_ERROR: u16 = 500;

/// The method is not known.
pub const RTSP_NOT_IMPLEMENTED: u16 = 501;

/// The methods of a Wi-Fi Display session.
#[derive(Debug, Clone, Copy, PartialEq, Eq, Structural)]
pub enum RtspMethod {
    Options,
    GetParameter,
    SetParameter,
    Setup,
    Play,
    Teardown,
    Pause,
}

impl RtspMethod {
    /// The method of a name, in whatever case its letters are.
    pub open spec fn named(s: Seq<char>) -> Option<RtspMethod> {
        let u = ascii_upper(s);
        if u == "OPTIONS"@ {
            Some(RtspMethod::Options)
        } else if u == "GET_PARAMETER"@ {
            Some(RtspMethod::GetParameter)
        } else if u == "SET_PARAMETER"@ {
            Some(RtspMethod::SetParameter)
        } else if u == "SETUP"@ {
            Some(RtspMethod::Setup)
        } else if u == "PLAY"@ {
            Some(RtspMethod::Play)
        } else if u == "TEARDOWN"@ {
            Some(RtspMethod::Teardown)
        } else if u == "PAUSE"@ {
            Some(RtspMethod::Pause)
        } else {
            None
        }
    }

    /// Finds the method of a name.
    fn of_name(s: &[char]) -> (r: Option<RtspMethod>)
        ensures
            r == RtspMethod::named(s@),
    {
        let u: Vec<char> = text::uppered(s);
        let n: &[char] = u.as_slice();
        if text::is_text(n, "OPTIONS") {
            Some(RtspMethod::Options)
        } else if text::is_text(n, "GET_PARAMETER") {
            Some(RtspMethod::GetParameter)
        } else if text::is_text(n, "SET_PARAMETER") {
            Some(RtspMethod::SetParameter)
        } else if text::is_text(n, "SETUP") {
            Some(RtspMethod::Setup)
        } else if text::is_text(n, "PLAY") {
            Some(RtspMethod::Play)
        } else if text::is_text(n, "TEARDOWN") {
            Some(RtspMethod::Teardown)
        } else if text::is_text(n, "PAUSE") {
            Some(RtspMethod::Pause)
        } else {
            None
        }
    }
}

/// Header fields as they are seen by contracts: name and value, in order.
pub type Fields = Seq<(Seq<char>, Seq<char>)>;

/// The place of the field with the given name.
pub open spec fn field_index(h: Fields, name: Seq<char>) -> Option<int>
    decreases h.len(),
{
    if h.len() == 0 {
        None
    } else if h[0].0 == name {
        Some(0)
    } else {
        match field_index(h.skip(1), name) {
            Some(k) => Some(k + 1),
            None => None,
        }
    }
}

/// The value of the field with the given name.
pub open spec fn field(h: Fields, name: Seq<char>) -> Option<Seq<char>> {
    match field_index(h, name) {
        Some(k) => Some(h[k].1),
        None => None,
    }
}

/// The fields after one is set: a new name comes last, and a known one keeps
/// its place.
pub open spec fn with_field(h: Fields, name: Seq<char>, value: Seq<char>) -> Fields {
    match field_index(h, name) {
        Some(k) => h.update(k, (name, value)),
        None => h.push((name, value)),
    }
}

/// Whether no two fields have the same name.
pub open spec fn distinct_names(h: Fields) -> bool {
    forall|i: int, j: int| 0 <= i < j < h.len() ==> h[i].0 != h[j].0
}

proof fn lemma_field_index(h: Fields, name: Seq<char>)
    ensures
        match field_index(h, name) {
            Some(k) => 0 <= k < h.len() && h[k].0 == name && forall|j: int|
                0 <= j < k ==> h[j].0 != name,
            None => forall|j: int| 0 <= j < h.len() ==> h[j].0 != name,
        },
    decreases h.len(),
{
    if h.len() > 0 && h[0].0 != name {
        lemma_field_index(h.skip(1), name);
        assert forall|j: int| 0 < j < h.len() implies h[j] == h.skip(1)[j - 1] by {}
    }
}

proof fn lemma_field_index_at(h: Fields, name: Seq<char>, k: int)
    requires
        0 <= k < h.len(),
        h[k].0 == name,
        forall|j: int| 0 <= j < k ==> h[j].0 != name,
    ensures
        field_index(h, name) == Some(k),
{
    lemma_field_index(h, name);
}

/// What was set is read back, every other field keeps its value, and names
/// stay distinct.
pub proof fn law_set_field_is_read_back(
    h: Fields,
    name: Seq<char>,
    value: Seq<char>,
    other: Seq<char>,
)
    ensures
        field(with_field(h, name, value), name) == Some(value),
        other != name ==> field(with_field(h, name, value), other) == field(h, other),
        distinct_names(h) ==> distinct_names(with_field(h, name, value)),
{
    let g = with_field(h, name, value);
    lemma_field_index(h, name);
    lemma_field_index(g, name);
    lemma_field_index(h, other);
    lemma_field_index(g, other);
    match field_index(h, name) {
        Some(k) => {
            lemma_field_index_at(g, name, k);
        },
        None => {
            lemma_field_index_at(g, name, h.len() as int);
        },
    }
    if other != name {
        match field_index(h, other) {
            Some(k) => {
                assert(g[k] == h[k]);
                lemma_field_index_at(g, other, k);
            },
            None => {
                if let Some(j) = field_index(g, other) {
                    assert(j < h.len() ==> g[j].0 == h[j].0);
                    assert(false);
                }
            },
        }
    }
}

/// Header fields in the order in which they were given, each name once.
#[derive(Debug, Clone)]
pub struct Headers {
    entries: Vec<(String, String)>,
}

impl View for Headers {
    type V = Fields;

    closed spec fn view(&self) -> Fields {
        Seq::new(self.entries@.len(), |i: int| (self.entries@[i].0@, self.entries@[i].1@))
    }
}

impl Headers {
    /// Whether each name occurs once.
    pub open spec fn wf(&self) -> bool {
        distinct_names(self@)
    }

    /// No fields.
    pub fn new() -> (r: Headers)
        ensures
            r@ == Fields::empty(),
            r.wf(),
    {
        let r: Headers = Headers { entries: Vec::new() };
        assert(r@ =~= Fields::empty());
        r
    }

    /// The number of fields.
    pub fn len(&self) -> (r: usize)
        ensures
            r == self@.len(),
    {
        self.entries.len()
    }

    /// The name of the field at a place.
    pub fn name_at(&self, i: usize) -> (r: &str)
        requires
            i < self@.len(),
        ensures
            r@ == self@[i as int].0,
    {
        self.entries[i].0.as_str()
    }

    /// The value of the field at a place.
    pub fn value_at(&self, i: usize) -> (r: &str)
        requires
            i < self@.len(),
        ensures
            r@ == self@[i as int].1,
    {
        self.entries[i].1.as_str()
    }

    fn place(&self, name: &str) -> (r: Option<usize>)
        ensures
            match r {
                Some(k) => field_index(self@, name@) == Some(k as int) && k < self@.len(),
                None => field_index(self@, name@) is None,
            },
    {
        let mut i: usize = 0;
        while i < self.entries.len()
            invariant
                i <= self.entries@.len(),
                forall|j: int| 0 <= j < i ==> self@[j].0 != name@,
            decreases self.entries.len() - i,
        {
            if text::same_str(self.entries[i].0.as_str(), name) {
                proof {
                    lemma_field_index_at(self@, name@, i as int);
                }
                return Some(i);
            }
            assert(self@[i as int].0 != name@);
            i += 1;
        }
        proof {
            lemma_field_index(self@, name@);
        }
        None
    }

    /// The value of the field with the given name.
    pub fn get(&self, name: &str) -> (r: Option<String>)
        ensures
            match r {
                Some(v) => field(self@, name@) == Some(v@),
                None => field(self@, name@) is None,
            },
    {
        match self.place(name) {
            Some(k) => Some(self.entries[k].1.clone()),
            None => None,
        }
    }

    /// Sets a field.
    pub fn insert(&mut self, name: String, value: String)
        ensures
            final(self)@ == with_field(old(self)@, name@, value@),
            old(self).wf() ==> final(self).wf(),
    {
        proof {
            law_set_field_is_read_back(self@, name@, value@, name@);
        }
        match self.place(name.as_str()) {
            Some(k) => {
                self.entries.set(k, (name, value));
                assert(self@ =~= with_field(old(self)@, name@, value@));
            },
            None => {
                self.entries.push((name, value));
                assert(self@ =~= with_field(old(self)@, name@, value@));
            },
        }
    }
}

/// The phrase that stands behind a status code.
pub open spec fn phrase(code: u16) -> Seq<char> {
    if code == 200 {
        "OK"@
    } else if code == 400 {
        "Bad Request"@
    } else if code == 404 {
        "Not Found"@
    } else if code == 405 {
        "Method Not Allowed"@
    } else if code == 413 {
        "Request Entity Too Large"@
    } else if code == 451 {
        "Parameter Not Understood"@
    } else if code == 500 {
        "Internal Server Error"@
    } else if code == 501 {
        "Not Implemented"@
    } else {
        "Unknown"@
    }
}

fn phrase_of(code: u16) -> (r: &'static str)
    ensures
        r@ == phrase(code),
{
    match code {
        200 => "OK",
        400 => "Bad Request",
        404 => "Not Found",
        405 => "Method Not Allowed",
        413 => "Request Entity Too Large",
        451 => "Parameter Not Understood",
        500 => "Internal Server Error",
        501 => "Not Implemented",
        _ => "Unknown",
    }
}

/// Why a message was refused, and the status to answer with.
#[derive(Debug, Clone)]
pub struct RtspParseError {
    pub message: String,
    pub status_code: u16,
}

impl View for RtspParseError {
    type V = (Seq<char>, u16);

    open spec fn view(&self) -> (Seq<char>, u16) {
        (self.message@, self.status_code)
    }
}

impl RtspParseError {
    fn new(message: &str) -> (r: RtspParseError)
        ensures
            r@ == (message@, RTSP_BAD_REQUEST),
    {
        RtspParseError { message: message.to_owned(), status_code: RTSP_BAD_REQUEST }
    }

    fn with_code(message: &str, status_code: u16) -> (r: RtspParseError)
        ensures
            r@ == (message@, status_code),
    {
        RtspParseError { message: message.to_owned(), status_code }
    }

    /// The message in words.
    pub fn to_string(&self) -> (r: String)
        ensures
            r@ == self.message@,
    {
        self.message.clone()
    }
}

/// A parsed request.
#[derive(Debug, Clone)]
pub struct RtspRequest {
    pub method: RtspMethod,
    pub uri: String,
    pub version: String,
    pub cseq: i64,
    pub headers: Headers,
    pub body: String,
    pub content_length: i64,
}

/// A request as contracts see it.
pub struct RequestModel {
    pub method: RtspMethod,
    pub uri: Seq<char>,
    pub version: Seq<char>,
    pub cseq: int,
    pub headers: Fields,
    pub body: Seq<char>,
    pub content_length: int,
}

impl View for RtspRequest {
    type V = RequestModel;

    open spec fn view(&self) -> RequestModel {
        RequestModel {
            method: self.method,
            uri: self.uri@,
            version: self.version@,
            cseq: self.cseq as int,
            headers: self.headers@,
            body: self.body@,
            content_length: self.content_length as int,
        }
    }
}

/// A response to be sent.
#[derive(Debug, Clone)]
pub struct RtspResponse {
    pub status_code: u16,
    pub cseq: i64,
    pub headers: Headers,
    pub body: String,
}

/// A response as contracts see it.
pub struct ResponseModel {
    pub status_code: u16,
    pub cseq: int,
    pub headers: Fields,
    pub body: Seq<char>,
}

impl View for RtspResponse {
    type V = ResponseModel;

    open spec fn view(&self) -> ResponseModel {
        ResponseModel {
            status_code: self.status_code,
            cseq: self.cseq as int,
            headers: self.headers@,
            body: self.body@,
        }
    }
}

/// The lines of the header fields.
pub open spec fn field_lines(h: Fields) -> Seq<Seq<char>> {
    h.map_values(|f: (Seq<char>, Seq<char>)| f.0 + ": "@ + f.1)
}

/// The lines of a response.
pub open spec fn response_lines(m: ResponseModel) -> Seq<Seq<char>> {
    seq![
        "RTSP/1.0 "@ + dec(m.status_code as int) + " "@ + phrase(m.status_code),
        "CSeq: "@ + dec(m.cseq),
    ] + field_lines(m.headers) + if m.body.len() > 0 {
        seq!["Content-Length: "@ + dec(encode_utf8(m.body).len() as int), Seq::<char>::empty(), m.body]
    } else {
        seq!["Content-Length: 0"@, Seq::<char>::empty(), Seq::<char>::empty()]
    }
}

impl RtspResponse {
    /// The phrase of the status code.
    pub fn status_phrase(&self) -> (r: &'static str)
        ensures
            r@ == phrase(self.status_code),
    {
        phrase_of(self.status_code)
    }

    /// The response as it goes over the wire.
    pub fn serialize(&self) -> (r: Vec<u8>)
        ensures
            r@ == encode_utf8(join(response_lines(self@), "\r\n"@)),
    {
        let mut lines: Vec<String> = Vec::new();
        let mut status: String = text::joined("RTSP/1.0 ".to_owned(), text::dec_u64(self.status_code as u64).as_str());
        status.append(" ");
        status.append(self.status_phrase());
        lines.push(status);
        lines.push(text::joined("CSeq: ".to_owned(), text::dec_i64(self.cseq).as_str()));
        let ghost head = strs(lines@);
        assert(head =~= response_lines(self@).take(2));
        let mut i: usize = 0;
        while i < self.headers.len()
            invariant
                i <= self.headers@.len(),
                head.len() == 2,
                strs(lines@) == head + field_lines(self.headers@).take(i as int),
            decreases self.headers@.len() - i,
        {
            let ghost before = strs(lines@);
            let mut line: String = self.headers.name_at(i).to_owned();
            line.append(": ");
            line.append(self.headers.value_at(i));
            let ghost l = line@;
            lines.push(line);
            assert(strs(lines@) =~= before.push(l));
            assert(field_lines(self.headers@).take(i + 1) =~= field_lines(self.headers@).take(i as int).push(l));
            i += 1;
        }
        assert(field_lines(self.headers@).take(i as int) =~= field_lines(self.headers@));
        let ghost before = strs(lines@);
        if self.body.as_str().is_empty() {
            lines.push("Content-Length: 0".to_owned());
            lines.push(String::new());
            lines.push(String::new());
            assert(strs(lines@) =~= before + seq![
                "Content-Length: 0"@,
                Seq::<char>::empty(),
                Seq::<char>::empty(),
            ]);
        } else {
            let n: usize = self.body.as_str().as_bytes().len();
            lines.push(text::joined("Content-Length: ".to_owned(), text::dec_u64(n as u64).as_str()));
            lines.push(String::new());
            lines.push(self.body.clone());
            assert(strs(lines@) =~= before + seq![
                "Content-Length: "@ + dec(encode_utf8(self.body@).len() as int),
                Seq::<char>::empty(),
                self.body@,
            ]);
        }
        assert(before =~= seq![
            "RTSP/1.0 "@ + dec(self.status_code as int) + " "@ + phrase(self.status_code),
            "CSeq: "@ + dec(self.cseq as int),
        ] + field_lines(self.headers@));
        assert(strs(lines@) =~= response_lines(self@));
        text::join_strings(&lines, "\r\n").as_str().as_bytes_vec()
    }
}

/// The header block of a message and what follows it: they part at the first
/// empty line.
pub open spec fn split_message(t: Seq<char>) -> (Seq<char>, Seq<char>) {
    match find(t, "\r\n\r\n"@) {
        Some(k) => (t.take(k), t.skip(k + 4)),
        None => match find(t, "\n\n"@) {
            Some(k) => (t.take(k), t.skip(k + 2)),
            None => (t, Seq::empty()),
        },
    }
}

fn cut_message(t: &[char]) -> (r: (&[char], &[char]))
    ensures
        (r.0@, r.1@) == split_message(t@),
{
    proof {
        reveal_strlit("\r\n\r\n");
        reveal_strlit("\n\n");
    }
    let n: usize = t.len();
    match text::position(t, text::chars_of("\r\n\r\n").as_slice()) {
        Some(k) => {
            let a: &[char] = slice_subrange(t, 0, k);
            let b: &[char] = slice_subrange(t, k + 4, n);
            assert(a@ =~= t@.take(k as int));
            assert(b@ =~= t@.skip(k + 4));
            (a, b)
        },
        None => match text::position(t, text::chars_of("\n\n").as_slice()) {
            Some(k) => {
                let a: &[char] = slice_subrange(t, 0, k);
                let b: &[char] = slice_subrange(t, k + 2, n);
                assert(a@ =~= t@.take(k as int));
                assert(b@ =~= t@.skip(k + 2));
                (a, b)
            },
            None => {
                let b: &[char] = slice_subrange(t, n, n);
                assert(b@ =~= Seq::<char>::empty());
                (t, b)
            },
        },
    }
}

/// The lines of a header block.
pub open spec fn header_lines(h: Seq<char>) -> Seq<Seq<char>> {
    if contains(h, "\r\n"@) {
        split_on(h, "\r\n"@)
    } else {
        split_char(h, '\n')
    }
}

/// The fields with those of one more header line.
pub open spec fn add_line(h: Fields, line: Seq<char>) -> Fields {
    match split_once(line, ':') {
        Some(kv) => with_field(h, trim(kv.0), trim(kv.1)),
        None => h,
    }
}

/// The fields of a block of header lines.
pub open spec fn fields_of(lines: Seq<Seq<char>>) -> Fields
    decreases lines.len(),
{
    if lines.len() == 0 {
        Fields::empty()
    } else {
        add_line(fields_of(lines.drop_last()), lines.last())
    }
}

fn read_fields(lines: &Vec<Vec<char>>) -> (r: Headers)
    requires
        lines@.len() >= 1,
    ensures
        r@ == fields_of(texts(lines@).skip(1)),
        r.wf(),
{
    let mut out: Headers = Headers::new();
    let mut i: usize = 1;
    let ghost rest = texts(lines@).skip(1);
    while i < lines.len()
        invariant
            1 <= i <= lines@.len(),
            rest == texts(lines@).skip(1),
            out@ == fields_of(rest.take(i - 1)),
            out.wf(),
        decreases lines.len() - i,
    {
        assert(rest.take(i as int).drop_last() =~= rest.take(i - 1));
        if let Some((k, v)) = text::cut_once(lines[i].as_slice(), ':') {
            out.insert(
                text::string_of(text::trimmed(k)),
                text::string_of(text::trimmed(v)),
            );
        }
        i += 1;
    }
    assert(rest.take(rest.len() as int) =~= rest);
    out
}

/// The text of the `CSeq` field.
pub open spec fn cseq_field(h: Fields) -> Option<Seq<char>> {
    match field(h, "CSeq"@) {
        Some(v) => Some(v),
        None => match field(h, "cseq"@) {
            Some(v) => Some(v),
            None => field(h, "CSEQ"@),
        },
    }
}

/// The text of the `Content-Length` field.
pub open spec fn length_field(h: Fields) -> Option<Seq<char>> {
    match field(h, "Content-Length"@) {
        Some(v) => Some(v),
        None => match field(h, "content-length"@) {
            Some(v) => Some(v),
            None => field(h, "Content-length"@),
        },
    }
}

/// The declared length; zero where none can be read.
pub open spec fn declared_length(h: Fields) -> int {
    match length_field(h) {
        Some(v) => match as_i64(v) {
            Some(n) => n,
            None => 0,
        },
        None => 0,
    }
}

/// What a message says before its body is cut to the declared length.
pub open spec fn read_message(t: Seq<char>) -> Result<RequestModel, (Seq<char>, u16)> {
    let (header, body) = split_message(t);
    let lines = header_lines(header);
    let line = trim(lines[0]);
    let parts = words(line);
    let headers = fields_of(lines.skip(1));
    if encode_utf8(header).len() > MAX_HEADER_SIZE {
        Err(("Request header exceeds maximum size"@, RTSP_REQUEST_ENTITY_TOO_LARGE))
    } else if encode_utf8(body).len() > MAX_BODY_SIZE {
        Err(("Request body exceeds maximum size"@, RTSP_REQUEST_ENTITY_TOO_LARGE))
    } else if parts.len() < 3 {
        Err(("Malformed request line: "@ + debug_form(line), RTSP_BAD_REQUEST))
    } else if RtspMethod::named(parts[0]) is None {
        Err(("Unknown method: "@ + parts[0], RTSP_NOT_IMPLEMENTED))
    } else if !"RTSP/"@.is_prefix_of(parts[2]) {
        Err(("Invalid protocol version: "@ + parts[2], RTSP_BAD_REQUEST))
    } else {
        match cseq_field(headers) {
            None => Err(("Missing required CSeq header"@, RTSP_BAD_REQUEST)),
            Some(c) => match as_i64(c) {
                None => Err(("Invalid CSeq value: "@ + debug_form(c), RTSP_BAD_REQUEST)),
                Some(n) => if n < 0 {
                    Err(("Invalid CSeq value: "@ + dec(n), RTSP_BAD_REQUEST))
                } else {
                    Ok(
                        RequestModel {
                            method: RtspMethod::named(parts[0])->0,
                            uri: parts[1],
                            version: parts[2],
                            cseq: n,
                            headers,
                            body,
                            content_length: declared_length(headers),
                        },
                    )
                },
            },
        }
    }
}

/// The number of bytes of its body that a request keeps.
pub open spec fn body_bytes(m: RequestModel) -> int {
    let n = encode_utf8(m.body).len() as int;
    if 0 < m.content_length < n {
        m.content_length
    } else {
        n
    }
}

/// Whether the declared length ends inside a character of the body.
pub open spec fn splits_character(t: Seq<char>) -> bool {
    read_message(t) matches Ok(m) && !is_char_boundary(encode_utf8(m.body), body_bytes(m))
}

/// The request that a message holds, with its body cut to the declared length,
/// or why it holds none.
pub open spec fn parse_text(t: Seq<char>) -> Result<RequestModel, (Seq<char>, u16)> {
    match read_message(t) {
        Ok(m) => Ok(
            RequestModel { body: decode_utf8(encode_utf8(m.body).take(body_bytes(m))), ..m },
        ),
        Err(e) => Err(e),
    }
}

/// The outcome of parsing as contracts see it.
pub open spec fn outcome(r: Result<RtspRequest, RtspParseError>) -> Result<
    RequestModel,
    (Seq<char>, u16),
> {
    match r {
        Ok(q) => Ok(q@),
        Err(e) => Err(e@),
    }
}

fn header_value(h: &Headers, a: &str, b: &str, c: &str) -> (r: Option<String>)
    ensures
        match r {
            Some(v) => Some(v@),
            None => None,
        } == match field(h@, a@) {
            Some(v) => Some(v),
            None => match field(h@, b@) {
                Some(v) => Some(v),
                None => field(h@, c@),
            },
        },
{
    match h.get(a) {
        Some(v) => Some(v),
        None => match h.get(b) {
            Some(v) => Some(v),
            None => h.get(c),
        },
    }
}

fn take_message(t: &str) -> (r: Result<RtspRequest, RtspParseError>)
    ensures
        outcome(r) == read_message(t@),
        r matches Ok(q) ==> q.headers.wf(),
{
    let all: Vec<char> = text::chars_of(t);
    let (header, body): (&[char], &[char]) = cut_message(all.as_slice());
    let body_text: String = text::string_of(body);
    if text::string_of(header).as_str().as_bytes().len() > MAX_HEADER_SIZE {
        return Err(
            RtspParseError::with_code(
                "Request header exceeds maximum size",
                RTSP_REQUEST_ENTITY_TOO_LARGE,
            ),
        );
    }
    if body_text.as_str().as_bytes().len() > MAX_BODY_SIZE {
        return Err(
            RtspParseError::with_code(
                "Request body exceeds maximum size",
                RTSP_REQUEST_ENTITY_TOO_LARGE,
            ),
        );
    }
    proof {
        reveal_strlit("\r\n");
    }
    let lines: Vec<Vec<char>> = if text::holds(header, "\r\n") {
        text::pieces_on(header, "\r\n")
    } else {
        text::pieces(header, '\n')
    };
    assert(texts(lines@) == header_lines(header@));
    assert(texts(lines@)[0] == lines@[0]@);
    let line: &[char] = text::trimmed(lines[0].as_slice());
    let parts: Vec<Vec<char>> = text::words_of(line);
    let ghost p = texts(parts@);
    if parts.len() < 3 {
        let quoted: String = debug_quoted(text::string_of(line).as_str());
        return Err(
            RtspParseError::new(
                text::joined("Malformed request line: ".to_owned(), quoted.as_str()).as_str(),
            ),
        );
    }
    assert(p[0] == parts@[0]@ && p[1] == parts@[1]@ && p[2] == parts@[2]@);
    let method: RtspMethod = match RtspMethod::of_name(parts[0].as_slice()) {
        Some(m) => m,
        None => {
            let name: String = text::string_of(parts[0].as_slice());
            return Err(
                RtspParseError::with_code(
                    text::joined("Unknown method: ".to_owned(), name.as_str()).as_str(),
                    RTSP_NOT_IMPLEMENTED,
                ),
            );
        },
    };
    let uri: String = text::string_of(parts[1].as_slice());
    let version: String = text::string_of(parts[2].as_slice());
    if !text::begins_with(parts[2].as_slice(), "RTSP/") {
        return Err(
            RtspParseError::new(
                text::joined("Invalid protocol version: ".to_owned(), version.as_str()).as_str(),
            ),
        );
    }
    let headers: Headers = read_fields(&lines);
    let cseq_text: String = match header_value(&headers, "CSeq", "cseq", "CSEQ") {
        Some(v) => v,
        None => {
            return Err(RtspParseError::new("Missing required CSeq header"));
        },
    };
    let cseq: i64 = match text::read_i64(text::chars_of(cseq_text.as_str()).as_slice()) {
        Some(n) => n,
        None => {
            let quoted: String = debug_quoted(cseq_text.as_str());
            return Err(
                RtspParseError::new(
                    text::joined("Invalid CSeq value: ".to_owned(), quoted.as_str()).as_str(),
                ),
            );
        },
    };
    if cseq < 0 {
        return Err(
            RtspParseError::new(
                text::joined("Invalid CSeq value: ".to_owned(), text::dec_i64(cseq).as_str()).as_str(),
            ),
        );
    }
    let content_length: i64 = match header_value(
        &headers,
        "Content-Length",
        "content-length",
        "Content-length",
    ) {
        Some(v) => match text::read_i64(text::chars_of(v.as_str()).as_slice()) {
            Some(n) => n,
            None => 0,
        },
        None => 0,
    };
    Ok(RtspRequest { method, uri, version, cseq, headers, body: body_text, content_length })
}

/// Parses a request out of its text.
pub fn parse_rtsp_text(t: &str) -> (r: Result<RtspRequest, RtspParseError>)
    requires
        !splits_character(t@),
    ensures
        outcome(r) == parse_text(t@),
        r matches Ok(q) ==> q.headers.wf(),
{
    match take_message(t) {
        Err(e) => Err(e),
        Ok(q) => {
            let n: usize = q.body.as_str().as_bytes().len();
            let keep: usize = if 0 < q.content_length && (q.content_length as u64) < n as u64 {
                q.content_length as usize
            } else {
                n
            };
            let (kept, _rest): (&str, &str) = q.body.as_str().split_at(keep);
            assert(encode_utf8(kept@) == encode_utf8(q.body@).take(keep as int));
            let body: String = kept.to_owned();
            Ok(
                RtspRequest {
                    method: q.method,
                    uri: q.uri,
                    version: q.version,
                    cseq: q.cseq,
                    headers: q.headers,
                    body,
                    content_length: q.content_length,
                },
            )
        },
    }
}

/// A request that was parsed keeps the limits: its number is not negative, and
/// its body is neither larger than a body may be nor, where a length is
/// declared, longer than that.
pub proof fn law_parsed_request_keeps_the_limits(t: Seq<char>)
    requires
        !splits_character(t),
    ensures
        parse_text(t) matches Ok(m) ==> {
            &&& 0 <= m.cseq <= i64::MAX
            &&& encode_utf8(m.body).len() <= MAX_BODY_SIZE
            &&& m.content_length > 0 ==> encode_utf8(m.body).len() <= m.content_length
        },
{
    if let Ok(m) = read_message(t) {
        let whole = encode_utf8(m.body);
        let k = body_bytes(m);
        vstd::utf8::encode_utf8_valid_utf8(m.body);
        vstd::utf8::valid_utf8_split(whole, k);
        let kept = whole.take(k);
        vstd::utf8::decode_utf8_encode_utf8(kept);
    }
}

/// The request that bytes hold, given the text that they are read as.
pub open spec fn parse_data(data: Seq<u8>, t: Seq<char>) -> Result<
    RequestModel,
    (Seq<char>, u16),
> {
    if data.len() == 0 {
        Err(("Empty request"@, RTSP_BAD_REQUEST))
    } else {
        parse_text(t)
    }
}

/// Parses a request out of raw bytes.
pub fn parse_rtsp_request(data: &[u8]) -> (r: Result<RtspRequest, RtspParseError>)
    requires
        !splits_character(utf8_lossy(data@)),
    ensures
        outcome(r) == parse_data(data@, utf8_lossy(data@)),
        valid_utf8(data@) ==> outcome(r) == parse_data(data@, decode_utf8(data@)),
        r matches Ok(q) ==> q.headers.wf(),
{
    if data.len() == 0 {
        return Err(RtspParseError::new("Empty request"));
    }
    let t: String = from_utf8_lossy(data);
    parse_rtsp_text(t.as_str())
}

/// Parses a request out of raw bytes whose declared length may end inside a
/// character: such a message gives nothing.
pub fn try_parse_rtsp_request(data: &[u8]) -> (r: Option<Result<RtspRequest, RtspParseError>>)
    ensures
        match r {
            Some(o) => !splits_character(utf8_lossy(data@)) && outcome(o) == parse_data(
                data@,
                utf8_lossy(data@),
            ),
            None => splits_character(utf8_lossy(data@)),
        },
        valid_utf8(data@) ==> match r {
            Some(o) => outcome(o) == parse_data(data@, decode_utf8(data@)),
            None => splits_character(decode_utf8(data@)),
        },
{
    let t: String = from_utf8_lossy(data);
    if let Ok(q) = take_message(t.as_str()) {
        let n: usize = q.body.as_str().as_bytes().len();
        let keep: usize = if 0 < q.content_length && (q.content_length as u64) < n as u64 {
            q.content_length as usize
        } else {
            n
        };
        if !q.body.as_str().is_char_boundary(keep) {
            return None;
        }
    }
    Some(parse_rtsp_request(data))
}

/// The fields after the given ones are set, one after the other.
pub open spec fn fields_from(hs: Seq<(&str, &str)>) -> Fields
    decreases hs.len(),
{
    if hs.len() == 0 {
        Fields::empty()
    } else {
        with_field(fields_from(hs.drop_last()), hs.last().0@, hs.last().1@)
    }
}

/// Builds a response. The fields keep the order in which they are given.
pub fn build_response(
    status_code: u16,
    cseq: i64,
    headers: Option<Vec<(&str, &str)>>,
    body: &str,
) -> (r: RtspResponse)
    ensures
        r@ == (ResponseModel {
            status_code,
            cseq: cseq as int,
            headers: match headers {
                Some(hs) => fields_from(hs@),
                None => Fields::empty(),
            },
            body: body@,
        }),
        r.headers.wf(),
{
    let mut out: Headers = Headers::new();
    if let Some(hs) = headers {
        let mut i: usize = 0;
        while i < hs.len()
            invariant
                i <= hs@.len(),
                out@ == fields_from(hs@.take(i as int)),
                out.wf(),
            decreases hs.len() - i,
        {
            assert(hs@.take(i + 1).drop_last() =~= hs@.take(i as int));
            out.insert(hs[i].0.to_owned(), hs[i].1.to_owned());
            i += 1;
        }
        assert(hs@.take(hs@.len() as int) =~= hs@);
    }
    RtspResponse { status_code, cseq, headers: out, body: body.to_owned() }
}

/// The answer to an OPTIONS request: the methods that the sink takes.
pub fn build_options_response(cseq: i64) -> (r: RtspResponse)
    ensures
        r@ == (ResponseModel {
            status_code: RTSP_OK,
            cseq: cseq as int,
            headers: seq![
                (
                    "Public"@,
                    "org.wfa.wfd1.0, GET_PARAMETER, SET_PARAMETER, SETUP, PLAY, TEARDOWN"@,
                ),
            ],
            body: ""@,
        }),
        r.headers.wf(),
{
    let mut hs: Vec<(&str, &str)> = Vec::new();
    hs.push(("Public", "org.wfa.wfd1.0, GET_PARAMETER, SET_PARAMETER, SETUP, PLAY, TEARDOWN"));
    proof {
        reveal_with_fuel(fields_from, 2);
        assert(hs@.drop_last() =~= Seq::empty());
        assert(fields_from(hs@) =~= seq![
            (
                "Public"@,
                "org.wfa.wfd1.0, GET_PARAMETER, SET_PARAMETER, SETUP, PLAY, TEARDOWN"@,
            ),
        ]);
    }
    build_response(RTSP_OK, cseq, Some(hs), "")
}

/// The text of an OPTIONS request from the sink.
pub open spec fn options_request(cseq: int) -> Seq<char> {
    "OPTIONS * RTSP/1.0\r\nCSeq: "@ + dec(cseq) + "\r\nRequire: org.wfa.wfd1.0\r\n\r\n"@
}

/// Builds an OPTIONS request from the sink to the source.
pub fn build_options_request(cseq: i64) -> (r: Vec<u8>)
    ensures
        r@ == encode_utf8(options_request(cseq as int)),
{
    let mut out: String = text::joined(
        "OPTIONS * RTSP/1.0\r\nCSeq: ".to_owned(),
        text::dec_i64(cseq).as_str(),
    );
    out.append("\r\nRequire: org.wfa.wfd1.0\r\n\r\n");
    out.as_str().as_bytes_vec()
}

/// The fields of an OPTIONS request from the sink.
spec fn options_fields(cseq: int) -> Fields {
    seq![("CSeq"@, dec(cseq)), ("Require"@, "org.wfa.wfd1.0"@)]
}

proof fn lemma_options_header(cseq: i64)
    requires
        0 <= cseq,
    ensures
        split_message(options_request(cseq as int)).1 == Seq::<char>::empty(),
        header_lines(split_message(options_request(cseq as int)).0) == seq![
            "OPTIONS * RTSP/1.0"@,
            "CSeq: "@ + dec(cseq as int),
            "Require: org.wfa.wfd1.0"@,
        ],
        encode_utf8(split_message(options_request(cseq as int)).0).len() <= 80,
{
    let n = dec(cseq as int);
    let t = options_request(cseq as int);
    let a = "OPTIONS * RTSP/1.0"@;
    let b = "CSeq: "@ + n;
    let c = "Require: org.wfa.wfd1.0"@;
    let e = "\r\n"@;
    let empty_line = "\r\n\r\n"@;
    text::lemma_digits_read_back(cseq as int, 10, false);
    assert(!a.contains('\r') && a.len() == 18) by {
        reveal_strlit("OPTIONS * RTSP/1.0");
    }
    assert(b.len() == 6 + n.len() && b[0] == 'C' && !b.contains('\r')) by {
        reveal_strlit("CSeq: ");
        assert forall|j: int| 0 <= j < b.len() implies b[j] != '\r' by {
            if j >= 6 {
                assert(b[j] == n[j - 6]);
            }
        }
    }
    assert(!c.contains('\r') && c.len() == 23 && c[0] == 'R') by {
        reveal_strlit("Require: org.wfa.wfd1.0");
    }
    assert(t =~= a + e + (b + e + (c + empty_line + Seq::<char>::empty()))) by {
        reveal_strlit("OPTIONS * RTSP/1.0\r\nCSeq: ");
        reveal_strlit("\r\nRequire: org.wfa.wfd1.0\r\n\r\n");
        reveal_strlit("OPTIONS * RTSP/1.0");
        reveal_strlit("CSeq: ");
        reveal_strlit("Require: org.wfa.wfd1.0");
        reveal_strlit("\r\n");
        reveal_strlit("\r\n\r\n");
    }
    let rest = c + empty_line + Seq::<char>::empty();
    text::lemma_find_empty_line(c, Seq::empty());
    assert(rest[0] == c[0]);
    text::lemma_find_empty_line_later(b, rest);
    let tail = b + e + rest;
    assert(tail[0] == b[0]);
    text::lemma_find_empty_line_later(a, tail);
    let h = a + e + (b + e + c);
    assert(e.len() == 2 && empty_line.len() == 4) by {
        reveal_strlit("\r\n");
        reveal_strlit("\r\n\r\n");
    }
    let k = (a.len() + 2 + b.len() + 2 + c.len()) as int;
    assert(find(t, empty_line) == Some(k));
    assert(t.take(k) =~= h);
    assert(t.skip(k + 4) =~= Seq::<char>::empty());
    text::lemma_split_on_line_end(a, b + e + c);
    text::lemma_split_on_line_end(b, c);
    text::lemma_split_on_one_line(c);
    assert(header_lines(h) =~= seq![a, b, c]);
    lemma_options_size(cseq);
}

proof fn lemma_options_size(cseq: i64)
    requires
        0 <= cseq,
    ensures
        encode_utf8(
            "OPTIONS * RTSP/1.0"@ + "\r\n"@ + ("CSeq: "@ + dec(cseq as int) + "\r\n"@
                + "Require: org.wfa.wfd1.0"@),
        ).len() <= 80,
{
    let n = dec(cseq as int);
    let h = "OPTIONS * RTSP/1.0"@ + "\r\n"@ + ("CSeq: "@ + n + "\r\n"@
        + "Require: org.wfa.wfd1.0"@);
    reveal_strlit("OPTIONS * RTSP/1.0");
    reveal_strlit("CSeq: ");
    reveal_strlit("Require: org.wfa.wfd1.0");
    reveal_strlit("\r\n");
    text::lemma_digits_read_back(cseq as int, 10, false);
    assert(text::pow10(19) > i64::MAX) by {
        reveal_with_fuel(text::pow10, 20);
    }
    text::lemma_digits_len(cseq as int, 19);
    assert forall|i: int| 0 <= i < h.len() implies '\0' <= #[trigger] h[i] <= '\u{7f}' by {
        if 26 <= i < 26 + n.len() {
            assert(h[i] == n[i - 26]);
        } else if i >= 26 + n.len() + 2 {
            assert(h[i] == "Require: org.wfa.wfd1.0"@[i - 28 - n.len()]);
        } else if i >= 26 + n.len() {
            assert(h[i] == "\r\n"@[i - 26 - n.len()]);
        }
    }
    vstd::utf8::is_ascii_chars_encode_utf8(h);
}

proof fn lemma_options_fields(cseq: i64)
    requires
        0 <= cseq,
    ensures
        fields_of(seq!["CSeq: "@ + dec(cseq as int), "Require: org.wfa.wfd1.0"@])
            == options_fields(cseq as int),
{
    let n = dec(cseq as int);
    let ls = seq!["CSeq: "@ + n, "Require: org.wfa.wfd1.0"@];
    text::lemma_dec_read_back(cseq as int);
    assert(!text::is_space(n[0]) && !text::is_space(n[n.len() - 1]));
    reveal_strlit("CSeq: ");
    reveal_strlit("CSeq");
    reveal_strlit("Require: org.wfa.wfd1.0");
    reveal_strlit("Require");
    reveal_strlit("org.wfa.wfd1.0");
    assert(ls[0] =~= "CSeq"@.push(':') + (seq![' '] + n));
    text::lemma_split_once_at("CSeq"@, ':', seq![' '] + n);
    assert(ls[1] =~= "Require"@.push(':') + (seq![' '] + "org.wfa.wfd1.0"@));
    text::lemma_split_once_at("Require"@, ':', seq![' '] + "org.wfa.wfd1.0"@);
    text::lemma_trim_solid("CSeq"@, ' ');
    text::lemma_trim_solid(n, ' ');
    text::lemma_trim_solid("Require"@, ' ');
    text::lemma_trim_solid("org.wfa.wfd1.0"@, ' ');
    let none = Fields::empty();
    lemma_field_index(none, "CSeq"@);
    let one = with_field(none, "CSeq"@, n);
    assert(one =~= seq![("CSeq"@, n)]);
    assert("CSeq"@[0] != "Require"@[0]);
    lemma_field_index(one, "Require"@);
    assert(ls.drop_last() =~= seq![ls[0]]);
    assert(ls.drop_last().drop_last() =~= Seq::<Seq<char>>::empty());
    reveal_with_fuel(fields_of, 3);
    assert(fields_of(ls) =~= options_fields(cseq as int));
}

/// The sink's own OPTIONS request is read as what it was built from.
pub proof fn law_options_request_is_read_back(cseq: i64)
    requires
        0 <= cseq,
    ensures
        parse_text(options_request(cseq as int)) == Ok::<RequestModel, (Seq<char>, u16)>(
            RequestModel {
                method: RtspMethod::Options,
                uri: "*"@,
                version: "RTSP/1.0"@,
                cseq: cseq as int,
                headers: seq![("CSeq"@, dec(cseq as int)), ("Require"@, "org.wfa.wfd1.0"@)],
                body: Seq::empty(),
                content_length: 0,
            },
        ),
        !splits_character(options_request(cseq as int)),
{
    let t = options_request(cseq as int);
    lemma_options_header(cseq);
    lemma_options_fields(cseq);
    text::lemma_dec_read_back(cseq as int);
    let line = "OPTIONS * RTSP/1.0"@;
    let ws = seq!["OPTIONS"@, "*"@, "RTSP/1.0"@];
    assert(join(ws, " "@) == line && (forall|i: int|
        0 <= i < 3 ==> text::is_word(#[trigger] ws[i])) && text::is_solid(line)) by {
        reveal_strlit("OPTIONS * RTSP/1.0");
        reveal_strlit("OPTIONS");
        reveal_strlit("*");
        reveal_strlit("RTSP/1.0");
        reveal_strlit(" ");
        reveal_with_fuel(join, 3);
        assert(ws.drop_last() =~= seq!["OPTIONS"@, "*"@]);
        assert(ws.drop_last().drop_last() =~= seq!["OPTIONS"@]);
        assert(join(ws, " "@) =~= line);
    }
    text::lemma_words_of_join(ws);
    text::lemma_trim_solid(line, ' ');
    assert(RtspMethod::named("OPTIONS"@) == Some(RtspMethod::Options)) by {
        reveal_strlit("OPTIONS");
        assert(ascii_upper("OPTIONS"@) =~= "OPTIONS"@);
    }
    assert("RTSP/"@.is_prefix_of("RTSP/1.0"@)) by {
        reveal_strlit("RTSP/");
        reveal_strlit("RTSP/1.0");
        assert("RTSP/"@ =~= "RTSP/1.0"@.subrange(0, 5));
    }
    let h = options_fields(cseq as int);
    lemma_field_index_at(h, "CSeq"@, 0);
    assert(length_field(h) is None) by {
        reveal_strlit("CSeq");
        reveal_strlit("Require");
        reveal_strlit("Content-Length");
        reveal_strlit("content-length");
        reveal_strlit("Content-length");
        assert("CSeq"@.len() == 4 && "Require"@.len() == 7);
        lemma_field_index(h, "Content-Length"@);
        lemma_field_index(h, "content-length"@);
        lemma_field_index(h, "Content-length"@);
    }
    let ls = header_lines(split_message(t).0);
    assert(ls.skip(1) =~= seq!["CSeq: "@ + dec(cseq as int), "Require: org.wfa.wfd1.0"@]);
    let none = Seq::<char>::empty();
    assert(encode_utf8(none).len() == 0) by {
        vstd::utf8::is_ascii_chars_encode_utf8(none);
    }
    assert(encode_utf8(none).take(0) =~= encode_utf8(none));
    vstd::utf8::is_char_boundary_start_end_of_seq(encode_utf8(none));
}

/// The video formats of a `wfd_video_formats` parameter.
#[derive(Debug, Clone)]
pub struct WfdVideoFormat {
    pub native_index: u32,
    pub preferred_display_mode: u32,
    pub profile: u32,
    pub level: u32,
    pub cea_bitmap: u32,
    pub vesa_bitmap: u32,
    pub hh_bitmap: u32,
    pub latency: u32,
    pub min_slice_size: u32,
    pub slice_enc_params: u32,
    pub frame_rate_control: u32,
    pub max_hres: String,
    pub max_vres: String,
}

/// Video formats as contracts see them.
pub struct VideoModel {
    pub native_index: u32,
    pub preferred_display_mode: u32,
    pub profile: u32,
    pub level: u32,
    pub cea_bitmap: u32,
    pub vesa_bitmap: u32,
    pub hh_bitmap: u32,
    pub latency: u32,
    pub min_slice_size: u32,
    pub slice_enc_params: u32,
    pub frame_rate_control: u32,
    pub max_hres: Seq<char>,
    pub max_vres: Seq<char>,
}

impl View for WfdVideoFormat {
    type V = VideoModel;

    open spec fn view(&self) -> VideoModel {
        VideoModel {
            native_index: self.native_index,
            preferred_display_mode: self.preferred_display_mode,
            profile: self.profile,
            level: self.level,
            cea_bitmap: self.cea_bitmap,
            vesa_bitmap: self.vesa_bitmap,
            hh_bitmap: self.hh_bitmap,
            latency: self.latency,
            min_slice_size: self.min_slice_size,
            slice_enc_params: self.slice_enc_params,
            frame_rate_control: self.frame_rate_control,
            max_hres: self.max_hres@,
            max_vres: self.max_vres@,
        }
    }
}

/// Constrained high profile at level 4.2 with the usual resolutions.
pub open spec fn default_video() -> VideoModel {
    VideoModel {
        native_index: 0,
        preferred_display_mode: 0,
        profile: 0x02,
        level: 0x10,
        cea_bitmap: 0x0001DEFF,
        vesa_bitmap: 0,
        hh_bitmap: 0,
        latency: 0,
        min_slice_size: 0,
        slice_enc_params: 0,
        frame_rate_control: 0,
        max_hres: "none"@,
        max_vres: "none"@,
    }
}

impl Default for WfdVideoFormat {
    fn default() -> (r: WfdVideoFormat)
        ensures
            r@ == default_video(),
    {
        WfdVideoFormat {
            native_index: 0,
            preferred_display_mode: 0,
            profile: 0x02,
            level: 0x10,
            cea_bitmap: 0x0001DEFF,
            vesa_bitmap: 0,
            hh_bitmap: 0,
            latency: 0,
            min_slice_size: 0,
            slice_enc_params: 0,
            frame_rate_control: 0,
            max_hres: "none".to_owned(),
            max_vres: "none".to_owned(),
        }
    }
}

/// The words of a `wfd_video_formats` value.
pub open spec fn video_words(m: VideoModel) -> Seq<Seq<char>> {
    seq![
        hex_upper(m.native_index as int, 2),
        hex_upper(m.preferred_display_mode as int, 2),
        hex_upper(m.profile as int, 2),
        hex_upper(m.level as int, 2),
        hex_upper(m.cea_bitmap as int, 8),
        hex_upper(m.vesa_bitmap as int, 8),
        hex_upper(m.hh_bitmap as int, 8),
        hex_upper(m.latency as int, 2),
        hex_upper(m.min_slice_size as int, 4),
        hex_upper(m.slice_enc_params as int, 4),
        hex_upper(m.frame_rate_control as int, 2),
        m.max_hres,
        m.max_vres,
    ]
}

/// The value of a `wfd_video_formats` parameter.
pub open spec fn video_text(m: VideoModel) -> Seq<char> {
    join(video_words(m), " "@)
}

impl WfdVideoFormat {
    /// The formats as the value of a `wfd_video_formats` parameter.
    pub fn to_wfd_string(&self) -> (r: String)
        ensures
            r@ == video_text(self@),
    {
        let mut parts: Vec<String> = Vec::new();
        parts.push(text::hex_upper_of(self.native_index as u64, 2));
        parts.push(text::hex_upper_of(self.preferred_display_mode as u64, 2));
        parts.push(text::hex_upper_of(self.profile as u64, 2));
        parts.push(text::hex_upper_of(self.level as u64, 2));
        parts.push(text::hex_upper_of(self.cea_bitmap as u64, 8));
        parts.push(text::hex_upper_of(self.vesa_bitmap as u64, 8));
        parts.push(text::hex_upper_of(self.hh_bitmap as u64, 8));
        parts.push(text::hex_upper_of(self.latency as u64, 2));
        parts.push(text::hex_upper_of(self.min_slice_size as u64, 4));
        parts.push(text::hex_upper_of(self.slice_enc_params as u64, 4));
        parts.push(text::hex_upper_of(self.frame_rate_control as u64, 2));
        parts.push(self.max_hres.clone());
        parts.push(self.max_vres.clone());
        assert(strs(parts@) =~= video_words(self@));
        text::join_strings(&parts, " ")
    }

}

/// The formats of a sink that shows at most the given resolution: those of full
/// HD, or those of at most 720 lines.
pub open spec fn video_up_to(width: u32, height: u32) -> VideoModel {
    if width >= 1920 && height >= 1080 {
        VideoModel { native_index: 0x38, cea_bitmap: 0x0001DFFF, ..default_video() }
    } else {
        VideoModel { native_index: 0x28, cea_bitmap: 0x00008C7F, ..default_video() }
    }
}

impl WfdVideoFormat {
    /// The formats of a sink that shows at most the given resolution.
    pub fn for_max_resolution(width: u32, height: u32) -> (r: WfdVideoFormat)
        ensures
            r@ == video_up_to(width, height),
    {
        let d: WfdVideoFormat = WfdVideoFormat::default();
        if width >= 1920 && height >= 1080 {
            WfdVideoFormat { native_index: 0x38, cea_bitmap: 0x0001DFFF, ..d }
        } else {
            WfdVideoFormat { native_index: 0x28, cea_bitmap: 0x00008C7F, ..d }
        }
    }
}

/// The best of the offered formats is full HD where the sink shows that much,
/// and 1280 by 720 otherwise.
pub proof fn law_offer_keeps_to_the_resolution(width: u32, height: u32)
    ensures
        cea_resolution(video_up_to(width, height).cea_bitmap) == if width >= 1920 && height
            >= 1080 {
            (1920u32, 1080u32)
        } else {
            (1280u32, 720u32)
        },
{
    assert(0x0001DFFFu32 & 0x100 != 0) by (bit_vector);
    assert(0x00008C7Fu32 & 0x100 == 0 && 0x00008C7Fu32 & 0x80 == 0 && 0x00008C7Fu32 & 0x40 != 0)
        by (bit_vector);
}

/// The codec of a `wfd_audio_codecs` parameter.
#[derive(Debug, Clone)]
pub struct WfdAudioCodec {
    pub codec: String,
    pub modes_bitmap: u32,
    pub latency: u32,
}

/// An audio codec as contracts see it.
pub struct AudioModel {
    pub codec: Seq<char>,
    pub modes_bitmap: u32,
    pub latency: u32,
}

impl View for WfdAudioCodec {
    type V = AudioModel;

    open spec fn view(&self) -> AudioModel {
        AudioModel {
            codec: self.codec@,
            modes_bitmap: self.modes_bitmap,
            latency: self.latency,
        }
    }
}

/// AAC in its first three modes.
pub open spec fn default_audio() -> AudioModel {
    AudioModel { codec: "AAC"@, modes_bitmap: 7, latency: 0 }
}

impl Default for WfdAudioCodec {
    fn default() -> (r: WfdAudioCodec)
        ensures
            r@ == default_audio(),
    {
        WfdAudioCodec { codec: "AAC".to_owned(), modes_bitmap: 7, latency: 0 }
    }
}

/// The words of a `wfd_audio_codecs` value.
pub open spec fn audio_words(m: AudioModel) -> Seq<Seq<char>> {
    seq![m.codec, hex_upper(m.modes_bitmap as int, 8), hex_upper(m.latency as int, 2)]
}

/// The value of a `wfd_audio_codecs` parameter.
pub open spec fn audio_text(m: AudioModel) -> Seq<char> {
    join(audio_words(m), " "@)
}

impl WfdAudioCodec {
    /// The codec as the value of a `wfd_audio_codecs` parameter.
    pub fn to_wfd_string(&self) -> (r: String)
        ensures
            r@ == audio_text(self@),
    {
        let mut parts: Vec<String> = Vec::new();
        parts.push(self.codec.clone());
        parts.push(text::hex_upper_of(self.modes_bitmap as u64, 8));
        parts.push(text::hex_upper_of(self.latency as u64, 2));
        assert(strs(parts@) =~= audio_words(self@));
        text::join_strings(&parts, " ")
    }
}

/// The parameters of a SET_PARAMETER body.
#[derive(Debug)]
pub struct WfdParameters {
    pub video_formats: Option<WfdVideoFormat>,
    pub audio_codecs: Option<WfdAudioCodec>,
    pub presentation_url: String,
    pub client_rtp_ports: String,
    pub content_protection: String,
    pub rtp_port: i64,
    pub video_codec: String,
    pub audio_codec: String,
    pub resolution: (u32, u32),
}

/// Parameters as contracts see them.
#[verifier::ext_equal]
pub struct ParametersModel {
    pub video_formats: Option<VideoModel>,
    pub audio_codecs: Option<AudioModel>,
    pub presentation_url: Seq<char>,
    pub client_rtp_ports: Seq<char>,
    pub content_protection: Seq<char>,
    pub rtp_port: int,
    pub video_codec: Seq<char>,
    pub audio_codec: Seq<char>,
    pub resolution: (u32, u32),
}

impl View for WfdParameters {
    type V = ParametersModel;

    open spec fn view(&self) -> ParametersModel {
        ParametersModel {
            video_formats: match self.video_formats {
                Some(v) => Some(v@),
                None => None,
            },
            audio_codecs: match self.audio_codecs {
                Some(a) => Some(a@),
                None => None,
            },
            presentation_url: self.presentation_url@,
            client_rtp_ports: self.client_rtp_ports@,
            content_protection: self.content_protection@,
            rtp_port: self.rtp_port as int,
            video_codec: self.video_codec@,
            audio_codec: self.audio_codec@,
            resolution: self.resolution,
        }
    }
}

/// No parameters.
pub open spec fn no_parameters() -> ParametersModel {
    ParametersModel {
        video_formats: None,
        audio_codecs: None,
        presentation_url: Seq::empty(),
        client_rtp_ports: Seq::empty(),
        content_protection: Seq::empty(),
        rtp_port: 0,
        video_codec: Seq::empty(),
        audio_codec: Seq::empty(),
        resolution: (0, 0),
    }
}

impl Default for WfdParameters {
    fn default() -> (r: WfdParameters)
        ensures
            r@ == no_parameters(),
    {
        WfdParameters {
            video_formats: None,
            audio_codecs: None,
            presentation_url: String::new(),
            client_rtp_ports: String::new(),
            content_protection: String::new(),
            rtp_port: 0,
            video_codec: String::new(),
            audio_codec: String::new(),
            resolution: (0, 0),
        }
    }
}

/// The hexadecimal number at a place among the words; `current` where there is
/// none that fits.
pub open spec fn hex_field(parts: Seq<Seq<char>>, idx: int, current: u32) -> u32 {
    if idx < parts.len() {
        match text::as_unsigned(parts[idx], 16, u32::MAX as int) {
            Some(v) => v as u32,
            None => current,
        }
    } else {
        current
    }
}

fn parse_hex_field(parts: &Vec<Vec<char>>, idx: usize, current: u32) -> (r: u32)
    ensures
        r == hex_field(texts(parts@), idx as int, current),
{
    if idx < parts.len() {
        match text::read_unsigned(parts[idx].as_slice(), 16, u32::MAX as u64) {
            Some(v) => v as u32,
            None => current,
        }
    } else {
        current
    }
}

/// The video formats that a value gives; what it leaves out is the default.
pub open spec fn video_of(value: Seq<char>) -> VideoModel {
    let p = words(value);
    let d = default_video();
    VideoModel {
        native_index: hex_field(p, 0, d.native_index),
        preferred_display_mode: hex_field(p, 1, d.preferred_display_mode),
        profile: hex_field(p, 2, d.profile),
        level: hex_field(p, 3, d.level),
        cea_bitmap: hex_field(p, 4, d.cea_bitmap),
        vesa_bitmap: hex_field(p, 5, d.vesa_bitmap),
        hh_bitmap: hex_field(p, 6, d.hh_bitmap),
        latency: hex_field(p, 7, d.latency),
        min_slice_size: hex_field(p, 8, d.min_slice_size),
        slice_enc_params: hex_field(p, 9, d.slice_enc_params),
        frame_rate_control: hex_field(p, 10, d.frame_rate_control),
        max_hres: if p.len() > 11 {
            p[11]
        } else {
            d.max_hres
        },
        max_vres: if p.len() > 12 {
            p[12]
        } else {
            d.max_vres
        },
    }
}

/// Reads the value of a `wfd_video_formats` parameter.
pub fn parse_video_formats(value: &str) -> (r: WfdVideoFormat)
    ensures
        r@ == video_of(value@),
{
    let all: Vec<char> = text::chars_of(value);
    let p: Vec<Vec<char>> = text::words_of(all.as_slice());
    let d: WfdVideoFormat = WfdVideoFormat::default();
    assert(forall|i: int| 0 <= i < p@.len() ==> texts(p@)[i] == p@[i]@);
    WfdVideoFormat {
        native_index: parse_hex_field(&p, 0, d.native_index),
        preferred_display_mode: parse_hex_field(&p, 1, d.preferred_display_mode),
        profile: parse_hex_field(&p, 2, d.profile),
        level: parse_hex_field(&p, 3, d.level),
        cea_bitmap: parse_hex_field(&p, 4, d.cea_bitmap),
        vesa_bitmap: parse_hex_field(&p, 5, d.vesa_bitmap),
        hh_bitmap: parse_hex_field(&p, 6, d.hh_bitmap),
        latency: parse_hex_field(&p, 7, d.latency),
        min_slice_size: parse_hex_field(&p, 8, d.min_slice_size),
        slice_enc_params: parse_hex_field(&p, 9, d.slice_enc_params),
        frame_rate_control: parse_hex_field(&p, 10, d.frame_rate_control),
        max_hres: if p.len() > 11 {
            text::string_of(p[11].as_slice())
        } else {
            d.max_hres
        },
        max_vres: if p.len() > 12 {
            text::string_of(p[12].as_slice())
        } else {
            d.max_vres
        },
    }
}

/// The audio codec that a value gives; what it leaves out is the default.
pub open spec fn audio_of(value: Seq<char>) -> AudioModel {
    let p = words(value);
    let d = default_audio();
    AudioModel {
        codec: if p.len() > 0 {
            p[0]
        } else {
            d.codec
        },
        modes_bitmap: hex_field(p, 1, d.modes_bitmap),
        latency: hex_field(p, 2, d.latency),
    }
}

/// Reads the value of a `wfd_audio_codecs` parameter.
pub fn parse_audio_codecs(value: &str) -> (r: WfdAudioCodec)
    ensures
        r@ == audio_of(value@),
{
    let all: Vec<char> = text::chars_of(value);
    let p: Vec<Vec<char>> = text::words_of(all.as_slice());
    let d: WfdAudioCodec = WfdAudioCodec::default();
    assert(forall|i: int| 0 <= i < p@.len() ==> texts(p@)[i] == p@[i]@);
    WfdAudioCodec {
        codec: if p.len() > 0 {
            text::string_of(p[0].as_slice())
        } else {
            d.codec
        },
        modes_bitmap: parse_hex_field(&p, 1, d.modes_bitmap),
        latency: parse_hex_field(&p, 2, d.latency),
    }
}

/// What is written as video formats is read back as the same formats, provided
/// that its two size limits are single words.
pub proof fn law_video_formats_read_back(m: VideoModel)
    requires
        text::is_word(m.max_hres),
        text::is_word(m.max_vres),
    ensures
        video_of(video_text(m)) == m,
{
    let ws = video_words(m);
    let max = u32::MAX as int;
    text::lemma_hex_upper_read_back(m.native_index as int, 2, max);
    text::lemma_hex_upper_read_back(m.preferred_display_mode as int, 2, max);
    text::lemma_hex_upper_read_back(m.profile as int, 2, max);
    text::lemma_hex_upper_read_back(m.level as int, 2, max);
    text::lemma_hex_upper_read_back(m.cea_bitmap as int, 8, max);
    text::lemma_hex_upper_read_back(m.vesa_bitmap as int, 8, max);
    text::lemma_hex_upper_read_back(m.hh_bitmap as int, 8, max);
    text::lemma_hex_upper_read_back(m.latency as int, 2, max);
    text::lemma_hex_upper_read_back(m.min_slice_size as int, 4, max);
    text::lemma_hex_upper_read_back(m.slice_enc_params as int, 4, max);
    text::lemma_hex_upper_read_back(m.frame_rate_control as int, 2, max);
    text::lemma_words_of_join(ws);
}

/// What is written as an audio codec is read back as the same codec, provided
/// that its name is a single word.
pub proof fn law_audio_codec_read_back(m: AudioModel)
    requires
        text::is_word(m.codec),
    ensures
        audio_of(audio_text(m)) == m,
{
    let ws = audio_words(m);
    text::lemma_hex_upper_read_back(m.modes_bitmap as int, 8, u32::MAX as int);
    text::lemma_hex_upper_read_back(m.latency as int, 2, u32::MAX as int);
    text::lemma_words_of_join(ws);
}

/// The highest resolution among the first nine of a CEA bitmap; full HD where
/// it names none of them.
pub open spec fn cea_resolution(bitmap: u32) -> (u32, u32) {
    if bitmap & 0x100 != 0 || bitmap & 0x80 != 0 {
        (1920, 1080)
    } else if bitmap & 0x40 != 0 || bitmap & 0x20 != 0 {
        (1280, 720)
    } else if bitmap & 0x10 != 0 || bitmap & 0x8 != 0 {
        (720, 576)
    } else if bitmap & 0x4 != 0 || bitmap & 0x2 != 0 {
        (720, 480)
    } else if bitmap & 0x1 != 0 {
        (640, 480)
    } else {
        (1920, 1080)
    }
}

/// Determines the highest resolution of a CEA bitmap.
pub fn resolution_from_cea_bitmap(bitmap: u32) -> (r: (u32, u32))
    ensures
        r == cea_resolution(bitmap),
{
    if bitmap & 0x100 != 0 || bitmap & 0x80 != 0 {
        (1920, 1080)
    } else if bitmap & 0x40 != 0 || bitmap & 0x20 != 0 {
        (1280, 720)
    } else if bitmap & 0x10 != 0 || bitmap & 0x8 != 0 {
        (720, 576)
    } else if bitmap & 0x4 != 0 || bitmap & 0x2 != 0 {
        (720, 480)
    } else if bitmap & 0x1 != 0 {
        (640, 480)
    } else {
        (1920, 1080)
    }
}

/// The port that a `wfd_client_rtp_ports` value names as its second word.
pub open spec fn port_word(value: Seq<char>, current: int) -> int {
    let p = words(value);
    if p.len() >= 2 {
        match as_i64(p[1]) {
            Some(n) => n,
            None => current,
        }
    } else {
        current
    }
}

/// The parameters with the one of the given name set; an unknown name changes
/// nothing.
pub open spec fn with_parameter(
    m: ParametersModel,
    name: Seq<char>,
    value: Seq<char>,
) -> ParametersModel {
    if name == "wfd_video_formats"@ {
        ParametersModel {
            video_formats: Some(video_of(value)),
            resolution: cea_resolution(video_of(value).cea_bitmap),
            video_codec: "H264"@,
            ..m
        }
    } else if name == "wfd_audio_codecs"@ {
        ParametersModel {
            audio_codecs: Some(audio_of(value)),
            audio_codec: audio_of(value).codec,
            ..m
        }
    } else if name == "wfd_presentation_url"@ {
        ParametersModel { presentation_url: value, ..m }
    } else if name == "wfd_client_rtp_ports"@ {
        ParametersModel {
            client_rtp_ports: value,
            rtp_port: port_word(value, m.rtp_port),
            ..m
        }
    } else if name == "wfd_content_protection"@ {
        ParametersModel { content_protection: value, ..m }
    } else {
        m
    }
}

/// The parameters with that of one more line. A later line of the same name
/// replaces an earlier one.
pub open spec fn add_parameter(m: ParametersModel, raw: Seq<char>) -> ParametersModel {
    match split_once(trim(raw), ':') {
        Some(kv) => with_parameter(m, ascii_lower(trim(kv.0)), trim(kv.1)),
        None => m,
    }
}

/// The parameters of the given lines.
pub open spec fn parameters_of(lines: Seq<Seq<char>>) -> ParametersModel
    decreases lines.len(),
{
    if lines.len() == 0 {
        no_parameters()
    } else {
        add_parameter(parameters_of(lines.drop_last()), lines.last())
    }
}

fn take_parameter(mut p: WfdParameters, raw: &[char]) -> (r: WfdParameters)
    ensures
        r@ == add_parameter(p@, raw@),
{
    let line: &[char] = text::trimmed(raw);
    match text::cut_once(line, ':') {
        None => p,
        Some((k, v)) => {
            let key: Vec<char> = text::lowered(text::trimmed(k));
            let name: &[char] = key.as_slice();
            let value: &[char] = text::trimmed(v);
            let value_text: String = text::string_of(value);
            if text::is_text(name, "wfd_video_formats") {
                let fmt: WfdVideoFormat = parse_video_formats(value_text.as_str());
                p.resolution = resolution_from_cea_bitmap(fmt.cea_bitmap);
                p.video_formats = Some(fmt);
                p.video_codec = "H264".to_owned();
            } else if text::is_text(name, "wfd_audio_codecs") {
                let codec: WfdAudioCodec = parse_audio_codecs(value_text.as_str());
                p.audio_codec = codec.codec.clone();
                p.audio_codecs = Some(codec);
            } else if text::is_text(name, "wfd_presentation_url") {
                p.presentation_url = value_text;
            } else if text::is_text(name, "wfd_client_rtp_ports") {
                let parts: Vec<Vec<char>> = text::words_of(value);
                assert(parts@.len() >= 2 ==> texts(parts@)[1] == parts@[1]@);
                if parts.len() >= 2 {
                    if let Some(n) = text::read_i64(parts[1].as_slice()) {
                        p.rtp_port = n;
                    }
                }
                p.client_rtp_ports = value_text;
            } else if text::is_text(name, "wfd_content_protection") {
                p.content_protection = value_text;
            }
            p
        },
    }
}

/// Reads the parameters of a SET_PARAMETER body.
pub fn parse_wfd_parameters(body: &str) -> (r: WfdParameters)
    ensures
        r@ == parameters_of(split_char(trim(body@), '\n')),
{
    let all: Vec<char> = text::chars_of(body);
    let lines: Vec<Vec<char>> = text::pieces(text::trimmed(all.as_slice()), '\n');
    let ghost ls = texts(lines@);
    let mut p: WfdParameters = WfdParameters::default();
    let mut i: usize = 0;
    while i < lines.len()
        invariant
            i <= lines@.len(),
            ls == texts(lines@),
            p@ == parameters_of(ls.take(i as int)),
        decreases lines.len() - i,
    {
        assert(ls.take(i + 1).drop_last() =~= ls.take(i as int));
        p = take_parameter(p, lines[i].as_slice());
        i += 1;
    }
    assert(ls.take(ls.len() as int) =~= ls);
    p
}

/// The body of the answer that offers the sink's capabilities.
pub open spec fn capability_lines(rtp_port: int, v: VideoModel, a: AudioModel) -> Seq<Seq<char>> {
    seq![
        "wfd_video_formats: "@ + video_text(v),
        "wfd_audio_codecs: "@ + audio_text(a),
        "wfd_client_rtp_ports: RTP/AVP/UDP;unicast "@ + dec(rtp_port) + " 0 mode=play"@,
        "wfd_content_protection: none"@,
        "wfd_coupled_sink: none"@,
    ]
}

/// Builds the body of the answer to a GET_PARAMETER request; what is not given
/// is the default.
pub fn build_capability_response_body(
    rtp_port: i64,
    video_formats: Option<&WfdVideoFormat>,
    audio_codecs: Option<&WfdAudioCodec>,
) -> (r: String)
    ensures
        r@ == join(
            capability_lines(
                rtp_port as int,
                match video_formats {
                    Some(v) => v@,
                    None => default_video(),
                },
                match audio_codecs {
                    Some(a) => a@,
                    None => default_audio(),
                },
            ),
            "\r\n"@,
        ),
{
    let v: String = match video_formats {
        Some(v) => v.to_wfd_string(),
        None => WfdVideoFormat::default().to_wfd_string(),
    };
    let a: String = match audio_codecs {
        Some(a) => a.to_wfd_string(),
        None => WfdAudioCodec::default().to_wfd_string(),
    };
    let mut lines: Vec<String> = Vec::new();
    lines.push(text::joined("wfd_video_formats: ".to_owned(), v.as_str()));
    lines.push(text::joined("wfd_audio_codecs: ".to_owned(), a.as_str()));
    let mut ports: String = text::joined(
        "wfd_client_rtp_ports: RTP/AVP/UDP;unicast ".to_owned(),
        text::dec_i64(rtp_port).as_str(),
    );
    ports.append(" 0 mode=play");
    lines.push(ports);
    lines.push("wfd_content_protection: none".to_owned());
    lines.push("wfd_coupled_sink: none".to_owned());
    proof {
        let vm = match video_formats {
            Some(v) => v@,
            None => default_video(),
        };
        let am = match audio_codecs {
            Some(a) => a@,
            None => default_audio(),
        };
        assert(strs(lines@) =~= capability_lines(rtp_port as int, vm, am));
    }
    text::join_strings(&lines, "\r\n")
}

/// The line of a parameter.
pub open spec fn parameter_line(name: Seq<char>, value: Seq<char>) -> Seq<char> {
    name + ": "@ + value
}

spec fn is_parameter_name(name: Seq<char>) -> bool {
    text::is_word(name) && !name.contains(':') && ascii_lower(name) == name
}

/// The line of a parameter is read as its name and its value, with or without
/// the carriage return that ends it.
proof fn lemma_parameter_line(m: ParametersModel, name: Seq<char>, value: Seq<char>)
    requires
        is_parameter_name(name),
        text::is_solid(value),
        !value.contains('\n'),
    ensures
        add_parameter(m, parameter_line(name, value)) == with_parameter(m, name, value),
        add_parameter(m, parameter_line(name, value).push('\r')) == with_parameter(m, name, value),
        text::is_solid(parameter_line(name, value)),
        !parameter_line(name, value).contains('\n'),
{
    reveal_strlit(": ");
    let line = parameter_line(name, value);
    assert(!text::is_space(name[0]) && !text::is_space(name[name.len() - 1]));
    assert(line[0] == name[0] && line.last() == value.last());
    text::lemma_trim_solid(line, '\r');
    text::lemma_trim_solid(name, ' ');
    text::lemma_trim_solid(value, ' ');
    assert(line =~= name.push(':') + (seq![' '] + value));
    text::lemma_split_once_at(name, ':', seq![' '] + value);
    assert forall|j: int| 0 <= j < line.len() implies line[j] != '\n' by {
        if j < name.len() {
            assert(line[j] == name[j]);
            assert(!text::is_space(name[j]));
        } else if j >= name.len() + 2 {
            assert(line[j] == value[j - name.len() - 2]);
            assert(value.contains(line[j]));
        }
    }
}

/// The lines of joined texts that have none in them.
proof fn lemma_lines_of_join(ls: Seq<Seq<char>>)
    requires
        ls.len() > 0,
        forall|i: int| 0 <= i < ls.len() ==> !(#[trigger] ls[i]).contains('\n'),
    ensures
        split_char(join(ls, "\r\n"@), '\n') == ended_lines(ls),
    decreases ls.len(),
{
    reveal_strlit("\r\n");
    assert(!ls[ls.len() - 1].contains('\n'));
    text::lemma_split_char_solid(ls.last(), '\n');
    if ls.len() == 1 {
        assert(ended_lines(ls) =~= seq![ls.last()]);
    } else {
        let front = ls.drop_last();
        assert forall|i: int| 0 <= i < front.len() implies !(#[trigger] front[i]).contains(
            '\n',
        ) by {
            assert(front[i] == ls[i]);
        }
        lemma_lines_of_join(front);
        let a = join(front, "\r\n"@);
        assert(join(ls, "\r\n"@) =~= a.push('\r').push('\n') + ls.last());
        text::lemma_split_char_between(a.push('\r'), '\n', ls.last());
        assert(a.push('\r').drop_last() =~= a);
        text::lemma_split_char_some(a, '\n');
        assert(split_char(a.push('\r'), '\n') + seq![ls.last()] =~= ended_lines(ls));
    }
}

/// Lines of which each but the last ends in a carriage return.
spec fn ended_lines(ls: Seq<Seq<char>>) -> Seq<Seq<char>> {
    Seq::new(
        ls.len(),
        |i: int|
            if i < ls.len() - 1 {
                ls[i].push('\r')
            } else {
                ls[i]
            },
    )
}

/// Texts without white space around them that are joined have none around them.
proof fn lemma_join_is_solid(ls: Seq<Seq<char>>, sep: Seq<char>)
    requires
        ls.len() > 0,
        text::is_solid(ls[0]),
        text::is_solid(ls.last()),
    ensures
        join(ls, sep).len() > 0,
        join(ls, sep)[0] == ls[0][0],
        text::is_solid(join(ls, sep)),
    decreases ls.len(),
{
    if ls.len() > 1 {
        let front = ls.drop_last();
        let a = join(front, sep);
        lemma_join_starts(front, sep);
        assert(join(ls, sep) == a + sep + ls.last());
        assert(join(ls, sep)[0] == a[0]);
        assert(join(ls, sep).last() == ls.last().last());
    }
}

proof fn lemma_join_starts(ls: Seq<Seq<char>>, sep: Seq<char>)
    requires
        ls.len() > 0,
        ls[0].len() > 0,
    ensures
        join(ls, sep).len() > 0,
        join(ls, sep)[0] == ls[0][0],
    decreases ls.len(),
{
    if ls.len() > 1 {
        lemma_join_starts(ls.drop_last(), sep);
    }
}

/// The value of a `wfd_client_rtp_ports` parameter.
pub open spec fn ports_text(rtp_port: int) -> Seq<char> {
    "RTP/AVP/UDP;unicast "@ + dec(rtp_port) + " 0 mode=play"@
}

proof fn lemma_ports_read_back(rtp_port: i64, current: int)
    ensures
        port_word(ports_text(rtp_port as int), current) == rtp_port,
        text::is_solid(ports_text(rtp_port as int)),
        !ports_text(rtp_port as int).contains('\n'),
{
    let n = dec(rtp_port as int);
    let ws = seq!["RTP/AVP/UDP;unicast"@, n, "0"@, "mode=play"@];
    text::lemma_dec_read_back(rtp_port as int);
    reveal_strlit("RTP/AVP/UDP;unicast ");
    reveal_strlit("RTP/AVP/UDP;unicast");
    reveal_strlit(" 0 mode=play");
    reveal_strlit("0");
    reveal_strlit("mode=play");
    reveal_strlit(" ");
    assert(ws.drop_last() =~= seq!["RTP/AVP/UDP;unicast"@, n, "0"@]);
    assert(ws.drop_last().drop_last() =~= seq!["RTP/AVP/UDP;unicast"@, n]);
    assert(ws.drop_last().drop_last().drop_last() =~= seq!["RTP/AVP/UDP;unicast"@]);
    reveal_with_fuel(join, 4);
    assert(join(ws, " "@) =~= ports_text(rtp_port as int));
    text::lemma_words_of_join(ws);
    text::lemma_joined_words_are_solid(ws);
}

proof fn lemma_capability_lines(rtp_port: int, v: VideoModel, a: AudioModel)
    ensures
        capability_lines(rtp_port, v, a) == seq![
            parameter_line("wfd_video_formats"@, video_text(v)),
            parameter_line("wfd_audio_codecs"@, audio_text(a)),
            parameter_line("wfd_client_rtp_ports"@, ports_text(rtp_port)),
            parameter_line("wfd_content_protection"@, "none"@),
            parameter_line("wfd_coupled_sink"@, "none"@),
        ],
{
    let ls = capability_lines(rtp_port, v, a);
    reveal_strlit(": ");
    assert(ls[0] =~= parameter_line("wfd_video_formats"@, video_text(v))) by {
        reveal_strlit("wfd_video_formats: ");
        reveal_strlit("wfd_video_formats");
    }
    assert(ls[1] =~= parameter_line("wfd_audio_codecs"@, audio_text(a))) by {
        reveal_strlit("wfd_audio_codecs: ");
        reveal_strlit("wfd_audio_codecs");
    }
    assert(ls[2] =~= parameter_line("wfd_client_rtp_ports"@, ports_text(rtp_port))) by {
        reveal_strlit("wfd_client_rtp_ports: RTP/AVP/UDP;unicast ");
        reveal_strlit("wfd_client_rtp_ports");
        reveal_strlit("RTP/AVP/UDP;unicast ");
    }
    assert(ls[3] =~= parameter_line("wfd_content_protection"@, "none"@)) by {
        reveal_strlit("wfd_content_protection: none");
        reveal_strlit("wfd_content_protection");
        reveal_strlit("none");
    }
    assert(ls[4] =~= parameter_line("wfd_coupled_sink"@, "none"@)) by {
        reveal_strlit("wfd_coupled_sink: none");
        reveal_strlit("wfd_coupled_sink");
        reveal_strlit("none");
    }
}

/// The parameters after the given ones are set, one after the other.
spec fn parameters_from(ps: Fields) -> ParametersModel
    decreases ps.len(),
{
    if ps.len() == 0 {
        no_parameters()
    } else {
        with_parameter(parameters_from(ps.drop_last()), ps.last().0, ps.last().1)
    }
}

/// Lines that are written one below the other are read as the parameters that
/// they were written for.
proof fn lemma_parameters_read_back(ps: Fields, ls: Seq<Seq<char>>, n: int)
    requires
        0 <= n <= ps.len(),
        ls.len() == ps.len(),
        forall|i: int|
            0 <= i < ps.len() ==> is_parameter_name(#[trigger] ps[i].0) && text::is_solid(ps[i].1)
                && !ps[i].1.contains('\n') && ls[i] == parameter_line(ps[i].0, ps[i].1),
    ensures
        parameters_of(ended_lines(ls).take(n)) == parameters_from(ps.take(n)),
    decreases n,
{
    if n > 0 {
        lemma_parameters_read_back(ps, ls, n - 1);
        assert(ended_lines(ls).take(n).drop_last() =~= ended_lines(ls).take(n - 1));
        assert(ps.take(n).drop_last() =~= ps.take(n - 1));
        let f = ps[n - 1];
        assert(is_parameter_name(ps[n - 1].0));
        lemma_parameter_line(parameters_from(ps.take(n - 1)), f.0, f.1);
    }
}

/// The parameters that the offered capabilities hold.
spec fn capability_fields(rtp_port: int, v: VideoModel, a: AudioModel) -> Fields {
    seq![
        ("wfd_video_formats"@, video_text(v)),
        ("wfd_audio_codecs"@, audio_text(a)),
        ("wfd_client_rtp_ports"@, ports_text(rtp_port)),
        ("wfd_content_protection"@, "none"@),
        ("wfd_coupled_sink"@, "none"@),
    ]
}

proof fn lemma_capability_fields(rtp_port: i64, v: VideoModel, a: AudioModel)
    requires
        text::is_word(v.max_hres),
        text::is_word(v.max_vres),
        text::is_word(a.codec),
    ensures
        parameters_of(
            split_char(trim(join(capability_lines(rtp_port as int, v, a), "\r\n"@)), '\n'),
        ) == parameters_from(capability_fields(rtp_port as int, v, a)),
{
    let ls = capability_lines(rtp_port as int, v, a);
    let ps = capability_fields(rtp_port as int, v, a);
    lemma_capability_lines(rtp_port as int, v, a);
    lemma_video_words(v);
    lemma_audio_words(a);
    lemma_ports_read_back(rtp_port, 0);
    lemma_parameter_names();
    assert(text::is_solid("none"@) && !"none"@.contains('\n')) by {
        reveal_strlit("none");
    }
    assert forall|i: int| 0 <= i < ls.len() implies !(#[trigger] ls[i]).contains('\n')
        && text::is_solid(ls[i]) by {
        lemma_parameter_line(no_parameters(), ps[i].0, ps[i].1);
    }
    assert(text::is_solid(ls[0]) && text::is_solid(ls[4]));
    lemma_lines_of_join(ls);
    lemma_join_is_solid(ls, "\r\n"@);
    text::lemma_trim_solid(join(ls, "\r\n"@), ' ');
    lemma_parameters_read_back(ps, ls, 5);
    assert(ended_lines(ls).take(5) =~= ended_lines(ls));
    assert(ps.take(5) =~= ps);
}

/// A source that reads the offered capabilities finds in them the formats, the
/// codec and the port that they were built from, provided that the texts among
/// these are single words.
pub proof fn law_capabilities_read_back(rtp_port: i64, v: VideoModel, a: AudioModel)
    requires
        text::is_word(v.max_hres),
        text::is_word(v.max_vres),
        text::is_word(a.codec),
    ensures
        parameters_of(
            split_char(trim(join(capability_lines(rtp_port as int, v, a), "\r\n"@)), '\n'),
        ) == (ParametersModel {
            video_formats: Some(v),
            audio_codecs: Some(a),
            presentation_url: Seq::empty(),
            client_rtp_ports: ports_text(rtp_port as int),
            content_protection: "none"@,
            rtp_port: rtp_port as int,
            video_codec: "H264"@,
            audio_codec: a.codec,
            resolution: cea_resolution(v.cea_bitmap),
        }),
{
    let ps = capability_fields(rtp_port as int, v, a);
    lemma_capability_fields(rtp_port, v, a);
    law_video_formats_read_back(v);
    law_audio_codec_read_back(a);
    lemma_parameter_names();
    let p0 = no_parameters();
    let p1 = with_parameter(p0, "wfd_video_formats"@, video_text(v));
    let p2 = with_parameter(p1, "wfd_audio_codecs"@, audio_text(a));
    lemma_ports_read_back(rtp_port, p2.rtp_port);
    let p3 = with_parameter(p2, "wfd_client_rtp_ports"@, ports_text(rtp_port as int));
    let p4 = with_parameter(p3, "wfd_content_protection"@, "none"@);
    assert(ps.take(5) =~= ps);
    assert(ps.take(5).drop_last() =~= ps.take(4));
    assert(ps.take(4).drop_last() =~= ps.take(3));
    assert(ps.take(3).drop_last() =~= ps.take(2));
    assert(ps.take(2).drop_last() =~= ps.take(1));
    assert(ps.take(1).drop_last() =~= ps.take(0));
    assert(parameters_from(ps.take(0)) == p0);
    assert(parameters_from(ps.take(1)) == p1);
    assert(parameters_from(ps.take(2)) == p2);
    assert(parameters_from(ps.take(3)) == p3);
    assert(parameters_from(ps.take(4)) == p4);
    assert(parameters_from(ps.take(5)) == p4);
}

proof fn lemma_video_words(m: VideoModel)
    requires
        text::is_word(m.max_hres),
        text::is_word(m.max_vres),
    ensures
        text::is_solid(video_text(m)),
        !video_text(m).contains('\n'),
{
    let max = u32::MAX as int;
    text::lemma_hex_upper_read_back(m.native_index as int, 2, max);
    text::lemma_hex_upper_read_back(m.preferred_display_mode as int, 2, max);
    text::lemma_hex_upper_read_back(m.profile as int, 2, max);
    text::lemma_hex_upper_read_back(m.level as int, 2, max);
    text::lemma_hex_upper_read_back(m.cea_bitmap as int, 8, max);
    text::lemma_hex_upper_read_back(m.vesa_bitmap as int, 8, max);
    text::lemma_hex_upper_read_back(m.hh_bitmap as int, 8, max);
    text::lemma_hex_upper_read_back(m.latency as int, 2, max);
    text::lemma_hex_upper_read_back(m.min_slice_size as int, 4, max);
    text::lemma_hex_upper_read_back(m.slice_enc_params as int, 4, max);
    text::lemma_hex_upper_read_back(m.frame_rate_control as int, 2, max);
    text::lemma_joined_words_are_solid(video_words(m));
}

proof fn lemma_audio_words(m: AudioModel)
    requires
        text::is_word(m.codec),
    ensures
        text::is_solid(audio_text(m)),
        !audio_text(m).contains('\n'),
{
    text::lemma_hex_upper_read_back(m.modes_bitmap as int, 8, u32::MAX as int);
    text::lemma_hex_upper_read_back(m.latency as int, 2, u32::MAX as int);
    text::lemma_joined_words_are_solid(audio_words(m));
}

/// The names of the offered parameters are words in lower case, and they
/// differ.
proof fn lemma_parameter_names()
    ensures
        is_parameter_name("wfd_video_formats"@),
        is_parameter_name("wfd_audio_codecs"@),
        is_parameter_name("wfd_client_rtp_ports"@),
        is_parameter_name("wfd_content_protection"@),
        is_parameter_name("wfd_coupled_sink"@),
        "wfd_audio_codecs"@ != "wfd_video_formats"@,
        "wfd_client_rtp_ports"@ != "wfd_video_formats"@,
        "wfd_client_rtp_ports"@ != "wfd_audio_codecs"@,
        "wfd_client_rtp_ports"@ != "wfd_presentation_url"@,
        "wfd_content_protection"@ != "wfd_video_formats"@,
        "wfd_content_protection"@ != "wfd_audio_codecs"@,
        "wfd_content_protection"@ != "wfd_presentation_url"@,
        "wfd_content_protection"@ != "wfd_client_rtp_ports"@,
        "wfd_coupled_sink"@ != "wfd_video_formats"@,
        "wfd_coupled_sink"@ != "wfd_audio_codecs"@,
        "wfd_coupled_sink"@ != "wfd_presentation_url"@,
        "wfd_coupled_sink"@ != "wfd_client_rtp_ports"@,
        "wfd_coupled_sink"@ != "wfd_content_protection"@,
{
    reveal_strlit("wfd_video_formats");
    reveal_strlit("wfd_audio_codecs");
    reveal_strlit("wfd_client_rtp_ports");
    reveal_strlit("wfd_content_protection");
    reveal_strlit("wfd_coupled_sink");
    reveal_strlit("wfd_presentation_url");
    assert(ascii_lower("wfd_video_formats"@) =~= "wfd_video_formats"@);
    assert(ascii_lower("wfd_audio_codecs"@) =~= "wfd_audio_codecs"@);
    assert(ascii_lower("wfd_client_rtp_ports"@) =~= "wfd_client_rtp_ports"@);
    assert(ascii_lower("wfd_content_protection"@) =~= "wfd_content_protection"@);
    assert(ascii_lower("wfd_coupled_sink"@) =~= "wfd_coupled_sink"@);
    assert("wfd_audio_codecs"@[4] != "wfd_video_formats"@[4]);
    assert("wfd_client_rtp_ports"@[4] != "wfd_video_formats"@[4]);
    assert("wfd_client_rtp_ports"@[4] != "wfd_audio_codecs"@[4]);
    assert("wfd_client_rtp_ports"@[4] != "wfd_presentation_url"@[4]);
    assert("wfd_content_protection"@[5] != "wfd_client_rtp_ports"@[5]);
    assert("wfd_coupled_sink"@[6] != "wfd_content_protection"@[6]);
    assert("wfd_content_protection"@[4] != "wfd_presentation_url"@[4]);
    assert("wfd_coupled_sink"@[5] != "wfd_client_rtp_ports"@[5]);
}

fn stands_at(s: &[u8], pat: &[u8], at: usize) -> (r: bool)
    requires
        at + pat@.len() <= s@.len(),
    ensures
        r == text::occurs_at(s@, pat@, at as int),
{
    let ghost w = s@.subrange(at as int, at + pat@.len());
    let n: usize = pat.len();
    let total: usize = s.len();
    let mut j: usize = 0;
    while j < n
        invariant
            j <= n,
            n == pat@.len(),
            total == s@.len(),
            at + n <= total,
            w == s@.subrange(at as int, at + n),
            forall|k: int| 0 <= k < j ==> w[k] == pat@[k],
        decreases n - j,
    {
        if s[at + j] != pat[j] {
            assert(w[j as int] != pat@[j as int]);
            return false;
        }
        j += 1;
    }
    assert(w =~= pat@);
    true
}

/// Finds the first place of the needle in the haystack.
pub fn find_subslice(haystack: &[u8], needle: &[u8]) -> (r: Option<usize>)
    requires
        needle@.len() > 0,
    ensures
        match r {
            Some(k) => find(haystack@, needle@) == Some(k as int) && k + needle@.len()
                <= haystack@.len(),
            None => find(haystack@, needle@) is None,
        },
{
    let mut i: usize = 0;
    while i < haystack.len() && needle.len() <= haystack.len() - i
        invariant
            i <= haystack@.len(),
            needle@.len() > 0,
            find(haystack@, needle@) == text::find_from(haystack@, needle@, i as int),
        decreases haystack.len() - i,
    {
        if stands_at(haystack, needle, i) {
            return Some(i);
        }
        i += 1;
    }
    None
}

/// The empty line that ends a header block.
pub open spec fn blank_line() -> Seq<u8> {
    seq![13u8, 10u8, 13u8, 10u8]
}

/// What is wrong with the sizes of a message, judged by its bytes alone.
pub open spec fn size_fault(data: Seq<u8>) -> Option<(Seq<char>, u16)> {
    if data.len() > MAX_HEADER_SIZE + MAX_BODY_SIZE {
        Some(("Request exceeds maximum allowed size"@, RTSP_REQUEST_ENTITY_TOO_LARGE))
    } else {
        match find(data, blank_line()) {
            Some(k) => if k > MAX_HEADER_SIZE {
                Some(("Request headers exceed 8192 bytes"@, RTSP_REQUEST_ENTITY_TOO_LARGE))
            } else if data.len() - k - 4 > MAX_BODY_SIZE {
                Some(("Request body exceeds 65536 bytes"@, RTSP_REQUEST_ENTITY_TOO_LARGE))
            } else {
                None
            },
            None => if data.len() > MAX_HEADER_SIZE {
                Some(
                    (
                        "Request headers exceed 8192 bytes (no body separator)"@,
                        RTSP_REQUEST_ENTITY_TOO_LARGE,
                    ),
                )
            } else {
                None
            },
        }
    }
}

/// Whether a line is a `Content-Length` field, in whatever case.
pub open spec fn is_length_line(line: Seq<char>) -> bool {
    "content-length:"@.is_prefix_of(ascii_lower(line))
}

/// What is wrong with the length that a line declares.
pub open spec fn length_fault(line: Seq<char>) -> Option<(Seq<char>, u16)> {
    let value = match split_once(line, ':') {
        Some(kv) => trim(kv.1),
        None => Seq::empty(),
    };
    match as_i64(value) {
        None => Some(("Invalid Content-Length value"@, RTSP_BAD_REQUEST)),
        Some(n) => if n > MAX_BODY_SIZE {
            Some(
                (
                    "Content-Length "@ + dec(n) + " exceeds 65536 bytes"@,
                    RTSP_REQUEST_ENTITY_TOO_LARGE,
                ),
            )
        } else if n < 0 {
            Some(("Negative Content-Length"@, RTSP_BAD_REQUEST))
        } else {
            None
        },
    }
}

/// What is wrong with the first length that the lines declare.
pub open spec fn declared_fault(lines: Seq<Seq<char>>) -> Option<(Seq<char>, u16)>
    decreases lines.len(),
{
    if lines.len() == 0 {
        None
    } else if is_length_line(lines[0]) {
        length_fault(lines[0])
    } else {
        declared_fault(lines.skip(1))
    }
}

/// A size check as contracts see it.
pub open spec fn fault_of(r: Result<(), RtspParseError>) -> Option<(Seq<char>, u16)> {
    match r {
        Ok(_) => None,
        Err(e) => Some(e@),
    }
}

/// Checks the length that the text of a message declares.
pub fn check_declared_length(t: &str) -> (r: Result<(), RtspParseError>)
    ensures
        fault_of(r) == declared_fault(split_on(t@, "\r\n"@)),
{
    proof {
        reveal_strlit("\r\n");
    }
    let all: Vec<char> = text::chars_of(t);
    let lines: Vec<Vec<char>> = text::pieces_on(all.as_slice(), "\r\n");
    let ghost ls = texts(lines@);
    let mut i: usize = 0;
    assert(ls.skip(0) =~= ls);
    while i < lines.len()
        invariant
            i <= lines@.len(),
            ls == texts(lines@),
            declared_fault(ls) == declared_fault(ls.skip(i as int)),
            ls == split_on(t@, "\r\n"@),
        decreases lines.len() - i,
    {
        let line: &[char] = lines[i].as_slice();
        assert(ls.skip(i as int)[0] == line@);
        if text::begins_with(text::lowered(line).as_slice(), "content-length:") {
            let value: Vec<char> = match text::cut_once(line, ':') {
                Some((_, v)) => text::copied(text::trimmed(v)),
                None => Vec::new(),
            };
            return match text::read_i64(value.as_slice()) {
                None => Err(
                    RtspParseError::with_code("Invalid Content-Length value", RTSP_BAD_REQUEST),
                ),
                Some(n) => if n > MAX_BODY_SIZE as i64 {
                    let mut m: String = text::joined(
                        "Content-Length ".to_owned(),
                        text::dec_i64(n).as_str(),
                    );
                    m.append(" exceeds 65536 bytes");
                    Err(RtspParseError::with_code(m.as_str(), RTSP_REQUEST_ENTITY_TOO_LARGE))
                } else if n < 0 {
                    Err(RtspParseError::with_code("Negative Content-Length", RTSP_BAD_REQUEST))
                } else {
                    Ok(())
                },
            };
        }
        assert(ls.skip(i as int).skip(1) =~= ls.skip(i + 1));
        i += 1;
    }
    Ok(())
}

/// Checks that a raw message keeps the size limits.
pub fn validate_request_size(data: &[u8]) -> (r: Result<(), RtspParseError>)
    ensures
        fault_of(r) == match size_fault(data@) {
            Some(f) => Some(f),
            None => declared_fault(split_on(utf8_lossy(data@), "\r\n"@)),
        },
        valid_utf8(data@) ==> fault_of(r) == match size_fault(data@) {
            Some(f) => Some(f),
            None => declared_fault(split_on(decode_utf8(data@), "\r\n"@)),
        },
{
    if data.len() > MAX_HEADER_SIZE + MAX_BODY_SIZE {
        return Err(
            RtspParseError::with_code(
                "Request exceeds maximum allowed size",
                RTSP_REQUEST_ENTITY_TOO_LARGE,
            ),
        );
    }
    let needle: [u8; 4] = [13, 10, 13, 10];
    assert(needle@ =~= blank_line());
    match find_subslice(data, needle.as_slice()) {
        Some(k) => {
            if k > MAX_HEADER_SIZE {
                return Err(
                    RtspParseError::with_code(
                        "Request headers exceed 8192 bytes",
                        RTSP_REQUEST_ENTITY_TOO_LARGE,
                    ),
                );
            }
            if data.len() - k - 4 > MAX_BODY_SIZE {
                return Err(
                    RtspParseError::with_code(
                        "Request body exceeds 65536 bytes",
                        RTSP_REQUEST_ENTITY_TOO_LARGE,
                    ),
                );
            }
        },
        None => {
            if data.len() > MAX_HEADER_SIZE {
                return Err(
                    RtspParseError::with_code(
                        "Request headers exceed 8192 bytes (no body separator)",
                        RTSP_REQUEST_ENTITY_TOO_LARGE,
                    ),
                );
            }
        },
    }
    let t: String = from_utf8_lossy(data);
    check_declared_length(t.as_str())
}

} // verus!
