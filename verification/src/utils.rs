//! Checks on what is handed to outside programs, and what their answers mean.

pub mod laws;
pub mod search;

use vstd::prelude::*;
use vstd::utf8::encode_utf8;
use crate::outside::{debug_form, debug_quoted, from_utf8_lossy, regex_is_match, utf8_lossy};
use crate::text;
use crate::text::{contains, dec, join, lines, split_char, strs, texts, trim};

verus! {

/// The characters of which a parameter for wpa_cli may be made.
pub const WPA_PARAM_PATTERN: &'static str = r"^[a-zA-Z0-9:\-_./ ]+$";

/// Whether a character may stand in a parameter for wpa_cli.
pub open spec fn is_safe_char(c: char) -> bool {
    ||| 'a' <= c && c <= 'z'
    ||| 'A' <= c && c <= 'Z'
    ||| '0' <= c && c <= '9'
    ||| c == ':' || c == '-' || c == '_' || c == '.' || c == '/' || c == ' '
}

/// Whether a parameter is made of safe characters, at least one.
pub open spec fn is_safe_param(s: Seq<char>) -> bool {
    s.len() > 0 && forall|i: int| 0 <= i < s.len() ==> is_safe_char(#[trigger] s[i])
}

/// The longest parameter for wpa_cli in bytes.
pub const WPA_PARAM_MAX_LENGTH: usize = 256;

/// The largest RTSP header block in bytes.
pub const RTSP_MAX_HEADER_SIZE: usize = 8192;

/// The largest RTSP body in bytes.
pub const RTSP_MAX_BODY_SIZE: usize = 65536;

/// Why wpa_cli was not run, or failed.
#[derive(Debug, Clone)]
pub enum WpaError {
    /// A parameter was refused.
    Value(String),
    /// The command failed, took too long, or could not be run.
    Runtime(String),
}

/// An error as contracts see it.
pub enum WpaErrorModel {
    Value(Seq<char>),
    Runtime(Seq<char>),
}

impl View for WpaError {
    type V = WpaErrorModel;

    open spec fn view(&self) -> WpaErrorModel {
        match self {
            WpaError::Value(m) => WpaErrorModel::Value(m@),
            WpaError::Runtime(m) => WpaErrorModel::Runtime(m@),
        }
    }
}

/// The words of an error.
pub open spec fn words_of_error(e: WpaErrorModel) -> Seq<char> {
    match e {
        WpaErrorModel::Value(m) => m,
        WpaErrorModel::Runtime(m) => m,
    }
}

impl WpaError {
    /// The error in words.
    pub fn to_string(&self) -> (r: String)
        ensures
            r@ == words_of_error(self@),
    {
        match self {
            WpaError::Value(m) => m.clone(),
            WpaError::Runtime(m) => m.clone(),
        }
    }
}

/// Checks a codec against those that may be used.
pub fn validate_codec(codec: &str, codec_type: &str) -> (r: bool)
    ensures
        r == ((codec_type@ == "video"@ && codec@ == "H264"@) || (codec_type@ == "audio"@ && codec@
            == "AAC"@)),
{
    if text::same_str(codec_type, "video") {
        let ok: bool = text::same_str(codec, "H264");
        proof {
            reveal_strlit("video");
            reveal_strlit("audio");
            assert("video"@[0] == 'v' && "audio"@[0] == 'a');
        }
        ok
    } else {
        text::same_str(codec_type, "audio") && text::same_str(codec, "AAC")
    }
}

/// Checks the sizes of an RTSP message.
pub fn validate_rtsp_size(header_bytes: usize, body_bytes: usize) -> (r: bool)
    ensures
        r == (header_bytes <= 8192 && body_bytes <= 65536),
{
    header_bytes <= RTSP_MAX_HEADER_SIZE && body_bytes <= RTSP_MAX_BODY_SIZE
}

/// Checks that a port can be used without privileges.
pub fn validate_port(port: i64) -> (r: bool)
    ensures
        r == (1024 <= port <= 65535),
{
    1024 <= port && port <= 65535
}

/// Whether a character has a meaning to a shell.
pub open spec fn is_dangerous(c: char) -> bool {
    c == ';' || c == '|' || c == '`' || c == '$' || c == '&' || c == '\n' || c == '\r' || c == '\0'
        || c == '<' || c == '>' || c == '(' || c == ')' || c == '{' || c == '}'
}

fn dangerous(c: char) -> (r: bool)
    ensures
        r == is_dangerous(c),
{
    c == ';' || c == '|' || c == '`' || c == '$' || c == '&' || c == '\n' || c == '\r' || c == '\0'
        || c == '<' || c == '>' || c == '(' || c == ')' || c == '{' || c == '}'
}

/// The dangerous characters of a text, each once, in the order in which they
/// first occur.
pub open spec fn dangerous_in(s: Seq<char>) -> Seq<char>
    decreases s.len(),
{
    if s.len() == 0 {
        Seq::empty()
    } else {
        let before = dangerous_in(s.drop_last());
        if is_dangerous(s.last()) && !before.contains(s.last()) {
            before.push(s.last())
        } else {
            before
        }
    }
}

/// There are dangerous characters in the text exactly if the list has one.
pub proof fn lemma_dangerous_in(s: Seq<char>)
    ensures
        dangerous_in(s).len() == 0 <==> forall|i: int|
            0 <= i < s.len() ==> !is_dangerous(#[trigger] s[i]),
    decreases s.len(),
{
    if s.len() > 0 {
        let t = s.drop_last();
        lemma_dangerous_in(t);
        assert forall|i: int| 0 <= i < t.len() implies t[i] == s[i] by {}
        if dangerous_in(s).len() == 0 {
            assert(!is_dangerous(s.last()));
            assert forall|i: int| 0 <= i < s.len() implies !is_dangerous(#[trigger] s[i]) by {
                if i < t.len() {
                    assert(!is_dangerous(t[i]));
                }
            }
        }
        if forall|i: int| 0 <= i < s.len() ==> !is_dangerous(#[trigger] s[i]) {
            assert forall|i: int| 0 <= i < t.len() implies !is_dangerous(#[trigger] t[i]) by {
                assert(t[i] == s[i]);
            }
            assert(!is_dangerous(s[s.len() - 1]));
        }
    }
}

/// A dangerous character in quotes, a control character as its escape.
pub open spec fn quoted_char(c: char) -> Seq<char> {
    if c == '\n' {
        seq!['\'', '\\', 'n', '\'']
    } else if c == '\r' {
        seq!['\'', '\\', 'r', '\'']
    } else if c == '\0' {
        seq!['\'', '\\', '0', '\'']
    } else {
        seq!['\'', c, '\'']
    }
}

/// Characters in quotes with commas between them.
pub open spec fn quoted_list(s: Seq<char>) -> Seq<char> {
    join(s.map_values(|c: char| quoted_char(c)), ", "@)
}

/// Why a parameter may not be handed to wpa_cli.
pub open spec fn param_fault(s: Seq<char>) -> Option<Seq<char>> {
    let n = encode_utf8(s).len() as int;
    if s.len() == 0 {
        Some("wpa_cli parameter must not be empty"@)
    } else if n > WPA_PARAM_MAX_LENGTH {
        Some("wpa_cli parameter too long ("@ + dec(n) + " > 256)"@)
    } else if dangerous_in(s).len() > 0 {
        Some(
            "wpa_cli parameter contains dangerous characters: {"@ + quoted_list(dangerous_in(s))
                + "}"@,
        )
    } else if !is_safe_param(s) {
        Some("wpa_cli parameter contains invalid characters: "@ + debug_form(s))
    } else {
        None
    }
}

/// A parameter that is accepted is not empty, has no character with a meaning
/// to a shell, and consists of letters, digits and `:-_./` and spaces.
pub proof fn law_accepted_param_is_safe(s: Seq<char>)
    ensures
        param_fault(s) is None <==> s.len() > 0 && encode_utf8(s).len() <= 256 && forall|i: int|
            0 <= i < s.len() ==> is_safe_char(#[trigger] s[i]),
        param_fault(s) is None ==> forall|i: int|
            0 <= i < s.len() ==> !is_dangerous(#[trigger] s[i]),
{
    lemma_dangerous_in(s);
    if forall|i: int| 0 <= i < s.len() ==> is_safe_char(#[trigger] s[i]) {
        assert forall|i: int| 0 <= i < s.len() implies !is_dangerous(#[trigger] s[i]) by {
            assert(is_safe_char(s[i]));
        }
    }
}

fn has_char(v: &Vec<char>, c: char) -> (r: bool)
    ensures
        r == v@.contains(c),
{
    let mut i: usize = 0;
    while i < v.len()
        invariant
            i <= v@.len(),
            forall|j: int| 0 <= j < i ==> v@[j] != c,
        decreases v.len() - i,
    {
        if v[i] == c {
            assert(v@[i as int] == c);
            return true;
        }
        i += 1;
    }
    false
}

fn find_dangerous(s: &Vec<char>) -> (r: Vec<char>)
    ensures
        r@ == dangerous_in(s@),
{
    let mut out: Vec<char> = Vec::new();
    let mut i: usize = 0;
    while i < s.len()
        invariant
            i <= s@.len(),
            out@ == dangerous_in(s@.take(i as int)),
        decreases s.len() - i,
    {
        assert(s@.take(i + 1).drop_last() =~= s@.take(i as int));
        let c: char = s[i];
        if dangerous(c) && !has_char(&out, c) {
            out.push(c);
        }
        i += 1;
    }
    assert(s@.take(s@.len() as int) =~= s@);
    out
}

fn quote_chars(v: &Vec<char>) -> (r: String)
    ensures
        r@ == quoted_list(v@),
{
    let mut parts: Vec<String> = Vec::new();
    let ghost want = v@.map_values(|c: char| quoted_char(c));
    let mut i: usize = 0;
    while i < v.len()
        invariant
            i <= v@.len(),
            want == v@.map_values(|c: char| quoted_char(c)),
            strs(parts@) == want.take(i as int),
        decreases v.len() - i,
    {
        let ghost before = strs(parts@);
        let c: char = v[i];
        let mut q: Vec<char> = Vec::new();
        q.push('\'');
        if c == '\n' {
            q.push('\\');
            q.push('n');
        } else if c == '\r' {
            q.push('\\');
            q.push('r');
        } else if c == '\0' {
            q.push('\\');
            q.push('0');
        } else {
            q.push(c);
        }
        q.push('\'');
        assert(q@ =~= quoted_char(c));
        let p: String = text::string_of(q.as_slice());
        let ghost pv = p@;
        parts.push(p);
        assert(strs(parts@) =~= before.push(pv));
        assert(want.take(i + 1) =~= want.take(i as int).push(want[i as int]));
        i += 1;
    }
    assert(want.take(want.len() as int) =~= want);
    text::join_strings(&parts, ", ")
}

/// Checks a parameter before it is handed to wpa_cli, which runs with
/// privileges.
pub fn validate_wpa_param(param: &str) -> (r: Result<String, WpaError>)
    ensures
        match param_fault(param@) {
            Some(m) => r matches Err(e) && e@ == WpaErrorModel::Value(m),
            None => r matches Ok(p) && p@ == param@,
        },
{
    let all: Vec<char> = text::chars_of(param);
    if all.len() == 0 {
        return Err(WpaError::Value("wpa_cli parameter must not be empty".to_owned()));
    }
    let n: usize = param.as_bytes().len();
    if n > WPA_PARAM_MAX_LENGTH {
        let mut m: String = text::joined(
            "wpa_cli parameter too long (".to_owned(),
            text::dec_u64(n as u64).as_str(),
        );
        m.append(" > 256)");
        return Err(WpaError::Value(m));
    }
    let found: Vec<char> = find_dangerous(&all);
    if found.len() > 0 {
        let mut m: String = text::joined(
            "wpa_cli parameter contains dangerous characters: {".to_owned(),
            quote_chars(&found).as_str(),
        );
        m.append("}");
        return Err(WpaError::Value(m));
    }
    if !regex_is_match(WPA_PARAM_PATTERN, param) {
        return Err(
            WpaError::Value(
                text::joined(
                    "wpa_cli parameter contains invalid characters: ".to_owned(),
                    debug_quoted(param).as_str(),
                ),
            ),
        );
    }
    Ok(param.to_owned())
}

/// The first refusal among parameters.
pub open spec fn params_fault(ps: Seq<Seq<char>>) -> Option<Seq<char>>
    decreases ps.len(),
{
    if ps.len() == 0 {
        None
    } else {
        match param_fault(ps[0]) {
            Some(e) => Some(e),
            None => params_fault(ps.skip(1)),
        }
    }
}

/// The parameters that are checked: the interface and the arguments, where the
/// last argument may be left out.
pub open spec fn checked_params(interface: Seq<char>, args: Seq<Seq<char>>, skip_last: bool) -> Seq<
    Seq<char>,
> {
    seq![interface] + if skip_last && args.len() > 0 {
        args.drop_last()
    } else {
        args
    }
}

/// The words of a wpa_cli command.
pub open spec fn wpa_cli_words(
    interface: Seq<char>,
    args: Seq<Seq<char>>,
    ctrl_path: Option<Seq<char>>,
) -> Seq<Seq<char>> {
    seq!["sudo"@, "wpa_cli"@] + match ctrl_path {
        Some(p) => seq!["-p"@, p],
        None => Seq::empty(),
    } + seq!["-i"@, interface] + args
}

/// An optional text as contracts see it.
pub open spec fn maybe_text(t: Option<&str>) -> Option<Seq<char>> {
    match t {
        Some(s) => Some(s@),
        None => None,
    }
}

/// Makes up a wpa_cli command once its parameters have passed the check. The
/// last argument may be a value that the user chose; no shell ever sees it.
pub fn wpa_cli_command(
    interface: &str,
    args: &Vec<String>,
    skip_last_validation: bool,
    ctrl_path: Option<&str>,
) -> (r: Result<Vec<String>, WpaError>)
    ensures
        match params_fault(checked_params(interface@, strs(args@), skip_last_validation)) {
            Some(m) => r matches Err(e) && e@ == WpaErrorModel::Value(m),
            None => r matches Ok(v) && strs(v@) == wpa_cli_words(
                interface@,
                strs(args@),
                maybe_text(ctrl_path),
            ),
        },
{
    let ghost ps = checked_params(interface@, strs(args@), skip_last_validation);
    assert(ps[0] == interface@);
    validate_wpa_param(interface)?;
    let n: usize = if skip_last_validation && args.len() > 0 {
        args.len() - 1
    } else {
        args.len()
    };
    let mut i: usize = 0;
    while i < n
        invariant
            i <= n <= args@.len(),
            ps == checked_params(interface@, strs(args@), skip_last_validation),
            ps.len() == n + 1,
            params_fault(ps) == params_fault(ps.skip(i + 1)),
        decreases n - i,
    {
        assert(ps.skip(i + 1)[0] == args@[i as int]@);
        assert(ps.skip(i + 1).skip(1) =~= ps.skip(i + 2));
        validate_wpa_param(args[i].as_str())?;
        i += 1;
    }
    assert(params_fault(ps) is None);
    let mut out: Vec<String> = Vec::new();
    out.push("sudo".to_owned());
    out.push("wpa_cli".to_owned());
    if let Some(p) = ctrl_path {
        out.push("-p".to_owned());
        out.push(p.to_owned());
    }
    out.push("-i".to_owned());
    out.push(interface.to_owned());
    let ghost head = strs(out@);
    let mut j: usize = 0;
    assert(strs(args@).take(0) =~= Seq::<Seq<char>>::empty());
    while j < args.len()
        invariant
            j <= args@.len(),
            strs(out@) == head + strs(args@).take(j as int),
        decreases args.len() - j,
    {
        let ghost before = strs(out@);
        let a: String = args[j].clone();
        let ghost av = a@;
        out.push(a);
        assert(strs(out@) =~= before.push(av));
        assert(strs(args@).take(j + 1) =~= strs(args@).take(j as int).push(av));
        j += 1;
    }
    assert(strs(args@).take(args@.len() as int) =~= strs(args@));
    assert(strs(out@) =~= wpa_cli_words(interface@, strs(args@), maybe_text(ctrl_path)));
    Ok(out)
}

/// What a program wrote, as text.
pub fn output_text(bytes: &[u8]) -> (r: String)
    ensures
        r@ == utf8_lossy(bytes@),
{
    from_utf8_lossy(bytes)
}

/// What wpa_cli answered: what it wrote if it succeeded, and otherwise an error
/// with its exit code and what it wrote, its error output first.
pub fn wpa_cli_answer(success: bool, code: Option<i32>, stdout: &str, stderr: &str) -> (r: Result<
    String,
    WpaError,
>)
    ensures
        match r {
            Ok(t) => success && t@ == trim(stdout@),
            Err(e) => !success && e@ == WpaErrorModel::Runtime(
                "wpa_cli command failed with exit code "@ + dec(
                    match code {
                        Some(c) => c as int,
                        None => -1,
                    },
                ) + ": "@ + if trim(stderr@).len() > 0 {
                    trim(stderr@)
                } else {
                    trim(stdout@)
                },
            ),
        },
{
    let all: Vec<char> = text::chars_of(stdout);
    let out: &[char] = text::trimmed(all.as_slice());
    if success {
        return Ok(text::string_of(out));
    }
    let errs: Vec<char> = text::chars_of(stderr);
    let err: &[char] = text::trimmed(errs.as_slice());
    let n: i64 = match code {
        Some(c) => c as i64,
        None => -1,
    };
    let mut m: String = text::joined(
        "wpa_cli command failed with exit code ".to_owned(),
        text::dec_i64(n).as_str(),
    );
    m.append(": ");
    if err.len() > 0 {
        m.append(text::string_of(err).as_str());
    } else {
        m.append(text::string_of(out).as_str());
    }
    Err(WpaError::Runtime(m))
}

/// The error of a wpa_cli that could not be run at all.
pub fn wpa_cli_unavailable(reason: &str) -> (r: WpaError)
    ensures
        r@ == WpaErrorModel::Runtime("Failed to execute wpa_cli: "@ + reason@),
{
    WpaError::Runtime(text::joined("Failed to execute wpa_cli: ".to_owned(), reason))
}

/// A Wi-Fi Direct interface.
#[derive(Debug, Clone)]
pub struct InterfaceInfo {
    pub interface: String,
    pub parent: String,
    pub driver: String,
    pub status: String,
}

/// Interfaces and their parents, as contracts see them.
pub type Pairs = Seq<(Seq<char>, Seq<char>)>;

/// The pairs that a vector stands for.
pub open spec fn pairs(v: Seq<(String, String)>) -> Pairs {
    Seq::new(v.len(), |i: int| (v[i].0@, v[i].1@))
}

/// Whether one of the pairs has the given interface.
pub open spec fn lists(p: Pairs, name: Seq<char>) -> bool {
    exists|i: int| 0 <= i < p.len() && (#[trigger] p[i]).0 == name
}

/// Whether no interface is listed twice.
pub open spec fn distinct(p: Pairs) -> bool {
    forall|i: int, j: int| 0 <= i < j < p.len() ==> p[i].0 != p[j].0
}

/// The pairs with one more, unless its interface is listed.
pub open spec fn with_pair(p: Pairs, name: Seq<char>, parent: Seq<char>) -> Pairs {
    if lists(p, name) {
        p
    } else {
        p.push((name, parent))
    }
}

/// The parent of a Wi-Fi Direct device, by its name.
pub open spec fn parent_of(name: Seq<char>) -> Option<Seq<char>> {
    if "p2p-dev-"@.is_prefix_of(name) {
        Some(name.skip(8))
    } else {
        None
    }
}

/// The devices that the supplicant lists, added to those that are known.
pub open spec fn supplicant_devices(known: Pairs, ls: Seq<Seq<char>>) -> Pairs
    decreases ls.len(),
{
    if ls.len() == 0 {
        known
    } else {
        let before = supplicant_devices(known, ls.drop_last());
        let name = trim(ls.last());
        match parent_of(name) {
            Some(parent) => with_pair(before, name, parent),
            None => before,
        }
    }
}

/// The devices that the network manager lists, added to those that are known.
pub open spec fn manager_devices(known: Pairs, ls: Seq<Seq<char>>) -> Pairs
    decreases ls.len(),
{
    if ls.len() == 0 {
        known
    } else {
        let before = manager_devices(known, ls.drop_last());
        let f = split_char(ls.last(), ':');
        if f.len() >= 3 && f[1] == "wifi-p2p"@ {
            with_pair(
                before,
                f[0],
                match parent_of(f[0]) {
                    Some(parent) => parent,
                    None => f[0],
                },
            )
        } else {
            before
        }
    }
}

/// The lines of an output, given that the program succeeded.
pub open spec fn output_lines(out: Option<&str>) -> Seq<Seq<char>> {
    match out {
        Some(t) => lines(trim(t@)),
        None => Seq::empty(),
    }
}

pub(crate) fn split_output(out: Option<&str>) -> (r: Vec<Vec<char>>)
    ensures
        texts(r@) == output_lines(out),
{
    match out {
        Some(t) => {
            let all: Vec<char> = text::chars_of(t);
            text::lines_of(text::trimmed(all.as_slice()))
        },
        None => {
            let none: Vec<Vec<char>> = Vec::new();
            assert(texts(none@) =~= Seq::<Seq<char>>::empty());
            none
        },
    }
}

pub(crate) fn parent_name(name: &[char]) -> (r: Option<Vec<char>>)
    ensures
        match r {
            Some(p) => parent_of(name@) == Some(p@),
            None => parent_of(name@) is None,
        },
{
    proof {
        reveal_strlit("p2p-dev-");
    }
    if text::begins_with(name, "p2p-dev-") {
        let rest: &[char] = vstd::slice::slice_subrange(name, 8, name.len());
        assert(rest@ =~= name@.skip(8));
        Some(text::copied(rest))
    } else {
        None
    }
}

fn add_pair(v: &mut Vec<(String, String)>, name: String, parent: String)
    ensures
        pairs(final(v)@) == with_pair(pairs(old(v)@), name@, parent@),
{
    let ghost p = pairs(v@);
    let mut i: usize = 0;
    while i < v.len()
        invariant
            i <= v@.len(),
            p == pairs(v@),
            v@ == old(v)@,
            forall|j: int| 0 <= j < i ==> (#[trigger] p[j]).0 != name@,
        decreases v.len() - i,
    {
        if text::same_str(v[i].0.as_str(), name.as_str()) {
            assert(p[i as int].0 == name@);
            return;
        }
        assert(p[i as int].0 != name@);
        i += 1;
    }
    v.push((name, parent));
    assert(pairs(v@) =~= p.push((name@, parent@)));
}

/// Lists the Wi-Fi Direct devices that the supplicant and the network manager
/// name, each once, with its parent. What could not be asked is left out.
pub fn p2p_device_list(supplicant: Option<&str>, manager: Option<&str>) -> (r: Vec<(String, String)>)
    ensures
        pairs(r@) == manager_devices(
            supplicant_devices(Seq::empty(), output_lines(supplicant)),
            output_lines(manager),
        ),
{
    let mut out: Vec<(String, String)> = Vec::new();
    let first: Vec<Vec<char>> = split_output(supplicant);
    let ghost fs = texts(first@);
    let mut i: usize = 0;
    assert(pairs(out@) =~= supplicant_devices(Seq::empty(), fs.take(0)));
    while i < first.len()
        invariant
            i <= first@.len(),
            fs == texts(first@),
            pairs(out@) == supplicant_devices(Seq::empty(), fs.take(i as int)),
        decreases first.len() - i,
    {
        assert(fs.take(i + 1).drop_last() =~= fs.take(i as int));
        let name: &[char] = text::trimmed(first[i].as_slice());
        if let Some(parent) = parent_name(name) {
            add_pair(&mut out, text::string_of(name), text::string_of(parent.as_slice()));
        }
        i += 1;
    }
    assert(fs.take(fs.len() as int) =~= fs);
    let ghost known = pairs(out@);
    let second: Vec<Vec<char>> = split_output(manager);
    let ghost ss = texts(second@);
    let mut k: usize = 0;
    while k < second.len()
        invariant
            k <= second@.len(),
            ss == texts(second@),
            pairs(out@) == manager_devices(known, ss.take(k as int)),
        decreases second.len() - k,
    {
        assert(ss.take(k + 1).drop_last() =~= ss.take(k as int));
        let f: Vec<Vec<char>> = text::pieces(second[k].as_slice(), ':');
        assert(texts(f@)[0] == f@[0]@);
        assert(f@.len() >= 3 ==> texts(f@)[1] == f@[1]@);
        if f.len() >= 3 && text::is_text(f[1].as_slice(), "wifi-p2p") {
            let name: String = text::string_of(f[0].as_slice());
            match parent_name(f[0].as_slice()) {
                Some(parent) => {
                    add_pair(&mut out, name, text::string_of(parent.as_slice()));
                },
                None => {
                    let parent: String = name.clone();
                    add_pair(&mut out, name, parent);
                },
            }
        }
        k += 1;
    }
    assert(ss.take(ss.len() as int) =~= ss);
    out
}

proof fn lemma_supplicant_distinct(known: Pairs, ls: Seq<Seq<char>>)
    requires
        distinct(known),
    ensures
        distinct(supplicant_devices(known, ls)),
    decreases ls.len(),
{
    if ls.len() > 0 {
        lemma_supplicant_distinct(known, ls.drop_last());
    }
}

proof fn lemma_manager_distinct(known: Pairs, ls: Seq<Seq<char>>)
    requires
        distinct(known),
    ensures
        distinct(manager_devices(known, ls)),
    decreases ls.len(),
{
    if ls.len() > 0 {
        lemma_manager_distinct(known, ls.drop_last());
    }
}

/// Whatever the two programs write, no interface is listed twice.
pub proof fn law_devices_are_listed_once(supplicant: Seq<Seq<char>>, manager: Seq<Seq<char>>)
    ensures
        distinct(manager_devices(supplicant_devices(Seq::empty(), supplicant), manager)),
{
    lemma_supplicant_distinct(Seq::empty(), supplicant);
    lemma_manager_distinct(supplicant_devices(Seq::empty(), supplicant), manager);
}

/// The driver that the lines name, or nothing.
pub open spec fn driver_in(ls: Seq<Seq<char>>) -> Seq<char>
    decreases ls.len(),
{
    if ls.len() == 0 {
        Seq::empty()
    } else if "driver:"@.is_prefix_of(ls[0]) {
        trim(ls[0].skip(7))
    } else {
        driver_in(ls.skip(1))
    }
}

/// Reads the driver out of what ethtool wrote.
pub fn driver_of(out: &str) -> (r: String)
    ensures
        r@ == driver_in(lines(out@)),
{
    proof {
        reveal_strlit("driver:");
    }
    let all: Vec<char> = text::chars_of(out);
    let ls: Vec<Vec<char>> = text::lines_of(all.as_slice());
    let ghost gs = texts(ls@);
    let mut i: usize = 0;
    assert(gs.skip(0) =~= gs);
    while i < ls.len()
        invariant
            i <= ls@.len(),
            gs == texts(ls@),
            gs == lines(out@),
            "driver:"@.len() == 7,
            driver_in(gs) == driver_in(gs.skip(i as int)),
        decreases ls.len() - i,
    {
        let line: &[char] = ls[i].as_slice();
        assert(gs.skip(i as int)[0] == line@);
        assert(gs.skip(i as int).skip(1) =~= gs.skip(i + 1));
        if text::begins_with(line, "driver:") {
            let rest: &[char] = vstd::slice::slice_subrange(line, 7, line.len());
            assert(rest@ =~= line@.skip(7));
            return text::string_of(text::trimmed(rest));
        }
        i += 1;
    }
    String::new()
}

/// The state of an interface that the lines give: that of its last line.
pub open spec fn state_in(ls: Seq<Seq<char>>, parent: Seq<char>) -> Seq<char>
    decreases ls.len(),
{
    if ls.len() == 0 {
        "available"@
    } else {
        let key = parent + ":"@;
        if key.is_prefix_of(ls.last()) {
            let rest = ls.last().skip(key.len() as int);
            if contains(rest, "connected"@) && !contains(rest, "disconnected"@) {
                "connected"@
            } else {
                "disconnected"@
            }
        } else {
            state_in(ls.drop_last(), parent)
        }
    }
}

/// Reads the state of an interface out of what the network manager wrote.
pub fn state_of(out: &str, parent: &str) -> (r: String)
    ensures
        r@ == state_in(lines(out@), parent@),
{
    let all: Vec<char> = text::chars_of(out);
    let ls: Vec<Vec<char>> = text::lines_of(all.as_slice());
    let ghost gs = texts(ls@);
    let key: String = text::joined(parent.to_owned(), ":");
    let keyed: Vec<char> = text::chars_of(key.as_str());
    let mut state: String = "available".to_owned();
    let mut i: usize = 0;
    while i < ls.len()
        invariant
            i <= ls@.len(),
            gs == texts(ls@),
            key@ == parent@ + ":"@,
            keyed@ == key@,
            state@ == state_in(gs.take(i as int), parent@),
        decreases ls.len() - i,
    {
        let line: &[char] = ls[i].as_slice();
        assert(gs.take(i + 1).drop_last() =~= gs.take(i as int));
        if text::begins_with(line, key.as_str()) {
            let rest: &[char] = vstd::slice::slice_subrange(line, keyed.len(), line.len());
            assert(rest@ =~= line@.skip(key@.len() as int));
            if text::holds(rest, "connected") && !text::holds(rest, "disconnected") {
                state = "connected".to_owned();
            } else {
                state = "disconnected".to_owned();
            }
        }
        i += 1;
    }
    assert(gs.take(gs.len() as int) =~= gs);
    state
}

/// Puts together what is known of an interface.
pub fn interface_info(
    interface: &str,
    parent: &str,
    ethtool: Option<&str>,
    manager: Option<&str>,
) -> (r: InterfaceInfo)
    ensures
        r.interface@ == interface@,
        r.parent@ == parent@,
        r.driver@ == match ethtool {
            Some(t) => driver_in(lines(t@)),
            None => Seq::empty(),
        },
        r.status@ == match manager {
            Some(t) => state_in(lines(t@), parent@),
            None => "available"@,
        },
{
    InterfaceInfo {
        interface: interface.to_owned(),
        parent: parent.to_owned(),
        driver: match ethtool {
            Some(t) => driver_of(t),
            None => String::new(),
        },
        status: match manager {
            Some(t) => state_of(t, parent),
            None => "available".to_owned(),
        },
    }
}

} // verus!
