//! Decisions of the runtime's fetch and WebSocket handling: what kind of
//! request a URL makes, data URIs, content types by extension, WebSocket URL
//! checks, and bounding text handed to the script engine.
use vstd::prelude::*;
use crate::text::chars_of;
use crate::text::copy_range;
use crate::text::contains_lit;
use crate::text::contains_seq;
use crate::text::find_first;
use crate::text::find_lit;
use crate::text::find_last;
use crate::text::rfind_lit;
use crate::text::eq_lit;
use crate::selector::lemma_find_last_occurs;
use crate::text::occurs_at;
use crate::text::starts_with;
use crate::text::starts_with_lit;
use crate::text::string_from_chars;
use crate::text::trim_start_char;
use crate::text::trim_start_matches_char;
use crate::content::content_relative;
use crate::content::path_join;
use crate::content::safe_content_path_pub;
use vstd::utf8::encode_utf8;
use vstd::utf8::decode_utf8;
use vstd::utf8::valid_utf8;
use vstd::utf8::is_char_boundary;
use vstd::string::StringSliceAdditionalSpecFns;
use base64::Engine;

verus! {

broadcast use vstd::string::group_string_axioms;

/// What a `fetch()` URL asks for.
#[derive(Clone, Copy, Debug, PartialEq, Eq, Structural)]
pub enum FetchKind {
    /// A file of the content directory.
    Local,
    /// A `data:` URI.
    Data,
    /// An `http://`, `https://` or `blob:` URL.
    Network,
}

/// The kind of request a URL makes: without an `http://`, `https://`,
/// `data:` or `blob:` prefix it names a local file.
pub open spec fn fetch_kind(url: Seq<char>) -> FetchKind {
    if starts_with(url, "data:"@) {
        FetchKind::Data
    } else if starts_with(url, "http://"@) || starts_with(url, "https://"@) || starts_with(
        url,
        "blob:"@,
    ) {
        FetchKind::Network
    } else {
        FetchKind::Local
    }
}

/// The kind of request a `fetch()` URL makes (see `fetch_kind`).
pub fn classify_fetch_url(url: &str) -> (k: FetchKind)
    ensures
        k == fetch_kind(url@),
{
    let u = chars_of(url);
    if starts_with_lit(&u, "data:") {
        FetchKind::Data
    } else if starts_with_lit(&u, "http://") || starts_with_lit(&u, "https://")
        || starts_with_lit(&u, "blob:") {
        FetchKind::Network
    } else {
        FetchKind::Local
    }
}

/// The bytes that standard Base64 (with padding) decodes `input` to, if it is
/// valid Base64.
pub uninterp spec fn base64_decoded(input: Seq<u8>) -> Option<Seq<u8>>;

/// Text decoded from bytes with invalid UTF-8 replaced by U+FFFD.
pub uninterp spec fn lossy_utf8(bytes: Seq<u8>) -> Seq<char>;

/// Calls `base64::engine::general_purpose::STANDARD.decode`; the contract
/// claims that the result is `base64_decoded` of the input bytes.
#[verifier::external_body]
fn base64_decode(input: &[u8]) -> (r: Option<Vec<u8>>)
    ensures
        match r {
            Some(b) => base64_decoded(input@) == Some(b@),
            None => base64_decoded(input@) is None,
        },
{
    base64::engine::general_purpose::STANDARD.decode(input).ok()
}

/// Calls `String::from_utf8_lossy` (std); the contract claims that the
/// result is `lossy_utf8` of the bytes, and, as std documents, the plain
/// decoding when the bytes are valid UTF-8.
#[verifier::external_body]
pub(crate) fn utf8_lossy(bytes: &[u8]) -> (r: String)
    ensures
        r@ == lossy_utf8(bytes@),
        valid_utf8(bytes@) ==> r@ == decode_utf8(bytes@),
{
    String::from_utf8_lossy(bytes).into_owned()
}

/// The body of a `data:` URI: the text after its first comma, Base64-decoded
/// (invalid UTF-8 replaced) when the part before the comma holds `;base64`
/// and decodes, else as written; `None` without a comma.
pub open spec fn data_uri_body(url: Seq<char>) -> Option<Seq<char>> {
    match find_first(url, seq![',']) {
        Some(c) => {
            let prefix = url.subrange(5, c);
            let raw = url.subrange(c + 1, url.len() as int);
            if contains_seq(prefix, ";base64"@) {
                match base64_decoded(encode_utf8(raw)) {
                    Some(b) => Some(lossy_utf8(b)),
                    None => Some(raw),
                }
            } else {
                Some(raw)
            }
        },
        None => None,
    }
}

/// Decodes the body of a `data:` URI (see `data_uri_body`).
pub fn decode_data_uri(url: &str) -> (r: Option<String>)
    requires
        starts_with(url@, "data:"@),
    ensures
        match r {
            Some(b) => data_uri_body(url@) == Some(b@),
            None => data_uri_body(url@) is None,
        },
{
    let u = chars_of(url);
    proof {
        reveal_strlit(",");
        reveal_strlit("data:");
        assert(","@ == seq![',']);
        assert("data:"@.len() == 5);
    }
    match find_lit(&u, ",") {
        Some(c) => {
            assert(occurs_at(u@, ","@, c as int));
            if c < 5 {
                assert(u@.subrange(0, 5)[c as int] == u@[c as int]);
                assert(u@.subrange(c as int, c + 1)[0] == u@[c as int]);
                assert(false);
            }
            let n = u.len();
            assert(c + 1 <= n);
            let prefix = copy_range(&u, 5, c);
            let raw = copy_range(&u, c + 1, n);
            let raw_s = string_from_chars(&raw);
            if contains_lit(&prefix, ";base64") {
                match base64_decode(raw_s.as_str().as_bytes()) {
                    Some(bytes) => Some(utf8_lossy(bytes.as_slice())),
                    None => Some(raw_s),
                }
            } else {
                Some(raw_s)
            }
        },
        None => None,
    }
}

/// The bytes of a `data:` URI, as an image source reads them: the UTF-8
/// bytes of the text after its first comma, Base64-decoded when the part
/// before the comma holds `base64` (`None` when that does not decode);
/// `None` without a comma.
pub open spec fn data_uri_bytes_of(url: Seq<char>) -> Option<Seq<u8>> {
    match find_first(url, seq![',']) {
        Some(c) => {
            let raw = encode_utf8(url.subrange(c + 1, url.len() as int));
            if contains_seq(url.subrange(0, c), "base64"@) {
                base64_decoded(raw)
            } else {
                Some(raw)
            }
        },
        None => None,
    }
}

/// The bytes of a `data:` URI used as an image source (see
/// `data_uri_bytes_of`).
pub fn data_uri_bytes(url: &str) -> (r: Option<Vec<u8>>)
    ensures
        match r {
            Some(b) => data_uri_bytes_of(url@) == Some(b@),
            None => data_uri_bytes_of(url@) is None,
        },
{
    let u = chars_of(url);
    proof {
        reveal_strlit(",");
        assert(","@ == seq![',']);
    }
    match find_lit(&u, ",") {
        Some(c) => {
            assert(occurs_at(u@, ","@, c as int));
            let n = u.len();
            assert(c + 1 <= n);
            let prefix = copy_range(&u, 0, c);
            let raw = string_from_chars(&copy_range(&u, c + 1, n));
            if contains_lit(&prefix, "base64") {
                base64_decode(raw.as_str().as_bytes())
            } else {
                Some(vstd::slice::slice_to_vec(raw.as_str().as_bytes()))
            }
        },
        None => None,
    }
}

/// What to do with a `fetch()` request.
pub enum FetchPlan {
    /// Read this file; `shown` is the URL as shown in messages.
    ReadFile { path: String, shown: String },
    /// Reject the request with this message.
    Reject(String),
    /// Answer with this body.
    Respond(String),
    /// Fetch this URL over the network.
    Network(String),
}

/// The model of a fetch plan: a tag (0 read, 1 reject, 2 respond,
/// 3 network) and its texts.
pub open spec fn plan_view(p: FetchPlan) -> (int, Seq<char>, Seq<char>) {
    match p {
        FetchPlan::ReadFile { path, shown } => (0, path@, shown@),
        FetchPlan::Reject(m) => (1, m@, Seq::empty()),
        FetchPlan::Respond(b) => (2, b@, Seq::empty()),
        FetchPlan::Network(u) => (3, u@, Seq::empty()),
    }
}

/// The plan for a `fetch()` of `url` with the content directory `dir`:
/// local files are read from the content directory (rejected when the URL
/// reaches outside it by `..`, or when there is no directory), `data:` URIs
/// are answered with their body, other URLs go to the network.
pub open spec fn fetch_plan(url: Seq<char>, dir: Option<Seq<char>>) -> (int, Seq<char>, Seq<char>) {
    match fetch_kind(url) {
        FetchKind::Local => {
            let shown = trim_start_char(url, '/');
            match dir {
                None => (1, "No content directory configured"@, Seq::empty()),
                Some(d) => match content_relative(encode_utf8(url)) {
                    Some(c) => (0, path_join(d, c), shown),
                    None => (1, "Path traversal blocked: "@ + shown, Seq::empty()),
                },
            }
        },
        FetchKind::Data => match data_uri_body(url) {
            Some(b) => (2, b, Seq::empty()),
            None => (1, "Invalid data URI"@, Seq::empty()),
        },
        FetchKind::Network => (3, url, Seq::empty()),
    }
}

/// Decides what to do with a `fetch()` request (see `fetch_plan`).
pub fn plan_fetch(url: &str, content_dir: Option<&str>) -> (r: FetchPlan)
    ensures
        plan_view(r) == fetch_plan(
            url@,
            match content_dir {
                Some(d) => Some(d@),
                None => None,
            },
        ),
{
    match classify_fetch_url(url) {
        FetchKind::Local => {
            let shown = string_from_chars(&trim_start_matches_char(&chars_of(url), '/'));
            match content_dir {
                None => FetchPlan::Reject("No content directory configured".to_owned()),
                Some(d) => match safe_content_path_pub(d, url) {
                    Some(p) => FetchPlan::ReadFile { path: p, shown },
                    None => {
                        let mut m = "Path traversal blocked: ".to_owned();
                        m.append(shown.as_str());
                        FetchPlan::Reject(m)
                    },
                },
            }
        },
        FetchKind::Data => match decode_data_uri(url) {
            Some(b) => FetchPlan::Respond(b),
            None => FetchPlan::Reject("Invalid data URI".to_owned()),
        },
        FetchKind::Network => FetchPlan::Network(url.to_owned()),
    }
}

/// The last component of a `/`-separated path that is neither empty nor
/// `.` (as `Path::components` reads it on Unix), if there is one.
pub open spec fn last_component(p: Seq<char>) -> Option<Seq<char>>
    decreases p.len(),
{
    if p.len() == 0 {
        None
    } else {
        match find_last(p, "/"@) {
            Some(i) => {
                proof {
                    reveal_strlit("/");
                    lemma_find_last_occurs(p, "/"@, p.len() as int);
                }
                let seg = p.subrange(i + 1, p.len() as int);
                if seg.len() == 0 || seg == "."@ {
                    last_component(p.subrange(0, i))
                } else {
                    Some(seg)
                }
            },
            None => if p == "."@ {
                None
            } else {
                Some(p)
            },
        }
    }
}

/// The file name of a `/`-separated path: its last component, unless that
/// is `..`.
pub open spec fn path_file_name(p: Seq<char>) -> Option<Seq<char>> {
    match last_component(p) {
        Some(c) => if c == ".."@ {
            None
        } else {
            Some(c)
        },
        None => None,
    }
}

/// The extension of a `/`-separated path, as `Path::extension` reads it on
/// Unix: what follows the last `.` of the file name, when something comes
/// before that `.`.
pub open spec fn path_extension(path: Seq<char>) -> Option<Seq<char>> {
    match path_file_name(path) {
        Some(n) => match find_last(n, "."@) {
            Some(d) => if d == 0 {
                None
            } else {
                Some(n.subrange(d + 1, n.len() as int))
            },
            None => None,
        },
        None => None,
    }
}

fn last_component_of(p: &[char]) -> (r: Option<Vec<char>>)
    ensures
        match r {
            Some(c) => last_component(p@) == Some(c@),
            None => last_component(p@) is None,
        },
    decreases p@.len(),
{
    if p.len() == 0 {
        return None;
    }
    proof {
        reveal_strlit("/");
        reveal_strlit(".");
        lemma_find_last_occurs(p@, "/"@, p@.len() as int);
    }
    match rfind_lit(p, "/") {
        Some(i) => {
            let seg = copy_range(p, i + 1, p.len());
            if seg.len() == 0 || eq_lit(&seg, ".") {
                last_component_of(&copy_range(p, 0, i))
            } else {
                Some(seg)
            }
        },
        None => {
            if eq_lit(p, ".") {
                None
            } else {
                Some(copy_range(p, 0, p.len()))
            }
        },
    }
}

/// The extension of a path (see `path_extension`).
fn extension_of(path: &str) -> (r: Option<Vec<char>>)
    ensures
        match r {
            Some(e) => path_extension(path@) == Some(e@),
            None => path_extension(path@) is None,
        },
{
    let name = match last_component_of(&chars_of(path)) {
        Some(c) => {
            if eq_lit(&c, "..") {
                return None;
            }
            c
        },
        None => {
            return None;
        },
    };
    proof {
        reveal_strlit(".");
        lemma_find_last_occurs(name@, "."@, name@.len() as int);
    }
    match rfind_lit(&name, ".") {
        Some(d) => {
            assert(occurs_at(name@, "."@, d as int));
            assert(d < name.len());
            if d == 0 {
                None
            } else {
                Some(copy_range(&name, d + 1, name.len()))
            }
        },
        None => None,
    }
}

/// The MIME type that a file extension stands for.
pub open spec fn mime_of(ext: Option<Seq<char>>) -> Seq<char> {
    match ext {
        Some(e) => if e == "json"@ {
            "application/json"@
        } else if e == "js"@ || e == "mjs"@ {
            "application/javascript"@
        } else if e == "css"@ {
            "text/css"@
        } else if e == "html"@ || e == "htm"@ {
            "text/html"@
        } else if e == "svg"@ {
            "image/svg+xml"@
        } else if e == "png"@ {
            "image/png"@
        } else if e == "jpg"@ || e == "jpeg"@ {
            "image/jpeg"@
        } else if e == "webp"@ {
            "image/webp"@
        } else if e == "gif"@ {
            "image/gif"@
        } else if e == "woff"@ {
            "font/woff"@
        } else if e == "woff2"@ {
            "font/woff2"@
        } else if e == "ttf"@ {
            "font/ttf"@
        } else if e == "otf"@ {
            "font/otf"@
        } else if e == "txt"@ {
            "text/plain"@
        } else if e == "xml"@ {
            "application/xml"@
        } else if e == "wasm"@ {
            "application/wasm"@
        } else if e == "mp3"@ {
            "audio/mpeg"@
        } else if e == "ogg"@ {
            "audio/ogg"@
        } else if e == "wav"@ {
            "audio/wav"@
        } else if e == "mp4"@ {
            "video/mp4"@
        } else if e == "webm"@ {
            "video/webm"@
        } else {
            "application/octet-stream"@
        },
        None => "application/octet-stream"@,
    }
}

/// The MIME type of a file by the extension of its path.
pub fn guess_mime(path: &str) -> (r: &'static str)
    ensures
        r@ == mime_of(path_extension(path@)),
{
    match extension_of(path) {
        Some(v) => {
            let eq = |lit: &str| -> (b: bool)
                ensures
                    b == (v@ == lit@),
                { crate::text::eq_lit(&v, lit) };
            if eq("json") {
                "application/json"
            } else if eq("js") || eq("mjs") {
                "application/javascript"
            } else if eq("css") {
                "text/css"
            } else if eq("html") || eq("htm") {
                "text/html"
            } else if eq("svg") {
                "image/svg+xml"
            } else if eq("png") {
                "image/png"
            } else if eq("jpg") || eq("jpeg") {
                "image/jpeg"
            } else if eq("webp") {
                "image/webp"
            } else if eq("gif") {
                "image/gif"
            } else if eq("woff") {
                "font/woff"
            } else if eq("woff2") {
                "font/woff2"
            } else if eq("ttf") {
                "font/ttf"
            } else if eq("otf") {
                "font/otf"
            } else if eq("txt") {
                "text/plain"
            } else if eq("xml") {
                "application/xml"
            } else if eq("wasm") {
                "application/wasm"
            } else if eq("mp3") {
                "audio/mpeg"
            } else if eq("ogg") {
                "audio/ogg"
            } else if eq("wav") {
                "audio/wav"
            } else if eq("mp4") {
                "video/mp4"
            } else if eq("webm") {
                "video/webm"
            } else {
                "application/octet-stream"
            }
        },
        None => "application/octet-stream",
    }
}

/// The scheme of a URL as the WHATWG URL parser gives it, if the URL parses.
pub uninterp spec fn url_scheme(url: Seq<char>) -> Option<Seq<char>>;

/// Calls `url::Url::parse` and `Url::scheme`; the contract claims that the
/// result is `url_scheme` of the URL.
#[verifier::external_body]
fn parse_url_scheme(url: &str) -> (r: Option<String>)
    ensures
        match r {
            Some(s) => url_scheme(url@) == Some(s@),
            None => url_scheme(url@) is None,
        },
{
    url::Url::parse(url).ok().map(|u| u.scheme().to_string())
}

/// The reason a WebSocket URL is refused, if it is: it does not parse, or
/// its scheme is not `ws` or `wss`.
pub open spec fn ws_url_error(url: Seq<char>) -> Option<Seq<char>> {
    match url_scheme(url) {
        None => Some("Invalid WebSocket URL"@),
        Some(s) => if s == "ws"@ || s == "wss"@ {
            None
        } else {
            Some("Invalid WebSocket scheme: '"@ + s + "' (expected ws:// or wss://)"@)
        },
    }
}

/// Checks the URL of a WebSocket connection (see `ws_url_error`).
pub fn check_ws_url(url: &str) -> (r: Result<(), String>)
    ensures
        match r {
            Ok(()) => ws_url_error(url@) is None,
            Err(m) => ws_url_error(url@) == Some(m@),
        },
{
    match parse_url_scheme(url) {
        None => Err("Invalid WebSocket URL".to_owned()),
        Some(s) => {
            let v = chars_of(s.as_str());
            if crate::text::eq_lit(&v, "ws") || crate::text::eq_lit(&v, "wss") {
                Ok(())
            } else {
                let mut m = "Invalid WebSocket scheme: '".to_owned();
                m.append(s.as_str());
                m.append("' (expected ws:// or wss://)");
                Err(m)
            }
        },
    }
}

/// The most bytes of text handed to the script engine at once.
pub const MAX_V8_STRING_LEN: usize = 67_108_864;

/// The largest character boundary of `b` at or below `k`.
pub open spec fn boundary_at_or_below(b: Seq<u8>, k: int) -> int
    decreases k,
{
    if k <= 0 {
        0
    } else if is_char_boundary(b, k) {
        k
    } else {
        boundary_at_or_below(b, k - 1)
    }
}

/// The longest prefix of `s` of at most `MAX_V8_STRING_LEN` bytes that ends
/// on a character boundary (all of `s` when it is short enough).
pub fn v8_safe_prefix(s: &str) -> (r: &str)
    requires
        s.spec_bytes().len() <= usize::MAX,
    ensures
        s.spec_bytes().len() <= MAX_V8_STRING_LEN ==> r@ == s@,
        s.spec_bytes().len() > MAX_V8_STRING_LEN ==> r.spec_bytes() == s.spec_bytes().subrange(
            0,
            boundary_at_or_below(s.spec_bytes(), MAX_V8_STRING_LEN as int),
        ),
{
    if s.len() <= MAX_V8_STRING_LEN {
        return s;
    }
    let mut end: usize = MAX_V8_STRING_LEN;
    proof {
        vstd::utf8::encode_utf8_valid_utf8(s@);
        vstd::utf8::is_char_boundary_start_end_of_seq(s.spec_bytes());
    }
    while end > 0 && !s.is_char_boundary(end)
        invariant
            end <= MAX_V8_STRING_LEN,
            valid_utf8(s.spec_bytes()),
            boundary_at_or_below(s.spec_bytes(), MAX_V8_STRING_LEN as int) == boundary_at_or_below(
                s.spec_bytes(),
                end as int,
            ),
        decreases end,
    {
        end = end - 1;
    }
    let (head, _) = s.split_at(end);
    proof {
        assert(boundary_at_or_below(s.spec_bytes(), end as int) == end as int);
    }
    head
}

} // verus!
