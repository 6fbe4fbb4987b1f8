//! Content paths: percent-decoding, traversal rejection, and the mapping
//! from a sidecar URL to a file under the content directory.
use vstd::prelude::*;
use crate::text::chars_of;
use crate::text::contains_lit;
use crate::text::contains_seq;
use crate::text::copy_range;
use crate::text::find_first;
use crate::text::find_lit;
use crate::text::string_from_chars;
use crate::text::trim_start_char;
use crate::text::trim_start_matches_char;
use vstd::utf8::encode_utf8;
use crate::net::lossy_utf8;
use crate::net::utf8_lossy;
use vstd::string::StringSliceAdditionalSpecFns;

verus! {

broadcast use vstd::string::group_string_axioms;

/// The value of a hexadecimal digit byte.
pub open spec fn hex_value(b: u8) -> Option<u8> {
    if 0x30 <= b <= 0x39 {
        Some((b - 0x30) as u8)
    } else if 0x61 <= b <= 0x66 {
        Some((b - 0x61 + 10) as u8)
    } else if 0x41 <= b <= 0x46 {
        Some((b - 0x41 + 10) as u8)
    } else {
        None
    }
}

/// The value of a hexadecimal digit byte, if it is one.
pub fn hex_val(b: u8) -> (r: Option<u8>)
    ensures
        r == hex_value(b),
{
    if b >= 0x30 && b <= 0x39 {
        Some(b - 0x30)
    } else if b >= 0x61 && b <= 0x66 {
        Some(b - 0x61 + 10)
    } else if b >= 0x41 && b <= 0x46 {
        Some(b - 0x41 + 10)
    } else {
        None
    }
}

/// `b` starts with a complete `%XY` escape.
pub open spec fn escape_at_start(b: Seq<u8>) -> bool {
    b.len() > 2 && b[0] == 0x25 && hex_value(b[1]) is Some && hex_value(b[2]) is Some
}

/// The byte that the escape at the start of `b` stands for.
pub open spec fn escaped_byte(b: Seq<u8>) -> u8 {
    (hex_value(b[1])->0 * 16 + hex_value(b[2])->0) as u8
}

/// The bytes of `b` with each `%XY` escape replaced by the byte `0xXY`;
/// bytes that do not start a complete escape are kept.
pub open spec fn unescaped_bytes(b: Seq<u8>) -> Seq<u8>
    decreases b.len(),
{
    if b.len() == 0 {
        Seq::empty()
    } else if escape_at_start(b) {
        seq![escaped_byte(b)] + unescaped_bytes(b.subrange(3, b.len() as int))
    } else {
        seq![b[0]] + unescaped_bytes(b.drop_first())
    }
}

/// Percent-decoding of the UTF-8 bytes `b`: the escapes unescaped, and the
/// bytes then read as UTF-8 (invalid sequences replaced by U+FFFD).
pub open spec fn percent_decoded(b: Seq<u8>) -> Seq<char> {
    lossy_utf8(unescaped_bytes(b))
}

/// Bytes without `%` are their own unescaping.
pub proof fn lemma_unescaped_without_percent(b: Seq<u8>)
    requires
        !b.contains(0x25u8),
    ensures
        unescaped_bytes(b) == b,
    decreases b.len(),
{
    if b.len() > 0 {
        assert(!b.drop_first().contains(0x25u8)) by {
            if b.drop_first().contains(0x25u8) {
                let k = choose|k: int| 0 <= k < b.drop_first().len() && b.drop_first()[k] == 0x25u8;
                assert(b[k + 1] == 0x25u8);
            }
        }
        assert(b[0] != 0x25u8) by {
            if b[0] == 0x25u8 {
                assert(b.contains(0x25u8));
            }
        }
        lemma_unescaped_without_percent(b.drop_first());
        assert(seq![b[0]] + b.drop_first() =~= b);
    }
}

/// Only the character `%` is encoded with the byte `0x25`.
proof fn lemma_scalar_without_percent(c: char)
    requires
        c != '%',
    ensures
        !vstd::utf8::encode_scalar(c as u32).contains(0x25u8),
{
    let v = c as u32;
    vstd::utf8::char_is_scalar(c);
    let e = vstd::utf8::encode_scalar(v);
    assert(v != 0x25u32);
    assert forall|k: int| 0 <= k < e.len() implies e[k] != 0x25u8 by {
        if vstd::utf8::has_width_1_encoding(v) {
            assert(v <= 0x7f && v != 0x25 ==> ((v & 0x7F) as u8) != 0x25u8) by (bit_vector);
        } else {
            assert(forall|x: u8| (0x80u8 | x) != 0x25u8) by (bit_vector);
            assert(forall|x: u8| (0xC0u8 | x) != 0x25u8) by (bit_vector);
            assert(forall|x: u8| (0xE0u8 | x) != 0x25u8) by (bit_vector);
            assert(forall|x: u8| (0xF0u8 | x) != 0x25u8) by (bit_vector);
        }
    }
}

/// Text without `%` encodes without the byte `0x25`.
pub proof fn lemma_encoding_without_percent(s: Seq<char>)
    requires
        !s.contains('%'),
    ensures
        !encode_utf8(s).contains(0x25u8),
    decreases s.len(),
{
    if s.len() > 0 {
        assert(s[0] != '%') by {
            if s[0] == '%' {
                assert(s.contains('%'));
            }
        }
        assert(!s.drop_first().contains('%')) by {
            if s.drop_first().contains('%') {
                let k = choose|k: int| 0 <= k < s.drop_first().len() && s.drop_first()[k] == '%';
                assert(s[k + 1] == '%');
            }
        }
        lemma_scalar_without_percent(s[0]);
        lemma_encoding_without_percent(s.drop_first());
        let a = vstd::utf8::encode_scalar(s[0] as u32);
        let b = encode_utf8(s.drop_first());
        assert(encode_utf8(s) == a + b);
        if (a + b).contains(0x25u8) {
            let k = choose|k: int| 0 <= k < (a + b).len() && (a + b)[k] == 0x25u8;
            if k < a.len() {
                assert(a[k] == 0x25u8);
            } else {
                assert(b[k - a.len()] == 0x25u8);
            }
        }
    }
}

/// The bytes of `s` with its `%XY` escapes unescaped (see
/// `unescaped_bytes`).
pub fn unescape_percent(s: &str) -> (r: Vec<u8>)
    ensures
        r@ == unescaped_bytes(s.spec_bytes()),
{
    let bytes = s.as_bytes();
    let n = bytes.len();
    let ghost b = bytes@;
    let mut out: Vec<u8> = Vec::new();
    let mut i: usize = 0;
    assert(b.subrange(0, n as int) == b);
    while i < n
        invariant
            n == b.len(),
            b == bytes@,
            i <= n,
            out@ + unescaped_bytes(b.subrange(i as int, n as int)) == unescaped_bytes(b),
        decreases n - i,
    {
        let ghost rest = b.subrange(i as int, n as int);
        if bytes[i] == 0x25 && n - i > 2 {
            let hi = hex_val(bytes[i + 1]);
            let lo = hex_val(bytes[i + 2]);
            match (hi, lo) {
                (Some(h), Some(l)) => {
                    assert(rest[1] == b[i + 1] && rest[2] == b[i + 2]);
                    assert(escape_at_start(rest));
                    let byte: u8 = h * 16 + l;
                    assert(rest.subrange(3, rest.len() as int) == b.subrange(i + 3, n as int));
                    assert(escaped_byte(rest) == byte);
                    out.push(byte);
                    i = i + 3;
                    assert(out@ + unescaped_bytes(b.subrange(i as int, n as int)) == unescaped_bytes(b));
                    continue;
                },
                _ => {
                    assert(!escape_at_start(rest));
                },
            }
        } else {
            assert(!escape_at_start(rest));
        }
        assert(rest.drop_first() == b.subrange(i + 1, n as int));
        out.push(bytes[i]);
        i = i + 1;
        assert(out@ + unescaped_bytes(b.subrange(i as int, n as int)) == unescaped_bytes(b));
    }
    assert(unescaped_bytes(b.subrange(n as int, n as int)) == Seq::<u8>::empty());
    assert(out@ + Seq::<u8>::empty() == out@);
    out
}

/// Decodes the `%XY` escapes of `s` and reads the bytes as UTF-8, with
/// invalid sequences replaced by U+FFFD; text without `%` comes back as it
/// is.
pub fn percent_decode(s: &str) -> (r: String)
    ensures
        r@ == percent_decoded(s.spec_bytes()),
        !s@.contains('%') ==> r@ == s@,
{
    let bytes = unescape_percent(s);
    let r = utf8_lossy(bytes.as_slice());
    proof {
        if !s@.contains('%') {
            lemma_encoding_without_percent(s@);
        }
        if !s.spec_bytes().contains(0x25u8) {
            lemma_unescaped_without_percent(s.spec_bytes());
            vstd::utf8::encode_utf8_valid_utf8(s@);
            vstd::utf8::encode_utf8_decode_utf8(s@);
        }
    }
    r
}

/// The characters of the percent-decoding of `s`.
pub fn percent_decode_chars(s: &str) -> (r: Vec<char>)
    ensures
        r@ == percent_decoded(s.spec_bytes()),
{
    chars_of(percent_decode(s).as_str())
}

/// The content-relative form of `relative`: percent-decoded and stripped of
/// leading `/`; `None` when it holds `..`.
pub open spec fn content_relative(relative: Seq<u8>) -> Option<Seq<char>> {
    let clean = trim_start_char(percent_decoded(relative), '/');
    if contains_seq(clean, seq!['.', '.']) {
        None
    } else {
        Some(clean)
    }
}

/// `rel` appended to `base` as `Path::join` does for a relative `rel`: with a
/// `/` between them unless `base` is empty or already ends with one. An
/// absolute `rel` replaces `base`.
pub open spec fn path_join(base: Seq<char>, rel: Seq<char>) -> Seq<char> {
    if rel.len() > 0 && rel[0] == '/' {
        rel
    } else if base.len() == 0 || base.last() == '/' {
        base + rel
    } else {
        base + seq!['/'] + rel
    }
}

/// Joins `rel` onto `base` as a path.
pub fn join_path_chars(base: &[char], rel: &[char]) -> (r: Vec<char>)
    ensures
        r@ == path_join(base@, rel@),
{
    let mut out: Vec<char> = Vec::new();
    if rel.len() > 0 && rel[0] == '/' {
        let mut i: usize = 0;
        while i < rel.len()
            invariant
                i <= rel@.len(),
                out@ == rel@.subrange(0, i as int),
            decreases rel@.len() - i,
        {
            out.push(rel[i]);
            i = i + 1;
        }
        return out;
    }
    let mut i: usize = 0;
    while i < base.len()
        invariant
            i <= base@.len(),
            out@ == base@.subrange(0, i as int),
        decreases base@.len() - i,
    {
        out.push(base[i]);
        i = i + 1;
    }
    assert(base@.subrange(0, base@.len() as int) == base@);
    if base.len() > 0 && base[base.len() - 1] != '/' {
        out.push('/');
    }
    let ghost pre = out@;
    let mut j: usize = 0;
    while j < rel.len()
        invariant
            j <= rel@.len(),
            out@ == pre + rel@.subrange(0, j as int),
        decreases rel@.len() - j,
    {
        out.push(rel[j]);
        j = j + 1;
    }
    assert(rel@.subrange(0, rel@.len() as int) == rel@);
    out
}

/// Joins `rel` onto `base` as a path.
pub fn join_path(base: &str, rel: &str) -> (r: String)
    ensures
        r@ == path_join(base@, rel@),
{
    let b = chars_of(base);
    let r = chars_of(rel);
    let j = join_path_chars(&b, &r);
    string_from_chars(&j)
}

/// The content-relative form of `relative`, or `None` when it would reach
/// outside the content directory by `..`.
pub fn content_relative_path(relative: &str) -> (r: Option<Vec<char>>)
    ensures
        match r {
            Some(v) => content_relative(relative.spec_bytes()) == Some(v@),
            None => content_relative(relative.spec_bytes()) is None,
        },
{
    let decoded = percent_decode_chars(relative);
    let clean = trim_start_matches_char(&decoded, '/');
    proof {
        reveal_strlit("..");
        assert(".."@ == seq!['.', '.']);
    }
    if contains_lit(&clean, "..") {
        None
    } else {
        Some(clean)
    }
}

/// The path of `relative` inside `base_dir`, or `None` when `relative`
/// (after percent-decoding) holds `..`. This is the lexical check; the check
/// of symbolic links against the file system is made where the file system is
/// read.
pub fn safe_content_path_pub(base_dir: &str, relative: &str) -> (r: Option<String>)
    ensures
        match r {
            Some(p) => content_relative(relative.spec_bytes()) matches Some(c) && p@ == path_join(
                base_dir@,
                c,
            ),
            None => content_relative(relative.spec_bytes()) is None,
        },
{
    match content_relative_path(relative) {
        Some(clean) => {
            let b = chars_of(base_dir);
            let j = join_path_chars(&b, &clean);
            Some(string_from_chars(&j))
        },
        None => None,
    }
}

/// The path part of a sidecar URL: after `scheme://host[:port]` when there is
/// a `://`, else the whole URL.
pub open spec fn url_path_part(url: Seq<char>) -> Seq<char> {
    match find_first(url, seq![':', '/', '/']) {
        Some(idx) => {
            let after = url.subrange(idx + 3, url.len() as int);
            match find_first(after, seq!['/']) {
                Some(slash) => after.subrange(slash, after.len() as int),
                None => seq!['/'],
            }
        },
        None => url,
    }
}

/// The file a sidecar URL names: its path without leading `/` and without
/// the first segment (the nonce), `index.html` when nothing is left.
pub open spec fn url_file(url: Seq<char>) -> Seq<char> {
    let p = trim_start_char(url_path_part(url), '/');
    let without_nonce = match find_first(p, seq!['/']) {
        Some(slash) => p.subrange(slash + 1, p.len() as int),
        None => p,
    };
    if without_nonce.len() == 0 {
        "index.html"@
    } else {
        without_nonce
    }
}

/// The file a sidecar URL names (see `url_file`).
pub fn url_file_chars(url: &str) -> (r: Vec<char>)
    ensures
        r@ == url_file(url@),
{
    let u = chars_of(url);
    proof {
        reveal_strlit("://");
        reveal_strlit("/");
        assert("://"@ == seq![':', '/', '/']);
        assert("/"@ == seq!['/']);
    }
    let path_part = match find_lit(&u, "://") {
        Some(idx) => {
            assert(crate::text::occurs_at(u@, "://"@, idx as int));
            assert("://"@.len() == 3);
            assert(idx + 3 <= u.len());
            let after = copy_range(&u, idx + 3, u.len());
            match find_lit(&after, "/") {
                Some(slash) => copy_range(&after, slash, after.len()),
                None => chars_of("/"),
            }
        },
        None => u,
    };
    let p = trim_start_matches_char(&path_part, '/');
    let without_nonce = match find_lit(&p, "/") {
        Some(slash) => {
            assert(crate::text::occurs_at(p@, "/"@, slash as int));
            assert("/"@.len() == 1);
            assert(slash + 1 <= p.len());
            copy_range(&p, slash + 1, p.len())
        },
        None => p,
    };
    if without_nonce.len() == 0 {
        chars_of("index.html")
    } else {
        without_nonce
    }
}

/// The path under `content_dir` that a sidecar URL names: the URL's file
/// joined onto `content_dir`, or `content_dir/index.html` when the file would
/// reach outside by `..`.
pub open spec fn url_target(url: Seq<char>, content_dir: Seq<char>) -> Seq<char> {
    match content_relative(encode_utf8(url_file(url))) {
        Some(c) => path_join(content_dir, c),
        None => path_join(content_dir, "index.html"@),
    }
}

/// Maps a sidecar URL such as `http://127.0.0.1:8080/<nonce>/index.html` to
/// the path of the file it names under `content_dir`.
pub fn url_to_content_path(url: &str, content_dir: &str) -> (r: String)
    ensures
        r@ == url_target(url@, content_dir@),
{
    let file = url_file_chars(url);
    let file_s = string_from_chars(&file);
    match safe_content_path_pub(content_dir, file_s.as_str()) {
        Some(p) => p,
        None => join_path(content_dir, "index.html"),
    }
}

/// Stripping every leading `c` leaves a sequence that does not start with `c`.
pub proof fn lemma_trim_start_char_head(s: Seq<char>, c: char)
    ensures
        !(trim_start_char(s, c).len() > 0 && trim_start_char(s, c)[0] == c),
    decreases s.len(),
{
    if s.len() > 0 && s[0] == c {
        lemma_trim_start_char_head(s.drop_first(), c);
    }
}

/// Whatever the URL, the path it is mapped to is `content_dir` joined with a
/// relative path that holds no `..` and does not start with `/`: a URL
/// cannot name a file outside the content directory by traversal.
pub proof fn lemma_url_target_inside(url: Seq<char>, content_dir: Seq<char>)
    ensures
        exists|rel: Seq<char>|
            #![trigger path_join(content_dir, rel)]
            url_target(url, content_dir) == path_join(content_dir, rel) && !contains_seq(
                rel,
                seq!['.', '.'],
            ) && !(rel.len() > 0 && rel[0] == '/'),
{
    reveal_strlit("index.html");
    match content_relative(encode_utf8(url_file(url))) {
        Some(c) => {
            lemma_trim_start_char_head(percent_decoded(encode_utf8(url_file(url))), '/');
            assert(url_target(url, content_dir) == path_join(content_dir, c));
        },
        None => {
            let rel = "index.html"@;
            assert(!contains_seq(rel, seq!['.', '.'])) by {
                assert forall|i: int| !crate::text::occurs_at(rel, seq!['.', '.'], i) by {
                    if crate::text::occurs_at(rel, seq!['.', '.'], i) {
                        assert(rel.subrange(i, i + 2)[0] == rel[i]);
                        assert(rel.subrange(i, i + 2)[1] == rel[i + 1]);
                    }
                }
            }
            assert(url_target(url, content_dir) == path_join(content_dir, rel));
        },
    }
}

} // verus!
