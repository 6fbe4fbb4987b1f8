//! Finding `<script>` and `<link rel="stylesheet">` elements in HTML text.
//!
//! The scan recognises start tags by their name (ASCII case-insensitive),
//! skips `<!-- ... -->` comments, reads attributes as `name`, `name=value`,
//! `name="value"` or `name='value'`, and takes the text of a script element
//! up to the next `</script`.
use vstd::prelude::*;
use crate::text::is_ws;
use crate::text::is_whitespace;
use crate::text::occurs_at;
use crate::text::occurs_lit_at;
use crate::text::copy_range;
use crate::text::chars_of;
use crate::text::string_from_chars;

verus! {

broadcast use vstd::string::group_string_axioms;

/// ASCII lower-casing of one character.
pub open spec fn ascii_lower(c: char) -> char {
    if 'A' <= c && c <= 'Z' {
        ((c as u8) + 32) as char
    } else {
        c
    }
}

/// ASCII lower-casing of a string.
pub open spec fn ascii_lower_seq(s: Seq<char>) -> Seq<char> {
    s.map_values(|c: char| ascii_lower(c))
}

/// `p` occurs in `h` at `i`, ignoring ASCII case in `h` (`p` is lower case).
pub open spec fn ci_at(h: Seq<char>, p: Seq<char>, i: int) -> bool {
    0 <= i && i + p.len() <= h.len() && forall|k: int|
        0 <= k < p.len() ==> ascii_lower(#[trigger] h[i + k]) == p[k]
}

/// The first position `j >= i` of `h` where `f` holds, or `h.len()`.
pub open spec fn first_from(h: Seq<char>, i: int, f: spec_fn(int) -> bool) -> int
    decreases h.len() - i,
{
    if i >= h.len() {
        h.len() as int
    } else if f(i) {
        i
    } else {
        first_from(h, i + 1, f)
    }
}

/// Positions holding `c`.
pub open spec fn at_char(h: Seq<char>, c: char) -> spec_fn(int) -> bool {
    |j: int| h[j] == c
}

/// Positions holding white space.
pub open spec fn at_ws(h: Seq<char>) -> spec_fn(int) -> bool {
    |j: int| is_ws(h[j])
}

/// Positions holding neither white space nor `/`.
pub open spec fn at_attr_start(h: Seq<char>) -> spec_fn(int) -> bool {
    |j: int| !(is_ws(h[j]) || h[j] == '/')
}

/// Positions that end an attribute name.
pub open spec fn at_name_end(h: Seq<char>) -> spec_fn(int) -> bool {
    |j: int| is_ws(h[j]) || h[j] == '=' || h[j] == '/'
}

/// Positions that do not hold white space.
pub open spec fn at_non_ws(h: Seq<char>) -> spec_fn(int) -> bool {
    |j: int| !is_ws(h[j])
}

/// Positions where `p` occurs exactly.
pub open spec fn at_seq(h: Seq<char>, p: Seq<char>) -> spec_fn(int) -> bool {
    |j: int| occurs_at(h, p, j)
}

/// Positions where lower-case `p` occurs ignoring case.
pub open spec fn at_ci(h: Seq<char>, p: Seq<char>) -> spec_fn(int) -> bool {
    |j: int| ci_at(h, p, j)
}

pub proof fn lemma_first_from_bounds(h: Seq<char>, i: int, f: spec_fn(int) -> bool)
    requires
        0 <= i,
    ensures
        i <= h.len() ==> i <= first_from(h, i, f) <= h.len(),
        first_from(h, i, f) <= h.len(),
        first_from(h, i, f) < h.len() ==> f(first_from(h, i, f)),
    decreases h.len() - i,
{
    if i < h.len() && !f(i) {
        lemma_first_from_bounds(h, i + 1, f);
    }
}

/// First position at or after `i` holding `c`.
pub fn find_char_from(h: &[char], c: char, i: usize) -> (r: usize)
    ensures
        r == first_from(h@, i as int, at_char(h@, c)),
{
    let mut j = i;
    while j < h.len()
        invariant
            i <= j,
            first_from(h@, i as int, at_char(h@, c)) == first_from(h@, j as int, at_char(h@, c)),
        decreases h@.len() - j,
    {
        if h[j] == c {
            return j;
        }
        j = j + 1;
    }
    if j > h.len() {
        return h.len();
    }
    j
}

/// First position at or after `i` holding white space.
fn find_ws_from(h: &[char], i: usize) -> (r: usize)
    ensures
        r == first_from(h@, i as int, at_ws(h@)),
{
    let mut j = i;
    while j < h.len()
        invariant
            i <= j,
            first_from(h@, i as int, at_ws(h@)) == first_from(h@, j as int, at_ws(h@)),
        decreases h@.len() - j,
    {
        if is_whitespace(h[j]) {
            return j;
        }
        j = j + 1;
    }
    if j > h.len() {
        return h.len();
    }
    j
}

/// First position at or after `i` holding no white space.
fn skip_ws_from(h: &[char], i: usize) -> (r: usize)
    ensures
        r == first_from(h@, i as int, at_non_ws(h@)),
{
    let mut j = i;
    while j < h.len()
        invariant
            i <= j,
            first_from(h@, i as int, at_non_ws(h@)) == first_from(h@, j as int, at_non_ws(h@)),
        decreases h@.len() - j,
    {
        if !is_whitespace(h[j]) {
            return j;
        }
        j = j + 1;
    }
    if j > h.len() {
        return h.len();
    }
    j
}

/// First position at or after `i` where an attribute may start.
fn skip_to_attr_from(h: &[char], i: usize) -> (r: usize)
    ensures
        r == first_from(h@, i as int, at_attr_start(h@)),
{
    let mut j = i;
    while j < h.len()
        invariant
            i <= j,
            first_from(h@, i as int, at_attr_start(h@)) == first_from(
                h@,
                j as int,
                at_attr_start(h@),
            ),
        decreases h@.len() - j,
    {
        if !(is_whitespace(h[j]) || h[j] == '/') {
            return j;
        }
        j = j + 1;
    }
    if j > h.len() {
        return h.len();
    }
    j
}

/// First position at or after `i` that ends an attribute name.
fn find_name_end_from(h: &[char], i: usize) -> (r: usize)
    ensures
        r == first_from(h@, i as int, at_name_end(h@)),
{
    let mut j = i;
    while j < h.len()
        invariant
            i <= j,
            first_from(h@, i as int, at_name_end(h@)) == first_from(h@, j as int, at_name_end(h@)),
        decreases h@.len() - j,
    {
        if is_whitespace(h[j]) || h[j] == '=' || h[j] == '/' {
            return j;
        }
        j = j + 1;
    }
    if j > h.len() {
        return h.len();
    }
    j
}

/// First position at or after `i` where `lit` occurs.
fn find_lit_from(h: &[char], lit: &str, i: usize) -> (r: usize)
    ensures
        r == first_from(h@, i as int, at_seq(h@, lit@)),
{
    let mut j = i;
    while j < h.len()
        invariant
            i <= j,
            first_from(h@, i as int, at_seq(h@, lit@)) == first_from(
                h@,
                j as int,
                at_seq(h@, lit@),
            ),
        decreases h@.len() - j,
    {
        if occurs_lit_at(h, lit, j) {
            return j;
        }
        j = j + 1;
    }
    if j > h.len() {
        return h.len();
    }
    j
}

/// ASCII lower-casing of one character.
fn to_ascii_lower(c: char) -> (r: char)
    ensures
        r == ascii_lower(c),
{
    if 'A' <= c && c <= 'Z' {
        ((c as u8) + 32) as char
    } else {
        c
    }
}

/// Whether lower-case `p` occurs in `h` at `i`, ignoring ASCII case.
fn ci_lit_at(h: &[char], p: &str, i: usize) -> (b: bool)
    ensures
        b == ci_at(h@, p@, i as int),
{
    let n = p.unicode_len();
    if i > h.len() || h.len() - i < n {
        return false;
    }
    let mut k: usize = 0;
    while k < n
        invariant
            n == p@.len(),
            i + n <= h@.len(),
            h@.len() == h.len(),
            k <= n,
            forall|m: int| 0 <= m < k ==> ascii_lower(#[trigger] h@[i + m]) == p@[m],
        decreases n - k,
    {
        if to_ascii_lower(h[i + k]) != p.get_char(k) {
            return false;
        }
        k = k + 1;
    }
    true
}

/// First position at or after `i` where lower-case `p` occurs ignoring case.
fn find_ci_from(h: &[char], p: &str, i: usize) -> (r: usize)
    ensures
        r == first_from(h@, i as int, at_ci(h@, p@)),
{
    let mut j = i;
    while j < h.len()
        invariant
            i <= j,
            first_from(h@, i as int, at_ci(h@, p@)) == first_from(h@, j as int, at_ci(h@, p@)),
        decreases h@.len() - j,
    {
        if ci_lit_at(h, p, j) {
            return j;
        }
        j = j + 1;
    }
    if j > h.len() {
        return h.len();
    }
    j
}

/// One attribute: its name as written, and its value (empty when absent).
pub type AttrView = (Seq<char>, Seq<char>);

/// The attributes written in the text `t` of a start tag, from position `i`.
pub open spec fn attrs_from(t: Seq<char>, i: int) -> Seq<AttrView>
    decreases t.len() - i,
{
    if i < 0 || i >= t.len() {
        Seq::empty()
    } else {
        let s = first_from(t, i, at_attr_start(t));
        if s >= t.len() || s < i {
            Seq::empty()
        } else {
            let ne = first_from(t, s, at_name_end(t));
            if ne <= s {
                attrs_from(t, s + 1)
            } else if ne > t.len() {
                Seq::empty()
            } else {
                let name = t.subrange(s, ne);
                let e = first_from(t, ne, at_non_ws(t));
                if ne <= e < t.len() && t[e] == '=' {
                    let v0 = first_from(t, e + 1, at_non_ws(t));
                    if e < v0 < t.len() && (t[v0] == '"' || t[v0] == '\'') {
                        let ve = first_from(t, v0 + 1, at_char(t, t[v0]));
                        if v0 < ve < t.len() {
                            seq![(name, t.subrange(v0 + 1, ve))] + attrs_from(t, ve + 1)
                        } else if ve == t.len() {
                            seq![(name, t.subrange(v0 + 1, ve))]
                        } else {
                            Seq::empty()
                        }
                    } else if e < v0 <= t.len() {
                        let ve = first_from(t, v0, at_ws(t));
                        if v0 <= ve <= t.len() {
                            seq![(name, t.subrange(v0, ve))] + attrs_from(t, ve)
                        } else {
                            Seq::empty()
                        }
                    } else {
                        Seq::empty()
                    }
                } else {
                    seq![(name, Seq::empty())] + attrs_from(t, ne)
                }
            }
        }
    }
}

/// The value of the first attribute whose name is `name` ignoring ASCII
/// case (`name` is lower case).
pub open spec fn attr_value(attrs: Seq<AttrView>, name: Seq<char>) -> Option<Seq<char>>
    decreases attrs.len(),
{
    if attrs.len() == 0 {
        None
    } else if ascii_lower_seq(attrs[0].0) == name {
        Some(attrs[0].1)
    } else {
        attr_value(attrs.drop_first(), name)
    }
}

/// An attribute of a start tag.
pub struct Attr {
    pub name: Vec<char>,
    pub value: Vec<char>,
}

/// The view of a list of attributes.
pub open spec fn attrs_view(a: Seq<Attr>) -> Seq<AttrView> {
    a.map_values(|x: Attr| (x.name@, x.value@))
}

/// Reads the attributes of the start-tag text `t`.
pub fn parse_attrs(t: &[char]) -> (r: Vec<Attr>)
    ensures
        attrs_view(r@) == attrs_from(t@, 0),
{
    let mut out: Vec<Attr> = Vec::new();
    let mut i: usize = 0;
    let n = t.len();
    while i < n
        invariant
            n == t@.len(),
            attrs_view(out@) + attrs_from(t@, i as int) == attrs_from(t@, 0),
        decreases n - i,
    {
        let ghost t0 = t@;
        let s = skip_to_attr_from(t, i);
        proof {
            lemma_first_from_bounds(t0, i as int, at_attr_start(t0));
        }
        if s >= n {
            assert(attrs_from(t0, i as int) == Seq::<AttrView>::empty());
            assert(attrs_from(t0, n as int) == Seq::<AttrView>::empty());
            i = n;
            continue;
        }
        let ne = find_name_end_from(t, s);
        proof {
            lemma_first_from_bounds(t0, s as int, at_name_end(t0));
        }
        if ne <= s {
            assert(attrs_from(t0, i as int) == attrs_from(t0, s + 1));
            i = s + 1;
            continue;
        }
        let name = copy_range(t, s, ne);
        let e = skip_ws_from(t, ne);
        proof {
            lemma_first_from_bounds(t0, ne as int, at_non_ws(t0));
        }
        if e < n && t[e] == '=' {
            let v0 = skip_ws_from(t, e + 1);
            proof {
                lemma_first_from_bounds(t0, e + 1, at_non_ws(t0));
            }
            if v0 < n && (t[v0] == '"' || t[v0] == '\'') {
                let q = t[v0];
                let ve = find_char_from(t, q, v0 + 1);
                proof {
                    lemma_first_from_bounds(t0, v0 + 1, at_char(t0, q));
                }
                let value = copy_range(t, v0 + 1, ve);
                let ghost before = attrs_view(out@);
                out.push(Attr { name, value });
                assert(attrs_view(out@) == before.push((t0.subrange(s as int, ne as int), t0.subrange(v0 + 1, ve as int))));
                if ve >= n {
                    assert(attrs_from(t0, i as int) == seq![(t0.subrange(s as int, ne as int), t0.subrange(v0 + 1, ve as int))]);
                    assert(attrs_from(t0, n as int) == Seq::<AttrView>::empty());
                    i = n;
                } else {
                    assert(attrs_from(t0, i as int) == seq![(t0.subrange(s as int, ne as int), t0.subrange(v0 + 1, ve as int))] + attrs_from(t0, ve + 1));
                    i = ve + 1;
                }
            } else {
                let ve = find_ws_from(t, v0);
                proof {
                    lemma_first_from_bounds(t0, v0 as int, at_ws(t0));
                }
                let value = copy_range(t, v0, ve);
                let ghost before = attrs_view(out@);
                out.push(Attr { name, value });
                assert(attrs_view(out@) == before.push((t0.subrange(s as int, ne as int), t0.subrange(v0 as int, ve as int))));
                assert(attrs_from(t0, i as int) == seq![(t0.subrange(s as int, ne as int), t0.subrange(v0 as int, ve as int))] + attrs_from(t0, ve as int));
                i = ve;
            }
        } else {
            let ghost before = attrs_view(out@);
            out.push(Attr { name, value: Vec::new() });
            assert(attrs_view(out@) == before.push((t0.subrange(s as int, ne as int), Seq::<char>::empty())));
            assert(attrs_from(t0, i as int) == seq![(t0.subrange(s as int, ne as int), Seq::<char>::empty())] + attrs_from(t0, ne as int));
            i = ne;
        }
    }
    assert(attrs_from(t@, i as int) == Seq::<AttrView>::empty());
    assert(attrs_view(out@) + Seq::<AttrView>::empty() == attrs_view(out@));
    out
}

/// A start tag named `name` (lower case) opens at `i`.
pub open spec fn tag_open_at(h: Seq<char>, name: Seq<char>, i: int) -> bool {
    let a = i + 1 + name.len();
    &&& 0 <= i < h.len()
    &&& h[i] == '<'
    &&& ci_at(h, name, i + 1)
    &&& (a == h.len() || is_ws(h[a]) || h[a] == '>' || h[a] == '/')
}

/// One element: the text of its start tag after the name, and its content.
pub type ElemView = (Seq<char>, Seq<char>);

/// Where the scan goes on after a comment that opens at `i`.
pub open spec fn after_comment(h: Seq<char>, i: int) -> int {
    let e = first_from(h, i + 4, at_seq(h, "-->"@));
    if e + 3 <= h.len() {
        e + 3
    } else {
        h.len() as int
    }
}

/// The elements named `name` in `h` from position `i`, in document order.
/// When `close` is given, an element's content runs up to the next `close`
/// (ignoring case); otherwise elements have no content.
pub open spec fn elements_from(
    h: Seq<char>,
    name: Seq<char>,
    close: Option<Seq<char>>,
    i: int,
) -> Seq<ElemView>
    decreases h.len() - i,
{
    if i < 0 || i >= h.len() {
        Seq::empty()
    } else if occurs_at(h, "<!--"@, i) {
        let next = after_comment(h, i);
        if i < next <= h.len() {
            elements_from(h, name, close, next)
        } else {
            Seq::empty()
        }
    } else if tag_open_at(h, name, i) {
        let a = i + 1 + name.len();
        let gt = first_from(h, a, at_char(h, '>'));
        let cs = if gt < h.len() {
            gt + 1
        } else {
            h.len() as int
        };
        if !(i < a <= gt <= h.len()) {
            Seq::empty()
        } else {
            let attrs = h.subrange(a, gt);
            match close {
                Some(c) => {
                    let end = first_from(h, cs, at_ci(h, c));
                    let g2 = first_from(h, end, at_char(h, '>'));
                    let next = if g2 < h.len() {
                        g2 + 1
                    } else {
                        h.len() as int
                    };
                    if cs <= end <= h.len() && i < next <= h.len() {
                        seq![(attrs, h.subrange(cs, end))] + elements_from(h, name, close, next)
                    } else {
                        Seq::empty()
                    }
                },
                None => seq![(attrs, Seq::empty())] + elements_from(h, name, close, cs),
            }
        }
    } else {
        elements_from(h, name, close, i + 1)
    }
}

/// An element found in HTML text.
pub struct Elem {
    /// The start tag's text after the tag name, up to `>`.
    pub attrs: Vec<char>,
    /// The element's text content (empty for elements without content).
    pub content: Vec<char>,
}

/// The view of a list of elements.
pub open spec fn elems_view(e: Seq<Elem>) -> Seq<ElemView> {
    e.map_values(|x: Elem| (x.attrs@, x.content@))
}

/// Whether a start tag named `name` opens at `i`.
fn tag_open(h: &[char], name: &str, i: usize) -> (b: bool)
    ensures
        b == tag_open_at(h@, name@, i as int),
{
    if i >= h.len() || h[i] != '<' {
        return false;
    }
    if !ci_lit_at(h, name, i + 1) {
        return false;
    }
    let a = i + 1 + name.unicode_len();
    a == h.len() || is_whitespace(h[a]) || h[a] == '>' || h[a] == '/'
}

/// The elements named `name` (lower case) in `h`, in document order; with
/// `close`, each element's content runs up to the next `close`.
pub fn scan_elements(h: &[char], name: &str, close: Option<&str>) -> (r: Vec<Elem>)
    ensures
        elems_view(r@) == elements_from(
            h@,
            name@,
            match close {
                Some(c) => Some(c@),
                None => None,
            },
            0,
        ),
{
    let ghost cl: Option<Seq<char>> = match close {
        Some(c) => Some(c@),
        None => None,
    };
    let ghost h0 = h@;
    let n = h.len();
    let mut out: Vec<Elem> = Vec::new();
    let mut i: usize = 0;
    proof {
        reveal_strlit("<!--");
        reveal_strlit("-->");
    }
    while i < n
        invariant
            n == h0.len(),
            h0 == h@,
            i <= n,
            cl == (match close {
                Some(c) => Some(c@),
                None => None::<Seq<char>>,
            }),
            elems_view(out@) + elements_from(h0, name@, cl, i as int) == elements_from(
                h0,
                name@,
                cl,
                0,
            ),
        decreases n - i,
    {
        proof {
            reveal_strlit("<!--");
            reveal_strlit("-->");
        }
        if occurs_lit_at(h, "<!--", i) {
            assert("<!--"@.len() == 4);
            let e = find_lit_from(h, "-->", i + 4);
            proof {
                lemma_first_from_bounds(h0, i + 4, at_seq(h0, "-->"@));
            }
            let next = if e <= n && n - e >= 3 {
                e + 3
            } else {
                n
            };
            assert(next == after_comment(h0, i as int));
            i = next;
            continue;
        }
        if !tag_open(h, name, i) {
            i = i + 1;
            continue;
        }
        let a = i + 1 + name.unicode_len();
        let gt = find_char_from(h, '>', a);
        proof {
            lemma_first_from_bounds(h0, a as int, at_char(h0, '>'));
        }
        let cs = if gt < n {
            gt + 1
        } else {
            n
        };
        let attrs = copy_range(h, a, gt);
        match close {
            Some(c) => {
                let end = find_ci_from(h, c, cs);
                proof {
                    lemma_first_from_bounds(h0, cs as int, at_ci(h0, c@));
                }
                let g2 = find_char_from(h, '>', end);
                proof {
                    lemma_first_from_bounds(h0, end as int, at_char(h0, '>'));
                }
                let next = if g2 < n {
                    g2 + 1
                } else {
                    n
                };
                let content = copy_range(h, cs, end);
                let ghost before = elems_view(out@);
                out.push(Elem { attrs, content });
                assert(elems_view(out@) == before.push(
                    (h0.subrange(a as int, gt as int), h0.subrange(cs as int, end as int)),
                ));
                assert(elements_from(h0, name@, cl, i as int) == seq![
                    (h0.subrange(a as int, gt as int), h0.subrange(cs as int, end as int)),
                ] + elements_from(h0, name@, cl, next as int));
                i = next;
            },
            None => {
                let ghost before = elems_view(out@);
                out.push(Elem { attrs, content: Vec::new() });
                assert(elems_view(out@) == before.push(
                    (h0.subrange(a as int, gt as int), Seq::<char>::empty()),
                ));
                assert(elements_from(h0, name@, cl, i as int) == seq![
                    (h0.subrange(a as int, gt as int), Seq::<char>::empty()),
                ] + elements_from(h0, name@, cl, cs as int));
                i = cs;
            },
        }
    }
    assert(elements_from(h0, name@, cl, i as int) == Seq::<ElemView>::empty());
    assert(elems_view(out@) + Seq::<ElemView>::empty() == elems_view(out@));
    out
}

/// ASCII lower-casing of `v`.
pub fn ascii_lowercase(v: &[char]) -> (r: Vec<char>)
    ensures
        r@ == ascii_lower_seq(v@),
{
    let mut out: Vec<char> = Vec::new();
    let mut i: usize = 0;
    while i < v.len()
        invariant
            i <= v@.len(),
            out@ == ascii_lower_seq(v@.subrange(0, i as int)),
        decreases v@.len() - i,
    {
        out.push(to_ascii_lower(v[i]));
        assert(ascii_lower_seq(v@.subrange(0, i + 1)) == ascii_lower_seq(
            v@.subrange(0, i as int),
        ).push(ascii_lower(v@[i as int])));
        i = i + 1;
    }
    assert(v@.subrange(0, v@.len() as int) == v@);
    out
}

/// The value of the first attribute named `name` (lower case), ignoring
/// ASCII case of the written name.
pub fn find_attr(attrs: &[Attr], name: &str) -> (r: Option<Vec<char>>)
    ensures
        match r {
            Some(v) => attr_value(attrs_view(attrs@), name@) == Some(v@),
            None => attr_value(attrs_view(attrs@), name@) is None,
        },
{
    let mut i: usize = 0;
    assert(attrs_view(attrs@).subrange(0, attrs@.len() as int) == attrs_view(attrs@));
    while i < attrs.len()
        invariant
            i <= attrs@.len(),
            attr_value(attrs_view(attrs@), name@) == attr_value(
                attrs_view(attrs@).subrange(i as int, attrs@.len() as int),
                name@,
            ),
        decreases attrs@.len() - i,
    {
        let ghost rest = attrs_view(attrs@).subrange(i as int, attrs@.len() as int);
        assert(rest[0] == (attrs@[i as int].name@, attrs@[i as int].value@));
        let low = ascii_lowercase(&attrs[i].name);
        if crate::text::eq_lit(&low, name) {
            return Some(copy_range(&attrs[i].value, 0, attrs[i].value.len()));
        }
        assert(rest.drop_first() == attrs_view(attrs@).subrange(i + 1, attrs@.len() as int));
        i = i + 1;
    }
    None
}

/// Where a script's code comes from.
pub enum ScriptSource {
    /// Code written inside the element.
    Inline(String),
    /// The `src` attribute of the element.
    External(String),
}

/// The view of a script source: whether it is external, and its text or
/// `src` value.
pub open spec fn source_view(s: ScriptSource) -> (bool, Seq<char>) {
    match s {
        ScriptSource::Inline(t) => (false, t@),
        ScriptSource::External(u) => (true, u@),
    }
}

/// The source of one script element.
pub open spec fn script_source_of(e: ElemView) -> (bool, Seq<char>) {
    match attr_value(attrs_from(e.0, 0), "src"@) {
        Some(v) => (true, v),
        None => (false, e.1),
    }
}

/// The sources of the scripts of an HTML text, in document order.
pub open spec fn script_sources(h: Seq<char>) -> Seq<(bool, Seq<char>)> {
    elements_from(h, "script"@, Some("</script"@), 0).map_values(
        |e: ElemView| script_source_of(e),
    )
}

/// The sources of the scripts of `html`, in document order.
pub fn script_sources_of(html: &str) -> (r: Vec<ScriptSource>)
    ensures
        r@.map_values(|s: ScriptSource| source_view(s)) == script_sources(html@),
{
    let h = chars_of(html);
    let elems = scan_elements(&h, "script", Some("</script"));
    let ghost ev = elems_view(elems@);
    let mut out: Vec<ScriptSource> = Vec::new();
    let mut i: usize = 0;
    while i < elems.len()
        invariant
            i <= elems@.len(),
            ev == elems_view(elems@),
            ev == elements_from(h@, "script"@, Some("</script"@), 0),
            out@.map_values(|s: ScriptSource| source_view(s)) == ev.subrange(
                0,
                i as int,
            ).map_values(|e: ElemView| script_source_of(e)),
        decreases elems@.len() - i,
    {
        let attrs = parse_attrs(&elems[i].attrs);
        let src = find_attr(&attrs, "src");
        let item = match src {
            Some(v) => ScriptSource::External(string_from_chars(&v)),
            None => ScriptSource::Inline(string_from_chars(&elems[i].content)),
        };
        assert(ev[i as int] == (elems@[i as int].attrs@, elems@[i as int].content@));
        assert(source_view(item) == script_source_of(ev[i as int]));
        let ghost old_out = out@;
        out.push(item);
        assert(out@.map_values(|s: ScriptSource| source_view(s)) =~= old_out.map_values(
            |s: ScriptSource| source_view(s),
        ).push(source_view(item)));
        assert(ev.subrange(0, i + 1).map_values(|e: ElemView| script_source_of(e))
            =~= ev.subrange(0, i as int).map_values(|e: ElemView| script_source_of(e)).push(
            script_source_of(ev[i as int]),
        ));
        assert(ev.subrange(0, i + 1) == ev.subrange(0, i as int).push(ev[i as int]));
        assert(out@.map_values(|s: ScriptSource| source_view(s)) == ev.subrange(0, i + 1).map_values(
            |e: ElemView| script_source_of(e),
        ));
        i = i + 1;
    }
    assert(ev.subrange(0, elems@.len() as int) == ev);
    out
}

/// The code of the scripts, each followed by a newline: inline code as
/// written, external code as `loaded` gives it at the script's position;
/// external scripts without loaded code add nothing.
pub open spec fn assembled(srcs: Seq<(bool, Seq<char>)>, loaded: Seq<Option<Seq<char>>>) -> Seq<
    char,
>
    decreases srcs.len(),
{
    if srcs.len() == 0 {
        Seq::empty()
    } else {
        let k = srcs.len() - 1;
        let piece = if !srcs[k].0 {
            srcs[k].1.push('\n')
        } else if k < loaded.len() && loaded[k] is Some {
            loaded[k]->0.push('\n')
        } else {
            Seq::empty()
        };
        assembled(srcs.drop_last(), loaded) + piece
    }
}

/// The view of optional loaded texts.
pub open spec fn loaded_view(l: Seq<Option<String>>) -> Seq<Option<Seq<char>>> {
    l.map_values(
        |o: Option<String>|
            match o {
                Some(t) => Some(t@),
                None => None,
            },
    )
}

/// The JavaScript of an HTML page: the code of its scripts in document
/// order, each followed by a newline. `loaded[k]` is the code that the `k`-th
/// script's `src` was read as (`None` when it could not be read, or for
/// inline scripts).
pub fn extract_scripts_from_html(html: &str, loaded: &[Option<String>]) -> (r: String)
    ensures
        r@ == assembled(script_sources(html@), loaded_view(loaded@)),
{
    let srcs = script_sources_of(html);
    let ghost sv = srcs@.map_values(|s: ScriptSource| source_view(s));
    let ghost lv = loaded_view(loaded@);
    let mut out: Vec<char> = Vec::new();
    let mut k: usize = 0;
    while k < srcs.len()
        invariant
            k <= srcs@.len(),
            sv == srcs@.map_values(|s: ScriptSource| source_view(s)),
            lv == loaded_view(loaded@),
            out@ == assembled(sv.subrange(0, k as int), lv),
        decreases srcs@.len() - k,
    {
        let ghost before = out@;
        match &srcs[k] {
            ScriptSource::Inline(t) => {
                let cs = chars_of(t.as_str());
                let mut j: usize = 0;
                while j < cs.len()
                    invariant
                        j <= cs@.len(),
                        out@ == before + cs@.subrange(0, j as int),
                    decreases cs@.len() - j,
                {
                    out.push(cs[j]);
                    j = j + 1;
                }
                assert(cs@.subrange(0, cs@.len() as int) == cs@);
                out.push('\n');
            },
            ScriptSource::External(_) => {
                if k < loaded.len() {
                    match &loaded[k] {
                        Some(t) => {
                            let cs = chars_of(t.as_str());
                            let mut j: usize = 0;
                            while j < cs.len()
                                invariant
                                    j <= cs@.len(),
                                    out@ == before + cs@.subrange(0, j as int),
                                decreases cs@.len() - j,
                            {
                                out.push(cs[j]);
                                j = j + 1;
                            }
                            assert(cs@.subrange(0, cs@.len() as int) == cs@);
                            out.push('\n');
                        },
                        None => {},
                    }
                }
            },
        }
        assert(sv.subrange(0, k + 1).drop_last() == sv.subrange(0, k as int));
        k = k + 1;
    }
    assert(sv.subrange(0, srcs@.len() as int) == sv);
    string_from_chars(&out)
}

/// The `href` of a `<link>` element whose `rel` is `stylesheet` (ignoring
/// ASCII case).
pub open spec fn stylesheet_href(e: ElemView) -> Option<Seq<char>> {
    let a = attrs_from(e.0, 0);
    match (attr_value(a, "rel"@), attr_value(a, "href"@)) {
        (Some(rel), Some(href)) => if ascii_lower_seq(rel) == "stylesheet"@ {
            Some(href)
        } else {
            None
        },
        _ => None,
    }
}

/// The stylesheet `href`s among link elements, in order.
pub open spec fn stylesheet_hrefs(es: Seq<ElemView>) -> Seq<Seq<char>>
    decreases es.len(),
{
    if es.len() == 0 {
        Seq::empty()
    } else {
        let rest = stylesheet_hrefs(es.drop_last());
        match stylesheet_href(es.last()) {
            Some(h) => rest.push(h),
            None => rest,
        }
    }
}

/// The `href`s of the `<link rel="stylesheet">` elements of `html`, in
/// document order.
pub fn link_stylesheet_hrefs(html: &str) -> (r: Vec<String>)
    ensures
        r@.map_values(|s: String| s@) == stylesheet_hrefs(
            elements_from(html@, "link"@, None, 0),
        ),
{
    let h = chars_of(html);
    let elems = scan_elements(&h, "link", None);
    let ghost ev = elems_view(elems@);
    let mut out: Vec<String> = Vec::new();
    let mut i: usize = 0;
    while i < elems.len()
        invariant
            i <= elems@.len(),
            ev == elems_view(elems@),
            ev == elements_from(h@, "link"@, None, 0),
            out@.map_values(|s: String| s@) == stylesheet_hrefs(ev.subrange(0, i as int)),
        decreases elems@.len() - i,
    {
        let attrs = parse_attrs(&elems[i].attrs);
        let rel = find_attr(&attrs, "rel");
        let href = find_attr(&attrs, "href");
        assert(ev[i as int] == (elems@[i as int].attrs@, elems@[i as int].content@));
        assert(ev.subrange(0, i + 1).drop_last() == ev.subrange(0, i as int));
        let ghost old_out = out@;
        match (rel, href) {
            (Some(r), Some(hv)) => {
                let low = ascii_lowercase(&r);
                if crate::text::eq_lit(&low, "stylesheet") {
                    let hs = string_from_chars(&hv);
                    out.push(hs);
                    assert(out@.map_values(|s: String| s@) =~= old_out.map_values(
                        |s: String| s@,
                    ).push(hv@));
                }
            },
            _ => {},
        }
        i = i + 1;
    }
    assert(ev.subrange(0, elems@.len() as int) == ev);
    out
}

} // verus!
