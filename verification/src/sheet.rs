//! The stylesheet grammar. Comments, strings, escapes, `url(..)` tokens and
//! nested blocks are skipped as the CSS syntax defines them; what is left is
//! a list of style rules, `@media` blocks and other at-rules, and inside a
//! style rule's block a list of `name: value` declarations.
use vstd::prelude::*;
use crate::css::CssRule;
use crate::css::Declaration;
use crate::css::declaration_of;
use crate::css::declaration_from;
use crate::css::decls_view;
use crate::css::rules_view;
use crate::css::rules_of;
use crate::css::rules_from_prelude;
use crate::html::ascii_lower;
use crate::html::ascii_lower_seq;
use crate::html::ascii_lowercase;
use crate::selector::SelectorV;
use crate::media::media_query_holds;
use crate::media::evaluate_media_query;
use crate::text::trim;
use crate::text::chars_of;
use crate::text::copy_range;
use crate::text::trim_chars;
use crate::text::string_from_chars;

verus! {

broadcast use vstd::string::group_string_axioms;

/// Where the scanner stands: in plain code, after a backslash in code, in a
/// string quoted by the given character (or after a backslash in one), on the
/// `*` that opens a comment, inside a comment, on the `/` that closes one,
/// or inside an unquoted `url(..)` (or after a backslash in one).
#[derive(Clone, Copy, PartialEq, Eq, Structural)]
pub enum Lex {
    Code,
    Escape,
    Str(char),
    StrEscape(char),
    CommentOpen,
    Comment,
    CommentClose,
    Url,
    UrlEscape,
}

/// A CSS newline character.
pub open spec fn is_newline(c: char) -> bool {
    c == '\n' || c == '\r' || c == '\x0C'
}

/// A CSS whitespace character.
pub open spec fn is_css_ws(c: char) -> bool {
    c == ' ' || c == '\t' || is_newline(c)
}

/// `t[i + 1]` exists and is `c`.
pub open spec fn next_is(t: Seq<char>, i: int, c: char) -> bool {
    0 <= i + 1 < t.len() && t[i + 1] == c
}

/// A character that may start a name.
pub open spec fn is_name_start(c: char) -> bool {
    ('a' <= c && c <= 'z') || ('A' <= c && c <= 'Z') || c == '_' || (c as u32) >= 128
}

/// A character that may continue a name.
pub open spec fn is_name_char(c: char) -> bool {
    is_name_start(c) || ('0' <= c && c <= '9') || c == '-'
}

/// A backslash at `i` that escapes the character after it.
pub open spec fn escape_at(t: Seq<char>, i: int) -> bool {
    0 <= i && i + 1 < t.len() && t[i] == '\\' && !is_newline(t[i + 1])
}

/// An identifier starts at `i`.
pub open spec fn ident_start(t: Seq<char>, i: int) -> bool {
    0 <= i < t.len() && (is_name_start(t[i]) || escape_at(t, i) || (t[i] == '-' && i + 1 < t.len()
        && (is_name_start(t[i + 1]) || t[i + 1] == '-' || escape_at(t, i + 1))))
}

/// The end of the name that runs from `i`.
pub open spec fn name_end(t: Seq<char>, i: int) -> int
    decreases t.len() - i,
{
    if i < 0 || i >= t.len() {
        t.len() as int
    } else if escape_at(t, i) {
        name_end(t, i + 2)
    } else if is_name_char(t[i]) {
        name_end(t, i + 1)
    } else {
        i
    }
}

/// The first position from `j` on that is not CSS whitespace (`t.len()` if
/// none is).
pub open spec fn skip_css_ws(t: Seq<char>, j: int) -> int
    decreases t.len() - j,
{
    if j < 0 || j >= t.len() {
        t.len() as int
    } else if is_css_ws(t[j]) {
        skip_css_ws(t, j + 1)
    } else {
        j
    }
}

/// The `(` at `i` opens an unquoted `url(..)` token: it follows the name
/// `url` (in any case) and the next character after whitespace is no quote.
pub open spec fn url_open_at(t: Seq<char>, i: int) -> bool {
    &&& 3 <= i < t.len()
    &&& t[i] == '('
    &&& ascii_lower(t[i - 3]) == 'u' && ascii_lower(t[i - 2]) == 'r' && ascii_lower(t[i - 1]) == 'l'
    &&& (i == 3 || !(is_name_char(t[i - 4]) || t[i - 4] == '\\' || t[i - 4] == '@' || t[i - 4]
        == '#'))
    &&& ({
        let k = skip_css_ws(t, i + 1);
        !(k < t.len() && (t[k] == '"' || t[k] == '\''))
    })
}

/// The scanner's state after reading `t[i]` in mode `m` with the stack of
/// expected closing brackets `stack`.
pub open spec fn lex_step(m: Lex, stack: Seq<char>, t: Seq<char>, i: int) -> (Lex, Seq<char>) {
    let c = t[i];
    match m {
        Lex::Code => if escape_at(t, i) {
            (Lex::Escape, stack)
        } else if c == '"' || c == '\'' {
            (Lex::Str(c), stack)
        } else if c == '/' && next_is(t, i, '*') {
            (Lex::CommentOpen, stack)
        } else if url_open_at(t, i) {
            (Lex::Url, stack)
        } else if c == '{' {
            (Lex::Code, stack.push('}'))
        } else if c == '(' {
            (Lex::Code, stack.push(')'))
        } else if c == '[' {
            (Lex::Code, stack.push(']'))
        } else if stack.len() > 0 && c == stack.last() {
            (Lex::Code, stack.drop_last())
        } else {
            (Lex::Code, stack)
        },
        Lex::Escape => (Lex::Code, stack),
        Lex::Str(q) => if c == q || is_newline(c) {
            (Lex::Code, stack)
        } else if c == '\\' {
            (Lex::StrEscape(q), stack)
        } else {
            (m, stack)
        },
        Lex::StrEscape(q) => (Lex::Str(q), stack),
        Lex::CommentOpen => (Lex::Comment, stack),
        Lex::Comment => if c == '*' && next_is(t, i, '/') {
            (Lex::CommentClose, stack)
        } else {
            (Lex::Comment, stack)
        },
        Lex::CommentClose => (Lex::Code, stack),
        Lex::Url => if c == ')' {
            (Lex::Code, stack)
        } else if c == '\\' {
            (Lex::UrlEscape, stack)
        } else {
            (Lex::Url, stack)
        },
        Lex::UrlEscape => (Lex::Url, stack),
    }
}

/// `c` is one of the stop characters chosen by the flags.
pub open spec fn is_stop(c: char, semi: bool, open: bool, close: bool) -> bool {
    (semi && c == ';') || (open && c == '{') || (close && c == '}')
}

/// Scanning on from `i` in mode `m` with open brackets `stack`: the first
/// position where a stop character stands in plain code outside every
/// block, or `t.len()` when there is none.
pub open spec fn scan_from(
    t: Seq<char>,
    i: int,
    m: Lex,
    stack: Seq<char>,
    semi: bool,
    open: bool,
    close: bool,
) -> int
    decreases t.len() - i,
{
    if i < 0 || i >= t.len() {
        t.len() as int
    } else if m == Lex::Code && stack.len() == 0 && is_stop(t[i], semi, open, close) {
        i
    } else {
        let (m2, s2) = lex_step(m, stack, t, i);
        scan_from(t, i + 1, m2, s2, semi, open, close)
    }
}

/// The first stop character at the outer level from `i` on (see
/// `scan_from`), the scan starting in plain code.
pub open spec fn scan_to(t: Seq<char>, i: int, semi: bool, open: bool, close: bool) -> int {
    scan_from(t, i, Lex::Code, Seq::empty(), semi, open, close)
}

/// Scanning never goes back and never passes the end.
pub proof fn lemma_scan_bounds(
    t: Seq<char>,
    i: int,
    m: Lex,
    stack: Seq<char>,
    semi: bool,
    open: bool,
    close: bool,
)
    requires
        0 <= i <= t.len(),
    ensures
        i <= scan_from(t, i, m, stack, semi, open, close) <= t.len(),
        scan_from(t, i, m, stack, semi, open, close) < t.len() ==> is_stop(
            t[scan_from(t, i, m, stack, semi, open, close)],
            semi,
            open,
            close,
        ),
    decreases t.len() - i,
{
    if i < t.len() {
        if !(m == Lex::Code && stack.len() == 0 && is_stop(t[i], semi, open, close)) {
            let (m2, s2) = lex_step(m, stack, t, i);
            lemma_scan_bounds(t, i + 1, m2, s2, semi, open, close);
        }
    }
}

/// Skipping from `i` (inside a comment when `in_comment`): CSS whitespace,
/// comments, `;` when `semis`, and the `<!--` and `-->` markers when `top`.
/// The first position that is none of these, or `t.len()`.
pub open spec fn skip_from(t: Seq<char>, i: int, in_comment: bool, semis: bool, top: bool) -> int
    decreases t.len() - i,
{
    if i < 0 || i >= t.len() {
        t.len() as int
    } else if in_comment {
        if t[i] == '*' && next_is(t, i, '/') {
            skip_from(t, i + 2, false, semis, top)
        } else {
            skip_from(t, i + 1, true, semis, top)
        }
    } else if is_css_ws(t[i]) || (semis && t[i] == ';') {
        skip_from(t, i + 1, false, semis, top)
    } else if t[i] == '/' && next_is(t, i, '*') {
        skip_from(t, i + 2, true, semis, top)
    } else if top && i + 4 <= t.len() && t.subrange(i, i + 4) == "<!--"@ {
        skip_from(t, i + 4, false, semis, top)
    } else if top && i + 3 <= t.len() && t.subrange(i, i + 3) == "-->"@ {
        skip_from(t, i + 3, false, semis, top)
    } else {
        i
    }
}

/// Skipping never goes back and never passes the end.
pub proof fn lemma_skip_bounds(t: Seq<char>, i: int, in_comment: bool, semis: bool, top: bool)
    requires
        0 <= i <= t.len(),
    ensures
        i <= skip_from(t, i, in_comment, semis, top) <= t.len(),
    decreases t.len() - i,
{
    if i < t.len() {
        if in_comment {
            if t[i] == '*' && next_is(t, i, '/') {
                lemma_skip_bounds(t, i + 2, false, semis, top);
            } else {
                lemma_skip_bounds(t, i + 1, true, semis, top);
            }
        } else if is_css_ws(t[i]) || (semis && t[i] == ';') {
            lemma_skip_bounds(t, i + 1, false, semis, top);
        } else if t[i] == '/' && next_is(t, i, '*') {
            lemma_skip_bounds(t, i + 2, true, semis, top);
        } else if top && i + 4 <= t.len() && t.subrange(i, i + 4) == "<!--"@ {
            lemma_skip_bounds(t, i + 4, false, semis, top);
        } else if top && i + 3 <= t.len() && t.subrange(i, i + 3) == "-->"@ {
            lemma_skip_bounds(t, i + 3, false, semis, top);
        }
    }
}

/// Names never end before they start or after the text.
pub proof fn lemma_name_bounds(t: Seq<char>, i: int)
    requires
        0 <= i <= t.len(),
    ensures
        i <= name_end(t, i) <= t.len(),
    decreases t.len() - i,
{
    if i < t.len() {
        if escape_at(t, i) {
            lemma_name_bounds(t, i + 2);
        } else if is_name_char(t[i]) {
            lemma_name_bounds(t, i + 1);
        }
    }
}

// ---------------------------------------------------------------------------
// Executable scanning
// ---------------------------------------------------------------------------
fn is_newline_char(c: char) -> (b: bool)
    ensures
        b == is_newline(c),
{
    c == '\n' || c == '\r' || c == '\x0C'
}

fn is_css_ws_char(c: char) -> (b: bool)
    ensures
        b == is_css_ws(c),
{
    c == ' ' || c == '\t' || is_newline_char(c)
}

fn is_name_start_char(c: char) -> (b: bool)
    ensures
        b == is_name_start(c),
{
    ('a' <= c && c <= 'z') || ('A' <= c && c <= 'Z') || c == '_' || (c as u32) >= 128
}

fn is_name_char_exec(c: char) -> (b: bool)
    ensures
        b == is_name_char(c),
{
    is_name_start_char(c) || ('0' <= c && c <= '9') || c == '-'
}

fn escape_at_exec(t: &[char], i: usize) -> (b: bool)
    ensures
        b == escape_at(t@, i as int),
{
    i < t.len() && i + 1 < t.len() && t[i] == '\\' && !is_newline_char(t[i + 1])
}

fn ident_start_exec(t: &[char], i: usize) -> (b: bool)
    ensures
        b == ident_start(t@, i as int),
{
    if i >= t.len() {
        return false;
    }
    if is_name_start_char(t[i]) || escape_at_exec(t, i) {
        return true;
    }
    t[i] == '-' && i + 1 < t.len() && (is_name_start_char(t[i + 1]) || t[i + 1] == '-'
        || escape_at_exec(t, i + 1))
}

fn name_end_exec(t: &[char], i: usize) -> (r: usize)
    requires
        i <= t.len(),
    ensures
        r == name_end(t@, i as int),
{
    let mut j = i;
    while j < t.len()
        invariant
            i <= j <= t.len(),
            name_end(t@, j as int) == name_end(t@, i as int),
        decreases t.len() - j,
    {
        if escape_at_exec(t, j) {
            j = j + 2;
        } else if is_name_char_exec(t[j]) {
            j = j + 1;
        } else {
            return j;
        }
    }
    j
}

fn skip_css_ws_exec(t: &[char], i: usize) -> (r: usize)
    requires
        i <= t.len(),
    ensures
        r == skip_css_ws(t@, i as int),
{
    let mut j = i;
    while j < t.len()
        invariant
            i <= j <= t.len(),
            skip_css_ws(t@, j as int) == skip_css_ws(t@, i as int),
        decreases t.len() - j,
    {
        if !is_css_ws_char(t[j]) {
            return j;
        }
        j = j + 1;
    }
    j
}

fn lower_char(c: char) -> (r: char)
    ensures
        r == ascii_lower(c),
{
    if 'A' <= c && c <= 'Z' {
        ((c as u8) + 32) as char
    } else {
        c
    }
}

fn url_open_exec(t: &[char], i: usize) -> (b: bool)
    ensures
        b == url_open_at(t@, i as int),
{
    if i < 3 || i >= t.len() || t[i] != '(' {
        return false;
    }
    if !(lower_char(t[i - 3]) == 'u' && lower_char(t[i - 2]) == 'r' && lower_char(t[i - 1]) == 'l') {
        return false;
    }
    if i > 3 {
        let p = t[i - 4];
        if is_name_char_exec(p) || p == '\\' || p == '@' || p == '#' {
            return false;
        }
    }
    let k = skip_css_ws_exec(t, i + 1);
    !(k < t.len() && (t[k] == '"' || t[k] == '\''))
}

/// One step of the scanner (see `lex_step`).
fn lex_step_exec(m: Lex, stack: &mut Vec<char>, t: &[char], i: usize) -> (r: Lex)
    requires
        i < t.len(),
    ensures
        (r, final(stack)@) == lex_step(m, old(stack)@, t@, i as int),
{
    let c = t[i];
    match m {
        Lex::Code => {
            if escape_at_exec(t, i) {
                Lex::Escape
            } else if c == '"' || c == '\'' {
                Lex::Str(c)
            } else if c == '/' && i + 1 < t.len() && t[i + 1] == '*' {
                Lex::CommentOpen
            } else if url_open_exec(t, i) {
                Lex::Url
            } else if c == '{' {
                stack.push('}');
                Lex::Code
            } else if c == '(' {
                stack.push(')');
                Lex::Code
            } else if c == '[' {
                stack.push(']');
                Lex::Code
            } else if stack.len() > 0 && c == stack[stack.len() - 1] {
                stack.pop();
                Lex::Code
            } else {
                Lex::Code
            }
        },
        Lex::Escape => Lex::Code,
        Lex::Str(q) => {
            if c == q || is_newline_char(c) {
                Lex::Code
            } else if c == '\\' {
                Lex::StrEscape(q)
            } else {
                m
            }
        },
        Lex::StrEscape(q) => Lex::Str(q),
        Lex::CommentOpen => Lex::Comment,
        Lex::Comment => {
            if c == '*' && i + 1 < t.len() && t[i + 1] == '/' {
                Lex::CommentClose
            } else {
                Lex::Comment
            }
        },
        Lex::CommentClose => Lex::Code,
        Lex::Url => {
            if c == ')' {
                Lex::Code
            } else if c == '\\' {
                Lex::UrlEscape
            } else {
                Lex::Url
            }
        },
        Lex::UrlEscape => Lex::Url,
    }
}

/// The first stop character at the outer level from `i` on (see `scan_to`).
fn scan_to_exec(t: &[char], i: usize, semi: bool, open: bool, close: bool) -> (r: usize)
    requires
        i <= t.len(),
    ensures
        r == scan_to(t@, i as int, semi, open, close),
{
    let mut m = Lex::Code;
    let mut stack: Vec<char> = Vec::new();
    let mut j = i;
    while j < t.len()
        invariant
            i <= j <= t.len(),
            scan_from(t@, j as int, m, stack@, semi, open, close) == scan_to(
                t@,
                i as int,
                semi,
                open,
                close,
            ),
        decreases t.len() - j,
    {
        let c = t[j];
        if matches!(m, Lex::Code) && stack.len() == 0 && ((semi && c == ';') || (open && c == '{')
            || (close && c == '}')) {
            return j;
        }
        m = lex_step_exec(m, &mut stack, t, j);
        j = j + 1;
    }
    j
}

/// Skips whitespace and comments, and `;` and the HTML comment markers
/// where asked (see `skip_from`).
fn skip_exec(t: &[char], i: usize, semis: bool, top: bool) -> (r: usize)
    requires
        i <= t.len(),
    ensures
        r == skip_from(t@, i as int, false, semis, top),
{
    let mut j = i;
    let mut in_comment = false;
    while j < t.len()
        invariant
            j <= t.len(),
            skip_from(t@, j as int, in_comment, semis, top) == skip_from(
                t@,
                i as int,
                false,
                semis,
                top,
            ),
        decreases t.len() - j,
    {
        let c = t[j];
        if in_comment {
            if c == '*' && j + 1 < t.len() && t[j + 1] == '/' {
                j = j + 2;
                in_comment = false;
            } else {
                j = j + 1;
            }
        } else if is_css_ws_char(c) || (semis && c == ';') {
            j = j + 1;
        } else if c == '/' && j + 1 < t.len() && t[j + 1] == '*' {
            j = j + 2;
            in_comment = true;
        } else if top && t.len() - j >= 4 && c == '<' && t[j + 1] == '!' && t[j + 2] == '-' && t[j
            + 3] == '-' {
            proof {
                reveal_strlit("<!--");
            }
            assert(t@.subrange(j as int, j + 4) =~= "<!--"@);
            j = j + 4;
        } else if top && t.len() - j >= 3 && c == '-' && t[j + 1] == '-' && t[j + 2] == '>' {
            proof {
                reveal_strlit("<!--");
                reveal_strlit("-->");
                if j + 4 <= t.len() {
                    assert(t@.subrange(j as int, j + 4)[0] == '-');
                }
            }
            assert(t@.subrange(j as int, j + 3) =~= "-->"@);
            j = j + 3;
        } else {
            proof {
                reveal_strlit("<!--");
                reveal_strlit("-->");
                if top && j + 4 <= t.len() {
                    if t@.subrange(j as int, j + 4) == "<!--"@ {
                        assert(t@.subrange(j as int, j + 4)[0] == '<');
                        assert(t@.subrange(j as int, j + 4)[1] == '!');
                        assert(t@.subrange(j as int, j + 4)[2] == '-');
                        assert(t@.subrange(j as int, j + 4)[3] == '-');
                    }
                }
                if top && j + 3 <= t.len() {
                    if t@.subrange(j as int, j + 3) == "-->"@ {
                        assert(t@.subrange(j as int, j + 3)[0] == '-');
                        assert(t@.subrange(j as int, j + 3)[1] == '-');
                        assert(t@.subrange(j as int, j + 3)[2] == '>');
                    }
                }
            }
            return j;
        }
    }
    j
}


// ---------------------------------------------------------------------------
// Declaration lists and stylesheets
// ---------------------------------------------------------------------------
/// The model of a declaration: property and value.
pub type DeclV = (Seq<char>, Seq<char>);

/// The model of a rule: selector, declarations, specificity.
pub type RuleV = (SelectorV, Seq<DeclV>, u32);

/// The declarations of a block's content `b` from position `i` on. Each
/// item starts after whitespace, comments and `;`. An identifier followed
/// (after whitespace and comments) by `:` makes a declaration whose value
/// runs to the next `;` at the outer level; an at-rule runs to the next `;`
/// or through its block; anything else, and a name without `:`, is skipped
/// to the next `;`.
pub open spec fn decl_items(b: Seq<char>, i: int) -> Seq<DeclV>
    decreases b.len() + 1 - i,
{
    if i < 0 || i >= b.len() {
        Seq::empty()
    } else {
        let j = skip_from(b, i, false, true, false);
        proof {
            lemma_skip_bounds(b, i, false, true, false);
        }
        if j >= b.len() {
            Seq::empty()
        } else if ident_start(b, j) {
            let ne = name_end(b, j);
            proof {
                lemma_name_bounds(b, j);
                lemma_scan_bounds(b, ne, Lex::Code, Seq::empty(), true, false, false);
            }
            let c = skip_from(b, ne, false, false, false);
            let k = scan_to(b, ne, true, false, false);
            if c < k && b[c] == ':' {
                seq![declaration_of(b.subrange(j, ne), b.subrange(c + 1, k))] + decl_items(b, k + 1)
            } else {
                decl_items(b, k + 1)
            }
        } else if b[j] == '@' && ident_start(b, j + 1) {
            let ne = name_end(b, j + 1);
            proof {
                lemma_name_bounds(b, j + 1);
                lemma_scan_bounds(b, ne, Lex::Code, Seq::empty(), true, true, false);
            }
            let k = scan_to(b, ne, true, true, false);
            if k < b.len() && b[k] == '{' {
                proof {
                    lemma_scan_bounds(b, k + 1, Lex::Code, Seq::empty(), false, false, true);
                }
                decl_items(b, scan_to(b, k + 1, false, false, true) + 1)
            } else {
                decl_items(b, k + 1)
            }
        } else {
            proof {
                lemma_scan_bounds(b, j, Lex::Code, Seq::empty(), true, false, false);
            }
            decl_items(b, scan_to(b, j, true, false, false) + 1)
        }
    }
}

/// A style rule's prelude at `j` begins with a custom property name and a
/// colon (`--name:`): such a rule is skipped with its block.
pub open spec fn custom_property_start(t: Seq<char>, j: int) -> bool {
    &&& 0 <= j && j + 1 < t.len()
    &&& t[j] == '-' && t[j + 1] == '-'
    &&& ({
        let c = skip_from(t, name_end(t, j), false, false, false);
        c < t.len() && t[c] == ':'
    })
}

/// The rules of the stylesheet text `t` from position `i` on. Each item
/// starts after whitespace, comments and the `<!--` and `-->` markers. An
/// at-rule runs to the next `;` or through its block; the block of an
/// `@media` rule whose condition holds is read as a stylesheet of its own,
/// other at-rules give nothing. A style rule's prelude runs to the next `{`
/// at the outer level, its block to the matching `}`; the prelude is a
/// comma-separated selector list and the block a declaration list (see
/// `rules_of` and `decl_items`). A prelude that the text ends in gives
/// nothing.
pub open spec fn sheet_items(t: Seq<char>, i: int) -> Seq<RuleV>
    decreases t.len(), t.len() + 1 - i,
{
    if i < 0 || i >= t.len() {
        Seq::empty()
    } else {
        let j = skip_from(t, i, false, false, true);
        proof {
            lemma_skip_bounds(t, i, false, false, true);
        }
        if j >= t.len() {
            Seq::empty()
        } else if t[j] == '@' && ident_start(t, j + 1) {
            let ne = name_end(t, j + 1);
            proof {
                lemma_name_bounds(t, j + 1);
                lemma_scan_bounds(t, ne, Lex::Code, Seq::empty(), true, true, false);
            }
            let k = scan_to(t, ne, true, true, false);
            if k >= t.len() {
                Seq::empty()
            } else if t[k] == ';' {
                sheet_items(t, k + 1)
            } else {
                let e = scan_to(t, k + 1, false, false, true);
                proof {
                    lemma_scan_bounds(t, k + 1, Lex::Code, Seq::empty(), false, false, true);
                }
                let inner = if ascii_lower_seq(t.subrange(j + 1, ne)) == "media"@
                    && media_query_holds(trim(t.subrange(ne, k))) {
                    sheet_items(t.subrange(k + 1, e), 0)
                } else {
                    Seq::empty()
                };
                inner + sheet_items(t, e + 1)
            }
        } else {
            let k = scan_to(t, j, false, true, false);
            proof {
                lemma_scan_bounds(t, j, Lex::Code, Seq::empty(), false, true, false);
            }
            if k >= t.len() {
                Seq::empty()
            } else {
                let e = scan_to(t, k + 1, false, false, true);
                proof {
                    lemma_scan_bounds(t, k + 1, Lex::Code, Seq::empty(), false, false, true);
                }
                if custom_property_start(t, j) {
                    sheet_items(t, e + 1)
                } else {
                    rules_of(trim(t.subrange(j, k)), decl_items(t.subrange(k + 1, e), 0))
                        + sheet_items(t, e + 1)
                }
            }
        }
    }
}

/// The rules of a stylesheet (see `sheet_items`).
pub open spec fn stylesheet_rules(css: Seq<char>) -> Seq<RuleV> {
    sheet_items(css, 0)
}

fn custom_property_exec(t: &[char], j: usize) -> (b: bool)
    requires
        j <= t.len(),
    ensures
        b == custom_property_start(t@, j as int),
{
    if !(j < t.len() && t.len() - j > 1 && t[j] == '-' && t[j + 1] == '-') {
        return false;
    }
    proof {
        lemma_name_bounds(t@, j as int);
    }
    let c = skip_exec(t, name_end_exec(t, j), false, false);
    c < t.len() && t[c] == ':'
}

/// The declarations of a block's content (see `decl_items`).
fn decl_list(b: &[char]) -> (r: Vec<Declaration>)
    ensures
        decls_view(r@) == decl_items(b@, 0),
{
    let mut out: Vec<Declaration> = Vec::new();
    let mut i: usize = 0;
    let n = b.len();
    while i < n
        invariant
            n == b@.len(),
            i <= n,
            decls_view(out@) + decl_items(b@, i as int) == decl_items(b@, 0),
        decreases n - i,
    {
        let ghost i0 = i as int;
        let j = skip_exec(b, i, true, false);
        proof {
            lemma_skip_bounds(b@, i as int, false, true, false);
        }
        if j >= n {
            assert(decls_view(out@) + Seq::<DeclV>::empty() =~= decls_view(out@));
            i = n;
        } else if ident_start_exec(b, j) {
            let ne = name_end_exec(b, j);
            proof {
                lemma_name_bounds(b@, j as int);
                lemma_scan_bounds(b@, ne as int, Lex::Code, Seq::empty(), true, false, false);
            }
            let c = skip_exec(b, ne, false, false);
            let k = scan_to_exec(b, ne, true, false, false);
            assert(decl_items(b@, i0) == if c < k && b@[c as int] == ':' {
                seq![declaration_of(b@.subrange(j as int, ne as int), b@.subrange(c + 1, k as int))] + decl_items(b@, k + 1)
            } else {
                decl_items(b@, k + 1)
            });
            if c < k && b[c] == ':' {
                let name = string_from_chars(&copy_range(b, j, ne));
                let raw = string_from_chars(&copy_range(b, c + 1, k));
                let d = declaration_from(name.as_str(), raw.as_str());
                let ghost before = decls_view(out@);
                out.push(d);
                assert(decls_view(out@) =~= before.push(declaration_of(
                    b@.subrange(j as int, ne as int),
                    b@.subrange(c + 1, k as int),
                )));
                assert(before.push(declaration_of(
                    b@.subrange(j as int, ne as int),
                    b@.subrange(c + 1, k as int),
                )) + decl_items(b@, k + 1) =~= before + (seq![
                    declaration_of(b@.subrange(j as int, ne as int), b@.subrange(c + 1, k as int)),
                ] + decl_items(b@, k + 1)));
            }
            i = if k < n {
                k + 1
            } else {
                n
            };
        } else if b[j] == '@' && ident_start_exec(b, j + 1) {
            let ne = name_end_exec(b, j + 1);
            proof {
                lemma_name_bounds(b@, j + 1);
                lemma_scan_bounds(b@, ne as int, Lex::Code, Seq::empty(), true, true, false);
            }
            let k = scan_to_exec(b, ne, true, true, false);
            let next = if k < n && b[k] == '{' {
                proof {
                    lemma_scan_bounds(b@, k + 1, Lex::Code, Seq::empty(), false, false, true);
                }
                scan_to_exec(b, k + 1, false, false, true)
            } else {
                k
            };
            assert(decl_items(b@, i0) == decl_items(b@, next + 1));
            i = if next < n {
                next + 1
            } else {
                n
            };
            assert(decl_items(b@, next + 1) == decl_items(b@, i as int));
        } else {
            proof {
                lemma_scan_bounds(b@, j as int, Lex::Code, Seq::empty(), true, false, false);
            }
            let k = scan_to_exec(b, j, true, false, false);
            assert(decl_items(b@, i0) == decl_items(b@, k + 1));
            i = if k < n {
                k + 1
            } else {
                n
            };
            assert(decl_items(b@, k + 1) == decl_items(b@, i as int));
        }
    }
    assert(decls_view(out@) + Seq::<DeclV>::empty() =~= decls_view(out@));
    out
}

proof fn lemma_rules_view_append(a: Seq<CssRule>, b: Seq<CssRule>)
    ensures
        rules_view(a + b) == rules_view(a) + rules_view(b),
{
    assert(rules_view(a + b) =~= rules_view(a) + rules_view(b));
}

/// The rules of a stylesheet's characters (see `sheet_items`).
fn sheet_rules(t: &[char]) -> (r: Vec<CssRule>)
    ensures
        rules_view(r@) == sheet_items(t@, 0),
    decreases t@.len(),
{
    let mut out: Vec<CssRule> = Vec::new();
    let mut i: usize = 0;
    let n = t.len();
    while i < n
        invariant
            n == t@.len(),
            i <= n,
            rules_view(out@) + sheet_items(t@, i as int) == sheet_items(t@, 0),
        decreases n - i,
    {
        let ghost i0 = i as int;
        let j = skip_exec(t, i, false, true);
        proof {
            lemma_skip_bounds(t@, i as int, false, false, true);
        }
        if j >= n {
            assert(rules_view(out@) + Seq::<RuleV>::empty() =~= rules_view(out@));
            i = n;
        } else if t[j] == '@' && ident_start_exec(t, j + 1) {
            let ne = name_end_exec(t, j + 1);
            proof {
                lemma_name_bounds(t@, j + 1);
                lemma_scan_bounds(t@, ne as int, Lex::Code, Seq::empty(), true, true, false);
            }
            let k = scan_to_exec(t, ne, true, true, false);
            if k >= n {
                assert(rules_view(out@) + Seq::<RuleV>::empty() =~= rules_view(out@));
                i = n;
            } else if t[k] == ';' {
                assert(sheet_items(t@, i0) == sheet_items(t@, k + 1));
                i = k + 1;
            } else {
                proof {
                    lemma_scan_bounds(t@, k + 1, Lex::Code, Seq::empty(), false, false, true);
                }
                let e = scan_to_exec(t, k + 1, false, false, true);
                let name = ascii_lowercase(&copy_range(t, j + 1, ne));
                let cond = string_from_chars(&trim_chars(&copy_range(t, ne, k)));
                proof {
                    reveal_strlit("media");
                }
                let ghost before = out@;
                let ghost inner_v = if ascii_lower_seq(t@.subrange(j + 1, ne as int)) == "media"@
                    && media_query_holds(trim(t@.subrange(ne as int, k as int))) {
                    sheet_items(t@.subrange(k + 1, e as int), 0)
                } else {
                    Seq::empty()
                };
                assert(sheet_items(t@, i0) == inner_v + sheet_items(t@, e + 1));
                if crate::text::eq_lit(&name, "media") && evaluate_media_query(cond.as_str()) {
                    let mut inner = sheet_rules(&copy_range(t, k + 1, e));
                    let ghost added = inner@;
                    out.append(&mut inner);
                    proof {
                        lemma_rules_view_append(before, added);
                    }
                } else {
                    assert(before + Seq::<CssRule>::empty() =~= before);
                }
                assert(rules_view(out@) == rules_view(before) + inner_v);
                i = if e < n {
                    e + 1
                } else {
                    n
                };
                assert(sheet_items(t@, e + 1) == sheet_items(t@, i as int));
                assert(rules_view(before) + (inner_v + sheet_items(t@, e + 1)) =~= rules_view(out@)
                    + sheet_items(t@, i as int));
            }
        } else {
            proof {
                lemma_scan_bounds(t@, j as int, Lex::Code, Seq::empty(), false, true, false);
            }
            let k = scan_to_exec(t, j, false, true, false);
            if k >= n {
                assert(rules_view(out@) + Seq::<RuleV>::empty() =~= rules_view(out@));
                i = n;
            } else {
                proof {
                    lemma_scan_bounds(t@, k + 1, Lex::Code, Seq::empty(), false, false, true);
                }
                let e = scan_to_exec(t, k + 1, false, false, true);
                let ghost before = out@;
                let ghost added_v = if custom_property_start(t@, j as int) {
                    Seq::empty()
                } else {
                    rules_of(
                        trim(t@.subrange(j as int, k as int)),
                        decl_items(t@.subrange(k + 1, e as int), 0),
                    )
                };
                assert(sheet_items(t@, i0) == added_v + sheet_items(t@, e + 1));
                if !custom_property_exec(t, j) {
                    let prelude = string_from_chars(&trim_chars(&copy_range(t, j, k)));
                    let decls = decl_list(&copy_range(t, k + 1, e));
                    let mut rules = rules_from_prelude(prelude.as_str(), &decls);
                    let ghost added = rules@;
                    out.append(&mut rules);
                    proof {
                        lemma_rules_view_append(before, added);
                    }
                } else {
                    assert(rules_view(before) + Seq::<RuleV>::empty() =~= rules_view(before));
                }
                assert(rules_view(out@) == rules_view(before) + added_v);
                i = if e < n {
                    e + 1
                } else {
                    n
                };
                assert(sheet_items(t@, e + 1) == sheet_items(t@, i as int));
                assert(rules_view(before) + (added_v + sheet_items(t@, e + 1)) =~= rules_view(out@)
                    + sheet_items(t@, i as int));
            }
        }
    }
    assert(rules_view(out@) + Seq::<RuleV>::empty() =~= rules_view(out@));
    out
}


/// Parses a stylesheet into its rules, in the order of the text (see
/// `stylesheet_rules`).
pub fn parse_css_rules(css: &str) -> (r: Vec<CssRule>)
    ensures
        rules_view(r@) == stylesheet_rules(css@),
{
    sheet_rules(&chars_of(css))
}

/// Parses the content of a declaration block, such as a `style` attribute
/// (see `decl_items`).
pub fn parse_declarations(body: &str) -> (r: Vec<Declaration>)
    ensures
        decls_view(r@) == decl_items(body@, 0),
{
    decl_list(&chars_of(body))
}

} // verus!
