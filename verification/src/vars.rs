//! `var(--name)` and `var(--name, fallback)` references in CSS values,
//! resolved against the custom properties in scope.
use vstd::prelude::*;
use vstd::utf8::encode_utf8;
use vstd::utf8::encode_scalar;
use crate::kv::TextMap;
use crate::text::trim;
use crate::text::occurs_at;
use crate::text::contains_seq;
use crate::text::find_first;
use crate::text::chars_of;
use crate::text::copy_range;
use crate::text::trim_chars;
use crate::text::string_from_chars;
use crate::text::find_lit;
use crate::text::contains_lit;
use crate::text::occurs_lit_at;
use crate::text::lemma_find_first_occurs;

verus! {

broadcast use vstd::string::group_string_axioms;

/// References are followed at most this many levels deep; a value reached
/// deeper is kept as it is.
pub const MAX_VAR_DEPTH: u32 = 32;

/// A value longer than this many bytes is kept as it is, and resolution
/// adds no more text once its output is longer.
pub const MAX_VAR_OUTPUT_LEN: usize = 65536;

/// The UTF-8 length of a text.
pub open spec fn utf8_len(s: Seq<char>) -> int {
    encode_utf8(s).len() as int
}

/// The text that opens a reference.
pub open spec fn var_open() -> Seq<char> {
    seq!['v', 'a', 'r', '(']
}

/// The position of the `)` that brings the parenthesis depth, `depth`
/// before position `i`, to zero; `None` when the text ends first.
pub open spec fn close_paren_from(v: Seq<char>, i: int, depth: int) -> Option<int>
    decreases v.len() - i,
{
    if i < 0 || i >= v.len() {
        None
    } else {
        let d = if v[i] == '(' {
            depth + 1
        } else if v[i] == ')' {
            depth - 1
        } else {
            depth
        };
        if d == 0 {
            Some(i)
        } else {
            close_paren_from(v, i + 1, d)
        }
    }
}

/// The name of a reference, from the text between its parentheses: up to
/// the first comma, trimmed.
pub open spec fn var_name(inner: Seq<char>) -> Seq<char> {
    match find_first(inner, seq![',']) {
        Some(c) => trim(inner.subrange(0, c)),
        None => trim(inner),
    }
}

/// The fallback of a reference: what follows its first comma, trimmed.
pub open spec fn var_fallback(inner: Seq<char>) -> Option<Seq<char>> {
    match find_first(inner, seq![',']) {
        Some(c) => Some(trim(inner.subrange(c + 1, inner.len() as int))),
        None => None,
    }
}

/// `v` with its references resolved against `props`, `depth` levels down: a
/// value reached deeper than `MAX_VAR_DEPTH`, one without `var(`, or one
/// longer than `MAX_VAR_OUTPUT_LEN` bytes is kept as it is.
pub open spec fn resolve_value(v: Seq<char>, props: Map<Seq<char>, Seq<char>>, depth: int) -> Seq<
    char,
>
    decreases MAX_VAR_DEPTH + 1 - depth, v.len() + 1,
{
    if depth > MAX_VAR_DEPTH || !contains_seq(v, var_open()) || utf8_len(v) > MAX_VAR_OUTPUT_LEN {
        v
    } else {
        resolve_walk(v, 0, props, depth, Seq::empty())
    }
}

/// The rest of the resolution of `v` from position `i`, `acc` being the
/// output so far. Once the output is longer than `MAX_VAR_OUTPUT_LEN` bytes
/// it is returned as it is. A reference runs from `var(` to the `)` that
/// closes it (to the end of the text if none does) and is replaced by its
/// property's value, resolved one level down, or else by its fallback,
/// resolved, or else by nothing; every other character is copied.
pub open spec fn resolve_walk(
    v: Seq<char>,
    i: int,
    props: Map<Seq<char>, Seq<char>>,
    depth: int,
    acc: Seq<char>,
) -> Seq<char>
    decreases MAX_VAR_DEPTH + 1 - depth, v.len() - i,
{
    if depth > MAX_VAR_DEPTH || i < 0 || i >= v.len() {
        acc
    } else if utf8_len(acc) > MAX_VAR_OUTPUT_LEN {
        acc
    } else if occurs_at(v, var_open(), i) {
        let start = i + 4;
        proof {
            lemma_close_paren_bounds(v, start, 1);
        }
        let (inner, next) = match close_paren_from(v, start, 1) {
            Some(e) => (v.subrange(start, e), e + 1),
            None => (Seq::<char>::empty(), v.len() as int),
        };
        let name = var_name(inner);
        let add = if props.contains_key(name) {
            resolve_value(props[name], props, depth + 1)
        } else {
            match var_fallback(inner) {
                Some(f) => resolve_value(f, props, depth + 1),
                None => Seq::empty(),
            }
        };
        resolve_walk(v, next, props, depth, acc + add)
    } else {
        resolve_walk(v, i + 1, props, depth, acc.push(v[i]))
    }
}

/// A closing parenthesis is found at or after where the search starts.
pub proof fn lemma_close_paren_bounds(v: Seq<char>, i: int, depth: int)
    ensures
        close_paren_from(v, i, depth) matches Some(e) ==> i <= e < v.len(),
    decreases v.len() - i,
{
    if 0 <= i < v.len() {
        let d = if v[i] == '(' {
            depth + 1
        } else if v[i] == ')' {
            depth - 1
        } else {
            depth
        };
        if d != 0 {
            lemma_close_paren_bounds(v, i + 1, d);
        }
    }
}

// ---------------------------------------------------------------------------
// UTF-8 lengths
// ---------------------------------------------------------------------------
proof fn lemma_utf8_append(a: Seq<char>, b: Seq<char>)
    ensures
        utf8_len(a + b) == utf8_len(a) + utf8_len(b),
    decreases a.len(),
{
    if a.len() == 0 {
        assert(a + b =~= b);
    } else {
        assert((a + b).drop_first() =~= a.drop_first() + b);
        assert((a + b)[0] == a[0]);
        lemma_utf8_append(a.drop_first(), b);
    }
}

proof fn lemma_utf8_single(c: char)
    ensures
        utf8_len(seq![c]) == encode_scalar(c as u32).len(),
        1 <= encode_scalar(c as u32).len() <= 4,
{
    assert(seq![c].drop_first() =~= Seq::<char>::empty());
    assert(encode_utf8(seq![c]) == encode_scalar(c as u32) + encode_utf8(Seq::<char>::empty()));
    assert(encode_utf8(Seq::<char>::empty()) =~= Seq::<u8>::empty());
    assert(encode_scalar(c as u32) + Seq::<u8>::empty() =~= encode_scalar(c as u32));
}

proof fn lemma_utf8_push(s: Seq<char>, c: char)
    ensures
        utf8_len(s.push(c)) == utf8_len(s) + utf8_len(seq![c]),
        utf8_len(s.push(c)) > utf8_len(s),
{
    assert(s.push(c) =~= s + seq![c]);
    lemma_utf8_append(s, seq![c]);
    lemma_utf8_single(c);
}

/// The UTF-8 length of one character.
fn utf8_width(c: char) -> (n: usize)
    ensures
        n == utf8_len(seq![c]),
        1 <= n <= 4,
{
    proof {
        lemma_utf8_single(c);
    }
    let u = c as u32;
    if u <= 0x7F {
        1
    } else if u <= 0x7FF {
        2
    } else if u <= 0xFFFF {
        3
    } else {
        4
    }
}

/// Whether `v` is longer than `cap` bytes in UTF-8.
fn utf8_longer_than(v: &[char], cap: usize) -> (b: bool)
    ensures
        b == (utf8_len(v@) > cap),
{
    let mut n: usize = 0;
    let mut i: usize = 0;
    while i < v.len()
        invariant
            i <= v.len(),
            n == utf8_len(v@.subrange(0, i as int)),
            n <= cap,
        decreases v.len() - i,
    {
        let w = utf8_width(v[i]);
        proof {
            assert(v@.subrange(0, i + 1) =~= v@.subrange(0, i as int).push(v@[i as int]));
            lemma_utf8_push(v@.subrange(0, i as int), v@[i as int]);
        }
        if w > cap - n {
            proof {
                let rest = v@.subrange(i + 1, v@.len() as int);
                assert(v@ =~= v@.subrange(0, i + 1) + rest);
                lemma_utf8_append(v@.subrange(0, i + 1), rest);
            }
            return true;
        }
        n = n + w;
        i = i + 1;
    }
    assert(v@.subrange(0, v@.len() as int) =~= v@);
    false
}

/// Appends `add` to `acc`, keeping count of the UTF-8 length of `acc`
/// while it is at most `MAX_VAR_OUTPUT_LEN` (`over` once it is longer).
fn append_counted(acc: &mut Vec<char>, add: &[char], bytes: &mut usize, over: &mut bool)
    requires
        !*old(over) ==> *old(bytes) == utf8_len(old(acc)@) && *old(bytes) <= MAX_VAR_OUTPUT_LEN,
        *old(over) ==> utf8_len(old(acc)@) > MAX_VAR_OUTPUT_LEN,
    ensures
        final(acc)@ == old(acc)@ + add@,
        !*final(over) ==> *final(bytes) == utf8_len(final(acc)@) && *final(bytes)
            <= MAX_VAR_OUTPUT_LEN,
        *final(over) ==> utf8_len(final(acc)@) > MAX_VAR_OUTPUT_LEN,
{
    let ghost start = acc@;
    let mut i: usize = 0;
    while i < add.len()
        invariant
            i <= add.len(),
            acc@ == start + add@.subrange(0, i as int),
            !*over ==> *bytes == utf8_len(acc@) && *bytes <= MAX_VAR_OUTPUT_LEN,
            *over ==> utf8_len(acc@) > MAX_VAR_OUTPUT_LEN,
        decreases add.len() - i,
    {
        let c = add[i];
        proof {
            lemma_utf8_push(acc@, c);
        }
        acc.push(c);
        if !*over {
            let w = utf8_width(c);
            if w > MAX_VAR_OUTPUT_LEN - *bytes {
                *over = true;
            } else {
                *bytes = *bytes + w;
            }
        }
        assert(start + add@.subrange(0, i + 1) =~= (start + add@.subrange(0, i as int)).push(c));
        i = i + 1;
    }
    assert(add@.subrange(0, add@.len() as int) =~= add@);
}

// ---------------------------------------------------------------------------
// Resolution
// ---------------------------------------------------------------------------
/// The position of the `)` closing a reference whose inner text starts at
/// `start` (see `close_paren_from`).
fn close_paren(v: &[char], start: usize) -> (r: Option<usize>)
    requires
        start <= v.len(),
    ensures
        match close_paren_from(v@, start as int, 1) {
            Some(e) => r == Some(e as usize),
            None => r is None,
        },
{
    let mut d: i128 = 1;
    let mut j = start;
    while j < v.len()
        invariant
            start <= j <= v.len(),
            1 <= d <= j - start + 1,
            close_paren_from(v@, j as int, d as int) == close_paren_from(v@, start as int, 1),
        decreases v.len() - j,
    {
        if v[j] == '(' {
            d = d + 1;
        } else if v[j] == ')' {
            d = d - 1;
        }
        if d == 0 {
            return Some(j);
        }
        j = j + 1;
    }
    None
}

/// What a reference with inner text `inner` is replaced by (see
/// `resolve_walk`).
fn reference_chars(inner: &[char], props: &TextMap, depth: u32) -> (r: Vec<char>)
    requires
        props.wf(),
        depth <= MAX_VAR_DEPTH,
    ensures
        r@ == (if props.view().contains_key(var_name(inner@)) {
            resolve_value(props.view()[var_name(inner@)], props.view(), depth + 1)
        } else {
            match var_fallback(inner@) {
                Some(f) => resolve_value(f, props.view(), depth + 1),
                None => Seq::empty(),
            }
        }),
    decreases MAX_VAR_DEPTH + 1 - depth, 0int,
{
    proof {
        reveal_strlit(",");
        assert(","@ =~= seq![',']);
    }
    let (name, fallback) = match find_lit(inner, ",") {
        Some(c) => {
            proof {
                lemma_find_first_occurs(inner@, seq![',']);
            }
            let n = inner.len();
            (trim_chars(&copy_range(inner, 0, c)), Some(trim_chars(&copy_range(inner, c + 1, n))))
        },
        None => (trim_chars(inner), None),
    };
    let key = string_from_chars(&name);
    match props.get(key.as_str()) {
        Some(val) => resolve_chars(&chars_of(val.as_str()), props, depth + 1),
        None => match fallback {
            Some(f) => resolve_chars(&f, props, depth + 1),
            None => Vec::new(),
        },
    }
}

/// Resolves the references of `v` (see `resolve_value`).
fn resolve_chars(v: &[char], props: &TextMap, depth: u32) -> (r: Vec<char>)
    requires
        props.wf(),
    ensures
        r@ == resolve_value(v@, props.view(), depth as int),
    decreases MAX_VAR_DEPTH + 1 - depth, 1int,
{
    proof {
        reveal_strlit("var(");
        assert("var("@ =~= var_open());
    }
    if depth > MAX_VAR_DEPTH || !contains_lit(v, "var(") || utf8_longer_than(v, MAX_VAR_OUTPUT_LEN) {
        return copy_range(v, 0, v.len());
    }
    let mut acc: Vec<char> = Vec::new();
    let mut bytes: usize = 0;
    let mut over = false;
    let mut i: usize = 0;
    let n = v.len();
    assert(utf8_len(Seq::<char>::empty()) == 0) by {
        assert(encode_utf8(Seq::<char>::empty()) =~= Seq::<u8>::empty());
    }
    while i < n
        invariant
            n == v@.len(),
            i <= n,
            props.wf(),
            depth <= MAX_VAR_DEPTH,
            var_open() == "var("@,
            resolve_walk(v@, i as int, props.view(), depth as int, acc@) == resolve_value(
                v@,
                props.view(),
                depth as int,
            ),
            !over ==> bytes == utf8_len(acc@) && bytes <= MAX_VAR_OUTPUT_LEN,
            over ==> utf8_len(acc@) > MAX_VAR_OUTPUT_LEN,
        ensures
            i >= n || over,
            resolve_walk(v@, i as int, props.view(), depth as int, acc@) == resolve_value(
                v@,
                props.view(),
                depth as int,
            ),
            over ==> utf8_len(acc@) > MAX_VAR_OUTPUT_LEN,
        decreases n - i,
    {
        if over {
            break;
        }
        if occurs_lit_at(v, "var(", i) {
            let start = i + 4;
            proof {
                lemma_close_paren_bounds(v@, start as int, 1);
            }
            match close_paren(v, start) {
                Some(e) => {
                    let add = reference_chars(&copy_range(v, start, e), props, depth);
                    append_counted(&mut acc, &add, &mut bytes, &mut over);
                    i = e + 1;
                },
                None => {
                    let empty: Vec<char> = Vec::new();
                    let add = reference_chars(&empty, props, depth);
                    append_counted(&mut acc, &add, &mut bytes, &mut over);
                    i = n;
                },
            }
        } else {
            let one = vec![v[i]];
            assert(acc@ + one@ =~= acc@.push(v@[i as int]));
            append_counted(&mut acc, &one, &mut bytes, &mut over);
            i = i + 1;
        }
    }
    acc
}

/// Resolves the `var()` references of a CSS value against the custom
/// properties `props` (see `resolve_value`).
pub fn resolve_var(value: &str, props: &TextMap) -> (r: String)
    requires
        props.wf(),
    ensures
        r@ == resolve_value(value@, props.view(), 0),
{
    resolve_var_inner(value, props, 0)
}

/// Resolves the `var()` references of a CSS value reached `depth` levels
/// down (see `resolve_value`).
pub fn resolve_var_inner(value: &str, props: &TextMap, depth: u32) -> (r: String)
    requires
        props.wf(),
    ensures
        r@ == resolve_value(value@, props.view(), depth as int),
{
    string_from_chars(&resolve_chars(&chars_of(value), props, depth))
}

} // verus!
