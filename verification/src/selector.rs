//! CSS selectors: their model, their specificity, and parsing selector text.
use vstd::prelude::*;
use crate::text::is_ws;
use crate::text::trim;
use crate::text::occurs_at;
use crate::text::find_first;
use crate::text::chars_of;
use crate::text::copy_range;
use crate::text::trim_chars;
use crate::text::find_lit;
use crate::text::occurs_lit_at;
use crate::text::string_from_chars;
use crate::text::find_last;
use crate::text::find_last_from;
use crate::text::rfind_lit;
use crate::text::split_ws;
use crate::text::split_whitespace;
use crate::text::vecs_view;
use crate::text::lowercase;
use crate::text::to_lowercase;
use crate::text::eq_lit;
use crate::html::first_from;
use crate::html::at_char;
use crate::html::find_char_from;
use crate::html::lemma_first_from_bounds;

verus! {

broadcast use vstd::string::group_string_axioms;

/// A pseudo-element that a selector can end with.
#[derive(Clone, Copy, Debug, PartialEq, Eq, Structural)]
pub enum PseudoElement {
    Before,
    After,
}

/// How an attribute selector compares the attribute's value.
#[derive(Debug)]
pub enum AttrMatch {
    /// `[attr]`
    Exists,
    /// `[attr="val"]`
    Exact(String),
    /// `[attr^="val"]`
    Prefix(String),
    /// `[attr$="val"]`
    Suffix(String),
    /// `[attr*="val"]`
    Contains(String),
}

/// One part of a compound selector.
#[derive(Debug)]
pub enum SimpleSelector {
    Tag(String),
    Class(String),
    Id(String),
    Attr(String, AttrMatch),
}

/// A CSS selector.
#[derive(Debug)]
pub enum Selector {
    /// `*`
    Universal,
    /// `div`
    Tag(String),
    /// `.foo`
    Class(String),
    /// `#bar`
    Id(String),
    /// `div.foo`
    TagClass(String, String),
    /// `.parent .child`
    Descendant(Box<Selector>, Box<Selector>),
    /// `.parent > .child`
    Child(Box<Selector>, Box<Selector>),
    /// `.a + .b`
    AdjacentSibling(Box<Selector>, Box<Selector>),
    /// `.a ~ .b`
    GeneralSibling(Box<Selector>, Box<Selector>),
    /// `.a.b`
    Compound(Vec<SimpleSelector>),
    /// `base::before`, `base::after`
    WithPseudo(Box<Selector>, PseudoElement),
}

/// The model of an attribute match.
pub enum AttrMatchV {
    Exists,
    Exact(Seq<char>),
    Prefix(Seq<char>),
    Suffix(Seq<char>),
    Contains(Seq<char>),
}

/// The model of a simple selector.
pub enum SimpleV {
    Tag(Seq<char>),
    Class(Seq<char>),
    Id(Seq<char>),
    Attr(Seq<char>, AttrMatchV),
}

/// The model of a selector.
pub enum SelectorV {
    Universal,
    Tag(Seq<char>),
    Class(Seq<char>),
    Id(Seq<char>),
    TagClass(Seq<char>, Seq<char>),
    Descendant(Box<SelectorV>, Box<SelectorV>),
    Child(Box<SelectorV>, Box<SelectorV>),
    AdjacentSibling(Box<SelectorV>, Box<SelectorV>),
    GeneralSibling(Box<SelectorV>, Box<SelectorV>),
    Compound(Seq<SimpleV>),
    WithPseudo(Box<SelectorV>, PseudoElement),
}

/// The model of an attribute match.
pub open spec fn attr_match_view(m: AttrMatch) -> AttrMatchV {
    match m {
        AttrMatch::Exists => AttrMatchV::Exists,
        AttrMatch::Exact(v) => AttrMatchV::Exact(v@),
        AttrMatch::Prefix(v) => AttrMatchV::Prefix(v@),
        AttrMatch::Suffix(v) => AttrMatchV::Suffix(v@),
        AttrMatch::Contains(v) => AttrMatchV::Contains(v@),
    }
}

/// The model of a simple selector.
pub open spec fn simple_view(s: SimpleSelector) -> SimpleV {
    match s {
        SimpleSelector::Tag(t) => SimpleV::Tag(t@),
        SimpleSelector::Class(c) => SimpleV::Class(c@),
        SimpleSelector::Id(i) => SimpleV::Id(i@),
        SimpleSelector::Attr(n, m) => SimpleV::Attr(n@, attr_match_view(m)),
    }
}

/// The model of a list of simple selectors.
pub open spec fn simples_view(v: Seq<SimpleSelector>) -> Seq<SimpleV> {
    v.map_values(|s: SimpleSelector| simple_view(s))
}

/// The model of a selector.
pub open spec fn selector_view(s: Selector) -> SelectorV
    decreases s,
{
    match s {
        Selector::Universal => SelectorV::Universal,
        Selector::Tag(t) => SelectorV::Tag(t@),
        Selector::Class(c) => SelectorV::Class(c@),
        Selector::Id(i) => SelectorV::Id(i@),
        Selector::TagClass(t, c) => SelectorV::TagClass(t@, c@),
        Selector::Descendant(a, b) => SelectorV::Descendant(
            Box::new(selector_view(*a)),
            Box::new(selector_view(*b)),
        ),
        Selector::Child(a, b) => SelectorV::Child(
            Box::new(selector_view(*a)),
            Box::new(selector_view(*b)),
        ),
        Selector::AdjacentSibling(a, b) => SelectorV::AdjacentSibling(
            Box::new(selector_view(*a)),
            Box::new(selector_view(*b)),
        ),
        Selector::GeneralSibling(a, b) => SelectorV::GeneralSibling(
            Box::new(selector_view(*a)),
            Box::new(selector_view(*b)),
        ),
        Selector::Compound(parts) => SelectorV::Compound(simples_view(parts@)),
        Selector::WithPseudo(b, p) => SelectorV::WithPseudo(Box::new(selector_view(*b)), p),
    }
}

/// The weight of one part of a compound selector.
pub open spec fn simple_weight(p: SimpleV) -> int {
    match p {
        SimpleV::Tag(_) => 1,
        SimpleV::Class(_) => 10,
        SimpleV::Id(_) => 100,
        SimpleV::Attr(_, _) => 10,
    }
}

/// The summed weight of the parts of a compound selector.
pub open spec fn simples_weight(parts: Seq<SimpleV>) -> int
    decreases parts.len(),
{
    if parts.len() == 0 {
        0
    } else {
        simples_weight(parts.drop_last()) + simple_weight(parts.last())
    }
}

/// Selector specificity: tags 1, classes and attributes 10, ids 100,
/// combinators add up their two sides, a pseudo-element adds 1.
pub open spec fn specificity(s: SelectorV) -> int
    decreases s,
{
    match s {
        SelectorV::Universal => 0,
        SelectorV::Tag(_) => 1,
        SelectorV::Class(_) => 10,
        SelectorV::Id(_) => 100,
        SelectorV::TagClass(_, _) => 11,
        SelectorV::Descendant(a, b) => specificity(*a) + specificity(*b),
        SelectorV::Child(a, b) => specificity(*a) + specificity(*b),
        SelectorV::AdjacentSibling(a, b) => specificity(*a) + specificity(*b),
        SelectorV::GeneralSibling(a, b) => specificity(*a) + specificity(*b),
        SelectorV::WithPseudo(b, _) => specificity(*b) + 1,
        SelectorV::Compound(parts) => simples_weight(parts),
    }
}

proof fn lemma_simples_weight_nonneg(parts: Seq<SimpleV>)
    ensures
        simples_weight(parts) >= 0,
    decreases parts.len(),
{
    if parts.len() > 0 {
        lemma_simples_weight_nonneg(parts.drop_last());
    }
}

/// Specificity is never negative.
pub proof fn lemma_specificity_nonneg(s: SelectorV)
    ensures
        specificity(s) >= 0,
    decreases s,
{
    match s {
        SelectorV::Descendant(a, b) => {
            lemma_specificity_nonneg(*a);
            lemma_specificity_nonneg(*b);
        },
        SelectorV::Child(a, b) => {
            lemma_specificity_nonneg(*a);
            lemma_specificity_nonneg(*b);
        },
        SelectorV::AdjacentSibling(a, b) => {
            lemma_specificity_nonneg(*a);
            lemma_specificity_nonneg(*b);
        },
        SelectorV::GeneralSibling(a, b) => {
            lemma_specificity_nonneg(*a);
            lemma_specificity_nonneg(*b);
        },
        SelectorV::WithPseudo(b, _) => {
            lemma_specificity_nonneg(*b);
        },
        SelectorV::Compound(parts) => {
            lemma_simples_weight_nonneg(parts);
        },
        _ => {},
    }
}

/// The specificity of a selector, or `None` when it does not fit in a `u32`.
pub fn checked_specificity(sel: &Selector) -> (r: Option<u32>)
    ensures
        match r {
            Some(v) => v == specificity(selector_view(*sel)),
            None => specificity(selector_view(*sel)) > u32::MAX,
        },
    decreases sel,
{
    proof {
        lemma_specificity_nonneg(selector_view(*sel));
    }
    match sel {
        Selector::Universal => Some(0),
        Selector::Tag(_) => Some(1),
        Selector::Class(_) => Some(10),
        Selector::Id(_) => Some(100),
        Selector::TagClass(_, _) => Some(11),
        Selector::Descendant(a, b) | Selector::Child(a, b) | Selector::AdjacentSibling(a, b)
        | Selector::GeneralSibling(a, b) => {
            proof {
                lemma_specificity_nonneg(selector_view(**a));
                lemma_specificity_nonneg(selector_view(**b));
            }
            match (checked_specificity(a), checked_specificity(b)) {
                (Some(x), Some(y)) => x.checked_add(y),
                _ => None,
            }
        },
        Selector::WithPseudo(b, _) => match checked_specificity(b) {
            Some(x) => x.checked_add(1),
            None => None,
        },
        Selector::Compound(parts) => {
            let mut total: u32 = 0;
            let mut i: usize = 0;
            assert(selector_view(*sel) == SelectorV::Compound(simples_view(parts@)));
            while i < parts.len()
                invariant
                    selector_view(*sel) == SelectorV::Compound(simples_view(parts@)),
                    i <= parts@.len(),
                    total == simples_weight(simples_view(parts@.subrange(0, i as int))),
                decreases parts@.len() - i,
            {
                let w: u32 = match &parts[i] {
                    SimpleSelector::Tag(_) => 1,
                    SimpleSelector::Class(_) => 10,
                    SimpleSelector::Id(_) => 100,
                    SimpleSelector::Attr(_, _) => 10,
                };
                assert(simples_view(parts@.subrange(0, i + 1)).drop_last() == simples_view(
                    parts@.subrange(0, i as int),
                ));
                assert(w == simple_weight(simples_view(parts@.subrange(0, i + 1)).last()));
                match total.checked_add(w) {
                    Some(t) => {
                        total = t;
                    },
                    None => {
                        proof {
                            assert(simples_weight(simples_view(parts@.subrange(0, i + 1))) == total
                                + w);
                            assert(selector_view(*sel) == SelectorV::Compound(simples_view(parts@)));
                            lemma_weight_prefix_le(simples_view(parts@), i + 1);
                            assert(simples_view(parts@).subrange(0, i + 1) == simples_view(
                                parts@.subrange(0, i + 1),
                            ));
                        }
                        return None;
                    },
                }
                i = i + 1;
            }
            assert(parts@.subrange(0, parts@.len() as int) == parts@);
            Some(total)
        },
    }
}

/// The weight of a prefix of parts is at most the weight of all of them.
proof fn lemma_weight_prefix_le(parts: Seq<SimpleV>, k: int)
    requires
        0 <= k <= parts.len(),
    ensures
        simples_weight(parts.subrange(0, k)) <= simples_weight(parts),
    decreases parts.len() - k,
{
    if k < parts.len() {
        lemma_weight_prefix_le(parts, k + 1);
        assert(parts.subrange(0, k + 1).drop_last() == parts.subrange(0, k));
    } else {
        assert(parts.subrange(0, k) == parts);
    }
}

/// The specificity of a selector whose specificity fits in a `u32`.
pub fn calc_specificity(sel: &Selector) -> (r: u32)
    requires
        specificity(selector_view(*sel)) <= u32::MAX,
    ensures
        r == specificity(selector_view(*sel)),
{
    match checked_specificity(sel) {
        Some(v) => v,
        None => 0,
    }
}

/// Whatever follows a single-colon pseudo-element at `i` (of `n`
/// characters) is empty or starts with a space.
pub open spec fn pseudo_end_ok(s: Seq<char>, i: int, n: int) -> bool {
    i + n == s.len() || (i + n < s.len() && s[i + n] == ' ')
}

/// The selector text without its `::before`/`::after` (or legacy
/// `:before`/`:after`) suffix, and which pseudo-element that was. The last
/// occurrence counts; a legacy suffix counts only when it ends the text or
/// is followed by a space.
pub open spec fn strip_pseudo(s: Seq<char>) -> (Seq<char>, Option<PseudoElement>) {
    match find_last(s, "::before"@) {
        Some(i) => (s.subrange(0, i), Some(PseudoElement::Before)),
        None => match find_last(s, "::after"@) {
            Some(i) => (s.subrange(0, i), Some(PseudoElement::After)),
            None => {
                let b = find_last(s, ":before"@);
                let a = find_last(s, ":after"@);
                if b is Some && pseudo_end_ok(s, b->0, 7) {
                    (s.subrange(0, b->0), Some(PseudoElement::Before))
                } else if a is Some && pseudo_end_ok(s, a->0, 6) {
                    (s.subrange(0, a->0), Some(PseudoElement::After))
                } else {
                    (s, None)
                }
            },
        },
    }
}

/// Splits a pseudo-element suffix off selector text (see `strip_pseudo`).
pub fn strip_pseudo_element(s: &[char]) -> (r: (Vec<char>, Option<PseudoElement>))
    ensures
        (r.0@, r.1) == strip_pseudo(s@),
{
    proof {
        reveal_strlit("::before");
        reveal_strlit("::after");
        reveal_strlit(":before");
        reveal_strlit(":after");
    }
    if let Some(i) = rfind_lit(s, "::before") {
        assert(occurs_at(s@, "::before"@, i as int)) by {
            lemma_find_last_occurs(s@, "::before"@, s@.len() as int);
        }
        return (copy_range(s, 0, i), Some(PseudoElement::Before));
    }
    if let Some(i) = rfind_lit(s, "::after") {
        assert(occurs_at(s@, "::after"@, i as int)) by {
            lemma_find_last_occurs(s@, "::after"@, s@.len() as int);
        }
        return (copy_range(s, 0, i), Some(PseudoElement::After));
    }
    if let Some(i) = rfind_lit(s, ":before") {
        proof {
            lemma_find_last_occurs(s@, ":before"@, s@.len() as int);
        }
        assert(i + 7 <= s.len());
        if i + 7 == s.len() || s[i + 7] == ' ' {
            return (copy_range(s, 0, i), Some(PseudoElement::Before));
        }
    }
    if let Some(i) = rfind_lit(s, ":after") {
        proof {
            lemma_find_last_occurs(s@, ":after"@, s@.len() as int);
        }
        assert(i + 6 <= s.len());
        if i + 6 == s.len() || s[i + 6] == ' ' {
            return (copy_range(s, 0, i), Some(PseudoElement::After));
        }
    }
    (copy_range(s, 0, s.len()), None)
}

/// A position that `find_last_from` returns is an occurrence.
pub proof fn lemma_find_last_occurs(s: Seq<char>, p: Seq<char>, i: int)
    ensures
        find_last_from(s, p, i) matches Some(k) ==> occurs_at(s, p, k) && k <= i,
    decreases i + 1,
{
    if i >= 0 && !occurs_at(s, p, i) {
        lemma_find_last_occurs(s, p, i - 1);
    }
}

/// A quote character.
pub open spec fn is_quote(c: char) -> bool {
    c == '\'' || c == '"'
}

/// `s` without leading quotes.
pub open spec fn trim_quotes_start(s: Seq<char>) -> Seq<char>
    decreases s.len(),
{
    if s.len() > 0 && is_quote(s[0]) {
        trim_quotes_start(s.drop_first())
    } else {
        s
    }
}

/// `s` without trailing quotes.
pub open spec fn trim_quotes_end(s: Seq<char>) -> Seq<char>
    decreases s.len(),
{
    if s.len() > 0 && is_quote(s.last()) {
        trim_quotes_end(s.drop_last())
    } else {
        s
    }
}

/// `s` without leading and trailing quotes.
pub open spec fn trim_quotes(s: Seq<char>) -> Seq<char> {
    trim_quotes_end(trim_quotes_start(s))
}

/// `v` without leading and trailing quotes.
pub fn trim_quote_chars(v: &[char]) -> (r: Vec<char>)
    ensures
        r@ == trim_quotes(v@),
{
    let n = v.len();
    let mut lo: usize = 0;
    assert(v@.subrange(0, n as int) == v@);
    while lo < n && (v[lo] == '\'' || v[lo] == '"')
        invariant
            lo <= n == v@.len(),
            trim_quotes_start(v@) == trim_quotes_start(v@.subrange(lo as int, n as int)),
        decreases n - lo,
    {
        assert(v@.subrange(lo as int, n as int).drop_first() == v@.subrange(lo + 1, n as int));
        lo = lo + 1;
    }
    let ghost t = v@.subrange(lo as int, n as int);
    let mut hi: usize = n;
    assert(t.subrange(0, (n - lo) as int) == t);
    while hi > lo && (v[hi - 1] == '\'' || v[hi - 1] == '"')
        invariant
            lo <= hi <= n == v@.len(),
            t == v@.subrange(lo as int, n as int),
            trim_quotes_end(t) == trim_quotes_end(t.subrange(0, (hi - lo) as int)),
        decreases hi - lo,
    {
        assert(t.subrange(0, (hi - lo) as int).drop_last() == t.subrange(0, (hi - lo - 1) as int));
        hi = hi - 1;
    }
    assert(t.subrange(0, (hi - lo) as int) == v@.subrange(lo as int, hi as int));
    copy_range(v, lo, hi)
}

/// The attribute selector written as `p` (`[attr]`, `[attr=v]`, `[attr^=v]`,
/// `[attr$=v]`, `[attr*=v]`; `~=` and `|=` compare exactly), or `None` when
/// `p` is not bracketed or empty inside.
pub open spec fn attr_selector_of(p: Seq<char>) -> Option<SimpleV> {
    if !(p.len() >= 2 && p[0] == '[' && p.last() == ']') {
        None
    } else {
        let inner = p.subrange(1, p.len() - 1);
        if inner.len() == 0 {
            None
        } else {
            match find_first(inner, seq!['=']) {
                Some(eq) => {
                    let before = inner.subrange(0, eq);
                    let val = trim_quotes(trim(inner.subrange(eq + 1, inner.len() as int)));
                    let op = if before.len() > 0 {
                        before.last()
                    } else {
                        '='
                    };
                    let name = if op == '^' || op == '$' || op == '*' || op == '~' || op == '|' {
                        before.drop_last()
                    } else {
                        before
                    };
                    let m = if op == '^' {
                        AttrMatchV::Prefix(val)
                    } else if op == '$' {
                        AttrMatchV::Suffix(val)
                    } else if op == '*' {
                        AttrMatchV::Contains(val)
                    } else {
                        AttrMatchV::Exact(val)
                    };
                    Some(SimpleV::Attr(trim(name), m))
                },
                None => Some(SimpleV::Attr(trim(inner), AttrMatchV::Exists)),
            }
        }
    }
}

/// Parses an attribute selector such as `[data-x^="y"]` (see
/// `attr_selector_of`).
pub fn parse_attr_selector(p: &[char]) -> (r: Option<SimpleSelector>)
    ensures
        match r {
            Some(x) => attr_selector_of(p@) == Some(simple_view(x)),
            None => attr_selector_of(p@) is None,
        },
{
    let n = p.len();
    if !(n >= 2 && p[0] == '[' && p[n - 1] == ']') {
        return None;
    }
    let inner = copy_range(p, 1, n - 1);
    if inner.len() == 0 {
        return None;
    }
    proof {
        reveal_strlit("=");
        assert("="@ == seq!['=']);
    }
    match find_lit(&inner, "=") {
        Some(eq) => {
            assert(occurs_at(inner@, "="@, eq as int));
            let before = copy_range(&inner, 0, eq);
            let after = copy_range(&inner, eq + 1, inner.len());
            let val = trim_quote_chars(&trim_chars(&after));
            let bl = before.len();
            let op = if bl > 0 {
                before[bl - 1]
            } else {
                '='
            };
            let name = if op == '^' || op == '$' || op == '*' || op == '~' || op == '|' {
                copy_range(&before, 0, bl - 1)
            } else {
                before
            };
            let vs = string_from_chars(&val);
            let m = if op == '^' {
                AttrMatch::Prefix(vs)
            } else if op == '$' {
                AttrMatch::Suffix(vs)
            } else if op == '*' {
                AttrMatch::Contains(vs)
            } else {
                AttrMatch::Exact(vs)
            };
            let nm = string_from_chars(&trim_chars(&name));
            Some(SimpleSelector::Attr(nm, m))
        },
        None => Some(SimpleSelector::Attr(string_from_chars(&trim_chars(&inner)), AttrMatch::Exists)),
    }
}

/// The parts of a compound selector token from position `i`, `cur` being
/// the part read so far: a part starts at each `.` or `#`, and `[...]` (up
/// to the first `]`) is a part of its own.
pub open spec fn group_parts(s: Seq<char>, i: int, cur: Seq<char>) -> Seq<Seq<char>>
    decreases s.len() - i,
{
    let flushed = if cur.len() > 0 {
        seq![cur]
    } else {
        Seq::empty()
    };
    if i < 0 || i >= s.len() {
        flushed
    } else if s[i] == '[' {
        let e = first_from(s, i + 1, at_char(s, ']'));
        let end = if e < s.len() {
            e + 1
        } else {
            s.len() as int
        };
        if i < end <= s.len() {
            flushed + seq![s.subrange(i, end)] + group_parts(s, end, Seq::empty())
        } else {
            flushed
        }
    } else if s[i] == '.' || s[i] == '#' {
        flushed + group_parts(s, i + 1, seq![s[i]])
    } else {
        group_parts(s, i + 1, cur.push(s[i]))
    }
}

/// Splits a compound selector token into its parts (see `group_parts`).
fn selector_parts(s: &[char]) -> (r: Vec<Vec<char>>)
    ensures
        vecs_view(r@) == group_parts(s@, 0, Seq::empty()),
{
    let n = s.len();
    let mut parts: Vec<Vec<char>> = Vec::new();
    let mut cur: Vec<char> = Vec::new();
    let mut i: usize = 0;
    while i < n
        invariant
            n == s@.len(),
            i <= n,
            vecs_view(parts@) + group_parts(s@, i as int, cur@) == group_parts(
                s@,
                0,
                Seq::empty(),
            ),
        decreases n - i,
    {
        let ghost flushed = if cur@.len() > 0 {
            seq![cur@]
        } else {
            Seq::<Seq<char>>::empty()
        };
        let ghost before = vecs_view(parts@);
        let ghost cur0 = cur@;
        let c = s[i];
        if c == '[' || c == '.' || c == '#' {
            if cur.len() > 0 {
                let cc = cur;
                parts.push(cc);
                cur = Vec::new();
            }
            assert(vecs_view(parts@) == before + flushed);
            assert(cur@ =~= Seq::<char>::empty());
            if c == '[' {
                let e = find_char_from(s, ']', i + 1);
                proof {
                    lemma_first_from_bounds(s@, i + 1, at_char(s@, ']'));
                }
                let end = if e < n {
                    e + 1
                } else {
                    n
                };
                let b = copy_range(s, i, end);
                let ghost mid = vecs_view(parts@);
                parts.push(b);
                assert(vecs_view(parts@) == mid.push(s@.subrange(i as int, end as int)));
                assert(group_parts(s@, i as int, cur0) == flushed + seq![s@.subrange(i as int, end as int)] + group_parts(
                    s@,
                    end as int,
                    Seq::empty(),
                ));
                assert(before + flushed + seq![s@.subrange(i as int, end as int)] + group_parts(
                    s@,
                    end as int,
                    Seq::empty(),
                ) == vecs_view(parts@) + group_parts(s@, end as int, Seq::empty()));
                assert(before + (flushed + seq![s@.subrange(i as int, end as int)] + group_parts(
                    s@,
                    end as int,
                    Seq::empty(),
                )) =~= before + flushed + seq![s@.subrange(i as int, end as int)] + group_parts(
                    s@,
                    end as int,
                    Seq::empty(),
                ));
                i = end;
                assert(vecs_view(parts@) + group_parts(s@, i as int, cur@) == group_parts(s@, 0, Seq::empty()));
            } else {
                cur.push(c);
                assert(cur@ == seq![c]);
                assert(group_parts(s@, i as int, cur0) == flushed + group_parts(s@, i + 1, seq![c]));
                assert(before + (flushed + group_parts(s@, i + 1, seq![c])) =~= vecs_view(parts@)
                    + group_parts(s@, i + 1, cur@));
                i = i + 1;
                assert(vecs_view(parts@) + group_parts(s@, i as int, cur@) == group_parts(s@, 0, Seq::empty()));
            }
        } else {
            cur.push(c);
            assert(group_parts(s@, i as int, cur0) == group_parts(s@, i + 1, cur0.push(c)));
            i = i + 1;
            assert(vecs_view(parts@) + group_parts(s@, i as int, cur@) == group_parts(s@, 0, Seq::empty()));
        }
    }
    if cur.len() > 0 {
        let ghost before = vecs_view(parts@);
        let ghost c = cur@;
        parts.push(cur);
        assert(vecs_view(parts@) == before.push(c));
        assert(before.push(c) == before + seq![c]);
    } else {
        assert(vecs_view(parts@) + Seq::<Seq<char>>::empty() == vecs_view(parts@));
    }
    parts
}

/// The simple selector that one part of a compound token stands for
/// (`None` for a malformed attribute part).
pub open spec fn simple_of_part(p: Seq<char>) -> Option<SimpleV> {
    if p.len() > 0 && p[0] == '.' {
        Some(SimpleV::Class(p.subrange(1, p.len() as int)))
    } else if p.len() > 0 && p[0] == '#' {
        Some(SimpleV::Id(p.subrange(1, p.len() as int)))
    } else if p.len() > 0 && p[0] == '[' {
        attr_selector_of(p)
    } else {
        Some(SimpleV::Tag(lowercase(p)))
    }
}

/// The simple selectors of a list of parts, dropping malformed attributes.
pub open spec fn simples_of_parts(parts: Seq<Seq<char>>) -> Seq<SimpleV>
    decreases parts.len(),
{
    if parts.len() == 0 {
        Seq::empty()
    } else {
        let rest = simples_of_parts(parts.drop_last());
        match simple_of_part(parts.last()) {
            Some(x) => rest.push(x),
            None => rest,
        }
    }
}

/// The selector that one white-space free token stands for: `*`, `:root`
/// (the `html` tag), a single tag, class, id or attribute part, `tag.class`,
/// or a compound of parts.
pub open spec fn group_selector(tok: Seq<char>) -> SelectorV {
    if tok == "*"@ {
        SelectorV::Universal
    } else if tok == ":root"@ {
        SelectorV::Tag("html"@)
    } else {
        let parts = group_parts(tok, 0, Seq::empty());
        if parts.len() == 1 {
            let p = parts[0];
            if p.len() > 0 && p[0] == '.' {
                SelectorV::Class(p.subrange(1, p.len() as int))
            } else if p.len() > 0 && p[0] == '#' {
                SelectorV::Id(p.subrange(1, p.len() as int))
            } else if p.len() > 0 && p[0] == '[' {
                match attr_selector_of(p) {
                    Some(a) => SelectorV::Compound(seq![a]),
                    None => SelectorV::Universal,
                }
            } else {
                SelectorV::Tag(lowercase(p))
            }
        } else {
            let simple = simples_of_parts(parts);
            if simple.len() == 2 && simple[0] is Tag && simple[1] is Class {
                SelectorV::TagClass(simple[0]->Tag_0, simple[1]->Class_0)
            } else {
                SelectorV::Compound(simple)
            }
        }
    }
}

/// The simple selector for one part (see `simple_of_part`).
fn simple_part(p: &[char]) -> (r: Option<SimpleSelector>)
    ensures
        match r {
            Some(x) => simple_of_part(p@) == Some(simple_view(x)),
            None => simple_of_part(p@) is None,
        },
{
    let n = p.len();
    if n > 0 && p[0] == '.' {
        Some(SimpleSelector::Class(string_from_chars(&copy_range(p, 1, n))))
    } else if n > 0 && p[0] == '#' {
        Some(SimpleSelector::Id(string_from_chars(&copy_range(p, 1, n))))
    } else if n > 0 && p[0] == '[' {
        parse_attr_selector(p)
    } else {
        Some(SimpleSelector::Tag(string_from_chars(&to_lowercase(p))))
    }
}

/// Parses one white-space free selector token (see `group_selector`).
pub fn parse_simple_selector_group(s: &[char]) -> (r: Selector)
    ensures
        selector_view(r) == group_selector(s@),
{
    proof {
        reveal_strlit("html");
    }
    if eq_lit(s, "*") {
        return Selector::Universal;
    }
    if eq_lit(s, ":root") {
        return Selector::Tag(string_from_chars(&chars_of("html")));
    }
    let parts = selector_parts(s);
    let ghost pv = vecs_view(parts@);
    if parts.len() == 1 {
        assert(pv[0] == parts@[0]@);
        let p = &parts[0];
        let n = p.len();
        if n > 0 && p[0] == '.' {
            return Selector::Class(string_from_chars(&copy_range(p, 1, n)));
        } else if n > 0 && p[0] == '#' {
            return Selector::Id(string_from_chars(&copy_range(p, 1, n)));
        } else if n > 0 && p[0] == '[' {
            return match parse_attr_selector(p) {
                Some(a) => {
                    let mut v: Vec<SimpleSelector> = Vec::new();
                    v.push(a);
                    assert(simples_view(v@) == seq![simple_view(v@[0])]);
                    Selector::Compound(v)
                },
                None => Selector::Universal,
            };
        } else {
            return Selector::Tag(string_from_chars(&to_lowercase(p)));
        }
    }
    let mut simple: Vec<SimpleSelector> = Vec::new();
    let mut i: usize = 0;
    while i < parts.len()
        invariant
            i <= parts@.len(),
            pv == vecs_view(parts@),
            simples_view(simple@) == simples_of_parts(pv.subrange(0, i as int)),
        decreases parts@.len() - i,
    {
        assert(pv.subrange(0, i + 1).drop_last() == pv.subrange(0, i as int));
        assert(pv.subrange(0, i + 1).last() == parts@[i as int]@);
        let ghost before = simples_view(simple@);
        match simple_part(&parts[i]) {
            Some(x) => {
                let ghost xv = simple_view(x);
                simple.push(x);
                assert(simples_view(simple@) =~= before.push(xv));
            },
            None => {},
        }
        i = i + 1;
    }
    assert(pv.subrange(0, parts@.len() as int) == pv);
    if simple.len() == 2 {
        let ghost orig = simple@;
        let second = simple.pop().unwrap();
        let first = simple.pop().unwrap();
        assert(first == orig[0] && second == orig[1]);
        assert(simples_view(orig)[0] == simple_view(first));
        assert(simples_view(orig)[1] == simple_view(second));
        match (first, second) {
            (SimpleSelector::Tag(t), SimpleSelector::Class(c)) => {
                return Selector::TagClass(t, c);
            },
            (a, b) => {
                let mut v: Vec<SimpleSelector> = Vec::new();
                v.push(a);
                v.push(b);
                assert(simples_view(v@) =~= seq![simple_view(a), simple_view(b)]);
                assert(simples_view(orig) =~= seq![simple_view(a), simple_view(b)]);
                return Selector::Compound(v);
            },
        }
    }
    Selector::Compound(simple)
}

/// The combinator a token stands for, if it is one.
pub open spec fn combinator_of(t: Seq<char>) -> Option<char> {
    if t == ">"@ {
        Some('>')
    } else if t == "+"@ {
        Some('+')
    } else if t == "~"@ {
        Some('~')
    } else {
        None
    }
}

/// The selectors and combinators read from the first `k` tokens: a
/// selector token that follows another selector without a combinator in
/// between adds a descendant combinator (written as a space).
pub open spec fn sel_state(tokens: Seq<Seq<char>>, k: int) -> (Seq<SelectorV>, Seq<char>)
    decreases k,
{
    if k <= 0 {
        (Seq::empty(), Seq::empty())
    } else {
        let (sels, combs) = sel_state(tokens, k - 1);
        let t = tokens[k - 1];
        match combinator_of(t) {
            Some(c) => (sels, combs.push(c)),
            None => {
                let combs2 = if sels.len() > 0 && combs.len() < sels.len() {
                    combs.push(' ')
                } else {
                    combs
                };
                (sels.push(group_selector(t)), combs2)
            },
        }
    }
}

/// The `i`-th combinator, a space (descendant) when there is none.
pub open spec fn comb_at(combs: Seq<char>, i: int) -> char {
    if 0 <= i < combs.len() {
        combs[i]
    } else {
        ' '
    }
}

/// `a` and `b` joined by the combinator `c`.
pub open spec fn combine(c: char, a: SelectorV, b: SelectorV) -> SelectorV {
    if c == '>' {
        SelectorV::Child(Box::new(a), Box::new(b))
    } else if c == '+' {
        SelectorV::AdjacentSibling(Box::new(a), Box::new(b))
    } else if c == '~' {
        SelectorV::GeneralSibling(Box::new(a), Box::new(b))
    } else {
        SelectorV::Descendant(Box::new(a), Box::new(b))
    }
}

/// The first `n` selectors folded from the left: the `i`-th combinator joins
/// what stands before it with the `(i + 1)`-th selector.
pub open spec fn fold_sel(sels: Seq<SelectorV>, combs: Seq<char>, n: int) -> SelectorV
    decreases n,
{
    if n <= 1 {
        sels[0]
    } else {
        combine(comb_at(combs, n - 2), fold_sel(sels, combs, n - 1), sels[n - 1])
    }
}

/// The selector that selector text stands for, or `None` when it holds no
/// selector token.
pub open spec fn selector_of(s: Seq<char>) -> Option<SelectorV> {
    let (base, pseudo) = strip_pseudo(s);
    let tokens = split_ws(base);
    let (sels, combs) = sel_state(tokens, tokens.len() as int);
    if tokens.len() == 0 || sels.len() == 0 {
        None
    } else {
        let cur = fold_sel(sels, combs, sels.len() as int);
        match pseudo {
            Some(pe) => Some(SelectorV::WithPseudo(Box::new(cur), pe)),
            None => Some(cur),
        }
    }
}

/// The views of a list of selectors.
pub open spec fn selectors_view(v: Seq<Selector>) -> Seq<SelectorV> {
    v.map_values(|x: Selector| selector_view(x))
}

/// `a` and `b` joined by the combinator `c`.
fn combine_selectors(c: char, a: Selector, b: Selector) -> (r: Selector)
    ensures
        selector_view(r) == combine(c, selector_view(a), selector_view(b)),
{
    if c == '>' {
        Selector::Child(Box::new(a), Box::new(b))
    } else if c == '+' {
        Selector::AdjacentSibling(Box::new(a), Box::new(b))
    } else if c == '~' {
        Selector::GeneralSibling(Box::new(a), Box::new(b))
    } else {
        Selector::Descendant(Box::new(a), Box::new(b))
    }
}

/// Parses selector text such as `div.card > p::before` (see `selector_of`).
pub fn parse_selector(s: &str) -> (r: Option<Selector>)
    ensures
        match r {
            Some(x) => selector_of(s@) == Some(selector_view(x)),
            None => selector_of(s@) is None,
        },
{
    let chars = chars_of(s);
    let (base, pseudo) = strip_pseudo_element(&chars);
    let tokens = split_whitespace(&base);
    let ghost tv = vecs_view(tokens@);
    if tokens.len() == 0 {
        return None;
    }
    let mut sels: Vec<Selector> = Vec::new();
    let mut combs: Vec<char> = Vec::new();
    let mut k: usize = 0;
    while k < tokens.len()
        invariant
            k <= tokens@.len(),
            tv == vecs_view(tokens@),
            (selectors_view(sels@), combs@) == sel_state(tv, k as int),
        decreases tokens@.len() - k,
    {
        proof {
            reveal_strlit(">");
            reveal_strlit("+");
            reveal_strlit("~");
        }
        let t = &tokens[k];
        assert(tv[k as int] == t@);
        let ghost sv0 = selectors_view(sels@);
        let ghost cv0 = combs@;
        if eq_lit(t, ">") {
            combs.push('>');
        } else if eq_lit(t, "+") {
            combs.push('+');
        } else if eq_lit(t, "~") {
            combs.push('~');
        } else {
            if sels.len() > 0 && combs.len() < sels.len() {
                combs.push(' ');
            }
            let g = parse_simple_selector_group(t);
            let ghost gv = selector_view(g);
            sels.push(g);
            assert(selectors_view(sels@) =~= sv0.push(gv));
        }
        k = k + 1;
    }
    let ghost sv = selectors_view(sels@);
    let ghost cv = combs@;
    let n = sels.len();
    if n == 0 {
        return None;
    }
    let mut current = sels.remove(0);
    let mut i: usize = 1;
    assert(selectors_view(sels@) =~= sv.subrange(1, n as int));
    while i < n
        invariant
            1 <= i <= n == sv.len(),
            selector_view(current) == fold_sel(sv, cv, i as int),
            selectors_view(sels@) == sv.subrange(i as int, n as int),
            cv == combs@,
        decreases n - i,
    {
        let ghost rest = selectors_view(sels@);
        let ghost old_sels = sels@;
        assert(rest.len() == old_sels.len());
        assert(rest[0] == sv[i as int]);
        let next = sels.remove(0);
        assert(next == old_sels[0]);
        assert(sels@ == old_sels.subrange(1, old_sels.len() as int));
        assert(selectors_view(sels@) =~= sv.subrange(i + 1, n as int)) by {
            assert forall|j: int| 0 <= j < sels@.len() implies #[trigger] selectors_view(sels@)[j]
                == sv.subrange(i + 1, n as int)[j] by {
                assert(sels@[j] == old_sels[j + 1]);
                assert(rest[j + 1] == sv[i + 1 + j]);
            }
        }
        assert(selector_view(next) == rest[0]);
        let c = if i - 1 < combs.len() {
            combs[i - 1]
        } else {
            ' '
        };
        current = combine_selectors(c, current, next);
        i = i + 1;
    }
    match pseudo {
        Some(pe) => Some(Selector::WithPseudo(Box::new(current), pe)),
        None => Some(current),
    }
}

/// How many parts of a compound selector satisfy `f`.
pub open spec fn count_parts(parts: Seq<SimpleV>, f: spec_fn(SimpleV) -> bool) -> int
    decreases parts.len(),
{
    if parts.len() == 0 {
        0
    } else {
        count_parts(parts.drop_last(), f) + if f(parts.last()) {
            1int
        } else {
            0int
        }
    }
}

/// The specificity of a compound selector counts each tag 1, each class
/// and each attribute test 10 and each id 100: `div#main` has 101.
pub proof fn law_compound_specificity(parts: Seq<SimpleV>)
    ensures
        specificity(SelectorV::Compound(parts)) == count_parts(parts, |p: SimpleV| p is Tag) + 10 * (
        count_parts(parts, |p: SimpleV| p is Class) + count_parts(parts, |p: SimpleV| p is Attr)) + 100
            * count_parts(parts, |p: SimpleV| p is Id),
    decreases parts.len(),
{
    if parts.len() > 0 {
        law_compound_specificity(parts.drop_last());
    }
}

/// A compound selector of one part weighs what that part weighs alone:
/// `#x` and a compound made of the id `x` alone, `.c` and the class `c`
/// alone, and `t` and the tag `t` alone.
pub proof fn law_single_part_weighs_alone(v: Seq<char>)
    ensures
        specificity(SelectorV::Compound(seq![SimpleV::Id(v)])) == specificity(SelectorV::Id(v)),
        specificity(SelectorV::Compound(seq![SimpleV::Class(v)])) == specificity(SelectorV::Class(v)),
        specificity(SelectorV::Compound(seq![SimpleV::Tag(v)])) == specificity(SelectorV::Tag(v)),
{
    reveal_with_fuel(simples_weight, 2);
    assert(seq![SimpleV::Id(v)].drop_last() =~= Seq::<SimpleV>::empty());
    assert(seq![SimpleV::Class(v)].drop_last() =~= Seq::<SimpleV>::empty());
    assert(seq![SimpleV::Tag(v)].drop_last() =~= Seq::<SimpleV>::empty());
    assert(simples_weight(seq![SimpleV::Id(v)]) == 100);
    assert(simples_weight(seq![SimpleV::Class(v)]) == 10);
    assert(simples_weight(seq![SimpleV::Tag(v)]) == 1);
}

/// Combining two selectors adds their specificities, whatever the
/// combinator, and a pseudo-element adds 1; a tag with a class weighs
/// what the compound of that tag and that class weighs.
pub proof fn law_combined_specificity(a: SelectorV, b: SelectorV, t: Seq<char>, c: Seq<char>, pe: PseudoElement)
    ensures
        specificity(SelectorV::Descendant(Box::new(a), Box::new(b))) == specificity(a) + specificity(b),
        specificity(SelectorV::Child(Box::new(a), Box::new(b))) == specificity(a) + specificity(b),
        specificity(SelectorV::AdjacentSibling(Box::new(a), Box::new(b))) == specificity(a)
            + specificity(b),
        specificity(SelectorV::GeneralSibling(Box::new(a), Box::new(b))) == specificity(a)
            + specificity(b),
        specificity(SelectorV::WithPseudo(Box::new(a), pe)) == specificity(a) + 1,
        specificity(SelectorV::TagClass(t, c)) == specificity(
            SelectorV::Compound(seq![SimpleV::Tag(t), SimpleV::Class(c)]),
        ),
{
    reveal_with_fuel(simples_weight, 3);
    let parts = seq![SimpleV::Tag(t), SimpleV::Class(c)];
    assert(parts.drop_last() =~= seq![SimpleV::Tag(t)]);
    assert(seq![SimpleV::Tag(t)].drop_last() =~= Seq::<SimpleV>::empty());
}

} // verus!
