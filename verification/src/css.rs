//! CSS rules and declarations, built from the prelude and the declaration
//! list of a style rule.
use vstd::prelude::*;
use crate::selector::Selector;
use crate::selector::SelectorV;
use crate::selector::selector_of;
use crate::selector::selector_view;
use crate::selector::specificity;
use crate::selector::parse_selector;
use crate::selector::checked_specificity;
use crate::text::trim;
use crate::text::chars_of;
use crate::text::trim_chars;
use crate::text::copy_range;
use crate::text::string_from_chars;
use crate::text::lowercase;
use crate::text::to_lowercase;
use crate::text::ends_with;
use crate::text::ends_with_lit;

verus! {

broadcast use vstd::string::group_string_axioms;

/// One `property: value` declaration.
#[derive(Debug)]
pub struct Declaration {
    pub property: String,
    pub value: String,
}

/// A style rule: one selector, the declarations of its block, and the
/// selector's specificity.
#[derive(Debug)]
pub struct CssRule {
    pub selector: Selector,
    pub declarations: Vec<Declaration>,
    pub specificity: u32,
}

/// The model of a declaration.
pub open spec fn decl_view(d: Declaration) -> (Seq<char>, Seq<char>) {
    (d.property@, d.value@)
}

/// The model of a list of declarations.
pub open spec fn decls_view(v: Seq<Declaration>) -> Seq<(Seq<char>, Seq<char>)> {
    v.map_values(|d: Declaration| decl_view(d))
}

/// The model of a rule.
pub open spec fn rule_view(r: CssRule) -> (SelectorV, Seq<(Seq<char>, Seq<char>)>, u32) {
    (selector_view(r.selector), decls_view(r.declarations@), r.specificity)
}

/// The model of a list of rules.
pub open spec fn rules_view(v: Seq<CssRule>) -> Seq<(SelectorV, Seq<(Seq<char>, Seq<char>)>, u32)> {
    v.map_values(|r: CssRule| rule_view(r))
}

/// `s` with every trailing copy of `p` removed, as `str::trim_end_matches`
/// does with a string pattern.
pub open spec fn trim_end_seq(s: Seq<char>, p: Seq<char>) -> Seq<char>
    decreases s.len(),
{
    if p.len() > 0 && ends_with(s, p) {
        trim_end_seq(s.subrange(0, s.len() - p.len()), p)
    } else {
        s
    }
}

/// `v` with every trailing copy of `lit` removed.
fn trim_end_lit(v: &[char], lit: &str) -> (r: Vec<char>)
    ensures
        r@ == trim_end_seq(v@, lit@),
{
    let n = lit.unicode_len();
    let mut cur = copy_range(v, 0, v.len());
    assert(v@.subrange(0, v@.len() as int) == v@);
    if n == 0 {
        return cur;
    }
    while ends_with_lit(&cur, lit)
        invariant
            n == lit@.len() > 0,
            trim_end_seq(v@, lit@) == trim_end_seq(cur@, lit@),
        decreases cur@.len(),
    {
        let m = cur.len();
        cur = copy_range(&cur, 0, m - n);
    }
    cur
}

/// The declaration that a property name and its raw value text make: the
/// name lower-cased, the value trimmed and stripped of `!important` (or
/// `! important`).
pub open spec fn declaration_of(name: Seq<char>, raw: Seq<char>) -> (Seq<char>, Seq<char>) {
    (lowercase(name), trim(trim_end_seq(trim_end_seq(trim(raw), "!important"@), "! important"@)))
}

/// Builds the declaration for a property name and its raw value text (see
/// `declaration_of`).
pub fn declaration_from(name: &str, raw_value: &str) -> (d: Declaration)
    ensures
        decl_view(d) == declaration_of(name@, raw_value@),
{
    let v = trim_chars(&chars_of(raw_value));
    let v = trim_end_lit(&v, "!important");
    let v = trim_end_lit(&v, "! important");
    let v = trim_chars(&v);
    let p = to_lowercase(&chars_of(name));
    Declaration { property: string_from_chars(&p), value: string_from_chars(&v) }
}

/// A copy of a list of declarations.
pub fn clone_declarations(v: &Vec<Declaration>) -> (r: Vec<Declaration>)
    ensures
        decls_view(r@) == decls_view(v@),
{
    let mut out: Vec<Declaration> = Vec::new();
    let mut i: usize = 0;
    while i < v.len()
        invariant
            i <= v@.len(),
            decls_view(out@) == decls_view(v@.subrange(0, i as int)),
        decreases v@.len() - i,
    {
        let d = Declaration { property: v[i].property.clone(), value: v[i].value.clone() };
        let ghost before = decls_view(out@);
        out.push(d);
        assert(decls_view(out@) =~= before.push(decl_view(v@[i as int])));
        assert(decls_view(v@.subrange(0, i + 1)) =~= decls_view(v@.subrange(0, i as int)).push(
            decl_view(v@[i as int]),
        ));
        i = i + 1;
    }
    assert(v@.subrange(0, v@.len() as int) == v@);
    out
}

/// The pieces of `s` between occurrences of `c` from position `i`, `cur`
/// being the piece read so far (as `str::split` with a character gives
/// them, empty pieces included).
pub open spec fn split_char_from(s: Seq<char>, c: char, i: int, cur: Seq<char>) -> Seq<Seq<char>>
    decreases s.len() - i,
{
    if i < 0 || i >= s.len() {
        seq![cur]
    } else if s[i] == c {
        seq![cur] + split_char_from(s, c, i + 1, Seq::empty())
    } else {
        split_char_from(s, c, i + 1, cur.push(s[i]))
    }
}

/// The pieces of `s` between occurrences of `c`.
pub open spec fn split_char(s: Seq<char>, c: char) -> Seq<Seq<char>> {
    split_char_from(s, c, 0, Seq::empty())
}

/// The pieces of `v` between occurrences of `c`.
pub fn split_on_char(v: &[char], c: char) -> (r: Vec<Vec<char>>)
    ensures
        crate::text::vecs_view(r@) == split_char(v@, c),
{
    let mut out: Vec<Vec<char>> = Vec::new();
    let mut cur: Vec<char> = Vec::new();
    let mut i: usize = 0;
    while i < v.len()
        invariant
            i <= v@.len(),
            crate::text::vecs_view(out@) + split_char_from(v@, c, i as int, cur@) == split_char(
                v@,
                c,
            ),
        decreases v@.len() - i,
    {
        if v[i] == c {
            let ghost o = crate::text::vecs_view(out@);
            let ghost cv = cur@;
            out.push(cur);
            cur = Vec::new();
            assert(crate::text::vecs_view(out@) == o.push(cv));
            assert(o + (seq![cv] + split_char_from(v@, c, i + 1, Seq::empty())) =~= o.push(cv)
                + split_char_from(v@, c, i + 1, cur@));
        } else {
            cur.push(v[i]);
        }
        i = i + 1;
    }
    let ghost o = crate::text::vecs_view(out@);
    let ghost cv = cur@;
    out.push(cur);
    assert(crate::text::vecs_view(out@) =~= o + seq![cv]);
    out
}

/// The rules that one selector of a selector list gives: none when it is
/// blank, does not parse, or its specificity does not fit in a `u32`.
pub open spec fn rule_of_piece(piece: Seq<char>, decls: Seq<(Seq<char>, Seq<char>)>) -> Seq<
    (SelectorV, Seq<(Seq<char>, Seq<char>)>, u32),
> {
    let t = trim(piece);
    if t.len() == 0 {
        Seq::empty()
    } else {
        match selector_of(t) {
            Some(sel) => if specificity(sel) <= u32::MAX {
                seq![(sel, decls, specificity(sel) as u32)]
            } else {
                Seq::empty()
            },
            None => Seq::empty(),
        }
    }
}

/// The rules for the first `k` pieces of a selector list.
pub open spec fn rules_of_pieces(
    pieces: Seq<Seq<char>>,
    decls: Seq<(Seq<char>, Seq<char>)>,
    k: int,
) -> Seq<(SelectorV, Seq<(Seq<char>, Seq<char>)>, u32)>
    decreases k,
{
    if k <= 0 {
        Seq::empty()
    } else {
        rules_of_pieces(pieces, decls, k - 1) + rule_of_piece(pieces[k - 1], decls)
    }
}

/// The rules that a style rule's prelude (a comma-separated selector list)
/// and its declarations make: one rule per selector that parses, each with
/// all the declarations, in the order of the list.
pub open spec fn rules_of(prelude: Seq<char>, decls: Seq<(Seq<char>, Seq<char>)>) -> Seq<
    (SelectorV, Seq<(Seq<char>, Seq<char>)>, u32),
> {
    let pieces = split_char(prelude, ',');
    rules_of_pieces(pieces, decls, pieces.len() as int)
}

/// Builds the rules of one style rule from its prelude and declarations
/// (see `rules_of`).
pub fn rules_from_prelude(prelude: &str, declarations: &Vec<Declaration>) -> (r: Vec<CssRule>)
    ensures
        rules_view(r@) == rules_of(prelude@, decls_view(declarations@)),
{
    let pieces = split_on_char(&chars_of(prelude), ',');
    let ghost pv = crate::text::vecs_view(pieces@);
    let ghost dv = decls_view(declarations@);
    let mut out: Vec<CssRule> = Vec::new();
    let mut k: usize = 0;
    while k < pieces.len()
        invariant
            k <= pieces@.len(),
            pv == crate::text::vecs_view(pieces@),
            pv == split_char(prelude@, ','),
            dv == decls_view(declarations@),
            rules_view(out@) == rules_of_pieces(pv, dv, k as int),
        decreases pieces@.len() - k,
    {
        assert(pv[k as int] == pieces@[k as int]@);
        let t = trim_chars(&pieces[k]);
        let ghost before = rules_view(out@);
        if t.len() > 0 {
            let ts = string_from_chars(&t);
            match parse_selector(ts.as_str()) {
                Some(sel) => {
                    match checked_specificity(&sel) {
                        Some(sp) => {
                            let decls = clone_declarations(declarations);
                            let rule = CssRule { selector: sel, declarations: decls, specificity: sp };
                            let ghost rv = rule_view(rule);
                            out.push(rule);
                            assert(rules_view(out@) =~= before.push(rv));
                            assert(before.push(rv) =~= before + seq![rv]);
                        },
                        None => {
                            assert(before + Seq::empty() =~= before);
                        },
                    }
                },
                None => {
                    assert(before + Seq::empty() =~= before);
                },
            }
        } else {
            assert(before + Seq::empty() =~= before);
        }
        k = k + 1;
    }
    out
}

} // verus!
