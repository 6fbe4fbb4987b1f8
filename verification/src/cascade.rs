//! The cascade order: the declarations that reach an element, from the rules
//! whose selectors match it, in order of specificity (rules of equal
//! specificity in the order of the stylesheet), then those of its `style`
//! attribute.
use vstd::prelude::*;
use crate::css::CssRule;
use crate::css::Declaration;
use crate::css::decls_view;
use crate::css::rules_view;
use crate::css::clone_declarations;
use crate::matching::Document;
use crate::matching::selector_matches;
use crate::matching::matches_selector;
use crate::matching::element_at;
use crate::matching::attr_from;
use crate::matching::attr_value_exec;
use crate::selector::Selector;
use crate::selector::SelectorV;
use crate::selector::PseudoElement;
use crate::selector::selector_view;
use crate::sheet::DeclV;
use crate::sheet::RuleV;
use crate::sheet::decl_items;
use crate::sheet::parse_declarations;

verus! {

broadcast use vstd::string::group_string_axioms;

/// The rules among `rules[..k]` whose selectors match the node at `n`, as
/// (position, specificity) pairs in the order of the stylesheet.
pub open spec fn matching_rules(d: Seq<crate::matching::NodeV>, n: int, rules: Seq<RuleV>, k: int) -> Seq<
    (int, u32),
>
    decreases k,
{
    if k <= 0 || k > rules.len() {
        Seq::empty()
    } else if selector_matches(d, n, rules[k - 1].0) {
        matching_rules(d, n, rules, k - 1).push((k - 1, rules[k - 1].2))
    } else {
        matching_rules(d, n, rules, k - 1)
    }
}

/// `x` put into `s` after every entry whose specificity is at most its own.
pub open spec fn insert_by_specificity(s: Seq<(int, u32)>, x: (int, u32)) -> Seq<(int, u32)>
    decreases s.len(),
{
    if s.len() == 0 || s.last().1 <= x.1 {
        s.push(x)
    } else {
        insert_by_specificity(s.drop_last(), x).push(s.last())
    }
}

/// `s` sorted by specificity, entries of equal specificity keeping their
/// order (each entry inserted in turn after those not above it).
pub open spec fn sort_by_specificity(s: Seq<(int, u32)>) -> Seq<(int, u32)>
    decreases s.len(),
{
    if s.len() == 0 {
        s
    } else {
        insert_by_specificity(sort_by_specificity(s.drop_last()), s.last())
    }
}

/// The declarations of the rules at the positions listed in `order`, one
/// rule after another.
pub open spec fn decls_in_order(rules: Seq<RuleV>, order: Seq<(int, u32)>) -> Seq<DeclV>
    decreases order.len(),
{
    if order.len() == 0 {
        Seq::empty()
    } else {
        decls_in_order(rules, order.drop_last()) + rules[order.last().0].1
    }
}

/// The declarations of the `style` attribute of the node at `n`.
pub open spec fn inline_decls(d: Seq<crate::matching::NodeV>, n: int) -> Seq<DeclV> {
    match element_at(d, n) {
        Some(e) => match attr_from(e.attrs, "style"@, 0) {
            Some(s) => decl_items(s, 0),
            None => Seq::empty(),
        },
        None => Seq::empty(),
    }
}

/// The declarations that reach the node at `n`, in the order they apply:
/// those of the matching rules, sorted by specificity, then those of the
/// node's `style` attribute.
pub open spec fn cascade_decls(d: Seq<crate::matching::NodeV>, n: int, rules: Seq<RuleV>) -> Seq<
    DeclV,
> {
    decls_in_order(rules, sort_by_specificity(matching_rules(d, n, rules, rules.len() as int)))
        + inline_decls(d, n)
}

// ---------------------------------------------------------------------------
// Laws of the order
// ---------------------------------------------------------------------------
/// Entries sorted by specificity.
pub open spec fn sorted_by_specificity(s: Seq<(int, u32)>) -> bool {
    forall|i: int, j: int| 0 <= i < j < s.len() ==> s[i].1 <= s[j].1
}

/// Entries of equal specificity in increasing position.
pub open spec fn ties_in_order(s: Seq<(int, u32)>) -> bool {
    forall|i: int, j: int| 0 <= i < j < s.len() && s[i].1 == s[j].1 ==> s[i].0 < s[j].0
}

/// Positions increase along `s`.
pub open spec fn positions_increase(s: Seq<(int, u32)>) -> bool {
    forall|i: int, j: int| 0 <= i < j < s.len() ==> s[i].0 < s[j].0
}

proof fn lemma_insert_facts(s: Seq<(int, u32)>, x: (int, u32))
    requires
        sorted_by_specificity(s),
        ties_in_order(s),
        forall|i: int| 0 <= i < s.len() ==> s[i].0 < x.0,
    ensures
        sorted_by_specificity(insert_by_specificity(s, x)),
        ties_in_order(insert_by_specificity(s, x)),
        insert_by_specificity(s, x).to_multiset() == s.to_multiset().insert(x),
        insert_by_specificity(s, x).len() == s.len() + 1,
    decreases s.len(),
{
    broadcast use vstd::seq_lib::group_seq_properties;
    if s.len() == 0 || s.last().1 <= x.1 {
        let r = s.push(x);
        assert forall|i: int, j: int| 0 <= i < j < r.len() implies r[i].1 <= r[j].1 by {
            if j == r.len() - 1 && i < s.len() {
                assert(s[i].1 <= s[s.len() - 1].1);
            }
        }
    } else {
        let t = s.drop_last();
        let l = s.last();
        assert(sorted_by_specificity(t));
        assert(ties_in_order(t));
        lemma_insert_facts(t, x);
        let u = insert_by_specificity(t, x);
        let r = u.push(l);
        assert(s =~= t.push(l));
        assert forall|i: int| 0 <= i < u.len() implies u[i].1 <= l.1 by {
            assert(u.to_multiset().count(u[i]) > 0);
            assert(t.to_multiset().insert(x).count(u[i]) > 0);
            if u[i] != x {
                assert(t.to_multiset().count(u[i]) > 0);
                let k = t.index_of(u[i]);
                assert(t[k] == u[i]);
                assert(s[k].1 <= s[s.len() - 1].1);
            }
        }
        assert forall|i: int| 0 <= i < u.len() && u[i].1 == l.1 implies u[i].0 < l.0 by {
            assert(u.to_multiset().count(u[i]) > 0);
            assert(t.to_multiset().insert(x).count(u[i]) > 0);
            if u[i] != x {
                assert(t.to_multiset().count(u[i]) > 0);
                let k = t.index_of(u[i]);
                assert(t[k] == u[i]);
                assert(s[k].0 < s[s.len() - 1].0);
            }
        }
        assert(sorted_by_specificity(r));
        assert(ties_in_order(r));
        assert(r.to_multiset() == s.to_multiset().insert(x)) by {
            assert(s.to_multiset() == t.to_multiset().insert(l));
        }
    }
}

/// Sorting by specificity gives entries in nondecreasing specificity,
/// entries of equal specificity in the order they had, and the same
/// entries (when the positions increase along the input).
pub proof fn lemma_sort_by_specificity(s: Seq<(int, u32)>)
    requires
        positions_increase(s),
    ensures
        sorted_by_specificity(sort_by_specificity(s)),
        ties_in_order(sort_by_specificity(s)),
        sort_by_specificity(s).to_multiset() == s.to_multiset(),
        sort_by_specificity(s).len() == s.len(),
    decreases s.len(),
{
    broadcast use vstd::seq_lib::group_seq_properties;
    if s.len() > 0 {
        let t = s.drop_last();
        assert(positions_increase(t));
        lemma_sort_by_specificity(t);
        let st = sort_by_specificity(t);
        assert forall|i: int| 0 <= i < st.len() implies st[i].0 < s.last().0 by {
            assert(st.to_multiset().count(st[i]) > 0);
            assert(t.to_multiset().count(st[i]) > 0);
            let k = t.index_of(st[i]);
            assert(t[k] == st[i]);
            assert(s[k].0 < s[s.len() - 1].0);
        }
        lemma_insert_facts(st, s.last());
        assert(s =~= t.push(s.last()));
    }
}

/// The rules that match come in increasing position.
pub proof fn lemma_matching_positions(d: Seq<crate::matching::NodeV>, n: int, rules: Seq<RuleV>, k: int)
    requires
        0 <= k <= rules.len(),
    ensures
        positions_increase(matching_rules(d, n, rules, k)),
        forall|i: int|
            0 <= i < matching_rules(d, n, rules, k).len() ==> 0 <= #[trigger] matching_rules(
                d,
                n,
                rules,
                k,
            )[i].0 < k,
    decreases k,
{
    if k > 0 {
        lemma_matching_positions(d, n, rules, k - 1);
    }
}

/// The cascade applies the matching rules in nondecreasing specificity,
/// rules of equal specificity in the order of the stylesheet, each matching
/// rule once.
pub proof fn lemma_cascade_order(d: Seq<crate::matching::NodeV>, n: int, rules: Seq<RuleV>)
    ensures
        sorted_by_specificity(sort_by_specificity(matching_rules(d, n, rules, rules.len() as int))),
        ties_in_order(sort_by_specificity(matching_rules(d, n, rules, rules.len() as int))),
        sort_by_specificity(matching_rules(d, n, rules, rules.len() as int)).to_multiset()
            == matching_rules(d, n, rules, rules.len() as int).to_multiset(),
{
    lemma_matching_positions(d, n, rules, rules.len() as int);
    lemma_sort_by_specificity(matching_rules(d, n, rules, rules.len() as int));
}


// ---------------------------------------------------------------------------
// Computing the order
// ---------------------------------------------------------------------------
/// The model of a list of (position, specificity) pairs.
pub open spec fn pairs_view(v: Seq<(usize, u32)>) -> Seq<(int, u32)> {
    v.map_values(|p: (usize, u32)| (p.0 as int, p.1))
}

/// Puts `x` after every entry whose specificity is at most its own (see
/// `insert_by_specificity`).
fn insert_sorted(s: &mut Vec<(usize, u32)>, x: (usize, u32))
    ensures
        pairs_view(final(s)@) == insert_by_specificity(pairs_view(old(s)@), (x.0 as int, x.1)),
        exists|p: int| 0 <= p <= old(s)@.len() && final(s)@ == old(s)@.insert(p, x),
{
    let ghost sv = pairs_view(s@);
    let ghost xv = (x.0 as int, x.1);
    let mut j = s.len();
    assert(sv.subrange(0, j as int) =~= sv);
    assert(sv.subrange(j as int, sv.len() as int) =~= Seq::<(int, u32)>::empty());
    while j > 0 && s[j - 1].1 > x.1
        invariant
            j <= s@.len(),
            sv == pairs_view(s@),
            xv == (x.0 as int, x.1),
            insert_by_specificity(sv, xv) == insert_by_specificity(sv.subrange(0, j as int), xv)
                + sv.subrange(j as int, sv.len() as int),
        decreases j,
    {
        let ghost t = sv.subrange(0, j as int);
        assert(t.drop_last() =~= sv.subrange(0, j - 1));
        assert(t.last() == sv[j - 1]);
        assert(sv.subrange(j - 1, sv.len() as int) =~= seq![sv[j - 1]] + sv.subrange(
            j as int,
            sv.len() as int,
        ));
        assert(insert_by_specificity(sv.subrange(0, j - 1), xv).push(sv[j - 1]) + sv.subrange(
            j as int,
            sv.len() as int,
        ) =~= insert_by_specificity(sv.subrange(0, j - 1), xv) + sv.subrange(
            j - 1,
            sv.len() as int,
        ));
        j = j - 1;
    }
    let ghost before = s@;
    s.insert(j, x);
    assert(pairs_view(s@) =~= sv.subrange(0, j as int).push(xv) + sv.subrange(
        j as int,
        sv.len() as int,
    ));
}

/// The declarations that reach the node at `n`, in the order they apply
/// (see `cascade_decls`).
pub fn cascade_declarations(doc: &Document, n: usize, rules: &[CssRule]) -> (r: Vec<Declaration>)
    ensures
        decls_view(r@) == cascade_decls(doc.view(), n as int, rules_view(rules@)),
{
    let ghost rv = rules_view(rules@);
    let mut m: Vec<(usize, u32)> = Vec::new();
    let mut k: usize = 0;
    assert(pairs_view(m@) =~= Seq::<(int, u32)>::empty());
    while k < rules.len()
        invariant
            k <= rules@.len(),
            rv == rules_view(rules@),
            pairs_view(m@) == matching_rules(doc.view(), n as int, rv, k as int),
            forall|i: int| 0 <= i < m@.len() ==> (#[trigger] m@[i]).0 < k,
        decreases rules@.len() - k,
    {
        let ghost before = pairs_view(m@);
        if matches_selector(doc, n, &rules[k].selector) {
            m.push((k, rules[k].specificity));
            assert(pairs_view(m@) =~= before.push((k as int, rules@[k as int].specificity)));
        }
        k = k + 1;
    }
    let mut sorted: Vec<(usize, u32)> = Vec::new();
    let mut i: usize = 0;
    assert(pairs_view(sorted@) =~= Seq::<(int, u32)>::empty());
    assert(pairs_view(m@).subrange(0, 0) =~= Seq::<(int, u32)>::empty());
    while i < m.len()
        invariant
            i <= m@.len(),
            pairs_view(sorted@) == sort_by_specificity(pairs_view(m@).subrange(0, i as int)),
            forall|j: int| 0 <= j < m@.len() ==> (#[trigger] m@[j]).0 < rules@.len(),
            forall|j: int| 0 <= j < sorted@.len() ==> (#[trigger] sorted@[j]).0 < rules@.len(),
        decreases m@.len() - i,
    {
        let x = m[i];
        let ghost before = sorted@;
        insert_sorted(&mut sorted, x);
        proof {
            let p = choose|p: int| 0 <= p <= before.len() && sorted@ == before.insert(p, x);
            assert forall|j: int| 0 <= j < sorted@.len() implies (#[trigger] sorted@[j]).0
                < rules@.len() by {
                if j < p {
                    assert(sorted@[j] == before[j]);
                } else if j > p {
                    assert(sorted@[j] == before[j - 1]);
                }
            }
            assert(pairs_view(m@).subrange(0, i + 1).drop_last() =~= pairs_view(m@).subrange(
                0,
                i as int,
            ));
        }
        i = i + 1;
    }
    assert(pairs_view(m@).subrange(0, m@.len() as int) =~= pairs_view(m@));
    let mut out: Vec<Declaration> = Vec::new();
    let mut t: usize = 0;
    let ghost sv = pairs_view(sorted@);
    assert(decls_view(out@) =~= Seq::<DeclV>::empty());
    assert(sv.subrange(0, 0) =~= Seq::<(int, u32)>::empty());
    while t < sorted.len()
        invariant
            t <= sorted@.len(),
            sv == pairs_view(sorted@),
            rv == rules_view(rules@),
            forall|j: int| 0 <= j < sorted@.len() ==> (#[trigger] sorted@[j]).0 < rules@.len(),
            decls_view(out@) == decls_in_order(rv, sv.subrange(0, t as int)),
        decreases sorted@.len() - t,
    {
        let idx = sorted[t].0;
        let mut ds = clone_declarations(&rules[idx].declarations);
        let ghost before = out@;
        let ghost added = ds@;
        out.append(&mut ds);
        proof {
            assert(decls_view(out@) =~= decls_view(before) + decls_view(added));
            assert(sv.subrange(0, t + 1).drop_last() =~= sv.subrange(0, t as int));
            assert(sv.subrange(0, t + 1).last() == sv[t as int]);
            assert(rv[idx as int].1 == decls_view(rules@[idx as int].declarations@));
        }
        t = t + 1;
    }
    assert(sv.subrange(0, sv.len() as int) =~= sv);
    let style_name = String::from_str("style");
    proof {
        reveal_strlit("style");
    }
    match attr_value_exec(doc, n, &style_name) {
        Some(st) => {
            let mut inl = parse_declarations(st.as_str());
            let ghost before = out@;
            let ghost added = inl@;
            out.append(&mut inl);
            assert(decls_view(out@) =~= decls_view(before) + decls_view(added));
        },
        None => {
            assert(decls_view(out@) + Seq::<DeclV>::empty() =~= decls_view(out@));
        },
    }
    out
}


// ---------------------------------------------------------------------------
// Pseudo-elements
// ---------------------------------------------------------------------------
/// Whether a rule's selector is `base::pe` (for the given pseudo-element)
/// with `base` matching the node at `n`.
pub open spec fn pseudo_rule_matches(d: Seq<crate::matching::NodeV>, n: int, s: SelectorV, pe: PseudoElement) -> bool {
    match s {
        SelectorV::WithPseudo(base, p) => p == pe && selector_matches(d, n, *base),
        _ => false,
    }
}

/// The declarations of the rules among `rules[..k]` that give the node at
/// `n` the pseudo-element `pe`, rule after rule in the order of the
/// stylesheet.
pub open spec fn pseudo_decls_upto(d: Seq<crate::matching::NodeV>, n: int, rules: Seq<RuleV>, pe: PseudoElement, k: int) -> Seq<DeclV>
    decreases k,
{
    if k <= 0 || k > rules.len() {
        Seq::empty()
    } else if pseudo_rule_matches(d, n, rules[k - 1].0, pe) {
        pseudo_decls_upto(d, n, rules, pe, k - 1) + rules[k - 1].1
    } else {
        pseudo_decls_upto(d, n, rules, pe, k - 1)
    }
}

/// Whether some rule gives the node at `n` the pseudo-element `pe`.
pub open spec fn has_pseudo_rule(d: Seq<crate::matching::NodeV>, n: int, rules: Seq<RuleV>, pe: PseudoElement) -> bool {
    exists|i: int| 0 <= i < rules.len() && pseudo_rule_matches(d, n, #[trigger] rules[i].0, pe)
}

/// The declarations that style the pseudo-element `pe` of the node at `n`:
/// those of the rules for it, in the order of the stylesheet, or `None` when
/// no rule is for it.
pub fn pseudo_declarations(doc: &Document, n: usize, rules: &[CssRule], pe: PseudoElement) -> (r: Option<Vec<Declaration>>)
    ensures
        match r {
            Some(v) => has_pseudo_rule(doc.view(), n as int, rules_view(rules@), pe) && decls_view(v@)
                == pseudo_decls_upto(doc.view(), n as int, rules_view(rules@), pe, rules@.len() as int),
            None => !has_pseudo_rule(doc.view(), n as int, rules_view(rules@), pe),
        },
{
    let ghost rv = rules_view(rules@);
    let mut out: Vec<Declaration> = Vec::new();
    let mut any = false;
    let mut k: usize = 0;
    assert(decls_view(out@) =~= Seq::<DeclV>::empty());
    while k < rules.len()
        invariant
            k <= rules@.len(),
            rv == rules_view(rules@),
            decls_view(out@) == pseudo_decls_upto(doc.view(), n as int, rv, pe, k as int),
            any == exists|i: int| 0 <= i < k && pseudo_rule_matches(doc.view(), n as int, #[trigger] rv[i].0, pe),
        decreases rules@.len() - k,
    {
        assert(rv[k as int].0 == selector_view(rules@[k as int].selector));
        let hit = match &rules[k].selector {
            Selector::WithPseudo(base, p) => {
                assert(selector_view(rules@[k as int].selector) == SelectorV::WithPseudo(
                    Box::new(selector_view(**base)),
                    *p,
                ));
                *p == pe && matches_selector(doc, n, base)
            },
            _ => false,
        };
        assert(hit == pseudo_rule_matches(doc.view(), n as int, rv[k as int].0, pe));
        if hit {
            let mut ds = clone_declarations(&rules[k].declarations);
            let ghost before = out@;
            let ghost added = ds@;
            out.append(&mut ds);
            assert(decls_view(out@) =~= decls_view(before) + decls_view(added));
            any = true;
        }
        k = k + 1;
    }
    if any {
        Some(out)
    } else {
        None
    }
}

} // verus!
