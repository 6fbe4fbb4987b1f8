//! Selector matching against a document: nodes by index, each with its
//! parent, its children and, for an element, what selectors read of it
//! (tag name, id, classes, attributes).
use vstd::prelude::*;
use crate::selector::Selector;
use crate::selector::SelectorV;
use crate::selector::SimpleSelector;
use crate::selector::SimpleV;
use crate::selector::AttrMatch;
use crate::selector::AttrMatchV;
use crate::selector::selector_view;
use crate::selector::simple_view;
use crate::selector::simples_view;
use crate::selector::attr_match_view;
use crate::html::ascii_lower_seq;
use crate::html::ascii_lowercase;
use crate::text::starts_with;
use crate::text::ends_with;
use crate::text::contains_seq;
use crate::text::chars_of;
use crate::text::starts_with_lit;
use crate::text::ends_with_lit;
use crate::text::contains_lit;

verus! {

broadcast use vstd::string::group_string_axioms;

/// Ancestor and sibling walks look at most this many nodes.
pub const MAX_DOM_DEPTH: usize = 256;

/// What selectors read of an element.
pub struct ElementData {
    pub tag: String,
    pub id: Option<String>,
    pub classes: Vec<String>,
    pub attrs: Vec<(String, String)>,
}

/// A node of a document: an element or another kind of node (`None`), the
/// contents of a text node, its parent and its children, by index into the
/// document.
pub struct DomNode {
    pub element: Option<ElementData>,
    pub text: Option<String>,
    pub parent: Option<usize>,
    pub children: Vec<usize>,
}

/// A document: its nodes. An index that names no node stands for a node
/// that is gone.
pub struct Document {
    pub nodes: Vec<DomNode>,
}

/// The model of an element.
pub struct ElementV {
    pub tag: Seq<char>,
    pub id: Option<Seq<char>>,
    pub classes: Seq<Seq<char>>,
    pub attrs: Seq<(Seq<char>, Seq<char>)>,
}

/// The model of a node.
pub struct NodeV {
    pub element: Option<ElementV>,
    pub text: Option<Seq<char>>,
    pub parent: Option<int>,
    pub children: Seq<int>,
}

/// The model of an element.
pub open spec fn element_view(e: ElementData) -> ElementV {
    ElementV {
        tag: e.tag@,
        id: match e.id {
            Some(i) => Some(i@),
            None => None,
        },
        classes: e.classes@.map_values(|c: String| c@),
        attrs: e.attrs@.map_values(|a: (String, String)| (a.0@, a.1@)),
    }
}

/// The model of a node.
pub open spec fn node_view(n: DomNode) -> NodeV {
    NodeV {
        element: match n.element {
            Some(e) => Some(element_view(e)),
            None => None,
        },
        text: match n.text {
            Some(t) => Some(t@),
            None => None,
        },
        parent: match n.parent {
            Some(p) => Some(p as int),
            None => None,
        },
        children: n.children@.map_values(|c: usize| c as int),
    }
}

impl Document {
    /// The model of the document: its nodes.
    pub open spec fn view(&self) -> Seq<NodeV> {
        self.nodes@.map_values(|n: DomNode| node_view(n))
    }
}

/// The element at index `n`, if `n` names an element.
pub open spec fn element_at(d: Seq<NodeV>, n: int) -> Option<ElementV> {
    if 0 <= n < d.len() {
        d[n].element
    } else {
        None
    }
}

/// The parent of the node at `n`.
pub open spec fn parent_at(d: Seq<NodeV>, n: int) -> Option<int> {
    if 0 <= n < d.len() {
        d[n].parent
    } else {
        None
    }
}

/// The value of the first attribute named `name`.
pub open spec fn attr_from(attrs: Seq<(Seq<char>, Seq<char>)>, name: Seq<char>, k: int) -> Option<
    Seq<char>,
>
    decreases attrs.len() - k,
{
    if k < 0 || k >= attrs.len() {
        None
    } else if attrs[k].0 == name {
        Some(attrs[k].1)
    } else {
        attr_from(attrs, name, k + 1)
    }
}

/// Whether the node at `n` is an element with the tag `tag` (ASCII letters
/// in any case).
pub open spec fn tag_is(d: Seq<NodeV>, n: int, tag: Seq<char>) -> bool {
    match element_at(d, n) {
        Some(e) => ascii_lower_seq(e.tag) == ascii_lower_seq(tag),
        None => false,
    }
}

/// Whether the node at `n` is an element with the class `c`.
pub open spec fn has_class(d: Seq<NodeV>, n: int, c: Seq<char>) -> bool {
    match element_at(d, n) {
        Some(e) => e.classes.contains(c),
        None => false,
    }
}

/// Whether the node at `n` is an element with the id `i`.
pub open spec fn id_is(d: Seq<NodeV>, n: int, i: Seq<char>) -> bool {
    match element_at(d, n) {
        Some(e) => e.id == Some(i),
        None => false,
    }
}

/// Whether the node at `n` has an attribute `name` whose value the match
/// accepts.
pub open spec fn attr_matches(d: Seq<NodeV>, n: int, name: Seq<char>, m: AttrMatchV) -> bool {
    let v = match element_at(d, n) {
        Some(e) => attr_from(e.attrs, name, 0),
        None => None,
    };
    match v {
        None => false,
        Some(val) => match m {
            AttrMatchV::Exists => true,
            AttrMatchV::Exact(x) => val == x,
            AttrMatchV::Prefix(x) => starts_with(val, x),
            AttrMatchV::Suffix(x) => ends_with(val, x),
            AttrMatchV::Contains(x) => contains_seq(val, x),
        },
    }
}

/// Whether the node at `n` satisfies one part of a compound selector.
pub open spec fn simple_matches(d: Seq<NodeV>, n: int, s: SimpleV) -> bool {
    match s {
        SimpleV::Tag(t) => tag_is(d, n, t),
        SimpleV::Class(c) => has_class(d, n, c),
        SimpleV::Id(i) => id_is(d, n, i),
        SimpleV::Attr(name, m) => attr_matches(d, n, name, m),
    }
}

/// Whether the node at `n` satisfies every part of a compound selector.
pub open spec fn all_simple_match(d: Seq<NodeV>, n: int, parts: Seq<SimpleV>) -> bool {
    forall|k: int| 0 <= k < parts.len() ==> simple_matches(d, n, #[trigger] parts[k])
}

/// The element among `kids[k..]` seen last before `n` (`prev` before
/// `kids[k]`), or `None` when `n` is not among them.
pub open spec fn prev_element_from(d: Seq<NodeV>, kids: Seq<int>, n: int, k: int, prev: Option<
    int,
>) -> Option<int>
    decreases kids.len() - k,
{
    if k < 0 || k >= kids.len() {
        None
    } else if kids[k] == n {
        prev
    } else if element_at(d, kids[k]) is Some {
        prev_element_from(d, kids, n, k + 1, Some(kids[k]))
    } else {
        prev_element_from(d, kids, n, k + 1, prev)
    }
}

/// The element just before the node at `n` among its parent's children.
pub open spec fn prev_element_sibling(d: Seq<NodeV>, n: int) -> Option<int> {
    match parent_at(d, n) {
        Some(p) => if 0 <= p < d.len() {
            prev_element_from(d, d[p].children, n, 0, None)
        } else {
            None
        },
        None => None,
    }
}

/// Whether the node at `n` matches the selector `s`. A pseudo-element
/// selector never matches; `a b` needs an ancestor matching `a` within
/// `MAX_DOM_DEPTH` levels, `a > b` the parent, `a + b` the element just
/// before, and `a ~ b` one of the `MAX_DOM_DEPTH` elements before.
pub open spec fn selector_matches(d: Seq<NodeV>, n: int, s: SelectorV) -> bool
    decreases s, 0int,
{
    match s {
        SelectorV::Universal => element_at(d, n) is Some,
        SelectorV::Tag(t) => tag_is(d, n, t),
        SelectorV::Class(c) => has_class(d, n, c),
        SelectorV::Id(i) => id_is(d, n, i),
        SelectorV::TagClass(t, c) => tag_is(d, n, t) && has_class(d, n, c),
        SelectorV::Compound(parts) => all_simple_match(d, n, parts),
        SelectorV::WithPseudo(_, _) => false,
        SelectorV::Descendant(a, c) => selector_matches(d, n, *c) && ancestor_matches(
            d,
            parent_at(d, n),
            *a,
            0,
        ),
        SelectorV::Child(p, c) => selector_matches(d, n, *c) && match parent_at(d, n) {
            Some(q) => 0 <= q < d.len() && selector_matches(d, q, *p),
            None => false,
        },
        SelectorV::AdjacentSibling(p, c) => selector_matches(d, n, *c) && match prev_element_sibling(
            d,
            n,
        ) {
            Some(q) => selector_matches(d, q, *p),
            None => false,
        },
        SelectorV::GeneralSibling(p, c) => selector_matches(d, n, *c) && sibling_matches(
            d,
            prev_element_sibling(d, n),
            *p,
            0,
        ),
    }
}

/// Whether the ancestor `cur` (reached after `depth` steps) or one above
/// it, within `MAX_DOM_DEPTH` steps in all, matches `a`.
pub open spec fn ancestor_matches(d: Seq<NodeV>, cur: Option<int>, a: SelectorV, depth: int) -> bool
    decreases a, MAX_DOM_DEPTH + 1 - depth,
{
    match cur {
        None => false,
        Some(q) => if depth < 0 || depth >= MAX_DOM_DEPTH || !(0 <= q < d.len()) {
            false
        } else {
            selector_matches(d, q, a) || ancestor_matches(d, parent_at(d, q), a, depth + 1)
        },
    }
}

/// Whether the element `cur` (reached after `count` steps back) or one
/// before it, within `MAX_DOM_DEPTH` steps in all, matches `a`.
pub open spec fn sibling_matches(d: Seq<NodeV>, cur: Option<int>, a: SelectorV, count: int) -> bool
    decreases a, MAX_DOM_DEPTH + 1 - count,
{
    match cur {
        None => false,
        Some(q) => if count < 0 || count >= MAX_DOM_DEPTH {
            false
        } else {
            selector_matches(d, q, a) || sibling_matches(d, prev_element_sibling(d, q), a, count + 1)
        },
    }
}


// ---------------------------------------------------------------------------
// Matching
// ---------------------------------------------------------------------------
/// The model of the node at `n` is the node's model.
pub(crate) proof fn lemma_node_at(doc: &Document, n: usize)
    requires
        n < doc.nodes@.len(),
    ensures
        doc.view().len() == doc.nodes@.len(),
        doc.view()[n as int] == node_view(doc.nodes@[n as int]),
{
}

/// The number of selector constructors in `s`.
pub open spec fn selector_size(s: SelectorV) -> nat
    decreases s,
{
    match s {
        SelectorV::Descendant(a, c) => 1 + selector_size(*a) + selector_size(*c),
        SelectorV::Child(a, c) => 1 + selector_size(*a) + selector_size(*c),
        SelectorV::AdjacentSibling(a, c) => 1 + selector_size(*a) + selector_size(*c),
        SelectorV::GeneralSibling(a, c) => 1 + selector_size(*a) + selector_size(*c),
        SelectorV::WithPseudo(b, _) => 1 + selector_size(*b),
        _ => 1,
    }
}

fn chars_equal(a: &[char], b: &[char]) -> (r: bool)
    ensures
        r == (a@ == b@),
{
    if a.len() != b.len() {
        return false;
    }
    let mut i: usize = 0;
    while i < a.len()
        invariant
            a.len() == b.len(),
            i <= a.len(),
            forall|k: int| 0 <= k < i ==> a@[k] == b@[k],
        decreases a.len() - i,
    {
        if a[i] != b[i] {
            return false;
        }
        i = i + 1;
    }
    assert(a@ =~= b@);
    true
}

fn parent_of(doc: &Document, n: usize) -> (r: Option<usize>)
    ensures
        match r {
            Some(x) => parent_at(doc.view(), n as int) == Some(x as int),
            None => parent_at(doc.view(), n as int) is None,
        },
{
    if n < doc.nodes.len() {
        proof {
            lemma_node_at(doc, n);
        }
        doc.nodes[n].parent
    } else {
        None
    }
}

fn is_element(doc: &Document, n: usize) -> (b: bool)
    ensures
        b == (element_at(doc.view(), n as int) is Some),
{
    if n >= doc.nodes.len() {
        return false;
    }
    proof {
        lemma_node_at(doc, n);
    }
    doc.nodes[n].element.is_some()
}

pub(crate) fn tag_is_exec(doc: &Document, n: usize, tag: &String) -> (b: bool)
    ensures
        b == tag_is(doc.view(), n as int, tag@),
{
    if n >= doc.nodes.len() {
        return false;
    }
    proof {
        lemma_node_at(doc, n);
    }
    match &doc.nodes[n].element {
        Some(e) => chars_equal(
            &ascii_lowercase(&chars_of(e.tag.as_str())),
            &ascii_lowercase(&chars_of(tag.as_str())),
        ),
        None => false,
    }
}

#[verifier::loop_isolation(false)]
fn has_class_exec(doc: &Document, n: usize, c: &String) -> (b: bool)
    ensures
        b == has_class(doc.view(), n as int, c@),
{
    if n >= doc.nodes.len() {
        return false;
    }
    proof {
        lemma_node_at(doc, n);
    }
    match &doc.nodes[n].element {
        Some(e) => {
            let ghost cv = e.classes@.map_values(|x: String| x@);
            let mut k: usize = 0;
            while k < e.classes.len()
                invariant
                    k <= e.classes@.len(),
                    cv == e.classes@.map_values(|x: String| x@),
                    forall|j: int| 0 <= j < k ==> cv[j] != c@,
                decreases e.classes@.len() - k,
            {
                if e.classes[k] == *c {
                    assert(cv[k as int] == c@);
                    return true;
                }
                k = k + 1;
            }
            false
        },
        None => false,
    }
}

fn id_is_exec(doc: &Document, n: usize, i: &String) -> (b: bool)
    ensures
        b == id_is(doc.view(), n as int, i@),
{
    if n >= doc.nodes.len() {
        return false;
    }
    proof {
        lemma_node_at(doc, n);
    }
    match &doc.nodes[n].element {
        Some(e) => match &e.id {
            Some(x) => *x == *i,
            None => false,
        },
        None => false,
    }
}

#[verifier::loop_isolation(false)]
pub(crate) fn attr_value_exec<'a>(doc: &'a Document, n: usize, name: &String) -> (r: Option<&'a String>)
    ensures
        match element_at(doc.view(), n as int) {
            Some(e) => match attr_from(e.attrs, name@, 0) {
                Some(v) => r is Some && r->0@ == v,
                None => r is None,
            },
            None => r is None,
        },
{
    if n >= doc.nodes.len() {
        return None;
    }
    proof {
        lemma_node_at(doc, n);
    }
    match &doc.nodes[n].element {
        Some(e) => {
            let ghost av = e.attrs@.map_values(|a: (String, String)| (a.0@, a.1@));
            let mut k: usize = 0;
            while k < e.attrs.len()
                invariant
                    k <= e.attrs@.len(),
                    av == e.attrs@.map_values(|a: (String, String)| (a.0@, a.1@)),
                    attr_from(av, name@, k as int) == attr_from(av, name@, 0),
                decreases e.attrs@.len() - k,
            {
                if e.attrs[k].0 == *name {
                    return Some(&e.attrs[k].1);
                }
                k = k + 1;
            }
            None
        },
        None => None,
    }
}

fn attr_matches_exec(doc: &Document, n: usize, name: &String, m: &AttrMatch) -> (b: bool)
    ensures
        b == attr_matches(doc.view(), n as int, name@, attr_match_view(*m)),
{
    match attr_value_exec(doc, n, name) {
        None => false,
        Some(val) => match m {
            AttrMatch::Exists => true,
            AttrMatch::Exact(x) => *val == *x,
            AttrMatch::Prefix(x) => starts_with_lit(&chars_of(val.as_str()), x.as_str()),
            AttrMatch::Suffix(x) => ends_with_lit(&chars_of(val.as_str()), x.as_str()),
            AttrMatch::Contains(x) => contains_lit(&chars_of(val.as_str()), x.as_str()),
        },
    }
}

fn simple_matches_exec(doc: &Document, n: usize, s: &SimpleSelector) -> (b: bool)
    ensures
        b == simple_matches(doc.view(), n as int, simple_view(*s)),
{
    match s {
        SimpleSelector::Tag(t) => tag_is_exec(doc, n, t),
        SimpleSelector::Class(c) => has_class_exec(doc, n, c),
        SimpleSelector::Id(i) => id_is_exec(doc, n, i),
        SimpleSelector::Attr(name, m) => attr_matches_exec(doc, n, name, m),
    }
}

/// The element just before the node at `n` among its parent's children
/// (see `prev_element_sibling`).
#[verifier::loop_isolation(false)]
pub fn prev_sibling_element(doc: &Document, n: usize) -> (r: Option<usize>)
    ensures
        match r {
            Some(x) => prev_element_sibling(doc.view(), n as int) == Some(x as int),
            None => prev_element_sibling(doc.view(), n as int) is None,
        },
{
    let p = match parent_of(doc, n) {
        Some(p) => p,
        None => return None,
    };
    if p >= doc.nodes.len() {
        return None;
    }
    proof {
        lemma_node_at(doc, p);
    }
    let kids = &doc.nodes[p].children;
    let ghost kv = kids@.map_values(|c: usize| c as int);
    assert(doc.view()[p as int].children == kv);
    let mut prev: Option<usize> = None;
    let mut k: usize = 0;
    while k < kids.len()
        invariant
            k <= kids@.len(),
            kv == kids@.map_values(|c: usize| c as int),
            prev_element_from(
                doc.view(),
                kv,
                n as int,
                k as int,
                match prev {
                    Some(x) => Some(x as int),
                    None => None,
                },
            ) == prev_element_from(doc.view(), kv, n as int, 0, None),
            prev matches Some(x) ==> x >= 0,
        decreases kids@.len() - k,
    {
        let c = kids[k];
        if c == n {
            return prev;
        }
        if is_element(doc, c) {
            prev = Some(c);
        }
        k = k + 1;
    }
    None
}

/// Whether the node at `n` matches the selector (see `selector_matches`).
#[verifier::loop_isolation(false)]
pub fn matches_selector(doc: &Document, n: usize, sel: &Selector) -> (b: bool)
    ensures
        b == selector_matches(doc.view(), n as int, selector_view(*sel)),
    decreases selector_size(selector_view(*sel)),
{
    match sel {
        Selector::Universal => {
            assert(selector_view(*sel) == SelectorV::Universal);
            is_element(doc, n)
        },
        Selector::Tag(t) => tag_is_exec(doc, n, t),
        Selector::Class(c) => has_class_exec(doc, n, c),
        Selector::Id(i) => id_is_exec(doc, n, i),
        Selector::TagClass(t, c) => tag_is_exec(doc, n, t) && has_class_exec(doc, n, c),
        Selector::Compound(parts) => {
            assert(selector_view(*sel) == SelectorV::Compound(crate::selector::simples_view(parts@)));
            let ghost pv = crate::selector::simples_view(parts@);
            let mut k: usize = 0;
            while k < parts.len()
                invariant
                    k <= parts@.len(),
                    pv == crate::selector::simples_view(parts@),
                    forall|j: int| 0 <= j < k ==> simple_matches(doc.view(), n as int, #[trigger] pv[j]),
                decreases parts@.len() - k,
            {
                if !simple_matches_exec(doc, n, &parts[k]) {
                    assert(pv[k as int] == simple_view(parts@[k as int]));
                    assert(!simple_matches(doc.view(), n as int, pv[k as int]));
                    assert(!(forall|j: int|
                        0 <= j < pv.len() ==> simple_matches(doc.view(), n as int, #[trigger] pv[j])));
                    return false;
                }
                k = k + 1;
            }
            true
        },
        Selector::WithPseudo(_, _) => false,
        Selector::Descendant(a, c) => {
            assert(selector_view(*sel) == SelectorV::Descendant(
                Box::new(selector_view(**a)),
                Box::new(selector_view(**c)),
            ));
            if !matches_selector(doc, n, c) {
                return false;
            }
            let ghost av = selector_view(**a);
            let mut cur = parent_of(doc, n);
            let mut depth: usize = 0;
            while depth < MAX_DOM_DEPTH
                invariant
                    depth <= MAX_DOM_DEPTH,
                    av == selector_view(**a),
                    ancestor_matches(
                        doc.view(),
                        match cur {
                            Some(x) => Some(x as int),
                            None => None,
                        },
                        av,
                        depth as int,
                    ) == ancestor_matches(doc.view(), parent_at(doc.view(), n as int), av, 0),
                decreases MAX_DOM_DEPTH - depth,
            {
                match cur {
                    None => return false,
                    Some(q) => {
                        if q >= doc.nodes.len() {
                            return false;
                        }
                        if matches_selector(doc, q, a) {
                            return true;
                        }
                        cur = parent_of(doc, q);
                        depth = depth + 1;
                    },
                }
            }
            false
        },
        Selector::Child(p, c) => {
            assert(selector_view(*sel) == SelectorV::Child(
                Box::new(selector_view(**p)),
                Box::new(selector_view(**c)),
            ));
            if !matches_selector(doc, n, c) {
                return false;
            }
            match parent_of(doc, n) {
                Some(q) => q < doc.nodes.len() && matches_selector(doc, q, p),
                None => false,
            }
        },
        Selector::AdjacentSibling(p, c) => {
            assert(selector_view(*sel) == SelectorV::AdjacentSibling(
                Box::new(selector_view(**p)),
                Box::new(selector_view(**c)),
            ));
            if !matches_selector(doc, n, c) {
                return false;
            }
            match prev_sibling_element(doc, n) {
                Some(q) => matches_selector(doc, q, p),
                None => false,
            }
        },
        Selector::GeneralSibling(p, c) => {
            assert(selector_view(*sel) == SelectorV::GeneralSibling(
                Box::new(selector_view(**p)),
                Box::new(selector_view(**c)),
            ));
            if !matches_selector(doc, n, c) {
                return false;
            }
            let ghost pv = selector_view(**p);
            let mut cur = prev_sibling_element(doc, n);
            let mut count: usize = 0;
            while count < MAX_DOM_DEPTH
                invariant
                    count <= MAX_DOM_DEPTH,
                    pv == selector_view(**p),
                    sibling_matches(
                        doc.view(),
                        match cur {
                            Some(x) => Some(x as int),
                            None => None,
                        },
                        pv,
                        count as int,
                    ) == sibling_matches(doc.view(), prev_element_sibling(doc.view(), n as int), pv, 0),
                decreases MAX_DOM_DEPTH - count,
            {
                match cur {
                    None => return false,
                    Some(q) => {
                        if matches_selector(doc, q, p) {
                            return true;
                        }
                        cur = prev_sibling_element(doc, q);
                        count = count + 1;
                    },
                }
            }
            false
        },
    }
}


// ---------------------------------------------------------------------------
// Laws
// ---------------------------------------------------------------------------
/// A node that matches `a > b` matches `a b`: its parent is an ancestor.
pub proof fn law_child_implies_descendant(d: Seq<NodeV>, n: int, a: SelectorV, b: SelectorV)
    requires
        selector_matches(d, n, SelectorV::Child(Box::new(a), Box::new(b))),
    ensures
        selector_matches(d, n, SelectorV::Descendant(Box::new(a), Box::new(b))),
{
    let q = parent_at(d, n)->0;
    assert(ancestor_matches(d, Some(q), a, 0));
}

/// A node that matches `a + b` matches `a ~ b`: the element just before it
/// is one of the elements before it.
pub proof fn law_adjacent_implies_general(d: Seq<NodeV>, n: int, a: SelectorV, b: SelectorV)
    requires
        selector_matches(d, n, SelectorV::AdjacentSibling(Box::new(a), Box::new(b))),
    ensures
        selector_matches(d, n, SelectorV::GeneralSibling(Box::new(a), Box::new(b))),
{
    let q = prev_element_sibling(d, n)->0;
    assert(sibling_matches(d, Some(q), a, 0));
}

/// A selector with a pseudo-element matches no node in the cascade.
pub proof fn law_pseudo_never_matches(d: Seq<NodeV>, n: int, b: SelectorV, p: crate::selector::PseudoElement)
    ensures
        !selector_matches(d, n, SelectorV::WithPseudo(Box::new(b), p)),
{
}

/// `[name*=x]` matches an element exactly when the element's attribute
/// `name` holds `x` somewhere in its value, at any position: `href` value
/// `https://example.com/docs` is matched by `*="example"`.
pub proof fn law_attr_contains_anywhere(d: Seq<NodeV>, n: int, name: Seq<char>, x: Seq<char>, val: Seq<char>)
    requires
        element_at(d, n) matches Some(e) && attr_from(e.attrs, name, 0) == Some(val),
    ensures
        selector_matches(d, n, SelectorV::Compound(seq![SimpleV::Attr(name, AttrMatchV::Contains(x))]))
            <==> exists|i: int| 0 <= i && i + x.len() <= val.len() && #[trigger] val.subrange(i, i + x.len()) == x,
{
    let parts = seq![SimpleV::Attr(name, AttrMatchV::Contains(x))];
    let m = selector_matches(d, n, SelectorV::Compound(parts));
    assert(m == simple_matches(d, n, parts[0])) by {
        if simple_matches(d, n, parts[0]) {
            assert forall|k: int| 0 <= k < parts.len() implies simple_matches(d, n, #[trigger] parts[k]) by {
                assert(k == 0);
            }
        }
    }
    assert(simple_matches(d, n, parts[0]) == contains_seq(val, x));
    if contains_seq(val, x) {
        let i = choose|i: int| crate::text::occurs_at(val, x, i);
        assert(val.subrange(i, i + x.len()) == x);
    }
    if exists|i: int| 0 <= i && i + x.len() <= val.len() && #[trigger] val.subrange(i, i + x.len()) == x {
        let i = choose|i: int| 0 <= i && i + x.len() <= val.len() && #[trigger] val.subrange(i, i + x.len()) == x;
        assert(crate::text::occurs_at(val, x, i));
    }
}

/// Each attribute test reads the value of the element's attribute `name`:
/// `[name]` holds when there is one, `[name=x]` when it is `x`, `[name^=x]`
/// when it begins with `x`, `[name$=x]` when it ends with `x`; without the
/// attribute no test holds.
pub proof fn law_attr_tests(d: Seq<NodeV>, n: int, name: Seq<char>, x: Seq<char>)
    ensures
        match (match element_at(d, n) {
            Some(e) => attr_from(e.attrs, name, 0),
            None => None,
        }) {
            Some(val) => {
                &&& attr_matches(d, n, name, AttrMatchV::Exists)
                &&& attr_matches(d, n, name, AttrMatchV::Exact(x)) <==> val =~= x
                &&& attr_matches(d, n, name, AttrMatchV::Prefix(x)) <==> x.len() <= val.len()
                    && val.subrange(0, x.len() as int) =~= x
                &&& attr_matches(d, n, name, AttrMatchV::Suffix(x)) <==> x.len() <= val.len()
                    && val.subrange(val.len() - x.len(), val.len() as int) =~= x
            },
            None => {
                &&& !attr_matches(d, n, name, AttrMatchV::Exists)
                &&& !attr_matches(d, n, name, AttrMatchV::Exact(x))
                &&& !attr_matches(d, n, name, AttrMatchV::Prefix(x))
                &&& !attr_matches(d, n, name, AttrMatchV::Suffix(x))
                &&& !attr_matches(d, n, name, AttrMatchV::Contains(x))
            },
        },
{
}

} // verus!
