//! Walks down a document from a node: the text of its `<style>` blocks and
//! the first `html` or `body` element, each to a bounded depth so that a
//! deep (or, by index, cyclic) document cannot exhaust the stack.
use vstd::prelude::*;
use crate::matching::Document;
use crate::matching::NodeV;
use crate::matching::tag_is;
use crate::matching::tag_is_exec;
use crate::matching::lemma_node_at;
use crate::matching::MAX_DOM_DEPTH;
use crate::css::CssRule;
use crate::sheet::parse_css_rules;
use crate::css::rules_view;
use crate::sheet::stylesheet_rules;

verus! {

/// `<style>` blocks and the `html` element are looked for down to this
/// depth below the starting node.
pub const MAX_WALK_DEPTH: usize = 512;

/// The children of the node at `n` (none when `n` names no node).
pub open spec fn children_at(d: Seq<NodeV>, n: int) -> Seq<int> {
    if 0 <= n < d.len() {
        d[n].children
    } else {
        Seq::empty()
    }
}

/// The contents of the node at `n` when it is a text node.
pub open spec fn text_at(d: Seq<NodeV>, n: int) -> Option<Seq<char>> {
    if 0 <= n < d.len() {
        d[n].text
    } else {
        None
    }
}

/// The contents of the text nodes among `cs`, in order, each followed by a
/// line break.
pub open spec fn texts_of(d: Seq<NodeV>, cs: Seq<int>) -> Seq<char>
    decreases cs.len(),
{
    if cs.len() == 0 {
        Seq::empty()
    } else {
        texts_of(d, cs.drop_last()) + match text_at(d, cs.last()) {
            Some(t) => t.push('\n'),
            None => Seq::empty(),
        }
    }
}

/// What the node at `n` adds itself: the text of its text children when it
/// is a `style` element.
pub open spec fn own_style_text(d: Seq<NodeV>, n: int) -> Seq<char> {
    if tag_is(d, n, "style"@) {
        texts_of(d, children_at(d, n))
    } else {
        Seq::empty()
    }
}

/// The text of the `<style>` blocks at and below the node at `n`, which
/// stands `depth` levels below the start, in document order; nodes deeper
/// than `MAX_WALK_DEPTH` are not looked at.
pub open spec fn style_text_at(d: Seq<NodeV>, n: int, depth: int) -> Seq<char>
    decreases 514 - depth, 0int,
{
    if depth > MAX_WALK_DEPTH || !(0 <= n < d.len()) {
        Seq::empty()
    } else {
        own_style_text(d, n) + style_text_list(d, children_at(d, n), depth + 1)
    }
}

/// The text of the `<style>` blocks at and below each of `cs`, in order.
pub open spec fn style_text_list(d: Seq<NodeV>, cs: Seq<int>, depth: int) -> Seq<char>
    decreases 514 - depth, cs.len() + 1,
{
    if cs.len() == 0 || depth > MAX_WALK_DEPTH + 1 {
        Seq::empty()
    } else {
        style_text_list(d, cs.drop_last(), depth) + style_text_at(d, cs.last(), depth)
    }
}

fn append_texts(doc: &Document, cs: &Vec<usize>, out: &mut String)
    ensures
        final(out)@ == old(out)@ + texts_of(doc.view(), cs@.map_values(|c: usize| c as int)),
{
    let ghost d = doc.view();
    let ghost ci = cs@.map_values(|c: usize| c as int);
    let mut i: usize = 0;
    while i < cs.len()
        invariant
            d == doc.view(),
            ci == cs@.map_values(|c: usize| c as int),
            i <= cs@.len(),
            out@ == old(out)@ + texts_of(d, ci.take(i as int)),
        decreases cs@.len() - i,
    {
        let c = cs[i];
        let ghost before = out@;
        proof {
            assert(ci.take(i + 1).drop_last() =~= ci.take(i as int));
            assert(ci.take(i + 1).last() == c as int);
        }
        if c < doc.nodes.len() {
            proof {
                lemma_node_at(doc, c);
            }
            match &doc.nodes[c].text {
                Some(t) => {
                    out.append(t.as_str());
                    out.append("\n");
                    proof {
                        reveal_strlit("\n");
                        assert(out@ =~= before + t@.push('\n'));
                    }
                },
                None => {},
            }
        }
        proof {
            assert(out@ =~= old(out)@ + texts_of(d, ci.take(i + 1)));
        }
        i = i + 1;
    }
    assert(ci.take(cs@.len() as int) =~= ci);
}

fn collect_style_text(doc: &Document, n: usize, depth: usize, out: &mut String)
    requires
        depth <= MAX_WALK_DEPTH + 1,
    ensures
        final(out)@ == old(out)@ + style_text_at(doc.view(), n as int, depth as int),
    decreases 514 - depth,
{
    let ghost d = doc.view();
    if depth > MAX_WALK_DEPTH || n >= doc.nodes.len() {
        assert(out@ =~= old(out)@ + style_text_at(d, n as int, depth as int));
        return;
    }
    proof {
        lemma_node_at(doc, n);
    }
    let cs = &doc.nodes[n].children;
    let ghost ci = cs@.map_values(|c: usize| c as int);
    assert(children_at(d, n as int) == ci);
    if tag_is_exec(doc, n, &"style".to_string()) {
        append_texts(doc, cs, out);
    }
    let ghost mid = out@;
    assert(mid == old(out)@ + own_style_text(d, n as int));
    let mut i: usize = 0;
    while i < cs.len()
        invariant
            d == doc.view(),
            ci == cs@.map_values(|c: usize| c as int),
            depth <= MAX_WALK_DEPTH,
            i <= cs@.len(),
            out@ == mid + style_text_list(d, ci.take(i as int), depth + 1),
        decreases cs@.len() - i,
    {
        let c = cs[i];
        let ghost before = out@;
        collect_style_text(doc, c, depth + 1, out);
        proof {
            let t = ci.take(i + 1);
            assert(t.drop_last() =~= ci.take(i as int));
            assert(t.last() == c as int);
            assert(style_text_list(d, t, depth + 1) == style_text_list(d, t.drop_last(), depth + 1)
                + style_text_at(d, t.last(), depth + 1));
            assert(out@ =~= mid + style_text_list(d, t, depth + 1));
        }
        i = i + 1;
    }
    proof {
        assert(ci.take(cs@.len() as int) =~= ci);
        assert(out@ =~= old(out)@ + style_text_at(d, n as int, depth as int));
    }
}

/// The text of the `<style>` blocks at and below node `root`, in document
/// order, each text child followed by a line break (see `style_text_at`).
pub fn extract_style_text(doc: &Document, root: usize) -> (s: String)
    ensures
        s@ == style_text_at(doc.view(), root as int, 0),
{
    let mut out = String::new();
    collect_style_text(doc, root, 0, &mut out);
    assert(out@ =~= style_text_at(doc.view(), root as int, 0));
    out
}

/// The rules of the `<style>` blocks at and below node `root`, in order.
pub fn extract_and_parse_styles(doc: &Document, root: usize) -> (r: Vec<CssRule>)
    ensures
        rules_view(r@) == stylesheet_rules(style_text_at(doc.view(), root as int, 0)),
{
    let text = extract_style_text(doc, root);
    parse_css_rules(text.as_str())
}

/// The first node at or below `n` (standing `depth` levels below the start)
/// in document order that is an element with tag `tag`, looking no deeper
/// than `max`.
pub open spec fn find_tag_at(d: Seq<NodeV>, n: int, tag: Seq<char>, depth: int, max: int) -> Option<int>
    decreases max + 2 - depth, 0int,
{
    if depth > max || !(0 <= n < d.len()) {
        None
    } else if tag_is(d, n, tag) {
        Some(n)
    } else {
        find_tag_list(d, children_at(d, n), tag, depth + 1, max)
    }
}

/// The first hit of `find_tag_at` among `cs`, in order.
pub open spec fn find_tag_list(d: Seq<NodeV>, cs: Seq<int>, tag: Seq<char>, depth: int, max: int) -> Option<int>
    decreases max + 2 - depth, cs.len() + 1,
{
    if cs.len() == 0 || depth > max + 1 {
        None
    } else {
        match find_tag_list(d, cs.drop_last(), tag, depth, max) {
            Some(x) => Some(x),
            None => find_tag_at(d, cs.last(), tag, depth, max),
        }
    }
}

fn find_tag(doc: &Document, n: usize, tag: &String, depth: usize, max: usize) -> (r: Option<usize>)
    requires
        depth <= max + 1,
        max <= MAX_WALK_DEPTH,
    ensures
        match r {
            Some(x) => find_tag_at(doc.view(), n as int, tag@, depth as int, max as int) == Some(
                x as int,
            ),
            None => find_tag_at(doc.view(), n as int, tag@, depth as int, max as int) is None,
        },
    decreases max + 2 - depth,
{
    let ghost d = doc.view();
    if depth > max || n >= doc.nodes.len() {
        return None;
    }
    if tag_is_exec(doc, n, tag) {
        return Some(n);
    }
    proof {
        lemma_node_at(doc, n);
    }
    let cs = &doc.nodes[n].children;
    let ghost ci = cs@.map_values(|c: usize| c as int);
    assert(children_at(d, n as int) == ci);
    let mut i: usize = 0;
    while i < cs.len()
        invariant
            d == doc.view(),
            ci == cs@.map_values(|c: usize| c as int),
            depth <= max,
            max <= MAX_WALK_DEPTH,
            n < d.len(),
            !tag_is(d, n as int, tag@),
            children_at(d, n as int) == ci,
            i <= cs@.len(),
            find_tag_list(d, ci.take(i as int), tag@, depth + 1, max as int) is None,
        decreases cs@.len() - i,
    {
        let c = cs[i];
        let found = find_tag(doc, c, tag, depth + 1, max);
        proof {
            let t = ci.take(i + 1);
            assert(t.drop_last() =~= ci.take(i as int));
            assert(t.last() == c as int);
        }
        match found {
            Some(x) => {
                assert(find_tag_list(d, ci.take(i + 1), tag@, depth + 1, max as int) == Some(
                    x as int,
                ));
                proof {
                    lemma_find_list_prefix(d, ci, i + 1, tag@, depth + 1, max as int);
                    assert(find_tag_at(d, n as int, tag@, depth as int, max as int) == find_tag_list(
                        d,
                        ci,
                        tag@,
                        depth + 1,
                        max as int,
                    ));
                }
                return Some(x);
            },
            None => {},
        }
        i = i + 1;
    }
    assert(ci.take(cs@.len() as int) =~= ci);
    None
}

/// A hit among the first `k` of `cs` is the hit among all of them.
proof fn lemma_find_list_prefix(d: Seq<NodeV>, cs: Seq<int>, k: int, tag: Seq<char>, depth: int, max: int)
    requires
        0 <= k <= cs.len(),
        find_tag_list(d, cs.take(k), tag, depth, max) is Some,
    ensures
        find_tag_list(d, cs, tag, depth, max) == find_tag_list(d, cs.take(k), tag, depth, max),
    decreases cs.len() - k,
{
    if k < cs.len() {
        let t = cs.take(k + 1);
        assert(t.drop_last() =~= cs.take(k));
        assert(find_tag_list(d, t, tag, depth, max) == find_tag_list(d, cs.take(k), tag, depth, max));
        lemma_find_list_prefix(d, cs, k + 1, tag, depth, max);
    } else {
        assert(cs.take(k) =~= cs);
    }
}

/// The first `html` element at or below node `root`, looking no deeper than
/// `MAX_WALK_DEPTH`.
pub fn find_html(doc: &Document, root: usize) -> (r: Option<usize>)
    ensures
        match r {
            Some(x) => find_tag_at(doc.view(), root as int, "html"@, 0, MAX_WALK_DEPTH as int)
                == Some(x as int),
            None => find_tag_at(doc.view(), root as int, "html"@, 0, MAX_WALK_DEPTH as int) is None,
        },
{
    find_tag(doc, root, &"html".to_string(), 0, MAX_WALK_DEPTH)
}

/// The first `body` element at or below node `root`, looking no deeper than
/// `MAX_DOM_DEPTH`.
pub fn find_body(doc: &Document, root: usize) -> (r: Option<usize>)
    ensures
        match r {
            Some(x) => find_tag_at(doc.view(), root as int, "body"@, 0, MAX_DOM_DEPTH as int)
                == Some(x as int),
            None => find_tag_at(doc.view(), root as int, "body"@, 0, MAX_DOM_DEPTH as int) is None,
        },
{
    find_tag(doc, root, &"body".to_string(), 0, MAX_DOM_DEPTH)
}

/// What `find_html` and `find_body` find is a node of the document and an
/// element with the tag looked for.
pub proof fn law_found_node_has_tag(d: Seq<NodeV>, n: int, tag: Seq<char>, depth: int, max: int)
    ensures
        find_tag_at(d, n, tag, depth, max) matches Some(x) ==> 0 <= x < d.len() && tag_is(d, x, tag),
    decreases max + 2 - depth, 0int,
{
    if depth <= max && 0 <= n < d.len() && !tag_is(d, n, tag) {
        lemma_found_in_list_has_tag(d, children_at(d, n), tag, depth + 1, max);
    }
}

proof fn lemma_found_in_list_has_tag(d: Seq<NodeV>, cs: Seq<int>, tag: Seq<char>, depth: int, max: int)
    ensures
        find_tag_list(d, cs, tag, depth, max) matches Some(x) ==> 0 <= x < d.len() && tag_is(d, x, tag),
    decreases max + 2 - depth, cs.len() + 1,
{
    if cs.len() > 0 && depth <= max + 1 {
        lemma_found_in_list_has_tag(d, cs.drop_last(), tag, depth, max);
        law_found_node_has_tag(d, cs.last(), tag, depth, max);
    }
}

} // verus!
