//! The styled tree of a document: each node with the keyword-valued
//! properties and custom properties it ends up with, after inheritance, the
//! defaults of its tag, the cascade of the stylesheet and its `style`
//! attribute, and its `::before`/`::after` pseudo-elements.
use vstd::prelude::*;
use crate::matching::Document;
use crate::matching::NodeV;
use crate::matching::MAX_DOM_DEPTH;
use crate::matching::element_at;
use crate::matching::lemma_node_at;
use crate::css::CssRule;
use crate::css::rules_view;
use crate::css::decls_view;
use crate::css::Declaration;
use crate::cascade::cascade_decls;
use crate::cascade::cascade_declarations;
use crate::cascade::pseudo_declarations;
use crate::cascade::pseudo_decls_upto;
use crate::cascade::has_pseudo_rule;
use crate::selector::PseudoElement;
use crate::selector::SelectorV;
use crate::style::KeywordStyle;
use crate::style::KeywordStyleV;
use crate::style::Display;
use crate::style::VerticalAlign;
use crate::style::AlignItems;
use crate::style::inherited_keywords;
use crate::style::initial_keywords;
use crate::style::keyword_applied;
use crate::style::applied_value;
use crate::style::is_custom_name;
use crate::style::opt_text;
use crate::style::MAX_CUSTOM_PROPERTIES;
use crate::style::MAX_CUSTOM_PROPERTY_LEN;
use crate::style::MAX_CUSTOM_PROPERTIES_TOTAL_BYTES;
use crate::tags::with_tag_defaults;
use crate::tree::children_at;
use crate::tree::text_at;
use crate::kv::TextMap;
use crate::kv::map_of;
use crate::kv::byte_len;
use crate::kv::limits_ok;
use crate::kv::entries_insert;
use crate::text::trim;
use crate::text::trim_chars;
use crate::text::chars_of;
use crate::text::eq_lit;
use crate::text::string_from_chars;

verus! {

/// A node of the styled tree: the document node it stands for, its
/// keyword-valued and custom properties, its text (for a text node or a
/// pseudo-element) and its children.
pub struct StyledNode {
    pub node: usize,
    pub style: KeywordStyle,
    pub props: TextMap,
    pub text: Option<String>,
    pub children: Vec<StyledNode>,
}

/// The model of a styled node; the custom properties as their entries.
pub struct StyledV {
    pub node: int,
    pub style: KeywordStyleV,
    pub props: Seq<(Seq<char>, Seq<char>)>,
    pub text: Option<Seq<char>>,
    pub children: Seq<StyledV>,
}

/// The model of a styled node.
pub open spec fn styled_view(s: StyledNode) -> StyledV
    decreases s,
{
    StyledV {
        node: s.node as int,
        style: s.style.view(),
        props: s.props.entries(),
        text: opt_text(s.text),
        children: styled_views(s.children@),
    }
}

/// The models of styled nodes.
pub open spec fn styled_views(cs: Seq<StyledNode>) -> Seq<StyledV>
    decreases cs,
{
    if cs.len() == 0 {
        Seq::empty()
    } else {
        styled_views(cs.drop_last()).push(styled_view(cs.last()))
    }
}

/// What one declaration does to the keyword-valued properties `s` and the
/// custom-property entries `ev`: a custom property takes the trimmed value
/// when that stays within the limits; any other property applies its value
/// with `var()` resolved against the custom properties.
pub open spec fn decl_step(s: KeywordStyleV, ev: Seq<(Seq<char>, Seq<char>)>, p: Seq<char>, v: Seq<char>) -> (
    KeywordStyleV,
    Seq<(Seq<char>, Seq<char>)>,
) {
    if is_custom_name(p) {
        (
            s,
            if limits_ok(
                ev,
                p,
                byte_len(trim(v)),
                MAX_CUSTOM_PROPERTIES as int,
                MAX_CUSTOM_PROPERTY_LEN as int,
                MAX_CUSTOM_PROPERTIES_TOTAL_BYTES as int,
            ) {
                entries_insert(ev, p, trim(v))
            } else {
                ev
            },
        )
    } else {
        (keyword_applied(s, p, applied_value(map_of(ev), v)).0, ev)
    }
}

/// The declarations `ds` applied in order (see `decl_step`).
pub open spec fn decls_applied(s: KeywordStyleV, ev: Seq<(Seq<char>, Seq<char>)>, ds: Seq<(Seq<char>, Seq<char>)>) -> (
    KeywordStyleV,
    Seq<(Seq<char>, Seq<char>)>,
)
    decreases ds.len(),
{
    if ds.len() == 0 {
        (s, ev)
    } else {
        let (s1, e1) = decls_applied(s, ev, ds.drop_last());
        decl_step(s1, e1, ds.last().0, ds.last().1)
    }
}

/// A node that is not displayed: the initial properties with no display,
/// no custom properties, no text, no children.
pub open spec fn hidden_node(n: int) -> StyledV {
    StyledV {
        node: n,
        style: KeywordStyleV { display: Display::NoDisplay, ..initial_keywords() },
        props: Seq::empty(),
        text: None,
        children: Seq::empty(),
    }
}

/// Tags that are not rendered: `script`, `style`, `head`, `meta`, `link`,
/// `title`.
pub open spec fn non_visual(t: Seq<char>) -> bool {
    t == "script"@ || t == "style"@ || t == "head"@ || t == "meta"@ || t == "link"@ || t == "title"@
}

/// A child stays in the tree when it is displayed and has text, children,
/// or stands for an element.
pub open spec fn kept(d: Seq<NodeV>, c: StyledV) -> bool {
    c.style.display != Display::NoDisplay && (c.text is Some || c.children.len() > 0 || element_at(
        d,
        c.node,
    ) is Some)
}

/// The `::before` or `::after` pseudo-element of element `n` whose
/// properties are `s` and `ev`: when some rule gives it, its declarations
/// apply, in stylesheet order, to an inline box inheriting from the
/// element; it exists when it gets a `content`, which becomes its text
/// (none for empty content).
pub open spec fn pseudo_node(d: Seq<NodeV>, n: int, rules: Seq<(SelectorV, Seq<(Seq<char>, Seq<char>)>, u32)>, s: KeywordStyleV, ev: Seq<(Seq<char>, Seq<char>)>, pe: PseudoElement) -> Option<StyledV> {
    if !has_pseudo_rule(d, n, rules, pe) {
        None
    } else {
        let base = KeywordStyleV { display: Display::Inline, ..inherited_keywords(s) };
        let (ps, pp) = decls_applied(base, ev, pseudo_decls_upto(d, n, rules, pe, rules.len() as int));
        match ps.content {
            None => None,
            Some(c) => Some(
                StyledV {
                    node: n,
                    style: KeywordStyleV { content: None, ..ps },
                    props: pp,
                    text: if c.len() == 0 {
                        None
                    } else {
                        Some(c)
                    },
                    children: Seq::empty(),
                },
            ),
        }
    }
}

/// A pseudo-element put before the children: an inline one with text joins
/// the text of a first child that has text; else it goes first.
pub open spec fn with_before(kids: Seq<StyledV>, p: Option<StyledV>) -> Seq<StyledV> {
    match p {
        None => kids,
        Some(b) => if b.style.display == Display::Inline && b.text is Some && kids.len() > 0
            && kids[0].text is Some {
            kids.update(0, StyledV { text: Some(b.text->0 + kids[0].text->0), ..kids[0] })
        } else {
            seq![b] + kids
        },
    }
}

/// A pseudo-element put after the children: an inline one with text joins
/// the text of a last child that has text; else it goes last.
pub open spec fn with_after(kids: Seq<StyledV>, p: Option<StyledV>) -> Seq<StyledV> {
    match p {
        None => kids,
        Some(a) => if a.style.display == Display::Inline && a.text is Some && kids.len() > 0
            && kids.last().text is Some {
            kids.update(
                kids.len() - 1,
                StyledV { text: Some(kids.last().text->0 + a.text->0), ..kids.last() },
            )
        } else {
            kids.push(a)
        },
    }
}

/// The styled tree of node `n`, `depth` levels down, under a parent whose
/// properties are `ps` and `pp`:
/// - past `MAX_DOM_DEPTH` levels, or for a node that is gone, a hidden node;
/// - a text node inherits from the parent and holds its trimmed text (none
///   when blank);
/// - a `script`, `style`, `head`, `meta`, `link` or `title` element is
///   hidden;
/// - another element inherits from the parent, takes the defaults of its
///   tag, then the declarations of the cascade; its kept children come
///   next, then its pseudo-elements;
/// - any other node keeps the parent's properties and its kept children.
pub open spec fn styled_tree(d: Seq<NodeV>, n: int, rules: Seq<(SelectorV, Seq<(Seq<char>, Seq<char>)>, u32)>, ps: KeywordStyleV, pp: Seq<(Seq<char>, Seq<char>)>, depth: int) -> StyledV
    decreases MAX_DOM_DEPTH + 1 - depth, 0int,
{
    if depth > MAX_DOM_DEPTH || !(0 <= n < d.len()) {
        hidden_node(n)
    } else if d[n].text is Some && d[n].element is None {
        let t = trim(d[n].text->0);
        StyledV {
            node: n,
            style: inherited_keywords(ps),
            props: pp,
            text: if t.len() == 0 {
                None
            } else {
                Some(t)
            },
            children: Seq::empty(),
        }
    } else if d[n].element is Some {
        let tag = d[n].element->0.tag;
        if non_visual(tag) {
            hidden_node(n)
        } else {
            let (s, ev) = decls_applied(
                with_tag_defaults(inherited_keywords(ps), tag),
                pp,
                cascade_decls(d, n, rules),
            );
            let kids = styled_kids(d, d[n].children, rules, s, ev, depth + 1);
            StyledV {
                node: n,
                style: s,
                props: ev,
                text: None,
                children: with_after(
                    with_before(kids, pseudo_node(d, n, rules, s, ev, PseudoElement::Before)),
                    pseudo_node(d, n, rules, s, ev, PseudoElement::After),
                ),
            }
        }
    } else {
        StyledV {
            node: n,
            style: ps,
            props: pp,
            text: None,
            children: styled_kids(d, d[n].children, rules, ps, pp, depth + 1),
        }
    }
}

/// The kept styled trees of the children `cs`, in order.
pub open spec fn styled_kids(d: Seq<NodeV>, cs: Seq<int>, rules: Seq<(SelectorV, Seq<(Seq<char>, Seq<char>)>, u32)>, ps: KeywordStyleV, pp: Seq<(Seq<char>, Seq<char>)>, depth: int) -> Seq<StyledV>
    decreases MAX_DOM_DEPTH + 1 - depth, cs.len() + 1,
{
    if cs.len() == 0 || depth > MAX_DOM_DEPTH + 1 {
        Seq::empty()
    } else {
        let rest = styled_kids(d, cs.drop_last(), rules, ps, pp, depth);
        let c = styled_tree(d, cs.last(), rules, ps, pp, depth);
        if kept(d, c) {
            rest.push(c)
        } else {
            rest
        }
    }
}

/// The model of each node is the model at its place.
proof fn lemma_views_index(cs: Seq<StyledNode>)
    ensures
        styled_views(cs).len() == cs.len(),
        forall|i: int| 0 <= i < cs.len() ==> #[trigger] styled_views(cs)[i] == styled_view(cs[i]),
    decreases cs.len(),
{
    if cs.len() > 0 {
        lemma_views_index(cs.drop_last());
        assert forall|i: int| 0 <= i < cs.len() implies #[trigger] styled_views(cs)[i] == styled_view(
            cs[i],
        ) by {
            if i < cs.len() - 1 {
                assert(cs.drop_last()[i] == cs[i]);
            }
        }
    }
}

fn copy_text(o: &Option<String>) -> (r: Option<String>)
    ensures
        opt_text(r) == opt_text(*o),
{
    match o {
        Some(t) => Some(t.clone()),
        None => None,
    }
}

/// A style with the same properties.
fn copy_style(s: &KeywordStyle) -> (r: KeywordStyle)
    ensures
        r.view() == s.view(),
{
    KeywordStyle {
        display: s.display,
        position: s.position,
        box_sizing: s.box_sizing,
        text_align: s.text_align,
        text_transform: s.text_transform,
        text_decoration: s.text_decoration,
        font_style: s.font_style,
        white_space: s.white_space,
        vertical_align: s.vertical_align,
        flex_direction: s.flex_direction,
        flex_wrap: s.flex_wrap,
        align_items: s.align_items,
        align_content: s.align_content,
        justify_content: s.justify_content,
        font_weight: s.font_weight,
        blend_mode: s.blend_mode,
        overflow_hidden: s.overflow_hidden,
        text_overflow_ellipsis: s.text_overflow_ellipsis,
        line_clamp: s.line_clamp,
        z_index: s.z_index,
        grid_column_start: s.grid_column_start,
        grid_column_end: s.grid_column_end,
        grid_row_start: s.grid_row_start,
        grid_row_end: s.grid_row_end,
        content: copy_text(&s.content),
        font_family: copy_text(&s.font_family),
    }
}

/// Applies the declarations in order (see `decls_applied`).
fn apply_decls(style: &mut KeywordStyle, props: &mut TextMap, decls: &Vec<Declaration>)
    requires
        old(props).wf(),
    ensures
        final(props).wf(),
        (final(style).view(), final(props).entries()) == decls_applied(
            old(style).view(),
            old(props).entries(),
            decls_view(decls@),
        ),
{
    let ghost dv = decls_view(decls@);
    let ghost s0 = style.view();
    let ghost e0 = props.entries();
    let mut i: usize = 0;
    assert(dv.take(0) =~= Seq::<(Seq<char>, Seq<char>)>::empty());
    while i < decls.len()
        invariant
            i <= decls@.len(),
            dv == decls_view(decls@),
            props.wf(),
            (style.view(), props.entries()) == decls_applied(s0, e0, dv.take(i as int)),
        decreases decls@.len() - i,
    {
        let d = &decls[i];
        let _ = style.apply_declaration(props, d.property.as_str(), d.value.as_str());
        proof {
            let t = dv.take(i + 1);
            assert(t.drop_last() =~= dv.take(i as int));
            assert(t.last() == (d.property@, d.value@));
        }
        i = i + 1;
    }
    assert(dv.take(decls@.len() as int) =~= dv);
}

fn hidden(n: usize) -> (r: StyledNode)
    ensures
        styled_view(r) == hidden_node(n as int),
{
    let mut style = KeywordStyle::initial();
    style.display = Display::NoDisplay;
    let props = TextMap::new();
    assert(props.entries() =~= Seq::<(Seq<char>, Seq<char>)>::empty());
    let r = StyledNode { node: n, style, props, text: None, children: Vec::new() };
    assert(styled_views(r.children@) =~= Seq::<StyledV>::empty());
    assert(r.style.view() == KeywordStyleV { display: Display::NoDisplay, ..initial_keywords() });
    r
}

fn is_kept(doc: &Document, c: &StyledNode) -> (b: bool)
    ensures
        b == kept(doc.view(), styled_view(*c)),
{
    proof {
        lemma_views_index(c.children@);
    }
    let shown = match c.style.display {
        Display::NoDisplay => false,
        _ => true,
    };
    if !shown {
        return false;
    }
    if c.text.is_some() || c.children.len() > 0 {
        return true;
    }
    if c.node < doc.nodes.len() {
        proof {
            lemma_node_at(doc, c.node);
        }
        doc.nodes[c.node].element.is_some()
    } else {
        false
    }
}

fn non_visual_tag(t: &String) -> (b: bool)
    ensures
        b == non_visual(t@),
{
    let v = chars_of(t.as_str());
    eq_lit(&v, "script") || eq_lit(&v, "style") || eq_lit(&v, "head") || eq_lit(&v, "meta")
        || eq_lit(&v, "link") || eq_lit(&v, "title")
}

/// The `::before` or `::after` pseudo-element (see `pseudo_node`).
fn pseudo(doc: &Document, n: usize, rules: &[CssRule], style: &KeywordStyle, props: &TextMap, pe: PseudoElement) -> (r: Option<StyledNode>)
    requires
        props.wf(),
    ensures
        match r {
            Some(x) => pseudo_node(doc.view(), n as int, rules_view(rules@), style.view(), props.entries(), pe) == Some(styled_view(x)),
            None => pseudo_node(doc.view(), n as int, rules_view(rules@), style.view(), props.entries(), pe) is None,
        },
{
    match pseudo_declarations(doc, n, rules, pe) {
        None => None,
        Some(decls) => {
            let mut ps = style.inherit();
            ps.display = Display::Inline;
            let mut pp = props.copy();
            apply_decls(&mut ps, &mut pp, &decls);
            let c = copy_text(&ps.content);
            ps.content = None;
            match c {
                None => None,
                Some(t) => {
                    let tv = chars_of(t.as_str());
                    let text = if tv.len() == 0 {
                        None
                    } else {
                        Some(t)
                    };
                    let r = StyledNode { node: n, style: ps, props: pp, text, children: Vec::new() };
                    assert(styled_views(r.children@) =~= Seq::<StyledV>::empty());
                    Some(r)
                },
            }
        },
    }
}

/// The model of an optional styled node.
pub open spec fn opt_styled(p: Option<StyledNode>) -> Option<StyledV> {
    match p {
        Some(x) => Some(styled_view(x)),
        None => None,
    }
}

/// The text `a` followed by the text `b`.
fn joined(a: &String, b: &String) -> (r: String)
    ensures
        r@ == a@ + b@,
{
    let mut r = a.clone();
    r.append(b.as_str());
    r
}

/// Puts a `::before` pseudo-element in front of the children (see
/// `with_before`).
fn put_before(kids: Vec<StyledNode>, p: Option<StyledNode>) -> (r: Vec<StyledNode>)
    ensures
        styled_views(r@) == with_before(styled_views(kids@), opt_styled(p)),
{
    proof {
        lemma_views_index(kids@);
    }
    match p {
        None => kids,
        Some(b) => {
            let mut kids = kids;
            let ghost old_kids = kids@;
            if b.style.display == Display::Inline && b.text.is_some() && kids.len() > 0
                && kids[0].text.is_some() {
                let mut first = kids.remove(0);
                let t = match (&b.text, &first.text) {
                    (Some(bt), Some(ft)) => joined(bt, ft),
                    _ => String::new(),
                };
                first.text = Some(t);
                kids.insert(0, first);
                proof {
                    lemma_views_index(kids@);
                    assert(styled_views(kids@) =~= styled_views(old_kids).update(
                        0,
                        StyledV {
                            text: Some(styled_view(b).text->0 + styled_views(old_kids)[0].text->0),
                            ..styled_views(old_kids)[0]
                        },
                    ));
                }
                kids
            } else {
                let ghost bv = styled_view(b);
                kids.insert(0, b);
                proof {
                    lemma_views_index(kids@);
                    assert(styled_views(kids@) =~= seq![bv] + styled_views(old_kids));
                }
                kids
            }
        },
    }
}

/// Puts an `::after` pseudo-element behind the children (see
/// `with_after`).
fn put_after(kids: Vec<StyledNode>, p: Option<StyledNode>) -> (r: Vec<StyledNode>)
    ensures
        styled_views(r@) == with_after(styled_views(kids@), opt_styled(p)),
{
    proof {
        lemma_views_index(kids@);
    }
    match p {
        None => kids,
        Some(a) => {
            let mut kids = kids;
            let ghost old_kids = kids@;
            let n = kids.len();
            if a.style.display == Display::Inline && a.text.is_some() && n > 0
                && kids[n - 1].text.is_some() {
                let mut last = kids.pop().unwrap();
                let t = match (&last.text, &a.text) {
                    (Some(lt), Some(at)) => joined(lt, at),
                    _ => String::new(),
                };
                last.text = Some(t);
                kids.push(last);
                proof {
                    lemma_views_index(kids@);
                    let ov = styled_views(old_kids);
                    assert(styled_views(kids@) =~= ov.update(
                        ov.len() - 1,
                        StyledV { text: Some(ov.last().text->0 + styled_view(a).text->0), ..ov.last() },
                    ));
                }
                kids
            } else {
                let ghost av = styled_view(a);
                kids.push(a);
                proof {
                    lemma_views_index(kids@);
                    assert(styled_views(kids@) =~= styled_views(old_kids).push(av));
                }
                kids
            }
        },
    }
}

/// The styled tree of node `n`, `depth` levels down, under a parent whose
/// keyword-valued properties are `parent` and custom properties `props`
/// (see `styled_tree`).
pub fn build_styled_tree(doc: &Document, n: usize, rules: &[CssRule], parent: &KeywordStyle, props: &TextMap, depth: usize) -> (r: StyledNode)
    requires
        props.wf(),
    ensures
        styled_view(r) == styled_tree(doc.view(), n as int, rules_view(rules@), parent.view(), props.entries(), depth as int),
    decreases MAX_DOM_DEPTH + 1 - depth, 0int,
{
    if depth > MAX_DOM_DEPTH || n >= doc.nodes.len() {
        return hidden(n);
    }
    proof {
        lemma_node_at(doc, n);
    }
    let node = &doc.nodes[n];
    match &node.element {
        None => {
            match &node.text {
                Some(t) => {
                    let style = parent.inherit();
                    let p2 = props.copy();
                    let tv = trim_chars(&chars_of(t.as_str()));
                    let text = if tv.len() == 0 {
                        None
                    } else {
                        Some(string_from_chars(&tv))
                    };
                    let r = StyledNode { node: n, style, props: p2, text, children: Vec::new() };
                    assert(styled_views(r.children@) =~= Seq::<StyledV>::empty());
                    r
                },
                None => {
                    let kids = build_kids(doc, &node.children, rules, parent, props, depth + 1);
                    StyledNode {
                        node: n,
                        style: copy_style(parent),
                        props: props.copy(),
                        text: None,
                        children: kids,
                    }
                },
            }
        },
        Some(e) => {
            if non_visual_tag(&e.tag) {
                return hidden(n);
            }
            let mut style = parent.inherit();
            style.apply_tag_defaults(e.tag.as_str());
            let mut p2 = props.copy();
            let decls = cascade_declarations(doc, n, rules);
            apply_decls(&mut style, &mut p2, &decls);
            let kids = build_kids(doc, &node.children, rules, &style, &p2, depth + 1);
            let before = pseudo(doc, n, rules, &style, &p2, PseudoElement::Before);
            let after = pseudo(doc, n, rules, &style, &p2, PseudoElement::After);
            let children = put_after(put_before(kids, before), after);
            StyledNode { node: n, style, props: p2, text: None, children }
        },
    }
}

/// The kept styled trees of the children `cs` (see `styled_kids`).
fn build_kids(doc: &Document, cs: &Vec<usize>, rules: &[CssRule], ps: &KeywordStyle, pp: &TextMap, depth: usize) -> (r: Vec<StyledNode>)
    requires
        pp.wf(),
        depth <= MAX_DOM_DEPTH + 1,
    ensures
        styled_views(r@) == styled_kids(doc.view(), cs@.map_values(|c: usize| c as int), rules_view(rules@), ps.view(), pp.entries(), depth as int),
    decreases MAX_DOM_DEPTH + 1 - depth, 1int,
{
    let ghost ci = cs@.map_values(|c: usize| c as int);
    let ghost d = doc.view();
    let ghost rv = rules_view(rules@);
    let mut out: Vec<StyledNode> = Vec::new();
    let mut i: usize = 0;
    assert(styled_views(out@) =~= styled_kids(d, ci.take(0), rv, ps.view(), pp.entries(), depth as int));
    while i < cs.len()
        invariant
            i <= cs@.len(),
            ci == cs@.map_values(|c: usize| c as int),
            d == doc.view(),
            rv == rules_view(rules@),
            pp.wf(),
            depth <= MAX_DOM_DEPTH + 1,
            styled_views(out@) == styled_kids(d, ci.take(i as int), rv, ps.view(), pp.entries(), depth as int),
        decreases cs@.len() - i,
    {
        let c = cs[i];
        let t = build_styled_tree(doc, c, rules, ps, pp, depth);
        let keep = is_kept(doc, &t);
        let ghost before = out@;
        let ghost tv = styled_view(t);
        if keep {
            out.push(t);
            assert(out@.drop_last() == before);
        }
        proof {
            let tk = ci.take(i + 1);
            assert(tk.drop_last() =~= ci.take(i as int));
            assert(tk.last() == c as int);
        }
        i = i + 1;
    }
    assert(ci.take(cs@.len() as int) =~= ci);
    out
}

/// Every child that the styled tree keeps is displayed and holds text,
/// children, or stands for an element.
pub proof fn law_kids_are_kept(d: Seq<NodeV>, cs: Seq<int>, rules: Seq<(SelectorV, Seq<(Seq<char>, Seq<char>)>, u32)>, ps: KeywordStyleV, pp: Seq<(Seq<char>, Seq<char>)>, depth: int)
    ensures
        forall|i: int|
            0 <= i < styled_kids(d, cs, rules, ps, pp, depth).len() ==> kept(
                d,
                #[trigger] styled_kids(d, cs, rules, ps, pp, depth)[i],
            ),
    decreases cs.len(),
{
    if cs.len() > 0 && depth <= MAX_DOM_DEPTH + 1 {
        law_kids_are_kept(d, cs.drop_last(), rules, ps, pp, depth);
        let rest = styled_kids(d, cs.drop_last(), rules, ps, pp, depth);
        let c = styled_tree(d, cs.last(), rules, ps, pp, depth);
        let all = styled_kids(d, cs, rules, ps, pp, depth);
        assert forall|i: int| 0 <= i < all.len() implies kept(d, #[trigger] all[i]) by {
            if i < rest.len() {
                assert(all[i] == rest[i]);
            }
        }
    }
}

/// The node flows inline: `display` is `inline` or `inline-block`.
pub open spec fn is_inline(n: StyledV) -> bool {
    n.style.display == Display::Inline || n.style.display == Display::InlineBlock
}

/// Some child flows inline.
pub open spec fn has_inline_child(cs: Seq<StyledV>) -> bool {
    exists|i: int| 0 <= i < cs.len() && is_inline(#[trigger] cs[i])
}

/// The vertical alignment of a line of children: the first `vertical-align`
/// other than `baseline` among the children that flow inline, else
/// `baseline`.
pub open spec fn line_vertical_align(cs: Seq<StyledV>) -> VerticalAlign
    decreases cs.len(),
{
    if cs.len() == 0 {
        VerticalAlign::Baseline
    } else {
        let acc = line_vertical_align(cs.drop_last());
        if is_inline(cs.last()) && acc == VerticalAlign::Baseline {
            cs.last().style.vertical_align
        } else {
            acc
        }
    }
}

/// How a line box aligns its items for a vertical alignment: `middle` is
/// centred, `top` at the start, `bottom` and `baseline` at the end.
pub open spec fn line_align_items(va: VerticalAlign) -> AlignItems {
    match va {
        VerticalAlign::Middle => AlignItems::Center,
        VerticalAlign::Top => AlignItems::FlexStart,
        VerticalAlign::Bottom => AlignItems::FlexEnd,
        VerticalAlign::Baseline => AlignItems::FlexEnd,
    }
}

/// Whether a block lays its children out as one wrapping row of inline
/// content, and with which item alignment: a `block` node with at least one
/// child that flows inline does, aligned by `line_align_items` of
/// `line_vertical_align` of its children; any other node does not (`None`).
pub open spec fn inline_flow_of(n: StyledV) -> Option<AlignItems> {
    if n.style.display == Display::Block && has_inline_child(n.children) {
        Some(line_align_items(line_vertical_align(n.children)))
    } else {
        None
    }
}

/// Whether a node lays its children out as a line of inline content, and
/// with which item alignment (see `inline_flow_of`).
pub fn inline_flow(node: &StyledNode) -> (r: Option<AlignItems>)
    ensures
        r == inline_flow_of(styled_view(*node)),
{
    let ghost cv = styled_views(node.children@);
    proof {
        lemma_views_index(node.children@);
    }
    let mut found = false;
    let mut va = VerticalAlign::Baseline;
    let mut i: usize = 0;
    while i < node.children.len()
        invariant
            i <= node.children@.len(),
            cv == styled_views(node.children@),
            cv.len() == node.children@.len(),
            forall|j: int| 0 <= j < cv.len() ==> #[trigger] cv[j] == styled_view(node.children@[j]),
            found == (exists|j: int| 0 <= j < i && is_inline(#[trigger] cv[j])),
            va == line_vertical_align(cv.take(i as int)),
        decreases node.children@.len() - i,
    {
        let c = &node.children[i];
        let inline = c.style.display == Display::Inline || c.style.display == Display::InlineBlock;
        proof {
            let t = cv.take(i + 1);
            assert(t.drop_last() =~= cv.take(i as int));
            assert(t.last() == cv[i as int]);
            assert(cv[i as int] == styled_view(*c));
        }
        if inline {
            if va == VerticalAlign::Baseline {
                va = c.style.vertical_align;
            }
            found = true;
        }
        i = i + 1;
    }
    assert(cv.take(cv.len() as int) =~= cv);
    if node.style.display == Display::Block && found {
        let a = match va {
            VerticalAlign::Middle => AlignItems::Center,
            VerticalAlign::Top => AlignItems::FlexStart,
            VerticalAlign::Bottom => AlignItems::FlexEnd,
            VerticalAlign::Baseline => AlignItems::FlexEnd,
        };
        Some(a)
    } else {
        None
    }
}

} // verus!
