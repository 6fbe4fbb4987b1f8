//! The defaults that browsers give elements by their tag: how they are
//! displayed, and bold headings.
use vstd::prelude::*;
use crate::style::KeywordStyle;
use crate::style::KeywordStyleV;
use crate::style::Display;
use crate::keywords::FontWeight;
use crate::text::chars_of;
use crate::text::eq_lit;

verus! {

/// Headings `h1` to `h3` are bold by default.
pub open spec fn tag_is_heading(t: Seq<char>) -> bool {
    t == "h1"@ || t == "h2"@ || t == "h3"@
}

/// The display a tag gets by default: headings, paragraphs, `div`,
/// `body`, `html` and unknown tags are blocks, `br` is not displayed, `img`
/// is an inline block, and `span`, `a`, `em`, `strong`, `b`, `i` are inline.
pub open spec fn tag_display(t: Seq<char>) -> Display {
    if tag_is_heading(t) {
        Display::Block
    } else if t == "br"@ {
        Display::NoDisplay
    } else if t == "img"@ {
        Display::InlineBlock
    } else if t == "span"@ || t == "a"@ || t == "em"@ || t == "strong"@ || t == "b"@ || t == "i"@ {
        Display::Inline
    } else {
        Display::Block
    }
}

/// The keywords after the defaults of tag `t` (see `tag_display` and
/// `tag_is_heading`).
pub open spec fn with_tag_defaults(s: KeywordStyleV, t: Seq<char>) -> KeywordStyleV {
    if tag_is_heading(t) {
        KeywordStyleV { display: tag_display(t), font_weight: 700, ..s }
    } else {
        KeywordStyleV { display: tag_display(t), ..s }
    }
}

fn is_heading(t: &[char]) -> (b: bool)
    ensures
        b == tag_is_heading(t@),
{
    eq_lit(t, "h1") || eq_lit(t, "h2") || eq_lit(t, "h3")
}

fn display_of_tag(t: &[char]) -> (d: Display)
    ensures
        d == tag_display(t@),
{
    if is_heading(t) {
        Display::Block
    } else if eq_lit(t, "br") {
        Display::NoDisplay
    } else if eq_lit(t, "img") {
        Display::InlineBlock
    } else if eq_lit(t, "span") || eq_lit(t, "a") || eq_lit(t, "em") || eq_lit(t, "strong") || eq_lit(
        t,
        "b",
    ) || eq_lit(t, "i") {
        Display::Inline
    } else {
        Display::Block
    }
}

impl KeywordStyle {
    /// Applies the browser defaults of a tag (its display, and bold for
    /// headings).
    pub fn apply_tag_defaults(&mut self, tag: &str)
        ensures
            final(self).view() == with_tag_defaults(old(self).view(), tag@),
    {
        let t = chars_of(tag);
        let d = display_of_tag(&t);
        if is_heading(&t) {
            self.font_weight = FontWeight::bold();
        }
        self.display = d;
    }
}

} // verus!
