//! CSS keyword-valued properties: their types, their keyword tables, and
//! what a declaration of one of them does to an element's style.
use vstd::prelude::*;
use crate::text::chars_of;
use crate::text::eq_lit;
use crate::text::contains_lit;
use crate::text::contains_seq;
use crate::text::copy_range;
use crate::text::find_first;
use crate::text::find_lit;
use crate::text::occurs_at;
use crate::text::trim;
use crate::text::trim_chars;
use crate::text::string_from_chars;
use crate::num::parse_unsigned;
use crate::num::parse_signed;
use crate::num::parse_uint;
use crate::num::parse_int;
use crate::keywords::FontWeight;
use crate::keywords::BlendMode;
use crate::keywords::font_weight_of;
use crate::keywords::blend_mode_of;
use crate::values::grid_line_of;
use crate::values::parse_grid_line;
use crate::selector::trim_quotes;
use crate::selector::trim_quote_chars;
use crate::kv::TextMap;
use crate::kv::byte_len;
use crate::kv::entries_insert;
use crate::vars::resolve_value;
use crate::vars::resolve_var;

verus! {

broadcast use vstd::string::group_string_axioms;

/// CSS display.
#[derive(Clone, Copy, Debug, PartialEq, Eq, Structural)]
pub enum Display {
    Block, Flex, Grid, Inline, InlineBlock, NoDisplay,
}

/// The display value a keyword stands for; other keywords give
/// `Block`.
pub open spec fn display_of(v: Seq<char>) -> Display {

    if v == "flex"@ {
        Display::Flex
    } else if v == "grid"@ {
        Display::Grid
    } else if v == "inline"@ {
        Display::Inline
    } else if v == "inline-block"@ {
        Display::InlineBlock
    } else if v == "none"@ {
        Display::NoDisplay
    } else if v == "-webkit-box"@ {
        Display::Block
    } else {
        Display::Block
    }
}


/// Parses a display keyword (see `display_of`).
pub fn parse_display(v: &[char]) -> (r: Display)
    ensures
        r == display_of(v@),
{
    if eq_lit(v, "flex") {
        Display::Flex
    } else if eq_lit(v, "grid") {
        Display::Grid
    } else if eq_lit(v, "inline") {
        Display::Inline
    } else if eq_lit(v, "inline-block") {
        Display::InlineBlock
    } else if eq_lit(v, "none") {
        Display::NoDisplay
    } else if eq_lit(v, "-webkit-box") {
        Display::Block
    } else {
        Display::Block
    }
}

/// CSS position.
#[derive(Clone, Copy, Debug, PartialEq, Eq, Structural)]
pub enum Position {
    Static, Relative, Absolute, Fixed,
}

/// The position value a keyword stands for; other keywords give
/// `Static`.
pub open spec fn position_of(v: Seq<char>) -> Position {

    if v == "relative"@ {
        Position::Relative
    } else if v == "absolute"@ {
        Position::Absolute
    } else if v == "fixed"@ {
        Position::Fixed
    } else {
        Position::Static
    }
}


/// Parses a position keyword (see `position_of`).
pub fn parse_position(v: &[char]) -> (r: Position)
    ensures
        r == position_of(v@),
{
    if eq_lit(v, "relative") {
        Position::Relative
    } else if eq_lit(v, "absolute") {
        Position::Absolute
    } else if eq_lit(v, "fixed") {
        Position::Fixed
    } else {
        Position::Static
    }
}

/// CSS box-sizing.
#[derive(Clone, Copy, Debug, PartialEq, Eq, Structural)]
pub enum BoxSizing {
    ContentBox, BorderBox,
}

/// The box-sizing value a keyword stands for; other keywords give
/// `ContentBox`.
pub open spec fn box_sizing_of(v: Seq<char>) -> BoxSizing {

    if v == "border-box"@ {
        BoxSizing::BorderBox
    } else {
        BoxSizing::ContentBox
    }
}


/// Parses a box-sizing keyword (see `box_sizing_of`).
pub fn parse_box_sizing(v: &[char]) -> (r: BoxSizing)
    ensures
        r == box_sizing_of(v@),
{
    if eq_lit(v, "border-box") {
        BoxSizing::BorderBox
    } else {
        BoxSizing::ContentBox
    }
}

/// CSS text-align.
#[derive(Clone, Copy, Debug, PartialEq, Eq, Structural)]
pub enum TextAlign {
    Left, Center, Right,
}

/// The text-align value a keyword stands for; other keywords give
/// `Left`.
pub open spec fn text_align_of(v: Seq<char>) -> TextAlign {

    if v == "center"@ {
        TextAlign::Center
    } else if v == "right"@ {
        TextAlign::Right
    } else {
        TextAlign::Left
    }
}


/// Parses a text-align keyword (see `text_align_of`).
pub fn parse_text_align(v: &[char]) -> (r: TextAlign)
    ensures
        r == text_align_of(v@),
{
    if eq_lit(v, "center") {
        TextAlign::Center
    } else if eq_lit(v, "right") {
        TextAlign::Right
    } else {
        TextAlign::Left
    }
}

/// CSS text-transform.
#[derive(Clone, Copy, Debug, PartialEq, Eq, Structural)]
pub enum TextTransform {
    NoTransform, Uppercase, Lowercase, Capitalize,
}

/// The text-transform value a keyword stands for; other keywords give
/// `NoTransform`.
pub open spec fn text_transform_of(v: Seq<char>) -> TextTransform {

    if v == "uppercase"@ {
        TextTransform::Uppercase
    } else if v == "lowercase"@ {
        TextTransform::Lowercase
    } else if v == "capitalize"@ {
        TextTransform::Capitalize
    } else {
        TextTransform::NoTransform
    }
}


/// Parses a text-transform keyword (see `text_transform_of`).
pub fn parse_text_transform(v: &[char]) -> (r: TextTransform)
    ensures
        r == text_transform_of(v@),
{
    if eq_lit(v, "uppercase") {
        TextTransform::Uppercase
    } else if eq_lit(v, "lowercase") {
        TextTransform::Lowercase
    } else if eq_lit(v, "capitalize") {
        TextTransform::Capitalize
    } else {
        TextTransform::NoTransform
    }
}

/// CSS font-style.
#[derive(Clone, Copy, Debug, PartialEq, Eq, Structural)]
pub enum FontStyle {
    Normal, Italic,
}

/// The font-style value a keyword stands for; other keywords give
/// `Normal`.
pub open spec fn font_style_of(v: Seq<char>) -> FontStyle {

    if v == "italic"@ {
        FontStyle::Italic
    } else if v == "oblique"@ {
        FontStyle::Italic
    } else {
        FontStyle::Normal
    }
}


/// Parses a font-style keyword (see `font_style_of`).
pub fn parse_font_style(v: &[char]) -> (r: FontStyle)
    ensures
        r == font_style_of(v@),
{
    if eq_lit(v, "italic") {
        FontStyle::Italic
    } else if eq_lit(v, "oblique") {
        FontStyle::Italic
    } else {
        FontStyle::Normal
    }
}

/// CSS white-space.
#[derive(Clone, Copy, Debug, PartialEq, Eq, Structural)]
pub enum WhiteSpace {
    Normal, Nowrap, Pre, PreWrap, PreLine,
}

/// The white-space value a keyword stands for; other keywords give
/// `Normal`.
pub open spec fn white_space_of(v: Seq<char>) -> WhiteSpace {

    if v == "nowrap"@ {
        WhiteSpace::Nowrap
    } else if v == "pre"@ {
        WhiteSpace::Pre
    } else if v == "pre-wrap"@ {
        WhiteSpace::PreWrap
    } else if v == "pre-line"@ {
        WhiteSpace::PreLine
    } else {
        WhiteSpace::Normal
    }
}


/// Parses a white-space keyword (see `white_space_of`).
pub fn parse_white_space(v: &[char]) -> (r: WhiteSpace)
    ensures
        r == white_space_of(v@),
{
    if eq_lit(v, "nowrap") {
        WhiteSpace::Nowrap
    } else if eq_lit(v, "pre") {
        WhiteSpace::Pre
    } else if eq_lit(v, "pre-wrap") {
        WhiteSpace::PreWrap
    } else if eq_lit(v, "pre-line") {
        WhiteSpace::PreLine
    } else {
        WhiteSpace::Normal
    }
}

/// CSS vertical-align.
#[derive(Clone, Copy, Debug, PartialEq, Eq, Structural)]
pub enum VerticalAlign {
    Baseline, Middle, Top, Bottom,
}

/// The vertical-align value a keyword stands for; other keywords give
/// `Baseline`.
pub open spec fn vertical_align_of(v: Seq<char>) -> VerticalAlign {

    if v == "middle"@ {
        VerticalAlign::Middle
    } else if v == "top"@ {
        VerticalAlign::Top
    } else if v == "bottom"@ {
        VerticalAlign::Bottom
    } else {
        VerticalAlign::Baseline
    }
}


/// Parses a vertical-align keyword (see `vertical_align_of`).
pub fn parse_vertical_align(v: &[char]) -> (r: VerticalAlign)
    ensures
        r == vertical_align_of(v@),
{
    if eq_lit(v, "middle") {
        VerticalAlign::Middle
    } else if eq_lit(v, "top") {
        VerticalAlign::Top
    } else if eq_lit(v, "bottom") {
        VerticalAlign::Bottom
    } else {
        VerticalAlign::Baseline
    }
}

/// CSS flex-direction.
#[derive(Clone, Copy, Debug, PartialEq, Eq, Structural)]
pub enum FlexDirection {
    Row, Column, RowReverse, ColumnReverse,
}

/// The flex-direction value a keyword stands for; other keywords give
/// `Row`.
pub open spec fn flex_direction_of(v: Seq<char>) -> FlexDirection {

    if v == "column"@ {
        FlexDirection::Column
    } else if v == "row-reverse"@ {
        FlexDirection::RowReverse
    } else if v == "column-reverse"@ {
        FlexDirection::ColumnReverse
    } else {
        FlexDirection::Row
    }
}


/// Parses a flex-direction keyword (see `flex_direction_of`).
pub fn parse_flex_direction(v: &[char]) -> (r: FlexDirection)
    ensures
        r == flex_direction_of(v@),
{
    if eq_lit(v, "column") {
        FlexDirection::Column
    } else if eq_lit(v, "row-reverse") {
        FlexDirection::RowReverse
    } else if eq_lit(v, "column-reverse") {
        FlexDirection::ColumnReverse
    } else {
        FlexDirection::Row
    }
}

/// CSS flex-wrap.
#[derive(Clone, Copy, Debug, PartialEq, Eq, Structural)]
pub enum FlexWrap {
    NoWrap, Wrap,
}

/// The flex-wrap value a keyword stands for; other keywords give
/// `NoWrap`.
pub open spec fn flex_wrap_of(v: Seq<char>) -> FlexWrap {

    if v == "wrap"@ {
        FlexWrap::Wrap
    } else {
        FlexWrap::NoWrap
    }
}


/// Parses a flex-wrap keyword (see `flex_wrap_of`).
pub fn parse_flex_wrap(v: &[char]) -> (r: FlexWrap)
    ensures
        r == flex_wrap_of(v@),
{
    if eq_lit(v, "wrap") {
        FlexWrap::Wrap
    } else {
        FlexWrap::NoWrap
    }
}

/// CSS align-items.
#[derive(Clone, Copy, Debug, PartialEq, Eq, Structural)]
pub enum AlignItems {
    Stretch, FlexStart, FlexEnd, Center, Baseline,
}

/// The align-items value a keyword stands for; other keywords give
/// `Stretch`.
pub open spec fn align_items_of(v: Seq<char>) -> AlignItems {

    if v == "flex-start"@ {
        AlignItems::FlexStart
    } else if v == "start"@ {
        AlignItems::FlexStart
    } else if v == "flex-end"@ {
        AlignItems::FlexEnd
    } else if v == "end"@ {
        AlignItems::FlexEnd
    } else if v == "center"@ {
        AlignItems::Center
    } else if v == "baseline"@ {
        AlignItems::Baseline
    } else {
        AlignItems::Stretch
    }
}


/// Parses a align-items keyword (see `align_items_of`).
pub fn parse_align_items(v: &[char]) -> (r: AlignItems)
    ensures
        r == align_items_of(v@),
{
    if eq_lit(v, "flex-start") {
        AlignItems::FlexStart
    } else if eq_lit(v, "start") {
        AlignItems::FlexStart
    } else if eq_lit(v, "flex-end") {
        AlignItems::FlexEnd
    } else if eq_lit(v, "end") {
        AlignItems::FlexEnd
    } else if eq_lit(v, "center") {
        AlignItems::Center
    } else if eq_lit(v, "baseline") {
        AlignItems::Baseline
    } else {
        AlignItems::Stretch
    }
}

/// CSS align-content.
#[derive(Clone, Copy, Debug, PartialEq, Eq, Structural)]
pub enum AlignContent {
    Normal, Stretch, FlexStart, FlexEnd, Center, SpaceBetween, SpaceAround, SpaceEvenly,
}

/// The align-content value a keyword stands for; other keywords give
/// `Normal`.
pub open spec fn align_content_of(v: Seq<char>) -> AlignContent {

    if v == "flex-start"@ {
        AlignContent::FlexStart
    } else if v == "start"@ {
        AlignContent::FlexStart
    } else if v == "flex-end"@ {
        AlignContent::FlexEnd
    } else if v == "end"@ {
        AlignContent::FlexEnd
    } else if v == "center"@ {
        AlignContent::Center
    } else if v == "space-between"@ {
        AlignContent::SpaceBetween
    } else if v == "space-around"@ {
        AlignContent::SpaceAround
    } else if v == "space-evenly"@ {
        AlignContent::SpaceEvenly
    } else if v == "stretch"@ {
        AlignContent::Stretch
    } else {
        AlignContent::Normal
    }
}


/// Parses a align-content keyword (see `align_content_of`).
pub fn parse_align_content(v: &[char]) -> (r: AlignContent)
    ensures
        r == align_content_of(v@),
{
    if eq_lit(v, "flex-start") {
        AlignContent::FlexStart
    } else if eq_lit(v, "start") {
        AlignContent::FlexStart
    } else if eq_lit(v, "flex-end") {
        AlignContent::FlexEnd
    } else if eq_lit(v, "end") {
        AlignContent::FlexEnd
    } else if eq_lit(v, "center") {
        AlignContent::Center
    } else if eq_lit(v, "space-between") {
        AlignContent::SpaceBetween
    } else if eq_lit(v, "space-around") {
        AlignContent::SpaceAround
    } else if eq_lit(v, "space-evenly") {
        AlignContent::SpaceEvenly
    } else if eq_lit(v, "stretch") {
        AlignContent::Stretch
    } else {
        AlignContent::Normal
    }
}

/// CSS justify-content.
#[derive(Clone, Copy, Debug, PartialEq, Eq, Structural)]
pub enum JustifyContent {
    FlexStart, FlexEnd, Center, SpaceBetween, SpaceAround, SpaceEvenly,
}

/// The justify-content value a keyword stands for; other keywords give
/// `FlexStart`.
pub open spec fn justify_content_of(v: Seq<char>) -> JustifyContent {

    if v == "flex-end"@ {
        JustifyContent::FlexEnd
    } else if v == "end"@ {
        JustifyContent::FlexEnd
    } else if v == "center"@ {
        JustifyContent::Center
    } else if v == "space-between"@ {
        JustifyContent::SpaceBetween
    } else if v == "space-around"@ {
        JustifyContent::SpaceAround
    } else if v == "space-evenly"@ {
        JustifyContent::SpaceEvenly
    } else {
        JustifyContent::FlexStart
    }
}


/// Parses a justify-content keyword (see `justify_content_of`).
pub fn parse_justify_content(v: &[char]) -> (r: JustifyContent)
    ensures
        r == justify_content_of(v@),
{
    if eq_lit(v, "flex-end") {
        JustifyContent::FlexEnd
    } else if eq_lit(v, "end") {
        JustifyContent::FlexEnd
    } else if eq_lit(v, "center") {
        JustifyContent::Center
    } else if eq_lit(v, "space-between") {
        JustifyContent::SpaceBetween
    } else if eq_lit(v, "space-around") {
        JustifyContent::SpaceAround
    } else if eq_lit(v, "space-evenly") {
        JustifyContent::SpaceEvenly
    } else {
        JustifyContent::FlexStart
    }
}

/// CSS text-decoration.
#[derive(Clone, Copy, Debug, PartialEq, Eq, Structural)]
pub enum TextDecoration {
    NoDecoration,
    Underline,
    LineThrough,
    Overline,
}

/// The decoration a text-decoration value names: the first of
/// `underline`, `line-through`, `overline` that it contains.
pub open spec fn text_decoration_of(v: Seq<char>) -> TextDecoration {
    if contains_seq(v, "underline"@) {
        TextDecoration::Underline
    } else if contains_seq(v, "line-through"@) {
        TextDecoration::LineThrough
    } else if contains_seq(v, "overline"@) {
        TextDecoration::Overline
    } else {
        TextDecoration::NoDecoration
    }
}

/// Parses a text-decoration value (see `text_decoration_of`).
pub fn parse_text_decoration(v: &[char]) -> (r: TextDecoration)
    ensures
        r == text_decoration_of(v@),
{
    if contains_lit(v, "underline") {
        TextDecoration::Underline
    } else if contains_lit(v, "line-through") {
        TextDecoration::LineThrough
    } else if contains_lit(v, "overline") {
        TextDecoration::Overline
    } else {
        TextDecoration::NoDecoration
    }
}

/// How a `repeat()` in a grid track list repeats.
#[derive(Clone, Copy, Debug, PartialEq, Eq, Structural)]
pub enum GridRepeatKind {
    /// `repeat(3, ...)`
    Count(u16),
    /// `repeat(auto-fill, ...)`
    AutoFill,
    /// `repeat(auto-fit, ...)`
    AutoFit,
}

/// The shape of a radial gradient.
#[derive(Clone, Copy, Debug, PartialEq, Eq, Structural)]
pub enum RadialShape {
    Circle,
    Ellipse,
}

/// The `-webkit-line-clamp` value: a positive `u32`, else none.
pub open spec fn line_clamp_of(v: Seq<char>) -> Option<u32> {
    match parse_unsigned(v, u32::MAX as int) {
        Some(n) => if n > 0 {
            Some(n as u32)
        } else {
            None
        },
        None => None,
    }
}

/// The `z-index` value: 0 for `auto` or anything that is not an `i32`.
pub open spec fn z_index_of(v: Seq<char>) -> i32 {
    if v == "auto"@ {
        0
    } else {
        match parse_signed(v, i32::MIN as int, i32::MAX as int) {
            Some(n) => n as i32,
            None => 0,
        }
    }
}

/// The grid lines of a `grid-column`/`grid-row` value `start / end`: the
/// part before the first `/`, and the part after it when there is one.
pub open spec fn grid_lines_of(v: Seq<char>) -> (Option<int>, Option<int>) {
    match find_first(v, seq!['/']) {
        Some(i) => (grid_line_of(v.subrange(0, i)), grid_line_of(v.subrange(i + 1, v.len() as int))),
        None => (grid_line_of(v), None),
    }
}

/// The `content` value: `none`/`normal` give none; a quoted string gives
/// its inside; an unmatched opening quote gives everything after it;
/// anything else gives none.
pub open spec fn content_of(v: Seq<char>) -> Option<Seq<char>> {
    let t = trim(v);
    if v == "none"@ || v == "normal"@ {
        None
    } else if t.len() >= 2 && ((t[0] == '"' && t.last() == '"') || (t[0] == '\'' && t.last()
        == '\'')) {
        Some(t.subrange(1, t.len() - 1))
    } else if t.len() >= 1 && (t[0] == '"' || t[0] == '\'') {
        Some(t.subrange(1, t.len() as int))
    } else {
        None
    }
}

/// A generic font family.
pub open spec fn is_generic_family(n: Seq<char>) -> bool {
    n == "sans-serif"@ || n == "serif"@ || n == "monospace"@ || n == "cursive"@ || n == "fantasy"@
}

/// The family name that a `font-family` list starts with: the first entry,
/// trimmed and stripped of quotes.
pub open spec fn first_family(v: Seq<char>) -> Seq<char> {
    let first = match find_first(v, seq![',']) {
        Some(i) => v.subrange(0, i),
        None => v,
    };
    trim(trim_quotes(trim(first)))
}

/// The keyword-valued properties of an element's style.
pub struct KeywordStyle {
    pub display: Display,
    pub position: Position,
    pub box_sizing: BoxSizing,
    pub text_align: TextAlign,
    pub text_transform: TextTransform,
    pub text_decoration: TextDecoration,
    pub font_style: FontStyle,
    pub white_space: WhiteSpace,
    pub vertical_align: VerticalAlign,
    pub flex_direction: FlexDirection,
    pub flex_wrap: FlexWrap,
    pub align_items: AlignItems,
    pub align_content: AlignContent,
    pub justify_content: JustifyContent,
    pub font_weight: FontWeight,
    pub blend_mode: BlendMode,
    pub overflow_hidden: bool,
    pub text_overflow_ellipsis: bool,
    pub line_clamp: Option<u32>,
    pub z_index: i32,
    pub grid_column_start: Option<i16>,
    pub grid_column_end: Option<i16>,
    pub grid_row_start: Option<i16>,
    pub grid_row_end: Option<i16>,
    pub content: Option<String>,
    pub font_family: Option<String>,
}

/// The model of the keyword-valued properties.
pub struct KeywordStyleV {
    pub display: Display,
    pub position: Position,
    pub box_sizing: BoxSizing,
    pub text_align: TextAlign,
    pub text_transform: TextTransform,
    pub text_decoration: TextDecoration,
    pub font_style: FontStyle,
    pub white_space: WhiteSpace,
    pub vertical_align: VerticalAlign,
    pub flex_direction: FlexDirection,
    pub flex_wrap: FlexWrap,
    pub align_items: AlignItems,
    pub align_content: AlignContent,
    pub justify_content: JustifyContent,
    pub font_weight: int,
    pub blend_mode: BlendMode,
    pub overflow_hidden: bool,
    pub text_overflow_ellipsis: bool,
    pub line_clamp: Option<u32>,
    pub z_index: i32,
    pub grid_column_start: Option<int>,
    pub grid_column_end: Option<int>,
    pub grid_row_start: Option<int>,
    pub grid_row_end: Option<int>,
    pub content: Option<Seq<char>>,
    pub font_family: Option<Seq<char>>,
}

/// The model of an optional text.
pub open spec fn opt_text(o: Option<String>) -> Option<Seq<char>> {
    match o {
        Some(s) => Some(s@),
        None => None,
    }
}

/// The model of an optional grid line.
pub open spec fn opt_line(o: Option<i16>) -> Option<int> {
    match o {
        Some(v) => Some(v as int),
        None => None,
    }
}

impl KeywordStyle {
    /// The model of these properties.
    pub open spec fn view(&self) -> KeywordStyleV {
        KeywordStyleV {
            display: self.display,
            position: self.position,
            box_sizing: self.box_sizing,
            text_align: self.text_align,
            text_transform: self.text_transform,
            text_decoration: self.text_decoration,
            font_style: self.font_style,
            white_space: self.white_space,
            vertical_align: self.vertical_align,
            flex_direction: self.flex_direction,
            flex_wrap: self.flex_wrap,
            align_items: self.align_items,
            align_content: self.align_content,
            justify_content: self.justify_content,
            font_weight: self.font_weight.weight(),
            blend_mode: self.blend_mode,
            overflow_hidden: self.overflow_hidden,
            text_overflow_ellipsis: self.text_overflow_ellipsis,
            line_clamp: self.line_clamp,
            z_index: self.z_index,
            grid_column_start: opt_line(self.grid_column_start),
            grid_column_end: opt_line(self.grid_column_end),
            grid_row_start: opt_line(self.grid_row_start),
            grid_row_end: opt_line(self.grid_row_end),
            content: opt_text(self.content),
            font_family: opt_text(self.font_family),
        }
    }

    /// The initial values: block, static, content-box, left, no transform or
    /// decoration, normal font style, white space, baseline, row, no wrap,
    /// stretch, normal, flex-start, weight 400, normal blend, no overflow
    /// clipping or ellipsis, no clamp, z-index 0, automatic grid lines, no
    /// content, default family.
    pub fn initial() -> (r: Self)
        ensures
            r.view() == initial_keywords(),
    {
        KeywordStyle {
            display: Display::Block,
            position: Position::Static,
            box_sizing: BoxSizing::ContentBox,
            text_align: TextAlign::Left,
            text_transform: TextTransform::NoTransform,
            text_decoration: TextDecoration::NoDecoration,
            font_style: FontStyle::Normal,
            white_space: WhiteSpace::Normal,
            vertical_align: VerticalAlign::Baseline,
            flex_direction: FlexDirection::Row,
            flex_wrap: FlexWrap::NoWrap,
            align_items: AlignItems::Stretch,
            align_content: AlignContent::Normal,
            justify_content: JustifyContent::FlexStart,
            font_weight: FontWeight::normal(),
            blend_mode: BlendMode::Normal,
            overflow_hidden: false,
            text_overflow_ellipsis: false,
            line_clamp: None,
            z_index: 0,
            grid_column_start: None,
            grid_column_end: None,
            grid_row_start: None,
            grid_row_end: None,
            content: None,
            font_family: None,
        }
    }

    /// The values a child starts with: the inherited properties (text
    /// alignment and transform, font style, white space, font weight and
    /// family, line clamp) from `self`, the initial values for the rest.
    pub fn inherit(&self) -> (r: Self)
        ensures
            r.view() == inherited_keywords(self.view()),
    {
        let mut r = Self::initial();
        r.text_align = self.text_align;
        r.text_transform = self.text_transform;
        r.font_style = self.font_style;
        r.white_space = self.white_space;
        r.font_weight = self.font_weight;
        r.line_clamp = self.line_clamp;
        r.font_family = match &self.font_family {
            Some(f) => Some(f.clone()),
            None => None,
        };
        r
    }
}

/// The initial keyword values.
pub open spec fn initial_keywords() -> KeywordStyleV {
    KeywordStyleV {
        display: Display::Block,
        position: Position::Static,
        box_sizing: BoxSizing::ContentBox,
        text_align: TextAlign::Left,
        text_transform: TextTransform::NoTransform,
        text_decoration: TextDecoration::NoDecoration,
        font_style: FontStyle::Normal,
        white_space: WhiteSpace::Normal,
        vertical_align: VerticalAlign::Baseline,
        flex_direction: FlexDirection::Row,
        flex_wrap: FlexWrap::NoWrap,
        align_items: AlignItems::Stretch,
        align_content: AlignContent::Normal,
        justify_content: JustifyContent::FlexStart,
        font_weight: 400,
        blend_mode: BlendMode::Normal,
        overflow_hidden: false,
        text_overflow_ellipsis: false,
        line_clamp: None,
        z_index: 0,
        grid_column_start: None,
        grid_column_end: None,
        grid_row_start: None,
        grid_row_end: None,
        content: None,
        font_family: None,
    }
}

/// The keyword values a child of an element with values `p` starts with.
pub open spec fn inherited_keywords(p: KeywordStyleV) -> KeywordStyleV {
    KeywordStyleV {
        text_align: p.text_align,
        text_transform: p.text_transform,
        font_style: p.font_style,
        white_space: p.white_space,
        font_weight: p.font_weight,
        line_clamp: p.line_clamp,
        font_family: p.font_family,
        ..initial_keywords()
    }
}

/// A keyword-valued property.
#[derive(Clone, Copy, Debug, PartialEq, Eq, Structural)]
pub enum KeywordProp {
    Display,
    Position,
    BoxSizing,
    TextAlign,
    TextTransform,
    FontStyle,
    WhiteSpace,
    VerticalAlign,
    FlexDirection,
    FlexWrap,
    AlignItems,
    AlignContent,
    JustifyContent,
    MixBlendMode,
    FontWeight,
    TextOverflow,
    LineClamp,
    Overflow,
    ZIndex,
    GridColumnStart,
    GridColumnEnd,
    GridRowStart,
    GridRowEnd,
    Content,
    TextDecoration,
    BoxOrient,
    OverflowAxis,
    GridColumn,
    GridRow,
    FontFamily,
}

/// The keyword-valued property a property name names, if any.
pub open spec fn keyword_prop_of(p: Seq<char>) -> Option<KeywordProp> {
    if p == "display"@ {
        Some(KeywordProp::Display)
    } else if p == "position"@ {
        Some(KeywordProp::Position)
    } else if p == "box-sizing"@ {
        Some(KeywordProp::BoxSizing)
    } else if p == "text-align"@ {
        Some(KeywordProp::TextAlign)
    } else if p == "text-transform"@ {
        Some(KeywordProp::TextTransform)
    } else if p == "font-style"@ {
        Some(KeywordProp::FontStyle)
    } else if p == "white-space"@ {
        Some(KeywordProp::WhiteSpace)
    } else if p == "vertical-align"@ {
        Some(KeywordProp::VerticalAlign)
    } else if p == "flex-direction"@ {
        Some(KeywordProp::FlexDirection)
    } else if p == "flex-wrap"@ {
        Some(KeywordProp::FlexWrap)
    } else if p == "align-items"@ {
        Some(KeywordProp::AlignItems)
    } else if p == "align-content"@ {
        Some(KeywordProp::AlignContent)
    } else if p == "justify-content"@ {
        Some(KeywordProp::JustifyContent)
    } else if p == "mix-blend-mode"@ {
        Some(KeywordProp::MixBlendMode)
    } else if p == "font-weight"@ {
        Some(KeywordProp::FontWeight)
    } else if p == "text-overflow"@ {
        Some(KeywordProp::TextOverflow)
    } else if p == "-webkit-line-clamp"@ {
        Some(KeywordProp::LineClamp)
    } else if p == "overflow"@ {
        Some(KeywordProp::Overflow)
    } else if p == "z-index"@ {
        Some(KeywordProp::ZIndex)
    } else if p == "grid-column-start"@ {
        Some(KeywordProp::GridColumnStart)
    } else if p == "grid-column-end"@ {
        Some(KeywordProp::GridColumnEnd)
    } else if p == "grid-row-start"@ {
        Some(KeywordProp::GridRowStart)
    } else if p == "grid-row-end"@ {
        Some(KeywordProp::GridRowEnd)
    } else if p == "content"@ {
        Some(KeywordProp::Content)
    } else if p == "text-decoration"@ || p == "text-decoration-line"@ {
        Some(KeywordProp::TextDecoration)
    } else if p == "-webkit-box-orient"@ {
        Some(KeywordProp::BoxOrient)
    } else if p == "overflow-x"@ || p == "overflow-y"@ {
        Some(KeywordProp::OverflowAxis)
    } else if p == "grid-column"@ {
        Some(KeywordProp::GridColumn)
    } else if p == "grid-row"@ {
        Some(KeywordProp::GridRow)
    } else if p == "font-family"@ {
        Some(KeywordProp::FontFamily)
    } else {
        None
    }
}

/// The keyword-valued property a property name names, if any.
pub fn keyword_prop(p: &[char]) -> (r: Option<KeywordProp>)
    ensures
        r == keyword_prop_of(p@),
{
    if eq_lit(p, "display") {
        Some(KeywordProp::Display)
    } else if eq_lit(p, "position") {
        Some(KeywordProp::Position)
    } else if eq_lit(p, "box-sizing") {
        Some(KeywordProp::BoxSizing)
    } else if eq_lit(p, "text-align") {
        Some(KeywordProp::TextAlign)
    } else if eq_lit(p, "text-transform") {
        Some(KeywordProp::TextTransform)
    } else if eq_lit(p, "font-style") {
        Some(KeywordProp::FontStyle)
    } else if eq_lit(p, "white-space") {
        Some(KeywordProp::WhiteSpace)
    } else if eq_lit(p, "vertical-align") {
        Some(KeywordProp::VerticalAlign)
    } else if eq_lit(p, "flex-direction") {
        Some(KeywordProp::FlexDirection)
    } else if eq_lit(p, "flex-wrap") {
        Some(KeywordProp::FlexWrap)
    } else if eq_lit(p, "align-items") {
        Some(KeywordProp::AlignItems)
    } else if eq_lit(p, "align-content") {
        Some(KeywordProp::AlignContent)
    } else if eq_lit(p, "justify-content") {
        Some(KeywordProp::JustifyContent)
    } else if eq_lit(p, "mix-blend-mode") {
        Some(KeywordProp::MixBlendMode)
    } else if eq_lit(p, "font-weight") {
        Some(KeywordProp::FontWeight)
    } else if eq_lit(p, "text-overflow") {
        Some(KeywordProp::TextOverflow)
    } else if eq_lit(p, "-webkit-line-clamp") {
        Some(KeywordProp::LineClamp)
    } else if eq_lit(p, "overflow") {
        Some(KeywordProp::Overflow)
    } else if eq_lit(p, "z-index") {
        Some(KeywordProp::ZIndex)
    } else if eq_lit(p, "grid-column-start") {
        Some(KeywordProp::GridColumnStart)
    } else if eq_lit(p, "grid-column-end") {
        Some(KeywordProp::GridColumnEnd)
    } else if eq_lit(p, "grid-row-start") {
        Some(KeywordProp::GridRowStart)
    } else if eq_lit(p, "grid-row-end") {
        Some(KeywordProp::GridRowEnd)
    } else if eq_lit(p, "content") {
        Some(KeywordProp::Content)
    } else if eq_lit(p, "text-decoration") || eq_lit(p, "text-decoration-line") {
        Some(KeywordProp::TextDecoration)
    } else if eq_lit(p, "-webkit-box-orient") {
        Some(KeywordProp::BoxOrient)
    } else if eq_lit(p, "overflow-x") || eq_lit(p, "overflow-y") {
        Some(KeywordProp::OverflowAxis)
    } else if eq_lit(p, "grid-column") {
        Some(KeywordProp::GridColumn)
    } else if eq_lit(p, "grid-row") {
        Some(KeywordProp::GridRow)
    } else if eq_lit(p, "font-family") {
        Some(KeywordProp::FontFamily)
    } else {
        None
    }
}


/// The most bytes one custom property's value may have.
pub const MAX_CUSTOM_PROPERTY_LEN: usize = 4096;

/// The most custom properties one element may hold.
pub const MAX_CUSTOM_PROPERTIES: usize = 1000;

/// The most bytes all of one element's custom property values may have
/// together.
pub const MAX_CUSTOM_PROPERTIES_TOTAL_BYTES: usize = 4194304;

/// A custom property's name: it starts with `--`.
pub open spec fn is_custom_name(p: Seq<char>) -> bool {
    p.len() >= 2 && p[0] == '-' && p[1] == '-'
}

/// The value that a declaration of an ordinary property applies: trimmed,
/// its `var()` references resolved against `props`, trimmed again.
pub open spec fn applied_value(props: Map<Seq<char>, Seq<char>>, value: Seq<char>) -> Seq<char> {
    trim(resolve_value(trim(value), props, 0))
}

/// What a declaration of the keyword-valued property `k` with value `v`
/// does to the keyword-valued properties `s`.
pub open spec fn prop_applied(s: KeywordStyleV, k: KeywordProp, v: Seq<char>) -> KeywordStyleV {
    match k {
        KeywordProp::Display => KeywordStyleV { display: display_of(v), ..s },
        KeywordProp::Position => KeywordStyleV { position: position_of(v), ..s },
        KeywordProp::BoxSizing => KeywordStyleV { box_sizing: box_sizing_of(v), ..s },
        KeywordProp::TextAlign => KeywordStyleV { text_align: text_align_of(v), ..s },
        KeywordProp::TextTransform => KeywordStyleV { text_transform: text_transform_of(v), ..s },
        KeywordProp::FontStyle => KeywordStyleV { font_style: font_style_of(v), ..s },
        KeywordProp::WhiteSpace => KeywordStyleV { white_space: white_space_of(v), ..s },
        KeywordProp::VerticalAlign => KeywordStyleV { vertical_align: vertical_align_of(v), ..s },
        KeywordProp::FlexDirection => KeywordStyleV { flex_direction: flex_direction_of(v), ..s },
        KeywordProp::FlexWrap => KeywordStyleV { flex_wrap: flex_wrap_of(v), ..s },
        KeywordProp::AlignItems => KeywordStyleV { align_items: align_items_of(v), ..s },
        KeywordProp::AlignContent => KeywordStyleV { align_content: align_content_of(v), ..s },
        KeywordProp::JustifyContent => KeywordStyleV { justify_content: justify_content_of(v), ..s },
        KeywordProp::MixBlendMode => KeywordStyleV { blend_mode: blend_mode_of(v), ..s },
        KeywordProp::FontWeight => KeywordStyleV { font_weight: font_weight_of(v), ..s },
        KeywordProp::TextOverflow => KeywordStyleV { text_overflow_ellipsis: v == "ellipsis"@, ..s },
        KeywordProp::LineClamp => KeywordStyleV { line_clamp: line_clamp_of(v), ..s },
        KeywordProp::Overflow => KeywordStyleV { overflow_hidden: v == "hidden"@, ..s },
        KeywordProp::ZIndex => KeywordStyleV { z_index: z_index_of(v), ..s },
        KeywordProp::GridColumnStart => KeywordStyleV { grid_column_start: grid_line_of(v), ..s },
        KeywordProp::GridColumnEnd => KeywordStyleV { grid_column_end: grid_line_of(v), ..s },
        KeywordProp::GridRowStart => KeywordStyleV { grid_row_start: grid_line_of(v), ..s },
        KeywordProp::GridRowEnd => KeywordStyleV { grid_row_end: grid_line_of(v), ..s },
        KeywordProp::Content => KeywordStyleV { content: content_of(v), ..s },
        KeywordProp::TextDecoration => KeywordStyleV { text_decoration: text_decoration_of(v), ..s },
        KeywordProp::BoxOrient => s,
        KeywordProp::OverflowAxis => KeywordStyleV {
            overflow_hidden: if v == "hidden"@ {
                true
            } else {
                s.overflow_hidden
            },
            ..s
        },
        KeywordProp::GridColumn => KeywordStyleV {
            grid_column_start: grid_lines_of(v).0,
            grid_column_end: grid_lines_of(v).1,
            ..s
        },
        KeywordProp::GridRow => KeywordStyleV {
            grid_row_start: grid_lines_of(v).0,
            grid_row_end: grid_lines_of(v).1,
            ..s
        },
        KeywordProp::FontFamily => {
            let n = first_family(v);
            if is_generic_family(n) {
                KeywordStyleV { font_family: None, ..s }
            } else if n.len() > 0 {
                KeywordStyleV { font_family: Some(n), ..s }
            } else {
                s
            }
        },
    }
}

/// What applying the declaration `p: v` does to the keyword-valued
/// properties `s`, and whether `p` is one of them (`v` is the value after
/// `var()` substitution, trimmed).
pub open spec fn keyword_applied(s: KeywordStyleV, p: Seq<char>, v: Seq<char>) -> (KeywordStyleV, bool) {
    match keyword_prop_of(p) {
        Some(k) => (prop_applied(s, k, v), true),
        None => (s, false),
    }
}

/// Parses a `-webkit-line-clamp` value (see `line_clamp_of`).
fn parse_line_clamp(v: &[char]) -> (r: Option<u32>)
    ensures
        r == line_clamp_of(v@),
{
    match parse_uint(v, 4294967295) {
        Some(n) => if n > 0 {
            Some(n as u32)
        } else {
            None
        },
        None => None,
    }
}

/// Parses a `z-index` value (see `z_index_of`).
fn parse_z_index(v: &[char]) -> (r: i32)
    ensures
        r == z_index_of(v@),
{
    if eq_lit(v, "auto") {
        return 0;
    }
    match parse_int(v, 2147483648, 2147483647) {
        Some(n) => n as i32,
        None => 0,
    }
}

/// A grid line from characters.
fn grid_line_chars(v: &[char]) -> (r: Option<i16>)
    ensures
        opt_line(r) == grid_line_of(v@),
{
    let s = string_from_chars(v);
    parse_grid_line(s.as_str())
}

/// Parses a `start / end` grid value (see `grid_lines_of`).
fn parse_grid_lines(v: &[char]) -> (r: (Option<i16>, Option<i16>))
    ensures
        (opt_line(r.0), opt_line(r.1)) == grid_lines_of(v@),
{
    proof {
        reveal_strlit("/");
        assert("/"@ == seq!['/']);
    }
    match find_lit(v, "/") {
        Some(i) => {
            assert(occurs_at(v@, "/"@, i as int));
            let n = v.len();
            let a = grid_line_chars(&copy_range(v, 0, i));
            let b = grid_line_chars(&copy_range(v, i + 1, n));
            (a, b)
        },
        None => (grid_line_chars(v), None),
    }
}

/// Parses a `content` value (see `content_of`).
fn parse_content(v: &[char]) -> (r: Option<String>)
    ensures
        opt_text(r) == content_of(v@),
{
    if eq_lit(v, "none") || eq_lit(v, "normal") {
        return None;
    }
    let t = trim_chars(v);
    let n = t.len();
    if n >= 2 && ((t[0] == '"' && t[n - 1] == '"') || (t[0] == '\'' && t[n - 1] == '\'')) {
        Some(string_from_chars(&copy_range(&t, 1, n - 1)))
    } else if n >= 1 && (t[0] == '"' || t[0] == '\'') {
        Some(string_from_chars(&copy_range(&t, 1, n)))
    } else {
        None
    }
}

/// The first family of a `font-family` list (see `first_family`).
fn parse_first_family(v: &[char]) -> (r: Vec<char>)
    ensures
        r@ == first_family(v@),
{
    proof {
        reveal_strlit(",");
        assert(","@ == seq![',']);
    }
    let first = match find_lit(v, ",") {
        Some(i) => copy_range(v, 0, i),
        None => copy_range(v, 0, v.len()),
    };
    assert(v@.subrange(0, v@.len() as int) == v@);
    trim_chars(&trim_quote_chars(&trim_chars(&first)))
}

impl KeywordStyle {
    /// Applies a box or text keyword (`display` to `white-space`).
    fn apply_box_keyword(&mut self, k: KeywordProp, v: &[char])
        requires
            matches!(k, KeywordProp::Display | KeywordProp::Position | KeywordProp::BoxSizing
                | KeywordProp::TextAlign | KeywordProp::TextTransform | KeywordProp::FontStyle
                | KeywordProp::WhiteSpace),
        ensures
            final(self).view() == prop_applied(old(self).view(), k, v@),
    {
        match k {
            KeywordProp::Display => {
                self.display = parse_display(v);
            },
            KeywordProp::Position => {
                self.position = parse_position(v);
            },
            KeywordProp::BoxSizing => {
                self.box_sizing = parse_box_sizing(v);
            },
            KeywordProp::TextAlign => {
                self.text_align = parse_text_align(v);
            },
            KeywordProp::TextTransform => {
                self.text_transform = parse_text_transform(v);
            },
            KeywordProp::FontStyle => {
                self.font_style = parse_font_style(v);
            },
            _ => {
                self.white_space = parse_white_space(v);
            },
        }
    }

    /// Applies an alignment or flex keyword (`vertical-align` to
    /// `justify-content`).
    fn apply_flex_keyword(&mut self, k: KeywordProp, v: &[char])
        requires
            matches!(k, KeywordProp::VerticalAlign | KeywordProp::FlexDirection
                | KeywordProp::FlexWrap | KeywordProp::AlignItems | KeywordProp::AlignContent
                | KeywordProp::JustifyContent),
        ensures
            final(self).view() == prop_applied(old(self).view(), k, v@),
    {
        match k {
            KeywordProp::VerticalAlign => {
                self.vertical_align = parse_vertical_align(v);
            },
            KeywordProp::FlexDirection => {
                self.flex_direction = parse_flex_direction(v);
            },
            KeywordProp::FlexWrap => {
                self.flex_wrap = parse_flex_wrap(v);
            },
            KeywordProp::AlignItems => {
                self.align_items = parse_align_items(v);
            },
            KeywordProp::AlignContent => {
                self.align_content = parse_align_content(v);
            },
            _ => {
                self.justify_content = parse_justify_content(v);
            },
        }
    }

    /// Applies a blend, weight, overflow, clamp or stacking value.
    fn apply_misc_keyword(&mut self, k: KeywordProp, value: &str, v: &[char])
        requires
            v@ == value@,
            matches!(k, KeywordProp::MixBlendMode | KeywordProp::FontWeight
                | KeywordProp::TextOverflow | KeywordProp::LineClamp | KeywordProp::Overflow
                | KeywordProp::ZIndex),
        ensures
            final(self).view() == prop_applied(old(self).view(), k, v@),
    {
        match k {
            KeywordProp::MixBlendMode => {
                self.blend_mode = BlendMode::parse(value);
            },
            KeywordProp::FontWeight => {
                self.font_weight = FontWeight::parse(value);
            },
            KeywordProp::TextOverflow => {
                self.text_overflow_ellipsis = eq_lit(v, "ellipsis");
            },
            KeywordProp::LineClamp => {
                self.line_clamp = parse_line_clamp(v);
            },
            KeywordProp::Overflow => {
                self.overflow_hidden = eq_lit(v, "hidden");
            },
            _ => {
                self.z_index = parse_z_index(v);
            },
        }
    }

    /// Applies a grid placement.
    fn apply_grid_keyword(&mut self, k: KeywordProp, value: &str, v: &[char])
        requires
            v@ == value@,
            matches!(k, KeywordProp::GridColumnStart | KeywordProp::GridColumnEnd
                | KeywordProp::GridRowStart | KeywordProp::GridRowEnd | KeywordProp::GridColumn
                | KeywordProp::GridRow),
        ensures
            final(self).view() == prop_applied(old(self).view(), k, v@),
    {
        match k {
            KeywordProp::GridColumnStart => {
                self.grid_column_start = parse_grid_line(value);
            },
            KeywordProp::GridColumnEnd => {
                self.grid_column_end = parse_grid_line(value);
            },
            KeywordProp::GridRowStart => {
                self.grid_row_start = parse_grid_line(value);
            },
            KeywordProp::GridRowEnd => {
                self.grid_row_end = parse_grid_line(value);
            },
            KeywordProp::GridColumn => {
                let (a, b) = parse_grid_lines(v);
                self.grid_column_start = a;
                self.grid_column_end = b;
            },
            _ => {
                let (a, b) = parse_grid_lines(v);
                self.grid_row_start = a;
                self.grid_row_end = b;
            },
        }
    }

    /// Applies `content`, `text-decoration`, `-webkit-box-orient`,
    /// `overflow-x`/`overflow-y` or `font-family`.
    fn apply_text_keyword(&mut self, k: KeywordProp, v: &[char])
        requires
            matches!(k, KeywordProp::Content | KeywordProp::TextDecoration
                | KeywordProp::BoxOrient | KeywordProp::OverflowAxis | KeywordProp::FontFamily),
        ensures
            final(self).view() == prop_applied(old(self).view(), k, v@),
    {
        match k {
            KeywordProp::Content => {
                self.content = parse_content(v);
            },
            KeywordProp::TextDecoration => {
                self.text_decoration = parse_text_decoration(v);
            },
            KeywordProp::BoxOrient => {},
            KeywordProp::OverflowAxis => {
                if eq_lit(v, "hidden") {
                    self.overflow_hidden = true;
                }
            },
            _ => self.apply_font_family(v),
        }
    }

    /// Applies `font-family`.
    #[verifier::rlimit(100)]
    fn apply_font_family(&mut self, v: &[char])
        ensures
            final(self).view() == prop_applied(old(self).view(), KeywordProp::FontFamily, v@),
    {
        let n = parse_first_family(v);
        let generic = eq_lit(&n, "sans-serif") || eq_lit(&n, "serif") || eq_lit(&n, "monospace")
            || eq_lit(&n, "cursive") || eq_lit(&n, "fantasy");
        assert(generic == is_generic_family(first_family(v@)));
        if generic {
            self.font_family = None;
        } else if n.len() > 0 {
            self.font_family = Some(string_from_chars(&n));
        }
    }

    /// Applies a declaration of the keyword-valued property `k` (see
    /// `prop_applied`).
    pub fn apply_prop(&mut self, k: KeywordProp, value: &str)
        ensures
            final(self).view() == prop_applied(old(self).view(), k, value@),
    {
        let v = chars_of(value);
        match k {
            KeywordProp::Display | KeywordProp::Position | KeywordProp::BoxSizing
            | KeywordProp::TextAlign | KeywordProp::TextTransform | KeywordProp::FontStyle
            | KeywordProp::WhiteSpace => self.apply_box_keyword(k, &v),
            KeywordProp::VerticalAlign | KeywordProp::FlexDirection | KeywordProp::FlexWrap
            | KeywordProp::AlignItems | KeywordProp::AlignContent
            | KeywordProp::JustifyContent => self.apply_flex_keyword(k, &v),
            KeywordProp::MixBlendMode | KeywordProp::FontWeight | KeywordProp::TextOverflow
            | KeywordProp::LineClamp | KeywordProp::Overflow
            | KeywordProp::ZIndex => self.apply_misc_keyword(k, value, &v),
            KeywordProp::GridColumnStart | KeywordProp::GridColumnEnd
            | KeywordProp::GridRowStart | KeywordProp::GridRowEnd | KeywordProp::GridColumn
            | KeywordProp::GridRow => self.apply_grid_keyword(k, value, &v),
            _ => self.apply_text_keyword(k, &v),
        }
    }

    /// Applies the declaration `property: value` when `property` is one of
    /// the keyword-valued properties (`value` is the value after `var()`
    /// substitution, trimmed); says whether it was (see `keyword_applied`).
    pub fn apply_keyword_declaration(&mut self, property: &str, value: &str) -> (handled: bool)
        ensures
            (final(self).view(), handled) == keyword_applied(old(self).view(), property@, value@),
    {
        match keyword_prop(&chars_of(property)) {
            Some(k) => {
                self.apply_prop(k, value);
                true
            },
            None => false,
        }
    }

    /// Applies the declaration `property: value` to an element whose custom
    /// properties are `props`. A custom property (`--name`) takes the
    /// trimmed value when that stays within the limits (at most
    /// `MAX_CUSTOM_PROPERTIES` properties, `MAX_CUSTOM_PROPERTY_LEN` bytes
    /// for the value, `MAX_CUSTOM_PROPERTIES_TOTAL_BYTES` for all values).
    /// Any other property applies with its `var()` references resolved (see
    /// `applied_value`): a keyword-valued one here, and for the others the
    /// value is handed back for the caller to apply.
    pub fn apply_declaration(&mut self, props: &mut TextMap, property: &str, value: &str) -> (rest:
        Option<String>)
        requires
            old(props).wf(),
        ensures
            final(props).wf(),
            is_custom_name(property@) ==> {
                &&& rest is None
                &&& final(self).view() == old(self).view()
                &&& if old(props).within_limits(
                    property@,
                    byte_len(trim(value@)),
                    MAX_CUSTOM_PROPERTIES as int,
                    MAX_CUSTOM_PROPERTY_LEN as int,
                    MAX_CUSTOM_PROPERTIES_TOTAL_BYTES as int,
                ) {
                    final(props).view() == old(props).view().insert(property@, trim(value@))
                        && final(props).entries() == entries_insert(
                        old(props).entries(),
                        property@,
                        trim(value@),
                    )
                } else {
                    final(props).entries() == old(props).entries()
                }
            },
            !is_custom_name(property@) ==> {
                let v = applied_value(old(props).view(), value@);
                let (after, handled) = keyword_applied(old(self).view(), property@, v);
                &&& final(props).entries() == old(props).entries()
                &&& final(self).view() == after
                &&& handled ==> rest is None
                &&& !handled ==> rest is Some && rest->0@ == v
            },
    {
        let v = trim_chars(&chars_of(value));
        let pc = chars_of(property);
        if pc.len() >= 2 && pc[0] == '-' && pc[1] == '-' {
            let key = string_from_chars(&pc);
            let val = string_from_chars(&v);
            let _ = props.insert_limited(
                key,
                val,
                MAX_CUSTOM_PROPERTIES,
                MAX_CUSTOM_PROPERTY_LEN,
                MAX_CUSTOM_PROPERTIES_TOTAL_BYTES,
            );
            return None;
        }
        let resolved = resolve_var(string_from_chars(&v).as_str(), props);
        let t = string_from_chars(&trim_chars(&chars_of(resolved.as_str())));
        if self.apply_keyword_declaration(property, t.as_str()) {
            None
        } else {
            Some(t)
        }
    }
}


/// The CSS keyword of each display value.
pub open spec fn display_keyword(d: Display) -> Seq<char> {
    match d {
        Display::Block => "block"@,
        Display::Flex => "flex"@,
        Display::Grid => "grid"@,
        Display::Inline => "inline"@,
        Display::InlineBlock => "inline-block"@,
        Display::NoDisplay => "none"@,
    }
}

/// Each display keyword gives its own value, as a `display` declaration
/// applies it to any style (`display: grid` gives `Grid`), and a keyword
/// that gives anything but `Block` is the keyword of what it gives.
pub proof fn law_display_keywords(s: KeywordStyleV, d: Display, v: Seq<char>)
    ensures
        display_of(display_keyword(d)) == d,
        keyword_applied(s, "display"@, display_keyword(d)).0.display == d,
        display_of(v) != Display::Block ==> v == display_keyword(display_of(v)),
{
    reveal_strlit("block");
    reveal_strlit("flex");
    reveal_strlit("grid");
    reveal_strlit("inline");
    reveal_strlit("inline-block");
    reveal_strlit("none");
    reveal_strlit("-webkit-box");
    reveal_strlit("display");
    let k = display_keyword(d);
    assert(k.len() > 0 && k[0] != '-');
    if d != Display::Flex {
        assert(k != "flex"@ ) by {
            if k.len() == 4 {
                assert(k[0] != 'f' || k[1] != 'l');
            }
        }
    }
    if d != Display::Grid {
        assert(k != "grid"@ ) by {
            if k.len() == 4 {
                assert(k[0] != 'g');
            }
        }
    }
    if d != Display::Inline {
        assert(k != "inline"@ ) by {
            if k.len() == 6 {
                assert(k[0] != 'i');
            }
        }
    }
    if d != Display::NoDisplay {
        assert(k != "none"@ ) by {
            if k.len() == 4 {
                assert(k[0] != 'n');
            }
        }
    }
    assert(k != "-webkit-box"@ ) by {
        assert("-webkit-box"@[0] == '-');
    }
    assert(keyword_prop_of("display"@) == Some(KeywordProp::Display));
}

/// Two texts that differ in length, or in the character at `i`, differ.
proof fn lemma_texts_differ(a: Seq<char>, b: Seq<char>, i: int)
    requires
        a.len() != b.len() || (0 <= i < a.len() && i < b.len() && a[i] != b[i]),
    ensures
        a != b,
{
}

/// The CSS keyword of each position value.
pub open spec fn position_keyword(x: Position) -> Seq<char> {
    match x {
        Position::Relative => "relative"@,
        Position::Absolute => "absolute"@,
        Position::Fixed => "fixed"@,
        Position::Static => "static"@,
    }
}

/// Each position keyword gives its own value.
pub proof fn law_position_keywords(x: Position)
    ensures
        position_of(position_keyword(x)) == x,
{
    reveal_strlit("absolute");
    reveal_strlit("fixed");
    reveal_strlit("relative");
    reveal_strlit("static");
    match x {
        Position::Relative => {},
        Position::Absolute => {
            lemma_texts_differ("absolute"@, "relative"@, 0);
        },
        Position::Fixed => {
            lemma_texts_differ("fixed"@, "relative"@, 0);
            lemma_texts_differ("fixed"@, "absolute"@, 0);
        },
        Position::Static => {
            lemma_texts_differ("static"@, "relative"@, 0);
            lemma_texts_differ("static"@, "absolute"@, 0);
            lemma_texts_differ("static"@, "fixed"@, 0);
        },
    }
}

/// The CSS keyword of each box-sizing value.
pub open spec fn box_sizing_keyword(x: BoxSizing) -> Seq<char> {
    match x {
        BoxSizing::BorderBox => "border-box"@,
        BoxSizing::ContentBox => "content-box"@,
    }
}

/// Each box-sizing keyword gives its own value.
pub proof fn law_box_sizing_keywords(x: BoxSizing)
    ensures
        box_sizing_of(box_sizing_keyword(x)) == x,
{
    reveal_strlit("border-box");
    reveal_strlit("content-box");
    match x {
        BoxSizing::BorderBox => {},
        BoxSizing::ContentBox => {
            lemma_texts_differ("content-box"@, "border-box"@, 0);
        },
    }
}

/// The CSS keyword of each text-align value.
pub open spec fn text_align_keyword(x: TextAlign) -> Seq<char> {
    match x {
        TextAlign::Center => "center"@,
        TextAlign::Right => "right"@,
        TextAlign::Left => "left"@,
    }
}

/// Each text-align keyword gives its own value.
pub proof fn law_text_align_keywords(x: TextAlign)
    ensures
        text_align_of(text_align_keyword(x)) == x,
{
    reveal_strlit("center");
    reveal_strlit("left");
    reveal_strlit("right");
    match x {
        TextAlign::Center => {},
        TextAlign::Right => {
            lemma_texts_differ("right"@, "center"@, 0);
        },
        TextAlign::Left => {
            lemma_texts_differ("left"@, "center"@, 0);
            lemma_texts_differ("left"@, "right"@, 0);
        },
    }
}

/// The CSS keyword of each text-transform value.
pub open spec fn text_transform_keyword(x: TextTransform) -> Seq<char> {
    match x {
        TextTransform::Uppercase => "uppercase"@,
        TextTransform::Lowercase => "lowercase"@,
        TextTransform::Capitalize => "capitalize"@,
        TextTransform::NoTransform => "none"@,
    }
}

/// Each text-transform keyword gives its own value.
pub proof fn law_text_transform_keywords(x: TextTransform)
    ensures
        text_transform_of(text_transform_keyword(x)) == x,
{
    reveal_strlit("capitalize");
    reveal_strlit("lowercase");
    reveal_strlit("none");
    reveal_strlit("uppercase");
    match x {
        TextTransform::Uppercase => {},
        TextTransform::Lowercase => {
            lemma_texts_differ("lowercase"@, "uppercase"@, 0);
        },
        TextTransform::Capitalize => {
            lemma_texts_differ("capitalize"@, "uppercase"@, 0);
            lemma_texts_differ("capitalize"@, "lowercase"@, 0);
        },
        TextTransform::NoTransform => {
            lemma_texts_differ("none"@, "uppercase"@, 0);
            lemma_texts_differ("none"@, "lowercase"@, 0);
            lemma_texts_differ("none"@, "capitalize"@, 0);
        },
    }
}

/// The CSS keyword of each font-style value.
pub open spec fn font_style_keyword(x: FontStyle) -> Seq<char> {
    match x {
        FontStyle::Italic => "italic"@,
        FontStyle::Normal => "normal"@,
    }
}

/// Each font-style keyword gives its own value.
pub proof fn law_font_style_keywords(x: FontStyle)
    ensures
        font_style_of(font_style_keyword(x)) == x,
{
    reveal_strlit("italic");
    reveal_strlit("normal");
    reveal_strlit("oblique");
    match x {
        FontStyle::Italic => {},
        FontStyle::Normal => {
            lemma_texts_differ("normal"@, "italic"@, 0);
            lemma_texts_differ("normal"@, "oblique"@, 0);
        },
    }
}

/// The CSS keyword of each white-space value.
pub open spec fn white_space_keyword(x: WhiteSpace) -> Seq<char> {
    match x {
        WhiteSpace::Nowrap => "nowrap"@,
        WhiteSpace::Pre => "pre"@,
        WhiteSpace::PreWrap => "pre-wrap"@,
        WhiteSpace::PreLine => "pre-line"@,
        WhiteSpace::Normal => "normal"@,
    }
}

/// Each white-space keyword gives its own value.
pub proof fn law_white_space_keywords(x: WhiteSpace)
    ensures
        white_space_of(white_space_keyword(x)) == x,
{
    reveal_strlit("normal");
    reveal_strlit("nowrap");
    reveal_strlit("pre");
    reveal_strlit("pre-line");
    reveal_strlit("pre-wrap");
    match x {
        WhiteSpace::Nowrap => {},
        WhiteSpace::Pre => {
            lemma_texts_differ("pre"@, "nowrap"@, 0);
        },
        WhiteSpace::PreWrap => {
            lemma_texts_differ("pre-wrap"@, "nowrap"@, 0);
            lemma_texts_differ("pre-wrap"@, "pre"@, 0);
        },
        WhiteSpace::PreLine => {
            lemma_texts_differ("pre-line"@, "nowrap"@, 0);
            lemma_texts_differ("pre-line"@, "pre"@, 0);
            lemma_texts_differ("pre-line"@, "pre-wrap"@, 4);
        },
        WhiteSpace::Normal => {
            lemma_texts_differ("normal"@, "nowrap"@, 2);
            lemma_texts_differ("normal"@, "pre"@, 0);
            lemma_texts_differ("normal"@, "pre-wrap"@, 0);
            lemma_texts_differ("normal"@, "pre-line"@, 0);
        },
    }
}

/// The CSS keyword of each vertical-align value.
pub open spec fn vertical_align_keyword(x: VerticalAlign) -> Seq<char> {
    match x {
        VerticalAlign::Middle => "middle"@,
        VerticalAlign::Top => "top"@,
        VerticalAlign::Bottom => "bottom"@,
        VerticalAlign::Baseline => "baseline"@,
    }
}

/// Each vertical-align keyword gives its own value.
pub proof fn law_vertical_align_keywords(x: VerticalAlign)
    ensures
        vertical_align_of(vertical_align_keyword(x)) == x,
{
    reveal_strlit("baseline");
    reveal_strlit("bottom");
    reveal_strlit("middle");
    reveal_strlit("top");
    match x {
        VerticalAlign::Middle => {},
        VerticalAlign::Top => {
            lemma_texts_differ("top"@, "middle"@, 0);
        },
        VerticalAlign::Bottom => {
            lemma_texts_differ("bottom"@, "middle"@, 0);
            lemma_texts_differ("bottom"@, "top"@, 0);
        },
        VerticalAlign::Baseline => {
            lemma_texts_differ("baseline"@, "middle"@, 0);
            lemma_texts_differ("baseline"@, "top"@, 0);
            lemma_texts_differ("baseline"@, "bottom"@, 0);
        },
    }
}

/// The CSS keyword of each flex-direction value.
pub open spec fn flex_direction_keyword(x: FlexDirection) -> Seq<char> {
    match x {
        FlexDirection::Column => "column"@,
        FlexDirection::RowReverse => "row-reverse"@,
        FlexDirection::ColumnReverse => "column-reverse"@,
        FlexDirection::Row => "row"@,
    }
}

/// Each flex-direction keyword gives its own value.
pub proof fn law_flex_direction_keywords(x: FlexDirection)
    ensures
        flex_direction_of(flex_direction_keyword(x)) == x,
{
    reveal_strlit("column");
    reveal_strlit("column-reverse");
    reveal_strlit("row");
    reveal_strlit("row-reverse");
    match x {
        FlexDirection::Column => {},
        FlexDirection::RowReverse => {
            lemma_texts_differ("row-reverse"@, "column"@, 0);
        },
        FlexDirection::ColumnReverse => {
            lemma_texts_differ("column-reverse"@, "column"@, 0);
            lemma_texts_differ("column-reverse"@, "row-reverse"@, 0);
        },
        FlexDirection::Row => {
            lemma_texts_differ("row"@, "column"@, 0);
            lemma_texts_differ("row"@, "row-reverse"@, 0);
            lemma_texts_differ("row"@, "column-reverse"@, 0);
        },
    }
}

/// The CSS keyword of each flex-wrap value.
pub open spec fn flex_wrap_keyword(x: FlexWrap) -> Seq<char> {
    match x {
        FlexWrap::Wrap => "wrap"@,
        FlexWrap::NoWrap => "nowrap"@,
    }
}

/// Each flex-wrap keyword gives its own value.
pub proof fn law_flex_wrap_keywords(x: FlexWrap)
    ensures
        flex_wrap_of(flex_wrap_keyword(x)) == x,
{
    reveal_strlit("nowrap");
    reveal_strlit("wrap");
    match x {
        FlexWrap::Wrap => {},
        FlexWrap::NoWrap => {
            lemma_texts_differ("nowrap"@, "wrap"@, 0);
        },
    }
}

/// The CSS keyword of each align-items value.
pub open spec fn align_items_keyword(x: AlignItems) -> Seq<char> {
    match x {
        AlignItems::FlexStart => "flex-start"@,
        AlignItems::FlexEnd => "flex-end"@,
        AlignItems::Center => "center"@,
        AlignItems::Baseline => "baseline"@,
        AlignItems::Stretch => "stretch"@,
    }
}

/// Each align-items keyword gives its own value.
pub proof fn law_align_items_keywords(x: AlignItems)
    ensures
        align_items_of(align_items_keyword(x)) == x,
{
    reveal_strlit("baseline");
    reveal_strlit("center");
    reveal_strlit("end");
    reveal_strlit("flex-end");
    reveal_strlit("flex-start");
    reveal_strlit("start");
    reveal_strlit("stretch");
    match x {
        AlignItems::FlexStart => {},
        AlignItems::FlexEnd => {
            lemma_texts_differ("flex-end"@, "flex-start"@, 0);
            lemma_texts_differ("flex-end"@, "start"@, 0);
        },
        AlignItems::Center => {
            lemma_texts_differ("center"@, "flex-start"@, 0);
            lemma_texts_differ("center"@, "start"@, 0);
            lemma_texts_differ("center"@, "flex-end"@, 0);
            lemma_texts_differ("center"@, "end"@, 0);
        },
        AlignItems::Baseline => {
            lemma_texts_differ("baseline"@, "flex-start"@, 0);
            lemma_texts_differ("baseline"@, "start"@, 0);
            lemma_texts_differ("baseline"@, "flex-end"@, 0);
            lemma_texts_differ("baseline"@, "end"@, 0);
            lemma_texts_differ("baseline"@, "center"@, 0);
        },
        AlignItems::Stretch => {
            lemma_texts_differ("stretch"@, "flex-start"@, 0);
            lemma_texts_differ("stretch"@, "start"@, 0);
            lemma_texts_differ("stretch"@, "flex-end"@, 0);
            lemma_texts_differ("stretch"@, "end"@, 0);
            lemma_texts_differ("stretch"@, "center"@, 0);
            lemma_texts_differ("stretch"@, "baseline"@, 0);
        },
    }
}

/// The CSS keyword of each align-content value.
pub open spec fn align_content_keyword(x: AlignContent) -> Seq<char> {
    match x {
        AlignContent::FlexStart => "flex-start"@,
        AlignContent::FlexEnd => "flex-end"@,
        AlignContent::Center => "center"@,
        AlignContent::SpaceBetween => "space-between"@,
        AlignContent::SpaceAround => "space-around"@,
        AlignContent::SpaceEvenly => "space-evenly"@,
        AlignContent::Stretch => "stretch"@,
        AlignContent::Normal => "normal"@,
    }
}

/// Each align-content keyword gives its own value.
pub proof fn law_align_content_keywords(x: AlignContent)
    ensures
        align_content_of(align_content_keyword(x)) == x,
{
    reveal_strlit("center");
    reveal_strlit("end");
    reveal_strlit("flex-end");
    reveal_strlit("flex-start");
    reveal_strlit("normal");
    reveal_strlit("space-around");
    reveal_strlit("space-between");
    reveal_strlit("space-evenly");
    reveal_strlit("start");
    reveal_strlit("stretch");
    match x {
        AlignContent::FlexStart => {},
        AlignContent::FlexEnd => {
            lemma_texts_differ("flex-end"@, "flex-start"@, 0);
            lemma_texts_differ("flex-end"@, "start"@, 0);
        },
        AlignContent::Center => {
            lemma_texts_differ("center"@, "flex-start"@, 0);
            lemma_texts_differ("center"@, "start"@, 0);
            lemma_texts_differ("center"@, "flex-end"@, 0);
            lemma_texts_differ("center"@, "end"@, 0);
        },
        AlignContent::SpaceBetween => {
            lemma_texts_differ("space-between"@, "flex-start"@, 0);
            lemma_texts_differ("space-between"@, "start"@, 0);
            lemma_texts_differ("space-between"@, "flex-end"@, 0);
            lemma_texts_differ("space-between"@, "end"@, 0);
            lemma_texts_differ("space-between"@, "center"@, 0);
        },
        AlignContent::SpaceAround => {
            lemma_texts_differ("space-around"@, "flex-start"@, 0);
            lemma_texts_differ("space-around"@, "start"@, 0);
            lemma_texts_differ("space-around"@, "flex-end"@, 0);
            lemma_texts_differ("space-around"@, "end"@, 0);
            lemma_texts_differ("space-around"@, "center"@, 0);
            lemma_texts_differ("space-around"@, "space-between"@, 0);
        },
        AlignContent::SpaceEvenly => {
            lemma_texts_differ("space-evenly"@, "flex-start"@, 0);
            lemma_texts_differ("space-evenly"@, "start"@, 0);
            lemma_texts_differ("space-evenly"@, "flex-end"@, 0);
            lemma_texts_differ("space-evenly"@, "end"@, 0);
            lemma_texts_differ("space-evenly"@, "center"@, 0);
            lemma_texts_differ("space-evenly"@, "space-between"@, 0);
            lemma_texts_differ("space-evenly"@, "space-around"@, 6);
        },
        AlignContent::Stretch => {
            lemma_texts_differ("stretch"@, "flex-start"@, 0);
            lemma_texts_differ("stretch"@, "start"@, 0);
            lemma_texts_differ("stretch"@, "flex-end"@, 0);
            lemma_texts_differ("stretch"@, "end"@, 0);
            lemma_texts_differ("stretch"@, "center"@, 0);
            lemma_texts_differ("stretch"@, "space-between"@, 0);
            lemma_texts_differ("stretch"@, "space-around"@, 0);
            lemma_texts_differ("stretch"@, "space-evenly"@, 0);
        },
        AlignContent::Normal => {
            lemma_texts_differ("normal"@, "flex-start"@, 0);
            lemma_texts_differ("normal"@, "start"@, 0);
            lemma_texts_differ("normal"@, "flex-end"@, 0);
            lemma_texts_differ("normal"@, "end"@, 0);
            lemma_texts_differ("normal"@, "center"@, 0);
            lemma_texts_differ("normal"@, "space-between"@, 0);
            lemma_texts_differ("normal"@, "space-around"@, 0);
            lemma_texts_differ("normal"@, "space-evenly"@, 0);
            lemma_texts_differ("normal"@, "stretch"@, 0);
        },
    }
}

/// The CSS keyword of each justify-content value.
pub open spec fn justify_content_keyword(x: JustifyContent) -> Seq<char> {
    match x {
        JustifyContent::FlexEnd => "flex-end"@,
        JustifyContent::Center => "center"@,
        JustifyContent::SpaceBetween => "space-between"@,
        JustifyContent::SpaceAround => "space-around"@,
        JustifyContent::SpaceEvenly => "space-evenly"@,
        JustifyContent::FlexStart => "flex-start"@,
    }
}

/// Each justify-content keyword gives its own value.
pub proof fn law_justify_content_keywords(x: JustifyContent)
    ensures
        justify_content_of(justify_content_keyword(x)) == x,
{
    reveal_strlit("center");
    reveal_strlit("end");
    reveal_strlit("flex-end");
    reveal_strlit("flex-start");
    reveal_strlit("space-around");
    reveal_strlit("space-between");
    reveal_strlit("space-evenly");
    match x {
        JustifyContent::FlexEnd => {},
        JustifyContent::Center => {
            lemma_texts_differ("center"@, "flex-end"@, 0);
            lemma_texts_differ("center"@, "end"@, 0);
        },
        JustifyContent::SpaceBetween => {
            lemma_texts_differ("space-between"@, "flex-end"@, 0);
            lemma_texts_differ("space-between"@, "end"@, 0);
            lemma_texts_differ("space-between"@, "center"@, 0);
        },
        JustifyContent::SpaceAround => {
            lemma_texts_differ("space-around"@, "flex-end"@, 0);
            lemma_texts_differ("space-around"@, "end"@, 0);
            lemma_texts_differ("space-around"@, "center"@, 0);
            lemma_texts_differ("space-around"@, "space-between"@, 0);
        },
        JustifyContent::SpaceEvenly => {
            lemma_texts_differ("space-evenly"@, "flex-end"@, 0);
            lemma_texts_differ("space-evenly"@, "end"@, 0);
            lemma_texts_differ("space-evenly"@, "center"@, 0);
            lemma_texts_differ("space-evenly"@, "space-between"@, 0);
            lemma_texts_differ("space-evenly"@, "space-around"@, 6);
        },
        JustifyContent::FlexStart => {
            lemma_texts_differ("flex-start"@, "flex-end"@, 0);
            lemma_texts_differ("flex-start"@, "end"@, 0);
            lemma_texts_differ("flex-start"@, "center"@, 0);
            lemma_texts_differ("flex-start"@, "space-between"@, 0);
            lemma_texts_differ("flex-start"@, "space-around"@, 0);
            lemma_texts_differ("flex-start"@, "space-evenly"@, 0);
        },
    }
}

} // verus!
