//! CSS and canvas keyword types and their keyword tables.
use vstd::prelude::*;
use crate::num::parse_unsigned;
use crate::num::parse_uint;
use crate::text::chars_of;
use crate::text::eq_lit;

verus! {

broadcast use vstd::string::group_string_axioms;

/// CSS font-weight, always within 100..=900.
#[derive(Clone, Copy, Debug, PartialEq, Eq, Structural)]
pub struct FontWeight(u16);

/// `w` clamped to 100..=900.
pub open spec fn clamp_weight(w: int) -> int {
    if w < 100 {
        100
    } else if w > 900 {
        900
    } else {
        w
    }
}

/// The weight that a `font-weight` keyword or number stands for.
pub open spec fn font_weight_of(s: Seq<char>) -> int {
    if s == "bold"@ || s == "bolder"@ {
        700
    } else if s == "normal"@ {
        400
    } else if s == "lighter"@ {
        300
    } else {
        clamp_weight(
            match parse_unsigned(s, 65535) {
                Some(v) => v,
                None => 400,
        },
        )
    }
}

impl FontWeight {
    /// The numeric weight.
    pub closed spec fn weight(self) -> int {
        self.0 as int
    }

    /// Every weight lies in 100..=900.
    pub closed spec fn wf(self) -> bool {
        100 <= self.0 <= 900
    }

    /// The weight `w` clamped to 100..=900.
    pub fn new(w: u16) -> (r: Self)
        ensures
            r.weight() == clamp_weight(w as int),
            r.wf(),
    {
        if w < 100 {
            FontWeight(100)
        } else if w > 900 {
            FontWeight(900)
        } else {
            FontWeight(w)
        }
    }

    /// The normal weight, 400.
    pub fn normal() -> (r: Self)
        ensures
            r.weight() == 400,
    {
        FontWeight(400)
    }

    /// The bold weight, 700.
    pub fn bold() -> (r: Self)
        ensures
            r.weight() == 700,
    {
        FontWeight(700)
    }

    /// The numeric weight.
    pub fn value(&self) -> (r: u16)
        ensures
            r == self.weight(),
    {
        self.0
    }

    /// Whether the weight renders bold: 600 and above.
    pub fn is_bold(&self) -> (b: bool)
        ensures
            b == (self.weight() >= 600),
    {
        self.0 >= 600
    }

    /// Parses a `font-weight` value: `bold`/`bolder`, `normal`, `lighter`, or
    /// a number (clamped to 100..=900; 400 when it is not a number).
    pub fn parse(s: &str) -> (r: Self)
        ensures
            r.weight() == font_weight_of(s@),
            r.wf(),
    {
        let v = chars_of(s);
        if eq_lit(&v, "bold") || eq_lit(&v, "bolder") {
            FontWeight(700)
        } else if eq_lit(&v, "normal") {
            FontWeight(400)
        } else if eq_lit(&v, "lighter") {
            FontWeight(300)
        } else {
            match parse_uint(&v, 65535) {
                Some(n) => Self::new(n as u16),
                None => Self::new(400),
            }
        }
    }
}

/// Canvas `globalCompositeOperation`.
#[derive(Clone, Copy, Debug, PartialEq, Eq, Structural)]
pub enum CompositeOp {
    SourceOver,
    SourceIn,
    SourceOut,
    SourceAtop,
    DestinationOver,
    DestinationIn,
    DestinationOut,
    DestinationAtop,
    Lighter,
    Xor,
    Copy,
    Multiply,
    Screen,
    Overlay,
    Darken,
    Lighten,
    ColorDodge,
    ColorBurn,
    HardLight,
    SoftLight,
    Difference,
    Exclusion,
    Hue,
    Saturation,
    ColorOp,
    Luminosity,
}

/// The operation a `globalCompositeOperation` name stands for; unknown names
/// give source-over.
pub open spec fn composite_op_of(s: Seq<char>) -> CompositeOp {
    if s == "source-over"@ {
        CompositeOp::SourceOver
    } else if s == "source-in"@ {
        CompositeOp::SourceIn
    } else if s == "source-out"@ {
        CompositeOp::SourceOut
    } else if s == "source-atop"@ {
        CompositeOp::SourceAtop
    } else if s == "destination-over"@ {
        CompositeOp::DestinationOver
    } else if s == "destination-in"@ {
        CompositeOp::DestinationIn
    } else if s == "destination-out"@ {
        CompositeOp::DestinationOut
    } else if s == "destination-atop"@ {
        CompositeOp::DestinationAtop
    } else if s == "lighter"@ {
        CompositeOp::Lighter
    } else if s == "xor"@ {
        CompositeOp::Xor
    } else if s == "copy"@ {
        CompositeOp::Copy
    } else if s == "multiply"@ {
        CompositeOp::Multiply
    } else if s == "screen"@ {
        CompositeOp::Screen
    } else if s == "overlay"@ {
        CompositeOp::Overlay
    } else if s == "darken"@ {
        CompositeOp::Darken
    } else if s == "lighten"@ {
        CompositeOp::Lighten
    } else if s == "color-dodge"@ {
        CompositeOp::ColorDodge
    } else if s == "color-burn"@ {
        CompositeOp::ColorBurn
    } else if s == "hard-light"@ {
        CompositeOp::HardLight
    } else if s == "soft-light"@ {
        CompositeOp::SoftLight
    } else if s == "difference"@ {
        CompositeOp::Difference
    } else if s == "exclusion"@ {
        CompositeOp::Exclusion
    } else if s == "hue"@ {
        CompositeOp::Hue
    } else if s == "saturation"@ {
        CompositeOp::Saturation
    } else if s == "color"@ {
        CompositeOp::ColorOp
    } else if s == "luminosity"@ {
        CompositeOp::Luminosity
    } else {
        CompositeOp::SourceOver
    }
}

/// The canonical name of an operation.
pub open spec fn composite_op_name(op: CompositeOp) -> Seq<char> {
    match op {
        CompositeOp::SourceOver => "source-over"@,
        CompositeOp::SourceIn => "source-in"@,
        CompositeOp::SourceOut => "source-out"@,
        CompositeOp::SourceAtop => "source-atop"@,
        CompositeOp::DestinationOver => "destination-over"@,
        CompositeOp::DestinationIn => "destination-in"@,
        CompositeOp::DestinationOut => "destination-out"@,
        CompositeOp::DestinationAtop => "destination-atop"@,
        CompositeOp::Lighter => "lighter"@,
        CompositeOp::Xor => "xor"@,
        CompositeOp::Copy => "copy"@,
        CompositeOp::Multiply => "multiply"@,
        CompositeOp::Screen => "screen"@,
        CompositeOp::Overlay => "overlay"@,
        CompositeOp::Darken => "darken"@,
        CompositeOp::Lighten => "lighten"@,
        CompositeOp::ColorDodge => "color-dodge"@,
        CompositeOp::ColorBurn => "color-burn"@,
        CompositeOp::HardLight => "hard-light"@,
        CompositeOp::SoftLight => "soft-light"@,
        CompositeOp::Difference => "difference"@,
        CompositeOp::Exclusion => "exclusion"@,
        CompositeOp::Hue => "hue"@,
        CompositeOp::Saturation => "saturation"@,
        CompositeOp::ColorOp => "color"@,
        CompositeOp::Luminosity => "luminosity"@,
    }
}

/// The Porter-Duff operations that must erase destination pixels outside the
/// drawn shape.
pub open spec fn composite_needs_masking(op: CompositeOp) -> bool {
    op is SourceIn || op is SourceOut || op is DestinationIn || op is DestinationOut
        || op is SourceAtop || op is DestinationAtop
}

impl CompositeOp {
    /// Parses an operation name; unknown names give source-over.
    pub fn parse(s: &str) -> (r: Self)
        ensures
            r == composite_op_of(s@),
    {
        let v = chars_of(s);
    if eq_lit(&v, "source-over") {
        Self::SourceOver
    } else if eq_lit(&v, "source-in") {
        Self::SourceIn
    } else if eq_lit(&v, "source-out") {
        Self::SourceOut
    } else if eq_lit(&v, "source-atop") {
        Self::SourceAtop
    } else if eq_lit(&v, "destination-over") {
        Self::DestinationOver
    } else if eq_lit(&v, "destination-in") {
        Self::DestinationIn
    } else if eq_lit(&v, "destination-out") {
        Self::DestinationOut
    } else if eq_lit(&v, "destination-atop") {
        Self::DestinationAtop
    } else if eq_lit(&v, "lighter") {
        Self::Lighter
    } else if eq_lit(&v, "xor") {
        Self::Xor
    } else if eq_lit(&v, "copy") {
        Self::Copy
    } else if eq_lit(&v, "multiply") {
        Self::Multiply
    } else if eq_lit(&v, "screen") {
        Self::Screen
    } else if eq_lit(&v, "overlay") {
        Self::Overlay
    } else if eq_lit(&v, "darken") {
        Self::Darken
    } else if eq_lit(&v, "lighten") {
        Self::Lighten
    } else if eq_lit(&v, "color-dodge") {
        Self::ColorDodge
    } else if eq_lit(&v, "color-burn") {
        Self::ColorBurn
    } else if eq_lit(&v, "hard-light") {
        Self::HardLight
    } else if eq_lit(&v, "soft-light") {
        Self::SoftLight
    } else if eq_lit(&v, "difference") {
        Self::Difference
    } else if eq_lit(&v, "exclusion") {
        Self::Exclusion
    } else if eq_lit(&v, "hue") {
        Self::Hue
    } else if eq_lit(&v, "saturation") {
        Self::Saturation
    } else if eq_lit(&v, "color") {
        Self::ColorOp
    } else if eq_lit(&v, "luminosity") {
        Self::Luminosity
    } else {
        Self::SourceOver
    }
    }

    /// Whether drawing with this operation needs destination masking.
    pub fn needs_masking(&self) -> (b: bool)
        ensures
            b == composite_needs_masking(*self),
    {
        match self {
            CompositeOp::SourceIn | CompositeOp::SourceOut | CompositeOp::DestinationIn
            | CompositeOp::DestinationOut | CompositeOp::SourceAtop
            | CompositeOp::DestinationAtop => true,
            _ => false,
        }
    }

    /// The canonical name of this operation.
    pub fn as_str(&self) -> (r: &'static str)
        ensures
            r@ == composite_op_name(*self),
    {
        match self {
            CompositeOp::SourceOver => "source-over",
            CompositeOp::SourceIn => "source-in",
            CompositeOp::SourceOut => "source-out",
            CompositeOp::SourceAtop => "source-atop",
            CompositeOp::DestinationOver => "destination-over",
            CompositeOp::DestinationIn => "destination-in",
            CompositeOp::DestinationOut => "destination-out",
            CompositeOp::DestinationAtop => "destination-atop",
            CompositeOp::Lighter => "lighter",
            CompositeOp::Xor => "xor",
            CompositeOp::Copy => "copy",
            CompositeOp::Multiply => "multiply",
            CompositeOp::Screen => "screen",
            CompositeOp::Overlay => "overlay",
            CompositeOp::Darken => "darken",
            CompositeOp::Lighten => "lighten",
            CompositeOp::ColorDodge => "color-dodge",
            CompositeOp::ColorBurn => "color-burn",
            CompositeOp::HardLight => "hard-light",
            CompositeOp::SoftLight => "soft-light",
            CompositeOp::Difference => "difference",
            CompositeOp::Exclusion => "exclusion",
            CompositeOp::Hue => "hue",
            CompositeOp::Saturation => "saturation",
            CompositeOp::ColorOp => "color",
            CompositeOp::Luminosity => "luminosity",
        }
    }

    /// The default operation, source-over.
    pub fn default_op() -> (r: Self)
        ensures
            r == CompositeOp::SourceOver,
    {
        CompositeOp::SourceOver
    }
}

/// Parsing the canonical name of any operation gives that operation back.
pub proof fn lemma_composite_op_name_round_trip(op: CompositeOp)
    ensures
        composite_op_of(composite_op_name(op)) == op,
{
    match op {
        CompositeOp::SourceOver => {
            reveal_strlit("source-over");
        },
        CompositeOp::SourceIn => {
            reveal_strlit("source-in");
            reveal_strlit("source-over");
            assert("source-in"@.len() != "source-over"@.len());
        },
        CompositeOp::SourceOut => {
            reveal_strlit("source-out");
            reveal_strlit("source-over");
            assert("source-out"@.len() != "source-over"@.len());
            reveal_strlit("source-in");
            assert("source-out"@.len() != "source-in"@.len());
        },
        CompositeOp::SourceAtop => {
            reveal_strlit("source-atop");
            reveal_strlit("source-over");
            assert("source-atop"@[7] != "source-over"@[7]);
            reveal_strlit("source-in");
            assert("source-atop"@.len() != "source-in"@.len());
            reveal_strlit("source-out");
            assert("source-atop"@.len() != "source-out"@.len());
        },
        CompositeOp::DestinationOver => {
            reveal_strlit("destination-over");
            reveal_strlit("source-over");
            assert("destination-over"@.len() != "source-over"@.len());
            reveal_strlit("source-in");
            assert("destination-over"@.len() != "source-in"@.len());
            reveal_strlit("source-out");
            assert("destination-over"@.len() != "source-out"@.len());
            reveal_strlit("source-atop");
            assert("destination-over"@.len() != "source-atop"@.len());
        },
        CompositeOp::DestinationIn => {
            reveal_strlit("destination-in");
            reveal_strlit("source-over");
            assert("destination-in"@.len() != "source-over"@.len());
            reveal_strlit("source-in");
            assert("destination-in"@.len() != "source-in"@.len());
            reveal_strlit("source-out");
            assert("destination-in"@.len() != "source-out"@.len());
            reveal_strlit("source-atop");
            assert("destination-in"@.len() != "source-atop"@.len());
            reveal_strlit("destination-over");
            assert("destination-in"@.len() != "destination-over"@.len());
        },
        CompositeOp::DestinationOut => {
            reveal_strlit("destination-out");
            reveal_strlit("source-over");
            assert("destination-out"@.len() != "source-over"@.len());
            reveal_strlit("source-in");
            assert("destination-out"@.len() != "source-in"@.len());
            reveal_strlit("source-out");
            assert("destination-out"@.len() != "source-out"@.len());
            reveal_strlit("source-atop");
            assert("destination-out"@.len() != "source-atop"@.len());
            reveal_strlit("destination-over");
            assert("destination-out"@.len() != "destination-over"@.len());
            reveal_strlit("destination-in");
            assert("destination-out"@.len() != "destination-in"@.len());
        },
        CompositeOp::DestinationAtop => {
            reveal_strlit("destination-atop");
            reveal_strlit("source-over");
            assert("destination-atop"@.len() != "source-over"@.len());
            reveal_strlit("source-in");
            assert("destination-atop"@.len() != "source-in"@.len());
            reveal_strlit("source-out");
            assert("destination-atop"@.len() != "source-out"@.len());
            reveal_strlit("source-atop");
            assert("destination-atop"@.len() != "source-atop"@.len());
            reveal_strlit("destination-over");
            assert("destination-atop"@[12] != "destination-over"@[12]);
            reveal_strlit("destination-in");
            assert("destination-atop"@.len() != "destination-in"@.len());
            reveal_strlit("destination-out");
            assert("destination-atop"@.len() != "destination-out"@.len());
        },
        CompositeOp::Lighter => {
            reveal_strlit("lighter");
            reveal_strlit("source-over");
            assert("lighter"@.len() != "source-over"@.len());
            reveal_strlit("source-in");
            assert("lighter"@.len() != "source-in"@.len());
            reveal_strlit("source-out");
            assert("lighter"@.len() != "source-out"@.len());
            reveal_strlit("source-atop");
            assert("lighter"@.len() != "source-atop"@.len());
            reveal_strlit("destination-over");
            assert("lighter"@.len() != "destination-over"@.len());
            reveal_strlit("destination-in");
            assert("lighter"@.len() != "destination-in"@.len());
            reveal_strlit("destination-out");
            assert("lighter"@.len() != "destination-out"@.len());
            reveal_strlit("destination-atop");
            assert("lighter"@.len() != "destination-atop"@.len());
        },
        CompositeOp::Xor => {
            reveal_strlit("xor");
            reveal_strlit("source-over");
            assert("xor"@.len() != "source-over"@.len());
            reveal_strlit("source-in");
            assert("xor"@.len() != "source-in"@.len());
            reveal_strlit("source-out");
            assert("xor"@.len() != "source-out"@.len());
            reveal_strlit("source-atop");
            assert("xor"@.len() != "source-atop"@.len());
            reveal_strlit("destination-over");
            assert("xor"@.len() != "destination-over"@.len());
            reveal_strlit("destination-in");
            assert("xor"@.len() != "destination-in"@.len());
            reveal_strlit("destination-out");
            assert("xor"@.len() != "destination-out"@.len());
            reveal_strlit("destination-atop");
            assert("xor"@.len() != "destination-atop"@.len());
            reveal_strlit("lighter");
            assert("xor"@.len() != "lighter"@.len());
        },
        CompositeOp::Copy => {
            reveal_strlit("copy");
            reveal_strlit("source-over");
            assert("copy"@.len() != "source-over"@.len());
            reveal_strlit("source-in");
            assert("copy"@.len() != "source-in"@.len());
            reveal_strlit("source-out");
            assert("copy"@.len() != "source-out"@.len());
            reveal_strlit("source-atop");
            assert("copy"@.len() != "source-atop"@.len());
            reveal_strlit("destination-over");
            assert("copy"@.len() != "destination-over"@.len());
            reveal_strlit("destination-in");
            assert("copy"@.len() != "destination-in"@.len());
            reveal_strlit("destination-out");
            assert("copy"@.len() != "destination-out"@.len());
            reveal_strlit("destination-atop");
            assert("copy"@.len() != "destination-atop"@.len());
            reveal_strlit("lighter");
            assert("copy"@.len() != "lighter"@.len());
            reveal_strlit("xor");
            assert("copy"@.len() != "xor"@.len());
        },
        CompositeOp::Multiply => {
            reveal_strlit("multiply");
            reveal_strlit("source-over");
            assert("multiply"@.len() != "source-over"@.len());
            reveal_strlit("source-in");
            assert("multiply"@.len() != "source-in"@.len());
            reveal_strlit("source-out");
            assert("multiply"@.len() != "source-out"@.len());
            reveal_strlit("source-atop");
            assert("multiply"@.len() != "source-atop"@.len());
            reveal_strlit("destination-over");
            assert("multiply"@.len() != "destination-over"@.len());
            reveal_strlit("destination-in");
            assert("multiply"@.len() != "destination-in"@.len());
            reveal_strlit("destination-out");
            assert("multiply"@.len() != "destination-out"@.len());
            reveal_strlit("destination-atop");
            assert("multiply"@.len() != "destination-atop"@.len());
            reveal_strlit("lighter");
            assert("multiply"@.len() != "lighter"@.len());
            reveal_strlit("xor");
            assert("multiply"@.len() != "xor"@.len());
            reveal_strlit("copy");
            assert("multiply"@.len() != "copy"@.len());
        },
        CompositeOp::Screen => {
            reveal_strlit("screen");
            reveal_strlit("source-over");
            assert("screen"@.len() != "source-over"@.len());
            reveal_strlit("source-in");
            assert("screen"@.len() != "source-in"@.len());
            reveal_strlit("source-out");
            assert("screen"@.len() != "source-out"@.len());
            reveal_strlit("source-atop");
            assert("screen"@.len() != "source-atop"@.len());
            reveal_strlit("destination-over");
            assert("screen"@.len() != "destination-over"@.len());
            reveal_strlit("destination-in");
            assert("screen"@.len() != "destination-in"@.len());
            reveal_strlit("destination-out");
            assert("screen"@.len() != "destination-out"@.len());
            reveal_strlit("destination-atop");
            assert("screen"@.len() != "destination-atop"@.len());
            reveal_strlit("lighter");
            assert("screen"@.len() != "lighter"@.len());
            reveal_strlit("xor");
            assert("screen"@.len() != "xor"@.len());
            reveal_strlit("copy");
            assert("screen"@.len() != "copy"@.len());
            reveal_strlit("multiply");
            assert("screen"@.len() != "multiply"@.len());
        },
        CompositeOp::Overlay => {
            reveal_strlit("overlay");
            reveal_strlit("source-over");
            assert("overlay"@.len() != "source-over"@.len());
            reveal_strlit("source-in");
            assert("overlay"@.len() != "source-in"@.len());
            reveal_strlit("source-out");
            assert("overlay"@.len() != "source-out"@.len());
            reveal_strlit("source-atop");
            assert("overlay"@.len() != "source-atop"@.len());
            reveal_strlit("destination-over");
            assert("overlay"@.len() != "destination-over"@.len());
            reveal_strlit("destination-in");
            assert("overlay"@.len() != "destination-in"@.len());
            reveal_strlit("destination-out");
            assert("overlay"@.len() != "destination-out"@.len());
            reveal_strlit("destination-atop");
            assert("overlay"@.len() != "destination-atop"@.len());
            reveal_strlit("lighter");
            assert("overlay"@[0] != "lighter"@[0]);
            reveal_strlit("xor");
            assert("overlay"@.len() != "xor"@.len());
            reveal_strlit("copy");
            assert("overlay"@.len() != "copy"@.len());
            reveal_strlit("multiply");
            assert("overlay"@.len() != "multiply"@.len());
            reveal_strlit("screen");
            assert("overlay"@.len() != "screen"@.len());
        },
        CompositeOp::Darken => {
            reveal_strlit("darken");
            reveal_strlit("source-over");
            assert("darken"@.len() != "source-over"@.len());
            reveal_strlit("source-in");
            assert("darken"@.len() != "source-in"@.len());
            reveal_strlit("source-out");
            assert("darken"@.len() != "source-out"@.len());
            reveal_strlit("source-atop");
            assert("darken"@.len() != "source-atop"@.len());
            reveal_strlit("destination-over");
            assert("darken"@.len() != "destination-over"@.len());
            reveal_strlit("destination-in");
            assert("darken"@.len() != "destination-in"@.len());
            reveal_strlit("destination-out");
            assert("darken"@.len() != "destination-out"@.len());
            reveal_strlit("destination-atop");
            assert("darken"@.len() != "destination-atop"@.len());
            reveal_strlit("lighter");
            assert("darken"@.len() != "lighter"@.len());
            reveal_strlit("xor");
            assert("darken"@.len() != "xor"@.len());
            reveal_strlit("copy");
            assert("darken"@.len() != "copy"@.len());
            reveal_strlit("multiply");
            assert("darken"@.len() != "multiply"@.len());
            reveal_strlit("screen");
            assert("darken"@[0] != "screen"@[0]);
            reveal_strlit("overlay");
            assert("darken"@.len() != "overlay"@.len());
        },
        CompositeOp::Lighten => {
            reveal_strlit("lighten");
            reveal_strlit("source-over");
            assert("lighten"@.len() != "source-over"@.len());
            reveal_strlit("source-in");
            assert("lighten"@.len() != "source-in"@.len());
            reveal_strlit("source-out");
            assert("lighten"@.len() != "source-out"@.len());
            reveal_strlit("source-atop");
            assert("lighten"@.len() != "source-atop"@.len());
            reveal_strlit("destination-over");
            assert("lighten"@.len() != "destination-over"@.len());
            reveal_strlit("destination-in");
            assert("lighten"@.len() != "destination-in"@.len());
            reveal_strlit("destination-out");
            assert("lighten"@.len() != "destination-out"@.len());
            reveal_strlit("destination-atop");
            assert("lighten"@.len() != "destination-atop"@.len());
            reveal_strlit("lighter");
            assert("lighten"@[6] != "lighter"@[6]);
            reveal_strlit("xor");
            assert("lighten"@.len() != "xor"@.len());
            reveal_strlit("copy");
            assert("lighten"@.len() != "copy"@.len());
            reveal_strlit("multiply");
            assert("lighten"@.len() != "multiply"@.len());
            reveal_strlit("screen");
            assert("lighten"@.len() != "screen"@.len());
            reveal_strlit("overlay");
            assert("lighten"@[0] != "overlay"@[0]);
            reveal_strlit("darken");
            assert("lighten"@.len() != "darken"@.len());
        },
        CompositeOp::ColorDodge => {
            reveal_strlit("color-dodge");
            reveal_strlit("source-over");
            assert("color-dodge"@[0] != "source-over"@[0]);
            reveal_strlit("source-in");
            assert("color-dodge"@.len() != "source-in"@.len());
            reveal_strlit("source-out");
            assert("color-dodge"@.len() != "source-out"@.len());
            reveal_strlit("source-atop");
            assert("color-dodge"@[0] != "source-atop"@[0]);
            reveal_strlit("destination-over");
            assert("color-dodge"@.len() != "destination-over"@.len());
            reveal_strlit("destination-in");
            assert("color-dodge"@.len() != "destination-in"@.len());
            reveal_strlit("destination-out");
            assert("color-dodge"@.len() != "destination-out"@.len());
            reveal_strlit("destination-atop");
            assert("color-dodge"@.len() != "destination-atop"@.len());
            reveal_strlit("lighter");
            assert("color-dodge"@.len() != "lighter"@.len());
            reveal_strlit("xor");
            assert("color-dodge"@.len() != "xor"@.len());
            reveal_strlit("copy");
            assert("color-dodge"@.len() != "copy"@.len());
            reveal_strlit("multiply");
            assert("color-dodge"@.len() != "multiply"@.len());
            reveal_strlit("screen");
            assert("color-dodge"@.len() != "screen"@.len());
            reveal_strlit("overlay");
            assert("color-dodge"@.len() != "overlay"@.len());
            reveal_strlit("darken");
            assert("color-dodge"@.len() != "darken"@.len());
            reveal_strlit("lighten");
            assert("color-dodge"@.len() != "lighten"@.len());
        },
        CompositeOp::ColorBurn => {
            reveal_strlit("color-burn");
            reveal_strlit("source-over");
            assert("color-burn"@.len() != "source-over"@.len());
            reveal_strlit("source-in");
            assert("color-burn"@.len() != "source-in"@.len());
            reveal_strlit("source-out");
            assert("color-burn"@[0] != "source-out"@[0]);
            reveal_strlit("source-atop");
            assert("color-burn"@.len() != "source-atop"@.len());
            reveal_strlit("destination-over");
            assert("color-burn"@.len() != "destination-over"@.len());
            reveal_strlit("destination-in");
            assert("color-burn"@.len() != "destination-in"@.len());
            reveal_strlit("destination-out");
            assert("color-burn"@.len() != "destination-out"@.len());
            reveal_strlit("destination-atop");
            assert("color-burn"@.len() != "destination-atop"@.len());
            reveal_strlit("lighter");
            assert("color-burn"@.len() != "lighter"@.len());
            reveal_strlit("xor");
            assert("color-burn"@.len() != "xor"@.len());
            reveal_strlit("copy");
            assert("color-burn"@.len() != "copy"@.len());
            reveal_strlit("multiply");
            assert("color-burn"@.len() != "multiply"@.len());
            reveal_strlit("screen");
            assert("color-burn"@.len() != "screen"@.len());
            reveal_strlit("overlay");
            assert("color-burn"@.len() != "overlay"@.len());
            reveal_strlit("darken");
            assert("color-burn"@.len() != "darken"@.len());
            reveal_strlit("lighten");
            assert("color-burn"@.len() != "lighten"@.len());
            reveal_strlit("color-dodge");
            assert("color-burn"@.len() != "color-dodge"@.len());
        },
        CompositeOp::HardLight => {
            reveal_strlit("hard-light");
            reveal_strlit("source-over");
            assert("hard-light"@.len() != "source-over"@.len());
            reveal_strlit("source-in");
            assert("hard-light"@.len() != "source-in"@.len());
            reveal_strlit("source-out");
            assert("hard-light"@[0] != "source-out"@[0]);
            reveal_strlit("source-atop");
            assert("hard-light"@.len() != "source-atop"@.len());
            reveal_strlit("destination-over");
            assert("hard-light"@.len() != "destination-over"@.len());
            reveal_strlit("destination-in");
            assert("hard-light"@.len() != "destination-in"@.len());
            reveal_strlit("destination-out");
            assert("hard-light"@.len() != "destination-out"@.len());
            reveal_strlit("destination-atop");
            assert("hard-light"@.len() != "destination-atop"@.len());
            reveal_strlit("lighter");
            assert("hard-light"@.len() != "lighter"@.len());
            reveal_strlit("xor");
            assert("hard-light"@.len() != "xor"@.len());
            reveal_strlit("copy");
            assert("hard-light"@.len() != "copy"@.len());
            reveal_strlit("multiply");
            assert("hard-light"@.len() != "multiply"@.len());
            reveal_strlit("screen");
            assert("hard-light"@.len() != "screen"@.len());
            reveal_strlit("overlay");
            assert("hard-light"@.len() != "overlay"@.len());
            reveal_strlit("darken");
            assert("hard-light"@.len() != "darken"@.len());
            reveal_strlit("lighten");
            assert("hard-light"@.len() != "lighten"@.len());
            reveal_strlit("color-dodge");
            assert("hard-light"@.len() != "color-dodge"@.len());
            reveal_strlit("color-burn");
            assert("hard-light"@[0] != "color-burn"@[0]);
        },
        CompositeOp::SoftLight => {
            reveal_strlit("soft-light");
            reveal_strlit("source-over");
            assert("soft-light"@.len() != "source-over"@.len());
            reveal_strlit("source-in");
            assert("soft-light"@.len() != "source-in"@.len());
            reveal_strlit("source-out");
            assert("soft-light"@[2] != "source-out"@[2]);
            reveal_strlit("source-atop");
            assert("soft-light"@.len() != "source-atop"@.len());
            reveal_strlit("destination-over");
            assert("soft-light"@.len() != "destination-over"@.len());
            reveal_strlit("destination-in");
            assert("soft-light"@.len() != "destination-in"@.len());
            reveal_strlit("destination-out");
            assert("soft-light"@.len() != "destination-out"@.len());
            reveal_strlit("destination-atop");
            assert("soft-light"@.len() != "destination-atop"@.len());
            reveal_strlit("lighter");
            assert("soft-light"@.len() != "lighter"@.len());
            reveal_strlit("xor");
            assert("soft-light"@.len() != "xor"@.len());
            reveal_strlit("copy");
            assert("soft-light"@.len() != "copy"@.len());
            reveal_strlit("multiply");
            assert("soft-light"@.len() != "multiply"@.len());
            reveal_strlit("screen");
            assert("soft-light"@.len() != "screen"@.len());
            reveal_strlit("overlay");
            assert("soft-light"@.len() != "overlay"@.len());
            reveal_strlit("darken");
            assert("soft-light"@.len() != "darken"@.len());
            reveal_strlit("lighten");
            assert("soft-light"@.len() != "lighten"@.len());
            reveal_strlit("color-dodge");
            assert("soft-light"@.len() != "color-dodge"@.len());
            reveal_strlit("color-burn");
            assert("soft-light"@[0] != "color-burn"@[0]);
            reveal_strlit("hard-light");
            assert("soft-light"@[0] != "hard-light"@[0]);
        },
        CompositeOp::Difference => {
            reveal_strlit("difference");
            reveal_strlit("source-over");
            assert("difference"@.len() != "source-over"@.len());
            reveal_strlit("source-in");
            assert("difference"@.len() != "source-in"@.len());
            reveal_strlit("source-out");
            assert("difference"@[0] != "source-out"@[0]);
            reveal_strlit("source-atop");
            assert("difference"@.len() != "source-atop"@.len());
            reveal_strlit("destination-over");
            assert("difference"@.len() != "destination-over"@.len());
            reveal_strlit("destination-in");
            assert("difference"@.len() != "destination-in"@.len());
            reveal_strlit("destination-out");
            assert("difference"@.len() != "destination-out"@.len());
            reveal_strlit("destination-atop");
            assert("difference"@.len() != "destination-atop"@.len());
            reveal_strlit("lighter");
            assert("difference"@.len() != "lighter"@.len());
            reveal_strlit("xor");
            assert("difference"@.len() != "xor"@.len());
            reveal_strlit("copy");
            assert("difference"@.len() != "copy"@.len());
            reveal_strlit("multiply");
            assert("difference"@.len() != "multiply"@.len());
            reveal_strlit("screen");
            assert("difference"@.len() != "screen"@.len());
            reveal_strlit("overlay");
            assert("difference"@.len() != "overlay"@.len());
            reveal_strlit("darken");
            assert("difference"@.len() != "darken"@.len());
            reveal_strlit("lighten");
            assert("difference"@.len() != "lighten"@.len());
            reveal_strlit("color-dodge");
            assert("difference"@.len() != "color-dodge"@.len());
            reveal_strlit("color-burn");
            assert("difference"@[0] != "color-burn"@[0]);
            reveal_strlit("hard-light");
            assert("difference"@[0] != "hard-light"@[0]);
            reveal_strlit("soft-light");
            assert("difference"@[0] != "soft-light"@[0]);
        },
        CompositeOp::Exclusion => {
            reveal_strlit("exclusion");
            reveal_strlit("source-over");
            assert("exclusion"@.len() != "source-over"@.len());
            reveal_strlit("source-in");
            assert("exclusion"@[0] != "source-in"@[0]);
            reveal_strlit("source-out");
            assert("exclusion"@.len() != "source-out"@.len());
            reveal_strlit("source-atop");
            assert("exclusion"@.len() != "source-atop"@.len());
            reveal_strlit("destination-over");
            assert("exclusion"@.len() != "destination-over"@.len());
            reveal_strlit("destination-in");
            assert("exclusion"@.len() != "destination-in"@.len());
            reveal_strlit("destination-out");
            assert("exclusion"@.len() != "destination-out"@.len());
            reveal_strlit("destination-atop");
            assert("exclusion"@.len() != "destination-atop"@.len());
            reveal_strlit("lighter");
            assert("exclusion"@.len() != "lighter"@.len());
            reveal_strlit("xor");
            assert("exclusion"@.len() != "xor"@.len());
            reveal_strlit("copy");
            assert("exclusion"@.len() != "copy"@.len());
            reveal_strlit("multiply");
            assert("exclusion"@.len() != "multiply"@.len());
            reveal_strlit("screen");
            assert("exclusion"@.len() != "screen"@.len());
            reveal_strlit("overlay");
            assert("exclusion"@.len() != "overlay"@.len());
            reveal_strlit("darken");
            assert("exclusion"@.len() != "darken"@.len());
            reveal_strlit("lighten");
            assert("exclusion"@.len() != "lighten"@.len());
            reveal_strlit("color-dodge");
            assert("exclusion"@.len() != "color-dodge"@.len());
            reveal_strlit("color-burn");
            assert("exclusion"@.len() != "color-burn"@.len());
            reveal_strlit("hard-light");
            assert("exclusion"@.len() != "hard-light"@.len());
            reveal_strlit("soft-light");
            assert("exclusion"@.len() != "soft-light"@.len());
            reveal_strlit("difference");
            assert("exclusion"@.len() != "difference"@.len());
        },
        CompositeOp::Hue => {
            reveal_strlit("hue");
            reveal_strlit("source-over");
            assert("hue"@.len() != "source-over"@.len());
            reveal_strlit("source-in");
            assert("hue"@.len() != "source-in"@.len());
            reveal_strlit("source-out");
            assert("hue"@.len() != "source-out"@.len());
            reveal_strlit("source-atop");
            assert("hue"@.len() != "source-atop"@.len());
            reveal_strlit("destination-over");
            assert("hue"@.len() != "destination-over"@.len());
            reveal_strlit("destination-in");
            assert("hue"@.len() != "destination-in"@.len());
            reveal_strlit("destination-out");
            assert("hue"@.len() != "destination-out"@.len());
            reveal_strlit("destination-atop");
            assert("hue"@.len() != "destination-atop"@.len());
            reveal_strlit("lighter");
            assert("hue"@.len() != "lighter"@.len());
            reveal_strlit("xor");
            assert("hue"@[0] != "xor"@[0]);
            reveal_strlit("copy");
            assert("hue"@.len() != "copy"@.len());
            reveal_strlit("multiply");
            assert("hue"@.len() != "multiply"@.len());
            reveal_strlit("screen");
            assert("hue"@.len() != "screen"@.len());
            reveal_strlit("overlay");
            assert("hue"@.len() != "overlay"@.len());
            reveal_strlit("darken");
            assert("hue"@.len() != "darken"@.len());
            reveal_strlit("lighten");
            assert("hue"@.len() != "lighten"@.len());
            reveal_strlit("color-dodge");
            assert("hue"@.len() != "color-dodge"@.len());
            reveal_strlit("color-burn");
            assert("hue"@.len() != "color-burn"@.len());
            reveal_strlit("hard-light");
            assert("hue"@.len() != "hard-light"@.len());
            reveal_strlit("soft-light");
            assert("hue"@.len() != "soft-light"@.len());
            reveal_strlit("difference");
            assert("hue"@.len() != "difference"@.len());
            reveal_strlit("exclusion");
            assert("hue"@.len() != "exclusion"@.len());
        },
        CompositeOp::Saturation => {
            reveal_strlit("saturation");
            reveal_strlit("source-over");
            assert("saturation"@.len() != "source-over"@.len());
            reveal_strlit("source-in");
            assert("saturation"@.len() != "source-in"@.len());
            reveal_strlit("source-out");
            assert("saturation"@[1] != "source-out"@[1]);
            reveal_strlit("source-atop");
            assert("saturation"@.len() != "source-atop"@.len());
            reveal_strlit("destination-over");
            assert("saturation"@.len() != "destination-over"@.len());
            reveal_strlit("destination-in");
            assert("saturation"@.len() != "destination-in"@.len());
            reveal_strlit("destination-out");
            assert("saturation"@.len() != "destination-out"@.len());
            reveal_strlit("destination-atop");
            assert("saturation"@.len() != "destination-atop"@.len());
            reveal_strlit("lighter");
            assert("saturation"@.len() != "lighter"@.len());
            reveal_strlit("xor");
            assert("saturation"@.len() != "xor"@.len());
            reveal_strlit("copy");
            assert("saturation"@.len() != "copy"@.len());
            reveal_strlit("multiply");
            assert("saturation"@.len() != "multiply"@.len());
            reveal_strlit("screen");
            assert("saturation"@.len() != "screen"@.len());
            reveal_strlit("overlay");
            assert("saturation"@.len() != "overlay"@.len());
            reveal_strlit("darken");
            assert("saturation"@.len() != "darken"@.len());
            reveal_strlit("lighten");
            assert("saturation"@.len() != "lighten"@.len());
            reveal_strlit("color-dodge");
            assert("saturation"@.len() != "color-dodge"@.len());
            reveal_strlit("color-burn");
            assert("saturation"@[0] != "color-burn"@[0]);
            reveal_strlit("hard-light");
            assert("saturation"@[0] != "hard-light"@[0]);
            reveal_strlit("soft-light");
            assert("saturation"@[1] != "soft-light"@[1]);
            reveal_strlit("difference");
            assert("saturation"@[0] != "difference"@[0]);
            reveal_strlit("exclusion");
            assert("saturation"@.len() != "exclusion"@.len());
            reveal_strlit("hue");
            assert("saturation"@.len() != "hue"@.len());
        },
        CompositeOp::ColorOp => {
            reveal_strlit("color");
            reveal_strlit("source-over");
            assert("color"@.len() != "source-over"@.len());
            reveal_strlit("source-in");
            assert("color"@.len() != "source-in"@.len());
            reveal_strlit("source-out");
            assert("color"@.len() != "source-out"@.len());
            reveal_strlit("source-atop");
            assert("color"@.len() != "source-atop"@.len());
            reveal_strlit("destination-over");
            assert("color"@.len() != "destination-over"@.len());
            reveal_strlit("destination-in");
            assert("color"@.len() != "destination-in"@.len());
            reveal_strlit("destination-out");
            assert("color"@.len() != "destination-out"@.len());
            reveal_strlit("destination-atop");
            assert("color"@.len() != "destination-atop"@.len());
            reveal_strlit("lighter");
            assert("color"@.len() != "lighter"@.len());
            reveal_strlit("xor");
            assert("color"@.len() != "xor"@.len());
            reveal_strlit("copy");
            assert("color"@.len() != "copy"@.len());
            reveal_strlit("multiply");
            assert("color"@.len() != "multiply"@.len());
            reveal_strlit("screen");
            assert("color"@.len() != "screen"@.len());
            reveal_strlit("overlay");
            assert("color"@.len() != "overlay"@.len());
            reveal_strlit("darken");
            assert("color"@.len() != "darken"@.len());
            reveal_strlit("lighten");
            assert("color"@.len() != "lighten"@.len());
            reveal_strlit("color-dodge");
            assert("color"@.len() != "color-dodge"@.len());
            reveal_strlit("color-burn");
            assert("color"@.len() != "color-burn"@.len());
            reveal_strlit("hard-light");
            assert("color"@.len() != "hard-light"@.len());
            reveal_strlit("soft-light");
            assert("color"@.len() != "soft-light"@.len());
            reveal_strlit("difference");
            assert("color"@.len() != "difference"@.len());
            reveal_strlit("exclusion");
            assert("color"@.len() != "exclusion"@.len());
            reveal_strlit("hue");
            assert("color"@.len() != "hue"@.len());
            reveal_strlit("saturation");
            assert("color"@.len() != "saturation"@.len());
        },
        CompositeOp::Luminosity => {
            reveal_strlit("luminosity");
            reveal_strlit("source-over");
            assert("luminosity"@.len() != "source-over"@.len());
            reveal_strlit("source-in");
            assert("luminosity"@.len() != "source-in"@.len());
            reveal_strlit("source-out");
            assert("luminosity"@[0] != "source-out"@[0]);
            reveal_strlit("source-atop");
            assert("luminosity"@.len() != "source-atop"@.len());
            reveal_strlit("destination-over");
            assert("luminosity"@.len() != "destination-over"@.len());
            reveal_strlit("destination-in");
            assert("luminosity"@.len() != "destination-in"@.len());
            reveal_strlit("destination-out");
            assert("luminosity"@.len() != "destination-out"@.len());
            reveal_strlit("destination-atop");
            assert("luminosity"@.len() != "destination-atop"@.len());
            reveal_strlit("lighter");
            assert("luminosity"@.len() != "lighter"@.len());
            reveal_strlit("xor");
            assert("luminosity"@.len() != "xor"@.len());
            reveal_strlit("copy");
            assert("luminosity"@.len() != "copy"@.len());
            reveal_strlit("multiply");
            assert("luminosity"@.len() != "multiply"@.len());
            reveal_strlit("screen");
            assert("luminosity"@.len() != "screen"@.len());
            reveal_strlit("overlay");
            assert("luminosity"@.len() != "overlay"@.len());
            reveal_strlit("darken");
            assert("luminosity"@.len() != "darken"@.len());
            reveal_strlit("lighten");
            assert("luminosity"@.len() != "lighten"@.len());
            reveal_strlit("color-dodge");
            assert("luminosity"@.len() != "color-dodge"@.len());
            reveal_strlit("color-burn");
            assert("luminosity"@[0] != "color-burn"@[0]);
            reveal_strlit("hard-light");
            assert("luminosity"@[0] != "hard-light"@[0]);
            reveal_strlit("soft-light");
            assert("luminosity"@[0] != "soft-light"@[0]);
            reveal_strlit("difference");
            assert("luminosity"@[0] != "difference"@[0]);
            reveal_strlit("exclusion");
            assert("luminosity"@.len() != "exclusion"@.len());
            reveal_strlit("hue");
            assert("luminosity"@.len() != "hue"@.len());
            reveal_strlit("saturation");
            assert("luminosity"@[0] != "saturation"@[0]);
            reveal_strlit("color");
            assert("luminosity"@.len() != "color"@.len());
        },
    }
}

/// CSS border-style.
#[derive(Clone, Copy, Debug, PartialEq, Eq, Structural)]
pub enum BorderStyle {
    Solid,
    Dashed,
    Dotted,
    Double,
    NoBorder,
}

/// The border style a keyword stands for; unknown keywords give solid.
pub open spec fn border_style_of(s: Seq<char>) -> BorderStyle {
    if s == "solid"@ {
        BorderStyle::Solid
    } else if s == "dashed"@ {
        BorderStyle::Dashed
    } else if s == "dotted"@ {
        BorderStyle::Dotted
    } else if s == "double"@ {
        BorderStyle::Double
    } else if s == "none"@ || s == "hidden"@ {
        BorderStyle::NoBorder
    } else {
        BorderStyle::Solid
    }
}

impl BorderStyle {
    /// Parses a border-style keyword; unknown keywords give solid.
    pub fn parse(s: &str) -> (r: Self)
        ensures
            r == border_style_of(s@),
    {
        let v = chars_of(s);
        if eq_lit(&v, "solid") {
            BorderStyle::Solid
        } else if eq_lit(&v, "dashed") {
            BorderStyle::Dashed
        } else if eq_lit(&v, "dotted") {
            BorderStyle::Dotted
        } else if eq_lit(&v, "double") {
            BorderStyle::Double
        } else if eq_lit(&v, "none") || eq_lit(&v, "hidden") {
            BorderStyle::NoBorder
        } else {
            BorderStyle::Solid
        }
    }
}

/// CSS mix-blend-mode.
#[derive(Clone, Copy, Debug, PartialEq, Eq, Structural)]
pub enum BlendMode {
    Normal,
    Multiply, Screen, Overlay, Darken, Lighten, ColorDodge, ColorBurn, HardLight, SoftLight, Difference, Exclusion,
}

/// The blend mode a keyword stands for; unknown keywords give normal.
pub open spec fn blend_mode_of(s: Seq<char>) -> BlendMode {
    if s == "multiply"@ {
        BlendMode::Multiply
    } else if s == "screen"@ {
        BlendMode::Screen
    } else if s == "overlay"@ {
        BlendMode::Overlay
    } else if s == "darken"@ {
        BlendMode::Darken
    } else if s == "lighten"@ {
        BlendMode::Lighten
    } else if s == "color-dodge"@ {
        BlendMode::ColorDodge
    } else if s == "color-burn"@ {
        BlendMode::ColorBurn
    } else if s == "hard-light"@ {
        BlendMode::HardLight
    } else if s == "soft-light"@ {
        BlendMode::SoftLight
    } else if s == "difference"@ {
        BlendMode::Difference
    } else if s == "exclusion"@ {
        BlendMode::Exclusion
    } else {
        BlendMode::Normal
    }
}

impl BlendMode {
    /// Parses a mix-blend-mode keyword; unknown keywords give normal.
    pub fn parse(s: &str) -> (r: Self)
        ensures
            r == blend_mode_of(s@),
    {
        let v = chars_of(s);
    if eq_lit(&v, "multiply") {
        BlendMode::Multiply
    } else if eq_lit(&v, "screen") {
        BlendMode::Screen
    } else if eq_lit(&v, "overlay") {
        BlendMode::Overlay
    } else if eq_lit(&v, "darken") {
        BlendMode::Darken
    } else if eq_lit(&v, "lighten") {
        BlendMode::Lighten
    } else if eq_lit(&v, "color-dodge") {
        BlendMode::ColorDodge
    } else if eq_lit(&v, "color-burn") {
        BlendMode::ColorBurn
    } else if eq_lit(&v, "hard-light") {
        BlendMode::HardLight
    } else if eq_lit(&v, "soft-light") {
        BlendMode::SoftLight
    } else if eq_lit(&v, "difference") {
        BlendMode::Difference
    } else if eq_lit(&v, "exclusion") {
        BlendMode::Exclusion
    } else {
        BlendMode::Normal
    }
    }
}

} // verus!
