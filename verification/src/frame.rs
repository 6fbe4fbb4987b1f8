//! Decisions of the render step of a frame: which image loads go ahead,
//! whether the page is rendered again in full or only restyled, and which
//! layers make up the frame.
use vstd::prelude::*;
use crate::content::content_relative;
use crate::content::path_join;
use crate::content::safe_content_path_pub;
use vstd::string::StringSliceAdditionalSpecFns;

verus! {

/// The most images that scripts may register.
pub const MAX_IMAGES: usize = 512;

/// The file that an image load reads: `src` inside the content directory.
/// There is none without a content directory, when `src` reaches outside it
/// by `..`, or when `MAX_IMAGES` images are registered already.
pub open spec fn image_load_path(src: Seq<u8>, dir: Option<Seq<char>>, image_count: int) -> Option<
    Seq<char>,
> {
    match dir {
        None => None,
        Some(d) => match content_relative(src) {
            None => None,
            Some(c) => if image_count >= MAX_IMAGES {
                None
            } else {
                Some(path_join(d, c))
            },
        },
    }
}

/// Decides where an image load of `src` reads from (see `image_load_path`);
/// `None` means that the image fails to load.
pub fn plan_image_load(src: &str, content_dir: Option<&str>, image_count: usize) -> (r: Option<
    String,
>)
    ensures
        match r {
            Some(p) => image_load_path(
                src.spec_bytes(),
                match content_dir {
                    Some(d) => Some(d@),
                    None => None,
                },
                image_count as int,
            ) == Some(p@),
            None => image_load_path(
                src.spec_bytes(),
                match content_dir {
                    Some(d) => Some(d@),
                    None => None,
                },
                image_count as int,
            ) is None,
        },
{
    match content_dir {
        None => None,
        Some(d) => match safe_content_path_pub(d, src) {
            None => None,
            Some(p) => {
                if image_count >= MAX_IMAGES {
                    None
                } else {
                    Some(p)
                }
            },
        },
    }
}

/// A command that a script queued against the page: its opcode (1 sets a
/// style property of a node, 2 changes the structure), how many arguments it
/// came with (opcode included), and, for a style change, the node, property
/// and value.
pub struct DomCommand {
    pub opcode: i32,
    pub arity: u32,
    pub node: usize,
    pub property: String,
    pub value: String,
}

/// What becomes of the page this frame.
#[derive(Debug, PartialEq, Eq)]
pub enum DomUpdate {
    /// Nothing to do.
    Unchanged,
    /// Render the page again from its serialized HTML.
    FullRender,
    /// Apply these style changes (node, property, value), in order, to the
    /// page kept from the last render.
    Restyle(Vec<(usize, String, String)>),
}

/// A command changes the structure of the page.
pub open spec fn is_structural(c: DomCommand) -> bool {
    c.arity >= 2 && c.opcode == 2
}

/// A command changes a style property.
pub open spec fn is_style(c: DomCommand) -> bool {
    c.arity >= 4 && c.opcode == 1
}

/// The style changes among `cs`, in order.
pub open spec fn style_changes(cs: Seq<DomCommand>) -> Seq<(usize, Seq<char>, Seq<char>)>
    decreases cs.len(),
{
    if cs.len() == 0 {
        Seq::empty()
    } else {
        let c = cs.last();
        style_changes(cs.drop_last()) + if is_style(c) {
            seq![(c.node, c.property@, c.value@)]
        } else {
            Seq::empty()
        }
    }
}

/// The model of a page update: a tag (0 unchanged, 1 full render,
/// 2 restyle) and the style changes.
pub open spec fn update_view(u: DomUpdate) -> (int, Seq<(usize, Seq<char>, Seq<char>)>) {
    match u {
        DomUpdate::Unchanged => (0, Seq::empty()),
        DomUpdate::FullRender => (1, Seq::empty()),
        DomUpdate::Restyle(v) => (2, v@.map_values(|e: (usize, String, String)| (e.0, e.1@, e.2@))),
    }
}

/// The update of the page: none unless the script marked it dirty; a full
/// render when a command changed its structure or no page is kept from an
/// earlier render; else its style changes, if there are any.
pub open spec fn dom_update(dirty: bool, kept: bool, cs: Seq<DomCommand>) -> (int, Seq<
    (usize, Seq<char>, Seq<char>),
>) {
    if !dirty {
        (0, Seq::empty())
    } else if (exists|i: int| 0 <= i < cs.len() && is_structural(#[trigger] cs[i])) || !kept {
        (1, Seq::empty())
    } else if style_changes(cs).len() > 0 {
        (2, style_changes(cs))
    } else {
        (0, Seq::empty())
    }
}

/// Decides how the page is updated this frame (see `dom_update`), given
/// whether the script marked it dirty, whether a page is kept from an
/// earlier render, and the commands it queued.
pub fn plan_dom_update(dirty: bool, kept: bool, cmds: &Vec<DomCommand>) -> (r: DomUpdate)
    ensures
        update_view(r) == dom_update(dirty, kept, cmds@),
{
    if !dirty {
        return DomUpdate::Unchanged;
    }
    let mut structural = false;
    let mut changes: Vec<(usize, String, String)> = Vec::new();
    let mut i: usize = 0;
    while i < cmds.len()
        invariant
            i <= cmds@.len(),
            structural == exists|j: int| 0 <= j < i && is_structural(#[trigger] cmds@[j]),
            changes@.map_values(|e: (usize, String, String)| (e.0, e.1@, e.2@)) == style_changes(
                cmds@.take(i as int),
            ),
        decreases cmds@.len() - i,
    {
        let c = &cmds[i];
        let ghost before = changes@;
        proof {
            let t = cmds@.take(i + 1);
            assert(t.drop_last() =~= cmds@.take(i as int));
            assert(t.last() == cmds@[i as int]);
        }
        if c.arity >= 2 && c.opcode == 2 {
            structural = true;
        } else if c.arity >= 4 && c.opcode == 1 {
            changes.push((c.node, c.property.clone(), c.value.clone()));
        }
        proof {
            assert(changes@.map_values(|e: (usize, String, String)| (e.0, e.1@, e.2@)) =~= style_changes(
                cmds@.take(i + 1),
            ));
            if is_structural(cmds@[i as int]) {
                assert(exists|j: int| 0 <= j < i + 1 && is_structural(#[trigger] cmds@[j]));
            }
        }
        i = i + 1;
    }
    assert(cmds@.take(cmds@.len() as int) =~= cmds@);
    if structural || !kept {
        DomUpdate::FullRender
    } else if changes.len() > 0 {
        DomUpdate::Restyle(changes)
    } else {
        DomUpdate::Unchanged
    }
}

/// The name of a command that creates an analyser node.
pub open spec fn names_analyser(name: Option<String>) -> bool {
    name matches Some(n) && n@ == "analyser_create"@
}

/// Whether a batch of audio commands, given by the name each starts with,
/// creates an analyser node (whose samples the script then reads each
/// frame).
pub fn creates_analyser(names: &Vec<Option<String>>) -> (b: bool)
    ensures
        b == exists|i: int| 0 <= i < names@.len() && names_analyser(#[trigger] names@[i]),
{
    let mut i: usize = 0;
    while i < names.len()
        invariant
            i <= names@.len(),
            forall|j: int| 0 <= j < i ==> !names_analyser(#[trigger] names@[j]),
        decreases names@.len() - i,
    {
        match &names[i] {
            Some(n) => {
                if crate::text::eq_lit(&crate::text::chars_of(n.as_str()), "analyser_create") {
                    assert(names_analyser(names@[i as int]));
                    return true;
                }
            },
            None => {},
        }
        i = i + 1;
    }
    false
}

/// The layers that make up a frame, back to front.
#[derive(Debug, PartialEq, Eq)]
pub struct Composite {
    /// What the frame starts from.
    pub base: Base,
    /// WebGL's pixels go over it.
    pub webgl: bool,
    /// Then the 2D canvas's pixels.
    pub canvas: bool,
}

/// What a frame starts from.
#[derive(Debug, PartialEq, Eq)]
pub enum Base {
    /// The rendered page.
    Page,
    /// Transparent black.
    Clear,
    /// The last frame, as it is.
    Last,
}

/// Decides the layers of a frame: when WebGL or the 2D canvas drew, or the
/// page changed, the frame is built again from the page (or transparent
/// black without one) with WebGL and then the canvas over it, each only if
/// it drew; otherwise the page, if there is one, is shown again, and without
/// one the last frame stays.
pub fn plan_composite(webgl_drew: bool, canvas_drew: bool, page_dirty: bool, has_page: bool) -> (r:
    Composite)
    ensures
        (webgl_drew || canvas_drew || page_dirty) ==> r == (Composite {
            base: if has_page {
                Base::Page
            } else {
                Base::Clear
            },
            webgl: webgl_drew,
            canvas: canvas_drew,
        }),
        !(webgl_drew || canvas_drew || page_dirty) ==> r == (Composite {
            base: if has_page {
                Base::Page
            } else {
                Base::Last
            },
            webgl: false,
            canvas: false,
        }),
{
    if webgl_drew || canvas_drew || page_dirty {
        Composite {
            base: if has_page {
                Base::Page
            } else {
                Base::Clear
            },
            webgl: webgl_drew,
            canvas: canvas_drew,
        }
    } else {
        Composite {
            base: if has_page {
                Base::Page
            } else {
                Base::Last
            },
            webgl: false,
            canvas: false,
        }
    }
}

/// One colour byte of a premultiplied pixel of alpha `a`, laid over white:
/// the byte itself when opaque, white when transparent, else the byte plus
/// the white that shows through, at most 255.
pub open spec fn over_white(c: u8, a: u8) -> u8 {
    if a == 255 {
        c
    } else if a > 0 {
        if c + (255 - a) > 255 {
            255
        } else {
            (c + (255 - a)) as u8
        }
    } else {
        255
    }
}

/// Byte `i` of the screenshot of premultiplied RGBA pixels `src`: each whole
/// pixel's colour laid over white and made opaque; bytes after the last
/// whole pixel are 255.
pub open spec fn screenshot_byte(src: Seq<u8>, i: int) -> u8 {
    let p = i / 4;
    if 4 * p + 4 > src.len() || i % 4 == 3 {
        255
    } else {
        over_white(src[i], src[4 * p + 3])
    }
}

/// An opaque screenshot of a premultiplied RGBA framebuffer, laid over white
/// (see `screenshot_byte`).
pub fn get_framebuffer_for_screenshot(framebuffer: &[u8]) -> (r: Vec<u8>)
    ensures
        r@.len() == framebuffer@.len(),
        forall|i: int| 0 <= i < r@.len() ==> r@[i] == screenshot_byte(framebuffer@, i),
{
    let n = framebuffer.len() / 4;
    let mut out: Vec<u8> = Vec::new();
    let mut p: usize = 0;
    while p < n
        invariant
            n == framebuffer.len() / 4,
            n == framebuffer@.len() / 4,
            p <= n,
            out@.len() == 4 * p,
            forall|i: int| 0 <= i < out@.len() ==> out@[i] == screenshot_byte(framebuffer@, i),
        decreases n - p,
    {
        assert(4 * p + 4 <= framebuffer.len()) by (nonlinear_arith)
            requires
                p < n,
                n == framebuffer.len() / 4,
        ;
        let b = 4 * p;
        let a = framebuffer[b + 3];
        let mut k: usize = 0;
        while k < 3
            invariant
                n == framebuffer@.len() / 4,
                p < n,
                b == 4 * p,
                a == framebuffer@[b + 3],
                k <= 3,
                b + 4 <= framebuffer@.len(),
                out@.len() == b + k,
                forall|i: int| 0 <= i < out@.len() ==> out@[i] == screenshot_byte(framebuffer@, i),
            decreases 3 - k,
        {
            let c = framebuffer[b + k];
            let v: u8 = if a == 255 {
                c
            } else if a > 0 {
                let sum: u16 = c as u16 + (255 - a as u16);
                if sum > 255 {
                    255
                } else {
                    sum as u8
                }
            } else {
                255
            };
            proof {
                let i = (b + k) as int;
                assert(i / 4 == p as int && i % 4 == k as int) by (nonlinear_arith)
                    requires
                        i == 4 * p + k,
                        0 <= k < 3,
                ;
            }
            out.push(v);
            k = k + 1;
        }
        proof {
            let i = (b + 3) as int;
            assert(i / 4 == p as int && i % 4 == 3) by (nonlinear_arith)
                requires
                    i == 4 * p + 3,
            ;
        }
        out.push(255);
        p = p + 1;
    }
    while out.len() < framebuffer.len()
        invariant
            n == framebuffer@.len() / 4,
            4 * n <= out@.len() <= framebuffer@.len(),
            forall|i: int| 0 <= i < out@.len() ==> out@[i] == screenshot_byte(framebuffer@, i),
        decreases framebuffer@.len() - out@.len(),
    {
        proof {
            let i = out@.len() as int;
            let len = framebuffer@.len() as int;
            assert(4 * (i / 4) + 4 > len) by (nonlinear_arith)
                requires
                    4 * n <= i < len,
                    n == len / 4,
            ;
        }
        out.push(255);
    }
    out
}

/// Laying a pixel over white adds the white that its alpha lets through,
/// and saturates: a byte `c` of alpha `a` becomes `min(c + 255 - a, 255)`;
/// so an opaque pixel keeps its colour and a transparent one is white.
pub proof fn law_over_white_adds_white(c: u8, a: u8)
    ensures
        over_white(c, a) as int == if c + 255 - a > 255 {
            255
        } else {
            c + 255 - a
        },
        over_white(c, 255) == c,
        over_white(c, 0) == 255,
{
}

} // verus!
