//! The render extractor: turns laid-out committed nodes into flat,
//! render-ready primitives.
//!
//! Text nodes expand into one primitive per glyph placed by the font's
//! per-glyph metrics, with the line height fixed at 1.2 times the font
//! size (rounded down to whole pixels). A text node whose font is not
//! loaded yet yields zero primitives and no error, so a frame renders
//! partial content while assets stream in; glyphs missing from a loaded
//! font are skipped the same way.

use vstd::prelude::*;
use crate::geom::{Rect, spec_sat_add, sat_add};
use crate::style::Color;
use crate::widget::WidgetKind;

verus! {

/// What a primitive draws.
#[derive(Clone, Copy, PartialEq, Eq, Structural, Debug)]
pub enum PrimShape {
    /// A solid quad.
    Quad,
    /// One glyph of a text run.
    Glyph { code: u32 },
    /// An image quad referencing a texture handle.
    Image { handle: u64 },
    /// A vector path referencing a path-data handle.
    Path { handle: u64 },
}

/// A render-ready primitive: it borrows the committed node's identity
/// and owns its own absolute (screen-space) geometry.
#[derive(Clone, Copy, PartialEq, Eq, Structural, Debug)]
pub struct Primitive {
    pub node: usize,
    pub rect: Rect,
    pub color: Color,
    pub z: i32,
    pub shape: PrimShape,
}

/// Per-glyph metrics of one code point, in pixels.
#[derive(Clone, Copy, PartialEq, Eq, Structural, Debug)]
pub struct Glyph {
    pub code: u32,
    pub advance: u32,
    pub width: u32,
    pub height: u32,
}

/// A loaded font: a handle and its glyph table.
pub struct FontData {
    pub id: u64,
    pub glyphs: Vec<Glyph>,
}

/// The asset system's view of fonts: each handle either resolves to
/// loaded metrics or is still streaming in.
pub struct FontBook {
    pub fonts: Vec<FontData>,
}

/// The first glyph entry for `code`, if the font carries one.
pub open spec fn spec_glyph_of(glyphs: Seq<Glyph>, code: u32) -> Option<Glyph>
    decreases glyphs.len(),
{
    if glyphs.len() == 0 {
        None
    } else if glyphs[0].code == code {
        Some(glyphs[0])
    } else {
        spec_glyph_of(glyphs.drop_first(), code)
    }
}

/// The index of the first loaded font with handle `id`, if any.
pub open spec fn spec_font_index(fonts: Seq<FontData>, id: u64, from: int) -> Option<int>
    decreases fonts.len() - from,
{
    if from < 0 || from >= fonts.len() {
        None
    } else if fonts[from].id == id {
        Some(from)
    } else {
        spec_font_index(fonts, id, from + 1)
    }
}

impl FontBook {
    /// Looks a handle up; `None` means the font is not loaded yet.
    pub fn lookup(&self, id: u64) -> (r: Option<&FontData>)
        ensures
            match r {
                Some(f) => spec_font_index(self.fonts@, id, 0) matches Some(i) && *f
                    == self.fonts@[i],
                None => spec_font_index(self.fonts@, id, 0) is None,
            },
    {
        let mut i: usize = 0;
        while i < self.fonts.len()
            invariant
                0 <= i <= self.fonts@.len(),
                spec_font_index(self.fonts@, id, 0) == spec_font_index(self.fonts@, id, i as int),
            decreases self.fonts@.len() - i,
        {
            if self.fonts[i].id == id {
                return Some(&self.fonts[i]);
            }
            i = i + 1;
        }
        None
    }
}

/// Finds the glyph for `code` in a loaded font.
pub fn glyph_of(font: &FontData, code: u32) -> (r: Option<Glyph>)
    ensures
        r == spec_glyph_of(font.glyphs@, code),
{
    let mut i: usize = 0;
    proof {
        assert(font.glyphs@.skip(0) =~= font.glyphs@);
    }
    while i < font.glyphs.len()
        invariant
            0 <= i <= font.glyphs@.len(),
            spec_glyph_of(font.glyphs@, code) == spec_glyph_of(
                font.glyphs@.skip(i as int),
                code,
            ),
        decreases font.glyphs@.len() - i,
    {
        proof {
            assert(font.glyphs@.skip(i as int)[0] == font.glyphs@[i as int]);
            assert(font.glyphs@.skip(i as int).drop_first() =~= font.glyphs@.skip(i as int + 1));
        }
        if font.glyphs[i].code == code {
            return Some(font.glyphs[i]);
        }
        i = i + 1;
    }
    None
}

/// The line height of a text run: 1.2 times the font size, in whole
/// pixels (rounded down).
pub open spec fn spec_line_height(font_size: u32) -> int {
    (font_size * 6) / 5
}

/// The glyph primitives of `content[from..]` starting with the pen at
/// `pen_x`: one primitive per glyph the font knows, each placed at the
/// running pen position and advancing it; unknown code points are
/// skipped.
pub open spec fn spec_text_prims(
    node: usize,
    content: Seq<u32>,
    glyphs: Seq<Glyph>,
    pen_x: u32,
    top: u32,
    color: Color,
    z: i32,
    from: int,
) -> Seq<Primitive>
    decreases content.len() - from,
{
    if from < 0 || from >= content.len() {
        Seq::<Primitive>::empty()
    } else {
        match spec_glyph_of(glyphs, content[from]) {
            Some(g) => seq![
                Primitive {
                    node,
                    rect: Rect { x: pen_x, y: top, w: g.width, h: g.height },
                    color,
                    z,
                    shape: PrimShape::Glyph { code: content[from] },
                },
            ] + spec_text_prims(
                node,
                content,
                glyphs,
                spec_sat_add(pen_x, g.advance),
                top,
                color,
                z,
                from + 1,
            ),
            None => spec_text_prims(node, content, glyphs, pen_x, top, color, z, from + 1),
        }
    }
}

/// Expands a text node into one primitive per glyph, pen starting at
/// the node's left edge, glyph tops one line height below the node's
/// top. A font that is not loaded (`None`) yields zero primitives and
/// no error.
pub fn extract_texts(
    node: usize,
    layout: &Rect,
    font: Option<&FontData>,
    font_size: u32,
    content: &Vec<u32>,
    color: Color,
    z: i32,
) -> (prims: Vec<Primitive>)
    requires
        font_size <= 0xffff,
    ensures
        match font {
            Some(f) => prims@ == spec_text_prims(
                node,
                content@,
                f.glyphs@,
                layout.x,
                spec_sat_add(layout.y, spec_line_height(font_size) as u32),
                color,
                z,
                0,
            ),
            None => prims@.len() == 0,
        },
{
    let mut prims: Vec<Primitive> = Vec::new();
    let f = match font {
        Some(f) => f,
        None => {
            return prims;
        },
    };
    let line_height: u32 = (font_size * 6) / 5;
    let top: u32 = sat_add(layout.y, line_height);
    let mut pen_x: u32 = layout.x;
    let mut i: usize = 0;
    while i < content.len()
        invariant
            0 <= i <= content@.len(),
            font_size <= 0xffff,
            top == spec_sat_add(layout.y, spec_line_height(font_size) as u32),
            spec_text_prims(node, content@, f.glyphs@, layout.x, top, color, z, 0) == prims@
                + spec_text_prims(node, content@, f.glyphs@, pen_x, top, color, z, i as int),
        decreases content@.len() - i,
    {
        match glyph_of(f, content[i]) {
            Some(g) => {
                let ghost before = prims@;
                prims.push(
                    Primitive {
                        node,
                        rect: Rect { x: pen_x, y: top, w: g.width, h: g.height },
                        color,
                        z,
                        shape: PrimShape::Glyph { code: content[i] },
                    },
                );
                pen_x = sat_add(pen_x, g.advance);
                proof {
                    assert(prims@ =~= before + seq![prims@[prims@.len() - 1]]);
                }
            },
            None => {},
        }
        i = i + 1;
    }
    prims
}

/// Converts a laid-out vector-graphics node into its single primitive:
/// the node's rectangle, carrying the path handle.
pub fn extract_svg(node: usize, layout: &Rect, handle: u64, color: Color, z: i32) -> (q: Primitive)
    ensures
        q.node == node,
        q.rect == *layout,
        q.color == color,
        q.z == z,
        q.shape == (PrimShape::Path { handle }),
{
    Primitive { node, rect: *layout, color, z, shape: PrimShape::Path { handle } }
}

/// The primitives a single laid-out node emits.
pub open spec fn spec_node_prims(
    node: usize,
    kind: WidgetKind,
    layout: Rect,
    fonts: Seq<FontData>,
    color: Color,
    z: i32,
) -> Seq<Primitive> {
    match kind {
        WidgetKind::Fragment => Seq::<Primitive>::empty(),
        WidgetKind::Container | WidgetKind::Button => seq![
            Primitive { node, rect: layout, color, z, shape: PrimShape::Quad },
        ],
        WidgetKind::Text { font, size, content } => match spec_font_index(fonts, font, 0) {
            Some(fi) => spec_text_prims(
                node,
                content@,
                fonts[fi].glyphs@,
                layout.x,
                spec_sat_add(layout.y, spec_line_height(size) as u32),
                color,
                z,
                0,
            ),
            None => Seq::<Primitive>::empty(),
        },
        WidgetKind::Image { handle } => seq![
            Primitive { node, rect: layout, color, z, shape: PrimShape::Image { handle } },
        ],
        WidgetKind::Svg { handle } => seq![
            Primitive { node, rect: layout, color, z, shape: PrimShape::Path { handle } },
        ],
    }
}

/// Extracts one node: fragments emit nothing, containers and buttons a
/// quad, images and vector paths one referencing primitive, text one
/// primitive per glyph — or none at all while its font is unloaded.
pub fn extract_node(
    node: usize,
    kind: &WidgetKind,
    layout: &Rect,
    fonts: &FontBook,
    color: Color,
    z: i32,
) -> (prims: Vec<Primitive>)
    requires
        kind matches WidgetKind::Text { size, .. } ==> size <= 0xffff,
    ensures
        prims@ == spec_node_prims(node, *kind, *layout, fonts.fonts@, color, z),
{
    let mut prims: Vec<Primitive> = Vec::new();
    match kind {
        WidgetKind::Fragment => prims,
        WidgetKind::Container | WidgetKind::Button => {
            prims.push(Primitive { node, rect: *layout, color, z, shape: PrimShape::Quad });
            proof {
                assert(prims@ =~= spec_node_prims(node, *kind, *layout, fonts.fonts@, color, z));
            }
            prims
        },
        WidgetKind::Text { font, size, content } => {
            let fd = fonts.lookup(*font);
            let out = extract_texts(node, layout, fd, *size, content, color, z);
            proof {
                assert(out@ =~= spec_node_prims(node, *kind, *layout, fonts.fonts@, color, z));
            }
            out
        },
        WidgetKind::Image { handle } => {
            prims.push(
                Primitive { node, rect: *layout, color, z, shape: PrimShape::Image { handle: *handle } },
            );
            proof {
                assert(prims@ =~= spec_node_prims(node, *kind, *layout, fonts.fonts@, color, z));
            }
            prims
        },
        WidgetKind::Svg { handle } => {
            let q = extract_svg(node, layout, *handle, color, z);
            prims.push(q);
            proof {
                assert(prims@ =~= spec_node_prims(node, *kind, *layout, fonts.fonts@, color, z));
            }
            prims
        },
    }
}

} // verus!
