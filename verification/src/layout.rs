use vstd::prelude::*;
use crate::dashed::{dashed_fits, dashed_rects, for_each_dashed_rect};
use crate::diagonal::{diagonal_segments, for_each_diagonal_segment};
use crate::double::{double_fits, double_rects, for_each_double_rect};
use crate::geometry::{Bounds, Point, Size};
use crate::glyph::{BoxDrawingGlyph, DashedGlyph, LineGlyph, glyph_for, spec_glyph_for};
use crate::rounded::{
    RoundedGeometry, is_rounded_corner, rounded_fits, rounded_geometry, spec_rounded_arc,
    spec_rounded_stubs,
};
use crate::straight::{for_each_straight_rect, straight_fits, straight_rects};

verus! {

/// The cell of the terminal grid in which a glyph is laid out.
#[derive(Clone, Copy, Debug, PartialEq, Eq, Structural)]
pub struct LayoutPoint {
    pub line: i32,
    pub column: i32,
}

impl LayoutPoint {
    pub fn new(line: i32, column: i32) -> (r: LayoutPoint)
        ensures
            r == (LayoutPoint { line, column }),
    {
        LayoutPoint { line, column }
    }

    pub fn line(&self) -> (r: i32)
        ensures
            r == self.line,
    {
        self.line
    }

    pub fn column(&self) -> (r: i32)
        ensures
            r == self.column,
    {
        self.column
    }
}

impl Default for LayoutPoint {
    fn default() -> (r: LayoutPoint)
        ensures
            r == (LayoutPoint { line: 0, column: 0 }),
    {
        LayoutPoint { line: 0, column: 0 }
    }
}

/// One thing to paint for a glyph, in cell-relative device pixels: a filled
/// rectangle, the arc of a rounded corner, or a straight line segment of a diagonal.
#[derive(Clone, Copy, Debug, PartialEq, Eq, Structural)]
pub enum GlyphShape {
    Fill(Bounds),
    Arc(RoundedGeometry),
    Segment(Point, Point),
}

/// Filled rectangles, in order.
pub open spec fn fills(rects: Seq<Bounds>) -> Seq<GlyphShape> {
    rects.map_values(|rect: Bounds| GlyphShape::Fill(rect))
}

/// Line segments, in order.
pub open spec fn segments(lines: Seq<(Point, Point)>) -> Seq<GlyphShape> {
    lines.map_values(|line: (Point, Point)| GlyphShape::Segment(line.0, line.1))
}

/// The inputs on which the shapes of a glyph are computed without overflow and with
/// exact half-pixel positions.
pub open spec fn shapes_fit(glyph: BoxDrawingGlyph, cell: Size, light_stroke: i32) -> bool {
    ||| cell.width <= 0
    ||| cell.height <= 0
    ||| match glyph {
        BoxDrawingGlyph::Line(line) => if is_rounded_corner(line) {
            rounded_fits(cell, light_stroke)
        } else {
            straight_fits(line, cell, light_stroke)
        },
        BoxDrawingGlyph::Dashed(dashed) => dashed_fits(dashed, cell, light_stroke),
        BoxDrawingGlyph::Double(_) => double_fits(cell, light_stroke),
        BoxDrawingGlyph::Diagonal(_) => true,
    }
}

/// What paints a glyph in a cell: nothing in a cell without area; a rounded corner's
/// stubs then its arc; the rectangles of the other straight, dashed and double-line
/// glyphs; the segments of a diagonal.
pub open spec fn spec_glyph_shapes(glyph: BoxDrawingGlyph, cell: Size, light_stroke: i32) -> Seq<
    GlyphShape,
> {
    if cell.width <= 0 || cell.height <= 0 {
        Seq::empty()
    } else {
        match glyph {
            BoxDrawingGlyph::Line(line) => if is_rounded_corner(line) {
                fills(spec_rounded_stubs(line, cell, light_stroke)).push(
                    GlyphShape::Arc(spec_rounded_arc(line, cell, light_stroke)),
                )
            } else {
                fills(straight_rects(line, cell, light_stroke))
            },
            BoxDrawingGlyph::Dashed(dashed) => fills(dashed_rects(dashed, cell, light_stroke)),
            BoxDrawingGlyph::Double(character) => fills(double_rects(character, cell, light_stroke)),
            BoxDrawingGlyph::Diagonal(diagonal) => segments(diagonal_segments(diagonal, cell)),
        }
    }
}

fn push_fills(shapes: &mut Vec<GlyphShape>, rects: Vec<Bounds>)
    ensures
        final(shapes)@ == old(shapes)@ + fills(rects@),
{
    let mut index: usize = 0;
    let ghost start = shapes@;
    while index < rects.len()
        invariant
            0 <= index <= rects@.len(),
            shapes@ == start + fills(rects@.take(index as int)),
        decreases rects@.len() - index,
    {
        shapes.push(GlyphShape::Fill(rects[index]));
        proof {
            assert(fills(rects@.take(index + 1)) =~= fills(rects@.take(index as int)).push(
                GlyphShape::Fill(rects@[index as int]),
            ));
        }
        index = index + 1;
    }
    proof {
        assert(rects@.take(rects@.len() as int) =~= rects@);
    }
}

/// A box-drawing character laid out in the terminal grid, with the color it is
/// painted in.
#[derive(Clone, Debug)]
pub struct BoxDrawingLayoutGlyph<C> {
    point: LayoutPoint,
    glyph: BoxDrawingGlyph,
    color: C,
}

impl<C> BoxDrawingLayoutGlyph<C> {
    pub closed spec fn spec_point(&self) -> LayoutPoint {
        self.point
    }

    pub closed spec fn spec_glyph(&self) -> BoxDrawingGlyph {
        self.glyph
    }

    pub closed spec fn spec_color(&self) -> C {
        self.color
    }

    /// The layout of a character at a grid position, or `None` for a character that
    /// is not box drawing.
    pub fn new(point: LayoutPoint, ch: char, color: C) -> (r: Option<Self>)
        ensures
            r is Some <==> spec_glyph_for(ch) is Some,
            r matches Some(laid_out) ==> {
                &&& laid_out.spec_point() == point
                &&& Some(laid_out.spec_glyph()) == spec_glyph_for(ch)
                &&& laid_out.spec_color() == color
            },
    {
        let glyph = match glyph_for(ch) {
            Some(glyph) => glyph,
            None => return None,
        };
        Some(Self { point, glyph, color })
    }

    /// The grid line the glyph is laid out on.
    pub fn line(&self) -> (r: i32)
        ensures
            r == self.spec_point().line,
    {
        self.point.line()
    }

    pub fn point(&self) -> (r: LayoutPoint)
        ensures
            r == self.spec_point(),
    {
        self.point
    }

    pub fn glyph(&self) -> (r: BoxDrawingGlyph)
        ensures
            r == self.spec_glyph(),
    {
        self.glyph
    }

    pub fn color(&self) -> (r: &C)
        ensures
            *r == self.spec_color(),
    {
        &self.color
    }

    /// What paints the glyph in a cell of the given size in device pixels, with the
    /// given light stroke width, in the order it is painted.
    pub fn shapes(&self, cell: Size, light_stroke: i32) -> (r: Vec<GlyphShape>)
        requires
            shapes_fit(self.spec_glyph(), cell, light_stroke),
        ensures
            r@ == spec_glyph_shapes(self.spec_glyph(), cell, light_stroke),
    {
        glyph_shapes(self.glyph, cell, light_stroke)
    }
}

/// What paints a glyph in a cell of the given size, in the order it is painted.
#[verifier::rlimit(50)]
pub fn glyph_shapes(glyph: BoxDrawingGlyph, cell: Size, light_stroke: i32) -> (r: Vec<GlyphShape>)
    requires
        shapes_fit(glyph, cell, light_stroke),
    ensures
        r@ == spec_glyph_shapes(glyph, cell, light_stroke),
{
    let mut shapes: Vec<GlyphShape> = Vec::new();
    if cell.width <= 0 || cell.height <= 0 {
        return shapes;
    }
    match glyph {
        BoxDrawingGlyph::Line(line) => {
            let corner = line.rounded && line.left.is_some() != line.right.is_some()
                && line.up.is_some() != line.down.is_some();
            if corner {
                let (geometry, stubs) = rounded_geometry(line, cell, light_stroke);
                push_fills(&mut shapes, stubs);
                if let Some(geometry) = geometry {
                    shapes.push(GlyphShape::Arc(geometry));
                }
            } else {
                push_fills(&mut shapes, for_each_straight_rect(line, cell, light_stroke));
            }
        },
        BoxDrawingGlyph::Dashed(dashed) => {
            push_fills(&mut shapes, for_each_dashed_rect(dashed, cell, light_stroke));
        },
        BoxDrawingGlyph::Double(character) => {
            push_fills(&mut shapes, for_each_double_rect(character, cell, light_stroke));
        },
        BoxDrawingGlyph::Diagonal(diagonal) => {
            let lines = for_each_diagonal_segment(diagonal, cell);
            let mut index: usize = 0;
            while index < lines.len()
                invariant
                    0 <= index <= lines@.len(),
                    shapes@ == segments(lines@.take(index as int)),
                decreases lines@.len() - index,
            {
                let (start, end) = lines[index];
                shapes.push(GlyphShape::Segment(start, end));
                proof {
                    assert(segments(lines@.take(index + 1)) =~= segments(lines@.take(index as int)).push(
                        GlyphShape::Segment(start, end),
                    ));
                }
                index = index + 1;
            }
            proof {
                assert(lines@.take(lines@.len() as int) =~= lines@);
            }
        },
    }
    proof {
        assert(shapes@ =~= spec_glyph_shapes(glyph, cell, light_stroke));
    }
    shapes
}

} // verus!

verus! {

/// Whether a glyph paints at least one shape in a cell of the given size.
pub open spec fn paints_something(glyph: BoxDrawingGlyph, cell: Size, light_stroke: i32) -> bool {
    spec_glyph_shapes(glyph, cell, light_stroke).len() >= 1
}

proof fn lemma_line_paints(line: LineGlyph, cell: Size, light_stroke: i32)
    requires
        2 <= cell.width <= crate::double::EXACT_LIMIT,
        2 <= cell.height <= crate::double::EXACT_LIMIT,
        1 <= light_stroke <= crate::double::EXACT_LIMIT,
        line.left is Some || line.right is Some || line.up is Some || line.down is Some,
    ensures
        paints_something(BoxDrawingGlyph::Line(line), cell, light_stroke),
{
    if !is_rounded_corner(line) {
        crate::straight::lemma_straight_rects_reach_edges_connected(line, cell, light_stroke);
        assert(fills(straight_rects(line, cell, light_stroke)).len() >= 1);
    }
}

proof fn lemma_dashed_paints(dashed: DashedGlyph, cell: Size, light_stroke: i32)
    requires
        2 <= cell.width,
        2 <= cell.height,
        1 <= light_stroke,
        1 <= dashed.spec_gaps() <= 3,
    ensures
        paints_something(BoxDrawingGlyph::Dashed(dashed), cell, light_stroke),
{
    crate::dashed::lemma_dashed_rects_nonempty(dashed, cell, light_stroke);
    assert(fills(dashed_rects(dashed, cell, light_stroke)).len() >= 1);
}

proof fn lemma_double_paints(character: char, cell: Size, light_stroke: i32)
    requires
        2 <= cell.width <= crate::double::EXACT_LIMIT,
        2 <= cell.height <= crate::double::EXACT_LIMIT,
        1 <= light_stroke <= crate::double::EXACT_LIMIT,
        0x2550 <= character as u32 <= 0x256C,
    ensures
        paints_something(BoxDrawingGlyph::Double(character), cell, light_stroke),
{
    crate::double::lemma_double_rects_nonempty(character, cell, light_stroke);
    assert(fills(double_rects(character, cell, light_stroke)).len() >= 1);
}

/// Law: every character of the box-drawing block is custom-painted: in a cell at
/// least two pixels wide and tall with a light stroke of at least one pixel, its glyph
/// paints at least one shape.
#[verifier::rlimit(50)]
pub proof fn lemma_every_box_character_paints(ch: char, cell: Size, light_stroke: i32)
    requires
        0x2500 <= ch as u32 <= 0x257F,
        2 <= cell.width <= crate::double::EXACT_LIMIT,
        2 <= cell.height <= crate::double::EXACT_LIMIT,
        1 <= light_stroke <= crate::double::EXACT_LIMIT,
    ensures
        spec_glyph_for(ch) is Some,
        paints_something(spec_glyph_for(ch)->0, cell, light_stroke),
{
    crate::glyph::lemma_glyph_for_defined(ch);
    crate::glyph::lemma_line_glyph_arms(ch);
    match spec_glyph_for(ch)->0 {
        BoxDrawingGlyph::Line(line) => lemma_line_paints(line, cell, light_stroke),
        BoxDrawingGlyph::Dashed(dashed) => lemma_dashed_paints(dashed, cell, light_stroke),
        BoxDrawingGlyph::Double(character) => lemma_double_paints(character, cell, light_stroke),
        BoxDrawingGlyph::Diagonal(diagonal) => {
            assert(segments(diagonal_segments(diagonal, cell)).len() >= 1);
        },
    }
}

} // verus!
