use vstd::prelude::*;
use crate::geometry::{Point, Size, point};
use crate::glyph::DiagonalGlyph;

verus! {

/// The strokes of a diagonal glyph, each from one corner of the cell to the
/// opposite one: the rising stroke from bottom-left to top-right, then the falling
/// stroke from top-left to bottom-right.
pub open spec fn diagonal_segments(glyph: DiagonalGlyph, cell: Size) -> Seq<(Point, Point)> {
    let rising = if glyph.rising {
        seq![(point(0, cell.height), point(cell.width, 0))]
    } else {
        Seq::empty()
    };
    let falling = if glyph.falling {
        seq![(point(0, 0), point(cell.width, cell.height))]
    } else {
        Seq::empty()
    };
    rising + falling
}

/// The line segments that paint a diagonal glyph.
pub fn for_each_diagonal_segment(glyph: DiagonalGlyph, cell: Size) -> (r: Vec<(Point, Point)>)
    ensures
        r@ == diagonal_segments(glyph, cell),
{
    let mut segments: Vec<(Point, Point)> = Vec::new();
    if glyph.rising {
        segments.push((point(0, cell.height), point(cell.width, 0)));
    }
    if glyph.falling {
        segments.push((point(0, 0), point(cell.width, cell.height)));
    }
    proof {
        assert(segments@ =~= diagonal_segments(glyph, cell));
    }
    segments
}

/// The segment runs from the bottom-left corner of the cell to the top-right one.
pub open spec fn joins_rising(segment: (Point, Point), cell: Size) -> bool {
    segment.0 == point(0, cell.height) && segment.1 == point(cell.width, 0)
}

/// The segment runs from the top-left corner of the cell to the bottom-right one.
pub open spec fn joins_falling(segment: (Point, Point), cell: Size) -> bool {
    segment.0 == point(0, 0) && segment.1 == point(cell.width, cell.height)
}

/// Law: a diagonal glyph paints one stroke per diagonal it has, each joining two
/// opposite corners of the cell: the rising diagonal from bottom-left to top-right,
/// drawn first, and the falling one from top-left to bottom-right, drawn last.
pub proof fn lemma_diagonal_segments_join_corners(glyph: DiagonalGlyph, cell: Size)
    ensures
        ({
            let segments = diagonal_segments(glyph, cell);
            &&& segments.len() == (if glyph.rising { 1int } else { 0 }) + (if glyph.falling { 1int } else { 0 })
            &&& forall|i: int|
                0 <= i < segments.len() ==> joins_rising(#[trigger] segments[i], cell) || joins_falling(
                    segments[i],
                    cell,
                )
            &&& glyph.rising ==> joins_rising(segments[0], cell)
            &&& glyph.falling ==> joins_falling(segments[segments.len() - 1], cell)
            &&& !glyph.rising ==> forall|i: int| 0 <= i < segments.len() ==> !joins_rising(#[trigger] segments[i], cell) || cell.height == 0
            &&& !glyph.falling ==> forall|i: int| 0 <= i < segments.len() ==> !joins_falling(#[trigger] segments[i], cell) || cell.height == 0
        }),
{
    let segments = diagonal_segments(glyph, cell);
    assert forall|i: int| 0 <= i < segments.len() implies joins_rising(#[trigger] segments[i], cell)
        || joins_falling(segments[i], cell) by {
    }
}

} // verus!
