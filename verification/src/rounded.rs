use vstd::prelude::*;
use crate::double::EXACT_LIMIT;
use crate::geometry::{Bounds, Size, point, min, pairwise_disjoint, all_within, covers};
use crate::glyph::{LineGlyph, Stroke};
use crate::straight::{centered_band, centered_stroke_bounds, corners, push_if};

verus! {

/// A position in half pixels: twice its distance in pixels from the cell's top-left
/// corner, so that positions between two pixels are whole numbers.
#[derive(Clone, Copy, Debug, PartialEq, Eq, Structural)]
pub struct HalfPoint {
    pub x: i32,
    pub y: i32,
}

/// The quarter-circle arc of a rounded corner, from where it leaves the horizontal
/// stroke to where it joins the vertical one; positions and radius in half pixels.
/// `sweep` tells the direction in which the arc turns.
#[derive(Clone, Copy, Debug, PartialEq, Eq, Structural)]
pub struct RoundedGeometry {
    pub arc_start: HalfPoint,
    pub arc_end: HalfPoint,
    pub radius: i32,
    pub sweep: bool,
}

/// A position in half pixels rounded to the nearest pixel, halves away from zero.
pub open spec fn round_halves(position: int) -> int {
    if position >= 0 {
        (position + 1) / 2
    } else {
        -((-position + 1) / 2)
    }
}

/// The inputs within which half-pixel positions are exact.
pub open spec fn rounded_fits(cell: Size, light_stroke: i32) -> bool {
    &&& -EXACT_LIMIT <= cell.width <= EXACT_LIMIT
    &&& -EXACT_LIMIT <= cell.height <= EXACT_LIMIT
    &&& -EXACT_LIMIT <= light_stroke <= EXACT_LIMIT
}

/// A rounded corner: a rounded glyph with exactly one horizontal and one vertical arm.
pub open spec fn is_rounded_corner(glyph: LineGlyph) -> bool {
    &&& glyph.rounded
    &&& (glyph.left is Some) != (glyph.right is Some)
    &&& (glyph.up is Some) != (glyph.down is Some)
}

/// The arc of a rounded corner: centred where the light strokes cross, with the largest
/// radius that keeps it in the cell, from the horizontal stroke on the side of the
/// horizontal arm to the vertical stroke on the side of the vertical arm.
pub open spec fn spec_rounded_arc(glyph: LineGlyph, cell: Size, light_stroke: i32) -> RoundedGeometry {
    let (w, h, light) = (cell.width as int, cell.height as int, light_stroke as int);
    let horizontal = centered_band(h, Some(Stroke::Light), light);
    let vertical = centered_band(w, Some(Stroke::Light), light);
    let cx = vertical.0 + vertical.1;
    let cy = horizontal.0 + horizontal.1;
    let radius = min(min(min(cx, 2 * w - cx), cy), 2 * h - cy);
    RoundedGeometry {
        arc_start: HalfPoint {
            x: (if glyph.left is Some {
                cx - radius
            } else {
                cx + radius
            }) as i32,
            y: cy as i32,
        },
        arc_end: HalfPoint {
            x: cx as i32,
            y: (if glyph.up is Some {
                cy - radius
            } else {
                cy + radius
            }) as i32,
        },
        radius: radius as i32,
        sweep: (glyph.left is Some) == (glyph.down is Some),
    }
}

/// The straight stubs of a rounded corner: along the light horizontal stroke from the
/// cell's edge to the arc's start, then along the light vertical stroke from the
/// cell's edge to the arc's end, each rounded to a pixel; empty stubs are left out.
pub open spec fn spec_rounded_stubs(glyph: LineGlyph, cell: Size, light_stroke: i32) -> Seq<Bounds> {
    let (w, h, light) = (cell.width as int, cell.height as int, light_stroke as int);
    let horizontal = centered_band(h, Some(Stroke::Light), light);
    let vertical = centered_band(w, Some(Stroke::Light), light);
    let arc = spec_rounded_arc(glyph, cell, light_stroke);
    let column = round_halves(arc.arc_start.x as int);
    let line = round_halves(arc.arc_end.y as int);
    let horizontal_stub = if glyph.left is Some {
        corners(0, horizontal.0, column, horizontal.1)
    } else {
        corners(column, horizontal.0, w, horizontal.1)
    };
    let vertical_stub = if glyph.up is Some {
        corners(vertical.0, 0, vertical.1, line)
    } else {
        corners(vertical.0, line, vertical.1, h)
    };
    push_if(push_if(Seq::empty(), true, horizontal_stub), true, vertical_stub)
}

fn round_to_pixel(position: i32) -> (r: i32)
    requires
        -4 * EXACT_LIMIT <= position <= 4 * EXACT_LIMIT,
    ensures
        r == round_halves(position as int),
{
    if position >= 0 {
        (position + 1) / 2
    } else {
        -((-position + 1) / 2)
    }
}

/// The arc and straight stubs that paint a rounded corner, or `None` and no stubs for
/// a glyph that is not a rounded corner.
#[verifier::rlimit(50)]
pub fn rounded_geometry(glyph: LineGlyph, cell: Size, light_stroke: i32) -> (r: (
    Option<RoundedGeometry>,
    Vec<Bounds>,
))
    requires
        is_rounded_corner(glyph) ==> rounded_fits(cell, light_stroke),
    ensures
        is_rounded_corner(glyph) ==> r.0 == Some(spec_rounded_arc(glyph, cell, light_stroke))
            && r.1@ == spec_rounded_stubs(glyph, cell, light_stroke),
        !is_rounded_corner(glyph) ==> r.0 is None && r.1@.len() == 0,
{
    let mut stubs: Vec<Bounds> = Vec::new();
    if !glyph.rounded {
        return (None, stubs);
    }
    let left = glyph.left.is_some();
    let right = glyph.right.is_some();
    let up = glyph.up.is_some();
    let down = glyph.down.is_some();
    if left == right || up == down {
        return (None, stubs);
    }
    let horizontal_bounds = centered_stroke_bounds(cell.height, Some(Stroke::Light), light_stroke);
    let vertical_bounds = centered_stroke_bounds(cell.width, Some(Stroke::Light), light_stroke);
    let cx = vertical_bounds.0 + vertical_bounds.1;
    let cy = horizontal_bounds.0 + horizontal_bounds.1;
    let mut radius = cx;
    if 2 * cell.width - cx < radius {
        radius = 2 * cell.width - cx;
    }
    if cy < radius {
        radius = cy;
    }
    if 2 * cell.height - cy < radius {
        radius = 2 * cell.height - cy;
    }
    let arc_start = HalfPoint {
        x: if left {
            cx - radius
        } else {
            cx + radius
        },
        y: cy,
    };
    let arc_end = HalfPoint {
        x: cx,
        y: if up {
            cy - radius
        } else {
            cy + radius
        },
    };
    let arc_start_column = round_to_pixel(arc_start.x);
    let arc_end_line = round_to_pixel(arc_end.y);
    let (hl, hr) = if left {
        (0, arc_start_column)
    } else {
        (arc_start_column, cell.width)
    };
    if hl < hr && horizontal_bounds.0 < horizontal_bounds.1 {
        stubs.push(
            Bounds::from_corners(point(hl, horizontal_bounds.0), point(hr, horizontal_bounds.1)),
        );
    }
    let (vt, vb) = if up {
        (0, arc_end_line)
    } else {
        (arc_end_line, cell.height)
    };
    if vertical_bounds.0 < vertical_bounds.1 && vt < vb {
        stubs.push(Bounds::from_corners(point(vertical_bounds.0, vt), point(vertical_bounds.1, vb)));
    }
    (Some(RoundedGeometry { arc_start, arc_end, radius, sweep: left == down }), stubs)
}

} // verus!

verus! {

/// Law: in a cell of positive size with a light stroke of at least one pixel, the
/// stubs of a rounded corner are nonempty, lie within the cell and do not overlap;
/// the arc starts on the middle row of the horizontal stroke and ends on the middle
/// column of the vertical stroke, both one radius from where the strokes cross.
pub proof fn lemma_rounded_stubs_within(glyph: LineGlyph, cell: Size, light_stroke: i32)
    requires
        rounded_fits(cell, light_stroke),
        is_rounded_corner(glyph),
        cell.width >= 1,
        cell.height >= 1,
        light_stroke >= 1,
    ensures
        all_within(spec_rounded_stubs(glyph, cell, light_stroke), cell),
        pairwise_disjoint(spec_rounded_stubs(glyph, cell, light_stroke)),
        ({
            let arc = spec_rounded_arc(glyph, cell, light_stroke);
            let horizontal = centered_band(cell.height as int, Some(Stroke::Light), light_stroke as int);
            let vertical = centered_band(cell.width as int, Some(Stroke::Light), light_stroke as int);
            &&& arc.arc_start.y == horizontal.0 + horizontal.1
            &&& arc.arc_end.x == vertical.0 + vertical.1
            &&& arc.radius >= 0
            &&& (arc.arc_start.x - arc.arc_end.x == arc.radius || arc.arc_end.x - arc.arc_start.x
                == arc.radius)
            &&& (arc.arc_start.y - arc.arc_end.y == arc.radius || arc.arc_end.y - arc.arc_start.y
                == arc.radius)
        }),
{
    let stubs = spec_rounded_stubs(glyph, cell, light_stroke);
    if stubs.len() == 2 {
        assert(stubs[0].disjoint(stubs[1]));
    }
}

/// Law: in a cell of positive size with a light stroke of at least one pixel and
/// no thicker than the cell, a rounded corner reaches the cell's edge on the side of each
/// of its arms: either its arc ends on that edge or a stub touches it.
#[verifier::rlimit(50)]
pub proof fn lemma_rounded_reaches_edges(glyph: LineGlyph, cell: Size, light_stroke: i32)
    requires
        rounded_fits(cell, light_stroke),
        is_rounded_corner(glyph),
        1 <= light_stroke <= cell.width,
        light_stroke <= cell.height,
    ensures
        ({
            let arc = spec_rounded_arc(glyph, cell, light_stroke);
            let stubs = spec_rounded_stubs(glyph, cell, light_stroke);
            &&& glyph.left is Some ==> arc.arc_start.x == 0 || exists|i: int|
                0 <= i < stubs.len() && (#[trigger] stubs[i]).left() == 0
            &&& glyph.right is Some ==> arc.arc_start.x == 2 * cell.width || exists|i: int|
                0 <= i < stubs.len() && (#[trigger] stubs[i]).right() == cell.width
            &&& glyph.up is Some ==> arc.arc_end.y == 0 || exists|i: int|
                0 <= i < stubs.len() && (#[trigger] stubs[i]).top() == 0
            &&& glyph.down is Some ==> arc.arc_end.y == 2 * cell.height || exists|i: int|
                0 <= i < stubs.len() && (#[trigger] stubs[i]).bottom() == cell.height
        }),
{
    let (w, h, t) = (cell.width as int, cell.height as int, light_stroke as int);
    let horizontal = centered_band(h, Some(Stroke::Light), t);
    let vertical = centered_band(w, Some(Stroke::Light), t);
    let cx = vertical.0 + vertical.1;
    let cy = horizontal.0 + horizontal.1;
    assert(vertical.0 == (w - t) / 2 && horizontal.0 == (h - t) / 2);
    assert(cx == w <==> (w - t) % 2 == 0);
    assert(cx == w || cx == w - 1);
    assert(cy == h <==> (h - t) % 2 == 0);
    assert(cy == h || cy == h - 1);
    let arc = spec_rounded_arc(glyph, cell, light_stroke);
    let radius = arc.radius as int;
    assert(radius == min(cx, cy));
    let column = round_halves(arc.arc_start.x as int);
    let line = round_halves(arc.arc_end.y as int);
    let stubs = spec_rounded_stubs(glyph, cell, light_stroke);
    let horizontal_stub = if glyph.left is Some {
        corners(0, horizontal.0, column, horizontal.1)
    } else {
        corners(column, horizontal.0, w, horizontal.1)
    };
    let vertical_stub = if glyph.up is Some {
        corners(vertical.0, 0, vertical.1, line)
    } else {
        corners(vertical.0, line, vertical.1, h)
    };
    let last = stubs.len() - 1;
    if !horizontal_stub.is_empty() {
        assert(stubs[0] == horizontal_stub);
    }
    if !vertical_stub.is_empty() {
        assert(stubs[last] == vertical_stub);
    }
    if glyph.left is Some && arc.arc_start.x != 0 {
        assert(column >= 1);
        assert(stubs[0].left() == 0);
    }
    if glyph.right is Some && arc.arc_start.x != 2 * w {
        assert(arc.arc_start.x <= 2 * w - 2);
        assert(column <= w - 1);
        assert(stubs[0].right() == w);
    }
    if glyph.up is Some && arc.arc_end.y != 0 {
        assert(line >= 1);
        assert(stubs[last].top() == 0);
    }
    if glyph.down is Some && arc.arc_end.y != 2 * h {
        assert(arc.arc_end.y <= 2 * h - 2);
        assert(line <= h - 1);
        assert(stubs[last].bottom() == h);
    }
}

} // verus!

verus! {

/// Law: the stubs of a rounded corner join the arc and go no further: they paint exactly
/// the light horizontal stroke from the cell's edge on the side of the horizontal arm
/// to the pixel column nearest the arc's start, and the light vertical stroke from the
/// cell's edge on the side of the vertical arm to the pixel row nearest the arc's end.
pub proof fn lemma_rounded_stubs_meet_arc(glyph: LineGlyph, cell: Size, light_stroke: i32)
    requires
        rounded_fits(cell, light_stroke),
        is_rounded_corner(glyph),
        cell.width >= 1,
        cell.height >= 1,
        light_stroke >= 1,
    ensures
        ({
            let (w, h, light) = (cell.width as int, cell.height as int, light_stroke as int);
            let arc = spec_rounded_arc(glyph, cell, light_stroke);
            let stubs = spec_rounded_stubs(glyph, cell, light_stroke);
            let horizontal = centered_band(h, Some(Stroke::Light), light);
            let vertical = centered_band(w, Some(Stroke::Light), light);
            let column = round_halves(arc.arc_start.x as int);
            let line = round_halves(arc.arc_end.y as int);
            forall|x: int, y: int| #[trigger]
                covers(stubs, x, y) <==> {
                    ||| horizontal.0 <= y < horizontal.1 && (if glyph.left is Some {
                        0 <= x < column
                    } else {
                        column <= x < w
                    })
                    ||| vertical.0 <= x < vertical.1 && (if glyph.up is Some {
                        0 <= y < line
                    } else {
                        line <= y < h
                    })
                }
        }),
{
    let (w, h, light) = (cell.width as int, cell.height as int, light_stroke as int);
    let horizontal = centered_band(h, Some(Stroke::Light), light);
    let vertical = centered_band(w, Some(Stroke::Light), light);
    let arc = spec_rounded_arc(glyph, cell, light_stroke);
    let column = round_halves(arc.arc_start.x as int);
    let line = round_halves(arc.arc_end.y as int);
    assert(0 <= column <= w && 0 <= line <= h);
    let horizontal_stub = if glyph.left is Some {
        corners(0, horizontal.0, column, horizontal.1)
    } else {
        corners(column, horizontal.0, w, horizontal.1)
    };
    let vertical_stub = if glyph.up is Some {
        corners(vertical.0, 0, vertical.1, line)
    } else {
        corners(vertical.0, line, vertical.1, h)
    };
    let s1 = push_if(Seq::<Bounds>::empty(), true, horizontal_stub);
    crate::straight::lemma_covers_push_if(Seq::<Bounds>::empty(), true, horizontal_stub);
    crate::straight::lemma_covers_push_if(s1, true, vertical_stub);
    assert forall|x: int, y: int| !#[trigger] covers(Seq::<Bounds>::empty(), x, y) by {
    }
}

} // verus!

verus! {

/// Law: the arc of a rounded corner is the largest quarter circle centred where the
/// light strokes cross that stays within the cell; it leaves the horizontal stroke on
/// the side of the horizontal arm and joins the vertical stroke on the side of the
/// vertical arm (all in half pixels).
pub proof fn lemma_rounded_arc_inscribed(glyph: LineGlyph, cell: Size, light_stroke: i32)
    requires
        rounded_fits(cell, light_stroke),
        is_rounded_corner(glyph),
        cell.width >= 1,
        cell.height >= 1,
        light_stroke >= 1,
    ensures
        ({
            let (w, h, light) = (cell.width as int, cell.height as int, light_stroke as int);
            let arc = spec_rounded_arc(glyph, cell, light_stroke);
            let horizontal = centered_band(h, Some(Stroke::Light), light);
            let vertical = centered_band(w, Some(Stroke::Light), light);
            let cx = vertical.0 + vertical.1;
            let cy = horizontal.0 + horizontal.1;
            let r = arc.radius as int;
            &&& arc.arc_start.y == cy && arc.arc_end.x == cx
            &&& 0 <= r <= cx && r <= 2 * w - cx && r <= cy && r <= 2 * h - cy
            &&& (r == cx || r == 2 * w - cx || r == cy || r == 2 * h - cy)
            &&& arc.arc_start.x == (if glyph.left is Some { cx - r } else { cx + r })
            &&& arc.arc_end.y == (if glyph.up is Some { cy - r } else { cy + r })
            &&& arc.sweep == ((glyph.left is Some) == (glyph.down is Some))
        }),
{
}

} // verus!
