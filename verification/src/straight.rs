use vstd::prelude::*;
use crate::geometry::{
    Bounds, Point, Size, point, min, max, pairwise_disjoint, all_within, connected_around_hub, is_hub,
    covers,
};
use crate::glyph::{LineGlyph, Stroke};

verus! {

/// The thickness asked for by a stroke: the light stroke, twice it for a heavy
/// stroke, nothing for an absent arm.
pub open spec fn stroke_thickness(stroke: Option<Stroke>, light_stroke: int) -> int {
    match stroke {
        Some(Stroke::Light) => light_stroke,
        Some(Stroke::Heavy) => 2 * light_stroke,
        None => 0,
    }
}

/// The band's thickness: the stroke's thickness, at most the dimension.
pub open spec fn band_thickness(dimension: int, stroke: Option<Stroke>, light_stroke: int) -> int {
    min(stroke_thickness(stroke, light_stroke), dimension)
}

/// `centered_stroke_bounds` computes without overflow on these inputs.
pub open spec fn centered_fits(dimension: i32, stroke: Option<Stroke>, light_stroke: i32) -> bool {
    &&& i32::MIN <= stroke_thickness(stroke, light_stroke as int) <= i32::MAX
    &&& dimension - band_thickness(dimension as int, stroke, light_stroke as int) <= i32::MAX
}

/// The band `[start, end)` of a stroke centred across a dimension: as thick as
/// the stroke (at most the dimension), with the odd pixel left over placed after it.
pub open spec fn centered_band(dimension: int, stroke: Option<Stroke>, light_stroke: int) -> (
    int,
    int,
) {
    let thickness = band_thickness(dimension, stroke, light_stroke);
    let start = (dimension - thickness) / 2;
    (start, start + thickness)
}

/// Where a stroke of the given weight lies across a dimension of the cell.
pub fn centered_stroke_bounds(dimension: i32, stroke: Option<Stroke>, light_stroke: i32) -> (r: (
    i32,
    i32,
))
    requires
        centered_fits(dimension, stroke, light_stroke),
    ensures
        r.0 == centered_band(dimension as int, stroke, light_stroke as int).0,
        r.1 == centered_band(dimension as int, stroke, light_stroke as int).1,
        r.1 - r.0 == band_thickness(dimension as int, stroke, light_stroke as int),
{
    let thickness = match stroke {
        Some(Stroke::Light) => light_stroke,
        Some(Stroke::Heavy) => light_stroke * 2,
        None => 0,
    };
    let thickness = if thickness < dimension {
        thickness
    } else {
        dimension
    };
    let start = (dimension - thickness) / 2;
    (start, start + thickness)
}

/// Half of a dimension, rounded toward zero.
pub open spec fn half(dimension: int) -> int {
    if dimension >= 0 {
        dimension / 2
    } else {
        -((-dimension) / 2)
    }
}

/// `sequence` with `rect` appended when `present` holds and the rectangle is not empty.
pub open spec fn push_if(sequence: Seq<Bounds>, present: bool, rect: Bounds) -> Seq<Bounds> {
    if present && !rect.is_empty() {
        sequence.push(rect)
    } else {
        sequence
    }
}

/// The rectangle with the given corners.
pub open spec fn corners(left: int, top: int, right: int, bottom: int) -> Bounds {
    Bounds {
        top_left: Point { x: left as i32, y: top as i32 },
        bottom_right: Point { x: right as i32, y: bottom as i32 },
    }
}

/// The inputs on which the straight rectangles are computed without overflow.
pub open spec fn straight_fits(glyph: LineGlyph, cell: Size, light_stroke: i32) -> bool {
    &&& centered_fits(cell.height, glyph.left, light_stroke)
    &&& centered_fits(cell.height, glyph.right, light_stroke)
    &&& centered_fits(cell.width, glyph.up, light_stroke)
    &&& centered_fits(cell.width, glyph.down, light_stroke)
}

/// The five candidate rectangles of a straight glyph: the left, right, up and down
/// arms, then the junction square where horizontal and vertical arms meet. Each arm
/// spans from its edge of the cell to the junction (to the middle of the cell where
/// the other axis has no arm).
pub open spec fn straight_candidates(glyph: LineGlyph, cell: Size, light_stroke: i32) -> (
    Bounds,
    Bounds,
    Bounds,
    Bounds,
    Bounds,
) {
    let (w, h, light) = (cell.width as int, cell.height as int, light_stroke as int);
    let left_band = centered_band(h, glyph.left, light);
    let right_band = centered_band(h, glyph.right, light);
    let up_band = centered_band(w, glyph.up, light);
    let down_band = centered_band(w, glyph.down, light);
    let has_horizontal = glyph.left is Some || glyph.right is Some;
    let has_vertical = glyph.up is Some || glyph.down is Some;
    let junction_left = min(up_band.0, down_band.0);
    let junction_right = max(up_band.1, down_band.1);
    let junction_top = min(left_band.0, right_band.0);
    let junction_bottom = max(left_band.1, right_band.1);
    (
        corners(0, left_band.0, if has_vertical { junction_left } else { half(w) }, left_band.1),
        corners(if has_vertical { junction_right } else { half(w) }, right_band.0, w, right_band.1),
        corners(up_band.0, 0, up_band.1, if has_horizontal { junction_top } else { half(h) }),
        corners(down_band.0, if has_horizontal { junction_bottom } else { half(h) }, down_band.1, h),
        corners(junction_left, junction_top, junction_right, junction_bottom),
    )
}

/// The rectangles of a straight glyph, in order: those of the candidates of
/// `straight_candidates` whose arm is present (the junction: where both axes have an
/// arm) and that are not empty.
pub open spec fn straight_rects(glyph: LineGlyph, cell: Size, light_stroke: i32) -> Seq<Bounds> {
    let (l, r, u, d, j) = straight_candidates(glyph, cell, light_stroke);
    push_if(
        push_if(
            push_if(
                push_if(push_if(Seq::empty(), glyph.left is Some, l), glyph.right is Some, r),
                glyph.up is Some,
                u,
            ),
            glyph.down is Some,
            d,
        ),
        (glyph.left is Some || glyph.right is Some) && (glyph.up is Some || glyph.down is Some),
        j,
    )
}

fn push_rect(rects: &mut Vec<Bounds>, left: i32, top: i32, right: i32, bottom: i32)
    ensures
        final(rects)@ == push_if(
            old(rects)@,
            true,
            corners(left as int, top as int, right as int, bottom as int),
        ),
{
    if left < right && top < bottom {
        rects.push(Bounds::from_corners(point(left, top), point(right, bottom)));
    }
}

/// The rectangles that paint a glyph made of straight arms.
pub fn for_each_straight_rect(glyph: LineGlyph, cell: Size, light_stroke: i32) -> (r: Vec<Bounds>)
    requires
        straight_fits(glyph, cell, light_stroke),
    ensures
        r@ == straight_rects(glyph, cell, light_stroke),
{
    let left_bounds = centered_stroke_bounds(cell.height, glyph.left, light_stroke);
    let right_bounds = centered_stroke_bounds(cell.height, glyph.right, light_stroke);
    let up_bounds = centered_stroke_bounds(cell.width, glyph.up, light_stroke);
    let down_bounds = centered_stroke_bounds(cell.width, glyph.down, light_stroke);
    let has_horizontal = glyph.left.is_some() || glyph.right.is_some();
    let has_vertical = glyph.up.is_some() || glyph.down.is_some();

    let junction_left = if up_bounds.0 < down_bounds.0 {
        up_bounds.0
    } else {
        down_bounds.0
    };
    let junction_right = if up_bounds.1 < down_bounds.1 {
        down_bounds.1
    } else {
        up_bounds.1
    };
    let junction_top = if left_bounds.0 < right_bounds.0 {
        left_bounds.0
    } else {
        right_bounds.0
    };
    let junction_bottom = if left_bounds.1 < right_bounds.1 {
        right_bounds.1
    } else {
        left_bounds.1
    };
    let mut rects: Vec<Bounds> = Vec::new();
    if glyph.left.is_some() {
        push_rect(
            &mut rects,
            0,
            left_bounds.0,
            if has_vertical {
                junction_left
            } else {
                cell.width / 2
            },
            left_bounds.1,
        );
    }
    if glyph.right.is_some() {
        push_rect(
            &mut rects,
            if has_vertical {
                junction_right
            } else {
                cell.width / 2
            },
            right_bounds.0,
            cell.width,
            right_bounds.1,
        );
    }
    if glyph.up.is_some() {
        push_rect(
            &mut rects,
            up_bounds.0,
            0,
            up_bounds.1,
            if has_horizontal {
                junction_top
            } else {
                cell.height / 2
            },
        );
    }
    if glyph.down.is_some() {
        push_rect(
            &mut rects,
            down_bounds.0,
            if has_horizontal {
                junction_bottom
            } else {
                cell.height / 2
            },
            down_bounds.1,
            cell.height,
        );
    }
    if has_horizontal && has_vertical {
        push_rect(&mut rects, junction_left, junction_top, junction_right, junction_bottom);
    }
    rects
}

} // verus!

verus! {

proof fn lemma_band(dimension: int, stroke: Option<Stroke>, light_stroke: int)
    requires
        dimension >= 0,
        light_stroke >= 1,
    ensures
        0 <= centered_band(dimension, stroke, light_stroke).0,
        centered_band(dimension, stroke, light_stroke).0 <= centered_band(
            dimension,
            stroke,
            light_stroke,
        ).1 <= dimension,
        stroke is Some && dimension >= 1 ==> centered_band(dimension, stroke, light_stroke).0
            < centered_band(dimension, stroke, light_stroke).1,
        stroke is None ==> centered_band(dimension, stroke, light_stroke).0 == dimension / 2
            && centered_band(dimension, stroke, light_stroke).1 == dimension / 2,
{
}

/// Two present strokes across the same dimension overlap: both are centred.
proof fn lemma_bands_overlap(dimension: int, a: Option<Stroke>, b: Option<Stroke>, light_stroke: int)
    requires
        dimension >= 1,
        light_stroke >= 1,
        a is Some,
        b is Some,
    ensures
        max(centered_band(dimension, a, light_stroke).0, centered_band(dimension, b, light_stroke).0)
            < min(
            centered_band(dimension, a, light_stroke).1,
            centered_band(dimension, b, light_stroke).1,
        ),
{
}

} // verus!

verus! {

/// Appends `rect` when present and nonempty, keeping the sequence pairwise disjoint
/// and every rectangle nonempty and within the cell.
proof fn lemma_push_if_keeps(rects: Seq<Bounds>, present: bool, rect: Bounds, cell: Size)
    requires
        pairwise_disjoint(rects),
        all_within(rects, cell),
        present && !rect.is_empty() ==> rect.within(cell),
        present && !rect.is_empty() ==> forall|i: int|
            0 <= i < rects.len() ==> (#[trigger] rects[i]).disjoint(rect),
    ensures
        pairwise_disjoint(push_if(rects, present, rect)),
        all_within(push_if(rects, present, rect), cell),
{
    if present && !rect.is_empty() {
        crate::geometry::lemma_push_disjoint(rects, rect);
        let pushed = rects.push(rect);
        assert forall|i: int| 0 <= i < pushed.len() implies !(#[trigger] pushed[i]).is_empty()
            && pushed[i].within(cell) by {
            if i < rects.len() {
                assert(pushed[i] == rects[i]);
            }
        }
    }
}

/// The candidate rectangles lie within the cell, never overlap, and each arm's
/// rectangle starts at its edge of the cell.
proof fn lemma_candidates_within(glyph: LineGlyph, cell: Size, light_stroke: i32)
    requires
        straight_fits(glyph, cell, light_stroke),
        cell.width >= 0,
        cell.height >= 0,
        light_stroke >= 1,
    ensures
        ({
            let (l, r, u, d, j) = straight_candidates(glyph, cell, light_stroke);
            &&& l.within(cell) && r.within(cell) && u.within(cell) && d.within(cell) && j.within(cell)
            &&& l.disjoint(r) && l.disjoint(u) && l.disjoint(d) && l.disjoint(j)
            &&& r.disjoint(u) && r.disjoint(d) && r.disjoint(j)
            &&& u.disjoint(d) && u.disjoint(j) && d.disjoint(j)
            &&& l.left() == 0 && r.right() == cell.width && u.top() == 0 && d.bottom() == cell.height
        }),
{
    let (w, h, light) = (cell.width as int, cell.height as int, light_stroke as int);
    lemma_band(h, glyph.left, light);
    lemma_band(h, glyph.right, light);
    lemma_band(w, glyph.up, light);
    lemma_band(w, glyph.down, light);
}

/// In a cell at least two pixels wide and tall, the candidates of present arms reach
/// the edges (through the junction where an arm's own rectangle is empty) and touch
/// each other along edges.
#[verifier::rlimit(50)]
proof fn lemma_candidates(glyph: LineGlyph, cell: Size, light_stroke: i32)
    requires
        straight_fits(glyph, cell, light_stroke),
        cell.width >= 2,
        cell.height >= 2,
        light_stroke >= 1,
    ensures
        ({
            let (l, r, u, d, j) = straight_candidates(glyph, cell, light_stroke);
            let hh = glyph.left is Some || glyph.right is Some;
            let hv = glyph.up is Some || glyph.down is Some;
            &&& l.left() == 0 && r.right() == cell.width && u.top() == 0 && d.bottom() == cell.height
            &&& hh && hv ==> !j.is_empty()
            &&& glyph.left is Some && l.is_empty() ==> hv && j.left() == 0
            &&& glyph.right is Some && r.is_empty() ==> hv && j.right() == cell.width
            &&& glyph.up is Some && u.is_empty() ==> hh && j.top() == 0
            &&& glyph.down is Some && d.is_empty() ==> hh && j.bottom() == cell.height
            &&& !hv ==> (glyph.left is Some ==> !l.is_empty()) && (glyph.right is Some ==> !r.is_empty())
            &&& !hh ==> (glyph.up is Some ==> !u.is_empty()) && (glyph.down is Some ==> !d.is_empty())
            &&& hh && hv && glyph.left is Some && !l.is_empty() ==> l.adjacent(j)
            &&& hh && hv && glyph.right is Some && !r.is_empty() ==> r.adjacent(j)
            &&& hh && hv && glyph.up is Some && !u.is_empty() ==> u.adjacent(j)
            &&& hh && hv && glyph.down is Some && !d.is_empty() ==> d.adjacent(j)
            &&& !hv && glyph.left is Some && glyph.right is Some ==> l.adjacent(r)
            &&& !hh && glyph.up is Some && glyph.down is Some ==> u.adjacent(d)
        }),
{
    let (w, h, light) = (cell.width as int, cell.height as int, light_stroke as int);
    lemma_band(h, glyph.left, light);
    lemma_band(h, glyph.right, light);
    lemma_band(w, glyph.up, light);
    lemma_band(w, glyph.down, light);
    if glyph.left is Some && glyph.right is Some {
        lemma_bands_overlap(h, glyph.left, glyph.right, light);
    }
    if glyph.up is Some && glyph.down is Some {
        lemma_bands_overlap(w, glyph.up, glyph.down, light);
    }
}

/// Law: for any glyph, cell of nonnegative size and light stroke of at least one
/// pixel, the straight rectangles are nonempty, lie within the cell and never overlap.
#[verifier::rlimit(50)]
pub proof fn lemma_straight_rects_disjoint_within(glyph: LineGlyph, cell: Size, light_stroke: i32)
    requires
        straight_fits(glyph, cell, light_stroke),
        cell.width >= 0,
        cell.height >= 0,
        light_stroke >= 1,
    ensures
        all_within(straight_rects(glyph, cell, light_stroke), cell),
        pairwise_disjoint(straight_rects(glyph, cell, light_stroke)),
{
    lemma_candidates_within(glyph, cell, light_stroke);
    let (l, r, u, d, j) = straight_candidates(glyph, cell, light_stroke);
    let s0 = Seq::<Bounds>::empty();
    let s1 = push_if(s0, glyph.left is Some, l);
    let s2 = push_if(s1, glyph.right is Some, r);
    let s3 = push_if(s2, glyph.up is Some, u);
    let s4 = push_if(s3, glyph.down is Some, d);
    lemma_push_if_keeps(s0, glyph.left is Some, l, cell);
    lemma_push_if_keeps(s1, glyph.right is Some, r, cell);
    lemma_push_if_keeps(s2, glyph.up is Some, u, cell);
    lemma_push_if_keeps(s3, glyph.down is Some, d, cell);
    let hh = glyph.left is Some || glyph.right is Some;
    let hv = glyph.up is Some || glyph.down is Some;
    lemma_push_if_keeps(s4, hh && hv, j, cell);
}

/// Law: for any glyph with at least one arm, in a cell at least two pixels wide and
/// tall, with a light stroke of at least one pixel, the straight rectangles paint at
/// least one pixel, reach the cell's edge on the side of every arm, and form one
/// connected shape: every rectangle touches one hub rectangle along an edge.
#[verifier::rlimit(50)]
pub proof fn lemma_straight_rects_reach_edges_connected(
    glyph: LineGlyph,
    cell: Size,
    light_stroke: i32,
)
    requires
        straight_fits(glyph, cell, light_stroke),
        cell.width >= 2,
        cell.height >= 2,
        light_stroke >= 1,
        glyph.left is Some || glyph.right is Some || glyph.up is Some || glyph.down is Some,
    ensures
        ({
            let rects = straight_rects(glyph, cell, light_stroke);
            &&& rects.len() >= 1
            &&& glyph.left is Some ==> exists|i: int|
                0 <= i < rects.len() && (#[trigger] rects[i]).left() == 0
            &&& glyph.right is Some ==> exists|i: int|
                0 <= i < rects.len() && (#[trigger] rects[i]).right() == cell.width
            &&& glyph.up is Some ==> exists|i: int|
                0 <= i < rects.len() && (#[trigger] rects[i]).top() == 0
            &&& glyph.down is Some ==> exists|i: int|
                0 <= i < rects.len() && (#[trigger] rects[i]).bottom() == cell.height
            &&& connected_around_hub(rects)
        }),
{
    lemma_candidates(glyph, cell, light_stroke);
    let (l, r, u, d, j) = straight_candidates(glyph, cell, light_stroke);
    let hh = glyph.left is Some || glyph.right is Some;
    let hv = glyph.up is Some || glyph.down is Some;
    let s0 = Seq::<Bounds>::empty();
    let s1 = push_if(s0, glyph.left is Some, l);
    let s2 = push_if(s1, glyph.right is Some, r);
    let s3 = push_if(s2, glyph.up is Some, u);
    let s4 = push_if(s3, glyph.down is Some, d);
    let s5 = push_if(s4, hh && hv, j);
    assert(s5 == straight_rects(glyph, cell, light_stroke));
    let last = s5.len() - 1;
    if hh && hv {
        assert(s5[last] == j);
    }
    if glyph.left is Some {
        if !l.is_empty() {
            assert(s5[0] == l);
        } else {
            assert(s5[last].left() == 0);
        }
    }
    if glyph.right is Some {
        let k = s1.len() as int;
        if !r.is_empty() {
            assert(s5[k] == r);
        } else {
            assert(s5[last].right() == cell.width);
        }
    }
    if glyph.up is Some {
        let k = s2.len() as int;
        if !u.is_empty() {
            assert(s5[k] == u);
        } else {
            assert(s5[last].top() == 0);
        }
    }
    if glyph.down is Some {
        let k = s3.len() as int;
        if !d.is_empty() {
            assert(s5[k] == d);
        } else {
            assert(s5[last].bottom() == cell.height);
        }
    }
    if hh && hv {
        assert forall|i: int| 0 <= i < s5.len() && i != last implies (#[trigger] s5[i]).adjacent(
            s5[last],
        ) by {
            assert(s5[i] == s4[i]);
        }
        assert(is_hub(s5, last));
    } else {
        assert forall|i: int| 0 <= i < s5.len() && i != 0 implies (#[trigger] s5[i]).adjacent(
            s5[0],
        ) by {
            if hh {
                assert(s5[0] == l && s5[1] == r);
            } else {
                assert(s5[0] == u && s5[1] == d);
            }
        }
        assert(is_hub(s5, 0));
    }
}

} // verus!

verus! {

/// Law: a light stroke is equally thick across either axis, as thick as the light
/// stroke where the cell allows: every rectangle of a light horizontal line spans
/// that many rows, and every rectangle of a light vertical line that many columns.
pub proof fn lemma_light_lines_same_thickness(cell: Size, light_stroke: i32)
    requires
        1 <= light_stroke,
        light_stroke <= cell.width,
        light_stroke <= cell.height,
    ensures
        ({
            let light = Some(Stroke::Light);
            let horizontal = LineGlyph { left: light, right: light, up: None, down: None, rounded: false };
            let vertical = LineGlyph { left: None, right: None, up: light, down: light, rounded: false };
            let horizontal_rects = straight_rects(horizontal, cell, light_stroke);
            let vertical_rects = straight_rects(vertical, cell, light_stroke);
            &&& forall|i: int|
                0 <= i < horizontal_rects.len() ==> (#[trigger] horizontal_rects[i]).bottom()
                    - horizontal_rects[i].top() == light_stroke
            &&& forall|i: int|
                0 <= i < vertical_rects.len() ==> (#[trigger] vertical_rects[i]).right()
                    - vertical_rects[i].left() == light_stroke
        }),
{
}

} // verus!

verus! {

/// A pixel is covered after a conditional append exactly when it was before or the
/// appended nonempty rectangle covers it.
pub proof fn lemma_covers_push_if(rects: Seq<Bounds>, present: bool, rect: Bounds)
    ensures
        forall|x: int, y: int| #[trigger]
            covers(push_if(rects, present, rect), x, y) <==> covers(rects, x, y) || (present
                && !rect.is_empty() && rect.contains(x, y)),
{
    let pushed = push_if(rects, present, rect);
    assert forall|x: int, y: int| #[trigger]
        covers(pushed, x, y) <==> covers(rects, x, y) || (present && !rect.is_empty() && rect.contains(
            x,
            y,
        )) by {
        if present && !rect.is_empty() {
            if covers(pushed, x, y) {
                let i = choose|i: int| 0 <= i < pushed.len() && (#[trigger] pushed[i]).contains(x, y);
                if i < rects.len() {
                    assert(rects[i] == pushed[i]);
                }
            }
            if covers(rects, x, y) {
                let i = choose|i: int| 0 <= i < rects.len() && (#[trigger] rects[i]).contains(x, y);
                assert(pushed[i] == rects[i]);
            }
            if rect.contains(x, y) {
                assert(pushed[rects.len() as int] == rect);
            }
        }
    }
}

/// A straight glyph paints a pixel exactly where one of its present, nonempty
/// candidate rectangles covers it.
proof fn lemma_straight_covers(glyph: LineGlyph, cell: Size, light_stroke: i32)
    ensures
        ({
            let (l, r, u, d, j) = straight_candidates(glyph, cell, light_stroke);
            let both = (glyph.left is Some || glyph.right is Some) && (glyph.up is Some || glyph.down is Some);
            forall|x: int, y: int| #[trigger]
                covers(straight_rects(glyph, cell, light_stroke), x, y) <==> {
                    ||| glyph.left is Some && !l.is_empty() && l.contains(x, y)
                    ||| glyph.right is Some && !r.is_empty() && r.contains(x, y)
                    ||| glyph.up is Some && !u.is_empty() && u.contains(x, y)
                    ||| glyph.down is Some && !d.is_empty() && d.contains(x, y)
                    ||| both && !j.is_empty() && j.contains(x, y)
                }
        }),
{
    let (l, r, u, d, j) = straight_candidates(glyph, cell, light_stroke);
    let both = (glyph.left is Some || glyph.right is Some) && (glyph.up is Some || glyph.down is Some);
    let s0 = Seq::<Bounds>::empty();
    let s1 = push_if(s0, glyph.left is Some, l);
    let s2 = push_if(s1, glyph.right is Some, r);
    let s3 = push_if(s2, glyph.up is Some, u);
    let s4 = push_if(s3, glyph.down is Some, d);
    lemma_covers_push_if(s0, glyph.left is Some, l);
    lemma_covers_push_if(s1, glyph.right is Some, r);
    lemma_covers_push_if(s2, glyph.up is Some, u);
    lemma_covers_push_if(s3, glyph.down is Some, d);
    lemma_covers_push_if(s4, both, j);
    assert forall|x: int, y: int| !#[trigger] covers(s0, x, y) by {
    }
}

/// Law: neighbouring cells join without seams. Where every stroke leaves at least a
/// pixel between it and the cell's sides (twice the light stroke is at least two
/// pixels less than the cell's width and height), the pixels a straight glyph paints
/// on each edge of the cell are exactly the centred stroke of the arm on that side,
/// and none where the glyph has no arm there.
pub proof fn lemma_straight_edge_profile(glyph: LineGlyph, cell: Size, light_stroke: i32)
    requires
        straight_fits(glyph, cell, light_stroke),
        1 <= light_stroke,
        2 * light_stroke + 2 <= cell.width,
        2 * light_stroke + 2 <= cell.height,
    ensures
        ({
            let rects = straight_rects(glyph, cell, light_stroke);
            let (w, h, light) = (cell.width as int, cell.height as int, light_stroke as int);
            &&& forall|y: int|
                0 <= y < h ==> (#[trigger] covers(rects, 0, y) <==> glyph.left is Some && centered_band(
                    h,
                    glyph.left,
                    light,
                ).0 <= y < centered_band(h, glyph.left, light).1)
            &&& forall|y: int|
                0 <= y < h ==> (#[trigger] covers(rects, w - 1, y) <==> glyph.right is Some
                    && centered_band(h, glyph.right, light).0 <= y < centered_band(
                    h,
                    glyph.right,
                    light,
                ).1)
            &&& forall|x: int|
                0 <= x < w ==> (#[trigger] covers(rects, x, 0) <==> glyph.up is Some && centered_band(
                    w,
                    glyph.up,
                    light,
                ).0 <= x < centered_band(w, glyph.up, light).1)
            &&& forall|x: int|
                0 <= x < w ==> (#[trigger] covers(rects, x, h - 1) <==> glyph.down is Some
                    && centered_band(w, glyph.down, light).0 <= x < centered_band(
                    w,
                    glyph.down,
                    light,
                ).1)
        }),
{
    let (w, h, light) = (cell.width as int, cell.height as int, light_stroke as int);
    lemma_straight_covers(glyph, cell, light_stroke);
    lemma_band(h, glyph.left, light);
    lemma_band(h, glyph.right, light);
    lemma_band(w, glyph.up, light);
    lemma_band(w, glyph.down, light);
    lemma_band_margin(h, glyph.left, light);
    lemma_band_margin(h, glyph.right, light);
    lemma_band_margin(w, glyph.up, light);
    lemma_band_margin(w, glyph.down, light);
}

/// A stroke at most twice the light stroke, in a dimension two pixels wider than
/// that, leaves a pixel free on both sides.
proof fn lemma_band_margin(dimension: int, stroke: Option<Stroke>, light_stroke: int)
    requires
        1 <= light_stroke,
        2 * light_stroke + 2 <= dimension,
    ensures
        1 <= centered_band(dimension, stroke, light_stroke).0,
        centered_band(dimension, stroke, light_stroke).1 <= dimension - 1,
{
}

} // verus!

verus! {

/// Law: a glyph with arms along one axis only paints each arm over exactly its half of
/// the cell: without vertical arms, the left arm covers columns `[0, width / 2)` and
/// the right arm `[width / 2, width)`, each on its own centred stroke; without
/// horizontal arms, the up arm covers rows `[0, height / 2)` and the down arm
/// `[height / 2, height)`.
pub proof fn lemma_straight_lone_axis_halves(glyph: LineGlyph, cell: Size, light_stroke: i32)
    requires
        straight_fits(glyph, cell, light_stroke),
        cell.width >= 0,
        cell.height >= 0,
        light_stroke >= 1,
    ensures
        ({
            let rects = straight_rects(glyph, cell, light_stroke);
            let (w, h, light) = (cell.width as int, cell.height as int, light_stroke as int);
            let left = centered_band(h, glyph.left, light);
            let right = centered_band(h, glyph.right, light);
            let up = centered_band(w, glyph.up, light);
            let down = centered_band(w, glyph.down, light);
            &&& glyph.up is None && glyph.down is None ==> forall|x: int, y: int| #[trigger]
                covers(rects, x, y) <==> {
                    ||| glyph.left is Some && 0 <= x < w / 2 && left.0 <= y < left.1
                    ||| glyph.right is Some && w / 2 <= x < w && right.0 <= y < right.1
                }
            &&& glyph.left is None && glyph.right is None ==> forall|x: int, y: int| #[trigger]
                covers(rects, x, y) <==> {
                    ||| glyph.up is Some && 0 <= y < h / 2 && up.0 <= x < up.1
                    ||| glyph.down is Some && h / 2 <= y < h && down.0 <= x < down.1
                }
        }),
{
    let (w, h, light) = (cell.width as int, cell.height as int, light_stroke as int);
    lemma_straight_covers(glyph, cell, light_stroke);
    lemma_band(h, glyph.left, light);
    lemma_band(h, glyph.right, light);
    lemma_band(w, glyph.up, light);
    lemma_band(w, glyph.down, light);
}

} // verus!

verus! {

/// Law: a straight glyph paints only on its strokes: every painted pixel lies on the
/// centred stroke of a horizontal arm it has (left or right) or of a vertical arm it has
/// (up or down).
pub proof fn lemma_straight_rects_on_strokes(glyph: LineGlyph, cell: Size, light_stroke: i32)
    requires
        straight_fits(glyph, cell, light_stroke),
        cell.width >= 0,
        cell.height >= 0,
        light_stroke >= 1,
    ensures
        ({
            let rects = straight_rects(glyph, cell, light_stroke);
            let (w, h, light) = (cell.width as int, cell.height as int, light_stroke as int);
            let left = centered_band(h, glyph.left, light);
            let right = centered_band(h, glyph.right, light);
            let up = centered_band(w, glyph.up, light);
            let down = centered_band(w, glyph.down, light);
            forall|x: int, y: int| #[trigger]
                covers(rects, x, y) ==> {
                    ||| glyph.left is Some && left.0 <= y < left.1
                    ||| glyph.right is Some && right.0 <= y < right.1
                    ||| glyph.up is Some && up.0 <= x < up.1
                    ||| glyph.down is Some && down.0 <= x < down.1
                }
        }),
{
    let (w, h, light) = (cell.width as int, cell.height as int, light_stroke as int);
    lemma_straight_covers(glyph, cell, light_stroke);
    lemma_band(h, glyph.left, light);
    lemma_band(h, glyph.right, light);
    lemma_band(w, glyph.up, light);
    lemma_band(w, glyph.down, light);
    lemma_bands_nested(h, glyph.left, glyph.right, light);
    lemma_bands_nested(w, glyph.up, glyph.down, light);
}

/// Two centred bands across one dimension are nested, so the smallest start and the
/// largest end belong to one of them.
proof fn lemma_bands_nested(dimension: int, a: Option<Stroke>, b: Option<Stroke>, light_stroke: int)
    requires
        dimension >= 0,
        light_stroke >= 1,
    ensures
        ({
            let first = centered_band(dimension, a, light_stroke);
            let second = centered_band(dimension, b, light_stroke);
            ||| first.0 <= second.0 && second.1 <= first.1
            ||| second.0 <= first.0 && first.1 <= second.1
        }),
{
}

} // verus!

verus! {

/// Law: across a dimension of the cell a stroke lies centred: it is as thick as the light
/// stroke, twice that for a heavy stroke, nothing for an absent arm, but never thicker
/// than the dimension; and it leaves as many pixels after it as before it, or one more.
pub proof fn lemma_centered_band_centred(dimension: int, stroke: Option<Stroke>, light_stroke: int)
    requires
        0 <= dimension,
        0 <= light_stroke,
    ensures
        ({
            let band = centered_band(dimension, stroke, light_stroke);
            let wanted = match stroke {
                Some(Stroke::Light) => light_stroke,
                Some(Stroke::Heavy) => light_stroke + light_stroke,
                None => 0,
            };
            &&& 0 <= band.0 <= band.1 <= dimension
            &&& band.1 - band.0 == if wanted <= dimension { wanted } else { dimension }
            &&& band.0 <= dimension - band.1 <= band.0 + 1
        }),
{
}

} // verus!
