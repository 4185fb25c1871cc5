use vstd::prelude::*;
use crate::dashed::div_toward_zero;
use crate::geometry::{Bounds, Size, point, min, max, pairwise_disjoint, all_within, covers};
use crate::glyph::Stroke;
use crate::straight::{centered_band, centered_stroke_bounds, corners};
use crate::uncovered::{
    uncovered, emit_uncovered_rect, covered_at, inside, lemma_uncovered, lemma_concat,
};

verus! {

// The double-line glyphs place their rails on half pixels: the middle of a cell of odd
// size lies between two pixels. Positions that can fall on a half pixel are given in
// half-pixel units (twice the position in pixels), where they are whole numbers.

/// The largest cell dimension and light stroke, in pixels, for which half-pixel
/// positions are computed exactly as single-precision floating point would compute
/// them (every such value has at most 24 significant bits).
pub const EXACT_LIMIT: i32 = 4194304;

/// Where a stroke of the given thickness, centred at `center_halves` (in half pixels),
/// covers a dimension: the ends are rounded toward zero and clamped into the dimension.
pub open spec fn stroke_span(dimension: int, center_halves: int, thickness: int) -> (int, int) {
    let thickness = min(thickness, dimension);
    (
        max(div_toward_zero(center_halves - thickness, 2), 0),
        min(div_toward_zero(center_halves + thickness, 2), dimension),
    )
}

/// A position in half pixels, rounded toward zero to a pixel and clamped into `[0, limit]`.
pub open spec fn clamp_halves(position_halves: int, limit: int) -> int {
    let pixel = div_toward_zero(position_halves, 2);
    if pixel < 0 {
        0
    } else if pixel > limit {
        limit
    } else {
        pixel
    }
}

/// The horizontal rail from `start_halves` to `end_halves` centred on the row
/// `center_halves`, or `None` where it is empty.
pub open spec fn spec_horizontal_rect(
    cell: Size,
    start_halves: int,
    end_halves: int,
    center_halves: int,
    thickness: int,
) -> Option<Bounds> {
    let (top, bottom) = stroke_span(cell.height as int, center_halves, thickness);
    let left = clamp_halves(start_halves, cell.width as int);
    let right = clamp_halves(end_halves, cell.width as int);
    if left < right && top < bottom {
        Some(corners(left, top, right, bottom))
    } else {
        None
    }
}

/// The vertical rail from `start_halves` to `end_halves` centred on the column
/// `center_halves`, or `None` where it is empty.
pub open spec fn spec_vertical_rect(
    cell: Size,
    start_halves: int,
    end_halves: int,
    center_halves: int,
    thickness: int,
) -> Option<Bounds> {
    let (left, right) = stroke_span(cell.width as int, center_halves, thickness);
    let top = clamp_halves(start_halves, cell.height as int);
    let bottom = clamp_halves(end_halves, cell.height as int);
    if left < right && top < bottom {
        Some(corners(left, top, right, bottom))
    } else {
        None
    }
}

/// The inputs within which half-pixel positions are exact.
pub open spec fn double_fits(cell: Size, light_stroke: i32) -> bool {
    &&& 0 <= cell.width <= EXACT_LIMIT
    &&& 0 <= cell.height <= EXACT_LIMIT
    &&& -EXACT_LIMIT <= light_stroke <= EXACT_LIMIT
}

/// Where a stroke of the given thickness, centred at `center_halves` half pixels,
/// covers a dimension of the cell.
pub fn stroke_bounds_at(dimension: i32, center_halves: i32, thickness: i32) -> (r: (i32, i32))
    requires
        -EXACT_LIMIT <= dimension <= EXACT_LIMIT,
        -EXACT_LIMIT <= thickness <= EXACT_LIMIT,
        -2 * EXACT_LIMIT <= center_halves <= 2 * EXACT_LIMIT,
    ensures
        r.0 == stroke_span(dimension as int, center_halves as int, thickness as int).0,
        r.1 == stroke_span(dimension as int, center_halves as int, thickness as int).1,
        -2 * EXACT_LIMIT <= r.0 <= 2 * EXACT_LIMIT,
        -2 * EXACT_LIMIT <= r.1 <= 2 * EXACT_LIMIT,
{
    let thickness = if thickness < dimension {
        thickness
    } else {
        dimension
    };
    let start = (center_halves - thickness) / 2;
    let end = (center_halves + thickness) / 2;
    (if start > 0 {
        start
    } else {
        0
    }, if end < dimension {
        end
    } else {
        dimension
    })
}

fn clamp_to_pixel(position_halves: i32, limit: i32) -> (r: i32)
    requires
        0 <= limit,
    ensures
        r == clamp_halves(position_halves as int, limit as int),
{
    let pixel = position_halves / 2;
    if pixel < 0 {
        0
    } else if pixel > limit {
        limit
    } else {
        pixel
    }
}

/// The horizontal rail of a double-line glyph from `start_halves` to `end_halves`
/// along the row centred at `center_halves` (all in half pixels).
pub fn horizontal_rect(
    cell: Size,
    start_halves: i32,
    end_halves: i32,
    center_halves: i32,
    thickness: i32,
) -> (r: Option<Bounds>)
    requires
        0 <= cell.width <= EXACT_LIMIT,
        -EXACT_LIMIT <= cell.height <= EXACT_LIMIT,
        -EXACT_LIMIT <= thickness <= EXACT_LIMIT,
        -2 * EXACT_LIMIT <= center_halves <= 2 * EXACT_LIMIT,
    ensures
        r == spec_horizontal_rect(
            cell,
            start_halves as int,
            end_halves as int,
            center_halves as int,
            thickness as int,
        ),
{
    let (top, bottom) = stroke_bounds_at(cell.height, center_halves, thickness);
    let left = clamp_to_pixel(start_halves, cell.width);
    let right = clamp_to_pixel(end_halves, cell.width);
    if left < right && top < bottom {
        Some(Bounds::from_corners(point(left, top), point(right, bottom)))
    } else {
        None
    }
}

/// The vertical rail of a double-line glyph from `start_halves` to `end_halves`
/// along the column centred at `center_halves` (all in half pixels).
pub fn vertical_rect(
    cell: Size,
    start_halves: i32,
    end_halves: i32,
    center_halves: i32,
    thickness: i32,
) -> (r: Option<Bounds>)
    requires
        -EXACT_LIMIT <= cell.width <= EXACT_LIMIT,
        0 <= cell.height <= EXACT_LIMIT,
        -EXACT_LIMIT <= thickness <= EXACT_LIMIT,
        -2 * EXACT_LIMIT <= center_halves <= 2 * EXACT_LIMIT,
    ensures
        r == spec_vertical_rect(
            cell,
            start_halves as int,
            end_halves as int,
            center_halves as int,
            thickness as int,
        ),
{
    let (left, right) = stroke_bounds_at(cell.width, center_halves, thickness);
    let top = clamp_to_pixel(start_halves, cell.height);
    let bottom = clamp_to_pixel(end_halves, cell.height);
    if left < right && top < bottom {
        Some(Bounds::from_corners(point(left, top), point(right, bottom)))
    } else {
        None
    }
}

} // verus!

verus! {

/// The characters whose vertical rails merge into one line at the middle of the cell.
pub open spec fn single_vertical(code: u32) -> bool {
    code == 0x2552 || code == 0x2555 || code == 0x2558 || code == 0x255B || code == 0x255E || code
        == 0x2561 || code == 0x2564 || code == 0x2567 || code == 0x256A
}

/// The characters whose horizontal rails merge into one line at the middle of the cell.
pub open spec fn single_horizontal(code: u32) -> bool {
    code == 0x2553 || code == 0x2556 || code == 0x2559 || code == 0x255C || code == 0x255F || code
        == 0x2562 || code == 0x2565 || code == 0x2568 || code == 0x256B
}

/// The centres (in half pixels) of the two rails across a dimension: both at the
/// middle where they merge; else one pixel outside either side of a centred light
/// stroke, clamped into the dimension.
pub open spec fn rail_centers(single: bool, dimension: int, light_stroke: int) -> (int, int) {
    if single {
        (dimension, dimension)
    } else {
        let band = centered_band(dimension, Some(Stroke::Light), light_stroke);
        (2 * max(band.0 - 1, 0), 2 * min(band.1 + 1, dimension))
    }
}

/// Where the top and bottom horizontal rails end on the left side, in half pixels.
pub open spec fn left_rail_ends(code: u32, cx: int, first: (int, int), second: (int, int)) -> (int, int) {
    if code == 0x2550 || code == 0x256B {
        (cx, cx)
    } else if 0x2555 <= code <= 0x2557 {
        (2 * second.1, 2 * first.1)
    } else if 0x255B <= code <= 0x255D {
        (2 * first.1, 2 * second.1)
    } else if (0x2561 <= code <= 0x2563) || code == 0x256A || code == 0x256C {
        (2 * first.1, 2 * first.1)
    } else if 0x2564 <= code <= 0x2568 {
        (cx, 2 * first.1)
    } else if code == 0x2569 {
        (2 * first.1, cx)
    } else {
        (0, 0)
    }
}

/// Where the top and bottom horizontal rails start on the right side, in half pixels.
pub open spec fn right_rail_starts(code: u32, cx: int, width: int, first: (int, int), second: (int, int)) -> (
    int,
    int,
) {
    if code == 0x2550 || code == 0x2565 || code == 0x256B {
        (cx, cx)
    } else if (0x2552 <= code <= 0x2554) || code == 0x2568 {
        (2 * first.0, 2 * second.0)
    } else if 0x2558 <= code <= 0x255A {
        (2 * second.0, 2 * first.0)
    } else if (0x255E <= code <= 0x2560) || code == 0x256A || code == 0x256C {
        (2 * second.0, 2 * second.0)
    } else if code == 0x2564 || code == 0x2566 {
        (cx, 2 * second.0)
    } else if code == 0x2567 || code == 0x2569 {
        (2 * second.0, cx)
    } else {
        (2 * width, 2 * width)
    }
}

/// Where the left and right vertical rails end at the top, in half pixels.
pub open spec fn top_rail_ends(code: u32, cy: int, first: (int, int), second: (int, int)) -> (int, int) {
    if code == 0x2551 || code == 0x256A {
        (cy, cy)
    } else if (0x2558 <= code <= 0x255C) || code == 0x2568 {
        (2 * second.1, 2 * first.1)
    } else if code == 0x255D {
        (2 * first.1, 2 * second.1)
    } else if 0x255E <= code <= 0x2560 {
        (cy, 2 * first.1)
    } else if 0x2561 <= code <= 0x2563 {
        (2 * first.1, cy)
    } else if code == 0x2567 || code == 0x2569 || code == 0x256B || code == 0x256C {
        (2 * first.1, 2 * first.1)
    } else {
        (0, 0)
    }
}

/// Where the left and right vertical rails start at the bottom, in half pixels.
pub open spec fn bottom_rail_starts(code: u32, cy: int, height: int, first: (int, int), second: (int, int)) -> (
    int,
    int,
) {
    if code == 0x2551 || code == 0x256A {
        (cy, cy)
    } else if 0x2552 <= code <= 0x2554 {
        (2 * first.0, 2 * second.0)
    } else if 0x2555 <= code <= 0x2557 {
        (2 * second.0, 2 * first.0)
    } else if 0x255E <= code <= 0x2560 {
        (cy, 2 * second.0)
    } else if 0x2561 <= code <= 0x2563 {
        (2 * second.0, cy)
    } else if (0x2564 <= code <= 0x2566) || code == 0x256B || code == 0x256C {
        (2 * second.0, 2 * second.0)
    } else {
        (2 * height, 2 * height)
    }
}

/// The eight rail segments, given where the rails lie and where they end or start
/// (all in half pixels).
pub open spec fn rail_segments(
    cell: Size,
    light: int,
    horizontal_lines: (int, int),
    vertical_lines: (int, int),
    left_ends: (int, int),
    right_starts: (int, int),
    top_ends: (int, int),
    bottom_starts: (int, int),
) -> Seq<Option<Bounds>> {
    let (w, h) = (cell.width as int, cell.height as int);
    seq![
        spec_horizontal_rect(cell, 0, left_ends.0, horizontal_lines.0, light),
        spec_horizontal_rect(cell, 0, left_ends.1, horizontal_lines.1, light),
        spec_horizontal_rect(cell, right_starts.0, 2 * w, horizontal_lines.0, light),
        spec_horizontal_rect(cell, right_starts.1, 2 * w, horizontal_lines.1, light),
        spec_vertical_rect(cell, 0, top_ends.0, vertical_lines.0, light),
        spec_vertical_rect(cell, 0, top_ends.1, vertical_lines.1, light),
        spec_vertical_rect(cell, bottom_starts.0, 2 * h, vertical_lines.0, light),
        spec_vertical_rect(cell, bottom_starts.1, 2 * h, vertical_lines.1, light),
    ]
}

/// Where the rails of a double-line glyph lie and where they end or start, all in
/// half pixels: the rows of the horizontal rails, the columns of the vertical rails,
/// where the horizontal rails end on the left and start on the right, and where the
/// vertical rails end at the top and start at the bottom.
pub open spec fn rail_layout(character: char, cell: Size, light_stroke: i32) -> (
    (int, int),
    (int, int),
    (int, int),
    (int, int),
    (int, int),
    (int, int),
) {
    let code = character as u32;
    let (w, h, light) = (cell.width as int, cell.height as int, light_stroke as int);
    let vertical_lines = rail_centers(single_vertical(code), w, light);
    let horizontal_lines = rail_centers(single_horizontal(code), h, light);
    let vertical_left = stroke_span(w, vertical_lines.0, light);
    let vertical_right = stroke_span(w, vertical_lines.1, light);
    let horizontal_top = stroke_span(h, horizontal_lines.0, light);
    let horizontal_bottom = stroke_span(h, horizontal_lines.1, light);
    (
        horizontal_lines,
        vertical_lines,
        left_rail_ends(code, w, vertical_left, vertical_right),
        right_rail_starts(code, w, w, vertical_left, vertical_right),
        top_rail_ends(code, h, horizontal_top, horizontal_bottom),
        bottom_rail_starts(code, h, h, horizontal_top, horizontal_bottom),
    )
}

/// The eight rail segments of a double-line glyph, in order: the top and bottom
/// horizontal rails on the left and on the right, then the left and right vertical
/// rails at the top and at the bottom. `None` marks an empty segment.
pub open spec fn double_candidates(character: char, cell: Size, light_stroke: i32) -> Seq<Option<Bounds>> {
    let (horizontal_lines, vertical_lines, left_ends, right_starts, top_ends, bottom_starts) =
        rail_layout(character, cell, light_stroke);
    rail_segments(
        cell,
        light_stroke as int,
        horizontal_lines,
        vertical_lines,
        left_ends,
        right_starts,
        top_ends,
        bottom_starts,
    )
}

/// The rectangles that paint the first `count` candidates, each without what the
/// candidates before it already cover.
pub open spec fn uncovered_candidates(candidates: Seq<Option<Bounds>>, count: int) -> Seq<Bounds>
    decreases count,
{
    if count <= 0 {
        Seq::empty()
    } else {
        uncovered_candidates(candidates, count - 1) + match candidates[count - 1] {
            Some(rect) => uncovered(rect, candidates.take(count - 1)),
            None => Seq::empty(),
        }
    }
}

/// The rectangles of a double-line glyph: its rail segments, each without what the
/// segments before it cover, so that no pixel is painted twice.
pub open spec fn double_rects(character: char, cell: Size, light_stroke: i32) -> Seq<Bounds> {
    uncovered_candidates(double_candidates(character, cell, light_stroke), 8)
}

} // verus!

verus! {

fn rail_centers_of(single: bool, dimension: i32, light_stroke: i32) -> (r: (i32, i32))
    requires
        0 <= dimension <= EXACT_LIMIT,
        -EXACT_LIMIT <= light_stroke <= EXACT_LIMIT,
    ensures
        r.0 == rail_centers(single, dimension as int, light_stroke as int).0,
        r.1 == rail_centers(single, dimension as int, light_stroke as int).1,
        -2 * EXACT_LIMIT <= r.0 <= 2 * EXACT_LIMIT,
        -2 * EXACT_LIMIT <= r.1 <= 2 * EXACT_LIMIT,
{
    if single {
        (dimension, dimension)
    } else {
        let bounds = centered_stroke_bounds(dimension, Some(Stroke::Light), light_stroke);
        let first = if bounds.0 - 1 > 0 {
            bounds.0 - 1
        } else {
            0
        };
        let second = if bounds.1 + 1 < dimension {
            bounds.1 + 1
        } else {
            dimension
        };
        (2 * first, 2 * second)
    }
}

spec fn spans_fit(first: (i32, i32), second: (i32, i32)) -> bool {
    &&& -2 * EXACT_LIMIT <= first.0 <= 2 * EXACT_LIMIT
    &&& -2 * EXACT_LIMIT <= first.1 <= 2 * EXACT_LIMIT
    &&& -2 * EXACT_LIMIT <= second.0 <= 2 * EXACT_LIMIT
    &&& -2 * EXACT_LIMIT <= second.1 <= 2 * EXACT_LIMIT
}

spec fn pair_of(span: (i32, i32)) -> (int, int) {
    (span.0 as int, span.1 as int)
}

fn left_rail_ends_of(code: u32, cx: i32, first: (i32, i32), second: (i32, i32)) -> (r: (i32, i32))
    requires
        spans_fit(first, second),
    ensures
        r.0 == left_rail_ends(code, cx as int, pair_of(first), pair_of(second)).0,
        r.1 == left_rail_ends(code, cx as int, pair_of(first), pair_of(second)).1,
{
    match code {
        0x2550 | 0x256B => (cx, cx),
        0x2555..=0x2557 => (2 * second.1, 2 * first.1),
        0x255B..=0x255D => (2 * first.1, 2 * second.1),
        0x2561..=0x2563 | 0x256A | 0x256C => (2 * first.1, 2 * first.1),
        0x2564..=0x2568 => (cx, 2 * first.1),
        0x2569 => (2 * first.1, cx),
        _ => (0, 0),
    }
}

fn right_rail_starts_of(code: u32, cx: i32, width: i32, first: (i32, i32), second: (i32, i32)) -> (r: (
    i32,
    i32,
))
    requires
        spans_fit(first, second),
        0 <= width <= EXACT_LIMIT,
    ensures
        r.0 == right_rail_starts(code, cx as int, width as int, pair_of(first), pair_of(second)).0,
        r.1 == right_rail_starts(code, cx as int, width as int, pair_of(first), pair_of(second)).1,
{
    match code {
        0x2550 | 0x2565 | 0x256B => (cx, cx),
        0x2552..=0x2554 | 0x2568 => (2 * first.0, 2 * second.0),
        0x2558..=0x255A => (2 * second.0, 2 * first.0),
        0x255E..=0x2560 | 0x256A | 0x256C => (2 * second.0, 2 * second.0),
        0x2564 | 0x2566 => (cx, 2 * second.0),
        0x2567 | 0x2569 => (2 * second.0, cx),
        _ => (2 * width, 2 * width),
    }
}

fn top_rail_ends_of(code: u32, cy: i32, first: (i32, i32), second: (i32, i32)) -> (r: (i32, i32))
    requires
        spans_fit(first, second),
    ensures
        r.0 == top_rail_ends(code, cy as int, pair_of(first), pair_of(second)).0,
        r.1 == top_rail_ends(code, cy as int, pair_of(first), pair_of(second)).1,
{
    match code {
        0x2551 | 0x256A => (cy, cy),
        0x2558..=0x255C | 0x2568 => (2 * second.1, 2 * first.1),
        0x255D => (2 * first.1, 2 * second.1),
        0x255E..=0x2560 => (cy, 2 * first.1),
        0x2561..=0x2563 => (2 * first.1, cy),
        0x2567 | 0x2569 | 0x256B | 0x256C => (2 * first.1, 2 * first.1),
        _ => (0, 0),
    }
}

fn bottom_rail_starts_of(code: u32, cy: i32, height: i32, first: (i32, i32), second: (i32, i32)) -> (r: (
    i32,
    i32,
))
    requires
        spans_fit(first, second),
        0 <= height <= EXACT_LIMIT,
    ensures
        r.0 == bottom_rail_starts(code, cy as int, height as int, pair_of(first), pair_of(second)).0,
        r.1 == bottom_rail_starts(code, cy as int, height as int, pair_of(first), pair_of(second)).1,
{
    match code {
        0x2551 | 0x256A => (cy, cy),
        0x2552..=0x2554 => (2 * first.0, 2 * second.0),
        0x2555..=0x2557 => (2 * second.0, 2 * first.0),
        0x255E..=0x2560 => (cy, 2 * second.0),
        0x2561..=0x2563 => (2 * second.0, cy),
        0x2564..=0x2566 | 0x256B | 0x256C => (2 * second.0, 2 * second.0),
        _ => (2 * height, 2 * height),
    }
}

/// The rectangles that paint a double-line glyph: its rail segments, each without
/// what the segments before it cover.
#[verifier::rlimit(50)]
pub fn for_each_double_rect(character: char, cell: Size, light_stroke: i32) -> (r: Vec<Bounds>)
    requires
        double_fits(cell, light_stroke),
    ensures
        r@ == double_rects(character, cell, light_stroke),
{
    let code = character as u32;
    let single_v = code == 0x2552 || code == 0x2555 || code == 0x2558 || code == 0x255B || code
        == 0x255E || code == 0x2561 || code == 0x2564 || code == 0x2567 || code == 0x256A;
    let single_h = code == 0x2553 || code == 0x2556 || code == 0x2559 || code == 0x255C || code
        == 0x255F || code == 0x2562 || code == 0x2565 || code == 0x2568 || code == 0x256B;
    let vertical_lines = rail_centers_of(single_v, cell.width, light_stroke);
    let horizontal_lines = rail_centers_of(single_h, cell.height, light_stroke);
    let vertical_left = stroke_bounds_at(cell.width, vertical_lines.0, light_stroke);
    let vertical_right = stroke_bounds_at(cell.width, vertical_lines.1, light_stroke);
    let horizontal_top = stroke_bounds_at(cell.height, horizontal_lines.0, light_stroke);
    let horizontal_bottom = stroke_bounds_at(cell.height, horizontal_lines.1, light_stroke);
    let left_ends = left_rail_ends_of(code, cell.width, vertical_left, vertical_right);
    let right_starts = right_rail_starts_of(code, cell.width, cell.width, vertical_left, vertical_right);
    let top_ends = top_rail_ends_of(code, cell.height, horizontal_top, horizontal_bottom);
    let bottom_starts = bottom_rail_starts_of(code, cell.height, cell.height, horizontal_top, horizontal_bottom);
    let w2 = 2 * cell.width;
    let h2 = 2 * cell.height;
    let candidates: Vec<Option<Bounds>> = vec![
        horizontal_rect(cell, 0, left_ends.0, horizontal_lines.0, light_stroke),
        horizontal_rect(cell, 0, left_ends.1, horizontal_lines.1, light_stroke),
        horizontal_rect(cell, right_starts.0, w2, horizontal_lines.0, light_stroke),
        horizontal_rect(cell, right_starts.1, w2, horizontal_lines.1, light_stroke),
        vertical_rect(cell, 0, top_ends.0, vertical_lines.0, light_stroke),
        vertical_rect(cell, 0, top_ends.1, vertical_lines.1, light_stroke),
        vertical_rect(cell, bottom_starts.0, h2, vertical_lines.0, light_stroke),
        vertical_rect(cell, bottom_starts.1, h2, vertical_lines.1, light_stroke),
    ];
    proof {
        assert(candidates@ =~= double_candidates(character, cell, light_stroke));
    }
    let mut rects: Vec<Bounds> = Vec::new();
    let mut covered: Vec<Option<Bounds>> = Vec::new();
    let mut index: usize = 0;
    while index < candidates.len()
        invariant
            candidates@ == double_candidates(character, cell, light_stroke),
            0 <= index <= candidates@.len(),
            covered@ == candidates@.take(index as int),
            rects@ == uncovered_candidates(candidates@, index as int),
        decreases candidates@.len() - index,
    {
        let candidate = candidates[index];
        if let Some(rect) = candidate {
            emit_uncovered_rect(rect, covered.as_slice(), &mut rects);
        }
        covered.push(candidate);
        proof {
            assert(covered@ =~= candidates@.take(index + 1));
        }
        index = index + 1;
    }
    rects
}

} // verus!

verus! {

proof fn lemma_rail_rect_within(cell: Size, start_halves: int, end_halves: int, center_halves: int, thickness: int)
    requires
        cell.width >= 0,
        cell.height >= 0,
    ensures
        spec_horizontal_rect(cell, start_halves, end_halves, center_halves, thickness) matches Some(r)
            ==> !r.is_empty() && r.within(cell),
        spec_vertical_rect(cell, start_halves, end_halves, center_halves, thickness) matches Some(r)
            ==> !r.is_empty() && r.within(cell),
{
}

/// Every rail segment that is present is nonempty and lies within the cell.
proof fn lemma_segments_within(
    cell: Size,
    light: int,
    horizontal_lines: (int, int),
    vertical_lines: (int, int),
    left_ends: (int, int),
    right_starts: (int, int),
    top_ends: (int, int),
    bottom_starts: (int, int),
)
    requires
        cell.width >= 0,
        cell.height >= 0,
    ensures
        ({
            let segments = rail_segments(
                cell,
                light,
                horizontal_lines,
                vertical_lines,
                left_ends,
                right_starts,
                top_ends,
                bottom_starts,
            );
            forall|i: int|
                0 <= i < segments.len() && (#[trigger] segments[i]) is Some ==> !segments[i]->0.is_empty()
                    && segments[i]->0.within(cell)
        }),
{
    let (w, h) = (cell.width as int, cell.height as int);
    lemma_rail_rect_within(cell, 0, left_ends.0, horizontal_lines.0, light);
    lemma_rail_rect_within(cell, 0, left_ends.1, horizontal_lines.1, light);
    lemma_rail_rect_within(cell, right_starts.0, 2 * w, horizontal_lines.0, light);
    lemma_rail_rect_within(cell, right_starts.1, 2 * w, horizontal_lines.1, light);
    lemma_rail_rect_within(cell, 0, top_ends.0, vertical_lines.0, light);
    lemma_rail_rect_within(cell, 0, top_ends.1, vertical_lines.1, light);
    lemma_rail_rect_within(cell, bottom_starts.0, 2 * h, vertical_lines.0, light);
    lemma_rail_rect_within(cell, bottom_starts.1, 2 * h, vertical_lines.1, light);
}

/// The rectangle lies inside one of the first `count` candidates.
spec fn inside_candidate(rect: Bounds, candidates: Seq<Option<Bounds>>, count: int) -> bool {
    exists|j: int| 0 <= j < count && (#[trigger] candidates[j]) is Some && inside(rect, candidates[j]->0)
}

#[verifier::rlimit(50)]
proof fn lemma_uncovered_candidates(candidates: Seq<Option<Bounds>>, count: int, cell: Size)
    requires
        0 <= count <= candidates.len(),
        forall|i: int|
            0 <= i < candidates.len() && (#[trigger] candidates[i]) is Some ==> !candidates[i]->0.is_empty()
                && candidates[i]->0.within(cell),
    ensures
        all_within(uncovered_candidates(candidates, count), cell),
        pairwise_disjoint(uncovered_candidates(candidates, count)),
        forall|i: int|
            0 <= i < uncovered_candidates(candidates, count).len() ==> inside_candidate(
                #[trigger] uncovered_candidates(candidates, count)[i],
                candidates,
                count,
            ),
        forall|x: int, y: int| #[trigger]
            covers(uncovered_candidates(candidates, count), x, y) <==> covered_at(
                candidates.take(count),
                x,
                y,
            ),
    decreases count,
{
    let out = uncovered_candidates(candidates, count);
    if count == 0 {
        assert forall|x: int, y: int| #[trigger] covers(out, x, y) <==> covered_at(candidates.take(count), x, y) by {
        }
    } else {
        let previous = uncovered_candidates(candidates, count - 1);
        lemma_uncovered_candidates(candidates, count - 1, cell);
        let before = candidates.take(count - 1);
        let added = match candidates[count - 1] {
            Some(rect) => uncovered(rect, before),
            None => Seq::empty(),
        };
        assert(out == previous + added);
        let now = candidates.take(count);
        assert(now.drop_last() == before);
        if candidates[count - 1] is Some {
            let rect = candidates[count - 1]->0;
            lemma_uncovered(rect, before);
            assert forall|i: int, k: int| 0 <= i < previous.len() && 0 <= k < added.len() implies (#[trigger] previous[i]).disjoint(
                #[trigger] added[k],
            ) by {
                assert(inside_candidate(previous[i], candidates, count - 1));
                let j = choose|j: int| 0 <= j < count - 1 && (#[trigger] candidates[j]) is Some && inside(previous[i], candidates[j]->0);
                assert(before[j] == candidates[j]);
                assert(added[k].disjoint(before[j]->0));
            }
        }
        lemma_concat(previous, added);
        assert forall|i: int| 0 <= i < out.len() implies !(#[trigger] out[i]).is_empty() && out[i].within(cell) && inside_candidate(out[i], candidates, count) by {
            if i < previous.len() {
                assert(out[i] == previous[i]);
                assert(inside_candidate(previous[i], candidates, count - 1));
                let j = choose|j: int| 0 <= j < count - 1 && (#[trigger] candidates[j]) is Some && inside(previous[i], candidates[j]->0);
                assert(inside(out[i], candidates[j]->0));
            } else {
                assert(out[i] == added[i - previous.len()]);
                assert(inside(out[i], candidates[count - 1]->0));
            }
        }
        assert forall|x: int, y: int| #[trigger] covers(out, x, y) <==> covered_at(now, x, y) by {
            if covered_at(now, x, y) {
                let j = choose|j: int| 0 <= j < now.len() && (#[trigger] now[j]) is Some && now[j]->0.contains(x, y);
                if j < count - 1 {
                    assert(before[j] == now[j]);
                    assert(covered_at(before, x, y));
                }
            }
            if covered_at(before, x, y) {
                let j = choose|j: int| 0 <= j < before.len() && (#[trigger] before[j]) is Some && before[j]->0.contains(x, y);
                assert(now[j] == before[j]);
            }
            if covers(added, x, y) {
                let k = choose|k: int| 0 <= k < added.len() && (#[trigger] added[k]).contains(x, y);
                assert(candidates[count - 1] is Some);
                assert(candidates[count - 1]->0.contains(x, y));
                assert(now[count - 1] == candidates[count - 1]);
            }
        }
    }
}

/// Law: in a cell of nonnegative size, the rectangles of a double-line glyph are
/// nonempty, lie within the cell and never overlap, and together paint exactly the
/// pixels that its rail segments cover: no pixel is blended twice.
#[verifier::rlimit(50)]
pub proof fn lemma_double_rects_disjoint_within(character: char, cell: Size, light_stroke: i32)
    requires
        double_fits(cell, light_stroke),
    ensures
        all_within(double_rects(character, cell, light_stroke), cell),
        pairwise_disjoint(double_rects(character, cell, light_stroke)),
        forall|x: int, y: int| #[trigger]
            covers(double_rects(character, cell, light_stroke), x, y) <==> covered_at(
                double_candidates(character, cell, light_stroke),
                x,
                y,
            ),
{
    let (horizontal_lines, vertical_lines, left_ends, right_starts, top_ends, bottom_starts) =
        rail_layout(character, cell, light_stroke);
    lemma_segments_within(
        cell,
        light_stroke as int,
        horizontal_lines,
        vertical_lines,
        left_ends,
        right_starts,
        top_ends,
        bottom_starts,
    );
    let candidates = double_candidates(character, cell, light_stroke);
    lemma_uncovered_candidates(candidates, 8, cell);
    assert(candidates.take(8) =~= candidates);
}

} // verus!

verus! {

/// The second rail across a dimension is at least a pixel thick and ends past the
/// dimension's first pixel; any stroke centred within the dimension starts before its end.
proof fn lemma_second_rail(single: bool, dimension: int, light_stroke: int)
    requires
        1 <= dimension <= EXACT_LIMIT,
        1 <= light_stroke <= EXACT_LIMIT,
    ensures
        ({
            let centers = rail_centers(single, dimension, light_stroke);
            let second = stroke_span(dimension, centers.1, light_stroke);
            let first = stroke_span(dimension, centers.0, light_stroke);
            &&& second.0 < second.1
            &&& 1 <= second.1
            &&& second.0 <= dimension - 1
            &&& first.0 <= dimension - 1
            &&& 0 <= centers.0 <= 2 * dimension
            &&& 0 <= centers.1 <= 2 * dimension
        }),
{
    let band = centered_band(dimension, Some(Stroke::Light), light_stroke);
    let t = min(light_stroke, dimension);
    assert(0 <= band.0 && band.1 <= dimension && band.1 >= 1);
}

/// Where the rail ends fall for the double-line characters: each starts on the
/// right, starts at the bottom, or ends on the left strictly inside the cell.
#[verifier::rlimit(50)]
proof fn lemma_rail_table(
    code: u32,
    w: int,
    h: int,
    vertical_left: (int, int),
    vertical_right: (int, int),
    horizontal_top: (int, int),
    horizontal_bottom: (int, int),
)
    requires
        0x2550 <= code <= 0x256C,
        w >= 1,
        h >= 1,
        0 <= vertical_left.0 <= w - 1,
        0 <= vertical_right.0 <= w - 1,
        1 <= vertical_right.1,
        0 <= horizontal_top.0 <= h - 1,
        0 <= horizontal_bottom.0 <= h - 1,
    ensures
        ({
            let right_starts = right_rail_starts(code, w, w, vertical_left, vertical_right);
            let bottom_starts = bottom_rail_starts(code, h, h, horizontal_top, horizontal_bottom);
            let left_ends = left_rail_ends(code, w, vertical_left, vertical_right);
            ||| 0 <= right_starts.1 <= 2 * w - 1
            ||| 0 <= bottom_starts.1 <= 2 * h - 1
            ||| left_ends.1 >= 2
        }),
{
}

proof fn lemma_right_rail_present(cell: Size, start: int, center: int, light: int)
    requires
        cell.width >= 1,
        0 <= start <= 2 * cell.width - 1,
        stroke_span(cell.height as int, center, light).0 < stroke_span(cell.height as int, center, light).1,
    ensures
        spec_horizontal_rect(cell, start, 2 * cell.width, center, light) is Some,
{
}

proof fn lemma_bottom_rail_present(cell: Size, start: int, center: int, light: int)
    requires
        cell.height >= 1,
        0 <= start <= 2 * cell.height - 1,
        stroke_span(cell.width as int, center, light).0 < stroke_span(cell.width as int, center, light).1,
    ensures
        spec_vertical_rect(cell, start, 2 * cell.height, center, light) is Some,
{
}

proof fn lemma_left_rail_present(cell: Size, end: int, center: int, light: int)
    requires
        cell.width >= 1,
        end >= 2,
        stroke_span(cell.height as int, center, light).0 < stroke_span(cell.height as int, center, light).1,
    ensures
        spec_horizontal_rect(cell, 0, end, center, light) is Some,
{
}

/// Law: in a cell at least one pixel wide and tall with a light stroke of at least one
/// pixel, every double-line character U+2550..U+256C paints at least one pixel.
#[verifier::rlimit(50)]
pub proof fn lemma_double_rects_nonempty(character: char, cell: Size, light_stroke: i32)
    requires
        double_fits(cell, light_stroke),
        0x2550 <= character as u32 <= 0x256C,
        cell.width >= 1,
        cell.height >= 1,
        light_stroke >= 1,
    ensures
        double_rects(character, cell, light_stroke).len() >= 1,
{
    let code = character as u32;
    let (w, h, light) = (cell.width as int, cell.height as int, light_stroke as int);
    let (horizontal_lines, vertical_lines, left_ends, right_starts, top_ends, bottom_starts) =
        rail_layout(character, cell, light_stroke);
    lemma_second_rail(single_vertical(code), w, light);
    lemma_second_rail(single_horizontal(code), h, light);
    let vertical_left = stroke_span(w, vertical_lines.0, light);
    let vertical_right = stroke_span(w, vertical_lines.1, light);
    let horizontal_top = stroke_span(h, horizontal_lines.0, light);
    let horizontal_bottom = stroke_span(h, horizontal_lines.1, light);
    lemma_rail_table(code, w, h, vertical_left, vertical_right, horizontal_top, horizontal_bottom);
    let candidates = double_candidates(character, cell, light_stroke);
    let witness: int = if 0 <= right_starts.1 <= 2 * w - 1 {
        lemma_right_rail_present(cell, right_starts.1, horizontal_lines.1, light);
        3
    } else if 0 <= bottom_starts.1 <= 2 * h - 1 {
        lemma_bottom_rail_present(cell, bottom_starts.1, vertical_lines.1, light);
        7
    } else {
        lemma_left_rail_present(cell, left_ends.1, horizontal_lines.1, light);
        1
    };
    assert(candidates[witness] is Some);
    lemma_segments_within(
        cell,
        light,
        horizontal_lines,
        vertical_lines,
        left_ends,
        right_starts,
        top_ends,
        bottom_starts,
    );
    lemma_some_candidate_paints(candidates, cell, witness);
}

/// Where some candidate is present, the uncovered candidates paint at least one pixel.
proof fn lemma_some_candidate_paints(candidates: Seq<Option<Bounds>>, cell: Size, witness: int)
    requires
        candidates.len() == 8,
        0 <= witness < 8,
        candidates[witness] is Some,
        forall|i: int|
            0 <= i < candidates.len() && (#[trigger] candidates[i]) is Some ==> !candidates[i]->0.is_empty()
                && candidates[i]->0.within(cell),
    ensures
        uncovered_candidates(candidates, 8).len() >= 1,
{
    lemma_uncovered_candidates(candidates, 8, cell);
    let rect = candidates[witness]->0;
    assert(candidates.take(8) =~= candidates);
    assert(rect.contains(rect.left() as int, rect.top() as int));
    assert(covered_at(candidates, rect.left() as int, rect.top() as int));
    assert(covers(uncovered_candidates(candidates, 8), rect.left() as int, rect.top() as int));
}

} // verus!

verus! {

/// The arms (left, right, up, down; 0 none, 1 single, 2 double) that the Unicode name
/// of each double-line character gives it.
pub open spec fn named_double_arms(cp: u32) -> (int, int, int, int) {
    match cp {
        0x2550 => (2, 2, 0, 0), // BOX DRAWINGS DOUBLE HORIZONTAL
        0x2551 => (0, 0, 2, 2), // BOX DRAWINGS DOUBLE VERTICAL
        0x2552 => (0, 2, 0, 1), // BOX DRAWINGS DOWN SINGLE AND RIGHT DOUBLE
        0x2553 => (0, 1, 0, 2), // BOX DRAWINGS DOWN DOUBLE AND RIGHT SINGLE
        0x2554 => (0, 2, 0, 2), // BOX DRAWINGS DOUBLE DOWN AND RIGHT
        0x2555 => (2, 0, 0, 1), // BOX DRAWINGS DOWN SINGLE AND LEFT DOUBLE
        0x2556 => (1, 0, 0, 2), // BOX DRAWINGS DOWN DOUBLE AND LEFT SINGLE
        0x2557 => (2, 0, 0, 2), // BOX DRAWINGS DOUBLE DOWN AND LEFT
        0x2558 => (0, 2, 1, 0), // BOX DRAWINGS UP SINGLE AND RIGHT DOUBLE
        0x2559 => (0, 1, 2, 0), // BOX DRAWINGS UP DOUBLE AND RIGHT SINGLE
        0x255A => (0, 2, 2, 0), // BOX DRAWINGS DOUBLE UP AND RIGHT
        0x255B => (2, 0, 1, 0), // BOX DRAWINGS UP SINGLE AND LEFT DOUBLE
        0x255C => (1, 0, 2, 0), // BOX DRAWINGS UP DOUBLE AND LEFT SINGLE
        0x255D => (2, 0, 2, 0), // BOX DRAWINGS DOUBLE UP AND LEFT
        0x255E => (0, 2, 1, 1), // BOX DRAWINGS VERTICAL SINGLE AND RIGHT DOUBLE
        0x255F => (0, 1, 2, 2), // BOX DRAWINGS VERTICAL DOUBLE AND RIGHT SINGLE
        0x2560 => (0, 2, 2, 2), // BOX DRAWINGS DOUBLE VERTICAL AND RIGHT
        0x2561 => (2, 0, 1, 1), // BOX DRAWINGS VERTICAL SINGLE AND LEFT DOUBLE
        0x2562 => (1, 0, 2, 2), // BOX DRAWINGS VERTICAL DOUBLE AND LEFT SINGLE
        0x2563 => (2, 0, 2, 2), // BOX DRAWINGS DOUBLE VERTICAL AND LEFT
        0x2564 => (2, 2, 0, 1), // BOX DRAWINGS DOWN SINGLE AND HORIZONTAL DOUBLE
        0x2565 => (1, 1, 0, 2), // BOX DRAWINGS DOWN DOUBLE AND HORIZONTAL SINGLE
        0x2566 => (2, 2, 0, 2), // BOX DRAWINGS DOUBLE DOWN AND HORIZONTAL
        0x2567 => (2, 2, 1, 0), // BOX DRAWINGS UP SINGLE AND HORIZONTAL DOUBLE
        0x2568 => (1, 1, 2, 0), // BOX DRAWINGS UP DOUBLE AND HORIZONTAL SINGLE
        0x2569 => (2, 2, 2, 0), // BOX DRAWINGS DOUBLE UP AND HORIZONTAL
        0x256A => (2, 2, 1, 1), // BOX DRAWINGS VERTICAL SINGLE AND HORIZONTAL DOUBLE
        0x256B => (1, 1, 2, 2), // BOX DRAWINGS VERTICAL DOUBLE AND HORIZONTAL SINGLE
        0x256C => (2, 2, 2, 2), // BOX DRAWINGS DOUBLE VERTICAL AND HORIZONTAL
        _ => (0, 0, 0, 0),
    }
}

/// The two rails of an arm of the given kind (1 single, 2 double) across a dimension:
/// a single arm's two rails coincide at the middle of the cell.
pub open spec fn arm_rails(kind: int, dimension: int, light_stroke: int) -> ((int, int), (int, int)) {
    let centers = rail_centers(kind == 1, dimension, light_stroke);
    (stroke_span(dimension, centers.0, light_stroke), stroke_span(dimension, centers.1, light_stroke))
}

/// The pixel at `position` across a dimension lies on a rail of an arm of the given kind
/// (never, for no arm).
pub open spec fn on_arm_rails(position: int, kind: int, dimension: int, light_stroke: int) -> bool {
    let (first, second) = arm_rails(kind, dimension, light_stroke);
    &&& kind != 0
    &&& (first.0 <= position < first.1 || second.0 <= position < second.1)
}

/// With a margin of at least five pixels beyond twice the light stroke, both rails of
/// either kind of arm are nonempty and keep a pixel away from the dimension's ends.
proof fn lemma_rails_inside(single: bool, dimension: int, light_stroke: int)
    requires
        1 <= light_stroke,
        2 * light_stroke + 5 <= dimension <= EXACT_LIMIT,
    ensures
        ({
            let centers = rail_centers(single, dimension, light_stroke);
            let first = stroke_span(dimension, centers.0, light_stroke);
            let second = stroke_span(dimension, centers.1, light_stroke);
            &&& 1 <= first.0 < first.1 <= dimension - 1
            &&& 1 <= second.0 < second.1 <= dimension - 1
        }),
{
    let band = centered_band(dimension, Some(Stroke::Light), light_stroke);
    assert(band.0 == (dimension - light_stroke) / 2);
    assert(band.1 == band.0 + light_stroke);
}

/// Where each double-line character's rails end and start, relative to the cell's edges:
/// the rails of a present arm run from its edge, and no other rail reaches that edge.
proof fn lemma_double_table_edges(
    code: u32,
    w: int,
    h: int,
    vertical_left: (int, int),
    vertical_right: (int, int),
    horizontal_top: (int, int),
    horizontal_bottom: (int, int),
)
    requires
        0x2550 <= code <= 0x256C,
        w >= 3,
        h >= 3,
        1 <= vertical_left.0 < vertical_left.1 <= w - 1,
        1 <= vertical_right.0 < vertical_right.1 <= w - 1,
        1 <= horizontal_top.0 < horizontal_top.1 <= h - 1,
        1 <= horizontal_bottom.0 < horizontal_bottom.1 <= h - 1,
    ensures
        ({
            let (left, right, up, down) = named_double_arms(code);
            let le = left_rail_ends(code, w, vertical_left, vertical_right);
            let rs = right_rail_starts(code, w, w, vertical_left, vertical_right);
            let te = top_rail_ends(code, h, horizontal_top, horizontal_bottom);
            let bs = bottom_rail_starts(code, h, h, horizontal_top, horizontal_bottom);
            &&& le.0 <= 2 * w - 2 && le.1 <= 2 * w - 2
            &&& left != 0 ==> le.0 >= 2 && le.1 >= 2
            &&& left == 0 ==> le.0 < 2 && le.1 < 2
            &&& rs.0 >= 2 && rs.1 >= 2
            &&& right != 0 ==> rs.0 <= 2 * w - 1 && rs.1 <= 2 * w - 1
            &&& right == 0 ==> rs.0 >= 2 * w && rs.1 >= 2 * w
            &&& te.0 <= 2 * h - 2 && te.1 <= 2 * h - 2
            &&& up != 0 ==> te.0 >= 2 && te.1 >= 2
            &&& up == 0 ==> te.0 < 2 && te.1 < 2
            &&& bs.0 >= 2 && bs.1 >= 2
            &&& down != 0 ==> bs.0 <= 2 * h - 1 && bs.1 <= 2 * h - 1
            &&& down == 0 ==> bs.0 >= 2 * h && bs.1 >= 2 * h
            &&& left != 0 ==> (left == 1 <==> single_horizontal(code))
            &&& right != 0 ==> (right == 1 <==> single_horizontal(code))
            &&& up != 0 ==> (up == 1 <==> single_vertical(code))
            &&& down != 0 ==> (down == 1 <==> single_vertical(code))
        }),
{
}

} // verus!

verus! {

proof fn lemma_covered_at_eight(segments: Seq<Option<Bounds>>)
    requires
        segments.len() == 8,
    ensures
        forall|x: int, y: int| #[trigger]
            covered_at(segments, x, y) <==> {
                ||| segments[0] is Some && segments[0]->0.contains(x, y)
                ||| segments[1] is Some && segments[1]->0.contains(x, y)
                ||| segments[2] is Some && segments[2]->0.contains(x, y)
                ||| segments[3] is Some && segments[3]->0.contains(x, y)
                ||| segments[4] is Some && segments[4]->0.contains(x, y)
                ||| segments[5] is Some && segments[5]->0.contains(x, y)
                ||| segments[6] is Some && segments[6]->0.contains(x, y)
                ||| segments[7] is Some && segments[7]->0.contains(x, y)
            },
{
    assert forall|x: int, y: int| #[trigger] covered_at(segments, x, y) implies {
        ||| segments[0] is Some && segments[0]->0.contains(x, y)
        ||| segments[1] is Some && segments[1]->0.contains(x, y)
        ||| segments[2] is Some && segments[2]->0.contains(x, y)
        ||| segments[3] is Some && segments[3]->0.contains(x, y)
        ||| segments[4] is Some && segments[4]->0.contains(x, y)
        ||| segments[5] is Some && segments[5]->0.contains(x, y)
        ||| segments[6] is Some && segments[6]->0.contains(x, y)
        ||| segments[7] is Some && segments[7]->0.contains(x, y)
    } by {
        let i = choose|i: int|
            0 <= i < segments.len() && (#[trigger] segments[i]) is Some && segments[i]->0.contains(x, y);
    }
}

/// The rail segments paint, on each edge of the cell, exactly the rails of the arms
/// that run from that edge.
#[verifier::rlimit(50)]
proof fn lemma_segments_edges(
    cell: Size,
    light: int,
    horizontal_lines: (int, int),
    vertical_lines: (int, int),
    left_ends: (int, int),
    right_starts: (int, int),
    top_ends: (int, int),
    bottom_starts: (int, int),
    left_on: bool,
    right_on: bool,
    up_on: bool,
    down_on: bool,
)
    requires
        3 <= cell.width <= EXACT_LIMIT,
        3 <= cell.height <= EXACT_LIMIT,
        1 <= light,
        ({
            let (w, h) = (cell.width as int, cell.height as int);
            let sh0 = stroke_span(h, horizontal_lines.0, light);
            let sh1 = stroke_span(h, horizontal_lines.1, light);
            let sv0 = stroke_span(w, vertical_lines.0, light);
            let sv1 = stroke_span(w, vertical_lines.1, light);
            &&& 1 <= sh0.0 < sh0.1 <= h - 1
            &&& 1 <= sh1.0 < sh1.1 <= h - 1
            &&& 1 <= sv0.0 < sv0.1 <= w - 1
            &&& 1 <= sv1.0 < sv1.1 <= w - 1
            &&& left_ends.0 <= 2 * w - 2 && left_ends.1 <= 2 * w - 2
            &&& left_on ==> left_ends.0 >= 2 && left_ends.1 >= 2
            &&& !left_on ==> left_ends.0 < 2 && left_ends.1 < 2
            &&& right_starts.0 >= 2 && right_starts.1 >= 2
            &&& right_on ==> right_starts.0 <= 2 * w - 1 && right_starts.1 <= 2 * w - 1
            &&& !right_on ==> right_starts.0 >= 2 * w && right_starts.1 >= 2 * w
            &&& top_ends.0 <= 2 * h - 2 && top_ends.1 <= 2 * h - 2
            &&& up_on ==> top_ends.0 >= 2 && top_ends.1 >= 2
            &&& !up_on ==> top_ends.0 < 2 && top_ends.1 < 2
            &&& bottom_starts.0 >= 2 && bottom_starts.1 >= 2
            &&& down_on ==> bottom_starts.0 <= 2 * h - 1 && bottom_starts.1 <= 2 * h - 1
            &&& !down_on ==> bottom_starts.0 >= 2 * h && bottom_starts.1 >= 2 * h
        }),
    ensures
        ({
            let (w, h) = (cell.width as int, cell.height as int);
            let segments = rail_segments(
                cell,
                light,
                horizontal_lines,
                vertical_lines,
                left_ends,
                right_starts,
                top_ends,
                bottom_starts,
            );
            let sh0 = stroke_span(h, horizontal_lines.0, light);
            let sh1 = stroke_span(h, horizontal_lines.1, light);
            let sv0 = stroke_span(w, vertical_lines.0, light);
            let sv1 = stroke_span(w, vertical_lines.1, light);
            &&& forall|y: int|
                0 <= y < h ==> (#[trigger] covered_at(segments, 0, y) <==> left_on && (sh0.0 <= y < sh0.1
                    || sh1.0 <= y < sh1.1))
            &&& forall|y: int|
                0 <= y < h ==> (#[trigger] covered_at(segments, w - 1, y) <==> right_on && (sh0.0 <= y
                    < sh0.1 || sh1.0 <= y < sh1.1))
            &&& forall|x: int|
                0 <= x < w ==> (#[trigger] covered_at(segments, x, 0) <==> up_on && (sv0.0 <= x < sv0.1
                    || sv1.0 <= x < sv1.1))
            &&& forall|x: int|
                0 <= x < w ==> (#[trigger] covered_at(segments, x, h - 1) <==> down_on && (sv0.0 <= x
                    < sv0.1 || sv1.0 <= x < sv1.1))
        }),
{
    let segments = rail_segments(
        cell,
        light,
        horizontal_lines,
        vertical_lines,
        left_ends,
        right_starts,
        top_ends,
        bottom_starts,
    );
    lemma_covered_at_eight(segments);
}

/// Law: on every edge of the cell a double-line character paints exactly the rails of
/// the arm its Unicode name gives on that side: two rails for a double arm, one (both
/// rails at the middle) for a single arm, nothing where it has no arm. This holds where
/// the cell leaves a margin of at least five pixels beyond twice the light stroke.
#[verifier::rlimit(50)]
pub proof fn lemma_double_edge_profile(character: char, cell: Size, light_stroke: i32)
    requires
        double_fits(cell, light_stroke),
        0x2550 <= character as u32 <= 0x256C,
        1 <= light_stroke,
        2 * light_stroke + 5 <= cell.width,
        2 * light_stroke + 5 <= cell.height,
    ensures
        ({
            let rects = double_rects(character, cell, light_stroke);
            let (w, h, light) = (cell.width as int, cell.height as int, light_stroke as int);
            let (left, right, up, down) = named_double_arms(character as u32);
            &&& forall|y: int|
                0 <= y < h ==> (#[trigger] covers(rects, 0, y) <==> on_arm_rails(y, left, h, light))
            &&& forall|y: int|
                0 <= y < h ==> (#[trigger] covers(rects, w - 1, y) <==> on_arm_rails(y, right, h, light))
            &&& forall|x: int|
                0 <= x < w ==> (#[trigger] covers(rects, x, 0) <==> on_arm_rails(x, up, w, light))
            &&& forall|x: int|
                0 <= x < w ==> (#[trigger] covers(rects, x, h - 1) <==> on_arm_rails(x, down, w, light))
        }),
{
    let code = character as u32;
    let (w, h, light) = (cell.width as int, cell.height as int, light_stroke as int);
    let (horizontal_lines, vertical_lines, left_ends, right_starts, top_ends, bottom_starts) =
        rail_layout(character, cell, light_stroke);
    lemma_rails_inside(single_vertical(code), w, light);
    lemma_rails_inside(single_horizontal(code), h, light);
    lemma_rails_inside(true, w, light);
    lemma_rails_inside(false, w, light);
    lemma_rails_inside(true, h, light);
    lemma_rails_inside(false, h, light);
    let vertical_left = stroke_span(w, vertical_lines.0, light);
    let vertical_right = stroke_span(w, vertical_lines.1, light);
    let horizontal_top = stroke_span(h, horizontal_lines.0, light);
    let horizontal_bottom = stroke_span(h, horizontal_lines.1, light);
    lemma_double_table_edges(code, w, h, vertical_left, vertical_right, horizontal_top, horizontal_bottom);
    let (left, right, up, down) = named_double_arms(code);
    lemma_segments_edges(
        cell,
        light,
        horizontal_lines,
        vertical_lines,
        left_ends,
        right_starts,
        top_ends,
        bottom_starts,
        left != 0,
        right != 0,
        up != 0,
        down != 0,
    );
    lemma_double_rects_disjoint_within(character, cell, light_stroke);
}

} // verus!

verus! {

/// Law: a double-line character paints nothing off its rails: every painted pixel lies
/// on a rail of its horizontal arms (across the cell's height) or on a rail of its
/// vertical arms (across its width), rails placed as the Unicode name gives the arms'
/// kinds; a character without horizontal arms paints only on vertical rails, and the
/// other way round. This holds where the cell leaves a margin of at least five pixels
/// beyond twice the light stroke.
#[verifier::rlimit(80)]
pub proof fn lemma_double_on_rails(character: char, cell: Size, light_stroke: i32)
    requires
        double_fits(cell, light_stroke),
        0x2550 <= character as u32 <= 0x256C,
        1 <= light_stroke,
        2 * light_stroke + 5 <= cell.width,
        2 * light_stroke + 5 <= cell.height,
    ensures
        ({
            let rects = double_rects(character, cell, light_stroke);
            let (w, h, light) = (cell.width as int, cell.height as int, light_stroke as int);
            let (left, right, up, down) = named_double_arms(character as u32);
            forall|x: int, y: int| #[trigger]
                covers(rects, x, y) ==> on_arm_rails(y, max(left, right), h, light) || on_arm_rails(
                    x,
                    max(up, down),
                    w,
                    light,
                )
        }),
{
    let code = character as u32;
    let (w, h, light) = (cell.width as int, cell.height as int, light_stroke as int);
    let (horizontal_lines, vertical_lines, left_ends, right_starts, top_ends, bottom_starts) =
        rail_layout(character, cell, light_stroke);
    lemma_rails_inside(single_vertical(code), w, light);
    lemma_rails_inside(single_horizontal(code), h, light);
    let vertical_left = stroke_span(w, vertical_lines.0, light);
    let vertical_right = stroke_span(w, vertical_lines.1, light);
    let horizontal_top = stroke_span(h, horizontal_lines.0, light);
    let horizontal_bottom = stroke_span(h, horizontal_lines.1, light);
    lemma_double_table_edges(code, w, h, vertical_left, vertical_right, horizontal_top, horizontal_bottom);
    let (left, right, up, down) = named_double_arms(code);
    let hk = max(left, right);
    let vk = max(up, down);
    let candidates = double_candidates(character, cell, light_stroke);
    lemma_covered_at_eight(candidates);
    lemma_double_rects_disjoint_within(character, cell, light_stroke);
    assert(hk != 0 ==> arm_rails(hk, h, light) == (horizontal_top, horizontal_bottom));
    assert(vk != 0 ==> arm_rails(vk, w, light) == (vertical_left, vertical_right));
    assert(hk == 0 ==> candidates[0] is None && candidates[1] is None && candidates[2] is None
        && candidates[3] is None);
    assert(vk == 0 ==> candidates[4] is None && candidates[5] is None && candidates[6] is None
        && candidates[7] is None);
    let rects = double_rects(character, cell, light_stroke);
    assert forall|x: int, y: int| #[trigger] covers(rects, x, y) implies on_arm_rails(y, hk, h, light)
        || on_arm_rails(x, vk, w, light) by {
        assert(covered_at(candidates, x, y));
    }
}

} // verus!
