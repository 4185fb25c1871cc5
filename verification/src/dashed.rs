use vstd::prelude::*;
use crate::geometry::{Bounds, Size, point, min, max, pairwise_disjoint, all_within};
use crate::glyph::{Axis, DashedGlyph, Stroke};
use crate::straight::{centered_band, centered_fits, centered_stroke_bounds, corners, push_if};

verus! {

/// Division rounded toward zero, as integer division in Rust.
pub open spec fn div_toward_zero(a: int, b: int) -> int {
    if a >= 0 {
        a / b
    } else {
        -((-a) / b)
    }
}

/// A value clamped to the range of `i32`, as saturating arithmetic does.
pub open spec fn saturate(value: int) -> int {
    if value < i32::MIN {
        i32::MIN as int
    } else if value > i32::MAX {
        i32::MAX as int
    } else {
        value
    }
}

/// The length of the dimension along which a dashed glyph runs, and across it.
pub open spec fn dashed_dimensions(axis: Axis, cell: Size) -> (int, int) {
    match axis {
        Axis::Horizontal => (cell.width as int, cell.height as int),
        Axis::Vertical => (cell.height as int, cell.width as int),
    }
}

/// The gap between dashes: an eighth of the dimension, at least one pixel.
pub open spec fn gap_length(dimension: int) -> int {
    max(div_toward_zero(dimension, 8), 1)
}

/// The dash length: what the gaps leave, shared among the dashes, at least one pixel.
pub open spec fn dash_length(dimension: int, gaps: int) -> int {
    max(div_toward_zero(saturate(dimension - gap_length(dimension) * gaps), gaps + 1), 1)
}

/// The dash with index `segment`: it starts every dash-plus-gap pixels and is cut
/// off at the end of the dimension; across, it lies on the centred stroke.
pub open spec fn dash_rect(glyph: DashedGlyph, cell: Size, light_stroke: i32, segment: int) -> Bounds {
    let (dimension, cross_dimension) = dashed_dimensions(glyph.spec_axis(), cell);
    let gap = gap_length(dimension);
    let dash = dash_length(dimension, glyph.spec_gaps() as int);
    let cross = centered_band(cross_dimension, Some(glyph.spec_stroke()), light_stroke as int);
    let start = min(segment * (dash + gap), dimension);
    let end = min(start + dash, dimension);
    match glyph.spec_axis() {
        Axis::Horizontal => corners(start, cross.0, end, cross.1),
        Axis::Vertical => corners(cross.0, start, cross.1, end),
    }
}

/// The nonempty dashes with index below `count`, in order.
pub open spec fn dashes_before(glyph: DashedGlyph, cell: Size, light_stroke: i32, count: int) -> Seq<
    Bounds,
>
    decreases count,
{
    if count <= 0 {
        Seq::empty()
    } else {
        push_if(
            dashes_before(glyph, cell, light_stroke, count - 1),
            true,
            dash_rect(glyph, cell, light_stroke, count - 1),
        )
    }
}

/// The rectangles of a dashed glyph: one dash more than it has gaps, empty ones left out.
pub open spec fn dashed_rects(glyph: DashedGlyph, cell: Size, light_stroke: i32) -> Seq<Bounds> {
    dashes_before(glyph, cell, light_stroke, glyph.spec_gaps() + 1)
}

/// The inputs on which the dashed rectangles are computed without overflow.
pub open spec fn dashed_fits(glyph: DashedGlyph, cell: Size, light_stroke: i32) -> bool {
    let (dimension, cross_dimension) = dashed_dimensions(glyph.spec_axis(), cell);
    centered_fits(cross_dimension as i32, Some(glyph.spec_stroke()), light_stroke)
}

/// With one to three gaps, a dash and the dashes before it end within the dimension
/// (or within seven pixels of the start, for a short or negative dimension).
#[verifier::rlimit(50)]
proof fn lemma_dash_arith(dimension: int, gaps: int, segment: int)
    requires
        1 <= gaps <= 3,
        0 <= segment <= gaps,
        i32::MIN <= dimension <= i32::MAX,
    ensures
        1 <= gap_length(dimension),
        1 <= dash_length(dimension, gaps),
        gap_length(dimension) * gaps <= max(dimension, 3),
        dash_length(dimension, gaps) + gap_length(dimension) <= max(dimension, 7),
        segment * (dash_length(dimension, gaps) + gap_length(dimension)) + dash_length(dimension, gaps)
            <= max(dimension, 7),
{
    let gap = gap_length(dimension);
    let dash = dash_length(dimension, gaps);
    if dimension >= 8 {
        assert(8 * gap <= dimension && gap >= 1) by (nonlinear_arith)
            requires
                gap == max(dimension / 8, 1),
                dimension >= 8,
        ;
    } else {
        assert(gap == 1);
    }
    assert(gap * gaps <= 3 * gap) by (nonlinear_arith)
        requires
            gaps <= 3,
            gap >= 1,
    ;
    let remaining = dimension - gap * gaps;
    let quotient = div_toward_zero(saturate(remaining), gaps + 1);
    if quotient >= 1 {
        assert(remaining >= 0 && saturate(remaining) == remaining) by {
            if remaining < 0 {
                assert(saturate(remaining) <= 0);
                assert(-((-saturate(remaining)) / (gaps + 1)) <= 0) by (nonlinear_arith)
                    requires
                        saturate(remaining) <= 0,
                        gaps + 1 >= 2,
                ;
            }
        }
        assert(dash == remaining / (gaps + 1));
        assert((gaps + 1) * dash <= remaining) by (nonlinear_arith)
            requires
                dash == remaining / (gaps + 1),
                remaining >= 0,
                gaps + 1 >= 2,
        ;
        assert(segment * (dash + gap) + dash <= (gaps + 1) * dash + gap * gaps) by (nonlinear_arith)
            requires
                0 <= segment <= gaps,
                dash >= 0,
                gap >= 0,
        ;
        assert(dash + gap <= (gaps + 1) * dash + gap * gaps) by (nonlinear_arith)
            requires
                1 <= gaps,
                dash >= 0,
                gap >= 0,
        ;
    } else {
        assert(dash == 1);
        if dimension >= 8 {
            assert(remaining >= gaps + 1);
            assert(remaining / (gaps + 1) >= 1) by (nonlinear_arith)
                requires
                    remaining >= gaps + 1,
                    gaps + 1 >= 2,
            ;
        }
        assert(gap == 1);
        assert(segment * (dash + gap) + dash <= 7) by (nonlinear_arith)
            requires
                0 <= segment <= 3,
                dash == 1,
                gap == 1,
        ;
    }
}

/// `a - b`, clamped to the range of `i32`.
fn saturating_sub(a: i32, b: i32) -> (r: i32)
    ensures
        r == saturate(a - b),
{
    let difference = a as i64 - b as i64;
    if difference < i32::MIN as i64 {
        i32::MIN
    } else if difference > i32::MAX as i64 {
        i32::MAX
    } else {
        difference as i32
    }
}

/// The rectangles that paint a dashed glyph.
#[verifier::rlimit(50)]
pub fn for_each_dashed_rect(glyph: DashedGlyph, cell: Size, light_stroke: i32) -> (r: Vec<Bounds>)
    requires
        dashed_fits(glyph, cell, light_stroke),
    ensures
        r@ == dashed_rects(glyph, cell, light_stroke),
{
    let gaps = glyph.gaps();
    let axis = glyph.axis();
    let (dimension, cross_dimension) = match axis {
        Axis::Horizontal => (cell.width, cell.height),
        Axis::Vertical => (cell.height, cell.width),
    };
    let eighth = dimension / 8;
    let gap_length: i32 = if eighth > 1 {
        eighth
    } else {
        1
    };
    proof {
        lemma_dash_arith(dimension as int, gaps as int, 0);
    }
    let remaining = saturating_sub(dimension, gap_length * gaps);
    let share = remaining / (gaps + 1);
    let dash_length: i32 = if share > 1 {
        share
    } else {
        1
    };
    let cross_bounds = centered_stroke_bounds(cross_dimension, Some(glyph.stroke()), light_stroke);
    let mut rects: Vec<Bounds> = Vec::new();
    let mut segment: i32 = 0;
    while segment <= gaps
        invariant
            0 <= segment <= gaps + 1,
            1 <= gaps <= 3,
            gaps == glyph.spec_gaps(),
            axis == glyph.spec_axis(),
            (dimension as int, cross_dimension as int) == dashed_dimensions(axis, cell),
            gap_length == crate::dashed::gap_length(dimension as int),
            dash_length == crate::dashed::dash_length(dimension as int, gaps as int),
            cross_bounds.0 == centered_band(
                cross_dimension as int,
                Some(glyph.spec_stroke()),
                light_stroke as int,
            ).0,
            cross_bounds.1 == centered_band(
                cross_dimension as int,
                Some(glyph.spec_stroke()),
                light_stroke as int,
            ).1,
            rects@ == dashes_before(glyph, cell, light_stroke, segment as int),
        decreases gaps + 1 - segment,
    {
        proof {
            lemma_dash_arith(dimension as int, gaps as int, segment as int);
            assert(segment * (dash_length + gap_length) >= 0) by (nonlinear_arith)
                requires
                    segment >= 0,
                    dash_length >= 1,
                    gap_length >= 1,
            ;
        }
        let offset = segment * (dash_length + gap_length);
        let start = if offset < dimension {
            offset
        } else {
            dimension
        };
        let end = if start + dash_length < dimension {
            start + dash_length
        } else {
            dimension
        };
        if !(start >= end || cross_bounds.0 >= cross_bounds.1) {
            let bounds = match axis {
                Axis::Horizontal => Bounds::from_corners(
                    point(start, cross_bounds.0),
                    point(end, cross_bounds.1),
                ),
                Axis::Vertical => Bounds::from_corners(
                    point(cross_bounds.0, start),
                    point(cross_bounds.1, end),
                ),
            };
            rects.push(bounds);
        }
        segment = segment + 1;
    }
    rects
}

} // verus!

verus! {

/// Where the dash with index `segment` starts along the dimension.
pub open spec fn dash_start(glyph: DashedGlyph, cell: Size, segment: int) -> int {
    let (dimension, cross_dimension) = dashed_dimensions(glyph.spec_axis(), cell);
    min(
        segment * (dash_length(dimension, glyph.spec_gaps() as int) + gap_length(dimension)),
        dimension,
    )
}

/// Where a rectangle ends along the axis of a dashed glyph.
pub open spec fn along_end(axis: Axis, rect: Bounds) -> int {
    match axis {
        Axis::Horizontal => rect.right() as int,
        Axis::Vertical => rect.bottom() as int,
    }
}

/// Where a rectangle starts along the axis of a dashed glyph.
pub open spec fn along_start(axis: Axis, rect: Bounds) -> int {
    match axis {
        Axis::Horizontal => rect.left() as int,
        Axis::Vertical => rect.top() as int,
    }
}

proof fn lemma_dashes_before(glyph: DashedGlyph, cell: Size, light_stroke: i32, count: int)
    requires
        1 <= glyph.spec_gaps() <= 3,
        0 <= count <= glyph.spec_gaps() + 1,
        cell.width >= 0,
        cell.height >= 0,
        light_stroke >= 1,
        dashed_fits(glyph, cell, light_stroke),
    ensures
        all_within(dashes_before(glyph, cell, light_stroke, count), cell),
        pairwise_disjoint(dashes_before(glyph, cell, light_stroke, count)),
        forall|i: int|
            0 <= i < dashes_before(glyph, cell, light_stroke, count).len() ==> along_end(
                glyph.spec_axis(),
                #[trigger] dashes_before(glyph, cell, light_stroke, count)[i],
            ) <= dash_start(glyph, cell, count),
    decreases count,
{
    let (dimension, cross_dimension) = dashed_dimensions(glyph.spec_axis(), cell);
    let gaps = glyph.spec_gaps() as int;
    let gap = gap_length(dimension);
    let dash = dash_length(dimension, gaps);
    if count > 0 {
        let previous = dashes_before(glyph, cell, light_stroke, count - 1);
        lemma_dashes_before(glyph, cell, light_stroke, count - 1);
        lemma_dash_arith(dimension, gaps, count - 1);
        let k = count - 1;
        assert(k * (dash + gap) + dash + gap == count * (dash + gap)) by (nonlinear_arith)
            requires
                k == count - 1,
        ;
        assert(0 <= k * (dash + gap)) by (nonlinear_arith)
            requires
                k >= 0,
                dash >= 1,
                gap >= 1,
        ;
        let rect = dash_rect(glyph, cell, light_stroke, k);
        let cross = centered_band(cross_dimension, Some(glyph.spec_stroke()), light_stroke as int);
        assert(0 <= cross.0 && cross.1 <= cross_dimension);
        assert(along_start(glyph.spec_axis(), rect) == dash_start(glyph, cell, k));
        assert(along_end(glyph.spec_axis(), rect) <= dash_start(glyph, cell, count));
        if !rect.is_empty() {
            assert forall|i: int| 0 <= i < previous.len() implies (#[trigger] previous[i]).disjoint(
                rect,
            ) by {
                assert(along_end(glyph.spec_axis(), previous[i]) <= dash_start(glyph, cell, k));
            }
            crate::geometry::lemma_push_disjoint(previous, rect);
            let pushed = previous.push(rect);
            assert forall|i: int| 0 <= i < pushed.len() implies !(#[trigger] pushed[i]).is_empty()
                && pushed[i].within(cell) by {
                if i < previous.len() {
                    assert(pushed[i] == previous[i]);
                }
            }
            assert forall|i: int| 0 <= i < pushed.len() implies along_end(
                glyph.spec_axis(),
                #[trigger] pushed[i],
            ) <= dash_start(glyph, cell, count) by {
                if i < previous.len() {
                    assert(pushed[i] == previous[i]);
                }
            }
        }
    }
}

/// Law: in a cell of nonnegative size with a light stroke of at least one pixel, the
/// dashes of a dashed glyph are nonempty, lie within the cell and never overlap.
pub proof fn lemma_dashed_rects_disjoint_within(glyph: DashedGlyph, cell: Size, light_stroke: i32)
    requires
        1 <= glyph.spec_gaps() <= 3,
        cell.width >= 0,
        cell.height >= 0,
        light_stroke >= 1,
        dashed_fits(glyph, cell, light_stroke),
    ensures
        all_within(dashed_rects(glyph, cell, light_stroke), cell),
        pairwise_disjoint(dashed_rects(glyph, cell, light_stroke)),
{
    lemma_dashes_before(glyph, cell, light_stroke, glyph.spec_gaps() + 1);
}

} // verus!

verus! {

proof fn lemma_dash_count(glyph: DashedGlyph, cell: Size, light_stroke: i32, count: int)
    requires
        1 <= glyph.spec_gaps() <= 3,
        0 <= count <= glyph.spec_gaps() + 1,
        dashed_dimensions(glyph.spec_axis(), cell).0 >= 8,
        dashed_dimensions(glyph.spec_axis(), cell).1 >= 1,
        light_stroke >= 1,
    ensures
        dashes_before(glyph, cell, light_stroke, count).len() == count,
    decreases count,
{
    if count > 0 {
        lemma_dash_count(glyph, cell, light_stroke, count - 1);
        let (dimension, cross_dimension) = dashed_dimensions(glyph.spec_axis(), cell);
        let gaps = glyph.spec_gaps() as int;
        lemma_dash_arith(dimension, gaps, count - 1);
        let k = count - 1;
        let gap = gap_length(dimension);
        let dash = dash_length(dimension, gaps);
        assert(0 <= k * (dash + gap)) by (nonlinear_arith)
            requires
                k >= 0,
                dash >= 1,
                gap >= 1,
        ;
    }
}

/// Law: where the dimension along the glyph is at least eight pixels and the one
/// across it at least one, and the light stroke at least one pixel, a dashed glyph
/// paints exactly one dash more than it has gaps.
pub proof fn lemma_dashed_rects_count(glyph: DashedGlyph, cell: Size, light_stroke: i32)
    requires
        1 <= glyph.spec_gaps() <= 3,
        dashed_dimensions(glyph.spec_axis(), cell).0 >= 8,
        dashed_dimensions(glyph.spec_axis(), cell).1 >= 1,
        light_stroke >= 1,
    ensures
        dashed_rects(glyph, cell, light_stroke).len() == glyph.spec_gaps() + 1,
{
    lemma_dash_count(glyph, cell, light_stroke, glyph.spec_gaps() + 1);
}

} // verus!

verus! {

/// Law: in a cell of positive size with a light stroke of at least one pixel, a dashed
/// glyph paints at least its first dash.
pub proof fn lemma_dashed_rects_nonempty(glyph: DashedGlyph, cell: Size, light_stroke: i32)
    requires
        1 <= glyph.spec_gaps() <= 3,
        cell.width >= 1,
        cell.height >= 1,
        light_stroke >= 1,
    ensures
        dashed_rects(glyph, cell, light_stroke).len() >= 1,
{
    let (dimension, cross_dimension) = dashed_dimensions(glyph.spec_axis(), cell);
    lemma_dash_arith(dimension, glyph.spec_gaps() as int, 0);
    lemma_dashes_length(glyph, cell, light_stroke, glyph.spec_gaps() + 1);
}

proof fn lemma_dashes_length(glyph: DashedGlyph, cell: Size, light_stroke: i32, count: int)
    requires
        1 <= count,
        1 <= glyph.spec_gaps() <= 3,
        cell.width >= 1,
        cell.height >= 1,
        light_stroke >= 1,
    ensures
        dashes_before(glyph, cell, light_stroke, count).len() >= 1,
    decreases count,
{
    if count > 1 {
        lemma_dashes_length(glyph, cell, light_stroke, count - 1);
    } else {
        let (dimension, cross_dimension) = dashed_dimensions(glyph.spec_axis(), cell);
        lemma_dash_arith(dimension, glyph.spec_gaps() as int, 0);
        assert(!dash_rect(glyph, cell, light_stroke, 0).is_empty());
    }
}

} // verus!

verus! {

/// Where a rectangle lies across the axis of a dashed glyph.
pub open spec fn across(axis: Axis, rect: Bounds) -> (int, int) {
    match axis {
        Axis::Horizontal => (rect.top() as int, rect.bottom() as int),
        Axis::Vertical => (rect.left() as int, rect.right() as int),
    }
}

proof fn lemma_dashes_on_stroke(glyph: DashedGlyph, cell: Size, light_stroke: i32, count: int)
    requires
        cell.width >= 0,
        cell.height >= 0,
        light_stroke >= 1,
    ensures
        forall|i: int|
            0 <= i < dashes_before(glyph, cell, light_stroke, count).len() ==> across(
                glyph.spec_axis(),
                #[trigger] dashes_before(glyph, cell, light_stroke, count)[i],
            ) == centered_band(
                dashed_dimensions(glyph.spec_axis(), cell).1,
                Some(glyph.spec_stroke()),
                light_stroke as int,
            ),
    decreases count,
{
    if count > 0 {
        lemma_dashes_on_stroke(glyph, cell, light_stroke, count - 1);
        let previous = dashes_before(glyph, cell, light_stroke, count - 1);
        let now = dashes_before(glyph, cell, light_stroke, count);
        let (dimension, cross_dimension) = dashed_dimensions(glyph.spec_axis(), cell);
        let cross = centered_band(cross_dimension, Some(glyph.spec_stroke()), light_stroke as int);
        assert(0 <= cross.0 && cross.1 <= cross_dimension);
        assert forall|i: int| 0 <= i < now.len() implies across(glyph.spec_axis(), #[trigger] now[i])
            == cross by {
            if i < previous.len() {
                assert(now[i] == previous[i]);
            }
        }
    }
}

/// Law: every dash of a dashed glyph lies across its axis exactly on the centred band of
/// the glyph's own stroke, so a heavy dash is twice as thick as a light one (as far as
/// the cell allows).
pub proof fn lemma_dashed_rects_on_stroke(glyph: DashedGlyph, cell: Size, light_stroke: i32)
    requires
        cell.width >= 0,
        cell.height >= 0,
        light_stroke >= 1,
    ensures
        forall|i: int|
            0 <= i < dashed_rects(glyph, cell, light_stroke).len() ==> {
                let rect = #[trigger] dashed_rects(glyph, cell, light_stroke)[i];
                let cross_dimension = dashed_dimensions(glyph.spec_axis(), cell).1;
                let band = centered_band(cross_dimension, Some(glyph.spec_stroke()), light_stroke as int);
                &&& across(glyph.spec_axis(), rect) == band
                &&& band.1 - band.0 == min(
                    if glyph.spec_stroke() == Stroke::Heavy {
                        2 * light_stroke
                    } else {
                        light_stroke as int
                    },
                    cross_dimension,
                )
            },
{
    lemma_dashes_on_stroke(glyph, cell, light_stroke, glyph.spec_gaps() + 1);
}

} // verus!

verus! {

proof fn lemma_dashes_are_dash_rects(glyph: DashedGlyph, cell: Size, light_stroke: i32, count: int)
    requires
        1 <= glyph.spec_gaps() <= 3,
        0 <= count <= glyph.spec_gaps() + 1,
        dashed_dimensions(glyph.spec_axis(), cell).0 >= 8,
        dashed_dimensions(glyph.spec_axis(), cell).1 >= 1,
        light_stroke >= 1,
    ensures
        dashes_before(glyph, cell, light_stroke, count).len() == count,
        forall|i: int|
            0 <= i < count ==> #[trigger] dashes_before(glyph, cell, light_stroke, count)[i]
                == dash_rect(glyph, cell, light_stroke, i),
    decreases count,
{
    if count > 0 {
        lemma_dashes_are_dash_rects(glyph, cell, light_stroke, count - 1);
        lemma_dash_count(glyph, cell, light_stroke, count);
        let previous = dashes_before(glyph, cell, light_stroke, count - 1);
        let now = dashes_before(glyph, cell, light_stroke, count);
        assert forall|i: int| 0 <= i < count implies #[trigger] now[i] == dash_rect(
            glyph,
            cell,
            light_stroke,
            i,
        ) by {
            if i < count - 1 {
                assert(now[i] == previous[i]);
            }
        }
    }
}

/// Law: where the dimension along a dashed glyph is at least eight pixels and the one
/// across it at least one, the glyph paints one dash more than it has gaps, all of one
/// length: the first starts at the cell's edge, each next one an eighth of the
/// dimension after the end of the one before, and the dashes are as long as they can be
/// with all of them and their gaps fitting in the dimension.
#[verifier::rlimit(50)]
pub proof fn lemma_dashed_rects_spacing(glyph: DashedGlyph, cell: Size, light_stroke: i32)
    requires
        1 <= glyph.spec_gaps() <= 3,
        dashed_dimensions(glyph.spec_axis(), cell).0 >= 8,
        dashed_dimensions(glyph.spec_axis(), cell).1 >= 1,
        light_stroke >= 1,
    ensures
        ({
            let rects = dashed_rects(glyph, cell, light_stroke);
            let axis = glyph.spec_axis();
            let dimension = dashed_dimensions(axis, cell).0;
            let gaps = glyph.spec_gaps() as int;
            let gap = dimension / 8;
            let dash = along_end(axis, rects[0]);
            &&& rects.len() == gaps + 1
            &&& along_start(axis, rects[0]) == 0
            &&& dash >= 1
            &&& (gaps + 1) * dash + gaps * gap <= dimension
            &&& dimension < (gaps + 1) * (dash + 1) + gaps * gap
            &&& forall|i: int|
                0 <= i < rects.len() ==> along_end(axis, #[trigger] rects[i]) - along_start(
                    axis,
                    rects[i],
                ) == dash
            &&& forall|i: int|
                0 <= i < rects.len() - 1 ==> along_start(axis, #[trigger] rects[i + 1])
                    - along_end(axis, rects[i]) == gap
        }),
{
    let rects = dashed_rects(glyph, cell, light_stroke);
    let axis = glyph.spec_axis();
    let (dimension, cross_dimension) = dashed_dimensions(axis, cell);
    let gaps = glyph.spec_gaps() as int;
    let gap = gap_length(dimension);
    let dash = dash_length(dimension, gaps);
    lemma_dashes_are_dash_rects(glyph, cell, light_stroke, gaps + 1);
    lemma_dash_arith(dimension, gaps, 0);
    assert(gap == dimension / 8 && dimension / 8 >= 1);
    assert(8 * gap <= dimension) by (nonlinear_arith)
        requires
            gap == dimension / 8,
            dimension >= 8,
    ;
    let remaining = dimension - gap * gaps;
    assert(gap * gaps <= 3 * gap) by (nonlinear_arith)
        requires
            gaps <= 3,
            gap >= 1,
    ;
    assert(remaining >= 5);
    assert(saturate(remaining) == remaining);
    assert(remaining / (gaps + 1) >= 1) by (nonlinear_arith)
        requires
            remaining >= gaps + 1,
            gaps + 1 >= 2,
    ;
    assert(dash == remaining / (gaps + 1));
    assert((gaps + 1) * dash <= remaining && remaining < (gaps + 1) * (dash + 1))
        by (nonlinear_arith)
        requires
            dash == remaining / (gaps + 1),
            remaining >= 0,
            gaps + 1 >= 2,
    ;
    assert(gaps * gap == gap * gaps) by (nonlinear_arith);
    assert forall|i: int| 0 <= i <= gaps implies {
        &&& along_start(axis, #[trigger] dash_rect(glyph, cell, light_stroke, i)) == i * (dash + gap)
        &&& along_end(axis, dash_rect(glyph, cell, light_stroke, i)) == i * (dash + gap) + dash
    } by {
        lemma_dash_arith(dimension, gaps, i);
        assert(0 <= i * (dash + gap)) by (nonlinear_arith)
            requires
                i >= 0,
                dash >= 1,
                gap >= 1,
        ;
        let cross = centered_band(cross_dimension, Some(glyph.spec_stroke()), light_stroke as int);
        assert(0 <= cross.0 && cross.1 <= cross_dimension);
    }
    assert(along_end(axis, rects[0]) == dash) by {
        assert(rects[0] == dash_rect(glyph, cell, light_stroke, 0));
    }
    assert(along_start(axis, rects[0]) == 0) by {
        assert(rects[0] == dash_rect(glyph, cell, light_stroke, 0));
    }
    assert forall|i: int| 0 <= i < rects.len() implies along_end(axis, #[trigger] rects[i])
        - along_start(axis, rects[i]) == dash by {
        assert(rects[i] == dash_rect(glyph, cell, light_stroke, i));
    }
    assert forall|i: int| 0 <= i < rects.len() - 1 implies along_start(axis, #[trigger] rects[i + 1])
        - along_end(axis, rects[i]) == gap by {
        assert(rects[i] == dash_rect(glyph, cell, light_stroke, i));
        assert(rects[i + 1] == dash_rect(glyph, cell, light_stroke, i + 1));
        assert((i + 1) * (dash + gap) == i * (dash + gap) + dash + gap) by (nonlinear_arith);
    }
}

} // verus!
