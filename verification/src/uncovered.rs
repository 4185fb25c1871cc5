use vstd::prelude::*;
use crate::geometry::{Bounds, point, pairwise_disjoint, covers};

verus! {

/// The rectangle spanned by two corners given as integers.
pub open spec fn rect_of(left: i32, top: i32, right: i32, bottom: i32) -> Bounds {
    Bounds::from_corners(point(left, top), point(right, bottom))
}

/// The parts of `rect` around its intersection with another rectangle: the rows
/// above, the rows below, and left and right of it in its rows.
pub open spec fn pieces_around(rect: Bounds, intersection: Bounds) -> (Bounds, Bounds, Bounds, Bounds) {
    (
        rect_of(rect.left(), rect.top(), rect.right(), intersection.top()),
        rect_of(rect.left(), intersection.bottom(), rect.right(), rect.bottom()),
        rect_of(rect.left(), intersection.top(), intersection.left(), intersection.bottom()),
        rect_of(intersection.right(), intersection.top(), rect.right(), intersection.bottom()),
    )
}

/// The intersection of two rectangles, as `Bounds::intersect` computes it.
pub open spec fn intersection_of(a: Bounds, b: Bounds) -> Bounds {
    rect_of(
        if a.left() < b.left() { b.left() } else { a.left() },
        if a.top() < b.top() { b.top() } else { a.top() },
        if a.right() < b.right() { a.right() } else { b.right() },
        if a.bottom() < b.bottom() { a.bottom() } else { b.bottom() },
    )
}

/// The rectangles that paint what `rect` covers and no rectangle of `covered` does:
/// each covering rectangle that meets it cuts it into the nonempty pieces around the
/// intersection, which the remaining covering rectangles cut in turn.
pub open spec fn uncovered(rect: Bounds, covered: Seq<Option<Bounds>>) -> Seq<Bounds>
    decreases covered.len(), 0int,
{
    if covered.len() == 0 {
        seq![rect]
    } else {
        let remaining = covered.drop_first();
        match covered[0] {
            None => uncovered(rect, remaining),
            Some(covering) => {
                let intersection = intersection_of(rect, covering);
                if intersection.is_empty() {
                    uncovered(rect, remaining)
                } else {
                    let (p0, p1, p2, p3) = pieces_around(rect, intersection);
                    uncovered_piece(p0, remaining) + uncovered_piece(p1, remaining)
                        + uncovered_piece(p2, remaining) + uncovered_piece(p3, remaining)
                }
            },
        }
    }
}

/// What `uncovered` leaves of a piece, or nothing for an empty piece.
pub open spec fn uncovered_piece(piece: Bounds, covered: Seq<Option<Bounds>>) -> Seq<Bounds>
    decreases covered.len(), 1int,
{
    if piece.is_empty() {
        Seq::empty()
    } else {
        uncovered(piece, covered)
    }
}

#[verifier::rlimit(50)]
fn emit_uncovered_from(rect: Bounds, covered: &[Option<Bounds>], from: usize, out: &mut Vec<Bounds>)
    requires
        from <= covered@.len(),
    ensures
        final(out)@ == old(out)@ + uncovered(rect, covered@.subrange(from as int, covered@.len() as int)),
    decreases covered@.len() - from,
{
    let ghost rest = covered@.subrange(from as int, covered@.len() as int);
    if from == covered.len() {
        out.push(rect);
        proof {
            assert(rest.len() == 0);
            assert(final(out)@ =~= old(out)@ + seq![rect]);
        }
        return;
    }
    proof {
        assert(rest.drop_first() =~= covered@.subrange(from + 1, covered@.len() as int));
        assert(rest[0] == covered@[from as int]);
    }
    let covering = match covered[from] {
        None => {
            emit_uncovered_from(rect, covered, from + 1, out);
            return;
        },
        Some(covering) => covering,
    };
    let intersection = rect.intersect(&covering);
    if intersection.is_empty() {
        emit_uncovered_from(rect, covered, from + 1, out);
        return;
    }
    let ghost before = out@;
    let pieces = [
        (rect.left(), rect.top(), rect.right(), intersection.top()),
        (rect.left(), intersection.bottom(), rect.right(), rect.bottom()),
        (rect.left(), intersection.top(), intersection.left(), intersection.bottom()),
        (intersection.right(), intersection.top(), rect.right(), intersection.bottom()),
    ];
    let ghost remaining = covered@.subrange(from + 1, covered@.len() as int);
    let ghost p = pieces_around(rect, intersection);
    let ghost parts = seq![p.0, p.1, p.2, p.3];
    let mut index: usize = 0;
    while index < 4
        invariant
            0 <= index <= 4,
            from < covered@.len(),
            from + 1 <= covered.len(),
            remaining == covered@.subrange(from + 1, covered@.len() as int),
            forall|i: int|
                0 <= i < 4 ==> rect_of(pieces@[i].0, pieces@[i].1, pieces@[i].2, pieces@[i].3)
                    == #[trigger] parts[i],
            parts.len() == 4,
            out@ == before + uncovered_pieces(parts, remaining, index as int),
        decreases 4 - index,
    {
        let (left, top, right, bottom) = pieces[index];
        if left < right && top < bottom {
            emit_uncovered_from(
                Bounds::from_corners(point(left, top), point(right, bottom)),
                covered,
                from + 1,
                out,
            );
        }
        proof {
            assert(uncovered_pieces(parts, remaining, index + 1) == uncovered_pieces(
                parts,
                remaining,
                index as int,
            ) + uncovered_piece(parts[index as int], remaining));
        }
        index = index + 1;
    }
    proof {
        assert(uncovered_pieces(parts, remaining, 4) =~= uncovered_piece(p.0, remaining)
            + uncovered_piece(p.1, remaining) + uncovered_piece(p.2, remaining) + uncovered_piece(
            p.3,
            remaining,
        )) by {
            assert(uncovered_pieces(parts, remaining, 0) =~= Seq::<Bounds>::empty());
            assert(uncovered_pieces(parts, remaining, 1) =~= uncovered_piece(p.0, remaining));
            assert(uncovered_pieces(parts, remaining, 2) =~= uncovered_piece(p.0, remaining)
                + uncovered_piece(p.1, remaining));
            assert(uncovered_pieces(parts, remaining, 3) =~= uncovered_piece(p.0, remaining)
                + uncovered_piece(p.1, remaining) + uncovered_piece(p.2, remaining));
        }
    }
}

/// What `uncovered_piece` leaves of the first `count` pieces, one after another.
pub open spec fn uncovered_pieces(pieces: Seq<Bounds>, covered: Seq<Option<Bounds>>, count: int) -> Seq<
    Bounds,
>
    decreases count,
{
    if count <= 0 {
        Seq::empty()
    } else {
        uncovered_pieces(pieces, covered, count - 1) + uncovered_piece(pieces[count - 1], covered)
    }
}

/// Appends to `out` the rectangles that paint what `rect` covers and no rectangle of
/// `covered` does, so that translucent colors are not blended twice where rectangles
/// overlap.
pub fn emit_uncovered_rect(rect: Bounds, covered: &[Option<Bounds>], out: &mut Vec<Bounds>)
    ensures
        final(out)@ == old(out)@ + uncovered(rect, covered@),
{
    proof {
        assert(covered@.subrange(0, covered@.len() as int) =~= covered@);
    }
    emit_uncovered_from(rect, covered, 0, out);
}

} // verus!

verus! {

/// Some rectangle of `covered` covers the pixel.
pub open spec fn covered_at(covered: Seq<Option<Bounds>>, x: int, y: int) -> bool {
    exists|i: int|
        0 <= i < covered.len() && (#[trigger] covered[i]) is Some && covered[i]->0.contains(x, y)
}

/// `inner` lies inside `outer`.
pub open spec fn inside(inner: Bounds, outer: Bounds) -> bool {
    &&& outer.left() <= inner.left()
    &&& outer.top() <= inner.top()
    &&& inner.right() <= outer.right()
    &&& inner.bottom() <= outer.bottom()
}

/// What a sequence of rectangles left of `rect` satisfies: nonempty pieces inside
/// `rect`, pairwise disjoint, disjoint from every covering rectangle, painting exactly
/// the pixels of `rect` that no covering rectangle covers.
pub open spec fn paints_uncovered(out: Seq<Bounds>, rect: Bounds, covered: Seq<Option<Bounds>>) -> bool {
    &&& forall|i: int| 0 <= i < out.len() ==> !(#[trigger] out[i]).is_empty() && inside(out[i], rect)
    &&& pairwise_disjoint(out)
    &&& forall|i: int, j: int|
        0 <= i < out.len() && 0 <= j < covered.len() && covered[j] is Some ==> (#[trigger] out[i]).disjoint(
            (#[trigger] covered[j])->0,
        )
    &&& forall|x: int, y: int| #[trigger]
        covers(out, x, y) <==> rect.contains(x, y) && !covered_at(covered, x, y)
}

/// Two pairwise disjoint sequences, disjoint from each other, concatenate into a
/// pairwise disjoint sequence that covers what either covers.
pub proof fn lemma_concat(a: Seq<Bounds>, b: Seq<Bounds>)
    requires
        pairwise_disjoint(a),
        pairwise_disjoint(b),
        forall|i: int, j: int| 0 <= i < a.len() && 0 <= j < b.len() ==> (#[trigger] a[i]).disjoint(#[trigger] b[j]),
    ensures
        pairwise_disjoint(a + b),
        forall|x: int, y: int| #[trigger] covers(a + b, x, y) <==> covers(a, x, y) || covers(b, x, y),
{
    let ab = a + b;
    assert forall|i: int, j: int|
        0 <= i < ab.len() && 0 <= j < ab.len() && i != j implies #[trigger] ab[i].disjoint(#[trigger] ab[j]) by {
        if i < a.len() && j < a.len() {
            assert(a[i].disjoint(a[j]));
        } else if i < a.len() {
            assert(a[i].disjoint(b[j - a.len()]));
        } else if j < a.len() {
            assert(a[j].disjoint(b[i - a.len()]));
        } else {
            assert(b[i - a.len()].disjoint(b[j - a.len()]));
        }
    }
    assert forall|x: int, y: int| #[trigger] covers(a + b, x, y) <==> covers(a, x, y) || covers(b, x, y) by {
        if covers(ab, x, y) {
            let i = choose|i: int| 0 <= i < ab.len() && (#[trigger] ab[i]).contains(x, y);
            if i < a.len() {
                assert(a[i].contains(x, y));
            } else {
                assert(b[i - a.len()].contains(x, y));
            }
        }
        if covers(a, x, y) {
            let i = choose|i: int| 0 <= i < a.len() && (#[trigger] a[i]).contains(x, y);
            assert(ab[i].contains(x, y));
        }
        if covers(b, x, y) {
            let i = choose|i: int| 0 <= i < b.len() && (#[trigger] b[i]).contains(x, y);
            assert(ab[i + a.len()].contains(x, y));
        }
    }
}

} // verus!

verus! {

proof fn lemma_inside_disjoint(a: Bounds, p: Bounds, b: Bounds, q: Bounds)
    requires
        inside(a, p),
        inside(b, q),
        p.disjoint(q),
        !a.is_empty(),
        !b.is_empty(),
    ensures
        a.disjoint(b),
{
}

proof fn lemma_covered_at_split(covered: Seq<Option<Bounds>>)
    requires
        covered.len() > 0,
    ensures
        forall|x: int, y: int| #[trigger]
            covered_at(covered, x, y) <==> (covered[0] is Some && covered[0]->0.contains(x, y))
                || covered_at(covered.drop_first(), x, y),
{
    let rest = covered.drop_first();
    assert forall|x: int, y: int| #[trigger]
        covered_at(covered, x, y) <==> (covered[0] is Some && covered[0]->0.contains(x, y))
            || covered_at(rest, x, y) by {
        if covered_at(covered, x, y) {
            let i = choose|i: int|
                0 <= i < covered.len() && (#[trigger] covered[i]) is Some && covered[i]->0.contains(x, y);
            if i > 0 {
                assert(rest[i - 1] == covered[i]);
            }
        }
        if covered_at(rest, x, y) {
            let i = choose|i: int|
                0 <= i < rest.len() && (#[trigger] rest[i]) is Some && rest[i]->0.contains(x, y);
            assert(covered[i + 1] == rest[i]);
        }
    }
}

/// What the rectangles left of a covered rectangle satisfy holds too of the rectangle
/// against the first covering rectangle it is disjoint from.
proof fn lemma_extend_past_disjoint(out: Seq<Bounds>, rect: Bounds, covered: Seq<Option<Bounds>>)
    requires
        covered.len() > 0,
        paints_uncovered(out, rect, covered.drop_first()),
        covered[0] is Some ==> forall|x: int, y: int|
            !(rect.contains(x, y) && covered[0]->0.contains(x, y)),
        covered[0] is Some ==> forall|i: int| 0 <= i < out.len() ==> (#[trigger] out[i]).disjoint(covered[0]->0),
    ensures
        paints_uncovered(out, rect, covered),
{
    let rest = covered.drop_first();
    lemma_covered_at_split(covered);
    assert forall|i: int, j: int|
        0 <= i < out.len() && 0 <= j < covered.len() && covered[j] is Some implies (#[trigger] out[i]).disjoint(
        (#[trigger] covered[j])->0,
    ) by {
        if j > 0 {
            assert(covered[j] == rest[j - 1]);
        }
    }
}

/// Law: the rectangles that `emit_uncovered_rect` paints for a nonempty rectangle are
/// nonempty pieces of it, pairwise disjoint and disjoint from every covering
/// rectangle, and they paint exactly the pixels of the rectangle that no covering
/// rectangle covers.
#[verifier::rlimit(50)]
pub proof fn lemma_uncovered(rect: Bounds, covered: Seq<Option<Bounds>>)
    requires
        !rect.is_empty(),
    ensures
        paints_uncovered(uncovered(rect, covered), rect, covered),
    decreases covered.len(), 0int,
{
    let out = uncovered(rect, covered);
    if covered.len() == 0 {
        assert forall|x: int, y: int| #[trigger] covers(out, x, y) <==> rect.contains(x, y) && !covered_at(covered, x, y) by {
            if rect.contains(x, y) {
                assert(out[0].contains(x, y));
            }
        }
    } else {
        let rest = covered.drop_first();
        match covered[0] {
            None => {
                lemma_uncovered(rect, rest);
                lemma_extend_past_disjoint(out, rect, covered);
            },
            Some(covering) => {
                let intersection = intersection_of(rect, covering);
                if intersection.is_empty() {
                    lemma_uncovered(rect, rest);
                    lemma_extend_past_disjoint(out, rect, covered);
                } else {
                    lemma_pieces(rect, covering, rest);
                    lemma_covered_at_split(covered);
                    assert forall|i: int, j: int|
                        0 <= i < out.len() && 0 <= j < covered.len() && covered[j] is Some implies (#[trigger] out[i]).disjoint(
                        (#[trigger] covered[j])->0,
                    ) by {
                        if j > 0 {
                            assert(covered[j] == rest[j - 1]);
                        }
                    }
                }
            },
        }
    }
}

proof fn lemma_piece(piece: Bounds, covered: Seq<Option<Bounds>>)
    ensures
        paints_uncovered(uncovered_piece(piece, covered), piece, covered),
    decreases covered.len(), 1int,
{
    if !piece.is_empty() {
        lemma_uncovered(piece, covered);
    }
}

/// Cutting a rectangle around a nonempty intersection with a covering rectangle, and
/// the pieces by the remaining covering rectangles, paints what neither covers.
#[verifier::rlimit(50)]
proof fn lemma_pieces(rect: Bounds, covering: Bounds, rest: Seq<Option<Bounds>>)
    requires
        !rect.is_empty(),
        !intersection_of(rect, covering).is_empty(),
    ensures
        ({
            let (p0, p1, p2, p3) = pieces_around(rect, intersection_of(rect, covering));
            let out = uncovered_piece(p0, rest) + uncovered_piece(p1, rest) + uncovered_piece(p2, rest)
                + uncovered_piece(p3, rest);
            &&& forall|i: int| 0 <= i < out.len() ==> !(#[trigger] out[i]).is_empty() && inside(out[i], rect)
            &&& pairwise_disjoint(out)
            &&& forall|i: int| 0 <= i < out.len() ==> (#[trigger] out[i]).disjoint(covering)
            &&& forall|i: int, j: int|
                0 <= i < out.len() && 0 <= j < rest.len() && rest[j] is Some ==> (#[trigger] out[i]).disjoint(
                    (#[trigger] rest[j])->0,
                )
            &&& forall|x: int, y: int| #[trigger]
                covers(out, x, y) <==> rect.contains(x, y) && !covering.contains(x, y) && !covered_at(rest, x, y)
        }),
    decreases rest.len(), 2int,
{
    let (p0, p1, p2, p3) = pieces_around(rect, intersection_of(rect, covering));
    let a0 = uncovered_piece(p0, rest);
    let a1 = uncovered_piece(p1, rest);
    let a2 = uncovered_piece(p2, rest);
    let a3 = uncovered_piece(p3, rest);
    lemma_piece(p0, rest);
    lemma_piece(p1, rest);
    lemma_piece(p2, rest);
    lemma_piece(p3, rest);
    assert(p0.disjoint(p1) && p0.disjoint(p2) && p0.disjoint(p3) && p1.disjoint(p2) && p1.disjoint(p3)
        && p2.disjoint(p3));
    assert(p0.disjoint(covering) && p1.disjoint(covering) && p2.disjoint(covering) && p3.disjoint(covering));
    assert forall|i: int, j: int| 0 <= i < a0.len() && 0 <= j < a1.len() implies (#[trigger] a0[i]).disjoint(
        #[trigger] a1[j],
    ) by {
        lemma_inside_disjoint(a0[i], p0, a1[j], p1);
    }
    lemma_concat(a0, a1);
    let b01 = a0 + a1;
    assert forall|i: int| 0 <= i < b01.len() implies !(#[trigger] b01[i]).is_empty() && (inside(b01[i], p0) || inside(b01[i], p1)) by {
        if i >= a0.len() {
            assert(b01[i] == a1[i - a0.len()]);
        }
    }
    assert forall|i: int, j: int| 0 <= i < b01.len() && 0 <= j < a2.len() implies (#[trigger] b01[i]).disjoint(
        #[trigger] a2[j],
    ) by {
        if inside(b01[i], p0) {
            lemma_inside_disjoint(b01[i], p0, a2[j], p2);
        } else {
            lemma_inside_disjoint(b01[i], p1, a2[j], p2);
        }
    }
    lemma_concat(b01, a2);
    let b012 = b01 + a2;
    assert forall|i: int| 0 <= i < b012.len() implies !(#[trigger] b012[i]).is_empty() && (inside(b012[i], p0) || inside(b012[i], p1) || inside(b012[i], p2)) by {
        if i >= b01.len() {
            assert(b012[i] == a2[i - b01.len()]);
        } else {
            assert(b012[i] == b01[i]);
        }
    }
    assert forall|i: int, j: int| 0 <= i < b012.len() && 0 <= j < a3.len() implies (#[trigger] b012[i]).disjoint(
        #[trigger] a3[j],
    ) by {
        if inside(b012[i], p0) {
            lemma_inside_disjoint(b012[i], p0, a3[j], p3);
        } else if inside(b012[i], p1) {
            lemma_inside_disjoint(b012[i], p1, a3[j], p3);
        } else {
            lemma_inside_disjoint(b012[i], p2, a3[j], p3);
        }
    }
    lemma_concat(b012, a3);
    let out = b012 + a3;
    assert forall|i: int| 0 <= i < out.len() implies !(#[trigger] out[i]).is_empty() && (inside(out[i], p0) || inside(out[i], p1) || inside(out[i], p2) || inside(out[i], p3)) by {
        if i >= b012.len() {
            assert(out[i] == a3[i - b012.len()]);
        } else {
            assert(out[i] == b012[i]);
        }
    }
    assert forall|i: int| 0 <= i < out.len() implies !(#[trigger] out[i]).is_empty() && inside(out[i], rect) && out[i].disjoint(covering) by {
        if inside(out[i], p0) {
            lemma_inside_disjoint(out[i], p0, covering, covering);
        } else if inside(out[i], p1) {
            lemma_inside_disjoint(out[i], p1, covering, covering);
        } else if inside(out[i], p2) {
            lemma_inside_disjoint(out[i], p2, covering, covering);
        } else {
            lemma_inside_disjoint(out[i], p3, covering, covering);
        }
    }
}

} // verus!
