use vstd::prelude::*;

verus! {

/// A position in device pixels, relative to the top-left corner of a cell.
#[derive(Clone, Copy, Debug, PartialEq, Eq, Structural)]
pub struct Point {
    pub x: i32,
    pub y: i32,
}

#[verifier::allow_in_spec]
pub fn point(x: i32, y: i32) -> Point
    returns
        (Point { x, y }),
{
    Point { x, y }
}

/// The size of a cell in device pixels.
#[derive(Clone, Copy, Debug, PartialEq, Eq, Structural)]
pub struct Size {
    pub width: i32,
    pub height: i32,
}

/// An axis-aligned rectangle of device pixels, given by its top-left corner and its
/// bottom-right corner (exclusive).
#[derive(Clone, Copy, Debug, PartialEq, Eq, Structural)]
pub struct Bounds {
    pub top_left: Point,
    pub bottom_right: Point,
}

impl Bounds {
    #[verifier::allow_in_spec]
    pub fn from_corners(top_left: Point, bottom_right: Point) -> Bounds
        returns
            (Bounds { top_left, bottom_right }),
    {
        Bounds { top_left, bottom_right }
    }

    #[verifier::allow_in_spec]
    pub fn left(&self) -> i32
        returns
            self.top_left.x,
    {
        self.top_left.x
    }

    #[verifier::allow_in_spec]
    pub fn top(&self) -> i32
        returns
            self.top_left.y,
    {
        self.top_left.y
    }

    #[verifier::allow_in_spec]
    pub fn right(&self) -> i32
        returns
            self.bottom_right.x,
    {
        self.bottom_right.x
    }

    #[verifier::allow_in_spec]
    pub fn bottom(&self) -> i32
        returns
            self.bottom_right.y,
    {
        self.bottom_right.y
    }

    /// The rectangle covers no pixel.
    #[verifier::allow_in_spec]
    pub fn is_empty(&self) -> bool
        returns
            self.bottom_right.x <= self.top_left.x || self.bottom_right.y <= self.top_left.y,
    {
        self.bottom_right.x <= self.top_left.x || self.bottom_right.y <= self.top_left.y
    }

    /// The largest rectangle inside both rectangles (empty where they do not meet).
    pub fn intersect(&self, other: &Bounds) -> (r: Bounds)
        ensures
            r.left() == max(self.left() as int, other.left() as int),
            r.top() == max(self.top() as int, other.top() as int),
            r.right() == min(self.right() as int, other.right() as int),
            r.bottom() == min(self.bottom() as int, other.bottom() as int),
            forall|x: int, y: int| #[trigger]
                r.contains(x, y) <==> self.contains(x, y) && other.contains(x, y),
    {
        let left = if self.top_left.x < other.top_left.x {
            other.top_left.x
        } else {
            self.top_left.x
        };
        let top = if self.top_left.y < other.top_left.y {
            other.top_left.y
        } else {
            self.top_left.y
        };
        let right = if self.bottom_right.x < other.bottom_right.x {
            self.bottom_right.x
        } else {
            other.bottom_right.x
        };
        let bottom = if self.bottom_right.y < other.bottom_right.y {
            self.bottom_right.y
        } else {
            other.bottom_right.y
        };
        Bounds::from_corners(point(left, top), point(right, bottom))
    }

    /// The pixel whose top-left corner is at (x, y) lies in the rectangle.
    pub open spec fn contains(self, x: int, y: int) -> bool {
        &&& self.left() <= x < self.right()
        &&& self.top() <= y < self.bottom()
    }

    /// The rectangle lies within a cell of the given size.
    pub open spec fn within(self, cell: Size) -> bool {
        &&& 0 <= self.left()
        &&& 0 <= self.top()
        &&& self.right() <= cell.width
        &&& self.bottom() <= cell.height
    }

    /// The two rectangles share no pixel.
    pub open spec fn disjoint(self, other: Bounds) -> bool {
        ||| self.is_empty()
        ||| other.is_empty()
        ||| self.right() <= other.left()
        ||| other.right() <= self.left()
        ||| self.bottom() <= other.top()
        ||| other.bottom() <= self.top()
    }

    /// The two rectangles touch along an edge of positive length.
    pub open spec fn adjacent(self, other: Bounds) -> bool {
        ||| (self.right() == other.left() || other.right() == self.left()) && max(self.top() as int, other.top() as int) < min(self.bottom() as int, other.bottom() as int)
        ||| (self.bottom() == other.top() || other.bottom() == self.top()) && max(self.left() as int, other.left() as int) < min(self.right() as int, other.right() as int)
    }
}

pub open spec fn min(a: int, b: int) -> int {
    if a < b {
        a
    } else {
        b
    }
}

pub open spec fn max(a: int, b: int) -> int {
    if a < b {
        b
    } else {
        a
    }
}

/// The rectangles of a sequence are pairwise disjoint.
pub open spec fn pairwise_disjoint(rects: Seq<Bounds>) -> bool {
    forall|i: int, j: int|
        0 <= i < rects.len() && 0 <= j < rects.len() && i != j ==> #[trigger] rects[i].disjoint(
            #[trigger] rects[j],
        )
}

/// Every rectangle of a sequence is nonempty and lies within the cell.
pub open spec fn all_within(rects: Seq<Bounds>, cell: Size) -> bool {
    forall|i: int| 0 <= i < rects.len() ==> !(#[trigger] rects[i]).is_empty() && rects[i].within(cell)
}

/// Some rectangle of the sequence covers the pixel.
pub open spec fn covers(rects: Seq<Bounds>, x: int, y: int) -> bool {
    exists|i: int| 0 <= i < rects.len() && (#[trigger] rects[i]).contains(x, y)
}

} // verus!

verus! {

/// Appending a rectangle disjoint from all earlier ones keeps a sequence pairwise disjoint.
pub proof fn lemma_push_disjoint(rects: Seq<Bounds>, rect: Bounds)
    requires
        pairwise_disjoint(rects),
        forall|i: int| 0 <= i < rects.len() ==> (#[trigger] rects[i]).disjoint(rect),
    ensures
        pairwise_disjoint(rects.push(rect)),
{
    let pushed = rects.push(rect);
    assert forall|i: int, j: int|
        0 <= i < pushed.len() && 0 <= j < pushed.len() && i != j implies #[trigger] pushed[i].disjoint(
        #[trigger] pushed[j],
    ) by {
        if i < rects.len() && j < rects.len() {
            assert(rects[i].disjoint(rects[j]));
        } else if i < rects.len() {
            assert(rects[i].disjoint(rect));
        } else {
            assert(rects[j].disjoint(rect));
        }
    }
}

} // verus!

verus! {

/// Every other rectangle of the sequence touches the rectangle at `hub` along an edge.
pub open spec fn is_hub(rects: Seq<Bounds>, hub: int) -> bool {
    &&& 0 <= hub < rects.len()
    &&& forall|i: int| 0 <= i < rects.len() && i != hub ==> (#[trigger] rects[i]).adjacent(rects[hub])
}

/// The rectangles form one connected shape around a hub rectangle.
pub open spec fn connected_around_hub(rects: Seq<Bounds>) -> bool {
    exists|hub: int| is_hub(rects, hub)
}

} // verus!
