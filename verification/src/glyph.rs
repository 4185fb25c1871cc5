use vstd::prelude::*;

verus! {

/// The weight of one arm of a box-drawing character.
#[derive(Clone, Copy, Debug, PartialEq, Eq, Structural)]
pub enum Stroke {
    Light,
    Heavy,
}

/// A character drawn from straight arms that meet in the middle of the cell.
/// Each arm is absent or has its own weight; `rounded` marks the four arc corners.
#[derive(Clone, Copy, Debug, PartialEq, Eq, Structural)]
pub struct LineGlyph {
    pub left: Option<Stroke>,
    pub right: Option<Stroke>,
    pub up: Option<Stroke>,
    pub down: Option<Stroke>,
    pub rounded: bool,
}

impl Default for LineGlyph {
    fn default() -> (r: Self)
        ensures
            r == (LineGlyph { left: None, right: None, up: None, down: None, rounded: false }),
    {
        LineGlyph { left: None, right: None, up: None, down: None, rounded: false }
    }
}

#[derive(Clone, Copy, Debug, PartialEq, Eq, Structural)]
pub enum Axis {
    Horizontal,
    Vertical,
}

/// A dashed line along one axis, broken by `gaps` gaps (between one and three).
#[derive(Clone, Copy, Debug, PartialEq, Eq, Structural)]
pub struct DashedGlyph {
    axis: Axis,
    gaps: i32,
    stroke: Stroke,
}

impl DashedGlyph {
    #[verifier::type_invariant]
    spec fn gaps_in_range(self) -> bool {
        1 <= self.gaps <= 3
    }

    pub closed spec fn spec_axis(self) -> Axis {
        self.axis
    }

    pub closed spec fn spec_gaps(self) -> i32 {
        self.gaps
    }

    pub closed spec fn spec_stroke(self) -> Stroke {
        self.stroke
    }

    /// The dashed glyph with the given axis, gaps and weight.
    pub closed spec fn spec_new(axis: Axis, gaps: i32, stroke: Stroke) -> DashedGlyph {
        DashedGlyph { axis, gaps, stroke }
    }

    /// A dashed glyph is determined by its axis, gaps and weight.
    pub broadcast proof fn lemma_spec_new_fields(axis: Axis, gaps: i32, stroke: Stroke)
        ensures
            #[trigger] DashedGlyph::spec_new(axis, gaps, stroke).spec_axis() == axis,
            DashedGlyph::spec_new(axis, gaps, stroke).spec_gaps() == gaps,
            DashedGlyph::spec_new(axis, gaps, stroke).spec_stroke() == stroke,
    {
    }

    pub fn axis(&self) -> (r: Axis)
        ensures
            r == self.spec_axis(),
    {
        self.axis
    }

    pub fn gaps(&self) -> (r: i32)
        ensures
            r == self.spec_gaps(),
            1 <= r <= 3,
    {
        proof {
            use_type_invariant(self);
        }
        self.gaps
    }

    pub fn stroke(&self) -> (r: Stroke)
        ensures
            r == self.spec_stroke(),
    {
        self.stroke
    }
}

#[derive(Clone, Copy, Debug, PartialEq, Eq, Structural)]
pub struct DiagonalGlyph {
    pub rising: bool,
    pub falling: bool,
}

/// The four families of procedurally painted box-drawing characters.
#[derive(Clone, Copy, Debug, PartialEq, Eq, Structural)]
pub enum BoxDrawingGlyph {
    Line(LineGlyph),
    Dashed(DashedGlyph),
    Double(char),
    Diagonal(DiagonalGlyph),
}

pub open spec fn weight(code: int) -> Option<Stroke> {
    if code == 1 {
        Some(Stroke::Light)
    } else if code == 2 {
        Some(Stroke::Heavy)
    } else {
        None
    }
}

/// Arms given as codes: 0 for none, 1 for light, 2 for heavy.
pub open spec fn arms(left: int, right: int, up: int, down: int) -> (
    Option<Stroke>,
    Option<Stroke>,
    Option<Stroke>,
    Option<Stroke>,
) {
    (weight(left), weight(right), weight(up), weight(down))
}

/// The code points painted as straight arms: U+2500..U+2503, U+250C..U+254B,
/// U+256D..U+2570 and U+2574..U+257F.
pub open spec fn is_line_code(cp: u32) -> bool {
    ||| 0x2500 <= cp <= 0x2503
    ||| 0x250C <= cp <= 0x254B
    ||| 0x256D <= cp <= 0x2570
    ||| 0x2574 <= cp <= 0x257F
}

/// The arms (left, right, up, down) of each straight box-drawing character,
/// row by row as the Unicode chart names them.
pub open spec fn line_arms(cp: u32) -> (
    Option<Stroke>,
    Option<Stroke>,
    Option<Stroke>,
    Option<Stroke>,
) {
    match cp {
        0x2500 => arms(1, 1, 0, 0),
        0x2501 => arms(2, 2, 0, 0),
        0x2502 => arms(0, 0, 1, 1),
        0x2503 => arms(0, 0, 2, 2),
        0x250C => arms(0, 1, 0, 1),
        0x250D => arms(0, 2, 0, 1),
        0x250E => arms(0, 1, 0, 2),
        0x250F => arms(0, 2, 0, 2),
        0x2510 => arms(1, 0, 0, 1),
        0x2511 => arms(2, 0, 0, 1),
        0x2512 => arms(1, 0, 0, 2),
        0x2513 => arms(2, 0, 0, 2),
        0x2514 => arms(0, 1, 1, 0),
        0x2515 => arms(0, 2, 1, 0),
        0x2516 => arms(0, 1, 2, 0),
        0x2517 => arms(0, 2, 2, 0),
        0x2518 => arms(1, 0, 1, 0),
        0x2519 => arms(2, 0, 1, 0),
        0x251A => arms(1, 0, 2, 0),
        0x251B => arms(2, 0, 2, 0),
        0x251C => arms(0, 1, 1, 1),
        0x251D => arms(0, 2, 1, 1),
        0x251E => arms(0, 1, 2, 1),
        0x251F => arms(0, 1, 1, 2),
        0x2520 => arms(0, 1, 2, 2),
        0x2521 => arms(0, 2, 2, 1),
        0x2522 => arms(0, 2, 1, 2),
        0x2523 => arms(0, 2, 2, 2),
        0x2524 => arms(1, 0, 1, 1),
        0x2525 => arms(2, 0, 1, 1),
        0x2526 => arms(1, 0, 2, 1),
        0x2527 => arms(1, 0, 1, 2),
        0x2528 => arms(1, 0, 2, 2),
        0x2529 => arms(2, 0, 2, 1),
        0x252A => arms(2, 0, 1, 2),
        0x252B => arms(2, 0, 2, 2),
        0x252C => arms(1, 1, 0, 1),
        0x252D => arms(2, 1, 0, 1),
        0x252E => arms(1, 2, 0, 1),
        0x252F => arms(2, 2, 0, 1),
        0x2530 => arms(1, 1, 0, 2),
        0x2531 => arms(2, 1, 0, 2),
        0x2532 => arms(1, 2, 0, 2),
        0x2533 => arms(2, 2, 0, 2),
        0x2534 => arms(1, 1, 1, 0),
        0x2535 => arms(2, 1, 1, 0),
        0x2536 => arms(1, 2, 1, 0),
        0x2537 => arms(2, 2, 1, 0),
        0x2538 => arms(1, 1, 2, 0),
        0x2539 => arms(2, 1, 2, 0),
        0x253A => arms(1, 2, 2, 0),
        0x253B => arms(2, 2, 2, 0),
        0x253C => arms(1, 1, 1, 1),
        0x253D => arms(2, 1, 1, 1),
        0x253E => arms(1, 2, 1, 1),
        0x253F => arms(2, 2, 1, 1),
        0x2540 => arms(1, 1, 2, 1),
        0x2541 => arms(1, 1, 1, 2),
        0x2542 => arms(1, 1, 2, 2),
        0x2543 => arms(2, 1, 2, 1),
        0x2544 => arms(1, 2, 2, 1),
        0x2545 => arms(2, 1, 1, 2),
        0x2546 => arms(1, 2, 1, 2),
        0x2547 => arms(2, 2, 2, 1),
        0x2548 => arms(2, 2, 1, 2),
        0x2549 => arms(2, 1, 2, 2),
        0x254A => arms(1, 2, 2, 2),
        0x254B => arms(2, 2, 2, 2),
        0x256D => arms(0, 1, 0, 1),
        0x256E => arms(1, 0, 0, 1),
        0x256F => arms(1, 0, 1, 0),
        0x2570 => arms(0, 1, 1, 0),
        0x2574 => arms(1, 0, 0, 0),
        0x2575 => arms(0, 0, 1, 0),
        0x2576 => arms(0, 1, 0, 0),
        0x2577 => arms(0, 0, 0, 1),
        0x2578 => arms(2, 0, 0, 0),
        0x2579 => arms(0, 0, 2, 0),
        0x257A => arms(0, 2, 0, 0),
        0x257B => arms(0, 0, 0, 2),
        0x257C => arms(1, 2, 0, 0),
        0x257D => arms(0, 0, 1, 2),
        0x257E => arms(2, 1, 0, 0),
        0x257F => arms(0, 0, 2, 1),
        _ => arms(0, 0, 0, 0),
    }
}

pub open spec fn spec_line_glyph_for(ch: char) -> Option<LineGlyph> {
    let cp = ch as u32;
    if is_line_code(cp) {
        let (left, right, up, down) = line_arms(cp);
        Some(LineGlyph { left, right, up, down, rounded: 0x256D <= cp <= 0x2570 })
    } else {
        None
    }
}

/// The dashed characters: axis, number of gaps and weight.
pub open spec fn dashed_row(cp: u32) -> Option<(Axis, i32, Stroke)> {
    match cp {
        0x2504 => Some((Axis::Horizontal, 2i32, Stroke::Light)),
        0x2505 => Some((Axis::Horizontal, 2i32, Stroke::Heavy)),
        0x2506 => Some((Axis::Vertical, 2i32, Stroke::Light)),
        0x2507 => Some((Axis::Vertical, 2i32, Stroke::Heavy)),
        0x2508 => Some((Axis::Horizontal, 3i32, Stroke::Light)),
        0x2509 => Some((Axis::Horizontal, 3i32, Stroke::Heavy)),
        0x250A => Some((Axis::Vertical, 3i32, Stroke::Light)),
        0x250B => Some((Axis::Vertical, 3i32, Stroke::Heavy)),
        0x254C => Some((Axis::Horizontal, 1i32, Stroke::Light)),
        0x254D => Some((Axis::Horizontal, 1i32, Stroke::Heavy)),
        0x254E => Some((Axis::Vertical, 1i32, Stroke::Light)),
        0x254F => Some((Axis::Vertical, 1i32, Stroke::Heavy)),
        _ => None,
    }
}

/// The glyph painted for a character: `None` for characters that are not box drawing.
pub open spec fn spec_glyph_for(ch: char) -> Option<BoxDrawingGlyph> {
    let cp = ch as u32;
    if dashed_row(cp) is Some {
        let (axis, gaps, stroke) = dashed_row(cp)->0;
        Some(BoxDrawingGlyph::Dashed(DashedGlyph::spec_new(axis, gaps, stroke)))
    } else if 0x2550 <= cp <= 0x256C {
        Some(BoxDrawingGlyph::Double(ch))
    } else if cp == 0x2571 {
        Some(BoxDrawingGlyph::Diagonal(DiagonalGlyph { rising: true, falling: false }))
    } else if cp == 0x2572 {
        Some(BoxDrawingGlyph::Diagonal(DiagonalGlyph { rising: false, falling: true }))
    } else if cp == 0x2573 {
        Some(BoxDrawingGlyph::Diagonal(DiagonalGlyph { rising: true, falling: true }))
    } else {
        match spec_line_glyph_for(ch) {
            Some(line) => Some(BoxDrawingGlyph::Line(line)),
            None => None,
        }
    }
}

/// The straight-arm glyph of a character, or `None` where the character is not
/// one of the straight or rounded box-drawing characters.
#[verifier::rlimit(50)]
pub fn line_glyph_for(ch: char) -> (r: Option<LineGlyph>)
    ensures
        r == spec_line_glyph_for(ch),
{
    let cp = ch as u32;
    if !((0x2500 <= cp && cp <= 0x2503) || (0x250C <= cp && cp <= 0x254B) || (0x256D <= cp
        && cp <= 0x2570) || (0x2574 <= cp && cp <= 0x257F)) {
        return None;
    }
    let left = match cp {
        0x2500 | 0x2510 | 0x2512 | 0x2518 | 0x251A | 0x2524
        | 0x2526 | 0x2527 | 0x2528 | 0x252C | 0x252E | 0x2530
        | 0x2532 | 0x2534 | 0x2536 | 0x2538 | 0x253A | 0x253C
        | 0x253E | 0x2540 | 0x2541 | 0x2542 | 0x2544 | 0x2546
        | 0x254A | 0x256E | 0x256F | 0x2574 | 0x257C => Some(Stroke::Light),
        0x2501 | 0x2511 | 0x2513 | 0x2519 | 0x251B | 0x2525
        | 0x2529 | 0x252A | 0x252B | 0x252D | 0x252F | 0x2531
        | 0x2533 | 0x2535 | 0x2537 | 0x2539 | 0x253B | 0x253D
        | 0x253F | 0x2543 | 0x2545 | 0x2547 | 0x2548 | 0x2549
        | 0x254B | 0x2578 | 0x257E => Some(Stroke::Heavy),
        _ => None,
    };

    let right = match cp {
        0x2500 | 0x250C | 0x250E | 0x2514 | 0x2516 | 0x251C
        | 0x251E | 0x251F | 0x2520 | 0x252C | 0x252D | 0x2530
        | 0x2531 | 0x2534 | 0x2535 | 0x2538 | 0x2539 | 0x253C
        | 0x253D | 0x2540 | 0x2541 | 0x2542 | 0x2543 | 0x2545
        | 0x2549 | 0x256D | 0x2570 | 0x2576 | 0x257E => Some(Stroke::Light),
        0x2501 | 0x250D | 0x250F | 0x2515 | 0x2517 | 0x251D
        | 0x2521 | 0x2522 | 0x2523 | 0x252E | 0x252F | 0x2532
        | 0x2533 | 0x2536 | 0x2537 | 0x253A | 0x253B | 0x253E
        | 0x253F | 0x2544 | 0x2546 | 0x2547 | 0x2548 | 0x254A
        | 0x254B | 0x257A | 0x257C => Some(Stroke::Heavy),
        _ => None,
    };

    let up = match cp {
        0x2502 | 0x2514 | 0x2515 | 0x2518 | 0x2519 | 0x251C
        | 0x251D | 0x251F | 0x2522 | 0x2524 | 0x2525 | 0x2527
        | 0x252A | 0x2534 | 0x2535 | 0x2536 | 0x2537 | 0x253C
        | 0x253D | 0x253E | 0x253F | 0x2541 | 0x2545 | 0x2546
        | 0x2548 | 0x256F | 0x2570 | 0x2575 | 0x257D => Some(Stroke::Light),
        0x2503 | 0x2516 | 0x2517 | 0x251A | 0x251B | 0x251E
        | 0x2520 | 0x2521 | 0x2523 | 0x2526 | 0x2528 | 0x2529
        | 0x252B | 0x2538 | 0x2539 | 0x253A | 0x253B | 0x2540
        | 0x2542 | 0x2543 | 0x2544 | 0x2547 | 0x2549 | 0x254A
        | 0x254B | 0x2579 | 0x257F => Some(Stroke::Heavy),
        _ => None,
    };

    let down = match cp {
        0x2502 | 0x250C | 0x250D | 0x2510 | 0x2511 | 0x251C
        | 0x251D | 0x251E | 0x2521 | 0x2524 | 0x2525 | 0x2526
        | 0x2529 | 0x252C | 0x252D | 0x252E | 0x252F | 0x253C
        | 0x253D | 0x253E | 0x253F | 0x2540 | 0x2543 | 0x2544
        | 0x2547 | 0x256D | 0x256E | 0x2577 | 0x257F => Some(Stroke::Light),
        0x2503 | 0x250E | 0x250F | 0x2512 | 0x2513 | 0x251F
        | 0x2520 | 0x2522 | 0x2523 | 0x2527 | 0x2528 | 0x252A
        | 0x252B | 0x2530 | 0x2531 | 0x2532 | 0x2533 | 0x2541
        | 0x2542 | 0x2545 | 0x2546 | 0x2548 | 0x2549 | 0x254A
        | 0x254B | 0x257B | 0x257D => Some(Stroke::Heavy),
        _ => None,
    };

    Some(LineGlyph { left, right, up, down, rounded: 0x256D <= cp && cp <= 0x2570 })
}

fn dashed_for(cp: u32) -> (r: Option<DashedGlyph>)
    ensures
        r matches Some(g) ==> dashed_row(cp) matches Some((axis, gaps, stroke)) && g
            == DashedGlyph::spec_new(axis, gaps, stroke),
        r is None <==> dashed_row(cp) is None,
{
    let (axis, gaps, stroke) = match cp {
        0x2504 => (Axis::Horizontal, 2, Stroke::Light),
        0x2505 => (Axis::Horizontal, 2, Stroke::Heavy),
        0x2506 => (Axis::Vertical, 2, Stroke::Light),
        0x2507 => (Axis::Vertical, 2, Stroke::Heavy),
        0x2508 => (Axis::Horizontal, 3, Stroke::Light),
        0x2509 => (Axis::Horizontal, 3, Stroke::Heavy),
        0x250A => (Axis::Vertical, 3, Stroke::Light),
        0x250B => (Axis::Vertical, 3, Stroke::Heavy),
        0x254C => (Axis::Horizontal, 1, Stroke::Light),
        0x254D => (Axis::Horizontal, 1, Stroke::Heavy),
        0x254E => (Axis::Vertical, 1, Stroke::Light),
        0x254F => (Axis::Vertical, 1, Stroke::Heavy),
        _ => return None,
    };
    Some(DashedGlyph { axis, gaps, stroke })
}

/// The glyph painted for a character, or `None` for a character outside the
/// box-drawing block U+2500..U+257F.
#[verifier::rlimit(50)]
pub fn glyph_for(ch: char) -> (r: Option<BoxDrawingGlyph>)
    ensures
        r == spec_glyph_for(ch),
        r is Some <==> 0x2500 <= ch as u32 <= 0x257F,
{
    let cp = ch as u32;
    if let Some(dashed) = dashed_for(cp) {
        return Some(BoxDrawingGlyph::Dashed(dashed));
    }
    let glyph = if 0x2550 <= cp && cp <= 0x256C {
        BoxDrawingGlyph::Double(ch)
    } else if cp == 0x2571 {
        BoxDrawingGlyph::Diagonal(DiagonalGlyph { rising: true, falling: false })
    } else if cp == 0x2572 {
        BoxDrawingGlyph::Diagonal(DiagonalGlyph { rising: false, falling: true })
    } else if cp == 0x2573 {
        BoxDrawingGlyph::Diagonal(DiagonalGlyph { rising: true, falling: true })
    } else {
        match line_glyph_for(ch) {
            Some(line) => BoxDrawingGlyph::Line(line),
            None => return None,
        }
    };
    Some(glyph)
}

} // verus!

verus! {

/// Law: every straight box-drawing character has at least one arm, and each of the
/// four rounded characters has exactly one horizontal and one vertical arm, both light.
#[verifier::rlimit(50)]
pub proof fn lemma_line_glyph_arms(ch: char)
    ensures
        spec_line_glyph_for(ch) matches Some(g) ==> {
            &&& g.left is Some || g.right is Some || g.up is Some || g.down is Some
            &&& g.rounded ==> {
                &&& (g.left is Some) != (g.right is Some)
                &&& (g.up is Some) != (g.down is Some)
                &&& g.left != Some(Stroke::Heavy) && g.right != Some(Stroke::Heavy)
                &&& g.up != Some(Stroke::Heavy) && g.down != Some(Stroke::Heavy)
            }
        },
{
}

} // verus!

verus! {

/// Law: exactly the characters of the box-drawing block U+2500..U+257F have a glyph;
/// a dashed glyph has one to three gaps, and a double-line glyph is one of U+2550..U+256C.
#[verifier::rlimit(50)]
pub proof fn lemma_glyph_for_defined(ch: char)
    ensures
        spec_glyph_for(ch) is Some <==> 0x2500 <= ch as u32 <= 0x257F,
        spec_glyph_for(ch) matches Some(BoxDrawingGlyph::Dashed(dashed)) ==> 1 <= dashed.spec_gaps() <= 3,
        spec_glyph_for(ch) matches Some(BoxDrawingGlyph::Double(c)) ==> c == ch && 0x2550 <= ch as u32
            <= 0x256C,
        spec_glyph_for(ch) matches Some(BoxDrawingGlyph::Line(line)) ==> spec_line_glyph_for(ch) == Some(
            line,
        ),
        spec_glyph_for(ch) matches Some(BoxDrawingGlyph::Diagonal(diagonal)) ==> diagonal.rising
            || diagonal.falling,
{
    broadcast use DashedGlyph::lemma_spec_new_fields;
}

} // verus!

verus! {

/// The code of an arm's weight: 0 for none, 1 for light, 2 for heavy.
pub open spec fn weight_code(stroke: Option<Stroke>) -> int {
    match stroke {
        None => 0,
        Some(Stroke::Light) => 1,
        Some(Stroke::Heavy) => 2,
    }
}

/// The weights (left, right, up, down; 0 none, 1 light, 2 heavy) that the Unicode
/// character name of each straight box-drawing character gives its arms. "ARC" names
/// are light; "HORIZONTAL" is left and right, "VERTICAL" up and down.
pub open spec fn named_arm_weights(cp: u32) -> (int, int, int, int) {
    match cp {
        0x2500 => (1, 1, 0, 0), // LIGHT HORIZONTAL
        0x2501 => (2, 2, 0, 0), // HEAVY HORIZONTAL
        0x2502 => (0, 0, 1, 1), // LIGHT VERTICAL
        0x2503 => (0, 0, 2, 2), // HEAVY VERTICAL
        0x250C => (0, 1, 0, 1), // LIGHT DOWN AND RIGHT
        0x250D => (0, 2, 0, 1), // DOWN LIGHT AND RIGHT HEAVY
        0x250E => (0, 1, 0, 2), // DOWN HEAVY AND RIGHT LIGHT
        0x250F => (0, 2, 0, 2), // HEAVY DOWN AND RIGHT
        0x2510 => (1, 0, 0, 1), // LIGHT DOWN AND LEFT
        0x2511 => (2, 0, 0, 1), // DOWN LIGHT AND LEFT HEAVY
        0x2512 => (1, 0, 0, 2), // DOWN HEAVY AND LEFT LIGHT
        0x2513 => (2, 0, 0, 2), // HEAVY DOWN AND LEFT
        0x2514 => (0, 1, 1, 0), // LIGHT UP AND RIGHT
        0x2515 => (0, 2, 1, 0), // UP LIGHT AND RIGHT HEAVY
        0x2516 => (0, 1, 2, 0), // UP HEAVY AND RIGHT LIGHT
        0x2517 => (0, 2, 2, 0), // HEAVY UP AND RIGHT
        0x2518 => (1, 0, 1, 0), // LIGHT UP AND LEFT
        0x2519 => (2, 0, 1, 0), // UP LIGHT AND LEFT HEAVY
        0x251A => (1, 0, 2, 0), // UP HEAVY AND LEFT LIGHT
        0x251B => (2, 0, 2, 0), // HEAVY UP AND LEFT
        0x251C => (0, 1, 1, 1), // LIGHT VERTICAL AND RIGHT
        0x251D => (0, 2, 1, 1), // VERTICAL LIGHT AND RIGHT HEAVY
        0x251E => (0, 1, 2, 1), // UP HEAVY AND RIGHT DOWN LIGHT
        0x251F => (0, 1, 1, 2), // DOWN HEAVY AND RIGHT UP LIGHT
        0x2520 => (0, 1, 2, 2), // VERTICAL HEAVY AND RIGHT LIGHT
        0x2521 => (0, 2, 2, 1), // DOWN LIGHT AND RIGHT UP HEAVY
        0x2522 => (0, 2, 1, 2), // UP LIGHT AND RIGHT DOWN HEAVY
        0x2523 => (0, 2, 2, 2), // HEAVY VERTICAL AND RIGHT
        0x2524 => (1, 0, 1, 1), // LIGHT VERTICAL AND LEFT
        0x2525 => (2, 0, 1, 1), // VERTICAL LIGHT AND LEFT HEAVY
        0x2526 => (1, 0, 2, 1), // UP HEAVY AND LEFT DOWN LIGHT
        0x2527 => (1, 0, 1, 2), // DOWN HEAVY AND LEFT UP LIGHT
        0x2528 => (1, 0, 2, 2), // VERTICAL HEAVY AND LEFT LIGHT
        0x2529 => (2, 0, 2, 1), // DOWN LIGHT AND LEFT UP HEAVY
        0x252A => (2, 0, 1, 2), // UP LIGHT AND LEFT DOWN HEAVY
        0x252B => (2, 0, 2, 2), // HEAVY VERTICAL AND LEFT
        0x252C => (1, 1, 0, 1), // LIGHT DOWN AND HORIZONTAL
        0x252D => (2, 1, 0, 1), // LEFT HEAVY AND RIGHT DOWN LIGHT
        0x252E => (1, 2, 0, 1), // RIGHT HEAVY AND LEFT DOWN LIGHT
        0x252F => (2, 2, 0, 1), // DOWN LIGHT AND HORIZONTAL HEAVY
        0x2530 => (1, 1, 0, 2), // DOWN HEAVY AND HORIZONTAL LIGHT
        0x2531 => (2, 1, 0, 2), // RIGHT LIGHT AND LEFT DOWN HEAVY
        0x2532 => (1, 2, 0, 2), // LEFT LIGHT AND RIGHT DOWN HEAVY
        0x2533 => (2, 2, 0, 2), // HEAVY DOWN AND HORIZONTAL
        0x2534 => (1, 1, 1, 0), // LIGHT UP AND HORIZONTAL
        0x2535 => (2, 1, 1, 0), // LEFT HEAVY AND RIGHT UP LIGHT
        0x2536 => (1, 2, 1, 0), // RIGHT HEAVY AND LEFT UP LIGHT
        0x2537 => (2, 2, 1, 0), // UP LIGHT AND HORIZONTAL HEAVY
        0x2538 => (1, 1, 2, 0), // UP HEAVY AND HORIZONTAL LIGHT
        0x2539 => (2, 1, 2, 0), // RIGHT LIGHT AND LEFT UP HEAVY
        0x253A => (1, 2, 2, 0), // LEFT LIGHT AND RIGHT UP HEAVY
        0x253B => (2, 2, 2, 0), // HEAVY UP AND HORIZONTAL
        0x253C => (1, 1, 1, 1), // LIGHT VERTICAL AND HORIZONTAL
        0x253D => (2, 1, 1, 1), // LEFT HEAVY AND RIGHT VERTICAL LIGHT
        0x253E => (1, 2, 1, 1), // RIGHT HEAVY AND LEFT VERTICAL LIGHT
        0x253F => (2, 2, 1, 1), // VERTICAL LIGHT AND HORIZONTAL HEAVY
        0x2540 => (1, 1, 2, 1), // UP HEAVY AND DOWN HORIZONTAL LIGHT
        0x2541 => (1, 1, 1, 2), // DOWN HEAVY AND UP HORIZONTAL LIGHT
        0x2542 => (1, 1, 2, 2), // VERTICAL HEAVY AND HORIZONTAL LIGHT
        0x2543 => (2, 1, 2, 1), // LEFT UP HEAVY AND RIGHT DOWN LIGHT
        0x2544 => (1, 2, 2, 1), // RIGHT UP HEAVY AND LEFT DOWN LIGHT
        0x2545 => (2, 1, 1, 2), // LEFT DOWN HEAVY AND RIGHT UP LIGHT
        0x2546 => (1, 2, 1, 2), // RIGHT DOWN HEAVY AND LEFT UP LIGHT
        0x2547 => (2, 2, 2, 1), // DOWN LIGHT AND UP HORIZONTAL HEAVY
        0x2548 => (2, 2, 1, 2), // UP LIGHT AND DOWN HORIZONTAL HEAVY
        0x2549 => (2, 1, 2, 2), // RIGHT LIGHT AND LEFT VERTICAL HEAVY
        0x254A => (1, 2, 2, 2), // LEFT LIGHT AND RIGHT VERTICAL HEAVY
        0x254B => (2, 2, 2, 2), // HEAVY VERTICAL AND HORIZONTAL
        0x256D => (0, 1, 0, 1), // LIGHT DOWN AND RIGHT
        0x256E => (1, 0, 0, 1), // LIGHT DOWN AND LEFT
        0x256F => (1, 0, 1, 0), // LIGHT UP AND LEFT
        0x2570 => (0, 1, 1, 0), // LIGHT UP AND RIGHT
        0x2574 => (1, 0, 0, 0), // LIGHT LEFT
        0x2575 => (0, 0, 1, 0), // LIGHT UP
        0x2576 => (0, 1, 0, 0), // LIGHT RIGHT
        0x2577 => (0, 0, 0, 1), // LIGHT DOWN
        0x2578 => (2, 0, 0, 0), // HEAVY LEFT
        0x2579 => (0, 0, 2, 0), // HEAVY UP
        0x257A => (0, 2, 0, 0), // HEAVY RIGHT
        0x257B => (0, 0, 0, 2), // HEAVY DOWN
        0x257C => (1, 2, 0, 0), // LIGHT LEFT AND HEAVY RIGHT
        0x257D => (0, 0, 1, 2), // LIGHT UP AND HEAVY DOWN
        0x257E => (2, 1, 0, 0), // HEAVY LEFT AND LIGHT RIGHT
        0x257F => (0, 0, 2, 1), // HEAVY UP AND LIGHT DOWN
        _ => (0, 0, 0, 0),
    }
}

/// Law: the arms of every straight box-drawing character, and their weights, are
/// those its Unicode name gives.
pub proof fn lemma_line_glyph_follows_names(ch: char)
    ensures
        spec_line_glyph_for(ch) matches Some(g) ==> (
            weight_code(g.left),
            weight_code(g.right),
            weight_code(g.up),
            weight_code(g.down),
        ) == named_arm_weights(ch as u32),
{
}

/// Law: which arms a straight box-drawing character has follows the blocks of the
/// chart: U+250C..U+251B are the corners (down and right, down and left, up and right,
/// up and left, four each), U+251C..U+252B the vertical tees (right, then left, eight
/// each), U+252C..U+2533 "down and horizontal", U+2534..U+253B "up and horizontal",
/// U+253C..U+254B the crosses, U+2574..U+257F the half and mixed lines, and U+256D..U+2570
/// the arcs.
pub proof fn lemma_line_glyph_arm_blocks(ch: char)
    ensures
        spec_line_glyph_for(ch) matches Some(g) ==> {
            let cp = ch as u32;
            let arms = (g.left is Some, g.right is Some, g.up is Some, g.down is Some);
            &&& (cp == 0x2500 || cp == 0x2501 || cp == 0x257C || cp == 0x257E) ==> arms == (true, true, false, false)
            &&& (cp == 0x2502 || cp == 0x2503 || cp == 0x257D || cp == 0x257F) ==> arms == (false, false, true, true)
            &&& (0x250C <= cp <= 0x250F || cp == 0x256D) ==> arms == (false, true, false, true)
            &&& (0x2510 <= cp <= 0x2513 || cp == 0x256E) ==> arms == (true, false, false, true)
            &&& (0x2514 <= cp <= 0x2517 || cp == 0x2570) ==> arms == (false, true, true, false)
            &&& (0x2518 <= cp <= 0x251B || cp == 0x256F) ==> arms == (true, false, true, false)
            &&& 0x251C <= cp <= 0x2523 ==> arms == (false, true, true, true)
            &&& 0x2524 <= cp <= 0x252B ==> arms == (true, false, true, true)
            &&& 0x252C <= cp <= 0x2533 ==> arms == (true, true, false, true)
            &&& 0x2534 <= cp <= 0x253B ==> arms == (true, true, true, false)
            &&& 0x253C <= cp <= 0x254B ==> arms == (true, true, true, true)
            &&& (cp == 0x2574 || cp == 0x2578) ==> arms == (true, false, false, false)
            &&& (cp == 0x2575 || cp == 0x2579) ==> arms == (false, false, true, false)
            &&& (cp == 0x2576 || cp == 0x257A) ==> arms == (false, true, false, false)
            &&& (cp == 0x2577 || cp == 0x257B) ==> arms == (false, false, false, true)
            &&& g.rounded <==> 0x256D <= cp <= 0x2570
        },
{
}

} // verus!

verus! {

/// Law: the dashed characters follow their Unicode names: U+2504..U+2507 are triple
/// dashes (two gaps), U+2508..U+250B quadruple dashes (three gaps), U+254C..U+254F double
/// dashes (one gap); in each group of four, horizontal before vertical, light before heavy.
pub proof fn lemma_dashed_glyph_follows_names(ch: char)
    ensures
        spec_glyph_for(ch) matches Some(BoxDrawingGlyph::Dashed(d)) ==> {
            let cp = ch as u32;
            let base: int = if cp <= 0x2507 {
                0x2504
            } else if cp <= 0x250B {
                0x2508
            } else {
                0x254C
            };
            let offset = cp - base;
            &&& (0x2504 <= cp <= 0x250B || 0x254C <= cp <= 0x254F)
            &&& d.spec_gaps() == (if base == 0x2504 { 2int } else if base == 0x2508 { 3int } else { 1int })
            &&& (d.spec_axis() == Axis::Horizontal <==> offset < 2)
            &&& (d.spec_stroke() == Stroke::Heavy <==> offset % 2 == 1)
        },
{
    broadcast use DashedGlyph::lemma_spec_new_fields;
}

} // verus!
