use box_drawing::dashed::for_each_dashed_rect;
use box_drawing::double::{for_each_double_rect, horizontal_rect, stroke_bounds_at, vertical_rect};
use box_drawing::geometry::{point, Bounds, Point, Size};
use box_drawing::glyph::{glyph_for, line_glyph_for, Axis, BoxDrawingGlyph, LineGlyph, Stroke};
use box_drawing::layout::{glyph_shapes, BoxDrawingLayoutGlyph, GlyphShape, LayoutPoint};
use box_drawing::rounded::{rounded_geometry, HalfPoint};
use box_drawing::straight::{centered_stroke_bounds, for_each_straight_rect};
use box_drawing::uncovered::emit_uncovered_rect;

fn rect(left: i32, top: i32, right: i32, bottom: i32) -> Bounds {
    Bounds::from_corners(point(left, top), point(right, bottom))
}

fn painted(rects: &[Bounds], cell: Size) -> Vec<Vec<u32>> {
    let mut pixels = vec![vec![0u32; cell.width as usize]; cell.height as usize];
    for r in rects {
        assert!(r.left() >= 0 && r.top() >= 0 && r.right() <= cell.width && r.bottom() <= cell.height);
        assert!(!r.is_empty());
        for line in r.top()..r.bottom() {
            for column in r.left()..r.right() {
                pixels[line as usize][column as usize] += 1;
            }
        }
    }
    pixels
}

#[test]
fn glyph_for_is_defined_exactly_on_the_box_drawing_block() {
    assert!(glyph_for('\u{2500}').is_some());
    assert!(glyph_for('\u{257f}').is_some());
    assert_eq!(glyph_for('\u{24ff}'), None);
    assert_eq!(glyph_for('\u{2580}'), None);
    assert_eq!(glyph_for('a'), None);
    assert_eq!(line_glyph_for('\u{2504}'), None);
    assert_eq!(line_glyph_for('\u{2550}'), None);
    assert_eq!(glyph_for('\u{2550}'), Some(BoxDrawingGlyph::Double('\u{2550}')));
}

#[test]
fn every_line_glyph_has_an_arm_and_rounded_ones_are_light_corners() {
    for codepoint in 0x2500..=0x257f {
        let character = char::from_u32(codepoint).unwrap();
        if let Some(glyph) = line_glyph_for(character) {
            assert!(glyph.left.is_some() || glyph.right.is_some() || glyph.up.is_some() || glyph.down.is_some());
            if glyph.rounded {
                assert!(glyph.left.is_some() != glyph.right.is_some());
                assert!(glyph.up.is_some() != glyph.down.is_some());
                for arm in [glyph.left, glyph.right, glyph.up, glyph.down] {
                    assert_ne!(arm, Some(Stroke::Heavy));
                }
            }
        }
    }
}

#[test]
fn dashed_glyph_reads_its_row() {
    let Some(BoxDrawingGlyph::Dashed(glyph)) = glyph_for('\u{2505}') else {
        panic!("heavy triple dash should be dashed");
    };
    assert_eq!(glyph.axis(), Axis::Horizontal);
    assert_eq!(glyph.gaps(), 2);
    assert_eq!(glyph.stroke(), Stroke::Heavy);
    let Some(BoxDrawingGlyph::Dashed(glyph)) = glyph_for('\u{254e}') else {
        panic!("light double dash vertical should be dashed");
    };
    assert_eq!((glyph.axis(), glyph.gaps(), glyph.stroke()), (Axis::Vertical, 1, Stroke::Light));
}

#[test]
fn centered_stroke_bounds_centres_each_weight() {
    assert_eq!(centered_stroke_bounds(24, Some(Stroke::Light), 1), (11, 12));
    assert_eq!(centered_stroke_bounds(24, Some(Stroke::Heavy), 1), (11, 13));
    assert_eq!(centered_stroke_bounds(23, Some(Stroke::Heavy), 2), (9, 13));
    assert_eq!(centered_stroke_bounds(5, None, 3), (2, 2));
    assert_eq!(centered_stroke_bounds(3, Some(Stroke::Heavy), 2), (0, 3));
}

#[test]
fn straight_rects_of_a_cross_are_arms_and_junction() {
    let cell = Size { width: 10, height: 24 };
    let rects = for_each_straight_rect(glyph_to_line('┼'), cell, 1);
    assert_eq!(
        rects,
        vec![rect(0, 11, 4, 12), rect(5, 11, 10, 12), rect(4, 0, 5, 11), rect(4, 12, 5, 24), rect(4, 11, 5, 12)]
    );
}

#[test]
fn straight_rects_reach_every_arm_edge_in_small_cells() {
    for (width, height) in [(2, 2), (3, 2), (2, 5), (7, 4)] {
        let cell = Size { width, height };
        for light_stroke in 1..=4 {
            for codepoint in (0x2500..=0x2503).chain(0x250c..=0x254b).chain(0x2574..=0x257f) {
                let glyph = glyph_to_line(char::from_u32(codepoint).unwrap());
                let rects = for_each_straight_rect(glyph, cell, light_stroke);
                let pixels = painted(&rects, cell);
                assert!(pixels.iter().flatten().all(|count| *count <= 1));
                assert!(!rects.is_empty());
                if glyph.left.is_some() {
                    assert!(rects.iter().any(|r| r.left() == 0));
                }
                if glyph.right.is_some() {
                    assert!(rects.iter().any(|r| r.right() == width));
                }
                if glyph.up.is_some() {
                    assert!(rects.iter().any(|r| r.top() == 0));
                }
                if glyph.down.is_some() {
                    assert!(rects.iter().any(|r| r.bottom() == height));
                }
            }
        }
    }
}

#[test]
fn lone_arm_in_a_one_pixel_cell_paints_nothing() {
    let cell = Size { width: 1, height: 1 };
    assert_eq!(for_each_straight_rect(glyph_to_line('\u{2574}'), cell, 1), vec![]);
}

#[test]
fn dashed_glyphs_paint_one_dash_more_than_gaps() {
    for codepoint in (0x2504..=0x250b).chain(0x254c..=0x254f) {
        let Some(BoxDrawingGlyph::Dashed(glyph)) = glyph_for(char::from_u32(codepoint).unwrap()) else {
            panic!("dashed codepoint");
        };
        for (width, height) in [(8, 8), (9, 23), (16, 24)] {
            let cell = Size { width, height };
            let rects = for_each_dashed_rect(glyph, cell, 1);
            assert_eq!(rects.len() as i32, glyph.gaps() + 1);
            let pixels = painted(&rects, cell);
            assert!(pixels.iter().flatten().all(|count| *count <= 1));
        }
    }
}

#[test]
fn dashed_glyph_in_a_tiny_cell_cuts_off_dashes() {
    let Some(BoxDrawingGlyph::Dashed(glyph)) = glyph_for('\u{2508}') else {
        panic!("quadruple dash should be dashed");
    };
    let cell = Size { width: 3, height: 3 };
    assert_eq!(for_each_dashed_rect(glyph, cell, 1), vec![rect(0, 1, 1, 2), rect(2, 1, 3, 2)]);
}

#[test]
fn uncovered_rect_is_cut_around_the_covering_rect() {
    let mut out = Vec::new();
    emit_uncovered_rect(rect(0, 0, 4, 4), &[None, Some(rect(1, 1, 3, 3))], &mut out);
    assert_eq!(out, vec![rect(0, 0, 4, 1), rect(0, 3, 4, 4), rect(0, 1, 1, 3), rect(3, 1, 4, 3)]);

    let mut out = vec![rect(9, 9, 10, 10)];
    emit_uncovered_rect(rect(0, 0, 2, 2), &[Some(rect(5, 5, 6, 6))], &mut out);
    assert_eq!(out, vec![rect(9, 9, 10, 10), rect(0, 0, 2, 2)]);

    let mut out = Vec::new();
    emit_uncovered_rect(rect(0, 0, 2, 2), &[Some(rect(0, 0, 2, 2))], &mut out);
    assert_eq!(out, vec![]);

    let mut out = Vec::new();
    emit_uncovered_rect(rect(0, 0, 4, 2), &[Some(rect(2, 0, 6, 2)), Some(rect(0, 0, 1, 1))], &mut out);
    assert_eq!(out, vec![rect(0, 1, 2, 2), rect(1, 0, 2, 1)]);
}

#[test]
fn double_rects_paint_each_rail_pixel_once() {
    let cell = Size { width: 12, height: 24 };
    for codepoint in 0x2550..=0x256c {
        let character = char::from_u32(codepoint).unwrap();
        let rects = for_each_double_rect(character, cell, 1);
        let pixels = painted(&rects, cell);
        assert!(pixels.iter().flatten().all(|count| *count <= 1));
    }
    let rects = for_each_double_rect('\u{2550}', cell, 1);
    assert_eq!(rects, vec![rect(0, 9, 6, 10), rect(0, 12, 6, 13), rect(6, 9, 12, 10), rect(6, 12, 12, 13)]);
}

#[test]
fn half_pixel_strokes_round_toward_zero() {
    assert_eq!(stroke_bounds_at(12, 12, 1), (5, 6));
    assert_eq!(stroke_bounds_at(12, 11, 2), (4, 6));
    assert_eq!(stroke_bounds_at(12, 0, 3), (0, 1));
    assert_eq!(stroke_bounds_at(12, 24, 5), (9, 12));
    let cell = Size { width: 10, height: 24 };
    assert_eq!(horizontal_rect(cell, 0, 9, 23, 1), Some(rect(0, 11, 4, 12)));
    assert_eq!(horizontal_rect(cell, 8, 8, 23, 1), None);
    assert_eq!(vertical_rect(cell, 3, 48, 10, 2), Some(rect(4, 1, 6, 24)));
}

#[test]
fn rounded_corners_in_small_cells_reach_their_edges() {
    for (width, height) in [(3, 5), (4, 4), (9, 2)] {
        let cell = Size { width, height };
        for character in ['╭', '╮', '╯', '╰'] {
            let glyph = glyph_to_line(character);
            let (geometry, stubs) = rounded_geometry(glyph, cell, 1);
            let geometry = geometry.unwrap();
            let pixels = painted(&stubs, cell);
            assert!(pixels.iter().flatten().all(|count| *count <= 1));
            if glyph.left.is_some() {
                assert!(geometry.arc_start.x == 0 || stubs.iter().any(|s| s.left() == 0));
            }
            if glyph.right.is_some() {
                assert!(geometry.arc_start.x == 2 * width || stubs.iter().any(|s| s.right() == width));
            }
            if glyph.up.is_some() {
                assert!(geometry.arc_end.y == 0 || stubs.iter().any(|s| s.top() == 0));
            }
            if glyph.down.is_some() {
                assert!(geometry.arc_end.y == 2 * height || stubs.iter().any(|s| s.bottom() == height));
            }
            assert_eq!(geometry.sweep, glyph.left.is_some() == glyph.down.is_some());
        }
    }
}

#[test]
fn rounded_geometry_is_none_for_other_glyphs() {
    let cell = Size { width: 10, height: 24 };
    let (geometry, stubs) = rounded_geometry(glyph_to_line('─'), cell, 1);
    assert_eq!(geometry, None);
    assert!(stubs.is_empty());
    let glyph = LineGlyph { left: Some(Stroke::Light), right: Some(Stroke::Light), up: None, down: None, rounded: true };
    assert_eq!(rounded_geometry(glyph, cell, 1).0, None);
}

#[test]
fn rounded_corner_in_a_nine_by_two_cell_has_a_half_pixel_radius() {
    let cell = Size { width: 9, height: 2 };
    let (geometry, stubs) = rounded_geometry(glyph_to_line('╭'), cell, 1);
    let geometry = geometry.unwrap();
    assert_eq!(geometry.arc_start, HalfPoint { x: 10, y: 1 });
    assert_eq!(geometry.arc_end, HalfPoint { x: 9, y: 2 });
    assert_eq!(geometry.radius, 1);
    assert_eq!(stubs, vec![rect(5, 0, 9, 1), rect(4, 1, 5, 2)]);
}

#[test]
fn shapes_follow_the_glyph_family() {
    let cell = Size { width: 10, height: 24 };
    assert!(glyph_shapes(glyph_for('─').unwrap(), Size { width: 0, height: 24 }, 1).is_empty());
    assert!(glyph_shapes(glyph_for('─').unwrap(), Size { width: 10, height: -3 }, 1).is_empty());

    let line = glyph_shapes(glyph_for('─').unwrap(), cell, 1);
    let expected: Vec<GlyphShape> = for_each_straight_rect(glyph_to_line('─'), cell, 1)
        .into_iter()
        .map(GlyphShape::Fill)
        .collect();
    assert_eq!(line, expected);

    let corner = glyph_shapes(glyph_for('╭').unwrap(), cell, 1);
    let (geometry, stubs) = rounded_geometry(glyph_to_line('╭'), cell, 1);
    let mut expected: Vec<GlyphShape> = stubs.into_iter().map(GlyphShape::Fill).collect();
    expected.push(GlyphShape::Arc(geometry.unwrap()));
    assert_eq!(corner, expected);

    let cross = glyph_shapes(glyph_for('╳').unwrap(), cell, 1);
    assert_eq!(
        cross,
        vec![
            GlyphShape::Segment(point(0, 24), point(10, 0)),
            GlyphShape::Segment(point(0, 0), point(10, 24)),
        ]
    );
}

#[test]
fn layout_glyph_keeps_its_position_and_glyph() {
    let at = LayoutPoint::new(3, 7);
    let laid_out = BoxDrawingLayoutGlyph::new(at, '┼', "green").unwrap();
    assert_eq!(laid_out.line(), 3);
    assert_eq!(laid_out.point(), at);
    assert_eq!(laid_out.point().column(), 7);
    assert_eq!(laid_out.glyph(), glyph_for('┼').unwrap());
    assert_eq!(*laid_out.color(), "green");
    assert!(BoxDrawingLayoutGlyph::new(at, 'x', "green").is_none());
    assert_eq!(LayoutPoint::default(), LayoutPoint::new(0, 0));
}

#[test]
fn bounds_intersect_and_emptiness() {
    let a = rect(0, 0, 4, 4);
    let b = rect(2, 1, 6, 3);
    assert_eq!(a.intersect(&b), rect(2, 1, 4, 3));
    assert!(!a.intersect(&b).is_empty());
    assert!(a.intersect(&rect(5, 5, 6, 6)).is_empty());
    assert_eq!(Point { x: 1, y: 2 }, point(1, 2));
}

fn glyph_to_line(character: char) -> LineGlyph {
    match glyph_for(character) {
        Some(BoxDrawingGlyph::Line(glyph)) => glyph,
        _ => panic!("{character} should be a line glyph"),
    }
}

#[test]
fn every_box_character_paints_a_shape() {
    for (width, height) in [(2, 2), (3, 7), (10, 24), (9, 23)] {
        let cell = Size { width, height };
        for light_stroke in 1..=3 {
            for codepoint in 0x2500..=0x257f {
                let glyph = glyph_for(char::from_u32(codepoint).unwrap()).unwrap();
                assert!(!glyph_shapes(glyph, cell, light_stroke).is_empty(), "U+{codepoint:04X}");
            }
        }
    }
}

#[test]
fn thick_rounded_corner_in_a_two_by_three_cell_stops_half_a_pixel_short() {
    let cell = Size { width: 2, height: 3 };
    let (geometry, stubs) = rounded_geometry(glyph_to_line('╭'), cell, 3);
    let geometry = geometry.unwrap();
    assert_eq!(geometry.arc_start, HalfPoint { x: 4, y: 3 });
    assert_eq!(geometry.arc_end, HalfPoint { x: 2, y: 5 });
    assert!(stubs.is_empty());
}

#[test]
fn straight_glyphs_paint_exactly_their_arm_strokes_on_the_edges() {
    let cell = Size { width: 10, height: 24 };
    for codepoint in (0x2500..=0x2503).chain(0x250c..=0x254b).chain(0x2574..=0x257f) {
        let glyph = glyph_to_line(char::from_u32(codepoint).unwrap());
        let pixels = painted(&for_each_straight_rect(glyph, cell, 2), cell);
        let band = |dimension: i32, arm: Option<Stroke>| match arm {
            Some(stroke) => centered_stroke_bounds(dimension, Some(stroke), 2),
            None => (0, 0),
        };
        for y in 0..24 {
            let (start, end) = band(24, glyph.left);
            assert_eq!(pixels[y as usize][0] == 1, start <= y && y < end);
            let (start, end) = band(24, glyph.right);
            assert_eq!(pixels[y as usize][9] == 1, start <= y && y < end);
        }
        for x in 0..10 {
            let (start, end) = band(10, glyph.up);
            assert_eq!(pixels[0][x as usize] == 1, start <= x && x < end);
            let (start, end) = band(10, glyph.down);
            assert_eq!(pixels[23][x as usize] == 1, start <= x && x < end);
        }
    }
}

#[test]
fn wide_stroke_of_an_up_arm_reaches_the_side_edges() {
    let cell = Size { width: 2, height: 4 };
    let rects = for_each_straight_rect(glyph_to_line('\u{2575}'), cell, 2);
    assert_eq!(rects, vec![rect(0, 0, 2, 2)]);
}

#[test]
fn rounded_geometry_of_other_glyphs_in_any_cell_is_none() {
    let cell = Size { width: 100_000_000, height: -7 };
    let (geometry, stubs) = rounded_geometry(glyph_to_line('\u{2500}'), cell, i32::MAX);
    assert_eq!(geometry, None);
    assert!(stubs.is_empty());
}

#[test]
fn strokes_across_a_negative_dimension_follow_the_same_rounding() {
    assert_eq!(stroke_bounds_at(-4, 2, 1), (3, -4));
    assert_eq!(horizontal_rect(Size { width: 4, height: -2 }, 0, 8, 0, 1), None);
    assert_eq!(vertical_rect(Size { width: -2, height: 4 }, 0, 8, 0, 1), None);
}
