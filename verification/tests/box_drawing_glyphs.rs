use box_drawing::dashed::for_each_dashed_rect;
use box_drawing::diagonal::for_each_diagonal_segment;
use box_drawing::double::for_each_double_rect;
use box_drawing::geometry::{point, Bounds, Size};
use box_drawing::glyph::Stroke::{Heavy, Light};
use box_drawing::glyph::{glyph_for, BoxDrawingGlyph, LineGlyph};
use box_drawing::layout::{BoxDrawingLayoutGlyph, LayoutPoint};
use box_drawing::rounded::{rounded_geometry, HalfPoint};
use box_drawing::straight::for_each_straight_rect;

fn straight_rects(glyph: LineGlyph, cell: Size, light_stroke: i32) -> Vec<Bounds> {
    for_each_straight_rect(glyph, cell, light_stroke)
}

fn line_glyph(character: char) -> LineGlyph {
    let Some(BoxDrawingGlyph::Line(glyph)) = glyph_for(character) else {
        panic!("{character} should be a line glyph");
    };
    glyph
}

fn dashed_rects(character: char, cell: Size, light_stroke: i32) -> Vec<Bounds> {
    let Some(BoxDrawingGlyph::Dashed(glyph)) = glyph_for(character) else {
        panic!("{character} should be a dashed glyph");
    };
    for_each_dashed_rect(glyph, cell, light_stroke)
}

fn double_rects(character: char, cell: Size, light_stroke: i32) -> Vec<Bounds> {
    let Some(BoxDrawingGlyph::Double(character)) = glyph_for(character) else {
        panic!("{character} should be a double-line glyph");
    };
    for_each_double_rect(character, cell, light_stroke)
}

fn rasterize(rects: &[Bounds], cell: Size) -> Vec<Vec<bool>> {
    let mut pixels = vec![vec![false; cell.width as usize]; cell.height as usize];
    for rect in rects {
        assert!(rect.left() >= 0);
        assert!(rect.top() >= 0);
        assert!(rect.right() <= cell.width);
        assert!(rect.bottom() <= cell.height);
        for line in rect.top()..rect.bottom() {
            for column in rect.left()..rect.right() {
                assert!(!pixels[line as usize][column as usize]);
                pixels[line as usize][column as usize] = true;
            }
        }
    }
    pixels
}

fn run_count(pixels: impl IntoIterator<Item = bool>) -> usize {
    let mut previous = false;
    let mut count = 0;
    for pixel in pixels {
        if pixel && !previous {
            count += 1;
        }
        previous = pixel;
    }
    count
}

/// A half-pixel position in pixels.
fn pixels(position: HalfPoint) -> (f32, f32) {
    (position.x as f32 / 2., position.y as f32 / 2.)
}

#[test]
fn maps_straight_box_drawing_arms() {
    assert_eq!(
        glyph_for('─'),
        Some(BoxDrawingGlyph::Line(LineGlyph {
            left: Some(Light),
            right: Some(Light),
            ..Default::default()
        }))
    );
    assert_eq!(
        glyph_for('┃'),
        Some(BoxDrawingGlyph::Line(LineGlyph {
            up: Some(Heavy),
            down: Some(Heavy),
            ..Default::default()
        }))
    );
    assert_eq!(
        glyph_for('┞'),
        Some(BoxDrawingGlyph::Line(LineGlyph {
            right: Some(Light),
            up: Some(Heavy),
            down: Some(Light),
            ..Default::default()
        }))
    );
    assert_eq!(
        glyph_for('╿'),
        Some(BoxDrawingGlyph::Line(LineGlyph {
            up: Some(Heavy),
            down: Some(Light),
            ..Default::default()
        }))
    );
    assert_eq!(
        glyph_for('╭'),
        Some(BoxDrawingGlyph::Line(LineGlyph {
            right: Some(Light),
            down: Some(Light),
            rounded: true,
            ..Default::default()
        }))
    );
}

#[test]
fn covers_every_box_drawing_character() {
    let mut family_counts = [0; 4];
    for codepoint in 0x2500..=0x257f {
        let character = char::from_u32(codepoint).expect("valid box-drawing codepoint");
        let glyph = glyph_for(character)
            .unwrap_or_else(|| panic!("U+{codepoint:04X} {character} should be custom-painted"));
        family_counts[match glyph {
            BoxDrawingGlyph::Line(_) => 0,
            BoxDrawingGlyph::Dashed(_) => 1,
            BoxDrawingGlyph::Double(_) => 2,
            BoxDrawingGlyph::Diagonal(_) => 3,
        }] += 1;
    }
    assert_eq!(family_counts, [84, 12, 29, 3]);

    for character in ['\u{24ff}', '\u{2580}'] {
        assert_eq!(glyph_for(character), None);
    }
}

#[test]
fn dashed_lines_match_alacritty_segmentation() {
    let cell = Size {
        width: 16,
        height: 24,
    };
    assert_eq!(
        dashed_rects('┄', cell, 1),
        [
            Bounds::from_corners(point(0, 11), point(4, 12)),
            Bounds::from_corners(point(6, 11), point(10, 12)),
            Bounds::from_corners(point(12, 11), point(16, 12)),
        ]
    );
    assert_eq!(
        dashed_rects('╏', cell, 1),
        [
            Bounds::from_corners(point(7, 0), point(9, 10)),
            Bounds::from_corners(point(7, 13), point(9, 23)),
        ]
    );

    for cell in [
        Size {
            width: 9,
            height: 23,
        },
        Size {
            width: 10,
            height: 24,
        },
    ] {
        for light_stroke in 1..=3 {
            for codepoint in (0x2504..=0x250b).chain(0x254c..=0x254f) {
                let character = char::from_u32(codepoint).expect("valid dashed codepoint");
                rasterize(&dashed_rects(character, cell, light_stroke), cell);
            }
        }
    }
}

#[test]
fn diagonals_connect_opposite_cell_corners() {
    let cell = Size {
        width: 10,
        height: 24,
    };
    for (character, expected) in [
        ('╱', vec![(point(0, 24), point(10, 0))]),
        ('╲', vec![(point(0, 0), point(10, 24))]),
        (
            '╳',
            vec![(point(0, 24), point(10, 0)), (point(0, 0), point(10, 24))],
        ),
    ] {
        let Some(BoxDrawingGlyph::Diagonal(glyph)) = glyph_for(character) else {
            panic!("{character} should be a diagonal glyph");
        };
        let segments = for_each_diagonal_segment(glyph, cell);
        assert_eq!(segments, expected, "segments for {character}");
    }
}

#[test]
fn double_lines_have_expected_edge_rails() {
    let cell = Size {
        width: 12,
        height: 24,
    };
    for (character, expected_runs) in [
        ('═', [2, 2, 0, 0]),
        ('║', [0, 0, 2, 2]),
        ('╒', [0, 2, 0, 1]),
        ('╬', [2, 2, 2, 2]),
    ] {
        let pixels = rasterize(&double_rects(character, cell, 1), cell);
        let actual_runs = [
            run_count(pixels.iter().map(|line| line[0])),
            run_count(pixels.iter().map(|line| line[cell.width as usize - 1])),
            run_count(pixels[0].iter().copied()),
            run_count(pixels[cell.height as usize - 1].iter().copied()),
        ];
        assert_eq!(actual_runs, expected_runs, "edge rails for {character}");
    }

    for cell in [
        Size {
            width: 9,
            height: 23,
        },
        Size {
            width: 10,
            height: 24,
        },
    ] {
        for light_stroke in 1..=3 {
            for codepoint in 0x2550..=0x256c {
                let character = char::from_u32(codepoint).expect("valid double-line codepoint");
                let rects = double_rects(character, cell, light_stroke);
                assert!(!rects.is_empty(), "geometry for {character}");
                rasterize(&rects, cell);
            }
        }
    }
}

#[test]
fn layout_glyph_preserves_color() {
    // Red, as hue, saturation, lightness and alpha.
    let color = (0.0f32, 1.0f32, 0.5f32, 1.0f32);
    let Some(layout_glyph) = BoxDrawingLayoutGlyph::new(LayoutPoint::default(), '─', color) else {
        panic!("light horizontal glyph should be custom-painted");
    };

    assert_eq!(*layout_glyph.color(), color);
}

#[test]
fn straight_glyph_rects_are_connected_disjoint_and_contained() {
    for cell in [
        Size {
            width: 9,
            height: 23,
        },
        Size {
            width: 10,
            height: 24,
        },
        Size {
            width: 11,
            height: 25,
        },
        Size {
            width: 2,
            height: 3,
        },
    ] {
        for light_stroke in 1..=3 {
            for codepoint in (0x2500..=0x2503)
                .chain(0x250c..=0x254b)
                .chain(0x2574..=0x257f)
            {
                let ch = char::from_u32(codepoint).expect("valid box drawing codepoint");
                let glyph = line_glyph(ch);
                let pixels = rasterize(&straight_rects(glyph, cell, light_stroke), cell);
                let case = format!(
                    "{ch} in a {}x{} cell with light stroke {light_stroke}",
                    cell.width, cell.height
                );

                if glyph.left.is_some() {
                    assert!(pixels.iter().any(|line| line[0]), "left arm for {case}");
                }
                if glyph.right.is_some() {
                    assert!(
                        pixels.iter().any(|line| line[cell.width as usize - 1]),
                        "right arm for {case}"
                    );
                }
                if glyph.up.is_some() {
                    assert!(pixels[0].iter().any(|pixel| *pixel), "up arm for {case}");
                }
                if glyph.down.is_some() {
                    assert!(
                        pixels[cell.height as usize - 1].iter().any(|pixel| *pixel),
                        "down arm for {case}"
                    );
                }

                let start = pixels.iter().enumerate().find_map(|(line, columns)| {
                    columns
                        .iter()
                        .position(|pixel| *pixel)
                        .map(|column| (line, column))
                });
                let Some(start) = start else {
                    panic!("{case} should paint at least one pixel");
                };
                let mut visited = vec![vec![false; cell.width as usize]; cell.height as usize];
                let mut pending = vec![start];
                while let Some((line, column)) = pending.pop() {
                    if visited[line][column] || !pixels[line][column] {
                        continue;
                    }
                    visited[line][column] = true;
                    for (line_offset, column_offset) in [(-1, 0), (1, 0), (0, -1), (0, 1)] {
                        let next_line = line as i32 + line_offset;
                        let next_column = column as i32 + column_offset;
                        if (0..cell.height).contains(&next_line)
                            && (0..cell.width).contains(&next_column)
                        {
                            pending.push((next_line as usize, next_column as usize));
                        }
                    }
                }
                assert!(
                    pixels.iter().enumerate().all(|(line, columns)| columns
                        .iter()
                        .enumerate()
                        .all(|(column, pixel)| !pixel || visited[line][column])),
                    "{case} should be one connected shape"
                );
            }
        }
    }
}

#[test]
fn straight_lines_use_one_stroke_thickness_for_both_axes() {
    let cell = Size {
        width: 12,
        height: 24,
    };
    let horizontal = rasterize(&straight_rects(line_glyph('─'), cell, 2), cell);
    let vertical = rasterize(&straight_rects(line_glyph('│'), cell, 2), cell);

    assert_eq!(
        horizontal
            .iter()
            .filter(|line| line.iter().any(|pixel| *pixel))
            .count(),
        2
    );
    assert_eq!(
        (0..cell.width as usize)
            .filter(|column| vertical.iter().any(|line| line[*column]))
            .count(),
        2
    );
}

#[test]
fn rounded_corners_reach_cell_edges_and_straight_stubs() {
    let cell = Size {
        width: 10,
        height: 24,
    };
    let cases = [
        ('╭', (9., 11.5), (4.5, 16.), false),
        ('╮', (0., 11.5), (4.5, 16.), true),
        ('╯', (0., 11.5), (4.5, 7.), false),
        ('╰', (9., 11.5), (4.5, 7.), true),
    ];

    for (ch, arc_start, arc_end, sweep) in cases {
        let glyph = line_glyph(ch);
        let (geometry, stubs) = rounded_geometry(glyph, cell, 1);
        let geometry = geometry.expect("rounded geometry");
        assert_eq!(pixels(geometry.arc_start), arc_start, "arc start for {ch}");
        assert_eq!(pixels(geometry.arc_end), arc_end, "arc end for {ch}");
        assert_eq!(geometry.radius as f32 / 2., 4.5, "radius for {ch}");
        assert_eq!(geometry.sweep, sweep, "arc sweep for {ch}");

        for stub in &stubs {
            assert!(stub.left() >= 0, "stub left for {ch}");
            assert!(stub.top() >= 0, "stub top for {ch}");
            assert!(stub.right() <= cell.width, "stub right for {ch}");
            assert!(stub.bottom() <= cell.height, "stub bottom for {ch}");
        }
        if glyph.left.is_some() {
            assert!(
                pixels(geometry.arc_start).0 == 0. || stubs.iter().any(|stub| stub.left() == 0),
                "left edge for {ch}"
            );
        }
        if glyph.right.is_some() {
            assert!(
                pixels(geometry.arc_start).0 == cell.width as f32
                    || stubs.iter().any(|stub| stub.right() == cell.width),
                "right edge for {ch}"
            );
        }
        if glyph.up.is_some() {
            assert!(
                pixels(geometry.arc_end).1 == 0. || stubs.iter().any(|stub| stub.top() == 0),
                "top edge for {ch}"
            );
        }
        if glyph.down.is_some() {
            assert!(
                pixels(geometry.arc_end).1 == cell.height as f32
                    || stubs.iter().any(|stub| stub.bottom() == cell.height),
                "bottom edge for {ch}"
            );
        }
    }
}
