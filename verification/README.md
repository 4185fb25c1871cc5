# box_drawing

Procedural geometry for the Unicode box-drawing block (U+2500..U+257F) in a
terminal: which glyph each character is, and which rectangles, arcs and line
segments paint it in a cell of a given size in device pixels. The library is
written in Verus; every function carries a contract and the module laws are
proved.

- `src/glyph.rs`: the glyph families and the table of arms, dashes, double lines
  and diagonals.
- `src/geometry.rs`: points, cell sizes and pixel rectangles.
- `src/straight.rs`, `src/dashed.rs`, `src/double.rs`, `src/rounded.rs`,
  `src/diagonal.rs`: the shapes of each family; `src/uncovered.rs` cuts
  overlapping rectangles apart so that no pixel is painted twice.
- `src/layout.rs`: a glyph laid out in the grid, and everything that paints it in
  order.
- `app/lib.rs`: the floating-point side — stroke width from font metrics,
  snapping logical positions to device pixels — and handing the shapes to a
  window surface.

Positions that can fall between two pixels (the middle of an odd-sized cell) are
kept in half-pixel units, where they are whole numbers.
