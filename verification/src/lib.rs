pub mod dashed;
pub mod diagonal;
pub mod double;
pub mod geometry;
pub mod glyph;
pub mod layout;
pub mod rounded;
pub mod straight;
pub mod uncovered;
