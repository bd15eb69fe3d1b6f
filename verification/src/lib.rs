//! Preprocessing core for GPU-rendered vector-font text.
//!
//! Given a glyph's outline commands (recorded in font design units), this
//! library normalizes them into a flat list of quadratic Bezier curves,
//! builds horizontal and vertical band indices that let a fragment shader
//! prune per-pixel curve tests, assembles one summary record per glyph, and
//! encodes the whole aggregate into a versioned binary cache format.
//!
//! All geometry is kept in integers: a coordinate is stored on a half-unit
//! grid, as twice its value in font design units, relative to the glyph's
//! bounding-box minimum corner.  Doubling the resolution makes the midpoint
//! control points synthesized for straight segments exact, and keeping the
//! data integral makes every derived array bit-reproducible.  The final
//! division by units-per-em is a single uniform scale factor that the GPU
//! upload layer applies when it converts the arrays to floating point.

pub mod bands;
pub mod cache;
pub mod curves;
pub mod font_data;
pub mod font_info_saving;
pub mod font_manager;
pub mod font_outline;
pub mod settings;
pub mod utils;
pub mod window_setting;
