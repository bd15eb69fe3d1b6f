//! The data model shared by the whole pipeline: glyph bounding boxes,
//! normalized curve records, and the per-glyph summary record.
//!
//! All coordinates here are integers on a half-unit grid: twice the value in
//! font design units, taken relative to the glyph's bounding-box minimum
//! corner (see the crate documentation).

use vstd::prelude::*;

verus! {

/// Coordinates handed to the pipeline must stay within this many font design
/// units in magnitude, so that every intermediate product in the band
/// computations fits comfortably in an `i64`.  TrueType design coordinates
/// are 16-bit values, far below this bound.
pub const COORD_LIMIT: i64 = 0x100_0000;

/// A glyph's outline bounding box, in font design units.
#[derive(Clone, Copy, Debug, PartialEq, Eq, Structural)]
pub struct BBox {
    pub x_min: i64,
    pub y_min: i64,
    pub x_max: i64,
    pub y_max: i64,
}

impl BBox {
    /// The box is ordered and within the coordinate bound.
    pub open spec fn wf(self) -> bool {
        &&& -COORD_LIMIT <= self.x_min <= self.x_max <= COORD_LIMIT
        &&& -COORD_LIMIT <= self.y_min <= self.y_max <= COORD_LIMIT
    }

    pub fn new(x_min: i64, y_min: i64, x_max: i64, y_max: i64) -> (r: Self)
        ensures
            r == (BBox { x_min, y_min, x_max, y_max }),
    {
        BBox { x_min, y_min, x_max, y_max }
    }

    /// Width in half design units.
    pub fn width(&self) -> (r: i64)
        requires
            self.wf(),
        ensures
            r == 2 * (self.x_max - self.x_min),
    {
        2 * (self.x_max - self.x_min)
    }

    /// Height in half design units.
    pub fn height(&self) -> (r: i64)
        requires
            self.wf(),
        ensures
            r == 2 * (self.y_max - self.y_min),
    {
        2 * (self.y_max - self.y_min)
    }
}

/// One quadratic Bezier record `[c1x, c1y, ex, ey]`: control point and end
/// point, in half design units relative to the glyph origin.  The start
/// point is implicit: the end point of the previous record in the same
/// glyph, or the glyph origin when there is none.  A record with control
/// point `(-1, -1)` is a sentinel that carries no geometry and only moves
/// the start point to `(ex, ey)`.
#[derive(Clone, Copy, Debug, PartialEq, Eq, Structural)]
pub struct Curve {
    pub c1x: i64,
    pub c1y: i64,
    pub ex: i64,
    pub ey: i64,
}

/// Whether a record is a contour-start sentinel rather than geometry.
/// Genuine records never have a negative coordinate, because every command
/// point lies inside the glyph's bounding box.
pub open spec fn is_sentinel(c: Curve) -> bool {
    c.c1x == -1 && c.c1y == -1
}

impl Curve {
    pub fn is_move_sentinel(&self) -> (r: bool)
        ensures
            r == is_sentinel(*self),
    {
        self.c1x == -1 && self.c1y == -1
    }
}

/// Width and height stored in a summary record for a glyph with no outline.
pub const EMPTY_GLYPH_DIMENSION: i64 = -10;

/// One fixed-size summary record per glyph id: where the glyph's curves and
/// band blocks start in the shared flat arrays, how many bands it has, and
/// its dimensions in half design units.  A record with negative dimensions
/// marks a glyph with no outline; consumers must skip its (empty) runs.
#[derive(Clone, Copy, Debug, PartialEq, Eq, Structural)]
pub struct FontData {
    pub curve_texel_index: u32,
    pub hband_index: u32,
    pub vband_index: u32,
    pub band_count: u32,
    pub width: i64,
    pub height: i64,
}

impl FontData {
    pub fn new(
        glyph_start: usize,
        hband_start: usize,
        vband_start: usize,
        band_count: u32,
        glyph_rect: &BBox,
    ) -> (r: Self)
        requires
            glyph_start <= u32::MAX,
            hband_start <= u32::MAX,
            vband_start <= u32::MAX,
            glyph_rect.wf(),
        ensures
            r.curve_texel_index == glyph_start,
            r.hband_index == hband_start,
            r.vband_index == vband_start,
            r.band_count == band_count,
            r.width == 2 * (glyph_rect.x_max - glyph_rect.x_min),
            r.height == 2 * (glyph_rect.y_max - glyph_rect.y_min),
    {
        FontData {
            curve_texel_index: glyph_start as u32,
            hband_index: hband_start as u32,
            vband_index: vband_start as u32,
            band_count,
            width: glyph_rect.width(),
            height: glyph_rect.height(),
        }
    }

    /// The sentinel record appended for a glyph with no outline.
    pub fn empty() -> (r: Self)
        ensures
            r == spec_empty_record(),
    {
        FontData {
            curve_texel_index: 0,
            hband_index: 0,
            vband_index: 0,
            band_count: 0,
            width: EMPTY_GLYPH_DIMENSION,
            height: EMPTY_GLYPH_DIMENSION,
        }
    }
}

/// The summary record of a glyph with no outline: zero offsets and counts,
/// negative dimensions.
pub open spec fn spec_empty_record() -> FontData {
    FontData {
        curve_texel_index: 0,
        hband_index: 0,
        vband_index: 0,
        band_count: 0,
        width: EMPTY_GLYPH_DIMENSION,
        height: EMPTY_GLYPH_DIMENSION,
    }
}

} // verus!
