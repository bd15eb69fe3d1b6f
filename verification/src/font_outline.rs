//! Outline recorder: captures one glyph's vector path as an ordered command
//! sequence, exactly as the font-outline decomposition collaborator emits it.
//!
//! Coordinates are in font design units.  No geometry processing happens
//! here; the recorder is an append-only buffer.  Cubic curve segments are
//! recorded too, but the font format in scope guarantees lines and
//! quadratics only, so any recorded cubic makes the whole font fail fast
//! when the drawing data is built (see `font_manager`).

use vstd::prelude::*;

verus! {

/// One path event, in font design units.
#[derive(Clone, Copy, Debug, PartialEq, Eq, Structural)]
pub enum OutlineDrawCommand {
    /// x, y
    MoveTo(i64, i64),
    /// x, y
    LineTo(i64, i64),
    /// x1, y1, x, y
    QuadTo(i64, i64, i64, i64),
    /// x1, y1, x2, y2, x, y
    CurveTo(i64, i64, i64, i64, i64, i64),
    /// Close the current contour
    Close,
}

/// The recorded command sequence for exactly one glyph.
pub struct FontOutlineData {
    pub points: Vec<OutlineDrawCommand>,
}

impl FontOutlineData {
    pub fn new() -> (r: Self)
        ensures
            r.points@ == Seq::<OutlineDrawCommand>::empty(),
    {
        FontOutlineData { points: Vec::new() }
    }

    /// Marks the outline as fully emitted, trimming the buffer to its exact
    /// size.  Relies on `Vec::shrink_to_fit`: it only drops spare capacity
    /// and keeps the elements exactly as they are.
    #[verifier::external_body]
    pub fn finish(&mut self)
        ensures
            final(self).points@ == old(self).points@,
    {
        self.points.shrink_to_fit();
    }

    /// Read access to the recorded commands, in emission order.
    pub fn point_command_iter(&self) -> (r: &Vec<OutlineDrawCommand>)
        ensures
            r@ == self.points@,
    {
        &self.points
    }

    pub fn move_to(&mut self, x: i64, y: i64)
        ensures
            final(self).points@ == old(self).points@.push(OutlineDrawCommand::MoveTo(x, y)),
    {
        self.points.push(OutlineDrawCommand::MoveTo(x, y));
    }

    pub fn line_to(&mut self, x: i64, y: i64)
        ensures
            final(self).points@ == old(self).points@.push(OutlineDrawCommand::LineTo(x, y)),
    {
        self.points.push(OutlineDrawCommand::LineTo(x, y));
    }

    pub fn quad_to(&mut self, x1: i64, y1: i64, x: i64, y: i64)
        ensures
            final(self).points@ == old(self).points@.push(OutlineDrawCommand::QuadTo(x1, y1, x, y)),
    {
        self.points.push(OutlineDrawCommand::QuadTo(x1, y1, x, y));
    }

    /// Records a cubic segment.  The font format in scope never emits one;
    /// a recorded cubic is rejected when the drawing data is built.
    pub fn curve_to(&mut self, x1: i64, y1: i64, x2: i64, y2: i64, x: i64, y: i64)
        ensures
            final(self).points@ == old(self).points@.push(
                OutlineDrawCommand::CurveTo(x1, y1, x2, y2, x, y),
            ),
    {
        self.points.push(OutlineDrawCommand::CurveTo(x1, y1, x2, y2, x, y));
    }

    pub fn close(&mut self)
        ensures
            final(self).points@ == old(self).points@.push(OutlineDrawCommand::Close),
    {
        self.points.push(OutlineDrawCommand::Close);
    }

    /// Number of curve records the normalizer will emit for this outline:
    /// move, line and quadratic commands each yield one record, close and
    /// cubic commands yield none.
    pub fn number_of_curves(&self) -> (r: usize)
        ensures
            r == crate::curves::spec_curve_count(self.points@),
    {
        let mut count: usize = 0;
        let n = self.points.len();
        for i in 0..n
            invariant
                n == self.points@.len(),
                count == crate::curves::spec_curve_count(self.points@.subrange(0, i as int)),
                count <= i,
        {
            let emits = match self.points[i] {
                OutlineDrawCommand::MoveTo(_, _) => true,
                OutlineDrawCommand::LineTo(_, _) => true,
                OutlineDrawCommand::QuadTo(_, _, _, _) => true,
                OutlineDrawCommand::CurveTo(_, _, _, _, _, _) => false,
                OutlineDrawCommand::Close => false,
            };
            proof {
                assert(self.points@.subrange(0, i + 1).drop_last() =~= self.points@.subrange(
                    0,
                    i as int,
                ));
            }
            if emits {
                count += 1;
            }
        }
        proof {
            assert(self.points@.subrange(0, n as int) =~= self.points@);
        }
        count
    }
}

} // verus!
