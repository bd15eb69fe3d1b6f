//! Curve normalizer: turns one glyph's recorded outline commands into a flat
//! list of quadratic Bezier records in half design units relative to the
//! glyph origin (the bounding-box minimum corner).
//!
//! For each command, in order:
//! - a move pushes a sentinel record `[-1, -1, px, py]` and starts a contour;
//! - a line pushes a record whose control point is the exact midpoint of the
//!   segment (exact because coordinates live on the half-unit grid);
//! - a quadratic pushes its control and end point unchanged (scaled);
//! - a close marks a contour boundary and pushes nothing.
//!
//! Cubic commands are not processed here: the builder refuses the whole font
//! when one was recorded, so none ever carries geometry into the curve list.

use vstd::prelude::*;

verus! {

use crate::font_data::{BBox, Curve, COORD_LIMIT};
use crate::font_outline::OutlineDrawCommand;

/// Every emitted curve coordinate stays within this bound when the command
/// points respect `COORD_LIMIT`.
pub const CURVE_BOUND: i64 = 4 * COORD_LIMIT;

/// The points of a single command stay within the coordinate bound.  Cubic
/// commands are unconstrained: they are refused before any geometry is read.
pub open spec fn cmd_point_bounded(cmd: OutlineDrawCommand) -> bool {
    match cmd {
        OutlineDrawCommand::MoveTo(a, b) => -COORD_LIMIT <= a <= COORD_LIMIT && -COORD_LIMIT <= b
            <= COORD_LIMIT,
        OutlineDrawCommand::LineTo(a, b) => -COORD_LIMIT <= a <= COORD_LIMIT && -COORD_LIMIT <= b
            <= COORD_LIMIT,
        OutlineDrawCommand::QuadTo(a1, b1, a, b) => -COORD_LIMIT <= a1 <= COORD_LIMIT
            && -COORD_LIMIT <= b1 <= COORD_LIMIT && -COORD_LIMIT <= a <= COORD_LIMIT && -COORD_LIMIT
            <= b <= COORD_LIMIT,
        OutlineDrawCommand::CurveTo(_, _, _, _, _, _) => true,
        OutlineDrawCommand::Close => true,
    }
}

pub open spec fn cmds_bounded(cmds: Seq<OutlineDrawCommand>) -> bool {
    forall|i: int| 0 <= i < cmds.len() ==> cmd_point_bounded(#[trigger] cmds[i])
}

/// The points of a single command lie inside the glyph's bounding box.
pub open spec fn cmd_in_bbox(cmd: OutlineDrawCommand, bbox: BBox) -> bool {
    match cmd {
        OutlineDrawCommand::MoveTo(a, b) => bbox.x_min <= a <= bbox.x_max && bbox.y_min <= b
            <= bbox.y_max,
        OutlineDrawCommand::LineTo(a, b) => bbox.x_min <= a <= bbox.x_max && bbox.y_min <= b
            <= bbox.y_max,
        OutlineDrawCommand::QuadTo(a1, b1, a, b) => bbox.x_min <= a1 <= bbox.x_max && bbox.y_min
            <= b1 <= bbox.y_max && bbox.x_min <= a <= bbox.x_max && bbox.y_min <= b <= bbox.y_max,
        OutlineDrawCommand::CurveTo(_, _, _, _, _, _) => true,
        OutlineDrawCommand::Close => true,
    }
}

pub open spec fn cmds_in_bbox(cmds: Seq<OutlineDrawCommand>, bbox: BBox) -> bool {
    forall|i: int| 0 <= i < cmds.len() ==> cmd_in_bbox(#[trigger] cmds[i], bbox)
}

/// Whether any recorded command is a cubic segment, which the font format in
/// scope never produces and which makes the build fail fast.
pub open spec fn has_cubic(cmds: Seq<OutlineDrawCommand>) -> bool {
    exists|i: int|
        0 <= i < cmds.len() && (#[trigger] cmds[i]) matches OutlineDrawCommand::CurveTo(
            _,
            _,
            _,
            _,
            _,
            _,
        )
}

/// Number of curve records the commands emit: one per move, line or
/// quadratic command.
pub open spec fn spec_curve_count(cmds: Seq<OutlineDrawCommand>) -> nat
    decreases cmds.len(),
{
    if cmds.len() == 0 {
        0
    } else {
        spec_curve_count(cmds.drop_last()) + match cmds.last() {
            OutlineDrawCommand::MoveTo(_, _) => 1nat,
            OutlineDrawCommand::LineTo(_, _) => 1nat,
            OutlineDrawCommand::QuadTo(_, _, _, _) => 1nat,
            OutlineDrawCommand::CurveTo(_, _, _, _, _, _) => 0nat,
            OutlineDrawCommand::Close => 0nat,
        }
    }
}

/// The current point after all the commands, in font design units.  It
/// starts at the glyph origin; every geometry-bearing command moves it to
/// its end point.
pub open spec fn spec_cur(cmds: Seq<OutlineDrawCommand>, ox: i64, oy: i64) -> (i64, i64)
    decreases cmds.len(),
{
    if cmds.len() == 0 {
        (ox, oy)
    } else {
        match cmds.last() {
            OutlineDrawCommand::MoveTo(a, b) => (a, b),
            OutlineDrawCommand::LineTo(a, b) => (a, b),
            OutlineDrawCommand::QuadTo(_, _, a, b) => (a, b),
            OutlineDrawCommand::CurveTo(_, _, _, _, _, _) => spec_cur(cmds.drop_last(), ox, oy),
            OutlineDrawCommand::Close => spec_cur(cmds.drop_last(), ox, oy),
        }
    }
}

/// The records one command emits, given the current point `cur` in design
/// units.
pub open spec fn spec_cmd_curves(
    cmd: OutlineDrawCommand,
    ox: i64,
    oy: i64,
    cur: (i64, i64),
) -> Seq<Curve> {
    match cmd {
        OutlineDrawCommand::MoveTo(a, b) => seq![
            Curve {
                c1x: -1i64,
                c1y: -1i64,
                ex: (2 * (a - ox)) as i64,
                ey: (2 * (b - oy)) as i64,
            },
        ],
        OutlineDrawCommand::LineTo(a, b) => seq![
            Curve {
                c1x: ((cur.0 - ox) + (a - ox)) as i64,
                c1y: ((cur.1 - oy) + (b - oy)) as i64,
                ex: (2 * (a - ox)) as i64,
                ey: (2 * (b - oy)) as i64,
            },
        ],
        OutlineDrawCommand::QuadTo(a1, b1, a, b) => seq![
            Curve {
                c1x: (2 * (a1 - ox)) as i64,
                c1y: (2 * (b1 - oy)) as i64,
                ex: (2 * (a - ox)) as i64,
                ey: (2 * (b - oy)) as i64,
            },
        ],
        OutlineDrawCommand::CurveTo(_, _, _, _, _, _) => Seq::empty(),
        OutlineDrawCommand::Close => Seq::empty(),
    }
}

/// The full curve list for one glyph's commands.
pub open spec fn spec_curves(cmds: Seq<OutlineDrawCommand>, ox: i64, oy: i64) -> Seq<Curve>
    decreases cmds.len(),
{
    if cmds.len() == 0 {
        Seq::empty()
    } else {
        spec_curves(cmds.drop_last(), ox, oy) + spec_cmd_curves(
            cmds.last(),
            ox,
            oy,
            spec_cur(cmds.drop_last(), ox, oy),
        )
    }
}

/// The start point of record `o` within one glyph's curve list: the end
/// point of the previous record, or the glyph origin when there is none.
pub open spec fn curve_start(curves: Seq<Curve>, o: int) -> (i64, i64)
    recommends
        0 <= o <= curves.len(),
{
    if o == 0 {
        (0i64, 0i64)
    } else {
        (curves[o - 1].ex, curves[o - 1].ey)
    }
}

/// Every field of the record is within `CURVE_BOUND`.
pub open spec fn curve_bounded(c: Curve) -> bool {
    &&& -CURVE_BOUND <= c.c1x <= CURVE_BOUND
    &&& -CURVE_BOUND <= c.c1y <= CURVE_BOUND
    &&& -CURVE_BOUND <= c.ex <= CURVE_BOUND
    &&& -CURVE_BOUND <= c.ey <= CURVE_BOUND
}

pub open spec fn curves_bounded(curves: Seq<Curve>) -> bool {
    forall|j: int| 0 <= j < curves.len() ==> curve_bounded(#[trigger] curves[j])
}

/// The emitted list has exactly one record per move, line or quadratic
/// command.
pub proof fn lemma_curve_count(cmds: Seq<OutlineDrawCommand>, ox: i64, oy: i64)
    ensures
        spec_curves(cmds, ox, oy).len() == spec_curve_count(cmds),
    decreases cmds.len(),
{
    if cmds.len() > 0 {
        lemma_curve_count(cmds.drop_last(), ox, oy);
    }
}

/// The current point tracked over the commands is the end point of the last
/// emitted record (in normalized form), or the origin when nothing was
/// emitted.
pub proof fn lemma_cur_matches_last(cmds: Seq<OutlineDrawCommand>, ox: i64, oy: i64)
    requires
        cmds_bounded(cmds),
        -COORD_LIMIT <= ox <= COORD_LIMIT,
        -COORD_LIMIT <= oy <= COORD_LIMIT,
    ensures
        ({
            let curves = spec_curves(cmds, ox, oy);
            let cur = spec_cur(cmds, ox, oy);
            curve_start(curves, curves.len() as int) == ((2 * (cur.0 - ox)) as i64, (2 * (cur.1
                - oy)) as i64)
        }),
    decreases cmds.len(),
{
    if cmds.len() > 0 {
        lemma_cur_matches_last(cmds.drop_last(), ox, oy);
        assert(cmd_point_bounded(cmds[cmds.len() - 1]));
    }
}

/// All emitted coordinates are bounded when the command points are.
pub proof fn lemma_curves_bounded(cmds: Seq<OutlineDrawCommand>, ox: i64, oy: i64)
    requires
        cmds_bounded(cmds),
        -COORD_LIMIT <= ox <= COORD_LIMIT,
        -COORD_LIMIT <= oy <= COORD_LIMIT,
    ensures
        curves_bounded(spec_curves(cmds, ox, oy)),
    decreases cmds.len(),
{
    if cmds.len() > 0 {
        let front = cmds.drop_last();
        lemma_curves_bounded(front, ox, oy);
        lemma_cur_bounded(front, ox, oy);
        assert(cmd_point_bounded(cmds[cmds.len() - 1]));
        assert forall|j: int| 0 <= j < spec_curves(cmds, ox, oy).len() implies curve_bounded(
            #[trigger] spec_curves(cmds, ox, oy)[j],
        ) by {
            if j < spec_curves(front, ox, oy).len() {
                assert(spec_curves(cmds, ox, oy)[j] == spec_curves(front, ox, oy)[j]);
            }
        }
    }
}

/// The tracked current point stays within the coordinate bound.
pub proof fn lemma_cur_bounded(cmds: Seq<OutlineDrawCommand>, ox: i64, oy: i64)
    requires
        cmds_bounded(cmds),
        -COORD_LIMIT <= ox <= COORD_LIMIT,
        -COORD_LIMIT <= oy <= COORD_LIMIT,
    ensures
        -COORD_LIMIT <= spec_cur(cmds, ox, oy).0 <= COORD_LIMIT,
        -COORD_LIMIT <= spec_cur(cmds, ox, oy).1 <= COORD_LIMIT,
    decreases cmds.len(),
{
    if cmds.len() > 0 {
        lemma_cur_bounded(cmds.drop_last(), ox, oy);
        assert(cmd_point_bounded(cmds[cmds.len() - 1]));
    }
}

/// Normalizes one glyph's commands into its curve records.  `ox` and `oy`
/// are the glyph origin, the bounding-box minimum corner in design units.
pub fn normalize_glyph(commands: &Vec<OutlineDrawCommand>, ox: i64, oy: i64) -> (curves: Vec<
    Curve,
>)
    requires
        cmds_bounded(commands@),
        -COORD_LIMIT <= ox <= COORD_LIMIT,
        -COORD_LIMIT <= oy <= COORD_LIMIT,
    ensures
        curves@ == spec_curves(commands@, ox, oy),
{
    let mut curves: Vec<Curve> = Vec::new();
    let mut cx: i64 = ox;
    let mut cy: i64 = oy;
    let n = commands.len();
    for i in 0..n
        invariant
            n == commands@.len(),
            cmds_bounded(commands@),
            -COORD_LIMIT <= ox <= COORD_LIMIT,
            -COORD_LIMIT <= oy <= COORD_LIMIT,
            -COORD_LIMIT <= cx <= COORD_LIMIT,
            -COORD_LIMIT <= cy <= COORD_LIMIT,
            curves@ == spec_curves(commands@.subrange(0, i as int), ox, oy),
            (cx, cy) == spec_cur(commands@.subrange(0, i as int), ox, oy),
    {
        proof {
            assert(cmd_point_bounded(commands@[i as int]));
            assert(commands@.subrange(0, i + 1).drop_last() =~= commands@.subrange(0, i as int));
            assert(commands@.subrange(0, i + 1).last() == commands@[i as int]);
        }
        match commands[i] {
            OutlineDrawCommand::MoveTo(a, b) => {
                let px = 2 * (a - ox);
                let py = 2 * (b - oy);
                curves.push(Curve { c1x: -1, c1y: -1, ex: px, ey: py });
                cx = a;
                cy = b;
            },
            OutlineDrawCommand::LineTo(a, b) => {
                let px = 2 * (a - ox);
                let py = 2 * (b - oy);
                let mx = (cx - ox) + (a - ox);
                let my = (cy - oy) + (b - oy);
                curves.push(Curve { c1x: mx, c1y: my, ex: px, ey: py });
                cx = a;
                cy = b;
            },
            OutlineDrawCommand::QuadTo(a1, b1, a, b) => {
                let p1x = 2 * (a1 - ox);
                let p1y = 2 * (b1 - oy);
                let px = 2 * (a - ox);
                let py = 2 * (b - oy);
                curves.push(Curve { c1x: p1x, c1y: p1y, ex: px, ey: py });
                cx = a;
                cy = b;
            },
            OutlineDrawCommand::CurveTo(_, _, _, _, _, _) => {
                // refused by the builder before any geometry is read
            },
            OutlineDrawCommand::Close => {
                // contour boundary only; the next move starts a new contour
            },
        }
    }
    proof {
        assert(commands@.subrange(0, n as int) =~= commands@);
    }
    curves
}

/// Whether the commands use straight geometry only: moves, lines and closes.
pub open spec fn straight_only(cmds: Seq<OutlineDrawCommand>) -> bool {
    forall|i: int|
        0 <= i < cmds.len() ==> match #[trigger] cmds[i] {
            OutlineDrawCommand::MoveTo(_, _) => true,
            OutlineDrawCommand::LineTo(_, _) => true,
            OutlineDrawCommand::QuadTo(_, _, _, _) => false,
            OutlineDrawCommand::CurveTo(_, _, _, _, _, _) => false,
            OutlineDrawCommand::Close => true,
        }
}

/// For a glyph made of straight contours only, every geometry-bearing
/// record's control point is the exact midpoint of the record's start point
/// and end point: twice the control coordinate equals their sum, on both
/// axes, with no rounding.
pub proof fn lemma_line_controls_are_midpoints(cmds: Seq<OutlineDrawCommand>, ox: i64, oy: i64)
    requires
        cmds_bounded(cmds),
        -COORD_LIMIT <= ox <= COORD_LIMIT,
        -COORD_LIMIT <= oy <= COORD_LIMIT,
        straight_only(cmds),
    ensures
        ({
            let curves = spec_curves(cmds, ox, oy);
            forall|j: int|
                0 <= j < curves.len() && !crate::font_data::is_sentinel(#[trigger] curves[j])
                    ==> 2 * curves[j].c1x == curve_start(curves, j).0 + curves[j].ex && 2
                    * curves[j].c1y == curve_start(curves, j).1 + curves[j].ey
        }),
    decreases cmds.len(),
{
    if cmds.len() > 0 {
        let front = cmds.drop_last();
        let curves = spec_curves(cmds, ox, oy);
        let fcurves = spec_curves(front, ox, oy);
        lemma_line_controls_are_midpoints(front, ox, oy);
        lemma_cur_matches_last(front, ox, oy);
        lemma_cur_bounded(front, ox, oy);
        assert(cmd_point_bounded(cmds[cmds.len() - 1]));
        assert forall|j: int|
            0 <= j < curves.len() && !crate::font_data::is_sentinel(#[trigger] curves[j]) implies 2
            * curves[j].c1x == curve_start(curves, j).0 + curves[j].ex && 2 * curves[j].c1y
            == curve_start(curves, j).1 + curves[j].ey by {
            if j < fcurves.len() {
                assert(curves[j] == fcurves[j]);
                if j > 0 {
                    assert(curves[j - 1] == fcurves[j - 1]);
                }
                assert(curve_start(curves, j) == curve_start(fcurves, j));
            } else {
                assert(curve_start(curves, j) == curve_start(fcurves, fcurves.len() as int));
            }
        }
    }
}

} // verus!
