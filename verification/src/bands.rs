//! Band index builder.
//!
//! A glyph's bounding box is tiled into `band_count` equal bands on each
//! axis.  For every geometry-bearing curve whose extent on the band axis is
//! not degenerate, an entry `(key, curve offset)` is filed under every band
//! its extent overlaps, where the key is the largest cross-axis coordinate
//! of the curve's three points.  Entries within a band are ordered by key
//! descending; equal keys are ordered by curve offset ascending, a
//! deterministic tie-break that keeps the arrays byte-reproducible.  Each
//! band list is kept ordered as entries are filed, which yields the same
//! final arrays as filing first and sorting afterwards.
//!
//! A glyph's block in the shared flat array is `band_count` header pairs
//! `(entries_offset, entries_count)` followed by the concatenated entry
//! lists; `entries_offset` is counted from the start of the block, so the
//! first band's entries sit right after the `2 * band_count` header words.
//!
//! Band boundaries are the exact rationals `i * extent / band_count`; the
//! overlap tests below compare the cross-multiplied integers, so no
//! rounding is involved anywhere.

use vstd::prelude::*;

verus! {

use crate::curves::{curve_start, curves_bounded, CURVE_BOUND};
use crate::font_data::{is_sentinel, Curve};
use crate::utils::{max_3number, min_3number, spec_max3, spec_min3};

/// Coordinate of the curve's start point on the band axis (y for horizontal
/// bands, x for vertical ones).
pub open spec fn band_axis_start(curves: Seq<Curve>, o: int, horizontal: bool) -> int {
    if horizontal {
        curve_start(curves, o).1 as int
    } else {
        curve_start(curves, o).0 as int
    }
}

/// Coordinate of the curve's end point on the band axis.
pub open spec fn band_axis_end(curves: Seq<Curve>, o: int, horizontal: bool) -> int {
    if horizontal {
        curves[o].ey as int
    } else {
        curves[o].ex as int
    }
}

/// Coordinate of the curve's control point on the band axis.
pub open spec fn band_axis_ctrl(curves: Seq<Curve>, o: int, horizontal: bool) -> int {
    if horizontal {
        curves[o].c1y as int
    } else {
        curves[o].c1x as int
    }
}

/// Smallest band-axis coordinate of the curve's three points.
pub open spec fn axis_lo(curves: Seq<Curve>, o: int, horizontal: bool) -> int {
    spec_min3(
        band_axis_start(curves, o, horizontal),
        band_axis_ctrl(curves, o, horizontal),
        band_axis_end(curves, o, horizontal),
    )
}

/// Largest band-axis coordinate of the curve's three points.
pub open spec fn axis_hi(curves: Seq<Curve>, o: int, horizontal: bool) -> int {
    spec_max3(
        band_axis_start(curves, o, horizontal),
        band_axis_ctrl(curves, o, horizontal),
        band_axis_end(curves, o, horizontal),
    )
}

/// The entry key: the largest cross-axis coordinate of the curve's three
/// points (x for horizontal bands, y for vertical ones).  The shader scans a
/// band from the largest key inward and stops early.
pub open spec fn entry_key(curves: Seq<Curve>, o: int, horizontal: bool) -> int {
    if horizontal {
        spec_max3(
            curve_start(curves, o).0 as int,
            curves[o].c1x as int,
            curves[o].ex as int,
        )
    } else {
        spec_max3(
            curve_start(curves, o).1 as int,
            curves[o].c1y as int,
            curves[o].ey as int,
        )
    }
}

/// Band `i` of `band_count` bands tiling `[0, extent]` overlaps the closed
/// range `[lo, hi]`.  The band spans the exact rationals
/// `[i * extent / band_count, (i + 1) * extent / band_count]`; the
/// comparison is cross-multiplied by `band_count`.
pub open spec fn band_overlaps(extent: int, band_count: int, i: int, lo: int, hi: int) -> bool {
    hi * band_count >= i * extent && lo * band_count <= (i + 1) * extent
}

/// Whether curve `o` is filed under band `i`: it must carry geometry (not a
/// sentinel), its start and end must differ on the band axis (a degenerate
/// curve contributes nothing to a winding number on that axis), and its
/// extent must overlap the band.
pub open spec fn curve_in_band(
    curves: Seq<Curve>,
    o: int,
    i: int,
    band_count: int,
    extent: int,
    horizontal: bool,
) -> bool {
    &&& 0 <= o < curves.len()
    &&& !is_sentinel(curves[o])
    &&& band_axis_end(curves, o, horizontal) != band_axis_start(curves, o, horizontal)
    &&& band_overlaps(
        extent,
        band_count,
        i,
        axis_lo(curves, o, horizontal),
        axis_hi(curves, o, horizontal),
    )
}

/// Ordering of two entries within one band: larger key first; equal keys by
/// ascending curve offset.
pub open spec fn entries_ordered(curves: Seq<Curve>, a: u32, b: u32, horizontal: bool) -> bool {
    ||| entry_key(curves, a as int, horizontal) > entry_key(curves, b as int, horizontal)
    ||| (entry_key(curves, a as int, horizontal) == entry_key(curves, b as int, horizontal) && a
        < b)
}

/// Ordering of two `(key, offset)` pairs while a band list is being built.
pub open spec fn pair_before(a: (i64, u32), b: (i64, u32)) -> bool {
    a.0 > b.0 || (a.0 == b.0 && a.1 < b.1)
}

pub open spec fn sorted_pairs(s: Seq<(i64, u32)>) -> bool {
    forall|k1: int, k2: int| 0 <= k1 < k2 < s.len() ==> pair_before(#[trigger] s[k1], #[trigger] s[k2])
}

/// Header pair `i` of a glyph's block: where the band's entries start,
/// counted from the start of the block.
pub open spec fn block_header_off(block: Seq<u32>, i: int) -> int {
    block[2 * i] as int
}

/// Header pair `i` of a glyph's block: how many entries the band has.
pub open spec fn block_count(block: Seq<u32>, i: int) -> int {
    block[2 * i + 1] as int
}

/// Shape of a glyph's block: the first band's entries start right after the
/// header words, each following offset is the previous offset plus the
/// previous count, and the last band's entries end the block.
pub open spec fn band_block_wf(block: Seq<u32>, band_count: int) -> bool {
    &&& 2 <= band_count
    &&& block.len() >= 2 * band_count
    &&& block_header_off(block, 0) == 2 * band_count
    &&& forall|i: int|
        0 <= i < band_count - 1 ==> block_header_off(block, i + 1) == block_header_off(block, i)
            + #[trigger] block_count(block, i)
    &&& block.len() == block_header_off(block, band_count - 1) + block_count(
        block,
        band_count - 1,
    )
}

/// The entries of band `i` within a glyph's block.
pub open spec fn band_entries(block: Seq<u32>, i: int) -> Seq<u32> {
    block.subrange(block_header_off(block, i), block_header_off(block, i) + block_count(block, i))
}

/// The entries of band `i` are exactly the offsets of the curves filed under
/// it, each exactly once, in the band ordering.
pub open spec fn band_entries_ok(
    block: Seq<u32>,
    i: int,
    curves: Seq<Curve>,
    band_count: int,
    extent: int,
    horizontal: bool,
) -> bool {
    let e = band_entries(block, i);
    &&& forall|k: int|
        0 <= k < e.len() ==> curve_in_band(
            curves,
            (#[trigger] e[k]) as int,
            i,
            band_count,
            extent,
            horizontal,
        )
    &&& forall|k1: int, k2: int|
        0 <= k1 < k2 < e.len() ==> entries_ordered(curves, #[trigger] e[k1], #[trigger] e[k2], horizontal)
    &&& forall|o: int|
        curve_in_band(curves, o, i, band_count, extent, horizontal) ==> e.contains(o as u32)
}

/// Complete contract of one glyph's block on one axis.
pub open spec fn glyph_band_block_ok(
    block: Seq<u32>,
    curves: Seq<Curve>,
    band_count: int,
    extent: int,
    horizontal: bool,
) -> bool {
    &&& band_block_wf(block, band_count)
    &&& forall|i: int|
        0 <= i < band_count ==> band_entries_ok(block, i, curves, band_count, extent, horizontal)
}

/// Every band's entry range lies within the block.
pub proof fn lemma_block_entry_range(block: Seq<u32>, band_count: int, i: int)
    requires
        band_block_wf(block, band_count),
        0 <= i < band_count,
    ensures
        2 * band_count <= block_header_off(block, i),
        block_header_off(block, i) + block_count(block, i) <= block.len(),
{
    lemma_block_off_lower(block, band_count, i);
    lemma_block_off_upper(block, band_count, i);
}

proof fn lemma_block_off_lower(block: Seq<u32>, band_count: int, i: int)
    requires
        band_block_wf(block, band_count),
        0 <= i < band_count,
    ensures
        2 * band_count <= block_header_off(block, i),
    decreases i,
{
    if i > 0 {
        lemma_block_off_lower(block, band_count, i - 1);
        assert(block_count(block, i - 1) >= 0);
    }
}

proof fn lemma_block_off_upper(block: Seq<u32>, band_count: int, i: int)
    requires
        band_block_wf(block, band_count),
        0 <= i < band_count,
    ensures
        block_header_off(block, i) + block_count(block, i) <= block.len(),
    decreases band_count - i,
{
    if i < band_count - 1 {
        lemma_block_off_upper(block, band_count, i + 1);
        assert(block_count(block, i) >= 0);
        assert(block_count(block, i + 1) >= 0);
    }
}

/// Bounded factors give a bounded product.
proof fn lemma_mul_bounds(a: int, b: int, bound_a: int, bound_b: int)
    by (nonlinear_arith)
    requires
        0 <= bound_a,
        -bound_a <= a <= bound_a,
        0 <= b <= bound_b,
    ensures
        -(bound_a * bound_b) <= a * b <= bound_a * bound_b,
{
}

/// Files one entry into an ordered band list, keeping the order.  New
/// entries always carry the largest offset seen so far, so among equal keys
/// they go last.
#[verifier::rlimit(50)]
fn sorted_insert(band: &mut Vec<(i64, u32)>, key: i64, off: u32)
    requires
        sorted_pairs(old(band)@),
        forall|k: int| 0 <= k < old(band)@.len() ==> (#[trigger] old(band)@[k]).1 < off,
    ensures
        final(band)@.len() == old(band)@.len() + 1,
        sorted_pairs(final(band)@),
        forall|k: int| 0 <= k < final(band)@.len() ==> (#[trigger] final(band)@[k]).1 <= off,
        forall|q: (i64, u32)|
            #[trigger] final(band)@.contains(q) <==> (old(band)@.contains(q) || q == (key, off)),
{
    let n = band.len();
    let mut p: usize = 0;
    while p < n && band[p].0 >= key
        invariant
            n == band@.len(),
            0 <= p <= n,
            forall|k: int| 0 <= k < p ==> (#[trigger] band@[k]).0 >= key,
        decreases n - p,
    {
        p += 1;
    }
    let ghost old_seq = band@;
    band.insert(p, (key, off));
    proof {
        old_seq.insert_ensures(p as int, (key, off));
        let new_seq = band@;
        assert forall|k1: int, k2: int| 0 <= k1 < k2 < new_seq.len() implies pair_before(
            new_seq[k1],
            new_seq[k2],
        ) by {
            if k1 < p && k2 < p {
                assert(new_seq[k1] == old_seq[k1] && new_seq[k2] == old_seq[k2]);
            } else if k1 < p && k2 == p {
                assert(new_seq[k1] == old_seq[k1]);
                assert(old_seq[k1].0 >= key);
                assert(old_seq[k1].1 < off);
            } else if k1 < p && k2 > p {
                assert(new_seq[k1] == old_seq[k1] && new_seq[k2] == old_seq[k2 - 1]);
            } else if k1 == p {
                assert(new_seq[k2] == old_seq[k2 - 1]);
                assert(old_seq[k2 - 1].0 < key);
            } else {
                assert(new_seq[k1] == old_seq[k1 - 1] && new_seq[k2] == old_seq[k2 - 1]);
            }
        }
        assert forall|q: (i64, u32)| new_seq.contains(q) implies (old_seq.contains(q) || q == (
            key,
            off,
        )) by {
            let k = choose|k: int| 0 <= k < new_seq.len() && new_seq[k] == q;
            if k < p {
                assert(old_seq[k] == q);
            } else if k > p {
                assert(old_seq[k - 1] == q);
            }
        }
        assert forall|q: (i64, u32)| (old_seq.contains(q) || q == (key, off)) implies new_seq.contains(
            q,
        ) by {
            if old_seq.contains(q) {
                let k = choose|k: int| 0 <= k < old_seq.len() && old_seq[k] == q;
                if k < p {
                    assert(new_seq[k] == q);
                } else {
                    assert(new_seq[k + 1] == q);
                }
            } else {
                assert(new_seq[p as int] == q);
            }
        }
    }
}

/// Decides whether one curve belongs to one band and, if so, files its
/// entry.  `p0`, `p1`, `p2` are the curve's start, control and end points;
/// `extent` is the glyph's extent on the band axis.  The entry key is the
/// largest cross-axis coordinate of the three points.
pub fn band_process(
    horizontal: bool,
    extent: i64,
    band_count: usize,
    band_index: usize,
    p0: (i64, i64),
    p1: (i64, i64),
    p2: (i64, i64),
    offset: u32,
    target_band: &mut Vec<(i64, u32)>,
)
    requires
        1 <= band_count <= 16,
        band_index < band_count,
        0 <= extent <= CURVE_BOUND,
        -CURVE_BOUND <= p0.0 <= CURVE_BOUND,
        -CURVE_BOUND <= p0.1 <= CURVE_BOUND,
        -CURVE_BOUND <= p1.0 <= CURVE_BOUND,
        -CURVE_BOUND <= p1.1 <= CURVE_BOUND,
        -CURVE_BOUND <= p2.0 <= CURVE_BOUND,
        -CURVE_BOUND <= p2.1 <= CURVE_BOUND,
        sorted_pairs(old(target_band)@),
        forall|k: int| 0 <= k < old(target_band)@.len() ==> (#[trigger] old(target_band)@[k]).1
            < offset,
    ensures
        ({
            let included = band_overlaps(
                extent as int,
                band_count as int,
                band_index as int,
                spec_min3(
                    if horizontal { p0.1 as int } else { p0.0 as int },
                    if horizontal { p1.1 as int } else { p1.0 as int },
                    if horizontal { p2.1 as int } else { p2.0 as int },
                ),
                spec_max3(
                    if horizontal { p0.1 as int } else { p0.0 as int },
                    if horizontal { p1.1 as int } else { p1.0 as int },
                    if horizontal { p2.1 as int } else { p2.0 as int },
                ),
            );
            let key = spec_max3(
                if horizontal { p0.0 as int } else { p0.1 as int },
                if horizontal { p1.0 as int } else { p1.1 as int },
                if horizontal { p2.0 as int } else { p2.1 as int },
            );
            if included {
                &&& final(target_band)@.len() == old(target_band)@.len() + 1
                &&& sorted_pairs(final(target_band)@)
                &&& forall|k: int| 0 <= k < final(target_band)@.len() ==> (#[trigger] final(target_band)@[k]).1 <= offset
                &&& forall|q: (i64, u32)| #[trigger] final(target_band)@.contains(q) <==> (old(target_band)@.contains(q) || q == (key as i64, offset))
            } else {
                final(target_band)@ == old(target_band)@
            }
        }),
{
    let (y0, y1, y2) = if horizontal {
        (p0.1, p1.1, p2.1)
    } else {
        (p0.0, p1.0, p2.0)
    };
    let (x0, x1, x2) = if horizontal {
        (p0.0, p1.0, p2.0)
    } else {
        (p0.1, p1.1, p2.1)
    };
    let maxy = max_3number(y0, y1, y2);
    let miny = min_3number(y0, y1, y2);
    let bc = band_count as i64;
    let i = band_index as i64;
    proof {
        lemma_mul_bounds(maxy as int, bc as int, CURVE_BOUND as int, 16);
        lemma_mul_bounds(miny as int, bc as int, CURVE_BOUND as int, 16);
        lemma_mul_bounds(i as int, extent as int, 16, CURVE_BOUND as int);
        lemma_mul_bounds(i + 1, extent as int, 16, CURVE_BOUND as int);
    }
    if maxy * bc < i * extent || miny * bc > (i + 1) * extent {
        return ;
    }
    let key = max_3number(x0, x1, x2);
    sorted_insert(target_band, key, offset);
}

/// One filed pair carries a curve that belongs to the band, under its key.
pub open spec fn pair_matches(
    curves: Seq<Curve>,
    q: (i64, u32),
    i: int,
    band_count: int,
    extent: int,
    horizontal: bool,
) -> bool {
    &&& curve_in_band(curves, q.1 as int, i, band_count, extent, horizontal)
    &&& q.0 as int == entry_key(curves, q.1 as int, horizontal)
}

/// A finished band list: ordered, one pair per curve filed under the band,
/// and nothing else.
pub open spec fn band_list_ok(
    band: Seq<(i64, u32)>,
    i: int,
    curves: Seq<Curve>,
    band_count: int,
    extent: int,
    horizontal: bool,
) -> bool {
    &&& sorted_pairs(band)
    &&& forall|k: int|
        0 <= k < band.len() ==> pair_matches(
            curves,
            #[trigger] band[k],
            i,
            band_count,
            extent,
            horizontal,
        )
    &&& forall|o: int|
        curve_in_band(curves, o, i, band_count, extent, horizontal) ==> band.contains(
            (entry_key(curves, o, horizontal) as i64, o as u32),
        )
    &&& band.len() <= curves.len()
}

/// Builds the ordered entry list of one band by walking the glyph's curves
/// in offset order and filing each one that belongs to the band.
fn build_band(
    curves: &Vec<Curve>,
    band_index: usize,
    band_count: usize,
    extent: i64,
    horizontal: bool,
) -> (band: Vec<(i64, u32)>)
    requires
        2 <= band_count <= 16,
        band_index < band_count,
        0 <= extent <= CURVE_BOUND,
        curves_bounded(curves@),
        curves@.len() <= 0x0100_0000,
    ensures
        band_list_ok(
            band@,
            band_index as int,
            curves@,
            band_count as int,
            extent as int,
            horizontal,
        ),
{
    let ghost bi = band_index as int;
    let ghost bc = band_count as int;
    let mut band: Vec<(i64, u32)> = Vec::new();
    let mut prev_ex: i64 = 0;
    let mut prev_ey: i64 = 0;
    let n = curves.len();
    for o in 0..n
        invariant
            n == curves@.len(),
            n <= 0x0100_0000,
            curves_bounded(curves@),
            2 <= band_count <= 16,
            band_index < band_count,
            bi == band_index as int,
            bc == band_count as int,
            0 <= extent <= CURVE_BOUND,
            (prev_ex, prev_ey) == curve_start(curves@, o as int),
            -CURVE_BOUND <= prev_ex <= CURVE_BOUND,
            -CURVE_BOUND <= prev_ey <= CURVE_BOUND,
            sorted_pairs(band@),
            forall|k: int| 0 <= k < band@.len() ==> (#[trigger] band@[k]).1 < o,
            forall|k: int|
                0 <= k < band@.len() ==> pair_matches(
                    curves@,
                    #[trigger] band@[k],
                    bi,
                    bc,
                    extent as int,
                    horizontal,
                ),
            forall|o2: int|
                curve_in_band(curves@, o2, bi, bc, extent as int, horizontal) && o2 < o
                    ==> band@.contains((entry_key(curves@, o2, horizontal) as i64, o2 as u32)),
            band@.len() <= o,
    {
        let c = curves[o];
        proof {
            assert(crate::curves::curve_bounded(curves@[o as int]));
        }
        let start = (prev_ex, prev_ey);
        let mut filed = false;
        if !c.is_move_sentinel() {
            let s_axis = if horizontal {
                start.1
            } else {
                start.0
            };
            let e_axis = if horizontal {
                c.ey
            } else {
                c.ex
            };
            if e_axis != s_axis {
                let ghost old_band = band@;
                band_process(
                    horizontal,
                    extent,
                    band_count,
                    band_index,
                    start,
                    (c.c1x, c.c1y),
                    (c.ex, c.ey),
                    o as u32,
                    &mut band,
                );
                filed = true;
                proof {
                    let ghost key = entry_key(curves@, o as int, horizontal);
                    let included = band_overlaps(
                        extent as int,
                        bc,
                        bi,
                        axis_lo(curves@, o as int, horizontal),
                        axis_hi(curves@, o as int, horizontal),
                    );
                    if included {
                        assert(curve_in_band(curves@, o as int, bi, bc, extent as int, horizontal));
                        assert forall|k: int| 0 <= k < band@.len() implies pair_matches(
                            curves@,
                            #[trigger] band@[k],
                            bi,
                            bc,
                            extent as int,
                            horizontal,
                        ) && (band@[k]).1 < o + 1 by {
                            assert(band@.contains(band@[k]));
                            if band@[k] == (key as i64, o as u32) {
                            } else {
                                assert(old_band.contains(band@[k]));
                                let k2 = choose|k2: int|
                                    0 <= k2 < old_band.len() && old_band[k2] == band@[k];
                            }
                        }
                        assert(band@.contains((key as i64, o as u32)));
                        assert forall|o2: int|
                            curve_in_band(curves@, o2, bi, bc, extent as int, horizontal) && o2 < o
                                + 1 implies band@.contains(
                            (entry_key(curves@, o2, horizontal) as i64, o2 as u32),
                        ) by {
                            if o2 < o {
                                assert(old_band.contains(
                                    (entry_key(curves@, o2, horizontal) as i64, o2 as u32),
                                ));
                            }
                        }
                    } else {
                        assert(band@ == old_band);
                        assert(!curve_in_band(curves@, o as int, bi, bc, extent as int, horizontal));
                    }
                }
            }
        }
        proof {
            if !filed {
                assert(!curve_in_band(curves@, o as int, bi, bc, extent as int, horizontal));
            }
        }
        prev_ex = c.ex;
        prev_ey = c.ey;
    }
    band
}

/// Total entry count of the first `i` band lists.
pub open spec fn sum_lens_prefix(bands: Seq<Vec<(i64, u32)>>, i: int) -> int
    decreases i,
{
    if i <= 0 {
        0
    } else {
        sum_lens_prefix(bands, i - 1) + bands[i - 1]@.len()
    }
}

proof fn lemma_sum_lens_bound(bands: Seq<Vec<(i64, u32)>>, i: int, m: int)
    requires
        0 <= i <= bands.len(),
        0 <= m,
        forall|k: int| 0 <= k < bands.len() ==> #[trigger] bands[k]@.len() <= m,
    ensures
        0 <= sum_lens_prefix(bands, i) <= i * m,
    decreases i,
{
    if i > 0 {
        lemma_sum_lens_bound(bands, i - 1, m);
        assert((i - 1) * m + m == i * m) by (nonlinear_arith);
    }
}

proof fn lemma_sum_lens_mono(bands: Seq<Vec<(i64, u32)>>, a: int, b: int)
    requires
        0 <= a <= b,
    ensures
        sum_lens_prefix(bands, a) <= sum_lens_prefix(bands, b),
    decreases b - a,
{
    if a < b {
        lemma_sum_lens_mono(bands, a, b - 1);
    }
}

/// Builds one glyph's whole band block for one axis: `band_count` header
/// pairs, then the concatenated ordered entry lists.
pub fn build_glyph_bands(
    curves: &Vec<Curve>,
    band_count: usize,
    extent: i64,
    horizontal: bool,
) -> (block: Vec<u32>)
    requires
        2 <= band_count <= 16,
        0 <= extent <= CURVE_BOUND,
        curves_bounded(curves@),
        curves@.len() <= 0x0100_0000,
    ensures
        glyph_band_block_ok(
            block@,
            curves@,
            band_count as int,
            extent as int,
            horizontal,
        ),
        block@.len() <= 2 * band_count + 16 * curves@.len(),
{
    let ghost bc = band_count as int;
    let n = curves.len();
    let mut bands: Vec<Vec<(i64, u32)>> = Vec::new();
    for i in 0..band_count
        invariant
            n == curves@.len(),
            n <= 0x0100_0000,
            curves_bounded(curves@),
            2 <= band_count <= 16,
            bc == band_count as int,
            0 <= extent <= CURVE_BOUND,
            bands@.len() == i,
            forall|i2: int|
                0 <= i2 < i ==> band_list_ok(
                    (#[trigger] bands@[i2])@,
                    i2,
                    curves@,
                    bc,
                    extent as int,
                    horizontal,
                ),
    {
        let band = build_band(curves, i, band_count, extent, horizontal);
        bands.push(band);
    }
    // headers: a running offset, counted from the start of the block, so
    // that header pair i points at its band's entries directly
    let mut block: Vec<u32> = Vec::new();
    let mut count: usize = 2 * band_count;
    for i in 0..band_count
        invariant
            n <= 0x0100_0000,
            2 <= band_count <= 16,
            bc == band_count as int,
            bands@.len() == band_count,
            forall|i2: int|
                0 <= i2 < band_count ==> band_list_ok(
                    (#[trigger] bands@[i2])@,
                    i2,
                    curves@,
                    bc,
                    extent as int,
                    horizontal,
                ),
            forall|i2: int| 0 <= i2 < band_count ==> (#[trigger] bands@[i2])@.len() <= n,
            block@.len() == 2 * i,
            count == 2 * bc + sum_lens_prefix(bands@, i as int),
            count <= 2 * bc + i * 0x0100_0000,
            forall|i2: int|
                0 <= i2 < i ==> (#[trigger] block@[2 * i2]) as int == 2 * bc + sum_lens_prefix(
                    bands@,
                    i2,
                ) && block@[2 * i2 + 1] as int == bands@[i2]@.len(),
    {
        block.push(count as u32);
        block.push(bands[i].len() as u32);
        count += bands[i].len();
    }
    // entries, band by band, each list already in band order
    for i in 0..band_count
        invariant
            n <= 0x0100_0000,
            2 <= band_count <= 16,
            bc == band_count as int,
            bands@.len() == band_count,
            forall|i2: int|
                0 <= i2 < band_count ==> band_list_ok(
                    (#[trigger] bands@[i2])@,
                    i2,
                    curves@,
                    bc,
                    extent as int,
                    horizontal,
                ),
            forall|i2: int| 0 <= i2 < band_count ==> (#[trigger] bands@[i2])@.len() <= n,
            forall|i2: int|
                0 <= i2 < band_count ==> (#[trigger] block@[2 * i2]) as int == 2 * bc
                    + sum_lens_prefix(bands@, i2) && block@[2 * i2 + 1] as int == bands@[i2]@.len(),
            block@.len() == 2 * bc + sum_lens_prefix(bands@, i as int),
            forall|i2: int, k: int|
                0 <= i2 < i && 0 <= k < bands@[i2]@.len() ==> (#[trigger] block@[
                    2 * bc + sum_lens_prefix(bands@, i2) + k
                ]) == (bands@[i2]@[k]).1,
    {
        let m = bands[i].len();
        let ghost base = 2 * bc + sum_lens_prefix(bands@, i as int);
        for k in 0..m
            invariant
                n <= 0x0100_0000,
                2 <= band_count <= 16,
                bc == band_count as int,
                bands@.len() == band_count,
                i < band_count,
                forall|i2: int| 0 <= i2 < band_count ==> (#[trigger] bands@[i2])@.len() <= n,
                m == bands@[i as int]@.len(),
                base == 2 * bc + sum_lens_prefix(bands@, i as int),
                forall|i2: int|
                    0 <= i2 < band_count ==> (#[trigger] block@[2 * i2]) as int == 2 * bc
                        + sum_lens_prefix(bands@, i2) && block@[2 * i2 + 1] as int
                        == bands@[i2]@.len(),
                block@.len() == base + k,
                forall|k2: int| 0 <= k2 < k ==> (#[trigger] block@[base + k2]) == (
                bands@[i as int]@[k2]).1,
                forall|i2: int, k2: int|
                    0 <= i2 < i && 0 <= k2 < bands@[i2]@.len() ==> (#[trigger] block@[
                        2 * bc + sum_lens_prefix(bands@, i2) + k2
                    ]) == (bands@[i2]@[k2]).1,
        {
            block.push(bands[i][k].1);
            proof {
                lemma_sum_lens_bound(bands@, i as int, n as int);
                assert forall|i2: int| 0 <= i2 < band_count implies (#[trigger] block@[2 * i2])
                    as int == 2 * bc + sum_lens_prefix(bands@, i2) && block@[2 * i2 + 1] as int
                    == bands@[i2]@.len() by {
                    lemma_sum_lens_bound(bands@, i2, n as int);
                }
                assert forall|i2: int, k2: int|
                    0 <= i2 < i && 0 <= k2 < bands@[i2]@.len() implies (#[trigger] block@[
                    2 * bc + sum_lens_prefix(bands@, i2) + k2
                ]) == (bands@[i2]@[k2]).1 by {
                    lemma_sum_lens_bound(bands@, i2, n as int);
                    lemma_sum_lens_mono(bands@, i2 + 1, i as int);
                }
            }
        }
    }
    proof {
        lemma_sum_lens_bound(bands@, bc, n as int);
        assert(bc * (n as int) <= 16 * (n as int)) by (nonlinear_arith)
            requires
                2 <= bc <= 16,
                0 <= n,
        ;
        let b = block@;
        let cv = curves@;
        let ext = extent as int;
        assert(band_block_wf(b, bc));
        assert forall|i: int| 0 <= i < bc implies band_entries_ok(
            b,
            i,
            cv,
            bc,
            ext,
            horizontal,
        ) by {
            lemma_block_entry_range(b, bc, i);
            let e = band_entries(b, i);
            let band = bands@[i]@;
            let base = 2 * bc + sum_lens_prefix(bands@, i);
            assert(block_header_off(b, i) == base);
            assert(block_count(b, i) == band.len());
            assert forall|k: int| 0 <= k < e.len() implies e[k] == (band[k]).1 by {
                assert(b[base + k] == (band[k]).1);
            }
            assert forall|k: int| 0 <= k < e.len() implies curve_in_band(
                cv,
                (#[trigger] e[k]) as int,
                i,
                bc,
                ext,
                horizontal,
            ) by {
                assert(pair_matches(cv, band[k], i, bc, ext, horizontal));
            }
            assert forall|k1: int, k2: int| 0 <= k1 < k2 < e.len() implies entries_ordered(
                cv,
                #[trigger] e[k1],
                #[trigger] e[k2],
                horizontal,
            ) by {
                assert(pair_before(band[k1], band[k2]));
                assert(pair_matches(cv, band[k1], i, bc, ext, horizontal));
                assert(pair_matches(cv, band[k2], i, bc, ext, horizontal));
            }
            assert forall|o: int|
                curve_in_band(cv, o, i, bc, ext, horizontal) implies e.contains(o as u32) by {
                let q = (entry_key(cv, o, horizontal) as i64, o as u32);
                assert(band.contains(q));
                let k = choose|k: int| 0 <= k < band.len() && band[k] == q;
                assert(e[k] == o as u32);
            }
        }
    }
    block
}

} // verus!
