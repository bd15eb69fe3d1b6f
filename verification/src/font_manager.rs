//! The glyph-outline-to-band-index compiler: for every glyph id, normalizes
//! the recorded outline into curve records, builds the two band blocks, and
//! appends one summary record, accumulating everything into one
//! [`FontDrawingData`] aggregate.
//!
//! A glyph whose outline decomposition signalled "no geometry" gets the
//! sentinel summary record and contributes nothing to the curve or band
//! arrays.  A recorded cubic segment anywhere makes the whole build fail
//! fast: the font format in scope guarantees lines and quadratics only.

use vstd::prelude::*;

verus! {

use crate::bands::{
    band_entries, band_entries_ok, block_count, block_header_off, build_glyph_bands,
    entries_ordered, entry_key, glyph_band_block_ok,
};
use crate::curves::{
    cmds_bounded, cmds_in_bbox, curves_bounded, has_cubic, lemma_curve_count,
    lemma_curves_bounded, normalize_glyph, spec_curve_count, spec_curves,
};
use crate::font_data::{spec_empty_record, BBox, Curve, FontData};
use crate::font_info_saving::FontDrawingData;
use crate::font_outline::{FontOutlineData, OutlineDrawCommand};

/// What the outline decomposition collaborator supplies for one glyph id
/// that has an outline: the bounding box and the recorded commands, both in
/// font design units.
pub struct GlyphInput {
    pub bounding_box: BBox,
    pub outline: FontOutlineData,
}

/// The one fatal error of the build: a cubic curve segment appeared where
/// the font format in scope guarantees lines and quadratics only.
#[derive(Clone, Copy, Debug, PartialEq, Eq, Structural)]
pub enum FontError {
    UnsupportedGeometry,
}

pub open spec fn glyph_present(glyphs: Seq<Option<GlyphInput>>, g: int) -> bool {
    glyphs[g] is Some
}

pub open spec fn glyph_bbox(glyphs: Seq<Option<GlyphInput>>, g: int) -> BBox {
    glyphs[g]->Some_0.bounding_box
}

pub open spec fn glyph_cmds(glyphs: Seq<Option<GlyphInput>>, g: int) -> Seq<OutlineDrawCommand> {
    glyphs[g]->Some_0.outline.points@
}

/// The curve records of one present glyph.
pub open spec fn glyph_curves(glyphs: Seq<Option<GlyphInput>>, g: int) -> Seq<Curve> {
    spec_curves(glyph_cmds(glyphs, g), glyph_bbox(glyphs, g).x_min, glyph_bbox(glyphs, g).y_min)
}

/// One band per eight curves, kept between 2 and 16 so that per-band lists
/// stay short and the header table stays small.
pub open spec fn spec_band_count_of(count: nat) -> int {
    let q = count / 8;
    if q < 2 {
        2
    } else if q > 16 {
        16
    } else {
        q as int
    }
}

pub open spec fn glyph_band_count(glyphs: Seq<Option<GlyphInput>>, g: int) -> int {
    spec_band_count_of(spec_curve_count(glyph_cmds(glyphs, g)))
}

/// Total number of curve records of the present glyphs before glyph `g`.
pub open spec fn curves_before(glyphs: Seq<Option<GlyphInput>>, g: int) -> int
    decreases g,
{
    if g <= 0 {
        0
    } else {
        curves_before(glyphs, g - 1) + if glyph_present(glyphs, g - 1) {
            glyph_curves(glyphs, g - 1).len() as int
        } else {
            0
        }
    }
}

/// Every present glyph has an ordered, bounded box and commands inside it.
pub open spec fn glyphs_wf(glyphs: Seq<Option<GlyphInput>>) -> bool {
    forall|g: int|
        0 <= g < glyphs.len() && #[trigger] glyph_present(glyphs, g) ==> glyph_bbox(glyphs, g).wf()
            && cmds_in_bbox(glyph_cmds(glyphs, g), glyph_bbox(glyphs, g))
}

/// Some present glyph recorded a cubic segment.
pub open spec fn font_has_cubic(glyphs: Seq<Option<GlyphInput>>) -> bool {
    exists|g: int|
        0 <= g < glyphs.len() && #[trigger] glyph_present(glyphs, g) && has_cubic(
            glyph_cmds(glyphs, g),
        )
}

/// Index of the first present glyph after `g`, or the glyph count when
/// there is none.
pub open spec fn next_present(glyphs: Seq<Option<GlyphInput>>, g: int) -> int
    decreases glyphs.len() - g,
{
    if g + 1 >= glyphs.len() {
        glyphs.len() as int
    } else if glyph_present(glyphs, g + 1) {
        g + 1
    } else {
        next_present(glyphs, g + 1)
    }
}

/// Length of the block that starts at `start`: the last band's entry offset
/// plus its entry count, read from the last header pair.
pub open spec fn block_len_at(list: Seq<u32>, start: int, band_count: int) -> int {
    list[start + 2 * (band_count - 1)] as int + list[start + 2 * (band_count - 1) + 1] as int
}

/// A complete, well-formed glyph block sits at `start` in the flat array.
pub open spec fn valid_block_at(
    list: Seq<u32>,
    start: int,
    curves: Seq<Curve>,
    band_count: int,
    extent: int,
    horizontal: bool,
) -> bool {
    &&& 0 <= start
    &&& start + 2 * band_count <= list.len()
    &&& start + block_len_at(list, start, band_count) <= list.len()
    &&& glyph_band_block_ok(
        list.subrange(start, start + block_len_at(list, start, band_count)),
        curves,
        band_count,
        extent,
        horizontal,
    )
}

/// The summary record of present glyph `g` is correct and the runs it
/// points at hold exactly the glyph's curves and band blocks.
pub open spec fn glyph_summary_ok(
    glyphs: Seq<Option<GlyphInput>>,
    font_data: Seq<FontData>,
    font_curves: Seq<Curve>,
    hor: Seq<u32>,
    ver: Seq<u32>,
    g: int,
) -> bool {
    let s = font_data[g];
    let bbox = glyph_bbox(glyphs, g);
    let curves = glyph_curves(glyphs, g);
    let bc = glyph_band_count(glyphs, g);
    &&& s.curve_texel_index as int == curves_before(glyphs, g)
    &&& s.band_count as int == bc
    &&& s.width == 2 * (bbox.x_max - bbox.x_min)
    &&& s.height == 2 * (bbox.y_max - bbox.y_min)
    &&& s.curve_texel_index + curves.len() <= font_curves.len()
    &&& font_curves.subrange(
        s.curve_texel_index as int,
        s.curve_texel_index as int + curves.len() as int,
    ) == curves
    &&& valid_block_at(
        hor,
        s.hband_index as int,
        curves,
        bc,
        2 * (bbox.y_max - bbox.y_min),
        true,
    )
    &&& valid_block_at(
        ver,
        s.vband_index as int,
        curves,
        bc,
        2 * (bbox.x_max - bbox.x_min),
        false,
    )
}

/// Blocks are laid out consecutively in glyph order: each present glyph's
/// block ends where the next present glyph's block starts, and the last one
/// ends the array.
pub open spec fn glyph_chain_ok(
    glyphs: Seq<Option<GlyphInput>>,
    font_data: Seq<FontData>,
    hor: Seq<u32>,
    ver: Seq<u32>,
    g: int,
) -> bool {
    let s = font_data[g];
    let bc = glyph_band_count(glyphs, g);
    let nxt = next_present(glyphs, g);
    let hend = s.hband_index as int + block_len_at(hor, s.hband_index as int, bc);
    let vend = s.vband_index as int + block_len_at(ver, s.vband_index as int, bc);
    if nxt == glyphs.len() {
        hend == hor.len() && vend == ver.len()
    } else {
        font_data[nxt].hband_index as int == hend && font_data[nxt].vband_index as int == vend
    }
}

/// The complete contract of the build: one summary record per glyph id, in
/// glyph-id order; sentinel records for glyphs without outlines; each
/// present glyph's curve run and band blocks exactly as the normalizer and
/// band builder specify them, laid out consecutively.
pub open spec fn drawing_data_ok(glyphs: Seq<Option<GlyphInput>>, d: FontDrawingData) -> bool {
    &&& d.font_data@.len() == glyphs.len()
    &&& d.font_curves@.len() == curves_before(glyphs, glyphs.len() as int)
    &&& forall|g: int|
        0 <= g < glyphs.len() && !glyph_present(glyphs, g) ==> #[trigger] d.font_data@[g]
            == spec_empty_record()
    &&& forall|g: int|
        0 <= g < glyphs.len() && glyph_present(glyphs, g) ==> #[trigger] glyph_summary_ok(
            glyphs,
            d.font_data@,
            d.font_curves@,
            d.hor_band_list@,
            d.ver_band_list@,
            g,
        )
    &&& forall|g: int|
        0 <= g < glyphs.len() && glyph_present(glyphs, g) ==> #[trigger] glyph_chain_ok(
            glyphs,
            d.font_data@,
            d.hor_band_list@,
            d.ver_band_list@,
            g,
        )
    &&& ({
        let f = next_present(glyphs, -1);
        if f == glyphs.len() {
            d.hor_band_list@.len() == 0 && d.ver_band_list@.len() == 0
        } else {
            d.font_data@[f].hband_index == 0 && d.font_data@[f].vband_index == 0
        }
    })
}

/// The band block of present glyph `g` on one axis, cut out of the flat
/// array that its summary record points into.
pub open spec fn glyph_block(
    glyphs: Seq<Option<GlyphInput>>,
    d: FontDrawingData,
    g: int,
    horizontal: bool,
) -> Seq<u32> {
    let s = d.font_data@[g];
    let bc = glyph_band_count(glyphs, g);
    let list = if horizontal {
        d.hor_band_list@
    } else {
        d.ver_band_list@
    };
    let start = if horizontal {
        s.hband_index as int
    } else {
        s.vband_index as int
    };
    list.subrange(start, start + block_len_at(list, start, bc))
}

/// Every band entry of a glyph names one of that glyph's own curves, no
/// curve is filed twice in one band, and so one band never holds more
/// entries than the glyph has curves.
pub proof fn lemma_band_entries_within_glyph(
    glyphs: Seq<Option<GlyphInput>>,
    d: FontDrawingData,
    g: int,
    i: int,
    horizontal: bool,
)
    requires
        drawing_data_ok(glyphs, d),
        0 <= g < glyphs.len(),
        glyph_present(glyphs, g),
        0 <= i < glyph_band_count(glyphs, g),
    ensures
        ({
            let curves = glyph_curves(glyphs, g);
            let e = band_entries(glyph_block(glyphs, d, g, horizontal), i);
            &&& forall|k: int| 0 <= k < e.len() ==> ((#[trigger] e[k]) as int) < curves.len()
            &&& forall|k1: int, k2: int| 0 <= k1 < k2 < e.len() ==> e[k1] != e[k2]
            &&& e.len() <= curves.len()
        }),
{
    broadcast use vstd::seq_lib::seq_to_set_is_finite;
    broadcast use vstd::set::group_set_axioms;

    let curves = glyph_curves(glyphs, g);
    let bc = glyph_band_count(glyphs, g);
    let block = glyph_block(glyphs, d, g, horizontal);
    assert(glyph_summary_ok(
        glyphs,
        d.font_data@,
        d.font_curves@,
        d.hor_band_list@,
        d.ver_band_list@,
        g,
    ));
    assert(band_entries_ok(
        block,
        i,
        curves,
        bc,
        if horizontal {
            2 * (glyph_bbox(glyphs, g).y_max - glyph_bbox(glyphs, g).y_min)
        } else {
            2 * (glyph_bbox(glyphs, g).x_max - glyph_bbox(glyphs, g).x_min)
        },
        horizontal,
    ));
    let e = band_entries(block, i);
    assert forall|k1: int, k2: int| 0 <= k1 < k2 < e.len() implies e[k1] != e[k2] by {
        assert(entries_ordered(curves, e[k1], e[k2], horizontal));
    }
    let f = |x: u32| x as int;
    let m = e.map_values(f);
    assert(vstd::relations::injective(f)) by {
        assert forall|x1: u32, x2: u32| #[trigger] f(x1) == #[trigger] f(x2) implies x1 == x2 by {}
    }
    assert(e.no_duplicates());
    e.lemma_no_duplicates_injective(f);
    m.unique_seq_to_set();
    vstd::set_lib::lemma_int_range(0, curves.len() as int);
    assert(m.to_set().subset_of(vstd::set_lib::set_int_range(0, curves.len() as int))) by {
        assert forall|x: int| m.to_set().contains(x) implies vstd::set_lib::set_int_range(
            0,
            curves.len() as int,
        ).contains(x) by {
            let k = choose|k: int| 0 <= k < m.len() && m[k] == x;
            assert((e[k] as int) < curves.len());
        }
    }
    vstd::set_lib::lemma_len_subset(
        m.to_set(),
        vstd::set_lib::set_int_range(0, curves.len() as int),
    );
}

/// Within one band, entries come in non-increasing key order: the largest
/// cross-axis coordinate of the named curve's three points never grows as
/// the band is scanned front to back.
pub proof fn lemma_band_entries_sorted(
    glyphs: Seq<Option<GlyphInput>>,
    d: FontDrawingData,
    g: int,
    i: int,
    horizontal: bool,
)
    requires
        drawing_data_ok(glyphs, d),
        0 <= g < glyphs.len(),
        glyph_present(glyphs, g),
        0 <= i < glyph_band_count(glyphs, g),
    ensures
        ({
            let curves = glyph_curves(glyphs, g);
            let e = band_entries(glyph_block(glyphs, d, g, horizontal), i);
            forall|k1: int, k2: int|
                0 <= k1 < k2 < e.len() ==> entry_key(
                    curves,
                    (#[trigger] e[k1]) as int,
                    horizontal,
                ) >= entry_key(curves, (#[trigger] e[k2]) as int, horizontal)
        }),
{
    let curves = glyph_curves(glyphs, g);
    let bc = glyph_band_count(glyphs, g);
    let block = glyph_block(glyphs, d, g, horizontal);
    assert(glyph_summary_ok(
        glyphs,
        d.font_data@,
        d.font_curves@,
        d.hor_band_list@,
        d.ver_band_list@,
        g,
    ));
    assert(band_entries_ok(
        block,
        i,
        curves,
        bc,
        if horizontal {
            2 * (glyph_bbox(glyphs, g).y_max - glyph_bbox(glyphs, g).y_min)
        } else {
            2 * (glyph_bbox(glyphs, g).x_max - glyph_bbox(glyphs, g).x_min)
        },
        horizontal,
    ));
    let e = band_entries(block, i);
    assert forall|k1: int, k2: int|
        0 <= k1 < k2 < e.len() implies entry_key(
        curves,
        (#[trigger] e[k1]) as int,
        horizontal,
    ) >= entry_key(curves, (#[trigger] e[k2]) as int, horizontal) by {
        assert(entries_ordered(curves, e[k1], e[k2], horizontal));
    }
}

/// The header arithmetic of every glyph block: band 0's entries start right
/// after the `2 * band_count` header words, and each following band's entry
/// offset is the previous band's offset plus its entry count.
pub proof fn lemma_band_header_offsets(
    glyphs: Seq<Option<GlyphInput>>,
    d: FontDrawingData,
    g: int,
    horizontal: bool,
)
    requires
        drawing_data_ok(glyphs, d),
        0 <= g < glyphs.len(),
        glyph_present(glyphs, g),
    ensures
        ({
            let bc = glyph_band_count(glyphs, g);
            let block = glyph_block(glyphs, d, g, horizontal);
            &&& block_header_off(block, 0) == 2 * bc
            &&& forall|i: int|
                0 <= i < bc - 1 ==> block_header_off(block, i + 1)
                    == block_header_off(block, i) + #[trigger] block_count(
                    block,
                    i,
                )
        }),
{
    assert(glyph_summary_ok(
        glyphs,
        d.font_data@,
        d.font_curves@,
        d.hor_band_list@,
        d.ver_band_list@,
        g,
    ));
}

proof fn lemma_curves_before_mono(glyphs: Seq<Option<GlyphInput>>, a: int, b: int)
    requires
        0 <= a <= b,
    ensures
        curves_before(glyphs, a) <= curves_before(glyphs, b),
    decreases b - a,
{
    if a < b {
        lemma_curves_before_mono(glyphs, a, b - 1);
    }
}

proof fn lemma_next_present_range(glyphs: Seq<Option<GlyphInput>>, g: int)
    requires
        -1 <= g < glyphs.len(),
    ensures
        g < next_present(glyphs, g) <= glyphs.len(),
    decreases glyphs.len() - g,
{
    if g + 1 < glyphs.len() && !glyph_present(glyphs, g + 1) {
        lemma_next_present_range(glyphs, g + 1);
    }
}

proof fn lemma_next_present_gap(glyphs: Seq<Option<GlyphInput>>, a: int, b: int)
    requires
        -1 <= a < b <= glyphs.len(),
        b == glyphs.len() || glyph_present(glyphs, b),
        forall|m: int| a < m < b ==> !glyph_present(glyphs, m),
    ensures
        next_present(glyphs, a) == b,
    decreases b - a,
{
    if a + 1 < b {
        assert(!glyph_present(glyphs, a + 1));
        lemma_next_present_gap(glyphs, a + 1, b);
    }
}

/// A prefix agrees with the longer sequence at every index it has.
proof fn lemma_prefix_index<A>(a: Seq<A>, b: Seq<A>)
    requires
        a.is_prefix_of(b),
    ensures
        forall|j: int| 0 <= j < a.len() ==> a[j] == #[trigger] b[j],
{
    assert forall|j: int| 0 <= j < a.len() implies a[j] == #[trigger] b[j] by {
        assert(a[j] == b.subrange(0, a.len() as int)[j]);
    }
}

/// Facts about a finished glyph survive when the arrays only grow at the
/// end and the summary table keeps its records.
proof fn lemma_summary_stable(
    glyphs: Seq<Option<GlyphInput>>,
    fd_old: Seq<FontData>,
    fd_new: Seq<FontData>,
    fc_old: Seq<Curve>,
    fc_new: Seq<Curve>,
    hor_old: Seq<u32>,
    hor_new: Seq<u32>,
    ver_old: Seq<u32>,
    ver_new: Seq<u32>,
    g: int,
)
    requires
        0 <= g < fd_old.len(),
        glyph_summary_ok(glyphs, fd_old, fc_old, hor_old, ver_old, g),
        fd_old.len() <= fd_new.len(),
        fd_new[g] == fd_old[g],
        fc_old.is_prefix_of(fc_new),
        hor_old.is_prefix_of(hor_new),
        ver_old.is_prefix_of(ver_new),
    ensures
        glyph_summary_ok(glyphs, fd_new, fc_new, hor_new, ver_new, g),
{
    let s = fd_old[g];
    let curves = glyph_curves(glyphs, g);
    let bc = glyph_band_count(glyphs, g);
    lemma_prefix_index(fc_old, fc_new);
    lemma_prefix_index(hor_old, hor_new);
    lemma_prefix_index(ver_old, ver_new);
    assert(fc_new.subrange(
        s.curve_texel_index as int,
        s.curve_texel_index as int + curves.len() as int,
    ) =~= fc_old.subrange(
        s.curve_texel_index as int,
        s.curve_texel_index as int + curves.len() as int,
    ));
    assert(block_len_at(hor_new, s.hband_index as int, bc) == block_len_at(
        hor_old,
        s.hband_index as int,
        bc,
    ));
    assert(block_len_at(ver_new, s.vband_index as int, bc) == block_len_at(
        ver_old,
        s.vband_index as int,
        bc,
    ));
    let hlen = block_len_at(hor_old, s.hband_index as int, bc);
    let vlen = block_len_at(ver_old, s.vband_index as int, bc);
    assert(hor_new.subrange(s.hband_index as int, s.hband_index as int + hlen) =~= hor_old.subrange(
        s.hband_index as int,
        s.hband_index as int + hlen,
    ));
    assert(ver_new.subrange(s.vband_index as int, s.vband_index as int + vlen) =~= ver_old.subrange(
        s.vband_index as int,
        s.vband_index as int + vlen,
    ));
}

/// The chain fact about a finished glyph survives in the same way.
proof fn lemma_chain_stable(
    glyphs: Seq<Option<GlyphInput>>,
    fd_old: Seq<FontData>,
    fd_new: Seq<FontData>,
    fc_old: Seq<Curve>,
    hor_old: Seq<u32>,
    hor_new: Seq<u32>,
    ver_old: Seq<u32>,
    ver_new: Seq<u32>,
    g: int,
)
    requires
        0 <= g < fd_old.len(),
        g < glyphs.len(),
        glyph_summary_ok(glyphs, fd_old, fc_old, hor_old, ver_old, g),
        glyph_chain_ok(glyphs, fd_old, hor_old, ver_old, g),
        next_present(glyphs, g) < glyphs.len() ==> next_present(glyphs, g) < fd_old.len(),
        fd_old.len() <= fd_new.len(),
        fd_new[g] == fd_old[g],
        next_present(glyphs, g) < fd_old.len() ==> fd_new[next_present(glyphs, g)]
            == fd_old[next_present(glyphs, g)],
        hor_old.is_prefix_of(hor_new),
        ver_old.is_prefix_of(ver_new),
        next_present(glyphs, g) == glyphs.len() ==> hor_new == hor_old && ver_new == ver_old,
    ensures
        glyph_chain_ok(glyphs, fd_new, hor_new, ver_new, g),
{
    let s = fd_old[g];
    let bc = glyph_band_count(glyphs, g);
    lemma_prefix_index(hor_old, hor_new);
    lemma_prefix_index(ver_old, ver_new);
    assert(block_len_at(hor_new, s.hband_index as int, bc) == block_len_at(
        hor_old,
        s.hband_index as int,
        bc,
    ));
    assert(block_len_at(ver_new, s.vband_index as int, bc) == block_len_at(
        ver_old,
        s.vband_index as int,
        bc,
    ));
    lemma_next_present_range(glyphs, g);
    let nxt = next_present(glyphs, g);
    let hend = s.hband_index as int + block_len_at(hor_old, s.hband_index as int, bc);
    let vend = s.vband_index as int + block_len_at(ver_old, s.vband_index as int, bc);
    if nxt == glyphs.len() {
        assert(hend == hor_old.len() && vend == ver_old.len());
    } else {
        assert(nxt < fd_old.len());
        assert(fd_new[nxt] == fd_old[nxt]);
        assert(fd_old[nxt].hband_index as int == hend && fd_old[nxt].vband_index as int == vend);
    }
}

proof fn lemma_next_present_le(glyphs: Seq<Option<GlyphInput>>, a: int, b: int)
    requires
        -1 <= a < b <= glyphs.len(),
        b == glyphs.len() || glyph_present(glyphs, b),
    ensures
        next_present(glyphs, a) <= b,
    decreases b - a,
{
    if a + 1 < b && !glyph_present(glyphs, a + 1) {
        lemma_next_present_le(glyphs, a + 1, b);
    }
}

/// Scans a recorded outline for a cubic segment.
fn outline_has_cubic(commands: &Vec<OutlineDrawCommand>) -> (r: bool)
    ensures
        r == has_cubic(commands@),
{
    let n = commands.len();
    for i in 0..n
        invariant
            n == commands@.len(),
            forall|j: int|
                0 <= j < i ==> !((#[trigger] commands@[j]) matches OutlineDrawCommand::CurveTo(
                    _,
                    _,
                    _,
                    _,
                    _,
                    _,
                )),
    {
        match commands[i] {
            OutlineDrawCommand::CurveTo(_, _, _, _, _, _) => {
                proof {
                    assert(commands@[i as int] matches OutlineDrawCommand::CurveTo(
                        _,
                        _,
                        _,
                        _,
                        _,
                        _,
                    ));
                }
                return true;
            },
            _ => {},
        }
    }
    proof {
        if has_cubic(commands@) {
            let j = choose|j: int|
                0 <= j < commands@.len() && (#[trigger] commands@[j]) matches OutlineDrawCommand::CurveTo(
                    _,
                    _,
                    _,
                    _,
                    _,
                    _,
                );
            assert(false);
        }
    }
    false
}

/// Runs the whole pipeline over every glyph id: normalizes each present
/// glyph's outline, builds its two band blocks, and appends its summary
/// record; glyphs without outlines get the sentinel record and contribute
/// nothing else.  Fails fast, for the whole font, when any glyph recorded a
/// cubic segment.
///
/// The size bounds keep every offset comfortably within `u32`, far beyond
/// what any real font needs.
#[verifier::rlimit(100)]
pub fn get_font_drawing_data(glyphs: &Vec<Option<GlyphInput>>) -> (r: Result<
    FontDrawingData,
    FontError,
>)
    requires
        glyphs_wf(glyphs@),
        glyphs@.len() <= 0x10000,
        curves_before(glyphs@, glyphs@.len() as int) <= 0x0100_0000,
    ensures
        match r {
            Ok(d) => drawing_data_ok(glyphs@, d) && !font_has_cubic(glyphs@),
            Err(e) => e == FontError::UnsupportedGeometry && font_has_cubic(glyphs@),
        },
{
    let n_glyphs = glyphs.len();
    let mut font_data: Vec<FontData> = Vec::new();
    let mut font_curves: Vec<Curve> = Vec::new();
    let mut hor_band_list: Vec<u32> = Vec::new();
    let mut ver_band_list: Vec<u32> = Vec::new();
    let mut curves_index: usize = 0;
    let ghost mut last_p: int = -1;
    for g in 0..n_glyphs
        invariant
            n_glyphs == glyphs@.len(),
            glyphs_wf(glyphs@),
            glyphs@.len() <= 0x10000,
            curves_before(glyphs@, glyphs@.len() as int) <= 0x0100_0000,
            font_data@.len() == g,
            curves_index == curves_before(glyphs@, g as int),
            font_curves@.len() == curves_index,
            curves_index <= 0x0100_0000,
            hor_band_list@.len() <= 32 * g + 16 * curves_index,
            ver_band_list@.len() <= 32 * g + 16 * curves_index,
            forall|g2: int|
                0 <= g2 < g && !glyph_present(glyphs@, g2) ==> #[trigger] font_data@[g2]
                    == spec_empty_record(),
            forall|g2: int|
                0 <= g2 < g && glyph_present(glyphs@, g2) ==> #[trigger] glyph_summary_ok(
                    glyphs@,
                    font_data@,
                    font_curves@,
                    hor_band_list@,
                    ver_band_list@,
                    g2,
                ),
            forall|g2: int|
                0 <= g2 < g && glyph_present(glyphs@, g2) && g2 != last_p
                    ==> #[trigger] glyph_chain_ok(
                    glyphs@,
                    font_data@,
                    hor_band_list@,
                    ver_band_list@,
                    g2,
                ),
            forall|g2: int|
                0 <= g2 < g && #[trigger] glyph_present(glyphs@, g2) ==> !has_cubic(
                    glyph_cmds(glyphs@, g2),
                ),
            -1 <= last_p < g as int,
            last_p >= 0 ==> glyph_present(glyphs@, last_p),
            forall|m: int| last_p < m < g ==> !glyph_present(glyphs@, m),
            last_p == -1 ==> hor_band_list@.len() == 0 && ver_band_list@.len() == 0,
            last_p >= 0 ==> ({
                let s = font_data@[last_p];
                let bc = glyph_band_count(glyphs@, last_p);
                hor_band_list@.len() == s.hband_index as int + block_len_at(
                    hor_band_list@,
                    s.hband_index as int,
                    bc,
                ) && ver_band_list@.len() == s.vband_index as int + block_len_at(
                    ver_band_list@,
                    s.vband_index as int,
                    bc,
                )
            }),
            last_p >= 0 ==> ({
                let f = next_present(glyphs@, -1);
                0 <= f <= last_p && font_data@[f].hband_index == 0 && font_data@[f].vband_index
                    == 0
            }),
    {
        let ghost gv = glyphs@;
        let ghost gi_ = g as int;
        let ghost old_fd = font_data@;
        let ghost old_fc = font_curves@;
        let ghost old_h = hor_band_list@;
        let ghost old_v = ver_band_list@;
        let ghost old_last = last_p;
        match &glyphs[g] {
            Some(gi) => {
                proof {
                    assert(glyph_present(gv, gi_));
                    assert(glyph_cmds(gv, gi_) == gi.outline.points@);
                    assert(glyph_bbox(gv, gi_) == gi.bounding_box);
                }
                if outline_has_cubic(&gi.outline.points) {
                    proof {
                        assert(font_has_cubic(glyphs@));
                    }
                    return Err(FontError::UnsupportedGeometry);
                }
                let bbox = gi.bounding_box;
                proof {
                    assert(bbox.wf() && cmds_in_bbox(gi.outline.points@, bbox));
                    assert forall|ii: int|
                        0 <= ii < gi.outline.points@.len() implies crate::curves::cmd_point_bounded(
                        #[trigger] gi.outline.points@[ii],
                    ) by {
                        assert(crate::curves::cmd_in_bbox(gi.outline.points@[ii], bbox));
                    }
                }
                let n_records = gi.outline.number_of_curves();
                let mut band_count: usize = n_records / 8;
                if band_count < 2 {
                    band_count = 2;
                }
                if band_count > 16 {
                    band_count = 16;
                }
                let curves_g = normalize_glyph(&gi.outline.points, bbox.x_min, bbox.y_min);
                proof {
                    lemma_curve_count(gi.outline.points@, bbox.x_min, bbox.y_min);
                    lemma_curves_bounded(gi.outline.points@, bbox.x_min, bbox.y_min);
                    assert(curves_g@ == glyph_curves(gv, gi_));
                    assert(band_count as int == glyph_band_count(gv, gi_));
                    assert(curves_before(gv, gi_ + 1) == curves_index + curves_g@.len());
                    lemma_curves_before_mono(gv, gi_ + 1, gv.len() as int);
                }
                let hband_start = hor_band_list.len();
                let vband_start = ver_band_list.len();
                font_data.push(
                    FontData::new(
                        curves_index,
                        hband_start,
                        vband_start,
                        band_count as u32,
                        &bbox,
                    ),
                );
                let mut hblock = build_glyph_bands(&curves_g, band_count, bbox.height(), true);
                let mut vblock = build_glyph_bands(&curves_g, band_count, bbox.width(), false);
                let n_curves_g = curves_g.len();
                let ghost curves_gv = curves_g@;
                let ghost hblock_v = hblock@;
                let ghost vblock_v = vblock@;
                let mut curves_tmp = curves_g;
                font_curves.append(&mut curves_tmp);
                hor_band_list.append(&mut hblock);
                ver_band_list.append(&mut vblock);
                curves_index = curves_index + n_curves_g;
                proof {
                    let ghost bc = band_count as int;
                    let fd = font_data@;
                    let fc = font_curves@;
                    let hh = hor_band_list@;
                    let vv = ver_band_list@;
                    let s_new = fd[gi_];
                    assert(old_fc.is_prefix_of(fc)) by {
                        assert(old_fc =~= fc.subrange(0, old_fc.len() as int));
                    }
                    assert(old_h.is_prefix_of(hh)) by {
                        assert(old_h =~= hh.subrange(0, old_h.len() as int));
                    }
                    assert(old_v.is_prefix_of(vv)) by {
                        assert(old_v =~= vv.subrange(0, old_v.len() as int));
                    }
                    // the new glyph's own summary record and runs
                    assert(fc.subrange(
                        s_new.curve_texel_index as int,
                        s_new.curve_texel_index as int + curves_gv.len() as int,
                    ) =~= curves_gv);
                    assert(hh[hband_start as int + 2 * (bc - 1)] == hblock_v[2 * (bc - 1)]);
                    assert(hh[hband_start as int + 2 * (bc - 1) + 1] == hblock_v[2 * (bc - 1)
                        + 1]);
                    assert(block_len_at(hh, hband_start as int, bc) == hblock_v.len());
                    assert(hh.subrange(
                        hband_start as int,
                        hband_start as int + hblock_v.len() as int,
                    ) =~= hblock_v);
                    assert(vv[vband_start as int + 2 * (bc - 1)] == vblock_v[2 * (bc - 1)]);
                    assert(vv[vband_start as int + 2 * (bc - 1) + 1] == vblock_v[2 * (bc - 1)
                        + 1]);
                    assert(block_len_at(vv, vband_start as int, bc) == vblock_v.len());
                    assert(vv.subrange(
                        vband_start as int,
                        vband_start as int + vblock_v.len() as int,
                    ) =~= vblock_v);
                    assert(glyph_summary_ok(gv, fd, fc, hh, vv, gi_));
                    // the previous present glyph's block ends exactly here
                    if old_last >= 0 {
                        lemma_next_present_gap(gv, old_last, gi_);
                        let s_l = old_fd[old_last];
                        let bc_l = glyph_band_count(gv, old_last);
                        assert(glyph_summary_ok(gv, old_fd, old_fc, old_h, old_v, old_last));
                        lemma_prefix_index(old_h, hh);
                        lemma_prefix_index(old_v, vv);
                        assert(block_len_at(hh, s_l.hband_index as int, bc_l) == block_len_at(
                            old_h,
                            s_l.hband_index as int,
                            bc_l,
                        ));
                        assert(block_len_at(vv, s_l.vband_index as int, bc_l) == block_len_at(
                            old_v,
                            s_l.vband_index as int,
                            bc_l,
                        ));
                        assert(glyph_chain_ok(gv, fd, hh, vv, old_last));
                    } else {
                        lemma_next_present_gap(gv, -1, gi_);
                    }
                    // everything already built is untouched
                    assert forall|g2: int|
                        0 <= g2 < gi_ && glyph_present(gv, g2) implies #[trigger] glyph_summary_ok(
                        gv,
                        fd,
                        fc,
                        hh,
                        vv,
                        g2,
                    ) by {
                        lemma_summary_stable(
                            gv,
                            old_fd,
                            fd,
                            old_fc,
                            fc,
                            old_h,
                            hh,
                            old_v,
                            vv,
                            g2,
                        );
                    }
                    assert forall|g2: int|
                        0 <= g2 < gi_ && glyph_present(gv, g2) && g2 != old_last
                            implies #[trigger] glyph_chain_ok(gv, fd, hh, vv, g2) by {
                        assert(g2 < old_last);
                        lemma_next_present_le(gv, g2, old_last);
                        lemma_next_present_range(gv, g2);
                        lemma_chain_stable(gv, old_fd, fd, old_fc, old_h, hh, old_v, vv, g2);
                    }
                    last_p = gi_;
                }
            },
            None => {
                font_data.push(FontData::empty());
                proof {
                    assert(!glyph_present(gv, gi_));
                    let fd = font_data@;
                    assert(old_fc.is_prefix_of(old_fc)) by {
                        assert(old_fc =~= old_fc.subrange(0, old_fc.len() as int));
                    }
                    assert(old_h.is_prefix_of(old_h)) by {
                        assert(old_h =~= old_h.subrange(0, old_h.len() as int));
                    }
                    assert(old_v.is_prefix_of(old_v)) by {
                        assert(old_v =~= old_v.subrange(0, old_v.len() as int));
                    }
                    assert forall|g2: int|
                        0 <= g2 < gi_ && glyph_present(gv, g2) implies #[trigger] glyph_summary_ok(
                        gv,
                        fd,
                        old_fc,
                        old_h,
                        old_v,
                        g2,
                    ) by {
                        lemma_summary_stable(
                            gv,
                            old_fd,
                            fd,
                            old_fc,
                            old_fc,
                            old_h,
                            old_h,
                            old_v,
                            old_v,
                            g2,
                        );
                    }
                    assert forall|g2: int|
                        0 <= g2 < gi_ && glyph_present(gv, g2) && g2 != old_last
                            implies #[trigger] glyph_chain_ok(gv, fd, old_h, old_v, g2) by {
                        assert(g2 < old_last);
                        lemma_next_present_le(gv, g2, old_last);
                        lemma_next_present_range(gv, g2);
                        lemma_chain_stable(
                            gv,
                            old_fd,
                            fd,
                            old_fc,
                            old_h,
                            old_h,
                            old_v,
                            old_v,
                            g2,
                        );
                    }
                }
            },
        }
    }
    proof {
        let gv = glyphs@;
        let fd = font_data@;
        let hh = hor_band_list@;
        let vv = ver_band_list@;
        if last_p >= 0 {
            lemma_next_present_gap(gv, last_p, gv.len() as int);
            assert(glyph_chain_ok(gv, fd, hh, vv, last_p));
        } else {
            lemma_next_present_gap(gv, -1, gv.len() as int);
        }
        if font_has_cubic(gv) {
            let gw = choose|gw: int|
                0 <= gw < gv.len() && #[trigger] glyph_present(gv, gw) && has_cubic(
                    glyph_cmds(gv, gw),
                );
            assert(false);
        }
    }
    Ok(FontDrawingData { font_data, font_curves, hor_band_list, ver_band_list })
}

} // verus!
