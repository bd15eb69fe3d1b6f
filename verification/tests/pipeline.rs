use glyph_bands::cache::load_or_build;
use glyph_bands::font_outline::OutlineDrawCommand;
use glyph_bands::font_data::{BBox, Curve, FontData};
use glyph_bands::font_manager::{get_font_drawing_data, FontError, GlyphInput};
use glyph_bands::font_outline::FontOutlineData;

fn triangle_glyph() -> GlyphInput {
    // a single closed triangle with vertices (0,0), (1,0), (0,1) in a
    // one-unit em square; the close implicitly returns to the start
    let mut outline = FontOutlineData::new();
    outline.move_to(0, 0);
    outline.line_to(1, 0);
    outline.line_to(0, 1);
    outline.close();
    outline.finish();
    GlyphInput { bounding_box: BBox::new(0, 0, 1, 1), outline }
}

#[test]
fn triangle_curve_records() {
    let glyphs = vec![Some(triangle_glyph())];
    let data = get_font_drawing_data(&glyphs).unwrap();
    // exactly 3 records: one sentinel move and two synthesized line curves
    assert_eq!(data.font_curves.len(), 3);
    assert_eq!(data.font_curves[0], Curve { c1x: -1, c1y: -1, ex: 0, ey: 0 });
    // half-unit grid: the ends are doubled, the controls are exact midpoints
    assert_eq!(data.font_curves[1], Curve { c1x: 1, c1y: 0, ex: 2, ey: 0 });
    assert_eq!(data.font_curves[2], Curve { c1x: 1, c1y: 1, ex: 0, ey: 2 });
    assert_eq!(data.font_data.len(), 1);
    let s = &data.font_data[0];
    assert_eq!(s.curve_texel_index, 0);
    assert_eq!(s.band_count, 2);
    assert_eq!(s.width, 2);
    assert_eq!(s.height, 2);
    assert_eq!(s.hband_index, 0);
    assert_eq!(s.vband_index, 0);
}

#[test]
fn triangle_band_entries() {
    let glyphs = vec![Some(triangle_glyph())];
    let data = get_font_drawing_data(&glyphs).unwrap();
    // horizontal axis: the bottom edge is flat in y and is rejected; the
    // diagonal spans both bands and is the only entry in each
    assert_eq!(data.hor_band_list, vec![4, 1, 5, 1, 2, 2]);
    // vertical axis: both the bottom edge and the diagonal span both bands;
    // the diagonal's key (largest y, 2) beats the bottom edge's (0)
    assert_eq!(data.ver_band_list, vec![4, 2, 6, 2, 2, 1, 2, 1]);
}

#[test]
fn band_keys_descend() {
    // two quadratics in the lower band with distinct keys: entries must be
    // ordered by key descending
    let mut outline = FontOutlineData::new();
    outline.move_to(0, 0);
    outline.quad_to(1, 1, 0, 2);
    outline.quad_to(9, 1, 0, 4);
    outline.close();
    let glyphs = vec![Some(GlyphInput {
        bounding_box: BBox::new(0, 0, 10, 10),
        outline,
    })];
    let data = get_font_drawing_data(&glyphs).unwrap();
    // band 0 holds both curves, the far-reaching one (key 18) first; band 1
    // holds none
    assert_eq!(data.hor_band_list, vec![4, 2, 6, 0, 2, 1]);
    // header offsets chain: 4 == 2 * band_count, then 4 + 2 == 6
    assert_eq!(data.hor_band_list[0] + data.hor_band_list[1], data.hor_band_list[2]);
    // entries never outnumber the glyph's curves
    assert!((data.hor_band_list[1] as usize) <= data.font_curves.len());
    assert!((data.hor_band_list[3] as usize) <= data.font_curves.len());
}

#[test]
fn empty_outline_gets_sentinel_record() {
    // a glyph with no outline (the space glyph) produces the sentinel
    // summary record and contributes nothing to either band array
    let glyphs = vec![None, Some(triangle_glyph())];
    let data = get_font_drawing_data(&glyphs).unwrap();
    assert_eq!(data.font_data.len(), 2);
    assert_eq!(data.font_data[0], FontData::empty());
    assert!(data.font_data[0].width < 0);
    assert!(data.font_data[0].height < 0);
    // the present glyph's runs start at the very beginning of the arrays
    assert_eq!(data.font_data[1].curve_texel_index, 0);
    assert_eq!(data.font_data[1].hband_index, 0);
    assert_eq!(data.font_data[1].vband_index, 0);
}

#[test]
fn empty_font_builds_empty_arrays() {
    let glyphs: Vec<Option<GlyphInput>> = vec![None, None];
    let data = get_font_drawing_data(&glyphs).unwrap();
    assert_eq!(data.font_data.len(), 2);
    assert!(data.font_curves.is_empty());
    assert!(data.hor_band_list.is_empty());
    assert!(data.ver_band_list.is_empty());
}

#[test]
fn cubic_segment_fails_fast() {
    let mut outline = FontOutlineData::new();
    outline.move_to(0, 0);
    outline.curve_to(1, 1, 2, 2, 3, 0);
    outline.close();
    let glyphs = vec![Some(GlyphInput {
        bounding_box: BBox::new(0, 0, 3, 3),
        outline,
    })];
    assert_eq!(get_font_drawing_data(&glyphs), Err(FontError::UnsupportedGeometry));
    assert_eq!(load_or_build(None, &glyphs), Err(FontError::UnsupportedGeometry));
}

#[test]
fn line_controls_are_midpoints() {
    // straight contours only: every control point is the exact midpoint of
    // its segment, visible on the half-unit grid
    let mut outline = FontOutlineData::new();
    outline.move_to(2, 3);
    outline.line_to(7, 5);
    outline.line_to(3, 9);
    outline.close();
    let glyphs = vec![Some(GlyphInput {
        bounding_box: BBox::new(2, 3, 7, 9),
        outline,
    })];
    let data = get_font_drawing_data(&glyphs).unwrap();
    let c = &data.font_curves;
    assert_eq!(c[0], Curve { c1x: -1, c1y: -1, ex: 0, ey: 0 });
    let mut start = (c[0].ex, c[0].ey);
    for record in c.iter().skip(1) {
        assert_eq!(2 * record.c1x, start.0 + record.ex);
        assert_eq!(2 * record.c1y, start.1 + record.ey);
        start = (record.ex, record.ey);
    }
}

#[test]
fn recorder_keeps_commands_in_order() {
    let mut outline = FontOutlineData::new();
    outline.move_to(1, 2);
    outline.quad_to(3, 4, 5, 6);
    outline.line_to(7, 8);
    outline.close();
    outline.finish();
    let cmds = outline.point_command_iter();
    assert_eq!(cmds.len(), 4);
    assert_eq!(cmds[0], OutlineDrawCommand::MoveTo(1, 2));
    assert_eq!(cmds[1], OutlineDrawCommand::QuadTo(3, 4, 5, 6));
    assert_eq!(cmds[2], OutlineDrawCommand::LineTo(7, 8));
    assert_eq!(cmds[3], OutlineDrawCommand::Close);
    assert_eq!(outline.number_of_curves(), 3);
}

#[test]
fn band_count_is_one_per_eight_curves_clamped() {
    // a zig-zag with many segments: one band per eight curve records,
    // clamped to at most 16 and at least 2
    let mut big = FontOutlineData::new();
    big.move_to(0, 0);
    for k in 1..140 {
        big.line_to(k % 100, (k * 7) % 100);
    }
    big.close();
    let glyphs = vec![Some(GlyphInput {
        bounding_box: BBox::new(0, 0, 100, 100),
        outline: big,
    })];
    let data = get_font_drawing_data(&glyphs).unwrap();
    assert_eq!(data.font_curves.len(), 140);
    assert_eq!(data.font_data[0].band_count, 16);

    let glyphs = vec![Some(triangle_glyph())];
    let data = get_font_drawing_data(&glyphs).unwrap();
    // 3 curves / 8 would give 0 bands; the floor keeps the layout uniform
    assert_eq!(data.font_data[0].band_count, 2);
}

#[test]
fn rebuild_from_corrupted_cache_matches_cold_build() {
    // a truncated cache file must behave exactly like no cache at all
    let glyphs = vec![Some(triangle_glyph()), None];
    let (cold, written) = load_or_build(None, &glyphs).unwrap();
    let bytes = written.expect("a cold build hands back bytes to store");
    let mut corrupted = bytes.clone();
    corrupted.truncate(bytes.len() - 3);
    let (rebuilt, rewritten) = load_or_build(Some(&corrupted), &glyphs).unwrap();
    assert_eq!(rebuilt, cold);
    assert_eq!(rewritten.expect("a rebuild hands back bytes to store"), bytes);
}

#[test]
fn valid_cache_is_loaded_verbatim() {
    let glyphs = vec![Some(triangle_glyph())];
    let (built, written) = load_or_build(None, &glyphs).unwrap();
    let bytes = written.unwrap();
    let (loaded, rewritten) = load_or_build(Some(&bytes), &glyphs).unwrap();
    assert_eq!(loaded, built);
    assert!(rewritten.is_none());
}
