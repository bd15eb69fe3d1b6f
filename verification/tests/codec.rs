use glyph_bands::font_data::{Curve, FontData};
use glyph_bands::font_info_saving::{
    decode_font_drawing_data, encode_font_drawing_data, encode_then_decode, FontDrawingData,
};

fn sample_data() -> FontDrawingData {
    FontDrawingData {
        font_data: vec![
            FontData::empty(),
            FontData {
                curve_texel_index: 0,
                hband_index: 0,
                vband_index: 0,
                band_count: 2,
                width: 14,
                height: -6,
            },
        ],
        font_curves: vec![
            Curve { c1x: -1, c1y: -1, ex: 0, ey: 0 },
            Curve { c1x: 5, c1y: -3, ex: 10, ey: 8 },
        ],
        hor_band_list: vec![4, 1, 5, 0, 1],
        ver_band_list: vec![4, 0, 4, 1, 1],
    }
}

#[test]
fn encode_decode_reproduces_arrays() {
    let data = sample_data();
    let bytes = encode_font_drawing_data(&data);
    let back = decode_font_drawing_data(&bytes).expect("a fresh encoding must decode");
    assert_eq!(back, data);
    // and the convenience round trip agrees
    let (bytes2, back2) = encode_then_decode(&data);
    assert_eq!(bytes2, bytes);
    assert_eq!(back2.unwrap(), data);
}

#[test]
fn encode_layout_is_word_exact() {
    let data = sample_data();
    let bytes = encode_font_drawing_data(&data);
    // tag + 4 lengths + 2 records * 6 + 2 curves * 4 + 5 + 5 entries
    assert_eq!(bytes.len(), 8 * (5 + 12 + 8 + 5 + 5));
    // the stored lengths, little endian, right after the tag
    assert_eq!(bytes[8], 2);
    assert_eq!(bytes[16], 2);
    assert_eq!(bytes[24], 5);
    assert_eq!(bytes[32], 5);
}

#[test]
fn decode_rejects_truncated_bytes() {
    let bytes = encode_font_drawing_data(&sample_data());
    // not a multiple of eight
    let mut odd = bytes.clone();
    odd.truncate(bytes.len() - 3);
    assert!(decode_font_drawing_data(&odd).is_none());
    // a whole word missing
    let mut short = bytes.clone();
    short.truncate(bytes.len() - 8);
    assert!(decode_font_drawing_data(&short).is_none());
    // empty
    assert!(decode_font_drawing_data(&Vec::new()).is_none());
}

#[test]
fn decode_rejects_wrong_tag() {
    let mut bytes = encode_font_drawing_data(&sample_data());
    bytes[0] ^= 0xff;
    assert!(decode_font_drawing_data(&bytes).is_none());
}

#[test]
fn decode_rejects_oversized_stored_value() {
    let mut bytes = encode_font_drawing_data(&sample_data());
    // the first summary record's first word starts at byte 40; setting a
    // high byte makes it no longer fit in 32 bits
    bytes[44] = 1;
    assert!(decode_font_drawing_data(&bytes).is_none());
}
