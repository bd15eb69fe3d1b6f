//! Font drawing cache policy: load the cached bytes when they decode, else
//! build from the glyph outlines and hand back the bytes to store.  Reading
//! and writing the cache file is I/O and stays with the surrounding
//! application; this module decides, and never propagates a decode failure.
//!
//! The cache key is derived from the font file's name alone,
//! case-insensitively: a changed font file under the same name keeps its
//! stale cache until the file is removed.

use vstd::prelude::*;

verus! {

use vstd::string::StringExecFns;
use crate::font_info_saving::{
    decode_font_drawing_data, encode_font_drawing_data, spec_decode, spec_encode, FontDrawingData,
};
use crate::font_manager::{
    curves_before, drawing_data_ok, font_has_cubic, get_font_drawing_data, glyphs_wf, FontError,
    GlyphInput,
};

/// What `str::to_lowercase` returns for the given characters.  The result
/// depends on the characters alone, so naming it lets contracts speak of it.
pub uninterp spec fn lower_of(s: Seq<char>) -> Seq<char>;

/// Relies on `str::to_lowercase`: the Unicode lowercase mapping of the
/// characters, a function of the input characters alone.
#[verifier::external_body]
fn lowercase(s: &str) -> (r: String)
    ensures
        r@ == lower_of(s@),
{
    s.to_lowercase()
}

/// The cache file's name for a font file: the font file's name lower-cased
/// (the cache key is case-insensitive) with the cache suffix appended.
pub fn cache_file_name(font_name: &str) -> (r: String)
    ensures
        r@ == lower_of(font_name@) + ".bin"@,
{
    let mut name = lowercase(font_name);
    name.append(".bin");
    name
}

/// Load-or-build-and-store.  When the cached bytes are present and decode,
/// the decoded data is used and nothing needs writing.  On any decode
/// failure, or with no cache at all, the data is rebuilt from the outlines
/// and the freshly encoded bytes are handed back for the application to
/// store.  Only a recorded cubic segment is an error.
pub fn load_or_build(cache_bytes: Option<&Vec<u8>>, glyphs: &Vec<Option<GlyphInput>>) -> (r:
    Result<(FontDrawingData, Option<Vec<u8>>), FontError>)
    requires
        glyphs_wf(glyphs@),
        glyphs@.len() <= 0x10000,
        curves_before(glyphs@, glyphs@.len() as int) <= 0x0100_0000,
    ensures
        ({
            let loaded = match cache_bytes {
                Some(bytes) => spec_decode(bytes@),
                None => None,
            };
            match r {
                Ok(p) => match loaded {
                    Some(t) => p.0.font_data@ == t.0 && p.0.font_curves@ == t.1
                        && p.0.hor_band_list@ == t.2 && p.0.ver_band_list@ == t.3 && p.1 is None,
                    None => drawing_data_ok(glyphs@, p.0) && !font_has_cubic(glyphs@) && (
                    p.1 matches Some(w) && w@ == spec_encode(p.0)),
                },
                Err(e) => e == FontError::UnsupportedGeometry && font_has_cubic(glyphs@)
                    && loaded is None,
            }
        }),
{
    match cache_bytes {
        Some(bytes) => {
            match decode_font_drawing_data(bytes) {
                Some(data) => {
                    return Ok((data, None));
                },
                None => {},
            }
        },
        None => {},
    }
    let data = match get_font_drawing_data(glyphs) {
        Ok(d) => d,
        Err(e) => {
            return Err(e);
        },
    };
    let bytes_out = encode_font_drawing_data(&data);
    Ok((data, Some(bytes_out)))
}

} // verus!
