//! The serializable aggregate produced by the build: the shared curve list,
//! the two band arrays and the glyph summary table.  It is immutable once
//! built and is the unit of on-disk caching; the binary cache format lives
//! beside it (see the encode and decode functions below).

use vstd::prelude::*;

verus! {

use vstd::bytes::{
    lemma_auto_spec_u64_to_from_le_bytes, spec_u64_from_le_bytes, spec_u64_to_le_bytes,
    u64_from_le_bytes, u64_to_le_bytes,
};
use vstd::slice::slice_subrange;
use crate::font_data::{Curve, FontData};

/// Everything the GPU consumer needs, as four flat arrays.
#[derive(Clone, Debug, PartialEq)]
pub struct FontDrawingData {
    pub font_data: Vec<FontData>,
    pub font_curves: Vec<Curve>,
    pub hor_band_list: Vec<u32>,
    pub ver_band_list: Vec<u32>,
}

/// Version tag heading every cache file; a format change invalidates old
/// caches safely.
pub const FORMAT_TAG: u64 = 0x4744_4254_0001;

// The cache format is a sequence of 64-bit words, each serialized as eight
// little-endian bytes: the tag, the four array lengths, then the summary
// records (six words each), the curves (four words each), and the two entry
// arrays (one word per entry).  Signed values are stored as their two's
// complement bit pattern; 32-bit values are zero-extended, and the decoder
// rejects words that do not fit back.

pub open spec fn record_words(s: FontData) -> Seq<u64> {
    seq![
        s.curve_texel_index as u64,
        s.hband_index as u64,
        s.vband_index as u64,
        s.band_count as u64,
        s.width as u64,
        s.height as u64,
    ]
}

pub open spec fn curve_words(c: Curve) -> Seq<u64> {
    seq![c.c1x as u64, c.c1y as u64, c.ex as u64, c.ey as u64]
}

pub open spec fn records_words(s: Seq<FontData>) -> Seq<u64>
    decreases s.len(),
{
    if s.len() == 0 {
        Seq::empty()
    } else {
        records_words(s.drop_last()) + record_words(s.last())
    }
}

pub open spec fn curves_words(s: Seq<Curve>) -> Seq<u64>
    decreases s.len(),
{
    if s.len() == 0 {
        Seq::empty()
    } else {
        curves_words(s.drop_last()) + curve_words(s.last())
    }
}

pub open spec fn entries_words(s: Seq<u32>) -> Seq<u64>
    decreases s.len(),
{
    if s.len() == 0 {
        Seq::empty()
    } else {
        entries_words(s.drop_last()).push(s.last() as u64)
    }
}

/// The word sequence of one aggregate.
pub open spec fn spec_words(d: FontDrawingData) -> Seq<u64> {
    seq![
        FORMAT_TAG,
        d.font_data@.len() as u64,
        d.font_curves@.len() as u64,
        d.hor_band_list@.len() as u64,
        d.ver_band_list@.len() as u64,
    ] + records_words(d.font_data@) + curves_words(d.font_curves@) + entries_words(
        d.hor_band_list@,
    ) + entries_words(d.ver_band_list@)
}

/// Words to little-endian bytes.
pub open spec fn words_bytes(ws: Seq<u64>) -> Seq<u8>
    decreases ws.len(),
{
    if ws.len() == 0 {
        Seq::empty()
    } else {
        words_bytes(ws.drop_last()) + spec_u64_to_le_bytes(ws.last())
    }
}

/// The exact bytes the encoder produces for one aggregate.
pub open spec fn spec_encode(d: FontDrawingData) -> Seq<u8> {
    words_bytes(spec_words(d))
}

/// Bytes back to words; meaningful when the length is a multiple of eight.
pub open spec fn bytes_words(bytes: Seq<u8>) -> Seq<u64> {
    Seq::new((bytes.len() / 8) as nat, |i: int| spec_u64_from_le_bytes(bytes.subrange(8 * i, 8 * i + 8)))
}

pub open spec fn word_fits_u32(w: u64) -> bool {
    w < 0x1_0000_0000
}

/// The summary record stored in six words.
pub open spec fn spec_record_of(ws: Seq<u64>) -> FontData {
    FontData {
        curve_texel_index: ws[0] as u32,
        hband_index: ws[1] as u32,
        vband_index: ws[2] as u32,
        band_count: ws[3] as u32,
        width: ws[4] as i64,
        height: ws[5] as i64,
    }
}

pub open spec fn spec_curve_of(ws: Seq<u64>) -> Curve {
    Curve { c1x: ws[0] as i64, c1y: ws[1] as i64, ex: ws[2] as i64, ey: ws[3] as i64 }
}

/// Every stored 32-bit value actually fits back into 32 bits.
pub open spec fn words_valid(ws: Seq<u64>, a: int, b: int, h_base: int) -> bool {
    &&& forall|i: int|
        0 <= i < a ==> word_fits_u32(#[trigger] ws[5 + 6 * i]) && word_fits_u32(ws[5 + 6 * i + 1])
            && word_fits_u32(ws[5 + 6 * i + 2]) && word_fits_u32(ws[5 + 6 * i + 3])
    &&& forall|j: int| h_base <= j < ws.len() ==> word_fits_u32(#[trigger] ws[j])
}

/// What a word sequence decodes to, if anything.
pub open spec fn spec_decode_words(ws: Seq<u64>) -> Option<
    (Seq<FontData>, Seq<Curve>, Seq<u32>, Seq<u32>),
> {
    if ws.len() < 5 {
        None
    } else if ws[0] != FORMAT_TAG {
        None
    } else {
        let a = ws[1] as int;
        let b = ws[2] as int;
        let c = ws[3] as int;
        let d = ws[4] as int;
        let cur_base = 5 + 6 * a;
        let h_base = cur_base + 4 * b;
        let v_base = h_base + c;
        if ws.len() != 5 + 6 * a + 4 * b + c + d {
            None
        } else if !words_valid(ws, a, b, h_base) {
            None
        } else {
            Some(
                (
                    Seq::new(a as nat, |i: int| spec_record_of(ws.subrange(5 + 6 * i, 5 + 6 * i + 6))),
                    Seq::new(
                        b as nat,
                        |i: int| spec_curve_of(ws.subrange(cur_base + 4 * i, cur_base + 4 * i + 4)),
                    ),
                    Seq::new(c as nat, |j: int| ws[h_base + j] as u32),
                    Seq::new(d as nat, |j: int| ws[v_base + j] as u32),
                ),
            )
        }
    }
}

/// What a byte sequence decodes to, if anything.
pub open spec fn spec_decode(bytes: Seq<u8>) -> Option<
    (Seq<FontData>, Seq<Curve>, Seq<u32>, Seq<u32>),
> {
    if bytes.len() % 8 != 0 {
        None
    } else {
        spec_decode_words(bytes_words(bytes))
    }
}

proof fn lemma_words_valid_intro(ws: Seq<u64>, a: int, b: int, h_base: int)
    requires
        forall|i: int|
            0 <= i < a ==> word_fits_u32(#[trigger] ws[5 + 6 * i]) && word_fits_u32(
                ws[5 + 6 * i + 1],
            ) && word_fits_u32(ws[5 + 6 * i + 2]) && word_fits_u32(ws[5 + 6 * i + 3]),
        forall|j: int| h_base <= j < ws.len() ==> word_fits_u32(#[trigger] ws[j]),
    ensures
        words_valid(ws, a, b, h_base),
{
}

/// Appends one word as eight little-endian bytes.
fn push_word(out: &mut Vec<u8>, w: u64)
    ensures
        final(out)@ == old(out)@ + spec_u64_to_le_bytes(w),
{
    let mut word_bytes = u64_to_le_bytes(w);
    out.append(&mut word_bytes);
}

proof fn lemma_words_bytes_push(ws: Seq<u64>, w: u64)
    ensures
        words_bytes(ws.push(w)) == words_bytes(ws) + spec_u64_to_le_bytes(w),
{
    assert(ws.push(w).drop_last() =~= ws);
    assert(ws.push(w).last() == w);
}

/// Serializes the aggregate into its binary cache form.
pub fn encode_font_drawing_data(d: &FontDrawingData) -> (out: Vec<u8>)
    ensures
        out@ == spec_encode(*d),
{
    let mut out: Vec<u8> = Vec::new();
    let ghost mut ws: Seq<u64> = Seq::empty();
    proof {
        assert(words_bytes(ws) =~= out@);
    }
    push_word(&mut out, FORMAT_TAG);
    push_word(&mut out, d.font_data.len() as u64);
    push_word(&mut out, d.font_curves.len() as u64);
    push_word(&mut out, d.hor_band_list.len() as u64);
    push_word(&mut out, d.ver_band_list.len() as u64);
    proof {
        lemma_words_bytes_push(ws, FORMAT_TAG);
        ws = ws.push(FORMAT_TAG);
        lemma_words_bytes_push(ws, d.font_data@.len() as u64);
        ws = ws.push(d.font_data@.len() as u64);
        lemma_words_bytes_push(ws, d.font_curves@.len() as u64);
        ws = ws.push(d.font_curves@.len() as u64);
        lemma_words_bytes_push(ws, d.hor_band_list@.len() as u64);
        ws = ws.push(d.hor_band_list@.len() as u64);
        lemma_words_bytes_push(ws, d.ver_band_list@.len() as u64);
        ws = ws.push(d.ver_band_list@.len() as u64);
        assert(out@ == words_bytes(ws));
    }
    let ghost header = ws;
    let na = d.font_data.len();
    for i in 0..na
        invariant
            na == d.font_data@.len(),
            out@ == words_bytes(ws),
            ws == header + records_words(d.font_data@.subrange(0, i as int)),
    {
        let s = d.font_data[i];
        push_word(&mut out, s.curve_texel_index as u64);
        push_word(&mut out, s.hband_index as u64);
        push_word(&mut out, s.vband_index as u64);
        push_word(&mut out, s.band_count as u64);
        push_word(&mut out, s.width as u64);
        push_word(&mut out, s.height as u64);
        proof {
            let rw = record_words(d.font_data@[i as int]);
            lemma_words_bytes_push(ws, rw[0]);
            ws = ws.push(rw[0]);
            lemma_words_bytes_push(ws, rw[1]);
            ws = ws.push(rw[1]);
            lemma_words_bytes_push(ws, rw[2]);
            ws = ws.push(rw[2]);
            lemma_words_bytes_push(ws, rw[3]);
            ws = ws.push(rw[3]);
            lemma_words_bytes_push(ws, rw[4]);
            ws = ws.push(rw[4]);
            lemma_words_bytes_push(ws, rw[5]);
            ws = ws.push(rw[5]);
            let pre = d.font_data@.subrange(0, i + 1);
            assert(pre.drop_last() =~= d.font_data@.subrange(0, i as int));
            assert(pre.last() == d.font_data@[i as int]);
            assert(ws =~= header + records_words(pre));
        }
    }
    proof {
        assert(d.font_data@.subrange(0, na as int) =~= d.font_data@);
    }
    let ghost after_records = ws;
    let nb = d.font_curves.len();
    for i in 0..nb
        invariant
            nb == d.font_curves@.len(),
            out@ == words_bytes(ws),
            ws == after_records + curves_words(d.font_curves@.subrange(0, i as int)),
    {
        let c = d.font_curves[i];
        push_word(&mut out, c.c1x as u64);
        push_word(&mut out, c.c1y as u64);
        push_word(&mut out, c.ex as u64);
        push_word(&mut out, c.ey as u64);
        proof {
            let cw = curve_words(d.font_curves@[i as int]);
            lemma_words_bytes_push(ws, cw[0]);
            ws = ws.push(cw[0]);
            lemma_words_bytes_push(ws, cw[1]);
            ws = ws.push(cw[1]);
            lemma_words_bytes_push(ws, cw[2]);
            ws = ws.push(cw[2]);
            lemma_words_bytes_push(ws, cw[3]);
            ws = ws.push(cw[3]);
            let pre = d.font_curves@.subrange(0, i + 1);
            assert(pre.drop_last() =~= d.font_curves@.subrange(0, i as int));
            assert(pre.last() == d.font_curves@[i as int]);
            assert(ws =~= after_records + curves_words(pre));
        }
    }
    proof {
        assert(d.font_curves@.subrange(0, nb as int) =~= d.font_curves@);
    }
    let ghost after_curves = ws;
    let nc = d.hor_band_list.len();
    for i in 0..nc
        invariant
            nc == d.hor_band_list@.len(),
            out@ == words_bytes(ws),
            ws == after_curves + entries_words(d.hor_band_list@.subrange(0, i as int)),
    {
        push_word(&mut out, d.hor_band_list[i] as u64);
        proof {
            let w = d.hor_band_list@[i as int] as u64;
            lemma_words_bytes_push(ws, w);
            ws = ws.push(w);
            let pre = d.hor_band_list@.subrange(0, i + 1);
            assert(pre.drop_last() =~= d.hor_band_list@.subrange(0, i as int));
            assert(pre.last() == d.hor_band_list@[i as int]);
            assert(ws =~= after_curves + entries_words(pre));
        }
    }
    proof {
        assert(d.hor_band_list@.subrange(0, nc as int) =~= d.hor_band_list@);
    }
    let ghost after_hor = ws;
    let nd = d.ver_band_list.len();
    for i in 0..nd
        invariant
            nd == d.ver_band_list@.len(),
            out@ == words_bytes(ws),
            ws == after_hor + entries_words(d.ver_band_list@.subrange(0, i as int)),
    {
        push_word(&mut out, d.ver_band_list[i] as u64);
        proof {
            let w = d.ver_band_list@[i as int] as u64;
            lemma_words_bytes_push(ws, w);
            ws = ws.push(w);
            let pre = d.ver_band_list@.subrange(0, i + 1);
            assert(pre.drop_last() =~= d.ver_band_list@.subrange(0, i as int));
            assert(pre.last() == d.ver_band_list@[i as int]);
            assert(ws =~= after_hor + entries_words(pre));
        }
    }
    proof {
        assert(d.ver_band_list@.subrange(0, nd as int) =~= d.ver_band_list@);
        assert(ws =~= spec_words(*d));
    }
    out
}

/// Reads word `i` of a byte buffer whose length is a multiple of eight.
fn read_word(bytes: &Vec<u8>, i: usize) -> (w: u64)
    requires
        8 * i + 8 <= bytes@.len(),
        i < bytes@.len() / 8,
    ensures
        w == bytes_words(bytes@)[i as int],
{
    let l = bytes.len();
    proof {
        assert(8 * i + 8 <= l);
    }
    let s = slice_subrange(bytes.as_slice(), 8 * i, 8 * i + 8);
    let w = u64_from_le_bytes(s);
    proof {
        assert(s@ =~= bytes@.subrange(8 * (i as int), 8 * (i as int) + 8));
    }
    w
}

/// Deserializes a binary cache buffer.  Returns nothing when the buffer is
/// not a complete, well-formed cache image (wrong length, wrong version tag,
/// or a stored 32-bit value that does not fit): the caller then rebuilds.
#[verifier::rlimit(100)]
#[verifier::spinoff_prover]
pub fn decode_font_drawing_data(bytes: &Vec<u8>) -> (r: Option<FontDrawingData>)
    ensures
        match r {
            Some(d) => spec_decode(bytes@) == Some(
                (d.font_data@, d.font_curves@, d.hor_band_list@, d.ver_band_list@),
            ),
            None => spec_decode(bytes@) is None,
        },
{
    let len = bytes.len();
    if len % 8 != 0 {
        return None;
    }
    let n_words = len / 8;
    let ghost ws = bytes_words(bytes@);
    proof {
        assert(ws.len() == n_words);
    }
    if n_words < 5 {
        return None;
    }
    if read_word(bytes, 0) != FORMAT_TAG {
        return None;
    }
    let a64 = read_word(bytes, 1);
    let b64 = read_word(bytes, 2);
    let c64 = read_word(bytes, 3);
    let d64 = read_word(bytes, 4);
    let total: u128 = 5u128 + 6u128 * (a64 as u128) + 4u128 * (b64 as u128) + (c64 as u128) + (
    d64 as u128);
    if total != n_words as u128 {
        return None;
    }
    let a = a64 as usize;
    let b = b64 as usize;
    let c = c64 as usize;
    let d = d64 as usize;
    let cur_base = 5 + 6 * a;
    let h_base = cur_base + 4 * b;
    let v_base = h_base + c;
    let ghost ai = a as int;
    let ghost bi = b as int;
    let ghost ci = c as int;
    let ghost di = d as int;
    let mut font_data: Vec<FontData> = Vec::new();
    for i in 0..a
        invariant
            ws == bytes_words(bytes@),
            bytes@.len() % 8 == 0,
            8 * n_words == bytes@.len(),
            ws.len() == n_words,
            n_words >= 5,
            ws[0] == FORMAT_TAG,
            ai == ws[1] as int && bi == ws[2] as int && ci == ws[3] as int && di == ws[4] as int,
            a == ai && b == bi && c == ci && d == di,
            n_words == 5 + 6 * ai + 4 * bi + ci + di,
            font_data@.len() == i,
            forall|k: int|
                0 <= k < i ==> #[trigger] font_data@[k] == spec_record_of(
                    ws.subrange(5 + 6 * k, 5 + 6 * k + 6),
                ),
            forall|k: int|
                0 <= k < i ==> word_fits_u32(#[trigger] ws[5 + 6 * k]) && word_fits_u32(
                    ws[5 + 6 * k + 1],
                ) && word_fits_u32(ws[5 + 6 * k + 2]) && word_fits_u32(ws[5 + 6 * k + 3]),
    {
        let w0 = read_word(bytes, 5 + 6 * i);
        let w1 = read_word(bytes, 5 + 6 * i + 1);
        let w2 = read_word(bytes, 5 + 6 * i + 2);
        let w3 = read_word(bytes, 5 + 6 * i + 3);
        let w4 = read_word(bytes, 5 + 6 * i + 4);
        let w5 = read_word(bytes, 5 + 6 * i + 5);
        if w0 >= 0x1_0000_0000 || w1 >= 0x1_0000_0000 || w2 >= 0x1_0000_0000 || w3
            >= 0x1_0000_0000 {
            proof {
                assert(!words_valid(ws, ai, bi, 5 + 6 * ai + 4 * bi));
            }
            return None;
        }
        font_data.push(
            FontData {
                curve_texel_index: w0 as u32,
                hband_index: w1 as u32,
                vband_index: w2 as u32,
                band_count: w3 as u32,
                width: w4 as i64,
                height: w5 as i64,
            },
        );
        proof {
            let sub = ws.subrange(5 + 6 * (i as int), 5 + 6 * (i as int) + 6);
            assert(sub[0] == w0 && sub[1] == w1 && sub[2] == w2 && sub[3] == w3 && sub[4] == w4
                && sub[5] == w5);
            assert(font_data@[i as int] == spec_record_of(sub));
            assert(word_fits_u32(ws[5 + 6 * (i as int)]));
            assert(word_fits_u32(ws[5 + 6 * (i as int) + 1]));
            assert(word_fits_u32(ws[5 + 6 * (i as int) + 2]));
            assert(word_fits_u32(ws[5 + 6 * (i as int) + 3]));
        }
    }
    let mut font_curves: Vec<Curve> = Vec::new();
    for i in 0..b
        invariant
            ws == bytes_words(bytes@),
            bytes@.len() % 8 == 0,
            8 * n_words == bytes@.len(),
            ws.len() == n_words,
            n_words >= 5,
            ws[0] == FORMAT_TAG,
            ai == ws[1] as int && bi == ws[2] as int && ci == ws[3] as int && di == ws[4] as int,
            a == ai && b == bi && c == ci && d == di,
            cur_base == 5 + 6 * ai,
            n_words == 5 + 6 * ai + 4 * bi + ci + di,
            font_data@.len() == ai,
            forall|k: int|
                0 <= k < ai ==> #[trigger] font_data@[k] == spec_record_of(
                    ws.subrange(5 + 6 * k, 5 + 6 * k + 6),
                ),
            forall|k: int|
                0 <= k < ai ==> word_fits_u32(#[trigger] ws[5 + 6 * k]) && word_fits_u32(
                    ws[5 + 6 * k + 1],
                ) && word_fits_u32(ws[5 + 6 * k + 2]) && word_fits_u32(ws[5 + 6 * k + 3]),
            font_curves@.len() == i,
            forall|k: int|
                0 <= k < i ==> #[trigger] font_curves@[k] == spec_curve_of(
                    ws.subrange(5 + 6 * ai + 4 * k, 5 + 6 * ai + 4 * k + 4),
                ),
    {
        let w0 = read_word(bytes, cur_base + 4 * i);
        let w1 = read_word(bytes, cur_base + 4 * i + 1);
        let w2 = read_word(bytes, cur_base + 4 * i + 2);
        let w3 = read_word(bytes, cur_base + 4 * i + 3);
        font_curves.push(Curve { c1x: w0 as i64, c1y: w1 as i64, ex: w2 as i64, ey: w3 as i64 });
        proof {
            let sub = ws.subrange(5 + 6 * ai + 4 * (i as int), 5 + 6 * ai + 4 * (i as int) + 4);
            assert(sub[0] == w0 && sub[1] == w1 && sub[2] == w2 && sub[3] == w3);
            assert(font_curves@[i as int] == spec_curve_of(sub));
        }
    }
    let mut hor_band_list: Vec<u32> = Vec::new();
    for i in 0..c
        invariant
            ws == bytes_words(bytes@),
            bytes@.len() % 8 == 0,
            8 * n_words == bytes@.len(),
            ws.len() == n_words,
            n_words >= 5,
            ws[0] == FORMAT_TAG,
            ai == ws[1] as int && bi == ws[2] as int && ci == ws[3] as int && di == ws[4] as int,
            a == ai && b == bi && c == ci && d == di,
            h_base == 5 + 6 * ai + 4 * bi,
            n_words == 5 + 6 * ai + 4 * bi + ci + di,
            font_data@.len() == ai,
            forall|k: int|
                0 <= k < ai ==> #[trigger] font_data@[k] == spec_record_of(
                    ws.subrange(5 + 6 * k, 5 + 6 * k + 6),
                ),
            forall|k: int|
                0 <= k < ai ==> word_fits_u32(#[trigger] ws[5 + 6 * k]) && word_fits_u32(
                    ws[5 + 6 * k + 1],
                ) && word_fits_u32(ws[5 + 6 * k + 2]) && word_fits_u32(ws[5 + 6 * k + 3]),
            font_curves@.len() == bi,
            forall|k: int|
                0 <= k < bi ==> #[trigger] font_curves@[k] == spec_curve_of(
                    ws.subrange(5 + 6 * ai + 4 * k, 5 + 6 * ai + 4 * k + 4),
                ),
            hor_band_list@.len() == i,
            forall|k: int|
                0 <= k < i ==> #[trigger] hor_band_list@[k] == ws[5 + 6 * ai + 4 * bi + k] as u32,
            forall|k: int|
                0 <= k < i ==> word_fits_u32(#[trigger] ws[5 + 6 * ai + 4 * bi + k]),
    {
        let w = read_word(bytes, h_base + i);
        if w >= 0x1_0000_0000 {
            proof {
                assert(!word_fits_u32(ws[5 + 6 * ai + 4 * bi + i]));
                assert(!words_valid(ws, ai, bi, 5 + 6 * ai + 4 * bi));
            }
            return None;
        }
        hor_band_list.push(w as u32);
    }
    let mut ver_band_list: Vec<u32> = Vec::new();
    for i in 0..d
        invariant
            ws == bytes_words(bytes@),
            bytes@.len() % 8 == 0,
            8 * n_words == bytes@.len(),
            ws.len() == n_words,
            n_words >= 5,
            ws[0] == FORMAT_TAG,
            ai == ws[1] as int && bi == ws[2] as int && ci == ws[3] as int && di == ws[4] as int,
            a == ai && b == bi && c == ci && d == di,
            v_base == 5 + 6 * ai + 4 * bi + ci,
            n_words == 5 + 6 * ai + 4 * bi + ci + di,
            font_data@.len() == ai,
            forall|k: int|
                0 <= k < ai ==> #[trigger] font_data@[k] == spec_record_of(
                    ws.subrange(5 + 6 * k, 5 + 6 * k + 6),
                ),
            forall|k: int|
                0 <= k < ai ==> word_fits_u32(#[trigger] ws[5 + 6 * k]) && word_fits_u32(
                    ws[5 + 6 * k + 1],
                ) && word_fits_u32(ws[5 + 6 * k + 2]) && word_fits_u32(ws[5 + 6 * k + 3]),
            font_curves@.len() == bi,
            forall|k: int|
                0 <= k < bi ==> #[trigger] font_curves@[k] == spec_curve_of(
                    ws.subrange(5 + 6 * ai + 4 * k, 5 + 6 * ai + 4 * k + 4),
                ),
            hor_band_list@.len() == ci,
            forall|k: int|
                0 <= k < ci ==> #[trigger] hor_band_list@[k] == ws[5 + 6 * ai + 4 * bi + k] as u32,
            forall|k: int|
                0 <= k < ci ==> word_fits_u32(#[trigger] ws[5 + 6 * ai + 4 * bi + k]),
            ver_band_list@.len() == i,
            forall|k: int|
                0 <= k < i ==> #[trigger] ver_band_list@[k] == ws[5 + 6 * ai + 4 * bi + ci
                    + k] as u32,
            forall|k: int|
                0 <= k < i ==> word_fits_u32(#[trigger] ws[5 + 6 * ai + 4 * bi + ci + k]),
    {
        let w = read_word(bytes, v_base + i);
        if w >= 0x1_0000_0000 {
            proof {
                assert(!word_fits_u32(ws[5 + 6 * ai + 4 * bi + ci + i]));
                assert(!words_valid(ws, ai, bi, 5 + 6 * ai + 4 * bi));
            }
            return None;
        }
        ver_band_list.push(w as u32);
    }
    proof {
        let h_b = 5 + 6 * ai + 4 * bi;
        assert forall|j: int| h_b <= j < ws.len() implies word_fits_u32(#[trigger] ws[j]) by {
            if j < h_b + ci {
                let k = j - h_b;
                assert(word_fits_u32(ws[5 + 6 * ai + 4 * bi + k]));
            } else {
                let k = j - h_b - ci;
                assert(word_fits_u32(ws[5 + 6 * ai + 4 * bi + ci + k]));
            }
        }
        assert forall|i2: int|
            0 <= i2 < ai implies word_fits_u32(#[trigger] ws[5 + 6 * i2]) && word_fits_u32(
            ws[5 + 6 * i2 + 1],
        ) && word_fits_u32(ws[5 + 6 * i2 + 2]) && word_fits_u32(ws[5 + 6 * i2 + 3]) by {}
        lemma_words_valid_intro(ws, ai, bi, h_b);
        assert(words_valid(ws, ai, bi, h_b));
        let dec = spec_decode_words(ws);
        assert(dec is Some);
        assert(font_data@ =~= Seq::new(
            ai as nat,
            |i: int| spec_record_of(ws.subrange(5 + 6 * i, 5 + 6 * i + 6)),
        ));
        assert(font_curves@ =~= Seq::new(
            bi as nat,
            |i: int| spec_curve_of(ws.subrange(5 + 6 * ai + 4 * i, 5 + 6 * ai + 4 * i + 4)),
        ));
        assert(hor_band_list@ =~= Seq::new(ci as nat, |j: int| ws[h_b + j] as u32));
        assert(ver_band_list@ =~= Seq::new(di as nat, |j: int| ws[h_b + ci + j] as u32));
    }
    Some(FontDrawingData { font_data, font_curves, hor_band_list, ver_band_list })
}

proof fn lemma_words_bytes_len(ws: Seq<u64>)
    ensures
        words_bytes(ws).len() == 8 * ws.len(),
    decreases ws.len(),
{
    lemma_auto_spec_u64_to_from_le_bytes();
    if ws.len() > 0 {
        lemma_words_bytes_len(ws.drop_last());
    }
}

/// Reading the words back out of their little-endian bytes gives the words.
proof fn lemma_bytes_words_inverse(ws: Seq<u64>)
    ensures
        bytes_words(words_bytes(ws)) =~= ws,
    decreases ws.len(),
{
    lemma_auto_spec_u64_to_from_le_bytes();
    lemma_words_bytes_len(ws);
    if ws.len() > 0 {
        let front = ws.drop_last();
        lemma_bytes_words_inverse(front);
        lemma_words_bytes_len(front);
        let bytes = words_bytes(ws);
        assert forall|i: int| 0 <= i < ws.len() implies bytes_words(bytes)[i] == ws[i] by {
            if i < ws.len() - 1 {
                assert(bytes.subrange(8 * i, 8 * i + 8) =~= words_bytes(front).subrange(
                    8 * i,
                    8 * i + 8,
                ));
                assert(bytes_words(words_bytes(front))[i] == front[i]);
            } else {
                assert(bytes.subrange(8 * i, 8 * i + 8) =~= spec_u64_to_le_bytes(ws.last()));
            }
        }
    }
}

proof fn lemma_records_words_len(s: Seq<FontData>)
    ensures
        records_words(s).len() == 6 * s.len(),
    decreases s.len(),
{
    if s.len() > 0 {
        lemma_records_words_len(s.drop_last());
    }
}

proof fn lemma_curves_words_len(s: Seq<Curve>)
    ensures
        curves_words(s).len() == 4 * s.len(),
    decreases s.len(),
{
    if s.len() > 0 {
        lemma_curves_words_len(s.drop_last());
    }
}

proof fn lemma_entries_words_len(s: Seq<u32>)
    ensures
        entries_words(s).len() == s.len(),
    decreases s.len(),
{
    if s.len() > 0 {
        lemma_entries_words_len(s.drop_last());
    }
}

proof fn lemma_records_words_index(s: Seq<FontData>, i: int, j: int)
    requires
        0 <= i < s.len(),
        0 <= j < 6,
    ensures
        records_words(s)[6 * i + j] == record_words(s[i])[j],
    decreases s.len(),
{
    lemma_records_words_len(s.drop_last());
    if i < s.len() - 1 {
        lemma_records_words_index(s.drop_last(), i, j);
    }
}

proof fn lemma_curves_words_index(s: Seq<Curve>, i: int, j: int)
    requires
        0 <= i < s.len(),
        0 <= j < 4,
    ensures
        curves_words(s)[4 * i + j] == curve_words(s[i])[j],
    decreases s.len(),
{
    lemma_curves_words_len(s.drop_last());
    if i < s.len() - 1 {
        lemma_curves_words_index(s.drop_last(), i, j);
    }
}

proof fn lemma_entries_words_index(s: Seq<u32>, j: int)
    requires
        0 <= j < s.len(),
    ensures
        entries_words(s)[j] == s[j] as u64,
    decreases s.len(),
{
    lemma_entries_words_len(s.drop_last());
    if j < s.len() - 1 {
        lemma_entries_words_index(s.drop_last(), j);
    }
}

proof fn lemma_i64_bits_round_trip(x: i64)
    by (bit_vector)
    ensures
        ((x as u64) as i64) == x,
{
}

/// Where each region of the word image sits: header, records, curves, then
/// the two entry arrays.
#[verifier::rlimit(100)]
#[verifier::spinoff_prover]
proof fn lemma_spec_words_layout(d: FontDrawingData)
    ensures
        ({
            let ws = spec_words(d);
            let fd = d.font_data@;
            let fc = d.font_curves@;
            let hh = d.hor_band_list@;
            let vv = d.ver_band_list@;
            let ai = fd.len() as int;
            let bi = fc.len() as int;
            let ci = hh.len() as int;
            let di = vv.len() as int;
            &&& ws.len() == 5 + 6 * ai + 4 * bi + ci + di
            &&& ws[0] == FORMAT_TAG
            &&& ws[1] as int == ai
            &&& ws[2] as int == bi
            &&& ws[3] as int == ci
            &&& ws[4] as int == di
            &&& forall|j: int| 0 <= j < 6 * ai ==> #[trigger] ws[5 + j] == records_words(fd)[j]
            &&& forall|j: int|
                0 <= j < 4 * bi ==> #[trigger] ws[5 + 6 * ai + j] == curves_words(fc)[j]
            &&& forall|j: int|
                0 <= j < ci ==> #[trigger] ws[5 + 6 * ai + 4 * bi + j] == entries_words(hh)[j]
            &&& forall|j: int|
                0 <= j < di ==> #[trigger] ws[5 + 6 * ai + 4 * bi + ci + j] == entries_words(
                    vv,
                )[j]
        }),
{
    broadcast use vstd::std_specs::vec::axiom_spec_len;

    assert(d.font_data.len() == d.font_data@.len());
    assert(d.font_curves.len() == d.font_curves@.len());
    assert(d.hor_band_list.len() == d.hor_band_list@.len());
    assert(d.ver_band_list.len() == d.ver_band_list@.len());
    let ws = spec_words(d);
    let fd = d.font_data@;
    let fc = d.font_curves@;
    let hh = d.hor_band_list@;
    let vv = d.ver_band_list@;
    let rr = records_words(fd);
    let cc = curves_words(fc);
    let he = entries_words(hh);
    let ve = entries_words(vv);
    lemma_records_words_len(fd);
    lemma_curves_words_len(fc);
    lemma_entries_words_len(hh);
    lemma_entries_words_len(vv);
    let ai = fd.len() as int;
    let bi = fc.len() as int;
    let ci = hh.len() as int;
    let di = vv.len() as int;
    let hdr = seq![
        FORMAT_TAG,
        d.font_data@.len() as u64,
        d.font_curves@.len() as u64,
        d.hor_band_list@.len() as u64,
        d.ver_band_list@.len() as u64,
    ];
    assert(ws == hdr + rr + cc + he + ve);
    assert(hdr.len() == 5);
    assert forall|j: int| 0 <= j < 5 implies ws[j] == hdr[j] by {
        assert((hdr + rr)[j] == hdr[j]);
        assert((hdr + rr + cc)[j] == (hdr + rr)[j]);
        assert((hdr + rr + cc + he)[j] == (hdr + rr + cc)[j]);
        assert((hdr + rr + cc + he + ve)[j] == (hdr + rr + cc + he)[j]);
    }
    assert(hdr[0] == FORMAT_TAG);
    assert(hdr[1] == ai as u64);
    assert(hdr[2] == bi as u64);
    assert(hdr[3] == ci as u64);
    assert(hdr[4] == di as u64);
    assert forall|j: int| 0 <= j < 6 * ai implies #[trigger] ws[5 + j] == rr[j] by {
        assert((hdr + rr)[5 + j] == rr[j]);
        assert((hdr + rr + cc)[5 + j] == (hdr + rr)[5 + j]);
        assert((hdr + rr + cc + he)[5 + j] == (hdr + rr + cc)[5 + j]);
        assert((hdr + rr + cc + he + ve)[5 + j] == (hdr + rr + cc + he)[5 + j]);
    }
    assert forall|j: int| 0 <= j < 4 * bi implies #[trigger] ws[5 + 6 * ai + j] == cc[j] by {
        assert((hdr + rr + cc)[5 + 6 * ai + j] == cc[j]);
        assert((hdr + rr + cc + he)[5 + 6 * ai + j] == (hdr + rr + cc)[5 + 6 * ai + j]);
        assert((hdr + rr + cc + he + ve)[5 + 6 * ai + j] == (hdr + rr + cc + he)[5 + 6 * ai + j]);
    }
    assert forall|j: int| 0 <= j < ci implies #[trigger] ws[5 + 6 * ai + 4 * bi + j] == he[j] by {
        assert((hdr + rr + cc + he)[5 + 6 * ai + 4 * bi + j] == he[j]);
        assert((hdr + rr + cc + he + ve)[5 + 6 * ai + 4 * bi + j] == (hdr + rr + cc + he)[5 + 6
            * ai + 4 * bi + j]);
    }
    assert forall|j: int|
        0 <= j < di implies #[trigger] ws[5 + 6 * ai + 4 * bi + ci + j] == ve[j] by {
        assert((hdr + rr + cc + he + ve)[5 + 6 * ai + 4 * bi + ci + j] == ve[j]);
    }
}

/// The round-trip law of the cache format: decoding what the encoder
/// produced gives back exactly the arrays that were encoded, byte for byte
/// and word for word.
#[verifier::rlimit(100)]
#[verifier::spinoff_prover]
pub proof fn lemma_encode_decode_round_trip(d: FontDrawingData)
    ensures
        spec_decode(spec_encode(d)) == Some(
            (d.font_data@, d.font_curves@, d.hor_band_list@, d.ver_band_list@),
        ),
{
    let ws = spec_words(d);
    let bytes = spec_encode(d);
    lemma_words_bytes_len(ws);
    lemma_bytes_words_inverse(ws);
    assert(bytes.len() % 8 == 0);
    let fd = d.font_data@;
    let fc = d.font_curves@;
    let hh = d.hor_band_list@;
    let vv = d.ver_band_list@;
    let rr = records_words(fd);
    let cc = curves_words(fc);
    let he = entries_words(hh);
    let ve = entries_words(vv);
    lemma_records_words_len(fd);
    lemma_curves_words_len(fc);
    lemma_entries_words_len(hh);
    lemma_entries_words_len(vv);
    let ai = fd.len() as int;
    let bi = fc.len() as int;
    let ci = hh.len() as int;
    let di = vv.len() as int;
    lemma_spec_words_layout(d);
    let h_base = 5 + 6 * ai + 4 * bi;
    assert forall|i: int|
        0 <= i < ai implies word_fits_u32(#[trigger] ws[5 + 6 * i]) && word_fits_u32(
        ws[5 + 6 * i + 1],
    ) && word_fits_u32(ws[5 + 6 * i + 2]) && word_fits_u32(ws[5 + 6 * i + 3]) by {
        lemma_records_words_index(fd, i, 0);
        lemma_records_words_index(fd, i, 1);
        lemma_records_words_index(fd, i, 2);
        lemma_records_words_index(fd, i, 3);
        assert(ws[5 + (6 * i)] == rr[6 * i]);
        assert(ws[5 + (6 * i + 1)] == rr[6 * i + 1]);
        assert(ws[5 + (6 * i + 2)] == rr[6 * i + 2]);
        assert(ws[5 + (6 * i + 3)] == rr[6 * i + 3]);
    }
    assert forall|j: int| h_base <= j < ws.len() implies word_fits_u32(#[trigger] ws[j]) by {
        if j < h_base + ci {
            lemma_entries_words_index(hh, j - h_base);
            assert(ws[5 + 6 * ai + 4 * bi + (j - h_base)] == he[j - h_base]);
        } else {
            lemma_entries_words_index(vv, j - h_base - ci);
            assert(ws[5 + 6 * ai + 4 * bi + ci + (j - h_base - ci)] == ve[j - h_base - ci]);
        }
    }
    assert(words_valid(ws, ai, bi, h_base));
    assert forall|i: int|
        0 <= i < ai implies spec_record_of(
        #[trigger] ws.subrange(5 + 6 * i, 5 + 6 * i + 6),
    ) == fd[i] by {
        let sub = ws.subrange(5 + 6 * i, 5 + 6 * i + 6);
        assert forall|j: int| 0 <= j < 6 implies sub[j] == record_words(fd[i])[j] by {
            lemma_records_words_index(fd, i, j);
            assert(ws[5 + (6 * i + j)] == rr[6 * i + j]);
        }
        lemma_i64_bits_round_trip(fd[i].width);
        lemma_i64_bits_round_trip(fd[i].height);
    }
    assert forall|i: int|
        0 <= i < bi implies spec_curve_of(
        #[trigger] ws.subrange(5 + 6 * ai + 4 * i, 5 + 6 * ai + 4 * i + 4),
    ) == fc[i] by {
        let sub = ws.subrange(5 + 6 * ai + 4 * i, 5 + 6 * ai + 4 * i + 4);
        assert forall|j: int| 0 <= j < 4 implies sub[j] == curve_words(fc[i])[j] by {
            lemma_curves_words_index(fc, i, j);
            assert(ws[5 + 6 * ai + (4 * i + j)] == cc[4 * i + j]);
        }
        lemma_i64_bits_round_trip(fc[i].c1x);
        lemma_i64_bits_round_trip(fc[i].c1y);
        lemma_i64_bits_round_trip(fc[i].ex);
        lemma_i64_bits_round_trip(fc[i].ey);
    }
    assert forall|j: int| 0 <= j < ci implies ws[h_base + j] as u32 == hh[j] by {
        lemma_entries_words_index(hh, j);
        assert(ws[5 + 6 * ai + 4 * bi + j] == he[j]);
    }
    assert forall|j: int| 0 <= j < di implies ws[h_base + ci + j] as u32 == vv[j] by {
        lemma_entries_words_index(vv, j);
        assert(ws[5 + 6 * ai + 4 * bi + ci + j] == ve[j]);
    }
    assert(Seq::new(ai as nat, |i: int| spec_record_of(ws.subrange(5 + 6 * i, 5 + 6 * i + 6)))
        =~= fd);
    assert(Seq::new(
        bi as nat,
        |i: int| spec_curve_of(ws.subrange(5 + 6 * ai + 4 * i, 5 + 6 * ai + 4 * i + 4)),
    ) =~= fc);
    assert(Seq::new(ci as nat, |j: int| ws[h_base + j] as u32) =~= hh);
    assert(Seq::new(di as nat, |j: int| ws[h_base + ci + j] as u32) =~= vv);
}

/// The executable round trip: decoding an encoded aggregate succeeds and
/// reproduces its arrays exactly.
pub fn encode_then_decode(d: &FontDrawingData) -> (r: (Vec<u8>, Option<FontDrawingData>))
    ensures
        r.0@ == spec_encode(*d),
        r.1 matches Some(back) && back.font_data@ == d.font_data@ && back.font_curves@
            == d.font_curves@ && back.hor_band_list@ == d.hor_band_list@ && back.ver_band_list@
            == d.ver_band_list@,
{
    let bytes = encode_font_drawing_data(d);
    let back = decode_font_drawing_data(&bytes);
    proof {
        lemma_encode_decode_round_trip(*d);
    }
    (bytes, back)
}

} // verus!
