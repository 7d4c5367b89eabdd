//! Writing packages: pixel streams are run-length encoded where that is
//! shorter, and the libraries of the media are gathered under a checked
//! header.

use vstd::prelude::*;
use vstd::string::StringSliceAdditionalSpecFns;
use super::buffer::{bytes_contents, bytes_len, bytes_new, bytes_put_slice, bytes_put_u16_le, bytes_put_u8, bytes_to_vec};
use super::{
    load_pkg_result, pkg_walk, set_lib, MediaLibs, Ret, pkg_crc, str_of_utf8, Identifier, Media, LIBMAGIC_BORDER, LIBMAGIC_FONT, LIBMAGIC_IMAGE,
    LIBMAGIC_PAGE, LIBMAGIC_PROGRAM, LIBRARY_MAX, LIB_LEN_MAX,
};
use crate::stream::{bit_of, fresh_bits, le_u16, le_u32, BitState, Encoding};
use super::rle::{bits_read, reads_defined};
use super::{stored_name};
use super::page::blob_lookup;
use super::border::{border_lookup, lemma_border_lookup_start, lemma_piece_offset_mono, piece_offset};
use super::IdentView;
use super::entries::le_bytes;
use super::font::{metrics_of, font_lookup, FontMetrics};
use super::font::glyph_of;
use super::pkg_font::{font_body, font_packs, glyph_body_ok, glyph_outs_ok, glyph_packed_ok, lemma_font_packs_agree, lemma_font_packs_none, lemma_pack_glyphs_agree, lemma_pack_glyphs_none, pack_count, pack_glyphs};
use super::image::image_lookup;
use super::image_gen::image_entry;
use super::entries::entry_one;
use super::rle::{lemma_decode_push, lemma_partial_byte, lemma_raw_byte, lemma_raw_push, lemma_run_byte, rle_decode, token_bits, valid_tokens};

verus! {

/// Bit `k` (0 = most significant) of the bit stream `s`.
pub open spec fn stream_bit(s: Seq<u8>, k: int) -> u8 {
    (s[k / 8] >> ((7 - k % 8) as u8)) & 1
}

/// Run-length encodes the bits of `source`: a leading encoding byte (1), then
/// bytes that either repeat one bit up to 63 times (`1 v n…n`) or carry seven
/// raw bits (`0 b…b`). The source is short enough for the bit positions of
/// its encoding to fit a `usize`, as a reader of the encoding counts bits.
pub fn rle_fixed_stream(source: &[u8]) -> (r: Vec<u8>)
    requires
        source@.len() >= 1,
        128 * source@.len() + 32 <= usize::MAX,
    ensures
        r@.len() >= 1,
        r@[0] == 1,
        r@.len() <= 2 + 2 * source@.len() * 8,
        valid_tokens(r@, 1),
        rle_decode(r@, 1).len() >= 8 * source@.len(),
        forall|k: int| 0 <= k < 8 * source@.len() ==> #[trigger] rle_decode(r@, 1)[k] == stream_bit(source@, k),
        reads_defined(r@, fresh_bits(r@), (8 * source@.len()) as nat),
        forall|k: int| 0 <= k < 8 * source@.len() ==> #[trigger] bits_read(r@, fresh_bits(r@), (8 * source@.len()) as nat)[k]
            == stream_bit(source@, k),
{
    let mut res = bytes_new();
    bytes_put_u8(&mut res, 1);
    let mut pos: usize = 0;
    let first = source[0];
    let mut last: u8 = (first >> 7u8) & 1;
    assert(last <= 1) by (bit_vector)
        requires
            last == (first >> 7u8) & 1,
    ;
    let mut rpt_cnt: u8 = 0;
    let mut raw: u8 = 0;
    let mut raw_cnt: usize = 0;
    let total: usize = source.len() * 8;
    let ghost mut plen: int = 0;
    proof {
        assert(rle_decode(bytes_contents(res), 1) =~= Seq::<u8>::empty());
    }
    while pos < total
        invariant
            total == source@.len() * 8,
            128 * source@.len() + 32 <= usize::MAX,
            pos <= total,
            rpt_cnt <= 63,
            raw_cnt <= 7,
            last <= 1,
            bytes_contents(res).len() >= 1,
            bytes_contents(res)[0] == 1,
            bytes_contents(res).len() <= 1 + 2 * pos,
            valid_tokens(bytes_contents(res), 1),
            0 <= plen <= pos,
            rle_decode(bytes_contents(res), 1).len() == pos - plen,
            forall|k: int| 0 <= k < pos - plen ==> #[trigger] rle_decode(bytes_contents(res), 1)[k] == stream_bit(source@, k),
            raw_cnt < 7 ==> plen == raw_cnt && rpt_cnt <= raw_cnt && raw < 128,
            raw_cnt < 7 ==> forall|k: int| 0 <= k < raw_cnt ==> #[trigger] bit_of(raw, 7 - raw_cnt + k) == stream_bit(source@, pos - plen + k),
            raw_cnt == 7 ==> rpt_cnt >= 7 && plen == rpt_cnt,
            rpt_cnt <= pos,
            forall|k: int| pos - rpt_cnt <= k < pos ==> #[trigger] stream_bit(source@, k) == last,
        decreases total - pos,
    {
        let b = source[pos / 8];
        let bit: u8 = (b >> ((7 - pos % 8) as u8)) & 1;
        assert(bit <= 1) by (bit_vector)
            requires
                bit == (b >> ((7 - pos % 8) as u8)) & 1,
        ;
        assert(bit == stream_bit(source@, pos as int));
        if last == bit && rpt_cnt < 63 {
            rpt_cnt += 1;
        } else {
            if rpt_cnt >= 7 {
                let byte: u8 = 0x80 | (last << 6u8) | (rpt_cnt & 0x3f);
                let ghost e0 = bytes_contents(res);
                proof {
                    lemma_run_byte(last, rpt_cnt);
                    lemma_decode_push(e0, byte, 1);
                }
                bytes_put_u8(&mut res, byte);
                proof {
                    let e1 = bytes_contents(res);
                    assert(e1 == e0.push(byte));
                    assert forall|i: int| 1 <= i < e1.len() && bit_of(e1[i], 7) == 1 implies #[trigger] e1[i] as int % 64 >= 1 by {
                        if i < e0.len() {
                            assert(e1[i] == e0[i]);
                        }
                    }
                    assert forall|k: int| 0 <= k < pos implies #[trigger] rle_decode(e1, 1)[k] == stream_bit(source@, k) by {
                        if k >= pos - plen {
                            assert(rle_decode(e1, 1)[k] == token_bits(byte)[k - (pos - plen)]);
                        } else {
                            assert(rle_decode(e1, 1)[k] == rle_decode(e0, 1)[k]);
                        }
                    }
                    plen = 0;
                }
                raw = 0;
                raw_cnt = 0;
            }
            rpt_cnt = 1;
            last = bit;
        }
        proof {
            plen = plen + 1;
        }
        if raw_cnt < 7 {
            let ghost raw0 = raw;
            let ghost c = raw_cnt as int;
            proof {
                lemma_raw_push(raw, bit);
            }
            raw = (raw >> 1u8) | (bit << 6u8);
            raw_cnt += 1;
            proof {
                assert forall|k: int| 0 <= k < raw_cnt implies #[trigger] bit_of(raw, 7 - raw_cnt + k) == stream_bit(source@, pos + 1 - plen + k) by {
                    if k < c {
                        assert(bit_of(raw, 6 - c + k) == bit_of(raw0, 7 - c + k));
                    }
                }
            }
        }
        if raw_cnt == 7 && rpt_cnt < 7 {
            let byte: u8 = raw & 0x7f;
            let ghost e0 = bytes_contents(res);
            proof {
                lemma_raw_byte(raw);
                lemma_decode_push(e0, byte, 1);
            }
            bytes_put_u8(&mut res, byte);
            proof {
                let e1 = bytes_contents(res);
                assert(e1 == e0.push(byte));
                assert forall|i: int| 1 <= i < e1.len() && bit_of(e1[i], 7) == 1 implies #[trigger] e1[i] as int % 64 >= 1 by {
                    if i < e0.len() {
                        assert(e1[i] == e0[i]);
                    }
                }
                assert forall|k: int| 0 <= k < pos + 1 implies #[trigger] rle_decode(e1, 1)[k] == stream_bit(source@, k) by {
                    if k >= pos + 1 - plen {
                        assert(rle_decode(e1, 1)[k] == token_bits(byte)[k - (pos + 1 - plen)]);
                        assert(bit_of(raw, 7 - 7 + (k - (pos + 1 - plen))) == stream_bit(source@, pos + 1 - plen + (k - (pos + 1 - plen))));
                    } else {
                        assert(rle_decode(e1, 1)[k] == rle_decode(e0, 1)[k]);
                    }
                }
                plen = 0;
            }
            rpt_cnt = 0;
            raw_cnt = 0;
            raw = 0;
        }
        pos += 1;
    }
    let ghost e0 = bytes_contents(res);
    if raw_cnt != 0 && raw_cnt > rpt_cnt as usize {
        let byte: u8 = (raw >> ((7 - raw_cnt) as u8)) & 0x7f;
        proof {
            lemma_partial_byte(raw, raw_cnt as u8);
            lemma_decode_push(e0, byte, 1);
        }
        bytes_put_u8(&mut res, byte);
        proof {
            let e1 = bytes_contents(res);
            assert(e1 == e0.push(byte));
            assert forall|i: int| 1 <= i < e1.len() && bit_of(e1[i], 7) == 1 implies #[trigger] e1[i] as int % 64 >= 1 by {
                if i < e0.len() {
                    assert(e1[i] == e0[i]);
                }
            }
            assert forall|k: int| 0 <= k < pos implies #[trigger] rle_decode(e1, 1)[k] == stream_bit(source@, k) by {
                if k >= pos - plen {
                    assert(rle_decode(e1, 1)[k] == token_bits(byte)[k - (pos - plen)]);
                    assert(bit_of(raw, 7 - raw_cnt + (k - (pos - plen))) == stream_bit(source@, pos - plen + (k - (pos - plen))));
                } else {
                    assert(rle_decode(e1, 1)[k] == rle_decode(e0, 1)[k]);
                }
            }
        }
    } else if rpt_cnt > 0 {
        let byte: u8 = 0x80 | (last << 6u8) | (rpt_cnt & 0x3f);
        proof {
            lemma_run_byte(last, rpt_cnt);
            lemma_decode_push(e0, byte, 1);
        }
        bytes_put_u8(&mut res, byte);
        proof {
            let e1 = bytes_contents(res);
            assert(e1 == e0.push(byte));
            assert forall|i: int| 1 <= i < e1.len() && bit_of(e1[i], 7) == 1 implies #[trigger] e1[i] as int % 64 >= 1 by {
                if i < e0.len() {
                    assert(e1[i] == e0[i]);
                }
            }
            assert forall|k: int| 0 <= k < pos implies #[trigger] rle_decode(e1, 1)[k] == stream_bit(source@, k) by {
                if k >= pos - plen {
                    assert(rle_decode(e1, 1)[k] == token_bits(byte)[k - (pos - plen)]);
                } else {
                    assert(rle_decode(e1, 1)[k] == rle_decode(e0, 1)[k]);
                }
            }
        }
    }
    let r = bytes_to_vec(&res);
    proof {
        super::rle::lemma_rle_read_back(source@, r@, BitState { ok: false, pos: 0, rpt_cnt: 0, rpt_val: 0, raw_cnt: 0, encoding: Encoding::EOL });
    }
    r
}

/// Whether `r` is `source` as it may go into a package: unchanged where it
/// is no raw stream or `use_rle` is off; else unchanged, or a shorter
/// run-length encoding of its pixel bits.
pub open spec fn stream_optimized(source: Seq<u8>, use_rle: bool, r: Seq<u8>) -> bool {
    &&& !(source[0] == 0 && use_rle) ==> r == source
    &&& r == source || (r.len() < source.len() && r.len() >= 1 && r[0] == 1)
    &&& r != source ==> valid_tokens(r, 1) && rle_decode(r, 1).len() >= 8 * (source.len() - 1)
        && forall|k: int| 0 <= k < 8 * (source.len() - 1) ==> #[trigger] rle_decode(r, 1)[k]
            == stream_bit(source.subrange(1, source.len() as int), k)
}

/// A pixel stream as it goes into a package: a raw stream is run-length
/// encoded where `use_rle` asks for it and the encoding is shorter; other
/// streams are kept as they are.
pub fn optimize_stream(source: &[u8], use_rle: bool) -> (r: Vec<u8>)
    requires
        source@.len() >= 1,
        source@[0] == 0 && use_rle ==> source@.len() >= 2,
        source@.len() <= 65536,
    ensures
        !(source@[0] == 0 && use_rle) ==> r@ == source@,
        r@ == source@ || (r@.len() < source@.len() && r@.len() >= 1 && r@[0] == 1),
        r@ != source@ ==> valid_tokens(r@, 1) && rle_decode(r@, 1).len() >= 8 * (source@.len() - 1)
            && forall|k: int| 0 <= k < 8 * (source@.len() - 1) ==> #[trigger] rle_decode(r@, 1)[k]
                == stream_bit(source@.subrange(1, source@.len() as int), k),
        stream_optimized(source@, use_rle, r@),
{
    if source[0] != 0 || !use_rle {
        return super::copy_all(source);
    }
    let rle = rle_fixed_stream(&source[1..source.len()]);
    if source.len() <= rle.len() {
        super::copy_all(source)
    } else {
        rle
    }
}

/// The most a library of a generated package holds.
pub const PKG_LIB_MAX: usize = 0x0100_0000;

/// A package as the loader takes it: the header `PKG0`, the length, and a
/// checksum of everything behind the twelfth byte.
pub open spec fn pkg_header_ok(d: Seq<u8>) -> bool {
    &&& d.len() >= 12
    &&& d.subrange(0, 4) == seq![0x50u8, 0x4bu8, 0x47u8, 0x30u8]
    &&& le_u16(d[8], d[9]) == pkg_crc(d, 12)
    &&& d.len() <= 0xffff_ffff ==> le_u32(d[4], d[5], d[6], d[7]) == d.len()
}

/// The checksum reads only the bytes from `from` on.
pub proof fn lemma_crc_suffix(a: Seq<u8>, b: Seq<u8>, from: int)
    requires
        a.len() == b.len(),
        0 <= from,
        forall|k: int| from <= k < a.len() ==> a[k] == b[k],
    ensures
        pkg_crc(a, from) == pkg_crc(b, from),
    decreases a.len() - from,
{
    if from < a.len() {
        lemma_crc_suffix(a, b, from + 1);
    }
}

/// Whether entries of `source` go into a package of the sources `sources`:
/// bit `source` of `sources` is set.
pub open spec fn in_sources(source: u8, sources: u8) -> bool {
    source < LIBRARY_MAX && (sources >> source) & 1 == 1
}

/// Whether entries of `source` go into a package of the sources `sources`
/// (one bit per source).
fn selected(source: u8, sources: u8) -> (r: bool)
    ensures
        r == in_sources(source, sources),
{
    source < LIBRARY_MAX && (sources >> source) & 1 == 1
}

/// The bytes of an optional vector.
pub open spec fn opt_bytes(r: Option<Vec<u8>>) -> Option<Seq<u8>> {
    match r {
        Some(v) => Some(v@),
        None => None,
    }
}

/// The library gathered from the entries `entry` gives for the indices
/// below `n`, in order: an entry that would take the library past
/// `PKG_LIB_MAX` bytes is left out.
pub open spec fn lib_fold(entry: spec_fn(int) -> Option<Seq<u8>>, n: nat) -> Seq<u8>
    decreases n,
{
    if n == 0 {
        Seq::empty()
    } else {
        let acc = lib_fold(entry, (n - 1) as nat);
        match entry(n - 1) {
            Some(e) => if acc.len() + e.len() <= PKG_LIB_MAX { acc + e } else { acc },
            None => acc,
        }
    }
}

/// The entry that page (or program) `index` of the libraries `pages` gives
/// a package of the sources `sources`: none where there is no such entry,
/// its content is empty, its source is not selected, or its name or content
/// is too long.
pub open spec fn pkg_blob_entry(pages: Seq<Seq<u8>>, sources: u8, index: int) -> Option<Seq<u8>> {
    match blob_lookup(pages, LIBRARY_MAX - 1, index as u8) {
        Some((li, h)) => {
            let d = pages[li];
            let id = stored_name(d.subrange(h.id_start, h.id_start + h.id_len));
            let content = d.subrange(h.start, h.start + h.len);
            if content.len() == 0 || !in_sources(li as u8, sources) || id.len() > 255 || content.len() > PKG_LIB_MAX {
                None
            } else {
                Some(entry_one(index as u8, id, content))
            }
        },
        None => None,
    }
}

/// The page (or program) entries of a package, by index.
pub open spec fn blob_entries(pages: Seq<Seq<u8>>, sources: u8) -> spec_fn(int) -> Option<Seq<u8>> {
    |index: int| pkg_blob_entry(pages, sources, index)
}

/// The pieces of a border entry as a package carries them: the six sizes,
/// the eight piece lengths and the pieces, as they stand from `bp` on.
pub open spec fn border_body(d: Seq<u8>, bp: int) -> Seq<u8> {
    d.subrange(bp, bp + 14 + piece_offset(d, bp, 8))
}

/// The entry that border `index` of the border libraries `borders` gives a
/// package of the sources `sources`: none where there is no such border or
/// `get_border` would give the default one, both repeat lengths are zero,
/// its source is not selected, its body reaches 65535 bytes, or its name is
/// too long.
pub open spec fn pkg_border_entry(borders: Seq<Seq<u8>>, sources: u8, index: int) -> Option<Seq<u8>> {
    match border_lookup(borders, LIBRARY_MAX - 1, IdentView::Index(index as u8)) {
        Some((li, h)) => {
            let d = borders[li];
            let bp = h.start;
            let id = stored_name(d.subrange(h.id_start, h.id_start + h.id_len));
            if d[bp] == 0 || d[bp + 1] == 0 || d[bp + 2] == 0 || d[bp + 3] == 0 || bp + 14 + piece_offset(d, bp, 8) > d.len()
                || (d[bp + 4] == 0 && d[bp + 5] == 0) || !in_sources(li as u8, sources)
                || 14 + piece_offset(d, bp, 8) >= 65535 || id.len() > 255 {
                None
            } else {
                Some(entry_one(index as u8, id, border_body(d, bp)))
            }
        },
        None => None,
    }
}

/// The border entries of a package, by index.
pub open spec fn border_entries(borders: Seq<Seq<u8>>, sources: u8) -> spec_fn(int) -> Option<Seq<u8>> {
    |index: int| pkg_border_entry(borders, sources, index)
}

/// Two entry functions that agree below `n` gather the same library.
pub proof fn lemma_lib_fold_agree(f: spec_fn(int) -> Option<Seq<u8>>, g: spec_fn(int) -> Option<Seq<u8>>, n: nat)
    requires
        forall|k: int| 0 <= k < n ==> #[trigger] f(k) == g(k),
    ensures
        lib_fold(f, n) == lib_fold(g, n),
    decreases n,
{
    if n > 0 {
        lemma_lib_fold_agree(f, g, (n - 1) as nat);
    }
}

/// What image `index` of the image libraries `images` brings into a package
/// of the sources `sources`, before its streams are optimized: name, width,
/// height, pixel stream and mask stream. None where there is no such image
/// or it is empty, its data is shorter than 4 or longer than 65539 bytes,
/// a side is zero, its source is not selected, or a stream is too short
/// to optimize or the mask is empty or longer than 65536 bytes.
pub open spec fn image_pick(images: Seq<Seq<u8>>, sources: u8, optimize: bool, index: int)
    -> Option<(Seq<u8>, u8, u8, Seq<u8>, Option<Seq<u8>>)> {
    match image_lookup(images, LIBRARY_MAX - 1, IdentView::Index(index as u8)) {
        Some((li, h)) => {
            let lib = images[li];
            let d = lib.subrange(h.start, h.start + h.len1);
            let mask = if h.len2 == 0 { None } else { Some(lib.subrange(h.start + h.len1, h.start + h.len1 + h.len2)) };
            let id = stored_name(lib.subrange(h.id_start, h.id_start + h.id_len));
            let body = d.subrange(3, d.len() as int);
            if h.len1 == 0 || d.len() < 4 || d.len() > 65539 || d[1] == 0 || d[2] == 0 || !in_sources(li as u8, sources)
                || (body[0] == 0 && optimize && body.len() < 2) {
                None
            } else {
                match mask {
                    Some(m) => if m.len() == 0 || m.len() > 65536 || (m[0] == 0 && optimize && m.len() < 2) {
                        None
                    } else {
                        Some((id, d[1], d[2], body, mask))
                    },
                    None => Some((id, d[1], d[2], body, mask)),
                }
            }
        },
        None => None,
    }
}

/// Whether `out` holds the pixel and mask streams of image `index` as they
/// go into a package (see `stream_optimized`; no mask stream where the image
/// has no mask). Anything will do for an image that is not picked.
pub open spec fn image_streams(images: Seq<Seq<u8>>, sources: u8, optimize: bool, index: int, out: (Seq<u8>, Seq<u8>)) -> bool {
    match image_pick(images, sources, optimize, index) {
        Some((id, w, h, body, mask)) => {
            &&& stream_optimized(body, optimize, out.0)
            &&& match mask {
                Some(m) => stream_optimized(m, optimize, out.1),
                None => out.1.len() == 0,
            }
        },
        None => true,
    }
}

/// The entry that image `index` gives a package, with the streams `out`:
/// none where it is not picked, a stream is too long, or its name is.
pub open spec fn pkg_image_entry(images: Seq<Seq<u8>>, sources: u8, optimize: bool, index: int, out: (Seq<u8>, Seq<u8>)) -> Option<Seq<u8>> {
    match image_pick(images, sources, optimize, index) {
        Some((id, w, h, body, mask)) => if out.0.len() + 3 > 65535 || out.1.len() >= 65535 || id.len() > 255 {
            None
        } else {
            Some(image_entry(index as u8, id, w, h, out.0, out.1))
        },
        None => None,
    }
}

/// The image entries of a package, by index, with the streams `outs`.
pub open spec fn image_entries(images: Seq<Seq<u8>>, sources: u8, optimize: bool, outs: Seq<(Seq<u8>, Seq<u8>)>) -> spec_fn(int) -> Option<Seq<u8>> {
    |index: int| pkg_image_entry(images, sources, optimize, index, outs[index])
}

/// Whether `outs` holds streams of each of the 254 images as they go into a
/// package.
pub open spec fn image_streams_all(images: Seq<Seq<u8>>, sources: u8, optimize: bool, outs: Seq<(Seq<u8>, Seq<u8>)>) -> bool {
    &&& outs.len() == 254
    &&& forall|k: int| 0 <= k < 254 ==> #[trigger] image_streams(images, sources, optimize, k, outs[k])
}

/// The image library of a package with the streams `outs`, end mark included.
pub open spec fn image_lib(images: Seq<Seq<u8>>, sources: u8, optimize: bool, outs: Seq<(Seq<u8>, Seq<u8>)>) -> Seq<u8> {
    lib_fold(image_entries(images, sources, optimize, outs), 254).push(255)
}

/// What font `index` of the font libraries `fonts` brings into a package of
/// the sources `sources`: its name and metrics. None where there is no such
/// font or its entry is too short, it has no packs, or its source is not
/// selected.
pub open spec fn font_pick(fonts: Seq<Seq<u8>>, sources: u8, index: int) -> Option<(Seq<u8>, FontMetrics)> {
    match font_lookup(fonts, LIBRARY_MAX - 1, IdentView::Index(index as u8)) {
        Some((li, h)) => if h.len < 4 {
            None
        } else {
            let d = fonts[li];
            let m = FontMetrics {
                data: d.subrange(h.start + 4, h.start + h.len),
                pack_count: d[h.start],
                mono_width: d[h.start + 1],
                base_height: d[h.start + 2],
                full_height: d[h.start + 3],
            };
            if m.pack_count == 0 || !in_sources(li as u8, sources) {
                None
            } else {
                Some((stored_name(d.subrange(h.id_start, h.id_start + h.id_len)), m))
            }
        },
        None => None,
    }
}

/// Whether `body` is the body font `index` gives a package (see
/// `font_body`), with some packed glyph streams; anything will do for a font
/// that is not picked.
pub open spec fn font_body_ok(fonts: Seq<Seq<u8>>, sources: u8, index: int, body: Option<Seq<u8>>) -> bool {
    match font_pick(fonts, sources, index) {
        Some((id, m)) => exists|outs: spec_fn(int, int) -> Seq<u8>| glyph_outs_ok(m, outs) && #[trigger] font_body(m, outs) == body,
        None => true,
    }
}

/// The entry that font `index` gives a package with the body `body`: none
/// where it is not picked, it has no body, or its name is too long.
pub open spec fn pkg_font_entry(fonts: Seq<Seq<u8>>, sources: u8, index: int, body: Option<Seq<u8>>) -> Option<Seq<u8>> {
    match font_pick(fonts, sources, index) {
        Some((id, m)) => match body {
            Some(fv) => if id.len() > 255 { None } else { Some(entry_one(index as u8, id, fv)) },
            None => None,
        },
        None => None,
    }
}

/// The font entries of a package, by index, with the bodies `bodies`.
pub open spec fn font_entries(fonts: Seq<Seq<u8>>, sources: u8, bodies: Seq<Option<Seq<u8>>>) -> spec_fn(int) -> Option<Seq<u8>> {
    |index: int| pkg_font_entry(fonts, sources, index, bodies[index])
}

/// Whether `bodies` holds the bodies of each of the 254 fonts as they go
/// into a package.
pub open spec fn font_bodies_all(fonts: Seq<Seq<u8>>, sources: u8, bodies: Seq<Option<Seq<u8>>>) -> bool {
    &&& bodies.len() == 254
    &&& forall|k: int| 0 <= k < 254 ==> #[trigger] font_body_ok(fonts, sources, k, bodies[k])
}

/// The font library of a package with the bodies `bodies`, end mark included.
pub open spec fn font_lib(fonts: Seq<Seq<u8>>, sources: u8, bodies: Seq<Option<Seq<u8>>>) -> Seq<u8> {
    lib_fold(font_entries(fonts, sources, bodies), 254).push(255)
}

/// A library as a section of a package: its magic number, its length (low
/// byte first, modulo 2^16) and its bytes; nothing for an empty library.
pub open spec fn pkg_section(magic: u8, lib: Seq<u8>) -> Seq<u8> {
    if lib.len() > 0 { seq![magic] + le_bytes(lib.len() as u16) + lib } else { Seq::empty() }
}

/// A package before its length and checksum are filled in: `PKG0`, six
/// zero bytes, the image, border, font, page and program sections, the end
/// mark.
pub open spec fn pkg_unsealed(images: Seq<u8>, borders: Seq<u8>, fonts: Seq<u8>, pages: Seq<u8>, programs: Seq<u8>) -> Seq<u8> {
    seq![0x50u8, 0x4bu8, 0x47u8, 0x30u8, 0u8, 0u8, 0u8, 0u8, 0u8, 0u8]
        + pkg_section(LIBMAGIC_IMAGE, images) + pkg_section(LIBMAGIC_BORDER, borders)
        + pkg_section(LIBMAGIC_FONT, fonts) + pkg_section(LIBMAGIC_PAGE, pages)
        + pkg_section(LIBMAGIC_PROGRAM, programs) + seq![255u8]
}

/// The four bytes of `n`, low byte first.
pub open spec fn le_u32_bytes(n: int) -> Seq<u8> {
    seq![(n % 256) as u8, ((n / 256) % 256) as u8, ((n / 65536) % 256) as u8, ((n / 16777216) % 256) as u8]
}

/// `body` with its length and checksum written behind `PKG0`.
pub open spec fn pkg_sealed(body: Seq<u8>) -> Seq<u8> {
    body.subrange(0, 4) + le_u32_bytes(body.len() as int) + le_bytes(pkg_crc(body, 12) as u16) + body.subrange(10, body.len() as int)
}

/// The package of the sources `sources` of the libraries `libs`, with the
/// image streams `outs` and the font bodies `bodies`.
pub open spec fn package_of(libs: MediaLibs, sources: u8, optimize: bool, outs: Seq<(Seq<u8>, Seq<u8>)>, bodies: Seq<Option<Seq<u8>>>) -> Seq<u8> {
    pkg_sealed(pkg_unsealed(
        image_lib(libs.images, sources, optimize, outs),
        lib_fold(border_entries(libs.borders, sources), 254).push(255),
        font_lib(libs.fonts, sources, bodies),
        lib_fold(blob_entries(libs.pages, sources), 254).push(255),
        lib_fold(blob_entries(libs.programs, sources), 254).push(255),
    ))
}

impl Media {
    /// The image library of a package: the images of the selected sources,
    /// their streams optimized, up to the end mark.
    fn pkg_images(&self, sources: u8, optimize: bool) -> (r: Vec<u8>)
        requires
            self.wf(),
        ensures
            exists|outs: Seq<(Seq<u8>, Seq<u8>)>| image_streams_all(self.libs().images, sources, optimize, outs)
                && r@ == #[trigger] image_lib(self.libs().images, sources, optimize, outs),
            r@.len() <= PKG_LIB_MAX + 1,
    {
        let ghost images = self.libs().images;
        let ghost mut outs: Seq<(Seq<u8>, Seq<u8>)> = Seq::empty();
        let mut lib = bytes_new();
        let mut i: u8 = 0;
        while i < 254
            invariant
                self.wf(),
                images == self.libs().images,
                i <= 254,
                outs.len() == i,
                forall|k: int| 0 <= k < i ==> #[trigger] image_streams(images, sources, optimize, k, outs[k]),
                bytes_contents(lib).len() <= PKG_LIB_MAX,
                bytes_contents(lib) == lib_fold(image_entries(images, sources, optimize, outs), i as nat),
            decreases 254 - i,
        {
            let index = i;
            i += 1;
            proof {
                let o2 = outs.push((Seq::<u8>::empty(), Seq::<u8>::empty()));
                lemma_lib_fold_agree(image_entries(images, sources, optimize, outs), image_entries(images, sources, optimize, o2), index as nat);
                outs = o2;
            }
            let image = self.get_image(Identifier::Index(index));
            let d = image.data.as_slice();
            if d.len() < 4 || d.len() > 65539 {
                continue;
            }
            let width = d[1];
            let height = d[2];
            if width == 0 || height == 0 || !selected(image.source, sources) {
                continue;
            }
            let body = &d[3..d.len()];
            if body[0] == 0 && optimize && body.len() < 2 {
                continue;
            }
            let data = optimize_stream(body, optimize);
            let mask: Vec<u8> = match &image.mask {
                Some(m) => {
                    if m.len() == 0 || m.len() > 65536 || (m[0] == 0 && optimize && m.len() < 2) {
                        continue;
                    }
                    optimize_stream(m.as_slice(), optimize)
                },
                None => Vec::new(),
            };
            let id = str_of_utf8(image.id.as_slice());
            proof {
                assert(vstd::utf8::valid_utf8(Seq::<u8>::empty()));
                assert(id.spec_bytes() == stored_name(image.id@));
                assert(body@ == d@.subrange(3, d@.len() as int));
                let picked = (id.spec_bytes(), width, height, body@, match image.mask { Some(m) => Some(m@), None => None });
                assert(image_pick(images, sources, optimize, index as int) == Some(picked));
                let o2 = outs.update(index as int, (data@, mask@));
                lemma_lib_fold_agree(image_entries(images, sources, optimize, outs), image_entries(images, sources, optimize, o2), index as nat);
                outs = o2;
            }
            if data.len() + 3 > 65535 || mask.len() >= 65535 {
                continue;
            }
            if id.as_bytes().len() > 255 || bytes_len(&lib) + id.as_bytes().len() + data.len() + mask.len() + 9 > PKG_LIB_MAX {
                continue;
            }
            Media::insert_image(&mut lib, index, id, width, height, data.as_slice(), mask.as_slice());
        }
        bytes_put_u8(&mut lib, 255);
        let r = bytes_to_vec(&lib);
        assert(image_streams_all(images, sources, optimize, outs));
        assert(r@ == image_lib(images, sources, optimize, outs));
        r
    }

    /// The page library of a package.
    fn pkg_pages(&self, sources: u8) -> (r: Vec<u8>)
        requires
            self.wf(),
        ensures
            r@ == lib_fold(blob_entries(self.libs().pages, sources), 254).push(255),
            r@.len() <= PKG_LIB_MAX + 1,
    {
        let mut lib = bytes_new();
        let mut i: u8 = 0;
        while i < 254
            invariant
                self.wf(),
                bytes_contents(lib).len() <= PKG_LIB_MAX,
                i <= 254,
                bytes_contents(lib) == lib_fold(blob_entries(self.libs().pages, sources), i as nat),
            decreases 254 - i,
        {
            let index = i;
            i += 1;
            let page = self.get_page(index);
            if page.content.len() == 0 || !selected(page.source, sources) {
                continue;
            }
            let id = str_of_utf8(page.id.as_slice());
            proof {
                assert(vstd::utf8::valid_utf8(Seq::<u8>::empty()));
                assert(id.spec_bytes() == stored_name(page.id@));
            }
            if id.as_bytes().len() > 255 || page.content.len() > PKG_LIB_MAX
                || bytes_len(&lib) + id.as_bytes().len() + page.content.len() + 4 > PKG_LIB_MAX {
                continue;
            }
            Media::insert_page(&mut lib, index, id, page.content.as_slice());
        }
        bytes_put_u8(&mut lib, 255);
        bytes_to_vec(&lib)
    }

    /// The program library of a package.
    fn pkg_programs(&self, sources: u8) -> (r: Vec<u8>)
        requires
            self.wf(),
        ensures
            r@ == lib_fold(blob_entries(self.libs().programs, sources), 254).push(255),
            r@.len() <= PKG_LIB_MAX + 1,
    {
        let mut lib = bytes_new();
        let mut i: u8 = 0;
        while i < 254
            invariant
                self.wf(),
                bytes_contents(lib).len() <= PKG_LIB_MAX,
                i <= 254,
                bytes_contents(lib) == lib_fold(blob_entries(self.libs().programs, sources), i as nat),
            decreases 254 - i,
        {
            let index = i;
            i += 1;
            let page = self.get_program(index);
            if page.data.len() == 0 || !selected(page.source, sources) {
                continue;
            }
            let id = str_of_utf8(page.id.as_slice());
            proof {
                assert(vstd::utf8::valid_utf8(Seq::<u8>::empty()));
                assert(id.spec_bytes() == stored_name(page.id@));
            }
            if id.as_bytes().len() > 255 || page.data.len() > PKG_LIB_MAX
                || bytes_len(&lib) + id.as_bytes().len() + page.data.len() + 4 > PKG_LIB_MAX {
                continue;
            }
            Media::insert_program(&mut lib, index, id, page.data.as_slice());
        }
        bytes_put_u8(&mut lib, 255);
        bytes_to_vec(&lib)
    }

    /// The border library of a package.
    fn pkg_borders(&self, sources: u8) -> (r: Vec<u8>)
        requires
            self.wf(),
        ensures
            r@ == lib_fold(border_entries(self.libs().borders, sources), 254).push(255),
            r@.len() <= PKG_LIB_MAX + 1,
    {
        let mut lib = bytes_new();
        let mut i: u8 = 0;
        while i < 254
            invariant
                self.wf(),
                i <= 254,
                bytes_contents(lib).len() <= PKG_LIB_MAX,
                bytes_contents(lib) == lib_fold(border_entries(self.libs().borders, sources), i as nat),
            decreases 254 - i,
        {
            let index = i;
            i += 1;
            let border = self.get_border(Identifier::Index(index));
            if (border.x_w == 0 && border.y_h == 0) || !selected(border.source, sources) || border.data.len() != 8 {
                continue;
            }
            proof {
                lemma_border_lookup_start(self.libs().borders, LIBRARY_MAX - 1, Identifier::Index(index)@);
            }
            let ghost lk = border_lookup(self.libs().borders, LIBRARY_MAX - 1, Identifier::Index(index)@);
            let ghost (li, hit) = lk.unwrap();
            let ghost bp = hit.start;
            let ghost d = self.libs().borders[li];
            proof {
                assert forall|j: int| 0 <= j <= 8 implies 0 <= #[trigger] piece_offset(d, bp, j) <= piece_offset(d, bp, 8) by {
                    lemma_piece_offset_mono(d, bp, 0, j);
                    lemma_piece_offset_mono(d, bp, j, 8);
                }
            }
            let mut f = bytes_new();
            bytes_put_u8(&mut f, border.n_h);
            bytes_put_u8(&mut f, border.e_w);
            bytes_put_u8(&mut f, border.s_h);
            bytes_put_u8(&mut f, border.w_w);
            bytes_put_u8(&mut f, border.x_w);
            bytes_put_u8(&mut f, border.y_h);
            assert(bytes_contents(f) =~= d.subrange(bp, bp + 6));
            let mut k: usize = 0;
            while k < 8
                invariant
                    border.data@.len() == 8,
                    0 <= bp,
                    bp + 14 + piece_offset(d, bp, 8) <= d.len(),
                    forall|j: int| 0 <= j <= 8 ==> 0 <= #[trigger] piece_offset(d, bp, j) <= piece_offset(d, bp, 8),
                    forall|j: int| 0 <= j < 8 ==> (#[trigger] border.data@[j])@ == d.subrange(
                        bp + 14 + piece_offset(d, bp, j),
                        bp + 14 + piece_offset(d, bp, j + 1),
                    ),
                    bytes_contents(f) == d.subrange(bp, bp + 6 + k),
                    k <= 8,
                decreases 8 - k,
            {
                let ghost before = bytes_contents(f);
                assert(border.data@[k as int]@.len() == d[bp + 6 + k]);
                bytes_put_u8(&mut f, border.data[k].len() as u8);
                assert(bytes_contents(f) =~= d.subrange(bp, bp + 6 + k + 1));
                k += 1;
            }
            let mut too_long = false;
            let mut k: usize = 0;
            while k < 8
                invariant
                    border.data@.len() == 8,
                    0 <= bp,
                    bp + 14 + piece_offset(d, bp, 8) <= d.len(),
                    forall|j: int| 0 <= j <= 8 ==> 0 <= #[trigger] piece_offset(d, bp, j) <= piece_offset(d, bp, 8),
                    forall|j: int| 0 <= j < 8 ==> (#[trigger] border.data@[j])@ == d.subrange(
                        bp + 14 + piece_offset(d, bp, j),
                        bp + 14 + piece_offset(d, bp, j + 1),
                    ),
                    bytes_contents(f).len() <= 65535,
                    bytes_contents(f) == d.subrange(bp, bp + 14 + piece_offset(d, bp, k as int)),
                    too_long ==> 14 + piece_offset(d, bp, 8) > 65535,
                    k <= 8,
                ensures
                    too_long || k == 8,
                decreases 8 - k,
            {
                if border.data[k].len() > 65535 - bytes_len(&f) {
                    too_long = true;
                    break;
                }
                bytes_put_slice(&mut f, border.data[k].as_slice());
                assert(bytes_contents(f) =~= d.subrange(bp, bp + 14 + piece_offset(d, bp, k + 1)));
                k += 1;
            }
            let fv = bytes_to_vec(&f);
            if too_long || fv.len() >= 65535 {
                continue;
            }
            let id = str_of_utf8(border.id.as_slice());
            proof {
                assert(vstd::utf8::valid_utf8(Seq::<u8>::empty()));
                assert(id.spec_bytes() == stored_name(border.id@));
            }
            if id.as_bytes().len() > 255 || bytes_len(&lib) + id.as_bytes().len() + fv.len() + 4 > PKG_LIB_MAX {
                continue;
            }
            super::entries::put_entry_one(&mut lib, index, id.as_bytes(), fv.as_slice());
        }
        bytes_put_u8(&mut lib, 255);
        bytes_to_vec(&lib)
    }

    /// The font library of a package: each font with its packs rebuilt
    /// glyph by glyph, the glyph streams optimized.
    fn pkg_fonts(&self, sources: u8) -> (r: Vec<u8>)
        requires
            self.wf(),
        ensures
            exists|bodies: Seq<Option<Seq<u8>>>| font_bodies_all(self.libs().fonts, sources, bodies)
                && r@ == #[trigger] font_lib(self.libs().fonts, sources, bodies),
            r@.len() <= PKG_LIB_MAX + 1,
    {
        let ghost fonts = self.libs().fonts;
        let ghost mut bodies: Seq<Option<Seq<u8>>> = Seq::empty();
        let mut lib = bytes_new();
        let mut i: u8 = 0;
        while i < 254
            invariant
                self.wf(),
                fonts == self.libs().fonts,
                i <= 254,
                bodies.len() == i,
                forall|k: int| 0 <= k < i ==> #[trigger] font_body_ok(fonts, sources, k, bodies[k]),
                bytes_contents(lib).len() <= PKG_LIB_MAX,
                bytes_contents(lib) == lib_fold(font_entries(fonts, sources, bodies), i as nat),
            decreases 254 - i,
        {
            let index = i;
            i += 1;
            proof {
                let b2 = bodies.push(None);
                lemma_lib_fold_agree(font_entries(fonts, sources, bodies), font_entries(fonts, sources, b2), index as nat);
                bodies = b2;
            }
            let font = self.get_font(Identifier::Index(index));
            if font.pack_count == 0 || !selected(font.source, sources) {
                continue;
            }
            let body = self.pkg_font(&font);
            proof {
                assert(font_pick(fonts, sources, index as int) matches Some((id, m)) && m == metrics_of(font)
                    && id == stored_name(font.id@));
                let b2 = bodies.update(index as int, opt_bytes(body));
                lemma_lib_fold_agree(font_entries(fonts, sources, bodies), font_entries(fonts, sources, b2), index as nat);
                bodies = b2;
                assert(font_body_ok(fonts, sources, index as int, bodies[index as int]));
            }
            match body {
                Some(fv) => {
                    let id = str_of_utf8(font.id.as_slice());
                    proof {
                        assert(vstd::utf8::valid_utf8(Seq::<u8>::empty()));
                        assert(id.spec_bytes() == stored_name(font.id@));
                    }
                    if id.as_bytes().len() > 255 || bytes_len(&lib) + id.as_bytes().len() + fv.len() + 4 > PKG_LIB_MAX {
                        continue;
                    }
                    super::entries::put_entry_one(&mut lib, index, id.as_bytes(), fv.as_slice());
                },
                None => {},
            }
        }
        bytes_put_u8(&mut lib, 255);
        let r = bytes_to_vec(&lib);
        assert(font_bodies_all(fonts, sources, bodies));
        assert(r@ == font_lib(fonts, sources, bodies));
        r
    }

    /// The directory and glyphs of the pack of `font` from `start` to `end`
    /// (see `pack_glyphs`), as pack `pk`; the packed glyph streams go into
    /// `outs` in place of those of that pack. None where the glyphs grow too
    /// long.
    #[verifier::spinoff_prover]
    fn pkg_pack(
        &self,
        font: &super::font::Font,
        start: u8,
        end: u8,
        Ghost(pk): Ghost<int>,
        Ghost(outs0): Ghost<spec_fn(int, int) -> Seq<u8>>,
    ) -> (r: (Option<(Vec<u8>, Vec<u8>)>, Ghost<spec_fn(int, int) -> Seq<u8>>))
        requires
            font.data@.len() <= LIB_LEN_MAX,
            end < 255,
            glyph_outs_ok(metrics_of(*font), outs0),
        ensures
            glyph_outs_ok(metrics_of(*font), r.1@),
            forall|a: int, b: int| a != pk ==> #[trigger] r.1@(a, b) == outs0(a, b),
            match r.0 {
                Some((dv, gv)) => pack_glyphs(metrics_of(*font), pk, start as int, pack_count(start, end), r.1@)
                    == Some((dv@, gv@)) && dv@.len() <= 2 * 256 && gv@.len() <= 65535,
                None => pack_glyphs(metrics_of(*font), pk, start as int, pack_count(start, end), r.1@) is None,
            },
    {
        let ghost m = metrics_of(*font);
        let ghost mut outs = outs0;
        let mut dir = bytes_new();
        let mut glyphs = bytes_new();
        let mut ch: u8 = start;
        while ch <= end
            invariant
                m == metrics_of(*font),
                font.data@.len() <= LIB_LEN_MAX,
                end < 255,
                bytes_contents(glyphs).len() <= 65535,
                bytes_contents(dir).len() <= 2 * (ch - start),
                start <= ch,
                ch <= end + 1 || ch == start,
                glyph_outs_ok(m, outs),
                forall|a: int, b: int| a != pk ==> #[trigger] outs(a, b) == outs0(a, b),
                pack_glyphs(m, pk, start as int, (ch - start) as nat, outs) == Some((bytes_contents(dir), bytes_contents(glyphs))),
            decreases end + 1 - ch,
        {
            let glyph = self.get_glyph(font, ch as char);
            let g = glyph.as_slice();
            let ghost cnt = (ch - start) as nat;
            proof {
                assert(glyph@ == glyph_of(m, (ch as int) as char));
            }
            if g.len() >= 4 {
                let body = &g[4..g.len()];
                if body.len() >= 1 && body.len() <= 65536 && !(body[0] == 0 && body.len() < 2) {
                    let packed = optimize_stream(body, true);
                    proof {
                        assert(body@ == g@.subrange(4, g@.len() as int));
                        assert(glyph_body_ok(g@));
                        let o2 = |a: int, b: int| if a == pk && b == ch as int { packed@ } else { outs(a, b) };
                        assert forall|a: int, b: int| #[trigger] glyph_packed_ok(m, b, o2(a, b)) by {
                            if !(a == pk && b == ch as int) {
                                assert(glyph_packed_ok(m, b, outs(a, b)));
                            }
                        }
                        lemma_pack_glyphs_agree(m, pk, start as int, cnt, outs, o2);
                        outs = o2;
                    }
                    if bytes_len(&glyphs) + 4 + packed.len() > 65535 {
                        proof {
                            assert(pack_glyphs(m, pk, start as int, cnt + 1, outs) is None);
                            lemma_pack_glyphs_none(m, pk, start as int, cnt + 1, pack_count(start, end), outs);
                        }
                        return (None, Ghost(outs));
                    }
                    bytes_put_slice(&mut glyphs, &g[0..4]);
                    bytes_put_slice(&mut glyphs, packed.as_slice());
                    bytes_put_u16_le(&mut dir, bytes_len(&glyphs) as u16);
                }
            }
            ch += 1;
        }
        assert((ch - start) as nat == pack_count(start, end));
        (Some((bytes_to_vec(&dir), bytes_to_vec(&glyphs))), Ghost(outs))
    }

    /// The body of a font entry: the font header, then each pack with its
    /// glyphs taken out of the font one by one. None where the packs run
    /// past the font data or the body grows too long.
    #[verifier::spinoff_prover]
    fn pkg_font(&self, font: &super::font::Font) -> (r: Option<Vec<u8>>)
        requires
            self.wf(),
            font.data@.len() <= LIB_LEN_MAX,
        ensures
            exists|outs: spec_fn(int, int) -> Seq<u8>| glyph_outs_ok(metrics_of(*font), outs)
                && #[trigger] font_body(metrics_of(*font), outs) == opt_bytes(r),
            r matches Some(v) ==> v@.len() <= PKG_LIB_MAX,
    {
        let ghost m = metrics_of(*font);
        let ghost mut outs: spec_fn(int, int) -> Seq<u8> = |a: int, b: int| {
            let g = glyph_of(m, b as char);
            g.subrange(4, g.len() as int)
        };
        let ghost mut acc: Seq<u8> = Seq::empty();
        let mut f = bytes_new();
        bytes_put_u8(&mut f, font.pack_count);
        bytes_put_u8(&mut f, font.mono_width);
        bytes_put_u8(&mut f, font.base_height);
        bytes_put_u8(&mut f, font.full_height);
        let ghost header = bytes_contents(f);
        assert(header =~= seq![m.pack_count, m.mono_width, m.base_height, m.full_height]);
        let d = font.data.as_slice();
        let mut pos: usize = 0;
        let mut p: u8 = 0;
        while p < font.pack_count
            invariant
                self.wf(),
                m == metrics_of(*font),
                d@ == font.data@,
                d@.len() <= LIB_LEN_MAX,
                font.data@.len() <= LIB_LEN_MAX,
                pos <= d@.len(),
                p <= font.pack_count,
                bytes_contents(f).len() <= PKG_LIB_MAX,
                header == seq![m.pack_count, m.mono_width, m.base_height, m.full_height],
                bytes_contents(f) == header + acc,
                glyph_outs_ok(m, outs),
                font_packs(m, p as nat, outs) == Some((acc, pos as int)),
            decreases font.pack_count - p,
        {
            let ghost pk = p as int;
            p += 1;
            if pos + 4 > d.len() {
                proof {
                    assert(font_packs(m, p as nat, outs) is None);
                    lemma_font_packs_none(m, p as nat, m.pack_count as nat, outs);
                    assert(font_body(m, outs) == opt_bytes(None));
                }
                return None;
            }
            let start = d[pos];
            let end = d[pos + 1];
            let length = d[pos + 2] as usize + d[pos + 3] as usize * 256;
            pos += 4;
            if length > d.len() - pos || end == 255 {
                proof {
                    assert(font_packs(m, p as nat, outs) is None);
                    lemma_font_packs_none(m, p as nat, m.pack_count as nat, outs);
                    assert(font_body(m, outs) == opt_bytes(None));
                }
                return None;
            }
            pos += length;
            let (packed, Ghost(o2)) = self.pkg_pack(font, start, end, Ghost(pk), Ghost(outs));
            proof {
                lemma_font_packs_agree(m, pk as nat, outs, o2);
                outs = o2;
            }
            let (dv, gv) = match packed {
                Some(t) => t,
                None => {
                    proof {
                        assert(font_packs(m, p as nat, outs) is None);
                        lemma_font_packs_none(m, p as nat, m.pack_count as nat, outs);
                        assert(font_body(m, outs) == opt_bytes(None));
                    }
                    return None;
                },
            };
            if bytes_len(&f) + 4 + dv.len() + gv.len() > PKG_LIB_MAX {
                proof {
                    assert(font_packs(m, p as nat, outs) is None);
                    lemma_font_packs_none(m, p as nat, m.pack_count as nat, outs);
                    assert(font_body(m, outs) == opt_bytes(None));
                }
                return None;
            }
            bytes_put_u8(&mut f, start);
            bytes_put_u8(&mut f, end);
            bytes_put_u16_le(&mut f, (dv.len() + gv.len()) as u16);
            bytes_put_slice(&mut f, dv.as_slice());
            bytes_put_slice(&mut f, gv.as_slice());
            proof {
                acc = acc + seq![start, end] + le_bytes((dv@.len() + gv@.len()) as u16) + dv@ + gv@;
                assert(bytes_contents(f) =~= header + acc);
            }
        }
        let r = bytes_to_vec(&f);
        assert(font_body(m, outs) == opt_bytes(Some(r)));
        Some(r)
    }

    /// Writes the libraries of the sources `sources` (one bit per source) as
    /// a package: the header `PKG0`, length and checksum, then the image,
    /// border, font, page and program libraries, each with its magic number
    /// and length, and the end mark. With `optimize`, image streams are
    /// run-length encoded where that is shorter.
    pub fn generate_pkg(&self, sources: u8, optimize: bool) -> (r: Vec<u8>)
        requires
            self.wf(),
        ensures
            exists|outs: Seq<(Seq<u8>, Seq<u8>)>, bodies: Seq<Option<Seq<u8>>>|
                image_streams_all(self.libs().images, sources, optimize, outs)
                && font_bodies_all(self.libs().fonts, sources, bodies)
                && r@ == #[trigger] package_of(self.libs(), sources, optimize, outs, bodies),
            pkg_header_ok(r@),
            r@.len() <= 0xffff_ffff,
            r@[r@.len() - 1] == 255,
    {
        let images = self.pkg_images(sources, optimize);
        let fonts = self.pkg_fonts(sources);
        let borders = self.pkg_borders(sources);
        let pages = self.pkg_pages(sources);
        let programs = self.pkg_programs(sources);
        let body = pkg_body(images.as_slice(), borders.as_slice(), fonts.as_slice(), pages.as_slice(), programs.as_slice());
        let r = seal_pkg(body);
        proof {
            let outs = choose|outs: Seq<(Seq<u8>, Seq<u8>)>| image_streams_all(self.libs().images, sources, optimize, outs)
                && images@ == #[trigger] image_lib(self.libs().images, sources, optimize, outs);
            let bodies = choose|bodies: Seq<Option<Seq<u8>>>| font_bodies_all(self.libs().fonts, sources, bodies)
                && fonts@ == #[trigger] font_lib(self.libs().fonts, sources, bodies);
            assert(r@ == package_of(self.libs(), sources, optimize, outs, bodies));
        }
        r
    }
}

/// A section of a package is read back as the library it holds.
proof fn lemma_walk_section(d: Seq<u8>, p: int, m: u8, lib: Seq<u8>, source: u8, libs: MediaLibs)
    requires
        0 <= p,
        p + 3 + lib.len() <= d.len(),
        d.subrange(p, p + 3 + lib.len()) == pkg_section(m, lib),
        0 < lib.len() < 65536,
        m != 255,
        source < LIBRARY_MAX,
    ensures
        pkg_walk(d, p, source, libs) == pkg_walk(d, p + 3 + lib.len(), source, set_lib(libs, m, source as int, lib)),
{
    let sec = pkg_section(m, lib);
    assert(d[p] == sec[0]);
    assert(d[p + 1] == sec[1]);
    assert(d[p + 2] == sec[2]);
    assert(le_u16(d[p + 1], d[p + 2]) == lib.len());
    assert(d.subrange(p + 3, p + 3 + lib.len()) =~= lib) by {
        assert forall|k: int| 0 <= k < lib.len() implies d.subrange(p + 3, p + 3 + lib.len())[k] == lib[k] by {
            assert(d[p + 3 + k] == sec[3 + k]);
        }
    }
}

/// A package of five libraries, each shorter than 2^16 bytes, is read
/// back as those libraries; it passes its checks, and the reader, wanting
/// three bytes at the end mark, reports an early end.
#[verifier::spinoff_prover]
#[verifier::rlimit(60)]
pub proof fn lemma_sections_read_back(
    a: Seq<u8>,
    b: Seq<u8>,
    f: Seq<u8>,
    g: Seq<u8>,
    h: Seq<u8>,
    source: u8,
    into: MediaLibs,
)
    requires
        source < LIBRARY_MAX,
        0 < a.len() < 65536,
        0 < b.len() < 65536,
        0 < f.len() < 65536,
        0 < g.len() < 65536,
        0 < h.len() < 65536,
    ensures
        load_pkg_result(pkg_sealed(pkg_unsealed(a, b, f, g, h)), source, into) == (
            MediaLibs {
                images: into.images.update(source as int, a),
                borders: into.borders.update(source as int, b),
                fonts: into.fonts.update(source as int, f),
                pages: into.pages.update(source as int, g),
                programs: into.programs.update(source as int, h),
            },
            Ret::UnexpectedEnd,
        ),
{
    let body = pkg_unsealed(a, b, f, g, h);
    let d = pkg_sealed(body);
    let sa = pkg_section(LIBMAGIC_IMAGE, a);
    let sb = pkg_section(LIBMAGIC_BORDER, b);
    let sf = pkg_section(LIBMAGIC_FONT, f);
    let sg = pkg_section(LIBMAGIC_PAGE, g);
    let sh = pkg_section(LIBMAGIC_PROGRAM, h);
    let tail = sa + sb + sf + sg + sh + seq![255u8];
    assert(d.len() == body.len());
    assert(d.subrange(10, d.len() as int) =~= tail);
    let p0: int = 10;
    let p1 = p0 + sa.len();
    let p2 = p1 + sb.len();
    let p3 = p2 + sf.len();
    let p4 = p3 + sg.len();
    let p5 = p4 + sh.len();
    assert(d.len() == p5 + 1);
    assert(d.subrange(p0, p1) =~= sa) by { assert forall|k: int| 0 <= k < sa.len() implies d.subrange(p0, p1)[k] == sa[k] by { assert(d[p0 + k] == tail[k]); } }
    assert(d.subrange(p1, p2) =~= sb) by { assert forall|k: int| 0 <= k < sb.len() implies d.subrange(p1, p2)[k] == sb[k] by { assert(d[p1 + k] == tail[sa.len() + k]); } }
    assert(d.subrange(p2, p3) =~= sf) by { assert forall|k: int| 0 <= k < sf.len() implies d.subrange(p2, p3)[k] == sf[k] by { assert(d[p2 + k] == tail[sa.len() + sb.len() + k]); } }
    assert(d.subrange(p3, p4) =~= sg) by { assert forall|k: int| 0 <= k < sg.len() implies d.subrange(p3, p4)[k] == sg[k] by { assert(d[p3 + k] == tail[sa.len() + sb.len() + sf.len() + k]); } }
    assert(d.subrange(p4, p5) =~= sh) by { assert forall|k: int| 0 <= k < sh.len() implies d.subrange(p4, p5)[k] == sh[k] by { assert(d[p4 + k] == tail[sa.len() + sb.len() + sf.len() + sg.len() + k]); } }
    assert(d[p5] == 255) by { assert(d[p5] == tail[p5 - 10]); }
    let l1 = set_lib(into, LIBMAGIC_IMAGE, source as int, a);
    let l2 = set_lib(l1, LIBMAGIC_BORDER, source as int, b);
    let l3 = set_lib(l2, LIBMAGIC_FONT, source as int, f);
    let l4 = set_lib(l3, LIBMAGIC_PAGE, source as int, g);
    let l5 = set_lib(l4, LIBMAGIC_PROGRAM, source as int, h);
    lemma_walk_section(d, p0, LIBMAGIC_IMAGE, a, source, into);
    lemma_walk_section(d, p1, LIBMAGIC_BORDER, b, source, l1);
    lemma_walk_section(d, p2, LIBMAGIC_FONT, f, source, l2);
    lemma_walk_section(d, p3, LIBMAGIC_PAGE, g, source, l3);
    lemma_walk_section(d, p4, LIBMAGIC_PROGRAM, h, source, l4);
    assert(pkg_walk(d, p5, source, l5) == (l5, Ret::UnexpectedEnd));
    lemma_crc_suffix(d, body, 12);
    assert(d.subrange(0, 4) =~= seq![0x50u8, 0x4bu8, 0x47u8, 0x30u8]);
    assert(le_u16(d[8], d[9]) == pkg_crc(d, 12));
}

/// A generated package is read back as the libraries it was made of: each
/// of the five libraries (shorter than 2^16 bytes, as their 16-bit lengths
/// ask) becomes the library of its kind for the source it is loaded as; the
/// package passes its checks, and the reader, wanting three bytes at the
/// end mark, reports an early end.
pub proof fn lemma_generated_pkg_read_back(
    libs: MediaLibs,
    sources: u8,
    optimize: bool,
    outs: Seq<(Seq<u8>, Seq<u8>)>,
    bodies: Seq<Option<Seq<u8>>>,
    source: u8,
    into: MediaLibs,
)
    requires
        source < LIBRARY_MAX,
        image_lib(libs.images, sources, optimize, outs).len() < 65536,
        lib_fold(border_entries(libs.borders, sources), 254).push(255).len() < 65536,
        font_lib(libs.fonts, sources, bodies).len() < 65536,
        lib_fold(blob_entries(libs.pages, sources), 254).push(255).len() < 65536,
        lib_fold(blob_entries(libs.programs, sources), 254).push(255).len() < 65536,
    ensures
        load_pkg_result(package_of(libs, sources, optimize, outs, bodies), source, into) == (
            MediaLibs {
                images: into.images.update(source as int, image_lib(libs.images, sources, optimize, outs)),
                borders: into.borders.update(source as int, lib_fold(border_entries(libs.borders, sources), 254).push(255)),
                fonts: into.fonts.update(source as int, font_lib(libs.fonts, sources, bodies)),
                pages: into.pages.update(source as int, lib_fold(blob_entries(libs.pages, sources), 254).push(255)),
                programs: into.programs.update(source as int, lib_fold(blob_entries(libs.programs, sources), 254).push(255)),
            },
            Ret::UnexpectedEnd,
        ),
{
    lemma_sections_read_back(
        image_lib(libs.images, sources, optimize, outs),
        lib_fold(border_entries(libs.borders, sources), 254).push(255),
        font_lib(libs.fonts, sources, bodies),
        lib_fold(blob_entries(libs.pages, sources), 254).push(255),
        lib_fold(blob_entries(libs.programs, sources), 254).push(255),
        source,
        into,
    );
}

/// Appends a library with its magic number and length where it is not empty.
fn put_section(pkg: &mut bytes::BytesMut, magic: u8, lib: &[u8])
    requires
        bytes_contents(*old(pkg)).len() >= 4,
        bytes_contents(*old(pkg)).len() + lib@.len() + 3 <= 8 * PKG_LIB_MAX,
    ensures
        bytes_contents(*final(pkg)).len() <= bytes_contents(*old(pkg)).len() + lib@.len() + 3,
        bytes_contents(*final(pkg)).len() >= bytes_contents(*old(pkg)).len(),
        lib@.len() > 0 ==> bytes_contents(*final(pkg)).len() == bytes_contents(*old(pkg)).len() + lib@.len() + 3,
        bytes_contents(*final(pkg)).subrange(0, 4) == bytes_contents(*old(pkg)).subrange(0, 4),
        bytes_contents(*final(pkg)) == bytes_contents(*old(pkg)) + pkg_section(magic, lib@),
{
    if lib.len() > 0 {
        bytes_put_u8(pkg, magic);
        bytes_put_u16_le(pkg, lib.len() as u16);
        bytes_put_slice(pkg, lib);
        assert(bytes_contents(*final(pkg)).subrange(0, 4) =~= bytes_contents(*old(pkg)).subrange(0, 4));
        assert(bytes_contents(*final(pkg)) =~= bytes_contents(*old(pkg)) + pkg_section(magic, lib@));
    } else {
        assert(bytes_contents(*final(pkg)) =~= bytes_contents(*old(pkg)) + pkg_section(magic, lib@));
    }
}

/// The package before its length and checksum are filled in.
fn pkg_body(images: &[u8], borders: &[u8], fonts: &[u8], pages: &[u8], programs: &[u8]) -> (r: Vec<u8>)
    requires
        images@.len() <= PKG_LIB_MAX + 1,
        borders@.len() <= PKG_LIB_MAX + 1,
        fonts@.len() <= PKG_LIB_MAX + 1,
        pages@.len() <= PKG_LIB_MAX + 1,
        1 <= programs@.len() <= PKG_LIB_MAX + 1,
    ensures
        12 <= r@.len() <= 6 * PKG_LIB_MAX,
        r@.subrange(0, 4) == seq![0x50u8, 0x4bu8, 0x47u8, 0x30u8],
        r@[r@.len() - 1] == 255,
        r@ == pkg_unsealed(images@, borders@, fonts@, pages@, programs@),
{
    let mut pkg = bytes_new();
    bytes_put_u8(&mut pkg, 0x50);
    bytes_put_u8(&mut pkg, 0x4b);
    bytes_put_u8(&mut pkg, 0x47);
    bytes_put_u8(&mut pkg, 0x30);
    assert(bytes_contents(pkg).subrange(0, 4) =~= seq![0x50u8, 0x4bu8, 0x47u8, 0x30u8]);
    let mut k: usize = 0;
    while k < 6
        invariant
            k <= 6,
            bytes_contents(pkg).len() == 4 + k,
            bytes_contents(pkg).subrange(0, 4) == seq![0x50u8, 0x4bu8, 0x47u8, 0x30u8],
            bytes_contents(pkg) == seq![0x50u8, 0x4bu8, 0x47u8, 0x30u8] + Seq::new(k as nat, |j: int| 0u8),
        decreases 6 - k,
    {
        let ghost before = bytes_contents(pkg);
        bytes_put_u8(&mut pkg, 0);
        assert(bytes_contents(pkg).subrange(0, 4) =~= before.subrange(0, 4));
        assert(bytes_contents(pkg) =~= seq![0x50u8, 0x4bu8, 0x47u8, 0x30u8] + Seq::new((k + 1) as nat, |j: int| 0u8));
        k += 1;
    }
    assert(bytes_contents(pkg) =~= seq![0x50u8, 0x4bu8, 0x47u8, 0x30u8, 0u8, 0u8, 0u8, 0u8, 0u8, 0u8]);
    put_section(&mut pkg, LIBMAGIC_IMAGE, images);
    put_section(&mut pkg, LIBMAGIC_BORDER, borders);
    put_section(&mut pkg, LIBMAGIC_FONT, fonts);
    put_section(&mut pkg, LIBMAGIC_PAGE, pages);
    put_section(&mut pkg, LIBMAGIC_PROGRAM, programs);
    let ghost before = bytes_contents(pkg);
    bytes_put_u8(&mut pkg, 255);
    assert(bytes_contents(pkg).subrange(0, 4) =~= before.subrange(0, 4));
    assert(bytes_contents(pkg) =~= pkg_unsealed(images@, borders@, fonts@, pages@, programs@));
    bytes_to_vec(&pkg)
}

/// Fills in the length and the checksum of a package.
fn seal_pkg(body: Vec<u8>) -> (r: Vec<u8>)
    requires
        12 <= body@.len() <= 0xffff_ffff,
        body@.subrange(0, 4) == seq![0x50u8, 0x4bu8, 0x47u8, 0x30u8],
    ensures
        pkg_header_ok(r@),
        r@.len() == body@.len(),
        r@[r@.len() - 1] == body@[body@.len() - 1],
        r@ == pkg_sealed(body@),
{
    let mut v = body;
    let n = v.len();
    let mut crc: u16 = 0x1002;
    let mut j: usize = n;
    while j > 12
        invariant
            v@ == body@,
            n == body@.len(),
            12 <= j <= n,
            crc == pkg_crc(body@, j as int),
        decreases j,
    {
        j -= 1;
        crc = ((crc as u32 + v[j] as u32) % 65536) as u16;
    }
    let len32: u32 = n as u32;
    let c0: u32 = len32 % 256;
    let c1: u32 = (len32 / 256) % 256;
    let c2: u32 = (len32 / 65536) % 256;
    let c3: u32 = len32 / 16777216;
    assert(c0 + c1 * 256 + c2 * 65536 + c3 * 16777216 == len32 && c3 < 256) by (bit_vector)
        requires
            c0 == len32 % 256,
            c1 == (len32 / 256) % 256,
            c2 == (len32 / 65536) % 256,
            c3 == len32 / 16777216,
    ;
    v.set(4, c0 as u8);
    v.set(5, c1 as u8);
    v.set(6, c2 as u8);
    v.set(7, c3 as u8);
    v.set(8, (crc % 256) as u8);
    v.set(9, (crc / 256) as u8);
    proof {
        lemma_crc_suffix(v@, body@, 12);
        assert(v@.subrange(0, 4) =~= body@.subrange(0, 4));
        assert(v@ =~= pkg_sealed(body@));
    }
    v
}

/// Walking the sections of a package never reports a bad header or a bad
/// checksum.
proof fn lemma_walk_not_header_error(d: Seq<u8>, p: int, source: u8, libs: MediaLibs)
    ensures
        pkg_walk(d, p, source, libs).1 != Ret::BadHeader,
        pkg_walk(d, p, source, libs).1 != Ret::CRCFailure,
    decreases d.len() - p,
{
    if p < 0 || super::s_avail(d, p) < 3 {
    } else if d[p] == super::LIBMAGIC_EOL {
    } else if !(super::s_avail(d, p + 1) > 2) {
    } else {
        let lib_length = le_u16(d[p + 1], d[p + 2]);
        let pos = p + 3;
        if lib_length != 0 && pos + lib_length <= d.len() {
            let end = pos + lib_length;
            let libs2 = if source < LIBRARY_MAX {
                super::set_lib(libs, d[p], source as int, d.subrange(pos, end))
            } else {
                libs
            };
            lemma_walk_not_header_error(d, pos + lib_length, source, libs2);
        }
    }
}

/// A package that `generate_pkg` writes passes the header and checksum
/// checks of `load_pkg`, whatever source it is loaded as and whatever the
/// media held before.
pub proof fn lemma_generated_pkg_passes_checks(d: Seq<u8>, source: u8, libs: MediaLibs)
    requires
        pkg_header_ok(d),
    ensures
        load_pkg_result(d, source, libs).1 != Ret::BadHeader,
        load_pkg_result(d, source, libs).1 != Ret::CRCFailure,
{
    lemma_walk_not_header_error(d, 10, source, libs);
}

} // verus!
