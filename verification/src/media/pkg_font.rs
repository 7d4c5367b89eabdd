//! What a font becomes in a package: its packs rebuilt glyph by glyph, the
//! glyph streams optimized.

use vstd::prelude::*;
use super::font::{glyph_of, FontMetrics};
use super::entries::le_bytes;
use super::pkg::{stream_optimized, PKG_LIB_MAX};

verus! {

/// The pixel stream of the glyph `g` behind its four header bytes, where it
/// can be optimized: one to 65536 bytes, and a raw stream at least two.
pub open spec fn glyph_body_ok(g: Seq<u8>) -> bool {
    let body = g.subrange(4, g.len() as int);
    g.len() >= 4 && body.len() >= 1 && body.len() <= 65536 && !(body[0] == 0 && body.len() < 2)
}

/// Whether `packed` is the pixel stream of the glyph of `ch` in `m` as it
/// goes into a package; anything will do for a glyph that is left out.
pub open spec fn glyph_packed_ok(m: FontMetrics, ch: int, packed: Seq<u8>) -> bool {
    let g = glyph_of(m, ch as char);
    glyph_body_ok(g) ==> stream_optimized(g.subrange(4, g.len() as int), true, packed)
}

/// Whether `outs(p, ch)` is the packed stream of the glyph of `ch` for pack
/// `p`, for every pack and character.
pub open spec fn glyph_outs_ok(m: FontMetrics, outs: spec_fn(int, int) -> Seq<u8>) -> bool {
    forall|p: int, ch: int| #[trigger] glyph_packed_ok(m, ch, outs(p, ch))
}

/// The glyphs of pack `p` from `start` on, `count` of them: its directory
/// (where each glyph ends, two bytes each) and the glyphs (header and
/// packed stream) of those whose stream can be optimized. None where the
/// glyphs pass 65535 bytes.
pub open spec fn pack_glyphs(m: FontMetrics, p: int, start: int, count: nat, outs: spec_fn(int, int) -> Seq<u8>)
    -> Option<(Seq<u8>, Seq<u8>)>
    decreases count,
{
    if count == 0 {
        Some((Seq::empty(), Seq::empty()))
    } else {
        match pack_glyphs(m, p, start, (count - 1) as nat, outs) {
            None => None,
            Some((dir, gl)) => {
                let ch = start + count - 1;
                let g = glyph_of(m, ch as char);
                if glyph_body_ok(g) {
                    let item = g.subrange(0, 4) + outs(p, ch);
                    if gl.len() + item.len() > 65535 {
                        None
                    } else {
                        Some((dir + le_bytes((gl.len() + item.len()) as u16), gl + item))
                    }
                } else {
                    Some((dir, gl))
                }
            },
        }
    }
}

/// The number of characters from `start` to `end`, both included.
pub open spec fn pack_count(start: u8, end: u8) -> nat {
    if start <= end { (end - start + 1) as nat } else { 0 }
}

/// The first `k` packs of `m` as a package carries them (each: first and
/// last character, length, directory, glyphs), with where the next pack
/// header stands in the font data. None where a pack header or pack runs
/// past the data, a pack ends at character 255, its glyphs grow too long,
/// or the body would pass `PKG_LIB_MAX` bytes.
pub open spec fn font_packs(m: FontMetrics, k: nat, outs: spec_fn(int, int) -> Seq<u8>) -> Option<(Seq<u8>, int)>
    decreases k,
{
    if k == 0 {
        Some((Seq::empty(), 0))
    } else {
        match font_packs(m, (k - 1) as nat, outs) {
            None => None,
            Some((acc, pos)) => {
                let d = m.data;
                if pos + 4 > d.len() {
                    None
                } else {
                    let start = d[pos];
                    let end = d[pos + 1];
                    let length = d[pos + 2] + d[pos + 3] * 256;
                    if length > d.len() - (pos + 4) || end == 255 {
                        None
                    } else {
                        match pack_glyphs(m, k - 1, start as int, pack_count(start, end), outs) {
                            None => None,
                            Some((dv, gv)) => if 4 + acc.len() + 4 + dv.len() + gv.len() > PKG_LIB_MAX {
                                None
                            } else {
                                Some((acc + seq![start, end] + le_bytes((dv.len() + gv.len()) as u16) + dv + gv, pos + 4 + length))
                            },
                        }
                    }
                }
            },
        }
    }
}

/// The body of the font entry of `m` in a package, with the packed glyph
/// streams `outs`: its header (pack count, mono width, base and full
/// height), then its packs.
pub open spec fn font_body(m: FontMetrics, outs: spec_fn(int, int) -> Seq<u8>) -> Option<Seq<u8>> {
    match font_packs(m, m.pack_count as nat, outs) {
        Some((acc, pos)) => Some(seq![m.pack_count, m.mono_width, m.base_height, m.full_height] + acc),
        None => None,
    }
}

/// The glyphs of a pack read only the streams of that pack, up to `count`.
pub proof fn lemma_pack_glyphs_agree(
    m: FontMetrics,
    p: int,
    start: int,
    count: nat,
    a: spec_fn(int, int) -> Seq<u8>,
    b: spec_fn(int, int) -> Seq<u8>,
)
    requires
        forall|ch: int| start <= ch < start + count ==> #[trigger] a(p, ch) == b(p, ch),
    ensures
        pack_glyphs(m, p, start, count, a) == pack_glyphs(m, p, start, count, b),
    decreases count,
{
    if count > 0 {
        lemma_pack_glyphs_agree(m, p, start, (count - 1) as nat, a, b);
    }
}

/// The first `k` packs read only the streams of those packs.
pub proof fn lemma_font_packs_agree(m: FontMetrics, k: nat, a: spec_fn(int, int) -> Seq<u8>, b: spec_fn(int, int) -> Seq<u8>)
    requires
        forall|p: int, ch: int| 0 <= p < k ==> #[trigger] a(p, ch) == b(p, ch),
    ensures
        font_packs(m, k, a) == font_packs(m, k, b),
    decreases k,
{
    if k > 0 {
        lemma_font_packs_agree(m, (k - 1) as nat, a, b);
        match font_packs(m, (k - 1) as nat, a) {
            Some((acc, pos)) => {
                let d = m.data;
                if pos + 4 <= d.len() {
                    let start = d[pos];
                    let end = d[pos + 1];
                    lemma_pack_glyphs_agree(m, k - 1, start as int, pack_count(start, end), a, b);
                }
            },
            None => {},
        }
    }
}

/// Once the glyphs of a pack grow too long, more of them do too.
pub proof fn lemma_pack_glyphs_none(m: FontMetrics, p: int, start: int, i: nat, j: nat, outs: spec_fn(int, int) -> Seq<u8>)
    requires
        i <= j,
        pack_glyphs(m, p, start, i, outs) is None,
    ensures
        pack_glyphs(m, p, start, j, outs) is None,
    decreases j - i,
{
    if i < j {
        lemma_pack_glyphs_none(m, p, start, i, (j - 1) as nat, outs);
    }
}

/// Once a pack fails, the packs behind it fail too.
pub proof fn lemma_font_packs_none(m: FontMetrics, i: nat, j: nat, outs: spec_fn(int, int) -> Seq<u8>)
    requires
        i <= j,
        font_packs(m, i, outs) is None,
    ensures
        font_packs(m, j, outs) is None,
    decreases j - i,
{
    if i < j {
        lemma_font_packs_none(m, i, (j - 1) as nat, outs);
    }
}

} // verus!
