//! Building the image library from imported pixels.

use vstd::prelude::*;
use vstd::string::StringSliceAdditionalSpecFns;
use super::{ident_matches, s_avail, IdentView, Library, Media, LIBRARY_MAX, LIB_LEN_MAX};
use super::image::{image_lookup, image_walk, EntryHit};
use super::entries::{entry_end, kept_entries};
use crate::stream::le_u16;
use super::entries::{import_lib, import_lib_bytes, le_bytes, rebuild_lib, replaced_lib};
use super::buffer::{bytes_contents, bytes_new, bytes_put_slice, bytes_put_u16_le, bytes_put_u8, bytes_to_vec};

verus! {

/// An image entry: index, name, data length (with the three header bytes),
/// mask length, the header (indexed, width, height), data and mask.
pub open spec fn image_entry(index: u8, id: Seq<u8>, width: u8, height: u8, data: Seq<u8>, mask: Seq<u8>) -> Seq<u8> {
    seq![index, id.len() as u8] + id + le_bytes(((data.len() as u16) + 3) as u16) + le_bytes(mask.len() as u16)
        + seq![1u8, width, height] + data + mask
}

/// Whether pixel `i` (three bytes from `i * size`) is light: its brightness
/// lies above the threshold of its place in a checkerboard of `width`
/// columns.
pub open spec fn light(pixels: Seq<u8>, size: int, i: int, width: u8, t0: u8, t1: u8) -> bool {
    let pos = i * size;
    let parity = ((i % width as int) + ((i / width as int) % 2)) % 2;
    width > 0 && pixels[pos] + pixels[pos + 1] + pixels[pos + 2] > (if parity == 0 { t0 } else { t1 }) * 3
}

/// Whether pixel `i` of RGBA pixels is not fully transparent.
pub open spec fn visible(pixels: Seq<u8>, i: int) -> bool {
    pixels[i * 4 + 3] > 0
}

/// The first `k` bits from pixel `base` on, as the high bits of a byte.
pub open spec fn pack_light(pixels: Seq<u8>, size: int, width: u8, t0: u8, t1: u8, base: int, k: nat) -> u8
    decreases k,
{
    if k == 0 {
        0
    } else {
        let prev = pack_light(pixels, size, width, t0, t1, base, (k - 1) as nat);
        if light(pixels, size, base + k - 1, width, t0, t1) { prev | (1u8 << ((7 - (k - 1)) as u8)) } else { prev }
    }
}

/// The first `k` mask bits from pixel `base` on, as the high bits of a byte.
pub open spec fn pack_visible(pixels: Seq<u8>, base: int, k: nat) -> u8
    decreases k,
{
    if k == 0 {
        0
    } else {
        let prev = pack_visible(pixels, base, (k - 1) as nat);
        if visible(pixels, base + k - 1) { prev | (1u8 << ((7 - (k - 1)) as u8)) } else { prev }
    }
}

/// How many bytes the bits of `n` pixels take: only full bytes where the
/// pixels ran out before the image was complete.
pub open spec fn byte_count(n: int, complete: bool) -> int {
    if complete { (n + 7) / 8 } else { n / 8 }
}

/// The bits in byte `g` of `n` pixels.
pub open spec fn bits_in(n: int, g: int) -> nat {
    if n - 8 * g >= 8 { 8 } else { (n - 8 * g) as nat }
}

/// The pixel stream of `n` pixels: a raw stream (0), then eight pixels to a
/// byte, the first in the high bit.
pub open spec fn light_stream(pixels: Seq<u8>, size: int, width: u8, t0: u8, t1: u8, n: int, complete: bool) -> Seq<u8> {
    seq![0u8] + Seq::new(byte_count(n, complete) as nat, |g: int| pack_light(pixels, size, width, t0, t1, 8 * g, bits_in(n, g)))
}

/// The mask stream of `n` RGBA pixels.
pub open spec fn visible_stream(pixels: Seq<u8>, n: int, complete: bool) -> Seq<u8> {
    seq![0u8] + Seq::new(byte_count(n, complete) as nat, |g: int| pack_visible(pixels, 8 * g, bits_in(n, g)))
}

/// How many pixels the import reads: all of them, or as many as the bytes
/// hold.
pub open spec fn pixels_read(pixels: Seq<u8>, size: int, width: u8, height: u8) -> int {
    if (pixels.len() as int) / size < width * height { (pixels.len() as int) / size } else { width * height }
}

/// Whether some pixel read is not fully opaque.
pub open spec fn some_translucent(pixels: Seq<u8>, n: int) -> bool {
    exists|j: int| 0 <= j < n && #[trigger] pixels[j * 4 + 3] != 255
}

/// The data stream of an imported image.
pub open spec fn import_data(pixels: Seq<u8>, width: u8, height: u8, alpha: bool, t0: u8, t1: u8) -> Seq<u8> {
    let size: int = if alpha { 4 } else { 3 };
    let n = pixels_read(pixels, size, width, height);
    light_stream(pixels, size, width, t0, t1, n, n == width * height)
}

/// The mask stream of an imported image: none where every pixel read is
/// opaque.
pub open spec fn import_mask(pixels: Seq<u8>, width: u8, height: u8, alpha: bool) -> Seq<u8> {
    let n = pixels_read(pixels, 4, width, height);
    if alpha && some_translucent(pixels, n) { visible_stream(pixels, n, n == width * height) } else { Seq::empty() }
}

/// Whether the pixel at `i` (three or four bytes at `pos`) is light.
fn pixel_light(pixels: &[u8], pos: usize, i: usize, width: u8, threshold_0: u8, threshold_1: u8, size: usize) -> (r: bool)
    requires
        pos + 3 <= pixels@.len(),
        pos == i * size,
        width > 0,
    ensures
        r == light(pixels@, size as int, i as int, width, threshold_0, threshold_1),
{
    let sum: i16 = pixels[pos] as i16 + pixels[pos + 1] as i16 + pixels[pos + 2] as i16;
    let w = width as usize;
    let parity = ((i % w) + ((i / w) % 2)) % 2;
    let threshold: i16 = if parity == 0 { threshold_0 as i16 * 3 } else { threshold_1 as i16 * 3 };
    sum > threshold
}

impl Media {
    /// Appends the image entry `index` named `id` to `dest`.
    pub fn insert_image(dest: &mut bytes::BytesMut, index: u8, id: &str, width: u8, height: u8, data: &[u8], mask: &[u8])
        requires
            (data@.len() as u16) + 3 <= u16::MAX,
            bytes_contents(*old(dest)).len() + id.spec_bytes().len() + data@.len() + mask@.len() + 9 <= LIB_LEN_MAX * 4,
        ensures
            bytes_contents(*final(dest)) == bytes_contents(*old(dest)) + image_entry(index, id.spec_bytes(), width, height, data@, mask@),
    {
        let idb = id.as_bytes();
        bytes_put_u8(dest, index);
        bytes_put_u8(dest, idb.len() as u8);
        bytes_put_slice(dest, idb);
        bytes_put_u16_le(dest, data.len() as u16 + 3);
        bytes_put_u16_le(dest, mask.len() as u16);
        bytes_put_u8(dest, 1);
        bytes_put_u8(dest, width);
        bytes_put_u8(dest, height);
        bytes_put_slice(dest, data);
        bytes_put_slice(dest, mask);
        assert(bytes_contents(*final(dest)) =~= bytes_contents(*old(dest)) + image_entry(index, id.spec_bytes(), width, height, data@, mask@));
    }

    /// Starts the image library of imports afresh, where it was started.
    pub fn clear_images(&mut self)
        requires
            old(self).wf(),
        ensures
            final(self).wf(),
            final(self).libs() == old(self).libs(),
            old(self).import_images.is_some() ==> (final(self).import_images matches Some(v) && v@ == seq![255u8]),
            old(self).import_images.is_none() ==> final(self).import_images.is_none(),
            final(self).import_fonts == old(self).import_fonts,
            final(self).import_borders == old(self).import_borders,
            final(self).import_pages == old(self).import_pages,
            final(self).import_programs == old(self).import_programs,
            final(self).drawing == old(self).drawing,
            final(self).typesetting == old(self).typesetting,
    {
        if self.import_images.is_some() {
            let v: Vec<u8> = vec![255u8];
            assert(v@ =~= seq![255u8]);
            self.import_images = Some(v);
        }
    }

    /// Drops the imported image `index`: an empty entry takes its place.
    pub fn remove_image(&mut self, index: u8)
        requires
            old(self).wf(),
            import_lib(old(self).import_images).len() + 16 <= LIB_LEN_MAX,
        ensures
            final(self).wf(),
            final(self).import_images matches Some(v) && v@ == replaced_lib(
                import_lib(old(self).import_images),
                index,
                true,
                image_entry(index, Seq::empty(), 0, 0, seq![0u8], Seq::empty()),
            ),
            final(self).libs().images == old(self).libs().images.update(2, final(self).import_images->0@),
    {
        proof {
            reveal_strlit("");
        }
        self.import_image(index, "", &[], 0, 0, false, 0, 0);
    }

    /// Converts `width` x `height` pixels (RGB, or RGBA where `alpha`) to a
    /// one-bit image, light where the brightness passes the threshold of its
    /// place in a checkerboard of `threshold_0` and `threshold_1`, with a mask
    /// of the pixels that are not fully transparent where some pixel is not
    /// opaque. The image replaces the imported image `index` and the library
    /// of imports becomes the third source of images.
    pub fn import_image(&mut self, index: u8, name: &str, pixels: &[u8], width: u8, height: u8, alpha: bool, threshold_0: u8, threshold_1: u8)
        requires
            old(self).wf(),
            import_lib(old(self).import_images).len() + name.spec_bytes().len() + 2 * (width * height) + 16 <= LIB_LEN_MAX,
        ensures
            final(self).wf(),
            final(self).import_images matches Some(v) && v@ == replaced_lib(
                import_lib(old(self).import_images),
                index,
                true,
                image_entry(index, name.spec_bytes(), width, height,
                    import_data(pixels@, width, height, alpha, threshold_0, threshold_1),
                    import_mask(pixels@, width, height, alpha)),
            ),
            final(self).libs().images == old(self).libs().images.update(2, final(self).import_images->0@),
            pixels@.len() == 0 && !alpha ==> (final(self).import_images matches Some(v) && v@ == replaced_lib(
                import_lib(old(self).import_images),
                index,
                true,
                image_entry(index, name.spec_bytes(), width, height, seq![0u8], Seq::empty()),
            )),
            final(self).libs().fonts == old(self).libs().fonts,
            final(self).libs().borders == old(self).libs().borders,
            final(self).libs().pages == old(self).libs().pages,
            final(self).libs().programs == old(self).libs().programs,
            final(self).import_fonts == old(self).import_fonts,
            final(self).import_borders == old(self).import_borders,
            final(self).import_pages == old(self).import_pages,
            final(self).import_programs == old(self).import_programs,
            final(self).drawing == old(self).drawing,
            final(self).typesetting == old(self).typesetting,
    {
        let lib = import_lib_bytes(&self.import_images);
        let mut data = bytes_new();
        let mut mask = bytes_new();
        bytes_put_u8(&mut data, 0);
        if alpha {
            bytes_put_u8(&mut mask, 0);
        }
        let pixel_size: usize = if alpha { 4 } else { 3 };
        let pixel_cnt: usize = width as usize * height as usize;
        let mut data_byte: u8 = 0;
        let mut mask_byte: u8 = 0;
        let mut has_alpha = false;
        let mut pos: usize = 0;
        let mut i: usize = 0;
        assert(width * height <= 255 * 255) by (nonlinear_arith)
            requires
                width <= 255,
                height <= 255,
        ;
        let ghost ps = pixel_size as int;
        proof {
            assert(bytes_contents(data) =~= light_stream(pixels@, ps, width, threshold_0, threshold_1, 0, 0 == pixel_cnt));
            if alpha {
                assert(bytes_contents(mask) =~= visible_stream(pixels@, 0, 0 == pixel_cnt));
            }
        }
        while i < pixel_cnt && pos + pixel_size <= pixels.len()
            invariant
                pixel_cnt == width * height,
                pixel_cnt <= 65025,
                i <= pixel_cnt,
                pos == i * pixel_size,
                pos <= pixels@.len(),
                ps == pixel_size as int,
                pixel_size == (if alpha { 4usize } else { 3usize }),
                bytes_contents(data).len() >= 1 && bytes_contents(data)[0] == 0,
                bytes_contents(data).len() <= 1 + i,
                bytes_contents(mask).len() <= 1 + i,
                !alpha ==> bytes_contents(mask).len() == 0,
                pixels@.len() == 0 ==> bytes_contents(data).len() == 1,
                bytes_contents(data) == light_stream(pixels@, ps, width, threshold_0, threshold_1, i as int, i == pixel_cnt),
                i < pixel_cnt ==> data_byte == pack_light(pixels@, ps, width, threshold_0, threshold_1, 8 * (i / 8) as int, (i % 8) as nat),
                alpha ==> bytes_contents(mask) == visible_stream(pixels@, i as int, i == pixel_cnt),
                alpha && i < pixel_cnt ==> mask_byte == pack_visible(pixels@, 8 * (i / 8) as int, (i % 8) as nat),
                alpha ==> has_alpha == some_translucent(pixels@, i as int),
                !alpha ==> !has_alpha,
            decreases pixel_cnt - i,
        {
            let ghost d0 = bytes_contents(data);
            let ghost m0 = bytes_contents(mask);
            if width > 0 && pixel_light(pixels, pos, i, width, threshold_0, threshold_1, pixel_size) {
                data_byte = data_byte | (1u8 << ((7 - (i % 8)) as u8));
            }
            assert(8 * (i / 8) + (i % 8) == i);
            assert(data_byte == pack_light(pixels@, ps, width, threshold_0, threshold_1, 8 * (i / 8) as int, (i % 8 + 1) as nat));
            if alpha {
                let a = pixels[pos + 3];
                if a != 255 {
                    has_alpha = true;
                }
                if a > 0 {
                    mask_byte = mask_byte | (1u8 << ((7 - (i % 8)) as u8));
                }
                proof {
                    assert(pos + 3 == i * 4 + 3);
                    assert(mask_byte == pack_visible(pixels@, 8 * (i / 8) as int, (i % 8 + 1) as nat));
                    if has_alpha && !some_translucent(pixels@, i as int) {
                        assert(pixels@[i * 4 + 3] != 255);
                    }
                    assert(has_alpha == some_translucent(pixels@, i + 1)) by {
                        if some_translucent(pixels@, i as int) {
                            let j = choose|j: int| 0 <= j < i && #[trigger] pixels@[j * 4 + 3] != 255;
                            assert(pixels@[j * 4 + 3] != 255);
                        }
                        if some_translucent(pixels@, i + 1) {
                            let j = choose|j: int| 0 <= j < i + 1 && #[trigger] pixels@[j * 4 + 3] != 255;
                            if j < i {
                                assert(some_translucent(pixels@, i as int));
                            }
                        }
                    }
                }
            }
            if i % 8 == 7 || i == pixel_cnt - 1 {
                bytes_put_u8(&mut data, data_byte);
                proof {
                    assert(bits_in(i + 1, (i / 8) as int) == (i % 8 + 1) as nat);
                    assert(byte_count(i + 1, i + 1 == pixel_cnt) == byte_count(i as int, i == pixel_cnt) + 1);
                    assert forall|g: int| 0 <= g < i / 8 implies bits_in(i + 1, g) == bits_in(i as int, g) by {}
                    assert(bytes_contents(data) =~= light_stream(pixels@, ps, width, threshold_0, threshold_1, i + 1, i + 1 == pixel_cnt));
                }
                data_byte = 0;
                if alpha {
                    bytes_put_u8(&mut mask, mask_byte);
                    proof {
                        assert forall|g: int| 0 <= g < i / 8 implies bits_in(i + 1, g) == bits_in(i as int, g) by {}
                        assert(bytes_contents(mask) =~= visible_stream(pixels@, i + 1, i + 1 == pixel_cnt));
                    }
                    mask_byte = 0;
                }
            } else {
                proof {
                    assert(byte_count(i + 1, i + 1 == pixel_cnt) == byte_count(i as int, i == pixel_cnt));
                    assert forall|g: int| 0 <= g < i / 8 implies bits_in(i + 1, g) == bits_in(i as int, g) by {}
                    assert(bytes_contents(data) =~= light_stream(pixels@, ps, width, threshold_0, threshold_1, i + 1, i + 1 == pixel_cnt));
                    if alpha {
                        assert(bytes_contents(mask) =~= visible_stream(pixels@, i + 1, i + 1 == pixel_cnt));
                    }
                }
            }
            assert((i + 1) * pixel_size == i * pixel_size + pixel_size) by (nonlinear_arith);
            pos += pixel_size;
            i += 1;
        }
        proof {
            if i < pixel_cnt {
                assert(pixels@.len() < i * ps + ps);
                assert((pixels@.len() as int) / ps == i) by (nonlinear_arith)
                    requires
                        i * ps <= pixels@.len() < i * ps + ps,
                        ps > 0,
                ;
            } else {
                assert((pixels@.len() as int) / ps >= i) by (nonlinear_arith)
                    requires
                        i * ps <= pixels@.len(),
                        ps > 0,
                ;
            }
            assert(i == pixels_read(pixels@, ps, width, height));
        }
        let data_v = bytes_to_vec(&data);
        let mask_v: Vec<u8> = if has_alpha { bytes_to_vec(&mask) } else { Vec::new() };
        assert(data_v@ == import_data(pixels@, width, height, alpha, threshold_0, threshold_1));
        assert(mask_v@ =~= import_mask(pixels@, width, height, alpha));
        let mut entry = bytes_new();
        Media::insert_image(&mut entry, index, name, width, height, data_v.as_slice(), mask_v.as_slice());
        let entry = bytes_to_vec(&entry);
        let lib2 = rebuild_lib(lib.as_slice(), index, true, entry.as_slice());
        self.images.set(2, Library { data: super::copy_all(lib2.as_slice()) });
        self.import_images = Some(lib2);
        proof {
            assert(self.libs().images =~= old(self).libs().images.update(2, self.import_images->0@));
            if pixels@.len() == 0 && !alpha {
                assert(import_data(pixels@, width, height, alpha, threshold_0, threshold_1) =~= seq![0u8]);
            }
        }
    }
}

/// A hit moved by `off` bytes.
pub open spec fn shift_entry_hit(h: Option<EntryHit>, off: int) -> Option<EntryHit> {
    match h {
        Some(b) => Some(EntryHit { id_start: b.id_start + off, start: b.start + off, ..b }),
        None => None,
    }
}

/// Walking behind a prefix is walking the rest, moved by the prefix.
proof fn lemma_image_walk_shift(a: Seq<u8>, b: Seq<u8>, p: int, ident: IdentView)
    requires
        0 <= p,
    ensures
        image_walk(a + b, a.len() + p, ident) == shift_entry_hit(image_walk(b, p, ident), a.len() as int),
    decreases b.len() - p,
{
    let d = a + b;
    let o = a.len() as int;
    assert(s_avail(d, o + p) == s_avail(b, p));
    if s_avail(b, p) < 2 {
    } else {
        assert(d[o + p] == b[p]);
        assert(d[o + p + 1] == b[p + 1]);
        let id_len = b[p + 1] as int;
        let q = p + 2;
        assert(s_avail(d, o + q) == s_avail(b, q));
        if s_avail(b, q) >= id_len {
            let r = q + id_len;
            assert(s_avail(d, o + r) == s_avail(b, r));
            if !(r < b.len()) || b[p] == 255 {
            } else if s_avail(b, r) >= 4 {
                assert(d[o + r] == b[r]);
                assert(d[o + r + 1] == b[r + 1]);
                let r1 = r + 2;
                assert(s_avail(d, o + r1) == s_avail(b, r1));
                if s_avail(b, r1) > 2 {
                    assert(d[o + r1] == b[r1]);
                    assert(d[o + r1 + 1] == b[r1 + 1]);
                }
                let il = le_u16(b[r], b[r + 1]);
                let ml = if s_avail(b, r1) > 2 { le_u16(b[r1], b[r1 + 1]) } else { 0 };
                let r2 = if s_avail(b, r1) > 2 { r1 + 2 } else { r1 };
                assert(s_avail(d, o + r2) == s_avail(b, r2));
                assert(d.subrange(o + q, o + r) =~= b.subrange(q, r));
                if s_avail(b, r2) > il + ml && ident_matches(ident, b[p], b.subrange(q, r)) {
                } else if r2 + il + ml > b.len() {
                } else {
                    lemma_image_walk_shift(a, b, r2 + il + ml, ident);
                }
            }
        } else {
            lemma_image_walk_shift(a, b, q, ident);
        }
    }
}

/// The walk for another index steps over a whole entry at the start.
proof fn lemma_image_skip_entry(lib: Seq<u8>, pos: int, d: Seq<u8>, want: u8)
    requires
        0 <= pos < lib.len(),
        lib[pos] != 255,
        lib[pos] != want,
        entry_end(lib, pos, true) <= lib.len(),
        d.len() > entry_end(lib, pos, true) - pos,
        d.subrange(0, entry_end(lib, pos, true) - pos) == lib.subrange(pos, entry_end(lib, pos, true)),
    ensures
        image_walk(d, 0, IdentView::Index(want)) == image_walk(d, entry_end(lib, pos, true) - pos, IdentView::Index(want)),
{
    let e = entry_end(lib, pos, true);
    let n = e - pos;
    let il = lib[pos + 1] as int;
    let h = pos + 2 + il;
    assert(pos + 1 < lib.len());
    assert(h + 3 < lib.len());
    assert(d[0] == d.subrange(0, n)[0]);
    assert(d[0] == lib[pos]);
    assert(d[1] == d.subrange(0, n)[1]);
    assert(d[1] == lib[pos + 1]);
    assert(d[2 + il] == d.subrange(0, n)[2 + il]);
    assert(d[2 + il] == lib[h]);
    assert(d[3 + il] == d.subrange(0, n)[3 + il]);
    assert(d[3 + il] == lib[h + 1]);
    assert(d[4 + il] == d.subrange(0, n)[4 + il]);
    assert(d[4 + il] == lib[h + 2]);
    assert(d[5 + il] == d.subrange(0, n)[5 + il]);
    assert(d[5 + il] == lib[h + 3]);
}

/// Walking for index `want` a library whose first entries are those that
/// `kept_entries` keeps from `lib` (none of index `want`) skips them all.
proof fn lemma_image_walk_kept(lib: Seq<u8>, pos: int, want: u8, t: Seq<u8>)
    requires
        0 <= pos,
        t.len() >= 1,
    ensures
        image_walk(kept_entries(lib, pos, want, true) + t, 0, IdentView::Index(want)) == shift_entry_hit(
            image_walk(t, 0, IdentView::Index(want)),
            kept_entries(lib, pos, want, true).len() as int,
        ),
    decreases lib.len() - pos,
{
    let k = kept_entries(lib, pos, want, true);
    let ident = IdentView::Index(want);
    if pos >= lib.len() || lib[pos] == 255 || entry_end(lib, pos, true) > lib.len() {
        assert(k =~= Seq::<u8>::empty());
        lemma_image_walk_shift(Seq::<u8>::empty(), t, 0, ident);
        assert(Seq::<u8>::empty() + t =~= t);
    } else {
        let e = entry_end(lib, pos, true);
        let rest = kept_entries(lib, e, want, true);
        lemma_image_walk_kept(lib, e, want, t);
        if lib[pos] != want {
            let piece = lib.subrange(pos, e);
            assert(k =~= piece + rest);
            let d = piece + (rest + t);
            assert(k + t =~= d);
            assert(d.subrange(0, e - pos) =~= piece);
            lemma_image_skip_entry(lib, pos, d, want);
            lemma_image_walk_shift(piece, rest + t, 0, ident);
            assert(piece + (rest + t) =~= d);
        } else {
            assert(k =~= rest);
        }
    }
}

/// The walk finds an image entry at the start of a library.
proof fn lemma_image_walk_entry(index: u8, id: Seq<u8>, width: u8, height: u8, data: Seq<u8>, mask: Seq<u8>)
    requires
        index != 255,
        id.len() < 256,
        data.len() + 3 < 65536,
        mask.len() < 65536,
    ensures
        image_walk(image_entry(index, id, width, height, data, mask) + seq![255u8], 0, IdentView::Index(index)) == Some(
            EntryHit { idx: index, id_start: 2, id_len: id.len() as int, start: 6 + id.len() as int,
                len1: data.len() + 3int, len2: mask.len() as int },
        ),
{
    let d = image_entry(index, id, width, height, data, mask) + seq![255u8];
    let il = id.len() as int;
    assert(d[0] == index);
    assert(d[1] == id.len() as u8);
    assert(d[2 + il] == (((data.len() as u16) + 3) as u16 % 256) as u8);
    assert(d[3 + il] == (((data.len() as u16) + 3) as u16 / 256) as u8);
    assert(d[4 + il] == (mask.len() as u16 % 256) as u8);
    assert(d[5 + il] == (mask.len() as u16 / 256) as u8);
    assert(le_u16(d[2 + il], d[3 + il]) == data.len() + 3);
    assert(le_u16(d[4 + il], d[5 + il]) == mask.len());
}

/// Reading back an import: after `import_image` put an image under `index`
/// into the library of imports (the third source), looking the index up
/// finds that image there, its header, data and mask, unless the fourth
/// source holds an image of that index.
pub proof fn lemma_imported_image_read_back(libs: Seq<Seq<u8>>, old_import: Seq<u8>, index: u8, id: Seq<u8>,
    width: u8, height: u8, data: Seq<u8>, mask: Seq<u8>)
    requires
        libs.len() == LIBRARY_MAX,
        libs[2] == replaced_lib(old_import, index, true, image_entry(index, id, width, height, data, mask)),
        libs[3].len() == 0 || image_walk(libs[3], 0, IdentView::Index(index)) is None,
        index != 255,
        id.len() < 256,
        data.len() + 3 < 65536,
        mask.len() < 65536,
    ensures
        image_lookup(libs, LIBRARY_MAX - 1, IdentView::Index(index)) matches Some((src, h)) && src == 2
            && libs[2].subrange(h.start, h.start + h.len1) == seq![1u8, width, height] + data
            && libs[2].subrange(h.start + h.len1, h.start + h.len1 + h.len2) == mask,
{
    let k = kept_entries(old_import, 0, index, true);
    let t = image_entry(index, id, width, height, data, mask) + seq![255u8];
    assert(libs[2] =~= k + t);
    lemma_image_walk_kept(old_import, 0, index, t);
    lemma_image_walk_entry(index, id, width, height, data, mask);
    let h = EntryHit { idx: index, id_start: k.len() + 2int, id_len: id.len() as int, start: k.len() + 6 + id.len() as int,
        len1: data.len() + 3int, len2: mask.len() as int };
    assert(image_walk(libs[2], 0, IdentView::Index(index)) == Some(h));
    assert(libs[2].len() > 0);
    assert(image_lookup(libs, 3, IdentView::Index(index)) == image_lookup(libs, 2, IdentView::Index(index)));
    assert(libs[2].subrange(h.start, h.start + h.len1) =~= seq![1u8, width, height] + data);
    assert(libs[2].subrange(h.start + h.len1, h.start + h.len1 + h.len2) =~= mask);
}

} // verus!
