//! Building the border library from a picture of a nine patch border.

use vstd::prelude::*;
use vstd::string::StringSliceAdditionalSpecFns;
use super::{Library, Media, LIB_LEN_MAX};
use super::entries::{entry_one, import_lib, import_lib_bytes, put_entry_one, rebuild_lib, replaced_lib};
use super::buffer::{bytes_contents, bytes_len, bytes_new, bytes_put_slice, bytes_put_u8, bytes_to_vec};
use super::image_gen::bits_in;

verus! {

/// Whether the pixel at byte `p` is pure red, the colour of the markers.
pub open spec fn red_at(pixels: Seq<u8>, p: int) -> bool {
    pixels[p] == 0xff && pixels[p + 1] == 0 && pixels[p + 2] == 0
}

/// The marker runs found so far: start and length of the first and of the
/// second run of red pixels, and how far the search is (0: before the
/// first, 1: in it, 2: between, 3: in the second, 4: done).
pub struct Runs {
    pub fs: u8,
    pub fl: u8,
    pub ss: u8,
    pub sl: u8,
    pub progress: u8,
}

/// The search after pixel `i`, red or not.
pub open spec fn runs_step(r: Runs, red: bool, i: int) -> Runs {
    if r.progress == 0 {
        if red { Runs { fl: 1, fs: i as u8, progress: 1, ..r } } else { r }
    } else if r.progress == 1 {
        if red { Runs { fl: (r.fl + 1) as u8, ..r } } else { Runs { progress: 2, ..r } }
    } else if r.progress == 2 {
        if red { Runs { sl: 1, ss: i as u8, progress: 3, ..r } } else { r }
    } else if r.progress == 3 {
        if red { Runs { sl: (r.sl + 1) as u8, ..r } } else { Runs { progress: 4, ..r } }
    } else {
        r
    }
}

/// The search along `count` pixels `step` bytes apart, from pixel `i` on.
pub open spec fn runs_from(pixels: Seq<u8>, count: int, step: int, r: Runs, i: int) -> Runs
    decreases count - i,
{
    if i >= count || r.progress >= 4 {
        r
    } else {
        runs_from(pixels, count, step, runs_step(r, red_at(pixels, i * step), i), i + 1)
    }
}

/// The two marker runs along a line of `count` pixels `step` bytes apart.
pub open spec fn marker_spec(pixels: Seq<u8>, count: int, step: int) -> (u8, u8, u8, u8) {
    let r = runs_from(pixels, count, step, Runs { fs: 0, fl: 0, ss: 0, sl: 0, progress: 0 }, 0);
    (r.fs, r.fl, r.ss, r.sl)
}

/// Whether the pixel at column `x` and row `y` of a `width` wide RGBA
/// picture lies in it and is not black.
pub open spec fn piece_pixel(pixels: Seq<u8>, width: int, x: int, y: int) -> bool {
    let p = (y * width + x) * 4;
    &&& x >= 0 && y >= 0 && x < width
    &&& p + 3 <= pixels.len()
    &&& !(pixels[p] == 0 && pixels[p + 1] == 0 && pixels[p + 2] == 0)
}

/// Line `o` of a piece: `inner` pixels from column `x0 + o * dxo`, row
/// `y0 + o * dyo`, `dxi`, `dyi` apart.
pub open spec fn piece_row(pixels: Seq<u8>, width: int, x0: int, dxo: int, dxi: int, y0: int, dyo: int, dyi: int, o: int, inner: int) -> Seq<bool> {
    Seq::new(inner as nat, |i: int| piece_pixel(pixels, width, x0 + o * dxo + i * dxi, y0 + o * dyo + i * dyi))
}

/// The bits of the first `outer` lines of a piece.
pub open spec fn piece_bits(pixels: Seq<u8>, width: int, x0: int, dxo: int, dxi: int, y0: int, dyo: int, dyi: int, outer: nat, inner: int) -> Seq<bool>
    decreases outer,
{
    if outer == 0 {
        Seq::empty()
    } else {
        piece_bits(pixels, width, x0, dxo, dxi, y0, dyo, dyi, (outer - 1) as nat, inner)
            + piece_row(pixels, width, x0, dxo, dxi, y0, dyo, dyi, outer - 1, inner)
    }
}

/// The `k` bits from `base` on, as the high bits of a byte.
pub open spec fn pack_bits(bits: Seq<bool>, base: int, k: nat) -> u8
    decreases k,
{
    if k == 0 {
        0
    } else {
        let prev = pack_bits(bits, base, (k - 1) as nat);
        if bits[base + k - 1] { prev | (1u8 << ((7 - (k - 1)) as u8)) } else { prev }
    }
}

/// The full bytes of `bits`, eight to a byte.
pub open spec fn full_bytes(bits: Seq<bool>) -> Seq<u8> {
    Seq::new((bits.len() / 8) as nat, |g: int| pack_bits(bits, 8 * g, 8))
}

/// A raw pixel stream of `bits`: the encoding 0, then eight bits to a byte,
/// the first in the high bit, the last byte filled up with zeros.
pub open spec fn bit_stream(bits: Seq<bool>) -> Seq<u8> {
    seq![0u8] + Seq::new(((bits.len() + 7) / 8) as nat, |g: int| pack_bits(bits, 8 * g, bits_in(bits.len() as int, g)))
}

/// Packing looks only at the bits it packs.
proof fn lemma_pack_prefix(bits: Seq<bool>, more: Seq<bool>, base: int, k: nat)
    requires
        0 <= base,
        base + k <= bits.len(),
    ensures
        pack_bits(bits + more, base, k) == pack_bits(bits, base, k),
    decreases k,
{
    if k > 0 {
        lemma_pack_prefix(bits, more, base, (k - 1) as nat);
    }
}

/// The eight pieces one after the other.
pub open spec fn pieces_flat(pieces: Seq<Seq<u8>>, k: nat) -> Seq<u8>
    decreases k,
{
    if k == 0 { Seq::empty() } else { pieces_flat(pieces, (k - 1) as nat) + pieces[k - 1] }
}

/// The body of a border entry: band sizes, repeat lengths, the lengths of
/// the eight pieces and the pieces.
pub open spec fn border_payload(n_h: u8, e_w: u8, s_h: u8, w_w: u8, x_w: u8, y_h: u8, pieces: Seq<Seq<u8>>) -> Seq<u8> {
    seq![n_h, e_w, s_h, w_w, x_w, y_h] + Seq::new(8, |k: int| pieces[k].len() as u8) + pieces_flat(pieces, 8)
}

/// The body of the border entry read from a `width` x `height` RGBA
/// picture; none where the picture is too short for its size or its markers
/// overlap.
pub open spec fn border_import_payload(pixels: Seq<u8>, width: u8, height: u8) -> Option<Seq<u8>> {
    let w = width as int;
    let h = height as int;
    if pixels.len() < w * h * 4 || (w > 0 && pixels.len() < w * 4) || (h > 0 && w == 0 && pixels.len() < 3) {
        None
    } else {
        let (w_s, w_w, e_s, e_w) = marker_spec(pixels, w, 4);
        let (n_s, n_h, s_s, s_h) = if h > 0 { marker_spec(pixels, h, w * 4) } else { (0u8, 0u8, 0u8, 0u8) };
        if e_s < w_s + w_w || s_s < n_s + n_h {
            None
        } else {
            let x_w = (e_s - w_s - w_w) as u8;
            let y_h = (s_s - n_s - n_h) as u8;
            Some(border_payload(n_h, e_w, s_h, w_w, x_w, y_h, border_import_payload_pieces(pixels, width, height)))
        }
    }
}

/// The eight pieces of the border read from a `width` x `height` RGBA
/// picture whose markers do not overlap.
pub open spec fn border_import_payload_pieces(pixels: Seq<u8>, width: u8, height: u8) -> Seq<Seq<u8>> {
    let w = width as int;
    let h = height as int;
    let (w_s, w_w, e_s, e_w) = marker_spec(pixels, w, 4);
    let (n_s, n_h, s_s, s_h) = if h > 0 { marker_spec(pixels, h, w * 4) } else { (0u8, 0u8, 0u8, 0u8) };
    let x_w = (e_s - w_s - w_w) as u8;
    let y_h = (s_s - n_s - n_h) as u8;
    let xw = w_s + w_w;
    let ys = n_s + n_h;
    let xe = e_s + e_w - 1;
    let ye = s_s + s_h - 1;
    seq![
        bit_stream(piece_bits(pixels, w, xw, 1, 0, n_s as int, 0, 1, x_w as nat, n_h as int)),
        bit_stream(piece_bits(pixels, w, xe, 0, -1, n_s as int, 1, 0, n_h as nat, e_w as int)),
        bit_stream(piece_bits(pixels, w, xe, 0, -1, ys, 1, 0, y_h as nat, e_w as int)),
        bit_stream(piece_bits(pixels, w, xe, 0, -1, ye, -1, 0, s_h as nat, e_w as int)),
        bit_stream(piece_bits(pixels, w, xw, 1, 0, ye, 0, -1, x_w as nat, s_h as int)),
        bit_stream(piece_bits(pixels, w, w_s as int, 0, 1, ye, -1, 0, s_h as nat, w_w as int)),
        bit_stream(piece_bits(pixels, w, w_s as int, 0, 1, ys, 1, 0, y_h as nat, w_w as int)),
        bit_stream(piece_bits(pixels, w, w_s as int, 0, 1, n_s as int, 1, 0, n_h as nat, w_w as int)),
    ]
}

/// The body of a border entry of no size: all bands and pieces empty.
pub open spec fn empty_border_payload() -> Seq<u8> {
    seq![0u8, 0, 0, 0, 0, 0, 1, 1, 1, 1, 1, 1, 1, 1, 0, 0, 0, 0, 0, 0, 0, 0]
}

/// A picture of no size gives the empty border.
proof fn lemma_empty_border()
    ensures
        border_import_payload(Seq::empty(), 0, 0) == Some(empty_border_payload()),
{
    let e = Seq::<u8>::empty();
    assert(marker_spec(e, 0, 4) == (0u8, 0u8, 0u8, 0u8));
    assert(bit_stream(Seq::<bool>::empty()) =~= seq![0u8]);
    let pieces = border_import_payload_pieces(e, 0, 0);
    assert(pieces =~= Seq::new(8, |k: int| seq![0u8]));
    reveal_with_fuel(pieces_flat, 9);
    assert(pieces_flat(pieces, 8) =~= seq![0u8, 0, 0, 0, 0, 0, 0, 0]);
    assert(border_payload(0, 0, 0, 0, 0, 0, pieces) =~= empty_border_payload());
}

/// Whether the pixel at byte `p` is pure red, the colour of the markers.
fn is_red(pixels: &[u8], p: usize) -> (r: bool)
    requires
        p + 3 <= pixels@.len(),
    ensures
        r == red_at(pixels@, p as int),
{
    pixels[p] == 0xff && pixels[p + 1] == 0 && pixels[p + 2] == 0
}

/// The two runs of red marker pixels along a line of `count` pixels `step`
/// bytes apart: start and length of the first and of the second.
fn marker_runs(pixels: &[u8], count: usize, step: usize) -> (r: (u8, u8, u8, u8))
    requires
        count <= 255,
        count == 0 || (count - 1) * step + 3 <= pixels@.len(),
        step <= 1_000_000,
    ensures
        r == marker_spec(pixels@, count as int, step as int),
        count == 0 ==> r == (0u8, 0u8, 0u8, 0u8),
        r.0 as int + r.1 as int <= 255,
        r.2 as int + r.3 as int <= 255,
{
    let mut first_start: u8 = 0;
    let mut first_len: u8 = 0;
    let mut second_start: u8 = 0;
    let mut second_len: u8 = 0;
    let mut progress: u8 = 0;
    let mut i: usize = 0;
    let ghost target = marker_spec(pixels@, count as int, step as int);
    while i < count && progress < 4
        invariant
            count <= 255,
            count == 0 || (count - 1) * step + 3 <= pixels@.len(),
            step <= 1_000_000,
            i <= count,
            progress <= 4,
            first_start as int + first_len as int <= i,
            second_start as int + second_len as int <= i,
            i == 0 ==> first_start == 0 && first_len == 0 && second_start == 0 && second_len == 0,
            target == marker_spec(pixels@, count as int, step as int),
            ({
                let r = runs_from(
                    pixels@,
                    count as int,
                    step as int,
                    Runs { fs: first_start, fl: first_len, ss: second_start, sl: second_len, progress: progress },
                    i as int,
                );
                (r.fs, r.fl, r.ss, r.sl) == target
            }),
        decreases count - i,
    {
        assert(i * step <= (count - 1) * step) by (nonlinear_arith)
            requires
                i < count,
        ;
        assert(i * step <= 255 * 1_000_000) by (nonlinear_arith)
            requires
                i <= 255,
                step <= 1_000_000,
        ;
        let red = is_red(pixels, i * step);
        if progress == 0 {
            if red {
                first_len = 1;
                first_start = i as u8;
                progress = 1;
            }
        } else if progress == 1 {
            if red {
                first_len += 1;
            } else {
                progress = 2;
            }
        } else if progress == 2 {
            if red {
                second_len = 1;
                second_start = i as u8;
                progress = 3;
            }
        } else {
            if red {
                second_len += 1;
            } else {
                progress = 4;
            }
        }
        i += 1;
    }
    (first_start, first_len, second_start, second_len)
}

/// `n` steps of `d` (-1, 0 or 1).
fn signed_step(n: u8, d: i32) -> (r: i32)
    requires
        -1 <= d <= 1,
    ensures
        -255 <= r <= 255,
        r == n * d,
{
    if d == 1 {
        n as i32
    } else if d == -1 {
        -(n as i32)
    } else {
        0
    }
}

/// The pixel stream of one border piece (see `piece_bits`): `outer` lines of
/// `inner` pixels, eight to a byte.
fn piece_stream(pixels: &[u8], width: usize, x0: i32, dxo: i32, dxi: i32, y0: i32, dyo: i32, dyi: i32, outer: u8, inner: u8) -> (r: Vec<u8>)
    requires
        width <= 255,
        -256 <= x0 <= 512,
        -256 <= y0 <= 512,
        -1 <= dxo <= 1 && -1 <= dxi <= 1 && -1 <= dyo <= 1 && -1 <= dyi <= 1,
    ensures
        r@ == bit_stream(piece_bits(pixels@, width as int, x0 as int, dxo as int, dxi as int, y0 as int, dyo as int, dyi as int, outer as nat, inner as int)),
        r@.len() >= 1,
        r@[0] == 0,
        r@.len() <= 65027,
{
    let mut buf = bytes_new();
    bytes_put_u8(&mut buf, 0);
    let mut byte: u8 = 0;
    let mut j: u8 = 0;
    let ghost mut bits: Seq<bool> = Seq::empty();
    let mut o: u8 = 0;
    while o < outer
        invariant
            width <= 255,
            -256 <= x0 <= 512,
            -256 <= y0 <= 512,
            -1 <= dxo <= 1 && -1 <= dxi <= 1 && -1 <= dyo <= 1 && -1 <= dyi <= 1,
            o <= outer,
            bits == piece_bits(pixels@, width as int, x0 as int, dxo as int, dxi as int, y0 as int, dyo as int, dyi as int, o as nat, inner as int),
            bits.len() == o * inner,
            j < 8,
            j == bits.len() % 8,
            byte == pack_bits(bits, bits.len() - j, j as nat),
            bytes_contents(buf) == seq![0u8] + full_bytes(bits),
        decreases outer - o,
    {
        let ghost row = piece_row(pixels@, width as int, x0 as int, dxo as int, dxi as int, y0 as int, dyo as int, dyi as int, o as int, inner as int);
        let ghost start = bits;
        assert(o * inner + inner <= 65025) by (nonlinear_arith)
            requires
                o < 255,
                inner <= 255,
        ;
        let mut i: u8 = 0;
        while i < inner
            invariant
                width <= 255,
                -256 <= x0 <= 512,
                -256 <= y0 <= 512,
                -1 <= dxo <= 1 && -1 <= dxi <= 1 && -1 <= dyo <= 1 && -1 <= dyi <= 1,
                o < outer,
                i <= inner,
                row == piece_row(pixels@, width as int, x0 as int, dxo as int, dxi as int, y0 as int, dyo as int, dyi as int, o as int, inner as int),
                bits == start + row.take(i as int),
                start.len() + inner <= 65025,
                j < 8,
                j == bits.len() % 8,
                byte == pack_bits(bits, bits.len() - j, j as nat),
                bytes_contents(buf) == seq![0u8] + full_bytes(bits),
            decreases inner - i,
        {
            let x: i32 = x0 + signed_step(o, dxo) + signed_step(i, dxi);
            let y: i32 = y0 + signed_step(o, dyo) + signed_step(i, dyi);
            let mut set = false;
            if x >= 0 && y >= 0 && (x as usize) < width {
                assert((y as usize) * width <= 1100 * 255) by (nonlinear_arith)
                    requires
                        0 <= y <= 1100,
                        width <= 255,
                ;
                let p = (y as usize * width + x as usize) * 4;
                if p + 3 <= pixels.len() {
                    if !(pixels[p] == 0 && pixels[p + 1] == 0 && pixels[p + 2] == 0) {
                        set = true;
                    }
                }
            }
            assert(set == row[i as int]);
            let ghost old_bits = bits;
            if set {
                byte = byte | (1u8 << (7 - j));
            }
            proof {
                bits = bits.push(set);
                assert(bits == start + row.take(i + 1));
                lemma_pack_prefix(old_bits, seq![set], old_bits.len() - j, j as nat);
                assert(old_bits + seq![set] == bits);
                assert(bits[bits.len() - 1] == set);
            }
            j += 1;
            if j == 8 {
                bytes_put_u8(&mut buf, byte);
                proof {
                    assert forall|g: int| 0 <= g < old_bits.len() / 8 implies #[trigger] full_bytes(bits)[g] == full_bytes(old_bits)[g] by {
                        lemma_pack_prefix(old_bits, seq![set], 8 * g, 8);
                    }
                    assert(full_bytes(bits) =~= full_bytes(old_bits).push(byte));
                }
                byte = 0;
                j = 0;
            } else {
                proof {
                    assert forall|g: int| 0 <= g < old_bits.len() / 8 implies #[trigger] full_bytes(bits)[g] == full_bytes(old_bits)[g] by {
                        lemma_pack_prefix(old_bits, seq![set], 8 * g, 8);
                    }
                    assert(full_bytes(bits) =~= full_bytes(old_bits));
                }
            }
            i += 1;
        }
        assert(row.take(inner as int) =~= row);
        o += 1;
        assert((o - 1) * inner + inner == o * inner) by (nonlinear_arith);
    }
    let ghost total = bits;
    assert(total.len() <= 255 * 255) by (nonlinear_arith)
        requires
            total.len() == outer * inner,
            outer <= 255,
            inner <= 255,
    ;
    if j != 0 {
        bytes_put_u8(&mut buf, byte);
    }
    proof {
        assert(bytes_contents(buf) =~= bit_stream(total));
    }
    bytes_to_vec(&buf)
}

impl Media {
    /// Appends the border entry `index` named `id` to `dest`: band sizes,
    /// repeat lengths, the lengths of the eight pieces and the pieces (see
    /// `border_payload`).
    pub fn insert_border(dest: &mut bytes::BytesMut, index: u8, id: &str, n_h: u8, e_w: u8, s_h: u8, w_w: u8, x_w: u8, y_h: u8, data: &Vec<Vec<u8>>)
        requires
            data@.len() == 8,
            forall|k: int| 0 <= k < 8 ==> (#[trigger] data@[k])@.len() <= 65027,
            bytes_contents(*old(dest)).len() + id.spec_bytes().len() <= LIB_LEN_MAX,
        ensures
            bytes_contents(*final(dest)) == bytes_contents(*old(dest)) + entry_one(
                index,
                id.spec_bytes(),
                border_payload(n_h, e_w, s_h, w_w, x_w, y_h, Seq::new(8, |k: int| data@[k]@)),
            ),
            border_payload(n_h, e_w, s_h, w_w, x_w, y_h, Seq::new(8, |k: int| data@[k]@)).len() <= 14 + 8 * (65027),
    {
        let ghost pieces = Seq::new(8, |k: int| data@[k]@);
        let mut body = bytes_new();
        bytes_put_u8(&mut body, n_h);
        bytes_put_u8(&mut body, e_w);
        bytes_put_u8(&mut body, s_h);
        bytes_put_u8(&mut body, w_w);
        bytes_put_u8(&mut body, x_w);
        bytes_put_u8(&mut body, y_h);
        let ghost head = seq![n_h, e_w, s_h, w_w, x_w, y_h];
        assert(bytes_contents(body) =~= head);
        let mut k: usize = 0;
        while k < 8
            invariant
                data@.len() == 8,
                pieces == Seq::new(8, |k: int| data@[k]@),
                head == seq![n_h, e_w, s_h, w_w, x_w, y_h],
                bytes_contents(body) == head + Seq::new(k as nat, |j: int| pieces[j].len() as u8),
                k <= 8,
            decreases 8 - k,
        {
            bytes_put_u8(&mut body, data[k].len() as u8);
            k += 1;
            assert(bytes_contents(body) =~= head + Seq::new(k as nat, |j: int| pieces[j].len() as u8));
        }
        let ghost lens = Seq::new(8, |j: int| pieces[j].len() as u8);
        assert(pieces_flat(pieces, 0) =~= Seq::<u8>::empty());
        let mut k: usize = 0;
        while k < 8
            invariant
                data@.len() == 8,
                forall|j: int| 0 <= j < 8 ==> (#[trigger] data@[j])@.len() <= 65027,
                pieces == Seq::new(8, |k: int| data@[k]@),
                bytes_contents(body) == head + lens + pieces_flat(pieces, k as nat),
                pieces_flat(pieces, k as nat).len() <= k * (65027),
                head.len() == 6 && lens.len() == 8,
                k <= 8,
            decreases 8 - k,
        {
            bytes_put_slice(&mut body, data[k].as_slice());
            k += 1;
            assert(bytes_contents(body) =~= head + lens + pieces_flat(pieces, k as nat));
        }
        assert(bytes_contents(body) =~= border_payload(n_h, e_w, s_h, w_w, x_w, y_h, pieces));
        let payload = bytes_to_vec(&body);
        put_entry_one(dest, index, id.as_bytes(), payload.as_slice());
    }

    /// Starts the border library of imports afresh, where it was started.
    pub fn clear_border(&mut self)
        requires
            old(self).wf(),
        ensures
            final(self).wf(),
            final(self).libs() == old(self).libs(),
            old(self).import_borders.is_some() ==> (final(self).import_borders matches Some(v) && v@ == seq![255u8]),
            old(self).import_borders.is_none() ==> final(self).import_borders.is_none(),
            final(self).import_images == old(self).import_images,
            final(self).import_fonts == old(self).import_fonts,
            final(self).import_pages == old(self).import_pages,
            final(self).import_programs == old(self).import_programs,
            final(self).drawing == old(self).drawing,
            final(self).typesetting == old(self).typesetting,
    {
        if self.import_borders.is_some() {
            let v: Vec<u8> = vec![255u8];
            assert(v@ =~= seq![255u8]);
            self.import_borders = Some(v);
        }
    }

    /// Drops the imported border `index`: an empty entry takes its place.
    pub fn remove_border(&mut self, index: u8)
        requires
            old(self).wf(),
            import_lib(old(self).import_borders).len() + 8 * (65027) + 32 <= LIB_LEN_MAX,
        ensures
            final(self).wf(),
            final(self).import_borders matches Some(v)
                && v@ == replaced_lib(import_lib(old(self).import_borders), index, false, entry_one(index, Seq::empty(), empty_border_payload())),
    {
        proof {
            reveal_strlit("");
            lemma_empty_border();
        }
        let none: [u8; 0] = [];
        assert(none@ =~= Seq::<u8>::empty());
        self.import_border(index, "", &none, 0, 0);
    }

    /// Reads a nine patch border from a `width` x `height` RGBA picture: red
    /// markers in the top row give the west and east bands, in the left
    /// column the north and south bands; the pixels between them give the
    /// eight pieces, set where they are not black. The border replaces the
    /// imported border `index` and the library of imports becomes the third
    /// source of borders. Pictures too short for their size, or whose
    /// markers overlap, change nothing.
    #[verifier::spinoff_prover]
    #[verifier::rlimit(60)]
    pub fn import_border(&mut self, index: u8, id: &str, pixels: &[u8], width: u8, height: u8)
        requires
            old(self).wf(),
            import_lib(old(self).import_borders).len() + id.spec_bytes().len() + 8 * (65027) + 32 <= LIB_LEN_MAX,
        ensures
            final(self).wf(),
            match border_import_payload(pixels@, width, height) {
                Some(pl) => final(self).import_borders matches Some(v)
                    && v@ == replaced_lib(import_lib(old(self).import_borders), index, false, entry_one(index, id.spec_bytes(), pl))
                    && final(self).libs().borders == old(self).libs().borders.update(2, v@),
                None => final(self).import_borders == old(self).import_borders && final(self).libs() == old(self).libs(),
            },
            final(self).libs().images == old(self).libs().images,
            final(self).libs().fonts == old(self).libs().fonts,
            final(self).libs().pages == old(self).libs().pages,
            final(self).libs().programs == old(self).libs().programs,
            final(self).import_images == old(self).import_images,
            final(self).import_fonts == old(self).import_fonts,
            final(self).import_pages == old(self).import_pages,
            final(self).import_programs == old(self).import_programs,
            final(self).drawing == old(self).drawing,
            final(self).typesetting == old(self).typesetting,
    {
        let w = width as usize;
        let h = height as usize;
        assert(w * h * 4 <= 255 * 255 * 4) by (nonlinear_arith)
            requires
                w <= 255,
                h <= 255,
        ;
        if pixels.len() < w * h * 4 || (w > 0 && pixels.len() < w * 4) {
            return;
        }
        if h > 0 && w == 0 && pixels.len() < 3 {
            return;
        }
        proof {
            if h > 0 && w == 0 {
                assert((h - 1) * (w * 4) == 0) by (nonlinear_arith)
                    requires
                        w == 0,
                ;
            }
            if h > 0 && w > 0 {
                assert((h - 1) * (w * 4) + 3 <= w * h * 4) by (nonlinear_arith)
                    requires
                        h >= 1,
                        w >= 1,
                ;
            }
        }
        let (w_s, w_w, e_s, e_w) = marker_runs(pixels, w, 4);
        let (n_s, n_h, s_s, s_h) = if h > 0 { marker_runs(pixels, h, w * 4) } else { (0, 0, 0, 0) };
        if (e_s as u16) < w_s as u16 + w_w as u16 || (s_s as u16) < n_s as u16 + n_h as u16 {
            return;
        }
        let x_w: u8 = e_s - w_s - w_w;
        let y_h: u8 = s_s - n_s - n_h;
        let xw = w_s as i32 + w_w as i32;
        let ys = n_s as i32 + n_h as i32;
        let xe = e_s as i32 + e_w as i32 - 1;
        let ye = s_s as i32 + s_h as i32 - 1;
        let mut data: Vec<Vec<u8>> = Vec::new();
        data.push(piece_stream(pixels, w, xw, 1, 0, n_s as i32, 0, 1, x_w, n_h));
        data.push(piece_stream(pixels, w, xe, 0, -1, n_s as i32, 1, 0, n_h, e_w));
        data.push(piece_stream(pixels, w, xe, 0, -1, ys, 1, 0, y_h, e_w));
        data.push(piece_stream(pixels, w, xe, 0, -1, ye, -1, 0, s_h, e_w));
        data.push(piece_stream(pixels, w, xw, 1, 0, ye, 0, -1, x_w, s_h));
        data.push(piece_stream(pixels, w, w_s as i32, 0, 1, ye, -1, 0, s_h, w_w));
        data.push(piece_stream(pixels, w, w_s as i32, 0, 1, ys, 1, 0, y_h, w_w));
        data.push(piece_stream(pixels, w, w_s as i32, 0, 1, n_s as i32, 1, 0, n_h, w_w));
        let lib = import_lib_bytes(&self.import_borders);
        let mut entry = bytes_new();
        Media::insert_border(&mut entry, index, id, n_h, e_w, s_h, w_w, x_w, y_h, &data);
        let ghost pl = border_payload(n_h, e_w, s_h, w_w, x_w, y_h, Seq::new(8, |k: int| data@[k]@));
        let entry = bytes_to_vec(&entry);
        assert(entry@ =~= entry_one(index, id.spec_bytes(), pl));
        assert(Seq::new(8, |k: int| data@[k]@) =~= border_import_payload_pieces(pixels@, width, height));
        assert(border_import_payload(pixels@, width, height) == Some(pl));
        let lib2 = rebuild_lib(lib.as_slice(), index, false, entry.as_slice());
        self.borders.set(2, Library { data: super::copy_all(lib2.as_slice()) });
        self.import_borders = Some(lib2);
        assert(self.libs().borders =~= old(self).libs().borders.update(2, lib2@));
    }
}

} // verus!
