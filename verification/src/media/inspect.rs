//! Listings of what the media holds: CSV tables, and one log line per
//! entry.

use vstd::prelude::*;
use crate::{BORDER_MAX, BORDER_RECT, FONT_MAX};
use crate::decimal::{decimal_bytes, push_decimal, push_str};
use super::{stored_name, IdentView, Identifier, Media, MediaLibs};
use super::image::{image_result, Image};
use super::border::{border_result, patch_views, NinePatch};
use super::font::{font_result, Font};
use super::page::blob_lookup;
use crate::LIBRARY_MAX;
use vstd::string::StringSliceAdditionalSpecFns;

verus! {

/// Appends `bytes` to `out`.
pub fn push_bytes(out: &mut Vec<u8>, bytes: &[u8])
    ensures
        final(out)@ == old(out)@ + bytes@,
{
    let mut i: usize = 0;
    while i < bytes.len()
        invariant
            i <= bytes@.len(),
            out@ == old(out)@ + bytes@.subrange(0, i as int),
        decreases bytes@.len() - i,
    {
        out.push(bytes[i]);
        i += 1;
        assert(out@ =~= old(out)@ + bytes@.subrange(0, i as int));
    }
    assert(bytes@.subrange(0, bytes@.len() as int) =~= bytes@);
}

/// Appends `,"<id>",<source>` to a CSV row.
fn push_id_source(out: &mut Vec<u8>, id: &[u8], source: u8)
    ensures
        final(out)@ == old(out)@ + id_source(id@, source),
{
    let ghost start = out@;
    push_str(out, ",\"");
    push_bytes(out, id);
    push_str(out, "\",");
    push_decimal(out, source as u32);
    assert(out@ =~= start + id_source(id@, source));
}


/// `n` spaces.
pub open spec fn spaces(n: int) -> Seq<u8> {
    Seq::new(if n > 0 { n as nat } else { 0 }, |i: int| 32u8)
}

/// The decimal digits of `v` right-aligned in a field of five.
pub open spec fn padded5(v: nat) -> Seq<u8> {
    spaces(5 - decimal_bytes(v).len()) + decimal_bytes(v)
}

/// The number of decimal digits of `v`, up to five.
pub open spec fn digit_count(v: nat) -> int {
    if v >= 10000 { 5 } else if v >= 1000 { 4 } else if v >= 100 { 3 } else if v >= 10 { 2 } else { 1 }
}

proof fn lemma_decimal_len(v: nat)
    ensures
        v < 100000 ==> decimal_bytes(v).len() == digit_count(v),
        v >= 10000 ==> decimal_bytes(v).len() >= 5,
    decreases v,
{
    if v >= 10 {
        lemma_decimal_len(v / 10);
    }
}

/// Appends `v` right-aligned in a field of five.
fn push_padded5(out: &mut Vec<u8>, v: u32)
    ensures
        final(out)@ == old(out)@ + padded5(v as nat),
{
    let digits: usize = if v >= 10000 { 5 } else if v >= 1000 { 4 } else if v >= 100 { 3 } else if v >= 10 { 2 } else { 1 };
    proof {
        lemma_decimal_len(v as nat);
    }
    let ghost start = out@;
    let mut k: usize = digits;
    while k < 5
        invariant
            digits <= k <= 5,
            out@ == start + spaces(k - digits),
        decreases 5 - k,
    {
        out.push(32);
        k += 1;
        assert(out@ =~= start + spaces(k - digits));
    }
    assert(spaces(k - digits) =~= spaces(5 - decimal_bytes(v as nat).len()));
    push_decimal(out, v);
    assert(final(out)@ =~= start + padded5(v as nat));
}

/// A log line: `<tag> #<source>.<idx> [<size>b]`, the size right-aligned in
/// a field of five.
pub open spec fn log_line(tag: Seq<u8>, source: u8, idx: u8, size: nat) -> Seq<u8> {
    tag + seq![32u8, 35u8] + decimal_bytes(source as nat) + seq![46u8] + decimal_bytes(idx as nat)
        + seq![32u8, 91u8] + padded5(size) + seq![98u8, 93u8]
}

/// `line` followed by ` [<size>b]`.
pub open spec fn with_size(line: Seq<u8>, size: nat) -> Seq<u8> {
    line + seq![32u8, 91u8] + padded5(size) + seq![98u8, 93u8]
}

/// The tags of the log lines: images, borders, fonts, pages.
pub open spec fn tag_img() -> Seq<u8> { seq![105u8, 109u8, 103u8] }
pub open spec fn tag_brd() -> Seq<u8> { seq![98u8, 114u8, 100u8] }
pub open spec fn tag_fnt() -> Seq<u8> { seq![102u8, 110u8, 116u8] }
pub open spec fn tag_pag() -> Seq<u8> { seq![112u8, 97u8, 103u8] }

/// Whether `line` is one that `log` writes.
pub open spec fn is_log_line(line: Seq<u8>) -> bool {
    ||| exists|s: u8, i: u8, a: nat, b: nat| line == #[trigger] with_size(log_line(tag_img(), s, i, a), b)
    ||| exists|s: u8, i: u8, a: nat| line == #[trigger] log_line(tag_brd(), s, i, a)
    ||| exists|s: u8, i: u8, a: nat| line == #[trigger] log_line(tag_fnt(), s, i, a)
    ||| exists|s: u8, i: u8, a: nat| line == #[trigger] log_line(tag_pag(), s, i, a)
}

/// Builds a log line.
fn make_log_line(tag: &[u8], source: u8, idx: u8, size: u32) -> (r: Vec<u8>)
    ensures
        r@ == log_line(tag@, source, idx, size as nat),
{
    let mut out: Vec<u8> = Vec::new();
    push_bytes(&mut out, tag);
    out.push(32);
    out.push(35);
    push_decimal(&mut out, source as u32);
    out.push(46);
    push_decimal(&mut out, idx as u32);
    out.push(32);
    out.push(91);
    push_padded5(&mut out, size);
    out.push(98);
    out.push(93);
    assert(out@ =~= log_line(tag@, source, idx, size as nat));
    out
}

/// Appends ` [<size>b]` to a log line.
fn push_size(out: &mut Vec<u8>, size: u32)
    ensures
        final(out)@ == with_size(old(out)@, size as nat),
{
    let ghost start = out@;
    out.push(32);
    out.push(91);
    push_padded5(out, size);
    out.push(98);
    out.push(93);
    assert(out@ =~= with_size(start, size as nat));
}

/// `,"<id>",<source>` of a CSV row.
pub open spec fn id_source(id: Seq<u8>, source: u8) -> Seq<u8> {
    ",\"".spec_bytes() + id + "\",".spec_bytes() + decimal_bytes(source as nat)
}

/// The image that `get_image` gives for index `i`.
pub open spec fn image_at(libs: MediaLibs, i: u8) -> Image {
    choose|r: Image| image_result(libs.images, IdentView::Index(i), r)
}

/// The border that `get_border` gives for index `i`.
pub open spec fn border_at(libs: MediaLibs, i: u8) -> NinePatch {
    choose|r: NinePatch| border_result(libs.borders, IdentView::Index(i), r)
}

/// The font that `get_font` gives for index `i`.
pub open spec fn font_at(libs: MediaLibs, i: u8) -> Font {
    choose|r: Font| font_result(libs.fonts, IdentView::Index(i), r)
}

proof fn lemma_image_unique(libs: Seq<Seq<u8>>, ident: IdentView, a: Image, b: Image)
    requires
        image_result(libs, ident, a),
        image_result(libs, ident, b),
    ensures
        a.source == b.source && a.id@ == b.id@ && a.data@ == b.data@,
{
}

proof fn lemma_border_unique(libs: Seq<Seq<u8>>, ident: IdentView, a: NinePatch, b: NinePatch)
    requires
        border_result(libs, ident, a),
        border_result(libs, ident, b),
    ensures
        a.source == b.source && a.id@ == b.id@ && a.n_h == b.n_h && a.e_w == b.e_w && a.s_h == b.s_h
            && a.w_w == b.w_w && a.x_w == b.x_w && a.y_h == b.y_h && patch_views(a.data@) == patch_views(b.data@),
{
    assert(patch_views(a.data@) =~= patch_views(b.data@));
}

proof fn lemma_font_unique(libs: Seq<Seq<u8>>, ident: IdentView, a: Font, b: Font)
    requires
        font_result(libs, ident, a),
        font_result(libs, ident, b),
    ensures
        a.source == b.source && a.id@ == b.id@ && a.pack_count == b.pack_count && a.base_height == b.base_height
            && a.full_height == b.full_height && a.mono_width == b.mono_width,
{
}

/// The row of image `i` in the image table: where it comes from a source,
/// and its width and height are not 0.
pub open spec fn image_row(i: u8, img: Image) -> Seq<u8> {
    let d = img.data@;
    if img.source != 255 && d.len() >= 3 && d[1] != 0 && d[2] != 0 {
        decimal_bytes(i as nat) + id_source(img.id@, img.source) + seq![44u8] + decimal_bytes(d[0] as nat)
            + seq![44u8] + decimal_bytes(d[1] as nat) + seq![44u8] + decimal_bytes(d[2] as nat) + "\r\n".spec_bytes()
    } else {
        Seq::empty()
    }
}

/// Whether some piece of a border has pixels.
pub open spec fn has_pieces(pieces: Seq<Seq<u8>>) -> bool {
    exists|k: int| 0 <= k < pieces.len() && #[trigger] pieces[k].len() > 0
}

/// The row of border `i` in the border table.
pub open spec fn border_row(i: u8, b: NinePatch) -> Seq<u8> {
    if b.source != 255 && has_pieces(patch_views(b.data@)) {
        decimal_bytes(i as nat) + id_source(b.id@, b.source)
            + seq![44u8] + decimal_bytes(b.n_h as nat) + seq![44u8] + decimal_bytes(b.e_w as nat)
            + seq![44u8] + decimal_bytes(b.s_h as nat) + seq![44u8] + decimal_bytes(b.w_w as nat)
            + seq![44u8] + decimal_bytes(b.x_w as nat) + seq![44u8] + decimal_bytes(b.y_h as nat) + "\r\n".spec_bytes()
    } else {
        Seq::empty()
    }
}

/// The row of font `i` in the font table.
pub open spec fn font_row(i: u8, f: Font) -> Seq<u8> {
    if f.source != 255 && f.pack_count != 0 {
        decimal_bytes(i as nat) + id_source(f.id@, f.source) + seq![44u8] + decimal_bytes(f.base_height as nat)
            + seq![44u8] + decimal_bytes(f.full_height as nat) + seq![44u8] + decimal_bytes(f.mono_width as nat)
            + "\r\n".spec_bytes()
    } else {
        Seq::empty()
    }
}

/// The page that `get_page` gives for index `i`: its source (255 for none),
/// name and content.
pub open spec fn page_at(libs: MediaLibs, i: u8) -> (u8, Seq<u8>, Seq<u8>) {
    match blob_lookup(libs.pages, LIBRARY_MAX - 1, i) {
        Some((li, h)) => {
            let d = libs.pages[li];
            (li as u8, stored_name(d.subrange(h.id_start, h.id_start + h.id_len)), d.subrange(h.start, h.start + h.len))
        },
        None => (255u8, Seq::empty(), Seq::empty()),
    }
}

/// The row of page `i` in the page table.
pub open spec fn page_row(libs: MediaLibs, i: u8) -> Seq<u8> {
    let (source, id, content) = page_at(libs, i);
    if source != 255 && content.len() != 0 {
        decimal_bytes(i as nat) + id_source(id, source) + seq![44u8] + decimal_bytes((content.len() as u32) as nat)
            + "\r\n".spec_bytes()
    } else {
        Seq::empty()
    }
}

/// The program that `get_program` gives for index `i`: its source (255 for
/// none), name and code.
pub open spec fn program_at(libs: MediaLibs, i: u8) -> (u8, Seq<u8>, Seq<u8>) {
    match blob_lookup(libs.programs, LIBRARY_MAX - 1, i) {
        Some((li, h)) => {
            let d = libs.programs[li];
            (li as u8, stored_name(d.subrange(h.id_start, h.id_start + h.id_len)), d.subrange(h.start, h.start + h.len))
        },
        None => (255u8, Seq::empty(), Seq::empty()),
    }
}

/// The row of program `i` in the program table.
pub open spec fn program_row(libs: MediaLibs, i: u8) -> Seq<u8> {
    let (source, id, code) = program_at(libs, i);
    if source != 255 && code.len() != 0 {
        decimal_bytes(i as nat) + id_source(id, source) + seq![44u8] + decimal_bytes((code.len() as u32) as nat)
            + "\r\n".spec_bytes()
    } else {
        Seq::empty()
    }
}

/// The rows of the programs `0..k`.
pub open spec fn program_rows(libs: MediaLibs, k: nat) -> Seq<u8>
    decreases k,
{
    if k == 0 { Seq::empty() } else { program_rows(libs, (k - 1) as nat) + program_row(libs, (k - 1) as u8) }
}

/// The rows of the images `0..k`.
pub open spec fn image_rows(libs: MediaLibs, k: nat) -> Seq<u8>
    decreases k,
{
    if k == 0 { Seq::empty() } else { image_rows(libs, (k - 1) as nat) + image_row((k - 1) as u8, image_at(libs, (k - 1) as u8)) }
}

/// The rows of the borders `0..k`.
pub open spec fn border_rows(libs: MediaLibs, k: nat) -> Seq<u8>
    decreases k,
{
    if k == 0 { Seq::empty() } else { border_rows(libs, (k - 1) as nat) + border_row((k - 1) as u8, border_at(libs, (k - 1) as u8)) }
}

/// The rows of the fonts `0..k`.
pub open spec fn font_rows(libs: MediaLibs, k: nat) -> Seq<u8>
    decreases k,
{
    if k == 0 { Seq::empty() } else { font_rows(libs, (k - 1) as nat) + font_row((k - 1) as u8, font_at(libs, (k - 1) as u8)) }
}

/// The rows of the pages `0..k`.
pub open spec fn page_rows(libs: MediaLibs, k: nat) -> Seq<u8>
    decreases k,
{
    if k == 0 { Seq::empty() } else { page_rows(libs, (k - 1) as nat) + page_row(libs, (k - 1) as u8) }
}

/// The CSV listing of the media with the libraries `libs`.
pub open spec fn media_csv(libs: MediaLibs) -> Seq<u8> {
    "image_idx,id,source,type,width,height\r\n".spec_bytes() + image_rows(libs, 255)
        + "border_idx,id,source,n,e,s,w,h,v\r\n".spec_bytes() + border_rows(libs, BORDER_MAX as nat)
        + decimal_bytes(BORDER_RECT as nat) + ",\"Solid\",0,1,1,1,1,1,1\r\n".spec_bytes()
        + "font_idx,id,source,height,base,mono\r\n".spec_bytes() + font_rows(libs, FONT_MAX as nat)
        + "page_idx,id,source,size\r\n".spec_bytes() + page_rows(libs, 255)
        + "program_idx,id,source,size\r\n".spec_bytes() + program_rows(libs, 255)
        + "@0\r\n".spec_bytes()
}

/// Whether some piece has pixels.
fn has_any_piece(data: &Vec<Vec<u8>>) -> (r: bool)
    ensures
        r == has_pieces(patch_views(data@)),
{
    let mut k: usize = 0;
    while k < data.len()
        invariant
            k <= data@.len(),
            forall|j: int| 0 <= j < k ==> (#[trigger] data@[j])@.len() == 0,
        decreases data@.len() - k,
    {
        if data[k].len() > 0 {
            assert(patch_views(data@)[k as int].len() > 0);
            return true;
        }
        k += 1;
    }
    assert forall|j: int| 0 <= j < patch_views(data@).len() implies !(#[trigger] patch_views(data@)[j].len() > 0) by {
        assert(data@[j]@.len() == 0);
    }
    false
}

/// Appends the six bands of a border, each after a comma.
fn push_bands(csv: &mut Vec<u8>, border: &NinePatch)
    ensures
        final(csv)@ == old(csv)@ + (seq![44u8] + decimal_bytes(border.n_h as nat) + seq![44u8]
            + decimal_bytes(border.e_w as nat) + seq![44u8] + decimal_bytes(border.s_h as nat) + seq![44u8]
            + decimal_bytes(border.w_w as nat) + seq![44u8] + decimal_bytes(border.x_w as nat) + seq![44u8]
            + decimal_bytes(border.y_h as nat)),
{
    let ghost start = csv@;
    csv.push(44);
    push_decimal(csv, border.n_h as u32);
    csv.push(44);
    push_decimal(csv, border.e_w as u32);
    csv.push(44);
    push_decimal(csv, border.s_h as u32);
    csv.push(44);
    push_decimal(csv, border.w_w as u32);
    csv.push(44);
    push_decimal(csv, border.x_w as u32);
    csv.push(44);
    push_decimal(csv, border.y_h as u32);
    assert(csv@ =~= start + (seq![44u8] + decimal_bytes(border.n_h as nat) + seq![44u8]
            + decimal_bytes(border.e_w as nat) + seq![44u8] + decimal_bytes(border.s_h as nat) + seq![44u8]
            + decimal_bytes(border.w_w as nat) + seq![44u8] + decimal_bytes(border.x_w as nat) + seq![44u8]
            + decimal_bytes(border.y_h as nat)));
}

/// The views of the lines.
pub open spec fn line_views(lines: Seq<Vec<u8>>) -> Seq<Seq<u8>> {
    Seq::new(lines.len(), |k: int| lines[k]@)
}

/// The log line of image `i`, where it comes from a source and has data:
/// its size and that of its mask.
pub open spec fn image_line_of(i: u8, img: Image) -> Seq<Seq<u8>> {
    if img.source != 255 && img.data@.len() > 0 {
        let mask_len: nat = match img.mask {
            Some(m) => m@.len(),
            None => 0,
        };
        seq![with_size(log_line(tag_img(), img.source, i, (img.data@.len() as u32) as nat), (mask_len as u32) as nat)]
    } else {
        Seq::empty()
    }
}

/// The size of the pieces of a border, summed in `u32` with wrapping.
pub open spec fn pieces_total(pieces: Seq<Seq<u8>>, k: nat) -> u32
    decreases k,
{
    if k == 0 { 0 } else { pieces_total(pieces, (k - 1) as nat).wrapping_add(pieces[k - 1].len() as u32) }
}

/// The log line of border `i`, where it comes from a source.
pub open spec fn border_line_of(i: u8, b: NinePatch) -> Seq<Seq<u8>> {
    if b.source != 255 {
        seq![log_line(tag_brd(), b.source, i, pieces_total(patch_views(b.data@), b.data@.len()) as nat)]
    } else {
        Seq::empty()
    }
}

/// The log line of font `i`, where it comes from a source.
pub open spec fn font_line_of(i: u8, f: Font) -> Seq<Seq<u8>> {
    if f.source != 255 { seq![log_line(tag_fnt(), f.source, i, 0)] } else { Seq::empty() }
}

/// The log line of page `i`, where it comes from a source: its size.
pub open spec fn page_line_of(libs: MediaLibs, i: u8) -> Seq<Seq<u8>> {
    let (source, id, content) = page_at(libs, i);
    if source != 255 { seq![log_line(tag_pag(), source, i, (content.len() as u32) as nat)] } else { Seq::empty() }
}

pub open spec fn image_lines(libs: MediaLibs, k: nat) -> Seq<Seq<u8>>
    decreases k,
{
    if k == 0 { Seq::empty() } else { image_lines(libs, (k - 1) as nat) + image_line_of((k - 1) as u8, image_at(libs, (k - 1) as u8)) }
}

pub open spec fn border_lines(libs: MediaLibs, k: nat) -> Seq<Seq<u8>>
    decreases k,
{
    if k == 0 { Seq::empty() } else { border_lines(libs, (k - 1) as nat) + border_line_of((k - 1) as u8, border_at(libs, (k - 1) as u8)) }
}

pub open spec fn font_lines(libs: MediaLibs, k: nat) -> Seq<Seq<u8>>
    decreases k,
{
    if k == 0 { Seq::empty() } else { font_lines(libs, (k - 1) as nat) + font_line_of((k - 1) as u8, font_at(libs, (k - 1) as u8)) }
}

pub open spec fn page_lines(libs: MediaLibs, k: nat) -> Seq<Seq<u8>>
    decreases k,
{
    if k == 0 { Seq::empty() } else { page_lines(libs, (k - 1) as nat) + page_line_of(libs, (k - 1) as u8) }
}

/// Every line of the log is a log line.
proof fn lemma_log_lines_all(libs: MediaLibs)
    ensures
        forall|k: int| 0 <= k < (image_lines(libs, 255) + border_lines(libs, 255) + font_lines(libs, 255)
            + page_lines(libs, 255)).len() ==> is_log_line(#[trigger] (image_lines(libs, 255) + border_lines(libs, 255)
            + font_lines(libs, 255) + page_lines(libs, 255))[k]),
{
    lemma_lines_kind(libs, 255);
}

proof fn lemma_lines_kind(libs: MediaLibs, n: nat)
    ensures
        forall|k: int| 0 <= k < image_lines(libs, n).len() ==> is_log_line(#[trigger] image_lines(libs, n)[k]),
        forall|k: int| 0 <= k < border_lines(libs, n).len() ==> is_log_line(#[trigger] border_lines(libs, n)[k]),
        forall|k: int| 0 <= k < font_lines(libs, n).len() ==> is_log_line(#[trigger] font_lines(libs, n)[k]),
        forall|k: int| 0 <= k < page_lines(libs, n).len() ==> is_log_line(#[trigger] page_lines(libs, n)[k]),
    decreases n,
{
    if n > 0 {
        lemma_lines_kind(libs, (n - 1) as nat);
        let i = (n - 1) as u8;
        let img = image_at(libs, i);
        if img.source != 255 && img.data@.len() > 0 {
            let mask_len: nat = match img.mask {
                Some(m) => m@.len(),
                None => 0,
            };
            assert(is_log_line(with_size(log_line(tag_img(), img.source, i, (img.data@.len() as u32) as nat), (mask_len as u32) as nat)));
        }
        let b = border_at(libs, i);
        if b.source != 255 {
            assert(is_log_line(log_line(tag_brd(), b.source, i, pieces_total(patch_views(b.data@), b.data@.len()) as nat)));
        }
        let f = font_at(libs, i);
        if f.source != 255 {
            assert(is_log_line(log_line(tag_fnt(), f.source, i, 0)));
        }
        let (source, id, content) = page_at(libs, i);
        if source != 255 {
            assert(is_log_line(log_line(tag_pag(), source, i, (content.len() as u32) as nat)));
        }
        let prev = (n - 1) as nat;
        assert forall|k: int| 0 <= k < image_lines(libs, n).len() implies is_log_line(#[trigger] image_lines(libs, n)[k]) by {
            if k < image_lines(libs, prev).len() {
                assert(image_lines(libs, n)[k] == image_lines(libs, prev)[k]);
            } else {
                assert(image_lines(libs, n)[k] == image_line_of(i, img)[k - image_lines(libs, prev).len()]);
            }
        }
        assert forall|k: int| 0 <= k < border_lines(libs, n).len() implies is_log_line(#[trigger] border_lines(libs, n)[k]) by {
            if k < border_lines(libs, prev).len() {
                assert(border_lines(libs, n)[k] == border_lines(libs, prev)[k]);
            } else {
                assert(border_lines(libs, n)[k] == border_line_of(i, b)[k - border_lines(libs, prev).len()]);
            }
        }
        assert forall|k: int| 0 <= k < font_lines(libs, n).len() implies is_log_line(#[trigger] font_lines(libs, n)[k]) by {
            if k < font_lines(libs, prev).len() {
                assert(font_lines(libs, n)[k] == font_lines(libs, prev)[k]);
            } else {
                assert(font_lines(libs, n)[k] == font_line_of(i, f)[k - font_lines(libs, prev).len()]);
            }
        }
        assert forall|k: int| 0 <= k < page_lines(libs, n).len() implies is_log_line(#[trigger] page_lines(libs, n)[k]) by {
            if k < page_lines(libs, prev).len() {
                assert(page_lines(libs, n)[k] == page_lines(libs, prev)[k]);
            } else {
                assert(page_lines(libs, n)[k] == page_line_of(libs, i)[k - page_lines(libs, prev).len()]);
            }
        }
    }
}

/// The size of all pieces of a border, summed in `u32` with wrapping.
fn pieces_size(data: &Vec<Vec<u8>>) -> (r: u32)
    ensures
        r == pieces_total(patch_views(data@), data@.len()),
{
    let mut total: u32 = 0;
    let mut k: usize = 0;
    while k < data.len()
        invariant
            k <= data@.len(),
            total == pieces_total(patch_views(data@), k as nat),
        decreases data@.len() - k,
    {
        total = total.wrapping_add(data[k].len() as u32);
        k += 1;
    }
    total
}

impl Media {
    fn push_image_rows(&self, csv: &mut Vec<u8>)
        requires
            self.wf(),
        ensures
            final(csv)@ == old(csv)@ + image_rows(self.libs(), 255),
    {
        let mut i: u8 = 0;
        while i < 255
            invariant
                self.wf(),
                csv@ == old(csv)@ + image_rows(self.libs(), i as nat),
            decreases 255 - i,
        {
            let ghost before = csv@;
            let image = self.get_image(Identifier::Index(i));
            proof {
                let c = image_at(self.libs(), i);
                assert(image_result(self.libs().images, IdentView::Index(i), c));
                lemma_image_unique(self.libs().images, IdentView::Index(i), image, c);
                assert(image_row(i, image) == image_row(i, c));
            }
            let d = image.data.as_slice();
            if image.source != 255 && d.len() >= 3 && d[1] != 0 && d[2] != 0 {
                push_decimal(csv, i as u32);
                push_id_source(csv, image.id.as_slice(), image.source);
                csv.push(44);
                push_decimal(csv, d[0] as u32);
                csv.push(44);
                push_decimal(csv, d[1] as u32);
                csv.push(44);
                push_decimal(csv, d[2] as u32);
                push_str(csv, "\r\n");
            }
            assert(csv@ =~= before + image_row(i, image));
            i += 1;
        }
    }

    #[verifier::spinoff_prover]
    #[verifier::rlimit(40)]
    fn push_border_rows(&self, csv: &mut Vec<u8>)
        requires
            self.wf(),
        ensures
            final(csv)@ == old(csv)@ + border_rows(self.libs(), BORDER_MAX as nat),
    {
        let mut i: u8 = 0;
        while i < BORDER_MAX
            invariant
                self.wf(),
                i <= BORDER_MAX,
                csv@ == old(csv)@ + border_rows(self.libs(), i as nat),
            decreases BORDER_MAX - i,
        {
            let ghost before = csv@;
            let border = self.get_border(Identifier::Index(i));
            proof {
                let c = border_at(self.libs(), i);
                assert(border_result(self.libs().borders, IdentView::Index(i), c));
                lemma_border_unique(self.libs().borders, IdentView::Index(i), border, c);
                assert(border_row(i, border) == border_row(i, c));
            }
            let any = has_any_piece(&border.data);
            if border.source != 255 && any {
                push_decimal(csv, i as u32);
                push_id_source(csv, border.id.as_slice(), border.source);
                push_bands(csv, &border);
                push_str(csv, "\r\n");
            }
            assert(csv@ =~= before + border_row(i, border));
            i += 1;
        }
    }

    fn push_font_rows(&self, csv: &mut Vec<u8>)
        requires
            self.wf(),
        ensures
            final(csv)@ == old(csv)@ + font_rows(self.libs(), FONT_MAX as nat),
    {
        let mut i: u8 = 0;
        while i < FONT_MAX
            invariant
                self.wf(),
                csv@ == old(csv)@ + font_rows(self.libs(), i as nat),
            decreases FONT_MAX - i,
        {
            let ghost before = csv@;
            let font = self.get_font(Identifier::Index(i));
            proof {
                let c = font_at(self.libs(), i);
                assert(font_result(self.libs().fonts, IdentView::Index(i), c));
                lemma_font_unique(self.libs().fonts, IdentView::Index(i), font, c);
                assert(font_row(i, font) == font_row(i, c));
            }
            if font.source != 255 && font.pack_count != 0 {
                push_decimal(csv, i as u32);
                push_id_source(csv, font.id.as_slice(), font.source);
                csv.push(44);
                push_decimal(csv, font.base_height as u32);
                csv.push(44);
                push_decimal(csv, font.full_height as u32);
                csv.push(44);
                push_decimal(csv, font.mono_width as u32);
                push_str(csv, "\r\n");
            }
            assert(csv@ =~= before + font_row(i, font));
            i += 1;
        }
    }

    fn push_page_rows(&self, csv: &mut Vec<u8>)
        requires
            self.wf(),
        ensures
            final(csv)@ == old(csv)@ + page_rows(self.libs(), 255),
    {
        let mut i: u8 = 0;
        while i < 255
            invariant
                self.wf(),
                csv@ == old(csv)@ + page_rows(self.libs(), i as nat),
            decreases 255 - i,
        {
            let ghost before = csv@;
            let page = self.get_page(i);
            proof {
                crate::media::page::lemma_blob_lookup_index(self.libs().pages, LIBRARY_MAX - 1, i);
            }
            if page.source != 255 && page.content.len() != 0 {
                push_decimal(csv, i as u32);
                push_id_source(csv, page.id.as_slice(), page.source);
                csv.push(44);
                push_decimal(csv, page.content.len() as u32);
                push_str(csv, "\r\n");
            }
            assert(csv@ =~= before + page_row(self.libs(), i));
            i += 1;
        }
    }

    fn push_program_rows(&self, csv: &mut Vec<u8>)
        requires
            self.wf(),
        ensures
            final(csv)@ == old(csv)@ + program_rows(self.libs(), 255),
    {
        let mut i: u8 = 0;
        while i < 255
            invariant
                self.wf(),
                csv@ == old(csv)@ + program_rows(self.libs(), i as nat),
            decreases 255 - i,
        {
            let ghost before = csv@;
            let program = self.get_program(i);
            proof {
                crate::media::page::lemma_blob_lookup_index(self.libs().programs, LIBRARY_MAX - 1, i);
            }
            if program.source != 255 && program.data.len() != 0 {
                push_decimal(csv, i as u32);
                push_id_source(csv, program.id.as_slice(), program.source);
                csv.push(44);
                push_decimal(csv, program.data.len() as u32);
                push_str(csv, "\r\n");
            }
            assert(csv@ =~= before + program_row(self.libs(), i));
            i += 1;
        }
    }

    /// The media as CSV tables: the images (index, name, source, type, width,
    /// height), the borders, the fonts, the pages and the programs that a package or an
    /// import gave, each table with its header line; the line `@0` ends it.
    /// Every source is listed, whatever `source` says.
    pub fn inspect(&self, source: u8) -> (r: Vec<u8>)
        requires
            self.wf(),
        ensures
            r@ == media_csv(self.libs()),
    {
        let mut csv: Vec<u8> = Vec::new();
        push_str(&mut csv, "image_idx,id,source,type,width,height\r\n");
        self.push_image_rows(&mut csv);
        push_str(&mut csv, "border_idx,id,source,n,e,s,w,h,v\r\n");
        self.push_border_rows(&mut csv);
        push_decimal(&mut csv, BORDER_RECT as u32);
        push_str(&mut csv, ",\"Solid\",0,1,1,1,1,1,1\r\n");
        push_str(&mut csv, "font_idx,id,source,height,base,mono\r\n");
        self.push_font_rows(&mut csv);
        push_str(&mut csv, "page_idx,id,source,size\r\n");
        self.push_page_rows(&mut csv);
        push_str(&mut csv, "program_idx,id,source,size\r\n");
        self.push_program_rows(&mut csv);
        push_str(&mut csv, "@0\r\n");
        assert(csv@ =~= media_csv(self.libs()));
        csv
    }

    fn push_image_lines(&self, lines: &mut Vec<Vec<u8>>)
        requires
            self.wf(),
        ensures
            line_views(final(lines)@) == line_views(old(lines)@) + image_lines(self.libs(), 255),
    {
        let mut i: u8 = 0;
        while i < 255
            invariant
                self.wf(),
                line_views(lines@) == line_views(old(lines)@) + image_lines(self.libs(), i as nat),
            decreases 255 - i,
        {
            let ghost before = line_views(lines@);
            let image = self.get_image(Identifier::Index(i));
            proof {
                let c = image_at(self.libs(), i);
                assert(image_result(self.libs().images, IdentView::Index(i), c));
                lemma_image_unique(self.libs().images, IdentView::Index(i), image, c);
            }
            if image.source != 255 && image.data.len() > 0 {
                let mask_len: usize = match &image.mask {
                    Some(m) => m.len(),
                    None => 0,
                };
                let tag: [u8; 3] = [105, 109, 103];
                assert(tag@ =~= tag_img());
                let mut line = make_log_line(&tag, image.source, i, image.data.len() as u32);
                push_size(&mut line, mask_len as u32);
                lines.push(line);
            }
            assert(line_views(lines@) =~= before + image_line_of(i, image_at(self.libs(), i)));
            i += 1;
        }
    }

    fn push_border_lines(&self, lines: &mut Vec<Vec<u8>>)
        requires
            self.wf(),
        ensures
            line_views(final(lines)@) == line_views(old(lines)@) + border_lines(self.libs(), 255),
    {
        let mut i: u8 = 0;
        while i < 255
            invariant
                self.wf(),
                line_views(lines@) == line_views(old(lines)@) + border_lines(self.libs(), i as nat),
            decreases 255 - i,
        {
            let ghost before = line_views(lines@);
            let border = self.get_border(Identifier::Index(i));
            proof {
                let c = border_at(self.libs(), i);
                assert(border_result(self.libs().borders, IdentView::Index(i), c));
                lemma_border_unique(self.libs().borders, IdentView::Index(i), border, c);
            }
            if border.source != 255 {
                let total = pieces_size(&border.data);
                let tag: [u8; 3] = [98, 114, 100];
                assert(tag@ =~= tag_brd());
                let line = make_log_line(&tag, border.source, i, total);
                lines.push(line);
            }
            assert(line_views(lines@) =~= before + border_line_of(i, border_at(self.libs(), i)));
            i += 1;
        }
    }

    fn push_font_lines(&self, lines: &mut Vec<Vec<u8>>)
        requires
            self.wf(),
        ensures
            line_views(final(lines)@) == line_views(old(lines)@) + font_lines(self.libs(), 255),
    {
        let mut i: u8 = 0;
        while i < 255
            invariant
                self.wf(),
                line_views(lines@) == line_views(old(lines)@) + font_lines(self.libs(), i as nat),
            decreases 255 - i,
        {
            let ghost before = line_views(lines@);
            let font = self.get_font(Identifier::Index(i));
            proof {
                let c = font_at(self.libs(), i);
                assert(font_result(self.libs().fonts, IdentView::Index(i), c));
                lemma_font_unique(self.libs().fonts, IdentView::Index(i), font, c);
            }
            if font.source != 255 {
                let tag: [u8; 3] = [102, 110, 116];
                assert(tag@ =~= tag_fnt());
                let line = make_log_line(&tag, font.source, i, 0);
                lines.push(line);
            }
            assert(line_views(lines@) =~= before + font_line_of(i, font_at(self.libs(), i)));
            i += 1;
        }
    }

    fn push_page_lines(&self, lines: &mut Vec<Vec<u8>>)
        requires
            self.wf(),
        ensures
            line_views(final(lines)@) == line_views(old(lines)@) + page_lines(self.libs(), 255),
    {
        let mut i: u8 = 0;
        while i < 255
            invariant
                self.wf(),
                line_views(lines@) == line_views(old(lines)@) + page_lines(self.libs(), i as nat),
            decreases 255 - i,
        {
            let ghost before = line_views(lines@);
            let page = self.get_page(i);
            proof {
                crate::media::page::lemma_blob_lookup_index(self.libs().pages, LIBRARY_MAX - 1, i);
            }
            if page.source != 255 {
                let tag: [u8; 3] = [112, 97, 103];
                assert(tag@ =~= tag_pag());
                let line = make_log_line(&tag, page.source, i, page.content.len() as u32);
                lines.push(line);
            }
            assert(line_views(lines@) =~= before + page_line_of(self.libs(), i));
            i += 1;
        }
    }

    /// One line for each entry the media holds: the images with data (their
    /// size and that of their mask), the borders (the size of their eight
    /// pieces), the fonts and the pages (their size), each with its source
    /// and index.
    pub fn log(&self) -> (r: Vec<Vec<u8>>)
        requires
            self.wf(),
        ensures
            line_views(r@) == image_lines(self.libs(), 255) + border_lines(self.libs(), 255)
                + font_lines(self.libs(), 255) + page_lines(self.libs(), 255),
            forall|k: int| 0 <= k < r@.len() ==> is_log_line(#[trigger] r@[k]@),
    {
        let mut lines: Vec<Vec<u8>> = Vec::new();
        assert(line_views(lines@) =~= Seq::<Seq<u8>>::empty());
        self.push_image_lines(&mut lines);
        self.push_border_lines(&mut lines);
        self.push_font_lines(&mut lines);
        self.push_page_lines(&mut lines);
        proof {
            let all = image_lines(self.libs(), 255) + border_lines(self.libs(), 255)
                + font_lines(self.libs(), 255) + page_lines(self.libs(), 255);
            assert(line_views(lines@) =~= all);
            lemma_log_lines_all(self.libs());
            assert forall|k: int| 0 <= k < lines@.len() implies is_log_line(#[trigger] lines@[k]@) by {
                assert(line_views(lines@)[k] == lines@[k]@);
            }
        }
        lines
    }
}

} // verus!
