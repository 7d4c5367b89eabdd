//! Building the page library of imported pages.

use vstd::prelude::*;
use vstd::string::StringSliceAdditionalSpecFns;
use super::{Library, Media, LIB_LEN_MAX};
use super::entries::{entry_end, entry_one, import_lib, import_lib_bytes, kept_entries, le_bytes, put_entry_one, rebuild_lib, replaced_lib};
use super::page::{blob_lookup, blob_walk, BlobHit};
use super::s_avail;
use crate::stream::le_u16;
use crate::LIBRARY_MAX;
use super::buffer::{bytes_contents, bytes_len, bytes_new, bytes_put_slice, bytes_put_u16_le, bytes_put_u8, bytes_to_vec};
use crate::{BORDER_RECT};
use crate::control::decode_values;
use crate::decimal::{eq_ignore_ascii_case, parse_u16, parse_u8, starts_with, str_is};
use crate::node::{HEIGHT_FLEX, WIDTH_FLEX};
use crate::xmlparser::{xml_next, XmlEvent, XmlEventView, XmlParser, XmlState};
use crate::decimal::{spec_parse_u16, spec_parse_u8};
use crate::control::decoded_values;
use crate::dom::page::{flex_code, is_solid, xml_fuel, xml_start};
use vstd::utf8::encode_utf8;

verus! {

impl Media {
    /// Appends the page entry `index` named `id` to `dest`.
    pub fn insert_page(dest: &mut bytes::BytesMut, index: u8, id: &str, content: &[u8])
        requires
            bytes_contents(*old(dest)).len() + id.spec_bytes().len() + content@.len() + 4 <= LIB_LEN_MAX * 4,
        ensures
            bytes_contents(*final(dest)) == bytes_contents(*old(dest)) + entry_one(index, id.spec_bytes(), content@),
    {
        put_entry_one(dest, index, id.as_bytes(), content);
    }

    /// Starts the page library of imports afresh, where it was started.
    pub fn clear_pages(&mut self)
        requires
            old(self).wf(),
        ensures
            final(self).wf(),
            final(self).libs() == old(self).libs(),
            old(self).import_pages.is_some() ==> (final(self).import_pages matches Some(v) && v@ == seq![255u8]),
            old(self).import_pages.is_none() ==> final(self).import_pages.is_none(),
            final(self).import_images == old(self).import_images,
            final(self).import_fonts == old(self).import_fonts,
            final(self).import_borders == old(self).import_borders,
            final(self).import_programs == old(self).import_programs,
            final(self).drawing == old(self).drawing,
            final(self).typesetting == old(self).typesetting,
    {
        if self.import_pages.is_some() {
            let v: Vec<u8> = vec![255u8];
            assert(v@ =~= seq![255u8]);
            self.import_pages = Some(v);
        }
    }

    /// Drops the imported page `index`: an entry with no name and no data
    /// takes its place.
    pub fn remove_page(&mut self, index: u8)
        requires
            old(self).wf(),
            import_lib(old(self).import_pages).len() + 5 <= LIB_LEN_MAX,
        ensures
            final(self).wf(),
            final(self).import_pages matches Some(v) && v@ == replaced_lib(
                import_lib(old(self).import_pages),
                index,
                false,
                entry_one(index, Seq::empty(), Seq::empty()),
            ),
            final(self).libs().pages == old(self).libs().pages.update(2, final(self).import_pages->0@),
    {
        proof {
            reveal_strlit("");
        }
        self.import_page(index, "", &[]);
    }

    /// Adds the page `index` named `name` to the library of imports,
    /// replacing an earlier one of that index, and makes the library the
    /// third source of pages.
    pub fn import_page(&mut self, index: u8, name: &str, content: &[u8])
        requires
            old(self).wf(),
            import_lib(old(self).import_pages).len() + name.spec_bytes().len() + content@.len() + 5 <= LIB_LEN_MAX,
        ensures
            final(self).wf(),
            final(self).import_pages matches Some(v) && v@ == replaced_lib(
                import_lib(old(self).import_pages),
                index,
                false,
                entry_one(index, name.spec_bytes(), content@),
            ),
            final(self).libs().pages == old(self).libs().pages.update(2, final(self).import_pages->0@),
            final(self).libs().images == old(self).libs().images,
            final(self).libs().fonts == old(self).libs().fonts,
            final(self).libs().borders == old(self).libs().borders,
            final(self).libs().programs == old(self).libs().programs,
            final(self).import_images == old(self).import_images,
            final(self).import_fonts == old(self).import_fonts,
            final(self).import_borders == old(self).import_borders,
            final(self).import_programs == old(self).import_programs,
            final(self).drawing == old(self).drawing,
            final(self).typesetting == old(self).typesetting,
    {
        let lib = import_lib_bytes(&self.import_pages);
        let mut entry = super::buffer::bytes_new();
        put_entry_one(&mut entry, index, name.as_bytes(), content);
        let entry = super::buffer::bytes_to_vec(&entry);
        let lib2 = rebuild_lib(lib.as_slice(), index, false, entry.as_slice());
        self.pages.set(2, Library { data: super::copy_all(lib2.as_slice()) });
        self.import_pages = Some(lib2);
        proof {
            assert(self.libs().pages =~= old(self).libs().pages.update(2, self.import_pages->0@));
        }
    }
}

/// The size code of a `flex<n>` value (weights 1 to 4; 1 where the number
/// is missing or bad) or the number of a fixed size.
pub open spec fn size_code_spec(value: Seq<char>, flex: u16) -> Option<u16> {
    if 4 <= value.len() && value.subrange(0, 4) == "flex"@ {
        Some(flex_code(value.subrange(4, value.len() as int), flex))
    } else {
        spec_parse_u16(value)
    }
}

/// The size code of a `flex<n>` value or of a fixed size.
fn size_code(value: &str, flex: u16) -> (r: Option<u16>)
    requires
        flex == WIDTH_FLEX || flex == HEIGHT_FLEX,
    ensures
        r == size_code_spec(value@, flex),
{
    proof {
        reveal_strlit("flex");
    }
    if starts_with(value, "flex") {
        let num: u16 = match parse_u16(value.substring_char(4, value.unicode_len())) {
            Some(v) => v,
            None => 1,
        };
        let clamped: u16 = if num < 1 { 1 } else if num > 4 { 4 } else { num };
        Some(flex - clamped + 1)
    } else {
        parse_u16(value)
    }
}

/// A style value packed into the high nibble of instruction `op`.
pub open spec fn nibble_op(op: u8, v: u8) -> u8 {
    op | ((v & 0xf) << 4u8)
}

/// The bytes of the page instruction that the attribute `key` = `value`
/// gives: direction, size, alignment, visibility, colors, font, margin,
/// padding, border and frame; nothing for other attributes or bad values.
pub open spec fn attr_bytes(key: Seq<char>, value: Seq<char>) -> Seq<u8> {
    if key == "vertical"@ {
        seq![0x12u8]
    } else if key == "horizontal"@ {
        seq![0x02u8]
    } else if key == "width"@ || key == "height"@ {
        let w = key == "width"@;
        match size_code_spec(value, if w { WIDTH_FLEX } else { HEIGHT_FLEX }) {
            Some(v) => seq![if w { 4u8 } else { 5u8 }] + le_bytes(v),
            None => Seq::empty(),
        }
    } else if key == "align"@ {
        if value == "start"@ {
            seq![0x03u8]
        } else if value == "center"@ {
            seq![0x13u8]
        } else if value == "end"@ {
            seq![0x23u8]
        } else if value == "stretch"@ {
            seq![0x33u8]
        } else {
            Seq::empty()
        }
    } else if key == "visible"@ || key == "background"@ || key == "color"@ || key == "font"@ {
        let (op, default): (u8, u8) = if key == "visible"@ {
            (6, 0)
        } else if key == "background"@ {
            (9, 0)
        } else if key == "color"@ {
            (10, 1)
        } else {
            (12, 0)
        };
        let v = match spec_parse_u8(value) {
            Some(v) => v,
            None => default,
        };
        seq![nibble_op(op, v)]
    } else if key == "margin"@ || key == "padding"@ {
        let o = decoded_values(value);
        seq![if key == "margin"@ { 7u8 } else { 8u8 }] + Seq::new(4, |k: int| o[k] as u8)
    } else if key == "border"@ || key == "frame"@ {
        let op: u8 = if key == "border"@ { 11 } else { 13 };
        if is_solid(value) {
            seq![nibble_op(op, BORDER_RECT)]
        } else {
            seq![nibble_op(op, match spec_parse_u8(value) {
                Some(v) => v,
                None => 1,
            })]
        }
    } else {
        Seq::empty()
    }
}

/// Appends the page instruction for one attribute (see `attr_bytes`).
fn attribute_instruction(out: &mut bytes::BytesMut, key: &str, value: &str)
    requires
        bytes_contents(*old(out)).len() <= 0x0100_0000,
    ensures
        bytes_contents(*final(out)) == bytes_contents(*old(out)) + attr_bytes(key@, value@),
        attr_bytes(key@, value@).len() <= 5,
{
    let ghost start = bytes_contents(*out);
    if str_is(key, "vertical") {
        bytes_put_u8(out, 0x12);
    } else if str_is(key, "horizontal") {
        bytes_put_u8(out, 0x02);
    } else if str_is(key, "width") || str_is(key, "height") {
        let is_width = str_is(key, "width");
        match size_code(value, if is_width { WIDTH_FLEX } else { HEIGHT_FLEX }) {
            Some(v) => {
                bytes_put_u8(out, if is_width { 4 } else { 5 });
                bytes_put_u16_le(out, v);
            },
            None => {},
        }
    } else if str_is(key, "align") {
        if str_is(value, "start") {
            bytes_put_u8(out, 0x03);
        } else if str_is(value, "center") {
            bytes_put_u8(out, 0x13);
        } else if str_is(value, "end") {
            bytes_put_u8(out, 0x23);
        } else if str_is(value, "stretch") {
            bytes_put_u8(out, 0x33);
        }
    } else if str_is(key, "visible") || str_is(key, "background") || str_is(key, "color") || str_is(key, "font") {
        let (op, default): (u8, u8) = if str_is(key, "visible") {
            (6, 0)
        } else if str_is(key, "background") {
            (9, 0)
        } else if str_is(key, "color") {
            (10, 1)
        } else {
            (12, 0)
        };
        let v = match parse_u8(value) {
            Some(v) => v,
            None => default,
        };
        bytes_put_u8(out, op | ((v & 0xf) << 4u8));
    } else if str_is(key, "margin") || str_is(key, "padding") {
        let values = decode_values(value);
        bytes_put_u8(out, if str_is(key, "margin") { 7 } else { 8 });
        let ghost head = bytes_contents(*out);
        let mut k: usize = 0;
        while k < 4
            invariant
                k <= 4,
                head.len() <= 0x0100_0001,
                values@ == decoded_values(value@),
                bytes_contents(*out) == head + Seq::new(k as nat, |j: int| values@[j] as u8),
            decreases 4 - k,
        {
            bytes_put_u8(out, values[k] as u8);
            k += 1;
            assert(bytes_contents(*out) =~= head + Seq::new(k as nat, |j: int| values@[j] as u8));
        }
    } else if str_is(key, "border") || str_is(key, "frame") {
        let op: u8 = if str_is(key, "border") { 11 } else { 13 };
        if eq_ignore_ascii_case(value, "solid") {
            bytes_put_u8(out, op | ((BORDER_RECT & 0xf) << 4u8));
        } else {
            let v = match parse_u8(value) {
                Some(v) => v,
                None => 1,
            };
            bytes_put_u8(out, op | ((v & 0xf) << 4u8));
        }
    }
    proof {
        reveal_strlit("solid");
        assert(bytes_contents(*out) =~= start + attr_bytes(key@, value@));
    }
}

/// The page that the markup `xml` compiles to from parser state `xs`, after
/// `page`, for at most `fuel` events: a node start (2) for each element,
/// the attributes' instructions, each text as content (1, its bytes, 0), a
/// node end (3) for each closing tag and the document end (1) last. Empty
/// where the markup is refused; compiling stops once the page passes 16 MiB.
pub open spec fn bin_run(xml: Seq<char>, xs: XmlState, page: Seq<u8>, fuel: nat) -> Seq<u8>
    decreases fuel,
{
    if fuel == 0 || page.len() > 0x0100_0000 {
        page
    } else {
        let (xs2, ev) = xml_next(xs, xml);
        let f = (fuel - 1) as nat;
        match ev {
            Err(_) => Seq::empty(),
            Ok(e) => match e {
                XmlEventView::StartElement(_) => bin_run(xml, xs2, page.push(0x20), f),
                XmlEventView::Attribute(k, v) => bin_run(xml, xs2, page + attr_bytes(k, v), f),
                XmlEventView::EndElement(_) => bin_run(xml, xs2, page.push(0x30), f),
                XmlEventView::CData(d) => {
                    let b = encode_utf8(d);
                    if 0 < b.len() <= 0x0100_0000 {
                        bin_run(xml, xs2, page + seq![1u8] + b + seq![0u8], f)
                    } else {
                        bin_run(xml, xs2, page, f)
                    }
                },
                XmlEventView::EndDocument => page.push(0x10),
                XmlEventView::StartDocument => bin_run(xml, xs2, page, f),
            },
        }
    }
}

impl Media {
    /// Compiles XML markup to a binary page (see `bin_run`): document start,
    /// then for each element a node start, its attributes as property
    /// instructions, its text as content, and a node end; document end last.
    /// Empty where the markup is refused.
    pub fn xml_to_bin(xml: &str) -> (r: Vec<u8>)
        ensures
            r@ == bin_run(xml@, xml_start(), seq![0u8], xml_fuel(xml@.len())),
            r@.len() == 0 || r@[0] == 0,
    {
        let mut page = bytes_new();
        bytes_put_u8(&mut page, 0);
        let mut reader = XmlParser::new();
        let fuel: usize = if xml.unicode_len() < usize::MAX / 8 { 4 * xml.unicode_len() + 8 } else { usize::MAX };
        let ghost target = bin_run(xml@, xml_start(), seq![0u8], xml_fuel(xml@.len()));
        assert(bytes_contents(page) =~= seq![0u8]);
        let mut steps: usize = 0;
        while steps < fuel && bytes_len(&page) <= 0x0100_0000
            invariant
                reader.wf(),
                bytes_contents(page).len() >= 1,
                bytes_contents(page)[0] == 0,
                steps <= fuel,
                fuel == xml_fuel(xml@.len()),
                target == bin_run(xml@, xml_start(), seq![0u8], xml_fuel(xml@.len())),
                bin_run(xml@, reader.model(), bytes_contents(page), (fuel - steps) as nat) == target,
            decreases fuel - steps,
        {
            steps += 1;
            let ghost before = bytes_contents(page);
            match reader.next(xml) {
                Err(_) => {
                    return Vec::new();
                },
                Ok(XmlEvent::StartElement { name: _ }) => {
                    bytes_put_u8(&mut page, 0x20);
                },
                Ok(XmlEvent::Attribute { key, value }) => {
                    attribute_instruction(&mut page, key, value);
                },
                Ok(XmlEvent::EndElement { name: _ }) => {
                    bytes_put_u8(&mut page, 0x30);
                },
                Ok(XmlEvent::CData { data }) => {
                    let bytes = data.as_bytes();
                    if bytes.len() > 0 && bytes.len() <= 0x0100_0000 {
                        bytes_put_u8(&mut page, 1);
                        bytes_put_slice(&mut page, bytes);
                        bytes_put_u8(&mut page, 0);
                        assert(bytes_contents(page) =~= before + seq![1u8] + bytes@ + seq![0u8]);
                    }
                },
                Ok(XmlEvent::EndDocument {}) => {
                    bytes_put_u8(&mut page, 0x10);
                    return bytes_to_vec(&page);
                },
                Ok(XmlEvent::StartDocument {}) => {},
            }
        }
        bytes_to_vec(&page)
    }
}

/// A hit of the entry walk moved `off` bytes further into the library.
pub open spec fn shift_hit(h: Option<BlobHit>, off: int) -> Option<BlobHit> {
    match h {
        Some(b) => Some(BlobHit { id_start: b.id_start + off, start: b.start + off, ..b }),
        None => None,
    }
}

/// Walking behind a prefix is walking the rest, moved by the prefix.
proof fn lemma_walk_shift(a: Seq<u8>, b: Seq<u8>, p: int, want: u8)
    requires
        0 <= p,
    ensures
        blob_walk(a + b, a.len() + p, want) == shift_hit(blob_walk(b, p, want), a.len() as int),
    decreases b.len() - p,
{
    let d = a + b;
    let o = a.len() as int;
    assert(s_avail(d, o + p) == s_avail(b, p));
    if s_avail(b, p) < 2 {
    } else {
        assert(d[o + p] == b[p]);
        assert(d[o + p + 1] == b[p + 1]);
        let id_len = b[p + 1] as int;
        let q = p + 2;
        assert(s_avail(d, o + q) == s_avail(b, q));
        if s_avail(b, q) >= id_len {
            let r = q + id_len;
            assert(s_avail(d, o + r) == s_avail(b, r));
            if !(r < b.len()) || b[p] == 255 {
            } else {
                if s_avail(b, r) > 2 {
                    assert(d[o + r] == b[r]);
                    assert(d[o + r + 1] == b[r + 1]);
                }
                let cl = if s_avail(b, r) > 2 { le_u16(b[r], b[r + 1]) } else { 0 };
                let r2 = if s_avail(b, r) > 2 { r + 2 } else { r };
                assert(s_avail(d, o + r2) == s_avail(b, r2));
                if s_avail(b, r2) >= cl && b[p] == want {
                } else if r2 + cl > b.len() {
                } else {
                    lemma_walk_shift(a, b, r2 + cl, want);
                }
            }
        } else {
            lemma_walk_shift(a, b, q, want);
        }
    }
}

/// Walking a library whose first entries are those `kept_entries` keeps
/// from `lib` (none of index `want`) skips them all.
proof fn lemma_walk_kept(lib: Seq<u8>, pos: int, want: u8, t: Seq<u8>)
    requires
        0 <= pos,
        t.len() >= 1,
    ensures
        blob_walk(kept_entries(lib, pos, want, false) + t, 0, want) == shift_hit(
            blob_walk(t, 0, want),
            kept_entries(lib, pos, want, false).len() as int,
        ),
    decreases lib.len() - pos,
{
    let k = kept_entries(lib, pos, want, false);
    if pos >= lib.len() || lib[pos] == 255 || entry_end(lib, pos, false) > lib.len() {
        assert(k =~= Seq::<u8>::empty());
        assert(k + t =~= t);
        lemma_walk_shift(Seq::<u8>::empty(), t, 0, want);
        assert(Seq::<u8>::empty() + t =~= t);
    } else {
        let e = entry_end(lib, pos, false);
        let rest = kept_entries(lib, e, want, false);
        lemma_walk_kept(lib, e, want, t);
        if lib[pos] != want {
            let piece = lib.subrange(pos, e);
            assert(k =~= piece + rest);
            let d = piece + (rest + t);
            assert(k + t =~= d);
            // The walk reads the entry header of `piece` and skips its body.
            let il = lib[pos + 1] as int;
            assert(d[0] == lib[pos]);
            assert(d[1] == lib[pos + 1]);
            assert(d[2 + il] == lib[pos + 2 + il]);
            assert(d[3 + il] == lib[pos + 3 + il]);
            assert(s_avail(d, 0) >= 2);
            assert(s_avail(d, 2 + il) > 2);
            assert(blob_walk(d, 0, want) == blob_walk(d, piece.len() as int, want));
            lemma_walk_shift(piece, rest + t, 0, want);
            assert(piece + (rest + t) =~= d);
        } else {
            assert(k =~= rest);
        }
    }
}

/// The walk finds an entry written by `entry_one` at the start of a library.
proof fn lemma_walk_entry(index: u8, id: Seq<u8>, content: Seq<u8>)
    requires
        index != 255,
        id.len() < 256,
        content.len() < 65536,
    ensures
        blob_walk(entry_one(index, id, content) + seq![255u8], 0, index) == Some(
            BlobHit { id_start: 2, id_len: id.len() as int, start: 4 + id.len() as int, len: content.len() as int },
        ),
{
    let d = entry_one(index, id, content) + seq![255u8];
    let il = id.len() as int;
    assert(d[0] == index);
    assert(d[1] == id.len() as u8);
    assert(d[2 + il] == (content.len() as u16 % 256) as u8);
    assert(d[3 + il] == (content.len() as u16 / 256) as u8);
    assert(le_u16(d[2 + il], d[3 + il]) == content.len());
}

/// Reading back an import: after `import_page` put `content` under `index`
/// into the library of imports (the third source), `get_page(index)` finds
/// that content, unless the fourth source holds a page of that index.
pub proof fn lemma_imported_page_read_back(libs: Seq<Seq<u8>>, old_import: Seq<u8>, index: u8, id: Seq<u8>, content: Seq<u8>)
    requires
        libs.len() == LIBRARY_MAX,
        libs[2] == replaced_lib(old_import, index, false, entry_one(index, id, content)),
        libs[3].len() == 0 || blob_walk(libs[3], 0, index) is None,
        index != 255,
        id.len() < 256,
        content.len() < 65536,
    ensures
        blob_lookup(libs, LIBRARY_MAX - 1, index) matches Some((src, h)) && src == 2
            && libs[2].subrange(h.start, h.start + h.len) == content,
{
    let k = kept_entries(old_import, 0, index, false);
    let t = entry_one(index, id, content) + seq![255u8];
    assert(libs[2] =~= k + t);
    lemma_walk_kept(old_import, 0, index, t);
    lemma_walk_entry(index, id, content);
    let h = BlobHit { id_start: k.len() + 2int, id_len: id.len() as int, start: k.len() + 4 + id.len() as int, len: content.len() as int };
    assert(blob_walk(libs[2], 0, index) == Some(h));
    assert(libs[2].len() > 0);
    assert(blob_lookup(libs, 3, index) == blob_lookup(libs, 2, index));
    assert(libs[2].subrange(h.start, h.start + h.len) =~= content);
}

} // verus!
