//! Media libraries: a package holds libraries of images, fonts, borders,
//! pages and programs; up to `LIBRARY_MAX` sources are loaded side by side
//! and later sources shadow earlier ones.

use vstd::prelude::*;
use vstd::string::StringSliceAdditionalSpecFns;
use crate::LIBRARY_MAX;
use crate::stream::{le_u16, le_u32, Stream};

pub mod image;
pub mod font;
pub mod border;
pub mod page;
pub mod program;
pub mod buffer;
pub mod entries;
pub mod inspect;
pub mod page_gen;
pub mod image_gen;
pub mod border_gen;
pub mod font_gen;
pub mod font_sheet;
pub mod pkg;
pub mod pkg_font;
pub mod rle;
pub mod program_gen;

verus! {

pub const SYS_FONT: u8 = 0;
pub const SYS_POINTER: u8 = 252;
pub const SYS_LOGO: u8 = 253;

pub const LIBMAGIC_IMAGE: u8 = 20;
pub const LIBMAGIC_FONT: u8 = 30;
pub const LIBMAGIC_BORDER: u8 = 40;
pub const LIBMAGIC_PAGE: u8 = 50;
pub const LIBMAGIC_PROGRAM: u8 = 60;
pub const LIBMAGIC_EOL: u8 = 255;

pub const MEDIALIB_HEADER_SIZE: usize = 3;
pub const IMAGELIB_HEADER_SIZE: usize = 5;
pub const FONTLIB_HEADER_SIZE: usize = 7;
pub const BORDERLIB_HEADER_SIZE: usize = 17;

/// Libraries longer than this are not kept. Four libraries' worth of bytes
/// still fits an `isize` on a 32-bit machine, so a library built from
/// others, or read past its end by a header's length, stays addressable.
pub const LIB_LEN_MAX: usize = 0x1000_0000;

/// One library of a package; an empty one is absent.
pub struct Library {
    pub data: Vec<u8>,
}

impl Library {
    pub fn clear(&mut self)
        ensures
            final(self).data@.len() == 0,
    {
        self.data = Vec::new();
    }
}

pub enum Identifier<'a> {
    Index(u8),
    Name(&'a str),
    Both(u8, &'a str),
}

/// How an entry is looked for: by index, by name, or by either.
pub enum IdentView {
    Index(u8),
    Name(Seq<u8>),
    Both(u8, Seq<u8>),
}

impl<'a> View for Identifier<'a> {
    type V = IdentView;

    open spec fn view(&self) -> IdentView {
        match self {
            Identifier::Index(i) => IdentView::Index(*i),
            Identifier::Name(n) => IdentView::Name((**n).spec_bytes()),
            Identifier::Both(i, n) => IdentView::Both(*i, (**n).spec_bytes()),
        }
    }
}

/// The name stored in a library: its bytes where they are UTF-8, else empty.
pub open spec fn stored_name(b: Seq<u8>) -> Seq<u8> {
    if vstd::utf8::valid_utf8(b) { b } else { Seq::empty() }
}

/// Whether an entry with index `idx` and name bytes `id` is the one asked for.
pub open spec fn ident_matches(ident: IdentView, idx: u8, id: Seq<u8>) -> bool {
    match ident {
        IdentView::Index(i) => i == idx,
        IdentView::Name(n) => n.len() > 0 && stored_name(id) == n,
        IdentView::Both(i, n) => i == idx || (n.len() > 0 && stored_name(id) == n),
    }
}

/// Bytes left behind position `p`.
pub open spec fn s_avail(d: Seq<u8>, p: int) -> int {
    if p >= d.len() {
        0
    } else {
        d.len() - p
    }
}

#[derive(PartialEq, Eq, Structural, Copy, Clone)]
pub enum Ret {
    Success,
    BadHeader,
    CRCFailure,
    ShortHeaderRead,
    ShortLibRead,
    UnexpectedEnd,
}

/// `core::str::from_utf8(b).is_ok()`: whether `b` is valid UTF-8.
#[verifier::external_body]
fn utf8_valid(b: &[u8]) -> (r: bool)
    ensures
        r == vstd::utf8::valid_utf8(b@),
{
    core::str::from_utf8(b).is_ok()
}

/// `core::str::from_utf8(b).unwrap_or("")`: the text `b` encodes where it
/// is valid UTF-8, else the empty text.
#[verifier::external_body]
pub(crate) fn str_of_utf8(b: &[u8]) -> (r: &str)
    ensures
        r.spec_bytes() == stored_name(b@),
{
    core::str::from_utf8(b).unwrap_or("")
}

/// A copy of `d[start..end]`.
pub fn copy_range(d: &[u8], start: usize, end: usize) -> (r: Vec<u8>)
    requires
        start <= end <= d@.len(),
    ensures
        r@ == d@.subrange(start as int, end as int),
{
    let mut r: Vec<u8> = Vec::new();
    let mut i = start;
    while i < end
        invariant
            start <= i <= end <= d@.len(),
            r@ == d@.subrange(start as int, i as int),
        decreases end - i,
    {
        r.push(d[i]);
        proof {
            assert(d@.subrange(start as int, i + 1) =~= d@.subrange(start as int, i as int).push(
                d@[i as int],
            ));
        }
        i += 1;
    }
    r
}

/// A copy of a byte slice.
pub fn copy_all(d: &[u8]) -> (r: Vec<u8>)
    ensures
        r@ == d@,
{
    let r = copy_range(d, 0, d.len());
    assert(d@.subrange(0, d@.len() as int) =~= d@);
    r
}

/// Whether two byte strings are equal.
pub fn bytes_eq(a: &[u8], b: &[u8]) -> (r: bool)
    ensures
        r == (a@ == b@),
{
    if a.len() != b.len() {
        return false;
    }
    let mut i: usize = 0;
    while i < a.len()
        invariant
            a@.len() == b@.len(),
            i <= a@.len(),
            forall|k: int| 0 <= k < i ==> a@[k] == b@[k],
        decreases a@.len() - i,
    {
        if a[i] != b[i] {
            return false;
        }
        i += 1;
    }
    assert(a@ =~= b@);
    true
}

/// The name of an entry as it is compared and returned.
pub fn stored_name_of(b: &[u8]) -> (r: Vec<u8>)
    ensures
        r@ == stored_name(b@),
{
    if utf8_valid(b) {
        copy_all(b)
    } else {
        Vec::new()
    }
}

/// Whether the entry `idx` named `id` is the one `ident` asks for.
pub fn matches_ident(ident: &Identifier, idx: u8, id: &[u8]) -> (r: bool)
    ensures
        r == ident_matches(ident@, idx, id@),
{
    match ident {
        Identifier::Index(i) => *i == idx,
        Identifier::Name(n) => {
            let nb = n.as_bytes();
            if nb.len() == 0 {
                false
            } else {
                let s = stored_name_of(id);
                bytes_eq(s.as_slice(), nb)
            }
        },
        Identifier::Both(i, n) => {
            if *i == idx {
                true
            } else {
                let nb = n.as_bytes();
                if nb.len() == 0 {
                    false
                } else {
                    let s = stored_name_of(id);
                    bytes_eq(s.as_slice(), nb)
                }
            }
        },
    }
}

/// The libraries of all five kinds, by source.
pub struct MediaLibs {
    pub images: Seq<Seq<u8>>,
    pub fonts: Seq<Seq<u8>>,
    pub borders: Seq<Seq<u8>>,
    pub pages: Seq<Seq<u8>>,
    pub programs: Seq<Seq<u8>>,
}

pub open spec fn lib_views(libs: Seq<Library>) -> Seq<Seq<u8>> {
    Seq::new(libs.len(), |i: int| libs[i].data@)
}

/// `libs` with library `source` of the kind `media_id` set to `lib`.
pub open spec fn set_lib(libs: MediaLibs, media_id: u8, source: int, lib: Seq<u8>) -> MediaLibs {
    if media_id == LIBMAGIC_IMAGE {
        MediaLibs { images: libs.images.update(source, lib), ..libs }
    } else if media_id == LIBMAGIC_FONT {
        MediaLibs { fonts: libs.fonts.update(source, lib), ..libs }
    } else if media_id == LIBMAGIC_BORDER {
        MediaLibs { borders: libs.borders.update(source, lib), ..libs }
    } else if media_id == LIBMAGIC_PAGE {
        MediaLibs { pages: libs.pages.update(source, lib), ..libs }
    } else if media_id == LIBMAGIC_PROGRAM {
        MediaLibs { programs: libs.programs.update(source, lib), ..libs }
    } else {
        libs
    }
}

/// The library sections of a package from position `p` on: each is a kind
/// byte, a little-endian length and the library itself; kind 255 or an
/// empty section ends the package.
pub open spec fn pkg_walk(d: Seq<u8>, p: int, source: u8, libs: MediaLibs) -> (MediaLibs, Ret)
    decreases d.len() - p,
{
    if p < 0 || s_avail(d, p) < 3 {
        (libs, Ret::UnexpectedEnd)
    } else {
        let media_id = d[p];
        if media_id == LIBMAGIC_EOL {
            (libs, Ret::Success)
        } else if !(s_avail(d, p + 1) > 2) {
            (libs, Ret::ShortLibRead)
        } else {
            let lib_length = le_u16(d[p + 1], d[p + 2]);
            let pos = p + 3;
            if lib_length == 0 {
                (libs, Ret::Success)
            } else {
                let end = if pos + lib_length <= d.len() { pos + lib_length } else { d.len() as int };
                let libs2 = if source < LIBRARY_MAX {
                    set_lib(libs, media_id, source as int, d.subrange(pos, end))
                } else {
                    libs
                };
                if pos + lib_length > d.len() {
                    (libs2, Ret::UnexpectedEnd)
                } else {
                    pkg_walk(d, pos + lib_length, source, libs2)
                }
            }
        }
    }
}

/// The checksum of a package: 0x1002 plus every byte from offset 12 on,
/// modulo 2^16.
pub open spec fn pkg_crc(d: Seq<u8>, from: int) -> int
    decreases d.len() - from,
{
    if from >= d.len() || from < 0 {
        0x1002
    } else {
        (pkg_crc(d, from + 1) + d[from] as int) % 65536
    }
}

/// What `load_pkg` makes of a package: the libraries and the return code.
pub open spec fn load_pkg_result(d: Seq<u8>, source: u8, libs: MediaLibs) -> (MediaLibs, Ret) {
    if d.len() < 8 || d.subrange(0, 4) != seq![0x50u8, 0x4bu8, 0x47u8, 0x30u8] {
        (libs, Ret::BadHeader)
    } else if le_u16(d[8], d[9]) != pkg_crc(d, 12) {
        (libs, Ret::CRCFailure)
    } else {
        pkg_walk(d, 10, source, libs)
    }
}

pub struct Media {
    pub images: Vec<Library>,
    pub fonts: Vec<Library>,
    pub borders: Vec<Library>,
    pub pages: Vec<Library>,
    pub programs: Vec<Library>,
    pub drawing: image::Settings,
    pub typesetting: font::Settings,
    /// The libraries that the import functions build, by kind.
    pub import_images: Option<Vec<u8>>,
    pub import_fonts: Option<Vec<u8>>,
    pub import_borders: Option<Vec<u8>>,
    pub import_pages: Option<Vec<u8>>,
    pub import_programs: Option<Vec<u8>>,
}

pub open spec fn libs_wf(libs: Seq<Library>) -> bool {
    &&& libs.len() == LIBRARY_MAX as int
    &&& forall|i: int| 0 <= i < libs.len() ==> (#[trigger] libs[i]).data@.len() <= LIB_LEN_MAX
}

fn empty_libs() -> (r: Vec<Library>)
    ensures
        libs_wf(r@),
        forall|i: int| 0 <= i < r@.len() ==> (#[trigger] r@[i]).data@.len() == 0,
{
    let mut v: Vec<Library> = Vec::new();
    let mut i: usize = 0;
    while i < LIBRARY_MAX as usize
        invariant
            i <= LIBRARY_MAX,
            v@.len() == i,
            forall|k: int| 0 <= k < v@.len() ==> (#[trigger] v@[k]).data@.len() == 0,
        decreases LIBRARY_MAX - i,
    {
        v.push(Library { data: Vec::new() });
        i += 1;
    }
    v
}

impl Default for Media {
    fn default() -> (r: Self)
        ensures
            r.wf(),
            forall|i: int| 0 <= i < LIBRARY_MAX ==> (#[trigger] r.libs().images[i]).len() == 0,
            forall|i: int| 0 <= i < LIBRARY_MAX ==> (#[trigger] r.libs().fonts[i]).len() == 0,
            forall|i: int| 0 <= i < LIBRARY_MAX ==> (#[trigger] r.libs().borders[i]).len() == 0,
            forall|i: int| 0 <= i < LIBRARY_MAX ==> (#[trigger] r.libs().pages[i]).len() == 0,
            forall|i: int| 0 <= i < LIBRARY_MAX ==> (#[trigger] r.libs().programs[i]).len() == 0,
    {
        Media {
            images: empty_libs(),
            fonts: empty_libs(),
            borders: empty_libs(),
            pages: empty_libs(),
            programs: empty_libs(),
            drawing: image::Settings::default(),
            typesetting: font::Settings::default(),
            import_images: None,
            import_fonts: None,
            import_borders: None,
            import_pages: None,
            import_programs: None,
        }
    }
}

impl Media {
    pub open spec fn wf(&self) -> bool {
        &&& libs_wf(self.images@)
        &&& libs_wf(self.fonts@)
        &&& libs_wf(self.borders@)
        &&& libs_wf(self.pages@)
        &&& libs_wf(self.programs@)
    }

    pub open spec fn libs(&self) -> MediaLibs {
        MediaLibs {
            images: lib_views(self.images@),
            fonts: lib_views(self.fonts@),
            borders: lib_views(self.borders@),
            pages: lib_views(self.pages@),
            programs: lib_views(self.programs@),
        }
    }

    /// Drops every library but those of source 0, the system package.
    pub fn unload_pkg(&mut self)
        requires
            old(self).wf(),
        ensures
            final(self).wf(),
            final(self).drawing == old(self).drawing,
            final(self).typesetting == old(self).typesetting,
            final(self).import_images == old(self).import_images,
            final(self).import_fonts == old(self).import_fonts,
            final(self).import_borders == old(self).import_borders,
            final(self).import_pages == old(self).import_pages,
            final(self).import_programs == old(self).import_programs,
            final(self).libs().images == seq![old(self).libs().images[0], seq![], seq![], seq![]],
            final(self).libs().fonts == seq![old(self).libs().fonts[0], seq![], seq![], seq![]],
            final(self).libs().borders == seq![old(self).libs().borders[0], seq![], seq![], seq![]],
            final(self).libs().pages == seq![old(self).libs().pages[0], seq![], seq![], seq![]],
            final(self).libs().programs == seq![old(self).libs().programs[0], seq![], seq![], seq![]],
    {
        let mut i: usize = 1;
        while i < LIBRARY_MAX as usize
            invariant
                1 <= i <= LIBRARY_MAX,
                self.wf(),
                self.drawing == old(self).drawing,
                self.typesetting == old(self).typesetting,
                self.import_images == old(self).import_images,
                self.import_fonts == old(self).import_fonts,
                self.import_borders == old(self).import_borders,
                self.import_pages == old(self).import_pages,
                self.import_programs == old(self).import_programs,
                self.images@[0] == old(self).images@[0],
                self.fonts@[0] == old(self).fonts@[0],
                self.borders@[0] == old(self).borders@[0],
                self.pages@[0] == old(self).pages@[0],
                self.programs@[0] == old(self).programs@[0],
                forall|k: int| 1 <= k < i ==> (#[trigger] self.images@[k]).data@.len() == 0,
                forall|k: int| 1 <= k < i ==> (#[trigger] self.fonts@[k]).data@.len() == 0,
                forall|k: int| 1 <= k < i ==> (#[trigger] self.borders@[k]).data@.len() == 0,
                forall|k: int| 1 <= k < i ==> (#[trigger] self.pages@[k]).data@.len() == 0,
                forall|k: int| 1 <= k < i ==> (#[trigger] self.programs@[k]).data@.len() == 0,
            decreases LIBRARY_MAX - i,
        {
            self.images[i].clear();
            self.borders[i].clear();
            self.fonts[i].clear();
            self.pages[i].clear();
            self.programs[i].clear();
            i += 1;
        }
        assert(self.libs().images =~~= seq![old(self).libs().images[0], seq![], seq![], seq![]]);
        assert(self.libs().fonts =~~= seq![old(self).libs().fonts[0], seq![], seq![], seq![]]);
        assert(self.libs().borders =~~= seq![old(self).libs().borders[0], seq![], seq![], seq![]]);
        assert(self.libs().pages =~~= seq![old(self).libs().pages[0], seq![], seq![], seq![]]);
        assert(self.libs().programs =~~= seq![old(self).libs().programs[0], seq![], seq![], seq![]]);
    }

    /// Sets library `source` of kind `media_id` to a copy of `d[start..end]`.
    fn attach(&mut self, media_id: u8, source: u8, d: &[u8], start: usize, end: usize)
        requires
            old(self).wf(),
            source < LIBRARY_MAX,
            start <= end <= d@.len(),
            end - start <= LIB_LEN_MAX,
        ensures
            final(self).wf(),
            final(self).libs() == set_lib(
                old(self).libs(),
                media_id,
                source as int,
                d@.subrange(start as int, end as int),
            ),
            final(self).drawing == old(self).drawing,
            final(self).typesetting == old(self).typesetting,
            final(self).import_images == old(self).import_images,
            final(self).import_fonts == old(self).import_fonts,
            final(self).import_borders == old(self).import_borders,
            final(self).import_pages == old(self).import_pages,
            final(self).import_programs == old(self).import_programs,
    {
        let s = source as usize;
        if media_id == LIBMAGIC_IMAGE {
            self.images.set(s, Library { data: copy_range(d, start, end) });
            assert(lib_views(self.images@) =~= old(self).libs().images.update(
                source as int,
                d@.subrange(start as int, end as int),
            ));
        } else if media_id == LIBMAGIC_FONT {
            self.fonts.set(s, Library { data: copy_range(d, start, end) });
            assert(lib_views(self.fonts@) =~= old(self).libs().fonts.update(
                source as int,
                d@.subrange(start as int, end as int),
            ));
        } else if media_id == LIBMAGIC_BORDER {
            self.borders.set(s, Library { data: copy_range(d, start, end) });
            assert(lib_views(self.borders@) =~= old(self).libs().borders.update(
                source as int,
                d@.subrange(start as int, end as int),
            ));
        } else if media_id == LIBMAGIC_PAGE {
            self.pages.set(s, Library { data: copy_range(d, start, end) });
            assert(lib_views(self.pages@) =~= old(self).libs().pages.update(
                source as int,
                d@.subrange(start as int, end as int),
            ));
        } else if media_id == LIBMAGIC_PROGRAM {
            self.programs.set(s, Library { data: copy_range(d, start, end) });
            assert(lib_views(self.programs@) =~= old(self).libs().programs.update(
                source as int,
                d@.subrange(start as int, end as int),
            ));
        }
    }

    /// Loads the libraries of a package as source `source`.
    pub fn load_pkg(&mut self, data: &[u8], source: u8) -> (r: Ret)
        requires
            old(self).wf(),
            data@.len() >= 4,
            !(8 <= data@.len() < 12 && data@.subrange(0, 4) == seq![0x50u8, 0x4bu8, 0x47u8, 0x30u8]),
        ensures
            final(self).wf(),
            (final(self).libs(), r) == load_pkg_result(data@, source, old(self).libs()),
            final(self).drawing == old(self).drawing,
            final(self).typesetting == old(self).typesetting,
            final(self).import_images == old(self).import_images,
            final(self).import_fonts == old(self).import_fonts,
            final(self).import_borders == old(self).import_borders,
            final(self).import_pages == old(self).import_pages,
            final(self).import_programs == old(self).import_programs,
    {
        let mut reader = Stream::new(data);
        if reader.available() < 8 || !(data[0] == 0x50 && data[1] == 0x4b && data[2] == 0x47
            && data[3] == 0x30) {
            proof {
                if data@.len() >= 8 {
                    assert(data@.subrange(0, 4) != seq![0x50u8, 0x4bu8, 0x47u8, 0x30u8] ==> !(
                    data@[0] == 0x50 && data@[1] == 0x4b && data@[2] == 0x47 && data@[3] == 0x30));
                    if data@[0] == 0x50 && data@[1] == 0x4b && data@[2] == 0x47 && data@[3] == 0x30 {
                        assert(data@.subrange(0, 4) =~= seq![0x50u8, 0x4bu8, 0x47u8, 0x30u8]);
                    }
                }
            }
            return Ret::BadHeader;
        }
        assert(data@.subrange(0, 4) =~= seq![0x50u8, 0x4bu8, 0x47u8, 0x30u8]);
        reader.set_pos(4);
        let _length = reader.read_u32();
        let crc1 = reader.read_u16();
        let mut crc2: u16 = 0x1002;
        let mut i: usize = data.len();
        while i > 12
            invariant
                12 <= i <= data@.len(),
                crc2 as int == pkg_crc(data@, i as int),
            decreases i,
        {
            i -= 1;
            crc2 = crc2.wrapping_add(data[i] as u16);
            proof {
                assert(pkg_crc(data@, i as int) == (pkg_crc(data@, i + 1) + data@[i as int] as int)
                    % 65536);
            }
        }
        if crc1 != crc2 {
            return Ret::CRCFailure;
        }
        let ghost start = self.libs();
        assert(pkg_walk(data@, 10, source, start) == load_pkg_result(data@, source, old(self).libs()));
        loop
            invariant
                self.wf(),
                pkg_walk(data@, 10, source, start) == load_pkg_result(data@, source, old(self).libs()),
                reader.data_view() == data@,
                0 <= reader.pos_view(),
                pkg_walk(data@, reader.pos_view(), source, self.libs()) == pkg_walk(
                    data@,
                    10,
                    source,
                    start,
                ),
                self.drawing == old(self).drawing,
                self.typesetting == old(self).typesetting,
                self.import_images == old(self).import_images,
                self.import_fonts == old(self).import_fonts,
                self.import_borders == old(self).import_borders,
                self.import_pages == old(self).import_pages,
                self.import_programs == old(self).import_programs,
            decreases data@.len() - reader.pos_view(),
        {
            if reader.available() >= MEDIALIB_HEADER_SIZE {
                let media_id = reader.read_u8();
                if media_id == LIBMAGIC_EOL {
                    return Ret::Success;
                }
                let lib_length = reader.read_u16() as usize;
                if reader.ok == false {
                    return Ret::ShortLibRead;
                }
                if lib_length == 0 {
                    return Ret::Success;
                }
                let pos = reader.get_pos();
                let end = if lib_length <= data.len() - pos { pos + lib_length } else { data.len() };
                if source < LIBRARY_MAX {
                    self.attach(media_id, source, data, pos, end);
                }
                if lib_length > data.len() - pos {
                    return Ret::UnexpectedEnd;
                }
                reader.set_pos(pos + lib_length);
            } else {
                return Ret::UnexpectedEnd;
            }
        }
    }

    /// Forgets the media: the imported libraries and every loaded package
    /// but the system one.
    pub fn clear(&mut self)
        requires
            old(self).wf(),
        ensures
            final(self).wf(),
            final(self).libs().images == seq![old(self).libs().images[0], seq![], seq![], seq![]],
            final(self).libs().fonts == seq![old(self).libs().fonts[0], seq![], seq![], seq![]],
            final(self).libs().borders == seq![old(self).libs().borders[0], seq![], seq![], seq![]],
            final(self).libs().pages == seq![old(self).libs().pages[0], seq![], seq![], seq![]],
            final(self).libs().programs == seq![old(self).libs().programs[0], seq![], seq![], seq![]],
            final(self).drawing == old(self).drawing,
            final(self).typesetting == old(self).typesetting,
            old(self).import_images.is_some() ==> (final(self).import_images matches Some(v) && v@ == seq![255u8]),
            old(self).import_images.is_none() ==> final(self).import_images.is_none(),
            old(self).import_borders.is_some() ==> (final(self).import_borders matches Some(v) && v@ == seq![255u8]),
            old(self).import_borders.is_none() ==> final(self).import_borders.is_none(),
            old(self).import_pages.is_some() ==> (final(self).import_pages matches Some(v) && v@ == seq![255u8]),
            old(self).import_pages.is_none() ==> final(self).import_pages.is_none(),
            old(self).import_fonts.is_some() ==> (final(self).import_fonts matches Some(v) && v@ == seq![255u8]),
            old(self).import_fonts.is_none() ==> final(self).import_fonts.is_none(),
    {
        self.clear_images();
        self.clear_border();
        self.clear_font();
        self.clear_pages();
        self.unload_pkg();
    }
}

} // verus!
