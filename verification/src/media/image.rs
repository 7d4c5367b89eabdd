use vstd::prelude::*;
use crate::Color;
use crate::stream::{le_u16, Stream};
use super::{
    copy_range, ident_matches, matches_ident, s_avail, stored_name, stored_name_of, IdentView,
    Identifier, Library, Media, MediaLibs, LIBRARY_MAX, LIB_LEN_MAX, IMAGELIB_HEADER_SIZE,
};

verus! {

pub type ImageIdx = u8;
pub type ImageW = u8;
pub type ImageH = u8;
pub type ImageFormat = u8;

#[derive(PartialEq, Eq, Structural, Copy, Clone)]
pub enum ImageType {
    Dummy,
    Indexed1,
}

pub const IMAGE_TYPE_DUMMY: u8 = 0;
pub const IMAGE_TYPE_INDEXED1: u8 = 1;

pub const IMAGE_HEADER_SIZE: usize = 3;

/// The image shown for an image that is missing: a 5x5 cross-hatch.
pub open spec fn dummy_image() -> Seq<u8> {
    seq![1u8, 5u8, 5u8, 0u8, 0b11111110u8, 0b01101011u8, 0b00111111u8, 0u8]
}

pub fn dummy_image_data() -> (r: Vec<u8>)
    ensures
        r@ == dummy_image(),
{
    let v: Vec<u8> = vec![1u8, 5u8, 5u8, 0u8, 0b11111110u8, 0b01101011u8, 0b00111111u8, 0u8];
    assert(v@ =~= dummy_image());
    v
}

/// An image entry: format, width and height, then pixel data; optionally a
/// mask stream.
pub struct Image {
    pub source: u8,
    pub id: Vec<u8>,
    pub data: Vec<u8>,
    pub mask: Option<Vec<u8>>,
}

impl Image {
    pub open spec fn is_dummy(&self) -> bool {
        &&& self.source == 255
        &&& self.id@.len() == 0
        &&& self.data@ == dummy_image()
        &&& self.mask.is_none()
    }
}

impl Default for Image {
    fn default() -> (r: Self)
        ensures
            r.is_dummy(),
    {
        Image { source: 255, id: Vec::new(), data: dummy_image_data(), mask: None }
    }
}

#[derive(Copy, Clone)]
pub struct Settings {
    pub transparent_color: Color,
    pub use_mask: bool,
    pub inverted: bool,
}

/// The default image drawing: color 0 transparent, masks used, not
/// inverted.
pub open spec fn default_drawing() -> Settings {
    Settings { transparent_color: 0, use_mask: true, inverted: false }
}

impl Default for Settings {
    fn default() -> (r: Self)
        ensures
            r.transparent_color == 0 && r.use_mask && !r.inverted,
            r == default_drawing(),
    {
        Settings { transparent_color: 0, use_mask: true, inverted: false }
    }
}

/// Where an entry was found in a library: index, name, start of its data
/// and the two lengths that follow its name.
pub struct EntryHit {
    pub idx: u8,
    pub id_start: int,
    pub id_len: int,
    pub start: int,
    pub len1: int,
    pub len2: int,
}

/// The image entries of a library from position `p` on: index, name
/// length, name, data length, mask length, data, mask.
pub open spec fn image_walk(d: Seq<u8>, p: int, ident: IdentView) -> Option<EntryHit>
    decreases d.len() - p,
{
    if p < 0 || s_avail(d, p) < 2 {
        None
    } else {
        let idx = d[p];
        let id_len = d[p + 1] as int;
        let q = p + 2;
        if s_avail(d, q) >= id_len {
            let r = q + id_len;
            if !(r < d.len()) || idx == 255 {
                None
            } else if s_avail(d, r) >= 4 {
                let il = le_u16(d[r], d[r + 1]);
                let r1 = r + 2;
                let ml = if s_avail(d, r1) > 2 { le_u16(d[r1], d[r1 + 1]) } else { 0 };
                let r2 = if s_avail(d, r1) > 2 { r1 + 2 } else { r1 };
                if s_avail(d, r2) > il + ml && ident_matches(ident, idx, d.subrange(q, r)) {
                    Some(EntryHit { idx, id_start: q, id_len, start: r2, len1: il, len2: ml })
                } else if r2 + il + ml > d.len() {
                    None
                } else {
                    image_walk(d, r2 + il + ml, ident)
                }
            } else {
                None
            }
        } else {
            image_walk(d, q, ident)
        }
    }
}

/// The first library from the last source down that holds the entry.
pub open spec fn image_lookup(libs: Seq<Seq<u8>>, i: int, ident: IdentView) -> Option<(int, EntryHit)>
    decreases i + 1,
{
    if i < 0 {
        None
    } else if libs[i].len() == 0 {
        image_lookup(libs, i - 1, ident)
    } else {
        match image_walk(libs[i], 0, ident) {
            Some(h) => Some((i, h)),
            None => image_lookup(libs, i - 1, ident),
        }
    }
}

/// The image that `get_image` returns for the libraries `libs`.
pub open spec fn image_result(libs: Seq<Seq<u8>>, ident: IdentView, r: Image) -> bool {
    match image_lookup(libs, LIBRARY_MAX - 1, ident) {
        Some((li, h)) => if h.len1 == 0 {
            r.is_dummy()
        } else {
            let d = libs[li];
            &&& r.source == li
            &&& r.id@ == stored_name(d.subrange(h.id_start, h.id_start + h.id_len))
            &&& r.data@ == d.subrange(h.start, h.start + h.len1)
            &&& if h.len2 == 0 {
                r.mask.is_none()
            } else {
                r.mask matches Some(m) && m@ == d.subrange(h.start + h.len1, h.start + h.len1 + h.len2)
            }
        },
        None => r.is_dummy(),
    }
}

/// The pixel data of the image `get_image` returns.
pub open spec fn image_data_spec(libs: Seq<Seq<u8>>, ident: IdentView) -> Seq<u8> {
    match image_lookup(libs, LIBRARY_MAX - 1, ident) {
        Some((li, h)) => if h.len1 == 0 {
            dummy_image()
        } else {
            libs[li].subrange(h.start, h.start + h.len1)
        },
        None => dummy_image(),
    }
}

/// The mask of the image `get_image` returns.
pub open spec fn image_mask_spec(libs: Seq<Seq<u8>>, ident: IdentView) -> Option<Seq<u8>> {
    match image_lookup(libs, LIBRARY_MAX - 1, ident) {
        Some((li, h)) => if h.len1 == 0 || h.len2 == 0 {
            None
        } else {
            Some(libs[li].subrange(h.start + h.len1, h.start + h.len1 + h.len2))
        },
        None => None,
    }
}

/// Looks for an image entry in one library.
fn find_image(d: &[u8], ident: &Identifier) -> (r: Option<(u8, usize, usize, usize, usize, usize)>)
    requires
        d@.len() <= LIB_LEN_MAX,
    ensures
        r matches Some(t) ==> image_walk(d@, 0, ident@) == Some(
            EntryHit { idx: t.0, id_start: t.1 as int, id_len: t.2 as int, start: t.3 as int, len1: t.4 as int, len2: t.5 as int },
        ),
        r is None ==> image_walk(d@, 0, ident@) is None,
        r matches Some(t) ==> t.3 + t.4 + t.5 <= d@.len() && t.1 + t.2 <= d@.len(),
{
    let mut reader = Stream::new(d);
    loop
        invariant
            d@.len() <= LIB_LEN_MAX,
            reader.data_view() == d@,
            0 <= reader.pos_view() <= d@.len(),
            image_walk(d@, reader.pos_view(), ident@) == image_walk(d@, 0, ident@),
        decreases d@.len() - reader.pos_view(),
    {
        if reader.available() >= 2 {
            let idx = reader.read_u8();
            let id_len = reader.read_u8() as usize;
            if reader.available() >= id_len {
                let q = reader.get_pos();
                let rr = q + id_len;
                reader.set_pos(rr);
                if reader.ok == false || idx == 255 {
                    return None;
                }
                if reader.available() >= IMAGELIB_HEADER_SIZE - 1 {
                    let image_length = reader.read_u16() as usize;
                    let mask_length = reader.read_u16() as usize;
                    if reader.available() > image_length + mask_length {
                        if matches_ident(ident, idx, &d[q..rr]) {
                            let pos = reader.get_pos();
                            return Some((idx, q, id_len, pos, image_length, mask_length));
                        }
                    }
                    let n = reader.get_pos() + image_length + mask_length;
                    if n > d.len() {
                        return None;
                    }
                    reader.set_pos(n);
                } else {
                    return None;
                }
            }
        } else {
            return None;
        }
    }
}

impl Media {
    /// The image `ident` names, looked up from the last source down; a
    /// missing or empty entry gives the dummy image.
    pub fn get_image(&self, ident: Identifier) -> (r: Image)
        requires
            self.wf(),
        ensures
            image_result(self.libs().images, ident@, r),
            r.data@ == image_data_spec(self.libs().images, ident@),
            r.mask is None <==> image_mask_spec(self.libs().images, ident@) is None,
            r.mask matches Some(m) ==> image_mask_spec(self.libs().images, ident@) == Some(m@),
    {
        let mut i: usize = LIBRARY_MAX as usize;
        while i > 0
            invariant
                self.wf(),
                i <= LIBRARY_MAX,
                image_lookup(self.libs().images, i - 1, ident@) == image_lookup(
                    self.libs().images,
                    LIBRARY_MAX - 1,
                    ident@,
                ),
            decreases i,
        {
            i -= 1;
            let lib = &self.images[i];
            if lib.data.len() != 0 {
                let d = lib.data.as_slice();
                assert(self.libs().images[i as int] == d@);
                match find_image(d, &ident) {
                    Some((idx, q, id_len, pos, image_length, mask_length)) => {
                        if image_length == 0 {
                            return Image::default();
                        }
                        return Image {
                            source: i as u8,
                            id: stored_name_of(&d[q..q + id_len]),
                            data: copy_range(d, pos, pos + image_length),
                            mask: if mask_length == 0 {
                                None
                            } else {
                                Some(copy_range(d, pos + image_length, pos + image_length + mask_length))
                            },
                        };
                    },
                    None => {},
                }
            } else {
                assert(self.libs().images[i as int].len() == 0);
            }
        }
        Image::default()
    }
}

} // verus!
