use vstd::prelude::*;
use crate::stream::{le_u16, Stream};
use super::{copy_range, s_avail, stored_name, stored_name_of, Media, LIBRARY_MAX, LIB_LEN_MAX};

verus! {

pub type PageIdx = u8;

/// A page: the binary form of a DOM.
pub struct Page {
    pub source: u8,
    pub id: Vec<u8>,
    pub content: Vec<u8>,
}

impl Page {
    pub open spec fn is_empty_page(&self) -> bool {
        self.source == 255 && self.id@.len() == 0 && self.content@.len() == 0
    }
}

impl Default for Page {
    fn default() -> (r: Self)
        ensures
            r.is_empty_page(),
    {
        Page { source: 255, id: Vec::new(), content: Vec::new() }
    }
}

/// The low nibble of a page instruction byte.
#[derive(PartialEq, Eq, Structural, Copy, Clone)]
pub enum PageInstruction {
    DOM,
    NodeContent,
    NodeDirection,
    NodeAlign,
    NodeWidth,
    NodeHeight,
    NodeVisible,
    NodeMargin,
    NodePadding,
    NodeBackground,
    NodeColor,
    NodeBorder,
    NodeFont,
    NodeFrame,
}

/// The high nibble of a `DOM` instruction.
#[derive(PartialEq, Eq, Structural, Copy, Clone)]
pub enum PageDOMInstruction {
    DocumentStart,
    DocumentEnd,
    NodeStart,
    NodeEnd,
}

/// Where an indexed entry (page or program) was found: the start and length
/// of its name and of its data.
pub struct BlobHit {
    pub id_start: int,
    pub id_len: int,
    pub start: int,
    pub len: int,
}

/// The entries of a page or program library from `p` on: index, name
/// length, name, data length, data.
pub open spec fn blob_walk(d: Seq<u8>, p: int, want: u8) -> Option<BlobHit>
    decreases d.len() - p,
{
    if p < 0 || s_avail(d, p) < 2 {
        None
    } else {
        let idx = d[p];
        let id_len = d[p + 1] as int;
        let q = p + 2;
        if s_avail(d, q) >= id_len {
            let r = q + id_len;
            if !(r < d.len()) || idx == 255 {
                None
            } else {
                let cl = if s_avail(d, r) > 2 { le_u16(d[r], d[r + 1]) } else { 0 };
                let r2 = if s_avail(d, r) > 2 { r + 2 } else { r };
                if s_avail(d, r2) >= cl && idx == want {
                    Some(BlobHit { id_start: q, id_len, start: r2, len: cl })
                } else if r2 + cl > d.len() {
                    None
                } else {
                    blob_walk(d, r2 + cl, want)
                }
            }
        } else {
            blob_walk(d, q, want)
        }
    }
}

pub open spec fn blob_lookup(libs: Seq<Seq<u8>>, i: int, want: u8) -> Option<(int, BlobHit)>
    decreases i + 1,
{
    if i < 0 {
        None
    } else if libs[i].len() == 0 {
        blob_lookup(libs, i - 1, want)
    } else {
        match blob_walk(libs[i], 0, want) {
            Some(h) => Some((i, h)),
            None => blob_lookup(libs, i - 1, want),
        }
    }
}

/// A lookup finds its entry in one of the libraries it searched.
pub proof fn lemma_blob_lookup_index(libs: Seq<Seq<u8>>, i: int, want: u8)
    ensures
        blob_lookup(libs, i, want) matches Some((li, _)) ==> 0 <= li <= i,
    decreases i + 1,
{
    if i >= 0 {
        lemma_blob_lookup_index(libs, i - 1, want);
    }
}

/// Looks for entry `want` in one page or program library.
pub fn find_blob(d: &[u8], want: u8) -> (r: Option<(usize, usize, usize, usize)>)
    requires
        d@.len() <= LIB_LEN_MAX,
    ensures
        r matches Some(t) ==> blob_walk(d@, 0, want) == Some(
            BlobHit { id_start: t.0 as int, id_len: t.1 as int, start: t.2 as int, len: t.3 as int },
        ),
        r is None ==> blob_walk(d@, 0, want) is None,
        r matches Some(t) ==> t.2 + t.3 <= d@.len() && t.0 + t.1 <= d@.len(),
{
    let mut reader = Stream::new(d);
    loop
        invariant
            d@.len() <= LIB_LEN_MAX,
            reader.data_view() == d@,
            0 <= reader.pos_view() <= d@.len(),
            blob_walk(d@, reader.pos_view(), want) == blob_walk(d@, 0, want),
        decreases d@.len() - reader.pos_view(),
    {
        if reader.available() >= 2 {
            let idx = reader.read_u8();
            let id_len = reader.read_u8() as usize;
            if reader.available() >= id_len {
                let q = reader.get_pos();
                reader.set_pos(q + id_len);
                if reader.ok == false || idx == 255 {
                    return None;
                }
                let content_len = reader.read_u16() as usize;
                if reader.available() >= content_len {
                    if idx == want {
                        return Some((q, id_len, reader.get_pos(), content_len));
                    }
                }
                let n = reader.get_pos() + content_len;
                if n > d.len() {
                    return None;
                }
                reader.set_pos(n);
            }
        } else {
            return None;
        }
    }
}

/// Looks for entry `want` in a set of libraries, from the last source down.
pub fn lookup_blob(libs: &Vec<super::Library>, want: u8) -> (r: Option<(usize, usize, usize, usize, usize)>)
    requires
        super::libs_wf(libs@),
    ensures
        r matches Some(t) ==> t.0 < LIBRARY_MAX && blob_lookup(super::lib_views(libs@), LIBRARY_MAX - 1, want)
            == Some((t.0 as int, BlobHit { id_start: t.1 as int, id_len: t.2 as int, start: t.3 as int, len: t.4 as int })),
        r matches Some(t) ==> t.3 + t.4 <= libs@[t.0 as int].data@.len() && t.1 + t.2 <= libs@[t.0 as int].data@.len(),
        r is None ==> blob_lookup(super::lib_views(libs@), LIBRARY_MAX - 1, want) is None,
{
    let mut i: usize = LIBRARY_MAX as usize;
    while i > 0
        invariant
            super::libs_wf(libs@),
            i <= LIBRARY_MAX,
            blob_lookup(super::lib_views(libs@), i - 1, want) == blob_lookup(
                super::lib_views(libs@),
                LIBRARY_MAX - 1,
                want,
            ),
        decreases i,
    {
        i -= 1;
        let d = libs[i].data.as_slice();
        assert(super::lib_views(libs@)[i as int] == d@);
        if d.len() != 0 {
            match find_blob(d, want) {
                Some((q, id_len, pos, len)) => {
                    return Some((i, q, id_len, pos, len));
                },
                None => {},
            }
        }
    }
    None
}

impl Media {
    /// Page `page_idx`, looked up from the last source down; an empty page
    /// with source 255 where there is none.
    pub fn get_page(&self, page_idx: PageIdx) -> (r: Page)
        requires
            self.wf(),
        ensures
            match blob_lookup(self.libs().pages, LIBRARY_MAX - 1, page_idx) {
                Some((li, h)) => {
                    let d = self.libs().pages[li];
                    &&& r.source == li
                    &&& r.id@ == stored_name(d.subrange(h.id_start, h.id_start + h.id_len))
                    &&& r.content@ == d.subrange(h.start, h.start + h.len)
                },
                None => r.is_empty_page(),
            },
    {
        match lookup_blob(&self.pages, page_idx) {
            Some((li, q, id_len, pos, len)) => {
                let d = self.pages[li].data.as_slice();
                assert(self.libs().pages[li as int] == d@);
                Page {
                    source: li as u8,
                    id: stored_name_of(&d[q..q + id_len]),
                    content: copy_range(d, pos, pos + len),
                }
            },
            None => Page::default(),
        }
    }
}

} // verus!
