use vstd::prelude::*;
use crate::stream::{le_u16, Stream};
use super::{
    copy_range, ident_matches, matches_ident, s_avail, stored_name, stored_name_of, IdentView,
    Identifier, Media, LIBRARY_MAX, LIB_LEN_MAX,
};

verus! {

pub type NinePatchW = u8;
pub type NinePatchH = u8;

/// A border drawn from nine patches: the heights and widths of its north,
/// east, south and west bands, the repeat lengths along x and y, and the
/// pixel streams of the eight border pieces, clockwise from the north band.
pub struct NinePatch {
    pub source: u8,
    pub id: Vec<u8>,
    pub n_h: NinePatchH,
    pub e_w: NinePatchW,
    pub s_h: NinePatchH,
    pub w_w: NinePatchW,
    pub x_w: NinePatchW,
    pub y_h: NinePatchW,
    pub data: Vec<Vec<u8>>,
}

/// The pixel streams of the default border: a one pixel line.
pub open spec fn default_patch_data() -> Seq<Seq<u8>> {
    seq![
        seq![0u8, 0b01000000u8],
        seq![0u8, 0b10000000u8],
        seq![0u8, 0b10000000u8],
        seq![0u8, 0b10000000u8],
        seq![0u8, 0b10000000u8],
        seq![0u8, 0b10000000u8],
        seq![0u8, 0b01000000u8],
        seq![0u8, 0b10000000u8],
    ]
}

pub open spec fn patch_views(data: Seq<Vec<u8>>) -> Seq<Seq<u8>> {
    Seq::new(data.len(), |i: int| data[i]@)
}

impl NinePatch {
    pub open spec fn is_default(&self) -> bool {
        &&& self.source == 255
        &&& self.id@.len() == 0
        &&& self.n_h == 1 && self.e_w == 1 && self.s_h == 1 && self.w_w == 1
        &&& self.x_w == 2 && self.y_h == 2
        &&& patch_views(self.data@) == default_patch_data()
    }
}

fn two(a: u8, b: u8) -> (r: Vec<u8>)
    ensures
        r@ == seq![a, b],
{
    let r: Vec<u8> = vec![a, b];
    assert(r@ =~= seq![a, b]);
    r
}

impl Default for NinePatch {
    fn default() -> (r: Self)
        ensures
            r.is_default(),
    {
        let mut data: Vec<Vec<u8>> = Vec::new();
        data.push(two(0, 0b01000000));
        data.push(two(0, 0b10000000));
        data.push(two(0, 0b10000000));
        data.push(two(0, 0b10000000));
        data.push(two(0, 0b10000000));
        data.push(two(0, 0b10000000));
        data.push(two(0, 0b01000000));
        data.push(two(0, 0b10000000));
        assert(patch_views(data@) =~= default_patch_data());
        NinePatch { source: 255, id: Vec::new(), n_h: 1, e_w: 1, s_h: 1, w_w: 1, x_w: 2, y_h: 2, data }
    }
}

pub struct BorderHit {
    pub idx: u8,
    pub id_start: int,
    pub id_len: int,
    pub start: int,
    pub len: int,
}

/// The border entries of a library from `p` on: index, name length, name,
/// length, six sizes, eight piece lengths, the pieces.
pub open spec fn border_walk(d: Seq<u8>, p: int, ident: IdentView) -> Option<BorderHit>
    decreases d.len() - p,
{
    if p < 0 || s_avail(d, p) < 2 {
        None
    } else {
        let idx = d[p];
        let id_len = d[p + 1] as int;
        let q = p + 2;
        if s_avail(d, q) >= id_len {
            let r = q + id_len;
            if !(r < d.len()) || idx == 255 {
                None
            } else if s_avail(d, r) >= 16 {
                let bl = le_u16(d[r], d[r + 1]);
                let bp = r + 2;
                if s_avail(d, bp) >= bl {
                    if ident_matches(ident, idx, d.subrange(q, r)) {
                        Some(BorderHit { idx, id_start: q, id_len, start: bp, len: bl })
                    } else {
                        border_walk(d, bp + bl, ident)
                    }
                } else {
                    None
                }
            } else {
                None
            }
        } else {
            border_walk(d, q, ident)
        }
    }
}

pub open spec fn border_lookup(libs: Seq<Seq<u8>>, i: int, ident: IdentView) -> Option<(int, BorderHit)>
    decreases i + 1,
{
    if i < 0 {
        None
    } else if libs[i].len() == 0 {
        border_lookup(libs, i - 1, ident)
    } else {
        match border_walk(libs[i], 0, ident) {
            Some(h) => Some((i, h)),
            None => border_lookup(libs, i - 1, ident),
        }
    }
}

/// A border found in a library starts behind its entry's header.
pub(crate) proof fn lemma_border_walk_start(d: Seq<u8>, p: int, ident: IdentView)
    ensures
        border_walk(d, p, ident) matches Some(h) ==> h.start >= 0,
    decreases d.len() - p,
{
    if p >= 0 && s_avail(d, p) >= 2 {
        let id_len = d[p + 1] as int;
        let q = p + 2;
        let r = q + id_len;
        let bl = le_u16(d[r], d[r + 1]);
        let bp = r + 2;
        if s_avail(d, q) < id_len {
            lemma_border_walk_start(d, q, ident);
        } else if r < d.len() && d[p] != 255 && s_avail(d, r) >= 16 && s_avail(d, bp) >= bl {
            lemma_border_walk_start(d, bp + bl, ident);
        }
    }
}

/// A border found in the libraries up to `i` lies in one of them, behind
/// its entry's header.
pub(crate) proof fn lemma_border_lookup_start(libs: Seq<Seq<u8>>, i: int, ident: IdentView)
    ensures
        border_lookup(libs, i, ident) matches Some((li, h)) ==> 0 <= li <= i && h.start >= 0,
    decreases i + 1,
{
    if i >= 0 {
        lemma_border_walk_start(libs[i], 0, ident);
        lemma_border_lookup_start(libs, i - 1, ident);
    }
}

/// Offset of piece `i` behind the header of a border that starts at `bp`.
pub open spec fn piece_offset(d: Seq<u8>, bp: int, i: int) -> int
    decreases i,
{
    if i <= 0 {
        0
    } else {
        piece_offset(d, bp, i - 1) + d[bp + 6 + (i - 1)] as int
    }
}

/// The border that `get_border` returns for the libraries `libs`.
pub open spec fn border_result(libs: Seq<Seq<u8>>, ident: IdentView, r: NinePatch) -> bool {
    match border_lookup(libs, LIBRARY_MAX - 1, ident) {
        Some((li, h)) => {
            let d = libs[li];
            let bp = h.start;
            if d[bp] == 0 || d[bp + 1] == 0 || d[bp + 2] == 0 || d[bp + 3] == 0 || bp + 14
                + piece_offset(d, bp, 8) > d.len() {
                r.is_default()
            } else {
                &&& r.source == li
                &&& r.id@ == stored_name(d.subrange(h.id_start, h.id_start + h.id_len))
                &&& r.n_h == d[bp] && r.e_w == d[bp + 1] && r.s_h == d[bp + 2]
                &&& r.w_w == d[bp + 3] && r.x_w == d[bp + 4] && r.y_h == d[bp + 5]
                &&& r.data@.len() == 8
                &&& forall|i: int|
                    0 <= i < 8 ==> (#[trigger] r.data@[i])@ == d.subrange(
                        bp + 14 + piece_offset(d, bp, i),
                        bp + 14 + piece_offset(d, bp, i + 1),
                    )
            }
        },
        None => r.is_default(),
    }
}

/// What drawing reads of a nine patch border: band sizes, repeat lengths
/// and the eight pixel streams.
pub struct PatchView {
    pub n_h: u8,
    pub e_w: u8,
    pub s_h: u8,
    pub w_w: u8,
    pub x_w: u8,
    pub y_h: u8,
    pub data: Seq<Seq<u8>>,
}

/// The view of a nine patch border.
pub open spec fn patch_view(r: NinePatch) -> PatchView {
    PatchView { n_h: r.n_h, e_w: r.e_w, s_h: r.s_h, w_w: r.w_w, x_w: r.x_w, y_h: r.y_h, data: patch_views(r.data@) }
}

/// The border drawn where none is found: one pixel bands around a two pixel
/// middle.
pub open spec fn default_patch() -> PatchView {
    PatchView { n_h: 1, e_w: 1, s_h: 1, w_w: 1, x_w: 2, y_h: 2, data: default_patch_data() }
}

/// The view of the border that `get_border` finds for `ident` in `libs`.
pub open spec fn patch_of(libs: Seq<Seq<u8>>, ident: IdentView) -> PatchView {
    match border_lookup(libs, LIBRARY_MAX - 1, ident) {
        Some((li, h)) => {
            let d = libs[li];
            let bp = h.start;
            if d[bp] == 0 || d[bp + 1] == 0 || d[bp + 2] == 0 || d[bp + 3] == 0 || bp + 14
                + piece_offset(d, bp, 8) > d.len() {
                default_patch()
            } else {
                PatchView {
                    n_h: d[bp],
                    e_w: d[bp + 1],
                    s_h: d[bp + 2],
                    w_w: d[bp + 3],
                    x_w: d[bp + 4],
                    y_h: d[bp + 5],
                    data: Seq::new(
                        8,
                        |i: int| d.subrange(bp + 14 + piece_offset(d, bp, i), bp + 14 + piece_offset(d, bp, i + 1)),
                    ),
                }
            }
        },
        None => default_patch(),
    }
}

/// The border `border_result` describes has the view `patch_of`.
proof fn lemma_patch_of(libs: Seq<Seq<u8>>, ident: IdentView, r: NinePatch)
    requires
        border_result(libs, ident, r),
    ensures
        patch_view(r) == patch_of(libs, ident),
{
    match border_lookup(libs, LIBRARY_MAX - 1, ident) {
        Some((li, h)) => {
            let d = libs[li];
            let bp = h.start;
            if !(d[bp] == 0 || d[bp + 1] == 0 || d[bp + 2] == 0 || d[bp + 3] == 0 || bp + 14
                + piece_offset(d, bp, 8) > d.len()) {
                assert(patch_views(r.data@) =~= patch_of(libs, ident).data);
            }
        },
        None => {},
    }
}

fn find_border(d: &[u8], ident: &Identifier) -> (r: Option<(u8, usize, usize, usize, usize)>)
    requires
        d@.len() <= LIB_LEN_MAX,
    ensures
        r matches Some(t) ==> border_walk(d@, 0, ident@) == Some(
            BorderHit { idx: t.0, id_start: t.1 as int, id_len: t.2 as int, start: t.3 as int, len: t.4 as int },
        ),
        r is None ==> border_walk(d@, 0, ident@) is None,
        r matches Some(t) ==> t.3 + 14 <= d@.len() && t.1 + t.2 <= d@.len(),
{
    let mut reader = Stream::new(d);
    loop
        invariant
            d@.len() <= LIB_LEN_MAX,
            reader.data_view() == d@,
            0 <= reader.pos_view() <= d@.len(),
            border_walk(d@, reader.pos_view(), ident@) == border_walk(d@, 0, ident@),
        decreases d@.len() - reader.pos_view(),
    {
        if reader.available() >= 2 {
            let idx = reader.read_u8();
            let id_len = reader.read_u8() as usize;
            if reader.available() >= id_len {
                let q = reader.get_pos();
                let rr = q + id_len;
                reader.set_pos(rr);
                if reader.ok == false || idx == 255 {
                    return None;
                }
                if reader.available() >= 16 {
                    let border_len = reader.read_u16() as usize;
                    let border_pos = reader.get_pos();
                    if reader.available() >= border_len {
                        if matches_ident(ident, idx, &d[q..rr]) {
                            return Some((idx, q, id_len, border_pos, border_len));
                        }
                    } else {
                        return None;
                    }
                    reader.set_pos(border_pos + border_len);
                } else {
                    return None;
                }
            }
        } else {
            return None;
        }
    }
}

impl Media {
    /// The border `ident` names, looked up from the last source down; the
    /// default border where there is none, where one of its band sizes is
    /// zero, or where its pieces run past the library.
    pub fn get_border(&self, ident: Identifier) -> (r: NinePatch)
        requires
            self.wf(),
        ensures
            border_result(self.libs().borders, ident@, r),
            patch_view(r) == patch_of(self.libs().borders, ident@),
    {
        let r = self.find_border_patch(ident);
        proof {
            lemma_patch_of(self.libs().borders, ident@, r);
        }
        r
    }

    /// The nine patch border `ident` names (see `border_result`).
    fn find_border_patch(&self, ident: Identifier) -> (r: NinePatch)
        requires
            self.wf(),
        ensures
            border_result(self.libs().borders, ident@, r),
    {
        let mut i: usize = LIBRARY_MAX as usize;
        while i > 0
            invariant
                self.wf(),
                i <= LIBRARY_MAX,
                border_lookup(self.libs().borders, i - 1, ident@) == border_lookup(
                    self.libs().borders,
                    LIBRARY_MAX - 1,
                    ident@,
                ),
            decreases i,
        {
            i -= 1;
            let d = self.borders[i].data.as_slice();
            assert(self.libs().borders[i as int] == d@);
            if d.len() != 0 {
                match find_border(d, &ident) {
                    Some((idx, q, id_len, bp, len)) => {
                        if d[bp] == 0 || d[bp + 1] == 0 || d[bp + 2] == 0 || d[bp + 3] == 0 {
                            return NinePatch::default();
                        }
                        let ghost h = BorderHit { idx, id_start: q as int, id_len: id_len as int, start: bp as int, len: len as int };
                        assert(border_lookup(self.libs().borders, LIBRARY_MAX - 1, ident@) == Some((i as int, h)));
                        let mut data: Vec<Vec<u8>> = Vec::new();
                        let mut pos: usize = bp + 14;
                        let mut k: usize = 0;
                        while k < 8
                            invariant
                                d@.len() <= LIB_LEN_MAX,
                                border_lookup(self.libs().borders, LIBRARY_MAX - 1, ident@) == Some((i as int, h)),
                                self.libs().borders[i as int] == d@,
                                h.start == bp,
                                i < LIBRARY_MAX,
                                bp + 14 <= d@.len(),
                                k <= 8,
                                pos == bp + 14 + piece_offset(d@, bp as int, k as int),
                                piece_offset(d@, bp as int, k as int) <= 255 * k,
                                data@.len() == k,
                                forall|j: int|
                                    0 <= j < k ==> (#[trigger] data@[j])@ == d@.subrange(
                                        bp + 14 + piece_offset(d@, bp as int, j),
                                        bp + 14 + piece_offset(d@, bp as int, j + 1),
                                    ),
                                pos <= d@.len(),
                            decreases 8 - k,
                        {
                            let len_k = d[bp + 6 + k] as usize;
                            if len_k > d.len() - pos {
                                proof {
                                    assert(piece_offset(d@, bp as int, k + 1) == piece_offset(d@, bp as int, k as int) + len_k);
                                    lemma_piece_offset_mono(d@, bp as int, k as int + 1, 8);
                                }
                                return NinePatch::default();
                            }
                            data.push(copy_range(d, pos, pos + len_k));
                            pos += len_k;
                            k += 1;
                        }
                        return NinePatch {
                            source: i as u8,
                            id: stored_name_of(&d[q..q + id_len]),
                            n_h: d[bp],
                            e_w: d[bp + 1],
                            s_h: d[bp + 2],
                            w_w: d[bp + 3],
                            x_w: d[bp + 4],
                            y_h: d[bp + 5],
                            data,
                        };
                    },
                    None => {},
                }
            }
        }
        NinePatch::default()
    }
}

pub(crate) proof fn lemma_piece_offset_mono(d: Seq<u8>, bp: int, i: int, j: int)
    requires
        0 <= i <= j,
    ensures
        piece_offset(d, bp, i) <= piece_offset(d, bp, j),
    decreases j - i,
{
    if i < j {
        lemma_piece_offset_mono(d, bp, i, j - 1);
    }
}

} // verus!
