//! The layout of library entries, and rebuilding a library with one entry
//! replaced. An entry is its index, the length of its name, the name, then
//! one length (pages, programs, fonts, borders) or two (images: data and
//! mask) of 16 bits, low byte first, and that many bytes. A library ends with
//! the index 255.

use vstd::prelude::*;
use super::LIB_LEN_MAX;
use super::buffer::{bytes_contents, bytes_put_slice, bytes_put_u16_le, bytes_put_u8};
use crate::stream::le_u16;

verus! {

/// The two bytes of `v`, low byte first.
pub open spec fn le_bytes(v: u16) -> Seq<u8> {
    seq![(v % 256) as u8, (v / 256) as u8]
}

/// An entry with one length: index, name, payload.
pub open spec fn entry_one(index: u8, id: Seq<u8>, payload: Seq<u8>) -> Seq<u8> {
    seq![index, id.len() as u8] + id + le_bytes(payload.len() as u16) + payload
}

/// Where the entry at `pos` ends, past the end of `lib` where its header or
/// body does not fit.
pub open spec fn entry_end(lib: Seq<u8>, pos: int, two: bool) -> int {
    if pos + 1 >= lib.len() {
        (lib.len() + 1) as int
    } else {
        let il = lib[pos + 1] as int;
        let h = pos + 2 + il;
        if two {
            if h + 3 >= lib.len() {
                (lib.len() + 1) as int
            } else {
                h + 4 + le_u16(lib[h], lib[h + 1]) + le_u16(lib[h + 2], lib[h + 3])
            }
        } else {
            if h + 1 >= lib.len() {
                (lib.len() + 1) as int
            } else {
                h + 2 + le_u16(lib[h], lib[h + 1])
            }
        }
    }
}

/// The entries of `lib` from `pos` on, up to the end mark, without those of
/// index `index`.
pub open spec fn kept_entries(lib: Seq<u8>, pos: int, index: u8, two: bool) -> Seq<u8>
    decreases lib.len() - pos,
{
    if pos < 0 || pos >= lib.len() || lib[pos] == 255 || entry_end(lib, pos, two) > lib.len() {
        Seq::empty()
    } else {
        let e = entry_end(lib, pos, two);
        (if lib[pos] != index { lib.subrange(pos, e) } else { Seq::empty() }) + kept_entries(lib, e, index, two)
    }
}

/// The library `lib` with the entries of `index` replaced by `entry`, which
/// goes last.
pub open spec fn replaced_lib(lib: Seq<u8>, index: u8, two: bool, entry: Seq<u8>) -> Seq<u8> {
    kept_entries(lib, 0, index, two) + entry + seq![255u8]
}

/// An import library that was never started counts as an empty one.
pub open spec fn import_lib(lib: Option<Vec<u8>>) -> Seq<u8> {
    match lib {
        Some(v) => v@,
        None => seq![255u8],
    }
}

pub proof fn lemma_kept_len(lib: Seq<u8>, pos: int, index: u8, two: bool)
    requires
        0 <= pos,
    ensures
        kept_entries(lib, pos, index, two).len() <= if pos <= lib.len() { lib.len() - pos } else { 0 },
    decreases lib.len() - pos,
{
    if pos < 0 || pos >= lib.len() || lib[pos] == 255 || entry_end(lib, pos, two) > lib.len() {
    } else {
        let e = entry_end(lib, pos, two);
        lemma_kept_len(lib, e, index, two);
    }
}

/// Where the entry at `pos` ends, or `None` where it does not fit.
fn entry_end_of(lib: &[u8], pos: usize, two: bool) -> (r: Option<usize>)
    requires
        lib@.len() <= LIB_LEN_MAX,
        pos < lib@.len(),
    ensures
        match r {
            Some(e) => e == entry_end(lib@, pos as int, two) && pos < e <= lib@.len(),
            None => entry_end(lib@, pos as int, two) > lib@.len(),
        },
{
    if pos + 1 >= lib.len() {
        return None;
    }
    let h = pos + 2 + lib[pos + 1] as usize;
    if two {
        if h + 3 >= lib.len() {
            return None;
        }
        let e = h + 4 + (lib[h] as usize + lib[h + 1] as usize * 256) + (lib[h + 2] as usize + lib[h + 3] as usize * 256);
        if e > lib.len() { None } else { Some(e) }
    } else {
        if h + 1 >= lib.len() {
            return None;
        }
        let e = h + 2 + (lib[h] as usize + lib[h + 1] as usize * 256);
        if e > lib.len() { None } else { Some(e) }
    }
}

/// Appends to `out` the entries of `lib` but those of index `index`, up to
/// its end mark.
pub fn copy_kept_entries(out: &mut bytes::BytesMut, lib: &[u8], index: u8, two: bool)
    requires
        lib@.len() <= LIB_LEN_MAX,
        bytes_contents(*old(out)).len() <= LIB_LEN_MAX,
    ensures
        bytes_contents(*final(out)) == bytes_contents(*old(out)) + kept_entries(lib@, 0, index, two),
{
    let mut pos: usize = 0;
    proof {
        lemma_kept_len(lib@, 0, index, two);
    }
    while pos < lib.len()
        invariant
            lib@.len() <= LIB_LEN_MAX,
            pos <= lib@.len(),
            bytes_contents(*old(out)).len() <= LIB_LEN_MAX,
            bytes_contents(*out) + kept_entries(lib@, pos as int, index, two) == bytes_contents(*old(out))
                + kept_entries(lib@, 0, index, two),
            bytes_contents(*out).len() <= bytes_contents(*old(out)).len() + pos,
        decreases lib@.len() - pos,
    {
        if lib[pos] == 255 {
            assert(kept_entries(lib@, pos as int, index, two) =~= Seq::<u8>::empty());
            return;
        }
        match entry_end_of(lib, pos, two) {
            None => {
                assert(kept_entries(lib@, pos as int, index, two) =~= Seq::<u8>::empty());
                return;
            },
            Some(e) => {
                let ghost before = bytes_contents(*out);
                if lib[pos] != index {
                    bytes_put_slice(out, &lib[pos..e]);
                    assert(bytes_contents(*out) == before + lib@.subrange(pos as int, e as int));
                    assert(bytes_contents(*out) + kept_entries(lib@, e as int, index, two) =~= before
                        + kept_entries(lib@, pos as int, index, two));
                } else {
                    assert(kept_entries(lib@, pos as int, index, two) =~= kept_entries(lib@, e as int, index, two));
                }
                pos = e;
            },
        }
    }
    assert(kept_entries(lib@, pos as int, index, two) =~= Seq::<u8>::empty());
}

/// Appends an entry with one length: index, name, payload.
pub fn put_entry_one(out: &mut bytes::BytesMut, index: u8, id: &[u8], payload: &[u8])
    requires
        bytes_contents(*old(out)).len() + id@.len() + payload@.len() + 4 <= LIB_LEN_MAX * 4,
    ensures
        bytes_contents(*final(out)) == bytes_contents(*old(out)) + entry_one(index, id@, payload@),
{
    bytes_put_u8(out, index);
    bytes_put_u8(out, id.len() as u8);
    bytes_put_slice(out, id);
    bytes_put_u16_le(out, payload.len() as u16);
    bytes_put_slice(out, payload);
    assert(bytes_contents(*final(out)) =~= bytes_contents(*old(out)) + entry_one(index, id@, payload@));
}

/// The library `lib` with the entries of `index` replaced by `entry`.
pub fn rebuild_lib(lib: &[u8], index: u8, two: bool, entry: &[u8]) -> (r: Vec<u8>)
    requires
        lib@.len() + entry@.len() + 1 <= LIB_LEN_MAX,
    ensures
        r@ == replaced_lib(lib@, index, two, entry@),
        r@.len() <= lib@.len() + entry@.len() + 1,
{
    let mut out = super::buffer::bytes_new();
    copy_kept_entries(&mut out, lib, index, two);
    proof {
        lemma_kept_len(lib@, 0, index, two);
    }
    bytes_put_slice(&mut out, entry);
    bytes_put_u8(&mut out, 255);
    let r = super::buffer::bytes_to_vec(&out);
    assert(r@ =~= replaced_lib(lib@, index, two, entry@));
    r
}

/// The bytes of an import library, the empty library where there is none.
pub fn import_lib_bytes(lib: &Option<Vec<u8>>) -> (r: Vec<u8>)
    ensures
        r@ == import_lib(*lib),
{
    match lib {
        Some(v) => super::copy_all(v.as_slice()),
        None => {
            let r: Vec<u8> = vec![255u8];
            assert(r@ =~= seq![255u8]);
            r
        },
    }
}

} // verus!
