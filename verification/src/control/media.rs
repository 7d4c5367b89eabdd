//! The package loader of a surface: the bytes of a package sent over the
//! control protocol are kept in a buffer of fixed size and, once they are
//! all in, loaded into the surface's media as the third source.

use vstd::prelude::*;
use crate::control::LoaderRet;
use crate::media::{load_pkg_result, Media, Ret};

verus! {

/// The size of the package buffer.
pub const MEDIA_SIZE: usize = 8192;

/// The buffer that a package sent over the protocol is written into.
pub struct MediaPkg {
    data: Vec<u8>,
}

impl MediaPkg {
    /// The bytes of the buffer.
    pub closed spec fn bytes(&self) -> Seq<u8> {
        self.data@
    }

    /// The buffer always holds `MEDIA_SIZE` bytes.
    pub open spec fn wf(&self) -> bool {
        self.bytes().len() == MEDIA_SIZE
    }

    /// A buffer of zeros.
    pub fn new() -> (r: Self)
        ensures
            r.wf(),
            r.bytes() == Seq::new(MEDIA_SIZE as nat, |i: int| 0u8),
    {
        let mut data: Vec<u8> = Vec::new();
        while data.len() < MEDIA_SIZE
            invariant
                data@.len() <= MEDIA_SIZE,
                forall|i: int| 0 <= i < data@.len() ==> data@[i] == 0u8,
            decreases MEDIA_SIZE - data@.len(),
        {
            data.push(0);
        }
        let r = MediaPkg { data };
        assert(r.bytes() =~= Seq::new(MEDIA_SIZE as nat, |i: int| 0u8));
        r
    }

    /// How many bytes a package may have: the size of the buffer, whatever
    /// the announced length.
    pub fn process_loader_start(&self, _len: usize) -> (r: usize)
        ensures
            r == MEDIA_SIZE,
    {
        MEDIA_SIZE
    }

    /// Keeps the first byte of `buf` at `pos`; a position past the buffer
    /// is ignored.
    pub fn process_loader_data(&mut self, buf: &[u8], pos: usize)
        requires
            old(self).wf(),
            buf@.len() >= 1,
        ensures
            final(self).wf(),
            pos < MEDIA_SIZE ==> final(self).bytes() == old(self).bytes().update(pos as int, buf@[0]),
            pos >= MEDIA_SIZE ==> final(self).bytes() == old(self).bytes(),
    {
        if pos < self.data.len() {
            self.data.set(pos, buf[0]);
        }
    }

    /// Loads the whole buffer into `media` as source 2: `Success` where the
    /// package loads, `PKGFailed` otherwise.
    pub fn process_loader_end(&self, media: &mut Media) -> (r: LoaderRet)
        requires
            self.wf(),
            old(media).wf(),
        ensures
            final(media).wf(),
            final(media).libs() == load_pkg_result(self.bytes(), 2, old(media).libs()).0,
            (r == LoaderRet::Success) == (load_pkg_result(self.bytes(), 2, old(media).libs()).1 == Ret::Success),
            r == LoaderRet::Success || r == LoaderRet::PKGFailed,
            final(media).drawing == old(media).drawing,
            final(media).typesetting == old(media).typesetting,
    {
        let ret = media.load_pkg(self.data.as_slice(), 2);
        match ret {
            Ret::Success => LoaderRet::Success,
            _ => LoaderRet::PKGFailed,
        }
    }
}

} // verus!
