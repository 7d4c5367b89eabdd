//! Building the program library of imported programs.

use vstd::prelude::*;
use vstd::string::StringSliceAdditionalSpecFns;
use super::{Library, Media, LIB_LEN_MAX};
use super::entries::{entry_one, import_lib, import_lib_bytes, put_entry_one, rebuild_lib, replaced_lib};
use super::buffer::bytes_contents;

verus! {

impl Media {
    /// Appends the program entry `index` named `id` to `dest`.
    pub fn insert_program(dest: &mut bytes::BytesMut, index: u8, id: &str, data: &[u8])
        requires
            bytes_contents(*old(dest)).len() + id.spec_bytes().len() + data@.len() + 4 <= LIB_LEN_MAX * 4,
        ensures
            bytes_contents(*final(dest)) == bytes_contents(*old(dest)) + entry_one(index, id.spec_bytes(), data@),
    {
        put_entry_one(dest, index, id.as_bytes(), data);
    }

    /// Starts the program library of imports afresh, where it was started.
    pub fn clear_programs(&mut self)
        requires
            old(self).wf(),
        ensures
            final(self).wf(),
            final(self).libs() == old(self).libs(),
            old(self).import_programs.is_some() ==> (final(self).import_programs matches Some(v) && v@ == seq![255u8]),
            old(self).import_programs.is_none() ==> final(self).import_programs.is_none(),
            final(self).import_images == old(self).import_images,
            final(self).import_fonts == old(self).import_fonts,
            final(self).import_borders == old(self).import_borders,
            final(self).import_pages == old(self).import_pages,
            final(self).drawing == old(self).drawing,
            final(self).typesetting == old(self).typesetting,
    {
        if self.import_programs.is_some() {
            let v: Vec<u8> = vec![255u8];
            assert(v@ =~= seq![255u8]);
            self.import_programs = Some(v);
        }
    }

    /// Drops the imported program `index`: an entry with no name and no data
    /// takes its place.
    pub fn remove_program(&mut self, index: u8)
        requires
            old(self).wf(),
            import_lib(old(self).import_programs).len() + 5 <= LIB_LEN_MAX,
        ensures
            final(self).wf(),
            final(self).import_programs matches Some(v) && v@ == replaced_lib(
                import_lib(old(self).import_programs),
                index,
                false,
                entry_one(index, Seq::empty(), Seq::empty()),
            ),
            final(self).libs().programs == old(self).libs().programs.update(2, final(self).import_programs->0@),
    {
        proof {
            reveal_strlit("");
        }
        self.import_program(index, "", &[]);
    }

    /// Adds the program `index` named `name` to the library of imports,
    /// replacing an earlier one of that index, and makes the library the
    /// third source of programs.
    pub fn import_program(&mut self, index: u8, name: &str, data: &[u8])
        requires
            old(self).wf(),
            import_lib(old(self).import_programs).len() + name.spec_bytes().len() + data@.len() + 5 <= LIB_LEN_MAX,
        ensures
            final(self).wf(),
            final(self).import_programs matches Some(v) && v@ == replaced_lib(
                import_lib(old(self).import_programs),
                index,
                false,
                entry_one(index, name.spec_bytes(), data@),
            ),
            final(self).libs().programs == old(self).libs().programs.update(2, final(self).import_programs->0@),
            final(self).libs().images == old(self).libs().images,
            final(self).libs().fonts == old(self).libs().fonts,
            final(self).libs().borders == old(self).libs().borders,
            final(self).libs().pages == old(self).libs().pages,
            final(self).import_images == old(self).import_images,
            final(self).import_fonts == old(self).import_fonts,
            final(self).import_borders == old(self).import_borders,
            final(self).import_pages == old(self).import_pages,
            final(self).drawing == old(self).drawing,
            final(self).typesetting == old(self).typesetting,
    {
        let lib = import_lib_bytes(&self.import_programs);
        let mut entry = super::buffer::bytes_new();
        put_entry_one(&mut entry, index, name.as_bytes(), data);
        let entry = super::buffer::bytes_to_vec(&entry);
        let lib2 = rebuild_lib(lib.as_slice(), index, false, entry.as_slice());
        self.programs.set(2, Library { data: super::copy_all(lib2.as_slice()) });
        self.import_programs = Some(lib2);
        proof {
            assert(self.libs().programs =~= old(self).libs().programs.update(2, self.import_programs->0@));
        }
    }
}

} // verus!
