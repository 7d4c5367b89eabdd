use vstd::prelude::*;
use super::page::{blob_lookup, lookup_blob};
use super::{copy_range, stored_name, stored_name_of, Media, LIBRARY_MAX};

verus! {

pub type ProgramIdx = u8;

/// A program for the virtual machine, as stored in a package.
pub struct Program {
    pub source: u8,
    pub id: Vec<u8>,
    pub data: Vec<u8>,
}

impl Program {
    pub open spec fn is_empty_program(&self) -> bool {
        self.source == 255 && self.id@.len() == 0 && self.data@.len() == 0
    }
}

impl Default for Program {
    fn default() -> (r: Self)
        ensures
            r.is_empty_program(),
    {
        Program { source: 255, id: Vec::new(), data: Vec::new() }
    }
}

impl Media {
    /// Program `program_idx`, looked up from the last source down; an empty
    /// program with source 255 where there is none.
    pub fn get_program(&self, program_idx: ProgramIdx) -> (r: Program)
        requires
            self.wf(),
        ensures
            match blob_lookup(self.libs().programs, LIBRARY_MAX - 1, program_idx) {
                Some((li, h)) => {
                    let d = self.libs().programs[li];
                    &&& r.source == li
                    &&& r.id@ == stored_name(d.subrange(h.id_start, h.id_start + h.id_len))
                    &&& r.data@ == d.subrange(h.start, h.start + h.len)
                },
                None => r.is_empty_program(),
            },
    {
        match lookup_blob(&self.programs, program_idx) {
            Some((li, q, id_len, pos, len)) => {
                let d = self.programs[li].data.as_slice();
                assert(self.libs().programs[li as int] == d@);
                Program {
                    source: li as u8,
                    id: stored_name_of(&d[q..q + id_len]),
                    data: copy_range(d, pos, pos + len),
                }
            },
            None => Program::default(),
        }
    }
}

} // verus!
