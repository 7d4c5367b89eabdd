use vstd::prelude::*;

verus! {

/// The id of a node, as the bytes of its name.
pub struct Id {
    pub raw: Vec<u8>,
}

impl Default for Id {
    fn default() -> (r: Self)
        ensures
            r.raw@.len() == 0,
    {
        Id { raw: Vec::new() }
    }
}

} // verus!
