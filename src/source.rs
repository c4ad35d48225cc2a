//! Where a piece of content comes from.
use crate::ids::Id;
use vstd::prelude::*;

verus! {

/// A content source: its id and the path it is read from.
pub struct Source {
    pub id: Id,
    pub path: String,
}

impl Source {
    pub fn new(id: Id, path: String) -> (r: Source)
        ensures
            r.id == id,
            r.path@ == path@,
    {
        Source { id, path }
    }
}

} // verus!
