use vstd::prelude::*;

verus! {

/// The store's own metadata: where the notes directory lies.
#[derive(Debug)]
pub struct Metadata {
    pub notes_dir: String,
}

impl Metadata {
    /// Metadata over the given notes directory.
    pub fn new(notes_dir: String) -> (r: Metadata)
        ensures
            r.notes_dir@ == notes_dir@,
    {
        Metadata { notes_dir }
    }
}

impl Clone for Metadata {
    fn clone(&self) -> (r: Self)
        ensures
            r.notes_dir@ == self.notes_dir@,
    {
        Metadata { notes_dir: self.notes_dir.clone() }
    }
}

} // verus!
