use vstd::prelude::*;

verus! {

/// A table document: opaque bytes for now, an extension point.
#[derive(Debug)]
pub struct Table {
    bytes: Vec<u8>,
}

impl View for Table {
    type V = Seq<u8>;

    closed spec fn view(&self) -> Seq<u8> {
        self.bytes@
    }
}

impl Table {
    /// A table over the given bytes.
    pub fn new(content: &[u8]) -> (r: Table)
        ensures
            r@ == content@,
    {
        Table { bytes: vstd::slice::slice_to_vec(content) }
    }

    /// The raw bytes.
    pub fn bytes(&self) -> (r: &Vec<u8>)
        ensures
            r@ == self@,
    {
        &self.bytes
    }
}

impl Default for Table {
    /// The empty table.
    fn default() -> (r: Table)
        ensures
            r@ == Seq::<u8>::empty(),
    {
        let r = Table { bytes: Vec::new() };
        proof {
            assert(r@ =~= Seq::<u8>::empty());
        }
        r
    }
}

} // verus!
