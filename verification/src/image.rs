use vstd::prelude::*;

verus! {

/// An image document: opaque bytes carried through unchanged.
#[derive(Debug)]
pub struct Image {
    bytes: Vec<u8>,
}

impl View for Image {
    type V = Seq<u8>;

    closed spec fn view(&self) -> Seq<u8> {
        self.bytes@
    }
}

impl Image {
    /// An image over the given bytes.
    pub fn new(content: &[u8]) -> (r: Image)
        ensures
            r@ == content@,
    {
        Image { bytes: vstd::slice::slice_to_vec(content) }
    }

    /// The raw bytes.
    pub fn bytes(&self) -> (r: &Vec<u8>)
        ensures
            r@ == self@,
    {
        &self.bytes
    }
}

impl Default for Image {
    /// The empty image.
    fn default() -> (r: Image)
        ensures
            r@ == Seq::<u8>::empty(),
    {
        let r = Image { bytes: Vec::new() };
        proof {
            assert(r@ =~= Seq::<u8>::empty());
        }
        r
    }
}

} // verus!
