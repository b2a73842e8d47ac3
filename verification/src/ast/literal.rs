//! The literal-bytes node payload.

use vstd::prelude::*;
use vstd::slice::slice_to_vec;

use crate::util::slice::NonEmpty;

verus! {

/// A non-empty run of literal bytes to match verbatim, in order.
#[derive(Debug, PartialEq, Eq, Hash)]
pub struct Lit {
    /// The bytes; at least one on a well-formed node.
    pub bytes: NonEmpty<u8>,
}

impl Lit {
    /// Deep-copy this payload: the copy holds the same bytes in the same
    /// order and shares no storage with the source.
    pub fn clone_into(&self) -> (r: Lit)
        ensures
            r.bytes@ == self.bytes@,
    {
        let bytes = slice_to_vec(self.bytes.as_slice());
        Lit { bytes: NonEmpty { inner: bytes } }
    }
}

} // verus!
