//! Spans of text.

use vstd::prelude::*;

verus! {

/// A borrowed span of bytes of the tree.
#[derive(Clone, Copy, Debug)]
pub struct RBSString<'a> {
    bytes: &'a [u8],
}

impl<'a> View for RBSString<'a> {
    type V = Seq<u8>;

    closed spec fn view(&self) -> Seq<u8> {
        self.bytes@
    }
}

impl<'a> RBSString<'a> {
    /// A view of `bytes`.
    #[must_use]
    pub fn new(bytes: &'a [u8]) -> (s: Self)
        ensures
            s@ == bytes@,
    {
        Self { bytes }
    }

    /// The bytes of the span, not copied.
    #[must_use]
    pub fn as_bytes(&self) -> (bytes: &'a [u8])
        ensures
            bytes@ == self@,
    {
        self.bytes
    }
}

} // verus!
