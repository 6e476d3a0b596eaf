//! The opaque terminal token stored at the leaves of a tree.

use crate::kind::SyntaxKind;
use vstd::prelude::*;

verus! {

/// A terminal token.  To this crate a token is a black box that knows its
/// own kind and the length of the text it covers; its text, if any, lives
/// with the tokenizer.
#[derive(Clone, Copy, PartialEq, Eq, Hash, Debug, Structural)]
pub struct GreenToken {
    pub kind: SyntaxKind,
    pub text_len: u32,
}

impl GreenToken {
    pub open spec fn spec_kind(self) -> SyntaxKind {
        self.kind
    }

    pub open spec fn spec_text_len(self) -> u32 {
        self.text_len
    }

    pub fn new(kind: SyntaxKind, text_len: u32) -> (t: GreenToken)
        ensures
            t.spec_kind() == kind,
            t.spec_text_len() == text_len,
    {
        GreenToken { kind, text_len }
    }

    /// Kind of this token.
    pub fn kind(&self) -> (k: SyntaxKind)
        ensures
            k == self.spec_kind(),
    {
        self.kind
    }

    /// Length of the text covered by this token.
    pub fn text_len(&self) -> (n: u32)
        ensures
            n == self.spec_text_len(),
    {
        self.text_len
    }
}

} // verus!
