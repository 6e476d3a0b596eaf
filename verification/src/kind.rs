//! The grammar-kind tag attached to every node and token.

use vstd::prelude::*;

verus! {

/// A tag identifying what grammar construct or token category a node or
/// token represents.  The meaning of the numbering belongs to the grammar
/// layer; this crate only stores and compares tags.
#[derive(Clone, Copy, PartialEq, Eq, Hash, Debug, Structural)]
pub struct SyntaxKind(pub u16);

} // verus!
