//! A child element: either a node or a token.

use crate::node::GreenNode;
use crate::token::GreenToken;
use vstd::prelude::*;

verus! {

/// A value that is either an inner node or a terminal token.
#[derive(Clone, PartialEq, Eq, Hash, Debug)]
pub enum NodeOrToken<N, T> {
    Node(N),
    Token(T),
}

/// An owned child element of a node.
pub type GreenElement = NodeOrToken<GreenNode, GreenToken>;

/// A borrowed child element, as handed out by the children view and by
/// range lookup.
pub type GreenElementRef<'a> = NodeOrToken<&'a GreenNode, &'a GreenToken>;

/// The owned element that a borrowed element refers to.
pub open spec fn deref_elem(r: NodeOrToken<&GreenNode, &GreenToken>) -> GreenElement {
    match r {
        NodeOrToken::Node(n) => NodeOrToken::Node(*n),
        NodeOrToken::Token(t) => NodeOrToken::Token(*t),
    }
}

/// Length of the text covered by an element.
pub open spec fn spec_elem_len(e: GreenElement) -> u32 {
    match e {
        NodeOrToken::Node(n) => n.spec_text_len(),
        NodeOrToken::Token(t) => t.spec_text_len(),
    }
}

impl NodeOrToken<GreenNode, GreenToken> {
    /// Length of the text covered by this element.
    pub fn text_len(&self) -> (n: u32)
        ensures
            n == spec_elem_len(*self),
    {
        match self {
            NodeOrToken::Node(n) => n.text_len(),
            NodeOrToken::Token(t) => t.text_len(),
        }
    }

    /// Borrows this element.
    pub fn as_ref<'a>(&'a self) -> (r: GreenElementRef<'a>)
        ensures
            deref_elem(r) == *self,
    {
        match self {
            NodeOrToken::Node(n) => NodeOrToken::Node(n),
            NodeOrToken::Token(t) => NodeOrToken::Token(t),
        }
    }
}

impl<'a> NodeOrToken<&'a GreenNode, &'a GreenToken> {
    /// Length of the text covered by the element referred to.
    pub fn text_len(&self) -> (n: u32)
        ensures
            n == spec_elem_len(deref_elem(*self)),
    {
        match self {
            NodeOrToken::Node(n) => n.text_len(),
            NodeOrToken::Token(t) => t.text_len(),
        }
    }

    /// An owned copy of the element referred to.  A node is copied by
    /// sharing its allocation, never by copying its subtree.
    pub fn cloned(&self) -> (r: GreenElement)
        ensures
            r == deref_elem(*self),
    {
        match self {
            NodeOrToken::Node(n) => NodeOrToken::Node((*n).clone()),
            NodeOrToken::Token(t) => NodeOrToken::Token(**t),
        }
    }
}

} // verus!
