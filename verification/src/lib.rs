//! An immutable, structurally shared syntax-tree node (a "green" node).
//!
//! A node stores a grammar-kind tag, the total length of the text it covers,
//! and an ordered sequence of children, each of which is either another node
//! or an opaque terminal token.  Nodes are held in reference-counted shared
//! allocations, so an edit rebuilds only the nodes along the edited path and
//! reuses every other subtree by reference.

pub mod element;
pub mod kind;
pub mod node;
pub mod store;
pub mod text;
pub mod token;

pub use element::{GreenElement, GreenElementRef, NodeOrToken};
pub use kind::SyntaxKind;
pub use node::{Children, GreenChild, GreenNode, GreenNodeHead};
pub use text::TextRange;
pub use token::GreenToken;
