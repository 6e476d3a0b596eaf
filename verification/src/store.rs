//! The shared header-and-children allocation behind every node.
//!
//! This module is the crate's trusted boundary.  A node's header and child
//! slots live in one reference-counted `triomphe::ThinArc` allocation that
//! Verus cannot look into, so two spec functions name what such an
//! allocation holds, and each small wrapper below states what one triomphe
//! call does in terms of those names.  Everything outside this module is
//! verified against these contracts.

use crate::node::{GreenChild, GreenNodeHead};
use vstd::prelude::*;

verus! {

/// A shared, immutable allocation holding one header and an ordered slice
/// of child slots.  Clones share the allocation (a reference-count bump),
/// and the allocation is freed when the last clone is dropped.
#[verifier::external_body]
#[derive(PartialEq, Eq, Hash, Debug)]
pub struct NodeRepr {
    data: triomphe::ThinArc<GreenNodeHead, GreenChild>,
}

/// The header that the allocation of `r` was built with.
pub uninterp spec fn stored_head(r: NodeRepr) -> GreenNodeHead;

/// The ordered child slots that the allocation of `r` holds.
pub uninterp spec fn stored_children(r: NodeRepr) -> Seq<GreenChild>;

/// Relies on `triomphe::ThinArc::from_header_and_iter`: builds one shared
/// allocation holding exactly the given header and the iterator's items,
/// in order.
#[verifier::external_body]
pub(crate) fn repr_new(head: GreenNodeHead, children: Vec<GreenChild>) -> (r: NodeRepr)
    ensures
        stored_head(r) == head,
        stored_children(r) == children@,
{
    NodeRepr { data: triomphe::ThinArc::from_header_and_iter(head, children.into_iter()) }
}

/// Relies on `triomphe::ThinArc`'s deref to its header-and-slice layout:
/// returns the stored header.
#[verifier::external_body]
pub(crate) fn repr_head(r: &NodeRepr) -> (h: GreenNodeHead)
    ensures
        h == stored_head(*r),
{
    r.data.header.header
}

/// Relies on `triomphe::ThinArc`'s deref to its header-and-slice layout:
/// the stored slice has one entry per item the allocation was built from.
#[verifier::external_body]
pub(crate) fn repr_len(r: &NodeRepr) -> (n: usize)
    ensures
        n == stored_children(*r).len(),
{
    r.data.slice.len()
}

/// Relies on `triomphe::ThinArc`'s deref to its header-and-slice layout:
/// returns the stored child slot at index `i`.
#[verifier::external_body]
pub(crate) fn repr_child<'a>(r: &'a NodeRepr, i: usize) -> (c: &'a GreenChild)
    requires
        i < stored_children(*r).len(),
    ensures
        *c == stored_children(*r)[i as int],
{
    &r.data.slice[i]
}

/// Relies on `triomphe::ThinArc`'s `PartialEq`: it compares the stored
/// headers and the stored slices element for element, so allocations that
/// hold equal contents compare equal, and equal comparison implies equal
/// headers.  (The converse of the first clause cannot be stated: two
/// distinct allocations may hold children that are structurally equal
/// without being the same values.)
#[verifier::external_body]
pub(crate) fn repr_eq(a: &NodeRepr, b: &NodeRepr) -> (r: bool)
    ensures
        stored_head(*a) == stored_head(*b) && stored_children(*a) == stored_children(*b) ==> r,
        r ==> stored_head(*a) == stored_head(*b),
{
    a.data == b.data
}

/// Relies on `triomphe::ThinArc::heap_ptr`: returns the address of the
/// allocation.  Nothing is promised of the value; distinct live
/// allocations have distinct addresses, but no contract here depends on
/// that.
#[verifier::external_body]
pub(crate) fn repr_addr(r: &NodeRepr) -> usize {
    r.data.heap_ptr() as usize
}

impl Clone for NodeRepr {
    /// Relies on `triomphe::ThinArc::clone`: bumps the reference count and
    /// returns a handle to the very same allocation.
    #[verifier::external_body]
    fn clone(&self) -> (res: Self)
        ensures
            res == *self,
    {
        NodeRepr { data: self.data.clone() }
    }
}

} // verus!
