//! The green node: kind, total text length, and child slots.

use crate::element::{deref_elem, spec_elem_len, GreenElement, GreenElementRef, NodeOrToken};
use crate::kind::SyntaxKind;
use crate::store;
use crate::store::{stored_children, stored_head, NodeRepr};
use crate::text::TextRange;
use crate::token::GreenToken;
use vstd::prelude::*;

verus! {

/// The immutable header of a node: its kind and the total length of the
/// text it covers.
#[derive(Clone, Copy, PartialEq, Eq, Hash, Debug, Structural)]
pub struct GreenNodeHead {
    pub kind: SyntaxKind,
    pub text_len: u32,
}

/// One child slot of a node: a child element together with the child's
/// offset relative to the parent's own start.
#[derive(Clone, PartialEq, Eq, Hash, Debug)]
pub enum GreenChild {
    Node { offset_in_parent: u32, node: GreenNode },
    Token { offset_in_parent: u32, token: GreenToken },
}

/// An internal node of the immutable tree.  It holds, through one shared
/// allocation, a header and an ordered sequence of child slots; see
/// [`GreenNode::wf`] for the offset and length bookkeeping that every
/// node keeps.
#[derive(PartialEq, Eq, Hash, Debug)]
pub struct GreenNode {
    repr: NodeRepr,
}

impl GreenChild {
    /// The child's offset relative to its parent's start.
    pub open spec fn spec_offset(self) -> u32 {
        match self {
            GreenChild::Node { offset_in_parent, .. } => offset_in_parent,
            GreenChild::Token { offset_in_parent, .. } => offset_in_parent,
        }
    }

    /// The element stored in this slot, without its offset.
    pub open spec fn elem(self) -> GreenElement {
        match self {
            GreenChild::Node { node, .. } => NodeOrToken::Node(node),
            GreenChild::Token { token, .. } => NodeOrToken::Token(token),
        }
    }

    /// Length of the text covered by this child.
    pub open spec fn spec_len(self) -> u32 {
        spec_elem_len(self.elem())
    }

    /// One past the last text offset covered by this child, relative to
    /// the parent's start.
    pub open spec fn spec_end(self) -> int {
        self.spec_offset() + self.spec_len()
    }

    /// The child's offset relative to its parent's start.
    pub fn offset_in_parent(&self) -> (off: u32)
        ensures
            off == self.spec_offset(),
    {
        match self {
            GreenChild::Node { offset_in_parent, .. } => *offset_in_parent,
            GreenChild::Token { offset_in_parent, .. } => *offset_in_parent,
        }
    }

    /// Borrows the element stored in this slot.
    pub fn as_ref<'a>(&'a self) -> (r: GreenElementRef<'a>)
        ensures
            deref_elem(r) == self.elem(),
    {
        match self {
            GreenChild::Node { node, .. } => NodeOrToken::Node(node),
            GreenChild::Token { token, .. } => NodeOrToken::Token(token),
        }
    }

    /// The range this child covers, relative to its parent's start.
    pub fn range_in_parent(&self) -> (r: TextRange)
        requires
            self.spec_end() <= u32::MAX,
        ensures
            r.start == self.spec_offset(),
            r.end == self.spec_end(),
            r.wf(),
    {
        let len = self.as_ref().text_len();
        TextRange::at(self.offset_in_parent(), len)
    }
}

/// Total length of the first `n` elements of `s`.
pub open spec fn sum_elem_lens(s: Seq<GreenElement>, n: int) -> int
    decreases n,
{
    if n <= 0 {
        0
    } else {
        sum_elem_lens(s, n - 1) + spec_elem_len(s[n - 1])
    }
}

/// The elements held by a sequence of child slots, offsets dropped.
pub open spec fn child_elems(c: Seq<GreenChild>) -> Seq<GreenElement> {
    c.map_values(|ch: GreenChild| ch.elem())
}

/// Total length of the first `n` child slots of `c`.
pub open spec fn sum_child_lens(c: Seq<GreenChild>, n: int) -> int
    decreases n,
{
    if n <= 0 {
        0
    } else {
        sum_child_lens(c, n - 1) + c[n - 1].spec_len()
    }
}

/// Prefix sums of element lengths never decrease.
pub proof fn lemma_sum_elem_mono(s: Seq<GreenElement>, i: int, j: int)
    requires
        0 <= i <= j,
    ensures
        sum_elem_lens(s, i) <= sum_elem_lens(s, j),
    decreases j,
{
    if i < j {
        lemma_sum_elem_mono(s, i, j - 1);
    }
}

/// Prefix sums of child lengths never decrease.
pub proof fn lemma_sum_child_mono(c: Seq<GreenChild>, i: int, j: int)
    requires
        0 <= i <= j,
    ensures
        sum_child_lens(c, i) <= sum_child_lens(c, j),
    decreases j,
{
    if i < j {
        lemma_sum_child_mono(c, i, j - 1);
    }
}

/// Children are contiguous and in order: each child starts exactly where
/// the text of the children before it ends.
pub open spec fn offsets_consistent(c: Seq<GreenChild>) -> bool {
    forall|i: int| 0 <= i < c.len() ==> (#[trigger] c[i]).spec_offset() == sum_child_lens(c, i)
}

/// Child `i` of `c` wholly contains the query range `q`.
pub open spec fn child_contains(c: Seq<GreenChild>, i: int, q: TextRange) -> bool {
    &&& 0 <= i < c.len()
    &&& c[i].spec_offset() <= q.start
    &&& q.end <= c[i].spec_end()
}

/// `f` is the index of the first child that ends strictly after offset
/// `p`, or `c.len()` when no child does.
pub open spec fn is_first_ending_after(c: Seq<GreenChild>, p: int, f: int) -> bool {
    &&& 0 <= f <= c.len()
    &&& forall|j: int| 0 <= j < f ==> (#[trigger] c[j]).spec_end() <= p
    &&& f < c.len() ==> c[f].spec_end() > p
}

/// The slot that range lookup resolves to: the first child ending after
/// the query's start, unless the query ends at or before that child
/// begins, in which case the slot just before it (clamped to 0).  For an
/// empty query sitting exactly on a child boundary this attaches the
/// query to the preceding child.
pub open spec fn resolved_slot(c: Seq<GreenChild>, q: TextRange, f: int) -> int {
    if f < c.len() && q.end > c[f].spec_offset() {
        f
    } else if f == 0 {
        0
    } else {
        f - 1
    }
}

/// Under consistent offsets, child `j` ends exactly at the prefix sum of
/// the first `j + 1` children.
proof fn lemma_end_eq_sum(c: Seq<GreenChild>, j: int)
    requires
        offsets_consistent(c),
        0 <= j < c.len(),
    ensures
        c[j].spec_end() == sum_child_lens(c, j + 1),
{
    assert(sum_child_lens(c, j + 1) == sum_child_lens(c, j) + c[j].spec_len());
}

/// Under consistent offsets, an earlier child ends no later than a later
/// child starts, and every child's end is monotone in its index.
proof fn lemma_child_order(c: Seq<GreenChild>, a: int, b: int)
    requires
        offsets_consistent(c),
        0 <= a <= b < c.len(),
    ensures
        c[a].spec_end() <= c[b].spec_end(),
        a < b ==> c[a].spec_end() <= c[b].spec_offset(),
{
    lemma_end_eq_sum(c, a);
    lemma_end_eq_sum(c, b);
    lemma_sum_child_mono(c, a + 1, b + 1);
    if a < b {
        lemma_sum_child_mono(c, a + 1, b);
    }
}

/// If any child wholly contains the query, then so does the slot that the
/// lookup resolves to.
proof fn lemma_contains_resolved(c: Seq<GreenChild>, q: TextRange, f: int, i: int)
    requires
        offsets_consistent(c),
        q.wf(),
        is_first_ending_after(c, q.start as int, f),
        child_contains(c, i, q),
    ensures
        child_contains(c, resolved_slot(c, q, f), q),
{
    let r = resolved_slot(c, q, f);
    if c[i].spec_end() > q.start {
        // `i` itself is the first child ending after the query's start:
        // everything before `i` ends where `i` starts, at or before it.
        assert forall|j: int| 0 <= j < i implies (#[trigger] c[j]).spec_end() <= q.start by {
            lemma_child_order(c, j, i);
        }
        assert(f == i);
        if q.end > c[i].spec_offset() {
            assert(r == i);
        } else {
            // The query is empty and sits exactly on the left edge of
            // child `i`; the lookup attaches it to the preceding child,
            // which ends there.
            assert(q.start == q.end);
            assert(c[i].spec_offset() == q.start);
            if i == 0 {
                assert(r == 0);
            } else {
                assert(r == i - 1);
                lemma_child_order(c, i - 1, i);
                lemma_end_eq_sum(c, i - 1);
                assert(c[i - 1].spec_end() <= c[i].spec_offset());
                assert(c[i - 1].spec_end() >= c[i - 1].spec_offset());
                // Child i-1 ends exactly where child i starts, which is
                // the query point, so it contains the empty query.
                assert(sum_child_lens(c, i) == c[i].spec_offset());
                assert(c[i - 1].spec_end() == sum_child_lens(c, i));
                assert(child_contains(c, r, q));
            }
        }
    } else {
        // Child `i` ends exactly at the query's start, so the query is
        // empty and `f` lies beyond `i`; the slot just before `f` also
        // ends exactly there and contains the empty query.
        assert(q.start == q.end);
        assert(c[i].spec_end() == q.start);
        assert(f > i) by {
            if f <= i {
                lemma_child_order(c, f, i);
            }
        }
        if f < c.len() {
            lemma_child_order(c, i, f);
        }
        assert(r == f - 1);
        lemma_child_order(c, i, f - 1);
        assert(c[f - 1].spec_end() >= c[i].spec_end());
        assert(c[f - 1].spec_end() <= q.start);
        assert(child_contains(c, r, q));
    }
}

/// When the first `n` slots of `c` hold exactly the first `n` elements of
/// `s`, their length sums agree.
pub proof fn lemma_sums_match(c: Seq<GreenChild>, s: Seq<GreenElement>, n: int)
    requires
        forall|j: int| 0 <= j < n ==> (#[trigger] c[j]).elem() == s[j],
    ensures
        sum_child_lens(c, n) == sum_elem_lens(s, n),
    decreases n,
{
    if n > 0 {
        lemma_sums_match(c, s, n - 1);
        assert(c[n - 1].spec_len() == spec_elem_len(s[n - 1]));
    }
}

impl GreenNode {
    /// Kind of this node, at the spec level.
    pub closed spec fn spec_kind(self) -> SyntaxKind {
        stored_head(self.repr).kind
    }

    /// Total text length of this node, at the spec level.
    pub closed spec fn spec_text_len(self) -> u32 {
        stored_head(self.repr).text_len
    }

    /// The ordered child slots of this node, at the spec level.
    pub closed spec fn spec_children(self) -> Seq<GreenChild> {
        stored_children(self.repr)
    }

    /// The bookkeeping every node keeps: child 0 starts at offset 0, each
    /// further child starts where the previous one ended, and the header's
    /// total length is the sum of all the children's lengths.
    pub open spec fn wf(self) -> bool {
        let c = self.spec_children();
        &&& forall|i: int|
            0 <= i < c.len() ==> (#[trigger] c[i]).spec_offset() == sum_child_lens(c, i)
        &&& self.spec_text_len() == sum_child_lens(c, c.len() as int)
    }

    /// Creates a new node of the given kind from an exactly sized sequence
    /// of child elements, recording for each child its offset relative to
    /// the node's start.
    pub fn new(kind: SyntaxKind, children: Vec<GreenElement>) -> (n: GreenNode)
        requires
            sum_elem_lens(children@, children@.len() as int) <= u32::MAX,
        ensures
            n.wf(),
            n.spec_kind() == kind,
            n.spec_children().len() == children@.len(),
            forall|i: int|
                0 <= i < children@.len() ==> (#[trigger] n.spec_children()[i]).elem()
                    == children@[i],
            forall|i: int|
                0 <= i < children@.len() ==> (#[trigger] n.spec_children()[i]).spec_offset()
                    == sum_elem_lens(children@, i),
            n.spec_text_len() == sum_elem_lens(children@, children@.len() as int),
    {
        let count = children.len();
        let mut slots: Vec<GreenChild> = Vec::new();
        let mut text_len: u32 = 0;
        let mut i: usize = 0;
        while i < count
            invariant
                count == children@.len(),
                i <= count,
                slots@.len() == i as int,
                text_len == sum_elem_lens(children@, i as int),
                sum_elem_lens(children@, count as int) <= u32::MAX,
                forall|j: int| 0 <= j < i ==> (#[trigger] slots@[j]).elem() == children@[j],
                forall|j: int|
                    0 <= j < i ==> (#[trigger] slots@[j]).spec_offset()
                        == sum_elem_lens(children@, j),
            decreases count - i,
        {
            let el = children[i].as_ref().cloned();
            let len = el.text_len();
            proof {
                lemma_sum_elem_mono(children@, i as int + 1, count as int);
            }
            let slot = match el {
                NodeOrToken::Node(node) => GreenChild::Node { offset_in_parent: text_len, node },
                NodeOrToken::Token(token) => GreenChild::Token {
                    offset_in_parent: text_len,
                    token,
                },
            };
            slots.push(slot);
            text_len = text_len + len;
            i = i + 1;
        }
        let node = GreenNode { repr: store::repr_new(GreenNodeHead { kind, text_len }, slots) };
        proof {
            let c = node.spec_children();
            let s = children@;
            assert forall|k: int| 0 <= k < c.len() implies (#[trigger] c[k]).spec_offset()
                == sum_child_lens(c, k) by {
                lemma_sums_match(c, s, k);
            }
            lemma_sums_match(c, s, c.len() as int);
        }
        node
    }

    /// Kind of this node.
    pub fn kind(&self) -> (k: SyntaxKind)
        ensures
            k == self.spec_kind(),
    {
        store::repr_head(&self.repr).kind
    }

    /// Returns the length of the text covered by this node.
    pub fn text_len(&self) -> (n: u32)
        ensures
            n == self.spec_text_len(),
    {
        store::repr_head(&self.repr).text_len
    }

    /// Finds the unique child that wholly contains `range`, a text range
    /// relative to this node's own start.
    ///
    /// Returns the child's index, its offset in this node, and the child
    /// element itself; or `None` when no child wholly contains the range
    /// (the range straddles a child boundary or lies outside this node).
    /// An empty range sitting exactly on a child boundary is attached to
    /// the preceding child.
    #[verifier::rlimit(50)]
    pub fn child_at_range<'a>(&'a self, range: TextRange) -> (r: Option<
        (usize, u32, GreenElementRef<'a>),
    >)
        requires
            self.wf(),
            range.wf(),
        ensures
            match r {
                Some(found) => {
                    let c = self.spec_children();
                    let (idx, off, el) = found;
                    &&& child_contains(c, idx as int, range)
                    &&& off == c[idx as int].spec_offset()
                    &&& deref_elem(el) == c[idx as int].elem()
                    &&& !range.is_empty() ==> forall|j: int|
                        child_contains(c, j, range) ==> j == idx as int
                    &&& forall|f: int|
                        is_first_ending_after(c, range.start as int, f) ==> idx as int
                            == resolved_slot(c, range, f)
                },
                None => forall|j: int| !child_contains(self.spec_children(), j, range),
            },
    {
        let ghost c = self.spec_children();
        let count = store::repr_len(&self.repr);
        let mut lo: usize = 0;
        let mut hi: usize = count;
        // Find the first child that ends strictly after the query's start.
        while lo < hi
            invariant
                self.wf(),
                c == self.spec_children(),
                count == c.len(),
                lo <= hi <= count,
                forall|j: int| 0 <= j < lo ==> (#[trigger] c[j]).spec_end() <= range.start,
                forall|j: int| hi <= j < count ==> (#[trigger] c[j]).spec_end() > range.start,
            decreases hi - lo,
        {
            let mid = lo + (hi - lo) / 2;
            let child = store::repr_child(&self.repr, mid);
            proof {
                lemma_end_eq_sum(c, mid as int);
                lemma_sum_child_mono(c, mid as int + 1, count as int);
            }
            let child_end = child.offset_in_parent() + child.as_ref().text_len();
            if child_end <= range.start() {
                proof {
                    assert forall|j: int| 0 <= j <= mid implies (#[trigger] c[j]).spec_end()
                        <= range.start by {
                        lemma_child_order(c, j, mid as int);
                    }
                }
                lo = mid + 1;
            } else {
                proof {
                    assert forall|j: int| mid <= j < count implies (#[trigger] c[j]).spec_end()
                        > range.start by {
                        lemma_child_order(c, mid as int, j);
                    }
                }
                hi = mid;
            }
        }
        let first_after = lo;
        proof {
            assert(is_first_ending_after(c, range.start as int, first_after as int));
        }
        // Resolve to that child, unless the query ends at or before its
        // start; then take the slot just before it, clamped to index 0.
        let idx = if first_after < count {
            let child = store::repr_child(&self.repr, first_after);
            if range.end() > child.offset_in_parent() {
                first_after
            } else if first_after == 0 {
                0
            } else {
                first_after - 1
            }
        } else if first_after == 0 {
            0
        } else {
            first_after - 1
        };
        proof {
            assert(idx as int == resolved_slot(c, range, first_after as int));
        }
        if count == 0 {
            return None;
        }
        let child = store::repr_child(&self.repr, idx);
        proof {
            lemma_end_eq_sum(c, idx as int);
            lemma_sum_child_mono(c, idx as int + 1, count as int);
        }
        let off = child.offset_in_parent();
        let child_end = off + child.as_ref().text_len();
        if off <= range.start() && range.end() <= child_end {
            proof {
                assert forall|j: int|
                    !range.is_empty() && child_contains(c, j, range) implies j == idx as int by {
                    if j < idx as int {
                        lemma_child_order(c, j, idx as int);
                    } else if j > idx as int {
                        lemma_child_order(c, idx as int, j);
                    }
                }
                assert forall|f: int|
                    is_first_ending_after(c, range.start as int, f) implies idx as int
                    == resolved_slot(c, range, f) by {
                    assert(f == first_after as int);
                }
            }
            Some((idx, off, child.as_ref()))
        } else {
            proof {
                assert forall|j: int| !child_contains(c, j, range) by {
                    if child_contains(c, j, range) {
                        lemma_contains_resolved(c, range, first_after as int, j);
                    }
                }
            }
            None
        }
    }

    /// A fresh view over this node's children.  Every call returns a
    /// new, independent view over the same backing slots, so the node
    /// can be traversed any number of times, concurrently.
    pub fn children<'a>(&'a self) -> (it: Children<'a>)
        requires
            self.wf(),
        ensures
            it.wf(),
            it.spec_node() == *self,
            it.remaining() == self.spec_children(),
    {
        let back = store::repr_len(&self.repr);
        let it = Children { node: self, front: 0, back };
        proof {
            assert(it.remaining() =~= self.spec_children());
        }
        it
    }

    /// Replaces the child at `idx` with `new_child`, yielding a brand-new
    /// node of the same kind.  `self` is untouched; every child other
    /// than the one at `idx` is shared with `self` by reference, and the
    /// offsets and total length are recomputed across all children.  The
    /// cost is proportional to the number of children of this node, not
    /// to the size of its subtree.
    pub fn replace_child(&self, idx: usize, new_child: GreenElement) -> (n: GreenNode)
        requires
            self.wf(),
            idx < self.spec_children().len(),
            sum_elem_lens(
                child_elems(self.spec_children()).update(idx as int, new_child),
                self.spec_children().len() as int,
            ) <= u32::MAX,
        ensures
            n.wf(),
            n.spec_kind() == self.spec_kind(),
            n.spec_children().len() == self.spec_children().len(),
            forall|j: int|
                0 <= j < self.spec_children().len() && j != idx ==> (#[trigger] n.spec_children()[j]).elem()
                    == self.spec_children()[j].elem(),
            n.spec_children()[idx as int].elem() == new_child,
            n.spec_text_len() == sum_elem_lens(
                child_elems(self.spec_children()).update(idx as int, new_child),
                self.spec_children().len() as int,
            ),
    {
        let ghost c = self.spec_children();
        let ghost updated = child_elems(c).update(idx as int, new_child);
        let count = store::repr_len(&self.repr);
        let mut elems: Vec<GreenElement> = Vec::new();
        let mut i: usize = 0;
        while i < count
            invariant
                count == c.len(),
                c == self.spec_children(),
                i <= count,
                elems@.len() == i as int,
                idx < count,
                updated == child_elems(c).update(idx as int, new_child),
                forall|j: int| 0 <= j < i ==> elems@[j] == updated[j],
            decreases count - i,
        {
            if i == idx {
                elems.push(new_child.as_ref().cloned());
            } else {
                let child = store::repr_child(&self.repr, i);
                elems.push(child.as_ref().cloned());
            }
            i = i + 1;
        }
        proof {
            assert(elems@ =~= updated);
        }
        GreenNode::new(self.kind(), elems)
    }

    /// Structural equality at the level of this node's header and child
    /// slots: two nodes whose kind, text length and children are equal
    /// compare equal, whatever allocations hold them.  In particular two
    /// nodes built by [`GreenNode::new`] from the same kind and equal
    /// child sequences compare equal even when their allocation addresses
    /// (see [`GreenNode::ptr`]) differ.
    pub fn structural_eq(&self, other: &GreenNode) -> (r: bool)
        ensures
            self.spec_kind() == other.spec_kind() && self.spec_text_len()
                == other.spec_text_len() && self.spec_children() == other.spec_children() ==> r,
            r ==> self.spec_kind() == other.spec_kind() && self.spec_text_len()
                == other.spec_text_len(),
    {
        store::repr_eq(&self.repr, &other.repr)
    }

    /// The address of this node's allocation: an identity probe for
    /// address-keyed caches.  Nodes that share their allocation report the
    /// same address; structurally equal nodes in distinct allocations do
    /// not.  Nothing about the value is part of any contract.
    pub fn ptr(&self) -> usize {
        store::repr_addr(&self.repr)
    }
}

impl Clone for GreenNode {
    /// The clone shares the allocation of `self`, so it is the same value.
    fn clone(&self) -> (res: Self)
        ensures
            res == *self,
    {
        GreenNode { repr: self.repr.clone() }
    }
}

/// The total text length of a well-formed node is determined by its
/// children alone: nodes with equal child sequences cover the same
/// amount of text, so equal kind and equal children suffice for nodes
/// to be structurally equal in full.
pub proof fn lemma_children_determine_text_len(a: GreenNode, b: GreenNode)
    requires
        a.wf(),
        b.wf(),
        a.spec_children() == b.spec_children(),
    ensures
        a.spec_text_len() == b.spec_text_len(),
{
}

/// A well-formed node with no children covers no text.
pub proof fn lemma_empty_node(n: GreenNode)
    requires
        n.wf(),
        n.spec_children().len() == 0,
    ensures
        n.spec_text_len() == 0,
{
}

/// A read-only view over the not-yet-consumed child slots of one node.
///
/// The view is double-ended and length-aware; it does not consume or
/// change the node, any number of views of the same node may exist at
/// once, and a view that has been exhausted keeps reporting that nothing
/// remains.
#[derive(Clone, Debug)]
pub struct Children<'a> {
    node: &'a GreenNode,
    front: usize,
    back: usize,
}

impl<'a> Children<'a> {
    /// The node this view reads from.
    pub closed spec fn spec_node(self) -> GreenNode {
        *self.node
    }

    /// Index of the first not-yet-consumed slot.
    pub closed spec fn spec_front(self) -> int {
        self.front as int
    }

    /// One past the index of the last not-yet-consumed slot.
    pub closed spec fn spec_back(self) -> int {
        self.back as int
    }

    pub open spec fn wf(self) -> bool {
        &&& self.spec_node().wf()
        &&& 0 <= self.spec_front() <= self.spec_back() <= self.spec_node().spec_children().len()
    }

    /// The child slots this view has not yet yielded.
    pub open spec fn remaining(self) -> Seq<GreenChild> {
        self.spec_node().spec_children().subrange(self.spec_front(), self.spec_back())
    }

    /// How many children remain.
    pub fn len(&self) -> (n: usize)
        requires
            self.wf(),
        ensures
            n == self.remaining().len(),
    {
        self.back - self.front
    }

    /// Whether nothing remains.
    pub fn is_empty(&self) -> (b: bool)
        requires
            self.wf(),
        ensures
            b == (self.remaining().len() == 0),
    {
        self.front == self.back
    }

    /// The exact number of remaining children, reported in the shape of
    /// a lower and an upper bound.
    pub fn size_hint(&self) -> (r: (usize, Option<usize>))
        requires
            self.wf(),
        ensures
            r.0 == self.remaining().len(),
            r.1 matches Some(upper) && upper == self.remaining().len(),
    {
        let n = self.len();
        (n, Some(n))
    }

    /// Yields the first remaining child element, or `None` when the view
    /// is exhausted.  An exhausted view stays exhausted.
    pub fn next(&mut self) -> (r: Option<GreenElementRef<'a>>)
        requires
            old(self).wf(),
        ensures
            final(self).wf(),
            final(self).spec_node() == old(self).spec_node(),
            old(self).remaining().len() == 0 ==> r is None && *final(self) == *old(self),
            old(self).remaining().len() > 0 ==> {
                &&& r matches Some(el) && deref_elem(el) == old(self).remaining()[0].elem()
                &&& final(self).remaining() == old(self).remaining().subrange(
                    1,
                    old(self).remaining().len() as int,
                )
            },
    {
        if self.front < self.back {
            let node = self.node;
            let child = store::repr_child(&node.repr, self.front);
            self.front = self.front + 1;
            proof {
                assert(self.remaining() =~= old(self).remaining().subrange(
                    1,
                    old(self).remaining().len() as int,
                ));
            }
            Some(child.as_ref())
        } else {
            None
        }
    }

    /// Yields the last remaining child element, or `None` when the view
    /// is exhausted.  An exhausted view stays exhausted.
    pub fn next_back(&mut self) -> (r: Option<GreenElementRef<'a>>)
        requires
            old(self).wf(),
        ensures
            final(self).wf(),
            final(self).spec_node() == old(self).spec_node(),
            old(self).remaining().len() == 0 ==> r is None && *final(self) == *old(self),
            old(self).remaining().len() > 0 ==> {
                &&& r matches Some(el) && deref_elem(el) == old(self).remaining().last().elem()
                &&& final(self).remaining() == old(self).remaining().subrange(
                    0,
                    old(self).remaining().len() - 1,
                )
            },
    {
        if self.front < self.back {
            let node = self.node;
            let child = store::repr_child(&node.repr, self.back - 1);
            self.back = self.back - 1;
            proof {
                assert(self.remaining() =~= old(self).remaining().subrange(
                    0,
                    old(self).remaining().len() - 1,
                ));
            }
            Some(child.as_ref())
        } else {
            None
        }
    }

    /// Skips `n` remaining children and yields the one after them, or
    /// exhausts the view and yields `None` when fewer than `n + 1`
    /// remain.
    pub fn nth(&mut self, n: usize) -> (r: Option<GreenElementRef<'a>>)
        requires
            old(self).wf(),
        ensures
            final(self).wf(),
            final(self).spec_node() == old(self).spec_node(),
            n < old(self).remaining().len() ==> {
                &&& r matches Some(el) && deref_elem(el) == old(self).remaining()[n as int].elem()
                &&& final(self).remaining() == old(self).remaining().subrange(
                    n + 1,
                    old(self).remaining().len() as int,
                )
            },
            n >= old(self).remaining().len() ==> r is None && final(self).remaining().len() == 0,
    {
        if n < self.back - self.front {
            let node = self.node;
            let child = store::repr_child(&node.repr, self.front + n);
            self.front = self.front + n + 1;
            proof {
                assert(self.remaining() =~= old(self).remaining().subrange(
                    n + 1,
                    old(self).remaining().len() as int,
                ));
            }
            Some(child.as_ref())
        } else {
            self.front = self.back;
            None
        }
    }

    /// Skips `n` remaining children from the back and yields the one
    /// before them, or exhausts the view and yields `None` when fewer
    /// than `n + 1` remain.
    pub fn nth_back(&mut self, n: usize) -> (r: Option<GreenElementRef<'a>>)
        requires
            old(self).wf(),
        ensures
            final(self).wf(),
            final(self).spec_node() == old(self).spec_node(),
            n < old(self).remaining().len() ==> {
                &&& r matches Some(el) && deref_elem(el) == old(self).remaining()[old(
                    self,
                ).remaining().len() - 1 - n].elem()
                &&& final(self).remaining() == old(self).remaining().subrange(
                    0,
                    old(self).remaining().len() - 1 - n,
                )
            },
            n >= old(self).remaining().len() ==> r is None && final(self).remaining().len() == 0,
    {
        if n < self.back - self.front {
            let node = self.node;
            let child = store::repr_child(&node.repr, self.back - 1 - n);
            self.back = self.back - 1 - n;
            proof {
                assert(self.remaining() =~= old(self).remaining().subrange(
                    0,
                    old(self).remaining().len() - 1 - n,
                ));
            }
            Some(child.as_ref())
        } else {
            self.front = self.back;
            None
        }
    }

    /// How many children the view would still yield.
    pub fn count(self) -> (n: usize)
        requires
            self.wf(),
        ensures
            n == self.remaining().len(),
    {
        self.len()
    }

    /// The last child element the view would yield, or `None` when it is
    /// exhausted.
    pub fn last(self) -> (r: Option<GreenElementRef<'a>>)
        requires
            self.wf(),
        ensures
            self.remaining().len() == 0 ==> r is None,
            self.remaining().len() > 0 ==> (r matches Some(el) && deref_elem(el)
                == self.remaining().last().elem()),
    {
        let mut it = self;
        it.next_back()
    }
}

} // verus!
