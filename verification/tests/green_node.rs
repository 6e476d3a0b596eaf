use green_tree::{GreenChild, GreenElement, GreenNode, GreenToken, NodeOrToken, SyntaxKind, TextRange};
use std::collections::hash_map::DefaultHasher;
use std::hash::{Hash, Hasher};

fn tok(kind: u16, len: u32) -> GreenElement {
    NodeOrToken::Token(GreenToken::new(SyntaxKind(kind), len))
}

/// A node whose children are tokens of the given kinds and lengths.
fn node_of(kind: u16, tokens: &[(u16, u32)]) -> GreenNode {
    let children: Vec<GreenElement> = tokens.iter().map(|&(k, l)| tok(k, l)).collect();
    GreenNode::new(SyntaxKind(kind), children)
}

fn collect_forward(node: &GreenNode) -> Vec<(SyntaxKind, u32)> {
    let mut out = Vec::new();
    let mut it = node.children();
    while let Some(el) = it.next() {
        match el {
            NodeOrToken::Node(n) => out.push((n.kind(), n.text_len())),
            NodeOrToken::Token(t) => out.push((t.kind(), t.text_len())),
        }
    }
    out
}

fn collect_backward(node: &GreenNode) -> Vec<(SyntaxKind, u32)> {
    let mut out = Vec::new();
    let mut it = node.children();
    while let Some(el) = it.next_back() {
        match el {
            NodeOrToken::Node(n) => out.push((n.kind(), n.text_len())),
            NodeOrToken::Token(t) => out.push((t.kind(), t.text_len())),
        }
    }
    out
}

#[test]
fn total_len_is_sum_and_offsets_are_prefix_sums() {
    let node = node_of(1, &[(10, 2), (11, 3), (12, 4)]);
    assert_eq!(node.text_len(), 9);
    // Each child's offset is the sum of the lengths before it, observed
    // through range lookup.
    let expected_offsets = [0u32, 2, 5];
    let lens = [2u32, 3, 4];
    for i in 0..3 {
        let r = node
            .child_at_range(TextRange::at(expected_offsets[i], lens[i]))
            .expect("child range must resolve");
        assert_eq!(r.0, i);
        assert_eq!(r.1, expected_offsets[i]);
    }
}

#[test]
fn children_twice_yields_independent_equal_traversals() {
    let node = node_of(1, &[(10, 1), (11, 2), (12, 3)]);
    let mut a = node.children();
    let mut b = node.children();
    // Advancing one view does not advance the other.
    let first_a = a.next();
    let first_b = b.next();
    assert_eq!(first_a, first_b);
    assert_eq!(a.len(), b.len());
    let va = collect_forward(&node);
    let vb = collect_forward(&node);
    assert_eq!(va, vb);
}

#[test]
fn forward_collect_reversed_equals_backward_collect() {
    let node = node_of(1, &[(10, 1), (11, 2), (12, 3), (13, 4)]);
    let mut forward = collect_forward(&node);
    forward.reverse();
    assert_eq!(forward, collect_backward(&node));
}

#[test]
fn empty_node_has_len_zero_and_exhausted_view() {
    let node = GreenNode::new(SyntaxKind(7), Vec::new());
    assert_eq!(node.text_len(), 0);
    let mut it = node.children();
    assert_eq!(it.len(), 0);
    assert!(it.is_empty());
    assert!(it.next().is_none());
    // Fused: it keeps yielding nothing.
    assert!(it.next().is_none());
    assert!(it.next_back().is_none());
}

#[test]
fn range_inside_one_child_resolves_to_it() {
    let node = node_of(1, &[(10, 4), (11, 6), (12, 2)]);
    // Fully inside child 1 (span [4, 10)).
    let r = node.child_at_range(TextRange::new(5, 9)).expect("inside one child");
    assert_eq!(r.0, 1);
    assert_eq!(r.1, 4);
    match r.2 {
        NodeOrToken::Token(t) => {
            assert_eq!(t.kind(), SyntaxKind(11));
            assert_eq!(t.text_len(), 6);
        }
        NodeOrToken::Node(_) => panic!("expected a token child"),
    }
}

#[test]
fn range_straddling_a_boundary_resolves_to_nothing() {
    let node = node_of(1, &[(10, 4), (11, 6), (12, 2)]);
    // Straddles the boundary at offset 4.
    assert!(node.child_at_range(TextRange::new(3, 5)).is_none());
    // Straddles the boundary at offset 10.
    assert!(node.child_at_range(TextRange::new(9, 11)).is_none());
    // Lies outside the node.
    assert!(node.child_at_range(TextRange::new(12, 14)).is_none());
    assert!(node.child_at_range(TextRange::at(30, 5)).is_none());
}

#[test]
fn empty_range_on_boundary_attaches_to_preceding_child() {
    let node = node_of(1, &[(10, 2), (11, 3)]);
    // The empty range at the boundary offset 2 belongs to child 0, which
    // ends there, not to child 1, which starts there.
    let r = node.child_at_range(TextRange::at(2, 0)).expect("empty range on boundary");
    assert_eq!(r.0, 0);
    assert_eq!(r.1, 0);
    // An empty range strictly inside a child belongs to that child.
    let r = node.child_at_range(TextRange::at(3, 0)).expect("empty range inside child");
    assert_eq!(r.0, 1);
    assert_eq!(r.1, 2);
}

#[test]
fn replace_child_shares_the_other_children() {
    let inner_a = node_of(2, &[(10, 3)]);
    let inner_b = node_of(3, &[(11, 4)]);
    let node = GreenNode::new(
        SyntaxKind(1),
        vec![
            NodeOrToken::Node(inner_a.clone()),
            tok(12, 5),
            NodeOrToken::Node(inner_b.clone()),
        ],
    );
    assert_eq!(node.text_len(), 12);
    let replaced = node.replace_child(1, tok(13, 1));
    assert_eq!(replaced.text_len(), 8);
    assert_eq!(replaced.kind(), SyntaxKind(1));
    // The original node is untouched.
    assert_eq!(node.text_len(), 12);
    let mut old_children = node.children();
    let mut new_children = replaced.children();
    // Child 0: same subtree, shared by reference (same allocation).
    match (old_children.next().unwrap(), new_children.next().unwrap()) {
        (NodeOrToken::Node(a), NodeOrToken::Node(b)) => {
            assert_eq!(a, b);
            assert_eq!(a.ptr(), b.ptr());
            assert_eq!(b.ptr(), inner_a.ptr());
        }
        _ => panic!("expected node children"),
    }
    // Child 1: the replacement.
    match (old_children.next().unwrap(), new_children.next().unwrap()) {
        (NodeOrToken::Token(old_t), NodeOrToken::Token(new_t)) => {
            assert_eq!(old_t.kind(), SyntaxKind(12));
            assert_eq!(new_t.kind(), SyntaxKind(13));
            assert_eq!(new_t.text_len(), 1);
        }
        _ => panic!("expected token children"),
    }
    // Child 2: same subtree, shared by reference.
    match (old_children.next().unwrap(), new_children.next().unwrap()) {
        (NodeOrToken::Node(a), NodeOrToken::Node(b)) => {
            assert_eq!(a, b);
            assert_eq!(a.ptr(), b.ptr());
            assert_eq!(b.ptr(), inner_b.ptr());
        }
        _ => panic!("expected node children"),
    }
    // The replacement shifted the third child's offset.
    let r = replaced.child_at_range(TextRange::new(4, 8)).expect("third child span");
    assert_eq!(r.0, 2);
    assert_eq!(r.1, 4);
}

#[test]
fn structurally_equal_nodes_compare_equal_and_hash_equal() {
    let a = GreenNode::new(
        SyntaxKind(1),
        vec![NodeOrToken::Node(node_of(2, &[(10, 3), (11, 1)])), tok(12, 2)],
    );
    let b = GreenNode::new(
        SyntaxKind(1),
        vec![NodeOrToken::Node(node_of(2, &[(10, 3), (11, 1)])), tok(12, 2)],
    );
    assert_eq!(a, b);
    assert!(a.structural_eq(&b));
    let mut ha = DefaultHasher::new();
    let mut hb = DefaultHasher::new();
    a.hash(&mut ha);
    b.hash(&mut hb);
    assert_eq!(ha.finish(), hb.finish());
    // The identity probes expose that the equal nodes live in separate
    // allocations.
    assert_ne!(a.ptr(), b.ptr());
    // And unequal nodes compare unequal.
    let c = node_of(1, &[(10, 3)]);
    assert_ne!(a, c);
    assert!(!a.structural_eq(&c));
}

#[test]
fn clone_shares_the_allocation() {
    let node = node_of(1, &[(10, 2), (11, 3)]);
    let copy = node.clone();
    assert_eq!(node, copy);
    assert_eq!(node.ptr(), copy.ptr());
    assert_eq!(copy.text_len(), 5);
}

#[test]
fn block_scenario() {
    // BLOCK = 20, EXPR = 21, L_BRACE = 22, R_BRACE = 23, ERROR = 24,
    // IDENT = 25.
    let expr = node_of(21, &[(25, 5)]);
    let block = GreenNode::new(
        SyntaxKind(20),
        vec![tok(22, 1), NodeOrToken::Node(expr), tok(23, 1)],
    );
    assert_eq!(block.kind(), SyntaxKind(20));
    assert_eq!(block.text_len(), 7);
    // Query [1, 6) resolves to the EXPR node at index 1, offset 1.
    let r = block.child_at_range(TextRange::new(1, 6)).expect("expr span");
    assert_eq!(r.0, 1);
    assert_eq!(r.1, 1);
    match r.2 {
        NodeOrToken::Node(n) => assert_eq!(n.kind(), SyntaxKind(21)),
        NodeOrToken::Token(_) => panic!("expected the expr node"),
    }
    // Query [0, 7) spans all three children: nothing.
    assert!(block.child_at_range(TextRange::new(0, 7)).is_none());
    // Replacing the EXPR with a zero-length ERROR token shrinks the node.
    let replaced = block.replace_child(1, tok(24, 0));
    assert_eq!(replaced.text_len(), 2);
    let kinds = collect_forward(&replaced);
    assert_eq!(
        kinds,
        vec![(SyntaxKind(22), 1), (SyntaxKind(24), 0), (SyntaxKind(23), 1)]
    );
    // Offsets are now 0, 1, 1: the zero-length token owns the empty range
    // at its own offset, and the brace after it starts there too.
    let r = replaced.child_at_range(TextRange::at(1, 0)).expect("error token range");
    assert_eq!(r.0, 1);
    assert_eq!(r.1, 1);
    let r = replaced.child_at_range(TextRange::new(1, 2)).expect("closing brace");
    assert_eq!(r.0, 2);
    assert_eq!(r.1, 1);
}

#[test]
fn single_child_node_contains_its_whole_span() {
    let node = node_of(1, &[(10, 6)]);
    let r = node.child_at_range(TextRange::new(0, 6)).expect("whole span");
    assert_eq!(r.0, 0);
    assert_eq!(r.1, 0);
}

#[test]
fn view_nth_last_count_and_size_hint() {
    let node = node_of(1, &[(10, 1), (11, 2), (12, 3), (13, 4)]);
    let it = node.children();
    assert_eq!(it.size_hint(), (4, Some(4)));
    assert_eq!(it.count(), 4);
    let mut it = node.children();
    let el = it.nth(1).expect("second child");
    match el {
        NodeOrToken::Token(t) => assert_eq!(t.kind(), SyntaxKind(11)),
        _ => panic!("expected a token"),
    }
    assert_eq!(it.len(), 2);
    // Skipping past the end exhausts the view.
    assert!(it.nth(5).is_none());
    assert_eq!(it.len(), 0);
    let mut it = node.children();
    let el = it.nth_back(0).expect("last child");
    match el {
        NodeOrToken::Token(t) => assert_eq!(t.kind(), SyntaxKind(13)),
        _ => panic!("expected a token"),
    }
    assert_eq!(it.len(), 3);
    let el = node.children().last().expect("last");
    match el {
        NodeOrToken::Token(t) => assert_eq!(t.kind(), SyntaxKind(13)),
        _ => panic!("expected a token"),
    }
    assert!(GreenNode::new(SyntaxKind(1), Vec::new()).children().last().is_none());
}

#[test]
fn mixed_forward_and_backward_consumption() {
    let node = node_of(1, &[(10, 1), (11, 2), (12, 3)]);
    let mut it = node.children();
    let front = it.next().unwrap();
    let back = it.next_back().unwrap();
    match (front, back) {
        (NodeOrToken::Token(f), NodeOrToken::Token(b)) => {
            assert_eq!(f.kind(), SyntaxKind(10));
            assert_eq!(b.kind(), SyntaxKind(12));
        }
        _ => panic!("expected tokens"),
    }
    assert_eq!(it.len(), 1);
    match it.next().unwrap() {
        NodeOrToken::Token(t) => assert_eq!(t.kind(), SyntaxKind(11)),
        _ => panic!("expected a token"),
    }
    assert!(it.next().is_none());
    assert!(it.next_back().is_none());
}

#[test]
fn token_and_range_accessors() {
    let t = GreenToken::new(SyntaxKind(9), 4);
    assert_eq!(t.kind(), SyntaxKind(9));
    assert_eq!(t.text_len(), 4);
    let r = TextRange::new(3, 8);
    assert_eq!(r.start(), 3);
    assert_eq!(r.end(), 8);
    assert!(r.contains_range(TextRange::new(4, 8)));
    assert!(!r.contains_range(TextRange::new(2, 5)));
    let r2 = TextRange::at(3, 5);
    assert_eq!(r2, r);
}

#[test]
fn child_slot_accessors() {
    let slot = GreenChild::Token { offset_in_parent: 7, token: GreenToken::new(SyntaxKind(5), 2) };
    assert_eq!(slot.offset_in_parent(), 7);
    let range = slot.range_in_parent();
    assert_eq!(range.start(), 7);
    assert_eq!(range.end(), 9);
    match slot.as_ref() {
        NodeOrToken::Token(t) => assert_eq!(t.text_len(), 2),
        _ => panic!("expected a token"),
    }
}
