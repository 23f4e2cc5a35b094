//! The tree owner: an optional root node and the public `insert`.

use vstd::prelude::*;

use crate::laws::lemma_insert_duplicate_is_no_op;
use crate::laws::lemma_tree_insert;
use crate::node::InsertResult;
use crate::node::LeafTwo;
use crate::node::Node;
use crate::order::TotalOrder;

verus! {

/// A 2-3 tree: at most one root node; `None` is the empty tree.
#[derive(PartialEq, Eq, Debug)]
pub struct TTTree<V: TotalOrder> {
    pub root: Option<Node<V>>,
}

impl<V: TotalOrder> TTTree<V> {
    /// Well-formedness: the root subtree, if any, is well-formed.
    pub open spec fn wf(self) -> bool {
        match self.root {
            None => true,
            Some(n) => n.wf(),
        }
    }

    /// The set of all keys stored in the tree.
    pub open spec fn key_set(self) -> Set<V> {
        match self.root {
            None => Set::empty(),
            Some(n) => n.key_set(),
        }
    }

    /// The keys of the tree in symmetric (in-order) traversal order.
    pub open spec fn keys_in_order(self) -> Seq<V> {
        match self.root {
            None => Seq::empty(),
            Some(n) => n.keys_in_order(),
        }
    }

    /// The height of the tree; the empty tree has height 0.
    pub open spec fn height(self) -> nat {
        match self.root {
            None => 0,
            Some(n) => n.height(),
        }
    }

    /// Whether inserting `v` overflows all the way through the root, so
    /// that the root's overflow bundle must be decomposed into a new root.
    pub open spec fn splits_at_root(self, v: V) -> bool {
        match self.root {
            None => false,
            Some(n) => n.spec_insert(v) is Split,
        }
    }

    /// The exact tree that inserting `v` produces: a first key becomes a
    /// one-key leaf root; otherwise the root's insertion outcome becomes the
    /// new root, a root overflow being decomposed first — the one place the
    /// tree as a whole grows in height.
    pub open spec fn spec_insert(self, v: V) -> TTTree<V> {
        match self.root {
            None => TTTree { root: Some(Node::LeafTwo(LeafTwo(v))) },
            Some(n) => match n.spec_insert(v) {
                InsertResult::Fit(m) => TTTree { root: Some(m) },
                InsertResult::Split(s) => TTTree { root: Some(Node::Two(s.spec_to_two())) },
            },
        }
    }

    /// Construct an empty tree.
    pub fn new() -> (r: TTTree<V>)
        ensures
            (r == TTTree::<V> { root: None }),
            r.wf(),
            r.key_set() == Set::<V>::empty(),
            r.height() == 0,
    {
        TTTree { root: None }
    }

    /// Insert `value`. The new tree is exactly the one the model gives;
    /// moreover, on a well-formed tree, insertion keeps the tree well-formed,
    /// adds exactly `value` to the stored keys, leaves the tree untouched
    /// when `value` is already present, and grows the height by one exactly
    /// when the overflow reaches the root (the first key raising the empty
    /// tree to height 1).
    pub fn insert(&mut self, value: V)
        ensures
            *final(self) == old(self).spec_insert(value),
            old(self).wf() ==> final(self).wf(),
            old(self).wf() ==> final(self).key_set() == old(self).key_set().insert(value),
            old(self).wf() && old(self).key_set().contains(value) ==> *final(self) == *old(self),
            old(self).wf() ==> final(self).height() == (if old(self).root is None {
                1nat
            } else if old(self).splits_at_root(value) {
                old(self).height() + 1
            } else {
                old(self).height()
            }),
    {
        proof {
            if old(self).wf() {
                lemma_tree_insert(*old(self), value);
                if old(self).key_set().contains(value) {
                    lemma_insert_duplicate_is_no_op(*old(self), value);
                    assert(old(self).key_set().insert(value) =~= old(self).key_set());
                }
            }
        }
        let root: Option<Node<V>> = self.root.take();
        let new_root: Node<V> = match root {
            None => Node::LeafTwo(LeafTwo(value)),
            Some(root_node) => {
                let result = root_node.insert(value);
                match result {
                    InsertResult::Fit(node) => node,
                    InsertResult::Split(split_node) => split_node.to_two().as_node(),
                }
            },
        };
        self.root = Some(new_root);
    }
}

} // verus!
