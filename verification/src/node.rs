//! Tree nodes and the recursive insertion algorithm.
//!
//! A [`Node`] is either a leaf holding one or two keys, or an internal node
//! holding one key with two children or two keys with three children.
//! Inserting into a node either *fits* (the node, possibly grown, is handed
//! back) or *splits*, handing back a transient [`SplitNode`] of three ordered
//! keys (and, for internal nodes, four children) that the caller decomposes
//! at once. The specification-level model mirrors each step, so the exact
//! shape of every insertion outcome is pinned down by the contracts.

use vstd::prelude::*;

use crate::order::key_lt;
use crate::order::lt_exec;
use crate::order::eq_exec;
use crate::order::TotalOrder;

verus! {

/// A leaf holding one key.
#[derive(PartialEq, Eq, Debug)]
pub struct LeafTwo<V: TotalOrder>(pub V);

/// A leaf holding two ordered keys.
#[derive(PartialEq, Eq, Debug)]
pub struct LeafThree<V: TotalOrder>(pub V, pub V);

/// An internal node holding one key and two children.
#[derive(PartialEq, Eq, Debug)]
pub struct Two<V: TotalOrder>(pub V, pub Box<Node<V>>, pub Box<Node<V>>);

/// An internal node holding two ordered keys and three children.
#[derive(PartialEq, Eq, Debug)]
pub struct Three<V: TotalOrder>(pub V, pub V, pub Box<Node<V>>, pub Box<Node<V>>, pub Box<Node<V>>);

/// A stable tree node: one of the four shapes above. The shapes themselves
/// enforce that an internal node holds one more child than it holds keys.
#[derive(PartialEq, Eq, Debug)]
pub enum Node<V: TotalOrder> {
    LeafTwo(LeafTwo<V>),
    LeafThree(LeafThree<V>),
    Two(Two<V>),
    Three(Three<V>),
}

/// A transient overflow bundle: three ordered keys and either no children
/// (leaf overflow) or four ordered children (internal overflow). It is never
/// stored as a tree node; it exists only between a callee's return and its
/// caller's immediate decomposition.
#[derive(PartialEq, Eq, Debug)]
pub enum SplitNode<V: TotalOrder> {
    Four(V, V, V, Box<Node<V>>, Box<Node<V>>, Box<Node<V>>, Box<Node<V>>),
    LeafFour(V, V, V),
}

/// The outcome of inserting into a node: the node fits the new key, or it
/// overflows into a split bundle.
#[derive(PartialEq, Eq, Debug)]
pub enum InsertResult<V: TotalOrder> {
    Fit(Node<V>),
    Split(SplitNode<V>),
}

/// The child chosen for the recursive descent, or `Leaf` when there is none.
#[derive(Clone, Copy, PartialEq, Eq, Debug)]
pub enum Direction {
    Left,
    Middle,
    Right,
    Leaf,
}

impl<V: TotalOrder> Node<V> {
    /// The set of all keys stored in this subtree.
    pub open spec fn key_set(self) -> Set<V>
        decreases self,
    {
        match self {
            Node::LeafTwo(LeafTwo(a)) => set![a],
            Node::LeafThree(LeafThree(a, b)) => set![a, b],
            Node::Two(Two(k, l, r)) => l.key_set().union(r.key_set()).insert(k),
            Node::Three(Three(k1, k2, l, m, r)) => l.key_set().union(m.key_set()).union(
                r.key_set(),
            ).insert(k1).insert(k2),
        }
    }

    /// The keys of this subtree in symmetric (in-order) traversal order.
    pub open spec fn keys_in_order(self) -> Seq<V>
        decreases self,
    {
        match self {
            Node::LeafTwo(LeafTwo(a)) => seq![a],
            Node::LeafThree(LeafThree(a, b)) => seq![a, b],
            Node::Two(Two(k, l, r)) => l.keys_in_order() + seq![k] + r.keys_in_order(),
            Node::Three(Three(k1, k2, l, m, r)) => l.keys_in_order() + seq![k1]
                + m.keys_in_order() + seq![k2] + r.keys_in_order(),
        }
    }

    /// The height of this subtree: a leaf is at height 1, and every internal
    /// node is one above its leftmost child. On well-formed nodes all
    /// children stand at the same height.
    pub open spec fn height(self) -> nat
        decreases self,
    {
        match self {
            Node::LeafTwo(_) => 1,
            Node::LeafThree(_) => 1,
            Node::Two(Two(_, l, _)) => 1 + l.height(),
            Node::Three(Three(_, _, l, _, _)) => 1 + l.height(),
        }
    }

    /// Every key of this subtree comes strictly before `v`.
    pub open spec fn all_lt(self, v: V) -> bool {
        forall|x: V| self.key_set().contains(x) ==> key_lt(x, v)
    }

    /// Every key of this subtree comes strictly after `v`.
    pub open spec fn all_gt(self, v: V) -> bool {
        forall|x: V| self.key_set().contains(x) ==> key_lt(v, x)
    }

    /// Well-formedness of a subtree: keys within a node strictly increase,
    /// all children of a node stand at equal height (so all leaves sit at
    /// equal depth), and the search-order invariant holds: each child's keys
    /// lie strictly between the keys that flank it.
    pub open spec fn wf(self) -> bool
        decreases self,
    {
        match self {
            Node::LeafTwo(_) => true,
            Node::LeafThree(LeafThree(a, b)) => key_lt(a, b),
            Node::Two(Two(k, l, r)) => l.wf() && r.wf() && l.height() == r.height() && l.all_lt(k)
                && r.all_gt(k),
            Node::Three(Three(k1, k2, l, m, r)) => key_lt(k1, k2) && l.wf() && m.wf() && r.wf()
                && l.height() == m.height() && m.height() == r.height() && l.all_lt(k1)
                && m.all_gt(k1) && m.all_lt(k2) && r.all_gt(k2),
        }
    }

    /// Whether `v` equals one of the keys stored in this node itself (not in
    /// its descendants).
    pub open spec fn has_key_here(self, v: V) -> bool {
        match self {
            Node::LeafTwo(LeafTwo(a)) => a == v,
            Node::LeafThree(LeafThree(a, b)) => a == v || b == v,
            Node::Two(Two(k, _, _)) => k == v,
            Node::Three(Three(k1, k2, _, _, _)) => k1 == v || k2 == v,
        }
    }

    /// The child `v` descends into: determined by comparing `v` with the
    /// node's keys; `Leaf` for the two leaf shapes.
    pub open spec fn spec_next_direction(self, v: V) -> Direction {
        match self {
            Node::Two(Two(k, _, _)) => if key_lt(v, k) {
                Direction::Left
            } else {
                Direction::Middle
            },
            Node::Three(Three(k1, k2, _, _, _)) => if key_lt(v, k1) {
                Direction::Left
            } else if key_lt(k2, v) {
                Direction::Right
            } else {
                Direction::Middle
            },
            _ => Direction::Leaf,
        }
    }

    /// The exact outcome of inserting `v` into this subtree. If `v` equals a
    /// key of the node visited, the unchanged node is handed back; otherwise
    /// a leaf grows or overflows, and an internal node rebuilds itself around
    /// the outcome of the descent, absorbing or propagating a split.
    pub open spec fn spec_insert(self, v: V) -> InsertResult<V>
        decreases self,
    {
        if self.has_key_here(v) {
            InsertResult::Fit(self)
        } else {
            match self {
                Node::LeafTwo(leaf) => InsertResult::Fit(
                    Node::LeafThree(leaf.spec_to_three(v)),
                ),
                Node::LeafThree(leaf) => InsertResult::Split(leaf.spec_to_split_node(v)),
                Node::Two(Two(k, l, r)) => {
                    if key_lt(v, k) {
                        match l.spec_insert(v) {
                            InsertResult::Fit(n) => InsertResult::Fit(
                                Node::Two(Two(k, Box::new(n), r)),
                            ),
                            InsertResult::Split(s) => InsertResult::Fit(
                                Node::Three(s.spec_to_two().spec_to_three(k, r)),
                            ),
                        }
                    } else {
                        match r.spec_insert(v) {
                            InsertResult::Fit(n) => InsertResult::Fit(
                                Node::Two(Two(k, l, Box::new(n))),
                            ),
                            InsertResult::Split(s) => InsertResult::Fit(
                                Node::Three(s.spec_to_two().spec_to_three(k, l)),
                            ),
                        }
                    }
                },
                Node::Three(Three(k1, k2, l, m, r)) => {
                    if key_lt(v, k1) {
                        match l.spec_insert(v) {
                            InsertResult::Fit(n) => InsertResult::Fit(
                                Node::Three(Three(k1, k2, Box::new(n), m, r)),
                            ),
                            InsertResult::Split(s) => InsertResult::Split(
                                s.spec_to_two().spec_to_three(k1, m).spec_to_split_node(k2, r),
                            ),
                        }
                    } else if key_lt(k2, v) {
                        match r.spec_insert(v) {
                            InsertResult::Fit(n) => InsertResult::Fit(
                                Node::Three(Three(k1, k2, l, m, Box::new(n))),
                            ),
                            InsertResult::Split(s) => InsertResult::Split(
                                s.spec_to_two().spec_to_three(k2, m).spec_to_split_node(k1, l),
                            ),
                        }
                    } else {
                        match m.spec_insert(v) {
                            InsertResult::Fit(n) => InsertResult::Fit(
                                Node::Three(Three(k1, k2, l, Box::new(n), r)),
                            ),
                            InsertResult::Split(s) => InsertResult::Split(
                                s.spec_to_two().spec_to_three(k1, l).spec_to_split_node(k2, r),
                            ),
                        }
                    }
                },
            }
        }
    }
}

impl<V: TotalOrder> Node<V> {
    /// Choose the child `to_insert` descends into, `Leaf` on a leaf shape.
    pub fn next_direction(&self, to_insert: &V) -> (r: Direction)
        ensures
            r == self.spec_next_direction(*to_insert),
    {
        match self {
            Node::Two(Two(value, _, _)) => {
                if lt_exec(to_insert, value) {
                    Direction::Left
                } else {
                    Direction::Middle
                }
            },
            Node::Three(Three(value1, value2, _, _, _)) => {
                if lt_exec(to_insert, value1) {
                    Direction::Left
                } else if lt_exec(value2, to_insert) {
                    Direction::Right
                } else {
                    Direction::Middle
                }
            },
            _ => Direction::Leaf,
        }
    }

    /// Whether `value` equals one of the keys stored in this node itself.
    pub fn has_value(&self, value: &V) -> (r: bool)
        ensures
            r == self.has_key_here(*value),
    {
        match self {
            Node::LeafTwo(n) => n.has_value(value),
            Node::LeafThree(n) => n.has_value(value),
            Node::Two(n) => n.has_value(value),
            Node::Three(n) => n.has_value(value),
        }
    }

    /// Insert `to_insert` into this subtree. The outcome — fit or split,
    /// and the exact shape either way — is the one the model gives.
    pub fn insert(self, to_insert: V) -> (r: InsertResult<V>)
        ensures
            r == self.spec_insert(to_insert),
        decreases self,
    {
        // A key already stored in this node makes the insertion a no-op.
        if self.has_value(&to_insert) {
            return InsertResult::Fit(self);
        }
        let next_direction = self.next_direction(&to_insert);
        match self {
            Node::LeafTwo(leaf_two) => {
                let three_node = leaf_two.to_three(to_insert);
                InsertResult::Fit(three_node.as_node())
            },
            Node::LeafThree(leaf_three) => {
                let split_node = leaf_three.to_split_node(to_insert);
                InsertResult::Split(split_node)
            },
            Node::Two(Two(value, left, middle)) => {
                match next_direction {
                    Direction::Left => {
                        match (*left).insert(to_insert) {
                            InsertResult::Fit(returned_node) => InsertResult::Fit(
                                Two(value, Box::new(returned_node), middle).as_node(),
                            ),
                            InsertResult::Split(split_node) => InsertResult::Fit(
                                split_node.to_two().to_three(value, middle).as_node(),
                            ),
                        }
                    },
                    Direction::Middle => {
                        match (*middle).insert(to_insert) {
                            InsertResult::Fit(returned_node) => InsertResult::Fit(
                                Two(value, left, Box::new(returned_node)).as_node(),
                            ),
                            InsertResult::Split(split_node) => InsertResult::Fit(
                                split_node.to_two().to_three(value, left).as_node(),
                            ),
                        }
                    },
                    _ => vstd::pervasive::unreached(),
                }
            },
            Node::Three(Three(value1, value2, left, middle, right)) => {
                match next_direction {
                    Direction::Left => {
                        match (*left).insert(to_insert) {
                            InsertResult::Fit(returned_node) => InsertResult::Fit(
                                Three(value1, value2, Box::new(returned_node), middle, right)
                                    .as_node(),
                            ),
                            InsertResult::Split(split_node) => InsertResult::Split(
                                split_node.to_two().to_three(value1, middle).to_split_node(
                                    value2,
                                    right,
                                ),
                            ),
                        }
                    },
                    Direction::Right => {
                        match (*right).insert(to_insert) {
                            InsertResult::Fit(returned_node) => InsertResult::Fit(
                                Three(value1, value2, left, middle, Box::new(returned_node))
                                    .as_node(),
                            ),
                            InsertResult::Split(split_node) => InsertResult::Split(
                                split_node.to_two().to_three(value2, middle).to_split_node(
                                    value1,
                                    left,
                                ),
                            ),
                        }
                    },
                    Direction::Middle => {
                        match (*middle).insert(to_insert) {
                            InsertResult::Fit(returned_node) => InsertResult::Fit(
                                Three(value1, value2, left, Box::new(returned_node), right)
                                    .as_node(),
                            ),
                            InsertResult::Split(split_node) => InsertResult::Split(
                                split_node.to_two().to_three(value1, left).to_split_node(
                                    value2,
                                    right,
                                ),
                            ),
                        }
                    },
                    _ => vstd::pervasive::unreached(),
                }
            },
        }
    }
}

impl<V: TotalOrder> SplitNode<V> {
    /// The set of all keys carried by the bundle, its children included.
    pub open spec fn split_key_set(self) -> Set<V> {
        match self {
            SplitNode::LeafFour(a, b, c) => set![a, b, c],
            SplitNode::Four(a, b, c, n1, n2, n3, n4) => n1.key_set().union(n2.key_set()).union(
                n3.key_set(),
            ).union(n4.key_set()).insert(a).insert(b).insert(c),
        }
    }

    /// Well-formedness of a bundle made by a node of height `h` overflowing:
    /// its three keys strictly increase; an internal bundle carries four
    /// well-formed children of height `h - 1` whose keys lie strictly
    /// between the keys that flank them.
    pub open spec fn split_wf(self, h: nat) -> bool {
        match self {
            SplitNode::LeafFour(a, b, c) => h == 1 && key_lt(a, b) && key_lt(b, c),
            SplitNode::Four(a, b, c, n1, n2, n3, n4) => key_lt(a, b) && key_lt(b, c) && n1.wf()
                && n2.wf() && n3.wf() && n4.wf() && n1.height() + 1 == h && n2.height() + 1 == h
                && n3.height() + 1 == h && n4.height() + 1 == h && n1.all_lt(a) && n2.all_gt(a)
                && n2.all_lt(b) && n3.all_gt(b) && n3.all_lt(c) && n4.all_gt(c),
        }
    }

    /// Decomposition of the bundle into a stable `Two` node: the middle key
    /// becomes the key, and the outer keys become (or head) the children.
    /// This is the unique operation that grows a subtree by one level.
    pub open spec fn spec_to_two(self) -> Two<V> {
        match self {
            SplitNode::LeafFour(a, b, c) => Two(
                b,
                Box::new(Node::LeafTwo(LeafTwo(a))),
                Box::new(Node::LeafTwo(LeafTwo(c))),
            ),
            SplitNode::Four(a, b, c, n1, n2, n3, n4) => Two(
                b,
                Box::new(Node::Two(Two(a, n1, n2))),
                Box::new(Node::Two(Two(c, n3, n4))),
            ),
        }
    }

    /// Decompose the bundle into a stable `Two` node.
    pub fn to_two(self) -> (r: Two<V>)
        ensures
            r == self.spec_to_two(),
    {
        match self {
            SplitNode::LeafFour(v1, v2, v3) => Two(
                v2,
                Box::new(Node::LeafTwo(LeafTwo(v1))),
                Box::new(Node::LeafTwo(LeafTwo(v3))),
            ),
            SplitNode::Four(v1, v2, v3, n1, n2, n3, n4) => Two(
                v2,
                Box::new(Node::Two(Two(v1, n1, n2))),
                Box::new(Node::Two(Two(v3, n3, n4))),
            ),
        }
    }
}

impl<V: TotalOrder> Two<V> {
    /// Growth of a `Two` into a `Three` by one more key and child, placed on
    /// the side the order demands.
    pub open spec fn spec_to_three(self, other_value: V, other_node: Box<Node<V>>) -> Three<V> {
        if key_lt(other_value, self.0) {
            Three(other_value, self.0, other_node, self.1, self.2)
        } else {
            Three(self.0, other_value, self.1, self.2, other_node)
        }
    }

    /// Wrap this node into the `Node` sum.
    pub fn as_node(self) -> (r: Node<V>)
        ensures
            r == Node::Two(self),
    {
        Node::Two(self)
    }

    /// Absorb one more key and child, growing into a `Three`.
    pub fn to_three(self, other_value: V, other_node: Box<Node<V>>) -> (r: Three<V>)
        ensures
            r == self.spec_to_three(other_value, other_node),
    {
        let Two(self_value, self_left, self_middle) = self;
        if lt_exec(&other_value, &self_value) {
            Three(other_value, self_value, other_node, self_left, self_middle)
        } else {
            Three(self_value, other_value, self_left, self_middle, other_node)
        }
    }

    /// Whether `value` equals this node's key.
    pub fn has_value(&self, value: &V) -> (r: bool)
        ensures
            r == (self.0 == *value),
    {
        let Two(self_value, _, _) = self;
        eq_exec(self_value, value)
    }
}

impl<V: TotalOrder> Three<V> {
    /// Overflow of a `Three` taking one more key and child: the bundle holds
    /// the three keys and four children in order.
    pub open spec fn spec_to_split_node(self, other_value: V, other_node: Box<Node<V>>) -> SplitNode<
        V,
    > {
        if key_lt(other_value, self.0) {
            SplitNode::Four(other_value, self.0, self.1, other_node, self.2, self.3, self.4)
        } else {
            SplitNode::Four(self.0, self.1, other_value, self.2, self.3, self.4, other_node)
        }
    }

    /// Wrap this node into the `Node` sum.
    pub fn as_node(self) -> (r: Node<V>)
        ensures
            r == Node::Three(self),
    {
        Node::Three(self)
    }

    /// Take one more key and child, overflowing into a split bundle.
    pub fn to_split_node(self, other_value: V, other_node: Box<Node<V>>) -> (r: SplitNode<V>)
        ensures
            r == self.spec_to_split_node(other_value, other_node),
    {
        let Three(self_value1, self_value2, self_left, self_middle, self_right) = self;
        if lt_exec(&other_value, &self_value1) {
            SplitNode::Four(
                other_value,
                self_value1,
                self_value2,
                other_node,
                self_left,
                self_middle,
                self_right,
            )
        } else {
            SplitNode::Four(
                self_value1,
                self_value2,
                other_value,
                self_left,
                self_middle,
                self_right,
                other_node,
            )
        }
    }

    /// Whether `value` equals one of this node's two keys.
    pub fn has_value(&self, value: &V) -> (r: bool)
        ensures
            r == (self.0 == *value || self.1 == *value),
    {
        let Three(self_value1, self_value2, _, _, _) = self;
        eq_exec(self_value1, value) || eq_exec(self_value2, value)
    }
}

impl<V: TotalOrder> LeafTwo<V> {
    /// Growth of a one-key leaf into a two-key leaf, keys in order.
    pub open spec fn spec_to_three(self, other_value: V) -> LeafThree<V> {
        if key_lt(other_value, self.0) {
            LeafThree(other_value, self.0)
        } else {
            LeafThree(self.0, other_value)
        }
    }

    /// Grow into a two-key leaf by taking one more key.
    pub fn to_three(self, other_value: V) -> (r: LeafThree<V>)
        ensures
            r == self.spec_to_three(other_value),
    {
        let LeafTwo(self_value) = self;
        if lt_exec(&other_value, &self_value) {
            LeafThree(other_value, self_value)
        } else {
            LeafThree(self_value, other_value)
        }
    }

    /// Whether `value` equals this leaf's key.
    pub fn has_value(&self, value: &V) -> (r: bool)
        ensures
            r == (self.0 == *value),
    {
        let LeafTwo(self_value) = self;
        eq_exec(self_value, value)
    }
}

impl<V: TotalOrder> LeafThree<V> {
    /// Overflow of a two-key leaf taking a third key: the bundle holds the
    /// three keys sorted.
    pub open spec fn spec_to_split_node(self, value: V) -> SplitNode<V> {
        if key_lt(self.1, value) {
            SplitNode::LeafFour(self.0, self.1, value)
        } else if key_lt(value, self.0) {
            SplitNode::LeafFour(value, self.0, self.1)
        } else {
            SplitNode::LeafFour(self.0, value, self.1)
        }
    }

    /// Wrap this leaf into the `Node` sum.
    pub fn as_node(self) -> (r: Node<V>)
        ensures
            r == Node::LeafThree(self),
    {
        Node::LeafThree(self)
    }

    /// Take a third key, overflowing into a split bundle of the three keys.
    pub fn to_split_node(self, value: V) -> (r: SplitNode<V>)
        ensures
            r == self.spec_to_split_node(value),
    {
        let LeafThree(value1, value2) = self;
        if lt_exec(&value2, &value) {
            SplitNode::LeafFour(value1, value2, value)
        } else if lt_exec(&value, &value1) {
            SplitNode::LeafFour(value, value1, value2)
        } else {
            SplitNode::LeafFour(value1, value, value2)
        }
    }

    /// Whether `value` equals one of this leaf's two keys.
    pub fn has_value(&self, value: &V) -> (r: bool)
        ensures
            r == (self.0 == *value || self.1 == *value),
    {
        let LeafThree(self_value1, self_value2) = self;
        eq_exec(self_value1, value) || eq_exec(self_value2, value)
    }
}

} // verus!
