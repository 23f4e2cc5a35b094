//! The laws of insertion, proved once and for all.
//!
//! The executable code's contracts pin every insertion outcome to the
//! specification-level model in [`crate::node`]; the lemmas here say what
//! that model guarantees: every insertion preserves well-formedness, adds
//! exactly the given key, keeps the height except at a root split, is a
//! no-op on a key already present, and keeps the in-order key sequence
//! strictly sorted and free of duplicates.

use vstd::prelude::*;

use crate::node::InsertResult;
use crate::node::LeafThree;
use crate::node::LeafTwo;
use crate::node::Node;
use crate::node::SplitNode;
use crate::node::Three;
use crate::node::Two;
use crate::order::key_lt;
use crate::order::lemma_key_lt_asym;
use crate::order::lemma_key_lt_trans;
use crate::order::lemma_key_trichotomy;
use crate::order::TotalOrder;
use crate::tree::TTTree;

verus! {

/// Decomposing a well-formed overflow bundle of a node of height `h` yields
/// a well-formed `Two` node, one level taller, carrying exactly the bundle's
/// keys.
pub proof fn lemma_split_to_two<V: TotalOrder>(s: SplitNode<V>, h: nat)
    requires
        s.split_wf(h),
    ensures
        Node::Two(s.spec_to_two()).wf(),
        Node::Two(s.spec_to_two()).height() == h + 1,
        Node::Two(s.spec_to_two()).key_set() == s.split_key_set(),
{
    reveal_with_fuel(Node::key_set, 3);
    reveal_with_fuel(Node::height, 3);
    reveal_with_fuel(Node::wf, 3);
    match s {
        SplitNode::LeafFour(a, b, c) => {
            assert(Node::Two(s.spec_to_two()).key_set() =~= s.split_key_set());
        },
        SplitNode::Four(a, b, c, n1, n2, n3, n4) => {
            let left_half = Node::Two(Two(a, n1, n2));
            let right_half = Node::Two(Two(c, n3, n4));
            assert forall|x: V| left_half.key_set().contains(x) implies key_lt(x, b) by {
                if n1.key_set().contains(x) {
                    lemma_key_lt_trans(x, a, b);
                }
            }
            assert forall|x: V| right_half.key_set().contains(x) implies key_lt(b, x) by {
                if n4.key_set().contains(x) {
                    lemma_key_lt_trans(b, c, x);
                }
            }
            assert(Node::Two(s.spec_to_two()).key_set() =~= s.split_key_set());
        },
    }
}

/// A well-formed `Two` node standing left of a key `k`, next to a sibling
/// `o` of matching height standing right of `k`, grows into a well-formed
/// `Three` node of the same height holding both parts' keys and `k`.
pub proof fn lemma_absorb_left<V: TotalOrder>(t: Two<V>, k: V, o: Box<Node<V>>)
    requires
        Node::Two(t).wf(),
        o.wf(),
        o.height() + 1 == Node::Two(t).height(),
        Node::Two(t).all_lt(k),
        o.all_gt(k),
    ensures
        Node::Three(t.spec_to_three(k, o)).wf(),
        Node::Three(t.spec_to_three(k, o)).height() == Node::Two(t).height(),
        Node::Three(t.spec_to_three(k, o)).key_set() == Node::Two(t).key_set().union(
            o.key_set(),
        ).insert(k),
{
    let Two(tv, _, tm) = t;
    assert(Node::Two(t).key_set().contains(tv));
    lemma_key_lt_asym(tv, k);
    assert forall|x: V| tm.key_set().contains(x) implies key_lt(x, k) by {
        assert(Node::Two(t).key_set().contains(x));
    }
    assert(Node::Three(t.spec_to_three(k, o)).key_set() =~= Node::Two(t).key_set().union(
        o.key_set(),
    ).insert(k));
}

/// A well-formed `Two` node standing right of a key `k`, next to a sibling
/// `o` of matching height standing left of `k`, grows into a well-formed
/// `Three` node of the same height holding both parts' keys and `k`.
pub proof fn lemma_absorb_right<V: TotalOrder>(t: Two<V>, k: V, o: Box<Node<V>>)
    requires
        Node::Two(t).wf(),
        o.wf(),
        o.height() + 1 == Node::Two(t).height(),
        Node::Two(t).all_gt(k),
        o.all_lt(k),
    ensures
        Node::Three(t.spec_to_three(k, o)).wf(),
        Node::Three(t.spec_to_three(k, o)).height() == Node::Two(t).height(),
        Node::Three(t.spec_to_three(k, o)).key_set() == Node::Two(t).key_set().union(
            o.key_set(),
        ).insert(k),
{
    let Two(tv, tl, _) = t;
    assert(Node::Two(t).key_set().contains(tv));
    assert forall|x: V| tl.key_set().contains(x) implies key_lt(k, x) by {
        assert(Node::Two(t).key_set().contains(x));
    }
    assert(Node::Three(t.spec_to_three(k, o)).key_set() =~= Node::Two(t).key_set().union(
        o.key_set(),
    ).insert(k));
}

/// A well-formed `Three` node standing left of a key `k`, next to a sibling
/// `o` of matching height standing right of `k`, overflows into a
/// well-formed bundle carrying both parts' keys and `k`.
pub proof fn lemma_overflow_left<V: TotalOrder>(t: Three<V>, k: V, o: Box<Node<V>>)
    requires
        Node::Three(t).wf(),
        o.wf(),
        o.height() + 1 == Node::Three(t).height(),
        Node::Three(t).all_lt(k),
        o.all_gt(k),
    ensures
        t.spec_to_split_node(k, o).split_wf(Node::Three(t).height()),
        t.spec_to_split_node(k, o).split_key_set() == Node::Three(t).key_set().union(
            o.key_set(),
        ).insert(k),
{
    let Three(a, b, _, _, tr) = t;
    assert(Node::Three(t).key_set().contains(a));
    assert(Node::Three(t).key_set().contains(b));
    lemma_key_lt_asym(a, k);
    assert forall|x: V| tr.key_set().contains(x) implies key_lt(x, k) by {
        assert(Node::Three(t).key_set().contains(x));
    }
    assert(t.spec_to_split_node(k, o).split_key_set() =~= Node::Three(t).key_set().union(
        o.key_set(),
    ).insert(k));
}

/// A well-formed `Three` node standing right of a key `k`, next to a sibling
/// `o` of matching height standing left of `k`, overflows into a
/// well-formed bundle carrying both parts' keys and `k`.
pub proof fn lemma_overflow_right<V: TotalOrder>(t: Three<V>, k: V, o: Box<Node<V>>)
    requires
        Node::Three(t).wf(),
        o.wf(),
        o.height() + 1 == Node::Three(t).height(),
        Node::Three(t).all_gt(k),
        o.all_lt(k),
    ensures
        t.spec_to_split_node(k, o).split_wf(Node::Three(t).height()),
        t.spec_to_split_node(k, o).split_key_set() == Node::Three(t).key_set().union(
            o.key_set(),
        ).insert(k),
{
    let Three(a, b, tl, _, _) = t;
    assert(Node::Three(t).key_set().contains(a));
    assert(Node::Three(t).key_set().contains(b));
    assert forall|x: V| tl.key_set().contains(x) implies key_lt(k, x) by {
        assert(Node::Three(t).key_set().contains(x));
    }
    assert(t.spec_to_split_node(k, o).split_key_set() =~= Node::Three(t).key_set().union(
        o.key_set(),
    ).insert(k));
}

/// Inserting into a well-formed subtree either fits — yielding a well-formed
/// subtree of unchanged height — or splits — yielding a well-formed bundle
/// at the subtree's height. Either way the outcome carries exactly the old
/// keys plus the inserted one.
pub proof fn lemma_node_insert<V: TotalOrder>(n: Node<V>, v: V)
    requires
        n.wf(),
    ensures
        (match n.spec_insert(v) {
            InsertResult::Fit(m) => m.wf() && m.height() == n.height() && m.key_set()
                == n.key_set().insert(v),
            InsertResult::Split(s) => s.split_wf(n.height()) && s.split_key_set() == n.key_set()
                .insert(v),
        }),
    decreases n,
{
    if n.has_key_here(v) {
        assert(n.key_set().contains(v));
        assert(n.key_set().insert(v) =~= n.key_set());
    } else {
        match n {
            Node::LeafTwo(leaf) => {
                lemma_key_trichotomy(v, leaf.0);
                assert(Node::LeafThree(leaf.spec_to_three(v)).key_set() =~= n.key_set().insert(v));
            },
            Node::LeafThree(leaf) => {
                lemma_key_trichotomy(v, leaf.0);
                lemma_key_trichotomy(v, leaf.1);
                assert(leaf.spec_to_split_node(v).split_key_set() =~= n.key_set().insert(v));
            },
            Node::Two(Two(k, l, r)) => {
                if key_lt(v, k) {
                    lemma_node_insert(*l, v);
                    match l.spec_insert(v) {
                        InsertResult::Fit(nl) => {
                            assert forall|x: V| nl.key_set().contains(x) implies key_lt(x, k) by {
                                if l.key_set().contains(x) {
                                } else {
                                    assert(x == v);
                                }
                            }
                            let m = Node::Two(Two(k, Box::new(nl), r));
                            assert(m.key_set() =~= n.key_set().insert(v));
                        },
                        InsertResult::Split(s) => {
                            lemma_split_to_two(s, l.height());
                            let t2 = s.spec_to_two();
                            assert forall|x: V| Node::Two(t2).key_set().contains(x) implies key_lt(
                                x,
                                k,
                            ) by {
                                if l.key_set().contains(x) {
                                } else {
                                    assert(x == v);
                                }
                            }
                            lemma_absorb_left(t2, k, r);
                            assert(Node::Three(t2.spec_to_three(k, r)).key_set() =~= n.key_set()
                                .insert(v));
                        },
                    }
                } else {
                    lemma_key_trichotomy(v, k);
                    lemma_node_insert(*r, v);
                    match r.spec_insert(v) {
                        InsertResult::Fit(nr) => {
                            assert forall|x: V| nr.key_set().contains(x) implies key_lt(k, x) by {
                                if r.key_set().contains(x) {
                                } else {
                                    assert(x == v);
                                }
                            }
                            let m = Node::Two(Two(k, l, Box::new(nr)));
                            assert(m.key_set() =~= n.key_set().insert(v));
                        },
                        InsertResult::Split(s) => {
                            lemma_split_to_two(s, r.height());
                            let t2 = s.spec_to_two();
                            assert forall|x: V| Node::Two(t2).key_set().contains(x) implies key_lt(
                                k,
                                x,
                            ) by {
                                if r.key_set().contains(x) {
                                } else {
                                    assert(x == v);
                                }
                            }
                            lemma_absorb_right(t2, k, l);
                            assert(Node::Three(t2.spec_to_three(k, l)).key_set() =~= n.key_set()
                                .insert(v));
                        },
                    }
                }
            },
            Node::Three(Three(k1, k2, l, m, r)) => {
                if key_lt(v, k1) {
                    lemma_node_insert(*l, v);
                    match l.spec_insert(v) {
                        InsertResult::Fit(nl) => {
                            assert forall|x: V| nl.key_set().contains(x) implies key_lt(x, k1) by {
                                if l.key_set().contains(x) {
                                } else {
                                    assert(x == v);
                                }
                            }
                            let nn = Node::Three(Three(k1, k2, Box::new(nl), m, r));
                            assert(nn.key_set() =~= n.key_set().insert(v));
                        },
                        InsertResult::Split(s) => {
                            lemma_split_to_two(s, l.height());
                            let t2 = s.spec_to_two();
                            assert forall|x: V| Node::Two(t2).key_set().contains(x) implies key_lt(
                                x,
                                k1,
                            ) by {
                                if l.key_set().contains(x) {
                                } else {
                                    assert(x == v);
                                }
                            }
                            lemma_absorb_left(t2, k1, m);
                            let th = t2.spec_to_three(k1, m);
                            assert forall|x: V| Node::Three(th).key_set().contains(x) implies
                                key_lt(x, k2) by {
                                if l.key_set().contains(x) {
                                    lemma_key_lt_trans(x, k1, k2);
                                } else if x == v {
                                    lemma_key_lt_trans(v, k1, k2);
                                } else {
                                    assert(m.key_set().contains(x) || x == k1);
                                }
                            }
                            lemma_overflow_left(th, k2, r);
                            assert(th.spec_to_split_node(k2, r).split_key_set() =~= n.key_set()
                                .insert(v));
                        },
                    }
                } else if key_lt(k2, v) {
                    lemma_node_insert(*r, v);
                    match r.spec_insert(v) {
                        InsertResult::Fit(nr) => {
                            assert forall|x: V| nr.key_set().contains(x) implies key_lt(k2, x) by {
                                if r.key_set().contains(x) {
                                } else {
                                    assert(x == v);
                                }
                            }
                            let nn = Node::Three(Three(k1, k2, l, m, Box::new(nr)));
                            assert(nn.key_set() =~= n.key_set().insert(v));
                        },
                        InsertResult::Split(s) => {
                            lemma_split_to_two(s, r.height());
                            let t2 = s.spec_to_two();
                            assert forall|x: V| Node::Two(t2).key_set().contains(x) implies key_lt(
                                k2,
                                x,
                            ) by {
                                if r.key_set().contains(x) {
                                } else {
                                    assert(x == v);
                                }
                            }
                            lemma_absorb_right(t2, k2, m);
                            let th = t2.spec_to_three(k2, m);
                            assert forall|x: V| Node::Three(th).key_set().contains(x) implies
                                key_lt(k1, x) by {
                                if r.key_set().contains(x) {
                                    lemma_key_lt_trans(k1, k2, x);
                                } else if x == v {
                                    lemma_key_lt_trans(k1, k2, v);
                                } else {
                                    assert(m.key_set().contains(x) || x == k2);
                                }
                            }
                            lemma_overflow_right(th, k1, l);
                            assert(th.spec_to_split_node(k1, l).split_key_set() =~= n.key_set()
                                .insert(v));
                        },
                    }
                } else {
                    lemma_key_trichotomy(v, k1);
                    lemma_key_trichotomy(v, k2);
                    lemma_node_insert(*m, v);
                    match m.spec_insert(v) {
                        InsertResult::Fit(nm) => {
                            assert forall|x: V| nm.key_set().contains(x) implies key_lt(k1, x)
                                && key_lt(x, k2) by {
                                if m.key_set().contains(x) {
                                } else {
                                    assert(x == v);
                                }
                            }
                            let nn = Node::Three(Three(k1, k2, l, Box::new(nm), r));
                            assert(nn.key_set() =~= n.key_set().insert(v));
                        },
                        InsertResult::Split(s) => {
                            lemma_split_to_two(s, m.height());
                            let t2 = s.spec_to_two();
                            assert forall|x: V| Node::Two(t2).key_set().contains(x) implies key_lt(
                                k1,
                                x,
                            ) && key_lt(x, k2) by {
                                if m.key_set().contains(x) {
                                } else {
                                    assert(x == v);
                                }
                            }
                            lemma_absorb_right(t2, k1, l);
                            let th = t2.spec_to_three(k1, l);
                            assert forall|x: V| Node::Three(th).key_set().contains(x) implies
                                key_lt(x, k2) by {
                                if l.key_set().contains(x) {
                                    lemma_key_lt_trans(x, k1, k2);
                                } else {
                                    assert(Node::Two(t2).key_set().contains(x) || x == k1);
                                }
                            }
                            lemma_overflow_left(th, k2, r);
                            assert(th.spec_to_split_node(k2, r).split_key_set() =~= n.key_set()
                                .insert(v));
                        },
                    }
                }
            },
        }
    }
}

/// Inserting a key already stored somewhere in a well-formed subtree hands
/// the subtree back unchanged: the search finds the key on its way down and
/// stops.
pub proof fn lemma_insert_present<V: TotalOrder>(n: Node<V>, v: V)
    requires
        n.wf(),
        n.key_set().contains(v),
    ensures
        n.spec_insert(v) == InsertResult::Fit(n),
    decreases n,
{
    if !n.has_key_here(v) {
        match n {
            Node::LeafTwo(_) => {
                assert(false);
            },
            Node::LeafThree(_) => {
                assert(false);
            },
            Node::Two(Two(k, l, r)) => {
                if key_lt(v, k) {
                    if r.key_set().contains(v) {
                        lemma_key_lt_asym(v, k);
                        assert(false);
                    }
                    assert(l.key_set().contains(v));
                    lemma_insert_present(*l, v);
                } else {
                    if l.key_set().contains(v) {
                        assert(false);
                    }
                    assert(r.key_set().contains(v));
                    lemma_insert_present(*r, v);
                }
            },
            Node::Three(Three(k1, k2, l, m, r)) => {
                if key_lt(v, k1) {
                    if m.key_set().contains(v) {
                        lemma_key_lt_asym(v, k1);
                        assert(false);
                    }
                    if r.key_set().contains(v) {
                        lemma_key_lt_asym(v, k1);
                        lemma_key_lt_trans(k1, k2, v);
                        assert(false);
                    }
                    assert(l.key_set().contains(v));
                    lemma_insert_present(*l, v);
                } else if key_lt(k2, v) {
                    if l.key_set().contains(v) {
                        lemma_key_lt_asym(k2, v);
                        lemma_key_lt_trans(v, k1, k2);
                        assert(false);
                    }
                    if m.key_set().contains(v) {
                        lemma_key_lt_asym(k2, v);
                        assert(false);
                    }
                    assert(r.key_set().contains(v));
                    lemma_insert_present(*r, v);
                } else {
                    if l.key_set().contains(v) {
                        assert(false);
                    }
                    if r.key_set().contains(v) {
                        assert(false);
                    }
                    assert(m.key_set().contains(v));
                    lemma_insert_present(*m, v);
                }
            },
        }
    }
}

/// A sequence of keys in strictly increasing order.
pub open spec fn sorted_strict<V: TotalOrder>(s: Seq<V>) -> bool {
    forall|i: int, j: int| 0 <= i < j < s.len() ==> key_lt(s[i], s[j])
}

/// Two strictly sorted runs flanking a pivot key, every key of the first
/// below the pivot and every key of the second above it, concatenate into a
/// strictly sorted run holding exactly the keys of all three parts.
pub proof fn lemma_sorted_around_pivot<V: TotalOrder>(a: Seq<V>, k: V, b: Seq<V>)
    requires
        sorted_strict(a),
        sorted_strict(b),
        forall|x: V| a.contains(x) ==> key_lt(x, k),
        forall|x: V| b.contains(x) ==> key_lt(k, x),
    ensures
        sorted_strict(a + seq![k] + b),
        forall|x: V| (a + seq![k] + b).contains(x) <==> (a.contains(x) || x == k || b.contains(
            x,
        )),
{
    let s = a + seq![k] + b;
    assert forall|i: int, j: int| 0 <= i < j < s.len() implies key_lt(s[i], s[j]) by {
        if i < a.len() {
            assert(s[i] == a[i]);
            assert(a.contains(a[i]));
        } else if i == a.len() {
            assert(s[i] == k);
        } else {
            assert(s[i] == b[i - a.len() - 1]);
            assert(b.contains(b[i - a.len() - 1]));
        }
        if j < a.len() {
            assert(s[j] == a[j]);
        } else if j == a.len() {
            assert(s[j] == k);
        } else {
            assert(s[j] == b[j - a.len() - 1]);
            assert(b.contains(b[j - a.len() - 1]));
        }
        if i < a.len() && j > a.len() {
            lemma_key_lt_trans(a[i], k, b[j - a.len() - 1]);
        }
    }
    assert forall|x: V| s.contains(x) implies (a.contains(x) || x == k || b.contains(x)) by {
        let i = choose|i: int| 0 <= i < s.len() && s[i] == x;
        if i < a.len() {
            assert(a[i] == x);
        } else if i > a.len() {
            assert(b[i - a.len() - 1] == x);
        }
    }
    assert forall|x: V| (a.contains(x) || x == k || b.contains(x)) implies s.contains(x) by {
        if a.contains(x) {
            let i = choose|i: int| 0 <= i < a.len() && a[i] == x;
            assert(s[i] == x);
        } else if x == k {
            assert(s[a.len() as int] == x);
        } else {
            let i = choose|i: int| 0 <= i < b.len() && b[i] == x;
            assert(s[a.len() + 1 + i] == x);
        }
    }
}

/// The in-order key sequence of a well-formed subtree is strictly sorted,
/// and holds exactly the subtree's stored keys.
pub proof fn lemma_wf_keys_sorted<V: TotalOrder>(n: Node<V>)
    requires
        n.wf(),
    ensures
        sorted_strict(n.keys_in_order()),
        forall|x: V| n.keys_in_order().contains(x) ==> n.key_set().contains(x),
        forall|x: V| n.key_set().contains(x) ==> n.keys_in_order().contains(x),
    decreases n,
{
    match n {
        Node::LeafTwo(LeafTwo(a)) => {
            assert(n.keys_in_order() == seq![a]);
            assert forall|x: V| n.keys_in_order().contains(x) implies n.key_set().contains(x) by {
                let i = choose|i: int|
                    0 <= i < n.keys_in_order().len() && n.keys_in_order()[i] == x;
                assert(n.keys_in_order()[0] == a);
                assert(x == a);
            }
            assert forall|x: V| n.key_set().contains(x) implies n.keys_in_order().contains(x) by {
                assert(x == a);
                assert(n.keys_in_order()[0] == a);
                assert(n.keys_in_order().contains(a));
            }
        },
        Node::LeafThree(LeafThree(a, b)) => {
            let s = n.keys_in_order();
            assert(s == seq![a, b]);
            assert forall|i: int, j: int| 0 <= i < j < s.len() implies key_lt(s[i], s[j]) by {
                assert(s[0] == a && s[1] == b);
            }
            assert forall|x: V| s.contains(x) implies n.key_set().contains(x) by {
                let i = choose|i: int| 0 <= i < s.len() && s[i] == x;
                assert(s[0] == a && s[1] == b);
                assert(x == a || x == b);
            }
            assert forall|x: V| n.key_set().contains(x) implies s.contains(x) by {
                assert(s[0] == a && s[1] == b);
                assert(s.contains(a));
                assert(s.contains(b));
            }
        },
        Node::Two(Two(k, l, r)) => {
            lemma_wf_keys_sorted(*l);
            lemma_wf_keys_sorted(*r);
            lemma_sorted_around_pivot(l.keys_in_order(), k, r.keys_in_order());
            assert(n.keys_in_order() == l.keys_in_order() + seq![k] + r.keys_in_order());
            assert forall|x: V| n.keys_in_order().contains(x) implies n.key_set().contains(x) by {
                assert(l.keys_in_order().contains(x) || x == k || r.keys_in_order().contains(x));
            }
            assert forall|x: V| n.key_set().contains(x) implies n.keys_in_order().contains(x) by {
                assert(l.key_set().contains(x) || x == k || r.key_set().contains(x));
            }
        },
        Node::Three(Three(k1, k2, l, m, r)) => {
            lemma_wf_keys_sorted(*l);
            lemma_wf_keys_sorted(*m);
            lemma_wf_keys_sorted(*r);
            lemma_sorted_around_pivot(l.keys_in_order(), k1, m.keys_in_order());
            let left_run = l.keys_in_order() + seq![k1] + m.keys_in_order();
            assert forall|x: V| left_run.contains(x) implies key_lt(x, k2) by {
                if l.keys_in_order().contains(x) {
                    lemma_key_lt_trans(x, k1, k2);
                }
            }
            lemma_sorted_around_pivot(left_run, k2, r.keys_in_order());
            assert(n.keys_in_order() == left_run + seq![k2] + r.keys_in_order());
            assert forall|x: V| n.keys_in_order().contains(x) implies n.key_set().contains(x) by {
                assert(left_run.contains(x) || x == k2 || r.keys_in_order().contains(x));
                if left_run.contains(x) {
                    assert(l.keys_in_order().contains(x) || x == k1 || m.keys_in_order().contains(
                        x,
                    ));
                }
            }
            assert forall|x: V| n.key_set().contains(x) implies n.keys_in_order().contains(x) by {
                assert(l.key_set().contains(x) || x == k1 || m.key_set().contains(x) || x == k2
                    || r.key_set().contains(x));
                if l.key_set().contains(x) || x == k1 || m.key_set().contains(x) {
                    assert(left_run.contains(x));
                }
            }
        },
    }
}

/// A strictly sorted sequence holds no key twice.
pub proof fn lemma_sorted_no_duplicates<V: TotalOrder>(s: Seq<V>)
    requires
        sorted_strict(s),
    ensures
        s.no_duplicates(),
{
    assert forall|i: int, j: int|
        0 <= i < s.len() && 0 <= j < s.len() && i != j implies s[i] != s[j] by {
        if i < j {
            assert(key_lt(s[i], s[j]));
        } else {
            assert(key_lt(s[j], s[i]));
        }
    }
}

/// The in-order traversal of a well-formed tree yields its stored keys as a
/// strictly increasing sequence; in particular no key appears twice.
pub proof fn lemma_tree_keys_sorted<V: TotalOrder>(t: TTTree<V>)
    requires
        t.wf(),
    ensures
        sorted_strict(t.keys_in_order()),
        t.keys_in_order().no_duplicates(),
        forall|x: V| t.keys_in_order().contains(x) ==> t.key_set().contains(x),
        forall|x: V| t.key_set().contains(x) ==> t.keys_in_order().contains(x),
{
    match t.root {
        None => {
            lemma_sorted_no_duplicates(t.keys_in_order());
        },
        Some(n) => {
            lemma_wf_keys_sorted(n);
            lemma_sorted_no_duplicates(t.keys_in_order());
        },
    }
}

/// Insertion into a well-formed tree keeps it well-formed, adds exactly the
/// given key, and grows the height by one exactly when the root splits —
/// every other overflow is absorbed on the way up with the height unchanged.
pub proof fn lemma_tree_insert<V: TotalOrder>(t: TTTree<V>, v: V)
    requires
        t.wf(),
    ensures
        t.spec_insert(v).wf(),
        t.spec_insert(v).key_set() == t.key_set().insert(v),
        t.spec_insert(v).height() == (if t.root is None {
            1nat
        } else if t.splits_at_root(v) {
            t.height() + 1
        } else {
            t.height()
        }),
{
    match t.root {
        None => {
            reveal_with_fuel(Node::key_set, 2);
            reveal_with_fuel(Node::height, 2);
            reveal_with_fuel(Node::wf, 2);
            assert(Node::LeafTwo(LeafTwo(v)).key_set() =~= t.key_set().insert(v));
        },
        Some(n) => {
            lemma_node_insert(n, v);
            match n.spec_insert(v) {
                InsertResult::Fit(m) => {},
                InsertResult::Split(s) => {
                    lemma_split_to_two(s, n.height());
                },
            }
        },
    }
}

/// Inserting a key already present leaves the tree identical: same shape,
/// same keys, same child structure.
pub proof fn lemma_insert_duplicate_is_no_op<V: TotalOrder>(t: TTTree<V>, v: V)
    requires
        t.wf(),
        t.key_set().contains(v),
    ensures
        t.spec_insert(v) == t,
{
    match t.root {
        None => {
            assert(false);
        },
        Some(n) => {
            lemma_insert_present(n, v);
        },
    }
}

/// Inserting three distinct keys into the empty tree gives the same tree in
/// whatever order they come: the third insertion overflows the two-key leaf,
/// and the decomposed bundle is determined by the sorted triple alone. Here
/// `a, b, c` are the keys in insertion order and `x < y < z` the same keys
/// sorted; the result is always the split of the sorted triple.
pub proof fn lemma_leaf_overflow_permutation<V: TotalOrder>(a: V, b: V, c: V, x: V, y: V, z: V)
    requires
        a != b,
        a != c,
        b != c,
        key_lt(x, y),
        key_lt(y, z),
        set![a, b, c] == set![x, y, z],
    ensures
        (TTTree::<V> { root: None }).spec_insert(a).spec_insert(b).spec_insert(c) == (TTTree::<
            V,
        > {
            root: Some(
                Node::Two(
                    Two(
                        y,
                        Box::new(Node::LeafTwo(LeafTwo(x))),
                        Box::new(Node::LeafTwo(LeafTwo(z))),
                    ),
                ),
            ),
        }),
{
    lemma_key_trichotomy(a, b);
    lemma_key_trichotomy(a, c);
    lemma_key_trichotomy(b, c);
    if key_lt(a, b) {
        lemma_key_lt_asym(a, b);
    } else {
        lemma_key_lt_asym(b, a);
    }
    if key_lt(a, c) {
        lemma_key_lt_asym(a, c);
    } else {
        lemma_key_lt_asym(c, a);
    }
    if key_lt(b, c) {
        lemma_key_lt_asym(b, c);
    } else {
        lemma_key_lt_asym(c, b);
    }
    lemma_key_lt_asym(x, y);
    lemma_key_lt_asym(y, z);
    lemma_key_lt_trans(x, y, z);
    lemma_key_lt_asym(x, z);
    assert(set![x, y, z].contains(a) && set![x, y, z].contains(b) && set![x, y, z].contains(c))
        by {
        assert(set![a, b, c].contains(a) && set![a, b, c].contains(b) && set![a, b, c].contains(
            c,
        ));
    }
    let t0 = TTTree::<V> { root: None };
    let t1 = t0.spec_insert(a);
    let n1 = Node::LeafTwo(LeafTwo(a));
    assert(t1 == TTTree::<V> { root: Some(n1) });
    let l2 = LeafTwo(a).spec_to_three(b);
    assert(n1.spec_insert(b) == InsertResult::Fit(Node::LeafThree(l2)));
    let t2 = t1.spec_insert(b);
    let n2 = Node::LeafThree(l2);
    assert(t2 == TTTree::<V> { root: Some(n2) });
    let s3 = l2.spec_to_split_node(c);
    assert(n2.spec_insert(c) == InsertResult::Split(s3));
    let t3 = t2.spec_insert(c);
    assert(t3 == TTTree::<V> { root: Some(Node::Two(s3.spec_to_two())) });
    assert(s3 == SplitNode::LeafFour(x, y, z));
}

} // verus!
