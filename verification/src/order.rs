//! The total order that tree keys must carry.
//!
//! The tree is generic over its key type; all it asks of a key is a total
//! order. The [`TotalOrder`] trait packages the order: a specification-level
//! relation `le`, proof obligations that make it a total order agreeing with
//! structural equality, and an executable three-way comparison. `u64` keys
//! are given an instance at the bottom of this module.

use vstd::prelude::*;

verus! {

/// Outcome of an executable three-way comparison of two keys.
#[derive(Clone, Copy, PartialEq, Eq, Debug)]
pub enum Comparison {
    Less,
    Equal,
    Greater,
}

/// A total order on a key type, respecting structural equality.
pub trait TotalOrder: Sized {
    /// The order itself, at the specification level ("less than or equal").
    spec fn le(self, other: Self) -> bool;

    proof fn lemma_reflexive(a: Self)
        ensures
            a.le(a),
    ;

    proof fn lemma_transitive(a: Self, b: Self, c: Self)
        requires
            a.le(b),
            b.le(c),
        ensures
            a.le(c),
    ;

    proof fn lemma_antisymmetric(a: Self, b: Self)
        requires
            a.le(b),
            b.le(a),
        ensures
            a == b,
    ;

    proof fn lemma_total(a: Self, b: Self)
        ensures
            a.le(b) || b.le(a),
    ;

    /// Executable comparison, tied to `le` and to structural equality.
    fn compare(&self, other: &Self) -> (c: Comparison)
        ensures
            (match c {
                Comparison::Less => self.le(*other) && *self != *other,
                Comparison::Equal => *self == *other,
                Comparison::Greater => other.le(*self) && *self != *other,
            }),
    ;
}

/// Strict order derived from `le`: `a` comes strictly before `b`.
pub open spec fn key_lt<V: TotalOrder>(a: V, b: V) -> bool {
    a.le(b) && a != b
}

/// Two distinct keys are strictly ordered one way or the other.
pub proof fn lemma_key_trichotomy<V: TotalOrder>(a: V, b: V)
    ensures
        a == b || key_lt(a, b) || key_lt(b, a),
{
    TotalOrder::lemma_total(a, b);
}

/// The strict order is asymmetric.
pub proof fn lemma_key_lt_asym<V: TotalOrder>(a: V, b: V)
    requires
        key_lt(a, b),
    ensures
        !key_lt(b, a),
{
    if key_lt(b, a) {
        TotalOrder::lemma_antisymmetric(a, b);
    }
}

/// The strict order is transitive.
pub proof fn lemma_key_lt_trans<V: TotalOrder>(a: V, b: V, c: V)
    requires
        key_lt(a, b),
        key_lt(b, c),
    ensures
        key_lt(a, c),
{
    TotalOrder::lemma_transitive(a, b, c);
    if a == c {
        TotalOrder::lemma_antisymmetric(a, b);
    }
}

/// Executable strict comparison of two keys.
pub fn lt_exec<V: TotalOrder>(a: &V, b: &V) -> (r: bool)
    ensures
        r == key_lt(*a, *b),
{
    match a.compare(b) {
        Comparison::Less => true,
        Comparison::Equal => false,
        Comparison::Greater => {
            proof {
                if a.le(*b) {
                    TotalOrder::lemma_antisymmetric(*a, *b);
                }
            }
            false
        },
    }
}

/// Executable equality test on two keys.
pub fn eq_exec<V: TotalOrder>(a: &V, b: &V) -> (r: bool)
    ensures
        r == (*a == *b),
{
    match a.compare(b) {
        Comparison::Equal => true,
        _ => false,
    }
}

impl TotalOrder for u64 {
    open spec fn le(self, other: Self) -> bool {
        self <= other
    }

    proof fn lemma_reflexive(a: Self) {
    }

    proof fn lemma_transitive(a: Self, b: Self, c: Self) {
    }

    proof fn lemma_antisymmetric(a: Self, b: Self) {
    }

    proof fn lemma_total(a: Self, b: Self) {
    }

    fn compare(&self, other: &Self) -> (c: Comparison) {
        if *self < *other {
            Comparison::Less
        } else if *self > *other {
            Comparison::Greater
        } else {
            Comparison::Equal
        }
    }
}

} // verus!
