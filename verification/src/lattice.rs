//! Generic lattices for lattice relations.

use std::cmp::Ordering;
use vstd::prelude::*;
use vstd::std_specs::cmp::PartialEqSpec;

verus! {

/// A lattice that enforces a *functional dependency*: for a given key there is at most one value.
///
/// The order is `Bottom < Value(_)`, with every distinct `Value` a maximal element, incomparable
/// with the others. `join` is sticky: `Bottom` adopts the incoming value, and a `Value` keeps the
/// one it has, so that under a genuine functional dependency it is exact and does not depend on
/// the order in which values arrive; where the dependency is violated the first value wins.
/// `meet` is a greatest lower bound: two distinct values meet at `Bottom`.
#[derive(Clone, PartialEq, Eq, Hash, Debug)]
pub enum Consistent<T> {
    /// No value yet: the lattice bottom and the identity for `join`.
    Bottom,
    /// A value. Maximal: once reached, `join` never moves off it.
    Value(T),
}

impl<T> Default for Consistent<T> {
    /// No value yet.
    fn default() -> (c: Self)
        ensures
            c == Consistent::<T>::Bottom,
    {
        Consistent::Bottom
    }
}

impl<T> Consistent<T> {
    /// Returns the value, if any.
    pub fn value(&self) -> (v: Option<&T>)
        ensures
            v == (match self {
                Consistent::Value(x) => Some(x),
                Consistent::Bottom => None,
            }),
    {
        match self {
            Consistent::Value(v) => Some(v),
            Consistent::Bottom => None,
        }
    }
}

/// How two elements compare: `Bottom` is below every value, and distinct values are incomparable.
pub open spec fn compared<T: Eq>(a: &Consistent<T>, b: &Consistent<T>) -> Option<Ordering> {
    match (a, b) {
        (Consistent::Bottom, Consistent::Bottom) => Some(Ordering::Equal),
        (Consistent::Bottom, Consistent::Value(_)) => Some(Ordering::Less),
        (Consistent::Value(_), Consistent::Bottom) => Some(Ordering::Greater),
        (Consistent::Value(x), Consistent::Value(y)) => if x.eq_spec(y) {
            Some(Ordering::Equal)
        } else {
            None
        },
    }
}

impl<T: Eq> vstd::std_specs::cmp::PartialOrdSpecImpl for Consistent<T> {
    open spec fn obeys_partial_cmp_spec() -> bool {
        T::obeys_eq_spec()
    }

    open spec fn partial_cmp_spec(&self, other: &Self) -> Option<Ordering> {
        compared(self, other)
    }
}

impl<T: Eq> PartialOrd for Consistent<T> {
    /// `Bottom < Value(_)`; distinct values are incomparable.
    fn partial_cmp(&self, other: &Self) -> (o: Option<Ordering>) {
        match (self, other) {
            (Consistent::Bottom, Consistent::Bottom) => Some(Ordering::Equal),
            (Consistent::Bottom, Consistent::Value(_)) => Some(Ordering::Less),
            (Consistent::Value(_), Consistent::Bottom) => Some(Ordering::Greater),
            (Consistent::Value(a), Consistent::Value(b)) => if *a == *b {
                Some(Ordering::Equal)
            } else {
                None
            },
        }
    }
}

/// Whether `a` is at or below `b`.
pub open spec fn at_most<T: Eq>(a: &Consistent<T>, b: &Consistent<T>) -> bool {
    match (a, b) {
        (Consistent::Bottom, _) => true,
        (Consistent::Value(_), Consistent::Bottom) => false,
        (Consistent::Value(x), Consistent::Value(y)) => x.eq_spec(y),
    }
}

/// The greatest element at or below both.
pub open spec fn met<T: Eq>(a: Consistent<T>, b: Consistent<T>) -> Consistent<T> {
    if at_most(&a, &b) {
        a
    } else {
        Consistent::Bottom
    }
}

/// What the element `a` becomes when `b` arrives.
pub open spec fn joined<T>(a: Consistent<T>, b: Consistent<T>) -> Consistent<T> {
    match a {
        Consistent::Bottom => b,
        Consistent::Value(_) => a,
    }
}

impl<T: Clone + Eq> Consistent<T> {
    /// Greatest lower bound: distinct values meet at `Bottom`. Says whether `self` changed.
    ///
    /// Which values are distinct is up to `T`'s own `==`; whatever that answers, `Bottom` stays
    /// where it is, and a value is either kept or dropped.
    pub fn meet_mut(&mut self, other: Self) -> (changed: bool)
        ensures
            T::obeys_eq_spec() ==> *final(self) == met(*old(self), other),
            T::obeys_eq_spec() ==> changed == !at_most(old(self), &other),
            changed == (*old(self) is Value && *final(self) is Bottom),
            !changed ==> *final(self) == *old(self),
            other is Bottom ==> *final(self) is Bottom,
    {
        let keep = match (&*self, &other) {
            (Consistent::Bottom, _) => true,
            (Consistent::Value(a), Consistent::Value(b)) => *a == *b,
            (Consistent::Value(_), Consistent::Bottom) => false,
        };
        if keep {
            false
        } else {
            *self = Consistent::Bottom;
            true
        }
    }

    /// Sticky least upper bound: `Bottom` adopts `other`; a `Value` never moves. Says whether
    /// `self` changed.
    pub fn join_mut(&mut self, other: Self) -> (changed: bool)
        ensures
            *final(self) == joined(*old(self), other),
            changed == (*old(self) is Bottom && other is Value),
    {
        match self {
            Consistent::Value(_) => false,
            Consistent::Bottom => match other {
                Consistent::Bottom => false,
                Consistent::Value(_) => {
                    *self = other;
                    true
                },
            },
        }
    }
}

/// Whether `T`'s `==` is an equivalence.
pub open spec fn equivalence<T: Eq>() -> bool {
    &&& forall|x: T| #[trigger] x.eq_spec(&x)
    &&& forall|x: T, y: T| #[trigger] x.eq_spec(&y) ==> y.eq_spec(&x)
    &&& forall|x: T, y: T, z: T| #[trigger]
        x.eq_spec(&y) && #[trigger] y.eq_spec(&z) ==> x.eq_spec(&z)
}

/// The order is reflexive and transitive, and `Bottom` is below everything.
pub proof fn order_is_a_preorder<T: Eq>(a: Consistent<T>, b: Consistent<T>, c: Consistent<T>)
    requires
        equivalence::<T>(),
    ensures
        at_most(&a, &a),
        at_most(&a, &b) && at_most(&b, &c) ==> at_most(&a, &c),
        at_most(&Consistent::Bottom, &a),
{
}

/// What comparing says is what the order says.
pub proof fn comparing_is_the_order<T: Eq>(a: Consistent<T>, b: Consistent<T>)
    requires
        equivalence::<T>(),
    ensures
        compared(&a, &b) == Some(Ordering::Less) <==> at_most(&a, &b) && !at_most(&b, &a),
        compared(&a, &b) == Some(Ordering::Greater) <==> at_most(&b, &a) && !at_most(&a, &b),
        compared(&a, &b) == Some(Ordering::Equal) <==> at_most(&a, &b) && at_most(&b, &a),
        compared(&a, &b) is None <==> !at_most(&a, &b) && !at_most(&b, &a),
{
}

/// `Bottom` is the identity for `join`, on either side.
pub proof fn bottom_is_the_identity_of_join<T>(a: Consistent<T>)
    ensures
        joined(Consistent::Bottom, a) == a,
        joined(a, Consistent::Bottom) == a,
{
}

/// Once a key holds a value, no sequence of joins moves it.
pub proof fn a_value_is_a_fixed_point_of_join<T>(v: T, arrivals: Seq<Consistent<T>>)
    ensures
        arrivals.fold_left(Consistent::Value(v), |a: Consistent<T>, b: Consistent<T>| joined(a, b))
            == Consistent::Value(v),
    decreases arrivals.len(),
{
    let f = |a: Consistent<T>, b: Consistent<T>| joined(a, b);
    if arrivals.len() > 0 {
        a_value_is_a_fixed_point_of_join(v, arrivals.drop_last());
        assert(arrivals.fold_left(Consistent::Value(v), f) == f(
            arrivals.drop_last().fold_left(Consistent::Value(v), f),
            arrivals.last(),
        ));
    }
}

/// Under a genuine functional dependency, where only one value is ever proposed, the order in
/// which two elements arrive does not matter, and the join is their least upper bound.
pub proof fn join_is_exact_under_a_functional_dependency<T: Eq>(
    a: Consistent<T>,
    b: Consistent<T>,
    upper: Consistent<T>,
)
    requires
        equivalence::<T>(),
        a is Value && b is Value ==> a == b,
    ensures
        joined(a, b) == joined(b, a),
        at_most(&a, &joined(a, b)),
        at_most(&b, &joined(a, b)),
        at_most(&a, &upper) && at_most(&b, &upper) ==> at_most(&joined(a, b), &upper),
{
}

/// What a key holds after some elements have arrived, one after the other.
pub open spec fn joined_all<T>(start: Consistent<T>, arrivals: Seq<Consistent<T>>) -> Consistent<T> {
    arrivals.fold_left(start, |a: Consistent<T>, b: Consistent<T>| joined(a, b))
}

/// Whether only one value is proposed.
pub open spec fn one_value<T>(start: Consistent<T>, arrivals: Seq<Consistent<T>>) -> bool {
    &&& forall|i: int, j: int|
        0 <= i < arrivals.len() && 0 <= j < arrivals.len() && (#[trigger] arrivals[i]) is Value && (
        #[trigger] arrivals[j]) is Value ==> arrivals[i] == arrivals[j]
    &&& forall|i: int|
        0 <= i < arrivals.len() && start is Value && (#[trigger] arrivals[i]) is Value
            ==> arrivals[i] == start
}

/// The value that is proposed is what is held in the end.
proof fn lemma_joined_all<T>(start: Consistent<T>, arrivals: Seq<Consistent<T>>)
    requires
        one_value(start, arrivals),
    ensures
        start is Value ==> joined_all(start, arrivals) == start,
        forall|i: int|
            0 <= i < arrivals.len() && (#[trigger] arrivals[i]) is Value ==> joined_all(
                start,
                arrivals,
            ) == arrivals[i],
        start is Bottom && (forall|i: int|
            0 <= i < arrivals.len() ==> (#[trigger] arrivals[i]) is Bottom) ==> joined_all(
            start,
            arrivals,
        ) is Bottom,
    decreases arrivals.len(),
{
    let f = |a: Consistent<T>, b: Consistent<T>| joined(a, b);
    if arrivals.len() > 0 {
        let before = arrivals.drop_last();
        assert(joined_all(start, arrivals) == f(before.fold_left(start, f), arrivals.last()));
        assert forall|i: int, j: int|
            0 <= i < before.len() && 0 <= j < before.len() && (#[trigger] before[i]) is Value && (
            #[trigger] before[j]) is Value implies before[i] == before[j] by {
            assert(arrivals[i] == before[i] && arrivals[j] == before[j]);
        }
        lemma_joined_all(start, before);
        assert forall|i: int| 0 <= i < arrivals.len() && (#[trigger] arrivals[i]) is Value implies joined_all(
            start,
            arrivals,
        ) == arrivals[i] by {
            if i < before.len() {
                assert(before[i] == arrivals[i]);
            } else if start is Bottom {
                if exists|j: int| 0 <= j < before.len() && (#[trigger] before[j]) is Value {
                    let j = choose|j: int| 0 <= j < before.len() && (#[trigger] before[j]) is Value;
                    assert(arrivals[j] == before[j]);
                }
            }
        }
        if start is Bottom && (forall|i: int|
            0 <= i < arrivals.len() ==> (#[trigger] arrivals[i]) is Bottom) {
            assert forall|i: int| 0 <= i < before.len() implies (#[trigger] before[i]) is Bottom by {
                assert(arrivals[i] == before[i]);
            }
        }
    }
}

/// Under a genuine functional dependency, what a key holds does not depend on the order in which
/// elements arrive, nor on how often each of them does.
pub proof fn arrivals_count_in_any_order<T>(
    start: Consistent<T>,
    a: Seq<Consistent<T>>,
    b: Seq<Consistent<T>>,
)
    requires
        one_value(start, a),
        forall|x: Consistent<T>| #[trigger] a.contains(x) <==> b.contains(x),
    ensures
        joined_all(start, a) == joined_all(start, b),
{
    assert forall|i: int| 0 <= i < b.len() implies a.contains(#[trigger] b[i]) by {
        assert(b.contains(b[i]));
    }
    assert(one_value(start, b)) by {
        assert forall|i: int, j: int|
            0 <= i < b.len() && 0 <= j < b.len() && (#[trigger] b[i]) is Value && (
            #[trigger] b[j]) is Value implies b[i] == b[j] by {
            let k = choose|k: int| 0 <= k < a.len() && #[trigger] a[k] == b[i];
            let m = choose|m: int| 0 <= m < a.len() && #[trigger] a[m] == b[j];
            assert(a[k] == a[m]);
        }
        assert forall|i: int|
            0 <= i < b.len() && start is Value && (#[trigger] b[i]) is Value implies b[i]
            == start by {
            let k = choose|k: int| 0 <= k < a.len() && #[trigger] a[k] == b[i];
            assert(a[k] == start);
        }
    }
    lemma_joined_all(start, a);
    lemma_joined_all(start, b);
    if start is Bottom {
        if exists|i: int| 0 <= i < b.len() && (#[trigger] b[i]) is Value {
            let i = choose|i: int| 0 <= i < b.len() && (#[trigger] b[i]) is Value;
            let k = choose|k: int| 0 <= k < a.len() && #[trigger] a[k] == b[i];
            assert(a[k] is Value);
        } else {
            assert forall|i: int| 0 <= i < a.len() implies (#[trigger] a[i]) is Bottom by {
                assert(a.contains(a[i]));
                assert(b.contains(a[i]));
                let k = choose|k: int| 0 <= k < b.len() && b[k] == a[i];
                assert(b[k] is Bottom);
            }
        }
    }
}

/// Under a genuine functional dependency, elements may arrive in the order of any permutation.
pub proof fn arrivals_may_be_permuted<T>(
    start: Consistent<T>,
    a: Seq<Consistent<T>>,
    b: Seq<Consistent<T>>,
)
    requires
        one_value(start, a),
        a.to_multiset() == b.to_multiset(),
    ensures
        joined_all(start, a) == joined_all(start, b),
{
    assert forall|x: Consistent<T>| #[trigger] a.contains(x) <==> b.contains(x) by {
        vstd::seq_lib::to_multiset_contains(a, x);
        vstd::seq_lib::to_multiset_contains(b, x);
    }
    arrivals_count_in_any_order(start, a, b);
}

/// `meet` is a greatest lower bound.
pub proof fn meet_is_a_greatest_lower_bound<T: Eq>(
    a: Consistent<T>,
    b: Consistent<T>,
    lower: Consistent<T>,
)
    requires
        equivalence::<T>(),
    ensures
        at_most(&met(a, b), &a),
        at_most(&met(a, b), &b),
        at_most(&lower, &a) && at_most(&lower, &b) ==> at_most(&lower, &met(a, b)),
{
}

} // verus!
