//! The lattice of at most one value.

use std::cmp::Ordering;

use ctadl_ascent::lattice::Consistent;

#[test]
fn bottom_adopts_the_first_value() {
    let mut c = Consistent::Bottom;
    assert!(c.join_mut(Consistent::Value(1)));
    assert_eq!(c, Consistent::Value(1));
    assert!(!c.join_mut(Consistent::Value(2)));
    assert_eq!(c.value(), Some(&1));
    assert!(!c.join_mut(Consistent::Bottom));
    assert_eq!(c, Consistent::Value(1));
}

#[test]
fn joining_bottom_changes_nothing() {
    let mut c = Consistent::<u8>::default();
    assert!(!c.join_mut(Consistent::Bottom));
    assert_eq!(c.value(), None);
}

#[test]
fn one_value_arrives_in_any_order() {
    let mut a = Consistent::Bottom;
    a.join_mut(Consistent::Value("v"));
    a.join_mut(Consistent::Bottom);
    let mut b = Consistent::Bottom;
    b.join_mut(Consistent::Bottom);
    b.join_mut(Consistent::Value("v"));
    assert_eq!(a, b);
}

#[test]
fn distinct_values_meet_at_bottom() {
    let mut c = Consistent::Value(1);
    assert!(!c.meet_mut(Consistent::Value(1)));
    assert_eq!(c, Consistent::Value(1));
    assert!(c.meet_mut(Consistent::Value(2)));
    assert_eq!(c, Consistent::Bottom);
    assert!(!c.meet_mut(Consistent::Value(2)));
    let mut c = Consistent::Value(1);
    assert!(c.meet_mut(Consistent::Bottom));
    assert_eq!(c, Consistent::Bottom);
}

#[test]
fn distinct_values_are_incomparable() {
    let bottom = Consistent::<u8>::Bottom;
    let one = Consistent::Value(1u8);
    let two = Consistent::Value(2u8);
    assert_eq!(bottom.partial_cmp(&bottom), Some(Ordering::Equal));
    assert_eq!(bottom.partial_cmp(&one), Some(Ordering::Less));
    assert_eq!(one.partial_cmp(&bottom), Some(Ordering::Greater));
    assert_eq!(one.partial_cmp(&one), Some(Ordering::Equal));
    assert_eq!(one.partial_cmp(&two), None);
    assert!(bottom < one);
}

#[test]
fn elements_may_arrive_in_any_order() {
    let proposals = [Consistent::Bottom, Consistent::Value(7), Consistent::Bottom, Consistent::Value(7)];
    for order in [[0, 1, 2, 3], [3, 2, 1, 0], [1, 3, 0, 2], [2, 0, 3, 1]] {
        let mut held: Consistent<i32> = Consistent::Bottom;
        for i in order {
            held.join_mut(proposals[i].clone());
        }
        assert_eq!(held, Consistent::Value(7));
    }
}
