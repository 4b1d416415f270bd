use rsm::numeric::{Amount, Counter};
use rsm::support::Identifier;

#[test]
fn amount_zero_is_zero() {
    assert_eq!(<u128 as Amount>::zero(), 0);
}

#[test]
fn amount_checked_add() {
    assert_eq!(Amount::checked_add(2u128, 3u128), Some(5));
    assert_eq!(Amount::checked_add(u128::MAX - 3, 3u128), Some(u128::MAX));
    assert_eq!(Amount::checked_add(u128::MAX - 3, 4u128), None);
    assert_eq!(Amount::checked_add(u128::MAX, u128::MAX), None);
    assert_eq!(Amount::checked_add(0u128, 0u128), Some(0));
}

#[test]
fn amount_checked_sub() {
    assert_eq!(Amount::checked_sub(5u128, 3u128), Some(2));
    assert_eq!(Amount::checked_sub(3u128, 3u128), Some(0));
    assert_eq!(Amount::checked_sub(3u128, 4u128), None);
    assert_eq!(Amount::checked_sub(0u128, u128::MAX), None);
    assert_eq!(Amount::checked_sub(u128::MAX, 1u128), Some(u128::MAX - 1));
}

#[test]
fn counter_starts_at_zero() {
    assert_eq!(<u32 as Counter>::zero(), 0);
}

#[test]
fn counter_successor_adds_one() {
    assert_eq!(Counter::successor(0u32), 1);
    assert_eq!(Counter::successor(41u32), 42);
    assert_eq!(Counter::successor(u32::MAX - 1), u32::MAX);
}

#[test]
fn counter_successor_wraps_after_the_largest_value() {
    assert_eq!(Counter::successor(u32::MAX), 0);
}

#[test]
fn identifiers_compare_by_content() {
    let alice = "alice".to_string();
    assert!(alice.same(&"alice".to_string()));
    assert!(!alice.same(&"alicf".to_string()));
    assert!(!alice.same(&"alic".to_string()));
    assert!(!alice.same(&String::new()));
    assert!(String::new().same(&String::new()));
}

#[test]
fn duplicate_names_the_same_account() {
    let alice = "alice".to_string();
    let copy = alice.duplicate();
    assert_eq!(copy, "alice");
    assert!(copy.same(&alice));
}
