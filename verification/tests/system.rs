use rsm::system::Pallet;

struct TestConfig;

impl rsm::system::Config for TestConfig {
    type AccountId = String;
    type BlockNumber = u32;
    type Nonce = u32;
}

#[test]
fn system_starts_at_zero() {
    let system = Pallet::<TestConfig>::new();
    assert_eq!(system.block_number(), 0);
    assert_eq!(system.nonce(&"alice".to_string()), 0);
    assert_eq!(system.nonce(&"bob".to_string()), 0);
}

#[test]
fn block_number_advances_by_one() {
    let mut system = Pallet::<TestConfig>::new();
    system.inc_block_number();
    assert_eq!(system.block_number(), 1);
    system.inc_block_number();
    system.inc_block_number();
    assert_eq!(system.block_number(), 3);
    assert_eq!(system.nonce(&"alice".to_string()), 0);
}

#[test]
fn nonce_counts_the_increments() {
    let mut system = Pallet::<TestConfig>::new();
    let alice = "alice".to_string();
    let charlie = "charlie".to_string();
    system.inc_nonce(&charlie);
    for n in 1..=250u32 {
        system.inc_nonce(&alice);
        assert_eq!(system.nonce(&alice), n);
        assert_eq!(system.nonce(&charlie), 1);
        assert_eq!(system.nonce(&"bob".to_string()), 0);
    }
    assert_eq!(system.block_number(), 0);
}

#[test]
fn nonces_of_similar_names_are_apart() {
    let mut system = Pallet::<TestConfig>::new();
    system.inc_nonce(&"a".to_string());
    system.inc_nonce(&"ab".to_string());
    system.inc_nonce(&"ab".to_string());
    system.inc_nonce(&"".to_string());
    assert_eq!(system.nonce(&"a".to_string()), 1);
    assert_eq!(system.nonce(&"ab".to_string()), 2);
    assert_eq!(system.nonce(&"".to_string()), 1);
    assert_eq!(system.nonce(&"b".to_string()), 0);
}
