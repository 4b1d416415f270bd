use rsm::balances::Call;
use rsm::runtime::{Block, Extrinsic, ExtrinsicFailure, Header, Runtime, RuntimeCall};
use rsm::support::{Dispatch, ErrorKind};

fn name(text: &str) -> String {
    text.to_string()
}

fn transfer(from: &str, to: &str, amount: u128) -> Extrinsic {
    Extrinsic {
        caller: name(from),
        call: RuntimeCall::Balances(Call::Transfer { to: name(to), amount }),
    }
}

fn block(block_number: u32, extrinsics: Vec<Extrinsic>) -> Block {
    Block { header: Header { block_number }, extrinsics }
}

#[test]
fn new_runtime_is_empty() {
    let rt = Runtime::new();
    assert_eq!(rt.system.block_number(), 0);
    assert_eq!(rt.system.nonce(&name("alice")), 0);
    assert_eq!(rt.balances.balance(&name("alice")), 0);
}

#[test]
fn block_of_two_transfers() {
    let mut rt = Runtime::new();
    rt.balances.set_balance(&name("alice"), 100);
    let result = rt.execute_block(block(
        1,
        vec![transfer("alice", "bob", 69), transfer("alice", "charlie", 20)],
    ));
    assert_eq!(result, Ok(vec![]));
    assert_eq!(rt.balances.balance(&name("alice")), 11);
    assert_eq!(rt.balances.balance(&name("bob")), 69);
    assert_eq!(rt.balances.balance(&name("charlie")), 20);
    assert_eq!(rt.system.nonce(&name("alice")), 2);
    assert_eq!(rt.system.nonce(&name("bob")), 0);
    assert_eq!(rt.system.block_number(), 1);
}

#[test]
fn refused_extrinsic_does_not_stop_the_block() {
    let mut rt = Runtime::new();
    let result = rt.execute_block(block(1, vec![transfer("alice", "bob", 1)]));
    assert_eq!(
        result,
        Ok(vec![ExtrinsicFailure {
            block_number: 1,
            extrinsic_number: 0,
            error: ErrorKind::InsufficientFunds,
        }])
    );
    assert_eq!(rt.system.nonce(&name("alice")), 1);
    assert_eq!(rt.balances.balance(&name("alice")), 0);
    assert_eq!(rt.balances.balance(&name("bob")), 0);
    assert_eq!(rt.system.block_number(), 1);
}

#[test]
fn reused_block_number_is_refused() {
    let mut rt = Runtime::new();
    rt.balances.set_balance(&name("alice"), 100);
    assert_eq!(rt.execute_block(block(1, vec![transfer("alice", "bob", 10)])), Ok(vec![]));
    assert_eq!(rt.execute_block(block(2, vec![transfer("bob", "charlie", 4)])), Ok(vec![]));
    assert_eq!(rt.system.block_number(), 2);

    let refused = rt.execute_block(block(2, vec![transfer("alice", "bob", 50)]));
    assert_eq!(refused, Err(ErrorKind::BlockNumberMismatch));
    assert_eq!(rt.balances.balance(&name("alice")), 90);
    assert_eq!(rt.balances.balance(&name("bob")), 6);
    assert_eq!(rt.balances.balance(&name("charlie")), 4);
    assert_eq!(rt.system.nonce(&name("alice")), 1);
    assert_eq!(rt.system.nonce(&name("bob")), 1);
    assert_eq!(rt.system.block_number(), 3);
}

#[test]
fn refused_block_still_advances_the_block_number() {
    let mut rt = Runtime::new();
    rt.balances.set_balance(&name("alice"), 100);
    for wrong in [0u32, 2, 7, u32::MAX] {
        let mut fresh = Runtime::new();
        fresh.balances.set_balance(&name("alice"), 100);
        let refused = fresh.execute_block(block(wrong, vec![transfer("alice", "bob", 1)]));
        assert_eq!(refused, Err(ErrorKind::BlockNumberMismatch));
        assert_eq!(fresh.system.block_number(), 1);
        assert_eq!(fresh.system.nonce(&name("alice")), 0);
        assert_eq!(fresh.balances.balance(&name("alice")), 100);
        assert_eq!(fresh.balances.balance(&name("bob")), 0);
    }
    assert_eq!(rt.execute_block(block(3, vec![])), Err(ErrorKind::BlockNumberMismatch));
    assert_eq!(rt.system.block_number(), 1);
    // The refused block used up number 1: the next block that is accepted is number 2.
    assert_eq!(rt.execute_block(block(1, vec![])), Err(ErrorKind::BlockNumberMismatch));
    assert_eq!(rt.system.block_number(), 2);
    assert_eq!(rt.execute_block(block(3, vec![transfer("alice", "bob", 1)])), Ok(vec![]));
    assert_eq!(rt.system.block_number(), 3);
    assert_eq!(rt.balances.balance(&name("bob")), 1);
}

#[test]
fn failures_are_reported_in_order() {
    let mut rt = Runtime::new();
    rt.balances.set_balance(&name("alice"), 10);
    rt.balances.set_balance(&name("dave"), u128::MAX);
    assert_eq!(rt.execute_block(block(1, vec![])), Ok(vec![]));
    let result = rt.execute_block(block(
        2,
        vec![
            transfer("bob", "alice", 1),
            transfer("alice", "bob", 4),
            transfer("alice", "dave", 1),
            transfer("bob", "charlie", 5),
            transfer("bob", "charlie", 4),
        ],
    ));
    assert_eq!(
        result,
        Ok(vec![
            ExtrinsicFailure {
                block_number: 2,
                extrinsic_number: 0,
                error: ErrorKind::InsufficientFunds,
            },
            ExtrinsicFailure { block_number: 2, extrinsic_number: 2, error: ErrorKind::Overflow },
            ExtrinsicFailure {
                block_number: 2,
                extrinsic_number: 3,
                error: ErrorKind::InsufficientFunds,
            },
        ])
    );
    assert_eq!(rt.balances.balance(&name("alice")), 6);
    assert_eq!(rt.balances.balance(&name("bob")), 0);
    assert_eq!(rt.balances.balance(&name("charlie")), 4);
    assert_eq!(rt.balances.balance(&name("dave")), u128::MAX);
    assert_eq!(rt.system.nonce(&name("alice")), 2);
    assert_eq!(rt.system.nonce(&name("bob")), 3);
    assert_eq!(rt.system.nonce(&name("charlie")), 0);
    assert_eq!(rt.system.nonce(&name("dave")), 0);
    assert_eq!(rt.system.block_number(), 2);
}

#[test]
fn blocks_conserve_the_total() {
    let names = ["alice", "bob", "charlie"];
    let mut rt = Runtime::new();
    rt.balances.set_balance(&name("alice"), 100);
    rt.balances.set_balance(&name("bob"), 25);
    for number in 1..=20u32 {
        let amount = u128::from(number) * 3;
        let result = rt.execute_block(block(
            number,
            vec![
                transfer("alice", "bob", amount),
                transfer("bob", "charlie", amount + 1),
                transfer("charlie", "alice", 2),
            ],
        ));
        assert!(result.is_ok());
        let total: u128 = names.iter().map(|n| rt.balances.balance(&name(n))).sum();
        assert_eq!(total, 125);
        for n in names {
            assert_eq!(rt.system.nonce(&name(n)), number);
        }
    }
}

#[test]
fn execution_is_deterministic() {
    let run = || {
        let mut rt = Runtime::new();
        rt.balances.set_balance(&name("alice"), 50);
        let first = rt.execute_block(block(
            1,
            vec![transfer("alice", "bob", 20), transfer("bob", "alice", 30)],
        ));
        let second = rt.execute_block(block(3, vec![transfer("alice", "bob", 1)]));
        let third = rt.execute_block(block(3, vec![transfer("alice", "bob", 31)]));
        let state = (
            rt.balances.balance(&name("alice")),
            rt.balances.balance(&name("bob")),
            rt.system.nonce(&name("alice")),
            rt.system.nonce(&name("bob")),
            rt.system.block_number(),
        );
        (first, second, third, state)
    };
    let expected = (
        Ok(vec![ExtrinsicFailure {
            block_number: 1,
            extrinsic_number: 1,
            error: ErrorKind::InsufficientFunds,
        }]),
        Err(ErrorKind::BlockNumberMismatch),
        Ok(vec![ExtrinsicFailure {
            block_number: 3,
            extrinsic_number: 0,
            error: ErrorKind::InsufficientFunds,
        }]),
        (30, 20, 2, 1, 3),
    );
    assert_eq!(run(), expected);
    assert_eq!(run(), expected);
}

#[test]
fn runtime_dispatch_routes_to_balances() {
    let mut rt = Runtime::new();
    rt.balances.set_balance(&name("alice"), 5);
    let call = RuntimeCall::Balances(Call::Transfer { to: name("bob"), amount: 5 });
    assert_eq!(rt.dispatch(name("alice"), call), Ok(()));
    assert_eq!(rt.balances.balance(&name("alice")), 0);
    assert_eq!(rt.balances.balance(&name("bob")), 5);
    // Dispatch alone touches neither nonce nor block number.
    assert_eq!(rt.system.nonce(&name("alice")), 0);
    assert_eq!(rt.system.block_number(), 0);
    let call = RuntimeCall::Balances(Call::Transfer { to: name("bob"), amount: 1 });
    assert_eq!(rt.dispatch(name("alice"), call), Err(ErrorKind::InsufficientFunds));
}
