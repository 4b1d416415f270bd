//! The arithmetic the pallets are generic over, and its instances for the
//! machine integers, which go through the `num` crate.
use vstd::prelude::*;

verus! {

/// A non-negative quantity with a zero and overflow-reporting arithmetic.
pub trait Amount: Copy + Sized {
    /// The mathematical value of the quantity.
    spec fn value(self) -> nat;

    /// The largest value the type can hold.
    spec fn ceiling() -> nat;

    /// Every quantity lies within the type's range.
    proof fn value_in_range(self)
        ensures
            self.value() <= Self::ceiling(),
    ;

    /// Two quantities with one value are the same quantity.
    proof fn value_is_injective(self, other: Self)
        requires
            self.value() == other.value(),
        ensures
            self == other,
    ;

    /// The additive identity.
    fn zero() -> (z: Self)
        ensures
            z.value() == 0,
    ;

    /// The sum, or `None` where it exceeds the ceiling.
    fn checked_add(self, rhs: Self) -> (sum: Option<Self>)
        ensures
            match sum {
                Some(s) => s.value() == self.value() + rhs.value(),
                None => self.value() + rhs.value() > Self::ceiling(),
            },
    ;

    /// The difference, or `None` where it would be negative.
    fn checked_sub(self, rhs: Self) -> (diff: Option<Self>)
        ensures
            match diff {
                Some(d) => d.value() + rhs.value() == self.value(),
                None => self.value() < rhs.value(),
            },
    ;
}

/// An unsigned counter that starts at zero and is advanced one step at a
/// time, wrapping to zero after its largest value.
pub trait Counter: Copy + Sized {
    /// The mathematical value of the counter.
    spec fn count(self) -> nat;

    /// The largest value the counter can hold.
    spec fn limit() -> nat;

    /// Every counter lies within the type's range.
    proof fn count_in_range(self)
        ensures
            self.count() <= Self::limit(),
    ;

    /// Two counters with one value are the same counter.
    proof fn count_is_injective(self, other: Self)
        requires
            self.count() == other.count(),
        ensures
            self == other,
    ;

    /// The counter's initial value.
    fn zero() -> (z: Self)
        ensures
            z.count() == 0,
    ;

    /// The counter advanced by one.
    fn successor(self) -> (next: Self)
        ensures
            next.count() == successor_of(self.count(), Self::limit()),
    ;
}

/// The value that follows `count` in a counter whose largest value is `limit`.
pub open spec fn successor_of(count: nat, limit: nat) -> nat {
    if count >= limit {
        0
    } else {
        count + 1
    }
}

/// Advancing a counter is adding one modulo `limit + 1`.
pub proof fn lemma_successor_is_modular(total: nat, limit: nat)
    ensures
        successor_of(total % (limit + 1), limit) == (total + 1) % (limit + 1),
        total + 1 <= limit ==> (total + 1) % (limit + 1) == total + 1,
{
    let modulus = (limit + 1) as int;
    let count = total as int % modulus;
    let rounds = total as int / modulus;
    vstd::arithmetic::div_mod::lemma_mod_bound(total as int, modulus);
    vstd::arithmetic::div_mod::lemma_fundamental_div_mod(total as int, modulus);
    if count >= limit {
        assert(total + 1 == modulus * (rounds + 1) + 0) by (nonlinear_arith)
            requires
                total == modulus * rounds + count,
                count == modulus - 1,
        ;
        vstd::arithmetic::div_mod::lemma_fundamental_div_mod_converse_mod(
            (total + 1) as int,
            modulus,
            rounds + 1,
            0,
        );
    } else {
        vstd::arithmetic::div_mod::lemma_fundamental_div_mod_converse_mod(
            (total + 1) as int,
            modulus,
            rounds,
            count + 1,
        );
    }
    if total + 1 <= limit {
        vstd::arithmetic::div_mod::lemma_small_mod(total + 1, (limit + 1) as nat);
    }
}

/// `num::Zero::zero` for `u128`: the additive identity, which is 0.
#[verifier::external_body]
fn zero_u128() -> (z: u128)
    ensures
        z == 0,
{
    num::Zero::zero()
}

/// `num::CheckedAdd::checked_add` for `u128`: the sum where it fits in the
/// type, `None` where it overflows.
#[verifier::external_body]
fn checked_add_u128(a: u128, b: u128) -> (sum: Option<u128>)
    ensures
        sum == (if a + b <= u128::MAX {
            Some((a + b) as u128)
        } else {
            None
        }),
{
    num::CheckedAdd::checked_add(&a, &b)
}

/// `num::CheckedSub::checked_sub` for `u128`: the difference where it is not
/// negative, `None` where it underflows.
#[verifier::external_body]
fn checked_sub_u128(a: u128, b: u128) -> (diff: Option<u128>)
    ensures
        diff == (if b <= a {
            Some((a - b) as u128)
        } else {
            None
        }),
{
    num::CheckedSub::checked_sub(&a, &b)
}

/// `num::Zero::zero` for `u32`: the additive identity, which is 0.
#[verifier::external_body]
fn zero_u32() -> (z: u32)
    ensures
        z == 0,
{
    num::Zero::zero()
}

/// `num::One::one` for `u32`: the multiplicative identity, which is 1.
#[verifier::external_body]
fn one_u32() -> (one: u32)
    ensures
        one == 1,
{
    num::One::one()
}

impl Amount for u128 {
    open spec fn value(self) -> nat {
        self as nat
    }

    open spec fn ceiling() -> nat {
        u128::MAX as nat
    }

    proof fn value_in_range(self) {
    }

    proof fn value_is_injective(self, other: Self) {
    }

    fn zero() -> (z: Self) {
        zero_u128()
    }

    fn checked_add(self, rhs: Self) -> (sum: Option<Self>) {
        checked_add_u128(self, rhs)
    }

    fn checked_sub(self, rhs: Self) -> (diff: Option<Self>) {
        checked_sub_u128(self, rhs)
    }
}

impl Counter for u32 {
    open spec fn count(self) -> nat {
        self as nat
    }

    open spec fn limit() -> nat {
        u32::MAX as nat
    }

    proof fn count_in_range(self) {
    }

    proof fn count_is_injective(self, other: Self) {
    }

    fn zero() -> (z: Self) {
        zero_u32()
    }

    fn successor(self) -> (next: Self) {
        self.wrapping_add(one_u32())
    }
}

} // verus!
