//! The balances pallet: a ledger from accounts to balances, with transfers
//! that either apply in full or not at all.
use crate::numeric::Amount;
use crate::support::{Dispatch, DispatchResult, ErrorKind, Identifier};
use crate::system::AccountKey;
use crate::table::Table;
use vstd::prelude::*;

verus! {

/// The types the balances pallet is generic over.
pub trait Config: crate::system::Config {
    /// How much an account holds.
    type Balance: Amount;
}

/// The sum of the values of a finite map.
pub open spec fn sum_of<K>(values: Map<K, nat>) -> nat
    decreases values.dom().len(),
    when values.dom().finite()
{
    if values.dom().is_empty() {
        0
    } else {
        let key = values.dom().choose();
        values[key] + sum_of(values.remove(key))
    }
}

/// The sum of a finite map is the value at any one of its keys plus the sum
/// of the rest.
pub proof fn lemma_sum_of_remove<K>(values: Map<K, nat>, key: K)
    requires
        values.dom().finite(),
        values.contains_key(key),
    ensures
        sum_of(values) == values[key] + sum_of(values.remove(key)),
    decreases values.dom().len(),
{
    let chosen = values.dom().choose();
    if chosen != key {
        let rest = values.remove(chosen);
        lemma_sum_of_remove(rest, key);
        let others = values.remove(key);
        assert(others.contains_key(chosen));
        lemma_sum_of_remove(others, chosen);
        assert(rest.remove(key) =~= others.remove(chosen));
    }
}

/// Storing `value` at `key` changes the sum by the difference between
/// `value` and what the map held at `key` before.
pub proof fn lemma_sum_of_insert<K>(values: Map<K, nat>, key: K, value: nat)
    requires
        values.dom().finite(),
    ensures
        sum_of(values.insert(key, value)) + (if values.contains_key(key) {
            values[key]
        } else {
            0
        }) == sum_of(values) + value,
{
    let after = values.insert(key, value);
    lemma_sum_of_remove(after, key);
    assert(after.remove(key) =~= values.remove(key));
    if values.contains_key(key) {
        lemma_sum_of_remove(values, key);
    } else {
        assert(values.remove(key) =~= values);
    }
}

/// The ledger as mathematical values.
#[verifier::reject_recursive_types(K)]
pub ghost struct Ledger<K> {
    /// The balance of every account that was ever written.
    pub balances: Map<K, nat>,
}

impl<K> Ledger<K> {
    /// The ledger in which no account holds anything.
    pub open spec fn empty() -> Self {
        Ledger { balances: Map::empty() }
    }

    /// The balance of `who`: zero for an account that was never written.
    pub open spec fn balance(self, who: K) -> nat {
        if self.balances.contains_key(who) {
            self.balances[who]
        } else {
            0
        }
    }

    /// The ledger after the balance of `who` was overwritten with `amount`.
    pub open spec fn set_balance(self, who: K, amount: nat) -> Self {
        Ledger { balances: self.balances.insert(who, amount) }
    }

    /// The sum of all balances.
    pub open spec fn total(self) -> nat {
        sum_of(self.balances)
    }

    /// What a transfer of `amount` from `source` to `dest` does, where no
    /// balance may exceed `ceiling`: the error it is refused with, or the
    /// ledger after the source was written first and the destination second.
    pub open spec fn transfer(self, source: K, dest: K, amount: nat, ceiling: nat) -> Result<
        Self,
        ErrorKind,
    > {
        if self.balance(source) < amount {
            Err(ErrorKind::InsufficientFunds)
        } else if self.balance(dest) + amount > ceiling {
            Err(ErrorKind::Overflow)
        } else {
            Ok(
                self.set_balance(source, (self.balance(source) - amount) as nat).set_balance(
                    dest,
                    self.balance(dest) + amount,
                ),
            )
        }
    }

    /// The ledger after a transfer was attempted: a refused transfer leaves
    /// it as it was.
    pub open spec fn after_transfer(self, source: K, dest: K, amount: nat, ceiling: nat) -> Self {
        match self.transfer(source, dest, amount, ceiling) {
            Ok(after) => after,
            Err(_) => self,
        }
    }

    /// The ledger after the transfers `(source, dest, amount)` of
    /// `transfers` were attempted in order.
    pub open spec fn after_transfers(self, transfers: Seq<(K, K, nat)>, ceiling: nat) -> Self
        decreases transfers.len(),
    {
        if transfers.len() == 0 {
            self
        } else {
            let (source, dest, amount) = transfers.last();
            self.after_transfers(transfers.drop_last(), ceiling).after_transfer(
                source,
                dest,
                amount,
                ceiling,
            )
        }
    }
}

/// A successful transfer between two different accounts moves `amount`
/// from one to the other, touches no third account and conserves the sum of
/// all balances. So does a transfer of nothing from an account to itself.
pub proof fn lemma_transfer_conserves_total<K>(
    ledger: Ledger<K>,
    source: K,
    dest: K,
    amount: nat,
    ceiling: nat,
)
    requires
        ledger.balances.dom().finite(),
        source != dest || amount == 0,
        ledger.transfer(source, dest, amount, ceiling) is Ok,
    ensures
        ({
            let after = ledger.transfer(source, dest, amount, ceiling)->Ok_0;
            &&& after.balances.dom().finite()
            &&& after.total() == ledger.total()
            &&& source != dest ==> after.balance(source) + amount == ledger.balance(source)
            &&& source != dest ==> after.balance(dest) == ledger.balance(dest) + amount
            &&& forall|who: K|
                who != source && who != dest ==> after.balance(who) == ledger.balance(who)
        }),
{
    let debited = ledger.set_balance(source, (ledger.balance(source) - amount) as nat);
    lemma_sum_of_insert(ledger.balances, source, (ledger.balance(source) - amount) as nat);
    lemma_sum_of_insert(debited.balances, dest, ledger.balance(dest) + amount);
}

/// Any sequence of transfers, none of them of a positive amount from an
/// account to itself, conserves the sum of all balances, whether each of
/// them succeeds or is refused.
pub proof fn lemma_transfers_conserve_total<K>(
    ledger: Ledger<K>,
    transfers: Seq<(K, K, nat)>,
    ceiling: nat,
)
    requires
        ledger.balances.dom().finite(),
        forall|i: int|
            0 <= i < transfers.len() ==> (#[trigger] transfers[i]).0 != transfers[i].1
                || transfers[i].2 == 0,
    ensures
        ledger.after_transfers(transfers, ceiling).balances.dom().finite(),
        ledger.after_transfers(transfers, ceiling).total() == ledger.total(),
    decreases transfers.len(),
{
    if transfers.len() > 0 {
        let earlier = transfers.drop_last();
        assert forall|i: int| 0 <= i < earlier.len() implies (#[trigger] earlier[i]).0
            != earlier[i].1 || earlier[i].2 == 0 by {
            assert(earlier[i] == transfers[i]);
        }
        lemma_transfers_conserve_total(ledger, earlier, ceiling);
        let before = ledger.after_transfers(earlier, ceiling);
        let (source, dest, amount) = transfers.last();
        assert(transfers[transfers.len() - 1] == transfers.last());
        if before.transfer(source, dest, amount, ceiling) is Ok {
            lemma_transfer_conserves_total(before, source, dest, amount, ceiling);
        }
    }
}

/// The balances pallet.
pub struct Pallet<T: Config> {
    balances: Table<T::AccountId, T::Balance>,
}

impl<T: Config> View for Pallet<T> {
    type V = Ledger<AccountKey<T>>;

    closed spec fn view(&self) -> Ledger<AccountKey<T>> {
        Ledger { balances: self.balances@.map_values(|b: T::Balance| b.value()) }
    }
}

impl<T: Config> Pallet<T> {
    /// Every balance lies within the balance type's range, and only
    /// finitely many accounts were ever written.
    pub proof fn lemma_in_range(&self)
        ensures
            forall|who: AccountKey<T>| self@.balance(who) <= T::Balance::ceiling(),
            self@.balances.dom().finite(),
    {
        assert forall|who: AccountKey<T>| self@.balance(who) <= T::Balance::ceiling() by {
            if self@.balances.contains_key(who) {
                self.balances@[who].value_in_range();
            }
        }
        self.balances.lemma_finite();
        assert(self@.balances.dom() =~= self.balances@.dom());
    }

    /// A pallet in which every account holds zero.
    pub fn new() -> (pallet: Self)
        ensures
            pallet@ == Ledger::<AccountKey<T>>::empty(),
            forall|who: AccountKey<T>| pallet@.balance(who) == 0,
    {
        let pallet = Pallet { balances: Table::new() };
        assert(pallet@.balances =~= Map::<AccountKey<T>, nat>::empty());
        pallet
    }

    /// Overwrites the balance of `who` with `amount`.
    pub fn set_balance(&mut self, who: &T::AccountId, amount: T::Balance)
        ensures
            final(self)@ == old(self)@.set_balance(who@, amount.value()),
    {
        self.balances.insert(who.duplicate(), amount);
        assert(self@.balances =~= old(self)@.balances.insert(who@, amount.value()));
    }

    /// The balance of `who`: zero for an account that was never written.
    pub fn balance(&self, who: &T::AccountId) -> (balance: T::Balance)
        ensures
            balance.value() == self@.balance(who@),
    {
        match self.balances.get(who) {
            Some(balance) => balance,
            None => T::Balance::zero(),
        }
    }

    /// Moves `amount` from `source` to `dest`. A transfer that the source
    /// cannot afford, or that would take the destination past the largest
    /// balance, is refused and changes nothing. Both new balances are
    /// computed from the ledger as it was, the source is written first and
    /// the destination second: an account that pays itself ends with the
    /// destination's sum.
    pub fn transfer(
        &mut self,
        source: T::AccountId,
        dest: T::AccountId,
        amount: T::Balance,
    ) -> (result: DispatchResult)
        ensures
            match old(self)@.transfer(source@, dest@, amount.value(), T::Balance::ceiling()) {
                Ok(after) => result == Ok::<(), ErrorKind>(()) && final(self)@ == after,
                Err(kind) => result == Err::<(), ErrorKind>(kind) && final(self)@ == old(self)@,
            },
            amount.value() > old(self)@.balance(source@) ==> result == Err::<(), ErrorKind>(
                ErrorKind::InsufficientFunds,
            ) && final(self)@ == old(self)@,
            amount.value() <= old(self)@.balance(source@) && old(self)@.balance(dest@)
                + amount.value() > T::Balance::ceiling() ==> result == Err::<(), ErrorKind>(
                ErrorKind::Overflow,
            ) && final(self)@ == old(self)@,
            old(self)@.balance(dest@) + amount.value() > T::Balance::ceiling() ==> result is Err
                && final(self)@ == old(self)@,
            source@ != dest@ || amount.value() == 0 ==> final(self)@.total() == old(self)@.total(),
    {
        let source_bal = self.balance(&source);
        let dest_bal = self.balance(&dest);
        proof {
            self.lemma_in_range();
            if self@.transfer(source@, dest@, amount.value(), T::Balance::ceiling()) is Ok && (
            source@ != dest@ || amount.value() == 0) {
                lemma_transfer_conserves_total(
                    self@,
                    source@,
                    dest@,
                    amount.value(),
                    T::Balance::ceiling(),
                );
            }
        }
        let new_source_bal = match source_bal.checked_sub(amount) {
            Some(balance) => balance,
            None => { return Err(ErrorKind::InsufficientFunds); },
        };
        let new_dest_bal = match dest_bal.checked_add(amount) {
            Some(balance) => balance,
            None => { return Err(ErrorKind::Overflow); },
        };
        proof {
            new_dest_bal.value_in_range();
        }
        self.set_balance(&source, new_source_bal);
        self.set_balance(&dest, new_dest_bal);
        Ok(())
    }
}

/// The calls the balances pallet accepts from outside. The caller is
/// supplied by the dispatcher and is the source of a transfer.
pub enum Call<T: Config> {
    /// Move `amount` from the caller to `to`.
    Transfer { to: T::AccountId, amount: T::Balance },
}

impl<T: Config> Dispatch for Pallet<T> {
    type Caller = T::AccountId;

    type Call = Call<T>;

    /// Routes a call to the function it names, with the caller as the
    /// source.
    fn dispatch(&mut self, caller: T::AccountId, call: Call<T>) -> (result: DispatchResult)
        ensures
            match call {
                Call::Transfer { to, amount } => match old(self)@.transfer(
                    caller@,
                    to@,
                    amount.value(),
                    T::Balance::ceiling(),
                ) {
                    Ok(after) => result == Ok::<(), ErrorKind>(()) && final(self)@ == after,
                    Err(kind) => result == Err::<(), ErrorKind>(kind) && final(self)@ == old(
                        self,
                    )@,
                },
            },
    {
        match call {
            Call::Transfer { to, amount } => {
                self.transfer(caller, to, amount)?;
            },
        }
        Ok(())
    }
}

} // verus!
