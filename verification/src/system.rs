//! The system pallet: the current block number and a nonce per account.
use crate::numeric::{lemma_successor_is_modular, successor_of, Counter};
use crate::support::Identifier;
use crate::table::Table;
use vstd::prelude::*;

verus! {

/// The types the system pallet is generic over.
pub trait Config {
    /// How accounts are named.
    type AccountId: Identifier;

    /// How blocks are numbered.
    type BlockNumber: Counter;

    /// How the extrinsics of one account are counted.
    type Nonce: Counter;
}

/// The mathematical name of an account under configuration `T`.
pub type AccountKey<T> = <<T as Config>::AccountId as View>::V;

/// The system pallet's state as mathematical values.
#[verifier::reject_recursive_types(K)]
pub ghost struct State<K> {
    /// The number of the last block that was started.
    pub block_number: nat,
    /// The nonce of every account that has been a caller.
    pub nonces: Map<K, nat>,
}

impl<K> State<K> {
    /// The state before anything happened.
    pub open spec fn initial() -> Self {
        State { block_number: 0, nonces: Map::empty() }
    }

    /// The nonce of `who`: zero for an account that was never a caller.
    pub open spec fn nonce(self, who: K) -> nat {
        if self.nonces.contains_key(who) {
            self.nonces[who]
        } else {
            0
        }
    }

    /// The state after the block number was advanced in a counter whose
    /// largest value is `limit`.
    pub open spec fn inc_block_number(self, limit: nat) -> Self {
        State { block_number: successor_of(self.block_number, limit), ..self }
    }

    /// The state after the nonce of `who` was advanced in a counter whose
    /// largest value is `limit`.
    pub open spec fn inc_nonce(self, who: K, limit: nat) -> Self {
        State { nonces: self.nonces.insert(who, successor_of(self.nonce(who), limit)), ..self }
    }

    /// The state after the nonce of `who` was advanced `times` times.
    pub open spec fn inc_nonce_repeatedly(self, who: K, limit: nat, times: nat) -> Self
        decreases times,
    {
        if times == 0 {
            self
        } else {
            self.inc_nonce_repeatedly(who, limit, (times - 1) as nat).inc_nonce(who, limit)
        }
    }
}

/// Advancing the nonce of `who` `times` times from a state in which it is
/// `start` leaves it at `start + times`, counted modulo `limit + 1`; while the
/// sum stays within `limit` the nonce is exactly `start + times`, so an
/// account that was never a caller ends at `times`. The nonce of every other
/// account and the block number are as they were.
pub proof fn lemma_inc_nonce_repeatedly<K>(state: State<K>, who: K, limit: nat, times: nat)
    requires
        state.nonce(who) <= limit,
    ensures
        state.inc_nonce_repeatedly(who, limit, times).nonce(who) == (state.nonce(who) + times) % (
        limit + 1),
        state.nonce(who) + times <= limit ==> state.inc_nonce_repeatedly(who, limit, times).nonce(
            who,
        ) == state.nonce(who) + times,
        forall|other: K|
            other != who ==> state.inc_nonce_repeatedly(who, limit, times).nonce(other)
                == state.nonce(other),
        state.inc_nonce_repeatedly(who, limit, times).block_number == state.block_number,
    decreases times,
{
    let start = state.nonce(who);
    if times == 0 {
        vstd::arithmetic::div_mod::lemma_small_mod(start, limit + 1);
    } else {
        let earlier = (times - 1) as nat;
        lemma_inc_nonce_repeatedly(state, who, limit, earlier);
        lemma_successor_is_modular(start + earlier, limit);
    }
}

/// The system pallet.
pub struct Pallet<T: Config> {
    block_number: T::BlockNumber,
    nonce: Table<T::AccountId, T::Nonce>,
}

impl<T: Config> View for Pallet<T> {
    type V = State<AccountKey<T>>;

    closed spec fn view(&self) -> State<AccountKey<T>> {
        State {
            block_number: self.block_number.count(),
            nonces: self.nonce@.map_values(|n: T::Nonce| n.count()),
        }
    }
}

impl<T: Config> Pallet<T> {
    /// The state's counters lie within their types' ranges, and only
    /// finitely many accounts have a nonce.
    pub proof fn lemma_in_range(&self)
        ensures
            self@.block_number <= T::BlockNumber::limit(),
            forall|who: AccountKey<T>| self@.nonce(who) <= T::Nonce::limit(),
            self@.nonces.dom().finite(),
    {
        self.block_number.count_in_range();
        assert forall|who: AccountKey<T>| self@.nonce(who) <= T::Nonce::limit() by {
            if self@.nonces.contains_key(who) {
                self.nonce@[who].count_in_range();
            }
        }
        self.nonce.lemma_finite();
        assert(self@.nonces.dom() =~= self.nonce@.dom());
    }

    /// A pallet at block number zero in which no account has a nonce.
    pub fn new() -> (pallet: Self)
        ensures
            pallet@ == State::<AccountKey<T>>::initial(),
    {
        let pallet = Pallet { block_number: T::BlockNumber::zero(), nonce: Table::new() };
        assert(pallet@.nonces =~= Map::<AccountKey<T>, nat>::empty());
        pallet
    }

    /// The current block number.
    pub fn block_number(&self) -> (number: T::BlockNumber)
        ensures
            number.count() == self@.block_number,
    {
        self.block_number
    }

    /// Advances the block number by one.
    pub fn inc_block_number(&mut self)
        ensures
            final(self)@ == old(self)@.inc_block_number(T::BlockNumber::limit()),
    {
        self.block_number = self.block_number.successor();
    }

    /// The nonce of `who`: zero for an account that was never a caller.
    pub fn nonce(&self, who: &T::AccountId) -> (nonce: T::Nonce)
        ensures
            nonce.count() == self@.nonce(who@),
    {
        match self.nonce.get(who) {
            Some(nonce) => nonce,
            None => T::Nonce::zero(),
        }
    }

    /// Advances the nonce of `who` by one.
    pub fn inc_nonce(&mut self, who: &T::AccountId)
        ensures
            final(self)@ == old(self)@.inc_nonce(who@, T::Nonce::limit()),
    {
        let next = self.nonce(who).successor();
        self.nonce.insert(who.duplicate(), next);
        assert(self@.nonces =~= old(self)@.nonces.insert(
            who@,
            successor_of(old(self)@.nonce(who@), T::Nonce::limit()),
        ));
    }
}

} // verus!
