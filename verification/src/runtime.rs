//! The runtime: one instance of each pallet, the call that wraps every
//! pallet's calls, and the execution of blocks.
use crate::balances;
use crate::balances::{lemma_transfer_conserves_total, Ledger};
use crate::numeric::{lemma_successor_is_modular, successor_of};
use crate::support;
use crate::support::{Dispatch, DispatchResult, ErrorKind};
use crate::system;
use vstd::prelude::*;

verus! {

/// How this runtime names accounts.
pub type AccountId = String;

/// How much an account of this runtime holds.
pub type Balance = u128;

/// How this runtime numbers blocks.
pub type BlockNumber = u32;

/// How this runtime counts the extrinsics of one account.
pub type Nonce = u32;

/// An extrinsic of this runtime.
pub type Extrinsic = support::Extrinsic<AccountId, RuntimeCall>;

/// A block header of this runtime.
pub type Header = support::Header<BlockNumber>;

/// A block of this runtime.
pub type Block = support::Block<Header, Extrinsic>;

/// The types the pallets of this runtime are instantiated with.
pub struct RuntimeConfig;

impl system::Config for RuntimeConfig {
    type AccountId = AccountId;

    type BlockNumber = BlockNumber;

    type Nonce = Nonce;
}

impl balances::Config for RuntimeConfig {
    type Balance = Balance;
}

/// Every call the runtime accepts: one variant per pallet, wrapping that
/// pallet's own calls.
pub enum RuntimeCall {
    /// A call of the balances pallet.
    Balances(balances::Call<RuntimeConfig>),
}

/// An extrinsic that was refused while its block went on.
#[derive(Clone, Copy, Debug, PartialEq, Eq, Structural)]
pub struct ExtrinsicFailure {
    /// The number of the block the extrinsic stood in.
    pub block_number: BlockNumber,
    /// The position of the extrinsic in its block.
    pub extrinsic_number: usize,
    /// Why the extrinsic was refused.
    pub error: ErrorKind,
}

/// The runtime's state as mathematical values.
pub ghost struct Snapshot {
    /// The state of the system pallet.
    pub system: system::State<Seq<char>>,
    /// The state of the balances pallet.
    pub balances: Ledger<Seq<char>>,
}

impl Snapshot {
    /// What dispatching `call` on behalf of `caller` returns.
    pub open spec fn dispatch_result(self, caller: Seq<char>, call: RuntimeCall) -> DispatchResult {
        match call {
            RuntimeCall::Balances(balances::Call::Transfer { to, amount }) => {
                match self.balances.transfer(caller, to@, amount as nat, u128::MAX as nat) {
                    Ok(_) => Ok(()),
                    Err(kind) => Err(kind),
                }
            },
        }
    }

    /// The state after `call` was dispatched on behalf of `caller`: a
    /// refused call leaves it as it was.
    pub open spec fn after_dispatch(self, caller: Seq<char>, call: RuntimeCall) -> Snapshot {
        match call {
            RuntimeCall::Balances(balances::Call::Transfer { to, amount }) => Snapshot {
                balances: self.balances.after_transfer(
                    caller,
                    to@,
                    amount as nat,
                    u128::MAX as nat,
                ),
                ..self
            },
        }
    }

    /// The state in which an extrinsic of `caller` is dispatched: the
    /// caller's nonce has been advanced.
    pub open spec fn before_dispatch(self, caller: Seq<char>) -> Snapshot {
        Snapshot { system: self.system.inc_nonce(caller, u32::MAX as nat), ..self }
    }

    /// The state after one extrinsic: the caller's nonce is advanced, then
    /// the call is dispatched.
    pub open spec fn after_extrinsic(self, extrinsic: Extrinsic) -> Snapshot {
        self.before_dispatch(extrinsic.caller@).after_dispatch(extrinsic.caller@, extrinsic.call)
    }

    /// What dispatching the call of `extrinsic` returns in this state.
    pub open spec fn extrinsic_result(self, extrinsic: Extrinsic) -> DispatchResult {
        self.before_dispatch(extrinsic.caller@).dispatch_result(extrinsic.caller@, extrinsic.call)
    }

    /// The state after the extrinsics were executed in order.
    pub open spec fn after_extrinsics(self, extrinsics: Seq<Extrinsic>) -> Snapshot
        decreases extrinsics.len(),
    {
        if extrinsics.len() == 0 {
            self
        } else {
            self.after_extrinsics(extrinsics.drop_last()).after_extrinsic(extrinsics.last())
        }
    }

    /// The extrinsics that are refused when `extrinsics` are executed in
    /// order as block `block_number`, in the order in which they stand.
    pub open spec fn failures(self, block_number: BlockNumber, extrinsics: Seq<Extrinsic>) -> Seq<
        ExtrinsicFailure,
    >
        decreases extrinsics.len(),
    {
        if extrinsics.len() == 0 {
            Seq::empty()
        } else {
            let earlier = extrinsics.drop_last();
            let reported = self.failures(block_number, earlier);
            match self.after_extrinsics(earlier).extrinsic_result(extrinsics.last()) {
                Ok(_) => reported,
                Err(error) => reported.push(
                    ExtrinsicFailure {
                        block_number,
                        extrinsic_number: earlier.len() as usize,
                        error,
                    },
                ),
            }
        }
    }

    /// The state after the block number was advanced.
    pub open spec fn inc_block_number(self) -> Snapshot {
        Snapshot { system: self.system.inc_block_number(u32::MAX as nat), ..self }
    }
}

/// The runtime: the pallets it is composed of.
pub struct Runtime {
    /// The system pallet.
    pub system: system::Pallet<RuntimeConfig>,
    /// The balances pallet.
    pub balances: balances::Pallet<RuntimeConfig>,
}

impl View for Runtime {
    type V = Snapshot;

    open spec fn view(&self) -> Snapshot {
        Snapshot { system: self.system@, balances: self.balances@ }
    }
}

impl Runtime {
    /// A runtime at block number zero, in which no account holds anything
    /// or has a nonce.
    pub fn new() -> (runtime: Self)
        ensures
            runtime@.system == system::State::<Seq<char>>::initial(),
            runtime@.balances == Ledger::<Seq<char>>::empty(),
    {
        Runtime { system: system::Pallet::new(), balances: balances::Pallet::new() }
    }

    /// Executes a block. The block number is advanced first; a block whose
    /// header does not carry the advanced number is refused as a whole,
    /// before any of its extrinsics runs, and the block number stays
    /// advanced. Otherwise every extrinsic advances its caller's nonce and is
    /// dispatched, in order; one that is refused is reported in the result
    /// and the block goes on.
    pub fn execute_block(&mut self, block: Block) -> (result: Result<
        Vec<ExtrinsicFailure>,
        ErrorKind,
    >)
        ensures
            final(self)@.system.block_number == successor_of(
                old(self)@.system.block_number,
                u32::MAX as nat,
            ),
            block.header.block_number != final(self)@.system.block_number ==> {
                &&& result == Err::<Vec<ExtrinsicFailure>, ErrorKind>(
                    ErrorKind::BlockNumberMismatch,
                )
                &&& final(self)@ == old(self)@.inc_block_number()
            },
            block.header.block_number == final(self)@.system.block_number ==> {
                &&& result is Ok
                &&& result->Ok_0@ == old(self)@.inc_block_number().failures(
                    block.header.block_number,
                    block.extrinsics@,
                )
                &&& final(self)@ == old(self)@.inc_block_number().after_extrinsics(
                    block.extrinsics@,
                )
            },
            old(self)@.system.block_number < u32::MAX && block.header.block_number != old(
                self,
            )@.system.block_number + 1 ==> {
                &&& result == Err::<Vec<ExtrinsicFailure>, ErrorKind>(
                    ErrorKind::BlockNumberMismatch,
                )
                &&& final(self)@.balances == old(self)@.balances
                &&& final(self)@.system.nonces == old(self)@.system.nonces
            },
            (forall|i: int|
                0 <= i < block.extrinsics@.len() ==> !pays_itself(#[trigger] block.extrinsics@[i]))
                ==> final(self)@.balances.total() == old(self)@.balances.total(),
    {
        self.system.inc_block_number();
        let block_number = block.header.block_number;
        if block_number != self.system.block_number() {
            return Err(ErrorKind::BlockNumberMismatch);
        }
        let ghost start = self@;
        let ghost extrinsics = block.extrinsics@;
        proof {
            assert(extrinsics.len() == block.extrinsics.len());
            lemma_extrinsics_keep_block_number(start, extrinsics);
            self.balances.lemma_in_range();
            if forall|i: int| 0 <= i < extrinsics.len() ==> !pays_itself(#[trigger] extrinsics[i]) {
                lemma_extrinsics_conserve_total(start, extrinsics);
            }
        }
        let mut failures: Vec<ExtrinsicFailure> = Vec::new();
        let mut extrinsic_number: usize = 0;
        for extrinsic in iter: block.extrinsics.into_iter()
            invariant
                extrinsic_number == iter.index(),
                iter.seq() == extrinsics,
                extrinsics.len() <= usize::MAX,
                self@ == start.after_extrinsics(extrinsics.take(extrinsic_number as int)),
                failures@ == start.failures(block_number, extrinsics.take(extrinsic_number as int)),
        {
            proof {
                let done = extrinsics.take(extrinsic_number as int);
                let next = extrinsics.take(extrinsic_number + 1);
                assert(next.drop_last() =~= done);
                assert(next.last() == extrinsic);
            }
            let support::Extrinsic { caller, call } = extrinsic;
            self.system.inc_nonce(&caller);
            match self.dispatch(caller, call) {
                Ok(()) => {},
                Err(error) => {
                    failures.push(ExtrinsicFailure { block_number, extrinsic_number, error });
                },
            }
            extrinsic_number += 1;
        }
        proof {
            assert(extrinsics.take(extrinsic_number as int) =~= extrinsics);
        }
        Ok(failures)
    }
}

/// Executing extrinsics leaves the block number as it was.
pub proof fn lemma_extrinsics_keep_block_number(start: Snapshot, extrinsics: Seq<Extrinsic>)
    ensures
        start.after_extrinsics(extrinsics).system.block_number == start.system.block_number,
    decreases extrinsics.len(),
{
    if extrinsics.len() > 0 {
        lemma_extrinsics_keep_block_number(start, extrinsics.drop_last());
    }
}

/// How many of `extrinsics` were made on behalf of `who`.
pub open spec fn calls_by(extrinsics: Seq<Extrinsic>, who: Seq<char>) -> nat
    decreases extrinsics.len(),
{
    if extrinsics.len() == 0 {
        0
    } else if extrinsics.last().caller@ == who {
        calls_by(extrinsics.drop_last(), who) + 1
    } else {
        calls_by(extrinsics.drop_last(), who)
    }
}

/// Whether `extrinsic` asks for a positive amount to be moved from its
/// caller to the caller itself.
pub open spec fn pays_itself(extrinsic: Extrinsic) -> bool {
    match extrinsic.call {
        RuntimeCall::Balances(balances::Call::Transfer { to, amount }) => extrinsic.caller@ == to@
            && amount > 0,
    }
}

/// An account's nonce advances by one for each extrinsic made on its
/// behalf, whether the extrinsic succeeds or is refused, and by nothing
/// else: after `extrinsics` it is the nonce before plus the number of
/// extrinsics of that account, counted modulo 2^32, and exactly that sum
/// while the sum fits in a nonce.
pub proof fn lemma_nonce_counts_extrinsics(
    start: Snapshot,
    extrinsics: Seq<Extrinsic>,
    who: Seq<char>,
)
    requires
        start.system.nonce(who) <= u32::MAX,
    ensures
        start.after_extrinsics(extrinsics).system.nonce(who) == (start.system.nonce(who) + calls_by(
            extrinsics,
            who,
        )) % 0x1_0000_0000,
        start.system.nonce(who) + calls_by(extrinsics, who) <= u32::MAX ==> start.after_extrinsics(
            extrinsics,
        ).system.nonce(who) == start.system.nonce(who) + calls_by(extrinsics, who),
        calls_by(extrinsics, who) == 0 ==> start.after_extrinsics(extrinsics).system.nonce(who)
            == start.system.nonce(who),
    decreases extrinsics.len(),
{
    let before = start.system.nonce(who);
    if extrinsics.len() == 0 {
        vstd::arithmetic::div_mod::lemma_small_mod(before, 0x1_0000_0000);
    } else {
        let earlier = extrinsics.drop_last();
        lemma_nonce_counts_extrinsics(start, earlier, who);
        if extrinsics.last().caller@ == who {
            lemma_successor_is_modular(before + calls_by(earlier, who), u32::MAX as nat);
        }
        if before + calls_by(extrinsics, who) <= u32::MAX {
            vstd::arithmetic::div_mod::lemma_small_mod(
                before + calls_by(extrinsics, who),
                0x1_0000_0000,
            );
        }
    }
}

/// Extrinsics of which none pays its own caller conserve the sum of all
/// balances, whether each of them succeeds or is refused.
pub proof fn lemma_extrinsics_conserve_total(start: Snapshot, extrinsics: Seq<Extrinsic>)
    requires
        start.balances.balances.dom().finite(),
        forall|i: int| 0 <= i < extrinsics.len() ==> !pays_itself(#[trigger] extrinsics[i]),
    ensures
        start.after_extrinsics(extrinsics).balances.balances.dom().finite(),
        start.after_extrinsics(extrinsics).balances.total() == start.balances.total(),
    decreases extrinsics.len(),
{
    if extrinsics.len() > 0 {
        let earlier = extrinsics.drop_last();
        assert forall|i: int| 0 <= i < earlier.len() implies !pays_itself(
            #[trigger] earlier[i],
        ) by {
            assert(earlier[i] == extrinsics[i]);
        }
        lemma_extrinsics_conserve_total(start, earlier);
        let last = extrinsics.last();
        assert(!pays_itself(extrinsics[extrinsics.len() - 1]));
        let ledger = start.after_extrinsics(earlier).balances;
        match last.call {
            RuntimeCall::Balances(balances::Call::Transfer { to, amount }) => {
                if ledger.transfer(last.caller@, to@, amount as nat, u128::MAX as nat) is Ok {
                    lemma_transfer_conserves_total(
                        ledger,
                        last.caller@,
                        to@,
                        amount as nat,
                        u128::MAX as nat,
                    );
                }
            },
        }
    }
}

/// The report of a block names each refused extrinsic once, in the order of
/// the block, under the block's number, and never with an error that is
/// reserved for whole blocks.
pub proof fn lemma_failures_are_ordered(
    start: Snapshot,
    block_number: BlockNumber,
    extrinsics: Seq<Extrinsic>,
)
    requires
        extrinsics.len() <= usize::MAX,
    ensures
        start.failures(block_number, extrinsics).len() <= extrinsics.len(),
        forall|i: int|
            0 <= i < start.failures(block_number, extrinsics).len() ==> {
                let failure = #[trigger] start.failures(block_number, extrinsics)[i];
                &&& failure.block_number == block_number
                &&& failure.extrinsic_number < extrinsics.len()
                &&& failure.error != ErrorKind::BlockNumberMismatch
                &&& start.after_extrinsics(
                    extrinsics.take(failure.extrinsic_number as int),
                ).extrinsic_result(extrinsics[failure.extrinsic_number as int]) == Err::<
                    (),
                    ErrorKind,
                >(failure.error)
            },
        forall|i: int, j: int|
            0 <= i < j < start.failures(block_number, extrinsics).len() ==> (
            #[trigger] start.failures(block_number, extrinsics)[i]).extrinsic_number < (
            #[trigger] start.failures(block_number, extrinsics)[j]).extrinsic_number,
    decreases extrinsics.len(),
{
    if extrinsics.len() > 0 {
        let earlier = extrinsics.drop_last();
        lemma_failures_are_ordered(start, block_number, earlier);
        let reported = start.failures(block_number, earlier);
        assert forall|i: int| 0 <= i < reported.len() implies start.after_extrinsics(
            extrinsics.take((#[trigger] reported[i]).extrinsic_number as int),
        ).extrinsic_result(extrinsics[reported[i].extrinsic_number as int]) == Err::<
            (),
            ErrorKind,
        >(reported[i].error) by {
            let n = reported[i].extrinsic_number as int;
            assert(extrinsics.take(n) =~= earlier.take(n));
            assert(extrinsics[n] == earlier[n]);
        }
        assert(extrinsics.take(earlier.len() as int) =~= earlier);
    }
}

impl Dispatch for Runtime {
    type Caller = AccountId;

    type Call = RuntimeCall;

    /// Routes a call to the pallet it belongs to.
    fn dispatch(&mut self, caller: AccountId, call: RuntimeCall) -> (result: DispatchResult)
        ensures
            result == old(self)@.dispatch_result(caller@, call),
            final(self)@ == old(self)@.after_dispatch(caller@, call),
    {
        match call {
            RuntimeCall::Balances(call) => {
                self.balances.dispatch(caller, call)?;
            },
        }
        Ok(())
    }
}

} // verus!
