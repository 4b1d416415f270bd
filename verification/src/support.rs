//! The types shared by every pallet: blocks, extrinsics, the error taxonomy,
//! account identifiers and the dispatch capability.
use vstd::prelude::*;

verus! {

/// Why a call or a block was refused.
#[derive(Clone, Copy, Debug, PartialEq, Eq, Structural)]
pub enum ErrorKind {
    /// A transfer asked for more than the source account holds.
    InsufficientFunds,
    /// A transfer would take the destination past the largest balance.
    Overflow,
    /// A block's declared number is not the next one the runtime expects.
    BlockNumberMismatch,
}

/// The outcome of a dispatched call.
pub type DispatchResult = Result<(), ErrorKind>;

/// The text each error is reported with.
pub open spec fn message_of(kind: ErrorKind) -> Seq<char> {
    match kind {
        ErrorKind::InsufficientFunds => "Not enough funds"@,
        ErrorKind::Overflow => "Overflow"@,
        ErrorKind::BlockNumberMismatch => "block number does not match what is expected"@,
    }
}

impl ErrorKind {
    /// The error as a human-readable message.
    pub fn message(&self) -> (text: &'static str)
        ensures
            text@ == message_of(*self),
    {
        match self {
            ErrorKind::InsufficientFunds => "Not enough funds",
            ErrorKind::Overflow => "Overflow",
            ErrorKind::BlockNumberMismatch => "block number does not match what is expected",
        }
    }
}

/// A value that names an account. Two identifiers name the same account
/// exactly when their views are equal.
pub trait Identifier: View + Sized {
    /// Whether both identifiers name the same account.
    fn same(&self, other: &Self) -> (equal: bool)
        ensures
            equal == (self@ == other@),
    ;

    /// A fresh identifier for the same account.
    fn duplicate(&self) -> (copy: Self)
        ensures
            copy@ == self@,
    ;
}

impl Identifier for String {
    fn same(&self, other: &Self) -> (equal: bool) {
        *self == *other
    }

    fn duplicate(&self) -> (copy: Self) {
        self.clone()
    }
}

/// Block metadata.
pub struct Header<BlockNumber> {
    pub block_number: BlockNumber,
}

/// One request to execute `call` on behalf of `caller`.
pub struct Extrinsic<Caller, Call> {
    pub caller: Caller,
    pub call: Call,
}

/// An ordered batch of extrinsics under one header.
pub struct Block<Header, Extrinsic> {
    pub header: Header,
    pub extrinsics: Vec<Extrinsic>,
}

/// The dispatch capability: turning a caller and a call into a state change
/// of the implementing module.
pub trait Dispatch {
    /// Who a call is made on behalf of.
    type Caller;

    /// The closed set of calls the module accepts.
    type Call;

    /// Executes `call` on behalf of `caller`.
    fn dispatch(&mut self, caller: Self::Caller, call: Self::Call) -> (result: DispatchResult);
}

} // verus!
