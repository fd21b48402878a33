use vstd::prelude::*;

use crate::principal::Principal;

verus! {

/// Why a request was refused.
#[derive(Debug, Clone, Copy, PartialEq, Eq, Structural)]
pub enum TxError {
    InsufficientBalance,
    InsufficientAllowance,
    Unauthorized,
    LedgerTrap,
    AmountTooSmall,
    Other,
}

/// What a request is answered: the id the history canister gave its record,
/// or why it was refused.
pub type TxReceipt = Result<usize, TxError>;

/// The kind of a recorded transaction.
#[derive(Debug, Clone, Copy, PartialEq, Eq, Structural)]
pub enum Operation {
    Approve,
    Mint,
    Transfer,
    TransferFrom,
    Burn,
}

/// Whether a recorded transaction went through.
#[derive(Debug, Clone, Copy, PartialEq, Eq, Structural)]
pub enum TransactionStatus {
    Succeeded,
    Failed,
}

/// One transaction of the token's history.
#[derive(Debug)]
pub struct TxRecord {
    pub caller: Option<Principal>,
    pub index: usize,
    pub from: Principal,
    pub to: Principal,
    pub amount: u128,
    pub fee: u128,
    pub timestamp: u64,
    pub status: TransactionStatus,
    pub operation: Operation,
}

/// A transaction record as plain values.
pub struct RecordView {
    pub caller: Option<Seq<u8>>,
    pub index: usize,
    pub from: Seq<u8>,
    pub to: Seq<u8>,
    pub amount: u128,
    pub fee: u128,
    pub timestamp: u64,
    pub status: TransactionStatus,
    pub operation: Operation,
}

/// The view of an optional principal.
pub open spec fn opt_view(p: Option<Principal>) -> Option<Seq<u8>> {
    match p {
        Some(q) => Some(q@),
        None => None,
    }
}

impl View for TxRecord {
    type V = RecordView;

    open spec fn view(&self) -> RecordView {
        RecordView {
            caller: opt_view(self.caller),
            index: self.index,
            from: self.from@,
            to: self.to@,
            amount: self.amount,
            fee: self.fee,
            timestamp: self.timestamp,
            status: self.status,
            operation: self.operation,
        }
    }
}

/// The record of a transaction that succeeded.
pub open spec fn succeeded_record(
    caller: Option<Seq<u8>>,
    operation: Operation,
    from: Seq<u8>,
    to: Seq<u8>,
    amount: u128,
    fee: u128,
    timestamp: u64,
    index: usize,
) -> RecordView {
    RecordView {
        caller,
        index,
        from,
        to,
        amount,
        fee,
        timestamp,
        status: TransactionStatus::Succeeded,
        operation,
    }
}

/// Whether `user` took part in a recorded transaction: as its caller, sender
/// or receiver.
pub open spec fn involves(r: RecordView, user: Seq<u8>) -> bool {
    r.from == user || r.to == user || r.caller == Some(user)
}

/// A second optional principal equal to `p`.
pub fn duplicate_opt(p: &Option<Principal>) -> (r: Option<Principal>)
    ensures
        opt_view(r) == opt_view(*p),
{
    match p {
        Some(q) => Some(q.duplicate()),
        None => None,
    }
}

impl TxRecord {
    /// A second record equal to this one.
    pub fn duplicate(&self) -> (r: TxRecord)
        ensures
            r@ == self@,
    {
        TxRecord {
            caller: duplicate_opt(&self.caller),
            index: self.index,
            from: self.from.duplicate(),
            to: self.to.duplicate(),
            amount: self.amount,
            fee: self.fee,
            timestamp: self.timestamp,
            status: self.status,
            operation: self.operation,
        }
    }

    /// Whether `user` took part in this transaction.
    pub fn involves(&self, user: &Principal) -> (r: bool)
        ensures
            r == involves(self@, user@),
    {
        let by_caller = match &self.caller {
            Some(c) => c.same(user),
            None => false,
        };
        self.from.same(user) || self.to.same(user) || by_caller
    }
}

} // verus!
