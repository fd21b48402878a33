use vstd::prelude::*;

use crate::principal::canister_id_bytes;
use crate::records::{succeeded_record, Operation, RecordView, TxError, TxRecord};
use crate::supply::amount_in;

verus! {

/// The numeric id of the ICP ledger canister, the only one allowed to notify
/// the token of deposits.
pub const LEDGER_CANISTER_NUMBER: u64 = 2;

/// Deposits and withdrawals below this many e8s are refused.
pub const THRESHOLD_E8S: u64 = 0;

/// The fee, in e8s, that the ICP ledger charges for a transfer.
pub const ICP_FEE_E8S: u64 = 10000;

/// The memo attached to the ledger transfer of a withdrawal.
pub const WITHDRAW_MEMO: u64 = 0x57444857;

/// The token's descriptive data and parameters, as plain values.
pub struct MetadataView {
    pub logo: Seq<char>,
    pub name: Seq<char>,
    pub symbol: Seq<char>,
    pub decimals: u8,
    pub total_supply: u128,
    pub owner: Seq<u8>,
    pub fee: u128,
    pub fee_to: Seq<u8>,
}

/// The whole state of the token, as plain values.
pub struct TokenState {
    pub metadata: MetadataView,
    /// What each holder owns; holders whose balance fell to zero are dropped.
    pub balances: Map<Seq<u8>, u128>,
    /// For (owner, spender), what the spender may still move out of the
    /// owner's balance.
    pub allowances: Map<(Seq<u8>, Seq<u8>), u128>,
    pub history: Seq<RecordView>,
    pub deploy_time: u64,
    /// Records that did not reach the history canister yet, oldest first.
    pub log: Seq<RecordView>,
}

/// A withdrawal that has been debited and waits for the ledger's answer.
pub struct WithdrawalView {
    pub caller: Seq<u8>,
    pub previous_balance: u128,
    pub value: u64,
    pub send_amount: u64,
    pub send_fee: u64,
    pub memo: u64,
}

/// The principal of the ICP ledger canister.
pub open spec fn ledger_canister() -> Seq<u8> {
    canister_id_bytes(LEDGER_CANISTER_NUMBER)
}

/// `m` with `k` set to `v`, or without `k` when `v` is zero.
pub open spec fn set_or_clear<A>(m: Map<A, u128>, k: A, v: int) -> Map<A, u128> {
    if v != 0 {
        m.insert(k, v as u128)
    } else {
        m.remove(k)
    }
}

/// Balances after `value` left `from`.
pub open spec fn after_debit(m: Map<Seq<u8>, u128>, from: Seq<u8>, value: u128) -> Map<
    Seq<u8>,
    u128,
> {
    set_or_clear(m, from, amount_in(m, from) - value)
}

/// Balances after `value` moved from `from` to `to`.
pub open spec fn after_move(
    m: Map<Seq<u8>, u128>,
    from: Seq<u8>,
    to: Seq<u8>,
    value: u128,
) -> Map<Seq<u8>, u128> {
    let m1 = after_debit(m, from, value);
    let to_new = amount_in(m1, to) + value;
    if to_new != 0 {
        m1.insert(to, to_new as u128)
    } else {
        m1
    }
}

/// The credit of a move fits in an amount.
pub open spec fn move_fits(m: Map<Seq<u8>, u128>, from: Seq<u8>, to: Seq<u8>, value: u128) -> bool {
    amount_in(after_debit(m, from, value), to) + value <= u128::MAX
}

/// Balances after `user` paid `fee` to `fee_to` (nothing moves when the fee is zero).
pub open spec fn after_fee(
    m: Map<Seq<u8>, u128>,
    user: Seq<u8>,
    fee_to: Seq<u8>,
    fee: u128,
) -> Map<Seq<u8>, u128> {
    if fee > 0 {
        after_move(m, user, fee_to, fee)
    } else {
        m
    }
}

/// The credit of a fee fits in an amount.
pub open spec fn fee_fits(m: Map<Seq<u8>, u128>, user: Seq<u8>, fee_to: Seq<u8>, fee: u128) -> bool {
    fee > 0 ==> move_fits(m, user, fee_to, fee)
}

/// A request outcome with the record taken by its view.
pub open spec fn outcome_view(r: Result<TxRecord, TxError>) -> Result<RecordView, TxError> {
    match r {
        Ok(rec) => Ok(rec@),
        Err(e) => Err(e),
    }
}

/// `s` with one more succeeded record in its history.
pub open spec fn recorded(
    s: TokenState,
    caller: Option<Seq<u8>>,
    operation: Operation,
    from: Seq<u8>,
    to: Seq<u8>,
    amount: u128,
    fee: u128,
    now: u64,
) -> (TokenState, Result<RecordView, TxError>) {
    let rec = succeeded_record(caller, operation, from, to, amount, fee, now, s.history.len() as usize);
    (TokenState { history: s.history.push(rec), ..s }, Ok(rec))
}

/// `caller` sends `value` to `to` and pays the fee.
pub open spec fn transfer_spec(s: TokenState, caller: Seq<u8>, to: Seq<u8>, value: u128, now: u64) -> (
    TokenState,
    Result<RecordView, TxError>,
) {
    let fee = s.metadata.fee;
    if amount_in(s.balances, caller) < value + fee {
        (s, Err(TxError::InsufficientBalance))
    } else {
        let moved = after_move(after_fee(s.balances, caller, s.metadata.fee_to, fee), caller, to, value);
        recorded(
            TokenState { balances: moved, ..s },
            None,
            Operation::Transfer,
            caller,
            to,
            value,
            fee,
            now,
        )
    }
}

/// The credits of a transfer fit in amounts.
pub open spec fn transfer_fits(s: TokenState, from: Seq<u8>, to: Seq<u8>, value: u128) -> bool {
    let fee = s.metadata.fee;
    amount_in(s.balances, from) >= value + fee ==> {
        &&& fee_fits(s.balances, from, s.metadata.fee_to, fee)
        &&& move_fits(after_fee(s.balances, from, s.metadata.fee_to, fee), from, to, value)
    }
}

/// What `spender` may still move out of `owner`'s balance.
pub open spec fn allowance_in(s: TokenState, owner: Seq<u8>, spender: Seq<u8>) -> nat {
    amount_in(s.allowances, (owner, spender))
}

/// `caller` moves `value` from `from` to `to` out of its allowance; `from` pays the fee.
pub open spec fn transfer_from_spec(
    s: TokenState,
    caller: Seq<u8>,
    from: Seq<u8>,
    to: Seq<u8>,
    value: u128,
    now: u64,
) -> (TokenState, Result<RecordView, TxError>) {
    let fee = s.metadata.fee;
    let allowed = allowance_in(s, from, caller);
    if allowed < value + fee {
        (s, Err(TxError::InsufficientAllowance))
    } else if amount_in(s.balances, from) < value + fee {
        (s, Err(TxError::InsufficientBalance))
    } else {
        let moved = after_move(after_fee(s.balances, from, s.metadata.fee_to, fee), from, to, value);
        let spent = set_or_clear(s.allowances, (from, caller), allowed - value - fee);
        recorded(
            TokenState { balances: moved, allowances: spent, ..s },
            Some(caller),
            Operation::TransferFrom,
            from,
            to,
            value,
            fee,
            now,
        )
    }
}

/// Both checks of `transfer_from` pass.
pub open spec fn transfer_from_passes(s: TokenState, caller: Seq<u8>, from: Seq<u8>, value: u128) -> bool {
    &&& allowance_in(s, from, caller) >= value + s.metadata.fee
    &&& amount_in(s.balances, from) >= value + s.metadata.fee
}

/// `caller` lets `spender` move `value` (plus one fee) out of its balance, and pays the fee.
pub open spec fn approve_spec(s: TokenState, caller: Seq<u8>, spender: Seq<u8>, value: u128, now: u64) -> (
    TokenState,
    Result<RecordView, TxError>,
) {
    let fee = s.metadata.fee;
    if amount_in(s.balances, caller) < fee {
        (s, Err(TxError::InsufficientBalance))
    } else {
        let v = value + fee;
        let charged = after_fee(s.balances, caller, s.metadata.fee_to, fee);
        let allowed = set_or_clear(s.allowances, (caller, spender), v);
        recorded(
            TokenState { balances: charged, allowances: allowed, ..s },
            None,
            Operation::Approve,
            caller,
            spender,
            v as u128,
            fee,
            now,
        )
    }
}

/// The amounts of an approval fit.
pub open spec fn approve_fits(s: TokenState, caller: Seq<u8>, value: u128) -> bool {
    let fee = s.metadata.fee;
    amount_in(s.balances, caller) >= fee ==> {
        &&& fee_fits(s.balances, caller, s.metadata.fee_to, fee)
        &&& value + fee <= u128::MAX
    }
}

/// The ledger notifies that `from` sent `amount` e8s to the canister `to`;
/// the token mints as much for `from`.
pub open spec fn notification_spec(
    s: TokenState,
    caller: Seq<u8>,
    self_id: Seq<u8>,
    from: Seq<u8>,
    to: Seq<u8>,
    amount: u64,
    now: u64,
) -> (TokenState, Result<RecordView, TxError>) {
    if caller != ledger_canister() {
        (s, Err(TxError::Unauthorized))
    } else if amount < THRESHOLD_E8S {
        (s, Err(TxError::AmountTooSmall))
    } else if to != self_id {
        (s, Err(TxError::Unauthorized))
    } else {
        let minted = TokenState {
            balances: s.balances.insert(from, (amount_in(s.balances, from) + amount) as u128),
            metadata: MetadataView {
                total_supply: (s.metadata.total_supply + amount) as u128,
                ..s.metadata
            },
            ..s
        };
        recorded(minted, Some(caller), Operation::Mint, from, from, amount as u128, 0, now)
    }
}

/// The amounts of a mint fit.
pub open spec fn notification_fits(s: TokenState, from: Seq<u8>, amount: u64) -> bool {
    &&& amount_in(s.balances, from) + amount <= u128::MAX
    &&& s.metadata.total_supply + amount <= u128::MAX
}

/// `caller` takes `value` e8s out of the token: its balance and the supply
/// are debited before the ledger is asked to send the ICP.
pub open spec fn withdraw_spec(s: TokenState, caller: Seq<u8>, value: u64) -> (
    TokenState,
    Result<WithdrawalView, TxError>,
) {
    let balance = amount_in(s.balances, caller);
    if value < THRESHOLD_E8S {
        (s, Err(TxError::AmountTooSmall))
    } else if balance < value || s.metadata.total_supply < value {
        (s, Err(TxError::InsufficientBalance))
    } else {
        (
            TokenState {
                balances: s.balances.insert(caller, (balance - value) as u128),
                metadata: MetadataView {
                    total_supply: (s.metadata.total_supply - value) as u128,
                    ..s.metadata
                },
                ..s
            },
            Ok(
                WithdrawalView {
                    caller,
                    previous_balance: balance as u128,
                    value,
                    send_amount: (value - ICP_FEE_E8S) as u64,
                    send_fee: ICP_FEE_E8S,
                    memo: WITHDRAW_MEMO,
                },
            ),
        )
    }
}

/// Both checks of `withdraw` pass.
pub open spec fn withdraw_passes(s: TokenState, caller: Seq<u8>, value: u64) -> bool {
    &&& value >= THRESHOLD_E8S
    &&& amount_in(s.balances, caller) >= value
    &&& s.metadata.total_supply >= value
}

/// The ledger answered a withdrawal: on success the burn is recorded; on
/// failure the caller's balance is set back to what it was before the
/// withdrawal and the supply is credited again.
pub open spec fn finish_withdraw_spec(s: TokenState, p: WithdrawalView, sent: bool, now: u64) -> (
    TokenState,
    Result<RecordView, TxError>,
) {
    if sent {
        recorded(s, None, Operation::Burn, p.caller, p.caller, p.value as u128, 0, now)
    } else {
        (
            TokenState {
                balances: s.balances.insert(p.caller, p.previous_balance),
                metadata: MetadataView {
                    total_supply: (s.metadata.total_supply + p.value) as u128,
                    ..s.metadata
                },
                ..s
            },
            Err(TxError::LedgerTrap),
        )
    }
}

/// What a debit leaves for each holder.
pub proof fn lemma_debit_effect(m: Map<Seq<u8>, u128>, from: Seq<u8>, value: u128, p: Seq<u8>)
    requires
        amount_in(m, from) >= value,
    ensures
        amount_in(after_debit(m, from, value), p) as int == if p == from {
            amount_in(m, from) - value
        } else {
            amount_in(m, p) as int
        },
{
}

/// What a move does to one balance: the sender loses the amount, the
/// receiver gains it, every other holder keeps its balance.
pub proof fn lemma_move_effect(m: Map<Seq<u8>, u128>, from: Seq<u8>, to: Seq<u8>, value: u128, p: Seq<u8>)
    requires
        amount_in(m, from) >= value,
        move_fits(m, from, to, value),
    ensures
        amount_in(after_move(m, from, to, value), p) as int == if from == to {
            amount_in(m, p) as int
        } else if p == from {
            amount_in(m, p) - value
        } else if p == to {
            amount_in(m, p) + value
        } else {
            amount_in(m, p) as int
        },
{
}

} // verus!
