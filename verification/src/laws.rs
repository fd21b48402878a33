use vstd::prelude::*;

use crate::principal::canister_id_bytes;
use crate::records::{Operation, RecordView, TransactionStatus, TxError};
use crate::supply::{amount_in, lemma_sum_insert, lemma_sum_remove, map_sum};
use crate::token_spec::{
    after_debit, after_fee, after_move, allowance_in, approve_fits, approve_spec, fee_fits,
    finish_withdraw_spec, lemma_move_effect, move_fits, notification_fits, notification_spec,
    recorded, set_or_clear, transfer_fits, transfer_from_passes, transfer_from_spec,
    transfer_spec, withdraw_spec, MetadataView, TokenState, WithdrawalView, ICP_FEE_E8S,
    LEDGER_CANISTER_NUMBER, THRESHOLD_E8S,
};

verus! {

/// The balances add up to the total supply.
pub open spec fn supply_matches(s: TokenState) -> bool {
    &&& s.balances.dom().finite()
    &&& map_sum(s.balances) == s.metadata.total_supply
}

/// Every record of the history carries its own position as index.
pub open spec fn history_indexed(h: Seq<RecordView>) -> bool {
    forall|i: int| 0 <= i < h.len() ==> #[trigger] h[i].index == i
}

/// Moving an amount between two balances keeps their sum.
proof fn lemma_move_keeps_sum(m: Map<Seq<u8>, u128>, from: Seq<u8>, to: Seq<u8>, value: u128)
    requires
        m.dom().finite(),
        amount_in(m, from) >= value,
        move_fits(m, from, to, value),
    ensures
        after_move(m, from, to, value).dom().finite(),
        map_sum(after_move(m, from, to, value)) == map_sum(m),
{
    let b = amount_in(m, from);
    let m1 = after_debit(m, from, value);
    if b - value != 0 {
        lemma_sum_insert(m, from, (b - value) as u128);
    } else {
        lemma_sum_remove(m, from);
    }
    assert(map_sum(m1) + value == map_sum(m));
    let t = amount_in(m1, to) + value;
    if t != 0 {
        lemma_sum_insert(m1, to, t as u128);
    }
}

/// Paying a fee keeps the sum of the balances.
proof fn lemma_fee_keeps_sum(m: Map<Seq<u8>, u128>, user: Seq<u8>, fee_to: Seq<u8>, fee: u128)
    requires
        m.dom().finite(),
        amount_in(m, user) >= fee,
        fee_fits(m, user, fee_to, fee),
    ensures
        after_fee(m, user, fee_to, fee).dom().finite(),
        map_sum(after_fee(m, user, fee_to, fee)) == map_sum(m),
{
    if fee > 0 {
        lemma_move_keeps_sum(m, user, fee_to, fee);
    }
}

/// Supply: a transfer keeps the sum of the balances and the total supply.
pub proof fn transfer_keeps_supply(s: TokenState, caller: Seq<u8>, to: Seq<u8>, value: u128, now: u64)
    requires
        supply_matches(s),
        transfer_fits(s, caller, to, value),
    ensures
        supply_matches(transfer_spec(s, caller, to, value, now).0),
{
    let fee = s.metadata.fee;
    if amount_in(s.balances, caller) >= value + fee {
        let charged = after_fee(s.balances, caller, s.metadata.fee_to, fee);
        lemma_fee_keeps_sum(s.balances, caller, s.metadata.fee_to, fee);
        lemma_move_effect(s.balances, caller, s.metadata.fee_to, fee, caller);
        lemma_move_keeps_sum(charged, caller, to, value);
    }
}

/// Supply: a transfer out of an allowance keeps the sum of the balances and
/// the total supply.
pub proof fn transfer_from_keeps_supply(
    s: TokenState,
    caller: Seq<u8>,
    from: Seq<u8>,
    to: Seq<u8>,
    value: u128,
    now: u64,
)
    requires
        supply_matches(s),
        transfer_fits(s, from, to, value),
    ensures
        supply_matches(transfer_from_spec(s, caller, from, to, value, now).0),
{
    let fee = s.metadata.fee;
    if transfer_from_passes(s, caller, from, value) {
        let charged = after_fee(s.balances, from, s.metadata.fee_to, fee);
        lemma_fee_keeps_sum(s.balances, from, s.metadata.fee_to, fee);
        lemma_move_effect(s.balances, from, s.metadata.fee_to, fee, from);
        lemma_move_keeps_sum(charged, from, to, value);
    }
}

/// Supply: an approval keeps the sum of the balances and the total supply.
pub proof fn approve_keeps_supply(s: TokenState, caller: Seq<u8>, spender: Seq<u8>, value: u128, now: u64)
    requires
        supply_matches(s),
        approve_fits(s, caller, value),
    ensures
        supply_matches(approve_spec(s, caller, spender, value, now).0),
{
    if amount_in(s.balances, caller) >= s.metadata.fee {
        lemma_fee_keeps_sum(s.balances, caller, s.metadata.fee_to, s.metadata.fee);
    }
}

/// Supply: a deposit notified by the ledger mints the same amount into the
/// balances and into the total supply.
pub proof fn notification_keeps_supply(
    s: TokenState,
    caller: Seq<u8>,
    self_id: Seq<u8>,
    from: Seq<u8>,
    to: Seq<u8>,
    amount: u64,
    now: u64,
)
    requires
        supply_matches(s),
        notification_fits(s, from, amount),
    ensures
        supply_matches(notification_spec(s, caller, self_id, from, to, amount, now).0),
{
    lemma_sum_insert(s.balances, from, (amount_in(s.balances, from) + amount) as u128);
}

/// Supply: a withdrawal debits the same amount from the balances and from
/// the total supply.
pub proof fn withdraw_keeps_supply(s: TokenState, caller: Seq<u8>, value: u64)
    requires
        supply_matches(s),
    ensures
        supply_matches(withdraw_spec(s, caller, value).0),
{
    let b = amount_in(s.balances, caller);
    if b >= value {
        lemma_sum_insert(s.balances, caller, (b - value) as u128);
    }
}

/// Supply: when the ledger answers a withdrawal, the supply still matches the
/// balances, provided the caller's balance did not change while the ledger
/// was asked (the refund sets the balance back to what it was before the
/// withdrawal, whatever happened in between).
pub proof fn finish_withdraw_keeps_supply(s: TokenState, p: WithdrawalView, sent: bool, now: u64)
    requires
        supply_matches(s),
        !sent ==> amount_in(s.balances, p.caller) + p.value == p.previous_balance,
        !sent ==> s.metadata.total_supply + p.value <= u128::MAX,
    ensures
        supply_matches(finish_withdraw_spec(s, p, sent, now).0),
{
    if !sent {
        lemma_sum_insert(s.balances, p.caller, p.previous_balance);
    }
}

/// A refused request changes nothing.
pub proof fn refusals_change_nothing(
    s: TokenState,
    caller: Seq<u8>,
    other: Seq<u8>,
    to: Seq<u8>,
    self_id: Seq<u8>,
    value: u128,
    amount: u64,
    now: u64,
)
    ensures
        transfer_spec(s, caller, to, value, now).1 is Err ==> transfer_spec(
            s,
            caller,
            to,
            value,
            now,
        ).0 == s,
        transfer_from_spec(s, caller, other, to, value, now).1 is Err ==> transfer_from_spec(
            s,
            caller,
            other,
            to,
            value,
            now,
        ).0 == s,
        approve_spec(s, caller, other, value, now).1 is Err ==> approve_spec(
            s,
            caller,
            other,
            value,
            now,
        ).0 == s,
        notification_spec(s, caller, self_id, other, to, amount, now).1 is Err ==> notification_spec(
            s,
            caller,
            self_id,
            other,
            to,
            amount,
            now,
        ).0 == s,
        withdraw_spec(s, caller, amount).1 is Err ==> withdraw_spec(s, caller, amount).0 == s,
{
}

/// A transfer between three distinct parties: the sender loses the value and
/// the fee, the receiver gains the value, the fee receiver gains the fee, and
/// every other balance stays.
pub proof fn transfer_moves_value_and_fee(
    s: TokenState,
    caller: Seq<u8>,
    to: Seq<u8>,
    value: u128,
    now: u64,
    p: Seq<u8>,
)
    requires
        transfer_fits(s, caller, to, value),
        transfer_spec(s, caller, to, value, now).1 is Ok,
        caller != to,
        caller != s.metadata.fee_to,
        to != s.metadata.fee_to,
    ensures
        ({
            let after = transfer_spec(s, caller, to, value, now).0.balances;
            let fee = s.metadata.fee;
            &&& amount_in(after, caller) == amount_in(s.balances, caller) - value - fee
            &&& amount_in(after, to) == amount_in(s.balances, to) + value
            &&& amount_in(after, s.metadata.fee_to) == amount_in(s.balances, s.metadata.fee_to) + fee
            &&& (p != caller && p != to && p != s.metadata.fee_to) ==> amount_in(after, p)
                == amount_in(s.balances, p)
        }),
{
    let fee = s.metadata.fee;
    let fee_to = s.metadata.fee_to;
    let charged = after_fee(s.balances, caller, fee_to, fee);
    if fee > 0 {
        lemma_move_effect(s.balances, caller, fee_to, fee, caller);
        lemma_move_effect(s.balances, caller, fee_to, fee, to);
        lemma_move_effect(s.balances, caller, fee_to, fee, fee_to);
        lemma_move_effect(s.balances, caller, fee_to, fee, p);
    }
    lemma_move_effect(charged, caller, to, value, caller);
    lemma_move_effect(charged, caller, to, value, to);
    lemma_move_effect(charged, caller, to, value, fee_to);
    lemma_move_effect(charged, caller, to, value, p);
}

/// An accepted approval sets the allowance to the approved value plus the fee.
pub proof fn approve_sets_allowance(s: TokenState, caller: Seq<u8>, spender: Seq<u8>, value: u128, now: u64)
    requires
        approve_fits(s, caller, value),
        approve_spec(s, caller, spender, value, now).1 is Ok,
    ensures
        allowance_in(approve_spec(s, caller, spender, value, now).0, caller, spender) == value
            + s.metadata.fee,
{
}

/// An accepted transfer out of an allowance spends the value plus the fee
/// from it.
pub proof fn transfer_from_spends_allowance(
    s: TokenState,
    caller: Seq<u8>,
    from: Seq<u8>,
    to: Seq<u8>,
    value: u128,
    now: u64,
)
    requires
        transfer_from_spec(s, caller, from, to, value, now).1 is Ok,
    ensures
        allowance_in(transfer_from_spec(s, caller, from, to, value, now).0, from, caller)
            == allowance_in(s, from, caller) - value - s.metadata.fee,
{
}

/// A new token's single holder holds the whole supply.
pub proof fn init_supply_matches(owner: Seq<u8>, total_supply: u128)
    ensures
        map_sum(Map::<Seq<u8>, u128>::empty().insert(owner, total_supply)) == total_supply,
        Map::<Seq<u8>, u128>::empty().insert(owner, total_supply).dom().finite(),
{
    let m = Map::<Seq<u8>, u128>::empty();
    assert(m.dom() =~= Set::<Seq<u8>>::empty());
    lemma_sum_insert(m, owner, total_supply);
}

/// Recording appends one record, numbered by its position.
proof fn lemma_recorded_indexed(
    s: TokenState,
    caller: Option<Seq<u8>>,
    operation: Operation,
    from: Seq<u8>,
    to: Seq<u8>,
    amount: u128,
    fee: u128,
    now: u64,
)
    requires
        history_indexed(s.history),
        s.history.len() < usize::MAX,
    ensures
        ({
            let (t, r) = recorded(s, caller, operation, from, to, amount, fee, now);
            &&& r matches Ok(rec)
            &&& t.history == s.history.push(rec)
            &&& history_indexed(t.history)
        }),
{
    let (t, r) = recorded(s, caller, operation, from, to, amount, fee, now);
    assert forall|i: int| 0 <= i < t.history.len() implies #[trigger] t.history[i].index == i by {
        if i < s.history.len() {
            assert(t.history[i] == s.history[i]);
        }
    }
}

/// History: an accepted request appends exactly one record, which carries
/// its position as index; a refused one leaves the history as it was. So the
/// history only grows, and every record carries its position.
pub proof fn history_grows_by_one(
    s: TokenState,
    caller: Seq<u8>,
    other: Seq<u8>,
    to: Seq<u8>,
    self_id: Seq<u8>,
    value: u128,
    amount: u64,
    p: WithdrawalView,
    sent: bool,
    now: u64,
)
    requires
        history_indexed(s.history),
        s.history.len() < usize::MAX,
    ensures
        ({
            let (t, r) = transfer_spec(s, caller, to, value, now);
            &&& history_indexed(t.history)
            &&& r matches Ok(rec) ==> t.history == s.history.push(rec)
            &&& r is Err ==> t.history == s.history
        }),
        ({
            let (t, r) = transfer_from_spec(s, caller, other, to, value, now);
            &&& history_indexed(t.history)
            &&& r matches Ok(rec) ==> t.history == s.history.push(rec)
            &&& r is Err ==> t.history == s.history
        }),
        ({
            let (t, r) = approve_spec(s, caller, other, value, now);
            &&& history_indexed(t.history)
            &&& r matches Ok(rec) ==> t.history == s.history.push(rec)
            &&& r is Err ==> t.history == s.history
        }),
        ({
            let (t, r) = notification_spec(s, caller, self_id, other, to, amount, now);
            &&& history_indexed(t.history)
            &&& r matches Ok(rec) ==> t.history == s.history.push(rec)
            &&& r is Err ==> t.history == s.history
        }),
        withdraw_spec(s, caller, amount).0.history == s.history,
        ({
            let (t, r) = finish_withdraw_spec(s, p, sent, now);
            &&& history_indexed(t.history)
            &&& r matches Ok(rec) ==> t.history == s.history.push(rec)
            &&& r is Err ==> t.history == s.history
        }),
{
    let fee = s.metadata.fee;
    lemma_recorded_indexed(
        TokenState {
            balances: after_move(after_fee(s.balances, caller, s.metadata.fee_to, fee), caller, to, value),
            ..s
        },
        None,
        Operation::Transfer,
        caller,
        to,
        value,
        fee,
        now,
    );
    lemma_recorded_indexed(
        TokenState {
            balances: after_move(after_fee(s.balances, other, s.metadata.fee_to, fee), other, to, value),
            allowances: set_or_clear(
                s.allowances,
                (other, caller),
                allowance_in(s, other, caller) - value - fee,
            ),
            ..s
        },
        Some(caller),
        Operation::TransferFrom,
        other,
        to,
        value,
        fee,
        now,
    );
    lemma_recorded_indexed(
        TokenState {
            balances: after_fee(s.balances, caller, s.metadata.fee_to, fee),
            allowances: set_or_clear(s.allowances, (caller, other), value + fee),
            ..s
        },
        None,
        Operation::Approve,
        caller,
        other,
        (value + fee) as u128,
        fee,
        now,
    );
    lemma_recorded_indexed(
        TokenState {
            balances: s.balances.insert(other, (amount_in(s.balances, other) + amount) as u128),
            metadata: MetadataView {
                total_supply: (s.metadata.total_supply + amount) as u128,
                ..s.metadata
            },
            ..s
        },
        Some(caller),
        Operation::Mint,
        other,
        other,
        amount as u128,
        0,
        now,
    );
    lemma_recorded_indexed(s, None, Operation::Burn, p.caller, p.caller, p.value as u128, 0, now);
}

/// No allowance of zero is kept.
pub open spec fn allowances_positive(s: TokenState) -> bool {
    forall|k: (Seq<u8>, Seq<u8>)| #[trigger] s.allowances.contains_key(k) ==> s.allowances[k] > 0
}

/// Allowances: every request keeps all stored allowances above zero; an
/// allowance that is spent or set to zero is dropped.
pub proof fn allowances_stay_positive(
    s: TokenState,
    caller: Seq<u8>,
    other: Seq<u8>,
    to: Seq<u8>,
    self_id: Seq<u8>,
    value: u128,
    amount: u64,
    p: WithdrawalView,
    sent: bool,
    now: u64,
)
    requires
        allowances_positive(s),
        approve_fits(s, caller, value),
    ensures
        allowances_positive(transfer_spec(s, caller, to, value, now).0),
        allowances_positive(transfer_from_spec(s, caller, other, to, value, now).0),
        allowances_positive(approve_spec(s, caller, other, value, now).0),
        allowances_positive(notification_spec(s, caller, self_id, other, to, amount, now).0),
        allowances_positive(withdraw_spec(s, caller, amount).0),
        allowances_positive(finish_withdraw_spec(s, p, sent, now).0),
{
}

/// Withdrawal: when the ledger refuses to send, the refund undoes the
/// withdrawal: every holder's balance, the supply, the allowances and the
/// history are as before.
pub proof fn failed_withdraw_undoes(s: TokenState, caller: Seq<u8>, value: u64, now: u64, p: Seq<u8>)
    requires
        withdraw_spec(s, caller, value).1 is Ok,
    ensures
        ({
            let (t, r) = withdraw_spec(s, caller, value);
            let u = finish_withdraw_spec(t, r->Ok_0, false, now).0;
            &&& amount_in(u.balances, p) == amount_in(s.balances, p)
            &&& u.metadata == s.metadata
            &&& u.allowances == s.allowances
            &&& u.history == s.history
        }),
{
}

/// Transfer: it is refused, with `InsufficientBalance`, exactly when the
/// caller's balance is below the value plus the fee; an accepted transfer is
/// recorded as a succeeded transfer from the caller to the receiver, of the
/// value and the fee, at the end of the history.
pub proof fn transfer_answers(s: TokenState, caller: Seq<u8>, to: Seq<u8>, value: u128, now: u64)
    requires
        s.history.len() <= usize::MAX,
    ensures
        ({
            let r = transfer_spec(s, caller, to, value, now).1;
            let covered = amount_in(s.balances, caller) >= value + s.metadata.fee;
            &&& covered <==> r is Ok
            &&& !covered ==> r == Err::<RecordView, TxError>(TxError::InsufficientBalance)
            &&& r matches Ok(rec) ==> {
                &&& rec.from == caller
                &&& rec.to == to
                &&& rec.amount == value
                &&& rec.fee == s.metadata.fee
                &&& rec.caller == None::<Seq<u8>>
                &&& rec.operation == Operation::Transfer
                &&& rec.status == TransactionStatus::Succeeded
                &&& rec.timestamp == now
                &&& rec.index == s.history.len()
            }
        }),
{
}

/// Transfer out of an allowance: refused with `InsufficientAllowance` exactly
/// when the allowance from `from` to the caller is below the value plus the
/// fee, else with `InsufficientBalance` exactly when `from`'s balance is; it
/// is accepted whenever both cover the value plus the fee, and recorded as a
/// transfer from `from` to the receiver made by the caller.
pub proof fn transfer_from_answers(
    s: TokenState,
    caller: Seq<u8>,
    from: Seq<u8>,
    to: Seq<u8>,
    value: u128,
    now: u64,
)
    requires
        s.history.len() <= usize::MAX,
    ensures
        ({
            let r = transfer_from_spec(s, caller, from, to, value, now).1;
            let allowed = amount_in(s.allowances, (from, caller)) >= value + s.metadata.fee;
            let covered = amount_in(s.balances, from) >= value + s.metadata.fee;
            &&& (allowed && covered) <==> r is Ok
            &&& !allowed ==> r == Err::<RecordView, TxError>(TxError::InsufficientAllowance)
            &&& allowed && !covered ==> r == Err::<RecordView, TxError>(
                TxError::InsufficientBalance,
            )
            &&& r matches Ok(rec) ==> {
                &&& rec.from == from
                &&& rec.to == to
                &&& rec.amount == value
                &&& rec.fee == s.metadata.fee
                &&& rec.caller == Some(caller)
                &&& rec.operation == Operation::TransferFrom
                &&& rec.status == TransactionStatus::Succeeded
                &&& rec.index == s.history.len()
            }
        }),
{
}

/// Approval: refused with `InsufficientBalance` exactly when the caller's
/// balance is below the fee; an accepted approval sets the allowance from the
/// caller to the spender to the value plus the fee, and is recorded as an
/// approval by the caller for the spender of that amount.
pub proof fn approve_answers(s: TokenState, caller: Seq<u8>, spender: Seq<u8>, value: u128, now: u64)
    requires
        approve_fits(s, caller, value),
        s.history.len() <= usize::MAX,
    ensures
        ({
            let (t, r) = approve_spec(s, caller, spender, value, now);
            let covered = amount_in(s.balances, caller) >= s.metadata.fee;
            &&& covered <==> r is Ok
            &&& !covered ==> r == Err::<RecordView, TxError>(TxError::InsufficientBalance)
            &&& r is Ok ==> amount_in(t.allowances, (caller, spender)) == value + s.metadata.fee
            &&& r matches Ok(rec) ==> {
                &&& rec.from == caller
                &&& rec.to == spender
                &&& rec.amount == value + s.metadata.fee
                &&& rec.fee == s.metadata.fee
                &&& rec.caller == None::<Seq<u8>>
                &&& rec.operation == Operation::Approve
                &&& rec.index == s.history.len()
            }
        }),
{
}

/// Deposit: accepted exactly when the ledger canister notifies of a transfer
/// to this canister (else `Unauthorized`); the depositor's balance and the
/// supply grow by the amount, and the mint is recorded from and to the
/// depositor, made by the ledger, with no fee.
pub proof fn notification_answers(
    s: TokenState,
    caller: Seq<u8>,
    self_id: Seq<u8>,
    from: Seq<u8>,
    to: Seq<u8>,
    amount: u64,
    now: u64,
)
    requires
        notification_fits(s, from, amount),
        s.history.len() <= usize::MAX,
    ensures
        ({
            let (t, r) = notification_spec(s, caller, self_id, from, to, amount, now);
            let genuine = caller == canister_id_bytes(LEDGER_CANISTER_NUMBER) && to == self_id
                && amount >= THRESHOLD_E8S;
            &&& genuine <==> r is Ok
            &&& (caller != canister_id_bytes(LEDGER_CANISTER_NUMBER) || to != self_id) ==> r
                == Err::<RecordView, TxError>(TxError::Unauthorized)
            &&& r is Ok ==> amount_in(t.balances, from) == amount_in(s.balances, from) + amount
            &&& r is Ok ==> t.metadata.total_supply == s.metadata.total_supply + amount
            &&& r matches Ok(rec) ==> {
                &&& rec.from == from
                &&& rec.to == from
                &&& rec.amount == amount
                &&& rec.fee == 0
                &&& rec.caller == Some(caller)
                &&& rec.operation == Operation::Mint
                &&& rec.index == s.history.len()
            }
        }),
{
}

/// Withdrawal: accepted exactly when the value is at least the threshold and
/// at most both the caller's balance and the supply (else
/// `InsufficientBalance`, or `AmountTooSmall` below the threshold); an
/// accepted one debits the value from the caller and from the supply, keeps
/// the caller's former balance for a refund, and asks the ledger to send the
/// value less the ledger fee, with the ledger fee.
pub proof fn withdraw_answers(s: TokenState, caller: Seq<u8>, value: u64)
    requires
        value >= THRESHOLD_E8S && amount_in(s.balances, caller) >= value
            && s.metadata.total_supply >= value ==> value >= ICP_FEE_E8S,
    ensures
        ({
            let (t, r) = withdraw_spec(s, caller, value);
            let passes = value >= THRESHOLD_E8S && amount_in(s.balances, caller) >= value
                && s.metadata.total_supply >= value;
            &&& passes <==> r is Ok
            &&& value >= THRESHOLD_E8S && !passes ==> r == Err::<WithdrawalView, TxError>(
                TxError::InsufficientBalance,
            )
            &&& r is Ok ==> amount_in(t.balances, caller) == amount_in(s.balances, caller) - value
            &&& r is Ok ==> t.metadata.total_supply == s.metadata.total_supply - value
            &&& r is Ok ==> t.history == s.history
            &&& r matches Ok(p) ==> {
                &&& p.caller == caller
                &&& p.value == value
                &&& p.previous_balance == amount_in(s.balances, caller)
                &&& p.send_amount == value - ICP_FEE_E8S
                &&& p.send_fee == ICP_FEE_E8S
            }
        }),
{
}

/// The ledger's answer to a withdrawal: when it sent the ICP, the burn of the
/// value by the caller is recorded and nothing else changes; when it did not,
/// the request fails with `LedgerTrap`, the caller gets back the balance it
/// had before the withdrawal and the supply is credited the value again.
pub proof fn finish_withdraw_answers(s: TokenState, p: WithdrawalView, sent: bool, now: u64)
    requires
        s.history.len() <= usize::MAX,
        !sent ==> s.metadata.total_supply + p.value <= u128::MAX,
    ensures
        ({
            let (t, r) = finish_withdraw_spec(s, p, sent, now);
            &&& sent <==> r is Ok
            &&& sent ==> t.balances == s.balances && t.metadata == s.metadata
            &&& !sent ==> r == Err::<RecordView, TxError>(TxError::LedgerTrap)
            &&& !sent ==> amount_in(t.balances, p.caller) == p.previous_balance
            &&& !sent ==> t.metadata.total_supply == s.metadata.total_supply + p.value
            &&& !sent ==> t.history == s.history
            &&& r matches Ok(rec) ==> {
                &&& rec.from == p.caller
                &&& rec.to == p.caller
                &&& rec.amount == p.value
                &&& rec.fee == 0
                &&& rec.caller == None::<Seq<u8>>
                &&& rec.operation == Operation::Burn
                &&& rec.index == s.history.len()
            }
        }),
{
}

} // verus!
