use vstd::prelude::*;

use crate::amount_map::{AllowanceKey, AmountMap};
use crate::cap_log::TxLog;
use crate::holders::{entry_pairs, is_ranking, lemma_ranking, pair_views, rank_by_amount};
use crate::principal::Principal;
use crate::records::{
    involves, opt_view, succeeded_record, Operation, RecordView, TransactionStatus, TxError,
    TxRecord,
};
use crate::supply::amount_in;
use crate::token_spec::{
    after_debit, after_fee, after_move, approve_fits, approve_spec, fee_fits,
    finish_withdraw_spec, lemma_debit_effect, lemma_move_effect, move_fits, notification_fits,
    notification_spec, outcome_view, recorded, transfer_fits, transfer_from_passes,
    transfer_from_spec, transfer_spec, withdraw_passes, withdraw_spec, MetadataView, TokenState,
    WithdrawalView, ICP_FEE_E8S, LEDGER_CANISTER_NUMBER, THRESHOLD_E8S, WITHDRAW_MEMO,
};

verus! {

/// The token's descriptive data and parameters.
#[derive(Debug)]
pub struct Metadata {
    pub logo: String,
    pub name: String,
    pub symbol: String,
    pub decimals: u8,
    pub total_supply: u128,
    pub owner: Principal,
    pub fee: u128,
    pub fee_to: Principal,
}

impl View for Metadata {
    type V = MetadataView;

    open spec fn view(&self) -> MetadataView {
        MetadataView {
            logo: self.logo@,
            name: self.name@,
            symbol: self.symbol@,
            decimals: self.decimals,
            total_supply: self.total_supply,
            owner: self.owner@,
            fee: self.fee,
            fee_to: self.fee_to@,
        }
    }
}

impl Default for Metadata {
    /// Empty texts, no decimals, no supply, no fee, and the anonymous
    /// principal as owner and as receiver of fees.
    fn default() -> (m: Self)
        ensures
            m@ == (MetadataView {
                logo: Seq::empty(),
                name: Seq::empty(),
                symbol: Seq::empty(),
                decimals: 0,
                total_supply: 0,
                owner: seq![4u8],
                fee: 0,
                fee_to: seq![4u8],
            }),
    {
        Metadata {
            logo: String::new(),
            name: String::new(),
            symbol: String::new(),
            decimals: 0,
            total_supply: 0,
            owner: Principal::anonymous(),
            fee: 0,
            fee_to: Principal::anonymous(),
        }
    }
}

impl Metadata {
    /// A second metadata equal to this one.
    pub fn duplicate(&self) -> (m: Metadata)
        ensures
            m@ == self@,
    {
        Metadata {
            logo: self.logo.clone(),
            name: self.name.clone(),
            symbol: self.symbol.clone(),
            decimals: self.decimals,
            total_supply: self.total_supply,
            owner: self.owner.duplicate(),
            fee: self.fee,
            fee_to: self.fee_to.duplicate(),
        }
    }
}

/// A summary of the token for its users.
#[derive(Debug)]
pub struct TokenInfo {
    pub metadata: Metadata,
    pub fee_to: Principal,
    pub history_size: usize,
    pub deploy_time: u64,
    pub holder_number: usize,
    pub cycles: u64,
}

/// A withdrawal that has been debited and waits for the ledger's answer; it
/// also says what the ledger is asked to send.
#[derive(Debug)]
pub struct PendingWithdrawal {
    pub caller: Principal,
    pub previous_balance: u128,
    pub value: u64,
    pub send_amount: u64,
    pub send_fee: u64,
    pub memo: u64,
}

impl View for PendingWithdrawal {
    type V = WithdrawalView;

    open spec fn view(&self) -> WithdrawalView {
        WithdrawalView {
            caller: self.caller@,
            previous_balance: self.previous_balance,
            value: self.value,
            send_amount: self.send_amount,
            send_fee: self.send_fee,
            memo: self.memo,
        }
    }
}

/// The whole state of the token.
pub struct Token {
    metadata: Metadata,
    balances: AmountMap<Principal>,
    allowances: AmountMap<AllowanceKey>,
    history: Vec<TxRecord>,
    deploy_time: u64,
    log: TxLog,
}

/// The records of a history, by their views.
pub open spec fn history_view(h: Seq<TxRecord>) -> Seq<RecordView> {
    h.map_values(|r: TxRecord| r@)
}

impl View for Token {
    type V = TokenState;

    closed spec fn view(&self) -> TokenState {
        TokenState {
            metadata: self.metadata@,
            balances: self.balances@,
            allowances: self.allowances@,
            history: history_view(self.history@),
            deploy_time: self.deploy_time,
            log: self.log@,
        }
    }
}

/// What `balances` holds for `p`, or zero.
fn balance_in_map(balances: &AmountMap<Principal>, p: &Principal) -> (r: u128)
    requires
        balances.wf(),
    ensures
        r == amount_in(balances@, p@),
{
    match balances.get(p) {
        Some(b) => b,
        None => 0,
    }
}

/// Moves `value` from `from` to `to`; a balance that falls to zero is dropped.
fn move_balance(balances: &mut AmountMap<Principal>, from: &Principal, to: &Principal, value: u128)
    requires
        old(balances).wf(),
        amount_in(old(balances)@, from@) >= value,
        move_fits(old(balances)@, from@, to@, value),
    ensures
        final(balances).wf(),
        final(balances)@ == after_move(old(balances)@, from@, to@, value),
{
    let from_balance = balance_in_map(balances, from);
    let from_new: u128 = from_balance - value;
    if from_new != 0 {
        balances.insert(from.duplicate(), from_new);
    } else {
        balances.remove(from);
    }
    assert(balances@ == after_debit(old(balances)@, from@, value));
    let to_balance = balance_in_map(balances, to);
    let to_new: u128 = to_balance + value;
    if to_new != 0 {
        balances.insert(to.duplicate(), to_new);
    }
}

/// `user` pays `fee` to `fee_to`, when the fee is not zero.
fn charge_fee(balances: &mut AmountMap<Principal>, user: &Principal, fee_to: &Principal, fee: u128)
    requires
        old(balances).wf(),
        amount_in(old(balances)@, user@) >= fee,
        fee_fits(old(balances)@, user@, fee_to@, fee),
    ensures
        final(balances).wf(),
        final(balances)@ == after_fee(old(balances)@, user@, fee_to@, fee),
{
    if fee > 0 {
        move_balance(balances, user, fee_to, fee);
    }
}

impl Token {
    /// The maps of the state are well formed.
    pub closed spec fn wf(&self) -> bool {
        &&& self.balances.wf()
        &&& self.allowances.wf()
    }

    /// The state holds finitely many balances and allowances.
    pub proof fn lemma_finite(&self)
        requires
            self.wf(),
        ensures
            self@.balances.dom().finite(),
            self@.allowances.dom().finite(),
    {
        self.balances.lemma_dom();
        self.allowances.lemma_dom();
    }

    /// Appends a succeeded record to the history and returns a copy of it.
    fn add_record(
        &mut self,
        caller: Option<Principal>,
        operation: Operation,
        from: &Principal,
        to: &Principal,
        amount: u128,
        fee: u128,
        now: u64,
    ) -> (r: TxRecord)
        ensures
            final(self).wf() == old(self).wf(),
            final(self)@ == recorded(
                old(self)@,
                opt_view(caller),
                operation,
                from@,
                to@,
                amount,
                fee,
                now,
            ).0,
            r@ == succeeded_record(
                opt_view(caller),
                operation,
                from@,
                to@,
                amount,
                fee,
                now,
                old(self)@.history.len() as usize,
            ),
    {
        let rec = TxRecord {
            caller,
            index: self.history.len(),
            from: from.duplicate(),
            to: to.duplicate(),
            amount,
            fee,
            timestamp: now,
            status: TransactionStatus::Succeeded,
            operation,
        };
        let out = rec.duplicate();
        self.history.push(rec);
        assert(history_view(self.history@) =~= history_view(old(self).history@).push(rec@));
        out
    }

    /// A new token: `owner` holds the whole `total_supply`, and the history
    /// starts with the record of that mint, made at `now`.
    pub fn init(
        logo: String,
        name: String,
        symbol: String,
        decimals: u8,
        total_supply: u128,
        owner: &Principal,
        fee: u128,
        now: u64,
    ) -> (r: (Token, TxRecord))
        ensures
            r.0.wf(),
            r.0@.metadata == (MetadataView {
                logo: logo@,
                name: name@,
                symbol: symbol@,
                decimals,
                total_supply,
                owner: owner@,
                fee,
                fee_to: seq![4u8],
            }),
            r.0@.balances == Map::<Seq<u8>, u128>::empty().insert(owner@, total_supply),
            r.0@.allowances == Map::<(Seq<u8>, Seq<u8>), u128>::empty(),
            r.0@.history == seq![r.1@],
            r.0@.deploy_time == now,
            r.0@.log == Seq::<RecordView>::empty(),
            r.1@ == succeeded_record(
                Some(owner@),
                Operation::Mint,
                Seq::<u8>::empty(),
                owner@,
                total_supply,
                0,
                now,
                0,
            ),
    {
        let mut metadata = Metadata::default();
        metadata.logo = logo;
        metadata.name = name;
        metadata.symbol = symbol;
        metadata.decimals = decimals;
        metadata.total_supply = total_supply;
        metadata.owner = owner.duplicate();
        metadata.fee = fee;
        let mut balances: AmountMap<Principal> = AmountMap::new();
        balances.insert(owner.duplicate(), total_supply);
        let mut token = Token {
            metadata,
            balances,
            allowances: AmountMap::new(),
            history: Vec::new(),
            deploy_time: now,
            log: TxLog::new(),
        };
        assert(history_view(token.history@) =~= Seq::<RecordView>::empty());
        let rec = token.add_record(
            Some(owner.duplicate()),
            Operation::Mint,
            &Principal::management_canister(),
            owner,
            total_supply,
            0,
            now,
        );
        assert(token@.history =~= seq![rec@]);
        (token, rec)
    }

    /// `caller` sends `value` to `to` and pays the fee to the fee receiver.
    /// Refused when the caller's balance is below `value` plus the fee.
    pub fn transfer(&mut self, caller: &Principal, to: &Principal, value: u128, now: u64) -> (r:
        Result<TxRecord, TxError>)
        requires
            old(self).wf(),
            transfer_fits(old(self)@, caller@, to@, value),
        ensures
            final(self).wf(),
            final(self)@ == transfer_spec(old(self)@, caller@, to@, value, now).0,
            outcome_view(r) == transfer_spec(old(self)@, caller@, to@, value, now).1,
    {
        let fee = self.metadata.fee;
        let balance = balance_in_map(&self.balances, caller);
        let needed = match value.checked_add(fee) {
            Some(n) => n,
            None => {
                return Err(TxError::InsufficientBalance);
            },
        };
        if balance < needed {
            return Err(TxError::InsufficientBalance);
        }
        charge_fee(&mut self.balances, caller, &self.metadata.fee_to, fee);
        move_balance(&mut self.balances, caller, to, value);
        let rec = self.add_record(None, Operation::Transfer, caller, to, value, fee, now);
        Ok(rec)
    }

    /// `caller` moves `value` from `from` to `to`, spending its allowance
    /// from `from`; `from` pays the fee, and the allowance shrinks by `value`
    /// plus the fee. Refused when the allowance, or else `from`'s balance, is
    /// below `value` plus the fee.
    pub fn transfer_from(
        &mut self,
        caller: &Principal,
        from: &Principal,
        to: &Principal,
        value: u128,
        now: u64,
    ) -> (r: Result<TxRecord, TxError>)
        requires
            old(self).wf(),
            transfer_fits(old(self)@, from@, to@, value),
            transfer_from_passes(old(self)@, caller@, from@, value) ==> old(
                self,
            )@.allowances.contains_key((from@, caller@)),
        ensures
            final(self).wf(),
            final(self)@ == transfer_from_spec(old(self)@, caller@, from@, to@, value, now).0,
            outcome_view(r) == transfer_from_spec(old(self)@, caller@, from@, to@, value, now).1,
    {
        let fee = self.metadata.fee;
        let key = AllowanceKey { owner: from.duplicate(), spender: caller.duplicate() };
        let allowed: u128 = match self.allowances.get(&key) {
            Some(a) => a,
            None => 0,
        };
        let needed = match value.checked_add(fee) {
            Some(n) => n,
            None => {
                return Err(TxError::InsufficientAllowance);
            },
        };
        if allowed < needed {
            return Err(TxError::InsufficientAllowance);
        }
        let balance = balance_in_map(&self.balances, from);
        if balance < needed {
            return Err(TxError::InsufficientBalance);
        }
        charge_fee(&mut self.balances, from, &self.metadata.fee_to, fee);
        move_balance(&mut self.balances, from, to, value);
        let remaining: u128 = allowed - needed;
        if remaining != 0 {
            self.allowances.insert(key, remaining);
        } else {
            self.allowances.remove(&key);
        }
        let rec = self.add_record(
            Some(caller.duplicate()),
            Operation::TransferFrom,
            from,
            to,
            value,
            fee,
            now,
        );
        Ok(rec)
    }

    /// `caller` lets `spender` move `value` out of its balance; the caller
    /// pays the fee, and the allowance is set to `value` plus the fee (or
    /// dropped when that is zero). Refused when the caller's balance is below
    /// the fee.
    pub fn approve(&mut self, caller: &Principal, spender: &Principal, value: u128, now: u64) -> (r:
        Result<TxRecord, TxError>)
        requires
            old(self).wf(),
            approve_fits(old(self)@, caller@, value),
        ensures
            final(self).wf(),
            final(self)@ == approve_spec(old(self)@, caller@, spender@, value, now).0,
            outcome_view(r) == approve_spec(old(self)@, caller@, spender@, value, now).1,
    {
        let fee = self.metadata.fee;
        let balance = balance_in_map(&self.balances, caller);
        if balance < fee {
            return Err(TxError::InsufficientBalance);
        }
        charge_fee(&mut self.balances, caller, &self.metadata.fee_to, fee);
        let v: u128 = value + fee;
        let key = AllowanceKey { owner: caller.duplicate(), spender: spender.duplicate() };
        if v != 0 {
            self.allowances.insert(key, v);
        } else {
            self.allowances.remove(&key);
        }
        let rec = self.add_record(None, Operation::Approve, caller, spender, v, fee, now);
        Ok(rec)
    }

    /// The ICP ledger (`caller`) notifies that `from` sent `amount` e8s to
    /// the canister `to`; when `to` is this token (`self_id`), as much is
    /// minted for `from`. Refused when the caller is not the ledger or the
    /// transfer went to another canister.
    pub fn transaction_notification(
        &mut self,
        caller: &Principal,
        self_id: &Principal,
        from: &Principal,
        to: &Principal,
        amount: u64,
        now: u64,
    ) -> (r: Result<TxRecord, TxError>)
        requires
            old(self).wf(),
            notification_spec(old(self)@, caller@, self_id@, from@, to@, amount, now).1 is Ok
                ==> notification_fits(old(self)@, from@, amount),
        ensures
            final(self).wf(),
            final(self)@ == notification_spec(old(self)@, caller@, self_id@, from@, to@, amount, now).0,
            outcome_view(r) == notification_spec(
                old(self)@,
                caller@,
                self_id@,
                from@,
                to@,
                amount,
                now,
            ).1,
    {
        let ledger = Principal::canister_from_u64(LEDGER_CANISTER_NUMBER);
        if !caller.same(&ledger) {
            return Err(TxError::Unauthorized);
        }
        if amount < THRESHOLD_E8S {
            return Err(TxError::AmountTooSmall);
        }
        if !to.same(self_id) {
            return Err(TxError::Unauthorized);
        }
        let value: u128 = amount as u128;
        let balance = balance_in_map(&self.balances, from);
        self.balances.insert(from.duplicate(), balance + value);
        self.metadata.total_supply = self.metadata.total_supply + value;
        let rec = self.add_record(
            Some(caller.duplicate()),
            Operation::Mint,
            from,
            from,
            value,
            0,
            now,
        );
        Ok(rec)
    }

    /// `caller` withdraws `value` e8s: its balance and the supply are debited
    /// at once, and the ledger is to be asked to send `value` less the ICP fee.
    /// Refused when the caller's balance or the supply is below `value`.
    pub fn withdraw(&mut self, caller: &Principal, value: u64) -> (r: Result<
        PendingWithdrawal,
        TxError,
    >)
        requires
            old(self).wf(),
            withdraw_passes(old(self)@, caller@, value) ==> value >= ICP_FEE_E8S,
        ensures
            final(self).wf(),
            final(self)@ == withdraw_spec(old(self)@, caller@, value).0,
            pending_view(r) == withdraw_spec(old(self)@, caller@, value).1,
    {
        if value < THRESHOLD_E8S {
            return Err(TxError::AmountTooSmall);
        }
        let amount: u128 = value as u128;
        let balance = balance_in_map(&self.balances, caller);
        if balance < amount || self.metadata.total_supply < amount {
            return Err(TxError::InsufficientBalance);
        }
        self.balances.insert(caller.duplicate(), balance - amount);
        self.metadata.total_supply = self.metadata.total_supply - amount;
        Ok(
            PendingWithdrawal {
                caller: caller.duplicate(),
                previous_balance: balance,
                value,
                send_amount: value - ICP_FEE_E8S,
                send_fee: ICP_FEE_E8S,
                memo: WITHDRAW_MEMO,
            },
        )
    }

    /// The ledger answered the transfer of a withdrawal: when it was sent,
    /// the burn is recorded; when it failed, the caller's balance is set back
    /// to what it was before the withdrawal and the supply is credited again.
    pub fn finish_withdraw(&mut self, pending: PendingWithdrawal, sent: bool, now: u64) -> (r: Result<
        TxRecord,
        TxError,
    >)
        requires
            old(self).wf(),
            !sent ==> old(self)@.metadata.total_supply + pending.value <= u128::MAX,
        ensures
            final(self).wf(),
            final(self)@ == finish_withdraw_spec(old(self)@, pending@, sent, now).0,
            outcome_view(r) == finish_withdraw_spec(old(self)@, pending@, sent, now).1,
    {
        if sent {
            let rec = self.add_record(
                None,
                Operation::Burn,
                &pending.caller,
                &pending.caller,
                pending.value as u128,
                0,
                now,
            );
            Ok(rec)
        } else {
            self.balances.insert(pending.caller, pending.previous_balance);
            self.metadata.total_supply = self.metadata.total_supply + pending.value as u128;
            Err(TxError::LedgerTrap)
        }
    }

    /// Whether the balances that a transfer of `value` from `from` to `to`
    /// would credit stay within the range of an amount.
    pub fn transfer_fits(&self, from: &Principal, to: &Principal, value: u128) -> (r: bool)
        requires
            self.wf(),
        ensures
            r == transfer_fits(self@, from@, to@, value),
    {
        let fee = self.metadata.fee;
        let fee_to = &self.metadata.fee_to;
        let ghost m = self@.balances;
        let bf = balance_in_map(&self.balances, from);
        let needed = match value.checked_add(fee) {
            Some(n) => n,
            None => {
                return true;
            },
        };
        if bf < needed {
            return true;
        }
        let fee_target: u128 = if fee_to.same(from) {
            bf - fee
        } else {
            balance_in_map(&self.balances, fee_to)
        };
        proof {
            lemma_debit_effect(m, from@, fee, fee_to@);
        }
        if fee > 0 && fee_target > u128::MAX - fee {
            return false;
        }
        let charged_elsewhere = fee > 0 && !fee_to.same(from);
        let from_after_fee: u128 = if charged_elsewhere {
            bf - fee
        } else {
            bf
        };
        let to_after_fee: u128 = if to.same(from) {
            from_after_fee
        } else if charged_elsewhere && to.same(fee_to) {
            fee_target + fee
        } else {
            balance_in_map(&self.balances, to)
        };
        let to_target: u128 = if to.same(from) {
            from_after_fee - value
        } else {
            to_after_fee
        };
        proof {
            let m1 = after_fee(m, from@, fee_to@, fee);
            if fee > 0 {
                lemma_move_effect(m, from@, fee_to@, fee, from@);
                lemma_move_effect(m, from@, fee_to@, fee, to@);
            }
            assert(amount_in(m1, from@) == from_after_fee);
            assert(amount_in(m1, to@) == to_after_fee);
            lemma_debit_effect(m1, from@, value, to@);
        }
        to_target <= u128::MAX - value
    }

    /// Whether the amounts of an approval of `value` by `caller` stay within
    /// the range of an amount.
    pub fn approve_fits(&self, caller: &Principal, value: u128) -> (r: bool)
        requires
            self.wf(),
        ensures
            r == approve_fits(self@, caller@, value),
    {
        let fee = self.metadata.fee;
        let fee_to = &self.metadata.fee_to;
        let bf = balance_in_map(&self.balances, caller);
        if bf < fee {
            return true;
        }
        let fee_target: u128 = if fee_to.same(caller) {
            bf - fee
        } else {
            balance_in_map(&self.balances, fee_to)
        };
        proof {
            lemma_debit_effect(self@.balances, caller@, fee, fee_to@);
        }
        if fee > 0 && fee_target > u128::MAX - fee {
            return false;
        }
        value <= u128::MAX - fee
    }

    /// Whether `transfer_from` would pass its checks while `caller` holds no
    /// allowance entry from `from` (a value and fee of zero): the canister
    /// traps on such a request.
    pub fn transfer_from_traps(&self, caller: &Principal, from: &Principal, value: u128) -> (r: bool)
        requires
            self.wf(),
        ensures
            r == (transfer_from_passes(self@, caller@, from@, value)
                && !self@.allowances.contains_key((from@, caller@))),
    {
        let key = AllowanceKey { owner: from.duplicate(), spender: caller.duplicate() };
        match self.allowances.get(&key) {
            Some(_) => false,
            None => {
                let fee = self.metadata.fee;
                value == 0 && fee == 0
            },
        }
    }

    /// Whether `caller` owns the token.
    pub fn is_owner(&self, caller: &Principal) -> (r: bool)
        ensures
            r == (caller@ == self@.metadata.owner),
    {
        caller.same(&self.metadata.owner)
    }

    /// The owner sets the logo.
    pub fn set_logo(&mut self, caller: &Principal, logo: String)
        requires
            caller@ == old(self)@.metadata.owner,
        ensures
            final(self).wf() == old(self).wf(),
            final(self)@ == (TokenState {
                metadata: MetadataView { logo: logo@, ..old(self)@.metadata },
                ..old(self)@
            }),
    {
        self.metadata.logo = logo;
    }

    /// The owner sets the fee.
    pub fn set_fee(&mut self, caller: &Principal, fee: u128)
        requires
            caller@ == old(self)@.metadata.owner,
        ensures
            final(self).wf() == old(self).wf(),
            final(self)@ == (TokenState {
                metadata: MetadataView { fee, ..old(self)@.metadata },
                ..old(self)@
            }),
    {
        self.metadata.fee = fee;
    }

    /// The owner sets who receives the fees.
    pub fn set_fee_to(&mut self, caller: &Principal, fee_to: Principal)
        requires
            caller@ == old(self)@.metadata.owner,
        ensures
            final(self).wf() == old(self).wf(),
            final(self)@ == (TokenState {
                metadata: MetadataView { fee_to: fee_to@, ..old(self)@.metadata },
                ..old(self)@
            }),
    {
        self.metadata.fee_to = fee_to;
    }

    /// The owner hands the token to a new owner.
    pub fn set_owner(&mut self, caller: &Principal, owner: Principal)
        requires
            caller@ == old(self)@.metadata.owner,
        ensures
            final(self).wf() == old(self).wf(),
            final(self)@ == (TokenState {
                metadata: MetadataView { owner: owner@, ..old(self)@.metadata },
                ..old(self)@
            }),
    {
        self.metadata.owner = owner;
    }

    /// What `id` holds.
    pub fn balance_of(&self, id: &Principal) -> (r: u128)
        requires
            self.wf(),
        ensures
            r == amount_in(self@.balances, id@),
    {
        balance_in_map(&self.balances, id)
    }

    /// What `spender` may still move out of `owner`'s balance.
    pub fn allowance(&self, owner: &Principal, spender: &Principal) -> (r: u128)
        requires
            self.wf(),
        ensures
            r == amount_in(self@.allowances, (owner@, spender@)),
    {
        let key = AllowanceKey { owner: owner.duplicate(), spender: spender.duplicate() };
        match self.allowances.get(&key) {
            Some(a) => a,
            None => 0,
        }
    }

    /// The logo.
    pub fn get_logo(&self) -> (r: String)
        ensures
            r@ == self@.metadata.logo,
    {
        self.metadata.logo.clone()
    }

    /// The name.
    pub fn name(&self) -> (r: String)
        ensures
            r@ == self@.metadata.name,
    {
        self.metadata.name.clone()
    }

    /// The symbol.
    pub fn symbol(&self) -> (r: String)
        ensures
            r@ == self@.metadata.symbol,
    {
        self.metadata.symbol.clone()
    }

    /// The number of decimals.
    pub fn decimals(&self) -> (r: u8)
        ensures
            r == self@.metadata.decimals,
    {
        self.metadata.decimals
    }

    /// The total supply.
    pub fn total_supply(&self) -> (r: u128)
        ensures
            r == self@.metadata.total_supply,
    {
        self.metadata.total_supply
    }

    /// The owner.
    pub fn owner(&self) -> (r: Principal)
        ensures
            r@ == self@.metadata.owner,
    {
        self.metadata.owner.duplicate()
    }

    /// All the metadata.
    pub fn get_metadata(&self) -> (r: Metadata)
        ensures
            r@ == self@.metadata,
    {
        self.metadata.duplicate()
    }

    /// The number of recorded transactions.
    pub fn history_size(&self) -> (r: usize)
        ensures
            r == self@.history.len(),
    {
        self.history.len()
    }

    /// The recorded transaction at `index`.
    pub fn get_transaction(&self, index: usize) -> (r: TxRecord)
        requires
            index < self@.history.len(),
        ensures
            r@ == self@.history[index as int],
    {
        self.history[index].duplicate()
    }

    /// The number of allowances given, over all owners.
    pub fn get_allowance_size(&self) -> (r: usize)
        requires
            self.wf(),
        ensures
            r == self@.allowances.len(),
    {
        self.allowances.len()
    }

    /// The number of holders.
    pub fn holder_number(&self) -> (r: usize)
        requires
            self.wf(),
        ensures
            r == self@.balances.len(),
    {
        self.balances.len()
    }

    /// A summary of the token; `cycles` is the canister's cycle balance.
    pub fn get_token_info(&self, cycles: u64) -> (r: TokenInfo)
        requires
            self.wf(),
        ensures
            r.metadata@ == self@.metadata,
            r.fee_to@ == self@.metadata.fee_to,
            r.history_size == self@.history.len(),
            r.deploy_time == self@.deploy_time,
            r.holder_number == self@.balances.len(),
            r.cycles == cycles,
    {
        TokenInfo {
            metadata: self.metadata.duplicate(),
            fee_to: self.metadata.fee_to.duplicate(),
            history_size: self.history.len(),
            deploy_time: self.deploy_time,
            holder_number: self.balances.len(),
            cycles,
        }
    }

    /// A page of the holders ranked by balance, largest first: the holders
    /// ranked from `start` on, at most `limit` of them. Holders with equal
    /// balances may come in any order.
    pub fn get_holders(&self, start: usize, limit: usize) -> (r: Vec<(Principal, u128)>)
        requires
            self.wf(),
            start <= self@.balances.len(),
            start + limit <= usize::MAX,
        ensures
            exists|rk: Seq<(Seq<u8>, u128)>|
                #![trigger is_ranking(rk, self@.balances)]
                is_ranking(rk, self@.balances) && pair_views(r@) == rk.subrange(
                    start as int,
                    start + page_len(self@.balances.len(), start as nat, limit as nat),
                ),
    {
        broadcast use vstd::seq_lib::group_to_multiset_ensures;

        let n: usize = self.balances.len();
        let mut entries: Vec<(Principal, u128)> = Vec::new();
        for i in 0..n
            invariant
                n == self.balances.size(),
                pair_views(entries@) == entry_pairs(&self.balances).take(i as int),
        {
            let key = self.balances.key_ref(i).duplicate();
            let amount = self.balances.amount_ref(i);
            let ghost before = entries@;
            entries.push((key, amount));
            proof {
                assert(entries@ == before.push((key, amount)));
                assert(pair_views(entries@) =~= pair_views(before).push((key@, amount)));
                assert(entry_pairs(&self.balances).take(i + 1) =~= entry_pairs(&self.balances).take(
                    i as int,
                ).push(entry_pairs(&self.balances)[i as int]));
            }
        }
        assert(entry_pairs(&self.balances).take(n as int) =~= entry_pairs(&self.balances));
        let ranked = rank_by_amount(&entries);
        let ghost rk = pair_views(ranked@);
        proof {
            lemma_ranking(&self.balances, rk);
            assert(rk.to_multiset().len() == entry_pairs(&self.balances).to_multiset().len());
        }
        let total: usize = ranked.len();
        let lim: usize = if start + limit > total {
            total - start
        } else {
            limit
        };
        let end: usize = start + lim;
        let mut out: Vec<(Principal, u128)> = Vec::new();
        for k in start..end
            invariant
                end <= ranked@.len(),
                rk == pair_views(ranked@),
                pair_views(out@) == rk.subrange(start as int, k as int),
        {
            let holder = ranked[k].0.duplicate();
            let amount = ranked[k].1;
            let ghost before = out@;
            out.push((holder, amount));
            proof {
                assert(out@ == before.push((holder, amount)));
                assert(pair_views(out@) =~= pair_views(before).push((holder@, amount)));
                assert(rk[k as int] == (holder@, amount));
                assert(rk.subrange(start as int, k + 1) =~= rk.subrange(start as int, k as int).push(
                    rk[k as int],
                ));
            }
        }
        assert(is_ranking(rk, self@.balances));
        out
    }

    /// The spenders that `who` gave an allowance to, each once, with what
    /// they may still spend.
    pub fn get_user_approvals(&self, who: &Principal) -> (r: Vec<(Principal, u128)>)
        requires
            self.wf(),
        ensures
            pair_views(r@).no_duplicates(),
            forall|i: int|
                0 <= i < r@.len() ==> self@.allowances.contains_key((who@, #[trigger] r@[i].0@))
                    && self@.allowances[(who@, r@[i].0@)] == r@[i].1,
            forall|sp: Seq<u8>| #[trigger]
                self@.allowances.contains_key((who@, sp)) ==> exists|i: int|
                    0 <= i < r@.len() && r@[i].0@ == sp,
    {
        let n: usize = self.allowances.len();
        let mut out: Vec<(Principal, u128)> = Vec::new();
        let ghost mut src: Seq<int> = Seq::empty();
        for i in 0..n
            invariant
                n == self.allowances.size(),
                self.wf(),
                src.len() == out@.len(),
                forall|j: int|
                    0 <= j < src.len() ==> 0 <= #[trigger] src[j] < i && self.allowances.key_at(
                        src[j],
                    ) == (who@, out@[j].0@) && self.allowances.amount_at(src[j]) == out@[j].1,
                forall|j1: int, j2: int| 0 <= j1 < j2 < src.len() ==> #[trigger] src[j1] < #[trigger] src[j2],
                forall|b: int|
                    0 <= b < i && (#[trigger] self.allowances.key_at(b)).0 == who@ ==> exists|j: int|
                        0 <= j < src.len() && src[j] == b,
        {
            let key = self.allowances.key_ref(i);
            let ghost old_src = src;
            if key.owner.same(who) {
                out.push((key.spender.duplicate(), self.allowances.amount_ref(i)));
                proof {
                    src = src.push(i as int);
                    assert(src[src.len() - 1] == i);
                }
            }
            proof {
                assert forall|b: int|
                    0 <= b < i + 1 && (#[trigger] self.allowances.key_at(b)).0 == who@ implies exists|
                    j: int,
                | 0 <= j < src.len() && src[j] == b by {
                    if b == i {
                        assert(src[src.len() - 1] == b);
                    } else {
                        let j = choose|j: int| 0 <= j < old_src.len() && old_src[j] == b;
                        assert(src[j] == b);
                    }
                }
            }
        }
        proof {
            assert forall|j: int| 0 <= j < out@.len() implies self@.allowances.contains_key(
                (who@, #[trigger] out@[j].0@),
            ) && self@.allowances[(who@, out@[j].0@)] == out@[j].1 by {
                self.allowances.lemma_at(src[j]);
            }
            assert forall|sp: Seq<u8>| #[trigger]
                self@.allowances.contains_key((who@, sp)) implies exists|i: int|
                0 <= i < out@.len() && out@[i].0@ == sp by {
                let b = self.allowances.lemma_index_of((who@, sp));
                let j = choose|j: int| 0 <= j < src.len() && src[j] == b;
                assert(out@[j].0@ == sp);
            }
            assert forall|j1: int, j2: int|
                0 <= j1 < pair_views(out@).len() && 0 <= j2 < pair_views(out@).len() && j1 != j2
                implies pair_views(out@)[j1] != pair_views(out@)[j2] by {
                if j1 < j2 {
                    assert(src[j1] < src[j2]);
                } else {
                    assert(src[j2] < src[j1]);
                }
                self.allowances.lemma_keys_distinct(src[j1], src[j2]);
            }
        }
        out
    }

    /// The recorded transactions from `start` on, at most `limit` of them.
    pub fn get_transactions(&self, start: usize, limit: usize) -> (r: Vec<TxRecord>)
        requires
            start + limit <= usize::MAX,
        ensures
            history_view(r@) == window(self@.history, start as nat, limit as nat),
    {
        let len: usize = self.history.len();
        let end: usize = if start + limit > len {
            len
        } else {
            start + limit
        };
        let mut out: Vec<TxRecord> = Vec::new();
        let mut k: usize = start;
        while k < end
            invariant
                start <= k,
                end <= len,
                len == self.history@.len(),
                k < end ==> history_view(out@) == history_view(self.history@).subrange(
                    start as int,
                    k as int,
                ),
                k >= end ==> history_view(out@) == window(self@.history, start as nat, limit as nat),
                end == (if start + limit > len {
                    len as int
                } else {
                    start + limit
                }),
            decreases end - k,
        {
            let rec = self.history[k].duplicate();
            let ghost before = out@;
            out.push(rec);
            proof {
                assert(out@ == before.push(rec));
                assert(history_view(out@) =~= history_view(before).push(rec@));
                assert(history_view(self.history@).subrange(start as int, k + 1) =~= history_view(
                    self.history@,
                ).subrange(start as int, k as int).push(history_view(self.history@)[k as int]));
            }
            k = k + 1;
        }
        if start >= end {
            assert(history_view(out@) =~= window(self@.history, start as nat, limit as nat));
        }
        out
    }

    /// The number of recorded transactions that `user` took part in.
    pub fn get_user_transaction_amount(&self, user: &Principal) -> (r: usize)
        ensures
            r == self@.history.filter(involving(user@)).len(),
    {
        let n: usize = self.history.len();
        let ghost h = self@.history;
        let mut count: usize = 0;
        assert(h.take(0) =~= Seq::<RecordView>::empty());
        reveal_with_fuel(Seq::<_>::filter, 1);
        for i in 0..n
            invariant
                n == h.len(),
                h == history_view(self.history@),
                count == h.take(i as int).filter(involving(user@)).len(),
                count <= i,
        {
            proof {
                assert(h.take(i + 1) =~= h.take(i as int).push(h[i as int]));
                h.take(i as int).lemma_filter_push(h[i as int], involving(user@));
            }
            if self.history[i].involves(user) {
                count = count + 1;
            }
        }
        assert(h.take(n as int) =~= h);
        count
    }

    /// The recorded transactions that `user` took part in, from the
    /// `start`-th of them on, at most `limit` of them.
    pub fn get_user_transactions(&self, user: &Principal, start: usize, limit: usize) -> (r: Vec<
        TxRecord,
    >)
        requires
            start + limit <= usize::MAX,
        ensures
            history_view(r@) == window(self@.history.filter(involving(user@)), start as nat, limit as nat),
    {
        let n: usize = self.history.len();
        let ghost h = self@.history;
        let mut index: usize = 0;
        let mut out: Vec<TxRecord> = Vec::new();
        assert(h.take(0) =~= Seq::<RecordView>::empty());
        reveal_with_fuel(Seq::<_>::filter, 1);
        assert(history_view(out@) =~= Seq::<RecordView>::empty());
        for i in 0..n
            invariant
                n == h.len(),
                h == history_view(self.history@),
                index == h.take(i as int).filter(involving(user@)).len(),
                index <= i,
                start + limit <= usize::MAX,
                history_view(out@) == window(
                    h.take(i as int).filter(involving(user@)),
                    start as nat,
                    limit as nat,
                ),
        {
            let ghost f = h.take(i as int).filter(involving(user@));
            proof {
                assert(h.take(i + 1) =~= h.take(i as int).push(h[i as int]));
                h.take(i as int).lemma_filter_push(h[i as int], involving(user@));
                lemma_window_push(f, h[i as int], start as nat, limit as nat);
            }
            if self.history[i].involves(user) {
                if index >= start && index < start + limit {
                    out.push(self.history[i].duplicate());
                    assert(history_view(out@) =~= window(f, start as nat, limit as nat).push(
                        h[i as int],
                    ));
                }
                index = index + 1;
            }
        }
        assert(h.take(n as int) =~= h);
        out
    }

    /// Every balance, in the order the holders came in.
    pub fn balance_entries(&self) -> (r: Vec<(Principal, u128)>)
        requires
            self.wf(),
        ensures
            r@.len() == self@.balances.len(),
            forall|i: int|
                0 <= i < r@.len() ==> self@.balances.contains_key(#[trigger] pair_views(r@)[i].0)
                    && self@.balances[pair_views(r@)[i].0] == pair_views(r@)[i].1,
            forall|k: Seq<u8>| #[trigger]
                self@.balances.contains_key(k) ==> exists|i: int|
                    0 <= i < r@.len() && pair_views(r@)[i].0 == k,
    {
        let n: usize = self.balances.len();
        let mut entries: Vec<(Principal, u128)> = Vec::new();
        for i in 0..n
            invariant
                n == self.balances.size(),
                pair_views(entries@) == entry_pairs(&self.balances).take(i as int),
        {
            let key = self.balances.key_ref(i).duplicate();
            let amount = self.balances.amount_ref(i);
            let ghost before = entries@;
            entries.push((key, amount));
            proof {
                assert(entries@ == before.push((key, amount)));
                assert(pair_views(entries@) =~= pair_views(before).push((key@, amount)));
                assert(entry_pairs(&self.balances).take(i + 1) =~= entry_pairs(&self.balances).take(
                    i as int,
                ).push(entry_pairs(&self.balances)[i as int]));
            }
        }
        proof {
            let e = entry_pairs(&self.balances);
            assert(e.take(n as int) =~= e);
            assert forall|i: int| 0 <= i < entries@.len() implies self@.balances.contains_key(
                #[trigger] pair_views(entries@)[i].0,
            ) && self@.balances[pair_views(entries@)[i].0] == pair_views(entries@)[i].1 by {
                self.balances.lemma_at(i);
            }
            assert forall|k: Seq<u8>| #[trigger]
                self@.balances.contains_key(k) implies exists|i: int|
                0 <= i < entries@.len() && pair_views(entries@)[i].0 == k by {
                let b = self.balances.lemma_index_of(k);
                assert(pair_views(entries@)[b].0 == k);
            }
        }
        entries
    }

    /// Every allowance as (owner, spender, amount).
    pub fn allowance_entries(&self) -> (r: Vec<(Principal, Principal, u128)>)
        requires
            self.wf(),
        ensures
            r@.len() == self@.allowances.len(),
            forall|i: int|
                0 <= i < r@.len() ==> self@.allowances.contains_key(
                    #[trigger] allowance_views(r@)[i].0,
                ) && self@.allowances[allowance_views(r@)[i].0] == allowance_views(r@)[i].1,
            forall|k: (Seq<u8>, Seq<u8>)| #[trigger]
                self@.allowances.contains_key(k) ==> exists|i: int|
                    0 <= i < r@.len() && allowance_views(r@)[i].0 == k,
    {
        let n: usize = self.allowances.len();
        let mut out: Vec<(Principal, Principal, u128)> = Vec::new();
        for i in 0..n
            invariant
                n == self.allowances.size(),
                n == self@.allowances.len(),
                self.wf(),
                out@.len() == i,
                forall|j: int|
                    0 <= j < i ==> #[trigger] allowance_views(out@)[j] == (
                        self.allowances.key_at(j),
                        self.allowances.amount_at(j),
                    ),
        {
            let key = self.allowances.key_ref(i);
            let owner = key.owner.duplicate();
            let spender = key.spender.duplicate();
            let amount = self.allowances.amount_ref(i);
            let ghost before = out@;
            out.push((owner, spender, amount));
            proof {
                assert(out@ == before.push((owner, spender, amount)));
                assert(allowance_views(out@) =~= allowance_views(before).push(
                    ((owner@, spender@), amount),
                ));
            }
        }
        proof {
            assert forall|i: int| 0 <= i < out@.len() implies self@.allowances.contains_key(
                #[trigger] allowance_views(out@)[i].0,
            ) && self@.allowances[allowance_views(out@)[i].0] == allowance_views(out@)[i].1 by {
                self.allowances.lemma_at(i);
            }
            assert forall|k: (Seq<u8>, Seq<u8>)| #[trigger]
                self@.allowances.contains_key(k) implies exists|i: int|
                0 <= i < out@.len() && allowance_views(out@)[i].0 == k by {
                let b = self.allowances.lemma_index_of(k);
                assert(allowance_views(out@)[b].0 == k);
            }
        }
        out
    }

    /// The whole history.
    pub fn history(&self) -> (r: Vec<TxRecord>)
        ensures
            history_view(r@) == self@.history,
    {
        let n: usize = self.history.len();
        let mut out: Vec<TxRecord> = Vec::new();
        for i in 0..n
            invariant
                n == self.history@.len(),
                history_view(out@) == history_view(self.history@).take(i as int),
        {
            let rec = self.history[i].duplicate();
            let ghost before = out@;
            out.push(rec);
            proof {
                assert(out@ == before.push(rec));
                assert(history_view(out@) =~= history_view(before).push(rec@));
                assert(history_view(self.history@).take(i + 1) =~= history_view(self.history@).take(
                    i as int,
                ).push(history_view(self.history@)[i as int]));
            }
        }
        assert(history_view(self.history@).take(n as int) =~= history_view(self.history@));
        out
    }

    /// The deployment time.
    pub fn deploy_time(&self) -> (r: u64)
        ensures
            r == self@.deploy_time,
    {
        self.deploy_time
    }

    /// The state as it was stored before an upgrade: balances and allowances
    /// come in as lists, where a later entry for the same key wins.
    pub fn restore(
        metadata: Metadata,
        balances: Vec<(Principal, u128)>,
        allowances: Vec<(Principal, Principal, u128)>,
        history: Vec<TxRecord>,
        deploy_time: u64,
        log: TxLog,
    ) -> (r: Token)
        ensures
            r.wf(),
            r@.metadata == metadata@,
            r@.balances == map_of_pairs(pair_views(balances@)),
            r@.allowances == map_of_pairs(allowance_views(allowances@)),
            r@.history == history_view(history@),
            r@.deploy_time == deploy_time,
            r@.log == log@,
    {
        let mut bal: AmountMap<Principal> = AmountMap::new();
        let n: usize = balances.len();
        assert(pair_views(balances@).take(0) =~= Seq::<(Seq<u8>, u128)>::empty());
        for i in 0..n
            invariant
                n == balances@.len(),
                bal.wf(),
                bal@ == map_of_pairs(pair_views(balances@).take(i as int)),
        {
            bal.insert(balances[i].0.duplicate(), balances[i].1);
            assert(pair_views(balances@).take(i + 1).drop_last() =~= pair_views(balances@).take(
                i as int,
            ));
        }
        assert(pair_views(balances@).take(n as int) =~= pair_views(balances@));
        let mut allow: AmountMap<AllowanceKey> = AmountMap::new();
        let m: usize = allowances.len();
        assert(allowance_views(allowances@).take(0) =~= Seq::<((Seq<u8>, Seq<u8>), u128)>::empty());
        for i in 0..m
            invariant
                m == allowances@.len(),
                allow.wf(),
                allow@ == map_of_pairs(allowance_views(allowances@).take(i as int)),
        {
            let key = AllowanceKey {
                owner: allowances[i].0.duplicate(),
                spender: allowances[i].1.duplicate(),
            };
            allow.insert(key, allowances[i].2);
            assert(allowance_views(allowances@).take(i + 1).drop_last() =~= allowance_views(
                allowances@,
            ).take(i as int));
        }
        assert(allowance_views(allowances@).take(m as int) =~= allowance_views(allowances@));
        Token { metadata, balances: bal, allowances: allow, history, deploy_time, log }
    }

    /// The log of records that still have to reach the history canister.
    pub fn tx_log(&mut self) -> (r: &mut TxLog)
        ensures
            r@ == old(self)@.log,
            final(self).wf() == old(self).wf(),
            final(self)@ == (TokenState { log: final(r)@, ..old(self)@ }),
    {
        &mut self.log
    }
}

/// The number of holders that a page starting at `start` shows, out of `total`.
pub open spec fn page_len(total: nat, start: nat, limit: nat) -> nat {
    if start + limit > total {
        (total - start) as nat
    } else {
        limit
    }
}

/// The part of `s` from `start` on, at most `limit` long.
pub open spec fn window<A>(s: Seq<A>, start: nat, limit: nat) -> Seq<A> {
    let end = if start + limit > s.len() {
        s.len()
    } else {
        start + limit
    };
    if start < end {
        s.subrange(start as int, end as int)
    } else {
        Seq::empty()
    }
}

/// The records that `user` took part in keep to this predicate.
pub open spec fn involving(user: Seq<u8>) -> spec_fn(RecordView) -> bool {
    |r: RecordView| involves(r, user)
}

/// One more element either falls in the window or leaves it as it was.
proof fn lemma_window_push<A>(s: Seq<A>, x: A, start: nat, limit: nat)
    ensures
        window(s.push(x), start, limit) == if start <= s.len() < start + limit {
            window(s, start, limit).push(x)
        } else {
            window(s, start, limit)
        },
{
    if start <= s.len() < start + limit {
        assert(window(s.push(x), start, limit) =~= window(s, start, limit).push(x));
    } else {
        assert(window(s.push(x), start, limit) =~= window(s, start, limit));
    }
}

/// The map that results from inserting the pairs of `s` in order; a later
/// pair for the same key wins.
pub open spec fn map_of_pairs<A>(s: Seq<(A, u128)>) -> Map<A, u128>
    decreases s.len(),
{
    if s.len() == 0 {
        Map::empty()
    } else {
        map_of_pairs(s.drop_last()).insert(s.last().0, s.last().1)
    }
}

/// Allowance triples (owner, spender, amount) as plain values.
pub open spec fn allowance_views(v: Seq<(Principal, Principal, u128)>) -> Seq<
    ((Seq<u8>, Seq<u8>), u128),
> {
    v.map_values(|e: (Principal, Principal, u128)| ((e.0@, e.1@), e.2))
}

/// A withdrawal outcome with the pending withdrawal taken by its view.
pub open spec fn pending_view(r: Result<PendingWithdrawal, TxError>) -> Result<WithdrawalView, TxError> {
    match r {
        Ok(p) => Ok(p@),
        Err(e) => Err(e),
    }
}

} // verus!
