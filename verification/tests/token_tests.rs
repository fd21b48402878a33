#![allow(deprecated)]

use ic_kit::mock_principals::{alice, bob, john};
use wicp::cap_log::{insert_into_cap, insert_into_cap_priv, TxLog};
use wicp::principal::Principal;
use wicp::records::{Operation, TransactionStatus, TxError};
use wicp::token::Token;

fn p(c: candid::Principal) -> Principal {
    Principal::from_slice(c.as_slice())
}

fn same(a: &Principal, b: &Principal) -> bool {
    a.as_slice() == b.as_slice()
}

fn initialize_tests() -> Token {
    let (token, _) = Token::init(
        String::from("logo"),
        String::from("token"),
        String::from("TOKEN"),
        2,
        1_000,
        &p(alice()),
        1,
        1_650_000_000,
    );
    token
}

fn supply_sum(t: &Token) -> u128 {
    t.balance_entries().iter().map(|(_, b)| *b).sum()
}

#[test]
fn functionality_test() {
    let alice = p(alice());
    let bob = p(bob());
    let john = p(john());
    let cycles: u64 = 100_000;
    let mut now: u64 = 1_650_000_001;
    let mut t = initialize_tests();

    // initialization tests
    assert_eq!(t.balance_of(&alice), 1_000, "balanceOf did not return the correct value");
    assert_eq!(t.total_supply(), 1_000, "totalSupply did not return the correct value");
    assert_eq!(t.symbol(), String::from("TOKEN"), "symbol did not return the correct value");
    assert!(same(&t.owner(), &alice), "owner did not return the correct value");
    assert_eq!(t.name(), String::from("token"), "name did not return the correct value");
    assert_eq!(t.get_logo(), String::from("logo"), "getLogo did not return the correct value");
    assert_eq!(t.decimals(), 2, "decimals did not return the correct value");
    assert_eq!(
        t.get_holders(0, 10).len(),
        1,
        "get_holders returned the correct amount of holders after initialization"
    );
    assert_eq!(
        t.get_transaction(0).operation,
        Operation::Mint,
        "get_transaction returnded a Mint operation"
    );

    let token_info = t.get_token_info(cycles);
    assert!(
        same(&token_info.fee_to, &Principal::anonymous()),
        "tokenInfo.fee_to did not return the correct value"
    );
    assert_eq!(token_info.history_size, 1, "tokenInfo.history_size did not return the correct value");
    assert!(token_info.deploy_time > 0, "tokenInfo.deploy_time did not return the correct value");
    assert_eq!(token_info.holder_number, 1, "tokenInfo.holder_number did not return the correct value");
    assert_eq!(token_info.cycles, 100_000, "tokenInfo.cycles did not return the correct value");

    let metadata = t.get_metadata();
    assert_eq!(metadata.total_supply, 1_000, "metadata.total_supply did not return the correct value");
    assert_eq!(metadata.symbol, String::from("TOKEN"), "metadata.symbol did not return the correct value");
    assert_eq!(metadata.name, String::from("token"), "metadata.name did not return the correct value");
    assert_eq!(metadata.logo, String::from("logo"), "metadata.logo did not return the correct value");
    assert_eq!(metadata.decimals, 2, "metadata.decimals did not return the correct value");
    assert_eq!(metadata.fee, 1, "metadata.fee did not return the correct value");
    assert!(
        same(&metadata.fee_to, &Principal::anonymous()),
        "metadata.fee_to did not return the correct value"
    );

    // set fee test
    t.set_fee(&alice, 2);
    assert_eq!(2, t.get_metadata().fee, "Failed to update the fee_to");

    // set fee_to test
    t.set_fee_to(&alice, john.duplicate());
    assert!(same(&john, &t.get_metadata().fee_to), "Failed to set fee");
    t.set_fee_to(&alice, Principal::anonymous());

    // set logo
    t.set_logo(&alice, String::from("new_logo"));
    assert_eq!("new_logo", t.get_logo());

    // test transfers
    let transfer_alice_balance_expected = t.balance_of(&alice) - 10 - t.get_metadata().fee;
    let transfer_bob_balance_expected = t.balance_of(&bob) + 10;
    let transfer_john_balance_expected = t.balance_of(&john);
    let transfer_transaction_amount_expected = t.get_transactions(0, 10).len() + 1;
    let transfer_user_transaction_amount_expected = t.get_user_transaction_amount(&alice) + 1;
    now += 1;
    t.transfer(&alice, &bob, 10, now).map_err(|err| println!("{:?}", err)).ok();

    assert_eq!(t.balance_of(&alice), transfer_alice_balance_expected, "Transfer did not transfer the expected amount to Alice");
    assert_eq!(t.balance_of(&bob), transfer_bob_balance_expected, "Transfer did not transfer the expected amount to Bob");
    assert_eq!(t.balance_of(&john), transfer_john_balance_expected, "Transfer did not transfer the expected amount to John");
    assert_eq!(t.get_transactions(0, 10).len(), transfer_transaction_amount_expected, "transfer operation did not produce a transaction");
    assert_eq!(t.get_user_transaction_amount(&alice), transfer_user_transaction_amount_expected, "get_user_transaction_amount returned the wrong value after a transfer");
    assert_eq!(t.get_user_transactions(&alice, 0, 10).len(), transfer_user_transaction_amount_expected, "get_user_transactions returned the wrong value after a transfer");
    assert_eq!(t.get_holders(0, 10).len(), 3, "get_holders returned the correct amount of holders after transfer");
    assert_eq!(t.get_transaction(1).operation, Operation::Transfer, "get_transaction returnded a Transfer operation");

    // test allowances
    now += 1;
    t.approve(&alice, &bob, 100, now).map_err(|err| println!("{:?}", err)).ok();
    assert_eq!(t.allowance(&alice, &bob), 100 + t.get_metadata().fee, "Approve did not give the correct allowance");
    assert_eq!(t.get_allowance_size(), 1, "getAllowanceSize returns the correct value");
    assert_eq!(t.get_user_approvals(&alice).len(), 1, "getUserApprovals not returning the correct value");

    // test transfer_from
    // an allowance of Alice for Bob's balance, given by Bob
    now += 1;
    t.approve(&bob, &alice, 5, now).map_err(|err| println!("{:?}", err)).ok();
    assert_eq!(t.allowance(&bob, &alice), 5 + t.get_metadata().fee);

    let transfer_from_alice_balance_expected = t.balance_of(&alice);
    let transfer_from_bob_balance_expected = t.balance_of(&bob) - 5 - t.get_metadata().fee;
    let transfer_from_john_balance_expected = t.balance_of(&john) + 5;
    let transfer_from_transaction_amount_expected = t.get_transactions(0, 10).len() + 1;

    now += 1;
    t.transfer_from(&alice, &bob, &john, 5, now).map_err(|err| println!("{:?}", err)).ok();

    assert_eq!(t.balance_of(&alice), transfer_from_alice_balance_expected, "transfer_from transferred the correct value for alice");
    assert_eq!(t.balance_of(&bob), transfer_from_bob_balance_expected, "transfer_from transferred the correct value for bob");
    assert_eq!(t.balance_of(&john), transfer_from_john_balance_expected, "transfer_from transferred the correct value for john");
    assert_eq!(t.allowance(&bob, &alice), 0, "allowance has not been spent");
    assert_eq!(t.get_transactions(0, 10).len(), transfer_from_transaction_amount_expected, "transfer_from operation did not produce a transaction");

    // Transferring more than the balance
    assert_eq!(t.transfer(&alice, &alice, 1_000_000, now).err(), Some(TxError::InsufficientBalance), "alice was able to transfer more than is allowed");
    // Transferring more than the balance
    assert_eq!(t.transfer_from(&alice, &bob, &john, 1_000_000, now).err(), Some(TxError::InsufficientAllowance), "alice was able to transfer more than is allowed");

    //set owner test
    t.set_owner(&alice, bob.duplicate());
    assert!(same(&bob, &t.owner()), "Failed to set new owner");
}

#[test]
fn permission_tests() {
    let bob = p(bob());
    let t = initialize_tests();
    // Bob is not the owner: the canister traps on each of these calls.
    assert!(!t.is_owner(&bob));
    assert!(t.is_owner(&p(alice())));
}

#[test]
fn ledger_canister_principal_matches_its_text() {
    let ledger = candid::Principal::from_text("ryjl3-tyaaa-aaaaa-aaaba-cai").unwrap();
    assert_eq!(Principal::canister_from_u64(2).as_slice(), ledger.as_slice());
    let management = candid::Principal::from_text("aaaaa-aa").unwrap();
    assert_eq!(Principal::management_canister().as_slice(), management.as_slice());
    assert_eq!(Principal::anonymous().as_slice(), candid::Principal::anonymous().as_slice());
}

#[test]
fn transfer_keeps_supply_and_moves_fee() {
    let alice = p(alice());
    let bob = p(bob());
    let mut t = initialize_tests();
    let rec = t.transfer(&alice, &bob, 100, 7).unwrap();
    assert_eq!(t.balance_of(&alice), 899);
    assert_eq!(t.balance_of(&bob), 100);
    assert_eq!(t.balance_of(&Principal::anonymous()), 1);
    assert_eq!(supply_sum(&t), t.total_supply());
    assert_eq!(rec.index, 1);
    assert_eq!(rec.amount, 100);
    assert_eq!(rec.fee, 1);
    assert_eq!(rec.timestamp, 7);
    assert_eq!(rec.status, TransactionStatus::Succeeded);
    assert!(rec.caller.is_none());
}

#[test]
fn transfer_of_whole_balance_drops_holder() {
    let alice = p(alice());
    let bob = p(bob());
    let mut t = initialize_tests();
    t.transfer(&alice, &bob, 999, 2).unwrap();
    assert_eq!(t.balance_of(&alice), 0);
    assert_eq!(t.holder_number(), 2);
    assert_eq!(supply_sum(&t), 1_000);
}

#[test]
fn refused_transfer_changes_nothing() {
    let alice = p(alice());
    let bob = p(bob());
    let mut t = initialize_tests();
    assert_eq!(t.transfer(&alice, &bob, 1_000, 2).err(), Some(TxError::InsufficientBalance));
    assert_eq!(t.balance_of(&alice), 1_000);
    assert_eq!(t.history_size(), 1);
    assert_eq!(t.transfer(&alice, &bob, u128::MAX, 2).err(), Some(TxError::InsufficientBalance));
}

#[test]
fn approve_needs_fee_balance() {
    let alice = p(alice());
    let bob = p(bob());
    let mut t = initialize_tests();
    assert_eq!(t.approve(&bob, &alice, 5, 3).err(), Some(TxError::InsufficientBalance));
    let rec = t.approve(&alice, &bob, 5, 3).unwrap();
    assert_eq!(rec.operation, Operation::Approve);
    assert_eq!(rec.amount, 6);
    assert_eq!(t.allowance(&alice, &bob), 6);
    assert_eq!(t.balance_of(&alice), 999);
    assert_eq!(supply_sum(&t), t.total_supply());
}

#[test]
fn approve_zero_without_fee_removes_allowance() {
    let alice = p(alice());
    let bob = p(bob());
    let mut t = initialize_tests();
    t.approve(&alice, &bob, 5, 3).unwrap();
    t.set_fee(&alice, 0);
    t.approve(&alice, &bob, 0, 4).unwrap();
    assert_eq!(t.allowance(&alice, &bob), 0);
    assert_eq!(t.get_allowance_size(), 0);
    assert_eq!(t.get_user_approvals(&alice).len(), 0);
}

#[test]
fn transfer_from_partial_allowance_and_errors() {
    let alice = p(alice());
    let bob = p(bob());
    let john = p(john());
    let mut t = initialize_tests();
    t.approve(&alice, &bob, 50, 3).unwrap();
    assert_eq!(t.allowance(&alice, &bob), 51);
    let rec = t.transfer_from(&bob, &alice, &john, 20, 4).unwrap();
    assert_eq!(rec.operation, Operation::TransferFrom);
    assert_eq!(rec.caller.as_ref().map(|c| c.as_slice().to_vec()), Some(bob.as_slice().to_vec()));
    assert_eq!(t.allowance(&alice, &bob), 30);
    assert_eq!(t.balance_of(&john), 20);
    assert_eq!(t.balance_of(&alice), 1_000 - 1 - 20 - 1);
    assert_eq!(t.transfer_from(&bob, &alice, &john, 30, 5).err(), Some(TxError::InsufficientAllowance));
    assert_eq!(t.transfer_from(&john, &alice, &bob, 1, 5).err(), Some(TxError::InsufficientAllowance));
    assert_eq!(supply_sum(&t), t.total_supply());
}

#[test]
fn transfer_from_over_balance() {
    let alice = p(alice());
    let bob = p(bob());
    let john = p(john());
    let mut t = initialize_tests();
    t.transfer(&alice, &bob, 10, 2).unwrap();
    t.approve(&bob, &john, 100, 3).unwrap();
    assert_eq!(t.transfer_from(&john, &bob, &alice, 50, 4).err(), Some(TxError::InsufficientBalance));
}

#[test]
fn notification_mints_for_sender() {
    let alice = p(alice());
    let bob = p(bob());
    let me = Principal::from_slice(&[9, 9, 9, 1, 1]);
    let ledger = Principal::canister_from_u64(2);
    let mut t = initialize_tests();
    assert_eq!(
        t.transaction_notification(&alice, &me, &bob, &me, 500, 5).err(),
        Some(TxError::Unauthorized)
    );
    assert_eq!(
        t.transaction_notification(&ledger, &me, &bob, &alice, 500, 5).err(),
        Some(TxError::Unauthorized)
    );
    let rec = t.transaction_notification(&ledger, &me, &bob, &me, 500, 5).unwrap();
    assert_eq!(rec.operation, Operation::Mint);
    assert_eq!(rec.fee, 0);
    assert_eq!(t.balance_of(&bob), 500);
    assert_eq!(t.total_supply(), 1_500);
    assert_eq!(supply_sum(&t), 1_500);
}

#[test]
fn withdraw_debits_then_burns_or_refunds() {
    let alice = p(alice());
    let me = Principal::from_slice(&[9, 9, 9, 1, 1]);
    let ledger = Principal::canister_from_u64(2);
    let mut t = initialize_tests();
    t.transaction_notification(&ledger, &me, &alice, &me, 50_000, 5).unwrap();
    assert_eq!(t.withdraw(&alice, 100_000).err(), Some(TxError::InsufficientBalance));

    let pending = t.withdraw(&alice, 20_000).unwrap();
    assert_eq!(pending.send_amount, 10_000);
    assert_eq!(pending.send_fee, 10_000);
    assert_eq!(pending.memo, 0x57444857);
    assert_eq!(t.balance_of(&alice), 31_000);
    assert_eq!(t.total_supply(), 31_000);
    let rec = t.finish_withdraw(pending, true, 6).unwrap();
    assert_eq!(rec.operation, Operation::Burn);
    assert_eq!(rec.amount, 20_000);
    assert_eq!(t.total_supply(), 31_000);

    let pending = t.withdraw(&alice, 20_000).unwrap();
    assert_eq!(t.balance_of(&alice), 11_000);
    assert_eq!(t.finish_withdraw(pending, false, 7).err(), Some(TxError::LedgerTrap));
    assert_eq!(t.balance_of(&alice), 31_000);
    assert_eq!(t.total_supply(), 31_000);
    assert_eq!(supply_sum(&t), 31_000);
}

#[test]
fn holders_are_ranked_by_balance() {
    let alice = p(alice());
    let bob = p(bob());
    let john = p(john());
    let mut t = initialize_tests();
    t.set_fee(&alice, 0);
    t.transfer(&alice, &bob, 300, 2).unwrap();
    t.transfer(&alice, &john, 600, 3).unwrap();
    let page = t.get_holders(0, 10);
    let amounts: Vec<u128> = page.iter().map(|(_, b)| *b).collect();
    assert_eq!(amounts, vec![600, 300, 100]);
    assert!(same(&page[0].0, &john));
    let page = t.get_holders(1, 1);
    assert_eq!(page.len(), 1);
    assert_eq!(page[0].1, 300);
    let page = t.get_holders(2, 5);
    assert_eq!(page.len(), 1);
    assert_eq!(page[0].1, 100);
    assert_eq!(t.get_holders(3, 5).len(), 0);
}

#[test]
fn history_windows() {
    let alice = p(alice());
    let bob = p(bob());
    let john = p(john());
    let mut t = initialize_tests();
    t.transfer(&alice, &bob, 1, 2).unwrap();
    t.transfer(&alice, &john, 1, 3).unwrap();
    t.transfer(&alice, &bob, 1, 4).unwrap();
    assert_eq!(t.history_size(), 4);
    let w = t.get_transactions(1, 2);
    assert_eq!(w.len(), 2);
    assert_eq!(w[0].index, 1);
    assert_eq!(w[1].index, 2);
    assert_eq!(t.get_transactions(3, 10).len(), 1);
    assert_eq!(t.get_transactions(9, 10).len(), 0);
    assert_eq!(t.get_user_transaction_amount(&bob), 2);
    assert_eq!(t.get_user_transaction_amount(&john), 1);
    let w = t.get_user_transactions(&bob, 1, 5);
    assert_eq!(w.len(), 1);
    assert_eq!(w[0].index, 3);
    assert_eq!(t.get_user_transactions(&alice, 0, 2).len(), 2);
}

#[test]
fn approvals_of_a_user() {
    let alice = p(alice());
    let bob = p(bob());
    let john = p(john());
    let mut t = initialize_tests();
    t.approve(&alice, &bob, 10, 2).unwrap();
    t.approve(&alice, &john, 20, 3).unwrap();
    t.approve(&alice, &bob, 30, 4).unwrap();
    let a = t.get_user_approvals(&alice);
    assert_eq!(a.len(), 2);
    let mut amounts: Vec<u128> = a.iter().map(|(_, v)| *v).collect();
    amounts.sort();
    assert_eq!(amounts, vec![21, 31]);
    assert_eq!(t.get_allowance_size(), 2);
    assert_eq!(t.get_user_approvals(&bob).len(), 0);
}

#[test]
fn restore_rebuilds_state() {
    let alice = p(alice());
    let bob = p(bob());
    let mut t = initialize_tests();
    t.transfer(&alice, &bob, 10, 2).unwrap();
    t.approve(&alice, &bob, 10, 3).unwrap();
    let r = Token::restore(
        t.get_metadata(),
        t.balance_entries(),
        t.allowance_entries(),
        t.history(),
        t.deploy_time(),
        TxLog::new(),
    );
    assert_eq!(r.balance_of(&alice), t.balance_of(&alice));
    assert_eq!(r.balance_of(&bob), 10);
    assert_eq!(r.allowance(&alice, &bob), 11);
    assert_eq!(r.history_size(), 3);
    assert_eq!(r.total_supply(), 1_000);
}

#[test]
fn cap_log_retries_failed_records() {
    let alice = p(alice());
    let mut t = initialize_tests();
    let first = t.get_transaction(0);
    let log = t.tx_log();
    let plan = insert_into_cap(log, first.duplicate());
    assert!(plan.retry.is_none());
    assert_eq!(insert_into_cap_priv(log, plan.event, None), Err(TxError::Other));
    assert_eq!(log.ie_records.len(), 1);

    let rec = t.transfer(&alice, &Principal::anonymous(), 1, 2).unwrap();
    let log = t.tx_log();
    let plan = insert_into_cap(log, rec);
    let retry = plan.retry.unwrap();
    assert_eq!(retry.index, 0);
    assert_eq!(log.ie_records.len(), 0);
    assert_eq!(insert_into_cap_priv(log, retry, Some(4)), Ok(4));
    assert_eq!(insert_into_cap_priv(log, plan.event, Some(5)), Ok(5));
    assert_eq!(log.ie_records.len(), 0);
}

#[test]
fn refund_sets_back_the_balance_seen_before_the_withdrawal() {
    let alice = p(alice());
    let bob = p(bob());
    let me = Principal::from_slice(&[9, 9, 9, 1, 1]);
    let ledger = Principal::canister_from_u64(2);
    let mut t = initialize_tests();
    t.set_fee(&alice, 0);
    t.transaction_notification(&ledger, &me, &bob, &me, 30_000, 5).unwrap();
    let pending = t.withdraw(&bob, 20_000).unwrap();
    assert_eq!(pending.previous_balance, 30_000);
    // a transfer to bob arrives while the ledger is being asked
    t.transfer(&alice, &bob, 100, 6).unwrap();
    assert_eq!(t.balance_of(&bob), 10_100);
    t.finish_withdraw(pending, false, 7).unwrap_err();
    // the refund restores the balance from before the withdrawal
    assert_eq!(t.balance_of(&bob), 30_000);
    assert_eq!(t.total_supply(), 31_000);
    assert_eq!(supply_sum(&t), 30_900);
    assert_ne!(supply_sum(&t), t.total_supply());
}
