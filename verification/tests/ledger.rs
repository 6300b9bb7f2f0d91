use chainbills::{
    derive_id, parse_id, show_id, Chainbills, ChainbillsError, ClosedPayable, Coin,
    Cw20TransferFrom, EntityKind, ExecCtx, FetchIdMessage, GlobalStats, IdMessage, Payments,
    ReopenedPayable, TokenAndAmount, TransactionInfoMessage,
};

const HOST: [u8; 32] = [1u8; 32];
const PAYER: [u8; 32] = [2u8; 32];
const CONTRACT: [u8; 32] = [9u8; 32];
const TOKEN_A: [u8; 32] = [7u8; 32];
const TOKEN_B: [u8; 32] = [8u8; 32];
const CHAIN: u16 = 3;

fn taa(token: [u8; 32], amount: u128) -> TokenAndAmount {
    TokenAndAmount { token, amount }
}

fn ledger() -> Chainbills {
    let mut ledger = Chainbills::new(CHAIN, "uxion".to_string());
    ledger.update_max_withdrawal_fees(TOKEN_A, 1_000);
    ledger.update_max_withdrawal_fees(CONTRACT, 1_000);
    ledger
}

fn ctx(sender: [u8; 32], funds: Vec<Coin>, block_time: u64) -> ExecCtx {
    ExecCtx { sender, contract_address: CONTRACT, funds, block_time }
}

fn coin(amount: u128, denom: &str) -> Coin {
    Coin { denom: denom.to_string(), amount }
}

fn pay_msg(id: &[u8; 32], token: [u8; 32], amount: u128) -> TransactionInfoMessage {
    TransactionInfoMessage { payable_id: show_id(id), token, amount }
}

fn balance(ledger: &Chainbills, index: usize, token: [u8; 32]) -> Option<u128> {
    ledger.payables[index].payable.balances.iter().find(|b| b.token == token).map(|b| b.amount)
}

#[test]
fn identifiers_are_shown_in_lower_case_hexadecimal() {
    let id = derive_id(EntityKind::Payable, 3, 1);
    let text = show_id(&id);
    assert_eq!(text, "0103000100000000000000000000000000000000000000000000000000000000");
    let mut bytes = [0u8; 32];
    for (i, byte) in bytes.iter_mut().enumerate() {
        *byte = (i as u8) * 8 + 7;
    }
    assert_eq!(
        show_id(&bytes),
        "070f171f272f373f474f575f676f777f878f979fa7afb7bfc7cfd7dfe7eff7ff"
    );
}

#[test]
fn identifiers_are_read_from_hexadecimal_of_either_case() {
    let mut expected = [0u8; 32];
    expected[0] = 0xab;
    expected[1] = 0xcd;
    expected[31] = 0x0f;
    let lower = "abcd00000000000000000000000000000000000000000000000000000000000f";
    let upper = "ABCD00000000000000000000000000000000000000000000000000000000000F";
    let mixed = "aBcD00000000000000000000000000000000000000000000000000000000000f";
    assert_eq!(parse_id(lower), Ok(Some(expected)));
    assert_eq!(parse_id(upper), Ok(Some(expected)));
    assert_eq!(parse_id(mixed), Ok(Some(expected)));
    assert_eq!(parse_id(&show_id(&expected)), Ok(Some(expected)));
}

#[test]
fn text_that_is_no_identifier_is_told_apart() {
    assert_eq!(parse_id(""), Ok(None));
    assert_eq!(parse_id("abcd"), Ok(None));
    assert_eq!(parse_id(&"00".repeat(33)), Ok(None));
    assert_eq!(parse_id("abc"), Err(ChainbillsError::InvalidHex));
    assert_eq!(parse_id(&"0g".repeat(32)), Err(ChainbillsError::InvalidHex));
    assert_eq!(parse_id(&"é".repeat(32)), Err(ChainbillsError::InvalidHex));
    assert_eq!(parse_id(&" 0".repeat(32)), Err(ChainbillsError::InvalidHex));
}

#[test]
fn new_ledger_is_empty() {
    let ledger = Chainbills::new(CHAIN, "uxion".to_string());
    assert_eq!(ledger.chain_id, CHAIN);
    assert_eq!(ledger.native_denom, "uxion");
    assert_eq!(ledger.chain_stats, GlobalStats::new());
    assert!(ledger.users.is_empty());
    assert!(ledger.payables.is_empty());
    assert!(ledger.payments.is_empty());
    assert!(ledger.withdrawals.is_empty());
    assert!(!ledger.is_supported(&TOKEN_A));
}

#[test]
fn setting_the_fee_limit_makes_a_token_supported() {
    let mut ledger = Chainbills::new(CHAIN, "uxion".to_string());
    ledger.update_max_withdrawal_fees(TOKEN_A, 10);
    assert!(ledger.is_supported(&TOKEN_A));
    assert!(!ledger.is_supported(&TOKEN_B));
    ledger.update_max_withdrawal_fees(TOKEN_B, 20);
    ledger.update_max_withdrawal_fees(TOKEN_A, 30);
    assert_eq!(ledger.max_fees_per_token, vec![taa(TOKEN_A, 30), taa(TOKEN_B, 20)]);
}

#[test]
fn payable_with_fixed_price_is_paid_and_withdrawn() {
    let mut ledger = ledger();
    let id = ledger.create_payable(HOST, vec![taa(TOKEN_A, 100)], 10).unwrap();
    assert_eq!(id, derive_id(EntityKind::Payable, CHAIN, 1));

    let response = ledger.pay(&ctx(PAYER, vec![], 20), &pay_msg(&id, TOKEN_A, 100)).unwrap();
    assert_eq!(balance(&ledger, 0, TOKEN_A), Some(100));
    assert_eq!(ledger.payables[0].payable.payments_count, 1);
    assert_eq!(
        response.transfer,
        Some(Cw20TransferFrom { token: TOKEN_A, owner: PAYER, recipient: CONTRACT, amount: 100 })
    );

    assert_eq!(
        ledger.pay(&ctx(PAYER, vec![], 21), &pay_msg(&id, TOKEN_A, 50)),
        Err(ChainbillsError::MatchingTokenAndAmountNotFound)
    );
    assert_eq!(balance(&ledger, 0, TOKEN_A), Some(100));
    assert_eq!(ledger.payables[0].payable.payments_count, 1);
    assert_eq!(ledger.chain_stats.payments_count, 1);

    let outcome = ledger.withdraw(&id, &HOST, TOKEN_A, 100, 30).unwrap();
    assert_eq!(outcome.amount_minus_fees, 98);
    assert_eq!(balance(&ledger, 0, TOKEN_A), Some(0));
    assert_eq!(ledger.payables[0].payable.withdrawals_count, 1);
    assert_eq!(outcome.withdrawal.details, taa(TOKEN_A, 100));
    assert_eq!(ledger.withdrawals, vec![outcome.withdrawal]);
    assert_eq!(ledger.chain_stats.withdrawals_count, 1);
}

#[test]
fn create_payable_enters_the_host_and_numbers_the_payables() {
    let mut ledger = ledger();
    let first = ledger.create_payable(HOST, Vec::new(), 10).unwrap();
    let second = ledger.create_payable(HOST, vec![taa(TOKEN_A, 5)], 11).unwrap();
    let third = ledger.create_payable(PAYER, Vec::new(), 12).unwrap();
    assert_eq!(first, derive_id(EntityKind::Payable, CHAIN, 1));
    assert_eq!(second, derive_id(EntityKind::Payable, CHAIN, 2));
    assert_eq!(third, derive_id(EntityKind::Payable, CHAIN, 3));
    assert_eq!(ledger.chain_stats.payables_count, 3);
    assert_eq!(ledger.chain_stats.users_count, 2);
    assert_eq!(ledger.users.len(), 2);
    assert_eq!(ledger.users[0].user.owner_wallet, HOST);
    assert_eq!(ledger.users[0].user.chain_id, CHAIN);
    assert_eq!(ledger.users[0].user.chain_count, 1);
    assert_eq!(ledger.users[0].user.payables_count, 2);
    assert_eq!(ledger.users[1].user.owner_wallet, PAYER);
    assert_eq!(ledger.users[1].user.chain_count, 2);
    assert_eq!(ledger.users[1].user.payables_count, 1);
    assert_eq!(ledger.payables[1].payable.host, HOST);
    assert_eq!(ledger.payables[1].payable.chain_count, 2);
    assert_eq!(ledger.payables[1].payable.host_count, 2);
    assert_eq!(ledger.payables[1].payable.created_at, 11);
    assert_eq!(ledger.payables[2].payable.host_count, 1);
    assert_eq!(ledger.find_payable(&second), Some(1));
    assert_eq!(ledger.find_payable(&[0u8; 32]), None);
    assert_eq!(ledger.find_user(&PAYER), Some(1));
}

#[test]
fn create_payable_rejects_and_changes_nothing() {
    let mut ledger = ledger();
    assert_eq!(
        ledger.create_payable(HOST, vec![taa(TOKEN_A, 0)], 1),
        Err(ChainbillsError::ZeroAmountSpecified)
    );
    assert_eq!(
        ledger.create_payable(HOST, vec![taa(TOKEN_A, 1), taa(TOKEN_B, 1)], 1),
        Err(ChainbillsError::UnsupportedToken)
    );
    assert_eq!(
        ledger.create_payable(HOST, vec![taa(TOKEN_A, 1); 21], 1),
        Err(ChainbillsError::MaxPayableTokensCapacityReached)
    );
    assert_eq!(ledger.chain_stats, GlobalStats::new());
    assert!(ledger.users.is_empty());
    assert!(ledger.payables.is_empty());
    ledger.chain_stats.payables_count = u64::MAX;
    assert_eq!(ledger.create_payable(HOST, Vec::new(), 1), Err(ChainbillsError::CounterOverflow));
    ledger.chain_stats.payables_count = 0;
    ledger.chain_stats.users_count = u64::MAX;
    assert_eq!(ledger.create_payable(HOST, Vec::new(), 1), Err(ChainbillsError::CounterOverflow));
    assert!(ledger.users.is_empty());
    assert!(ledger.payables.is_empty());
}

#[test]
fn pay_records_both_views_and_lists_the_payment() {
    let mut ledger = ledger();
    let id = ledger.create_payable(HOST, Vec::new(), 10).unwrap();
    let response = ledger.pay(&ctx(PAYER, vec![], 20), &pay_msg(&id, TOKEN_A, 40)).unwrap();
    let payment_id = derive_id(EntityKind::Payment, CHAIN, 1);
    assert_eq!(response.records.payment_id, payment_id);
    assert_eq!(response.records.user_payment.payable_id, id);
    assert_eq!(response.records.user_payment.payer, PAYER);
    assert_eq!(response.records.user_payment.payable_chain_id, CHAIN);
    assert_eq!(response.records.user_payment.chain_count, 1);
    assert_eq!(response.records.user_payment.payer_count, 1);
    assert_eq!(response.records.user_payment.payable_count, 1);
    assert_eq!(response.records.user_payment.timestamp, 20);
    assert_eq!(response.records.payable_payment.payer_chain_id, CHAIN);
    assert_eq!(response.records.payable_payment.local_chain_count, 1);
    assert_eq!(response.records.payable_payment.details, taa(TOKEN_A, 40));
    let entered = response.initialized_user.unwrap();
    assert_eq!(entered.owner_wallet, PAYER);
    assert_eq!(entered.chain_count, 2);
    assert_eq!(entered.payments_count, 0);
    assert_eq!(ledger.chain_stats.users_count, 2);
    assert_eq!(ledger.chain_stats.payments_count, 1);
    assert_eq!(ledger.users[1].user.payments_count, 1);
    assert_eq!(ledger.users[1].payment_ids, vec![payment_id]);
    assert_eq!(ledger.payables[0].payment_ids, vec![payment_id]);
    assert_eq!(ledger.payments, vec![response.records]);

    let second = ledger.pay(&ctx(PAYER, vec![], 21), &pay_msg(&id, TOKEN_A, 2)).unwrap();
    assert_eq!(second.initialized_user, None);
    assert_eq!(second.records.payment_id, derive_id(EntityKind::Payment, CHAIN, 2));
    assert_eq!(second.records.payable_payment.payable_count, 2);
    assert_eq!(second.records.payable_payment.local_chain_count, 2);
    assert_eq!(balance(&ledger, 0, TOKEN_A), Some(42));
    assert_eq!(ledger.users[1].payment_ids.len(), 2);
    assert_eq!(ledger.payables[0].payment_ids.len(), 2);
}

#[test]
fn n_payments_give_a_count_of_n_and_a_list_of_n() {
    let mut ledger = ledger();
    let other = ledger.create_payable(HOST, Vec::new(), 1).unwrap();
    let id = ledger.create_payable(HOST, Vec::new(), 2).unwrap();
    for n in 1..=12u64 {
        if n % 3 == 0 {
            ledger.pay(&ctx(HOST, vec![], n), &pay_msg(&other, TOKEN_A, 1)).unwrap();
        }
        let response = ledger.pay(&ctx(PAYER, vec![], n), &pay_msg(&id, TOKEN_A, 10)).unwrap();
        assert_eq!(response.records.payable_payment.payable_count, n);
        assert_eq!(ledger.payables[1].payable.payments_count, n);
        assert_eq!(ledger.payables[1].payment_ids.len() as u64, n);
    }
    assert_eq!(balance(&ledger, 1, TOKEN_A), Some(120));
    assert_eq!(balance(&ledger, 0, TOKEN_A), Some(4));
    for n in 1..=12u64 {
        let shown = ledger
            .payable_payment_id(&FetchIdMessage { reference: show_id(&id), count: n })
            .unwrap();
        let record = ledger.payable_payment(&shown).unwrap();
        assert_eq!(record.payable_count, n);
        assert_eq!(record.payable_id, id);
    }
}

#[test]
fn closed_payable_takes_no_payment_until_reopened() {
    let mut ledger = ledger();
    let id = ledger.create_payable(HOST, Vec::new(), 10).unwrap();
    ledger.pay(&ctx(PAYER, vec![], 20), &pay_msg(&id, TOKEN_A, 40)).unwrap();
    assert_eq!(ledger.close_payable(&id, &PAYER), Err(ChainbillsError::NotYourPayable));
    assert_eq!(ledger.close_payable(&[0u8; 32], &HOST), Err(ChainbillsError::InvalidPayableId));
    assert_eq!(
        ledger.close_payable(&id, &HOST),
        Ok(ClosedPayable { payable_id: id, host_wallet: HOST })
    );
    let stats_before = ledger.chain_stats;
    assert_eq!(
        ledger.pay(&ctx(PAYER, vec![], 21), &pay_msg(&id, TOKEN_A, 40)),
        Err(ChainbillsError::PayableIsClosed)
    );
    assert_eq!(
        ledger.pay(&ctx(PAYER, vec![], 21), &pay_msg(&id, TOKEN_B, 0)),
        Err(ChainbillsError::PayableIsClosed)
    );
    assert_eq!(ledger.chain_stats, stats_before);
    assert_eq!(balance(&ledger, 0, TOKEN_A), Some(40));
    assert_eq!(ledger.payables[0].payable.payments_count, 1);
    assert_eq!(ledger.users[1].user.payments_count, 1);
    assert_eq!(ledger.payments.len(), 1);

    let outcome = ledger.withdraw(&id, &HOST, TOKEN_A, 10, 22).unwrap();
    assert_eq!(outcome.amount_minus_fees, 9);
    assert_eq!(balance(&ledger, 0, TOKEN_A), Some(30));

    assert_eq!(ledger.reopen_payable(&id, &PAYER), Err(ChainbillsError::NotYourPayable));
    assert_eq!(
        ledger.reopen_payable(&id, &HOST),
        Ok(ReopenedPayable { payable_id: id, host_wallet: HOST })
    );
    assert!(ledger.pay(&ctx(PAYER, vec![], 23), &pay_msg(&id, TOKEN_A, 40)).is_ok());
    assert_eq!(balance(&ledger, 0, TOKEN_A), Some(70));
}

#[test]
fn pay_rejects_in_order() {
    let mut ledger = ledger();
    let id = ledger.create_payable(HOST, vec![taa(TOKEN_A, 100)], 10).unwrap();
    let bad_hex = TransactionInfoMessage { payable_id: "xyz".to_string(), token: TOKEN_A, amount: 1 };
    assert_eq!(ledger.pay(&ctx(PAYER, vec![], 1), &bad_hex), Err(ChainbillsError::InvalidHex));
    let short = TransactionInfoMessage { payable_id: "0a0b".to_string(), token: TOKEN_A, amount: 1 };
    assert_eq!(ledger.pay(&ctx(PAYER, vec![], 1), &short), Err(ChainbillsError::InvalidPayableId));
    assert_eq!(
        ledger.pay(&ctx(PAYER, vec![], 1), &pay_msg(&[4u8; 32], TOKEN_A, 100)),
        Err(ChainbillsError::InvalidPayableId)
    );
    assert_eq!(
        ledger.pay(&ctx(PAYER, vec![], 1), &pay_msg(&id, TOKEN_B, 0)),
        Err(ChainbillsError::ZeroAmountSpecified)
    );
    assert_eq!(
        ledger.pay(&ctx(PAYER, vec![], 1), &pay_msg(&id, TOKEN_B, 100)),
        Err(ChainbillsError::InvalidToken)
    );
    assert_eq!(
        ledger.pay(&ctx(PAYER, vec![], 1), &pay_msg(&id, TOKEN_A, 99)),
        Err(ChainbillsError::MatchingTokenAndAmountNotFound)
    );
    ledger.chain_stats.users_count = u64::MAX;
    assert_eq!(
        ledger.pay(&ctx(PAYER, vec![], 1), &pay_msg(&id, TOKEN_A, 100)),
        Err(ChainbillsError::CounterOverflow)
    );
    assert_eq!(ledger.users.len(), 1);
    assert!(ledger.payments.is_empty());
    assert_eq!(balance(&ledger, 0, TOKEN_A), None);
}

#[test]
fn native_payment_must_come_with_exactly_the_funds() {
    let mut ledger = ledger();
    let id = ledger.create_payable(HOST, Vec::new(), 10).unwrap();
    let msg = pay_msg(&id, CONTRACT, 500);
    assert_eq!(ledger.pay(&ctx(PAYER, vec![], 1), &msg), Err(ChainbillsError::PaymentError));
    assert_eq!(
        ledger.pay(&ctx(PAYER, vec![coin(0, "uxion")], 1), &msg),
        Err(ChainbillsError::PaymentError)
    );
    assert_eq!(
        ledger.pay(&ctx(PAYER, vec![coin(500, "uatom")], 1), &msg),
        Err(ChainbillsError::PaymentError)
    );
    assert_eq!(
        ledger.pay(&ctx(PAYER, vec![coin(500, "uxion"), coin(1, "uatom")], 1), &msg),
        Err(ChainbillsError::PaymentError)
    );
    assert_eq!(
        ledger.pay(&ctx(PAYER, vec![coin(499, "uxion")], 1), &msg),
        Err(ChainbillsError::InvalidNativeTokenPayment)
    );
    assert_eq!(
        ledger.pay(&ctx(PAYER, vec![coin(501, "uxion")], 1), &msg),
        Err(ChainbillsError::InvalidNativeTokenPayment)
    );
    assert!(ledger.payments.is_empty());
    let response = ledger.pay(&ctx(PAYER, vec![coin(500, "uxion")], 1), &msg).unwrap();
    assert_eq!(response.transfer, None);
    assert_eq!(balance(&ledger, 0, CONTRACT), Some(500));
}

#[test]
fn funds_are_not_looked_at_for_other_tokens() {
    let mut ledger = ledger();
    let id = ledger.create_payable(HOST, Vec::new(), 10).unwrap();
    let response = ledger
        .pay(&ctx(PAYER, vec![coin(3, "uatom"), coin(4, "uxion")], 1), &pay_msg(&id, TOKEN_A, 7))
        .unwrap();
    assert!(response.transfer.is_some());
}

#[test]
fn payment_identifiers_are_found_by_position() {
    let mut ledger = ledger();
    let id = ledger.create_payable(HOST, Vec::new(), 10).unwrap();
    ledger.pay(&ctx(PAYER, vec![], 20), &pay_msg(&id, TOKEN_A, 40)).unwrap();
    ledger.pay(&ctx(HOST, vec![], 21), &pay_msg(&id, TOKEN_A, 41)).unwrap();
    ledger.pay(&ctx(PAYER, vec![], 22), &pay_msg(&id, TOKEN_A, 42)).unwrap();

    let second_of_payer = ledger.user_payment_id(&PAYER, 2).unwrap();
    assert_eq!(second_of_payer.id, show_id(&derive_id(EntityKind::Payment, CHAIN, 3)));
    let record = ledger.user_payment(&second_of_payer).unwrap();
    assert_eq!(record.payer, PAYER);
    assert_eq!(record.payer_count, 2);
    assert_eq!(record.chain_count, 3);
    assert_eq!(record.details, taa(TOKEN_A, 42));

    let second_of_payable = ledger
        .payable_payment_id(&FetchIdMessage { reference: show_id(&id), count: 2 })
        .unwrap();
    assert_eq!(second_of_payable.id, show_id(&derive_id(EntityKind::Payment, CHAIN, 2)));
    let record = ledger.payable_payment(&second_of_payable).unwrap();
    assert_eq!(record.payer, HOST);
    assert_eq!(record.payable_count, 2);
    assert_eq!(record.details, taa(TOKEN_A, 41));
}

#[test]
fn queries_reject_what_is_not_there() {
    let mut ledger = ledger();
    let id = ledger.create_payable(HOST, Vec::new(), 10).unwrap();
    ledger.pay(&ctx(PAYER, vec![], 20), &pay_msg(&id, TOKEN_A, 40)).unwrap();
    let invalid_count = Err(ChainbillsError::InvalidUserPaymentCount);
    assert_eq!(ledger.user_payment_id(&PAYER, 0).map(|m| m.id), invalid_count);
    assert_eq!(ledger.user_payment_id(&PAYER, 2).map(|m| m.id), invalid_count);
    assert_eq!(ledger.user_payment_id(&HOST, 1).map(|m| m.id), invalid_count);
    assert_eq!(ledger.user_payment_id(&[4u8; 32], 1).map(|m| m.id), invalid_count);
    let fetch = |reference: String, count: u64| {
        ledger.payable_payment_id(&FetchIdMessage { reference, count }).map(|m| m.id)
    };
    assert_eq!(fetch("zz".to_string(), 1), Err(ChainbillsError::InvalidHex));
    assert_eq!(fetch("00".to_string(), 1), Err(ChainbillsError::InvalidPayableId));
    assert_eq!(fetch(show_id(&[4u8; 32]), 1), Err(ChainbillsError::InvalidPayableId));
    assert_eq!(fetch(show_id(&id), 0), Err(ChainbillsError::InvalidPayablePaymentCount));
    assert_eq!(fetch(show_id(&id), 2), Err(ChainbillsError::InvalidPayablePaymentCount));
    let unknown = IdMessage { id: show_id(&[4u8; 32]) };
    assert_eq!(ledger.user_payment(&unknown), Err(ChainbillsError::InvalidPaymentId));
    assert_eq!(ledger.payable_payment(&unknown), Err(ChainbillsError::InvalidPaymentId));
    let not_hex = IdMessage { id: "nothex".to_string() };
    assert_eq!(ledger.user_payment(&not_hex), Err(ChainbillsError::InvalidHex));
    assert_eq!(ledger.payable_payment(&not_hex), Err(ChainbillsError::InvalidHex));
    let short = IdMessage { id: "00ff".to_string() };
    assert_eq!(ledger.user_payment(&short), Err(ChainbillsError::InvalidPaymentId));
}

#[test]
fn withdraw_rejects_in_order_and_changes_nothing() {
    let mut ledger = ledger();
    let id = ledger.create_payable(HOST, Vec::new(), 10).unwrap();
    ledger.pay(&ctx(PAYER, vec![], 20), &pay_msg(&id, TOKEN_A, 40)).unwrap();
    assert_eq!(
        ledger.withdraw(&[4u8; 32], &HOST, TOKEN_A, 1, 1),
        Err(ChainbillsError::InvalidPayableId)
    );
    assert_eq!(ledger.withdraw(&id, &[4u8; 32], TOKEN_A, 1, 1), Err(ChainbillsError::NotYourPayable));
    assert_eq!(ledger.withdraw(&id, &PAYER, TOKEN_A, 1, 1), Err(ChainbillsError::NotYourPayable));
    assert_eq!(ledger.withdraw(&id, &HOST, TOKEN_A, 0, 1), Err(ChainbillsError::ZeroAmountSpecified));
    assert_eq!(
        ledger.withdraw(&id, &HOST, TOKEN_B, 1, 1),
        Err(ChainbillsError::NoBalanceForWithdrawalToken)
    );
    assert_eq!(
        ledger.withdraw(&id, &HOST, TOKEN_A, 41, 1),
        Err(ChainbillsError::InsufficientWithdrawAmount)
    );
    assert_eq!(balance(&ledger, 0, TOKEN_A), Some(40));
    assert_eq!(ledger.chain_stats.withdrawals_count, 0);
    assert!(ledger.withdrawals.is_empty());
    assert_eq!(ledger.users[0].user.withdrawals_count, 0);
}

#[test]
fn replacing_the_accepted_list_changes_what_is_paid_next() {
    let mut ledger = ledger();
    let id = ledger.create_payable(HOST, vec![taa(TOKEN_A, 100)], 10).unwrap();
    ledger.pay(&ctx(PAYER, vec![], 20), &pay_msg(&id, TOKEN_A, 100)).unwrap();
    assert_eq!(
        ledger.update_allowed_tokens_and_amounts(&id, &PAYER, Vec::new()),
        Err(ChainbillsError::NotYourPayable)
    );
    assert_eq!(
        ledger.update_allowed_tokens_and_amounts(&id, &HOST, vec![taa(TOKEN_A, 0)]),
        Err(ChainbillsError::ZeroAmountSpecified)
    );
    assert!(ledger.update_allowed_tokens_and_amounts(&id, &HOST, vec![taa(TOKEN_A, 60)]).is_ok());
    assert_eq!(balance(&ledger, 0, TOKEN_A), Some(100));
    assert_eq!(
        ledger.pay(&ctx(PAYER, vec![], 21), &pay_msg(&id, TOKEN_A, 100)),
        Err(ChainbillsError::MatchingTokenAndAmountNotFound)
    );
    assert!(ledger.pay(&ctx(PAYER, vec![], 22), &pay_msg(&id, TOKEN_A, 60)).is_ok());
    assert_eq!(balance(&ledger, 0, TOKEN_A), Some(160));
}

#[test]
fn held_and_withdrawn_add_up_to_paid() {
    let mut ledger = ledger();
    ledger.update_max_withdrawal_fees(TOKEN_B, 5);
    let first = ledger.create_payable(HOST, Vec::new(), 1).unwrap();
    let second = ledger.create_payable(PAYER, Vec::new(), 2).unwrap();
    let steps: Vec<(bool, usize, [u8; 32], u128)> = vec![
        (true, 0, TOKEN_A, 70),
        (true, 1, TOKEN_A, 5),
        (true, 0, TOKEN_B, 11),
        (false, 0, TOKEN_A, 30),
        (true, 0, TOKEN_A, 1),
        (false, 0, TOKEN_B, 11),
        (false, 1, TOKEN_A, 2),
        (false, 0, TOKEN_A, 41),
        (true, 1, TOKEN_B, 8),
    ];
    let ids = [first, second];
    let hosts = [HOST, PAYER];
    for (n, (is_payment, index, token, amount)) in steps.into_iter().enumerate() {
        if is_payment {
            ledger.pay(&ctx([3u8; 32], vec![], n as u64), &pay_msg(&ids[index], token, amount)).unwrap();
        } else {
            ledger.withdraw(&ids[index], &hosts[index], token, amount, n as u64).unwrap();
        }
        for (index, id) in ids.iter().enumerate() {
            for token in [TOKEN_A, TOKEN_B] {
                let paid: u128 = ledger
                    .payments
                    .iter()
                    .filter(|p| p.payable_payment.payable_id == *id && p.payable_payment.details.token == token)
                    .map(|p| p.payable_payment.details.amount)
                    .sum();
                let withdrawn: u128 = ledger
                    .withdrawals
                    .iter()
                    .filter(|w| w.payable_id == *id && w.details.token == token)
                    .map(|w| w.details.amount)
                    .sum();
                assert_eq!(balance(&ledger, index, token).unwrap_or(0) + withdrawn, paid);
                assert_eq!(balance(&ledger, index, token).is_some(), paid > 0);
            }
        }
    }
    assert_eq!(balance(&ledger, 0, TOKEN_A), Some(0));
    assert_eq!(balance(&ledger, 0, TOKEN_B), Some(0));
    assert_eq!(balance(&ledger, 1, TOKEN_A), Some(3));
    assert_eq!(balance(&ledger, 1, TOKEN_B), Some(8));
    assert_eq!(ledger.chain_stats.payments_count, 5);
    assert_eq!(ledger.chain_stats.withdrawals_count, 4);
}
