use chainbills::{
    check_payment, check_payment_inputs, derive_id, record_payment, record_received_payment,
    AttestedMessage, ChainbillsError, CounterKey, CounterRegistry, EntityKind, GlobalStats,
    Payable, PayablePayment, Payload, ReplayGuard, TokenAndAmount, User, UserPayment,
    ACTION_ID_PAY, ACTION_ID_WITHDRAW,
};

const HOST: [u8; 32] = [1u8; 32];
const PAYER: [u8; 32] = [2u8; 32];
const TOKEN_A: [u8; 32] = [7u8; 32];
const TOKEN_B: [u8; 32] = [8u8; 32];
const PAYABLE_ID: [u8; 32] = [5u8; 32];
const HASH: [u8; 32] = [0xcdu8; 32];

fn taa(token: [u8; 32], amount: u128) -> TokenAndAmount {
    TokenAndAmount { token, amount }
}

fn payable(allowed: Vec<TokenAndAmount>) -> Payable {
    Payable {
        id: PAYABLE_ID,
        host: HOST,
        chain_count: 1,
        host_count: 1,
        description: String::new(),
        allowed_tokens_and_amounts: allowed,
        balances: Vec::new(),
        created_at: 0,
        payments_count: 0,
        withdrawals_count: 0,
        is_closed: false,
    }
}

fn stats() -> GlobalStats {
    GlobalStats { users_count: 2, payables_count: 1, payments_count: 40, withdrawals_count: 0 }
}

fn payer() -> User {
    User {
        owner_wallet: PAYER,
        chain_id: 6,
        chain_count: 2,
        payables_count: 0,
        payments_count: 10,
        withdrawals_count: 0,
    }
}

fn key() -> CounterKey {
    CounterKey { scope: PAYABLE_ID, chain_id: 6 }
}

#[test]
fn payment_adds_exactly_the_amount_and_advances_four_counters() {
    let mut chain_stats = stats();
    let mut payer = payer();
    let mut payable = payable(Vec::new());
    let mut counters = CounterRegistry::new();
    let records = record_payment(
        &mut chain_stats,
        &mut payer,
        &mut payable,
        &mut counters,
        true,
        TOKEN_A,
        100,
        3,
        1_700,
    )
    .unwrap();
    assert_eq!(records.payment_id, derive_id(EntityKind::Payment, 6, 41));
    assert_eq!(
        records.user_payment,
        UserPayment {
            payable_id: PAYABLE_ID,
            payer: PAYER,
            payable_chain_id: 3,
            chain_count: 41,
            payer_count: 11,
            payable_count: 1,
            timestamp: 1_700,
            details: taa(TOKEN_A, 100),
        }
    );
    assert_eq!(
        records.payable_payment,
        PayablePayment {
            payable_id: PAYABLE_ID,
            payer: PAYER,
            payer_chain_id: 6,
            local_chain_count: 1,
            payable_count: 1,
            payer_count: 11,
            timestamp: 1_700,
            details: taa(TOKEN_A, 100),
        }
    );
    assert_eq!(chain_stats.payments_count, 41);
    assert_eq!(payer.payments_count, 11);
    assert_eq!(payable.payments_count, 1);
    assert_eq!(counters.current(&key()), 1);
    assert_eq!(payable.balances, vec![taa(TOKEN_A, 100)]);

    record_payment(
        &mut chain_stats,
        &mut payer,
        &mut payable,
        &mut counters,
        true,
        TOKEN_B,
        1,
        3,
        1_701,
    )
    .unwrap();
    let third = record_payment(
        &mut chain_stats,
        &mut payer,
        &mut payable,
        &mut counters,
        true,
        TOKEN_A,
        23,
        3,
        1_702,
    )
    .unwrap();
    assert_eq!(payable.balances, vec![taa(TOKEN_A, 123), taa(TOKEN_B, 1)]);
    assert_eq!(third.payable_payment.payable_count, 3);
    assert_eq!(third.payable_payment.local_chain_count, 3);
    assert_eq!(third.user_payment.chain_count, 43);
    assert_eq!(payable.payments_count, 3);
    assert_eq!(counters.current(&key()), 3);
}

#[test]
fn n_payments_are_numbered_one_to_n() {
    let mut chain_stats = stats();
    let mut payer = payer();
    let mut payable = payable(Vec::new());
    let mut counters = CounterRegistry::new();
    let mut total: u128 = 0;
    for n in 1..=25u64 {
        let records = record_payment(
            &mut chain_stats,
            &mut payer,
            &mut payable,
            &mut counters,
            true,
            TOKEN_A,
            n as u128,
            3,
            n,
        )
        .unwrap();
        total += n as u128;
        assert_eq!(records.payable_payment.payable_count, n);
        assert_eq!(payable.payments_count, n);
        assert_eq!(payable.balances, vec![taa(TOKEN_A, total)]);
    }
}

fn rejected(
    change: fn(&mut GlobalStats, &mut User, &mut Payable, &mut CounterRegistry),
    supported: bool,
    token: [u8; 32],
    amount: u128,
) -> ChainbillsError {
    let mut chain_stats = stats();
    let mut payer = payer();
    let mut payable = payable(vec![taa(TOKEN_A, 100), taa(TOKEN_B, 5)]);
    payable.balances = vec![taa(TOKEN_A, 100)];
    payable.payments_count = 1;
    let mut counters = CounterRegistry::new();
    counters.next(key()).unwrap();
    change(&mut chain_stats, &mut payer, &mut payable, &mut counters);
    let stats_before = chain_stats;
    let payer_before = payer;
    let balances_before = payable.balances.clone();
    let count_before = payable.payments_count;
    let counter_before = counters.current(&key());
    let checked = check_payment(&chain_stats, &payer, &payable, &counters, supported, &token, amount);
    let error = record_payment(
        &mut chain_stats,
        &mut payer,
        &mut payable,
        &mut counters,
        supported,
        token,
        amount,
        3,
        1,
    )
    .unwrap_err();
    assert_eq!(checked, Err(error));
    assert_eq!(chain_stats, stats_before);
    assert_eq!(payer, payer_before);
    assert_eq!(payable.balances, balances_before);
    assert_eq!(payable.payments_count, count_before);
    assert_eq!(counters.current(&key()), counter_before);
    error
}

#[test]
fn payment_rejects_in_order_and_changes_nothing() {
    assert_eq!(
        rejected(|_, _, p, _| p.is_closed = true, false, [0u8; 32], 0),
        ChainbillsError::PayableIsClosed
    );
    assert_eq!(
        rejected(|_, _, p, _| p.is_closed = true, true, TOKEN_A, 100),
        ChainbillsError::PayableIsClosed
    );
    assert_eq!(rejected(|_, _, _, _| {}, false, TOKEN_A, 0), ChainbillsError::ZeroAmountSpecified);
    assert_eq!(rejected(|_, _, _, _| {}, false, TOKEN_A, 100), ChainbillsError::InvalidToken);
    assert_eq!(
        rejected(|_, _, _, _| {}, true, TOKEN_A, 50),
        ChainbillsError::MatchingTokenAndAmountNotFound
    );
    assert_eq!(
        rejected(|_, _, _, _| {}, true, TOKEN_B, 100),
        ChainbillsError::MatchingTokenAndAmountNotFound
    );
    assert_eq!(
        rejected(|_, _, _, _| {}, true, [3u8; 32], 100),
        ChainbillsError::MatchingTokenAndAmountNotFound
    );
    assert_eq!(
        rejected(|s, _, _, _| s.payments_count = u64::MAX, true, TOKEN_A, 100),
        ChainbillsError::CounterOverflow
    );
    assert_eq!(
        rejected(|_, u, _, _| u.payments_count = u64::MAX, true, TOKEN_A, 100),
        ChainbillsError::CounterOverflow
    );
    assert_eq!(
        rejected(|_, _, p, _| p.payments_count = u64::MAX, true, TOKEN_A, 100),
        ChainbillsError::CounterOverflow
    );
    assert_eq!(
        rejected(|_, _, _, c| c.entries[0].value = u64::MAX, true, TOKEN_A, 100),
        ChainbillsError::CounterOverflow
    );
    assert_eq!(
        rejected(|_, _, p, _| p.balances[0].amount = u128::MAX - 99, true, TOKEN_A, 100),
        ChainbillsError::BalanceOverflow
    );
}

#[test]
fn payable_without_list_takes_any_supported_token_and_amount() {
    let payable = payable(Vec::new());
    assert_eq!(check_payment_inputs(&payable, true, &TOKEN_A, 1), Ok(()));
    assert_eq!(check_payment_inputs(&payable, true, &TOKEN_B, u128::MAX), Ok(()));
    assert_eq!(check_payment_inputs(&payable, true, &[0u8; 32], 12_345), Ok(()));
    assert_eq!(
        check_payment_inputs(&payable, true, &TOKEN_A, 0),
        Err(ChainbillsError::ZeroAmountSpecified)
    );
    assert_eq!(check_payment_inputs(&payable, false, &TOKEN_A, 1), Err(ChainbillsError::InvalidToken));
}

#[test]
fn balance_may_reach_the_top_of_the_range_but_not_pass_it() {
    let mut chain_stats = stats();
    let mut payer = payer();
    let mut payable = payable(Vec::new());
    payable.balances = vec![taa(TOKEN_A, u128::MAX - 100)];
    let mut counters = CounterRegistry::new();
    assert!(record_payment(
        &mut chain_stats,
        &mut payer,
        &mut payable,
        &mut counters,
        true,
        TOKEN_A,
        100,
        3,
        1
    )
    .is_ok());
    assert_eq!(payable.balances, vec![taa(TOKEN_A, u128::MAX)]);
    assert_eq!(
        record_payment(
            &mut chain_stats,
            &mut payer,
            &mut payable,
            &mut counters,
            true,
            TOKEN_A,
            1,
            3,
            1
        ),
        Err(ChainbillsError::BalanceOverflow)
    );
    assert_eq!(payable.balances, vec![taa(TOKEN_A, u128::MAX)]);
    assert_eq!(payable.payments_count, 1);
}

fn vaa() -> AttestedMessage {
    AttestedMessage {
        emitter_chain: 6,
        payload: Payload {
            action_id: ACTION_ID_PAY,
            chain_count: 900,
            caller: PAYER,
            payable_id: PAYABLE_ID,
            details: taa(TOKEN_A, 100),
        },
    }
}

#[test]
fn received_payment_is_applied_once() {
    let mut guard = ReplayGuard::new();
    let mut chain_stats = stats();
    let mut payer = payer();
    let mut payable = payable(vec![taa(TOKEN_A, 100)]);
    let mut counters = CounterRegistry::new();
    let records = record_received_payment(
        &mut guard,
        &vaa(),
        HASH,
        PAYER,
        &mut chain_stats,
        &mut payer,
        &mut payable,
        &mut counters,
        true,
        3,
        50,
    )
    .unwrap();
    assert_eq!(records.payment_id, derive_id(EntityKind::Payment, 6, 900));
    assert_eq!(records.user_payment.chain_count, 41);
    assert_eq!(records.payable_payment.payer_chain_id, 6);
    assert_eq!(records.payable_payment.details, taa(TOKEN_A, 100));
    assert_eq!(payable.balances, vec![taa(TOKEN_A, 100)]);
    assert!(guard.has_seen(6, &HASH));

    assert_eq!(
        record_received_payment(
            &mut guard,
            &vaa(),
            HASH,
            PAYER,
            &mut chain_stats,
            &mut payer,
            &mut payable,
            &mut counters,
            true,
            3,
            51,
        ),
        Err(ChainbillsError::DuplicateMessage)
    );
    assert_eq!(payable.balances, vec![taa(TOKEN_A, 100)]);
    assert_eq!(payable.payments_count, 1);
    assert_eq!(chain_stats.payments_count, 41);
    assert_eq!(payer.payments_count, 11);
    assert_eq!(counters.current(&key()), 1);
    assert_eq!(guard.seen.len(), 1);
}

#[test]
fn received_payment_checks_the_message_before_the_payment() {
    let mut guard = ReplayGuard::new();
    let mut chain_stats = stats();
    let mut payer = payer();
    let mut payable = payable(vec![taa(TOKEN_A, 100)]);
    payable.is_closed = true;
    let mut counters = CounterRegistry::new();
    let mut message = vaa();
    message.payload.action_id = ACTION_ID_WITHDRAW;
    assert_eq!(
        record_received_payment(
            &mut guard,
            &message,
            HASH,
            PAYER,
            &mut chain_stats,
            &mut payer,
            &mut payable,
            &mut counters,
            true,
            3,
            1,
        ),
        Err(ChainbillsError::InvalidActionId)
    );
    assert_eq!(
        record_received_payment(
            &mut guard,
            &vaa(),
            HASH,
            PAYER,
            &mut chain_stats,
            &mut payer,
            &mut payable,
            &mut counters,
            true,
            3,
            1,
        ),
        Err(ChainbillsError::PayableIsClosed)
    );
    assert!(!guard.has_seen(6, &HASH));
    payable.is_closed = false;
    message = vaa();
    message.payload.details.amount = 50;
    assert_eq!(
        record_received_payment(
            &mut guard,
            &message,
            HASH,
            PAYER,
            &mut chain_stats,
            &mut payer,
            &mut payable,
            &mut counters,
            true,
            3,
            1,
        ),
        Err(ChainbillsError::MatchingTokenAndAmountNotFound)
    );
    assert!(guard.seen.is_empty());
    assert_eq!(chain_stats, stats());
}
