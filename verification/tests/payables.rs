use chainbills::{
    close_payable_handler, create_payable_handler, derive_id, initialize, initialize_payable_handler,
    reopen_payable_handler, update_payable_allowed_tokens_and_amounts_handler, ChainbillsError,
    ClosedPayable, CreatePayable, CreatedPayable, EntityKind, GlobalStats, Initialize,
    InitializePayable, InitializedPayableEvent, Payable, ReopenedPayable, TokenAndAmount,
    TokenDetails, UpdatePayable, UpdatePayableAllowedTokensAndAmounts,
    UpdatedPayableAllowedTokensAndAmounts, User, MAX_PAYABLES_DESCRIPTION_LENGTH,
    MAX_PAYABLES_TOKENS,
};

const HOST: [u8; 32] = [1u8; 32];
const TOKEN_A: [u8; 32] = [7u8; 32];
const TOKEN_B: [u8; 32] = [8u8; 32];

fn blank_payable() -> Payable {
    Payable {
        id: [0u8; 32],
        host: [0u8; 32],
        chain_count: 0,
        host_count: 0,
        description: String::new(),
        allowed_tokens_and_amounts: Vec::new(),
        balances: Vec::new(),
        created_at: 0,
        payments_count: 0,
        withdrawals_count: 0,
        is_closed: false,
    }
}

fn stats(payables_count: u64) -> GlobalStats {
    GlobalStats { users_count: 3, payables_count, payments_count: 5, withdrawals_count: 6 }
}

fn host(payables_count: u64) -> User {
    User {
        owner_wallet: HOST,
        chain_id: 2,
        chain_count: 3,
        payables_count,
        payments_count: 9,
        withdrawals_count: 4,
    }
}

fn create_ctx() -> CreatePayable {
    CreatePayable { payable: blank_payable(), host: host(1), chain_stats: stats(10) }
}

fn taa(token: [u8; 32], amount: u128) -> TokenAndAmount {
    TokenAndAmount { token, amount }
}

fn details(mint: [u8; 32], is_supported: bool) -> Option<TokenDetails> {
    Some(TokenDetails { mint, is_supported })
}

#[test]
fn initialize_zeroes_the_statistics() {
    let mut ctx = Initialize { global_stats: stats(10) };
    initialize(&mut ctx);
    assert_eq!(
        ctx.global_stats,
        GlobalStats { users_count: 0, payables_count: 0, payments_count: 0, withdrawals_count: 0 }
    );
    let mut global_stats = stats(4);
    global_stats.initialize();
    assert_eq!(global_stats, GlobalStats::new());
}

#[test]
fn created_payable_starts_open_and_empty() {
    let mut ctx = create_ctx();
    let allowed = vec![taa(TOKEN_A, 100), taa(TOKEN_B, 5)];
    let accounts = vec![details(TOKEN_A, true), details(TOKEN_B, true)];
    let created = create_payable_handler(&mut ctx, allowed.clone(), &accounts, 1234).unwrap();
    let id = derive_id(EntityKind::Payable, 2, 11);
    assert_eq!(
        created,
        CreatedPayable { payable_id: id, host_wallet: HOST, chain_count: 11, host_count: 2 }
    );
    assert_eq!(ctx.chain_stats, stats(11));
    assert_eq!(ctx.host, host(2));
    assert_eq!(ctx.payable.id, id);
    assert_eq!(ctx.payable.host, HOST);
    assert_eq!(ctx.payable.chain_count, 11);
    assert_eq!(ctx.payable.host_count, 2);
    assert_eq!(ctx.payable.allowed_tokens_and_amounts, allowed);
    assert!(ctx.payable.balances.is_empty());
    assert_eq!(ctx.payable.created_at, 1234);
    assert_eq!(ctx.payable.payments_count, 0);
    assert_eq!(ctx.payable.withdrawals_count, 0);
    assert!(!ctx.payable.is_closed);
}

#[test]
fn created_payable_may_list_nothing() {
    let mut ctx = create_ctx();
    let created = create_payable_handler(&mut ctx, Vec::new(), &Vec::new(), 1).unwrap();
    assert_eq!(created.chain_count, 11);
    assert!(ctx.payable.allowed_tokens_and_amounts.is_empty());
}

#[test]
fn creation_rejects_in_order_and_changes_nothing() {
    let cases: Vec<(Vec<TokenAndAmount>, Vec<Option<TokenDetails>>, ChainbillsError)> = vec![
        (
            vec![taa(TOKEN_A, 0)],
            vec![],
            ChainbillsError::InvalidRemainingAccountsLength,
        ),
        (
            vec![taa(TOKEN_A, 1); MAX_PAYABLES_TOKENS + 1],
            vec![None; MAX_PAYABLES_TOKENS + 1],
            ChainbillsError::MaxPayableTokensCapacityReached,
        ),
        (
            vec![taa(TOKEN_A, 1), taa(TOKEN_B, 0)],
            vec![details(TOKEN_A, true), None],
            ChainbillsError::NonTokenDetailsAccountProvided,
        ),
        (
            vec![taa(TOKEN_A, 0)],
            vec![details(TOKEN_B, false)],
            ChainbillsError::InvalidTokenDetailsAccount,
        ),
        (
            vec![taa(TOKEN_A, 0)],
            vec![details(TOKEN_A, false)],
            ChainbillsError::UnsupportedToken,
        ),
        (
            vec![taa(TOKEN_A, 1), taa(TOKEN_B, 0)],
            vec![details(TOKEN_A, true), details(TOKEN_B, true)],
            ChainbillsError::ZeroAmountSpecified,
        ),
        (
            vec![taa(TOKEN_A, 0), taa(TOKEN_B, 1)],
            vec![details(TOKEN_A, true), None],
            ChainbillsError::ZeroAmountSpecified,
        ),
    ];
    for (allowed, accounts, expected) in cases {
        let mut ctx = create_ctx();
        assert_eq!(create_payable_handler(&mut ctx, allowed, &accounts, 1), Err(expected));
        assert_eq!(ctx.chain_stats, stats(10));
        assert_eq!(ctx.host, host(1));
        assert_eq!(ctx.payable.id, [0u8; 32]);
    }
}

#[test]
fn creation_accepts_the_longest_list() {
    let mut ctx = create_ctx();
    let allowed = vec![taa(TOKEN_A, 1); MAX_PAYABLES_TOKENS];
    let accounts = vec![details(TOKEN_A, true); MAX_PAYABLES_TOKENS];
    assert!(create_payable_handler(&mut ctx, allowed, &accounts, 1).is_ok());
}

#[test]
fn creation_fails_closed_when_a_counter_is_full() {
    let mut ctx = create_ctx();
    ctx.chain_stats.payables_count = u64::MAX;
    assert_eq!(
        create_payable_handler(&mut ctx, Vec::new(), &Vec::new(), 1),
        Err(ChainbillsError::CounterOverflow)
    );
    assert_eq!(ctx.chain_stats.payables_count, u64::MAX);
    let mut ctx = create_ctx();
    ctx.host.payables_count = u64::MAX;
    assert_eq!(
        create_payable_handler(&mut ctx, Vec::new(), &Vec::new(), 1),
        Err(ChainbillsError::CounterOverflow)
    );
    assert_eq!(ctx.chain_stats, stats(10));
}

fn initialize_ctx() -> InitializePayable {
    InitializePayable { payable: blank_payable(), host: host(1), global_stats: stats(10) }
}

#[test]
fn initialized_payable_keeps_the_trimmed_description() {
    let mut ctx = initialize_ctx();
    let event = initialize_payable_handler(
        &mut ctx,
        "  \t Rent for May \n ".to_string(),
        vec![taa(TOKEN_A, 100)],
        false,
        77,
    )
    .unwrap();
    assert_eq!(event, InitializedPayableEvent { global_count: 11, host_count: 2 });
    assert_eq!(ctx.payable.description, "Rent for May");
    assert_eq!(ctx.payable.id, derive_id(EntityKind::Payable, 2, 11));
    assert_eq!(ctx.payable.host, HOST);
    assert_eq!(ctx.payable.chain_count, 11);
    assert_eq!(ctx.payable.host_count, 2);
    assert_eq!(ctx.payable.allowed_tokens_and_amounts, vec![taa(TOKEN_A, 100)]);
    assert!(ctx.payable.balances.is_empty());
    assert_eq!(ctx.payable.created_at, 77);
    assert!(!ctx.payable.is_closed);
    assert_eq!(ctx.global_stats, stats(11));
    assert_eq!(ctx.host, host(2));
}

#[test]
fn initialization_accepts_free_payments_without_a_list() {
    let mut ctx = initialize_ctx();
    let event =
        initialize_payable_handler(&mut ctx, "Donations".to_string(), Vec::new(), true, 1).unwrap();
    assert_eq!(event, InitializedPayableEvent { global_count: 11, host_count: 2 });
    assert!(ctx.payable.allowed_tokens_and_amounts.is_empty());
}

#[test]
fn initialization_rejects_in_order_and_changes_nothing() {
    let long = "x".repeat(MAX_PAYABLES_DESCRIPTION_LENGTH + 1);
    let cases: Vec<(String, Vec<TokenAndAmount>, bool, ChainbillsError)> = vec![
        ("".to_string(), vec![], false, ChainbillsError::EmptyDescriptionProvided),
        (" \n\t ".to_string(), vec![taa(TOKEN_A, 1)], false, ChainbillsError::EmptyDescriptionProvided),
        (long, vec![], false, ChainbillsError::MaxPayableDescriptionReached),
        (
            "d".to_string(),
            vec![taa(TOKEN_A, 0); MAX_PAYABLES_TOKENS + 1],
            true,
            ChainbillsError::MaxPayableTokensCapacityReached,
        ),
        ("d".to_string(), vec![], false, ChainbillsError::ImproperPayablesConfiguration),
        (
            "d".to_string(),
            vec![taa(TOKEN_A, 0)],
            true,
            ChainbillsError::ImproperPayablesConfiguration,
        ),
        (
            "d".to_string(),
            vec![taa(TOKEN_A, 1), taa(TOKEN_B, 0)],
            false,
            ChainbillsError::ZeroAmountSpecified,
        ),
    ];
    for (description, list, free, expected) in cases {
        let mut ctx = initialize_ctx();
        assert_eq!(initialize_payable_handler(&mut ctx, description, list, free, 1), Err(expected));
        assert_eq!(ctx.global_stats, stats(10));
        assert_eq!(ctx.host, host(1));
        assert_eq!(ctx.payable.id, [0u8; 32]);
    }
}

#[test]
fn description_length_counts_what_was_given_not_what_is_kept() {
    let mut padded = " ".repeat(MAX_PAYABLES_DESCRIPTION_LENGTH);
    padded.push('x');
    let mut ctx = initialize_ctx();
    assert_eq!(
        initialize_payable_handler(&mut ctx, padded, Vec::new(), true, 1),
        Err(ChainbillsError::MaxPayableDescriptionReached)
    );
    let exact = "y".repeat(MAX_PAYABLES_DESCRIPTION_LENGTH);
    let mut ctx = initialize_ctx();
    assert!(initialize_payable_handler(&mut ctx, exact, Vec::new(), true, 1).is_ok());
}

fn hosted_payable() -> Payable {
    let mut payable = blank_payable();
    payable.host = HOST;
    payable.balances = vec![taa(TOKEN_A, 40)];
    payable.allowed_tokens_and_amounts = vec![taa(TOKEN_A, 10)];
    payable
}

#[test]
fn only_the_host_closes_and_reopens() {
    let mut ctx = UpdatePayable { payable: hosted_payable(), signer: [9u8; 32] };
    assert_eq!(close_payable_handler(&mut ctx), Err(ChainbillsError::NotYourPayable));
    assert!(!ctx.payable.is_closed);
    ctx.signer = HOST;
    assert_eq!(
        close_payable_handler(&mut ctx),
        Ok(ClosedPayable { payable_id: [0u8; 32], host_wallet: HOST })
    );
    assert!(ctx.payable.is_closed);
    assert_eq!(ctx.payable.balances, vec![taa(TOKEN_A, 40)]);
    ctx.signer = [9u8; 32];
    assert_eq!(reopen_payable_handler(&mut ctx), Err(ChainbillsError::NotYourPayable));
    assert!(ctx.payable.is_closed);
    ctx.signer = HOST;
    assert_eq!(
        reopen_payable_handler(&mut ctx),
        Ok(ReopenedPayable { payable_id: [0u8; 32], host_wallet: HOST })
    );
    assert!(!ctx.payable.is_closed);
}

#[test]
fn only_the_host_replaces_the_accepted_list_and_balances_stay() {
    let mut ctx =
        UpdatePayableAllowedTokensAndAmounts { payable: hosted_payable(), signer: [9u8; 32] };
    assert_eq!(
        update_payable_allowed_tokens_and_amounts_handler(&mut ctx, vec![taa(TOKEN_B, 3)]),
        Err(ChainbillsError::NotYourPayable)
    );
    ctx.signer = HOST;
    assert_eq!(
        update_payable_allowed_tokens_and_amounts_handler(&mut ctx, vec![taa(TOKEN_B, 0)]),
        Err(ChainbillsError::ZeroAmountSpecified)
    );
    assert_eq!(
        update_payable_allowed_tokens_and_amounts_handler(
            &mut ctx,
            vec![taa(TOKEN_B, 1); MAX_PAYABLES_TOKENS + 1]
        ),
        Err(ChainbillsError::MaxPayableTokensCapacityReached)
    );
    assert_eq!(ctx.payable.allowed_tokens_and_amounts, vec![taa(TOKEN_A, 10)]);
    let updated = UpdatedPayableAllowedTokensAndAmounts { payable_id: [0u8; 32], host_wallet: HOST };
    assert_eq!(
        update_payable_allowed_tokens_and_amounts_handler(&mut ctx, vec![taa(TOKEN_B, 3)]),
        Ok(updated)
    );
    assert_eq!(ctx.payable.allowed_tokens_and_amounts, vec![taa(TOKEN_B, 3)]);
    assert_eq!(ctx.payable.balances, vec![taa(TOKEN_A, 40)]);
    assert_eq!(
        update_payable_allowed_tokens_and_amounts_handler(&mut ctx, Vec::new()),
        Ok(updated)
    );
    assert!(ctx.payable.allowed_tokens_and_amounts.is_empty());
}
