//! The payable registry: creating payables, closing and reopening them, and
//! replacing the tokens and amounts they accept. Only the host of a payable
//! may change it.

use crate::error::ChainbillsError;
use crate::identity::{derive_id, id_bytes, same_bytes, EntityKind};
use crate::state::{
    GlobalStats, Payable, PayableView, TokenDetails, User, MAX_PAYABLES_DESCRIPTION_LENGTH,
    MAX_PAYABLES_TOKENS,
};
use crate::tokens::{all_amounts_positive, amounts_are_positive, TokenAndAmount};
use vstd::prelude::*;
use vstd::utf8::encode_utf8;

verus! {

/// The entities that the creation of a payable works on.
#[derive(Debug)]
pub struct CreatePayable {
    /// Where the new payable is put.
    pub payable: Payable,
    /// The user that creates the payable.
    pub host: User,
    pub chain_stats: GlobalStats,
}

/// The entities that the creation of a described payable works on.
#[derive(Debug)]
pub struct InitializePayable {
    /// Where the new payable is put.
    pub payable: Payable,
    /// The user that creates the payable.
    pub host: User,
    pub global_stats: GlobalStats,
}

/// The entities that closing or reopening a payable works on.
#[derive(Debug)]
pub struct UpdatePayable {
    pub payable: Payable,
    /// The wallet that asks for the change.
    pub signer: [u8; 32],
}

/// The entities that replacing the accepted tokens and amounts of a payable
/// works on.
#[derive(Debug)]
pub struct UpdatePayableAllowedTokensAndAmounts {
    pub payable: Payable,
    /// The wallet that asks for the change.
    pub signer: [u8; 32],
}

/// Tells that a payable was created, with its position among the payables
/// of the chain and among those of its host.
#[derive(Clone, Copy, Debug, PartialEq, Eq)]
pub struct CreatedPayable {
    pub payable_id: [u8; 32],
    pub host_wallet: [u8; 32],
    pub chain_count: u64,
    pub host_count: u64,
}

/// Tells that a payable was closed to payments.
#[derive(Clone, Copy, Debug, PartialEq, Eq)]
pub struct ClosedPayable {
    pub payable_id: [u8; 32],
    pub host_wallet: [u8; 32],
}

/// Tells that a payable was reopened to payments.
#[derive(Clone, Copy, Debug, PartialEq, Eq)]
pub struct ReopenedPayable {
    pub payable_id: [u8; 32],
    pub host_wallet: [u8; 32],
}

/// Tells that the tokens and amounts that a payable accepts were replaced.
#[derive(Clone, Copy, Debug, PartialEq, Eq)]
pub struct UpdatedPayableAllowedTokensAndAmounts {
    pub payable_id: [u8; 32],
    pub host_wallet: [u8; 32],
}

/// Tells that a described payable was created, with its position among the
/// payables of the chain and among those of its host.
#[derive(Clone, Copy, Debug, PartialEq, Eq, Structural)]
pub struct InitializedPayableEvent {
    pub global_count: u64,
    pub host_count: u64,
}

/// Whether a token and amount may be listed as accepted, given what was
/// handed in as the token's details: they must be token details, of that
/// token, the token must be supported, and the amount must not be zero.
pub open spec fn listing_check(
    listed: TokenAndAmount,
    account: Option<TokenDetails>,
) -> Result<(), ChainbillsError> {
    match account {
        None => Err(ChainbillsError::NonTokenDetailsAccountProvided),
        Some(details) => if listed.token != details.mint {
            Err(ChainbillsError::InvalidTokenDetailsAccount)
        } else if !details.is_supported {
            Err(ChainbillsError::UnsupportedToken)
        } else if listed.amount == 0 {
            Err(ChainbillsError::ZeroAmountSpecified)
        } else {
            Ok(())
        },
    }
}

/// The outcome of `listing_check` over the first `n` listed tokens and
/// amounts, taken in order: the error of the first that fails.
pub open spec fn listings_check(
    allowed: Seq<TokenAndAmount>,
    accounts: Seq<Option<TokenDetails>>,
    n: nat,
) -> Result<(), ChainbillsError>
    decreases n,
{
    if n == 0 {
        Ok(())
    } else if listings_check(allowed, accounts, (n - 1) as nat) is Err {
        listings_check(allowed, accounts, (n - 1) as nat)
    } else {
        listing_check(allowed[n - 1], accounts[n - 1])
    }
}

proof fn lemma_first_failed_listing_decides(
    allowed: Seq<TokenAndAmount>,
    accounts: Seq<Option<TokenDetails>>,
    k: nat,
    n: nat,
)
    requires
        k <= n,
        listings_check(allowed, accounts, k) is Err,
    ensures
        listings_check(allowed, accounts, n) == listings_check(allowed, accounts, k),
    decreases n - k,
{
    if k < n {
        lemma_first_failed_listing_decides(allowed, accounts, k, (n - 1) as nat);
    }
}

/// Listings that all pass name no zero amount.
pub proof fn lemma_passed_listings_are_positive(
    allowed: Seq<TokenAndAmount>,
    accounts: Seq<Option<TokenDetails>>,
    n: nat,
)
    requires
        n <= allowed.len(),
        listings_check(allowed, accounts, n) is Ok,
    ensures
        forall|i: int| 0 <= i < n ==> (#[trigger] allowed[i]).amount > 0,
    decreases n,
{
    if n > 0 {
        lemma_passed_listings_are_positive(allowed, accounts, (n - 1) as nat);
    }
}

/// Whether a payable is created, and if not, why. The checks come in this
/// order, and the first that fails decides: there are as many token details
/// as listed tokens; no more tokens are listed than allowed; every listing
/// passes `listing_check`; the chain's and the host's count of payables can
/// advance.
pub open spec fn creation_check(
    chain_stats: GlobalStats,
    host: User,
    allowed: Seq<TokenAndAmount>,
    accounts: Seq<Option<TokenDetails>>,
) -> Result<(), ChainbillsError> {
    if accounts.len() != allowed.len() {
        Err(ChainbillsError::InvalidRemainingAccountsLength)
    } else if allowed.len() > MAX_PAYABLES_TOKENS {
        Err(ChainbillsError::MaxPayableTokensCapacityReached)
    } else if listings_check(allowed, accounts, allowed.len()) is Err {
        listings_check(allowed, accounts, allowed.len())
    } else if chain_stats.payables_count == u64::MAX || host.payables_count == u64::MAX {
        Err(ChainbillsError::CounterOverflow)
    } else {
        Ok(())
    }
}

/// A payable as it is right after its creation: open, without payments,
/// withdrawals or balances, numbered after the payables that the chain and
/// the host had before.
pub open spec fn new_payable(
    id: [u8; 32],
    chain_stats: GlobalStats,
    host: User,
    description: Seq<char>,
    allowed: Seq<TokenAndAmount>,
    timestamp: u64,
) -> PayableView {
    PayableView {
        id,
        host: host.owner_wallet,
        chain_count: (chain_stats.payables_count + 1) as u64,
        host_count: (host.payables_count + 1) as u64,
        description,
        allowed_tokens_and_amounts: allowed,
        balances: Seq::empty(),
        created_at: timestamp,
        payments_count: 0,
        withdrawals_count: 0,
        is_closed: false,
    }
}

fn check_listings(
    allowed: &Vec<TokenAndAmount>,
    remaining_accounts: &Vec<Option<TokenDetails>>,
) -> (r: Result<(), ChainbillsError>)
    requires
        allowed@.len() == remaining_accounts@.len(),
    ensures
        r == listings_check(allowed@, remaining_accounts@, allowed@.len()),
{
    let mut i: usize = 0;
    while i < allowed.len()
        invariant
            i <= allowed.len(),
            allowed@.len() == remaining_accounts@.len(),
            listings_check(allowed@, remaining_accounts@, i as nat) is Ok,
        decreases allowed.len() - i,
    {
        let listed = &allowed[i];
        let failed: Option<ChainbillsError> = match &remaining_accounts[i] {
            None => Some(ChainbillsError::NonTokenDetailsAccountProvided),
            Some(details) => {
                if !same_bytes(&listed.token, &details.mint) {
                    Some(ChainbillsError::InvalidTokenDetailsAccount)
                } else if !details.is_supported {
                    Some(ChainbillsError::UnsupportedToken)
                } else if listed.amount == 0 {
                    Some(ChainbillsError::ZeroAmountSpecified)
                } else {
                    None
                }
            },
        };
        if let Some(e) = failed {
            proof {
                lemma_first_failed_listing_decides(
                    allowed@,
                    remaining_accounts@,
                    (i + 1) as nat,
                    allowed@.len(),
                );
            }
            return Err(e);
        }
        i += 1;
    }
    Ok(())
}

/// Creates a payable that accepts the listed tokens and amounts, or any
/// token and amount when none is listed. `remaining_accounts` holds, for
/// each listed token in order, what was handed in as its details.
///
/// A request that `creation_check` rejects changes nothing. One that it
/// accepts advances the chain's and the host's count of payables by one and
/// puts the new payable, under an identifier derived from the host's chain
/// and the chain's new count, in `ctx.payable`.
pub fn create_payable_handler(
    ctx: &mut CreatePayable,
    allowed_tokens_and_amounts: Vec<TokenAndAmount>,
    remaining_accounts: &Vec<Option<TokenDetails>>,
    timestamp: u64,
) -> (r: Result<CreatedPayable, ChainbillsError>)
    ensures
        match r {
            Err(e) => {
                &&& creation_check(
                    old(ctx).chain_stats,
                    old(ctx).host,
                    allowed_tokens_and_amounts@,
                    remaining_accounts@,
                ) == Err::<(), ChainbillsError>(e)
                &&& *final(ctx) == *old(ctx)
            },
            Ok(created) => {
                &&& creation_check(
                    old(ctx).chain_stats,
                    old(ctx).host,
                    allowed_tokens_and_amounts@,
                    remaining_accounts@,
                ) is Ok
                &&& final(ctx).chain_stats == (GlobalStats {
                    payables_count: (old(ctx).chain_stats.payables_count + 1) as u64,
                    ..old(ctx).chain_stats
                })
                &&& final(ctx).host == (User {
                    payables_count: (old(ctx).host.payables_count + 1) as u64,
                    ..old(ctx).host
                })
                &&& final(ctx).payable@ == new_payable(
                    final(ctx).payable.id,
                    old(ctx).chain_stats,
                    old(ctx).host,
                    Seq::empty(),
                    allowed_tokens_and_amounts@,
                    timestamp,
                )
                &&& final(ctx).payable.id@ == id_bytes(
                    EntityKind::Payable,
                    old(ctx).host.chain_id,
                    final(ctx).chain_stats.payables_count,
                )
                &&& final(ctx).payable@.wf()
                &&& created == (CreatedPayable {
                    payable_id: final(ctx).payable.id,
                    host_wallet: old(ctx).host.owner_wallet,
                    chain_count: final(ctx).chain_stats.payables_count,
                    host_count: final(ctx).host.payables_count,
                })
            },
        },
{
    if remaining_accounts.len() != allowed_tokens_and_amounts.len() {
        return Err(ChainbillsError::InvalidRemainingAccountsLength);
    }
    if allowed_tokens_and_amounts.len() > MAX_PAYABLES_TOKENS {
        return Err(ChainbillsError::MaxPayableTokensCapacityReached);
    }
    check_listings(&allowed_tokens_and_amounts, remaining_accounts)?;
    let chain_count = ctx.chain_stats.next_payable()?;
    let host_count = ctx.host.next_payable()?;
    proof {
        lemma_passed_listings_are_positive(
            allowed_tokens_and_amounts@,
            remaining_accounts@,
            allowed_tokens_and_amounts@.len(),
        );
    }
    ctx.chain_stats.payables_count = chain_count;
    ctx.host.payables_count = host_count;
    let payable_id = derive_id(EntityKind::Payable, ctx.host.chain_id, chain_count);
    ctx.payable = Payable {
        id: payable_id,
        host: ctx.host.owner_wallet,
        chain_count,
        host_count,
        description: String::new(),
        allowed_tokens_and_amounts,
        balances: Vec::new(),
        created_at: timestamp,
        payments_count: 0,
        withdrawals_count: 0,
        is_closed: false,
    };
    Ok(
        CreatedPayable {
            payable_id,
            host_wallet: ctx.host.owner_wallet,
            chain_count,
            host_count,
        },
    )
}

/// What is left of a text when the white space at both of its ends is
/// taken away.
pub uninterp spec fn trimmed(text: Seq<char>) -> Seq<char>;

/// `str::trim` of the standard library: the result is the text without the
/// white space at its ends, white space being what Unicode calls so.
#[verifier::external_body]
fn trim(text: &str) -> (r: &str)
    ensures
        r@ == trimmed(text@),
{
    text.trim()
}

/// Whether a described payable is created, and if not, why. The checks come
/// in this order, and the first that fails decides: the description, once
/// trimmed, is not empty; the description as given is at most
/// `MAX_PAYABLES_DESCRIPTION_LENGTH` bytes long; no more tokens are listed
/// than allowed; the payable either allows free payments and lists nothing,
/// or lists something and does not; no listed amount is zero; the chain's
/// and the host's count of payables can advance.
pub open spec fn initialization_check(
    global_stats: GlobalStats,
    host: User,
    description_length: usize,
    trimmed_description: Seq<char>,
    tokens_and_amounts: Seq<TokenAndAmount>,
    allows_free_payments: bool,
) -> Result<(), ChainbillsError> {
    if trimmed_description.len() == 0 {
        Err(ChainbillsError::EmptyDescriptionProvided)
    } else if description_length > MAX_PAYABLES_DESCRIPTION_LENGTH {
        Err(ChainbillsError::MaxPayableDescriptionReached)
    } else if tokens_and_amounts.len() > MAX_PAYABLES_TOKENS {
        Err(ChainbillsError::MaxPayableTokensCapacityReached)
    } else if allows_free_payments != (tokens_and_amounts.len() == 0) {
        Err(ChainbillsError::ImproperPayablesConfiguration)
    } else if !all_amounts_positive(tokens_and_amounts) {
        Err(ChainbillsError::ZeroAmountSpecified)
    } else if global_stats.payables_count == u64::MAX || host.payables_count == u64::MAX {
        Err(ChainbillsError::CounterOverflow)
    } else {
        Ok(())
    }
}

/// Creates a payable with a description, which accepts the listed tokens
/// and amounts, or any token and amount when `allows_free_payments` is set
/// and none is listed. The payable keeps the description without the white
/// space at its ends.
///
/// The request is decided and carried out as
/// `initialize_described_payable` says, on the length of the description
/// and on what trimming leaves of it.
pub fn initialize_payable_handler(
    ctx: &mut InitializePayable,
    description: String,
    tokens_and_amounts: Vec<TokenAndAmount>,
    allows_free_payments: bool,
    timestamp: u64,
) -> (r: Result<InitializedPayableEvent, ChainbillsError>)
    ensures
        initialization_applied(
            *old(ctx),
            *final(ctx),
            encode_utf8(description@).len() as usize,
            trimmed(description@),
            tokens_and_amounts@,
            allows_free_payments,
            timestamp,
            r,
        ),
{
    let trimmed_description = trim(description.as_str()).to_owned();
    initialize_described_payable(
        ctx,
        description.as_str().len(),
        trimmed_description,
        tokens_and_amounts,
        allows_free_payments,
        timestamp,
    )
}

/// How the creation of a described payable relates the entities before and
/// after it to its result: a request that `initialization_check` rejects
/// fails with that error and changes nothing; one that it accepts advances
/// the chain's and the host's count of payables by one and puts the new
/// payable, with the trimmed description, in its place.
pub open spec fn initialization_applied(
    before: InitializePayable,
    after: InitializePayable,
    description_length: usize,
    trimmed_description: Seq<char>,
    tokens_and_amounts: Seq<TokenAndAmount>,
    allows_free_payments: bool,
    timestamp: u64,
    r: Result<InitializedPayableEvent, ChainbillsError>,
) -> bool {
    let checked = initialization_check(
        before.global_stats,
        before.host,
        description_length,
        trimmed_description,
        tokens_and_amounts,
        allows_free_payments,
    );
    match r {
        Err(e) => checked == Err::<(), ChainbillsError>(e) && after == before,
        Ok(event) => {
            &&& checked is Ok
            &&& after.global_stats == (GlobalStats {
                payables_count: (before.global_stats.payables_count + 1) as u64,
                ..before.global_stats
            })
            &&& after.host == (User {
                payables_count: (before.host.payables_count + 1) as u64,
                ..before.host
            })
            &&& after.payable@ == new_payable(
                after.payable.id,
                before.global_stats,
                before.host,
                trimmed_description,
                tokens_and_amounts,
                timestamp,
            )
            &&& after.payable.id@ == id_bytes(
                EntityKind::Payable,
                before.host.chain_id,
                after.global_stats.payables_count,
            )
            &&& after.payable@.wf()
            &&& event == (InitializedPayableEvent {
                global_count: after.global_stats.payables_count,
                host_count: after.host.payables_count,
            })
        },
    }
}

/// Creates a payable with a description of which the length as given and
/// the trimmed text are known.
pub fn initialize_described_payable(
    ctx: &mut InitializePayable,
    description_length: usize,
    trimmed_description: String,
    tokens_and_amounts: Vec<TokenAndAmount>,
    allows_free_payments: bool,
    timestamp: u64,
) -> (r: Result<InitializedPayableEvent, ChainbillsError>)
    ensures
        initialization_applied(
            *old(ctx),
            *final(ctx),
            description_length,
            trimmed_description@,
            tokens_and_amounts@,
            allows_free_payments,
            timestamp,
            r,
        ),
{
    if trimmed_description.as_str().is_empty() {
        return Err(ChainbillsError::EmptyDescriptionProvided);
    }
    if description_length > MAX_PAYABLES_DESCRIPTION_LENGTH {
        return Err(ChainbillsError::MaxPayableDescriptionReached);
    }
    if tokens_and_amounts.len() > MAX_PAYABLES_TOKENS {
        return Err(ChainbillsError::MaxPayableTokensCapacityReached);
    }
    if allows_free_payments != (tokens_and_amounts.len() == 0) {
        return Err(ChainbillsError::ImproperPayablesConfiguration);
    }
    if !amounts_are_positive(&tokens_and_amounts) {
        return Err(ChainbillsError::ZeroAmountSpecified);
    }
    let global_count = ctx.global_stats.next_payable()?;
    let host_count = ctx.host.next_payable()?;
    ctx.global_stats.payables_count = global_count;
    ctx.host.payables_count = host_count;
    ctx.payable = Payable {
        id: derive_id(EntityKind::Payable, ctx.host.chain_id, global_count),
        host: ctx.host.owner_wallet,
        chain_count: global_count,
        host_count,
        description: trimmed_description,
        allowed_tokens_and_amounts: tokens_and_amounts,
        balances: Vec::new(),
        created_at: timestamp,
        payments_count: 0,
        withdrawals_count: 0,
        is_closed: false,
    };
    Ok(InitializedPayableEvent { global_count, host_count })
}

/// Closes the payable, so that it takes no more payments. Only the host may
/// do so: for any other signer the request fails with `NotYourPayable` and
/// changes nothing. What the payable holds stays, and can still be
/// withdrawn.
pub fn close_payable_handler(ctx: &mut UpdatePayable) -> (r: Result<
    ClosedPayable,
    ChainbillsError,
>)
    ensures
        old(ctx).payable.host != old(ctx).signer ==> r == Err::<ClosedPayable, ChainbillsError>(
            ChainbillsError::NotYourPayable,
        ) && *final(ctx) == *old(ctx),
        old(ctx).payable.host == old(ctx).signer ==> r == Ok::<ClosedPayable, ChainbillsError>(
            ClosedPayable { payable_id: old(ctx).payable.id, host_wallet: old(ctx).signer },
        ) && final(ctx).signer == old(ctx).signer && final(ctx).payable@ == (PayableView {
            is_closed: true,
            ..old(ctx).payable@
        }),
{
    if !same_bytes(&ctx.payable.host, &ctx.signer) {
        return Err(ChainbillsError::NotYourPayable);
    }
    ctx.payable.is_closed = true;
    Ok(ClosedPayable { payable_id: ctx.payable.id, host_wallet: ctx.signer })
}

/// Reopens the payable, so that it takes payments again. Only the host may
/// do so: for any other signer the request fails with `NotYourPayable` and
/// changes nothing.
pub fn reopen_payable_handler(ctx: &mut UpdatePayable) -> (r: Result<
    ReopenedPayable,
    ChainbillsError,
>)
    ensures
        old(ctx).payable.host != old(ctx).signer ==> r == Err::<ReopenedPayable, ChainbillsError>(
            ChainbillsError::NotYourPayable,
        ) && *final(ctx) == *old(ctx),
        old(ctx).payable.host == old(ctx).signer ==> r == Ok::<ReopenedPayable, ChainbillsError>(
            ReopenedPayable { payable_id: old(ctx).payable.id, host_wallet: old(ctx).signer },
        ) && final(ctx).signer == old(ctx).signer && final(ctx).payable@ == (PayableView {
            is_closed: false,
            ..old(ctx).payable@
        }),
{
    if !same_bytes(&ctx.payable.host, &ctx.signer) {
        return Err(ChainbillsError::NotYourPayable);
    }
    ctx.payable.is_closed = false;
    Ok(ReopenedPayable { payable_id: ctx.payable.id, host_wallet: ctx.signer })
}

/// Whether the accepted tokens and amounts of a payable are replaced, and
/// if not, why. The checks come in this order, and the first that fails
/// decides: the signer is the host; no more tokens are listed than allowed;
/// no listed amount is zero.
pub open spec fn update_check(
    payable: PayableView,
    signer: [u8; 32],
    allowed: Seq<TokenAndAmount>,
) -> Result<(), ChainbillsError> {
    if payable.host != signer {
        Err(ChainbillsError::NotYourPayable)
    } else if allowed.len() > MAX_PAYABLES_TOKENS {
        Err(ChainbillsError::MaxPayableTokensCapacityReached)
    } else if !all_amounts_positive(allowed) {
        Err(ChainbillsError::ZeroAmountSpecified)
    } else {
        Ok(())
    }
}

/// Replaces the tokens and amounts that the payable accepts. A request that
/// `update_check` rejects changes nothing. What the payable holds from
/// payments under the former list stays as it is.
pub fn update_payable_allowed_tokens_and_amounts_handler(
    ctx: &mut UpdatePayableAllowedTokensAndAmounts,
    allowed_tokens_and_amounts: Vec<TokenAndAmount>,
) -> (r: Result<UpdatedPayableAllowedTokensAndAmounts, ChainbillsError>)
    ensures
        match r {
            Err(e) => update_check(old(ctx).payable@, old(ctx).signer, allowed_tokens_and_amounts@)
                == Err::<(), ChainbillsError>(e) && *final(ctx) == *old(ctx),
            Ok(event) => {
                &&& update_check(old(ctx).payable@, old(ctx).signer, allowed_tokens_and_amounts@)
                    is Ok
                &&& event == (UpdatedPayableAllowedTokensAndAmounts {
                    payable_id: old(ctx).payable.id,
                    host_wallet: old(ctx).signer,
                })
                &&& final(ctx).signer == old(ctx).signer
                &&& final(ctx).payable@ == (PayableView {
                    allowed_tokens_and_amounts: allowed_tokens_and_amounts@,
                    ..old(ctx).payable@
                })
            },
        },
        old(ctx).payable@.wf() ==> final(ctx).payable@.wf(),
{
    if !same_bytes(&ctx.payable.host, &ctx.signer) {
        return Err(ChainbillsError::NotYourPayable);
    }
    if allowed_tokens_and_amounts.len() > MAX_PAYABLES_TOKENS {
        return Err(ChainbillsError::MaxPayableTokensCapacityReached);
    }
    if !amounts_are_positive(&allowed_tokens_and_amounts) {
        return Err(ChainbillsError::ZeroAmountSpecified);
    }
    ctx.payable.allowed_tokens_and_amounts = allowed_tokens_and_amounts;
    Ok(
        UpdatedPayableAllowedTokensAndAmounts {
            payable_id: ctx.payable.id,
            host_wallet: ctx.signer,
        },
    )
}

} // verus!
