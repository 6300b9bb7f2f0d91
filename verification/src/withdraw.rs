//! The withdrawal processor: a host takes what its payable has accumulated,
//! less the withdrawal fee, on request from its own chain or from another.

use crate::error::ChainbillsError;
use crate::identity::{derive_id, id_bytes, same_bytes, EntityKind};
use crate::message::{
    check_message, message_check, AttestedMessage, ReceivedMessage, ReplayGuard,
    ACTION_ID_WITHDRAW,
};
use crate::state::{GlobalStats, Payable, PayableView, User, Withdrawal};
use crate::tokens::{
    amount_of, balance_of, debit, debit_outcome, debited, find_token, lemma_debited,
    TokenAndAmount,
};
use vstd::prelude::*;

verus! {

/// Of every hundred units withdrawn, how many reach the host; the rest is
/// the fee.
pub const WITHDRAWAL_NET_PERCENT: u128 = 98;

/// What reaches the host of a withdrawal of `amount`: ninety-eight
/// hundredths of it, rounded down.
pub open spec fn amount_minus_fees(amount: u128) -> u128 {
    (amount * WITHDRAWAL_NET_PERCENT / 100) as u128
}

/// What reaches the host of a withdrawal of `amount`.
pub fn net_of_fees(amount: u128) -> (net: u128)
    ensures
        net == amount_minus_fees(amount),
        net <= amount,
{
    let hundreds: u128 = amount / 100;
    let rest: u128 = amount % 100;
    assert(amount * 98 / 100 == hundreds * 98 + rest * 98 / 100) by {
        assert(amount == hundreds * 100 + rest);
        assert(amount * 98 == (hundreds * 98) * 100 + rest * 98);
    }
    hundreds * WITHDRAWAL_NET_PERCENT + rest * WITHDRAWAL_NET_PERCENT / 100
}

/// The entities that a withdrawal on the payable's own chain works on.
#[derive(Debug)]
pub struct Withdraw {
    pub payable: Payable,
    /// The user that asks for the withdrawal.
    pub host: User,
    pub chain_stats: GlobalStats,
    /// The token to withdraw.
    pub mint: [u8; 32],
}

/// The entities that a withdrawal asked for from another chain works on.
#[derive(Debug)]
pub struct WithdrawReceived {
    /// The attested message that asks for the withdrawal.
    pub vaa: AttestedMessage,
    /// The messages applied so far.
    pub wormhole_received: ReplayGuard,
    pub payable: Payable,
    /// The user that the message's caller is expected to be.
    pub host: User,
    pub chain_stats: GlobalStats,
    /// The token to withdraw, as this chain knows it.
    pub token_bridge_wrapped_mint: [u8; 32],
}

/// What a committed withdrawal yields.
#[derive(Clone, Copy, Debug, PartialEq, Eq)]
pub struct WithdrawalOutcome {
    pub withdrawal_id: [u8; 32],
    pub withdrawal: Withdrawal,
    /// The amount to transfer to the host: what was asked for less the fee.
    pub amount_minus_fees: u128,
}

/// Whether `amount` of token `mint` can be withdrawn from the balances, and
/// if not, why: the amount is not zero, the token has a balance, and the
/// balance covers the amount.
pub open spec fn withdraw_inputs_check(
    balances: Seq<TokenAndAmount>,
    mint: [u8; 32],
    amount: u128,
) -> Result<(), ChainbillsError> {
    if amount == 0 {
        Err(ChainbillsError::ZeroAmountSpecified)
    } else {
        debit_outcome(balances, mint, amount)
    }
}

/// Whether the three withdrawal counters can all advance.
pub open spec fn withdrawal_counters_check(
    chain_stats: GlobalStats,
    payable: PayableView,
    host: User,
) -> Result<(), ChainbillsError> {
    if chain_stats.withdrawals_count == u64::MAX || payable.withdrawals_count == u64::MAX
        || host.withdrawals_count == u64::MAX {
        Err(ChainbillsError::CounterOverflow)
    } else {
        Ok(())
    }
}

/// Whether the state can be updated for a withdrawal, and if not, why:
/// first the balance must cover the amount, then the counters must be able
/// to advance.
pub open spec fn state_update_check(
    chain_stats: GlobalStats,
    payable: PayableView,
    host: User,
    mint: [u8; 32],
    amount: u128,
) -> Result<(), ChainbillsError> {
    if debit_outcome(payable.balances, mint, amount) is Err {
        debit_outcome(payable.balances, mint, amount)
    } else {
        withdrawal_counters_check(chain_stats, payable, host)
    }
}

/// Whether a host's request to withdraw is carried out, and if not, why.
/// The checks come in this order, and the first that fails decides: the
/// caller is the payable's host; the inputs pass `withdraw_inputs_check`;
/// the counters can advance.
pub open spec fn withdrawal_check(
    chain_stats: GlobalStats,
    payable: PayableView,
    host: User,
    mint: [u8; 32],
    amount: u128,
) -> Result<(), ChainbillsError> {
    if payable.host != host.owner_wallet {
        Err(ChainbillsError::NotYourPayable)
    } else if withdraw_inputs_check(payable.balances, mint, amount) is Err {
        withdraw_inputs_check(payable.balances, mint, amount)
    } else {
        withdrawal_counters_check(chain_stats, payable, host)
    }
}

/// The payable after a withdrawal: one more withdrawal, and the full amount
/// asked for taken from the balance of the token.
pub open spec fn withdrawn(payable: PayableView, mint: [u8; 32], amount: u128) -> PayableView {
    PayableView {
        withdrawals_count: (payable.withdrawals_count + 1) as u64,
        balances: debited(payable.balances, mint, amount),
        ..payable
    }
}

/// The record of the next withdrawal.
pub open spec fn withdrawal_of(
    chain_stats: GlobalStats,
    payable: PayableView,
    host: User,
    mint: [u8; 32],
    amount: u128,
    timestamp: u64,
) -> Withdrawal {
    Withdrawal {
        payable_id: payable.id,
        host: host.owner_wallet,
        chain_count: (chain_stats.withdrawals_count + 1) as u64,
        payable_count: (payable.withdrawals_count + 1) as u64,
        host_count: (host.withdrawals_count + 1) as u64,
        timestamp,
        details: TokenAndAmount { token: mint, amount },
    }
}

/// How a committed withdrawal changes the entities it works on.
pub open spec fn withdrawal_committed(
    stats_before: GlobalStats,
    payable_before: PayableView,
    host_before: User,
    stats_after: GlobalStats,
    payable_after: PayableView,
    host_after: User,
    mint: [u8; 32],
    amount: u128,
) -> bool {
    &&& stats_after == (GlobalStats {
        withdrawals_count: (stats_before.withdrawals_count + 1) as u64,
        ..stats_before
    })
    &&& host_after == (User {
        withdrawals_count: (host_before.withdrawals_count + 1) as u64,
        ..host_before
    })
    &&& payable_after == withdrawn(payable_before, mint, amount)
}

/// Checks the amount and the token of a withdrawal against what the payable
/// holds.
pub fn check_withdraw_inputs(amount: u128, mint: &[u8; 32], payable: &Payable) -> (r: Result<
    (),
    ChainbillsError,
>)
    ensures
        r == withdraw_inputs_check(payable.balances@, *mint, amount),
{
    if amount == 0 {
        return Err(ChainbillsError::ZeroAmountSpecified);
    }
    match find_token(&payable.balances, mint) {
        Some(i) => {
            if payable.balances[i].amount < amount {
                Err(ChainbillsError::InsufficientWithdrawAmount)
            } else {
                Ok(())
            }
        },
        None => Err(ChainbillsError::NoBalanceForWithdrawalToken),
    }
}

/// Decides a host's request to withdraw without changing anything.
pub fn check_withdrawal(
    chain_stats: &GlobalStats,
    payable: &Payable,
    host: &User,
    mint: &[u8; 32],
    amount: u128,
) -> (r: Result<(), ChainbillsError>)
    ensures
        r == withdrawal_check(*chain_stats, payable@, *host, *mint, amount),
{
    if !same_bytes(&payable.host, &host.owner_wallet) {
        return Err(ChainbillsError::NotYourPayable);
    }
    check_withdraw_inputs(amount, mint, payable)?;
    if chain_stats.withdrawals_count == u64::MAX || payable.withdrawals_count == u64::MAX
        || host.withdrawals_count == u64::MAX {
        return Err(ChainbillsError::CounterOverflow);
    }
    Ok(())
}

/// Commits a withdrawal of `amount` of token `mint`: takes the amount from
/// the payable's balance, advances the chain's, the payable's and the
/// host's withdrawal count by one, and yields the record of the withdrawal.
/// A request that `state_update_check` rejects changes nothing.
pub fn update_state_for_withdrawal(
    amount: u128,
    mint: [u8; 32],
    global_stats: &mut GlobalStats,
    payable: &mut Payable,
    host: &mut User,
    timestamp: u64,
) -> (r: Result<Withdrawal, ChainbillsError>)
    ensures
        match r {
            Err(e) => {
                &&& state_update_check(*old(global_stats), old(payable)@, *old(host), mint, amount)
                    == Err::<(), ChainbillsError>(e)
                &&& *final(global_stats) == *old(global_stats)
                &&& *final(payable) == *old(payable)
                &&& *final(host) == *old(host)
            },
            Ok(withdrawal) => {
                &&& state_update_check(*old(global_stats), old(payable)@, *old(host), mint, amount)
                    is Ok
                &&& withdrawal_committed(
                    *old(global_stats),
                    old(payable)@,
                    *old(host),
                    *final(global_stats),
                    final(payable)@,
                    *final(host),
                    mint,
                    amount,
                )
                &&& withdrawal == withdrawal_of(
                    *old(global_stats),
                    old(payable)@,
                    *old(host),
                    mint,
                    amount,
                    timestamp,
                )
            },
        },
        r is Ok ==> balance_of(final(payable).balances@, mint) == Some(
            (amount_of(old(payable).balances@, mint) - amount) as u128,
        ),
        r is Ok ==> forall|other: [u8; 32]|
            other != mint ==> #[trigger] balance_of(final(payable).balances@, other)
                == balance_of(old(payable).balances@, other),
        old(payable)@.wf() ==> final(payable)@.wf(),
{
    match find_token(&payable.balances, &mint) {
        Some(i) => {
            if payable.balances[i].amount < amount {
                return Err(ChainbillsError::InsufficientWithdrawAmount);
            }
        },
        None => {
            return Err(ChainbillsError::NoBalanceForWithdrawalToken);
        },
    }
    let chain_count = global_stats.next_withdrawal()?;
    let payable_count = payable.next_withdrawal()?;
    let host_count = host.next_withdrawal()?;
    debit(&mut payable.balances, mint, amount)?;
    proof {
        lemma_debited(old(payable).balances@, mint, amount);
    }
    global_stats.withdrawals_count = chain_count;
    payable.withdrawals_count = payable_count;
    host.withdrawals_count = host_count;
    Ok(
        Withdrawal {
            payable_id: payable.id,
            host: host.owner_wallet,
            chain_count,
            payable_count,
            host_count,
            timestamp,
            details: TokenAndAmount { token: mint, amount },
        },
    )
}

/// Withdraws `amount` of the token `ctx.mint` from the payable to its host.
///
/// A request that `withdrawal_check` rejects changes nothing. One that it
/// accepts is committed as `update_state_for_withdrawal` says, and the
/// amount to transfer to the host is the amount asked for less the fee.
pub fn withdraw_handler(ctx: &mut Withdraw, amount: u128, timestamp: u64) -> (r: Result<
    WithdrawalOutcome,
    ChainbillsError,
>)
    ensures
        match r {
            Err(e) => {
                &&& withdrawal_check(
                    old(ctx).chain_stats,
                    old(ctx).payable@,
                    old(ctx).host,
                    old(ctx).mint,
                    amount,
                ) == Err::<(), ChainbillsError>(e)
                &&& *final(ctx) == *old(ctx)
            },
            Ok(outcome) => {
                &&& withdrawal_check(
                    old(ctx).chain_stats,
                    old(ctx).payable@,
                    old(ctx).host,
                    old(ctx).mint,
                    amount,
                ) is Ok
                &&& withdrawal_committed(
                    old(ctx).chain_stats,
                    old(ctx).payable@,
                    old(ctx).host,
                    final(ctx).chain_stats,
                    final(ctx).payable@,
                    final(ctx).host,
                    old(ctx).mint,
                    amount,
                )
                &&& final(ctx).mint == old(ctx).mint
                &&& outcome.withdrawal == withdrawal_of(
                    old(ctx).chain_stats,
                    old(ctx).payable@,
                    old(ctx).host,
                    old(ctx).mint,
                    amount,
                    timestamp,
                )
                &&& outcome.withdrawal_id@ == id_bytes(
                    EntityKind::Withdrawal,
                    old(ctx).host.chain_id,
                    outcome.withdrawal.chain_count,
                )
                &&& outcome.amount_minus_fees == amount_minus_fees(amount)
            },
        },
        r is Ok ==> balance_of(final(ctx).payable.balances@, old(ctx).mint) == Some(
            (amount_of(old(ctx).payable.balances@, old(ctx).mint) - amount) as u128,
        ),
        r is Ok ==> forall|other: [u8; 32]|
            other != old(ctx).mint ==> #[trigger] balance_of(final(ctx).payable.balances@, other)
                == balance_of(old(ctx).payable.balances@, other),
        old(ctx).payable@.wf() ==> final(ctx).payable@.wf(),
{
    if !same_bytes(&ctx.payable.host, &ctx.host.owner_wallet) {
        return Err(ChainbillsError::NotYourPayable);
    }
    check_withdraw_inputs(amount, &ctx.mint, &ctx.payable)?;
    let amount_minus_fees = net_of_fees(amount);
    let mint = ctx.mint;
    let withdrawal = update_state_for_withdrawal(
        amount,
        mint,
        &mut ctx.chain_stats,
        &mut ctx.payable,
        &mut ctx.host,
        timestamp,
    )?;
    let withdrawal_id = derive_id(
        EntityKind::Withdrawal,
        ctx.host.chain_id,
        withdrawal.chain_count,
    );
    Ok(WithdrawalOutcome { withdrawal_id, withdrawal, amount_minus_fees })
}

/// Whether a withdrawal asked for from another chain is carried out, and if
/// not, why. The checks come in this order, and the first that fails
/// decides: the message passes `message_check` as a withdrawal by `caller`,
/// who is the given host on the chain that sent the message; `host_count`
/// is the number of the host's next withdrawal; the message names the token
/// and the amount given; and the request passes `withdrawal_check`.
pub open spec fn received_withdrawal_check(
    seen: Set<ReceivedMessage>,
    vaa: AttestedMessage,
    chain_stats: GlobalStats,
    payable: PayableView,
    host: User,
    mint: [u8; 32],
    vaa_hash: [u8; 32],
    caller: [u8; 32],
    host_count: u64,
    amount: u128,
) -> Result<(), ChainbillsError> {
    let checked = message_check(
        seen,
        vaa,
        vaa_hash,
        ACTION_ID_WITHDRAW,
        caller,
        host.owner_wallet,
        host.chain_id,
        payable.id,
    );
    if checked is Err {
        checked
    } else if host_count != host.withdrawals_count + 1 {
        Err(ChainbillsError::WrongWithdrawalsHostCountProvided)
    } else if vaa.payload.details.token != mint {
        Err(ChainbillsError::NotMatchingTransactionToken)
    } else if vaa.payload.details.amount != amount {
        Err(ChainbillsError::NotMatchingTransactionAmount)
    } else {
        withdrawal_check(chain_stats, payable, host, mint, amount)
    }
}

/// Withdraws `amount` of the token `ctx.token_bridge_wrapped_mint` from the
/// payable to its host on another chain, as the attested message `ctx.vaa`
/// with hash `vaa_hash` asks.
///
/// A request that `received_withdrawal_check` rejects changes nothing. One
/// that it accepts is committed as `update_state_for_withdrawal` says,
/// under the identifier derived from the chain that sent the message and
/// the number that the withdrawal has there, and the message is recorded as
/// applied together with it, so that the same message is rejected from then
/// on.
pub fn withdraw_received_handler(
    ctx: &mut WithdrawReceived,
    vaa_hash: [u8; 32],
    caller: [u8; 32],
    host_count: u64,
    amount: u128,
    timestamp: u64,
) -> (r: Result<WithdrawalOutcome, ChainbillsError>)
    ensures
        match r {
            Err(e) => {
                &&& received_withdrawal_check(
                    old(ctx).wormhole_received@,
                    old(ctx).vaa,
                    old(ctx).chain_stats,
                    old(ctx).payable@,
                    old(ctx).host,
                    old(ctx).token_bridge_wrapped_mint,
                    vaa_hash,
                    caller,
                    host_count,
                    amount,
                ) == Err::<(), ChainbillsError>(e)
                &&& *final(ctx) == *old(ctx)
            },
            Ok(outcome) => {
                &&& received_withdrawal_check(
                    old(ctx).wormhole_received@,
                    old(ctx).vaa,
                    old(ctx).chain_stats,
                    old(ctx).payable@,
                    old(ctx).host,
                    old(ctx).token_bridge_wrapped_mint,
                    vaa_hash,
                    caller,
                    host_count,
                    amount,
                ) is Ok
                &&& withdrawal_committed(
                    old(ctx).chain_stats,
                    old(ctx).payable@,
                    old(ctx).host,
                    final(ctx).chain_stats,
                    final(ctx).payable@,
                    final(ctx).host,
                    old(ctx).token_bridge_wrapped_mint,
                    amount,
                )
                &&& final(ctx).wormhole_received@ == old(ctx).wormhole_received@.insert(
                    ReceivedMessage { emitter_chain: old(ctx).vaa.emitter_chain, vaa_hash },
                )
                &&& final(ctx).vaa == old(ctx).vaa
                &&& final(ctx).token_bridge_wrapped_mint == old(ctx).token_bridge_wrapped_mint
                &&& outcome.withdrawal == withdrawal_of(
                    old(ctx).chain_stats,
                    old(ctx).payable@,
                    old(ctx).host,
                    old(ctx).token_bridge_wrapped_mint,
                    amount,
                    timestamp,
                )
                &&& outcome.withdrawal_id@ == id_bytes(
                    EntityKind::Withdrawal,
                    old(ctx).vaa.emitter_chain,
                    old(ctx).vaa.payload.chain_count,
                )
                &&& outcome.amount_minus_fees == amount_minus_fees(amount)
            },
        },
        old(ctx).payable@.wf() ==> final(ctx).payable@.wf(),
{
    check_message(
        &ctx.wormhole_received,
        &ctx.vaa,
        &vaa_hash,
        ACTION_ID_WITHDRAW,
        &caller,
        &ctx.host.owner_wallet,
        ctx.host.chain_id,
        &ctx.payable.id,
    )?;
    if ctx.host.withdrawals_count == u64::MAX || host_count != ctx.host.withdrawals_count + 1 {
        return Err(ChainbillsError::WrongWithdrawalsHostCountProvided);
    }
    if !same_bytes(&ctx.vaa.payload.details.token, &ctx.token_bridge_wrapped_mint) {
        return Err(ChainbillsError::NotMatchingTransactionToken);
    }
    if ctx.vaa.payload.details.amount != amount {
        return Err(ChainbillsError::NotMatchingTransactionAmount);
    }
    if !same_bytes(&ctx.payable.host, &ctx.host.owner_wallet) {
        return Err(ChainbillsError::NotYourPayable);
    }
    let mint = ctx.token_bridge_wrapped_mint;
    check_withdraw_inputs(amount, &mint, &ctx.payable)?;
    let amount_minus_fees = net_of_fees(amount);
    let withdrawal = update_state_for_withdrawal(
        amount,
        mint,
        &mut ctx.chain_stats,
        &mut ctx.payable,
        &mut ctx.host,
        timestamp,
    )?;
    ctx.wormhole_received.remember(ctx.vaa.emitter_chain, vaa_hash);
    let withdrawal_id = derive_id(
        EntityKind::Withdrawal,
        ctx.vaa.emitter_chain,
        ctx.vaa.payload.chain_count,
    );
    Ok(WithdrawalOutcome { withdrawal_id, withdrawal, amount_minus_fees })
}

} // verus!
