//! The payment recorder: checks a payment against the payable it is for and
//! commits it to the counters, the balance and the two payment records.

use crate::counter::{next_count, CounterKey, CounterRegistry};
use crate::error::ChainbillsError;
use crate::identity::{derive_id, id_bytes, EntityKind};
use crate::message::{
    check_message, message_check, AttestedMessage, ReceivedMessage, ReplayGuard, ACTION_ID_PAY,
};
use crate::state::{GlobalStats, Payable, PayablePayment, PayableView, User, UserPayment};
use crate::tokens::{
    accepts, amount_of, balance_of, credit, credited, held_amount, is_accepted, lemma_credited,
    TokenAndAmount,
};
use vstd::prelude::*;

verus! {

/// What a recorded payment leaves behind besides the changed entities.
#[derive(Clone, Copy, Debug, PartialEq, Eq)]
pub struct PaymentRecords {
    /// The identifier under which both records are kept.
    pub payment_id: [u8; 32],
    pub user_payment: UserPayment,
    pub payable_payment: PayablePayment,
}

/// Whether a payable takes a payment, and if not, why. The checks come in
/// this order, and the first that fails decides.
pub open spec fn payment_check(
    payable: PayableView,
    token_supported: bool,
    token: [u8; 32],
    amount: u128,
) -> Result<(), ChainbillsError> {
    if payable.is_closed {
        Err(ChainbillsError::PayableIsClosed)
    } else if amount == 0 {
        Err(ChainbillsError::ZeroAmountSpecified)
    } else if !token_supported {
        Err(ChainbillsError::InvalidToken)
    } else if !accepts(payable.allowed_tokens_and_amounts, token, amount) {
        Err(ChainbillsError::MatchingTokenAndAmountNotFound)
    } else {
        Ok(())
    }
}

/// Whether a payment is recorded, and if not, why: the checks of
/// `payment_check`, then the four counters, then the balance.
pub open spec fn payment_outcome(
    chain_stats: GlobalStats,
    payer: User,
    payable: PayableView,
    local_chain_count: u64,
    token_supported: bool,
    token: [u8; 32],
    amount: u128,
) -> Result<(), ChainbillsError> {
    if payment_check(payable, token_supported, token, amount) is Err {
        payment_check(payable, token_supported, token, amount)
    } else if chain_stats.payments_count == u64::MAX || payer.payments_count == u64::MAX
        || payable.payments_count == u64::MAX || local_chain_count == u64::MAX {
        Err(ChainbillsError::CounterOverflow)
    } else if amount_of(payable.balances, token) + amount > u128::MAX {
        Err(ChainbillsError::BalanceOverflow)
    } else {
        Ok(())
    }
}

/// The counter of the payments that came to a payable from one chain.
pub open spec fn per_chain_key(payable_id: [u8; 32], chain_id: u16) -> CounterKey {
    CounterKey { scope: payable_id, chain_id }
}

/// The payer's record of its next payment.
pub open spec fn user_payment_of(
    chain_stats: GlobalStats,
    payer: User,
    payable: PayableView,
    token: [u8; 32],
    amount: u128,
    chain_id: u16,
    timestamp: u64,
) -> UserPayment {
    UserPayment {
        payable_id: payable.id,
        payer: payer.owner_wallet,
        payable_chain_id: chain_id,
        chain_count: (chain_stats.payments_count + 1) as u64,
        payer_count: (payer.payments_count + 1) as u64,
        payable_count: (payable.payments_count + 1) as u64,
        timestamp,
        details: TokenAndAmount { token, amount },
    }
}

/// The payable's record of its next payment.
pub open spec fn payable_payment_of(
    payer: User,
    payable: PayableView,
    local_chain_count: u64,
    token: [u8; 32],
    amount: u128,
    timestamp: u64,
) -> PayablePayment {
    PayablePayment {
        payable_id: payable.id,
        payer: payer.owner_wallet,
        payer_chain_id: payer.chain_id,
        local_chain_count: (local_chain_count + 1) as u64,
        payable_count: (payable.payments_count + 1) as u64,
        payer_count: (payer.payments_count + 1) as u64,
        timestamp,
        details: TokenAndAmount { token, amount },
    }
}

/// The payable after a payment was recorded: one more payment, and the
/// amount added to the balance of the token.
pub open spec fn paid(payable: PayableView, token: [u8; 32], amount: u128) -> PayableView {
    PayableView {
        payments_count: (payable.payments_count + 1) as u64,
        balances: credited(payable.balances, token, amount),
        ..payable
    }
}

/// Checks a payment against its payable without recording anything.
pub fn check_payment_inputs(
    payable: &Payable,
    token_supported: bool,
    token: &[u8; 32],
    amount: u128,
) -> (r: Result<(), ChainbillsError>)
    ensures
        r == payment_check(payable@, token_supported, *token, amount),
{
    if payable.is_closed {
        return Err(ChainbillsError::PayableIsClosed);
    }
    if amount == 0 {
        return Err(ChainbillsError::ZeroAmountSpecified);
    }
    if !token_supported {
        return Err(ChainbillsError::InvalidToken);
    }
    if !is_accepted(&payable.allowed_tokens_and_amounts, token, amount) {
        return Err(ChainbillsError::MatchingTokenAndAmountNotFound);
    }
    Ok(())
}

/// Decides a payment without recording anything.
pub fn check_payment(
    chain_stats: &GlobalStats,
    payer: &User,
    payable: &Payable,
    counters: &CounterRegistry,
    token_supported: bool,
    token: &[u8; 32],
    amount: u128,
) -> (r: Result<(), ChainbillsError>)
    ensures
        r == payment_outcome(
            *chain_stats,
            *payer,
            payable@,
            counters.value(per_chain_key(payable.id, payer.chain_id)),
            token_supported,
            *token,
            amount,
        ),
{
    check_payment_inputs(payable, token_supported, token, amount)?;
    let key = CounterKey { scope: payable.id, chain_id: payer.chain_id };
    if chain_stats.payments_count == u64::MAX || payer.payments_count == u64::MAX
        || payable.payments_count == u64::MAX || counters.current(&key) == u64::MAX {
        return Err(ChainbillsError::CounterOverflow);
    }
    if held_amount(&payable.balances, token).checked_add(amount).is_none() {
        return Err(ChainbillsError::BalanceOverflow);
    }
    Ok(())
}

/// Records a payment of `amount` in `token` by `payer` to `payable`, which
/// lives on chain `chain_id`.
///
/// A payment that `payment_outcome` rejects changes nothing. One that it
/// accepts advances the chain's, the payer's and the payable's payment
/// count and the count of payments from the payer's chain to the payable,
/// each by one, adds the amount to the payable's balance in the token, and
/// yields the two records with the new counts and the identifier derived
/// from the payer's chain and the chain-wide count.
pub fn record_payment(
    chain_stats: &mut GlobalStats,
    payer: &mut User,
    payable: &mut Payable,
    counters: &mut CounterRegistry,
    token_supported: bool,
    token: [u8; 32],
    amount: u128,
    chain_id: u16,
    timestamp: u64,
) -> (r: Result<PaymentRecords, ChainbillsError>)
    ensures
        match r {
            Err(e) => {
                &&& payment_outcome(
                    *old(chain_stats),
                    *old(payer),
                    old(payable)@,
                    old(counters).value(per_chain_key(old(payable).id, old(payer).chain_id)),
                    token_supported,
                    token,
                    amount,
                ) == Err::<(), ChainbillsError>(e)
                &&& *final(chain_stats) == *old(chain_stats)
                &&& *final(payer) == *old(payer)
                &&& *final(payable) == *old(payable)
                &&& *final(counters) == *old(counters)
            },
            Ok(records) => {
                let key = per_chain_key(old(payable).id, old(payer).chain_id);
                &&& payment_outcome(
                    *old(chain_stats),
                    *old(payer),
                    old(payable)@,
                    old(counters).value(key),
                    token_supported,
                    token,
                    amount,
                ) is Ok
                &&& *final(chain_stats) == (GlobalStats {
                    payments_count: (old(chain_stats).payments_count + 1) as u64,
                    ..*old(chain_stats)
                })
                &&& *final(payer) == (User {
                    payments_count: (old(payer).payments_count + 1) as u64,
                    ..*old(payer)
                })
                &&& final(payable)@ == paid(old(payable)@, token, amount)
                &&& final(counters).value(key) == old(counters).value(key) + 1
                &&& forall|other: CounterKey|
                    other != key ==> #[trigger] final(counters).value(other) == old(
                        counters,
                    ).value(other)
                &&& records.payment_id@ == id_bytes(
                    EntityKind::Payment,
                    old(payer).chain_id,
                    final(chain_stats).payments_count,
                )
                &&& records.user_payment == user_payment_of(
                    *old(chain_stats),
                    *old(payer),
                    old(payable)@,
                    token,
                    amount,
                    chain_id,
                    timestamp,
                )
                &&& records.payable_payment == payable_payment_of(
                    *old(payer),
                    old(payable)@,
                    old(counters).value(key),
                    token,
                    amount,
                    timestamp,
                )
            },
        },
        // The balance of the token grows by exactly the amount, and no other
        // balance moves.
        r is Ok ==> balance_of(final(payable).balances@, token) == Some(
            (amount_of(old(payable).balances@, token) + amount) as u128,
        ),
        r is Ok ==> forall|other: [u8; 32]|
            other != token ==> #[trigger] balance_of(final(payable).balances@, other)
                == balance_of(old(payable).balances@, other),
        old(payable)@.wf() ==> final(payable)@.wf(),
{
    check_payment_inputs(payable, token_supported, &token, amount)?;
    let key = CounterKey { scope: payable.id, chain_id: payer.chain_id };
    let chain_count = chain_stats.next_payment()?;
    let payer_count = payer.next_payment()?;
    let payable_count = payable.next_payment()?;
    next_count(counters.current(&key))?;
    credit(&mut payable.balances, token, amount)?;
    proof {
        lemma_credited(old(payable).balances@, token, amount);
    }
    // Every refusal lies behind: the counter was found able to advance.
    let local_chain_count = counters.next(key)?;
    chain_stats.payments_count = chain_count;
    payer.payments_count = payer_count;
    payable.payments_count = payable_count;
    let details = TokenAndAmount { token, amount };
    let payment_id = derive_id(EntityKind::Payment, payer.chain_id, chain_count);
    let user_payment = UserPayment {
        payable_id: payable.id,
        payer: payer.owner_wallet,
        payable_chain_id: chain_id,
        chain_count,
        payer_count,
        payable_count,
        timestamp,
        details,
    };
    let payable_payment = PayablePayment {
        payable_id: payable.id,
        payer: payer.owner_wallet,
        payer_chain_id: payer.chain_id,
        local_chain_count,
        payable_count,
        payer_count,
        timestamp,
        details,
    };
    Ok(PaymentRecords { payment_id, user_payment, payable_payment })
}

/// Whether a payment asked for from another chain is recorded, and if not,
/// why: first the message must pass `message_check` as a payment by
/// `caller`, who is the given payer on the chain that sent the message,
/// to the given payable; then the payment that the message names must
/// pass `payment_outcome`.
pub open spec fn received_payment_check(
    seen: Set<ReceivedMessage>,
    vaa: AttestedMessage,
    vaa_hash: [u8; 32],
    caller: [u8; 32],
    chain_stats: GlobalStats,
    payer: User,
    payable: PayableView,
    local_chain_count: u64,
    token_supported: bool,
) -> Result<(), ChainbillsError> {
    let checked = message_check(
        seen,
        vaa,
        vaa_hash,
        ACTION_ID_PAY,
        caller,
        payer.owner_wallet,
        payer.chain_id,
        payable.id,
    );
    if checked is Err {
        checked
    } else {
        payment_outcome(
            chain_stats,
            payer,
            payable,
            local_chain_count,
            token_supported,
            vaa.payload.details.token,
            vaa.payload.details.amount,
        )
    }
}

/// Records the payment that the attested message `vaa` with hash `vaa_hash`
/// asks for: a payment by `caller`, from the chain that sent the message,
/// of the token and amount that the message names.
///
/// A request that `received_payment_check` rejects changes nothing. One
/// that it accepts is recorded as `record_payment` says, but under the
/// identifier derived from the chain that sent the message and the number
/// that the payment has there, so that both chains know the payment by the
/// same identifier. The message is recorded as applied together with it,
/// so that the same message is rejected from then on.
pub fn record_received_payment(
    guard: &mut ReplayGuard,
    vaa: &AttestedMessage,
    vaa_hash: [u8; 32],
    caller: [u8; 32],
    chain_stats: &mut GlobalStats,
    payer: &mut User,
    payable: &mut Payable,
    counters: &mut CounterRegistry,
    token_supported: bool,
    chain_id: u16,
    timestamp: u64,
) -> (r: Result<PaymentRecords, ChainbillsError>)
    ensures
        match r {
            Err(e) => {
                &&& received_payment_check(
                    old(guard)@,
                    *vaa,
                    vaa_hash,
                    caller,
                    *old(chain_stats),
                    *old(payer),
                    old(payable)@,
                    old(counters).value(per_chain_key(old(payable).id, old(payer).chain_id)),
                    token_supported,
                ) == Err::<(), ChainbillsError>(e)
                &&& *final(guard) == *old(guard)
                &&& *final(chain_stats) == *old(chain_stats)
                &&& *final(payer) == *old(payer)
                &&& *final(payable) == *old(payable)
                &&& *final(counters) == *old(counters)
            },
            Ok(records) => {
                let key = per_chain_key(old(payable).id, old(payer).chain_id);
                let token = vaa.payload.details.token;
                let amount = vaa.payload.details.amount;
                &&& received_payment_check(
                    old(guard)@,
                    *vaa,
                    vaa_hash,
                    caller,
                    *old(chain_stats),
                    *old(payer),
                    old(payable)@,
                    old(counters).value(key),
                    token_supported,
                ) is Ok
                &&& final(guard)@ == old(guard)@.insert(
                    ReceivedMessage { emitter_chain: vaa.emitter_chain, vaa_hash },
                )
                &&& *final(chain_stats) == (GlobalStats {
                    payments_count: (old(chain_stats).payments_count + 1) as u64,
                    ..*old(chain_stats)
                })
                &&& *final(payer) == (User {
                    payments_count: (old(payer).payments_count + 1) as u64,
                    ..*old(payer)
                })
                &&& final(payable)@ == paid(old(payable)@, token, amount)
                &&& final(counters).value(key) == old(counters).value(key) + 1
                &&& forall|other: CounterKey|
                    other != key ==> #[trigger] final(counters).value(other) == old(
                        counters,
                    ).value(other)
                &&& records.payment_id@ == id_bytes(
                    EntityKind::Payment,
                    vaa.emitter_chain,
                    vaa.payload.chain_count,
                )
                &&& records.user_payment == user_payment_of(
                    *old(chain_stats),
                    *old(payer),
                    old(payable)@,
                    token,
                    amount,
                    chain_id,
                    timestamp,
                )
                &&& records.payable_payment == payable_payment_of(
                    *old(payer),
                    old(payable)@,
                    old(counters).value(key),
                    token,
                    amount,
                    timestamp,
                )
            },
        },
        old(payable)@.wf() ==> final(payable)@.wf(),
{
    check_message(
        guard,
        vaa,
        &vaa_hash,
        ACTION_ID_PAY,
        &caller,
        &payer.owner_wallet,
        payer.chain_id,
        &payable.id,
    )?;
    let token = vaa.payload.details.token;
    let amount = vaa.payload.details.amount;
    check_payment(chain_stats, payer, payable, counters, token_supported, &token, amount)?;
    let records = record_payment(
        chain_stats,
        payer,
        payable,
        counters,
        token_supported,
        token,
        amount,
        chain_id,
        timestamp,
    )?;
    guard.remember(vaa.emitter_chain, vaa_hash);
    Ok(
        PaymentRecords {
            payment_id: derive_id(EntityKind::Payment, vaa.emitter_chain, vaa.payload.chain_count),
            ..records
        },
    )
}

} // verus!
