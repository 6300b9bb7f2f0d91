//! What holds of the ledger across its operations.

use crate::contract::{
    paid_total, payable_payment_is_recorded, was_paid_in, withdrawn_total, Chainbills,
};
use crate::counter::next_of;
use crate::error::ChainbillsError;
use crate::hex::id_of_hex;
use crate::message::{
    message_check, message_state, AttestedMessage, MessageState, ReceivedMessage,
};
use crate::payment::{payment_check, payment_outcome, received_payment_check};
use crate::payments::{lemma_payment_keeps_wf, ExecCtx, Response, TransactionInfoMessage};
use crate::state::{GlobalStats, PayableView, User};
use crate::tokens::{accepts, amount_of, balance_of, holds_token};
use crate::withdraw::{amount_minus_fees, received_withdrawal_check, withdrawal_check};
use vstd::prelude::*;

verus! {

/// A counter that is asked again and again gives out consecutive numbers:
/// no number twice, none left out, each larger than the one before.
pub proof fn lemma_counter_gives_consecutive_numbers(counts: Seq<u64>, i: int, j: int)
    requires
        forall|n: int|
            0 <= n < counts.len() - 1 ==> #[trigger] next_of(counts[n]) == Ok::<
                u64,
                ChainbillsError,
            >(counts[n + 1]),
        0 <= i <= j < counts.len(),
    ensures
        counts[j] == counts[i] + (j - i),
        i < j ==> counts[i] < counts[j],
    decreases j - i,
{
    if i < j {
        lemma_counter_gives_consecutive_numbers(counts, i, j - 1);
        assert(next_of(counts[j - 1]) == Ok::<u64, ChainbillsError>(counts[j - 1 + 1]));
    }
}

/// A payment to a closed payable is rejected with `PayableIsClosed`,
/// whatever else holds of it.
pub proof fn lemma_closed_payable_takes_no_payment(
    chain_stats: GlobalStats,
    payer: User,
    payable: PayableView,
    local_chain_count: u64,
    token_supported: bool,
    token: [u8; 32],
    amount: u128,
)
    requires
        payable.is_closed,
    ensures
        payment_outcome(
            chain_stats,
            payer,
            payable,
            local_chain_count,
            token_supported,
            token,
            amount,
        ) == Err::<(), ChainbillsError>(ChainbillsError::PayableIsClosed),
{
}

/// A payment to a closed payable of the ledger is rejected with
/// `PayableIsClosed`, whoever pays, whatever token and amount, and
/// whatever funds come along.
pub proof fn lemma_ledger_takes_no_payment_to_closed_payable(
    ledger: Chainbills,
    ctx: ExecCtx,
    msg: TransactionInfoMessage,
)
    requires
        id_of_hex(msg.payable_id@) matches Ok(Some(id)) && ledger.payable_index(id) matches Some(
            i,
        ) && ledger.payables@[i].payable.is_closed,
    ensures
        ledger.pay_check(ctx, msg) == Err::<(), ChainbillsError>(
            ChainbillsError::PayableIsClosed,
        ),
{
}

/// An open payable that lists what it accepts rejects a payment of a
/// supported token and an amount above zero that it does not list, with
/// `MatchingTokenAndAmountNotFound`.
pub proof fn lemma_unlisted_payment_is_rejected(
    chain_stats: GlobalStats,
    payer: User,
    payable: PayableView,
    local_chain_count: u64,
    token: [u8; 32],
    amount: u128,
)
    requires
        !payable.is_closed,
        amount > 0,
        payable.allowed_tokens_and_amounts.len() > 0,
        !accepts(payable.allowed_tokens_and_amounts, token, amount),
    ensures
        payment_outcome(chain_stats, payer, payable, local_chain_count, true, token, amount)
            == Err::<(), ChainbillsError>(ChainbillsError::MatchingTokenAndAmountNotFound),
{
}

/// A payable that lists nothing never rejects a payment for not being
/// listed, and if it is open it takes every supported token in every amount
/// above zero.
pub proof fn lemma_payable_without_list_accepts_anything(
    payable: PayableView,
    token_supported: bool,
    token: [u8; 32],
    amount: u128,
)
    requires
        payable.allowed_tokens_and_amounts.len() == 0,
    ensures
        payment_check(payable, token_supported, token, amount) != Err::<(), ChainbillsError>(
            ChainbillsError::MatchingTokenAndAmountNotFound,
        ),
        !payable.is_closed && amount > 0 && token_supported ==> payment_check(
            payable,
            token_supported,
            token,
            amount,
        ) is Ok,
{
}

/// A host that asks for more of a token than its payable holds of it is
/// refused with `InsufficientWithdrawAmount`.
pub proof fn lemma_overdrawing_is_refused(
    chain_stats: GlobalStats,
    payable: PayableView,
    host: User,
    mint: [u8; 32],
    amount: u128,
)
    requires
        payable.host == host.owner_wallet,
        balance_of(payable.balances, mint) matches Some(held) && amount > held,
    ensures
        withdrawal_check(chain_stats, payable, host, mint, amount) == Err::<(), ChainbillsError>(
            ChainbillsError::InsufficientWithdrawAmount,
        ),
{
}

/// What reaches the host is the amount less the fee of two hundredths,
/// the fee rounded up to a whole unit.
pub proof fn lemma_fee_is_two_hundredths_rounded_up(amount: u128)
    ensures
        amount_minus_fees(amount) == amount - (amount * 2 + 99) / 100,
{
    let hundreds = amount / 100;
    let rest = amount % 100;
    assert(amount == hundreds * 100 + rest);
    assert(amount * 98 == (hundreds * 98) * 100 + rest * 98);
    assert(amount * 2 + 99 == (hundreds * 2) * 100 + (rest * 2 + 99));
    assert(amount * 98 / 100 == hundreds * 98 + rest * 98 / 100);
    assert((amount * 2 + 99) / 100 == hundreds * 2 + (rest * 2 + 99) / 100);
    assert(rest * 98 / 100 == rest - (rest * 2 + 99) / 100);
}

/// Of an amount that fifty divides, what reaches the host is the amount
/// less two hundredths of it, rounded down.
pub proof fn lemma_fee_is_two_hundredths(amount: u128)
    requires
        amount % 50 == 0,
    ensures
        amount_minus_fees(amount) == amount - amount * 2 / 100,
{
    let halves = amount / 50;
    assert(amount == halves * 50);
    assert(amount * 98 == (halves * 49) * 100);
    assert(amount * 2 == halves * 100);
}

/// A message that was applied is rejected with `DuplicateMessage` when it
/// comes again, whatever it is then checked against.
pub proof fn lemma_applied_message_is_rejected(
    seen: Set<ReceivedMessage>,
    message: AttestedMessage,
    vaa_hash: [u8; 32],
    expected_action: u8,
    caller: [u8; 32],
    expected_wallet: [u8; 32],
    expected_chain: u16,
    payable_id: [u8; 32],
)
    ensures
        message_check(
            seen.insert(ReceivedMessage { emitter_chain: message.emitter_chain, vaa_hash }),
            message,
            vaa_hash,
            expected_action,
            caller,
            expected_wallet,
            expected_chain,
            payable_id,
        ) == Err::<(), ChainbillsError>(ChainbillsError::DuplicateMessage),
{
}

/// A message goes one way only: once applied it stays applied, whatever
/// other messages are applied after it and whatever it is checked against.
pub proof fn lemma_applied_message_stays_applied(
    seen: Set<ReceivedMessage>,
    later: Set<ReceivedMessage>,
    message: AttestedMessage,
    vaa_hash: [u8; 32],
    expected_action: u8,
    caller: [u8; 32],
    expected_wallet: [u8; 32],
    expected_chain: u16,
    payable_id: [u8; 32],
)
    requires
        seen.contains(ReceivedMessage { emitter_chain: message.emitter_chain, vaa_hash }),
        seen.subset_of(later),
    ensures
        message_state(
            later,
            message,
            vaa_hash,
            expected_action,
            caller,
            expected_wallet,
            expected_chain,
            payable_id,
        ) == MessageState::Applied,
{
}

/// A withdrawal that an attested message asked for cannot be had twice:
/// once the message is among those applied, the same message is rejected
/// with `DuplicateMessage`, whatever the state of the entities then is.
pub proof fn lemma_replayed_withdrawal_is_rejected(
    seen: Set<ReceivedMessage>,
    vaa: AttestedMessage,
    vaa_hash: [u8; 32],
    chain_stats: GlobalStats,
    payable: PayableView,
    host: User,
    mint: [u8; 32],
    caller: [u8; 32],
    host_count: u64,
    amount: u128,
)
    ensures
        received_withdrawal_check(
            seen.insert(ReceivedMessage { emitter_chain: vaa.emitter_chain, vaa_hash }),
            vaa,
            chain_stats,
            payable,
            host,
            mint,
            vaa_hash,
            caller,
            host_count,
            amount,
        ) == Err::<(), ChainbillsError>(ChainbillsError::DuplicateMessage),
{
}

/// A payment that an attested message asked for cannot be had twice: once
/// the message is among those applied, the same message is rejected with
/// `DuplicateMessage`, whatever the state of the entities then is.
pub proof fn lemma_replayed_payment_is_rejected(
    seen: Set<ReceivedMessage>,
    vaa: AttestedMessage,
    vaa_hash: [u8; 32],
    caller: [u8; 32],
    chain_stats: GlobalStats,
    payer: User,
    payable: PayableView,
    local_chain_count: u64,
    token_supported: bool,
)
    ensures
        received_payment_check(
            seen.insert(ReceivedMessage { emitter_chain: vaa.emitter_chain, vaa_hash }),
            vaa,
            vaa_hash,
            caller,
            chain_stats,
            payer,
            payable,
            local_chain_count,
            token_supported,
        ) == Err::<(), ChainbillsError>(ChainbillsError::DuplicateMessage),
{
}

/// In a well-formed ledger nothing is counted twice and nothing is lost:
/// what a payable holds in a token and what was withdrawn from it in that
/// token add up to what was paid to it in that token. So no more is ever
/// withdrawn than was paid.
pub proof fn lemma_books_balance(ledger: Chainbills, i: int, token: [u8; 32])
    requires
        ledger.wf(),
        0 <= i < ledger.payables@.len(),
    ensures
        amount_of(ledger.payables@[i].payable.balances@, token) + withdrawn_total(
            ledger.withdrawals@,
            ledger.payables@[i].payable.id,
            token,
        ) == paid_total(ledger.payments@, ledger.payables@[i].payable.id, token),
        withdrawn_total(ledger.withdrawals@, ledger.payables@[i].payable.id, token) <= paid_total(
            ledger.payments@,
            ledger.payables@[i].payable.id,
            token,
        ),
        holds_token(ledger.payables@[i].payable.balances@, token) <==> was_paid_in(
            ledger.payments@,
            ledger.payables@[i].payable.id,
            token,
        ),
{
    assert(ledger.payable_is_consistent(i));
}

/// Whether `after` is what a payment that `ctx` and `msg` describe, to the
/// payable at position `i`, makes of the ledger `before`.
pub open spec fn payment_into(
    before: Chainbills,
    after: Chainbills,
    i: int,
    ctx: ExecCtx,
    msg: TransactionInfoMessage,
    response: Response,
) -> bool {
    &&& before.pay_check(ctx, msg) is Ok
    &&& before.payment_applied(after, ctx, msg, response)
    &&& before.payable_index(id_of_hex(msg.payable_id@)->Ok_0->0) == Some(i)
}

/// Whether `after` is what some recorded payment to the payable at
/// position `i` makes of the ledger `before`.
pub open spec fn is_payment_into(before: Chainbills, after: Chainbills, i: int) -> bool {
    exists|ctx: ExecCtx, msg: TransactionInfoMessage, response: Response|
        payment_into(before, after, i, ctx, msg, response)
}

/// After any number of payments to one payable, one after the other, the
/// payable counts as many payments more as were made, lists as many
/// payments as it counts, and the payment it lists at each place is on
/// record under the number of that place: 1, 2, 3 and so on.
pub proof fn lemma_successive_payments_are_numbered(ledgers: Seq<Chainbills>, i: int)
    requires
        ledgers.len() >= 1,
        ledgers[0].wf(),
        0 <= i < ledgers[0].payables@.len(),
        forall|n: int|
            0 <= n < ledgers.len() - 1 ==> #[trigger] is_payment_into(
                ledgers[n],
                ledgers[n + 1],
                i,
            ),
    ensures
        ledgers.last().wf(),
        i < ledgers.last().payables@.len(),
        ledgers.last().payables@[i].payable.payments_count
            == ledgers[0].payables@[i].payable.payments_count + (ledgers.len() - 1),
        ledgers.last().payables@[i].payment_ids@.len()
            == ledgers.last().payables@[i].payable.payments_count,
        forall|k: int|
            0 <= k < ledgers.last().payables@[i].payment_ids@.len()
                ==> payable_payment_is_recorded(
                ledgers.last().payments@,
                ledgers.last().payables@[i],
                k,
            ),
    decreases ledgers.len(),
{
    if ledgers.len() == 1 {
        assert(ledgers[0].payable_is_consistent(i));
    } else {
        let earlier = ledgers.drop_last();
        assert forall|n: int| 0 <= n < earlier.len() - 1 implies #[trigger] is_payment_into(
            earlier[n],
            earlier[n + 1],
            i,
        ) by {
            assert(is_payment_into(ledgers[n], ledgers[n + 1], i));
        }
        lemma_successive_payments_are_numbered(earlier, i);
        let last_but_one = ledgers.len() - 2;
        let before = ledgers[last_but_one];
        let after = ledgers[last_but_one + 1];
        assert(before == earlier.last());
        assert(is_payment_into(before, after, i));
        let (ctx, msg, response) = choose|
            ctx: ExecCtx,
            msg: TransactionInfoMessage,
            response: Response,
        | payment_into(before, after, i, ctx, msg, response);
        lemma_payment_keeps_wf(before, after, ctx, msg, response);
        assert(after.payable_is_consistent(i));
    }
}

} // verus!
