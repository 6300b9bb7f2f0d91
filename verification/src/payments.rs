//! Paying into a payable of the ledger, and looking payments up.

use crate::contract::{
    has_payable_id, has_wallet, lemma_paid_total_grows, paid_total, payable_payment_is_recorded,
    user_payment_is_recorded, was_paid_in, withdrawn_total, Chainbills, UserEntry,
};
use crate::counter::CounterKey;
use crate::error::ChainbillsError;
use crate::hex::{hex_encoded, id_of_hex, parse_id, show_id};
use crate::identity::{id_bytes, lemma_derived_ids_are_distinct, same_bytes, EntityKind};
use crate::payment::{
    check_payment, check_payment_inputs, paid, payable_payment_of, payment_check, payment_outcome,
    per_chain_key, record_payment, user_payment_of, PaymentRecords,
};
use crate::search::{lemma_first_index, lemma_first_index_push, lemma_first_index_update};
use crate::state::{GlobalStats, PayablePayment, User, UserPayment};
use crate::tokens::{amount_of, balance_of, credited, holds_token, lemma_credited};
use cosmwasm_std::{Addr, MessageInfo, Uint128};
use cw_utils::PaymentError;
use vstd::prelude::*;

verus! {

/// An amount of a native token, by its denomination.
#[derive(Debug)]
pub struct Coin {
    pub denom: String,
    pub amount: u128,
}

/// What a request to change the ledger comes with.
#[derive(Debug)]
pub struct ExecCtx {
    /// The wallet that sent the request.
    pub sender: [u8; 32],
    /// The address of the ledger itself, which also stands for the chain's
    /// native token.
    pub contract_address: [u8; 32],
    /// The native tokens sent along with the request.
    pub funds: Vec<Coin>,
    /// The time of the block that holds the request, in seconds.
    pub block_time: u64,
}

/// A request to pay `amount` of `token` to the payable with the given
/// identifier, in hexadecimal.
#[derive(Debug)]
pub struct TransactionInfoMessage {
    pub payable_id: String,
    pub token: [u8; 32],
    pub amount: u128,
}

/// A request for the identifier of the `count`-th payment of the entity
/// that `reference` names.
#[derive(Debug)]
pub struct FetchIdMessage {
    pub reference: String,
    pub count: u64,
}

/// An identifier, in hexadecimal.
#[derive(Debug)]
pub struct IdMessage {
    pub id: String,
}

/// An order to move `amount` of a token from `owner` to `recipient`.
#[derive(Clone, Copy, Debug, PartialEq, Eq)]
pub struct Cw20TransferFrom {
    pub token: [u8; 32],
    pub owner: [u8; 32],
    pub recipient: [u8; 32],
    pub amount: u128,
}

/// What a recorded payment answers with.
#[derive(Clone, Copy, Debug, PartialEq, Eq)]
pub struct Response {
    /// The transfer to carry out for a payment in a token other than the
    /// native one.
    pub transfer: Option<Cw20TransferFrom>,
    /// The payer as first entered, when this was its first contact with
    /// the ledger.
    pub initialized_user: Option<User>,
    pub records: PaymentRecords,
}

/// `PaymentError` of cw_utils, which `must_pay` fails with. Nothing is
/// read from it.
#[verifier::external_type_specification]
#[verifier::external_body]
pub struct ExPaymentError(PaymentError);

/// What was sent in the given denomination, when the funds are exactly one
/// coin, of that denomination, and not of amount zero.
pub open spec fn paid_in(funds: Seq<Coin>, denom: Seq<char>) -> Option<u128> {
    if funds.len() == 1 && funds[0].amount != 0 && funds[0].denom@ == denom {
        Some(funds[0].amount)
    } else {
        None
    }
}

/// `must_pay` of cw_utils: the amount sent when the funds are exactly one
/// coin of the given denomination with an amount above zero, and an error
/// for any other funds.
#[verifier::external_body]
fn must_pay(funds: &Vec<Coin>, denom: &str) -> (r: Result<u128, PaymentError>)
    ensures
        match r {
            Ok(sent) => paid_in(funds@, denom@) == Some(sent),
            Err(_) => paid_in(funds@, denom@) is None,
        },
{
    let info = MessageInfo {
        sender: Addr::unchecked(""),
        funds: funds.iter().map(|c| cosmwasm_std::Coin::new(c.amount, c.denom.clone())).collect(),
    };
    cw_utils::must_pay(&info, denom).map(|sent: Uint128| sent.u128())
}

/// Whether the funds sent along cover a payment of `amount` in the native
/// token, and if not, why.
pub open spec fn native_payment_check(
    funds: Seq<Coin>,
    native_denom: Seq<char>,
    amount: u128,
) -> Result<(), ChainbillsError> {
    match paid_in(funds, native_denom) {
        None => Err(ChainbillsError::PaymentError),
        Some(sent) => if sent != amount {
            Err(ChainbillsError::InvalidNativeTokenPayment)
        } else {
            Ok(())
        },
    }
}

/// Checks the funds sent along with a payment of `amount` in the native
/// token.
pub fn check_native_payment(funds: &Vec<Coin>, native_denom: &str, amount: u128) -> (r: Result<
    (),
    ChainbillsError,
>)
    ensures
        r == native_payment_check(funds@, native_denom@, amount),
{
    match must_pay(funds, native_denom) {
        Err(_) => Err(ChainbillsError::PaymentError),
        Ok(sent) => if sent != amount {
            Err(ChainbillsError::InvalidNativeTokenPayment)
        } else {
            Ok(())
        },
    }
}

impl Chainbills {
    /// Whether a payment is recorded, and if not, why. The checks come in
    /// this order, and the first that fails decides: the payable's
    /// identifier is hexadecimal; it names a payable of the ledger; the
    /// payable takes the payment (`payment_check`); the funds cover a
    /// payment in the native token; a payer that is new can be entered;
    /// counters and balance can take the payment (`payment_outcome`).
    pub open spec fn pay_check(
        &self,
        ctx: ExecCtx,
        msg: TransactionInfoMessage,
    ) -> Result<(), ChainbillsError> {
        match id_of_hex(msg.payable_id@) {
            Err(e) => Err(e),
            Ok(None) => Err(ChainbillsError::InvalidPayableId),
            Ok(Some(id)) => match self.payable_index(id) {
                None => Err(ChainbillsError::InvalidPayableId),
                Some(i) => {
                    let payable = self.payables@[i].payable@;
                    let supported = self.supports(msg.token);
                    let payer = self.user_of(ctx.sender);
                    if payment_check(payable, supported, msg.token, msg.amount) is Err {
                        payment_check(payable, supported, msg.token, msg.amount)
                    } else if msg.token == ctx.contract_address && native_payment_check(
                        ctx.funds@,
                        self.native_denom@,
                        msg.amount,
                    ) is Err {
                        native_payment_check(ctx.funds@, self.native_denom@, msg.amount)
                    } else if self.user_index(ctx.sender) is None && self.chain_stats.users_count
                        == u64::MAX {
                        Err(ChainbillsError::CounterOverflow)
                    } else {
                        payment_outcome(
                            self.chain_stats,
                            payer,
                            payable,
                            self.payable_chain_payments_count.value(
                                per_chain_key(payable.id, payer.chain_id),
                            ),
                            supported,
                            msg.token,
                            msg.amount,
                        )
                    }
                },
            },
        }
    }

    /// How a recorded payment changes the ledger `self` into `after`, and
    /// what it answers with.
    ///
    /// The chain counts one more payment, and one more user when the payer
    /// is new. The payable counts one more payment, holds the amount more
    /// in the token, and lists the payment last. The payer counts one more
    /// payment and lists the payment last. The count of payments from the
    /// payer's chain to the payable advances by one. The records of the
    /// payment close the list of payments. Nothing else changes.
    pub open spec fn payment_applied(
        &self,
        after: Chainbills,
        ctx: ExecCtx,
        msg: TransactionInfoMessage,
        response: Response,
    ) -> bool {
        let i = self.payable_index(id_of_hex(msg.payable_id@)->Ok_0->0)->0;
        let payable = self.payables@[i].payable@;
        let payer = self.user_of(ctx.sender);
        let key = per_chain_key(payable.id, payer.chain_id);
        let local_chain_count = self.payable_chain_payments_count.value(key);
        let payment_id = response.records.payment_id;
        &&& after.chain_id == self.chain_id
        &&& after.native_denom == self.native_denom
        &&& after.max_fees_per_token == self.max_fees_per_token
        &&& after.withdrawals == self.withdrawals
        &&& after.chain_stats == (GlobalStats {
            payments_count: (self.chain_stats.payments_count + 1) as u64,
            users_count: if self.user_index(ctx.sender) is None {
                (self.chain_stats.users_count + 1) as u64
            } else {
                self.chain_stats.users_count
            },
            ..self.chain_stats
        })
        &&& after.payables@.len() == self.payables@.len()
        &&& forall|other: int|
            0 <= other < self.payables@.len() && other != i ==> after.payables@[other]
                == self.payables@[other]
        &&& after.payables@[i].payable@ == paid(payable, msg.token, msg.amount)
        &&& after.payables@[i].payment_ids@ == self.payables@[i].payment_ids@.push(payment_id)
        &&& match self.user_index(ctx.sender) {
            Some(u) => {
                &&& after.users@.len() == self.users@.len()
                &&& forall|other: int|
                    0 <= other < self.users@.len() && other != u ==> after.users@[other]
                        == self.users@[other]
                &&& after.users@[u].payment_ids@ == self.users@[u].payment_ids@.push(payment_id)
            },
            None => {
                &&& after.users@.len() == self.users@.len() + 1
                &&& forall|other: int|
                    0 <= other < self.users@.len() ==> after.users@[other] == self.users@[other]
                &&& after.users@.last().payment_ids@ == seq![payment_id]
            },
        }
        &&& after.users@[after.user_index(ctx.sender)->0].user == (User {
            payments_count: (payer.payments_count + 1) as u64,
            ..payer
        })
        &&& after.user_index(ctx.sender) == Some(
            match self.user_index(ctx.sender) {
                Some(u) => u,
                None => self.users@.len() as int,
            },
        )
        &&& after.payable_chain_payments_count.value(key) == local_chain_count + 1
        &&& forall|other: CounterKey|
            other != key ==> #[trigger] after.payable_chain_payments_count.value(other)
                == self.payable_chain_payments_count.value(other)
        &&& after.payments@ == self.payments@.push(response.records)
        &&& payment_id@ == id_bytes(
            EntityKind::Payment,
            payer.chain_id,
            after.chain_stats.payments_count,
        )
        &&& response.records.user_payment == user_payment_of(
            self.chain_stats,
            payer,
            payable,
            msg.token,
            msg.amount,
            self.chain_id,
            ctx.block_time,
        )
        &&& response.records.payable_payment == payable_payment_of(
            payer,
            payable,
            local_chain_count,
            msg.token,
            msg.amount,
            ctx.block_time,
        )
        &&& response.transfer == if msg.token == ctx.contract_address {
            None
        } else {
            Some(
                Cw20TransferFrom {
                    token: msg.token,
                    owner: ctx.sender,
                    recipient: ctx.contract_address,
                    amount: msg.amount,
                },
            )
        }
        &&& response.initialized_user == if self.user_index(ctx.sender) is None {
            Some(payer)
        } else {
            None
        }
    }
}

/// A recorded payment leaves a well-formed ledger well formed.
pub proof fn lemma_payment_keeps_wf(
    before: Chainbills,
    after: Chainbills,
    ctx: ExecCtx,
    msg: TransactionInfoMessage,
    response: Response,
)
    requires
        before.wf(),
        before.pay_check(ctx, msg) is Ok,
        before.payment_applied(after, ctx, msg, response),
    ensures
        after.wf(),
{
    let id = id_of_hex(msg.payable_id@)->Ok_0->0;
    lemma_first_index(before.payables@, has_payable_id(id));
    lemma_first_index(before.users@, has_wallet(ctx.sender));
    let i = before.payable_index(id)->0;
    let payable = before.payables@[i].payable@;
    let payer = before.user_of(ctx.sender);
    let records = response.records;
    let n = before.payments@.len() as int;
    assert(before.payable_is_consistent(i));
    assert(after.payments@[n] == records);
    assert forall|j: int| 0 <= j < after.payments@.len() implies after.payment_is_numbered(j) by {
        if j < n {
            assert(before.payment_is_numbered(j));
            assert(after.payments@[j] == before.payments@[j]);
        }
    }
    assert forall|j: int| 0 <= j < after.payments@.len() implies after.payment_has_payable(j) by {
        if j < n {
            assert(before.payment_has_payable(j));
            assert(after.payments@[j] == before.payments@[j]);
            let p = choose|p: int|
                0 <= p < before.payables@.len() && (#[trigger] before.payables@[p]).payable.id
                    == before.payments@[j].payable_payment.payable_id;
            assert(after.payables@[p].payable.id == before.payables@[p].payable.id);
        } else {
            assert(after.payables@[i].payable.id == records.payable_payment.payable_id);
        }
    }
    assert forall|j: int| 0 <= j < after.withdrawals@.len() implies after.withdrawal_has_payable(
        j,
    ) by {
        assert(before.withdrawal_has_payable(j));
        let p = choose|p: int|
            0 <= p < before.payables@.len() && (#[trigger] before.payables@[p]).payable.id
                == before.withdrawals@[j].payable_id;
        assert(after.payables@[p].payable.id == before.payables@[p].payable.id);
    }
    assert forall|p: int| 0 <= p < after.payables@.len() implies after.payable_is_consistent(
        p,
    ) by {
        assert(before.payable_is_consistent(p));
        let entry = after.payables@[p];
        if p == i {
            lemma_credited(payable.balances, msg.token, msg.amount);
        }
        let last = after.payments@[n];
        assert(last.payable_payment.payable_id == before.payables@[i].payable.id);
        assert(last.payable_payment.details.token == msg.token);
        if p != i && entry.payable.id == last.payable_payment.payable_id {
            lemma_derived_ids_are_distinct(
                EntityKind::Payable,
                before.chain_id,
                (p + 1) as u64,
                EntityKind::Payable,
                before.chain_id,
                (i + 1) as u64,
            );
        }
        assert forall|token: [u8; 32]| #[trigger]
            holds_token(entry.payable.balances@, token) == was_paid_in(
                after.payments@,
                entry.payable.id,
                token,
            ) by {
            let earlier = before.payables@[p];
            let held_before = holds_token(earlier.payable.balances@, token);
            let paid_before = was_paid_in(before.payments@, earlier.payable.id, token);
            let paid_after = was_paid_in(after.payments@, entry.payable.id, token);
            let paid_now = p == i && token == msg.token;
            assert(held_before == paid_before);
            assert(entry.payable.id == earlier.payable.id);
            if paid_before {
                let j = choose|j: int|
                    0 <= j < n && (#[trigger] before.payments@[j]).payable_payment.payable_id
                        == earlier.payable.id && before.payments@[j].payable_payment.details.token
                        == token;
                assert(after.payments@[j] == before.payments@[j]);
                assert(paid_after);
            }
            if paid_now {
                assert(last.payable_payment.payable_id == entry.payable.id);
                assert(paid_after);
            }
            if paid_after && !paid_now {
                let j = choose|j: int|
                    0 <= j < n + 1 && (#[trigger] after.payments@[j]).payable_payment.payable_id
                        == entry.payable.id && after.payments@[j].payable_payment.details.token
                        == token;
                assert(j < n);
                assert(after.payments@[j] == before.payments@[j]);
                assert(before.payments@[j].payable_payment.payable_id == earlier.payable.id);
                assert(paid_before);
            }
            assert(paid_after == (paid_before || paid_now));
            if p == i {
                let grown = credited(payable.balances, msg.token, msg.amount);
                assert(entry.payable.balances@ == grown);
                if token == msg.token {
                    assert(balance_of(grown, msg.token) is Some);
                } else {
                    assert(balance_of(grown, token) == balance_of(payable.balances, token));
                }
            }
        }
        assert forall|token: [u8; 32]| #[trigger]
            amount_of(entry.payable.balances@, token) + withdrawn_total(
                after.withdrawals@,
                entry.payable.id,
                token,
            ) == paid_total(after.payments@, entry.payable.id, token) by {
            let earlier = before.payables@[p];
            assert(amount_of(earlier.payable.balances@, token) + withdrawn_total(
                before.withdrawals@,
                earlier.payable.id,
                token,
            ) == paid_total(before.payments@, earlier.payable.id, token));
            lemma_paid_total_grows(before.payments@, records, entry.payable.id, token);
            if p == i {
                let grown = credited(payable.balances, msg.token, msg.amount);
                assert(entry.payable.balances@ == grown);
                if token == msg.token {
                    assert(balance_of(grown, msg.token) is Some);
                } else {
                    assert(balance_of(grown, token) == balance_of(payable.balances, token));
                }
            }
        }
        assert forall|k: int| 0 <= k < entry.payment_ids@.len() implies payable_payment_is_recorded(
            after.payments@,
            entry,
            k,
        ) by {
            if k < before.payables@[p].payment_ids@.len() {
                assert(payable_payment_is_recorded(before.payments@, before.payables@[p], k));
                let j = choose|j: int|
                    0 <= j < n && (#[trigger] before.payments@[j]).payment_id
                        == before.payables@[p].payment_ids@[k]
                        && before.payments@[j].payable_payment.payable_id
                        == before.payables@[p].payable.id
                        && before.payments@[j].payable_payment.payable_count == k + 1;
                assert(after.payments@[j] == before.payments@[j]);
            } else {
                assert(after.payments@[n].payment_id == entry.payment_ids@[k]);
            }
        }
    }
    let u_after = after.user_index(ctx.sender)->0;
    assert forall|u: int| 0 <= u < after.users@.len() implies after.user_is_consistent(u) by {
        let entry = after.users@[u];
        if u < before.users@.len() {
            assert(before.user_is_consistent(u));
        }
        assert forall|k: int| 0 <= k < entry.payment_ids@.len() implies user_payment_is_recorded(
            after.payments@,
            entry,
            k,
        ) by {
            if u < before.users@.len() && k < before.users@[u].payment_ids@.len() {
                assert(user_payment_is_recorded(before.payments@, before.users@[u], k));
                let j = choose|j: int|
                    0 <= j < n && (#[trigger] before.payments@[j]).payment_id
                        == before.users@[u].payment_ids@[k]
                        && before.payments@[j].user_payment.payer
                        == before.users@[u].user.owner_wallet
                        && before.payments@[j].user_payment.payer_count == k + 1;
                assert(after.payments@[j] == before.payments@[j]);
            } else {
                assert(u == u_after);
                assert(after.payments@[n].payment_id == entry.payment_ids@[k]);
            }
        }
    }
}

/// Looking payments up and recording them.
pub trait Payments {
    /// The identifier, in hexadecimal, of the `count`-th payment made from
    /// the wallet.
    fn user_payment_id(&self, wallet: &[u8; 32], count: u64) -> Result<IdMessage, ChainbillsError>;

    /// The payer's record of the payment with the given identifier.
    fn user_payment(&self, msg: &IdMessage) -> Result<UserPayment, ChainbillsError>;

    /// The identifier, in hexadecimal, of the `count`-th payment to the
    /// payable that the message refers to.
    fn payable_payment_id(&self, msg: &FetchIdMessage) -> Result<IdMessage, ChainbillsError>;

    /// The payable's record of the payment with the given identifier.
    fn payable_payment(&self, msg: &IdMessage) -> Result<PayablePayment, ChainbillsError>;

    /// Records a payment.
    fn pay(&mut self, ctx: &ExecCtx, msg: &TransactionInfoMessage) -> Result<
        Response,
        ChainbillsError,
    >;
}

impl Payments for Chainbills {
    /// Fails with `InvalidUserPaymentCount` when the wallet has made fewer
    /// than `count` payments, or `count` is zero.
    fn user_payment_id(&self, wallet: &[u8; 32], count: u64) -> (r: Result<
        IdMessage,
        ChainbillsError,
    >)
        ensures
            match r {
                Ok(answer) => self.user_payment_id_outcome(*wallet, count) matches Ok(id)
                    && answer.id@ == hex_encoded(id@),
                Err(e) => self.user_payment_id_outcome(*wallet, count) == Err::<
                    [u8; 32],
                    ChainbillsError,
                >(e),
            },
    {
        match self.find_user(wallet) {
            None => Err(ChainbillsError::InvalidUserPaymentCount),
            Some(u) => {
                let entry = &self.users[u];
                if count == 0 || count > entry.user.payments_count || count as u128
                    > entry.payment_ids.len() as u128 {
                    return Err(ChainbillsError::InvalidUserPaymentCount);
                }
                let position: usize = (count - 1) as usize;
                Ok(IdMessage { id: show_id(&entry.payment_ids[position]) })
            },
        }
    }

    /// Fails with `InvalidHex` when the identifier is not hexadecimal, and
    /// with `InvalidPaymentId` when no payment has it.
    fn user_payment(&self, msg: &IdMessage) -> (r: Result<UserPayment, ChainbillsError>)
        ensures
            r == self.payment_lookup(msg.id@, |records: PaymentRecords| records.user_payment),
    {
        let id = match parse_id(msg.id.as_str())? {
            Some(id) => id,
            None => {
                return Err(ChainbillsError::InvalidPaymentId);
            },
        };
        match self.find_payment(&id) {
            Some(j) => Ok(self.payments[j].user_payment),
            None => Err(ChainbillsError::InvalidPaymentId),
        }
    }

    /// Fails with `InvalidHex` when the reference is not hexadecimal, with
    /// `InvalidPayableId` when it names no payable, and with
    /// `InvalidPayablePaymentCount` when the payable has received fewer
    /// than `count` payments, or `count` is zero.
    fn payable_payment_id(&self, msg: &FetchIdMessage) -> (r: Result<IdMessage, ChainbillsError>)
        ensures
            match r {
                Ok(answer) => self.payable_payment_id_outcome(msg.reference@, msg.count) matches Ok(
                    id,
                ) && answer.id@ == hex_encoded(id@),
                Err(e) => self.payable_payment_id_outcome(msg.reference@, msg.count) == Err::<
                    [u8; 32],
                    ChainbillsError,
                >(e),
            },
    {
        let id = match parse_id(msg.reference.as_str())? {
            Some(id) => id,
            None => {
                return Err(ChainbillsError::InvalidPayableId);
            },
        };
        match self.find_payable(&id) {
            None => Err(ChainbillsError::InvalidPayableId),
            Some(i) => {
                let entry = &self.payables[i];
                if msg.count == 0 || msg.count > entry.payable.payments_count || msg.count as u128
                    > entry.payment_ids.len() as u128 {
                    return Err(ChainbillsError::InvalidPayablePaymentCount);
                }
                let position: usize = (msg.count - 1) as usize;
                Ok(IdMessage { id: show_id(&entry.payment_ids[position]) })
            },
        }
    }

    /// Fails with `InvalidHex` when the identifier is not hexadecimal, and
    /// with `InvalidPaymentId` when no payment has it.
    fn payable_payment(&self, msg: &IdMessage) -> (r: Result<PayablePayment, ChainbillsError>)
        ensures
            r == self.payment_lookup(msg.id@, |records: PaymentRecords| records.payable_payment),
    {
        let id = match parse_id(msg.id.as_str())? {
            Some(id) => id,
            None => {
                return Err(ChainbillsError::InvalidPaymentId);
            },
        };
        match self.find_payment(&id) {
            Some(j) => Ok(self.payments[j].payable_payment),
            None => Err(ChainbillsError::InvalidPaymentId),
        }
    }

    /// Records the payment that `msg` asks for, made by `ctx.sender`.
    ///
    /// A request that `pay_check` rejects fails with that error and changes
    /// nothing. One that it accepts changes the ledger as `payment_applied`
    /// says: in particular the payable's balance in the token grows by
    /// exactly the amount.
    fn pay(&mut self, ctx: &ExecCtx, msg: &TransactionInfoMessage) -> (r: Result<
        Response,
        ChainbillsError,
    >)
        ensures
            match r {
                Err(e) => old(self).pay_check(*ctx, *msg) == Err::<(), ChainbillsError>(e)
                    && *final(self) == *old(self),
                Ok(response) => old(self).pay_check(*ctx, *msg) is Ok && old(
                    self,
                ).payment_applied(*final(self), *ctx, *msg, response),
            },
            // The balance of the token grows by exactly the amount, and no
            // other balance moves.
            r is Ok ==> ({
                let i = old(self).payable_index(id_of_hex(msg.payable_id@)->Ok_0->0)->0;
                let before = old(self).payables@[i].payable.balances@;
                let after = final(self).payables@[i].payable.balances@;
                &&& balance_of(after, msg.token) == Some(
                    (amount_of(before, msg.token) + msg.amount) as u128,
                )
                &&& forall|other: [u8; 32]|
                    other != msg.token ==> #[trigger] balance_of(after, other) == balance_of(
                        before,
                        other,
                    )
            }),
            old(self).wf() ==> final(self).wf(),
    {
        let id = match parse_id(msg.payable_id.as_str())? {
            Some(id) => id,
            None => {
                return Err(ChainbillsError::InvalidPayableId);
            },
        };
        let i = match self.find_payable(&id) {
            Some(i) => i,
            None => {
                return Err(ChainbillsError::InvalidPayableId);
            },
        };
        let supported = self.is_supported(&msg.token);
        check_payment_inputs(&self.payables[i].payable, supported, &msg.token, msg.amount)?;
        let native = same_bytes(&msg.token, &ctx.contract_address);
        if native {
            check_native_payment(&ctx.funds, self.native_denom.as_str(), msg.amount)?;
        }
        let found = self.find_user(&ctx.sender);
        let mut payer = match found {
            Some(u) => self.users[u].user,
            None => {
                let chain_count = self.chain_stats.next_user()?;
                User::initialize(ctx.sender, self.chain_id, chain_count)
            },
        };
        check_payment(
            &self.chain_stats,
            &payer,
            &self.payables[i].payable,
            &self.payable_chain_payments_count,
            supported,
            &msg.token,
            msg.amount,
        )?;
        let records = record_payment(
            &mut self.chain_stats,
            &mut payer,
            &mut self.payables[i].payable,
            &mut self.payable_chain_payments_count,
            supported,
            msg.token,
            msg.amount,
            self.chain_id,
            ctx.block_time,
        )?;
        self.payables[i].payment_ids.push(records.payment_id);
        let initialized_user = match found {
            Some(u) => {
                self.users[u].user = payer;
                self.users[u].payment_ids.push(records.payment_id);
                proof {
                    lemma_first_index_update(
                        old(self).users@,
                        has_wallet(ctx.sender),
                        u as int,
                        self.users@[u as int],
                    );
                    assert(self.users@ =~= old(self).users@.update(u as int, self.users@[u as int]));
                }
                None
            },
            None => {
                self.chain_stats.users_count = payer.chain_count;
                let mut payment_ids: Vec<[u8; 32]> = Vec::new();
                payment_ids.push(records.payment_id);
                let first = User { payments_count: 0, ..payer };
                self.users.push(UserEntry { user: payer, payment_ids });
                proof {
                    lemma_first_index_push(
                        old(self).users@,
                        has_wallet(ctx.sender),
                        self.users@.last(),
                    );
                    assert(self.users@.last().payment_ids@ =~= seq![records.payment_id]);
                }
                Some(first)
            },
        };
        self.payments.push(records);
        let transfer = if native {
            None
        } else {
            Some(
                Cw20TransferFrom {
                    token: msg.token,
                    owner: ctx.sender,
                    recipient: ctx.contract_address,
                    amount: msg.amount,
                },
            )
        };
        let response = Response { transfer, initialized_user, records };
        proof {
            assert(old(self).payment_applied(*self, *ctx, *msg, response));
            lemma_credited(old(self).payables@[i as int].payable.balances@, msg.token, msg.amount);
            if old(self).wf() {
                lemma_payment_keeps_wf(*old(self), *self, *ctx, *msg, response);
            }
        }
        Ok(response)
    }
}

impl Chainbills {
    /// The identifier of the `count`-th payment made from the wallet, or
    /// `InvalidUserPaymentCount` when there is no such payment: the wallet
    /// is unknown, `count` is zero, or the wallet has made fewer payments.
    pub open spec fn user_payment_id_outcome(&self, wallet: [u8; 32], count: u64) -> Result<
        [u8; 32],
        ChainbillsError,
    > {
        match self.user_index(wallet) {
            None => Err(ChainbillsError::InvalidUserPaymentCount),
            Some(u) => {
                let entry = self.users@[u];
                if count == 0 || count > entry.user.payments_count || count
                    > entry.payment_ids@.len() {
                    Err(ChainbillsError::InvalidUserPaymentCount)
                } else {
                    Ok(entry.payment_ids@[count - 1])
                }
            },
        }
    }

    /// The identifier of the `count`-th payment to the payable that the
    /// reference names, in hexadecimal: `InvalidHex` when the reference is
    /// not hexadecimal, `InvalidPayableId` when it names no payable, and
    /// `InvalidPayablePaymentCount` when `count` is zero or the payable has
    /// received fewer payments.
    pub open spec fn payable_payment_id_outcome(&self, reference: Seq<char>, count: u64) -> Result<
        [u8; 32],
        ChainbillsError,
    > {
        match id_of_hex(reference) {
            Err(e) => Err(e),
            Ok(None) => Err(ChainbillsError::InvalidPayableId),
            Ok(Some(id)) => match self.payable_index(id) {
                None => Err(ChainbillsError::InvalidPayableId),
                Some(i) => {
                    let entry = self.payables@[i];
                    if count == 0 || count > entry.payable.payments_count || count
                        > entry.payment_ids@.len() {
                        Err(ChainbillsError::InvalidPayablePaymentCount)
                    } else {
                        Ok(entry.payment_ids@[count - 1])
                    }
                },
            },
        }
    }

    /// What the ledger answers when asked for one of the two records of the
    /// payment with the given identifier, in hexadecimal: `InvalidHex` when
    /// the identifier is not hexadecimal, `InvalidPaymentId` when no
    /// payment has it.
    pub open spec fn payment_lookup<R>(
        &self,
        id: Seq<char>,
        record: spec_fn(PaymentRecords) -> R,
    ) -> Result<R, ChainbillsError> {
        match id_of_hex(id) {
            Err(e) => Err(e),
            Ok(None) => Err(ChainbillsError::InvalidPaymentId),
            Ok(Some(id)) => match self.payment_index(id) {
                None => Err(ChainbillsError::InvalidPaymentId),
                Some(j) => Ok(record(self.payments@[j])),
            },
        }
    }
}

} // verus!
