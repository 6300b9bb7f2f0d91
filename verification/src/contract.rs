//! The ledger of one chain: its statistics, the tokens it supports, its
//! users and payables, and the payments and withdrawals it has recorded.

use crate::counter::CounterRegistry;
use crate::error::ChainbillsError;
use crate::identity::{
    derive_id, id_bytes, lemma_derived_ids_are_distinct, same_bytes, EntityKind,
};
use crate::payable::{
    create_payable_handler, creation_check, new_payable, update_check, ClosedPayable,
    CreatePayable, ReopenedPayable, UpdatedPayableAllowedTokensAndAmounts,
};
use crate::payment::PaymentRecords;
use crate::search::{
    first_index, lemma_first_index, lemma_first_index_push, lemma_first_is, lemma_first_none,
};
use crate::state::{
    GlobalStats, Payable, PayableView, TokenDetails, User, Withdrawal, MAX_PAYABLES_TOKENS,
};
use crate::tokens::{
    all_amounts_positive, amount_of, amounts_are_positive, balance_of, debited, find_token,
    holds_token, in_token, lemma_amount_replaced, lemma_debited, position_of, TokenAndAmount,
};
use crate::withdraw::{
    amount_minus_fees, check_withdrawal, net_of_fees, update_state_for_withdrawal,
    withdrawal_check, withdrawal_committed, withdrawal_of, WithdrawalOutcome,
};
use vstd::prelude::*;

verus! {

/// A user of the ledger with the payments it has made, oldest first.
#[derive(Debug)]
pub struct UserEntry {
    pub user: User,
    pub payment_ids: Vec<[u8; 32]>,
}

/// A payable of the ledger with the payments it has received, oldest first.
#[derive(Debug)]
pub struct PayableEntry {
    pub payable: Payable,
    pub payment_ids: Vec<[u8; 32]>,
}

/// The ledger of one chain.
#[derive(Debug)]
pub struct Chainbills {
    /// The chain that the ledger runs on.
    pub chain_id: u16,
    /// The denomination of the chain's native token.
    pub native_denom: String,
    pub chain_stats: GlobalStats,
    /// The supported tokens, each with the most that a withdrawal in it can
    /// be charged. A token without an entry is not supported.
    pub max_fees_per_token: Vec<TokenAndAmount>,
    pub users: Vec<UserEntry>,
    pub payables: Vec<PayableEntry>,
    /// For each payable and chain, how many payments came to the payable
    /// from the chain.
    pub payable_chain_payments_count: CounterRegistry,
    /// Every payment recorded, oldest first.
    pub payments: Vec<PaymentRecords>,
    /// Every withdrawal recorded, oldest first.
    pub withdrawals: Vec<Withdrawal>,
}

/// The entries of the payable with the given identifier.
pub open spec fn has_payable_id(id: Seq<u8>) -> spec_fn(PayableEntry) -> bool {
    |entry: PayableEntry| entry.payable.id@ == id
}

/// The entries of the user with the given wallet.
pub open spec fn has_wallet(wallet: [u8; 32]) -> spec_fn(UserEntry) -> bool {
    |entry: UserEntry| entry.user.owner_wallet == wallet
}

/// The records of the payment with the given identifier.
pub open spec fn has_payment_id(id: Seq<u8>) -> spec_fn(PaymentRecords) -> bool {
    |records: PaymentRecords| records.payment_id@ == id
}

/// Whether the `k`-th payment that the payable lists is on record as the
/// `k + 1`-st payment to it.
pub open spec fn payable_payment_is_recorded(
    payments: Seq<PaymentRecords>,
    entry: PayableEntry,
    k: int,
) -> bool {
    exists|j: int|
        0 <= j < payments.len() && (#[trigger] payments[j]).payment_id == entry.payment_ids@[k]
            && payments[j].payable_payment.payable_id == entry.payable.id
            && payments[j].payable_payment.payable_count == k + 1
}

/// Whether the `k`-th payment that the user lists is on record as the
/// `k + 1`-st payment by it.
pub open spec fn user_payment_is_recorded(
    payments: Seq<PaymentRecords>,
    entry: UserEntry,
    k: int,
) -> bool {
    exists|j: int|
        0 <= j < payments.len() && (#[trigger] payments[j]).payment_id == entry.payment_ids@[k]
            && payments[j].user_payment.payer == entry.user.owner_wallet
            && payments[j].user_payment.payer_count == k + 1
}

/// Whether some payment on record went to the payable in the token.
pub open spec fn was_paid_in(
    payments: Seq<PaymentRecords>,
    payable_id: [u8; 32],
    token: [u8; 32],
) -> bool {
    exists|j: int|
        0 <= j < payments.len() && (#[trigger] payments[j]).payable_payment.payable_id
            == payable_id && payments[j].payable_payment.details.token == token
}

/// What the payments on record brought the payable in the token, in all.
pub open spec fn paid_total(
    payments: Seq<PaymentRecords>,
    payable_id: [u8; 32],
    token: [u8; 32],
) -> nat
    decreases payments.len(),
{
    if payments.len() == 0 {
        0
    } else {
        let last = payments.last().payable_payment;
        paid_total(payments.drop_last(), payable_id, token) + if last.payable_id == payable_id
            && last.details.token == token {
            last.details.amount as nat
        } else {
            0
        }
    }
}

/// What the withdrawals on record took from the payable in the token, in
/// all, fees included.
pub open spec fn withdrawn_total(
    withdrawals: Seq<Withdrawal>,
    payable_id: [u8; 32],
    token: [u8; 32],
) -> nat
    decreases withdrawals.len(),
{
    if withdrawals.len() == 0 {
        0
    } else {
        let last = withdrawals.last();
        withdrawn_total(withdrawals.drop_last(), payable_id, token) + if last.payable_id
            == payable_id && last.details.token == token {
            last.details.amount as nat
        } else {
            0
        }
    }
}

/// A payment that is put on record adds its amount to the total of its
/// payable and token, and to no other total.
pub proof fn lemma_paid_total_grows(
    payments: Seq<PaymentRecords>,
    records: PaymentRecords,
    payable_id: [u8; 32],
    token: [u8; 32],
)
    ensures
        paid_total(payments.push(records), payable_id, token) == paid_total(
            payments,
            payable_id,
            token,
        ) + if records.payable_payment.payable_id == payable_id
            && records.payable_payment.details.token == token {
            records.payable_payment.details.amount as nat
        } else {
            0
        },
{
    assert(payments.push(records).drop_last() =~= payments);
}

/// A withdrawal that is put on record adds its amount to the total of its
/// payable and token, and to no other total.
pub proof fn lemma_withdrawn_total_grows(
    withdrawals: Seq<Withdrawal>,
    withdrawal: Withdrawal,
    payable_id: [u8; 32],
    token: [u8; 32],
)
    ensures
        withdrawn_total(withdrawals.push(withdrawal), payable_id, token) == withdrawn_total(
            withdrawals,
            payable_id,
            token,
        ) + if withdrawal.payable_id == payable_id && withdrawal.details.token == token {
            withdrawal.details.amount as nat
        } else {
            0
        },
{
    assert(withdrawals.push(withdrawal).drop_last() =~= withdrawals);
}

proof fn lemma_nothing_paid(payments: Seq<PaymentRecords>, payable_id: [u8; 32], token: [u8; 32])
    requires
        forall|j: int|
            0 <= j < payments.len() ==> (#[trigger] payments[j]).payable_payment.payable_id
                != payable_id,
    ensures
        paid_total(payments, payable_id, token) == 0,
    decreases payments.len(),
{
    if payments.len() > 0 {
        let earlier = payments.drop_last();
        assert forall|j: int| 0 <= j < earlier.len() implies (
        #[trigger] earlier[j]).payable_payment.payable_id != payable_id by {
            assert(earlier[j] == payments[j]);
        }
        lemma_nothing_paid(earlier, payable_id, token);
        assert(payments.last() == payments[payments.len() - 1]);
    }
}

proof fn lemma_nothing_withdrawn(
    withdrawals: Seq<Withdrawal>,
    payable_id: [u8; 32],
    token: [u8; 32],
)
    requires
        forall|j: int|
            0 <= j < withdrawals.len() ==> (#[trigger] withdrawals[j]).payable_id != payable_id,
    ensures
        withdrawn_total(withdrawals, payable_id, token) == 0,
    decreases withdrawals.len(),
{
    if withdrawals.len() > 0 {
        let earlier = withdrawals.drop_last();
        assert forall|j: int| 0 <= j < earlier.len() implies (#[trigger] earlier[j]).payable_id
            != payable_id by {
            assert(earlier[j] == withdrawals[j]);
        }
        lemma_nothing_withdrawn(earlier, payable_id, token);
        assert(withdrawals.last() == withdrawals[withdrawals.len() - 1]);
    }
}

impl Chainbills {
    /// Whether the token is one the ledger supports.
    pub open spec fn supports(&self, token: [u8; 32]) -> bool {
        holds_token(self.max_fees_per_token@, token)
    }

    /// Where the payable with the given identifier stands, if there is one.
    pub open spec fn payable_index(&self, id: Seq<u8>) -> Option<int> {
        first_index(self.payables@, has_payable_id(id))
    }

    /// Where the user with the given wallet stands, if there is one.
    pub open spec fn user_index(&self, wallet: [u8; 32]) -> Option<int> {
        first_index(self.users@, has_wallet(wallet))
    }

    /// Where the payment with the given identifier stands, if there is one.
    pub open spec fn payment_index(&self, id: Seq<u8>) -> Option<int> {
        first_index(self.payments@, has_payment_id(id))
    }

    /// Whether the balances of the payable at position `i` agree with what
    /// is on record: the payable holds a balance in exactly the tokens in
    /// which it was ever paid, and in every token what it holds and what
    /// was withdrawn from it add up to what was paid to it.
    pub open spec fn books_balance(&self, i: int) -> bool {
        let entry = self.payables@[i];
        &&& forall|token: [u8; 32]| #[trigger]
            holds_token(entry.payable.balances@, token) <==> was_paid_in(
                self.payments@,
                entry.payable.id,
                token,
            )
        &&& forall|token: [u8; 32]| #[trigger]
            amount_of(entry.payable.balances@, token) + withdrawn_total(
                self.withdrawals@,
                entry.payable.id,
                token,
            ) == paid_total(self.payments@, entry.payable.id, token)
    }

    /// Whether the payable at position `i` is as the ledger keeps its
    /// payables: numbered by its position, well formed, listing as many
    /// payments as it counts, each on record under its number, and with
    /// balances that agree with what is on record.
    pub open spec fn payable_is_consistent(&self, i: int) -> bool {
        let entry = self.payables@[i];
        &&& entry.payable.id@ == id_bytes(EntityKind::Payable, self.chain_id, (i + 1) as u64)
        &&& entry.payable@.wf()
        &&& entry.payment_ids@.len() == entry.payable.payments_count
        &&& forall|k: int|
            0 <= k < entry.payment_ids@.len() ==> payable_payment_is_recorded(
                self.payments@,
                entry,
                k,
            )
        &&& self.books_balance(i)
    }

    /// Whether the payment at position `j` went to a payable of the ledger.
    pub open spec fn payment_has_payable(&self, j: int) -> bool {
        exists|i: int|
            0 <= i < self.payables@.len() && (#[trigger] self.payables@[i]).payable.id
                == self.payments@[j].payable_payment.payable_id
    }

    /// Whether the withdrawal at position `j` was made from a payable of
    /// the ledger.
    pub open spec fn withdrawal_has_payable(&self, j: int) -> bool {
        exists|i: int|
            0 <= i < self.payables@.len() && (#[trigger] self.payables@[i]).payable.id
                == self.withdrawals@[j].payable_id
    }

    /// Whether the user at position `i` is as the ledger keeps its users: on
    /// this chain, and listing as many payments as it counts, each on record
    /// under its number.
    pub open spec fn user_is_consistent(&self, i: int) -> bool {
        let entry = self.users@[i];
        &&& entry.user.chain_id == self.chain_id
        &&& entry.payment_ids@.len() == entry.user.payments_count
        &&& forall|k: int|
            0 <= k < entry.payment_ids@.len() ==> user_payment_is_recorded(
                self.payments@,
                entry,
                k,
            )
    }

    /// Whether the payment at position `j` carries the identifier of the
    /// `j + 1`-st payment of the chain.
    pub open spec fn payment_is_numbered(&self, j: int) -> bool {
        self.payments@[j].payment_id@ == id_bytes(
            EntityKind::Payment,
            self.payments@[j].payable_payment.payer_chain_id,
            (j + 1) as u64,
        )
    }

    /// What holds of a ledger that was set up by `new` and changed only by
    /// its own operations: the statistics count what is on record; every
    /// identifier is the one derived for its position; every payment and
    /// withdrawal on record belongs to a payable of the ledger; the payments
    /// that users and payables list are on record under consecutive
    /// numbers; and the balances of every payable agree with the payments
    /// and withdrawals on record.
    pub open spec fn wf(&self) -> bool {
        &&& self.payments@.len() == self.chain_stats.payments_count
        &&& self.payables@.len() == self.chain_stats.payables_count
        &&& self.users@.len() == self.chain_stats.users_count
        &&& self.withdrawals@.len() == self.chain_stats.withdrawals_count
        &&& forall|j: int| 0 <= j < self.payments@.len() ==> self.payment_is_numbered(j)
        &&& forall|j: int| 0 <= j < self.payments@.len() ==> self.payment_has_payable(j)
        &&& forall|j: int| 0 <= j < self.withdrawals@.len() ==> self.withdrawal_has_payable(j)
        &&& forall|i: int| 0 <= i < self.payables@.len() ==> self.payable_is_consistent(i)
        &&& forall|i: int| 0 <= i < self.users@.len() ==> self.user_is_consistent(i)
    }

    /// The ledger of a chain on which nothing has happened yet and no token
    /// is supported.
    pub fn new(chain_id: u16, native_denom: String) -> (ledger: Chainbills)
        ensures
            ledger.wf(),
            ledger.chain_id == chain_id,
            ledger.native_denom == native_denom,
            ledger.chain_stats == (GlobalStats {
                users_count: 0,
                payables_count: 0,
                payments_count: 0,
                withdrawals_count: 0,
            }),
            ledger.max_fees_per_token@.len() == 0,
            ledger.users@.len() == 0,
            ledger.payables@.len() == 0,
            ledger.payments@.len() == 0,
            ledger.withdrawals@.len() == 0,
            ledger.payable_chain_payments_count.entries@.len() == 0,
    {
        Chainbills {
            chain_id,
            native_denom,
            chain_stats: GlobalStats::new(),
            max_fees_per_token: Vec::new(),
            users: Vec::new(),
            payables: Vec::new(),
            payable_chain_payments_count: CounterRegistry { entries: Vec::new() },
            payments: Vec::new(),
            withdrawals: Vec::new(),
        }
    }

    /// Sets the most that a withdrawal in the token can be charged, which
    /// makes the token supported. Nothing else changes.
    pub fn update_max_withdrawal_fees(&mut self, token: [u8; 32], max_fees: u128)
        ensures
            final(self).supports(token),
            balance_of(final(self).max_fees_per_token@, token) == Some(max_fees),
            forall|other: [u8; 32]|
                other != token ==> #[trigger] balance_of(final(self).max_fees_per_token@, other)
                    == balance_of(old(self).max_fees_per_token@, other),
            final(self).max_fees_per_token@ == match position_of(
                old(self).max_fees_per_token@,
                token,
            ) {
                Some(i) => old(self).max_fees_per_token@.update(
                    i,
                    TokenAndAmount { token, amount: max_fees },
                ),
                None => old(self).max_fees_per_token@.push(
                    TokenAndAmount { token, amount: max_fees },
                ),
            },
            final(self).chain_id == old(self).chain_id,
            final(self).native_denom == old(self).native_denom,
            final(self).chain_stats == old(self).chain_stats,
            final(self).users == old(self).users,
            final(self).payables == old(self).payables,
            final(self).payable_chain_payments_count == old(self).payable_chain_payments_count,
            final(self).payments == old(self).payments,
            final(self).withdrawals == old(self).withdrawals,
            old(self).wf() ==> final(self).wf(),
    {
        let entry = TokenAndAmount { token, amount: max_fees };
        let ghost before = self.max_fees_per_token@;
        match find_token(&self.max_fees_per_token, &token) {
            Some(i) => {
                self.max_fees_per_token[i] = entry;
                proof {
                    lemma_amount_replaced(before, i as int, max_fees);
                }
            },
            None => {
                self.max_fees_per_token.push(entry);
                proof {
                    lemma_first_index_push(before, in_token(token), entry);
                    assert(self.max_fees_per_token@[before.len() as int] == entry);
                    assert forall|other: [u8; 32]| other != token implies #[trigger] balance_of(
                        self.max_fees_per_token@,
                        other,
                    ) == balance_of(before, other) by {
                        lemma_first_index(before, in_token(other));
                        lemma_first_index_push(before, in_token(other), entry);
                        if position_of(before, other) is Some {
                            let k = position_of(before, other)->0;
                            assert(self.max_fees_per_token@[k] == before[k]);
                        }
                    }
                }
            },
        }
        proof {
            if old(self).wf() {
                assert forall|i: int| 0 <= i < self.payables@.len() implies all_amounts_positive(
                    (#[trigger] self.payables@[i]).payable.allowed_tokens_and_amounts@,
                ) && self.payables@[i].payable.allowed_tokens_and_amounts@.len()
                    <= MAX_PAYABLES_TOKENS by {
                    assert(old(self).payable_is_consistent(i));
                }
                lemma_wf_quiet_frame(*old(self), *self);
            }
        }
    }

    /// Whether the token is one the ledger supports.
    pub fn is_supported(&self, token: &[u8; 32]) -> (supported: bool)
        ensures
            supported == self.supports(*token),
    {
        find_token(&self.max_fees_per_token, token).is_some()
    }

    /// Where the payable with the given identifier stands, if there is one.
    pub fn find_payable(&self, id: &[u8; 32]) -> (found: Option<usize>)
        ensures
            match found {
                Some(i) => self.payable_index(id@) == Some(i as int) && i < self.payables@.len()
                    && self.payables@[i as int].payable.id == *id,
                None => self.payable_index(id@) is None,
            },
    {
        let mut i: usize = 0;
        while i < self.payables.len()
            invariant
                i <= self.payables.len(),
                forall|j: int| 0 <= j < i ==> !has_payable_id(id@)(#[trigger] self.payables@[j]),
            decreases self.payables.len() - i,
        {
            if same_bytes(&self.payables[i].payable.id, id) {
                proof {
                    lemma_first_is(self.payables@, has_payable_id(id@), i as int);
                }
                return Some(i);
            }
            i += 1;
        }
        proof {
            lemma_first_none(self.payables@, has_payable_id(id@));
        }
        None
    }

    /// Where the user with the given wallet stands, if there is one.
    pub fn find_user(&self, wallet: &[u8; 32]) -> (found: Option<usize>)
        ensures
            match found {
                Some(i) => self.user_index(*wallet) == Some(i as int) && i < self.users@.len()
                    && self.users@[i as int].user.owner_wallet == *wallet,
                None => self.user_index(*wallet) is None,
            },
    {
        let mut i: usize = 0;
        while i < self.users.len()
            invariant
                i <= self.users.len(),
                forall|j: int| 0 <= j < i ==> !has_wallet(*wallet)(#[trigger] self.users@[j]),
            decreases self.users.len() - i,
        {
            if same_bytes(&self.users[i].user.owner_wallet, wallet) {
                proof {
                    lemma_first_is(self.users@, has_wallet(*wallet), i as int);
                }
                return Some(i);
            }
            i += 1;
        }
        proof {
            lemma_first_none(self.users@, has_wallet(*wallet));
        }
        None
    }

    /// Where the payment with the given identifier stands, if there is one.
    pub fn find_payment(&self, id: &[u8; 32]) -> (found: Option<usize>)
        ensures
            match found {
                Some(j) => self.payment_index(id@) == Some(j as int) && j < self.payments@.len()
                    && self.payments@[j as int].payment_id == *id,
                None => self.payment_index(id@) is None,
            },
    {
        let mut j: usize = 0;
        while j < self.payments.len()
            invariant
                j <= self.payments.len(),
                forall|k: int| 0 <= k < j ==> !has_payment_id(id@)(#[trigger] self.payments@[k]),
            decreases self.payments.len() - j,
        {
            if same_bytes(&self.payments[j].payment_id, id) {
                proof {
                    lemma_first_is(self.payments@, has_payment_id(id@), j as int);
                }
                return Some(j);
            }
            j += 1;
        }
        proof {
            lemma_first_none(self.payments@, has_payment_id(id@));
        }
        None
    }
}

/// What the ledger hands in as the details of each listed token: the token
/// itself, and whether the ledger supports it.
pub open spec fn details_of_listed(
    supported: Seq<TokenAndAmount>,
    allowed: Seq<TokenAndAmount>,
) -> Seq<Option<TokenDetails>> {
    Seq::new(
        allowed.len(),
        |i: int|
            Some(
                TokenDetails {
                    mint: allowed[i].token,
                    is_supported: holds_token(supported, allowed[i].token),
                },
            ),
    )
}

/// A ledger that differs from a well-formed one only in what the rules of
/// the ledger do not speak of is well formed: the payments are the same,
/// the entries that were there list the same payments under the same
/// identity and count, and the entries that are new are consistent.
pub proof fn lemma_wf_frame(before: Chainbills, after: Chainbills)
    requires
        before.wf(),
        after.chain_id == before.chain_id,
        after.payments@ == before.payments@,
        after.chain_stats.payments_count == before.chain_stats.payments_count,
        after.payables@.len() == after.chain_stats.payables_count,
        after.users@.len() == after.chain_stats.users_count,
        after.withdrawals@.len() == after.chain_stats.withdrawals_count,
        after.payables@.len() >= before.payables@.len(),
        after.users@.len() >= before.users@.len(),
        forall|i: int|
            0 <= i < before.payables@.len() ==> {
                &&& (#[trigger] after.payables@[i]).payable.id == before.payables@[i].payable.id
                &&& after.payables@[i].payable.payments_count
                    == before.payables@[i].payable.payments_count
                &&& after.payables@[i].payment_ids@ == before.payables@[i].payment_ids@
                &&& after.payables@[i].payable@.wf()
                &&& after.books_balance(i)
            },
        forall|j: int| 0 <= j < after.withdrawals@.len() ==> after.withdrawal_has_payable(j),
        forall|i: int|
            before.payables@.len() <= i < after.payables@.len() ==> after.payable_is_consistent(i),
        forall|i: int|
            0 <= i < before.users@.len() ==> {
                &&& (#[trigger] after.users@[i]).user.owner_wallet
                    == before.users@[i].user.owner_wallet
                &&& after.users@[i].user.chain_id == before.users@[i].user.chain_id
                &&& after.users@[i].user.payments_count == before.users@[i].user.payments_count
                &&& after.users@[i].payment_ids@ == before.users@[i].payment_ids@
            },
        forall|i: int| before.users@.len() <= i < after.users@.len() ==> after.user_is_consistent(i),
    ensures
        after.wf(),
{
    assert forall|j: int| 0 <= j < after.payments@.len() implies after.payment_is_numbered(j) by {
        assert(before.payment_is_numbered(j));
    }
    assert forall|j: int| 0 <= j < after.payments@.len() implies after.payment_has_payable(j) by {
        assert(before.payment_has_payable(j));
        let i = choose|i: int|
            0 <= i < before.payables@.len() && (#[trigger] before.payables@[i]).payable.id
                == before.payments@[j].payable_payment.payable_id;
        assert(after.payables@[i].payable.id == before.payables@[i].payable.id);
    }
    assert forall|i: int| 0 <= i < after.payables@.len() implies after.payable_is_consistent(
        i,
    ) by {
        if i < before.payables@.len() {
            assert(before.payable_is_consistent(i));
            let entry = after.payables@[i];
            assert forall|k: int|
                0 <= k < entry.payment_ids@.len() implies payable_payment_is_recorded(
                after.payments@,
                entry,
                k,
            ) by {
                assert(payable_payment_is_recorded(before.payments@, before.payables@[i], k));
            }
        }
    }
    assert forall|i: int| 0 <= i < after.users@.len() implies after.user_is_consistent(i) by {
        if i < before.users@.len() {
            assert(before.user_is_consistent(i));
            let entry = after.users@[i];
            assert forall|k: int|
                0 <= k < entry.payment_ids@.len() implies user_payment_is_recorded(
                after.payments@,
                entry,
                k,
            ) by {
                assert(user_payment_is_recorded(before.payments@, before.users@[i], k));
            }
        }
    }
}

/// A ledger that differs from a well-formed one in neither its payments,
/// nor its withdrawals, nor what the payables that were there hold, list
/// and count, is well formed if the entries that are new are consistent.
pub proof fn lemma_wf_quiet_frame(before: Chainbills, after: Chainbills)
    requires
        before.wf(),
        after.chain_id == before.chain_id,
        after.payments@ == before.payments@,
        after.withdrawals@ == before.withdrawals@,
        after.chain_stats.payments_count == before.chain_stats.payments_count,
        after.chain_stats.withdrawals_count == before.chain_stats.withdrawals_count,
        after.payables@.len() == after.chain_stats.payables_count,
        after.users@.len() == after.chain_stats.users_count,
        after.payables@.len() >= before.payables@.len(),
        after.users@.len() >= before.users@.len(),
        forall|i: int|
            0 <= i < before.payables@.len() ==> {
                &&& (#[trigger] after.payables@[i]).payable.id == before.payables@[i].payable.id
                &&& after.payables@[i].payable.payments_count
                    == before.payables@[i].payable.payments_count
                &&& after.payables@[i].payment_ids@ == before.payables@[i].payment_ids@
                &&& after.payables@[i].payable.balances@ == before.payables@[i].payable.balances@
                &&& after.payables@[i].payable.allowed_tokens_and_amounts@.len()
                    <= MAX_PAYABLES_TOKENS
                &&& all_amounts_positive(after.payables@[i].payable.allowed_tokens_and_amounts@)
            },
        forall|i: int|
            before.payables@.len() <= i < after.payables@.len() ==> after.payable_is_consistent(i),
        forall|i: int|
            0 <= i < before.users@.len() ==> {
                &&& (#[trigger] after.users@[i]).user.owner_wallet
                    == before.users@[i].user.owner_wallet
                &&& after.users@[i].user.chain_id == before.users@[i].user.chain_id
                &&& after.users@[i].user.payments_count == before.users@[i].user.payments_count
                &&& after.users@[i].payment_ids@ == before.users@[i].payment_ids@
            },
        forall|i: int| before.users@.len() <= i < after.users@.len() ==> after.user_is_consistent(i),
    ensures
        after.wf(),
{
    assert forall|i: int| 0 <= i < before.payables@.len() implies (
    #[trigger] after.payables@[i]).payable@.wf() && after.books_balance(i) by {
        assert(before.payable_is_consistent(i));
        let entry = after.payables@[i];
        let earlier = before.payables@[i];
        assert forall|token: [u8; 32]| #[trigger]
            holds_token(entry.payable.balances@, token) == was_paid_in(
                after.payments@,
                entry.payable.id,
                token,
            ) by {
            assert(holds_token(earlier.payable.balances@, token) == was_paid_in(
                before.payments@,
                earlier.payable.id,
                token,
            ));
        }
        assert forall|token: [u8; 32]| #[trigger]
            amount_of(entry.payable.balances@, token) + withdrawn_total(
                after.withdrawals@,
                entry.payable.id,
                token,
            ) == paid_total(after.payments@, entry.payable.id, token) by {
            assert(amount_of(earlier.payable.balances@, token) + withdrawn_total(
                before.withdrawals@,
                earlier.payable.id,
                token,
            ) == paid_total(before.payments@, earlier.payable.id, token));
        }
    }
    assert forall|j: int| 0 <= j < after.withdrawals@.len() implies after.withdrawal_has_payable(
        j,
    ) by {
        assert(before.withdrawal_has_payable(j));
        let i = choose|i: int|
            0 <= i < before.payables@.len() && (#[trigger] before.payables@[i]).payable.id
                == before.withdrawals@[j].payable_id;
        assert(after.payables@[i].payable.id == before.payables@[i].payable.id);
    }
    lemma_wf_frame(before, after);
}

impl Chainbills {
    /// The user that acts from the given wallet: the one on record, or one
    /// that is entered on its first contact with the ledger.
    pub open spec fn user_of(&self, wallet: [u8; 32]) -> User {
        match self.user_index(wallet) {
            Some(i) => self.users@[i].user,
            None => User {
                owner_wallet: wallet,
                chain_id: self.chain_id,
                chain_count: (self.chain_stats.users_count + 1) as u64,
                payables_count: 0,
                payments_count: 0,
                withdrawals_count: 0,
            },
        }
    }

    /// Whether a payable is created for the host, and if not, why: the
    /// request must pass `creation_check`, with every listed token's
    /// details taken from the ledger, and a host that is new must be able
    /// to be entered.
    pub open spec fn create_payable_check(
        &self,
        host: [u8; 32],
        allowed: Seq<TokenAndAmount>,
    ) -> Result<(), ChainbillsError> {
        let checked = creation_check(
            self.chain_stats,
            self.user_of(host),
            allowed,
            details_of_listed(self.max_fees_per_token@, allowed),
        );
        if checked is Err {
            checked
        } else if self.user_index(host) is None && self.chain_stats.users_count == u64::MAX {
            Err(ChainbillsError::CounterOverflow)
        } else {
            Ok(())
        }
    }

    /// Creates a payable for the host that accepts the listed tokens and
    /// amounts, or any supported token and amount when none is listed, and
    /// gives its identifier.
    ///
    /// A request that `create_payable_check` rejects changes nothing. One
    /// that it accepts enters the host if it is new, advances the chain's
    /// and the host's count of payables by one, and puts the new payable
    /// last among the payables. Nothing else changes.
    pub fn create_payable(
        &mut self,
        host: [u8; 32],
        allowed_tokens_and_amounts: Vec<TokenAndAmount>,
        timestamp: u64,
    ) -> (r: Result<[u8; 32], ChainbillsError>)
        ensures
            match r {
                Err(e) => old(self).create_payable_check(host, allowed_tokens_and_amounts@)
                    == Err::<(), ChainbillsError>(e) && *final(self) == *old(self),
                Ok(id) => {
                    let host_before = old(self).user_of(host);
                    &&& old(self).create_payable_check(host, allowed_tokens_and_amounts@) is Ok
                    &&& final(self).chain_id == old(self).chain_id
                    &&& final(self).native_denom == old(self).native_denom
                    &&& final(self).max_fees_per_token == old(self).max_fees_per_token
                    &&& final(self).payable_chain_payments_count
                        == old(self).payable_chain_payments_count
                    &&& final(self).payments == old(self).payments
                    &&& final(self).withdrawals == old(self).withdrawals
                    &&& final(self).chain_stats == (GlobalStats {
                        payables_count: (old(self).chain_stats.payables_count + 1) as u64,
                        users_count: if old(self).user_index(host) is None {
                            (old(self).chain_stats.users_count + 1) as u64
                        } else {
                            old(self).chain_stats.users_count
                        },
                        ..old(self).chain_stats
                    })
                    &&& final(self).payables@.len() == old(self).payables@.len() + 1
                    &&& forall|i: int|
                        0 <= i < old(self).payables@.len() ==> final(self).payables@[i]
                            == old(self).payables@[i]
                    &&& final(self).payables@.last().payment_ids@.len() == 0
                    &&& final(self).payables@.last().payable@ == new_payable(
                        id,
                        old(self).chain_stats,
                        host_before,
                        Seq::empty(),
                        allowed_tokens_and_amounts@,
                        timestamp,
                    )
                    &&& id@ == id_bytes(
                        EntityKind::Payable,
                        host_before.chain_id,
                        final(self).chain_stats.payables_count,
                    )
                    &&& match old(self).user_index(host) {
                        Some(u) => {
                            &&& final(self).users@.len() == old(self).users@.len()
                            &&& forall|i: int|
                                0 <= i < old(self).users@.len() && i != u ==> final(self).users@[i]
                                    == old(self).users@[i]
                            &&& final(self).users@[u].payment_ids == old(self).users@[u].payment_ids
                            &&& final(self).users@[u].user == (User {
                                payables_count: (host_before.payables_count + 1) as u64,
                                ..host_before
                            })
                        },
                        None => {
                            &&& final(self).users@.len() == old(self).users@.len() + 1
                            &&& forall|i: int|
                                0 <= i < old(self).users@.len() ==> final(self).users@[i]
                                    == old(self).users@[i]
                            &&& final(self).users@.last().payment_ids@.len() == 0
                            &&& final(self).users@.last().user == (User {
                                payables_count: 1,
                                ..host_before
                            })
                        },
                    }
                },
            },
            old(self).wf() ==> final(self).wf(),
            old(self).wf() && r is Ok ==> final(self).payable_index(r->Ok_0@) == Some(
                old(self).payables@.len() as int,
            ),
    {
        let mut remaining_accounts: Vec<Option<TokenDetails>> = Vec::new();
        let mut k: usize = 0;
        while k < allowed_tokens_and_amounts.len()
            invariant
                k <= allowed_tokens_and_amounts.len(),
                remaining_accounts@.len() == k,
                forall|j: int|
                    0 <= j < k ==> remaining_accounts@[j] == details_of_listed(
                        self.max_fees_per_token@,
                        allowed_tokens_and_amounts@,
                    )[j],
            decreases allowed_tokens_and_amounts.len() - k,
        {
            let token = allowed_tokens_and_amounts[k].token;
            remaining_accounts.push(
                Some(TokenDetails { mint: token, is_supported: self.is_supported(&token) }),
            );
            k += 1;
        }
        assert(remaining_accounts@ =~= details_of_listed(
            self.max_fees_per_token@,
            allowed_tokens_and_amounts@,
        ));
        let found = self.find_user(&host);
        let (host_user, enterable) = match found {
            Some(u) => (self.users[u].user, true),
            None => match self.chain_stats.next_user() {
                Ok(chain_count) => (User::initialize(host, self.chain_id, chain_count), true),
                Err(_) => (User::initialize(host, self.chain_id, 0), false),
            },
        };
        let mut ctx = CreatePayable {
            payable: Payable {
                id: [0u8; 32],
                host,
                chain_count: 0,
                host_count: 0,
                description: String::new(),
                allowed_tokens_and_amounts: Vec::new(),
                balances: Vec::new(),
                created_at: 0,
                payments_count: 0,
                withdrawals_count: 0,
                is_closed: false,
            },
            host: host_user,
            chain_stats: self.chain_stats,
        };
        let ghost allowed = allowed_tokens_and_amounts@;
        let created = create_payable_handler(
            &mut ctx,
            allowed_tokens_and_amounts,
            &remaining_accounts,
            timestamp,
        );
        proof {
            // Whether the host can be entered has no part in `creation_check`.
            assert(creation_check(
                self.chain_stats,
                host_user,
                allowed,
                remaining_accounts@,
            ) == creation_check(self.chain_stats, self.user_of(host), allowed, remaining_accounts@));
        }
        let created = created?;
        if !enterable {
            return Err(ChainbillsError::CounterOverflow);
        }
        self.chain_stats.payables_count = ctx.chain_stats.payables_count;
        match found {
            Some(u) => {
                self.users[u].user = ctx.host;
            },
            None => {
                self.chain_stats.users_count = ctx.host.chain_count;
                self.users.push(UserEntry { user: ctx.host, payment_ids: Vec::new() });
            },
        }
        self.payables.push(PayableEntry { payable: ctx.payable, payment_ids: Vec::new() });
        proof {
            if old(self).wf() {
                let n = old(self).payables@.len() as int;
                lemma_first_index(old(self).users@, has_wallet(host));
                if found is Some {
                    assert(old(self).user_is_consistent(found->0 as int));
                }
                assert forall|i: int| 0 <= i < n implies !has_payable_id(created.payable_id@)(
                    #[trigger] self.payables@[i],
                ) by {
                    assert(old(self).payable_is_consistent(i));
                    if self.payables@[i].payable.id@ == created.payable_id@ {
                        lemma_derived_ids_are_distinct(
                            EntityKind::Payable,
                            self.chain_id,
                            (i + 1) as u64,
                            EntityKind::Payable,
                            self.chain_id,
                            (n + 1) as u64,
                        );
                    }
                }
                lemma_first_is(self.payables@, has_payable_id(created.payable_id@), n);
                let latest = self.payables@[n];
                assert forall|token: [u8; 32]| #[trigger]
                    holds_token(latest.payable.balances@, token) == was_paid_in(
                        self.payments@,
                        latest.payable.id,
                        token,
                    ) by {
                    lemma_first_none(latest.payable.balances@, in_token(token));
                    if was_paid_in(self.payments@, latest.payable.id, token) {
                        let j = choose|j: int|
                            0 <= j < self.payments@.len() && (
                            #[trigger] self.payments@[j]).payable_payment.payable_id
                                == latest.payable.id
                                && self.payments@[j].payable_payment.details.token == token;
                        assert(old(self).payment_has_payable(j));
                        let i = choose|i: int|
                            0 <= i < n && (#[trigger] old(self).payables@[i]).payable.id == old(
                                self,
                            ).payments@[j].payable_payment.payable_id;
                        assert(has_payable_id(created.payable_id@)(self.payables@[i]));
                    }
                }
                assert forall|j: int| 0 <= j < self.payments@.len() implies (
                #[trigger] self.payments@[j]).payable_payment.payable_id != latest.payable.id by {
                    assert(old(self).payment_has_payable(j));
                    let i = choose|i: int|
                        0 <= i < n && (#[trigger] old(self).payables@[i]).payable.id == old(
                            self,
                        ).payments@[j].payable_payment.payable_id;
                    assert(!has_payable_id(created.payable_id@)(self.payables@[i]));
                }
                assert forall|j: int| 0 <= j < self.withdrawals@.len() implies (
                #[trigger] self.withdrawals@[j]).payable_id != latest.payable.id by {
                    assert(old(self).withdrawal_has_payable(j));
                    let i = choose|i: int|
                        0 <= i < n && (#[trigger] old(self).payables@[i]).payable.id == old(
                            self,
                        ).withdrawals@[j].payable_id;
                    assert(!has_payable_id(created.payable_id@)(self.payables@[i]));
                }
                assert forall|token: [u8; 32]| #[trigger]
                    amount_of(latest.payable.balances@, token) + withdrawn_total(
                        self.withdrawals@,
                        latest.payable.id,
                        token,
                    ) == paid_total(self.payments@, latest.payable.id, token) by {
                    lemma_first_none(latest.payable.balances@, in_token(token));
                    lemma_nothing_paid(self.payments@, latest.payable.id, token);
                    lemma_nothing_withdrawn(self.withdrawals@, latest.payable.id, token);
                }
                assert(self.payable_is_consistent(n));
                if found is None {
                    assert(self.user_is_consistent(old(self).users@.len() as int));
                }
                assert forall|i: int| 0 <= i < n implies all_amounts_positive(
                    (#[trigger] self.payables@[i]).payable.allowed_tokens_and_amounts@,
                ) && self.payables@[i].payable.allowed_tokens_and_amounts@.len()
                    <= MAX_PAYABLES_TOKENS by {
                    assert(old(self).payable_is_consistent(i));
                }
                lemma_wf_quiet_frame(*old(self), *self);
            }
        }
        Ok(created.payable_id)
    }

    /// Whether the host's request to close or reopen a payable, or to
    /// replace what it accepts, is carried out, and if not, why: the
    /// payable must exist, and the caller must be its host.
    pub open spec fn host_check(&self, payable_id: [u8; 32], caller: [u8; 32]) -> Result<
        (),
        ChainbillsError,
    > {
        match self.payable_index(payable_id@) {
            None => Err(ChainbillsError::InvalidPayableId),
            Some(i) => if self.payables@[i].payable.host != caller {
                Err(ChainbillsError::NotYourPayable)
            } else {
                Ok(())
            },
        }
    }

    /// How a change to one payable, which leaves its identity, its counts
    /// and its list of payments alone, changes the ledger: the payable at
    /// position `i` becomes `changed`, and nothing else changes.
    pub open spec fn payable_changed(&self, after: Chainbills, i: int, changed: PayableView) -> bool {
        &&& after.chain_id == self.chain_id
        &&& after.native_denom == self.native_denom
        &&& after.chain_stats == self.chain_stats
        &&& after.max_fees_per_token == self.max_fees_per_token
        &&& after.users == self.users
        &&& after.payable_chain_payments_count == self.payable_chain_payments_count
        &&& after.payments == self.payments
        &&& after.withdrawals == self.withdrawals
        &&& after.payables@.len() == self.payables@.len()
        &&& forall|other: int|
            0 <= other < self.payables@.len() && other != i ==> after.payables@[other]
                == self.payables@[other]
        &&& after.payables@[i].payment_ids == self.payables@[i].payment_ids
        &&& after.payables@[i].payable@ == changed
    }

    fn set_closed(&mut self, payable_id: &[u8; 32], caller: &[u8; 32], closed: bool) -> (r: Result<
        (),
        ChainbillsError,
    >)
        ensures
            r == old(self).host_check(*payable_id, *caller),
            r is Err ==> *final(self) == *old(self),
            r is Ok ==> old(self).payable_changed(
                *final(self),
                old(self).payable_index(payable_id@)->0,
                PayableView {
                    is_closed: closed,
                    ..old(self).payables@[old(self).payable_index(payable_id@)->0].payable@
                },
            ),
            old(self).wf() ==> final(self).wf(),
    {
        let i = match self.find_payable(payable_id) {
            Some(i) => i,
            None => {
                return Err(ChainbillsError::InvalidPayableId);
            },
        };
        if !same_bytes(&self.payables[i].payable.host, caller) {
            return Err(ChainbillsError::NotYourPayable);
        }
        self.payables[i].payable.is_closed = closed;
        proof {
            if old(self).wf() {
                assert forall|p: int| 0 <= p < self.payables@.len() implies all_amounts_positive(
                    (#[trigger] self.payables@[p]).payable.allowed_tokens_and_amounts@,
                ) && self.payables@[p].payable.allowed_tokens_and_amounts@.len()
                    <= MAX_PAYABLES_TOKENS by {
                    assert(old(self).payable_is_consistent(p));
                }
                lemma_wf_quiet_frame(*old(self), *self);
            }
        }
        Ok(())
    }

    /// Closes a payable, so that it takes no more payments. What it holds
    /// stays, and can still be withdrawn. A request that `host_check`
    /// rejects changes nothing.
    pub fn close_payable(&mut self, payable_id: &[u8; 32], caller: &[u8; 32]) -> (r: Result<
        ClosedPayable,
        ChainbillsError,
    >)
        ensures
            match r {
                Err(e) => old(self).host_check(*payable_id, *caller) == Err::<(), ChainbillsError>(
                    e,
                ) && *final(self) == *old(self),
                Ok(event) => {
                    &&& old(self).host_check(*payable_id, *caller) is Ok
                    &&& event == (ClosedPayable { payable_id: *payable_id, host_wallet: *caller })
                    &&& old(self).payable_changed(
                        *final(self),
                        old(self).payable_index(payable_id@)->0,
                        PayableView {
                            is_closed: true,
                            ..old(self).payables@[old(self).payable_index(payable_id@)->0].payable@
                        },
                    )
                },
            },
            old(self).wf() ==> final(self).wf(),
    {
        self.set_closed(payable_id, caller, true)?;
        Ok(ClosedPayable { payable_id: *payable_id, host_wallet: *caller })
    }

    /// Reopens a payable, so that it takes payments again. A request that
    /// `host_check` rejects changes nothing.
    pub fn reopen_payable(&mut self, payable_id: &[u8; 32], caller: &[u8; 32]) -> (r: Result<
        ReopenedPayable,
        ChainbillsError,
    >)
        ensures
            match r {
                Err(e) => old(self).host_check(*payable_id, *caller) == Err::<(), ChainbillsError>(
                    e,
                ) && *final(self) == *old(self),
                Ok(event) => {
                    &&& old(self).host_check(*payable_id, *caller) is Ok
                    &&& event == (ReopenedPayable { payable_id: *payable_id, host_wallet: *caller })
                    &&& old(self).payable_changed(
                        *final(self),
                        old(self).payable_index(payable_id@)->0,
                        PayableView {
                            is_closed: false,
                            ..old(self).payables@[old(self).payable_index(payable_id@)->0].payable@
                        },
                    )
                },
            },
            old(self).wf() ==> final(self).wf(),
    {
        self.set_closed(payable_id, caller, false)?;
        Ok(ReopenedPayable { payable_id: *payable_id, host_wallet: *caller })
    }

    /// Whether the tokens and amounts that a payable accepts are replaced,
    /// and if not, why: the payable must exist, and the request must pass
    /// `update_check`.
    pub open spec fn update_allowed_check(
        &self,
        payable_id: [u8; 32],
        caller: [u8; 32],
        allowed: Seq<TokenAndAmount>,
    ) -> Result<(), ChainbillsError> {
        match self.payable_index(payable_id@) {
            None => Err(ChainbillsError::InvalidPayableId),
            Some(i) => update_check(self.payables@[i].payable@, caller, allowed),
        }
    }

    /// Replaces the tokens and amounts that a payable accepts. What the
    /// payable holds from payments under the former list stays as it is. A
    /// request that `update_allowed_check` rejects changes nothing.
    pub fn update_allowed_tokens_and_amounts(
        &mut self,
        payable_id: &[u8; 32],
        caller: &[u8; 32],
        allowed_tokens_and_amounts: Vec<TokenAndAmount>,
    ) -> (r: Result<UpdatedPayableAllowedTokensAndAmounts, ChainbillsError>)
        ensures
            match r {
                Err(e) => old(self).update_allowed_check(
                    *payable_id,
                    *caller,
                    allowed_tokens_and_amounts@,
                ) == Err::<(), ChainbillsError>(e) && *final(self) == *old(self),
                Ok(event) => {
                    &&& old(self).update_allowed_check(
                        *payable_id,
                        *caller,
                        allowed_tokens_and_amounts@,
                    ) is Ok
                    &&& event == (UpdatedPayableAllowedTokensAndAmounts {
                        payable_id: *payable_id,
                        host_wallet: *caller,
                    })
                    &&& old(self).payable_changed(
                        *final(self),
                        old(self).payable_index(payable_id@)->0,
                        PayableView {
                            allowed_tokens_and_amounts: allowed_tokens_and_amounts@,
                            ..old(self).payables@[old(self).payable_index(payable_id@)->0].payable@
                        },
                    )
                },
            },
            old(self).wf() ==> final(self).wf(),
    {
        let i = match self.find_payable(payable_id) {
            Some(i) => i,
            None => {
                return Err(ChainbillsError::InvalidPayableId);
            },
        };
        if !same_bytes(&self.payables[i].payable.host, caller) {
            return Err(ChainbillsError::NotYourPayable);
        }
        if allowed_tokens_and_amounts.len() > MAX_PAYABLES_TOKENS {
            return Err(ChainbillsError::MaxPayableTokensCapacityReached);
        }
        if !amounts_are_positive(&allowed_tokens_and_amounts) {
            return Err(ChainbillsError::ZeroAmountSpecified);
        }
        self.payables[i].payable.allowed_tokens_and_amounts = allowed_tokens_and_amounts;
        proof {
            if old(self).wf() {
                assert forall|p: int| 0 <= p < self.payables@.len() implies all_amounts_positive(
                    (#[trigger] self.payables@[p]).payable.allowed_tokens_and_amounts@,
                ) && self.payables@[p].payable.allowed_tokens_and_amounts@.len()
                    <= MAX_PAYABLES_TOKENS by {
                    assert(old(self).payable_is_consistent(p));
                }
                lemma_wf_quiet_frame(*old(self), *self);
            }
        }
        Ok(UpdatedPayableAllowedTokensAndAmounts { payable_id: *payable_id, host_wallet: *caller })
    }

    /// Whether a withdrawal is carried out, and if not, why: the payable
    /// must exist, the caller must be a user of the ledger, and the request
    /// must pass `withdrawal_check`.
    pub open spec fn withdraw_check(
        &self,
        payable_id: [u8; 32],
        caller: [u8; 32],
        token: [u8; 32],
        amount: u128,
    ) -> Result<(), ChainbillsError> {
        match self.payable_index(payable_id@) {
            None => Err(ChainbillsError::InvalidPayableId),
            Some(i) => match self.user_index(caller) {
                None => Err(ChainbillsError::NotYourPayable),
                Some(u) => withdrawal_check(
                    self.chain_stats,
                    self.payables@[i].payable@,
                    self.users@[u].user,
                    token,
                    amount,
                ),
            },
        }
    }

    /// Withdraws `amount` of `token` from a payable to its host, the
    /// caller.
    ///
    /// A request that `withdraw_check` rejects changes nothing. One that it
    /// accepts takes the full amount from the payable's balance in the
    /// token, advances the chain's, the payable's and the host's count of
    /// withdrawals by one, and puts the record of the withdrawal last among
    /// the withdrawals. The amount to transfer to the host is the amount
    /// asked for less the fee. Nothing else changes.
    pub fn withdraw(
        &mut self,
        payable_id: &[u8; 32],
        caller: &[u8; 32],
        token: [u8; 32],
        amount: u128,
        timestamp: u64,
    ) -> (r: Result<WithdrawalOutcome, ChainbillsError>)
        ensures
            match r {
                Err(e) => old(self).withdraw_check(*payable_id, *caller, token, amount) == Err::<
                    (),
                    ChainbillsError,
                >(e) && *final(self) == *old(self),
                Ok(outcome) => {
                    let i = old(self).payable_index(payable_id@)->0;
                    let u = old(self).user_index(*caller)->0;
                    let payable = old(self).payables@[i].payable@;
                    let host = old(self).users@[u].user;
                    &&& old(self).withdraw_check(*payable_id, *caller, token, amount) is Ok
                    &&& final(self).chain_id == old(self).chain_id
                    &&& final(self).native_denom == old(self).native_denom
                    &&& final(self).max_fees_per_token == old(self).max_fees_per_token
                    &&& final(self).payable_chain_payments_count
                        == old(self).payable_chain_payments_count
                    &&& final(self).payments == old(self).payments
                    &&& final(self).withdrawals@ == old(self).withdrawals@.push(outcome.withdrawal)
                    &&& final(self).payables@.len() == old(self).payables@.len()
                    &&& forall|other: int|
                        0 <= other < old(self).payables@.len() && other != i
                            ==> final(self).payables@[other]
                            == old(self).payables@[other]
                    &&& final(self).payables@[i].payment_ids == old(self).payables@[i].payment_ids
                    &&& final(self).users@.len() == old(self).users@.len()
                    &&& forall|other: int|
                        0 <= other < old(self).users@.len() && other != u
                            ==> final(self).users@[other]
                            == old(self).users@[other]
                    &&& final(self).users@[u].payment_ids == old(self).users@[u].payment_ids
                    &&& withdrawal_committed(
                        old(self).chain_stats,
                        payable,
                        host,
                        final(self).chain_stats,
                        final(self).payables@[i].payable@,
                        final(self).users@[u].user,
                        token,
                        amount,
                    )
                    &&& outcome.withdrawal == withdrawal_of(
                        old(self).chain_stats,
                        payable,
                        host,
                        token,
                        amount,
                        timestamp,
                    )
                    &&& outcome.withdrawal_id@ == id_bytes(
                        EntityKind::Withdrawal,
                        host.chain_id,
                        outcome.withdrawal.chain_count,
                    )
                    &&& outcome.amount_minus_fees == amount_minus_fees(amount)
                },
            },
            old(self).wf() ==> final(self).wf(),
    {
        let i = match self.find_payable(payable_id) {
            Some(i) => i,
            None => {
                return Err(ChainbillsError::InvalidPayableId);
            },
        };
        let u = match self.find_user(caller) {
            Some(u) => u,
            None => {
                return Err(ChainbillsError::NotYourPayable);
            },
        };
        let mut host = self.users[u].user;
        check_withdrawal(&self.chain_stats, &self.payables[i].payable, &host, &token, amount)?;
        let amount_minus_fees = net_of_fees(amount);
        let withdrawal = update_state_for_withdrawal(
            amount,
            token,
            &mut self.chain_stats,
            &mut self.payables[i].payable,
            &mut host,
            timestamp,
        )?;
        self.users[u].user = host;
        self.withdrawals.push(withdrawal);
        let withdrawal_id = derive_id(EntityKind::Withdrawal, host.chain_id, withdrawal.chain_count);
        proof {
            if old(self).wf() {
                assert forall|p: int| 0 <= p < self.payables@.len() implies (
                #[trigger] self.payables@[p]).payable@.wf() by {
                    assert(old(self).payable_is_consistent(p));
                }
                let held_before = old(self).payables@[i as int].payable.balances@;
                let held_after = self.payables@[i as int].payable.balances@;
                let paid_from = old(self).payables@[i as int].payable.id;
                lemma_debited(held_before, token, amount);
                assert(held_after == debited(held_before, token, amount));
                assert(self.withdrawals@[old(self).withdrawals@.len() as int] == withdrawal);
                assert forall|p: int| 0 <= p < self.payables@.len() implies self.books_balance(
                    p,
                ) by {
                    assert(old(self).payable_is_consistent(p));
                    let entry = self.payables@[p];
                    let earlier = old(self).payables@[p];
                    if p != i && entry.payable.id == paid_from {
                        assert(old(self).payable_is_consistent(i as int));
                        assert(entry.payable.id == earlier.payable.id);
                        lemma_derived_ids_are_distinct(
                            EntityKind::Payable,
                            self.chain_id,
                            (p + 1) as u64,
                            EntityKind::Payable,
                            self.chain_id,
                            (i + 1) as u64,
                        );
                    }
                    assert forall|t: [u8; 32]| #[trigger]
                        holds_token(entry.payable.balances@, t) == was_paid_in(
                            self.payments@,
                            entry.payable.id,
                            t,
                        ) by {
                        assert(holds_token(earlier.payable.balances@, t) == was_paid_in(
                            old(self).payments@,
                            earlier.payable.id,
                            t,
                        ));
                        if p == i {
                            if t == token {
                                assert(balance_of(debited(held_before, token, amount), token)
                                    is Some);
                            } else {
                                assert(balance_of(debited(held_before, token, amount), t)
                                    == balance_of(held_before, t));
                            }
                        }
                    }
                    assert forall|t: [u8; 32]| #[trigger]
                        amount_of(entry.payable.balances@, t) + withdrawn_total(
                            self.withdrawals@,
                            entry.payable.id,
                            t,
                        ) == paid_total(self.payments@, entry.payable.id, t) by {
                        assert(amount_of(earlier.payable.balances@, t) + withdrawn_total(
                            old(self).withdrawals@,
                            earlier.payable.id,
                            t,
                        ) == paid_total(old(self).payments@, earlier.payable.id, t));
                        lemma_withdrawn_total_grows(
                            old(self).withdrawals@,
                            withdrawal,
                            entry.payable.id,
                            t,
                        );
                        if p == i {
                            if t == token {
                                assert(balance_of(debited(held_before, token, amount), token)
                                    is Some);
                            } else {
                                assert(balance_of(debited(held_before, token, amount), t)
                                    == balance_of(held_before, t));
                            }
                        }
                    }
                }
                assert forall|j: int|
                    0 <= j < self.withdrawals@.len() implies self.withdrawal_has_payable(j) by {
                    if j < old(self).withdrawals@.len() {
                        assert(old(self).withdrawal_has_payable(j));
                        let p = choose|p: int|
                            0 <= p < old(self).payables@.len() && (
                            #[trigger] old(self).payables@[p]).payable.id == old(
                                self,
                            ).withdrawals@[j].payable_id;
                        assert(self.payables@[p].payable.id == old(self).payables@[p].payable.id);
                    } else {
                        assert(self.payables@[i as int].payable.id == withdrawal.payable_id);
                    }
                }
                assert forall|p: int| 0 <= p < self.payables@.len() implies (
                #[trigger] self.payables@[p]).payable@.wf() by {
                    assert(old(self).payable_is_consistent(p));
                }
                lemma_wf_frame(*old(self), *self);
            }
        }
        Ok(WithdrawalOutcome { withdrawal_id, withdrawal, amount_minus_fees })
    }
}

} // verus!
