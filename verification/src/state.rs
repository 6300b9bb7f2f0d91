//! The entities of the ledger: chain-wide statistics, users, payables, and
//! the immutable records of payments and withdrawals.

use crate::counter::{next_count, next_of};
use crate::error::ChainbillsError;
use crate::tokens::{all_amounts_positive, distinct_tokens, TokenAndAmount};
use vstd::prelude::*;

verus! {

/// The most tokens and amounts that a payable can list as accepted.
pub const MAX_PAYABLES_TOKENS: usize = 20;

/// The longest description, in bytes, that a payable can carry.
pub const MAX_PAYABLES_DESCRIPTION_LENGTH: usize = 3000;

/// How many users, payables, payments and withdrawals this chain has ever
/// seen. The counts never go down.
#[derive(Clone, Copy, Debug, PartialEq, Eq, Structural)]
pub struct GlobalStats {
    /// Total number of users that have ever been initialized.
    pub users_count: u64,
    /// Total number of payables that have ever been created.
    pub payables_count: u64,
    /// Total number of payments that have ever been made.
    pub payments_count: u64,
    /// Total number of withdrawals that have ever been made.
    pub withdrawals_count: u64,
}

impl GlobalStats {
    /// Statistics of a chain on which nothing has happened yet.
    pub fn new() -> (stats: GlobalStats)
        ensures
            stats == (GlobalStats {
                users_count: 0,
                payables_count: 0,
                payments_count: 0,
                withdrawals_count: 0,
            }),
    {
        GlobalStats { users_count: 0, payables_count: 0, payments_count: 0, withdrawals_count: 0 }
    }

    /// Sets every count to zero.
    pub fn initialize(&mut self)
        ensures
            *final(self) == (GlobalStats {
                users_count: 0,
                payables_count: 0,
                payments_count: 0,
                withdrawals_count: 0,
            }),
    {
        self.users_count = 0;
        self.payables_count = 0;
        self.payments_count = 0;
        self.withdrawals_count = 0;
    }

    /// The sequence number of the next user.
    pub fn next_user(&self) -> (r: Result<u64, ChainbillsError>)
        ensures
            r == next_of(self.users_count),
    {
        next_count(self.users_count)
    }

    /// The sequence number of the next payable.
    pub fn next_payable(&self) -> (r: Result<u64, ChainbillsError>)
        ensures
            r == next_of(self.payables_count),
    {
        next_count(self.payables_count)
    }

    /// The sequence number of the next payment.
    pub fn next_payment(&self) -> (r: Result<u64, ChainbillsError>)
        ensures
            r == next_of(self.payments_count),
    {
        next_count(self.payments_count)
    }

    /// The sequence number of the next withdrawal.
    pub fn next_withdrawal(&self) -> (r: Result<u64, ChainbillsError>)
        ensures
            r == next_of(self.withdrawals_count),
    {
        next_count(self.withdrawals_count)
    }
}

/// The entities that setting a chain up works on.
#[derive(Clone, Copy, Debug, PartialEq, Eq, Structural)]
pub struct Initialize {
    pub global_stats: GlobalStats,
}

/// Sets a chain up: every count of its statistics starts at zero.
pub fn initialize(ctx: &mut Initialize)
    ensures
        final(ctx).global_stats == (GlobalStats {
            users_count: 0,
            payables_count: 0,
            payments_count: 0,
            withdrawals_count: 0,
        }),
{
    ctx.global_stats.initialize();
}

/// A wallet known to the ledger, with how many payables it has created and
/// how many payments and withdrawals it has made.
#[derive(Clone, Copy, Debug, PartialEq, Eq)]
pub struct User {
    /// The wallet, in its chain-portable form.
    pub owner_wallet: [u8; 32],
    /// The chain on which the wallet lives.
    pub chain_id: u16,
    /// The position of this user among all users of the ledger.
    pub chain_count: u64,
    pub payables_count: u64,
    pub payments_count: u64,
    pub withdrawals_count: u64,
}

impl User {
    /// A user that has done nothing yet.
    pub fn initialize(owner_wallet: [u8; 32], chain_id: u16, chain_count: u64) -> (user: User)
        ensures
            user == (User {
                owner_wallet,
                chain_id,
                chain_count,
                payables_count: 0,
                payments_count: 0,
                withdrawals_count: 0,
            }),
    {
        User {
            owner_wallet,
            chain_id,
            chain_count,
            payables_count: 0,
            payments_count: 0,
            withdrawals_count: 0,
        }
    }

    /// The sequence number of the next payable of this user.
    pub fn next_payable(&self) -> (r: Result<u64, ChainbillsError>)
        ensures
            r == next_of(self.payables_count),
    {
        next_count(self.payables_count)
    }

    /// The sequence number of the next payment of this user.
    pub fn next_payment(&self) -> (r: Result<u64, ChainbillsError>)
        ensures
            r == next_of(self.payments_count),
    {
        next_count(self.payments_count)
    }

    /// The sequence number of the next withdrawal of this user.
    pub fn next_withdrawal(&self) -> (r: Result<u64, ChainbillsError>)
        ensures
            r == next_of(self.withdrawals_count),
    {
        next_count(self.withdrawals_count)
    }
}

/// What the ledger knows of a token.
#[derive(Clone, Copy, Debug, PartialEq, Eq)]
pub struct TokenDetails {
    pub mint: [u8; 32],
    /// Whether payments in the token are accepted at all.
    pub is_supported: bool,
}

/// An invoice-like receiver of payments.
#[derive(Debug)]
pub struct Payable {
    pub id: [u8; 32],
    /// The wallet that created the payable and may withdraw from it.
    pub host: [u8; 32],
    /// The position of this payable among all payables of the chain.
    pub chain_count: u64,
    /// The position of this payable among those of its host.
    pub host_count: u64,
    pub description: String,
    /// The tokens and exact amounts accepted; empty when anything is.
    pub allowed_tokens_and_amounts: Vec<TokenAndAmount>,
    /// What the payable currently holds, one entry for each token ever paid.
    pub balances: Vec<TokenAndAmount>,
    pub created_at: u64,
    pub payments_count: u64,
    pub withdrawals_count: u64,
    pub is_closed: bool,
}

/// A payable as a mathematical value.
pub struct PayableView {
    pub id: [u8; 32],
    pub host: [u8; 32],
    pub chain_count: u64,
    pub host_count: u64,
    pub description: Seq<char>,
    pub allowed_tokens_and_amounts: Seq<TokenAndAmount>,
    pub balances: Seq<TokenAndAmount>,
    pub created_at: u64,
    pub payments_count: u64,
    pub withdrawals_count: u64,
    pub is_closed: bool,
}

impl View for Payable {
    type V = PayableView;

    open spec fn view(&self) -> PayableView {
        PayableView {
            id: self.id,
            host: self.host,
            chain_count: self.chain_count,
            host_count: self.host_count,
            description: self.description@,
            allowed_tokens_and_amounts: self.allowed_tokens_and_amounts@,
            balances: self.balances@,
            created_at: self.created_at,
            payments_count: self.payments_count,
            withdrawals_count: self.withdrawals_count,
            is_closed: self.is_closed,
        }
    }
}

impl PayableView {
    /// What every payable that the ledger created or changed satisfies: its
    /// list of accepted tokens is bounded and names no zero amount, and its
    /// balances hold each token once.
    pub open spec fn wf(self) -> bool {
        &&& self.allowed_tokens_and_amounts.len() <= MAX_PAYABLES_TOKENS
        &&& all_amounts_positive(self.allowed_tokens_and_amounts)
        &&& distinct_tokens(self.balances)
    }
}

impl Payable {
    /// The sequence number of the next payment to this payable.
    pub fn next_payment(&self) -> (r: Result<u64, ChainbillsError>)
        ensures
            r == next_of(self.payments_count),
    {
        next_count(self.payments_count)
    }

    /// The sequence number of the next withdrawal from this payable.
    pub fn next_withdrawal(&self) -> (r: Result<u64, ChainbillsError>)
        ensures
            r == next_of(self.withdrawals_count),
    {
        next_count(self.withdrawals_count)
    }
}

/// A payment as its payer sees it.
#[derive(Clone, Copy, Debug, PartialEq, Eq)]
pub struct UserPayment {
    pub payable_id: [u8; 32],
    pub payer: [u8; 32],
    /// The chain on which the payable lives.
    pub payable_chain_id: u16,
    /// The position of the payment among all payments of the chain.
    pub chain_count: u64,
    /// The position of the payment among those of its payer.
    pub payer_count: u64,
    /// The position of the payment among those to its payable.
    pub payable_count: u64,
    pub timestamp: u64,
    pub details: TokenAndAmount,
}

/// A payment as the payable that received it sees it.
#[derive(Clone, Copy, Debug, PartialEq, Eq)]
pub struct PayablePayment {
    pub payable_id: [u8; 32],
    pub payer: [u8; 32],
    /// The chain from which the payment came.
    pub payer_chain_id: u16,
    /// The position of the payment among those that came to its payable
    /// from the payer's chain.
    pub local_chain_count: u64,
    /// The position of the payment among those to its payable.
    pub payable_count: u64,
    /// The position of the payment among those of its payer.
    pub payer_count: u64,
    pub timestamp: u64,
    pub details: TokenAndAmount,
}

/// A withdrawal by the host of a payable.
#[derive(Clone, Copy, Debug, PartialEq, Eq)]
pub struct Withdrawal {
    pub payable_id: [u8; 32],
    pub host: [u8; 32],
    /// The position of the withdrawal among all withdrawals of the chain.
    pub chain_count: u64,
    /// The position of the withdrawal among those from its payable.
    pub payable_count: u64,
    /// The position of the withdrawal among those of its host.
    pub host_count: u64,
    pub timestamp: u64,
    /// The token and the amount asked for, before the fee.
    pub details: TokenAndAmount,
}

} // verus!
