//! A cross-chain payments ledger: hosts register payables, payers pay into
//! them in a given token and amount, and hosts withdraw what has accumulated.
//!
//! Every state transition is a verified function whose contract says which
//! request is rejected with which error (leaving the state untouched) and how
//! counters, balances and records change when the request is accepted.
//!
//! The modules `payable`, `payment` and `withdraw` work on the entities
//! that a request touches, handed in by the caller; `contract` and
//! `payments` keep all entities of one chain in a `Chainbills` ledger and
//! look them up by identifier. `laws` states what holds across operations.

pub mod contract;
pub mod counter;
pub mod error;
pub mod hex;
pub mod identity;
pub mod laws;
pub mod message;
pub mod payable;
pub mod payment;
pub mod payments;
pub mod search;
pub mod state;
pub mod tokens;
pub mod withdraw;

pub use contract::{Chainbills, PayableEntry, UserEntry};
pub use counter::{next_count, CounterEntry, CounterKey, CounterRegistry};
pub use error::ChainbillsError;
pub use hex::{parse_id, show_id};
pub use identity::{derive_id, is_zero_address, same_bytes, EntityKind};
pub use message::{
    check_message, state_of_message, AttestedMessage, MessageState, Payload, ReceivedMessage,
    ReplayGuard, ACTION_ID_PAY, ACTION_ID_WITHDRAW,
};
pub use payable::{
    close_payable_handler, create_payable_handler, initialize_described_payable,
    initialize_payable_handler, reopen_payable_handler,
    update_payable_allowed_tokens_and_amounts_handler, ClosedPayable, CreatePayable,
    CreatedPayable, InitializePayable, InitializedPayableEvent, ReopenedPayable, UpdatePayable,
    UpdatePayableAllowedTokensAndAmounts, UpdatedPayableAllowedTokensAndAmounts,
};
pub use payment::{
    check_payment, check_payment_inputs, record_payment, record_received_payment,
    PaymentRecords,
};
pub use payments::{
    check_native_payment, Coin, Cw20TransferFrom, ExecCtx, FetchIdMessage, IdMessage, Payments,
    Response, TransactionInfoMessage,
};
pub use state::{
    initialize, GlobalStats, Initialize, Payable, PayablePayment, TokenDetails, User,
    UserPayment, Withdrawal,
    MAX_PAYABLES_DESCRIPTION_LENGTH, MAX_PAYABLES_TOKENS,
};
pub use tokens::{
    amounts_are_positive, credit, debit, find_token, held_amount, is_accepted, TokenAndAmount,
};
pub use withdraw::{
    check_withdraw_inputs, check_withdrawal, net_of_fees, update_state_for_withdrawal,
    withdraw_handler, withdraw_received_handler, Withdraw, WithdrawReceived, WithdrawalOutcome,
    WITHDRAWAL_NET_PERCENT,
};
