//! The validator of attested messages from other chains: every message is
//! applied at most once, and only when what it says matches what is asked.
//!
//! A message is unseen until `check_message` accepts it, verified from then
//! until the action it asks for is committed, and applied once
//! `ReplayGuard::remember` has recorded it together with that commit. An
//! applied message stays applied, and is rejected whenever it comes again.

use crate::error::ChainbillsError;
use crate::identity::{is_zero_address, same_bytes, zero_address};
use crate::tokens::TokenAndAmount;
use vstd::prelude::*;

verus! {

/// The action that an attested message asks for: a payment.
pub const ACTION_ID_PAY: u8 = 1;

/// The action that an attested message asks for: a withdrawal.
pub const ACTION_ID_WITHDRAW: u8 = 2;

/// What an attested message says, decoded.
#[derive(Clone, Copy, Debug, PartialEq, Eq)]
pub struct Payload {
    pub action_id: u8,
    /// The position of the action among the actions of its kind on the
    /// chain that sent the message.
    pub chain_count: u64,
    /// The wallet that asked for the action on the other chain.
    pub caller: [u8; 32],
    pub payable_id: [u8; 32],
    pub details: TokenAndAmount,
}

/// A message whose attestation was verified by its source.
#[derive(Clone, Copy, Debug, PartialEq, Eq)]
pub struct AttestedMessage {
    /// The chain that sent the message.
    pub emitter_chain: u16,
    pub payload: Payload,
}

/// A message that was applied: the chain it came from and its hash.
#[derive(Clone, Copy, Debug, PartialEq, Eq)]
pub struct ReceivedMessage {
    pub emitter_chain: u16,
    pub vaa_hash: [u8; 32],
}

/// The messages that were applied so far.
#[derive(Debug)]
pub struct ReplayGuard {
    pub seen: Vec<ReceivedMessage>,
}

impl View for ReplayGuard {
    type V = Set<ReceivedMessage>;

    open spec fn view(&self) -> Set<ReceivedMessage> {
        Set::new(|m: ReceivedMessage| self.seen@.contains(m))
    }
}

impl ReplayGuard {
    /// A guard that has seen no message.
    pub fn new() -> (guard: ReplayGuard)
        ensures
            guard@ == Set::<ReceivedMessage>::empty(),
    {
        let guard = ReplayGuard { seen: Vec::new() };
        assert(guard@ =~= Set::<ReceivedMessage>::empty());
        guard
    }

    /// Whether the message with this hash from this chain was applied.
    pub fn has_seen(&self, emitter_chain: u16, vaa_hash: &[u8; 32]) -> (seen: bool)
        ensures
            seen == self@.contains(ReceivedMessage { emitter_chain, vaa_hash: *vaa_hash }),
    {
        let ghost wanted = ReceivedMessage { emitter_chain, vaa_hash: *vaa_hash };
        let mut i: usize = 0;
        while i < self.seen.len()
            invariant
                i <= self.seen.len(),
                wanted == (ReceivedMessage { emitter_chain, vaa_hash: *vaa_hash }),
                forall|j: int| 0 <= j < i ==> self.seen@[j] != wanted,
            decreases self.seen.len() - i,
        {
            let entry = &self.seen[i];
            if entry.emitter_chain == emitter_chain && same_bytes(&entry.vaa_hash, vaa_hash) {
                assert(self.seen@[i as int] == wanted);
                return true;
            }
            i += 1;
        }
        false
    }

    /// Records that the message with this hash from this chain was applied.
    pub fn remember(&mut self, emitter_chain: u16, vaa_hash: [u8; 32])
        ensures
            final(self)@ == old(self)@.insert(ReceivedMessage { emitter_chain, vaa_hash }),
    {
        let message = ReceivedMessage { emitter_chain, vaa_hash };
        self.seen.push(message);
        assert forall|m: ReceivedMessage| self@.contains(m) == old(self)@.insert(
            message,
        ).contains(m) by {
            if old(self).seen@.contains(m) {
                let k = choose|k: int| 0 <= k < old(self).seen@.len() && old(self).seen@[k] == m;
                assert(self.seen@[k] == m);
            }
            if m == message {
                assert(self.seen@[old(self).seen@.len() as int] == m);
            }
        }
        assert(self@ =~= old(self)@.insert(message));
    }
}

/// Whether an attested message may be applied, and if not, why. The checks
/// come in this order, and the first that fails decides: the message was not
/// applied before; it asks for the expected action; the caller it names is
/// not zero and is the caller given; that caller is the wallet expected, on
/// the chain that sent the message; and it names the expected payable.
pub open spec fn message_check(
    seen: Set<ReceivedMessage>,
    message: AttestedMessage,
    vaa_hash: [u8; 32],
    expected_action: u8,
    caller: [u8; 32],
    expected_wallet: [u8; 32],
    expected_chain: u16,
    payable_id: [u8; 32],
) -> Result<(), ChainbillsError> {
    if seen.contains(ReceivedMessage { emitter_chain: message.emitter_chain, vaa_hash }) {
        Err(ChainbillsError::DuplicateMessage)
    } else if message.payload.action_id != expected_action {
        Err(ChainbillsError::InvalidActionId)
    } else if message.payload.caller != caller || caller@ == zero_address() {
        Err(ChainbillsError::InvalidCallerAddress)
    } else if expected_wallet != caller || expected_chain != message.emitter_chain {
        Err(ChainbillsError::UnauthorizedCallerAddress)
    } else if message.payload.payable_id != payable_id {
        Err(ChainbillsError::NotMatchingPayableId)
    } else {
        Ok(())
    }
}

/// Where an attested message stands on its way into the ledger.
#[derive(Clone, Copy, Debug, PartialEq, Eq, Structural)]
pub enum MessageState {
    /// Not applied, and not acceptable as the request presents it.
    Unseen,
    /// Not applied, and acceptable: the action it asks for may be committed.
    Verified,
    /// Applied: the action it asked for was committed.
    Applied,
}

/// Where a message stands: applied if it is among the messages applied so
/// far, verified if it is not and passes `message_check`, unseen otherwise.
pub open spec fn message_state(
    seen: Set<ReceivedMessage>,
    message: AttestedMessage,
    vaa_hash: [u8; 32],
    expected_action: u8,
    caller: [u8; 32],
    expected_wallet: [u8; 32],
    expected_chain: u16,
    payable_id: [u8; 32],
) -> MessageState {
    if seen.contains(ReceivedMessage { emitter_chain: message.emitter_chain, vaa_hash }) {
        MessageState::Applied
    } else if message_check(
        seen,
        message,
        vaa_hash,
        expected_action,
        caller,
        expected_wallet,
        expected_chain,
        payable_id,
    ) is Ok {
        MessageState::Verified
    } else {
        MessageState::Unseen
    }
}

/// Tells where a message stands, without changing anything.
pub fn state_of_message(
    guard: &ReplayGuard,
    message: &AttestedMessage,
    vaa_hash: &[u8; 32],
    expected_action: u8,
    caller: &[u8; 32],
    expected_wallet: &[u8; 32],
    expected_chain: u16,
    payable_id: &[u8; 32],
) -> (state: MessageState)
    ensures
        state == message_state(
            guard@,
            *message,
            *vaa_hash,
            expected_action,
            *caller,
            *expected_wallet,
            expected_chain,
            *payable_id,
        ),
{
    match check_message(
        guard,
        message,
        vaa_hash,
        expected_action,
        caller,
        expected_wallet,
        expected_chain,
        payable_id,
    ) {
        Ok(()) => MessageState::Verified,
        Err(ChainbillsError::DuplicateMessage) => MessageState::Applied,
        Err(_) => MessageState::Unseen,
    }
}

/// Checks an attested message against the messages applied so far and
/// against what the request expects of it.
pub fn check_message(
    guard: &ReplayGuard,
    message: &AttestedMessage,
    vaa_hash: &[u8; 32],
    expected_action: u8,
    caller: &[u8; 32],
    expected_wallet: &[u8; 32],
    expected_chain: u16,
    payable_id: &[u8; 32],
) -> (r: Result<(), ChainbillsError>)
    ensures
        r == message_check(
            guard@,
            *message,
            *vaa_hash,
            expected_action,
            *caller,
            *expected_wallet,
            expected_chain,
            *payable_id,
        ),
{
    if guard.has_seen(message.emitter_chain, vaa_hash) {
        return Err(ChainbillsError::DuplicateMessage);
    }
    if message.payload.action_id != expected_action {
        return Err(ChainbillsError::InvalidActionId);
    }
    if !same_bytes(&message.payload.caller, caller) || is_zero_address(caller) {
        return Err(ChainbillsError::InvalidCallerAddress);
    }
    if !same_bytes(expected_wallet, caller) || expected_chain != message.emitter_chain {
        return Err(ChainbillsError::UnauthorizedCallerAddress);
    }
    if !same_bytes(&message.payload.payable_id, payable_id) {
        return Err(ChainbillsError::NotMatchingPayableId);
    }
    Ok(())
}

} // verus!
