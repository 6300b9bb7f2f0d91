//! Lists of tokens with amounts: what a payable accepts and what it holds.

use crate::error::ChainbillsError;
use crate::identity::same_bytes;
use crate::search::{
    first_index, lemma_first_index, lemma_first_index_push, lemma_first_index_update,
    lemma_first_is, lemma_first_none,
};
use vstd::prelude::*;

verus! {

/// An amount of one token.
#[derive(Clone, Copy, Debug, PartialEq, Eq)]
pub struct TokenAndAmount {
    pub token: [u8; 32],
    pub amount: u128,
}

/// The entries in the given token.
pub open spec fn in_token(token: [u8; 32]) -> spec_fn(TokenAndAmount) -> bool {
    |entry: TokenAndAmount| entry.token == token
}

/// The position of the first entry in the given token, if there is one.
pub open spec fn position_of(list: Seq<TokenAndAmount>, token: [u8; 32]) -> Option<int> {
    first_index(list, in_token(token))
}

/// Whether some entry of the list is in the given token.
pub open spec fn holds_token(list: Seq<TokenAndAmount>, token: [u8; 32]) -> bool {
    position_of(list, token) is Some
}

/// The amount that the list records for a token: that of the first entry in
/// the token, or `None` when there is no such entry.
pub open spec fn balance_of(list: Seq<TokenAndAmount>, token: [u8; 32]) -> Option<u128> {
    match position_of(list, token) {
        Some(i) => Some(list[i].amount),
        None => None,
    }
}

/// The amount that the list records for a token, zero when there is none.
pub open spec fn amount_of(list: Seq<TokenAndAmount>, token: [u8; 32]) -> nat {
    match balance_of(list, token) {
        Some(amount) => amount as nat,
        None => 0,
    }
}

/// Whether no token has two entries in the list.
pub open spec fn distinct_tokens(list: Seq<TokenAndAmount>) -> bool {
    forall|i: int, j: int|
        0 <= i < j < list.len() ==> (#[trigger] list[i]).token != (#[trigger] list[j]).token
}

/// Whether a payment of `amount` in `token` is acceptable to a payable with
/// this list of accepted tokens and amounts: an empty list accepts anything,
/// any other list only what it names exactly.
pub open spec fn accepts(list: Seq<TokenAndAmount>, token: [u8; 32], amount: u128) -> bool {
    list.len() == 0 || exists|i: int|
        0 <= i < list.len() && (#[trigger] list[i]).token == token && list[i].amount == amount
}

/// Whether every amount in the list is above zero.
pub open spec fn all_amounts_positive(list: Seq<TokenAndAmount>) -> bool {
    forall|i: int| 0 <= i < list.len() ==> (#[trigger] list[i]).amount > 0
}

/// The list after `amount` was added to what it records for `token`: the
/// first entry in the token grows, or a new entry closes the list.
pub open spec fn credited(list: Seq<TokenAndAmount>, token: [u8; 32], amount: u128) -> Seq<
    TokenAndAmount,
> {
    match position_of(list, token) {
        Some(i) => list.update(
            i,
            TokenAndAmount { token, amount: (list[i].amount + amount) as u128 },
        ),
        None => list.push(TokenAndAmount { token, amount }),
    }
}

/// The list after `amount` was taken from the first entry in `token`.
pub open spec fn debited(list: Seq<TokenAndAmount>, token: [u8; 32], amount: u128) -> Seq<
    TokenAndAmount,
> {
    match position_of(list, token) {
        Some(i) => list.update(
            i,
            TokenAndAmount { token, amount: (list[i].amount - amount) as u128 },
        ),
        None => list,
    }
}

/// Whether `amount` of `token` can be taken from the list, and if not, why.
pub open spec fn debit_outcome(list: Seq<TokenAndAmount>, token: [u8; 32], amount: u128) -> Result<
    (),
    ChainbillsError,
> {
    match balance_of(list, token) {
        None => Err(ChainbillsError::NoBalanceForWithdrawalToken),
        Some(held) => if held < amount {
            Err(ChainbillsError::InsufficientWithdrawAmount)
        } else {
            Ok(())
        },
    }
}

/// Finds the first entry in the given token.
pub fn find_token(list: &Vec<TokenAndAmount>, token: &[u8; 32]) -> (found: Option<usize>)
    ensures
        match found {
            Some(i) => position_of(list@, *token) == Some(i as int) && i < list@.len()
                && list@[i as int].token == *token,
            None => position_of(list@, *token) is None,
        },
{
    let mut i: usize = 0;
    while i < list.len()
        invariant
            i <= list.len(),
            forall|j: int| 0 <= j < i ==> !in_token(*token)(#[trigger] list@[j]),
        decreases list.len() - i,
    {
        if same_bytes(&list[i].token, token) {
            proof {
                lemma_first_is(list@, in_token(*token), i as int);
            }
            return Some(i);
        }
        i += 1;
    }
    proof {
        lemma_first_none(list@, in_token(*token));
    }
    None
}

/// What the list records for a token, zero when it has no entry.
pub fn held_amount(list: &Vec<TokenAndAmount>, token: &[u8; 32]) -> (held: u128)
    ensures
        held == amount_of(list@, *token),
{
    match find_token(list, token) {
        Some(i) => list[i].amount,
        None => 0,
    }
}

/// Whether a payment of `amount` in `token` is acceptable under the list.
pub fn is_accepted(list: &Vec<TokenAndAmount>, token: &[u8; 32], amount: u128) -> (ok: bool)
    ensures
        ok == accepts(list@, *token, amount),
{
    if list.len() == 0 {
        return true;
    }
    let mut i: usize = 0;
    while i < list.len()
        invariant
            i <= list.len(),
            forall|j: int|
                0 <= j < i ==> !((#[trigger] list@[j]).token == *token && list@[j].amount
                    == amount),
        decreases list.len() - i,
    {
        if same_bytes(&list[i].token, token) && list[i].amount == amount {
            return true;
        }
        i += 1;
    }
    false
}

/// Whether every amount in the list is above zero.
pub fn amounts_are_positive(list: &Vec<TokenAndAmount>) -> (ok: bool)
    ensures
        ok == all_amounts_positive(list@),
{
    let mut i: usize = 0;
    while i < list.len()
        invariant
            i <= list.len(),
            forall|j: int| 0 <= j < i ==> (#[trigger] list@[j]).amount > 0,
        decreases list.len() - i,
    {
        if list[i].amount == 0 {
            return false;
        }
        i += 1;
    }
    true
}

/// Adds `amount` to what the list records for `token`, opening an entry when
/// the token has none. Fails, changing nothing, when the sum leaves the range
/// of amounts.
pub fn credit(list: &mut Vec<TokenAndAmount>, token: [u8; 32], amount: u128) -> (r: Result<
    (),
    ChainbillsError,
>)
    ensures
        amount_of(old(list)@, token) + amount > u128::MAX ==> r == Err::<(), ChainbillsError>(
            ChainbillsError::BalanceOverflow,
        ) && *final(list) == *old(list),
        amount_of(old(list)@, token) + amount <= u128::MAX ==> r is Ok && final(list)@
            == credited(old(list)@, token, amount),
{
    match find_token(list, &token) {
        Some(i) => {
            let held: u128 = list[i].amount;
            match held.checked_add(amount) {
                Some(sum) => {
                    list[i] = TokenAndAmount { token, amount: sum };
                    Ok(())
                },
                None => Err(ChainbillsError::BalanceOverflow),
            }
        },
        None => {
            list.push(TokenAndAmount { token, amount });
            Ok(())
        },
    }
}

/// Takes `amount` from what the list records for `token`. Fails, changing
/// nothing, when the token has no entry or its entry holds less.
pub fn debit(list: &mut Vec<TokenAndAmount>, token: [u8; 32], amount: u128) -> (r: Result<
    (),
    ChainbillsError,
>)
    ensures
        r == debit_outcome(old(list)@, token, amount),
        r is Err ==> *final(list) == *old(list),
        r is Ok ==> final(list)@ == debited(old(list)@, token, amount),
{
    match find_token(list, &token) {
        Some(i) => {
            let held: u128 = list[i].amount;
            if held < amount {
                return Err(ChainbillsError::InsufficientWithdrawAmount);
            }
            list[i] = TokenAndAmount { token, amount: (held - amount) };
            Ok(())
        },
        None => Err(ChainbillsError::NoBalanceForWithdrawalToken),
    }
}

/// Replacing the amount of an entry changes the balance of its token alone,
/// and brings no token in twice.
pub proof fn lemma_amount_replaced(list: Seq<TokenAndAmount>, i: int, amount: u128)
    requires
        position_of(list, list[i].token) == Some(i),
    ensures
        ({
            let token = list[i].token;
            let after = list.update(i, TokenAndAmount { token, amount });
            &&& balance_of(after, token) == Some(amount)
            &&& forall|other: [u8; 32]|
                other != token ==> #[trigger] balance_of(after, other) == balance_of(list, other)
            &&& distinct_tokens(list) ==> distinct_tokens(after)
        }),
{
    let token = list[i].token;
    let entry = TokenAndAmount { token, amount };
    let after = list.update(i, entry);
    lemma_first_index(list, in_token(token));
    lemma_first_index_update(list, in_token(token), i, entry);
    assert forall|other: [u8; 32]| other != token implies #[trigger] balance_of(after, other)
        == balance_of(list, other) by {
        lemma_first_index(list, in_token(other));
        lemma_first_index_update(list, in_token(other), i, entry);
    }
    if distinct_tokens(list) {
        assert forall|a: int, b: int| 0 <= a < b < after.len() implies (#[trigger] after[a]).token
            != (#[trigger] after[b]).token by {
            assert(list[a].token != list[b].token);
        }
    }
}

/// Crediting a token raises its balance by the amount and leaves every other
/// balance, and the absence of duplicates, as it was.
pub proof fn lemma_credited(list: Seq<TokenAndAmount>, token: [u8; 32], amount: u128)
    requires
        amount_of(list, token) + amount <= u128::MAX,
    ensures
        balance_of(credited(list, token, amount), token) == Some(
            (amount_of(list, token) + amount) as u128,
        ),
        forall|other: [u8; 32]|
            other != token ==> #[trigger] balance_of(credited(list, token, amount), other)
                == balance_of(list, other),
        distinct_tokens(list) ==> distinct_tokens(credited(list, token, amount)),
{
    lemma_first_index(list, in_token(token));
    match position_of(list, token) {
        Some(i) => {
            lemma_amount_replaced(list, i, (list[i].amount + amount) as u128);
        },
        None => {
            let entry = TokenAndAmount { token, amount };
            let after = list.push(entry);
            lemma_first_index_push(list, in_token(token), entry);
            assert(after[list.len() as int] == entry);
            assert forall|other: [u8; 32]| other != token implies #[trigger] balance_of(
                after,
                other,
            ) == balance_of(list, other) by {
                lemma_first_index(list, in_token(other));
                lemma_first_index_push(list, in_token(other), entry);
                if position_of(list, other) is Some {
                    let k = position_of(list, other)->0;
                    assert(after[k] == list[k]);
                }
            }
            if distinct_tokens(list) {
                assert forall|a: int, b: int| 0 <= a < b < after.len() implies (
                #[trigger] after[a]).token != (#[trigger] after[b]).token by {
                    assert(after[a] == list[a]);
                    if b < list.len() {
                        assert(after[b] == list[b]);
                    } else {
                        assert(!in_token(token)(list[a]));
                    }
                }
            }
        },
    }
}

/// Debiting a token that holds enough lowers its balance by the amount and
/// leaves every other balance, and the absence of duplicates, as it was.
pub proof fn lemma_debited(list: Seq<TokenAndAmount>, token: [u8; 32], amount: u128)
    requires
        debit_outcome(list, token, amount) is Ok,
    ensures
        balance_of(debited(list, token, amount), token) == Some(
            (amount_of(list, token) - amount) as u128,
        ),
        forall|other: [u8; 32]|
            other != token ==> #[trigger] balance_of(debited(list, token, amount), other)
                == balance_of(list, other),
        distinct_tokens(list) ==> distinct_tokens(debited(list, token, amount)),
{
    lemma_first_index(list, in_token(token));
    let i = position_of(list, token)->0;
    lemma_amount_replaced(list, i, (list[i].amount - amount) as u128);
}

} // verus!
