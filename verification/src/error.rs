//! The reasons for which the ledger rejects a request.

use vstd::prelude::*;

verus! {

/// Why a request was rejected. A rejected request leaves every piece of
/// state as it was.
#[derive(Clone, Copy, Debug, PartialEq, Eq, Structural)]
pub enum ChainbillsError {
    /// The text given as an identifier is not hexadecimal.
    InvalidHex,
    /// No payable has the given identifier.
    InvalidPayableId,
    /// No payment has the given identifier.
    InvalidPaymentId,
    /// The user has made fewer payments than the position asked for.
    InvalidUserPaymentCount,
    /// The payable has received fewer payments than the position asked for.
    InvalidPayablePaymentCount,
    /// The payable no longer accepts payments.
    PayableIsClosed,
    /// An amount of zero was given.
    ZeroAmountSpecified,
    /// The token is not one the ledger supports.
    InvalidToken,
    /// The payable lists what it accepts, and this token and amount is not listed.
    MatchingTokenAndAmountNotFound,
    /// The funds sent along are not a single coin of the native token.
    PaymentError,
    /// The funds sent along differ from the amount of a payment in the
    /// native token.
    InvalidNativeTokenPayment,
    /// The caller is not the host of the payable.
    NotYourPayable,
    /// The payable holds nothing in the token to withdraw.
    NoBalanceForWithdrawalToken,
    /// The payable holds less than the amount to withdraw.
    InsufficientWithdrawAmount,
    /// The description is empty or only white space.
    EmptyDescriptionProvided,
    /// The description is longer than allowed.
    MaxPayableDescriptionReached,
    /// More accepted tokens and amounts were listed than allowed.
    MaxPayableTokensCapacityReached,
    /// The payable must either accept anything or list what it accepts.
    ImproperPayablesConfiguration,
    /// The number of token details differs from the number of listed tokens.
    InvalidRemainingAccountsLength,
    /// What was given in place of a token's details is not token details.
    NonTokenDetailsAccountProvided,
    /// The token details belong to another token than the listed one.
    InvalidTokenDetailsAccount,
    /// A listed token is not supported.
    UnsupportedToken,
    /// The attested message was applied before.
    DuplicateMessage,
    /// The attested message asks for another kind of action.
    InvalidActionId,
    /// The caller named in the attested message is zero or not the one given.
    InvalidCallerAddress,
    /// The caller named in the attested message is not the expected wallet.
    UnauthorizedCallerAddress,
    /// The attested message names another payable.
    NotMatchingPayableId,
    /// The attested message names another token.
    NotMatchingTransactionToken,
    /// The attested message names another amount.
    NotMatchingTransactionAmount,
    /// The sequence number given for the host's withdrawal is not the next one.
    WrongWithdrawalsHostCountProvided,
    /// A sequence counter has reached the end of its range.
    CounterOverflow,
    /// A balance would exceed the range of amounts.
    BalanceOverflow,
}

} // verus!
