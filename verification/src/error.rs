//! Every way an oracle operation can be refused. A refused operation leaves
//! the state untouched; the contracts of the operations say exactly which
//! error comes on which input.

use vstd::prelude::*;

verus! {

/// The reasons the oracle refuses an operation.
#[derive(Clone, Copy, PartialEq, Eq, Structural, Debug)]
pub enum OracleError {
    /// The request payload names no description and no sources.
    DescriptionRequired,
    /// The request payload names more sources than allowed.
    TooManySources,
    /// The request payload names more tags than allowed.
    TooManyTags,
    /// The requested challenge period is below the configured minimum.
    ChallengePeriodTooShort,
    /// The requested challenge period is above the configured maximum.
    ChallengePeriodTooLong,
    /// The outcome allow-list is present but too short or too long.
    InvalidOutcomeList,
    /// The attached amount does not cover the validity bond.
    NotEnoughDeposit,
    /// The caller is not on the requester whitelist.
    NotWhitelisted,
    /// The caller is not the expected token account.
    WrongSender,
    /// The caller is not the governance account.
    GovOnly,
    /// The oracle is paused.
    Paused,
    /// No data request with the given id exists.
    RequestNotFound,
    /// The data request is already finalized.
    AlreadyFinalized,
    /// The data request is not yet finalized.
    NotFinalized,
    /// The final arbitrator has been invoked, blocking ordinary resolution.
    FinalArbitratorInvoked,
    /// The final arbitrator has not been invoked.
    FinalArbitratorNotInvoked,
    /// The caller is not the final arbitrator.
    NotFinalArbitrator,
    /// The outcome equals the one that lost the preceding bonded round.
    IncompatibleOutcome,
    /// The outcome is not in the request's outcome allow-list.
    OutcomeNotInList,
    /// An allow-list is set, so only string answers can be staked.
    OutcomeNotString,
    /// The answer kind does not match the request's data type.
    WrongOutcomeType,
    /// The numeric answer's multiplier differs from the request's.
    WrongMultiplier,
    /// No resolution window with the given round exists.
    NoResolutionWindow,
    /// Stake on a window's bonded outcome is locked and cannot be withdrawn.
    CannotWithdrawBondedOutcome,
    /// The caller has less staked on this outcome than the requested amount.
    InsufficientStake,
    /// No bonded outcome exists (fewer than two resolution windows).
    NoBondedOutcome,
    /// The last resolution window has not timed out yet.
    NotTimedOut,
    /// Both payout components are zero.
    CannotClaimZero,
    /// A whitelist entry's stake multiplier must be positive.
    InvalidStakeMultiplier,
    /// A config's validity bond must be positive.
    InvalidConfig,
    /// The account's storage balance does not cover the withdrawal.
    InsufficientStorageBalance,
    /// The operation must carry exactly one smallest token unit as deposit.
    OneYoctoRequired,
    /// A balance or bond would exceed the largest representable amount.
    Overflow,
}

} // verus!
