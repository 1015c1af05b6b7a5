use vstd::prelude::*;

verus! {

/// Every way an operation of this library can fail. A failing operation
/// leaves the records it was given unchanged.
#[derive(Clone, Copy, Debug, PartialEq, Eq, Structural)]
pub enum ErrorCode {
    CustomError,
    /// A role position outside Proposer, Approver, Executor and Owner.
    UnsupportedRole,
    /// The caller lacks the role that the operation asks for.
    UserNotAuthorized,
    UserAlreadyExists,
    UserDoesNotExists,
    /// The requested threshold exceeds the number of approvers.
    ThresholdOverflow,
    InvalidTreasury,
    /// A counter would leave its range.
    InvalidCalculation,
    InsufficientTreasuryFunds,
    /// A vote was cast with the favour it already has.
    UserAlreadyVoted,
    /// Fewer favourable votes than the threshold.
    InsufficientVotes,
    TransactionAlreadyExecuted,
    InvalidTransferAmount,
    InvalidProgramInstruction,
    /// The participant list is full.
    MaxUsersReached,
    /// A proposal's resource list or payload exceeds its bound.
    TooLarge,
    /// The external action reported failure; the proposal stays pending.
    InvocationFailed,
}

} // verus!
