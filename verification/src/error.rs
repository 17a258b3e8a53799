use vstd::prelude::*;

verus! {

/// Every way a call into the contract can be rejected.
///
/// A transition either completes in full or returns one of these with no
/// state change and no emitted instruction.
#[derive(Clone, Copy, Debug, PartialEq, Eq, Structural)]
pub enum ContractError {
    /// Creation: the funding goal must be a positive amount.
    GoalZero,
    /// Creation: the campaign must start strictly before its deadline.
    StartNotBeforeDeadline,
    /// Creation: the description exceeds 256 characters.
    DescriptionTooLong,
    /// Creation: the name exceeds 32 characters.
    NameTooLong,
    /// Contribute: the campaign has not started yet.
    NotStarted,
    /// Contribute: the campaign is already closed.
    Closed,
    /// Contribute: no funds of the designated denomination were attached.
    NoFunds,
    /// Settlement: the campaign is still open.
    Open,
    /// Claim or trigger: the funding goal was not reached.
    NotFullyFunded,
    /// Refund: the funding goal was reached, so deposits are not returned.
    FullyFunded,
    /// Claim or shares query: the identity has no recorded share.
    NoShares,
    /// Trigger: no deferred action is configured, or it has already run.
    ActionNotSet,
    /// The operation would overflow the unsigned range; nothing is changed.
    Overflow,
}

} // verus!
