//! Failures reported by the staking engine.

use vstd::prelude::*;

use crate::token::PoolId;

verus! {

/// Why an operation was refused. A refused operation leaves the state untouched.
#[derive(Debug, PartialEq, Eq)]
pub enum StakeError {
    /// The caller may not perform the operation.
    Restricted,
    /// The account has no ledger.
    AccountNotRegistered,
    /// The account already has a ledger.
    AccountAlreadyRegistered,
    /// No ledger exists for the account whose stakes were asked for.
    NoStakesForAccount,
    /// Neither the exact stake nor a compatible balance is registered.
    StakeNotRegistered,
    /// The stake is bound to the named pool.
    StakeStillBound { pool_id: PoolId },
    /// The stake is already bound to another pool.
    StakeAlreadyBoundElsewhere,
    /// The stake is already bound to the pool it is being staked in.
    StakeAlreadyStaked,
    /// A stake cannot be handed over to the account that holds it.
    SameAccount,
    /// Merging two balances would exceed the largest representable balance.
    Overflow,
    /// The amount asked for exceeds the registered balance.
    InsufficientStakeBalance,
    /// A pool with this id exists already.
    PoolAlreadyExists,
    /// No pool has this id.
    PoolNotFound,
    /// A pool needs at least one outcome.
    NoOutcomes,
    /// The pool is active, so its staking window is closed.
    PoolActive,
    /// The pool is not active.
    PoolInactive,
    /// The pool is resolved and accepts no further transitions.
    PoolResolved,
    /// The outcome is not one of the pool's outcomes.
    UnknownOutcome,
    /// The staker would receive their own stake.
    SelfReceiverDisallowed,
    /// The staker has already bet on a different outcome of the pool.
    DuplicateStakeOutcome,
    /// The pool has no result to distribute by.
    ResultRequired,
    /// The pool has not been resolved.
    PoolUnresolved,
    /// Some ledger entry is still bound to the pool.
    StakesStillBound,
    /// The depositing contract is not a trusted asset contract.
    UntrustedAssetContract,
    /// A batch deposit names a different number of tokens than amounts.
    BatchLengthMismatch,
}

/// Mathematical value of a [`StakeError`].
pub enum StakeErrorView {
    Restricted,
    AccountNotRegistered,
    AccountAlreadyRegistered,
    NoStakesForAccount,
    StakeNotRegistered,
    StakeStillBound { pool_id: Seq<char> },
    StakeAlreadyBoundElsewhere,
    StakeAlreadyStaked,
    SameAccount,
    Overflow,
    InsufficientStakeBalance,
    PoolAlreadyExists,
    PoolNotFound,
    NoOutcomes,
    PoolActive,
    PoolInactive,
    PoolResolved,
    UnknownOutcome,
    SelfReceiverDisallowed,
    DuplicateStakeOutcome,
    ResultRequired,
    PoolUnresolved,
    StakesStillBound,
    UntrustedAssetContract,
    BatchLengthMismatch,
}

impl View for StakeError {
    type V = StakeErrorView;

    open spec fn view(&self) -> StakeErrorView {
        match *self {
            StakeError::Restricted => StakeErrorView::Restricted,
            StakeError::AccountNotRegistered => StakeErrorView::AccountNotRegistered,
            StakeError::AccountAlreadyRegistered => StakeErrorView::AccountAlreadyRegistered,
            StakeError::NoStakesForAccount => StakeErrorView::NoStakesForAccount,
            StakeError::StakeNotRegistered => StakeErrorView::StakeNotRegistered,
            StakeError::StakeStillBound { pool_id } => StakeErrorView::StakeStillBound {
                pool_id: pool_id@,
            },
            StakeError::StakeAlreadyBoundElsewhere => StakeErrorView::StakeAlreadyBoundElsewhere,
            StakeError::StakeAlreadyStaked => StakeErrorView::StakeAlreadyStaked,
            StakeError::SameAccount => StakeErrorView::SameAccount,
            StakeError::Overflow => StakeErrorView::Overflow,
            StakeError::InsufficientStakeBalance => StakeErrorView::InsufficientStakeBalance,
            StakeError::PoolAlreadyExists => StakeErrorView::PoolAlreadyExists,
            StakeError::PoolNotFound => StakeErrorView::PoolNotFound,
            StakeError::NoOutcomes => StakeErrorView::NoOutcomes,
            StakeError::PoolActive => StakeErrorView::PoolActive,
            StakeError::PoolInactive => StakeErrorView::PoolInactive,
            StakeError::PoolResolved => StakeErrorView::PoolResolved,
            StakeError::UnknownOutcome => StakeErrorView::UnknownOutcome,
            StakeError::SelfReceiverDisallowed => StakeErrorView::SelfReceiverDisallowed,
            StakeError::DuplicateStakeOutcome => StakeErrorView::DuplicateStakeOutcome,
            StakeError::ResultRequired => StakeErrorView::ResultRequired,
            StakeError::PoolUnresolved => StakeErrorView::PoolUnresolved,
            StakeError::StakesStillBound => StakeErrorView::StakesStillBound,
            StakeError::UntrustedAssetContract => StakeErrorView::UntrustedAssetContract,
            StakeError::BatchLengthMismatch => StakeErrorView::BatchLengthMismatch,
        }
    }
}

impl DeepView for StakeError {
    type V = StakeErrorView;

    open spec fn deep_view(&self) -> StakeErrorView {
        self@
    }
}

/// Mathematical value of a fallible result: the value of what was returned, or of the failure.
pub open spec fn result_view<T: DeepView>(
    r: Result<T, StakeError>,
) -> Result<T::V, StakeErrorView> {
    match r {
        Ok(value) => Ok(value.deep_view()),
        Err(error) => Err(error@),
    }
}

/// Whether a fallible change went as `expected`: either it succeeded and the state is the
/// expected one, or it failed for the expected reason and the state is what it was.
pub open spec fn steps_to<S, T>(
    before: S,
    after: S,
    done: Result<T, StakeError>,
    expected: Result<S, StakeErrorView>,
) -> bool {
    match expected {
        Ok(state) => done is Ok && after == state,
        Err(error) => done matches Err(e) && e@ == error && after == before,
    }
}

} // verus!
