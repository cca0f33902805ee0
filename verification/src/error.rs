//! Why the contract refuses a request.

use vstd::prelude::*;

verus! {

#[derive(Clone, Copy, Debug, PartialEq, Eq, Structural)]
pub enum ContractError {
    Unauthorized {},
    StrategyInfoAlreadyExists {},
    StrategyInfoDoesNotExist {},
    StrategyDoesNotSupportAirdrop {},
    NoPendingUndelegations {},
    AirdropNotRegistered {},
    CannotUndelegateZeroFunds {},
    UserNotInStrategy {},
    UserDoesNotHaveEnoughRewards {},
    UndelegationRecordNotFound {},
    UndelegationBatchNotFound {},
    UndelegationInUnbondingPeriod {},
    UndelegationBatchInUnbondingPeriod(u64),
    UndelegationBatchNotReleased {},
    UserRewardInfoDoesNotExist {},
    UserUndelegationRecordLimitExceeded {},
    InvalidPortfolioDepositFraction {},
    SICFailedToReturnResult {},
    NoFundsSent {},
    MultipleCoinsSent {},
    WrongDenomSent {},
    InvalidUserPortfolio {},
    ZeroAmount {},
    UndelegationInCooldown {},
    /// an amount or a share count left the range of 128 bits
    Overflow {},
}

} // verus!
