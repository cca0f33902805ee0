//! The messages the contract accepts and answers, and the actions it asks the chain to take.

use vstd::prelude::*;
use crate::coins::Coin;
use crate::state::{BatchUndelegationRecord, Config, State, StrategyInfo, UserRewardInfo,
    UserStrategyPortfolio, UserUndelegationRecord};

verus! {

#[derive(Debug, PartialEq, Eq)]
pub struct InstantiateMsg {
    pub strategy_denom: String,
    pub delegator_contract: String,
    pub default_user_portfolio: Option<Vec<UserStrategyPortfolio>>,
    pub default_fallback_strategy: Option<u64>,
}

#[derive(Debug, PartialEq, Eq)]
pub struct UpdateUserRewardsRequest {
    /// validated by the delegator contract before it reaches the SCC
    pub user: String,
    /// in the chain's native token
    pub funds: u128,
    /// a strategy to deposit to in place of the user portfolio
    pub strategy_id: Option<u64>,
}

#[derive(Debug, PartialEq, Eq)]
pub struct UpdateUserAirdropsRequest {
    pub user: String,
    pub pool_airdrops: Vec<Coin>,
}

#[derive(Debug, PartialEq, Eq)]
pub struct StrategyInfoQuery {
    pub strategy_id: u64,
    pub strategy_name: String,
    pub total_rewards: u128,
    pub rewards_in_undelegation: u128,
    pub is_active: bool,
    pub total_airdrops_accumulated: Vec<Coin>,
    pub unbonding_period: u64,
    pub unbonding_buffer: u64,
    pub sic_contract_address: String,
}

#[derive(Debug, PartialEq, Eq)]
pub struct UserStrategyQueryInfo {
    pub strategy_id: u64,
    pub strategy_name: String,
    pub total_rewards: u128,
    pub total_airdrops: Vec<Coin>,
}

#[derive(Debug, PartialEq, Eq)]
pub struct UserRewardInfoQuery {
    pub total_airdrops: Vec<Coin>,
    pub retained_rewards: u128,
    pub undelegation_records: Vec<UserUndelegationRecord>,
    pub user_strategy_info: Vec<UserStrategyQueryInfo>,
    pub user_portfolio: Vec<UserStrategyPortfolio>,
}

#[derive(Debug, PartialEq, Eq)]
pub struct MigrateMsg {}

#[derive(Debug, PartialEq, Eq)]
pub enum ExecuteMsg {
    /// registers an (inactive) strategy
    RegisterStrategy {
        strategy_name: String,
        sic_contract_address: String,
        unbonding_buffer: u64,
        unbonding_period: u64,
    },
    /// updates the variables of a strategy, mostly to activate it
    UpdateStrategy {
        strategy_id: u64,
        unbonding_period: Option<u64>,
        unbonding_buffer: Option<u64>,
        sic_contract_address: Option<String>,
        is_active: Option<bool>,
    },
    /// registers an airdrop denomination and its contracts
    RegisterCw20Contracts {
        denom: String,
        cw20_contract: String,
        airdrop_contract: String,
    },
    /// undelegates the queued undelegations of the strategies from their SICs
    UndelegateFromStrategies {
        strategies: Vec<u64>,
    },
    /// fetches the undelegated rewards sitting in the SICs of the strategies
    FetchUndelegatedRewardsFromStrategies {
        strategies: Vec<u64>,
    },
    /// claims an airdrop for a strategy
    ClaimAirdrops {
        amount: u128,
        denom: String,
        claim_msg: Vec<u8>,
        strategy_id: u64,
    },
    /// deposits users' rewards into their strategies
    UpdateUserRewards {
        update_user_rewards_requests: Vec<UpdateUserRewardsRequest>,
    },
    /// credits users with airdrops
    UpdateUserAirdrops {
        update_user_airdrops_requests: Vec<UpdateUserAirdropsRequest>,
    },
    UpdateConfig {
        delegator_contract: Option<String>,
        default_user_portfolio: Option<Vec<UserStrategyPortfolio>>,
        fallback_strategy: Option<u64>,
    },
    /// begins unbonding the sender's rewards in a strategy
    UndelegateRewards {
        amount: u128,
        strategy_id: u64,
    },
    /// withdraws the sender's rewards after the unbonding period
    WithdrawRewards {
        undelegation_id: u64,
        strategy_id: u64,
    },
    /// withdraws all the sender's pending airdrops
    WithdrawAirdrops {},
    /// deposits the funds sent into the sender's portfolio, or into one strategy
    DepositFunds {
        strategy_override: Option<u64>,
    },
    /// replaces the sender's portfolio
    UpdateUserPortfolio {
        user_portfolio: Vec<UserStrategyPortfolio>,
    },
}

#[derive(Debug, PartialEq, Eq)]
pub enum QueryMsg {
    GetState {},
    GetStrategyInfo { strategy_id: u64 },
    GetUndelegationBatchInfo { strategy_id: u64, batch_id: u64 },
    GetUserRewardInfo { user: String },
    GetConfig {},
    GetStrategiesList { start_after: Option<u64>, limit: Option<u32> },
    /// rewards in the SCC (retained rewards) and in all strategies
    GetAllStrategies { start_after: Option<u64>, limit: Option<u32> },
    GetUser { user: String },
}

#[derive(Debug, PartialEq, Eq)]
pub struct GetStateResponse {
    pub state: Option<State>,
}

#[derive(Debug, PartialEq, Eq)]
pub struct GetConfigResponse {
    pub config: Option<Config>,
}

#[derive(Debug, PartialEq, Eq)]
pub struct GetStrategyInfoResponse {
    pub strategy_info: Option<StrategyInfo>,
}

#[derive(Debug, PartialEq, Eq)]
pub struct GetUserRewardInfo {
    pub user_reward_info: Option<UserRewardInfo>,
}

#[derive(Debug, PartialEq, Eq)]
pub struct GetUndelegationBatchInfoResponse {
    pub undelegation_batch_info: Option<BatchUndelegationRecord>,
}

#[derive(Debug, PartialEq, Eq)]
pub struct GetStrategiesListResponse {
    pub strategies_list: Option<Vec<String>>,
}

#[derive(Debug, PartialEq, Eq)]
pub struct GetAllStrategiesResponse {
    pub all_strategies: Option<Vec<StrategyInfoQuery>>,
}

#[derive(Debug, PartialEq, Eq)]
pub struct GetUserResponse {
    pub user: Option<UserRewardInfoQuery>,
}

/// An action that the contract asks the chain to take once the request succeeds.
#[derive(Debug, PartialEq, Eq)]
pub enum ContractMsg {
    /// sends the coins `amount` to an account
    BankSend { to_address: String, amount: Vec<Coin> },
    /// hands rewards to a SIC
    SicTransferRewards { sic_contract_address: String, funds: Coin },
    /// asks a SIC to undelegate `amount`
    SicUndelegateRewards { sic_contract_address: String, amount: u128 },
    /// asks a SIC to send back `amount` of undelegated rewards
    SicTransferUndelegatedRewards { sic_contract_address: String, amount: u128 },
    /// asks a SIC to claim an airdrop
    SicClaimAirdrops {
        sic_contract_address: String,
        airdrop_token_contract: String,
        cw20_token_contract: String,
        airdrop_token: String,
        amount: u128,
        claim_msg: Vec<u8>,
    },
    /// transfers cw20 tokens held by the contract to `recipient`
    Cw20Transfer { cw20_token_contract: String, recipient: String, amount: u128 },
}

/// What an attribute of a response holds: text, or a list that is logged joined by commas.
#[derive(Debug, PartialEq, Eq)]
pub enum AttributeValue {
    Text(String),
    /// strategy ids, in the order they came up
    StrategyIds(Vec<u64>),
    /// undelegation batches as (strategy id, batch id), in the order they came up
    Batches(Vec<(u64, u64)>),
    /// user addresses, in the order they came up
    Addresses(Vec<String>),
}

#[derive(Debug, PartialEq, Eq)]
pub struct Attribute {
    pub key: String,
    pub value: AttributeValue,
}

/// The attribute `key` holds the text `value`.
pub open spec fn is_text_attr(a: Attribute, key: Seq<char>, value: Seq<char>) -> bool {
    a.key@ == key && (a.value matches AttributeValue::Text(v) && v@ == value)
}

/// The attribute `key` lists the strategy ids `ids`.
pub open spec fn is_ids_attr(a: Attribute, key: Seq<char>, ids: Seq<u64>) -> bool {
    a.key@ == key && (a.value matches AttributeValue::StrategyIds(v) && v@ == ids)
}

/// The attribute `key` lists the undelegation batches `batches`.
pub open spec fn is_batches_attr(a: Attribute, key: Seq<char>, batches: Seq<(u64, u64)>) -> bool {
    a.key@ == key && (a.value matches AttributeValue::Batches(v) && v@ == batches)
}

/// The attribute `key` lists the addresses `users`.
pub open spec fn is_addresses_attr(a: Attribute, key: Seq<char>, users: Seq<String>) -> bool {
    a.key@ == key && (a.value matches AttributeValue::Addresses(v) && v@ == users)
}

/// What a successful request answers: the actions to take and the attributes to log.
#[derive(Debug, PartialEq, Eq)]
pub struct Response {
    pub messages: Vec<ContractMsg>,
    pub attributes: Vec<Attribute>,
}

impl Response {
    pub fn new() -> (r: Response)
        ensures
            r.messages@.len() == 0,
            r.attributes@.len() == 0,
    {
        Response { messages: Vec::new(), attributes: Vec::new() }
    }
}

/// `key` set to the text `value`.
pub fn attr(key: &str, value: String) -> (r: Attribute)
    ensures
        is_text_attr(r, key@, value@),
{
    Attribute { key: String::from_str(key), value: AttributeValue::Text(value) }
}

/// `key` set to a list of strategy ids.
pub fn attr_ids(key: &str, ids: Vec<u64>) -> (r: Attribute)
    ensures
        is_ids_attr(r, key@, ids@),
{
    Attribute { key: String::from_str(key), value: AttributeValue::StrategyIds(ids) }
}

/// `key` set to a list of undelegation batches.
pub fn attr_batches(key: &str, batches: Vec<(u64, u64)>) -> (r: Attribute)
    ensures
        is_batches_attr(r, key@, batches@),
{
    Attribute { key: String::from_str(key), value: AttributeValue::Batches(batches) }
}

/// `key` set to a list of addresses.
pub fn attr_addresses(key: &str, users: Vec<String>) -> (r: Attribute)
    ensures
        is_addresses_attr(r, key@, users@),
{
    Attribute { key: String::from_str(key), value: AttributeValue::Addresses(users) }
}

} // verus!
