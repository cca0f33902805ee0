//! The records the contract keeps: its state, its configuration, its strategies, and what it
//! holds for each user.

use vstd::prelude::*;
use crate::coins::{Coin, DecCoin, clone_coins, clone_dec_coins, coins_unique, dec_coins_unique};
use crate::math::{Decimal, Timestamp, DECIMAL_FRACTIONAL};

verus! {

pub const MAX_PAGINATION_LIMIT: u32 = 30;
pub const DEFAULT_PAGINATION_LIMIT: u32 = 10;

/// The share of a user's rewards that goes to one strategy, in percent.
#[derive(Clone, Copy, Debug, PartialEq, Eq, Structural)]
pub struct UserStrategyPortfolio {
    pub strategy_id: u64,
    /// between 0 and 100
    pub deposit_fraction: u128,
}

impl UserStrategyPortfolio {
    pub fn new(strategy_id: u64, deposit_fraction: u128) -> (r: Self)
        ensures
            r.strategy_id == strategy_id,
            r.deposit_fraction == deposit_fraction,
    {
        UserStrategyPortfolio { strategy_id, deposit_fraction }
    }
}

/// A copy of a portfolio.
pub fn clone_portfolio(v: &Vec<UserStrategyPortfolio>) -> (r: Vec<UserStrategyPortfolio>)
    ensures
        r@ == v@,
{
    let r = v.clone();
    proof {
        assert(r@ =~= v@);
    }
    r
}

#[derive(Debug, PartialEq, Eq)]
pub struct Config {
    pub default_user_portfolio: Vec<UserStrategyPortfolio>,
    /// the strategy that deposits fall back to when the strategy of the user portfolio does not
    /// exist or is deactivated
    pub fallback_strategy: u64,
}

pub struct ConfigView {
    pub default_user_portfolio: Seq<UserStrategyPortfolio>,
    pub fallback_strategy: u64,
}

impl View for Config {
    type V = ConfigView;

    open spec fn view(&self) -> ConfigView {
        ConfigView {
            default_user_portfolio: self.default_user_portfolio@,
            fallback_strategy: self.fallback_strategy,
        }
    }
}

impl Clone for Config {
    fn clone(&self) -> (r: Self)
        ensures
            r@ == self@,
    {
        Config {
            default_user_portfolio: clone_portfolio(&self.default_user_portfolio),
            fallback_strategy: self.fallback_strategy,
        }
    }
}

#[derive(Debug, PartialEq, Eq)]
pub struct State {
    pub manager: String,
    pub delegator_contract: String,
    pub scc_denom: String,
    pub contract_genesis_block_height: u64,
    pub contract_genesis_timestamp: Timestamp,
    pub next_undelegation_id: u64,
    pub next_strategy_id: u64,
    /// sum of all the retained rewards in scc
    pub rewards_in_scc: u128,
    pub total_accumulated_airdrops: Vec<Coin>,
}

pub struct StateView {
    pub manager: String,
    pub delegator_contract: String,
    pub scc_denom: String,
    pub contract_genesis_block_height: u64,
    pub contract_genesis_timestamp: Timestamp,
    pub next_undelegation_id: u64,
    pub next_strategy_id: u64,
    pub rewards_in_scc: u128,
    pub total_accumulated_airdrops: Seq<Coin>,
}

impl View for State {
    type V = StateView;

    open spec fn view(&self) -> StateView {
        StateView {
            manager: self.manager,
            delegator_contract: self.delegator_contract,
            scc_denom: self.scc_denom,
            contract_genesis_block_height: self.contract_genesis_block_height,
            contract_genesis_timestamp: self.contract_genesis_timestamp,
            next_undelegation_id: self.next_undelegation_id,
            next_strategy_id: self.next_strategy_id,
            rewards_in_scc: self.rewards_in_scc,
            total_accumulated_airdrops: self.total_accumulated_airdrops@,
        }
    }
}

impl Clone for State {
    fn clone(&self) -> (r: Self)
        ensures
            r@ == self@,
    {
        State {
            manager: self.manager.clone(),
            delegator_contract: self.delegator_contract.clone(),
            scc_denom: self.scc_denom.clone(),
            contract_genesis_block_height: self.contract_genesis_block_height,
            contract_genesis_timestamp: self.contract_genesis_timestamp,
            next_undelegation_id: self.next_undelegation_id,
            next_strategy_id: self.next_strategy_id,
            rewards_in_scc: self.rewards_in_scc,
            total_accumulated_airdrops: clone_coins(&self.total_accumulated_airdrops),
        }
    }
}

#[derive(Debug, PartialEq, Eq)]
pub struct StrategyInfo {
    pub name: String,
    /// address of the SIC of the strategy
    pub sic_contract_address: String,
    /// the actual unbonding period of the strategy
    pub unbonding_period: u64,
    /// a buffer for the bots to execute
    pub unbonding_buffer: u64,
    /// the id of the next undelegation batch to be created
    pub next_undelegation_batch_id: u64,
    /// the id of the next undelegation batch to reconcile
    pub next_reconciliation_batch_id: u64,
    /// deposits to an inactive strategy go to the fallback strategy
    pub is_active: bool,
    pub total_shares: Decimal,
    /// shares queued for the next undelegation from the SIC
    pub current_undelegated_shares: Decimal,
    pub global_airdrop_pointer: Vec<DecCoin>,
    /// total airdrops accumulated in the strategy since inception
    pub total_airdrops_accumulated: Vec<Coin>,
    /// the latest shares-per-token ratio used by the strategy
    pub shares_per_token_ratio: Decimal,
}

pub struct StrategyInfoView {
    pub name: String,
    pub sic_contract_address: String,
    pub unbonding_period: u64,
    pub unbonding_buffer: u64,
    pub next_undelegation_batch_id: u64,
    pub next_reconciliation_batch_id: u64,
    pub is_active: bool,
    pub total_shares: Decimal,
    pub current_undelegated_shares: Decimal,
    pub global_airdrop_pointer: Seq<DecCoin>,
    pub total_airdrops_accumulated: Seq<Coin>,
    pub shares_per_token_ratio: Decimal,
}

impl View for StrategyInfo {
    type V = StrategyInfoView;

    open spec fn view(&self) -> StrategyInfoView {
        StrategyInfoView {
            name: self.name,
            sic_contract_address: self.sic_contract_address,
            unbonding_period: self.unbonding_period,
            unbonding_buffer: self.unbonding_buffer,
            next_undelegation_batch_id: self.next_undelegation_batch_id,
            next_reconciliation_batch_id: self.next_reconciliation_batch_id,
            is_active: self.is_active,
            total_shares: self.total_shares,
            current_undelegated_shares: self.current_undelegated_shares,
            global_airdrop_pointer: self.global_airdrop_pointer@,
            total_airdrops_accumulated: self.total_airdrops_accumulated@,
            shares_per_token_ratio: self.shares_per_token_ratio,
        }
    }
}

impl StrategyInfoView {
    /// Airdrop denominations are distinct.
    pub open spec fn wf(self) -> bool {
        &&& dec_coins_unique(self.global_airdrop_pointer)
        &&& coins_unique(self.total_airdrops_accumulated)
    }
}

impl Clone for StrategyInfo {
    fn clone(&self) -> (r: Self)
        ensures
            r@ == self@,
    {
        StrategyInfo {
            name: self.name.clone(),
            sic_contract_address: self.sic_contract_address.clone(),
            unbonding_period: self.unbonding_period,
            unbonding_buffer: self.unbonding_buffer,
            next_undelegation_batch_id: self.next_undelegation_batch_id,
            next_reconciliation_batch_id: self.next_reconciliation_batch_id,
            is_active: self.is_active,
            total_shares: self.total_shares,
            current_undelegated_shares: self.current_undelegated_shares,
            global_airdrop_pointer: clone_dec_coins(&self.global_airdrop_pointer),
            total_airdrops_accumulated: clone_coins(&self.total_airdrops_accumulated),
            shares_per_token_ratio: self.shares_per_token_ratio,
        }
    }
}

impl StrategyInfo {
    /// A freshly registered strategy: inactive, with no shares, no undelegation batches and no
    /// airdrops, at a shares-per-token ratio of 10.
    pub fn new(
        strategy_name: String,
        sic_contract_address: String,
        unbonding_period: u64,
        unbonding_buffer: u64,
    ) -> (r: Self)
        ensures
            r@ == (StrategyInfoView {
                name: strategy_name,
                sic_contract_address,
                unbonding_period,
                unbonding_buffer,
                next_undelegation_batch_id: 0,
                next_reconciliation_batch_id: 0,
                is_active: false,
                total_shares: Decimal { atomics: 0 },
                current_undelegated_shares: Decimal { atomics: 0 },
                global_airdrop_pointer: Seq::empty(),
                total_airdrops_accumulated: Seq::empty(),
                shares_per_token_ratio: Decimal { atomics: (10 * DECIMAL_FRACTIONAL) as u128 },
            }),
    {
        let r = StrategyInfo {
            name: strategy_name,
            sic_contract_address,
            unbonding_period,
            unbonding_buffer,
            next_undelegation_batch_id: 0,
            next_reconciliation_batch_id: 0,
            is_active: false,
            total_shares: Decimal::zero(),
            current_undelegated_shares: Decimal::zero(),
            global_airdrop_pointer: Vec::new(),
            total_airdrops_accumulated: Vec::new(),
            shares_per_token_ratio: Decimal::from_ratio(10, 1),
        };
        proof {
            assert(r.global_airdrop_pointer@ =~= Seq::<DecCoin>::empty());
            assert(r.total_airdrops_accumulated@ =~= Seq::<Coin>::empty());
        }
        r
    }

    /// A placeholder strategy of the given name: inactive, held by the SIC "default-sic", with an
    /// unbonding period of 21 days and a buffer of one hour.
    pub fn default(strategy_name: String) -> (r: Self)
        ensures
            r@ == (StrategyInfoView {
                name: strategy_name,
                sic_contract_address: r.sic_contract_address,
                unbonding_period: 1814400u64,
                unbonding_buffer: 3600,
                next_undelegation_batch_id: 0,
                next_reconciliation_batch_id: 0,
                is_active: false,
                total_shares: Decimal { atomics: 0 },
                current_undelegated_shares: Decimal { atomics: 0 },
                global_airdrop_pointer: Seq::empty(),
                total_airdrops_accumulated: Seq::empty(),
                shares_per_token_ratio: Decimal { atomics: (10 * DECIMAL_FRACTIONAL) as u128 },
            }),
            r.sic_contract_address@ == "default-sic"@,
    {
        let sic = String::from_str("default-sic");
        StrategyInfo::new(strategy_name, sic, 21 * 24 * 3600, 3600)
    }
}

#[derive(Debug, PartialEq, Eq)]
pub struct UserStrategyInfo {
    pub strategy_id: u64,
    /// total shares of this user in the strategy
    pub shares: Decimal,
    /// the user's airdrop pointer for the strategy
    pub airdrop_pointer: Vec<DecCoin>,
}

pub struct UserStrategyInfoView {
    pub strategy_id: u64,
    pub shares: Decimal,
    pub airdrop_pointer: Seq<DecCoin>,
}

impl View for UserStrategyInfo {
    type V = UserStrategyInfoView;

    open spec fn view(&self) -> UserStrategyInfoView {
        UserStrategyInfoView {
            strategy_id: self.strategy_id,
            shares: self.shares,
            airdrop_pointer: self.airdrop_pointer@,
        }
    }
}

impl Clone for UserStrategyInfo {
    fn clone(&self) -> (r: Self)
        ensures
            r@ == self@,
    {
        UserStrategyInfo {
            strategy_id: self.strategy_id,
            shares: self.shares,
            airdrop_pointer: clone_dec_coins(&self.airdrop_pointer),
        }
    }
}

impl UserStrategyInfo {
    pub fn default() -> (r: Self)
        ensures
            r@ == (UserStrategyInfoView {
                strategy_id: 0,
                shares: Decimal { atomics: 0 },
                airdrop_pointer: Seq::empty(),
            }),
    {
        let r = UserStrategyInfo { strategy_id: 0, shares: Decimal::zero(), airdrop_pointer: Vec::new() };
        proof {
            assert(r.airdrop_pointer@ =~= Seq::<DecCoin>::empty());
        }
        r
    }

    pub fn new(strategy_id: u64, airdrop_pointer: Vec<DecCoin>) -> (r: Self)
        ensures
            r@ == (UserStrategyInfoView {
                strategy_id,
                shares: Decimal { atomics: 0 },
                airdrop_pointer: airdrop_pointer@,
            }),
    {
        UserStrategyInfo { strategy_id, shares: Decimal::zero(), airdrop_pointer }
    }
}

/// A copy of a user's strategies.
pub fn clone_user_strategies(v: &Vec<UserStrategyInfo>) -> (r: Vec<UserStrategyInfo>)
    ensures
        r@.map_values(|s: UserStrategyInfo| s@) == v@.map_values(|s: UserStrategyInfo| s@),
{
    let mut r: Vec<UserStrategyInfo> = Vec::new();
    let mut i: usize = 0;
    while i < v.len()
        invariant
            i <= v.len(),
            r@.len() == i,
            forall|k: int| 0 <= k < i ==> (#[trigger] r@[k])@ == v@[k]@,
        decreases v.len() - i,
    {
        r.push(v[i].clone());
        i = i + 1;
    }
    proof {
        assert(r@.map_values(|s: UserStrategyInfo| s@) =~= v@.map_values(|s: UserStrategyInfo| s@));
    }
    r
}

/// A user's undelegation; its estimated release time is that of its undelegation batch.
#[derive(Clone, Copy, Debug, PartialEq, Eq, Structural)]
pub struct UserUndelegationRecord {
    pub id: u64,
    pub amount: u128,
    pub shares: Decimal,
    pub strategy_id: u64,
    pub undelegation_batch_id: u64,
}

/// A copy of a list of undelegation records.
pub fn clone_records(v: &Vec<UserUndelegationRecord>) -> (r: Vec<UserUndelegationRecord>)
    ensures
        r@ == v@,
{
    let r = v.clone();
    proof {
        assert(r@ =~= v@);
    }
    r
}

#[derive(Debug, PartialEq, Eq)]
pub struct UserRewardInfo {
    pub user_portfolio: Vec<UserStrategyPortfolio>,
    pub strategies: Vec<UserStrategyInfo>,
    /// airdrops accumulated from the delegator contract and from all the strategies
    pub pending_airdrops: Vec<Coin>,
    pub undelegation_records: Vec<UserUndelegationRecord>,
    /// rewards that are not put into any strategy: the "retain rewards" strategy
    pub pending_rewards: u128,
}

pub struct UserRewardInfoView {
    pub user_portfolio: Seq<UserStrategyPortfolio>,
    pub strategies: Seq<UserStrategyInfoView>,
    pub pending_airdrops: Seq<Coin>,
    pub undelegation_records: Seq<UserUndelegationRecord>,
    pub pending_rewards: u128,
}

impl View for UserRewardInfo {
    type V = UserRewardInfoView;

    open spec fn view(&self) -> UserRewardInfoView {
        UserRewardInfoView {
            user_portfolio: self.user_portfolio@,
            strategies: self.strategies@.map_values(|s: UserStrategyInfo| s@),
            pending_airdrops: self.pending_airdrops@,
            undelegation_records: self.undelegation_records@,
            pending_rewards: self.pending_rewards,
        }
    }
}

impl UserRewardInfoView {
    /// Airdrop denominations are distinct, in the pending airdrops and in each airdrop pointer.
    pub open spec fn wf(self) -> bool {
        &&& coins_unique(self.pending_airdrops)
        &&& forall|i: int| 0 <= i < self.strategies.len() ==> dec_coins_unique(#[trigger] self.strategies[i].airdrop_pointer)
        &&& forall|i: int, j: int| 0 <= i < j < self.strategies.len() ==>
            #[trigger] self.strategies[i].strategy_id != #[trigger] self.strategies[j].strategy_id
    }
}

impl Clone for UserRewardInfo {
    fn clone(&self) -> (r: Self)
        ensures
            r@ == self@,
    {
        UserRewardInfo {
            user_portfolio: clone_portfolio(&self.user_portfolio),
            strategies: clone_user_strategies(&self.strategies),
            pending_airdrops: clone_coins(&self.pending_airdrops),
            undelegation_records: clone_records(&self.undelegation_records),
            pending_rewards: self.pending_rewards,
        }
    }
}

impl UserRewardInfo {
    /// A user with nothing: no portfolio, no strategies, no airdrops, no undelegations.
    pub fn default() -> (r: Self)
        ensures
            r@ == (UserRewardInfoView {
                user_portfolio: Seq::empty(),
                strategies: Seq::empty(),
                pending_airdrops: Seq::empty(),
                undelegation_records: Seq::empty(),
                pending_rewards: 0,
            }),
    {
        UserRewardInfo::new(Vec::new())
    }

    /// A user who starts with the given portfolio and nothing else.
    pub fn new(default_user_portfolio: Vec<UserStrategyPortfolio>) -> (r: Self)
        ensures
            r@ == (UserRewardInfoView {
                user_portfolio: default_user_portfolio@,
                strategies: Seq::empty(),
                pending_airdrops: Seq::empty(),
                undelegation_records: Seq::empty(),
                pending_rewards: 0,
            }),
    {
        let r = UserRewardInfo {
            user_portfolio: default_user_portfolio,
            strategies: Vec::new(),
            pending_airdrops: Vec::new(),
            undelegation_records: Vec::new(),
            pending_rewards: 0,
        };
        proof {
            assert(r@.strategies =~= Seq::<UserStrategyInfoView>::empty());
            assert(r@.pending_airdrops =~= Seq::<Coin>::empty());
            assert(r@.undelegation_records =~= Seq::<UserUndelegationRecord>::empty());
        }
        r
    }
}

#[derive(Debug, PartialEq, Eq)]
pub struct Cw20TokenContractsInfo {
    pub airdrop_contract: String,
    pub cw20_token_contract: String,
}

impl View for Cw20TokenContractsInfo {
    type V = Cw20TokenContractsInfo;

    open spec fn view(&self) -> Cw20TokenContractsInfo {
        *self
    }
}

impl Clone for Cw20TokenContractsInfo {
    fn clone(&self) -> (r: Self)
        ensures
            r == *self,
    {
        Cw20TokenContractsInfo {
            airdrop_contract: self.airdrop_contract.clone(),
            cw20_token_contract: self.cw20_token_contract.clone(),
        }
    }
}

#[derive(Clone, Copy, Debug, PartialEq, Eq, Structural)]
pub enum UndelegationBatchStatus {
    Pending,
    InProgress,
    Done,
}

#[derive(Clone, Copy, Debug, PartialEq, Eq, Structural)]
pub struct BatchUndelegationRecord {
    pub amount: u128,
    pub shares: Decimal,
    pub unbonding_slashing_ratio: Decimal,
    pub undelegation_s_t_ratio: Decimal,
    pub create_time: Option<Timestamp>,
    pub est_release_time: Option<Timestamp>,
    pub withdrawal_time: Option<Timestamp>,
    pub undelegation_batch_status: UndelegationBatchStatus,
    pub released: bool,
}

} // verus!
