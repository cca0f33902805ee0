//! What the contract answers to queries, and the store it starts with.

use std::collections::BTreeMap;
use vstd::prelude::*;
use crate::allocation::{allocation_fund, airdrops_computable_at, entry_airdrops,
    lemma_allocation_fund_concat, lemma_coin_amount_bounds, lemma_in_range_prefix};
use crate::coins::{clone_coins, checked_merge_coin_vector, coin_entries, get_user_airdrops, lemma_coin_entries_concat,
    lemma_in_range_compose, lemma_merged_compose, lemma_merged_empty, merge_in_range, merged,
    lemma_merge_entries_concat, merge_entries,
    user_airdrops_computable, Coin, CoinVecOp, Operation, entry_amount};
use crate::env::{Env, SicAnswers};
use crate::error::ContractError;
use crate::helpers::{checked_get_staked_amount, get_strategy_shares_per_token_ratio, reported_tokens,
    shares_per_token_ratio, staked_amount};
use crate::math::{get_default_s_t_ratio, spec_div, Decimal, DECIMAL_FRACTIONAL};
use crate::msg::{attr, is_text_attr, GetAllStrategiesResponse, GetConfigResponse, GetStateResponse,
    GetStrategiesListResponse, GetStrategyInfoResponse, GetUndelegationBatchInfoResponse, GetUserResponse,
    GetUserRewardInfo, InstantiateMsg, Response, StrategyInfoQuery, UserRewardInfoQuery, UserStrategyQueryInfo};
use crate::state::{clone_portfolio, clone_records, Config, ConfigView, State, StateView, StrategyInfo,
    StrategyInfoView, UserRewardInfoView, UserStrategyInfoView, DEFAULT_PAGINATION_LIMIT, MAX_PAGINATION_LIMIT};
use crate::store::{Store, StoreView};
use crate::string_map::StringMap;
use crate::user::user_airdrops_seq;

verus! {

broadcast use vstd::std_specs::btree::group_btree_axioms;

/// The first strategy id a page lists.
pub open spec fn page_start(start_after: Option<u64>) -> int {
    match start_after {
        Some(x) => x + 1,
        None => 0,
    }
}

/// How many strategies a page lists at most: the limit asked for (10 by default), and never
/// more than 30.
pub open spec fn page_limit(limit: Option<u32>) -> nat {
    let l = match limit {
        Some(l) => l,
        None => DEFAULT_PAGINATION_LIMIT,
    };
    if l > MAX_PAGINATION_LIMIT {
        MAX_PAGINATION_LIMIT as nat
    } else {
        l as nat
    }
}

/// The ids of the first `limit` strategies with ids from `i` up to `end` (excluded), in order.
pub open spec fn listed_ids(strategies: Map<u64, StrategyInfoView>, i: int, end: int, limit: nat) -> Seq<u64>
    decreases end - i,
{
    if i >= end || limit == 0 {
        Seq::empty()
    } else if strategies.contains_key(i as u64) {
        seq![i as u64] + listed_ids(strategies, i + 1, end, (limit - 1) as nat)
    } else {
        listed_ids(strategies, i + 1, end, limit)
    }
}

/// Every listed id is the id of a strategy.
pub proof fn lemma_listed_ids_exist(strategies: Map<u64, StrategyInfoView>, i: int, end: int, limit: nat)
    ensures
        forall|k: int| 0 <= k < listed_ids(strategies, i, end, limit).len() ==>
            strategies.contains_key(#[trigger] listed_ids(strategies, i, end, limit)[k]),
    decreases end - i,
{
    if i >= end || limit == 0 {
    } else if strategies.contains_key(i as u64) {
        lemma_listed_ids_exist(strategies, i + 1, end, (limit - 1) as nat);
        let rest = listed_ids(strategies, i + 1, end, (limit - 1) as nat);
        assert(listed_ids(strategies, i, end, limit) == seq![i as u64] + rest);
        assert forall|k: int| 0 <= k < (seq![i as u64] + rest).len() implies strategies.contains_key(#[trigger] (seq![i as u64] + rest)[k]) by {
            if k > 0 {
                assert((seq![i as u64] + rest)[k] == rest[k - 1]);
            } else {
                assert((seq![i as u64] + rest)[0] == i as u64);
            }
        }
    } else {
        lemma_listed_ids_exist(strategies, i + 1, end, limit);
        assert(listed_ids(strategies, i, end, limit) == listed_ids(strategies, i + 1, end, limit));
    }
}

/// The shares-per-token ratio a query reports for a strategy: from its SIC's answer, or the
/// default of 10 where the SIC did not answer.
pub open spec fn query_ratio(st: StrategyInfoView, id: u64, tokens: Map<u64, Option<u128>>) -> Decimal {
    if tokens.contains_key(id) {
        shares_per_token_ratio(reported_tokens(tokens[id]), st.total_shares)
    } else {
        Decimal { atomics: (10 * DECIMAL_FRACTIONAL) as u128 }
    }
}

/// The SIC's answer does not overflow the ratio computation.
pub open spec fn query_ratio_ok(st: StrategyInfoView, id: u64, tokens: Map<u64, Option<u128>>) -> bool {
    tokens.contains_key(id) ==> {
        let t = reported_tokens(tokens[id]);
        !(t != 0 && st.total_shares.atomics != 0 && t * DECIMAL_FRACTIONAL > u128::MAX)
    }
}

/// The worth of `shares` at a ratio can be computed.
pub open spec fn staked_ok(ratio: Decimal, shares: Decimal) -> bool {
    ratio.atomics > 0 && spec_div(shares, ratio) <= u128::MAX
}

/// Whether the entry of strategy `id` in the list of all strategies can be computed.
pub open spec fn strategy_query_ok(s: StoreView, id: u64, tokens: Map<u64, Option<u128>>) -> bool {
    id != 0 ==> {
        let st = s.strategies[id];
        let ratio = query_ratio(st, id, tokens);
        &&& query_ratio_ok(st, id, tokens)
        &&& staked_ok(ratio, st.total_shares)
        &&& staked_ok(ratio, st.current_undelegated_shares)
    }
}

/// The entry of strategy `id` in the list of all strategies: strategy 0 stands for the rewards
/// retained in the contract; any other reports the tokens its shares and its queued
/// undelegation are worth.
pub open spec fn strategy_query_matches(q: StrategyInfoQuery, s: StoreView, id: u64, tokens: Map<u64, Option<u128>>) -> bool {
    &&& q.strategy_id == id
    &&& if id == 0 {
        &&& q.strategy_name@ == "retain_rewards"@
        &&& q.total_rewards == s.state.rewards_in_scc
        &&& q.rewards_in_undelegation == 0
        &&& q.is_active
        &&& q.total_airdrops_accumulated@.len() == 0
        &&& q.unbonding_period == 0
        &&& q.unbonding_buffer == 0
        &&& q.sic_contract_address@ == ""@
    } else {
        let st = s.strategies[id];
        let ratio = query_ratio(st, id, tokens);
        &&& q.strategy_name == st.name
        &&& q.total_rewards == staked_amount(ratio, st.total_shares)
        &&& q.rewards_in_undelegation == staked_amount(ratio, st.current_undelegated_shares)
        &&& q.is_active == st.is_active
        &&& q.total_airdrops_accumulated@ == st.total_airdrops_accumulated
        &&& q.unbonding_period == st.unbonding_period
        &&& q.unbonding_buffer == st.unbonding_buffer
        &&& q.sic_contract_address == st.sic_contract_address
    }
}

/// The positions of a user whose strategies exist.
pub open spec fn queried_entries(strategies: Map<u64, StrategyInfoView>, entries: Seq<UserStrategyInfoView>) -> Seq<UserStrategyInfoView>
    decreases entries.len(),
{
    if entries.len() == 0 {
        Seq::empty()
    } else {
        queried_entries(strategies, entries.drop_last()) + if strategies.contains_key(entries.last().strategy_id) {
            seq![entries.last()]
        } else {
            Seq::empty()
        }
    }
}

/// Whether the report on a user's position can be computed.
pub open spec fn entry_query_ok(strategies: Map<u64, StrategyInfoView>, e: UserStrategyInfoView, tokens: Map<u64, Option<u128>>) -> bool {
    strategies.contains_key(e.strategy_id) ==> {
        let st = strategies[e.strategy_id];
        &&& query_ratio_ok(st, e.strategy_id, tokens)
        &&& staked_ok(query_ratio(st, e.strategy_id, tokens), e.shares)
        &&& airdrops_computable_at(strategies, e)
    }
}

/// The report on a user's position: the tokens its shares are worth and the airdrops it earned
/// since its pointer.
pub open spec fn entry_query_matches(q: UserStrategyQueryInfo, strategies: Map<u64, StrategyInfoView>, e: UserStrategyInfoView, tokens: Map<u64, Option<u128>>) -> bool {
    let st = strategies[e.strategy_id];
    &&& q.strategy_id == e.strategy_id
    &&& q.strategy_name == st.name
    &&& q.total_rewards == staked_amount(query_ratio(st, e.strategy_id, tokens), e.shares)
    &&& q.total_airdrops@ == user_airdrops_seq(st.global_airdrop_pointer, e.airdrop_pointer, e.shares)
}

/// Whether the report on a user can be computed: every position's, and the total of their
/// airdrops with the pending ones within 128 bits.
pub open spec fn user_query_ok(strategies: Map<u64, StrategyInfoView>, u: UserRewardInfoView, tokens: Map<u64, Option<u128>>) -> bool {
    &&& forall|j: int| 0 <= j < u.strategies.len() ==> entry_query_ok(strategies, #[trigger] u.strategies[j], tokens)
    &&& merge_in_range(coin_entries(u.pending_airdrops), coin_entries(allocation_fund(strategies, u.strategies)), Operation::Add)
}

impl Store {
    pub fn query_state(&self) -> (r: GetStateResponse)
        ensures
            r.state matches Some(st) && st@ == self@.state,
    {
        GetStateResponse { state: Some(self.state.clone()) }
    }

    pub fn query_config(&self) -> (r: GetConfigResponse)
        ensures
            r.config matches Some(c) && c@ == self@.config,
    {
        GetConfigResponse { config: Some(self.config.clone()) }
    }

    pub fn query_strategy_info(&self, strategy_id: u64) -> (r: GetStrategyInfoResponse)
        ensures
            match r.strategy_info {
                Some(st) => self@.strategies.contains_key(strategy_id) && st@ == self@.strategies[strategy_id],
                None => !self@.strategies.contains_key(strategy_id),
            },
    {
        match self.strategy(strategy_id) {
            Some(st) => GetStrategyInfoResponse { strategy_info: Some(st.clone()) },
            None => GetStrategyInfoResponse { strategy_info: None },
        }
    }

    pub fn query_user_reward_info(&self, user: &String) -> (r: GetUserRewardInfo)
        requires
            self.wf(),
        ensures
            match r.user_reward_info {
                Some(u) => self@.users.contains_key(user@) && u@ == self@.users[user@],
                None => !self@.users.contains_key(user@),
            },
    {
        match self.users.get(user) {
            Some(u) => GetUserRewardInfo { user_reward_info: Some(u.clone()) },
            None => GetUserRewardInfo { user_reward_info: None },
        }
    }

    pub fn query_undelegation_batch_info(&self, strategy_id: u64, batch_id: u64) -> (r: GetUndelegationBatchInfoResponse)
        ensures
            r.undelegation_batch_info == (if self@.batches.contains_key((strategy_id, batch_id)) {
                Some(self@.batches[(strategy_id, batch_id)])
            } else {
                None
            }),
    {
        GetUndelegationBatchInfoResponse { undelegation_batch_info: self.batch(strategy_id, batch_id) }
    }

    /// The ids of a page of strategies.
    fn listed_strategy_ids(&self, start_after: Option<u64>, limit: Option<u32>) -> (r: Vec<u64>)
        ensures
            r@ == listed_ids(self@.strategies, page_start(start_after), self@.state.next_strategy_id as int, page_limit(limit)),
    {
        let ghost strats = self@.strategies;
        let ghost end = self@.state.next_strategy_id as int;
        let ghost lim = page_limit(limit);
        let mut ids: Vec<u64> = Vec::new();
        let asked: u32 = match limit {
            Some(l) => l,
            None => DEFAULT_PAGINATION_LIMIT,
        };
        let lim_exec: u32 = if asked > MAX_PAGINATION_LIMIT { MAX_PAGINATION_LIMIT } else { asked };
        let mut i: u64 = match start_after {
            Some(x) => {
                if x == u64::MAX {
                    return ids;
                }
                x + 1
            },
            None => 0,
        };
        let end_exec = self.state.next_strategy_id;
        proof {
            assert(ids@ + listed_ids(strats, i as int, end, lim) =~= listed_ids(strats, i as int, end, lim));
        }
        while i < end_exec && ids.len() < lim_exec as usize
            invariant
                lim == lim_exec as nat,
                end == end_exec as int,
                strats == self@.strategies,
                ids@.len() <= lim,
                listed_ids(strats, page_start(start_after), end, lim)
                    == ids@ + listed_ids(strats, i as int, end, (lim - ids@.len()) as nat),
            decreases end - i,
        {
            match self.strategy(i) {
                Some(_) => {
                    let ghost before = ids@;
                    ids.push(i);
                    proof {
                        assert(ids@ + listed_ids(strats, i + 1, end, (lim - ids@.len()) as nat)
                            =~= before + listed_ids(strats, i as int, end, (lim - before.len()) as nat));
                    }
                },
                None => {},
            }
            i = i + 1;
        }
        proof {
            assert(listed_ids(strats, i as int, end, (lim - ids@.len()) as nat) =~= Seq::<u64>::empty());
            assert(ids@ + Seq::<u64>::empty() =~= ids@);
        }
        ids
    }

    /// The names of a page of strategies, in the order of their ids.
    pub fn query_strategies_list(&self, start_after: Option<u64>, limit: Option<u32>) -> (r: GetStrategiesListResponse)
        ensures
            r.strategies_list matches Some(names) && {
                let ids = listed_ids(self@.strategies, page_start(start_after), self@.state.next_strategy_id as int, page_limit(limit));
                &&& names@.len() == ids.len()
                &&& forall|k: int| 0 <= k < ids.len() ==> #[trigger] names@[k] == self@.strategies[ids[k]].name
            },
    {
        let ids = self.listed_strategy_ids(start_after, limit);
        proof {
            lemma_listed_ids_exist(self@.strategies, page_start(start_after), self@.state.next_strategy_id as int, page_limit(limit));
        }
        let mut names: Vec<String> = Vec::new();
        let mut k: usize = 0;
        while k < ids.len()
            invariant
                k <= ids@.len(),
                names@.len() == k,
                forall|m: int| 0 <= m < k ==> #[trigger] names@[m] == self@.strategies[ids@[m]].name,
                forall|m: int| 0 <= m < ids@.len() ==> self@.strategies.contains_key(#[trigger] ids@[m]),
            decreases ids@.len() - k,
        {
            let name = match self.strategy(ids[k]) {
                Some(st) => st.name.clone(),
                None => String::new(),
            };
            names.push(name);
            k = k + 1;
        }
        GetStrategiesListResponse { strategies_list: Some(names) }
    }
}

impl Store {
    /// The ratio a query reports for a strategy (`query_ratio`); `Err(Overflow)` where the SIC's
    /// answer overflows the computation.
    fn query_strategy_ratio(&self, st: &StrategyInfo, id: u64, answers: &SicAnswers) -> (r: Result<Decimal, ContractError>)
        ensures
            query_ratio_ok(st@, id, answers.total_tokens@) ==> r == Ok::<Decimal, ContractError>(query_ratio(st@, id, answers.total_tokens@)),
            !query_ratio_ok(st@, id, answers.total_tokens@) ==> r == Err::<Decimal, ContractError>(ContractError::Overflow {}),
    {
        match get_strategy_shares_per_token_ratio(answers.total_tokens_of(id), st) {
            Ok(ratio) => Ok(ratio),
            // a SIC that does not answer is reported at the default ratio
            Err(ContractError::SICFailedToReturnResult {}) => Ok(get_default_s_t_ratio()),
            Err(e) => Err(e),
        }
    }

    /// A page of all strategies, with the tokens each holds (see `strategy_query_matches`).
    /// `Err(Overflow)` where an amount cannot be computed.
    pub fn query_get_all_strategies(
        &self,
        start_after: Option<u64>,
        limit: Option<u32>,
        answers: &SicAnswers,
    ) -> (r: Result<GetAllStrategiesResponse, ContractError>)
        ensures
            ({
                let ids = listed_ids(self@.strategies, page_start(start_after), self@.state.next_strategy_id as int, page_limit(limit));
                &&& (r is Ok <==> forall|k: int| 0 <= k < ids.len() ==> strategy_query_ok(self@, #[trigger] ids[k], answers.total_tokens@))
                &&& (r is Err ==> r == Err::<GetAllStrategiesResponse, ContractError>(ContractError::Overflow {}))
                &&& (r matches Ok(resp) ==> resp.all_strategies matches Some(v) && v@.len() == ids.len()
                    && forall|k: int| 0 <= k < ids.len() ==> strategy_query_matches(#[trigger] v@[k], self@, ids[k], answers.total_tokens@))
            }),
    {
        let ids = self.listed_strategy_ids(start_after, limit);
        proof {
            lemma_listed_ids_exist(self@.strategies, page_start(start_after), self@.state.next_strategy_id as int, page_limit(limit));
        }
        let mut all: Vec<StrategyInfoQuery> = Vec::new();
        let mut k: usize = 0;
        while k < ids.len()
            invariant
                k <= ids@.len(),
                ids@ == listed_ids(self@.strategies, page_start(start_after), self@.state.next_strategy_id as int, page_limit(limit)),
                all@.len() == k,
                forall|m: int| 0 <= m < ids@.len() ==> self@.strategies.contains_key(#[trigger] ids@[m]),
                forall|m: int| 0 <= m < k ==> strategy_query_ok(self@, #[trigger] ids@[m], answers.total_tokens@),
                forall|m: int| 0 <= m < k ==> strategy_query_matches(#[trigger] all@[m], self@, ids@[m], answers.total_tokens@),
            decreases ids@.len() - k,
        {
            let id = ids[k];
            proof {
                assert(self@.strategies.contains_key(ids@[k as int]));
            }
            if id == 0 {
                // the rewards retained in the contract
                all.push(StrategyInfoQuery {
                    strategy_id: 0,
                    strategy_name: String::from_str("retain_rewards"),
                    total_rewards: self.state.rewards_in_scc,
                    rewards_in_undelegation: 0,
                    is_active: true,
                    total_airdrops_accumulated: Vec::new(),
                    unbonding_period: 0,
                    unbonding_buffer: 0,
                    sic_contract_address: String::from_str(""),
                });
            } else {
                let st = match self.strategy(id) {
                    Some(st) => st,
                    None => return Err(ContractError::Overflow {}),
                };
                let ratio = match self.query_strategy_ratio(st, id, answers) {
                    Ok(r) => r,
                    Err(e) => return Err(e),
                };
                let total_rewards = match checked_get_staked_amount(ratio, st.total_shares) {
                    Some(t) => t,
                    None => return Err(ContractError::Overflow {}),
                };
                let rewards_in_undelegation = match checked_get_staked_amount(ratio, st.current_undelegated_shares) {
                    Some(t) => t,
                    None => return Err(ContractError::Overflow {}),
                };
                all.push(StrategyInfoQuery {
                    strategy_id: id,
                    strategy_name: st.name.clone(),
                    total_rewards,
                    rewards_in_undelegation,
                    is_active: st.is_active,
                    total_airdrops_accumulated: clone_coins(&st.total_airdrops_accumulated),
                    unbonding_period: st.unbonding_period,
                    unbonding_buffer: st.unbonding_buffer,
                    sic_contract_address: st.sic_contract_address.clone(),
                });
            }
            proof {
                assert(strategy_query_matches(all@[k as int], self@, ids@[k as int], answers.total_tokens@));
            }
            k = k + 1;
        }
        Ok(GetAllStrategiesResponse { all_strategies: Some(all) })
    }

    /// What the contract holds for a user: their retained rewards, undelegations and portfolio,
    /// a report on each position whose strategy exists (see `entry_query_matches`), and their
    /// airdrops: the pending ones with what every position earned since its pointer. A user
    /// without a record is reported with the default portfolio and nothing else.
    /// `Err(Overflow)` where an amount cannot be computed.
    pub fn query_user(&self, user: &String, answers: &SicAnswers) -> (r: Result<GetUserResponse, ContractError>)
        requires
            self.wf(),
        ensures
            !self@.users.contains_key(user@) ==> (r matches Ok(resp) && resp.user matches Some(q) && {
                &&& q.total_airdrops@.len() == 0
                &&& q.retained_rewards == 0
                &&& q.undelegation_records@.len() == 0
                &&& q.user_strategy_info@.len() == 0
                &&& q.user_portfolio@ == self@.config.default_user_portfolio
            }),
            self@.users.contains_key(user@) ==> {
                let u = self@.users[user@];
                let entries = queried_entries(self@.strategies, u.strategies);
                &&& (r is Ok <==> user_query_ok(self@.strategies, u, answers.total_tokens@))
                &&& (r is Err ==> r == Err::<GetUserResponse, ContractError>(ContractError::Overflow {}))
                &&& (r matches Ok(resp) ==> resp.user matches Some(q) && {
                    &&& q.retained_rewards == u.pending_rewards
                    &&& q.undelegation_records@ == u.undelegation_records
                    &&& q.user_portfolio@ == u.user_portfolio
                    &&& q.user_strategy_info@.len() == entries.len()
                    &&& forall|k: int| 0 <= k < entries.len() ==> entry_query_matches(#[trigger] q.user_strategy_info@[k],
                        self@.strategies, entries[k], answers.total_tokens@)
                    &&& merged(coin_entries(q.total_airdrops@), coin_entries(u.pending_airdrops),
                        coin_entries(allocation_fund(self@.strategies, u.strategies)), Operation::Add)
                    &&& coin_entries(q.total_airdrops@) == merge_entries(coin_entries(u.pending_airdrops),
                        coin_entries(allocation_fund(self@.strategies, u.strategies)), Operation::Add)
                })
            },
    {
        let u = match self.users.get(user) {
            Some(u) => u,
            None => {
                return Ok(GetUserResponse {
                    user: Some(UserRewardInfoQuery {
                        total_airdrops: Vec::new(),
                        retained_rewards: 0,
                        undelegation_records: Vec::new(),
                        user_strategy_info: Vec::new(),
                        user_portfolio: clone_portfolio(&self.config.default_user_portfolio),
                    }),
                });
            },
        };
        let ghost u0 = u@;
        let ghost e0 = u0.strategies;
        let ghost strategies = self@.strategies;
        let ghost p0 = coin_entries(u0.pending_airdrops);
        proof {
            assert(u0.wf());
            lemma_merged_empty(p0);
            assert forall|d: Seq<char>| 0 <= #[trigger] entry_amount(p0, d) <= u128::MAX by {
                lemma_coin_amount_bounds(u0.pending_airdrops, d);
            }
            assert(e0.take(0) =~= Seq::<UserStrategyInfoView>::empty());
            assert(coin_entries(allocation_fund(strategies, e0.take(0))) =~= Seq::<(Seq<char>, int)>::empty());
        }
        let mut total = clone_coins(&u.pending_airdrops);
        let mut infos: Vec<UserStrategyQueryInfo> = Vec::new();
        let mut j: usize = 0;
        while j < u.strategies.len()
            invariant
                j <= e0.len(),
                u@ == u0,
                self@.users.contains_key(user@),
                self@.users[user@] == u0,
                e0 == u0.strategies,
                u.strategies@.len() == e0.len(),
                p0 == coin_entries(u0.pending_airdrops),
                strategies == self@.strategies,
                self.wf(),
                u0.wf(),
                crate::coins::coins_unique(total@),
                forall|m: int| 0 <= m < j ==> entry_query_ok(strategies, #[trigger] e0[m], answers.total_tokens@),
                infos@.len() == queried_entries(strategies, e0.take(j as int)).len(),
                forall|m: int| 0 <= m < infos@.len() ==> entry_query_matches(#[trigger] infos@[m], strategies,
                    queried_entries(strategies, e0.take(j as int))[m], answers.total_tokens@),
                merge_in_range(p0, coin_entries(allocation_fund(strategies, e0.take(j as int))), Operation::Add),
                merged(coin_entries(total@), p0, coin_entries(allocation_fund(strategies, e0.take(j as int))), Operation::Add),
                coin_entries(total@) == merge_entries(p0, coin_entries(allocation_fund(strategies, e0.take(j as int))), Operation::Add),
            decreases e0.len() - j,
        {
            let ghost e = e0[j as int];
            let ghost fj = allocation_fund(strategies, e0.take(j as int));
            let ghost qj = queried_entries(strategies, e0.take(j as int));
            proof {
                assert(e0.take(j + 1).drop_last() =~= e0.take(j as int));
                assert(e0.take(j + 1).last() == e);
                assert(allocation_fund(strategies, e0.take(j + 1)) == fj + entry_airdrops(strategies, e));
                assert(u.strategies@[j as int]@ == e);
            }
            let entry = &u.strategies[j];
            match self.strategy(entry.strategy_id) {
                None => {
                    proof {
                        assert(fj + Seq::<Coin>::empty() =~= fj);
                        assert(allocation_fund(strategies, e0.take(j + 1)) == fj);
                        assert(queried_entries(strategies, e0.take(j + 1)) == qj + Seq::<UserStrategyInfoView>::empty());
                        assert(qj + Seq::<UserStrategyInfoView>::empty() =~= qj);
                        assert(entry_query_ok(strategies, e, answers.total_tokens@));
                    }
                },
                Some(st) => {
                    proof {
                        assert(st@.wf());
                        assert(crate::coins::dec_coins_unique(e.airdrop_pointer));
                    }
                    let ghost c = coin_entries(entry_airdrops(strategies, e));
                    proof {
                        if user_query_ok(strategies, u0, answers.total_tokens@) {
                            assert(entry_query_ok(strategies, e0[j as int], answers.total_tokens@));
                        }
                    }
                    let ratio = match self.query_strategy_ratio(st, entry.strategy_id, answers) {
                        Ok(r) => r,
                        Err(err) => return Err(err),
                    };
                    let rewards = match checked_get_staked_amount(ratio, entry.shares) {
                        Some(t) => t,
                        None => return Err(ContractError::Overflow {}),
                    };
                    if !user_airdrops_computable(&st.global_airdrop_pointer, &entry.airdrop_pointer, entry.shares) {
                        return Err(ContractError::Overflow {});
                    }
                    let airdrops = match get_user_airdrops(&st.global_airdrop_pointer, &entry.airdrop_pointer, entry.shares) {
                        Some(a) => a,
                        None => Vec::new(),
                    };
                    proof {
                        assert(airdrops@ =~= user_airdrops_seq(st@.global_airdrop_pointer, e.airdrop_pointer, e.shares));
                        assert(entry_query_ok(strategies, e, answers.total_tokens@));
                    }
                    let ghost cur = total@;
                    let merged_total = match checked_merge_coin_vector(total, CoinVecOp { fund: clone_coins(&airdrops), operation: Operation::Add }) {
                        Some(t) => t,
                        None => {
                            proof {
                                if user_query_ok(strategies, u0, answers.total_tokens@) {
                                    lemma_coin_entries_concat(fj, entry_airdrops(strategies, e));
                                    lemma_in_range_compose(p0, coin_entries(fj), c, coin_entries(cur));
                                    assert(e0 =~= e0.take(j + 1) + e0.skip(j + 1));
                                    lemma_allocation_fund_concat(strategies, e0.take(j + 1), e0.skip(j + 1));
                                    lemma_coin_entries_concat(allocation_fund(strategies, e0.take(j + 1)),
                                        allocation_fund(strategies, e0.skip(j + 1)));
                                    lemma_in_range_prefix(p0, coin_entries(allocation_fund(strategies, e0.take(j + 1))),
                                        coin_entries(allocation_fund(strategies, e0.skip(j + 1))));
                                    assert(false);
                                }
                            }
                            return Err(ContractError::Overflow {});
                        },
                    };
                    total = merged_total;
                    infos.push(UserStrategyQueryInfo {
                        strategy_id: entry.strategy_id,
                        strategy_name: st.name.clone(),
                        total_rewards: rewards,
                        total_airdrops: airdrops,
                    });
                    proof {
                        lemma_coin_entries_concat(fj, entry_airdrops(strategies, e));
                        lemma_in_range_compose(p0, coin_entries(fj), c, coin_entries(cur));
                        lemma_merged_compose(p0, coin_entries(fj), c, coin_entries(cur), coin_entries(total@));
                        lemma_merge_entries_concat(p0, coin_entries(fj), c, Operation::Add);
                        assert(queried_entries(strategies, e0.take(j + 1)) == qj + seq![e]);
                        assert forall|m: int| 0 <= m < infos@.len() implies entry_query_matches(#[trigger] infos@[m], strategies,
                            queried_entries(strategies, e0.take(j + 1))[m], answers.total_tokens@) by {
                            if m < qj.len() {
                                assert((qj + seq![e])[m] == qj[m]);
                            } else {
                                assert((qj + seq![e])[m] == e);
                            }
                        }
                    }
                },
            }
            j = j + 1;
        }
        proof {
            assert(e0.take(j as int) =~= e0);
        }
        Ok(GetUserResponse {
            user: Some(UserRewardInfoQuery {
                total_airdrops: total,
                retained_rewards: u.pending_rewards,
                undelegation_records: clone_records(&u.undelegation_records),
                user_strategy_info: infos,
                user_portfolio: clone_portfolio(&u.user_portfolio),
            }),
        })
    }
}

/// The store a contract starts with: the sender manages it, strategy 0 retains rewards, no
/// strategy has been registered yet, and the configuration is the one asked for (an empty
/// default portfolio and the retain-rewards fallback where none is given).
pub fn instantiate(env: &Env, sender: &String, msg: InstantiateMsg) -> (r: (Store, Response))
    ensures
        r.0.wf(),
        r.0@.state == (StateView {
            manager: *sender,
            delegator_contract: msg.delegator_contract,
            scc_denom: msg.strategy_denom,
            contract_genesis_block_height: env.block_height,
            contract_genesis_timestamp: env.block_time,
            next_undelegation_id: 0,
            next_strategy_id: 1,
            rewards_in_scc: 0,
            total_accumulated_airdrops: Seq::empty(),
        }),
        r.0@.config == (ConfigView {
            default_user_portfolio: match msg.default_user_portfolio {
                Some(p) => p@,
                None => Seq::empty(),
            },
            fallback_strategy: match msg.default_fallback_strategy {
                Some(f) => f,
                None => 0,
            },
        }),
        r.0@.strategies.dom() == set![0u64],
        r.0@.strategies[0].name@ == "retain_rewards"@,
        r.0@.strategies[0] == (StrategyInfoView { name: r.0@.strategies[0].name, ..crate::admin::registered_strategy(
            r.0@.strategies[0].name, r.0@.strategies[0].sic_contract_address, 1814400u64, 3600) }),
        r.0@.users == Map::<Seq<char>, UserRewardInfoView>::empty(),
        r.0@.registry == Map::<Seq<char>, crate::state::Cw20TokenContractsInfo>::empty(),
        r.0@.batches == Map::<(u64, u64), crate::state::BatchUndelegationRecord>::empty(),
        r.1.messages@.len() == 0,
        r.1.attributes@.len() == 2,
        is_text_attr(r.1.attributes@[0], "method"@, "instantiate"@),
        is_text_attr(r.1.attributes@[1], "owner"@, sender@),
{
    let config = Config {
        default_user_portfolio: match msg.default_user_portfolio {
            Some(p) => p,
            None => Vec::new(),
        },
        fallback_strategy: match msg.default_fallback_strategy {
            Some(f) => f,
            None => 0,
        },
    };
    let state = State {
        manager: sender.clone(),
        delegator_contract: msg.delegator_contract,
        scc_denom: msg.strategy_denom,
        contract_genesis_block_height: env.block_height,
        contract_genesis_timestamp: env.block_time,
        next_undelegation_id: 0,
        next_strategy_id: 1,
        rewards_in_scc: 0,
        total_accumulated_airdrops: Vec::new(),
    };
    let mut strategies: BTreeMap<u64, StrategyInfo> = BTreeMap::new();
    // strategy 0 retains rewards in the contract
    strategies.insert(0, StrategyInfo::default(String::from_str("retain_rewards")));
    let store = Store {
        state,
        config,
        strategies,
        users: StringMap::new(),
        cw20_token_contracts_registry: StringMap::new(),
        undelegation_batches: BTreeMap::new(),
    };
    proof {
        assert(store@.state.total_accumulated_airdrops =~= Seq::<Coin>::empty());
        assert(store@.config.default_user_portfolio =~= (match msg.default_user_portfolio {
            Some(p) => p@,
            None => Seq::<crate::state::UserStrategyPortfolio>::empty(),
        }));
        assert(store.strategy_views().dom() =~= set![0u64]);
        assert(store@.batches =~= Map::<(u64, u64), crate::state::BatchUndelegationRecord>::empty());
        assert(coin_entries(store.state.total_accumulated_airdrops@) =~= Seq::<(Seq<char>, int)>::empty());
        assert forall|id: u64| #[trigger] store.strategy_views().contains_key(id) implies store.strategy_views()[id].wf() by {
            assert(crate::coins::dec_coin_entries(store.strategy_views()[id].global_airdrop_pointer) =~= Seq::<(Seq<char>, int)>::empty());
            assert(coin_entries(store.strategy_views()[id].total_airdrops_accumulated) =~= Seq::<(Seq<char>, int)>::empty());
        }
    }
    let mut resp = Response::new();
    resp.attributes.push(attr("method", String::from_str("instantiate")));
    resp.attributes.push(attr("owner", sender.clone()));
    (store, resp)
}

} // verus!
