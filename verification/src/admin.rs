//! Requests of the manager and of users that only change records: strategies, the airdrop
//! registry, the configuration, portfolios, and the withdrawal of retained rewards.

use vstd::prelude::*;
use crate::coins::Coin;
use crate::error::ContractError;
use crate::helpers::{fraction_sum, portfolio_strategies_exist, validate_user_portfolio};
use crate::msg::{attr, is_text_attr, ContractMsg, Response};
use crate::state::{clone_portfolio, Cw20TokenContractsInfo, StrategyInfo, StrategyInfoView,
    UserRewardInfo, UserRewardInfoView, UserStrategyPortfolio};
use crate::store::{Store, StoreView};

verus! {

broadcast use vstd::std_specs::btree::group_btree_axioms;

impl StoreView {
    pub open spec fn is_manager(self, sender: String) -> bool {
        sender@ == self.state.manager@
    }

    /// The store with strategy `id` set to `s`.
    pub open spec fn with_strategy(self, id: u64, s: StrategyInfoView) -> StoreView {
        StoreView { strategies: self.strategies.insert(id, s), ..self }
    }

    /// The store with the record of `user` set to `u`.
    pub open spec fn with_user(self, user: Seq<char>, u: UserRewardInfoView) -> StoreView {
        StoreView { users: self.users.insert(user, u), ..self }
    }
}

/// A strategy with new unbonding period, unbonding buffer, SIC address or activity, where given.
pub open spec fn updated_strategy(
    s: StrategyInfoView,
    unbonding_period: Option<u64>,
    unbonding_buffer: Option<u64>,
    sic_contract_address: Option<String>,
    is_active: Option<bool>,
) -> StrategyInfoView {
    StrategyInfoView {
        unbonding_period: match unbonding_period { Some(v) => v, None => s.unbonding_period },
        unbonding_buffer: match unbonding_buffer { Some(v) => v, None => s.unbonding_buffer },
        sic_contract_address: match sic_contract_address { Some(v) => v, None => s.sic_contract_address },
        is_active: match is_active { Some(v) => v, None => s.is_active },
        ..s
    }
}

/// A freshly registered strategy.
pub open spec fn registered_strategy(name: String, sic: String, unbonding_period: u64, unbonding_buffer: u64) -> StrategyInfoView {
    StrategyInfoView {
        name,
        sic_contract_address: sic,
        unbonding_period,
        unbonding_buffer,
        next_undelegation_batch_id: 0,
        next_reconciliation_batch_id: 0,
        is_active: false,
        total_shares: crate::math::Decimal { atomics: 0 },
        current_undelegated_shares: crate::math::Decimal { atomics: 0 },
        global_airdrop_pointer: Seq::empty(),
        total_airdrops_accumulated: Seq::empty(),
        shares_per_token_ratio: crate::math::Decimal { atomics: (10 * crate::math::DECIMAL_FRACTIONAL) as u128 },
    }
}

/// The record a user starts from: `default_portfolio` and nothing else.
pub open spec fn fresh_user(default_portfolio: Seq<UserStrategyPortfolio>) -> UserRewardInfoView {
    UserRewardInfoView {
        user_portfolio: default_portfolio,
        strategies: Seq::empty(),
        pending_airdrops: Seq::empty(),
        undelegation_records: Seq::empty(),
        pending_rewards: 0,
    }
}

impl Store {
    /// The manager registers a strategy under the next strategy id; it starts inactive.
    pub fn try_register_strategy(
        &mut self,
        sender: &String,
        strategy_name: String,
        sic_contract_address: String,
        unbonding_period: u64,
        unbonding_buffer: u64,
    ) -> (r: Result<Response, ContractError>)
        requires
            old(self).wf(),
        ensures
            final(self).wf(),
            !old(self)@.is_manager(*sender) ==> r == Err::<Response, ContractError>(ContractError::Unauthorized {}),
            old(self)@.is_manager(*sender) && old(self)@.strategies.contains_key(old(self)@.state.next_strategy_id)
                ==> r == Err::<Response, ContractError>(ContractError::StrategyInfoAlreadyExists {}),
            old(self)@.is_manager(*sender) && !old(self)@.strategies.contains_key(old(self)@.state.next_strategy_id)
                && old(self)@.state.next_strategy_id == u64::MAX ==> r == Err::<Response, ContractError>(ContractError::Overflow {}),
            r is Ok <==> old(self)@.is_manager(*sender) && !old(self)@.strategies.contains_key(old(self)@.state.next_strategy_id)
                && old(self)@.state.next_strategy_id < u64::MAX,
            r is Ok ==> final(self)@ == (StoreView {
                state: crate::state::StateView { next_strategy_id: (old(self)@.state.next_strategy_id + 1) as u64, ..old(self)@.state },
                ..old(self)@.with_strategy(old(self)@.state.next_strategy_id,
                    registered_strategy(strategy_name, sic_contract_address, unbonding_period, unbonding_buffer))
            }),
            r is Err ==> final(self)@ == old(self)@,
    {
        if *sender != self.state.manager {
            return Err(ContractError::Unauthorized {});
        }
        let strategy_id = self.state.next_strategy_id;
        if self.strategy(strategy_id).is_some() {
            return Err(ContractError::StrategyInfoAlreadyExists {});
        }
        if strategy_id == u64::MAX {
            return Err(ContractError::Overflow {});
        }
        let info = StrategyInfo::new(strategy_name, sic_contract_address, unbonding_period, unbonding_buffer);
        self.put_strategy(strategy_id, info);
        self.state.next_strategy_id = strategy_id + 1;
        Ok(Response::new())
    }

    /// The manager changes the unbonding period, unbonding buffer, SIC address or activity of a
    /// strategy.
    pub fn try_update_strategy(
        &mut self,
        sender: &String,
        strategy_id: u64,
        unbonding_period: Option<u64>,
        unbonding_buffer: Option<u64>,
        sic_contract_address: Option<String>,
        is_active: Option<bool>,
    ) -> (r: Result<Response, ContractError>)
        requires
            old(self).wf(),
        ensures
            final(self).wf(),
            !old(self)@.is_manager(*sender) ==> r == Err::<Response, ContractError>(ContractError::Unauthorized {}),
            old(self)@.is_manager(*sender) && !old(self)@.strategies.contains_key(strategy_id)
                ==> r == Err::<Response, ContractError>(ContractError::StrategyInfoDoesNotExist {}),
            r is Ok <==> old(self)@.is_manager(*sender) && old(self)@.strategies.contains_key(strategy_id),
            r is Ok ==> final(self)@ == old(self)@.with_strategy(strategy_id,
                updated_strategy(old(self)@.strategies[strategy_id], unbonding_period, unbonding_buffer, sic_contract_address, is_active)),
            r is Err ==> final(self)@ == old(self)@,
    {
        if *sender != self.state.manager {
            return Err(ContractError::Unauthorized {});
        }
        let mut strategy_info = match self.take_strategy(strategy_id) {
            Some(s) => s,
            None => {
                proof {
                    assert(self.strategy_views() =~= old(self).strategy_views());
                    self.lemma_wf_same_view(old(self));
                }
                return Err(ContractError::StrategyInfoDoesNotExist {});
            },
        };
        match unbonding_period {
            Some(v) => { strategy_info.unbonding_period = v; },
            None => {},
        }
        match unbonding_buffer {
            Some(v) => { strategy_info.unbonding_buffer = v; },
            None => {},
        }
        match sic_contract_address {
            Some(v) => { strategy_info.sic_contract_address = v; },
            None => {},
        }
        match is_active {
            Some(v) => { strategy_info.is_active = v; },
            None => {},
        }
        self.put_strategy(strategy_id, strategy_info);
        proof {
            assert(self.strategy_views() =~= old(self).strategy_views().insert(strategy_id,
                updated_strategy(old(self)@.strategies[strategy_id], unbonding_period, unbonding_buffer, sic_contract_address, is_active)));
        }
        Ok(Response::new())
    }

    /// Sets whether a strategy takes deposits.
    fn set_strategy_active(&mut self, sender: &String, strategy_id: u64, is_active: bool) -> (r: Result<Response, ContractError>)
        requires
            old(self).wf(),
        ensures
            final(self).wf(),
            !old(self)@.is_manager(*sender) ==> r == Err::<Response, ContractError>(ContractError::Unauthorized {}),
            old(self)@.is_manager(*sender) && !old(self)@.strategies.contains_key(strategy_id)
                ==> r == Err::<Response, ContractError>(ContractError::StrategyInfoDoesNotExist {}),
            r is Ok <==> old(self)@.is_manager(*sender) && old(self)@.strategies.contains_key(strategy_id),
            r is Ok ==> final(self)@ == old(self)@.with_strategy(strategy_id,
                StrategyInfoView { is_active, ..old(self)@.strategies[strategy_id] }),
            r is Err ==> final(self)@ == old(self)@,
    {
        self.try_update_strategy(sender, strategy_id, None, None, None, Some(is_active))
    }

    /// The manager stops deposits to a strategy; they go to the fallback strategy instead.
    pub fn try_deactivate_strategy(&mut self, sender: &String, strategy_id: u64) -> (r: Result<Response, ContractError>)
        requires
            old(self).wf(),
        ensures
            final(self).wf(),
            !old(self)@.is_manager(*sender) ==> r == Err::<Response, ContractError>(ContractError::Unauthorized {}),
            old(self)@.is_manager(*sender) && !old(self)@.strategies.contains_key(strategy_id)
                ==> r == Err::<Response, ContractError>(ContractError::StrategyInfoDoesNotExist {}),
            r is Ok <==> old(self)@.is_manager(*sender) && old(self)@.strategies.contains_key(strategy_id),
            r is Ok ==> final(self)@ == old(self)@.with_strategy(strategy_id,
                StrategyInfoView { is_active: false, ..old(self)@.strategies[strategy_id] }),
            r is Err ==> final(self)@ == old(self)@,
    {
        self.set_strategy_active(sender, strategy_id, false)
    }

    /// The manager lets a strategy take deposits.
    pub fn try_activate_strategy(&mut self, sender: &String, strategy_id: u64) -> (r: Result<Response, ContractError>)
        requires
            old(self).wf(),
        ensures
            final(self).wf(),
            !old(self)@.is_manager(*sender) ==> r == Err::<Response, ContractError>(ContractError::Unauthorized {}),
            old(self)@.is_manager(*sender) && !old(self)@.strategies.contains_key(strategy_id)
                ==> r == Err::<Response, ContractError>(ContractError::StrategyInfoDoesNotExist {}),
            r is Ok <==> old(self)@.is_manager(*sender) && old(self)@.strategies.contains_key(strategy_id),
            r is Ok ==> final(self)@ == old(self)@.with_strategy(strategy_id,
                StrategyInfoView { is_active: true, ..old(self)@.strategies[strategy_id] }),
            r is Err ==> final(self)@ == old(self)@,
    {
        self.set_strategy_active(sender, strategy_id, true)
    }

    /// The manager removes a strategy (whether or not it exists).
    pub fn try_remove_strategy(&mut self, sender: &String, strategy_id: u64) -> (r: Result<Response, ContractError>)
        requires
            old(self).wf(),
        ensures
            final(self).wf(),
            !old(self)@.is_manager(*sender) ==> r == Err::<Response, ContractError>(ContractError::Unauthorized {}),
            r is Ok <==> old(self)@.is_manager(*sender),
            r is Ok ==> final(self)@ == (StoreView { strategies: old(self)@.strategies.remove(strategy_id), ..old(self)@ }),
            r is Err ==> final(self)@ == old(self)@,
    {
        if *sender != self.state.manager {
            return Err(ContractError::Unauthorized {});
        }
        let _ = self.take_strategy(strategy_id);
        proof {
            assert forall|id: u64| #[trigger] self.strategy_views().contains_key(id) implies self.strategy_views()[id].wf() by {
                assert(old(self).strategy_views().contains_key(id));
            }
            assert forall|u: Seq<char>| #[trigger] self.user_views().contains_key(u) implies self.user_views()[u].wf() by {
                assert(old(self).user_views().contains_key(u));
            }
        }
        Ok(Response::new())
    }

    /// The manager registers the cw20 token and airdrop contracts of an airdrop denomination.
    pub fn try_update_cw20_contracts_registry(
        &mut self,
        sender: &String,
        denom: String,
        cw20_token_contract: String,
        airdrop_contract: String,
    ) -> (r: Result<Response, ContractError>)
        requires
            old(self).wf(),
        ensures
            final(self).wf(),
            !old(self)@.is_manager(*sender) ==> r == Err::<Response, ContractError>(ContractError::Unauthorized {}),
            r is Ok <==> old(self)@.is_manager(*sender),
            r is Ok ==> final(self)@ == (StoreView {
                registry: old(self)@.registry.insert(denom@, Cw20TokenContractsInfo { airdrop_contract, cw20_token_contract }),
                ..old(self)@
            }),
            r is Err ==> final(self)@ == old(self)@,
    {
        if self.state.manager != *sender {
            return Err(ContractError::Unauthorized {});
        }
        self.cw20_token_contracts_registry.insert(denom, Cw20TokenContractsInfo { airdrop_contract, cw20_token_contract });
        proof {
            assert forall|id: u64| #[trigger] self.strategy_views().contains_key(id) implies self.strategy_views()[id].wf() by {
                assert(old(self).strategy_views().contains_key(id));
            }
            assert forall|u: Seq<char>| #[trigger] self.user_views().contains_key(u) implies self.user_views()[u].wf() by {
                assert(old(self).user_views().contains_key(u));
            }
        }
        Ok(Response::new())
    }

    /// The manager changes the delegator contract, the default portfolio or the fallback
    /// strategy, where given. The fallback strategy must exist and the portfolio must be valid.
    pub fn try_update_config(
        &mut self,
        sender: &String,
        delegator_contract: Option<String>,
        default_user_portfolio: Option<Vec<UserStrategyPortfolio>>,
        fallback_strategy: Option<u64>,
    ) -> (r: Result<Response, ContractError>)
        requires
            old(self).wf(),
        ensures
            final(self).wf(),
            !old(self)@.is_manager(*sender) ==> r == Err::<Response, ContractError>(ContractError::Unauthorized {}),
            old(self)@.is_manager(*sender) && (fallback_strategy matches Some(f) && !old(self)@.strategies.contains_key(f))
                ==> r == Err::<Response, ContractError>(ContractError::StrategyInfoDoesNotExist {}),
            old(self)@.is_manager(*sender) && !(fallback_strategy matches Some(f) && !old(self)@.strategies.contains_key(f))
                && (default_user_portfolio matches Some(p) && !(portfolio_strategies_exist(old(self)@.strategies, p@) && fraction_sum(p@) <= 100))
                ==> r == Err::<Response, ContractError>(ContractError::InvalidUserPortfolio {}),
            r is Ok <==> old(self)@.is_manager(*sender)
                && !(fallback_strategy matches Some(f) && !old(self)@.strategies.contains_key(f))
                && !(default_user_portfolio matches Some(p) && !(portfolio_strategies_exist(old(self)@.strategies, p@) && fraction_sum(p@) <= 100)),
            r is Ok ==> final(self)@ == (StoreView {
                state: crate::state::StateView {
                    delegator_contract: match delegator_contract { Some(d) => d, None => old(self)@.state.delegator_contract },
                    ..old(self)@.state
                },
                config: crate::state::ConfigView {
                    default_user_portfolio: match default_user_portfolio { Some(p) => p@, None => old(self)@.config.default_user_portfolio },
                    fallback_strategy: match fallback_strategy { Some(f) => f, None => old(self)@.config.fallback_strategy },
                },
                ..old(self)@
            }),
            r is Err ==> final(self)@ == old(self)@,
    {
        if *sender != self.state.manager {
            return Err(ContractError::Unauthorized {});
        }
        match fallback_strategy {
            Some(f) => {
                if self.strategy(f).is_none() {
                    return Err(ContractError::StrategyInfoDoesNotExist {});
                }
            },
            None => {},
        }
        match &default_user_portfolio {
            Some(p) => {
                if validate_user_portfolio(self, p).is_err() {
                    return Err(ContractError::InvalidUserPortfolio {});
                }
            },
            None => {},
        }
        match delegator_contract {
            Some(d) => { self.state.delegator_contract = d; },
            None => {},
        }
        match default_user_portfolio {
            Some(p) => { self.config.default_user_portfolio = p; },
            None => {},
        }
        match fallback_strategy {
            Some(f) => { self.config.fallback_strategy = f; },
            None => {},
        }
        Ok(Response::new())
    }

    /// A user replaces their portfolio; every strategy in it must exist and the fractions must
    /// sum to at most 100, else the portfolio is refused as invalid. A user without a record
    /// gets one.
    pub fn try_update_user_portfolio(
        &mut self,
        sender: &String,
        user_portfolio: Vec<UserStrategyPortfolio>,
    ) -> (r: Result<Response, ContractError>)
        requires
            old(self).wf(),
        ensures
            final(self).wf(),
            r is Ok <==> portfolio_strategies_exist(old(self)@.strategies, user_portfolio@) && fraction_sum(user_portfolio@) <= 100,
            r is Err ==> r == Err::<Response, ContractError>(ContractError::InvalidUserPortfolio {}),
            r is Ok ==> final(self)@ == old(self)@.with_user(sender@, UserRewardInfoView {
                user_portfolio: user_portfolio@,
                ..(if old(self)@.users.contains_key(sender@) { old(self)@.users[sender@] } else { fresh_user(Seq::empty()) })
            }),
            r is Err ==> final(self)@ == old(self)@,
    {
        if validate_user_portfolio(self, &user_portfolio).is_err() {
            return Err(ContractError::InvalidUserPortfolio {});
        }
        let mut user_reward_info = match self.users.take(sender) {
            Some(u) => u,
            None => UserRewardInfo::default(),
        };
        user_reward_info.user_portfolio = user_portfolio;
        self.users.insert(sender.clone(), user_reward_info);
        proof {
            let new_u = self.users.map()[sender@];
            assert(self.users.map() =~= old(self).users.map().insert(sender@, new_u));
            assert(new_u.strategies == (if old(self)@.users.contains_key(sender@) { old(self)@.users[sender@] } else { fresh_user(Seq::empty()) }).strategies);
            assert forall|u: Seq<char>| #[trigger] self.user_views().contains_key(u) implies self.user_views()[u].wf() by {
                if u != sender@ {
                    assert(old(self).user_views().contains_key(u));
                }
            }
        }
        Ok(Response::new())
    }

    /// A user withdraws the rewards retained for them in the contract.
    pub fn try_withdraw_pending_rewards(&mut self, sender: &String) -> (r: Result<Response, ContractError>)
        requires
            old(self).wf(),
        ensures
            final(self).wf(),
            r is Err <==> !old(self)@.users.contains_key(sender@),
            r is Err ==> r == Err::<Response, ContractError>(ContractError::UserRewardInfoDoesNotExist {}) && final(self)@ == old(self)@,
            r matches Ok(resp) ==> {
                let pending = old(self)@.users[sender@].pending_rewards;
                if pending == 0 {
                    &&& final(self)@ == old(self)@
                    &&& resp.messages@.len() == 0
                    &&& resp.attributes@.len() == 1
                    &&& is_text_attr(resp.attributes@[0], "zero_pending_rewards"@, "1"@)
                } else {
                    &&& final(self)@ == old(self)@.with_user(sender@,
                        UserRewardInfoView { pending_rewards: 0, ..old(self)@.users[sender@] })
                    &&& resp.attributes@.len() == 0
                    &&& resp.messages@.len() == 1
                    &&& resp.messages@[0] matches ContractMsg::BankSend { to_address, amount }
                        && to_address@ == sender@ && amount@.len() == 1 && amount@[0].amount == pending
                        && amount@[0].denom@ == old(self)@.state.scc_denom@
                }
            },
    {
        let mut user_reward_info = match self.users.take(sender) {
            Some(u) => u,
            None => {
                proof {
                    assert(self.users.map() =~= old(self).users.map());
                }
                return Err(ContractError::UserRewardInfoDoesNotExist {});
            },
        };
        let user_pending_rewards = user_reward_info.pending_rewards;
        if user_pending_rewards == 0 {
            let ghost u = user_reward_info@;
            self.users.insert(sender.clone(), user_reward_info);
            proof {
                assert(self.users.map() =~= old(self).users.map());
            }
            let mut resp = Response::new();
            resp.attributes.push(attr("zero_pending_rewards", String::from_str("1")));
            return Ok(resp);
        }
        user_reward_info.pending_rewards = 0;
        let ghost new_u = user_reward_info@;
        self.users.insert(sender.clone(), user_reward_info);
        proof {
            assert(self.users.map() =~= old(self).users.map().insert(sender@, new_u));
            assert forall|u: Seq<char>| #[trigger] self.user_views().contains_key(u) implies self.user_views()[u].wf() by {
                if u != sender@ {
                    assert(old(self).user_views().contains_key(u));
                }
            }
        }
        let mut resp = Response::new();
        resp.messages.push(ContractMsg::BankSend {
            to_address: sender.clone(),
            amount: vec![Coin { denom: self.state.scc_denom.clone(), amount: user_pending_rewards }],
        });
        Ok(resp)
    }
}

} // verus!
