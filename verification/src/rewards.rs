//! Undelegating a user's rewards from a strategy, and withdrawing them once unbonded.

use vstd::prelude::*;
use crate::coins::{Coin, Operation, coin_entries, merge_entries, merged};
use crate::env::{Env, SicAnswers};
use crate::error::ContractError;
use crate::helpers::{get_strategy_shares_per_token_ratio, reported_tokens, shares_per_token_ratio};
use crate::math::{Decimal, DECIMAL_FRACTIONAL, spec_mul, spec_div, checked_decimal_from_uint128,
    checked_decimal_multiplication, checked_decimal_summation, decimal_subtraction_in_256,
    uint128_from_decimal, Timestamp};
use crate::msg::{ContractMsg, Response};
use crate::state::{StrategyInfoView, UserRewardInfoView, UserStrategyInfoView, UserUndelegationRecord,
    BatchUndelegationRecord};
use crate::store::{Store, StoreView};
use crate::user::{airdrops_collectable, collect_user_airdrops, find_user_strategy, has_strategy_entry,
    strategy_entry_index, user_airdrops_seq};

verus! {

broadcast use vstd::std_specs::btree::group_btree_axioms;

/// Whether undelegating `amount` from strategy `strategy_id` succeeds for `sender`, and if so at
/// which shares-per-token ratio and for how many shares; otherwise the refusal.
pub open spec fn undelegation_outcome(
    s: StoreView,
    sender: Seq<char>,
    amount: u128,
    strategy_id: u64,
    tokens: Map<u64, Option<u128>>,
) -> Result<(Decimal, Decimal), ContractError> {
    if amount == 0 {
        Err(ContractError::CannotUndelegateZeroFunds {})
    } else if !s.strategies.contains_key(strategy_id) {
        Err(ContractError::StrategyInfoDoesNotExist {})
    } else if !s.users.contains_key(sender) {
        Err(ContractError::UserRewardInfoDoesNotExist {})
    } else if !has_strategy_entry(s.users[sender], strategy_id) {
        Err(ContractError::UserNotInStrategy {})
    } else {
        let st = s.strategies[strategy_id];
        let u = s.users[sender];
        let j = strategy_entry_index(u, strategy_id);
        let e = u.strategies[j];
        if !airdrops_collectable(u, j, st.global_airdrop_pointer) {
            Err(ContractError::Overflow {})
        } else if !tokens.contains_key(strategy_id) {
            Err(ContractError::SICFailedToReturnResult {})
        } else {
            let t = reported_tokens(tokens[strategy_id]);
            if t != 0 && st.total_shares.atomics != 0 && t * DECIMAL_FRACTIONAL > u128::MAX {
                Err(ContractError::Overflow {})
            } else {
                let ratio = shares_per_token_ratio(t, st.total_shares);
                let amount_dec = Decimal { atomics: (amount * DECIMAL_FRACTIONAL) as u128 };
                if amount * DECIMAL_FRACTIONAL > u128::MAX || spec_mul(ratio, amount_dec) > u128::MAX {
                    Err(ContractError::Overflow {})
                } else {
                    let undelegated = Decimal { atomics: spec_mul(ratio, amount_dec) as u128 };
                    if undelegated.atomics > e.shares.atomics {
                        Err(ContractError::UserDoesNotHaveEnoughRewards {})
                    } else if st.current_undelegated_shares.atomics + undelegated.atomics > u128::MAX
                        || s.state.next_undelegation_id == u64::MAX {
                        Err(ContractError::Overflow {})
                    } else {
                        Ok((ratio, undelegated))
                    }
                }
            }
        }
    }
}

impl Store {
    /// A user begins unbonding `amount` of their rewards in a strategy: the shares that the amount
    /// is worth at the strategy's current shares-per-token ratio move from the user's position to
    /// the strategy's queued undelegation, and the user gets an undelegation record in the
    /// strategy's next undelegation batch. The airdrops of the position are collected first.
    /// Rewards retained in the contract (strategy 0) need no unbonding: they are paid out at once
    /// from the user's pending rewards.
    pub fn try_undelegate_user_rewards(
        &mut self,
        sender: &String,
        amount: u128,
        strategy_id: u64,
        answers: &SicAnswers,
    ) -> (r: Result<Response, ContractError>)
        requires
            old(self).wf(),
        ensures
            r is Err ==> final(self)@ == old(self)@,
            amount == 0 ==> r == Err::<Response, ContractError>(ContractError::CannotUndelegateZeroFunds {}),
            strategy_id == 0 && amount != 0 ==> {
                let s = old(self)@;
                if !s.users.contains_key(sender@) {
                    r == Err::<Response, ContractError>(ContractError::UserRewardInfoDoesNotExist {})
                } else if amount > s.users[sender@].pending_rewards {
                    r == Err::<Response, ContractError>(ContractError::UserDoesNotHaveEnoughRewards {})
                } else if amount > s.state.rewards_in_scc {
                    r == Err::<Response, ContractError>(ContractError::Overflow {})
                } else {
                    r matches Ok(resp) && {
                        &&& final(self).wf()
                        &&& final(self)@ == (StoreView {
                            state: crate::state::StateView { rewards_in_scc: (s.state.rewards_in_scc - amount) as u128, ..s.state },
                            users: s.users.insert(sender@, UserRewardInfoView {
                                pending_rewards: (s.users[sender@].pending_rewards - amount) as u128,
                                ..s.users[sender@]
                            }),
                            ..s
                        })
                        &&& resp.attributes@.len() == 0
                        &&& resp.messages@.len() == 1
                        &&& resp.messages@[0] matches ContractMsg::BankSend { to_address, amount: c }
                            && to_address@ == sender@ && c@.len() == 1 && c@[0].amount == amount && c@[0].denom@ == s.state.scc_denom@
                    }
                }
            },
            strategy_id != 0 ==> match undelegation_outcome(old(self)@, sender@, amount, strategy_id, answers.total_tokens@) {
                Err(e) => r == Err::<Response, ContractError>(e),
                Ok((ratio, undelegated)) => r is Ok,
            },
            strategy_id != 0 ==> (r matches Ok(resp) ==> {
                let s = old(self)@;
                let (ratio, undelegated) = undelegation_outcome(s, sender@, amount, strategy_id, answers.total_tokens@)->Ok_0;
                let st = s.strategies[strategy_id];
                let u = s.users[sender@];
                let j = strategy_entry_index(u, strategy_id);
                let e = u.strategies[j];
                let pending = final(self)@.users[sender@].pending_airdrops;
                &&& final(self).wf()
                &&& resp.messages@.len() == 0
                &&& resp.attributes@.len() == 0
                &&& merged(coin_entries(pending), coin_entries(u.pending_airdrops),
                    coin_entries(user_airdrops_seq(st.global_airdrop_pointer, e.airdrop_pointer, e.shares)), Operation::Add)
                &&& coin_entries(pending) == merge_entries(coin_entries(u.pending_airdrops),
                    coin_entries(user_airdrops_seq(st.global_airdrop_pointer, e.airdrop_pointer, e.shares)), Operation::Add)
                &&& final(self)@ == (StoreView {
                    state: crate::state::StateView { next_undelegation_id: (s.state.next_undelegation_id + 1) as u64, ..s.state },
                    strategies: s.strategies.insert(strategy_id, StrategyInfoView {
                        shares_per_token_ratio: ratio,
                        current_undelegated_shares: Decimal {
                            atomics: (st.current_undelegated_shares.atomics + undelegated.atomics) as u128,
                        },
                        ..st
                    }),
                    users: s.users.insert(sender@, UserRewardInfoView {
                        strategies: u.strategies.update(j, UserStrategyInfoView {
                            shares: Decimal { atomics: (e.shares.atomics - undelegated.atomics) as u128 },
                            airdrop_pointer: st.global_airdrop_pointer,
                            ..e
                        }),
                        pending_airdrops: pending,
                        undelegation_records: u.undelegation_records.push(UserUndelegationRecord {
                            id: s.state.next_undelegation_id,
                            amount,
                            shares: undelegated,
                            strategy_id,
                            undelegation_batch_id: st.next_undelegation_batch_id,
                        }),
                        ..u
                    }),
                    ..s
                })
            }),
    {
        let ghost s = self@;
        if amount == 0 {
            return Err(ContractError::CannotUndelegateZeroFunds {});
        }
        if strategy_id == 0 {
            return self.undelegate_retained_rewards(sender, amount);
        }
        let mut strategy_info = match self.strategy(strategy_id) {
            Some(st) => st.clone(),
            None => return Err(ContractError::StrategyInfoDoesNotExist {}),
        };
        let mut user_reward_info = match self.users.get(sender) {
            Some(u) => u.clone(),
            None => return Err(ContractError::UserRewardInfoDoesNotExist {}),
        };
        proof {
            assert(s.strategies.contains_key(strategy_id));
            assert(strategy_info@.wf());
            assert(user_reward_info@.wf());
        }
        let j = match find_user_strategy(&user_reward_info, strategy_id) {
            Some(j) => j,
            None => return Err(ContractError::UserNotInStrategy {}),
        };
        let ghost u0 = user_reward_info@;
        // collect the airdrops of the position before its shares change
        match collect_user_airdrops(&mut user_reward_info, j, &strategy_info.global_airdrop_pointer) {
            Ok(()) => {},
            Err(e) => return Err(e),
        }
        proof {
            assert(user_reward_info@.strategies.len() == u0.strategies.len());
            assert(user_reward_info.strategies@.len() == user_reward_info@.strategies.len());
            assert(user_reward_info@.strategies[j as int].shares == u0.strategies[j as int].shares);
        }
        let strategy_shares_per_token_ratio = match get_strategy_shares_per_token_ratio(answers.total_tokens_of(strategy_id), &strategy_info) {
            Ok(ratio) => ratio,
            Err(e) => return Err(e),
        };
        strategy_info.shares_per_token_ratio = strategy_shares_per_token_ratio;
        let amount_dec = match checked_decimal_from_uint128(amount) {
            Some(d) => d,
            None => return Err(ContractError::Overflow {}),
        };
        let user_undelegated_shares = match checked_decimal_multiplication(strategy_shares_per_token_ratio, amount_dec) {
            Some(d) => d,
            None => {
                proof {
                    let t = reported_tokens(answers.total_tokens@[strategy_id]);
                    assert(strategy_shares_per_token_ratio == shares_per_token_ratio(t, s.strategies[strategy_id].total_shares));
                    assert(amount_dec == Decimal { atomics: (amount * DECIMAL_FRACTIONAL) as u128 });
                }
                return Err(ContractError::Overflow {});
            },
        };
        let user_total_shares = user_reward_info.strategies[j].shares;
        if user_undelegated_shares.gt(&user_total_shares) {
            return Err(ContractError::UserDoesNotHaveEnoughRewards {});
        }
        let new_undelegated = match checked_decimal_summation(strategy_info.current_undelegated_shares, user_undelegated_shares) {
            Some(d) => d,
            None => return Err(ContractError::Overflow {}),
        };
        let undelegation_id = self.state.next_undelegation_id;
        if undelegation_id == u64::MAX {
            return Err(ContractError::Overflow {});
        }
        let ghost u1 = user_reward_info@;
        let mut entries: Vec<crate::state::UserStrategyInfo> = Vec::new();
        std::mem::swap(&mut entries, &mut user_reward_info.strategies);
        let ghost old_entries = entries@;
        let mut entry = entries.remove(j);
        entry.shares = decimal_subtraction_in_256(user_total_shares, user_undelegated_shares);
        let ghost new_entry = entry@;
        entries.insert(j, entry);
        proof {
            assert(entries@.map_values(|x: crate::state::UserStrategyInfo| x@)
                =~= old_entries.map_values(|x: crate::state::UserStrategyInfo| x@).update(j as int, new_entry));
        }
        user_reward_info.strategies = entries;
        strategy_info.current_undelegated_shares = new_undelegated;
        user_reward_info.undelegation_records.push(UserUndelegationRecord {
            id: undelegation_id,
            amount,
            shares: user_undelegated_shares,
            strategy_id,
            undelegation_batch_id: strategy_info.next_undelegation_batch_id,
        });
        self.state.next_undelegation_id = undelegation_id + 1;
        let ghost new_strategy = strategy_info@;
        let ghost new_user = user_reward_info@;
        self.put_strategy(strategy_id, strategy_info);
        self.users.insert(sender.clone(), user_reward_info);
        proof {
            assert(self.strategy_views() =~= s.strategies.insert(strategy_id, new_strategy));
            assert(self.users.map() =~= s.users.insert(sender@, new_user));
            assert(new_user.strategies =~= u0.strategies.update(j as int, UserStrategyInfoView {
                shares: Decimal { atomics: (u0.strategies[j as int].shares.atomics - user_undelegated_shares.atomics) as u128 },
                airdrop_pointer: s.strategies[strategy_id].global_airdrop_pointer,
                ..u0.strategies[j as int]
            }));
            assert forall|a: int, b: int| 0 <= a < b < new_user.strategies.len() implies
                #[trigger] new_user.strategies[a].strategy_id != #[trigger] new_user.strategies[b].strategy_id by {
                assert(u0.strategies[a].strategy_id != u0.strategies[b].strategy_id);
            }
            assert forall|a: int| 0 <= a < new_user.strategies.len() implies crate::coins::dec_coins_unique(#[trigger] new_user.strategies[a].airdrop_pointer) by {
                if a != j {
                    assert(crate::coins::dec_coins_unique(u0.strategies[a].airdrop_pointer));
                }
            }
            assert forall|id: u64| #[trigger] self.strategy_views().contains_key(id) implies self.strategy_views()[id].wf() by {
                if id != strategy_id {
                    assert(s.strategies.contains_key(id));
                }
            }
            assert forall|x: Seq<char>| #[trigger] self.user_views().contains_key(x) implies self.user_views()[x].wf() by {
                if x != sender@ {
                    assert(s.users.contains_key(x));
                }
            }
        }
        Ok(Response::new())
    }
}

/// The record matches an undelegation id in a strategy.
pub open spec fn record_matches(rec: UserUndelegationRecord, undelegation_id: u64, strategy_id: u64) -> bool {
    rec.id == undelegation_id && rec.strategy_id == strategy_id
}

/// Some record matches.
pub open spec fn has_record(recs: Seq<UserUndelegationRecord>, undelegation_id: u64, strategy_id: u64) -> bool {
    exists|i: int| 0 <= i < recs.len() && record_matches(#[trigger] recs[i], undelegation_id, strategy_id)
}

/// The first matching record.
pub open spec fn record_index(recs: Seq<UserUndelegationRecord>, undelegation_id: u64, strategy_id: u64) -> int {
    choose|i: int| 0 <= i < recs.len() && record_matches(#[trigger] recs[i], undelegation_id, strategy_id)
        && forall|k: int| 0 <= k < i ==> !record_matches(#[trigger] recs[k], undelegation_id, strategy_id)
}

/// Whether a batch cannot be withdrawn from yet at `now`: it has no withdrawal time, or its
/// withdrawal time lies after `now`.
pub open spec fn in_unbonding(batch: BatchUndelegationRecord, now: Timestamp) -> bool {
    match batch.withdrawal_time {
        Some(t) => t.nanos > now.nanos,
        None => true,
    }
}

/// What a record is worth when withdrawn: its shares at the batch's shares-per-token ratio, after
/// the batch's unbonding slashing.
pub open spec fn withdrawable_amount(rec: UserUndelegationRecord, batch: BatchUndelegationRecord) -> int {
    spec_div(rec.shares, batch.undelegation_s_t_ratio) / (DECIMAL_FRACTIONAL as int)
}

pub open spec fn effective_amount(withdrawable: int, batch: BatchUndelegationRecord) -> int {
    spec_mul(Decimal { atomics: (withdrawable * DECIMAL_FRACTIONAL) as u128 }, batch.unbonding_slashing_ratio) / (DECIMAL_FRACTIONAL as int)
}

/// Whether withdrawing undelegation `undelegation_id` of strategy `strategy_id` succeeds for
/// `sender` at `now`, and if so the record's position and the amount paid out.
pub open spec fn withdrawal_outcome(
    s: StoreView,
    sender: Seq<char>,
    undelegation_id: u64,
    strategy_id: u64,
    now: Timestamp,
) -> Result<(int, u128), ContractError> {
    if !s.users.contains_key(sender) {
        Err(ContractError::UserRewardInfoDoesNotExist {})
    } else if !has_record(s.users[sender].undelegation_records, undelegation_id, strategy_id) {
        Err(ContractError::UndelegationRecordNotFound {})
    } else {
        let recs = s.users[sender].undelegation_records;
        let i = record_index(recs, undelegation_id, strategy_id);
        let rec = recs[i];
        if !s.batches.contains_key((strategy_id, rec.undelegation_batch_id)) {
            Err(ContractError::UndelegationBatchNotFound {})
        } else {
            let batch = s.batches[(strategy_id, rec.undelegation_batch_id)];
            if in_unbonding(batch, now) {
                Err(ContractError::UndelegationInUnbondingPeriod {})
            } else if !batch.released {
                Err(ContractError::UndelegationBatchNotReleased {})
            } else if batch.undelegation_s_t_ratio.atomics == 0 || spec_div(rec.shares, batch.undelegation_s_t_ratio) > u128::MAX {
                Err(ContractError::Overflow {})
            } else {
                let w = withdrawable_amount(rec, batch);
                if w * DECIMAL_FRACTIONAL > u128::MAX
                    || spec_mul(Decimal { atomics: (w * DECIMAL_FRACTIONAL) as u128 }, batch.unbonding_slashing_ratio) > u128::MAX {
                    Err(ContractError::Overflow {})
                } else {
                    Ok((i, effective_amount(w, batch) as u128))
                }
            }
        }
    }
}

/// The position of the first record of `undelegation_id` in strategy `strategy_id`.
pub fn find_record(recs: &Vec<UserUndelegationRecord>, undelegation_id: u64, strategy_id: u64) -> (r: Option<usize>)
    ensures
        match r {
            Some(i) => i < recs@.len() && has_record(recs@, undelegation_id, strategy_id)
                && record_index(recs@, undelegation_id, strategy_id) == i,
            None => !has_record(recs@, undelegation_id, strategy_id),
        },
{
    let mut i: usize = 0;
    while i < recs.len()
        invariant
            i <= recs@.len(),
            forall|k: int| 0 <= k < i ==> !record_matches(#[trigger] recs@[k], undelegation_id, strategy_id),
        decreases recs@.len() - i,
    {
        let rec = recs[i];
        if rec.id == undelegation_id && rec.strategy_id == strategy_id {
            proof {
                assert(record_matches(recs@[i as int], undelegation_id, strategy_id));
                assert(has_record(recs@, undelegation_id, strategy_id));
                let c = record_index(recs@, undelegation_id, strategy_id);
                if c != i {
                    if c < i {
                        assert(!record_matches(recs@[c], undelegation_id, strategy_id));
                    } else {
                        assert(!record_matches(recs@[i as int], undelegation_id, strategy_id));
                    }
                }
            }
            return Some(i);
        }
        i = i + 1;
    }
    proof {
        if has_record(recs@, undelegation_id, strategy_id) {
            let k = choose|k: int| 0 <= k < recs@.len() && record_matches(#[trigger] recs@[k], undelegation_id, strategy_id);
            assert(!record_matches(recs@[k], undelegation_id, strategy_id));
        }
    }
    None
}

impl Store {
    /// A user withdraws an undelegation once its batch is released and out of its unbonding
    /// period: the record is removed and its worth, after unbonding slashing, is sent to the user.
    #[verifier::rlimit(30)]
    pub fn try_withdraw_rewards(
        &mut self,
        env: &Env,
        sender: &String,
        undelegation_id: u64,
        strategy_id: u64,
    ) -> (r: Result<Response, ContractError>)
        requires
            old(self).wf(),
        ensures
            r is Err ==> final(self)@ == old(self)@,
            match withdrawal_outcome(old(self)@, sender@, undelegation_id, strategy_id, env.block_time) {
                Err(e) => r == Err::<Response, ContractError>(e),
                Ok(_) => r is Ok,
            },
            r matches Ok(resp) ==> {
                let s = old(self)@;
                let (i, paid) = withdrawal_outcome(s, sender@, undelegation_id, strategy_id, env.block_time)->Ok_0;
                let u = s.users[sender@];
                &&& final(self).wf()
                &&& final(self)@ == s.with_user(sender@, UserRewardInfoView {
                    undelegation_records: u.undelegation_records.remove(i),
                    ..u
                })
                &&& resp.attributes@.len() == 0
                &&& resp.messages@.len() == 1
                &&& resp.messages@[0] matches ContractMsg::BankSend { to_address, amount }
                    && to_address@ == sender@ && amount@.len() == 1 && amount@[0].amount == paid && amount@[0].denom@ == s.state.scc_denom@
            },
    {
        let ghost s = self@;
        let mut user_reward_info = match self.users.get(sender) {
            Some(u) => u.clone(),
            None => return Err(ContractError::UserRewardInfoDoesNotExist {}),
        };
        let ghost recs = user_reward_info@.undelegation_records;
        let i = match find_record(&user_reward_info.undelegation_records, undelegation_id, strategy_id) {
            Some(i) => i,
            None => return Err(ContractError::UndelegationRecordNotFound {}),
        };
        let rec = user_reward_info.undelegation_records[i];
        let batch = match self.batch(strategy_id, rec.undelegation_batch_id) {
            Some(b) => b,
            None => return Err(ContractError::UndelegationBatchNotFound {}),
        };
        match batch.withdrawal_time {
            Some(t) => {
                if t.nanos > env.block_time.nanos {
                    return Err(ContractError::UndelegationInUnbondingPeriod {});
                }
            },
            None => return Err(ContractError::UndelegationInUnbondingPeriod {}),
        }
        if !batch.released {
            return Err(ContractError::UndelegationBatchNotReleased {});
        }
        if batch.undelegation_s_t_ratio.is_zero() {
            return Err(ContractError::Overflow {});
        }
        let withdrawable = match crate::math::checked_decimal_division(rec.shares, batch.undelegation_s_t_ratio) {
            Some(d) => uint128_from_decimal(d),
            None => return Err(ContractError::Overflow {}),
        };
        let withdrawable_dec = match checked_decimal_from_uint128(withdrawable) {
            Some(d) => d,
            None => return Err(ContractError::Overflow {}),
        };
        // apply the unbonding slashing to the withdrawable amount
        let effective = match checked_decimal_multiplication(withdrawable_dec, batch.unbonding_slashing_ratio) {
            Some(d) => uint128_from_decimal(d),
            None => return Err(ContractError::Overflow {}),
        };
        user_reward_info.undelegation_records.remove(i);
        let ghost new_user = user_reward_info@;
        self.users.insert(sender.clone(), user_reward_info);
        proof {
            assert(self.users.map() =~= s.users.insert(sender@, new_user));
            assert(new_user.undelegation_records =~= recs.remove(i as int));
            assert forall|x: Seq<char>| #[trigger] self.user_views().contains_key(x) implies self.user_views()[x].wf() by {
                if x != sender@ {
                    assert(s.users.contains_key(x));
                }
            }
        }
        let mut resp = Response::new();
        resp.messages.push(ContractMsg::BankSend {
            to_address: sender.clone(),
            amount: vec![Coin { denom: self.state.scc_denom.clone(), amount: effective }],
        });
        Ok(resp)
    }
}

impl Store {
    /// Pays out `amount` of the rewards retained for the user in the contract.
    fn undelegate_retained_rewards(&mut self, sender: &String, amount: u128) -> (r: Result<Response, ContractError>)
        requires
            old(self).wf(),
        ensures
            r is Err ==> final(self)@ == old(self)@,
            ({
                let s = old(self)@;
                if !s.users.contains_key(sender@) {
                    r == Err::<Response, ContractError>(ContractError::UserRewardInfoDoesNotExist {})
                } else if amount > s.users[sender@].pending_rewards {
                    r == Err::<Response, ContractError>(ContractError::UserDoesNotHaveEnoughRewards {})
                } else if amount > s.state.rewards_in_scc {
                    r == Err::<Response, ContractError>(ContractError::Overflow {})
                } else {
                    r matches Ok(resp) && {
                        &&& final(self).wf()
                        &&& final(self)@ == (StoreView {
                            state: crate::state::StateView { rewards_in_scc: (s.state.rewards_in_scc - amount) as u128, ..s.state },
                            users: s.users.insert(sender@, UserRewardInfoView {
                                pending_rewards: (s.users[sender@].pending_rewards - amount) as u128,
                                ..s.users[sender@]
                            }),
                            ..s
                        })
                        &&& resp.attributes@.len() == 0
                        &&& resp.messages@.len() == 1
                        &&& resp.messages@[0] matches ContractMsg::BankSend { to_address, amount: c }
                            && to_address@ == sender@ && c@.len() == 1 && c@[0].amount == amount && c@[0].denom@ == s.state.scc_denom@
                    }
                }
            }),
    {
        let ghost s = self@;
        let mut user = match self.users.get(sender) {
            Some(u) => u.clone(),
            None => return Err(ContractError::UserRewardInfoDoesNotExist {}),
        };
        if amount > user.pending_rewards {
            return Err(ContractError::UserDoesNotHaveEnoughRewards {});
        }
        if amount > self.state.rewards_in_scc {
            return Err(ContractError::Overflow {});
        }
        user.pending_rewards = user.pending_rewards - amount;
        self.state.rewards_in_scc = self.state.rewards_in_scc - amount;
        let ghost new_user = user@;
        proof {
            assert(s.users.contains_key(sender@));
            assert(new_user.wf());
        }
        self.users.insert(sender.clone(), user);
        proof {
            assert(self.users.map() =~= s.users.insert(sender@, new_user));
            assert forall|x: Seq<char>| #[trigger] self.user_views().contains_key(x) implies self.user_views()[x].wf() by {
                if x != sender@ {
                    assert(s.users.contains_key(x));
                }
            }
        }
        let mut resp = Response::new();
        resp.messages.push(ContractMsg::BankSend {
            to_address: sender.clone(),
            amount: vec![Coin { denom: self.state.scc_denom.clone(), amount }],
        });
        Ok(resp)
    }
}

} // verus!
