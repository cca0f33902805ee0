//! Undelegating the queued shares of strategies from their SICs in batches, and taking back
//! the funds of the batches whose unbonding is over.

use vstd::prelude::*;
use crate::env::{Env, SicAnswers};
use crate::error::ContractError;
use crate::helpers::{get_strategy_shares_per_token_ratio, reported_tokens, shares_per_token_ratio};
use crate::math::{checked_decimal_division, decimal_subtraction_in_256, spec_div, spec_ratio,
    uint128_from_decimal, Decimal, Timestamp, DECIMAL_FRACTIONAL};
use crate::msg::{attr, attr_batches, attr_ids, is_batches_attr, is_ids_attr, is_text_attr, ContractMsg, Response};
use crate::state::{BatchUndelegationRecord, StrategyInfoView, UndelegationBatchStatus};
use crate::store::{Store, StoreView};

verus! {

broadcast use vstd::std_specs::btree::group_btree_axioms;

/// What undelegating from a list of strategies reports.
pub struct UndelegationLog {
    pub failed_strategies: Seq<u64>,
    pub strategies_with_no_undelegations: Seq<u64>,
    pub failed_sics: Seq<u64>,
    pub messages: Seq<ContractMsg>,
}

pub open spec fn empty_undelegation_log() -> UndelegationLog {
    UndelegationLog {
        failed_strategies: Seq::empty(),
        strategies_with_no_undelegations: Seq::empty(),
        failed_sics: Seq::empty(),
        messages: Seq::empty(),
    }
}

/// The nanoseconds at which a batch undelegated from `st` at `now` is expected to be released
/// by the SIC: after the unbonding period.
pub open spec fn release_nanos(now: Timestamp, st: StrategyInfoView) -> int {
    now.nanos + st.unbonding_period * 1_000_000_000
}

/// The nanoseconds from which users can withdraw from such a batch: after the unbonding period
/// and the buffer.
pub open spec fn withdrawal_nanos(now: Timestamp, st: StrategyInfoView) -> int {
    now.nanos + (st.unbonding_period + st.unbonding_buffer) * 1_000_000_000
}

/// Whether the SIC has yet to release a batch at `now`: its estimated release time lies after
/// `now`.
pub open spec fn release_pending(batch: BatchUndelegationRecord, now: Timestamp) -> bool {
    match batch.est_release_time {
        Some(t) => t.nanos > now.nanos,
        None => false,
    }
}

/// Undelegating the queued shares of strategy `id`: a missing strategy, one with nothing queued
/// and one whose SIC did not answer are logged and skipped; otherwise the queued shares become
/// the strategy's next undelegation batch, worth their amount at the current shares-per-token
/// ratio, and leave the strategy's total. `Err(Overflow)` where a step has no result in range.
pub open spec fn undelegation_step(
    s: StoreView,
    log: UndelegationLog,
    id: u64,
    tokens: Map<u64, Option<u128>>,
    now: Timestamp,
) -> Result<(StoreView, UndelegationLog), ContractError> {
    if !s.strategies.contains_key(id) {
        Ok((s, UndelegationLog { failed_strategies: log.failed_strategies.push(id), ..log }))
    } else {
        let st = s.strategies[id];
        let shares = st.current_undelegated_shares;
        if shares.atomics == 0 {
            Ok((s, UndelegationLog { strategies_with_no_undelegations: log.strategies_with_no_undelegations.push(id), ..log }))
        } else if !tokens.contains_key(id) {
            Ok((s, UndelegationLog { failed_sics: log.failed_sics.push(id), ..log }))
        } else {
            let t = reported_tokens(tokens[id]);
            if t != 0 && st.total_shares.atomics != 0 && t * DECIMAL_FRACTIONAL > u128::MAX {
                Err(ContractError::Overflow {})
            } else {
                let ratio = shares_per_token_ratio(t, st.total_shares);
                if ratio.atomics == 0 || spec_div(shares, ratio) > u128::MAX
                    || st.next_undelegation_batch_id == u64::MAX
                    || st.unbonding_period + st.unbonding_buffer > u64::MAX
                    || withdrawal_nanos(now, st) > u64::MAX
                    || st.total_shares.atomics < shares.atomics {
                    Err(ContractError::Overflow {})
                } else {
                    let amount = (spec_div(shares, ratio) / (DECIMAL_FRACTIONAL as int)) as u128;
                    let batch = BatchUndelegationRecord {
                        amount,
                        shares,
                        unbonding_slashing_ratio: Decimal { atomics: DECIMAL_FRACTIONAL },
                        undelegation_s_t_ratio: ratio,
                        create_time: Some(now),
                        est_release_time: Some(Timestamp { nanos: release_nanos(now, st) as u64 }),
                        withdrawal_time: Some(Timestamp { nanos: withdrawal_nanos(now, st) as u64 }),
                        undelegation_batch_status: UndelegationBatchStatus::InProgress,
                        released: false,
                    };
                    Ok((StoreView {
                        strategies: s.strategies.insert(id, StrategyInfoView {
                            next_undelegation_batch_id: (st.next_undelegation_batch_id + 1) as u64,
                            total_shares: Decimal { atomics: (st.total_shares.atomics - shares.atomics) as u128 },
                            current_undelegated_shares: Decimal { atomics: 0 },
                            ..st
                        }),
                        batches: s.batches.insert((id, st.next_undelegation_batch_id), batch),
                        ..s
                    }, UndelegationLog {
                        messages: log.messages.push(ContractMsg::SicUndelegateRewards {
                            sic_contract_address: st.sic_contract_address,
                            amount,
                        }),
                        ..log
                    }))
                }
            }
        }
    }
}

/// The strategies of `ids` undelegated one after the other.
pub open spec fn undelegation_run(
    s: StoreView,
    log: UndelegationLog,
    ids: Seq<u64>,
    tokens: Map<u64, Option<u128>>,
    now: Timestamp,
) -> Result<(StoreView, UndelegationLog), ContractError>
    decreases ids.len(),
{
    if ids.len() == 0 {
        Ok((s, log))
    } else {
        match undelegation_step(s, log, ids[0], tokens, now) {
            Err(e) => Err(e),
            Ok((s1, log1)) => undelegation_run(s1, log1, ids.subrange(1, ids.len() as int), tokens, now),
        }
    }
}

/// The lists that undelegating builds.
pub struct UndelegationLists {
    pub failed_strategies: Vec<u64>,
    pub strategies_with_no_undelegations: Vec<u64>,
    pub failed_sics: Vec<u64>,
    pub messages: Vec<ContractMsg>,
}

impl View for UndelegationLists {
    type V = UndelegationLog;

    open spec fn view(&self) -> UndelegationLog {
        UndelegationLog {
            failed_strategies: self.failed_strategies@,
            strategies_with_no_undelegations: self.strategies_with_no_undelegations@,
            failed_sics: self.failed_sics@,
            messages: self.messages@,
        }
    }
}

impl Store {
    /// One step of `try_undelegate_from_strategies`.
    fn undelegate_from_strategy(
        &mut self,
        id: u64,
        answers: &SicAnswers,
        env: &Env,
        lists: &mut UndelegationLists,
    ) -> (r: Result<(), ContractError>)
        requires
            old(self).wf(),
        ensures
            match undelegation_step(old(self)@, old(lists)@, id, answers.total_tokens@, env.block_time) {
                Ok((s1, log1)) => r is Ok && final(self)@ == s1 && final(lists)@ == log1 && final(self).wf(),
                Err(e) => r == Err::<(), ContractError>(e),
            },
    {
        let ghost s = self@;
        let mut strategy_info = match self.strategy(id) {
            Some(st) => st.clone(),
            None => {
                lists.failed_strategies.push(id);
                return Ok(());
            },
        };
        let ghost st = strategy_info@;
        let shares = strategy_info.current_undelegated_shares;
        if shares.is_zero() {
            lists.strategies_with_no_undelegations.push(id);
            return Ok(());
        }
        let ratio = match get_strategy_shares_per_token_ratio(answers.total_tokens_of(id), &strategy_info) {
            Ok(ratio) => ratio,
            Err(ContractError::SICFailedToReturnResult {}) => {
                lists.failed_sics.push(id);
                return Ok(());
            },
            Err(e) => return Err(e),
        };
        if ratio.is_zero() {
            return Err(ContractError::Overflow {});
        }
        let amount = match checked_decimal_division(shares, ratio) {
            Some(d) => uint128_from_decimal(d),
            None => return Err(ContractError::Overflow {}),
        };
        let batch_id = strategy_info.next_undelegation_batch_id;
        if batch_id == u64::MAX {
            return Err(ContractError::Overflow {});
        }
        let unbonding_seconds = match strategy_info.unbonding_period.checked_add(strategy_info.unbonding_buffer) {
            Some(v) => v,
            None => return Err(ContractError::Overflow {}),
        };
        let withdrawal_time = match env.block_time.checked_plus_seconds(unbonding_seconds) {
            Some(t) => t,
            None => return Err(ContractError::Overflow {}),
        };
        // the period alone is within range when the period and the buffer are
        let release_time = env.block_time.plus_seconds(strategy_info.unbonding_period);
        if strategy_info.total_shares.atomics < shares.atomics {
            return Err(ContractError::Overflow {});
        }
        self.put_batch(id, batch_id, BatchUndelegationRecord {
            amount,
            shares,
            // known once the funds are fetched back from the SIC
            unbonding_slashing_ratio: Decimal::one(),
            // the shares-per-token ratio at the time of the undelegation
            undelegation_s_t_ratio: ratio,
            create_time: Some(env.block_time),
            est_release_time: Some(release_time),
            // users can withdraw once the buffer has passed too
            withdrawal_time: Some(withdrawal_time),
            undelegation_batch_status: UndelegationBatchStatus::InProgress,
            released: false,
        });
        strategy_info.next_undelegation_batch_id = batch_id + 1;
        strategy_info.total_shares = decimal_subtraction_in_256(strategy_info.total_shares, shares);
        strategy_info.current_undelegated_shares = Decimal::zero();
        lists.messages.push(ContractMsg::SicUndelegateRewards {
            sic_contract_address: strategy_info.sic_contract_address.clone(),
            amount,
        });
        let ghost new_st = strategy_info@;
        self.put_strategy(id, strategy_info);
        proof {
            assert(self.strategy_views() =~= s.strategies.insert(id, new_st));
            assert forall|k: u64| #[trigger] self.strategy_views().contains_key(k) implies self.strategy_views()[k].wf() by {
                if k != id {
                    assert(s.strategies.contains_key(k));
                } else {
                    assert(s.strategies.contains_key(id));
                }
            }
        }
        Ok(())
    }

    /// The manager undelegates from their SICs the shares queued in each strategy of the list,
    /// one strategy after the other; see `undelegation_step`. The response carries one
    /// undelegation message for each new batch, and lists the strategies that were not found,
    /// that had nothing queued and whose SIC did not answer.
    pub fn try_undelegate_from_strategies(
        &mut self,
        env: &Env,
        sender: &String,
        strategies: Vec<u64>,
        answers: &SicAnswers,
    ) -> (r: Result<Response, ContractError>)
        requires
            old(self).wf(),
        ensures
            r is Err ==> final(self)@ == old(self)@,
            !old(self)@.is_manager(*sender) ==> r == Err::<Response, ContractError>(ContractError::Unauthorized {}),
            old(self)@.is_manager(*sender) && strategies@.len() == 0 ==> (r matches Ok(resp)
                && final(self)@ == old(self)@ && resp.messages@.len() == 0 && resp.attributes@.len() == 1
                && is_text_attr(resp.attributes@[0], "no_strategies"@, "1"@)),
            old(self)@.is_manager(*sender) && strategies@.len() > 0 ==>
                match undelegation_run(old(self)@, empty_undelegation_log(), strategies@, answers.total_tokens@, env.block_time) {
                    Err(e) => r == Err::<Response, ContractError>(e),
                    Ok((s1, log)) => r matches Ok(resp) && {
                        &&& final(self)@ == s1
                        &&& final(self).wf()
                        &&& resp.messages@ == log.messages
                        &&& resp.attributes@.len() == 3
                        &&& is_ids_attr(resp.attributes@[0], "failed_strategies"@, log.failed_strategies)
                        &&& is_ids_attr(resp.attributes@[1], "strategies_with_no_undelegations"@, log.strategies_with_no_undelegations)
                        &&& is_ids_attr(resp.attributes@[2], "failed_sics"@, log.failed_sics)
                    },
                },
    {
        let ghost s0 = self@;
        if *sender != self.state.manager {
            return Err(ContractError::Unauthorized {});
        }
        if strategies.len() == 0 {
            let mut resp = Response::new();
            resp.attributes.push(attr("no_strategies", String::from_str("1")));
            return Ok(resp);
        }
        let saved = self.snapshot();
        let mut lists = UndelegationLists {
            failed_strategies: Vec::new(),
            strategies_with_no_undelegations: Vec::new(),
            failed_sics: Vec::new(),
            messages: Vec::new(),
        };
        let ghost ids = strategies@;
        proof {
            assert(lists@ == empty_undelegation_log());
            assert(ids.subrange(0, ids.len() as int) =~= ids);
        }
        let mut i: usize = 0;
        while i < strategies.len()
            invariant
                i <= ids.len(),
                ids == strategies@,
                s0 == old(self)@,
                saved@ == s0,
                saved.wf(),
                s0.is_manager(*sender),
                self.wf(),
                undelegation_run(s0, empty_undelegation_log(), ids, answers.total_tokens@, env.block_time)
                    == undelegation_run(self@, lists@, ids.subrange(i as int, ids.len() as int), answers.total_tokens@, env.block_time),
            decreases ids.len() - i,
        {
            let id = strategies[i];
            proof {
                let rest = ids.subrange(i as int, ids.len() as int);
                assert(rest[0] == id);
                assert(rest.subrange(1, rest.len() as int) =~= ids.subrange(i + 1, ids.len() as int));
            }
            match self.undelegate_from_strategy(id, answers, env, &mut lists) {
                Ok(()) => {},
                Err(e) => return self.refuse(saved, e),
            }
            i = i + 1;
        }
        proof {
            assert(ids.subrange(i as int, ids.len() as int).len() == 0);
        }
        let mut resp = Response::new();
        resp.attributes.push(attr_ids("failed_strategies", lists.failed_strategies));
        resp.attributes.push(attr_ids("strategies_with_no_undelegations", lists.strategies_with_no_undelegations));
        resp.attributes.push(attr_ids("failed_sics", lists.failed_sics));
        resp.messages = lists.messages;
        Ok(resp)
    }
}

/// What taking back undelegated funds from a list of strategies reports, with the total of the
/// funds that the SICs give back.
pub struct ReconciliationLog {
    pub failed_strategies: Seq<u64>,
    pub failed_undelegation_batches: Seq<(u64, u64)>,
    pub batches_in_unbonding_period: Seq<(u64, u64)>,
    pub batches_slashing_checked: Seq<(u64, u64)>,
    pub messages: Seq<ContractMsg>,
    pub total_funds: int,
}

pub open spec fn empty_reconciliation_log() -> ReconciliationLog {
    ReconciliationLog {
        failed_strategies: Seq::empty(),
        failed_undelegation_batches: Seq::empty(),
        batches_in_unbonding_period: Seq::empty(),
        batches_slashing_checked: Seq::empty(),
        messages: Seq::empty(),
        total_funds: 0,
    }
}

/// The share of a batch of `amount` that survived unbonding when the SIC can give back
/// `fulfillable` of it: `fulfillable / amount`, and at most one.
pub open spec fn unbonding_slashing_ratio(fulfillable: u128, amount: u128) -> Decimal {
    if fulfillable < amount {
        Decimal { atomics: spec_ratio(fulfillable as int, amount as int) as u128 }
    } else {
        Decimal { atomics: DECIMAL_FRACTIONAL }
    }
}

/// The batches `i..end` of strategy `id` (with SIC `sic`) reconciled in order: a missing batch
/// and a batch already released are logged and passed; the walk stops at the first batch still
/// in its unbonding period; any other batch is released with the slashing ratio of what its SIC
/// can give back (`fulfillable`; `Err(SICFailedToReturnResult)` where that query failed), and a
/// message asks the SIC to send the batch's funds. The result holds the position reached.
pub open spec fn reconciliation_walk(
    s: StoreView,
    log: ReconciliationLog,
    id: u64,
    sic: String,
    i: u64,
    end: u64,
    fulfillable: Map<(u64, u64), u128>,
    now: Timestamp,
) -> Result<(StoreView, u64, ReconciliationLog), ContractError>
    decreases end - i,
{
    if i >= end {
        Ok((s, i, log))
    } else if !s.batches.contains_key((id, i)) {
        reconciliation_walk(s, ReconciliationLog {
            failed_undelegation_batches: log.failed_undelegation_batches.push((id, i)),
            ..log
        }, id, sic, (i + 1) as u64, end, fulfillable, now)
    } else {
        let b = s.batches[(id, i)];
        if b.released {
            reconciliation_walk(s, ReconciliationLog {
                batches_slashing_checked: log.batches_slashing_checked.push((id, i)),
                ..log
            }, id, sic, (i + 1) as u64, end, fulfillable, now)
        } else if release_pending(b, now) {
            Ok((s, i, ReconciliationLog { batches_in_unbonding_period: log.batches_in_unbonding_period.push((id, i)), ..log }))
        } else if !fulfillable.contains_key((id, i)) {
            Err(ContractError::SICFailedToReturnResult {})
        } else {
            let f = fulfillable[(id, i)];
            if log.total_funds + f > u128::MAX {
                Err(ContractError::Overflow {})
            } else {
                let released = BatchUndelegationRecord {
                    unbonding_slashing_ratio: unbonding_slashing_ratio(f, b.amount),
                    undelegation_batch_status: UndelegationBatchStatus::Done,
                    released: true,
                    ..b
                };
                reconciliation_walk(StoreView { batches: s.batches.insert((id, i), released), ..s }, ReconciliationLog {
                    messages: log.messages.push(ContractMsg::SicTransferUndelegatedRewards { sic_contract_address: sic, amount: b.amount }),
                    total_funds: log.total_funds + f,
                    ..log
                }, id, sic, (i + 1) as u64, end, fulfillable, now)
            }
        }
    }
}

/// Reconciling the batches of strategy `id` from its reconciliation pointer to its next batch,
/// and moving the pointer to where the walk stopped; a missing strategy is logged and skipped.
pub open spec fn reconciliation_step(
    s: StoreView,
    log: ReconciliationLog,
    id: u64,
    fulfillable: Map<(u64, u64), u128>,
    now: Timestamp,
) -> Result<(StoreView, ReconciliationLog), ContractError> {
    if !s.strategies.contains_key(id) {
        Ok((s, ReconciliationLog { failed_strategies: log.failed_strategies.push(id), ..log }))
    } else {
        let st = s.strategies[id];
        match reconciliation_walk(s, log, id, st.sic_contract_address, st.next_reconciliation_batch_id,
            st.next_undelegation_batch_id, fulfillable, now) {
            Err(e) => Err(e),
            Ok((s1, p, log1)) => Ok((StoreView {
                strategies: s1.strategies.insert(id, StrategyInfoView { next_reconciliation_batch_id: p, ..st }),
                ..s1
            }, log1)),
        }
    }
}

/// The strategies of `ids` reconciled one after the other.
pub open spec fn reconciliation_run(
    s: StoreView,
    log: ReconciliationLog,
    ids: Seq<u64>,
    fulfillable: Map<(u64, u64), u128>,
    now: Timestamp,
) -> Result<(StoreView, ReconciliationLog), ContractError>
    decreases ids.len(),
{
    if ids.len() == 0 {
        Ok((s, log))
    } else {
        match reconciliation_step(s, log, ids[0], fulfillable, now) {
            Err(e) => Err(e),
            Ok((s1, log1)) => reconciliation_run(s1, log1, ids.subrange(1, ids.len() as int), fulfillable, now),
        }
    }
}

/// The lists that reconciling builds.
pub struct ReconciliationLists {
    pub failed_strategies: Vec<u64>,
    pub failed_undelegation_batches: Vec<(u64, u64)>,
    pub batches_in_unbonding_period: Vec<(u64, u64)>,
    pub batches_slashing_checked: Vec<(u64, u64)>,
    pub messages: Vec<ContractMsg>,
    pub total_funds: u128,
}

impl View for ReconciliationLists {
    type V = ReconciliationLog;

    open spec fn view(&self) -> ReconciliationLog {
        ReconciliationLog {
            failed_strategies: self.failed_strategies@,
            failed_undelegation_batches: self.failed_undelegation_batches@,
            batches_in_unbonding_period: self.batches_in_unbonding_period@,
            batches_slashing_checked: self.batches_slashing_checked@,
            messages: self.messages@,
            total_funds: self.total_funds as int,
        }
    }
}

impl Store {
    /// The walk of `reconciliation_walk`, from `from` to `end`.
    fn reconcile_batches(
        &mut self,
        id: u64,
        sic: &String,
        from: u64,
        end: u64,
        answers: &SicAnswers,
        env: &Env,
        lists: &mut ReconciliationLists,
    ) -> (r: Result<u64, ContractError>)
        requires
            old(self).wf(),
        ensures
            final(self).wf(),
            final(self).strategies == old(self).strategies,
            match reconciliation_walk(old(self)@, old(lists)@, id, *sic, from, end, answers.fulfillable@, env.block_time) {
                Ok((s1, p, log1)) => r == Ok::<u64, ContractError>(p) && final(self)@ == s1 && final(lists)@ == log1,
                Err(e) => r == Err::<u64, ContractError>(e),
            },
    {
        let ghost s0 = self@;
        let ghost log0 = lists@;
        let mut i = from;
        while i < end
            invariant
                s0 == old(self)@,
                log0 == old(lists)@,
                self.wf(),
                self.strategies == old(self).strategies,
                reconciliation_walk(s0, log0, id, *sic, from, end, answers.fulfillable@, env.block_time)
                    == reconciliation_walk(self@, lists@, id, *sic, i, end, answers.fulfillable@, env.block_time),
            decreases end - i,
        {
            match self.batch(id, i) {
                None => {
                    lists.failed_undelegation_batches.push((id, i));
                    i = i + 1;
                },
                Some(batch) => {
                    if batch.released {
                        // the batch was reconciled before
                        lists.batches_slashing_checked.push((id, i));
                        i = i + 1;
                    } else {
                        let mut unbonding = false;
                        match batch.est_release_time {
                            Some(t) => {
                                unbonding = t.nanos > env.block_time.nanos;
                            },
                            None => {},
                        }
                        if unbonding {
                            // wait for this batch, and for the ones after it
                            lists.batches_in_unbonding_period.push((id, i));
                            return Ok(i);
                        }
                        let fulfillable = match answers.fulfillable_of(id, i) {
                            Some(f) => f,
                            None => return Err(ContractError::SICFailedToReturnResult {}),
                        };
                        let total = match lists.total_funds.checked_add(fulfillable) {
                            Some(t) => t,
                            None => return Err(ContractError::Overflow {}),
                        };
                        let ratio = if fulfillable < batch.amount {
                            proof {
                                assert(spec_ratio(fulfillable as int, batch.amount as int) <= DECIMAL_FRACTIONAL) by (nonlinear_arith)
                                    requires
                                        fulfillable < batch.amount,
                                        spec_ratio(fulfillable as int, batch.amount as int)
                                            == fulfillable * DECIMAL_FRACTIONAL / (batch.amount as int),
                                        DECIMAL_FRACTIONAL > 0;
                            }
                            Decimal::from_ratio(fulfillable, batch.amount)
                        } else {
                            Decimal::one()
                        };
                        self.put_batch(id, i, BatchUndelegationRecord {
                            unbonding_slashing_ratio: ratio,
                            undelegation_batch_status: UndelegationBatchStatus::Done,
                            released: true,
                            ..batch
                        });
                        lists.total_funds = total;
                        lists.messages.push(ContractMsg::SicTransferUndelegatedRewards {
                            sic_contract_address: sic.clone(),
                            amount: batch.amount,
                        });
                        i = i + 1;
                    }
                },
            }
        }
        Ok(i)
    }

    /// One step of `try_fetch_undelegated_rewards_from_strategies`.
    fn fetch_from_strategy(
        &mut self,
        id: u64,
        answers: &SicAnswers,
        env: &Env,
        lists: &mut ReconciliationLists,
    ) -> (r: Result<(), ContractError>)
        requires
            old(self).wf(),
        ensures
            match reconciliation_step(old(self)@, old(lists)@, id, answers.fulfillable@, env.block_time) {
                Ok((s1, log1)) => r is Ok && final(self)@ == s1 && final(lists)@ == log1 && final(self).wf(),
                Err(e) => r == Err::<(), ContractError>(e),
            },
    {
        let ghost s = self@;
        let mut strategy_info = match self.strategy(id) {
            Some(st) => st.clone(),
            None => {
                lists.failed_strategies.push(id);
                return Ok(());
            },
        };
        let sic = strategy_info.sic_contract_address.clone();
        let pointer = match self.reconcile_batches(id, &sic, strategy_info.next_reconciliation_batch_id,
            strategy_info.next_undelegation_batch_id, answers, env, lists) {
            Ok(p) => p,
            Err(e) => return Err(e),
        };
        strategy_info.next_reconciliation_batch_id = pointer;
        let ghost new_st = strategy_info@;
        let ghost s1 = self@;
        self.put_strategy(id, strategy_info);
        proof {
            assert(s1.strategies == s.strategies);
            assert(self.strategy_views() =~= s1.strategies.insert(id, new_st));
            assert forall|k: u64| #[trigger] self.strategy_views().contains_key(k) implies self.strategy_views()[k].wf() by {
                if k != id {
                    assert(s.strategies.contains_key(k));
                } else {
                    assert(s.strategies.contains_key(id));
                }
            }
        }
        Ok(())
    }

    /// The manager takes back from their SICs the funds of the undelegation batches of each
    /// strategy of the list whose unbonding is over, one strategy after the other; see
    /// `reconciliation_step`. The response carries one transfer message for each batch
    /// released, and lists the strategies not found, the batches not found, the batch at which
    /// each strategy has to wait, and the batches that were released before.
    pub fn try_fetch_undelegated_rewards_from_strategies(
        &mut self,
        env: &Env,
        sender: &String,
        strategies: Vec<u64>,
        answers: &SicAnswers,
    ) -> (r: Result<Response, ContractError>)
        requires
            old(self).wf(),
        ensures
            r is Err ==> final(self)@ == old(self)@,
            !old(self)@.is_manager(*sender) ==> r == Err::<Response, ContractError>(ContractError::Unauthorized {}),
            old(self)@.is_manager(*sender) && strategies@.len() == 0 ==> (r matches Ok(resp)
                && final(self)@ == old(self)@ && resp.messages@.len() == 0 && resp.attributes@.len() == 1
                && is_text_attr(resp.attributes@[0], "no_strategies"@, "1"@)),
            old(self)@.is_manager(*sender) && strategies@.len() > 0 ==>
                match reconciliation_run(old(self)@, empty_reconciliation_log(), strategies@, answers.fulfillable@, env.block_time) {
                    Err(e) => r == Err::<Response, ContractError>(e),
                    Ok((s1, log)) => r matches Ok(resp) && {
                        &&& final(self)@ == s1
                        &&& final(self).wf()
                        &&& resp.messages@ == log.messages
                        &&& resp.attributes@.len() == 4
                        &&& is_ids_attr(resp.attributes@[0], "failed_strategies"@, log.failed_strategies)
                        &&& is_batches_attr(resp.attributes@[1], "failed_undelegation_batches"@, log.failed_undelegation_batches)
                        &&& is_batches_attr(resp.attributes@[2], "undelegation_batches_in_unbonding_period"@,
                            log.batches_in_unbonding_period)
                        &&& is_batches_attr(resp.attributes@[3], "undelegation_batches_slashing_checked"@,
                            log.batches_slashing_checked)
                    },
                },
    {
        let ghost s0 = self@;
        if *sender != self.state.manager {
            return Err(ContractError::Unauthorized {});
        }
        if strategies.len() == 0 {
            let mut resp = Response::new();
            resp.attributes.push(attr("no_strategies", String::from_str("1")));
            return Ok(resp);
        }
        let saved = self.snapshot();
        let mut lists = ReconciliationLists {
            failed_strategies: Vec::new(),
            failed_undelegation_batches: Vec::new(),
            batches_in_unbonding_period: Vec::new(),
            batches_slashing_checked: Vec::new(),
            messages: Vec::new(),
            total_funds: 0,
        };
        let ghost ids = strategies@;
        proof {
            assert(lists@ == empty_reconciliation_log());
            assert(ids.subrange(0, ids.len() as int) =~= ids);
        }
        let mut i: usize = 0;
        while i < strategies.len()
            invariant
                i <= ids.len(),
                ids == strategies@,
                s0 == old(self)@,
                saved@ == s0,
                saved.wf(),
                s0.is_manager(*sender),
                self.wf(),
                reconciliation_run(s0, empty_reconciliation_log(), ids, answers.fulfillable@, env.block_time)
                    == reconciliation_run(self@, lists@, ids.subrange(i as int, ids.len() as int), answers.fulfillable@, env.block_time),
            decreases ids.len() - i,
        {
            let id = strategies[i];
            proof {
                let rest = ids.subrange(i as int, ids.len() as int);
                assert(rest[0] == id);
                assert(rest.subrange(1, rest.len() as int) =~= ids.subrange(i + 1, ids.len() as int));
            }
            match self.fetch_from_strategy(id, answers, env, &mut lists) {
                Ok(()) => {},
                Err(e) => return self.refuse(saved, e),
            }
            i = i + 1;
        }
        proof {
            assert(ids.subrange(i as int, ids.len() as int).len() == 0);
        }
        let mut resp = Response::new();
        resp.messages = lists.messages;
        resp.attributes.push(attr_ids("failed_strategies", lists.failed_strategies));
        resp.attributes.push(attr_batches("failed_undelegation_batches", lists.failed_undelegation_batches));
        resp.attributes.push(attr_batches("undelegation_batches_in_unbonding_period", lists.batches_in_unbonding_period));
        resp.attributes.push(attr_batches("undelegation_batches_slashing_checked", lists.batches_slashing_checked));
        Ok(resp)
    }
}

} // verus!
