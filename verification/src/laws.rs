//! Properties that hold across the contract's operations.

use vstd::prelude::*;
use crate::allocation::{transferred, withdrawn, transferable};
use crate::airdrops::airdrop_per_share;
use crate::coins::{apply_op, coin_amount, coin_entries, entry_amount, lemma_coin_entries_concat,
    lemma_entry_amount_concat, merged, Coin, Operation};
use crate::helpers::{expected_strategy, spec_fallback, strategy_split};
use crate::math::{spec_div, spec_mul, spec_ratio, Decimal, Timestamp, DECIMAL_FRACTIONAL};
use crate::queries::listed_ids;
use crate::rewards::{effective_amount, has_record, record_index, record_matches, undelegation_outcome, withdrawable_amount, withdrawal_outcome};
use crate::queries::{entry_query_matches, strategy_query_matches};
use crate::msg::{StrategyInfoQuery, UserStrategyQueryInfo};
use crate::state::{BatchUndelegationRecord, ConfigView, Cw20TokenContractsInfo, StrategyInfoView, UserRewardInfoView,
    UserStrategyInfoView, UserUndelegationRecord};
use crate::store::StoreView;
use crate::helpers::{reported_tokens, shares_per_token_ratio};
use crate::msg::ContractMsg;
use crate::unbonding::{reconciliation_run, reconciliation_step, reconciliation_walk, release_pending, unbonding_slashing_ratio, undelegation_run,
    undelegation_step, ReconciliationLog, UndelegationLog};

verus! {

/// A deactivated strategy takes no deposits: they go to the fallback; an activated one takes
/// them itself.
pub proof fn law_deactivated_strategy_falls_back(s: StoreView, id: u64, fallback: u64)
    requires
        s.strategies.contains_key(id),
    ensures
        expected_strategy(s.with_strategy(id, StrategyInfoView { is_active: false, ..s.strategies[id] }).strategies, id, fallback)
            == fallback,
        expected_strategy(s.with_strategy(id, StrategyInfoView { is_active: true, ..s.strategies[id] }).strategies, id, fallback)
            == id,
{
}

/// Deactivating an active strategy and activating it again leaves the store as it was.
pub proof fn law_deactivate_then_activate(s: StoreView, id: u64)
    requires
        s.strategies.contains_key(id),
        s.strategies[id].is_active,
    ensures
        ({
            let d = s.with_strategy(id, StrategyInfoView { is_active: false, ..s.strategies[id] });
            d.with_strategy(id, StrategyInfoView { is_active: true, ..d.strategies[id] }) == s
        }),
{
    let d = s.with_strategy(id, StrategyInfoView { is_active: false, ..s.strategies[id] });
    let a = d.with_strategy(id, StrategyInfoView { is_active: true, ..d.strategies[id] });
    assert(a.strategies =~= s.strategies);
}

/// When the configured fallback strategy is missing or inactive, deposits fall back to the
/// retain-rewards strategy 0: it takes what a portfolio leaves, and all of a deposit of a user
/// without a portfolio.
pub proof fn law_inactive_fallback_retains(
    strategies: Map<u64, StrategyInfoView>,
    config: ConfigView,
    user: UserRewardInfoView,
    amount: u128,
)
    requires
        !(strategies.contains_key(config.fallback_strategy) && strategies[config.fallback_strategy].is_active),
    ensures
        spec_fallback(strategies, config) == 0,
        user.user_portfolio.len() == 0 ==> strategy_split(strategies, config, None, user, amount) == map![0u64 => amount],
{
    if user.user_portfolio.len() == 0 {
        assert(strategy_split(strategies, config, None, user, amount) =~= map![0u64 => amount]);
    }
}

/// Funds added to a coin vector and then taken away again leave every amount as it was.
pub proof fn law_merge_add_then_sub(
    coins: Seq<(Seq<char>, int)>,
    fund: Seq<(Seq<char>, int)>,
    added: Seq<(Seq<char>, int)>,
    restored: Seq<(Seq<char>, int)>,
)
    requires
        merged(added, coins, fund, Operation::Add),
        merged(restored, added, fund, Operation::Sub),
    ensures
        forall|d: Seq<char>| #[trigger] entry_amount(restored, d) == entry_amount(coins, d),
{
    assert forall|d: Seq<char>| #[trigger] entry_amount(restored, d) == entry_amount(coins, d) by {
        assert(entry_amount(added, d) == apply_op(entry_amount(coins, d), entry_amount(fund, d), Operation::Add));
        assert(entry_amount(restored, d) == apply_op(entry_amount(added, d), entry_amount(fund, d), Operation::Sub));
    }
}

/// Undelegating a strategy's queued shares moves them out of the strategy into a new batch:
/// the strategy's total shares fall by exactly the batch's shares, nothing stays queued, the
/// batch is worth its shares at the ratio the SIC's answer gives, and the strategy's SIC is asked
/// to undelegate exactly that worth.
pub proof fn law_undelegation_moves_queued_shares(
    s: StoreView,
    log: UndelegationLog,
    id: u64,
    tokens: Map<u64, Option<u128>>,
    now: Timestamp,
)
    requires
        s.strategies.contains_key(id),
        s.strategies[id].current_undelegated_shares.atomics > 0,
        undelegation_step(s, log, id, tokens, now) is Ok,
        tokens.contains_key(id),
    ensures
        ({
            let st = s.strategies[id];
            let (s1, log1) = undelegation_step(s, log, id, tokens, now)->Ok_0;
            let batch = s1.batches[(id, st.next_undelegation_batch_id)];
            &&& s1.strategies[id].total_shares.atomics + batch.shares.atomics == st.total_shares.atomics
            &&& batch.undelegation_s_t_ratio == shares_per_token_ratio(reported_tokens(tokens[id]), st.total_shares)
            &&& batch.create_time == Some(now)
            &&& batch.est_release_time == Some(Timestamp { nanos: (now.nanos + st.unbonding_period * 1_000_000_000) as u64 })
            &&& batch.withdrawal_time == Some(Timestamp {
                nanos: (now.nanos + (st.unbonding_period + st.unbonding_buffer) * 1_000_000_000) as u64,
            })
            &&& now.nanos + (st.unbonding_period + st.unbonding_buffer) * 1_000_000_000 <= u64::MAX
            &&& log1.messages == log.messages.push(ContractMsg::SicUndelegateRewards {
                sic_contract_address: st.sic_contract_address,
                amount: batch.amount,
            })
            &&& s1.strategies[id].current_undelegated_shares.atomics == 0
            &&& batch.shares == st.current_undelegated_shares
            &&& batch.amount == spec_div(batch.shares, batch.undelegation_s_t_ratio) / (DECIMAL_FRACTIONAL as int)
            &&& !batch.released
            &&& s1.strategies[id].next_undelegation_batch_id == st.next_undelegation_batch_id + 1
        }),
{
}

/// A strategy that does not exist, or has no shares queued, is only logged: undelegating it
/// changes no record and sends no message.
pub proof fn law_undelegation_skips_empty(
    s: StoreView,
    log: UndelegationLog,
    id: u64,
    tokens: Map<u64, Option<u128>>,
    now: Timestamp,
)
    requires
        !s.strategies.contains_key(id) || s.strategies[id].current_undelegated_shares.atomics == 0,
    ensures
        undelegation_step(s, log, id, tokens, now) is Ok,
        undelegation_step(s, log, id, tokens, now)->Ok_0.0 == s,
        undelegation_step(s, log, id, tokens, now)->Ok_0.1.messages == log.messages,
        !s.strategies.contains_key(id) ==> undelegation_step(s, log, id, tokens, now)->Ok_0.1.failed_strategies
            == log.failed_strategies.push(id),
        s.strategies.contains_key(id) ==> undelegation_step(s, log, id, tokens, now)->Ok_0.1.strategies_with_no_undelegations
            == log.strategies_with_no_undelegations.push(id),
{
}

/// What undelegating strategy `id` leaves, in the records `s1` and the log `log1` that a run
/// ends with, against the records `s` it started from. A missing strategy is listed among the
/// failed strategies; one with nothing queued among those with no undelegations; one whose SIC
/// did not answer among the failed SICs; these three are left as they were. Otherwise its
/// queued shares `c` became batch `n` (its next batch id) at the ratio `ρ` that its SIC's answer
/// gives, worth `c / ρ`, not released, expected back from the SIC after the strategy's unbonding
/// period and withdrawable after that period and its buffer; its SIC is asked to undelegate that
/// worth; and the
/// strategy has `c` fewer shares, none queued, and `n + 1` as next batch id.
pub open spec fn strategy_undelegated(
    s: StoreView,
    s1: StoreView,
    log1: UndelegationLog,
    id: u64,
    tokens: Map<u64, Option<u128>>,
    now: Timestamp,
) -> bool {
    if !s.strategies.contains_key(id) {
        log1.failed_strategies.contains(id) && !s1.strategies.contains_key(id)
    } else {
        let st = s.strategies[id];
        let c = st.current_undelegated_shares;
        if c.atomics == 0 {
            log1.strategies_with_no_undelegations.contains(id) && s1.strategies.contains_key(id) && s1.strategies[id] == st
        } else if !tokens.contains_key(id) {
            log1.failed_sics.contains(id) && s1.strategies.contains_key(id) && s1.strategies[id] == st
        } else {
            let ratio = shares_per_token_ratio(reported_tokens(tokens[id]), st.total_shares);
            let n = st.next_undelegation_batch_id;
            let amount = (spec_div(c, ratio) / (DECIMAL_FRACTIONAL as int)) as u128;
            &&& s1.strategies.contains_key(id)
            &&& s1.strategies[id] == (StrategyInfoView {
                next_undelegation_batch_id: (n + 1) as u64,
                total_shares: Decimal { atomics: (st.total_shares.atomics - c.atomics) as u128 },
                current_undelegated_shares: Decimal { atomics: 0 },
                ..st
            })
            &&& s1.batches.contains_key((id, n))
            &&& s1.batches[(id, n)].shares == c
            &&& s1.batches[(id, n)].undelegation_s_t_ratio == ratio
            &&& s1.batches[(id, n)].amount == amount
            &&& !s1.batches[(id, n)].released
            &&& s1.batches[(id, n)].est_release_time == Some(Timestamp { nanos: (now.nanos + st.unbonding_period * 1_000_000_000) as u64 })
            &&& s1.batches[(id, n)].withdrawal_time == Some(Timestamp {
                nanos: (now.nanos + (st.unbonding_period + st.unbonding_buffer) * 1_000_000_000) as u64,
            })
            &&& log1.messages.contains(ContractMsg::SicUndelegateRewards { sic_contract_address: st.sic_contract_address, amount })
        }
    }
}

/// Everything that `log` lists, `log1` lists too.
pub open spec fn undelegation_log_grows(log: UndelegationLog, log1: UndelegationLog) -> bool {
    &&& forall|x: u64| log.failed_strategies.contains(x) ==> #[trigger] log1.failed_strategies.contains(x)
    &&& forall|x: u64| log.strategies_with_no_undelegations.contains(x) ==> #[trigger] log1.strategies_with_no_undelegations.contains(x)
    &&& forall|x: u64| log.failed_sics.contains(x) ==> #[trigger] log1.failed_sics.contains(x)
    &&& forall|m: ContractMsg| log.messages.contains(m) ==> #[trigger] log1.messages.contains(m)
}

proof fn lemma_push_contains<A>(q: Seq<A>, x: A, y: A)
    requires
        q.contains(y),
    ensures
        q.push(x).contains(y),
{
    let i = choose|i: int| 0 <= i < q.len() && q[i] == y;
    assert(q.push(x)[i] == y);
}

proof fn lemma_step_log_grows(s: StoreView, log: UndelegationLog, id: u64, tokens: Map<u64, Option<u128>>, now: Timestamp)
    requires
        undelegation_step(s, log, id, tokens, now) is Ok,
    ensures
        undelegation_log_grows(log, undelegation_step(s, log, id, tokens, now)->Ok_0.1),
{
    let log1 = undelegation_step(s, log, id, tokens, now)->Ok_0.1;
    assert forall|x: u64| log.failed_strategies.contains(x) implies #[trigger] log1.failed_strategies.contains(x) by {
        if log1.failed_strategies != log.failed_strategies {
            lemma_push_contains(log.failed_strategies, id, x);
        }
    }
    assert forall|x: u64| log.strategies_with_no_undelegations.contains(x) implies
        #[trigger] log1.strategies_with_no_undelegations.contains(x) by {
        if log1.strategies_with_no_undelegations != log.strategies_with_no_undelegations {
            lemma_push_contains(log.strategies_with_no_undelegations, id, x);
        }
    }
    assert forall|x: u64| log.failed_sics.contains(x) implies #[trigger] log1.failed_sics.contains(x) by {
        if log1.failed_sics != log.failed_sics {
            lemma_push_contains(log.failed_sics, id, x);
        }
    }
    assert forall|m: ContractMsg| log.messages.contains(m) implies #[trigger] log1.messages.contains(m) by {
        if log1.messages != log.messages {
            lemma_push_contains(log.messages, log1.messages.last(), m);
            assert(log1.messages == log.messages.push(log1.messages.last()));
        }
    }
}

/// Undelegating from a list of strategies in which none repeats: every strategy of the list
/// ends as `strategy_undelegated` says, and the strategies not in the list, with their batches,
/// are left as they were.
#[verifier::spinoff_prover]
pub proof fn law_undelegation_run_outcome(
    s: StoreView,
    log: UndelegationLog,
    ids: Seq<u64>,
    tokens: Map<u64, Option<u128>>,
    now: Timestamp,
)
    requires
        ids.no_duplicates(),
        undelegation_run(s, log, ids, tokens, now) is Ok,
    ensures
        ({
            let (s1, log1) = undelegation_run(s, log, ids, tokens, now)->Ok_0;
            &&& forall|k: int| 0 <= k < ids.len() ==> strategy_undelegated(s, s1, log1, #[trigger] ids[k], tokens, now)
            &&& forall|id: u64| !ids.contains(id) ==> (#[trigger] s1.strategies.contains_key(id) <==> s.strategies.contains_key(id))
                && (s.strategies.contains_key(id) ==> s1.strategies[id] == s.strategies[id])
            &&& forall|id: u64, b: u64| !ids.contains(id) ==> (#[trigger] s1.batches.contains_key((id, b)) <==> s.batches.contains_key((id, b)))
                && (s.batches.contains_key((id, b)) ==> s1.batches[(id, b)] == s.batches[(id, b)])
            &&& undelegation_log_grows(log, log1)
        }),
    decreases ids.len(),
{
    if ids.len() > 0 {
        let id0 = ids[0];
        let rest = ids.subrange(1, ids.len() as int);
        let (s2, log2) = undelegation_step(s, log, id0, tokens, now)->Ok_0;
        assert(rest.no_duplicates()) by {
            assert forall|a: int, b: int| 0 <= a < rest.len() && 0 <= b < rest.len() && a != b implies rest[a] != rest[b] by {
                assert(ids[a + 1] != ids[b + 1]);
            }
        }
        assert(!rest.contains(id0)) by {
            if rest.contains(id0) {
                let i = choose|i: int| 0 <= i < rest.len() && rest[i] == id0;
                assert(ids[i + 1] == ids[0]);
            }
        }
        law_undelegation_run_outcome(s2, log2, rest, tokens, now);
        lemma_step_log_grows(s, log, id0, tokens, now);
        let (s1, log1) = undelegation_run(s, log, ids, tokens, now)->Ok_0;
        assert(undelegation_run(s2, log2, rest, tokens, now)->Ok_0 == (s1, log1));
        // the first strategy: as its step left it, and untouched by the rest
        assert(strategy_undelegated(s, s2, log2, id0, tokens, now)) by {
            if s.strategies.contains_key(id0) {
                let st = s.strategies[id0];
                if st.current_undelegated_shares.atomics == 0 {
                    assert(log2.strategies_with_no_undelegations[log.strategies_with_no_undelegations.len() as int] == id0);
                } else if !tokens.contains_key(id0) {
                    assert(log2.failed_sics[log.failed_sics.len() as int] == id0);
                } else {
                    assert(log2.messages[log.messages.len() as int] == log2.messages.last());
                }
            } else {
                assert(log2.failed_strategies[log.failed_strategies.len() as int] == id0);
            }
        }
        assert(strategy_undelegated(s, s1, log1, id0, tokens, now)) by {
            assert(s1.strategies.contains_key(id0) <==> s2.strategies.contains_key(id0));
            if s2.strategies.contains_key(id0) {
                assert(s1.strategies[id0] == s2.strategies[id0]);
            }
            assert(log2.failed_strategies.contains(id0) ==> log1.failed_strategies.contains(id0));
            assert(log2.strategies_with_no_undelegations.contains(id0) ==> log1.strategies_with_no_undelegations.contains(id0));
            assert(log2.failed_sics.contains(id0) ==> log1.failed_sics.contains(id0));
            if s.strategies.contains_key(id0) {
                let st = s.strategies[id0];
                if st.current_undelegated_shares.atomics != 0 && tokens.contains_key(id0) {
                    let n = st.next_undelegation_batch_id;
                    let ratio = shares_per_token_ratio(reported_tokens(tokens[id0]), st.total_shares);
                    let amount = (spec_div(st.current_undelegated_shares, ratio) / (DECIMAL_FRACTIONAL as int)) as u128;
                    let m = ContractMsg::SicUndelegateRewards { sic_contract_address: st.sic_contract_address, amount };
                    assert(s2.batches.contains_key((id0, n)));
                    assert(s1.batches.contains_key((id0, n)) <==> s2.batches.contains_key((id0, n)));
                    assert(s1.batches[(id0, n)] == s2.batches[(id0, n)]);
                    assert(log2.messages.contains(m));
                    assert(log1.messages.contains(m));
                }
            }
        }
        assert forall|k: int| 0 <= k < ids.len() implies strategy_undelegated(s, s1, log1, #[trigger] ids[k], tokens, now) by {
            if k > 0 {
                let id = ids[k];
                assert(rest[k - 1] == id);
                assert(id != id0) by {
                    assert(ids[k] != ids[0]);
                }
                assert(s2.strategies.contains_key(id) == s.strategies.contains_key(id));
                if s.strategies.contains_key(id) {
                    assert(s2.strategies[id] == s.strategies[id]);
                }
            }
        }
        assert forall|id: u64| !ids.contains(id) implies (#[trigger] s1.strategies.contains_key(id) <==> s.strategies.contains_key(id))
            && (s.strategies.contains_key(id) ==> s1.strategies[id] == s.strategies[id]) by {
            assert(id != id0) by {
                if id == id0 {
                    assert(ids[0] == id);
                }
            }
            assert(!rest.contains(id)) by {
                if rest.contains(id) {
                    let i = choose|i: int| 0 <= i < rest.len() && rest[i] == id;
                    assert(ids[i + 1] == id);
                }
            }
        }
        assert forall|id: u64, b: u64| !ids.contains(id) implies (#[trigger] s1.batches.contains_key((id, b)) <==> s.batches.contains_key((id, b)))
            && (s.batches.contains_key((id, b)) ==> s1.batches[(id, b)] == s.batches[(id, b)]) by {
            assert(id != id0) by {
                if id == id0 {
                    assert(ids[0] == id);
                }
            }
            assert(!rest.contains(id)) by {
                if rest.contains(id) {
                    let i = choose|i: int| 0 <= i < rest.len() && rest[i] == id;
                    assert(ids[i + 1] == id);
                }
            }
        }
    }
}

/// What reconciling batch `b` of strategy `id` (with SIC `sic`) leaves, in the records `s1` and
/// the log `log1` a walk ends with, against the records `s` it started from: a missing batch is
/// listed as failed; a batch released before is left as it was and listed as checked; any other
/// batch is released with the share that survived unbonding, `min(1, fulfillable / amount)`,
/// and its SIC is asked to send back its amount.
pub open spec fn batch_reconciled(
    s: StoreView,
    s1: StoreView,
    log1: ReconciliationLog,
    id: u64,
    sic: String,
    b: u64,
    fulfillable: Map<(u64, u64), u128>,
) -> bool {
    if !s.batches.contains_key((id, b)) {
        !s1.batches.contains_key((id, b)) && log1.failed_undelegation_batches.contains((id, b))
    } else {
        let bt = s.batches[(id, b)];
        if bt.released {
            s1.batches.contains_key((id, b)) && s1.batches[(id, b)] == bt && log1.batches_slashing_checked.contains((id, b))
        } else {
            &&& s1.batches.contains_key((id, b))
            &&& s1.batches[(id, b)] == (BatchUndelegationRecord {
                unbonding_slashing_ratio: unbonding_slashing_ratio(fulfillable[(id, b)], bt.amount),
                undelegation_batch_status: crate::state::UndelegationBatchStatus::Done,
                released: true,
                ..bt
            })
            &&& log1.messages.contains(ContractMsg::SicTransferUndelegatedRewards { sic_contract_address: sic, amount: bt.amount })
        }
    }
}

/// Where the walk over strategy `id`'s batches stopped short of the end, at `p`: a batch that is
/// not released and still in its unbonding period, left as it was and listed as such.
pub open spec fn walk_stopped_at(s: StoreView, s1: StoreView, log1: ReconciliationLog, id: u64, p: u64, now: Timestamp) -> bool {
    &&& s.batches.contains_key((id, p))
    &&& s1.batches.contains_key((id, p))
    &&& s1.batches[(id, p)] == s.batches[(id, p)]
    &&& !s.batches[(id, p)].released
    &&& release_pending(s.batches[(id, p)], now)
    &&& log1.batches_in_unbonding_period.contains((id, p))
}

/// Everything that `log` lists, `log1` lists too.
pub open spec fn reconciliation_log_grows(log: ReconciliationLog, log1: ReconciliationLog) -> bool {
    &&& forall|x: u64| log.failed_strategies.contains(x) ==> #[trigger] log1.failed_strategies.contains(x)
    &&& forall|x: (u64, u64)| log.failed_undelegation_batches.contains(x) ==> #[trigger] log1.failed_undelegation_batches.contains(x)
    &&& forall|x: (u64, u64)| log.batches_in_unbonding_period.contains(x) ==> #[trigger] log1.batches_in_unbonding_period.contains(x)
    &&& forall|x: (u64, u64)| log.batches_slashing_checked.contains(x) ==> #[trigger] log1.batches_slashing_checked.contains(x)
    &&& forall|m: ContractMsg| log.messages.contains(m) ==> #[trigger] log1.messages.contains(m)
}

proof fn lemma_reconciliation_log_grows_trans(a: ReconciliationLog, b: ReconciliationLog, c: ReconciliationLog)
    requires
        reconciliation_log_grows(a, b),
        reconciliation_log_grows(b, c),
    ensures
        reconciliation_log_grows(a, c),
{
    assert forall|x: u64| a.failed_strategies.contains(x) implies #[trigger] c.failed_strategies.contains(x) by {
        assert(b.failed_strategies.contains(x));
    }
    assert forall|x: (u64, u64)| a.failed_undelegation_batches.contains(x) implies #[trigger] c.failed_undelegation_batches.contains(x) by {
        assert(b.failed_undelegation_batches.contains(x));
    }
    assert forall|x: (u64, u64)| a.batches_in_unbonding_period.contains(x) implies #[trigger] c.batches_in_unbonding_period.contains(x) by {
        assert(b.batches_in_unbonding_period.contains(x));
    }
    assert forall|x: (u64, u64)| a.batches_slashing_checked.contains(x) implies #[trigger] c.batches_slashing_checked.contains(x) by {
        assert(b.batches_slashing_checked.contains(x));
    }
    assert forall|m: ContractMsg| a.messages.contains(m) implies #[trigger] c.messages.contains(m) by {
        assert(b.messages.contains(m));
    }
}

/// What reconciling the batches `i..end` of strategy `id` leaves (`r`: the records, the
/// position reached and the log): every batch passed ends as `batch_reconciled` says; where the
/// walk stops short of the end, it stops as `walk_stopped_at` says; no other batch and no
/// strategy changes, and the log only grows.
pub open spec fn walk_outcome(
    s: StoreView,
    log: ReconciliationLog,
    id: u64,
    sic: String,
    i: u64,
    end: u64,
    fulfillable: Map<(u64, u64), u128>,
    now: Timestamp,
    r: (StoreView, u64, ReconciliationLog),
) -> bool {
    let s1 = r.0;
    let p = r.1;
    let log1 = r.2;
    &&& (i <= end ==> i <= p && p <= end)
    &&& (i > end ==> p == i)
    &&& forall|b: u64| i <= b && b < p ==> #[trigger] batch_reconciled(s, s1, log1, id, sic, b, fulfillable)
    &&& (p < end ==> walk_stopped_at(s, s1, log1, id, p, now))
    &&& forall|k: (u64, u64)| !(k.0 == id && i <= k.1 && k.1 < p) ==> (#[trigger] s1.batches.contains_key(k) <==> s.batches.contains_key(k))
        && (s.batches.contains_key(k) ==> s1.batches[k] == s.batches[k])
    &&& s1.strategies == s.strategies
    &&& reconciliation_log_grows(log, log1)
}

/// Reconciling the batches `i..end` of strategy `id` leaves what `walk_outcome` says.
#[verifier::spinoff_prover]
#[verifier::rlimit(100)]
pub proof fn law_reconciliation_walk_outcome(
    s: StoreView,
    log: ReconciliationLog,
    id: u64,
    sic: String,
    i: u64,
    end: u64,
    fulfillable: Map<(u64, u64), u128>,
    now: Timestamp,
)
    requires
        reconciliation_walk(s, log, id, sic, i, end, fulfillable, now) is Ok,
    ensures
        walk_outcome(s, log, id, sic, i, end, fulfillable, now, reconciliation_walk(s, log, id, sic, i, end, fulfillable, now)->Ok_0),
    decreases end - i,
{
    let (s1, p, log1) = reconciliation_walk(s, log, id, sic, i, end, fulfillable, now)->Ok_0;
    if i >= end {
        assert(s1 == s && p == i && log1 == log);
        assert(reconciliation_log_grows(log, log1));
        assert(walk_outcome(s, log, id, sic, i, end, fulfillable, now, (s1, p, log1)));
    } else {
        let (s2, log2) = if !s.batches.contains_key((id, i)) {
            (s, ReconciliationLog { failed_undelegation_batches: log.failed_undelegation_batches.push((id, i)), ..log })
        } else if s.batches[(id, i)].released {
            (s, ReconciliationLog { batches_slashing_checked: log.batches_slashing_checked.push((id, i)), ..log })
        } else {
            let bt = s.batches[(id, i)];
            let f = fulfillable[(id, i)];
            (StoreView { batches: s.batches.insert((id, i), BatchUndelegationRecord {
                unbonding_slashing_ratio: unbonding_slashing_ratio(f, bt.amount),
                undelegation_batch_status: crate::state::UndelegationBatchStatus::Done,
                released: true,
                ..bt
            }), ..s }, ReconciliationLog {
                messages: log.messages.push(ContractMsg::SicTransferUndelegatedRewards { sic_contract_address: sic, amount: bt.amount }),
                total_funds: log.total_funds + f,
                ..log
            })
        };
        if s.batches.contains_key((id, i)) && !s.batches[(id, i)].released && release_pending(s.batches[(id, i)], now) {
            // the walk stops here
            let lg = ReconciliationLog { batches_in_unbonding_period: log.batches_in_unbonding_period.push((id, i)), ..log };
            assert(log1 == lg);
            assert(s1 == s && p == i);
            assert(lg.batches_in_unbonding_period[log.batches_in_unbonding_period.len() as int] == (id, i));
            assert(lg.batches_in_unbonding_period.contains((id, i)));
            assert(walk_stopped_at(s, s1, log1, id, p, now));
            assert(reconciliation_log_grows(log, log1)) by {
                assert forall|x: (u64, u64)| log.batches_in_unbonding_period.contains(x) implies
                    #[trigger] log1.batches_in_unbonding_period.contains(x) by {
                    lemma_push_contains(log.batches_in_unbonding_period, (id, i), x);
                }
            }
            assert(walk_outcome(s, log, id, sic, i, end, fulfillable, now, (s1, p, log1)));
        } else {
            assert(reconciliation_walk(s2, log2, id, sic, (i + 1) as u64, end, fulfillable, now)->Ok_0 == (s1, p, log1));
            law_reconciliation_walk_outcome(s2, log2, id, sic, (i + 1) as u64, end, fulfillable, now);
            assert(walk_outcome(s2, log2, id, sic, (i + 1) as u64, end, fulfillable, now, (s1, p, log1)));
            assert(reconciliation_log_grows(log, log2)) by {
                assert forall|x: (u64, u64)| log.failed_undelegation_batches.contains(x) implies
                    #[trigger] log2.failed_undelegation_batches.contains(x) by {
                    if log2.failed_undelegation_batches != log.failed_undelegation_batches {
                        lemma_push_contains(log.failed_undelegation_batches, (id, i), x);
                    }
                }
                assert forall|x: (u64, u64)| log.batches_slashing_checked.contains(x) implies
                    #[trigger] log2.batches_slashing_checked.contains(x) by {
                    if log2.batches_slashing_checked != log.batches_slashing_checked {
                        lemma_push_contains(log.batches_slashing_checked, (id, i), x);
                    }
                }
                assert forall|m: ContractMsg| log.messages.contains(m) implies #[trigger] log2.messages.contains(m) by {
                    if log2.messages != log.messages {
                        lemma_push_contains(log.messages, log2.messages.last(), m);
                        assert(log2.messages == log.messages.push(log2.messages.last()));
                    }
                }
            }
            lemma_reconciliation_log_grows_trans(log, log2, log1);
            // batch i: as this step left it, and untouched by the rest of the walk
            assert(batch_reconciled(s, s1, log1, id, sic, i, fulfillable)) by {
                assert(!((id, i).0 == id && i + 1 <= (id, i).1 < p));
                assert(s1.batches.contains_key((id, i)) <==> s2.batches.contains_key((id, i)));
                if !s.batches.contains_key((id, i)) {
                    assert(log2.failed_undelegation_batches[log.failed_undelegation_batches.len() as int] == (id, i));
                    assert(log2.failed_undelegation_batches.contains((id, i)));
                    assert(log1.failed_undelegation_batches.contains((id, i)));
                } else if s.batches[(id, i)].released {
                    assert(log2.batches_slashing_checked[log.batches_slashing_checked.len() as int] == (id, i));
                    assert(log2.batches_slashing_checked.contains((id, i)));
                    assert(log1.batches_slashing_checked.contains((id, i)));
                    assert(s1.batches[(id, i)] == s2.batches[(id, i)]);
                } else {
                    let bt = s.batches[(id, i)];
                    let m = ContractMsg::SicTransferUndelegatedRewards { sic_contract_address: sic, amount: bt.amount };
                    assert(log2.messages[log.messages.len() as int] == m);
                    assert(log2.messages.contains(m));
                    assert(log1.messages.contains(m));
                    assert(s1.batches[(id, i)] == s2.batches[(id, i)]);
                }
            }
            assert forall|b: u64| i <= b && b < p implies #[trigger] batch_reconciled(s, s1, log1, id, sic, b, fulfillable) by {
                if b > i {
                    assert(batch_reconciled(s2, s1, log1, id, sic, b, fulfillable));
                    assert(s2.batches.contains_key((id, b)) == s.batches.contains_key((id, b)));
                    if s.batches.contains_key((id, b)) {
                        assert(s2.batches[(id, b)] == s.batches[(id, b)]);
                    }
                }
            }
            if p < end {
                assert(walk_stopped_at(s2, s1, log1, id, p, now));
                assert(p != i);
                assert(s2.batches.contains_key((id, p)) == s.batches.contains_key((id, p)));
                assert(s2.batches[(id, p)] == s.batches[(id, p)]);
            }
            assert(i + 1 <= p);
            assert forall|k: (u64, u64)| !(k.0 == id && i <= k.1 && k.1 < p) implies (#[trigger] s1.batches.contains_key(k) <==> s.batches.contains_key(k))
                && (s.batches.contains_key(k) ==> s1.batches[k] == s.batches[k]) by {
                assert(!(k.0 == id && i + 1 <= k.1 && k.1 < p));
                assert(k != (id, i));
                assert(s1.batches.contains_key(k) <==> s2.batches.contains_key(k));
                assert(s2.batches.contains_key(k) == s.batches.contains_key(k));
                if s.batches.contains_key(k) {
                    assert(s1.batches[k] == s2.batches[k]);
                    assert(s2.batches[k] == s.batches[k]);
                }
            }
            assert(s1.strategies == s2.strategies);
            assert(s2.strategies == s.strategies);
            assert(i <= end ==> i <= p && p <= end);
            assert(i > end ==> p == i);
            assert(p < end ==> walk_stopped_at(s, s1, log1, id, p, now));
            assert(s1.strategies == s.strategies);
            assert(reconciliation_log_grows(log, log1));
            assert(walk_outcome(s, log, id, sic, i, end, fulfillable, now, (s1, p, log1)));
        }
    }
}

/// What reconciling strategy `id` leaves, in the records `s1` and the log `log1` a run ends
/// with, against the records `s` it started from. A missing strategy is listed as failed.
/// Otherwise only its reconciliation pointer moves, from `p0` to some `p1` that stays within
/// its batches (`p0 <= p1 <= n`, `n` its next batch id); every batch in `p0..p1` ends as
/// `batch_reconciled` says, the other batches of the strategy are left as they were, and where
/// `p1 < n` the pointer stopped as `walk_stopped_at` says.
pub open spec fn strategy_reconciled(
    s: StoreView,
    s1: StoreView,
    log1: ReconciliationLog,
    id: u64,
    fulfillable: Map<(u64, u64), u128>,
    now: Timestamp,
) -> bool {
    if !s.strategies.contains_key(id) {
        log1.failed_strategies.contains(id) && !s1.strategies.contains_key(id)
    } else {
        let st = s.strategies[id];
        let p0 = st.next_reconciliation_batch_id;
        let n = st.next_undelegation_batch_id;
        let p1 = s1.strategies[id].next_reconciliation_batch_id;
        &&& s1.strategies.contains_key(id)
        &&& s1.strategies[id] == (StrategyInfoView { next_reconciliation_batch_id: p1, ..st })
        &&& (p0 <= n ==> p0 <= p1 && p1 <= n)
        &&& (p0 > n ==> p1 == p0)
        &&& forall|b: u64| p0 <= b && b < p1 ==> #[trigger] batch_reconciled(s, s1, log1, id, st.sic_contract_address, b, fulfillable)
        &&& forall|b: u64| !(p0 <= b && b < p1) ==> (#[trigger] s1.batches.contains_key((id, b)) <==> s.batches.contains_key((id, b)))
            && (s.batches.contains_key((id, b)) ==> s1.batches[(id, b)] == s.batches[(id, b)])
        &&& (p1 < n ==> walk_stopped_at(s, s1, log1, id, p1, now))
    }
}

/// Records `s1` keep what `s` holds of every strategy other than `id`, and of its batches.
pub open spec fn others_kept(s: StoreView, s1: StoreView, id: u64) -> bool {
    &&& forall|x: u64| x != id ==> (#[trigger] s1.strategies.contains_key(x) <==> s.strategies.contains_key(x))
        && (s.strategies.contains_key(x) ==> s1.strategies[x] == s.strategies[x])
    &&& forall|k: (u64, u64)| k.0 != id ==> (#[trigger] s1.batches.contains_key(k) <==> s.batches.contains_key(k))
        && (s.batches.contains_key(k) ==> s1.batches[k] == s.batches[k])
}

proof fn lemma_reconciliation_step_outcome(
    s: StoreView,
    log: ReconciliationLog,
    id: u64,
    fulfillable: Map<(u64, u64), u128>,
    now: Timestamp,
)
    requires
        reconciliation_step(s, log, id, fulfillable, now) is Ok,
    ensures
        ({
            let (s2, log2) = reconciliation_step(s, log, id, fulfillable, now)->Ok_0;
            &&& strategy_reconciled(s, s2, log2, id, fulfillable, now)
            &&& others_kept(s, s2, id)
            &&& reconciliation_log_grows(log, log2)
        }),
{
    let (s2, log2) = reconciliation_step(s, log, id, fulfillable, now)->Ok_0;
    if !s.strategies.contains_key(id) {
        assert(log2.failed_strategies[log.failed_strategies.len() as int] == id);
        assert(log2.failed_strategies.contains(id));
        assert(reconciliation_log_grows(log, log2)) by {
            assert forall|x: u64| log.failed_strategies.contains(x) implies #[trigger] log2.failed_strategies.contains(x) by {
                lemma_push_contains(log.failed_strategies, id, x);
            }
        }
    } else {
        let st = s.strategies[id];
        let p0 = st.next_reconciliation_batch_id;
        let n = st.next_undelegation_batch_id;
        law_reconciliation_walk_outcome(s, log, id, st.sic_contract_address, p0, n, fulfillable, now);
        let (sw, p, lw) = reconciliation_walk(s, log, id, st.sic_contract_address, p0, n, fulfillable, now)->Ok_0;
        assert(walk_outcome(s, log, id, st.sic_contract_address, p0, n, fulfillable, now, (sw, p, lw)));
        assert(s2.batches == sw.batches);
        assert(s2.strategies[id].next_reconciliation_batch_id == p);
        assert forall|b: u64| p0 <= b && b < p implies #[trigger] batch_reconciled(s, s2, log2, id, st.sic_contract_address, b, fulfillable) by {
            assert(batch_reconciled(s, sw, lw, id, st.sic_contract_address, b, fulfillable));
        }
        assert forall|b: u64| !(p0 <= b && b < p) implies (#[trigger] s2.batches.contains_key((id, b)) <==> s.batches.contains_key((id, b)))
            && (s.batches.contains_key((id, b)) ==> s2.batches[(id, b)] == s.batches[(id, b)]) by {
            assert(sw.batches.contains_key((id, b)) <==> s.batches.contains_key((id, b)));
        }
        if p < n {
            assert(walk_stopped_at(s, sw, lw, id, p, now));
        }
        assert(strategy_reconciled(s, s2, log2, id, fulfillable, now));
        assert forall|k: (u64, u64)| k.0 != id implies (#[trigger] s2.batches.contains_key(k) <==> s.batches.contains_key(k))
            && (s.batches.contains_key(k) ==> s2.batches[k] == s.batches[k]) by {
            assert(sw.batches.contains_key(k) <==> s.batches.contains_key(k));
        }
    }
}

/// Reconciling a list of strategies in which none repeats: every strategy of the list ends as
/// `strategy_reconciled` says, the strategies not in the list, with their batches, are left as
/// they were, and the log only grows.
#[verifier::spinoff_prover]
pub proof fn law_reconciliation_run_outcome(
    s: StoreView,
    log: ReconciliationLog,
    ids: Seq<u64>,
    fulfillable: Map<(u64, u64), u128>,
    now: Timestamp,
)
    requires
        ids.no_duplicates(),
        reconciliation_run(s, log, ids, fulfillable, now) is Ok,
    ensures
        ({
            let (s1, log1) = reconciliation_run(s, log, ids, fulfillable, now)->Ok_0;
            &&& forall|k: int| 0 <= k < ids.len() ==> strategy_reconciled(s, s1, log1, #[trigger] ids[k], fulfillable, now)
            &&& forall|x: u64| !ids.contains(x) ==> (#[trigger] s1.strategies.contains_key(x) <==> s.strategies.contains_key(x))
                && (s.strategies.contains_key(x) ==> s1.strategies[x] == s.strategies[x])
            &&& forall|k: (u64, u64)| !ids.contains(k.0) ==> (#[trigger] s1.batches.contains_key(k) <==> s.batches.contains_key(k))
                && (s.batches.contains_key(k) ==> s1.batches[k] == s.batches[k])
            &&& reconciliation_log_grows(log, log1)
        }),
    decreases ids.len(),
{
    let (s1, log1) = reconciliation_run(s, log, ids, fulfillable, now)->Ok_0;
    if ids.len() == 0 {
        assert(reconciliation_log_grows(log, log1));
    } else {
        let id0 = ids[0];
        let rest = ids.subrange(1, ids.len() as int);
        let (s2, log2) = reconciliation_step(s, log, id0, fulfillable, now)->Ok_0;
        assert(rest.no_duplicates()) by {
            assert forall|a: int, b: int| 0 <= a < rest.len() && 0 <= b < rest.len() && a != b implies rest[a] != rest[b] by {
                assert(ids[a + 1] != ids[b + 1]);
            }
        }
        assert(!rest.contains(id0)) by {
            if rest.contains(id0) {
                let i = choose|i: int| 0 <= i < rest.len() && rest[i] == id0;
                assert(ids[i + 1] == ids[0]);
            }
        }
        lemma_reconciliation_step_outcome(s, log, id0, fulfillable, now);
        assert(reconciliation_run(s2, log2, rest, fulfillable, now)->Ok_0 == (s1, log1));
        law_reconciliation_run_outcome(s2, log2, rest, fulfillable, now);
        lemma_reconciliation_log_grows_trans(log, log2, log1);
        // the first strategy: as its step left it, and untouched by the rest
        assert(strategy_reconciled(s, s1, log1, id0, fulfillable, now)) by {
            assert(s1.strategies.contains_key(id0) <==> s2.strategies.contains_key(id0));
            if s2.strategies.contains_key(id0) {
                assert(s1.strategies[id0] == s2.strategies[id0]);
            }
            assert(log2.failed_strategies.contains(id0) ==> log1.failed_strategies.contains(id0));
            if s.strategies.contains_key(id0) {
                let st = s.strategies[id0];
                let p0 = st.next_reconciliation_batch_id;
                let n = st.next_undelegation_batch_id;
                let p1 = s2.strategies[id0].next_reconciliation_batch_id;
                assert forall|b: u64| p0 <= b && b < p1 implies #[trigger] batch_reconciled(s, s1, log1, id0, st.sic_contract_address, b, fulfillable) by {
                    assert(batch_reconciled(s, s2, log2, id0, st.sic_contract_address, b, fulfillable));
                    assert(s1.batches.contains_key((id0, b)) <==> s2.batches.contains_key((id0, b)));
                    if s2.batches.contains_key((id0, b)) {
                        assert(s1.batches[(id0, b)] == s2.batches[(id0, b)]);
                    }
                    if s.batches.contains_key((id0, b)) {
                        let bt = s.batches[(id0, b)];
                        if bt.released {
                            assert(log2.batches_slashing_checked.contains((id0, b)));
                            assert(log1.batches_slashing_checked.contains((id0, b)));
                        } else {
                            let m = ContractMsg::SicTransferUndelegatedRewards { sic_contract_address: st.sic_contract_address, amount: bt.amount };
                            assert(log2.messages.contains(m));
                            assert(log1.messages.contains(m));
                        }
                    } else {
                        assert(log2.failed_undelegation_batches.contains((id0, b)));
                        assert(log1.failed_undelegation_batches.contains((id0, b)));
                    }
                }
                assert forall|b: u64| !(p0 <= b && b < p1) implies (#[trigger] s1.batches.contains_key((id0, b)) <==> s.batches.contains_key((id0, b)))
                    && (s.batches.contains_key((id0, b)) ==> s1.batches[(id0, b)] == s.batches[(id0, b)]) by {
                    assert(s2.batches.contains_key((id0, b)) <==> s.batches.contains_key((id0, b)));
                    assert(s1.batches.contains_key((id0, b)) <==> s2.batches.contains_key((id0, b)));
                    if s.batches.contains_key((id0, b)) {
                        assert(s1.batches[(id0, b)] == s2.batches[(id0, b)]);
                    }
                }
                if p1 < n {
                    assert(walk_stopped_at(s, s2, log2, id0, p1, now));
                    assert(s1.batches.contains_key((id0, p1)) <==> s2.batches.contains_key((id0, p1)));
                    assert(s1.batches[(id0, p1)] == s2.batches[(id0, p1)]);
                    assert(log1.batches_in_unbonding_period.contains((id0, p1)));
                }
            }
        }
        assert forall|k: int| 0 <= k < ids.len() implies strategy_reconciled(s, s1, log1, #[trigger] ids[k], fulfillable, now) by {
            if k > 0 {
                let id = ids[k];
                assert(rest[k - 1] == id);
                assert(id != id0) by {
                    assert(ids[k] != ids[0]);
                }
                assert(strategy_reconciled(s2, s1, log1, id, fulfillable, now));
                assert(s2.strategies.contains_key(id) == s.strategies.contains_key(id));
                if s.strategies.contains_key(id) {
                    let st = s.strategies[id];
                    assert(s2.strategies[id] == st);
                    let p0 = st.next_reconciliation_batch_id;
                    let p1 = s1.strategies[id].next_reconciliation_batch_id;
                    assert forall|b: u64| p0 <= b && b < p1 implies #[trigger] batch_reconciled(s, s1, log1, id, st.sic_contract_address, b, fulfillable) by {
                        assert(batch_reconciled(s2, s1, log1, id, st.sic_contract_address, b, fulfillable));
                        assert(s2.batches.contains_key((id, b)) == s.batches.contains_key((id, b)));
                        if s.batches.contains_key((id, b)) {
                            assert(s2.batches[(id, b)] == s.batches[(id, b)]);
                        }
                    }
                    assert forall|b: u64| !(p0 <= b && b < p1) implies (#[trigger] s1.batches.contains_key((id, b)) <==> s.batches.contains_key((id, b)))
                        && (s.batches.contains_key((id, b)) ==> s1.batches[(id, b)] == s.batches[(id, b)]) by {
                        assert(s1.batches.contains_key((id, b)) <==> s2.batches.contains_key((id, b)));
                        assert(s2.batches.contains_key((id, b)) == s.batches.contains_key((id, b)));
                        if s.batches.contains_key((id, b)) {
                            assert(s2.batches[(id, b)] == s.batches[(id, b)]);
                        }
                    }
                    if p1 < st.next_undelegation_batch_id {
                        assert(walk_stopped_at(s2, s1, log1, id, p1, now));
                        assert(s2.batches.contains_key((id, p1)) == s.batches.contains_key((id, p1)));
                        assert(s2.batches[(id, p1)] == s.batches[(id, p1)]);
                    }
                }
            }
        }
        assert forall|x: u64| !ids.contains(x) implies (#[trigger] s1.strategies.contains_key(x) <==> s.strategies.contains_key(x))
            && (s.strategies.contains_key(x) ==> s1.strategies[x] == s.strategies[x]) by {
            assert(x != id0) by {
                if x == id0 {
                    assert(ids[0] == x);
                }
            }
            assert(!rest.contains(x)) by {
                if rest.contains(x) {
                    let i = choose|i: int| 0 <= i < rest.len() && rest[i] == x;
                    assert(ids[i + 1] == x);
                }
            }
            assert(s2.strategies.contains_key(x) <==> s.strategies.contains_key(x));
        }
        assert forall|k: (u64, u64)| !ids.contains(k.0) implies (#[trigger] s1.batches.contains_key(k) <==> s.batches.contains_key(k))
            && (s.batches.contains_key(k) ==> s1.batches[k] == s.batches[k]) by {
            assert(k.0 != id0) by {
                if k.0 == id0 {
                    assert(ids[0] == k.0);
                }
            }
            assert(!rest.contains(k.0)) by {
                if rest.contains(k.0) {
                    let i = choose|i: int| 0 <= i < rest.len() && rest[i] == k.0;
                    assert(ids[i + 1] == k.0);
                }
            }
            assert(s2.batches.contains_key(k) <==> s.batches.contains_key(k));
        }
    }
}

/// `a * b * f / f == a * b` for a positive `f`.
proof fn lemma_scale_cancels(a: int, b: int, f: int)
    requires
        f > 0,
        a >= 0,
        b >= 0,
    ensures
        a * f * b / f == a * b,
        a * b * f / f == a * b,
        a * (b * f) / f == a * b,
{
    assert(a * f * b == (a * b) * f) by (nonlinear_arith);
    assert(a * b * f == (a * b) * f) by (nonlinear_arith);
    assert(a * (b * f) == (a * b) * f) by (nonlinear_arith);
    assert(a * b >= 0) by (nonlinear_arith)
        requires a >= 0, b >= 0;
    vstd::arithmetic::div_mod::lemma_div_by_multiple(a * b, f);
}

/// Total shares per token, in atomics, never exceed the total shares when there is a token.
proof fn lemma_ratio_fits(ts: int, t: int, f: int)
    requires
        ts >= 0,
        t >= 1,
        f > 0,
    ensures
        0 <= ts * f / (t * f) <= ts,
{
    assert(t * f >= f) by (nonlinear_arith)
        requires t >= 1, f > 0;
    assert(ts * f >= 0) by (nonlinear_arith)
        requires ts >= 0, f > 0;
    vstd::arithmetic::div_mod::lemma_div_is_ordered_by_denominator(ts * f, f, t * f);
    vstd::arithmetic::div_mod::lemma_div_by_multiple(ts, f);
    vstd::arithmetic::div_mod::lemma_div_pos_is_pos(ts * f, t * f);
}

/// Where some record matches, the first matching one exists.
proof fn lemma_first_record(recs: Seq<UserUndelegationRecord>, undelegation_id: u64, strategy_id: u64, j: int)
    requires
        0 <= j < recs.len(),
        record_matches(recs[j], undelegation_id, strategy_id),
    ensures
        ({
            let k = record_index(recs, undelegation_id, strategy_id);
            0 <= k < recs.len() && record_matches(recs[k], undelegation_id, strategy_id)
        }),
    decreases j,
{
    if exists|k: int| 0 <= k < j && record_matches(#[trigger] recs[k], undelegation_id, strategy_id) {
        let k = choose|k: int| 0 <= k < j && record_matches(#[trigger] recs[k], undelegation_id, strategy_id);
        lemma_first_record(recs, undelegation_id, strategy_id, k);
    } else {
        assert(0 <= j < recs.len() && record_matches(recs[j], undelegation_id, strategy_id)
            && forall|k: int| 0 <= k < j ==> !record_matches(#[trigger] recs[k], undelegation_id, strategy_id));
    }
}

/// Withdrawing an undelegation pays the record's shares at its batch's shares-per-token ratio,
/// as whole tokens, times the share of the batch that survived unbonding, floored:
/// `floor(floor(shares / ratio) * slashing)`, whatever amount the record was made for.
#[verifier::spinoff_prover]
pub proof fn law_withdrawal_pays_shares_at_batch_ratio(
    s: StoreView,
    sender: Seq<char>,
    undelegation_id: u64,
    strategy_id: u64,
    now: Timestamp,
)
    requires
        withdrawal_outcome(s, sender, undelegation_id, strategy_id, now) is Ok,
    ensures
        ({
            let (i, paid) = withdrawal_outcome(s, sender, undelegation_id, strategy_id, now)->Ok_0;
            let rec = s.users[sender].undelegation_records[i];
            let batch = s.batches[(strategy_id, rec.undelegation_batch_id)];
            let f = DECIMAL_FRACTIONAL as int;
            &&& rec.id == undelegation_id
            &&& rec.strategy_id == strategy_id
            &&& batch.undelegation_s_t_ratio.atomics > 0
            &&& paid == (rec.shares.atomics * f / (batch.undelegation_s_t_ratio.atomics as int)) / f
                * (batch.unbonding_slashing_ratio.atomics as int) / f
        }),
{
    let (i, paid) = withdrawal_outcome(s, sender, undelegation_id, strategy_id, now)->Ok_0;
    let recs = s.users[sender].undelegation_records;
    let k = record_index(recs, undelegation_id, strategy_id);
    assert(i == k);
    assert(has_record(recs, undelegation_id, strategy_id));
    let j = choose|j: int| 0 <= j < recs.len() && record_matches(#[trigger] recs[j], undelegation_id, strategy_id);
    lemma_first_record(recs, undelegation_id, strategy_id, j);
    assert(record_matches(recs[k], undelegation_id, strategy_id));
    let rec = recs[i];
    let batch = s.batches[(strategy_id, rec.undelegation_batch_id)];
    let f = DECIMAL_FRACTIONAL as int;
    let r = batch.undelegation_s_t_ratio.atomics as int;
    let sl = batch.unbonding_slashing_ratio.atomics as int;
    assert(r > 0);
    let w = withdrawable_amount(rec, batch);
    assert(w == rec.shares.atomics * f / r / f);
    assert(0 <= w) by (nonlinear_arith)
        requires
            w == rec.shares.atomics * f / r / f,
            r > 0,
            f > 0,
            rec.shares.atomics >= 0;
    assert(w * f <= u128::MAX);
    assert(((w * f) as u128) as int == w * f);
    lemma_scale_cancels(w, sl, f);
    assert(spec_mul(Decimal { atomics: (w * f) as u128 }, batch.unbonding_slashing_ratio) == w * sl);
    assert(effective_amount(w, batch) == w * sl / f);
    assert(0 <= w * sl / f <= w * sl) by (nonlinear_arith)
        requires w >= 0, sl >= 0, f > 0;
    assert(paid as int == w * sl / f);
}

/// Undelegating `amount` of a user's rewards from a strategy takes the shares the amount is
/// worth at the ratio that the SIC's current answer gives: the strategy's total shares per token
/// the SIC holds (ten while either is zero), whatever ratio the strategy last stored; the shares
/// taken are exactly `amount` times that ratio.
#[verifier::spinoff_prover]
pub proof fn law_undelegation_at_reported_ratio(
    s: StoreView,
    sender: Seq<char>,
    amount: u128,
    strategy_id: u64,
    tokens: Map<u64, Option<u128>>,
)
    requires
        undelegation_outcome(s, sender, amount, strategy_id, tokens) is Ok,
    ensures
        ({
            let (ratio, undelegated) = undelegation_outcome(s, sender, amount, strategy_id, tokens)->Ok_0;
            let st = s.strategies[strategy_id];
            let t: int = match tokens[strategy_id] { Some(v) => v as int, None => 0 };
            let f = DECIMAL_FRACTIONAL as int;
            &&& tokens.contains_key(strategy_id)
            &&& ratio.atomics == if t == 0 || st.total_shares.atomics == 0 { 10 * f } else { st.total_shares.atomics * f / (t * f) }
            &&& undelegated.atomics == ratio.atomics * amount
        }),
{
    let (ratio, undelegated) = undelegation_outcome(s, sender, amount, strategy_id, tokens)->Ok_0;
    let st = s.strategies[strategy_id];
    let f = DECIMAL_FRACTIONAL as int;
    let t = reported_tokens(tokens[strategy_id]) as int;
    if !(t == 0 || st.total_shares.atomics == 0) {
        lemma_ratio_fits(st.total_shares.atomics as int, t, f);
        assert(ratio.atomics as int == st.total_shares.atomics * f / (t * f));
    }
    assert(amount * f <= u128::MAX);
    assert(((amount * f) as u128) as int == amount * f);
    lemma_scale_cancels(ratio.atomics as int, amount as int, f);
    assert(spec_mul(ratio, Decimal { atomics: (amount * f) as u128 }) == ratio.atomics * amount);
}

/// The report on a user's position in a strategy gives the tokens its shares are worth at the
/// ratio that the SIC's current answer gives (total shares per token the SIC holds, ten while
/// either is zero), or at ten where the SIC did not answer; whatever ratio the strategy last
/// stored: `floor(shares / ratio)`.
pub proof fn law_position_reported_at_reported_ratio(
    q: UserStrategyQueryInfo,
    strategies: Map<u64, StrategyInfoView>,
    e: UserStrategyInfoView,
    tokens: Map<u64, Option<u128>>,
)
    requires
        entry_query_matches(q, strategies, e, tokens),
    ensures
        ({
            let st = strategies[e.strategy_id];
            let f = DECIMAL_FRACTIONAL as int;
            let t: int = if tokens.contains_key(e.strategy_id) {
                match tokens[e.strategy_id] { Some(v) => v as int, None => 0 }
            } else {
                0
            };
            let ratio: int = if t == 0 || st.total_shares.atomics == 0 { 10 * f } else { ((st.total_shares.atomics * f / (t * f)) as u128) as int };
            q.total_rewards == e.shares.atomics * f / ratio / f
        }),
{
}

/// The list of all strategies reports what each strategy's shares and queued undelegation are
/// worth at the ratio that its SIC's current answer gives (ten where it did not answer, or while
/// either side is zero), whatever ratio the strategy last stored.
pub proof fn law_strategy_reported_at_reported_ratio(
    q: StrategyInfoQuery,
    s: StoreView,
    id: u64,
    tokens: Map<u64, Option<u128>>,
)
    requires
        id != 0,
        strategy_query_matches(q, s, id, tokens),
    ensures
        ({
            let st = s.strategies[id];
            let f = DECIMAL_FRACTIONAL as int;
            let t: int = if tokens.contains_key(id) {
                match tokens[id] { Some(v) => v as int, None => 0 }
            } else {
                0
            };
            let ratio: int = if t == 0 || st.total_shares.atomics == 0 { 10 * f } else { ((st.total_shares.atomics * f / (t * f)) as u128) as int };
            &&& q.total_rewards == st.total_shares.atomics * f / ratio / f
            &&& q.rewards_in_undelegation == st.current_undelegated_shares.atomics * f / ratio / f
        }),
{
}

/// The share of a batch that survived unbonding is `min(1, fulfillable / amount)`: all of it
/// when the SIC can give back at least the batch's amount, and otherwise the largest fraction
/// (in atomics) whose part of the amount the SIC can give back.
#[verifier::spinoff_prover]
pub proof fn law_surviving_share_is_capped_quotient(fulfillable: u128, amount: u128)
    requires
        amount > 0,
    ensures
        ({
            let r = unbonding_slashing_ratio(fulfillable, amount).atomics as int;
            let f = DECIMAL_FRACTIONAL as int;
            &&& fulfillable >= amount ==> r == f
            &&& fulfillable < amount ==> r < f && r * amount <= fulfillable * f && fulfillable * f < (r + 1) * amount
        }),
{
    let f = DECIMAL_FRACTIONAL as int;
    if fulfillable < amount {
        let q = fulfillable * f / (amount as int);
        vstd::arithmetic::div_mod::lemma_fundamental_div_mod(fulfillable * f, amount as int);
        assert(0 <= (fulfillable * f) % (amount as int) < amount) by {
            vstd::arithmetic::div_mod::lemma_mod_bound(fulfillable * f, amount as int);
        }
        assert(q < f) by (nonlinear_arith)
            requires
                fulfillable < amount,
                fulfillable >= 0,
                f > 0,
                amount > 0,
                fulfillable * f == amount * q + (fulfillable * f) % (amount as int),
                (fulfillable * f) % (amount as int) >= 0;
        assert(q >= 0) by (nonlinear_arith)
            requires fulfillable >= 0, f > 0, amount > 0, q == fulfillable * f / (amount as int);
        assert(q * amount <= fulfillable * f) by (nonlinear_arith)
            requires
                fulfillable * f == amount * q + (fulfillable * f) % (amount as int),
                (fulfillable * f) % (amount as int) >= 0;
        assert(fulfillable * f < (q + 1) * amount) by (nonlinear_arith)
            requires
                fulfillable * f == amount * q + (fulfillable * f) % (amount as int),
                (fulfillable * f) % (amount as int) < amount;
        assert(spec_ratio(fulfillable as int, amount as int) == q);
    }
}

/// Reconciling a strategy's batches never moves its pointer back, nor past the batches that
/// exist, and never touches a batch that was released before. Every batch the pointer passes
/// is missing or released afterwards; where the pointer stops short of the end, it stops at a
/// batch that is not released and still in its unbonding period.
#[verifier::spinoff_prover]
pub proof fn law_reconciliation_monotone(
    s: StoreView,
    log: ReconciliationLog,
    id: u64,
    sic: String,
    i: u64,
    end: u64,
    fulfillable: Map<(u64, u64), u128>,
    now: Timestamp,
)
    requires
        i <= end,
        reconciliation_walk(s, log, id, sic, i, end, fulfillable, now) is Ok,
    ensures
        ({
            let (s1, p, _) = reconciliation_walk(s, log, id, sic, i, end, fulfillable, now)->Ok_0;
            &&& i <= p <= end
            &&& s1.strategies == s.strategies
            &&& forall|k: (u64, u64)| #[trigger] s.batches.contains_key(k) && s.batches[k].released ==> s1.batches.contains_key(k)
                && s1.batches[k] == s.batches[k]
            &&& forall|k: (u64, u64)| #[trigger] s1.batches.contains_key(k) ==> s.batches.contains_key(k)
            &&& forall|b: u64| i <= b < p && #[trigger] s1.batches.contains_key((id, b)) ==> s1.batches[(id, b)].released
            &&& p < end ==> s1.batches.contains_key((id, p)) && !s1.batches[(id, p)].released
                && release_pending(s1.batches[(id, p)], now)
        }),
    decreases end - i,
{
    if i < end {
        if !s.batches.contains_key((id, i)) {
            law_reconciliation_monotone(s, ReconciliationLog {
                failed_undelegation_batches: log.failed_undelegation_batches.push((id, i)),
                ..log
            }, id, sic, (i + 1) as u64, end, fulfillable, now);
        } else {
            let b = s.batches[(id, i)];
            if b.released {
                law_reconciliation_monotone(s, ReconciliationLog {
                    batches_slashing_checked: log.batches_slashing_checked.push((id, i)),
                    ..log
                }, id, sic, (i + 1) as u64, end, fulfillable, now);
            } else if crate::unbonding::release_pending(b, now) {
            } else {
                let f = fulfillable[(id, i)];
                let released = BatchUndelegationRecord {
                    unbonding_slashing_ratio: unbonding_slashing_ratio(f, b.amount),
                    undelegation_batch_status: crate::state::UndelegationBatchStatus::Done,
                    released: true,
                    ..b
                };
                let s2 = StoreView { batches: s.batches.insert((id, i), released), ..s };
                law_reconciliation_monotone(s2, ReconciliationLog {
                    messages: log.messages.push(crate::msg::ContractMsg::SicTransferUndelegatedRewards { sic_contract_address: sic, amount: b.amount }),
                    total_funds: log.total_funds + f,
                    ..log
                }, id, sic, (i + 1) as u64, end, fulfillable, now);
                let (s1, _, _) = reconciliation_walk(s, log, id, sic, i, end, fulfillable, now)->Ok_0;
                assert forall|k: (u64, u64)| #[trigger] s.batches.contains_key(k) && s.batches[k].released implies s1.batches.contains_key(k)
                    && s1.batches[k] == s.batches[k] by {
                    assert(k != (id, i));
                    assert(s2.batches.contains_key(k) && s2.batches[k].released);
                }
                assert forall|k: (u64, u64)| #[trigger] s1.batches.contains_key(k) implies s.batches.contains_key(k) by {
                    assert(s2.batches.contains_key(k));
                }
            }
        }
    }
}

/// The share of a batch that survives unbonding is never more than all of it, so a
/// withdrawal never pays more than the undelegated amount.
pub proof fn law_slashing_never_adds(fulfillable: u128, amount: u128, withdrawable: int, batch: BatchUndelegationRecord)
    requires
        0 <= withdrawable,
        withdrawable * DECIMAL_FRACTIONAL <= u128::MAX,
        batch.unbonding_slashing_ratio == unbonding_slashing_ratio(fulfillable, amount),
    ensures
        unbonding_slashing_ratio(fulfillable, amount).atomics <= DECIMAL_FRACTIONAL,
        effective_amount(withdrawable, batch) <= withdrawable,
{
    let r = batch.unbonding_slashing_ratio.atomics as int;
    let f = DECIMAL_FRACTIONAL as int;
    if fulfillable < amount {
        assert(crate::math::spec_ratio(fulfillable as int, amount as int) <= DECIMAL_FRACTIONAL) by (nonlinear_arith)
            requires
                fulfillable < amount,
                crate::math::spec_ratio(fulfillable as int, amount as int) == fulfillable * DECIMAL_FRACTIONAL / (amount as int),
                DECIMAL_FRACTIONAL > 0;
    }
    let w = withdrawable * f;
    assert(w * r / f / f <= withdrawable) by (nonlinear_arith)
        requires
            0 <= r <= f,
            f > 0,
            w == withdrawable * f,
            withdrawable >= 0;
}

/// No holder of a strategy's shares is owed more of a claimed airdrop than was claimed.
pub proof fn law_airdrop_share_bounded(amount: u128, total_shares: Decimal, shares: Decimal)
    requires
        total_shares.atomics > 0,
        shares.atomics <= total_shares.atomics,
        amount * DECIMAL_FRACTIONAL <= u128::MAX,
        spec_div(Decimal { atomics: (amount * DECIMAL_FRACTIONAL) as u128 }, total_shares) <= u128::MAX,
    ensures
        airdrop_per_share(amount, total_shares).atomics * shares.atomics / (DECIMAL_FRACTIONAL as int)
            / (DECIMAL_FRACTIONAL as int) <= amount,
{
    let f = DECIMAL_FRACTIONAL as int;
    let t = total_shares.atomics as int;
    let a = amount * f;
    let p = a * f / t;
    assert(p == airdrop_per_share(amount, total_shares).atomics);
    assert(p * shares.atomics / f / f <= amount) by (nonlinear_arith)
        requires
            t > 0,
            0 <= shares.atomics <= t,
            f > 0,
            a == amount * f,
            p == a * f / t,
            amount >= 0;
}

/// Withdrawing airdrops hands over, of every denomination, exactly what the user held of a
/// registered one, and leaves the rest pending.
pub proof fn law_withdrawal_hands_over_everything_registered(
    p: Seq<Coin>,
    registry: Map<Seq<char>, Cw20TokenContractsInfo>,
    d: Seq<char>,
)
    ensures
        coin_amount(withdrawn(p, registry), d) + entry_amount(coin_entries(transferred(p, registry)), d) == coin_amount(p, d),
        registry.contains_key(d) ==> coin_amount(withdrawn(p, registry), d) == 0,
        !registry.contains_key(d) ==> coin_amount(withdrawn(p, registry), d) == coin_amount(p, d),
    decreases p.len(),
{
    crate::allocation::lemma_transferred_amount(p, registry, d);
    if p.len() > 0 {
        law_withdrawal_hands_over_everything_registered(p.drop_last(), registry, d);
        let x = p.last();
        assert(withdrawn(p, registry).drop_last() =~= withdrawn(p.drop_last(), registry));
        assert(coin_entries(withdrawn(p, registry)).drop_last() =~= coin_entries(withdrawn(p.drop_last(), registry)));
        assert(coin_entries(p).drop_last() =~= coin_entries(p.drop_last()));
        let w = coin_entries(withdrawn(p, registry));
        let e = coin_entries(p);
        assert(entry_amount(w, d) == entry_amount(w.drop_last(), d) + if w.last().0 == d { w.last().1 } else { 0 });
        assert(entry_amount(e, d) == entry_amount(e.drop_last(), d) + if e.last().0 == d { e.last().1 } else { 0 });
        assert(w.last() == (x.denom@, if transferable(x, registry) { 0 } else { x.amount as int }));
        assert(e.last() == (x.denom@, x.amount as int));
    }
}

/// A page of strategies lists ids in increasing order, from its first id on, below the next
/// id to be given out, and no more of them than its limit.
pub proof fn law_pages_are_ordered(strategies: Map<u64, StrategyInfoView>, i: int, end: int, limit: nat)
    requires
        0 <= i,
        end <= u64::MAX + 1,
    ensures
        listed_ids(strategies, i, end, limit).len() <= limit,
        forall|k: int| 0 <= k < listed_ids(strategies, i, end, limit).len() ==>
            i <= #[trigger] listed_ids(strategies, i, end, limit)[k] < end,
        forall|a: int, b: int| 0 <= a < b < listed_ids(strategies, i, end, limit).len() ==>
            #[trigger] listed_ids(strategies, i, end, limit)[a] < #[trigger] listed_ids(strategies, i, end, limit)[b],
    decreases end - i,
{
    if i >= end || limit == 0 {
    } else if strategies.contains_key(i as u64) {
        law_pages_are_ordered(strategies, i + 1, end, (limit - 1) as nat);
        let rest = listed_ids(strategies, i + 1, end, (limit - 1) as nat);
        let all = seq![i as u64] + rest;
        assert(listed_ids(strategies, i, end, limit) == all);
        assert forall|k: int| 0 <= k < all.len() implies i <= #[trigger] all[k] < end by {
            if k > 0 {
                assert(all[k] == rest[k - 1]);
            }
        }
        assert forall|a: int, b: int| 0 <= a < b < all.len() implies #[trigger] all[a] < #[trigger] all[b] by {
            assert(all[b] == rest[b - 1]);
            if a > 0 {
                assert(all[a] == rest[a - 1]);
            }
        }
    } else {
        law_pages_are_ordered(strategies, i + 1, end, limit);
        assert(listed_ids(strategies, i, end, limit) == listed_ids(strategies, i + 1, end, limit));
    }
}

} // verus!
