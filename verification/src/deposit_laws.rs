//! What depositing users' rewards does over a whole request: the shares each strategy sells,
//! the airdrops settled on the user's old shares, what each SIC is owed, and what is retained.

use vstd::prelude::*;
use crate::airdrops::base_user;
use crate::coins::Coin;
use crate::deposits::{deposit_into, deposit_ratio, deposit_walk, empty_deposit_log, entry_index, new_entry,
    lemma_sic_index_unique, rewards_request_step, rewards_run, sic_amount, sic_has, sics_unique, with_entry,
    DepositLog, law_deposit_settles_airdrops_then_buys_shares};
use crate::helpers::{law_split_conserves_amount, map_value_or_zero, split_computable, split_order, split_total,
    strategy_split};
use crate::math::{spec_mul, Decimal, DECIMAL_FRACTIONAL};
use crate::msg::UpdateUserRewardsRequest;
use crate::state::{StrategyInfoView, UserRewardInfoView, UserStrategyInfoView};
use crate::store::StoreView;
use crate::user::{has_strategy_entry, strategy_entry_index, user_airdrops_seq};

verus! {

/// No strategy has two positions in the user's record.
pub open spec fn entries_distinct(u: UserRewardInfoView) -> bool {
    forall|a: int, b: int| 0 <= a < b < u.strategies.len() ==>
        #[trigger] u.strategies[a].strategy_id != #[trigger] u.strategies[b].strategy_id
}

/// The user's position in strategy `id`: the one in the record, or an empty one.
pub open spec fn entry_of(u: UserRewardInfoView, id: u64) -> UserStrategyInfoView {
    if has_strategy_entry(u, id) {
        u.strategies[strategy_entry_index(u, id)]
    } else {
        new_entry(id)
    }
}

/// Whether a deposit of `amount` into strategy `id` buys shares: the amount is not zero, the
/// strategy is not the retain-rewards one and exists, and its ratio is known (fetched earlier
/// in the request, or its SIC answered).
pub open spec fn placed(
    strategies: Map<u64, StrategyInfoView>,
    ratios: Map<u64, Decimal>,
    tokens: Map<u64, Option<u128>>,
    id: u64,
    amount: u128,
) -> bool {
    amount != 0 && id != 0 && strategies.contains_key(id) && (ratios.contains_key(id) || tokens.contains_key(id))
}

/// The shares that `amount` buys at `ratio`.
pub open spec fn shares_bought(ratio: Decimal, amount: u128) -> int {
    spec_mul(ratio, Decimal { atomics: (amount * DECIMAL_FRACTIONAL) as u128 })
}

/// The airdrops that the user's position in strategy `id` earned on its shares up to the
/// strategy's global pointer.
pub open spec fn position_airdrops(strategies: Map<u64, StrategyInfoView>, u: UserRewardInfoView, id: u64) -> Seq<Coin> {
    user_airdrops_seq(strategies[id].global_airdrop_pointer, entry_of(u, id).airdrop_pointer, entry_of(u, id).shares)
}

proof fn lemma_entry_at(u: UserRewardInfoView, k: int)
    requires
        entries_distinct(u),
        0 <= k < u.strategies.len(),
    ensures
        has_strategy_entry(u, u.strategies[k].strategy_id),
        strategy_entry_index(u, u.strategies[k].strategy_id) == k,
        entry_of(u, u.strategies[k].strategy_id) == u.strategies[k],
{
    let id = u.strategies[k].strategy_id;
    assert(u.strategies[k].strategy_id == id);
    let i = strategy_entry_index(u, id);
    if i != k {
        if i < k {
            assert(u.strategies[i].strategy_id != u.strategies[k].strategy_id);
        } else {
            assert(u.strategies[k].strategy_id != u.strategies[i].strategy_id);
        }
    }
}

/// One deposit, against the records before it.
pub proof fn lemma_deposit_into_outcome(
    strategies: Map<u64, StrategyInfoView>,
    u: UserRewardInfoView,
    log: DepositLog,
    id: u64,
    amount: u128,
    tokens: Map<u64, Option<u128>>,
)
    requires
        entries_distinct(u),
        sics_unique(log.funds),
        deposit_into(strategies, u, log, id, amount, tokens) is Ok,
    ensures
        ({
            let (st1, u1, l1) = deposit_into(strategies, u, log, id, amount, tokens)->Ok_0;
            let p = placed(strategies, log.ratios, tokens, id, amount);
            &&& entries_distinct(u1)
            &&& sics_unique(l1.funds)
            &&& st1.dom() == strategies.dom()
            &&& u1.pending_rewards == u.pending_rewards + if id == 0 { amount as int } else { 0 }
            &&& l1.total_surplus == log.total_surplus + if id == 0 { amount as int } else { 0 }
            &&& u1.pending_airdrops == u.pending_airdrops + if p { position_airdrops(strategies, u, id) } else { Seq::<Coin>::empty() }
            &&& forall|c: Seq<char>| #[trigger] sic_amount(l1.funds, c) == sic_amount(log.funds, c)
                + if p && strategies[id].sic_contract_address@ == c { amount as int } else { 0 }
            &&& p ==> {
                let st = strategies[id];
                let ratio = deposit_ratio(st, log, id, tokens)->Ok_0;
                &&& deposit_ratio(st, log, id, tokens) is Ok
                &&& st1[id].total_shares.atomics == st.total_shares.atomics + shares_bought(ratio, amount)
                &&& st1[id].shares_per_token_ratio == if log.ratios.contains_key(id) { st.shares_per_token_ratio } else { ratio }
                &&& has_strategy_entry(u1, id)
                &&& entry_of(u1, id).shares.atomics == entry_of(u, id).shares.atomics + shares_bought(ratio, amount)
                &&& entry_of(u1, id).airdrop_pointer == st.global_airdrop_pointer
                &&& l1.ratios.contains_key(id) && l1.ratios[id] == ratio
            }
            &&& forall|x: u64| x != id ==> {
                &&& (#[trigger] st1.contains_key(x) <==> strategies.contains_key(x))
                &&& (strategies.contains_key(x) ==> st1[x] == strategies[x])
                &&& has_strategy_entry(u1, x) == has_strategy_entry(u, x)
                &&& entry_of(u1, x) == entry_of(u, x)
                &&& (l1.ratios.contains_key(x) <==> log.ratios.contains_key(x))
                &&& (log.ratios.contains_key(x) ==> l1.ratios[x] == log.ratios[x])
            }
        }),
{
    let (st1, u1, l1) = deposit_into(strategies, u, log, id, amount, tokens)->Ok_0;
    let p = placed(strategies, log.ratios, tokens, id, amount);
    if p {
        law_deposit_settles_airdrops_then_buys_shares(strategies, u, log, id, amount, tokens, Seq::empty());
        assert forall|c: Seq<char>| #[trigger] sic_amount(l1.funds, c) == sic_amount(log.funds, c)
            + if strategies[id].sic_contract_address@ == c { amount as int } else { 0 } by {
            law_deposit_settles_airdrops_then_buys_shares(strategies, u, log, id, amount, tokens, c);
        }
        let uw = with_entry(u, id);
        let j = entry_index(u, id);
        assert(entries_distinct(uw)) by {
            if !has_strategy_entry(u, id) {
                assert forall|a: int, b: int| 0 <= a < b < uw.strategies.len() implies
                    #[trigger] uw.strategies[a].strategy_id != #[trigger] uw.strategies[b].strategy_id by {
                    if b == u.strategies.len() {
                        assert(u.strategies[a].strategy_id != id);
                    } else {
                        assert(u.strategies[a].strategy_id != u.strategies[b].strategy_id);
                    }
                }
            }
        }
        if has_strategy_entry(u, id) {
            let k = strategy_entry_index(u, id);
            assert(u.strategies[k].strategy_id == id);
        }
        assert(0 <= j < uw.strategies.len());
        assert(uw.strategies[j].strategy_id == id);
        assert(entry_of(u, id) == uw.strategies[j]);
        assert(u1.strategies.len() == uw.strategies.len());
        assert(entries_distinct(u1)) by {
            assert forall|a: int, b: int| 0 <= a < b < u1.strategies.len() implies
                #[trigger] u1.strategies[a].strategy_id != #[trigger] u1.strategies[b].strategy_id by {
                assert(uw.strategies[a].strategy_id != uw.strategies[b].strategy_id);
            }
        }
        lemma_entry_at(u1, j);
        assert forall|x: u64| x != id implies has_strategy_entry(u1, x) == has_strategy_entry(u, x)
            && entry_of(u1, x) == entry_of(u, x) by {
            if has_strategy_entry(u, x) {
                let k = strategy_entry_index(u, x);
                assert(u.strategies[k].strategy_id == x);
                assert(k != j);
                assert(u1.strategies[k] == u.strategies[k]);
                lemma_entry_at(u1, k);
                lemma_entry_at(u, k);
            }
            if has_strategy_entry(u1, x) {
                let k = strategy_entry_index(u1, x);
                assert(u1.strategies[k].strategy_id == x);
                assert(k != j);
                assert(k < u.strategies.len());
                assert(u.strategies[k].strategy_id == x);
            }
        }
    } else {
        assert(u1.strategies == u.strategies);
        assert forall|x: u64| x != id implies has_strategy_entry(u1, x) == has_strategy_entry(u, x)
            && entry_of(u1, x) == entry_of(u, x) by {}
        assert(st1.dom() =~= strategies.dom());
        assert forall|c: Seq<char>| #[trigger] sic_amount(l1.funds, c) == sic_amount(log.funds, c) by {}
    }
}

/// The airdrops settled by the deposits of a split over the strategies `ks`, one after the
/// other: those that each placed deposit's position earned on its shares before the request.
pub open spec fn settled_airdrops(
    strategies: Map<u64, StrategyInfoView>,
    u: UserRewardInfoView,
    ratios: Map<u64, Decimal>,
    tokens: Map<u64, Option<u128>>,
    split: Map<u64, u128>,
    ks: Seq<u64>,
) -> Seq<Coin>
    decreases ks.len(),
{
    if ks.len() == 0 {
        Seq::empty()
    } else {
        (if placed(strategies, ratios, tokens, ks[0], map_value_or_zero(split, ks[0]) as u128) {
            position_airdrops(strategies, u, ks[0])
        } else {
            Seq::empty()
        }) + settled_airdrops(strategies, u, ratios, tokens, split, ks.subrange(1, ks.len() as int))
    }
}

/// What the placed deposits of a split over the strategies `ks` owe the SIC `c`.
pub open spec fn routed_to_sic(
    strategies: Map<u64, StrategyInfoView>,
    ratios: Map<u64, Decimal>,
    tokens: Map<u64, Option<u128>>,
    split: Map<u64, u128>,
    ks: Seq<u64>,
    c: Seq<char>,
) -> int
    decreases ks.len(),
{
    if ks.len() == 0 {
        0
    } else {
        (if placed(strategies, ratios, tokens, ks[0], map_value_or_zero(split, ks[0]) as u128)
            && strategies[ks[0]].sic_contract_address@ == c {
            map_value_or_zero(split, ks[0])
        } else {
            0
        }) + routed_to_sic(strategies, ratios, tokens, split, ks.subrange(1, ks.len() as int), c)
    }
}

/// What the deposits of a split over the strategies `ks` do for one strategy `id` of them that
/// takes the deposit: the strategy sells the shares that its amount buys at its ratio (the one
/// fetched earlier in the request, or the one its SIC's answer gives, which it then keeps), and
/// the user's position in it gains exactly those shares, its pointer moved to the strategy's
/// global pointer.
pub open spec fn deposit_bought(
    strategies: Map<u64, StrategyInfoView>,
    u: UserRewardInfoView,
    log: DepositLog,
    split: Map<u64, u128>,
    tokens: Map<u64, Option<u128>>,
    st1: Map<u64, StrategyInfoView>,
    u1: UserRewardInfoView,
    l1: DepositLog,
    id: u64,
) -> bool {
    let st = strategies[id];
    let amount = map_value_or_zero(split, id) as u128;
    let ratio = deposit_ratio(st, log, id, tokens)->Ok_0;
    &&& deposit_ratio(st, log, id, tokens) is Ok
    &&& st1.contains_key(id)
    &&& st1[id].total_shares.atomics == st.total_shares.atomics + shares_bought(ratio, amount)
    &&& st1[id].shares_per_token_ratio == if log.ratios.contains_key(id) { st.shares_per_token_ratio } else { ratio }
    &&& has_strategy_entry(u1, id)
    &&& entry_of(u1, id).shares.atomics == entry_of(u, id).shares.atomics + shares_bought(ratio, amount)
    &&& entry_of(u1, id).airdrop_pointer == st.global_airdrop_pointer
    &&& l1.ratios.contains_key(id) && l1.ratios[id] == ratio
}

/// The deposits of a split over strategies `ks`, none of them twice: the retained part goes to
/// the user's pending rewards and to the contract's retained total; every strategy that takes
/// its deposit ends as `deposit_bought` says; the user's pending airdrops gain exactly the
/// airdrops settled on the old positions (`settled_airdrops`); every SIC is owed exactly what
/// the placed deposits routed to it (`routed_to_sic`); and the strategies and positions not in
/// `ks` are left as they were.
pub proof fn law_deposit_walk_outcome(
    strategies: Map<u64, StrategyInfoView>,
    u: UserRewardInfoView,
    log: DepositLog,
    ks: Seq<u64>,
    split: Map<u64, u128>,
    tokens: Map<u64, Option<u128>>,
)
    requires
        ks.no_duplicates(),
        entries_distinct(u),
        sics_unique(log.funds),
        deposit_walk(strategies, u, log, ks, split, tokens) is Ok,
    ensures
        ({
            let (st1, u1, l1) = deposit_walk(strategies, u, log, ks, split, tokens)->Ok_0;
            let retained = if ks.contains(0) { map_value_or_zero(split, 0) } else { 0 };
            &&& entries_distinct(u1)
            &&& sics_unique(l1.funds)
            &&& u1.pending_rewards == u.pending_rewards + retained
            &&& l1.total_surplus == log.total_surplus + retained
            &&& forall|id: u64| ks.contains(id) && #[trigger] placed(strategies, log.ratios, tokens, id, map_value_or_zero(split, id) as u128)
                ==> deposit_bought(strategies, u, log, split, tokens, st1, u1, l1, id)
            &&& u1.pending_airdrops == u.pending_airdrops + settled_airdrops(strategies, u, log.ratios, tokens, split, ks)
            &&& forall|c: Seq<char>| #[trigger] sic_amount(l1.funds, c) == sic_amount(log.funds, c)
                + routed_to_sic(strategies, log.ratios, tokens, split, ks, c)
            &&& forall|x: u64| !ks.contains(x) ==> {
                &&& (#[trigger] st1.contains_key(x) <==> strategies.contains_key(x))
                &&& (strategies.contains_key(x) ==> st1[x] == strategies[x])
                &&& has_strategy_entry(u1, x) == has_strategy_entry(u, x)
                &&& entry_of(u1, x) == entry_of(u, x)
                &&& (l1.ratios.contains_key(x) <==> log.ratios.contains_key(x))
                &&& (log.ratios.contains_key(x) ==> l1.ratios[x] == log.ratios[x])
            }
        }),
    decreases ks.len(),
{
    let (st1, u1, l1) = deposit_walk(strategies, u, log, ks, split, tokens)->Ok_0;
    if ks.len() == 0 {
        assert(u.pending_airdrops + Seq::<Coin>::empty() =~= u.pending_airdrops);
    } else {
        let id0 = ks[0];
        let a0 = map_value_or_zero(split, id0) as u128;
        let rest = ks.subrange(1, ks.len() as int);
        lemma_deposit_into_outcome(strategies, u, log, id0, a0, tokens);
        let (s2, u2, l2) = deposit_into(strategies, u, log, id0, a0, tokens)->Ok_0;
        assert(deposit_walk(s2, u2, l2, rest, split, tokens)->Ok_0 == (st1, u1, l1));
        assert(rest.no_duplicates()) by {
            assert forall|a: int, b: int| 0 <= a < rest.len() && 0 <= b < rest.len() && a != b implies rest[a] != rest[b] by {
                assert(ks[a + 1] != ks[b + 1]);
            }
        }
        assert(!rest.contains(id0)) by {
            if rest.contains(id0) {
                let i = choose|i: int| 0 <= i < rest.len() && rest[i] == id0;
                assert(ks[i + 1] == ks[0]);
            }
        }
        assert forall|x: u64| #[trigger] ks.contains(x) <==> x == id0 || rest.contains(x) by {
            if ks.contains(x) && x != id0 {
                let i = choose|i: int| 0 <= i < ks.len() && ks[i] == x;
                assert(i != 0);
                assert(rest[i - 1] == x);
            }
            if rest.contains(x) {
                let i = choose|i: int| 0 <= i < rest.len() && rest[i] == x;
                assert(ks[i + 1] == x);
            }
            if x == id0 {
                assert(ks[0] == x);
            }
        }
        law_deposit_walk_outcome(s2, u2, l2, rest, split, tokens);
        // the rest of the walk sees the strategies, positions and ratios of the rest as they were
        assert forall|x: u64| rest.contains(x) implies
            placed(s2, l2.ratios, tokens, x, map_value_or_zero(split, x) as u128)
                == placed(strategies, log.ratios, tokens, x, map_value_or_zero(split, x) as u128)
            && (strategies.contains_key(x) ==> s2[x] == strategies[x])
            && entry_of(u2, x) == entry_of(u, x) by {
            assert(x != id0);
        }
        lemma_rest_sums_same(s2, strategies, u2, u, l2.ratios, log.ratios, tokens, split, rest);
        // retained
        if id0 == 0 {
            assert(!rest.contains(0));
        }
        // airdrops
        assert(u1.pending_airdrops == u.pending_airdrops + settled_airdrops(strategies, u, log.ratios, tokens, split, ks)) by {
            let first: Seq<Coin> = if placed(strategies, log.ratios, tokens, id0, a0) { position_airdrops(strategies, u, id0) } else { Seq::empty() };
            assert(settled_airdrops(strategies, u, log.ratios, tokens, split, ks)
                == first + settled_airdrops(strategies, u, log.ratios, tokens, split, rest));
            assert(u.pending_airdrops + first + settled_airdrops(strategies, u, log.ratios, tokens, split, rest)
                =~= u.pending_airdrops + (first + settled_airdrops(strategies, u, log.ratios, tokens, split, rest)));
        }
        // the strategies of the walk
        assert forall|id: u64| ks.contains(id) && #[trigger] placed(strategies, log.ratios, tokens, id, map_value_or_zero(split, id) as u128)
            implies deposit_bought(strategies, u, log, split, tokens, st1, u1, l1, id) by {
            if id == id0 {
                assert(!rest.contains(id0));
                assert(st1.contains_key(id0) <==> s2.contains_key(id0));
                assert(st1[id0] == s2[id0]);
                assert(entry_of(u1, id0) == entry_of(u2, id0));
                assert(has_strategy_entry(u1, id0) == has_strategy_entry(u2, id0));
                assert(l1.ratios.contains_key(id0) <==> l2.ratios.contains_key(id0));
                assert(l1.ratios[id0] == l2.ratios[id0]);
            } else {
                assert(rest.contains(id));
                assert(placed(s2, l2.ratios, tokens, id, map_value_or_zero(split, id) as u128));
                assert(deposit_bought(s2, u2, l2, split, tokens, st1, u1, l1, id));
                assert(s2[id] == strategies[id]);
                assert(entry_of(u2, id) == entry_of(u, id));
                assert(l2.ratios.contains_key(id) <==> log.ratios.contains_key(id));
                if log.ratios.contains_key(id) {
                    assert(l2.ratios[id] == log.ratios[id]);
                }
                assert(deposit_ratio(s2[id], l2, id, tokens) == deposit_ratio(strategies[id], log, id, tokens));
            }
        }
        assert forall|c: Seq<char>| #[trigger] sic_amount(l1.funds, c) == sic_amount(log.funds, c)
            + routed_to_sic(strategies, log.ratios, tokens, split, ks, c) by {
            assert(sic_amount(l1.funds, c) == sic_amount(l2.funds, c) + routed_to_sic(s2, l2.ratios, tokens, split, rest, c));
            assert(sic_amount(l2.funds, c) == sic_amount(log.funds, c)
                + if placed(strategies, log.ratios, tokens, id0, a0) && strategies[id0].sic_contract_address@ == c { a0 as int } else { 0 });
        }
        assert forall|x: u64| !ks.contains(x) implies {
            &&& (#[trigger] st1.contains_key(x) <==> strategies.contains_key(x))
            &&& (strategies.contains_key(x) ==> st1[x] == strategies[x])
            &&& has_strategy_entry(u1, x) == has_strategy_entry(u, x)
            &&& entry_of(u1, x) == entry_of(u, x)
            &&& (l1.ratios.contains_key(x) <==> log.ratios.contains_key(x))
            &&& (log.ratios.contains_key(x) ==> l1.ratios[x] == log.ratios[x])
        } by {
            assert(x != id0 && !rest.contains(x));
            assert(st1.contains_key(x) <==> s2.contains_key(x));
        }
    }
}

/// The sums over the rest of a walk are the same from the records after its first deposit as
/// from those before, since that deposit touches none of the rest.
proof fn lemma_rest_sums_same(
    s2: Map<u64, StrategyInfoView>,
    s: Map<u64, StrategyInfoView>,
    u2: UserRewardInfoView,
    u: UserRewardInfoView,
    r2: Map<u64, Decimal>,
    r: Map<u64, Decimal>,
    tokens: Map<u64, Option<u128>>,
    split: Map<u64, u128>,
    ks: Seq<u64>,
)
    requires
        forall|x: u64| ks.contains(x) ==>
            placed(s2, r2, tokens, x, map_value_or_zero(split, x) as u128) == placed(s, r, tokens, x, map_value_or_zero(split, x) as u128)
            && (s.contains_key(x) ==> s2[x] == s[x])
            && entry_of(u2, x) == entry_of(u, x),
    ensures
        settled_airdrops(s2, u2, r2, tokens, split, ks) == settled_airdrops(s, u, r, tokens, split, ks),
        forall|c: Seq<char>| #[trigger] routed_to_sic(s2, r2, tokens, split, ks, c) == routed_to_sic(s, r, tokens, split, ks, c),
    decreases ks.len(),
{
    if ks.len() > 0 {
        let rest = ks.subrange(1, ks.len() as int);
        assert forall|x: u64| rest.contains(x) implies ks.contains(x) by {
            let i = choose|i: int| 0 <= i < rest.len() && rest[i] == x;
            assert(ks[i + 1] == x);
        }
        lemma_rest_sums_same(s2, s, u2, u, r2, r, tokens, split, rest);
        assert(ks.contains(ks[0])) by {
            assert(ks[0] == ks[0]);
        }
        let x = ks[0];
        if placed(s, r, tokens, x, map_value_or_zero(split, x) as u128) {
            assert(s2[x] == s[x]);
        }
        assert forall|c: Seq<char>| #[trigger] routed_to_sic(s2, r2, tokens, split, ks, c) == routed_to_sic(s, r, tokens, split, ks, c) by {
            assert(routed_to_sic(s2, r2, tokens, split, rest, c) == routed_to_sic(s, r, tokens, split, rest, c));
        }
    }
}

/// The part of a split that is retained in the contract (strategy 0).
pub open spec fn retained_part(split: Map<u64, u128>, ks: Seq<u64>) -> int {
    if ks.contains(0) { map_value_or_zero(split, 0) } else { 0 }
}

/// What one request of a rewards update with funds leaves (`r`: the records and the log),
/// against the records `s` and the log `log` before it. Its funds are split among the
/// strategies `ks` (the override, or the user's portfolio with the remainder to the fallback)
/// and the split hands out exactly the funds. The retained part goes to the user's pending
/// rewards and to the contract's retained total; every strategy of the split that takes its
/// deposit sells the shares the deposit buys at its ratio, and the user's position in it gains
/// them, its airdrops settled on the old shares first (see `deposit_bought`); the user's pending
/// airdrops gain exactly those settled airdrops; every SIC is owed exactly what this request
/// routed to its strategies; the strategies outside the split are left as they were.
pub open spec fn request_outcome(
    s: StoreView,
    log: DepositLog,
    req: UpdateUserRewardsRequest,
    tokens: Map<u64, Option<u128>>,
    r: (StoreView, DepositLog),
) -> bool {
    let u0 = base_user(s, req.user@);
    let split = strategy_split(s.strategies, s.config, req.strategy_id, u0, req.funds);
    let ks = split_order(s.strategies, s.config, req.strategy_id, u0);
    let s1 = r.0;
    let l1 = r.1;
    let u1 = s1.users[req.user@];
    &&& ks.no_duplicates()
    &&& split_total(split, ks) == req.funds
    &&& s1.users.contains_key(req.user@)
    &&& entries_distinct(u1)
    &&& sics_unique(l1.funds)
    &&& u1.pending_rewards == u0.pending_rewards + retained_part(split, ks)
    &&& l1.total_surplus == log.total_surplus + retained_part(split, ks)
    &&& forall|id: u64| ks.contains(id) && #[trigger] placed(s.strategies, log.ratios, tokens, id, map_value_or_zero(split, id) as u128)
        ==> deposit_bought(s.strategies, u0, log, split, tokens, s1.strategies, u1, l1, id)
    &&& u1.pending_airdrops == u0.pending_airdrops + settled_airdrops(s.strategies, u0, log.ratios, tokens, split, ks)
    &&& forall|c: Seq<char>| #[trigger] sic_amount(l1.funds, c) == sic_amount(log.funds, c)
        + routed_to_sic(s.strategies, log.ratios, tokens, split, ks, c)
    &&& forall|x: u64| !ks.contains(x) ==> (#[trigger] s1.strategies.contains_key(x) <==> s.strategies.contains_key(x))
        && (s.strategies.contains_key(x) ==> s1.strategies[x] == s.strategies[x])
}

/// One request of a rewards update with funds leaves what `request_outcome` says.
pub proof fn law_rewards_request_outcome(
    s: StoreView,
    log: DepositLog,
    req: UpdateUserRewardsRequest,
    tokens: Map<u64, Option<u128>>,
)
    requires
        forall|k: Seq<char>| #[trigger] s.users.contains_key(k) ==> entries_distinct(s.users[k]),
        sics_unique(log.funds),
        req.funds != 0,
        rewards_request_step(s, log, req, tokens) is Ok,
    ensures
        request_outcome(s, log, req, tokens, rewards_request_step(s, log, req, tokens)->Ok_0),
{
    let u0 = base_user(s, req.user@);
    let split = strategy_split(s.strategies, s.config, req.strategy_id, u0, req.funds);
    let ks = split_order(s.strategies, s.config, req.strategy_id, u0);
    assert(split_computable(req.strategy_id, u0, req.funds));
    law_split_conserves_amount(s.strategies, s.config, req.strategy_id, u0, req.funds);
    assert(entries_distinct(u0)) by {
        if s.users.contains_key(req.user@) {
            assert(entries_distinct(s.users[req.user@]));
        } else {
            assert(u0.strategies.len() == 0);
        }
    }
    law_deposit_walk_outcome(s.strategies, u0, log, ks, split, tokens);
    let (st1, u1, l1) = deposit_walk(s.strategies, u0, log, ks, split, tokens)->Ok_0;
    let (s1, l1b) = rewards_request_step(s, log, req, tokens)->Ok_0;
    assert(s1.users[req.user@] == u1);
    assert(s1.strategies == st1);
    assert(l1b == l1);
    assert(s1.users.contains_key(req.user@));
    assert(u1.pending_rewards == u0.pending_rewards + retained_part(split, ks));
    assert(l1.total_surplus == log.total_surplus + retained_part(split, ks));
    assert forall|x: u64| !ks.contains(x) implies (#[trigger] s1.strategies.contains_key(x) <==> s.strategies.contains_key(x))
        && (s.strategies.contains_key(x) ==> s1.strategies[x] == s.strategies[x]) by {
        assert(st1.contains_key(x) <==> s.strategies.contains_key(x));
    }
    assert forall|id: u64| ks.contains(id) && #[trigger] placed(s.strategies, log.ratios, tokens, id, map_value_or_zero(split, id) as u128)
        implies deposit_bought(s.strategies, u0, log, split, tokens, s1.strategies, u1, l1, id) by {}
    assert forall|c: Seq<char>| #[trigger] sic_amount(l1.funds, c) == sic_amount(log.funds, c)
        + routed_to_sic(s.strategies, log.ratios, tokens, split, ks, c) by {}
    assert(request_outcome(s, log, req, tokens, (s1, l1)));
}

/// What the requests of a rewards update route to the SIC `c`, one request after the other,
/// each against the records and the log that the requests before it left.
pub open spec fn call_routed_to_sic(
    s: StoreView,
    log: DepositLog,
    reqs: Seq<UpdateUserRewardsRequest>,
    tokens: Map<u64, Option<u128>>,
    c: Seq<char>,
) -> int
    decreases reqs.len(),
{
    if reqs.len() == 0 {
        0
    } else {
        let req = reqs[0];
        let u0 = base_user(s, req.user@);
        let here = if req.funds == 0 {
            0
        } else {
            routed_to_sic(s.strategies, log.ratios, tokens, strategy_split(s.strategies, s.config, req.strategy_id, u0, req.funds),
                split_order(s.strategies, s.config, req.strategy_id, u0), c)
        };
        match rewards_request_step(s, log, req, tokens) {
            Err(_) => here,
            Ok((s1, l1)) => here + call_routed_to_sic(s1, l1, reqs.subrange(1, reqs.len() as int), tokens, c),
        }
    }
}

/// A rewards update sends each SIC one transfer, carrying exactly the sum of what all its
/// requests routed to the strategies of that SIC.
pub proof fn law_transfer_per_sic_carries_its_sum(
    s: StoreView,
    reqs: Seq<UpdateUserRewardsRequest>,
    tokens: Map<u64, Option<u128>>,
    c: Seq<char>,
)
    requires
        forall|k: Seq<char>| #[trigger] s.users.contains_key(k) ==> entries_distinct(s.users[k]),
        rewards_run(s, empty_deposit_log(), reqs, tokens) is Ok,
    ensures
        ({
            let funds = rewards_run(s, empty_deposit_log(), reqs, tokens)->Ok_0.1.funds;
            &&& sics_unique(funds)
            &&& sic_amount(funds, c) == call_routed_to_sic(s, empty_deposit_log(), reqs, tokens, c)
            &&& forall|i: int| 0 <= i < funds.len() ==> (#[trigger] funds[i]).1 == sic_amount(funds, funds[i].0@)
        }),
{
    lemma_run_routes(s, empty_deposit_log(), reqs, tokens, c);
    let funds = rewards_run(s, empty_deposit_log(), reqs, tokens)->Ok_0.1.funds;
    assert(!sic_has(Seq::<(String, u128)>::empty(), c));
    assert forall|i: int| 0 <= i < funds.len() implies (#[trigger] funds[i]).1 == sic_amount(funds, funds[i].0@) by {
        lemma_sic_index_unique(funds, i);
    }
}

proof fn lemma_run_routes(
    s: StoreView,
    log: DepositLog,
    reqs: Seq<UpdateUserRewardsRequest>,
    tokens: Map<u64, Option<u128>>,
    c: Seq<char>,
)
    requires
        forall|k: Seq<char>| #[trigger] s.users.contains_key(k) ==> entries_distinct(s.users[k]),
        sics_unique(log.funds),
        rewards_run(s, log, reqs, tokens) is Ok,
    ensures
        sics_unique(rewards_run(s, log, reqs, tokens)->Ok_0.1.funds),
        sic_amount(rewards_run(s, log, reqs, tokens)->Ok_0.1.funds, c) == sic_amount(log.funds, c)
            + call_routed_to_sic(s, log, reqs, tokens, c),
    decreases reqs.len(),
{
    if reqs.len() > 0 {
        let req = reqs[0];
        let (s1, l1) = rewards_request_step(s, log, req, tokens)->Ok_0;
        if req.funds != 0 {
            law_rewards_request_outcome(s, log, req, tokens);
            assert(request_outcome(s, log, req, tokens, (s1, l1)));
            let u0 = base_user(s, req.user@);
            let split = strategy_split(s.strategies, s.config, req.strategy_id, u0, req.funds);
            let ks = split_order(s.strategies, s.config, req.strategy_id, u0);
            assert(sic_amount(l1.funds, c) == sic_amount(log.funds, c) + routed_to_sic(s.strategies, log.ratios, tokens, split, ks, c));
            assert forall|k: Seq<char>| #[trigger] s1.users.contains_key(k) implies entries_distinct(s1.users[k]) by {
                if k != req.user@ {
                    assert(s.users.contains_key(k));
                }
            }
        } else {
            assert(s1 == s);
            assert(l1.funds == log.funds);
        }
        lemma_run_routes(s1, l1, reqs.subrange(1, reqs.len() as int), tokens, c);
    }
}

} // verus!
