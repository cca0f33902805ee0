//! Where a user's rewards go, and what strategy shares are worth.

use std::collections::BTreeMap;
use vstd::prelude::*;
use vstd::arithmetic::div_mod::{lemma_div_by_multiple, lemma_div_denominator};
use crate::error::ContractError;
use crate::math::{Decimal, DECIMAL_FRACTIONAL, spec_div, spec_floor, checked_decimal_division,
    checked_decimal_from_uint128, decimal_division_in_256, decimal_multiplication_in_256,
    get_decimal_from_uint128, get_default_s_t_ratio, uint128_from_decimal};
use crate::state::{Config, ConfigView, StrategyInfo, StrategyInfoView, UserRewardInfo,
    UserRewardInfoView, UserStrategyPortfolio};
use crate::store::Store;

verus! {

broadcast use vstd::std_specs::btree::group_btree_axioms;

/// The strategy that deposits meant for `strategy_id` go to: the strategy itself when it exists
/// and is active, `default_strategy` otherwise.
pub open spec fn expected_strategy(strategies: Map<u64, StrategyInfoView>, strategy_id: u64, default_strategy: u64) -> u64 {
    if strategies.contains_key(strategy_id) && strategies[strategy_id].is_active {
        strategy_id
    } else {
        default_strategy
    }
}

pub fn get_expected_strategy_or_default(store: &Store, strategy_id: u64, default_strategy: u64) -> (r: u64)
    ensures
        r == expected_strategy(store.strategy_views(), strategy_id, default_strategy),
{
    match store.strategy(strategy_id) {
        None => default_strategy,
        Some(strategy_info) => {
            if !strategy_info.is_active {
                return default_strategy;
            }
            strategy_id
        },
    }
}

/// The part of `amount` that a portfolio entry asks for: `deposit_fraction` percent, floored.
pub open spec fn portfolio_deposit(u: UserStrategyPortfolio, amount: u128) -> int {
    u.deposit_fraction * amount / 100
}

/// The parts of `amount` that all the entries of a portfolio ask for.
pub open spec fn total_deposits(p: Seq<UserStrategyPortfolio>, amount: u128) -> int
    decreases p.len(),
{
    if p.len() == 0 {
        0
    } else {
        total_deposits(p.drop_last(), amount) + portfolio_deposit(p.last(), amount)
    }
}

pub open spec fn map_value_or_zero(m: Map<u64, u128>, k: u64) -> int {
    if m.contains_key(k) {
        m[k] as int
    } else {
        0
    }
}

/// What each strategy receives from the entries of a portfolio, an entry whose strategy does
/// not exist or is inactive counting for `fallback`.
pub open spec fn portfolio_allocation(
    strategies: Map<u64, StrategyInfoView>,
    p: Seq<UserStrategyPortfolio>,
    fallback: u64,
    amount: u128,
) -> Map<u64, u128>
    decreases p.len(),
{
    if p.len() == 0 {
        Map::empty()
    } else {
        let m = portfolio_allocation(strategies, p.drop_last(), fallback, amount);
        let t = expected_strategy(strategies, p.last().strategy_id, fallback);
        m.insert(t, (map_value_or_zero(m, t) + portfolio_deposit(p.last(), amount)) as u128)
    }
}

/// The strategy that takes what the portfolio leaves: the configured fallback when it is active,
/// the retain-rewards strategy 0 otherwise.
pub open spec fn spec_fallback(strategies: Map<u64, StrategyInfoView>, config: ConfigView) -> u64 {
    expected_strategy(strategies, config.fallback_strategy, 0)
}

/// How `amount` is split among strategies: all of it to the override (or to the configured
/// fallback when the override is missing or inactive), or else by the user portfolio, with the
/// rest going to the fallback strategy.
pub open spec fn strategy_split(
    strategies: Map<u64, StrategyInfoView>,
    config: ConfigView,
    strategy_override: Option<u64>,
    user: UserRewardInfoView,
    amount: u128,
) -> Map<u64, u128> {
    let fallback = spec_fallback(strategies, config);
    match strategy_override {
        None => {
            let m = portfolio_allocation(strategies, user.user_portfolio, fallback, amount);
            m.insert(
                fallback,
                (map_value_or_zero(m, fallback) + amount - total_deposits(user.user_portfolio, amount)) as u128,
            )
        },
        Some(o) => map![expected_strategy(strategies, o, config.fallback_strategy) => amount],
    }
}

/// What the portfolio entries `p` ask for strategy `k` when the configured fallback `fb` is an
/// existing active strategy: each entry asks for its percentage of `amount` (floored), for its
/// own strategy when that exists and is active, and for `fb` otherwise.
pub open spec fn portfolio_parts_for(
    strategies: Map<u64, StrategyInfoView>,
    fb: u64,
    p: Seq<UserStrategyPortfolio>,
    amount: u128,
    k: u64,
) -> int
    decreases p.len(),
{
    if p.len() == 0 {
        0
    } else {
        let e = p.last();
        let goes_to = if strategies.contains_key(e.strategy_id) && strategies[e.strategy_id].is_active { e.strategy_id } else { fb };
        portfolio_parts_for(strategies, fb, p.drop_last(), amount, k) + if goes_to == k { e.deposit_fraction * amount / 100 } else { 0 }
    }
}

/// What all the entries of a portfolio ask for together.
pub open spec fn portfolio_parts_total(p: Seq<UserStrategyPortfolio>, amount: u128) -> int
    decreases p.len(),
{
    if p.len() == 0 {
        0
    } else {
        portfolio_parts_total(p.drop_last(), amount) + p.last().deposit_fraction * amount / 100
    }
}

proof fn lemma_allocation_parts(
    strategies: Map<u64, StrategyInfoView>,
    fb: u64,
    p: Seq<UserStrategyPortfolio>,
    amount: u128,
    k: u64,
)
    requires
        total_deposits(p, amount) <= amount,
    ensures
        map_value_or_zero(portfolio_allocation(strategies, p, fb, amount), k) == portfolio_parts_for(strategies, fb, p, amount, k),
        total_deposits(p, amount) == portfolio_parts_total(p, amount),
    decreases p.len(),
{
    if p.len() > 0 {
        let q = p.drop_last();
        lemma_total_deposits_nonneg(q, amount);
        assert(portfolio_deposit(p.last(), amount) >= 0) by (nonlinear_arith)
            requires p.last().deposit_fraction >= 0, amount >= 0;
        lemma_allocation_parts(strategies, fb, q, amount, k);
        let m = portfolio_allocation(strategies, q, fb, amount);
        let t = expected_strategy(strategies, p.last().strategy_id, fb);
        lemma_allocation_parts(strategies, fb, q, amount, t);
        lemma_allocation_bounded(strategies, q, fb, amount);
        if m.contains_key(t) {
            assert(map_value_or_zero(m, t) <= total_deposits(q, amount));
        }
        assert(map_value_or_zero(m, t) + portfolio_deposit(p.last(), amount) <= u128::MAX);
    }
}

/// When the configured fallback strategy exists and is active, a deposit split by the user's
/// portfolio gives every strategy exactly what the entries ask for it (an entry whose strategy
/// is missing or inactive asking for the fallback), and gives the fallback strategy, on top of
/// that, everything the portfolio leaves: `amount` less what all entries ask for.
pub proof fn law_portfolio_split_uses_active_fallback(
    strategies: Map<u64, StrategyInfoView>,
    config: ConfigView,
    user: UserRewardInfoView,
    amount: u128,
    k: u64,
)
    requires
        strategies.contains_key(config.fallback_strategy),
        strategies[config.fallback_strategy].is_active,
        split_computable(None, user, amount),
    ensures
        spec_fallback(strategies, config) == config.fallback_strategy,
        map_value_or_zero(strategy_split(strategies, config, None, user, amount), k)
            == portfolio_parts_for(strategies, config.fallback_strategy, user.user_portfolio, amount, k)
                + if k == config.fallback_strategy { amount - portfolio_parts_total(user.user_portfolio, amount) } else { 0 },
{
    let fb = config.fallback_strategy;
    let p = user.user_portfolio;
    lemma_allocation_parts(strategies, fb, p, amount, k);
    lemma_allocation_parts(strategies, fb, p, amount, fb);
    lemma_allocation_bounded(strategies, p, fb, amount);
    let m = portfolio_allocation(strategies, p, fb, amount);
    if m.contains_key(fb) {
        assert(map_value_or_zero(m, fb) <= total_deposits(p, amount));
    }
    lemma_total_deposits_nonneg(p, amount);
}

/// Whether the split can be computed without leaving 128 bits or taking more than `amount`.
pub open spec fn split_computable(
    strategy_override: Option<u64>,
    user: UserRewardInfoView,
    amount: u128,
) -> bool {
    strategy_override is None ==> {
        &&& amount * DECIMAL_FRACTIONAL <= u128::MAX
        &&& forall|i: int| 0 <= i < user.user_portfolio.len() ==> {
            &&& (#[trigger] user.user_portfolio[i]).deposit_fraction * 10_000_000_000_000_000 <= u128::MAX
            &&& user.user_portfolio[i].deposit_fraction * amount * 10_000_000_000_000_000 <= u128::MAX
        }
        &&& total_deposits(user.user_portfolio, amount) <= amount
    }
}

proof fn lemma_total_deposits_prefix(p: Seq<UserStrategyPortfolio>, amount: u128, j: int)
    requires
        0 <= j <= p.len(),
    ensures
        0 <= total_deposits(p.take(j), amount) <= total_deposits(p, amount),
    decreases p.len(),
{
    if j == p.len() {
        assert(p.take(j) =~= p);
        lemma_total_deposits_nonneg(p, amount);
    } else {
        assert(p.drop_last().take(j) =~= p.take(j));
        lemma_total_deposits_prefix(p.drop_last(), amount, j);
        assert(portfolio_deposit(p.last(), amount) >= 0) by (nonlinear_arith)
            requires p.last().deposit_fraction >= 0, amount >= 0;
    }
}

proof fn lemma_total_deposits_nonneg(p: Seq<UserStrategyPortfolio>, amount: u128)
    ensures
        total_deposits(p, amount) >= 0,
    decreases p.len(),
{
    if p.len() > 0 {
        lemma_total_deposits_nonneg(p.drop_last(), amount);
        assert(portfolio_deposit(p.last(), amount) >= 0) by (nonlinear_arith)
            requires p.last().deposit_fraction >= 0, amount >= 0;
    }
}

proof fn lemma_allocation_bounded(strategies: Map<u64, StrategyInfoView>, p: Seq<UserStrategyPortfolio>, fallback: u64, amount: u128)
    ensures
        forall|k: u64| #[trigger] portfolio_allocation(strategies, p, fallback, amount).contains_key(k) ==>
            map_value_or_zero(portfolio_allocation(strategies, p, fallback, amount), k) <= total_deposits(p, amount),
    decreases p.len(),
{
    if p.len() > 0 {
        lemma_allocation_bounded(strategies, p.drop_last(), fallback, amount);
        lemma_total_deposits_nonneg(p.drop_last(), amount);
        assert(portfolio_deposit(p.last(), amount) >= 0) by (nonlinear_arith)
            requires p.last().deposit_fraction >= 0, amount >= 0;
        let m = portfolio_allocation(strategies, p.drop_last(), fallback, amount);
        let t = expected_strategy(strategies, p.last().strategy_id, fallback);
        let x: int = map_value_or_zero(m, t) + portfolio_deposit(p.last(), amount);
        assert(x <= total_deposits(p, amount));
        assert((x as u128) as int <= total_deposits(p, amount)) by {
            if x <= u128::MAX {
                assert((x as u128) as int == x);
            }
        }
    }
}

proof fn lemma_percent(frac: u128)
    ensures
        frac * DECIMAL_FRACTIONAL / 100 == frac * 10_000_000_000_000_000,
{
    let e16: int = 10_000_000_000_000_000;
    let f: int = DECIMAL_FRACTIONAL as int;
    assert(f == 1_000_000_000_000_000_000int);
    assert(frac * f == (frac * e16) * 100) by (nonlinear_arith)
        requires
            f == 1_000_000_000_000_000_000int,
            e16 == 10_000_000_000_000_000int;
    lemma_div_by_multiple(frac * e16, 100);
}

/// The deposit computed through decimals is the integer percentage.
proof fn lemma_deposit_value(frac: u128, amount: u128)
    ensures
        (frac * DECIMAL_FRACTIONAL / 100) * (amount * DECIMAL_FRACTIONAL) / (DECIMAL_FRACTIONAL as int)
            / (DECIMAL_FRACTIONAL as int) == frac * amount / 100,
        (frac * DECIMAL_FRACTIONAL / 100) * (amount * DECIMAL_FRACTIONAL) / (DECIMAL_FRACTIONAL as int)
            == frac * amount * 10_000_000_000_000_000,
{
    let f: int = DECIMAL_FRACTIONAL as int;
    let e16: int = 10_000_000_000_000_000;
    assert(f == e16 * 100);
    assert(frac * f == (frac * e16) * 100) by (nonlinear_arith)
        requires f == e16 * 100;
    assert(frac * DECIMAL_FRACTIONAL / 100 == frac * e16) by {
        lemma_percent(frac);
    }
    lemma_div_by_multiple(frac * e16, 100);
    assert((frac * e16) * (amount * f) == (frac * amount * e16) * f) by (nonlinear_arith);
    lemma_div_by_multiple(frac * amount * e16, f);
    assert(frac * amount * e16 == (frac * amount) * e16) by (nonlinear_arith);
    lemma_div_denominator(frac * amount * e16, e16, 100);
    lemma_div_by_multiple(frac * amount, e16);
}

/// Splits `amount` among strategies, as `strategy_split` says. `Err(Overflow)` when the split
/// cannot be computed (see `split_computable`).
pub fn get_strategy_split(
    store: &Store,
    config: &Config,
    strategy_override: Option<u64>,
    user_reward_info: &UserRewardInfo,
    amount: u128,
) -> (r: Result<BTreeMap<u64, u128>, ContractError>)
    ensures
        split_computable(strategy_override, user_reward_info@, amount) ==> (r matches Ok(m)
            && m@ == strategy_split(store.strategy_views(), config@, strategy_override, user_reward_info@, amount)),
        !split_computable(strategy_override, user_reward_info@, amount) ==> r == Err::<BTreeMap<u64, u128>, ContractError>(ContractError::Overflow {}),
{
    let ghost strats = store.strategy_views();
    let mut strategy_to_amount: BTreeMap<u64, u128> = BTreeMap::new();
    let user_portfolio = &user_reward_info.user_portfolio;
    // when the configured fallback is inactive, rewards fall back to retain rewards
    let fallback_strategy = get_expected_strategy_or_default(store, config.fallback_strategy, 0u64);
    match strategy_override {
        None => {
            let amount_dec = match checked_decimal_from_uint128(amount) {
                Some(d) => d,
                None => return Err(ContractError::Overflow {}),
            };
            let mut surplus_amount = amount;
            let mut i: usize = 0;
            let ghost p = user_portfolio@;
            while i < user_portfolio.len()
                invariant
                    i <= p.len(),
                    p == user_portfolio@,
                    p == user_reward_info@.user_portfolio,
                    strategy_override is None,
                    strats == store.strategy_views(),
                    fallback_strategy == spec_fallback(strats, config@),
                    amount_dec.atomics == amount * DECIMAL_FRACTIONAL,
                    strategy_to_amount@ == portfolio_allocation(strats, p.take(i as int), fallback_strategy, amount),
                    surplus_amount == amount - total_deposits(p.take(i as int), amount),
                    amount * DECIMAL_FRACTIONAL <= u128::MAX,
                    forall|k: int| 0 <= k < i ==> {
                        &&& (#[trigger] p[k]).deposit_fraction * 10_000_000_000_000_000 <= u128::MAX
                        &&& p[k].deposit_fraction * amount * 10_000_000_000_000_000 <= u128::MAX
                    },
                decreases p.len() - i,
            {
                let u = user_portfolio[i];
                proof {
                    lemma_percent(u.deposit_fraction);
                }
                let fraction = match crate::math::checked_decimal_from_ratio(u.deposit_fraction, 100) {
                    Some(d) => d,
                    None => {
                        proof {
                            assert(!(p[i as int].deposit_fraction * 10_000_000_000_000_000 <= u128::MAX));
                            if split_computable(strategy_override, user_reward_info@, amount) {
                                assert(user_reward_info@.user_portfolio[i as int].deposit_fraction * 10_000_000_000_000_000 <= u128::MAX);
                            }
                        }
                        return Err(ContractError::Overflow {});
                    },
                };
                let deposit_dec = match crate::math::checked_decimal_multiplication(fraction, amount_dec) {
                    Some(d) => d,
                    None => {
                        proof {
                            lemma_deposit_value(u.deposit_fraction, amount);
                            assert(!(p[i as int].deposit_fraction * amount * 10_000_000_000_000_000 <= u128::MAX));
                            if split_computable(strategy_override, user_reward_info@, amount) {
                                assert(user_reward_info@.user_portfolio[i as int].deposit_fraction * amount * 10_000_000_000_000_000 <= u128::MAX);
                            }
                        }
                        return Err(ContractError::Overflow {});
                    },
                };
                let deposit_amount = uint128_from_decimal(deposit_dec);
                proof {
                    lemma_deposit_value(u.deposit_fraction, amount);
                    assert(deposit_amount == portfolio_deposit(u, amount));
                    assert(p.take(i as int + 1).drop_last() =~= p.take(i as int));
                    lemma_allocation_bounded(strats, p.take(i as int), fallback_strategy, amount);
                }
                let strategy_id = get_expected_strategy_or_default(store, u.strategy_id, fallback_strategy);
                let current: u128 = match strategy_to_amount.get(&strategy_id) {
                    Some(x) => *x,
                    None => 0,
                };
                if surplus_amount < deposit_amount {
                    proof {
                        lemma_total_deposits_prefix(p, amount, i as int + 1);
                        assert(!(total_deposits(p, amount) <= amount));
                    }
                    return Err(ContractError::Overflow {});
                }
                proof {
                    if strategy_to_amount@.contains_key(strategy_id) {
                        assert(portfolio_allocation(strats, p.take(i as int), fallback_strategy, amount).contains_key(strategy_id));
                    }
                }
                strategy_to_amount.insert(strategy_id, current + deposit_amount);
                surplus_amount = surplus_amount - deposit_amount;
                i = i + 1;
            }
            proof {
                assert(p.take(p.len() as int) =~= p);
                lemma_allocation_bounded(strats, p, fallback_strategy, amount);
                if strategy_to_amount@.contains_key(fallback_strategy) {
                    assert(portfolio_allocation(strats, p, fallback_strategy, amount).contains_key(fallback_strategy));
                }
            }
            let current: u128 = match strategy_to_amount.get(&fallback_strategy) {
                Some(x) => *x,
                None => 0,
            };
            // add what is left to the fallback strategy
            strategy_to_amount.insert(fallback_strategy, current + surplus_amount);
        },
        Some(strategy_override) => {
            let strategy_id = get_expected_strategy_or_default(store, strategy_override, config.fallback_strategy);
            strategy_to_amount.insert(strategy_id, amount);
            proof {
                assert(strategy_to_amount@ =~= map![strategy_id => amount]);
            }
        },
    }
    Ok(strategy_to_amount)
}

/// The strategies of a portfolio split, in the order in which the split first meets them.
pub open spec fn portfolio_order(strategies: Map<u64, StrategyInfoView>, p: Seq<UserStrategyPortfolio>, fallback: u64) -> Seq<u64>
    decreases p.len(),
{
    if p.len() == 0 {
        Seq::empty()
    } else {
        let ks = portfolio_order(strategies, p.drop_last(), fallback);
        let t = expected_strategy(strategies, p.last().strategy_id, fallback);
        if ks.contains(t) {
            ks
        } else {
            ks.push(t)
        }
    }
}

/// The strategies of `strategy_split`, in the order in which deposits are made to them: the
/// portfolio's in order of first appearance, then the fallback; or the override alone.
pub open spec fn split_order(
    strategies: Map<u64, StrategyInfoView>,
    config: ConfigView,
    strategy_override: Option<u64>,
    user: UserRewardInfoView,
) -> Seq<u64> {
    match strategy_override {
        None => {
            let fallback = spec_fallback(strategies, config);
            let ks = portfolio_order(strategies, user.user_portfolio, fallback);
            if ks.contains(fallback) {
                ks
            } else {
                ks.push(fallback)
            }
        },
        Some(o) => seq![expected_strategy(strategies, o, config.fallback_strategy)],
    }
}

/// What a split gives the strategies of `ks`, one after the other.
pub open spec fn split_total(split: Map<u64, u128>, ks: Seq<u64>) -> int
    decreases ks.len(),
{
    if ks.len() == 0 {
        0
    } else {
        split_total(split, ks.drop_last()) + map_value_or_zero(split, ks.last())
    }
}

proof fn lemma_split_total_insert(m: Map<u64, u128>, ks: Seq<u64>, t: u64, v: u128)
    requires
        ks.no_duplicates(),
    ensures
        split_total(m.insert(t, v), ks) == split_total(m, ks) + if ks.contains(t) {
            v - map_value_or_zero(m, t)
        } else {
            0
        },
    decreases ks.len(),
{
    if ks.len() > 0 {
        let init = ks.drop_last();
        assert(init.no_duplicates()) by {
            assert forall|a: int, b: int| 0 <= a < init.len() && 0 <= b < init.len() && a != b implies init[a] != init[b] by {
                assert(ks[a] != ks[b]);
            }
        }
        lemma_split_total_insert(m, init, t, v);
        if ks.last() == t {
            assert(!init.contains(t)) by {
                if init.contains(t) {
                    let a = choose|a: int| 0 <= a < init.len() && init[a] == t;
                    assert(ks[a] == ks[ks.len() - 1]);
                }
            }
            assert(ks.contains(t)) by {
                assert(ks[ks.len() - 1] == t);
            }
        } else {
            assert(ks.contains(t) == init.contains(t)) by {
                if ks.contains(t) {
                    let a = choose|a: int| 0 <= a < ks.len() && ks[a] == t;
                    assert(a < init.len());
                    assert(init[a] == t);
                }
                if init.contains(t) {
                    let a = choose|a: int| 0 <= a < init.len() && init[a] == t;
                    assert(ks[a] == t);
                }
            }
        }
    }
}

proof fn lemma_push_no_duplicates(ks: Seq<u64>, t: u64)
    requires
        ks.no_duplicates(),
        !ks.contains(t),
    ensures
        ks.push(t).no_duplicates(),
        forall|k: u64| ks.push(t).contains(k) <==> ks.contains(k) || k == t,
{
    assert forall|a: int, b: int| 0 <= a < ks.push(t).len() && 0 <= b < ks.push(t).len() && a != b implies
        ks.push(t)[a] != ks.push(t)[b] by {
        if a < ks.len() && b < ks.len() {
            assert(ks[a] != ks[b]);
        } else if a < ks.len() {
            assert(ks[a] != t);
        } else {
            assert(ks[b] != t);
        }
    }
    assert forall|k: u64| ks.push(t).contains(k) <==> ks.contains(k) || k == t by {
        if ks.push(t).contains(k) {
            let a = choose|a: int| 0 <= a < ks.push(t).len() && ks.push(t)[a] == k;
            if a < ks.len() {
                assert(ks[a] == k);
            }
        }
        if ks.contains(k) {
            let a = choose|a: int| 0 <= a < ks.len() && ks[a] == k;
            assert(ks.push(t)[a] == k);
        }
        if k == t {
            assert(ks.push(t)[ks.len() as int] == k);
        }
    }
}

proof fn lemma_portfolio_split(strategies: Map<u64, StrategyInfoView>, p: Seq<UserStrategyPortfolio>, fallback: u64, amount: u128)
    requires
        total_deposits(p, amount) <= u128::MAX,
    ensures
        portfolio_order(strategies, p, fallback).no_duplicates(),
        forall|k: u64| #[trigger] portfolio_allocation(strategies, p, fallback, amount).contains_key(k)
            <==> portfolio_order(strategies, p, fallback).contains(k),
        split_total(portfolio_allocation(strategies, p, fallback, amount), portfolio_order(strategies, p, fallback))
            == total_deposits(p, amount),
    decreases p.len(),
{
    if p.len() > 0 {
        let init = p.drop_last();
        lemma_total_deposits_nonneg(init, amount);
        assert(portfolio_deposit(p.last(), amount) >= 0) by (nonlinear_arith)
            requires p.last().deposit_fraction >= 0, amount >= 0;
        lemma_portfolio_split(strategies, init, fallback, amount);
        lemma_allocation_bounded(strategies, init, fallback, amount);
        let m = portfolio_allocation(strategies, init, fallback, amount);
        let ks = portfolio_order(strategies, init, fallback);
        let t = expected_strategy(strategies, p.last().strategy_id, fallback);
        let x: int = map_value_or_zero(m, t) + portfolio_deposit(p.last(), amount);
        assert(map_value_or_zero(m, t) <= total_deposits(init, amount));
        assert(0 <= x <= u128::MAX);
        lemma_split_total_insert(m, ks, t, x as u128);
        if ks.contains(t) {
            assert(m.contains_key(t));
        } else {
            assert(!m.contains_key(t));
            lemma_push_no_duplicates(ks, t);
            assert(ks.push(t).drop_last() =~= ks);
            assert(ks.push(t).last() == t);
            lemma_split_total_insert(m, ks, t, x as u128);
        }
    }
}

/// A split hands out exactly the amount split: the deposits of the strategies of
/// `split_order`, which names each strategy of the split once, add up to `amount`.
pub proof fn law_split_conserves_amount(
    strategies: Map<u64, StrategyInfoView>,
    config: ConfigView,
    strategy_override: Option<u64>,
    user: UserRewardInfoView,
    amount: u128,
)
    requires
        split_computable(strategy_override, user, amount),
    ensures
        split_order(strategies, config, strategy_override, user).no_duplicates(),
        forall|k: u64| #[trigger] strategy_split(strategies, config, strategy_override, user, amount).contains_key(k)
            <==> split_order(strategies, config, strategy_override, user).contains(k),
        split_total(strategy_split(strategies, config, strategy_override, user, amount),
            split_order(strategies, config, strategy_override, user)) == amount,
{
    match strategy_override {
        Some(o) => {
            let t = expected_strategy(strategies, o, config.fallback_strategy);
            let ks = seq![t];
            let m = strategy_split(strategies, config, strategy_override, user, amount);
            assert(m == map![t => amount]);
            assert(ks.drop_last() =~= Seq::<u64>::empty());
            assert(ks.last() == t);
            assert(m.contains_key(t) && m[t] == amount);
            assert(split_total(m, ks) == split_total(m, ks.drop_last()) + map_value_or_zero(m, t));
            assert forall|k: u64| #[trigger] strategy_split(strategies, config, strategy_override, user, amount).contains_key(k)
                <==> ks.contains(k) by {
                if k == t {
                    assert(ks[0] == t);
                }
            }
        },
        None => {
            let p = user.user_portfolio;
            let f = spec_fallback(strategies, config);
            lemma_portfolio_split(strategies, p, f, amount);
            lemma_allocation_bounded(strategies, p, f, amount);
            lemma_total_deposits_nonneg(p, amount);
            let m = portfolio_allocation(strategies, p, f, amount);
            let ks = portfolio_order(strategies, p, f);
            let x: int = map_value_or_zero(m, f) + amount - total_deposits(p, amount);
            assert(map_value_or_zero(m, f) <= total_deposits(p, amount));
            assert(0 <= x <= u128::MAX);
            lemma_split_total_insert(m, ks, f, x as u128);
            if ks.contains(f) {
                assert(m.contains_key(f));
            } else {
                assert(!m.contains_key(f));
                lemma_push_no_duplicates(ks, f);
                assert(ks.push(f).drop_last() =~= ks);
                assert(ks.push(f).last() == f);
            }
        },
    }
}

/// Whether `v` holds `x`.
fn contains_id(v: &Vec<u64>, x: u64) -> (r: bool)
    ensures
        r == v@.contains(x),
{
    let mut i: usize = 0;
    while i < v.len()
        invariant
            i <= v@.len(),
            forall|k: int| 0 <= k < i ==> v@[k] != x,
        decreases v@.len() - i,
    {
        if v[i] == x {
            proof {
                assert(v@[i as int] == x);
            }
            return true;
        }
        i = i + 1;
    }
    false
}

/// The order in which the strategies of a split receive their deposits (`split_order`).
pub fn strategy_split_order(
    store: &Store,
    config: &Config,
    strategy_override: Option<u64>,
    user_reward_info: &UserRewardInfo,
) -> (r: Vec<u64>)
    ensures
        r@ == split_order(store.strategy_views(), config@, strategy_override, user_reward_info@),
{
    let ghost strats = store.strategy_views();
    match strategy_override {
        Some(o) => {
            let mut r: Vec<u64> = Vec::new();
            r.push(get_expected_strategy_or_default(store, o, config.fallback_strategy));
            proof {
                assert(r@ =~= seq![expected_strategy(strats, o, config@.fallback_strategy)]);
            }
            r
        },
        None => {
            let fallback_strategy = get_expected_strategy_or_default(store, config.fallback_strategy, 0u64);
            let user_portfolio = &user_reward_info.user_portfolio;
            let ghost p = user_portfolio@;
            let mut ks: Vec<u64> = Vec::new();
            let mut i: usize = 0;
            proof {
                assert(p.take(0) =~= Seq::<UserStrategyPortfolio>::empty());
            }
            while i < user_portfolio.len()
                invariant
                    i <= p.len(),
                    p == user_portfolio@,
                    strats == store.strategy_views(),
                    ks@ == portfolio_order(strats, p.take(i as int), fallback_strategy),
                decreases p.len() - i,
            {
                proof {
                    assert(p.take(i as int + 1).drop_last() =~= p.take(i as int));
                }
                let t = get_expected_strategy_or_default(store, user_portfolio[i].strategy_id, fallback_strategy);
                if !contains_id(&ks, t) {
                    ks.push(t);
                }
                i = i + 1;
            }
            proof {
                assert(p.take(i as int) =~= p);
            }
            if !contains_id(&ks, fallback_strategy) {
                ks.push(fallback_strategy);
            }
            ks
        },
    }
}

/// Every strategy of the portfolio exists.
pub open spec fn portfolio_strategies_exist(strategies: Map<u64, StrategyInfoView>, p: Seq<UserStrategyPortfolio>) -> bool {
    forall|i: int| 0 <= i < p.len() ==> strategies.contains_key(#[trigger] p[i].strategy_id)
}

/// The sum of the deposit fractions of a portfolio.
pub open spec fn fraction_sum(p: Seq<UserStrategyPortfolio>) -> int
    decreases p.len(),
{
    if p.len() == 0 {
        0
    } else {
        fraction_sum(p.drop_last()) + p.last().deposit_fraction
    }
}

proof fn lemma_fraction_sum_prefix(p: Seq<UserStrategyPortfolio>, j: int)
    requires
        0 <= j <= p.len(),
    ensures
        0 <= fraction_sum(p.take(j)) <= fraction_sum(p),
    decreases p.len(),
{
    if j == p.len() {
        assert(p.take(j) =~= p);
        if p.len() > 0 {
            lemma_fraction_sum_prefix(p.drop_last(), 0);
        }
    } else {
        assert(p.drop_last().take(j) =~= p.take(j));
        lemma_fraction_sum_prefix(p.drop_last(), j);
    }
}

/// Checks that every strategy of a portfolio exists and that the fractions sum to at most 100.
pub fn validate_user_portfolio(store: &Store, user_portfolio: &Vec<UserStrategyPortfolio>) -> (r: Result<bool, ContractError>)
    ensures
        (r is Ok) <==> (portfolio_strategies_exist(store.strategy_views(), user_portfolio@) && fraction_sum(user_portfolio@) <= 100),
        r is Ok ==> r == Ok::<bool, ContractError>(true),
        r == Err::<bool, ContractError>(ContractError::InvalidPortfolioDepositFraction {}) <==>
            (portfolio_strategies_exist(store.strategy_views(), user_portfolio@) && 100 < fraction_sum(user_portfolio@) <= u128::MAX),
        fraction_sum(user_portfolio@) <= u128::MAX && !portfolio_strategies_exist(store.strategy_views(), user_portfolio@)
            ==> r == Err::<bool, ContractError>(ContractError::StrategyInfoDoesNotExist {}),
        r == Err::<bool, ContractError>(ContractError::StrategyInfoDoesNotExist {}) ==> !portfolio_strategies_exist(store.strategy_views(), user_portfolio@),
        r == Err::<bool, ContractError>(ContractError::Overflow {}) ==> fraction_sum(user_portfolio@) > u128::MAX,
        r is Err ==> r == Err::<bool, ContractError>(ContractError::Overflow {})
            || r == Err::<bool, ContractError>(ContractError::StrategyInfoDoesNotExist {})
            || r == Err::<bool, ContractError>(ContractError::InvalidPortfolioDepositFraction {}),
{
    let ghost p = user_portfolio@;
    let mut total_deposit_fraction: u128 = 0;
    let mut i: usize = 0;
    while i < user_portfolio.len()
        invariant
            i <= p.len(),
            p == user_portfolio@,
            total_deposit_fraction == fraction_sum(p.take(i as int)),
            forall|k: int| 0 <= k < i ==> store.strategy_views().contains_key(#[trigger] p[k].strategy_id),
        decreases p.len() - i,
    {
        let u = user_portfolio[i];
        proof {
            assert(p.take(i as int + 1).drop_last() =~= p.take(i as int));
            lemma_fraction_sum_prefix(p, i as int + 1);
        }
        if store.strategy(u.strategy_id).is_none() {
            proof {
                lemma_fraction_sum_prefix(p, i as int);
                if fraction_sum(p) <= u128::MAX {
                    assert(!store.strategy_views().contains_key(p[i as int].strategy_id));
                }
            }
            return Err(ContractError::StrategyInfoDoesNotExist {});
        }
        total_deposit_fraction = match total_deposit_fraction.checked_add(u.deposit_fraction) {
            Some(v) => v,
            None => return Err(ContractError::Overflow {}),
        };
        i = i + 1;
    }
    proof {
        assert(p.take(p.len() as int) =~= p);
    }
    if total_deposit_fraction > 100 {
        return Err(ContractError::InvalidPortfolioDepositFraction {});
    }
    Ok(true)
}

/// How many tokens `total_shares` are worth at a shares-per-token ratio (floored).
pub open spec fn staked_amount(shares_per_token_ratio: Decimal, total_shares: Decimal) -> int {
    spec_div(total_shares, shares_per_token_ratio) / (DECIMAL_FRACTIONAL as int)
}

/// How many tokens `total_shares` are worth at a shares-per-token ratio.
pub fn get_staked_amount(shares_per_token_ratio: Decimal, total_shares: Decimal) -> (r: u128)
    requires
        shares_per_token_ratio.atomics > 0,
        spec_div(total_shares, shares_per_token_ratio) <= u128::MAX,
    ensures
        r == staked_amount(shares_per_token_ratio, total_shares),
{
    uint128_from_decimal(decimal_division_in_256(total_shares, shares_per_token_ratio))
}

/// Like `get_staked_amount`, or `None` at a zero ratio or when the quotient leaves 128 bits.
pub fn checked_get_staked_amount(shares_per_token_ratio: Decimal, total_shares: Decimal) -> (r: Option<u128>)
    ensures
        (shares_per_token_ratio.atomics > 0 && spec_div(total_shares, shares_per_token_ratio) <= u128::MAX)
            ==> r == Some(staked_amount(shares_per_token_ratio, total_shares) as u128),
        !(shares_per_token_ratio.atomics > 0 && spec_div(total_shares, shares_per_token_ratio) <= u128::MAX)
            ==> r is None,
{
    if shares_per_token_ratio.atomics == 0 {
        return None;
    }
    match checked_decimal_division(total_shares, shares_per_token_ratio) {
        Some(d) => Some(uint128_from_decimal(d)),
        None => None,
    }
}

/// The shares-per-token ratio of a strategy whose SIC holds `total_sic_tokens`: total shares over
/// total tokens, or the default of 10 when either is zero.
pub open spec fn shares_per_token_ratio(total_sic_tokens: u128, total_shares: Decimal) -> Decimal {
    if total_sic_tokens == 0 || total_shares.atomics == 0 {
        Decimal { atomics: (10 * DECIMAL_FRACTIONAL) as u128 }
    } else {
        Decimal {
            atomics: (total_shares.atomics * DECIMAL_FRACTIONAL / (total_sic_tokens * DECIMAL_FRACTIONAL)) as u128,
        }
    }
}

/// What the SIC's answer to the total-tokens query amounts to: its total tokens, zero when it
/// has none to report.
pub open spec fn reported_tokens(total_tokens: Option<u128>) -> u128 {
    match total_tokens {
        Some(t) => t,
        None => 0,
    }
}

/// The shares-per-token ratio of a strategy, given what its SIC answered to the total-tokens
/// query (`Err` when the query failed). `Err(SICFailedToReturnResult)` when the query failed,
/// `Err(Overflow)` when the tokens do not fit in a decimal.
pub fn get_strategy_shares_per_token_ratio(
    total_tokens_response: Result<Option<u128>, ()>,
    strategy_info: &StrategyInfo,
) -> (r: Result<Decimal, ContractError>)
    ensures
        match total_tokens_response {
            Err(_) => r == Err::<Decimal, ContractError>(ContractError::SICFailedToReturnResult {}),
            Ok(t) => {
                let tokens = reported_tokens(t);
                if tokens != 0 && strategy_info.total_shares.atomics != 0 && tokens * DECIMAL_FRACTIONAL > u128::MAX {
                    r == Err::<Decimal, ContractError>(ContractError::Overflow {})
                } else {
                    r == Ok::<Decimal, ContractError>(shares_per_token_ratio(tokens, strategy_info.total_shares))
                }
            },
        },
{
    let total_sic_tokens = match total_tokens_response {
        Err(_) => return Err(ContractError::SICFailedToReturnResult {}),
        Ok(t) => match t {
            Some(v) => v,
            None => 0,
        },
    };
    let total_strategy_shares = strategy_info.total_shares;
    if total_sic_tokens == 0 || total_strategy_shares.is_zero() {
        return Ok(get_default_s_t_ratio());
    }
    let tokens = match checked_decimal_from_uint128(total_sic_tokens) {
        Some(d) => d,
        None => return Err(ContractError::Overflow {}),
    };
    proof {
        assert(total_strategy_shares.atomics * DECIMAL_FRACTIONAL / (total_sic_tokens * DECIMAL_FRACTIONAL)
            <= total_strategy_shares.atomics) by (nonlinear_arith)
            requires
                total_sic_tokens >= 1,
                total_strategy_shares.atomics >= 0,
                DECIMAL_FRACTIONAL > 0;
    }
    Ok(decimal_division_in_256(total_strategy_shares, tokens))
}

} // verus!
