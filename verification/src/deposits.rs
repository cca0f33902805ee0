//! Depositing users' rewards into strategies: each deposit buys shares of a strategy at its
//! shares-per-token ratio, and the rewards are sent on to the strategies' SICs.
//!
//! The specification below follows the pending airdrops of a user as the concatenation of
//! everything added to them, and relates a held store to such a specification store by
//! `same_store`: equal but for the pending airdrops, which hold that concatenation merged into
//! nothing: every denomination once, in the order it first came, with its total amount.

use std::collections::BTreeMap;
use vstd::prelude::*;
use crate::airdrops::base_user;
use crate::coins::{Coin, Operation, apply_op, coin_amount, coin_entries, coins_have, coins_unique, entry_amount,
    lemma_coin_entries_concat, lemma_merge_entries_amounts, lemma_merge_entries_concat, lemma_merge_entries_into_empty,
    merge_entries, merge_in_range};
use crate::env::SicAnswers;
use crate::error::ContractError;
use crate::helpers::{get_strategy_shares_per_token_ratio, get_strategy_split, law_split_conserves_amount,
    map_value_or_zero, reported_tokens, shares_per_token_ratio, split_computable, split_order, split_total,
    strategy_split, strategy_split_order};
use crate::math::{checked_decimal_from_uint128, checked_decimal_multiplication, checked_decimal_summation,
    spec_mul, Decimal, DECIMAL_FRACTIONAL};
use crate::msg::{attr, attr_addresses, attr_ids, is_addresses_attr, is_ids_attr, is_text_attr, ContractMsg,
    Response, UpdateUserRewardsRequest};
use crate::state::{clone_portfolio, StateView, StrategyInfoView, UserRewardInfo, UserRewardInfoView,
    UserStrategyInfo, UserStrategyInfoView};
use crate::store::{Store, StoreView};
use crate::user::{airdrops_collectable, collect_user_airdrops, find_user_strategy, has_strategy_entry,
    strategy_entry_index, user_airdrops_seq};

verus! {

broadcast use vstd::std_specs::btree::group_btree_axioms;

/// The held coins are the coins of `spec` added one after the other to nothing: every
/// denomination once, in the order it first comes in `spec`, with its total amount.
pub open spec fn same_coins(held: Seq<Coin>, spec: Seq<Coin>) -> bool {
    coin_entries(held) == merge_entries(Seq::empty(), coin_entries(spec), Operation::Add)
}

/// Two user records are equal but for the pending airdrops, which `same_coins` relates.
pub open spec fn same_user(a: UserRewardInfoView, b: UserRewardInfoView) -> bool {
    &&& a.user_portfolio == b.user_portfolio
    &&& a.strategies == b.strategies
    &&& a.undelegation_records == b.undelegation_records
    &&& a.pending_rewards == b.pending_rewards
    &&& same_coins(a.pending_airdrops, b.pending_airdrops)
}

/// Two stores are equal but for the users' pending airdrops, which `same_coins` relates.
pub open spec fn same_store(a: StoreView, b: StoreView) -> bool {
    &&& a.state == b.state
    &&& a.config == b.config
    &&& a.strategies == b.strategies
    &&& a.registry == b.registry
    &&& a.batches == b.batches
    &&& a.users.dom() == b.users.dom()
    &&& forall|k: Seq<char>| #[trigger] a.users.contains_key(k) ==> same_user(a.users[k], b.users[k])
}

/// What depositing rewards reports and keeps along the way: the strategies not found, the
/// strategies whose SIC did not answer, the users who deposited nothing, what each SIC
/// receives (in order of the first deposit to it), the shares-per-token ratio fetched for each
/// strategy, and the rewards retained in the contract.
pub struct DepositLog {
    pub failed_strategies: Seq<u64>,
    pub failed_sics: Seq<u64>,
    pub users_with_zero_deposits: Seq<String>,
    pub funds: Seq<(String, u128)>,
    pub ratios: Map<u64, Decimal>,
    pub total_surplus: int,
}

pub open spec fn empty_deposit_log() -> DepositLog {
    DepositLog {
        failed_strategies: Seq::empty(),
        failed_sics: Seq::empty(),
        users_with_zero_deposits: Seq::empty(),
        funds: Seq::empty(),
        ratios: Map::empty(),
        total_surplus: 0,
    }
}

pub open spec fn sic_has(funds: Seq<(String, u128)>, sic: Seq<char>) -> bool {
    exists|i: int| 0 <= i < funds.len() && #[trigger] funds[i].0@ == sic
}

pub open spec fn sic_index(funds: Seq<(String, u128)>, sic: Seq<char>) -> int {
    choose|i: int| 0 <= i < funds.len() && #[trigger] funds[i].0@ == sic
}

/// No SIC occurs twice.
pub open spec fn sics_unique(funds: Seq<(String, u128)>) -> bool {
    forall|i: int, j: int| 0 <= i < j < funds.len() ==> #[trigger] funds[i].0@ != #[trigger] funds[j].0@
}

/// The funds with `amount` more for `sic`; `None` where that leaves 128 bits.
pub open spec fn add_sic_funds(funds: Seq<(String, u128)>, sic: String, amount: u128) -> Option<Seq<(String, u128)>> {
    if sic_has(funds, sic@) {
        let i = sic_index(funds, sic@);
        if funds[i].1 + amount > u128::MAX {
            None
        } else {
            Some(funds.update(i, (funds[i].0, (funds[i].1 + amount) as u128)))
        }
    } else {
        Some(funds.push((sic, amount)))
    }
}

/// The position a user takes in a strategy the first time they deposit into it.
pub open spec fn new_entry(id: u64) -> UserStrategyInfoView {
    UserStrategyInfoView { strategy_id: id, shares: Decimal { atomics: 0 }, airdrop_pointer: Seq::empty() }
}

/// The user with a position in `id`, added at the end where there is none.
pub open spec fn with_entry(u: UserRewardInfoView, id: u64) -> UserRewardInfoView {
    if has_strategy_entry(u, id) {
        u
    } else {
        UserRewardInfoView { strategies: u.strategies.push(new_entry(id)), ..u }
    }
}

pub open spec fn entry_index(u: UserRewardInfoView, id: u64) -> int {
    if has_strategy_entry(u, id) {
        strategy_entry_index(u, id)
    } else {
        u.strategies.len() as int
    }
}

/// The ratio at which strategy `id` takes deposits: the one fetched earlier in the request, or
/// the one its SIC's answer gives.
pub open spec fn deposit_ratio(st: StrategyInfoView, log: DepositLog, id: u64, tokens: Map<u64, Option<u128>>) -> Result<Decimal, ContractError> {
    if log.ratios.contains_key(id) {
        Ok(log.ratios[id])
    } else {
        let t = reported_tokens(tokens[id]);
        if t != 0 && st.total_shares.atomics != 0 && t * DECIMAL_FRACTIONAL > u128::MAX {
            Err(ContractError::Overflow {})
        } else {
            Ok(shares_per_token_ratio(t, st.total_shares))
        }
    }
}

/// Depositing `amount` of user `u`'s rewards into strategy `id`. Nothing happens for a zero
/// amount. Strategy 0 retains the rewards in the contract: they go to the user's pending
/// rewards. A missing strategy is logged, and so is one whose ratio is not fetched yet and whose
/// SIC did not answer; nothing is deposited into them. Otherwise the user's position in the
/// strategy (a new one where there is none) collects its airdrops, and buys the shares that the amount is worth
/// at the strategy's ratio; the strategy's total shares grow by as much, and the amount is
/// owed to the strategy's SIC. `Err(Overflow)` where a step has no result in range.
pub open spec fn deposit_into(
    strategies: Map<u64, StrategyInfoView>,
    u: UserRewardInfoView,
    log: DepositLog,
    id: u64,
    amount: u128,
    tokens: Map<u64, Option<u128>>,
) -> Result<(Map<u64, StrategyInfoView>, UserRewardInfoView, DepositLog), ContractError> {
    if amount == 0 {
        Ok((strategies, u, log))
    } else if id == 0 {
        if u.pending_rewards + amount > u128::MAX || log.total_surplus + amount > u128::MAX {
            Err(ContractError::Overflow {})
        } else {
            Ok((strategies, UserRewardInfoView { pending_rewards: (u.pending_rewards + amount) as u128, ..u },
                DepositLog { total_surplus: log.total_surplus + amount, ..log }))
        }
    } else if !strategies.contains_key(id) {
        Ok((strategies, u, DepositLog { failed_strategies: log.failed_strategies.push(id), ..log }))
    } else if !log.ratios.contains_key(id) && !tokens.contains_key(id) {
        Ok((strategies, u, DepositLog { failed_sics: log.failed_sics.push(id), ..log }))
    } else {
        let st = strategies[id];
        match deposit_ratio(st, log, id, tokens) {
            Err(e) => Err(e),
            Ok(ratio) => {
                let st1 = if log.ratios.contains_key(id) { st } else { StrategyInfoView { shares_per_token_ratio: ratio, ..st } };
                let u1 = with_entry(u, id);
                let j = entry_index(u, id);
                let e = u1.strategies[j];
                let g = st.global_airdrop_pointer;
                let amount_dec = Decimal { atomics: (amount * DECIMAL_FRACTIONAL) as u128 };
                let user_shares = spec_mul(ratio, amount_dec);
                if !airdrops_collectable(u1, j, g) || amount * DECIMAL_FRACTIONAL > u128::MAX || user_shares > u128::MAX
                    || e.shares.atomics + user_shares > u128::MAX || st.total_shares.atomics + user_shares > u128::MAX
                    || add_sic_funds(log.funds, st.sic_contract_address, amount) is None {
                    Err(ContractError::Overflow {})
                } else {
                    Ok((
                        strategies.insert(id, StrategyInfoView {
                            total_shares: Decimal { atomics: (st.total_shares.atomics + user_shares) as u128 },
                            ..st1
                        }),
                        UserRewardInfoView {
                            strategies: u1.strategies.update(j, UserStrategyInfoView {
                                shares: Decimal { atomics: (e.shares.atomics + user_shares) as u128 },
                                airdrop_pointer: g,
                                ..e
                            }),
                            pending_airdrops: u1.pending_airdrops + user_airdrops_seq(g, e.airdrop_pointer, e.shares),
                            ..u1
                        },
                        DepositLog {
                            funds: add_sic_funds(log.funds, st.sic_contract_address, amount)->Some_0,
                            ratios: log.ratios.insert(id, ratio),
                            ..log
                        },
                    ))
                }
            },
        }
    }
}

/// The deposits of a split, in the order `ks`.
pub open spec fn deposit_walk(
    strategies: Map<u64, StrategyInfoView>,
    u: UserRewardInfoView,
    log: DepositLog,
    ks: Seq<u64>,
    split: Map<u64, u128>,
    tokens: Map<u64, Option<u128>>,
) -> Result<(Map<u64, StrategyInfoView>, UserRewardInfoView, DepositLog), ContractError>
    decreases ks.len(),
{
    if ks.len() == 0 {
        Ok((strategies, u, log))
    } else {
        match deposit_into(strategies, u, log, ks[0], map_value_or_zero(split, ks[0]) as u128, tokens) {
            Err(e) => Err(e),
            Ok((s1, u1, l1)) => deposit_walk(s1, u1, l1, ks.subrange(1, ks.len() as int), split, tokens),
        }
    }
}

/// One request: a zero deposit is logged; otherwise the funds are split among strategies
/// (`strategy_split`, `Err(Overflow)` where it cannot be computed) and deposited, from the
/// user's record or, for a new user, from a record with the default portfolio.
pub open spec fn rewards_request_step(
    s: StoreView,
    log: DepositLog,
    req: UpdateUserRewardsRequest,
    tokens: Map<u64, Option<u128>>,
) -> Result<(StoreView, DepositLog), ContractError> {
    if req.funds == 0 {
        Ok((s, DepositLog { users_with_zero_deposits: log.users_with_zero_deposits.push(req.user), ..log }))
    } else {
        let u = base_user(s, req.user@);
        if !split_computable(req.strategy_id, u, req.funds) {
            Err(ContractError::Overflow {})
        } else {
            let split = strategy_split(s.strategies, s.config, req.strategy_id, u, req.funds);
            let ks = split_order(s.strategies, s.config, req.strategy_id, u);
            match deposit_walk(s.strategies, u, log, ks, split, tokens) {
                Err(e) => Err(e),
                Ok((st1, u1, l1)) => Ok((StoreView { strategies: st1, users: s.users.insert(req.user@, u1), ..s }, l1)),
            }
        }
    }
}

/// The requests handled one after the other.
pub open spec fn rewards_run(
    s: StoreView,
    log: DepositLog,
    reqs: Seq<UpdateUserRewardsRequest>,
    tokens: Map<u64, Option<u128>>,
) -> Result<(StoreView, DepositLog), ContractError>
    decreases reqs.len(),
{
    if reqs.len() == 0 {
        Ok((s, log))
    } else {
        match rewards_request_step(s, log, reqs[0], tokens) {
            Err(e) => Err(e),
            Ok((s1, l1)) => rewards_run(s1, l1, reqs.subrange(1, reqs.len() as int), tokens),
        }
    }
}

/// The transfer of what each SIC receives, in the contract's denomination.
pub open spec fn funds_msgs(funds: Seq<(String, u128)>, denom: String) -> Seq<ContractMsg> {
    funds.map_values(|f: (String, u128)| ContractMsg::SicTransferRewards {
        sic_contract_address: f.0,
        funds: Coin { denom, amount: f.1 },
    })
}

/// Held coins hold the amount of every denomination that the specification's coins hold.
pub proof fn lemma_same_coins_amounts(held: Seq<Coin>, spec: Seq<Coin>, d: Seq<char>)
    requires
        same_coins(held, spec),
    ensures
        coin_amount(held, d) == coin_amount(spec, d),
        coins_have(held, d) <==> coins_have(spec, d),
{
    lemma_merge_entries_amounts(Seq::empty(), coin_entries(spec), Operation::Add, d);
    assert(entry_amount(Seq::<(Seq<char>, int)>::empty(), d) == 0);
}

/// Coins without repeated denominations are related to themselves.
pub proof fn lemma_same_coins_itself(c: Seq<Coin>)
    requires
        coins_unique(c),
    ensures
        same_coins(c, c),
{
    lemma_merge_entries_into_empty(coin_entries(c));
}

/// A fund added to held coins is added at the end of the specification's coins.
pub proof fn lemma_same_coins_merge(held: Seq<Coin>, spec: Seq<Coin>, fund: Seq<Coin>, held_after: Seq<Coin>)
    requires
        same_coins(held, spec),
        coin_entries(held_after) == merge_entries(coin_entries(held), coin_entries(fund), Operation::Add),
    ensures
        same_coins(held_after, spec + fund),
{
    lemma_coin_entries_concat(spec, fund);
    lemma_merge_entries_concat(Seq::empty(), coin_entries(spec), coin_entries(fund), Operation::Add);
}

/// Whether adding a fund stays in range depends only on the amounts held.
pub proof fn lemma_same_coins_in_range(held: Seq<Coin>, spec: Seq<Coin>, fund: Seq<Coin>)
    requires
        same_coins(held, spec),
    ensures
        merge_in_range(coin_entries(held), coin_entries(fund), Operation::Add)
            <==> merge_in_range(coin_entries(spec), coin_entries(fund), Operation::Add),
{
    let h = coin_entries(held);
    let c = coin_entries(spec);
    let f = coin_entries(fund);
    if merge_in_range(h, f, Operation::Add) {
        assert forall|d: Seq<char>| 0 <= #[trigger] apply_op(entry_amount(c, d), entry_amount(f, d), Operation::Add) <= u128::MAX by {
            lemma_same_coins_amounts(held, spec, d);
            assert(0 <= apply_op(entry_amount(h, d), entry_amount(f, d), Operation::Add) <= u128::MAX);
        }
    }
    if merge_in_range(c, f, Operation::Add) {
        assert forall|d: Seq<char>| 0 <= #[trigger] apply_op(entry_amount(h, d), entry_amount(f, d), Operation::Add) <= u128::MAX by {
            lemma_same_coins_amounts(held, spec, d);
            assert(0 <= apply_op(entry_amount(c, d), entry_amount(f, d), Operation::Add) <= u128::MAX);
        }
    }
}

/// A well-formed store is related to itself.
pub proof fn lemma_same_store_itself(s: StoreView)
    requires
        forall|k: Seq<char>| #[trigger] s.users.contains_key(k) ==> s.users[k].wf(),
    ensures
        same_store(s, s),
{
    assert forall|k: Seq<char>| #[trigger] s.users.contains_key(k) implies same_user(s.users[k], s.users[k]) by {
        lemma_same_coins_itself(s.users[k].pending_airdrops);
    }
}

/// The lists that depositing builds.
pub struct DepositLists {
    pub failed_strategies: Vec<u64>,
    pub failed_sics: Vec<u64>,
    pub users_with_zero_deposits: Vec<String>,
    pub funds: Vec<(String, u128)>,
    pub ratios: BTreeMap<u64, Decimal>,
    pub total_surplus: u128,
}

impl View for DepositLists {
    type V = DepositLog;

    open spec fn view(&self) -> DepositLog {
        DepositLog {
            failed_strategies: self.failed_strategies@,
            failed_sics: self.failed_sics@,
            users_with_zero_deposits: self.users_with_zero_deposits@,
            funds: self.funds@,
            ratios: self.ratios@,
            total_surplus: self.total_surplus as int,
        }
    }
}

/// Adds `amount` to what `sic` receives; `false` where that leaves 128 bits.
fn add_funds(funds: &mut Vec<(String, u128)>, sic: &String, amount: u128) -> (r: bool)
    requires
        sics_unique(old(funds)@),
    ensures
        r == add_sic_funds(old(funds)@, *sic, amount) is Some,
        r ==> final(funds)@ == add_sic_funds(old(funds)@, *sic, amount)->Some_0 && sics_unique(final(funds)@),
{
    let ghost f = funds@;
    let mut i: usize = 0;
    while i < funds.len()
        invariant
            i <= f.len(),
            f == funds@,
            f == old(funds)@,
            sics_unique(f),
            forall|k: int| 0 <= k < i ==> f[k].0@ != sic@,
        decreases f.len() - i,
    {
        if funds[i].0 == *sic {
            proof {
                assert(f[i as int].0@ == sic@);
                assert(sic_has(f, sic@));
                let c = sic_index(f, sic@);
                if c != i {
                    if c < i {
                        assert(f[c].0@ != sic@);
                    } else {
                        assert(f[i as int].0@ != f[c].0@);
                    }
                }
            }
            let current = funds[i].1;
            let total = match current.checked_add(amount) {
                Some(t) => t,
                None => return false,
            };
            let name = funds[i].0.clone();
            funds.set(i, (name, total));
            proof {
                assert forall|a: int, b: int| 0 <= a < b < funds@.len() implies
                    #[trigger] funds@[a].0@ != #[trigger] funds@[b].0@ by {
                    assert(f[a].0@ != f[b].0@);
                }
            }
            return true;
        }
        i = i + 1;
    }
    proof {
        if sic_has(f, sic@) {
            let k = choose|k: int| 0 <= k < f.len() && #[trigger] f[k].0@ == sic@;
            assert(f[k].0@ != sic@);
        }
    }
    funds.push((sic.clone(), amount));
    proof {
        assert forall|a: int, b: int| 0 <= a < b < funds@.len() implies
            #[trigger] funds@[a].0@ != #[trigger] funds@[b].0@ by {
            if b < f.len() {
                assert(f[a].0@ != f[b].0@);
            } else {
                assert(f[a].0@ != sic@);
            }
        }
    }
    true
}

impl Store {
    /// One step of `deposit_walk`, on the user taken out of the store; `su` is the user as the
    /// specification follows it.
    fn deposit_into_strategy(
        &mut self,
        user: &mut UserRewardInfo,
        lists: &mut DepositLists,
        id: u64,
        amount: u128,
        answers: &SicAnswers,
        Ghost(su): Ghost<UserRewardInfoView>,
    ) -> (r: Result<(), ContractError>)
        requires
            old(self).wf(),
            old(user)@.wf(),
            same_user(old(user)@, su),
            sics_unique(old(lists)@.funds),
        ensures
            match deposit_into(old(self)@.strategies, su, old(lists)@, id, amount, answers.total_tokens@) {
                Ok((st1, su1, l1)) => {
                    &&& r is Ok
                    &&& final(self)@ == (StoreView { strategies: st1, ..old(self)@ })
                    &&& same_user(final(user)@, su1)
                    &&& final(lists)@ == l1
                    &&& final(self).wf()
                    &&& final(user)@.wf()
                    &&& sics_unique(final(lists)@.funds)
                },
                Err(e) => r == Err::<(), ContractError>(e),
            },
    {
        let ghost s = self@;
        if amount == 0 {
            return Ok(());
        }
        if id == 0 {
            // retained in the contract
            let pending = match user.pending_rewards.checked_add(amount) {
                Some(p) => p,
                None => return Err(ContractError::Overflow {}),
            };
            let surplus = match lists.total_surplus.checked_add(amount) {
                Some(t) => t,
                None => return Err(ContractError::Overflow {}),
            };
            user.pending_rewards = pending;
            lists.total_surplus = surplus;
            return Ok(());
        }
        let mut strategy_info = match self.strategy(id) {
            Some(st) => st.clone(),
            None => {
                lists.failed_strategies.push(id);
                return Ok(());
            },
        };
        let ghost st = strategy_info@;
        proof {
            assert(s.strategies.contains_key(id));
            assert(st.wf());
        }
        let ratio = match lists.ratios.get(&id) {
            Some(r) => *r,
            None => {
                let answer = answers.total_tokens_of(id);
                if answer.is_err() {
                    // the SIC did not answer: nothing is deposited into this strategy
                    lists.failed_sics.push(id);
                    return Ok(());
                }
                let r = match get_strategy_shares_per_token_ratio(answer, &strategy_info) {
                    Ok(r) => r,
                    Err(e) => return Err(e),
                };
                strategy_info.shares_per_token_ratio = r;
                r
            },
        };
        lists.ratios.insert(id, ratio);
        let ghost u_before = user@;
        let j = match find_user_strategy(user, id) {
            Some(j) => j,
            None => {
                user.strategies.push(UserStrategyInfo::new(id, Vec::new()));
                proof {
                    assert(user@.strategies =~= u_before.strategies.push(new_entry(id)));
                    assert forall|a: int, b: int| 0 <= a < b < user@.strategies.len() implies
                        #[trigger] user@.strategies[a].strategy_id != #[trigger] user@.strategies[b].strategy_id by {
                        if b == u_before.strategies.len() {
                            assert(u_before.strategies[a].strategy_id != id);
                        }
                    }
                    assert forall|a: int| 0 <= a < user@.strategies.len() implies
                        crate::coins::dec_coins_unique(#[trigger] user@.strategies[a].airdrop_pointer) by {
                        if a == u_before.strategies.len() {
                            assert(user@.strategies[a].airdrop_pointer =~= Seq::<crate::coins::DecCoin>::empty());
                        }
                    }
                }
                user.strategies.len() - 1
            },
        };
        let ghost u1 = user@;
        let ghost su1 = with_entry(su, id);
        proof {
            assert(has_strategy_entry(u_before, id) == has_strategy_entry(su, id));
            assert(strategy_entry_index(u_before, id) == strategy_entry_index(su, id));
            assert(same_user(u1, su1));
            assert(j as int == entry_index(su, id));
            assert(user.strategies@.len() == u1.strategies.len());
            lemma_same_coins_in_range(u1.pending_airdrops, su1.pending_airdrops,
                user_airdrops_seq(st.global_airdrop_pointer, u1.strategies[j as int].airdrop_pointer, u1.strategies[j as int].shares));
            assert(airdrops_collectable(u1, j as int, st.global_airdrop_pointer) == airdrops_collectable(su1, j as int, st.global_airdrop_pointer));
        }
        match collect_user_airdrops(user, j, &strategy_info.global_airdrop_pointer) {
            Ok(()) => {},
            Err(e) => return Err(e),
        }
        let ghost u2 = user@;
        proof {
            lemma_same_coins_merge(u1.pending_airdrops, su1.pending_airdrops,
                user_airdrops_seq(st.global_airdrop_pointer, u1.strategies[j as int].airdrop_pointer, u1.strategies[j as int].shares),
                u2.pending_airdrops);
            assert(user.strategies@.len() == u2.strategies.len());
            assert(u2.strategies[j as int].shares == u1.strategies[j as int].shares);
        }
        let amount_dec = match checked_decimal_from_uint128(amount) {
            Some(d) => d,
            None => return Err(ContractError::Overflow {}),
        };
        let user_shares = match checked_decimal_multiplication(ratio, amount_dec) {
            Some(d) => d,
            None => return Err(ContractError::Overflow {}),
        };
        let entry_shares = match checked_decimal_summation(user.strategies[j].shares, user_shares) {
            Some(d) => d,
            None => return Err(ContractError::Overflow {}),
        };
        let total_shares = match checked_decimal_summation(strategy_info.total_shares, user_shares) {
            Some(d) => d,
            None => return Err(ContractError::Overflow {}),
        };
        if !add_funds(&mut lists.funds, &strategy_info.sic_contract_address, amount) {
            return Err(ContractError::Overflow {});
        }
        let mut entries: Vec<UserStrategyInfo> = Vec::new();
        std::mem::swap(&mut entries, &mut user.strategies);
        let ghost old_entries = entries@;
        let mut entry = entries.remove(j);
        entry.shares = entry_shares;
        let ghost new_entry_view = entry@;
        entries.insert(j, entry);
        proof {
            assert(entries@.map_values(|x: UserStrategyInfo| x@)
                =~= old_entries.map_values(|x: UserStrategyInfo| x@).update(j as int, new_entry_view));
        }
        user.strategies = entries;
        strategy_info.total_shares = total_shares;
        let ghost new_st = strategy_info@;
        self.put_strategy(id, strategy_info);
        proof {
            assert(self.strategy_views() =~= s.strategies.insert(id, new_st));
            assert forall|a: int, b: int| 0 <= a < b < user@.strategies.len() implies
                #[trigger] user@.strategies[a].strategy_id != #[trigger] user@.strategies[b].strategy_id by {
                assert(u2.strategies[a].strategy_id != u2.strategies[b].strategy_id);
            }
            assert forall|a: int| 0 <= a < user@.strategies.len() implies
                crate::coins::dec_coins_unique(#[trigger] user@.strategies[a].airdrop_pointer) by {
                assert(crate::coins::dec_coins_unique(u2.strategies[a].airdrop_pointer));
            }
            assert forall|k: u64| #[trigger] self.strategy_views().contains_key(k) implies self.strategy_views()[k].wf() by {
                if k != id {
                    assert(s.strategies.contains_key(k));
                }
            }
            let res = deposit_into(s.strategies, su, old(lists)@, id, amount, answers.total_tokens@);
            assert(res is Ok);
            let (st1, sv1, l1) = res->Ok_0;
            assert(self@ == (StoreView { strategies: st1, ..s }));
            assert(lists@ == l1);
            let e = su1.strategies[j as int];
            assert(user@.strategies =~= su1.strategies.update(j as int, UserStrategyInfoView {
                shares: Decimal { atomics: (e.shares.atomics + user_shares.atomics) as u128 },
                airdrop_pointer: st.global_airdrop_pointer,
                ..e
            }));
            assert(user@.pending_airdrops == u2.pending_airdrops);
            assert(same_user(user@, sv1));
        }
        Ok(())
    }

    /// One step of `rewards_run`; `ss` is the store as the specification follows it.
    fn apply_rewards_request(
        &mut self,
        req: &UpdateUserRewardsRequest,
        lists: &mut DepositLists,
        answers: &SicAnswers,
        Ghost(ss): Ghost<StoreView>,
    ) -> (r: Result<(), ContractError>)
        requires
            old(self).wf(),
            same_store(old(self)@, ss),
            sics_unique(old(lists)@.funds),
        ensures
            match rewards_request_step(ss, old(lists)@, *req, answers.total_tokens@) {
                Ok((ss1, l1)) => {
                    &&& r is Ok
                    &&& same_store(final(self)@, ss1)
                    &&& final(lists)@ == l1
                    &&& final(self).wf()
                    &&& sics_unique(final(lists)@.funds)
                },
                Err(e) => r == Err::<(), ContractError>(e),
            },
    {
        let ghost s = self@;
        if req.funds == 0 {
            lists.users_with_zero_deposits.push(req.user.clone());
            return Ok(());
        }
        let mut user = match self.users.take(&req.user) {
            Some(u) => u,
            None => UserRewardInfo::new(clone_portfolio(&self.config.default_user_portfolio)),
        };
        let ghost su0 = base_user(ss, req.user@);
        proof {
            if s.users.contains_key(req.user@) {
                assert(ss.users.contains_key(req.user@));
                assert(user@.wf());
            } else {
                assert(!ss.users.contains_key(req.user@));
                assert(user@.strategies =~= Seq::<UserStrategyInfoView>::empty());
                lemma_same_coins_itself(user@.pending_airdrops);
            }
            assert(same_user(user@, su0));
        }
        let ghost s_taken = self@;
        let split = match get_strategy_split(self, &self.config, req.strategy_id, &user, req.funds) {
            Ok(m) => m,
            Err(e) => return Err(e),
        };
        let order = strategy_split_order(self, &self.config, req.strategy_id, &user);
        let ghost ks = order@;
        let ghost m = split@;
        proof {
            assert(self.strategy_views() == ss.strategies);
            assert(m == strategy_split(ss.strategies, ss.config, req.strategy_id, su0, req.funds));
            assert(ks == split_order(ss.strategies, ss.config, req.strategy_id, su0));
            assert(ks.subrange(0, ks.len() as int) =~= ks);
        }
        let ghost mut su = su0;
        let mut k: usize = 0;
        while k < order.len()
            invariant
                k <= ks.len(),
                ks == order@,
                m == split@,
                req.funds != 0,
                su0 == base_user(ss, req.user@),
                split_computable(req.strategy_id, su0, req.funds),
                m == strategy_split(ss.strategies, ss.config, req.strategy_id, su0, req.funds),
                ks == split_order(ss.strategies, ss.config, req.strategy_id, su0),
                self.wf(),
                user@.wf(),
                same_user(user@, su),
                sics_unique(lists@.funds),
                self@ == (StoreView { strategies: self@.strategies, ..s_taken }),
                deposit_walk(ss.strategies, su0, old(lists)@, ks, m, answers.total_tokens@)
                    == deposit_walk(self@.strategies, su, lists@, ks.subrange(k as int, ks.len() as int), m, answers.total_tokens@),
            decreases ks.len() - k,
        {
            let id = order[k];
            let amount: u128 = match split.get(&id) {
                Some(a) => *a,
                None => 0,
            };
            let ghost rest = ks.subrange(k as int, ks.len() as int);
            proof {
                assert(rest[0] == id);
                assert(amount as int == map_value_or_zero(m, id));
                assert(rest.subrange(1, rest.len() as int) =~= ks.subrange(k + 1, ks.len() as int));
            }
            let ghost before = self@;
            let ghost lists_before = lists@;
            match self.deposit_into_strategy(&mut user, lists, id, amount, answers, Ghost(su)) {
                Ok(()) => {},
                Err(e) => return Err(e),
            }
            proof {
                su = deposit_into(before.strategies, su, lists_before, id, amount, answers.total_tokens@)->Ok_0.1;
            }
            k = k + 1;
        }
        proof {
            assert(ks.subrange(k as int, ks.len() as int).len() == 0);
        }
        let ghost u_final = user@;
        self.users.insert(req.user.clone(), user);
        proof {
            let ss1 = StoreView { strategies: s_taken.strategies, users: ss.users.insert(req.user@, su), ..ss };
            assert(self@.users == s_taken.users.insert(req.user@, u_final));
            assert(self@.users.dom() =~= ss1.users.dom());
            assert forall|x: Seq<char>| #[trigger] self@.users.contains_key(x) implies same_user(self@.users[x], ss1.users[x]) by {
                if x != req.user@ {
                    assert(s.users.contains_key(x));
                }
            }
            assert forall|x: Seq<char>| #[trigger] self.user_views().contains_key(x) implies self.user_views()[x].wf() by {
                if x != req.user@ {
                    assert(s.users.contains_key(x));
                }
            }
        }
        Ok(())
    }
}

impl Store {
    /// The delegator contract deposits users' rewards: each request is handled in turn (see
    /// `rewards_request_step`), the retained rewards are added to the contract's total, and
    /// each SIC is sent what it received. The response lists the strategies not found and the
    /// users who deposited nothing, and, where some SIC did not answer, the strategies that were
    /// skipped for it.
    pub fn try_update_user_rewards(
        &mut self,
        sender: &String,
        update_user_rewards_requests: Vec<UpdateUserRewardsRequest>,
        answers: &SicAnswers,
    ) -> (r: Result<Response, ContractError>)
        requires
            old(self).wf(),
        ensures
            r is Err ==> final(self)@ == old(self)@,
            sender@ != old(self)@.state.delegator_contract@ ==> r == Err::<Response, ContractError>(ContractError::Unauthorized {}),
            sender@ == old(self)@.state.delegator_contract@ && update_user_rewards_requests@.len() == 0 ==> (r matches Ok(resp)
                && final(self)@ == old(self)@ && resp.messages@.len() == 0 && resp.attributes@.len() == 1
                && is_text_attr(resp.attributes@[0], "zero_update_user_rewards_requests"@, "1"@)),
            sender@ == old(self)@.state.delegator_contract@ && update_user_rewards_requests@.len() > 0 ==>
                match rewards_run(old(self)@, empty_deposit_log(), update_user_rewards_requests@, answers.total_tokens@) {
                    Err(e) => r == Err::<Response, ContractError>(e),
                    Ok((s1, log)) => if s1.state.rewards_in_scc + log.total_surplus > u128::MAX {
                        r == Err::<Response, ContractError>(ContractError::Overflow {})
                    } else {
                        r matches Ok(resp) && {
                            &&& same_store(final(self)@, StoreView {
                                state: StateView { rewards_in_scc: (s1.state.rewards_in_scc + log.total_surplus) as u128, ..s1.state },
                                ..s1
                            })
                            &&& final(self).wf()
                            &&& resp.messages@ == funds_msgs(log.funds, s1.state.scc_denom)
                            &&& resp.attributes@.len() == if log.failed_sics.len() == 0 { 2int } else { 3int }
                            &&& is_ids_attr(resp.attributes@[0], "failed_strategies"@, log.failed_strategies)
                            &&& is_addresses_attr(resp.attributes@[1], "users_with_zero_deposits"@, log.users_with_zero_deposits)
                            &&& log.failed_sics.len() > 0 ==> is_ids_attr(resp.attributes@[2], "failed_sics"@, log.failed_sics)
                        }
                    },
                },
    {
        let ghost s0 = self@;
        if *sender != self.state.delegator_contract {
            return Err(ContractError::Unauthorized {});
        }
        if update_user_rewards_requests.len() == 0 {
            let mut resp = Response::new();
            resp.attributes.push(attr("zero_update_user_rewards_requests", String::from_str("1")));
            return Ok(resp);
        }
        let saved = self.snapshot();
        let mut lists = DepositLists {
            failed_strategies: Vec::new(),
            failed_sics: Vec::new(),
            users_with_zero_deposits: Vec::new(),
            funds: Vec::new(),
            ratios: BTreeMap::new(),
            total_surplus: 0,
        };
        let ghost rs = update_user_rewards_requests@;
        let ghost mut ss = s0;
        proof {
            assert(lists@.ratios =~= Map::<u64, Decimal>::empty());
            assert(lists@ == empty_deposit_log());
            assert(rs.subrange(0, rs.len() as int) =~= rs);
            assert(self@.users.dom() =~= ss.users.dom());
            lemma_same_store_itself(s0);
        }
        let mut i: usize = 0;
        while i < update_user_rewards_requests.len()
            invariant
                i <= rs.len(),
                rs == update_user_rewards_requests@,
                s0 == old(self)@,
                saved@ == s0,
                saved.wf(),
                sender@ == s0.state.delegator_contract@,
                self.wf(),
                same_store(self@, ss),
                sics_unique(lists@.funds),
                rewards_run(s0, empty_deposit_log(), rs, answers.total_tokens@)
                    == rewards_run(ss, lists@, rs.subrange(i as int, rs.len() as int), answers.total_tokens@),
            decreases rs.len() - i,
        {
            proof {
                let rest = rs.subrange(i as int, rs.len() as int);
                assert(rest[0] == rs[i as int]);
                assert(rest.subrange(1, rest.len() as int) =~= rs.subrange(i + 1, rs.len() as int));
            }
            let ghost lists_before = lists@;
            match self.apply_rewards_request(&update_user_rewards_requests[i], &mut lists, answers, Ghost(ss)) {
                Ok(()) => {},
                Err(e) => return self.refuse(saved, e),
            }
            proof {
                ss = rewards_request_step(ss, lists_before, rs[i as int], answers.total_tokens@)->Ok_0.0;
            }
            i = i + 1;
        }
        proof {
            assert(rs.subrange(i as int, rs.len() as int).len() == 0);
        }
        let rewards = match self.state.rewards_in_scc.checked_add(lists.total_surplus) {
            Some(t) => t,
            None => return self.refuse(saved, ContractError::Overflow {}),
        };
        self.state.rewards_in_scc = rewards;
        let messages = self.funds_messages(&lists.funds);
        let mut resp = Response::new();
        resp.messages = messages;
        resp.attributes.push(attr_ids("failed_strategies", lists.failed_strategies));
        resp.attributes.push(attr_addresses("users_with_zero_deposits", lists.users_with_zero_deposits));
        if lists.failed_sics.len() > 0 {
            resp.attributes.push(attr_ids("failed_sics", lists.failed_sics));
        }
        Ok(resp)
    }
}

impl Store {
    /// The transfers of what each SIC receives.
    fn funds_messages(&self, funds: &Vec<(String, u128)>) -> (r: Vec<ContractMsg>)
        ensures
            r@ == funds_msgs(funds@, self.state.scc_denom),
    {
        let mut messages: Vec<ContractMsg> = Vec::new();
        let mut k: usize = 0;
        proof {
            assert(funds_msgs(funds@.take(0), self.state.scc_denom) =~= Seq::<ContractMsg>::empty());
        }
        while k < funds.len()
            invariant
                k <= funds@.len(),
                messages@ == funds_msgs(funds@.take(k as int), self.state.scc_denom),
            decreases funds@.len() - k,
        {
            let f = &funds[k];
            messages.push(ContractMsg::SicTransferRewards {
                sic_contract_address: f.0.clone(),
                funds: Coin { denom: self.state.scc_denom.clone(), amount: f.1 },
            });
            proof {
                assert(messages@ =~= funds_msgs(funds@.take(k + 1), self.state.scc_denom));
            }
            k = k + 1;
        }
        proof {
            assert(funds@.take(k as int) =~= funds@);
        }
        messages
    }

    /// A user deposits the funds sent with the request: exactly one coin of the contract's
    /// denomination. A zero amount changes nothing; otherwise the amount is deposited as a
    /// request of the user (see `rewards_request_step`), the retained part is added to the
    /// contract's total, and the SICs are sent what they received. The response lists the
    /// strategies not found, and, where some SIC did not answer, the strategies skipped for it.
    pub fn try_deposit_funds(
        &mut self,
        sender: &String,
        funds: &Vec<Coin>,
        strategy_override: Option<u64>,
        answers: &SicAnswers,
    ) -> (r: Result<Response, ContractError>)
        requires
            old(self).wf(),
        ensures
            r is Err ==> final(self)@ == old(self)@,
            funds@.len() == 0 ==> r == Err::<Response, ContractError>(ContractError::NoFundsSent {}),
            funds@.len() > 1 ==> r == Err::<Response, ContractError>(ContractError::MultipleCoinsSent {}),
            funds@.len() == 1 && funds@[0].denom@ != old(self)@.state.scc_denom@ ==>
                r == Err::<Response, ContractError>(ContractError::WrongDenomSent {}),
            funds@.len() == 1 && funds@[0].denom@ == old(self)@.state.scc_denom@ && funds@[0].amount == 0 ==> (r matches Ok(resp)
                && final(self)@ == old(self)@ && resp.messages@.len() == 0 && resp.attributes@.len() == 1
                && is_text_attr(resp.attributes@[0], "0 funds sent"@, "1"@)),
            funds@.len() == 1 && funds@[0].denom@ == old(self)@.state.scc_denom@ && funds@[0].amount != 0 ==>
                match rewards_request_step(old(self)@, empty_deposit_log(),
                    UpdateUserRewardsRequest { user: *sender, funds: funds@[0].amount, strategy_id: strategy_override },
                    answers.total_tokens@) {
                    Err(e) => r == Err::<Response, ContractError>(e),
                    Ok((s1, log)) => if s1.state.rewards_in_scc + log.total_surplus > u128::MAX {
                        r == Err::<Response, ContractError>(ContractError::Overflow {})
                    } else {
                        r matches Ok(resp) && {
                            &&& same_store(final(self)@, StoreView {
                                state: StateView { rewards_in_scc: (s1.state.rewards_in_scc + log.total_surplus) as u128, ..s1.state },
                                ..s1
                            })
                            &&& final(self).wf()
                            &&& resp.messages@ == funds_msgs(log.funds, s1.state.scc_denom)
                            &&& resp.attributes@.len() == if log.failed_sics.len() == 0 { 1int } else { 2int }
                            &&& is_ids_attr(resp.attributes@[0], "failed_strategies"@, log.failed_strategies)
                            &&& log.failed_sics.len() > 0 ==> is_ids_attr(resp.attributes@[1], "failed_sics"@, log.failed_sics)
                        }
                    },
                },
    {
        let ghost s0 = self@;
        if funds.len() == 0 {
            return Err(ContractError::NoFundsSent {});
        }
        if funds.len() > 1 {
            return Err(ContractError::MultipleCoinsSent {});
        }
        if funds[0].denom != self.state.scc_denom {
            return Err(ContractError::WrongDenomSent {});
        }
        let amount = funds[0].amount;
        if amount == 0 {
            let mut resp = Response::new();
            resp.attributes.push(attr("0 funds sent", String::from_str("1")));
            return Ok(resp);
        }
        let saved = self.snapshot();
        let req = UpdateUserRewardsRequest { user: sender.clone(), funds: amount, strategy_id: strategy_override };
        let mut lists = DepositLists {
            failed_strategies: Vec::new(),
            failed_sics: Vec::new(),
            users_with_zero_deposits: Vec::new(),
            funds: Vec::new(),
            ratios: BTreeMap::new(),
            total_surplus: 0,
        };
        proof {
            assert(lists@.ratios =~= Map::<u64, Decimal>::empty());
            assert(lists@ == empty_deposit_log());
            assert(self@.users.dom() =~= s0.users.dom());
            lemma_same_store_itself(s0);
        }
        match self.apply_rewards_request(&req, &mut lists, answers, Ghost(s0)) {
            Ok(()) => {},
            Err(e) => return self.refuse(saved, e),
        }
        let rewards = match self.state.rewards_in_scc.checked_add(lists.total_surplus) {
            Some(t) => t,
            None => return self.refuse(saved, ContractError::Overflow {}),
        };
        self.state.rewards_in_scc = rewards;
        let messages = self.funds_messages(&lists.funds);
        let mut resp = Response::new();
        resp.messages = messages;
        resp.attributes.push(attr_ids("failed_strategies", lists.failed_strategies));
        if lists.failed_sics.len() > 0 {
            resp.attributes.push(attr_ids("failed_sics", lists.failed_sics));
        }
        Ok(resp)
    }
}

/// What the SICs receive in all.
pub open spec fn funds_total(funds: Seq<(String, u128)>) -> int
    decreases funds.len(),
{
    if funds.len() == 0 {
        0
    } else {
        funds_total(funds.drop_last()) + funds.last().1
    }
}

/// What deposits have placed: sent to SICs or retained in the contract.
pub open spec fn deposited_total(log: DepositLog) -> int {
    funds_total(log.funds) + log.total_surplus
}

/// A deposit into strategy `id` that nothing places: the strategy does not exist, or its ratio
/// is not among `ratios` and its SIC did not answer. Deposits to the retain-rewards strategy
/// are always placed.
pub open spec fn not_placed(strategies: Map<u64, StrategyInfoView>, ratios: Map<u64, Decimal>, tokens: Map<u64, Option<u128>>, id: u64) -> bool {
    id != 0 && (!strategies.contains_key(id) || (!ratios.contains_key(id) && !tokens.contains_key(id)))
}

/// What a split meant for strategies that take no deposit (see `not_placed`).
pub open spec fn undeposited(
    strategies: Map<u64, StrategyInfoView>,
    ratios: Map<u64, Decimal>,
    tokens: Map<u64, Option<u128>>,
    split: Map<u64, u128>,
    ks: Seq<u64>,
) -> int
    decreases ks.len(),
{
    if ks.len() == 0 {
        0
    } else {
        (if not_placed(strategies, ratios, tokens, ks[0]) { map_value_or_zero(split, ks[0]) } else { 0 })
            + undeposited(strategies, ratios, tokens, split, ks.subrange(1, ks.len() as int))
    }
}

proof fn lemma_funds_total_update(f: Seq<(String, u128)>, i: int, x: (String, u128))
    requires
        0 <= i < f.len(),
    ensures
        funds_total(f.update(i, x)) == funds_total(f) - f[i].1 + x.1,
    decreases f.len(),
{
    let g = f.update(i, x);
    if i == f.len() - 1 {
        assert(g.drop_last() =~= f.drop_last());
    } else {
        assert(g.drop_last() =~= f.drop_last().update(i, x));
        lemma_funds_total_update(f.drop_last(), i, x);
    }
}

proof fn lemma_add_sic_funds_total(f: Seq<(String, u128)>, sic: String, amount: u128)
    requires
        add_sic_funds(f, sic, amount) is Some,
    ensures
        funds_total(add_sic_funds(f, sic, amount)->Some_0) == funds_total(f) + amount,
{
    if sic_has(f, sic@) {
        let i = sic_index(f, sic@);
        lemma_funds_total_update(f, i, (f[i].0, (f[i].1 + amount) as u128));
    } else {
        assert(f.push((sic, amount)).drop_last() =~= f);
    }
}

/// The split total taken from the front.
proof fn lemma_split_total_front(split: Map<u64, u128>, ks: Seq<u64>)
    requires
        ks.len() > 0,
    ensures
        split_total(split, ks) == map_value_or_zero(split, ks[0]) + split_total(split, ks.subrange(1, ks.len() as int)),
    decreases ks.len(),
{
    if ks.len() == 1 {
        assert(ks.drop_last() =~= Seq::<u64>::empty());
        assert(ks.subrange(1, 1) =~= Seq::<u64>::empty());
    } else {
        lemma_split_total_front(split, ks.drop_last());
        assert(ks.drop_last().subrange(1, ks.drop_last().len() as int) =~= ks.subrange(1, ks.len() as int).drop_last());
        assert(ks.subrange(1, ks.len() as int).last() == ks.last());
        assert(ks.drop_last()[0] == ks[0]);
    }
}

/// One deposit places its whole amount, unless it is meant for a strategy that takes no
/// deposit (see `not_placed`); no strategy appears or disappears, and no ratio is recorded for
/// a strategy whose SIC did not answer.
proof fn lemma_deposit_into_places(
    strategies: Map<u64, StrategyInfoView>,
    u: UserRewardInfoView,
    log: DepositLog,
    id: u64,
    amount: u128,
    tokens: Map<u64, Option<u128>>,
)
    requires
        deposit_into(strategies, u, log, id, amount, tokens) is Ok,
    ensures
        ({
            let (st1, _, l1) = deposit_into(strategies, u, log, id, amount, tokens)->Ok_0;
            &&& st1.dom() == strategies.dom()
            &&& deposited_total(l1) == deposited_total(log)
                + if not_placed(strategies, log.ratios, tokens, id) { 0 } else { amount as int }
            &&& forall|k: u64| !tokens.contains_key(k) ==> (#[trigger] l1.ratios.contains_key(k) <==> log.ratios.contains_key(k))
        }),
{
    if amount != 0 && id != 0 && strategies.contains_key(id) && (log.ratios.contains_key(id) || tokens.contains_key(id)) {
        let st = strategies[id];
        lemma_add_sic_funds_total(log.funds, st.sic_contract_address, amount);
        let (st1, _, _) = deposit_into(strategies, u, log, id, amount, tokens)->Ok_0;
        assert(st1.dom() =~= strategies.dom());
    }
}

proof fn lemma_deposit_walk_places(
    strategies: Map<u64, StrategyInfoView>,
    u: UserRewardInfoView,
    log: DepositLog,
    ks: Seq<u64>,
    split: Map<u64, u128>,
    tokens: Map<u64, Option<u128>>,
)
    requires
        deposit_walk(strategies, u, log, ks, split, tokens) is Ok,
        forall|k: u64| #[trigger] split.contains_key(k) ==> split[k] >= 0,
    ensures
        ({
            let (st1, _, l1) = deposit_walk(strategies, u, log, ks, split, tokens)->Ok_0;
            &&& st1.dom() == strategies.dom()
            &&& deposited_total(l1) + undeposited(strategies, log.ratios, tokens, split, ks)
                == deposited_total(log) + split_total(split, ks)
        }),
    decreases ks.len(),
{
    if ks.len() > 0 {
        let amount = map_value_or_zero(split, ks[0]) as u128;
        lemma_deposit_into_places(strategies, u, log, ks[0], amount, tokens);
        let (s1, u1, l1) = deposit_into(strategies, u, log, ks[0], amount, tokens)->Ok_0;
        let rest = ks.subrange(1, ks.len() as int);
        lemma_deposit_walk_places(s1, u1, l1, rest, split, tokens);
        lemma_split_total_front(split, ks);
        assert(undeposited(s1, l1.ratios, tokens, split, rest) == undeposited(strategies, log.ratios, tokens, split, rest)) by {
            lemma_undeposited_same(s1, strategies, l1.ratios, log.ratios, tokens, split, rest);
        }
    } else {
        assert(ks =~= Seq::<u64>::empty());
    }
}

proof fn lemma_undeposited_same(
    a: Map<u64, StrategyInfoView>,
    b: Map<u64, StrategyInfoView>,
    ra: Map<u64, Decimal>,
    rb: Map<u64, Decimal>,
    tokens: Map<u64, Option<u128>>,
    split: Map<u64, u128>,
    ks: Seq<u64>,
)
    requires
        a.dom() == b.dom(),
        forall|k: u64| !tokens.contains_key(k) ==> (#[trigger] ra.contains_key(k) <==> rb.contains_key(k)),
    ensures
        undeposited(a, ra, tokens, split, ks) == undeposited(b, rb, tokens, split, ks),
    decreases ks.len(),
{
    if ks.len() > 0 {
        lemma_undeposited_same(a, b, ra, rb, tokens, split, ks.subrange(1, ks.len() as int));
        assert(a.contains_key(ks[0]) == b.contains_key(ks[0]));
        if !tokens.contains_key(ks[0]) {
            assert(ra.contains_key(ks[0]) == rb.contains_key(ks[0]));
        }
    }
}

/// What the SIC `sic` receives so far.
pub open spec fn sic_amount(funds: Seq<(String, u128)>, sic: Seq<char>) -> int {
    if sic_has(funds, sic) {
        funds[sic_index(funds, sic)].1 as int
    } else {
        0
    }
}

pub proof fn lemma_sic_index_unique(funds: Seq<(String, u128)>, i: int)
    requires
        sics_unique(funds),
        0 <= i < funds.len(),
    ensures
        sic_has(funds, funds[i].0@),
        sic_index(funds, funds[i].0@) == i,
{
    let c = funds[i].0@;
    assert(funds[i].0@ == c);
    let k = sic_index(funds, c);
    if k != i {
        if k < i {
            assert(funds[k].0@ != funds[i].0@);
        } else {
            assert(funds[i].0@ != funds[k].0@);
        }
    }
}

/// Adding to what one SIC receives keeps every SIC once, adds `amount` to that SIC's share and
/// leaves the others' shares as they were.
proof fn lemma_add_sic_funds(funds: Seq<(String, u128)>, sic: String, amount: u128, other: Seq<char>)
    requires
        sics_unique(funds),
        add_sic_funds(funds, sic, amount) is Some,
    ensures
        sics_unique(add_sic_funds(funds, sic, amount)->Some_0),
        sic_amount(add_sic_funds(funds, sic, amount)->Some_0, other)
            == sic_amount(funds, other) + if other == sic@ { amount as int } else { 0 },
{
    let f1 = add_sic_funds(funds, sic, amount)->Some_0;
    if sic_has(funds, sic@) {
        let i = sic_index(funds, sic@);
        assert forall|a: int, b: int| 0 <= a < b < f1.len() implies #[trigger] f1[a].0@ != #[trigger] f1[b].0@ by {
            assert(funds[a].0@ != funds[b].0@);
        }
        if sic_has(funds, other) {
            let k = sic_index(funds, other);
            lemma_sic_index_unique(f1, k);
            assert(f1[k].0@ == other);
            if other == sic@ {
                lemma_sic_index_unique(funds, i);
                assert(k == i);
            } else {
                assert(k != i);
            }
        } else {
            assert(!sic_has(f1, other)) by {
                if sic_has(f1, other) {
                    let k = sic_index(f1, other);
                    assert(funds[k].0@ == other);
                }
            }
            assert(other != sic@);
        }
    } else {
        assert forall|a: int, b: int| 0 <= a < b < f1.len() implies #[trigger] f1[a].0@ != #[trigger] f1[b].0@ by {
            if b < funds.len() {
                assert(funds[a].0@ != funds[b].0@);
            } else {
                assert(funds[a].0@ != sic@) by {
                    if funds[a].0@ == sic@ {
                        assert(sic_has(funds, sic@));
                    }
                }
            }
        }
        let n = funds.len() as int;
        if other == sic@ {
            lemma_sic_index_unique(f1, n);
        } else if sic_has(funds, other) {
            let k = sic_index(funds, other);
            lemma_sic_index_unique(f1, k);
        } else {
            assert(!sic_has(f1, other)) by {
                if sic_has(f1, other) {
                    let k = sic_index(f1, other);
                    if k < n {
                        assert(funds[k].0@ == other);
                    }
                }
            }
        }
    }
}

/// A deposit of `amount` into an existing strategy other than the retain-rewards one first
/// collects the airdrops that the user's position earned on its old shares, and moves the
/// position's airdrop pointer to the strategy's global pointer; then it buys the shares that
/// the amount is worth at the strategy's shares-per-token ratio: the position and the
/// strategy's total shares both gain exactly them, the strategy keeps the ratio fetched at its
/// first deposit of the request, and the strategy's SIC is owed `amount` more, the other SICs
/// nothing more.
pub proof fn law_deposit_settles_airdrops_then_buys_shares(
    strategies: Map<u64, StrategyInfoView>,
    u: UserRewardInfoView,
    log: DepositLog,
    id: u64,
    amount: u128,
    tokens: Map<u64, Option<u128>>,
    other_sic: Seq<char>,
)
    requires
        amount > 0,
        id != 0,
        strategies.contains_key(id),
        log.ratios.contains_key(id) || tokens.contains_key(id),
        sics_unique(log.funds),
        deposit_into(strategies, u, log, id, amount, tokens) is Ok,
    ensures
        deposit_ratio(strategies[id], log, id, tokens) is Ok,
        ({
            let st = strategies[id];
            let (st1, u1, l1) = deposit_into(strategies, u, log, id, amount, tokens)->Ok_0;
            let ratio = deposit_ratio(st, log, id, tokens)->Ok_0;
            let j = entry_index(u, id);
            let e = with_entry(u, id).strategies[j];
            let bought = spec_mul(ratio, Decimal { atomics: (amount * DECIMAL_FRACTIONAL) as u128 });
            &&& e.shares.atomics == if has_strategy_entry(u, id) { u.strategies[j].shares.atomics as int } else { 0 }
            &&& u1.pending_airdrops == u.pending_airdrops + user_airdrops_seq(st.global_airdrop_pointer, e.airdrop_pointer, e.shares)
            &&& u1.strategies[j].strategy_id == id
            &&& u1.strategies[j].airdrop_pointer == st.global_airdrop_pointer
            &&& u1.strategies[j].shares.atomics == e.shares.atomics + bought
            &&& st1[id].total_shares.atomics == st.total_shares.atomics + bought
            &&& l1.ratios[id] == ratio
            &&& !log.ratios.contains_key(id) ==> st1[id].shares_per_token_ratio == ratio
                && ratio == shares_per_token_ratio(reported_tokens(tokens[id]), st.total_shares)
            &&& sics_unique(l1.funds)
            &&& sic_amount(l1.funds, other_sic) == sic_amount(log.funds, other_sic)
                + if other_sic == st.sic_contract_address@ { amount as int } else { 0 }
        }),
{
    let st = strategies[id];
    lemma_add_sic_funds(log.funds, st.sic_contract_address, amount, other_sic);
    if has_strategy_entry(u, id) {
        let j = strategy_entry_index(u, id);
        assert(u.strategies[j].strategy_id == id);
    }
}

proof fn lemma_deposit_into_sics_unique(
    strategies: Map<u64, StrategyInfoView>,
    u: UserRewardInfoView,
    log: DepositLog,
    id: u64,
    amount: u128,
    tokens: Map<u64, Option<u128>>,
)
    requires
        sics_unique(log.funds),
        deposit_into(strategies, u, log, id, amount, tokens) is Ok,
    ensures
        sics_unique(deposit_into(strategies, u, log, id, amount, tokens)->Ok_0.2.funds),
{
    if amount != 0 && id != 0 && strategies.contains_key(id) && (log.ratios.contains_key(id) || tokens.contains_key(id)) {
        lemma_add_sic_funds(log.funds, strategies[id].sic_contract_address, amount, Seq::empty());
    }
}

proof fn lemma_deposit_walk_sics_unique(
    strategies: Map<u64, StrategyInfoView>,
    u: UserRewardInfoView,
    log: DepositLog,
    ks: Seq<u64>,
    split: Map<u64, u128>,
    tokens: Map<u64, Option<u128>>,
)
    requires
        sics_unique(log.funds),
        deposit_walk(strategies, u, log, ks, split, tokens) is Ok,
    ensures
        sics_unique(deposit_walk(strategies, u, log, ks, split, tokens)->Ok_0.2.funds),
    decreases ks.len(),
{
    if ks.len() > 0 {
        let amount = map_value_or_zero(split, ks[0]) as u128;
        lemma_deposit_into_sics_unique(strategies, u, log, ks[0], amount, tokens);
        let (s1, u1, l1) = deposit_into(strategies, u, log, ks[0], amount, tokens)->Ok_0;
        lemma_deposit_walk_sics_unique(s1, u1, l1, ks.subrange(1, ks.len() as int), split, tokens);
    }
}

proof fn lemma_rewards_run_sics_unique(
    s: StoreView,
    log: DepositLog,
    reqs: Seq<UpdateUserRewardsRequest>,
    tokens: Map<u64, Option<u128>>,
)
    requires
        sics_unique(log.funds),
        rewards_run(s, log, reqs, tokens) is Ok,
    ensures
        sics_unique(rewards_run(s, log, reqs, tokens)->Ok_0.1.funds),
    decreases reqs.len(),
{
    if reqs.len() > 0 {
        let req = reqs[0];
        if req.funds != 0 {
            let u = base_user(s, req.user@);
            let split = strategy_split(s.strategies, s.config, req.strategy_id, u, req.funds);
            let ks = split_order(s.strategies, s.config, req.strategy_id, u);
            lemma_deposit_walk_sics_unique(s.strategies, u, log, ks, split, tokens);
        }
        let (s1, l1) = rewards_request_step(s, log, req, tokens)->Ok_0;
        lemma_rewards_run_sics_unique(s1, l1, reqs.subrange(1, reqs.len() as int), tokens);
    }
}

/// Depositing users' rewards sends each SIC one transfer at most: no SIC occurs twice among
/// what the SICs receive, so the response's transfers go to distinct SICs.
pub proof fn law_one_transfer_per_sic(
    s: StoreView,
    reqs: Seq<UpdateUserRewardsRequest>,
    tokens: Map<u64, Option<u128>>,
    denom: String,
)
    requires
        rewards_run(s, empty_deposit_log(), reqs, tokens) is Ok,
    ensures
        ({
            let msgs = funds_msgs(rewards_run(s, empty_deposit_log(), reqs, tokens)->Ok_0.1.funds, denom);
            forall|i: int, j: int| 0 <= i < j < msgs.len() ==>
                (#[trigger] msgs[i])->SicTransferRewards_sic_contract_address@
                    != (#[trigger] msgs[j])->SicTransferRewards_sic_contract_address@
        }),
{
    lemma_rewards_run_sics_unique(s, empty_deposit_log(), reqs, tokens);
    let funds = rewards_run(s, empty_deposit_log(), reqs, tokens)->Ok_0.1.funds;
    let msgs = funds_msgs(funds, denom);
    assert forall|i: int, j: int| 0 <= i < j < msgs.len() implies
        (#[trigger] msgs[i])->SicTransferRewards_sic_contract_address@
            != (#[trigger] msgs[j])->SicTransferRewards_sic_contract_address@ by {
        assert(funds[i].0@ != funds[j].0@);
    }
}

/// Every reward deposited is placed: sent on to a SIC or retained in the contract, but for what
/// the split meant for strategies that take no deposit (see `not_placed`).
pub proof fn law_rewards_request_places_funds(
    s: StoreView,
    log: DepositLog,
    req: UpdateUserRewardsRequest,
    tokens: Map<u64, Option<u128>>,
)
    requires
        rewards_request_step(s, log, req, tokens) is Ok,
        req.funds != 0,
    ensures
        ({
            let u = base_user(s, req.user@);
            let split = strategy_split(s.strategies, s.config, req.strategy_id, u, req.funds);
            let ks = split_order(s.strategies, s.config, req.strategy_id, u);
            let (_, l1) = rewards_request_step(s, log, req, tokens)->Ok_0;
            deposited_total(l1) + undeposited(s.strategies, log.ratios, tokens, split, ks) == deposited_total(log) + req.funds
        }),
{
    let u = base_user(s, req.user@);
    let split = strategy_split(s.strategies, s.config, req.strategy_id, u, req.funds);
    let ks = split_order(s.strategies, s.config, req.strategy_id, u);
    law_split_conserves_amount(s.strategies, s.config, req.strategy_id, u, req.funds);
    lemma_deposit_walk_places(s.strategies, u, log, ks, split, tokens);
}

} // verus!
