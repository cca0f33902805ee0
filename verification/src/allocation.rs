//! Collecting the airdrops that all of a user's positions earned, and handing the user the
//! airdrops that the contract holds for them.

use vstd::prelude::*;
use crate::coins::{Coin, CoinVecOp, Operation, apply_op, checked_merge_coin_vector, clone_coins, coin_amount,
    coin_entries, coins_unique, entries_have, entries_nonneg, entry_amount, lemma_coin_entries_concat,
    lemma_entry_amount_absent, lemma_entry_amount_concat, lemma_entry_amount_nonneg,
    lemma_entry_amount_unique, lemma_in_range_compose, lemma_merged_compose, lemma_merged_empty,
    lemma_merge_entries_amounts, lemma_merge_entries_concat, merge_entries, merge_in_range, merged};
use crate::error::ContractError;
use crate::msg::{ContractMsg, Response};
use crate::state::{Cw20TokenContractsInfo, StateView, StrategyInfoView, UserRewardInfo, UserRewardInfoView,
    UserStrategyInfoView};
use crate::store::{Store, StoreView};
use crate::user::{collect_user_airdrops, user_airdrops_seq};

verus! {

broadcast use vstd::std_specs::btree::group_btree_axioms;

/// The airdrops that a user's position earned since its pointer; nothing where its strategy
/// does not exist.
pub open spec fn entry_airdrops(strategies: Map<u64, StrategyInfoView>, e: UserStrategyInfoView) -> Seq<Coin> {
    if strategies.contains_key(e.strategy_id) {
        user_airdrops_seq(strategies[e.strategy_id].global_airdrop_pointer, e.airdrop_pointer, e.shares)
    } else {
        Seq::empty()
    }
}

/// The airdrops that the positions earned, one position after the other.
pub open spec fn allocation_fund(strategies: Map<u64, StrategyInfoView>, entries: Seq<UserStrategyInfoView>) -> Seq<Coin>
    decreases entries.len(),
{
    if entries.len() == 0 {
        Seq::empty()
    } else {
        allocation_fund(strategies, entries.drop_last()) + entry_airdrops(strategies, entries.last())
    }
}

/// Whether the airdrops of every position whose strategy exists can be computed.
pub open spec fn allocation_computable(strategies: Map<u64, StrategyInfoView>, entries: Seq<UserStrategyInfoView>) -> bool {
    forall|j: int|
        #![trigger entries[j]]
        0 <= j < entries.len() && strategies.contains_key(entries[j].strategy_id) ==> airdrops_computable_at(
            strategies,
            entries[j],
        )
}

pub open spec fn airdrops_computable_at(strategies: Map<u64, StrategyInfoView>, e: UserStrategyInfoView) -> bool {
    crate::coins::airdrops_computable(strategies[e.strategy_id].global_airdrop_pointer, e.airdrop_pointer, e.shares)
}

/// A position with its pointer moved to its strategy's global pointer, where the strategy
/// exists.
pub open spec fn allocated_entry(strategies: Map<u64, StrategyInfoView>, e: UserStrategyInfoView) -> UserStrategyInfoView {
    if strategies.contains_key(e.strategy_id) {
        UserStrategyInfoView { airdrop_pointer: strategies[e.strategy_id].global_airdrop_pointer, ..e }
    } else {
        e
    }
}

pub open spec fn allocated_entries(strategies: Map<u64, StrategyInfoView>, entries: Seq<UserStrategyInfoView>) -> Seq<UserStrategyInfoView> {
    entries.map_values(|e: UserStrategyInfoView| allocated_entry(strategies, e))
}

/// Whether the airdrops of all of a user's positions can be collected: each can be computed,
/// and their total added to the pending airdrops stays within 128 bits.
pub open spec fn allocation_ok(strategies: Map<u64, StrategyInfoView>, u: UserRewardInfoView) -> bool {
    &&& allocation_computable(strategies, u.strategies)
    &&& merge_in_range(coin_entries(u.pending_airdrops), coin_entries(allocation_fund(strategies, u.strategies)), Operation::Add)
}

/// `after` is `before` with the airdrops of all positions collected into the pending airdrops,
/// and the pointers moved.
pub open spec fn airdrops_allocated(strategies: Map<u64, StrategyInfoView>, before: UserRewardInfoView, after: UserRewardInfoView) -> bool {
    &&& after.strategies == allocated_entries(strategies, before.strategies)
    &&& after.user_portfolio == before.user_portfolio
    &&& after.undelegation_records == before.undelegation_records
    &&& after.pending_rewards == before.pending_rewards
    &&& merged(coin_entries(after.pending_airdrops), coin_entries(before.pending_airdrops),
        coin_entries(allocation_fund(strategies, before.strategies)), Operation::Add)
    &&& coin_entries(after.pending_airdrops) == merge_entries(coin_entries(before.pending_airdrops),
        coin_entries(allocation_fund(strategies, before.strategies)), Operation::Add)
}

pub proof fn lemma_allocation_fund_concat(
    strategies: Map<u64, StrategyInfoView>,
    a: Seq<UserStrategyInfoView>,
    b: Seq<UserStrategyInfoView>,
)
    ensures
        allocation_fund(strategies, a + b) == allocation_fund(strategies, a) + allocation_fund(strategies, b),
    decreases b.len(),
{
    if b.len() == 0 {
        assert(a + b =~= a);
        assert(allocation_fund(strategies, a) + Seq::<Coin>::empty() =~= allocation_fund(strategies, a));
    } else {
        assert((a + b).drop_last() =~= a + b.drop_last());
        assert((a + b).last() == b.last());
        lemma_allocation_fund_concat(strategies, a, b.drop_last());
        let fa = allocation_fund(strategies, a);
        let fb = allocation_fund(strategies, b.drop_last());
        let x = entry_airdrops(strategies, b.last());
        assert(fa + fb + x =~= fa + (fb + x));
    }
}

/// Adding a fund stays in range only if adding a first part of it does.
pub proof fn lemma_in_range_prefix(c: Seq<(Seq<char>, int)>, f1: Seq<(Seq<char>, int)>, f2: Seq<(Seq<char>, int)>)
    requires
        entries_nonneg(c),
        entries_nonneg(f1),
        entries_nonneg(f2),
        merge_in_range(c, f1 + f2, Operation::Add),
    ensures
        merge_in_range(c, f1, Operation::Add),
{
    assert forall|d: Seq<char>| 0 <= #[trigger] apply_op(entry_amount(c, d), entry_amount(f1, d), Operation::Add) <= u128::MAX by {
        lemma_entry_amount_concat(f1, f2, d);
        lemma_entry_amount_nonneg(c, d);
        lemma_entry_amount_nonneg(f1, d);
        lemma_entry_amount_nonneg(f2, d);
        assert(0 <= apply_op(entry_amount(c, d), entry_amount(f1 + f2, d), Operation::Add) <= u128::MAX);
    }
}

/// The amount of one denomination in a coin vector without repeated denominations fits in
/// 128 bits.
pub proof fn lemma_coin_amount_bounds(s: Seq<Coin>, d: Seq<char>)
    requires
        coins_unique(s),
    ensures
        0 <= coin_amount(s, d) <= u128::MAX,
{
    let e = coin_entries(s);
    if entries_have(e, d) {
        let k = choose|k: int| 0 <= k < e.len() && e[k].0 == d;
        lemma_entry_amount_unique(e, k);
    } else {
        lemma_entry_amount_absent(e, d);
    }
}

impl Store {
    /// Collects into the user's pending airdrops what each of their positions earned since its
    /// airdrop pointer, and moves the pointer of each position whose strategy exists to the
    /// strategy's global pointer. `Err(Overflow)` where an amount would leave 128 bits.
    pub fn allocate_user_airdrops_across_strategies(&self, user: &mut UserRewardInfo) -> (r: Result<(), ContractError>)
        requires
            self.wf(),
            old(user)@.wf(),
        ensures
            r is Ok <==> allocation_ok(self@.strategies, old(user)@),
            r is Err ==> r == Err::<(), ContractError>(ContractError::Overflow {}),
            r is Ok ==> airdrops_allocated(self@.strategies, old(user)@, final(user)@) && final(user)@.wf(),
    {
        let ghost u0 = user@;
        let ghost e0 = u0.strategies;
        let ghost strategies = self@.strategies;
        let ghost p0 = coin_entries(u0.pending_airdrops);
        proof {
            lemma_merged_empty(p0);
            assert forall|d: Seq<char>| 0 <= #[trigger] entry_amount(p0, d) <= u128::MAX by {
                lemma_coin_amount_bounds(u0.pending_airdrops, d);
            }
            assert(e0.take(0) =~= Seq::<UserStrategyInfoView>::empty());
            assert(coin_entries(allocation_fund(strategies, e0.take(0))) =~= Seq::<(Seq<char>, int)>::empty());
            assert(user@.strategies =~= allocated_entries(strategies, e0.take(0)) + e0.skip(0));
        }
        let mut j: usize = 0;
        while j < user.strategies.len()
            invariant
                j <= e0.len(),
                u0 == old(user)@,
                e0 == u0.strategies,
                p0 == coin_entries(u0.pending_airdrops),
                strategies == self@.strategies,
                self.wf(),
                user@.wf(),
                user@.strategies.len() == e0.len(),
                user.strategies@.len() == e0.len(),
                user@.strategies == allocated_entries(strategies, e0.take(j as int)) + e0.skip(j as int),
                user@.user_portfolio == u0.user_portfolio,
                user@.undelegation_records == u0.undelegation_records,
                user@.pending_rewards == u0.pending_rewards,
                allocation_computable(strategies, e0.take(j as int)),
                merge_in_range(p0, coin_entries(allocation_fund(strategies, e0.take(j as int))), Operation::Add),
                merged(coin_entries(user@.pending_airdrops), p0, coin_entries(allocation_fund(strategies, e0.take(j as int))), Operation::Add),
                coin_entries(user@.pending_airdrops) == merge_entries(p0, coin_entries(allocation_fund(strategies, e0.take(j as int))), Operation::Add),
            decreases e0.len() - j,
        {
            let ghost cur = user@;
            let ghost fj = allocation_fund(strategies, e0.take(j as int));
            let ghost e = e0[j as int];
            proof {
                assert(e0.take(j + 1).drop_last() =~= e0.take(j as int));
                assert(e0.take(j + 1).last() == e);
                assert(cur.strategies[j as int] == e);
                assert(allocation_fund(strategies, e0.take(j + 1)) == fj + entry_airdrops(strategies, e));
            }
            let id = user.strategies[j].strategy_id;
            proof {
                assert(user.strategies@[j as int]@ == cur.strategies[j as int]);
            }
            match self.strategy(id) {
                None => {
                    proof {
                        assert(fj + Seq::<Coin>::empty() =~= fj);
                        assert(allocation_fund(strategies, e0.take(j + 1)) == fj);
                        assert(allocated_entries(strategies, e0.take(j + 1)) + e0.skip(j + 1) =~= user@.strategies);
                        assert forall|k: int| #![trigger e0.take(j + 1)[k]]
                            0 <= k < j + 1 && strategies.contains_key(e0.take(j + 1)[k].strategy_id) implies
                            airdrops_computable_at(strategies, e0.take(j + 1)[k]) by {
                            assert(e0.take(j + 1)[k] == e0.take(j as int)[k]);
                        }
                    }
                },
                Some(st) => {
                    proof {
                        assert(st@.wf());
                    }
                    match collect_user_airdrops(user, j, &st.global_airdrop_pointer) {
                        Ok(()) => {
                            proof {
                                let c = coin_entries(entry_airdrops(strategies, e));
                                lemma_coin_entries_concat(fj, entry_airdrops(strategies, e));
                                lemma_in_range_compose(p0, coin_entries(fj), c, coin_entries(cur.pending_airdrops));
                                lemma_merged_compose(p0, coin_entries(fj), c, coin_entries(cur.pending_airdrops),
                                    coin_entries(user@.pending_airdrops));
                                lemma_merge_entries_concat(p0, coin_entries(fj), c, Operation::Add);
                                assert(allocated_entries(strategies, e0.take(j + 1)) + e0.skip(j + 1) =~= user@.strategies);
                                assert forall|k: int| #![trigger e0.take(j + 1)[k]]
                                    0 <= k < j + 1 && strategies.contains_key(e0.take(j + 1)[k].strategy_id) implies
                                    airdrops_computable_at(strategies, e0.take(j + 1)[k]) by {
                                    if k < j {
                                        assert(e0.take(j + 1)[k] == e0.take(j as int)[k]);
                                    }
                                }
                            }
                        },
                        Err(err) => {
                            proof {
                                let c = coin_entries(entry_airdrops(strategies, e));
                                if allocation_ok(strategies, u0) {
                                    assert(e0[j as int] == e);
                                    assert(airdrops_computable_at(strategies, e0[j as int]));
                                    lemma_coin_entries_concat(fj, entry_airdrops(strategies, e));
                                    lemma_in_range_compose(p0, coin_entries(fj), c, coin_entries(cur.pending_airdrops));
                                    assert(e0 =~= e0.take(j + 1) + e0.skip(j + 1));
                                    lemma_allocation_fund_concat(strategies, e0.take(j + 1), e0.skip(j + 1));
                                    lemma_coin_entries_concat(allocation_fund(strategies, e0.take(j + 1)),
                                        allocation_fund(strategies, e0.skip(j + 1)));
                                    lemma_in_range_prefix(p0, coin_entries(allocation_fund(strategies, e0.take(j + 1))),
                                        coin_entries(allocation_fund(strategies, e0.skip(j + 1))));
                                    assert(false);
                                }
                            }
                            return Err(err);
                        },
                    }
                },
            }
            j = j + 1;
        }
        proof {
            assert(e0.take(j as int) =~= e0);
            assert(e0.skip(j as int) =~= Seq::<UserStrategyInfoView>::empty());
            assert(user@.strategies =~= allocated_entries(strategies, e0));
        }
        Ok(())
    }
}

/// A pending airdrop is handed to the user where its denomination is registered and its amount
/// is not zero.
pub open spec fn transferable(c: Coin, registry: Map<Seq<char>, Cw20TokenContractsInfo>) -> bool {
    registry.contains_key(c.denom@) && c.amount != 0
}

/// The pending airdrops once the transferable ones are handed out: their amounts become zero.
pub open spec fn withdrawn(p: Seq<Coin>, registry: Map<Seq<char>, Cw20TokenContractsInfo>) -> Seq<Coin> {
    p.map_values(|c: Coin| if transferable(c, registry) { Coin { denom: c.denom, amount: 0 } } else { c })
}

/// The transferable airdrops, in order.
pub open spec fn transferred(p: Seq<Coin>, registry: Map<Seq<char>, Cw20TokenContractsInfo>) -> Seq<Coin>
    decreases p.len(),
{
    if p.len() == 0 {
        Seq::empty()
    } else {
        transferred(p.drop_last(), registry) + if transferable(p.last(), registry) {
            seq![p.last()]
        } else {
            Seq::empty()
        }
    }
}

/// The transfer of an airdrop through its registered token contract.
pub open spec fn transfer_msg(c: Coin, registry: Map<Seq<char>, Cw20TokenContractsInfo>, recipient: String) -> ContractMsg {
    ContractMsg::Cw20Transfer { cw20_token_contract: registry[c.denom@].cw20_token_contract, recipient, amount: c.amount }
}

pub open spec fn transfer_msgs(p: Seq<Coin>, registry: Map<Seq<char>, Cw20TokenContractsInfo>, recipient: String) -> Seq<ContractMsg> {
    transferred(p, registry).map_values(|c: Coin| transfer_msg(c, registry, recipient))
}

/// The amount of `d` a user holds once the airdrops of their positions are collected.
pub open spec fn allocated_amount(strategies: Map<u64, StrategyInfoView>, u: UserRewardInfoView, d: Seq<char>) -> int {
    coin_amount(u.pending_airdrops, d) + coin_amount(allocation_fund(strategies, u.strategies), d)
}

/// Whether the contract's airdrop totals cover what the user withdraws of every registered
/// denomination.
pub open spec fn withdrawal_covered(s: StoreView, u: UserRewardInfoView) -> bool {
    forall|d: Seq<char>| #[trigger] s.registry.contains_key(d) ==>
        allocated_amount(s.strategies, u, d) <= coin_amount(s.state.total_accumulated_airdrops, d)
}

/// What is handed out of a denomination is all of it where it is registered, nothing otherwise.
pub proof fn lemma_transferred_amount(p: Seq<Coin>, registry: Map<Seq<char>, Cw20TokenContractsInfo>, d: Seq<char>)
    ensures
        entry_amount(coin_entries(transferred(p, registry)), d) == if registry.contains_key(d) {
            coin_amount(p, d)
        } else {
            0
        },
    decreases p.len(),
{
    if p.len() > 0 {
        lemma_transferred_amount(p.drop_last(), registry, d);
        let x = p.last();
        let t0 = transferred(p.drop_last(), registry);
        let tail = if transferable(x, registry) { seq![x] } else { Seq::<Coin>::empty() };
        assert(transferred(p, registry) == t0 + tail);
        lemma_coin_entries_concat(t0, tail);
        lemma_entry_amount_concat(coin_entries(t0), coin_entries(tail), d);
        let e = coin_entries(p);
        assert(e.drop_last() =~= coin_entries(p.drop_last()));
        assert(e.last() == (x.denom@, x.amount as int));
        assert(entry_amount(e, d) == entry_amount(e.drop_last(), d) + if e.last().0 == d { e.last().1 } else { 0 });
        if transferable(x, registry) {
            let one = seq![(x.denom@, x.amount as int)];
            assert(coin_entries(tail) =~= one);
            assert(one.drop_last() =~= Seq::<(Seq<char>, int)>::empty());
            assert(entry_amount(one, d) == entry_amount(one.drop_last(), d) + if one.last().0 == d { one.last().1 } else { 0 });
        } else {
            assert(coin_entries(tail) =~= Seq::<(Seq<char>, int)>::empty());
        }
    }
}

/// Taking the handed-out airdrops off the contract's totals stays in range exactly when the
/// totals cover them.
pub proof fn lemma_withdrawal_in_range(s: StoreView, u: UserRewardInfoView, p: Seq<Coin>)
    requires
        coins_unique(s.state.total_accumulated_airdrops),
        merged(coin_entries(p), coin_entries(u.pending_airdrops), coin_entries(allocation_fund(s.strategies, u.strategies)),
            Operation::Add),
    ensures
        merge_in_range(coin_entries(s.state.total_accumulated_airdrops), coin_entries(transferred(p, s.registry)),
            Operation::Sub) <==> withdrawal_covered(s, u),
{
    let total = coin_entries(s.state.total_accumulated_airdrops);
    let t = coin_entries(transferred(p, s.registry));
    assert forall|d: Seq<char>| #[trigger] apply_op(entry_amount(total, d), entry_amount(t, d), Operation::Sub)
        == coin_amount(s.state.total_accumulated_airdrops, d) - (if s.registry.contains_key(d) {
            allocated_amount(s.strategies, u, d)
        } else {
            0
        }) by {
        lemma_transferred_amount(p, s.registry, d);
        assert(entry_amount(coin_entries(p), d) == apply_op(entry_amount(coin_entries(u.pending_airdrops), d),
            entry_amount(coin_entries(allocation_fund(s.strategies, u.strategies)), d), Operation::Add));
    }
    if withdrawal_covered(s, u) {
        assert forall|d: Seq<char>| 0 <= #[trigger] apply_op(entry_amount(total, d), entry_amount(t, d), Operation::Sub) <= u128::MAX by {
            lemma_coin_amount_bounds(s.state.total_accumulated_airdrops, d);
            lemma_transferred_amount(p, s.registry, d);
            crate::coins::lemma_coin_entries_nonneg(p);
            lemma_entry_amount_nonneg(coin_entries(p), d);
        }
    }
    if merge_in_range(total, t, Operation::Sub) {
        assert forall|d: Seq<char>| #[trigger] s.registry.contains_key(d) implies
            allocated_amount(s.strategies, u, d) <= coin_amount(s.state.total_accumulated_airdrops, d) by {
            assert(0 <= apply_op(entry_amount(total, d), entry_amount(t, d), Operation::Sub));
        }
    }
}

impl Store {
    /// Hands out the transferable pending airdrops: zeroes them, and returns them with the
    /// transfers to `recipient`.
    fn transfer_pending_airdrops(&self, pending: &mut Vec<Coin>, recipient: &String) -> (r: (Vec<Coin>, Vec<ContractMsg>))
        requires
            self.cw20_token_contracts_registry.wf(),
        ensures
            final(pending)@ == withdrawn(old(pending)@, self@.registry),
            r.0@ == transferred(old(pending)@, self@.registry),
            r.1@ == transfer_msgs(old(pending)@, self@.registry, *recipient),
    {
        let ghost p = pending@;
        let ghost registry = self@.registry;
        let mut transferred_coins: Vec<Coin> = Vec::new();
        let mut messages: Vec<ContractMsg> = Vec::new();
        let mut k: usize = 0;
        proof {
            assert(p.take(0) =~= Seq::<Coin>::empty());
            assert(withdrawn(p.take(0), registry) + p.skip(0) =~= p);
            assert(transfer_msgs(p.take(0), registry, *recipient) =~= Seq::<ContractMsg>::empty());
        }
        while k < pending.len()
            invariant
                k <= p.len(),
                p == old(pending)@,
                registry == self@.registry,
                self.cw20_token_contracts_registry.wf(),
                pending@.len() == p.len(),
                pending@ == withdrawn(p.take(k as int), registry) + p.skip(k as int),
                transferred_coins@ == transferred(p.take(k as int), registry),
                messages@ == transfer_msgs(p.take(k as int), registry, *recipient),
            decreases p.len() - k,
        {
            proof {
                assert(p.take(k + 1).drop_last() =~= p.take(k as int));
                assert(p.take(k + 1).last() == p[k as int]);
                assert(pending@[k as int] == p[k as int]);
            }
            let amount = pending[k].amount;
            let mut handed_out = false;
            match self.cw20_token_contracts_registry.get(&pending[k].denom) {
                Some(contracts) => {
                    if amount != 0 {
                        let denom = pending[k].denom.clone();
                        messages.push(ContractMsg::Cw20Transfer {
                            cw20_token_contract: contracts.cw20_token_contract.clone(),
                            recipient: recipient.clone(),
                            amount,
                        });
                        transferred_coins.push(Coin { denom: denom.clone(), amount });
                        // the airdrop is handed over completely
                        pending.set(k, Coin { denom, amount: 0 });
                        handed_out = true;
                    }
                },
                None => {},
            }
            proof {
                assert(handed_out == transferable(p[k as int], registry));
                assert(pending@ =~= withdrawn(p.take(k + 1), registry) + p.skip(k + 1));
                assert(transferred_coins@ =~= transferred(p.take(k + 1), registry));
                assert(messages@ =~= transfer_msgs(p.take(k + 1), registry, *recipient));
            }
            k = k + 1;
        }
        proof {
            assert(p.take(k as int) =~= p);
            assert(p.skip(k as int) =~= Seq::<Coin>::empty());
            assert(pending@ =~= withdrawn(p, registry));
        }
        (transferred_coins, messages)
    }
}

impl Store {
    /// A user withdraws their airdrops: the airdrops of all their positions are collected first
    /// (`allocate_user_airdrops_across_strategies`), then every pending airdrop of a registered
    /// denomination and of a non-zero amount is transferred to the user through its token
    /// contract, set to zero in the user's record, and taken off the contract's totals.
    pub fn try_withdraw_airdrops(&mut self, sender: &String) -> (r: Result<Response, ContractError>)
        requires
            old(self).wf(),
        ensures
            r is Err ==> final(self)@ == old(self)@,
            !old(self)@.users.contains_key(sender@) ==> r == Err::<Response, ContractError>(ContractError::UserRewardInfoDoesNotExist {}),
            old(self)@.users.contains_key(sender@) ==> {
                let u = old(self)@.users[sender@];
                &&& (r is Ok <==> allocation_ok(old(self)@.strategies, u) && withdrawal_covered(old(self)@, u))
                &&& (r is Err ==> r == Err::<Response, ContractError>(ContractError::Overflow {}))
            },
            r matches Ok(resp) ==> {
                let s = old(self)@;
                let u = s.users[sender@];
                &&& final(self).wf()
                &&& resp.attributes@.len() == 0
                &&& final(self)@ == (StoreView {
                    users: final(self)@.users,
                    state: StateView { total_accumulated_airdrops: final(self)@.state.total_accumulated_airdrops, ..s.state },
                    ..s
                })
                &&& exists|p: Seq<Coin>| #![trigger withdrawn(p, s.registry)] {
                    &&& merged(coin_entries(p), coin_entries(u.pending_airdrops),
                        coin_entries(allocation_fund(s.strategies, u.strategies)), Operation::Add)
                    &&& coin_entries(p) == merge_entries(coin_entries(u.pending_airdrops),
                        coin_entries(allocation_fund(s.strategies, u.strategies)), Operation::Add)
                    &&& final(self)@.users == s.users.insert(sender@, UserRewardInfoView {
                        strategies: allocated_entries(s.strategies, u.strategies),
                        pending_airdrops: withdrawn(p, s.registry),
                        ..u
                    })
                    &&& resp.messages@ == transfer_msgs(p, s.registry, *sender)
                    &&& merged(coin_entries(final(self)@.state.total_accumulated_airdrops),
                        coin_entries(s.state.total_accumulated_airdrops), coin_entries(transferred(p, s.registry)), Operation::Sub)
                    &&& coin_entries(final(self)@.state.total_accumulated_airdrops) == merge_entries(
                        coin_entries(s.state.total_accumulated_airdrops), coin_entries(transferred(p, s.registry)), Operation::Sub)
                }
            },
            r is Ok ==> forall|d: Seq<char>| #[trigger] coin_amount(final(self)@.users[sender@].pending_airdrops, d)
                == if old(self)@.registry.contains_key(d) { 0 } else {
                    allocated_amount(old(self)@.strategies, old(self)@.users[sender@], d)
                },
            r is Ok ==> forall|d: Seq<char>| #[trigger] coin_amount(final(self)@.state.total_accumulated_airdrops, d)
                == coin_amount(old(self)@.state.total_accumulated_airdrops, d) - if old(self)@.registry.contains_key(d) {
                    allocated_amount(old(self)@.strategies, old(self)@.users[sender@], d)
                } else { 0 },
    {
        let ghost s = self@;
        let mut user = match self.users.get(sender) {
            Some(u) => u.clone(),
            None => return Err(ContractError::UserRewardInfoDoesNotExist {}),
        };
        let ghost u0 = user@;
        proof {
            assert(s.users.contains_key(sender@));
            assert(u0.wf());
        }
        match self.allocate_user_airdrops_across_strategies(&mut user) {
            Ok(()) => {},
            Err(e) => return Err(e),
        }
        let ghost p = user.pending_airdrops@;
        let mut pending: Vec<Coin> = Vec::new();
        std::mem::swap(&mut pending, &mut user.pending_airdrops);
        let (transferred_coins, messages) = self.transfer_pending_airdrops(&mut pending, sender);
        user.pending_airdrops = pending;
        proof {
            lemma_withdrawal_in_range(s, u0, p);
        }
        let total = clone_coins(&self.state.total_accumulated_airdrops);
        let new_total = match checked_merge_coin_vector(total, CoinVecOp { fund: transferred_coins, operation: Operation::Sub }) {
            Some(t) => t,
            None => return Err(ContractError::Overflow {}),
        };
        self.state.total_accumulated_airdrops = new_total;
        let ghost new_user = user@;
        self.users.insert(sender.clone(), user);
        proof {
            assert(self.users.map() =~= s.users.insert(sender@, new_user));
            assert(new_user == (UserRewardInfoView {
                strategies: allocated_entries(s.strategies, u0.strategies),
                pending_airdrops: withdrawn(p, s.registry),
                ..u0
            }));
            assert(coins_unique(withdrawn(p, s.registry))) by {
                assert forall|a: int, b: int| 0 <= a < b < coin_entries(withdrawn(p, s.registry)).len() implies
                    coin_entries(withdrawn(p, s.registry))[a].0 != coin_entries(withdrawn(p, s.registry))[b].0 by {
                    assert(coin_entries(p)[a].0 != coin_entries(p)[b].0);
                }
            }
            assert forall|x: Seq<char>| #[trigger] self.user_views().contains_key(x) implies self.user_views()[x].wf() by {
                if x != sender@ {
                    assert(s.users.contains_key(x));
                }
            }
        }
        proof {
            lemma_withdrawal_per_denomination(s.state.total_accumulated_airdrops, u0.pending_airdrops,
                allocation_fund(s.strategies, u0.strategies), p, s.registry, self@.state.total_accumulated_airdrops);
        }
        let mut resp = Response::new();
        resp.messages = messages;
        Ok(resp)
    }
}

/// Withdrawing airdrops, denomination by denomination: a registered one is handed over whole
/// (what the user held plus what their positions earned) and taken off the contract's total; an
/// unregistered one stays pending.
proof fn lemma_withdrawal_per_denomination(
    total: Seq<Coin>,
    pending: Seq<Coin>,
    fund: Seq<Coin>,
    p: Seq<Coin>,
    registry: Map<Seq<char>, Cw20TokenContractsInfo>,
    total_after: Seq<Coin>,
)
    requires
        coin_entries(p) == merge_entries(coin_entries(pending), coin_entries(fund), Operation::Add),
        coin_entries(total_after) == merge_entries(coin_entries(total), coin_entries(transferred(p, registry)), Operation::Sub),
    ensures
        forall|d: Seq<char>| #[trigger] coin_amount(withdrawn(p, registry), d)
            == if registry.contains_key(d) { 0 } else { coin_amount(pending, d) + coin_amount(fund, d) },
        forall|d: Seq<char>| #[trigger] coin_amount(total_after, d) == coin_amount(total, d)
            - if registry.contains_key(d) { coin_amount(pending, d) + coin_amount(fund, d) } else { 0 },
{
    assert forall|d: Seq<char>| #[trigger] coin_amount(withdrawn(p, registry), d)
        == if registry.contains_key(d) { 0 } else { coin_amount(pending, d) + coin_amount(fund, d) } by {
        lemma_merge_entries_amounts(coin_entries(pending), coin_entries(fund), Operation::Add, d);
        crate::laws::law_withdrawal_hands_over_everything_registered(p, registry, d);
    }
    assert forall|d: Seq<char>| #[trigger] coin_amount(total_after, d) == coin_amount(total, d)
        - if registry.contains_key(d) { coin_amount(pending, d) + coin_amount(fund, d) } else { 0 } by {
        lemma_merge_entries_amounts(coin_entries(pending), coin_entries(fund), Operation::Add, d);
        lemma_merge_entries_amounts(coin_entries(total), coin_entries(transferred(p, registry)), Operation::Sub, d);
        crate::laws::law_withdrawal_hands_over_everything_registered(p, registry, d);
    }
}

} // verus!
