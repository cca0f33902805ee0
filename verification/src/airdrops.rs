//! Airdrops: claimed by strategies, credited to users, and withdrawn by users.

use vstd::prelude::*;
use crate::coins::{Coin, CoinVecOp, DecCoin, DecCoinVecOp, Operation, checked_merge_coin_vector,
    checked_merge_dec_coin_vector, clone_coins, coin_entries, coins_unique, dec_coin_entries,
    dec_coins_unique, entry_amount, merge_entries, coin_amount, lemma_merge_entries_amounts, merge_in_range, merged, lemma_merge_entries_concat, lemma_coin_entries_concat,
    lemma_coin_entries_nonneg, lemma_in_range_compose, lemma_merged_compose, lemma_merged_empty};
use crate::error::ContractError;
use crate::math::{Decimal, DECIMAL_FRACTIONAL, spec_div, checked_decimal_division, checked_decimal_from_uint128};
use crate::msg::{attr, is_text_attr, ContractMsg, Response, UpdateUserAirdropsRequest};
use crate::state::{StrategyInfoView, UserRewardInfo, UserRewardInfoView};
use crate::store::{Store, StoreView};
use crate::admin::fresh_user;

verus! {

broadcast use vstd::std_specs::btree::group_btree_axioms;

/// The airdrop a strategy receives per share when `amount` of it is claimed.
pub open spec fn airdrop_per_share(amount: u128, total_shares: Decimal) -> Decimal {
    Decimal { atomics: spec_div(Decimal { atomics: (amount * DECIMAL_FRACTIONAL) as u128 }, total_shares) as u128 }
}

/// Whether claiming `amount` of `denom` for a strategy succeeds for `sender`; otherwise the
/// refusal.
pub open spec fn claim_outcome(s: StoreView, sender: String, strategy_id: u64, amount: u128, denom: Seq<char>) -> Result<(), ContractError> {
    if !s.is_manager(sender) {
        Err(ContractError::Unauthorized {})
    } else if !s.registry.contains_key(denom) {
        Err(ContractError::AirdropNotRegistered {})
    } else if !s.strategies.contains_key(strategy_id) {
        Err(ContractError::StrategyInfoDoesNotExist {})
    } else if amount == 0 {
        Err(ContractError::ZeroAmount {})
    } else {
        let st = s.strategies[strategy_id];
        if !merge_in_range(coin_entries(st.total_airdrops_accumulated), seq![(denom, amount as int)], Operation::Add) {
            Err(ContractError::Overflow {})
        } else if amount * DECIMAL_FRACTIONAL > u128::MAX || st.total_shares.atomics == 0
            || spec_div(Decimal { atomics: (amount * DECIMAL_FRACTIONAL) as u128 }, st.total_shares) > u128::MAX {
            Err(ContractError::Overflow {})
        } else if !merge_in_range(dec_coin_entries(st.global_airdrop_pointer),
            seq![(denom, airdrop_per_share(amount, st.total_shares).atomics as int)], Operation::Add) {
            Err(ContractError::Overflow {})
        } else if !merge_in_range(coin_entries(s.state.total_accumulated_airdrops), seq![(denom, amount as int)], Operation::Add) {
            Err(ContractError::Overflow {})
        } else {
            Ok(())
        }
    }
}

impl Store {
    /// The manager claims an airdrop for a strategy: the strategy's accumulated airdrops and the
    /// contract's total grow by `amount`, the strategy's global airdrop pointer by the amount per
    /// share, and the strategy's SIC is asked to claim it.
    pub fn try_claim_airdrops(
        &mut self,
        sender: &String,
        strategy_id: u64,
        amount: u128,
        denom: String,
        claim_msg: Vec<u8>,
    ) -> (r: Result<Response, ContractError>)
        requires
            old(self).wf(),
        ensures
            r is Err ==> final(self)@ == old(self)@,
            match claim_outcome(old(self)@, *sender, strategy_id, amount, denom@) {
                Err(e) => r == Err::<Response, ContractError>(e),
                Ok(_) => r is Ok,
            },
            r matches Ok(resp) ==> {
                let s = old(self)@;
                let st = s.strategies[strategy_id];
                let fst = final(self)@.strategies[strategy_id];
                let reg = s.registry[denom@];
                &&& final(self).wf()
                &&& final(self)@ == (StoreView {
                    state: crate::state::StateView { total_accumulated_airdrops: final(self)@.state.total_accumulated_airdrops, ..s.state },
                    strategies: s.strategies.insert(strategy_id, StrategyInfoView {
                        global_airdrop_pointer: fst.global_airdrop_pointer,
                        total_airdrops_accumulated: fst.total_airdrops_accumulated,
                        ..st
                    }),
                    ..s
                })
                &&& coin_entries(fst.total_airdrops_accumulated) == merge_entries(coin_entries(st.total_airdrops_accumulated),
                    seq![(denom@, amount as int)], Operation::Add)
                &&& dec_coin_entries(fst.global_airdrop_pointer) == merge_entries(dec_coin_entries(st.global_airdrop_pointer),
                    seq![(denom@, airdrop_per_share(amount, st.total_shares).atomics as int)], Operation::Add)
                &&& coin_entries(final(self)@.state.total_accumulated_airdrops) == merge_entries(
                    coin_entries(s.state.total_accumulated_airdrops), seq![(denom@, amount as int)], Operation::Add)
                &&& resp.attributes@.len() == 0
                &&& resp.messages@.len() == 1
                &&& resp.messages@[0] matches ContractMsg::SicClaimAirdrops {
                        sic_contract_address, airdrop_token_contract, cw20_token_contract, airdrop_token, amount: a, claim_msg: m }
                    && sic_contract_address == st.sic_contract_address
                    && airdrop_token_contract == reg.airdrop_contract
                    && cw20_token_contract == reg.cw20_token_contract
                    && airdrop_token@ == denom@ && a == amount && m@ == claim_msg@
            },
    {
        let ghost s = self@;
        if *sender != self.state.manager {
            return Err(ContractError::Unauthorized {});
        }
        let cw20_token_contracts = match self.cw20_token_contracts_registry.get(&denom) {
            Some(c) => c.clone(),
            None => return Err(ContractError::AirdropNotRegistered {}),
        };
        let mut strategy_info = match self.strategy(strategy_id) {
            Some(st) => st.clone(),
            None => return Err(ContractError::StrategyInfoDoesNotExist {}),
        };
        let ghost st = strategy_info@;
        proof {
            assert(s.strategies.contains_key(strategy_id));
            assert(st.wf());
        }
        if amount == 0 {
            return Err(ContractError::ZeroAmount {});
        }
        let total_shares = strategy_info.total_shares;
        let sic_address = strategy_info.sic_contract_address.clone();
        let mut fund: Vec<Coin> = Vec::new();
        fund.push(Coin { denom: denom.clone(), amount });
        proof {
            assert(coin_entries(fund@) =~= seq![(denom@, amount as int)]);
        }
        let mut accumulated: Vec<Coin> = Vec::new();
        std::mem::swap(&mut accumulated, &mut strategy_info.total_airdrops_accumulated);
        strategy_info.total_airdrops_accumulated = match checked_merge_coin_vector(accumulated, CoinVecOp { fund, operation: Operation::Add }) {
            Some(v) => v,
            None => return Err(ContractError::Overflow {}),
        };
        let amount_dec = match checked_decimal_from_uint128(amount) {
            Some(d) => d,
            None => return Err(ContractError::Overflow {}),
        };
        if total_shares.is_zero() {
            return Err(ContractError::Overflow {});
        }
        let per_share = match checked_decimal_division(amount_dec, total_shares) {
            Some(d) => d,
            None => return Err(ContractError::Overflow {}),
        };
        let mut dec_fund: Vec<DecCoin> = Vec::new();
        dec_fund.push(DecCoin { denom: denom.clone(), amount: per_share });
        proof {
            assert(dec_coin_entries(dec_fund@) =~= seq![(denom@, airdrop_per_share(amount, st.total_shares).atomics as int)]);
        }
        strategy_info.global_airdrop_pointer = match checked_merge_dec_coin_vector(&strategy_info.global_airdrop_pointer,
            DecCoinVecOp { fund: dec_fund, operation: Operation::Add }) {
            Some(v) => v,
            None => return Err(ContractError::Overflow {}),
        };
        let mut state_fund: Vec<Coin> = Vec::new();
        state_fund.push(Coin { denom: denom.clone(), amount });
        proof {
            assert(coin_entries(state_fund@) =~= seq![(denom@, amount as int)]);
        }
        let total = clone_coins(&self.state.total_accumulated_airdrops);
        let new_total = match checked_merge_coin_vector(total, CoinVecOp { fund: state_fund, operation: Operation::Add }) {
            Some(v) => v,
            None => return Err(ContractError::Overflow {}),
        };
        self.state.total_accumulated_airdrops = new_total;
        let ghost fst = strategy_info@;
        self.put_strategy(strategy_id, strategy_info);
        proof {
            assert(self.strategy_views() =~= s.strategies.insert(strategy_id, fst));
            assert forall|id: u64| #[trigger] self.strategy_views().contains_key(id) implies self.strategy_views()[id].wf() by {
                if id != strategy_id {
                    assert(s.strategies.contains_key(id));
                }
            }
            assert forall|x: Seq<char>| #[trigger] self.user_views().contains_key(x) implies self.user_views()[x].wf() by {
                assert(s.users.contains_key(x));
            }
        }
        let mut resp = Response::new();
        resp.messages.push(ContractMsg::SicClaimAirdrops {
            sic_contract_address: sic_address,
            airdrop_token_contract: cw20_token_contracts.airdrop_contract,
            cw20_token_contract: cw20_token_contracts.cw20_token_contract,
            airdrop_token: denom,
            amount,
            claim_msg,
        });
        Ok(resp)
    }
}

/// All the airdrops of a list of requests, one request after the other.
pub open spec fn all_pool_airdrops(reqs: Seq<UpdateUserAirdropsRequest>) -> Seq<Coin>
    decreases reqs.len(),
{
    if reqs.len() == 0 {
        Seq::empty()
    } else {
        all_pool_airdrops(reqs.drop_last()) + reqs.last().pool_airdrops@
    }
}

/// The airdrops of the requests for `user`, one request after the other.
pub open spec fn user_pool_airdrops(reqs: Seq<UpdateUserAirdropsRequest>, user: Seq<char>) -> Seq<Coin>
    decreases reqs.len(),
{
    if reqs.len() == 0 {
        Seq::empty()
    } else {
        user_pool_airdrops(reqs.drop_last(), user) + if reqs.last().user@ == user {
            reqs.last().pool_airdrops@
        } else {
            Seq::empty()
        }
    }
}

/// Every user a request names has a record: the one they started from (see `base_user`), with
/// the airdrops of their requests merged into the pending airdrops.
pub open spec fn requested_credited(
    s: StoreView,
    after: Map<Seq<char>, UserRewardInfoView>,
    reqs: Seq<UpdateUserAirdropsRequest>,
) -> bool {
    forall|u: Seq<char>| requested_user(reqs, u) ==> {
        &&& #[trigger] after.contains_key(u)
        &&& after[u] == (UserRewardInfoView { pending_airdrops: after[u].pending_airdrops, ..base_user(s, u) })
        &&& coin_entries(after[u].pending_airdrops) == merge_entries(coin_entries(base_user(s, u).pending_airdrops),
            coin_entries(user_pool_airdrops(reqs, u)), Operation::Add)
    }
}

/// The users no request names keep their records (or their lack of one).
pub open spec fn others_untouched(
    before: Map<Seq<char>, UserRewardInfoView>,
    after: Map<Seq<char>, UserRewardInfoView>,
    reqs: Seq<UpdateUserAirdropsRequest>,
) -> bool {
    forall|u: Seq<char>| !requested_user(reqs, u) ==> {
        &&& (#[trigger] after.contains_key(u) <==> before.contains_key(u))
        &&& (before.contains_key(u) ==> after[u] == before[u])
    }
}

pub open spec fn requested_user(reqs: Seq<UpdateUserAirdropsRequest>, user: Seq<char>) -> bool {
    exists|i: int| 0 <= i < reqs.len() && #[trigger] reqs[i].user@ == user
}

/// The record a request for `user` starts from: the stored one, or a fresh one with the
/// default portfolio.
pub open spec fn base_user(s: StoreView, user: Seq<char>) -> UserRewardInfoView {
    if s.users.contains_key(user) {
        s.users[user]
    } else {
        fresh_user(s.config.default_user_portfolio)
    }
}

/// Whether crediting the airdrops of the requests stays within 128 bits, in the contract's total
/// and in every user's pending airdrops.
pub open spec fn user_airdrops_in_range(s: StoreView, reqs: Seq<UpdateUserAirdropsRequest>) -> bool {
    &&& merge_in_range(coin_entries(s.state.total_accumulated_airdrops), coin_entries(all_pool_airdrops(reqs)), Operation::Add)
    &&& forall|u: Seq<char>| requested_user(reqs, u) ==> merge_in_range(
        coin_entries(#[trigger] base_user(s, u).pending_airdrops), coin_entries(user_pool_airdrops(reqs, u)), Operation::Add)
}

proof fn lemma_all_pool_prefix(reqs: Seq<UpdateUserAirdropsRequest>, j: int, d: Seq<char>)
    requires
        0 <= j <= reqs.len(),
    ensures
        0 <= entry_amount(coin_entries(all_pool_airdrops(reqs.take(j))), d) <= entry_amount(coin_entries(all_pool_airdrops(reqs)), d),
    decreases reqs.len(),
{
    lemma_coin_entries_nonneg(all_pool_airdrops(reqs.take(j)));
    crate::coins::lemma_entry_amount_nonneg(coin_entries(all_pool_airdrops(reqs.take(j))), d);
    if j < reqs.len() {
        assert(reqs.drop_last().take(j) =~= reqs.take(j));
        lemma_all_pool_prefix(reqs.drop_last(), j, d);
        lemma_coin_entries_concat(all_pool_airdrops(reqs.drop_last()), reqs.last().pool_airdrops@);
        crate::coins::lemma_entry_amount_concat(coin_entries(all_pool_airdrops(reqs.drop_last())), coin_entries(reqs.last().pool_airdrops@), d);
        lemma_coin_entries_nonneg(reqs.last().pool_airdrops@);
        crate::coins::lemma_entry_amount_nonneg(coin_entries(reqs.last().pool_airdrops@), d);
    } else {
        assert(reqs.take(j) =~= reqs);
    }
}

proof fn lemma_user_pool_prefix(reqs: Seq<UpdateUserAirdropsRequest>, j: int, u: Seq<char>, d: Seq<char>)
    requires
        0 <= j <= reqs.len(),
    ensures
        0 <= entry_amount(coin_entries(user_pool_airdrops(reqs.take(j), u)), d) <= entry_amount(coin_entries(user_pool_airdrops(reqs, u)), d),
    decreases reqs.len(),
{
    lemma_coin_entries_nonneg(user_pool_airdrops(reqs.take(j), u));
    crate::coins::lemma_entry_amount_nonneg(coin_entries(user_pool_airdrops(reqs.take(j), u)), d);
    if j < reqs.len() {
        assert(reqs.drop_last().take(j) =~= reqs.take(j));
        lemma_user_pool_prefix(reqs.drop_last(), j, u, d);
        let last: Seq<Coin> = if reqs.last().user@ == u { reqs.last().pool_airdrops@ } else { Seq::empty() };
        lemma_coin_entries_concat(user_pool_airdrops(reqs.drop_last(), u), last);
        crate::coins::lemma_entry_amount_concat(coin_entries(user_pool_airdrops(reqs.drop_last(), u)), coin_entries(last), d);
        lemma_coin_entries_nonneg(last);
        crate::coins::lemma_entry_amount_nonneg(coin_entries(last), d);
    } else {
        assert(reqs.take(j) =~= reqs);
    }
}

/// Out of range on a prefix is out of range on the whole.
proof fn lemma_out_of_range_prefix(
    c: Seq<(Seq<char>, int)>,
    prefix: Seq<(Seq<char>, int)>,
    whole: Seq<(Seq<char>, int)>,
)
    requires
        crate::coins::entries_nonneg(c),
        forall|d: Seq<char>| 0 <= #[trigger] entry_amount(prefix, d) <= entry_amount(whole, d),
        !merge_in_range(c, prefix, Operation::Add),
    ensures
        !merge_in_range(c, whole, Operation::Add),
{
    let d = choose|d: Seq<char>| !(0 <= #[trigger] crate::coins::apply_op(entry_amount(c, d), entry_amount(prefix, d), Operation::Add) <= u128::MAX);
    crate::coins::lemma_entry_amount_nonneg(c, d);
    assert(entry_amount(prefix, d) <= entry_amount(whole, d));
    assert(!(0 <= crate::coins::apply_op(entry_amount(c, d), entry_amount(whole, d), Operation::Add) <= u128::MAX));
}

/// Crediting the requests' airdrops adds to every denomination, in the contract's total and in
/// each requested user's pending airdrops, exactly what the requests hold of it.
proof fn lemma_credited_per_denomination(
    s: StoreView,
    users: Map<Seq<char>, UserRewardInfoView>,
    total: Seq<Coin>,
    reqs: Seq<UpdateUserAirdropsRequest>,
)
    requires
        coin_entries(total) == merge_entries(coin_entries(s.state.total_accumulated_airdrops),
            coin_entries(all_pool_airdrops(reqs)), Operation::Add),
        requested_credited(s, users, reqs),
    ensures
        forall|d: Seq<char>| #[trigger] coin_amount(total, d)
            == coin_amount(s.state.total_accumulated_airdrops, d) + coin_amount(all_pool_airdrops(reqs), d),
        forall|u: Seq<char>, d: Seq<char>| requested_user(reqs, u) ==> #[trigger] coin_amount(users[u].pending_airdrops, d)
            == coin_amount(base_user(s, u).pending_airdrops, d) + coin_amount(user_pool_airdrops(reqs, u), d),
{
    assert forall|d: Seq<char>| #[trigger] coin_amount(total, d)
        == coin_amount(s.state.total_accumulated_airdrops, d) + coin_amount(all_pool_airdrops(reqs), d) by {
        lemma_merge_entries_amounts(coin_entries(s.state.total_accumulated_airdrops), coin_entries(all_pool_airdrops(reqs)),
            Operation::Add, d);
    }
    assert forall|u: Seq<char>, d: Seq<char>| requested_user(reqs, u) implies #[trigger] coin_amount(users[u].pending_airdrops, d)
        == coin_amount(base_user(s, u).pending_airdrops, d) + coin_amount(user_pool_airdrops(reqs, u), d) by {
        assert(users.contains_key(u));
        lemma_merge_entries_amounts(coin_entries(base_user(s, u).pending_airdrops), coin_entries(user_pool_airdrops(reqs, u)),
            Operation::Add, d);
    }
}

impl Store {
    /// The delegator contract credits users with airdrops: each request's airdrops are added to
    /// the contract's total and to the user's pending airdrops (a user without a record gets one
    /// with the default portfolio).
    #[verifier::spinoff_prover]
    #[verifier::rlimit(60)]
    pub fn try_update_user_airdrops(
        &mut self,
        sender: &String,
        update_user_airdrops_requests: Vec<UpdateUserAirdropsRequest>,
    ) -> (r: Result<Response, ContractError>)
        requires
            old(self).wf(),
        ensures
            r is Err ==> final(self)@ == old(self)@,
            sender@ != old(self)@.state.delegator_contract@ ==> r == Err::<Response, ContractError>(ContractError::Unauthorized {}),
            sender@ == old(self)@.state.delegator_contract@ && update_user_airdrops_requests@.len() == 0 ==> (r matches Ok(resp)
                && final(self)@ == old(self)@ && resp.messages@.len() == 0 && resp.attributes@.len() == 1
                && is_text_attr(resp.attributes@[0], "zero_user_airdrop_requests"@, "1"@)),
            sender@ == old(self)@.state.delegator_contract@ && update_user_airdrops_requests@.len() > 0 ==> {
                &&& (r is Ok <==> user_airdrops_in_range(old(self)@, update_user_airdrops_requests@))
                &&& (r is Err ==> r == Err::<Response, ContractError>(ContractError::Overflow {}))
            },
            r matches Ok(resp) ==> final(self).wf() && resp.messages@.len() == 0,
            r is Ok ==> final(self)@.strategies == old(self)@.strategies && final(self)@.config == old(self)@.config
                && final(self)@.registry == old(self)@.registry && final(self)@.batches == old(self)@.batches,
            r is Ok ==> final(self)@.state == (crate::state::StateView {
                total_accumulated_airdrops: final(self)@.state.total_accumulated_airdrops, ..old(self)@.state }),
            r is Ok ==> coin_entries(final(self)@.state.total_accumulated_airdrops) == merge_entries(
                coin_entries(old(self)@.state.total_accumulated_airdrops), coin_entries(all_pool_airdrops(update_user_airdrops_requests@)),
                Operation::Add),
            r is Ok ==> requested_credited(old(self)@, final(self)@.users, update_user_airdrops_requests@),
            r is Ok ==> others_untouched(old(self)@.users, final(self)@.users, update_user_airdrops_requests@),
            r is Ok ==> forall|d: Seq<char>| #[trigger] coin_amount(final(self)@.state.total_accumulated_airdrops, d)
                == coin_amount(old(self)@.state.total_accumulated_airdrops, d)
                    + coin_amount(all_pool_airdrops(update_user_airdrops_requests@), d),
            r is Ok ==> forall|u: Seq<char>, d: Seq<char>| requested_user(update_user_airdrops_requests@, u) ==>
                #[trigger] coin_amount(final(self)@.users[u].pending_airdrops, d)
                    == coin_amount(base_user(old(self)@, u).pending_airdrops, d)
                        + coin_amount(user_pool_airdrops(update_user_airdrops_requests@, u), d),
    {
        let ghost s = self@;
        let reqs = update_user_airdrops_requests;
        if *sender != self.state.delegator_contract {
            return Err(ContractError::Unauthorized {});
        }
        if reqs.len() == 0 {
            let mut resp = Response::new();
            resp.attributes.push(attr("zero_user_airdrop_requests", String::from_str("1")));
            return Ok(resp);
        }
        let saved = self.snapshot();
        let ghost r = reqs@;
        let ghost t0 = coin_entries(s.state.total_accumulated_airdrops);
        let mut i: usize = 0;
        proof {
            assert(r.take(0) =~= Seq::<UpdateUserAirdropsRequest>::empty());
            lemma_merged_empty(t0);
            assert(coin_entries(Seq::<Coin>::empty()) =~= Seq::<(Seq<char>, int)>::empty());
            assert forall|d: Seq<char>| 0 <= #[trigger] crate::coins::apply_op(entry_amount(t0, d), entry_amount(coin_entries(all_pool_airdrops(r.take(0))), d), Operation::Add) <= u128::MAX by {
                lemma_all_pool_prefix(r, 0, d);
                lemma_all_pool_prefix(r, 0, d);
                if !(0 <= entry_amount(t0, d) <= u128::MAX) {
                    crate::coins::lemma_entry_amount_nonneg(t0, d);
                    if coins_unique(s.state.total_accumulated_airdrops) && crate::coins::coins_have(s.state.total_accumulated_airdrops, d) {
                        let k = choose|k: int| 0 <= k < t0.len() && #[trigger] t0[k].0 == d;
                        crate::coins::lemma_entry_amount_unique(t0, k);
                    } else {
                        crate::coins::lemma_entry_amount_absent(t0, d);
                    }
                }
            }
        }
        while i < reqs.len()
            invariant
                i <= r.len(),
                r == reqs@,
                r == update_user_airdrops_requests@,
                sender@ == s.state.delegator_contract@,
                r.len() > 0,
                s == old(self)@,
                saved@ == s,
                saved.wf(),
                t0 == coin_entries(s.state.total_accumulated_airdrops),
                self.users.wf(),
                self.cw20_token_contracts_registry.wf(),
                self@.strategies == s.strategies,
                self@.config == s.config,
                self@.registry == s.registry,
                self@.batches == s.batches,
                self@.state == (crate::state::StateView { total_accumulated_airdrops: self@.state.total_accumulated_airdrops, ..s.state }),
                coins_unique(self.state.total_accumulated_airdrops@),
                merged(coin_entries(self.state.total_accumulated_airdrops@), t0, coin_entries(all_pool_airdrops(r.take(i as int))), Operation::Add),
                merge_in_range(t0, coin_entries(all_pool_airdrops(r.take(i as int))), Operation::Add),
                coin_entries(self.state.total_accumulated_airdrops@) == merge_entries(t0, coin_entries(all_pool_airdrops(r.take(i as int))), Operation::Add),
                forall|u: Seq<char>| #[trigger] self@.users.contains_key(u) ==> self@.users[u].wf(),
                forall|u: Seq<char>| requested_user(r.take(i as int), u) ==> {
                    &&& #[trigger] self@.users.contains_key(u)
                    &&& self@.users[u] == (UserRewardInfoView { pending_airdrops: self@.users[u].pending_airdrops, ..base_user(s, u) })
                    &&& merged(coin_entries(self@.users[u].pending_airdrops), coin_entries(base_user(s, u).pending_airdrops),
                        coin_entries(user_pool_airdrops(r.take(i as int), u)), Operation::Add)
                    &&& merge_in_range(coin_entries(base_user(s, u).pending_airdrops), coin_entries(user_pool_airdrops(r.take(i as int), u)), Operation::Add)
                    &&& coin_entries(self@.users[u].pending_airdrops) == merge_entries(coin_entries(base_user(s, u).pending_airdrops),
                        coin_entries(user_pool_airdrops(r.take(i as int), u)), Operation::Add)
                },
                forall|u: Seq<char>| !requested_user(r.take(i as int), u) ==> {
                    &&& (#[trigger] self@.users.contains_key(u) <==> s.users.contains_key(u))
                    &&& (s.users.contains_key(u) ==> self@.users[u] == s.users[u])
                },
            decreases r.len() - i,
        {
            let request = &reqs[i];
            let ghost u = request.user@;
            let ghost ri = r.take(i as int);
            let ghost ri1 = r.take(i as int + 1);
            let ghost users_pre = self@.users;
            proof {
                if requested_user(ri, u) {
                    assert(users_pre.contains_key(u));
                }
                assert(ri1.drop_last() =~= ri);
                assert(ri1.last() == r[i as int]);
                lemma_coin_entries_concat(all_pool_airdrops(ri), request.pool_airdrops@);
            }
            // accumulate the airdrops in the contract's total
            let mut total: Vec<Coin> = Vec::new();
            std::mem::swap(&mut total, &mut self.state.total_accumulated_airdrops);
            let ghost tc = coin_entries(total@);
            let new_total = match checked_merge_coin_vector(total, CoinVecOp { fund: clone_coins(&request.pool_airdrops), operation: Operation::Add }) {
                Some(v) => v,
                None => {
                    proof {
                        lemma_coin_entries_nonneg(s.state.total_accumulated_airdrops);
                        lemma_coin_entries_nonneg(all_pool_airdrops(ri));
                        lemma_coin_entries_nonneg(request.pool_airdrops@);
                        lemma_in_range_compose(t0, coin_entries(all_pool_airdrops(ri)), coin_entries(request.pool_airdrops@), tc);
                        assert forall|d: Seq<char>| 0 <= #[trigger] entry_amount(coin_entries(all_pool_airdrops(ri1)), d)
                            <= entry_amount(coin_entries(all_pool_airdrops(r)), d) by {
                            lemma_all_pool_prefix(r, i as int + 1, d);
                        }
                        lemma_out_of_range_prefix(t0, coin_entries(all_pool_airdrops(ri1)), coin_entries(all_pool_airdrops(r)));
                    }
                    return self.refuse(saved, ContractError::Overflow {});
                },
            };
            proof {
                lemma_coin_entries_nonneg(s.state.total_accumulated_airdrops);
                lemma_coin_entries_nonneg(all_pool_airdrops(ri));
                lemma_coin_entries_nonneg(request.pool_airdrops@);
                lemma_in_range_compose(t0, coin_entries(all_pool_airdrops(ri)), coin_entries(request.pool_airdrops@), tc);
                lemma_merged_compose(t0, coin_entries(all_pool_airdrops(ri)), coin_entries(request.pool_airdrops@), tc, coin_entries(new_total@));
                lemma_merge_entries_concat(t0, coin_entries(all_pool_airdrops(ri)), coin_entries(request.pool_airdrops@), Operation::Add);
            }
            self.state.total_accumulated_airdrops = new_total;
            // credit the user
            let mut user_reward_info = match self.users.take(&request.user) {
                Some(info) => info,
                None => UserRewardInfo::new(crate::state::clone_portfolio(&self.config.default_user_portfolio)),
            };
            let ghost before = user_reward_info@;
            let ghost pc = coin_entries(before.pending_airdrops);
            let ghost bu = coin_entries(base_user(s, u).pending_airdrops);
            let ghost up = coin_entries(user_pool_airdrops(ri, u));
            proof {
                if requested_user(ri, u) {
                    assert(before == (UserRewardInfoView { pending_airdrops: before.pending_airdrops, ..base_user(s, u) }));
                    assert(merged(pc, bu, up, Operation::Add));
                    assert(pc == merge_entries(bu, up, Operation::Add));
                } else {
                    assert(before == base_user(s, u));
                    assert(user_pool_airdrops(ri, u) =~= Seq::<Coin>::empty()) by {
                        lemma_user_pool_absent(ri, u);
                    }
                    assert(up =~= Seq::<(Seq<char>, int)>::empty());
                    lemma_merged_empty(bu);
                }
                assert(user_pool_airdrops(ri1, u) == user_pool_airdrops(ri, u) + request.pool_airdrops@);
                lemma_coin_entries_concat(user_pool_airdrops(ri, u), request.pool_airdrops@);
                lemma_coin_entries_nonneg(base_user(s, u).pending_airdrops);
                lemma_coin_entries_nonneg(user_pool_airdrops(ri, u));
                assert(before.wf());
            }
            let mut pending: Vec<Coin> = Vec::new();
            std::mem::swap(&mut pending, &mut user_reward_info.pending_airdrops);
            let new_pending = match checked_merge_coin_vector(pending, CoinVecOp { fund: clone_coins(&request.pool_airdrops), operation: Operation::Add }) {
                Some(v) => v,
                None => {
                    proof {
                        lemma_in_range_compose(bu, up, coin_entries(request.pool_airdrops@), pc);
                        assert forall|d: Seq<char>| 0 <= #[trigger] entry_amount(coin_entries(user_pool_airdrops(ri1, u)), d)
                            <= entry_amount(coin_entries(user_pool_airdrops(r, u)), d) by {
                            lemma_user_pool_prefix(r, i as int + 1, u, d);
                        }
                        lemma_out_of_range_prefix(bu, coin_entries(user_pool_airdrops(ri1, u)), coin_entries(user_pool_airdrops(r, u)));
                        assert(r[i as int].user@ == u);
                        assert(requested_user(r, u));
                    }
                    return self.refuse(saved, ContractError::Overflow {});
                },
            };
            proof {
                lemma_in_range_compose(bu, up, coin_entries(request.pool_airdrops@), pc);
                lemma_merged_compose(bu, up, coin_entries(request.pool_airdrops@), pc, coin_entries(new_pending@));
                assert(pc == merge_entries(bu, up, Operation::Add));
                lemma_merge_entries_concat(bu, up, coin_entries(request.pool_airdrops@), Operation::Add);
            }
            user_reward_info.pending_airdrops = new_pending;
            let ghost after = user_reward_info@;
            proof {
                assert(after.strategies == before.strategies);
                assert(after.wf());
            }
            let ghost users_before = self@.users;
            self.users.insert(request.user.clone(), user_reward_info);
            proof {
                assert(self@.users == users_before.insert(u, after));
                assert(ri1.last().user@ == u);
                assert forall|v: Seq<char>| requested_user(ri1, v) implies {
                    &&& #[trigger] self@.users.contains_key(v)
                    &&& self@.users[v] == (UserRewardInfoView { pending_airdrops: self@.users[v].pending_airdrops, ..base_user(s, v) })
                    &&& merged(coin_entries(self@.users[v].pending_airdrops), coin_entries(base_user(s, v).pending_airdrops),
                        coin_entries(user_pool_airdrops(ri1, v)), Operation::Add)
                    &&& merge_in_range(coin_entries(base_user(s, v).pending_airdrops), coin_entries(user_pool_airdrops(ri1, v)), Operation::Add)
                    &&& coin_entries(self@.users[v].pending_airdrops) == merge_entries(coin_entries(base_user(s, v).pending_airdrops),
                        coin_entries(user_pool_airdrops(ri1, v)), Operation::Add)
                } by {
                    if v != u {
                        let k = choose|k: int| 0 <= k < ri1.len() && #[trigger] ri1[k].user@ == v;
                        assert(k != i);
                        assert(ri[k].user@ == v);
                        assert(user_pool_airdrops(ri1, v) =~= user_pool_airdrops(ri, v) + Seq::<Coin>::empty());
                    }
                }
                assert forall|v: Seq<char>| !requested_user(ri1, v) implies {
                    &&& (#[trigger] self@.users.contains_key(v) <==> s.users.contains_key(v))
                    &&& (s.users.contains_key(v) ==> self@.users[v] == s.users[v])
                } by {
                    assert(v != u);
                    if requested_user(ri, v) {
                        let k = choose|k: int| 0 <= k < ri.len() && #[trigger] ri[k].user@ == v;
                        assert(ri1[k].user@ == v);
                    }
                }
                assert forall|v: Seq<char>| #[trigger] self@.users.contains_key(v) implies self@.users[v].wf() by {
                    if v != u {
                        assert(users_before.contains_key(v));
                    }
                }
            }
            i = i + 1;
        }
        proof {
            assert(r.take(r.len() as int) =~= r);
            assert forall|id: u64| #[trigger] self.strategy_views().contains_key(id) implies self.strategy_views()[id].wf() by {
                assert(s.strategies.contains_key(id));
            }
            assert forall|u: Seq<char>| requested_user(r, u) implies merge_in_range(
                coin_entries(#[trigger] base_user(s, u).pending_airdrops), coin_entries(user_pool_airdrops(r, u)), Operation::Add) by {
                assert(self@.users.contains_key(u));
            }
            assert(user_airdrops_in_range(s, r));
            assert(self.users.wf());
            assert(self.cw20_token_contracts_registry.wf());
            assert(coins_unique(self.state.total_accumulated_airdrops@));
            assert forall|u: Seq<char>| #[trigger] self.user_views().contains_key(u) implies self.user_views()[u].wf() by {
                assert(self@.users.contains_key(u));
            }
            assert(self.wf());
            assert(self@.state == (crate::state::StateView {
                total_accumulated_airdrops: self@.state.total_accumulated_airdrops, ..s.state }));
            assert(self@.strategies == s.strategies);
            assert(self@.config == s.config);
            assert(self@.registry == s.registry);
            assert(self@.batches == s.batches);
            assert(coin_entries(self@.state.total_accumulated_airdrops) == merge_entries(coin_entries(s.state.total_accumulated_airdrops),
                coin_entries(all_pool_airdrops(r)), Operation::Add));
            assert(requested_credited(s, self@.users, r));
            assert(others_untouched(s.users, self@.users, r));
            lemma_credited_per_denomination(s, self@.users, self@.state.total_accumulated_airdrops, r);
        }
        Ok(Response::new())
    }
}

proof fn lemma_user_pool_absent(reqs: Seq<UpdateUserAirdropsRequest>, u: Seq<char>)
    requires
        !requested_user(reqs, u),
    ensures
        user_pool_airdrops(reqs, u) =~= Seq::<Coin>::empty(),
    decreases reqs.len(),
{
    if reqs.len() > 0 {
        assert(!requested_user(reqs.drop_last(), u)) by {
            if requested_user(reqs.drop_last(), u) {
                let k = choose|k: int| 0 <= k < reqs.drop_last().len() && #[trigger] reqs.drop_last()[k].user@ == u;
                assert(reqs[k].user@ == u);
            }
        }
        lemma_user_pool_absent(reqs.drop_last(), u);
        assert(reqs[reqs.len() - 1].user@ != u);
    }
}

} // verus!
