//! Rebuilding a store from lists of records, checking what the store keeps invariant.

use std::collections::BTreeMap;
use vstd::prelude::*;
use crate::coins::{coin_entries, coins_unique, dec_coin_entries, dec_coins_unique, Coin, DecCoin};
use crate::state::{BatchUndelegationRecord, Config, Cw20TokenContractsInfo, State, StrategyInfo, StrategyInfoView,
    UserRewardInfo, UserRewardInfoView};
use crate::store::Store;
use crate::string_map::StringMap;

verus! {

broadcast use vstd::std_specs::btree::group_btree_axioms;

/// Whether no denomination occurs twice in a coin vector.
pub fn check_coins_unique(v: &Vec<Coin>) -> (r: bool)
    ensures
        r == coins_unique(v@),
{
    let mut i: usize = 0;
    while i < v.len()
        invariant
            i <= v@.len(),
            forall|a: int, b: int| 0 <= a < b < v@.len() && a < i ==> coin_entries(v@)[a].0 != coin_entries(v@)[b].0,
        decreases v@.len() - i,
    {
        let mut j: usize = i + 1;
        while j < v.len()
            invariant
                i < v@.len(),
                i < j <= v@.len(),
                forall|a: int, b: int| 0 <= a < b < v@.len() && a < i ==> coin_entries(v@)[a].0 != coin_entries(v@)[b].0,
                forall|b: int| i < b < j ==> coin_entries(v@)[i as int].0 != coin_entries(v@)[b].0,
            decreases v@.len() - j,
        {
            if v[i].denom == v[j].denom {
                proof {
                    assert(coin_entries(v@)[i as int].0 == coin_entries(v@)[j as int].0);
                }
                return false;
            }
            j = j + 1;
        }
        i = i + 1;
    }
    true
}

/// Whether no denomination occurs twice in a decimal coin vector.
pub fn check_dec_coins_unique(v: &Vec<DecCoin>) -> (r: bool)
    ensures
        r == dec_coins_unique(v@),
{
    let mut i: usize = 0;
    while i < v.len()
        invariant
            i <= v@.len(),
            forall|a: int, b: int| 0 <= a < b < v@.len() && a < i ==> dec_coin_entries(v@)[a].0 != dec_coin_entries(v@)[b].0,
        decreases v@.len() - i,
    {
        let mut j: usize = i + 1;
        while j < v.len()
            invariant
                i < v@.len(),
                i < j <= v@.len(),
                forall|a: int, b: int| 0 <= a < b < v@.len() && a < i ==> dec_coin_entries(v@)[a].0 != dec_coin_entries(v@)[b].0,
                forall|b: int| i < b < j ==> dec_coin_entries(v@)[i as int].0 != dec_coin_entries(v@)[b].0,
            decreases v@.len() - j,
        {
            if v[i].denom == v[j].denom {
                proof {
                    assert(dec_coin_entries(v@)[i as int].0 == dec_coin_entries(v@)[j as int].0);
                }
                return false;
            }
            j = j + 1;
        }
        i = i + 1;
    }
    true
}

/// Whether a strategy's airdrop denominations are distinct.
pub fn check_strategy(st: &StrategyInfo) -> (r: bool)
    ensures
        r == st@.wf(),
{
    check_dec_coins_unique(&st.global_airdrop_pointer) && check_coins_unique(&st.total_airdrops_accumulated)
}

/// Whether a user record keeps its invariant: distinct denominations in its pending airdrops and
/// its pointers, and at most one position per strategy.
pub fn check_user(u: &UserRewardInfo) -> (r: bool)
    ensures
        r == u@.wf(),
{
    if !check_coins_unique(&u.pending_airdrops) {
        return false;
    }
    let ghost s = u@.strategies;
    let mut i: usize = 0;
    while i < u.strategies.len()
        invariant
            i <= s.len(),
            s == u@.strategies,
            u.strategies@.len() == s.len(),
            coins_unique(u@.pending_airdrops),
            forall|a: int| 0 <= a < i ==> dec_coins_unique(#[trigger] s[a].airdrop_pointer),
            forall|a: int, b: int| 0 <= a < b < s.len() && a < i ==> #[trigger] s[a].strategy_id != #[trigger] s[b].strategy_id,
        decreases s.len() - i,
    {
        proof {
            assert(u.strategies@[i as int]@ == s[i as int]);
        }
        if !check_dec_coins_unique(&u.strategies[i].airdrop_pointer) {
            proof {
                assert(!dec_coins_unique(s[i as int].airdrop_pointer));
            }
            return false;
        }
        let mut j: usize = i + 1;
        while j < u.strategies.len()
            invariant
                i < s.len(),
                i < j <= s.len(),
                s == u@.strategies,
                u.strategies@.len() == s.len(),
                forall|b: int| i < b < j ==> s[i as int].strategy_id != #[trigger] s[b].strategy_id,
            decreases s.len() - j,
        {
            proof {
                assert(u.strategies@[j as int]@ == s[j as int]);
                assert(u.strategies@[i as int]@ == s[i as int]);
            }
            if u.strategies[i].strategy_id == u.strategies[j].strategy_id {
                proof {
                    assert(s[i as int].strategy_id == s[j as int].strategy_id);
                }
                return false;
            }
            j = j + 1;
        }
        i = i + 1;
    }
    true
}

/// The strategies of a list of (id, strategy) records, a later record of an id replacing an
/// earlier one.
pub open spec fn strategies_of(records: Seq<(u64, StrategyInfo)>) -> Map<u64, StrategyInfoView>
    decreases records.len(),
{
    if records.len() == 0 {
        Map::empty()
    } else {
        strategies_of(records.drop_last()).insert(records.last().0, records.last().1@)
    }
}

/// The batches of a list of records, a later record of a key replacing an earlier one.
pub open spec fn batches_of(records: Seq<((u64, u64), BatchUndelegationRecord)>) -> Map<(u64, u64), BatchUndelegationRecord>
    decreases records.len(),
{
    if records.len() == 0 {
        Map::empty()
    } else {
        batches_of(records.drop_last()).insert(records.last().0, records.last().1)
    }
}

/// The users of a list of (address, record) records, a later record of an address replacing an
/// earlier one.
pub open spec fn users_of(records: Seq<(String, UserRewardInfo)>) -> Map<Seq<char>, UserRewardInfoView>
    decreases records.len(),
{
    if records.len() == 0 {
        Map::empty()
    } else {
        users_of(records.drop_last()).insert(records.last().0@, records.last().1@)
    }
}

/// The airdrop registry of a list of (denomination, contracts) records.
pub open spec fn registry_of(records: Seq<(String, Cw20TokenContractsInfo)>) -> Map<Seq<char>, Cw20TokenContractsInfo>
    decreases records.len(),
{
    if records.len() == 0 {
        Map::empty()
    } else {
        registry_of(records.drop_last()).insert(records.last().0@, records.last().1)
    }
}

impl Store {
    /// The store holding the given records, or `None` where a record breaks the store's
    /// invariant (a repeated denomination in a coin vector, or a repeated strategy in a user's
    /// positions).
    pub fn restore(
        state: State,
        config: Config,
        strategies: Vec<(u64, StrategyInfo)>,
        users: Vec<(String, UserRewardInfo)>,
        registry: Vec<(String, Cw20TokenContractsInfo)>,
        batches: Vec<((u64, u64), BatchUndelegationRecord)>,
    ) -> (r: Option<Store>)
        ensures
            match r {
                Some(st) => {
                    &&& st.wf()
                    &&& st@.state == state@
                    &&& st@.config == config@
                    &&& st@.strategies == strategies_of(strategies@)
                    &&& st@.users == users_of(users@)
                    &&& st@.registry == registry_of(registry@)
                    &&& st@.batches == batches_of(batches@)
                },
                None => {
                    ||| !coins_unique(state@.total_accumulated_airdrops)
                    ||| exists|i: int| 0 <= i < strategies@.len() && !(#[trigger] strategies@[i]).1@.wf()
                    ||| exists|i: int| 0 <= i < users@.len() && !(#[trigger] users@[i]).1@.wf()
                },
            },
    {
        if !check_coins_unique(&state.total_accumulated_airdrops) {
            return None;
        }
        let ghost sr = strategies@;
        let mut strategy_map: BTreeMap<u64, StrategyInfo> = BTreeMap::new();
        let mut i: usize = 0;
        proof {
            assert(sr.take(0) =~= Seq::<(u64, StrategyInfo)>::empty());
            assert(strategy_map@.map_values(|s: StrategyInfo| s@) =~= strategies_of(sr.take(0)));
        }
        while i < strategies.len()
            invariant
                i <= sr.len(),
                sr == strategies@,
                strategy_map@.map_values(|s: StrategyInfo| s@) == strategies_of(sr.take(i as int)),
                forall|id: u64| #[trigger] strategy_map@.contains_key(id) ==> strategy_map@[id]@.wf(),
            decreases sr.len() - i,
        {
            proof {
                assert(sr.take(i + 1).drop_last() =~= sr.take(i as int));
                assert(sr.take(i + 1).last() == sr[i as int]);
            }
            if !check_strategy(&strategies[i].1) {
                proof {
                    assert(!sr[i as int].1@.wf());
                }
                return None;
            }
            let ghost before = strategy_map@;
            let id = strategies[i].0;
            strategy_map.insert(id, strategies[i].1.clone());
            proof {
                assert(strategy_map@.map_values(|s: StrategyInfo| s@) =~= strategies_of(sr.take(i + 1)));
                assert forall|k: u64| #[trigger] strategy_map@.contains_key(k) implies strategy_map@[k]@.wf() by {
                    if k != id {
                        assert(before.contains_key(k));
                    }
                }
            }
            i = i + 1;
        }
        proof {
            assert(sr.take(i as int) =~= sr);
        }
        let ghost ur = users@;
        let mut user_map: StringMap<UserRewardInfo> = StringMap::new();
        let mut j: usize = 0;
        proof {
            assert(ur.take(0) =~= Seq::<(String, UserRewardInfo)>::empty());
        }
        while j < users.len()
            invariant
                j <= ur.len(),
                ur == users@,
                user_map.wf(),
                user_map.map() == users_of(ur.take(j as int)),
                forall|x: Seq<char>| #[trigger] user_map.map().contains_key(x) ==> user_map.map()[x].wf(),
            decreases ur.len() - j,
        {
            proof {
                assert(ur.take(j + 1).drop_last() =~= ur.take(j as int));
                assert(ur.take(j + 1).last() == ur[j as int]);
            }
            if !check_user(&users[j].1) {
                proof {
                    assert(!ur[j as int].1@.wf());
                }
                return None;
            }
            let ghost before = user_map.map();
            user_map.insert(users[j].0.clone(), users[j].1.clone());
            proof {
                assert forall|x: Seq<char>| #[trigger] user_map.map().contains_key(x) implies user_map.map()[x].wf() by {
                    if x != ur[j as int].0@ {
                        assert(before.contains_key(x));
                    }
                }
            }
            j = j + 1;
        }
        proof {
            assert(ur.take(j as int) =~= ur);
        }
        let ghost rr = registry@;
        let mut registry_map: StringMap<Cw20TokenContractsInfo> = StringMap::new();
        let mut k: usize = 0;
        proof {
            assert(rr.take(0) =~= Seq::<(String, Cw20TokenContractsInfo)>::empty());
        }
        while k < registry.len()
            invariant
                k <= rr.len(),
                rr == registry@,
                registry_map.wf(),
                registry_map.map() == registry_of(rr.take(k as int)),
            decreases rr.len() - k,
        {
            proof {
                assert(rr.take(k + 1).drop_last() =~= rr.take(k as int));
                assert(rr.take(k + 1).last() == rr[k as int]);
            }
            registry_map.insert(registry[k].0.clone(), registry[k].1.clone());
            k = k + 1;
        }
        proof {
            assert(rr.take(k as int) =~= rr);
        }
        let ghost br = batches@;
        let mut batch_map: BTreeMap<(u64, u64), BatchUndelegationRecord> = BTreeMap::new();
        let mut m: usize = 0;
        proof {
            assert(br.take(0) =~= Seq::<((u64, u64), BatchUndelegationRecord)>::empty());
            assert(batch_map@ =~= batches_of(br.take(0)));
        }
        while m < batches.len()
            invariant
                m <= br.len(),
                br == batches@,
                batch_map@ == batches_of(br.take(m as int)),
            decreases br.len() - m,
        {
            proof {
                assert(br.take(m + 1).drop_last() =~= br.take(m as int));
                assert(br.take(m + 1).last() == br[m as int]);
            }
            batch_map.insert(batches[m].0, batches[m].1);
            m = m + 1;
        }
        proof {
            assert(br.take(m as int) =~= br);
        }
        let store = Store {
            state,
            config,
            strategies: strategy_map,
            users: user_map,
            cw20_token_contracts_registry: registry_map,
            undelegation_batches: batch_map,
        };
        proof {
            assert forall|id: u64| #[trigger] store.strategy_views().contains_key(id) implies store.strategy_views()[id].wf() by {
                assert(store.strategies@.contains_key(id));
            }
        }
        Some(store)
    }
}

} // verus!
