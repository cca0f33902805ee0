//! Everything the contract stores, and the lookups on it.

use std::collections::BTreeMap;
use vstd::prelude::*;
use crate::coins::coins_unique;
use crate::state::{BatchUndelegationRecord, Config, ConfigView, Cw20TokenContractsInfo, State, StateView,
    StrategyInfo, StrategyInfoView, UserRewardInfo, UserRewardInfoView};
use crate::error::ContractError;
use crate::string_map::StringMap;

verus! {

broadcast use vstd::std_specs::btree::group_btree_axioms;

pub struct Store {
    pub state: State,
    pub config: Config,
    /// strategies by id
    pub strategies: BTreeMap<u64, StrategyInfo>,
    /// user records by address
    pub users: StringMap<UserRewardInfo>,
    /// airdrop contracts by denomination
    pub cw20_token_contracts_registry: StringMap<Cw20TokenContractsInfo>,
    /// undelegation batches by (strategy id, batch id)
    pub undelegation_batches: BTreeMap<(u64, u64), BatchUndelegationRecord>,
}

/// The contents of the store as mathematical maps.
pub struct StoreView {
    pub state: StateView,
    pub config: ConfigView,
    pub strategies: Map<u64, StrategyInfoView>,
    pub users: Map<Seq<char>, UserRewardInfoView>,
    pub registry: Map<Seq<char>, Cw20TokenContractsInfo>,
    pub batches: Map<(u64, u64), BatchUndelegationRecord>,
}

impl View for Store {
    type V = StoreView;

    open spec fn view(&self) -> StoreView {
        StoreView {
            state: self.state@,
            config: self.config@,
            strategies: self.strategy_views(),
            users: self.user_views(),
            registry: self.registry(),
            batches: self.batches(),
        }
    }
}

impl Store {
    pub open spec fn strategy_views(&self) -> Map<u64, StrategyInfoView> {
        self.strategies@.map_values(|s: StrategyInfo| s@)
    }

    pub open spec fn user_views(&self) -> Map<Seq<char>, UserRewardInfoView> {
        self.users.map()
    }

    pub open spec fn registry(&self) -> Map<Seq<char>, Cw20TokenContractsInfo> {
        self.cw20_token_contracts_registry.map()
    }

    pub open spec fn batches(&self) -> Map<(u64, u64), BatchUndelegationRecord> {
        self.undelegation_batches@
    }

    /// Keys are distinct, and so are the denominations of every coin vector.
    pub open spec fn wf(&self) -> bool {
        &&& self.users.wf()
        &&& self.cw20_token_contracts_registry.wf()
        &&& coins_unique(self.state.total_accumulated_airdrops@)
        &&& forall|id: u64| #[trigger] self.strategy_views().contains_key(id) ==> self.strategy_views()[id].wf()
        &&& forall|u: Seq<char>| #[trigger] self.user_views().contains_key(u) ==> self.user_views()[u].wf()
    }

    pub fn strategy(&self, strategy_id: u64) -> (r: Option<&StrategyInfo>)
        ensures
            match r {
                Some(s) => self.strategy_views().contains_key(strategy_id) && self.strategy_views()[strategy_id] == s@,
                None => !self.strategy_views().contains_key(strategy_id),
            },
    {
        self.strategies.get(&strategy_id)
    }

    /// Takes a strategy out of the store, to put it back once changed.
    pub fn take_strategy(&mut self, strategy_id: u64) -> (r: Option<StrategyInfo>)
        ensures
            final(self).strategy_views() == old(self).strategy_views().remove(strategy_id),
            final(self).state == old(self).state,
            final(self).config == old(self).config,
            final(self).users == old(self).users,
            final(self).cw20_token_contracts_registry == old(self).cw20_token_contracts_registry,
            final(self).undelegation_batches == old(self).undelegation_batches,
            match r {
                Some(s) => old(self).strategy_views().contains_key(strategy_id) && old(self).strategy_views()[strategy_id] == s@,
                None => !old(self).strategy_views().contains_key(strategy_id),
            },
    {
        let r = self.strategies.remove(&strategy_id);
        proof {
            assert(self.strategy_views() =~= old(self).strategy_views().remove(strategy_id));
        }
        r
    }

    pub fn put_strategy(&mut self, strategy_id: u64, info: StrategyInfo)
        ensures
            final(self).strategy_views() == old(self).strategy_views().insert(strategy_id, info@),
            final(self).state == old(self).state,
            final(self).config == old(self).config,
            final(self).users == old(self).users,
            final(self).cw20_token_contracts_registry == old(self).cw20_token_contracts_registry,
            final(self).undelegation_batches == old(self).undelegation_batches,
    {
        let ghost v = info@;
        self.strategies.insert(strategy_id, info);
        proof {
            assert(self.strategy_views() =~= old(self).strategy_views().insert(strategy_id, v));
        }
    }

    pub fn batch(&self, strategy_id: u64, batch_id: u64) -> (r: Option<BatchUndelegationRecord>)
        ensures
            match r {
                Some(b) => self.batches().contains_key((strategy_id, batch_id)) && self.batches()[(strategy_id, batch_id)] == b,
                None => !self.batches().contains_key((strategy_id, batch_id)),
            },
    {
        match self.undelegation_batches.get(&(strategy_id, batch_id)) {
            Some(b) => Some(*b),
            None => None,
        }
    }

    pub fn put_batch(&mut self, strategy_id: u64, batch_id: u64, batch: BatchUndelegationRecord)
        ensures
            final(self).batches() == old(self).batches().insert((strategy_id, batch_id), batch),
            final(self).state == old(self).state,
            final(self).config == old(self).config,
            final(self).users == old(self).users,
            final(self).cw20_token_contracts_registry == old(self).cw20_token_contracts_registry,
            final(self).strategies == old(self).strategies,
    {
        self.undelegation_batches.insert((strategy_id, batch_id), batch);
    }

    /// A copy of the records, to go back to when a request is refused.
    pub fn snapshot(&self) -> (r: Store)
        requires
            self.wf(),
        ensures
            r@ == self@,
            r.wf(),
    {
        let r = Store {
            state: self.state.clone(),
            config: self.config.clone(),
            strategies: self.strategies.clone(),
            users: copy_users(&self.users),
            cw20_token_contracts_registry: copy_registry(&self.cw20_token_contracts_registry),
            undelegation_batches: self.undelegation_batches.clone(),
        };
        proof {
            assert(r.strategy_views() =~= self.strategy_views());
            r.lemma_wf_same_view(self);
        }
        r
    }

    /// Goes back to the records saved before the request, and refuses it with `e`.
    pub fn refuse<T>(&mut self, saved: Store, e: ContractError) -> (r: Result<T, ContractError>)
        requires
            saved.wf(),
        ensures
            final(self)@ == saved@,
            final(self).wf(),
            r == Err::<T, ContractError>(e),
    {
        *self = saved;
        Err(e)
    }

    /// Well-formedness only depends on the contents.
    pub proof fn lemma_wf_same_view(&self, other: &Store)
        requires
            other.wf(),
            self@ == other@,
            self.users.wf(),
            self.cw20_token_contracts_registry.wf(),
        ensures
            self.wf(),
    {
        assert forall|id: u64| #[trigger] self.strategy_views().contains_key(id) implies self.strategy_views()[id].wf() by {
            assert(other.strategy_views().contains_key(id));
        }
        assert forall|u: Seq<char>| #[trigger] self.user_views().contains_key(u) implies self.user_views()[u].wf() by {
            assert(other.user_views().contains_key(u));
        }
    }
}

/// A copy of the user records.
fn copy_users(m: &StringMap<UserRewardInfo>) -> (r: StringMap<UserRewardInfo>)
    requires
        m.wf(),
    ensures
        r.wf(),
        r.map() == m.map(),
{
    let mut entries: Vec<(String, UserRewardInfo)> = Vec::new();
    let mut i: usize = 0;
    while i < m.entries.len()
        invariant
            i <= m.entries@.len(),
            entries@.len() == i,
            forall|k: int| 0 <= k < i ==> #[trigger] entries@[k].0@ == m.entries@[k].0@ && entries@[k].1@ == m.entries@[k].1@,
        decreases m.entries@.len() - i,
    {
        let key = m.entries[i].0.clone();
        let value = m.entries[i].1.clone();
        entries.push((key, value));
        i = i + 1;
    }
    let r = StringMap { entries };
    proof {
        m.lemma_same_entries(&r);
    }
    r
}

/// A copy of the airdrop registry.
fn copy_registry(m: &StringMap<Cw20TokenContractsInfo>) -> (r: StringMap<Cw20TokenContractsInfo>)
    requires
        m.wf(),
    ensures
        r.wf(),
        r.map() == m.map(),
{
    let mut entries: Vec<(String, Cw20TokenContractsInfo)> = Vec::new();
    let mut i: usize = 0;
    while i < m.entries.len()
        invariant
            i <= m.entries@.len(),
            entries@.len() == i,
            forall|k: int| 0 <= k < i ==> #[trigger] entries@[k].0@ == m.entries@[k].0@ && entries@[k].1@ == m.entries@[k].1@,
        decreases m.entries@.len() - i,
    {
        let key = m.entries[i].0.clone();
        let value = m.entries[i].1.clone();
        entries.push((key, value));
        i = i + 1;
    }
    let r = StringMap { entries };
    proof {
        m.lemma_same_entries(&r);
    }
    r
}

} // verus!
