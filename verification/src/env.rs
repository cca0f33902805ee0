//! What the contract reads of the chain when it handles a request.

use std::collections::BTreeMap;
use vstd::prelude::*;
use crate::coins::Coin;
use crate::math::Timestamp;

verus! {

/// The block the request is handled in.
pub struct Env {
    pub block_height: u64,
    pub block_time: Timestamp,
}

/// Who sent the request, and the funds sent with it.
pub struct MessageInfo {
    pub sender: String,
    pub funds: Vec<Coin>,
}

/// What the strategies' SICs answered to the queries the request needs.
pub struct SicAnswers {
    /// the total tokens each strategy's SIC reported, by strategy id; no entry where the query
    /// failed
    pub total_tokens: BTreeMap<u64, Option<u128>>,
    /// the undelegated funds a SIC can give back for an undelegation batch, by (strategy id,
    /// batch id); no entry where the query failed
    pub fulfillable: BTreeMap<(u64, u64), u128>,
}

/// A SIC's answer to the total-tokens query as the view of `SicAnswers` holds it.
pub open spec fn total_tokens_answer(answers: Map<u64, Option<u128>>, strategy_id: u64) -> Result<Option<u128>, ()> {
    if answers.contains_key(strategy_id) {
        Ok(answers[strategy_id])
    } else {
        Err(())
    }
}

impl SicAnswers {
    pub fn new() -> (r: SicAnswers)
        ensures
            r.total_tokens@ == Map::<u64, Option<u128>>::empty(),
            r.fulfillable@ == Map::<(u64, u64), u128>::empty(),
    {
        SicAnswers { total_tokens: BTreeMap::new(), fulfillable: BTreeMap::new() }
    }

    /// The answer of the SIC of `strategy_id` to the total-tokens query.
    pub fn total_tokens_of(&self, strategy_id: u64) -> (r: Result<Option<u128>, ()>)
        ensures
            r == total_tokens_answer(self.total_tokens@, strategy_id),
    {
        match self.total_tokens.get(&strategy_id) {
            Some(t) => Ok(*t),
            None => Err(()),
        }
    }

    /// What the SIC of `strategy_id` can give back for batch `batch_id`; `None` where the query
    /// failed.
    pub fn fulfillable_of(&self, strategy_id: u64, batch_id: u64) -> (r: Option<u128>)
        ensures
            r == (if self.fulfillable@.contains_key((strategy_id, batch_id)) {
                Some(self.fulfillable@[(strategy_id, batch_id)])
            } else {
                None::<u128>
            }),
    {
        match self.fulfillable.get(&(strategy_id, batch_id)) {
            Some(f) => Some(*f),
            None => None,
        }
    }
}

} // verus!
