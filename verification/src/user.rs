//! A user's position in a strategy, and the airdrops it earned.

use vstd::prelude::*;
use crate::coins::{Coin, CoinVecOp, DecCoin, Operation, airdrop_amount, airdrops_computable,
    checked_merge_coin_vector, clone_dec_coins, coin_entries, coins_unique, dec_coins_unique,
    get_user_airdrops, merge_entries, merge_in_range, merged, user_airdrops_computable};
use crate::error::ContractError;
use crate::math::Decimal;
use crate::state::{UserRewardInfo, UserRewardInfoView, UserStrategyInfo, UserStrategyInfoView};

verus! {

/// The position of the user's entry for `strategy_id`, if there is one.
pub open spec fn has_strategy_entry(u: UserRewardInfoView, strategy_id: u64) -> bool {
    exists|j: int| 0 <= j < u.strategies.len() && #[trigger] u.strategies[j].strategy_id == strategy_id
}

pub open spec fn strategy_entry_index(u: UserRewardInfoView, strategy_id: u64) -> int {
    choose|j: int| 0 <= j < u.strategies.len() && #[trigger] u.strategies[j].strategy_id == strategy_id
}

/// The airdrops of every denomination that `shares` earned between a user pointer and a global
/// pointer.
pub open spec fn user_airdrops_seq(global: Seq<DecCoin>, user_pointer: Seq<DecCoin>, shares: Decimal) -> Seq<Coin> {
    Seq::new(global.len(), |i: int| Coin { denom: global[i].denom, amount: airdrop_amount(global[i], user_pointer, shares) as u128 })
}

/// Whether the airdrops of a user's entry can be collected: they can be computed, and added to
/// the pending airdrops within 128 bits.
pub open spec fn airdrops_collectable(u: UserRewardInfoView, j: int, global: Seq<DecCoin>) -> bool {
    &&& airdrops_computable(global, u.strategies[j].airdrop_pointer, u.strategies[j].shares)
    &&& merge_in_range(coin_entries(u.pending_airdrops),
        coin_entries(user_airdrops_seq(global, u.strategies[j].airdrop_pointer, u.strategies[j].shares)), Operation::Add)
}

/// `after` is `before` with the airdrops of entry `j` collected: the entry's pointer moved to
/// `global`, and the airdrops it earned added to the pending airdrops.
pub open spec fn airdrops_collected(before: UserRewardInfoView, j: int, global: Seq<DecCoin>, after: UserRewardInfoView) -> bool {
    let e = before.strategies[j];
    &&& after.strategies == before.strategies.update(j, UserStrategyInfoView { airdrop_pointer: global, ..e })
    &&& after.user_portfolio == before.user_portfolio
    &&& after.undelegation_records == before.undelegation_records
    &&& after.pending_rewards == before.pending_rewards
    &&& merged(coin_entries(after.pending_airdrops), coin_entries(before.pending_airdrops),
        coin_entries(user_airdrops_seq(global, e.airdrop_pointer, e.shares)), Operation::Add)
    &&& coin_entries(after.pending_airdrops) == merge_entries(coin_entries(before.pending_airdrops),
        coin_entries(user_airdrops_seq(global, e.airdrop_pointer, e.shares)), Operation::Add)
}

/// The position of the user's entry for `strategy_id`.
pub fn find_user_strategy(user: &UserRewardInfo, strategy_id: u64) -> (r: Option<usize>)
    requires
        user@.wf(),
    ensures
        match r {
            Some(j) => j < user@.strategies.len() && user@.strategies[j as int].strategy_id == strategy_id
                && has_strategy_entry(user@, strategy_id) && strategy_entry_index(user@, strategy_id) == j,
            None => !has_strategy_entry(user@, strategy_id),
        },
{
    let mut i: usize = 0;
    while i < user.strategies.len()
        invariant
            i <= user@.strategies.len(),
            user@.wf(),
            forall|k: int| 0 <= k < i ==> user@.strategies[k].strategy_id != strategy_id,
        decreases user@.strategies.len() - i,
    {
        if user.strategies[i].strategy_id == strategy_id {
            proof {
                assert(user@.strategies[i as int].strategy_id == strategy_id);
                let k = strategy_entry_index(user@, strategy_id);
                if k != i {
                    if k < i {
                        assert(user@.strategies[k].strategy_id != user@.strategies[i as int].strategy_id);
                    } else {
                        assert(user@.strategies[i as int].strategy_id != user@.strategies[k].strategy_id);
                    }
                }
            }
            return Some(i);
        }
        i = i + 1;
    }
    None
}

/// Collects the airdrops of the user's entry `j` against a strategy's global pointer: adds what
/// the entry's shares earned since its pointer to the pending airdrops, and moves the pointer
/// to the global one. `Err(Overflow)` where an amount would leave 128 bits.
pub fn collect_user_airdrops(user: &mut UserRewardInfo, j: usize, global: &Vec<DecCoin>) -> (r: Result<(), ContractError>)
    requires
        old(user)@.wf(),
        j < old(user)@.strategies.len(),
        dec_coins_unique(global@),
    ensures
        r is Ok <==> airdrops_collectable(old(user)@, j as int, global@),
        r is Err ==> r == Err::<(), ContractError>(ContractError::Overflow {}),
        r is Ok ==> airdrops_collected(old(user)@, j as int, global@, final(user)@) && final(user)@.wf(),
{
    let ghost before = user@;
    proof {
        assert(dec_coins_unique(before.strategies[j as int].airdrop_pointer));
        assert(before.strategies[j as int] == user.strategies@[j as int]@);
    }
    if !user_airdrops_computable(global, &user.strategies[j].airdrop_pointer, user.strategies[j].shares) {
        return Err(ContractError::Overflow {});
    }
    let airdrops = match get_user_airdrops(global, &user.strategies[j].airdrop_pointer, user.strategies[j].shares) {
        Some(a) => a,
        None => Vec::new(),
    };
    let ghost e = before.strategies[j as int];
    proof {
        assert(airdrops@ =~= user_airdrops_seq(global@, e.airdrop_pointer, e.shares));
    }
    let mut pending: Vec<Coin> = Vec::new();
    std::mem::swap(&mut pending, &mut user.pending_airdrops);
    let merged_airdrops = match checked_merge_coin_vector(pending, CoinVecOp { fund: airdrops, operation: Operation::Add }) {
        Some(m) => m,
        None => {
            return Err(ContractError::Overflow {});
        },
    };
    user.pending_airdrops = merged_airdrops;
    let mut entries: Vec<UserStrategyInfo> = Vec::new();
    std::mem::swap(&mut entries, &mut user.strategies);
    let mut entry = entries.remove(j);
    entry.airdrop_pointer = clone_dec_coins(global);
    entries.insert(j, entry);
    user.strategies = entries;
    proof {
        assert(user@.strategies =~= before.strategies.update(j as int, UserStrategyInfoView { airdrop_pointer: global@, ..e }));
        assert forall|a: int, b: int| 0 <= a < b < user@.strategies.len() implies
            #[trigger] user@.strategies[a].strategy_id != #[trigger] user@.strategies[b].strategy_id by {
            assert(before.strategies[a].strategy_id != before.strategies[b].strategy_id);
        }
        assert forall|a: int| 0 <= a < user@.strategies.len() implies dec_coins_unique(#[trigger] user@.strategies[a].airdrop_pointer) by {
            if a != j {
                assert(dec_coins_unique(before.strategies[a].airdrop_pointer));
            }
        }
    }
    Ok(())
}

} // verus!
