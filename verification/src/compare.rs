//! Comparing vectors without regard to order.

use vstd::prelude::*;
use vstd::std_specs::cmp::PartialEqSpec;
use crate::coins::{Coin, DecCoin};
use crate::msg::{ContractMsg, UserStrategyQueryInfo};
use crate::state::{UserRewardInfo, UserStrategyInfo, UserStrategyPortfolio, UserUndelegationRecord};

verus! {

/// Some element of `b` equals `x`.
pub open spec fn found_in<S: PartialEq>(b: Seq<S>, x: S) -> bool {
    exists|j: int| 0 <= j < b.len() && x.eq_spec(&b[j])
}

/// Every element of `a` equals some element of `b`.
pub open spec fn each_found<S: PartialEq>(a: Seq<S>, b: Seq<S>) -> bool {
    forall|i: int| 0 <= i < a.len() ==> found_in(b, #[trigger] a[i])
}

/// Whether `v` holds an element equal to `x`.
fn contains_equal<S: PartialEq>(v: &Vec<S>, x: &S) -> (r: bool)
    ensures
        S::obeys_eq_spec() ==> (r == found_in(v@, *x)),
{
    let mut j: usize = 0;
    while j < v.len()
        invariant
            j <= v@.len(),
            S::obeys_eq_spec() ==> forall|k: int| 0 <= k < j ==> !x.eq_spec(&v@[k]),
        decreases v@.len() - j,
    {
        if *x == v[j] {
            return true;
        }
        j = j + 1;
    }
    false
}

/// Whether every element of `a` equals some element of `b`.
fn all_found<S: PartialEq>(a: &Vec<S>, b: &Vec<S>) -> (r: bool)
    ensures
        S::obeys_eq_spec() ==> (r == each_found(a@, b@)),
{
    let mut i: usize = 0;
    while i < a.len()
        invariant
            i <= a@.len(),
            S::obeys_eq_spec() ==> forall|k: int| 0 <= k < i ==> found_in(b@, #[trigger] a@[k]),
        decreases a@.len() - i,
    {
        if !contains_equal(b, &a[i]) {
            return false;
        }
        i = i + 1;
    }
    true
}

/// Whether two vectors have the same length and every element of each equals some element of
/// the other: equal up to order where no element repeats.
pub fn check_equal_vec<S: PartialEq>(v1: Vec<S>, v2: Vec<S>) -> (r: bool)
    ensures
        S::obeys_eq_spec() ==> (r == (v1@.len() == v2@.len() && each_found(v1@, v2@) && each_found(v2@, v1@))),
{
    v1.len() == v2.len() && all_found(&v1, &v2) && all_found(&v2, &v1)
}

/// Whether two messages are both bank transfers to the same account of the same coins, in any
/// order as `check_equal_vec` compares them.
pub fn check_equal_bnk_send_msgs(msg1: ContractMsg, msg2: ContractMsg) -> (r: bool)
    ensures
        r == (msg1 matches ContractMsg::BankSend { to_address: t1, amount: a1 }
            && msg2 matches ContractMsg::BankSend { to_address: t2, amount: a2 }
            && a1@.len() == a2@.len() && each_found(a1@, a2@) && each_found(a2@, a1@) && t1@ == t2@),
{
    match msg1 {
        ContractMsg::BankSend { to_address, amount } => {
            let first_to = to_address;
            let first_amount = amount;
            match msg2 {
                ContractMsg::BankSend { to_address, amount } => check_equal_vec(first_amount, amount) && first_to == to_address,
                _ => false,
            }
        },
        _ => false,
    }
}

/// Records compared field by field, the vectors among the fields without regard to order.
pub trait Matches: Sized {
    spec fn matches(&self, other: &Self) -> bool;

    fn same_as(&self, other: &Self) -> (r: bool)
        ensures
            r == self.matches(other),
    ;
}

/// Some element of `b` matches `x`.
pub open spec fn matched_in<T: Matches>(b: Seq<T>, x: T) -> bool {
    exists|j: int| 0 <= j < b.len() && x.matches(&b[j])
}

/// Every element of `a` matches some element of `b`.
pub open spec fn all_matched<T: Matches>(a: Seq<T>, b: Seq<T>) -> bool {
    forall|i: int| 0 <= i < a.len() ==> matched_in(b, #[trigger] a[i])
}

/// The same length, and every element of each matches some element of the other.
pub open spec fn same_up_to_order<T: Matches>(a: Seq<T>, b: Seq<T>) -> bool {
    a.len() == b.len() && all_matched(a, b) && all_matched(b, a)
}

fn matched_in_vec<T: Matches>(b: &Vec<T>, x: &T) -> (r: bool)
    ensures
        r == matched_in(b@, *x),
{
    let mut j: usize = 0;
    while j < b.len()
        invariant
            j <= b@.len(),
            forall|k: int| 0 <= k < j ==> !x.matches(&b@[k]),
        decreases b@.len() - j,
    {
        if x.same_as(&b[j]) {
            return true;
        }
        j = j + 1;
    }
    false
}

fn all_matched_vec<T: Matches>(a: &Vec<T>, b: &Vec<T>) -> (r: bool)
    ensures
        r == all_matched(a@, b@),
{
    let mut i: usize = 0;
    while i < a.len()
        invariant
            i <= a@.len(),
            forall|k: int| 0 <= k < i ==> matched_in(b@, #[trigger] a@[k]),
        decreases a@.len() - i,
    {
        if !matched_in_vec(b, &a[i]) {
            return false;
        }
        i = i + 1;
    }
    true
}

/// Whether two vectors are equal up to order, element by element as `Matches` compares them.
pub fn equal_up_to_order<T: Matches>(a: &Vec<T>, b: &Vec<T>) -> (r: bool)
    ensures
        r == same_up_to_order(a@, b@),
{
    a.len() == b.len() && all_matched_vec(a, b) && all_matched_vec(b, a)
}

impl Matches for Coin {
    open spec fn matches(&self, other: &Self) -> bool {
        self.denom@ == other.denom@ && self.amount == other.amount
    }

    fn same_as(&self, other: &Self) -> (r: bool) {
        self.denom == other.denom && self.amount == other.amount
    }
}

impl Matches for DecCoin {
    open spec fn matches(&self, other: &Self) -> bool {
        self.denom@ == other.denom@ && self.amount == other.amount
    }

    fn same_as(&self, other: &Self) -> (r: bool) {
        self.denom == other.denom && self.amount == other.amount
    }
}

impl Matches for UserStrategyPortfolio {
    open spec fn matches(&self, other: &Self) -> bool {
        *self == *other
    }

    fn same_as(&self, other: &Self) -> (r: bool) {
        self.strategy_id == other.strategy_id && self.deposit_fraction == other.deposit_fraction
    }
}

impl Matches for UserUndelegationRecord {
    open spec fn matches(&self, other: &Self) -> bool {
        *self == *other
    }

    fn same_as(&self, other: &Self) -> (r: bool) {
        self.id == other.id && self.amount == other.amount && self.shares == other.shares
            && self.strategy_id == other.strategy_id && self.undelegation_batch_id == other.undelegation_batch_id
    }
}

impl Matches for UserStrategyInfo {
    open spec fn matches(&self, other: &Self) -> bool {
        &&& self.shares == other.shares
        &&& self.strategy_id == other.strategy_id
        &&& same_up_to_order(self.airdrop_pointer@, other.airdrop_pointer@)
    }

    fn same_as(&self, other: &Self) -> (r: bool) {
        self.shares == other.shares && self.strategy_id == other.strategy_id
            && equal_up_to_order(&self.airdrop_pointer, &other.airdrop_pointer)
    }
}

impl Matches for UserStrategyQueryInfo {
    open spec fn matches(&self, other: &Self) -> bool {
        &&& self.strategy_id == other.strategy_id
        &&& self.strategy_name@ == other.strategy_name@
        &&& self.total_rewards == other.total_rewards
        &&& same_up_to_order(self.total_airdrops@, other.total_airdrops@)
    }

    fn same_as(&self, other: &Self) -> (r: bool) {
        self.strategy_id == other.strategy_id && self.strategy_name == other.strategy_name
            && self.total_rewards == other.total_rewards
            && equal_up_to_order(&self.total_airdrops, &other.total_airdrops)
    }
}

/// Whether two lists of user positions hold the same positions, in any order: the same
/// strategy and shares, and the same airdrop pointer up to order.
pub fn check_equal_user_strategies(a: Vec<UserStrategyInfo>, b: Vec<UserStrategyInfo>) -> (r: bool)
    ensures
        r == same_up_to_order(a@, b@),
{
    equal_up_to_order(&a, &b)
}

/// Whether two user records agree: positions, portfolio, pending airdrops and undelegation
/// records up to order, and the same retained rewards.
pub fn check_equal_reward_info(a: UserRewardInfo, b: UserRewardInfo) -> (r: bool)
    ensures
        r == {
            &&& same_up_to_order(a.strategies@, b.strategies@)
            &&& same_up_to_order(a.user_portfolio@, b.user_portfolio@)
            &&& same_up_to_order(a.pending_airdrops@, b.pending_airdrops@)
            &&& same_up_to_order(a.undelegation_records@, b.undelegation_records@)
            &&& a.pending_rewards == b.pending_rewards
        },
{
    if !equal_up_to_order(&a.strategies, &b.strategies) {
        return false;
    }
    if !equal_up_to_order(&a.user_portfolio, &b.user_portfolio) {
        return false;
    }
    if !equal_up_to_order(&a.pending_airdrops, &b.pending_airdrops) {
        return false;
    }
    if !equal_up_to_order(&a.undelegation_records, &b.undelegation_records) {
        return false;
    }
    a.pending_rewards == b.pending_rewards
}

/// Whether two lists of per-strategy user reports agree up to order.
pub fn check_equal_user_strategy_query_info(a: Vec<UserStrategyQueryInfo>, b: Vec<UserStrategyQueryInfo>) -> (r: bool)
    ensures
        r == same_up_to_order(a@, b@),
{
    equal_up_to_order(&a, &b)
}

} // verus!
