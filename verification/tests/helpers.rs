use std::collections::BTreeMap;

use scc::coins::{checked_merge_coin_vector, get_user_airdrops, merge_coin_vector, merge_dec_coin_vector, Coin,
    CoinVecOp, DecCoin, DecCoinVecOp, Operation};
use scc::compare::{check_equal_bnk_send_msgs, check_equal_reward_info, check_equal_user_strategies,
    check_equal_user_strategy_query_info, check_equal_vec};
use scc::env::Env;
use scc::error::ContractError;
use scc::helpers::{get_expected_strategy_or_default, get_staked_amount, get_strategy_shares_per_token_ratio,
    get_strategy_split, validate_user_portfolio};
use scc::math::{checked_decimal_division, decimal_division_in_256, decimal_multiplication_in_256,
    decimal_subtraction_in_256, decimal_summation_in_256, get_decimal_from_uint128, uint128_from_decimal, Decimal,
    Timestamp};
use scc::msg::{ContractMsg, InstantiateMsg, UserStrategyQueryInfo};
use scc::queries::instantiate;
use scc::state::{StrategyInfo, UserRewardInfo, UserStrategyInfo, UserStrategyPortfolio, UserUndelegationRecord};
use scc::store::Store;

fn s(x: &str) -> String {
    x.to_string()
}

fn dec(n: u128, d: u128) -> Decimal {
    Decimal::from_ratio(n, d)
}

fn coin(amount: u128, denom: &str) -> Coin {
    Coin::new(amount, s(denom))
}

fn mock_env() -> Env {
    Env { block_height: 12_345, block_time: Timestamp::from_nanos(1_571_797_419_879_305_533) }
}

fn instantiate_contract() -> Store {
    let msg = InstantiateMsg {
        strategy_denom: s("uluna"),
        delegator_contract: s("delegator_contract"),
        default_user_portfolio: None,
        default_fallback_strategy: None,
    };
    instantiate(&mock_env(), &s("creator"), msg).0
}

fn portfolio(entries: &[(u64, u128)]) -> Vec<UserStrategyPortfolio> {
    entries.iter().map(|(id, f)| UserStrategyPortfolio { strategy_id: *id, deposit_fraction: *f }).collect()
}

fn active(name: &str, is_active: bool) -> StrategyInfo {
    let mut st = StrategyInfo::new(s(name), s("abc"), 0, 0);
    st.is_active = is_active;
    st
}

fn split_of(entries: &[(u64, u128)]) -> BTreeMap<u64, u128> {
    entries.iter().cloned().collect()
}

#[test]
fn test_check_equal_vec() {
    let a = vec![DecCoin::new(dec(2000, 1_000_000_0000), s("anc")), DecCoin::new(dec(2000, 1_000_000_0000), s("mir"))];
    let b = vec![DecCoin::new(dec(2000, 1_000_000_0000), s("mir")), DecCoin::new(dec(2000, 1_000_000_0000), s("anc"))];
    assert!(check_equal_vec(a, b));
    let a = vec![DecCoin::new(dec(1000, 1_000_000_0000), s("anc")), DecCoin::new(dec(2000, 1_000_000_0000), s("mir"))];
    let b = vec![DecCoin::new(dec(2000, 1_000_000_0000), s("mir")), DecCoin::new(dec(2000, 1_000_000_0000), s("anc"))];
    assert_eq!(check_equal_vec(a, b), false);

    assert!(check_equal_vec(vec![1, 2, 3], vec![3, 2, 1]));
    assert!(check_equal_vec(vec![coin(1, "a"), coin(2, "b")], vec![coin(2, "b"), coin(1, "a")]));
    assert!(!check_equal_vec(vec![1, 2, 3], vec![1, 2]));
    assert!(!check_equal_vec(vec![1, 2], vec![1, 3]));
    assert!(check_equal_vec::<u64>(vec![], vec![]));
}

#[test]
fn test_check_equal_bank_msg() {
    let msg1 = ContractMsg::BankSend {
        to_address: s("user1"),
        amount: vec![Coin::new(100_u128, s("abc")), Coin::new(200_u128, s("def"))],
    };
    let msg2 = ContractMsg::BankSend {
        to_address: s("user1"),
        amount: vec![Coin::new(200_u128, s("def")), Coin::new(100_u128, s("abc"))],
    };
    assert!(check_equal_bnk_send_msgs(msg1, msg2));
}

#[test]
fn test_check_equal_bank_msg_differences() {
    let to_user1 = ContractMsg::BankSend { to_address: s("user1"), amount: vec![Coin::new(100_u128, s("abc"))] };
    let to_user2 = ContractMsg::BankSend { to_address: s("user2"), amount: vec![Coin::new(100_u128, s("abc"))] };
    assert!(!check_equal_bnk_send_msgs(to_user1, to_user2));
    let less = ContractMsg::BankSend { to_address: s("user1"), amount: vec![Coin::new(99_u128, s("abc"))] };
    let more = ContractMsg::BankSend { to_address: s("user1"), amount: vec![Coin::new(100_u128, s("abc"))] };
    assert!(!check_equal_bnk_send_msgs(less, more));
    let bank = ContractMsg::BankSend { to_address: s("user1"), amount: vec![Coin::new(100_u128, s("abc"))] };
    let other = ContractMsg::SicUndelegateRewards { sic_contract_address: s("user1"), amount: 100 };
    assert!(!check_equal_bnk_send_msgs(bank, other));
}

#[test]
fn test_validate_user_portfolio() {
    let mut store = instantiate_contract();

    // Test - 1. Non-existent strategy
    let err = validate_user_portfolio(&store, &portfolio(&[(1, 50)])).unwrap_err();
    assert!(matches!(err, ContractError::StrategyInfoDoesNotExist {}));

    // Test - 2. Invalid deposit fraction
    store.strategies.insert(1, StrategyInfo::default(s("sid1")));
    store.strategies.insert(2, StrategyInfo::default(s("sid2")));
    let err = validate_user_portfolio(&store, &portfolio(&[(1, 50), (2, 75)])).unwrap_err();
    assert!(matches!(err, ContractError::InvalidPortfolioDepositFraction {}));

    // Test - 3. Valid portfolio
    let res = validate_user_portfolio(&store, &portfolio(&[(1, 50), (2, 50)])).unwrap();
    assert!(res);

    // fractions that do not fit in 128 bits
    let err = validate_user_portfolio(&store, &portfolio(&[(1, u128::MAX), (2, 1)])).unwrap_err();
    assert!(matches!(err, ContractError::Overflow {}));
}

#[test]
fn test_get_expected_strategy_or_default() {
    let mut store = instantiate_contract();

    // Test - 1. Strategy does not exist or is removed
    assert_eq!(get_expected_strategy_or_default(&store, 1, 0), 0);

    // Test - 2. Strategy is not active
    store.strategies.insert(1, active("sid1", false));
    assert_eq!(get_expected_strategy_or_default(&store, 1, 0), 0);

    // Test - 3. Strategy is good
    store.strategies.insert(1, active("sid1", true));
    assert_eq!(get_expected_strategy_or_default(&store, 1, 0), 1);
}

#[test]
fn test_get_strategy_split() {
    let mut store = instantiate_contract();

    // Test - 1. There is a strategy override and the strategy is not active
    store.strategies.insert(1, StrategyInfo::default(s("sid1")));
    let config = store.config.clone();
    let split = get_strategy_split(&store, &config, Some(1), &UserRewardInfo::default(), 100).unwrap();
    assert_eq!(split, split_of(&[(0, 100)]));

    // Test - 2. There is a strategy override and the strategy is active
    store.strategies.insert(1, active("sid1", true));
    let split = get_strategy_split(&store, &config, Some(1), &UserRewardInfo::default(), 100).unwrap();
    assert_eq!(split, split_of(&[(1, 100)]));

    // Test - 3. There is no strategy override and all strategies are active
    store.strategies.insert(2, active("sid2", true));
    store.strategies.insert(3, active("sid3", true));
    let mut user_reward_info = UserRewardInfo::default();
    user_reward_info.user_portfolio = portfolio(&[(1, 25), (2, 25), (3, 25)]);
    let split = get_strategy_split(&store, &config, None, &user_reward_info, 100).unwrap();
    assert_eq!(split, split_of(&[(0, 25), (1, 25), (2, 25), (3, 25)]));

    // Test - 4. There is no strategy override and 2/3 strategies are inactive
    store.strategies.insert(2, active("sid2", false));
    store.strategies.insert(3, active("sid3", false));
    let split = get_strategy_split(&store, &config, None, &user_reward_info, 100).unwrap();
    assert_eq!(split, split_of(&[(0, 75), (1, 25)]));

    // Test - 5. The fallback strategy is inactive
    store.config.fallback_strategy = 2;
    let config = store.config.clone();
    let split = get_strategy_split(&store, &config, None, &user_reward_info, 100).unwrap();
    assert_eq!(split, split_of(&[(0, 75), (1, 25)]));
}

#[test]
fn test_get_strategy_split_rounds_down() {
    let mut store = instantiate_contract();
    store.strategies.insert(1, active("sid1", true));
    store.strategies.insert(2, active("sid2", true));
    let config = store.config.clone();
    let mut user_reward_info = UserRewardInfo::default();
    user_reward_info.user_portfolio = portfolio(&[(1, 33), (2, 33)]);
    // 33% of 10 is 3.3: each strategy gets 3 and the rest is retained
    let split = get_strategy_split(&store, &config, None, &user_reward_info, 10).unwrap();
    assert_eq!(split, split_of(&[(0, 4), (1, 3), (2, 3)]));
    let total: u128 = split.values().sum();
    assert_eq!(total, 10);
}

#[test]
fn test_get_strategy_shares_per_token_ratio() {
    let mut st = StrategyInfo::new(s("sid1"), s("sic1_address"), 3600, 3600);
    st.total_shares = dec(1000, 1);

    // Test - 1. S_T ratio is less than 10
    assert_eq!(get_strategy_shares_per_token_ratio(Ok(Some(500)), &st).unwrap(), dec(2, 1));

    // Test - 2. S_T ratio is greater than 10
    assert_eq!(get_strategy_shares_per_token_ratio(Ok(Some(50)), &st).unwrap(), dec(20, 1));

    // Test - 3. total tokens at sic is 0
    assert_eq!(get_strategy_shares_per_token_ratio(Ok(Some(0)), &st).unwrap(), dec(10, 1));
    assert_eq!(get_strategy_shares_per_token_ratio(Ok(None), &st).unwrap(), dec(10, 1));

    // Test - 4. total shares of strategy is 0
    st.total_shares = Decimal::zero();
    assert_eq!(get_strategy_shares_per_token_ratio(Ok(Some(0)), &st).unwrap(), dec(10, 1));
    assert_eq!(get_strategy_shares_per_token_ratio(Ok(Some(500)), &st).unwrap(), dec(10, 1));

    // the SIC did not answer
    let err = get_strategy_shares_per_token_ratio(Err(()), &st).unwrap_err();
    assert!(matches!(err, ContractError::SICFailedToReturnResult {}));
}

#[test]
fn test_get_staked_amount() {
    assert_eq!(get_staked_amount(dec(10, 1), dec(1000, 1)), 100);
    assert_eq!(get_staked_amount(dec(3, 1), dec(100, 1)), 33);
}

#[test]
fn test_decimal_arithmetic() {
    assert_eq!(decimal_multiplication_in_256(dec(3, 2), dec(4, 1)), dec(6, 1));
    assert_eq!(decimal_division_in_256(dec(1, 1), dec(3, 1)), Decimal { atomics: 333_333_333_333_333_333 });
    assert_eq!(decimal_summation_in_256(dec(1, 4), dec(1, 2)), dec(3, 4));
    assert_eq!(decimal_subtraction_in_256(dec(3, 4), dec(1, 2)), dec(1, 4));
    assert_eq!(get_decimal_from_uint128(7), dec(7, 1));
    assert_eq!(uint128_from_decimal(dec(15, 2)), 7);
    assert_eq!(Decimal::from_ratio(1, 3), Decimal { atomics: 333_333_333_333_333_333 });
    assert_eq!(checked_decimal_division(dec(1, 1), dec(3, 1)), Some(Decimal { atomics: 333_333_333_333_333_333 }));
    assert_eq!(checked_decimal_division(Decimal { atomics: u128::MAX }, dec(1, 10)), None);
    assert!(dec(3, 2).gt(&Decimal::one()));
    assert!(!Decimal::one().gt(&Decimal::one()));
}

#[test]
fn test_timestamp() {
    assert_eq!(Timestamp::from_seconds(2).nanos, 2_000_000_000);
    assert_eq!(Timestamp::from_nanos(5).plus_seconds(1), Timestamp::from_nanos(1_000_000_005));
    assert_eq!(Timestamp::from_nanos(u64::MAX).checked_plus_seconds(1), None);
}

#[test]
fn test_merge_coin_vector() {
    let merged = merge_coin_vector(
        vec![coin(100, "anc"), coin(50, "mir")],
        CoinVecOp { fund: vec![coin(10, "mir"), coin(5, "pyl")], operation: Operation::Add },
    );
    assert!(check_equal_vec(merged, vec![coin(100, "anc"), coin(60, "mir"), coin(5, "pyl")]));

    let merged = merge_coin_vector(
        vec![coin(100, "anc"), coin(50, "mir")],
        CoinVecOp { fund: vec![coin(50, "mir")], operation: Operation::Sub },
    );
    assert!(check_equal_vec(merged, vec![coin(100, "anc"), coin(0, "mir")]));

    // taking away more than there is has no result
    let merged = checked_merge_coin_vector(
        vec![coin(100, "anc")],
        CoinVecOp { fund: vec![coin(101, "anc")], operation: Operation::Sub },
    );
    assert_eq!(merged, None);
    let merged = checked_merge_coin_vector(
        vec![coin(u128::MAX, "anc")],
        CoinVecOp { fund: vec![coin(1, "anc")], operation: Operation::Add },
    );
    assert_eq!(merged, None);
}

#[test]
fn test_merge_dec_coin_vector() {
    let merged = merge_dec_coin_vector(
        &vec![DecCoin::new(dec(1, 10), s("anc"))],
        DecCoinVecOp { fund: vec![DecCoin::new(dec(2, 10), s("anc")), DecCoin::new(dec(1, 2), s("mir"))], operation: Operation::Add },
    );
    assert!(check_equal_vec(merged, vec![DecCoin::new(dec(3, 10), s("anc")), DecCoin::new(dec(1, 2), s("mir"))]));
}

#[test]
fn test_get_user_airdrops() {
    // 3000 shares, the strategy pointer moved 0.04 anc and 0.08 mir per share past the user's
    let global = vec![DecCoin::new(dec(200, 5000), s("anc")), DecCoin::new(dec(400, 5000), s("mir"))];
    let airdrops = get_user_airdrops(&global, &vec![], dec(3000, 1)).unwrap();
    assert!(check_equal_vec(airdrops, vec![coin(120, "anc"), coin(240, "mir")]));

    let user = vec![DecCoin::new(dec(100, 5000), s("anc"))];
    let airdrops = get_user_airdrops(&global, &user, dec(3000, 1)).unwrap();
    assert!(check_equal_vec(airdrops, vec![coin(60, "anc"), coin(240, "mir")]));

    // a strategy without airdrops has nothing to hand out
    assert_eq!(get_user_airdrops(&vec![], &vec![], dec(3000, 1)), None);
}

#[test]
fn test_check_equal_user_strategies() {
    let p = |id: u64, shares: u128, pointer: Vec<DecCoin>| UserStrategyInfo { strategy_id: id, shares: dec(shares, 1), airdrop_pointer: pointer };
    let anc = || DecCoin::new(dec(1, 10), s("anc"));
    let mir = || DecCoin::new(dec(2, 10), s("mir"));
    assert!(check_equal_user_strategies(
        vec![p(1, 10, vec![anc(), mir()]), p(2, 20, vec![])],
        vec![p(2, 20, vec![]), p(1, 10, vec![mir(), anc()])]
    ));
    assert!(!check_equal_user_strategies(vec![p(1, 10, vec![anc()])], vec![p(1, 11, vec![anc()])]));
    assert!(!check_equal_user_strategies(vec![p(1, 10, vec![anc()])], vec![p(1, 10, vec![mir()])]));
    assert!(!check_equal_user_strategies(vec![p(1, 10, vec![])], vec![p(1, 10, vec![]), p(2, 10, vec![])]));
}

#[test]
fn test_check_equal_reward_info() {
    let info = || UserRewardInfo {
        user_portfolio: portfolio(&[(1, 50), (2, 25)]),
        strategies: vec![UserStrategyInfo { strategy_id: 1, shares: dec(5, 1), airdrop_pointer: vec![] }],
        pending_airdrops: vec![coin(1, "anc"), coin(2, "mir")],
        undelegation_records: vec![UserUndelegationRecord { id: 0, amount: 1, shares: dec(1, 1), strategy_id: 1, undelegation_batch_id: 0 }],
        pending_rewards: 7,
    };
    let mut other = info();
    other.user_portfolio.reverse();
    other.pending_airdrops.reverse();
    assert!(check_equal_reward_info(info(), other));
    let mut other = info();
    other.pending_rewards = 8;
    assert!(!check_equal_reward_info(info(), other));
    let mut other = info();
    other.pending_airdrops = vec![coin(1, "anc")];
    assert!(!check_equal_reward_info(info(), other));
}

#[test]
fn test_check_equal_user_strategy_query_info() {
    let q = |id: u64, name: &str, rewards: u128, airdrops: Vec<Coin>| UserStrategyQueryInfo {
        strategy_id: id,
        strategy_name: s(name),
        total_rewards: rewards,
        total_airdrops: airdrops,
    };
    assert!(check_equal_user_strategy_query_info(
        vec![q(1, "sid1", 10, vec![coin(1, "anc"), coin(2, "mir")]), q(2, "sid2", 0, vec![])],
        vec![q(2, "sid2", 0, vec![]), q(1, "sid1", 10, vec![coin(2, "mir"), coin(1, "anc")])]
    ));
    assert!(!check_equal_user_strategy_query_info(vec![q(1, "sid1", 10, vec![])], vec![q(1, "sid2", 10, vec![])]));
}

#[test]
fn test_inactive_fallback_retains() {
    let mut store = instantiate_contract();
    store.strategies.insert(2, active("sid2", false));
    store.config.fallback_strategy = 2;
    let config = store.config.clone();
    // a user without a portfolio: everything is retained
    let split = get_strategy_split(&store, &config, None, &UserRewardInfo::default(), 100).unwrap();
    assert_eq!(split, split_of(&[(0, 100)]));
    // what the portfolio leaves is retained too
    store.strategies.insert(1, active("sid1", true));
    let mut user = UserRewardInfo::default();
    user.user_portfolio = portfolio(&[(1, 40)]);
    let split = get_strategy_split(&store, &config, None, &user, 100).unwrap();
    assert_eq!(split, split_of(&[(0, 60), (1, 40)]));
}
