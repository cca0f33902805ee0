use scc::coins::{Coin, DecCoin};
use scc::compare::{check_equal_user_strategies, check_equal_vec};
use scc::env::{Env, SicAnswers};
use scc::error::ContractError;
use scc::math::{Decimal, Timestamp};
use scc::msg::{AttributeValue, ContractMsg, InstantiateMsg, Response, StrategyInfoQuery, UserStrategyQueryInfo};
use scc::queries::instantiate;
use scc::state::{Config, State, StrategyInfo, UserRewardInfo, UserStrategyInfo, UserStrategyPortfolio,
    UserUndelegationRecord};
use scc::store::Store;

fn s(x: &str) -> String {
    x.to_string()
}

fn dec(n: u128, d: u128) -> Decimal {
    Decimal::from_ratio(n, d)
}

fn coin(amount: u128, denom: &str) -> Coin {
    Coin::new(amount, s(denom))
}

fn dcoin(n: u128, d: u128, denom: &str) -> DecCoin {
    DecCoin::new(dec(n, d), s(denom))
}

fn mock_env() -> Env {
    Env { block_height: 12_345, block_time: Timestamp::from_nanos(1_571_797_419_879_305_533) }
}

fn instantiate_contract() -> Store {
    let msg = InstantiateMsg {
        strategy_denom: s("uluna"),
        delegator_contract: s("delegator_contract"),
        default_user_portfolio: None,
        default_fallback_strategy: None,
    };
    instantiate(&mock_env(), &s("creator"), msg).0
}

fn answers(tokens: &[(u64, u128)]) -> SicAnswers {
    let mut a = SicAnswers::new();
    for (id, t) in tokens {
        a.total_tokens.insert(*id, Some(*t));
    }
    a
}

#[allow(clippy::too_many_arguments)]
fn strategy(
    name: &str,
    sic: &str,
    unbonding_period: u64,
    unbonding_buffer: u64,
    total_shares: Decimal,
    current_undelegated_shares: Decimal,
    global_airdrop_pointer: Vec<DecCoin>,
    total_airdrops_accumulated: Vec<Coin>,
) -> StrategyInfo {
    StrategyInfo {
        name: s(name),
        sic_contract_address: s(sic),
        unbonding_period,
        unbonding_buffer,
        next_undelegation_batch_id: 0,
        next_reconciliation_batch_id: 0,
        is_active: true,
        total_shares,
        current_undelegated_shares,
        global_airdrop_pointer,
        total_airdrops_accumulated,
        shares_per_token_ratio: dec(10, 1),
    }
}

fn portfolio(entries: &[(u64, u128)]) -> Vec<UserStrategyPortfolio> {
    entries.iter().map(|(id, f)| UserStrategyPortfolio { strategy_id: *id, deposit_fraction: *f }).collect()
}

fn position(strategy_id: u64, shares: Decimal, airdrop_pointer: Vec<DecCoin>) -> UserStrategyInfo {
    UserStrategyInfo { strategy_id, shares, airdrop_pointer }
}

fn text_attr(resp: &Response, k: usize) -> (String, String) {
    match &resp.attributes[k].value {
        AttributeValue::Text(v) => (resp.attributes[k].key.clone(), v.clone()),
        _ => panic!("not a text attribute"),
    }
}

fn transfer_rewards(sic: &str, amount: u128) -> ContractMsg {
    ContractMsg::SicTransferRewards { sic_contract_address: s(sic), funds: coin(amount, "uluna") }
}

#[test]
fn tests_proper_initialization() {
    let env = mock_env();
    let store = instantiate_contract();
    let state = store.query_state().state.unwrap();
    assert_eq!(
        state,
        State {
            manager: s("creator"),
            delegator_contract: s("delegator_contract"),
            scc_denom: s("uluna"),
            contract_genesis_block_height: env.block_height,
            contract_genesis_timestamp: env.block_time,
            next_undelegation_id: 0,
            next_strategy_id: 1,
            rewards_in_scc: 0,
            total_accumulated_airdrops: vec![],
        }
    );
    let config = store.query_config().config.unwrap();
    assert_eq!(config, Config { default_user_portfolio: vec![], fallback_strategy: 0 });
    let retain_rewards = store.query_strategy_info(0).strategy_info;
    assert_ne!(retain_rewards, None);
    assert_eq!(retain_rewards.unwrap(), StrategyInfo::default(s("retain_rewards")));
}

#[test]
fn test_query_get_user() {
    let mut store = instantiate_contract();
    let user1 = s("user1");

    // Test - 1. User reward info is not present
    store.config.default_user_portfolio = portfolio(&[(0, 100)]);
    let user = store.query_user(&user1, &SicAnswers::new()).unwrap().user.unwrap();
    assert_eq!(user.total_airdrops, vec![]);
    assert_eq!(user.retained_rewards, 0);
    assert_eq!(user.undelegation_records, vec![]);
    assert_eq!(user.user_strategy_info, vec![]);
    assert_eq!(user.user_portfolio, store.config.default_user_portfolio);

    // Test - 2. User has delegated to multiple strategies
    let pointer = || vec![dcoin(20, 250, "anc"), dcoin(30, 250, "mir")];
    let accumulated = || vec![coin(20, "anc"), coin(30, "mir")];
    store.strategies.insert(1, strategy("sid1", "sic1_address", 3600, 3600, dec(250, 1), Decimal::zero(), pointer(), accumulated()));
    store.strategies.insert(2, strategy("sid2", "sic2_address", 7200, 7200, dec(250, 1), dec(100, 1), pointer(), accumulated()));
    store.strategies.insert(3, strategy("sid3", "sic3_address", 14400, 14400, dec(250, 1), Decimal::zero(), pointer(), accumulated()));
    store.users.insert(
        user1.clone(),
        UserRewardInfo {
            user_portfolio: portfolio(&[(1, 25), (2, 25), (3, 25)]),
            strategies: vec![
                position(1, dec(250, 1), vec![]),
                position(2, dec(250, 1), vec![]),
                position(3, dec(250, 1), vec![]),
            ],
            pending_airdrops: vec![coin(100, "anc"), coin(200, "mir")],
            undelegation_records: vec![UserUndelegationRecord {
                id: 0,
                amount: 100,
                shares: dec(1000, 1),
                strategy_id: 1,
                undelegation_batch_id: 0,
            }],
            pending_rewards: 25,
        },
    );
    let user = store.query_user(&user1, &answers(&[(1, 0), (2, 0), (3, 0)])).unwrap().user.unwrap();
    assert_eq!(user.retained_rewards, 25);
    assert!(check_equal_vec(user.total_airdrops, vec![coin(160, "anc"), coin(290, "mir")]));
    assert!(check_equal_vec(
        user.undelegation_records,
        vec![UserUndelegationRecord { id: 0, amount: 100, shares: dec(1000, 1), strategy_id: 1, undelegation_batch_id: 0 }]
    ));
    assert!(check_equal_vec(user.user_portfolio, portfolio(&[(1, 25), (2, 25), (3, 25)])));
    let expected = |id: u64, name: &str| UserStrategyQueryInfo {
        strategy_id: id,
        strategy_name: s(name),
        total_rewards: 25,
        total_airdrops: vec![coin(20, "anc"), coin(30, "mir")],
    };
    assert!(check_equal_vec(user.user_strategy_info, vec![expected(1, "sid1"), expected(2, "sid2"), expected(3, "sid3")]));
}

#[test]
fn test_query_get_all_strategies() {
    let mut store = instantiate_contract();
    let tokens = answers(&[(1, 500), (2, 2000), (3, 0)]);
    store.state.rewards_in_scc = 1000;
    store.state.next_strategy_id = 4;
    store.strategies.insert(1, strategy("sid1", "sic1_address", 3600, 3600, dec(10000, 1), Decimal::zero(),
        vec![dcoin(1000, 10000, "anc"), dcoin(500, 10000, "mir")], vec![coin(1000, "anc"), coin(500, "mir")]));
    store.strategies.insert(2, strategy("sid2", "sic2_address", 7200, 7200, dec(10000, 1), dec(5000, 1),
        vec![dcoin(500, 10000, "anc"), dcoin(700, 10000, "mir")], vec![coin(500, "anc"), coin(700, "mir")]));
    store.strategies.insert(3, strategy("sid3", "sic3_address", 14400, 14400, dec(7000, 1), Decimal::zero(),
        vec![dcoin(100, 7000, "anc"), dcoin(50, 7000, "mir")], vec![coin(100, "anc"), coin(50, "mir")]));

    let all = store.query_get_all_strategies(None, None, &tokens).unwrap().all_strategies.unwrap();
    let query = |id: u64, name: &str, total: u128, undelegating: u128, airdrops: Vec<Coin>, period: u64, sic: &str| StrategyInfoQuery {
        strategy_id: id,
        strategy_name: s(name),
        total_rewards: total,
        rewards_in_undelegation: undelegating,
        is_active: true,
        total_airdrops_accumulated: airdrops,
        unbonding_period: period,
        unbonding_buffer: period,
        sic_contract_address: s(sic),
    };
    assert!(check_equal_vec(
        all,
        vec![
            query(0, "retain_rewards", 1000, 0, vec![], 0, ""),
            query(1, "sid1", 500, 0, vec![coin(1000, "anc"), coin(500, "mir")], 3600, "sic1_address"),
            query(2, "sid2", 2000, 1000, vec![coin(500, "anc"), coin(700, "mir")], 7200, "sic2_address"),
            query(3, "sid3", 700, 0, vec![coin(100, "anc"), coin(50, "mir")], 14400, "sic3_address"),
        ]
    ));

    // pagination
    let all = store.query_get_all_strategies(Some(2), Some(3), &tokens).unwrap().all_strategies.unwrap();
    assert!(check_equal_vec(all, vec![query(3, "sid3", 700, 0, vec![coin(100, "anc"), coin(50, "mir")], 14400, "sic3_address")]));
}

#[test]
fn test_query_strategies_list() {
    let mut store = instantiate_contract();

    // Test - 1. No strategies
    let list = store.query_strategies_list(None, None).strategies_list.unwrap();
    assert_eq!(list.len(), 1);
    assert!(check_equal_vec(list, vec![s("retain_rewards")]));

    // Test - 2. 5 strategies
    store.state.next_strategy_id = 6;
    for id in 1..6u64 {
        store.strategies.insert(id, StrategyInfo::default(format!("sid{}", id)));
    }
    let list = store.query_strategies_list(None, None).strategies_list.unwrap();
    assert_eq!(list, vec!["retain_rewards", "sid1", "sid2", "sid3", "sid4", "sid5"]);

    // Test - 3. Test pagination
    let list = store.query_strategies_list(Some(2), Some(2)).strategies_list.unwrap();
    assert_eq!(list, vec!["sid3", "sid4"]);

    // Test - 4. Test pagination
    let list = store.query_strategies_list(Some(4), Some(3)).strategies_list.unwrap();
    assert_eq!(list, vec!["sid5"]);
}

#[test]
fn test_update_config_fail() {
    let mut store = instantiate_contract();

    // Test - 1. Unauthorized
    let err = store.try_update_config(&s("not-creator"), None, None, None).unwrap_err();
    assert!(matches!(err, ContractError::Unauthorized {}));

    // Test - 2. Invalid fallback strategy
    let err = store.try_update_config(&s("creator"), None, None, Some(1)).unwrap_err();
    assert!(matches!(err, ContractError::StrategyInfoDoesNotExist {}));

    // Test - 3. Invalid user portfolio - non existent strategy
    let err = store.try_update_config(&s("creator"), None, Some(portfolio(&[(1, 50), (2, 25)])), None).unwrap_err();
    assert!(matches!(err, ContractError::InvalidUserPortfolio {}));

    // Test - 4. Invalid user portfolio - invalid deposit fraction
    store.strategies.insert(1, StrategyInfo::default(s("sid1")));
    store.strategies.insert(2, StrategyInfo::default(s("sid2")));
    let err = store.try_update_config(&s("creator"), None, Some(portfolio(&[(1, 50), (2, 75)])), None).unwrap_err();
    assert!(matches!(err, ContractError::InvalidUserPortfolio {}));
}

#[test]
fn test_update_config_success() {
    let mut store = instantiate_contract();
    store.strategies.insert(1, StrategyInfo::default(s("sid1")));
    store.strategies.insert(2, StrategyInfo::default(s("sid2")));
    store.state.delegator_contract = s("old_delegator_contract");
    store.config.fallback_strategy = 0;
    store.config.default_user_portfolio = vec![];

    store
        .try_update_config(&s("creator"), Some(s("new_delegator_contract")), Some(portfolio(&[(1, 25), (2, 25)])), Some(1))
        .unwrap();
    let state = store.query_state().state.unwrap();
    assert_eq!(state.delegator_contract, s("new_delegator_contract"));
    let config = store.query_config().config.unwrap();
    assert_eq!(config.fallback_strategy, 1);
    assert!(check_equal_vec(config.default_user_portfolio, portfolio(&[(1, 25), (2, 25)])));
}

#[test]
fn test_deposit_funds_fail() {
    let mut store = instantiate_contract();
    let user1 = s("user1");
    let none = SicAnswers::new();

    // Test - 1. No funds sent
    let err = store.try_deposit_funds(&user1, &vec![], None, &none).unwrap_err();
    assert!(matches!(err, ContractError::NoFundsSent {}));

    // Test - 2. Multiple coins sent
    let err = store.try_deposit_funds(&user1, &vec![coin(10, "abc"), coin(10, "def")], None, &none).unwrap_err();
    assert!(matches!(err, ContractError::MultipleCoinsSent {}));

    // Test - 3. Wrong denom sent
    let err = store.try_deposit_funds(&user1, &vec![coin(10, "abc")], None, &none).unwrap_err();
    assert!(matches!(err, ContractError::WrongDenomSent {}));

    // Test - 4. 0 funds sent
    let res = store.try_deposit_funds(&user1, &vec![coin(0, "uluna")], None, &none).unwrap();
    assert_eq!(res.attributes.len(), 1);
    assert_eq!(text_attr(&res, 0), (s("0 funds sent"), s("1")));
}

#[test]
fn test_deposit_funds_success() {
    let msg = InstantiateMsg {
        strategy_denom: s("uluna"),
        delegator_contract: s("delegator_contract"),
        default_user_portfolio: Some(portfolio(&[(1, 100)])),
        default_fallback_strategy: None,
    };
    let mut store = instantiate(&mock_env(), &s("creator"), msg).0;
    let user1 = s("user1");

    // Test - 1. User deposits for first time
    store.users.insert(
        user1.clone(),
        UserRewardInfo {
            user_portfolio: portfolio(&[(1, 100)]),
            strategies: vec![],
            pending_airdrops: vec![],
            undelegation_records: vec![],
            pending_rewards: 0,
        },
    );
    store.strategies.insert(1, strategy("sid1", "sic1_address", 0, 0, dec(1000, 1), Decimal::zero(),
        vec![dcoin(200, 1000, "anc"), dcoin(300, 1000, "mir")], vec![coin(200, "anc"), coin(300, "mir")]));
    let res = store.try_deposit_funds(&user1, &vec![coin(100, "uluna")], None, &answers(&[(1, 0)])).unwrap();
    assert_eq!(res.messages.len(), 1);
    assert!(check_equal_vec(res.messages, vec![transfer_rewards("sic1_address", 100)]));
    assert_eq!(store.strategy(1).unwrap().total_shares, dec(2000, 1));
    let user = store.query_user_reward_info(&user1).user_reward_info.unwrap();
    assert!(check_equal_vec(user.user_portfolio.clone(), portfolio(&[(1, 100)])));
    assert!(check_equal_user_strategies(user.strategies.clone(), vec![position(1, dec(1000, 1), vec![dcoin(200, 1000, "anc"), dcoin(300, 1000, "mir")])]));
    assert!(check_equal_vec(user.pending_airdrops.clone(), vec![coin(0, "anc"), coin(0, "mir")]));
    assert_eq!(user.undelegation_records, vec![]);
    assert_eq!(user.pending_rewards, 0);

    // Test - 2. User has an existing portfolio
    store.strategies.insert(1, strategy("sid1", "sic1_address", 0, 0, dec(1000, 1), Decimal::zero(),
        vec![dcoin(200, 1000, "anc"), dcoin(300, 1000, "mir")], vec![coin(200, "anc"), coin(300, "mir")]));
    store.strategies.insert(2, strategy("sid2", "sic2_address", 0, 0, dec(2000, 1), Decimal::zero(),
        vec![dcoin(200, 2000, "anc"), dcoin(300, 2000, "mir")], vec![coin(200, "anc"), coin(300, "mir")]));
    store.strategies.insert(3, strategy("sid3", "sic3_address", 0, 0, dec(4000, 1), Decimal::zero(),
        vec![dcoin(200, 4000, "anc"), dcoin(300, 4000, "mir")], vec![coin(200, "anc"), coin(300, "mir")]));
    store.users.insert(
        user1.clone(),
        UserRewardInfo {
            user_portfolio: portfolio(&[(1, 25), (2, 25), (3, 25)]),
            strategies: vec![
                position(1, dec(500, 1), vec![dcoin(100, 1000, "anc"), dcoin(200, 1000, "mir")]),
                position(2, dec(1000, 1), vec![dcoin(200, 2000, "anc"), dcoin(300, 2000, "mir")]),
                position(3, dec(500, 1), vec![]),
            ],
            pending_airdrops: vec![coin(100, "anc"), coin(200, "mir")],
            undelegation_records: vec![],
            pending_rewards: 100,
        },
    );
    let res = store
        .try_deposit_funds(&user1, &vec![coin(100, "uluna")], None, &answers(&[(1, 0), (2, 0), (3, 0)]))
        .unwrap();
    assert_eq!(res.messages.len(), 3);
    assert!(check_equal_vec(
        res.messages,
        vec![transfer_rewards("sic1_address", 25), transfer_rewards("sic2_address", 25), transfer_rewards("sic3_address", 25)]
    ));
    assert_eq!(store.strategy(1).unwrap().total_shares, dec(1250, 1));
    assert_eq!(store.strategy(2).unwrap().total_shares, dec(2250, 1));
    assert_eq!(store.strategy(3).unwrap().total_shares, dec(4250, 1));
    let user = store.query_user_reward_info(&user1).user_reward_info.unwrap();
    assert!(check_equal_vec(user.user_portfolio.clone(), portfolio(&[(1, 25), (2, 25), (3, 25)])));
    assert!(check_equal_user_strategies(user.strategies.clone(), vec![
            position(1, dec(750, 1), vec![dcoin(200, 1000, "anc"), dcoin(300, 1000, "mir")]),
            position(2, dec(1250, 1), vec![dcoin(200, 2000, "anc"), dcoin(300, 2000, "mir")]),
            position(3, dec(750, 1), vec![dcoin(200, 4000, "anc"), dcoin(300, 4000, "mir")]),
        ]));
    assert!(check_equal_vec(user.pending_airdrops.clone(), vec![coin(175, "anc"), coin(287, "mir")]));
    assert_eq!(user.pending_rewards, 125);
}
