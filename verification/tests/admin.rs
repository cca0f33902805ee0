use scc::coins::Coin;
use scc::compare::check_equal_vec;
use scc::env::Env;
use scc::error::ContractError;
use scc::math::{Decimal, Timestamp};
use scc::msg::{AttributeValue, ContractMsg, InstantiateMsg, Response, UpdateUserAirdropsRequest};
use scc::queries::instantiate;
use scc::state::{Cw20TokenContractsInfo, StrategyInfo, UserRewardInfo, UserStrategyPortfolio};
use scc::store::Store;

fn s(x: &str) -> String {
    x.to_string()
}

fn mock_env() -> Env {
    Env { block_height: 12_345, block_time: Timestamp::from_nanos(1_571_797_419_879_305_533) }
}

fn instantiate_contract() -> Store {
    let msg = InstantiateMsg {
        strategy_denom: s("uluna"),
        delegator_contract: s("delegator_contract"),
        default_user_portfolio: None,
        default_fallback_strategy: None,
    };
    instantiate(&mock_env(), &s("creator"), msg).0
}

fn portfolio(entries: &[(u64, u128)]) -> Vec<UserStrategyPortfolio> {
    entries.iter().map(|(id, f)| UserStrategyPortfolio { strategy_id: *id, deposit_fraction: *f }).collect()
}

fn user_with_portfolio(entries: &[(u64, u128)]) -> UserRewardInfo {
    UserRewardInfo {
        user_portfolio: portfolio(entries),
        strategies: vec![],
        pending_airdrops: vec![],
        undelegation_records: vec![],
        pending_rewards: 0,
    }
}

fn text_attr(resp: &Response, k: usize) -> (String, String) {
    match &resp.attributes[k].value {
        AttributeValue::Text(v) => (resp.attributes[k].key.clone(), v.clone()),
        _ => panic!("not a text attribute"),
    }
}

#[test]
fn test_update_strategy_fail() {
    let mut store = instantiate_contract();

    // Test - 1. Unauthorized
    let err = store
        .try_update_strategy(&s("not-creator"), 2, Some(0), Some(0), None, Some(false))
        .unwrap_err();
    assert!(matches!(err, ContractError::Unauthorized {}));

    // Test - 2. Strategy does not exist
    let err = store.try_update_strategy(&s("creator"), 1, None, None, None, None).unwrap_err();
    assert!(matches!(err, ContractError::StrategyInfoDoesNotExist {}));
}

#[test]
fn test_update_strategy_success() {
    let mut store = instantiate_contract();
    let mut sid1 = StrategyInfo::new(s("sid1"), s("abc"), 3600, 3600);
    sid1.is_active = false;
    store.strategies.insert(1, sid1);

    store
        .try_update_strategy(&s("creator"), 1, Some(10000), Some(15000), Some(s("test")), Some(true))
        .unwrap();

    let sid1 = store.query_strategy_info(1).strategy_info.unwrap();
    assert_eq!(sid1.unbonding_period, 10000);
    assert_eq!(sid1.unbonding_buffer, 15000);
    assert_eq!(sid1.sic_contract_address, s("test"));
    assert!(sid1.is_active);
}

#[test]
fn test_update_strategy_keeps_unset_fields() {
    let mut store = instantiate_contract();
    store.strategies.insert(1, StrategyInfo::new(s("sid1"), s("abc"), 3600, 1800));
    store.try_update_strategy(&s("creator"), 1, None, None, None, Some(true)).unwrap();
    let sid1 = store.query_strategy_info(1).strategy_info.unwrap();
    assert_eq!(sid1.unbonding_period, 3600);
    assert_eq!(sid1.unbonding_buffer, 1800);
    assert_eq!(sid1.sic_contract_address, s("abc"));
    assert!(sid1.is_active);
}

#[test]
fn test_update_cw20_contracts_registry_fail() {
    let mut store = instantiate_contract();

    // Test - 1. Unauthorized
    let err = store
        .try_update_cw20_contracts_registry(&s("not-creator"), s("anc"), s("abc"), s("def"))
        .unwrap_err();
    assert!(matches!(err, ContractError::Unauthorized {}));
}

#[test]
fn test_update_cw20_contracts_registry_success() {
    let mut store = instantiate_contract();
    store.try_update_cw20_contracts_registry(&s("creator"), s("anc"), s("abc"), s("def")).unwrap();

    let anc_contracts = store.cw20_token_contracts_registry.get(&s("anc"));
    assert_ne!(anc_contracts, None);
    let anc_contracts = anc_contracts.unwrap();
    assert_eq!(anc_contracts.cw20_token_contract, s("abc"));
    assert_eq!(anc_contracts.airdrop_contract, s("def"));
}

#[test]
fn test_update_cw20_contracts_registry_overwrites() {
    let mut store = instantiate_contract();
    store.try_update_cw20_contracts_registry(&s("creator"), s("anc"), s("abc"), s("def")).unwrap();
    store.try_update_cw20_contracts_registry(&s("creator"), s("anc"), s("ghi"), s("jkl")).unwrap();
    assert_eq!(
        store.cw20_token_contracts_registry.get(&s("anc")),
        Some(&Cw20TokenContractsInfo { cw20_token_contract: s("ghi"), airdrop_contract: s("jkl") })
    );
}

#[test]
fn test_register_strategy_fail() {
    let mut store = instantiate_contract();

    // Test - 1. Unauthorized
    let err = store.try_register_strategy(&s("not-creator"), s("sid"), s("abc"), 10, 10).unwrap_err();
    assert!(matches!(err, ContractError::Unauthorized {}));
}

#[test]
fn test_register_strategy_success() {
    let mut store = instantiate_contract();

    store.try_register_strategy(&s("creator"), s("sid1"), s("abc"), 100, 100).unwrap();
    let strategy_info = store.query_strategy_info(1).strategy_info;
    assert_ne!(strategy_info, None);
    assert_eq!(
        strategy_info.unwrap(),
        StrategyInfo {
            name: s("sid1"),
            sic_contract_address: s("abc"),
            unbonding_period: 100,
            unbonding_buffer: 100,
            next_undelegation_batch_id: 0,
            next_reconciliation_batch_id: 0,
            is_active: false,
            total_shares: Decimal::zero(),
            current_undelegated_shares: Decimal::zero(),
            global_airdrop_pointer: vec![],
            total_airdrops_accumulated: vec![],
            shares_per_token_ratio: Decimal::from_ratio(10, 1),
        }
    );

    store.try_register_strategy(&s("creator"), s("sid2"), s("abc"), 100, 100).unwrap();
    let strategy_info = store.query_strategy_info(2).strategy_info;
    assert_ne!(strategy_info, None);
    assert_eq!(
        strategy_info.unwrap(),
        StrategyInfo {
            name: s("sid2"),
            sic_contract_address: s("abc"),
            unbonding_period: 100,
            unbonding_buffer: 100,
            next_undelegation_batch_id: 0,
            next_reconciliation_batch_id: 0,
            is_active: false,
            total_shares: Decimal::zero(),
            current_undelegated_shares: Decimal::zero(),
            global_airdrop_pointer: vec![],
            total_airdrops_accumulated: vec![],
            shares_per_token_ratio: Decimal::from_ratio(10, 1),
        }
    );
    assert_eq!(store.query_state().state.unwrap().next_strategy_id, 3);
}

#[test]
fn test_register_strategy_id_taken() {
    let mut store = instantiate_contract();
    store.strategies.insert(1, StrategyInfo::default(s("sid1")));
    let err = store.try_register_strategy(&s("creator"), s("sid"), s("abc"), 10, 10).unwrap_err();
    assert!(matches!(err, ContractError::StrategyInfoAlreadyExists {}));
}

#[test]
fn test_register_strategy_no_id_left() {
    let mut store = instantiate_contract();
    store.state.next_strategy_id = u64::MAX;
    let err = store.try_register_strategy(&s("creator"), s("sid"), s("abc"), 10, 10).unwrap_err();
    assert!(matches!(err, ContractError::Overflow {}));
}

#[test]
fn test_deactivate_activate_remove_strategy() {
    let mut store = instantiate_contract();
    store.try_register_strategy(&s("creator"), s("sid1"), s("abc"), 100, 100).unwrap();

    let err = store.try_activate_strategy(&s("not-creator"), 1).unwrap_err();
    assert!(matches!(err, ContractError::Unauthorized {}));
    let err = store.try_activate_strategy(&s("creator"), 2).unwrap_err();
    assert!(matches!(err, ContractError::StrategyInfoDoesNotExist {}));

    store.try_activate_strategy(&s("creator"), 1).unwrap();
    assert!(store.query_strategy_info(1).strategy_info.unwrap().is_active);

    let err = store.try_deactivate_strategy(&s("not-creator"), 1).unwrap_err();
    assert!(matches!(err, ContractError::Unauthorized {}));
    let err = store.try_deactivate_strategy(&s("creator"), 2).unwrap_err();
    assert!(matches!(err, ContractError::StrategyInfoDoesNotExist {}));
    store.try_deactivate_strategy(&s("creator"), 1).unwrap();
    assert!(!store.query_strategy_info(1).strategy_info.unwrap().is_active);

    let err = store.try_remove_strategy(&s("not-creator"), 1).unwrap_err();
    assert!(matches!(err, ContractError::Unauthorized {}));
    // removing a strategy that is not there is no error
    store.try_remove_strategy(&s("creator"), 2).unwrap();
    store.try_remove_strategy(&s("creator"), 1).unwrap();
    assert_eq!(store.query_strategy_info(1).strategy_info, None);
}

#[test]
fn test_update_user_airdrops_fail() {
    let mut store = instantiate_contract();

    // Test - 1. Unauthorized
    let err = store.try_update_user_airdrops(&s("not-creator"), vec![]).unwrap_err();
    assert!(matches!(err, ContractError::Unauthorized {}));

    // Test - 2. Empty request object
    let res = store.try_update_user_airdrops(&s("delegator_contract"), vec![]).unwrap();
    assert_eq!(res.attributes.len(), 1);
    assert_eq!(text_attr(&res, 0), (s("zero_user_airdrop_requests"), s("1")));
}

#[test]
fn test_update_user_airdrops_success() {
    let mut store = instantiate_contract();
    store.config.default_user_portfolio = portfolio(&[(0, 100)]);
    let user1 = s("user1");
    let user2 = s("user2");
    store.users.insert(
        user1.clone(),
        UserRewardInfo {
            user_portfolio: vec![],
            strategies: vec![],
            pending_airdrops: vec![Coin::new(100, s("anc")), Coin::new(50, s("mir"))],
            undelegation_records: vec![],
            pending_rewards: 0,
        },
    );
    store.state.total_accumulated_airdrops = vec![Coin::new(100, s("anc")), Coin::new(50, s("mir"))];

    let res = store
        .try_update_user_airdrops(
            &s("delegator_contract"),
            vec![
                UpdateUserAirdropsRequest {
                    user: user1.clone(),
                    pool_airdrops: vec![Coin::new(100, s("anc")), Coin::new(100, s("mir"))],
                },
                UpdateUserAirdropsRequest {
                    user: user2.clone(),
                    pool_airdrops: vec![Coin::new(200, s("anc")), Coin::new(100, s("mir"))],
                },
            ],
        )
        .unwrap();
    assert_eq!(res.messages.len(), 0);

    let state = store.query_state().state.unwrap();
    assert!(check_equal_vec(
        state.total_accumulated_airdrops,
        vec![Coin::new(400, s("anc")), Coin::new(250, s("mir"))]
    ));
    let u1 = store.users.get(&user1).unwrap();
    assert!(check_equal_vec(
        u1.pending_airdrops.clone(),
        vec![Coin::new(200, s("anc")), Coin::new(150, s("mir"))]
    ));
    let u2 = store.users.get(&user2).unwrap();
    assert!(check_equal_vec(
        u2.pending_airdrops.clone(),
        vec![Coin::new(200, s("anc")), Coin::new(100, s("mir"))]
    ));
    // a new user starts from the default portfolio
    assert_eq!(u2.user_portfolio, portfolio(&[(0, 100)]));
}

#[test]
fn test_update_user_airdrops_overflow() {
    let mut store = instantiate_contract();
    store.state.total_accumulated_airdrops = vec![Coin::new(u128::MAX, s("anc"))];
    let err = store
        .try_update_user_airdrops(
            &s("delegator_contract"),
            vec![UpdateUserAirdropsRequest { user: s("user1"), pool_airdrops: vec![Coin::new(1, s("anc"))] }],
        )
        .unwrap_err();
    assert!(matches!(err, ContractError::Overflow {}));
}

#[test]
fn test_update_user_portfolio_fail() {
    let mut store = instantiate_contract();
    let user1 = s("user1");

    // Test - 1. Strategy does not exist
    let err = store.try_update_user_portfolio(&s("not-creator"), portfolio(&[(1, 100)])).unwrap_err();
    assert!(matches!(err, ContractError::InvalidUserPortfolio {}));

    // Test - 2. Adding an invalid portfolio which causes the entire deposit fraction to go beyond 1
    store.users.insert(user1.clone(), user_with_portfolio(&[(1, 50), (2, 25)]));
    store.strategies.insert(3, StrategyInfo::default(s("sid3")));
    let err = store.try_update_user_portfolio(&user1, portfolio(&[(3, 133)])).unwrap_err();
    assert!(matches!(err, ContractError::InvalidUserPortfolio {}));

    // Test - 3. Updating an existing portfolio which causes the entire deposit fraction to go beyond 1
    store.users.insert(user1.clone(), user_with_portfolio(&[(1, 50), (2, 25)]));
    store.strategies.insert(1, StrategyInfo::default(s("sid1")));
    store.strategies.insert(2, StrategyInfo::default(s("sid2")));
    let err = store.try_update_user_portfolio(&user1, portfolio(&[(1, 50), (2, 75)])).unwrap_err();
    assert!(matches!(err, ContractError::InvalidUserPortfolio {}));
    // the record is left as it was
    assert_eq!(store.users.get(&user1).unwrap().user_portfolio, portfolio(&[(1, 50), (2, 25)]));
}

#[test]
fn test_update_user_portfolio_success() {
    let mut store = instantiate_contract();
    let user1 = s("user1");

    // Test - 1. Existing user
    store.strategies.insert(1, StrategyInfo::default(s("sid1")));
    store.strategies.insert(2, StrategyInfo::default(s("sid2")));
    store.users.insert(user1.clone(), user_with_portfolio(&[(1, 50)]));
    store.try_update_user_portfolio(&user1, portfolio(&[(1, 50), (2, 25)])).unwrap();
    let user_reward_info = store.users.get(&user1);
    assert_ne!(user_reward_info, None);
    assert!(check_equal_vec(
        user_reward_info.unwrap().user_portfolio.clone(),
        portfolio(&[(1, 50), (2, 25)])
    ));

    // Test - 2. New user gets a record
    let user2 = s("user2");
    store.try_update_user_portfolio(&user2, portfolio(&[(2, 100)])).unwrap();
    assert_eq!(*store.users.get(&user2).unwrap(), user_with_portfolio(&[(2, 100)]));
}

#[test]
fn test_withdraw_pending_rewards_fail() {
    let mut store = instantiate_contract();
    let err = store.try_withdraw_pending_rewards(&s("user1")).unwrap_err();
    assert!(matches!(err, ContractError::UserRewardInfoDoesNotExist {}));
}

#[test]
fn test_withdraw_pending_rewards_success() {
    let mut store = instantiate_contract();
    let user1 = s("user1");

    // Test - 1. nothing pending
    store.users.insert(user1.clone(), user_with_portfolio(&[]));
    let res = store.try_withdraw_pending_rewards(&user1).unwrap();
    assert_eq!(res.messages.len(), 0);
    assert_eq!(text_attr(&res, 0), (s("zero_pending_rewards"), s("1")));

    // Test - 2. pending rewards are sent to the user
    let mut info = user_with_portfolio(&[]);
    info.pending_rewards = 500;
    store.users.insert(user1.clone(), info);
    let res = store.try_withdraw_pending_rewards(&user1).unwrap();
    assert_eq!(
        res.messages,
        vec![ContractMsg::BankSend { to_address: user1.clone(), amount: vec![Coin::new(500, s("uluna"))] }]
    );
    assert_eq!(store.users.get(&user1).unwrap().pending_rewards, 0);
}

#[test]
fn test_deactivate_then_activate_restores_strategy() {
    let mut store = instantiate_contract();
    let mut st = StrategyInfo::new(s("sid1"), s("abc"), 100, 10);
    st.is_active = true;
    st.total_shares = Decimal::from_ratio(5, 1);
    store.strategies.insert(1, st.clone());
    store.try_deactivate_strategy(&s("creator"), 1).unwrap();
    store.try_activate_strategy(&s("creator"), 1).unwrap();
    assert_eq!(store.query_strategy_info(1).strategy_info.unwrap(), st);
}
