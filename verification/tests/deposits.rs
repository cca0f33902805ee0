use scc::coins::{Coin, DecCoin};
use scc::compare::{check_equal_user_strategies, check_equal_vec};
use scc::env::{Env, SicAnswers};
use scc::error::ContractError;
use scc::math::{Decimal, Timestamp};
use scc::msg::{AttributeValue, ContractMsg, InstantiateMsg, Response, UpdateUserRewardsRequest};
use scc::queries::instantiate;
use scc::state::{StrategyInfo, UserRewardInfo, UserStrategyInfo, UserStrategyPortfolio};
use scc::store::Store;

fn s(x: &str) -> String {
    x.to_string()
}

fn dec(n: u128, d: u128) -> Decimal {
    Decimal::from_ratio(n, d)
}

fn dcoin(n: u128, d: u128, denom: &str) -> DecCoin {
    DecCoin::new(dec(n, d), s(denom))
}

fn coin(amount: u128, denom: &str) -> Coin {
    Coin::new(amount, s(denom))
}

fn mock_env() -> Env {
    Env { block_height: 12_345, block_time: Timestamp::from_nanos(1_571_797_419_879_305_533) }
}

fn instantiate_contract() -> Store {
    let msg = InstantiateMsg {
        strategy_denom: s("uluna"),
        delegator_contract: s("delegator_contract"),
        default_user_portfolio: None,
        default_fallback_strategy: None,
    };
    instantiate(&mock_env(), &s("creator"), msg).0
}

fn tokens(entries: &[(u64, u128)]) -> SicAnswers {
    let mut a = SicAnswers::new();
    for (id, t) in entries {
        a.total_tokens.insert(*id, Some(*t));
    }
    a
}

fn portfolio(entries: &[(u64, u128)]) -> Vec<UserStrategyPortfolio> {
    entries.iter().map(|(id, f)| UserStrategyPortfolio { strategy_id: *id, deposit_fraction: *f }).collect()
}

fn strategy(name: &str, sic: &str, total_shares: Decimal, pointer: Vec<DecCoin>, accumulated: Vec<Coin>) -> StrategyInfo {
    let mut st = StrategyInfo::new(s(name), s(sic), 3600, 0);
    st.is_active = true;
    st.total_shares = total_shares;
    st.global_airdrop_pointer = pointer;
    st.total_airdrops_accumulated = accumulated;
    st
}

fn position(strategy_id: u64, shares: Decimal, airdrop_pointer: Vec<DecCoin>) -> UserStrategyInfo {
    UserStrategyInfo { strategy_id, shares, airdrop_pointer }
}

fn request(user: &str, funds: u128, strategy_id: Option<u64>) -> UpdateUserRewardsRequest {
    UpdateUserRewardsRequest { user: s(user), funds, strategy_id }
}

fn transfer_rewards(sic: &str, amount: u128) -> ContractMsg {
    ContractMsg::SicTransferRewards { sic_contract_address: s(sic), funds: coin(amount, "uluna") }
}

fn text_attr(resp: &Response, k: usize) -> (String, String) {
    match &resp.attributes[k].value {
        AttributeValue::Text(v) => (resp.attributes[k].key.clone(), v.clone()),
        _ => panic!("not a text attribute"),
    }
}

fn ids_attr(resp: &Response, k: usize) -> (String, Vec<u64>) {
    match &resp.attributes[k].value {
        AttributeValue::StrategyIds(v) => (resp.attributes[k].key.clone(), v.clone()),
        _ => panic!("not an id list"),
    }
}

fn addresses_attr(resp: &Response, k: usize) -> (String, Vec<String>) {
    match &resp.attributes[k].value {
        AttributeValue::Addresses(v) => (resp.attributes[k].key.clone(), v.clone()),
        _ => panic!("not an address list"),
    }
}

#[test]
fn test_update_user_rewards_fail() {
    let mut store = instantiate_contract();
    let delegator = s("delegator_contract");

    // Test - 1. Unauthorized
    let err = store.try_update_user_rewards(&s("not-pools"), vec![], &tokens(&[])).unwrap_err();
    assert!(matches!(err, ContractError::Unauthorized {}));

    // Test - 2. Empty user requests
    let res = store.try_update_user_rewards(&delegator, vec![], &tokens(&[])).unwrap();
    assert_eq!(res.attributes.len(), 1);
    assert_eq!(text_attr(&res, 0), (s("zero_update_user_rewards_requests"), s("1")));

    // Test - 3. User sends 0 funds
    let res = store.try_update_user_rewards(&delegator, vec![request("user1", 0, None)], &tokens(&[])).unwrap();
    assert_eq!(res.attributes.len(), 2);
    assert_eq!(res.messages.len(), 0);
    assert_eq!(ids_attr(&res, 0), (s("failed_strategies"), vec![]));
    assert_eq!(addresses_attr(&res, 1), (s("users_with_zero_deposits"), vec![s("user1")]));

    // a strategy whose SIC does not answer is logged and skipped; the other deposits go on
    store.strategies.insert(1, strategy("sid1", "sic1_address", dec(1000, 1), vec![], vec![]));
    store.strategies.insert(2, strategy("sid2", "sic2_address", dec(1000, 1), vec![], vec![]));
    let res = store
        .try_update_user_rewards(
            &delegator,
            vec![request("user1", 100, Some(1)), request("user2", 50, Some(2))],
            &tokens(&[(2, 200)]),
        )
        .unwrap();
    assert_eq!(res.messages, vec![transfer_rewards("sic2_address", 50)]);
    assert_eq!(res.attributes.len(), 3);
    assert_eq!(ids_attr(&res, 0), (s("failed_strategies"), vec![]));
    assert_eq!(addresses_attr(&res, 1), (s("users_with_zero_deposits"), vec![]));
    assert_eq!(ids_attr(&res, 2), (s("failed_sics"), vec![1]));
    assert_eq!(store.strategies.get(&1).unwrap().total_shares, dec(1000, 1));
    assert_eq!(store.users.get(&s("user1")).unwrap().strategies.len(), 0);
    assert_eq!(store.users.get(&s("user2")).unwrap().strategies[0].shares, dec(250, 1));
}

#[test]
fn test_update_user_rewards_success() {
    let mut store = instantiate_contract();
    let delegator = s("delegator_contract");
    let user1 = s("user1");

    // Test - 1. User deposits to a new strategy for the first time(no user_reward_info)
    store.strategies.insert(1, strategy("sid1", "sic1_address", dec(1000, 1), vec![], vec![]));
    let res = store
        .try_update_user_rewards(&delegator, vec![request("user1", 100, Some(1))], &tokens(&[(1, 0)]))
        .unwrap();
    assert_eq!(res.messages, vec![transfer_rewards("sic1_address", 100)]);
    assert_eq!(store.query_strategy_info(1).strategy_info.unwrap().total_shares, dec(2000, 1));
    let info = store.users.get(&user1).unwrap();
    assert!(check_equal_user_strategies(info.strategies.clone(), vec![position(1, dec(1000, 1), vec![])]));
    assert_eq!(info.pending_rewards, 0);
    assert_eq!(info.user_portfolio.len(), 0);
    assert_eq!(store.query_state().state.unwrap().rewards_in_scc, 0);

    // Test - 2. User deposits to an already deposited strategy on-demand
    let sid3_pointer = vec![dcoin(200, 3000, "anc"), dcoin(600, 3000, "mir")];
    let reset = |store: &mut Store, sid3_tokens_shares: Decimal| {
        store.state.rewards_in_scc = 200;
        store.strategies.insert(
            1,
            strategy(
                "sid1",
                "sic1_address",
                dec(5000, 1),
                vec![dcoin(500, 5000, "anc"), dcoin(200, 5000, "mir")],
                vec![coin(500, "anc"), coin(200, "mir")],
            ),
        );
        store.strategies.insert(2, strategy("sid2", "sic2_address", dec(7000, 1), vec![], vec![]));
        store.strategies.insert(
            3,
            strategy("sid3", "sic3_address", sid3_tokens_shares, vec![dcoin(200, 3000, "anc"), dcoin(600, 3000, "mir")], vec![]),
        );
        store.users.insert(
            s("user1"),
            UserRewardInfo {
                user_portfolio: portfolio(&[(1, 50), (2, 25), (3, 25)]),
                strategies: vec![
                    position(1, dec(2000, 1), vec![]),
                    position(2, dec(3000, 1), vec![]),
                    position(3, dec(500, 1), vec![]),
                ],
                pending_airdrops: vec![coin(100, "anc"), coin(50, "mir")],
                undelegation_records: vec![],
                pending_rewards: 200,
            },
        );
    };
    reset(&mut store, dec(3000, 1));
    let res = store
        .try_update_user_rewards(&delegator, vec![request("user1", 500, Some(3))], &tokens(&[(1, 0), (2, 0), (3, 0)]))
        .unwrap();
    assert_eq!(res.messages, vec![transfer_rewards("sic3_address", 500)]);
    assert_eq!(store.query_strategy_info(3).strategy_info.unwrap().total_shares, dec(8000, 1));
    let info = store.users.get(&user1).unwrap();
    assert!(check_equal_user_strategies(info.strategies.clone(), vec![position(1, dec(2000, 1), vec![]), position(2, dec(3000, 1), vec![]), position(3, dec(5500, 1), sid3_pointer.clone())]));
    assert_eq!(info.pending_rewards, 200);
    assert!(check_equal_vec(info.user_portfolio.clone(), portfolio(&[(1, 50), (2, 25), (3, 25)])));
    assert!(check_equal_vec(info.pending_airdrops.clone(), vec![coin(133, "anc"), coin(150, "mir")]));
    assert_eq!(store.query_state().state.unwrap().rewards_in_scc, 200);

    // Test - 3. User deposits to a strategy which has been slashed
    reset(&mut store, dec(3000, 1));
    let res = store
        .try_update_user_rewards(&delegator, vec![request("user1", 500, Some(3))], &tokens(&[(1, 0), (2, 0), (3, 100)]))
        .unwrap();
    assert_eq!(res.messages, vec![transfer_rewards("sic3_address", 500)]);
    assert_eq!(store.query_strategy_info(3).strategy_info.unwrap().total_shares, dec(18000, 1));
    let info = store.users.get(&user1).unwrap();
    assert!(check_equal_user_strategies(info.strategies.clone(), vec![position(1, dec(2000, 1), vec![]), position(2, dec(3000, 1), vec![]), position(3, dec(15500, 1), sid3_pointer.clone())]));
    assert_eq!(info.pending_rewards, 200);
    assert!(check_equal_vec(info.pending_airdrops.clone(), vec![coin(133, "anc"), coin(150, "mir")]));
    assert_eq!(store.query_state().state.unwrap().rewards_in_scc, 200);

    // Test - 4. User deposits money and splits it across his portfolio
    let p1 = vec![dcoin(100, 1000, "anc"), dcoin(300, 1000, "mir")];
    let p2 = vec![dcoin(200, 1000, "anc"), dcoin(400, 1000, "mir")];
    store.state.rewards_in_scc = 300;
    store.strategies.insert(
        1,
        strategy("sid1", "sic1_address", dec(1000, 1), p1.clone(), vec![coin(200, "anc"), coin(400, "mir")]),
    );
    store.strategies.insert(
        2,
        strategy("sid2", "sic2_address", dec(1000, 1), p2.clone(), vec![coin(100, "anc"), coin(100, "mir")]),
    );
    store.strategies.remove(&3);
    store.users.insert(
        user1.clone(),
        UserRewardInfo {
            user_portfolio: portfolio(&[(1, 25), (2, 50)]),
            strategies: vec![],
            pending_airdrops: vec![],
            undelegation_records: vec![],
            pending_rewards: 300,
        },
    );
    let res = store
        .try_update_user_rewards(&delegator, vec![request("user1", 100, None)], &tokens(&[(1, 0), (2, 0)]))
        .unwrap();
    assert_eq!(res.messages.len(), 2);
    assert!(check_equal_vec(
        res.messages,
        vec![transfer_rewards("sic1_address", 25), transfer_rewards("sic2_address", 50)]
    ));
    assert_eq!(store.query_strategy_info(1).strategy_info.unwrap().total_shares, dec(1250, 1));
    assert_eq!(store.query_strategy_info(2).strategy_info.unwrap().total_shares, dec(1500, 1));
    let info = store.users.get(&user1).unwrap();
    assert!(check_equal_user_strategies(info.strategies.clone(), vec![position(1, dec(250, 1), p1.clone()), position(2, dec(500, 1), p2.clone())]));
    assert_eq!(info.pending_rewards, 325);
    assert_eq!(store.query_state().state.unwrap().rewards_in_scc, 325);

    // Test - 5. User deposits money but has an empty portfolio
    store.state.rewards_in_scc = 300;
    store.strategies.insert(
        1,
        strategy("sid1", "sic1_address", dec(1000, 1), p1.clone(), vec![coin(200, "anc"), coin(400, "mir")]),
    );
    store.strategies.insert(
        2,
        strategy("sid2", "sic2_address", dec(1000, 1), p2.clone(), vec![coin(100, "anc"), coin(100, "mir")]),
    );
    store.users.insert(
        user1.clone(),
        UserRewardInfo {
            user_portfolio: vec![],
            strategies: vec![],
            pending_airdrops: vec![],
            undelegation_records: vec![],
            pending_rewards: 300,
        },
    );
    let res = store
        .try_update_user_rewards(&delegator, vec![request("user1", 100, None)], &tokens(&[(1, 0), (2, 0)]))
        .unwrap();
    assert_eq!(res.messages.len(), 0);
    assert_eq!(store.query_strategy_info(1).strategy_info.unwrap().total_shares, dec(1000, 1));
    assert_eq!(store.query_strategy_info(2).strategy_info.unwrap().total_shares, dec(1000, 1));
    assert_eq!(store.users.get(&user1).unwrap().pending_rewards, 400);
    assert_eq!(store.query_state().state.unwrap().rewards_in_scc, 400);

    // Test - 6. User deposits across his portfolio with existing deposits
    store.state.rewards_in_scc = 300;
    store.users.insert(
        user1.clone(),
        UserRewardInfo {
            user_portfolio: portfolio(&[(1, 25), (2, 50)]),
            strategies: vec![position(1, dec(1000, 1), vec![]), position(2, dec(500, 1), p2.clone())],
            pending_airdrops: vec![],
            undelegation_records: vec![],
            pending_rewards: 300,
        },
    );
    let res = store
        .try_update_user_rewards(&delegator, vec![request("user1", 100, None)], &tokens(&[(1, 0), (2, 0)]))
        .unwrap();
    assert!(check_equal_vec(
        res.messages,
        vec![transfer_rewards("sic1_address", 25), transfer_rewards("sic2_address", 50)]
    ));
    assert_eq!(store.query_strategy_info(1).strategy_info.unwrap().total_shares, dec(1250, 1));
    assert_eq!(store.query_strategy_info(2).strategy_info.unwrap().total_shares, dec(1500, 1));
    let info = store.users.get(&user1).unwrap();
    assert!(check_equal_user_strategies(info.strategies.clone(), vec![position(1, dec(1250, 1), p1.clone()), position(2, dec(1000, 1), p2.clone())]));
    assert_eq!(info.pending_rewards, 325);
    // the airdrops of the first position are collected: 1000 shares at 0.1 anc and 0.3 mir
    assert!(check_equal_vec(info.pending_airdrops.clone(), vec![coin(100, "anc"), coin(300, "mir")]));
    assert_eq!(store.query_state().state.unwrap().rewards_in_scc, 325);
}

#[test]
fn test_update_user_rewards_several_users() {
    let mut store = instantiate_contract();
    let delegator = s("delegator_contract");
    store.config.default_user_portfolio = portfolio(&[(1, 100)]);
    store.strategies.insert(1, strategy("sid1", "sic1_address", dec(1000, 1), vec![], vec![]));
    let res = store
        .try_update_user_rewards(
            &delegator,
            vec![request("user1", 100, None), request("user2", 0, None), request("user3", 50, Some(7))],
            &tokens(&[(1, 0)]),
        )
        .unwrap();
    // one transfer to the SIC for what it received; a deposit to a missing strategy is retained
    assert_eq!(res.messages, vec![transfer_rewards("sic1_address", 100)]);
    assert_eq!(ids_attr(&res, 0), (s("failed_strategies"), vec![]));
    assert_eq!(store.users.get(&s("user3")).unwrap().pending_rewards, 50);
    assert_eq!(store.query_state().state.unwrap().rewards_in_scc, 50);
    assert_eq!(addresses_attr(&res, 1), (s("users_with_zero_deposits"), vec![s("user2")]));
    assert_eq!(store.query_strategy_info(1).strategy_info.unwrap().total_shares, dec(2000, 1));
    let u1 = store.users.get(&s("user1")).unwrap();
    assert!(check_equal_user_strategies(u1.strategies.clone(), vec![position(1, dec(1000, 1), vec![])]));
}

#[test]
fn test_refused_rewards_update_leaves_records() {
    let mut store = instantiate_contract();
    let delegator = s("delegator_contract");
    store.strategies.insert(1, strategy("sid1", "sic1_address", dec(1000, 1), vec![], vec![]));
    store.strategies.insert(2, strategy("sid2", "sic2_address", dec(1000, 1), vec![], vec![]));
    // the first request could be deposited, but the shares the second buys leave 128 bits
    let err = store
        .try_update_user_rewards(
            &delegator,
            vec![request("user1", 100, Some(1)), request("user2", u128::MAX, Some(2))],
            &tokens(&[(1, 200), (2, 200)]),
        )
        .unwrap_err();
    assert!(matches!(err, ContractError::Overflow {}));
    assert!(store.users.get(&s("user1")).is_none());
    assert_eq!(store.strategies.get(&1).unwrap().total_shares, dec(1000, 1));
    assert_eq!(store.strategies.get(&1).unwrap().shares_per_token_ratio, dec(10, 1));
}

#[test]
fn test_one_transfer_per_shared_sic() {
    let mut store = instantiate_contract();
    let delegator = s("delegator_contract");
    store.strategies.insert(1, strategy("sid1", "shared_sic", dec(1000, 1), vec![], vec![]));
    store.strategies.insert(2, strategy("sid2", "shared_sic", dec(1000, 1), vec![], vec![]));
    store.strategies.insert(3, strategy("sid3", "sic3_address", dec(1000, 1), vec![], vec![]));
    let res = store
        .try_update_user_rewards(
            &delegator,
            vec![request("user1", 100, Some(1)), request("user2", 50, Some(2)), request("user3", 30, Some(3)),
                request("user1", 20, Some(2))],
            &tokens(&[(1, 200), (2, 200), (3, 200)]),
        )
        .unwrap();
    assert_eq!(res.messages, vec![transfer_rewards("shared_sic", 170), transfer_rewards("sic3_address", 30)]);
}

#[test]
fn test_deposit_settles_airdrops_then_buys_shares() {
    let mut store = instantiate_contract();
    let delegator = s("delegator_contract");
    store.strategies.insert(1, strategy("sid1", "sic1_address", dec(1000, 1), vec![dcoin(3, 10, "anc")], vec![]));
    let mut info = UserRewardInfo::new(vec![]);
    info.strategies = vec![position(1, dec(100, 1), vec![dcoin(1, 10, "anc")])];
    store.users.insert(s("user1"), info);
    let res = store
        .try_update_user_rewards(&delegator, vec![request("user1", 25, Some(1))], &tokens(&[(1, 200)]))
        .unwrap();
    assert_eq!(res.messages, vec![transfer_rewards("sic1_address", 25)]);
    // ratio 1000 / 200 = 5: 125 shares bought on both sides
    let st = store.strategies.get(&1).unwrap();
    assert_eq!(st.shares_per_token_ratio, dec(5, 1));
    assert_eq!(st.total_shares, dec(1125, 1));
    let user = store.users.get(&s("user1")).unwrap();
    assert_eq!(user.strategies[0].shares, dec(225, 1));
    assert_eq!(user.strategies[0].airdrop_pointer, vec![dcoin(3, 10, "anc")]);
    // the airdrops were settled on the old 100 shares: 100 * (0.3 - 0.1)
    assert_eq!(user.pending_airdrops, vec![coin(20, "anc")]);
}
