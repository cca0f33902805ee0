use scc::coins::{Coin, DecCoin};
use scc::compare::check_equal_vec;
use scc::env::Env;
use scc::error::ContractError;
use scc::math::{Decimal, Timestamp};
use scc::msg::{ContractMsg, InstantiateMsg};
use scc::queries::instantiate;
use scc::state::{Cw20TokenContractsInfo, StrategyInfo, UserRewardInfo, UserStrategyInfo};
use scc::store::Store;

fn s(x: &str) -> String {
    x.to_string()
}

fn dec(n: u128, d: u128) -> Decimal {
    Decimal::from_ratio(n, d)
}

fn dcoin(n: u128, d: u128, denom: &str) -> DecCoin {
    DecCoin::new(dec(n, d), s(denom))
}

fn coin(amount: u128, denom: &str) -> Coin {
    Coin::new(amount, s(denom))
}

fn mock_env() -> Env {
    Env { block_height: 12_345, block_time: Timestamp::from_nanos(1_571_797_419_879_305_533) }
}

fn instantiate_contract() -> Store {
    let msg = InstantiateMsg {
        strategy_denom: s("uluna"),
        delegator_contract: s("delegator_contract"),
        default_user_portfolio: None,
        default_fallback_strategy: None,
    };
    instantiate(&mock_env(), &s("creator"), msg).0
}

fn register(store: &mut Store, denom: &str, airdrop_contract: &str, cw20_token_contract: &str) {
    store.cw20_token_contracts_registry.insert(
        s(denom),
        Cw20TokenContractsInfo { airdrop_contract: s(airdrop_contract), cw20_token_contract: s(cw20_token_contract) },
    );
}

fn claim_msg(sic: &str, airdrop_contract: &str, cw20: &str, token: &str, amount: u128, msg: &[u8]) -> ContractMsg {
    ContractMsg::SicClaimAirdrops {
        sic_contract_address: s(sic),
        airdrop_token_contract: s(airdrop_contract),
        cw20_token_contract: s(cw20),
        airdrop_token: s(token),
        amount,
        claim_msg: msg.to_vec(),
    }
}

fn cw20_transfer(cw20: &str, recipient: &str, amount: u128) -> ContractMsg {
    ContractMsg::Cw20Transfer { cw20_token_contract: s(cw20), recipient: s(recipient), amount }
}

fn user_in_strategy_1(shares: Decimal) -> UserRewardInfo {
    UserRewardInfo {
        user_portfolio: vec![],
        strategies: vec![UserStrategyInfo { strategy_id: 1, shares, airdrop_pointer: vec![] }],
        pending_airdrops: vec![],
        undelegation_records: vec![],
        pending_rewards: 0,
    }
}

#[test]
fn test_claim_airdrops_fail() {
    let mut store = instantiate_contract();
    let proof = b"proof1,proof2";

    // Unauthorized
    let err = store.try_claim_airdrops(&s("not-creator"), 1, 100, s("anc"), proof.to_vec()).unwrap_err();
    assert!(matches!(err, ContractError::Unauthorized {}));

    // Test - 2. Unregistered airdrop
    let err = store.try_claim_airdrops(&s("creator"), 1, 100, s("anc"), proof.to_vec()).unwrap_err();
    assert!(matches!(err, ContractError::AirdropNotRegistered {}));

    // Test - 3. Non-existent strategy
    register(&mut store, "anc", "abc", "def");
    let err = store.try_claim_airdrops(&s("creator"), 1, 100, s("anc"), proof.to_vec()).unwrap_err();
    assert!(matches!(err, ContractError::StrategyInfoDoesNotExist {}));

    // Test - 4. Zero amount
    store.strategies.insert(1, StrategyInfo::new(s("sid1"), s("sic-contract"), 10, 10));
    let err = store.try_claim_airdrops(&s("creator"), 1, 0, s("anc"), proof.to_vec()).unwrap_err();
    assert!(matches!(err, ContractError::ZeroAmount {}));
    // the strategy stays in the records
    assert!(store.query_strategy_info(1).strategy_info.is_some());
}

#[test]
fn test_claim_airdrops_success() {
    let mut store = instantiate_contract();
    register(&mut store, "anc", "anc-airdrop-contract", "anc-cw20-contract");
    register(&mut store, "mir", "mir-airdrop-contract", "mir-cw20-contract");
    let proof = b"proof1,proof2";

    // Test - 1. Claiming airdrops from the sic for the first time
    let mut strategy_info = StrategyInfo::new(s("sid1"), s("sic-contract"), 10, 10);
    strategy_info.total_shares = dec(1000, 1);
    store.strategies.insert(1, strategy_info);
    let res = store.try_claim_airdrops(&s("creator"), 1, 100, s("anc"), proof.to_vec()).unwrap();
    assert_eq!(res.messages.len(), 1);
    assert_eq!(
        res.messages,
        vec![claim_msg("sic-contract", "anc-airdrop-contract", "anc-cw20-contract", "anc", 100, proof)]
    );
    let sid1 = store.query_strategy_info(1).strategy_info.unwrap();
    assert_eq!(sid1.total_airdrops_accumulated, vec![coin(100, "anc")]);
    assert_eq!(sid1.global_airdrop_pointer, vec![dcoin(1, 10, "anc")]);
    assert_eq!(store.query_state().state.unwrap().total_accumulated_airdrops, vec![coin(100, "anc")]);

    // Test - 2. Claiming a mir airdrop after an anc airdrop
    let res = store.try_claim_airdrops(&s("creator"), 1, 100, s("mir"), proof.to_vec()).unwrap();
    assert_eq!(
        res.messages,
        vec![claim_msg("sic-contract", "mir-airdrop-contract", "mir-cw20-contract", "mir", 100, proof)]
    );
    let sid1 = store.query_strategy_info(1).strategy_info.unwrap();
    assert!(check_equal_vec(sid1.total_airdrops_accumulated, vec![coin(100, "anc"), coin(100, "mir")]));
    assert!(check_equal_vec(sid1.global_airdrop_pointer, vec![dcoin(1, 10, "anc"), dcoin(1, 10, "mir")]));

    // Test - 3. Claiming a mir airdrop again
    let res = store.try_claim_airdrops(&s("creator"), 1, 100, s("mir"), proof.to_vec()).unwrap();
    assert_eq!(
        res.messages,
        vec![claim_msg("sic-contract", "mir-airdrop-contract", "mir-cw20-contract", "mir", 100, proof)]
    );
    let sid1 = store.query_strategy_info(1).strategy_info.unwrap();
    assert!(check_equal_vec(sid1.total_airdrops_accumulated, vec![coin(100, "anc"), coin(200, "mir")]));
    assert!(check_equal_vec(sid1.global_airdrop_pointer, vec![dcoin(1, 10, "anc"), dcoin(2, 10, "mir")]));
    assert!(check_equal_vec(
        store.query_state().state.unwrap().total_accumulated_airdrops,
        vec![coin(100, "anc"), coin(200, "mir")]
    ));
}

#[test]
fn test_claim_airdrops_strategy_without_shares() {
    // there is no share to credit the airdrop to
    let mut store = instantiate_contract();
    register(&mut store, "anc", "anc-airdrop-contract", "anc-cw20-contract");
    store.strategies.insert(1, StrategyInfo::new(s("sid1"), s("sic-contract"), 10, 10));
    let err = store.try_claim_airdrops(&s("creator"), 1, 100, s("anc"), vec![]).unwrap_err();
    assert!(matches!(err, ContractError::Overflow {}));
}

#[test]
fn test_withdraw_airdrops_fail() {
    let mut store = instantiate_contract();

    // Test - 1. User reward info does not exist
    let err = store.try_withdraw_airdrops(&s("not-creator")).unwrap_err();
    assert!(matches!(err, ContractError::UserRewardInfoDoesNotExist {}));

    // the contract's totals do not cover what the user is owed
    register(&mut store, "anc", "anc_airdrop_contract", "anc_token_contract");
    let mut st = StrategyInfo::new(s("sid1"), s("sic1_address"), 3600, 0);
    st.total_shares = dec(5000, 1);
    st.global_airdrop_pointer = vec![dcoin(500, 5000, "anc")];
    st.total_airdrops_accumulated = vec![coin(500, "anc")];
    store.strategies.insert(1, st);
    store.users.insert(s("user1"), user_in_strategy_1(dec(5000, 1)));
    store.state.total_accumulated_airdrops = vec![coin(499, "anc")];
    let err = store.try_withdraw_airdrops(&s("user1")).unwrap_err();
    assert!(matches!(err, ContractError::Overflow {}));
}

#[test]
fn test_withdraw_airdrops_success() {
    let mut store = instantiate_contract();
    let user1 = s("user1");
    register(&mut store, "anc", "anc_airdrop_contract", "anc_token_contract");
    register(&mut store, "mir", "mir_airdrop_contract", "mir_token_contract");

    // Test - 1. User has some pending airdrops
    let mut st = StrategyInfo::new(s("sid1"), s("sic1_address"), 21 * 24 * 3600, 3600);
    st.is_active = true;
    st.total_shares = dec(5000, 1);
    st.global_airdrop_pointer = vec![dcoin(500, 5000, "anc"), dcoin(200, 5000, "mir")];
    st.total_airdrops_accumulated = vec![coin(500, "anc"), coin(200, "mir")];
    store.strategies.insert(1, st);
    store.users.insert(user1.clone(), user_in_strategy_1(dec(5000, 1)));
    store.state.total_accumulated_airdrops = vec![coin(500, "anc"), coin(200, "mir")];
    let res = store.try_withdraw_airdrops(&user1).unwrap();
    assert_eq!(res.messages.len(), 2);
    assert!(check_equal_vec(
        res.messages,
        vec![cw20_transfer("anc_token_contract", "user1", 500), cw20_transfer("mir_token_contract", "user1", 200)]
    ));
    let info = store.users.get(&user1).unwrap();
    assert!(check_equal_vec(info.pending_airdrops.clone(), vec![coin(0, "anc"), coin(0, "mir")]));
    assert!(check_equal_vec(
        store.query_state().state.unwrap().total_accumulated_airdrops,
        vec![coin(0, "anc"), coin(0, "mir")]
    ));

    // Test - 2. Not all airdrops are transferred
    let mut st = StrategyInfo::new(s("sid1"), s("sic1_address"), 3600, 0);
    st.is_active = true;
    st.total_shares = dec(5000, 1);
    st.global_airdrop_pointer = vec![dcoin(500, 5000, "anc"), dcoin(200, 5000, "mir"), dcoin(400, 5000, "pyl")];
    st.total_airdrops_accumulated = vec![coin(500, "anc"), coin(200, "mir"), coin(400, "pyl")];
    store.strategies.insert(1, st);
    store.users.insert(user1.clone(), user_in_strategy_1(dec(5000, 1)));
    store.state.total_accumulated_airdrops = vec![coin(500, "anc"), coin(200, "mir"), coin(400, "pyl")];
    let res = store.try_withdraw_airdrops(&user1).unwrap();
    assert_eq!(res.messages.len(), 2);
    assert!(check_equal_vec(
        res.messages,
        vec![cw20_transfer("anc_token_contract", "user1", 500), cw20_transfer("mir_token_contract", "user1", 200)]
    ));
    let info = store.users.get(&user1).unwrap();
    assert!(check_equal_vec(info.pending_airdrops.clone(), vec![coin(0, "anc"), coin(0, "mir"), coin(400, "pyl")]));
    // the position's pointer caught up with the strategy's
    assert!(check_equal_vec(
        info.strategies[0].airdrop_pointer.clone(),
        vec![dcoin(500, 5000, "anc"), dcoin(200, 5000, "mir"), dcoin(400, 5000, "pyl")]
    ));
    assert!(check_equal_vec(
        store.query_state().state.unwrap().total_accumulated_airdrops,
        vec![coin(0, "anc"), coin(0, "mir"), coin(400, "pyl")]
    ));
}
