use scc::coins::{Coin, DecCoin};
use scc::compare::check_equal_vec;
use scc::env::{Env, SicAnswers};
use scc::error::ContractError;
use scc::math::{Decimal, Timestamp};
use scc::msg::{ContractMsg, InstantiateMsg};
use scc::queries::instantiate;
use scc::state::{BatchUndelegationRecord, StrategyInfo, UndelegationBatchStatus, UserRewardInfo, UserStrategyInfo,
    UserUndelegationRecord};
use scc::store::Store;

fn s(x: &str) -> String {
    x.to_string()
}

fn dec(n: u128, d: u128) -> Decimal {
    Decimal::from_ratio(n, d)
}

fn dcoin(n: u128, d: u128, denom: &str) -> DecCoin {
    DecCoin::new(dec(n, d), s(denom))
}

fn mock_env() -> Env {
    Env { block_height: 12_345, block_time: Timestamp::from_nanos(1_571_797_419_879_305_533) }
}

fn instantiate_contract() -> Store {
    let msg = InstantiateMsg {
        strategy_denom: s("uluna"),
        delegator_contract: s("delegator_contract"),
        default_user_portfolio: None,
        default_fallback_strategy: None,
    };
    instantiate(&mock_env(), &s("creator"), msg).0
}

fn tokens(entries: &[(u64, u128)]) -> SicAnswers {
    let mut a = SicAnswers::new();
    for (id, t) in entries {
        a.total_tokens.insert(*id, Some(*t));
    }
    a
}

fn record(id: u64, amount: u128, shares: Decimal, strategy_id: u64, undelegation_batch_id: u64) -> UserUndelegationRecord {
    UserUndelegationRecord { id, amount, shares, strategy_id, undelegation_batch_id }
}

fn user(strategies: Vec<UserStrategyInfo>, records: Vec<UserUndelegationRecord>, pending_rewards: u128) -> UserRewardInfo {
    UserRewardInfo {
        user_portfolio: vec![],
        strategies,
        pending_airdrops: vec![],
        undelegation_records: records,
        pending_rewards,
    }
}

fn position(strategy_id: u64, shares: Decimal, airdrop_pointer: Vec<DecCoin>) -> UserStrategyInfo {
    UserStrategyInfo { strategy_id, shares, airdrop_pointer }
}

fn batch(withdrawal_time: Option<Timestamp>, released: bool) -> BatchUndelegationRecord {
    BatchUndelegationRecord {
        amount: 400,
        shares: dec(4000, 1),
        unbonding_slashing_ratio: dec(3, 4),
        undelegation_s_t_ratio: dec(10, 1),
        create_time: Some(Timestamp::from_seconds(150)),
        est_release_time: Some(Timestamp::from_seconds(150 + 7200)),
        withdrawal_time,
        undelegation_batch_status: if released { UndelegationBatchStatus::Done } else { UndelegationBatchStatus::InProgress },
        released,
    }
}

fn bank_send(to: &str, amount: u128) -> ContractMsg {
    ContractMsg::BankSend { to_address: s(to), amount: vec![Coin::new(amount, s("uluna"))] }
}

#[test]
fn test_withdraw_rewards_fail() {
    let env = mock_env();
    let mut store = instantiate_contract();
    let user1 = s("user1");

    // Test - 1. User reward info does not exist
    store.strategies.insert(1, StrategyInfo::default(s("sid1")));
    let err = store.try_withdraw_rewards(&env, &user1, 0, 1).unwrap_err();
    assert!(matches!(err, ContractError::UserRewardInfoDoesNotExist {}));

    // Test - 2. User undelegation record does not exist
    store.users.insert(user1.clone(), UserRewardInfo::default());
    let err = store.try_withdraw_rewards(&env, &user1, 0, 1).unwrap_err();
    assert!(matches!(err, ContractError::UndelegationRecordNotFound {}));

    // the batch of the record is not there
    store.users.insert(user1.clone(), in_batch_3());
    let err = store.try_withdraw_rewards(&env, &user1, 0, 1).unwrap_err();
    assert!(matches!(err, ContractError::UndelegationBatchNotFound {}));

    // Test - 3. Undelegation is still in unbonding period. withdrawal is none
    store.users.insert(user1.clone(), in_batch_3());
    store.undelegation_batches.insert((1, 3), batch(None, false));
    let err = store.try_withdraw_rewards(&env, &user1, 0, 1).unwrap_err();
    assert!(matches!(err, ContractError::UndelegationInUnbondingPeriod {}));

    // Test - 4. Undelegation is still in unbonding period. withdrawal is gt block time
    store.users.insert(user1.clone(), in_batch_3());
    store.undelegation_batches.insert((1, 3), batch(Some(env.block_time.plus_seconds(15000)), false));
    let err = store.try_withdraw_rewards(&env, &user1, 0, 1).unwrap_err();
    assert!(matches!(err, ContractError::UndelegationInUnbondingPeriod {}));

    // Test - 5. Undelegation slashing not checked
    let withdrawal = Timestamp::from_nanos(env.block_time.nanos - 1000 * 1_000_000_000);
    store.users.insert(user1.clone(), in_batch_3());
    store.undelegation_batches.insert((1, 3), batch(Some(withdrawal), false));
    let err = store.try_withdraw_rewards(&env, &user1, 0, 1).unwrap_err();
    assert!(matches!(err, ContractError::UndelegationBatchNotReleased {}));

}

fn in_batch_3() -> UserRewardInfo {
    user(vec![position(1, dec(1000, 1), vec![])], vec![record(0, 100, Decimal::zero(), 1, 3)], 0)
}

#[test]
fn test_withdraw_rewards_success() {
    let env = mock_env();
    let mut store = instantiate_contract();
    let user1 = s("user1");
    let withdrawal = Timestamp::from_nanos(env.block_time.nanos - 1000 * 1_000_000_000);

    // Test - 1. User has only 1 undelegation record
    store.strategies.insert(1, StrategyInfo::new(s("sid1"), s("sic1_address"), 10, 10));
    store.users.insert(
        user1.clone(),
        user(vec![position(1, dec(5000, 1), vec![])], vec![record(0, 100, dec(1000, 1), 1, 5)], 0),
    );
    store.undelegation_batches.insert((1, 5), batch(Some(withdrawal), true));
    let res = store.try_withdraw_rewards(&env, &user1, 0, 1).unwrap();
    assert_eq!(res.messages.len(), 1);
    assert_eq!(res.messages, vec![bank_send("user1", 75)]);
    assert_eq!(store.users.get(&user1).unwrap().undelegation_records.len(), 0);

    // Test - 2. User has multiple undelegation records.
    store.users.insert(
        user1.clone(),
        user(
            vec![position(1, dec(5000, 1), vec![]), position(2, dec(5000, 1), vec![])],
            vec![record(0, 100, dec(1000, 1), 1, 5), record(1, 100, dec(1000, 1), 2, 6)],
            0,
        ),
    );
    store.undelegation_batches.insert((1, 5), batch(Some(withdrawal), true));
    let res = store.try_withdraw_rewards(&env, &user1, 0, 1).unwrap();
    assert_eq!(res.messages, vec![bank_send("user1", 75)]);
    let records = store.users.get(&user1).unwrap().undelegation_records.clone();
    assert_eq!(records.len(), 1);
    assert!(check_equal_vec(records, vec![record(1, 100, dec(1000, 1), 2, 6)]));
}

#[test]
fn test_withdraw_rewards_at_withdrawal_time() {
    // the withdrawal time itself is out of the unbonding period
    let env = mock_env();
    let mut store = instantiate_contract();
    let user1 = s("user1");
    store.users.insert(user1.clone(), user(vec![], vec![record(7, 100, dec(1000, 1), 1, 0)], 0));
    let mut b = batch(Some(env.block_time), true);
    b.unbonding_slashing_ratio = Decimal::one();
    store.undelegation_batches.insert((1, 0), b);
    let res = store.try_withdraw_rewards(&env, &user1, 7, 1).unwrap();
    assert_eq!(res.messages, vec![bank_send("user1", 100)]);
}

#[test]
fn test_undelegate_user_rewards_fail() {
    let mut store = instantiate_contract();
    let user1 = s("user1");
    let sic1 = s("sic1_address");

    // Test - 1. Zero funds undelegations
    let err = store.try_undelegate_user_rewards(&user1, 0, 1, &tokens(&[])).unwrap_err();
    assert!(matches!(err, ContractError::CannotUndelegateZeroFunds {}));

    // Test - 2. Strategy info does not exist
    let err = store.try_undelegate_user_rewards(&user1, 100, 1, &tokens(&[])).unwrap_err();
    assert!(matches!(err, ContractError::StrategyInfoDoesNotExist {}));

    // Test - 3. User reward info does not exist
    store.strategies.insert(1, StrategyInfo::default(s("sid1")));
    let err = store.try_undelegate_user_rewards(&user1, 100, 1, &tokens(&[])).unwrap_err();
    assert!(matches!(err, ContractError::UserRewardInfoDoesNotExist {}));

    // Test - 4. User did not deposit to strategy
    assert!(store.strategies.contains_key(&1));
    store.users.insert(user1.clone(), UserRewardInfo::default());
    let err = store.try_undelegate_user_rewards(&user1, 100, 1, &tokens(&[])).unwrap_err();
    assert!(matches!(err, ContractError::UserNotInStrategy {}));
    // a refused request leaves the records as they were
    assert!(store.strategies.contains_key(&1));
    assert!(store.users.get(&user1).is_some());

    // Test - 5. User did not have enough shares to undelegate
    let mut st = StrategyInfo::new(s("sid1"), sic1.clone(), 3600, 3600);
    st.is_active = true;
    st.total_shares = dec(5000, 1);
    store.strategies.insert(1, st);
    store.users.insert(user1.clone(), user(vec![position(1, dec(3000, 1), vec![])], vec![], 0));
    let err = store.try_undelegate_user_rewards(&user1, 400, 1, &tokens(&[(1, 0)])).unwrap_err();
    assert!(matches!(err, ContractError::UserDoesNotHaveEnoughRewards {}));
    assert_eq!(store.users.get(&user1).unwrap().strategies[0].shares, dec(3000, 1));
    assert_eq!(store.strategies.get(&1).unwrap().current_undelegated_shares, Decimal::zero());

    // the SIC did not answer
    let mut st = StrategyInfo::new(s("sid1"), sic1.clone(), 3600, 3600);
    st.is_active = true;
    st.total_shares = dec(5000, 1);
    store.strategies.insert(1, st);
    store.users.insert(user1.clone(), user(vec![position(1, dec(3000, 1), vec![])], vec![], 0));
    let err = store.try_undelegate_user_rewards(&user1, 100, 1, &tokens(&[])).unwrap_err();
    assert!(matches!(err, ContractError::SICFailedToReturnResult {}));

    // Test - 6. User withdrew from strategy_id 0 with user reward info not present
    let user2 = s("user2");
    let err = store.try_undelegate_user_rewards(&user2, 400, 0, &tokens(&[])).unwrap_err();
    assert!(matches!(err, ContractError::UserRewardInfoDoesNotExist {}));

    // Test - 7. User did not have enough pending_rewards
    store.users.insert(user1.clone(), user(vec![position(1, dec(3000, 1), vec![])], vec![], 100));
    let err = store.try_undelegate_user_rewards(&user1, 400, 0, &tokens(&[])).unwrap_err();
    assert!(matches!(err, ContractError::UserDoesNotHaveEnoughRewards {}));

    // Test - 8. User has 0 pending_rewards
    store.users.insert(user1.clone(), user(vec![position(1, dec(3000, 1), vec![])], vec![], 0));
    let err = store.try_undelegate_user_rewards(&user1, 400, 0, &tokens(&[])).unwrap_err();
    assert!(matches!(err, ContractError::UserDoesNotHaveEnoughRewards {}));
}

#[test]
fn test_undelegate_user_rewards_success() {
    let mut store = instantiate_contract();
    let user1 = s("user1");
    let sic1 = s("sic1_address");
    let pointer = vec![dcoin(200, 5000, "anc"), dcoin(400, 5000, "mir")];

    // Test - 1. User undelegates for the first time from a strategy
    let mut st = StrategyInfo::new(s("sid1"), sic1.clone(), 3600, 3600);
    st.is_active = true;
    st.total_shares = dec(5000, 1);
    st.global_airdrop_pointer = pointer.clone();
    store.strategies.insert(1, st);
    store.users.insert(user1.clone(), user(vec![position(1, dec(3000, 1), vec![])], vec![], 0));
    store.state.next_strategy_id = 0;
    let res = store.try_undelegate_user_rewards(&user1, 200, 1, &tokens(&[(1, 0)])).unwrap();
    assert_eq!(res.messages.len(), 0);

    let sid1 = store.query_strategy_info(1).strategy_info.unwrap();
    assert_eq!(sid1.current_undelegated_shares, dec(2000, 1));
    let info = store.users.get(&user1).unwrap();
    assert!(check_equal_vec(info.strategies.clone(), vec![position(1, dec(1000, 1), pointer.clone())]));
    assert!(check_equal_vec(
        info.pending_airdrops.clone(),
        vec![Coin::new(120, s("anc")), Coin::new(240, s("mir"))]
    ));
    assert!(check_equal_vec(info.undelegation_records.clone(), vec![record(0, 200, dec(2000, 1), 1, 0)]));
    assert_eq!(store.query_state().state.unwrap().next_undelegation_id, 1);

    // Test - 2. User undelegates again
    store.state.next_strategy_id = 1;
    let mut st = StrategyInfo::new(s("sid1"), sic1.clone(), 3600, 3600);
    st.is_active = true;
    st.total_shares = dec(3000, 1);
    st.current_undelegated_shares = dec(2000, 1);
    st.global_airdrop_pointer = pointer.clone();
    store.strategies.insert(1, st);
    let mut info = user(vec![position(1, dec(1000, 1), pointer.clone())], vec![record(0, 200, dec(2000, 1), 1, 0)], 0);
    info.pending_airdrops = vec![Coin::new(120, s("anc")), Coin::new(240, s("mir"))];
    store.users.insert(user1.clone(), info);
    store.try_undelegate_user_rewards(&user1, 50, 1, &tokens(&[(1, 0)])).unwrap();

    let sid1 = store.query_strategy_info(1).strategy_info.unwrap();
    assert_eq!(sid1.current_undelegated_shares, dec(2500, 1));
    let info = store.users.get(&user1).unwrap();
    assert!(check_equal_vec(info.strategies.clone(), vec![position(1, dec(500, 1), pointer.clone())]));
    assert!(check_equal_vec(
        info.pending_airdrops.clone(),
        vec![Coin::new(120, s("anc")), Coin::new(240, s("mir"))]
    ));
    assert!(check_equal_vec(
        info.undelegation_records.clone(),
        vec![record(0, 200, dec(2000, 1), 1, 0), record(1, 50, dec(500, 1), 1, 0)]
    ));
    assert_eq!(store.query_state().state.unwrap().next_undelegation_id, 2);

    // Test - 3. User undelegates from strategy_id 0 with some pending rewards
    store.state.rewards_in_scc = 100;
    let mut info = user(vec![position(1, dec(1000, 1), pointer.clone())], vec![record(0, 200, dec(2000, 1), 1, 0)], 50);
    info.pending_airdrops = vec![Coin::new(120, s("anc")), Coin::new(240, s("mir"))];
    store.users.insert(user1.clone(), info);
    let res = store.try_undelegate_user_rewards(&user1, 50, 0, &tokens(&[])).unwrap();
    assert_eq!(res.messages, vec![bank_send("user1", 50)]);
    assert_eq!(store.users.get(&user1).unwrap().pending_rewards, 0);
    assert_eq!(store.query_state().state.unwrap().rewards_in_scc, 50);

    // Test - 5. User partially undelegates from strategy_id 0
    store.state.rewards_in_scc = 300;
    let mut info = user(vec![position(1, dec(1000, 1), pointer.clone())], vec![record(0, 200, dec(2000, 1), 1, 0)], 100);
    info.pending_airdrops = vec![Coin::new(120, s("anc")), Coin::new(240, s("mir"))];
    store.users.insert(user1.clone(), info);
    let res = store.try_undelegate_user_rewards(&user1, 50, 0, &tokens(&[])).unwrap();
    assert_eq!(res.messages, vec![bank_send("user1", 50)]);
    assert_eq!(store.users.get(&user1).unwrap().pending_rewards, 50);
    assert_eq!(store.query_state().state.unwrap().rewards_in_scc, 250);
}
