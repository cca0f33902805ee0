use scc::env::{Env, SicAnswers};
use scc::error::ContractError;
use scc::math::{Decimal, Timestamp};
use scc::msg::{AttributeValue, ContractMsg, InstantiateMsg, Response};
use scc::queries::instantiate;
use scc::state::{BatchUndelegationRecord, StrategyInfo, UndelegationBatchStatus};
use scc::store::Store;

fn s(x: &str) -> String {
    x.to_string()
}

fn dec(n: u128, d: u128) -> Decimal {
    Decimal::from_ratio(n, d)
}

fn mock_env() -> Env {
    Env { block_height: 12_345, block_time: Timestamp::from_nanos(1_571_797_419_879_305_533) }
}

fn instantiate_contract() -> Store {
    let msg = InstantiateMsg {
        strategy_denom: s("uluna"),
        delegator_contract: s("delegator_contract"),
        default_user_portfolio: None,
        default_fallback_strategy: None,
    };
    instantiate(&mock_env(), &s("creator"), msg).0
}

fn tokens(entries: &[(u64, u128)]) -> SicAnswers {
    let mut a = SicAnswers::new();
    for (id, t) in entries {
        a.total_tokens.insert(*id, Some(*t));
    }
    a
}

fn fulfillable(entries: &[((u64, u64), u128)]) -> SicAnswers {
    let mut a = SicAnswers::new();
    for (k, f) in entries {
        a.fulfillable.insert(*k, *f);
    }
    a
}

#[allow(clippy::too_many_arguments)]
fn strategy(
    sic: &str,
    next_undelegation_batch_id: u64,
    next_reconciliation_batch_id: u64,
    total_shares: Decimal,
    current_undelegated_shares: Decimal,
) -> StrategyInfo {
    let mut st = StrategyInfo::new(s("sid1"), s(sic), 3600, 3600);
    st.next_undelegation_batch_id = next_undelegation_batch_id;
    st.next_reconciliation_batch_id = next_reconciliation_batch_id;
    st.is_active = true;
    st.total_shares = total_shares;
    st.current_undelegated_shares = current_undelegated_shares;
    st
}

fn batch(amount: u128, shares: Decimal, s_t: Decimal, create: u64, est_release: u64, released: bool) -> BatchUndelegationRecord {
    BatchUndelegationRecord {
        amount,
        shares,
        unbonding_slashing_ratio: Decimal::one(),
        undelegation_s_t_ratio: s_t,
        create_time: Some(Timestamp::from_seconds(create)),
        est_release_time: Some(Timestamp::from_seconds(est_release)),
        withdrawal_time: None,
        undelegation_batch_status: if released { UndelegationBatchStatus::Done } else { UndelegationBatchStatus::InProgress },
        released,
    }
}

fn batches_attr(resp: &Response, k: usize) -> (String, Vec<(u64, u64)>) {
    match &resp.attributes[k].value {
        AttributeValue::Batches(v) => (resp.attributes[k].key.clone(), v.clone()),
        _ => panic!("not a batch list"),
    }
}

fn ids_attr(resp: &Response, k: usize) -> (String, Vec<u64>) {
    match &resp.attributes[k].value {
        AttributeValue::StrategyIds(v) => (resp.attributes[k].key.clone(), v.clone()),
        _ => panic!("not an id list"),
    }
}

fn transfer_undelegated(sic: &str, amount: u128) -> ContractMsg {
    ContractMsg::SicTransferUndelegatedRewards { sic_contract_address: s(sic), amount }
}

#[test]
fn test_fetch_undelegated_rewards_from_strategies_fail() {
    let env = mock_env();
    let mut store = instantiate_contract();
    let none = SicAnswers::new();

    // Unauthorized
    let err = store.try_fetch_undelegated_rewards_from_strategies(&env, &s("not-creator"), vec![1], &none).unwrap_err();
    assert!(matches!(err, ContractError::Unauthorized {}));

    // Test - 3. Failed strategies
    let res = store.try_fetch_undelegated_rewards_from_strategies(&env, &s("creator"), vec![1], &none).unwrap();
    assert_eq!(ids_attr(&res, 0), (s("failed_strategies"), vec![1]));
    assert_eq!(res.messages.len(), 0);

    // Test - 4. Undelegation batches not found
    store.strategies.insert(1, strategy("abc", 2, 1, dec(5000, 1), Decimal::zero()));
    let res = store.try_fetch_undelegated_rewards_from_strategies(&env, &s("creator"), vec![1], &none).unwrap();
    assert_eq!(res.attributes.len(), 4);
    assert_eq!(ids_attr(&res, 0), (s("failed_strategies"), vec![]));
    assert_eq!(batches_attr(&res, 1), (s("failed_undelegation_batches"), vec![(1, 1)]));
    assert_eq!(batches_attr(&res, 2), (s("undelegation_batches_in_unbonding_period"), vec![]));
    assert_eq!(batches_attr(&res, 3), (s("undelegation_batches_slashing_checked"), vec![]));
    let sid1 = store.query_strategy_info(1).strategy_info.unwrap();
    assert_eq!(sid1.next_reconciliation_batch_id, 2);
    assert_eq!(sid1.next_undelegation_batch_id, 2);

    // Test - 5. Undelegation batches in unbonding period
    store.strategies.insert(1, strategy("abc", 2, 1, dec(5000, 1), Decimal::zero()));
    let mut in_unbonding = batch(100, dec(1000, 1), dec(10, 1), 1631094920, 1631094990, false);
    in_unbonding.est_release_time = Some(env.block_time.plus_seconds(70));
    store.undelegation_batches.insert((1, 1), in_unbonding);
    let res = store.try_fetch_undelegated_rewards_from_strategies(&env, &s("creator"), vec![1], &none).unwrap();
    assert_eq!(batches_attr(&res, 2), (s("undelegation_batches_in_unbonding_period"), vec![(1, 1)]));
    assert_eq!(res.messages.len(), 0);
    assert_eq!(store.query_strategy_info(1).strategy_info.unwrap().next_reconciliation_batch_id, 1);

    // Test - 6. Undelegation batches have already been accounted for slashing
    store.strategies.insert(1, strategy("abc", 2, 1, dec(5000, 1), Decimal::zero()));
    store.undelegation_batches.insert((1, 1), batch(100, dec(1000, 1), dec(10, 1), 123, 125, true));
    let res = store.try_fetch_undelegated_rewards_from_strategies(&env, &s("creator"), vec![1], &none).unwrap();
    assert_eq!(batches_attr(&res, 1), (s("failed_undelegation_batches"), vec![]));
    assert_eq!(batches_attr(&res, 3), (s("undelegation_batches_slashing_checked"), vec![(1, 1)]));
    assert_eq!(res.messages.len(), 0);
    let sid1 = store.query_strategy_info(1).strategy_info.unwrap();
    assert_eq!(sid1.next_reconciliation_batch_id, 2);
    assert_eq!(sid1.next_undelegation_batch_id, 2);

    // the SIC did not answer for a batch that is due
    store.strategies.insert(1, strategy("abc", 2, 1, dec(5000, 1), Decimal::zero()));
    store.undelegation_batches.insert((1, 1), batch(100, dec(1000, 1), dec(10, 1), 123, 125, false));
    let err = store.try_fetch_undelegated_rewards_from_strategies(&env, &s("creator"), vec![1], &none).unwrap_err();
    assert!(matches!(err, ContractError::SICFailedToReturnResult {}));
}

#[test]
fn test_fetch_undelegated_rewards_from_strategies_success() {
    let env = mock_env();
    let mut store = instantiate_contract();
    let sic1 = "sic1_address";

    // Test - 1. Strategies have no undelegation slashing
    store.strategies.insert(1, strategy(sic1, 2, 1, dec(5000, 1), Decimal::zero()));
    store.undelegation_batches.insert((1, 1), batch(100, Decimal::zero(), Decimal::zero(), 123, 125, false));
    let res = store
        .try_fetch_undelegated_rewards_from_strategies(&env, &s("creator"), vec![1], &fulfillable(&[((1, 1), 100)]))
        .unwrap();
    assert_eq!(res.messages, vec![transfer_undelegated(sic1, 100)]);
    let sid1 = store.query_strategy_info(1).strategy_info.unwrap();
    assert_eq!(sid1.next_undelegation_batch_id, 2);
    assert_eq!(sid1.next_reconciliation_batch_id, 2);
    let b = store.undelegation_batches.get(&(1, 1)).unwrap();
    assert!(matches!(b.undelegation_batch_status, UndelegationBatchStatus::Done));
    assert!(b.released);
    assert_eq!(b.unbonding_slashing_ratio, Decimal::one());

    // Test - 2. Strategies have undelegation slashing
    store.strategies.insert(1, strategy(sic1, 2, 1, dec(5000, 1), Decimal::zero()));
    store.undelegation_batches.insert((1, 1), batch(100, Decimal::zero(), Decimal::zero(), 123, 125, false));
    let res = store
        .try_fetch_undelegated_rewards_from_strategies(&env, &s("creator"), vec![1], &fulfillable(&[((1, 1), 75)]))
        .unwrap();
    assert_eq!(res.messages, vec![transfer_undelegated(sic1, 100)]);
    let sid1 = store.query_strategy_info(1).strategy_info.unwrap();
    assert_eq!(sid1.next_undelegation_batch_id, 2);
    assert_eq!(sid1.next_reconciliation_batch_id, 2);
    let b = store.undelegation_batches.get(&(1, 1)).unwrap();
    assert!(matches!(b.undelegation_batch_status, UndelegationBatchStatus::Done));
    assert_eq!(b.unbonding_slashing_ratio, dec(3, 4));

    // Test - 3. Strategies have surplus of the requested amount
    store.strategies.insert(1, strategy(sic1, 2, 1, dec(5000, 1), Decimal::zero()));
    store.undelegation_batches.insert((1, 1), batch(100, Decimal::zero(), Decimal::zero(), 123, 125, false));
    let res = store
        .try_fetch_undelegated_rewards_from_strategies(&env, &s("creator"), vec![1], &fulfillable(&[((1, 1), 120)]))
        .unwrap();
    assert_eq!(res.messages, vec![transfer_undelegated(sic1, 100)]);
    let sid1 = store.query_strategy_info(1).strategy_info.unwrap();
    assert_eq!(sid1.next_reconciliation_batch_id, 2);
    let b = store.undelegation_batches.get(&(1, 1)).unwrap();
    assert!(matches!(b.undelegation_batch_status, UndelegationBatchStatus::Done));
    assert_eq!(b.unbonding_slashing_ratio, Decimal::one());

    // Test - 5. Several batches: the released batch is passed, the others are taken back
    store.strategies.insert(1, strategy(sic1, 4, 1, dec(5000, 1), Decimal::zero()));
    store.undelegation_batches.insert((1, 1), batch(100, dec(1000, 1), dec(10, 1), 120, 125, false));
    store.undelegation_batches.insert((1, 2), batch(100, dec(1000, 1), dec(10, 1), 150, 155, false));
    store.undelegation_batches.insert((1, 3), batch(400, dec(1000, 1), dec(10, 1), 123, 126, true));
    let res = store
        .try_fetch_undelegated_rewards_from_strategies(
            &env,
            &s("creator"),
            vec![1],
            &fulfillable(&[((1, 1), 120), ((1, 2), 120)]),
        )
        .unwrap();
    assert_eq!(res.messages, vec![transfer_undelegated(sic1, 100), transfer_undelegated(sic1, 100)]);
    assert_eq!(batches_attr(&res, 3), (s("undelegation_batches_slashing_checked"), vec![(1, 3)]));
    let sid1 = store.query_strategy_info(1).strategy_info.unwrap();
    assert_eq!(sid1.next_reconciliation_batch_id, 4);
    assert_eq!(sid1.next_undelegation_batch_id, 4);
    for id in [1u64, 2] {
        let b = store.undelegation_batches.get(&(1, id)).unwrap();
        assert!(matches!(b.undelegation_batch_status, UndelegationBatchStatus::Done));
        assert_eq!(b.unbonding_slashing_ratio, Decimal::one());
    }

    // the walk stops at the first batch still in its unbonding period
    store.strategies.insert(1, strategy(sic1, 3, 1, dec(5000, 1), Decimal::zero()));
    store.undelegation_batches.insert((1, 1), batch(100, dec(1000, 1), dec(10, 1), 120, 125, false));
    let mut pending = batch(100, dec(1000, 1), dec(10, 1), 150, 155, false);
    pending.est_release_time = Some(env.block_time.plus_seconds(100));
    store.undelegation_batches.insert((1, 2), pending);
    let res = store
        .try_fetch_undelegated_rewards_from_strategies(&env, &s("creator"), vec![1], &fulfillable(&[((1, 1), 100)]))
        .unwrap();
    assert_eq!(res.messages, vec![transfer_undelegated(sic1, 100)]);
    assert_eq!(batches_attr(&res, 2), (s("undelegation_batches_in_unbonding_period"), vec![(1, 2)]));
    assert_eq!(store.query_strategy_info(1).strategy_info.unwrap().next_reconciliation_batch_id, 2);
}

#[test]
fn test_fetch_no_strategies() {
    let env = mock_env();
    let mut store = instantiate_contract();
    let res = store
        .try_fetch_undelegated_rewards_from_strategies(&env, &s("creator"), vec![], &SicAnswers::new())
        .unwrap();
    assert_eq!(res.attributes.len(), 1);
    assert_eq!(res.attributes[0].key, s("no_strategies"));
}

#[test]
fn test_undelegate_from_strategies_fail() {
    let env = mock_env();
    let mut store = instantiate_contract();

    // Unauthorized
    let err = store.try_undelegate_from_strategies(&env, &s("not-creator"), vec![1], &tokens(&[])).unwrap_err();
    assert!(matches!(err, ContractError::Unauthorized {}));

    // Test - 2. Strategy does not exist
    let res = store.try_undelegate_from_strategies(&env, &s("creator"), vec![1], &tokens(&[])).unwrap();
    assert_eq!(ids_attr(&res, 0), (s("failed_strategies"), vec![1]));
    assert_eq!(res.messages.len(), 0);

    // Test - 3. Strategy has no pending undelegations
    let mut st = strategy("test_addr", 0, 0, Decimal::zero(), Decimal::zero());
    st.unbonding_period = 0;
    st.unbonding_buffer = 0;
    store.strategies.insert(1, st);
    let res = store.try_undelegate_from_strategies(&env, &s("creator"), vec![1], &tokens(&[])).unwrap();
    assert_eq!(ids_attr(&res, 1), (s("strategies_with_no_undelegations"), vec![1]));
    assert_eq!(res.messages.len(), 0);

    // the SIC does not answer
    store.strategies.insert(1, strategy("test_addr", 0, 0, dec(10000, 1), dec(5000, 1)));
    let res = store.try_undelegate_from_strategies(&env, &s("creator"), vec![1], &tokens(&[])).unwrap();
    assert_eq!(ids_attr(&res, 2), (s("failed_sics"), vec![1]));
    assert_eq!(res.messages.len(), 0);
    assert_eq!(store.query_strategy_info(1).strategy_info.unwrap().current_undelegated_shares, dec(5000, 1));
}

#[test]
fn test_undelegate_from_strategies_success() {
    let env = mock_env();
    let mut store = instantiate_contract();
    let sic1 = "sic1_address";

    // Test - 2. Successful run
    store.strategies.insert(1, strategy(sic1, 4, 1, dec(5000, 1), dec(1000, 1)));
    let res = store.try_undelegate_from_strategies(&env, &s("creator"), vec![1], &tokens(&[(1, 0)])).unwrap();
    assert_eq!(res.messages.len(), 1);
    assert_eq!(res.messages, vec![ContractMsg::SicUndelegateRewards { sic_contract_address: s(sic1), amount: 100 }]);

    let sid1 = store.query_strategy_info(1).strategy_info.unwrap();
    assert_eq!(sid1.next_undelegation_batch_id, 5);
    assert_eq!(sid1.current_undelegated_shares, Decimal::zero());
    assert_eq!(sid1.total_shares, dec(4000, 1));

    let b = store.undelegation_batches.get(&(1, 4));
    assert_ne!(b, None);
    assert_eq!(
        *b.unwrap(),
        BatchUndelegationRecord {
            amount: 100,
            shares: dec(1000, 1),
            unbonding_slashing_ratio: Decimal::one(),
            undelegation_s_t_ratio: dec(10, 1),
            create_time: Some(env.block_time),
            est_release_time: Some(env.block_time.plus_seconds(sid1.unbonding_period)),
            withdrawal_time: Some(env.block_time.plus_seconds(sid1.unbonding_period + sid1.unbonding_buffer)),
            undelegation_batch_status: UndelegationBatchStatus::InProgress,
            released: false,
        }
    );
}

#[test]
fn test_undelegate_from_strategies_at_reported_ratio() {
    let env = mock_env();
    let mut store = instantiate_contract();
    // 4000 shares backed by 200 tokens: 20 shares per token, so 1000 shares are worth 50 tokens
    store.strategies.insert(1, strategy("sic1", 0, 0, dec(4000, 1), dec(1000, 1)));
    let res = store.try_undelegate_from_strategies(&env, &s("creator"), vec![1], &tokens(&[(1, 200)])).unwrap();
    assert_eq!(res.messages, vec![ContractMsg::SicUndelegateRewards { sic_contract_address: s("sic1"), amount: 50 }]);
    let b = store.undelegation_batches.get(&(1, 0)).unwrap();
    assert_eq!(b.undelegation_s_t_ratio, dec(20, 1));
    assert_eq!(b.amount, 50);
}
