use delt_d::error::StakeError;
use delt_d::pool::{Payout, Pool};
use delt_d::resolution::{PendingTransfer, Resolution};
use delt_d::staking::StakeManagement;
use delt_d::token::{StakeId, TokenType};

fn id(name: &str) -> String {
    name.to_string()
}

fn ft(contract: &str, balance: u128) -> StakeId {
    StakeId { contract_id: contract.to_string(), token: TokenType::FT { balance } }
}

fn nft(contract: &str, token_id: &str) -> StakeId {
    StakeId {
        contract_id: contract.to_string(),
        token: TokenType::NFT { token_id: token_id.to_string() },
    }
}

fn engine() -> StakeManagement {
    let mut staking = StakeManagement::new(id("escrow"));
    assert_eq!(staking.internal_register(&id("alice")), Ok(()));
    assert_eq!(staking.internal_register(&id("bob")), Ok(()));
    assert_eq!(staking.internal_register(&id("carol")), Ok(()));
    staking
}

fn engine_with_pool() -> StakeManagement {
    let mut staking = engine();
    assert!(staking.create_pool(id("derby"), id("admin"), vec![id("A"), id("B")], 0).is_ok());
    staking
}

#[test]
fn new_engine_has_a_ledger_for_the_contract() {
    let staking = StakeManagement::new(id("escrow"));
    assert!(staking.is_registered(&id("escrow")));
    assert!(!staking.is_registered(&id("alice")));
    assert_eq!(staking.get_stakes(&id("escrow")), Ok(vec![]));
    assert_eq!(staking.internal_get_pools(&None), vec![]);
}

#[test]
fn internal_register_registers_an_account_once() {
    let mut staking = StakeManagement::new(id("escrow"));
    assert_eq!(staking.internal_register(&id("alice")), Ok(()));
    assert_eq!(staking.internal_register(&id("alice")), Err(StakeError::AccountAlreadyRegistered));
    assert_eq!(staking.internal_register(&id("escrow")), Err(StakeError::AccountAlreadyRegistered));
    assert_eq!(staking.get_stakes(&id("alice")), Ok(vec![]));
}

#[test]
fn get_stakes_tells_an_absent_ledger_from_an_empty_one() {
    let staking = engine();
    assert_eq!(staking.get_stakes(&id("alice")), Ok(vec![]));
    assert_eq!(staking.get_stakes(&id("dave")), Err(StakeError::NoStakesForAccount));
}

#[test]
fn register_stake_needs_a_ledger() {
    let mut staking = engine();
    assert_eq!(
        staking.register_stake(ft("coinX", 5), &id("dave")),
        Err(StakeError::AccountNotRegistered)
    );
    assert_eq!(staking.register_stake(ft("coinX", 5), &id("alice")), Ok(()));
    assert_eq!(staking.register_stake(ft("coinX", 6), &id("alice")), Ok(()));
    assert_eq!(staking.get_stakes(&id("alice")), Ok(vec![(ft("coinX", 11), None)]));
    assert_eq!(staking.get_stakes(&id("bob")), Ok(vec![]));
}

#[test]
fn unregister_stake_hands_the_stake_on() {
    let mut staking = engine();
    assert_eq!(staking.register_stake(ft("coinX", 500), &id("alice")), Ok(()));
    assert_eq!(staking.register_stake(ft("coinX", 10), &id("bob")), Ok(()));
    assert_eq!(staking.unregister_stake(&ft("coinX", 200), &id("alice"), Some(id("bob"))), Ok(()));
    assert_eq!(staking.get_stakes(&id("alice")), Ok(vec![(ft("coinX", 300), None)]));
    assert_eq!(staking.get_stakes(&id("bob")), Ok(vec![(ft("coinX", 210), None)]));
    assert_eq!(staking.unregister_stake(&ft("coinX", 300), &id("alice"), None), Ok(()));
    assert_eq!(staking.get_stakes(&id("alice")), Ok(vec![]));
}

#[test]
fn unregister_stake_that_is_refused_changes_nothing() {
    let mut staking = engine();
    assert_eq!(staking.register_stake(ft("coinX", 500), &id("alice")), Ok(()));
    assert_eq!(staking.register_stake(ft("coinX", u128::MAX), &id("bob")), Ok(()));
    let before = staking.clone();
    assert_eq!(
        staking.unregister_stake(&ft("coinX", 500), &id("dave"), None),
        Err(StakeError::AccountNotRegistered)
    );
    assert_eq!(
        staking.unregister_stake(&ft("coinX", 501), &id("alice"), None),
        Err(StakeError::StakeNotRegistered)
    );
    assert_eq!(
        staking.unregister_stake(&ft("coinX", 500), &id("alice"), Some(id("alice"))),
        Err(StakeError::SameAccount)
    );
    assert_eq!(
        staking.unregister_stake(&ft("coinX", 500), &id("alice"), Some(id("dave"))),
        Err(StakeError::AccountNotRegistered)
    );
    assert_eq!(
        staking.unregister_stake(&ft("coinX", 500), &id("alice"), Some(id("bob"))),
        Err(StakeError::Overflow)
    );
    assert_eq!(staking, before);
}

#[test]
fn create_pool_needs_a_new_id_and_an_outcome() {
    let mut staking = engine();
    let created = staking.create_pool(id("derby"), id("admin"), vec![id("A"), id("B")], 3);
    assert_eq!(created, Ok(Pool::new(id("admin"), vec![id("A"), id("B")], 3)));
    assert_eq!(
        staking.create_pool(id("derby"), id("admin"), vec![id("C")], 3),
        Err(StakeError::PoolAlreadyExists)
    );
    assert_eq!(
        staking.create_pool(id("finals"), id("admin"), vec![], 3),
        Err(StakeError::NoOutcomes)
    );
    assert_eq!(
        staking.get_pool(&id("derby")),
        Some(&Pool::new(id("admin"), vec![id("A"), id("B")], 3))
    );
    assert_eq!(staking.get_pool(&id("finals")), None);
}

#[test]
fn internal_get_pools_filters_by_owner() {
    let mut staking = engine();
    assert!(staking.create_pool(id("derby"), id("admin"), vec![id("A")], 0).is_ok());
    assert!(staking.create_pool(id("finals"), id("alice"), vec![id("A")], 0).is_ok());
    assert_eq!(
        staking.internal_get_pools(&None),
        vec![
            (id("derby"), Pool::new(id("admin"), vec![id("A")], 0)),
            (id("finals"), Pool::new(id("alice"), vec![id("A")], 0)),
        ]
    );
    assert_eq!(
        staking.internal_get_pools(&Some(id("alice"))),
        vec![(id("finals"), Pool::new(id("alice"), vec![id("A")], 0))]
    );
    assert_eq!(staking.internal_get_pools(&Some(id("bob"))), vec![]);
}

#[test]
fn stake_binds_the_ledger_entry_and_fills_the_graph() {
    let mut staking = engine_with_pool();
    assert_eq!(staking.register_stake(ft("coinX", 500), &id("alice")), Ok(()));
    let done = staking.stake(
        &ft("coinX", 500),
        &id("alice"),
        &id("A"),
        &id("derby"),
        &vec![(id("B"), id("bob"))],
        &id("admin"),
    );
    assert_eq!(done, Ok(()));
    assert_eq!(staking.get_stakes(&id("alice")), Ok(vec![(ft("coinX", 500), Some(id("derby")))]));
    let pool = staking.get_pool(&id("derby")).unwrap();
    assert_eq!(pool.required_stakes.rewards(&id("B"), &id("bob")).len(), 1);
    assert!(pool.required_stakes.has_account(&id("A"), &id("alice")));
    assert!(staking.pool_in_use(&id("derby")));
}

#[test]
fn stake_that_is_refused_changes_nothing() {
    let mut staking = engine_with_pool();
    assert_eq!(staking.register_stake(ft("coinX", 500), &id("alice")), Ok(()));
    let before = staking.clone();
    let to_bob = vec![(id("B"), id("bob"))];
    assert_eq!(
        staking.stake(
            &ft("coinX", 500),
            &id("alice"),
            &id("A"),
            &id("nowhere"),
            &to_bob,
            &id("admin"),
        ),
        Err(StakeError::PoolNotFound)
    );
    assert_eq!(
        staking.stake(
            &ft("coinX", 500),
            &id("alice"),
            &id("Z"),
            &id("derby"),
            &to_bob,
            &id("admin"),
        ),
        Err(StakeError::UnknownOutcome)
    );
    assert_eq!(
        staking.stake(
            &ft("coinX", 500),
            &id("alice"),
            &id("A"),
            &id("derby"),
            &vec![(id("B"), id("alice"))],
            &id("admin"),
        ),
        Err(StakeError::SelfReceiverDisallowed)
    );
    assert_eq!(
        staking.stake(
            &ft("coinX", 400),
            &id("alice"),
            &id("A"),
            &id("derby"),
            &to_bob,
            &id("admin"),
        ),
        Err(StakeError::StakeNotRegistered)
    );
    assert_eq!(
        staking.stake(
            &ft("coinX", 500),
            &id("dave"),
            &id("A"),
            &id("derby"),
            &to_bob,
            &id("admin"),
        ),
        Err(StakeError::AccountNotRegistered)
    );
    assert_eq!(staking, before);
}

#[test]
fn stake_refuses_a_stake_bound_to_another_pool() {
    let mut staking = engine_with_pool();
    assert!(staking.create_pool(id("finals"), id("admin"), vec![id("A"), id("B")], 0).is_ok());
    assert_eq!(staking.register_stake(ft("coinX", 500), &id("alice")), Ok(()));
    let to_bob = vec![(id("B"), id("bob"))];
    assert_eq!(
        staking.stake(
            &ft("coinX", 500),
            &id("alice"),
            &id("A"),
            &id("derby"),
            &to_bob,
            &id("admin"),
        ),
        Ok(())
    );
    let before = staking.clone();
    assert_eq!(
        staking.stake(
            &ft("coinX", 500),
            &id("alice"),
            &id("A"),
            &id("finals"),
            &to_bob,
            &id("admin"),
        ),
        Err(StakeError::StakeAlreadyBoundElsewhere)
    );
    assert_eq!(
        staking.stake(
            &ft("coinX", 500),
            &id("alice"),
            &id("A"),
            &id("derby"),
            &to_bob,
            &id("admin"),
        ),
        Err(StakeError::StakeAlreadyStaked)
    );
    assert_eq!(staking, before);
}

#[test]
fn an_active_pool_takes_no_stakes() {
    let mut staking = engine_with_pool();
    assert_eq!(staking.register_stake(ft("coinX", 500), &id("alice")), Ok(()));
    assert_eq!(staking.toggle_pool_active(&id("derby"), true), Ok(()));
    let before = staking.clone();
    assert_eq!(
        staking.stake(
            &ft("coinX", 500),
            &id("alice"),
            &id("A"),
            &id("derby"),
            &vec![(id("B"), id("bob"))],
            &id("admin"),
        ),
        Err(StakeError::PoolActive)
    );
    assert_eq!(staking, before);
    assert_eq!(staking.toggle_pool_active(&id("derby"), false), Ok(()));
    assert_eq!(
        staking.stake(
            &ft("coinX", 500),
            &id("alice"),
            &id("A"),
            &id("derby"),
            &vec![(id("B"), id("bob"))],
            &id("admin"),
        ),
        Ok(())
    );
}

#[test]
fn assert_pool_result_needs_an_active_pool_and_a_known_outcome() {
    let mut staking = engine_with_pool();
    assert_eq!(staking.assert_pool_result(&id("nowhere"), None), Err(StakeError::PoolNotFound));
    assert_eq!(
        staking.assert_pool_result(&id("derby"), Some(id("A"))),
        Err(StakeError::PoolInactive)
    );
    assert_eq!(staking.toggle_pool_active(&id("derby"), true), Ok(()));
    assert_eq!(
        staking.assert_pool_result(&id("derby"), Some(id("Z"))),
        Err(StakeError::UnknownOutcome)
    );
    assert_eq!(staking.assert_pool_result(&id("derby"), Some(id("A"))), Ok(()));
    assert_eq!(staking.get_pool(&id("derby")).unwrap().result, Some(id("A")));
    assert_eq!(staking.assert_pool_result(&id("derby"), None), Ok(()));
    assert_eq!(staking.get_pool(&id("derby")).unwrap().result, None);
}

#[test]
fn distribute_stakes_needs_an_active_pool_with_a_result() {
    let mut staking = engine_with_pool();
    assert_eq!(staking.distribute_stakes(&id("nowhere")), Err(StakeError::PoolNotFound));
    assert_eq!(staking.distribute_stakes(&id("derby")), Err(StakeError::PoolInactive));
    assert_eq!(staking.toggle_pool_active(&id("derby"), true), Ok(()));
    assert_eq!(staking.distribute_stakes(&id("derby")), Err(StakeError::ResultRequired));
    assert_eq!(staking.assert_pool_result(&id("derby"), Some(id("A"))), Ok(()));
    assert_eq!(staking.distribute_stakes(&id("derby")), Ok(vec![]));
    assert!(staking.get_pool(&id("derby")).unwrap().resolved);
}

#[test]
fn a_resolved_pool_stays_as_it_is() {
    let mut staking = engine_with_pool();
    assert_eq!(staking.toggle_pool_active(&id("derby"), true), Ok(()));
    assert_eq!(staking.assert_pool_result(&id("derby"), Some(id("A"))), Ok(()));
    assert_eq!(staking.distribute_stakes(&id("derby")), Ok(vec![]));
    let before = staking.clone();
    assert_eq!(staking.toggle_pool_active(&id("derby"), false), Err(StakeError::PoolResolved));
    assert_eq!(
        staking.assert_pool_result(&id("derby"), Some(id("B"))),
        Err(StakeError::PoolResolved)
    );
    assert_eq!(staking.distribute_stakes(&id("derby")), Err(StakeError::PoolResolved));
    assert_eq!(staking, before);
}

#[test]
fn distribute_stakes_pays_the_winning_outcome_only() {
    let mut staking = engine_with_pool();
    assert_eq!(staking.register_stake(ft("coinX", 500), &id("alice")), Ok(()));
    assert_eq!(staking.register_stake(ft("coinX", 300), &id("carol")), Ok(()));
    assert_eq!(
        staking.stake(
            &ft("coinX", 500),
            &id("alice"),
            &id("A"),
            &id("derby"),
            &vec![(id("B"), id("bob"))],
            &id("admin"),
        ),
        Ok(())
    );
    assert_eq!(
        staking.stake(
            &ft("coinX", 300),
            &id("carol"),
            &id("B"),
            &id("derby"),
            &vec![(id("A"), id("alice"))],
            &id("admin"),
        ),
        Ok(())
    );
    assert_eq!(staking.toggle_pool_active(&id("derby"), true), Ok(()));
    assert_eq!(staking.assert_pool_result(&id("derby"), Some(id("A"))), Ok(()));
    let under_b = staking.get_pool(&id("derby")).unwrap().required_stakes.rewards(
        &id("B"),
        &id("bob"),
    );
    assert_eq!(
        staking.distribute_stakes(&id("derby")),
        Ok(vec![Payout { receiver: id("alice"), stake: ft("coinX", 300), staker: id("carol") }])
    );
    let pool = staking.get_pool(&id("derby")).unwrap();
    assert_eq!(pool.required_stakes.rewards(&id("B"), &id("bob")), under_b);
    assert_eq!(pool.required_stakes.rewards(&id("A"), &id("alice")), vec![]);
    assert_eq!(pool.required_stakes.outcomes(), vec![id("A"), id("B")]);
}

#[test]
fn remove_pool_is_gated() {
    let mut staking = engine_with_pool();
    assert_eq!(staking.register_stake(nft("art", "mona"), &id("alice")), Ok(()));
    assert_eq!(
        staking.stake(
            &nft("art", "mona"),
            &id("alice"),
            &id("A"),
            &id("derby"),
            &vec![(id("B"), id("bob"))],
            &id("admin"),
        ),
        Ok(())
    );
    assert_eq!(staking.remove_pool(&id("nowhere")), Err(StakeError::PoolNotFound));
    assert_eq!(staking.remove_pool(&id("derby")), Err(StakeError::PoolUnresolved));
    assert_eq!(staking.toggle_pool_active(&id("derby"), true), Ok(()));
    assert_eq!(staking.remove_pool(&id("derby")), Err(StakeError::PoolUnresolved));
    assert_eq!(staking.assert_pool_result(&id("derby"), Some(id("A"))), Ok(()));
    assert_eq!(staking.distribute_stakes(&id("derby")), Ok(vec![]));
    assert_eq!(staking.remove_pool(&id("derby")), Err(StakeError::StakesStillBound));
    assert_eq!(staking.settle_stake(&nft("art", "mona"), &id("alice"), 0), Ok(()));
    assert!(!staking.pool_in_use(&id("derby")));
    assert_eq!(staking.remove_pool(&id("derby")), Ok(()));
    assert_eq!(staking.get_pool(&id("derby")), None);
}

#[test]
fn commit_transfer_settles_what_was_not_returned() {
    let mut staking = engine();
    assert_eq!(staking.register_stake(ft("coinX", 100), &id("alice")), Ok(()));
    let pending = PendingTransfer {
        stake_id: ft("coinX", 100),
        staker_id: id("alice"),
        receiver_id: id("bob"),
        amount: None,
    };
    assert_eq!(
        staking.commit_transfer(&pending, Some(60)),
        Ok(Resolution::Committed { moved: ft("coinX", 40) })
    );
    assert_eq!(staking.get_stakes(&id("alice")), Ok(vec![(ft("coinX", 60), None)]));
    assert_eq!(staking.get_stakes(&id("bob")), Ok(vec![]));
}

#[test]
fn commit_transfer_of_a_part() {
    let mut staking = engine();
    assert_eq!(staking.register_stake(ft("coinX", 100), &id("alice")), Ok(()));
    let pending = PendingTransfer {
        stake_id: ft("coinX", 100),
        staker_id: id("alice"),
        receiver_id: id("alice"),
        amount: Some(30),
    };
    assert_eq!(
        staking.commit_transfer(&pending, Some(10)),
        Ok(Resolution::Committed { moved: ft("coinX", 20) })
    );
    assert_eq!(staking.get_stakes(&id("alice")), Ok(vec![(ft("coinX", 80), None)]));
    assert_eq!(
        staking.commit_transfer(&pending, Some(31)),
        Ok(Resolution::Committed { moved: ft("coinX", 30) })
    );
    assert_eq!(staking.get_stakes(&id("alice")), Ok(vec![(ft("coinX", 50), None)]));
    assert_eq!(
        staking.commit_transfer(&pending, None),
        Ok(Resolution::Committed { moved: ft("coinX", 30) })
    );
    assert_eq!(staking.get_stakes(&id("alice")), Ok(vec![(ft("coinX", 20), None)]));
    assert_eq!(staking.commit_transfer(&pending, None), Err(StakeError::StakeNotRegistered));
    assert_eq!(staking.get_stakes(&id("alice")), Ok(vec![(ft("coinX", 20), None)]));
}

#[test]
fn commit_transfer_refuses_what_cannot_be() {
    let mut staking = engine();
    assert_eq!(staking.register_stake(ft("coinX", 100), &id("alice")), Ok(()));
    let before = staking.clone();
    let overdrawn = PendingTransfer {
        stake_id: ft("coinX", 100),
        staker_id: id("alice"),
        receiver_id: id("bob"),
        amount: Some(101),
    };
    assert_eq!(
        staking.commit_transfer(&overdrawn, None),
        Err(StakeError::InsufficientStakeBalance)
    );
    let unknown = PendingTransfer {
        stake_id: ft("coinX", 100),
        staker_id: id("dave"),
        receiver_id: id("bob"),
        amount: None,
    };
    assert_eq!(staking.commit_transfer(&unknown, None), Err(StakeError::AccountNotRegistered));
    let missing = PendingTransfer {
        stake_id: nft("art", "mona"),
        staker_id: id("alice"),
        receiver_id: id("bob"),
        amount: None,
    };
    assert_eq!(staking.commit_transfer(&missing, None), Err(StakeError::StakeNotRegistered));
    assert_eq!(staking, before);
}

#[test]
fn unstake_source_needs_a_ledger() {
    let mut staking = engine();
    assert_eq!(staking.register_stake(ft("coinX", 100), &id("alice")), Ok(()));
    assert_eq!(
        staking.unstake_source(&ft("coinX", 100), &id("alice")),
        Ok((ft("coinX", 100), None))
    );
    assert_eq!(
        staking.unstake_source(&ft("coinX", 100), &id("dave")),
        Err(StakeError::AccountNotRegistered)
    );
}
