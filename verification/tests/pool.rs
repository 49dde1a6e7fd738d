use delt_d::error::StakeError;
use delt_d::pool::{find_receiver, Payout, Pool, Reward, Stakes};
use delt_d::token::{StakeId, TokenType};

fn id(name: &str) -> String {
    name.to_string()
}

fn ft(contract: &str, balance: u128) -> StakeId {
    StakeId { contract_id: contract.to_string(), token: TokenType::FT { balance } }
}

fn reward(stake: StakeId, staker: &str) -> Reward {
    Reward { stake, staker: id(staker) }
}

#[test]
fn new_stakes_hold_every_outcome_once() {
    let stakes = Stakes::new(vec![id("A"), id("B"), id("A")]);
    assert_eq!(stakes.outcomes(), vec![id("A"), id("B")]);
    assert!(stakes.has_outcome(&id("A")));
    assert!(stakes.has_outcome(&id("B")));
    assert!(!stakes.has_outcome(&id("C")));
    assert!(!stakes.has_account(&id("A"), &id("alice")));
    assert_eq!(stakes.rewards(&id("A"), &id("alice")), vec![]);
}

#[test]
fn add_result_adds_an_empty_outcome() {
    let mut stakes = Stakes::new(vec![id("A")]);
    stakes.add_result(id("B"));
    assert_eq!(stakes.outcomes(), vec![id("A"), id("B")]);
    assert_eq!(stakes, Stakes::new(vec![id("A"), id("B")]));
}

#[test]
fn find_receiver_falls_back_to_the_default() {
    let receivers = vec![(id("B"), id("bob")), (id("C"), id("carol")), (id("B"), id("dave"))];
    assert_eq!(find_receiver(&receivers, &id("admin"), &id("B")), &id("bob"));
    assert_eq!(find_receiver(&receivers, &id("admin"), &id("C")), &id("carol"));
    assert_eq!(find_receiver(&receivers, &id("admin"), &id("A")), &id("admin"));
}

#[test]
fn add_stake_owes_the_stake_under_every_other_outcome() {
    let mut stakes = Stakes::new(vec![id("A"), id("B"), id("C")]);
    let done = stakes.add_stake(
        &id("A"),
        &id("alice"),
        &ft("coinX", 500),
        &vec![(id("B"), id("bob"))],
        &id("admin"),
    );
    assert_eq!(done, Ok(()));
    assert!(stakes.has_account(&id("A"), &id("alice")));
    assert_eq!(stakes.rewards(&id("A"), &id("alice")), vec![]);
    assert_eq!(stakes.rewards(&id("B"), &id("bob")), vec![reward(ft("coinX", 500), "alice")]);
    assert_eq!(stakes.rewards(&id("C"), &id("admin")), vec![reward(ft("coinX", 500), "alice")]);
    assert!(!stakes.has_account(&id("B"), &id("alice")));
    assert!(!stakes.has_account(&id("C"), &id("bob")));
}

#[test]
fn add_stake_collects_rewards_in_the_order_staked() {
    let mut stakes = Stakes::new(vec![id("A"), id("B")]);
    let to_bob = vec![(id("B"), id("bob"))];
    assert_eq!(
        stakes.add_stake(&id("A"), &id("alice"), &ft("coinX", 500), &to_bob, &id("admin")),
        Ok(())
    );
    assert_eq!(
        stakes.add_stake(&id("A"), &id("alice"), &ft("coinY", 5), &to_bob, &id("admin")),
        Ok(())
    );
    assert_eq!(
        stakes.add_stake(&id("A"), &id("dave"), &ft("coinX", 1), &to_bob, &id("admin")),
        Ok(())
    );
    assert_eq!(
        stakes.rewards(&id("B"), &id("bob")),
        vec![
            reward(ft("coinX", 500), "alice"),
            reward(ft("coinY", 5), "alice"),
            reward(ft("coinX", 1), "dave"),
        ]
    );
}

#[test]
fn add_stake_refuses_a_staker_who_would_receive_their_own_stake() {
    let mut stakes = Stakes::new(vec![id("A"), id("B")]);
    let before = stakes.clone();
    let done = stakes.add_stake(
        &id("A"),
        &id("alice"),
        &ft("coinX", 500),
        &vec![(id("B"), id("alice"))],
        &id("admin"),
    );
    assert_eq!(done, Err(StakeError::SelfReceiverDisallowed));
    assert_eq!(stakes, before);
}

#[test]
fn add_stake_refuses_the_default_receiver_as_staker() {
    let mut stakes = Stakes::new(vec![id("A"), id("B")]);
    let done = stakes.add_stake(&id("A"), &id("admin"), &ft("coinX", 500), &vec![], &id("admin"));
    assert_eq!(done, Err(StakeError::SelfReceiverDisallowed));
    let done = stakes.add_stake(
        &id("A"),
        &id("admin"),
        &ft("coinX", 500),
        &vec![(id("B"), id("bob"))],
        &id("admin"),
    );
    assert_eq!(done, Ok(()));
}

#[test]
fn add_stake_ignores_a_receiver_for_the_chosen_outcome() {
    let mut stakes = Stakes::new(vec![id("A"), id("B")]);
    let done = stakes.add_stake(
        &id("A"),
        &id("alice"),
        &ft("coinX", 500),
        &vec![(id("A"), id("alice")), (id("B"), id("bob"))],
        &id("admin"),
    );
    assert_eq!(done, Ok(()));
    assert_eq!(stakes.rewards(&id("A"), &id("alice")), vec![]);
}

#[test]
fn add_stake_refuses_an_unknown_outcome() {
    let mut stakes = Stakes::new(vec![id("A"), id("B")]);
    let before = stakes.clone();
    let done = stakes.add_stake(
        &id("C"),
        &id("alice"),
        &ft("coinX", 500),
        &vec![(id("A"), id("bob")), (id("B"), id("bob"))],
        &id("admin"),
    );
    assert_eq!(done, Err(StakeError::UnknownOutcome));
    assert_eq!(stakes, before);
}

#[test]
fn add_stake_refuses_a_second_outcome_of_one_staker() {
    let mut stakes = Stakes::new(vec![id("A"), id("B")]);
    let receivers = vec![(id("A"), id("bob")), (id("B"), id("bob"))];
    assert_eq!(
        stakes.add_stake(&id("A"), &id("alice"), &ft("coinX", 500), &receivers, &id("admin")),
        Ok(())
    );
    let before = stakes.clone();
    assert_eq!(
        stakes.add_stake(&id("B"), &id("alice"), &ft("coinX", 7), &receivers, &id("admin")),
        Err(StakeError::DuplicateStakeOutcome)
    );
    assert_eq!(stakes, before);
    assert_eq!(
        stakes.add_stake(&id("A"), &id("alice"), &ft("coinX", 7), &receivers, &id("admin")),
        Ok(())
    );
}

#[test]
fn add_stake_in_a_pool_of_one_outcome_owes_nothing() {
    let mut stakes = Stakes::new(vec![id("A")]);
    assert_eq!(
        stakes.add_stake(&id("A"), &id("alice"), &ft("coinX", 500), &vec![], &id("admin")),
        Ok(())
    );
    assert!(stakes.has_account(&id("A"), &id("alice")));
    assert_eq!(stakes.drain(&id("A")), vec![]);
}

#[test]
fn drain_hands_out_one_outcome_and_leaves_the_others() {
    let mut stakes = Stakes::new(vec![id("A"), id("B")]);
    assert_eq!(
        stakes.add_stake(
            &id("A"),
            &id("alice"),
            &ft("coinX", 500),
            &vec![(id("B"), id("bob"))],
            &id("admin"),
        ),
        Ok(())
    );
    assert_eq!(
        stakes.add_stake(
            &id("B"),
            &id("carol"),
            &ft("coinX", 300),
            &vec![(id("A"), id("alice"))],
            &id("admin"),
        ),
        Ok(())
    );
    let payouts = stakes.drain(&id("A"));
    assert_eq!(
        payouts,
        vec![Payout { receiver: id("alice"), stake: ft("coinX", 300), staker: id("carol") }]
    );
    assert_eq!(stakes.outcomes(), vec![id("A"), id("B")]);
    assert!(!stakes.has_account(&id("A"), &id("alice")));
    assert_eq!(stakes.rewards(&id("B"), &id("bob")), vec![reward(ft("coinX", 500), "alice")]);
    assert!(stakes.has_account(&id("B"), &id("carol")));
    assert_eq!(stakes.drain(&id("A")), vec![]);
    assert_eq!(stakes.drain(&id("Z")), vec![]);
}

#[test]
fn new_pool_is_inactive_and_unresolved() {
    let pool = Pool::new(id("admin"), vec![id("A"), id("B")], 12);
    assert_eq!(pool.owner, id("admin"));
    assert_eq!(pool.required_xp, 12);
    assert!(!pool.active);
    assert!(!pool.resolved);
    assert_eq!(pool.result, None);
    assert_eq!(pool.required_stakes, Stakes::new(vec![id("A"), id("B")]));
    assert_eq!(pool.clone(), pool);
}
