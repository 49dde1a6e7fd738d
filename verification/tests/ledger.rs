use delt_d::error::StakeError;
use delt_d::ledger::{Ledger, StakeEntry};
use delt_d::token::{StakeId, TokenType};

fn ft(contract: &str, balance: u128) -> StakeId {
    StakeId { contract_id: contract.to_string(), token: TokenType::FT { balance } }
}

fn mt(contract: &str, token_id: &str, balance: u128) -> StakeId {
    StakeId {
        contract_id: contract.to_string(),
        token: TokenType::MT { token_id: token_id.to_string(), balance },
    }
}

fn nft(contract: &str, token_id: &str) -> StakeId {
    StakeId {
        contract_id: contract.to_string(),
        token: TokenType::NFT { token_id: token_id.to_string() },
    }
}

fn entries(ledger: &Ledger) -> Vec<(StakeId, Option<String>)> {
    ledger.stakes()
}

#[test]
fn new_ledger_is_empty() {
    let ledger = Ledger::new();
    assert_eq!(ledger.len(), 0);
    assert_eq!(entries(&ledger), vec![]);
}

#[test]
fn register_merges_deposits_of_one_slot() {
    let mut ledger = Ledger::new();
    assert_eq!(ledger.register(ft("coinX", 500)), Ok(()));
    assert_eq!(ledger.register(ft("coinX", 300)), Ok(()));
    assert_eq!(entries(&ledger), vec![(ft("coinX", 800), None)]);
    assert_eq!(ledger.register(ft("coinY", 1)), Ok(()));
    assert_eq!(ledger.register(mt("items", "sword", 2)), Ok(()));
    assert_eq!(ledger.register(mt("items", "shield", 4)), Ok(()));
    assert_eq!(ledger.register(mt("items", "sword", 3)), Ok(()));
    assert_eq!(
        entries(&ledger),
        vec![
            (ft("coinX", 800), None),
            (ft("coinY", 1), None),
            (mt("items", "sword", 5), None),
            (mt("items", "shield", 4), None),
        ]
    );
}

#[test]
fn register_keeps_non_fungible_tokens_apart() {
    let mut ledger = Ledger::new();
    assert_eq!(ledger.register(nft("art", "mona")), Ok(()));
    assert_eq!(ledger.register(nft("art", "lisa")), Ok(()));
    assert_eq!(entries(&ledger), vec![(nft("art", "mona"), None), (nft("art", "lisa"), None)]);
}

#[test]
fn register_does_not_merge_into_a_bound_entry() {
    let mut ledger = Ledger::new();
    assert_eq!(ledger.register(ft("coinX", 500)), Ok(()));
    assert_eq!(ledger.bind(&ft("coinX", 500), "derby".to_string()), Ok(()));
    assert_eq!(ledger.register(ft("coinX", 300)), Ok(()));
    assert_eq!(
        entries(&ledger),
        vec![(ft("coinX", 500), Some("derby".to_string())), (ft("coinX", 300), None)]
    );
}

#[test]
fn register_refuses_a_balance_that_overflows() {
    let mut ledger = Ledger::new();
    assert_eq!(ledger.register(ft("coinX", u128::MAX)), Ok(()));
    assert_eq!(ledger.register(ft("coinX", 1)), Err(StakeError::Overflow));
    assert_eq!(entries(&ledger), vec![(ft("coinX", u128::MAX), None)]);
}

#[test]
fn unregister_removes_the_exact_entry() {
    let mut ledger = Ledger::new();
    assert_eq!(ledger.register(ft("coinX", 500)), Ok(()));
    assert_eq!(ledger.register(nft("art", "mona")), Ok(()));
    assert_eq!(ledger.unregister(&ft("coinX", 500)), Ok(()));
    assert_eq!(entries(&ledger), vec![(nft("art", "mona"), None)]);
    assert_eq!(ledger.unregister(&nft("art", "mona")), Ok(()));
    assert_eq!(ledger.len(), 0);
}

#[test]
fn unregister_splits_a_part_off_a_balance() {
    let mut ledger = Ledger::new();
    assert_eq!(ledger.register(ft("coinX", 500)), Ok(()));
    assert_eq!(ledger.unregister(&ft("coinX", 200)), Ok(()));
    assert_eq!(entries(&ledger), vec![(ft("coinX", 300), None)]);
    assert_eq!(ledger.unregister(&ft("coinX", 301)), Err(StakeError::StakeNotRegistered));
    assert_eq!(entries(&ledger), vec![(ft("coinX", 300), None)]);
}

#[test]
fn unregister_refuses_a_bound_stake() {
    let mut ledger = Ledger::new();
    assert_eq!(ledger.register(ft("coinX", 500)), Ok(()));
    assert_eq!(ledger.bind(&ft("coinX", 500), "derby".to_string()), Ok(()));
    assert_eq!(
        ledger.unregister(&ft("coinX", 500)),
        Err(StakeError::StakeStillBound { pool_id: "derby".to_string() })
    );
    assert_eq!(ledger.unregister(&ft("coinX", 100)), Err(StakeError::StakeNotRegistered));
    assert_eq!(entries(&ledger), vec![(ft("coinX", 500), Some("derby".to_string()))]);
}

#[test]
fn unregister_refuses_what_is_not_registered() {
    let mut ledger = Ledger::new();
    assert_eq!(ledger.unregister(&ft("coinX", 1)), Err(StakeError::StakeNotRegistered));
    assert_eq!(ledger.register(ft("coinX", 1)), Ok(()));
    assert_eq!(ledger.unregister(&ft("coinY", 1)), Err(StakeError::StakeNotRegistered));
    assert_eq!(ledger.unregister(&nft("coinX", "mona")), Err(StakeError::StakeNotRegistered));
}

#[test]
fn bind_marks_the_entry() {
    let mut ledger = Ledger::new();
    assert_eq!(ledger.register(ft("coinX", 500)), Ok(()));
    assert!(!ledger.is_bound_to(&"derby".to_string()));
    assert_eq!(ledger.bind(&ft("coinX", 500), "derby".to_string()), Ok(()));
    assert!(ledger.is_bound_to(&"derby".to_string()));
    assert!(!ledger.is_bound_to(&"finals".to_string()));
    assert_eq!(
        ledger.get(0),
        &StakeEntry { stake: ft("coinX", 500), pool: Some("derby".to_string()) }
    );
}

#[test]
fn bind_refuses_a_stake_that_is_bound_or_unknown() {
    let mut ledger = Ledger::new();
    assert_eq!(
        ledger.bind(&ft("coinX", 500), "derby".to_string()),
        Err(StakeError::StakeNotRegistered)
    );
    assert_eq!(ledger.register(ft("coinX", 500)), Ok(()));
    assert_eq!(
        ledger.bind(&ft("coinX", 400), "derby".to_string()),
        Err(StakeError::StakeNotRegistered)
    );
    assert_eq!(ledger.bind(&ft("coinX", 500), "derby".to_string()), Ok(()));
    assert_eq!(
        ledger.bind(&ft("coinX", 500), "derby".to_string()),
        Err(StakeError::StakeAlreadyStaked)
    );
    assert_eq!(
        ledger.bind(&ft("coinX", 500), "finals".to_string()),
        Err(StakeError::StakeAlreadyBoundElsewhere)
    );
}

#[test]
fn settle_removes_what_has_moved_and_frees_the_rest() {
    let mut ledger = Ledger::new();
    assert_eq!(ledger.register(ft("coinX", 100)), Ok(()));
    assert_eq!(ledger.bind(&ft("coinX", 100), "derby".to_string()), Ok(()));
    assert_eq!(ledger.settle(&ft("coinX", 100), 40), Ok(()));
    assert_eq!(entries(&ledger), vec![(ft("coinX", 60), None)]);
    assert_eq!(ledger.settle(&ft("coinX", 60), 60), Ok(()));
    assert_eq!(ledger.len(), 0);
}

#[test]
fn settle_merges_the_rest_into_the_free_balance() {
    let mut ledger = Ledger::new();
    assert_eq!(ledger.register(ft("coinX", 100)), Ok(()));
    assert_eq!(ledger.bind(&ft("coinX", 100), "derby".to_string()), Ok(()));
    assert_eq!(ledger.register(ft("coinX", 7)), Ok(()));
    assert_eq!(ledger.settle(&ft("coinX", 100), 40), Ok(()));
    assert_eq!(entries(&ledger), vec![(ft("coinX", 67), None)]);
}

#[test]
fn settle_takes_from_the_free_balance_where_the_entry_has_changed() {
    let mut ledger = Ledger::new();
    assert_eq!(ledger.register(ft("coinX", 100)), Ok(()));
    assert_eq!(ledger.register(ft("coinX", 50)), Ok(()));
    assert_eq!(ledger.settle(&ft("coinX", 100), 100), Ok(()));
    assert_eq!(entries(&ledger), vec![(ft("coinX", 50), None)]);
    assert_eq!(ledger.settle(&ft("coinX", 100), 50), Ok(()));
    assert_eq!(ledger.len(), 0);
    assert_eq!(ledger.settle(&ft("coinX", 100), 1), Err(StakeError::StakeNotRegistered));
}

#[test]
fn settle_removes_a_non_fungible_token() {
    let mut ledger = Ledger::new();
    assert_eq!(ledger.register(nft("art", "mona")), Ok(()));
    assert_eq!(ledger.bind(&nft("art", "mona"), "derby".to_string()), Ok(()));
    assert_eq!(ledger.settle(&nft("art", "mona"), 0), Ok(()));
    assert_eq!(ledger.len(), 0);
    assert_eq!(ledger.settle(&nft("art", "mona"), 0), Err(StakeError::StakeNotRegistered));
}

#[test]
fn settle_that_overflows_changes_nothing() {
    let mut ledger = Ledger::new();
    assert_eq!(ledger.register(ft("coinX", 10)), Ok(()));
    assert_eq!(ledger.bind(&ft("coinX", 10), "derby".to_string()), Ok(()));
    assert_eq!(ledger.register(ft("coinX", u128::MAX)), Ok(()));
    assert_eq!(ledger.settle(&ft("coinX", 10), 4), Err(StakeError::Overflow));
    assert_eq!(
        entries(&ledger),
        vec![(ft("coinX", 10), Some("derby".to_string())), (ft("coinX", u128::MAX), None)]
    );
}

#[test]
fn register_all_is_all_or_none() {
    let mut ledger = Ledger::new();
    assert_eq!(ledger.register(mt("items", "sword", u128::MAX)), Ok(()));
    let batch = vec![mt("items", "shield", 1), mt("items", "sword", 1)];
    assert_eq!(ledger.register_all(&batch), Err(StakeError::Overflow));
    assert_eq!(entries(&ledger), vec![(mt("items", "sword", u128::MAX), None)]);
    let batch = vec![mt("items", "shield", 1), mt("items", "shield", 2), mt("items", "bow", 3)];
    assert_eq!(ledger.register_all(&batch), Ok(()));
    assert_eq!(
        entries(&ledger),
        vec![
            (mt("items", "sword", u128::MAX), None),
            (mt("items", "shield", 3), None),
            (mt("items", "bow", 3), None),
        ]
    );
}

#[test]
fn unstake_source_names_the_entry_and_the_amount() {
    let mut ledger = Ledger::new();
    assert_eq!(ledger.register(ft("coinX", 500)), Ok(()));
    assert_eq!(ledger.unstake_source(&ft("coinX", 500)), Ok((ft("coinX", 500), None)));
    assert_eq!(ledger.unstake_source(&ft("coinX", 200)), Ok((ft("coinX", 500), Some(200))));
    assert_eq!(ledger.unstake_source(&ft("coinX", 501)), Err(StakeError::StakeNotRegistered));
    assert_eq!(ledger.bind(&ft("coinX", 500), "derby".to_string()), Ok(()));
    assert_eq!(
        ledger.unstake_source(&ft("coinX", 500)),
        Err(StakeError::StakeStillBound { pool_id: "derby".to_string() })
    );
    assert_eq!(entries(&ledger), vec![(ft("coinX", 500), Some("derby".to_string()))]);
}

#[test]
fn clone_copies_the_entries() {
    let mut ledger = Ledger::new();
    assert_eq!(ledger.register(ft("coinX", 500)), Ok(()));
    assert_eq!(ledger.register(nft("art", "mona")), Ok(()));
    assert_eq!(ledger.bind(&nft("art", "mona"), "derby".to_string()), Ok(()));
    let copy = ledger.clone();
    assert_eq!(copy, ledger);
}
