use delt_d::contract::{Contract, StakeResolver, Staking};
use delt_d::error::StakeError;
use delt_d::pool::Pool;
use delt_d::resolution::{
    moved, unused_amount, PendingTransfer, Resolution, TransferOutcome, TransferRequest,
};
use delt_d::token::{BalanceQuery, StakeId, TokenType, TransferCall};

fn id(name: &str) -> String {
    name.to_string()
}

fn ft(contract: &str, balance: u128) -> StakeId {
    StakeId { contract_id: contract.to_string(), token: TokenType::FT { balance } }
}

fn mt(contract: &str, token_id: &str, balance: u128) -> StakeId {
    StakeId {
        contract_id: contract.to_string(),
        token: TokenType::MT { token_id: token_id.to_string(), balance },
    }
}

fn nft(contract: &str, token_id: &str) -> StakeId {
    StakeId {
        contract_id: contract.to_string(),
        token: TokenType::NFT { token_id: token_id.to_string() },
    }
}

fn contract() -> Contract {
    let mut contract = Contract::new(
        id("admin"),
        id("escrow"),
        vec![id("coinX"), id("items"), id("art")],
    );
    assert_eq!(contract.register(&id("admin"), None), Ok(()));
    assert_eq!(contract.register(&id("admin"), Some(id("alice"))), Ok(()));
    assert_eq!(contract.register(&id("bob"), None), Ok(()));
    assert_eq!(contract.register(&id("carol"), None), Ok(()));
    contract
}

fn stakes_of(contract: &Contract, account: &str) -> Vec<(StakeId, Option<String>)> {
    contract.get_stakes(&id("admin"), id(account)).unwrap()
}

#[test]
fn new_contract_knows_its_identity() {
    let contract = Contract::new(id("admin"), id("escrow"), vec![id("coinX")]);
    assert_eq!(contract.owner(), &id("admin"));
    assert_eq!(contract.account_id(), &id("escrow"));
    assert!(contract.is_trusted(&id("coinX")));
    assert!(!contract.is_trusted(&id("coinY")));
    assert!(!contract.is_registered(&id("admin")));
    assert_eq!(contract.get_stakes(&id("admin"), id("escrow")), Ok(vec![]));
    assert_eq!(contract.get_stakes(&id("admin"), id("admin")), Err(StakeError::NoStakesForAccount));
}

#[test]
fn register_gives_a_ledger_and_a_character_once() {
    let mut contract = Contract::new(id("admin"), id("escrow"), vec![]);
    assert_eq!(contract.register(&id("alice"), None), Ok(()));
    assert!(contract.is_registered(&id("alice")));
    assert_eq!(contract.get_stakes(&id("admin"), id("alice")), Ok(vec![]));
    assert_eq!(
        contract.register(&id("bob"), Some(id("alice"))),
        Err(StakeError::AccountAlreadyRegistered)
    );
    assert_eq!(contract.register(&id("escrow"), None), Err(StakeError::AccountAlreadyRegistered));
    assert!(!contract.is_registered(&id("escrow")));
    assert!(!contract.is_registered(&id("bob")));
}

#[test]
fn create_pool_is_for_the_registered_administrator() {
    let mut contract = Contract::new(id("admin"), id("escrow"), vec![]);
    assert_eq!(contract.register(&id("alice"), None), Ok(()));
    assert_eq!(
        contract.create_pool(&id("alice"), id("derby"), vec![id("A")], 0),
        Err(StakeError::Restricted)
    );
    assert_eq!(
        contract.create_pool(&id("admin"), id("derby"), vec![id("A")], 0),
        Err(StakeError::AccountNotRegistered)
    );
    assert_eq!(contract.register(&id("admin"), None), Ok(()));
    assert_eq!(
        contract.create_pool(&id("admin"), id("derby"), vec![id("A"), id("B")], 7),
        Ok(Pool::new(id("admin"), vec![id("A"), id("B")], 7))
    );
    assert_eq!(
        contract.create_pool(&id("admin"), id("derby"), vec![id("A")], 0),
        Err(StakeError::PoolAlreadyExists)
    );
    assert_eq!(
        contract.create_pool(&id("admin"), id("finals"), vec![], 0),
        Err(StakeError::NoOutcomes)
    );
    assert_eq!(
        contract.get_pool(&id("derby")),
        Some(&Pool::new(id("admin"), vec![id("A"), id("B")], 7))
    );
}

#[test]
fn administrative_calls_are_restricted() {
    let mut contract = contract();
    assert!(contract.create_pool(&id("admin"), id("derby"), vec![id("A"), id("B")], 0).is_ok());
    let before = contract.clone();
    let mallory = id("mallory");
    assert_eq!(
        contract.register_stake(&mallory, ft("coinX", 1), id("alice")),
        Err(StakeError::Restricted)
    );
    assert_eq!(
        contract.unregister_stake(&mallory, ft("coinX", 1), id("alice"), None),
        Err(StakeError::Restricted)
    );
    assert_eq!(
        contract.transfer_stake(&mallory, ft("coinX", 1), id("alice"), id("bob"), None),
        Err(StakeError::Restricted)
    );
    assert_eq!(
        contract.toggle_pool_active(&mallory, id("derby"), true),
        Err(StakeError::Restricted)
    );
    assert_eq!(
        contract.assert_pool_result(&mallory, id("derby"), None),
        Err(StakeError::Restricted)
    );
    assert_eq!(contract.distribute_stakes(&mallory, id("derby")), Err(StakeError::Restricted));
    assert_eq!(contract.remove_pool(&mallory, id("derby")), Err(StakeError::Restricted));
    assert_eq!(contract.get_stakes(&mallory, id("alice")), Err(StakeError::Restricted));
    assert_eq!(contract.get_pools(&mallory, None), Err(StakeError::Restricted));
    assert_eq!(
        contract.stake(&mallory, ft("coinX", 1), id("alice"), id("A"), id("derby"), vec![]),
        Err(StakeError::Restricted)
    );
    assert_eq!(
        contract.unstake(&mallory, ft("coinX", 1), id("alice")),
        Err(StakeError::Restricted)
    );
    assert_eq!(contract, before);
}

#[test]
fn get_pools_lists_the_pools_of_an_owner() {
    let mut contract = contract();
    assert!(contract.create_pool(&id("admin"), id("derby"), vec![id("A")], 0).is_ok());
    assert!(contract.create_pool(&id("admin"), id("finals"), vec![id("B")], 1).is_ok());
    assert_eq!(
        contract.get_pools(&id("admin"), None),
        Ok(vec![
            (id("derby"), Pool::new(id("admin"), vec![id("A")], 0)),
            (id("finals"), Pool::new(id("admin"), vec![id("B")], 1)),
        ])
    );
    assert_eq!(contract.get_pools(&id("admin"), Some(id("alice"))), Ok(vec![]));
    assert_eq!(contract.get_pools(&id("admin"), Some(id("admin"))).unwrap().len(), 2);
}

#[test]
fn deposits_are_believed_of_trusted_contracts_only() {
    let mut contract = contract();
    assert_eq!(
        contract.ft_on_transfer(&id("coinZ"), id("alice"), 5, id("")),
        Err(StakeError::UntrustedAssetContract)
    );
    assert_eq!(
        contract.nft_on_transfer(&id("coinZ"), id("alice"), id("alice"), id("mona"), id("")),
        Err(StakeError::UntrustedAssetContract)
    );
    assert_eq!(
        contract.mt_on_transfer(
            &id("coinZ"),
            id("alice"),
            vec![],
            vec![id("sword")],
            vec![1],
            id(""),
        ),
        Err(StakeError::UntrustedAssetContract)
    );
    assert_eq!(stakes_of(&contract, "alice"), vec![]);
    assert_eq!(contract.ft_on_transfer(&id("coinX"), id("alice"), 5, id("")), Ok(()));
    assert_eq!(contract.ft_on_transfer(&id("coinX"), id("alice"), 6, id("")), Ok(()));
    assert_eq!(
        contract.nft_on_transfer(&id("art"), id("alice"), id("bob"), id("mona"), id("")),
        Ok(())
    );
    assert_eq!(
        stakes_of(&contract, "alice"),
        vec![(ft("coinX", 11), None), (nft("art", "mona"), None)]
    );
    assert_eq!(
        contract.ft_on_transfer(&id("coinX"), id("dave"), 5, id("")),
        Err(StakeError::AccountNotRegistered)
    );
}

#[test]
fn batch_deposits_are_all_or_none() {
    let mut contract = contract();
    assert_eq!(
        contract.mt_on_transfer(
            &id("items"),
            id("alice"),
            vec![id("bob"), id("bob")],
            vec![id("sword"), id("shield")],
            vec![2, 3],
            id(""),
        ),
        Ok(())
    );
    assert_eq!(
        stakes_of(&contract, "alice"),
        vec![(mt("items", "sword", 2), None), (mt("items", "shield", 3), None)]
    );
    assert_eq!(
        contract.mt_on_transfer(
            &id("items"),
            id("alice"),
            vec![],
            vec![id("bow"), id("sword")],
            vec![1, u128::MAX],
            id(""),
        ),
        Err(StakeError::Overflow)
    );
    assert_eq!(
        contract.mt_on_transfer(
            &id("items"),
            id("alice"),
            vec![],
            vec![id("bow"), id("sword")],
            vec![1],
            id(""),
        ),
        Err(StakeError::BatchLengthMismatch)
    );
    assert_eq!(
        stakes_of(&contract, "alice"),
        vec![(mt("items", "sword", 2), None), (mt("items", "shield", 3), None)]
    );
    assert_eq!(
        contract.mt_on_transfer(
            &id("items"),
            id("alice"),
            vec![],
            vec![id("bow")],
            vec![1, 9],
            id(""),
        ),
        Ok(())
    );
    assert_eq!(stakes_of(&contract, "alice").len(), 3);
}

#[test]
fn stake_may_be_made_by_the_staker_or_the_administrator() {
    let mut contract = contract();
    assert!(contract.create_pool(&id("admin"), id("derby"), vec![id("A"), id("B")], 0).is_ok());
    assert_eq!(contract.ft_on_transfer(&id("coinX"), id("alice"), 500, id("")), Ok(()));
    assert_eq!(contract.ft_on_transfer(&id("coinX"), id("bob"), 300, id("")), Ok(()));
    assert_eq!(
        contract.stake(&id("bob"), ft("coinX", 500), id("alice"), id("A"), id("derby"), vec![]),
        Err(StakeError::Restricted)
    );
    assert_eq!(
        contract.stake(&id("alice"), ft("coinX", 500), id("alice"), id("A"), id("derby"), vec![]),
        Ok(())
    );
    assert_eq!(
        contract.stake(
            &id("admin"),
            ft("coinX", 300),
            id("bob"),
            id("B"),
            id("derby"),
            vec![(id("A"), id("alice"))],
        ),
        Ok(())
    );
    let pool = contract.get_pool(&id("derby")).unwrap();
    assert_eq!(pool.required_stakes.rewards(&id("B"), &id("admin")).len(), 1);
    assert_eq!(pool.required_stakes.rewards(&id("A"), &id("alice")).len(), 1);
    assert_eq!(stakes_of(&contract, "alice"), vec![(ft("coinX", 500), Some(id("derby")))]);
}

#[test]
fn stake_with_the_staker_as_receiver_is_refused_for_every_outcome() {
    let outcomes = vec![id("A"), id("B"), id("C")];
    for chosen in 0..3 {
        for other in 0..3 {
            if chosen == other {
                continue;
            }
            let mut contract = contract();
            assert!(contract.create_pool(&id("admin"), id("derby"), outcomes.clone(), 0).is_ok());
            assert_eq!(contract.ft_on_transfer(&id("coinX"), id("alice"), 500, id("")), Ok(()));
            let before = contract.clone();
            let receivers = vec![(outcomes[other].clone(), id("alice"))];
            assert_eq!(
                contract.stake(
                    &id("alice"),
                    ft("coinX", 500),
                    id("alice"),
                    outcomes[chosen].clone(),
                    id("derby"),
                    receivers,
                ),
                Err(StakeError::SelfReceiverDisallowed)
            );
            assert_eq!(contract, before);
        }
    }
}

#[test]
fn stake_after_activation_fails_whoever_stakes_what() {
    let mut contract = contract();
    assert!(contract.create_pool(&id("admin"), id("derby"), vec![id("A"), id("B")], 0).is_ok());
    assert_eq!(contract.ft_on_transfer(&id("coinX"), id("alice"), 500, id("")), Ok(()));
    assert_eq!(
        contract.nft_on_transfer(&id("art"), id("bob"), id("bob"), id("mona"), id("")),
        Ok(())
    );
    assert_eq!(contract.toggle_pool_active(&id("admin"), id("derby"), true), Ok(()));
    let before = contract.clone();
    assert_eq!(
        contract.stake(
            &id("alice"),
            ft("coinX", 500),
            id("alice"),
            id("A"),
            id("derby"),
            vec![(id("B"), id("bob"))],
        ),
        Err(StakeError::PoolActive)
    );
    assert_eq!(
        contract.stake(
            &id("admin"),
            nft("art", "mona"),
            id("bob"),
            id("B"),
            id("derby"),
            vec![(id("A"), id("alice"))],
        ),
        Err(StakeError::PoolActive)
    );
    assert_eq!(
        contract.stake(&id("carol"), ft("coinY", 1), id("carol"), id("Z"), id("derby"), vec![]),
        Err(StakeError::PoolActive)
    );
    assert_eq!(contract, before);
}

#[test]
fn unstake_asks_for_the_transfer_back_to_the_staker() {
    let mut contract = contract();
    assert_eq!(contract.ft_on_transfer(&id("coinX"), id("alice"), 500, id("")), Ok(()));
    let before = contract.clone();
    let request = contract.unstake(&id("alice"), ft("coinX", 500), id("alice"));
    assert_eq!(
        request,
        Ok(TransferRequest {
            pending: PendingTransfer {
                stake_id: ft("coinX", 500),
                staker_id: id("alice"),
                receiver_id: id("alice"),
                amount: None,
            },
            call: TransferCall {
                contract_id: id("coinX"),
                receiver_id: id("alice"),
                token: TokenType::FT { balance: 500 },
                memo: id("Delt stake"),
                msg: id("escrow"),
            },
        })
    );
    let part = contract.unstake(&id("admin"), ft("coinX", 200), id("alice")).unwrap();
    assert_eq!(part.pending.stake_id, ft("coinX", 500));
    assert_eq!(part.pending.amount, Some(200));
    assert_eq!(part.call.token, TokenType::FT { balance: 200 });
    assert_eq!(
        contract.unstake(&id("alice"), ft("coinX", 501), id("alice")),
        Err(StakeError::StakeNotRegistered)
    );
    assert_eq!(
        contract.unstake(&id("dave"), ft("coinX", 1), id("dave")),
        Err(StakeError::AccountNotRegistered)
    );
    assert_eq!(contract, before);
}

#[test]
fn unstake_of_a_bound_stake_names_the_pool() {
    let mut contract = contract();
    assert!(contract.create_pool(&id("admin"), id("derby"), vec![id("A"), id("B")], 0).is_ok());
    assert_eq!(contract.ft_on_transfer(&id("coinX"), id("alice"), 500, id("")), Ok(()));
    assert_eq!(
        contract.stake(&id("alice"), ft("coinX", 500), id("alice"), id("A"), id("derby"), vec![]),
        Ok(())
    );
    assert_eq!(
        contract.unstake(&id("alice"), ft("coinX", 500), id("alice")),
        Err(StakeError::StakeStillBound { pool_id: id("derby") })
    );
    assert_eq!(
        contract.unregister_stake(&id("admin"), ft("coinX", 500), id("alice"), None),
        Err(StakeError::StakeStillBound { pool_id: id("derby") })
    );
}

#[test]
fn transfer_stake_checks_the_amount() {
    let contract = contract();
    assert_eq!(
        contract.transfer_stake(&id("admin"), ft("coinX", 500), id("alice"), id("bob"), Some(501)),
        Err(StakeError::InsufficientStakeBalance)
    );
    let request = contract
        .transfer_stake(&id("admin"), mt("items", "sword", 5), id("alice"), id("bob"), Some(2))
        .unwrap();
    assert_eq!(
        request.pending,
        PendingTransfer {
            stake_id: mt("items", "sword", 5),
            staker_id: id("alice"),
            receiver_id: id("bob"),
            amount: Some(2),
        }
    );
    assert_eq!(
        request.call,
        TransferCall {
            contract_id: id("items"),
            receiver_id: id("bob"),
            token: TokenType::MT { token_id: id("sword"), balance: 2 },
            memo: id("Delt Stake"),
            msg: id("escrow"),
        }
    );
}

#[test]
fn verify_stake_asks_for_the_contract_by_default() {
    let contract = contract();
    assert_eq!(
        contract.verify_stake(ft("coinX", 5), None),
        BalanceQuery::FtBalanceOf { contract_id: id("coinX"), account_id: id("escrow") }
    );
    assert_eq!(
        contract.verify_stake(mt("items", "sword", 5), Some(id("alice"))),
        BalanceQuery::MtBalanceOf {
            contract_id: id("items"),
            account_id: id("alice"),
            token_id: id("sword"),
        }
    );
    assert_eq!(
        contract.verify_stake(nft("art", "mona"), Some(id("alice"))),
        BalanceQuery::NftToken { contract_id: id("art"), token_id: id("mona") }
    );
}

#[test]
fn resolve_transfer_is_for_the_contract_itself() {
    let mut contract = contract();
    assert_eq!(contract.ft_on_transfer(&id("coinX"), id("alice"), 100, id("")), Ok(()));
    let request = contract.unstake(&id("alice"), ft("coinX", 100), id("alice")).unwrap();
    let before = contract.clone();
    assert_eq!(
        contract.resolve_transfer(
            &id("admin"),
            request.pending.clone(),
            TransferOutcome::Successful(vec![]),
        ),
        Err(StakeError::Restricted)
    );
    assert_eq!(
        contract.commit_transfer(&id("alice"), &request.pending, None),
        Err(StakeError::Restricted)
    );
    assert_eq!(contract, before);
}

#[test]
fn a_failed_transfer_leaves_the_binding_as_it_was() {
    let mut contract = contract();
    assert!(contract.create_pool(&id("admin"), id("derby"), vec![id("A"), id("B")], 0).is_ok());
    assert_eq!(contract.ft_on_transfer(&id("coinX"), id("carol"), 300, id("")), Ok(()));
    assert_eq!(
        contract.stake(
            &id("carol"),
            ft("coinX", 300),
            id("carol"),
            id("B"),
            id("derby"),
            vec![(id("A"), id("alice"))],
        ),
        Ok(())
    );
    assert_eq!(contract.toggle_pool_active(&id("admin"), id("derby"), true), Ok(()));
    assert_eq!(contract.assert_pool_result(&id("admin"), id("derby"), Some(id("A"))), Ok(()));
    let requests = contract.distribute_stakes(&id("admin"), id("derby")).unwrap();
    assert_eq!(requests.len(), 1);
    let before = contract.clone();
    let done = contract.resolve_transfer(
        &id("escrow"),
        requests[0].pending.clone(),
        TransferOutcome::Failed,
    );
    assert_eq!(done, Ok(Resolution::RolledBack));
    assert_eq!(contract, before);
    assert_eq!(stakes_of(&contract, "carol"), vec![(ft("coinX", 300), Some(id("derby")))]);
}

#[test]
fn a_partial_transfer_leaves_the_unused_amount_with_the_owner() {
    let mut contract = contract();
    assert_eq!(contract.ft_on_transfer(&id("coinX"), id("alice"), 100, id("")), Ok(()));
    let request = contract
        .transfer_stake(&id("admin"), ft("coinX", 100), id("alice"), id("bob"), None)
        .unwrap();
    let answer = "[\"60\"]".as_bytes().to_vec();
    let done = contract.resolve_transfer(
        &id("escrow"),
        request.pending,
        TransferOutcome::Successful(answer),
    );
    assert_eq!(done, Ok(Resolution::Committed { moved: ft("coinX", 40) }));
    assert_eq!(stakes_of(&contract, "alice"), vec![(ft("coinX", 60), None)]);
    assert_eq!(stakes_of(&contract, "bob"), vec![]);
}

#[test]
fn an_answer_that_lists_no_amount_commits_the_whole_transfer() {
    for answer in [
        "",
        "true",
        "\"60\"",
        "[]",
        "[60]",
        "{\"unused\":\"60\"}",
        "[\"-1\"]",
        "[\"sixty\"]",
    ] {
        let mut contract = contract();
        assert_eq!(contract.ft_on_transfer(&id("coinX"), id("alice"), 100, id("")), Ok(()));
        let request = contract.unstake(&id("alice"), ft("coinX", 100), id("alice")).unwrap();
        let done = contract.resolve_transfer(
            &id("escrow"),
            request.pending,
            TransferOutcome::Successful(answer.as_bytes().to_vec()),
        );
        assert_eq!(done, Ok(Resolution::Committed { moved: ft("coinX", 100) }));
        assert_eq!(stakes_of(&contract, "alice"), vec![]);
    }
}

#[test]
fn an_answer_lists_amounts_as_decimal_strings() {
    let mut contract = contract();
    assert_eq!(contract.ft_on_transfer(&id("coinX"), id("alice"), u128::MAX, id("")), Ok(()));
    let request = contract.unstake(&id("alice"), ft("coinX", u128::MAX), id("alice")).unwrap();
    let answer = " [ \"340282366920938463463374607431768211454\" , \"7\" ] ".as_bytes().to_vec();
    let done = contract.resolve_transfer(
        &id("escrow"),
        request.pending,
        TransferOutcome::Successful(answer),
    );
    assert_eq!(done, Ok(Resolution::Committed { moved: ft("coinX", 1) }));
    assert_eq!(stakes_of(&contract, "alice"), vec![(ft("coinX", u128::MAX - 1), None)]);
}

#[test]
fn a_full_refusal_frees_the_stake() {
    let mut contract = contract();
    assert!(contract.create_pool(&id("admin"), id("derby"), vec![id("A"), id("B")], 0).is_ok());
    assert_eq!(contract.ft_on_transfer(&id("coinX"), id("carol"), 300, id("")), Ok(()));
    assert_eq!(
        contract.stake(
            &id("carol"),
            ft("coinX", 300),
            id("carol"),
            id("B"),
            id("derby"),
            vec![(id("A"), id("alice"))],
        ),
        Ok(())
    );
    assert_eq!(contract.toggle_pool_active(&id("admin"), id("derby"), true), Ok(()));
    assert_eq!(contract.assert_pool_result(&id("admin"), id("derby"), Some(id("A"))), Ok(()));
    let requests = contract.distribute_stakes(&id("admin"), id("derby")).unwrap();
    let answer = "[\"300\"]".as_bytes().to_vec();
    let done = contract.resolve_transfer(
        &id("escrow"),
        requests[0].pending.clone(),
        TransferOutcome::Successful(answer),
    );
    assert_eq!(done, Ok(Resolution::Committed { moved: ft("coinX", 0) }));
    assert_eq!(stakes_of(&contract, "carol"), vec![(ft("coinX", 300), None)]);
}

#[test]
fn unused_amount_is_the_first_amount_listed() {
    assert_eq!(unused_amount(&Some(vec![60, 7])), Some(60));
    assert_eq!(unused_amount(&Some(vec![])), None);
    assert_eq!(unused_amount(&None), None);
}

#[test]
fn moved_is_what_was_asked_for_less_what_came_back() {
    assert_eq!(moved(100, Some(60)), 40);
    assert_eq!(moved(100, Some(100)), 0);
    assert_eq!(moved(100, Some(101)), 100);
    assert_eq!(moved(100, None), 100);
    assert_eq!(moved(0, Some(0)), 0);
}

#[test]
fn remove_pool_fails_while_unresolved_or_in_use() {
    let mut contract = contract();
    assert!(contract.create_pool(&id("admin"), id("derby"), vec![id("A"), id("B")], 0).is_ok());
    assert_eq!(contract.ft_on_transfer(&id("coinX"), id("alice"), 500, id("")), Ok(()));
    assert_eq!(contract.ft_on_transfer(&id("coinX"), id("carol"), 300, id("")), Ok(()));
    assert_eq!(
        contract.stake(
            &id("alice"),
            ft("coinX", 500),
            id("alice"),
            id("A"),
            id("derby"),
            vec![(id("B"), id("bob"))],
        ),
        Ok(())
    );
    assert_eq!(
        contract.stake(
            &id("carol"),
            ft("coinX", 300),
            id("carol"),
            id("B"),
            id("derby"),
            vec![(id("A"), id("alice"))],
        ),
        Ok(())
    );
    assert_eq!(contract.remove_pool(&id("admin"), id("derby")), Err(StakeError::PoolUnresolved));
    assert_eq!(contract.toggle_pool_active(&id("admin"), id("derby"), true), Ok(()));
    assert_eq!(contract.assert_pool_result(&id("admin"), id("derby"), Some(id("A"))), Ok(()));
    assert_eq!(contract.remove_pool(&id("admin"), id("derby")), Err(StakeError::PoolUnresolved));
    let requests = contract.distribute_stakes(&id("admin"), id("derby")).unwrap();
    assert_eq!(contract.remove_pool(&id("admin"), id("derby")), Err(StakeError::StakesStillBound));
    assert_eq!(
        contract.resolve_transfer(
            &id("escrow"),
            requests[0].pending.clone(),
            TransferOutcome::Successful(vec![]),
        ),
        Ok(Resolution::Committed { moved: ft("coinX", 300) })
    );
    assert_eq!(contract.remove_pool(&id("admin"), id("derby")), Err(StakeError::StakesStillBound));
    let back = contract
        .transfer_stake(&id("admin"), ft("coinX", 500), id("alice"), id("alice"), None)
        .unwrap();
    assert_eq!(
        contract.resolve_transfer(&id("escrow"), back.pending, TransferOutcome::Successful(vec![])),
        Ok(Resolution::Committed { moved: ft("coinX", 500) })
    );
    assert_eq!(contract.remove_pool(&id("admin"), id("derby")), Ok(()));
    assert_eq!(contract.get_pool(&id("derby")), None);
    assert_eq!(contract.remove_pool(&id("admin"), id("derby")), Err(StakeError::PoolNotFound));
}

#[test]
fn custody_changes_by_deposits_and_transfers_only() {
    let mut contract = contract();
    assert!(contract.create_pool(&id("admin"), id("derby"), vec![id("A"), id("B")], 0).is_ok());
    let total = |contract: &Contract, account: &str| -> u128 {
        stakes_of(contract, account)
            .iter()
            .filter(|(stake, _)| stake.same_slot(&ft("coinX", 0)))
            .map(|(stake, _)| stake.token.get_amount().unwrap())
            .sum()
    };
    assert_eq!(contract.ft_on_transfer(&id("coinX"), id("alice"), 500, id("")), Ok(()));
    assert_eq!(contract.ft_on_transfer(&id("coinX"), id("alice"), 250, id("")), Ok(()));
    assert_eq!(
        contract.ft_on_transfer(&id("coinY"), id("alice"), 9, id("")),
        Err(StakeError::UntrustedAssetContract)
    );
    assert_eq!(total(&contract, "alice"), 750);
    assert_eq!(
        contract.stake(
            &id("alice"),
            ft("coinX", 750),
            id("alice"),
            id("A"),
            id("derby"),
            vec![(id("B"), id("bob"))],
        ),
        Ok(())
    );
    assert_eq!(contract.ft_on_transfer(&id("coinX"), id("alice"), 50, id("")), Ok(()));
    assert_eq!(total(&contract, "alice"), 800);
    assert_eq!(
        contract.unregister_stake(&id("admin"), ft("coinX", 20), id("alice"), Some(id("bob"))),
        Ok(())
    );
    assert_eq!(total(&contract, "alice") + total(&contract, "bob"), 800);
    assert_eq!(total(&contract, "bob"), 20);
    assert_eq!(
        contract.unregister_stake(&id("admin"), ft("coinX", 31), id("alice"), None),
        Err(StakeError::StakeNotRegistered)
    );
    assert_eq!(total(&contract, "alice"), 780);
    assert_eq!(contract.toggle_pool_active(&id("admin"), id("derby"), true), Ok(()));
    assert_eq!(contract.assert_pool_result(&id("admin"), id("derby"), Some(id("B"))), Ok(()));
    let requests = contract.distribute_stakes(&id("admin"), id("derby")).unwrap();
    assert_eq!(total(&contract, "alice"), 780);
    assert_eq!(
        contract.resolve_transfer(
            &id("escrow"),
            requests[0].pending.clone(),
            TransferOutcome::Failed,
        ),
        Ok(Resolution::RolledBack)
    );
    assert_eq!(total(&contract, "alice"), 780);
    assert_eq!(
        contract.resolve_transfer(
            &id("escrow"),
            requests[0].pending.clone(),
            TransferOutcome::Successful("[\"50\"]".as_bytes().to_vec()),
        ),
        Ok(Resolution::Committed { moved: ft("coinX", 700) })
    );
    assert_eq!(total(&contract, "alice"), 80);
    assert_eq!(total(&contract, "bob"), 20);
    assert_eq!(stakes_of(&contract, "alice"), vec![(ft("coinX", 80), None)]);
}
