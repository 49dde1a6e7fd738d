use delt_d::contract::{Contract, StakeResolver, Staking};
use delt_d::error::StakeError;
use delt_d::pool::Reward;
use delt_d::resolution::{PendingTransfer, Resolution, TransferOutcome, TransferRequest};
use delt_d::token::{StakeId, TokenType, TransferCall};

fn id(name: &str) -> String {
    name.to_string()
}

fn ft(contract: &str, balance: u128) -> StakeId {
    StakeId { contract_id: contract.to_string(), token: TokenType::FT { balance } }
}

fn mt(contract: &str, token_id: &str, balance: u128) -> StakeId {
    StakeId {
        contract_id: contract.to_string(),
        token: TokenType::MT { token_id: token_id.to_string(), balance },
    }
}

#[test]
fn two_stakers_bet_against_each_other() {
    let mut contract = Contract::new(id("admin"), id("escrow"), vec![id("coinX")]);
    for account in ["admin", "alice", "bob", "carol"] {
        assert_eq!(contract.register(&id(account), None), Ok(()));
    }
    assert!(contract.create_pool(&id("admin"), id("P1"), vec![id("A"), id("B")], 0).is_ok());

    assert_eq!(contract.ft_on_transfer(&id("coinX"), id("alice"), 500, id("")), Ok(()));
    assert_eq!(
        contract.stake(
            &id("alice"),
            ft("coinX", 500),
            id("alice"),
            id("A"),
            id("P1"),
            vec![(id("B"), id("bob"))],
        ),
        Ok(())
    );
    assert_eq!(contract.ft_on_transfer(&id("coinX"), id("carol"), 300, id("")), Ok(()));
    assert_eq!(
        contract.stake(
            &id("carol"),
            ft("coinX", 300),
            id("carol"),
            id("B"),
            id("P1"),
            vec![(id("A"), id("alice"))],
        ),
        Ok(())
    );

    assert_eq!(contract.toggle_pool_active(&id("admin"), id("P1"), true), Ok(()));
    assert_eq!(contract.assert_pool_result(&id("admin"), id("P1"), Some(id("A"))), Ok(()));
    let requests = contract.distribute_stakes(&id("admin"), id("P1")).unwrap();

    assert_eq!(
        requests,
        vec![TransferRequest {
            pending: PendingTransfer {
                stake_id: ft("coinX", 300),
                staker_id: id("carol"),
                receiver_id: id("alice"),
                amount: None,
            },
            call: TransferCall {
                contract_id: id("coinX"),
                receiver_id: id("alice"),
                token: TokenType::FT { balance: 300 },
                memo: id("Delt stake"),
                msg: id("escrow"),
            },
        }]
    );
    assert!(requests.iter().all(|request| request.call.receiver_id != id("bob")));

    let pool = contract.get_pool(&id("P1")).unwrap();
    assert!(pool.resolved);
    assert_eq!(
        pool.required_stakes.rewards(&id("B"), &id("bob")),
        vec![Reward { stake: ft("coinX", 500), staker: id("alice") }]
    );
    assert_eq!(pool.required_stakes.rewards(&id("A"), &id("alice")), vec![]);

    let done = contract.resolve_transfer(
        &id("escrow"),
        requests[0].pending.clone(),
        TransferOutcome::Successful("[\"0\"]".as_bytes().to_vec()),
    );
    assert_eq!(done, Ok(Resolution::Committed { moved: ft("coinX", 300) }));

    assert_eq!(contract.get_stakes(&id("admin"), id("carol")), Ok(vec![]));
    assert_eq!(contract.get_stakes(&id("admin"), id("bob")), Ok(vec![]));
    assert_eq!(
        contract.get_stakes(&id("admin"), id("alice")),
        Ok(vec![(ft("coinX", 500), Some(id("P1")))])
    );
}

#[test]
fn test_delt_d_test_stake_pool() {
    let players = ["danny", "eugene", "fargo"];
    let tokens = |token_id: &str, token_id_2: &str| -> Vec<(String, Vec<StakeId>)> {
        vec![
            (id("danny"), vec![mt("bob", token_id, 1), ft("charlie", 500)]),
            (id("eugene"), vec![mt("bob", token_id_2, 1), ft("charlie", 1000)]),
            (id("fargo"), vec![ft("bob", 3000), ft("bob", 2000)]),
        ]
    };
    let mut stake_contract = Contract::new(id("charlie"), id("alice"), vec![]);
    assert_eq!(stake_contract.register(&id("charlie"), None), Ok(()));
    for player in players {
        assert_eq!(stake_contract.register(&id("charlie"), Some(id(player))), Ok(()));
    }
    let pool_id = "111".to_string();
    assert!(stake_contract
        .create_pool(&id("charlie"), pool_id.clone(), vec![id("danny"), id("eugene")], 0)
        .is_ok());
    assert!(stake_contract.get_pool(&pool_id).is_some());

    for (player, stakes) in tokens("token1", "token2") {
        for stake in stakes.iter() {
            assert_eq!(
                stake_contract.register_stake(&id("charlie"), stake.clone(), player.clone()),
                Ok(())
            );
            let staked = stake_contract.stake(
                &id("charlie"),
                stake.clone(),
                player.clone(),
                player.clone(),
                pool_id.clone(),
                Vec::new(),
            );
            if player == "fargo" {
                assert_eq!(staked, Err(StakeError::UnknownOutcome));
            } else {
                assert_eq!(staked, Ok(()));
            }
        }
    }
    assert_eq!(
        stake_contract.get_stakes(&id("charlie"), id("fargo")),
        Ok(vec![(ft("bob", 5000), None)])
    );

    assert_eq!(stake_contract.toggle_pool_active(&id("charlie"), pool_id.clone(), true), Ok(()));
    assert_eq!(
        stake_contract.assert_pool_result(&id("charlie"), pool_id.clone(), Some(id("danny"))),
        Ok(())
    );
    let requests = stake_contract.distribute_stakes(&id("charlie"), pool_id.clone()).unwrap();
    let moved: Vec<(StakeId, String, String)> = requests
        .iter()
        .map(|request| {
            (
                request.pending.stake_id.clone(),
                request.pending.staker_id.clone(),
                request.pending.receiver_id.clone(),
            )
        })
        .collect();
    assert_eq!(
        moved,
        vec![
            (mt("bob", "token2", 1), id("eugene"), id("charlie")),
            (ft("charlie", 1000), id("eugene"), id("charlie")),
        ]
    );
}
