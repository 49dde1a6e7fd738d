use delt_d::error::StakeError;
use delt_d::token::{BalanceQuery, StakeId, TokenType, TransferCall};

fn ft(contract: &str, balance: u128) -> StakeId {
    StakeId { contract_id: contract.to_string(), token: TokenType::FT { balance } }
}

fn mt(contract: &str, token_id: &str, balance: u128) -> StakeId {
    StakeId {
        contract_id: contract.to_string(),
        token: TokenType::MT { token_id: token_id.to_string(), balance },
    }
}

fn nft(contract: &str, token_id: &str) -> StakeId {
    StakeId {
        contract_id: contract.to_string(),
        token: TokenType::NFT { token_id: token_id.to_string() },
    }
}

#[test]
fn merge_adds_balances_of_one_slot() {
    assert_eq!(ft("coinX", 500).merge(&ft("coinX", 300)), Some(ft("coinX", 800)));
    assert_eq!(
        mt("items", "sword", 2).merge(&mt("items", "sword", 5)),
        Some(mt("items", "sword", 7))
    );
}

#[test]
fn merge_refuses_other_slots() {
    assert_eq!(ft("coinX", 500).merge(&ft("coinY", 300)), None);
    assert_eq!(ft("coinX", 500).merge(&mt("coinX", "sword", 300)), None);
    assert_eq!(mt("items", "sword", 2).merge(&mt("items", "shield", 5)), None);
}

#[test]
fn merge_refuses_overflow() {
    assert_eq!(ft("coinX", u128::MAX).merge(&ft("coinX", 1)), None);
    assert_eq!(ft("coinX", u128::MAX - 1).merge(&ft("coinX", 1)), Some(ft("coinX", u128::MAX)));
}

#[test]
fn merge_is_undefined_for_non_fungible_tokens() {
    assert_eq!(nft("art", "mona").merge(&nft("art", "mona")), None);
    assert_eq!(nft("art", "mona").merge(&ft("art", 1)), None);
}

#[test]
fn split_takes_from_the_balance() {
    assert_eq!(ft("coinX", 500).split(200), Some(ft("coinX", 300)));
    assert_eq!(ft("coinX", 500).split(500), Some(ft("coinX", 0)));
    assert_eq!(ft("coinX", 500).split(501), None);
    assert_eq!(mt("items", "sword", 7).split(7), Some(mt("items", "sword", 0)));
    assert_eq!(nft("art", "mona").split(0), None);
}

#[test]
fn add_and_remove_amount_are_checked() {
    let balance = TokenType::FT { balance: 10 };
    assert_eq!(balance.add_amount(5), Some(TokenType::FT { balance: 15 }));
    assert_eq!(balance.add_amount(u128::MAX), None);
    assert_eq!(balance.remove_amount(10), Some(TokenType::FT { balance: 0 }));
    assert_eq!(balance.remove_amount(11), None);
    let token = TokenType::NFT { token_id: "mona".to_string() };
    assert_eq!(token.add_amount(0), None);
    assert_eq!(token.remove_amount(0), None);
    let multi = TokenType::MT { token_id: "sword".to_string(), balance: 3 };
    assert_eq!(
        multi.add_amount(4),
        Some(TokenType::MT { token_id: "sword".to_string(), balance: 7 })
    );
    assert_eq!(
        multi.remove_amount(1),
        Some(TokenType::MT { token_id: "sword".to_string(), balance: 2 })
    );
}

#[test]
fn eq_type_compares_the_variant_only() {
    let balance = TokenType::FT { balance: 10 };
    let multi = TokenType::MT { token_id: "sword".to_string(), balance: 3 };
    let token = TokenType::NFT { token_id: "mona".to_string() };
    assert!(balance.eq_type(&TokenType::FT { balance: 99 }));
    assert!(multi.eq_type(&TokenType::MT { token_id: "shield".to_string(), balance: 0 }));
    assert!(token.eq_type(&TokenType::NFT { token_id: "lisa".to_string() }));
    assert!(!balance.eq_type(&multi));
    assert!(!multi.eq_type(&token));
    assert!(!token.eq_type(&balance));
}

#[test]
fn get_amount_is_none_for_non_fungible_tokens() {
    assert_eq!(TokenType::FT { balance: 10 }.get_amount(), Some(10));
    assert_eq!(TokenType::MT { token_id: "sword".to_string(), balance: 3 }.get_amount(), Some(3));
    assert_eq!(TokenType::NFT { token_id: "mona".to_string() }.get_amount(), None);
}

#[test]
fn same_slot_ignores_the_balance() {
    assert!(ft("coinX", 1).same_slot(&ft("coinX", 2)));
    assert!(!ft("coinX", 1).same_slot(&ft("coinY", 1)));
    assert!(mt("items", "sword", 1).same_slot(&mt("items", "sword", 9)));
    assert!(!mt("items", "sword", 1).same_slot(&mt("items", "shield", 1)));
    assert!(!ft("items", 1).same_slot(&mt("items", "sword", 1)));
    assert!(ft("coinX", 1).same(&ft("coinX", 1)));
    assert!(!ft("coinX", 1).same(&ft("coinX", 2)));
}

#[test]
fn transfer_of_a_whole_fungible_balance() {
    let call = ft("coinX", 500).transfer("alice".to_string(), "escrow".to_string(), None);
    assert_eq!(
        call,
        Ok(TransferCall {
            contract_id: "coinX".to_string(),
            receiver_id: "alice".to_string(),
            token: TokenType::FT { balance: 500 },
            memo: "Delt stake".to_string(),
            msg: "escrow".to_string(),
        })
    );
}

#[test]
fn transfer_of_a_part_of_a_balance() {
    let call = mt("items", "sword", 7).transfer("bob".to_string(), "escrow".to_string(), Some(3));
    assert_eq!(
        call,
        Ok(TransferCall {
            contract_id: "items".to_string(),
            receiver_id: "bob".to_string(),
            token: TokenType::MT { token_id: "sword".to_string(), balance: 3 },
            memo: "Delt Stake".to_string(),
            msg: "escrow".to_string(),
        })
    );
}

#[test]
fn transfer_above_the_balance_is_refused() {
    assert_eq!(
        ft("coinX", 500).transfer("alice".to_string(), "escrow".to_string(), Some(501)),
        Err(StakeError::InsufficientStakeBalance)
    );
    assert_eq!(
        mt("items", "sword", 7).transfer("alice".to_string(), "escrow".to_string(), Some(8)),
        Err(StakeError::InsufficientStakeBalance)
    );
    assert!(
        ft("coinX", 500).transfer("alice".to_string(), "escrow".to_string(), Some(500)).is_ok()
    );
}

#[test]
fn transfer_of_a_non_fungible_token_moves_it_whole() {
    let call = nft("art", "mona").transfer("carol".to_string(), "escrow".to_string(), Some(42));
    assert_eq!(
        call,
        Ok(TransferCall {
            contract_id: "art".to_string(),
            receiver_id: "carol".to_string(),
            token: TokenType::NFT { token_id: "mona".to_string() },
            memo: "Delt stake".to_string(),
            msg: "escrow".to_string(),
        })
    );
}

#[test]
fn verify_asks_the_question_that_fits_the_asset() {
    assert_eq!(
        nft("art", "mona").verify("alice".to_string()),
        BalanceQuery::NftToken { contract_id: "art".to_string(), token_id: "mona".to_string() }
    );
    assert_eq!(
        ft("coinX", 5).verify("alice".to_string()),
        BalanceQuery::FtBalanceOf {
            contract_id: "coinX".to_string(),
            account_id: "alice".to_string(),
        }
    );
    assert_eq!(
        mt("items", "sword", 5).verify("alice".to_string()),
        BalanceQuery::MtBalanceOf {
            contract_id: "items".to_string(),
            account_id: "alice".to_string(),
            token_id: "sword".to_string(),
        }
    );
}

#[test]
fn with_balance_keeps_the_slot() {
    assert_eq!(ft("coinX", 5).with_balance(9), ft("coinX", 9));
    assert_eq!(mt("items", "sword", 5).with_balance(0), mt("items", "sword", 0));
    assert_eq!(nft("art", "mona").with_balance(9), nft("art", "mona"));
}
