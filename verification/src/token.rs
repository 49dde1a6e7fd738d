//! Asset handles: one unit of deposited value and the contract that keeps it.

use vstd::prelude::*;

use crate::error::{result_view, StakeError, StakeErrorView};

verus! {

/// Identity of an account or of a contract.
pub type AccountId = String;

/// Identity of a token inside an asset contract.
pub type TokenId = String;

/// Name of a pool.
pub type PoolId = String;

/// The asset a handle stands for.
#[derive(Debug, PartialEq, Eq, Hash)]
pub enum TokenType {
    /// A non-fungible token. It has no balance and is never merged or split.
    NFT { token_id: TokenId },
    /// A fungible balance.
    FT { balance: u128 },
    /// A balance of one token of a multi-token contract.
    MT { token_id: TokenId, balance: u128 },
}

/// Mathematical value of a [`TokenType`].
pub enum TokenTypeView {
    NFT { token_id: Seq<char> },
    FT { balance: u128 },
    MT { token_id: Seq<char>, balance: u128 },
}

impl TokenTypeView {
    /// Whether both values are of the same variant.
    pub open spec fn same_kind(self, other: TokenTypeView) -> bool {
        match (self, other) {
            (TokenTypeView::NFT { .. }, TokenTypeView::NFT { .. }) => true,
            (TokenTypeView::FT { .. }, TokenTypeView::FT { .. }) => true,
            (TokenTypeView::MT { .. }, TokenTypeView::MT { .. }) => true,
            _ => false,
        }
    }

    /// The balance held, where the asset has one.
    pub open spec fn amount(self) -> Option<u128> {
        match self {
            TokenTypeView::NFT { .. } => None,
            TokenTypeView::FT { balance } => Some(balance),
            TokenTypeView::MT { balance, .. } => Some(balance),
        }
    }

    /// The balance held, counting an asset without balance as zero.
    pub open spec fn balance(self) -> int {
        match self.amount() {
            Some(balance) => balance as int,
            None => 0,
        }
    }

    /// The same asset holding `balance`. An asset without balance is left as it is.
    pub open spec fn with_balance(self, balance: u128) -> TokenTypeView {
        match self {
            TokenTypeView::NFT { token_id } => TokenTypeView::NFT { token_id },
            TokenTypeView::FT { .. } => TokenTypeView::FT { balance },
            TokenTypeView::MT { token_id, .. } => TokenTypeView::MT { token_id, balance },
        }
    }

    /// The asset after `amount` is added: defined for assets with a balance, as long as the sum
    /// is representable.
    pub open spec fn plus(self, amount: u128) -> Option<TokenTypeView> {
        match self.amount() {
            Some(balance) if balance + amount <= u128::MAX => Some(
                self.with_balance((balance + amount) as u128),
            ),
            _ => None,
        }
    }

    /// The asset after `amount` is taken away: defined for assets with a balance of at least
    /// `amount`.
    pub open spec fn minus(self, amount: u128) -> Option<TokenTypeView> {
        match self.amount() {
            Some(balance) if amount <= balance => Some(
                self.with_balance((balance - amount) as u128),
            ),
            _ => None,
        }
    }
}

impl View for TokenType {
    type V = TokenTypeView;

    open spec fn view(&self) -> TokenTypeView {
        match *self {
            TokenType::NFT { token_id } => TokenTypeView::NFT { token_id: token_id@ },
            TokenType::FT { balance } => TokenTypeView::FT { balance },
            TokenType::MT { token_id, balance } => TokenTypeView::MT {
                token_id: token_id@,
                balance,
            },
        }
    }
}

impl DeepView for TokenType {
    type V = TokenTypeView;

    open spec fn deep_view(&self) -> TokenTypeView {
        self@
    }
}

impl Clone for TokenType {
    fn clone(&self) -> (copy: Self)
        ensures
            copy == *self,
    {
        match self {
            TokenType::NFT { token_id } => TokenType::NFT { token_id: token_id.clone() },
            TokenType::FT { balance } => TokenType::FT { balance: *balance },
            TokenType::MT { token_id, balance } => TokenType::MT {
                token_id: token_id.clone(),
                balance: *balance,
            },
        }
    }
}

impl TokenType {
    /// Whether both assets are of the same variant, whatever they hold.
    pub fn eq_type(&self, other: &Self) -> (same: bool)
        ensures
            same == self@.same_kind(other@),
    {
        match self {
            TokenType::NFT { .. } => match other {
                TokenType::NFT { .. } => true,
                _ => false,
            },
            TokenType::FT { .. } => match other {
                TokenType::FT { .. } => true,
                _ => false,
            },
            TokenType::MT { .. } => match other {
                TokenType::MT { .. } => true,
                _ => false,
            },
        }
    }

    /// The balance held, where the asset has one.
    pub fn get_amount(&self) -> (amount: Option<u128>)
        ensures
            amount == self@.amount(),
    {
        match self {
            TokenType::NFT { .. } => None,
            TokenType::FT { balance } => Some(*balance),
            TokenType::MT { balance, .. } => Some(*balance),
        }
    }

    /// Whether both assets are equal, balance included.
    pub fn same(&self, other: &Self) -> (same: bool)
        ensures
            same == (self@ == other@),
    {
        match self {
            TokenType::NFT { token_id } => match other {
                TokenType::NFT { token_id: other_id } => *token_id == *other_id,
                _ => false,
            },
            TokenType::FT { balance } => match other {
                TokenType::FT { balance: other_balance } => *balance == *other_balance,
                _ => false,
            },
            TokenType::MT { token_id, balance } => match other {
                TokenType::MT { token_id: other_id, balance: other_balance } => *token_id
                    == *other_id && *balance == *other_balance,
                _ => false,
            },
        }
    }

    /// Adds `amount` to the balance. `None` for an asset without balance, and where the sum
    /// would overflow.
    pub fn add_amount(&self, amount: u128) -> (sum: Option<Self>)
        ensures
            sum.deep_view() == self@.plus(amount),
    {
        match self {
            TokenType::FT { balance } => match balance.checked_add(amount) {
                Some(new_balance) => Some(TokenType::FT { balance: new_balance }),
                None => None,
            },
            TokenType::MT { token_id, balance } => match balance.checked_add(amount) {
                Some(new_balance) => Some(
                    TokenType::MT { token_id: token_id.clone(), balance: new_balance },
                ),
                None => None,
            },
            _ => None,
        }
    }

    /// Takes `amount` from the balance. `None` for an asset without balance, and where
    /// `amount` exceeds the balance.
    pub fn remove_amount(&self, amount: u128) -> (rest: Option<Self>)
        ensures
            rest.deep_view() == self@.minus(amount),
    {
        match self {
            TokenType::FT { balance } => match balance.checked_sub(amount) {
                Some(new_balance) => Some(TokenType::FT { balance: new_balance }),
                None => None,
            },
            TokenType::MT { token_id, balance } => match balance.checked_sub(amount) {
                Some(new_balance) => Some(
                    TokenType::MT { token_id: token_id.clone(), balance: new_balance },
                ),
                None => None,
            },
            _ => None,
        }
    }
}

/// A handle on one unit of deposited value: the asset and the contract that keeps it.
#[derive(Debug, PartialEq, Eq, Hash)]
pub struct StakeId {
    pub contract_id: AccountId,
    pub token: TokenType,
}

/// Mathematical value of a [`StakeId`].
pub struct StakeIdView {
    pub contract_id: Seq<char>,
    pub token: TokenTypeView,
}

impl StakeIdView {
    /// Whether both handles name the same slot: the same contract and kind of asset and, for a
    /// multi-token balance, the same token. The balance is no part of a slot.
    pub open spec fn same_slot(self, other: StakeIdView) -> bool {
        &&& self.contract_id == other.contract_id
        &&& self.token.same_kind(other.token)
        &&& (self.token matches TokenTypeView::MT { token_id, .. } ==> other.token
            == (TokenTypeView::MT { token_id, balance: other.token->MT_balance }))
    }

    /// The balance held, where the asset has one.
    pub open spec fn amount(self) -> Option<u128> {
        self.token.amount()
    }

    /// The balance held, counting an asset without balance as zero.
    pub open spec fn balance(self) -> int {
        self.token.balance()
    }

    /// The same handle holding `balance`.
    pub open spec fn with_balance(self, balance: u128) -> StakeIdView {
        StakeIdView { contract_id: self.contract_id, token: self.token.with_balance(balance) }
    }

    /// Both handles as one: defined for two balances of one slot whose sum is representable.
    pub open spec fn merged(self, other: StakeIdView) -> Option<StakeIdView> {
        match (self.amount(), other.amount()) {
            (Some(a), Some(b)) if self.same_slot(other) && a + b <= u128::MAX => Some(
                self.with_balance((a + b) as u128),
            ),
            _ => None,
        }
    }

    /// What is left of the handle once `amount` is split off: defined for a balance of at least
    /// `amount`.
    pub open spec fn rest(self, amount: u128) -> Option<StakeIdView> {
        match self.amount() {
            Some(balance) if amount <= balance => Some(
                self.with_balance((balance - amount) as u128),
            ),
            _ => None,
        }
    }

    /// The amount that a transfer of `amount` moves: the whole balance where none is given.
    pub open spec fn transfer_amount(self, amount: Option<u128>) -> u128 {
        match (amount, self.amount()) {
            (Some(amount), _) => amount,
            (None, Some(balance)) => balance,
            (None, None) => 0,
        }
    }

    /// The call that moves `amount` of the handle to `receiver_id`, or why none is made: an
    /// amount above the registered balance is refused. A non-fungible token moves whole.
    pub open spec fn transfer_call(
        self,
        receiver_id: Seq<char>,
        msg: Seq<char>,
        amount: Option<u128>,
    ) -> Result<TransferCallView, StakeErrorView> {
        match self.amount() {
            Some(balance) if self.transfer_amount(amount) > balance => Err(
                StakeErrorView::InsufficientStakeBalance,
            ),
            Some(_) => Ok(
                TransferCallView {
                    contract_id: self.contract_id,
                    receiver_id,
                    token: self.token.with_balance(self.transfer_amount(amount)),
                    memo: transfer_memo(self.token),
                    msg,
                },
            ),
            None => Ok(
                TransferCallView {
                    contract_id: self.contract_id,
                    receiver_id,
                    token: self.token,
                    memo: transfer_memo(self.token),
                    msg,
                },
            ),
        }
    }

    /// The question that confirms the handle: who owns the token, or what `account_id` holds.
    pub open spec fn balance_query(self, account_id: Seq<char>) -> BalanceQueryView {
        match self.token {
            TokenTypeView::NFT { token_id } => BalanceQueryView::NftToken {
                contract_id: self.contract_id,
                token_id,
            },
            TokenTypeView::FT { .. } => BalanceQueryView::FtBalanceOf {
                contract_id: self.contract_id,
                account_id,
            },
            TokenTypeView::MT { token_id, .. } => BalanceQueryView::MtBalanceOf {
                contract_id: self.contract_id,
                account_id,
                token_id,
            },
        }
    }
}

/// The memo attached to a transfer of `token`.
pub open spec fn transfer_memo(token: TokenTypeView) -> Seq<char> {
    match token {
        TokenTypeView::MT { .. } => "Delt Stake"@,
        _ => "Delt stake"@,
    }
}

impl View for StakeId {
    type V = StakeIdView;

    open spec fn view(&self) -> StakeIdView {
        StakeIdView { contract_id: self.contract_id@, token: self.token@ }
    }
}

impl DeepView for StakeId {
    type V = StakeIdView;

    open spec fn deep_view(&self) -> StakeIdView {
        self@
    }
}

impl Clone for StakeId {
    fn clone(&self) -> (copy: Self)
        ensures
            copy == *self,
    {
        StakeId { contract_id: self.contract_id.clone(), token: self.token.clone() }
    }
}

/// A transfer that an asset contract is asked to perform.
#[derive(Debug, PartialEq, Eq)]
pub struct TransferCall {
    /// The asset contract to call.
    pub contract_id: AccountId,
    /// Who is to receive the asset.
    pub receiver_id: AccountId,
    /// What is to move: for a balance, the amount.
    pub token: TokenType,
    /// The memo shown with the transfer.
    pub memo: String,
    /// The message handed through to the receiver.
    pub msg: String,
}

/// Mathematical value of a [`TransferCall`].
pub struct TransferCallView {
    pub contract_id: Seq<char>,
    pub receiver_id: Seq<char>,
    pub token: TokenTypeView,
    pub memo: Seq<char>,
    pub msg: Seq<char>,
}

impl View for TransferCall {
    type V = TransferCallView;

    open spec fn view(&self) -> TransferCallView {
        TransferCallView {
            contract_id: self.contract_id@,
            receiver_id: self.receiver_id@,
            token: self.token@,
            memo: self.memo@,
            msg: self.msg@,
        }
    }
}

impl DeepView for TransferCall {
    type V = TransferCallView;

    open spec fn deep_view(&self) -> TransferCallView {
        self@
    }
}

/// A question put to an asset contract to confirm a handle.
#[derive(Debug, PartialEq, Eq)]
pub enum BalanceQuery {
    /// Who owns the token.
    NftToken { contract_id: AccountId, token_id: TokenId },
    /// The fungible balance of the account.
    FtBalanceOf { contract_id: AccountId, account_id: AccountId },
    /// The balance that the account holds of the token.
    MtBalanceOf { contract_id: AccountId, account_id: AccountId, token_id: TokenId },
}

/// Mathematical value of a [`BalanceQuery`].
pub enum BalanceQueryView {
    NftToken { contract_id: Seq<char>, token_id: Seq<char> },
    FtBalanceOf { contract_id: Seq<char>, account_id: Seq<char> },
    MtBalanceOf { contract_id: Seq<char>, account_id: Seq<char>, token_id: Seq<char> },
}

impl View for BalanceQuery {
    type V = BalanceQueryView;

    open spec fn view(&self) -> BalanceQueryView {
        match *self {
            BalanceQuery::NftToken { contract_id, token_id } => BalanceQueryView::NftToken {
                contract_id: contract_id@,
                token_id: token_id@,
            },
            BalanceQuery::FtBalanceOf { contract_id, account_id } => BalanceQueryView::FtBalanceOf {
                contract_id: contract_id@,
                account_id: account_id@,
            },
            BalanceQuery::MtBalanceOf {
                contract_id,
                account_id,
                token_id,
            } => BalanceQueryView::MtBalanceOf {
                contract_id: contract_id@,
                account_id: account_id@,
                token_id: token_id@,
            },
        }
    }
}

impl StakeId {
    /// Whether both handles are equal, balance included.
    pub fn same(&self, other: &Self) -> (same: bool)
        ensures
            same == (self@ == other@),
    {
        self.contract_id == other.contract_id && self.token.same(&other.token)
    }

    /// Whether both handles name the same slot.
    pub fn same_slot(&self, other: &Self) -> (same: bool)
        ensures
            same == self@.same_slot(other@),
    {
        if !(self.contract_id == other.contract_id) {
            return false;
        }
        match &self.token {
            TokenType::NFT { .. } => match &other.token {
                TokenType::NFT { .. } => true,
                _ => false,
            },
            TokenType::FT { .. } => match &other.token {
                TokenType::FT { .. } => true,
                _ => false,
            },
            TokenType::MT { token_id, .. } => match &other.token {
                TokenType::MT { token_id: other_id, .. } => *token_id == *other_id,
                _ => false,
            },
        }
    }

    /// Merges `other` into this handle. `None` unless both are balances of one slot whose sum
    /// is representable.
    pub fn merge(&self, other: &Self) -> (merged: Option<Self>)
        ensures
            merged.deep_view() == self@.merged(other@),
    {
        if !self.same_slot(other) {
            return None;
        }
        match other.token.get_amount() {
            Some(amount) => match self.token.add_amount(amount) {
                Some(token) => Some(StakeId { contract_id: self.contract_id.clone(), token }),
                None => None,
            },
            None => None,
        }
    }

    /// Splits `amount` off this handle and returns what is left. `None` where the handle has no
    /// balance or `amount` exceeds it.
    pub fn split(&self, amount: u128) -> (rest: Option<Self>)
        ensures
            rest.deep_view() == self@.rest(amount),
    {
        match self.token.remove_amount(amount) {
            Some(token) => Some(StakeId { contract_id: self.contract_id.clone(), token }),
            None => None,
        }
    }

    /// The same handle holding `balance`; a non-fungible token is copied as it is.
    pub fn with_balance(&self, balance: u128) -> (handle: Self)
        ensures
            handle@ == self@.with_balance(balance),
    {
        let token = match &self.token {
            TokenType::NFT { token_id } => TokenType::NFT { token_id: token_id.clone() },
            TokenType::FT { .. } => TokenType::FT { balance },
            TokenType::MT { token_id, .. } => TokenType::MT { token_id: token_id.clone(), balance },
        };
        StakeId { contract_id: self.contract_id.clone(), token }
    }

    /// Describes the transfer of `amount` of this handle (all of it where `amount` is `None`)
    /// to `receiver_id`. An amount above the registered balance is refused with
    /// `InsufficientStakeBalance`.
    pub fn transfer(&self, receiver_id: AccountId, msg: String, amount: Option<u128>) -> (call:
        Result<TransferCall, StakeError>)
        ensures
            result_view(call) == self@.transfer_call(receiver_id@, msg@, amount),
    {
        match &self.token {
            TokenType::NFT { token_id } => Ok(
                TransferCall {
                    contract_id: self.contract_id.clone(),
                    receiver_id,
                    token: TokenType::NFT { token_id: token_id.clone() },
                    memo: "Delt stake".to_owned(),
                    msg,
                },
            ),
            TokenType::FT { balance } => {
                let transfer_amount = match amount {
                    Some(amount) => amount,
                    None => *balance,
                };
                if transfer_amount > *balance {
                    return Err(StakeError::InsufficientStakeBalance);
                }
                Ok(
                    TransferCall {
                        contract_id: self.contract_id.clone(),
                        receiver_id,
                        token: TokenType::FT { balance: transfer_amount },
                        memo: "Delt stake".to_owned(),
                        msg,
                    },
                )
            },
            TokenType::MT { token_id, balance } => {
                let transfer_amount = match amount {
                    Some(amount) => amount,
                    None => *balance,
                };
                if transfer_amount > *balance {
                    return Err(StakeError::InsufficientStakeBalance);
                }
                Ok(
                    TransferCall {
                        contract_id: self.contract_id.clone(),
                        receiver_id,
                        token: TokenType::MT {
                            token_id: token_id.clone(),
                            balance: transfer_amount,
                        },
                        memo: "Delt Stake".to_owned(),
                        msg,
                    },
                )
            },
        }
    }

    /// Describes the question that confirms this handle: for a non-fungible token who owns it,
    /// for a balance what `account_id` holds.
    pub fn verify(&self, account_id: AccountId) -> (query: BalanceQuery)
        ensures
            query@ == self@.balance_query(account_id@),
    {
        match &self.token {
            TokenType::NFT { token_id } => BalanceQuery::NftToken {
                contract_id: self.contract_id.clone(),
                token_id: token_id.clone(),
            },
            TokenType::FT { .. } => BalanceQuery::FtBalanceOf {
                contract_id: self.contract_id.clone(),
                account_id,
            },
            TokenType::MT { token_id, .. } => BalanceQuery::MtBalanceOf {
                contract_id: self.contract_id.clone(),
                account_id,
                token_id: token_id.clone(),
            },
        }
    }
}

/// One stat among the attributes of a token.
#[derive(Debug, PartialEq, Eq)]
pub struct Stat {
    pub quality: String,
    pub tier: u64,
    pub value: u64,
}

impl Clone for Stat {
    fn clone(&self) -> (copy: Self)
        ensures
            copy == *self,
    {
        Stat { quality: self.quality.clone(), tier: self.tier, value: self.value }
    }
}

} // verus!
