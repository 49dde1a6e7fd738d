//! The contract: the engine behind its gate. Every entry point names its caller, and the
//! contract decides from the caller what it may do.

use vstd::prelude::*;

use crate::character::{registered, AccountManagement, AccountManagementView};
use crate::error::{steps_to, StakeError, StakeErrorView};
use crate::ledger::StakeEntryView;
use crate::pool::{pays_out, Payout, PayoutView, Pool, PoolView};
use crate::resolution::{
    json_amounts, parse_amounts, reported_unused, transfer_request, unused_amount,
    PendingTransfer, PendingTransferView, Resolution, TransferOutcome, TransferRequest,
    TransferRequestView,
};
use crate::staking::{owned_pools, pool_ids, pool_values, StakeManagement, StakeManagementView};
use crate::keyed::{keyed, well_keyed};
use crate::token::{
    AccountId, BalanceQuery, PoolId, StakeId, StakeIdView, TokenId, TokenType, TokenTypeView,
};

verus! {

/// Mathematical value of a [`Contract`].
#[verifier::ext_equal]
pub struct ContractView {
    /// The administrator.
    pub owner: Seq<char>,
    /// The account that the contract itself runs under.
    pub account_id: Seq<char>,
    /// The accounts that have registered a character.
    pub accounts: AccountManagementView,
    /// The engine.
    pub staking: StakeManagementView,
    /// The asset contracts whose deposit notifications are believed.
    pub asset_contracts: Set<Seq<char>>,
}

/// The stakes that a batch deposit of `caller` names: one balance per token.
pub open spec fn batch_stakes(
    caller: Seq<char>,
    token_ids: Seq<Seq<char>>,
    amounts: Seq<u128>,
) -> Seq<StakeIdView> {
    Seq::new(
        token_ids.len(),
        |i: int|
            StakeIdView {
                contract_id: caller,
                token: TokenTypeView::MT { token_id: token_ids[i], balance: amounts[i] },
            },
    )
}

impl ContractView {
    /// The contract of `owner` that runs under `account_id` and believes `asset_contracts`,
    /// before anything has happened.
    pub open spec fn fresh(
        owner: Seq<char>,
        account_id: Seq<char>,
        asset_contracts: Set<Seq<char>>,
    ) -> Self {
        ContractView {
            owner,
            account_id,
            accounts: Set::empty(),
            staking: StakeManagementView::fresh(account_id),
            asset_contracts,
        }
    }

    /// The same contract with the engine in the state that `staking` gives, if it gives one.
    pub open spec fn lift(self, staking: Result<StakeManagementView, StakeErrorView>) -> Result<
        Self,
        StakeErrorView,
    > {
        match staking {
            Ok(staking) => Ok(ContractView { staking, ..self }),
            Err(error) => Err(error),
        }
    }

    /// Whether `caller` is the administrator.
    pub open spec fn is_admin(self, caller: Seq<char>) -> bool {
        caller == self.owner
    }

    /// Registers `account_id`, or the caller where none is given: the account gets a ledger
    /// and a character.
    pub open spec fn register(self, caller: Seq<char>, account_id: Option<Seq<char>>) -> Result<
        Self,
        StakeErrorView,
    > {
        let id = match account_id {
            Some(id) => id,
            None => caller,
        };
        match self.staking.internal_register(id) {
            Err(error) => Err(error),
            Ok(staking) => match registered(self.accounts, id) {
                Err(error) => Err(error),
                Ok(accounts) => Ok(ContractView { staking, accounts, ..self }),
            },
        }
    }

    /// Creates a pool of the caller, who must be the administrator and have a character.
    pub open spec fn create_pool(
        self,
        caller: Seq<char>,
        pool_id: Seq<char>,
        pool_results: Seq<Seq<char>>,
        required_xp: u128,
    ) -> Result<Self, StakeErrorView> {
        if !self.is_admin(caller) {
            Err(StakeErrorView::Restricted)
        } else if !self.accounts.contains(caller) {
            Err(StakeErrorView::AccountNotRegistered)
        } else {
            self.lift(self.staking.create_pool(pool_id, caller, pool_results, required_xp))
        }
    }

    /// Stakes for `staker_id`, on the word of the administrator or of the staker. Where no
    /// receiver is named for an outcome, the administrator receives.
    pub open spec fn stake(
        self,
        caller: Seq<char>,
        stake_id: StakeIdView,
        staker_id: Seq<char>,
        pool_result: Seq<char>,
        pool_id: Seq<char>,
        receivers: Seq<(Seq<char>, Seq<char>)>,
    ) -> Result<Self, StakeErrorView> {
        if !self.is_admin(caller) && caller != staker_id {
            Err(StakeErrorView::Restricted)
        } else {
            self.lift(
                self.staking.stake(
                    stake_id,
                    staker_id,
                    pool_result,
                    pool_id,
                    receivers,
                    self.owner,
                ),
            )
        }
    }

    /// The transfer that hands `stake_id` back to `staker_id`, on the word of the
    /// administrator or of the staker.
    pub open spec fn unstake(
        self,
        caller: Seq<char>,
        stake_id: StakeIdView,
        staker_id: Seq<char>,
    ) -> Result<TransferRequestView, StakeErrorView> {
        if !self.is_admin(caller) && caller != staker_id {
            Err(StakeErrorView::Restricted)
        } else {
            match self.staking.unstake_source(stake_id, staker_id) {
                Err(error) => Err(error),
                Ok(source) => match transfer_request(
                    source.0,
                    staker_id,
                    staker_id,
                    self.account_id,
                    source.1,
                ) {
                    Some(request) => Ok(request),
                    None => Err(StakeErrorView::InsufficientStakeBalance),
                },
            }
        }
    }

    /// Registers a stake on the word of the administrator.
    pub open spec fn register_stake(
        self,
        caller: Seq<char>,
        stake_id: StakeIdView,
        staker_id: Seq<char>,
    ) -> Result<Self, StakeErrorView> {
        if !self.is_admin(caller) {
            Err(StakeErrorView::Restricted)
        } else {
            self.lift(self.staking.register_stake(stake_id, staker_id))
        }
    }

    /// Unregisters a stake on the word of the administrator.
    pub open spec fn unregister_stake(
        self,
        caller: Seq<char>,
        stake_id: StakeIdView,
        staker_id: Seq<char>,
        reregister: Option<Seq<char>>,
    ) -> Result<Self, StakeErrorView> {
        if !self.is_admin(caller) {
            Err(StakeErrorView::Restricted)
        } else {
            self.lift(self.staking.unregister_stake(stake_id, staker_id, reregister))
        }
    }

    /// The transfer of `amount` of the stake `stake_id` of `staker_id` to `receiver_id`, on the
    /// word of the administrator.
    pub open spec fn transfer_stake(
        self,
        caller: Seq<char>,
        stake_id: StakeIdView,
        staker_id: Seq<char>,
        receiver_id: Seq<char>,
        amount: Option<u128>,
    ) -> Result<TransferRequestView, StakeErrorView> {
        if !self.is_admin(caller) {
            Err(StakeErrorView::Restricted)
        } else {
            match transfer_request(stake_id, staker_id, receiver_id, self.account_id, amount) {
                Some(request) => Ok(request),
                None => Err(StakeErrorView::InsufficientStakeBalance),
            }
        }
    }

    /// Opens or closes the staking window of a pool on the word of the administrator.
    pub open spec fn toggle_pool_active(
        self,
        caller: Seq<char>,
        pool_id: Seq<char>,
        toggle: bool,
    ) -> Result<Self, StakeErrorView> {
        if !self.is_admin(caller) {
            Err(StakeErrorView::Restricted)
        } else {
            self.lift(self.staking.toggle_pool_active(pool_id, toggle))
        }
    }

    /// Sets the result of a pool on the word of the administrator.
    pub open spec fn assert_pool_result(
        self,
        caller: Seq<char>,
        pool_id: Seq<char>,
        pool_result: Option<Seq<char>>,
    ) -> Result<Self, StakeErrorView> {
        if !self.is_admin(caller) {
            Err(StakeErrorView::Restricted)
        } else {
            self.lift(self.staking.assert_pool_result(pool_id, pool_result))
        }
    }

    /// Resolves a pool on the word of the administrator.
    pub open spec fn distribute_stakes(self, caller: Seq<char>, pool_id: Seq<char>) -> Result<
        Self,
        StakeErrorView,
    > {
        if !self.is_admin(caller) {
            Err(StakeErrorView::Restricted)
        } else {
            self.lift(self.staking.distribute_stakes(pool_id))
        }
    }

    /// Removes a pool on the word of the administrator.
    pub open spec fn remove_pool(self, caller: Seq<char>, pool_id: Seq<char>) -> Result<
        Self,
        StakeErrorView,
    > {
        if !self.is_admin(caller) {
            Err(StakeErrorView::Restricted)
        } else {
            self.lift(self.staking.remove_pool(pool_id))
        }
    }

    /// Registers what the asset contract `caller` says `sender_id` has deposited with it. Only
    /// a trusted asset contract is believed.
    pub open spec fn deposit(
        self,
        caller: Seq<char>,
        sender_id: Seq<char>,
        token: TokenTypeView,
    ) -> Result<Self, StakeErrorView> {
        if !self.asset_contracts.contains(caller) {
            Err(StakeErrorView::UntrustedAssetContract)
        } else {
            self.lift(
                self.staking.register_stake(StakeIdView { contract_id: caller, token }, sender_id),
            )
        }
    }

    /// Registers a batch of balances that the asset contract `caller` says `sender_id` has
    /// deposited with it, all or none. Every token needs its amount.
    pub open spec fn deposit_batch(
        self,
        caller: Seq<char>,
        sender_id: Seq<char>,
        token_ids: Seq<Seq<char>>,
        amounts: Seq<u128>,
    ) -> Result<Self, StakeErrorView> {
        if !self.asset_contracts.contains(caller) {
            Err(StakeErrorView::UntrustedAssetContract)
        } else if token_ids.len() > amounts.len() {
            Err(StakeErrorView::BatchLengthMismatch)
        } else {
            self.lift(
                self.staking.register_stakes(batch_stakes(caller, token_ids, amounts), sender_id),
            )
        }
    }

    /// Ends the transfer `pending` once the asset contract has reported `unused` left over:
    /// only the contract itself may say so.
    pub open spec fn commit_transfer(
        self,
        caller: Seq<char>,
        pending: PendingTransferView,
        unused: Option<u128>,
    ) -> Result<Self, StakeErrorView> {
        if caller != self.account_id {
            Err(StakeErrorView::Restricted)
        } else {
            self.lift(self.staking.commit_transfer(pending, unused))
        }
    }

    /// Ends the transfer `pending` by what the asset contract reported. A failed call changes
    /// nothing; a successful one is committed with the unused amount that its answer names.
    pub open spec fn resolve_transfer(
        self,
        caller: Seq<char>,
        pending: PendingTransferView,
        outcome: TransferOutcome,
    ) -> Result<Self, StakeErrorView> {
        if caller != self.account_id {
            Err(StakeErrorView::Restricted)
        } else {
            match outcome {
                TransferOutcome::Failed => Ok(self),
                TransferOutcome::Successful(payload) => self.commit_transfer(
                    caller,
                    pending,
                    reported_unused(json_amounts(payload@)),
                ),
            }
        }
    }
}

/// The request that serves one edge of a payout graph, with `msg` handed through.
pub open spec fn payout_request(payout: PayoutView, msg: Seq<char>) -> Option<TransferRequestView> {
    transfer_request(payout.stake, payout.staker, payout.receiver, msg, None)
}

/// The payouts that a list of requests serves.
pub open spec fn payouts_of(requests: Seq<TransferRequestView>) -> Seq<PayoutView> {
    requests.map_values(|request: TransferRequestView| request.payout())
}

/// The contract: an administrator, the account it runs under, the registry of characters, the
/// engine, and the asset contracts that it believes.
#[derive(Debug, PartialEq, Eq)]
pub struct Contract {
    owner: AccountId,
    account_id: AccountId,
    accounts: AccountManagement,
    staking: StakeManagement,
    asset_contracts: Vec<AccountId>,
}

impl View for Contract {
    type V = ContractView;

    closed spec fn view(&self) -> ContractView {
        ContractView {
            owner: self.owner@,
            account_id: self.account_id@,
            accounts: self.accounts@,
            staking: self.staking@,
            asset_contracts: self.asset_contracts.deep_view().to_set(),
        }
    }
}

impl Clone for Contract {
    fn clone(&self) -> (copy: Self)
        ensures
            copy@ == self@,
            self.wf() ==> copy.wf(),
    {
        let mut asset_contracts: Vec<AccountId> = Vec::new();
        let mut i: usize = 0;
        while i < self.asset_contracts.len()
            invariant
                i <= self.asset_contracts.len(),
                asset_contracts@.len() == i,
                forall|j: int|
                    0 <= j < i ==> (#[trigger] asset_contracts@[j])@ == self.asset_contracts@[j]@,
            decreases self.asset_contracts.len() - i,
        {
            asset_contracts.push(self.asset_contracts[i].clone());
            i += 1;
        }
        assert(asset_contracts.deep_view() =~= self.asset_contracts.deep_view());
        Contract {
            owner: self.owner.clone(),
            account_id: self.account_id.clone(),
            accounts: self.accounts.clone(),
            staking: self.staking.clone(),
            asset_contracts,
        }
    }
}

impl Contract {
    /// Whether the contract is well formed: its engine is.
    pub closed spec fn wf(&self) -> bool {
        self.staking.wf()
    }

    /// A contract of `owner_id` that runs under `account_id` and believes the deposit
    /// notifications of `asset_contracts`.
    pub fn new(
        owner_id: AccountId,
        account_id: AccountId,
        asset_contracts: Vec<AccountId>,
    ) -> (contract: Self)
        ensures
            contract.wf(),
            contract@ == ContractView::fresh(
                owner_id@,
                account_id@,
                asset_contracts.deep_view().to_set(),
            ),
    {
        Contract {
            owner: owner_id,
            staking: StakeManagement::new(account_id.clone()),
            account_id,
            accounts: AccountManagement::new(),
            asset_contracts,
        }
    }

    /// A contract made of its parts, as when a contract that was written down is read back.
    pub fn from_parts(
        owner_id: AccountId,
        account_id: AccountId,
        accounts: AccountManagement,
        staking: StakeManagement,
        asset_contracts: Vec<AccountId>,
    ) -> (contract: Self)
        requires
            staking.wf(),
        ensures
            contract.wf(),
            contract@ == (ContractView {
                owner: owner_id@,
                account_id: account_id@,
                accounts: accounts@,
                staking: staking@,
                asset_contracts: asset_contracts.deep_view().to_set(),
            }),
    {
        Contract { owner: owner_id, account_id, accounts, staking, asset_contracts }
    }

    /// The registry of characters.
    pub fn accounts(&self) -> (accounts: &AccountManagement)
        ensures
            accounts@ == self@.accounts,
    {
        &self.accounts
    }

    /// The engine.
    pub fn staking(&self) -> (staking: &StakeManagement)
        ensures
            staking@ == self@.staking,
            self.wf() ==> staking.wf(),
    {
        &self.staking
    }

    /// The asset contracts whose deposit notifications are believed.
    pub fn asset_contracts(&self) -> (asset_contracts: &Vec<AccountId>)
        ensures
            asset_contracts.deep_view().to_set() == self@.asset_contracts,
    {
        &self.asset_contracts
    }

    /// Registers `account_id`, or the caller where none is given: the account gets an empty
    /// ledger and a character. An account that has either is refused with
    /// `AccountAlreadyRegistered`.
    pub fn register(&mut self, caller: &AccountId, account_id: Option<AccountId>) -> (done: Result<
        (),
        StakeError,
    >)
        requires
            old(self).wf(),
        ensures
            final(self).wf(),
            steps_to(
                old(self)@,
                final(self)@,
                done,
                old(self)@.register(caller@, account_id.deep_view()),
            ),
    {
        let id = match account_id {
            Some(id) => id,
            None => caller.clone(),
        };
        if self.staking.is_registered(&id) || self.accounts.is_registered(&id) {
            return Err(StakeError::AccountAlreadyRegistered);
        }
        match self.staking.internal_register(&id) {
            Ok(()) => self.accounts.internal_register(&id),
            Err(error) => Err(error),
        }
    }

    /// The administrator.
    pub fn owner(&self) -> (owner: &AccountId)
        ensures
            owner@ == self@.owner,
    {
        &self.owner
    }

    /// The account that the contract runs under.
    pub fn account_id(&self) -> (account_id: &AccountId)
        ensures
            account_id@ == self@.account_id,
    {
        &self.account_id
    }

    /// Whether `account_id` has registered a character.
    pub fn is_registered(&self, account_id: &AccountId) -> (registered: bool)
        ensures
            registered == self@.accounts.contains(account_id@),
    {
        self.accounts.is_registered(account_id)
    }

    /// Whether the deposit notifications of `contract_id` are believed.
    pub fn is_trusted(&self, contract_id: &AccountId) -> (trusted: bool)
        ensures
            trusted == self@.asset_contracts.contains(contract_id@),
    {
        let mut i: usize = 0;
        while i < self.asset_contracts.len()
            invariant
                i <= self.asset_contracts.len(),
                forall|j: int|
                    0 <= j < i ==> #[trigger] self.asset_contracts.deep_view()[j] != contract_id@,
            decreases self.asset_contracts.len() - i,
        {
            if self.asset_contracts[i] == *contract_id {
                assert(self.asset_contracts.deep_view()[i as int] == contract_id@);
                return true;
            }
            i += 1;
        }
        false
    }

    /// The pool `pool_id`, if there is one.
    pub fn get_pool(&self, pool_id: &PoolId) -> (pool: Option<&Pool>)
        requires
            self.wf(),
        ensures
            match pool {
                Some(pool) => self@.staking.stake_pools.dom().contains(pool_id@) && pool@
                    == self@.staking.stake_pools[pool_id@],
                None => !self@.staking.stake_pools.dom().contains(pool_id@),
            },
    {
        self.staking.get_pool(pool_id)
    }

    /// Ends the transfer `pending` that the asset contract has confirmed with `unused` left
    /// over. Only the contract itself may say so: any other caller is refused with
    /// `Restricted`. The transfer is committed as [`StakeManagement::commit_transfer`] says.
    pub fn commit_transfer(
        &mut self,
        caller: &AccountId,
        pending: &PendingTransfer,
        unused: Option<u128>,
    ) -> (done: Result<Resolution, StakeError>)
        requires
            old(self).wf(),
        ensures
            final(self).wf(),
            steps_to(
                old(self)@,
                final(self)@,
                done,
                old(self)@.commit_transfer(caller@, pending@, unused),
            ),
            done matches Ok(resolution) ==> resolution is Committed,
    {
        if !(*caller == self.account_id) {
            return Err(StakeError::Restricted);
        }
        self.staking.commit_transfer(pending, unused)
    }

    /// Turns what a pool owes into the transfers that pay it.
    fn requests_for(&self, payouts: Vec<Payout>) -> (requests: Vec<TransferRequest>)
        ensures
            payouts_of(requests.deep_view()) == payouts.deep_view(),
            forall|i: int|
                0 <= i < requests@.len() ==> payout_request(
                    (#[trigger] requests.deep_view()[i]).payout(),
                    self@.account_id,
                ) == Some(requests.deep_view()[i]),
    {
        let mut requests: Vec<TransferRequest> = Vec::new();
        let mut payouts = payouts;
        let ghost owed = payouts.deep_view();
        let mut i: usize = 0;
        while i < payouts.len()
            invariant
                i <= payouts.len(),
                payouts.deep_view() == owed,
                requests@.len() == i,
                forall|j: int|
                    0 <= j < i ==> (#[trigger] requests.deep_view()[j]).payout() == owed[j],
                forall|j: int|
                    0 <= j < i ==> payout_request(
                        (#[trigger] requests.deep_view()[j]).payout(),
                        self@.account_id,
                    ) == Some(requests.deep_view()[j]),
            decreases payouts.len() - i,
        {
            let stake_id = payouts[i].stake.clone();
            let staker_id = payouts[i].staker.clone();
            let receiver_id = payouts[i].receiver.clone();
            let ghost before = requests.deep_view();
            match stake_id.transfer(receiver_id.clone(), self.account_id.clone(), None) {
                Ok(call) => {
                    let request = TransferRequest {
                        pending: PendingTransfer { stake_id, staker_id, receiver_id, amount: None },
                        call,
                    };
                    requests.push(request);
                    proof {
                        assert(requests.deep_view() =~= before.push(request@));
                    }
                },
                Err(_) => {
                    assert(false);
                },
            }
            i += 1;
        }
        proof {
            assert(payouts_of(requests.deep_view()) =~= owed);
        }
        requests
    }
}

/// The staking surface of the contract.
pub trait Staking {
    /// Whether the value is fit to be worked on.
    spec fn valid(&self) -> bool;

    /// Creates the pool `pool_id` with the outcomes `pool_results` for the caller, and returns
    /// a copy of it.
    fn create_pool(
        &mut self,
        caller: &AccountId,
        pool_id: PoolId,
        pool_results: Vec<AccountId>,
        required_xp: u128,
    ) -> (created: Result<Pool, StakeError>)
        requires
            old(self).valid(),
        ensures
            final(self).valid(),
    ;

    /// Stakes `stake_id` of `staker_id` on the outcome `pool_result` of the pool `pool_id`,
    /// with `receivers` naming who receives the stake under which other outcome.
    fn stake(
        &mut self,
        caller: &AccountId,
        stake_id: StakeId,
        staker_id: AccountId,
        pool_result: AccountId,
        pool_id: PoolId,
        receivers: Vec<(AccountId, AccountId)>,
    ) -> (done: Result<(), StakeError>)
        requires
            old(self).valid(),
        ensures
            final(self).valid(),
    ;

    /// Asks for the transfer that hands `stake_id` back to `staker_id`.
    fn unstake(&self, caller: &AccountId, stake_id: StakeId, staker_id: AccountId) -> (request:
        Result<TransferRequest, StakeError>)
        requires
            self.valid(),
    ;

    /// Registers `stake_id` in the ledger of `staker_id`.
    fn register_stake(
        &mut self,
        caller: &AccountId,
        stake_id: StakeId,
        staker_id: AccountId,
    ) -> (done: Result<(), StakeError>)
        requires
            old(self).valid(),
        ensures
            final(self).valid(),
    ;

    /// Unregisters `stake_id` from the ledger of `staker_id` and, where `reregister` names an
    /// account, registers it there.
    fn unregister_stake(
        &mut self,
        caller: &AccountId,
        stake_id: StakeId,
        staker_id: AccountId,
        reregister: Option<AccountId>,
    ) -> (done: Result<(), StakeError>)
        requires
            old(self).valid(),
        ensures
            final(self).valid(),
    ;

    /// Asks for the transfer of `amount` of the stake `stake_id` of `staker_id` to
    /// `receiver_id`.
    fn transfer_stake(
        &self,
        caller: &AccountId,
        stake_id: StakeId,
        staker_id: AccountId,
        receiver_id: AccountId,
        amount: Option<u128>,
    ) -> (request: Result<TransferRequest, StakeError>)
        requires
            self.valid(),
    ;

    /// The stakes of `staker_id`, each with the pool it is bound to.
    fn get_stakes(&self, caller: &AccountId, staker_id: AccountId) -> (stakes: Result<
        Vec<(StakeId, Option<PoolId>)>,
        StakeError,
    >)
        requires
            self.valid(),
    ;

    /// The question that confirms `stake_id`, put for `check_id` or for the contract itself.
    fn verify_stake(&self, stake_id: StakeId, check_id: Option<AccountId>) -> (query: BalanceQuery)
        requires
            self.valid(),
    ;

    /// The pools that `owner` owns, or all pools.
    fn get_pools(&self, caller: &AccountId, owner: Option<AccountId>) -> (pools: Result<
        Vec<(PoolId, Pool)>,
        StakeError,
    >)
        requires
            self.valid(),
    ;

    /// Opens or closes the staking window of the pool `pool_id`.
    fn toggle_pool_active(&mut self, caller: &AccountId, pool_id: PoolId, toggle: bool) -> (done:
        Result<(), StakeError>)
        requires
            old(self).valid(),
        ensures
            final(self).valid(),
    ;

    /// Sets the result of the pool `pool_id`.
    fn assert_pool_result(
        &mut self,
        caller: &AccountId,
        pool_id: PoolId,
        pool_result: Option<AccountId>,
    ) -> (done: Result<(), StakeError>)
        requires
            old(self).valid(),
        ensures
            final(self).valid(),
    ;

    /// Resolves the pool `pool_id` and asks for the transfers that pay what it owes.
    fn distribute_stakes(&mut self, caller: &AccountId, pool_id: PoolId) -> (requests: Result<
        Vec<TransferRequest>,
        StakeError,
    >)
        requires
            old(self).valid(),
        ensures
            final(self).valid(),
    ;

    /// Removes the pool `pool_id`.
    fn remove_pool(&mut self, caller: &AccountId, pool_id: PoolId) -> (done: Result<(), StakeError>)
        requires
            old(self).valid(),
        ensures
            final(self).valid(),
    ;
}

impl Staking for Contract {
    open spec fn valid(&self) -> bool {
        self.wf()
    }

    /// The caller must be the administrator (`Restricted`) and have a character
    /// (`AccountNotRegistered`); the pool is then created as
    /// [`StakeManagement::create_pool`] says, owned by the caller.
    fn create_pool(
        &mut self,
        caller: &AccountId,
        pool_id: PoolId,
        pool_results: Vec<AccountId>,
        required_xp: u128,
    ) -> (created: Result<Pool, StakeError>)
        ensures
            steps_to(
                old(self)@,
                final(self)@,
                created,
                old(self)@.create_pool(caller@, pool_id@, pool_results.deep_view(), required_xp),
            ),
            created matches Ok(pool) ==> pool@ == PoolView::fresh(
                caller@,
                pool_results.deep_view(),
                required_xp,
            ),
    {
        if !(*caller == self.owner) {
            return Err(StakeError::Restricted);
        }
        if !self.accounts.is_registered(caller) {
            return Err(StakeError::AccountNotRegistered);
        }
        self.staking.create_pool(pool_id, caller.clone(), pool_results, required_xp)
    }

    /// The caller must be the administrator or the staker (`Restricted`); the stake is then
    /// made as [`StakeManagement::stake`] says, with the administrator as the receiver under
    /// every outcome for which `receivers` names none.
    fn stake(
        &mut self,
        caller: &AccountId,
        stake_id: StakeId,
        staker_id: AccountId,
        pool_result: AccountId,
        pool_id: PoolId,
        receivers: Vec<(AccountId, AccountId)>,
    ) -> (done: Result<(), StakeError>)
        ensures
            steps_to(
                old(self)@,
                final(self)@,
                done,
                old(self)@.stake(
                    caller@,
                    stake_id@,
                    staker_id@,
                    pool_result@,
                    pool_id@,
                    receivers.deep_view(),
                ),
            ),
    {
        if !(*caller == self.owner || *caller == staker_id) {
            return Err(StakeError::Restricted);
        }
        self.staking.stake(&stake_id, &staker_id, &pool_result, &pool_id, &receivers, &self.owner)
    }

    /// The caller must be the administrator or the staker (`Restricted`). The asset is looked
    /// up as [`Ledger::unstake_source`](crate::ledger::Ledger::unstake_source) says, and the
    /// request moves it to the staker, with the account of the contract as the message. The
    /// ledger changes when the transfer is resolved.
    fn unstake(&self, caller: &AccountId, stake_id: StakeId, staker_id: AccountId) -> (request:
        Result<TransferRequest, StakeError>)
        ensures
            match self@.unstake(caller@, stake_id@, staker_id@) {
                Ok(expected) => request matches Ok(found) && found@ == expected,
                Err(error) => request matches Err(e) && e@ == error,
            },
    {
        if !(*caller == self.owner || *caller == staker_id) {
            return Err(StakeError::Restricted);
        }
        let (source, amount) = match self.staking.unstake_source(&stake_id, &staker_id) {
            Ok(source) => source,
            Err(error) => {
                return Err(error);
            },
        };
        match source.transfer(staker_id.clone(), self.account_id.clone(), amount) {
            Ok(call) => Ok(
                TransferRequest {
                    pending: PendingTransfer {
                        stake_id: source,
                        staker_id: staker_id.clone(),
                        receiver_id: staker_id,
                        amount,
                    },
                    call,
                },
            ),
            Err(error) => Err(error),
        }
    }

    /// The caller must be the administrator (`Restricted`); the stake is then registered as
    /// [`StakeManagement::register_stake`] says.
    fn register_stake(
        &mut self,
        caller: &AccountId,
        stake_id: StakeId,
        staker_id: AccountId,
    ) -> (done: Result<(), StakeError>)
        ensures
            steps_to(
                old(self)@,
                final(self)@,
                done,
                old(self)@.register_stake(caller@, stake_id@, staker_id@),
            ),
    {
        if !(*caller == self.owner) {
            return Err(StakeError::Restricted);
        }
        self.staking.register_stake(stake_id, &staker_id)
    }

    /// The caller must be the administrator (`Restricted`); the stake is then unregistered as
    /// [`StakeManagement::unregister_stake`] says.
    fn unregister_stake(
        &mut self,
        caller: &AccountId,
        stake_id: StakeId,
        staker_id: AccountId,
        reregister: Option<AccountId>,
    ) -> (done: Result<(), StakeError>)
        ensures
            steps_to(
                old(self)@,
                final(self)@,
                done,
                old(self)@.unregister_stake(
                    caller@,
                    stake_id@,
                    staker_id@,
                    reregister.deep_view(),
                ),
            ),
    {
        if !(*caller == self.owner) {
            return Err(StakeError::Restricted);
        }
        self.staking.unregister_stake(&stake_id, &staker_id, reregister)
    }

    /// The caller must be the administrator (`Restricted`). The request moves `amount` of the
    /// handle, all of it where none is given, to `receiver_id`, with the account of the
    /// contract as the message; an amount above the balance of the handle is refused with
    /// `InsufficientStakeBalance`. The ledger of `staker_id` changes when the transfer is
    /// resolved.
    fn transfer_stake(
        &self,
        caller: &AccountId,
        stake_id: StakeId,
        staker_id: AccountId,
        receiver_id: AccountId,
        amount: Option<u128>,
    ) -> (request: Result<TransferRequest, StakeError>)
        ensures
            match self@.transfer_stake(caller@, stake_id@, staker_id@, receiver_id@, amount) {
                Ok(expected) => request matches Ok(found) && found@ == expected,
                Err(error) => request matches Err(e) && e@ == error,
            },
    {
        if !(*caller == self.owner) {
            return Err(StakeError::Restricted);
        }
        match stake_id.transfer(receiver_id.clone(), self.account_id.clone(), amount) {
            Ok(call) => Ok(
                TransferRequest {
                    pending: PendingTransfer { stake_id, staker_id, receiver_id, amount },
                    call,
                },
            ),
            Err(error) => Err(error),
        }
    }

    /// The caller must be the administrator (`Restricted`). An account without ledger is
    /// refused with `NoStakesForAccount`; a ledger without stakes gives an empty list.
    fn get_stakes(&self, caller: &AccountId, staker_id: AccountId) -> (stakes: Result<
        Vec<(StakeId, Option<PoolId>)>,
        StakeError,
    >)
        ensures
            match stakes {
                Ok(stakes) => self@.is_admin(caller@) && self@.staking.stakes.dom().contains(
                    staker_id@,
                ) && stakes.deep_view() == self@.staking.stakes[staker_id@].map_values(
                    |entry: StakeEntryView| (entry.stake, entry.pool),
                ),
                Err(error) => if self@.is_admin(caller@) {
                    !self@.staking.stakes.dom().contains(staker_id@) && error
                        == StakeError::NoStakesForAccount
                } else {
                    error == StakeError::Restricted
                },
            },
    {
        if !(*caller == self.owner) {
            return Err(StakeError::Restricted);
        }
        self.staking.get_stakes(&staker_id)
    }

    /// The question is that of [`StakeId::verify`], put for `check_id` or, where none is
    /// given, for the account of the contract.
    fn verify_stake(&self, stake_id: StakeId, check_id: Option<AccountId>) -> (query: BalanceQuery)
        ensures
            query@ == stake_id@.balance_query(
                match check_id {
                    Some(check_id) => check_id@,
                    None => self@.account_id,
                },
            ),
    {
        let account_id = match check_id {
            Some(check_id) => check_id,
            None => self.account_id.clone(),
        };
        stake_id.verify(account_id)
    }

    /// The caller must be the administrator (`Restricted`). The list holds each pool that
    /// `owner` owns once, under its id; every pool where no owner is given.
    fn get_pools(&self, caller: &AccountId, owner: Option<AccountId>) -> (pools: Result<
        Vec<(PoolId, Pool)>,
        StakeError,
    >)
        ensures
            match pools {
                Ok(pools) => self@.is_admin(caller@) && well_keyed(
                    pool_ids(pools.deep_view()),
                    pool_values(pools.deep_view()),
                ) && keyed(pool_ids(pools.deep_view()), pool_values(pools.deep_view()))
                    == owned_pools(self@.staking.stake_pools, owner.deep_view()),
                Err(error) => !self@.is_admin(caller@) && error == StakeError::Restricted,
            },
    {
        if !(*caller == self.owner) {
            return Err(StakeError::Restricted);
        }
        Ok(self.staking.internal_get_pools(&owner))
    }

    /// The caller must be the administrator (`Restricted`); the window is then set as
    /// [`StakeManagement::toggle_pool_active`] says.
    fn toggle_pool_active(&mut self, caller: &AccountId, pool_id: PoolId, toggle: bool) -> (done:
        Result<(), StakeError>)
        ensures
            steps_to(
                old(self)@,
                final(self)@,
                done,
                old(self)@.toggle_pool_active(caller@, pool_id@, toggle),
            ),
    {
        if !(*caller == self.owner) {
            return Err(StakeError::Restricted);
        }
        self.staking.toggle_pool_active(&pool_id, toggle)
    }

    /// The caller must be the administrator (`Restricted`); the result is then set as
    /// [`StakeManagement::assert_pool_result`] says.
    fn assert_pool_result(
        &mut self,
        caller: &AccountId,
        pool_id: PoolId,
        pool_result: Option<AccountId>,
    ) -> (done: Result<(), StakeError>)
        ensures
            steps_to(
                old(self)@,
                final(self)@,
                done,
                old(self)@.assert_pool_result(caller@, pool_id@, pool_result.deep_view()),
            ),
    {
        if !(*caller == self.owner) {
            return Err(StakeError::Restricted);
        }
        self.staking.assert_pool_result(&pool_id, pool_result)
    }

    /// The caller must be the administrator (`Restricted`); the pool is then resolved as
    /// [`StakeManagement::distribute_stakes`] says. There is one request for every reward owed
    /// under the winning outcome: it moves the whole stake from the staker who owes it to the
    /// receiver, with the account of the contract as the message.
    fn distribute_stakes(&mut self, caller: &AccountId, pool_id: PoolId) -> (requests: Result<
        Vec<TransferRequest>,
        StakeError,
    >)
        ensures
            steps_to(
                old(self)@,
                final(self)@,
                requests,
                old(self)@.distribute_stakes(caller@, pool_id@),
            ),
            requests matches Ok(requests) ==> {
                &&& pays_out(payouts_of(requests.deep_view()), old(self)@.staking.owed(pool_id@))
                &&& forall|i: int|
                    0 <= i < requests@.len() ==> payout_request(
                        (#[trigger] requests.deep_view()[i]).payout(),
                        old(self)@.account_id,
                    ) == Some(requests.deep_view()[i])
            },
    {
        if !(*caller == self.owner) {
            return Err(StakeError::Restricted);
        }
        match self.staking.distribute_stakes(&pool_id) {
            Ok(payouts) => Ok(self.requests_for(payouts)),
            Err(error) => Err(error),
        }
    }

    /// The caller must be the administrator (`Restricted`); the pool is then removed as
    /// [`StakeManagement::remove_pool`] says: only once it is resolved (`PoolUnresolved`) and
    /// no ledger entry is bound to it (`StakesStillBound`).
    fn remove_pool(&mut self, caller: &AccountId, pool_id: PoolId) -> (done: Result<(), StakeError>)
        ensures
            steps_to(
                old(self)@,
                final(self)@,
                done,
                old(self)@.remove_pool(caller@, pool_id@),
            ),
    {
        if !(*caller == self.owner) {
            return Err(StakeError::Restricted);
        }
        self.staking.remove_pool(&pool_id)
    }
}

/// The surface that asset contracts and the contract itself call: deposit notifications, and
/// the acknowledgement of a transfer.
pub trait StakeResolver: Staking {
    /// Takes note that `sender_id` has deposited `amount` with the fungible token contract
    /// `caller`.
    fn ft_on_transfer(
        &mut self,
        caller: &AccountId,
        sender_id: AccountId,
        amount: u128,
        msg: String,
    ) -> (done: Result<(), StakeError>)
        requires
            old(self).valid(),
        ensures
            final(self).valid(),
    ;

    /// Takes note that `sender_id` has deposited the token `token_id` with the non-fungible
    /// token contract `caller`.
    fn nft_on_transfer(
        &mut self,
        caller: &AccountId,
        sender_id: AccountId,
        previous_owner_id: AccountId,
        token_id: TokenId,
        msg: String,
    ) -> (done: Result<(), StakeError>)
        requires
            old(self).valid(),
        ensures
            final(self).valid(),
    ;

    /// Takes note that `sender_id` has deposited `amounts` of `token_ids` with the multi-token
    /// contract `caller`.
    fn mt_on_transfer(
        &mut self,
        caller: &AccountId,
        sender_id: AccountId,
        previous_owner_ids: Vec<AccountId>,
        token_ids: Vec<TokenId>,
        amounts: Vec<u128>,
        msg: String,
    ) -> (done: Result<(), StakeError>)
        requires
            old(self).valid(),
        ensures
            final(self).valid(),
    ;

    /// Ends the transfer `pending` by what the asset contract reported of it.
    fn resolve_transfer(
        &mut self,
        caller: &AccountId,
        pending: PendingTransfer,
        outcome: TransferOutcome,
    ) -> (done: Result<Resolution, StakeError>)
        requires
            old(self).valid(),
        ensures
            final(self).valid(),
    ;
}

impl StakeResolver for Contract {
    /// The caller must be a trusted asset contract (`UntrustedAssetContract`); a fungible
    /// balance of `amount` with that contract is then registered for `sender_id` as
    /// [`StakeManagement::register_stake`] says.
    fn ft_on_transfer(
        &mut self,
        caller: &AccountId,
        sender_id: AccountId,
        amount: u128,
        _msg: String,
    ) -> (done: Result<(), StakeError>)
        ensures
            steps_to(
                old(self)@,
                final(self)@,
                done,
                old(self)@.deposit(caller@, sender_id@, TokenTypeView::FT { balance: amount }),
            ),
    {
        if !self.is_trusted(caller) {
            return Err(StakeError::UntrustedAssetContract);
        }
        self.staking.register_stake(
            StakeId { contract_id: caller.clone(), token: TokenType::FT { balance: amount } },
            &sender_id,
        )
    }

    /// The caller must be a trusted asset contract (`UntrustedAssetContract`); the token
    /// `token_id` of that contract is then registered for `sender_id` as
    /// [`StakeManagement::register_stake`] says.
    fn nft_on_transfer(
        &mut self,
        caller: &AccountId,
        sender_id: AccountId,
        _previous_owner_id: AccountId,
        token_id: TokenId,
        _msg: String,
    ) -> (done: Result<(), StakeError>)
        ensures
            steps_to(
                old(self)@,
                final(self)@,
                done,
                old(self)@.deposit(caller@, sender_id@, TokenTypeView::NFT { token_id: token_id@ }),
            ),
    {
        if !self.is_trusted(caller) {
            return Err(StakeError::UntrustedAssetContract);
        }
        self.staking.register_stake(
            StakeId { contract_id: caller.clone(), token: TokenType::NFT { token_id } },
            &sender_id,
        )
    }

    /// The caller must be a trusted asset contract (`UntrustedAssetContract`), and every token
    /// must have its amount (`BatchLengthMismatch`). One balance per token is then registered
    /// for `sender_id`, all or none, as [`StakeManagement::register_stakes`] says.
    fn mt_on_transfer(
        &mut self,
        caller: &AccountId,
        sender_id: AccountId,
        _previous_owner_ids: Vec<AccountId>,
        token_ids: Vec<TokenId>,
        amounts: Vec<u128>,
        _msg: String,
    ) -> (done: Result<(), StakeError>)
        ensures
            steps_to(
                old(self)@,
                final(self)@,
                done,
                old(self)@.deposit_batch(
                    caller@,
                    sender_id@,
                    token_ids.deep_view(),
                    amounts.deep_view(),
                ),
            ),
    {
        if !self.is_trusted(caller) {
            return Err(StakeError::UntrustedAssetContract);
        }
        if token_ids.len() > amounts.len() {
            return Err(StakeError::BatchLengthMismatch);
        }
        let mut stakes: Vec<StakeId> = Vec::new();
        let mut i: usize = 0;
        while i < token_ids.len()
            invariant
                i <= token_ids.len(),
                token_ids.len() <= amounts.len(),
                stakes@.len() == i,
                forall|j: int|
                    0 <= j < i ==> #[trigger] stakes.deep_view()[j] == batch_stakes(
                        caller@,
                        token_ids.deep_view(),
                        amounts.deep_view(),
                    )[j],
            decreases token_ids.len() - i,
        {
            let ghost before = stakes.deep_view();
            let stake = StakeId {
                contract_id: caller.clone(),
                token: TokenType::MT { token_id: token_ids[i].clone(), balance: amounts[i] },
            };
            stakes.push(stake);
            proof {
                assert(stakes.deep_view() =~= before.push(stake@));
            }
            i += 1;
        }
        proof {
            assert(stakes.deep_view() =~= batch_stakes(
                caller@,
                token_ids.deep_view(),
                amounts.deep_view(),
            ));
        }
        self.staking.register_stakes(&stakes, &sender_id)
    }

    /// The caller must be the contract itself (`Restricted`). A failed call is rolled back by
    /// leaving everything as it is. A successful call is committed as
    /// [`Contract::commit_transfer`] says, with the unused amount that the answer reports: the
    /// first of the amounts that it lists, and none where it is no list of amounts.
    fn resolve_transfer(
        &mut self,
        caller: &AccountId,
        pending: PendingTransfer,
        outcome: TransferOutcome,
    ) -> (done: Result<Resolution, StakeError>)
        ensures
            steps_to(
                old(self)@,
                final(self)@,
                done,
                old(self)@.resolve_transfer(caller@, pending@, outcome),
            ),
            outcome is Failed ==> *final(self) == *old(self),
            done matches Ok(resolution) ==> (resolution is RolledBack <==> outcome is Failed),
    {
        if !(*caller == self.account_id) {
            return Err(StakeError::Restricted);
        }
        match &outcome {
            TransferOutcome::Failed => Ok(Resolution::RolledBack),
            TransferOutcome::Successful(payload) => {
                let amounts = parse_amounts(payload);
                self.commit_transfer(caller, &pending, unused_amount(&amounts))
            },
        }
    }
}

} // verus!
