//! The engine: every pool by its id, and the stake ledger of every registered account.

use vstd::prelude::*;

use crate::error::{steps_to, StakeError, StakeErrorView};
use crate::keyed::{
    keyed, lemma_keyed_at, lemma_keyed_empty, lemma_keyed_push, lemma_keyed_remove,
    lemma_keyed_update, well_keyed,
};
use crate::ledger::{
    bind_entry, bound_to, register_entries, register_entry, settle_entry, unregister_entry,
    unstake_source, Ledger, LedgerView, StakeEntryView,
};
use crate::pool::{
    add_stake_spec, drained, owed_under, pays_out, Payout, Pool, PoolView, RewardsView,
};
use crate::resolution::{moved, moved_amount, PendingTransfer, PendingTransferView, Resolution};
use crate::token::{AccountId, PoolId, StakeId, StakeIdView};

verus! {

/// Mathematical value of a [`StakeManagement`].
#[verifier::ext_equal]
pub struct StakeManagementView {
    /// Every pool, by its id.
    pub stake_pools: Map<Seq<char>, PoolView>,
    /// The ledger of every registered account.
    pub stakes: Map<Seq<char>, LedgerView>,
}

impl StakeManagementView {
    /// The same engine, where `account` has the ledger `ledger`.
    pub open spec fn with_ledger(self, account: Seq<char>, ledger: LedgerView) -> Self {
        StakeManagementView {
            stake_pools: self.stake_pools,
            stakes: self.stakes.insert(account, ledger),
        }
    }

    /// The same engine, where `pool_id` names `pool`.
    pub open spec fn with_pool(self, pool_id: Seq<char>, pool: PoolView) -> Self {
        StakeManagementView {
            stake_pools: self.stake_pools.insert(pool_id, pool),
            stakes: self.stakes,
        }
    }

    /// Whether some ledger entry of some account is bound to `pool_id`.
    pub open spec fn pool_in_use(self, pool_id: Seq<char>) -> bool {
        exists|account: Seq<char>| #[trigger]
            self.stakes.dom().contains(account) && bound_to(self.stakes[account], pool_id)
    }

    /// The engine of a contract that runs under `account_id`: no pool, and an empty ledger for
    /// the contract itself.
    pub open spec fn fresh(account_id: Seq<char>) -> Self {
        StakeManagementView {
            stake_pools: Map::empty(),
            stakes: Map::empty().insert(account_id, Seq::empty()),
        }
    }

    /// Gives `account_id` an empty ledger. An account is registered once.
    pub open spec fn internal_register(
        self,
        account_id: Seq<char>,
    ) -> Result<Self, StakeErrorView> {
        if self.stakes.dom().contains(account_id) {
            Err(StakeErrorView::AccountAlreadyRegistered)
        } else {
            Ok(self.with_ledger(account_id, Seq::empty()))
        }
    }

    /// Registers `stake_id` in the ledger of `staker_id`.
    pub open spec fn register_stake(self, stake_id: StakeIdView, staker_id: Seq<char>) -> Result<
        Self,
        StakeErrorView,
    > {
        if !self.stakes.dom().contains(staker_id) {
            Err(StakeErrorView::AccountNotRegistered)
        } else {
            match register_entry(self.stakes[staker_id], stake_id) {
                Ok(ledger) => Ok(self.with_ledger(staker_id, ledger)),
                Err(error) => Err(error),
            }
        }
    }

    /// Registers each of `stakes` in the ledger of `staker_id`, all or none.
    pub open spec fn register_stakes(
        self,
        stakes: Seq<StakeIdView>,
        staker_id: Seq<char>,
    ) -> Result<Self, StakeErrorView> {
        if !self.stakes.dom().contains(staker_id) {
            Err(StakeErrorView::AccountNotRegistered)
        } else {
            match register_entries(self.stakes[staker_id], stakes) {
                Ok(ledger) => Ok(self.with_ledger(staker_id, ledger)),
                Err(error) => Err(error),
            }
        }
    }

    /// Commits a transfer that the asset contract has confirmed: what was asked for, less the
    /// unused amount that came back, has left custody. A transfer that asks for more than its
    /// handle holds is refused.
    pub open spec fn commit_transfer(
        self,
        pending: PendingTransferView,
        unused: Option<u128>,
    ) -> Result<Self, StakeErrorView> {
        if pending.overdrawn() {
            Err(StakeErrorView::InsufficientStakeBalance)
        } else {
            self.settle_stake(
                pending.stake_id,
                pending.staker_id,
                moved_amount(pending.requested(), unused),
            )
        }
    }

    /// Unregisters `stake_id` from the ledger of `staker_id` and, where `reregister` names an
    /// account, registers it there: the stake moves from one ledger to the other without
    /// leaving custody. It cannot be handed to the account that holds it.
    pub open spec fn unregister_stake(
        self,
        stake_id: StakeIdView,
        staker_id: Seq<char>,
        reregister: Option<Seq<char>>,
    ) -> Result<Self, StakeErrorView> {
        if !self.stakes.dom().contains(staker_id) {
            Err(StakeErrorView::AccountNotRegistered)
        } else {
            match unregister_entry(self.stakes[staker_id], stake_id) {
                Err(error) => Err(error),
                Ok(ledger) => match reregister {
                    None => Ok(self.with_ledger(staker_id, ledger)),
                    Some(receiver_id) => if receiver_id == staker_id {
                        Err(StakeErrorView::SameAccount)
                    } else if !self.stakes.dom().contains(receiver_id) {
                        Err(StakeErrorView::AccountNotRegistered)
                    } else {
                        match register_entry(self.stakes[receiver_id], stake_id) {
                            Ok(credited) => Ok(
                                self.with_ledger(staker_id, ledger).with_ledger(
                                    receiver_id,
                                    credited,
                                ),
                            ),
                            Err(error) => Err(error),
                        }
                    },
                },
            }
        }
    }

    /// What an unstake of `stake_id` by `staker_id` moves, or why it is refused.
    pub open spec fn unstake_source(self, stake_id: StakeIdView, staker_id: Seq<char>) -> Result<
        (StakeIdView, Option<u128>),
        StakeErrorView,
    > {
        if !self.stakes.dom().contains(staker_id) {
            Err(StakeErrorView::AccountNotRegistered)
        } else {
            unstake_source(self.stakes[staker_id], stake_id)
        }
    }

    /// Records in the ledger of `staker_id` that `moved` of `stake_id` has left custody.
    pub open spec fn settle_stake(
        self,
        stake_id: StakeIdView,
        staker_id: Seq<char>,
        moved: u128,
    ) -> Result<Self, StakeErrorView> {
        if !self.stakes.dom().contains(staker_id) {
            Err(StakeErrorView::AccountNotRegistered)
        } else {
            match settle_entry(self.stakes[staker_id], stake_id, moved) {
                Ok(ledger) => Ok(self.with_ledger(staker_id, ledger)),
                Err(error) => Err(error),
            }
        }
    }

    /// Creates the pool `pool_id` of `owner`. The id must be new and there must be an outcome.
    pub open spec fn create_pool(
        self,
        pool_id: Seq<char>,
        owner: Seq<char>,
        pool_results: Seq<Seq<char>>,
        required_xp: u128,
    ) -> Result<Self, StakeErrorView> {
        if self.stake_pools.dom().contains(pool_id) {
            Err(StakeErrorView::PoolAlreadyExists)
        } else if pool_results.len() == 0 {
            Err(StakeErrorView::NoOutcomes)
        } else {
            Ok(self.with_pool(pool_id, PoolView::fresh(owner, pool_results, required_xp)))
        }
    }

    /// Stakes `stake_id` of `staker_id` on `pool_result` in the pool `pool_id`: the payout
    /// graph of the pool takes the stake up, and the ledger entry is bound to the pool. The
    /// pool must exist and be neither active nor resolved.
    pub open spec fn stake(
        self,
        stake_id: StakeIdView,
        staker_id: Seq<char>,
        pool_result: Seq<char>,
        pool_id: Seq<char>,
        receivers: Seq<(Seq<char>, Seq<char>)>,
        default_receiver: Seq<char>,
    ) -> Result<Self, StakeErrorView> {
        if !self.stake_pools.dom().contains(pool_id) {
            Err(StakeErrorView::PoolNotFound)
        } else if self.stake_pools[pool_id].active {
            Err(StakeErrorView::PoolActive)
        } else if self.stake_pools[pool_id].resolved {
            Err(StakeErrorView::PoolResolved)
        } else {
            let pool = self.stake_pools[pool_id];
            match add_stake_spec(
                pool.required_stakes,
                pool_result,
                staker_id,
                stake_id,
                receivers,
                default_receiver,
            ) {
                Err(error) => Err(error),
                Ok(required_stakes) => if !self.stakes.dom().contains(staker_id) {
                    Err(StakeErrorView::AccountNotRegistered)
                } else {
                    match bind_entry(self.stakes[staker_id], stake_id, pool_id) {
                        Err(error) => Err(error),
                        Ok(ledger) => Ok(
                            self.with_pool(
                                pool_id,
                                PoolView { required_stakes, ..pool },
                            ).with_ledger(staker_id, ledger),
                        ),
                    }
                },
            }
        }
    }

    /// Opens or closes the staking window of the pool `pool_id`. A resolved pool stays as it
    /// is.
    pub open spec fn toggle_pool_active(self, pool_id: Seq<char>, toggle: bool) -> Result<
        Self,
        StakeErrorView,
    > {
        if !self.stake_pools.dom().contains(pool_id) {
            Err(StakeErrorView::PoolNotFound)
        } else if self.stake_pools[pool_id].resolved {
            Err(StakeErrorView::PoolResolved)
        } else {
            Ok(self.with_pool(pool_id, PoolView { active: toggle, ..self.stake_pools[pool_id] }))
        }
    }

    /// Sets the result of the active pool `pool_id`: one of its outcomes, or none where the
    /// pool is void.
    pub open spec fn assert_pool_result(
        self,
        pool_id: Seq<char>,
        pool_result: Option<Seq<char>>,
    ) -> Result<Self, StakeErrorView> {
        if !self.stake_pools.dom().contains(pool_id) {
            Err(StakeErrorView::PoolNotFound)
        } else if self.stake_pools[pool_id].resolved {
            Err(StakeErrorView::PoolResolved)
        } else if !self.stake_pools[pool_id].active {
            Err(StakeErrorView::PoolInactive)
        } else if pool_result matches Some(outcome) && !self.stake_pools[pool_id].outcomes()
            .contains(outcome) {
            Err(StakeErrorView::UnknownOutcome)
        } else {
            Ok(
                self.with_pool(
                    pool_id,
                    PoolView { result: pool_result, ..self.stake_pools[pool_id] },
                ),
            )
        }
    }

    /// Resolves the active pool `pool_id` by its result: what is owed under the winning
    /// outcome leaves the payout graph, and what is owed under any other outcome stays.
    pub open spec fn distribute_stakes(self, pool_id: Seq<char>) -> Result<Self, StakeErrorView> {
        if !self.stake_pools.dom().contains(pool_id) {
            Err(StakeErrorView::PoolNotFound)
        } else if self.stake_pools[pool_id].resolved {
            Err(StakeErrorView::PoolResolved)
        } else if !self.stake_pools[pool_id].active {
            Err(StakeErrorView::PoolInactive)
        } else {
            let pool = self.stake_pools[pool_id];
            match pool.result {
                None => Err(StakeErrorView::ResultRequired),
                Some(outcome) => Ok(
                    self.with_pool(
                        pool_id,
                        PoolView {
                            required_stakes: drained(pool.required_stakes, outcome),
                            resolved: true,
                            ..pool
                        },
                    ),
                ),
            }
        }
    }

    /// What the pool `pool_id` owes under its result: nothing while it has none.
    pub open spec fn owed(self, pool_id: Seq<char>) -> RewardsView {
        match self.stake_pools[pool_id].result {
            Some(outcome) => owed_under(self.stake_pools[pool_id].required_stakes, outcome),
            None => Map::empty(),
        }
    }

    /// Removes the pool `pool_id`, which must be resolved and have no ledger entry bound to it.
    pub open spec fn remove_pool(self, pool_id: Seq<char>) -> Result<Self, StakeErrorView> {
        if !self.stake_pools.dom().contains(pool_id) {
            Err(StakeErrorView::PoolNotFound)
        } else if !self.stake_pools[pool_id].resolved {
            Err(StakeErrorView::PoolUnresolved)
        } else if self.pool_in_use(pool_id) {
            Err(StakeErrorView::StakesStillBound)
        } else {
            Ok(
                StakeManagementView {
                    stake_pools: self.stake_pools.remove(pool_id),
                    stakes: self.stakes,
                },
            )
        }
    }
}

/// The pools of `pools` that `owner` owns: all of them where no owner is given.
pub open spec fn owned_pools(pools: Map<Seq<char>, PoolView>, owner: Option<Seq<char>>) -> Map<
    Seq<char>,
    PoolView,
> {
    Map::new(
        |pool_id: Seq<char>|
            pools.dom().contains(pool_id) && (owner matches Some(owner) ==> pools[pool_id].owner
                == owner),
        |pool_id: Seq<char>| pools[pool_id],
    )
}

/// The ids of a list of pools.
pub open spec fn pool_ids(pools: Seq<(Seq<char>, PoolView)>) -> Seq<Seq<char>> {
    pools.map_values(|pair: (Seq<char>, PoolView)| pair.0)
}

/// The pools of a list of pools, without their ids.
pub open spec fn pool_values(pools: Seq<(Seq<char>, PoolView)>) -> Seq<PoolView> {
    pools.map_values(|pair: (Seq<char>, PoolView)| pair.1)
}

/// A pool under its id.
#[derive(Debug, PartialEq, Eq)]
struct PoolEntry {
    pool_id: PoolId,
    pool: Pool,
}

/// The ledger of an account.
#[derive(Debug, PartialEq, Eq)]
struct AccountLedger {
    account_id: AccountId,
    ledger: Ledger,
}

/// The engine: every pool by its id, and the stake ledger of every registered account.
#[derive(Debug, PartialEq, Eq)]
pub struct StakeManagement {
    stake_pools: Vec<PoolEntry>,
    stakes: Vec<AccountLedger>,
}

impl View for StakeManagement {
    type V = StakeManagementView;

    closed spec fn view(&self) -> StakeManagementView {
        StakeManagementView {
            stake_pools: keyed(self.pool_keys(), self.pool_values()),
            stakes: keyed(self.account_keys(), self.ledger_values()),
        }
    }
}

impl Clone for StakeManagement {
    fn clone(&self) -> (copy: Self)
        ensures
            copy@ == self@,
            self.wf() ==> copy.wf(),
    {
        let mut stake_pools: Vec<PoolEntry> = Vec::new();
        let mut i: usize = 0;
        while i < self.stake_pools.len()
            invariant
                i <= self.stake_pools.len(),
                stake_pools@.len() == i,
                forall|j: int|
                    0 <= j < i ==> (#[trigger] stake_pools@[j]).pool_id@
                        == self.stake_pools@[j].pool_id@ && stake_pools@[j].pool@
                        == self.stake_pools@[j].pool@ && (self.stake_pools@[j].pool.wf()
                        ==> stake_pools@[j].pool.wf()),
            decreases self.stake_pools.len() - i,
        {
            stake_pools.push(
                PoolEntry {
                    pool_id: self.stake_pools[i].pool_id.clone(),
                    pool: self.stake_pools[i].pool.clone(),
                },
            );
            i += 1;
        }
        let mut stakes: Vec<AccountLedger> = Vec::new();
        let mut i: usize = 0;
        while i < self.stakes.len()
            invariant
                i <= self.stakes.len(),
                stakes@.len() == i,
                forall|j: int|
                    0 <= j < i ==> (#[trigger] stakes@[j]).account_id@
                        == self.stakes@[j].account_id@ && stakes@[j].ledger@
                        == self.stakes@[j].ledger@,
            decreases self.stakes.len() - i,
        {
            stakes.push(
                AccountLedger {
                    account_id: self.stakes[i].account_id.clone(),
                    ledger: self.stakes[i].ledger.clone(),
                },
            );
            i += 1;
        }
        let copy = StakeManagement { stake_pools, stakes };
        proof {
            assert(copy.account_keys() =~= self.account_keys());
            assert(copy.ledger_values() =~= self.ledger_values());
            assert(copy.pool_keys() =~= self.pool_keys());
            assert(copy.pool_values() =~= self.pool_values());
        }
        copy
    }
}

impl StakeManagement {
    spec fn pool_keys(&self) -> Seq<Seq<char>> {
        Seq::new(self.stake_pools@.len(), |i: int| self.stake_pools@[i].pool_id@)
    }

    spec fn pool_values(&self) -> Seq<PoolView> {
        Seq::new(self.stake_pools@.len(), |i: int| self.stake_pools@[i].pool@)
    }

    spec fn account_keys(&self) -> Seq<Seq<char>> {
        Seq::new(self.stakes@.len(), |i: int| self.stakes@[i].account_id@)
    }

    spec fn ledger_values(&self) -> Seq<LedgerView> {
        Seq::new(self.stakes@.len(), |i: int| self.stakes@[i].ledger@)
    }

    /// Whether the engine is well formed: no pool id and no account is held twice, and every
    /// pool is well formed.
    pub closed spec fn wf(&self) -> bool {
        &&& self.pool_keys().no_duplicates()
        &&& self.account_keys().no_duplicates()
        &&& forall|i: int|
            0 <= i < self.stake_pools@.len() ==> (#[trigger] self.stake_pools@[i]).pool.wf()
    }

    /// The place of the ledger of `account_id`.
    fn find_account(&self, account_id: &AccountId) -> (found: Option<usize>)
        ensures
            found matches Some(i) ==> i < self.stakes@.len() && self.account_keys()[i as int]
                == account_id@,
            found is None ==> !self.account_keys().contains(account_id@),
    {
        let mut i: usize = 0;
        while i < self.stakes.len()
            invariant
                i <= self.stakes.len(),
                forall|j: int| 0 <= j < i ==> #[trigger] self.account_keys()[j] != account_id@,
            decreases self.stakes.len() - i,
        {
            if self.stakes[i].account_id == *account_id {
                return Some(i);
            }
            i += 1;
        }
        None
    }

    /// The place of the pool `pool_id`.
    fn find_pool(&self, pool_id: &PoolId) -> (found: Option<usize>)
        ensures
            found matches Some(i) ==> i < self.stake_pools@.len() && self.pool_keys()[i as int]
                == pool_id@,
            found is None ==> !self.pool_keys().contains(pool_id@),
    {
        let mut i: usize = 0;
        while i < self.stake_pools.len()
            invariant
                i <= self.stake_pools.len(),
                forall|j: int| 0 <= j < i ==> #[trigger] self.pool_keys()[j] != pool_id@,
            decreases self.stake_pools.len() - i,
        {
            if self.stake_pools[i].pool_id == *pool_id {
                return Some(i);
            }
            i += 1;
        }
        None
    }

    /// What the view says of the ledger at place `i`.
    proof fn lemma_ledger_at(&self, i: int)
        requires
            self.wf(),
            0 <= i < self.stakes@.len(),
        ensures
            self@.stakes.dom().contains(self.stakes@[i].account_id@),
            self@.stakes[self.stakes@[i].account_id@] == self.stakes@[i].ledger@,
    {
        lemma_keyed_at(self.account_keys(), self.ledger_values(), i);
    }

    /// What the view says of the pool at place `i`.
    proof fn lemma_pool_at(&self, i: int)
        requires
            self.wf(),
            0 <= i < self.stake_pools@.len(),
        ensures
            self@.stake_pools.dom().contains(self.stake_pools@[i].pool_id@),
            self@.stake_pools[self.stake_pools@[i].pool_id@] == self.stake_pools@[i].pool@,
    {
        lemma_keyed_at(self.pool_keys(), self.pool_values(), i);
    }

    /// The view after the ledger at place `i` alone has changed.
    proof fn lemma_ledger_changed(&self, before: &Self, i: int)
        requires
            before.wf(),
            0 <= i < before.stakes@.len(),
            self.stake_pools == before.stake_pools,
            self.stakes@.len() == before.stakes@.len(),
            self.stakes@[i].account_id == before.stakes@[i].account_id,
            forall|j: int|
                0 <= j < before.stakes@.len() && j != i ==> #[trigger] self.stakes@[j]
                    == before.stakes@[j],
        ensures
            self.wf(),
            self@ == before@.with_ledger(before.stakes@[i].account_id@, self.stakes@[i].ledger@),
    {
        assert(self.account_keys() =~= before.account_keys());
        assert(self.ledger_values() =~= before.ledger_values().update(i, self.stakes@[i].ledger@));
        lemma_keyed_update(
            before.account_keys(),
            before.ledger_values(),
            i,
            self.stakes@[i].ledger@,
        );
    }

    /// The view after the pool at place `i` alone has changed.
    proof fn lemma_pool_changed(&self, before: &Self, i: int)
        requires
            before.wf(),
            0 <= i < before.stake_pools@.len(),
            self.stakes == before.stakes,
            self.stake_pools@.len() == before.stake_pools@.len(),
            self.stake_pools@[i].pool_id == before.stake_pools@[i].pool_id,
            self.stake_pools@[i].pool.wf(),
            forall|j: int|
                0 <= j < before.stake_pools@.len() && j != i ==> #[trigger] self.stake_pools@[j]
                    == before.stake_pools@[j],
        ensures
            self.wf(),
            self@ == before@.with_pool(before.stake_pools@[i].pool_id@, self.stake_pools@[i].pool@),
    {
        assert(self.pool_keys() =~= before.pool_keys());
        assert(self.pool_values() =~= before.pool_values().update(i, self.stake_pools@[i].pool@));
        lemma_keyed_update(before.pool_keys(), before.pool_values(), i, self.stake_pools@[i].pool@);
        assert forall|j: int| 0 <= j < self.stake_pools@.len() implies (
        #[trigger] self.stake_pools@[j]).pool.wf() by {
            if j != i {
                assert(self.stake_pools@[j] == before.stake_pools@[j]);
            }
        }
    }

    /// A value that is put where it was changes nothing.
    proof fn lemma_same_view(&self, before: &Self)
        requires
            before.wf(),
            self.stake_pools@.len() == before.stake_pools@.len(),
            self.stakes@.len() == before.stakes@.len(),
            forall|j: int|
                0 <= j < before.stakes@.len() ==> (#[trigger] self.stakes@[j]).account_id
                    == before.stakes@[j].account_id && self.stakes@[j].ledger@
                    == before.stakes@[j].ledger@,
            forall|j: int|
                0 <= j < before.stake_pools@.len() ==> (#[trigger] self.stake_pools@[j]).pool_id
                    == before.stake_pools@[j].pool_id && self.stake_pools@[j].pool@
                    == before.stake_pools@[j].pool@ && self.stake_pools@[j].pool.wf(),
        ensures
            self.wf(),
            self@ == before@,
    {
        assert(self.account_keys() =~= before.account_keys());
        assert(self.ledger_values() =~= before.ledger_values());
        assert(self.pool_keys() =~= before.pool_keys());
        assert(self.pool_values() =~= before.pool_values());
    }

    /// The engine of a contract that runs under `account_id`: no pool yet, and an empty ledger
    /// for the contract itself.
    pub fn new(account_id: AccountId) -> (staking: Self)
        ensures
            staking.wf(),
            staking@ == StakeManagementView::fresh(account_id@),
    {
        let mut stakes: Vec<AccountLedger> = Vec::new();
        stakes.push(AccountLedger { account_id, ledger: Ledger::new() });
        let staking = StakeManagement { stake_pools: Vec::new(), stakes };
        proof {
            lemma_keyed_empty::<Seq<char>, PoolView>();
            lemma_keyed_empty::<Seq<char>, LedgerView>();
            assert(staking.pool_keys() =~= Seq::empty());
            assert(staking.pool_values() =~= Seq::empty());
            assert(staking.account_keys() =~= Seq::<Seq<char>>::empty().push(account_id@));
            assert(staking.ledger_values() =~= Seq::<LedgerView>::empty().push(Seq::empty()));
            lemma_keyed_push(
                Seq::<Seq<char>>::empty(),
                Seq::<LedgerView>::empty(),
                account_id@,
                Seq::empty(),
            );
        }
        staking
    }

    /// Gives `account_id` an empty ledger. An account that has one is refused with
    /// `AccountAlreadyRegistered`.
    pub fn internal_register(&mut self, account_id: &AccountId) -> (done: Result<(), StakeError>)
        requires
            old(self).wf(),
        ensures
            final(self).wf(),
            steps_to(old(self)@, final(self)@, done, old(self)@.internal_register(account_id@)),
    {
        match self.find_account(account_id) {
            Some(i) => {
                proof {
                    self.lemma_ledger_at(i as int);
                }
                Err(StakeError::AccountAlreadyRegistered)
            },
            None => {
                self.stakes.push(
                    AccountLedger { account_id: account_id.clone(), ledger: Ledger::new() },
                );
                proof {
                    assert(self.pool_keys() =~= old(self).pool_keys());
                    assert(self.pool_values() =~= old(self).pool_values());
                    assert(self.account_keys() =~= old(self).account_keys().push(account_id@));
                    assert(self.ledger_values() =~= old(self).ledger_values().push(Seq::empty()));
                    lemma_keyed_push(
                        old(self).account_keys(),
                        old(self).ledger_values(),
                        account_id@,
                        Seq::empty(),
                    );
                }
                Ok(())
            },
        }
    }

    /// Whether `account_id` has a ledger.
    pub fn is_registered(&self, account_id: &AccountId) -> (registered: bool)
        ensures
            registered == self@.stakes.dom().contains(account_id@),
    {
        self.find_account(account_id).is_some()
    }

    /// The stakes of `staker_id`, each with the pool it is bound to. An account without ledger
    /// is refused with `NoStakesForAccount`; a ledger without stakes gives an empty list.
    pub fn get_stakes(&self, staker_id: &AccountId) -> (stakes: Result<
        Vec<(StakeId, Option<PoolId>)>,
        StakeError,
    >)
        requires
            self.wf(),
        ensures
            match stakes {
                Ok(stakes) => self@.stakes.dom().contains(staker_id@) && stakes.deep_view()
                    == self@.stakes[staker_id@].map_values(
                    |entry: StakeEntryView| (entry.stake, entry.pool),
                ),
                Err(error) => !self@.stakes.dom().contains(staker_id@) && error
                    == StakeError::NoStakesForAccount,
            },
    {
        match self.find_account(staker_id) {
            Some(i) => {
                proof {
                    self.lemma_ledger_at(i as int);
                }
                Ok(self.stakes[i].ledger.stakes())
            },
            None => Err(StakeError::NoStakesForAccount),
        }
    }

    /// The pool `pool_id`, if there is one.
    pub fn get_pool(&self, pool_id: &PoolId) -> (pool: Option<&Pool>)
        requires
            self.wf(),
        ensures
            match pool {
                Some(pool) => self@.stake_pools.dom().contains(pool_id@) && pool@
                    == self@.stake_pools[pool_id@] && pool.wf(),
                None => !self@.stake_pools.dom().contains(pool_id@),
            },
    {
        match self.find_pool(pool_id) {
            Some(i) => {
                proof {
                    self.lemma_pool_at(i as int);
                }
                Some(&self.stake_pools[i].pool)
            },
            None => None,
        }
    }

    /// Registers `stake_id` in the ledger of `staker_id`, merging a balance into the unbound
    /// balance of its slot. Refused with `AccountNotRegistered` where the account has no
    /// ledger, and with `Overflow` where the merged balance is not representable.
    pub fn register_stake(&mut self, stake_id: StakeId, staker_id: &AccountId) -> (done: Result<
        (),
        StakeError,
    >)
        requires
            old(self).wf(),
        ensures
            final(self).wf(),
            steps_to(
                old(self)@,
                final(self)@,
                done,
                old(self)@.register_stake(stake_id@, staker_id@),
            ),
    {
        let i = match self.find_account(staker_id) {
            Some(i) => i,
            None => {
                return Err(StakeError::AccountNotRegistered);
            },
        };
        proof {
            self.lemma_ledger_at(i as int);
        }
        let done = self.stakes[i].ledger.register(stake_id);
        proof {
            self.lemma_ledger_changed(old(self), i as int);
            if done is Err {
                assert(self@ =~= old(self)@);
            }
        }
        done
    }

    /// Unregisters `stake_id` from the ledger of `staker_id`; where `reregister` names an
    /// account, the stake is registered there at once. The lookup is that of
    /// [`Ledger::unregister`]. Refused with `AccountNotRegistered` where either account has no
    /// ledger, with `SameAccount` where the stake would be handed to the account that holds it,
    /// and with `Overflow` where the receiving balance is not representable.
    pub fn unregister_stake(
        &mut self,
        stake_id: &StakeId,
        staker_id: &AccountId,
        reregister: Option<AccountId>,
    ) -> (done: Result<(), StakeError>)
        requires
            old(self).wf(),
        ensures
            final(self).wf(),
            steps_to(
                old(self)@,
                final(self)@,
                done,
                old(self)@.unregister_stake(stake_id@, staker_id@, reregister.deep_view()),
            ),
    {
        let i = match self.find_account(staker_id) {
            Some(i) => i,
            None => {
                return Err(StakeError::AccountNotRegistered);
            },
        };
        proof {
            self.lemma_ledger_at(i as int);
        }
        let saved = self.stakes[i].ledger.clone();
        let done = self.stakes[i].ledger.unregister(stake_id);
        proof {
            self.lemma_ledger_changed(old(self), i as int);
            if done is Err {
                assert(self@ =~= old(self)@);
            }
        }
        if done.is_err() {
            return done;
        }
        let receiver_id = match reregister {
            Some(receiver_id) => receiver_id,
            None => {
                return Ok(());
            },
        };
        let ghost debited = *self;
        let found = if receiver_id == *staker_id {
            Err(StakeError::SameAccount)
        } else {
            match self.find_account(&receiver_id) {
                Some(j) => Ok(j),
                None => Err(StakeError::AccountNotRegistered),
            }
        };
        let credited = match found {
            Ok(j) => {
                proof {
                    old(self).lemma_ledger_at(j as int);
                    self.lemma_ledger_at(j as int);
                }
                let credited = self.stakes[j].ledger.register(stake_id.clone());
                proof {
                    self.lemma_ledger_changed(&debited, j as int);
                    if credited is Err {
                        assert(self@ =~= debited@);
                    }
                }
                credited
            },
            Err(error) => Err(error),
        };
        if credited.is_err() {
            let ghost failed = *self;
            self.stakes[i].ledger = saved;
            proof {
                self.lemma_ledger_changed(&failed, i as int);
                assert(self@ =~= old(self)@);
            }
        }
        credited
    }

    /// Finds what an unstake of `stake_id` by `staker_id` moves back to the staker: the handle
    /// of the ledger entry that holds the asset, and the amount where only a part of the entry
    /// is asked for. Nothing changes: the ledger is settled when the transfer is confirmed.
    pub fn unstake_source(&self, stake_id: &StakeId, staker_id: &AccountId) -> (source: Result<
        (StakeId, Option<u128>),
        StakeError,
    >)
        requires
            self.wf(),
        ensures
            match self@.unstake_source(stake_id@, staker_id@) {
                Ok(expected) => source matches Ok(found) && found.0@ == expected.0 && found.1
                    == expected.1,
                Err(error) => source matches Err(e) && e@ == error,
            },
    {
        match self.find_account(staker_id) {
            Some(i) => {
                proof {
                    self.lemma_ledger_at(i as int);
                }
                self.stakes[i].ledger.unstake_source(stake_id)
            },
            None => Err(StakeError::AccountNotRegistered),
        }
    }

    /// Records in the ledger of `staker_id` that `moved` of `stake_id` has left custody, as
    /// [`Ledger::settle`] does.
    pub fn settle_stake(&mut self, stake_id: &StakeId, staker_id: &AccountId, moved: u128) -> (done:
        Result<(), StakeError>)
        requires
            old(self).wf(),
        ensures
            final(self).wf(),
            steps_to(
                old(self)@,
                final(self)@,
                done,
                old(self)@.settle_stake(stake_id@, staker_id@, moved),
            ),
    {
        let i = match self.find_account(staker_id) {
            Some(i) => i,
            None => {
                return Err(StakeError::AccountNotRegistered);
            },
        };
        proof {
            self.lemma_ledger_at(i as int);
        }
        let done = self.stakes[i].ledger.settle(stake_id, moved);
        proof {
            self.lemma_ledger_changed(old(self), i as int);
            if done is Err {
                assert(self@ =~= old(self)@);
            }
        }
        done
    }

    /// Creates the pool `pool_id` of `owner` with the outcomes `pool_results` and returns a
    /// copy of it. Refused with `PoolAlreadyExists` where the id is taken and with `NoOutcomes`
    /// where no outcome is given.
    pub fn create_pool(
        &mut self,
        pool_id: PoolId,
        owner: AccountId,
        pool_results: Vec<AccountId>,
        required_xp: u128,
    ) -> (created: Result<Pool, StakeError>)
        requires
            old(self).wf(),
        ensures
            final(self).wf(),
            steps_to(
                old(self)@,
                final(self)@,
                created,
                old(self)@.create_pool(pool_id@, owner@, pool_results.deep_view(), required_xp),
            ),
            created matches Ok(pool) ==> pool.wf() && pool@ == PoolView::fresh(
                owner@,
                pool_results.deep_view(),
                required_xp,
            ),
    {
        match self.find_pool(&pool_id) {
            Some(i) => {
                proof {
                    self.lemma_pool_at(i as int);
                }
                return Err(StakeError::PoolAlreadyExists);
            },
            None => {},
        }
        if pool_results.len() == 0 {
            return Err(StakeError::NoOutcomes);
        }
        let pool = Pool::new(owner, pool_results, required_xp);
        let copy = pool.clone();
        self.stake_pools.push(PoolEntry { pool_id, pool });
        proof {
            assert(self.account_keys() =~= old(self).account_keys());
            assert(self.ledger_values() =~= old(self).ledger_values());
            assert(self.pool_keys() =~= old(self).pool_keys().push(pool_id@));
            assert(self.pool_values() =~= old(self).pool_values().push(pool@));
            lemma_keyed_push(old(self).pool_keys(), old(self).pool_values(), pool_id@, pool@);
        }
        Ok(copy)
    }

    /// Stakes `stake_id` of `staker_id` on the outcome `pool_result` of the pool `pool_id`:
    /// the payout graph takes the stake up as [`Stakes::add_stake`] says, and the ledger entry
    /// is bound to the pool as [`Ledger::bind`] says. Refused with `PoolNotFound`, with
    /// `PoolActive` once the staking window is closed, with `PoolResolved`, with what the
    /// payout graph refuses, with `AccountNotRegistered`, and with what the ledger refuses, in
    /// this order; a refused stake changes nothing.
    pub fn stake(
        &mut self,
        stake_id: &StakeId,
        staker_id: &AccountId,
        pool_result: &AccountId,
        pool_id: &PoolId,
        receivers: &Vec<(AccountId, AccountId)>,
        default_receiver: &AccountId,
    ) -> (done: Result<(), StakeError>)
        requires
            old(self).wf(),
        ensures
            final(self).wf(),
            steps_to(
                old(self)@,
                final(self)@,
                done,
                old(self)@.stake(
                    stake_id@,
                    staker_id@,
                    pool_result@,
                    pool_id@,
                    receivers.deep_view(),
                    default_receiver@,
                ),
            ),
    {
        let p = match self.find_pool(pool_id) {
            Some(p) => p,
            None => {
                return Err(StakeError::PoolNotFound);
            },
        };
        proof {
            self.lemma_pool_at(p as int);
        }
        if self.stake_pools[p].pool.active {
            return Err(StakeError::PoolActive);
        }
        if self.stake_pools[p].pool.resolved {
            return Err(StakeError::PoolResolved);
        }
        let saved = self.stake_pools[p].pool.required_stakes.clone();
        let added = self.stake_pools[p].pool.required_stakes.add_stake(
            pool_result,
            staker_id,
            stake_id,
            receivers,
            default_receiver,
        );
        proof {
            self.lemma_pool_changed(old(self), p as int);
            if added is Err {
                assert(self.stake_pools@[p as int].pool@ == old(self).stake_pools@[p as int].pool@);
                assert(self@ =~= old(self)@);
            }
        }
        if added.is_err() {
            return added;
        }
        let ghost staked = *self;
        let bound = match self.find_account(staker_id) {
            Some(i) => {
                proof {
                    old(self).lemma_ledger_at(i as int);
                    self.lemma_ledger_at(i as int);
                }
                let bound = self.stakes[i].ledger.bind(stake_id, pool_id.clone());
                proof {
                    self.lemma_ledger_changed(&staked, i as int);
                    if bound is Err {
                        assert(self@ =~= staked@);
                    }
                }
                bound
            },
            None => Err(StakeError::AccountNotRegistered),
        };
        if bound.is_err() {
            let ghost failed = *self;
            self.stake_pools[p].pool.required_stakes = saved;
            proof {
                self.lemma_pool_changed(&failed, p as int);
                assert(self.stake_pools@[p as int].pool@ == old(self).stake_pools@[p as int].pool@);
                assert(self@ =~= old(self)@);
            }
        }
        bound
    }

    /// Opens (`false`) or closes (`true`) the staking window of the pool `pool_id`. Refused
    /// with `PoolNotFound`, and with `PoolResolved` once the pool is resolved.
    pub fn toggle_pool_active(&mut self, pool_id: &PoolId, toggle: bool) -> (done: Result<
        (),
        StakeError,
    >)
        requires
            old(self).wf(),
        ensures
            final(self).wf(),
            steps_to(
                old(self)@,
                final(self)@,
                done,
                old(self)@.toggle_pool_active(pool_id@, toggle),
            ),
    {
        let p = match self.find_pool(pool_id) {
            Some(p) => p,
            None => {
                return Err(StakeError::PoolNotFound);
            },
        };
        proof {
            self.lemma_pool_at(p as int);
        }
        if self.stake_pools[p].pool.resolved {
            return Err(StakeError::PoolResolved);
        }
        self.stake_pools[p].pool.active = toggle;
        proof {
            self.lemma_pool_changed(old(self), p as int);
        }
        Ok(())
    }

    /// Sets the result of the pool `pool_id`: `None` declares the pool void. Refused with
    /// `PoolNotFound`, with `PoolResolved`, with `PoolInactive` while the staking window is
    /// open, and with `UnknownOutcome` where the result is no outcome of the pool.
    pub fn assert_pool_result(&mut self, pool_id: &PoolId, pool_result: Option<AccountId>) -> (done:
        Result<(), StakeError>)
        requires
            old(self).wf(),
        ensures
            final(self).wf(),
            steps_to(
                old(self)@,
                final(self)@,
                done,
                old(self)@.assert_pool_result(pool_id@, pool_result.deep_view()),
            ),
    {
        let p = match self.find_pool(pool_id) {
            Some(p) => p,
            None => {
                return Err(StakeError::PoolNotFound);
            },
        };
        proof {
            self.lemma_pool_at(p as int);
        }
        if self.stake_pools[p].pool.resolved {
            return Err(StakeError::PoolResolved);
        }
        if !self.stake_pools[p].pool.active {
            return Err(StakeError::PoolInactive);
        }
        match &pool_result {
            Some(outcome) => {
                if !self.stake_pools[p].pool.required_stakes.has_outcome(outcome) {
                    return Err(StakeError::UnknownOutcome);
                }
            },
            None => {},
        }
        self.stake_pools[p].pool.result = pool_result;
        proof {
            self.lemma_pool_changed(old(self), p as int);
        }
        Ok(())
    }

    /// Resolves the pool `pool_id` by its result and returns what is owed under the winning
    /// outcome: who receives which stake from whom. What is owed under the other outcomes is
    /// not touched. Refused with `PoolNotFound`, with `PoolResolved`, with `PoolInactive`, and
    /// with `ResultRequired` while the pool has no result.
    pub fn distribute_stakes(&mut self, pool_id: &PoolId) -> (payouts: Result<
        Vec<Payout>,
        StakeError,
    >)
        requires
            old(self).wf(),
        ensures
            final(self).wf(),
            steps_to(old(self)@, final(self)@, payouts, old(self)@.distribute_stakes(pool_id@)),
            payouts matches Ok(payouts) ==> pays_out(
                payouts.deep_view(),
                old(self)@.owed(pool_id@),
            ),
    {
        let p = match self.find_pool(pool_id) {
            Some(p) => p,
            None => {
                return Err(StakeError::PoolNotFound);
            },
        };
        proof {
            self.lemma_pool_at(p as int);
        }
        if self.stake_pools[p].pool.resolved {
            return Err(StakeError::PoolResolved);
        }
        if !self.stake_pools[p].pool.active {
            return Err(StakeError::PoolInactive);
        }
        let outcome = match &self.stake_pools[p].pool.result {
            Some(outcome) => outcome.clone(),
            None => {
                return Err(StakeError::ResultRequired);
            },
        };
        let payouts = self.stake_pools[p].pool.required_stakes.drain(&outcome);
        self.stake_pools[p].pool.resolved = true;
        proof {
            self.lemma_pool_changed(old(self), p as int);
        }
        Ok(payouts)
    }

    /// Whether some ledger entry of some account is bound to the pool `pool_id`.
    pub fn pool_in_use(&self, pool_id: &PoolId) -> (in_use: bool)
        requires
            self.wf(),
        ensures
            in_use == self@.pool_in_use(pool_id@),
    {
        let mut i: usize = 0;
        while i < self.stakes.len()
            invariant
                i <= self.stakes.len(),
                self.wf(),
                forall|j: int|
                    0 <= j < i ==> !bound_to(#[trigger] self.ledger_values()[j], pool_id@),
            decreases self.stakes.len() - i,
        {
            if self.stakes[i].ledger.is_bound_to(pool_id) {
                proof {
                    self.lemma_ledger_at(i as int);
                }
                return true;
            }
            i += 1;
        }
        proof {
            if self@.pool_in_use(pool_id@) {
                let account = choose|account: Seq<char>| #[trigger]
                    self@.stakes.dom().contains(account) && bound_to(
                        self@.stakes[account],
                        pool_id@,
                    );
                let j = self.account_keys().index_of(account);
                lemma_keyed_at(self.account_keys(), self.ledger_values(), j);
                assert(!bound_to(self.ledger_values()[j], pool_id@));
            }
        }
        false
    }

    /// Removes the pool `pool_id`. Refused with `PoolNotFound`, with `PoolUnresolved` while
    /// the pool is not resolved, and with `StakesStillBound` while some ledger entry is bound
    /// to the pool.
    pub fn remove_pool(&mut self, pool_id: &PoolId) -> (done: Result<(), StakeError>)
        requires
            old(self).wf(),
        ensures
            final(self).wf(),
            steps_to(old(self)@, final(self)@, done, old(self)@.remove_pool(pool_id@)),
    {
        let p = match self.find_pool(pool_id) {
            Some(p) => p,
            None => {
                return Err(StakeError::PoolNotFound);
            },
        };
        proof {
            self.lemma_pool_at(p as int);
        }
        if !self.stake_pools[p].pool.resolved {
            return Err(StakeError::PoolUnresolved);
        }
        if self.pool_in_use(pool_id) {
            return Err(StakeError::StakesStillBound);
        }
        self.stake_pools.remove(p);
        proof {
            assert(self.account_keys() =~= old(self).account_keys());
            assert(self.ledger_values() =~= old(self).ledger_values());
            assert(self.pool_keys() =~= old(self).pool_keys().remove(p as int));
            assert(self.pool_values() =~= old(self).pool_values().remove(p as int));
            lemma_keyed_remove(old(self).pool_keys(), old(self).pool_values(), p as int);
        }
        Ok(())
    }

    /// The pools that `owner` owns, each under its id; every pool where no owner is given.
    pub fn internal_get_pools(&self, owner: &Option<AccountId>) -> (pools: Vec<(PoolId, Pool)>)
        requires
            self.wf(),
        ensures
            well_keyed(pool_ids(pools.deep_view()), pool_values(pools.deep_view())),
            keyed(pool_ids(pools.deep_view()), pool_values(pools.deep_view())) == owned_pools(
                self@.stake_pools,
                owner.deep_view(),
            ),
            forall|i: int| 0 <= i < pools@.len() ==> (#[trigger] pools@[i]).1.wf(),
    {
        let mut pools: Vec<(PoolId, Pool)> = Vec::new();
        let ghost keys = self.pool_keys();
        let ghost values = self.pool_values();
        proof {
            lemma_keyed_empty::<Seq<char>, PoolView>();
            assert(keys.take(0) =~= Seq::empty());
            assert(values.take(0) =~= Seq::empty());
            assert(pool_ids(pools.deep_view()) =~= Seq::empty());
            assert(pool_values(pools.deep_view()) =~= Seq::empty());
            assert(owned_pools(Map::empty(), owner.deep_view()) =~= Map::empty());
        }
        let mut i: usize = 0;
        while i < self.stake_pools.len()
            invariant
                i <= self.stake_pools.len(),
                self.wf(),
                keys == self.pool_keys(),
                values == self.pool_values(),
                well_keyed(keys.take(i as int), values.take(i as int)),
                well_keyed(pool_ids(pools.deep_view()), pool_values(pools.deep_view())),
                keyed(pool_ids(pools.deep_view()), pool_values(pools.deep_view())) == owned_pools(
                    keyed(keys.take(i as int), values.take(i as int)),
                    owner.deep_view(),
                ),
                forall|j: int| 0 <= j < pools@.len() ==> (#[trigger] pools@[j]).1.wf(),
            decreases self.stake_pools.len() - i,
        {
            let ghost seen = keyed(keys.take(i as int), values.take(i as int));
            proof {
                assert(!keys.take(i as int).contains(keys[i as int])) by {
                    if keys.take(i as int).contains(keys[i as int]) {
                        let a = keys.take(i as int).index_of(keys[i as int]);
                        assert(keys[a] == keys[i as int]);
                    }
                }
                lemma_keyed_push(
                    keys.take(i as int),
                    values.take(i as int),
                    keys[i as int],
                    values[i as int],
                );
                assert(keys.take(i as int + 1) =~= keys.take(i as int).push(keys[i as int]));
                assert(values.take(i as int + 1) =~= values.take(i as int).push(values[i as int]));
            }
            let owned = match owner {
                Some(owner) => self.stake_pools[i].pool.owner == *owner,
                None => true,
            };
            if owned {
                let ghost listed = pools.deep_view();
                let pool_id = self.stake_pools[i].pool_id.clone();
                let pool = self.stake_pools[i].pool.clone();
                pools.push((pool_id, pool));
                proof {
                    assert(pool_ids(pools.deep_view()) =~= pool_ids(listed).push(keys[i as int]));
                    assert(pool_values(pools.deep_view()) =~= pool_values(listed).push(
                        values[i as int],
                    ));
                    assert(!pool_ids(listed).contains(keys[i as int])) by {
                        if pool_ids(listed).contains(keys[i as int]) {
                            assert(owned_pools(seen, owner.deep_view()).dom().contains(
                                keys[i as int],
                            ));
                        }
                    }
                    lemma_keyed_push(
                        pool_ids(listed),
                        pool_values(listed),
                        keys[i as int],
                        values[i as int],
                    );
                    assert(owned_pools(seen, owner.deep_view()).insert(
                        keys[i as int],
                        values[i as int],
                    ) =~= owned_pools(
                        seen.insert(keys[i as int], values[i as int]),
                        owner.deep_view(),
                    ));
                }
            } else {
                proof {
                    assert(owned_pools(seen, owner.deep_view()) =~= owned_pools(
                        seen.insert(keys[i as int], values[i as int]),
                        owner.deep_view(),
                    ));
                }
            }
            i += 1;
        }
        proof {
            assert(keys.take(i as int) =~= keys);
            assert(values.take(i as int) =~= values);
        }
        pools
    }

    /// Registers each of `stakes` in the ledger of `staker_id`, all or none. Refused with
    /// `AccountNotRegistered` where the account has no ledger, and with what the first refused
    /// stake is refused with.
    pub fn register_stakes(
        &mut self,
        stakes: &Vec<StakeId>,
        staker_id: &AccountId,
    ) -> (done: Result<(), StakeError>)
        requires
            old(self).wf(),
        ensures
            final(self).wf(),
            steps_to(
                old(self)@,
                final(self)@,
                done,
                old(self)@.register_stakes(stakes.deep_view(), staker_id@),
            ),
    {
        let i = match self.find_account(staker_id) {
            Some(i) => i,
            None => {
                return Err(StakeError::AccountNotRegistered);
            },
        };
        proof {
            self.lemma_ledger_at(i as int);
        }
        let done = self.stakes[i].ledger.register_all(stakes);
        proof {
            self.lemma_ledger_changed(old(self), i as int);
            if done is Err {
                assert(self@ =~= old(self)@);
            }
        }
        done
    }

    /// Commits the transfer `pending` that the asset contract has confirmed with `unused` left
    /// over. What was asked for, less an unused amount that does not exceed it, has left
    /// custody: the ledger of the staker is settled for it as [`Ledger::settle`] says, and the
    /// result names what has moved. Refused with `InsufficientStakeBalance` where the transfer
    /// asks for more than its handle holds, with `AccountNotRegistered` where the staker has no
    /// ledger, and with what settling refuses.
    pub fn commit_transfer(&mut self, pending: &PendingTransfer, unused: Option<u128>) -> (done:
        Result<Resolution, StakeError>)
        requires
            old(self).wf(),
        ensures
            final(self).wf(),
            steps_to(old(self)@, final(self)@, done, old(self)@.commit_transfer(pending@, unused)),
            done matches Ok(resolution) ==> resolution matches Resolution::Committed { moved }
                && moved@ == pending@.stake_id.with_balance(
                moved_amount(pending@.requested(), unused),
            ),
    {
        let requested = match pending.stake_id.token.get_amount() {
            Some(balance) => {
                let requested = match pending.amount {
                    Some(amount) => amount,
                    None => balance,
                };
                if requested > balance {
                    return Err(StakeError::InsufficientStakeBalance);
                }
                requested
            },
            None => match pending.amount {
                Some(amount) => amount,
                None => 0,
            },
        };
        let left = moved(requested, unused);
        match self.settle_stake(&pending.stake_id, &pending.staker_id, left) {
            Ok(()) => Ok(Resolution::Committed { moved: pending.stake_id.with_balance(left) }),
            Err(error) => Err(error),
        }
    }

    /// The accounts that have a ledger, each once.
    pub fn accounts(&self) -> (accounts: Vec<AccountId>)
        requires
            self.wf(),
        ensures
            accounts.deep_view().no_duplicates(),
            accounts.deep_view().to_set() == self@.stakes.dom(),
    {
        let mut accounts: Vec<AccountId> = Vec::new();
        let mut i: usize = 0;
        while i < self.stakes.len()
            invariant
                i <= self.stakes.len(),
                accounts@.len() == i,
                forall|j: int| 0 <= j < i ==> (#[trigger] accounts@[j])@ == self.account_keys()[j],
            decreases self.stakes.len() - i,
        {
            accounts.push(self.stakes[i].account_id.clone());
            i += 1;
        }
        proof {
            assert(accounts.deep_view() =~= self.account_keys());
            assert(accounts.deep_view().to_set() =~= self@.stakes.dom());
        }
        accounts
    }

    /// Puts the pool `pool` under the id `pool_id`, as when an engine that was written down is
    /// read back. An id that is taken is refused with `PoolAlreadyExists`.
    pub fn restore_pool(&mut self, pool_id: PoolId, pool: Pool) -> (done: Result<(), StakeError>)
        requires
            old(self).wf(),
            pool.wf(),
        ensures
            final(self).wf(),
            steps_to(
                old(self)@,
                final(self)@,
                done,
                if old(self)@.stake_pools.dom().contains(pool_id@) {
                    Err(StakeErrorView::PoolAlreadyExists)
                } else {
                    Ok(old(self)@.with_pool(pool_id@, pool@))
                },
            ),
    {
        match self.find_pool(&pool_id) {
            Some(i) => {
                proof {
                    self.lemma_pool_at(i as int);
                }
                Err(StakeError::PoolAlreadyExists)
            },
            None => {
                self.stake_pools.push(PoolEntry { pool_id, pool });
                proof {
                    assert(self.account_keys() =~= old(self).account_keys());
                    assert(self.ledger_values() =~= old(self).ledger_values());
                    assert(self.pool_keys() =~= old(self).pool_keys().push(pool_id@));
                    assert(self.pool_values() =~= old(self).pool_values().push(pool@));
                    lemma_keyed_push(
                        old(self).pool_keys(),
                        old(self).pool_values(),
                        pool_id@,
                        pool@,
                    );
                }
                Ok(())
            },
        }
    }

    /// Gives `account_id` the ledger `ledger`, as when an engine that was written down is read
    /// back. An account without ledger is registered with it.
    pub fn restore_ledger(&mut self, account_id: &AccountId, ledger: Ledger)
        requires
            old(self).wf(),
        ensures
            final(self).wf(),
            final(self)@ == old(self)@.with_ledger(account_id@, ledger@),
    {
        match self.find_account(account_id) {
            Some(i) => {
                self.stakes[i].ledger = ledger;
                proof {
                    self.lemma_ledger_changed(old(self), i as int);
                }
            },
            None => {
                self.stakes.push(AccountLedger { account_id: account_id.clone(), ledger });
                proof {
                    assert(self.pool_keys() =~= old(self).pool_keys());
                    assert(self.pool_values() =~= old(self).pool_values());
                    assert(self.account_keys() =~= old(self).account_keys().push(account_id@));
                    assert(self.ledger_values() =~= old(self).ledger_values().push(ledger@));
                    lemma_keyed_push(
                        old(self).account_keys(),
                        old(self).ledger_values(),
                        account_id@,
                        ledger@,
                    );
                }
            },
        }
    }

    /// The ledger of `account_id`, if it has one.
    pub fn get_ledger(&self, account_id: &AccountId) -> (ledger: Option<&Ledger>)
        requires
            self.wf(),
        ensures
            match ledger {
                Some(ledger) => self@.stakes.dom().contains(account_id@) && ledger@
                    == self@.stakes[account_id@],
                None => !self@.stakes.dom().contains(account_id@),
            },
    {
        match self.find_account(account_id) {
            Some(i) => {
                proof {
                    self.lemma_ledger_at(i as int);
                }
                Some(&self.stakes[i].ledger)
            },
            None => None,
        }
    }
}

} // verus!
