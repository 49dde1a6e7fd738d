//! The stakes of one account: each registered handle with the pool it is bound to, if any.

use vstd::prelude::*;

use crate::error::{steps_to, StakeError, StakeErrorView};
use crate::search::{
    first_index, is_first, lemma_first_index_found, lemma_first_index_none, lemma_first_index_spec,
};
use crate::token::{PoolId, StakeId, StakeIdView};

verus! {

/// One registered stake.
#[derive(Debug, PartialEq, Eq)]
pub struct StakeEntry {
    /// The handle that was deposited.
    pub stake: StakeId,
    /// The pool that the stake is bound to; `None` while it is free.
    pub pool: Option<PoolId>,
}

/// Mathematical value of a [`StakeEntry`].
pub struct StakeEntryView {
    pub stake: StakeIdView,
    pub pool: Option<Seq<char>>,
}

impl View for StakeEntry {
    type V = StakeEntryView;

    open spec fn view(&self) -> StakeEntryView {
        StakeEntryView { stake: self.stake@, pool: self.pool.deep_view() }
    }
}

impl DeepView for StakeEntry {
    type V = StakeEntryView;

    open spec fn deep_view(&self) -> StakeEntryView {
        self@
    }
}

impl Clone for StakeEntry {
    fn clone(&self) -> (copy: Self)
        ensures
            copy == *self,
    {
        let pool = match &self.pool {
            Some(pool_id) => Some(pool_id.clone()),
            None => None,
        };
        StakeEntry { stake: self.stake.clone(), pool }
    }
}

/// Mathematical value of a [`Ledger`]: its entries in the order they are kept.
pub type LedgerView = Seq<StakeEntryView>;

/// An unbound entry for `stake`.
pub open spec fn unbound(stake: StakeIdView) -> StakeEntryView {
    StakeEntryView { stake, pool: None }
}

/// Entries that hold exactly `stake`.
pub open spec fn holds(stake: StakeIdView) -> spec_fn(StakeEntryView) -> bool {
    |entry: StakeEntryView| entry.stake == stake
}

/// Unbound entries that hold exactly `stake`.
pub open spec fn holds_unbound(stake: StakeIdView) -> spec_fn(StakeEntryView) -> bool {
    |entry: StakeEntryView| entry.pool is None && entry.stake == stake
}

/// Unbound entries that hold a balance in the slot of `stake`.
pub open spec fn unbound_in_slot(stake: StakeIdView) -> spec_fn(StakeEntryView) -> bool {
    |entry: StakeEntryView|
        entry.pool is None && stake.amount() is Some && entry.stake.same_slot(stake)
}

/// Unbound entries that hold a balance in the slot of `stake` of at least its amount.
pub open spec fn unbound_covering(stake: StakeIdView) -> spec_fn(StakeEntryView) -> bool {
    |entry: StakeEntryView|
        entry.pool is None && stake.amount() is Some && entry.stake.same_slot(stake)
            && entry.stake.balance() >= stake.balance()
}

/// What `entry` adds to the total of the slot of `slot`.
pub open spec fn slot_share(entry: StakeEntryView, slot: StakeIdView) -> int {
    if entry.stake.same_slot(slot) {
        entry.stake.balance()
    } else {
        0
    }
}

/// The sum of the balances that the ledger holds in the slot of `slot`, bound or not.
pub open spec fn slot_total(ledger: LedgerView, slot: StakeIdView) -> int
    decreases ledger.len(),
{
    if ledger.len() == 0 {
        0
    } else {
        slot_total(ledger.drop_last(), slot) + slot_share(ledger.last(), slot)
    }
}

/// Whether some entry of the ledger is bound to `pool_id`.
pub open spec fn bound_to(ledger: LedgerView, pool_id: Seq<char>) -> bool {
    exists|i: int| 0 <= i < ledger.len() && (#[trigger] ledger[i]).pool == Some(pool_id)
}

/// The ledger after `stake` is registered. A balance is merged into the first unbound entry of
/// its slot, which fails where the sum is not representable; anything else becomes a new
/// unbound entry.
pub open spec fn register_entry(ledger: LedgerView, stake: StakeIdView) -> Result<
    LedgerView,
    StakeErrorView,
> {
    match first_index(ledger, unbound_in_slot(stake)) {
        Some(i) => match ledger[i].stake.merged(stake) {
            Some(merged) => Ok(ledger.update(i, unbound(merged))),
            None => Err(StakeErrorView::Overflow),
        },
        None => Ok(ledger.push(unbound(stake))),
    }
}

/// The ledger after the amount of `stake` is taken from the first unbound entry of its slot
/// that covers it. An entry that is used up leaves the ledger.
pub open spec fn take_entry(ledger: LedgerView, stake: StakeIdView) -> Result<
    LedgerView,
    StakeErrorView,
> {
    match first_index(ledger, unbound_covering(stake)) {
        Some(i) => if ledger[i].stake.balance() == stake.balance() {
            Ok(ledger.remove(i))
        } else {
            Ok(
                ledger.update(
                    i,
                    unbound(
                        ledger[i].stake.with_balance(
                            (ledger[i].stake.balance() - stake.balance()) as u128,
                        ),
                    ),
                ),
            )
        },
        None => Err(StakeErrorView::StakeNotRegistered),
    }
}

/// The ledger after `stake` is unregistered. An unbound entry that holds exactly `stake` leaves
/// the ledger. Failing that, a bound entry that holds exactly `stake` refuses the request; and
/// failing that too, the amount is split off an unbound balance of the slot.
pub open spec fn unregister_entry(ledger: LedgerView, stake: StakeIdView) -> Result<
    LedgerView,
    StakeErrorView,
> {
    match first_index(ledger, holds_unbound(stake)) {
        Some(i) => Ok(ledger.remove(i)),
        None => match first_index(ledger, holds(stake)) {
            Some(i) => Err(StakeErrorView::StakeStillBound { pool_id: ledger[i].pool->0 }),
            None => take_entry(ledger, stake),
        },
    }
}

/// The ledger after the first unbound entry that holds exactly `stake` is bound to `pool_id`.
pub open spec fn bind_entry(ledger: LedgerView, stake: StakeIdView, pool_id: Seq<char>) -> Result<
    LedgerView,
    StakeErrorView,
> {
    match first_index(ledger, holds_unbound(stake)) {
        Some(i) => Ok(ledger.update(i, StakeEntryView { stake, pool: Some(pool_id) })),
        None => match first_index(ledger, holds(stake)) {
            Some(i) => if ledger[i].pool == Some(pool_id) {
                Err(StakeErrorView::StakeAlreadyStaked)
            } else {
                Err(StakeErrorView::StakeAlreadyBoundElsewhere)
            },
            None => Err(StakeErrorView::StakeNotRegistered),
        },
    }
}

/// Where an unstake of `stake` takes the asset from: the handle of the entry, and the amount
/// to move where that is less than the whole entry. The lookup is that of unregistering.
pub open spec fn unstake_source(ledger: LedgerView, stake: StakeIdView) -> Result<
    (StakeIdView, Option<u128>),
    StakeErrorView,
> {
    match first_index(ledger, holds_unbound(stake)) {
        Some(i) => Ok((stake, None)),
        None => match first_index(ledger, holds(stake)) {
            Some(i) => Err(StakeErrorView::StakeStillBound { pool_id: ledger[i].pool->0 }),
            None => match first_index(ledger, unbound_covering(stake)) {
                Some(i) => Ok((ledger[i].stake, stake.amount())),
                None => Err(StakeErrorView::StakeNotRegistered),
            },
        },
    }
}

/// The ledger after each of `stakes` is registered in turn; the first refusal refuses the whole
/// batch.
pub open spec fn register_entries(ledger: LedgerView, stakes: Seq<StakeIdView>) -> Result<
    LedgerView,
    StakeErrorView,
>
    decreases stakes.len(),
{
    if stakes.len() == 0 {
        Ok(ledger)
    } else {
        match register_entries(ledger, stakes.drop_last()) {
            Ok(registered) => register_entry(registered, stakes.last()),
            Err(error) => Err(error),
        }
    }
}

/// The amount of `stake` that stays behind when `moved` of it has left custody.
pub open spec fn left_behind(stake: StakeIdView, moved: u128) -> int {
    if stake.balance() > moved {
        stake.balance() - moved
    } else {
        0
    }
}

/// The ledger after `moved` of `stake` has left custody. The first entry that holds exactly
/// `stake` leaves the ledger, bound or not, and what stays behind of it is registered again,
/// unbound. Where no entry holds exactly `stake` any more, `moved` is taken from an unbound
/// balance of the slot.
pub open spec fn settle_entry(ledger: LedgerView, stake: StakeIdView, moved: u128) -> Result<
    LedgerView,
    StakeErrorView,
> {
    match first_index(ledger, holds(stake)) {
        Some(i) => if left_behind(stake, moved) > 0 {
            register_entry(ledger.remove(i), stake.with_balance(left_behind(stake, moved) as u128))
        } else {
            Ok(ledger.remove(i))
        },
        None => take_entry(ledger, stake.with_balance(moved)),
    }
}

/// Handles of one slot share it with the same handles.
pub proof fn lemma_same_slot_shared(a: StakeIdView, b: StakeIdView, slot: StakeIdView)
    requires
        a.same_slot(b),
    ensures
        a.same_slot(slot) == b.same_slot(slot),
        b.same_slot(a),
        a.same_slot(a),
{
}

/// A new entry adds its share to the total of every slot.
pub proof fn lemma_slot_total_push(ledger: LedgerView, entry: StakeEntryView, slot: StakeIdView)
    ensures
        slot_total(ledger.push(entry), slot) == slot_total(ledger, slot) + slot_share(entry, slot),
{
    assert(ledger.push(entry).drop_last() =~= ledger);
}

/// An entry that leaves takes its share from the total of every slot.
pub proof fn lemma_slot_total_remove(ledger: LedgerView, i: int, slot: StakeIdView)
    requires
        0 <= i < ledger.len(),
    ensures
        slot_total(ledger.remove(i), slot) == slot_total(ledger, slot) - slot_share(
            ledger[i],
            slot,
        ),
    decreases ledger.len(),
{
    if i == ledger.len() - 1 {
        assert(ledger.remove(i) =~= ledger.drop_last());
    } else {
        lemma_slot_total_remove(ledger.drop_last(), i, slot);
        assert(ledger.remove(i).drop_last() =~= ledger.drop_last().remove(i));
        assert(ledger.remove(i).last() == ledger.last());
    }
}

/// An entry that is replaced exchanges its share in the total of every slot.
pub proof fn lemma_slot_total_update(
    ledger: LedgerView,
    i: int,
    entry: StakeEntryView,
    slot: StakeIdView,
)
    requires
        0 <= i < ledger.len(),
    ensures
        slot_total(ledger.update(i, entry), slot) == slot_total(ledger, slot) - slot_share(
            ledger[i],
            slot,
        ) + slot_share(entry, slot),
    decreases ledger.len(),
{
    if i == ledger.len() - 1 {
        assert(ledger.update(i, entry).drop_last() =~= ledger.drop_last());
    } else {
        lemma_slot_total_update(ledger.drop_last(), i, entry, slot);
        assert(ledger.update(i, entry).drop_last() =~= ledger.drop_last().update(i, entry));
    }
}

/// Registering a stake adds its balance to the total of its slot and changes no other total.
pub proof fn lemma_register_adds(ledger: LedgerView, stake: StakeIdView, slot: StakeIdView)
    ensures
        register_entry(ledger, stake) matches Ok(after) ==> slot_total(after, slot) == slot_total(
            ledger,
            slot,
        ) + slot_share(unbound(stake), slot),
{
    lemma_first_index_spec(ledger, unbound_in_slot(stake));
    match first_index(ledger, unbound_in_slot(stake)) {
        Some(i) => {
            if let Some(merged) = ledger[i].stake.merged(stake) {
                lemma_slot_total_update(ledger, i, unbound(merged), slot);
                lemma_same_slot_shared(ledger[i].stake, stake, slot);
            }
        },
        None => {
            lemma_slot_total_push(ledger, unbound(stake), slot);
        },
    }
}

/// Taking an amount from a balance takes it from the total of its slot and changes no other
/// total.
pub proof fn lemma_take_removes(ledger: LedgerView, stake: StakeIdView, slot: StakeIdView)
    ensures
        take_entry(ledger, stake) matches Ok(after) ==> slot_total(after, slot) == slot_total(
            ledger,
            slot,
        ) - slot_share(unbound(stake), slot),
{
    lemma_first_index_spec(ledger, unbound_covering(stake));
    match first_index(ledger, unbound_covering(stake)) {
        Some(i) => {
            lemma_same_slot_shared(ledger[i].stake, stake, slot);
            if ledger[i].stake.balance() == stake.balance() {
                lemma_slot_total_remove(ledger, i, slot);
            } else {
                let rest = ledger[i].stake.with_balance(
                    (ledger[i].stake.balance() - stake.balance()) as u128,
                );
                lemma_slot_total_update(ledger, i, unbound(rest), slot);
            }
        },
        None => {},
    }
}

/// Unregistering a stake takes its balance from the total of its slot and changes no other
/// total.
pub proof fn lemma_unregister_removes(ledger: LedgerView, stake: StakeIdView, slot: StakeIdView)
    ensures
        unregister_entry(ledger, stake) matches Ok(after) ==> slot_total(after, slot) == slot_total(
            ledger,
            slot,
        ) - slot_share(unbound(stake), slot),
{
    lemma_first_index_spec(ledger, holds_unbound(stake));
    match first_index(ledger, holds_unbound(stake)) {
        Some(i) => {
            lemma_slot_total_remove(ledger, i, slot);
        },
        None => {
            lemma_take_removes(ledger, stake, slot);
        },
    }
}

/// Binding a stake to a pool changes no total.
pub proof fn lemma_bind_keeps(
    ledger: LedgerView,
    stake: StakeIdView,
    pool_id: Seq<char>,
    slot: StakeIdView,
)
    ensures
        bind_entry(ledger, stake, pool_id) matches Ok(after) ==> slot_total(after, slot)
            == slot_total(ledger, slot),
{
    lemma_first_index_spec(ledger, holds_unbound(stake));
    match first_index(ledger, holds_unbound(stake)) {
        Some(i) => {
            lemma_slot_total_update(ledger, i, StakeEntryView { stake, pool: Some(pool_id) }, slot);
        },
        None => {},
    }
}

/// Settling a transfer takes what has left custody from the total of its slot, and nothing
/// else: a token without balance counts as nothing, and no other total changes.
pub proof fn lemma_settle_removes(
    ledger: LedgerView,
    stake: StakeIdView,
    moved: u128,
    slot: StakeIdView,
)
    requires
        moved <= stake.balance() || stake.amount() is None,
    ensures
        settle_entry(ledger, stake, moved) matches Ok(after) ==> slot_total(after, slot)
            == slot_total(ledger, slot) - slot_share(unbound(stake.with_balance(moved)), slot),
{
    lemma_first_index_spec(ledger, holds(stake));
    match first_index(ledger, holds(stake)) {
        Some(i) => {
            lemma_slot_total_remove(ledger, i, slot);
            if left_behind(stake, moved) > 0 {
                lemma_register_adds(
                    ledger.remove(i),
                    stake.with_balance(left_behind(stake, moved) as u128),
                    slot,
                );
            }
        },
        None => {
            lemma_take_removes(ledger, stake.with_balance(moved), slot);
        },
    }
}

/// The stakes of one account.
#[derive(Debug, PartialEq, Eq)]
pub struct Ledger {
    entries: Vec<StakeEntry>,
}

impl View for Ledger {
    type V = LedgerView;

    closed spec fn view(&self) -> LedgerView {
        self.entries.deep_view()
    }
}

impl DeepView for Ledger {
    type V = LedgerView;

    open spec fn deep_view(&self) -> LedgerView {
        self@
    }
}

impl Clone for Ledger {
    fn clone(&self) -> (copy: Self)
        ensures
            copy@ == self@,
    {
        let mut entries: Vec<StakeEntry> = Vec::new();
        let mut i: usize = 0;
        while i < self.entries.len()
            invariant
                i <= self.entries.len(),
                entries@.len() == i,
                forall|j: int| 0 <= j < i ==> (#[trigger] entries@[j])@ == self.entries@[j]@,
            decreases self.entries.len() - i,
        {
            entries.push(self.entries[i].clone());
            i += 1;
        }
        assert(entries.deep_view() =~= self.entries.deep_view());
        Ledger { entries }
    }
}

impl Ledger {
    /// A ledger without stakes.
    pub fn new() -> (ledger: Self)
        ensures
            ledger@ == Seq::<StakeEntryView>::empty(),
    {
        let ledger = Ledger { entries: Vec::new() };
        assert(ledger.entries.deep_view() =~= Seq::<StakeEntryView>::empty());
        ledger
    }

    /// A ledger that holds `entries`, in their order.
    pub fn from_entries(entries: Vec<StakeEntry>) -> (ledger: Self)
        ensures
            ledger@ == entries.deep_view(),
    {
        Ledger { entries }
    }

    /// The entries, in ledger order.
    pub fn entries(&self) -> (entries: Vec<StakeEntry>)
        ensures
            entries.deep_view() == self@,
    {
        self.clone().entries
    }

    /// The number of entries.
    pub fn len(&self) -> (len: usize)
        ensures
            len == self@.len(),
    {
        self.entries.len()
    }

    /// The entry at `index`.
    pub fn get(&self, index: usize) -> (entry: &StakeEntry)
        requires
            index < self@.len(),
        ensures
            entry@ == self@[index as int],
    {
        &self.entries[index]
    }

    /// The entries as pairs of handle and binding, in ledger order.
    pub fn stakes(&self) -> (stakes: Vec<(StakeId, Option<PoolId>)>)
        ensures
            stakes.deep_view() == self@.map_values(
                |entry: StakeEntryView| (entry.stake, entry.pool),
            ),
    {
        let mut stakes: Vec<(StakeId, Option<PoolId>)> = Vec::new();
        let mut i: usize = 0;
        while i < self.entries.len()
            invariant
                i <= self.entries.len(),
                stakes@.len() == i,
                forall|j: int|
                    0 <= j < i ==> (#[trigger] stakes@[j]).deep_view() == (
                        self.entries@[j].stake@,
                        self.entries@[j].pool.deep_view(),
                    ),
            decreases self.entries.len() - i,
        {
            let entry = self.entries[i].clone();
            stakes.push((entry.stake, entry.pool));
            i += 1;
        }
        assert(stakes.deep_view() =~= self@.map_values(
            |entry: StakeEntryView| (entry.stake, entry.pool),
        ));
        stakes
    }

    /// Whether some entry is bound to `pool_id`.
    pub fn is_bound_to(&self, pool_id: &PoolId) -> (bound: bool)
        ensures
            bound == bound_to(self@, pool_id@),
    {
        let mut i: usize = 0;
        while i < self.entries.len()
            invariant
                i <= self.entries.len(),
                forall|j: int| 0 <= j < i ==> (#[trigger] self@[j]).pool != Some(pool_id@),
            decreases self.entries.len() - i,
        {
            match &self.entries[i].pool {
                Some(bound_pool) => {
                    if *bound_pool == *pool_id {
                        assert(self@[i as int].pool == Some(pool_id@));
                        return true;
                    }
                },
                None => {},
            }
            i += 1;
        }
        false
    }

    /// The first entry that holds exactly `stake`.
    fn find(&self, stake: &StakeId) -> (found: Option<usize>)
        ensures
            found matches Some(i) ==> first_index(self@, holds(stake@)) == Some(i as int),
            found is None ==> first_index(self@, holds(stake@)) is None,
    {
        let mut i: usize = 0;
        while i < self.entries.len()
            invariant
                i <= self.entries.len(),
                forall|j: int| 0 <= j < i ==> !holds(stake@)(#[trigger] self@[j]),
            decreases self.entries.len() - i,
        {
            if self.entries[i].stake.same(stake) {
                proof {
                    assert(is_first(self@, holds(stake@), i as int));
                    lemma_first_index_found(self@, holds(stake@), i as int);
                }
                return Some(i);
            }
            i += 1;
        }
        proof {
            lemma_first_index_none(self@, holds(stake@));
        }
        None
    }

    /// The first unbound entry that holds exactly `stake`.
    fn find_unbound(&self, stake: &StakeId) -> (found: Option<usize>)
        ensures
            found matches Some(i) ==> first_index(self@, holds_unbound(stake@)) == Some(i as int),
            found is None ==> first_index(self@, holds_unbound(stake@)) is None,
    {
        let mut i: usize = 0;
        while i < self.entries.len()
            invariant
                i <= self.entries.len(),
                forall|j: int| 0 <= j < i ==> !holds_unbound(stake@)(#[trigger] self@[j]),
            decreases self.entries.len() - i,
        {
            if self.entries[i].pool.is_none() && self.entries[i].stake.same(stake) {
                proof {
                    assert(is_first(self@, holds_unbound(stake@), i as int));
                    lemma_first_index_found(self@, holds_unbound(stake@), i as int);
                }
                return Some(i);
            }
            i += 1;
        }
        proof {
            lemma_first_index_none(self@, holds_unbound(stake@));
        }
        None
    }

    /// The first unbound entry that holds a balance in the slot of `stake`.
    fn find_in_slot(&self, stake: &StakeId) -> (found: Option<usize>)
        ensures
            found matches Some(i) ==> first_index(self@, unbound_in_slot(stake@)) == Some(i as int),
            found is None ==> first_index(self@, unbound_in_slot(stake@)) is None,
    {
        if stake.token.get_amount().is_none() {
            proof {
                lemma_first_index_none(self@, unbound_in_slot(stake@));
            }
            return None;
        }
        let mut i: usize = 0;
        while i < self.entries.len()
            invariant
                i <= self.entries.len(),
                stake@.amount() is Some,
                forall|j: int| 0 <= j < i ==> !unbound_in_slot(stake@)(#[trigger] self@[j]),
            decreases self.entries.len() - i,
        {
            if self.entries[i].pool.is_none() && self.entries[i].stake.same_slot(stake) {
                proof {
                    assert(is_first(self@, unbound_in_slot(stake@), i as int));
                    lemma_first_index_found(self@, unbound_in_slot(stake@), i as int);
                }
                return Some(i);
            }
            i += 1;
        }
        proof {
            lemma_first_index_none(self@, unbound_in_slot(stake@));
        }
        None
    }

    /// The first unbound entry whose balance in the slot of `stake` covers its amount.
    fn find_covering(&self, stake: &StakeId) -> (found: Option<usize>)
        ensures
            found matches Some(i) ==> first_index(self@, unbound_covering(stake@)) == Some(
                i as int,
            ),
            found is None ==> first_index(self@, unbound_covering(stake@)) is None,
    {
        let amount = match stake.token.get_amount() {
            Some(amount) => amount,
            None => {
                proof {
                    lemma_first_index_none(self@, unbound_covering(stake@));
                }
                return None;
            },
        };
        let mut i: usize = 0;
        while i < self.entries.len()
            invariant
                i <= self.entries.len(),
                stake@.amount() == Some(amount),
                forall|j: int| 0 <= j < i ==> !unbound_covering(stake@)(#[trigger] self@[j]),
            decreases self.entries.len() - i,
        {
            if self.entries[i].pool.is_none() && self.entries[i].stake.same_slot(stake) {
                match self.entries[i].stake.token.get_amount() {
                    Some(balance) => {
                        if balance >= amount {
                            proof {
                                assert(is_first(self@, unbound_covering(stake@), i as int));
                                lemma_first_index_found(self@, unbound_covering(stake@), i as int);
                            }
                            return Some(i);
                        }
                    },
                    None => {},
                }
            }
            i += 1;
        }
        proof {
            lemma_first_index_none(self@, unbound_covering(stake@));
        }
        None
    }

    /// Registers `stake` as unbound. A balance is merged into the first unbound entry of its
    /// slot, so that several deposits of one token make one entry; where the sum is not
    /// representable the deposit is refused with `Overflow`.
    pub fn register(&mut self, stake: StakeId) -> (done: Result<(), StakeError>)
        ensures
            steps_to(old(self)@, final(self)@, done, register_entry(old(self)@, stake@)),
    {
        match self.find_in_slot(&stake) {
            Some(i) => {
                proof {
                    lemma_first_index_spec(self@, unbound_in_slot(stake@));
                }
                match self.entries[i].stake.merge(&stake) {
                    Some(merged) => {
                        self.entries[i] = StakeEntry { stake: merged, pool: None };
                        assert(self.entries.deep_view() =~= old(self).entries.deep_view().update(
                            i as int,
                            unbound(merged@),
                        ));
                        Ok(())
                    },
                    None => Err(StakeError::Overflow),
                }
            },
            None => {
                self.entries.push(StakeEntry { stake, pool: None });
                assert(self.entries.deep_view() =~= old(self).entries.deep_view().push(
                    unbound(stake@),
                ));
                Ok(())
            },
        }
    }

    /// Takes the amount of `stake` from the first unbound entry of its slot that covers it.
    fn take(&mut self, stake: &StakeId) -> (done: Result<(), StakeError>)
        ensures
            steps_to(old(self)@, final(self)@, done, take_entry(old(self)@, stake@)),
    {
        match self.find_covering(stake) {
            Some(i) => {
                proof {
                    lemma_first_index_spec(self@, unbound_covering(stake@));
                }
                let balance = match self.entries[i].stake.token.get_amount() {
                    Some(balance) => balance,
                    None => 0,
                };
                let amount = match stake.token.get_amount() {
                    Some(amount) => amount,
                    None => 0,
                };
                if balance == amount {
                    self.entries.remove(i);
                    assert(self.entries.deep_view() =~= old(self).entries.deep_view().remove(
                        i as int,
                    ));
                } else {
                    let rest = self.entries[i].stake.with_balance(balance - amount);
                    self.entries[i] = StakeEntry { stake: rest, pool: None };
                    assert(self.entries.deep_view() =~= old(self).entries.deep_view().update(
                        i as int,
                        unbound(rest@),
                    ));
                }
                Ok(())
            },
            None => Err(StakeError::StakeNotRegistered),
        }
    }

    /// Unregisters `stake`. An unbound entry that holds exactly `stake` is removed. Failing
    /// that, an entry that holds exactly `stake` but is bound refuses the request with
    /// `StakeStillBound`; failing that too, the amount is split off an unbound balance of the
    /// slot that covers it. Otherwise the stake is not registered.
    pub fn unregister(&mut self, stake: &StakeId) -> (done: Result<(), StakeError>)
        ensures
            steps_to(old(self)@, final(self)@, done, unregister_entry(old(self)@, stake@)),
    {
        match self.find_unbound(stake) {
            Some(i) => {
                proof {
                    lemma_first_index_spec(self@, holds_unbound(stake@));
                }
                self.entries.remove(i);
                assert(self.entries.deep_view() =~= old(self).entries.deep_view().remove(i as int));
                Ok(())
            },
            None => match self.find(stake) {
                Some(i) => {
                    proof {
                        lemma_first_index_spec(self@, holds(stake@));
                        lemma_first_index_spec(self@, holds_unbound(stake@));
                        assert(!holds_unbound(stake@)(self@[i as int]));
                    }
                    match &self.entries[i].pool {
                        Some(pool_id) => Err(
                            StakeError::StakeStillBound { pool_id: pool_id.clone() },
                        ),
                        None => Err(StakeError::StakeNotRegistered),
                    }
                },
                None => self.take(stake),
            },
        }
    }

    /// Binds the first unbound entry that holds exactly `stake` to `pool_id`. Where every entry
    /// that holds it is bound, the request is refused: with `StakeAlreadyStaked` if the first of
    /// them is bound to `pool_id`, else with `StakeAlreadyBoundElsewhere`.
    pub fn bind(&mut self, stake: &StakeId, pool_id: PoolId) -> (done: Result<(), StakeError>)
        ensures
            steps_to(old(self)@, final(self)@, done, bind_entry(old(self)@, stake@, pool_id@)),
    {
        match self.find_unbound(stake) {
            Some(i) => {
                proof {
                    lemma_first_index_spec(self@, holds_unbound(stake@));
                }
                self.entries[i].pool = Some(pool_id);
                assert(self.entries.deep_view() =~= old(self).entries.deep_view().update(
                    i as int,
                    StakeEntryView { stake: stake@, pool: Some(pool_id@) },
                ));
                Ok(())
            },
            None => match self.find(stake) {
                Some(i) => {
                    proof {
                        lemma_first_index_spec(self@, holds(stake@));
                        lemma_first_index_spec(self@, holds_unbound(stake@));
                        assert(!holds_unbound(stake@)(self@[i as int]));
                    }
                    match &self.entries[i].pool {
                        Some(bound_pool) => {
                            if *bound_pool == pool_id {
                                Err(StakeError::StakeAlreadyStaked)
                            } else {
                                Err(StakeError::StakeAlreadyBoundElsewhere)
                            }
                        },
                        None => Err(StakeError::StakeNotRegistered),
                    }
                },
                None => Err(StakeError::StakeNotRegistered),
            },
        }
    }

    /// Records that `moved` of `stake` has left custody. The first entry that holds exactly
    /// `stake` is removed, bound or not, and what stays behind of it is registered again,
    /// unbound. Where no entry holds exactly `stake` any more, `moved` is taken from an unbound
    /// balance of the slot.
    pub fn settle(&mut self, stake: &StakeId, moved: u128) -> (done: Result<(), StakeError>)
        ensures
            steps_to(old(self)@, final(self)@, done, settle_entry(old(self)@, stake@, moved)),
    {
        match self.find(stake) {
            Some(i) => {
                let balance = match stake.token.get_amount() {
                    Some(balance) => balance,
                    None => 0,
                };
                let entry = self.entries.remove(i);
                assert(self.entries.deep_view() =~= old(self).entries.deep_view().remove(i as int));
                if balance > moved {
                    let done = self.register(stake.with_balance(balance - moved));
                    if done.is_err() {
                        let ghost rest = self.entries.deep_view();
                        self.entries.insert(i, entry);
                        assert(self.entries.deep_view() =~= rest.insert(i as int, entry@));
                        assert(rest.insert(i as int, entry@) =~= old(self).entries.deep_view());
                    }
                    done
                } else {
                    Ok(())
                }
            },
            None => self.take(&stake.with_balance(moved)),
        }
    }

    /// Finds what an unstake of `stake` moves: the handle of the entry that holds the asset,
    /// and the amount where only a part of that entry is asked for. The ledger is not changed:
    /// it is settled when the asset contract has confirmed the transfer.
    pub fn unstake_source(&self, stake: &StakeId) -> (source: Result<
        (StakeId, Option<u128>),
        StakeError,
    >)
        ensures
            match unstake_source(self@, stake@) {
                Ok(expected) => source matches Ok(found) && found.0@ == expected.0 && found.1
                    == expected.1,
                Err(error) => source matches Err(e) && e@ == error,
            },
    {
        match self.find_unbound(stake) {
            Some(_) => Ok((stake.clone(), None)),
            None => match self.find(stake) {
                Some(i) => {
                    proof {
                        lemma_first_index_spec(self@, holds(stake@));
                        lemma_first_index_spec(self@, holds_unbound(stake@));
                        assert(!holds_unbound(stake@)(self@[i as int]));
                    }
                    match &self.entries[i].pool {
                        Some(pool_id) => Err(
                            StakeError::StakeStillBound { pool_id: pool_id.clone() },
                        ),
                        None => Err(StakeError::StakeNotRegistered),
                    }
                },
                None => match self.find_covering(stake) {
                    Some(i) => {
                        proof {
                            lemma_first_index_spec(self@, unbound_covering(stake@));
                        }
                        Ok((self.entries[i].stake.clone(), stake.token.get_amount()))
                    },
                    None => Err(StakeError::StakeNotRegistered),
                },
            },
        }
    }

    /// Registers each of `stakes` in turn, all or none: where one is refused, the ledger is
    /// left as it was.
    pub fn register_all(&mut self, stakes: &Vec<StakeId>) -> (done: Result<(), StakeError>)
        ensures
            steps_to(
                old(self)@,
                final(self)@,
                done,
                register_entries(old(self)@, stakes.deep_view()),
            ),
    {
        let saved = self.clone();
        let mut i: usize = 0;
        while i < stakes.len()
            invariant
                i <= stakes.len(),
                saved@ == old(self)@,
                register_entries(old(self)@, stakes.deep_view().take(i as int)) == Ok::<
                    LedgerView,
                    StakeErrorView,
                >(self@),
            decreases stakes.len() - i,
        {
            let done = self.register(stakes[i].clone());
            proof {
                let batch = stakes.deep_view();
                assert(batch.take(i as int + 1).drop_last() =~= batch.take(i as int));
            }
            if done.is_err() {
                proof {
                    lemma_register_entries_refused(
                        old(self)@,
                        stakes.deep_view(),
                        i as int + 1,
                    );
                }
                self.entries = saved.entries;
                return done;
            }
            i += 1;
        }
        proof {
            assert(stakes.deep_view().take(i as int) =~= stakes.deep_view());
        }
        Ok(())
    }
}

/// A batch is refused for the reason its first refused part is.
pub proof fn lemma_register_entries_refused(ledger: LedgerView, stakes: Seq<StakeIdView>, n: int)
    requires
        0 <= n <= stakes.len(),
        register_entries(ledger, stakes.take(n)) is Err,
    ensures
        register_entries(ledger, stakes) == register_entries(ledger, stakes.take(n)),
    decreases stakes.len(),
{
    if n == stakes.len() {
        assert(stakes.take(n) =~= stakes);
    } else {
        assert(stakes.drop_last().take(n) =~= stakes.take(n));
        lemma_register_entries_refused(ledger, stakes.drop_last(), n);
    }
}

} // verus!
