//! Pools: named escrow agreements with a fixed set of outcomes and a payout graph that says,
//! for each outcome, who receives which stake from whom should that outcome win.

use vstd::prelude::*;

use crate::error::{steps_to, StakeError, StakeErrorView};
use crate::keyed::{
    keyed, lemma_keyed_at, lemma_keyed_empty, lemma_keyed_place, lemma_keyed_push,
    lemma_keyed_update, well_keyed,
};
use crate::search::{first_index, is_first, lemma_first_index_found, lemma_first_index_none};
use crate::token::{AccountId, StakeId, StakeIdView};

verus! {

/// A stake that is owed: the handle, and the staker who gives it up.
#[derive(Debug, PartialEq, Eq)]
pub struct Reward {
    pub stake: StakeId,
    pub staker: AccountId,
}

/// Mathematical value of a [`Reward`].
pub struct RewardView {
    pub stake: StakeIdView,
    pub staker: Seq<char>,
}

impl View for Reward {
    type V = RewardView;

    open spec fn view(&self) -> RewardView {
        RewardView { stake: self.stake@, staker: self.staker@ }
    }
}

impl DeepView for Reward {
    type V = RewardView;

    open spec fn deep_view(&self) -> RewardView {
        self@
    }
}

impl Clone for Reward {
    fn clone(&self) -> (copy: Self)
        ensures
            copy == *self,
    {
        Reward { stake: self.stake.clone(), staker: self.staker.clone() }
    }
}

/// One edge of the payout graph of an outcome: `receiver` gets `stake` from `staker`.
#[derive(Debug, PartialEq, Eq)]
pub struct Payout {
    pub receiver: AccountId,
    pub stake: StakeId,
    pub staker: AccountId,
}

/// Mathematical value of a [`Payout`].
pub struct PayoutView {
    pub receiver: Seq<char>,
    pub stake: StakeIdView,
    pub staker: Seq<char>,
}

impl PayoutView {
    /// What is owed, without the receiver.
    pub open spec fn reward(self) -> RewardView {
        RewardView { stake: self.stake, staker: self.staker }
    }
}

impl View for Payout {
    type V = PayoutView;

    open spec fn view(&self) -> PayoutView {
        PayoutView { receiver: self.receiver@, stake: self.stake@, staker: self.staker@ }
    }
}

impl DeepView for Payout {
    type V = PayoutView;

    open spec fn deep_view(&self) -> PayoutView {
        self@
    }
}

/// What the accounts of one outcome are owed should it win: each account that takes part in
/// the outcome, with the rewards that go to it, in the order they were staked.
pub type RewardsView = Map<Seq<char>, Seq<RewardView>>;

/// The payout graph: for each outcome of the pool, what its accounts are owed.
pub type StakesView = Map<Seq<char>, RewardsView>;

/// The rewards that go to `account`: none where it takes no part.
pub open spec fn rewards_of(rewards: RewardsView, account: Seq<char>) -> Seq<RewardView> {
    if rewards.dom().contains(account) {
        rewards[account]
    } else {
        Seq::empty()
    }
}

/// Whether some reward is owed by `staker`.
pub open spec fn owed_by(rewards: RewardsView, staker: Seq<char>) -> bool {
    exists|account: Seq<char>, i: int|
        rewards.dom().contains(account) && 0 <= i < rewards[account].len()
            && #[trigger] rewards[account][i].staker == staker
}

/// The rewards that `payouts` hand to `receiver`, in order.
pub open spec fn payouts_to(payouts: Seq<PayoutView>, receiver: Seq<char>) -> Seq<RewardView>
    decreases payouts.len(),
{
    if payouts.len() == 0 {
        Seq::empty()
    } else if payouts.last().receiver == receiver {
        payouts_to(payouts.drop_last(), receiver).push(payouts.last().reward())
    } else {
        payouts_to(payouts.drop_last(), receiver)
    }
}

/// Whether `payouts` hand every account exactly the rewards that `rewards` owes it, in the
/// order they were staked. The order among different receivers is left open.
pub open spec fn pays_out(payouts: Seq<PayoutView>, rewards: RewardsView) -> bool {
    forall|receiver: Seq<char>| #[trigger]
        payouts_to(payouts, receiver) == rewards_of(rewards, receiver)
}

/// One more payout is one more reward for its receiver, and changes nothing for anyone else.
pub proof fn lemma_payouts_to_push(
    payouts: Seq<PayoutView>,
    payout: PayoutView,
    receiver: Seq<char>,
)
    ensures
        payouts_to(payouts.push(payout), receiver) == if payout.receiver == receiver {
            payouts_to(payouts, receiver).push(payout.reward())
        } else {
            payouts_to(payouts, receiver)
        },
{
    assert(payouts.push(payout).drop_last() =~= payouts);
}

/// The rewards of one account of an outcome.
#[derive(Debug, PartialEq, Eq)]
struct AccountRewards {
    account: AccountId,
    rewards: Vec<Reward>,
}

/// The accounts of one outcome.
#[derive(Debug, PartialEq, Eq)]
struct OutcomeStakes {
    outcome: AccountId,
    accounts: Vec<AccountRewards>,
}

impl OutcomeStakes {
    spec fn keys(&self) -> Seq<Seq<char>> {
        Seq::new(self.accounts@.len(), |i: int| self.accounts@[i].account@)
    }

    spec fn values(&self) -> Seq<Seq<RewardView>> {
        Seq::new(self.accounts@.len(), |i: int| self.accounts@[i].rewards.deep_view())
    }

    spec fn wf(&self) -> bool {
        self.keys().no_duplicates()
    }

    spec fn rewards(&self) -> RewardsView {
        keyed(self.keys(), self.values())
    }

    fn new(outcome: AccountId) -> (stakes: Self)
        ensures
            stakes.wf(),
            stakes.outcome == outcome,
            stakes.rewards() == Map::<Seq<char>, Seq<RewardView>>::empty(),
    {
        let stakes = OutcomeStakes { outcome, accounts: Vec::new() };
        proof {
            lemma_keyed_empty::<Seq<char>, Seq<RewardView>>();
            assert(stakes.keys() =~= Seq::empty());
            assert(stakes.values() =~= Seq::empty());
        }
        stakes
    }

    /// The place of `account`.
    fn find(&self, account: &AccountId) -> (found: Option<usize>)
        ensures
            found matches Some(i) ==> i < self.accounts@.len() && self.keys()[i as int] == account@,
            found is None ==> !self.keys().contains(account@),
    {
        let mut i: usize = 0;
        while i < self.accounts.len()
            invariant
                i <= self.accounts.len(),
                forall|j: int| 0 <= j < i ==> #[trigger] self.keys()[j] != account@,
            decreases self.accounts.len() - i,
        {
            if self.accounts[i].account == *account {
                return Some(i);
            }
            i += 1;
        }
        None
    }

    /// Makes `account` take part in the outcome, owed nothing, unless it does already.
    fn ensure(&mut self, account: &AccountId)
        requires
            old(self).wf(),
        ensures
            final(self).wf(),
            final(self).outcome == old(self).outcome,
            final(self).rewards() == if old(self).rewards().dom().contains(account@) {
                old(self).rewards()
            } else {
                old(self).rewards().insert(account@, Seq::empty())
            },
    {
        match self.find(account) {
            Some(i) => {
                proof {
                    lemma_keyed_at(self.keys(), self.values(), i as int);
                }
            },
            None => {
                self.accounts.push(
                    AccountRewards { account: account.clone(), rewards: Vec::new() },
                );
                proof {
                    assert(self.keys() =~= old(self).keys().push(account@));
                    assert(self.values() =~~= old(self).values().push(Seq::empty()));
                    lemma_keyed_push(old(self).keys(), old(self).values(), account@, Seq::empty());
                }
            },
        }
    }

    /// Adds `reward` to what `receiver` is owed.
    fn add_reward(&mut self, receiver: &AccountId, reward: Reward)
        requires
            old(self).wf(),
        ensures
            final(self).wf(),
            final(self).outcome == old(self).outcome,
            final(self).rewards() == old(self).rewards().insert(
                receiver@,
                rewards_of(old(self).rewards(), receiver@).push(reward@),
            ),
    {
        match self.find(receiver) {
            Some(i) => {
                self.accounts[i].rewards.push(reward);
                proof {
                    lemma_keyed_at(old(self).keys(), old(self).values(), i as int);
                    assert(self.keys() =~= old(self).keys());
                    assert(self.accounts@[i as int].rewards.deep_view() =~= old(
                        self,
                    ).values()[i as int].push(reward@));
                    assert(self.values() =~= old(self).values().update(
                        i as int,
                        old(self).values()[i as int].push(reward@),
                    ));
                    lemma_keyed_update(
                        old(self).keys(),
                        old(self).values(),
                        i as int,
                        old(self).values()[i as int].push(reward@),
                    );
                }
            },
            None => {
                let mut rewards: Vec<Reward> = Vec::new();
                rewards.push(reward);
                self.accounts.push(AccountRewards { account: receiver.clone(), rewards });
                proof {
                    assert(rewards.deep_view() =~= Seq::<RewardView>::empty().push(reward@));
                    assert(self.keys() =~= old(self).keys().push(receiver@));
                    assert(self.values() =~= old(self).values().push(rewards.deep_view()));
                    lemma_keyed_push(
                        old(self).keys(),
                        old(self).values(),
                        receiver@,
                        rewards.deep_view(),
                    );
                }
            },
        }
    }

    /// Whether some reward of the outcome is owed by `staker`.
    fn owes(&self, staker: &AccountId) -> (owes: bool)
        requires
            self.wf(),
        ensures
            owes == owed_by(self.rewards(), staker@),
    {
        let mut i: usize = 0;
        while i < self.accounts.len()
            invariant
                i <= self.accounts.len(),
                self.wf(),
                forall|a: int, b: int|
                    0 <= a < i && 0 <= b < self.values()[a].len() ==> (
                    #[trigger] self.values()[a][b]).staker != staker@,
            decreases self.accounts.len() - i,
        {
            let mut j: usize = 0;
            while j < self.accounts[i].rewards.len()
                invariant
                    i < self.accounts.len(),
                    j <= self.accounts[i as int].rewards.len(),
                    self.wf(),
                    forall|b: int|
                        0 <= b < j ==> (#[trigger] self.values()[i as int][b]).staker != staker@,
                decreases self.accounts[i as int].rewards.len() - j,
            {
                if self.accounts[i].rewards[j].staker == *staker {
                    proof {
                        lemma_keyed_at(self.keys(), self.values(), i as int);
                        assert(self.rewards()[self.keys()[i as int]][j as int].staker == staker@);
                    }
                    return true;
                }
                j += 1;
            }
            i += 1;
        }
        proof {
            if owed_by(self.rewards(), staker@) {
                let (account, b) = choose|account: Seq<char>, b: int|
                    self.rewards().dom().contains(account) && 0 <= b < self.rewards()[account].len()
                        && #[trigger] self.rewards()[account][b].staker == staker@;
                lemma_keyed_place(self.keys(), self.values(), account);
                let a = self.keys().index_of(account);
                assert(self.values()[a][b].staker != staker@);
            }
        }
        false
    }

    /// Empties the outcome and returns everything that was owed under it.
    fn drain(&mut self) -> (payouts: Vec<Payout>)
        requires
            old(self).wf(),
        ensures
            final(self).wf(),
            final(self).outcome == old(self).outcome,
            final(self).rewards() == Map::<Seq<char>, Seq<RewardView>>::empty(),
            pays_out(payouts.deep_view(), old(self).rewards()),
    {
        let mut payouts: Vec<Payout> = Vec::new();
        let ghost keys = self.keys();
        let ghost values = self.values();
        proof {
            lemma_keyed_empty::<Seq<char>, Seq<RewardView>>();
            assert(keys.take(0) =~= Seq::empty());
            assert(values.take(0) =~= Seq::empty());
            assert(payouts.deep_view() =~= Seq::empty());
        }
        let mut i: usize = 0;
        while i < self.accounts.len()
            invariant
                i <= self.accounts.len(),
                self.wf(),
                keys == self.keys(),
                values == self.values(),
                well_keyed(keys.take(i as int), values.take(i as int)),
                pays_out(payouts.deep_view(), keyed(keys.take(i as int), values.take(i as int))),
            decreases self.accounts.len() - i,
        {
            let ghost before = keyed(keys.take(i as int), values.take(i as int));
            proof {
                assert(!keys.take(i as int).contains(keys[i as int])) by {
                    if keys.take(i as int).contains(keys[i as int]) {
                        let a = keys.take(i as int).index_of(keys[i as int]);
                        assert(keys[a] == keys[i as int]);
                    }
                }
                assert(values[i as int].take(0) =~= Seq::empty());
                assert forall|receiver: Seq<char>| #[trigger]
                    payouts_to(payouts.deep_view(), receiver) == if receiver == keys[i as int] {
                        values[i as int].take(0)
                    } else {
                        rewards_of(before, receiver)
                    } by {
                    assert(payouts_to(payouts.deep_view(), receiver) == rewards_of(
                        before,
                        receiver,
                    ));
                }
            }
            let mut j: usize = 0;
            while j < self.accounts[i].rewards.len()
                invariant
                    i < self.accounts.len(),
                    j <= self.accounts[i as int].rewards.len(),
                    keys == self.keys(),
                    values == self.values(),
                    forall|receiver: Seq<char>| #[trigger]
                        payouts_to(payouts.deep_view(), receiver) == if receiver == keys[i as int] {
                            values[i as int].take(j as int)
                        } else {
                            rewards_of(before, receiver)
                        },
                decreases self.accounts[i as int].rewards.len() - j,
            {
                let reward = self.accounts[i].rewards[j].clone();
                let payout = Payout {
                    receiver: self.accounts[i].account.clone(),
                    stake: reward.stake,
                    staker: reward.staker,
                };
                let ghost paid = payouts.deep_view();
                payouts.push(payout);
                proof {
                    assert(payouts.deep_view() =~= paid.push(payout@));
                    assert(values[i as int].take(j as int + 1) =~= values[i as int].take(
                        j as int,
                    ).push(payout@.reward()));
                    assert forall|receiver: Seq<char>| #[trigger]
                        payouts_to(payouts.deep_view(), receiver) == if receiver == keys[i as int] {
                            values[i as int].take(j as int + 1)
                        } else {
                            rewards_of(before, receiver)
                        } by {
                        lemma_payouts_to_push(paid, payout@, receiver);
                        assert(payouts_to(paid, receiver) == if receiver == keys[i as int] {
                            values[i as int].take(j as int)
                        } else {
                            rewards_of(before, receiver)
                        });
                    }
                }
                j += 1;
            }
            proof {
                assert(values[i as int].take(j as int) =~= values[i as int]);
                lemma_keyed_push(
                    keys.take(i as int),
                    values.take(i as int),
                    keys[i as int],
                    values[i as int],
                );
                assert(keys.take(i as int + 1) =~= keys.take(i as int).push(keys[i as int]));
                assert(values.take(i as int + 1) =~= values.take(i as int).push(values[i as int]));
                let after = keyed(keys.take(i as int + 1), values.take(i as int + 1));
                assert forall|receiver: Seq<char>| #[trigger]
                    payouts_to(payouts.deep_view(), receiver) == rewards_of(after, receiver) by {
                    assert(payouts_to(payouts.deep_view(), receiver) == if receiver
                        == keys[i as int] {
                        values[i as int].take(j as int)
                    } else {
                        rewards_of(before, receiver)
                    });
                }
            }
            i += 1;
        }
        proof {
            assert(keys.take(i as int) =~= keys);
            assert(values.take(i as int) =~= values);
        }
        self.accounts = Vec::new();
        proof {
            assert(self.keys() =~= Seq::empty());
            assert(self.values() =~= Seq::empty());
        }
        payouts
    }
}

impl AccountRewards {
    fn duplicate(&self) -> (copy: Self)
        ensures
            copy.account == self.account,
            copy.rewards.deep_view() == self.rewards.deep_view(),
    {
        let mut rewards: Vec<Reward> = Vec::new();
        let mut i: usize = 0;
        while i < self.rewards.len()
            invariant
                i <= self.rewards.len(),
                rewards@.len() == i,
                forall|j: int| 0 <= j < i ==> (#[trigger] rewards@[j])@ == self.rewards@[j]@,
            decreases self.rewards.len() - i,
        {
            rewards.push(self.rewards[i].clone());
            i += 1;
        }
        assert(rewards.deep_view() =~= self.rewards.deep_view());
        AccountRewards { account: self.account.clone(), rewards }
    }
}

impl OutcomeStakes {
    fn duplicate(&self) -> (copy: Self)
        ensures
            copy.outcome == self.outcome,
            copy.keys() == self.keys(),
            copy.values() == self.values(),
    {
        let mut accounts: Vec<AccountRewards> = Vec::new();
        let mut i: usize = 0;
        while i < self.accounts.len()
            invariant
                i <= self.accounts.len(),
                accounts@.len() == i,
                forall|j: int|
                    0 <= j < i ==> (#[trigger] accounts@[j]).account == self.accounts@[j].account
                        && accounts@[j].rewards.deep_view()
                        == self.accounts@[j].rewards.deep_view(),
            decreases self.accounts.len() - i,
        {
            accounts.push(self.accounts[i].duplicate());
            i += 1;
        }
        let copy = OutcomeStakes { outcome: self.outcome.clone(), accounts };
        assert(copy.keys() =~= self.keys());
        assert(copy.values() =~= self.values());
        copy
    }
}

/// Entries of a list of receivers that name the receiver for `outcome`.
pub open spec fn names_outcome(outcome: Seq<char>) -> spec_fn((Seq<char>, Seq<char>)) -> bool {
    |pair: (Seq<char>, Seq<char>)| pair.0 == outcome
}

/// Who receives a stake should `outcome` win: the receiver that the first entry of `receivers`
/// for that outcome names, and `default_receiver` where there is none.
pub open spec fn receiver_for(
    receivers: Seq<(Seq<char>, Seq<char>)>,
    default_receiver: Seq<char>,
    outcome: Seq<char>,
) -> Seq<char> {
    match first_index(receivers, names_outcome(outcome)) {
        Some(i) => receivers[i].1,
        None => default_receiver,
    }
}

/// Whether `staker` would receive their own stake under some outcome other than `chosen`.
pub open spec fn self_receiving(
    stakes: StakesView,
    chosen: Seq<char>,
    staker: Seq<char>,
    receivers: Seq<(Seq<char>, Seq<char>)>,
    default_receiver: Seq<char>,
) -> bool {
    exists|outcome: Seq<char>| #[trigger]
        stakes.dom().contains(outcome) && outcome != chosen && receiver_for(
            receivers,
            default_receiver,
            outcome,
        ) == staker
}

/// What the accounts of `outcome` are owed once `staker` has staked `stake` on `chosen`. Under
/// the chosen outcome the staker takes part, owed nothing more than before; under every other
/// outcome the receiver for that outcome is owed the stake.
pub open spec fn staked_rewards(
    rewards: RewardsView,
    outcome: Seq<char>,
    chosen: Seq<char>,
    staker: Seq<char>,
    stake: StakeIdView,
    receivers: Seq<(Seq<char>, Seq<char>)>,
    default_receiver: Seq<char>,
) -> RewardsView {
    if outcome == chosen {
        if rewards.dom().contains(staker) {
            rewards
        } else {
            rewards.insert(staker, Seq::empty())
        }
    } else {
        let receiver = receiver_for(receivers, default_receiver, outcome);
        rewards.insert(receiver, rewards_of(rewards, receiver).push(RewardView { stake, staker }))
    }
}

/// The payout graph once `staker` has staked `stake` on `chosen`.
pub open spec fn with_stake(
    stakes: StakesView,
    chosen: Seq<char>,
    staker: Seq<char>,
    stake: StakeIdView,
    receivers: Seq<(Seq<char>, Seq<char>)>,
    default_receiver: Seq<char>,
) -> StakesView {
    Map::new(
        |outcome: Seq<char>| stakes.dom().contains(outcome),
        |outcome: Seq<char>|
            staked_rewards(
                stakes[outcome],
                outcome,
                chosen,
                staker,
                stake,
                receivers,
                default_receiver,
            ),
    )
}

/// The payout graph after `staker` stakes `stake` on `chosen`, or why the stake is refused. A
/// staker may not be their own receiver under any other outcome; the chosen outcome must be
/// one of the pool's; and a staker who owes a reward under the chosen outcome has bet on
/// another outcome before and may not bet on this one.
pub open spec fn add_stake_spec(
    stakes: StakesView,
    chosen: Seq<char>,
    staker: Seq<char>,
    stake: StakeIdView,
    receivers: Seq<(Seq<char>, Seq<char>)>,
    default_receiver: Seq<char>,
) -> Result<StakesView, StakeErrorView> {
    if self_receiving(stakes, chosen, staker, receivers, default_receiver) {
        Err(StakeErrorView::SelfReceiverDisallowed)
    } else if !stakes.dom().contains(chosen) {
        Err(StakeErrorView::UnknownOutcome)
    } else if owed_by(stakes[chosen], staker) {
        Err(StakeErrorView::DuplicateStakeOutcome)
    } else {
        Ok(with_stake(stakes, chosen, staker, stake, receivers, default_receiver))
    }
}

/// The payout graph of a new pool: every outcome, with nobody taking part.
pub open spec fn fresh_stakes(outcomes: Seq<Seq<char>>) -> StakesView {
    Map::new(
        |outcome: Seq<char>| outcomes.contains(outcome),
        |outcome: Seq<char>| Map::<Seq<char>, Seq<RewardView>>::empty(),
    )
}

/// Looks up who receives a stake should `outcome` win.
pub fn find_receiver<'a>(
    receivers: &'a Vec<(AccountId, AccountId)>,
    default_receiver: &'a AccountId,
    outcome: &AccountId,
) -> (receiver: &'a AccountId)
    ensures
        receiver@ == receiver_for(receivers.deep_view(), default_receiver@, outcome@),
{
    let mut i: usize = 0;
    while i < receivers.len()
        invariant
            i <= receivers.len(),
            forall|j: int|
                0 <= j < i ==> !names_outcome(outcome@)(#[trigger] receivers.deep_view()[j]),
        decreases receivers.len() - i,
    {
        if receivers[i].0 == *outcome {
            proof {
                assert(is_first(receivers.deep_view(), names_outcome(outcome@), i as int));
                lemma_first_index_found(receivers.deep_view(), names_outcome(outcome@), i as int);
            }
            return &receivers[i].1;
        }
        i += 1;
    }
    proof {
        lemma_first_index_none(receivers.deep_view(), names_outcome(outcome@));
    }
    default_receiver
}

/// The payout graph of a pool.
#[derive(Debug, PartialEq, Eq)]
pub struct Stakes {
    outcomes: Vec<OutcomeStakes>,
}

impl View for Stakes {
    type V = StakesView;

    closed spec fn view(&self) -> StakesView {
        keyed(self.keys(), self.values())
    }
}

impl DeepView for Stakes {
    type V = StakesView;

    open spec fn deep_view(&self) -> StakesView {
        self@
    }
}

impl Clone for Stakes {
    fn clone(&self) -> (copy: Self)
        ensures
            copy@ == self@,
            self.wf() ==> copy.wf(),
    {
        let mut outcomes: Vec<OutcomeStakes> = Vec::new();
        let mut i: usize = 0;
        while i < self.outcomes.len()
            invariant
                i <= self.outcomes.len(),
                outcomes@.len() == i,
                forall|j: int|
                    0 <= j < i ==> (#[trigger] outcomes@[j]).outcome == self.outcomes@[j].outcome
                        && outcomes@[j].keys() == self.outcomes@[j].keys() && outcomes@[j].values()
                        == self.outcomes@[j].values(),
            decreases self.outcomes.len() - i,
        {
            outcomes.push(self.outcomes[i].duplicate());
            i += 1;
        }
        let copy = Stakes { outcomes };
        assert(copy.keys() =~= self.keys());
        assert(copy.values() =~= self.values());
        copy
    }
}

impl Stakes {
    spec fn keys(&self) -> Seq<Seq<char>> {
        Seq::new(self.outcomes@.len(), |i: int| self.outcomes@[i].outcome@)
    }

    spec fn values(&self) -> Seq<RewardsView> {
        Seq::new(self.outcomes@.len(), |i: int| self.outcomes@[i].rewards())
    }

    /// Whether the graph is well formed: no outcome and, under one outcome, no account is
    /// held twice.
    pub closed spec fn wf(&self) -> bool {
        &&& self.keys().no_duplicates()
        &&& forall|i: int| 0 <= i < self.outcomes@.len() ==> (#[trigger] self.outcomes@[i]).wf()
    }

    /// The place of `outcome`.
    fn find(&self, outcome: &AccountId) -> (found: Option<usize>)
        ensures
            found matches Some(i) ==> i < self.outcomes@.len() && self.keys()[i as int] == outcome@,
            found is None ==> !self.keys().contains(outcome@),
    {
        let mut i: usize = 0;
        while i < self.outcomes.len()
            invariant
                i <= self.outcomes.len(),
                forall|j: int| 0 <= j < i ==> #[trigger] self.keys()[j] != outcome@,
            decreases self.outcomes.len() - i,
        {
            if self.outcomes[i].outcome == *outcome {
                return Some(i);
            }
            i += 1;
        }
        None
    }

    /// The payout graph of a new pool whose outcomes are `pool_results`: every outcome is
    /// there, once however often it is named, and nobody takes part in any.
    pub fn new(pool_results: Vec<AccountId>) -> (stakes: Self)
        ensures
            stakes.wf(),
            stakes@ == fresh_stakes(pool_results.deep_view()),
    {
        let mut stakes = Stakes { outcomes: Vec::new() };
        proof {
            lemma_keyed_empty::<Seq<char>, RewardsView>();
            assert(stakes.keys() =~= Seq::empty());
            assert(stakes.values() =~= Seq::empty());
            assert(pool_results.deep_view().take(0) =~= Seq::empty());
            assert(stakes@ =~= fresh_stakes(pool_results.deep_view().take(0)));
        }
        let mut i: usize = 0;
        while i < pool_results.len()
            invariant
                i <= pool_results.len(),
                stakes.wf(),
                stakes@ == fresh_stakes(pool_results.deep_view().take(i as int)),
            decreases pool_results.len() - i,
        {
            let ghost named = pool_results.deep_view().take(i as int);
            let ghost outcome = pool_results.deep_view()[i as int];
            proof {
                assert(pool_results.deep_view().take(i as int + 1) =~= named.push(outcome));
                assert forall|o: Seq<char>| #[trigger]
                    named.push(outcome).contains(o) <==> (named.contains(o) || o == outcome) by {
                    if named.contains(o) {
                        let j = named.index_of(o);
                        assert(named.push(outcome)[j] == o);
                    }
                    if o == outcome {
                        assert(named.push(outcome)[named.len() as int] == o);
                    }
                    if named.push(outcome).contains(o) {
                        let j = named.push(outcome).index_of(o);
                        if j < named.len() {
                            assert(named[j] == o);
                        }
                    }
                }
            }
            match stakes.find(&pool_results[i]) {
                Some(_) => {
                    proof {
                        assert(stakes@.dom().contains(outcome));
                        assert(stakes@ =~= fresh_stakes(named.push(outcome)));
                    }
                },
                None => {
                    let ghost before = stakes;
                    stakes.outcomes.push(OutcomeStakes::new(pool_results[i].clone()));
                    proof {
                        assert(stakes.keys() =~= before.keys().push(outcome));
                        assert(stakes.values() =~= before.values().push(Map::empty()));
                        lemma_keyed_push(before.keys(), before.values(), outcome, Map::empty());
                        assert(stakes@ =~= fresh_stakes(named.push(outcome)));
                    }
                },
            }
            i += 1;
        }
        proof {
            assert(pool_results.deep_view().take(i as int) =~= pool_results.deep_view());
        }
        stakes
    }

    /// Adds `pool_result` as an outcome in which nobody takes part. The outcome must be new.
    pub fn add_result(&mut self, pool_result: AccountId)
        requires
            old(self).wf(),
            !old(self)@.dom().contains(pool_result@),
        ensures
            final(self).wf(),
            final(self)@ == old(self)@.insert(
                pool_result@,
                Map::<Seq<char>, Seq<RewardView>>::empty(),
            ),
    {
        self.outcomes.push(OutcomeStakes::new(pool_result));
        proof {
            assert(self.keys() =~= old(self).keys().push(pool_result@));
            assert(self.values() =~= old(self).values().push(Map::empty()));
            lemma_keyed_push(old(self).keys(), old(self).values(), pool_result@, Map::empty());
        }
    }

    /// Whether `outcome` is one of the outcomes.
    pub fn has_outcome(&self, outcome: &AccountId) -> (has: bool)
        ensures
            has == self@.dom().contains(outcome@),
    {
        self.find(outcome).is_some()
    }

    /// Whether `account` takes part in `outcome`, as one who bet on it or as a receiver.
    pub fn has_account(&self, outcome: &AccountId, account: &AccountId) -> (has: bool)
        requires
            self.wf(),
        ensures
            has == (self@.dom().contains(outcome@) && self@[outcome@].dom().contains(account@)),
    {
        match self.find(outcome) {
            Some(i) => {
                proof {
                    lemma_keyed_at(self.keys(), self.values(), i as int);
                }
                self.outcomes[i].find(account).is_some()
            },
            None => false,
        }
    }

    /// What `account` is owed should `outcome` win, in the order it was staked: nothing where
    /// the outcome is unknown or the account takes no part in it.
    pub fn rewards(&self, outcome: &AccountId, account: &AccountId) -> (rewards: Vec<Reward>)
        requires
            self.wf(),
        ensures
            rewards.deep_view() == if self@.dom().contains(outcome@) {
                rewards_of(self@[outcome@], account@)
            } else {
                Seq::empty()
            },
    {
        let mut rewards: Vec<Reward> = Vec::new();
        match self.find(outcome) {
            Some(i) => {
                proof {
                    lemma_keyed_at(self.keys(), self.values(), i as int);
                }
                match self.outcomes[i].find(account) {
                    Some(j) => {
                        proof {
                            lemma_keyed_at(
                                self.outcomes@[i as int].keys(),
                                self.outcomes@[i as int].values(),
                                j as int,
                            );
                        }
                        let owed = &self.outcomes[i].accounts[j].rewards;
                        let mut k: usize = 0;
                        while k < owed.len()
                            invariant
                                k <= owed.len(),
                                rewards@.len() == k,
                                forall|n: int|
                                    0 <= n < k ==> (#[trigger] rewards@[n])@ == owed@[n]@,
                            decreases owed.len() - k,
                        {
                            rewards.push(owed[k].clone());
                            k += 1;
                        }
                        assert(rewards.deep_view() =~= owed.deep_view());
                    },
                    None => {
                        assert(rewards.deep_view() =~= Seq::empty());
                    },
                }
            },
            None => {
                assert(rewards.deep_view() =~= Seq::empty());
            },
        }
        rewards
    }

    /// The outcomes, each once.
    pub fn outcomes(&self) -> (outcomes: Vec<AccountId>)
        requires
            self.wf(),
        ensures
            outcomes.deep_view().no_duplicates(),
            outcomes.deep_view().to_set() == self@.dom(),
    {
        let mut outcomes: Vec<AccountId> = Vec::new();
        let mut i: usize = 0;
        while i < self.outcomes.len()
            invariant
                i <= self.outcomes.len(),
                outcomes@.len() == i,
                forall|j: int| 0 <= j < i ==> (#[trigger] outcomes@[j])@ == self.keys()[j],
            decreases self.outcomes.len() - i,
        {
            outcomes.push(self.outcomes[i].outcome.clone());
            i += 1;
        }
        proof {
            assert(outcomes.deep_view() =~= self.keys());
            assert(outcomes.deep_view().to_set() =~= self@.dom());
        }
        outcomes
    }

    /// The accounts that take part in `outcome`, each once: none where the outcome is unknown.
    pub fn accounts(&self, outcome: &AccountId) -> (accounts: Vec<AccountId>)
        requires
            self.wf(),
        ensures
            accounts.deep_view().no_duplicates(),
            accounts.deep_view().to_set() == owed_under(self@, outcome@).dom(),
    {
        let mut accounts: Vec<AccountId> = Vec::new();
        match self.find(outcome) {
            Some(i) => {
                proof {
                    lemma_keyed_at(self.keys(), self.values(), i as int);
                }
                let held = &self.outcomes[i].accounts;
                let mut k: usize = 0;
                while k < held.len()
                    invariant
                        k <= held.len(),
                        i < self.outcomes@.len(),
                        held == &self.outcomes@[i as int].accounts,
                        accounts@.len() == k,
                        forall|n: int|
                            0 <= n < k ==> (#[trigger] accounts@[n])@
                                == self.outcomes@[i as int].keys()[n],
                    decreases held.len() - k,
                {
                    accounts.push(held[k].account.clone());
                    k += 1;
                }
                proof {
                    assert(accounts.deep_view() =~= self.outcomes@[i as int].keys());
                    assert(accounts.deep_view().to_set() =~= self@[outcome@].dom());
                }
            },
            None => {
                proof {
                    assert(accounts.deep_view() =~= Seq::empty());
                    assert(accounts.deep_view().to_set() =~= Set::<Seq<char>>::empty());
                    assert(owed_under(self@, outcome@).dom() =~= Set::<Seq<char>>::empty());
                }
            },
        }
        accounts
    }

    /// Sets what `account` is owed under `outcome` to `rewards`, as when a payout graph that
    /// was written down is read back. Nothing changes where `outcome` is no outcome of the
    /// pool; the result says whether it is one.
    pub fn put_rewards(
        &mut self,
        outcome: &AccountId,
        account: AccountId,
        rewards: Vec<Reward>,
    ) -> (known: bool)
        requires
            old(self).wf(),
        ensures
            final(self).wf(),
            known == old(self)@.dom().contains(outcome@),
            final(self)@ == if known {
                old(self)@.insert(
                    outcome@,
                    old(self)@[outcome@].insert(account@, rewards.deep_view()),
                )
            } else {
                old(self)@
            },
    {
        match self.find(outcome) {
            Some(i) => {
                proof {
                    lemma_keyed_at(self.keys(), self.values(), i as int);
                }
                let ghost before = self.outcomes@[i as int];
                match self.outcomes[i].find(&account) {
                    Some(j) => {
                        self.outcomes[i].accounts[j].rewards = rewards;
                        proof {
                            let after = self.outcomes@[i as int];
                            assert(after.keys() =~= before.keys());
                            assert(after.values() =~= before.values().update(
                                j as int,
                                rewards.deep_view(),
                            ));
                            lemma_keyed_update(
                                before.keys(),
                                before.values(),
                                j as int,
                                rewards.deep_view(),
                            );
                        }
                    },
                    None => {
                        self.outcomes[i].accounts.push(AccountRewards { account, rewards });
                        proof {
                            let after = self.outcomes@[i as int];
                            assert(after.keys() =~= before.keys().push(account@));
                            assert(after.values() =~= before.values().push(rewards.deep_view()));
                            lemma_keyed_push(
                                before.keys(),
                                before.values(),
                                account@,
                                rewards.deep_view(),
                            );
                        }
                    },
                }
                proof {
                    let after = self.outcomes@[i as int];
                    assert(self.keys() =~= old(self).keys());
                    assert(self.values() =~= old(self).values().update(i as int, after.rewards()));
                    lemma_keyed_update(
                        old(self).keys(),
                        old(self).values(),
                        i as int,
                        after.rewards(),
                    );
                }
                true
            },
            None => false,
        }
    }

    /// Records that `staker` stakes `stake` on `pool_result`. Under the chosen outcome the
    /// staker is made to take part; under every other outcome the receiver for that outcome,
    /// `default_receiver` where `receivers` names none, is owed the stake. The stake is refused
    /// with `SelfReceiverDisallowed` where the staker would be such a receiver, with
    /// `UnknownOutcome` where `pool_result` is no outcome of the pool, and with
    /// `DuplicateStakeOutcome` where the staker has bet on another outcome before.
    pub fn add_stake(
        &mut self,
        pool_result: &AccountId,
        staker: &AccountId,
        stake: &StakeId,
        receivers: &Vec<(AccountId, AccountId)>,
        default_receiver: &AccountId,
    ) -> (done: Result<(), StakeError>)
        requires
            old(self).wf(),
        ensures
            final(self).wf(),
            steps_to(
                old(self)@,
                final(self)@,
                done,
                add_stake_spec(
                    old(self)@,
                    pool_result@,
                    staker@,
                    stake@,
                    receivers.deep_view(),
                    default_receiver@,
                ),
            ),
    {
        let ghost named = receivers.deep_view();
        let mut i: usize = 0;
        while i < self.outcomes.len()
            invariant
                i <= self.outcomes.len(),
                *self == *old(self),
                self.wf(),
                named == receivers.deep_view(),
                forall|a: int|
                    0 <= a < i && #[trigger] self.keys()[a] != pool_result@ ==> receiver_for(
                        named,
                        default_receiver@,
                        self.keys()[a],
                    ) != staker@,
            decreases self.outcomes.len() - i,
        {
            if !(self.outcomes[i].outcome == *pool_result) {
                let receiver = find_receiver(
                    receivers,
                    default_receiver,
                    &self.outcomes[i].outcome,
                );
                if *receiver == *staker {
                    proof {
                        lemma_keyed_at(self.keys(), self.values(), i as int);
                        assert(self@.dom().contains(self.keys()[i as int]));
                    }
                    return Err(StakeError::SelfReceiverDisallowed);
                }
            }
            i += 1;
        }
        proof {
            if self_receiving(self@, pool_result@, staker@, named, default_receiver@) {
                let outcome = choose|outcome: Seq<char>| #[trigger]
                    self@.dom().contains(outcome) && outcome != pool_result@ && receiver_for(
                        named,
                        default_receiver@,
                        outcome,
                    ) == staker@;
                lemma_keyed_place(self.keys(), self.values(), outcome);
                let a = self.keys().index_of(outcome);
                assert(self.keys()[a] == outcome);
            }
        }
        let chosen = match self.find(pool_result) {
            Some(chosen) => chosen,
            None => {
                return Err(StakeError::UnknownOutcome);
            },
        };
        proof {
            lemma_keyed_at(self.keys(), self.values(), chosen as int);
        }
        if self.outcomes[chosen].owes(staker) {
            return Err(StakeError::DuplicateStakeOutcome);
        }
        let ghost keys = self.keys();
        let ghost values = self.values();
        let mut i: usize = 0;
        while i < self.outcomes.len()
            invariant
                i <= self.outcomes.len(),
                self.outcomes@.len() == old(self).outcomes@.len(),
                keys == old(self).keys(),
                values == old(self).values(),
                self.keys() == keys,
                named == receivers.deep_view(),
                forall|a: int|
                    0 <= a < self.outcomes@.len() ==> (#[trigger] self.outcomes@[a]).wf(),
                forall|a: int|
                    0 <= a < i ==> #[trigger] self.values()[a] == staked_rewards(
                        values[a],
                        keys[a],
                        pool_result@,
                        staker@,
                        stake@,
                        named,
                        default_receiver@,
                    ),
                forall|a: int|
                    i <= a < self.outcomes@.len() ==> #[trigger] self.values()[a] == values[a],
            decreases self.outcomes.len() - i,
        {
            let ghost before = *self;
            if self.outcomes[i].outcome == *pool_result {
                self.outcomes[i].ensure(staker);
            } else {
                let receiver = find_receiver(
                    receivers,
                    default_receiver,
                    &self.outcomes[i].outcome,
                ).clone();
                self.outcomes[i].add_reward(
                    &receiver,
                    Reward { stake: stake.clone(), staker: staker.clone() },
                );
            }
            proof {
                assert(self.keys() =~= keys);
                assert(before.values()[i as int] == values[i as int]);
                assert(before.keys()[i as int] == keys[i as int]);
                assert(self.values()[i as int] == self.outcomes@[i as int].rewards());
                assert forall|a: int| 0 <= a < i + 1 implies #[trigger] self.values()[a]
                    == staked_rewards(
                    values[a],
                    keys[a],
                    pool_result@,
                    staker@,
                    stake@,
                    named,
                    default_receiver@,
                ) by {
                    if a < i {
                        assert(self.values()[a] == before.values()[a]);
                    }
                }
                assert forall|a: int| i + 1 <= a < self.outcomes@.len() implies #[trigger]
                    self.values()[a] == values[a] by {
                    assert(self.values()[a] == before.values()[a]);
                }
            }
            i += 1;
        }
        proof {
            let expected = with_stake(
                old(self)@,
                pool_result@,
                staker@,
                stake@,
                named,
                default_receiver@,
            );
            let staked = self@;
            assert forall|outcome: Seq<char>| #[trigger]
                expected.dom().contains(outcome) implies staked[outcome] == expected[outcome] by {
                lemma_keyed_place(keys, values, outcome);
                let a = keys.index_of(outcome);
                lemma_keyed_at(self.keys(), self.values(), a);
                assert(self.values()[a] == staked_rewards(
                    values[a],
                    keys[a],
                    pool_result@,
                    staker@,
                    stake@,
                    named,
                    default_receiver@,
                ));
            }
            assert(self@ =~= expected);
        }
        Ok(())
    }

    /// Empties `outcome` and returns everything that was owed under it. The outcome stays an
    /// outcome of the pool, and what is owed under the other outcomes stays as it is. Nothing
    /// is returned, and nothing changes, where `outcome` is no outcome of the pool.
    pub fn drain(&mut self, outcome: &AccountId) -> (payouts: Vec<Payout>)
        requires
            old(self).wf(),
        ensures
            final(self).wf(),
            final(self)@ == drained(old(self)@, outcome@),
            pays_out(payouts.deep_view(), owed_under(old(self)@, outcome@)),
    {
        match self.find(outcome) {
            Some(i) => {
                proof {
                    lemma_keyed_at(self.keys(), self.values(), i as int);
                }
                let payouts = self.outcomes[i].drain();
                proof {
                    assert(self.keys() =~= old(self).keys());
                    assert(self.values() =~= old(self).values().update(i as int, Map::empty()));
                    lemma_keyed_update(
                        old(self).keys(),
                        old(self).values(),
                        i as int,
                        Map::empty(),
                    );
                }
                payouts
            },
            None => {
                let payouts: Vec<Payout> = Vec::new();
                proof {
                    assert(payouts.deep_view() =~= Seq::empty());
                }
                payouts
            },
        }
    }
}

/// What is owed under `outcome`: nothing where it is no outcome of the pool.
pub open spec fn owed_under(stakes: StakesView, outcome: Seq<char>) -> RewardsView {
    if stakes.dom().contains(outcome) {
        stakes[outcome]
    } else {
        Map::empty()
    }
}

/// The payout graph once everything owed under `outcome` has been handed out.
pub open spec fn drained(stakes: StakesView, outcome: Seq<char>) -> StakesView {
    if stakes.dom().contains(outcome) {
        stakes.insert(outcome, Map::empty())
    } else {
        stakes
    }
}

/// A named escrow agreement. It is created inactive and open for stakes, is made active to
/// close the staking window, and is resolved once a result has been asserted and what was owed
/// under it has been handed out.
#[derive(Debug, PartialEq, Eq)]
pub struct Pool {
    /// Who created the pool.
    pub owner: AccountId,
    /// The experience that taking part asks for.
    pub required_xp: u128,
    /// The payout graph.
    pub required_stakes: Stakes,
    /// Whether the staking window is closed.
    pub active: bool,
    /// Whether what was owed under the result has been handed out.
    pub resolved: bool,
    /// The outcome that won, once asserted.
    pub result: Option<AccountId>,
}

/// Mathematical value of a [`Pool`].
#[verifier::ext_equal]
pub struct PoolView {
    pub owner: Seq<char>,
    pub required_xp: u128,
    pub required_stakes: StakesView,
    pub active: bool,
    pub resolved: bool,
    pub result: Option<Seq<char>>,
}

impl PoolView {
    /// A new pool of `owner` with the outcomes `pool_results`: inactive, unresolved, without a
    /// result, and with nobody taking part.
    pub open spec fn fresh(
        owner: Seq<char>,
        pool_results: Seq<Seq<char>>,
        required_xp: u128,
    ) -> PoolView {
        PoolView {
            owner,
            required_xp,
            required_stakes: fresh_stakes(pool_results),
            active: false,
            resolved: false,
            result: None,
        }
    }

    /// The outcomes of the pool.
    pub open spec fn outcomes(self) -> Set<Seq<char>> {
        self.required_stakes.dom()
    }
}

impl View for Pool {
    type V = PoolView;

    open spec fn view(&self) -> PoolView {
        PoolView {
            owner: self.owner@,
            required_xp: self.required_xp,
            required_stakes: self.required_stakes@,
            active: self.active,
            resolved: self.resolved,
            result: self.result.deep_view(),
        }
    }
}

impl DeepView for Pool {
    type V = PoolView;

    open spec fn deep_view(&self) -> PoolView {
        self@
    }
}

impl Clone for Pool {
    fn clone(&self) -> (copy: Self)
        ensures
            copy@ == self@,
            self.wf() ==> copy.wf(),
    {
        let result = match &self.result {
            Some(outcome) => Some(outcome.clone()),
            None => None,
        };
        Pool {
            owner: self.owner.clone(),
            required_xp: self.required_xp,
            required_stakes: self.required_stakes.clone(),
            active: self.active,
            resolved: self.resolved,
            result,
        }
    }
}

impl Pool {
    /// Whether the pool is well formed: its payout graph is.
    pub open spec fn wf(&self) -> bool {
        self.required_stakes.wf()
    }

    /// A new pool of `owner` with the outcomes `pool_results`.
    pub fn new(owner: AccountId, pool_results: Vec<AccountId>, required_xp: u128) -> (pool: Self)
        ensures
            pool.wf(),
            pool@ == PoolView::fresh(owner@, pool_results.deep_view(), required_xp),
    {
        Pool {
            owner,
            required_xp,
            active: false,
            resolved: false,
            required_stakes: Stakes::new(pool_results),
            result: None,
        }
    }
}

} // verus!
