//! The registry of characters: which accounts have registered one.

use vstd::prelude::*;

use crate::error::{steps_to, StakeError, StakeErrorView};
use crate::token::AccountId;

verus! {

/// The accounts that have registered a character.
#[derive(Debug, PartialEq, Eq)]
pub struct AccountManagement {
    characters: Vec<AccountId>,
}

/// Mathematical value of an [`AccountManagement`]: the set of registered accounts.
pub type AccountManagementView = Set<Seq<char>>;

/// The registry once `account_id` has registered. An account registers once.
pub open spec fn registered(accounts: AccountManagementView, account_id: Seq<char>) -> Result<
    AccountManagementView,
    StakeErrorView,
> {
    if accounts.contains(account_id) {
        Err(StakeErrorView::AccountAlreadyRegistered)
    } else {
        Ok(accounts.insert(account_id))
    }
}

impl View for AccountManagement {
    type V = AccountManagementView;

    closed spec fn view(&self) -> AccountManagementView {
        self.characters.deep_view().to_set()
    }
}

impl Clone for AccountManagement {
    fn clone(&self) -> (copy: Self)
        ensures
            copy@ == self@,
    {
        let mut characters: Vec<AccountId> = Vec::new();
        let mut i: usize = 0;
        while i < self.characters.len()
            invariant
                i <= self.characters.len(),
                characters@.len() == i,
                forall|j: int| 0 <= j < i ==> (#[trigger] characters@[j])@ == self.characters@[j]@,
            decreases self.characters.len() - i,
        {
            characters.push(self.characters[i].clone());
            i += 1;
        }
        assert(characters.deep_view() =~= self.characters.deep_view());
        AccountManagement { characters }
    }
}

impl AccountManagement {
    /// A registry without characters.
    pub fn new() -> (accounts: Self)
        ensures
            accounts@ == Set::<Seq<char>>::empty(),
    {
        let accounts = AccountManagement { characters: Vec::new() };
        assert(accounts@ =~= Set::<Seq<char>>::empty());
        accounts
    }

    /// A registry of the accounts `characters`, as when a registry that was written down is
    /// read back.
    pub fn from_characters(characters: Vec<AccountId>) -> (accounts: Self)
        ensures
            accounts@ == characters.deep_view().to_set(),
    {
        AccountManagement { characters }
    }

    /// Whether `account_id` has registered a character.
    pub fn is_registered(&self, account_id: &AccountId) -> (registered: bool)
        ensures
            registered == self@.contains(account_id@),
    {
        let mut i: usize = 0;
        while i < self.characters.len()
            invariant
                i <= self.characters.len(),
                forall|j: int|
                    0 <= j < i ==> #[trigger] self.characters.deep_view()[j] != account_id@,
            decreases self.characters.len() - i,
        {
            if self.characters[i] == *account_id {
                assert(self.characters.deep_view()[i as int] == account_id@);
                return true;
            }
            i += 1;
        }
        false
    }

    /// Registers a character for `account_id`. An account that has one is refused with
    /// `AccountAlreadyRegistered`.
    pub fn internal_register(&mut self, account_id: &AccountId) -> (done: Result<(), StakeError>)
        ensures
            steps_to(old(self)@, final(self)@, done, registered(old(self)@, account_id@)),
    {
        if self.is_registered(account_id) {
            return Err(StakeError::AccountAlreadyRegistered);
        }
        self.characters.push(account_id.clone());
        proof {
            let before = old(self).characters.deep_view();
            let after = self.characters.deep_view();
            assert(after =~= before.push(account_id@));
            assert forall|a: Seq<char>| after.to_set().contains(a) == before.to_set().insert(
                account_id@,
            ).contains(a) by {
                if before.contains(a) {
                    let j = before.index_of(a);
                    assert(after[j] == a);
                }
                if a == account_id@ {
                    assert(after[before.len() as int] == a);
                }
                if after.contains(a) {
                    let j = after.index_of(a);
                    if j < before.len() {
                        assert(before[j] == a);
                    }
                }
            }
            assert(self@ =~= old(self)@.insert(account_id@));
        }
        Ok(())
    }

    /// The accounts that have registered a character.
    pub fn characters(&self) -> (characters: Vec<AccountId>)
        ensures
            characters.deep_view().to_set() == self@,
    {
        self.clone().characters
    }
}

} // verus!
