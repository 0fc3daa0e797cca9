//! Access control: the owner and the admins.
//!
//! The owner is fixed when the ledger is created. Only the owner names
//! admins, and an admin stays one for good.

use vstd::prelude::*;

use crate::assoc::{all_distinct, keys_of, lemma_keys_push, position};
use crate::error::LedgerError;
use crate::types::AccountId;

verus! {

/// The owner of the ledger and the accounts it has made admins.
pub struct AccessControl {
    owner: AccountId,
    admins: Vec<AccountId>,
}

impl AccessControl {
    /// The account that owns the ledger.
    pub closed spec fn owner(&self) -> Seq<char> {
        self.owner@
    }

    /// The accounts that were made admins.
    pub closed spec fn admins(&self) -> Set<Seq<char>> {
        keys_of(self.admins@).to_set()
    }

    /// No admin is stored twice.
    pub closed spec fn distinct(&self) -> bool {
        keys_of(self.admins@).no_duplicates()
    }

    /// No admin is stored twice, so the admins are finitely many.
    pub open spec fn wf(&self) -> bool {
        &&& self.distinct()
        &&& self.admins().finite()
    }

    /// Whether `account` may use the privileged operations: it is the
    /// owner or an admin.
    pub open spec fn privileged(&self, account: Seq<char>) -> bool {
        account == self.owner() || self.admins().contains(account)
    }

    /// Whether `caller` can name an admin, and if not, why.
    pub open spec fn add_admin_outcome(&self, caller: Seq<char>) -> Result<(), LedgerError> {
        if caller == self.owner() {
            Ok(())
        } else {
            Err(LedgerError::NotOwner)
        }
    }

    /// Access control for a ledger that `owner` creates. The owner is its
    /// first admin.
    pub fn new(owner: AccountId) -> (access: AccessControl)
        ensures
            access.wf(),
            access.owner() == owner@,
            access.admins() == set![owner@],
    {
        let mut admins: Vec<AccountId> = Vec::new();
        admins.push(owner.clone());
        let access = AccessControl { owner, admins };
        proof {
            let names = keys_of(access.admins@);
            vstd::seq_lib::seq_to_set_is_finite(names);
            assert(names =~= seq![owner@]);
            assert(names.to_set() =~= set![owner@]) by {
                assert(names[0] == owner@);
            }
        }
        access
    }

    /// Access control with the given owner and exactly the given admins,
    /// if no admin is listed twice.
    pub fn from_parts(owner: AccountId, admins: Vec<AccountId>) -> (r: Option<AccessControl>)
        ensures
            r is Some <==> keys_of(admins@).no_duplicates(),
            r matches Some(access) ==> {
                &&& access.wf()
                &&& access.owner() == owner@
                &&& access.admins() == keys_of(admins@).to_set()
            },
    {
        if !all_distinct(&admins) {
            return None;
        }
        proof {
            vstd::seq_lib::seq_to_set_is_finite(keys_of(admins@));
        }
        Some(AccessControl { owner, admins })
    }

    /// The owner and the admins, each admin once.
    pub fn into_parts(self) -> (parts: (AccountId, Vec<AccountId>))
        requires
            self.wf(),
        ensures
            parts.0@ == self.owner(),
            keys_of(parts.1@).no_duplicates(),
            keys_of(parts.1@).to_set() == self.admins(),
    {
        (self.owner, self.admins)
    }

    /// The account that owns the ledger.
    pub fn get_owner(&self) -> (owner: AccountId)
        ensures
            owner@ == self.owner(),
    {
        self.owner.clone()
    }

    /// Whether `account` was made an admin.
    pub fn is_admin(&self, account: &AccountId) -> (r: bool)
        ensures
            r == self.admins().contains(account@),
    {
        match position(&self.admins, account) {
            Some(i) => {
                assert(keys_of(self.admins@)[i as int] == account@);
                true
            },
            None => false,
        }
    }

    /// Whether `account` is the owner or an admin.
    pub fn is_privileged(&self, account: &AccountId) -> (r: bool)
        ensures
            r == self.privileged(account@),
    {
        *account == self.owner || self.is_admin(account)
    }

    /// Makes `account` an admin. Only the owner may do so.
    pub fn add_admin(
        &mut self,
        caller: &AccountId,
        account: AccountId,
    ) -> (r: Result<(), LedgerError>)
        requires
            old(self).wf(),
        ensures
            final(self).wf(),
            final(self).owner() == old(self).owner(),
            r == old(self).add_admin_outcome(caller@),
            r is Ok ==> final(self).admins() == old(self).admins().insert(account@),
            r is Err ==> *final(self) == *old(self),
    {
        if *caller != self.owner {
            return Err(LedgerError::NotOwner);
        }
        if self.is_admin(&account) {
            assert(self.admins().insert(account@) =~= self.admins());
            return Ok(());
        }
        proof {
            let names = keys_of(self.admins@);
            lemma_keys_push(self.admins@, account);
            names.lemma_push_to_set_commute(account@);
            vstd::seq_lib::seq_to_set_is_finite(names.push(account@));
        }
        self.admins.push(account);
        Ok(())
    }
}

impl Default for AccessControl {
    /// Access control with the empty account as owner and no admin.
    fn default() -> (access: AccessControl)
        ensures
            access.wf(),
            access.owner() == Seq::<char>::empty(),
            access.admins() == Set::<Seq<char>>::empty(),
    {
        let access = AccessControl { owner: String::new(), admins: Vec::new() };
        proof {
            vstd::seq_lib::seq_to_set_is_finite(keys_of(access.admins@));
            assert(keys_of(access.admins@).to_set() =~= Set::<Seq<char>>::empty());
        }
        access
    }
}

} // verus!
