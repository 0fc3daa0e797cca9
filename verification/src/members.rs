//! The member registry: one record per registered account.

use vstd::prelude::*;

use crate::assoc::{
    all_distinct,
    assoc,
    keys_of,
    lemma_assoc_at,
    lemma_assoc_dom,
    lemma_assoc_push,
    lemma_keys_push,
    position,
    Keyed,
};
use crate::types::member::{
    already_registered_message,
    registered_message,
    Member,
    MemberView,
    RegisterMemberResult,
};
use crate::types::{AccountId, Timestamp};

verus! {

impl Keyed for Member {
    open spec fn key(&self) -> Seq<char> {
        self.account_id@
    }

    fn account(&self) -> (account: &AccountId) {
        &self.account_id
    }
}

/// The views of the records, in the order of the records.
pub open spec fn views_of(records: Seq<Member>) -> Seq<MemberView> {
    records.map_values(|m: Member| m@)
}

/// The map from each account to the view of its record.
pub open spec fn member_map(records: Seq<Member>) -> Map<Seq<char>, MemberView> {
    assoc(keys_of(records), views_of(records))
}

/// Every record is filed under the account it names.
pub open spec fn keyed(m: Map<Seq<char>, MemberView>) -> bool {
    forall|a: Seq<char>| m.dom().contains(a) ==> (#[trigger] m[a]).account_id == a
}

/// The record of `account`, if it has one.
pub open spec fn member_of(
    m: Map<Seq<char>, MemberView>,
    account: Seq<char>,
) -> Option<MemberView> {
    if m.dom().contains(account) {
        Some(m[account])
    } else {
        None
    }
}

/// The registry after `account` asked to register with `email` at `now`:
/// unchanged if the account has a record, else with its new record.
pub open spec fn registered(
    m: Map<Seq<char>, MemberView>,
    account: Seq<char>,
    email: Seq<char>,
    now: Timestamp,
) -> Map<Seq<char>, MemberView> {
    if m.dom().contains(account) {
        m
    } else {
        m.insert(account, MemberView::joining(account, email, now))
    }
}

/// The map of any list of records is finite and files each record under
/// the account it names.
pub proof fn lemma_member_map(records: Seq<Member>)
    ensures
        keyed(member_map(records)),
        member_map(records).dom().finite(),
{
    lemma_assoc_dom(keys_of(records), views_of(records));
}

/// The records of all registered accounts.
pub struct MemberRegistry {
    members: Vec<Member>,
}

impl View for MemberRegistry {
    type V = Map<Seq<char>, MemberView>;

    closed spec fn view(&self) -> Map<Seq<char>, MemberView> {
        member_map(self.members@)
    }
}

impl MemberRegistry {
    /// No account is stored twice.
    pub closed spec fn distinct(&self) -> bool {
        keys_of(self.members@).no_duplicates()
    }

    /// No account is stored twice, and each record is filed under its own
    /// account.
    pub open spec fn wf(&self) -> bool {
        &&& self.distinct()
        &&& keyed(self@)
        &&& self@.dom().finite()
    }

    /// A registry without members.
    pub fn new() -> (registry: MemberRegistry)
        ensures
            registry.wf(),
            registry@ == Map::<Seq<char>, MemberView>::empty(),
    {
        let registry = MemberRegistry { members: Vec::new() };
        proof {
            lemma_member_map(registry.members@);
            assert(registry@ =~= Map::<Seq<char>, MemberView>::empty());
        }
        registry
    }

    /// The registry that holds exactly `records`, if no two of them name
    /// the same account.
    pub fn from_records(records: Vec<Member>) -> (r: Option<MemberRegistry>)
        ensures
            r is Some <==> keys_of(records@).no_duplicates(),
            r matches Some(registry) ==> registry.wf() && registry@ == member_map(records@),
    {
        if !all_distinct(&records) {
            return None;
        }
        proof {
            lemma_member_map(records@);
        }
        Some(MemberRegistry { members: records })
    }

    /// All records, each account once.
    pub fn into_records(self) -> (records: Vec<Member>)
        requires
            self.wf(),
        ensures
            keys_of(records@).no_duplicates(),
            member_map(records@) == self@,
    {
        self.members
    }

    /// The record of `account`, if it has one.
    pub fn get(&self, account: &AccountId) -> (r: Option<Member>)
        requires
            self.wf(),
        ensures
            match r {
                Some(m) => member_of(self@, account@) == Some(m@),
                None => member_of(self@, account@) is None,
            },
    {
        match position(&self.members, account) {
            Some(i) => {
                proof {
                    lemma_assoc_at(keys_of(self.members@), views_of(self.members@), i as int);
                }
                Some(self.members[i].clone())
            },
            None => None,
        }
    }

    /// Whether `account` has a record.
    pub fn contains(&self, account: &AccountId) -> (r: bool)
        requires
            self.wf(),
        ensures
            r == self@.dom().contains(account@),
    {
        match position(&self.members, account) {
            Some(i) => {
                proof {
                    lemma_assoc_at(keys_of(self.members@), views_of(self.members@), i as int);
                }
                true
            },
            None => false,
        }
    }

    /// Writes the record of `account` unless it has one. A repeated
    /// registration is answered without success and changes nothing.
    pub fn register(
        &mut self,
        account: &AccountId,
        email: String,
        now: Timestamp,
    ) -> (r: RegisterMemberResult)
        requires
            old(self).wf(),
        ensures
            final(self).wf(),
            r.success == !old(self)@.dom().contains(account@),
            final(self)@ == registered(old(self)@, account@, email@, now),
            !r.success ==> *final(self) == *old(self),
            r.message@ == if r.success {
                registered_message()
            } else {
                already_registered_message()
            },
    {
        if self.contains(account) {
            return RegisterMemberResult::rejected();
        }
        let member = Member { account_id: account.clone(), email, join_at: now, is_active: false };
        proof {
            let records = self.members@;
            lemma_assoc_push(keys_of(records), views_of(records), account@, member@);
            lemma_keys_push(records, member);
            assert(views_of(records.push(member)) =~= views_of(records).push(member@));
        }
        self.members.push(member);
        RegisterMemberResult::accepted()
    }
}

} // verus!
