//! Names of the persisted collections.

use vstd::prelude::*;

verus! {

/// One tag per keyed collection of the ledger, so that a store can keep
/// them in separate namespaces.
#[derive(Clone, Copy, Debug, PartialEq, Eq, Structural)]
pub enum StorageKey {
    IssueTicketKey,
    MemberKey,
    TicketOwnerKey,
    OwnerKey,
}

impl StorageKey {
    /// The position of the variant in the declaration.
    pub open spec fn spec_tag(self) -> u8 {
        match self {
            StorageKey::IssueTicketKey => 0,
            StorageKey::MemberKey => 1,
            StorageKey::TicketOwnerKey => 2,
            StorageKey::OwnerKey => 3,
        }
    }

    /// The byte that stands for the collection: the position of the
    /// variant in the declaration.
    pub fn tag(&self) -> (t: u8)
        ensures
            t == self.spec_tag(),
    {
        match self {
            StorageKey::IssueTicketKey => 0,
            StorageKey::MemberKey => 1,
            StorageKey::TicketOwnerKey => 2,
            StorageKey::OwnerKey => 3,
        }
    }

    /// Distinct collections never share a tag.
    pub proof fn tags_are_distinct(a: StorageKey, b: StorageKey)
        ensures
            a.spec_tag() == b.spec_tag() <==> a == b,
    {
    }
}

} // verus!
