//! A ledger written out as plain records, for a store to keep.
//!
//! A snapshot lists the four collections of a ledger and its two scalars,
//! under the version of this layout. Whoever keeps a snapshot may hand back
//! anything, so a snapshot is examined in full before a ledger is made of
//! it.

use vstd::prelude::*;

use crate::assoc::keys_of;
use crate::members::{lemma_member_map, member_map};
use crate::model::LedgerState;
use crate::ownership::{holding_map, lemma_holding_map, settled, tidy, Holding};
use crate::tickets::numbered;
use crate::types::issue_ticket::IssueTicket;
use crate::types::member::Member;
use crate::types::{AccountId, Balance};

verus! {

/// The version of the layout that [`Snapshot`] has.
pub const LAYOUT_VERSION: u32 = 1;

/// The records of one ledger.
#[derive(Debug)]
pub struct Snapshot {
    /// The version of the layout the records were written in.
    pub version: u32,
    /// All tickets, in the order of issue.
    pub tickets: Vec<IssueTicket>,
    /// The record of each registered account.
    pub members: Vec<Member>,
    /// The codes held by each account that ever bought a ticket.
    pub holdings: Vec<Holding>,
    /// The account that created the ledger.
    pub owner: AccountId,
    /// The accounts that were made admins.
    pub admins: Vec<AccountId>,
    /// What one ticket costs.
    pub price_ticket: Balance,
}

impl View for Snapshot {
    type V = LedgerState;

    open spec fn view(&self) -> LedgerState {
        LedgerState {
            tickets: self.tickets@,
            members: member_map(self.members@),
            holdings: holding_map(self.holdings@),
            owner: self.owner@,
            admins: keys_of(self.admins@).to_set(),
            price: self.price_ticket,
        }
    }
}

impl Snapshot {
    /// Whether the records are those of a ledger: they are written in the
    /// layout of this version, the ticket codes are contiguous from 1, no
    /// member, holder or admin is listed twice, no holder lists a code
    /// twice, and the holdings agree with the used flags of the tickets.
    pub open spec fn valid(&self) -> bool {
        &&& self.version == LAYOUT_VERSION
        &&& numbered(self.tickets@)
        &&& keys_of(self.members@).no_duplicates()
        &&& tidy(self.holdings@)
        &&& keys_of(self.admins@).no_duplicates()
        &&& settled(self.tickets@, holding_map(self.holdings@))
    }

    /// The state that a valid snapshot stands for satisfies the ledger's
    /// invariant.
    pub proof fn lemma_valid(&self)
        requires
            self.valid(),
        ensures
            self@.inv(),
    {
        lemma_member_map(self.members@);
        lemma_holding_map(self.holdings@);
        vstd::seq_lib::seq_to_set_is_finite(keys_of(self.admins@));
    }
}

} // verus!
