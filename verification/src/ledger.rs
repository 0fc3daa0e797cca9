//! The ledger: the single entry point to tickets, members, holdings and
//! access control.
//!
//! Every operation is specified by the matching transition of
//! [`LedgerState`]: its result is the transition's outcome, a successful
//! call moves the view along the transition, and a refused call leaves the
//! ledger exactly as it was. An operation that changes the ledger borrows
//! it exclusively, so operations on one ledger never interleave.

use vstd::prelude::*;

use crate::access::AccessControl;
use crate::error::LedgerError;
use crate::members::MemberRegistry;
use crate::model::LedgerState;
use crate::ownership::OwnershipIndex;
use crate::snapshot::{Snapshot, LAYOUT_VERSION};
use crate::tickets::TicketRegistry;
use crate::types::issue_ticket::{IssueTicket, TicketCode};
use crate::types::member::{
    already_registered_message,
    registered_message,
    Member,
    RegisterMemberResult,
};
use crate::types::{AccountId, Balance, Timestamp};

verus! {

/// The ledger of one event.
pub struct JoiningEvent {
    issue_tickets: TicketRegistry,
    members: MemberRegistry,
    ticket_owners: OwnershipIndex,
    access: AccessControl,
    price_ticket: Balance,
}

impl View for JoiningEvent {
    type V = LedgerState;

    closed spec fn view(&self) -> LedgerState {
        LedgerState {
            tickets: self.issue_tickets@,
            members: self.members@,
            holdings: self.ticket_owners@,
            owner: self.access.owner(),
            admins: self.access.admins(),
            price: self.price_ticket,
        }
    }
}

impl JoiningEvent {
    /// Each component is well formed.
    pub closed spec fn parts_wf(&self) -> bool {
        &&& self.issue_tickets.wf()
        &&& self.members.wf()
        &&& self.ticket_owners.wf()
        &&& self.access.wf()
    }

    /// Each component is well formed, and the ledger as a whole satisfies
    /// the invariant of [`LedgerState`].
    pub open spec fn wf(&self) -> bool {
        &&& self.parts_wf()
        &&& self@.inv()
    }

    /// The ledger that `owner` creates: no tickets, no members, price 0.
    pub fn new(owner: AccountId) -> (ledger: JoiningEvent)
        ensures
            ledger.wf(),
            ledger@ == LedgerState::created(owner@),
    {
        let ledger = JoiningEvent {
            issue_tickets: TicketRegistry::new(),
            members: MemberRegistry::new(),
            ticket_owners: OwnershipIndex::new(),
            access: AccessControl::new(owner),
            price_ticket: 0,
        };
        proof {
            LedgerState::lemma_created(owner@);
        }
        ledger
    }

    /// The ledger that `snapshot` stands for, if the snapshot is valid.
    pub fn restore(snapshot: Snapshot) -> (r: Option<JoiningEvent>)
        ensures
            r is Some <==> snapshot.valid(),
            r matches Some(ledger) ==> ledger.wf() && ledger@ == snapshot@,
    {
        if snapshot.version != LAYOUT_VERSION {
            return None;
        }
        let issue_tickets = match TicketRegistry::from_records(snapshot.tickets) {
            Some(registry) => registry,
            None => {
                return None;
            },
        };
        let members = match MemberRegistry::from_records(snapshot.members) {
            Some(registry) => registry,
            None => {
                return None;
            },
        };
        let ticket_owners = match OwnershipIndex::from_records(snapshot.holdings) {
            Some(index) => index,
            None => {
                return None;
            },
        };
        let access = match AccessControl::from_parts(snapshot.owner, snapshot.admins) {
            Some(access) => access,
            None => {
                return None;
            },
        };
        if !ticket_owners.settles(&issue_tickets) {
            return None;
        }
        proof {
            snapshot.lemma_valid();
        }
        Some(
            JoiningEvent {
                issue_tickets,
                members,
                ticket_owners,
                access,
                price_ticket: snapshot.price_ticket,
            },
        )
    }

    /// The records of the ledger, in the layout of this version.
    pub fn into_snapshot(self) -> (snapshot: Snapshot)
        requires
            self.wf(),
        ensures
            snapshot.valid(),
            snapshot@ == self@,
    {
        let (owner, admins) = self.access.into_parts();
        Snapshot {
            version: LAYOUT_VERSION,
            tickets: self.issue_tickets.into_records(),
            members: self.members.into_records(),
            holdings: self.ticket_owners.into_records(),
            owner,
            admins,
            price_ticket: self.price_ticket,
        }
    }

    /// The account that created the ledger.
    pub fn get_owner(&self) -> (owner: AccountId)
        ensures
            owner@ == self@.owner,
    {
        self.access.get_owner()
    }

    /// Whether `account` is the owner or an admin.
    pub fn is_privileged(&self, account: &AccountId) -> (r: bool)
        ensures
            r == self@.privileged(account@),
    {
        self.access.is_privileged(account)
    }

    /// What one ticket costs.
    pub fn get_price_ticket(&self) -> (price: Balance)
        ensures
            price == self@.price,
    {
        self.price_ticket
    }

    /// The number of tickets ever issued, which is also the highest code.
    pub fn total_tickets(&self) -> (n: u64)
        requires
            self.wf(),
        ensures
            n == self@.tickets.len(),
    {
        self.issue_tickets.total()
    }

    /// Makes `account_id` an admin. Only the owner may do so.
    pub fn set_admin_account(
        &mut self,
        caller: &AccountId,
        account_id: AccountId,
    ) -> (r: Result<(), LedgerError>)
        requires
            old(self).wf(),
        ensures
            final(self).wf(),
            r == old(self)@.add_admin_outcome(caller@),
            r is Ok ==> final(self)@ == old(self)@.add_admin(account_id@),
            r is Err ==> *final(self) == *old(self),
    {
        proof {
            self@.lemma_add_admin(account_id@);
        }
        self.access.add_admin(caller, account_id)
    }

    /// Issues `number_of_tickets` tickets at `now`, numbered onwards from
    /// the last code. Any caller may issue; a count outside 1..=100 is
    /// refused.
    pub fn issue_ticket(
        &mut self,
        number_of_tickets: u8,
        now: Timestamp,
    ) -> (r: Result<(), LedgerError>)
        requires
            old(self).wf(),
            old(self)@.tickets.len() + number_of_tickets <= u64::MAX,
        ensures
            final(self).wf(),
            r == LedgerState::issue_outcome(number_of_tickets),
            r is Ok ==> final(self)@ == old(self)@.issue(number_of_tickets, now),
            r is Ok ==> forall|code: TicketCode|
                old(self)@.tickets.len() < code <= old(self)@.tickets.len() + number_of_tickets
                    ==> #[trigger] final(self)@.ticket(code) == Some(IssueTicket::fresh(code, now)),
            r is Err ==> *final(self) == *old(self),
    {
        proof {
            if LedgerState::issue_outcome(number_of_tickets) is Ok {
                self@.lemma_issue(number_of_tickets, now);
            }
        }
        self.issue_tickets.issue(number_of_tickets, now)
    }

    /// The ticket with the given code, if it was issued.
    pub fn get_info_ticket(&self, ticket_code: TicketCode) -> (r: Option<IssueTicket>)
        ensures
            r == self@.ticket(ticket_code),
    {
        self.issue_tickets.get(ticket_code)
    }

    /// The record of `account_id`, if it registered.
    pub fn get_member(&self, account_id: AccountId) -> (r: Option<Member>)
        requires
            self.wf(),
        ensures
            match r {
                Some(m) => self@.member(account_id@) == Some(m@),
                None => self@.member(account_id@) is None,
            },
    {
        self.members.get(&account_id)
    }

    /// Registers `caller` with `email` at `now`. An account that is
    /// registered already is answered without success, and nothing changes.
    pub fn register(
        &mut self,
        caller: &AccountId,
        email: String,
        now: Timestamp,
    ) -> (r: RegisterMemberResult)
        requires
            old(self).wf(),
        ensures
            final(self).wf(),
            r.success == old(self)@.can_register(caller@),
            final(self)@ == old(self)@.register(caller@, email@, now),
            !r.success ==> *final(self) == *old(self),
            r.message@ == if r.success {
                registered_message()
            } else {
                already_registered_message()
            },
    {
        proof {
            self@.lemma_register(caller@, email@, now);
        }
        self.members.register(caller, email, now)
    }

    /// Sets the price of a ticket. Only the owner and the admins may do so.
    pub fn set_price_ticket(
        &mut self,
        caller: &AccountId,
        price_ticket: Balance,
    ) -> (r: Result<(), LedgerError>)
        requires
            old(self).wf(),
        ensures
            final(self).wf(),
            r == old(self)@.set_price_outcome(caller@),
            r is Ok ==> final(self)@ == old(self)@.set_price(price_ticket),
            r is Err ==> *final(self) == *old(self),
    {
        if !self.access.is_privileged(caller) {
            return Err(LedgerError::NotAuthorized);
        }
        proof {
            self@.lemma_set_price(price_ticket);
        }
        self.price_ticket = price_ticket;
        Ok(())
    }

    /// Buys the ticket `ticket_code` for `caller`, who attached `paid`.
    ///
    /// The purchase is refused if `paid` is below the price, if the code
    /// was never issued, or if the ticket is used already. Otherwise the
    /// ticket becomes used and the caller holds it; both happen or neither.
    /// A payment above the price is accepted as it is.
    pub fn buy_ticket(
        &mut self,
        caller: &AccountId,
        ticket_code: TicketCode,
        paid: Balance,
    ) -> (r: Result<(), LedgerError>)
        requires
            old(self).wf(),
        ensures
            final(self).wf(),
            r == old(self)@.buy_outcome(ticket_code, paid),
            r is Ok ==> final(self)@ == old(self)@.buy(caller@, ticket_code),
            r is Ok ==> final(self)@.sold(ticket_code) && final(self)@.holds(caller@, ticket_code),
            r is Ok ==> forall|other: Seq<char>|
                other != caller@ ==> !#[trigger] final(self)@.holds(other, ticket_code),
            r is Err ==> *final(self) == *old(self),
    {
        if paid < self.price_ticket {
            return Err(LedgerError::InsufficientPayment);
        }
        match self.issue_tickets.mark_used(ticket_code) {
            Err(refusal) => {
                return Err(refusal);
            },
            Ok(()) => {},
        }
        self.ticket_owners.add_ticket(caller, ticket_code);
        proof {
            old(self)@.lemma_buy(caller@, ticket_code, paid);
        }
        Ok(())
    }

    /// The codes that `account_id` holds, each once.
    pub fn get_tickets(&self, account_id: AccountId) -> (codes: Vec<TicketCode>)
        requires
            self.wf(),
        ensures
            codes@.no_duplicates(),
            codes@.to_set() == self@.tickets_of(account_id@),
    {
        self.ticket_owners.list_tickets(&account_id)
    }
}

impl Default for JoiningEvent {
    /// The empty ledger of the empty account.
    fn default() -> (ledger: JoiningEvent)
        ensures
            ledger.wf(),
            ledger@ == LedgerState::unowned(),
    {
        let ledger = JoiningEvent {
            issue_tickets: TicketRegistry::new(),
            members: MemberRegistry::new(),
            ticket_owners: OwnershipIndex::new(),
            access: AccessControl::default(),
            price_ticket: 0,
        };
        proof {
            LedgerState::lemma_created(Seq::empty());
        }
        ledger
    }
}

} // verus!
