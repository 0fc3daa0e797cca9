//! The ticket registry: sequential numbering and the used flag.
//!
//! The registry is a sequence of tickets in the order of issue. The ticket
//! at position `i` carries the code `i + 1`, so the codes in use are always
//! exactly `1..=N` for the number `N` of tickets ever issued.

use vstd::prelude::*;

use crate::error::LedgerError;
use crate::types::issue_ticket::{IssueTicket, TicketCode};
use crate::types::Timestamp;

verus! {

/// The fewest tickets one issuance may create.
pub const MIN_ISSUE: u8 = 1;

/// The most tickets one issuance may create.
pub const MAX_ISSUE: u8 = 100;

/// Whether one issuance may create `count` tickets.
pub open spec fn valid_issue_count(count: u8) -> bool {
    MIN_ISSUE <= count <= MAX_ISSUE
}

/// Whether `count` tickets can be issued at once, and if not, why.
pub open spec fn issue_outcome(count: u8) -> Result<(), LedgerError> {
    if valid_issue_count(count) {
        Ok(())
    } else {
        Err(LedgerError::InvalidIssueCount)
    }
}

/// The codes of `s` are `1, 2, .., s.len()` in this order.
pub open spec fn numbered(s: Seq<IssueTicket>) -> bool {
    forall|i: int| 0 <= i < s.len() ==> (#[trigger] s[i]).code == i + 1
}

/// The ticket with the given code, if it was issued.
pub open spec fn lookup(s: Seq<IssueTicket>, code: TicketCode) -> Option<IssueTicket> {
    if 1 <= code <= s.len() {
        Some(s[code - 1])
    } else {
        None
    }
}

/// Whether the ticket `code` was issued and bought.
pub open spec fn sold(s: Seq<IssueTicket>, code: TicketCode) -> bool {
    lookup(s, code) matches Some(t) && t.is_used
}

/// `count` unused tickets created at `now`, numbered from `first` upwards.
pub open spec fn batch(first: int, count: nat, now: Timestamp) -> Seq<IssueTicket> {
    Seq::new(count, |i: int| IssueTicket::fresh((first + i) as TicketCode, now))
}

/// The registry after `count` tickets were issued at `now`.
pub open spec fn issued(s: Seq<IssueTicket>, count: u8, now: Timestamp) -> Seq<IssueTicket> {
    s + batch(s.len() as int + 1, count as nat, now)
}

/// Whether the ticket `code` can be marked used, and if not, why.
pub open spec fn mark_outcome(s: Seq<IssueTicket>, code: TicketCode) -> Result<(), LedgerError> {
    match lookup(s, code) {
        None => Err(LedgerError::TicketNotFound),
        Some(t) => if t.is_used {
            Err(LedgerError::TicketAlreadyUsed)
        } else {
            Ok(())
        },
    }
}

/// The registry after the ticket `code` was marked used.
pub open spec fn marked(s: Seq<IssueTicket>, code: TicketCode) -> Seq<IssueTicket> {
    s.update(code - 1, s[code - 1].used())
}

/// Issuing keeps the numbering, leaves every earlier ticket as it was, and
/// gives each new code an unused ticket created at `now`.
pub proof fn lemma_issued(s: Seq<IssueTicket>, count: u8, now: Timestamp)
    requires
        numbered(s),
        s.len() + count <= u64::MAX,
    ensures
        numbered(issued(s, count, now)),
        issued(s, count, now).len() == s.len() + count,
        forall|code: TicketCode|
            1 <= code <= s.len() ==> #[trigger] lookup(issued(s, count, now), code) == lookup(
                s,
                code,
            ),
        forall|code: TicketCode|
            s.len() < code <= s.len() + count ==> #[trigger] lookup(issued(s, count, now), code)
                == Some(IssueTicket::fresh(code, now)),
{
}

/// Marking keeps the numbering and changes the one ticket only.
pub proof fn lemma_marked(s: Seq<IssueTicket>, code: TicketCode)
    requires
        numbered(s),
        mark_outcome(s, code) is Ok,
    ensures
        numbered(marked(s, code)),
        marked(s, code).len() == s.len(),
        lookup(marked(s, code), code) == Some(IssueTicket { code, is_used: true, ..s[code - 1] }),
        forall|other: TicketCode|
            other != code ==> #[trigger] lookup(marked(s, code), other) == lookup(s, other),
{
}

/// All tickets ever issued, in the order of issue.
pub struct TicketRegistry {
    tickets: Vec<IssueTicket>,
}

impl View for TicketRegistry {
    type V = Seq<IssueTicket>;

    closed spec fn view(&self) -> Seq<IssueTicket> {
        self.tickets@
    }
}

impl TicketRegistry {
    /// The codes are contiguous from 1.
    pub open spec fn wf(&self) -> bool {
        numbered(self@)
    }

    /// A registry in which nothing was issued yet.
    pub fn new() -> (registry: TicketRegistry)
        ensures
            registry.wf(),
            registry@ == Seq::<IssueTicket>::empty(),
    {
        TicketRegistry { tickets: Vec::new() }
    }

    /// The registry that holds exactly `tickets`, if their codes are
    /// contiguous from 1.
    pub fn from_records(tickets: Vec<IssueTicket>) -> (r: Option<TicketRegistry>)
        ensures
            r is Some <==> numbered(tickets@),
            r matches Some(registry) ==> registry.wf() && registry@ == tickets@,
    {
        let mut i: usize = 0;
        while i < tickets.len()
            invariant
                i <= tickets@.len(),
                forall|j: int| 0 <= j < i ==> (#[trigger] tickets@[j]).code == j + 1,
            decreases tickets@.len() - i,
        {
            if tickets[i].code != i as u64 + 1 {
                return None;
            }
            i = i + 1;
        }
        Some(TicketRegistry { tickets })
    }

    /// All tickets, in the order of issue.
    pub fn into_records(self) -> (tickets: Vec<IssueTicket>)
        ensures
            tickets@ == self@,
    {
        self.tickets
    }

    /// The number of tickets ever issued, as a length.
    pub fn count(&self) -> (n: usize)
        ensures
            n == self@.len(),
    {
        self.tickets.len()
    }

    /// The number of tickets ever issued, which is also the highest code.
    pub fn total(&self) -> (n: u64)
        requires
            self.wf(),
        ensures
            n == self@.len(),
    {
        let n: usize = self.tickets.len();
        proof {
            if n > 0 {
                assert(self@[n - 1].code == n);
            }
        }
        n as u64
    }

    /// Appends `count` unused tickets created at `now`, numbered onwards
    /// from the last code. Refuses a count outside 1..=100.
    pub fn issue(&mut self, count: u8, now: Timestamp) -> (r: Result<(), LedgerError>)
        requires
            old(self).wf(),
            old(self)@.len() + count <= u64::MAX,
        ensures
            final(self).wf(),
            r == issue_outcome(count),
            r is Ok ==> final(self)@ == issued(old(self)@, count, now),
            r is Err ==> *final(self) == *old(self),
    {
        if count < MIN_ISSUE || count > MAX_ISSUE {
            return Err(LedgerError::InvalidIssueCount);
        }
        let ghost before = self@;
        let last: u64 = self.total();
        let mut done: u8 = 0;
        while done < count
            invariant
                done <= count,
                last == before.len(),
                last + count <= u64::MAX,
                self@ == before + batch(last + 1, done as nat, now),
            decreases count - done,
        {
            let code: u64 = last + done as u64 + 1;
            self.tickets.push(IssueTicket { code, is_used: false, created_at: now });
            done = done + 1;
            assert(self@ =~= before + batch(last + 1, done as nat, now));
        }
        proof {
            lemma_issued(before, count, now);
        }
        Ok(())
    }

    /// The ticket with the given code, if it was issued.
    pub fn get(&self, code: TicketCode) -> (r: Option<IssueTicket>)
        ensures
            r == lookup(self@, code),
    {
        if code < 1 || code > self.tickets.len() as u64 {
            return None;
        }
        let at: usize = (code - 1) as usize;
        Some(self.tickets[at])
    }

    /// Marks the ticket `code` used. Refuses a code that was never issued
    /// and a ticket that is used already.
    pub fn mark_used(&mut self, code: TicketCode) -> (r: Result<(), LedgerError>)
        requires
            old(self).wf(),
        ensures
            final(self).wf(),
            r == mark_outcome(old(self)@, code),
            r is Ok ==> final(self)@ == marked(old(self)@, code),
            r is Err ==> *final(self) == *old(self),
    {
        if code < 1 || code > self.tickets.len() as u64 {
            return Err(LedgerError::TicketNotFound);
        }
        let at: usize = (code - 1) as usize;
        let ticket: IssueTicket = self.tickets[at];
        if ticket.is_used {
            return Err(LedgerError::TicketAlreadyUsed);
        }
        proof {
            lemma_marked(self@, code);
        }
        self.tickets.set(
            at,
            IssueTicket { code: ticket.code, is_used: true, created_at: ticket.created_at },
        );
        Ok(())
    }
}

} // verus!
