//! The record kept for one issued ticket.

use vstd::prelude::*;

use crate::types::Timestamp;

verus! {

/// Tickets are numbered from 1 in the order of issue.
pub type TicketCode = u64;

/// One issued ticket. It is created unused and becomes used exactly once,
/// by the purchase that assigns it an owner.
#[derive(Clone, Copy, Debug, PartialEq, Eq, Structural)]
pub struct IssueTicket {
    pub code: TicketCode,
    pub is_used: bool,
    pub created_at: Timestamp,
}

impl IssueTicket {
    /// The ticket with the given number as issuance creates it.
    pub open spec fn fresh(code: TicketCode, now: Timestamp) -> IssueTicket {
        IssueTicket { code, is_used: false, created_at: now }
    }

    /// The same ticket after its purchase.
    pub open spec fn used(self) -> IssueTicket {
        IssueTicket { is_used: true, ..self }
    }
}

} // verus!
