//! Failures of ledger operations.

use vstd::prelude::*;

verus! {

/// The kinds of failure a caller can branch on.
#[derive(Clone, Copy, Debug, PartialEq, Eq, Structural)]
pub enum ErrorKind {
    InvalidInput,
    NotFound,
    AlreadyUsed,
    InsufficientPayment,
    NotAuthorized,
    /// Not a refusal: a registration that found the account registered
    /// answers with this kind and changes nothing.
    AlreadyRegistered,
}

/// Why an operation was refused. A refused operation changes nothing.
#[derive(Clone, Copy, Debug, PartialEq, Eq, Structural)]
pub enum LedgerError {
    /// The number of tickets to issue is outside 1..=100.
    InvalidIssueCount,
    /// No ticket with the given code was ever issued.
    TicketNotFound,
    /// The ticket has been bought already.
    TicketAlreadyUsed,
    /// The attached payment is below the current price.
    InsufficientPayment,
    /// The caller is neither the owner nor an admin.
    NotAuthorized,
    /// The caller is not the owner.
    NotOwner,
}

impl LedgerError {
    /// The kind each failure belongs to.
    pub open spec fn spec_kind(self) -> ErrorKind {
        match self {
            LedgerError::InvalidIssueCount => ErrorKind::InvalidInput,
            LedgerError::TicketNotFound => ErrorKind::NotFound,
            LedgerError::TicketAlreadyUsed => ErrorKind::AlreadyUsed,
            LedgerError::InsufficientPayment => ErrorKind::InsufficientPayment,
            LedgerError::NotAuthorized => ErrorKind::NotAuthorized,
            LedgerError::NotOwner => ErrorKind::NotAuthorized,
        }
    }

    /// The sentence each failure is reported with.
    pub open spec fn spec_message(self) -> Seq<char> {
        match self {
            LedgerError::InvalidIssueCount => "Number of tickets must be 1 or less than or equal 100"@,
            LedgerError::TicketNotFound => "Ticket code is not found"@,
            LedgerError::TicketAlreadyUsed => "This ticket is used"@,
            LedgerError::InsufficientPayment => "The price paid is not enough"@,
            LedgerError::NotAuthorized => "You can not call this method"@,
            LedgerError::NotOwner => "ERR_NOT_OWNER"@,
        }
    }

    /// The stable kind of this failure.
    pub fn kind(&self) -> (k: ErrorKind)
        ensures
            k == self.spec_kind(),
    {
        match self {
            LedgerError::InvalidIssueCount => ErrorKind::InvalidInput,
            LedgerError::TicketNotFound => ErrorKind::NotFound,
            LedgerError::TicketAlreadyUsed => ErrorKind::AlreadyUsed,
            LedgerError::InsufficientPayment => ErrorKind::InsufficientPayment,
            LedgerError::NotAuthorized => ErrorKind::NotAuthorized,
            LedgerError::NotOwner => ErrorKind::NotAuthorized,
        }
    }

    /// A sentence for people; programs branch on [`LedgerError::kind`].
    pub fn message(&self) -> (m: &'static str)
        ensures
            m@ == self.spec_message(),
    {
        match self {
            LedgerError::InvalidIssueCount => "Number of tickets must be 1 or less than or equal 100",
            LedgerError::TicketNotFound => "Ticket code is not found",
            LedgerError::TicketAlreadyUsed => "This ticket is used",
            LedgerError::InsufficientPayment => "The price paid is not enough",
            LedgerError::NotAuthorized => "You can not call this method",
            LedgerError::NotOwner => "ERR_NOT_OWNER",
        }
    }
}

} // verus!
