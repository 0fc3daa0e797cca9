//! A verified event-ticketing ledger.
//!
//! A fixed owner mints numbered tickets in bounded batches, participants
//! register as members, and a ticket is bought at most once by paying at
//! least the current price. The ledger is an explicit value: every
//! operation receives the caller's identity, the attached payment and the
//! current time as plain arguments, and every operation either applies in
//! full or leaves the ledger as it was.
//!
//! Each component owns one collection and exposes it through a mathematical
//! view; [`ledger::JoiningEvent`] composes them and is specified against the
//! abstract state machine in [`model`].

pub mod access;
pub mod assoc;
pub mod error;
pub mod ledger;
pub mod members;
pub mod model;
pub mod ownership;
pub mod snapshot;
pub mod tickets;
pub mod types;

pub use crate::access::AccessControl;
pub use crate::error::{ErrorKind, LedgerError};
pub use crate::ledger::JoiningEvent;
pub use crate::members::MemberRegistry;
pub use crate::model::LedgerState;
pub use crate::ownership::{Holding, OwnershipIndex};
pub use crate::snapshot::{Snapshot, LAYOUT_VERSION};
pub use crate::tickets::TicketRegistry;
pub use crate::types::issue_ticket::{IssueTicket, TicketCode};
pub use crate::types::member::{Member, MemberView, RegisterMemberResult};
pub use crate::types::storage_key::StorageKey;
pub use crate::types::{AccountId, Balance, Timestamp};
