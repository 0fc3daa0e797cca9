//! Plain data carried by the ledger.

use vstd::prelude::*;

pub mod issue_ticket;
pub mod member;
pub mod storage_key;

verus! {

/// The identity of an account, as the host authenticated it.
pub type AccountId = String;

/// Nanoseconds since the epoch, as the host reports them.
pub type Timestamp = u64;

/// An amount of the native token, in its smallest unit.
pub type Balance = u128;

} // verus!
