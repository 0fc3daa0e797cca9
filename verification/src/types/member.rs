//! Member records and the answer to a registration.

use vstd::prelude::*;

use crate::error::ErrorKind;
use crate::types::{AccountId, Timestamp};

verus! {

/// A registered participant. Written once by registration and never
/// changed afterwards.
#[derive(Debug)]
pub struct Member {
    pub account_id: AccountId,
    pub email: String,
    pub join_at: Timestamp,
    pub is_active: bool,
}

/// What a [`Member`] holds, with its strings as character sequences.
pub struct MemberView {
    pub account_id: Seq<char>,
    pub email: Seq<char>,
    pub join_at: Timestamp,
    pub is_active: bool,
}

impl MemberView {
    /// The record that registration writes for `account` at time `now`.
    pub open spec fn joining(account: Seq<char>, email: Seq<char>, now: Timestamp) -> MemberView {
        MemberView { account_id: account, email, join_at: now, is_active: false }
    }
}

impl View for Member {
    type V = MemberView;

    open spec fn view(&self) -> MemberView {
        MemberView {
            account_id: self.account_id@,
            email: self.email@,
            join_at: self.join_at,
            is_active: self.is_active,
        }
    }
}

impl Clone for Member {
    fn clone(&self) -> (copy: Member)
        ensures
            copy == *self,
    {
        Member {
            account_id: self.account_id.clone(),
            email: self.email.clone(),
            join_at: self.join_at,
            is_active: self.is_active,
        }
    }
}

/// The answer to a registration: whether a record was written, and a
/// sentence for the person who asked.
#[derive(Debug)]
pub struct RegisterMemberResult {
    pub success: bool,
    pub message: String,
}

/// The sentence returned with a successful registration.
pub open spec fn registered_message() -> Seq<char> {
    "Register successfully"@
}

/// The sentence returned when the account already has a record.
pub open spec fn already_registered_message() -> Seq<char> {
    "already registered"@
}

impl RegisterMemberResult {
    /// Why no record was written, if none was.
    pub open spec fn spec_kind(&self) -> Option<ErrorKind> {
        if self.success {
            None
        } else {
            Some(ErrorKind::AlreadyRegistered)
        }
    }

    /// Why no record was written, if none was.
    pub fn kind(&self) -> (k: Option<ErrorKind>)
        ensures
            k == self.spec_kind(),
    {
        if self.success {
            None
        } else {
            Some(ErrorKind::AlreadyRegistered)
        }
    }

    /// The answer to a registration that wrote a record.
    pub fn accepted() -> (r: RegisterMemberResult)
        ensures
            r.success,
            r.message@ == registered_message(),
    {
        RegisterMemberResult { success: true, message: "Register successfully".to_owned() }
    }

    /// The answer to a registration by an account that already has a record.
    pub fn rejected() -> (r: RegisterMemberResult)
        ensures
            !r.success,
            r.message@ == already_registered_message(),
    {
        RegisterMemberResult { success: false, message: "already registered".to_owned() }
    }
}

} // verus!
