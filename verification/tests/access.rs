use joining_event::{AccessControl, ErrorKind, JoiningEvent, LedgerError, StorageKey};

#[test]
fn a_stranger_cannot_set_the_price() {
    let owner = "alice".to_string();
    let stranger = "bob".to_string();
    let mut ledger = JoiningEvent::new(owner.clone());
    assert_eq!(ledger.set_price_ticket(&owner, 5), Ok(()));
    assert_eq!(ledger.set_price_ticket(&stranger, 9), Err(LedgerError::NotAuthorized));
    assert_eq!(LedgerError::NotAuthorized.kind(), ErrorKind::NotAuthorized);
    assert_eq!(ledger.get_price_ticket(), 5);
}

#[test]
fn an_admin_can_set_the_price() {
    let owner = "alice".to_string();
    let admin = "bob".to_string();
    let mut ledger = JoiningEvent::new(owner.clone());
    assert_eq!(ledger.set_admin_account(&owner, admin.clone()), Ok(()));
    assert!(ledger.is_privileged(&admin));
    assert_eq!(ledger.set_price_ticket(&admin, 9), Ok(()));
    assert_eq!(ledger.get_price_ticket(), 9);
    assert_eq!(ledger.get_owner(), "alice");
}

#[test]
fn only_the_owner_names_admins() {
    let owner = "alice".to_string();
    let admin = "bob".to_string();
    let stranger = "charlie".to_string();
    let mut ledger = JoiningEvent::new(owner.clone());
    assert_eq!(
        ledger.set_admin_account(&stranger, stranger.clone()),
        Err(LedgerError::NotOwner)
    );
    assert!(!ledger.is_privileged(&stranger));
    assert_eq!(ledger.set_admin_account(&owner, admin.clone()), Ok(()));
    assert_eq!(
        ledger.set_admin_account(&admin, stranger.clone()),
        Err(LedgerError::NotOwner)
    );
    assert!(!ledger.is_privileged(&stranger));
    assert_eq!(LedgerError::NotOwner.kind(), ErrorKind::NotAuthorized);
}

#[test]
fn naming_an_admin_twice_is_harmless() {
    let owner = "alice".to_string();
    let admin = "bob".to_string();
    let mut access = AccessControl::new(owner.clone());
    assert!(access.is_admin(&owner));
    assert!(!access.is_admin(&admin));
    assert_eq!(access.add_admin(&owner, admin.clone()), Ok(()));
    assert_eq!(access.add_admin(&owner, admin.clone()), Ok(()));
    assert!(access.is_admin(&admin));
    assert!(access.is_privileged(&admin));
    assert_eq!(access.get_owner(), "alice");
}

#[test]
fn default_access_has_no_admin() {
    let access = AccessControl::default();
    assert_eq!(access.get_owner(), "");
    assert!(!access.is_admin(&String::new()));
    assert!(access.is_privileged(&String::new()));
    assert!(!access.is_privileged(&"alice".to_string()));
}

#[test]
fn every_failure_has_its_sentence() {
    assert_eq!(
        LedgerError::InvalidIssueCount.message(),
        "Number of tickets must be 1 or less than or equal 100"
    );
    assert_eq!(LedgerError::TicketNotFound.message(), "Ticket code is not found");
    assert_eq!(LedgerError::TicketAlreadyUsed.message(), "This ticket is used");
    assert_eq!(LedgerError::InsufficientPayment.message(), "The price paid is not enough");
    assert_eq!(LedgerError::NotAuthorized.message(), "You can not call this method");
    assert_eq!(LedgerError::NotOwner.message(), "ERR_NOT_OWNER");
}

#[test]
fn storage_keys_have_distinct_tags() {
    assert_eq!(StorageKey::IssueTicketKey.tag(), 0);
    assert_eq!(StorageKey::MemberKey.tag(), 1);
    assert_eq!(StorageKey::TicketOwnerKey.tag(), 2);
    assert_eq!(StorageKey::OwnerKey.tag(), 3);
}
