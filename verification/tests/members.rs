use joining_event::{ErrorKind, JoiningEvent, MemberRegistry, RegisterMemberResult};

#[test]
fn registering_writes_an_inactive_record() {
    let caller = "bob".to_string();
    let mut ledger = JoiningEvent::new("alice".to_string());
    let answer = ledger.register(&caller, "bob@example.org".to_string(), 77);
    assert!(answer.success);
    assert_eq!(answer.message, "Register successfully");
    let member = ledger.get_member(caller).unwrap();
    assert_eq!(member.account_id, "bob");
    assert_eq!(member.email, "bob@example.org");
    assert_eq!(member.join_at, 77);
    assert!(!member.is_active);
}

#[test]
fn registering_twice_changes_nothing() {
    let caller = "bob".to_string();
    let mut ledger = JoiningEvent::new("alice".to_string());
    assert!(ledger.register(&caller, "first@example.org".to_string(), 1).success);
    let again = ledger.register(&caller, "second@example.org".to_string(), 2);
    assert!(!again.success);
    assert_eq!(again.message, "already registered");
    let member = ledger.get_member(caller).unwrap();
    assert_eq!(member.account_id, "bob");
    assert_eq!(member.email, "first@example.org");
    assert_eq!(member.join_at, 1);
    assert!(!member.is_active);
}

#[test]
fn each_account_has_its_own_record() {
    let bob = "bob".to_string();
    let charlie = "charlie".to_string();
    let mut ledger = JoiningEvent::new("alice".to_string());
    assert!(ledger.register(&bob, "bob@example.org".to_string(), 1).success);
    assert!(ledger.register(&charlie, "charlie@example.org".to_string(), 2).success);
    assert_eq!(ledger.get_member(bob).unwrap().email, "bob@example.org");
    assert_eq!(ledger.get_member(charlie).unwrap().join_at, 2);
    assert!(ledger.get_member("alice".to_string()).is_none());
}

#[test]
fn the_registry_finds_what_it_stored() {
    let bob = "bob".to_string();
    let mut registry = MemberRegistry::new();
    assert!(!registry.contains(&bob));
    assert!(registry.get(&bob).is_none());
    assert!(registry.register(&bob, "bob@example.org".to_string(), 5).success);
    assert!(registry.contains(&bob));
    assert!(!registry.contains(&"bo".to_string()));
    let copy = registry.get(&bob).unwrap().clone();
    assert_eq!(copy.email, "bob@example.org");
    assert_eq!(copy.join_at, 5);
}

#[test]
fn a_repeated_registration_has_its_own_kind() {
    let caller = "bob".to_string();
    let mut ledger = JoiningEvent::new("alice".to_string());
    let first = ledger.register(&caller, "bob@example.org".to_string(), 1);
    assert_eq!(first.kind(), None);
    let again = ledger.register(&caller, "bob@example.org".to_string(), 1);
    assert_eq!(again.kind(), Some(ErrorKind::AlreadyRegistered));
    assert_eq!(RegisterMemberResult::accepted().kind(), None);
    assert_eq!(RegisterMemberResult::rejected().kind(), Some(ErrorKind::AlreadyRegistered));
}
