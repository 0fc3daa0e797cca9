use joining_event::{
    AccessControl, Holding, IssueTicket, JoiningEvent, Member, MemberRegistry, OwnershipIndex,
    Snapshot, TicketRegistry, LAYOUT_VERSION,
};

fn ticket(code: u64, is_used: bool) -> IssueTicket {
    IssueTicket { code, is_used, created_at: 11 }
}

fn member(account: &str) -> Member {
    Member {
        account_id: account.to_string(),
        email: format!("{}@example.org", account),
        join_at: 4,
        is_active: false,
    }
}

fn holding(account: &str, codes: &[u64]) -> Holding {
    Holding { account_id: account.to_string(), codes: codes.to_vec() }
}

fn sample() -> Snapshot {
    Snapshot {
        version: 1,
        tickets: vec![ticket(1, true), ticket(2, false), ticket(3, true), ticket(4, true)],
        members: vec![member("bob"), member("charlie")],
        holdings: vec![holding("bob", &[3, 1]), holding("danny", &[4])],
        owner: "alice".to_string(),
        admins: vec!["alice".to_string(), "eugene".to_string()],
        price_ticket: 25,
    }
}

#[test]
fn a_written_ledger_is_read_back_as_it_was() {
    let owner = "alice".to_string();
    let bob = "bob".to_string();
    let charlie = "charlie".to_string();
    let mut ledger = JoiningEvent::new(owner.clone());
    assert_eq!(ledger.issue_ticket(3, 8), Ok(()));
    assert_eq!(ledger.set_admin_account(&owner, charlie.clone()), Ok(()));
    assert_eq!(ledger.set_price_ticket(&charlie, 40), Ok(()));
    assert!(ledger.register(&bob, "bob@example.org".to_string(), 9).success);
    assert_eq!(ledger.buy_ticket(&bob, 2, 40), Ok(()));

    let snapshot = ledger.into_snapshot();
    assert_eq!(snapshot.version, 1);
    assert_eq!(
        snapshot.tickets,
        vec![
            IssueTicket { code: 1, is_used: false, created_at: 8 },
            IssueTicket { code: 2, is_used: true, created_at: 8 },
            IssueTicket { code: 3, is_used: false, created_at: 8 },
        ]
    );
    assert_eq!(snapshot.members.len(), 1);
    assert_eq!(snapshot.members[0].account_id, "bob");
    assert_eq!(snapshot.members[0].email, "bob@example.org");
    assert_eq!(snapshot.members[0].join_at, 9);
    assert!(!snapshot.members[0].is_active);
    assert_eq!(snapshot.holdings.len(), 1);
    assert_eq!(snapshot.holdings[0].account_id, "bob");
    assert_eq!(snapshot.holdings[0].codes, vec![2]);
    assert_eq!(snapshot.owner, "alice");
    assert_eq!(snapshot.admins, vec!["alice".to_string(), "charlie".to_string()]);
    assert_eq!(snapshot.price_ticket, 40);

    let mut back = JoiningEvent::restore(snapshot).unwrap();
    assert_eq!(back.get_owner(), "alice");
    assert_eq!(back.get_price_ticket(), 40);
    assert_eq!(back.total_tickets(), 3);
    assert_eq!(back.get_tickets(bob.clone()), vec![2]);
    assert_eq!(back.get_member(bob.clone()).unwrap().email, "bob@example.org");
    assert!(back.is_privileged(&charlie));
    assert_eq!(back.buy_ticket(&charlie, 2, 40), Err(joining_event::LedgerError::TicketAlreadyUsed));
    assert_eq!(back.buy_ticket(&charlie, 3, 40), Ok(()));
    assert_eq!(back.issue_ticket(1, 10), Ok(()));
    assert_eq!(
        back.get_info_ticket(4),
        Some(IssueTicket { code: 4, is_used: false, created_at: 10 })
    );
}

#[test]
fn a_valid_snapshot_is_restored() {
    let ledger = JoiningEvent::restore(sample()).unwrap();
    assert_eq!(ledger.total_tickets(), 4);
    assert_eq!(ledger.get_price_ticket(), 25);
    assert_eq!(ledger.get_info_ticket(3), Some(ticket(3, true)));
    assert_eq!(ledger.get_tickets("bob".to_string()), vec![3, 1]);
    assert_eq!(ledger.get_tickets("danny".to_string()), vec![4]);
    assert!(ledger.get_tickets("charlie".to_string()).is_empty());
    assert_eq!(ledger.get_member("charlie".to_string()).unwrap().join_at, 4);
    assert!(ledger.is_privileged(&"eugene".to_string()));
    assert!(!ledger.is_privileged(&"bob".to_string()));
}

#[test]
fn the_empty_snapshot_is_valid() {
    let snapshot = JoiningEvent::default().into_snapshot();
    assert!(snapshot.tickets.is_empty());
    assert!(snapshot.members.is_empty());
    assert!(snapshot.holdings.is_empty());
    assert!(snapshot.admins.is_empty());
    assert_eq!(snapshot.owner, "");
    assert_eq!(snapshot.price_ticket, 0);
    assert!(JoiningEvent::restore(snapshot).is_some());
}

#[test]
fn another_layout_is_refused() {
    assert_eq!(LAYOUT_VERSION, 1);
    let mut snapshot = sample();
    snapshot.version = 0;
    assert!(JoiningEvent::restore(snapshot).is_none());
    let mut snapshot = sample();
    snapshot.version = 2;
    assert!(JoiningEvent::restore(snapshot).is_none());
}

#[test]
fn a_gap_in_the_codes_is_refused() {
    let mut snapshot = sample();
    snapshot.tickets[1].code = 5;
    assert!(JoiningEvent::restore(snapshot).is_none());
    assert!(TicketRegistry::from_records(vec![ticket(2, false)]).is_none());
    assert!(TicketRegistry::from_records(vec![ticket(1, false), ticket(1, false)]).is_none());
    assert!(TicketRegistry::from_records(vec![ticket(0, false)]).is_none());
}

#[test]
fn a_member_listed_twice_is_refused() {
    let mut snapshot = sample();
    snapshot.members.push(member("bob"));
    assert!(JoiningEvent::restore(snapshot).is_none());
    assert!(MemberRegistry::from_records(vec![member("x"), member("y"), member("x")]).is_none());
}

#[test]
fn a_holder_listed_twice_is_refused() {
    let mut snapshot = sample();
    snapshot.tickets[1].is_used = true;
    snapshot.holdings.push(holding("bob", &[2]));
    assert!(JoiningEvent::restore(snapshot).is_none());
    assert!(OwnershipIndex::from_records(vec![holding("x", &[1]), holding("x", &[2])]).is_none());
}

#[test]
fn a_code_listed_twice_by_one_holder_is_refused() {
    let mut snapshot = sample();
    snapshot.holdings[0].codes.push(3);
    assert!(JoiningEvent::restore(snapshot).is_none());
    assert!(OwnershipIndex::from_records(vec![holding("x", &[1, 2, 1])]).is_none());
}

#[test]
fn an_admin_listed_twice_is_refused() {
    let mut snapshot = sample();
    snapshot.admins.push("eugene".to_string());
    assert!(JoiningEvent::restore(snapshot).is_none());
    let twice = vec!["x".to_string(), "x".to_string()];
    assert!(AccessControl::from_parts("alice".to_string(), twice).is_none());
}

#[test]
fn a_ticket_held_by_two_accounts_is_refused() {
    let mut snapshot = sample();
    snapshot.holdings[1].codes.push(1);
    assert!(JoiningEvent::restore(snapshot).is_none());
}

#[test]
fn a_used_ticket_without_holder_is_refused() {
    let mut snapshot = sample();
    snapshot.tickets[1].is_used = true;
    assert!(JoiningEvent::restore(snapshot).is_none());
}

#[test]
fn a_held_ticket_that_is_unused_is_refused() {
    let mut snapshot = sample();
    snapshot.tickets[3].is_used = false;
    assert!(JoiningEvent::restore(snapshot).is_none());
}

#[test]
fn a_held_code_that_was_never_issued_is_refused() {
    let mut snapshot = sample();
    snapshot.holdings[1].codes.push(5);
    assert!(JoiningEvent::restore(snapshot).is_none());
    let mut snapshot = sample();
    snapshot.holdings[1].codes.push(0);
    assert!(JoiningEvent::restore(snapshot).is_none());
}

#[test]
fn the_index_agrees_with_the_registry_it_was_built_with() {
    let mut tickets = TicketRegistry::new();
    assert_eq!(tickets.issue(3, 1), Ok(()));
    let mut index = OwnershipIndex::new();
    assert!(index.settles(&tickets));
    assert_eq!(tickets.mark_used(2), Ok(()));
    assert!(!index.settles(&tickets));
    index.add_ticket(&"bob".to_string(), 2);
    assert!(index.settles(&tickets));
    index.add_ticket(&"charlie".to_string(), 2);
    assert!(!index.settles(&tickets));
}

#[test]
fn the_parts_come_out_as_they_went_in() {
    let tickets = TicketRegistry::from_records(vec![ticket(1, false), ticket(2, true)]).unwrap();
    assert_eq!(tickets.count(), 2);
    assert_eq!(tickets.into_records(), vec![ticket(1, false), ticket(2, true)]);

    let members = MemberRegistry::from_records(vec![member("x"), member("y")]).unwrap();
    let records = members.into_records();
    assert_eq!(records.len(), 2);
    assert_eq!(records[1].account_id, "y");

    let index = OwnershipIndex::from_records(vec![holding("x", &[2])]).unwrap();
    let entries = index.into_records();
    assert_eq!(entries.len(), 1);
    assert_eq!(entries[0].account_id, "x");
    assert_eq!(entries[0].codes, vec![2]);

    let access = AccessControl::from_parts("alice".to_string(), vec!["bob".to_string()]).unwrap();
    assert!(!access.is_admin(&"alice".to_string()));
    assert!(access.is_privileged(&"alice".to_string()));
    let (owner, admins) = access.into_parts();
    assert_eq!(owner, "alice");
    assert_eq!(admins, vec!["bob".to_string()]);
}
