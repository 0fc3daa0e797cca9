use joining_event::{ErrorKind, IssueTicket, JoiningEvent, LedgerError, TicketRegistry};

#[test]
fn every_valid_count_issues_unused_tickets_stamped_with_the_call_time() {
    for n in 1u8..=100 {
        let now = 1_000 + u64::from(n);
        let mut ledger = JoiningEvent::new("alice".to_string());
        assert_eq!(ledger.issue_ticket(n, now), Ok(()));
        assert_eq!(ledger.total_tickets(), u64::from(n));
        for code in 1..=u64::from(n) {
            assert_eq!(
                ledger.get_info_ticket(code),
                Some(IssueTicket { code, is_used: false, created_at: now })
            );
        }
        assert_eq!(ledger.get_info_ticket(0), None);
        assert_eq!(ledger.get_info_ticket(u64::from(n) + 1), None);
    }
}

#[test]
fn issuing_again_continues_the_numbering() {
    let mut ledger = JoiningEvent::new("alice".to_string());
    assert_eq!(ledger.issue_ticket(3, 10), Ok(()));
    assert_eq!(ledger.issue_ticket(2, 20), Ok(()));
    assert_eq!(ledger.total_tickets(), 5);
    let expected = [(1, 10), (2, 10), (3, 10), (4, 20), (5, 20)];
    for (code, created_at) in expected {
        assert_eq!(
            ledger.get_info_ticket(code),
            Some(IssueTicket { code, is_used: false, created_at })
        );
    }
    assert_eq!(ledger.get_info_ticket(6), None);
}

#[test]
fn issuing_after_a_purchase_keeps_the_sold_ticket() {
    let buyer = "bob".to_string();
    let mut ledger = JoiningEvent::new("alice".to_string());
    assert_eq!(ledger.issue_ticket(2, 10), Ok(()));
    assert_eq!(ledger.buy_ticket(&buyer, 2, 0), Ok(()));
    assert_eq!(ledger.issue_ticket(1, 30), Ok(()));
    assert_eq!(
        ledger.get_info_ticket(2),
        Some(IssueTicket { code: 2, is_used: true, created_at: 10 })
    );
    assert_eq!(
        ledger.get_info_ticket(3),
        Some(IssueTicket { code: 3, is_used: false, created_at: 30 })
    );
    assert_eq!(ledger.get_tickets(buyer), vec![2]);
}

#[test]
fn issuing_no_ticket_is_refused() {
    let mut ledger = JoiningEvent::new("alice".to_string());
    assert_eq!(ledger.issue_ticket(0, 5), Err(LedgerError::InvalidIssueCount));
    assert_eq!(ledger.total_tickets(), 0);
    assert_eq!(ledger.get_info_ticket(1), None);
}

#[test]
fn issuing_more_than_a_hundred_tickets_is_refused() {
    let mut ledger = JoiningEvent::new("alice".to_string());
    assert_eq!(ledger.issue_ticket(101, 5), Err(LedgerError::InvalidIssueCount));
    assert_eq!(ledger.issue_ticket(255, 5), Err(LedgerError::InvalidIssueCount));
    assert_eq!(ledger.total_tickets(), 0);
    assert_eq!(ledger.get_info_ticket(1), None);
    assert_eq!(LedgerError::InvalidIssueCount.kind(), ErrorKind::InvalidInput);
}

#[test]
fn a_refused_issuance_leaves_earlier_tickets_alone() {
    let mut ledger = JoiningEvent::new("alice".to_string());
    assert_eq!(ledger.issue_ticket(100, 5), Ok(()));
    assert_eq!(ledger.issue_ticket(101, 6), Err(LedgerError::InvalidIssueCount));
    assert_eq!(ledger.total_tickets(), 100);
    assert_eq!(
        ledger.get_info_ticket(100),
        Some(IssueTicket { code: 100, is_used: false, created_at: 5 })
    );
    assert_eq!(ledger.get_info_ticket(101), None);
}

#[test]
fn the_registry_numbers_from_one() {
    let mut registry = TicketRegistry::new();
    assert_eq!(registry.total(), 0);
    assert_eq!(registry.get(1), None);
    assert_eq!(registry.issue(1, 42), Ok(()));
    assert_eq!(registry.total(), 1);
    assert_eq!(registry.get(0), None);
    assert_eq!(registry.get(1), Some(IssueTicket { code: 1, is_used: false, created_at: 42 }));
    assert_eq!(registry.get(2), None);
    assert_eq!(registry.get(u64::MAX), None);
}

#[test]
fn the_registry_marks_a_ticket_used_once() {
    let mut registry = TicketRegistry::new();
    assert_eq!(registry.issue(3, 42), Ok(()));
    assert_eq!(registry.mark_used(0), Err(LedgerError::TicketNotFound));
    assert_eq!(registry.mark_used(4), Err(LedgerError::TicketNotFound));
    assert_eq!(registry.mark_used(2), Ok(()));
    assert_eq!(registry.mark_used(2), Err(LedgerError::TicketAlreadyUsed));
    assert_eq!(registry.get(1), Some(IssueTicket { code: 1, is_used: false, created_at: 42 }));
    assert_eq!(registry.get(2), Some(IssueTicket { code: 2, is_used: true, created_at: 42 }));
    assert_eq!(registry.get(3), Some(IssueTicket { code: 3, is_used: false, created_at: 42 }));
}
