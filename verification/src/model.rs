//! The ledger as a state machine over mathematical values.
//!
//! [`LedgerState`] is what a ledger holds, read as sequences, sets and maps.
//! Each operation of the ledger is a function from one state to the next,
//! together with a function that says when the operation is refused. The
//! proofs at the end of the module show what every reachable state
//! satisfies and how the operations relate to one another.

use vstd::prelude::*;

use crate::error::LedgerError;
use crate::members::{keyed, member_of, registered};
use crate::ownership::{added, finite_holdings, held_by, holdings_of, settled};
use crate::tickets::{
    issue_outcome,
    issued,
    lemma_issued,
    lemma_marked,
    lookup,
    mark_outcome,
    marked,
    numbered,
    sold,
    valid_issue_count,
};
use crate::types::issue_ticket::{IssueTicket, TicketCode};
use crate::types::member::MemberView;
use crate::types::{Balance, Timestamp};

verus! {

/// Everything a ledger holds.
pub struct LedgerState {
    /// All tickets ever issued, in the order of issue.
    pub tickets: Seq<IssueTicket>,
    /// The record of each registered account.
    pub members: Map<Seq<char>, MemberView>,
    /// The codes held by each account that ever bought a ticket.
    pub holdings: Map<Seq<char>, Set<TicketCode>>,
    /// The account that created the ledger.
    pub owner: Seq<char>,
    /// The accounts that were made admins.
    pub admins: Set<Seq<char>>,
    /// What one ticket costs.
    pub price: Balance,
}

impl LedgerState {
    /// The ledger as `owner` creates it: empty, free of charge, with the
    /// owner as its first admin.
    pub open spec fn created(owner: Seq<char>) -> LedgerState {
        LedgerState {
            tickets: Seq::empty(),
            members: Map::empty(),
            holdings: Map::empty(),
            owner,
            admins: set![owner],
            price: 0,
        }
    }

    /// The empty ledger of the empty account, without admins.
    pub open spec fn unowned() -> LedgerState {
        LedgerState {
            tickets: Seq::empty(),
            members: Map::empty(),
            holdings: Map::empty(),
            owner: Seq::empty(),
            admins: Set::empty(),
            price: 0,
        }
    }

    /// The ticket with the given code, if it was issued.
    pub open spec fn ticket(self, code: TicketCode) -> Option<IssueTicket> {
        lookup(self.tickets, code)
    }

    /// Whether the ticket `code` was issued and bought.
    pub open spec fn sold(self, code: TicketCode) -> bool {
        sold(self.tickets, code)
    }

    /// The record of `account`, if it registered.
    pub open spec fn member(self, account: Seq<char>) -> Option<MemberView> {
        member_of(self.members, account)
    }

    /// The codes that `account` holds.
    pub open spec fn tickets_of(self, account: Seq<char>) -> Set<TicketCode> {
        holdings_of(self.holdings, account)
    }

    /// Whether `account` holds the ticket `code`.
    pub open spec fn holds(self, account: Seq<char>, code: TicketCode) -> bool {
        held_by(self.holdings, account, code)
    }

    /// Whether `account` is the owner or an admin.
    pub open spec fn privileged(self, account: Seq<char>) -> bool {
        account == self.owner || self.admins.contains(account)
    }

    /// What holds of every ledger: the codes are contiguous from 1, each
    /// member is filed under its own account, and a ticket is used exactly
    /// when one account, and no second one, holds it.
    pub open spec fn inv(self) -> bool {
        &&& numbered(self.tickets)
        &&& keyed(self.members)
        &&& self.members.dom().finite()
        &&& finite_holdings(self.holdings)
        &&& self.admins.finite()
        &&& settled(self.tickets, self.holdings)
    }

    /// Whether `self` can precede `next` in the life of one ledger: nothing
    /// is deleted, nothing written is rewritten, a used ticket stays used
    /// and a held ticket stays with its holder. The owner stays, and the
    /// admins only grow.
    pub open spec fn precedes(self, next: LedgerState) -> bool {
        &&& self.tickets.len() <= next.tickets.len()
        &&& forall|i: int|
            0 <= i < self.tickets.len() ==> {
                &&& (#[trigger] next.tickets[i]).code == self.tickets[i].code
                &&& next.tickets[i].created_at == self.tickets[i].created_at
                &&& self.tickets[i].is_used ==> next.tickets[i].is_used
            }
        &&& forall|a: Seq<char>| #[trigger]
            self.members.dom().contains(a) ==> next.member(a) == self.member(a)
        &&& forall|a: Seq<char>, c: TicketCode| #[trigger] self.holds(a, c) ==> next.holds(a, c)
        &&& next.owner == self.owner
        &&& self.admins.subset_of(next.admins)
    }

    /// Whether `count` tickets can be issued, and if not, why.
    pub open spec fn issue_outcome(count: u8) -> Result<(), LedgerError> {
        issue_outcome(count)
    }

    /// The ledger after `count` tickets were issued at `now`.
    pub open spec fn issue(self, count: u8, now: Timestamp) -> LedgerState {
        LedgerState { tickets: issued(self.tickets, count, now), ..self }
    }

    /// Whether a registration by `caller` writes a record.
    pub open spec fn can_register(self, caller: Seq<char>) -> bool {
        !self.members.dom().contains(caller)
    }

    /// The ledger after `caller` asked to register with `email` at `now`.
    pub open spec fn register(
        self,
        caller: Seq<char>,
        email: Seq<char>,
        now: Timestamp,
    ) -> LedgerState {
        LedgerState { members: registered(self.members, caller, email, now), ..self }
    }

    /// Whether `caller` can name an admin, and if not, why.
    pub open spec fn add_admin_outcome(self, caller: Seq<char>) -> Result<(), LedgerError> {
        if caller == self.owner {
            Ok(())
        } else {
            Err(LedgerError::NotOwner)
        }
    }

    /// The ledger after `account` was made an admin.
    pub open spec fn add_admin(self, account: Seq<char>) -> LedgerState {
        LedgerState { admins: self.admins.insert(account), ..self }
    }

    /// Whether `caller` can set the price, and if not, why.
    pub open spec fn set_price_outcome(self, caller: Seq<char>) -> Result<(), LedgerError> {
        if self.privileged(caller) {
            Ok(())
        } else {
            Err(LedgerError::NotAuthorized)
        }
    }

    /// The ledger after the price was set to `amount`.
    pub open spec fn set_price(self, amount: Balance) -> LedgerState {
        LedgerState { price: amount, ..self }
    }

    /// Whether the ticket `code` can be bought for `paid`, and if not, why.
    /// The payment is examined first, then the code, then the used flag.
    pub open spec fn buy_outcome(self, code: TicketCode, paid: Balance) -> Result<(), LedgerError> {
        if paid < self.price {
            Err(LedgerError::InsufficientPayment)
        } else {
            mark_outcome(self.tickets, code)
        }
    }

    /// The ledger after `caller` bought the ticket `code`: the ticket is
    /// used and the caller holds it.
    pub open spec fn buy(self, caller: Seq<char>, code: TicketCode) -> LedgerState {
        LedgerState {
            tickets: marked(self.tickets, code),
            holdings: added(self.holdings, caller, code),
            ..self
        }
    }

    /// A new ledger satisfies the invariant.
    pub proof fn lemma_created(owner: Seq<char>)
        ensures
            LedgerState::created(owner).inv(),
            LedgerState::unowned().inv(),
    {
    }

    /// Every state can precede itself, and preceding is transitive.
    pub proof fn lemma_precedes_is_an_order(a: LedgerState, b: LedgerState, c: LedgerState)
        ensures
            a.precedes(a),
            a.precedes(b) && b.precedes(c) ==> a.precedes(c),
    {
        if a.precedes(b) && b.precedes(c) {
            assert forall|x: Seq<char>| #[trigger]
                a.members.dom().contains(x) implies c.member(x) == a.member(x) by {
                assert(b.member(x) == a.member(x));
                assert(b.members.dom().contains(x));
            }
            assert forall|x: Seq<char>, k: TicketCode| #[trigger] a.holds(x, k) implies c.holds(
                x,
                k,
            ) by {
                assert(b.holds(x, k));
            }
        }
    }

    /// Issuing numbers the new tickets onwards from the last code, each
    /// unused and created at `now`, and leaves every earlier ticket and all
    /// else as it was.
    pub proof fn lemma_issue(self, count: u8, now: Timestamp)
        requires
            self.inv(),
            valid_issue_count(count),
            self.tickets.len() + count <= u64::MAX,
        ensures
            self.issue(count, now).inv(),
            self.precedes(self.issue(count, now)),
            self.issue(count, now).tickets.len() == self.tickets.len() + count,
            forall|code: TicketCode|
                self.tickets.len() < code <= self.tickets.len() + count ==> #[trigger] self.issue(
                    count,
                    now,
                ).ticket(code) == Some(IssueTicket::fresh(code, now)),
            forall|code: TicketCode|
                1 <= code <= self.tickets.len() ==> #[trigger] self.issue(count, now).ticket(code)
                    == self.ticket(code),
            forall|code: TicketCode|
                code < 1 || code > self.tickets.len() + count ==> #[trigger] self.issue(
                    count,
                    now,
                ).ticket(code) is None,
    {
        let next = self.issue(count, now);
        lemma_issued(self.tickets, count, now);
        assert forall|c: TicketCode| #[trigger] sold(next.tickets, c) == sold(self.tickets, c) by {
            if 1 <= c <= self.tickets.len() {
                assert(lookup(next.tickets, c) == lookup(self.tickets, c));
            } else if self.tickets.len() < c <= self.tickets.len() + count {
                assert(lookup(next.tickets, c) == Some(IssueTicket::fresh(c, now)));
            }
        }
        assert forall|c: TicketCode| #[trigger] sold(next.tickets, c) implies exists|a: Seq<char>|
         #[trigger] held_by(next.holdings, a, c) by {
            assert(sold(self.tickets, c));
            let a = choose|a: Seq<char>| held_by(self.holdings, a, c);
            assert(held_by(next.holdings, a, c));
        }
    }

    /// A second issuance continues where the first one stopped: its codes
    /// follow those of the first without a gap, and no code of the first is
    /// given out again.
    pub proof fn lemma_issue_twice(
        self,
        first: u8,
        first_at: Timestamp,
        second: u8,
        second_at: Timestamp,
    )
        requires
            self.inv(),
            valid_issue_count(first),
            valid_issue_count(second),
            self.tickets.len() + first + second <= u64::MAX,
        ensures
            ({
                let n = self.tickets.len();
                let last = self.issue(first, first_at).issue(second, second_at);
                &&& last.inv()
                &&& last.tickets.len() == n + first + second
                &&& forall|code: TicketCode|
                    n < code <= n + first ==> #[trigger] last.ticket(code) == Some(
                        IssueTicket::fresh(code, first_at),
                    )
                &&& forall|code: TicketCode|
                    n + first < code <= n + first + second ==> #[trigger] last.ticket(code) == Some(
                        IssueTicket::fresh(code, second_at),
                    )
            }),
    {
        let middle = self.issue(first, first_at);
        self.lemma_issue(first, first_at);
        middle.lemma_issue(second, second_at);
        let last = middle.issue(second, second_at);
        let n = self.tickets.len();
        assert forall|code: TicketCode| n < code <= n + first implies #[trigger] last.ticket(code)
            == Some(IssueTicket::fresh(code, first_at)) by {
            assert(last.ticket(code) == middle.ticket(code));
        }
    }

    /// A registration writes the caller's record if it has none and
    /// changes nothing else.
    pub proof fn lemma_register(self, caller: Seq<char>, email: Seq<char>, now: Timestamp)
        requires
            self.inv(),
        ensures
            self.register(caller, email, now).inv(),
            self.precedes(self.register(caller, email, now)),
            !self.can_register(caller) ==> self.register(caller, email, now) == self,
            self.can_register(caller) ==> self.register(caller, email, now).member(caller) == Some(
                MemberView::joining(caller, email, now),
            ),
            forall|other: Seq<char>|
                other != caller ==> #[trigger] self.register(caller, email, now).member(other)
                    == self.member(other),
    {
    }

    /// Registration is idempotent: once an account asked to register, a
    /// further request by it writes nothing and leaves its record, and
    /// every other, as the first request left them.
    pub proof fn lemma_register_twice(
        self,
        caller: Seq<char>,
        email: Seq<char>,
        now: Timestamp,
        again_email: Seq<char>,
        again_now: Timestamp,
    )
        ensures
            !self.register(caller, email, now).can_register(caller),
            self.register(caller, email, now).register(caller, again_email, again_now)
                == self.register(caller, email, now),
    {
    }

    /// Naming an admin adds that account to the admins and changes nothing
    /// else.
    pub proof fn lemma_add_admin(self, account: Seq<char>)
        requires
            self.inv(),
        ensures
            self.add_admin(account).inv(),
            self.precedes(self.add_admin(account)),
            self.add_admin(account).privileged(account),
    {
    }

    /// Setting the price changes the price and nothing else.
    pub proof fn lemma_set_price(self, amount: Balance)
        requires
            self.inv(),
        ensures
            self.set_price(amount).inv(),
            self.precedes(self.set_price(amount)),
    {
    }

    /// A purchase that is not refused marks the ticket used and hands it to
    /// the caller, and to nobody else: afterwards the caller holds the
    /// code, no other account does, and every other ticket and every other
    /// account's holdings are as before.
    pub proof fn lemma_buy(self, caller: Seq<char>, code: TicketCode, paid: Balance)
        requires
            self.inv(),
            self.buy_outcome(code, paid) is Ok,
        ensures
            self.buy(caller, code).inv(),
            self.precedes(self.buy(caller, code)),
            !self.sold(code),
            self.buy(caller, code).sold(code),
            self.buy(caller, code).holds(caller, code),
            forall|other: Seq<char>|
                other != caller ==> !#[trigger] self.buy(caller, code).holds(other, code),
            forall|other: Seq<char>|
                other != caller ==> #[trigger] self.buy(caller, code).tickets_of(other)
                    == self.tickets_of(other),
            self.buy(caller, code).tickets_of(caller) == self.tickets_of(caller).insert(code),
            forall|other: TicketCode|
                other != code ==> #[trigger] self.buy(caller, code).ticket(other) == self.ticket(
                    other,
                ),
    {
        let next = self.buy(caller, code);
        lemma_marked(self.tickets, code);
        assert forall|a: Seq<char>, c: TicketCode| #[trigger]
            held_by(next.holdings, a, c) <==> held_by(self.holdings, a, c) || (a == caller && c
                == code) by {}
        assert forall|c: TicketCode| #[trigger]
            sold(next.tickets, c) <==> sold(self.tickets, c) || c == code by {
            if c != code {
                assert(lookup(next.tickets, c) == lookup(self.tickets, c));
            }
        }
        assert forall|a: Seq<char>| !#[trigger] held_by(self.holdings, a, code) by {
            if held_by(self.holdings, a, code) {
                assert(sold(self.tickets, code));
            }
        }
        assert forall|c: TicketCode| #[trigger] sold(next.tickets, c) implies exists|a: Seq<char>|
         #[trigger] held_by(next.holdings, a, c) by {
            if c == code {
                assert(held_by(next.holdings, caller, c));
            } else {
                assert(sold(self.tickets, c));
                let a = choose|a: Seq<char>| held_by(self.holdings, a, c);
                assert(held_by(next.holdings, a, c));
            }
        }
        assert forall|a: Seq<char>, b: Seq<char>, c: TicketCode| #[trigger]
            held_by(next.holdings, a, c) && #[trigger] held_by(next.holdings, b, c) implies a
            == b by {
            if c != code {
                assert(held_by(self.holdings, a, c) && held_by(self.holdings, b, c));
            }
        }
        assert forall|a: Seq<char>| #[trigger]
            self.members.dom().contains(a) implies next.member(a) == self.member(a) by {}
    }

    /// A refused purchase is refused for exactly one reason, which the
    /// payment, the code and the used flag determine in this order.
    pub proof fn lemma_buy_refusals(self, code: TicketCode, paid: Balance)
        ensures
            self.buy_outcome(code, paid) == Err::<(), LedgerError>(
                LedgerError::InsufficientPayment,
            ) <==> paid < self.price,
            self.buy_outcome(code, paid) == Err::<(), LedgerError>(LedgerError::TicketNotFound)
                <==> paid >= self.price && self.ticket(code) is None,
            self.buy_outcome(code, paid) == Err::<(), LedgerError>(LedgerError::TicketAlreadyUsed)
                <==> paid >= self.price && self.sold(code),
            self.buy_outcome(code, paid) is Ok <==> paid >= self.price && self.ticket(code) is Some
                && !self.sold(code),
    {
    }
}

} // verus!
