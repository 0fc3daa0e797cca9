//! The ownership index: which account holds which tickets.

use vstd::prelude::*;

use crate::assoc::{
    all_distinct,
    assoc,
    keys_of,
    lemma_assoc_at,
    lemma_assoc_dom,
    lemma_assoc_push,
    lemma_assoc_update,
    lemma_keys_push,
    position,
    Keyed,
};
use crate::tickets::{sold, TicketRegistry};
use crate::types::issue_ticket::{IssueTicket, TicketCode};
use crate::types::AccountId;

verus! {

/// The codes that `account` holds: none if it has no entry.
pub open spec fn holdings_of(
    m: Map<Seq<char>, Set<TicketCode>>,
    account: Seq<char>,
) -> Set<TicketCode> {
    if m.dom().contains(account) {
        m[account]
    } else {
        Set::empty()
    }
}

/// Whether `account` holds the ticket `code`.
pub open spec fn held_by(
    m: Map<Seq<char>, Set<TicketCode>>,
    account: Seq<char>,
    code: TicketCode,
) -> bool {
    holdings_of(m, account).contains(code)
}

/// The index after `code` was added to the holdings of `account`.
pub open spec fn added(
    m: Map<Seq<char>, Set<TicketCode>>,
    account: Seq<char>,
    code: TicketCode,
) -> Map<Seq<char>, Set<TicketCode>> {
    m.insert(account, holdings_of(m, account).insert(code))
}

/// Finitely many accounts hold tickets, and each holds finitely many.
pub open spec fn finite_holdings(m: Map<Seq<char>, Set<TicketCode>>) -> bool {
    &&& m.dom().finite()
    &&& forall|a: Seq<char>| m.dom().contains(a) ==> (#[trigger] m[a]).finite()
}

/// The index and the registry agree: whatever is held is an issued and
/// used ticket, every used ticket is held by some account, and no ticket is
/// held by two.
pub open spec fn settled(tickets: Seq<IssueTicket>, m: Map<Seq<char>, Set<TicketCode>>) -> bool {
    &&& forall|a: Seq<char>, c: TicketCode| #[trigger] held_by(m, a, c) ==> sold(tickets, c)
    &&& forall|c: TicketCode| #[trigger]
        sold(tickets, c) ==> exists|a: Seq<char>| #[trigger] held_by(m, a, c)
    &&& forall|a: Seq<char>, b: Seq<char>, c: TicketCode|
        #[trigger] held_by(m, a, c) && #[trigger] held_by(m, b, c) ==> a == b
}

/// The tickets of one account.
#[derive(Debug)]
pub struct Holding {
    pub account_id: AccountId,
    pub codes: Vec<TicketCode>,
}

impl Keyed for Holding {
    open spec fn key(&self) -> Seq<char> {
        self.account_id@
    }

    fn account(&self) -> (account: &AccountId) {
        &self.account_id
    }
}

/// The set of codes of each entry, in the order of the entries.
pub open spec fn sets_of(entries: Seq<Holding>) -> Seq<Set<TicketCode>> {
    entries.map_values(|h: Holding| h.codes@.to_set())
}

/// The map from each account to the set of its codes.
pub open spec fn holding_map(entries: Seq<Holding>) -> Map<Seq<char>, Set<TicketCode>> {
    assoc(keys_of(entries), sets_of(entries))
}

/// No account has two entries, and no entry lists a code twice.
pub open spec fn tidy(entries: Seq<Holding>) -> bool {
    &&& keys_of(entries).no_duplicates()
    &&& forall|i: int| 0 <= i < entries.len() ==> (#[trigger] entries[i]).codes@.no_duplicates()
}

/// The code at position `k` of entry `j`.
spec fn code_at(entries: Seq<Holding>, j: int, k: int) -> TicketCode {
    entries[j].codes@[k]
}

/// Whether entry `j` has a position `k`.
spec fn listed(entries: Seq<Holding>, j: int, k: int) -> bool {
    0 <= j < entries.len() && 0 <= k < entries[j].codes@.len()
}

/// Whether a scan that stands at position `k` of entry `j` has passed
/// position `k1` of entry `j1`.
spec fn passed(j1: int, k1: int, j: int, k: int) -> bool {
    j1 < j || (j1 == j && k1 < k)
}

/// What a scan knows when it stands at position `k` of entry `j`: every
/// code it has passed belongs to a used ticket and is marked, every mark
/// stems from a code it has passed, and no two positions it has passed
/// list the same code.
spec fn swept(
    entries: Seq<Holding>,
    tickets: Seq<IssueTicket>,
    marks: Seq<bool>,
    j: int,
    k: int,
) -> bool {
    &&& forall|j1: int, k1: int|
        listed(entries, j1, k1) && passed(j1, k1, j, k) ==> {
            &&& sold(tickets, #[trigger] code_at(entries, j1, k1))
            &&& marks[code_at(entries, j1, k1) - 1]
        }
    &&& forall|i: int|
        0 <= i < marks.len() && #[trigger] marks[i] ==> exists|j1: int, k1: int|
            listed(entries, j1, k1) && passed(j1, k1, j, k) && #[trigger] code_at(entries, j1, k1)
                == i + 1
    &&& forall|j1: int, k1: int, j2: int, k2: int|
        listed(entries, j1, k1) && listed(entries, j2, k2) && passed(j1, k1, j, k) && passed(
            j2,
            k2,
            j,
            k,
        ) && (j1 != j2 || k1 != k2) ==> #[trigger] code_at(entries, j1, k1) != #[trigger] code_at(
            entries,
            j2,
            k2,
        )
}

/// The map of any list of entries is finite in both directions.
pub proof fn lemma_holding_map(entries: Seq<Holding>)
    ensures
        finite_holdings(holding_map(entries)),
{
    let m = holding_map(entries);
    lemma_assoc_dom(keys_of(entries), sets_of(entries));
    assert forall|a: Seq<char>| m.dom().contains(a) implies (#[trigger] m[a]).finite() by {
        let j = keys_of(entries).index_of(a);
        vstd::seq_lib::seq_to_set_is_finite(entries[j].codes@);
    }
}

/// A code that an entry lists is held by the entry's account.
proof fn lemma_listed_is_held(entries: Seq<Holding>, j: int, k: int)
    requires
        tidy(entries),
        listed(entries, j, k),
    ensures
        held_by(holding_map(entries), entries[j].key(), code_at(entries, j, k)),
{
    lemma_assoc_at(keys_of(entries), sets_of(entries), j);
    assert(entries[j].codes@.contains(entries[j].codes@[k]));
}

/// A code that an account holds is listed by the account's entry.
proof fn lemma_held_is_listed(entries: Seq<Holding>, account: Seq<char>, code: TicketCode)
    requires
        tidy(entries),
        held_by(holding_map(entries), account, code),
    ensures
        exists|j: int, k: int|
            listed(entries, j, k) && entries[j].key() == account && #[trigger] code_at(
                entries,
                j,
                k,
            ) == code,
{
    let keys = keys_of(entries);
    assert(keys.contains(account));
    let j = keys.index_of(account);
    lemma_assoc_at(keys, sets_of(entries), j);
    assert(entries[j].codes@.contains(code));
    let k = entries[j].codes@.index_of(code);
    assert(listed(entries, j, k) && entries[j].key() == account && code_at(entries, j, k) == code);
}

/// Whether no code occurs twice.
fn distinct_codes(codes: &Vec<TicketCode>) -> (r: bool)
    ensures
        r == codes@.no_duplicates(),
{
    let mut i: usize = 0;
    while i < codes.len()
        invariant
            i <= codes@.len(),
            forall|a: int, b: int| 0 <= a < b < i ==> codes@[a] != codes@[b],
        decreases codes@.len() - i,
    {
        let mut j: usize = 0;
        while j < i
            invariant
                j <= i < codes@.len(),
                forall|b: int| 0 <= b < j ==> codes@[b] != codes@[i as int],
            decreases i - j,
        {
            if codes[j] == codes[i] {
                return false;
            }
            j = j + 1;
        }
        i = i + 1;
    }
    true
}

/// For each account that ever bought a ticket, the codes it holds.
pub struct OwnershipIndex {
    holdings: Vec<Holding>,
}

impl View for OwnershipIndex {
    type V = Map<Seq<char>, Set<TicketCode>>;

    closed spec fn view(&self) -> Map<Seq<char>, Set<TicketCode>> {
        holding_map(self.holdings@)
    }
}

impl OwnershipIndex {
    /// No account and no code of an account is stored twice.
    pub closed spec fn distinct(&self) -> bool {
        tidy(self.holdings@)
    }

    /// Nothing is stored twice, so the holdings are finite.
    pub open spec fn wf(&self) -> bool {
        &&& self.distinct()
        &&& finite_holdings(self@)
    }

    /// An index in which nobody holds a ticket.
    pub fn new() -> (index: OwnershipIndex)
        ensures
            index.wf(),
            index@ == Map::<Seq<char>, Set<TicketCode>>::empty(),
    {
        let index = OwnershipIndex { holdings: Vec::new() };
        proof {
            lemma_holding_map(index.holdings@);
            assert(index@ =~= Map::<Seq<char>, Set<TicketCode>>::empty());
        }
        index
    }

    /// The index that holds exactly `entries`, if no account has two of
    /// them and none lists a code twice.
    pub fn from_records(entries: Vec<Holding>) -> (r: Option<OwnershipIndex>)
        ensures
            r is Some <==> tidy(entries@),
            r matches Some(index) ==> index.wf() && index@ == holding_map(entries@),
    {
        if !all_distinct(&entries) {
            return None;
        }
        let mut i: usize = 0;
        while i < entries.len()
            invariant
                i <= entries@.len(),
                forall|j: int| 0 <= j < i ==> (#[trigger] entries@[j]).codes@.no_duplicates(),
            decreases entries@.len() - i,
        {
            if !distinct_codes(&entries[i].codes) {
                return None;
            }
            i = i + 1;
        }
        proof {
            lemma_holding_map(entries@);
        }
        Some(OwnershipIndex { holdings: entries })
    }

    /// All entries, each account once and each of its codes once.
    pub fn into_records(self) -> (entries: Vec<Holding>)
        requires
            self.wf(),
        ensures
            tidy(entries@),
            holding_map(entries@) == self@,
    {
        self.holdings
    }

    /// The codes that `account` holds, each once.
    pub fn list_tickets(&self, account: &AccountId) -> (codes: Vec<TicketCode>)
        requires
            self.wf(),
        ensures
            codes@.no_duplicates(),
            codes@.to_set() == holdings_of(self@, account@),
    {
        match position(&self.holdings, account) {
            Some(i) => {
                proof {
                    lemma_assoc_at(keys_of(self.holdings@), sets_of(self.holdings@), i as int);
                }
                let codes = self.holdings[i].codes.clone();
                assert(codes@ =~= self.holdings@[i as int].codes@);
                codes
            },
            None => {
                let codes: Vec<TicketCode> = Vec::new();
                assert(codes@.to_set() =~= Set::<TicketCode>::empty());
                codes
            },
        }
    }

    /// Adds `code` to the holdings of `account`, which get an entry if they
    /// had none.
    pub fn add_ticket(&mut self, account: &AccountId, code: TicketCode)
        requires
            old(self).wf(),
        ensures
            final(self).wf(),
            final(self)@ == added(old(self)@, account@, code),
    {
        let ghost before = self.holdings@;
        match position(&self.holdings, account) {
            Some(i) => {
                let holding = &mut self.holdings[i];
                let mut k: usize = 0;
                let mut found = false;
                while !found && k < holding.codes.len()
                    invariant
                        k <= holding.codes@.len(),
                        found ==> holding.codes@.contains(code),
                        !found ==> forall|j: int| 0 <= j < k ==> holding.codes@[j] != code,
                    decreases holding.codes@.len() - k,
                {
                    found = holding.codes[k] == code;
                    k = k + 1;
                }
                if !found {
                    holding.codes.push(code);
                }
                proof {
                    let was = before[i as int];
                    let now = self.holdings@[i as int];
                    let set = was.codes@.to_set().insert(code);
                    assert(self.holdings@ =~= before.update(i as int, now));
                    assert(now.account_id == was.account_id);
                    if found {
                        assert(now.codes@ == was.codes@);
                        assert(set =~= was.codes@.to_set());
                    } else {
                        assert(now.codes@ == was.codes@.push(code));
                        was.codes@.lemma_push_to_set_commute(code);
                    }
                    assert(now.codes@.to_set() == set);
                    assert(keys_of(self.holdings@) =~= keys_of(before));
                    assert(sets_of(self.holdings@) =~= sets_of(before).update(i as int, set));
                    lemma_assoc_at(keys_of(before), sets_of(before), i as int);
                    lemma_assoc_update(keys_of(before), sets_of(before), i as int, set);
                    lemma_holding_map(self.holdings@);
                }
            },
            None => {
                let mut codes: Vec<TicketCode> = Vec::new();
                codes.push(code);
                let holding = Holding { account_id: account.clone(), codes };
                proof {
                    let set = holding.codes@.to_set();
                    lemma_assoc_push(keys_of(before), sets_of(before), account@, set);
                    lemma_keys_push(before, holding);
                    assert(holding.codes@ =~= seq![code]);
                    assert(set =~= Set::<TicketCode>::empty().insert(code)) by {
                        assert(holding.codes@[0] == code);
                    }
                    assert(sets_of(before.push(holding)) =~= sets_of(before).push(set));
                    lemma_holding_map(before.push(holding));
                }
                self.holdings.push(holding);
            },
        }
    }

    /// Whether the index agrees with the registry `tickets`: whatever is
    /// held is an issued and used ticket, every used ticket is held, and no
    /// ticket is held by two accounts.
    pub fn settles(&self, tickets: &TicketRegistry) -> (r: bool)
        requires
            self.wf(),
        ensures
            r == settled(tickets@, self@),
    {
        let ghost entries = self.holdings@;
        let ghost m = self@;
        let n: usize = tickets.count();
        let mut marks: Vec<bool> = vec![false; n];
        let mut j: usize = 0;
        while j < self.holdings.len()
            invariant
                j <= entries.len(),
                entries == self.holdings@,
                m == holding_map(entries),
                tidy(entries),
                marks@.len() == n == tickets@.len(),
                swept(entries, tickets@, marks@, j as int, 0),
            decreases entries.len() - j,
        {
            let codes = &self.holdings[j].codes;
            let mut k: usize = 0;
            while k < codes.len()
                invariant
                    j < entries.len(),
                    k <= codes@.len(),
                    codes@ == entries[j as int].codes@,
                    entries == self.holdings@,
                    m == holding_map(entries),
                    tidy(entries),
                    marks@.len() == n == tickets@.len(),
                    swept(entries, tickets@, marks@, j as int, k as int),
                decreases codes@.len() - k,
            {
                let code: TicketCode = codes[k];
                assert(code == code_at(entries, j as int, k as int));
                assert(listed(entries, j as int, k as int));
                proof {
                    lemma_listed_is_held(entries, j as int, k as int);
                }
                let used = match tickets.get(code) {
                    Some(ticket) => ticket.is_used,
                    None => false,
                };
                if !used {
                    return false;
                }
                let at: usize = (code - 1) as usize;
                if marks[at] {
                    proof {
                        let (j1, k1) = choose|j1: int, k1: int|
                            listed(entries, j1, k1) && passed(j1, k1, j as int, k as int)
                                && #[trigger] code_at(entries, j1, k1) == at + 1;
                        lemma_listed_is_held(entries, j1, k1);
                        assert(keys_of(entries)[j1] == entries[j1].key());
                        assert(keys_of(entries)[j as int] == entries[j as int].key());
                        assert(j1 != j);
                        assert(entries[j1].key() != entries[j as int].key());
                    }
                    return false;
                }
                let ghost marks_before = marks@;
                marks.set(at, true);
                proof {
                    assert forall|i: int| 0 <= i < n && #[trigger] marks@[i] implies exists|
                        j1: int,
                        k1: int,
                    |
                        listed(entries, j1, k1) && passed(j1, k1, j as int, k + 1)
                            && #[trigger] code_at(entries, j1, k1) == i + 1 by {
                        if i == at {
                            assert(listed(entries, j as int, k as int) && passed(
                                j as int,
                                k as int,
                                j as int,
                                k + 1,
                            ) && code_at(entries, j as int, k as int) == i + 1);
                        } else {
                            assert(marks_before[i]);
                            let (j1, k1) = choose|j1: int, k1: int|
                                listed(entries, j1, k1) && passed(j1, k1, j as int, k as int)
                                    && #[trigger] code_at(entries, j1, k1) == i + 1;
                            assert(listed(entries, j1, k1) && passed(j1, k1, j as int, k + 1)
                                && code_at(entries, j1, k1) == i + 1);
                        }
                    }
                }
                k = k + 1;
            }
            j = j + 1;
        }
        let mut i: usize = 0;
        while i < n
            invariant
                i <= n,
                entries == self.holdings@,
                m == holding_map(entries),
                tidy(entries),
                marks@.len() == n == tickets@.len(),
                swept(entries, tickets@, marks@, entries.len() as int, 0),
                forall|c: TicketCode| 1 <= c <= i && sold(tickets@, c) ==> marks@[c - 1],
            decreases n - i,
        {
            let code: TicketCode = i as u64 + 1;
            let used = match tickets.get(code) {
                Some(ticket) => ticket.is_used,
                None => false,
            };
            if used && !marks[i] {
                proof {
                    assert(sold(tickets@, code));
                    assert forall|a: Seq<char>| !#[trigger] held_by(m, a, code) by {
                        if held_by(m, a, code) {
                            lemma_held_is_listed(entries, a, code);
                        }
                    }
                }
                return false;
            }
            i = i + 1;
        }
        proof {
            assert forall|a: Seq<char>, c: TicketCode| #[trigger] held_by(m, a, c) implies sold(
                tickets@,
                c,
            ) by {
                lemma_held_is_listed(entries, a, c);
            }
            assert forall|c: TicketCode| #[trigger] sold(tickets@, c) implies exists|a: Seq<char>|
             #[trigger] held_by(m, a, c) by {
                assert(marks@[c - 1]);
                let (j1, k1) = choose|j1: int, k1: int|
                    listed(entries, j1, k1) && passed(j1, k1, entries.len() as int, 0)
                        && #[trigger] code_at(entries, j1, k1) == c;
                lemma_listed_is_held(entries, j1, k1);
            }
            assert forall|a: Seq<char>, b: Seq<char>, c: TicketCode| #[trigger]
                held_by(m, a, c) && #[trigger] held_by(m, b, c) implies a == b by {
                lemma_held_is_listed(entries, a, c);
                lemma_held_is_listed(entries, b, c);
                let (j1, k1) = choose|j1: int, k1: int|
                    listed(entries, j1, k1) && entries[j1].key() == a && #[trigger] code_at(
                        entries,
                        j1,
                        k1,
                    ) == c;
                let (j2, k2) = choose|j2: int, k2: int|
                    listed(entries, j2, k2) && entries[j2].key() == b && #[trigger] code_at(
                        entries,
                        j2,
                        k2,
                    ) == c;
                assert(passed(j1, k1, entries.len() as int, 0));
                assert(passed(j2, k2, entries.len() as int, 0));
            }
        }
        true
    }
}

} // verus!
