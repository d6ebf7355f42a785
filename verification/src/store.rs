//! The ticket store: users mapped to their sets of monitored tickets.
//!
//! The store keeps insertion order for users and tickets, holds no duplicate
//! ticket per user, and is the single source the monitoring loop iterates.

use vstd::prelude::*;
use crate::ticket::{TicketData, TicketView};

verus! {

/// A user of the messaging platform, equal by value.
#[derive(PartialEq, Eq, Structural, Clone, Copy, Debug, Hash)]
pub struct ChatId(pub i64);

/// The one failure the store reports.
#[derive(PartialEq, Eq, Structural, Clone, Copy, Debug)]
pub enum DatabaseError {
    /// `remove_user_train` was asked about a user with no entry.
    UserNotExisting,
}

/// Map from users to their monitored tickets, in insertion order.
pub struct MyDb {
    entries: Vec<(ChatId, Vec<TicketData>)>,
}

/// First index of `u` among the entries, scanning from `from`.
pub open spec fn spec_find_user_from(
    s: Seq<(ChatId, Seq<TicketView>)>,
    u: ChatId,
    from: int,
) -> Option<int>
    decreases s.len() - from,
{
    if from < 0 || from >= s.len() {
        None
    } else if s[from].0 == u {
        Some(from)
    } else {
        spec_find_user_from(s, u, from + 1)
    }
}

pub open spec fn spec_find_user(s: Seq<(ChatId, Seq<TicketView>)>, u: ChatId) -> Option<int> {
    spec_find_user_from(s, u, 0)
}

pub proof fn lemma_find_user(s: Seq<(ChatId, Seq<TicketView>)>, u: ChatId, from: int)
    requires
        0 <= from <= s.len(),
    ensures
        match spec_find_user_from(s, u, from) {
            Some(i) => from <= i < s.len() && s[i].0 == u && (forall|j: int|
                from <= j < i ==> (#[trigger] s[j]).0 != u),
            None => forall|j: int| from <= j < s.len() ==> (#[trigger] s[j]).0 != u,
        },
    decreases s.len() - from,
{
    if from < s.len() && s[from].0 != u {
        lemma_find_user(s, u, from + 1);
    }
}

/// First index of ticket `t` in a ticket sequence, scanning from `from`.
pub open spec fn spec_find_ticket_from(s: Seq<TicketView>, t: TicketView, from: int) -> Option<int>
    decreases s.len() - from,
{
    if from < 0 || from >= s.len() {
        None
    } else if s[from] == t {
        Some(from)
    } else {
        spec_find_ticket_from(s, t, from + 1)
    }
}

pub open spec fn spec_find_ticket(s: Seq<TicketView>, t: TicketView) -> Option<int> {
    spec_find_ticket_from(s, t, 0)
}

pub proof fn lemma_find_ticket(s: Seq<TicketView>, t: TicketView, from: int)
    requires
        0 <= from <= s.len(),
    ensures
        match spec_find_ticket_from(s, t, from) {
            Some(i) => from <= i < s.len() && s[i] == t && (forall|j: int|
                from <= j < i ==> s[j] != t),
            None => forall|j: int| from <= j < s.len() ==> s[j] != t,
        },
    decreases s.len() - from,
{
    if from < s.len() && s[from] != t {
        lemma_find_ticket(s, t, from + 1);
    }
}

/// The store after adding `t` to `u`'s set: a fresh one-ticket entry for an
/// unknown user, an unchanged store for a duplicate ticket, and the one
/// extended set otherwise.
pub open spec fn spec_upsert(
    s: Seq<(ChatId, Seq<TicketView>)>,
    u: ChatId,
    t: TicketView,
) -> Seq<(ChatId, Seq<TicketView>)> {
    match spec_find_user(s, u) {
        None => s.push((u, seq![t])),
        Some(i) => {
            if spec_find_ticket(s[i].1, t) is Some {
                s
            } else {
                s.update(i, (u, s[i].1.push(t)))
            }
        },
    }
}

/// The tickets the store holds for `u` (empty for an unknown user).
pub open spec fn spec_lookup(s: Seq<(ChatId, Seq<TicketView>)>, u: ChatId) -> Seq<TicketView> {
    match spec_find_user(s, u) {
        None => Seq::empty(),
        Some(i) => s[i].1,
    }
}

/// The store after removing ticket `t` from `u`'s set.
pub open spec fn spec_remove(
    s: Seq<(ChatId, Seq<TicketView>)>,
    u: ChatId,
    t: TicketView,
) -> Seq<(ChatId, Seq<TicketView>)> {
    match spec_find_user(s, u) {
        None => s,
        Some(i) => match spec_find_ticket(s[i].1, t) {
            None => s,
            Some(j) => s.update(i, (u, s[i].1.remove(j))),
        },
    }
}

/// A fresh copy of a ticket with the same value.
pub fn clone_ticket(t: &TicketData) -> (r: TicketData)
    ensures
        r@ == t@,
{
    TicketData {
        departure_datetime: t.departure_datetime,
        train_number: t.train_number.clone(),
    }
}

fn clone_tickets(v: &Vec<TicketData>) -> (r: Vec<TicketData>)
    ensures
        r.deep_view() == v.deep_view(),
{
    let mut out: Vec<TicketData> = Vec::new();
    let mut i: usize = 0;
    while i < v.len()
        invariant
            0 <= i <= v@.len(),
            out@.len() == i,
            forall|k: int| 0 <= k < i ==> out.deep_view()[k] == v.deep_view()[k],
        decreases v@.len() - i,
    {
        let t = clone_ticket(&v[i]);
        out.push(t);
        i = i + 1;
        assert forall|k: int| 0 <= k < i implies out.deep_view()[k] == v.deep_view()[k] by {
            assert(out.deep_view()[k] == out@[k].deep_view());
            assert(v.deep_view()[k] == v@[k].deep_view());
            if k == i - 1 {
                assert(out@[k] == t);
            }
        }
    }
    proof {
        assert(out.deep_view() =~= v.deep_view());
    }
    out
}

fn ticket_eq(a: &TicketData, b: &TicketData) -> (r: bool)
    ensures
        r == (a@ == b@),
{
    let same = a.departure_datetime == b.departure_datetime && a.train_number == b.train_number;
    proof {
        if same {
            assert(a@ == b@);
        }
    }
    same
}

impl MyDb {
    /// The entries as a mathematical sequence of `(user, tickets)` pairs.
    pub closed spec fn spec_entries(self) -> Seq<(ChatId, Seq<TicketView>)> {
        self.entries@.map_values(|e: (ChatId, Vec<TicketData>)| (e.0, e.1.deep_view()))
    }

    /// Well-formed store: one entry per user, no duplicate ticket per user,
    /// every stored departure a valid date-time.
    pub open spec fn wf(self) -> bool {
        let s = self.spec_entries();
        (forall|i: int, j: int| 0 <= i < j < s.len() ==> (#[trigger] s[i]).0 != (#[trigger] s[j]).0)
            && (forall|k: int, i: int, j: int|
            0 <= k < s.len() && 0 <= i < j < s[k].1.len() ==> #[trigger] s[k].1[i]
                != #[trigger] s[k].1[j]) && (forall|k: int, i: int|
            0 <= k < s.len() && 0 <= i < s[k].1.len() ==> (#[trigger] s[k].1[i]).departure_datetime.wf())
    }

    /// An empty store.
    pub fn new() -> (r: MyDb)
        ensures
            r.spec_entries() == Seq::<(ChatId, Seq<TicketView>)>::empty(),
            r.wf(),
    {
        let r = MyDb { entries: Vec::new() };
        proof {
            assert(r.spec_entries() =~= Seq::<(ChatId, Seq<TicketView>)>::empty());
        }
        r
    }

    fn find_user(&self, user: ChatId) -> (r: Option<usize>)
        ensures
            match r {
                Some(i) => i < self.entries@.len() && spec_find_user(self.spec_entries(), user)
                    == Some(i as int),
                None => spec_find_user(self.spec_entries(), user) is None,
            },
    {
        let mut i: usize = 0;
        while i < self.entries.len()
            invariant
                0 <= i <= self.entries@.len(),
                spec_find_user(self.spec_entries(), user) == spec_find_user_from(
                    self.spec_entries(),
                    user,
                    i as int,
                ),
            decreases self.entries@.len() - i,
        {
            if self.entries[i].0 == user {
                return Some(i);
            }
            i = i + 1;
        }
        None
    }

    fn find_ticket_in(v: &Vec<TicketData>, t: &TicketData) -> (r: Option<usize>)
        ensures
            match r {
                Some(j) => j < v@.len() && spec_find_ticket(v.deep_view(), t@) == Some(j as int),
                None => spec_find_ticket(v.deep_view(), t@) is None,
            },
    {
        let mut j: usize = 0;
        while j < v.len()
            invariant
                0 <= j <= v@.len(),
                spec_find_ticket(v.deep_view(), t@) == spec_find_ticket_from(
                    v.deep_view(),
                    t@,
                    j as int,
                ),
            decreases v@.len() - j,
        {
            if ticket_eq(&v[j], t) {
                return Some(j);
            }
            j = j + 1;
        }
        None
    }

    /// Add a ticket to a user's set, creating the entry if the user is new
    /// and collapsing duplicates; never fails.
    pub fn insert_ticket_data(&mut self, user: ChatId, ticket_data: TicketData) -> (r: Result<
        (),
        DatabaseError,
    >)
        requires
            old(self).wf(),
            ticket_data@.departure_datetime.wf(),
        ensures
            r is Ok,
            final(self).spec_entries() == spec_upsert(old(self).spec_entries(), user, ticket_data@),
            final(self).wf(),
    {
        let ghost s0 = self.spec_entries();
        match self.find_user(user) {
            None => {
                let ghost tv = ticket_data@;
                let mut tickets: Vec<TicketData> = Vec::new();
                tickets.push(ticket_data);
                self.entries.push((user, tickets));
                proof {
                    assert(tickets.deep_view() =~= seq![tv]);
                    assert(self.spec_entries() =~~= spec_upsert(s0, user, tv));
                    lemma_find_user(s0, user, 0);
                    assert(self.wf());
                }
                Ok(())
            },
            Some(i) => {
                let dup = Self::find_ticket_in(&self.entries[i].1, &ticket_data);
                match dup {
                    Some(_) => {
                        proof {
                            assert(self.spec_entries() =~~= spec_upsert(
                                s0,
                                user,
                                ticket_data@,
                            ));
                        }
                        Ok(())
                    },
                    None => {
                        let ghost tv = ticket_data@;
                        let ghost e0 = self.entries@;
                        let mut entry = self.entries.remove(i);
                        entry.1.push(ticket_data);
                        self.entries.insert(i, entry);
                        proof {
                            assert(entry.1.deep_view() =~= s0[i as int].1.push(tv));
                            lemma_find_user(s0, user, 0);
                            let s_new = self.spec_entries();
                            let target = spec_upsert(s0, user, tv);
                            assert(self.entries@ =~= e0.update(i as int, entry));
                            assert forall|k: int| 0 <= k < s_new.len() implies s_new[k]
                                == target[k] by {
                                if k != i {
                                    assert(self.entries@[k] == e0[k]);
                                } else {
                                    assert(s0[k].0 == user);
                                    assert(s_new[k] == (entry.0, entry.1.deep_view()));
                                    assert(target[k] == (user, s0[k].1.push(tv)));
                                }
                            }
                            assert(s_new =~= target);
                            lemma_find_ticket(s0[i as int].1, tv, 0);
                            assert(self.wf());
                        }
                        Ok(())
                    },
                }
            },
        }
    }

    /// Snapshot of one user's tickets, empty for an unknown user.
    pub fn retrieve_user_trains(&self, user_id: ChatId) -> (r: Vec<TicketData>)
        ensures
            r.deep_view() == spec_lookup(self.spec_entries(), user_id),
    {
        match self.find_user(user_id) {
            None => {
                let r: Vec<TicketData> = Vec::new();
                proof {
                    assert(r.deep_view() =~= spec_lookup(self.spec_entries(), user_id));
                }
                r
            },
            Some(i) => clone_tickets(&self.entries[i].1),
        }
    }

    /// Snapshot of all users and their tickets, in insertion order.
    pub fn users(&self) -> (r: Vec<(ChatId, Vec<TicketData>)>)
        ensures
            r@.len() == self.spec_entries().len(),
            forall|i: int|
                0 <= i < r@.len() ==> (#[trigger] r@[i]).0 == self.spec_entries()[i].0 && r@[i]
                    .1.deep_view() == self.spec_entries()[i].1,
    {
        let mut out: Vec<(ChatId, Vec<TicketData>)> = Vec::new();
        let mut i: usize = 0;
        while i < self.entries.len()
            invariant
                0 <= i <= self.entries@.len(),
                out@.len() == i,
                forall|k: int|
                    0 <= k < i ==> (#[trigger] out@[k]).0 == self.spec_entries()[k].0 && out@[k]
                        .1.deep_view() == self.spec_entries()[k].1,
            decreases self.entries@.len() - i,
        {
            let user = self.entries[i].0;
            let tickets = clone_tickets(&self.entries[i].1);
            out.push((user, tickets));
            i = i + 1;
        }
        out
    }

    /// Delete one ticket from a user's set; the ticket's absence is not an
    /// error, a missing user is.
    pub fn remove_user_train(&mut self, user_id: ChatId, train: TicketData) -> (r: Result<
        (),
        DatabaseError,
    >)
        requires
            old(self).wf(),
        ensures
            final(self).spec_entries() == spec_remove(old(self).spec_entries(), user_id, train@),
            final(self).wf(),
            r == (match spec_find_user(old(self).spec_entries(), user_id) {
                None => Err::<(), DatabaseError>(DatabaseError::UserNotExisting),
                Some(i) => Ok::<(), DatabaseError>(()),
            }),
    {
        let ghost s0 = self.spec_entries();
        match self.find_user(user_id) {
            None => Err(DatabaseError::UserNotExisting),
            Some(i) => {
                let j_opt = Self::find_ticket_in(&self.entries[i].1, &train);
                match j_opt {
                    None => Ok(()),
                    Some(j) => {
                        let ghost tv = train@;
                        let ghost e0 = self.entries@;
                        let mut entry = self.entries.remove(i);
                        entry.1.remove(j);
                        self.entries.insert(i, entry);
                        proof {
                            assert(entry.1.deep_view() =~= s0[i as int].1.remove(j as int));
                            lemma_find_user(s0, user_id, 0);
                            let s_new = self.spec_entries();
                            let target = spec_remove(s0, user_id, tv);
                            assert(self.entries@ =~= e0.update(i as int, entry));
                            assert forall|k: int| 0 <= k < s_new.len() implies s_new[k]
                                == target[k] by {
                                if k != i {
                                    assert(self.entries@[k] == e0[k]);
                                } else {
                                    assert(s0[k].0 == user_id);
                                    assert(s_new[k] == (entry.0, entry.1.deep_view()));
                                    assert(target[k] == (user_id, s0[k].1.remove(j as int)));
                                }
                            }
                            assert(s_new =~= target);
                            assert forall|k: int, a: int, b: int|
                                0 <= k < self.spec_entries().len() && 0 <= a < b
                                < self.spec_entries()[k].1.len() implies #[trigger] self.spec_entries()[k].1[a]
                                != #[trigger] self.spec_entries()[k].1[b] by {
                                if k == i {
                                    assert(self.spec_entries()[k].1 =~= s0[i as int].1.remove(
                                        j as int,
                                    ));
                                }
                            }
                        }
                        Ok(())
                    },
                }
            },
        }
    }
}

/// The ticket store as an interface: any implementation exposes its contents
/// as `(user, tickets)` pairs and provides the four operations with the same
/// meaning, so the monitoring loop is not tied to one storage choice.
pub trait Database: Sized {
    /// The stored users and their tickets, as mathematical pairs.
    spec fn db_entries(&self) -> Seq<(ChatId, Seq<TicketView>)>;

    /// The implementation's well-formedness.
    spec fn db_wf(&self) -> bool;

    /// Add a ticket to a user's set; duplicates collapse; never fails.
    fn insert_ticket_data(&mut self, user: ChatId, ticket_data: TicketData) -> (r: Result<
        (),
        DatabaseError,
    >)
        requires
            old(self).db_wf(),
            ticket_data@.departure_datetime.wf(),
        ensures
            r is Ok,
            final(self).db_entries() == spec_upsert(old(self).db_entries(), user, ticket_data@),
            final(self).db_wf(),
    ;

    /// Snapshot of one user's tickets, empty for an unknown user.
    fn retrieve_user_trains(&self, user_id: ChatId) -> (r: Vec<TicketData>)
        ensures
            r.deep_view() == spec_lookup(self.db_entries(), user_id),
    ;

    /// Snapshot of all users and their tickets.
    fn users(&self) -> (r: Vec<(ChatId, Vec<TicketData>)>)
        ensures
            r@.len() == self.db_entries().len(),
            forall|i: int|
                0 <= i < r@.len() ==> (#[trigger] r@[i]).0 == self.db_entries()[i].0 && r@[i]
                    .1.deep_view() == self.db_entries()[i].1,
    ;

    /// Delete one ticket from a user's set; a missing user is the one error.
    fn remove_user_train(&mut self, user_id: ChatId, train: TicketData) -> (r: Result<
        (),
        DatabaseError,
    >)
        requires
            old(self).db_wf(),
        ensures
            final(self).db_entries() == spec_remove(old(self).db_entries(), user_id, train@),
            final(self).db_wf(),
            r == (match spec_find_user(old(self).db_entries(), user_id) {
                None => Err::<(), DatabaseError>(DatabaseError::UserNotExisting),
                Some(i) => Ok::<(), DatabaseError>(()),
            }),
    ;
}

impl Database for MyDb {
    open spec fn db_entries(&self) -> Seq<(ChatId, Seq<TicketView>)> {
        self.spec_entries()
    }

    open spec fn db_wf(&self) -> bool {
        self.wf()
    }

    fn insert_ticket_data(&mut self, user: ChatId, ticket_data: TicketData) -> (r: Result<
        (),
        DatabaseError,
    >) {
        MyDb::insert_ticket_data(self, user, ticket_data)
    }

    fn retrieve_user_trains(&self, user_id: ChatId) -> (r: Vec<TicketData>) {
        MyDb::retrieve_user_trains(self, user_id)
    }

    fn users(&self) -> (r: Vec<(ChatId, Vec<TicketData>)>) {
        MyDb::users(self)
    }

    fn remove_user_train(&mut self, user_id: ChatId, train: TicketData) -> (r: Result<
        (),
        DatabaseError,
    >) {
        MyDb::remove_user_train(self, user_id, train)
    }
}

/// Upserting the same `(user, ticket)` twice leaves exactly what one upsert
/// leaves: the store never holds a duplicate ticket.
pub proof fn lemma_upsert_idempotent(s: Seq<(ChatId, Seq<TicketView>)>, u: ChatId, t: TicketView)
    ensures
        spec_upsert(spec_upsert(s, u, t), u, t) == spec_upsert(s, u, t),
{
    let s1 = spec_upsert(s, u, t);
    lemma_find_user(s, u, 0);
    match spec_find_user(s, u) {
        None => {
            lemma_find_user(s1, u, 0);
            let i = spec_find_user(s1, u);
            assert(s1[s.len() as int].0 == u);
            assert(i == Some(s.len() as int));
            lemma_find_ticket(s1[s.len() as int].1, t, 0);
        },
        Some(i) => {
            lemma_find_ticket(s[i].1, t, 0);
            match spec_find_ticket(s[i].1, t) {
                Some(_) => {},
                None => {
                    lemma_find_user_update(s, i, (u, s[i].1.push(t)));
                    lemma_find_user(s1, u, 0);
                    assert(spec_find_user(s1, u) == Some(i));
                    lemma_find_ticket(s1[i].1, t, 0);
                    assert(s1[i].1[s[i].1.len() as int] == t);
                },
            }
        },
    }
}

/// Removal only removes: any ticket a store holds after `remove` was held
/// before, for every user.
pub proof fn lemma_remove_adds_nothing(
    s: Seq<(ChatId, Seq<TicketView>)>,
    u: ChatId,
    t: TicketView,
    u2: ChatId,
    t2: TicketView,
)
    requires
        spec_lookup(spec_remove(s, u, t), u2).contains(t2),
    ensures
        spec_lookup(s, u2).contains(t2),
{
    lemma_find_user(s, u, 0);
    match spec_find_user(s, u) {
        None => {},
        Some(i) => {
            match spec_find_ticket(s[i].1, t) {
                None => {},
                Some(j) => {
                    lemma_find_ticket(s[i].1, t, 0);
                    let shorter = s[i].1.remove(j);
                    let s2 = s.update(i, (u, shorter));
                    lemma_find_user_update(s, i, (u, shorter));
                    match spec_find_user(s, u2) {
                        None => {},
                        Some(k) => {
                            lemma_find_user(s, u2, 0);
                            if k == i {
                                let a = choose|a: int|
                                    0 <= a < shorter.len() && shorter[a] == t2;
                                if a < j {
                                    assert(shorter[a] == s[i].1.subrange(0, j)[a]);
                                    assert(s[i].1[a] == t2);
                                } else {
                                    assert(shorter[a] == s[i].1.subrange(
                                        j + 1,
                                        s[i].1.len() as int,
                                    )[a - j]);
                                    assert(s[i].1[a + 1] == t2);
                                }
                            } else {
                                assert(s2[k] == s[k]);
                            }
                        },
                    }
                },
            }
        },
    }
}

/// Replacing entry `i` with an entry for the same user moves no other user.
proof fn lemma_find_user_update(
    s: Seq<(ChatId, Seq<TicketView>)>,
    i: int,
    e: (ChatId, Seq<TicketView>),
)
    requires
        0 <= i < s.len(),
        e.0 == s[i].0,
    ensures
        forall|u: ChatId| spec_find_user(s.update(i, e), u) == spec_find_user(s, u),
{
    assert forall|u: ChatId| spec_find_user(s.update(i, e), u) == spec_find_user(s, u) by {
        lemma_find_user_update_from(s, i, e, u, 0);
    }
}

proof fn lemma_find_user_update_from(
    s: Seq<(ChatId, Seq<TicketView>)>,
    i: int,
    e: (ChatId, Seq<TicketView>),
    u: ChatId,
    from: int,
)
    requires
        0 <= i < s.len(),
        e.0 == s[i].0,
        0 <= from,
    ensures
        spec_find_user_from(s.update(i, e), u, from) == spec_find_user_from(s, u, from),
    decreases s.len() - from,
{
    if from < s.len() && s.update(i, e)[from].0 != u {
        lemma_find_user_update_from(s, i, e, u, from + 1);
    }
}

/// A ticket inserted for one user changes no other user's set.
pub proof fn lemma_upsert_isolation(
    s: Seq<(ChatId, Seq<TicketView>)>,
    a: ChatId,
    t: TicketView,
    b: ChatId,
)
    requires
        a != b,
    ensures
        spec_lookup(spec_upsert(s, a, t), b) == spec_lookup(s, b),
{
    let s1 = spec_upsert(s, a, t);
    lemma_find_user(s, a, 0);
    match spec_find_user(s, a) {
        None => {
            lemma_find_user_push(s, (a, seq![t]), b, 0);
            lemma_find_user(s, b, 0);
            match spec_find_user(s, b) {
                Some(k) => {
                    assert(s1[k].1 == s[k].1);
                },
                None => {},
            }
        },
        Some(i) => {
            if spec_find_ticket(s[i].1, t) is None {
                lemma_find_user_update(s, i, (a, s[i].1.push(t)));
                lemma_find_user(s, b, 0);
                match spec_find_user(s, b) {
                    Some(k) => {
                        assert(s1[k].1 == s[k].1);
                    },
                    None => {},
                }
            }
        },
    }
}

proof fn lemma_find_user_push(
    s: Seq<(ChatId, Seq<TicketView>)>,
    e: (ChatId, Seq<TicketView>),
    u: ChatId,
    from: int,
)
    requires
        0 <= from <= s.len(),
        e.0 != u,
    ensures
        spec_find_user_from(s.push(e), u, from) == spec_find_user_from(s, u, from),
    decreases s.len() - from,
{
    if from < s.len() {
        if s.push(e)[from].0 != u {
            lemma_find_user_push(s, e, u, from + 1);
        }
    } else {
        assert(s.push(e)[from].0 == e.0);
        assert(spec_find_user_from(s.push(e), u, from + 1) is None);
        assert(spec_find_user_from(s, u, from) is None);
    }
}

} // verus!
