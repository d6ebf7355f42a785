//! One poll cycle of the monitoring loop: evaluate every user's tickets
//! against the notification windows, match eligible tickets against the
//! parsed delay records, build the messages, and evict exhausted tickets.

use vstd::prelude::*;
use vstd::set_lib::{lemma_len_subset, lemma_subset_equality};
use crate::datetime::CivilDateTime;
use crate::delayed_trains::{DelayedTrains, DelayedTrain, DelayView};
use crate::html::str_eq_str;
use crate::notify::{
    spec_delay_minutes, spec_delayed_message, spec_ontime_message, build_train_notification_message,
};
use crate::store::{ChatId, MyDb, spec_remove, clone_ticket};
use crate::ticket::{TicketData, TicketView};
use crate::tracker::{
    NotificationTracker, spec_select, spec_tr_fired, spec_tr_touch, spec_tr_mark, spec_tr_find,
    lemma_tr_find,
};

verus! {

/// The configured notification thresholds, in minutes, largest first: the
/// order in which each poll cycle scans them.
pub fn notify_before_train_desc() -> (v: Vec<u64>)
    ensures
        v@ == seq![60u64, 30u64, 15u64],
{
    let mut v: Vec<u64> = Vec::new();
    v.push(60);
    v.push(30);
    v.push(15);
    proof {
        assert(v@ =~= seq![60u64, 30u64, 15u64]);
    }
    v
}

/// First delay record whose alias list holds the train number, scanning
/// from `from`.
pub open spec fn spec_find_delay_from(del: Seq<DelayView>, num: Seq<char>, from: int) -> Option<
    int,
>
    decreases del.len() - from,
{
    if from < 0 || from >= del.len() {
        None
    } else if del[from].numbers.contains(num) {
        Some(from)
    } else {
        spec_find_delay_from(del, num, from + 1)
    }
}

pub open spec fn spec_find_delay(del: Seq<DelayView>, num: Seq<char>) -> Option<int> {
    spec_find_delay_from(del, num, 0)
}

fn numbers_contain(v: &Vec<String>, num: &String) -> (r: bool)
    ensures
        r == v.deep_view().contains(num@),
{
    let mut j: usize = 0;
    while j < v.len()
        invariant
            0 <= j <= v@.len(),
            forall|k: int| 0 <= k < j ==> v.deep_view()[k] != num@,
        decreases v@.len() - j,
    {
        if str_eq_str(v[j].as_str(), num.as_str()) {
            assert(v.deep_view()[j as int] == num@);
            return true;
        }
        j = j + 1;
    }
    assert(!v.deep_view().contains(num@));
    false
}

/// Find the first delay record mentioning the given train number.
pub fn find_delayed_train(delayed: &DelayedTrains, number: &String) -> (r: Option<usize>)
    ensures
        match r {
            Some(i) => i < delayed.0@.len() && spec_find_delay(delayed@, number@) == Some(i as int),
            None => spec_find_delay(delayed@, number@) is None,
        },
{
    let mut i: usize = 0;
    while i < delayed.0.len()
        invariant
            0 <= i <= delayed.0@.len(),
            delayed@.len() == delayed.0@.len(),
            spec_find_delay(delayed@, number@) == spec_find_delay_from(
                delayed@,
                number@,
                i as int,
            ),
        decreases delayed.0@.len() - i,
    {
        proof {
            assert(delayed@[i as int] == delayed.0@[i as int].deep_view());
        }
        if numbers_contain(&delayed.0[i].numbers.0, number) {
            return Some(i);
        }
        i = i + 1;
    }
    None
}

/// The notification text for one eligible ticket, given the cycle's delay
/// records: the delayed text for the first matching record, else the
/// no-delay text.
pub open spec fn spec_message(t: TicketView, del: Seq<DelayView>) -> Seq<char> {
    match spec_find_delay(del, t.train_number) {
        Some(i) => spec_delayed_message(t, del[i]),
        None => spec_ontime_message(t),
    }
}

/// One ticket's evaluation: fire the selected window and notify, or, with
/// the user's windows exhausted, evict the ticket; the result is the store,
/// the tracker, and the message if one is owed.
pub open spec fn spec_ticket_step(
    db: Seq<(ChatId, Seq<TicketView>)>,
    tr: Seq<(ChatId, Seq<u64>)>,
    ths: Seq<u64>,
    now: int,
    del: Seq<DelayView>,
    user: ChatId,
    t: TicketView,
) -> (Seq<(ChatId, Seq<TicketView>)>, Seq<(ChatId, Seq<u64>)>, Option<Seq<char>>) {
    let fired = spec_tr_fired(tr, user);
    match spec_select(fired, ths, now, t.departure_datetime.spec_minutes()) {
        Some(th) => (db, spec_tr_mark(tr, user, th), Some(spec_message(t, del))),
        None => {
            if fired.len() == ths.len() {
                (spec_remove(db, user, t), spec_tr_touch(tr, user), None)
            } else {
                (db, spec_tr_touch(tr, user), None)
            }
        },
    }
}

/// A user's tickets evaluated in order, threading store and tracker.
pub open spec fn spec_cycle_tickets(
    db: Seq<(ChatId, Seq<TicketView>)>,
    tr: Seq<(ChatId, Seq<u64>)>,
    msgs: Seq<(ChatId, Seq<char>)>,
    ths: Seq<u64>,
    now: int,
    del: Seq<DelayView>,
    user: ChatId,
    tickets: Seq<TicketView>,
) -> (Seq<(ChatId, Seq<TicketView>)>, Seq<(ChatId, Seq<u64>)>, Seq<(ChatId, Seq<char>)>)
    decreases tickets.len(),
{
    if tickets.len() == 0 {
        (db, tr, msgs)
    } else {
        let step = spec_ticket_step(db, tr, ths, now, del, user, tickets[0]);
        let msgs1 = (match step.2 {
            Some(s) => msgs.push((user, s)),
            None => msgs,
        });
        spec_cycle_tickets(step.0, step.1, msgs1, ths, now, del, user, tickets.drop_first())
    }
}

/// The whole cycle over a snapshot of users, threading store and tracker.
pub open spec fn spec_cycle_users(
    db: Seq<(ChatId, Seq<TicketView>)>,
    tr: Seq<(ChatId, Seq<u64>)>,
    msgs: Seq<(ChatId, Seq<char>)>,
    ths: Seq<u64>,
    now: int,
    del: Seq<DelayView>,
    users: Seq<(ChatId, Seq<TicketView>)>,
) -> (Seq<(ChatId, Seq<TicketView>)>, Seq<(ChatId, Seq<u64>)>, Seq<(ChatId, Seq<char>)>)
    decreases users.len(),
{
    if users.len() == 0 {
        (db, tr, msgs)
    } else {
        let step = spec_cycle_tickets(db, tr, msgs, ths, now, del, users[0].0, users[0].1);
        spec_cycle_users(step.0, step.1, step.2, ths, now, del, users.drop_first())
    }
}

/// The messages a cycle produced, as mathematical pairs.
pub open spec fn spec_msgs_view(s: Seq<(ChatId, String)>) -> Seq<(ChatId, Seq<char>)> {
    s.map_values(|p: (ChatId, String)| (p.0, p.1@))
}

/// Looking a user up leaves their fired set as it was.
proof fn lemma_tr_fired_touch(s: Seq<(ChatId, Seq<u64>)>, u: ChatId)
    ensures
        spec_tr_fired(spec_tr_touch(s, u), u) == spec_tr_fired(s, u),
{
    lemma_tr_find(s, u, 0);
    match spec_tr_find(s, u) {
        Some(_) => {},
        None => {
            let s1 = s.push((u, Seq::<u64>::empty()));
            lemma_tr_find(s1, u, 0);
            match spec_tr_find(s1, u) {
                Some(i) => {
                    assert(s1[s.len() as int].0 == u);
                    assert(i == s.len() as int);
                    assert(spec_tr_fired(s1, u) =~= Seq::<u64>::empty());
                },
                None => {
                    assert(s1[s.len() as int].0 == u);
                },
            }
        },
    }
}

/// One poll cycle, after the feed was fetched and parsed: walk the snapshot
/// of all users, fire at most one window per ticket, build each eligible
/// ticket's message, and evict a ticket whose user's windows are exhausted.
/// Returns the messages to deliver, in evaluation order.
pub fn process_cycle(
    db: &mut MyDb,
    tracker: &mut NotificationTracker,
    thresholds_desc: &Vec<u64>,
    now: &CivilDateTime,
    delayed: &DelayedTrains,
) -> (msgs: Vec<(ChatId, String)>)
    requires
        old(db).wf(),
        old(tracker).wf_for(thresholds_desc@),
        now.wf(),
        forall|i: int|
            0 <= i < delayed@.len() ==> spec_delay_minutes((#[trigger] delayed@[i]).delay)
                <= u64::MAX,
    ensures
        final(db).wf(),
        final(tracker).wf_for(thresholds_desc@),
        ({
            let outcome = spec_cycle_users(
                old(db).spec_entries(),
                old(tracker).spec_entries(),
                Seq::empty(),
                thresholds_desc@,
                now.spec_minutes(),
                delayed@,
                old(db).spec_entries(),
            );
            final(db).spec_entries() == outcome.0 && final(tracker).spec_entries() == outcome.1
                && spec_msgs_view(msgs@) == outcome.2
        }),
{
    let ghost db0 = db.spec_entries();
    let ghost tr0 = tracker.spec_entries();
    let ghost ths = thresholds_desc@;
    let ghost delv = delayed@;
    let ghost now_i = now.spec_minutes();
    let now_min = now.minutes();
    let snapshot = db.users();
    let mut msgs: Vec<(ChatId, String)> = Vec::new();
    proof {
        assert(db0.skip(0) =~= db0);
        assert(spec_msgs_view(msgs@) =~= Seq::<(ChatId, Seq<char>)>::empty());
    }
    let mut u: usize = 0;
    while u < snapshot.len()
        invariant
            0 <= u <= snapshot@.len(),
            db0 == old(db).spec_entries(),
            tr0 == old(tracker).spec_entries(),
            ths == thresholds_desc@,
            delv == delayed@,
            now_i == now.spec_minutes(),
            now_min == now_i,
            snapshot@.len() == db0.len(),
            forall|k: int|
                0 <= k < snapshot@.len() ==> (#[trigger] snapshot@[k]).0 == db0[k].0 && snapshot@[k]
                    .1.deep_view() == db0[k].1,
            forall|k: int, i: int|
                0 <= k < db0.len() && 0 <= i < db0[k].1.len() ==> (#[trigger] db0[k].1[i]).departure_datetime.wf(),
            forall|i: int|
                0 <= i < delv.len() ==> spec_delay_minutes((#[trigger] delv[i]).delay) <= u64::MAX,
            db.wf(),
            tracker.wf_for(ths),
            spec_cycle_users(db0, tr0, Seq::empty(), ths, now_i, delv, db0) == spec_cycle_users(
                db.spec_entries(),
                tracker.spec_entries(),
                spec_msgs_view(msgs@),
                ths,
                now_i,
                delv,
                db0.skip(u as int),
            ),
        decreases snapshot@.len() - u,
    {
        let user = snapshot[u].0;
        let ghost tickets_v = db0[u as int].1;
        proof {
            assert(db0.skip(u as int)[0] == db0[u as int]);
            assert(db0.skip(u as int).drop_first() =~= db0.skip(u + 1));
            assert(tickets_v.skip(0) =~= tickets_v);
        }
        let mut j: usize = 0;
        while j < snapshot[u].1.len()
            invariant
                0 <= u < snapshot@.len(),
                0 <= j <= tickets_v.len(),
                db0 == old(db).spec_entries(),
                tr0 == old(tracker).spec_entries(),
                ths == thresholds_desc@,
                delv == delayed@,
                now_i == now.spec_minutes(),
                now_min == now_i,
                snapshot@.len() == db0.len(),
                user == db0[u as int].0,
                tickets_v == db0[u as int].1,
                snapshot@[u as int].1.deep_view() == tickets_v,
                forall|k: int, i: int|
                    0 <= k < db0.len() && 0 <= i < db0[k].1.len() ==> (#[trigger] db0[k].1[i]).departure_datetime.wf(),
                forall|i: int|
                    0 <= i < delv.len() ==> spec_delay_minutes((#[trigger] delv[i]).delay)
                        <= u64::MAX,
                db.wf(),
                tracker.wf_for(ths),
                spec_cycle_users(db0, tr0, Seq::empty(), ths, now_i, delv, db0) == ({
                    let step = spec_cycle_tickets(
                        db.spec_entries(),
                        tracker.spec_entries(),
                        spec_msgs_view(msgs@),
                        ths,
                        now_i,
                        delv,
                        user,
                        tickets_v.skip(j as int),
                    );
                    spec_cycle_users(step.0, step.1, step.2, ths, now_i, delv, db0.skip(u + 1))
                }),
            decreases tickets_v.len() - j,
        {
            let ghost tv = tickets_v[j as int];
            proof {
                assert(tickets_v.skip(j as int)[0] == tv);
                assert(tickets_v.skip(j as int).drop_first() =~= tickets_v.skip(j + 1));
                assert(snapshot@[u as int].1.deep_view()[j as int] == tv);
                assert(tv.departure_datetime.wf());
            }
            let ticket = &snapshot[u].1[j];
            proof {
                assert(ticket@ == tv);
            }
            let dep_min = ticket.departure_datetime.minutes();
            let ghost tr_before = tracker.spec_entries();
            let ghost db_before = db.spec_entries();
            let ghost m0 = spec_msgs_view(msgs@);
            let selected = tracker.note_ticket(user, thresholds_desc, now_min, dep_min);
            match selected {
                Some(_) => {
                    let found = find_delayed_train(delayed, &ticket.train_number);
                    let message = (match found {
                        Some(di) => {
                            proof {
                                assert(delv[di as int] == delayed.0@[di as int].deep_view());
                            }
                            build_train_notification_message(
                                clone_ticket(ticket),
                                Some(&delayed.0[di]),
                            )
                        },
                        None => build_train_notification_message(clone_ticket(ticket), None),
                    });
                    proof {
                        assert(message@ == spec_message(tv, delv));
                    }
                    msgs.push((user, message));
                    proof {
                        assert(spec_msgs_view(msgs@) =~= m0.push((user, spec_message(tv, delv))));
                    }
                },
                None => {
                    let fired_n = tracker.fired_count(user);
                    proof {
                        lemma_tr_fired_touch(tr_before, user);
                    }
                    if fired_n == thresholds_desc.len() {
                        let _ = db.remove_user_train(user, clone_ticket(ticket));
                    }
                },
            }
            j = j + 1;
        }
        proof {
            assert(tickets_v.skip(j as int) =~= Seq::<TicketView>::empty());
        }
        u = u + 1;
    }
    proof {
        assert(db0.skip(u as int) =~= Seq::<(ChatId, Seq<TicketView>)>::empty());
    }
    msgs
}

/// The scan picks exactly the first threshold, in the configured order, that
/// has not fired and whose window holds the departure; where none qualifies,
/// nothing fires.
pub proof fn lemma_select_characterization(fired: Seq<u64>, ths: Seq<u64>, now: int, dep: int)
    ensures
        match spec_select(fired, ths, now, dep) {
            Some(th) => exists|i: int|
                0 <= i < ths.len() && #[trigger] ths[i] == th && !fired.contains(th) && now < dep
                    <= now + th && (forall|k: int|
                    0 <= k < i ==> fired.contains(#[trigger] ths[k]) || !(now < dep <= now
                        + ths[k])),
            None => forall|i: int|
                0 <= i < ths.len() ==> fired.contains(#[trigger] ths[i]) || !(now < dep <= now
                    + ths[i]),
        },
    decreases ths.len(),
{
    if ths.len() > 0 {
        if !fired.contains(ths[0]) && now < dep <= now + ths[0] {
            assert(ths[0] == ths[0]);
        } else {
            lemma_select_characterization(fired, ths.drop_first(), now, dep);
            match spec_select(fired, ths.drop_first(), now, dep) {
                Some(th) => {
                    let i = choose|i: int|
                        0 <= i < ths.drop_first().len() && #[trigger] ths.drop_first()[i] == th
                            && !fired.contains(th) && now < dep <= now + th && (forall|k: int|
                            0 <= k < i ==> fired.contains(#[trigger] ths.drop_first()[k]) || !(now
                                < dep <= now + ths.drop_first()[k]));
                    assert(ths[i + 1] == th);
                    assert(forall|k: int|
                        0 <= k < i + 1 ==> fired.contains(#[trigger] ths[k]) || !(now < dep <= now
                            + ths[k])) by {
                        assert(forall|k: int|
                            1 <= k < i + 1 ==> ths[k] == ths.drop_first()[k - 1]);
                    }
                },
                None => {
                    assert(forall|k: int| 1 <= k < ths.len() ==> ths[k] == ths.drop_first()[k - 1]);
                },
            }
        }
    }
}

/// On a user's very first evaluation (nothing fired yet), a ticket inside
/// the largest window fires that largest threshold.
pub proof fn lemma_first_evaluation_fires_largest(ths: Seq<u64>, now: int, dep: int)
    requires
        ths.len() > 0,
        now < dep <= now + ths[0],
    ensures
        spec_select(Seq::empty(), ths, now, dep) == Some(ths[0]),
{
    assert(!Seq::<u64>::empty().contains(ths[0]));
}

proof fn lemma_to_set_card_le(s: Seq<u64>)
    ensures
        s.to_set().finite(),
        s.to_set().len() <= s.len(),
    decreases s.len(),
{
    broadcast use vstd::set::group_set_axioms;

    if s.len() == 0 {
        assert(s.to_set() =~= Set::<u64>::empty());
    } else {
        lemma_to_set_card_le(s.drop_last());
        assert forall|x: u64| s.to_set().contains(x) implies s.drop_last().to_set().insert(
            s.last(),
        ).contains(x) by {
            let i = choose|i: int| 0 <= i < s.len() && s[i] == x;
            if i < s.len() - 1 {
                assert(s.drop_last()[i] == x);
                assert(s.drop_last().contains(x));
            }
        }
        assert forall|x: u64|
            s.drop_last().to_set().insert(s.last()).contains(x) implies s.to_set().contains(
            x,
        ) by {
            if s.drop_last().to_set().contains(x) {
                let i = choose|i: int| 0 <= i < s.drop_last().len() && s.drop_last()[i] == x;
                assert(s[i] == x);
            } else {
                assert(s[s.len() - 1] == x);
            }
        }
        assert(s.to_set() =~= s.drop_last().to_set().insert(s.last()));
    }
}

proof fn lemma_select_all_fired(fired: Seq<u64>, ths: Seq<u64>, now: int, dep: int)
    requires
        forall|i: int| 0 <= i < ths.len() ==> fired.contains(#[trigger] ths[i]),
    ensures
        spec_select(fired, ths, now, dep) is None,
    decreases ths.len(),
{
    if ths.len() > 0 {
        assert(fired.contains(ths[0]));
        assert(forall|i: int| 1 <= i < ths.len() ==> ths.drop_first()[i - 1] == ths[i]);
        lemma_select_all_fired(fired, ths.drop_first(), now, dep);
    }
}

/// Exhaustion: once a user's fired set holds as many distinct configured
/// thresholds as there are, no window can fire for any of that user's
/// tickets again, so each is evicted on its next evaluation.
pub proof fn lemma_exhausted_fired_set_selects_nothing(
    fired: Seq<u64>,
    ths: Seq<u64>,
    now: int,
    dep: int,
)
    requires
        fired.no_duplicates(),
        forall|i: int| 0 <= i < fired.len() ==> ths.contains(#[trigger] fired[i]),
        fired.len() >= ths.len(),
    ensures
        spec_select(fired, ths, now, dep) is None,
{
    broadcast use vstd::set::group_set_axioms;

    let fs = fired.to_set();
    let ts = ths.to_set();
    fired.unique_seq_to_set();
    lemma_to_set_card_le(ths);
    lemma_to_set_card_le(fired);
    assert(fs.subset_of(ts)) by {
        assert forall|x: u64| fs.contains(x) implies ts.contains(x) by {
            assert(fired.contains(x));
            let i = choose|i: int| 0 <= i < fired.len() && fired[i] == x;
            assert(ths.contains(fired[i]));
        }
    }
    lemma_len_subset(fs, ts);
    assert(fs.len() == fired.len() >= ths.len() >= ts.len());
    lemma_subset_equality(fs, ts);
    assert forall|i: int| 0 <= i < ths.len() implies fired.contains(#[trigger] ths[i]) by {
        assert(ts.contains(ths[i]));
        assert(fs.contains(ths[i]));
    }
    lemma_select_all_fired(fired, ths, now, dep);
}

proof fn lemma_step_adds_no_ticket(
    db: Seq<(ChatId, Seq<TicketView>)>,
    tr: Seq<(ChatId, Seq<u64>)>,
    ths: Seq<u64>,
    now: int,
    del: Seq<DelayView>,
    user: ChatId,
    t: TicketView,
    u2: ChatId,
    t2: TicketView,
)
    requires
        crate::store::spec_lookup(
            spec_ticket_step(db, tr, ths, now, del, user, t).0,
            u2,
        ).contains(t2),
    ensures
        crate::store::spec_lookup(db, u2).contains(t2),
{
    let step = spec_ticket_step(db, tr, ths, now, del, user, t);
    if step.0 != db {
        crate::store::lemma_remove_adds_nothing(db, user, t, u2, t2);
    }
}

proof fn lemma_cycle_tickets_adds_no_ticket(
    db: Seq<(ChatId, Seq<TicketView>)>,
    tr: Seq<(ChatId, Seq<u64>)>,
    msgs: Seq<(ChatId, Seq<char>)>,
    ths: Seq<u64>,
    now: int,
    del: Seq<DelayView>,
    user: ChatId,
    tickets: Seq<TicketView>,
    u2: ChatId,
    t2: TicketView,
)
    requires
        crate::store::spec_lookup(
            spec_cycle_tickets(db, tr, msgs, ths, now, del, user, tickets).0,
            u2,
        ).contains(t2),
    ensures
        crate::store::spec_lookup(db, u2).contains(t2),
    decreases tickets.len(),
{
    if tickets.len() > 0 {
        let step = spec_ticket_step(db, tr, ths, now, del, user, tickets[0]);
        let msgs1 = (match step.2 {
            Some(s) => msgs.push((user, s)),
            None => msgs,
        });
        lemma_cycle_tickets_adds_no_ticket(
            step.0,
            step.1,
            msgs1,
            ths,
            now,
            del,
            user,
            tickets.drop_first(),
            u2,
            t2,
        );
        lemma_step_adds_no_ticket(db, tr, ths, now, del, user, tickets[0], u2, t2);
    }
}

/// A poll cycle only removes tickets: every ticket the store holds after a
/// cycle, for any user, it already held before; tickets enter the store by
/// upload alone.
pub proof fn lemma_cycle_adds_no_ticket(
    db: Seq<(ChatId, Seq<TicketView>)>,
    tr: Seq<(ChatId, Seq<u64>)>,
    msgs: Seq<(ChatId, Seq<char>)>,
    ths: Seq<u64>,
    now: int,
    del: Seq<DelayView>,
    users: Seq<(ChatId, Seq<TicketView>)>,
    u2: ChatId,
    t2: TicketView,
)
    requires
        crate::store::spec_lookup(
            spec_cycle_users(db, tr, msgs, ths, now, del, users).0,
            u2,
        ).contains(t2),
    ensures
        crate::store::spec_lookup(db, u2).contains(t2),
    decreases users.len(),
{
    if users.len() > 0 {
        let step = spec_cycle_tickets(db, tr, msgs, ths, now, del, users[0].0, users[0].1);
        lemma_cycle_adds_no_ticket(
            step.0,
            step.1,
            step.2,
            ths,
            now,
            del,
            users.drop_first(),
            u2,
            t2,
        );
        lemma_cycle_tickets_adds_no_ticket(
            db,
            tr,
            msgs,
            ths,
            now,
            del,
            users[0].0,
            users[0].1,
            u2,
            t2,
        );
    }
}

/// Exhaustion eviction: a ticket evaluated for a user whose fired set has
/// reached the full threshold count is removed from the store, whatever the
/// ticket and whichever tickets caused the firings.
pub proof fn lemma_exhausted_ticket_evicted(
    db: Seq<(ChatId, Seq<TicketView>)>,
    tr: Seq<(ChatId, Seq<u64>)>,
    ths: Seq<u64>,
    now: int,
    del: Seq<DelayView>,
    user: ChatId,
    t: TicketView,
)
    requires
        spec_tr_fired(tr, user).no_duplicates(),
        forall|i: int|
            0 <= i < spec_tr_fired(tr, user).len() ==> ths.contains(
                #[trigger] spec_tr_fired(tr, user)[i],
            ),
        spec_tr_fired(tr, user).len() == ths.len(),
    ensures
        spec_ticket_step(db, tr, ths, now, del, user, t).0 == spec_remove(db, user, t),
        spec_ticket_step(db, tr, ths, now, del, user, t).2 is None,
{
    lemma_exhausted_fired_set_selects_nothing(
        spec_tr_fired(tr, user),
        ths,
        now,
        t.departure_datetime.spec_minutes(),
    );
}

} // verus!
