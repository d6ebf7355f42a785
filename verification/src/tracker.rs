//! The notification window tracker: which thresholds have already fired for
//! each user.  A threshold, once fired, is never unmarked.

use vstd::prelude::*;
use crate::store::ChatId;

verus! {

/// Per-user record of the thresholds already used for a notification.
pub struct NotificationTracker {
    entries: Vec<(ChatId, Vec<u64>)>,
}

/// First index of `u` among tracker entries, scanning from `from`.
pub open spec fn spec_tr_find_from(s: Seq<(ChatId, Seq<u64>)>, u: ChatId, from: int) -> Option<
    int,
>
    decreases s.len() - from,
{
    if from < 0 || from >= s.len() {
        None
    } else if s[from].0 == u {
        Some(from)
    } else {
        spec_tr_find_from(s, u, from + 1)
    }
}

pub open spec fn spec_tr_find(s: Seq<(ChatId, Seq<u64>)>, u: ChatId) -> Option<int> {
    spec_tr_find_from(s, u, 0)
}

pub proof fn lemma_tr_find(s: Seq<(ChatId, Seq<u64>)>, u: ChatId, from: int)
    requires
        0 <= from <= s.len(),
    ensures
        match spec_tr_find_from(s, u, from) {
            Some(i) => from <= i < s.len() && s[i].0 == u && (forall|j: int|
                from <= j < i ==> (#[trigger] s[j]).0 != u),
            None => forall|j: int| from <= j < s.len() ==> (#[trigger] s[j]).0 != u,
        },
    decreases s.len() - from,
{
    if from < s.len() && s[from].0 != u {
        lemma_tr_find(s, u, from + 1);
    }
}

/// The thresholds already fired for `u` (empty for an untracked user).
pub open spec fn spec_tr_fired(s: Seq<(ChatId, Seq<u64>)>, u: ChatId) -> Seq<u64> {
    match spec_tr_find(s, u) {
        None => Seq::empty(),
        Some(i) => s[i].1,
    }
}

/// The tracker after looking at `u`: an entry appears for a new user, and
/// nothing else changes.
pub open spec fn spec_tr_touch(s: Seq<(ChatId, Seq<u64>)>, u: ChatId) -> Seq<(ChatId, Seq<u64>)> {
    match spec_tr_find(s, u) {
        None => s.push((u, Seq::empty())),
        Some(i) => s,
    }
}

/// The tracker after marking threshold `th` fired for `u`.
pub open spec fn spec_tr_mark(s: Seq<(ChatId, Seq<u64>)>, u: ChatId, th: u64) -> Seq<
    (ChatId, Seq<u64>),
> {
    match spec_tr_find(s, u) {
        None => s.push((u, seq![th])),
        Some(i) => s.update(i, (u, s[i].1.push(th))),
    }
}

/// The threshold the scan selects: the first (largest, the list being
/// descending) threshold not yet fired whose window holds the departure,
/// `now < departure <= now + threshold`.
pub open spec fn spec_select(fired: Seq<u64>, ths: Seq<u64>, now: int, dep: int) -> Option<u64>
    decreases ths.len(),
{
    if ths.len() == 0 {
        None
    } else if !fired.contains(ths[0]) && now < dep <= now + ths[0] {
        Some(ths[0])
    } else {
        spec_select(fired, ths.drop_first(), now, dep)
    }
}

/// Whatever the scan selects is one of the configured thresholds, its window
/// holds the departure, and it had not fired before.
pub proof fn lemma_select_sound(fired: Seq<u64>, ths: Seq<u64>, now: int, dep: int)
    ensures
        match spec_select(fired, ths, now, dep) {
            Some(th) => ths.contains(th) && !fired.contains(th) && now < dep <= now + th,
            None => true,
        },
    decreases ths.len(),
{
    if ths.len() > 0 {
        if !(!fired.contains(ths[0]) && now < dep <= now + ths[0]) {
            lemma_select_sound(fired, ths.drop_first(), now, dep);
            match spec_select(fired, ths.drop_first(), now, dep) {
                Some(th) => {
                    assert(ths.drop_first().contains(th));
                    let k = choose|k: int|
                        0 <= k < ths.drop_first().len() && ths.drop_first()[k] == th;
                    assert(ths[k + 1] == th);
                },
                None => {},
            }
        }
    }
}

proof fn lemma_tr_find_push(s: Seq<(ChatId, Seq<u64>)>, e: (ChatId, Seq<u64>), u: ChatId, from: int)
    requires
        0 <= from <= s.len(),
        e.0 != u,
    ensures
        spec_tr_find_from(s.push(e), u, from) == spec_tr_find_from(s, u, from),
    decreases s.len() - from,
{
    if from < s.len() {
        if s.push(e)[from].0 != u {
            lemma_tr_find_push(s, e, u, from + 1);
        }
    } else {
        assert(s.push(e)[from].0 == e.0);
        assert(spec_tr_find_from(s.push(e), u, from + 1) is None);
        assert(spec_tr_find_from(s, u, from) is None);
    }
}

proof fn lemma_tr_find_update(
    s: Seq<(ChatId, Seq<u64>)>,
    i: int,
    e: (ChatId, Seq<u64>),
    u: ChatId,
    from: int,
)
    requires
        0 <= i < s.len(),
        e.0 == s[i].0,
        0 <= from,
    ensures
        spec_tr_find_from(s.update(i, e), u, from) == spec_tr_find_from(s, u, from),
    decreases s.len() - from,
{
    if from < s.len() && s.update(i, e)[from].0 != u {
        lemma_tr_find_update(s, i, e, u, from + 1);
    }
}

/// A threshold, once marked fired for a user, is never unmarked: neither
/// looking a user up nor marking a further threshold, for this or any other
/// user, removes it from the fired set.
pub proof fn lemma_fired_never_unmarked(
    s: Seq<(ChatId, Seq<u64>)>,
    marked: ChatId,
    th: u64,
    u: ChatId,
    x: u64,
)
    requires
        spec_tr_fired(s, u).contains(x),
    ensures
        spec_tr_fired(spec_tr_touch(s, marked), u).contains(x),
        spec_tr_fired(spec_tr_mark(s, marked, th), u).contains(x),
    decreases s.len(),
{
    lemma_tr_find(s, u, 0);
    let i = spec_tr_find(s, u).unwrap();
    lemma_tr_find(s, marked, 0);
    match spec_tr_find(s, marked) {
        None => {
            if u != marked {
                lemma_tr_find_push(s, (marked, Seq::empty()), u, 0);
                lemma_tr_find_push(s, (marked, seq![th]), u, 0);
                assert(s.push((marked, Seq::<u64>::empty()))[i] == s[i]);
                assert(s.push((marked, seq![th]))[i] == s[i]);
            }
        },
        Some(m) => {
            assert(spec_tr_touch(s, marked) == s);
            let s2 = s.update(m, (marked, s[m].1.push(th)));
            lemma_tr_find_update(s, m, (marked, s[m].1.push(th)), u, 0);
            if u == marked {
                assert(m == i);
                assert(s2[i].1 == s[i].1.push(th));
                let j = choose|j: int| 0 <= j < s[i].1.len() && s[i].1[j] == x;
                assert(s2[i].1[j] == x);
            } else {
                assert(m != i);
                assert(s2[i] == s[i]);
            }
        },
    }
}

fn contains_u64(v: &Vec<u64>, x: u64) -> (r: bool)
    ensures
        r == v@.contains(x),
{
    let mut j: usize = 0;
    while j < v.len()
        invariant
            0 <= j <= v@.len(),
            forall|k: int| 0 <= k < j ==> v@[k] != x,
        decreases v@.len() - j,
    {
        if v[j] == x {
            assert(v@[j as int] == x);
            return true;
        }
        j = j + 1;
    }
    assert(!v@.contains(x));
    false
}

impl NotificationTracker {
    /// The entries as a mathematical sequence of `(user, fired)` pairs.
    pub closed spec fn spec_entries(self) -> Seq<(ChatId, Seq<u64>)> {
        self.entries@.map_values(|e: (ChatId, Vec<u64>)| (e.0, e.1@))
    }

    /// Well-formed for a threshold configuration: one entry per user, no
    /// threshold fired twice, and only configured thresholds fired.
    pub open spec fn wf_for(self, ths: Seq<u64>) -> bool {
        let s = self.spec_entries();
        (forall|i: int, j: int| 0 <= i < j < s.len() ==> (#[trigger] s[i]).0 != (#[trigger] s[j]).0)
            && (forall|k: int, i: int, j: int|
            0 <= k < s.len() && 0 <= i < j < s[k].1.len() ==> #[trigger] s[k].1[i]
                != #[trigger] s[k].1[j]) && (forall|k: int, i: int|
            0 <= k < s.len() && 0 <= i < s[k].1.len() ==> ths.contains(#[trigger] s[k].1[i]))
    }

    /// An empty tracker, well-formed for any configuration.
    pub fn new() -> (r: NotificationTracker)
        ensures
            r.spec_entries() == Seq::<(ChatId, Seq<u64>)>::empty(),
            forall|ths: Seq<u64>| r.wf_for(ths),
    {
        let r = NotificationTracker { entries: Vec::new() };
        proof {
            assert(r.spec_entries() =~= Seq::<(ChatId, Seq<u64>)>::empty());
        }
        r
    }

    fn find_user(&self, user: ChatId) -> (r: Option<usize>)
        ensures
            match r {
                Some(i) => i < self.entries@.len() && spec_tr_find(self.spec_entries(), user)
                    == Some(i as int),
                None => spec_tr_find(self.spec_entries(), user) is None,
            },
    {
        let mut i: usize = 0;
        while i < self.entries.len()
            invariant
                0 <= i <= self.entries@.len(),
                spec_tr_find(self.spec_entries(), user) == spec_tr_find_from(
                    self.spec_entries(),
                    user,
                    i as int,
                ),
            decreases self.entries@.len() - i,
        {
            if self.entries[i].0 == user {
                return Some(i);
            }
            i = i + 1;
        }
        None
    }

    /// How many thresholds have fired for `user`.
    pub fn fired_count(&self, user: ChatId) -> (r: usize)
        ensures
            r == spec_tr_fired(self.spec_entries(), user).len(),
    {
        match self.find_user(user) {
            None => 0,
            Some(i) => self.entries[i].1.len(),
        }
    }

    /// One evaluation of one ticket: scan the thresholds in the given order,
    /// fire the first not-yet-fired one whose window holds the departure
    /// (both time stamps as absolute minute counts), and record the user
    /// either way.
    pub fn note_ticket(
        &mut self,
        user: ChatId,
        thresholds_desc: &Vec<u64>,
        now_min: u64,
        dep_min: u64,
    ) -> (r: Option<u64>)
        requires
            old(self).wf_for(thresholds_desc@),
        ensures
            r == spec_select(
                spec_tr_fired(old(self).spec_entries(), user),
                thresholds_desc@,
                now_min as int,
                dep_min as int,
            ),
            final(self).spec_entries() == (match r {
                Some(th) => spec_tr_mark(old(self).spec_entries(), user, th),
                None => spec_tr_touch(old(self).spec_entries(), user),
            }),
            final(self).wf_for(thresholds_desc@),
    {
        let ghost s0 = self.spec_entries();
        let ghost ths = thresholds_desc@;
        let idx: usize = match self.find_user(user) {
            Some(i) => i,
            None => {
                let fresh: Vec<u64> = Vec::new();
                self.entries.push((user, fresh));
                proof {
                    assert(self.spec_entries() =~~= spec_tr_touch(s0, user));
                    lemma_tr_find(s0, user, 0);
                    lemma_tr_find(self.spec_entries(), user, 0);
                    assert(self.spec_entries()[s0.len() as int].0 == user);
                    assert(self.wf_for(ths)) by {
                        assert(forall|j: int|
                            0 <= j < s0.len() ==> self.spec_entries()[j] == s0[j]);
                        assert(self.spec_entries()[s0.len() as int].1 =~= Seq::<u64>::empty());
                    }
                }
                self.entries.len() - 1
            },
        };
        let ghost s1 = self.spec_entries();
        let ghost fired = spec_tr_fired(s0, user);
        proof {
            assert(s1[idx as int].1 == fired);
            assert(spec_tr_touch(s0, user) == s1);
            assert(spec_select(fired, ths, now_min as int, dep_min as int) == spec_select(
                fired,
                ths.skip(0),
                now_min as int,
                dep_min as int,
            )) by {
                assert(ths.skip(0) =~= ths);
            }
        }
        let mut k: usize = 0;
        while k < thresholds_desc.len()
            invariant
                0 <= k <= ths.len(),
                s0 == old(self).spec_entries(),
                ths == thresholds_desc@,
                idx < self.entries@.len(),
                self.spec_entries() == s1,
                self.wf_for(ths),
                s1 == spec_tr_touch(s0, user),
                fired == spec_tr_fired(s0, user),
                spec_tr_find(s1, user) == Some(idx as int),
                (match spec_tr_find(s0, user) {
                    Some(i0) => idx as int == i0,
                    None => idx as int == s0.len(),
                }),
                s1[idx as int].1 == fired,
                spec_select(fired, ths, now_min as int, dep_min as int) == spec_select(
                    fired,
                    ths.skip(k as int),
                    now_min as int,
                    dep_min as int,
                ),
            decreases ths.len() - k,
        {
            let th = thresholds_desc[k];
            proof {
                assert(ths.skip(k as int)[0] == ths[k as int]);
                assert(ths.skip(k as int).drop_first() =~= ths.skip(k + 1));
            }
            proof {
                assert(self.entries@[idx as int].1@ == s1[idx as int].1);
            }
            let already = contains_u64(&self.entries[idx].1, th);
            let in_window = (dep_min as u128) <= (now_min as u128) + (th as u128) && dep_min
                > now_min;
            if !already && in_window {
                proof {
                    assert(spec_select(fired, ths.skip(k as int), now_min as int, dep_min as int)
                        == Some(th)) by {
                        assert(ths.skip(k as int)[0] == th);
                        assert(!fired.contains(th));
                        assert(now_min < dep_min <= now_min + th);
                    }
                }
                let ghost e0 = self.entries@;
                let mut entry = self.entries.remove(idx);
                entry.1.push(th);
                self.entries.insert(idx, entry);
                proof {
                    assert(self.entries@ =~= e0.update(idx as int, entry));
                    lemma_tr_find(s1, user, 0);
                    let s_new = self.spec_entries();
                    let target = s1.update(idx as int, (user, fired.push(th)));
                    assert forall|j: int| 0 <= j < s_new.len() implies s_new[j] == target[j] by {
                        if j != idx {
                            assert(self.entries@[j] == e0[j]);
                        } else {
                            assert(s_new[j] == (entry.0, entry.1@));
                            assert(entry.1@ =~= fired.push(th));
                        }
                    }
                    assert(s_new =~= target);
                    lemma_tr_find(s0, user, 0);
                    match spec_tr_find(s0, user) {
                        Some(i0) => {
                            assert(s1 == s0);
                            assert(spec_tr_mark(s0, user, th) == s0.update(
                                i0,
                                (user, s0[i0].1.push(th)),
                            ));
                        },
                        None => {
                            assert(s1 == s0.push((user, Seq::<u64>::empty())));
                            assert(fired =~= Seq::<u64>::empty());
                            assert(Seq::<u64>::empty().push(th) =~= seq![th]);
                            assert(s1.update(idx as int, (user, fired.push(th))) =~~= s0.push(
                                (user, seq![th]),
                            ));
                        },
                    }
                    assert(self.spec_entries() =~~= spec_tr_mark(s0, user, th));
                    assert(ths.contains(th)) by {
                        assert(ths[k as int] == th);
                    }
                    assert(self.wf_for(ths)) by {
                        assert forall|a: int, b: int|
                            0 <= a < b < self.spec_entries()[idx as int].1.len()
                            implies #[trigger] self.spec_entries()[idx as int].1[a]
                            != #[trigger] self.spec_entries()[idx as int].1[b] by {
                            assert(self.spec_entries()[idx as int].1 == fired.push(th));
                            if b == fired.len() as int {
                                assert(!fired.contains(th));
                                assert(fired[a] != th);
                            }
                        }
                    }
                }
                return Some(th);
            }
            k = k + 1;
        }
        proof {
            assert(ths.skip(k as int) =~= Seq::<u64>::empty());
        }
        None
    }
}

} // verus!
