//! Live status distribution: per-user publish/subscribe with bounded
//! retained history.
//!
//! The manager is owned by a single thread of control; callers hand it
//! the current time in milliseconds, and it hands back what to deliver.
//! `connect` registers a subscriber and replays the retained history;
//! `publish` names the sessions that must receive the event, in
//! registration order, and retains the event; `cleanup` drops history
//! older than [`HISTORY_DURATION_MILLI`] and forgets users whose history
//! has emptied.  Delivering to the named sessions, and the clock, belong
//! to the caller.

use vstd::prelude::*;

verus! {

/// How long published events stay replayable, in milliseconds.
pub const HISTORY_DURATION_MILLI: u64 = 300000;

/// Live status of one submission, as shown to subscribers.
#[derive(Debug)]
pub enum SubmissionStatus {
    Started,
    Compiled { compiler_stderr: String, success: bool },
    TestcaseScored {
        subtask_num: i64,
        testcase_num: i64,
        score: u64,
        message: String,
        time: u64,
        memory: u64,
    },
    SubtaskScored { subtask_num: i64, score: u64 },
    Done { score: u64 },
    Error { message: String },
}

pub enum SubmissionStatusModel {
    Started,
    Compiled { compiler_stderr: Seq<char>, success: bool },
    TestcaseScored {
        subtask_num: i64,
        testcase_num: i64,
        score: u64,
        message: Seq<char>,
        time: u64,
        memory: u64,
    },
    SubtaskScored { subtask_num: i64, score: u64 },
    Done { score: u64 },
    Error { message: Seq<char> },
}

impl View for SubmissionStatus {
    type V = SubmissionStatusModel;

    open spec fn view(&self) -> SubmissionStatusModel {
        match self {
            SubmissionStatus::Started => SubmissionStatusModel::Started,
            SubmissionStatus::Compiled { compiler_stderr, success } =>
                SubmissionStatusModel::Compiled {
                    compiler_stderr: compiler_stderr@,
                    success: *success,
                },
            SubmissionStatus::TestcaseScored {
                subtask_num,
                testcase_num,
                score,
                message,
                time,
                memory,
            } => SubmissionStatusModel::TestcaseScored {
                subtask_num: *subtask_num,
                testcase_num: *testcase_num,
                score: *score,
                message: message@,
                time: *time,
                memory: *memory,
            },
            SubmissionStatus::SubtaskScored { subtask_num, score } =>
                SubmissionStatusModel::SubtaskScored {
                    subtask_num: *subtask_num,
                    score: *score,
                },
            SubmissionStatus::Done { score } => SubmissionStatusModel::Done { score: *score },
            SubmissionStatus::Error { message } => SubmissionStatusModel::Error {
                message: message@,
            },
        }
    }
}

/// One status event of one evaluation run.
#[derive(Debug)]
pub struct Event {
    pub submission_id: i64,
    pub update_id: i64,
    pub status: SubmissionStatus,
}

pub struct EventModel {
    pub submission_id: i64,
    pub update_id: i64,
    pub status: SubmissionStatusModel,
}

impl View for Event {
    type V = EventModel;

    open spec fn view(&self) -> EventModel {
        EventModel {
            submission_id: self.submission_id,
            update_id: self.update_id,
            status: self.status@,
        }
    }
}

impl Event {
    /// A fresh event holding the same values.
    pub fn duplicate(&self) -> (r: Event)
        ensures
            r@ == self@,
    {
        Event {
            submission_id: self.submission_id,
            update_id: self.update_id,
            status: match &self.status {
                SubmissionStatus::Started => SubmissionStatus::Started,
                SubmissionStatus::Compiled { compiler_stderr, success } =>
                    SubmissionStatus::Compiled {
                        compiler_stderr: compiler_stderr.clone(),
                        success: *success,
                    },
                SubmissionStatus::TestcaseScored {
                    subtask_num,
                    testcase_num,
                    score,
                    message,
                    time,
                    memory,
                } => SubmissionStatus::TestcaseScored {
                    subtask_num: *subtask_num,
                    testcase_num: *testcase_num,
                    score: *score,
                    message: message.clone(),
                    time: *time,
                    memory: *memory,
                },
                SubmissionStatus::SubtaskScored { subtask_num, score } =>
                    SubmissionStatus::SubtaskScored { subtask_num: *subtask_num, score: *score },
                SubmissionStatus::Done { score } => SubmissionStatus::Done { score: *score },
                SubmissionStatus::Error { message } => SubmissionStatus::Error {
                    message: message.clone(),
                },
            },
        }
    }
}

/// The value under the first entry with the given key, if any.
pub open spec fn spec_assoc<V>(entries: Seq<(i64, V)>, key: i64) -> Option<V>
    decreases entries.len(),
{
    if entries.len() == 0 {
        None
    } else if entries[0].0 == key {
        Some(entries[0].1)
    } else {
        spec_assoc(entries.drop_first(), key)
    }
}

/// Keys of an entry list.
pub open spec fn assoc_keys<V>(entries: Seq<(i64, V)>) -> Seq<i64> {
    entries.map_values(|p: (i64, V)| p.0)
}

/// Looking up an absent key finds nothing.
proof fn lemma_assoc_absent<V>(entries: Seq<(i64, V)>, key: i64)
    requires
        !assoc_keys(entries).contains(key),
    ensures
        spec_assoc(entries, key) is None,
    decreases entries.len(),
{
    if entries.len() > 0 {
        assert(assoc_keys(entries)[0] == entries[0].0);
        assert(assoc_keys(entries.drop_first()) =~= assoc_keys(entries).drop_first());
        assert forall|k: int|
            0 <= k < assoc_keys(entries.drop_first()).len()
            implies assoc_keys(entries.drop_first())[k] != key by {
            assert(assoc_keys(entries)[k + 1] == assoc_keys(entries.drop_first())[k]);
        }
        lemma_assoc_absent(entries.drop_first(), key);
    }
}

/// Updating the first entry of one key changes only that key's value.
proof fn lemma_assoc_update<V>(entries: Seq<(i64, V)>, i: int, v2: V, key: i64)
    requires
        0 <= i < entries.len(),
        forall|j: int| 0 <= j < i ==> (#[trigger] entries[j]).0 != entries[i].0,
    ensures
        spec_assoc(entries.update(i, (entries[i].0, v2)), key) == (if key == entries[i].0 {
            Some(v2)
        } else {
            spec_assoc(entries, key)
        }),
    decreases entries.len(),
{
    let upd = entries.update(i, (entries[i].0, v2));
    if i == 0 {
        assert(upd[0] == (entries[0].0, v2));
        assert(upd.drop_first() =~= entries.drop_first());
    } else {
        assert(upd[0] == entries[0]);
        assert(upd.drop_first() =~= entries.drop_first().update(i - 1, (entries[i].0, v2)));
        assert(entries.drop_first()[i - 1] == entries[i]);
        assert forall|j: int| 0 <= j < i - 1
            implies (#[trigger] entries.drop_first()[j]).0 != entries.drop_first()[i - 1].0 by {
            assert(entries.drop_first()[j] == entries[j + 1]);
        }
        lemma_assoc_update(entries.drop_first(), i - 1, v2, key);
    }
}

/// Appending an entry under a fresh key changes only that key's value.
proof fn lemma_assoc_push<V>(entries: Seq<(i64, V)>, k0: i64, v: V, key: i64)
    requires
        spec_assoc(entries, k0) is None,
    ensures
        spec_assoc(entries.push((k0, v)), key) == (if key == k0 {
            Some(v)
        } else {
            spec_assoc(entries, key)
        }),
    decreases entries.len(),
{
    let ext = entries.push((k0, v));
    if entries.len() == 0 {
        assert(ext[0] == (k0, v));
        assert(ext.drop_first() =~= Seq::<(i64, V)>::empty());
    } else {
        assert(ext[0] == entries[0]);
        assert(ext.drop_first() =~= entries.drop_first().push((k0, v)));
        lemma_assoc_push(entries.drop_first(), k0, v, key);
    }
}

/// Lookup commutes with an entry-wise change of the values.
proof fn lemma_assoc_map_sessions(entries: Seq<(i64, Vec<u64>)>, key: i64)
    ensures
        spec_assoc(entries.map_values(|p: (i64, Vec<u64>)| (p.0, p.1@)), key) == (
        match spec_assoc(entries, key) {
            Some(v) => Some(v@),
            None => None,
        }),
    decreases entries.len(),
{
    let f = |p: (i64, Vec<u64>)| (p.0, p.1@);
    if entries.len() > 0 {
        assert(entries.map_values(f)[0] == f(entries[0]));
        assert(entries.map_values(f).drop_first() =~= entries.drop_first().map_values(f));
        lemma_assoc_map_sessions(entries.drop_first(), key);
    }
}

/// Lookup commutes with taking the history entries' views.
proof fn lemma_assoc_map_events(entries: Seq<(i64, Vec<(u64, Event)>)>, key: i64)
    ensures
        spec_assoc(
            entries.map_values(
                |p: (i64, Vec<(u64, Event)>)|
                    (p.0, p.1@.map_values(|q: (u64, Event)| (q.0, q.1@))),
            ),
            key,
        ) == (match spec_assoc(entries, key) {
            Some(v) => Some(v@.map_values(|q: (u64, Event)| (q.0, q.1@))),
            None => None,
        }),
    decreases entries.len(),
{
    let f = |p: (i64, Vec<(u64, Event)>)| (p.0, p.1@.map_values(|q: (u64, Event)| (q.0, q.1@)));
    if entries.len() > 0 {
        assert(entries.map_values(f)[0] == f(entries[0]));
        assert(entries.map_values(f).drop_first() =~= entries.drop_first().map_values(f));
        lemma_assoc_map_events(entries.drop_first(), key);
    }
}

/// The per-user publish/subscribe hub.
pub struct EventManager {
    sessions: Vec<(i64, Vec<u64>)>,
    events: Vec<(i64, Vec<(u64, Event)>)>,
    next_session_id: u64,
}

pub struct EventManagerModel {
    pub sessions: Seq<(i64, Seq<u64>)>,
    pub events: Seq<(i64, Seq<(u64, EventModel)>)>,
    pub next_session_id: u64,
}

impl View for EventManager {
    type V = EventManagerModel;

    closed spec fn view(&self) -> EventManagerModel {
        EventManagerModel {
            sessions: self.sessions@.map_values(|p: (i64, Vec<u64>)| (p.0, p.1@)),
            events: self.events@.map_values(
                |p: (i64, Vec<(u64, Event)>)|
                    (p.0, p.1@.map_values(|q: (u64, Event)| (q.0, q.1@))),
            ),
            next_session_id: self.next_session_id,
        }
    }
}

/// The session ids connected for a user, in registration order.
pub open spec fn spec_sessions_of(m: EventManagerModel, user_id: i64) -> Seq<u64> {
    match spec_assoc(m.sessions, user_id) {
        Some(ids) => ids,
        None => Seq::empty(),
    }
}

/// The retained history of a user, oldest first.
pub open spec fn spec_history_of(m: EventManagerModel, user_id: i64) -> Seq<(u64, EventModel)> {
    match spec_assoc(m.events, user_id) {
        Some(h) => h,
        None => Seq::empty(),
    }
}

impl EventManagerModel {
    /// User keys are unique in both maps, session ids are unique and
    /// below the counter, and each history is ordered by time.
    pub open spec fn wf(self) -> bool {
        &&& assoc_keys(self.sessions).no_duplicates()
        &&& assoc_keys(self.events).no_duplicates()
        &&& forall|i: int|
            0 <= i < self.sessions.len() ==> (#[trigger] self.sessions[i]).1.no_duplicates()
        &&& forall|i: int, k: int|
            0 <= i < self.sessions.len() && 0 <= k < self.sessions[i].1.len() ==> (
            #[trigger] self.sessions[i].1[k]) < self.next_session_id
        &&& forall|i: int, a: int, b: int|
            0 <= i < self.events.len() && 0 <= a <= b < self.events[i].1.len() ==> (
            #[trigger] self.events[i].1[a]).0 <= (#[trigger] self.events[i].1[b]).0
    }
}

impl EventManager {
    pub fn new() -> (m: EventManager)
        ensures
            m@.wf(),
            m@.sessions =~= Seq::<(i64, Seq<u64>)>::empty(),
            m@.events =~= Seq::<(i64, Seq<(u64, EventModel)>)>::empty(),
            m@.next_session_id == 1,
    {
        EventManager { sessions: Vec::new(), events: Vec::new(), next_session_id: 1 }
    }

    /// The position of a user's entry in the session map.
    fn session_position(&self, user_id: i64) -> (r: Option<usize>)
        ensures
            match r {
                Some(i) => i < self.sessions@.len() && self.sessions@[i as int].0 == user_id
                    && (forall|j: int|
                        0 <= j < i ==> (#[trigger] self.sessions@[j]).0 != user_id)
                    && spec_assoc(self@.sessions, user_id) == Some(self.sessions@[i as int].1@),
                None => spec_assoc(self@.sessions, user_id) is None,
            },
    {
        let ghost model = self@.sessions;
        let mut i: usize = 0;
        proof {
            assert(model.skip(0) =~= model);
        }
        while i < self.sessions.len()
            invariant
                i <= self.sessions@.len(),
                model == self@.sessions,
                model.len() == self.sessions@.len(),
                forall|k: int| 0 <= k < model.len() ==> (#[trigger] model[k]).0
                    == self.sessions@[k].0,
                forall|k: int| 0 <= k < model.len() ==> (#[trigger] model[k]).1
                    == self.sessions@[k].1@,
                forall|j: int| 0 <= j < i ==> (#[trigger] self.sessions@[j]).0 != user_id,
                spec_assoc(model, user_id) == spec_assoc(model.skip(i as int), user_id),
            decreases self.sessions@.len() - i,
        {
            proof {
                assert(model.skip(i as int).drop_first() =~= model.skip(i + 1));
                assert(model.skip(i as int)[0] == model[i as int]);
            }
            if self.sessions[i].0 == user_id {
                return Some(i);
            }
            i += 1;
        }
        proof {
            assert(model.skip(model.len() as int) =~= Seq::<(i64, Seq<u64>)>::empty());
        }
        None
    }

    /// The position of a user's entry in the history map.
    fn history_position(&self, user_id: i64) -> (r: Option<usize>)
        ensures
            match r {
                Some(i) => i < self.events@.len() && self.events@[i as int].0 == user_id && (
                forall|j: int| 0 <= j < i ==> (#[trigger] self.events@[j]).0 != user_id)
                    && spec_assoc(self@.events, user_id) == Some(
                    self.events@[i as int].1@.map_values(|q: (u64, Event)| (q.0, q.1@)),
                ),
                None => spec_assoc(self@.events, user_id) is None,
            },
    {
        let ghost model = self@.events;
        let mut i: usize = 0;
        proof {
            assert(model.skip(0) =~= model);
        }
        while i < self.events.len()
            invariant
                i <= self.events@.len(),
                model == self@.events,
                model.len() == self.events@.len(),
                forall|k: int| 0 <= k < model.len() ==> (#[trigger] model[k]).0
                    == self.events@[k].0,
                forall|k: int| 0 <= k < model.len() ==> (#[trigger] model[k]).1
                    == self.events@[k].1@.map_values(|q: (u64, Event)| (q.0, q.1@)),
                forall|j: int| 0 <= j < i ==> (#[trigger] self.events@[j]).0 != user_id,
                spec_assoc(model, user_id) == spec_assoc(model.skip(i as int), user_id),
            decreases self.events@.len() - i,
        {
            proof {
                assert(model.skip(i as int).drop_first() =~= model.skip(i + 1));
                assert(model.skip(i as int)[0] == model[i as int]);
            }
            if self.events[i].0 == user_id {
                return Some(i);
            }
            i += 1;
        }
        proof {
            assert(model.skip(model.len() as int)
                =~= Seq::<(i64, Seq<(u64, EventModel)>)>::empty());
        }
        None
    }

    /// Register a subscriber for a user: returns the fresh session id
    /// and, for replay, every event currently retained for that user, in
    /// order.  No other user's sessions, and no history, change.
    pub fn connect(&mut self, user_id: i64) -> (r: (u64, Vec<Event>))
        requires
            old(self)@.wf(),
            old(self)@.next_session_id < u64::MAX,
        ensures
            final(self)@.wf(),
            r.0 == old(self)@.next_session_id,
            final(self)@.next_session_id == old(self)@.next_session_id + 1,
            final(self)@.events == old(self)@.events,
            spec_sessions_of(final(self)@, user_id) == spec_sessions_of(old(self)@, user_id).push(
                r.0,
            ),
            forall|u: i64|
                u != user_id ==> spec_sessions_of(final(self)@, u) == spec_sessions_of(
                    old(self)@,
                    u,
                ),
            r.1@.map_values(|e: Event| e@) == spec_history_of(old(self)@, user_id).map_values(
                |p: (u64, EventModel)| p.1,
            ),
    {
        let ghost pre = self@;
        // replay first, from the retained history
        let mut replay: Vec<Event> = Vec::new();
        proof {
            assert(replay@.map_values(|e: Event| e@) =~= Seq::<EventModel>::empty());
            assert(spec_history_of(pre, user_id).take(0).map_values(|p: (u64, EventModel)| p.1)
                =~= Seq::<EventModel>::empty());
        }
        match self.history_position(user_id) {
            Some(j) => {
                let ghost hist = spec_history_of(pre, user_id);
                let n = self.events[j].1.len();
                let mut k: usize = 0;
                while k < n
                    invariant
                        k <= n,
                        j < self.events@.len(),
                        self@ == pre,
                        n == self.events@[j as int].1@.len(),
                        hist == self.events@[j as int].1@.map_values(
                            |q: (u64, Event)| (q.0, q.1@),
                        ),
                        replay@.map_values(|e: Event| e@) == hist.take(k as int).map_values(
                            |p: (u64, EventModel)| p.1,
                        ),
                    decreases n - k,
                {
                    let ev = self.events[j].1[k].1.duplicate();
                    let ghost pr = replay@;
                    replay.push(ev);
                    proof {
                        assert(replay@.map_values(|e: Event| e@) =~= pr.map_values(
                            |e: Event| e@,
                        ).push(hist[k as int].1));
                        assert(hist.take(k + 1).map_values(|p: (u64, EventModel)| p.1)
                            =~= hist.take(k as int).map_values(|p: (u64, EventModel)| p.1).push(
                            hist[k as int].1));
                    }
                    k += 1;
                }
                proof {
                    assert(hist.take(hist.len() as int) =~= hist);
                }
            },
            None => {
                proof {
                    assert(spec_history_of(pre, user_id) =~= Seq::<(u64, EventModel)>::empty());
                    assert(spec_history_of(pre, user_id).map_values(|p: (u64, EventModel)| p.1)
                        =~= Seq::<EventModel>::empty());
                }
            },
        }
        // register the session under a fresh id
        let id = self.next_session_id;
        self.next_session_id = id + 1;
        let pos = self.session_position(user_id);
        match pos {
            Some(i) => {
                let ghost ids = pre.sessions[i as int].1;
                self.sessions[i].1.push(id);
                proof {
                    let post = self@;
                    assert(post.sessions =~= pre.sessions.update(
                        i as int,
                        (user_id, ids.push(id)),
                    ));
                    assert(pre.sessions[i as int].0 == user_id);
                    assert forall|u: i64|
                        spec_assoc(post.sessions, u) == (if u == user_id {
                            Some(ids.push(id))
                        } else {
                            spec_assoc(pre.sessions, u)
                        }) by {
                        lemma_assoc_update(pre.sessions, i as int, ids.push(id), u);
                    }
                    assert(spec_sessions_of(pre, user_id) == ids);
                    assert(ids.push(id).no_duplicates()) by {
                        assert(ids.push(id).drop_last() =~= ids);
                        assert forall|m: int, n: int| 0 <= m < n < ids.push(id).len()
                            implies ids.push(id)[m] != ids.push(id)[n] by {
                            if n == ids.len() {
                                assert(pre.sessions[i as int].1[m] < pre.next_session_id);
                            }
                        }
                    }
                    assert forall|k: int| 0 <= k < ids.push(id).len()
                        implies (#[trigger] ids.push(id)[k]) < post.next_session_id by {
                        if k < ids.len() {
                            assert(pre.sessions[i as int].1[k] < pre.next_session_id);
                        }
                    }
                    lemma_wf_after_session_change(pre, post, i as int, ids.push(id));
                    assert(post.wf());
                }
            },
            None => {
                let mut fresh: Vec<u64> = Vec::new();
                fresh.push(id);
                self.sessions.push((user_id, fresh));
                proof {
                    let post = self@;
                    assert(post.sessions =~= pre.sessions.push((user_id, seq![id])));
                    assert forall|u: i64|
                        spec_assoc(post.sessions, u) == (if u == user_id {
                            Some(seq![id])
                        } else {
                            spec_assoc(pre.sessions, u)
                        }) by {
                        lemma_assoc_push(pre.sessions, user_id, seq![id], u);
                    }
                    assert(spec_sessions_of(pre, user_id) =~= Seq::<u64>::empty());
                    assert(spec_sessions_of(post, user_id) =~= spec_sessions_of(
                        pre,
                        user_id,
                    ).push(id));
                    lemma_assoc_none_absent(pre.sessions, user_id);
                    assert(assoc_keys(post.sessions) =~= assoc_keys(pre.sessions).push(user_id));
                    assert(assoc_keys(post.sessions).no_duplicates()) by {
                        let ks = assoc_keys(post.sessions);
                        assert(ks.drop_last() =~= assoc_keys(pre.sessions));
                        assert forall|m: int, n: int| 0 <= m < n < ks.len()
                            implies ks[m] != ks[n] by {
                            if n == ks.len() - 1 {
                                assert(assoc_keys(pre.sessions)[m] == ks[m]);
                            }
                        }
                    }
                    assert(post.wf()) by {
                        assert(seq![id].no_duplicates());
                        assert forall|w: int| 0 <= w < post.sessions.len()
                            implies (#[trigger] post.sessions[w]).1.no_duplicates() by {
                            if w < pre.sessions.len() {
                                assert(post.sessions[w] == pre.sessions[w]);
                            }
                        }
                        assert forall|w: int, k: int|
                            0 <= w < post.sessions.len() && 0 <= k < post.sessions[w].1.len()
                            implies (#[trigger] post.sessions[w].1[k]) < post.next_session_id by {
                            if w < pre.sessions.len() {
                                assert(post.sessions[w] == pre.sessions[w]);
                                assert(pre.sessions[w].1[k] < pre.next_session_id);
                            }
                        }
                    }
                }
            },
        }
        (id, replay)
    }

    /// Remove one session of a user; says whether it was registered.
    /// Other sessions keep their registration order; nothing else
    /// changes.
    pub fn disconnect(&mut self, user_id: i64, session_id: u64) -> (found: bool)
        requires
            old(self)@.wf(),
        ensures
            final(self)@.wf(),
            final(self)@.events == old(self)@.events,
            final(self)@.next_session_id == old(self)@.next_session_id,
            spec_sessions_of(final(self)@, user_id) == spec_remove_id(
                spec_sessions_of(old(self)@, user_id),
                session_id,
            ),
            forall|u: i64|
                u != user_id ==> spec_sessions_of(final(self)@, u) == spec_sessions_of(
                    old(self)@,
                    u,
                ),
            found == spec_sessions_of(old(self)@, user_id).contains(session_id),
    {
        let ghost pre = self@;
        let pos = self.session_position(user_id);
        match pos {
            Some(i) => {
                let ghost ids = pre.sessions[i as int].1;
                let n = self.sessions[i].1.len();
                let mut kept: Vec<u64> = Vec::new();
                let mut found = false;
                let mut k: usize = 0;
                proof {
                    assert(ids.take(0) =~= Seq::<u64>::empty());
                }
                while k < n
                    invariant
                        k <= n,
                        i < self.sessions@.len(),
                        self@ == pre,
                        n == self.sessions@[i as int].1@.len(),
                        ids == self.sessions@[i as int].1@,
                        kept@ == spec_remove_id(ids.take(k as int), session_id),
                        found == ids.take(k as int).contains(session_id),
                    decreases n - k,
                {
                    let x = self.sessions[i].1[k];
                    proof {
                        assert(ids.take(k + 1).drop_last() =~= ids.take(k as int));
                        assert(ids.take(k + 1).last() == ids[k as int]);
                        if ids.take(k + 1).contains(session_id) && !(ids[k as int] == session_id)
                            && !ids.take(k as int).contains(session_id) {
                            let w = choose|w: int|
                                0 <= w < k + 1 && #[trigger] ids.take(k + 1)[w] == session_id;
                            assert(ids.take(k as int)[w] == session_id);
                        }
                        if ids.take(k as int).contains(session_id) {
                            let w = choose|w: int|
                                0 <= w < k && #[trigger] ids.take(k as int)[w] == session_id;
                            assert(ids.take(k + 1)[w] == session_id);
                        }
                        if ids[k as int] == session_id {
                            assert(ids.take(k + 1)[k as int] == session_id);
                        }
                    }
                    if x == session_id {
                        found = true;
                    } else {
                        kept.push(x);
                    }
                    k += 1;
                }
                proof {
                    assert(ids.take(ids.len() as int) =~= ids);
                }
                let ghost keptm = kept@;
                self.sessions[i].1 = kept;
                proof {
                    let post = self@;
                    assert(post.sessions =~= pre.sessions.update(i as int, (user_id, keptm)));
                    assert(pre.sessions[i as int].0 == user_id);
                    assert forall|u: i64|
                        spec_assoc(post.sessions, u) == (if u == user_id {
                            Some(keptm)
                        } else {
                            spec_assoc(pre.sessions, u)
                        }) by {
                        lemma_assoc_update(pre.sessions, i as int, keptm, u);
                    }
                    assert(ids.no_duplicates()) by {
                        assert(pre.sessions[i as int].1.no_duplicates());
                    }
                    lemma_remove_id_props(ids, session_id);
                    assert(keptm == spec_remove_id(ids, session_id));
                    assert forall|m: int| 0 <= m < keptm.len()
                        implies (#[trigger] keptm[m]) < post.next_session_id by {
                        assert(spec_remove_id(ids, session_id).contains(keptm[m])) by {
                            assert(spec_remove_id(ids, session_id)[m] == keptm[m]);
                        }
                        assert(ids.contains(keptm[m]));
                        let w = choose|w: int| 0 <= w < ids.len() && #[trigger] ids[w] == keptm[m];
                        assert(pre.sessions[i as int].1[w] < pre.next_session_id);
                    }
                    lemma_wf_after_session_change(pre, post, i as int, keptm);
                    assert(post.wf());
                }
                found
            },
            None => {
                proof {
                    assert(spec_sessions_of(pre, user_id) =~= Seq::<u64>::empty());
                    assert(spec_remove_id(Seq::<u64>::empty(), session_id)
                        =~= Seq::<u64>::empty());
                }
                false
            },
        }
    }

    /// Deliver an event: names every session currently connected for the
    /// user, in registration order, and appends the event to the user's
    /// retained history under the given time (never earlier than what is
    /// already retained).  Sessions, and other users' histories, are
    /// untouched.
    pub fn publish(&mut self, user_id: i64, event: Event, now: u64) -> (deliveries: Vec<u64>)
        requires
            old(self)@.wf(),
        ensures
            final(self)@.wf(),
            final(self)@.sessions == old(self)@.sessions,
            final(self)@.next_session_id == old(self)@.next_session_id,
            deliveries@ == spec_sessions_of(old(self)@, user_id),
            spec_history_of(final(self)@, user_id) == spec_history_of(old(self)@, user_id).push(
                (spec_stored_time(spec_history_of(old(self)@, user_id), now), event@),
            ),
            forall|u: i64|
                u != user_id ==> spec_history_of(final(self)@, u) == spec_history_of(
                    old(self)@,
                    u,
                ),
    {
        let ghost pre = self@;
        // the sessions to deliver to
        let mut deliveries: Vec<u64> = Vec::new();
        match self.session_position(user_id) {
            Some(i) => {
                let ghost ids = pre.sessions[i as int].1;
                let n = self.sessions[i].1.len();
                let mut k: usize = 0;
                while k < n
                    invariant
                        k <= n,
                        i < self.sessions@.len(),
                        self@ == pre,
                        n == self.sessions@[i as int].1@.len(),
                        ids == self.sessions@[i as int].1@,
                        deliveries@ == ids.take(k as int),
                    decreases n - k,
                {
                    deliveries.push(self.sessions[i].1[k]);
                    proof {
                        assert(ids.take(k + 1) =~= ids.take(k as int).push(ids[k as int]));
                    }
                    k += 1;
                }
                proof {
                    assert(ids.take(ids.len() as int) =~= ids);
                }
            },
            None => {
                proof {
                    assert(spec_sessions_of(pre, user_id) =~= Seq::<u64>::empty());
                }
            },
        }
        // retain the event
        let ghost em = event@;
        let pos = self.history_position(user_id);
        match pos {
            Some(i) => {
                let ghost hist = pre.events[i as int].1;
                let hn = self.events[i].1.len();
                let t = if hn == 0 {
                    now
                } else {
                    let last = self.events[i].1[hn - 1].0;
                    if last <= now {
                        now
                    } else {
                        last
                    }
                };
                proof {
                    assert(hist.len() == hn);
                    if hn > 0 {
                        assert(hist.last() == (self.events@[i as int].1@.map_values(
                            |q: (u64, Event)| (q.0, q.1@),
                        )).last());
                    }
                    assert(t == spec_stored_time(hist, now));
                }
                self.events[i].1.push((t, event));
                proof {
                    let post = self@;
                    assert(post.events =~~= pre.events.update(
                        i as int,
                        (user_id, hist.push((t, em))),
                    ));
                    assert(pre.events[i as int].0 == user_id);
                    assert forall|u: i64|
                        spec_assoc(post.events, u) == (if u == user_id {
                            Some(hist.push((t, em)))
                        } else {
                            spec_assoc(pre.events, u)
                        }) by {
                        lemma_assoc_update(pre.events, i as int, hist.push((t, em)), u);
                    }
                    assert(post.wf()) by {
                        lemma_wf_after_history_change(pre, post, i as int, hist.push((t, em)));
                        assert(hist.push((t, em)).drop_last() =~= hist);
                        assert forall|a: int, b: int|
                            0 <= a <= b < hist.push((t, em)).len()
                            implies (#[trigger] hist.push((t, em))[a]).0 <= (#[trigger] hist.push(
                            (t, em),
                        )[b]).0 by {
                            if b == hist.len() && a < b {
                                assert(pre.events[i as int].1[a].0 <= pre.events[i as int].1[hist.len()
                                    - 1].0);
                            }
                        }
                    }
                }
            },
            None => {
                let mut fresh: Vec<(u64, Event)> = Vec::new();
                fresh.push((now, event));
                self.events.push((user_id, fresh));
                proof {
                    let post = self@;
                    assert(post.events =~~= pre.events.push((user_id, seq![(now, em)])));
                    assert forall|u: i64|
                        spec_assoc(post.events, u) == (if u == user_id {
                            Some(seq![(now, em)])
                        } else {
                            spec_assoc(pre.events, u)
                        }) by {
                        lemma_assoc_push(pre.events, user_id, seq![(now, em)], u);
                    }
                    assert(spec_history_of(pre, user_id) =~= Seq::<(u64, EventModel)>::empty());
                    assert(spec_history_of(post, user_id) =~= spec_history_of(pre, user_id).push(
                        (now, em),
                    ));
                    lemma_assoc_none_absent(pre.events, user_id);
                    assert(assoc_keys(post.events) =~= assoc_keys(pre.events).push(user_id));
                    assert(post.wf()) by {
                        let ks = assoc_keys(post.events);
                        assert(ks.drop_last() =~= assoc_keys(pre.events));
                        assert forall|m: int, w: int| 0 <= m < w < ks.len()
                            implies ks[m] != ks[w] by {
                            if w == ks.len() - 1 {
                                assert(assoc_keys(pre.events)[m] == ks[m]);
                            }
                        }
                        assert forall|w: int, a: int, b: int|
                            0 <= w < post.events.len() && 0 <= a <= b < post.events[w].1.len()
                            implies (#[trigger] post.events[w].1[a]).0 <= (
                            #[trigger] post.events[w].1[b]).0 by {
                            if w < pre.events.len() {
                                assert(post.events[w] == pre.events[w]);
                                assert(pre.events[w].1[a].0 <= pre.events[w].1[b].0);
                            }
                        }
                    }
                }
            },
        }
        deliveries
    }
}

/// What is left of a history once entries older than the retention
/// window are dropped from the front: the suffix starting at the first
/// entry young enough to keep.
pub open spec fn spec_retained(hist: Seq<(u64, EventModel)>, now: u64) -> Seq<(u64, EventModel)>
    decreases hist.len(),
{
    if hist.len() == 0 {
        hist
    } else if hist[0].0 + HISTORY_DURATION_MILLI < now {
        spec_retained(hist.drop_first(), now)
    } else {
        hist
    }
}

/// A cleanup pass over the whole history map: each user's history is
/// cut to the retention window, and users with nothing left are
/// forgotten.
pub open spec fn spec_cleanup_entries(
    entries: Seq<(i64, Seq<(u64, EventModel)>)>,
    now: u64,
) -> Seq<(i64, Seq<(u64, EventModel)>)>
    decreases entries.len(),
{
    if entries.len() == 0 {
        entries
    } else {
        let r = spec_retained(entries[0].1, now);
        let rest = spec_cleanup_entries(entries.drop_first(), now);
        if r.len() == 0 {
            rest
        } else {
            seq![(entries[0].0, r)] + rest
        }
    }
}

/// Every key of a cleaned map was a key before.
proof fn lemma_cleanup_keys_subset(entries: Seq<(i64, Seq<(u64, EventModel)>)>, now: u64, k: i64)
    requires
        assoc_keys(spec_cleanup_entries(entries, now)).contains(k),
    ensures
        assoc_keys(entries).contains(k),
    decreases entries.len(),
{
    if entries.len() > 0 {
        let r = spec_retained(entries[0].1, now);
        let rest = spec_cleanup_entries(entries.drop_first(), now);
        let cl = spec_cleanup_entries(entries, now);
        let w = choose|w: int| 0 <= w < cl.len() && #[trigger] assoc_keys(cl)[w] == k;
        assert(assoc_keys(cl)[w] == cl[w].0);
        if r.len() == 0 || w > 0 {
            let v: int = if r.len() == 0 {
                w
            } else {
                w - 1
            };
            assert(cl[w] == rest[v]) by {
                if r.len() > 0 {
                    assert(cl == seq![(entries[0].0, r)] + rest);
                }
            }
            assert(assoc_keys(rest).contains(k)) by {
                assert(assoc_keys(rest)[v] == rest[v].0);
            }
            lemma_cleanup_keys_subset(entries.drop_first(), now, k);
            let u = choose|u: int|
                0 <= u < entries.drop_first().len() && #[trigger] assoc_keys(
                    entries.drop_first(),
                )[u] == k;
            assert(assoc_keys(entries.drop_first())[u] == entries.drop_first()[u].0);
            assert(entries[u + 1].0 == k);
            assert(assoc_keys(entries)[u + 1] == k);
        } else {
            assert(cl[0] == (entries[0].0, r));
            assert(assoc_keys(entries)[0] == k);
        }
    }
}

/// A cleanup keeps the keys free of duplicates.
proof fn lemma_cleanup_keys_unique(entries: Seq<(i64, Seq<(u64, EventModel)>)>, now: u64)
    requires
        assoc_keys(entries).no_duplicates(),
    ensures
        assoc_keys(spec_cleanup_entries(entries, now)).no_duplicates(),
    decreases entries.len(),
{
    if entries.len() > 0 {
        let tail = entries.drop_first();
        assert(assoc_keys(tail) =~= assoc_keys(entries).drop_first());
        assert(assoc_keys(tail).no_duplicates()) by {
            assert forall|m: int, n: int| 0 <= m < n < assoc_keys(tail).len()
                implies assoc_keys(tail)[m] != assoc_keys(tail)[n] by {
                assert(assoc_keys(entries)[m + 1] != assoc_keys(entries)[n + 1]);
            }
        }
        lemma_cleanup_keys_unique(tail, now);
        let r = spec_retained(entries[0].1, now);
        let rest = spec_cleanup_entries(tail, now);
        if r.len() > 0 {
            let cl = seq![(entries[0].0, r)] + rest;
            assert(spec_cleanup_entries(entries, now) == cl);
            assert forall|m: int, n: int| 0 <= m < n < assoc_keys(cl).len()
                implies assoc_keys(cl)[m] != assoc_keys(cl)[n] by {
                assert(assoc_keys(cl)[m] == cl[m].0);
                assert(assoc_keys(cl)[n] == cl[n].0);
                if m == 0 {
                    if cl[n].0 == entries[0].0 {
                        assert(cl[n] == rest[n - 1]);
                        assert(assoc_keys(rest).contains(entries[0].0)) by {
                            assert(assoc_keys(rest)[n - 1] == rest[n - 1].0);
                        }
                        lemma_cleanup_keys_subset(tail, now, entries[0].0);
                        let u = choose|u: int|
                            0 <= u < tail.len() && #[trigger] assoc_keys(tail)[u]
                                == entries[0].0;
                        assert(assoc_keys(entries)[u + 1] == entries[0].0);
                        assert(assoc_keys(entries)[0] == entries[0].0);
                    }
                } else {
                    assert(cl[m] == rest[m - 1]);
                    assert(cl[n] == rest[n - 1]);
                    assert(assoc_keys(rest)[m - 1] != assoc_keys(rest)[n - 1]);
                }
            }
        }
    }
}

/// Cleanup through the lens of one user: the retained cut of the old
/// history, with an emptied user looked up as absent.
proof fn lemma_cleanup_assoc(entries: Seq<(i64, Seq<(u64, EventModel)>)>, now: u64, u: i64)
    requires
        assoc_keys(entries).no_duplicates(),
    ensures
        spec_assoc(spec_cleanup_entries(entries, now), u) == (match spec_assoc(entries, u) {
            Some(h) => if spec_retained(h, now).len() > 0 {
                Some(spec_retained(h, now))
            } else {
                None
            },
            None => None,
        }),
    decreases entries.len(),
{
    if entries.len() > 0 {
        let tail = entries.drop_first();
        assert(assoc_keys(tail) =~= assoc_keys(entries).drop_first());
        assert(assoc_keys(tail).no_duplicates()) by {
            assert forall|m: int, n: int| 0 <= m < n < assoc_keys(tail).len()
                implies assoc_keys(tail)[m] != assoc_keys(tail)[n] by {
                assert(assoc_keys(entries)[m + 1] != assoc_keys(entries)[n + 1]);
            }
        }
        lemma_cleanup_assoc(tail, now, u);
        let r = spec_retained(entries[0].1, now);
        let rest = spec_cleanup_entries(tail, now);
        if u == entries[0].0 {
            assert(spec_assoc(entries, u) == Some(entries[0].1));
            if r.len() == 0 {
                // the emptied user cannot reappear further down
                assert(!assoc_keys(tail).contains(u)) by {
                    if assoc_keys(tail).contains(u) {
                        let w = choose|w: int|
                            0 <= w < tail.len() && #[trigger] assoc_keys(tail)[w] == u;
                        assert(assoc_keys(entries)[w + 1] == u);
                        assert(assoc_keys(entries)[0] == u);
                    }
                }
                lemma_assoc_absent(tail, u);
            } else {
                let cl = seq![(entries[0].0, r)] + rest;
                assert(spec_cleanup_entries(entries, now) == cl);
                assert(cl[0] == (entries[0].0, r));
                assert(spec_assoc(cl, u) == Some(r));
            }
        } else {
            assert(spec_assoc(entries, u) == spec_assoc(tail, u));
            if r.len() > 0 {
                let cl = seq![(entries[0].0, r)] + rest;
                assert(spec_cleanup_entries(entries, now) == cl);
                assert(cl[0] == (entries[0].0, r));
                assert(cl.drop_first() =~= rest);
            }
        }
    }
}

/// A suffix cut keeps histories ordered by time.
proof fn lemma_retained_sorted(hist: Seq<(u64, EventModel)>, now: u64)
    requires
        forall|a: int, b: int|
            0 <= a <= b < hist.len() ==> (#[trigger] hist[a]).0 <= (#[trigger] hist[b]).0,
    ensures
        forall|a: int, b: int|
            0 <= a <= b < spec_retained(hist, now).len() ==> (#[trigger] spec_retained(
                hist,
                now,
            )[a]).0 <= (#[trigger] spec_retained(hist, now)[b]).0,
    decreases hist.len(),
{
    if hist.len() == 0 {
    } else if hist[0].0 + HISTORY_DURATION_MILLI < now {
        let tail = hist.drop_first();
        assert forall|a: int, b: int| 0 <= a <= b < tail.len()
            implies (#[trigger] tail[a]).0 <= (#[trigger] tail[b]).0 by {
            assert(hist[a + 1].0 <= hist[b + 1].0);
        }
        lemma_retained_sorted(tail, now);
        assert(spec_retained(hist, now) == spec_retained(tail, now));
    } else {
        assert(spec_retained(hist, now) == hist);
        assert forall|a: int, b: int| 0 <= a <= b < spec_retained(hist, now).len()
            implies (#[trigger] spec_retained(hist, now)[a]).0 <= (#[trigger] spec_retained(
            hist,
            now,
        )[b]).0 by {
            assert(hist[a].0 <= hist[b].0);
        }
    }
}

impl EventManager {
    /// Drop retained events older than the retention window, counted
    /// from the given time, and forget users whose history empties.
    /// Sessions are untouched; every user's history afterwards is the
    /// retained cut of what it was.
    pub fn cleanup(&mut self, now: u64)
        requires
            old(self)@.wf(),
        ensures
            final(self)@.wf(),
            final(self)@.sessions == old(self)@.sessions,
            final(self)@.next_session_id == old(self)@.next_session_id,
            final(self)@.events == spec_cleanup_entries(old(self)@.events, now),
            forall|u: i64|
                spec_history_of(final(self)@, u) == spec_retained(
                    spec_history_of(old(self)@, u),
                    now,
                ),
    {
        let ghost pre = self@;
        let mut out: Vec<(i64, Vec<(u64, Event)>)> = Vec::new();
        let ghost outm = |o: Seq<(i64, Vec<(u64, Event)>)>|
            o.map_values(
                |p: (i64, Vec<(u64, Event)>)|
                    (p.0, p.1@.map_values(|q: (u64, Event)| (q.0, q.1@))),
            );
        let mut i: usize = 0;
        proof {
            assert(pre.events.skip(0) =~= pre.events);
            assert(outm(out@) =~= Seq::<(i64, Seq<(u64, EventModel)>)>::empty());
            assert(spec_cleanup_entries(pre.events, now) =~= outm(out@) + spec_cleanup_entries(
                pre.events.skip(0),
                now,
            ));
        }
        let n = self.events.len();
        while i < n
            invariant
                i <= n,
                self@ == pre,
                n == self.events@.len(),
                n == pre.events.len(),
                forall|k: int| 0 <= k < n ==> (#[trigger] pre.events[k]).0 == self.events@[k].0,
                forall|k: int| 0 <= k < n ==> (#[trigger] pre.events[k]).1
                    == self.events@[k].1@.map_values(|q: (u64, Event)| (q.0, q.1@)),
                outm == (|o: Seq<(i64, Vec<(u64, Event)>)>|
                    o.map_values(
                        |p: (i64, Vec<(u64, Event)>)|
                            (p.0, p.1@.map_values(|q: (u64, Event)| (q.0, q.1@))),
                    )),
                spec_cleanup_entries(pre.events, now) == outm(out@) + spec_cleanup_entries(
                    pre.events.skip(i as int),
                    now,
                ),
            decreases n - i,
        {
            let ghost hist = pre.events[i as int].1;
            proof {
                assert(pre.events.skip(i as int)[0] == pre.events[i as int]);
                assert(pre.events.skip(i as int).drop_first() =~= pre.events.skip(i + 1));
            }
            let hn = self.events[i].1.len();
            // find the first entry young enough to keep
            let mut cut: usize = 0;
            proof {
                assert(hist.skip(0) =~= hist);
            }
            while cut < hn
                invariant
                    cut <= hn,
                    i < n,
                    self@ == pre,
                    n == self.events@.len(),
                    hn == self.events@[i as int].1@.len(),
                    hist == self.events@[i as int].1@.map_values(|q: (u64, Event)| (q.0, q.1@)),
                    spec_retained(hist, now) == spec_retained(hist.skip(cut as int), now),
                ensures
                    cut <= hn,
                    hist == self.events@[i as int].1@.map_values(|q: (u64, Event)| (q.0, q.1@)),
                    spec_retained(hist, now) == spec_retained(hist.skip(cut as int), now),
                    cut == hn || !(hist[cut as int].0 + HISTORY_DURATION_MILLI < now),
                decreases hn - cut,
            {
                let t = self.events[i].1[cut].0;
                proof {
                    assert(hist.skip(cut as int)[0] == hist[cut as int]);
                    assert(hist[cut as int].0 == t);
                    assert(hist.skip(cut as int).drop_first() =~= hist.skip(cut + 1));
                }
                if !(now > HISTORY_DURATION_MILLI && t < now - HISTORY_DURATION_MILLI) {
                    break;
                }
                cut += 1;
            }
            proof {
                if cut < hn {
                    assert(spec_retained(hist.skip(cut as int), now) == hist.skip(cut as int));
                } else {
                    assert(hist.skip(hn as int) =~= Seq::<(u64, EventModel)>::empty());
                }
            }
            // copy what is kept
            let mut keep: Vec<(u64, Event)> = Vec::new();
            let mut j = cut;
            proof {
                assert(keep@.map_values(|q: (u64, Event)| (q.0, q.1@))
                    =~= hist.subrange(cut as int, cut as int));
            }
            while j < hn
                invariant
                    cut <= j <= hn,
                    i < n,
                    self@ == pre,
                    n == self.events@.len(),
                    hn == self.events@[i as int].1@.len(),
                    hist == self.events@[i as int].1@.map_values(|q: (u64, Event)| (q.0, q.1@)),
                    keep@.map_values(|q: (u64, Event)| (q.0, q.1@)) == hist.subrange(
                        cut as int,
                        j as int,
                    ),
                decreases hn - j,
            {
                let t = self.events[i].1[j].0;
                let ev = self.events[i].1[j].1.duplicate();
                let ghost pk = keep@;
                keep.push((t, ev));
                proof {
                    assert(keep@.map_values(|q: (u64, Event)| (q.0, q.1@)) =~= pk.map_values(
                        |q: (u64, Event)| (q.0, q.1@),
                    ).push(hist[j as int]));
                    assert(hist.subrange(cut as int, j + 1) =~= hist.subrange(
                        cut as int,
                        j as int,
                    ).push(hist[j as int]));
                }
                j += 1;
            }
            proof {
                assert(hist.subrange(cut as int, hn as int) =~= hist.skip(cut as int));
            }
            let user = self.events[i].0;
            let ghost pout = out@;
            if keep.len() > 0 {
                out.push((user, keep));
                proof {
                    assert(outm(out@) =~= outm(pout).push(
                        (user, spec_retained(hist, now)),
                    ));
                    assert(spec_cleanup_entries(pre.events.skip(i as int), now) == seq![
                        (user, spec_retained(hist, now)),
                    ] + spec_cleanup_entries(pre.events.skip(i + 1), now));
                    assert(outm(out@) + spec_cleanup_entries(pre.events.skip(i + 1), now)
                        =~= outm(pout) + spec_cleanup_entries(pre.events.skip(i as int), now));
                }
            } else {
                proof {
                    assert(spec_retained(hist, now).len() == 0) by {
                        assert(keep@.map_values(|q: (u64, Event)| (q.0, q.1@)).len() == 0);
                    }
                    assert(spec_cleanup_entries(pre.events.skip(i as int), now)
                        == spec_cleanup_entries(pre.events.skip(i + 1), now));
                }
            }
            i += 1;
        }
        proof {
            assert(pre.events.skip(n as int) =~= Seq::<(i64, Seq<(u64, EventModel)>)>::empty());
            assert(outm(out@) + spec_cleanup_entries(pre.events.skip(n as int), now)
                =~= outm(out@));
        }
        self.events = out;
        proof {
            let post = self@;
            assert(post.events == spec_cleanup_entries(pre.events, now));
            assert forall|u: i64|
                spec_history_of(post, u) == spec_retained(spec_history_of(pre, u), now) by {
                lemma_cleanup_assoc(pre.events, now, u);
            }
            assert(post.wf()) by {
                lemma_cleanup_keys_unique(pre.events, now);
                assert forall|w: int, a: int, b: int|
                    0 <= w < post.events.len() && 0 <= a <= b < post.events[w].1.len()
                    implies (#[trigger] post.events[w].1[a]).0 <= (
                    #[trigger] post.events[w].1[b]).0 by {
                    lemma_cleanup_entry_sorted(pre.events, now, w);
                }
            }
        }
    }
}

/// Each history in a cleaned map is ordered by time, where each was
/// before the cleanup.
proof fn lemma_cleanup_entry_sorted(entries: Seq<(i64, Seq<(u64, EventModel)>)>, now: u64, w: int)
    requires
        forall|i: int, a: int, b: int|
            0 <= i < entries.len() && 0 <= a <= b < entries[i].1.len() ==> (
            #[trigger] entries[i].1[a]).0 <= (#[trigger] entries[i].1[b]).0,
        0 <= w < spec_cleanup_entries(entries, now).len(),
    ensures
        forall|a: int, b: int|
            0 <= a <= b < spec_cleanup_entries(entries, now)[w].1.len() ==> (
            #[trigger] spec_cleanup_entries(entries, now)[w].1[a]).0 <= (
            #[trigger] spec_cleanup_entries(entries, now)[w].1[b]).0,
    decreases entries.len(),
{
    let cl = spec_cleanup_entries(entries, now);
    let tail = entries.drop_first();
    let r = spec_retained(entries[0].1, now);
    let rest = spec_cleanup_entries(tail, now);
    assert forall|i: int, a: int, b: int|
        0 <= i < tail.len() && 0 <= a <= b < tail[i].1.len()
        implies (#[trigger] tail[i].1[a]).0 <= (#[trigger] tail[i].1[b]).0 by {
        assert(entries[i + 1].1[a].0 <= entries[i + 1].1[b].0);
    }
    if r.len() == 0 {
        lemma_cleanup_entry_sorted(tail, now, w);
    } else {
        assert(cl == seq![(entries[0].0, r)] + rest);
        if w == 0 {
            assert(cl[0].1 == r);
            assert forall|a: int, b: int| 0 <= a <= b < entries[0].1.len()
                implies (#[trigger] entries[0].1[a]).0 <= (#[trigger] entries[0].1[b]).0 by {}
            lemma_retained_sorted(entries[0].1, now);
        } else {
            assert(cl[w] == rest[w - 1]);
            lemma_cleanup_entry_sorted(tail, now, w - 1);
        }
    }
}

/// Bounded-history law: an event retained at time `t`, on top of a
/// history no younger than the window allows, is still replayable after
/// a cleanup at any time up to `t` plus the retention window, and is no
/// longer replayable after a cleanup past that, provided nothing in the
/// history is newer than `t` (publishing keeps times ordered).
pub proof fn lemma_history_retention(
    hist: Seq<(u64, EventModel)>,
    t: u64,
    e: EventModel,
    now: u64,
)
    requires
        forall|a: int| 0 <= a < hist.len() ==> (#[trigger] hist[a]).0 <= t,
    ensures
        t + HISTORY_DURATION_MILLI >= now ==> spec_retained(hist.push((t, e)), now).contains(
            (t, e),
        ),
        t + HISTORY_DURATION_MILLI < now ==> spec_retained(hist.push((t, e)), now)
            === Seq::<(u64, EventModel)>::empty(),
    decreases hist.len(),
{
    let whole = hist.push((t, e));
    if hist.len() == 0 {
        assert(whole[0] == (t, e));
        if !(whole[0].0 + HISTORY_DURATION_MILLI < now) {
            assert(spec_retained(whole, now) == whole);
            assert(whole.contains((t, e))) by {
                assert(whole[0] == (t, e));
            }
        } else {
            assert(whole.drop_first() =~= Seq::<(u64, EventModel)>::empty());
            assert(spec_retained(Seq::<(u64, EventModel)>::empty(), now)
                =~= Seq::<(u64, EventModel)>::empty());
            assert(spec_retained(whole, now) =~= Seq::<(u64, EventModel)>::empty());
        }
    } else {
        assert(whole[0] == hist[0]);
        if whole[0].0 + HISTORY_DURATION_MILLI < now {
            assert(whole.drop_first() =~= hist.drop_first().push((t, e)));
            assert forall|a: int| 0 <= a < hist.drop_first().len()
                implies (#[trigger] hist.drop_first()[a]).0 <= t by {
                assert(hist[a + 1].0 <= t);
            }
            lemma_history_retention(hist.drop_first(), t, e, now);
        } else {
            assert(spec_retained(whole, now) == whole);
            assert(whole.contains((t, e))) by {
                assert(whole[whole.len() - 1] == (t, e));
            }
            assert(hist[0].0 <= t);
        }
    }
}

/// A found value is some entry's value.
proof fn lemma_assoc_entry<V>(entries: Seq<(i64, V)>, key: i64)
    requires
        spec_assoc(entries, key) is Some,
    ensures
        exists|i: int|
            0 <= i < entries.len() && #[trigger] entries[i] == (
            key,
            spec_assoc(entries, key).unwrap(),
        ),
    decreases entries.len(),
{
    if entries.len() > 0 && entries[0].0 != key {
        lemma_assoc_entry(entries.drop_first(), key);
        let i = choose|i: int|
            0 <= i < entries.drop_first().len() && #[trigger] entries.drop_first()[i] == (
            key,
            spec_assoc(entries.drop_first(), key).unwrap(),
        );
        assert(entries[i + 1] == (key, spec_assoc(entries, key).unwrap()));
    }
}

/// Fan-out law: the deliveries of one publish are exactly the sessions
/// registered for the user, in registration order, and no session
/// appears twice — every connected subscriber receives exactly one copy.
pub proof fn lemma_fanout_exactly_once(m: EventManagerModel, user_id: i64)
    requires
        m.wf(),
    ensures
        spec_sessions_of(m, user_id).no_duplicates(),
{
    if spec_assoc(m.sessions, user_id) is Some {
        lemma_assoc_entry(m.sessions, user_id);
        let i = choose|i: int|
            0 <= i < m.sessions.len() && #[trigger] m.sessions[i] == (
            user_id,
            spec_assoc(m.sessions, user_id).unwrap(),
        );
        assert(m.sessions[i].1.no_duplicates());
    }
}

/// The time under which an event published now is retained: the given
/// time, unless the history already holds a later one.
pub open spec fn spec_stored_time(hist: Seq<(u64, EventModel)>, now: u64) -> u64 {
    if hist.len() == 0 || hist.last().0 <= now {
        now
    } else {
        hist.last().0
    }
}

/// A session list with one id removed, keeping the order of the rest.
pub open spec fn spec_remove_id(ids: Seq<u64>, id: u64) -> Seq<u64>
    decreases ids.len(),
{
    if ids.len() == 0 {
        Seq::empty()
    } else {
        let rest = spec_remove_id(ids.drop_last(), id);
        if ids.last() == id {
            rest
        } else {
            rest.push(ids.last())
        }
    }
}

/// Removing an id keeps the rest: membership and freedom from
/// duplicates carry over.
proof fn lemma_remove_id_props(ids: Seq<u64>, id: u64)
    requires
        ids.no_duplicates(),
    ensures
        spec_remove_id(ids, id).no_duplicates(),
        forall|x: u64|
            spec_remove_id(ids, id).contains(x) == (ids.contains(x) && x != id),
    decreases ids.len(),
{
    let out = spec_remove_id(ids, id);
    if ids.len() == 0 {
        assert forall|x: u64| out.contains(x) == (ids.contains(x) && x != id) by {
            assert(!out.contains(x));
            assert(!ids.contains(x));
        }
    } else {
        let head = ids.drop_last();
        let last = ids.last();
        assert(head.no_duplicates());
        lemma_remove_id_props(head, id);
        let rest = spec_remove_id(head, id);
        assert forall|x: u64| out.contains(x) == (ids.contains(x) && x != id) by {
            // membership in the head carries into the whole and back
            if out.contains(x) {
                // x came from the head or is the kept last element
                let w = choose|w: int| 0 <= w < out.len() && #[trigger] out[w] == x;
                if last == id {
                    assert(rest[w] == x);
                    assert(rest.contains(x));
                    assert(head.contains(x));
                    let v = choose|v: int| 0 <= v < head.len() && #[trigger] head[v] == x;
                    assert(ids[v] == x);
                    assert(ids.contains(x));
                } else {
                    assert(out == rest.push(last));
                    if w < rest.len() {
                        assert(rest[w] == x);
                        assert(rest.contains(x));
                        assert(head.contains(x));
                        let v = choose|v: int| 0 <= v < head.len() && #[trigger] head[v] == x;
                        assert(ids[v] == x);
                        assert(ids.contains(x));
                    } else {
                        assert(x == last);
                        assert(ids[ids.len() - 1] == x);
                        assert(ids.contains(x));
                    }
                }
                assert(x != id) by {
                    if last == id {
                        assert(rest.contains(x));
                    } else if w < rest.len() {
                        assert(rest.contains(x)) by {
                            assert(rest[w] == x);
                        }
                    }
                }
            }
            if ids.contains(x) && x != id {
                let w = choose|w: int| 0 <= w < ids.len() && #[trigger] ids[w] == x;
                if w < ids.len() - 1 {
                    assert(head[w] == x);
                    assert(head.contains(x));
                    assert(rest.contains(x));
                    let v = choose|v: int| 0 <= v < rest.len() && #[trigger] rest[v] == x;
                    if last == id {
                        assert(out[v] == x);
                    } else {
                        assert(out == rest.push(last));
                        assert(out[v] == x);
                    }
                    assert(out.contains(x));
                } else {
                    assert(last == x);
                    assert(out == rest.push(last));
                    assert(out[out.len() - 1] == x);
                    assert(out.contains(x));
                }
            }
        }
        if last != id {
            assert(out == rest.push(last));
            assert(out.drop_last() =~= rest);
            assert forall|m: int, n: int| 0 <= m < n < out.len()
                implies out[m] != out[n] by {
                if n == out.len() - 1 {
                    assert(rest.contains(out[m])) by {
                        assert(rest[m] == out[m]);
                    }
                    assert(head.contains(out[m]));
                    let v = choose|v: int| 0 <= v < head.len() && #[trigger] head[v] == out[m];
                    assert(ids[v] == out[m]);
                    assert(ids[ids.len() - 1] == out[n]);
                }
            }
        }
    }
}

/// A key that no lookup finds is absent.
proof fn lemma_assoc_none_absent<V>(entries: Seq<(i64, V)>, key: i64)
    requires
        spec_assoc(entries, key) is None,
    ensures
        !assoc_keys(entries).contains(key),
    decreases entries.len(),
{
    if entries.len() > 0 {
        lemma_assoc_none_absent(entries.drop_first(), key);
        assert forall|w: int| 0 <= w < assoc_keys(entries).len()
            implies assoc_keys(entries)[w] != key by {
            if w > 0 {
                assert(assoc_keys(entries.drop_first())[w - 1] == entries[w].0);
                assert(!assoc_keys(entries.drop_first()).contains(entries[w].0)
                    ==> true);
                if assoc_keys(entries)[w] == key {
                    assert(assoc_keys(entries.drop_first()).contains(key)) by {
                        assert(assoc_keys(entries.drop_first())[w - 1] == key);
                    }
                }
            } else {
                assert(entries[0].0 != key);
            }
        }
    }
}

/// Replacing one user's session list keeps the map's keys, the other
/// lists, and the counter, so the remaining well-formedness conditions
/// carry over; the new list's own conditions are the caller's to show.
proof fn lemma_wf_after_session_change(
    pre: EventManagerModel,
    post: EventManagerModel,
    i: int,
    ids: Seq<u64>,
)
    requires
        pre.wf(),
        0 <= i < pre.sessions.len(),
        post.sessions == pre.sessions.update(i, (pre.sessions[i].0, ids)),
        post.events == pre.events,
        pre.next_session_id <= post.next_session_id,
        ids.no_duplicates(),
        forall|k: int| 0 <= k < ids.len() ==> (#[trigger] ids[k]) < post.next_session_id,
    ensures
        post.wf(),
{
    assert(assoc_keys(post.sessions) =~= assoc_keys(pre.sessions));
    assert forall|w: int| 0 <= w < post.sessions.len()
        implies (#[trigger] post.sessions[w]).1.no_duplicates() by {
        if w != i {
            assert(post.sessions[w] == pre.sessions[w]);
        }
    }
    assert forall|w: int, k: int|
        0 <= w < post.sessions.len() && 0 <= k < post.sessions[w].1.len()
        implies (#[trigger] post.sessions[w].1[k]) < post.next_session_id by {
        if w != i {
            assert(post.sessions[w] == pre.sessions[w]);
            assert(pre.sessions[w].1[k] < pre.next_session_id);
        }
    }
}

/// Replacing one user's history keeps the map's keys and the other
/// histories; the new history's ordering is the caller's to show.
proof fn lemma_wf_after_history_change(
    pre: EventManagerModel,
    post: EventManagerModel,
    i: int,
    hist: Seq<(u64, EventModel)>,
)
    requires
        pre.wf(),
        0 <= i < pre.events.len(),
        post.events == pre.events.update(i, (pre.events[i].0, hist)),
        post.sessions == pre.sessions,
        post.next_session_id == pre.next_session_id,
        forall|a: int, b: int|
            0 <= a <= b < hist.len() ==> (#[trigger] hist[a]).0 <= (#[trigger] hist[b]).0,
    ensures
        post.wf(),
{
    assert(assoc_keys(post.events) =~= assoc_keys(pre.events));
    assert forall|w: int, a: int, b: int|
        0 <= w < post.events.len() && 0 <= a <= b < post.events[w].1.len()
        implies (#[trigger] post.events[w].1[a]).0 <= (#[trigger] post.events[w].1[b]).0 by {
        if w != i {
            assert(post.events[w] == pre.events[w]);
            assert(pre.events[w].1[a].0 <= pre.events[w].1[b].0);
        }
    }
}


/// A user's history after a timeline of events is published in order at
/// one time.
pub open spec fn spec_publish_all(
    hist: Seq<(u64, EventModel)>,
    events: Seq<EventModel>,
    now: u64,
) -> Seq<(u64, EventModel)>
    decreases events.len(),
{
    if events.len() == 0 {
        hist
    } else {
        spec_publish_all(
            hist.push((spec_stored_time(hist, now), events[0])),
            events.drop_first(),
            now,
        )
    }
}

/// Publish a whole status timeline for one user, in order: the returned
/// list pairs each event with the sessions it must be delivered to — the
/// sessions registered for the user, which do not change here.
pub fn publish_events(
    mgr: &mut EventManager,
    user_id: i64,
    events: &Vec<Event>,
    now: u64,
) -> (deliveries: Vec<(Vec<u64>, Event)>)
    requires
        old(mgr)@.wf(),
    ensures
        final(mgr)@.wf(),
        final(mgr)@.sessions == old(mgr)@.sessions,
        final(mgr)@.next_session_id == old(mgr)@.next_session_id,
        spec_history_of(final(mgr)@, user_id) == spec_publish_all(
            spec_history_of(old(mgr)@, user_id),
            events@.map_values(|e: Event| e@),
            now,
        ),
        forall|u: i64|
            u != user_id ==> spec_history_of(final(mgr)@, u) == spec_history_of(old(mgr)@, u),
        deliveries@.len() == events@.len(),
        forall|k: int|
            0 <= k < deliveries@.len() ==> (#[trigger] deliveries@[k]).0@ == spec_sessions_of(
                old(mgr)@,
                user_id,
            ) && deliveries@[k].1@ == events@[k]@,
{
    let ghost pre = mgr@;
    let ghost eventsm = events@.map_values(|e: Event| e@);
    let mut deliveries: Vec<(Vec<u64>, Event)> = Vec::new();
    let mut k: usize = 0;
    proof {
        assert(eventsm.skip(0) =~= eventsm);
    }
    while k < events.len()
        invariant
            k <= events@.len(),
            eventsm == events@.map_values(|e: Event| e@),
            eventsm.len() == events@.len(),
            mgr@.wf(),
            mgr@.sessions == pre.sessions,
            mgr@.next_session_id == pre.next_session_id,
            spec_publish_all(spec_history_of(pre, user_id), eventsm, now) == spec_publish_all(
                spec_history_of(mgr@, user_id),
                eventsm.skip(k as int),
                now,
            ),
            forall|u: i64|
                u != user_id ==> spec_history_of(mgr@, u) == spec_history_of(pre, u),
            deliveries@.len() == k,
            forall|w: int|
                0 <= w < k ==> (#[trigger] deliveries@[w]).0@ == spec_sessions_of(pre, user_id)
                    && deliveries@[w].1@ == events@[w]@,
        decreases events@.len() - k,
    {
        proof {
            assert(eventsm.skip(k as int)[0] == eventsm[k as int]);
            assert(eventsm[k as int] == events@[k as int]@);
            assert(eventsm.skip(k as int).drop_first() =~= eventsm.skip(k + 1));
        }
        let ev = events[k].duplicate();
        let copy = events[k].duplicate();
        let ids = mgr.publish(user_id, ev, now);
        deliveries.push((ids, copy));
        k += 1;
    }
    proof {
        assert(eventsm.skip(eventsm.len() as int) =~= Seq::<EventModel>::empty());
    }
    deliveries
}


/// Bounded-replay law for a manager: an event published now is retained
/// under a time no earlier than anything already retained, stays
/// replayable through any cleanup within the retention window of that
/// time, and is gone — with everything older — after a cleanup past it.
/// `publish` retains exactly this pair, `cleanup` cuts each history to
/// its retained part, and `connect` replays the retained history.
pub proof fn lemma_replay_window(
    m: EventManagerModel,
    user_id: i64,
    e: EventModel,
    now_pub: u64,
    now_clean: u64,
)
    requires
        m.wf(),
    ensures
        ({
            let hist = spec_history_of(m, user_id);
            let t = spec_stored_time(hist, now_pub);
            &&& (t + HISTORY_DURATION_MILLI >= now_clean ==> spec_retained(
                hist.push((t, e)),
                now_clean,
            ).contains((t, e)))
            &&& (t + HISTORY_DURATION_MILLI < now_clean ==> spec_retained(
                hist.push((t, e)),
                now_clean,
            ) === Seq::<(u64, EventModel)>::empty())
        }),
{
    let hist = spec_history_of(m, user_id);
    let t = spec_stored_time(hist, now_pub);
    assert forall|a: int| 0 <= a < hist.len() implies (#[trigger] hist[a]).0 <= t by {
        if spec_assoc(m.events, user_id) is Some {
            lemma_assoc_entry(m.events, user_id);
            let i = choose|i: int|
                0 <= i < m.events.len() && #[trigger] m.events[i] == (
                user_id,
                spec_assoc(m.events, user_id).unwrap(),
            );
            assert(m.events[i].1[a].0 <= m.events[i].1[hist.len() - 1].0);
        }
    }
    lemma_history_retention(hist, t, e, now_clean);
}

} // verus!
