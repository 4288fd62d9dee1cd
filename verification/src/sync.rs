//! Sending the locally queued tallies to the server.
//!
//! A drain alternates reads of the shared state, HTTP posts and database
//! updates with decisions. The decisions live here as a state machine: the
//! caller performs each [`DrainAction`] and hands back what came of it as a
//! [`DrainEvent`].
use vstd::prelude::*;

use crate::config::{config_complete, Config, ConfigView};
use crate::db::{tally_views, QuestionType, QueuedTally, QueuedTallyView};

verus! {

/// Where a drain stands.
#[derive(Debug, Clone, Copy, PartialEq, Eq)]
pub enum DrainPhase {
    /// Not started.
    Idle,
    /// Waiting for the configuration and connection state.
    AwaitConfig,
    /// Waiting for the list of unsynced tallies.
    AwaitQueue,
    /// Waiting for the server's answer to a post.
    AwaitPost,
    /// Waiting for a posted tally to be marked as synced.
    AwaitMark,
    /// Finished.
    Done,
}

/// The state of one drain of the tally queue.
pub struct Drainer {
    phase: DrainPhase,
    base_url: String,
    queue: Vec<QueuedTally>,
    index: usize,
}

/// A [`Drainer`] as plain values.
pub struct DrainerView {
    pub phase: DrainPhase,
    pub base_url: Seq<char>,
    pub queue: Seq<QueuedTallyView>,
    pub index: nat,
}

impl View for Drainer {
    type V = DrainerView;

    closed spec fn view(&self) -> DrainerView {
        DrainerView {
            phase: self.phase,
            base_url: self.base_url@,
            queue: tally_views(self.queue@),
            index: self.index as nat,
        }
    }
}

/// What the caller observed after performing the last action.
pub enum DrainEvent {
    /// Begin the drain.
    Start,
    /// The shared state could not be locked.
    LockFailed,
    /// The configuration, whether a database is open, and whether the widget
    /// is online.
    Config { config: Option<Config>, has_db: bool, online: bool },
    /// The unsynced tallies, oldest first, or why they could not be read.
    Queue(Result<Vec<QueuedTally>, String>),
    /// The server's answer to the last post.
    Posted(Result<(), String>),
    /// The last posted tally was marked as synced (or marking it failed).
    Marked,
}

/// A [`DrainEvent`] as plain values.
pub enum DrainEventView {
    Start,
    LockFailed,
    Config { config: Option<ConfigView>, has_db: bool, online: bool },
    Queue(Result<Seq<QueuedTallyView>, Seq<char>>),
    Posted(Result<(), Seq<char>>),
    Marked,
}

impl View for DrainEvent {
    type V = DrainEventView;

    open spec fn view(&self) -> DrainEventView {
        match self {
            DrainEvent::Start => DrainEventView::Start,
            DrainEvent::LockFailed => DrainEventView::LockFailed,
            DrainEvent::Config { config, has_db, online } => DrainEventView::Config {
                config: match config {
                    Some(c) => Some(c@),
                    None => None,
                },
                has_db: *has_db,
                online: *online,
            },
            DrainEvent::Queue(r) => DrainEventView::Queue(
                match r {
                    Ok(q) => Ok(tally_views(q@)),
                    Err(m) => Err(m@),
                },
            ),
            DrainEvent::Posted(r) => DrainEventView::Posted(
                match r {
                    Ok(()) => Ok(()),
                    Err(m) => Err(m@),
                },
            ),
            DrainEvent::Marked => DrainEventView::Marked,
        }
    }
}

/// What the caller is to do next.
pub enum DrainAction {
    /// Lock the shared state and read the configuration.
    ReadConfig,
    /// Read the unsynced tallies from the database.
    ReadQueue,
    /// Post this tally to the server at `base_url`.
    Post { base_url: String, tally: QueuedTally },
    /// Mark the tally with this id as synced in the database.
    MarkSynced(i64),
    /// Stop. When `report` is set, record and announce the connection state
    /// it holds (online, last error); then return `result`.
    Finish { report: Option<(bool, Option<String>)>, result: Result<bool, String> },
    /// The event did not fit the state; nothing to do.
    Ignore,
}

/// A [`DrainAction`] as plain values.
pub enum DrainActionView {
    ReadConfig,
    ReadQueue,
    Post { base_url: Seq<char>, tally: QueuedTallyView },
    MarkSynced(i64),
    Finish { report: Option<(bool, Option<Seq<char>>)>, result: Result<bool, Seq<char>> },
    Ignore,
}

impl View for DrainAction {
    type V = DrainActionView;

    open spec fn view(&self) -> DrainActionView {
        match self {
            DrainAction::ReadConfig => DrainActionView::ReadConfig,
            DrainAction::ReadQueue => DrainActionView::ReadQueue,
            DrainAction::Post { base_url, tally } => DrainActionView::Post {
                base_url: base_url@,
                tally: tally@,
            },
            DrainAction::MarkSynced(id) => DrainActionView::MarkSynced(*id),
            DrainAction::Finish { report, result } => DrainActionView::Finish {
                report: match report {
                    Some((online, err)) => Some(
                        (
                            *online,
                            match err {
                                Some(e) => Some(e@),
                                None => None,
                            },
                        ),
                    ),
                    None => None,
                },
                result: match result {
                    Ok(b) => Ok(*b),
                    Err(m) => Err(m@),
                },
            },
            DrainAction::Ignore => DrainActionView::Ignore,
        }
    }
}

/// The message returned when the shared state cannot be locked.
pub open spec fn lock_poisoned_message() -> Seq<char> {
    "Internal state lock was poisoned."@
}

/// One step of a drain: from the state and what was observed, the next
/// state and what to do.
///
/// - The drain starts by reading the configuration.
/// - Without a complete configuration or without a database it stops and
///   returns whether the widget was online, reporting nothing.
/// - Otherwise it reads the unsynced tallies. When there are none it reports
///   the widget online and returns `true`.
/// - It posts the tallies one at a time, oldest first, and marks each
///   accepted tally as synced before posting the next. When the whole list
///   has been sent it reads the configuration and the list again.
/// - The first rejected post ends the drain: the widget is reported offline
///   with the server's message and the drain returns `false`.
/// - A failure to lock or to read the list ends the drain with that error.
pub open spec fn drain_step(s: DrainerView, e: DrainEventView) -> (DrainerView, DrainActionView) {
    match (s.phase, e) {
        (DrainPhase::Idle, DrainEventView::Start) => (
            DrainerView { phase: DrainPhase::AwaitConfig, ..s },
            DrainActionView::ReadConfig,
        ),
        (DrainPhase::AwaitConfig, DrainEventView::LockFailed) => (
            DrainerView { phase: DrainPhase::Done, ..s },
            DrainActionView::Finish { report: None, result: Err(lock_poisoned_message()) },
        ),
        (DrainPhase::AwaitConfig, DrainEventView::Config { config, has_db, online }) => {
            if config is Some && config_complete(config->0) && has_db {
                (
                    DrainerView {
                        phase: DrainPhase::AwaitQueue,
                        base_url: config->0.base_url,
                        ..s
                    },
                    DrainActionView::ReadQueue,
                )
            } else {
                (
                    DrainerView { phase: DrainPhase::Done, ..s },
                    DrainActionView::Finish { report: None, result: Ok(online) },
                )
            }
        },
        (DrainPhase::AwaitQueue, DrainEventView::Queue(Err(m))) => (
            DrainerView { phase: DrainPhase::Done, ..s },
            DrainActionView::Finish { report: None, result: Err(m) },
        ),
        (DrainPhase::AwaitQueue, DrainEventView::Queue(Ok(q))) => {
            if q.len() == 0 {
                (
                    DrainerView { phase: DrainPhase::Done, ..s },
                    DrainActionView::Finish { report: Some((true, None)), result: Ok(true) },
                )
            } else {
                (
                    DrainerView { phase: DrainPhase::AwaitPost, queue: q, index: 0, ..s },
                    DrainActionView::Post { base_url: s.base_url, tally: q[0] },
                )
            }
        },
        (DrainPhase::AwaitPost, DrainEventView::Posted(Ok(()))) => (
            DrainerView { phase: DrainPhase::AwaitMark, ..s },
            DrainActionView::MarkSynced(s.queue[s.index as int].id),
        ),
        (DrainPhase::AwaitPost, DrainEventView::Posted(Err(m))) => (
            DrainerView { phase: DrainPhase::Done, ..s },
            DrainActionView::Finish { report: Some((false, Some(m))), result: Ok(false) },
        ),
        (DrainPhase::AwaitMark, DrainEventView::Marked) => {
            if s.index + 1 < s.queue.len() {
                (
                    DrainerView { phase: DrainPhase::AwaitPost, index: s.index + 1, ..s },
                    DrainActionView::Post {
                        base_url: s.base_url,
                        tally: s.queue[s.index + 1 as int],
                    },
                )
            } else {
                (DrainerView { phase: DrainPhase::AwaitConfig, ..s }, DrainActionView::ReadConfig)
            }
        },
        _ => (s, DrainActionView::Ignore),
    }
}

/// A drain's state is consistent: while a post is pending or being marked,
/// it points into the queue.
pub open spec fn drainer_wf(s: DrainerView) -> bool {
    (s.phase == DrainPhase::AwaitPost || s.phase == DrainPhase::AwaitMark) ==> s.index < s.queue.len()
}

impl Drainer {
    #[verifier::type_invariant]
    spec fn inv(self) -> bool {
        drainer_wf(self@)
    }

    /// A drain that has not started.
    pub fn new() -> (d: Drainer)
        ensures
            d@ == (DrainerView {
                phase: DrainPhase::Idle,
                base_url: Seq::empty(),
                queue: Seq::empty(),
                index: 0,
            }),
    {
        let d = Drainer {
            phase: DrainPhase::Idle,
            base_url: String::new(),
            queue: Vec::new(),
            index: 0,
        };
        assert(d@.queue =~= Seq::<QueuedTallyView>::empty());
        d
    }

    /// Where the drain stands.
    pub fn phase(&self) -> (p: DrainPhase)
        ensures
            p == self@.phase,
    {
        self.phase
    }

    /// Takes one step: see [`drain_step`].
    pub fn step(&mut self, event: DrainEvent) -> (action: DrainAction)
        ensures
            (final(self)@, action@) == drain_step(old(self)@, event@),
    {
        proof {
            use_type_invariant(&*self);
        }
        let phase = self.phase;
        match (phase, event) {
            (DrainPhase::Idle, DrainEvent::Start) => {
                self.phase = DrainPhase::AwaitConfig;
                DrainAction::ReadConfig
            },
            (DrainPhase::AwaitConfig, DrainEvent::LockFailed) => {
                self.phase = DrainPhase::Done;
                DrainAction::Finish {
                    report: None,
                    result: Err("Internal state lock was poisoned.".to_owned()),
                }
            },
            (DrainPhase::AwaitConfig, DrainEvent::Config { config, has_db, online }) => {
                match config {
                    Some(c) => {
                        if c.is_complete() && has_db {
                            self.base_url = c.base_url;
                            self.phase = DrainPhase::AwaitQueue;
                            DrainAction::ReadQueue
                        } else {
                            self.phase = DrainPhase::Done;
                            DrainAction::Finish { report: None, result: Ok(online) }
                        }
                    },
                    None => {
                        self.phase = DrainPhase::Done;
                        DrainAction::Finish { report: None, result: Ok(online) }
                    },
                }
            },
            (DrainPhase::AwaitQueue, DrainEvent::Queue(Err(m))) => {
                self.phase = DrainPhase::Done;
                DrainAction::Finish { report: None, result: Err(m) }
            },
            (DrainPhase::AwaitQueue, DrainEvent::Queue(Ok(q))) => {
                if q.len() == 0 {
                    self.phase = DrainPhase::Done;
                    DrainAction::Finish { report: Some((true, None)), result: Ok(true) }
                } else {
                    let first = q[0].duplicate();
                    let url = self.base_url.clone();
                    *self = Drainer {
                        phase: DrainPhase::AwaitPost,
                        base_url: url,
                        queue: q,
                        index: 0,
                    };
                    DrainAction::Post { base_url: self.base_url.clone(), tally: first }
                }
            },
            (DrainPhase::AwaitPost, DrainEvent::Posted(Ok(()))) => {
                let id = self.queue[self.index].id;
                self.phase = DrainPhase::AwaitMark;
                DrainAction::MarkSynced(id)
            },
            (DrainPhase::AwaitPost, DrainEvent::Posted(Err(m))) => {
                self.phase = DrainPhase::Done;
                DrainAction::Finish { report: Some((false, Some(m))), result: Ok(false) }
            },
            (DrainPhase::AwaitMark, DrainEvent::Marked) => {
                let n = self.queue.len();
                assert(self.index < n);
                if self.index + 1 < n {
                    let next = self.queue[self.index + 1].duplicate();
                    let i = self.index + 1;
                    self.index = i;
                    self.phase = DrainPhase::AwaitPost;
                    DrainAction::Post { base_url: self.base_url.clone(), tally: next }
                } else {
                    self.phase = DrainPhase::AwaitConfig;
                    DrainAction::ReadConfig
                }
            },
            (_, _) => DrainAction::Ignore,
        }
    }
}


// ---------------------------------------------------------------------------
// Runs of the machine and the laws that hold of them
// ---------------------------------------------------------------------------

/// The state reached and the actions taken when the events `evs` are fed,
/// one after another, to a drain in state `s`.
pub open spec fn drain_run(s: DrainerView, evs: Seq<DrainEventView>) -> (DrainerView, Seq<
    DrainActionView,
>)
    decreases evs.len(),
{
    if evs.len() == 0 {
        (s, Seq::empty())
    } else {
        let (s1, a) = drain_step(s, evs[0]);
        let (s2, rest) = drain_run(s1, evs.drop_first());
        (s2, seq![a] + rest)
    }
}

/// The tallies that the actions post, in order.
pub open spec fn posted(acts: Seq<DrainActionView>) -> Seq<QueuedTallyView>
    decreases acts.len(),
{
    if acts.len() == 0 {
        Seq::empty()
    } else {
        let head = match acts[0] {
            DrainActionView::Post { tally, .. } => seq![tally],
            _ => Seq::empty(),
        };
        head + posted(acts.drop_first())
    }
}

/// The ids that the actions mark as synced, in order.
pub open spec fn marked(acts: Seq<DrainActionView>) -> Seq<i64>
    decreases acts.len(),
{
    if acts.len() == 0 {
        Seq::empty()
    } else {
        let head = match acts[0] {
            DrainActionView::MarkSynced(id) => seq![id],
            _ => Seq::empty(),
        };
        head + marked(acts.drop_first())
    }
}

/// The ids of the tallies `q`.
pub open spec fn tally_ids(q: Seq<QueuedTallyView>) -> Seq<i64> {
    q.map_values(|t: QueuedTallyView| t.id)
}

/// No event in `evs` hands over a new list of tallies.
pub open spec fn no_new_queue(evs: Seq<DrainEventView>) -> bool {
    forall|i: int| 0 <= i < evs.len() ==> !(#[trigger] evs[i] is Queue)
}

proof fn lemma_no_new_queue_tail(evs: Seq<DrainEventView>)
    requires
        evs.len() > 0,
        no_new_queue(evs),
    ensures
        no_new_queue(evs.drop_first()),
        !(evs[0] is Queue),
{
    assert forall|i: int| 0 <= i < evs.drop_first().len() implies !(
    #[trigger] evs.drop_first()[i] is Queue) by {
        assert(evs.drop_first()[i] == evs[i + 1]);
    }
}

/// Outside a post, and with no new list handed over, a drain posts and marks
/// nothing more.
proof fn lemma_idle_posts_nothing(s: DrainerView, evs: Seq<DrainEventView>)
    requires
        s.phase != DrainPhase::AwaitPost,
        s.phase != DrainPhase::AwaitMark,
        no_new_queue(evs),
    ensures
        posted(drain_run(s, evs).1) == Seq::<QueuedTallyView>::empty(),
        marked(drain_run(s, evs).1) == Seq::<i64>::empty(),
    decreases evs.len(),
{
    if evs.len() > 0 {
        lemma_no_new_queue_tail(evs);
        let (s1, a) = drain_step(s, evs[0]);
        lemma_idle_posts_nothing(s1, evs.drop_first());
        let acts = drain_run(s, evs).1;
        assert(acts[0] == a);
        assert(acts.drop_first() == drain_run(s1, evs.drop_first()).1);
        assert(posted(acts) =~= Seq::<QueuedTallyView>::empty());
        assert(marked(acts) =~= Seq::<i64>::empty());
    }
}

/// The actions `acts` post `q[post_from..k]` and mark the ids of
/// `q[mark_from..m]`, for some `k` and `m` with `mark_from <= m <= k <= m + 1`.
pub open spec fn posts_and_marks(
    q: Seq<QueuedTallyView>,
    acts: Seq<DrainActionView>,
    post_from: int,
    mark_from: int,
) -> bool {
    exists|k: int, m: int|
        #![trigger q.subrange(post_from, k), q.subrange(mark_from, m)]
        {
            &&& mark_from <= m <= k <= m + 1
            &&& post_from <= k <= q.len()
            &&& posted(acts) == q.subrange(post_from, k)
            &&& marked(acts) == tally_ids(q.subrange(mark_from, m))
        }
}

/// While posting, a drain posts the rest of its list in order and marks
/// each tally that the server accepted, stopping at the first refusal.
proof fn lemma_posting_follows_queue(s: DrainerView, evs: Seq<DrainEventView>)
    requires
        s.phase == DrainPhase::AwaitPost || s.phase == DrainPhase::AwaitMark,
        s.index < s.queue.len(),
        no_new_queue(evs),
    ensures
        s.phase == DrainPhase::AwaitPost ==> posts_and_marks(
            s.queue,
            drain_run(s, evs).1,
            s.index + 1 as int,
            s.index as int,
        ),
        s.phase == DrainPhase::AwaitMark ==> posts_and_marks(
            s.queue,
            drain_run(s, evs).1,
            s.index + 1 as int,
            s.index + 1 as int,
        ),
    decreases evs.len(),
{
    let i = s.index as int;
    let q = s.queue;
    let acts = drain_run(s, evs).1;
    if evs.len() == 0 {
        let fu = if s.phase == DrainPhase::AwaitPost { i } else { i + 1 };
        assert(posted(acts) =~= q.subrange(i + 1, i + 1));
        assert(marked(acts) =~= tally_ids(q.subrange(fu, fu)));
        if s.phase == DrainPhase::AwaitPost {
            assert(posts_and_marks(q, acts, i + 1, i));
        } else {
            assert(posts_and_marks(q, acts, i + 1, i + 1));
        }
    } else {
        lemma_no_new_queue_tail(evs);
        let e = evs[0];
        let (s1, a) = drain_step(s, e);
        let rest = drain_run(s1, evs.drop_first()).1;
        assert(acts[0] == a);
        assert(acts.drop_first() == rest);
        if s.phase == DrainPhase::AwaitPost {
            match e {
                DrainEventView::Posted(Ok(())) => {
                    lemma_posting_follows_queue(s1, evs.drop_first());
                    let (k, m) = choose|k: int, m: int|
                        #![trigger q.subrange(i + 1, k), q.subrange(i + 1, m)]
                        {
                            &&& i + 1 <= m <= k <= m + 1
                            &&& i + 1 <= k <= q.len()
                            &&& posted(rest) == q.subrange(i + 1, k)
                            &&& marked(rest) == tally_ids(q.subrange(i + 1, m))
                        };
                    assert(posted(acts) =~= posted(rest));
                    assert(marked(acts) =~= seq![q[i].id] + marked(rest));
                    assert(tally_ids(q.subrange(i, m)) =~= seq![q[i].id] + tally_ids(
                        q.subrange(i + 1, m),
                    ));
                    assert(posts_and_marks(q, acts, i + 1, i));
                },
                DrainEventView::Posted(Err(_)) => {
                    lemma_idle_posts_nothing(s1, evs.drop_first());
                    assert(posted(acts) =~= q.subrange(i + 1, i + 1));
                    assert(marked(acts) =~= tally_ids(q.subrange(i, i)));
                    assert(posts_and_marks(q, acts, i + 1, i));
                },
                _ => {
                    lemma_posting_follows_queue(s1, evs.drop_first());
                    assert(posted(acts) =~= posted(rest));
                    assert(marked(acts) =~= marked(rest));
                    let (k, m) = choose|k: int, m: int|
                        #![trigger q.subrange(i + 1, k), q.subrange(i, m)]
                        {
                            &&& i <= m <= k <= m + 1
                            &&& i + 1 <= k <= q.len()
                            &&& posted(rest) == q.subrange(i + 1, k)
                            &&& marked(rest) == tally_ids(q.subrange(i, m))
                        };
                    assert(posts_and_marks(q, acts, i + 1, i));
                },
            }
        } else {
            match e {
                DrainEventView::Marked => {
                    if i + 1 < q.len() {
                        lemma_posting_follows_queue(s1, evs.drop_first());
                        let (k, m) = choose|k: int, m: int|
                            #![trigger q.subrange(i + 2, k), q.subrange(i + 1, m)]
                            {
                                &&& i + 1 <= m <= k <= m + 1
                                &&& i + 2 <= k <= q.len()
                                &&& posted(rest) == q.subrange(i + 2, k)
                                &&& marked(rest) == tally_ids(q.subrange(i + 1, m))
                            };
                        assert(posted(acts) =~= seq![q[i + 1]] + posted(rest));
                        assert(q.subrange(i + 1, k) =~= seq![q[i + 1]] + q.subrange(i + 2, k));
                        assert(marked(acts) =~= marked(rest));
                        assert(posts_and_marks(q, acts, i + 1, i + 1));
                    } else {
                        lemma_idle_posts_nothing(s1, evs.drop_first());
                        assert(posted(acts) =~= q.subrange(i + 1, i + 1));
                        assert(marked(acts) =~= tally_ids(q.subrange(i + 1, i + 1)));
                        assert(posts_and_marks(q, acts, i + 1, i + 1));
                    }
                },
                _ => {
                    lemma_posting_follows_queue(s1, evs.drop_first());
                    assert(posted(acts) =~= posted(rest));
                    assert(marked(acts) =~= marked(rest));
                    let (k, m) = choose|k: int, m: int|
                        #![trigger q.subrange(i + 1, k), q.subrange(i + 1, m)]
                        {
                            &&& i + 1 <= m <= k <= m + 1
                            &&& i + 1 <= k <= q.len()
                            &&& posted(rest) == q.subrange(i + 1, k)
                            &&& marked(rest) == tally_ids(q.subrange(i + 1, m))
                        };
                    assert(posts_and_marks(q, acts, i + 1, i + 1));
                },
            }
        }
    }
}

/// Each unsynced tally is posted at most once per list read: once a drain
/// has read the list `q`, and until it reads another one, the tallies it
/// posts are the first `k` of `q`, in order, and the ids it marks as synced
/// are those of the first `m`, where `m` is `k` or `k - 1` (only the last
/// post can be unanswered or refused). A tally is never marked before the
/// server has accepted it.
pub proof fn law_drain_posts_each_queued_tally_once(
    s: DrainerView,
    q: Seq<QueuedTallyView>,
    rest: Seq<DrainEventView>,
)
    requires
        s.phase == DrainPhase::AwaitQueue,
        no_new_queue(rest),
    ensures
        ({
            let acts = drain_run(s, seq![DrainEventView::Queue(Ok(q))] + rest).1;
            exists|k: int, m: int|
                #![trigger q.take(k), q.take(m)]
                {
                    &&& 0 <= m <= k <= q.len()
                    &&& k <= m + 1
                    &&& posted(acts) == q.take(k)
                    &&& marked(acts) == tally_ids(q.take(m))
                }
        }),
{
    let evs = seq![DrainEventView::Queue(Ok(q))] + rest;
    assert(evs.drop_first() =~= rest);
    assert(evs[0] == DrainEventView::Queue(Ok(q)));
    let (s1, a) = drain_step(s, evs[0]);
    let acts = drain_run(s, evs).1;
    let tail = drain_run(s1, rest).1;
    assert(acts[0] == a);
    assert(acts.drop_first() == tail);
    if q.len() == 0 {
        lemma_idle_posts_nothing(s1, rest);
        assert(posted(acts) =~= q.take(0));
        assert(marked(acts) =~= tally_ids(q.take(0)));
    } else {
        lemma_posting_follows_queue(s1, rest);
        let (k, m) = choose|k: int, m: int|
            #![trigger q.subrange(1, k), q.subrange(0, m)]
            {
                &&& 0 <= m <= k <= m + 1
                &&& 1 <= k <= q.len()
                &&& posted(tail) == q.subrange(1, k)
                &&& marked(tail) == tally_ids(q.subrange(0, m))
            };
        assert(posted(acts) =~= seq![q[0]] + posted(tail));
        assert(q.take(k) =~= seq![q[0]] + q.subrange(1, k));
        assert(marked(acts) =~= marked(tail));
        assert(q.take(m) =~= q.subrange(0, m));
        assert(posted(acts) == q.take(k) && marked(acts) == tally_ids(q.take(m)));
    }
}

/// A drain whose list is empty reports the widget online and returns
/// `true`; a drain whose post is refused reports the widget offline with
/// the server's message and returns `false`.
pub proof fn law_drain_reports_connectivity(s: DrainerView, e: DrainEventView)
    requires
        drainer_wf(s),
    ensures
        s.phase == DrainPhase::AwaitQueue && e == DrainEventView::Queue(Ok(Seq::empty()))
            ==> drain_step(s, e).1 == (DrainActionView::Finish {
            report: Some((true, None)),
            result: Ok(true),
        }),
        forall|m: Seq<char>|
            s.phase == DrainPhase::AwaitPost && e == DrainEventView::Posted(Err(m))
                ==> #[trigger] drain_step(s, e).1 == (DrainActionView::Finish {
                report: Some((false, Some(m))),
                result: Ok(false),
            }),
{
}

/// A finished drain stays finished: whatever is observed afterwards, it
/// changes nothing and asks for nothing.
pub proof fn law_finished_drain_is_inert(s: DrainerView, e: DrainEventView)
    requires
        s.phase == DrainPhase::Done,
    ensures
        drain_step(s, e) == (s, DrainActionView::Ignore),
{
}

// ---------------------------------------------------------------------------
// Refreshing the question types
// ---------------------------------------------------------------------------

/// What a refresh returns when fetching the question types failed with
/// `error`: the types cached in the database, or the error when there are
/// none.
pub fn refresh_fallback(error: String, cached: Vec<QuestionType>) -> (r: Result<
    Vec<QuestionType>,
    String,
>)
    ensures
        cached@.len() == 0 ==> (r matches Err(e) && e@ == error@),
        cached@.len() > 0 ==> (r matches Ok(v) && v@ == cached@),
{
    if cached.len() == 0 {
        Err(error)
    } else {
        Ok(cached)
    }
}

/// What the widget announces when its connection state changes.
#[derive(Debug, Clone)]
pub struct ConnectivityEvent {
    pub online: bool,
    pub last_error: Option<String>,
}

} // verus!
