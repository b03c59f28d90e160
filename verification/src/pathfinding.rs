//! The task scheduler and path-assignment resolver.
//!
//! A move request dispatches one asynchronous path computation, tracked here
//! by its owner and a monotonically increasing sequence number. Once per
//! simulation tick the tracked tasks are polled: still-running tasks are
//! retained untouched, finished tasks are removed — exactly once — and their
//! results resolved. A result is only installed if it comes from the most
//! recently dispatched request for its owner (the supersession rule), the
//! owner still exists, and a path was actually found; the path's first
//! waypoint, the query's start position, is dropped before installation.
//!
//! The polling pass never waits on a computation: it consumes one
//! already-gathered status per task and finishes in a single bounded sweep,
//! which Verus checks through the loop's termination measure.

use vstd::prelude::*;
use crate::geometry::Point;
use crate::movement::MovementPath;

verus! {

/// A move request: the selected entity and the point it should reach.
#[derive(Clone, Copy)]
pub struct MoveRequest {
    pub requester: u64,
    pub target: Point,
}

/// The payload of a click-to-move event: the world position hit, if any.
pub struct MoveEvent(pub Option<Point>);

impl MoveRequest {
    /// The request a click event yields for the selected entity; a click
    /// that hit nothing yields no request.
    pub fn from_event(requester: u64, ev: &MoveEvent) -> (r: Option<MoveRequest>)
        ensures
            match ev.0 {
                Some(t) => r == Some(MoveRequest { requester, target: t }),
                None => r is None,
            },
    {
        match ev.0 {
            Some(t) => Some(MoveRequest { requester, target: t }),
            None => None,
        }
    }
}

/// One dispatched, still-tracked path computation: the entity that asked,
/// and the sequence number its request was given.
#[derive(Clone, Copy, Debug, PartialEq, Eq, Structural)]
pub struct PathTask {
    pub owner: u64,
    pub seq: u64,
}

/// What one non-blocking poll attempt found for a tracked task.
pub enum PollStatus {
    /// The computation has not finished; the task stays tracked.
    Pending,
    /// The computation finished with the given result; `None` means no path
    /// was found or the surface snapshot could not be read.
    Done(Option<MovementPath>),
}

/// The ghost shape of a poll status: `None` while pending, otherwise the
/// finished result's waypoints.
impl View for PollStatus {
    type V = Option<Option<Seq<Point>>>;

    open spec fn view(&self) -> Option<Option<Seq<Point>>> {
        match self {
            PollStatus::Pending => None,
            PollStatus::Done(res) => Some(
                match res {
                    Some(p) => Some(p@),
                    None => None,
                },
            ),
        }
    }
}

/// What the resolver decided for one completed task.
pub enum Resolution {
    /// The result was current and the owner alive: this path, already
    /// trimmed of its leading start waypoint, is to be installed.
    Install { owner: u64, path: MovementPath },
    /// No path was found; the owner's existing motion is left untouched.
    NoPath { owner: u64 },
    /// A newer request for the same owner superseded this result.
    Stale { owner: u64 },
    /// The owning entity no longer exists.
    MissingOwner { owner: u64 },
}

/// The ghost shape of a resolution.
pub enum ResolutionGhost {
    Install { owner: u64, path: Seq<Point> },
    NoPath { owner: u64 },
    Stale { owner: u64 },
    MissingOwner { owner: u64 },
}

impl View for Resolution {
    type V = ResolutionGhost;

    open spec fn view(&self) -> ResolutionGhost {
        match self {
            Resolution::Install { owner, path } => ResolutionGhost::Install {
                owner: *owner,
                path: path@,
            },
            Resolution::NoPath { owner } => ResolutionGhost::NoPath { owner: *owner },
            Resolution::Stale { owner } => ResolutionGhost::Stale { owner: *owner },
            Resolution::MissingOwner { owner } => ResolutionGhost::MissingOwner { owner: *owner },
        }
    }
}

/// Front-first lookup in an association list; the most recently recorded
/// binding for a key wins.
pub open spec fn assoc_find(m: Seq<(u64, u64)>, k: u64) -> Option<u64>
    decreases m.len(),
{
    if m.len() == 0 {
        None
    } else if m[0].0 == k {
        Some(m[0].1)
    } else {
        assoc_find(m.drop_first(), k)
    }
}

/// The scheduler: tracked tasks in dispatch order, the last dispatched
/// sequence number per owner, and the sequence counter itself.
pub struct TaskScheduler {
    tasks: Vec<PathTask>,
    latest: Vec<(u64, u64)>,
    next_seq: u64,
}

impl TaskScheduler {
    /// The tracked tasks, in dispatch order.
    pub closed spec fn tasks_view(&self) -> Seq<PathTask> {
        self.tasks@
    }

    /// The sequence number of the last request dispatched for `owner`, if
    /// any was ever dispatched.
    pub closed spec fn latest_of(&self, owner: u64) -> Option<u64> {
        assoc_find(self.latest@, owner)
    }

    /// The sequence number the next dispatched request will be given.
    pub closed spec fn next_seq_view(&self) -> u64 {
        self.next_seq
    }

    /// Whether `task` is accounted for by the per-owner records: its owner
    /// has a recorded last dispatch at least as recent as the task itself.
    pub open spec fn covered(&self, task: PathTask) -> bool {
        match self.latest_of(task.owner) {
            Some(l) => task.seq <= l,
            None => false,
        }
    }

    /// The scheduler invariant: tracked tasks carry strictly increasing
    /// sequence numbers (dispatch order), every number ever handed out is
    /// below the counter, and every tracked task is accounted for by its
    /// owner's last-dispatch record.
    pub closed spec fn wf(&self) -> bool {
        &&& forall|a: int, b: int|
            0 <= a < b < self.tasks@.len() ==> self.tasks@[a].seq < self.tasks@[b].seq
        &&& forall|a: int| 0 <= a < self.tasks@.len() ==> (#[trigger] self.tasks@[a]).seq
            < self.next_seq
        &&& forall|a: int| 0 <= a < self.latest@.len() ==> (#[trigger] self.latest@[a]).1
            < self.next_seq
        &&& forall|a: int| 0 <= a < self.tasks@.len() ==> self.covered(#[trigger] self.tasks@[a])
    }

    /// A scheduler tracking nothing.
    pub fn new() -> (r: Self)
        ensures
            r.wf(),
            r.tasks_view() == Seq::<PathTask>::empty(),
            forall|o: u64| r.latest_of(o) is None,
            r.next_seq_view() == 0,
    {
        let r = TaskScheduler { tasks: Vec::new(), latest: Vec::new(), next_seq: 0 };
        proof {
            assert(r.tasks@ =~= Seq::<PathTask>::empty());
        }
        r
    }

    /// Accepts a move request: hands it the next sequence number, records it
    /// as its owner's most recent request, and tracks the task. Dispatch
    /// never fails; a failed computation surfaces later as a completed task
    /// with no path.
    pub fn dispatch(&mut self, req: MoveRequest) -> (t: PathTask)
        requires
            old(self).wf(),
            old(self).next_seq_view() < u64::MAX,
        ensures
            final(self).wf(),
            t.owner == req.requester,
            t.seq == old(self).next_seq_view(),
            final(self).tasks_view() == old(self).tasks_view().push(t),
            final(self).latest_of(req.requester) == Some(t.seq),
            forall|o: u64|
                o != req.requester ==> final(self).latest_of(o) == old(self).latest_of(o),
            final(self).next_seq_view() == old(self).next_seq_view() + 1,
    {
        let seq_no = self.next_seq;
        self.next_seq = self.next_seq + 1;
        let t = PathTask { owner: req.requester, seq: seq_no };
        self.tasks.push(t);
        self.latest.insert(0, (req.requester, seq_no));
        proof {
            assert(self.latest@.drop_first() =~= old(self).latest@);
            assert(forall|o: u64|
                o != req.requester ==> self.latest_of(o) == old(self).latest_of(o));
        }
        t
    }

    /// How many tasks are currently tracked.
    pub fn tracked_count(&self) -> (r: usize)
        ensures
            r == self.tasks_view().len(),
    {
        self.tasks.len()
    }

    /// The sequence number the next dispatched request will be given.
    pub fn next_seq(&self) -> (r: u64)
        ensures
            r == self.next_seq_view(),
    {
        self.next_seq
    }

    /// Looks up the last dispatched sequence number for `owner`.
    fn lookup_latest(&self, owner: u64) -> (r: Option<u64>)
        ensures
            r == self.latest_of(owner),
    {
        let mut i: usize = 0;
        proof {
            assert(self.latest@.skip(0) =~= self.latest@);
        }
        while i < self.latest.len()
            invariant
                i <= self.latest@.len(),
                assoc_find(self.latest@.skip(i as int), owner) == assoc_find(
                    self.latest@,
                    owner,
                ),
            decreases self.latest@.len() - i,
        {
            let entry = self.latest[i];
            if entry.0 == owner {
                return Some(entry.1);
            }
            proof {
                assert(self.latest@.skip(i as int).drop_first() =~= self.latest@.skip(
                    i as int + 1,
                ));
            }
            i = i + 1;
        }
        None
    }
}

/// A found path with its leading waypoint — the query's start position —
/// removed; an empty path stays empty.
pub open spec fn trim_start(p: Seq<Point>) -> Seq<Point> {
    if p.len() == 0 {
        p
    } else {
        p.drop_first()
    }
}

/// What the resolver decides for completed task `task` of scheduler `s`,
/// whose computation returned `result`, while `live` lists the entities that
/// still exist: no path means no assignment; a dead owner's result is
/// discarded; a result superseded by a newer request for the same owner is
/// discarded; otherwise the path, trimmed of its start waypoint, is
/// installed.
pub open spec fn decide_spec(
    s: TaskScheduler,
    task: PathTask,
    result: Option<Seq<Point>>,
    live: Seq<u64>,
) -> ResolutionGhost {
    match result {
        None => ResolutionGhost::NoPath { owner: task.owner },
        Some(p) => {
            if !live.contains(task.owner) {
                ResolutionGhost::MissingOwner { owner: task.owner }
            } else {
                match s.latest_of(task.owner) {
                    Some(l) => if task.seq >= l {
                        ResolutionGhost::Install { owner: task.owner, path: trim_start(p) }
                    } else {
                        ResolutionGhost::Stale { owner: task.owner }
                    },
                    // No dispatch on record for this owner, so nothing newer
                    // can supersede the result; unreachable for tasks this
                    // scheduler dispatched itself.
                    None => ResolutionGhost::Install { owner: task.owner, path: trim_start(p) },
                }
            }
        },
    }
}

/// Whether `v` holds `x`.
fn contains_u64(v: &Vec<u64>, x: u64) -> (r: bool)
    ensures
        r == v@.contains(x),
{
    let mut i: usize = 0;
    while i < v.len()
        invariant
            i <= v@.len(),
            forall|j: int| 0 <= j < i ==> v@[j] != x,
        decreases v@.len() - i,
    {
        if v[i] == x {
            return true;
        }
        i = i + 1;
    }
    false
}

/// The ghost view of a completed computation's result.
pub open spec fn result_view(result: Option<MovementPath>) -> Option<Seq<Point>> {
    match result {
        Some(p) => Some(p@),
        None => None,
    }
}

impl TaskScheduler {
    /// Resolves one completed task's result, applying the supersession and
    /// owner-existence rules and trimming the installed path's start
    /// waypoint. Pure decision: tracking is updated by the polling pass.
    pub fn resolve(&self, task: PathTask, result: Option<MovementPath>, live: &Vec<u64>) -> (r:
        Resolution)
        ensures
            r@ == decide_spec(*self, task, result_view(result), live@),
    {
        match result {
            None => Resolution::NoPath { owner: task.owner },
            Some(mut p) => {
                if !contains_u64(live, task.owner) {
                    Resolution::MissingOwner { owner: task.owner }
                } else {
                    let install = match self.lookup_latest(task.owner) {
                        Some(l) => task.seq >= l,
                        None => true,
                    };
                    if install {
                        p.remove_first();
                        Resolution::Install { owner: task.owner, path: p }
                    } else {
                        Resolution::Stale { owner: task.owner }
                    }
                }
            },
        }
    }
}

/// What one polling pass of scheduler `s` does, processed front to back:
/// the tasks that stay tracked (those still pending) and, for each finished
/// task in dispatch order, its resolution.
pub open spec fn poll_spec(
    s: TaskScheduler,
    tasks: Seq<PathTask>,
    sts: Seq<Option<Option<Seq<Point>>>>,
    live: Seq<u64>,
) -> (Seq<PathTask>, Seq<ResolutionGhost>)
    decreases tasks.len(),
{
    if tasks.len() == 0 {
        (Seq::empty(), Seq::empty())
    } else {
        let rest = poll_spec(s, tasks.drop_first(), sts.drop_first(), live);
        match sts[0] {
            None => (seq![tasks[0]] + rest.0, rest.1),
            Some(res) => (rest.0, seq![decide_spec(s, tasks[0], res, live)] + rest.1),
        }
    }
}

/// The ghost shapes of a vector of poll statuses.
pub open spec fn statuses_view(v: Seq<PollStatus>) -> Seq<Option<Option<Seq<Point>>>> {
    v.map_values(|st: PollStatus| st@)
}

/// The ghost shapes of a vector of resolutions.
pub open spec fn resolutions_view(v: Seq<Resolution>) -> Seq<ResolutionGhost> {
    v.map_values(|x: Resolution| x@)
}

impl TaskScheduler {
    /// One polling pass, run once per simulation tick. `statuses` holds the
    /// outcome of a single non-blocking check per tracked task, in dispatch
    /// order; `live` lists the entities that still exist. Pending tasks stay
    /// tracked, each finished task is removed and resolved exactly once, and
    /// the resolutions come back in dispatch order — so of two tasks of the
    /// same owner finishing in the same pass, the earlier-dispatched one is
    /// resolved first. The pass itself never waits: it is one sweep over the
    /// tracked tasks, whose termination Verus checks.
    pub fn poll_once(&mut self, statuses: Vec<PollStatus>, live: &Vec<u64>) -> (out: Vec<
        Resolution,
    >)
        requires
            old(self).wf(),
            statuses@.len() == old(self).tasks_view().len(),
        ensures
            final(self).wf(),
            final(self).tasks_view() == poll_spec(
                *old(self),
                old(self).tasks_view(),
                statuses_view(statuses@),
                live@,
            ).0,
            resolutions_view(out@) == poll_spec(
                *old(self),
                old(self).tasks_view(),
                statuses_view(statuses@),
                live@,
            ).1,
            forall|o: u64| final(self).latest_of(o) == old(self).latest_of(o),
            final(self).next_seq_view() == old(self).next_seq_view(),
    {
        let ghost s0 = *self;
        let ghost sts0 = statuses_view(statuses@);
        let mut remaining = statuses;
        let mut kept: Vec<PathTask> = Vec::new();
        let mut out: Vec<Resolution> = Vec::new();
        let mut i: usize = 0;
        proof {
            assert(s0.tasks@.skip(0) =~= s0.tasks@);
            assert(sts0.skip(0) =~= sts0);
            assert(kept@ + poll_spec(s0, s0.tasks@, sts0, live@).0 =~= poll_spec(
                s0,
                s0.tasks@,
                sts0,
                live@,
            ).0);
            assert(resolutions_view(out@) + poll_spec(s0, s0.tasks@, sts0, live@).1 =~= poll_spec(
                s0,
                s0.tasks@,
                sts0,
                live@,
            ).1);
            assert(remaining@.map_values(|st: PollStatus| st@) =~= sts0.skip(0));
        }
        while i < self.tasks.len()
            invariant
                *self == s0,
                s0.wf(),
                i <= s0.tasks@.len(),
                sts0.len() == s0.tasks@.len(),
                remaining@.map_values(|st: PollStatus| st@) == sts0.skip(i as int),
                poll_spec(s0, s0.tasks@, sts0, live@).0 == kept@ + poll_spec(
                    s0,
                    s0.tasks@.skip(i as int),
                    sts0.skip(i as int),
                    live@,
                ).0,
                poll_spec(s0, s0.tasks@, sts0, live@).1 == resolutions_view(out@) + poll_spec(
                    s0,
                    s0.tasks@.skip(i as int),
                    sts0.skip(i as int),
                    live@,
                ).1,
                forall|a: int|
                    0 <= a < kept@.len() ==> exists|b: int|
                        0 <= b < i && #[trigger] kept@[a] == s0.tasks@[b],
                forall|a: int, b: int|
                    0 <= a < b < kept@.len() ==> kept@[a].seq < kept@[b].seq,
            decreases s0.tasks@.len() - i,
        {
            let t = self.tasks[i];
            let st = remaining.remove(0);
            let ghost tsk_i = s0.tasks@.skip(i as int);
            let ghost sts_i = sts0.skip(i as int);
            proof {
                assert(remaining@.map_values(|st2: PollStatus| st2@) =~= sts_i.drop_first());
                assert(sts_i.drop_first() =~= sts0.skip(i as int + 1));
                assert(tsk_i.drop_first() =~= s0.tasks@.skip(i as int + 1));
                assert(tsk_i[0] == s0.tasks@[i as int]);
                assert(sts_i[0] == st@);
            }
            match st {
                PollStatus::Pending => {
                    let ghost kept0 = kept@;
                    kept.push(t);
                    proof {
                        let rest = poll_spec(
                            s0,
                            s0.tasks@.skip(i as int + 1),
                            sts0.skip(i as int + 1),
                            live@,
                        );
                        assert(poll_spec(s0, tsk_i, sts_i, live@).0 == seq![t] + rest.0);
                        assert(poll_spec(s0, tsk_i, sts_i, live@).1 == rest.1);
                        assert(kept@ =~= kept0.push(t));
                        assert(kept0 + (seq![t] + rest.0) =~= kept@ + rest.0);
                        assert(forall|a: int|
                            0 <= a < kept@.len() ==> exists|b: int|
                                0 <= b < i + 1 && #[trigger] kept@[a] == s0.tasks@[b]);
                    }
                },
                PollStatus::Done(res) => {
                    let ghost resv = result_view(res);
                    let r = self.resolve(t, res, live);
                    let ghost out0 = out@;
                    out.push(r);
                    proof {
                        let rest = poll_spec(
                            s0,
                            s0.tasks@.skip(i as int + 1),
                            sts0.skip(i as int + 1),
                            live@,
                        );
                        assert(st@ == Some(resv));
                        assert(poll_spec(s0, tsk_i, sts_i, live@).0 == rest.0);
                        assert(poll_spec(s0, tsk_i, sts_i, live@).1 == seq![decide_spec(
                            s0,
                            t,
                            resv,
                            live@,
                        )] + rest.1);
                        assert(resolutions_view(out@) =~= resolutions_view(out0).push(r@));
                        assert(resolutions_view(out0) + (seq![decide_spec(s0, t, resv, live@)]
                            + rest.1) =~= resolutions_view(out@) + rest.1);
                    }
                },
            }
            i = i + 1;
        }
        proof {
            assert(s0.tasks@.skip(i as int) =~= Seq::<PathTask>::empty());
            assert(sts0.skip(i as int) =~= Seq::<Option<Option<Seq<Point>>>>::empty());
            assert(kept@ + poll_spec(s0, s0.tasks@.skip(i as int), sts0.skip(i as int), live@).0
                =~= kept@);
            assert(resolutions_view(out@) + poll_spec(
                s0,
                s0.tasks@.skip(i as int),
                sts0.skip(i as int),
                live@,
            ).1 =~= resolutions_view(out@));
        }
        self.tasks = kept;
        out
    }
}

/// Supersession: while a newer request for the same owner is still tracked,
/// an earlier request's result is never installed, whatever the computation
/// returned and whichever entities still exist — the newest command wins and
/// a late-arriving stale result cannot override it.
pub proof fn lemma_supersession(
    s: TaskScheduler,
    i: int,
    j: int,
    result: Option<Seq<Point>>,
    live: Seq<u64>,
)
    requires
        s.wf(),
        0 <= i < j < s.tasks_view().len(),
        s.tasks_view()[i].owner == s.tasks_view()[j].owner,
    ensures
        !(decide_spec(s, s.tasks_view()[i], result, live) is Install),
{
    assert(s.tasks_view()[i].seq < s.tasks_view()[j].seq);
    assert(s.covered(s.tasks_view()[j]));
}

/// The complement of supersession: the most recently dispatched request's
/// result, once complete, is installed — trimmed of its start waypoint —
/// provided a path was found and the owner still exists.
pub proof fn lemma_newest_applies(s: TaskScheduler, t: PathTask, p: Seq<Point>, live: Seq<u64>)
    requires
        s.latest_of(t.owner) == Some(t.seq),
        live.contains(t.owner),
    ensures
        decide_spec(s, t, Some(p), live) == (ResolutionGhost::Install {
            owner: t.owner,
            path: trim_start(p),
        }),
{
}

/// Every task a polling pass keeps tracked was tracked before the pass.
proof fn lemma_poll_kept_subset(
    s: TaskScheduler,
    tasks: Seq<PathTask>,
    sts: Seq<Option<Option<Seq<Point>>>>,
    live: Seq<u64>,
)
    ensures
        forall|t: PathTask|
            #[trigger] poll_spec(s, tasks, sts, live).0.contains(t) ==> tasks.contains(t),
    decreases tasks.len(),
{
    if tasks.len() > 0 {
        lemma_poll_kept_subset(s, tasks.drop_first(), sts.drop_first(), live);
        let kept = poll_spec(s, tasks, sts, live).0;
        let rest = poll_spec(s, tasks.drop_first(), sts.drop_first(), live);
        assert forall|t: PathTask| #[trigger] kept.contains(t) implies tasks.contains(t) by {
            if sts[0] is None {
                let idx = choose|idx: int| 0 <= idx < kept.len() && kept[idx] == t;
                if idx == 0 {
                    assert(tasks[0] == t);
                } else {
                    assert(rest.0[idx - 1] == t);
                    assert(rest.0.contains(t));
                    let jdx = choose|jdx: int|
                        0 <= jdx < tasks.drop_first().len() && tasks.drop_first()[jdx] == t;
                    assert(tasks[jdx + 1] == t);
                }
            } else {
                assert(rest.0.contains(t));
                let jdx = choose|jdx: int|
                    0 <= jdx < tasks.drop_first().len() && tasks.drop_first()[jdx] == t;
                assert(tasks[jdx + 1] == t);
            }
        }
    }
}

/// The inductive heart of the no-double-delivery rule, over any task
/// sequence with strictly increasing sequence numbers.
proof fn lemma_finished_not_kept(
    s: TaskScheduler,
    tasks: Seq<PathTask>,
    sts: Seq<Option<Option<Seq<Point>>>>,
    live: Seq<u64>,
    i: int,
)
    requires
        forall|a: int, b: int| 0 <= a < b < tasks.len() ==> tasks[a].seq < tasks[b].seq,
        sts.len() == tasks.len(),
        0 <= i < tasks.len(),
        sts[i] is Some,
    ensures
        !poll_spec(s, tasks, sts, live).0.contains(tasks[i]),
    decreases tasks.len(),
{
    let kept = poll_spec(s, tasks, sts, live).0;
    let rest = poll_spec(s, tasks.drop_first(), sts.drop_first(), live);
    if i == 0 {
        lemma_poll_kept_subset(s, tasks.drop_first(), sts.drop_first(), live);
        assert(kept == rest.0);
        if rest.0.contains(tasks[0]) {
            assert(tasks.drop_first().contains(tasks[0]));
            let jdx = choose|jdx: int|
                0 <= jdx < tasks.drop_first().len() && tasks.drop_first()[jdx] == tasks[0];
            assert(tasks[jdx + 1] == tasks[0]);
            assert(tasks[0].seq < tasks[jdx + 1].seq);
        }
    } else {
        assert(tasks.drop_first()[i - 1] == tasks[i]);
        assert(sts.drop_first()[i - 1] == sts[i]);
        lemma_finished_not_kept(s, tasks.drop_first(), sts.drop_first(), live, i - 1);
        if sts[0] is None {
            assert(kept == seq![tasks[0]] + rest.0);
            if kept.contains(tasks[i]) {
                let idx = choose|idx: int| 0 <= idx < kept.len() && kept[idx] == tasks[i];
                if idx == 0 {
                    assert(tasks[0] == tasks[i]);
                    assert(tasks[0].seq < tasks[i].seq);
                } else {
                    assert(rest.0[idx - 1] == tasks[i]);
                    assert(rest.0.contains(tasks[i]));
                }
            }
        } else {
            assert(kept == rest.0);
        }
    }
}

/// No double delivery: a task whose computation a polling pass found
/// finished is removed from tracking by that very pass, so no later pass can
/// resolve — or even see — it again; its result is applied or discarded
/// exactly once.
pub proof fn lemma_no_double_delivery(
    s: TaskScheduler,
    sts: Seq<Option<Option<Seq<Point>>>>,
    live: Seq<u64>,
    i: int,
)
    requires
        s.wf(),
        sts.len() == s.tasks_view().len(),
        0 <= i < s.tasks_view().len(),
        sts[i] is Some,
    ensures
        !poll_spec(s, s.tasks_view(), sts, live).0.contains(s.tasks_view()[i]),
{
    lemma_finished_not_kept(s, s.tasks_view(), sts, live, i);
}

/// A polling pass accounts for every tracked task exactly once: each task
/// either stays tracked or contributes exactly one resolution.
pub proof fn lemma_poll_accounts_for_all(
    s: TaskScheduler,
    tasks: Seq<PathTask>,
    sts: Seq<Option<Option<Seq<Point>>>>,
    live: Seq<u64>,
)
    ensures
        poll_spec(s, tasks, sts, live).0.len() + poll_spec(s, tasks, sts, live).1.len()
            == tasks.len(),
    decreases tasks.len(),
{
    if tasks.len() > 0 {
        lemma_poll_accounts_for_all(s, tasks.drop_first(), sts.drop_first(), live);
    }
}

} // verus!
