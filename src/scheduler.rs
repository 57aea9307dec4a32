use vstd::prelude::*;

use crate::lease::{
    counts_of, expected_of, is_live, over, threshold_of, pick_steal_target, pick_victim, plan_steal, since_ts, steal_allowed,
    steal_outcome, ScheduleFlow, ScheduleMode, ScheduleResult, ScheduleStep, StealRound, StealStep,
};
use crate::model::{SchedulerMeta, TaskInfo, WorkerInfo};
use crate::store::{
    apply_lease, fresh_uuid, heartbeat, holds_lease, info_of, is_peer_grouping, lease_info, lease_infos, live,
    owned_by, LeaseUpdate, TaskDoc, TaskStore,
};

verus! {

/// A locally running task: its lease incarnation, the runner, and whether the
/// runner is still alive.
#[derive(Debug, Clone)]
pub struct TaskHandle<H> {
    pub info: TaskInfo,
    pub runner: H,
    pub alive: bool,
}

/// The state of one scheduler: its identity and the handles it owns.
#[derive(Debug, Clone)]
pub struct ScheduleContext<H> {
    pub id: u128,
    pub actors: Vec<TaskHandle<H>>,
}

pub open spec fn alive_handle<H>() -> spec_fn(TaskHandle<H>) -> bool {
    |h: TaskHandle<H>| h.alive
}

pub open spec fn dead_handle<H>() -> spec_fn(TaskHandle<H>) -> bool {
    |h: TaskHandle<H>| !h.alive
}

/// The lease incarnations of a run of handles.
pub open spec fn handle_infos<H>(s: Seq<TaskHandle<H>>) -> Seq<TaskInfo> {
    s.map_values(|h: TaskHandle<H>| h.info)
}

/// What a steal decided, given the group-by `peers` it saw: it is idle
/// exactly when no steal is allowed, and a stolen document was live and held
/// by a peer above the threshold; it alone changed.
pub open spec fn stole_as_planned(
    before: Seq<TaskDoc>,
    after: Seq<TaskDoc>,
    since: i64,
    meta: SchedulerMeta,
    u: LeaseUpdate,
    peers: Seq<WorkerInfo>,
    r: ScheduleResult<TaskDoc>,
) -> bool {
    let total = before.filter(live(since)).len();
    let threshold = threshold_of(meta.actor_count as nat, expected_of(total, peers.len()));
    &&& (r is Idle <==> !steal_allowed(total, meta.actor_count as nat, counts_of(peers)))
    &&& (r matches ScheduleResult::Acquired(d) ==> exists|i: int, k: int|
        0 <= i < before.len() && 0 <= k < peers.len() && is_live(before[i].heartbeat_ms, since)
            && before[i].owner_uuid == Some(peers[k].id) && peers[k].count > threshold && d
            == apply_lease(before[i], u) && after == before.update(i, d))
}

/// One steal against the store, as the scheduler `meta` at `since`, with the
/// lease update `u`.
///
/// Counts live tasks, groups them by holder, plans, picks a victim and a
/// task at random, and moves the task with a conditional update. On one
/// consistent store the listing agrees with the group-by, so no conflict
/// arises.
pub fn steal_once(store: &mut TaskStore, meta: SchedulerMeta, since: i64, u: LeaseUpdate) -> (r:
    ScheduleResult<TaskDoc>)
    requires
        old(store).wf(),
        u.owner_uuid == meta.id,
    ensures
        final(store).wf(),
        !(r is Conflict),
        exists|peers: Seq<WorkerInfo>|
            #[trigger] is_peer_grouping(old(store).docs@, since, meta.id, peers) && stole_as_planned(
                old(store).docs@,
                final(store).docs@,
                since,
                meta,
                u,
                peers,
                r,
            ),
        r is Idle ==> final(store).docs@ == old(store).docs@,
        r matches ScheduleResult::Acquired(d) ==> exists|i: int|
            0 <= i < old(store).docs@.len() && is_live(old(store).docs@[i].heartbeat_ms, since)
                && old(store).docs@[i].owner_uuid is Some && old(store).docs@[i].owner_uuid->Some_0
                != meta.id && d == apply_lease(old(store).docs@[i], u) && final(store).docs@ == old(store).docs@.update(i, d),
{
    let ghost docs0 = store.docs@;
    let total = store.count_live(since);
    let peers = store.peer_counts(since, meta.id);
    let plan = plan_steal(total, meta, &peers);
    match plan {
        None => ScheduleResult::Idle,
        Some(plan) => {
            let victim = pick_victim(&plan);
            match victim {
                None => ScheduleResult::Idle,
                Some(v) => {
                    proof {
                        peers@.lemma_filter_contains_rev(over(plan.threshold as nat), v);
                    }
                    let tasks = store.live_tasks_of(v.id, since);
                    let ghost f = docs0.filter(owned_by(v.id, since));
                    let target = pick_steal_target(&tasks, plan.threshold);
                    match target {
                        ScheduleResult::Acquired(t) => {
                            proof {
                                let k = choose|k: int| 0 <= k < tasks@.len() && tasks@[k] == t;
                                assert(lease_infos(f)[k] == lease_info(f[k]));
                                docs0.lemma_filter_pred(owned_by(v.id, since), k);
                                docs0.lemma_filter_contains_rev(owned_by(v.id, since), f[k]);
                                let j = choose|j: int| 0 <= j < docs0.len() && docs0[j] == f[k];
                                assert(holds_lease(docs0[j], t));
                            }
                            let updated = store.cas_lease(t, u);
                            proof {
                                if let Some(d) = updated {
                                    let i = choose|i: int|
                                        0 <= i < docs0.len() && holds_lease(docs0[i], t) && d
                                            == apply_lease(docs0[i], u) && store.docs@ == docs0.update(
                                            i,
                                            d,
                                        );
                                    let k = choose|k: int| 0 <= k < tasks@.len() && tasks@[k] == t;
                                    docs0.lemma_filter_pred(owned_by(v.id, since), k);
                                    docs0.lemma_filter_contains_rev(owned_by(v.id, since), f[k]);
                                    let j = choose|j: int| 0 <= j < docs0.len() && docs0[j] == f[k];
                                    assert(docs0[j].doc_id == docs0[i].doc_id);
                                    if i != j {
                                        if i < j {
                                            assert(docs0[i].doc_id != docs0[j].doc_id);
                                        } else {
                                            assert(docs0[j].doc_id != docs0[i].doc_id);
                                        }
                                    }
                                }
                            }
                            let res = steal_outcome(updated);
                            proof {
                                if let Some(d) = updated {
                                    let i = choose|i: int|
                                        0 <= i < docs0.len() && holds_lease(docs0[i], t) && d
                                            == apply_lease(docs0[i], u) && store.docs@ == docs0.update(i, d);
                                    let k = choose|k: int| 0 <= k < tasks@.len() && tasks@[k] == t;
                                    docs0.lemma_filter_pred(owned_by(v.id, since), k);
                                    docs0.lemma_filter_contains_rev(owned_by(v.id, since), f[k]);
                                    let j = choose|j: int| 0 <= j < docs0.len() && docs0[j] == f[k];
                                    assert(i == j);
                                    let m = choose|m: int| 0 <= m < peers@.len() && peers@[m] == v;
                                    assert(docs0[i].owner_uuid == Some(peers@[m].id));
                                    assert(peers@[m].count > plan.threshold);
                                    assert(stole_as_planned(docs0, store.docs@, since, meta, u, peers@, res));
                                }
                            }
                            res
                        },
                        _ => ScheduleResult::Idle,
                    }
                },
            }
        },
    }
}

impl<H> ScheduleContext<H> {
    /// Lease incarnations of the handles are unique.
    pub open spec fn wf(&self) -> bool {
        forall|a: int, b: int|
            0 <= a < b < self.actors@.len() ==> (#[trigger] self.actors@[a]).info != (
            #[trigger] self.actors@[b]).info
    }

    /// A scheduler with a freshly drawn identity and no handles.
    pub fn new() -> (r: ScheduleContext<H>)
        ensures
            r.wf(),
            r.actors@.len() == 0,
    {
        ScheduleContext { id: fresh_uuid(), actors: Vec::new() }
    }

    /// A scheduler with the given identity and no handles.
    pub fn with_id(id: u128) -> (r: ScheduleContext<H>)
        ensures
            r.wf(),
            r.id == id,
            r.actors@.len() == 0,
    {
        ScheduleContext { id, actors: Vec::new() }
    }

    pub fn id(&self) -> (r: u128)
        ensures
            r == self.id,
    {
        self.id
    }

    /// What the lease protocol is told about this scheduler.
    pub fn meta(&self) -> (r: SchedulerMeta)
        ensures
            r.id == self.id,
            r.actor_count == self.actors@.len(),
    {
        SchedulerMeta { id: self.id, actor_count: self.actors.len() }
    }

    /// Whether a handle exists for this lease incarnation.
    pub fn holds(&self, info: TaskInfo) -> (r: bool)
        ensures
            r <==> exists|k: int| 0 <= k < self.actors@.len() && (#[trigger] self.actors@[k]).info == info,
    {
        let mut k: usize = 0;
        while k < self.actors.len()
            invariant
                k <= self.actors@.len(),
                forall|m: int| 0 <= m < k ==> (#[trigger] self.actors@[m]).info != info,
            decreases self.actors.len() - k,
        {
            if self.actors[k].info == info {
                return true;
            }
            k += 1;
        }
        false
    }

    /// Registers a running task; a handle with the same lease incarnation is
    /// replaced.
    pub fn register(&mut self, info: TaskInfo, runner: H)
        requires
            old(self).wf(),
        ensures
            final(self).wf(),
            final(self).id == old(self).id,
            (exists|k: int| 0 <= k < old(self).actors@.len() && (#[trigger] old(self).actors@[k]).info == info)
                ==> exists|k: int|
                0 <= k < old(self).actors@.len() && old(self).actors@[k].info == info && final(self).actors@ == old(self).actors@.update(k, (TaskHandle { info, runner, alive: true })),
            !(exists|k: int| 0 <= k < old(self).actors@.len() && (#[trigger] old(self).actors@[k]).info == info)
                ==> final(self).actors@ == old(self).actors@.push((TaskHandle { info, runner, alive: true })),
    {
        let mut k: usize = 0;
        while k < self.actors.len()
            invariant
                k <= self.actors@.len(),
                self.actors@ == old(self).actors@,
                self.id == old(self).id,
                old(self).wf(),
                forall|m: int| 0 <= m < k ==> (#[trigger] self.actors@[m]).info != info,
            decreases self.actors.len() - k,
        {
            if self.actors[k].info == info {
                self.actors.set(k, TaskHandle { info, runner, alive: true });
                proof {
                    assert forall|a: int, b: int|
                        0 <= a < b < self.actors@.len() implies (#[trigger] self.actors@[a]).info != (
                        #[trigger] self.actors@[b]).info by {
                        assert(old(self).actors@[a].info != old(self).actors@[b].info);
                    }
                }
                return;
            }
            k += 1;
        }
        self.actors.push(TaskHandle { info, runner, alive: true });
    }

    /// Flips the liveness bit of the handle for `info`, when there is one.
    pub fn set_alive(&mut self, info: TaskInfo, alive: bool) -> (found: bool)
        requires
            old(self).wf(),
        ensures
            final(self).wf(),
            final(self).id == old(self).id,
            final(self).actors@.len() == old(self).actors@.len(),
            found <==> exists|k: int|
                0 <= k < old(self).actors@.len() && (#[trigger] old(self).actors@[k]).info == info,
            forall|k: int|
                0 <= k < old(self).actors@.len() ==> (#[trigger] final(self).actors@[k]).info == old(self).actors@[k].info && final(self).actors@[k].runner == old(self).actors@[k].runner
                    && final(self).actors@[k].alive == (if old(self).actors@[k].info == info {
                    alive
                } else {
                    old(self).actors@[k].alive
                }),
    {
        let mut k: usize = 0;
        let mut found = false;
        while k < self.actors.len()
            invariant
                k <= self.actors@.len(),
                self.actors@.len() == old(self).actors@.len(),
                self.id == old(self).id,
                found <==> exists|m: int| 0 <= m < k && (#[trigger] old(self).actors@[m]).info == info,
                forall|m: int|
                    0 <= m < self.actors@.len() ==> (#[trigger] self.actors@[m]).info == old(self).actors@[m].info && self.actors@[m].runner == old(self).actors@[m].runner
                        && self.actors@[m].alive == (if m < k && old(self).actors@[m].info == info {
                        alive
                    } else {
                        old(self).actors@[m].alive
                    }),
            decreases self.actors.len() - k,
        {
            if self.actors[k].info == info {
                self.actors[k].alive = alive;
                found = true;
            }
            k += 1;
        }
        proof {
            assert forall|a: int, b: int|
                0 <= a < b < self.actors@.len() implies (#[trigger] self.actors@[a]).info != (
                #[trigger] self.actors@[b]).info by {
                assert(old(self).actors@[a].info != old(self).actors@[b].info);
            }
        }
        found
    }

    /// Removes the handles whose runner is no longer alive; returns their
    /// lease incarnations.
    pub fn reap(&mut self) -> (removed: Vec<TaskInfo>)
        requires
            old(self).wf(),
        ensures
            final(self).wf(),
            final(self).id == old(self).id,
            final(self).actors@ == old(self).actors@.filter(alive_handle()),
            removed@ == handle_infos(old(self).actors@.filter(dead_handle())),
    {
        let ghost old_actors = self.actors@;
        let mut kept: Vec<TaskHandle<H>> = Vec::new();
        let mut removed: Vec<TaskInfo> = Vec::new();
        let mut rest: Vec<TaskHandle<H>> = Vec::new();
        std::mem::swap(&mut rest, &mut self.actors);
        let ghost all = rest@;
        let total_len = rest.len();
        assert(all == old_actors);
        let mut i: usize = 0;
        let mut rest_rev: Vec<TaskHandle<H>> = Vec::new();
        // Move the handles out front first, so each can be kept or dropped by value.
        while rest.len() > 0
            invariant
                rest_rev@.len() + rest@.len() == all.len(),
                all.len() == total_len,
                forall|m: int| 0 <= m < rest@.len() ==> #[trigger] rest@[m] == all[m],
                forall|m: int|
                    0 <= m < rest_rev@.len() ==> #[trigger] rest_rev@[m] == all[all.len() - 1 - m],
            decreases rest.len(),
        {
            let h = rest.pop().unwrap();
            rest_rev.push(h);
        }
        while rest_rev.len() > 0
            invariant
                i + rest_rev@.len() == all.len(),
                i <= all.len(),
                forall|m: int|
                    0 <= m < rest_rev@.len() ==> #[trigger] rest_rev@[m] == all[all.len() - 1 - m],
                all.len() == total_len,
                kept@ == all.take(i as int).filter(alive_handle()),
                removed@ == handle_infos(all.take(i as int).filter(dead_handle())),
            decreases rest_rev.len(),
        {
            let h = rest_rev.pop().unwrap();
            proof {
                assert(h == all[i as int]);
                assert(all.take(i as int + 1) == all.take(i as int).push(h));
                all.take(i as int).lemma_filter_push(h, alive_handle());
                all.take(i as int).lemma_filter_push(h, dead_handle());
                let fd = all.take(i as int).filter(dead_handle());
                assert(handle_infos(fd.push(h)) == handle_infos(fd).push(h.info));
            }
            if h.alive {
                kept.push(h);
            } else {
                removed.push(h.info);
            }
            i += 1;
        }
        proof {
            assert(all.take(all.len() as int) == all);
            assert forall|a: int, b: int|
                0 <= a < b < kept@.len() implies (#[trigger] kept@[a]).info != (
                #[trigger] kept@[b]).info by {
                lemma_filter_keeps_distinct_infos(all);
            }
        }
        self.actors = kept;
        removed
    }
}

/// The lease update that produced the incarnation `info` at `now`.
pub open spec fn lease_of(info: TaskInfo, now: i64) -> LeaseUpdate {
    LeaseUpdate { lease_uuid: info.uuid, owner_uuid: info.parent_uuid, now_ms: now }
}

/// The store changed in document `i` alone, which took the lease `info`.
pub open spec fn took_at(before: Seq<TaskDoc>, after: Seq<TaskDoc>, i: int, info: TaskInfo, now: i64) -> bool {
    &&& 0 <= i < before.len()
    &&& before[i].doc_id == info.doc_id
    &&& after == before.update(i, apply_lease(before[i], lease_of(info, now)))
}

/// Document `i` is the first that the acquire-outdated predicate matches.
pub open spec fn first_orphan(docs: Seq<TaskDoc>, since: i64, i: int) -> bool {
    &&& 0 <= i < docs.len()
    &&& !is_live(docs[i].heartbeat_ms, since)
    &&& forall|j: int| 0 <= j < i ==> is_live((#[trigger] docs[j]).heartbeat_ms, since)
}

/// The handle table after registering `runner` for `info`: the handle of the
/// same incarnation is replaced, or else the new one is appended.
pub open spec fn registered<H>(
    before: Seq<TaskHandle<H>>,
    after: Seq<TaskHandle<H>>,
    info: TaskInfo,
    runner: H,
) -> bool {
    if exists|k: int| 0 <= k < before.len() && (#[trigger] before[k]).info == info {
        exists|k: int|
            0 <= k < before.len() && (#[trigger] before[k]).info == info && after == before.update(
                k,
                (TaskHandle { info, runner, alive: true }),
            )
    } else {
        after == before.push((TaskHandle { info, runner, alive: true }))
    }
}

/// A steal, seen through the group-by `peers`, took a live document of a
/// peer above the threshold, and changed nothing else.
pub open spec fn steal_took(
    before: Seq<TaskDoc>,
    after: Seq<TaskDoc>,
    since: i64,
    self_count: nat,
    info: TaskInfo,
    now: i64,
    peers: Seq<WorkerInfo>,
) -> bool {
    let threshold = threshold_of(self_count, expected_of(before.filter(live(since)).len(), peers.len()));
    exists|i: int, k: int|
        took_at(before, after, i, info, now) && 0 <= k < peers.len() && is_live(
            before[i].heartbeat_ms,
            since,
        ) && before[i].owner_uuid == Some(peers[k].id) && peers[k].count > threshold
}

/// Handles whose lease no document holds any more.
pub open spec fn lease_lost<H>(docs: Seq<TaskDoc>) -> spec_fn(TaskHandle<H>) -> bool {
    |h: TaskHandle<H>| !(exists|j: int| 0 <= j < docs.len() && holds_lease(#[trigger] docs[j], h.info))
}

/// Every document is unchanged or only had its heartbeat renewed at `now`.
pub open spec fn heartbeats_only(before: Seq<TaskDoc>, after: Seq<TaskDoc>, now: i64) -> bool {
    &&& after.len() == before.len()
    &&& forall|j: int|
        0 <= j < before.len() ==> #[trigger] after[j] == before[j] || after[j] == (TaskDoc {
            heartbeat_ms: Some(now),
            ..before[j]
        })
}

impl<H> ScheduleContext<H> {
    /// One schedule attempt in `mode` at `now_ms`, against `store`.
    ///
    /// Takes over the first outdated task, or steals one, as the mode
    /// selects; a won task gets a handle for `runner`, and its lease
    /// incarnation is returned.
    pub fn try_schedule(
        &mut self,
        store: &mut TaskStore,
        mode: ScheduleMode,
        now_ms: i64,
        max_interval_ms: u64,
        runner: H,
    ) -> (r: Option<TaskInfo>)
        requires
            old(self).wf(),
            old(store).wf(),
            now_ms - max_interval_ms >= i64::MIN,
        ensures
            final(self).wf(),
            final(store).wf(),
            final(self).id == old(self).id,
            r matches Some(info) ==> {
                &&& info.parent_uuid == old(self).id
                &&& registered(old(self).actors@, final(self).actors@, info, runner)
                &&& exists|i: int| took_at(old(store).docs@, final(store).docs@, i, info, now_ms)
            },
            r is None ==> final(store).docs@ == old(store).docs@ && final(self).actors@ == old(self).actors@,
            mode == ScheduleMode::OutdatedOnly ==> (r is None <==> forall|j: int|
                0 <= j < old(store).docs@.len() ==> is_live(
                    (#[trigger] old(store).docs@[j]).heartbeat_ms,
                    (now_ms - max_interval_ms) as i64,
                )),
            mode != ScheduleMode::StealOnly && (exists|j: int|
                0 <= j < old(store).docs@.len() && !is_live(
                    (#[trigger] old(store).docs@[j]).heartbeat_ms,
                    (now_ms - max_interval_ms) as i64,
                )) ==> (r matches Some(info) && exists|i: int|
                took_at(old(store).docs@, final(store).docs@, i, info, now_ms) && first_orphan(
                    old(store).docs@,
                    (now_ms - max_interval_ms) as i64,
                    i,
                )),
            mode == ScheduleMode::StealOnly || (mode == ScheduleMode::Auto && forall|j: int|
                0 <= j < old(store).docs@.len() ==> is_live(
                    (#[trigger] old(store).docs@[j]).heartbeat_ms,
                    (now_ms - max_interval_ms) as i64,
                )) ==> exists|peers: Seq<WorkerInfo>|
                #[trigger] is_peer_grouping(
                    old(store).docs@,
                    (now_ms - max_interval_ms) as i64,
                    old(self).id,
                    peers,
                ) && (r is None <==> !steal_allowed(
                    old(store).docs@.filter(live((now_ms - max_interval_ms) as i64)).len(),
                    old(self).actors@.len() as nat,
                    counts_of(peers),
                )) && (r matches Some(info) ==> steal_took(
                    old(store).docs@,
                    final(store).docs@,
                    (now_ms - max_interval_ms) as i64,
                    old(self).actors@.len() as nat,
                    info,
                    now_ms,
                    peers,
                )),
    {
        let since = since_ts(now_ms, max_interval_ms);
        let u = LeaseUpdate::new(self.id, now_ms);
        let meta = self.meta();
        let flow = ScheduleFlow::new(mode);
        let ghost docs0 = store.docs@;
        let mut won: Option<TaskDoc> = None;
        let mut stolen: Option<ScheduleResult<TaskDoc>> = None;
        let mut step = flow.first_step();
        if step == ScheduleStep::Acquire {
            won = store.acquire_outdated(since, u);
            step = flow.after_acquire(won.is_some());
        }
        assert(won matches Some(d) ==> exists|i: int|
            0 <= i < docs0.len() && first_orphan(docs0, since, i) && d == apply_lease(docs0[i], u)
                && store.docs@ == docs0.update(i, d));
        assert(won is None ==> store.docs@ == docs0);
        assert(won is Some ==> step == ScheduleStep::Finish);
        if step == ScheduleStep::StealOnce {
            let res = steal_once(store, meta, since, u);
            if let ScheduleResult::Acquired(d) = &res {
                won = Some(*d);
            }
            stolen = Some(res);
        }
        assert(won matches Some(d) ==> exists|i: int|
            0 <= i < docs0.len() && d == apply_lease(docs0[i], u) && store.docs@ == docs0.update(i, d));
        assert(mode == ScheduleMode::StealOnly || (mode == ScheduleMode::Auto && forall|j: int|
            0 <= j < docs0.len() ==> is_live((#[trigger] docs0[j]).heartbeat_ms, since)) ==> stolen is Some);
        let ghost actors0 = self.actors@;
        let r = match won {
            Some(d) => {
                let info = TaskInfo { doc_id: d.doc_id, uuid: u.lease_uuid, parent_uuid: self.id };
                proof {
                    assert(u == lease_of(info, now_ms));
                }
                self.register(info, runner);
                Some(info)
            },
            None => None,
        };
        proof {
            if let Some(info) = r {
                assert(u == lease_of(info, now_ms));
                let d = won->Some_0;
                let i = choose|i: int|
                    0 <= i < docs0.len() && d == apply_lease(docs0[i], u) && store.docs@ == docs0.update(i, d);
                assert(took_at(docs0, store.docs@, i, info, now_ms));
            }
            if let Some(sr) = stolen {
                let peers = choose|peers: Seq<WorkerInfo>|
                    #[trigger] is_peer_grouping(docs0, since, meta.id, peers) && stole_as_planned(
                        docs0,
                        store.docs@,
                        since,
                        meta,
                        u,
                        peers,
                        sr,
                    );
                if let Some(info) = r {
                    let i = choose|i: int, k: int|
                        0 <= i < docs0.len() && 0 <= k < peers.len() && is_live(docs0[i].heartbeat_ms, since)
                            && docs0[i].owner_uuid == Some(peers[k].id) && peers[k].count > threshold_of(
                            meta.actor_count as nat,
                            expected_of(docs0.filter(live(since)).len(), peers.len()),
                        ) && won->Some_0 == apply_lease(docs0[i], u) && store.docs@ == docs0.update(
                            i,
                            won->Some_0,
                        );
                    assert(took_at(docs0, store.docs@, i.0, info, now_ms));
                    assert(steal_took(docs0, store.docs@, since, actors0.len() as nat, info, now_ms, peers));
                }
                assert(sr is Idle <==> r is None);
                assert(since == (now_ms - max_interval_ms) as i64);
                assert(is_peer_grouping(docs0, (now_ms - max_interval_ms) as i64, old(self).id, peers));
                if let Some(info) = r {
                    assert(steal_took(
                        docs0,
                        store.docs@,
                        (now_ms - max_interval_ms) as i64,
                        actors0.len() as nat,
                        info,
                        now_ms,
                        peers,
                    ));
                }
                assert(r is None <==> !steal_allowed(
                    docs0.filter(live(since)).len(),
                    actors0.len() as nat,
                    counts_of(peers),
                ));
            }
        }
        r
    }

    /// Whether a document still records this lease incarnation.
    pub fn check_ownership(&self, store: &TaskStore, info: TaskInfo) -> (r: bool)
        ensures
            r <==> exists|j: int|
                0 <= j < store.docs@.len() && info_of(#[trigger] store.docs@[j]) == Some(info),
    {
        store.check_ownership(info)
    }

    /// Renews the lease `info` at `now`, persisting the cursor of `patch` if
    /// any; `false` means the lease is lost.
    pub fn update_entry(&self, store: &mut TaskStore, info: TaskInfo, patch: Option<u64>, now: i64) -> (r:
        bool)
        requires
            old(store).wf(),
        ensures
            final(store).wf(),
            r <==> exists|j: int|
                0 <= j < old(store).docs@.len() && holds_lease(#[trigger] old(store).docs@[j], info),
            !r ==> final(store).docs@ == old(store).docs@,
            r ==> exists|i: int|
                0 <= i < old(store).docs@.len() && holds_lease(old(store).docs@[i], info)
                    && final(store).docs@ == old(store).docs@.update(
                    i,
                    heartbeat(old(store).docs@[i], patch, now),
                ),
    {
        store.update_entry(info, patch, now)
    }

    /// Heartbeats every handle's lease at `now` with an empty patch. With
    /// `evict`, the runners whose lease is lost are marked stopped; their
    /// lease incarnations are returned, to be stopped by the caller.
    pub fn update_all(&mut self, store: &mut TaskStore, now: i64, evict: bool) -> (stopped: Vec<TaskInfo>)
        requires
            old(self).wf(),
            old(store).wf(),
        ensures
            final(self).wf(),
            final(store).wf(),
            final(self).id == old(self).id,
            heartbeats_only(old(store).docs@, final(store).docs@, now),
            final(self).actors@.len() == old(self).actors@.len(),
            forall|k: int|
                0 <= k < old(self).actors@.len() ==> (#[trigger] final(self).actors@[k]).info == old(self).actors@[k].info && final(self).actors@[k].runner == old(self).actors@[k].runner
                    && final(self).actors@[k].alive == (old(self).actors@[k].alive && !(evict
                    && lease_lost(old(store).docs@)(old(self).actors@[k]))),
            !evict ==> stopped@.len() == 0,
            evict ==> stopped@ == handle_infos(old(self).actors@.filter(lease_lost(old(store).docs@))),
    {
        let ghost docs0 = store.docs@;
        let mut stopped: Vec<TaskInfo> = Vec::new();
        let mut k: usize = 0;
        while k < self.actors.len()
            invariant
                k <= self.actors@.len(),
                self.actors@.len() == old(self).actors@.len(),
                self.id == old(self).id,
                store.wf(),
                heartbeats_only(docs0, store.docs@, now),
                forall|m: int|
                    0 <= m < self.actors@.len() ==> (#[trigger] self.actors@[m]).info == old(self).actors@[m].info && self.actors@[m].runner == old(self).actors@[m].runner
                        && self.actors@[m].alive == (if m < k {
                        old(self).actors@[m].alive && !(evict && lease_lost(docs0)(
                            old(self).actors@[m],
                        ))
                    } else {
                        old(self).actors@[m].alive
                    }),
                !evict ==> stopped@.len() == 0,
                evict ==> stopped@ == handle_infos(
                    old(self).actors@.take(k as int).filter(lease_lost(docs0)),
                ),
            decreases self.actors.len() - k,
        {
            let info = self.actors[k].info;
            let ghost before = store.docs@;
            let ok = store.update_entry(info, None, now);
            proof {
                // A heartbeat keeps every document's id and lease.
                assert((exists|j: int| 0 <= j < before.len() && holds_lease(#[trigger] before[j], info))
                    <==> (exists|j: int| 0 <= j < docs0.len() && holds_lease(#[trigger] docs0[j], info)))
                    by {
                    if exists|j: int| 0 <= j < before.len() && holds_lease(#[trigger] before[j], info) {
                        let j = choose|j: int| 0 <= j < before.len() && holds_lease(#[trigger] before[j], info);
                        assert(holds_lease(docs0[j], info));
                    }
                    if exists|j: int| 0 <= j < docs0.len() && holds_lease(#[trigger] docs0[j], info) {
                        let j = choose|j: int| 0 <= j < docs0.len() && holds_lease(#[trigger] docs0[j], info);
                        assert(holds_lease(before[j], info));
                    }
                }
                if ok {
                    let i = choose|i: int|
                        0 <= i < before.len() && holds_lease(before[i], info) && store.docs@
                            == before.update(i, heartbeat(before[i], None, now));
                    assert forall|j: int| 0 <= j < docs0.len() implies #[trigger] store.docs@[j]
                        == docs0[j] || store.docs@[j] == (TaskDoc {
                        heartbeat_ms: Some(now),
                        ..docs0[j]
                    }) by {
                        if j == i {
                            assert(store.docs@[j] == (TaskDoc { heartbeat_ms: Some(now), ..docs0[j] }));
                        }
                    }
                }
                let h = old(self).actors@[k as int];
                assert(old(self).actors@.take(k as int + 1) == old(self).actors@.take(k as int).push(h));
                old(self).actors@.take(k as int).lemma_filter_push(h, lease_lost(docs0));
                let fl = old(self).actors@.take(k as int).filter(lease_lost(docs0));
                assert(handle_infos(fl.push(h)) == handle_infos(fl).push(h.info));
            }
            if !ok && evict {
                self.actors[k].alive = false;
                stopped.push(info);
            }
            k += 1;
        }
        proof {
            assert(old(self).actors@.take(old(self).actors@.len() as int) == old(self).actors@);
            assert forall|a: int, b: int|
                0 <= a < b < self.actors@.len() implies (#[trigger] self.actors@[a]).info != (
                #[trigger] self.actors@[b]).info by {
                assert(old(self).actors@[a].info != old(self).actors@[b].info);
            }
        }
        stopped
    }
}

impl<H> ScheduleContext<H> {
    /// The lease incarnations to heartbeat, in handle order.
    pub fn heartbeat_targets(&self) -> (r: Vec<TaskInfo>)
        ensures
            r@ == handle_infos(self.actors@),
    {
        let mut out: Vec<TaskInfo> = Vec::new();
        let mut k: usize = 0;
        while k < self.actors.len()
            invariant
                k <= self.actors@.len(),
                out@ == handle_infos(self.actors@.take(k as int)),
            decreases self.actors.len() - k,
        {
            proof {
                assert(self.actors@.take(k as int + 1) == self.actors@.take(k as int).push(self.actors@[k as int]));
            }
            out.push(self.actors[k].info);
            k += 1;
        }
        proof {
            assert(self.actors@.take(self.actors@.len() as int) == self.actors@);
        }
        out
    }

    /// Takes the outcome of heartbeating `heartbeat_targets()`, one flag per
    /// handle. With `evict`, the handles whose lease was lost are marked
    /// stopped; their lease incarnations are returned, in order.
    pub fn apply_heartbeats(&mut self, renewed: &Vec<bool>, evict: bool) -> (stopped: Vec<TaskInfo>)
        requires
            old(self).wf(),
            renewed@.len() == old(self).actors@.len(),
        ensures
            final(self).wf(),
            final(self).id == old(self).id,
            final(self).actors@.len() == old(self).actors@.len(),
            forall|k: int|
                0 <= k < old(self).actors@.len() ==> (#[trigger] final(self).actors@[k]).info == old(self).actors@[k].info
                    && final(self).actors@[k].runner == old(self).actors@[k].runner
                    && final(self).actors@[k].alive == (old(self).actors@[k].alive && !(evict && !renewed@[k])),
            forall|x: TaskInfo|
                stopped@.contains(x) <==> exists|k: int|
                    0 <= k < old(self).actors@.len() && evict && !renewed@[k] && (#[trigger] old(self).actors@[k]).info == x,
    {
        let mut stopped: Vec<TaskInfo> = Vec::new();
        let mut k: usize = 0;
        while k < self.actors.len()
            invariant
                k <= self.actors@.len(),
                renewed@.len() == self.actors@.len(),
                self.actors@.len() == old(self).actors@.len(),
                self.id == old(self).id,
                forall|m: int|
                    0 <= m < self.actors@.len() ==> (#[trigger] self.actors@[m]).info == old(self).actors@[m].info
                        && self.actors@[m].runner == old(self).actors@[m].runner
                        && self.actors@[m].alive == (if m < k {
                        old(self).actors@[m].alive && !(evict && !renewed@[m])
                    } else {
                        old(self).actors@[m].alive
                    }),
                forall|x: TaskInfo|
                    stopped@.contains(x) <==> exists|m: int|
                        0 <= m < k && evict && !renewed@[m] && (#[trigger] old(self).actors@[m]).info == x,
            decreases self.actors.len() - k,
        {
            let ghost s0 = stopped@;
            if evict && !renewed[k] {
                let info = self.actors[k].info;
                self.actors[k].alive = false;
                stopped.push(info);
                proof {
                    assert forall|x: TaskInfo| stopped@.contains(x) <==> exists|m: int|
                        0 <= m < k + 1 && evict && !renewed@[m] && (#[trigger] old(self).actors@[m]).info == x by {
                        if stopped@.contains(x) && x != info {
                            let j = choose|j: int| 0 <= j < stopped@.len() && stopped@[j] == x;
                            assert(s0[j] == x);
                            assert(s0.contains(x));
                        }
                        if exists|m: int| 0 <= m < k && evict && !renewed@[m] && (#[trigger] old(self).actors@[m]).info == x {
                            assert(s0.contains(x));
                            let j = choose|j: int| 0 <= j < s0.len() && s0[j] == x;
                            assert(stopped@[j] == x);
                        }
                        if x == info {
                            assert(stopped@[stopped@.len() - 1] == x);
                        }
                    }
                }
            }
            k += 1;
        }
        proof {
            assert forall|a: int, b: int|
                0 <= a < b < self.actors@.len() implies (#[trigger] self.actors@[a]).info != (
                #[trigger] self.actors@[b]).info by {
                assert(old(self).actors@[a].info != old(self).actors@[b].info);
            }
        }
        stopped
    }

    /// Registers the runner of a won document under the lease `u` drew.
    pub fn register_won(&mut self, won: TaskDoc, u: LeaseUpdate, runner: H) -> (info: TaskInfo)
        requires
            old(self).wf(),
        ensures
            final(self).wf(),
            final(self).id == old(self).id,
            info == (TaskInfo { doc_id: won.doc_id, uuid: u.lease_uuid, parent_uuid: old(self).id }),
            registered(old(self).actors@, final(self).actors@, info, runner),
    {
        let info = TaskInfo { doc_id: won.doc_id, uuid: u.lease_uuid, parent_uuid: self.id };
        self.register(info, runner);
        info
    }
}

/// Every document kept all its fields but the heartbeat.
pub open spec fn same_but_heartbeat(before: Seq<TaskDoc>, after: Seq<TaskDoc>) -> bool {
    &&& after.len() == before.len()
    &&& forall|j: int|
        0 <= j < before.len() ==> #[trigger] after[j] == (TaskDoc {
            heartbeat_ms: after[j].heartbeat_ms,
            ..before[j]
        })
}

/// Heartbeat idempotence over sweeps: any run of heartbeat sweeps with empty
/// patches (as `update_all` makes) leaves every field but `heartbeat_ms`,
/// the cursor in particular, as it was before the first one.
pub proof fn lemma_sweeps_keep_all_but_heartbeat(runs: Seq<Seq<TaskDoc>>, nows: Seq<i64>)
    requires
        runs.len() == nows.len() + 1,
        forall|n: int| 0 <= n < nows.len() ==> heartbeats_only(runs[n], #[trigger] runs[n + 1], nows[n]),
    ensures
        same_but_heartbeat(runs[0], runs.last()),
    decreases nows.len(),
{
    if nows.len() == 0 {
        assert(runs.last() == runs[0]);
    } else {
        let init = runs.drop_last();
        let n0 = nows.drop_last();
        assert forall|n: int| 0 <= n < n0.len() implies heartbeats_only(init[n], #[trigger] init[n + 1], n0[n]) by {
            assert(init[n] == runs[n] && init[n + 1] == runs[n + 1] && n0[n] == nows[n]);
        }
        lemma_sweeps_keep_all_but_heartbeat(init, n0);
        let a = runs[0];
        let b = init.last();
        let c = runs.last();
        assert(b == runs[nows.len() - 1]);
        assert(heartbeats_only(runs[nows.len() - 1], runs[nows.len() as int], nows[nows.len() - 1]));
        assert forall|j: int| 0 <= j < a.len() implies #[trigger] c[j] == (TaskDoc {
            heartbeat_ms: c[j].heartbeat_ms,
            ..a[j]
        }) by {
            assert(b[j] == (TaskDoc { heartbeat_ms: b[j].heartbeat_ms, ..a[j] }));
        }
    }
}

impl<H> ScheduleContext<H> {
    /// A view of the handles for status and admin callers: dead runners are
    /// reaped first, then the remaining lease incarnations are listed.
    pub fn snapshot(&mut self) -> (r: Vec<TaskInfo>)
        requires
            old(self).wf(),
        ensures
            final(self).wf(),
            final(self).id == old(self).id,
            final(self).actors@ == old(self).actors@.filter(alive_handle()),
            r@ == handle_infos(final(self).actors@),
    {
        let _reaped = self.reap();
        self.heartbeat_targets()
    }
}

/// What a schedule attempt asks of the store next, or its result.
#[derive(Debug, Clone, PartialEq, Eq)]
pub enum AttemptStep {
    /// Run acquire-outdated with the attempt's bound and update, then call
    /// `on_acquired`.
    Acquire,
    /// Run this step of the steal round, then call the matching `on_*`.
    Steal(StealStep<TaskDoc>),
    /// The attempt won this document; register its runner with `register_won`.
    Won(TaskDoc),
    /// The attempt won nothing.
    Nothing,
}

/// One schedule attempt (the mode selector, takeover, and steal rounds that
/// retry on conflict), as a machine the caller runs against its store.
#[derive(Debug, Copy, Clone, PartialEq, Eq, Structural)]
pub struct ScheduleAttempt {
    pub flow: ScheduleFlow,
    pub round: StealRound,
    pub since: i64,
    pub update: LeaseUpdate,
}

impl ScheduleAttempt {
    /// Starts an attempt in `mode` at `now_ms` for the scheduler `meta`, with
    /// a freshly drawn lease uuid.
    pub fn start(meta: SchedulerMeta, mode: ScheduleMode, now_ms: i64, max_interval_ms: u64) -> (r: (
        ScheduleAttempt,
        AttemptStep,
    ))
        requires
            now_ms - max_interval_ms >= i64::MIN,
        ensures
            r.0.flow.mode == mode,
            r.0.round.meta == meta,
            r.0.since == now_ms - max_interval_ms,
            r.0.update.owner_uuid == meta.id,
            r.0.update.now_ms == now_ms,
            r.1 == (if mode == ScheduleMode::StealOnly {
                AttemptStep::Steal(StealStep::CountLive)
            } else {
                AttemptStep::Acquire
            }),
    {
        let flow = ScheduleFlow::new(mode);
        let (round, first) = StealRound::new(meta);
        let attempt = ScheduleAttempt {
            flow,
            round,
            since: since_ts(now_ms, max_interval_ms),
            update: LeaseUpdate::new(meta.id, now_ms),
        };
        let step = match flow.first_step() {
            ScheduleStep::StealOnce => AttemptStep::Steal(first),
            _ => AttemptStep::Acquire,
        };
        (attempt, step)
    }

    /// The takeover's outcome: a won document ends the attempt; otherwise
    /// `Auto` goes on to steal.
    pub fn on_acquired(&self, won: Option<TaskDoc>) -> (r: AttemptStep)
        ensures
            won matches Some(d) ==> r == AttemptStep::Won(d),
            won is None ==> r == (if self.flow.mode == ScheduleMode::Auto {
                AttemptStep::Steal(StealStep::CountLive)
            } else {
                AttemptStep::Nothing
            }),
    {
        match won {
            Some(d) => AttemptStep::Won(d),
            None => match self.flow.after_acquire(false) {
                ScheduleStep::StealOnce => AttemptStep::Steal(StealStep::CountLive),
                _ => AttemptStep::Nothing,
            },
        }
    }

    /// The end of a steal round: a win ends the attempt, a conflict starts a
    /// fresh round, and an idle round ends it with nothing.
    fn after_round(&mut self, step: StealStep<TaskDoc>) -> (r: AttemptStep)
        ensures
            *final(self) == *old(self),
            step matches StealStep::Done(ScheduleResult::Acquired(d)) ==> r == AttemptStep::Won(d),
            step == StealStep::<TaskDoc>::Done(ScheduleResult::Conflict) ==> r == AttemptStep::Steal(
                StealStep::CountLive,
            ),
            step == StealStep::<TaskDoc>::Done(ScheduleResult::Idle) ==> r == AttemptStep::Nothing,
            !(step is Done) ==> r == AttemptStep::Steal(step),
    {
        match step {
            StealStep::Done(res) => match self.flow.after_steal(&res) {
                ScheduleStep::StealOnce => AttemptStep::Steal(StealStep::CountLive),
                _ => match res {
                    ScheduleResult::Acquired(d) => AttemptStep::Won(d),
                    _ => AttemptStep::Nothing,
                },
            },
            other => AttemptStep::Steal(other),
        }
    }

    /// Step 1 of a steal round: the live count.
    pub fn on_count(&mut self, total: u64) -> (r: AttemptStep)
        ensures
            final(self).round.total == total,
            final(self).round.meta == old(self).round.meta,
            final(self).flow == old(self).flow,
            final(self).update == old(self).update,
            final(self).since == old(self).since,
            r == AttemptStep::Steal(StealStep::GroupPeers),
    {
        let step = self.round.on_count(total);
        self.after_round(step)
    }

    /// Steps 2 to 6: plan from the group-by; nothing to steal ends the
    /// attempt, otherwise a victim above the threshold is listed.
    pub fn on_peers(&mut self, peers: &Vec<WorkerInfo>) -> (r: AttemptStep)
        ensures
            final(self).round.meta == old(self).round.meta,
            final(self).round.total == old(self).round.total,
            final(self).flow == old(self).flow,
            final(self).update == old(self).update,
            final(self).since == old(self).since,
            r == AttemptStep::Nothing <==> !steal_allowed(
                old(self).round.total as nat,
                old(self).round.meta.actor_count as nat,
                counts_of(peers@),
            ),
            r matches AttemptStep::Steal(StealStep::ListTasks(id)) ==> {
                &&& final(self).round.threshold == threshold_of(
                    old(self).round.meta.actor_count as nat,
                    expected_of(old(self).round.total as nat, peers@.len()),
                )
                &&& exists|k: int|
                    0 <= k < peers@.len() && (#[trigger] peers@[k]).id == id && peers@[k].count
                        > final(self).round.threshold
            },
            r == AttemptStep::Nothing || r is Steal,
            r matches AttemptStep::Steal(s) ==> s is ListTasks,
    {
        let step = self.round.on_peers(peers);
        self.after_round(step)
    }

    /// Step 6: the victim's fresh listing; a conflict starts a fresh round.
    pub fn on_listing(&mut self, tasks: &Vec<TaskInfo>) -> (r: AttemptStep)
        ensures
            *final(self) == *old(self),
            tasks@.len() > old(self).round.threshold ==> (r matches AttemptStep::Steal(StealStep::Cas(t))
                && tasks@.contains(t)),
            tasks@.len() <= old(self).round.threshold ==> r == AttemptStep::Steal(StealStep::CountLive),
    {
        let step = self.round.on_listing(tasks);
        self.after_round(step)
    }

    /// The steal's conditional update: a win ends the attempt, a miss starts
    /// a fresh round.
    pub fn on_cas(&mut self, updated: Option<TaskDoc>) -> (r: AttemptStep)
        ensures
            *final(self) == *old(self),
            updated matches Some(d) ==> r == AttemptStep::Won(d),
            updated is None ==> r == AttemptStep::Steal(StealStep::CountLive),
    {
        let step = self.round.on_cas(updated);
        self.after_round(step)
    }
}

proof fn lemma_filter_keeps_distinct_infos<H>(s: Seq<TaskHandle<H>>)
    requires
        forall|a: int, b: int| 0 <= a < b < s.len() ==> (#[trigger] s[a]).info != (#[trigger] s[b]).info,
    ensures
        forall|a: int, b: int|
            0 <= a < b < s.filter(alive_handle()).len() ==> (#[trigger] s.filter(alive_handle())[a]).info
                != (#[trigger] s.filter(alive_handle())[b]).info,
    decreases s.len(),
{
    reveal(Seq::filter);
    if s.len() > 0 {
        let init = s.drop_last();
        assert forall|a: int, b: int| 0 <= a < b < init.len() implies (#[trigger] init[a]).info != (
        #[trigger] init[b]).info by {
            assert(init[a] == s[a] && init[b] == s[b]);
        }
        lemma_filter_keeps_distinct_infos(init);
        let fi = init.filter(alive_handle());
        if s.last().alive {
            assert forall|a: int| 0 <= a < fi.len() implies (#[trigger] fi[a]).info != s.last().info by {
                init.lemma_filter_contains_rev(alive_handle(), fi[a]);
                assert(fi.contains(fi[a]));
                let m = choose|m: int| 0 <= m < init.len() && init[m] == fi[a];
                assert(s[m] == init[m]);
                assert(s[m].info != s[s.len() - 1].info);
            }
        }
    }
}

} // verus!
