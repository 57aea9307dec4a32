use std::mem::MaybeUninit;

use stargazer::lease::{ScheduleMode, ScheduleResult, StealStep};
use stargazer::model::{SchedulerMeta, TaskInfo, WorkerInfo};
use stargazer::runner::{InfoGetter, SchedulerGetter, SchedulerRef, TaskFieldGetter};
use stargazer::scheduler::{steal_once, AttemptStep, ScheduleAttempt, ScheduleContext};
use stargazer::store::{LeaseUpdate, TaskDoc, TaskStore};

#[derive(Debug, Clone)]
struct DummyTask {
    info: TaskInfo,
    scheduler: SchedulerRef,
}

impl InfoGetter for DummyTask {
    fn get_info(&self) -> TaskInfo {
        self.info
    }
}

impl SchedulerGetter for DummyTask {
    fn get_scheduler(&self) -> SchedulerRef {
        self.scheduler
    }
}

fn accept_getter<T: TaskFieldGetter>(_t: &MaybeUninit<T>) {}

#[test]
fn must_task_impl_getter() {
    let dummy: MaybeUninit<DummyTask> = MaybeUninit::uninit();
    accept_getter(&dummy);
}

const NOW: i64 = 1_700_000_000_000;
const MAX: u64 = 10_000;

fn store_with(docs: &[TaskDoc]) -> TaskStore {
    let mut s = TaskStore::new();
    for d in docs {
        assert!(s.insert(*d));
    }
    s
}

fn held(doc_id: u128, lease: u128, owner: u128, hb: i64) -> TaskDoc {
    TaskDoc {
        doc_id,
        payload: 0,
        lease_uuid: Some(lease),
        owner_uuid: Some(owner),
        heartbeat_ms: Some(hb),
        cursor: None,
    }
}

fn owned_count(s: &TaskStore, owner: u128) -> usize {
    s.docs.iter().filter(|d| d.owner_uuid == Some(owner)).count()
}

#[test]
fn takeover_of_stale_task() {
    let mut store = store_with(&[held(1, 100, 7, NOW - 60_000)]);
    let mut w1: ScheduleContext<u32> = ScheduleContext::with_id(11);
    let mut w2: ScheduleContext<u32> = ScheduleContext::with_id(22);
    let got = w1.try_schedule(&mut store, ScheduleMode::OutdatedOnly, NOW, MAX, 1).unwrap();
    assert_eq!(got.doc_id, 1);
    assert_eq!(got.parent_uuid, 11);
    assert_eq!(store.docs[0].lease_uuid, Some(got.uuid));
    assert_eq!(store.docs[0].owner_uuid, Some(11));
    assert_eq!(store.docs[0].heartbeat_ms, Some(NOW));
    assert!(w1.holds(got));
    assert_eq!(w1.actors.len(), 1);
    assert_eq!(w2.try_schedule(&mut store, ScheduleMode::OutdatedOnly, NOW, MAX, 2), None);
    assert_eq!(w2.actors.len(), 0);
}

#[test]
fn racing_takeovers_have_one_winner() {
    let mut store = store_with(&[TaskDoc::new(5, 9)]);
    let a = store.acquire_outdated(NOW - 10_000, LeaseUpdate { lease_uuid: 1, owner_uuid: 11, now_ms: NOW });
    let b = store.acquire_outdated(NOW - 10_000, LeaseUpdate { lease_uuid: 2, owner_uuid: 22, now_ms: NOW });
    assert!(a.is_some());
    assert!(b.is_none());
    assert_eq!(store.docs[0].lease_uuid, Some(1));
}

#[test]
fn racing_steals_of_one_lease_have_one_winner() {
    let mut store = store_with(&[held(5, 100, 7, NOW)]);
    let info = TaskInfo::new(5, 100, 7);
    let first = store.cas_lease(info, LeaseUpdate { lease_uuid: 1, owner_uuid: 11, now_ms: NOW });
    let second = store.cas_lease(info, LeaseUpdate { lease_uuid: 2, owner_uuid: 22, now_ms: NOW });
    assert_eq!(first.map(|d| d.owner_uuid), Some(Some(11)));
    assert!(second.is_none());
    assert_eq!(store.docs[0].lease_uuid, Some(1));
}

#[test]
fn steal_moves_tasks_until_balanced() {
    let w1 = 11u128;
    let mut store = store_with(&[
        held(1, 101, w1, NOW),
        held(2, 102, w1, NOW),
        held(3, 103, w1, NOW),
        held(4, 104, w1, NOW),
    ]);
    let mut w2: ScheduleContext<u32> = ScheduleContext::with_id(22);
    assert!(w2.try_schedule(&mut store, ScheduleMode::StealOnly, NOW, MAX, 1).is_some());
    assert_eq!(owned_count(&store, w1), 3);
    assert_eq!(owned_count(&store, 22), 1);
    assert!(w2.try_schedule(&mut store, ScheduleMode::StealOnly, NOW, MAX, 2).is_some());
    assert_eq!(owned_count(&store, w1), 2);
    assert_eq!(owned_count(&store, 22), 2);
    assert_eq!(w2.try_schedule(&mut store, ScheduleMode::StealOnly, NOW, MAX, 3), None);
    assert_eq!(w2.actors.len(), 2);
}

#[test]
fn steal_once_is_idle_when_balanced() {
    let mut store = store_with(&[held(1, 101, 11, NOW), held(2, 102, 22, NOW)]);
    let meta = SchedulerMeta { id: 22, actor_count: 1 };
    let r = steal_once(&mut store, meta, NOW - 10_000, LeaseUpdate { lease_uuid: 9, owner_uuid: 22, now_ms: NOW });
    assert_eq!(r, ScheduleResult::Idle);
}

#[test]
fn auto_prefers_takeover_then_steals() {
    let mut store = store_with(&[held(1, 101, 11, NOW), held(2, 102, 11, NOW), held(3, 103, 11, NOW - 60_000)]);
    let mut w2: ScheduleContext<u32> = ScheduleContext::with_id(22);
    let first = w2.try_schedule(&mut store, ScheduleMode::Auto, NOW, MAX, 1).unwrap();
    assert_eq!(first.doc_id, 3);
    // Now 11 holds 2 live, 22 holds 1: expected 1, threshold 2, nothing to steal.
    assert_eq!(w2.try_schedule(&mut store, ScheduleMode::Auto, NOW, MAX, 2), None);
}

#[test]
fn heartbeat_with_empty_patch_touches_only_heartbeat() {
    let mut d = held(1, 101, 11, NOW - 5_000);
    d.cursor = Some(42);
    let mut store = store_with(&[d]);
    let w: ScheduleContext<u32> = ScheduleContext::with_id(11);
    let info = TaskInfo::new(1, 101, 11);
    assert!(w.update_entry(&mut store, info, None, NOW));
    assert!(w.update_entry(&mut store, info, None, NOW + 1));
    let after = store.docs[0];
    assert_eq!(after.cursor, Some(42));
    assert_eq!(after.heartbeat_ms, Some(NOW + 1));
    assert_eq!(after.lease_uuid, d.lease_uuid);
    assert_eq!(after.owner_uuid, d.owner_uuid);
    assert_eq!(after.payload, d.payload);
    assert!(w.update_entry(&mut store, info, Some(77), NOW + 2));
    assert_eq!(store.docs[0].cursor, Some(77));
}

#[test]
fn lease_loss_stops_runner_on_heartbeat() {
    let mut store = store_with(&[held(1, 101, 11, NOW)]);
    let mut w1: ScheduleContext<u32> = ScheduleContext::with_id(11);
    let info = TaskInfo::new(1, 101, 11);
    w1.register(info, 7);
    assert!(w1.check_ownership(&store, info));
    // Another scheduler steals the task.
    assert!(store.cas_lease(info, LeaseUpdate { lease_uuid: 202, owner_uuid: 22, now_ms: NOW }).is_some());
    assert!(!w1.check_ownership(&store, info));
    assert!(!w1.update_entry(&mut store, info, None, NOW + 1));
    let stopped = w1.update_all(&mut store, NOW + 1, true);
    assert_eq!(stopped, vec![info]);
    assert!(!w1.actors[0].alive);
    let reaped = w1.reap();
    assert_eq!(reaped, vec![info]);
    assert_eq!(w1.actors.len(), 0);
}

#[test]
fn update_all_without_evict_keeps_runners() {
    let mut store = store_with(&[held(1, 101, 11, NOW)]);
    let mut w1: ScheduleContext<u32> = ScheduleContext::with_id(11);
    w1.register(TaskInfo::new(1, 101, 11), 1);
    w1.register(TaskInfo::new(2, 555, 11), 2);
    let stopped = w1.update_all(&mut store, NOW + 3, false);
    assert!(stopped.is_empty());
    assert!(w1.actors.iter().all(|h| h.alive));
    assert_eq!(store.docs[0].heartbeat_ms, Some(NOW + 3));
}

#[test]
fn register_replaces_same_incarnation() {
    let mut w: ScheduleContext<u32> = ScheduleContext::with_id(1);
    let info = TaskInfo::new(1, 2, 1);
    w.register(info, 10);
    w.register(info, 20);
    assert_eq!(w.actors.len(), 1);
    assert_eq!(w.actors[0].runner, 20);
    assert_eq!(w.meta(), SchedulerMeta { id: 1, actor_count: 1 });
    assert!(w.set_alive(info, false));
    assert!(!w.set_alive(TaskInfo::new(9, 9, 9), false));
    assert_eq!(w.reap(), vec![info]);
}

#[test]
fn group_by_counts_live_tasks_per_peer() {
    let store = store_with(&[
        held(1, 101, 11, NOW),
        held(2, 102, 11, NOW),
        held(3, 103, 22, NOW),
        held(4, 104, 33, NOW - 60_000),
        held(5, 105, 44, NOW),
    ]);
    let since = NOW - 10_000;
    assert_eq!(store.count_live(since), 4);
    let mut peers = store.peer_counts(since, 44);
    peers.sort_by_key(|w| w.id);
    assert_eq!(peers.len(), 2);
    assert_eq!((peers[0].id, peers[0].count), (11, 2));
    assert_eq!((peers[1].id, peers[1].count), (22, 1));
    assert_eq!(store.count_owned(11, since), 2);
    let tasks = store.live_tasks_of(11, since);
    assert_eq!(tasks, vec![TaskInfo::new(1, 101, 11), TaskInfo::new(2, 102, 11)]);
}

#[test]
fn insert_refuses_duplicate_id() {
    let mut s = TaskStore::new();
    assert!(s.insert(TaskDoc::new(1, 0)));
    assert!(!s.insert(TaskDoc::new(1, 5)));
    assert_eq!(s.docs.len(), 1);
}

#[test]
fn fresh_contexts_get_distinct_ids() {
    let a: ScheduleContext<u32> = ScheduleContext::new();
    let b: ScheduleContext<u32> = ScheduleContext::new();
    assert_ne!(a.id(), b.id());
}

#[test]
fn repeated_takeover_rounds_take_every_orphan() {
    let mut store = store_with(&[
        held(1, 101, 7, NOW - 60_000),
        TaskDoc::new(2, 0),
        held(3, 103, 7, NOW - 11_000),
        held(4, 104, 8, NOW),
    ]);
    let mut w: ScheduleContext<u32> = ScheduleContext::with_id(11);
    let mut won = Vec::new();
    while let Some(info) = w.try_schedule(&mut store, ScheduleMode::OutdatedOnly, NOW, MAX, 0) {
        won.push(info.doc_id);
    }
    assert_eq!(won, vec![1, 2, 3]);
    assert_eq!(store.docs[3].owner_uuid, Some(8));
    assert!(store.docs.iter().all(|d| d.heartbeat_ms.unwrap() >= NOW - MAX as i64));
}

#[test]
fn concurrent_steals_conflict_then_converge() {
    use_steal_race();
}

fn use_steal_race() {
    let w1 = 11u128;
    let mut store = store_with(&[
        held(1, 101, w1, NOW),
        held(2, 102, w1, NOW),
        held(3, 103, w1, NOW),
        held(4, 104, w1, NOW),
    ]);
    let since = NOW - MAX as i64;
    // Both stealers read the same snapshot and pick the same task.
    let victim_tasks = store.live_tasks_of(w1, since);
    let target = victim_tasks[0];
    let first = stargazer::lease::steal_outcome(
        store.cas_lease(target, LeaseUpdate { lease_uuid: 201, owner_uuid: 22, now_ms: NOW }),
    );
    let second = stargazer::lease::steal_outcome(
        store.cas_lease(target, LeaseUpdate { lease_uuid: 301, owner_uuid: 33, now_ms: NOW }),
    );
    assert!(matches!(first, ScheduleResult::Acquired(_)));
    assert_eq!(second, ScheduleResult::Conflict);
    assert_eq!(owned_count(&store, 22), 1);
    assert_eq!(owned_count(&store, 33), 0);
    // The loser retries with fresh state; both keep stealing until nobody can.
    let mut w2: ScheduleContext<u32> = ScheduleContext::with_id(22);
    w2.register(TaskInfo::new(target.doc_id, 201, 22), 0);
    let mut w3: ScheduleContext<u32> = ScheduleContext::with_id(33);
    let mut moves = 1;
    loop {
        let a = w3.try_schedule(&mut store, ScheduleMode::StealOnly, NOW, MAX, 0).is_some();
        let b = w2.try_schedule(&mut store, ScheduleMode::StealOnly, NOW, MAX, 0).is_some();
        moves += a as usize + b as usize;
        if !a && !b {
            break;
        }
    }
    let mut counts = [owned_count(&store, w1), owned_count(&store, 22), owned_count(&store, 33)];
    counts.sort();
    assert_eq!(counts, [1, 1, 2]);
    assert_eq!(moves, 2);
    assert_eq!(store.docs.len(), 4);
}

#[test]
fn heartbeat_sweep_marks_lost_leases() {
    let mut w: ScheduleContext<u32> = ScheduleContext::with_id(1);
    let a = TaskInfo::new(1, 10, 1);
    let b = TaskInfo::new(2, 20, 1);
    w.register(a, 1);
    w.register(b, 2);
    assert_eq!(w.heartbeat_targets(), vec![a, b]);
    assert!(w.apply_heartbeats(&vec![false, true], false).is_empty());
    assert!(w.actors.iter().all(|h| h.alive));
    assert_eq!(w.apply_heartbeats(&vec![true, false], true), vec![b]);
    assert!(w.actors[0].alive);
    assert!(!w.actors[1].alive);
    let won = TaskDoc::new(3, 0);
    let info = w.register_won(won, LeaseUpdate { lease_uuid: 30, owner_uuid: 1, now_ms: NOW }, 3);
    assert_eq!(info, TaskInfo::new(3, 30, 1));
    assert_eq!(w.actors.len(), 3);
}

#[test]
fn snapshot_reaps_then_lists() {
    let mut w: ScheduleContext<u32> = ScheduleContext::with_id(1);
    let a = TaskInfo::new(1, 10, 1);
    let b = TaskInfo::new(2, 20, 1);
    w.register(a, 1);
    w.register(b, 2);
    w.set_alive(a, false);
    assert_eq!(w.snapshot(), vec![b]);
    assert_eq!(w.actors.len(), 1);
}

#[test]
fn schedule_attempt_machine_takes_over_then_steals() {
    use_attempt_machine();
}

fn use_attempt_machine() {
    let meta = SchedulerMeta { id: 22, actor_count: 0 };
    let (attempt, step) = ScheduleAttempt::start(meta, ScheduleMode::Auto, NOW, MAX);
    assert_eq!(step, AttemptStep::Acquire);
    assert_eq!(attempt.since, NOW - MAX as i64);
    assert_eq!(attempt.update.owner_uuid, 22);
    assert_eq!(attempt.on_acquired(None), AttemptStep::Steal(StealStep::CountLive));
    let d = TaskDoc::new(5, 0);
    assert_eq!(attempt.on_acquired(Some(d)), AttemptStep::Won(d));
    let (mut steal, step) = ScheduleAttempt::start(meta, ScheduleMode::StealOnly, NOW, MAX);
    assert_eq!(step, AttemptStep::Steal(StealStep::CountLive));
    assert_eq!(steal.on_count(4), AttemptStep::Steal(StealStep::GroupPeers));
    assert_eq!(steal.on_peers(&vec![WorkerInfo { id: 11, count: 4 }]), AttemptStep::Steal(StealStep::ListTasks(11)));
    // A shrunk listing is a conflict: a fresh round starts.
    assert_eq!(steal.on_listing(&vec![TaskInfo::new(1, 1, 11)]), AttemptStep::Steal(StealStep::CountLive));
    let listed = vec![TaskInfo::new(1, 1, 11), TaskInfo::new(2, 2, 11), TaskInfo::new(3, 3, 11)];
    match steal.on_listing(&listed) {
        AttemptStep::Steal(StealStep::Cas(t)) => assert!(listed.contains(&t)),
        other => panic!("unexpected {:?}", other),
    }
    assert_eq!(steal.on_cas(None), AttemptStep::Steal(StealStep::CountLive));
    assert_eq!(steal.on_cas(Some(d)), AttemptStep::Won(d));
    let (mut outdated, _) = ScheduleAttempt::start(meta, ScheduleMode::OutdatedOnly, NOW, MAX);
    assert_eq!(outdated.on_acquired(None), AttemptStep::Nothing);
    outdated.on_count(2);
    assert_eq!(outdated.on_peers(&vec![WorkerInfo { id: 11, count: 1 }]), AttemptStep::Nothing);
}
