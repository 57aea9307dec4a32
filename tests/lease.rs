use stargazer::driver::{schedule_round_survivors, ScheduleDriver, JITTER_BOUND_MS};
use stargazer::config::Schedule;
use stargazer::lease::{
    expected_share, is_outdated, pick_steal_target, plan_steal, select_victims, since_ts, steal_outcome,
    ScheduleFlow, ScheduleMode, ScheduleResult, ScheduleStep, StealRound, StealStep,
};
use stargazer::model::{SchedulerMeta, TaskInfo, WorkerInfo};

fn w(id: u128, count: u64) -> WorkerInfo {
    WorkerInfo { id, count }
}

#[test]
fn expected_share_is_floor_over_workers() {
    assert_eq!(expected_share(4, 1), 2);
    assert_eq!(expected_share(7, 2), 2);
    assert_eq!(expected_share(0, 3), 0);
    assert_eq!(expected_share(u64::MAX, 0), u64::MAX);
}

#[test]
fn plan_steal_from_overloaded_peer() {
    // N = 4, W = 2, expected = 2, threshold = 2.
    let peers = vec![w(1, 4)];
    let plan = plan_steal(4, SchedulerMeta { id: 2, actor_count: 0 }, &peers).unwrap();
    assert_eq!(plan.threshold, 2);
    assert_eq!(plan.victims, vec![w(1, 4)]);
    // At its share, a worker takes only from peers above expected + 1.
    let plan = plan_steal(6, SchedulerMeta { id: 2, actor_count: 2 }, &vec![w(1, 4)]).unwrap();
    assert_eq!(plan.threshold, 3);
    assert!(plan_steal(6, SchedulerMeta { id: 2, actor_count: 2 }, &vec![w(1, 3), w(3, 1)]).is_none());
    // Above its share, a worker never steals.
    assert!(plan_steal(4, SchedulerMeta { id: 2, actor_count: 3 }, &vec![w(1, 4)]).is_none());
    assert!(plan_steal(0, SchedulerMeta { id: 2, actor_count: 0 }, &vec![]).is_none());
}

#[test]
fn victims_keep_order() {
    let peers = vec![w(1, 5), w(2, 1), w(3, 9)];
    assert_eq!(select_victims(&peers, 2), vec![w(1, 5), w(3, 9)]);
    assert!(select_victims(&peers, 9).is_empty());
}

#[test]
fn steal_target_conflict_when_victim_shrank() {
    let tasks = vec![TaskInfo::new(1, 1, 1), TaskInfo::new(2, 2, 1)];
    assert_eq!(pick_steal_target(&tasks, 2), ScheduleResult::Conflict);
    match pick_steal_target(&tasks, 1) {
        ScheduleResult::Acquired(t) => assert!(tasks.contains(&t)),
        other => panic!("unexpected {:?}", other),
    }
    assert_eq!(steal_outcome::<u8>(None), ScheduleResult::Conflict);
    assert_eq!(steal_outcome(Some(3u8)), ScheduleResult::Acquired(3));
}

#[test]
fn staleness_predicate() {
    assert_eq!(since_ts(60_000, 10_000), 50_000);
    assert!(is_outdated(None, 50_000));
    assert!(is_outdated(Some(49_999), 50_000));
    assert!(!is_outdated(Some(50_000), 50_000));
}

#[test]
fn mode_selector_flow() {
    let auto = ScheduleFlow::new(ScheduleMode::Auto);
    assert_eq!(auto.first_step(), ScheduleStep::Acquire);
    assert_eq!(auto.after_acquire(false), ScheduleStep::StealOnce);
    assert_eq!(auto.after_acquire(true), ScheduleStep::Finish);
    assert_eq!(auto.after_steal(&ScheduleResult::<u8>::Conflict), ScheduleStep::StealOnce);
    assert_eq!(auto.after_steal(&ScheduleResult::<u8>::Idle), ScheduleStep::Finish);
    let outdated = ScheduleFlow::new(ScheduleMode::OutdatedOnly);
    assert_eq!(outdated.after_acquire(false), ScheduleStep::Finish);
    let steal = ScheduleFlow::new(ScheduleMode::StealOnly);
    assert_eq!(steal.first_step(), ScheduleStep::StealOnce);
    assert_eq!(ScheduleMode::default(), ScheduleMode::Auto);
}

#[test]
fn balanced_workers_do_not_steal() {
    // 7 tasks over 3 workers: 3, 2, 2 is converged.
    let counts = [3u64, 2, 2];
    for i in 0..3 {
        let peers: Vec<WorkerInfo> = (0..3)
            .filter(|&j| j != i && counts[j] > 0)
            .map(|j| w(j as u128, counts[j]))
            .collect();
        assert!(plan_steal(7, SchedulerMeta { id: i as u128, actor_count: counts[i] as usize }, &peers).is_none());
    }
    // 4, 2, 1 is not: the worker with 1 steals.
    let peers = vec![w(0, 4), w(1, 2)];
    assert!(plan_steal(7, SchedulerMeta { id: 2, actor_count: 1 }, &peers).is_some());
}

#[test]
fn driver_skips_first_balance_tick() {
    let mut d = ScheduleDriver::new(Schedule::default());
    let fast = d.on_fast_tick();
    assert_eq!(fast.mode, ScheduleMode::OutdatedOnly);
    assert!(fast.delay_ms < JITTER_BOUND_MS);
    assert!(d.on_balance_tick().is_none());
    let slow = d.on_balance_tick().unwrap();
    assert_eq!(slow.mode, ScheduleMode::StealOnly);
    assert!(slow.delay_ms < 1000);
}

#[test]
fn round_keeps_schedulers_that_acquired() {
    assert_eq!(schedule_round_survivors(&vec![true, false, true]), vec![0, 2]);
    assert!(schedule_round_survivors(&vec![false, false]).is_empty());
}

#[test]
fn steal_round_walks_the_steps() {
    let (mut round, step) = StealRound::new::<u8>(SchedulerMeta { id: 2, actor_count: 0 });
    assert_eq!(step, StealStep::CountLive);
    assert_eq!(round.on_count::<u8>(4), StealStep::GroupPeers);
    assert_eq!(round.on_peers::<u8>(&vec![w(1, 4)]), StealStep::ListTasks(1));
    assert_eq!(round.threshold, 2);
    let tasks = vec![TaskInfo::new(1, 1, 1), TaskInfo::new(2, 2, 1), TaskInfo::new(3, 3, 1)];
    match round.on_listing::<u8>(&tasks) {
        StealStep::Cas(t) => assert!(tasks.contains(&t)),
        other => panic!("unexpected {:?}", other),
    }
    assert_eq!(round.on_listing::<u8>(&tasks[..2].to_vec()), StealStep::Done(ScheduleResult::Conflict));
    assert_eq!(round.on_cas(Some(7u8)), StealStep::Done(ScheduleResult::Acquired(7)));
    assert_eq!(round.on_cas::<u8>(None), StealStep::Done(ScheduleResult::Conflict));
    let (mut idle, _) = StealRound::new::<u8>(SchedulerMeta { id: 2, actor_count: 2 });
    idle.on_count::<u8>(4);
    assert_eq!(idle.on_peers::<u8>(&vec![w(1, 2)]), StealStep::Done(ScheduleResult::Idle));
}
