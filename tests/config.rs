use stargazer::config::{Basic, Bililive, Collector, Config, DebugSource, MongoDB, Schedule, Source, Twitter, AMQP};
use stargazer::runner::{
    timestamp, CheckOwnership, Runner, RunnerAction, RunnerState, TrySchedule, TwitterCtor, TwitterEntry, UpdateAll,
    UpdateEntry,
};
use stargazer::lease::ScheduleMode;
use stargazer::model::TaskInfo;

#[test]
fn defaults() {
    let c = Config::default();
    assert_eq!(c.basic.workers, None);
    assert_eq!(c.schedule, Schedule::new(5000, 30000, 60000));
    assert_eq!(c.schedule.heartbeat_interval(), 30000);
    assert_eq!(c.mongodb.uri(), "mongodb://localhost");
    assert_eq!(c.mongodb.database(), "stargazer");
    assert_eq!(
        c.collector.amqp,
        AMQP::Enabled { uri: "amqp://127.0.0.1".to_string(), exchange: "stargazer".to_string() }
    );
    assert!(!c.collector.debug.enabled);
    assert_eq!(c.source.twitter, Twitter::Disabled);
    assert_eq!(c.source.bililive, Bililive { enabled: true });
    assert_eq!(c.source.debug, DebugSource { enabled: false });
    assert_eq!(Collector::default(), c.collector);
    assert_eq!(Source::default(), c.source);
    assert_eq!(MongoDB::default(), c.mongodb);
}

#[test]
fn zero_workers_means_cpu_count() {
    assert_eq!(Basic::new(Some(0)).workers, None);
    assert_eq!(Basic::new(None).worker_count(8), 8);
    assert_eq!(Basic::new(Some(0)).worker_count(8), 8);
    assert_eq!(Basic::new(Some(3)).worker_count(8), 3);
}

#[test]
fn schedule_getters() {
    let s = Schedule::new(1, 2, 3);
    assert_eq!((s.schedule_interval(), s.balance_interval(), s.max_interval()), (1, 2, 3));
}

#[test]
fn runner_publishes_only_while_owning() {
    let info = TaskInfo::new(1, 2, 3);
    let mut r = Runner::new(info);
    assert_eq!(r.on_connect(true), RunnerAction::Continue);
    assert_eq!(r.state, RunnerState::Streaming);
    assert_eq!(r.on_event(), RunnerAction::CheckOwnership);
    assert_eq!(r.on_ownership(true), RunnerAction::Publish);
    assert_eq!(r.on_heartbeat(true), RunnerAction::Continue);
    assert_eq!(r.on_heartbeat(false), RunnerAction::Stop);
    assert_eq!(r.state, RunnerState::Stopping);
    assert_eq!(r.on_event(), RunnerAction::Continue);
    assert_eq!(r.on_ownership(true), RunnerAction::Continue);
}

#[test]
fn runner_stops_on_lost_ownership_or_errors() {
    let mut r = Runner::new(TaskInfo::new(1, 2, 3));
    assert_eq!(r.on_connect(false), RunnerAction::Stop);
    let mut r = Runner::new(TaskInfo::new(1, 2, 3));
    r.on_connect(true);
    r.on_event();
    assert_eq!(r.on_ownership(false), RunnerAction::Stop);
    assert_eq!(r.state, RunnerState::Stopping);
    let mut r = Runner::new(TaskInfo::new(1, 2, 3));
    r.on_connect(true);
    assert_eq!(r.on_stream_error(), RunnerAction::Stop);
}

#[test]
fn messages() {
    let info = TaskInfo::new(1, 2, 3);
    assert_eq!(TrySchedule::new(ScheduleMode::StealOnly).mode, ScheduleMode::StealOnly);
    assert_eq!(UpdateEntry::new(info, 5).body, Some(5));
    assert_eq!(UpdateEntry::empty_payload(info).body, None);
    assert!(UpdateAll::new(true).evict);
    assert_eq!(CheckOwnership { info }.info, info);
    let ctor = TwitterCtor::new(Schedule::default(), "tok");
    assert_eq!(ctor.token, "tok");
}

#[test]
fn twitter_cursor_advances() {
    let e = TwitterEntry { uid: 1, since: Some(10) };
    assert_eq!(e.next_since(Some(12)).since, Some(12));
    assert_eq!(e.next_since(None).since, Some(10));
}

#[test]
fn timestamp_truncates_to_i64() {
    assert_eq!(timestamp(1_700_000_000_123), 1_700_000_000_123);
    assert_eq!(timestamp(1u128 << 64), 0);
}
