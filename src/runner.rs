use vstd::prelude::*;

use crate::config::Schedule;
use crate::lease::ScheduleMode;
use crate::model::TaskInfo;

verus! {

/// Life cycle of a task runner.
#[derive(Debug, Copy, Clone, PartialEq, Eq, Structural)]
pub enum RunnerState {
    Starting,
    Streaming,
    Stopping,
}

/// What a runner does next.
#[derive(Debug, Copy, Clone, PartialEq, Eq, Structural)]
pub enum RunnerAction {
    /// Ask the scheduler whether the lease is still held.
    CheckOwnership,
    /// Hand the pending event to the collector.
    Publish,
    /// Keep going.
    Continue,
    /// Stop the runner.
    Stop,
}

/// The decisions of one task runner, as a machine that the caller drives with
/// the outcomes of its connection, upstream stream, ownership checks and
/// heartbeats.
#[derive(Debug, Copy, Clone, PartialEq, Eq, Structural)]
pub struct Runner {
    pub info: TaskInfo,
    pub state: RunnerState,
    /// An upstream event waits for its ownership check.
    pub pending: bool,
}

impl Runner {
    pub fn new(info: TaskInfo) -> (r: Runner)
        ensures
            r.info == info,
            r.state == RunnerState::Starting,
            !r.pending,
    {
        Runner { info, state: RunnerState::Starting, pending: false }
    }

    /// The upstream connection was or was not established.
    pub fn on_connect(&mut self, ok: bool) -> (r: RunnerAction)
        ensures
            final(self).info == old(self).info,
            !final(self).pending,
            old(self).state == RunnerState::Starting && ok ==> final(self).state
                == RunnerState::Streaming && r == RunnerAction::Continue,
            !(old(self).state == RunnerState::Starting && ok) ==> final(self).state
                == RunnerState::Stopping && r == RunnerAction::Stop,
    {
        self.pending = false;
        if self.state == RunnerState::Starting && ok {
            self.state = RunnerState::Streaming;
            RunnerAction::Continue
        } else {
            self.state = RunnerState::Stopping;
            RunnerAction::Stop
        }
    }

    /// An interesting upstream item arrived: its publication waits for an
    /// ownership check.
    pub fn on_event(&mut self) -> (r: RunnerAction)
        ensures
            final(self).info == old(self).info,
            final(self).state == old(self).state,
            old(self).state == RunnerState::Streaming ==> final(self).pending && r
                == RunnerAction::CheckOwnership,
            old(self).state != RunnerState::Streaming ==> final(self).pending == old(self).pending
                && r == RunnerAction::Continue,
    {
        if self.state == RunnerState::Streaming {
            self.pending = true;
            RunnerAction::CheckOwnership
        } else {
            RunnerAction::Continue
        }
    }

    /// The outcome of the ownership check: publish only while streaming and
    /// still owning the lease; a lost lease stops the runner.
    pub fn on_ownership(&mut self, owned: bool) -> (r: RunnerAction)
        ensures
            final(self).info == old(self).info,
            !final(self).pending,
            r == RunnerAction::Publish <==> (old(self).state == RunnerState::Streaming
                && old(self).pending && owned),
            !owned ==> final(self).state == RunnerState::Stopping && r == RunnerAction::Stop,
            owned ==> final(self).state == old(self).state,
    {
        let pending = self.pending;
        self.pending = false;
        if !owned {
            self.state = RunnerState::Stopping;
            RunnerAction::Stop
        } else if self.state == RunnerState::Streaming && pending {
            RunnerAction::Publish
        } else {
            RunnerAction::Continue
        }
    }

    /// The outcome of a heartbeat (`update_entry`): `false` means the lease is
    /// lost, and the runner stops.
    pub fn on_heartbeat(&mut self, renewed: bool) -> (r: RunnerAction)
        ensures
            final(self).info == old(self).info,
            !renewed ==> final(self).state == RunnerState::Stopping && !final(self).pending && r
                == RunnerAction::Stop,
            renewed ==> *final(self) == *old(self) && r == RunnerAction::Continue,
    {
        if renewed {
            RunnerAction::Continue
        } else {
            self.state = RunnerState::Stopping;
            self.pending = false;
            RunnerAction::Stop
        }
    }

    /// The upstream stream failed.
    pub fn on_stream_error(&mut self) -> (r: RunnerAction)
        ensures
            final(self).info == old(self).info,
            final(self).state == RunnerState::Stopping,
            !final(self).pending,
            r == RunnerAction::Stop,
    {
        self.state = RunnerState::Stopping;
        self.pending = false;
        RunnerAction::Stop
    }
}

/// Once stopping, a runner publishes nothing more, whatever outcomes follow.
pub proof fn lemma_stopped_runner_never_publishes(r: Runner, owned: bool)
    requires
        r.state == RunnerState::Stopping,
    ensures
        !(r.state == RunnerState::Streaming && r.pending && owned),
{
}

/// A non-owning back-reference from a runner to its scheduler.
#[derive(Debug, Copy, Clone, PartialEq, Eq, Structural)]
pub struct SchedulerRef {
    pub id: u128,
}

/// Access to the lease incarnation a runner works under.
pub trait InfoGetter {
    fn get_info(&self) -> TaskInfo;
}

/// Access to the scheduler a runner reports to.
pub trait SchedulerGetter {
    fn get_scheduler(&self) -> SchedulerRef;
}

/// Both getters, which every runner offers.
pub trait TaskFieldGetter: SchedulerGetter + InfoGetter {}

impl<T: SchedulerGetter + InfoGetter> TaskFieldGetter for T {}

/// A request to a scheduler: one schedule attempt in the given mode.
#[derive(Debug, Copy, Clone, PartialEq, Eq, Structural)]
pub struct TrySchedule {
    pub mode: ScheduleMode,
}

impl TrySchedule {
    pub fn new(mode: ScheduleMode) -> (r: TrySchedule)
        ensures
            r.mode == mode,
    {
        TrySchedule { mode }
    }
}

/// A request to a scheduler: is this lease incarnation still held?
#[derive(Debug, Copy, Clone, PartialEq, Eq, Structural)]
pub struct CheckOwnership {
    pub info: TaskInfo,
}

/// A request to a scheduler: renew a lease, persisting a cursor if given.
#[derive(Debug, Copy, Clone, PartialEq, Eq, Structural)]
pub struct UpdateEntry {
    pub info: TaskInfo,
    pub body: Option<u64>,
}

impl UpdateEntry {
    pub fn new(info: TaskInfo, body: u64) -> (r: UpdateEntry)
        ensures
            r.info == info,
            r.body == Some(body),
    {
        UpdateEntry { info, body: Some(body) }
    }

    /// A heartbeat that writes nothing but the heartbeat itself.
    pub fn empty_payload(info: TaskInfo) -> (r: UpdateEntry)
        ensures
            r.info == info,
            r.body is None,
    {
        UpdateEntry { info, body: None }
    }
}

/// A request to a scheduler: heartbeat every handle; with `evict`, stop the
/// runners whose lease is lost.
#[derive(Debug, Copy, Clone, PartialEq, Eq, Structural)]
pub struct UpdateAll {
    pub evict: bool,
}

impl UpdateAll {
    pub fn new(evict: bool) -> (r: UpdateAll)
        ensures
            r.evict == evict,
    {
        UpdateAll { evict }
    }
}

/// A request to a scheduler for its identity.
#[derive(Debug, Copy, Clone, PartialEq, Eq, Structural)]
pub struct GetId;

/// A request to a scheduler to reap dead runners.
#[derive(Debug, Copy, Clone, PartialEq, Eq, Structural)]
pub struct TriggerGC;

/// A request to a worker to steal one task.
#[derive(Debug, Copy, Clone, PartialEq, Eq, Structural)]
pub struct TrySteal;

impl TrySteal {
    pub fn new() -> (r: TrySteal) {
        TrySteal
    }
}

/// What a twitter runner is built with: timing and the auth token.
#[derive(Debug, Clone, PartialEq, Eq)]
pub struct TwitterCtor {
    pub schedule_config: Schedule,
    pub token: String,
}

impl TwitterCtor {
    pub fn new(schedule_config: Schedule, token: &str) -> (r: TwitterCtor)
        ensures
            r.schedule_config == schedule_config,
            r.token@ == token@,
    {
        TwitterCtor { schedule_config, token: token.to_string() }
    }
}

/// Parameters of a debug task.
#[derive(Debug, Copy, Clone, PartialEq, Eq, Structural)]
pub struct DebugEntry {
    pub id: u64,
}

/// Parameters of a live-stream task.
#[derive(Debug, Copy, Clone, PartialEq, Eq, Structural)]
pub struct BililiveEntry {
    pub uid: u64,
}

/// Parameters of a twitter task: the user, and the newest tweet id seen.
#[derive(Debug, Copy, Clone, PartialEq, Eq, Structural)]
pub struct TwitterEntry {
    pub uid: u64,
    pub since: Option<u64>,
}

/// The cursor a twitter runner persists.
#[derive(Debug, Copy, Clone, PartialEq, Eq, Structural)]
pub struct TwitterSince {
    pub since: Option<u64>,
}

/// A tweet as published to the collector.
#[derive(Debug, Clone, PartialEq, Eq)]
pub struct Tweet {
    pub text: String,
    pub photos: Vec<String>,
    pub link: String,
    pub is_rt: bool,
}

impl TwitterEntry {
    /// The cursor after a fetch: the id of the newest tweet fetched, or the
    /// previous cursor when nothing new came.
    pub fn next_since(&self, newest_id: Option<u64>) -> (r: TwitterSince)
        ensures
            r.since == (match newest_id {
                Some(id) => Some(id),
                None => self.since,
            }),
    {
        match newest_id {
            Some(id) => TwitterSince { since: Some(id) },
            None => TwitterSince { since: self.since },
        }
    }
}

/// Milliseconds since the epoch, as stored in `heartbeat_ms`; wider values
/// are truncated to 64 bits.
pub fn timestamp(millis_since_epoch: u128) -> (r: i64)
    ensures
        r == millis_since_epoch as i64,
{
    millis_since_epoch as i64
}

} // verus!
