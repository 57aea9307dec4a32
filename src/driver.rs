use vstd::prelude::*;

use rand::Rng;

use crate::config::Schedule;
use crate::lease::ScheduleMode;

verus! {

/// Upper bound (exclusive) of the random delay before a tick fires, in milliseconds.
pub const JITTER_BOUND_MS: u64 = 1000;

/// Relies on rand's `Rng::gen_range` over `0..bound`: a value in that range
/// (it panics on an empty range).
#[verifier::external_body]
fn random_below(bound: u64) -> (r: u64)
    requires
        bound > 0,
    ensures
        r < bound,
{
    rand::thread_rng().gen_range(0..bound)
}

/// A request to run one schedule attempt in `mode` on every registered
/// scheduler, after a delay.
#[derive(Debug, Copy, Clone, PartialEq, Eq, Structural)]
pub struct ScheduleAll {
    pub mode: ScheduleMode,
    pub delay_ms: u64,
}

/// The pacing state of a schedule driver: a fast timer for takeover, and a
/// slow timer for rebalance that skips its first firing.
#[derive(Debug, Copy, Clone, PartialEq, Eq, Structural)]
pub struct ScheduleDriver {
    pub config: Schedule,
    pub skip_once: bool,
}

impl ScheduleDriver {
    pub fn new(config: Schedule) -> (r: ScheduleDriver)
        ensures
            r.config == config,
            r.skip_once,
    {
        ScheduleDriver { config, skip_once: true }
    }

    /// A firing of the fast timer: takeover only, with jitter.
    pub fn on_fast_tick(&self) -> (r: ScheduleAll)
        ensures
            r.mode == ScheduleMode::OutdatedOnly,
            r.delay_ms < JITTER_BOUND_MS,
    {
        ScheduleAll { mode: ScheduleMode::OutdatedOnly, delay_ms: random_below(JITTER_BOUND_MS) }
    }

    /// A firing of the slow timer: nothing the first time, afterwards a steal
    /// round with jitter.
    pub fn on_balance_tick(&mut self) -> (r: Option<ScheduleAll>)
        ensures
            final(self).config == old(self).config,
            !final(self).skip_once,
            old(self).skip_once ==> r is None,
            !old(self).skip_once ==> (r matches Some(a) && a.mode == ScheduleMode::StealOnly
                && a.delay_ms < JITTER_BOUND_MS),
    {
        if self.skip_once {
            self.skip_once = false;
            None
        } else {
            Some(ScheduleAll { mode: ScheduleMode::StealOnly, delay_ms: random_below(JITTER_BOUND_MS) })
        }
    }
}

/// One round of a schedule request: the positions, in order, of the
/// schedulers that acquired a task and so get another try.
pub fn schedule_round_survivors(acquired: &Vec<bool>) -> (r: Vec<usize>)
    ensures
        forall|k: int| 0 <= k < r@.len() ==> #[trigger] r@[k] < acquired@.len() && acquired@[r@[k] as int],
        forall|a: int, b: int| 0 <= a < b < r@.len() ==> #[trigger] r@[a] < #[trigger] r@[b],
        forall|i: int|
            0 <= i < acquired@.len() && #[trigger] acquired@[i] ==> exists|k: int|
                0 <= k < r@.len() && r@[k] == i,
{
    let mut out: Vec<usize> = Vec::new();
    let mut i: usize = 0;
    while i < acquired.len()
        invariant
            i <= acquired@.len(),
            forall|k: int| 0 <= k < out@.len() ==> #[trigger] out@[k] < i && acquired@[out@[k] as int],
            forall|a: int, b: int| 0 <= a < b < out@.len() ==> #[trigger] out@[a] < #[trigger] out@[b],
            forall|j: int|
                0 <= j < i && #[trigger] acquired@[j] ==> exists|k: int| 0 <= k < out@.len() && out@[k] == j,
        decreases acquired.len() - i,
    {
        let ghost out0 = out@;
        if acquired[i] {
            out.push(i);
        }
        proof {
            assert forall|j: int| 0 <= j < i + 1 && #[trigger] acquired@[j] implies exists|k: int|
                0 <= k < out@.len() && out@[k] == j by {
                if j < i {
                    let k = choose|k: int| 0 <= k < out0.len() && out0[k] == j;
                    assert(out@[k] == out0[k]);
                } else {
                    assert(out@[out@.len() - 1] == j);
                }
            }
        }
        i += 1;
    }
    out
}

} // verus!
