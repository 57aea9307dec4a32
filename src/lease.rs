use vstd::prelude::*;

use rand::seq::SliceRandom;

use crate::model::{SchedulerMeta, TaskInfo, WorkerInfo};

verus! {

/// How a schedule attempt looks for a task.
#[derive(Debug, Copy, Clone, PartialEq, Eq, Structural)]
pub enum ScheduleMode {
    /// Take over an outdated task; if there is none, steal from an overloaded peer.
    Auto,
    /// Take over outdated tasks only.
    OutdatedOnly,
    /// Steal a task preemptively.
    StealOnly,
}

impl Default for ScheduleMode {
    fn default() -> (r: Self)
        ensures
            r == ScheduleMode::Auto,
    {
        ScheduleMode::Auto
    }
}

/// Outcome of one steal attempt.
#[derive(Debug, Clone, PartialEq, Eq)]
pub enum ScheduleResult<T> {
    /// The task was acquired.
    Acquired(T),
    /// There is nothing to acquire.
    Idle,
    /// Another scheduler moved first; retry with fresh state.
    Conflict,
}

/// A task is live when its heartbeat is at or after `since`.
pub open spec fn is_live(heartbeat: Option<i64>, since: i64) -> bool {
    match heartbeat {
        Some(t) => t >= since,
        None => false,
    }
}

/// Oldest heartbeat that still counts as live: `now - max_interval`.
pub fn since_ts(now_ms: i64, max_interval_ms: u64) -> (r: i64)
    requires
        now_ms - max_interval_ms >= i64::MIN,
    ensures
        r == now_ms - max_interval_ms,
{
    (now_ms as i128 - max_interval_ms as i128) as i64
}

/// The acquire-outdated predicate: the heartbeat is missing or older than `since`.
pub fn is_outdated(heartbeat: Option<i64>, since: i64) -> (r: bool)
    ensures
        r == !is_live(heartbeat, since),
{
    match heartbeat {
        Some(t) => t < since,
        None => true,
    }
}

/// Share of live tasks each worker is entitled to: `floor(total / (peers + 1))`.
pub open spec fn expected_of(total: nat, peers: nat) -> nat {
    total / (peers + 1)
}

/// A peer above this count is a victim.
pub open spec fn threshold_of(self_count: nat, expected: nat) -> nat {
    if self_count < expected {
        expected
    } else {
        expected + 1
    }
}

/// A worker steals when it holds no more than its share and some peer holds
/// more than the threshold.
pub open spec fn steal_allowed(total: nat, self_count: nat, peer_counts: Seq<nat>) -> bool {
    let e = expected_of(total, peer_counts.len());
    &&& self_count <= e
    &&& exists|k: int|
        0 <= k < peer_counts.len() && #[trigger] peer_counts[k] > threshold_of(self_count, e)
}

/// The counts of a group-by result.
pub open spec fn counts_of(peers: Seq<WorkerInfo>) -> Seq<nat> {
    peers.map_values(|w: WorkerInfo| w.count as nat)
}

pub open spec fn over(threshold: nat) -> spec_fn(WorkerInfo) -> bool {
    |w: WorkerInfo| w.count as nat > threshold
}

/// The peers that a steal may pick from.
pub open spec fn victims_of(peers: Seq<WorkerInfo>, threshold: nat) -> Seq<WorkerInfo> {
    peers.filter(over(threshold))
}

/// The decision of steps 3 to 5 of a steal: the threshold and the victims.
#[derive(Debug, Clone)]
pub struct StealPlan {
    pub threshold: u64,
    pub victims: Vec<WorkerInfo>,
}

/// Floor division of the live count by the number of workers that can be seen.
pub fn expected_share(total: u64, peers: usize) -> (r: u64)
    ensures
        r == expected_of(total as nat, peers as nat),
{
    let w = peers as u64;
    if w == u64::MAX {
        proof {
            vstd::arithmetic::div_mod::lemma_basic_div(total as int, (peers + 1) as int);
        }
        0
    } else {
        total / (w + 1)
    }
}

/// Keeps the peers whose count exceeds `threshold`, in their order.
pub fn select_victims(peers: &Vec<WorkerInfo>, threshold: u64) -> (r: Vec<WorkerInfo>)
    ensures
        r@ == victims_of(peers@, threshold as nat),
{
    let mut victims: Vec<WorkerInfo> = Vec::new();
    let mut i: usize = 0;
    while i < peers.len()
        invariant
            i <= peers.len(),
            victims@ == peers@.take(i as int).filter(over(threshold as nat)),
        decreases peers.len() - i,
    {
        let w = peers[i];
        proof {
            assert(peers@.take(i as int + 1) == peers@.take(i as int).push(w));
            peers@.take(i as int).lemma_filter_push(w, over(threshold as nat));
        }
        if w.count > threshold {
            victims.push(w);
        }
        i += 1;
    }
    proof {
        assert(peers@.take(peers.len() as int) == peers@);
    }
    victims
}

proof fn lemma_victims_exist(peers: Seq<WorkerInfo>, threshold: nat)
    ensures
        victims_of(peers, threshold).len() > 0 <==> exists|k: int|
            0 <= k < counts_of(peers).len() && #[trigger] counts_of(peers)[k] > threshold,
{
    let v = victims_of(peers, threshold);
    if v.len() > 0 {
        peers.lemma_filter_contains_rev(over(threshold), v[0]);
        assert(peers.filter(over(threshold)).contains(v[0]));
        peers.lemma_filter_pred(over(threshold), 0);
        let k = choose|k: int| 0 <= k < peers.len() && peers[k] == v[0];
        assert(counts_of(peers)[k] > threshold);
    }
    if exists|k: int| 0 <= k < counts_of(peers).len() && #[trigger] counts_of(peers)[k] > threshold {
        let k = choose|k: int| 0 <= k < counts_of(peers).len() && #[trigger] counts_of(peers)[k] > threshold;
        assert(over(threshold)(peers[k]));
        peers.lemma_filter_contains(over(threshold), k);
    }
}

/// Steps 3 to 5 of a steal: from the live count, this scheduler's own count
/// and the group-by of its peers, decide whether to steal, and from whom.
pub fn plan_steal(total: u64, meta: SchedulerMeta, peers: &Vec<WorkerInfo>) -> (r: Option<StealPlan>)
    ensures
        r.is_some() <==> steal_allowed(total as nat, meta.actor_count as nat, counts_of(peers@)),
        r matches Some(p) ==> {
            &&& p.threshold == threshold_of(
                meta.actor_count as nat,
                expected_of(total as nat, peers@.len()),
            )
            &&& p.victims@ == victims_of(peers@, p.threshold as nat)
            &&& p.victims@.len() > 0
        },
{
    let expected = expected_share(total, peers.len());
    let self_count = meta.actor_count as u64;
    proof {
        lemma_victims_exist(peers@, threshold_of(self_count as nat, expected as nat));
    }
    if self_count > expected {
        return None;
    }
    if self_count == expected && expected == u64::MAX {
        // No count can exceed the threshold, so there is nobody to steal from.
        return None;
    }
    let threshold = if self_count < expected {
        expected
    } else {
        expected + 1
    };
    let victims = select_victims(peers, threshold);
    if victims.len() == 0 {
        None
    } else {
        Some(StealPlan { threshold, victims })
    }
}

/// Step 6 of a steal, first half: one of the plan's victims, picked at random.
pub fn pick_victim(plan: &StealPlan) -> (r: Option<WorkerInfo>)
    ensures
        r is None <==> plan.victims@.len() == 0,
        r matches Some(v) ==> plan.victims@.contains(v),
{
    choose_one(&plan.victims)
}

/// Step 6 of a steal: the victim's live tasks, listed afresh, still exceed the
/// threshold; then one of them is picked at random. Otherwise the listing
/// shows that another scheduler stole first.
pub fn pick_steal_target(tasks: &Vec<TaskInfo>, threshold: u64) -> (r: ScheduleResult<TaskInfo>)
    ensures
        r is Acquired <==> tasks@.len() > threshold,
        r is Conflict <==> tasks@.len() <= threshold,
        r matches ScheduleResult::Acquired(t) ==> tasks@.contains(t),
{
    if tasks.len() as u64 > threshold {
        match choose_one(tasks) {
            Some(t) => ScheduleResult::Acquired(t),
            None => ScheduleResult::Conflict,
        }
    } else {
        ScheduleResult::Conflict
    }
}

/// The conditional update of a steal either returns the updated document or,
/// when the lease no longer matches, reports a conflict.
pub fn steal_outcome<T>(updated: Option<T>) -> (r: ScheduleResult<T>)
    ensures
        updated matches Some(d) ==> r == ScheduleResult::Acquired(d),
        updated is None ==> r is Conflict,
{
    match updated {
        Some(d) => ScheduleResult::Acquired(d),
        None => ScheduleResult::Conflict,
    }
}

/// Relies on rand's `SliceRandom::choose`: `None` on an empty slice, else one
/// of its elements.
#[verifier::external_body]
pub(crate) fn choose_one<T: Copy>(items: &Vec<T>) -> (r: Option<T>)
    ensures
        r is None <==> items@.len() == 0,
        r matches Some(x) ==> items@.contains(x),
{
    items.as_slice().choose(&mut rand::thread_rng()).copied()
}

/// What a schedule attempt does next.
#[derive(Debug, Copy, Clone, PartialEq, Eq, Structural)]
pub enum ScheduleStep {
    /// Run the acquire-outdated conditional update.
    Acquire,
    /// Run one steal attempt.
    StealOnce,
    /// Stop; the last result is the answer.
    Finish,
}

/// The mode selector of a schedule attempt, as a machine that the caller runs
/// against the store.
#[derive(Debug, Copy, Clone, PartialEq, Eq, Structural)]
pub struct ScheduleFlow {
    pub mode: ScheduleMode,
}

impl ScheduleFlow {
    pub fn new(mode: ScheduleMode) -> (r: ScheduleFlow)
        ensures
            r.mode == mode,
    {
        ScheduleFlow { mode }
    }

    /// The first step: steal-only attempts skip the takeover.
    pub fn first_step(&self) -> (r: ScheduleStep)
        ensures
            r == (if self.mode == ScheduleMode::StealOnly {
                ScheduleStep::StealOnce
            } else {
                ScheduleStep::Acquire
            }),
    {
        match self.mode {
            ScheduleMode::StealOnly => ScheduleStep::StealOnce,
            _ => ScheduleStep::Acquire,
        }
    }

    /// After a takeover: done if it won a task; in `Auto` mode, go on stealing.
    pub fn after_acquire(&self, acquired: bool) -> (r: ScheduleStep)
        ensures
            r == (if !acquired && self.mode == ScheduleMode::Auto {
                ScheduleStep::StealOnce
            } else {
                ScheduleStep::Finish
            }),
    {
        if !acquired && self.mode == ScheduleMode::Auto {
            ScheduleStep::StealOnce
        } else {
            ScheduleStep::Finish
        }
    }

    /// After a steal attempt: retry on conflict, else done.
    pub fn after_steal<T>(&self, result: &ScheduleResult<T>) -> (r: ScheduleStep)
        ensures
            r == (if result is Conflict {
                ScheduleStep::StealOnce
            } else {
                ScheduleStep::Finish
            }),
    {
        match result {
            ScheduleResult::Conflict => ScheduleStep::StealOnce,
            _ => ScheduleStep::Finish,
        }
    }
}

} // verus!

verus! {

/// Total of a run of counts.
pub open spec fn sum_counts(s: Seq<nat>) -> nat
    decreases s.len(),
{
    if s.len() == 0 {
        0
    } else {
        sum_counts(s.drop_last()) + s.last()
    }
}

/// What worker `i` learns from the group-by of live tasks: the counts of the
/// other workers that hold at least one.
pub open spec fn peer_view(counts: Seq<nat>, i: int) -> Seq<nat>
    decreases counts.len(),
{
    if counts.len() == 0 {
        Seq::empty()
    } else {
        let rest = peer_view(counts.drop_last(), i);
        if counts.len() - 1 != i && counts.last() > 0 {
            rest.push(counts.last())
        } else {
            rest
        }
    }
}

proof fn lemma_view_sum(counts: Seq<nat>, i: int)
    ensures
        sum_counts(counts) == (if 0 <= i < counts.len() {
            counts[i]
        } else {
            0
        }) + sum_counts(peer_view(counts, i)),
    decreases counts.len(),
{
    if counts.len() > 0 {
        let init = counts.drop_last();
        lemma_view_sum(init, i);
        if 0 <= i < init.len() {
            assert(init[i] == counts[i]);
        }
        let rest = peer_view(init, i);
        if counts.len() - 1 != i && counts.last() > 0 {
            assert(rest.push(counts.last()).drop_last() == rest);
        }
    }
}

proof fn lemma_view_len(counts: Seq<nat>, i: int)
    ensures
        peer_view(counts, i).len() + (if 0 <= i < counts.len() {
            1int
        } else {
            0
        }) <= counts.len(),
    decreases counts.len(),
{
    if counts.len() > 0 {
        lemma_view_len(counts.drop_last(), i);
    }
}

proof fn lemma_view_has(counts: Seq<nat>, i: int, k: int)
    requires
        0 <= k < counts.len(),
        k != i,
        counts[k] > 0,
    ensures
        exists|m: int| 0 <= m < peer_view(counts, i).len() && peer_view(counts, i)[m] == counts[k],
    decreases counts.len(),
{
    let init = counts.drop_last();
    let rest = peer_view(init, i);
    if k == counts.len() - 1 {
        assert(peer_view(counts, i)[rest.len() as int] == counts[k]);
    } else {
        assert(init[k] == counts[k]);
        lemma_view_has(init, i, k);
        let m = choose|m: int| 0 <= m < rest.len() && rest[m] == init[k];
        assert(peer_view(counts, i)[m] == counts[k]);
    }
}

proof fn lemma_sum_upper(s: Seq<nat>, b: nat)
    requires
        forall|k: int| 0 <= k < s.len() ==> #[trigger] s[k] <= b,
    ensures
        sum_counts(s) <= s.len() * b,
    decreases s.len(),
{
    if s.len() > 0 {
        let init = s.drop_last();
        assert forall|k: int| 0 <= k < init.len() implies #[trigger] init[k] <= b by {
            assert(init[k] == s[k]);
        }
        lemma_sum_upper(init, b);
        let n = s.len();
        assert(sum_counts(init) + s.last() <= (n - 1) * b + b);
        assert((n - 1) * b + b == n * b) by (nonlinear_arith);
    }
}

proof fn lemma_sum_lower(s: Seq<nat>, b: nat, i: int, extra: nat)
    requires
        forall|k: int| 0 <= k < s.len() && k != i ==> #[trigger] s[k] >= b,
        0 <= i < s.len() ==> s[i] >= b + extra,
    ensures
        sum_counts(s) >= s.len() * b + (if 0 <= i < s.len() {
            extra
        } else {
            0
        }),
    decreases s.len(),
{
    if s.len() > 0 {
        let init = s.drop_last();
        assert forall|k: int| 0 <= k < init.len() && k != i implies #[trigger] init[k] >= b by {
            assert(init[k] == s[k]);
        }
        if 0 <= i < init.len() {
            assert(init[i] == s[i]);
        }
        lemma_sum_lower(init, b, i, extra);
        let n = s.len();
        assert((n - 1) * b + b == n * b) by (nonlinear_arith);
    }
}

/// A worker below its own expected share always finds a victim.
proof fn lemma_underloaded_steals(counts: Seq<nat>, i: int)
    requires
        0 <= i < counts.len(),
        counts[i] < expected_of(sum_counts(counts), peer_view(counts, i).len()),
    ensures
        steal_allowed(sum_counts(counts), counts[i], peer_view(counts, i)),
{
    let n = sum_counts(counts);
    let pv = peer_view(counts, i);
    let p = pv.len();
    let e = expected_of(n, p);
    lemma_view_sum(counts, i);
    if !(exists|k: int| 0 <= k < pv.len() && #[trigger] pv[k] > threshold_of(counts[i], e)) {
        assert forall|k: int| 0 <= k < pv.len() implies #[trigger] pv[k] <= e by {}
        lemma_sum_upper(pv, e);
        vstd::arithmetic::div_mod::lemma_fundamental_div_mod(n as int, (p + 1) as int);
        assert((p + 1) * e == e + p * e) by (nonlinear_arith);
        assert(false);
    }
}

/// Balance after convergence: among `counts.len()` workers holding
/// `sum_counts(counts)` live tasks, when no worker's steal plan (from its own
/// count and the group-by it sees) finds a victim, every worker holds
/// `floor(N/W)` or `ceil(N/W)` tasks.
pub proof fn lemma_balanced_when_no_steal(counts: Seq<nat>)
    requires
        counts.len() > 0,
        forall|i: int|
            0 <= i < counts.len() ==> !steal_allowed(
                sum_counts(counts),
                #[trigger] counts[i],
                peer_view(counts, i),
            ),
    ensures
        forall|i: int|
            0 <= i < counts.len() ==> {
                &&& sum_counts(counts) / counts.len() <= #[trigger] counts[i]
                &&& counts[i] <= sum_counts(counts) / counts.len() + 1
                &&& sum_counts(counts) % counts.len() == 0 ==> counts[i] == sum_counts(counts)
                    / counts.len()
            },
{
    let n = sum_counts(counts);
    let w = counts.len();
    let e = n / w;
    vstd::arithmetic::div_mod::lemma_fundamental_div_mod(n as int, w as int);
    assert forall|i: int| 0 <= i < w implies e <= #[trigger] counts[i] by {
        lemma_view_len(counts, i);
        let p = peer_view(counts, i).len();
        vstd::arithmetic::div_mod::lemma_div_is_ordered_by_denominator(n as int, (p + 1) as int, w as int);
        if counts[i] < e {
            lemma_underloaded_steals(counts, i);
        }
    }
    assert forall|i: int| 0 <= i < w implies {
        &&& #[trigger] counts[i] <= e + 1
        &&& n % w == 0 ==> counts[i] == e
    } by {
        if n % w == 0 && counts[i] > e {
            lemma_sum_lower(counts, e, i, 1);
            assert(w * e + n % w == n);
        }
        if counts[i] > e + 1 {
            if forall|j: int| 0 <= j < w && j != i ==> #[trigger] counts[j] >= e + 1 {
                lemma_sum_lower(counts, e + 1, i, 1);
                assert(w * (e + 1) == w * e + w) by (nonlinear_arith);
                assert(false);
            }
            let j = choose|j: int| 0 <= j < w && j != i && #[trigger] counts[j] < e + 1;
            assert(counts[j] == e);
            lemma_view_len(counts, j);
            let pj = peer_view(counts, j).len();
            vstd::arithmetic::div_mod::lemma_div_is_ordered_by_denominator(
                n as int,
                (pj + 1) as int,
                w as int,
            );
            if counts[j] < expected_of(n, pj) {
                lemma_underloaded_steals(counts, j);
            }
            lemma_view_has(counts, j, i);
            let m = choose|m: int|
                0 <= m < peer_view(counts, j).len() && peer_view(counts, j)[m] == counts[i];
            assert(peer_view(counts, j)[m] > threshold_of(counts[j], expected_of(n, pj)));
            assert(steal_allowed(n, counts[j], peer_view(counts, j)));
        }
    }
}

} // verus!

verus! {

/// What a steal round asks of the store next, or its result.
#[derive(Debug, Clone, PartialEq, Eq)]
pub enum StealStep<D> {
    /// Count the live tasks, then call `on_count`.
    CountLive,
    /// Group the live tasks of other holders, then call `on_peers`.
    GroupPeers,
    /// List this holder's live tasks, then call `on_listing`.
    ListTasks(u128),
    /// Move this lease with a conditional update, then call `on_cas`.
    Cas(TaskInfo),
    /// The round is over.
    Done(ScheduleResult<D>),
}

/// One steal, as a machine the caller runs against its store: steps 1 to 6
/// of the steal, each decision made here.
#[derive(Debug, Copy, Clone, PartialEq, Eq, Structural)]
pub struct StealRound {
    pub meta: SchedulerMeta,
    pub total: u64,
    pub threshold: u64,
}

impl StealRound {
    pub fn new<D>(meta: SchedulerMeta) -> (r: (StealRound, StealStep<D>))
        ensures
            r.0.meta == meta,
            r.1 == StealStep::<D>::CountLive,
    {
        (StealRound { meta, total: 0, threshold: 0 }, StealStep::CountLive)
    }

    /// Step 1: the live count.
    pub fn on_count<D>(&mut self, total: u64) -> (r: StealStep<D>)
        ensures
            final(self).meta == old(self).meta,
            final(self).total == total,
            r == StealStep::<D>::GroupPeers,
    {
        self.total = total;
        StealStep::GroupPeers
    }

    /// Steps 2 to 6, first half: plan from the group-by, and pick a victim.
    pub fn on_peers<D>(&mut self, peers: &Vec<WorkerInfo>) -> (r: StealStep<D>)
        ensures
            final(self).meta == old(self).meta,
            final(self).total == old(self).total,
            r == StealStep::<D>::Done(ScheduleResult::Idle) <==> !steal_allowed(
                old(self).total as nat,
                old(self).meta.actor_count as nat,
                counts_of(peers@),
            ),
            r is Done || r is ListTasks,
            r is Done ==> r == StealStep::<D>::Done(ScheduleResult::Idle),
            r matches StealStep::ListTasks(id) ==> {
                &&& final(self).threshold == threshold_of(
                    old(self).meta.actor_count as nat,
                    expected_of(old(self).total as nat, peers@.len()),
                )
                &&& exists|k: int|
                    0 <= k < peers@.len() && (#[trigger] peers@[k]).id == id && peers@[k].count
                        > final(self).threshold
            },
    {
        match plan_steal(self.total, self.meta, peers) {
            None => StealStep::Done(ScheduleResult::Idle),
            Some(plan) => {
                self.threshold = plan.threshold;
                match pick_victim(&plan) {
                    Some(v) => {
                        proof {
                            peers@.lemma_filter_contains_rev(over(plan.threshold as nat), v);
                        }
                        StealStep::ListTasks(v.id)
                    },
                    None => StealStep::Done(ScheduleResult::Idle),
                }
            },
        }
    }

    /// Step 6, second half: the victim's fresh listing still exceeds the
    /// threshold, and one task is picked; otherwise another scheduler stole
    /// first.
    pub fn on_listing<D>(&self, tasks: &Vec<TaskInfo>) -> (r: StealStep<D>)
        ensures
            r is Cas <==> tasks@.len() > self.threshold,
            r matches StealStep::Cas(t) ==> tasks@.contains(t),
            !(r is Cas) ==> r == StealStep::<D>::Done(ScheduleResult::Conflict),
    {
        match pick_steal_target(tasks, self.threshold) {
            ScheduleResult::Acquired(t) => StealStep::Cas(t),
            _ => StealStep::Done(ScheduleResult::Conflict),
        }
    }

    /// The conditional update's outcome ends the round.
    pub fn on_cas<D>(&self, updated: Option<D>) -> (r: StealStep<D>)
        ensures
            updated matches Some(d) ==> r == StealStep::Done(ScheduleResult::Acquired(d)),
            updated is None ==> r == StealStep::<D>::Done(ScheduleResult::Conflict),
    {
        StealStep::Done(steal_outcome(updated))
    }
}

} // verus!

verus! {

/// Liveness boundary: once more than `max_interval` has passed since a
/// task's last heartbeat, every takeover attempt's predicate matches it.
pub proof fn lemma_stale_after_max_interval(last_heartbeat: i64, now: i64, max_interval: u64)
    requires
        now - max_interval > last_heartbeat,
        now - max_interval >= i64::MIN,
    ensures
        !is_live(Some(last_heartbeat), (now - max_interval) as i64),
{
}

} // verus!
