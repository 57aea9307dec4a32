use vstd::prelude::*;

use crate::lease::is_live;
use crate::model::{TaskInfo, WorkerInfo};

verus! {

/// One task document with its lease fields.
#[derive(Debug, Copy, Clone, PartialEq, Eq, Structural)]
pub struct TaskDoc {
    pub doc_id: u128,
    /// Kind-specific parameter, opaque to the scheduler.
    pub payload: u64,
    pub lease_uuid: Option<u128>,
    pub owner_uuid: Option<u128>,
    pub heartbeat_ms: Option<i64>,
    /// Kind-specific progress marker.
    pub cursor: Option<u64>,
}

impl TaskDoc {
    /// A document that was never leased.
    pub fn new(doc_id: u128, payload: u64) -> (r: TaskDoc)
        ensures
            r == (TaskDoc {
                doc_id,
                payload,
                lease_uuid: None,
                owner_uuid: None,
                heartbeat_ms: None,
                cursor: None,
            }),
    {
        TaskDoc {
            doc_id,
            payload,
            lease_uuid: None,
            owner_uuid: None,
            heartbeat_ms: None,
            cursor: None,
        }
    }

    /// The lease incarnation that this document records, if leased.
    pub fn info(&self) -> (r: Option<TaskInfo>)
        ensures
            r == info_of(*self),
    {
        match (self.lease_uuid, self.owner_uuid) {
            (Some(uuid), Some(parent_uuid)) => Some(TaskInfo { doc_id: self.doc_id, uuid, parent_uuid }),
            _ => None,
        }
    }
}

pub open spec fn info_of(d: TaskDoc) -> Option<TaskInfo> {
    match (d.lease_uuid, d.owner_uuid) {
        (Some(uuid), Some(parent_uuid)) => Some(TaskInfo { doc_id: d.doc_id, uuid, parent_uuid }),
        _ => None,
    }
}

/// The fields that a lease operation sets: a fresh lease, its holder, and
/// the time of acquisition.
#[derive(Debug, Copy, Clone, PartialEq, Eq, Structural)]
pub struct LeaseUpdate {
    pub lease_uuid: u128,
    pub owner_uuid: u128,
    pub now_ms: i64,
}

impl LeaseUpdate {
    /// A lease update for scheduler `owner` at `now_ms`, with a freshly drawn
    /// lease uuid.
    pub fn new(owner: u128, now_ms: i64) -> (r: LeaseUpdate)
        ensures
            r.owner_uuid == owner,
            r.now_ms == now_ms,
    {
        LeaseUpdate { lease_uuid: fresh_uuid(), owner_uuid: owner, now_ms }
    }
}

/// Relies on `uuid::Uuid::new_v4`: a random uuid, as its 128-bit value.
#[verifier::external_body]
pub(crate) fn fresh_uuid() -> (r: u128) {
    uuid::Uuid::new_v4().as_u128()
}

pub open spec fn apply_lease(d: TaskDoc, u: LeaseUpdate) -> TaskDoc {
    TaskDoc {
        lease_uuid: Some(u.lease_uuid),
        owner_uuid: Some(u.owner_uuid),
        heartbeat_ms: Some(u.now_ms),
        ..d
    }
}

pub open spec fn lease_consistent(d: TaskDoc) -> bool {
    d.owner_uuid is Some <==> d.lease_uuid is Some
}

/// A write by a runner or scheduler matches on the document and its lease.
pub open spec fn holds_lease(d: TaskDoc, info: TaskInfo) -> bool {
    d.doc_id == info.doc_id && d.lease_uuid == Some(info.uuid)
}

/// A heartbeat: the heartbeat is set to `now`, the cursor only when the patch
/// carries one.
pub open spec fn heartbeat(d: TaskDoc, patch: Option<u64>, now: i64) -> TaskDoc {
    TaskDoc {
        heartbeat_ms: Some(now),
        cursor: match patch {
            Some(c) => Some(c),
            None => d.cursor,
        },
        ..d
    }
}

/// Live documents held by scheduler `owner`.
pub open spec fn owned_by(owner: u128, since: i64) -> spec_fn(TaskDoc) -> bool {
    |d: TaskDoc| is_live(d.heartbeat_ms, since) && d.owner_uuid == Some(owner)
}

/// The lease incarnation recorded by a document, with zero for a missing field.
pub open spec fn lease_info(d: TaskDoc) -> TaskInfo {
    TaskInfo {
        doc_id: d.doc_id,
        uuid: match d.lease_uuid {
            Some(u) => u,
            None => 0,
        },
        parent_uuid: match d.owner_uuid {
            Some(o) => o,
            None => 0,
        },
    }
}

pub open spec fn lease_infos(s: Seq<TaskDoc>) -> Seq<TaskInfo> {
    s.map_values(|d: TaskDoc| lease_info(d))
}

pub open spec fn live(since: i64) -> spec_fn(TaskDoc) -> bool {
    |d: TaskDoc| is_live(d.heartbeat_ms, since)
}

/// A collection of task documents with conditional updates.
#[derive(Debug, Clone)]
pub struct TaskStore {
    pub docs: Vec<TaskDoc>,
}

impl TaskStore {
    /// Document ids are unique, and a document has an owner exactly when it
    /// has a lease.
    pub open spec fn wf(&self) -> bool {
        &&& forall|i: int, j: int|
            0 <= i < j < self.docs@.len() ==> #[trigger] self.docs@[i].doc_id
                != #[trigger] self.docs@[j].doc_id
        &&& forall|i: int| 0 <= i < self.docs@.len() ==> lease_consistent(#[trigger] self.docs@[i])
    }

    pub fn new() -> (r: TaskStore)
        ensures
            r.wf(),
            r.docs@ == Seq::<TaskDoc>::empty(),
    {
        TaskStore { docs: Vec::new() }
    }

    /// Inserts a document; refused (`false`, nothing changed) when its id is taken.
    pub fn insert(&mut self, d: TaskDoc) -> (r: bool)
        requires
            old(self).wf(),
            lease_consistent(d),
        ensures
            final(self).wf(),
            r == !(exists|i: int|
                0 <= i < old(self).docs@.len() && (#[trigger] old(self).docs@[i]).doc_id == d.doc_id),
            r ==> final(self).docs@ == old(self).docs@.push(d),
            !r ==> final(self).docs@ == old(self).docs@,
    {
        let mut i: usize = 0;
        while i < self.docs.len()
            invariant
                i <= self.docs@.len(),
                self.docs@ == old(self).docs@,
                old(self).wf(),
                forall|k: int| 0 <= k < i ==> (#[trigger] self.docs@[k]).doc_id != d.doc_id,
            decreases self.docs.len() - i,
        {
            if self.docs[i].doc_id == d.doc_id {
                return false;
            }
            i += 1;
        }
        self.docs.push(d);
        true
    }

    /// Acquire-outdated: the first document whose heartbeat is missing or older
    /// than `since` gets the lease update, and is returned as updated.
    /// `None` when every document is live.
    pub fn acquire_outdated(&mut self, since: i64, u: LeaseUpdate) -> (r: Option<TaskDoc>)
        requires
            old(self).wf(),
        ensures
            final(self).wf(),
            r is None <==> forall|j: int|
                0 <= j < old(self).docs@.len() ==> is_live(
                    (#[trigger] old(self).docs@[j]).heartbeat_ms,
                    since,
                ),
            r is None ==> final(self).docs@ == old(self).docs@,
            r matches Some(d) ==> exists|i: int|
                0 <= i < old(self).docs@.len() && !is_live(old(self).docs@[i].heartbeat_ms, since)
                    && (forall|j: int|
                    0 <= j < i ==> is_live((#[trigger] old(self).docs@[j]).heartbeat_ms, since))
                    && d == apply_lease(old(self).docs@[i], u) && final(self).docs@ == old(self).docs@.update(i, d),
    {
        let mut i: usize = 0;
        while i < self.docs.len()
            invariant
                i <= self.docs@.len(),
                self.docs@ == old(self).docs@,
                old(self).wf(),
                forall|j: int| 0 <= j < i ==> is_live((#[trigger] self.docs@[j]).heartbeat_ms, since),
            decreases self.docs.len() - i,
        {
            let outdated = match self.docs[i].heartbeat_ms {
                Some(t) => t < since,
                None => true,
            };
            if outdated {
                let old_doc = self.docs[i];
                let d = TaskDoc {
                    lease_uuid: Some(u.lease_uuid),
                    owner_uuid: Some(u.owner_uuid),
                    heartbeat_ms: Some(u.now_ms),
                    ..old_doc
                };
                self.docs.set(i, d);
                proof {
                    assert forall|a: int, b: int|
                        0 <= a < b < self.docs@.len() implies #[trigger] self.docs@[a].doc_id
                        != #[trigger] self.docs@[b].doc_id by {
                        assert(old(self).docs@[a].doc_id != old(self).docs@[b].doc_id);
                    }
                }
                return Some(d);
            }
            i += 1;
        }
        None
    }

    /// Conditional lease update keyed on `(doc_id, lease_uuid)`: used by a
    /// steal. `None` when no document holds that lease any more.
    pub fn cas_lease(&mut self, info: TaskInfo, u: LeaseUpdate) -> (r: Option<TaskDoc>)
        requires
            old(self).wf(),
        ensures
            final(self).wf(),
            r is None <==> forall|j: int|
                0 <= j < old(self).docs@.len() ==> !holds_lease(#[trigger] old(self).docs@[j], info),
            r is None ==> final(self).docs@ == old(self).docs@,
            r matches Some(d) ==> exists|i: int|
                0 <= i < old(self).docs@.len() && holds_lease(old(self).docs@[i], info) && d
                    == apply_lease(old(self).docs@[i], u) && final(self).docs@ == old(self).docs@.update(i, d),
    {
        let mut i: usize = 0;
        while i < self.docs.len()
            invariant
                i <= self.docs@.len(),
                self.docs@ == old(self).docs@,
                old(self).wf(),
                forall|j: int| 0 <= j < i ==> !holds_lease(#[trigger] self.docs@[j], info),
            decreases self.docs.len() - i,
        {
            let cur = self.docs[i];
            if cur.doc_id == info.doc_id && cur.lease_uuid == Some(info.uuid) {
                let d = TaskDoc {
                    lease_uuid: Some(u.lease_uuid),
                    owner_uuid: Some(u.owner_uuid),
                    heartbeat_ms: Some(u.now_ms),
                    ..cur
                };
                self.docs.set(i, d);
                proof {
                    assert forall|a: int, b: int|
                        0 <= a < b < self.docs@.len() implies #[trigger] self.docs@[a].doc_id
                        != #[trigger] self.docs@[b].doc_id by {
                        assert(old(self).docs@[a].doc_id != old(self).docs@[b].doc_id);
                    }
                }
                return Some(d);
            }
            i += 1;
        }
        None
    }

    /// Renews the lease `info` at `now`, writing the cursor from `patch` if
    /// any. `false` means the lease is lost: nothing changed.
    pub fn update_entry(&mut self, info: TaskInfo, patch: Option<u64>, now: i64) -> (r: bool)
        requires
            old(self).wf(),
        ensures
            final(self).wf(),
            r <==> exists|j: int|
                0 <= j < old(self).docs@.len() && holds_lease(#[trigger] old(self).docs@[j], info),
            !r ==> final(self).docs@ == old(self).docs@,
            r ==> exists|i: int|
                0 <= i < old(self).docs@.len() && holds_lease(old(self).docs@[i], info)
                    && final(self).docs@ == old(self).docs@.update(
                    i,
                    heartbeat(old(self).docs@[i], patch, now),
                ),
    {
        let mut i: usize = 0;
        while i < self.docs.len()
            invariant
                i <= self.docs@.len(),
                self.docs@ == old(self).docs@,
                old(self).wf(),
                forall|j: int| 0 <= j < i ==> !holds_lease(#[trigger] self.docs@[j], info),
            decreases self.docs.len() - i,
        {
            let cur = self.docs[i];
            if cur.doc_id == info.doc_id && cur.lease_uuid == Some(info.uuid) {
                let cursor = match patch {
                    Some(c) => Some(c),
                    None => cur.cursor,
                };
                let d = TaskDoc { heartbeat_ms: Some(now), cursor, ..cur };
                self.docs.set(i, d);
                proof {
                    assert forall|a: int, b: int|
                        0 <= a < b < self.docs@.len() implies #[trigger] self.docs@[a].doc_id
                        != #[trigger] self.docs@[b].doc_id by {
                        assert(old(self).docs@[a].doc_id != old(self).docs@[b].doc_id);
                    }
                }
                return true;
            }
            i += 1;
        }
        false
    }

    /// Whether a document still records exactly this lease incarnation.
    pub fn check_ownership(&self, info: TaskInfo) -> (r: bool)
        ensures
            r <==> exists|j: int|
                0 <= j < self.docs@.len() && info_of(#[trigger] self.docs@[j]) == Some(info),
    {
        let mut i: usize = 0;
        while i < self.docs.len()
            invariant
                i <= self.docs@.len(),
                forall|j: int| 0 <= j < i ==> info_of(#[trigger] self.docs@[j]) != Some(info),
            decreases self.docs.len() - i,
        {
            if self.docs[i].info() == Some(info) {
                return true;
            }
            i += 1;
        }
        false
    }

    /// Number of live documents.
    pub fn count_live(&self, since: i64) -> (r: u64)
        ensures
            r == self.docs@.filter(live(since)).len(),
    {
        let mut n: u64 = 0;
        let mut i: usize = 0;
        while i < self.docs.len()
            invariant
                i <= self.docs@.len(),
                n == self.docs@.take(i as int).filter(live(since)).len(),
            decreases self.docs.len() - i,
        {
            let d = self.docs[i];
            proof {
                assert(self.docs@.take(i as int + 1) == self.docs@.take(i as int).push(d));
                self.docs@.take(i as int).lemma_filter_push(d, live(since));
                self.docs@.take(i as int).filter(live(since)).lemma_filter_len(live(since));
                self.docs@.take(i as int).lemma_filter_len(live(since));
            }
            if is_live_exec(d.heartbeat_ms, since) {
                n += 1;
            }
            i += 1;
        }
        proof {
            assert(self.docs@.take(self.docs@.len() as int) == self.docs@);
        }
        n
    }

    /// The lease incarnations of the live documents held by `owner`.
    pub fn live_tasks_of(&self, owner: u128, since: i64) -> (r: Vec<TaskInfo>)
        ensures
            r@ == lease_infos(self.docs@.filter(owned_by(owner, since))),
    {
        let mut out: Vec<TaskInfo> = Vec::new();
        let mut i: usize = 0;
        while i < self.docs.len()
            invariant
                i <= self.docs@.len(),
                out@ == lease_infos(self.docs@.take(i as int).filter(owned_by(owner, since))),
            decreases self.docs.len() - i,
        {
            let d = self.docs[i];
            proof {
                assert(self.docs@.take(i as int + 1) == self.docs@.take(i as int).push(d));
                self.docs@.take(i as int).lemma_filter_push(d, owned_by(owner, since));
            }
            if is_live_exec(d.heartbeat_ms, since) && d.owner_uuid == Some(owner) {
                match d.lease_uuid {
                    Some(uuid) => {
                        out.push(TaskInfo { doc_id: d.doc_id, uuid, parent_uuid: owner });
                    },
                    None => {
                        out.push(TaskInfo { doc_id: d.doc_id, uuid: 0, parent_uuid: owner });
                    },
                }
                proof {
                    let f = self.docs@.take(i as int).filter(owned_by(owner, since));
                    assert(lease_infos(f.push(d)) == lease_infos(f).push(lease_info(d)));
                }
            }
            i += 1;
        }
        proof {
            assert(self.docs@.take(self.docs@.len() as int) == self.docs@);
        }
        out
    }
}

impl TaskStore {
    /// Number of live documents held by `owner`.
    pub fn count_owned(&self, owner: u128, since: i64) -> (r: u64)
        ensures
            r == self.docs@.filter(owned_by(owner, since)).len(),
    {
        let mut n: u64 = 0;
        let mut i: usize = 0;
        while i < self.docs.len()
            invariant
                i <= self.docs@.len(),
                n == self.docs@.take(i as int).filter(owned_by(owner, since)).len(),
            decreases self.docs.len() - i,
        {
            let d = self.docs[i];
            proof {
                assert(self.docs@.take(i as int + 1) == self.docs@.take(i as int).push(d));
                self.docs@.take(i as int).lemma_filter_push(d, owned_by(owner, since));
                self.docs@.take(i as int).lemma_filter_len(owned_by(owner, since));
            }
            if is_live_exec(d.heartbeat_ms, since) && d.owner_uuid == Some(owner) {
                n += 1;
            }
            i += 1;
        }
        proof {
            assert(self.docs@.take(self.docs@.len() as int) == self.docs@);
        }
        n
    }

    /// Group-by of the live documents by holder, leaving out `exclude`: one
    /// entry per holder, with its count of live documents.
    pub fn peer_counts(&self, since: i64, exclude: u128) -> (r: Vec<WorkerInfo>)
        ensures
            is_peer_grouping(self.docs@, since, exclude, r@),
    {
        let mut out: Vec<WorkerInfo> = Vec::new();
        let mut i: usize = 0;
        while i < self.docs.len()
            invariant
                i <= self.docs@.len(),
                forall|k: int|
                    0 <= k < out@.len() ==> (#[trigger] out@[k]).id != exclude && out@[k].count
                        == self.docs@.filter(owned_by(out@[k].id, since)).len() && out@[k].count > 0,
                forall|a: int, b: int|
                    0 <= a < b < out@.len() ==> (#[trigger] out@[a]).id != (#[trigger] out@[b]).id,
                forall|j: int|
                    0 <= j < i && is_live((#[trigger] self.docs@[j]).heartbeat_ms, since)
                        && self.docs@[j].owner_uuid is Some && self.docs@[j].owner_uuid->Some_0
                        != exclude ==> exists|k: int|
                        0 <= k < out@.len() && out@[k].id == self.docs@[j].owner_uuid->Some_0,
            decreases self.docs.len() - i,
        {
            let d = self.docs[i];
            let ghost out0 = out@;
            if is_live_exec(d.heartbeat_ms, since) {
                match d.owner_uuid {
                    Some(o) => {
                        if o != exclude {
                            let mut k: usize = 0;
                            let mut seen = false;
                            while k < out.len()
                                invariant
                                    k <= out@.len(),
                                    seen <==> exists|m: int| 0 <= m < k && (#[trigger] out@[m]).id == o,
                                decreases out.len() - k,
                            {
                                if out[k].id == o {
                                    seen = true;
                                }
                                k += 1;
                            }
                            if !seen {
                                let c = self.count_owned(o, since);
                                proof {
                                    self.docs@.lemma_filter_contains(owned_by(o, since), i as int);
                                }
                                out.push(WorkerInfo { id: o, count: c });
                                assert(out@[out@.len() - 1].id == o);
                            }
                            assert(exists|m: int| 0 <= m < out@.len() && (#[trigger] out@[m]).id == o);
                        }
                    },
                    None => {},
                }
            }
            proof {
                assert(out@.len() >= out0.len());
                assert(forall|k: int| 0 <= k < out0.len() ==> out@[k] == out0[k]);
                assert forall|j: int|
                    0 <= j < i + 1 && is_live((#[trigger] self.docs@[j]).heartbeat_ms, since)
                        && self.docs@[j].owner_uuid is Some && self.docs@[j].owner_uuid->Some_0
                        != exclude implies exists|k: int|
                        0 <= k < out@.len() && out@[k].id == self.docs@[j].owner_uuid->Some_0 by {
                    if j == i {
                        assert(self.docs@[j] == d);
                    } else {
                        let k = choose|k: int|
                            0 <= k < out0.len() && out0[k].id == self.docs@[j].owner_uuid->Some_0;
                        assert(out@[k] == out0[k]);
                    }
                }
            }
            i += 1;
        }
        out
    }
}

/// What the group-by of live documents by holder, without `exclude`, returns:
/// distinct holders, each with its count of live documents, covering every
/// live document's holder.
pub open spec fn is_peer_grouping(
    docs: Seq<TaskDoc>,
    since: i64,
    exclude: u128,
    peers: Seq<WorkerInfo>,
) -> bool {
    &&& forall|k: int|
        0 <= k < peers.len() ==> (#[trigger] peers[k]).id != exclude && peers[k].count == docs.filter(
            owned_by(peers[k].id, since),
        ).len() && peers[k].count > 0
    &&& forall|a: int, b: int| 0 <= a < b < peers.len() ==> (#[trigger] peers[a]).id != (#[trigger] peers[b]).id
    &&& forall|j: int|
        0 <= j < docs.len() && is_live((#[trigger] docs[j]).heartbeat_ms, since) && docs[j].owner_uuid is Some
            && docs[j].owner_uuid->Some_0 != exclude ==> exists|k: int|
            0 <= k < peers.len() && peers[k].id == docs[j].owner_uuid->Some_0
}

fn is_live_exec(heartbeat: Option<i64>, since: i64) -> (r: bool)
    ensures
        r == is_live(heartbeat, since),
{
    match heartbeat {
        Some(t) => t >= since,
        None => false,
    }
}

/// Mutual exclusion at takeover: once a scheduler has won the only orphan at
/// `u.now_ms`, every racer whose staleness bound is not later than that time
/// finds no document to take over.
pub proof fn lemma_takeover_has_one_winner(
    docs: Seq<TaskDoc>,
    i: int,
    u: LeaseUpdate,
    racer_since: i64,
)
    requires
        0 <= i < docs.len(),
        forall|j: int| 0 <= j < docs.len() && j != i ==> is_live(#[trigger] docs[j].heartbeat_ms, racer_since),
        racer_since <= u.now_ms,
    ensures
        forall|j: int|
            0 <= j < docs.len() ==> is_live(
                (#[trigger] docs.update(i, apply_lease(docs[i], u))[j]).heartbeat_ms,
                racer_since,
            ),
{
}

/// Mutual exclusion at steal: a conditional update that installs a new lease
/// leaves the document matching no write keyed on the old lease, so a second
/// steal of the same incarnation fails.
pub proof fn lemma_steal_has_one_winner(d: TaskDoc, info: TaskInfo, u: LeaseUpdate)
    requires
        holds_lease(d, info),
        u.lease_uuid != info.uuid,
    ensures
        !holds_lease(apply_lease(d, u), info),
{
}

/// Heartbeats with an empty patch change only `heartbeat_ms`: any number of
/// them keep the cursor, the lease and the payload.
pub proof fn lemma_empty_heartbeat_keeps_cursor(d: TaskDoc, now1: i64, now2: i64)
    ensures
        heartbeat(d, None, now1) == (TaskDoc { heartbeat_ms: Some(now1), ..d }),
        heartbeat(heartbeat(d, None, now1), None, now2) == (TaskDoc { heartbeat_ms: Some(now2), ..d }),
        heartbeat(heartbeat(d, None, now1), None, now2).cursor == d.cursor,
{
}

/// Number of documents that the acquire-outdated predicate matches.
pub open spec fn orphans(docs: Seq<TaskDoc>, since: i64) -> nat
    decreases docs.len(),
{
    if docs.len() == 0 {
        0
    } else {
        orphans(docs.drop_last(), since) + if is_live(docs.last().heartbeat_ms, since) {
            0nat
        } else {
            1nat
        }
    }
}

/// Liveness of takeover: each takeover of an orphan, made at a time not
/// before the staleness bound, leaves exactly one orphan fewer, so repeated
/// takeover rounds acquire every orphan.
pub proof fn lemma_takeover_shrinks_orphans(docs: Seq<TaskDoc>, i: int, u: LeaseUpdate, since: i64)
    requires
        0 <= i < docs.len(),
        !is_live(docs[i].heartbeat_ms, since),
        since <= u.now_ms,
    ensures
        orphans(docs.update(i, apply_lease(docs[i], u)), since) + 1 == orphans(docs, since),
    decreases docs.len(),
{
    let x = apply_lease(docs[i], u);
    if i == docs.len() - 1 {
        assert(docs.update(i, x).drop_last() == docs.drop_last());
    } else {
        lemma_takeover_shrinks_orphans(docs.drop_last(), i, u, since);
        assert(docs.update(i, x).drop_last() == docs.drop_last().update(i, x));
    }
}

} // verus!
