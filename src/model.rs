use vstd::prelude::*;

verus! {

/// Identity of one lease incarnation: the task document, the lease held on it,
/// and the scheduler instance that holds the lease.
///
/// Document ids and uuids are held as 128-bit integers.
#[derive(Debug, Copy, Clone, PartialEq, Eq, Structural, Hash)]
pub struct TaskInfo {
    pub doc_id: u128,
    pub uuid: u128,
    pub parent_uuid: u128,
}

impl TaskInfo {
    pub fn new(doc_id: u128, uuid: u128, parent_uuid: u128) -> (r: TaskInfo)
        ensures
            r.doc_id == doc_id,
            r.uuid == uuid,
            r.parent_uuid == parent_uuid,
    {
        TaskInfo { doc_id, uuid, parent_uuid }
    }
}

/// One entry of the group-by over live tasks: a peer scheduler and how many
/// live tasks it holds.
#[derive(Debug, Copy, Clone, PartialEq, Eq, Structural)]
pub struct WorkerInfo {
    pub id: u128,
    pub count: u64,
}

/// What the lease protocol needs to know about the scheduler that runs it.
#[derive(Debug, Copy, Clone, PartialEq, Eq, Structural)]
pub struct SchedulerMeta {
    pub id: u128,
    pub actor_count: usize,
}

} // verus!
