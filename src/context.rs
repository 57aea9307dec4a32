use vstd::prelude::*;

use crate::store::fresh_uuid;

verus! {

/// The role of a process-local actor that others address by role.
#[derive(Debug, Copy, Clone, PartialEq, Eq, Structural)]
pub enum Role {
    Collector,
    Scheduler,
    ScheduleDriver,
}

/// What one worker thread knows: its process, itself, and a handle per role.
#[derive(Debug, Clone)]
pub struct ArbiterContext<H> {
    pub instance_id: u128,
    pub arbiter_id: u128,
    pub addrs: Vec<(Role, H)>,
}

impl<H> ArbiterContext<H> {
    /// Roles are registered at most once.
    pub open spec fn wf(&self) -> bool {
        forall|a: int, b: int|
            0 <= a < b < self.addrs@.len() ==> (#[trigger] self.addrs@[a]).0 != (#[trigger] self.addrs@[b]).0
    }

    /// A context for a new worker of process `instance_id`, with a freshly
    /// drawn worker id and no handles.
    pub fn new(instance_id: u128) -> (r: ArbiterContext<H>)
        ensures
            r.wf(),
            r.instance_id == instance_id,
            r.addrs@.len() == 0,
    {
        ArbiterContext { instance_id, arbiter_id: fresh_uuid(), addrs: Vec::new() }
    }

    fn position(&self, role: Role) -> (r: Option<usize>)
        ensures
            r matches Some(k) ==> k < self.addrs@.len() && self.addrs@[k as int].0 == role,
            r is None ==> forall|k: int| 0 <= k < self.addrs@.len() ==> (#[trigger] self.addrs@[k]).0 != role,
    {
        let mut k: usize = 0;
        while k < self.addrs.len()
            invariant
                k <= self.addrs@.len(),
                forall|m: int| 0 <= m < k ==> (#[trigger] self.addrs@[m]).0 != role,
            decreases self.addrs.len() - k,
        {
            if self.addrs[k].0 == role {
                return Some(k);
            }
            k += 1;
        }
        None
    }

    /// Registers the handle of `role`, replacing an earlier one.
    pub fn register_addr(&mut self, role: Role, addr: H)
        requires
            old(self).wf(),
        ensures
            final(self).wf(),
            final(self).instance_id == old(self).instance_id,
            final(self).arbiter_id == old(self).arbiter_id,
            exists|k: int| 0 <= k < final(self).addrs@.len() && final(self).addrs@[k] == (role, addr),
            forall|k: int|
                0 <= k < old(self).addrs@.len() && (#[trigger] old(self).addrs@[k]).0 != role ==> final(self).addrs@.contains(old(self).addrs@[k]),
            forall|k: int|
                0 <= k < final(self).addrs@.len() && (#[trigger] final(self).addrs@[k]).0 != role ==> old(self).addrs@.contains(final(self).addrs@[k]),
    {
        match self.position(role) {
            Some(k) => {
                let ghost a0 = self.addrs@;
                self.addrs.set(k, (role, addr));
                proof {
                    assert(self.addrs@[k as int] == (role, addr));
                    assert forall|m: int|
                        0 <= m < a0.len() && (#[trigger] a0[m]).0 != role implies self.addrs@.contains(a0[m]) by {
                        assert(self.addrs@[m] == a0[m]);
                    }
                    assert forall|m: int|
                        0 <= m < self.addrs@.len() && (#[trigger] self.addrs@[m]).0 != role implies a0.contains(
                        self.addrs@[m],
                    ) by {
                        assert(self.addrs@[m] == a0[m]);
                    }
                    assert forall|a: int, b: int|
                        0 <= a < b < self.addrs@.len() implies (#[trigger] self.addrs@[a]).0 != (
                        #[trigger] self.addrs@[b]).0 by {
                        assert(a0[a].0 != a0[b].0);
                    }
                }
            },
            None => {
                let ghost a0 = self.addrs@;
                self.addrs.push((role, addr));
                proof {
                    assert(self.addrs@[a0.len() as int] == (role, addr));
                    assert forall|m: int|
                        0 <= m < a0.len() && (#[trigger] a0[m]).0 != role implies self.addrs@.contains(a0[m]) by {
                        assert(self.addrs@[m] == a0[m]);
                    }
                    assert forall|m: int|
                        0 <= m < self.addrs@.len() && (#[trigger] self.addrs@[m]).0 != role implies a0.contains(
                        self.addrs@[m],
                    ) by {
                        assert(self.addrs@[m] == a0[m]);
                    }
                }
            },
        }
    }

    /// The handle registered for `role`.
    pub fn get_addr(&self, role: Role) -> (r: Option<&H>)
        requires
            self.wf(),
        ensures
            r matches Some(h) ==> self.addrs@.contains((role, *h)),
            r is None ==> forall|k: int| 0 <= k < self.addrs@.len() ==> (#[trigger] self.addrs@[k]).0 != role,
    {
        match self.position(role) {
            Some(k) => {
                proof {
                    assert(self.addrs@[k as int] == (role, self.addrs@[k as int].1));
                }
                Some(&self.addrs[k].1)
            },
            None => None,
        }
    }
}

/// A slot that is filled once, as each worker thread's context is.
#[derive(Debug, Clone)]
pub struct ContextCell<T> {
    value: Option<T>,
}

impl<T> ContextCell<T> {
    pub closed spec fn contents(&self) -> Option<T> {
        self.value
    }

    pub fn new() -> (r: ContextCell<T>)
        ensures
            r.contents() is None,
    {
        ContextCell { value: None }
    }

    /// Fills the slot; filling it twice is a programming error.
    pub fn set(&mut self, value: T)
        requires
            old(self).contents() is None,
        ensures
            final(self).contents() == Some(value),
    {
        self.value = Some(value);
    }

    /// The value, if the slot was filled.
    pub fn try_get(&self) -> (r: Option<&T>)
        ensures
            r matches Some(v) ==> self.contents() == Some(*v),
            r is None ==> self.contents() is None,
    {
        match &self.value {
            Some(v) => Some(v),
            None => None,
        }
    }

    pub fn is_set(&self) -> (r: bool)
        ensures
            r == self.contents() is Some,
    {
        self.value.is_some()
    }
}

/// The answer of a broadcast: each worker's id with its reply, in the order
/// the workers were asked.
pub fn pair_replies<R>(ids: Vec<u128>, replies: Vec<R>) -> (r: Vec<(u128, R)>)
    requires
        ids@.len() == replies@.len(),
    ensures
        r@.len() == ids@.len(),
        forall|k: int| 0 <= k < r@.len() ==> (#[trigger] r@[k]) == (ids@[k], replies@[k]),
{
    let ghost ids0 = ids@;
    let ghost rep0 = replies@;
    let mut ids = ids;
    let mut replies = replies;
    let mut rev: Vec<(u128, R)> = Vec::new();
    while replies.len() > 0
        invariant
            ids@.len() == replies@.len(),
            ids@.len() + rev@.len() == ids0.len(),
            ids0.len() == rep0.len(),
            forall|k: int| 0 <= k < ids@.len() ==> #[trigger] ids@[k] == ids0[k] && replies@[k] == rep0[k],
            forall|m: int|
                0 <= m < rev@.len() ==> #[trigger] rev@[m] == (
                    ids0[ids0.len() - 1 - m],
                    rep0[ids0.len() - 1 - m],
                ),
        decreases replies.len(),
    {
        let id = ids.pop().unwrap();
        let reply = replies.pop().unwrap();
        rev.push((id, reply));
    }
    let mut out: Vec<(u128, R)> = Vec::new();
    while rev.len() > 0
        invariant
            out@.len() + rev@.len() == ids0.len(),
            ids0.len() == rep0.len(),
            forall|m: int|
                0 <= m < rev@.len() ==> #[trigger] rev@[m] == (
                    ids0[ids0.len() - 1 - m],
                    rep0[ids0.len() - 1 - m],
                ),
            forall|k: int| 0 <= k < out@.len() ==> #[trigger] out@[k] == (ids0[k], rep0[k]),
        decreases rev.len(),
    {
        let p = rev.pop().unwrap();
        out.push(p);
    }
    out
}

} // verus!
