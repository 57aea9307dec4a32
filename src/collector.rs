use vstd::prelude::*;
use vstd::string::*;

use arraydeque::{ArrayDeque, Wrapping};

verus! {

/// Events a destination may hold before the oldest are dropped.
pub const RING_CAPACITY: usize = 1024;

/// Fixed delay before a destination that failed is tried again.
pub const RETRY_DELAY_MS: u64 = 10000;

/// An event ready for a destination: the resolved entity name, the topic, and
/// the body as JSON text.
#[derive(Debug, Clone, PartialEq, Eq)]
pub struct PublishExpanded {
    pub vtuber: String,
    pub topic: String,
    pub data: String,
}

/// The bounded ring of pending events of one destination: an `ArrayDeque`
/// that wraps when full.
#[verifier::external_body]
pub struct EventRing {
    inner: ArrayDeque<PublishExpanded, RING_CAPACITY, Wrapping>,
}

/// The events a ring holds, front first.
pub uninterp spec fn ring_items(q: EventRing) -> Seq<PublishExpanded>;

/// Relies on `ArrayDeque::new`: an empty deque.
#[verifier::external_body]
fn ring_new() -> (r: EventRing)
    ensures
        ring_items(r) == Seq::<PublishExpanded>::empty(),
{
    EventRing { inner: ArrayDeque::new() }
}

/// Relies on `ArrayDeque::len`: the number of items held.
#[verifier::external_body]
fn ring_len(q: &EventRing) -> (r: usize)
    ensures
        r == ring_items(*q).len(),
{
    q.inner.len()
}

/// Relies on `ArrayDeque::<_, _, Wrapping>::push_back`: appends; when full,
/// the front item is removed first and returned.
#[verifier::external_body]
fn ring_push_back(q: &mut EventRing, e: PublishExpanded) -> (r: Option<PublishExpanded>)
    requires
        ring_items(*old(q)).len() <= RING_CAPACITY,
    ensures
        ring_items(*old(q)).len() < RING_CAPACITY ==> r is None && ring_items(*final(q))
            == ring_items(*old(q)).push(e),
        ring_items(*old(q)).len() == RING_CAPACITY ==> r == Some(ring_items(*old(q))[0])
            && ring_items(*final(q)) == ring_items(*old(q)).drop_first().push(e),
{
    q.inner.push_back(e)
}

/// Relies on `ArrayDeque::<_, _, Wrapping>::push_front`: prepends; when full,
/// the back item is removed first and returned.
#[verifier::external_body]
fn ring_push_front(q: &mut EventRing, e: PublishExpanded) -> (r: Option<PublishExpanded>)
    requires
        ring_items(*old(q)).len() <= RING_CAPACITY,
    ensures
        ring_items(*old(q)).len() < RING_CAPACITY ==> r is None && ring_items(*final(q))
            == seq![e] + ring_items(*old(q)),
        ring_items(*old(q)).len() == RING_CAPACITY ==> r == Some(ring_items(*old(q)).last())
            && ring_items(*final(q)) == seq![e] + ring_items(*old(q)).drop_last(),
{
    q.inner.push_front(e)
}

/// Relies on `ArrayDeque::pop_front`: removes and returns the front item.
#[verifier::external_body]
fn ring_pop_front(q: &mut EventRing) -> (r: Option<PublishExpanded>)
    ensures
        ring_items(*old(q)).len() == 0 ==> r is None && ring_items(*final(q)) == ring_items(
            *old(q),
        ),
        ring_items(*old(q)).len() > 0 ==> r == Some(ring_items(*old(q))[0]) && ring_items(
            *final(q),
        ) == ring_items(*old(q)).drop_first(),
{
    q.inner.pop_front()
}

/// Appending to a full ring drops the oldest event.
pub open spec fn ring_push(q: Seq<PublishExpanded>, e: PublishExpanded) -> Seq<PublishExpanded> {
    if q.len() < RING_CAPACITY {
        q.push(e)
    } else {
        q.drop_first().push(e)
    }
}

/// Putting a failed event back in front. It is older than every queued
/// event, so on a full ring it is the oldest, and it is the one dropped.
pub open spec fn ring_put_back(q: Seq<PublishExpanded>, e: PublishExpanded) -> Seq<PublishExpanded> {
    if q.len() < RING_CAPACITY {
        seq![e] + q
    } else {
        q
    }
}

/// Appends a run of events one by one.
pub open spec fn ring_push_all(q: Seq<PublishExpanded>, es: Seq<PublishExpanded>) -> Seq<
    PublishExpanded,
>
    decreases es.len(),
{
    if es.len() == 0 {
        q
    } else {
        ring_push_all(ring_push(q, es[0]), es.drop_first())
    }
}

/// The newest `RING_CAPACITY` items of `s`, in order.
pub open spec fn newest(s: Seq<PublishExpanded>) -> Seq<PublishExpanded> {
    if s.len() <= RING_CAPACITY {
        s
    } else {
        s.subrange(s.len() - RING_CAPACITY, s.len() as int)
    }
}

/// Publishing a run of events into a ring that holds `q` leaves exactly the
/// newest `RING_CAPACITY` of `q` followed by the run, in the order they were
/// produced: the queue never exceeds its capacity, only the oldest events are
/// dropped, and without overflow nothing is dropped at all.
pub proof fn lemma_ring_keeps_newest_in_order(q: Seq<PublishExpanded>, es: Seq<PublishExpanded>)
    requires
        q.len() <= RING_CAPACITY,
    ensures
        ring_push_all(q, es) == newest(q + es),
        ring_push_all(q, es).len() <= RING_CAPACITY,
        q.len() + es.len() <= RING_CAPACITY ==> ring_push_all(q, es) == q + es,
    decreases es.len(),
{
    if es.len() == 0 {
        assert(q + es == q);
    } else {
        let q1 = ring_push(q, es[0]);
        lemma_ring_keeps_newest_in_order(q1, es.drop_first());
        if q.len() < RING_CAPACITY {
            assert(q1 + es.drop_first() == q + es);
        } else {
            assert(q1 + es.drop_first() == (q + es).subrange(1, (q + es).len() as int));
            let s = q + es;
            let t = s.subrange(1, s.len() as int);
            assert(newest(t) == newest(s));
        }
    }
}

/// A run of wakes on an available destination: each takes the front event
/// (`on_wake`) and, by its outcome, drops it as delivered or puts it back
/// (`on_delivered`). Yields the events delivered, in order, and what is left.
pub open spec fn delivery_run(q: Seq<PublishExpanded>, outcomes: Seq<bool>) -> (Seq<PublishExpanded>, Seq<
    PublishExpanded,
>)
    decreases outcomes.len(),
{
    if outcomes.len() == 0 || q.len() == 0 {
        (Seq::empty(), q)
    } else if outcomes[0] {
        let rest = delivery_run(q.drop_first(), outcomes.drop_first());
        (seq![q[0]] + rest.0, rest.1)
    } else {
        delivery_run(ring_put_back(q.drop_first(), q[0]), outcomes.drop_first())
    }
}

/// Ordering per destination: whatever the outcomes of the sends, the events
/// delivered are a prefix of the queue in its order, each once, and the rest
/// stays queued behind them; a failed event is the next one sent.
pub proof fn lemma_deliveries_keep_queue_order(q: Seq<PublishExpanded>, outcomes: Seq<bool>)
    requires
        q.len() <= RING_CAPACITY,
    ensures
        delivery_run(q, outcomes).0 + delivery_run(q, outcomes).1 == q,
    decreases outcomes.len(),
{
    if outcomes.len() == 0 || q.len() == 0 {
        assert(Seq::<PublishExpanded>::empty() + q == q);
    } else if outcomes[0] {
        lemma_deliveries_keep_queue_order(q.drop_first(), outcomes.drop_first());
        let rest = delivery_run(q.drop_first(), outcomes.drop_first());
        assert(seq![q[0]] + rest.0 + rest.1 == seq![q[0]] + (rest.0 + rest.1));
        assert(seq![q[0]] + q.drop_first() == q);
    } else {
        assert(ring_put_back(q.drop_first(), q[0]) == q);
        lemma_deliveries_keep_queue_order(q, outcomes.drop_first());
    }
}

/// The connection state of a destination; `H` is the publisher handle.
#[derive(Debug, Clone, PartialEq, Eq)]
pub enum DestState<H> {
    Uninit,
    Available(H),
    /// No connection until the deadline, in milliseconds.
    Backoff(u64),
}

/// What the caller does after a wake.
#[derive(Debug, Clone, PartialEq, Eq)]
pub enum WakeAction {
    /// Send this event through the available handle, then report the outcome.
    Deliver(PublishExpanded),
    /// Build a new handle with the factory, then report the outcome.
    Connect,
    /// Wake this destination again after so many milliseconds.
    WakeIn(u64),
    /// Nothing to do.
    Idle,
}

/// One destination of the collector: its identity, connection state and
/// bounded queue of pending events.
pub struct Destination<H> {
    pub ident: String,
    pub state: DestState<H>,
    pub queue: EventRing,
}

/// Deadline of a retry that starts at `now`.
pub open spec fn retry_deadline(now: u64) -> u64 {
    if now <= u64::MAX - RETRY_DELAY_MS {
        (now + RETRY_DELAY_MS) as u64
    } else {
        u64::MAX
    }
}

fn retry_at(now: u64) -> (r: u64)
    ensures
        r == retry_deadline(now),
{
    if now <= u64::MAX - RETRY_DELAY_MS {
        now + RETRY_DELAY_MS
    } else {
        u64::MAX
    }
}

impl<H> Destination<H> {
    /// The pending events, front first.
    pub open spec fn pending(&self) -> Seq<PublishExpanded> {
        ring_items(self.queue)
    }

    /// The queue stays within its capacity.
    pub open spec fn wf(&self) -> bool {
        self.pending().len() <= RING_CAPACITY
    }

    pub fn new(ident: String) -> (r: Destination<H>)
        ensures
            r.wf(),
            r.ident == ident,
            r.state is Uninit,
            r.pending() == Seq::<PublishExpanded>::empty(),
    {
        Destination { ident, state: DestState::Uninit, queue: ring_new() }
    }

    pub fn pending_len(&self) -> (r: usize)
        ensures
            r == self.pending().len(),
    {
        ring_len(&self.queue)
    }

    /// Queues an event and says whether a wake must be scheduled: the
    /// destination is available and its queue was empty, or it was never
    /// connected. On a full queue the oldest event is dropped and returned.
    pub fn publish(&mut self, event: PublishExpanded) -> (r: (bool, Option<PublishExpanded>))
        requires
            old(self).wf(),
        ensures
            final(self).wf(),
            r.1 == (if old(self).pending().len() == RING_CAPACITY {
                Some(old(self).pending()[0])
            } else {
                None
            }),
            final(self).pending() == ring_push(old(self).pending(), event),
            final(self).state == old(self).state,
            final(self).ident == old(self).ident,
            r.0 == ((old(self).state is Available && old(self).pending().len() == 0)
                || old(self).state is Uninit),
    {
        let was_empty = ring_len(&self.queue) == 0;
        let wake = match &self.state {
            DestState::Available(_) => was_empty,
            DestState::Uninit => true,
            DestState::Backoff(_) => false,
        };
        let dropped = ring_push_back(&mut self.queue, event);
        (wake, dropped)
    }

    /// Dispatches a wake on the current state at time `now` (milliseconds).
    pub fn on_wake(&mut self, now: u64) -> (r: WakeAction)
        requires
            old(self).wf(),
        ensures
            final(self).wf(),
            final(self).state == old(self).state,
            final(self).ident == old(self).ident,
            match old(self).state {
                DestState::Available(_) => if old(self).pending().len() > 0 {
                    r == WakeAction::Deliver(old(self).pending()[0]) && final(self).pending()
                        == old(self).pending().drop_first()
                } else {
                    r is Idle && final(self).pending() == old(self).pending()
                },
                DestState::Uninit => r is Connect && final(self).pending() == old(self).pending(),
                DestState::Backoff(d) => final(self).pending() == old(self).pending() && if now
                    >= d {
                    r is Connect
                } else {
                    r == WakeAction::WakeIn((d - now) as u64)
                },
            },
    {
        match &self.state {
            DestState::Available(_) => match ring_pop_front(&mut self.queue) {
                Some(e) => WakeAction::Deliver(e),
                None => WakeAction::Idle,
            },
            DestState::Uninit => WakeAction::Connect,
            DestState::Backoff(d) => {
                if now >= *d {
                    WakeAction::Connect
                } else {
                    WakeAction::WakeIn(*d - now)
                }
            },
        }
    }

    /// Takes the outcome of a delivery. On success, asks for another wake if
    /// events remain. On failure, backs off, puts the event back in front, and
    /// asks for a wake after the retry delay. The result is the delay of the
    /// next wake, if any.
    pub fn on_delivered(&mut self, event: PublishExpanded, success: bool, now: u64) -> (r: Option<
        u64,
    >)
        requires
            old(self).wf(),
        ensures
            final(self).wf(),
            final(self).ident == old(self).ident,
            success ==> final(self).state == old(self).state && final(self).pending() == old(self).pending() && r == (if old(self).pending().len() > 0 {
                Some(0u64)
            } else {
                None
            }),
            !success ==> final(self).state == DestState::<H>::Backoff(retry_deadline(now))
                && final(self).pending() == ring_put_back(old(self).pending(), event) && r == Some(
                RETRY_DELAY_MS,
            ),
    {
        if success {
            if ring_len(&self.queue) > 0 {
                Some(0)
            } else {
                None
            }
        } else {
            self.state = DestState::Backoff(retry_at(now));
            if ring_len(&self.queue) < RING_CAPACITY {
                let _none = ring_push_front(&mut self.queue, event);
            }
            Some(RETRY_DELAY_MS)
        }
    }

    /// Takes the outcome of building a handle. A new handle makes the
    /// destination available (with a wake if events wait); none backs off and
    /// asks for a wake after the retry delay.
    pub fn on_connected(&mut self, handle: Option<H>, now: u64) -> (r: Option<u64>)
        requires
            old(self).wf(),
        ensures
            final(self).wf(),
            final(self).ident == old(self).ident,
            final(self).pending() == old(self).pending(),
            handle matches Some(h) ==> final(self).state == DestState::Available(h) && r == (if old(self).pending().len() > 0 {
                Some(0u64)
            } else {
                None
            }),
            handle is None ==> final(self).state == DestState::<H>::Backoff(retry_deadline(now))
                && r == Some(RETRY_DELAY_MS),
    {
        match handle {
            Some(h) => {
                self.state = DestState::Available(h);
                if ring_len(&self.queue) > 0 {
                    Some(0)
                } else {
                    None
                }
            },
            None => {
                self.state = DestState::Backoff(retry_at(now));
                Some(RETRY_DELAY_MS)
            },
        }
    }
}

/// The factory of the message-broker destination.
#[derive(Debug, Clone, PartialEq, Eq)]
pub struct AMQPFactory {
    pub uri: String,
    pub exchange: String,
}

impl AMQPFactory {
    pub fn new(uri: &str, exchange: &str) -> (r: AMQPFactory)
        ensures
            r.uri@ == uri@,
            r.exchange@ == exchange@,
    {
        AMQPFactory { uri: String::from_str(uri), exchange: String::from_str(exchange) }
    }

    /// `AMQP(uri=<uri>, exchange=<exchange>)`: the identity and label.
    pub fn ident(&self) -> (r: String)
        ensures
            r@ == "AMQP(uri="@ + self.uri@ + ", exchange="@ + self.exchange@ + ")"@,
    {
        let mut s = String::from_str("AMQP(uri=");
        s.append(self.uri.as_str());
        s.append(", exchange=");
        s.append(self.exchange.as_str());
        s.append(")");
        s
    }
}

/// The factory of the local log destination.
#[derive(Debug, Copy, Clone, PartialEq, Eq, Structural)]
pub struct DebugCollectorFactory;

impl DebugCollectorFactory {
    /// `debug`: the identity and label.
    pub fn ident(&self) -> (r: String)
        ensures
            r@ == "debug"@,
    {
        String::from_str("debug")
    }
}

/// The kinds of destination, each with its factory.
#[derive(Debug, Clone, PartialEq, Eq)]
pub enum CollectorFactory {
    Amqp(AMQPFactory),
    Debug(DebugCollectorFactory),
}

impl CollectorFactory {
    /// The identity string that keys and labels a destination.
    pub fn ident(&self) -> (r: String)
        ensures
            self matches CollectorFactory::Amqp(f) ==> r@ == "AMQP(uri="@ + f.uri@ + ", exchange="@
                + f.exchange@ + ")"@,
            self is Debug ==> r@ == "debug"@,
    {
        match self {
            CollectorFactory::Amqp(f) => f.ident(),
            CollectorFactory::Debug(f) => f.ident(),
        }
    }
}

impl PublishExpanded {
    /// A copy of the event for one more destination.
    pub fn duplicate(&self) -> (r: PublishExpanded)
        ensures
            r == *self,
    {
        PublishExpanded { vtuber: self.vtuber.clone(), topic: self.topic.clone(), data: self.data.clone() }
    }
}

/// Whether queueing at a destination in `state` with `queued` events asks
/// for a wake.
pub open spec fn wake_on_publish<H>(state: DestState<H>, queued: nat) -> bool {
    (state is Available && queued == 0) || state is Uninit
}

/// The destinations of one collector, keyed by their factory's identity.
pub struct CollectorSet<H> {
    pub destinations: Vec<Destination<H>>,
}

impl<H> CollectorSet<H> {
    pub open spec fn wf(&self) -> bool {
        forall|i: int| 0 <= i < self.destinations@.len() ==> (#[trigger] self.destinations@[i]).wf()
    }

    /// One uninitialised, empty destination per factory.
    pub fn new(factories: &Vec<CollectorFactory>) -> (r: CollectorSet<H>)
        ensures
            r.wf(),
            r.destinations@.len() == factories@.len(),
            forall|i: int|
                0 <= i < factories@.len() ==> (#[trigger] r.destinations@[i]).state is Uninit
                    && r.destinations@[i].pending().len() == 0,
    {
        let mut destinations: Vec<Destination<H>> = Vec::new();
        let mut i: usize = 0;
        while i < factories.len()
            invariant
                i <= factories@.len(),
                destinations@.len() == i,
                forall|k: int|
                    0 <= k < i ==> (#[trigger] destinations@[k]).wf() && destinations@[k].state is Uninit
                        && destinations@[k].pending().len() == 0,
            decreases factories.len() - i,
        {
            destinations.push(Destination::new(factories[i].ident()));
            i += 1;
        }
        CollectorSet { destinations }
    }

    /// The position of the destination with this identity.
    pub fn find(&self, ident: &String) -> (r: Option<usize>)
        ensures
            r matches Some(i) ==> i < self.destinations@.len() && self.destinations@[i as int].ident@
                == ident@,
            r is None ==> forall|i: int|
                0 <= i < self.destinations@.len() ==> (#[trigger] self.destinations@[i]).ident@ != ident@,
    {
        let mut i: usize = 0;
        while i < self.destinations.len()
            invariant
                i <= self.destinations@.len(),
                forall|k: int| 0 <= k < i ==> (#[trigger] self.destinations@[k]).ident@ != ident@,
            decreases self.destinations.len() - i,
        {
            if self.destinations[i].ident == *ident {
                return Some(i);
            }
            i += 1;
        }
        None
    }

    /// Fan-out of one event: queued at every destination; the result lists,
    /// in order, the destinations that need a wake.
    pub fn publish(&mut self, event: PublishExpanded) -> (r: (Vec<usize>, Vec<usize>))
        requires
            old(self).wf(),
        ensures
            forall|i: int|
                0 <= i < old(self).destinations@.len() ==> (old(self).destinations@[i].pending().len()
                    == RING_CAPACITY <==> r.1@.contains(i as usize)),
            forall|k: int| 0 <= k < r.1@.len() ==> #[trigger] r.1@[k] < old(self).destinations@.len(),
            final(self).wf(),
            final(self).destinations@.len() == old(self).destinations@.len(),
            forall|i: int|
                0 <= i < old(self).destinations@.len() ==> (#[trigger] final(self).destinations@[i]).pending()
                    == ring_push(old(self).destinations@[i].pending(), event) && final(self).destinations@[i].state == old(self).destinations@[i].state && final(self).destinations@[i].ident == old(self).destinations@[i].ident,
            forall|k: int| 0 <= k < r.0@.len() ==> #[trigger] r.0@[k] < old(self).destinations@.len(),
            forall|a: int, b: int| 0 <= a < b < r.0@.len() ==> #[trigger] r.0@[a] < #[trigger] r.0@[b],
            forall|i: int|
                0 <= i < old(self).destinations@.len() ==> (wake_on_publish(
                    old(self).destinations@[i].state,
                    old(self).destinations@[i].pending().len(),
                ) <==> exists|k: int| 0 <= k < r.0@.len() && #[trigger] r.0@[k] == i),
    {
        let ghost ds0 = self.destinations@;
        let mut wake: Vec<usize> = Vec::new();
        let mut full: Vec<usize> = Vec::new();
        let mut i: usize = 0;
        while i < self.destinations.len()
            invariant
                i <= self.destinations@.len(),
                self.destinations@.len() == ds0.len(),
                forall|k: int| 0 <= k < ds0.len() ==> (#[trigger] self.destinations@[k]).wf(),
                forall|k: int|
                    0 <= k < i ==> (#[trigger] self.destinations@[k]).pending() == ring_push(
                        ds0[k].pending(),
                        event,
                    ) && self.destinations@[k].state == ds0[k].state && self.destinations@[k].ident
                        == ds0[k].ident,
                forall|k: int| i <= k < ds0.len() ==> #[trigger] self.destinations@[k] == ds0[k],
                forall|k: int| 0 <= k < wake@.len() ==> #[trigger] wake@[k] < i,
                forall|k: int| 0 <= k < full@.len() ==> #[trigger] full@[k] < i,
                forall|j: int|
                    0 <= j < i ==> (ds0[j].pending().len() == RING_CAPACITY <==> full@.contains(j as usize)),
                forall|a: int, b: int| 0 <= a < b < wake@.len() ==> #[trigger] wake@[a] < #[trigger] wake@[b],
                forall|j: int|
                    0 <= j < i ==> (wake_on_publish(ds0[j].state, ds0[j].pending().len()) <==> exists|k: int|
                        0 <= k < wake@.len() && #[trigger] wake@[k] == j),
            decreases self.destinations.len() - i,
        {
            let ghost wake0 = wake@;
            let ghost full0 = full@;
            let ghost before = self.destinations@;
            let mut d = self.destinations.remove(i);
            assert(d == ds0[i as int]);
            let (w, dropped) = d.publish(event.duplicate());
            self.destinations.insert(i, d);
            if dropped.is_some() {
                full.push(i);
            }
            proof {
                assert forall|j: int|
                    0 <= j < i + 1 implies (ds0[j].pending().len() == RING_CAPACITY <==> full@.contains(j as usize)) by {
                    if j < i {
                        if full0.contains(j as usize) {
                            let k = choose|k: int| 0 <= k < full0.len() && full0[k] == j as usize;
                            assert(full@[k] == j as usize);
                        }
                        if full@.contains(j as usize) {
                            let k = choose|k: int| 0 <= k < full@.len() && full@[k] == j as usize;
                            if k == full0.len() {
                                assert(full@[k] == i);
                            } else {
                                assert(full0[k] == j as usize);
                            }
                        }
                    } else {
                        if dropped.is_some() {
                            assert(full@[full@.len() - 1] == i);
                        } else {
                            if full@.contains(i) {
                                let k = choose|k: int| 0 <= k < full@.len() && full@[k] == i;
                                assert(full0[k] < i);
                            }
                        }
                    }
                }
            }
            proof {
                assert forall|k: int| 0 <= k < ds0.len() && k != i implies #[trigger] self.destinations@[k]
                    == before[k] by {
                    if k < i {
                        assert(self.destinations@[k] == before[k]);
                    }
                }
            }
            if w {
                wake.push(i);
            }
            proof {
                assert forall|j: int|
                    0 <= j < i + 1 implies (wake_on_publish(ds0[j].state, ds0[j].pending().len()) <==> exists|k: int|
                    0 <= k < wake@.len() && #[trigger] wake@[k] == j) by {
                    if j < i {
                        if exists|k: int| 0 <= k < wake0.len() && #[trigger] wake0[k] == j {
                            let k = choose|k: int| 0 <= k < wake0.len() && #[trigger] wake0[k] == j;
                            assert(wake@[k] == wake0[k]);
                        }
                        if exists|k: int| 0 <= k < wake@.len() && #[trigger] wake@[k] == j {
                            let k = choose|k: int| 0 <= k < wake@.len() && #[trigger] wake@[k] == j;
                            assert(k < wake0.len());
                            assert(wake0[k] == wake@[k]);
                        }
                    } else {
                        if w {
                            assert(wake@[wake@.len() - 1] == j);
                        } else {
                            assert(wake@ == wake0);
                        }
                    }
                }
            }
            i += 1;
        }
        let res = (wake, full);
        proof {
            assert forall|j: int|
                0 <= j < ds0.len() implies (wake_on_publish(ds0[j].state, ds0[j].pending().len()) <==> exists|k: int|
                0 <= k < res.0@.len() && #[trigger] res.0@[k] == j) by {
                if wake_on_publish(ds0[j].state, ds0[j].pending().len()) {
                    let k = choose|k: int| 0 <= k < res.0@.len() && #[trigger] res.0@[k] == j;
                }
            }
        }
        res
    }
}

} // verus!
