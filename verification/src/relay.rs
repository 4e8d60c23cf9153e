//! The relay pipeline: the bounded many-producer ingestion queue, the
//! one-to-many fan-out bus, and the relay step that is the only bridge
//! between them.
//!
//! The bus keeps every published message in a log; a subscription is a pair
//! of cursors into that log — where it started (nothing before it is ever
//! observed: no backfill) and the next message it will observe. Publishing
//! appends to the log and never blocks or errors, whatever subscribers exist.
use vstd::prelude::*;

use std::collections::VecDeque;

use crate::message::ChatMessage;

verus! {

/// One subscription's cursors into the bus log: where it began and the next
/// entry it will be handed.
struct Subscription {
    start: usize,
    next: usize,
}

/// The fan-out bus: single producer (the relay loop), many consumers (the
/// sessions). Each subscription is an independent cursor that only ever sees
/// messages published after it was created.
pub struct FanoutBus {
    log: Vec<ChatMessage>,
    subs: Vec<Option<Subscription>>,
}

/// The bounded many-producer, single-consumer queue carrying outgoing chat
/// messages from every active session into the relay loop. A full queue
/// refuses the message instead of dropping it: the producer suspends and
/// retries — backpressure, not loss.
pub struct IngestionQueue {
    items: VecDeque<ChatMessage>,
    cap: usize,
}

impl FanoutBus {
    /// Everything ever published, in publication order. Its length is the
    /// bus's logical time.
    pub closed spec fn log(&self) -> Seq<ChatMessage> {
        self.log@
    }

    /// How many subscription slots exist (live or already cancelled).
    pub closed spec fn sub_count(&self) -> int {
        self.subs@.len() as int
    }

    /// Whether slot `s` is a live subscription.
    pub closed spec fn is_subscribed(&self, s: int) -> bool {
        0 <= s < self.subs@.len() && self.subs@[s] is Some
    }

    /// The logical time at which subscription `s` was created.
    pub closed spec fn sub_start(&self, s: int) -> int {
        self.subs@[s]->Some_0.start as int
    }

    /// The log position subscription `s` will be handed next.
    pub closed spec fn sub_next(&self, s: int) -> int {
        self.subs@[s]->Some_0.next as int
    }

    /// Every live cursor sits inside the log, and never before its start.
    pub open spec fn wf(&self) -> bool {
        forall|s: int| #[trigger] self.is_subscribed(s) ==> 0 <= self.sub_start(s)
            <= self.sub_next(s) <= self.log().len()
    }

    /// Everything subscription `s` has observed so far, in the order it
    /// observed it.
    pub open spec fn observed(&self, s: int) -> Seq<ChatMessage>
        recommends
            self.wf(),
            self.is_subscribed(s),
    {
        self.log().subrange(self.sub_start(s), self.sub_next(s))
    }

    /// A fresh bus: nothing published, nobody subscribed.
    pub fn new() -> (r: Self)
        ensures
            r.wf(),
            r.log() == Seq::<ChatMessage>::empty(),
            r.sub_count() == 0,
    {
        FanoutBus { log: Vec::new(), subs: Vec::new() }
    }

    /// Create a subscription. It starts at the current end of the log, so it
    /// will observe exactly the messages published after this moment.
    pub fn subscribe(&mut self) -> (s: usize)
        requires
            old(self).wf(),
        ensures
            final(self).wf(),
            s as int == old(self).sub_count(),
            final(self).sub_count() == old(self).sub_count() + 1,
            final(self).log() == old(self).log(),
            final(self).is_subscribed(s as int),
            final(self).sub_start(s as int) == old(self).log().len(),
            final(self).sub_next(s as int) == old(self).log().len(),
            final(self).observed(s as int) == Seq::<ChatMessage>::empty(),
            forall|t: int| t != s as int ==> same_sub(*old(self), *final(self), t),
    {
        let at = self.log.len();
        let s = self.subs.len();
        self.subs.push(Some(Subscription { start: at, next: at }));
        proof {
            assert(self.is_subscribed(s as int));
            assert forall|t: int| #[trigger] self.is_subscribed(t) implies 0 <= self.sub_start(t)
                <= self.sub_next(t) <= self.log().len() by {
                if t != s as int {
                    assert(old(self).is_subscribed(t));
                    assert(self.sub_start(t) == old(self).sub_start(t));
                    assert(self.sub_next(t) == old(self).sub_next(t));
                }
            };
            assert(final(self).observed(s as int) =~= Seq::<ChatMessage>::empty());
        }
        s
    }

    /// Publish one message: append it to the log. This is total — there is no
    /// subscriber it could block on and no cursor state, live, lagging or
    /// cancelled, that makes it fail.
    pub fn publish(&mut self, m: ChatMessage)
        requires
            old(self).wf(),
        ensures
            final(self).wf(),
            final(self).log() == old(self).log().push(m),
            final(self).sub_count() == old(self).sub_count(),
            forall|t: int| same_sub(*old(self), *final(self), t),
    {
        self.log.push(m);
        proof {
            assert forall|t: int| #[trigger] self.is_subscribed(t) implies 0 <= self.sub_start(t)
                <= self.sub_next(t) <= self.log().len() by {
                assert(old(self).is_subscribed(t));
            };
        }
    }

    /// Hand subscription `s` the next message published after the ones it has
    /// already observed, if any; `None` means it is fully caught up.
    pub fn try_recv(&mut self, s: usize) -> (r: Option<ChatMessage>)
        requires
            old(self).wf(),
            old(self).is_subscribed(s as int),
        ensures
            final(self).wf(),
            final(self).log() == old(self).log(),
            final(self).sub_count() == old(self).sub_count(),
            final(self).is_subscribed(s as int),
            final(self).sub_start(s as int) == old(self).sub_start(s as int),
            forall|t: int| t != s as int ==> same_sub(*old(self), *final(self), t),
            match r {
                Some(m) => {
                    &&& old(self).sub_next(s as int) < old(self).log().len()
                    &&& m == old(self).log()[old(self).sub_next(s as int)]
                    &&& final(self).sub_next(s as int) == old(self).sub_next(s as int) + 1
                    &&& final(self).observed(s as int) == old(self).observed(s as int).push(m)
                },
                None => {
                    &&& old(self).sub_next(s as int) == old(self).log().len()
                    &&& final(self).sub_next(s as int) == old(self).sub_next(s as int)
                },
            },
    {
        let slot = &self.subs[s];
        let next = match slot {
            Some(sub) => sub.next,
            None => {
                proof {
                    assert(false);
                }
                0
            },
        };
        if next < self.log.len() {
            let m = self.log[next].clone();
            let start = match &self.subs[s] {
                Some(sub) => sub.start,
                None => 0,
            };
            self.subs[s] = Some(Subscription { start, next: next + 1 });
            proof {
                assert(self.is_subscribed(s as int));
                assert(self.sub_start(s as int) == old(self).sub_start(s as int));
                assert(self.sub_next(s as int) == old(self).sub_next(s as int) + 1);
                assert forall|t: int| #[trigger] self.is_subscribed(t) implies 0 <= self.sub_start(
                    t,
                ) <= self.sub_next(t) <= self.log().len() by {
                    if t != s as int {
                        assert(old(self).is_subscribed(t));
                        assert(self.sub_start(t) == old(self).sub_start(t));
                        assert(self.sub_next(t) == old(self).sub_next(t));
                    }
                };
                assert(self.observed(s as int) =~= old(self).observed(s as int).push(m));
            }
            Some(m)
        } else {
            None
        }
    }

    /// Cancel subscription `s`. The slot goes stale; the log and every other
    /// subscription are untouched, and publishing afterwards still succeeds.
    pub fn unsubscribe(&mut self, s: usize)
        requires
            old(self).wf(),
            (s as int) < old(self).sub_count(),
        ensures
            final(self).wf(),
            final(self).log() == old(self).log(),
            final(self).sub_count() == old(self).sub_count(),
            !final(self).is_subscribed(s as int),
            forall|t: int| t != s as int ==> same_sub(*old(self), *final(self), t),
    {
        self.subs[s] = None;
        proof {
            assert forall|t: int| #[trigger] self.is_subscribed(t) implies 0 <= self.sub_start(t)
                <= self.sub_next(t) <= self.log().len() by {
                assert(t != s as int);
                assert(old(self).is_subscribed(t));
                assert(self.sub_start(t) == old(self).sub_start(t));
                assert(self.sub_next(t) == old(self).sub_next(t));
            };
        }
    }
}

/// Subscription slot `t` reads the same in `pre` and `post`: same liveness,
/// and when live, the same cursors.
pub open spec fn same_sub(pre: FanoutBus, post: FanoutBus, t: int) -> bool {
    &&& post.is_subscribed(t) == pre.is_subscribed(t)
    &&& pre.is_subscribed(t) ==> post.sub_start(t) == pre.sub_start(t) && post.sub_next(t)
        == pre.sub_next(t)
}

impl IngestionQueue {
    /// The queued messages, oldest first.
    pub closed spec fn contents(&self) -> Seq<ChatMessage> {
        self.items@
    }

    /// The bound the queue was created with.
    pub closed spec fn capacity(&self) -> int {
        self.cap as int
    }

    /// The queue never exceeds its bound.
    pub open spec fn wf(&self) -> bool {
        self.contents().len() <= self.capacity()
    }

    /// An empty queue with the given bound.
    pub fn new(cap: usize) -> (q: Self)
        requires
            cap >= 1,
        ensures
            q.wf(),
            q.contents() == Seq::<ChatMessage>::empty(),
            q.capacity() == cap,
    {
        IngestionQueue { items: VecDeque::new(), cap }
    }

    /// How many messages are waiting.
    pub fn len(&self) -> (n: usize)
        ensures
            n == self.contents().len(),
    {
        self.items.len()
    }

    /// Enqueue one message at the back, unless the queue is full: a full
    /// queue hands the message back untouched — the backpressure signal — and
    /// the producer suspends and retries; nothing is dropped.
    pub fn try_enqueue(&mut self, m: ChatMessage) -> (r: Option<ChatMessage>)
        requires
            old(self).wf(),
        ensures
            final(self).wf(),
            final(self).capacity() == old(self).capacity(),
            r is None ==> old(self).contents().len() < old(self).capacity()
                && final(self).contents() == old(self).contents().push(m),
            r matches Some(back) ==> back == m
                && old(self).contents().len() == old(self).capacity()
                && final(self).contents() == old(self).contents(),
    {
        if self.items.len() < self.cap {
            self.items.push_back(m);
            None
        } else {
            Some(m)
        }
    }

    /// Dequeue the oldest message, if any.
    pub fn dequeue(&mut self) -> (r: Option<ChatMessage>)
        requires
            old(self).wf(),
        ensures
            final(self).wf(),
            final(self).capacity() == old(self).capacity(),
            match r {
                Some(m) => {
                    &&& old(self).contents().len() > 0
                    &&& m == old(self).contents()[0]
                    &&& final(self).contents() == old(self).contents().subrange(1, old(self).contents().len() as int)
                },
                None => {
                    &&& old(self).contents().len() == 0
                    &&& final(self).contents() == old(self).contents()
                },
            },
    {
        self.items.pop_front()
    }
}

/// One turn of the relay loop: dequeue the oldest ingested message, if there
/// is one, and publish it to the bus verbatim. Returns whether a message
/// moved.
pub fn relay_step(q: &mut IngestionQueue, bus: &mut FanoutBus) -> (moved: bool)
    requires
        old(q).wf(),
        old(bus).wf(),
    ensures
        final(q).wf(),
        final(bus).wf(),
        final(q).capacity() == old(q).capacity(),
        final(bus).sub_count() == old(bus).sub_count(),
        forall|t: int| same_sub(*old(bus), *final(bus), t),
        moved ==> old(q).contents().len() > 0
            && final(bus).log() == old(bus).log().push(old(q).contents()[0])
            && final(q).contents() == old(q).contents().subrange(1, old(q).contents().len() as int),
        !moved ==> old(q).contents().len() == 0 && final(q).contents() == old(q).contents()
            && final(bus).log() == old(bus).log(),
{
    match q.dequeue() {
        Some(m) => {
            bus.publish(m);
            true
        },
        None => false,
    }
}

/// Drain the ingestion queue onto the bus: the relay loop's effect while the
/// producers are quiet. Every queued message is appended to the log, in queue
/// order, after everything already published; subscriptions are untouched.
pub fn run_relay(q: &mut IngestionQueue, bus: &mut FanoutBus)
    requires
        old(q).wf(),
        old(bus).wf(),
    ensures
        final(q).wf(),
        final(bus).wf(),
        final(q).capacity() == old(q).capacity(),
        final(q).contents().len() == 0,
        final(bus).log() == old(bus).log() + old(q).contents(),
        final(bus).sub_count() == old(bus).sub_count(),
        forall|t: int| same_sub(*old(bus), *final(bus), t),
{
    while q.len() != 0
        invariant
            q.wf(),
            bus.wf(),
            q.capacity() == old(q).capacity(),
            q.contents().len() <= old(q).contents().len(),
            q.contents() == old(q).contents().subrange(
                old(q).contents().len() - q.contents().len(),
                old(q).contents().len() as int,
            ),
            bus.log() == old(bus).log() + old(q).contents().subrange(
                0,
                old(q).contents().len() - q.contents().len(),
            ),
            bus.sub_count() == old(bus).sub_count(),
            forall|t: int| same_sub(*old(bus), *bus, t),
        decreases q.contents().len(),
    {
        let ghost qs = old(q).contents();
        let ghost done = qs.len() - q.contents().len();
        let ghost bus0 = *bus;
        relay_step(q, bus);
        proof {
            assert(q.contents() =~= qs.subrange(done + 1, qs.len() as int));
            assert(qs.subrange(done, qs.len() as int)[0] == qs[done]);
            assert(bus.log() =~= old(bus).log() + qs.subrange(0, done + 1));
            assert forall|t: int| same_sub(*old(bus), *bus, t) by {
                assert(same_sub(*old(bus), bus0, t));
                assert(same_sub(bus0, *bus, t));
            };
        }
    }
    proof {
        assert(old(q).contents().subrange(0, old(q).contents().len() as int) =~= old(q).contents());
    }
}

/// Law: a subscription observes exactly the log segment after its start — no
/// backfill. Everything it has observed sits at or after the logical time of
/// subscription, in log order; and once its cursor reaches the end of the
/// log, it has observed every message published after it subscribed, each
/// exactly once.
pub proof fn lemma_subscription_window(b: &FanoutBus, s: int)
    requires
        b.wf(),
        b.is_subscribed(s),
    ensures
        b.observed(s).len() == b.sub_next(s) - b.sub_start(s),
        forall|k: int| 0 <= k < b.observed(s).len() ==> b.observed(s)[k] == b.log()[b.sub_start(s)
            + k],
        b.sub_next(s) == b.log().len() ==> b.observed(s) == b.log().subrange(
            b.sub_start(s),
            b.log().len() as int,
        ),
{
}

/// Law: first-in, first-out through the relay. If the queue held `M1 = q[i]`
/// before `M2 = q[j]` and the relay drained it onto a log that previously
/// held `pre_log`, then any subscriber whose observation window spans both
/// log positions observes `M1` strictly before `M2`.
pub proof fn lemma_single_sender_order(
    b: &FanoutBus,
    pre_log: Seq<ChatMessage>,
    q: Seq<ChatMessage>,
    s: int,
    i: int,
    j: int,
)
    requires
        b.wf(),
        b.is_subscribed(s),
        b.log() == pre_log + q,
        0 <= i < j < q.len(),
        b.sub_start(s) <= pre_log.len() + i,
        pre_log.len() + j < b.sub_next(s),
    ensures
        ({
            let p1 = pre_log.len() + i - b.sub_start(s);
            let p2 = pre_log.len() + j - b.sub_start(s);
            &&& 0 <= p1 < p2 < b.observed(s).len()
            &&& b.observed(s)[p1] == q[i]
            &&& b.observed(s)[p2] == q[j]
        }),
{
    assert(b.log()[pre_log.len() + i] == q[i]);
    assert(b.log()[pre_log.len() + j] == q[j]);
}

} // verus!
