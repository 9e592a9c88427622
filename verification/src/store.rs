//! Frame store: the latest frame of each source, with live fan-out.
//!
//! Every ingested frame replaces the latest frame of its source and is
//! handed to the subscriptions bound to that source. Sequence numbers count
//! the frames of a source from 0, so each subscriber reads frames with
//! strictly growing sequence numbers, whatever its queue had to drop.

use vstd::prelude::*;
use vstd::string::*;
use crate::frame::{Frame, FrameView, frame_views};
use crate::multiplexer::{Multiplexer, SubscriptionView, active, after_read, deliver, in_order,
    keep_latest, next_of, position, published, without};
use crate::text::{assoc, distinct_keys, find_key, lemma_assoc_at, lemma_assoc_push,
    lemma_assoc_update};

verus! {

/// The sequence number that the next frame of `source` gets: one more than
/// that of its latest frame, and 0 for a source never seen.
pub open spec fn next_seq(latest: Map<Seq<char>, FrameView>, source: Seq<char>) -> int {
    if latest.dom().contains(source) {
        latest[source].seq + 1
    } else {
        0
    }
}

/// The queue of `sub` is in order and holds nothing newer than the latest
/// frame of the source that `sub` is bound to.
pub open spec fn settled(sub: SubscriptionView, latest: Map<Seq<char>, FrameView>) -> bool {
    &&& in_order(sub.queue)
    &&& sub.queue.len() > 0 ==> latest.dom().contains(sub.source)
    &&& forall|k: int|
        0 <= k < sub.queue.len() ==> (#[trigger] sub.queue[k]).seq <= latest[sub.source].seq
}

/// The latest frame of `source`, if it has one.
pub open spec fn latest_of(latest: Map<Seq<char>, FrameView>, source: Seq<char>) -> Option<
    FrameView,
> {
    if latest.dom().contains(source) {
        Some(latest[source])
    } else {
        None
    }
}

/// The frame that `bytes`, ingested for `source` at tick `now`, becomes.
pub open spec fn next_frame_of(
    latest: Map<Seq<char>, FrameView>,
    source: Seq<char>,
    bytes: Seq<u8>,
    now: u64,
) -> FrameView {
    FrameView { bytes, seq: next_seq(latest, source) as u64, ingested_at: now }
}

/// The latest frames after each of `puts`, pairs of bytes and tick, was
/// ingested for `source`, in order.
pub open spec fn after_puts(
    latest: Map<Seq<char>, FrameView>,
    source: Seq<char>,
    puts: Seq<(Seq<u8>, u64)>,
) -> Map<Seq<char>, FrameView>
    decreases puts.len(),
{
    if puts.len() == 0 {
        latest
    } else {
        let so_far = after_puts(latest, source, puts.drop_last());
        so_far.insert(source, next_frame_of(so_far, source, puts.last().0, puts.last().1))
    }
}

/// After any run of ingestions for one source, the latest frame of that
/// source is exactly the last one ingested, numbered by its place in the
/// run, and the latest frame of every other source is what it was.
pub proof fn lemma_latest_is_last_put(
    latest: Map<Seq<char>, FrameView>,
    source: Seq<char>,
    puts: Seq<(Seq<u8>, u64)>,
    other: Seq<char>,
)
    requires
        puts.len() > 0,
        next_seq(latest, source) + puts.len() - 1 <= u64::MAX,
        other != source,
    ensures
        latest_of(after_puts(latest, source, puts), source) == Some(
            FrameView {
                bytes: puts.last().0,
                seq: (next_seq(latest, source) + puts.len() - 1) as u64,
                ingested_at: puts.last().1,
            },
        ),
        latest_of(after_puts(latest, source, puts), other) == latest_of(latest, other),
    decreases puts.len(),
{
    let earlier = puts.drop_last();
    if puts.len() > 1 {
        lemma_latest_is_last_put(latest, source, earlier, other);
    } else {
        assert(after_puts(latest, source, earlier) == latest);
    }
}

/// A settled queue stays settled when the next frame of a source is
/// ingested: a subscription bound to that source takes it at the back, after
/// every frame it already holds, and any other is untouched.
pub proof fn lemma_delivery_settles(
    sub: SubscriptionView,
    latest: Map<Seq<char>, FrameView>,
    source: Seq<char>,
    frame: FrameView,
    capacity: int,
)
    requires
        settled(sub, latest),
        frame.seq == next_seq(latest, source),
    ensures
        settled(deliver(sub, source, frame, capacity), latest.insert(source, frame)),
{
    let after = deliver(sub, source, frame, capacity);
    let q = after.queue;
    if sub.source == source {
        let grown = sub.queue.push(frame);
        assert forall|a: int, b: int| 0 <= a < b < grown.len() implies (#[trigger] grown[a]).seq < (
        #[trigger] grown[b]).seq by {
            if b < sub.queue.len() {
                assert(sub.queue[a].seq < sub.queue[b].seq);
            } else {
                assert(sub.queue[a].seq <= latest[sub.source].seq);
            }
        }
        assert forall|k: int| 0 <= k < grown.len() implies (#[trigger] grown[k]).seq
            <= frame.seq by {
            if k < sub.queue.len() {
                assert(sub.queue[k].seq <= latest[sub.source].seq);
            }
        }
        assert(q == keep_latest(grown, capacity));
        let off = grown.len() - q.len();
        assert forall|a: int, b: int| 0 <= a < b < q.len() implies (#[trigger] q[a]).seq < (
        #[trigger] q[b]).seq by {
            assert(q[a] == grown[a + off]);
            assert(q[b] == grown[b + off]);
        }
        assert forall|k: int| 0 <= k < q.len() implies (#[trigger] q[k]).seq <= frame.seq by {
            assert(q[k] == grown[k + off]);
        }
    } else {
        assert forall|k: int| 0 <= k < q.len() implies (#[trigger] q[k]).seq
            <= latest[sub.source].seq by {
            assert(sub.queue[k].seq <= latest[sub.source].seq);
        }
    }
}

/// A settled queue stays settled when its oldest frame is read.
pub proof fn lemma_read_settles(sub: SubscriptionView, latest: Map<Seq<char>, FrameView>)
    requires
        settled(sub, latest),
        sub.queue.len() > 0,
    ensures
        settled(
            SubscriptionView { id: sub.id, source: sub.source, queue: sub.queue.drop_first() },
            latest,
        ),
{
    let q0 = sub.queue;
    let q1 = sub.queue.drop_first();
    assert forall|a: int, b: int| 0 <= a < b < q1.len() implies (#[trigger] q1[a]).seq < (
    #[trigger] q1[b]).seq by {
        assert(q0[a + 1].seq < q0[b + 1].seq);
    }
    assert forall|k: int| 0 <= k < q1.len() implies (#[trigger] q1[k]).seq
        <= latest[sub.source].seq by {
        assert(q0[k + 1].seq <= latest[sub.source].seq);
    }
}

/// The latest frame of each source, and the subscriptions that follow them.
pub struct FrameStore {
    sources: Vec<String>,
    frames: Vec<Frame>,
    mux: Multiplexer,
}

impl FrameStore {
    /// The latest frame of each source that was ever ingested.
    pub closed spec fn latest(&self) -> Map<Seq<char>, FrameView> {
        assoc(self.sources@, frame_views(self.frames@))
    }

    /// The subscriptions, in the order in which they were made.
    pub closed spec fn subscriptions(&self) -> Seq<SubscriptionView> {
        self.mux.subscriptions()
    }

    /// The number of frames that a subscription's queue holds at most.
    pub closed spec fn capacity(&self) -> int {
        self.mux.capacity()
    }

    /// The handle that the next subscription gets.
    pub closed spec fn next_handle(&self) -> u64 {
        self.mux.next_handle()
    }

    /// One latest frame per source, a consistent registry, and every queue
    /// settled.
    pub closed spec fn wf(&self) -> bool {
        &&& self.sources@.len() == self.frames@.len()
        &&& distinct_keys(self.sources@)
        &&& self.mux.wf()
        &&& forall|i: int|
            0 <= i < self.subscriptions().len() ==> settled(
                #[trigger] self.subscriptions()[i],
                self.latest(),
            )
    }

    /// In a consistent store every subscriber's queue is within the
    /// capacity, in strictly growing sequence order, and holds nothing newer
    /// than the latest frame of its source.
    pub proof fn lemma_queues_settled(&self, i: int)
        requires
            self.wf(),
            0 <= i < self.subscriptions().len(),
        ensures
            self.subscriptions()[i].queue.len() <= self.capacity(),
            settled(self.subscriptions()[i], self.latest()),
    {
    }

    /// An empty store whose subscriptions will queue up to `capacity`
    /// frames.
    pub fn new(capacity: usize) -> (r: Self)
        ensures
            r.wf(),
            r.latest() == Map::<Seq<char>, FrameView>::empty(),
            r.subscriptions() == Seq::<SubscriptionView>::empty(),
            r.capacity() == capacity,
            r.next_handle() == 0,
    {
        let r = FrameStore { sources: Vec::new(), frames: Vec::new(), mux: Multiplexer::new(capacity) };
        assert(r.latest() =~= Map::<Seq<char>, FrameView>::empty());
        r
    }

    /// Whether `source_id` can take another frame: its sequence numbers are
    /// not used up.
    pub fn can_put(&self, source_id: &str) -> (r: bool)
        requires
            self.wf(),
        ensures
            r == (next_seq(self.latest(), source_id@) <= u64::MAX),
    {
        match find_key(&self.sources, source_id) {
            None => true,
            Some(i) => {
                proof {
                    lemma_assoc_at(self.sources@, frame_views(self.frames@), i as int);
                }
                self.frames[i].seq < u64::MAX
            },
        }
    }

    /// Stores `bytes` as the latest frame of `source_id`, ingested at tick
    /// `now`, and publishes it to the subscriptions bound to `source_id`.
    /// Returns the frame's sequence number.
    pub fn put(&mut self, source_id: &str, bytes: Vec<u8>, now: u64) -> (seq: u64)
        requires
            old(self).wf(),
            next_seq(old(self).latest(), source_id@) <= u64::MAX,
        ensures
            final(self).wf(),
            seq == next_seq(old(self).latest(), source_id@),
            final(self).latest() == old(self).latest().insert(
                source_id@,
                next_frame_of(old(self).latest(), source_id@, bytes@, now),
            ),
            final(self).subscriptions() == published(
                old(self).subscriptions(),
                source_id@,
                next_frame_of(old(self).latest(), source_id@, bytes@, now),
                old(self).capacity(),
            ),
            final(self).capacity() == old(self).capacity(),
            final(self).next_handle() == old(self).next_handle(),
    {
        let ghost views = frame_views(self.frames@);
        let ghost before = self.latest();
        let ghost subs = self.subscriptions();
        let found = find_key(&self.sources, source_id);
        let seq: u64 = match found {
            None => 0,
            Some(i) => {
                proof {
                    lemma_assoc_at(self.sources@, views, i as int);
                }
                self.frames[i].seq + 1
            },
        };
        let frame = Frame { bytes, seq, ingested_at: now };
        let ghost fv = frame@;
        self.mux.publish(source_id, &frame);
        match found {
            Some(i) => {
                proof {
                    lemma_assoc_update(self.sources@, views, i as int, fv);
                }
                self.frames.set(i, frame);
                assert(frame_views(self.frames@) =~= views.update(i as int, fv));
            },
            None => {
                let key = String::from_str(source_id);
                proof {
                    lemma_assoc_push(self.sources@, views, key, fv);
                }
                self.sources.push(key);
                self.frames.push(frame);
                assert(frame_views(self.frames@) =~= views.push(fv));
            },
        }
        assert(self.latest() == before.insert(source_id@, fv));
        assert forall|i: int| 0 <= i < self.subscriptions().len() implies settled(
            #[trigger] self.subscriptions()[i],
            self.latest(),
        ) by {
            lemma_delivery_settles(subs[i], before, source_id@, fv, old(self).capacity());
        }
        seq
    }

    /// A snapshot of the latest frame of `source_id`; none if no frame was
    /// ever ingested for it.
    pub fn get_latest(&self, source_id: &str) -> (r: Option<Frame>)
        requires
            self.wf(),
        ensures
            match r {
                Some(f) => latest_of(self.latest(), source_id@) == Some(f@),
                None => latest_of(self.latest(), source_id@).is_none(),
            },
    {
        match find_key(&self.sources, source_id) {
            None => None,
            Some(i) => {
                proof {
                    lemma_assoc_at(self.sources@, frame_views(self.frames@), i as int);
                }
                Some(self.frames[i].duplicate())
            },
        }
    }

    /// Whether another subscription can be made: handles are not used up.
    pub fn can_subscribe(&self) -> (r: bool)
        ensures
            r == (self.next_handle() < u64::MAX),
    {
        !self.mux.is_exhausted()
    }

    /// Makes a subscription bound to `source_id`, with an empty queue: it
    /// sees the frames ingested from now on, none of the earlier ones.
    /// Returns its handle.
    pub fn subscribe(&mut self, source_id: &str) -> (id: u64)
        requires
            old(self).wf(),
            old(self).next_handle() < u64::MAX,
        ensures
            final(self).wf(),
            id == old(self).next_handle(),
            final(self).next_handle() == id + 1,
            final(self).capacity() == old(self).capacity(),
            final(self).latest() == old(self).latest(),
            final(self).subscriptions() == old(self).subscriptions().push(
                (SubscriptionView { id, source: source_id@, queue: Seq::empty() }),
            ),
    {
        let ghost subs = self.subscriptions();
        let id = self.mux.subscribe(source_id);
        assert forall|i: int| 0 <= i < self.subscriptions().len() implies settled(
            #[trigger] self.subscriptions()[i],
            self.latest(),
        ) by {
            if i < subs.len() {
                assert(settled(subs[i], self.latest()));
            }
        }
        id
    }

    /// Removes the subscription with handle `id`. Nothing happens if there
    /// is none, so a second call is harmless.
    pub fn unsubscribe(&mut self, id: u64)
        requires
            old(self).wf(),
        ensures
            final(self).wf(),
            final(self).next_handle() == old(self).next_handle(),
            final(self).capacity() == old(self).capacity(),
            final(self).latest() == old(self).latest(),
            final(self).subscriptions() == without(old(self).subscriptions(), id),
            !active(final(self).subscriptions(), id),
    {
        let ghost subs = self.subscriptions();
        self.mux.unsubscribe(id);
        assert forall|i: int| 0 <= i < self.subscriptions().len() implies settled(
            #[trigger] self.subscriptions()[i],
            self.latest(),
        ) by {
            if active(subs, id) {
                let p = position(subs, id);
                if i < p {
                    assert(settled(subs[i], self.latest()));
                } else {
                    assert(settled(subs[i + 1], self.latest()));
                }
            } else {
                assert(settled(subs[i], self.latest()));
            }
        }
    }

    /// Takes the oldest waiting frame of the subscription with handle `id`.
    /// There is none if the queue is empty or no such subscription is
    /// active.
    pub fn next_frame(&mut self, id: u64) -> (r: Option<Frame>)
        requires
            old(self).wf(),
        ensures
            final(self).wf(),
            final(self).next_handle() == old(self).next_handle(),
            final(self).capacity() == old(self).capacity(),
            final(self).latest() == old(self).latest(),
            final(self).subscriptions() == after_read(old(self).subscriptions(), id),
            match r {
                Some(f) => next_of(old(self).subscriptions(), id) == Some(f@),
                None => next_of(old(self).subscriptions(), id).is_none(),
            },
    {
        let ghost subs = self.subscriptions();
        let r = self.mux.next_frame(id);
        assert forall|i: int| 0 <= i < self.subscriptions().len() implies settled(
            #[trigger] self.subscriptions()[i],
            self.latest(),
        ) by {
            assert(settled(subs[i], self.latest()));
            if active(subs, id) && i == position(subs, id) && subs[i].queue.len() > 0 {
                lemma_read_settles(subs[i], self.latest());
            }
        }
        r
    }

    /// Whether a subscription with handle `id` is active.
    pub fn is_active(&self, id: u64) -> (r: bool)
        requires
            self.wf(),
        ensures
            r == active(self.subscriptions(), id),
    {
        self.mux.is_active(id)
    }
}

} // verus!
