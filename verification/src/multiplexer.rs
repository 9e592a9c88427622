//! Broadcast multiplexer: fans each published frame out to the bounded
//! queues of the subscriptions bound to its source.
//!
//! A queue that is full gives up its oldest frame to take a new one, so a
//! queue always holds the most recent frames published since it was last
//! read, in publication order.

use vstd::prelude::*;
use vstd::string::*;
use crate::frame::{Frame, FrameView, frame_views};

verus! {

/// A live consumer: its handle, the source it is bound to, and the frames
/// waiting to be read, oldest first.
#[derive(Debug)]
pub struct Subscription {
    pub id: u64,
    pub source_id: String,
    pub queue: Vec<Frame>,
}

/// What a subscription is.
pub struct SubscriptionView {
    pub id: u64,
    pub source: Seq<char>,
    pub queue: Seq<FrameView>,
}

impl View for Subscription {
    type V = SubscriptionView;

    open spec fn view(&self) -> SubscriptionView {
        SubscriptionView { id: self.id, source: self.source_id@, queue: frame_views(self.queue@) }
    }
}

/// The views of a list of subscriptions, in order.
pub open spec fn subscription_views(subs: Seq<Subscription>) -> Seq<SubscriptionView> {
    Seq::new(subs.len(), |i: int| subs[i]@)
}

/// The last `capacity` frames of `q`, or all of `q` if it holds no more.
pub open spec fn keep_latest(q: Seq<FrameView>, capacity: int) -> Seq<FrameView> {
    if q.len() > capacity && capacity >= 0 {
        q.subrange(q.len() - capacity, q.len() as int)
    } else {
        q
    }
}

/// The queue after `frame` arrived: `frame` goes to the back, and the front
/// goes where the queue would otherwise exceed `capacity`.
pub open spec fn enqueue(q: Seq<FrameView>, frame: FrameView, capacity: int) -> Seq<FrameView> {
    keep_latest(q.push(frame), capacity)
}

/// The queue after each of `frames` arrived, in order.
pub open spec fn enqueue_all(q: Seq<FrameView>, frames: Seq<FrameView>, capacity: int) -> Seq<
    FrameView,
>
    decreases frames.len(),
{
    if frames.len() == 0 {
        q
    } else {
        enqueue(enqueue_all(q, frames.drop_last(), capacity), frames.last(), capacity)
    }
}

/// A subscription after `frame` was published under `source`: it takes the
/// frame if it is bound to `source`, and is untouched if not.
pub open spec fn deliver(
    sub: SubscriptionView,
    source: Seq<char>,
    frame: FrameView,
    capacity: int,
) -> SubscriptionView {
    if sub.source == source {
        SubscriptionView { id: sub.id, source: sub.source, queue: enqueue(sub.queue, frame, capacity) }
    } else {
        sub
    }
}

/// All subscriptions after `frame` was published under `source`.
pub open spec fn published(
    subs: Seq<SubscriptionView>,
    source: Seq<char>,
    frame: FrameView,
    capacity: int,
) -> Seq<SubscriptionView> {
    Seq::new(subs.len(), |i: int| deliver(subs[i], source, frame, capacity))
}

/// A subscription with handle `id` is among `subs`.
pub open spec fn active(subs: Seq<SubscriptionView>, id: u64) -> bool {
    exists|i: int| 0 <= i < subs.len() && (#[trigger] subs[i]).id == id
}

/// A position of the subscription with handle `id`; meaningful where
/// `active` holds.
pub open spec fn position(subs: Seq<SubscriptionView>, id: u64) -> int {
    choose|i: int| 0 <= i < subs.len() && (#[trigger] subs[i]).id == id
}

/// No two subscriptions share a handle.
pub open spec fn distinct_handles(subs: Seq<SubscriptionView>) -> bool {
    forall|i: int, j: int|
        0 <= i < subs.len() && 0 <= j < subs.len() && (#[trigger] subs[i]).id == (
        #[trigger] subs[j]).id ==> i == j
}

/// The subscriptions without the one with handle `id`.
pub open spec fn without(subs: Seq<SubscriptionView>, id: u64) -> Seq<SubscriptionView> {
    if active(subs, id) {
        subs.remove(position(subs, id))
    } else {
        subs
    }
}

/// The frame that the subscription with handle `id` reads next, if it is
/// active and has one waiting.
pub open spec fn next_of(subs: Seq<SubscriptionView>, id: u64) -> Option<FrameView> {
    if active(subs, id) && subs[position(subs, id)].queue.len() > 0 {
        Some(subs[position(subs, id)].queue[0])
    } else {
        None
    }
}

/// The subscriptions after the one with handle `id` read its next frame.
pub open spec fn after_read(subs: Seq<SubscriptionView>, id: u64) -> Seq<SubscriptionView> {
    if active(subs, id) && subs[position(subs, id)].queue.len() > 0 {
        let p = position(subs, id);
        subs.update(
            p,
            SubscriptionView { id: subs[p].id, source: subs[p].source, queue: subs[p].queue.drop_first() },
        )
    } else {
        subs
    }
}

/// Where handles are distinct, the position of a handle is the one place
/// where it stands.
pub proof fn lemma_position_unique(subs: Seq<SubscriptionView>, i: int)
    requires
        distinct_handles(subs),
        0 <= i < subs.len(),
    ensures
        active(subs, subs[i].id),
        position(subs, subs[i].id) == i,
{
    let id = subs[i].id;
    assert(0 <= i < subs.len() && subs[i].id == id);
    let p = position(subs, id);
    assert(0 <= p < subs.len() && subs[p].id == id);
}

/// Sequence numbers grow strictly from the front of `q` to its back.
pub open spec fn in_order(q: Seq<FrameView>) -> bool {
    forall|i: int, j: int| 0 <= i < j < q.len() ==> (#[trigger] q[i]).seq < (#[trigger] q[j]).seq
}

/// Dropping from the front never reorders: what a bounded queue keeps of an
/// ordered run of frames is ordered.
pub proof fn lemma_keep_latest_in_order(q: Seq<FrameView>, capacity: int)
    requires
        in_order(q),
    ensures
        in_order(keep_latest(q, capacity)),
{
}

/// Trimming before and after an arrival keeps what trimming after it keeps.
pub proof fn lemma_enqueue_trimmed(q: Seq<FrameView>, frame: FrameView, capacity: int)
    ensures
        enqueue(keep_latest(q, capacity), frame, capacity) == enqueue(q, frame, capacity),
{
    assert(enqueue(keep_latest(q, capacity), frame, capacity) =~= enqueue(q, frame, capacity));
}

/// A queue that took a run of frames holds the most recent ones of all it
/// ever held, as many as its capacity allows, in the order of their arrival.
pub proof fn lemma_enqueue_all_keeps_latest(
    q: Seq<FrameView>,
    frames: Seq<FrameView>,
    capacity: int,
)
    requires
        q.len() <= capacity,
    ensures
        enqueue_all(q, frames, capacity) == keep_latest(q + frames, capacity),
    decreases frames.len(),
{
    if frames.len() == 0 {
        assert(q + frames =~= q);
    } else {
        let init = frames.drop_last();
        lemma_enqueue_all_keeps_latest(q, init, capacity);
        lemma_enqueue_trimmed(q + init, frames.last(), capacity);
        assert((q + init).push(frames.last()) =~= q + frames);
    }
}

/// A subscriber that reads nothing while more frames are published than its
/// queue holds finds exactly the most recent `capacity` of them waiting, in
/// publication order; where the frames were published with growing
/// sequence numbers, it reads them with growing sequence numbers.
pub proof fn lemma_overflow_keeps_most_recent(frames: Seq<FrameView>, capacity: int)
    requires
        0 <= capacity < frames.len(),
    ensures
        enqueue_all(Seq::empty(), frames, capacity) == frames.subrange(
            frames.len() - capacity,
            frames.len() as int,
        ),
        in_order(frames) ==> in_order(enqueue_all(Seq::empty(), frames, capacity)),
{
    lemma_enqueue_all_keeps_latest(Seq::empty(), frames, capacity);
    assert(Seq::<FrameView>::empty() + frames =~= frames);
}

/// A frame published under one source reaches no subscription bound to
/// another: such a subscription is the same before and after.
pub proof fn lemma_no_cross_source_delivery(
    subs: Seq<SubscriptionView>,
    source: Seq<char>,
    frame: FrameView,
    capacity: int,
    i: int,
)
    requires
        0 <= i < subs.len(),
        subs[i].source != source,
    ensures
        published(subs, source, frame, capacity)[i] == subs[i],
{
}

/// Publishing neither makes nor removes a subscription, and rebinds none.
pub proof fn lemma_publish_keeps_bindings(
    subs: Seq<SubscriptionView>,
    source: Seq<char>,
    frame: FrameView,
    capacity: int,
    i: int,
)
    requires
        0 <= i < subs.len(),
    ensures
        published(subs, source, frame, capacity).len() == subs.len(),
        published(subs, source, frame, capacity)[i].id == subs[i].id,
        published(subs, source, frame, capacity)[i].source == subs[i].source,
{
}

/// One publication: a frame and the source it was published under.
pub struct Publication {
    pub source: Seq<char>,
    pub frame: FrameView,
}

/// All subscriptions after each of `pubs` was published, in order.
pub open spec fn published_all(
    subs: Seq<SubscriptionView>,
    pubs: Seq<Publication>,
    capacity: int,
) -> Seq<SubscriptionView>
    decreases pubs.len(),
{
    if pubs.len() == 0 {
        subs
    } else {
        published(
            published_all(subs, pubs.drop_last(), capacity),
            pubs.last().source,
            pubs.last().frame,
            capacity,
        )
    }
}

/// The frames among `pubs` that were published under `source`, in order.
pub open spec fn frames_under(pubs: Seq<Publication>, source: Seq<char>) -> Seq<FrameView>
    decreases pubs.len(),
{
    if pubs.len() == 0 {
        Seq::empty()
    } else if pubs.last().source == source {
        frames_under(pubs.drop_last(), source).push(pubs.last().frame)
    } else {
        frames_under(pubs.drop_last(), source)
    }
}

/// However publications under different sources interleave, a subscription
/// ends up with what the frames of its own source alone would have left in
/// its queue, in the order in which they were published; frames of other
/// sources leave no trace in it.
pub proof fn lemma_subscriber_sees_only_its_source(
    subs: Seq<SubscriptionView>,
    pubs: Seq<Publication>,
    capacity: int,
    i: int,
)
    requires
        0 <= i < subs.len(),
    ensures
        published_all(subs, pubs, capacity).len() == subs.len(),
        published_all(subs, pubs, capacity)[i].id == subs[i].id,
        published_all(subs, pubs, capacity)[i].source == subs[i].source,
        published_all(subs, pubs, capacity)[i].queue == enqueue_all(
            subs[i].queue,
            frames_under(pubs, subs[i].source),
            capacity,
        ),
    decreases pubs.len(),
{
    if pubs.len() > 0 {
        lemma_subscriber_sees_only_its_source(subs, pubs.drop_last(), capacity, i);
        let mine = frames_under(pubs, subs[i].source);
        if pubs.last().source == subs[i].source {
            assert(mine.drop_last() =~= frames_under(pubs.drop_last(), subs[i].source));
            assert(mine.last() == pubs.last().frame);
        }
    }
}

/// A subscriber that starts with an empty queue and reads nothing while
/// more frames of its source are published than its queue holds, amid any
/// publications under other sources, finds exactly the most recent
/// `capacity` frames of its source waiting, in publication order; where
/// those frames were published with growing sequence numbers, it reads
/// them with growing sequence numbers.
pub proof fn lemma_slow_subscriber_keeps_most_recent(
    subs: Seq<SubscriptionView>,
    pubs: Seq<Publication>,
    capacity: int,
    i: int,
)
    requires
        0 <= i < subs.len(),
        subs[i].queue.len() == 0,
        0 <= capacity < frames_under(pubs, subs[i].source).len(),
    ensures
        ({
            let mine = frames_under(pubs, subs[i].source);
            let q = published_all(subs, pubs, capacity)[i].queue;
            &&& q == mine.subrange(mine.len() - capacity, mine.len() as int)
            &&& in_order(mine) ==> in_order(q)
        }),
{
    let mine = frames_under(pubs, subs[i].source);
    lemma_subscriber_sees_only_its_source(subs, pubs, capacity, i);
    assert(subs[i].queue =~= Seq::<FrameView>::empty());
    lemma_overflow_keeps_most_recent(mine, capacity);
}

/// Removing a subscription twice is removing it once.
pub proof fn lemma_unsubscribe_twice(subs: Seq<SubscriptionView>, id: u64)
    requires
        distinct_handles(subs),
    ensures
        !active(without(subs, id), id),
        without(without(subs, id), id) == without(subs, id),
{
    if active(subs, id) {
        let p = position(subs, id);
        let rest = subs.remove(p);
        assert forall|k: int| 0 <= k < rest.len() implies (#[trigger] rest[k]).id != id by {
            if k < p {
                assert(rest[k] == subs[k]);
            } else {
                assert(rest[k] == subs[k + 1]);
            }
        }
    }
}

/// The registry of subscriptions.
pub struct Multiplexer {
    subs: Vec<Subscription>,
    capacity: usize,
    next_id: u64,
}

impl Multiplexer {
    /// The subscriptions, in the order in which they were made.
    pub closed spec fn subscriptions(&self) -> Seq<SubscriptionView> {
        subscription_views(self.subs@)
    }

    /// The number of frames that a queue holds at most.
    pub closed spec fn capacity(&self) -> int {
        self.capacity as int
    }

    /// The handle that the next subscription gets.
    pub closed spec fn next_handle(&self) -> u64 {
        self.next_id
    }

    /// Handles are distinct and were all given out already; no queue is
    /// longer than the capacity.
    pub open spec fn wf(&self) -> bool {
        &&& distinct_handles(self.subscriptions())
        &&& forall|i: int|
            0 <= i < self.subscriptions().len() ==> (#[trigger] self.subscriptions()[i]).id
                < self.next_handle()
        &&& forall|i: int|
            0 <= i < self.subscriptions().len() ==> (#[trigger] self.subscriptions()[i]).queue.len()
                <= self.capacity()
    }

    /// A registry without subscriptions whose queues will hold up to
    /// `capacity` frames.
    pub fn new(capacity: usize) -> (r: Self)
        ensures
            r.wf(),
            r.subscriptions() == Seq::<SubscriptionView>::empty(),
            r.capacity() == capacity,
            r.next_handle() == 0,
    {
        let r = Multiplexer { subs: Vec::new(), capacity, next_id: 0 };
        assert(r.subscriptions() =~= Seq::<SubscriptionView>::empty());
        r
    }

    /// Whether every handle has been given out.
    pub fn is_exhausted(&self) -> (r: bool)
        ensures
            r == (self.next_handle() == u64::MAX),
    {
        self.next_id == u64::MAX
    }

    /// Position of the subscription with handle `id`, if it is active.
    fn find(&self, id: u64) -> (r: Option<usize>)
        requires
            self.wf(),
        ensures
            match r {
                Some(i) => i < self.subs@.len() && self.subs@[i as int].id == id && active(
                    self.subscriptions(),
                    id,
                ) && position(self.subscriptions(), id) == i,
                None => !active(self.subscriptions(), id),
            },
    {
        let mut i: usize = 0;
        while i < self.subs.len()
            invariant
                self.wf(),
                i <= self.subs@.len(),
                forall|k: int| 0 <= k < i ==> (#[trigger] self.subscriptions()[k]).id != id,
            decreases self.subs@.len() - i,
        {
            if self.subs[i].id == id {
                proof {
                    lemma_position_unique(self.subscriptions(), i as int);
                }
                return Some(i);
            }
            i += 1;
        }
        None
    }

    /// Whether a subscription with handle `id` is active.
    pub fn is_active(&self, id: u64) -> (r: bool)
        requires
            self.wf(),
        ensures
            r == active(self.subscriptions(), id),
    {
        self.find(id).is_some()
    }

    /// Makes a subscription bound to `source_id`, with an empty queue: it
    /// sees what is published from now on. Returns its handle.
    pub fn subscribe(&mut self, source_id: &str) -> (id: u64)
        requires
            old(self).wf(),
            old(self).next_handle() < u64::MAX,
        ensures
            final(self).wf(),
            id == old(self).next_handle(),
            final(self).next_handle() == id + 1,
            final(self).capacity() == old(self).capacity(),
            final(self).subscriptions() == old(self).subscriptions().push(
                (SubscriptionView { id, source: source_id@, queue: Seq::empty() }),
            ),
    {
        let id: u64 = self.next_id;
        let sub = Subscription { id, source_id: String::from_str(source_id), queue: Vec::new() };
        assert(sub@.queue =~= Seq::<FrameView>::empty());
        self.subs.push(sub);
        self.next_id = id + 1;
        assert(self.subscriptions() =~= old(self).subscriptions().push(
            (SubscriptionView { id, source: source_id@, queue: Seq::empty() }),
        ));
        id
    }

    /// Hands a snapshot of `frame` to every subscription bound to
    /// `source_id`, and to no other.
    pub fn publish(&mut self, source_id: &str, frame: &Frame)
        requires
            old(self).wf(),
        ensures
            final(self).wf(),
            final(self).next_handle() == old(self).next_handle(),
            final(self).capacity() == old(self).capacity(),
            final(self).subscriptions() == published(
                old(self).subscriptions(),
                source_id@,
                frame@,
                old(self).capacity(),
            ),
    {
        let key = String::from_str(source_id);
        let ghost before = self.subscriptions();
        let ghost cap = self.capacity();
        let n: usize = self.subs.len();
        let mut i: usize = 0;
        while i < n
            invariant
                n == self.subs@.len(),
                n == before.len(),
                i <= n,
                key@ == source_id@,
                cap == self.capacity,
                self.capacity == old(self).capacity,
                self.next_id == old(self).next_id,
                before == old(self).subscriptions(),
                forall|k: int| 0 <= k < before.len() ==> (#[trigger] before[k]).queue.len() <= cap,
                forall|k: int|
                    0 <= k < i ==> (#[trigger] self.subscriptions()[k]) == deliver(
                        before[k],
                        source_id@,
                        frame@,
                        cap,
                    ),
                forall|k: int| i <= k < n ==> (#[trigger] self.subscriptions()[k]) == before[k],
            decreases n - i,
        {
            let ghost mid = self.subscriptions();
            let ghost q0 = self.subs@[i as int]@.queue;
            assert(mid[i as int] == before[i as int]);
            assert(q0.len() <= cap);
            assert(q0.len() == self.subs@[i as int].queue@.len());
            if self.subs[i].source_id == key {
                if self.capacity > 0 {
                    if self.subs[i].queue.len() >= self.capacity {
                        let _ = self.subs[i].queue.remove(0);
                        assert(frame_views(self.subs@[i as int].queue@) =~= q0.drop_first());
                    }
                    let ghost q1 = self.subs@[i as int]@.queue;
                    let copy = frame.duplicate();
                    self.subs[i].queue.push(copy);
                    assert(frame_views(self.subs@[i as int].queue@) =~= q1.push(frame@));
                    assert(q1.push(frame@) =~= enqueue(q0, frame@, cap));
                } else {
                    assert(q0 =~= enqueue(q0, frame@, cap));
                }
            }
            assert(self.subscriptions()[i as int] == deliver(before[i as int], source_id@, frame@, cap));
            assert forall|k: int| 0 <= k < n && k != i implies (#[trigger] self.subscriptions()[k])
                == mid[k] by {}
            i += 1;
        }
        assert(self.subscriptions() =~= published(before, source_id@, frame@, cap));
    }

    /// Removes the subscription with handle `id`. Nothing happens if there
    /// is none, so a second call is harmless.
    pub fn unsubscribe(&mut self, id: u64)
        requires
            old(self).wf(),
        ensures
            final(self).wf(),
            final(self).next_handle() == old(self).next_handle(),
            final(self).capacity() == old(self).capacity(),
            final(self).subscriptions() == without(old(self).subscriptions(), id),
            !active(final(self).subscriptions(), id),
    {
        match self.find(id) {
            None => {},
            Some(i) => {
                let ghost before = self.subscriptions();
                let _ = self.subs.remove(i);
                assert(self.subscriptions() =~= before.remove(i as int));
                assert forall|k: int| 0 <= k < self.subscriptions().len() implies (
                #[trigger] self.subscriptions()[k]).id != id by {
                    if k < i {
                        assert(before[k].id != id);
                    } else {
                        assert(before[k + 1].id != id);
                    }
                }
            },
        }
    }

    /// Takes the oldest waiting frame of the subscription with handle `id`.
    /// There is none if the queue is empty or no such subscription is
    /// active.
    pub fn next_frame(&mut self, id: u64) -> (r: Option<Frame>)
        requires
            old(self).wf(),
        ensures
            final(self).wf(),
            final(self).next_handle() == old(self).next_handle(),
            final(self).capacity() == old(self).capacity(),
            final(self).subscriptions() == after_read(old(self).subscriptions(), id),
            match r {
                Some(f) => next_of(old(self).subscriptions(), id) == Some(f@),
                None => next_of(old(self).subscriptions(), id).is_none(),
            },
    {
        match self.find(id) {
            None => None,
            Some(i) => {
                if self.subs[i].queue.len() == 0 {
                    None
                } else {
                    let ghost before = self.subscriptions();
                    let f = self.subs[i].queue.remove(0);
                    assert(self.subs@[i as int]@.queue =~= before[i as int].queue.drop_first());
                    assert(self.subscriptions() =~= after_read(before, id));
                    Some(f)
                }
            },
        }
    }

    /// How many frames wait in the queue of the subscription with handle
    /// `id`; none if no such subscription is active.
    pub fn pending(&self, id: u64) -> (r: usize)
        requires
            self.wf(),
        ensures
            r == if active(self.subscriptions(), id) {
                self.subscriptions()[position(self.subscriptions(), id)].queue.len()
            } else {
                0
            },
    {
        match self.find(id) {
            None => 0,
            Some(i) => self.subs[i].queue.len(),
        }
    }
}

} // verus!
