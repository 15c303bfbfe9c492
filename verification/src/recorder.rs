//! A time-windowed buffer of the most recent frames.

use std::collections::VecDeque;
use std::sync::Arc;
use vstd::prelude::*;

use crate::capturer::{share_frame, CapturedFrame, Timestamp};

verus! {

/// How long a frame stays in the buffer, in milliseconds.
pub const FRAME_EXPIRE: i64 = 3000;

/// A frame taken at `taken` is still fresh at `now` when no more than the
/// retention window lies between the two.
pub open spec fn is_fresh(taken: Timestamp, now: Timestamp) -> bool {
    now - taken <= FRAME_EXPIRE
}

/// The frames of `frames` that are still fresh at `now`, in their old order.
pub open spec fn retained(frames: Seq<Arc<CapturedFrame>>, now: Timestamp) -> Seq<
    Arc<CapturedFrame>,
> {
    frames.filter(|f: Arc<CapturedFrame>| is_fresh(f.timestamp, now))
}

/// The buffer after `frame` has been pushed onto `frames`.
pub open spec fn pushed(frames: Seq<Arc<CapturedFrame>>, frame: Arc<CapturedFrame>) -> Seq<
    Arc<CapturedFrame>,
> {
    retained(frames, frame.timestamp).push(frame)
}

/// The buffer after all of `incoming` have been pushed, first to last, onto an
/// empty recorder.
pub open spec fn pushed_all(incoming: Seq<Arc<CapturedFrame>>) -> Seq<Arc<CapturedFrame>>
    decreases incoming.len(),
{
    if incoming.len() == 0 {
        Seq::empty()
    } else {
        pushed(pushed_all(incoming.drop_last()), incoming.last())
    }
}

/// Timestamps never decrease from one frame of `frames` to the next.
pub open spec fn in_time_order(frames: Seq<Arc<CapturedFrame>>) -> bool {
    forall|i: int, j: int| 0 <= i <= j < frames.len() ==> frames[i].timestamp <= frames[j].timestamp
}

/// No frame of `frames` was taken after `t`.
pub open spec fn none_after(frames: Seq<Arc<CapturedFrame>>, t: Timestamp) -> bool {
    forall|i: int| 0 <= i < frames.len() ==> frames[i].timestamp <= t
}

/// Filtering keeps the time order of a sequence and adds no frame to it.
proof fn lemma_filter_keeps_time_order(
    frames: Seq<Arc<CapturedFrame>>,
    pred: spec_fn(Arc<CapturedFrame>) -> bool,
    t: Timestamp,
)
    requires
        in_time_order(frames),
        none_after(frames, t),
    ensures
        in_time_order(frames.filter(pred)),
        none_after(frames.filter(pred), t),
    decreases frames.len(),
{
    reveal(Seq::filter);
    if frames.len() > 0 {
        let front = frames.drop_last();
        let last = frames.last();
        assert forall|i: int, j: int| 0 <= i <= j < front.len() implies front[i].timestamp
            <= front[j].timestamp by {
            assert(front[i] == frames[i] && front[j] == frames[j]);
        }
        assert forall|i: int| 0 <= i < front.len() implies front[i].timestamp
            <= last.timestamp by {
            assert(front[i] == frames[i]);
        }
        lemma_filter_keeps_time_order(front, pred, last.timestamp);
        lemma_filter_keeps_time_order(front, pred, t);
    }
}

/// Every frame in the buffer is fresh at the time of the latest push: however
/// frames are pushed, none older than the retention window stays.
pub proof fn lemma_buffer_within_window(incoming: Seq<Arc<CapturedFrame>>)
    requires
        incoming.len() > 0,
    ensures
        forall|i: int|
            0 <= i < pushed_all(incoming).len() ==> is_fresh(
                #[trigger] pushed_all(incoming)[i].timestamp,
                incoming.last().timestamp,
            ),
{
    let now = incoming.last().timestamp;
    let before = pushed_all(incoming.drop_last());
    let pred = |f: Arc<CapturedFrame>| is_fresh(f.timestamp, now);
    let kept = before.filter(pred);
    assert(pushed_all(incoming) == kept.push(incoming.last()));
    assert forall|i: int| 0 <= i < pushed_all(incoming).len() implies is_fresh(
        #[trigger] pushed_all(incoming)[i].timestamp,
        now,
    ) by {
        if i < kept.len() {
            before.lemma_filter_pred(pred, i);
        }
    }
}

/// When frames are pushed in the order they were taken, the buffer is in
/// time order after every push, and holds no frame taken after the latest.
pub proof fn lemma_buffer_in_time_order(incoming: Seq<Arc<CapturedFrame>>)
    requires
        in_time_order(incoming),
    ensures
        in_time_order(pushed_all(incoming)),
        incoming.len() > 0 ==> none_after(pushed_all(incoming), incoming.last().timestamp),
    decreases incoming.len(),
{
    if incoming.len() > 0 {
        let earlier = incoming.drop_last();
        let last = incoming.last();
        let now = last.timestamp;
        assert forall|i: int, j: int| 0 <= i <= j < earlier.len() implies earlier[i].timestamp
            <= earlier[j].timestamp by {
            assert(earlier[i] == incoming[i] && earlier[j] == incoming[j]);
        }
        lemma_buffer_in_time_order(earlier);
        let before = pushed_all(earlier);
        if earlier.len() > 0 {
            assert(earlier.last() == incoming[incoming.len() - 2]);
            assert(earlier.last().timestamp <= now);
        }
        assert(none_after(before, now));
        let pred = |f: Arc<CapturedFrame>| is_fresh(f.timestamp, now);
        lemma_filter_keeps_time_order(before, pred, now);
        let kept = before.filter(pred);
        let after = pushed_all(incoming);
        assert(after == kept.push(last));
        assert forall|i: int, j: int| 0 <= i <= j < after.len() implies after[i].timestamp
            <= after[j].timestamp by {
            if j < kept.len() {
                assert(after[i] == kept[i] && after[j] == kept[j]);
            } else if i < kept.len() {
                assert(after[i] == kept[i]);
            }
        }
    }
}

/// Whether the frame taken at `taken` is fresh at `now`.
pub fn fresh(taken: Timestamp, now: Timestamp) -> (b: bool)
    ensures
        b == is_fresh(taken, now),
{
    (now as i128) - (taken as i128) <= (FRAME_EXPIRE as i128)
}

/// The recorder: recent frames, oldest first.
pub struct Recorder {
    frames: VecDeque<Arc<CapturedFrame>>,
}

impl View for Recorder {
    type V = Seq<Arc<CapturedFrame>>;

    closed spec fn view(&self) -> Seq<Arc<CapturedFrame>> {
        self.frames@
    }
}

impl Recorder {
    /// An empty recorder.
    pub fn new() -> (r: Self)
        ensures
            r@ == Seq::<Arc<CapturedFrame>>::empty(),
    {
        Recorder { frames: VecDeque::new() }
    }

    /// Appends `frame` and drops every frame that is no longer fresh at the
    /// time `frame` was taken.
    pub fn push_frame(&mut self, frame: Arc<CapturedFrame>)
        ensures
            final(self)@ == pushed(old(self)@, frame),
    {
        let now = frame.timestamp;
        let mut kept: VecDeque<Arc<CapturedFrame>> = VecDeque::new();
        let ghost pred = |f: Arc<CapturedFrame>| is_fresh(f.timestamp, now);
        let n = self.frames.len();
        let mut i: usize = 0;
        assert(self.frames@.take(0) =~= Seq::empty());
        while i < n
            invariant
                n == self.frames@.len(),
                0 <= i <= n,
                pred == (|f: Arc<CapturedFrame>| is_fresh(f.timestamp, now)),
                kept@ == self.frames@.take(i as int).filter(pred),
            decreases n - i,
        {
            proof {
                let prefix = self.frames@.take(i as int + 1);
                assert(prefix.drop_last() =~= self.frames@.take(i as int));
                assert(prefix.last() == self.frames@[i as int]);
                reveal(Seq::filter);
            }
            if fresh(self.frames[i].timestamp, now) {
                kept.push_back(share_frame(&self.frames[i]));
            }
            i = i + 1;
        }
        assert(self.frames@.take(n as int) =~= self.frames@);
        kept.push_back(frame);
        self.frames = kept;
    }

    /// The frame pushed last, if the buffer holds any.
    pub fn last_frame(&self) -> (last: Option<Arc<CapturedFrame>>)
        ensures
            self@.len() == 0 ==> last is None,
            self@.len() > 0 ==> last == Some(self@.last()),
    {
        let n = self.frames.len();
        if n == 0 {
            None
        } else {
            Some(share_frame(&self.frames[n - 1]))
        }
    }

    /// A copy of the buffer as it is now, oldest frame first.
    pub fn frames(&self) -> (snapshot: Vec<Arc<CapturedFrame>>)
        ensures
            snapshot@ == self@,
    {
        let mut snapshot: Vec<Arc<CapturedFrame>> = Vec::new();
        let n = self.frames.len();
        let mut i: usize = 0;
        while i < n
            invariant
                n == self.frames@.len(),
                0 <= i <= n,
                snapshot@ == self.frames@.take(i as int),
            decreases n - i,
        {
            snapshot.push(share_frame(&self.frames[i]));
            assert(self.frames@.take(i as int).push(self.frames@[i as int]) =~= self.frames@.take(
                i as int + 1,
            ));
            i = i + 1;
        }
        assert(self.frames@.take(n as int) =~= self.frames@);
        snapshot
    }
}

} // verus!
