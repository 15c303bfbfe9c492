//! The hit manager: records new hits, recovers unscored ones at startup and
//! lets at most one scoring request be under way at any time.
//!
//! The manager keeps track of whether the hit processor is free. It takes the
//! processor for busy until the processor says that it is ready, and for busy
//! again from every request that is sent. Hits that arrive while the
//! processor is busy wait in a queue, oldest first.

use std::collections::HashMap;
use std::collections::VecDeque;
use vstd::prelude::*;
use vstd::std_specs::hash::*;
use vstd::std_specs::iter::IteratorSpec;

use crate::bus::Event;
use crate::capturer::Timestamp;
use crate::hits::processor::HitProcessResult;
use crate::hits::storage::{HitData, HitStorage, StorageError};
use crate::targets::TargetInfo;
use crate::vision::raster::Raster;

verus! {

/// What the hit manager is asked to do.
pub enum HitManagerCommand {
    /// Record a hit that the detector has reported.
    NewHit { timestamp: Timestamp, clip: (Vec<Raster>, u32), target_info: TargetInfo },
    /// The hit processor can take a request.
    HitProcessorReady,
    /// Record the score of a hit.
    ProcessedHit { timestamp: Timestamp, processed: HitProcessResult },
    /// Read the clip of a hit for the presentation layer.
    RequestHitClip { timestamp: Timestamp },
}

/// The hit with timestamp `t` waits in `queue`.
pub open spec fn queued(queue: Seq<(Timestamp, HitData)>, t: Timestamp) -> bool {
    exists|i: int| 0 <= i < queue.len() && #[trigger] queue[i].0 == t
}

/// No timestamp occurs twice in `queue`.
pub open spec fn distinct(queue: Seq<(Timestamp, HitData)>) -> bool {
    forall|i: int, j: int|
        0 <= i < queue.len() && 0 <= j < queue.len() && i != j ==> #[trigger] queue[i].0
            != #[trigger] queue[j].0
}

/// Timestamps grow from each entry of `queue` to the next.
pub open spec fn oldest_first(queue: Seq<(Timestamp, HitData)>) -> bool {
    forall|i: int, j: int|
        0 <= i < j < queue.len() ==> #[trigger] queue[i].0 < #[trigger] queue[j].0
}

/// `queue` after the hit `(t, data)` has joined it: at the back when no hit
/// with that timestamp waits, in the place of the waiting one otherwise.
pub open spec fn enqueued(queue: Seq<(Timestamp, HitData)>, t: Timestamp, data: HitData) -> Seq<
    (Timestamp, HitData),
> {
    if queued(queue, t) {
        Seq::new(
            queue.len(),
            |i: int|
                if queue[i].0 == t {
                    (t, data)
                } else {
                    queue[i]
                },
        )
    } else {
        queue.push((t, data))
    }
}

/// `queue` is what startup recovers from the stored hits `hits`: exactly the
/// hits that have not been scored, each with its record, oldest first.
pub open spec fn recovered(queue: Seq<(Timestamp, HitData)>, hits: Map<Timestamp, HitData>) -> bool {
    &&& oldest_first(queue)
    &&& forall|i: int|
        0 <= i < queue.len() ==> hits.contains_key(#[trigger] queue[i].0) && hits[queue[i].0]
            == queue[i].1 && queue[i].1.processed is None
    &&& forall|t: Timestamp|
        hits.contains_key(t) && hits[t].processed is None ==> #[trigger] queued(queue, t)
}

/// A queue in which timestamps grow holds none twice.
pub proof fn lemma_oldest_first_distinct(queue: Seq<(Timestamp, HitData)>)
    requires
        oldest_first(queue),
    ensures
        distinct(queue),
{
    assert forall|i: int, j: int|
        0 <= i < queue.len() && 0 <= j < queue.len() && i != j implies #[trigger] queue[i].0
        != #[trigger] queue[j].0 by {
        if i < j {
            assert(queue[i].0 < queue[j].0);
        } else {
            assert(queue[j].0 < queue[i].0);
        }
    }
}

/// Joining a queue keeps its timestamps distinct.
pub proof fn lemma_enqueued_distinct(queue: Seq<(Timestamp, HitData)>, t: Timestamp, data: HitData)
    requires
        distinct(queue),
    ensures
        distinct(enqueued(queue, t, data)),
        queued(enqueued(queue, t, data), t),
{
    let after = enqueued(queue, t, data);
    if queued(queue, t) {
        let i = choose|i: int| 0 <= i < queue.len() && #[trigger] queue[i].0 == t;
        assert(after[i].0 == t);
        assert forall|i: int, j: int|
            0 <= i < after.len() && 0 <= j < after.len() && i != j implies #[trigger] after[i].0
            != #[trigger] after[j].0 by {
            assert(after[i].0 == queue[i].0 && after[j].0 == queue[j].0);
        }
    } else {
        assert(after[queue.len() as int].0 == t);
        assert forall|i: int, j: int|
            0 <= i < after.len() && 0 <= j < after.len() && i != j implies #[trigger] after[i].0
            != #[trigger] after[j].0 by {
            if i < queue.len() {
                assert(after[i].0 == queue[i].0);
            }
            if j < queue.len() {
                assert(after[j].0 == queue[j].0);
            }
        }
    }
}

/// Puts `(t, data)` into a queue that is ordered oldest first and does not
/// hold `t`, at the place that keeps the order.
fn insert_in_order(queue: &mut VecDeque<(Timestamp, HitData)>, t: Timestamp, data: HitData) -> (pos:
    usize)
    requires
        oldest_first(old(queue)@),
        !queued(old(queue)@, t),
    ensures
        pos <= old(queue)@.len(),
        final(queue)@ == old(queue)@.insert(pos as int, (t, data)),
        oldest_first(final(queue)@),
{
    let n = queue.len();
    let mut pos: usize = 0;
    while pos < n && queue[pos].0 < t
        invariant
            n == queue@.len(),
            0 <= pos <= n,
            forall|i: int| 0 <= i < pos ==> (#[trigger] queue@[i]).0 < t,
        decreases n - pos,
    {
        pos = pos + 1;
    }
    let ghost before = queue@;
    proof {
        assert forall|i: int| pos <= i < n implies t < (#[trigger] before[i]).0 by {
            assert(before[pos as int].0 >= t);
            assert(before[i].0 != t);
            if i > pos {
                assert(before[pos as int].0 < before[i].0);
            }
        }
    }
    queue.insert(pos, (t, data));
    proof {
        let after = queue@;
        assert forall|i: int, j: int| 0 <= i < j < after.len() implies #[trigger] after[i].0
            < #[trigger] after[j].0 by {
            if j < pos {
                assert(after[i] == before[i] && after[j] == before[j]);
            } else if j == pos {
                assert(after[i] == before[i]);
            } else if i < pos {
                assert(after[i] == before[i] && after[j] == before[j - 1]);
            } else if i == pos {
                assert(after[j] == before[j - 1]);
            } else {
                assert(after[i] == before[i - 1] && after[j] == before[j - 1]);
            }
        }
    }
    pos
}

/// One of the first `seen` entries of `all` has the timestamp `t`.
spec fn among(all: Seq<(&Timestamp, &HitData)>, seen: int, t: Timestamp) -> bool {
    exists|k: int| 0 <= k < seen && k < all.len() && *(#[trigger] all[k]).0 == t
}

/// The queue that startup recovers from the stored hits: the hits that have
/// not been scored, oldest first.
pub fn unprocessed_queue(hits: &HashMap<Timestamp, HitData>) -> (queue: VecDeque<
    (Timestamp, HitData),
>)
    ensures
        recovered(queue@, hits@),
{
    broadcast use group_hash_axioms;
    broadcast use axiom_spec_hash_map_iter;

    let mut queue: VecDeque<(Timestamp, HitData)> = VecDeque::new();
    let ghost all = spec_hash_map_iter(hits).remaining();
    let ghost mut seen: int = 0;
    for entry in it: hits.iter()
        invariant
            it.seq() == all,
            seen == it.index(),
            all == spec_hash_map_iter(hits).remaining(),
            it.seq().no_duplicates(),
            oldest_first(queue@),
            forall|i: int|
                0 <= i < queue@.len() ==> hits@.contains_key(#[trigger] queue@[i].0)
                    && hits@[queue@[i].0] == queue@[i].1 && queue@[i].1.processed is None,
            forall|i: int| 0 <= i < queue@.len() ==> among(all, seen, #[trigger] queue@[i].0),
            forall|k: int|
                0 <= k < seen && (*all[k].1).processed is None ==> queued(
                    queue@,
                    *(#[trigger] all[k]).0,
                ),
    {
        let (t, data) = entry;
        let ghost at = it.index();
        assert(*t == *all[at].0 && *data == *all[at].1);
        if data.processed.is_none() {
            let ghost before = queue@;
            proof {
                if queued(before, *t) {
                    let i = choose|i: int| 0 <= i < before.len() && #[trigger] before[i].0 == *t;
                    assert(among(all, at, before[i].0));
                    let k = choose|k: int|
                        0 <= k < at && k < all.len() && *(#[trigger] all[k]).0 == before[i].0;
                    assert(hits@[*it.seq()[k].0] == *it.seq()[k].1);
                    assert(hits@[*it.seq()[at].0] == *it.seq()[at].1);
                    assert(it.seq()[k] == it.seq()[at]);
                    assert(false);
                }
            }
            let pos = insert_in_order(&mut queue, *t, *data);
            proof {
                let after = queue@;
                assert forall|i: int| 0 <= i < after.len() implies hits@.contains_key(
                    #[trigger] after[i].0,
                ) && hits@[after[i].0] == after[i].1 && after[i].1.processed is None && among(
                    all,
                    at + 1,
                    after[i].0,
                ) by {
                    if i < pos {
                        assert(after[i] == before[i]);
                        assert(among(all, at, before[i].0));
                        let k = choose|k: int|
                            0 <= k < at && k < all.len() && *(#[trigger] all[k]).0 == before[i].0;
                        assert(*all[k].0 == after[i].0);
                    } else if i == pos {
                        assert(*all[at].0 == after[i].0);
                    } else {
                        assert(after[i] == before[i - 1]);
                        assert(among(all, at, before[i - 1].0));
                        let k = choose|k: int|
                            0 <= k < at && k < all.len() && *(#[trigger] all[k]).0 == before[i
                                - 1].0;
                        assert(*all[k].0 == after[i].0);
                    }
                }
                assert forall|k: int|
                    0 <= k < at + 1 && (*all[k].1).processed is None implies queued(
                    after,
                    *(#[trigger] all[k]).0,
                ) by {
                    if k == at {
                        assert(after[pos as int].0 == *t);
                    } else {
                        let i = choose|i: int|
                            0 <= i < before.len() && #[trigger] before[i].0 == *it.seq()[k].0;
                        if i < pos {
                            assert(after[i].0 == before[i].0);
                        } else {
                            assert(after[i + 1].0 == before[i].0);
                        }
                    }
                }
            }
        } else {
            proof {
                assert forall|i: int| 0 <= i < queue@.len() implies among(
                    all,
                    at + 1,
                    #[trigger] queue@[i].0,
                ) by {
                    assert(among(all, at, queue@[i].0));
                    let k = choose|k: int|
                        0 <= k < at && k < all.len() && *(#[trigger] all[k]).0 == queue@[i].0;
                    assert(*all[k].0 == queue@[i].0);
                }
            }
        }
        proof {
            seen = seen + 1;
        }
    }
    proof {
        assert(seen == all.len());
        assert forall|t: Timestamp|
            hits@.contains_key(t) && hits@[t].processed is None implies #[trigger] queued(
            queue@,
            t,
        ) by {
            assert(all.contains((&t, &hits@[t])));
            let k = choose|k: int| 0 <= k < all.len() && all[k] == (&t, &hits@[t]);
            assert(*all[k].0 == t);
        }
    }
    queue
}

/// The state of the manager as a value.
pub struct ManagerView {
    /// The hit processor is free: no scoring request is under way.
    pub ready: bool,
    /// The hits that wait to be scored, with their records.
    pub queue: Seq<(Timestamp, HitData)>,
}

impl ManagerView {
    /// No timestamp waits twice, and nothing waits while the processor is
    /// free.
    pub open spec fn wf(self) -> bool {
        &&& distinct(self.queue)
        &&& self.ready ==> self.queue.len() == 0
    }
}

/// The kinds of command the manager takes.
pub enum Signal {
    NewHit,
    ProcessorReady,
    Processed,
    ClipRequest,
}

/// One step of the manager as seen from outside: the command it took, the
/// state it left and whether it sent a scoring request.
pub struct Move {
    pub signal: Signal,
    pub after: ManagerView,
    pub sent: bool,
}

/// What a step may do, whatever the store answers. A new hit is sent on only
/// while the processor is free, and the processor is busy from then on;
/// otherwise the flag stays as it was. A ready signal that leads to a request
/// leaves the processor busy. Nothing else sends a request or changes the
/// state.
pub open spec fn allowed(before: ManagerView, step: Move) -> bool {
    match step.signal {
        Signal::NewHit => if step.sent {
            before.ready && !step.after.ready
        } else {
            step.after.ready == before.ready
        },
        Signal::ProcessorReady => step.sent ==> !step.after.ready,
        Signal::Processed => !step.sent && step.after == before,
        Signal::ClipRequest => !step.sent && step.after == before,
    }
}

/// The state after the steps of `trace`, begun at `start`.
pub open spec fn state_after(start: ManagerView, trace: Seq<Move>) -> ManagerView {
    if trace.len() == 0 {
        start
    } else {
        trace.last().after
    }
}

/// Every step of `trace` is allowed from the state that the step before it
/// left, the first from `start`.
pub open spec fn follows(start: ManagerView, trace: Seq<Move>) -> bool {
    forall|i: int|
        0 <= i < trace.len() ==> allowed(state_after(start, trace.take(i)), #[trigger] trace[i])
}

/// How many scoring requests were sent in `trace`.
pub open spec fn requests_sent(trace: Seq<Move>) -> nat
    decreases trace.len(),
{
    if trace.len() == 0 {
        0
    } else {
        requests_sent(trace.drop_last()) + if trace.last().sent {
            1nat
        } else {
            0nat
        }
    }
}

/// How many ready signals were taken in `trace`.
pub open spec fn ready_signals(trace: Seq<Move>) -> nat
    decreases trace.len(),
{
    if trace.len() == 0 {
        0
    } else {
        ready_signals(trace.drop_last()) + if trace.last().signal is ProcessorReady {
            1nat
        } else {
            0nat
        }
    }
}

/// Single flight. In every run that begins with the processor taken for
/// busy, each request sent is paid for by a ready signal of its own, and a
/// processor taken for free stands for one ready signal that no request has
/// used yet. The processor gives one ready signal when it starts and one
/// after each request it has finished: all ready signals but the first stand
/// for a request that is done, so at most one request is under way at any
/// time.
pub proof fn lemma_single_flight(start: ManagerView, trace: Seq<Move>)
    requires
        !start.ready,
        follows(start, trace),
    ensures
        requests_sent(trace) + (if state_after(start, trace).ready {
            1nat
        } else {
            0nat
        }) <= ready_signals(trace),
        ready_signals(trace) == 0 ==> requests_sent(trace) == 0,
        requests_sent(trace) - (ready_signals(trace) - 1) <= 1,
    decreases trace.len(),
{
    if trace.len() > 0 {
        let earlier = trace.drop_last();
        assert forall|i: int| 0 <= i < earlier.len() implies allowed(
            state_after(start, earlier.take(i)),
            #[trigger] earlier[i],
        ) by {
            assert(earlier.take(i) =~= trace.take(i));
            assert(earlier[i] == trace[i]);
        }
        lemma_single_flight(start, earlier);
        assert(trace.take(trace.len() - 1) =~= earlier);
        assert(allowed(state_after(start, earlier), trace[trace.len() - 1]));
    }
}

/// The hit that the scoring request `event` is for.
pub open spec fn requested(event: Option<Event>) -> Option<(Timestamp, TargetInfo)> {
    match event {
        Some(Event::ProcessHit { timestamp, clip, target_info }) => Some((timestamp, target_info)),
        _ => None,
    }
}

/// The record of a hit once it has been scored.
pub open spec fn scored_record(data: HitData, processed: HitProcessResult) -> HitData {
    HitData { target_info: data.target_info, processed: Some(processed) }
}

/// Attaches a score to the record of a hit.
pub fn attach_result(data: HitData, processed: HitProcessResult) -> (scored: HitData)
    ensures
        scored == scored_record(data, processed),
{
    HitData { target_info: data.target_info, processed: Some(processed) }
}

/// The record that a new hit begins with: its target, and no score yet.
pub open spec fn fresh_record(target_info: TargetInfo) -> HitData {
    HitData { target_info, processed: None }
}

/// What recording a score comes to, in terms of what the store answers. The
/// store `before` is asked for the record of the hit at `timestamp`. If it
/// has none to give, its failure is the outcome. Otherwise the record it gave,
/// with `processed` attached, is handed back to it to keep; the outcome is
/// that record if the store kept it, and the failure of the store if not.
/// `after` is the store as the last call left it.
pub open spec fn score_recorded<S: HitStorage>(
    before: S,
    timestamp: Timestamp,
    processed: HitProcessResult,
    after: S,
    out: Result<HitData, StorageError>,
) -> bool {
    match out {
        Ok(written) => exists|loaded: HitData, between: S|
            {
                &&& #[trigger] before.load_data_answer(
                    timestamp,
                    &between,
                    Ok::<HitData, StorageError>(loaded),
                )
                &&& written == scored_record(loaded, processed)
                &&& between.save_data_answer(timestamp, written, &after, None)
            },
        Err(e) => before.load_data_answer(timestamp, &after, Err::<HitData, StorageError>(e))
            || exists|loaded: HitData, between: S|
            {
                &&& #[trigger] before.load_data_answer(
                    timestamp,
                    &between,
                    Ok::<HitData, StorageError>(loaded),
                )
                &&& between.save_data_answer(
                    timestamp,
                    scored_record(loaded, processed),
                    &after,
                    Some(e),
                )
            },
    }
}

/// `stores` are the states that the store went through while a ready signal
/// was served: the store was asked for the clip of one waiting hit after the
/// other, oldest first. It refused each of the hits in `skipped` with the
/// failure that is listed there, and for the hit after those it gave the clip
/// that the scoring request carries, if there is a request. No other call was
/// made: the first state is `before`, the last is `after`, and between two
/// states lies one call.
pub open spec fn asked_in_turn<S: HitStorage>(
    stores: Seq<S>,
    before: S,
    queue: Seq<(Timestamp, HitData)>,
    skipped: Seq<(Timestamp, StorageError)>,
    request: Option<Event>,
    after: S,
) -> bool {
    &&& stores.len() == skipped.len() + 1 + (if request is Some {
        1int
    } else {
        0int
    })
    &&& stores[0] == before
    &&& stores.last() == after
    &&& forall|i: int|
        0 <= i < skipped.len() ==> (#[trigger] stores[i]).load_clip_answer(
            queue[i].0,
            &stores[i + 1],
            Err::<(Vec<Raster>, u32), StorageError>(skipped[i].1),
        )
    &&& request matches Some(Event::ProcessHit { clip, .. }) ==> stores[skipped.len() as int].load_clip_answer(
        queue[skipped.len() as int].0,
        &stores.last(),
        Ok::<(Vec<Raster>, u32), StorageError>(clip),
    )
}

/// While a ready signal was served, the store was asked for the clips of the
/// waiting hits in turn, as `asked_in_turn` says, and for nothing else.
pub open spec fn clips_asked<S: HitStorage>(
    before: S,
    queue: Seq<(Timestamp, HitData)>,
    skipped: Seq<(Timestamp, StorageError)>,
    request: Option<Event>,
    after: S,
) -> bool {
    exists|stores: Seq<S>| #[trigger] asked_in_turn(stores, before, queue, skipped, request, after)
}

/// What a ready signal led to.
pub struct Dispatched {
    /// `Event::ProcessHit` for the oldest waiting hit whose clip could be
    /// read.
    pub request: Option<Event>,
    /// The hits that were given up because their clip could not be read,
    /// oldest first, each with the reason.
    pub skipped: Vec<(Timestamp, StorageError)>,
}

/// The hit manager over a store of type `S`.
pub struct HitManager<S: HitStorage> {
    storage: S,
    ready: bool,
    queue: VecDeque<(Timestamp, HitData)>,
}

impl<S: HitStorage> View for HitManager<S> {
    type V = ManagerView;

    closed spec fn view(&self) -> ManagerView {
        ManagerView { ready: self.ready, queue: self.queue@ }
    }
}

impl<S: HitStorage> HitManager<S> {
    /// Starts a manager on `storage`: asks the store for all its hits and
    /// queues those that have not been scored, oldest first. The processor is
    /// taken for busy until its first ready signal. Returns the manager with
    /// `Event::LoadedHits`, which carries every hit that the store listed. If
    /// the store cannot list its hits, the manager starts with nothing
    /// queued, and the failure of the store is returned beside it.
    pub fn start(storage: S) -> (started: (Self, Result<Event, StorageError>))
        ensures
            started.0@.wf(),
            !started.0@.ready,
            match started.1 {
                Ok(event) => {
                    &&& event matches Event::LoadedHits { hits }
                    &&& storage.get_all_hits_answer(
                        &started.0.store(),
                        Ok::<HashMap<Timestamp, HitData>, StorageError>(hits),
                    )
                    &&& recovered(started.0@.queue, hits@)
                },
                Err(e) => {
                    &&& storage.get_all_hits_answer(
                        &started.0.store(),
                        Err::<HashMap<Timestamp, HitData>, StorageError>(e),
                    )
                    &&& started.0@.queue.len() == 0
                },
            },
    {
        let mut storage = storage;
        match storage.get_all_hits() {
            Ok(hits) => {
                let queue = unprocessed_queue(&hits);
                proof {
                    lemma_oldest_first_distinct(queue@);
                }
                (HitManager { storage, ready: false, queue }, Ok(Event::LoadedHits { hits }))
            },
            Err(e) => (HitManager { storage, ready: false, queue: VecDeque::new() }, Err(e)),
        }
    }

    /// Whether the processor is taken for free.
    pub fn is_ready(&self) -> (b: bool)
        ensures
            b == self@.ready,
    {
        self.ready
    }

    /// The timestamps of the hits that wait, oldest first.
    pub fn pending(&self) -> (waiting: Vec<Timestamp>)
        ensures
            waiting@.len() == self@.queue.len(),
            forall|i: int| 0 <= i < waiting@.len() ==> waiting@[i] == self@.queue[i].0,
    {
        let mut waiting: Vec<Timestamp> = Vec::new();
        let n = self.queue.len();
        let mut i: usize = 0;
        while i < n
            invariant
                n == self.queue@.len(),
                0 <= i <= n,
                waiting@.len() == i,
                forall|j: int| 0 <= j < i ==> waiting@[j] == self.queue@[j].0,
            decreases n - i,
        {
            waiting.push(self.queue[i].0);
            i = i + 1;
        }
        waiting
    }

    /// The store that the manager works on.
    pub closed spec fn store(&self) -> S {
        self.storage
    }

    /// The store.
    pub fn storage(&self) -> (store: &S)
        ensures
            *store == self.store(),
    {
        &self.storage
    }

    /// Puts `(timestamp, data)` into the queue.
    fn enqueue(&mut self, timestamp: Timestamp, data: HitData)
        requires
            distinct(old(self)@.queue),
        ensures
            final(self)@.queue == enqueued(old(self)@.queue, timestamp, data),
            final(self)@.ready == old(self)@.ready,
            final(self).store() == old(self).store(),
            distinct(final(self)@.queue),
    {
        let ghost before = self.queue@;
        proof {
            lemma_enqueued_distinct(before, timestamp, data);
        }
        let n = self.queue.len();
        let mut i: usize = 0;
        while i < n
            invariant
                n == self.queue@.len(),
                self.queue@ == before,
                before == old(self)@.queue,
                self.ready == old(self).ready,
                self.storage == old(self).storage,
                distinct(before),
                distinct(enqueued(before, timestamp, data)),
                0 <= i <= n,
                forall|j: int| 0 <= j < i ==> (#[trigger] before[j]).0 != timestamp,
            decreases n - i,
        {
            if self.queue[i].0 == timestamp {
                self.queue.remove(i);
                self.queue.insert(i, (timestamp, data));
                proof {
                    assert(queued(before, timestamp));
                    assert forall|j: int| 0 <= j < n implies #[trigger] self.queue@[j] == (if before[j].0
                        == timestamp {
                        (timestamp, data)
                    } else {
                        before[j]
                    }) by {
                        if j != i {
                            assert(before[j].0 != before[i as int].0);
                        }
                    }
                    assert(self.queue@ =~= enqueued(before, timestamp, data));
                }
                return ;
            }
            i = i + 1;
        }
        proof {
            assert(!queued(before, timestamp));
        }
        self.queue.push_back((timestamp, data));
    }

    /// Sends a hit for scoring if the processor is free, and takes the
    /// processor for busy from then on. Does nothing while it is busy. Every
    /// scoring request of the manager is made here.
    pub fn offer(&mut self, timestamp: Timestamp, clip: (Vec<Raster>, u32), target_info: TargetInfo) -> (request:
        Option<Event>)
        ensures
            old(self)@.ready ==> request == Some(Event::ProcessHit { timestamp, clip, target_info })
                && final(self)@ == (ManagerView { ready: false, queue: old(self)@.queue }),
            !old(self)@.ready ==> request is None && final(self)@ == old(self)@,
            final(self).store() == old(self).store(),
            allowed(
                old(self)@,
                Move { signal: Signal::NewHit, after: final(self)@, sent: request is Some },
            ),
    {
        if self.ready {
            self.ready = false;
            Some(Event::ProcessHit { timestamp, clip, target_info })
        } else {
            None
        }
    }

    /// Records a new hit. The clip and a fresh record are handed to the
    /// store as a new hit. If the store fails, the hit is dropped and the
    /// failure of the store returned. If the store keeps the hit, the hit is
    /// sent for scoring at once if the processor is free, which makes it
    /// busy, and joins the queue if it is busy.
    pub fn new_hit(
        &mut self,
        timestamp: Timestamp,
        clip: (Vec<Raster>, u32),
        target_info: TargetInfo,
    ) -> (out: Result<Option<Event>, StorageError>)
        requires
            old(self)@.wf(),
        ensures
            final(self)@.wf(),
            old(self).store().new_hit_answer(
                timestamp,
                clip.0@,
                clip.1,
                fresh_record(target_info),
                &final(self).store(),
                match out {
                    Err(e) => Some(e),
                    Ok(_) => None,
                },
            ),
            match out {
                Err(_) => final(self)@ == old(self)@,
                Ok(Some(event)) => {
                    &&& old(self)@.ready
                    &&& event == (Event::ProcessHit { timestamp, clip, target_info })
                    &&& final(self)@ == (ManagerView { ready: false, queue: old(self)@.queue })
                },
                Ok(None) => {
                    &&& !old(self)@.ready
                    &&& final(self)@ == (ManagerView {
                        ready: false,
                        queue: enqueued(old(self)@.queue, timestamp, fresh_record(target_info)),
                    })
                },
            },
            allowed(
                old(self)@,
                Move { signal: Signal::NewHit, after: final(self)@, sent: out is Ok && out->Ok_0 is Some },
            ),
    {
        let data = HitData { target_info, processed: None };
        match self.storage.new_hit(timestamp, (clip.0.as_slice(), clip.1), data) {
            Err(e) => Err(e),
            Ok(()) => {
                match self.offer(timestamp, clip, target_info) {
                    Some(request) => Ok(Some(request)),
                    None => {
                        self.enqueue(timestamp, data);
                        Ok(None)
                    },
                }
            },
        }
    }

    /// Takes a ready signal. The processor is free now; going through the
    /// queue from the oldest hit, the manager asks the store for the clip of
    /// each until the store gives one, sends that hit for scoring with the
    /// clip that the store gave and takes the processor for busy again. Hits
    /// whose clip the store refuses leave the queue for good and are
    /// returned with the failure of the store. The store is asked for
    /// nothing else; with nothing waiting it is not asked at all.
    pub fn hit_processor_ready(&mut self) -> (out: Dispatched)
        requires
            old(self)@.wf(),
        ensures
            final(self)@.wf(),
            out.skipped@.len() <= old(self)@.queue.len(),
            forall|i: int|
                0 <= i < out.skipped@.len() ==> (#[trigger] out.skipped@[i]).0 == old(
                    self,
                )@.queue[i].0,
            match out.request {
                Some(event) => {
                    let k = out.skipped@.len() as int;
                    &&& k < old(self)@.queue.len()
                    &&& event matches Event::ProcessHit { .. }
                    &&& requested(out.request) == Some(
                        (old(self)@.queue[k].0, old(self)@.queue[k].1.target_info),
                    )
                    &&& final(self)@ == (ManagerView {
                        ready: false,
                        queue: old(self)@.queue.skip(k + 1),
                    })
                },
                None => {
                    &&& out.skipped@.len() == old(self)@.queue.len()
                    &&& final(self)@ == (ManagerView { ready: true, queue: Seq::empty() })
                },
            },
            clips_asked(
                old(self).store(),
                old(self)@.queue,
                out.skipped@,
                out.request,
                final(self).store(),
            ),
            old(self)@.queue.len() == 0 ==> final(self).store() == old(self).store(),
            old(self)@.ready ==> out.request is None && final(self)@ == old(self)@,
            allowed(
                old(self)@,
                Move {
                    signal: Signal::ProcessorReady,
                    after: final(self)@,
                    sent: out.request is Some,
                },
            ),
    {
        let ghost before = self.queue@;
        let ghost mut stores: Seq<S> = seq![self.storage];
        let mut skipped: Vec<(Timestamp, StorageError)> = Vec::new();
        self.ready = true;
        assert(before.skip(0) =~= before);
        loop
            invariant
                self.ready,
                before == old(self)@.queue,
                old(self)@.wf(),
                distinct(before),
                skipped@.len() <= before.len(),
                self.queue@ == before.skip(skipped@.len() as int),
                forall|i: int| 0 <= i < skipped@.len() ==> (#[trigger] skipped@[i]).0 == before[i].0,
                stores.len() == skipped@.len() + 1,
                stores[0] == old(self).storage,
                stores.last() == self.storage,
                forall|i: int|
                    0 <= i < skipped@.len() ==> (#[trigger] stores[i]).load_clip_answer(
                        before[i].0,
                        &stores[i + 1],
                        Err::<(Vec<Raster>, u32), StorageError>(skipped@[i].1),
                    ),
            decreases self.queue@.len(),
        {
            let ghost k = skipped@.len() as int;
            match self.queue.pop_front() {
                None => {
                    assert(self.queue@ =~= Seq::empty());
                    assert(old(self)@.ready ==> before =~= Seq::empty());
                    assert(asked_in_turn(
                        stores,
                        old(self).store(),
                        before,
                        skipped@,
                        None,
                        self.storage,
                    ));
                    return Dispatched { request: None, skipped };
                },
                Some((timestamp, data)) => {
                    assert(self.queue@ =~= before.skip(k + 1));
                    assert(timestamp == before[k].0 && data == before[k].1);
                    let ghost asked = stores;
                    let answer = self.storage.load_clip(timestamp);
                    proof {
                        stores = asked.push(self.storage);
                        assert forall|i: int| 0 <= i < k implies (#[trigger] stores[i]).load_clip_answer(
                            before[i].0,
                            &stores[i + 1],
                            Err::<(Vec<Raster>, u32), StorageError>(skipped@[i].1),
                        ) by {
                            assert(stores[i] == asked[i] && stores[i + 1] == asked[i + 1]);
                        }
                        assert(stores[k] == asked[k] && stores[k + 1] == self.storage);
                        assert(stores[k].load_clip_answer(timestamp, &stores[k + 1], answer));
                    }
                    match answer {
                        Ok(clip) => {
                            let request = self.offer(timestamp, clip, data.target_info);
                            proof {
                                assert(asked_in_turn(
                                    stores,
                                    old(self).store(),
                                    before,
                                    skipped@,
                                    request,
                                    self.storage,
                                ));
                                let rest = before.skip(k + 1);
                                assert forall|i: int, j: int|
                                    0 <= i < rest.len() && 0 <= j < rest.len() && i
                                        != j implies #[trigger] rest[i].0 != #[trigger] rest[j].0 by {
                                    assert(rest[i] == before[i + k + 1] && rest[j] == before[j + k
                                        + 1]);
                                }
                            }
                            return Dispatched { request, skipped };
                        },
                        Err(e) => {
                            let ghost refused = skipped@;
                            skipped.push((timestamp, e));
                            proof {
                                assert forall|i: int|
                                    0 <= i < skipped@.len() implies (#[trigger] stores[i]).load_clip_answer(
                                    before[i].0,
                                    &stores[i + 1],
                                    Err::<(Vec<Raster>, u32), StorageError>(skipped@[i].1),
                                ) by {
                                    if i < k {
                                        assert(skipped@[i] == refused[i]);
                                    }
                                }
                            }
                        },
                    }
                },
            }
        }
    }

    /// Records the score of a hit: asks the store for the record of the hit,
    /// attaches the score and hands the record back to the store. Returns the
    /// record as the store has kept it, or the failure of the store if it
    /// could not give the record or could not keep it. Queue and flag are
    /// left alone.
    pub fn processed_hit(&mut self, timestamp: Timestamp, processed: HitProcessResult) -> (out:
        Result<HitData, StorageError>)
        ensures
            final(self)@ == old(self)@,
            score_recorded(old(self).store(), timestamp, processed, final(self).store(), out),
            out matches Ok(data) ==> data.processed == Some(processed),
            allowed(old(self)@, Move { signal: Signal::Processed, after: final(self)@, sent: false }),
    {
        let ghost before = self.storage;
        match self.storage.load_data(timestamp) {
            Err(e) => Err(e),
            Ok(data) => {
                let ghost between = self.storage;
                assert(before.load_data_answer(
                    timestamp,
                    &between,
                    Ok::<HitData, StorageError>(data),
                ));
                let scored = attach_result(data, processed);
                match self.storage.save_data(timestamp, scored) {
                    Err(e) => Err(e),
                    Ok(()) => Ok(scored),
                }
            },
        }
    }

    /// Reads the clip of a hit for the presentation layer: asks the store for
    /// the clip and returns `Event::LoadedHitClip` with the clip that the
    /// store gave, or the failure of the store. Queue and flag are left
    /// alone.
    pub fn request_hit_clip(&mut self, timestamp: Timestamp) -> (out: Result<Event, StorageError>)
        ensures
            final(self)@ == old(self)@,
            match out {
                Ok(event) => event matches Event::LoadedHitClip { timestamp: t, clip } && t
                    == timestamp && old(self).store().load_clip_answer(
                    timestamp,
                    &final(self).store(),
                    Ok::<(Vec<Raster>, u32), StorageError>(clip),
                ),
                Err(e) => old(self).store().load_clip_answer(
                    timestamp,
                    &final(self).store(),
                    Err::<(Vec<Raster>, u32), StorageError>(e),
                ),
            },
            allowed(
                old(self)@,
                Move { signal: Signal::ClipRequest, after: final(self)@, sent: false },
            ),
    {
        match self.storage.load_clip(timestamp) {
            Err(e) => Err(e),
            Ok(clip) => Ok(Event::LoadedHitClip { timestamp, clip }),
        }
    }
}

} // verus!
