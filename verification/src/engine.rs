//! Per-batch bookkeeping: the lanes with their positions, the shared
//! progress counter, and the envelope built for every completed item.
//!
//! One `BatchEngine` value lives for one batch. Concurrency is the host's:
//! lane workers call `on_success`, `on_failure` and `abandon` one at a time
//! (under the host's lock), and the engine's invariant ties the counter to
//! the lanes so that it only ever grows, by one per completed item, and
//! never passes the batch total.

use vstd::prelude::*;

use crate::controller::{failure_emits, failure_t, AppState};
use crate::distributor::{lane_size, lemma_chunks_flatten, partition, spec_chunks, sum_sizes};
use crate::parcel::{ParcelData, ParcelResponse};

verus! {

/// One statically assigned partition of the input, processed sequentially.
/// `pos` counts its completed items; `done` is set when the lane ends, by
/// exhaustion, by failure or on observing cancellation.
pub struct Lane {
    pub items: Vec<String>,
    pub pos: usize,
    pub done: bool,
}

/// The sum of `f` over a sequence of lanes.
pub open spec fn sum_by(lanes: Seq<Lane>, f: spec_fn(Lane) -> int) -> int
    decreases lanes.len(),
{
    if lanes.len() == 0 {
        0
    } else {
        f(lanes.first()) + sum_by(lanes.drop_first(), f)
    }
}

/// How many items the lanes hold in all: the batch total.
pub open spec fn sum_items(lanes: Seq<Lane>) -> int {
    sum_by(lanes, |l: Lane| l.items@.len() as int)
}

/// How many items the lanes have completed in all: the progress counter.
pub open spec fn sum_pos(lanes: Seq<Lane>) -> int {
    sum_by(lanes, |l: Lane| l.pos as int)
}

proof fn lemma_sum_by_push(lanes: Seq<Lane>, l: Lane, f: spec_fn(Lane) -> int)
    ensures
        sum_by(lanes.push(l), f) == sum_by(lanes, f) + f(l),
    decreases lanes.len(),
{
    assert(sum_by(lanes.push(l), f) == f(lanes.push(l).first()) + sum_by(
        lanes.push(l).drop_first(),
        f,
    ));
    if lanes.len() == 0 {
        assert(lanes.push(l).first() == l);
        assert(lanes.push(l).drop_first() =~= Seq::<Lane>::empty());
    } else {
        assert(lanes.push(l).first() == lanes.first());
        assert(lanes.push(l).drop_first() =~= lanes.drop_first().push(l));
        lemma_sum_by_push(lanes.drop_first(), l, f);
    }
}

proof fn lemma_sum_by_update(lanes: Seq<Lane>, i: int, l: Lane, f: spec_fn(Lane) -> int)
    requires
        0 <= i < lanes.len(),
    ensures
        sum_by(lanes.update(i, l), f) == sum_by(lanes, f) - f(lanes[i]) + f(l),
    decreases lanes.len(),
{
    let u = lanes.update(i, l);
    assert(sum_by(u, f) == f(u.first()) + sum_by(u.drop_first(), f));
    if i == 0 {
        assert(u.first() == l);
        assert(u.drop_first() =~= lanes.drop_first());
    } else {
        assert(u.first() == lanes.first());
        assert(u.drop_first() =~= lanes.drop_first().update(i - 1, l));
        lemma_sum_by_update(lanes.drop_first(), i - 1, l, f);
        assert(lanes.drop_first()[i - 1] == lanes[i]);
    }
}

proof fn lemma_sum_by_bounds(lanes: Seq<Lane>, f: spec_fn(Lane) -> int, g: spec_fn(Lane) -> int)
    requires
        forall|i: int| 0 <= i < lanes.len() ==> f(#[trigger] lanes[i]) <= g(lanes[i]),
    ensures
        sum_by(lanes, f) <= sum_by(lanes, g),
    decreases lanes.len(),
{
    if lanes.len() > 0 {
        assert(lanes.first() == lanes[0]);
        assert(forall|i: int|
            0 <= i < lanes.drop_first().len() ==> #[trigger] lanes.drop_first()[i] == lanes[i
                + 1]);
        lemma_sum_by_bounds(lanes.drop_first(), f, g);
    }
}

proof fn lemma_sum_by_bounds_strict(
    lanes: Seq<Lane>,
    f: spec_fn(Lane) -> int,
    g: spec_fn(Lane) -> int,
    j: int,
)
    requires
        forall|i: int| 0 <= i < lanes.len() ==> f(#[trigger] lanes[i]) <= g(lanes[i]),
        0 <= j < lanes.len(),
        f(lanes[j]) < g(lanes[j]),
    ensures
        sum_by(lanes, f) < sum_by(lanes, g),
    decreases lanes.len(),
{
    assert(lanes.first() == lanes[0]);
    assert(forall|i: int|
        0 <= i < lanes.drop_first().len() ==> #[trigger] lanes.drop_first()[i] == lanes[i + 1]);
    if j == 0 {
        lemma_sum_by_bounds(lanes.drop_first(), f, g);
    } else {
        lemma_sum_by_bounds_strict(lanes.drop_first(), f, g, j - 1);
    }
}

/// The bookkeeping of one running batch.
pub struct BatchEngine {
    pub lanes: Vec<Lane>,
    pub total_count: usize,
    pub current_count: usize,
    /// The `current_count` values handed out so far, in the order the
    /// envelopes were produced.
    pub history: Ghost<Seq<int>>,
}

impl BatchEngine {
    /// The engine's invariant: positions stay within their lanes, the totals
    /// are the sums over the lanes, and the counter values handed out so far
    /// are exactly 1, 2, ... `current_count`.
    pub open spec fn wf(self) -> bool {
        &&& forall|i: int|
            0 <= i < self.lanes@.len() ==> (#[trigger] self.lanes@[i]).pos
                <= self.lanes@[i].items@.len()
        &&& self.total_count as int == sum_items(self.lanes@)
        &&& self.current_count as int == sum_pos(self.lanes@)
        &&& self.history@.len() == self.current_count
        &&& forall|i: int| 0 <= i < self.history@.len() ==> self.history@[i] == i + 1
    }

    /// Partitions the identifiers into lanes and starts the bookkeeping of a
    /// fresh batch. Everything about the result is fixed by the arguments
    /// alone, so after a `reset` of the controller a new batch behaves as a
    /// first one.
    pub fn start_batch(identifiers: Vec<String>, lane_count: usize) -> (e: BatchEngine)
        requires
            lane_count > 0,
        ensures
            e.wf(),
            e.total_count == identifiers@.len(),
            e.current_count == 0,
            e.history@ == Seq::<int>::empty(),
            e.lanes@.map_values(|l: Lane| l.items@) == spec_chunks(
                identifiers@,
                lane_size(identifiers@.len() as nat, lane_count as nat),
            ),
            forall|i: int|
                0 <= i < e.lanes@.len() ==> (#[trigger] e.lanes@[i]).pos == 0 && !e.lanes@[i].done,
    {
        let ghost ids = identifiers@;
        let ghost k = lane_size(ids.len() as nat, lane_count as nat);
        let n = identifiers.len();
        let parts = partition(identifiers, lane_count);
        proof {
            if n > 0 {
                assert(k > 0) by (nonlinear_arith)
                    requires
                        lane_count > 0,
                        n > 0,
                        k == ((n + lane_count - 1) as int / lane_count as int) as nat,
                ;
                lemma_chunks_flatten(ids, k);
            } else {
                assert(spec_chunks(ids, k) =~= Seq::<Seq<String>>::empty());
            }
            assert(sum_sizes(spec_chunks(ids, k)) == n);
        }
        let mut rem = parts;
        let mut lanes: Vec<Lane> = Vec::new();
        while rem.len() > 0
            invariant
                lanes@.map_values(|l: Lane| l.items@) + rem@.map_values(|v: Vec<String>| v@)
                    == spec_chunks(ids, k),
                sum_items(lanes@) + sum_sizes(rem@.map_values(|v: Vec<String>| v@)) == n,
                sum_pos(lanes@) == 0,
                forall|i: int|
                    0 <= i < lanes@.len() ==> (#[trigger] lanes@[i]).pos == 0 && !lanes@[i].done,
            decreases rem.len(),
        {
            let ghost rem0 = rem@;
            let items = rem.remove(0);
            let lane = Lane { items, pos: 0, done: false };
            proof {
                let f = |v: Vec<String>| v@;
                assert(rem0.map_values(f).first() == rem0[0]@);
                assert(rem0.map_values(f).drop_first() =~= rem@.map_values(f));
                assert(sum_sizes(rem0.map_values(f)) == rem0[0]@.len() + sum_sizes(
                    rem@.map_values(f),
                ));
                lemma_sum_by_push(lanes@, lane, |l: Lane| l.items@.len() as int);
                lemma_sum_by_push(lanes@, lane, |l: Lane| l.pos as int);
                assert(lanes@.push(lane).map_values(|l: Lane| l.items@) =~= lanes@.map_values(
                    |l: Lane| l.items@,
                ).push(lane.items@));
                assert(lanes@.map_values(|l: Lane| l.items@).push(rem0[0]@) + rem@.map_values(f)
                    =~= lanes@.map_values(|l: Lane| l.items@) + rem0.map_values(f));
            }
            lanes.push(lane);
        }
        proof {
            assert(rem@.map_values(|v: Vec<String>| v@) =~= Seq::<Seq<String>>::empty());
            assert(lanes@.map_values(|l: Lane| l.items@) =~= lanes@.map_values(|l: Lane| l.items@)
                + rem@.map_values(|v: Vec<String>| v@));
        }
        let e = BatchEngine { lanes, total_count: n, current_count: 0, history: Ghost(Seq::empty()) };
        e
    }

    /// The identifier a lane looks up next.
    pub fn current_item(&self, lane: usize) -> (id: &String)
        requires
            lane < self.lanes@.len(),
            self.lanes@[lane as int].pos < self.lanes@[lane as int].items@.len(),
        ensures
            *id == self.lanes@[lane as int].items@[self.lanes@[lane as int].pos as int],
    {
        let l = &self.lanes[lane];
        &l.items[l.pos]
    }

    /// A lane completed one item: the shared counter advances by exactly one
    /// and the envelope carries the new count, so the counts handed out are
    /// 1, 2, ... in production order, and never pass the batch total.
    pub fn on_success(&mut self, lane: usize, data: ParcelData) -> (env: ParcelResponse)
        requires
            old(self).wf(),
            lane < old(self).lanes@.len(),
            !old(self).lanes@[lane as int].done,
            old(self).lanes@[lane as int].pos < old(self).lanes@[lane as int].items@.len(),
        ensures
            final(self).wf(),
            final(self).total_count == old(self).total_count,
            final(self).current_count == old(self).current_count + 1,
            final(self).lanes@.len() == old(self).lanes@.len(),
            final(self).lanes@[lane as int].pos == old(self).lanes@[lane as int].pos + 1,
            final(self).lanes@[lane as int].items == old(self).lanes@[lane as int].items,
            final(self).lanes@[lane as int].done == old(self).lanes@[lane as int].done,
            forall|i: int|
                0 <= i < old(self).lanes@.len() && i != lane ==> final(self).lanes@[i] == old(
                    self,
                ).lanes@[i],
            env.data == data,
            env.total_count == old(self).total_count,
            env.current_count == old(self).current_count + 1,
            env.current_count <= env.total_count,
            final(self).history@ == old(self).history@.push(env.current_count as int),
    {
        proof {
            lemma_sum_by_bounds_strict(
                self.lanes@,
                |l: Lane| l.pos as int,
                |l: Lane| l.items@.len() as int,
                lane as int,
            );
        }
        let ghost lanes0 = self.lanes@;
        let l = self.lanes.remove(lane);
        // l.pos + 1 stays a usize because l.pos < l.items.len()
        assert(l.pos < l.items.len());
        let l2 = Lane { items: l.items, pos: l.pos + 1, done: l.done };
        proof {
            lemma_sum_by_update(lanes0, lane as int, l2, |l: Lane| l.pos as int);
            lemma_sum_by_update(lanes0, lane as int, l2, |l: Lane| l.items@.len() as int);
        }
        self.lanes.insert(lane, l2);
        proof {
            assert(self.lanes@ =~= lanes0.update(lane as int, l2));
        }
        self.current_count = self.current_count + 1;
        proof {
            self.history@ = self.history@.push(self.current_count as int);
        }
        ParcelResponse { data, total_count: self.total_count, current_count: self.current_count }
    }

    /// A lane's lookup failed: the lane ends permanently (its remaining items
    /// are skipped for this run, even after a later resume), the whole batch
    /// is paused with the error flag, and the notification is emitted only if
    /// this failure is the first the controller sees.
    pub fn on_failure(&mut self, lane: usize, state: &mut AppState) -> (emit: bool)
        requires
            old(self).wf(),
            lane < old(self).lanes@.len(),
        ensures
            final(self).wf(),
            emit == failure_emits(*old(state)),
            *final(state) == failure_t(*old(state)),
            final(state).has_error,
            final(self).total_count == old(self).total_count,
            final(self).current_count == old(self).current_count,
            final(self).history@ == old(self).history@,
            final(self).lanes@.len() == old(self).lanes@.len(),
            final(self).lanes@[lane as int].done,
            final(self).lanes@[lane as int].pos == old(self).lanes@[lane as int].pos,
            final(self).lanes@[lane as int].items == old(self).lanes@[lane as int].items,
            forall|i: int|
                0 <= i < old(self).lanes@.len() && i != lane ==> final(self).lanes@[i] == old(
                    self,
                ).lanes@[i],
    {
        let emit = !state.get_has_error();
        if emit {
            state.set_error();
        }
        let ghost lanes0 = self.lanes@;
        let l = self.lanes.remove(lane);
        let l2 = Lane { items: l.items, pos: l.pos, done: true };
        proof {
            lemma_sum_by_update(lanes0, lane as int, l2, |l: Lane| l.pos as int);
            lemma_sum_by_update(lanes0, lane as int, l2, |l: Lane| l.items@.len() as int);
        }
        self.lanes.insert(lane, l2);
        proof {
            assert(self.lanes@ =~= lanes0.update(lane as int, l2));
        }
        emit
    }

    /// A lane observed cancellation at its checkpoint and abandons its
    /// remaining items: nothing counted, nothing emitted.
    pub fn abandon(&mut self, lane: usize)
        requires
            old(self).wf(),
            lane < old(self).lanes@.len(),
        ensures
            final(self).wf(),
            final(self).total_count == old(self).total_count,
            final(self).current_count == old(self).current_count,
            final(self).history@ == old(self).history@,
            final(self).lanes@.len() == old(self).lanes@.len(),
            final(self).lanes@[lane as int].done,
            final(self).lanes@[lane as int].pos == old(self).lanes@[lane as int].pos,
            final(self).lanes@[lane as int].items == old(self).lanes@[lane as int].items,
            forall|i: int|
                0 <= i < old(self).lanes@.len() && i != lane ==> final(self).lanes@[i] == old(
                    self,
                ).lanes@[i],
    {
        let ghost lanes0 = self.lanes@;
        let l = self.lanes.remove(lane);
        let l2 = Lane { items: l.items, pos: l.pos, done: true };
        proof {
            lemma_sum_by_update(lanes0, lane as int, l2, |l: Lane| l.pos as int);
            lemma_sum_by_update(lanes0, lane as int, l2, |l: Lane| l.items@.len() as int);
        }
        self.lanes.insert(lane, l2);
        proof {
            assert(self.lanes@ =~= lanes0.update(lane as int, l2));
        }
    }
}

/// Law: the progress counter never exceeds the batch total.
pub proof fn lemma_count_bounded(e: BatchEngine)
    requires
        e.wf(),
    ensures
        e.current_count <= e.total_count,
{
    lemma_sum_by_bounds(e.lanes@, |l: Lane| l.pos as int, |l: Lane| l.items@.len() as int);
}

/// Law: the counter values handed out in successive envelopes are strictly
/// increasing, start at 1, and never exceed the batch total.
pub proof fn lemma_progress_strictly_increasing(e: BatchEngine)
    requires
        e.wf(),
    ensures
        forall|i: int, j: int|
            0 <= i < j < e.history@.len() ==> e.history@[i] < e.history@[j],
        forall|i: int| 0 <= i < e.history@.len() ==> 1 <= #[trigger] e.history@[i] <= e.total_count,
{
    lemma_sum_by_bounds(e.lanes@, |l: Lane| l.pos as int, |l: Lane| l.items@.len() as int);
}

/// Law: with zero failures every lane runs to exhaustion, and then the final
/// counter equals the batch total: exactly one envelope went out per input
/// item.
pub proof fn lemma_zero_failures_full_count(e: BatchEngine)
    requires
        e.wf(),
        forall|i: int|
            0 <= i < e.lanes@.len() ==> (#[trigger] e.lanes@[i]).pos == e.lanes@[i].items@.len(),
    ensures
        e.current_count == e.total_count,
        e.history@.len() == e.total_count,
{
    lemma_sum_by_bounds(e.lanes@, |l: Lane| l.pos as int, |l: Lane| l.items@.len() as int);
    lemma_sum_by_bounds(e.lanes@, |l: Lane| l.items@.len() as int, |l: Lane| l.pos as int);
}

} // verus!
