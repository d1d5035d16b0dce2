//! Static work partitioning: the input identifier list is cut into
//! contiguous lanes of `ceil(n / lane_count)` items each (the last lane may
//! be shorter), one lane per worker, assigned once and never rebalanced.

use vstd::prelude::*;

verus! {

/// The size every lane but possibly the last gets: `ceil(n / lane_count)`.
pub open spec fn lane_size(n: nat, lane_count: nat) -> nat
    recommends
        lane_count > 0,
{
    if lane_count == 0 {
        0
    } else {
        ((n + lane_count - 1) as int / lane_count as int) as nat
    }
}

/// The contiguous chunks of `s` of size `k`, in order; the last chunk holds
/// whatever remains. An empty sequence, like a zero chunk size, yields no
/// chunks.
pub open spec fn spec_chunks<T>(s: Seq<T>, k: nat) -> Seq<Seq<T>>
    decreases s.len(),
{
    if s.len() == 0 || k == 0 {
        Seq::empty()
    } else if s.len() <= k {
        seq![s]
    } else {
        seq![s.take(k as int)] + spec_chunks(s.skip(k as int), k)
    }
}

/// The total number of items over all chunks.
pub open spec fn sum_sizes<T>(cs: Seq<Seq<T>>) -> int
    decreases cs.len(),
{
    if cs.len() == 0 {
        0
    } else {
        cs.first().len() + sum_sizes(cs.drop_first())
    }
}

/// Law: partitioning loses and invents nothing. The concatenation of the
/// chunks, in chunk order and item order within each chunk, is the input
/// sequence itself, so in particular the chunk sizes sum to the input's
/// length.
pub proof fn lemma_chunks_flatten<T>(s: Seq<T>, k: nat)
    requires
        k > 0,
    ensures
        spec_chunks(s, k).flatten() == s,
        sum_sizes(spec_chunks(s, k)) == s.len(),
    decreases s.len(),
{
    let cs = spec_chunks(s, k);
    if s.len() == 0 {
        assert(cs.flatten() =~= s);
    } else if s.len() <= k {
        assert(cs.first() == s);
        assert(cs.drop_first() =~= Seq::<Seq<T>>::empty());
        assert(cs.flatten() =~= s + Seq::<Seq<T>>::empty().flatten());
        assert(cs.flatten() =~= s);
        assert(sum_sizes(cs) == s.len() + sum_sizes(Seq::<Seq<T>>::empty()));
    } else {
        lemma_chunks_flatten(s.skip(k as int), k);
        assert(cs.first() == s.take(k as int));
        assert(cs.drop_first() =~= spec_chunks(s.skip(k as int), k));
        assert(cs.flatten() =~= s.take(k as int) + s.skip(k as int));
        assert(cs.flatten() =~= s);
        assert(sum_sizes(cs) == k + sum_sizes(spec_chunks(s.skip(k as int), k)));
    }
}

/// Law: every chunk but the last has exactly `k` items, the last has between
/// 1 and `k`, and there are `ceil(len / k)` chunks in all.
pub proof fn lemma_chunks_sizes<T>(s: Seq<T>, k: nat)
    requires
        k > 0,
    ensures
        spec_chunks(s, k).len() == lane_size(s.len(), k),
        forall|i: int|
            0 <= i < spec_chunks(s, k).len() - 1 ==> (#[trigger] spec_chunks(s, k)[i]).len() == k,
        s.len() > 0 ==> {
            let cs = spec_chunks(s, k);
            1 <= cs.last().len() <= k
        },
    decreases s.len(),
{
    let cs = spec_chunks(s, k);
    if s.len() == 0 {
        assert(lane_size(0, k) == (k - 1) as int / k as int);
        assert((k - 1) as int / k as int == 0) by (nonlinear_arith)
            requires
                k > 0,
        ;
    } else if s.len() <= k {
        assert(lane_size(s.len(), k) == 1) by (nonlinear_arith)
            requires
                k > 0,
                0 < s.len() <= k,
        ;
    } else {
        let rest = s.skip(k as int);
        lemma_chunks_sizes(rest, k);
        let cr = spec_chunks(rest, k);
        assert(cs =~= seq![s.take(k as int)] + cr);
        assert(cs.len() == 1 + cr.len());
        assert(forall|i: int| 0 <= i < cs.len() - 1 ==> (#[trigger] cs[i]).len() == k) by {
            assert(cs[0].len() == s.take(k as int).len() == k);
            assert(forall|i: int|
                1 <= i < cs.len() - 1 ==> (#[trigger] cs[i]).len() == cr[i - 1].len());
        }
        assert(cs.last() == cr.last());
        assert(lane_size(s.len(), k) == 1 + lane_size(rest.len(), k)) by (nonlinear_arith)
            requires
                k > 0,
                s.len() > k,
                rest.len() == s.len() - k,
        ;
    }
}

/// Cuts `items` into contiguous lanes of `ceil(n / lane_count)` items each;
/// the last lane may be shorter. With fewer items than lanes the number of
/// lanes produced drops accordingly; an empty input yields no lanes.
pub fn partition<T>(items: Vec<T>, lane_count: usize) -> (lanes: Vec<Vec<T>>)
    requires
        lane_count > 0,
    ensures
        lanes@.map_values(|l: Vec<T>| l@) == spec_chunks(
            items@,
            lane_size(items@.len() as nat, lane_count as nat),
        ),
{
    let ghost orig = items@;
    let n = items.len();
    let mut rem = items;
    let mut lanes: Vec<Vec<T>> = Vec::new();
    if n == 0 {
        assert(lanes@.map_values(|l: Vec<T>| l@) =~= spec_chunks(
            orig,
            lane_size(orig.len() as nat, lane_count as nat),
        ));
        return lanes;
    }
    let chunk_size: usize = if n % lane_count == 0 {
        n / lane_count
    } else {
        proof {
            assert(n / lane_count < n) by (nonlinear_arith)
                requires
                    lane_count >= 2,
                    n >= 1,
            ;
            assert(lane_count >= 2) by {
                assert(n % 1 == 0) by (nonlinear_arith)
                    requires
                        n >= 1,
                ;
            }
        }
        n / lane_count + 1
    };
    proof {
        assert(chunk_size == lane_size(n as nat, lane_count as nat)) by (nonlinear_arith)
            requires
                lane_count > 0,
                n > 0,
                n % lane_count == 0 ==> chunk_size == n as int / lane_count as int,
                n % lane_count != 0 ==> chunk_size == n as int / lane_count as int + 1,
                lane_size(n as nat, lane_count as nat) == (n + lane_count - 1) as int
                    / lane_count as int,
        ;
    }
    let ghost k = chunk_size as nat;
    assert(chunk_size >= 1) by (nonlinear_arith)
        requires
            lane_count > 0,
            n > 0,
            chunk_size == lane_size(n as nat, lane_count as nat),
            lane_size(n as nat, lane_count as nat) == (n + lane_count - 1) as int
                / lane_count as int,
    ;
    while rem.len() > 0
        invariant
            chunk_size as nat == k,
            chunk_size >= 1,
            spec_chunks(orig, k) == lanes@.map_values(|l: Vec<T>| l@) + spec_chunks(rem@, k),
        decreases rem.len(),
    {
        let ghost start = rem@;
        let mut lane: Vec<T> = Vec::new();
        while lane.len() < chunk_size && rem.len() > 0
            invariant
                lane@ + rem@ == start,
                lane@.len() <= chunk_size,
            decreases chunk_size - lane.len(),
        {
            let x = rem.remove(0);
            proof {
                assert(lane@.push(x) + rem@ =~= start);
            }
            lane.push(x);
        }
        proof {
            assert(lane@ =~= start.take(lane@.len() as int));
            assert(rem@ =~= start.skip(lane@.len() as int));
            if start.len() <= k {
                assert(lane@.len() == start.len());
                assert(lane@ =~= start);
                assert(spec_chunks(start, k) =~= seq![start]);
            } else {
                assert(lane@.len() == k);
                assert(spec_chunks(start, k) =~= seq![start.take(k as int)] + spec_chunks(
                    start.skip(k as int),
                    k,
                ));
            }
            assert((lanes@.push(lane)).map_values(|l: Vec<T>| l@) =~= lanes@.map_values(
                |l: Vec<T>| l@,
            ).push(lane@));
            assert(spec_chunks(orig, k) =~= lanes@.map_values(|l: Vec<T>| l@).push(lane@)
                + spec_chunks(rem@, k));
        }
        lanes.push(lane);
    }
    proof {
        assert(spec_chunks(rem@, k) =~= Seq::<Seq<T>>::empty());
        assert(lanes@.map_values(|l: Vec<T>| l@) =~= lanes@.map_values(|l: Vec<T>| l@)
            + spec_chunks(rem@, k));
    }
    lanes
}

} // verus!
