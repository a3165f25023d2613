//! The simulation engine: random walks and the histogram of their endpoints.
use crate::laws::{
    lemma_counts_bounded, lemma_counts_sum, lemma_even_length_empty, lemma_frame_labels,
    lemma_occurrences_bound, sum_counts,
};
use crate::random::draw_below;
use rand::rngs::StdRng;
use vstd::prelude::*;

verus! {

/// Empty buckets reserved beyond the reachable endpoints on each side.
pub const PAD: u32 = 2;

/// A draw below this value moves a walk down one step; any other moves it up.
pub const DOWN_BELOW: u32 = 5;

/// What a walk moves by on a draw.
pub open spec fn step_value(d: u32) -> int {
    if d < DOWN_BELOW {
        -1
    } else {
        1
    }
}

/// The endpoint of a walk that starts at zero and takes one step per draw.
pub open spec fn walk_sum(draws: Seq<u32>) -> int
    decreases draws.len(),
{
    if draws.len() == 0 {
        0
    } else {
        walk_sum(draws.drop_last()) + step_value(draws.last())
    }
}

/// The walk of a single trial: draws a step for each element and sums the steps.
pub fn walk_endpoint(draws: &Vec<u32>) -> (r: i64)
    requires
        draws.len() <= u32::MAX,
    ensures
        r == walk_sum(draws@),
{
    let mut sum: i64 = 0;
    let mut i: usize = 0;
    while i < draws.len()
        invariant
            i <= draws.len() <= u32::MAX,
            sum == walk_sum(draws@.take(i as int)),
            -(i as int) <= sum <= i,
        decreases draws.len() - i,
    {
        assert(draws@.take(i + 1).drop_last() =~= draws@.take(i as int));
        if draws[i] < DOWN_BELOW {
            sum = sum - 1;
        } else {
            sum = sum + 1;
        }
        i = i + 1;
    }
    assert(draws@.take(i as int) =~= draws@);
    sum
}


/// The settings of one run: how many walks per frame, and how long each walk is.
#[derive(Clone, Copy, Debug, PartialEq, Eq, Structural)]
pub struct SimulationConfig {
    pub sample_count: usize,
    pub walk_length: u32,
}

/// One labelled endpoint value and how many walks ended there.
#[derive(Clone, Copy, Debug, PartialEq, Eq, Structural)]
pub struct Bucket {
    pub label: i64,
    pub count: u64,
}

/// The largest odd number not above `walk_length + PAD`: the outermost label.
pub open spec fn half_span(walk_length: nat) -> int {
    let m = walk_length + PAD;
    if m % 2 == 1 {
        m as int
    } else {
        m - 1
    }
}

/// How many buckets a frame has: one per odd number in `[-half_span, half_span]`.
pub open spec fn bucket_total(walk_length: nat) -> nat {
    (half_span(walk_length) + 1) as nat
}

/// The label of the `i`-th bucket, counted from the lowest.
pub open spec fn label_at(walk_length: nat, i: int) -> int {
    2 * i - half_span(walk_length)
}

/// The ascending sequence of odd labels of a frame.
pub open spec fn labels(walk_length: nat) -> Seq<int> {
    Seq::new(bucket_total(walk_length), |i: int| label_at(walk_length, i))
}

/// How many elements of `s` equal `v`.
pub open spec fn occurrences(s: Seq<int>, v: int) -> nat
    decreases s.len(),
{
    if s.len() == 0 {
        0
    } else {
        occurrences(s.drop_last(), v) + if s.last() == v {
            1nat
        } else {
            0nat
        }
    }
}

/// The first `n` buckets of the histogram of `endpoints`, as (label, count) pairs.
pub open spec fn tally(walk_length: nat, endpoints: Seq<int>, n: nat) -> Seq<(int, nat)> {
    Seq::new(
        n,
        |i: int| (label_at(walk_length, i), occurrences(endpoints, label_at(walk_length, i))),
    )
}

/// The histogram of `endpoints`: every label of the frame with its number of endpoints.
pub open spec fn histogram(walk_length: nat, endpoints: Seq<int>) -> Seq<(int, nat)> {
    tally(walk_length, endpoints, bucket_total(walk_length))
}

/// A frame as (label, count) pairs.
pub open spec fn frame_view(frame: Seq<Bucket>) -> Seq<(int, nat)> {
    frame.map_values(|b: Bucket| (b.label as int, b.count as nat))
}

/// Endpoints held as machine integers, seen as mathematical ones.
pub open spec fn as_ints(s: Seq<i64>) -> Seq<int> {
    s.map_values(|e: i64| e as int)
}

/// Counts how many endpoints fall on each label of the frame for `walk_length`,
/// in one pass over the endpoints; every label is present, in ascending order.
pub fn bin_endpoints(walk_length: u32, endpoints: &Vec<i64>) -> (r: Vec<Bucket>)
    requires
        walk_length + PAD + 1 <= usize::MAX,
    ensures
        frame_view(r@) == histogram(walk_length as nat, as_ints(endpoints@)),
{
    let ghost w = walk_length as nat;
    let ghost e = as_ints(endpoints@);
    let m: i64 = walk_length as i64 + PAD as i64;
    let h: i64 = if m % 2 == 1 {
        m
    } else {
        m - 1
    };
    assert(h == half_span(w));
    let nb: usize = (h + 1) as usize;
    let mut counts: Vec<u64> = Vec::new();
    while counts.len() < nb
        invariant
            counts.len() <= nb,
            forall|i: int| 0 <= i < counts.len() ==> counts[i] == 0,
        decreases nb - counts.len(),
    {
        counts.push(0);
    }
    let mut k: usize = 0;
    while k < endpoints.len()
        invariant
            k <= endpoints.len(),
            counts.len() == nb == bucket_total(w),
            h == half_span(w),
            e == as_ints(endpoints@),
            1 <= h <= u32::MAX as i64 + PAD as i64,
            forall|i: int|
                0 <= i < nb ==> counts[i] == occurrences(e.take(k as int), label_at(w, i)),
        decreases endpoints.len() - k,
    {
        let x: i64 = endpoints[k];
        assert(e.take(k + 1).drop_last() =~= e.take(k as int));
        assert(e.take(k + 1).last() == x);
        if -h <= x && x <= h && (x + h) % 2 == 0 {
            let idx: usize = ((x + h) / 2) as usize;
            proof {
                lemma_occurrences_bound(e.take(k as int), label_at(w, idx as int));
            }
            counts.set(idx, counts[idx] + 1);
        }
        k = k + 1;
    }
    assert(e.take(k as int) =~= e);
    let mut frame: Vec<Bucket> = Vec::new();
    let mut i: usize = 0;
    while i < nb
        invariant
            i <= nb,
            counts.len() == nb == bucket_total(w),
            h == half_span(w),
            1 <= h <= u32::MAX as i64 + PAD as i64,
            frame.len() == i,
            forall|j: int| 0 <= j < nb ==> counts[j] == occurrences(e, label_at(w, j)),
            frame_view(frame@) =~= tally(w, e, i as nat),
        decreases nb - i,
    {
        let ghost before = frame@;
        let b = Bucket { label: 2 * (i as i64) - h, count: counts[i] };
        frame.push(b);
        assert(frame@ == before.push(b));
        assert(frame_view(frame@) =~= frame_view(before).push((b.label as int, b.count as nat)));
        i = i + 1;
        assert(frame_view(frame@) =~= tally(w, e, i as nat));
    }
    frame
}


/// The endpoints of the given walks, in order.
pub open spec fn endpoints_of(walks: Seq<Seq<u32>>) -> Seq<int> {
    walks.map_values(|w: Seq<u32>| walk_sum(w))
}

/// Rows of draws seen as sequences.
pub open spec fn rows_view(draws: Seq<Vec<u32>>) -> Seq<Seq<u32>> {
    draws.map_values(|v: Vec<u32>| v@)
}

/// `walks` holds one row of draws per trial of `config`, one draw per step.
pub open spec fn shaped(config: SimulationConfig, walks: Seq<Seq<u32>>) -> bool {
    &&& walks.len() == config.sample_count
    &&& forall|k: int| 0 <= k < walks.len() ==> #[trigger] walks[k].len() == config.walk_length
}

/// The frame that the walks of `walks` give under `config`.
pub open spec fn frame_of_walks(config: SimulationConfig, walks: Seq<Seq<u32>>) -> Seq<(int, nat)> {
    histogram(config.walk_length as nat, endpoints_of(walks))
}

/// Builds a frame from given draws: row `k` holds the draws of trial `k`, one per step.
pub fn generate_from_draws(config: &SimulationConfig, draws: &Vec<Vec<u32>>) -> (r: Vec<Bucket>)
    requires
        shaped(*config, rows_view(draws@)),
        config.walk_length + PAD + 1 <= usize::MAX,
    ensures
        frame_view(r@) == frame_of_walks(*config, rows_view(draws@)),
{
    let ghost walks = rows_view(draws@);
    let mut endpoints: Vec<i64> = Vec::new();
    let mut k: usize = 0;
    while k < draws.len()
        invariant
            k <= draws.len(),
            walks == rows_view(draws@),
            shaped(*config, walks),
            as_ints(endpoints@) =~= endpoints_of(walks).take(k as int),
        decreases draws.len() - k,
    {
        assert(walks[k as int] == draws[k as int]@);
        let x = walk_endpoint(&draws[k]);
        let ghost before = endpoints@;
        endpoints.push(x);
        assert(as_ints(endpoints@) =~= as_ints(before).push(x as int));
        assert(endpoints_of(walks)[k as int] == walk_sum(walks[k as int]));
        k = k + 1;
        assert(as_ints(endpoints@) =~= endpoints_of(walks).take(k as int));
    }
    assert(endpoints_of(walks).take(k as int) =~= endpoints_of(walks));
    bin_endpoints(config.walk_length, &endpoints)
}

/// `frame` is what some run of `config` gives: one row of draws per walk, one draw
/// per step, each draw in `0..DRAW_RANGE`.
pub open spec fn drawn_frame(config: SimulationConfig, frame: Seq<(int, nat)>) -> bool {
    exists|walks: Seq<Seq<u32>>|
        {
            &&& shaped(config, walks)
            &&& forall|k: int, j: int|
                0 <= k < walks.len() && 0 <= j < walks[k].len() ==> #[trigger] walks[k][j]
                    < DRAW_RANGE
            &&& frame == #[trigger] frame_of_walks(config, walks)
        }
}

/// Draws are taken uniformly from `0..DRAW_RANGE`.
pub const DRAW_RANGE: u32 = 10;

/// Runs `sample_count` fresh walks of `walk_length` steps on `rng` and bins them.
pub fn generate(config: &SimulationConfig, rng: &mut StdRng) -> (r: Vec<Bucket>)
    requires
        config.walk_length + PAD + 1 <= usize::MAX,
    ensures
        drawn_frame(*config, frame_view(r@)),
        frame_view(r@).map_values(|p: (int, nat)| p.0) == labels(config.walk_length as nat),
        forall|i: int| 0 <= i < r.len() ==> #[trigger] r[i].count <= config.sample_count,
        forall|i: int|
            0 <= i < r.len() && (r[i].label < -config.walk_length || r[i].label
                > config.walk_length) ==> #[trigger] r[i].count == 0,
        config.walk_length % 2 == 1 ==> sum_counts(frame_view(r@)) == config.sample_count,
        config.walk_length % 2 == 0 ==> forall|i: int| 0 <= i < r.len() ==> #[trigger] r[i].count
            == 0,
{
    let mut draws: Vec<Vec<u32>> = Vec::new();
    let mut k: usize = 0;
    while k < config.sample_count
        invariant
            k <= config.sample_count,
            draws.len() == k,
            forall|t: int| 0 <= t < k ==> (#[trigger] draws[t])@.len() == config.walk_length,
            forall|t: int, j: int|
                0 <= t < k && 0 <= j < draws[t]@.len() ==> #[trigger] draws[t]@[j] < DRAW_RANGE,
        decreases config.sample_count - k,
    {
        let mut row: Vec<u32> = Vec::new();
        let mut j: u32 = 0;
        while j < config.walk_length
            invariant
                j <= config.walk_length,
                row.len() == j,
                forall|i: int| 0 <= i < j ==> row@[i] < DRAW_RANGE,
            decreases config.walk_length - j,
        {
            let d = draw_below(rng, DRAW_RANGE);
            row.push(d);
            j = j + 1;
        }
        draws.push(row);
        k = k + 1;
    }
    let ghost walks = rows_view(draws@);
    assert forall|t: int| 0 <= t < walks.len() implies #[trigger] walks[t].len()
        == config.walk_length by {
        assert(walks[t] == draws[t]@);
    }
    assert forall|t: int, j: int|
        0 <= t < walks.len() && 0 <= j < walks[t].len() implies #[trigger] walks[t][j]
        < DRAW_RANGE by {
        assert(walks[t] == draws[t]@);
    }
    let r = generate_from_draws(config, &draws);
    assert(frame_view(r@) == frame_of_walks(*config, walks));
    proof {
        lemma_frame_labels(*config, walks);
        lemma_counts_bounded(*config, walks);
        if config.walk_length % 2 == 1 {
            lemma_counts_sum(*config, walks);
        } else {
            lemma_even_length_empty(*config, walks);
        }
        assert forall|i: int| 0 <= i < r.len() implies #[trigger] r[i].count
            <= config.sample_count by {
            assert(frame_view(r@)[i].1 == r[i].count);
        }
        assert forall|i: int|
            0 <= i < r.len() && (r[i].label < -config.walk_length || r[i].label
                > config.walk_length) implies #[trigger] r[i].count == 0 by {
            assert(frame_view(r@)[i] == (r[i].label as int, r[i].count as nat));
            assert(frame_of_walks(*config, walks)[i].0 == r[i].label);
            assert(frame_of_walks(*config, walks)[i].1 == r[i].count);
        }
        if config.walk_length % 2 == 0 {
            assert forall|i: int| 0 <= i < r.len() implies #[trigger] r[i].count == 0 by {
                assert(frame_view(r@)[i].1 == r[i].count);
            }
        }
    }
    r
}

} // verus!
