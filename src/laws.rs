//! What every generated frame satisfies, stated over the engine's model.
use crate::engine::{
    Bucket, SimulationConfig, endpoints_of, frame_view, frame_of_walks, half_span, histogram, label_at, labels,
    occurrences, shaped, step_value, tally, walk_sum,
};
use vstd::prelude::*;

verus! {

/// The sum of the counts of a sequence of (label, count) pairs.
pub open spec fn sum_counts(f: Seq<(int, nat)>) -> nat
    decreases f.len(),
{
    if f.len() == 0 {
        0
    } else {
        sum_counts(f.drop_last()) + f.last().1
    }
}

/// How many of the first `n` labels equal `x`.
pub open spec fn hits(walk_length: nat, x: int, n: nat) -> nat
    decreases n,
{
    if n == 0 {
        0
    } else {
        hits(walk_length, x, (n - 1) as nat) + if label_at(walk_length, n - 1) == x {
            1nat
        } else {
            0nat
        }
    }
}

/// A walk moves at most one unit per step, and its endpoint has the parity of its length.
pub proof fn lemma_walk_sum_shape(d: Seq<u32>)
    ensures
        -(d.len() as int) <= walk_sum(d) <= d.len(),
        (walk_sum(d) + d.len()) % 2 == 0,
    decreases d.len(),
{
    if d.len() > 0 {
        lemma_walk_sum_shape(d.drop_last());
        assert(step_value(d.last()) == 1 || step_value(d.last()) == -1);
    }
}

/// A value occurs at most once per element, and not at all where no element equals it.
pub proof fn lemma_occurrences_bound(s: Seq<int>, v: int)
    ensures
        occurrences(s, v) <= s.len(),
        (forall|k: int| 0 <= k < s.len() ==> s[k] != v) ==> occurrences(s, v) == 0,
    decreases s.len(),
{
    if s.len() > 0 {
        lemma_occurrences_bound(s.drop_last(), v);
        assert forall|k: int| 0 <= k < s.len() - 1 implies s.drop_last()[k] == s[k] by {}
    }
}

proof fn lemma_hits(walk_length: nat, x: int, n: nat)
    ensures
        hits(walk_length, x, n) == if -half_span(walk_length) <= x <= 2 * n - 2 - half_span(
            walk_length,
        ) && (x + half_span(walk_length)) % 2 == 0 {
            1nat
        } else {
            0nat
        },
    decreases n,
{
    if n > 0 {
        lemma_hits(walk_length, x, (n - 1) as nat);
    }
}

proof fn lemma_tally_step(walk_length: nat, e: Seq<int>, n: nat)
    requires
        e.len() > 0,
    ensures
        sum_counts(tally(walk_length, e, n)) == sum_counts(tally(walk_length, e.drop_last(), n))
            + hits(walk_length, e.last(), n),
    decreases n,
{
    if n > 0 {
        lemma_tally_step(walk_length, e, (n - 1) as nat);
        assert(tally(walk_length, e, n).drop_last() =~= tally(walk_length, e, (n - 1) as nat));
        assert(tally(walk_length, e.drop_last(), n).drop_last() =~= tally(
            walk_length,
            e.drop_last(),
            (n - 1) as nat,
        ));
    }
}

proof fn lemma_tally_empty(walk_length: nat, e: Seq<int>, n: nat)
    requires
        e.len() == 0,
    ensures
        sum_counts(tally(walk_length, e, n)) == 0,
    decreases n,
{
    if n > 0 {
        lemma_tally_empty(walk_length, e, (n - 1) as nat);
        assert(tally(walk_length, e, n).drop_last() =~= tally(walk_length, e, (n - 1) as nat));
    }
}

proof fn lemma_histogram_total(walk_length: nat, e: Seq<int>)
    requires
        forall|k: int|
            0 <= k < e.len() ==> -half_span(walk_length) <= #[trigger] e[k] <= half_span(
                walk_length,
            ) && (e[k] + half_span(walk_length)) % 2 == 0,
    ensures
        sum_counts(histogram(walk_length, e)) == e.len(),
    decreases e.len(),
{
    let nb = (half_span(walk_length) + 1) as nat;
    if e.len() == 0 {
        lemma_tally_empty(walk_length, e, nb);
    } else {
        let rest = e.drop_last();
        assert forall|k: int| 0 <= k < rest.len() implies -half_span(walk_length) <= #[trigger] rest[k]
            <= half_span(walk_length) && (rest[k] + half_span(walk_length)) % 2 == 0 by {
            assert(rest[k] == e[k]);
        }
        lemma_histogram_total(walk_length, rest);
        lemma_tally_step(walk_length, e, nb);
        assert(e.last() == e[e.len() - 1]);
        lemma_hits(walk_length, e.last(), nb);
    }
}

proof fn lemma_endpoints_shape(config: SimulationConfig, walks: Seq<Seq<u32>>, k: int)
    requires
        shaped(config, walks),
        0 <= k < walks.len(),
    ensures
        -(config.walk_length as int) <= endpoints_of(walks)[k] <= config.walk_length,
        (endpoints_of(walks)[k] + config.walk_length) % 2 == 0,
{
    assert(walks[k].len() == config.walk_length);
    lemma_walk_sum_shape(walks[k]);
}

/// Every frame lists exactly the padded ascending odd labels of its walk length,
/// whatever the number of walks: from `-half_span` up to `half_span` by steps of two,
/// where `half_span` is `walk_length + PAD` for an odd walk length.
pub proof fn lemma_frame_labels(config: SimulationConfig, walks: Seq<Seq<u32>>)
    ensures
        frame_of_walks(config, walks).map_values(|p: (int, nat)| p.0) == labels(
            config.walk_length as nat,
        ),
        labels(config.walk_length as nat).len() == half_span(config.walk_length as nat) + 1,
        labels(config.walk_length as nat)[0] == -half_span(config.walk_length as nat),
        forall|i: int|
            0 <= i < labels(config.walk_length as nat).len() ==> #[trigger] labels(
                config.walk_length as nat,
            )[i] % 2 != 0,
        forall|i: int|
            0 < i < labels(config.walk_length as nat).len() ==> #[trigger] labels(
                config.walk_length as nat,
            )[i] == labels(config.walk_length as nat)[i - 1] + 2,
        config.walk_length % 2 == 1 ==> half_span(config.walk_length as nat) == config.walk_length
            + 2,
{
    let w = config.walk_length as nat;
    assert(frame_of_walks(config, walks).map_values(|p: (int, nat)| p.0) =~= labels(w));
}

/// With an odd walk length, the counts of a frame add up to the number of walks:
/// every walk lands in exactly one bucket.
pub proof fn lemma_counts_sum(config: SimulationConfig, walks: Seq<Seq<u32>>)
    requires
        shaped(config, walks),
        config.walk_length % 2 == 1,
    ensures
        sum_counts(frame_of_walks(config, walks)) == config.sample_count,
{
    let w = config.walk_length as nat;
    let e = endpoints_of(walks);
    assert forall|k: int| 0 <= k < e.len() implies -half_span(w) <= #[trigger] e[k] <= half_span(w)
        && (e[k] + half_span(w)) % 2 == 0 by {
        lemma_endpoints_shape(config, walks, k);
    }
    lemma_histogram_total(w, e);
}

/// No count exceeds the number of walks, and a label beyond the reach of a walk,
/// outside `[-walk_length, walk_length]`, always has count zero.
pub proof fn lemma_counts_bounded(config: SimulationConfig, walks: Seq<Seq<u32>>)
    requires
        shaped(config, walks),
    ensures
        forall|i: int|
            0 <= i < frame_of_walks(config, walks).len() ==> #[trigger] frame_of_walks(
                config,
                walks,
            )[i].1 <= config.sample_count,
        forall|i: int|
            0 <= i < frame_of_walks(config, walks).len() && (frame_of_walks(config, walks)[i].0
                < -config.walk_length || frame_of_walks(config, walks)[i].0 > config.walk_length)
                ==> #[trigger] frame_of_walks(config, walks)[i].1 == 0,
{
    let w = config.walk_length as nat;
    let e = endpoints_of(walks);
    assert forall|i: int| 0 <= i < frame_of_walks(config, walks).len() implies #[trigger] frame_of_walks(
        config,
        walks,
    )[i].1 <= config.sample_count && ((frame_of_walks(config, walks)[i].0 < -config.walk_length
        || frame_of_walks(config, walks)[i].0 > config.walk_length) ==> frame_of_walks(
        config,
        walks,
    )[i].1 == 0) by {
        let v = label_at(w, i);
        lemma_occurrences_bound(e, v);
        if v < -config.walk_length || v > config.walk_length {
            assert forall|k: int| 0 <= k < e.len() implies e[k] != v by {
                lemma_endpoints_shape(config, walks, k);
            }
        }
    }
}

/// With an even walk length every endpoint is even, so no walk lands on any of the
/// odd labels: every count of the frame is zero.
pub proof fn lemma_even_length_empty(config: SimulationConfig, walks: Seq<Seq<u32>>)
    requires
        shaped(config, walks),
        config.walk_length % 2 == 0,
    ensures
        forall|i: int|
            0 <= i < frame_of_walks(config, walks).len() ==> #[trigger] frame_of_walks(
                config,
                walks,
            )[i].1 == 0,
{
    let w = config.walk_length as nat;
    let e = endpoints_of(walks);
    assert forall|i: int| 0 <= i < frame_of_walks(config, walks).len() implies #[trigger] frame_of_walks(
        config,
        walks,
    )[i].1 == 0 by {
        let v = label_at(w, i);
        assert forall|k: int| 0 <= k < e.len() implies e[k] != v by {
            lemma_endpoints_shape(config, walks, k);
        }
        lemma_occurrences_bound(e, v);
    }
}


/// Two frames built under the same settings from the same draws are identical,
/// bucket for bucket.
pub proof fn lemma_same_draws_same_frame(
    config: SimulationConfig,
    walks: Seq<Seq<u32>>,
    first: Seq<Bucket>,
    second: Seq<Bucket>,
)
    requires
        frame_view(first) == frame_of_walks(config, walks),
        frame_view(second) == frame_of_walks(config, walks),
    ensures
        first == second,
{
    assert(first.len() == frame_view(first).len() == frame_view(second).len() == second.len());
    assert forall|i: int| 0 <= i < first.len() implies first[i] == second[i] by {
        assert(frame_view(first)[i] == (first[i].label as int, first[i].count as nat));
        assert(frame_view(second)[i] == (second[i].label as int, second[i].count as nat));
    }
    assert(first =~= second);
}

} // verus!
