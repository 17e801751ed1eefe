//! The running softmax of attention in exact arithmetic: what its sums amount to, and why neither
//! shards nor their order change the result.

use vstd::prelude::*;

use crate::attention::{
    attends, group_sum, head_of, lane_feature, lane_pair, lemma_lanes_multiply, lemma_own_head,
    lemma_shared_by_one, query_times_key, repeats_heads, AttentionUnit, Head,
};
use crate::bitonic::{inverse_orders, rearranged, reordered};
use crate::exact::{
    lemma_associative, lemma_cancel, lemma_distributive, lemma_one_times, lemma_positive_factor,
    lemma_shared_sums, lemma_sum_positive, lemma_sum_reordered, lemma_sum_scaled, lemma_zero_times,
    picked, shared_sums, sum,
};
use crate::rules::HEAD_DIM;
use crate::shape::{lemma_strided_bound, strided, strided_len};
use crate::tensor::{at4, TensorInfo};

verus! {

/// `e` turns this difference into a quotient.
pub open spec fn divides(e: spec_fn(real) -> real, x: real, y: real) -> bool {
    e(x - y) * e(y) == e(x)
}

/// `e` is positive and turns differences into quotients, as the exponential does.
pub open spec fn is_exponential(e: spec_fn(real) -> real) -> bool {
    &&& forall|x: real| (0 as real) < #[trigger] e(x)
    &&& forall|x: real, y: real| #[trigger] divides(e, x, y)
}

/// What attention keeps while it goes through positions, for one feature of the values.
pub ghost struct Running {
    /// Greatest score so far, or the floor.
    pub maximum: real,
    /// Sum of the weights, relative to the greatest score.
    pub weights: real,
    /// Sum of the weighted values, relative to the greatest score.
    pub output: real,
}

/// One more position: a greater score rescales the sums.
pub open spec fn step(e: spec_fn(real) -> real, before: Running, score: real, value: real) -> Running {
    let (maximum, rescale) = if score > before.maximum {
        (score, e(before.maximum - score))
    } else {
        (before.maximum, 1 as real)
    };
    let weight = e(score - maximum);
    Running {
        maximum,
        weights: before.weights * rescale + weight,
        output: before.output * rescale + value * weight,
    }
}

/// The running sums after the first `n` of some positions.
pub open spec fn running(
    e: spec_fn(real) -> real,
    floor: real,
    scores: Seq<real>,
    values: Seq<real>,
    positions: Seq<int>,
    n: nat,
) -> Running
    decreases n,
{
    if n == 0 {
        Running { maximum: floor, weights: 0 as real, output: 0 as real }
    } else {
        let position = positions[n - 1];
        step(
            e,
            running(e, floor, scores, values, positions, (n - 1) as nat),
            scores[position],
            values[position],
        )
    }
}

/// The exponential of each score.
pub open spec fn exponentials(e: spec_fn(real) -> real, scores: Seq<real>) -> Seq<real> {
    Seq::new(scores.len(), |p: int| e(scores[p]))
}

/// The value at each position times the exponential of its score.
pub open spec fn products(e: spec_fn(real) -> real, scores: Seq<real>, values: Seq<real>) -> Seq<
    real,
> {
    Seq::new(scores.len(), |p: int| values[p] * e(scores[p]))
}

/// `result` is attention by its definition: the values weighted by the exponentials of the scores,
/// over the sum of these.
pub open spec fn is_attended(
    e: spec_fn(real) -> real,
    scores: Seq<real>,
    values: Seq<real>,
    result: real,
) -> bool {
    result * sum(exponentials(e, scores)) == sum(products(e, scores, values))
}

proof fn lemma_step(e: spec_fn(real) -> real, before: Running, score: real, value: real)
    requires
        is_exponential(e),
    ensures
        ({
            let after = step(e, before, score, value);
            &&& after.weights * e(after.maximum) == before.weights * e(before.maximum) + e(score)
            &&& after.output * e(after.maximum) == before.output * e(before.maximum) + value * e(
                score,
            )
        }),
{
    let after = step(e, before, score, value);
    let m = after.maximum;
    assert((0 as real) < e(m) && (0 as real) < e(score) && (0 as real) < e(before.maximum));
    assert(divides(e, score, m));
    let rescale = if score > before.maximum {
        e(before.maximum - score)
    } else {
        1 as real
    };
    assert(rescale * e(m) == e(before.maximum)) by {
        assert(divides(e, before.maximum, score));
    }
    let (a, b, w, em) = (before.weights, before.output, e(score - m), e(m));
    lemma_distributive(a * rescale, w, em);
    lemma_associative(a, rescale, em);
    lemma_distributive(b * rescale, value * w, em);
    lemma_associative(b, rescale, em);
    lemma_associative(value, w, em);
}

/// Relative to the greatest score, the running sums are those of the exponentials and of the weighted
/// values at the positions so far.
pub proof fn lemma_running_sums(
    e: spec_fn(real) -> real,
    floor: real,
    scores: Seq<real>,
    values: Seq<real>,
    positions: Seq<int>,
    n: nat,
)
    requires
        is_exponential(e),
        n <= positions.len(),
        forall|k: int| 0 <= k < positions.len() ==> 0 <= #[trigger] positions[k] < scores.len(),
    ensures
        ({
            let state = running(e, floor, scores, values, positions, n);
            let taken = positions.take(n as int);
            &&& state.weights * e(state.maximum) == sum(picked(exponentials(e, scores), taken))
            &&& state.output * e(state.maximum) == sum(picked(products(e, scores, values), taken))
        }),
    decreases n,
{
    let taken = positions.take(n as int);
    if n == 0 {
        lemma_zero_times(e(floor));
    } else {
        let earlier = positions.take(n - 1);
        lemma_running_sums(e, floor, scores, values, positions, (n - 1) as nat);
        let position = positions[n - 1];
        lemma_step(
            e,
            running(e, floor, scores, values, positions, (n - 1) as nat),
            scores[position],
            values[position],
        );
        assert(picked(exponentials(e, scores), taken).drop_last() =~= picked(
            exponentials(e, scores),
            earlier,
        ));
        assert(picked(products(e, scores, values), taken).drop_last() =~= picked(
            products(e, scores, values),
            earlier,
        ));
    }
}

// The exponentials add up to more than zero.
proof fn lemma_total_positive(e: spec_fn(real) -> real, scores: Seq<real>)
    requires
        is_exponential(e),
        scores.len() > 0,
    ensures
        (0 as real) < sum(exponentials(e, scores)),
{
    assert forall|p: int| 0 <= p < scores.len() implies (0 as real) < #[trigger] exponentials(
        e,
        scores,
    )[p] by {
        assert((0 as real) < e(scores[p]));
    }
    lemma_sum_positive(exponentials(e, scores));
}

// Dividing the sums gives attention, whatever both are relative to.
proof fn lemma_quotient(
    e: spec_fn(real) -> real,
    scores: Seq<real>,
    values: Seq<real>,
    weights: real,
    output: real,
    unit: real,
    result: real,
)
    requires
        is_exponential(e),
        scores.len() > 0,
        (0 as real) < unit,
        weights * unit == sum(exponentials(e, scores)),
        output * unit == sum(products(e, scores, values)),
        result * weights == output,
    ensures
        (0 as real) < weights,
        is_attended(e, scores, values, result),
{
    lemma_total_positive(e, scores);
    lemma_positive_factor(weights, unit);
    lemma_associative(result, weights, unit);
}

/// Attention is determined by scores and values.
pub proof fn lemma_attended_unique(
    e: spec_fn(real) -> real,
    scores: Seq<real>,
    values: Seq<real>,
    a: real,
    b: real,
)
    requires
        is_exponential(e),
        scores.len() > 0,
        is_attended(e, scores, values, a),
        is_attended(e, scores, values, b),
    ensures
        a == b,
{
    lemma_total_positive(e, scores);
    lemma_cancel(a, b, sum(exponentials(e, scores)));
}

/// Attention is the sum of the values times the softmax of the scores: each weight is the share of
/// the exponential of a score in the sum of all.
pub proof fn lemma_attended_is_weighted(
    e: spec_fn(real) -> real,
    scores: Seq<real>,
    values: Seq<real>,
    weights: Seq<real>,
    result: real,
)
    requires
        is_exponential(e),
        scores.len() > 0,
        weights.len() == scores.len(),
        forall|p: int|
            0 <= p < scores.len() ==> #[trigger] weights[p] * sum(exponentials(e, scores)) == e(
                scores[p],
            ),
        is_attended(e, scores, values, result),
    ensures
        sum(weights) == 1 as real,
        result == sum(Seq::new(scores.len(), |p: int| weights[p] * values[p])),
{
    let all = sum(exponentials(e, scores));
    lemma_total_positive(e, scores);
    let shares = Seq::new(scores.len(), |p: int| weights[p] * values[p]);
    assert forall|p: int| 0 <= p < scores.len() implies #[trigger] shares[p] * all == products(
        e,
        scores,
        values,
    )[p] by {
        assert(weights[p] * all == e(scores[p]));
        lemma_associative(weights[p], values[p], all);
        lemma_associative(weights[p] * all, values[p], all);
    }
    lemma_sum_scaled(products(e, scores, values), shares, all);
    lemma_cancel(result, sum(shares), all);
    assert forall|p: int| 0 <= p < scores.len() implies #[trigger] weights[p] * all == exponentials(
        e,
        scores,
    )[p] by {}
    lemma_sum_scaled(exponentials(e, scores), weights, all);
    lemma_one_times(all);
    lemma_cancel(sum(weights), 1 as real, all);
}

/// Going through every position in turn gives attention by its definition: it is the quotient of the
/// running sums.
pub proof fn lemma_running_is_softmax(
    e: spec_fn(real) -> real,
    floor: real,
    scores: Seq<real>,
    values: Seq<real>,
    result: real,
)
    requires
        is_exponential(e),
        scores.len() > 0,
        ({
            let positions = strided(0, 1, scores.len() as int);
            let state = running(e, floor, scores, values, positions, scores.len());
            result * state.weights == state.output
        }),
    ensures
        ({
            let positions = strided(0, 1, scores.len() as int);
            (0 as real) < running(e, floor, scores, values, positions, scores.len()).weights
        }),
        is_attended(e, scores, values, result),
{
    let n = scores.len() as int;
    let positions = strided(0, 1, n);
    assert(strided_len(0, 1, n) == n);
    assert forall|k: int| 0 <= k < positions.len() implies 0 <= #[trigger] positions[k] < n by {
        lemma_strided_bound(0, 1, n, k);
    }
    lemma_running_sums(e, floor, scores, values, positions, scores.len());
    assert(positions.take(n) =~= positions);
    assert(picked(exponentials(e, scores), positions) =~= exponentials(e, scores));
    assert(picked(products(e, scores, values), positions) =~= products(e, scores, values));
    let state = running(e, floor, scores, values, positions, scores.len());
    assert((0 as real) < e(state.maximum));
    lemma_quotient(e, scores, values, state.weights, state.output, e(state.maximum), result);
}

/// What the eight shards of a context leave: shard `s` goes through every eighth position from `s` on.
pub open spec fn shard_states(
    e: spec_fn(real) -> real,
    floor: real,
    scores: Seq<real>,
    values: Seq<real>,
) -> Seq<Running> {
    Seq::new(
        8,
        |shard: int|
            running(
                e,
                floor,
                scores,
                values,
                strided(shard, 8, scores.len() as int),
                strided_len(shard, 8, scores.len() as int),
            ),
    )
}

/// What the merge makes of the weights of shards, relative to `maximum`.
pub open spec fn merged_weights(e: spec_fn(real) -> real, shards: Seq<Running>, maximum: real) -> Seq<
    real,
> {
    Seq::new(shards.len(), |i: int| shards[i].weights * e(shards[i].maximum - maximum))
}

/// What the merge makes of the outputs of shards, relative to `maximum`.
pub open spec fn merged_outputs(e: spec_fn(real) -> real, shards: Seq<Running>, maximum: real) -> Seq<
    real,
> {
    Seq::new(shards.len(), |i: int| shards[i].output * e(shards[i].maximum - maximum))
}

/// `result` is the quotient of the merged sums.
pub open spec fn is_merged(
    e: spec_fn(real) -> real,
    shards: Seq<Running>,
    maximum: real,
    result: real,
) -> bool {
    result * sum(merged_weights(e, shards, maximum)) == sum(merged_outputs(e, shards, maximum))
}

/// `maximum` is the greatest of the shards' maxima.
pub open spec fn is_greatest(shards: Seq<Running>, maximum: real) -> bool {
    &&& forall|i: int| 0 <= i < shards.len() ==> (#[trigger] shards[i]).maximum <= maximum
    &&& exists|i: int| 0 <= i < shards.len() && (#[trigger] shards[i]).maximum == maximum
}

/// Shards do not change the result: merging what they leave gives attention by its definition, as
/// going through every position in turn does.
pub proof fn lemma_merged_is_softmax(
    e: spec_fn(real) -> real,
    floor: real,
    scores: Seq<real>,
    values: Seq<real>,
    maximum: real,
    result: real,
)
    requires
        is_exponential(e),
        scores.len() > 0,
        is_merged(e, shard_states(e, floor, scores, values), maximum, result),
    ensures
        (0 as real) < sum(merged_weights(e, shard_states(e, floor, scores, values), maximum)),
        is_attended(e, scores, values, result),
{
    let n = scores.len() as int;
    let shards = shard_states(e, floor, scores, values);
    let (exps, prods) = (exponentials(e, scores), products(e, scores, values));
    let weights = shared_sums(exps, 8);
    let outputs = shared_sums(prods, 8);
    let unit = e(maximum);
    assert((0 as real) < unit);
    assert forall|i: int| 0 <= i < 8 implies #[trigger] merged_weights(e, shards, maximum)[i] * unit
        == weights[i] && merged_outputs(e, shards, maximum)[i] * unit == outputs[i] by {
        let positions = strided(i, 8, n);
        assert forall|k: int| 0 <= k < positions.len() implies 0 <= #[trigger] positions[k] < n by {
            lemma_strided_bound(i, 8, n, k);
        }
        lemma_running_sums(e, floor, scores, values, positions, positions.len());
        assert(positions.take(positions.len() as int) =~= positions);
        let (w, o, m) = (shards[i].weights, shards[i].output, shards[i].maximum);
        assert((0 as real) < e(m));
        let relative = e(m - maximum);
        assert(divides(e, m, maximum));
        lemma_associative(w, relative, unit);
        lemma_associative(o, relative, unit);
    }
    assert forall|i: int| 0 <= i < 8 implies #[trigger] merged_outputs(e, shards, maximum)[i] * unit
        == outputs[i] by {
        assert(merged_weights(e, shards, maximum)[i] * unit == weights[i]);
    }
    lemma_sum_scaled(weights, merged_weights(e, shards, maximum), unit);
    lemma_sum_scaled(outputs, merged_outputs(e, shards, maximum), unit);
    lemma_shared_sums(exps, 8);
    lemma_shared_sums(prods, 8);
    lemma_quotient(
        e,
        scores,
        values,
        sum(merged_weights(e, shards, maximum)),
        sum(merged_outputs(e, shards, maximum)),
        unit,
        result,
    );
}

/// One kernel and eight merged shards give the same result.
pub proof fn lemma_shards_agree(
    e: spec_fn(real) -> real,
    floor: real,
    scores: Seq<real>,
    values: Seq<real>,
    maximum: real,
    whole: real,
    merged: real,
)
    requires
        is_exponential(e),
        scores.len() > 0,
        ({
            let positions = strided(0, 1, scores.len() as int);
            let state = running(e, floor, scores, values, positions, scores.len());
            whole * state.weights == state.output
        }),
        is_merged(e, shard_states(e, floor, scores, values), maximum, merged),
    ensures
        whole == merged,
{
    lemma_running_is_softmax(e, floor, scores, values, whole);
    lemma_merged_is_softmax(e, floor, scores, values, maximum, merged);
    lemma_attended_unique(e, scores, values, whole, merged);
}

/// The merged result does not depend on the order of the shards.
pub proof fn lemma_shard_order_is_irrelevant(
    e: spec_fn(real) -> real,
    after: Seq<Running>,
    before: Seq<Running>,
    maximum: real,
    other: real,
    result: real,
)
    requires
        rearranged(after, before),
        is_greatest(after, maximum),
        is_greatest(before, other),
    ensures
        maximum == other,
        is_merged(e, after, maximum, result) <==> is_merged(e, before, other, result),
{
    let n = before.len();
    let (p, q) = choose|p: Seq<int>, q: Seq<int>|
        #[trigger] inverse_orders(p, q, n) && reordered(after, before, p);
    let i = choose|i: int| 0 <= i < after.len() && (#[trigger] after[i]).maximum == maximum;
    assert(after[i] == before[p[i]]);
    let j = choose|j: int| 0 <= j < n && (#[trigger] before[j]).maximum == other;
    assert(0 <= q[j] < n && p[q[j]] == j);
    assert(after[q[j]] == before[p[q[j]]]);
    assert forall|k: int| 0 <= k < after.len() implies #[trigger] merged_weights(e, after, maximum)[k]
        == merged_weights(e, before, maximum)[p[k]] by {
        assert(after[k] == before[p[k]]);
    }
    assert forall|k: int| 0 <= k < after.len() implies #[trigger] merged_outputs(e, after, maximum)[k]
        == merged_outputs(e, before, maximum)[p[k]] by {
        assert(after[k] == before[p[k]]);
    }
    lemma_sum_reordered(
        merged_weights(e, after, maximum),
        merged_weights(e, before, maximum),
        p,
        q,
    );
    lemma_sum_reordered(
        merged_outputs(e, after, maximum),
        merged_outputs(e, before, maximum),
        p,
        q,
    );
}

/// The scores of a head: scaled scalar products of its query with the key at every position.
pub open spec fn head_scores(
    scale: real,
    query: TensorInfo,
    query_data: Seq<real>,
    key: TensorInfo,
    key_data: Seq<real>,
    head: Head,
) -> Seq<real> {
    Seq::new(
        key.shape@[2] as nat,
        |p: int| scale * query_times_key(query, query_data, key, key_data, head, p),
    )
}

/// One feature of the values of a head, at every position.
pub open spec fn head_values(
    value: TensorInfo,
    value_data: Seq<real>,
    head: Head,
    feature: int,
) -> Seq<real> {
    Seq::new(
        value.shape@[2] as nat,
        |p: int|
            value_data[at4(value.strides@, head.batch as int, head.kv_head as int, p, feature)],
    )
}

/// What the lanes of a group leave after `n` turns, for feature `half` of lane `lane`: in every turn
/// they add up a score, which they scale, and the lane takes its value.
pub open spec fn lane_running(
    e: spec_fn(real) -> real,
    floor: real,
    scale: real,
    units: Seq<AttentionUnit>,
    lane: int,
    half: int,
    query_data: Seq<real>,
    key_data: Seq<real>,
    value_data: Seq<real>,
    n: nat,
) -> Running
    decreases n,
{
    if n == 0 {
        Running { maximum: floor, weights: 0 as real, output: 0 as real }
    } else {
        let pair = units[lane].values@[n - 1];
        step(
            e,
            lane_running(
                e,
                floor,
                scale,
                units,
                lane,
                half,
                query_data,
                key_data,
                value_data,
                (n - 1) as nat,
            ),
            scale * group_sum(units, query_data, key_data, n - 1),
            value_data[if half == 0 {
                pair.low as int
            } else {
                pair.high as int
            }],
        )
    }
}

/// The lanes of a group attend, for this head, to positions `start`, `start + step` and so on.
pub open spec fn group_attends(
    units: Seq<AttentionUnit>,
    head: Head,
    start: int,
    step: int,
    query: TensorInfo,
    key: TensorInfo,
    value: TensorInfo,
) -> bool {
    &&& units.len() == 32
    &&& forall|lane: int|
        0 <= lane < 32 ==> (#[trigger] units[lane]).attends_to(
            head,
            lane,
            start,
            step,
            query,
            key,
            value,
        )
}

/// The lanes of a group go through the scores and values of their head at their positions.
pub proof fn lemma_lanes_run(
    e: spec_fn(real) -> real,
    floor: real,
    scale: real,
    units: Seq<AttentionUnit>,
    lane: int,
    half: int,
    head: Head,
    start: int,
    step: int,
    query: TensorInfo,
    query_data: Seq<real>,
    key: TensorInfo,
    key_data: Seq<real>,
    value: TensorInfo,
    value_data: Seq<real>,
    n: nat,
)
    requires
        group_attends(units, head, start, step, query, key, value),
        key.shape@[2] == value.shape@[2],
        0 <= lane < 32,
        half == 0 || half == 1,
        0 <= start,
        0 < step,
        n <= strided_len(start, step, key.shape@[2] as int),
    ensures
        lane_running(e, floor, scale, units, lane, half, query_data, key_data, value_data, n)
            == running(
            e,
            floor,
            head_scores(scale, query, query_data, key, key_data, head),
            head_values(value, value_data, head, lane_feature(lane, half)),
            strided(start, step, key.shape@[2] as int),
            n,
        ),
    decreases n,
{
    if n > 0 {
        lemma_lanes_run(
            e,
            floor,
            scale,
            units,
            lane,
            half,
            head,
            start,
            step,
            query,
            query_data,
            key,
            key_data,
            value,
            value_data,
            (n - 1) as nat,
        );
        lemma_lanes_multiply(
            units,
            head,
            start,
            step,
            query,
            query_data,
            key,
            key_data,
            value,
            n - 1,
        );
        lemma_strided_bound(start, step, key.shape@[2] as int, n - 1);
        let position = strided(start, step, key.shape@[2] as int)[n - 1];
        assert(lane_pair(
            units[lane].values@[n - 1],
            value,
            head.batch as int,
            head.kv_head as int,
            position,
            lane,
        ));
    }
}

/// The kernel for short contexts computes attention: what a lane writes for a feature, the quotient of
/// its sums, is the softmax of the scores of the head applied to that feature of the values.
pub proof fn lemma_short_attention(
    e: spec_fn(real) -> real,
    floor: real,
    scale: real,
    units: Seq<AttentionUnit>,
    lane: int,
    half: int,
    head: Head,
    query: TensorInfo,
    query_data: Seq<real>,
    key: TensorInfo,
    key_data: Seq<real>,
    value: TensorInfo,
    value_data: Seq<real>,
    result: real,
)
    requires
        is_exponential(e),
        group_attends(units, head, 0, 1, query, key, value),
        key.shape@[2] == value.shape@[2],
        key.shape@[2] > 0,
        0 <= lane < 32,
        half == 0 || half == 1,
        ({
            let state = lane_running(
                e,
                floor,
                scale,
                units,
                lane,
                half,
                query_data,
                key_data,
                value_data,
                key.shape@[2] as nat,
            );
            result * state.weights == state.output
        }),
    ensures
        is_attended(
            e,
            head_scores(scale, query, query_data, key, key_data, head),
            head_values(value, value_data, head, lane_feature(lane, half)),
            result,
        ),
{
    let length = key.shape@[2] as int;
    assert(strided_len(0, 1, length) == length);
    lemma_lanes_run(
        e,
        floor,
        scale,
        units,
        lane,
        half,
        head,
        0,
        1,
        query,
        query_data,
        key,
        key_data,
        value,
        value_data,
        length as nat,
    );
    lemma_running_is_softmax(
        e,
        floor,
        head_scores(scale, query, query_data, key, key_data, head),
        head_values(value, value_data, head, lane_feature(lane, half)),
        result,
    );
}

/// The kernels for long contexts compute attention too: what a lane of the merge writes for a feature
/// is the softmax of the scores of the head applied to that feature of the values.
pub proof fn lemma_long_attention(
    e: spec_fn(real) -> real,
    floor: real,
    scale: real,
    groups: Seq<Seq<AttentionUnit>>,
    lane: int,
    half: int,
    head: Head,
    query: TensorInfo,
    query_data: Seq<real>,
    key: TensorInfo,
    key_data: Seq<real>,
    value: TensorInfo,
    value_data: Seq<real>,
    shards: Seq<Running>,
    maximum: real,
    result: real,
)
    requires
        is_exponential(e),
        groups.len() == 8,
        shards.len() == 8,
        forall|s: int|
            0 <= s < 8 ==> group_attends(#[trigger] groups[s], head, s, 8, query, key, value),
        key.shape@[2] == value.shape@[2],
        key.shape@[2] > 0,
        0 <= lane < 32,
        half == 0 || half == 1,
        forall|s: int|
            0 <= s < 8 ==> #[trigger] shards[s] == lane_running(
                e,
                floor,
                scale,
                groups[s],
                lane,
                half,
                query_data,
                key_data,
                value_data,
                strided_len(s, 8, key.shape@[2] as int),
            ),
        is_merged(e, shards, maximum, result),
    ensures
        is_attended(
            e,
            head_scores(scale, query, query_data, key, key_data, head),
            head_values(value, value_data, head, lane_feature(lane, half)),
            result,
        ),
{
    let scores = head_scores(scale, query, query_data, key, key_data, head);
    let values = head_values(value, value_data, head, lane_feature(lane, half));
    let length = key.shape@[2] as int;
    assert forall|s: int| 0 <= s < 8 implies #[trigger] shards[s] == shard_states(
        e,
        floor,
        scores,
        values,
    )[s] by {
        assert(group_attends(groups[s], head, s, 8, query, key, value));
        lemma_lanes_run(
            e,
            floor,
            scale,
            groups[s],
            lane,
            half,
            head,
            s,
            8,
            query,
            query_data,
            key,
            key_data,
            value,
            value_data,
            strided_len(s, 8, length),
        );
    }
    assert(shards =~= shard_states(e, floor, scores, values));
    lemma_merged_is_softmax(e, floor, scores, values, maximum, result);
}

/// Attention from compact key and value heads is attention from heads repeated for every query head:
/// scores and values are the same, and so is the result.
pub proof fn lemma_repeated_heads_attend_alike(
    e: spec_fn(real) -> real,
    scale: real,
    cube: int,
    feature: int,
    query: TensorInfo,
    query_data: Seq<real>,
    key: TensorInfo,
    key_data: Seq<real>,
    value: TensorInfo,
    value_data: Seq<real>,
    repeated_key: TensorInfo,
    repeated_key_data: Seq<real>,
    repeated_value: TensorInfo,
    repeated_value_data: Seq<real>,
    result: real,
)
    requires
        attends(query, key, value),
        attends(query, repeated_key, repeated_value),
        0 <= cube < query.shape@[0] * query.shape@[1],
        0 <= feature < HEAD_DIM,
        repeats_heads(repeated_key, repeated_key_data, key, key_data, query.shape@[1] as int),
        repeats_heads(
            repeated_value,
            repeated_value_data,
            value,
            value_data,
            query.shape@[1] as int,
        ),
    ensures
        ({
            let head = head_of(cube, query.shape@, key.shape@);
            let own = head_of(cube, query.shape@, repeated_key.shape@);
            is_attended(
                e,
                head_scores(scale, query, query_data, key, key_data, head),
                head_values(value, value_data, head, feature),
                result,
            ) <==> is_attended(
                e,
                head_scores(scale, query, query_data, repeated_key, repeated_key_data, own),
                head_values(repeated_value, repeated_value_data, own, feature),
                result,
            )
        }),
{
    let head = head_of(cube, query.shape@, key.shape@);
    let own = head_of(cube, query.shape@, repeated_key.shape@);
    lemma_own_head(cube, query, key, value);
    lemma_own_head(cube, query, repeated_key, repeated_value);
    let (batch, h) = (head.batch as int, head.query_head as int);
    assert(own.kv_head == h) by {
        lemma_shared_by_one(h, query.shape@[1] as int);
    }
    let scores = head_scores(scale, query, query_data, key, key_data, head);
    let other = head_scores(scale, query, query_data, repeated_key, repeated_key_data, own);
    assert forall|p: int| 0 <= p < scores.len() implies scores[p] == other[p] by {
        let a = Seq::new(
            64,
            |f: int|
                query_data[at4(query.strides@, batch, h, 0, f)] * key_data[at4(
                    key.strides@,
                    batch,
                    head.kv_head as int,
                    p,
                    f,
                )],
        );
        let b = Seq::new(
            64,
            |f: int|
                query_data[at4(query.strides@, batch, h, 0, f)] * repeated_key_data[at4(
                    repeated_key.strides@,
                    batch,
                    h,
                    p,
                    f,
                )],
        );
        assert(a =~= b);
    }
    assert(scores =~= other);
    assert(head_values(value, value_data, head, feature) =~= head_values(
        repeated_value,
        repeated_value_data,
        own,
        feature,
    ));
}

} // verus!
