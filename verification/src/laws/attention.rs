//! Attention: every head is computed, over every position of its context.

use vstd::prelude::*;

use crate::attention::{
    attention_head, attention_merge_unit, attention_partial_unit, attention_short_unit, head_of,
    lane_addresses, lemma_cubes_are_heads, lemma_running_maximum, merge_maximum, softmax_maximum,
    softmax_step, AttentionUnit, Head, LanePair, MergeSlots, ShardSlots,
};
use crate::backend::{CubeBackend, MetalTransformerBackend};
use crate::bits::{is_nan, order_key, pattern_greater};
use crate::laws::counts::{has_room, is_large, lemma_grouped_count, lemma_small_tensors_fit};
use crate::laws::rows::writes_alike;
use crate::ops::grouped_query_attention_decode;
use crate::plan::{AttentionPlan, Kernel, Plan};
use crate::reject::Rejection;
use crate::rules::{attention_planned, partial_shape};
use crate::sampling::{lemma_winner_is_first_maximum, winner};
use crate::scheme::DType;
use crate::shape::{lemma_pair, lemma_pair_bound, lemma_strided_partition, strided, strided_len};
use crate::tensor::{row_major, TensorInfo};

verus! {

/// One of the three operands lies elsewhere.
pub open spec fn apart(query: TensorInfo, key: TensorInfo, value: TensorInfo) -> bool {
    query.device != key.device || query.device != value.device
}

/// Batches and features of the operands differ, or there is more than one token.
pub open spec fn shapes_differ(q: Seq<usize>, k: Seq<usize>, v: Seq<usize>) -> bool {
    ||| q[0] != k[0]
    ||| k != v
    ||| q[2] != 1
    ||| q[3] != 64
    ||| k[3] != 64
}

/// The intermediate results of a long context: for each batch, query head and eighth of the context,
/// its maximum, its sum and its features.
pub open spec fn holds_eighths(partials: TensorInfo, query: TensorInfo) -> bool {
    &&& partials.device == query.device
    &&& partials.dtype == DType::F32
    &&& partials.shape@ == seq![query.shape@[0], query.shape@[1], 8usize, 66usize]
    &&& row_major(partials.strides@, partials.shape@)
}

/// Attention over fewer than 128 positions has one group per batch and query head, and attention over
/// more positions eight of them and one more to merge; it is refused for these reasons only.
pub open spec fn attention_served(
    answer: Result<AttentionPlan, Rejection>,
    query: TensorInfo,
    key: TensorInfo,
    value: TensorInfo,
) -> bool {
    let (q, k, v) = (query.shape@, key.shape@, value.shape@);
    let heads = q[0] * q[1];
    let joined = !apart(query, key, value) && (query.dtype is QFloat || (query.dtype == key.dtype
        && query.dtype == value.dtype));
    let ranks = q.len() == 4 && k.len() == 4 && v.len() == 4;
    let fitting = joined && ranks && !shapes_differ(q, k, v);
    let accepted = fitting && k[2] > 0 && k[1] > 0 && q[1] as int % k[1] as int == 0;
    match answer {
        Ok(AttentionPlan::Short(plan)) => {
            &&& accepted
            &&& k[2] < 128
            &&& plan.kernel == Kernel::AttentionShort
            &&& plan.launch.cubes == heads % 0x1_0000_0000
            &&& heads < 0x1_0000_0000 ==> plan.launch.cubes == heads
            &&& plan.launch.threads == 32
            &&& writes_alike(plan, query)
        },
        Ok(AttentionPlan::Long { partial, merge }) => {
            &&& accepted
            &&& k[2] >= 128
            &&& partial.kernel == Kernel::AttentionPartial
            &&& partial.launch.cubes == (heads * 8) % 0x1_0000_0000
            &&& heads * 8 < 0x1_0000_0000 ==> partial.launch.cubes == heads * 8
            &&& partial.launch.threads == 32
            &&& holds_eighths(partial.output.tensor, query)
            &&& has_room(partial.output)
            &&& merge.kernel == Kernel::AttentionMerge
            &&& merge.launch.cubes == heads % 0x1_0000_0000
            &&& heads < 0x1_0000_0000 ==> merge.launch.cubes == heads
            &&& merge.launch.threads == 32
            &&& writes_alike(merge, query)
        },
        Err(Rejection::DeviceMismatch) => apart(query, key, value),
        Err(Rejection::DTypeMismatch) => !apart(query, key, value) && (query.dtype != key.dtype
            || query.dtype != value.dtype),
        Err(Rejection::WrongRank) => joined && !ranks,
        Err(Rejection::ShapeMismatch) => joined && ranks && shapes_differ(q, k, v),
        Err(Rejection::EmptyDimension) => fitting && (k[2] == 0 || k[1] == 0),
        Err(Rejection::Misaligned) => fitting && k[2] > 0 && k[1] > 0 && q[1] as int
            % k[1] as int != 0,
        Err(Rejection::TooLarge) => accepted && (is_large(q, query.dtype) || (k[2] >= 128 && is_large(
            seq![q[0], q[1], 8usize, 66usize],
            DType::F32,
        ))),
        Err(_) => false,
    }
}

proof fn lemma_attention(
    answer: Result<AttentionPlan, Rejection>,
    query: TensorInfo,
    key: TensorInfo,
    value: TensorInfo,
)
    requires
        attention_planned(answer, query, key, value),
    ensures
        attention_served(answer, query, key, value),
{
    let q = query.shape@;
    let heads = q[0] * q[1];
    assert(heads >= 0) by (nonlinear_arith)
        requires
            heads == q[0] * q[1],
    ;
    lemma_grouped_count(heads);
    lemma_grouped_count(heads * 8);
    assert(partial_shape(q) =~= seq![q[0], q[1], 8usize, 66usize]);
    if answer is Err {
        if !is_large(q, query.dtype) {
            lemma_small_tensors_fit(q, query.dtype);
        }
        if !is_large(partial_shape(q), DType::F32) {
            lemma_small_tensors_fit(partial_shape(q), DType::F32);
        }
    }
}

/// Attention by the fused kernels has a group for every head, in each launch.
pub proof fn lemma_fused_attention(
    query: TensorInfo,
    key: TensorInfo,
    value: TensorInfo,
    answer: Result<AttentionPlan, Rejection>,
)
    requires
        call_ensures(
            CubeBackend::fused_grouped_query_attention_decode,
            (&query, &key, &value),
            answer,
        ),
    ensures
        attention_served(answer, query, key, value),
{
    lemma_attention(answer, query, key, value);
}

/// Attention has a group for every head, in each launch.
pub proof fn lemma_attention_decode(
    query: TensorInfo,
    key: TensorInfo,
    value: TensorInfo,
    answer: Result<AttentionPlan, Rejection>,
)
    requires
        call_ensures(grouped_query_attention_decode, (&query, &key, &value), answer),
    ensures
        attention_served(answer, query, key, value),
{
    lemma_attention(answer, query, key, value);
}

/// The addresses of features `lane` and `lane + 32` at one position of one head.
pub open spec fn reads_features(
    pair: LanePair,
    strides: Seq<usize>,
    batch: int,
    head: int,
    position: int,
    lane: int,
) -> bool {
    let row = batch * strides[0] + head * strides[1] + position * strides[2];
    &&& pair.low == row + lane * strides[3]
    &&& pair.high == row + (lane + 32) * strides[3]
}

/// The lane reads its key and value features of a head at a position, in turn `position / step`.
pub open spec fn reads_position(
    unit: AttentionUnit,
    key: TensorInfo,
    value: TensorInfo,
    batch: int,
    head: int,
    position: int,
    lane: int,
    step: int,
) -> bool {
    let turn = position / step;
    &&& 0 <= turn < unit.positions@.len()
    &&& unit.positions@[turn] == position
    &&& reads_features(unit.keys@[turn], key.strides@, batch, head, position, lane)
    &&& reads_features(unit.values@[turn], value.strides@, batch, head, position, lane)
}

/// The lane reads its query features and, at the positions `first`, `first + step` and so on of the
/// context, its key and value features of the head that the query head shares: head
/// `query_head / (query heads / key heads)`.
pub open spec fn reads_context(
    unit: AttentionUnit,
    query: TensorInfo,
    key: TensorInfo,
    value: TensorInfo,
    batch: int,
    query_head: int,
    lane: int,
    first: int,
    step: int,
) -> bool {
    let shared = query_head / (query.shape@[1] as int / key.shape@[1] as int);
    &&& reads_features(unit.query, query.strides@, batch, query_head, 0, lane)
    &&& unit.keys@.len() == unit.positions@.len()
    &&& unit.values@.len() == unit.positions@.len()
    &&& forall|position: int|
        0 <= position < key.shape@[2] && position % step == first ==> #[trigger] reads_position(
            unit,
            key,
            value,
            batch,
            shared,
            position,
            lane,
            step,
        )
    &&& forall|turn: int|
        0 <= turn < unit.positions@.len() ==> (#[trigger] unit.positions@[turn]) < key.shape@[2]
            && unit.positions@[turn] == first + turn * step
}

// What a lane that attends to some positions reads.
proof fn lemma_reads_context(
    unit: AttentionUnit,
    query: TensorInfo,
    key: TensorInfo,
    value: TensorInfo,
    batch: int,
    query_head: int,
    lane: int,
    first: int,
    step: int,
)
    requires
        query.shape@.len() == 4,
        0 <= batch < query.shape@[0],
        0 <= query_head < query.shape@[1],
        key.shape@[1] > 0,
        query.shape@[1] as int % key.shape@[1] as int == 0,
        0 <= first < step,
        unit.attends_to(
            head_of(batch * query.shape@[1] + query_head, query.shape@, key.shape@),
            lane,
            first,
            step,
            query,
            key,
            value,
        ),
    ensures
        reads_context(unit, query, key, value, batch, query_head, lane, first, step),
{
    let (heads, shared_heads, length) = (
        query.shape@[1] as int,
        key.shape@[1] as int,
        key.shape@[2] as int,
    );
    lemma_cubes_are_heads(batch, query_head, query.shape@[0] as int, heads);
    let head = head_of(batch * heads + query_head, query.shape@, key.shape@);
    let repeats = heads / shared_heads;
    vstd::arithmetic::div_mod::lemma_fundamental_div_mod(heads, shared_heads);
    assert(repeats > 0) by (nonlinear_arith)
        requires
            heads == shared_heads * repeats,
            heads > 0,
            shared_heads > 0,
    ;
    crate::shape::lemma_split(query_head, shared_heads, repeats);
    assert(head.kv_head == query_head / repeats);
    assert forall|position: int| 0 <= position < length && position % step
        == first implies #[trigger] reads_position(
        unit,
        key,
        value,
        batch,
        query_head / repeats,
        position,
        lane,
        step,
    ) by {
        let turn = position / step;
        lemma_strided_partition(step, length, position);
        assert(unit.positions@[turn] == strided(first, step, length)[turn]);
        assert(crate::attention::lane_pair(
            unit.keys@[turn],
            key,
            batch,
            query_head / repeats,
            position,
            lane,
        ));
        assert(crate::attention::lane_pair(
            unit.values@[turn],
            value,
            batch,
            query_head / repeats,
            position,
            lane,
        ));
    }
    assert forall|turn: int| 0 <= turn < unit.positions@.len() implies (
    #[trigger] unit.positions@[turn]) < length && unit.positions@[turn] == first + turn * step by {
        crate::shape::lemma_strided_bound(first, step, length, turn);
        assert(unit.positions@[turn] == strided(first, step, length)[turn]);
    }
    assert(reads_features(unit.query, query.strides@, batch, query_head, 0, lane));
    assert(query_head / repeats == query_head / (query.shape@[1] as int / key.shape@[1] as int));
}

/// Over a short context every output feature is written by a lane of the planned launch, which
/// attends to every position in order.
pub proof fn lemma_short_feature_written(
    query: TensorInfo,
    key: TensorInfo,
    value: TensorInfo,
    plan: Plan,
    batch: int,
    query_head: int,
    feature: int,
    cube: usize,
    lane: usize,
    output: TensorInfo,
    unit: (AttentionUnit, LanePair),
)
    requires
        call_ensures(
            grouped_query_attention_decode,
            (&query, &key, &value),
            Ok::<AttentionPlan, Rejection>(AttentionPlan::Short(plan)),
        ),
        query.shape@[0] * query.shape@[1] < 0x1_0000_0000,
        0 <= batch < query.shape@[0],
        0 <= query_head < query.shape@[1],
        0 <= feature < query.shape@[3],
        cube == batch * query.shape@[1] + query_head,
        lane == feature % 32,
        output == plan.output.tensor,
        call_ensures(attention_short_unit, (cube, lane, &query, &key, &value, &output), unit),
    ensures
        cube < plan.launch.cubes,
        lane < plan.launch.threads,
        reads_context(unit.0, query, key, value, batch, query_head, lane as int, 0, 1),
        unit.0.positions@.len() == key.shape@[2],
        reads_features(unit.1, output.strides@, batch, query_head, 0, lane as int),
        ({
            let row = batch * output.strides@[0] + query_head * output.strides@[1];
            let written = if feature < 32 {
                unit.1.low
            } else {
                unit.1.high
            };
            written == row + feature * output.strides@[3]
        }),
{
    lemma_attention(Ok(AttentionPlan::Short(plan)), query, key, value);
    lemma_cubes_are_heads(batch, query_head, query.shape@[0] as int, query.shape@[1] as int);
    lemma_reads_context(unit.0, query, key, value, batch, query_head, lane as int, 0, 1);
    lemma_own_output(query, key, value, batch, query_head);
    assert(0 * output.strides@[2] == 0) by (nonlinear_arith);
    let length = key.shape@[2] as int;
    assert((length - 1) / 1 == length - 1 && (length - 1) % 1 == 0);
    assert(unit.0.positions@.len() == strided_len(0, 1, length));
}

// The head of a cube has the batch and the query head that the cube stands for.
proof fn lemma_own_output(
    query: TensorInfo,
    key: TensorInfo,
    value: TensorInfo,
    batch: int,
    query_head: int,
)
    requires
        query.shape@.len() == 4,
        0 <= batch < query.shape@[0],
        0 <= query_head < query.shape@[1],
    ensures
        ({
            let head = head_of(batch * query.shape@[1] + query_head, query.shape@, key.shape@);
            head.batch == batch && head.query_head == query_head
        }),
{
    lemma_cubes_are_heads(batch, query_head, query.shape@[0] as int, query.shape@[1] as int);
}

/// Over a long context each eighth of the positions of every head has a group of the planned launch:
/// eighth `shard` takes the positions whose remainder by eight it is, and its lanes write the row of
/// that head and eighth.
pub proof fn lemma_eighth_computed(
    query: TensorInfo,
    key: TensorInfo,
    value: TensorInfo,
    partial: Plan,
    merge: Plan,
    batch: int,
    query_head: int,
    shard: int,
    cube: usize,
    lane: usize,
    partials: TensorInfo,
    unit: (AttentionUnit, ShardSlots),
)
    requires
        call_ensures(
            grouped_query_attention_decode,
            (&query, &key, &value),
            Ok::<AttentionPlan, Rejection>(AttentionPlan::Long { partial, merge }),
        ),
        query.shape@[0] * query.shape@[1] * 8 < 0x1_0000_0000,
        0 <= batch < query.shape@[0],
        0 <= query_head < query.shape@[1],
        0 <= shard < 8,
        lane < 32,
        cube == (batch * query.shape@[1] + query_head) * 8 + shard,
        partials == partial.output.tensor,
        call_ensures(attention_partial_unit, (cube, lane, &query, &key, &value, &partials), unit),
    ensures
        cube < partial.launch.cubes,
        lane < partial.launch.threads,
        reads_context(unit.0, query, key, value, batch, query_head, lane as int, shard, 8),
        ({
            let s = partials.strides@;
            let row = batch * s[0] + query_head * s[1] + shard * s[2];
            &&& unit.1.features.low == row + (lane + 2) * s[3]
            &&& unit.1.features.high == row + (lane + 34) * s[3]
            &&& lane == 0 ==> unit.1.totals == Some(
                LanePair { low: row as usize, high: (row + s[3]) as usize },
            )
            &&& lane != 0 ==> unit.1.totals is None
        }),
{
    lemma_attention(Ok(AttentionPlan::Long { partial, merge }), query, key, value);
    let heads = query.shape@[1] as int;
    let group = batch * heads + query_head;
    lemma_cubes_are_heads(batch, query_head, query.shape@[0] as int, heads);
    lemma_pair(group, 8, shard);
    lemma_pair_bound(group, query.shape@[0] * heads, 8, shard);
    lemma_reads_context(unit.0, query, key, value, batch, query_head, lane as int, shard, 8);
    lemma_own_output(query, key, value, batch, query_head);
    let s = partials.strides@;
    assert(0 * s[3] == 0 && 1 * s[3] == s[3]) by (nonlinear_arith);
}

/// Over a long context every output feature is written by a lane of the merging launch, which reads
/// the maximum, the sum and that feature of every eighth of its head.
pub proof fn lemma_merged_feature_written(
    query: TensorInfo,
    key: TensorInfo,
    value: TensorInfo,
    partial: Plan,
    merge: Plan,
    batch: int,
    query_head: int,
    feature: int,
    cube: usize,
    lane: usize,
    partials: TensorInfo,
    output: TensorInfo,
    unit: (Vec<MergeSlots>, LanePair),
)
    requires
        call_ensures(
            grouped_query_attention_decode,
            (&query, &key, &value),
            Ok::<AttentionPlan, Rejection>(AttentionPlan::Long { partial, merge }),
        ),
        query.shape@[0] * query.shape@[1] < 0x1_0000_0000,
        0 <= batch < query.shape@[0],
        0 <= query_head < query.shape@[1],
        0 <= feature < query.shape@[3],
        cube == batch * query.shape@[1] + query_head,
        lane == feature % 32,
        partials == partial.output.tensor,
        output == merge.output.tensor,
        call_ensures(attention_merge_unit, (cube, lane, &partials, &output), unit),
    ensures
        cube < merge.launch.cubes,
        lane < merge.launch.threads,
        unit.0@.len() == 8,
        forall|shard: int|
            #![trigger unit.0@[shard]]
            0 <= shard < 8 ==> {
                let s = partials.strides@;
                let row = batch * s[0] + query_head * s[1] + shard * s[2];
                &&& unit.0@[shard].maximum == row
                &&& unit.0@[shard].sum == row + s[3]
                &&& (if feature < 32 {
                    unit.0@[shard].features.low
                } else {
                    unit.0@[shard].features.high
                }) == row + (feature + 2) * s[3]
            },
        ({
            let row = batch * output.strides@[0] + query_head * output.strides@[1];
            let written = if feature < 32 {
                unit.1.low
            } else {
                unit.1.high
            };
            written == row + feature * output.strides@[3]
        }),
{
    lemma_attention(Ok(AttentionPlan::Long { partial, merge }), query, key, value);
    lemma_cubes_are_heads(batch, query_head, query.shape@[0] as int, query.shape@[1] as int);
    let s = partials.strides@;
    assert(0 * s[3] == 0 && 1 * s[3] == s[3] && 0 * output.strides@[2] == 0) by (nonlinear_arith);
}

/// Cube `batch * query heads + query head` has that head, and the key and value head that it shares
/// with its neighbours.
pub proof fn lemma_head_of_cube(
    batch: int,
    query_head: int,
    batches: usize,
    query_heads: usize,
    shared_heads: usize,
    cube: usize,
    head: Head,
)
    requires
        0 <= batch < batches,
        0 <= query_head < query_heads,
        shared_heads > 0,
        cube == batch * query_heads + query_head,
        call_ensures(attention_head, (cube, batches, query_heads, shared_heads), head),
    ensures
        head.batch == batch,
        head.query_head == query_head,
        head.kv_head == query_head / (query_heads as int / shared_heads as int),
{
    lemma_cubes_are_heads(batch, query_head, batches as int, query_heads as int);
}

/// A lane has the features of its own number and thirty-two above.
pub proof fn lemma_lane_features(
    tensor: TensorInfo,
    batch: usize,
    head: usize,
    position: usize,
    lane: usize,
    pair: LanePair,
)
    requires
        call_ensures(lane_addresses, (&tensor, batch, head, position, lane), pair),
    ensures
        reads_features(
            pair,
            tensor.strides@,
            batch as int,
            head as int,
            position as int,
            lane as int,
        ),
{
}

/// A score that is greater becomes the maximum, and only then are the sums rescaled; a NaN never does.
pub proof fn lemma_maximum_steps(maximum: u32, score: u32, step: (u32, bool), above: bool)
    requires
        call_ensures(softmax_step, (maximum, score), step),
        call_ensures(pattern_greater, (score, maximum), above),
    ensures
        above ==> step == (score, true),
        !above ==> step == (maximum, false),
{
}

/// Without a NaN the running maximum is the greatest score, or the floor where none is greater.
pub proof fn lemma_greatest_score(scores: Vec<u32>, maximum: u32, i: int)
    requires
        call_ensures(softmax_maximum, (&scores,), maximum),
        forall|j: int| 0 <= j < scores@.len() ==> !is_nan(#[trigger] scores@[j]),
        0 <= i < scores@.len(),
    ensures
        !is_nan(maximum),
        order_key(scores@[i]) <= order_key(maximum),
        order_key(maximum) >= -2137108966,
        maximum == 0xff61_b1e6 || exists|j: int|
            0 <= j < scores@.len() && #[trigger] scores@[j] == maximum,
{
    lemma_running_maximum(scores@, scores@.len());
    assert(!is_nan(scores@[i]));
}

/// Without a NaN the merged maximum is the greatest of the eight.
pub proof fn lemma_greatest_eighth(maxima: Vec<u32>, maximum: u32, i: int)
    requires
        maxima@.len() == 8,
        call_ensures(merge_maximum, (&maxima,), maximum),
        forall|j: int| 0 <= j < 8 ==> !is_nan(#[trigger] maxima@[j]),
        0 <= i < 8,
    ensures
        order_key(maxima@[i]) <= order_key(maximum),
        exists|j: int| 0 <= j < 8 && #[trigger] maxima@[j] == maximum,
{
    lemma_winner_is_first_maximum(maxima@, 8, i);
    assert(maxima@[winner(maxima@, 8)] == maximum);
}

} // verus!
