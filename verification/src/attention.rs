//! Single-token grouped-query attention: what each lane reads and writes, and how maxima of shards
//! become the maximum of the context.

use vstd::prelude::*;

use crate::exact::{lemma_sum_added, lemma_sum_joined, sum};
use crate::rules::{HEAD_DIM, SHARDS, SHARD_WIDTH};
use crate::bits::{greater, is_nan, order_key, pattern_greater};
use crate::ranking::FLOOR_KEY;
use crate::sampling::{lemma_winner_is_first_maximum, winner};
use crate::shape::{
    lemma_pair, lemma_pair_bound, lemma_split, lemma_strided_bound, lemma_strided_partition, strided,
    strided_len, strided_positions,
};
use crate::tensor::{at4, TensorInfo};

verus! {

/// Pattern of the value that every running maximum starts from.
pub const FLOOR_BITS: u32 = 0xff61_b1e6;

/// The head that a cube computes.
#[derive(Clone, Copy, Debug, PartialEq, Eq, Structural)]
pub struct Head {
    /// Batch.
    pub batch: usize,
    /// Query head.
    pub query_head: usize,
    /// Key and value head that the query head attends to.
    pub kv_head: usize,
}

/// The key and value head of a query head: consecutive query heads share one.
pub open spec fn shared_head(query_head: int, query_heads: int, kv_heads: int) -> int {
    query_head / (query_heads / kv_heads)
}

/// The operands of one attention call fit together.
pub open spec fn attends(query: TensorInfo, key: TensorInfo, value: TensorInfo) -> bool {
    let (q, k, v) = (query.shape@, key.shape@, value.shape@);
    &&& query.addressable() && key.addressable() && value.addressable()
    &&& q.len() == 4 && k.len() == 4 && v.len() == 4
    &&& q[0] == k[0] && k == v
    &&& q[2] == 1 && q[3] == HEAD_DIM && k[3] == HEAD_DIM
    &&& k[2] > 0 && k[1] > 0
    &&& q[1] as int % k[1] as int == 0
}

/// The head that cube `cube` computes.
pub fn attention_head(cube: usize, batches: usize, query_heads: usize, kv_heads: usize) -> (head:
    Head)
    requires
        cube < batches * query_heads,
        kv_heads > 0,
        query_heads as int % kv_heads as int == 0,
    ensures
        head.batch == cube as int / query_heads as int,
        head.query_head == cube as int % query_heads as int,
        head.kv_head == shared_head(head.query_head as int, query_heads as int, kv_heads as int),
        head.batch < batches,
        head.query_head < query_heads,
        head.kv_head < kv_heads,
{
    proof {
        lemma_heads(cube as int, batches as int, query_heads as int, kv_heads as int);
    }
    let query_head: usize = cube % query_heads;
    let batch: usize = cube / query_heads;
    let repeats: usize = query_heads / kv_heads;
    Head { batch, query_head, kv_head: query_head / repeats }
}

proof fn lemma_heads(cube: int, batches: int, query_heads: int, kv_heads: int)
    requires
        0 <= cube < batches * query_heads,
        kv_heads > 0,
        query_heads >= 0,
        query_heads % kv_heads == 0,
    ensures
        query_heads > 0,
        query_heads / kv_heads > 0,
        0 <= cube / query_heads < batches,
        0 <= cube % query_heads < query_heads,
        0 <= shared_head(cube % query_heads, query_heads, kv_heads) < kv_heads,
{
    assert(query_heads > 0) by (nonlinear_arith)
        requires
            0 <= cube < batches * query_heads,
            query_heads >= 0,
    ;
    lemma_split(cube, batches, query_heads);
    vstd::arithmetic::div_mod::lemma_fundamental_div_mod(query_heads, kv_heads);
    let repeats = query_heads / kv_heads;
    assert(query_heads == kv_heads * repeats);
    assert(repeats > 0) by (nonlinear_arith)
        requires
            query_heads == kv_heads * repeats,
            query_heads > 0,
            kv_heads > 0,
    ;
    lemma_split(cube % query_heads, kv_heads, repeats);
}

/// Every batch and query head has one cube.
pub proof fn lemma_cubes_are_heads(batch: int, query_head: int, batches: int, query_heads: int)
    requires
        0 <= batch < batches,
        0 <= query_head < query_heads,
    ensures
        ({
            let cube = batch * query_heads + query_head;
            &&& 0 <= cube < batches * query_heads
            &&& cube / query_heads == batch
            &&& cube % query_heads == query_head
        }),
{
    lemma_pair(batch, query_heads, query_head);
    lemma_pair_bound(batch, batches, query_heads, query_head);
}

/// Each key and value head serves the same number of consecutive query heads.
pub proof fn lemma_heads_grouped(
    kv_head: int,
    place: int,
    query_head: int,
    query_heads: int,
    kv_heads: int,
)
    requires
        kv_heads > 0,
        query_heads > 0,
        query_heads % kv_heads == 0,
        0 <= kv_head < kv_heads,
        0 <= place < query_heads / kv_heads,
        0 <= query_head < query_heads,
    ensures
        ({
            let repeats = query_heads / kv_heads;
            &&& 0 <= kv_head * repeats + place < query_heads
            &&& shared_head(kv_head * repeats + place, query_heads, kv_heads) == kv_head
            &&& shared_head(query_head, query_heads, kv_heads) == kv_head <==> kv_head * repeats
                <= query_head < kv_head * repeats + repeats
        }),
{
    let repeats = query_heads / kv_heads;
    vstd::arithmetic::div_mod::lemma_fundamental_div_mod(query_heads, kv_heads);
    assert(query_heads == kv_heads * repeats);
    lemma_pair(kv_head, repeats, place);
    lemma_pair_bound(kv_head, kv_heads, repeats, place);
    lemma_split(query_head, kv_heads, repeats);
    if kv_head * repeats <= query_head < kv_head * repeats + repeats {
        lemma_pair(kv_head, repeats, query_head - kv_head * repeats);
    }
}

/// The two features of a lane: that of its own number and the one thirty-two above.
pub open spec fn lane_feature(lane: int, half: int) -> int {
    lane + 32 * half
}

/// The lanes of a group share out the features of a head, two each.
pub proof fn lemma_lanes_cover_features(feature: int)
    requires
        0 <= feature < HEAD_DIM,
    ensures
        0 <= feature % 32 < 32,
        0 <= feature / 32 < 2,
        lane_feature(feature % 32, feature / 32) == feature,
        forall|lane: int, half: int|
            0 <= lane < 32 && 0 <= half < 2 && #[trigger] lane_feature(lane, half) == feature ==> lane
                == feature % 32 && half == feature / 32,
{
}

/// Addresses of one lane in a tensor at one position of one head.
#[derive(Clone, Copy, Debug, PartialEq, Eq, Structural)]
pub struct LanePair {
    /// Address of the feature with the lane's number.
    pub low: usize,
    /// Address of the feature thirty-two above.
    pub high: usize,
}

/// The addresses of lane `lane` in a tensor, at one position of one head.
pub open spec fn lane_pair(
    pair: LanePair,
    tensor: TensorInfo,
    batch: int,
    head: int,
    position: int,
    lane: int,
) -> bool {
    &&& pair.low == at4(tensor.strides@, batch, head, position, lane_feature(lane, 0))
    &&& pair.high == at4(tensor.strides@, batch, head, position, lane_feature(lane, 1))
}

/// The addresses of a lane at one position of one head.
pub fn lane_addresses(
    tensor: &TensorInfo,
    batch: usize,
    head: usize,
    position: usize,
    lane: usize,
) -> (pair: LanePair)
    requires
        tensor.addressable(),
        tensor.shape@.len() == 4,
        batch < tensor.shape@[0],
        head < tensor.shape@[1],
        position < tensor.shape@[2],
        tensor.shape@[3] == HEAD_DIM,
        lane < 32,
    ensures
        lane_pair(pair, *tensor, batch as int, head as int, position as int, lane as int),
        pair.low < tensor.extent(),
        pair.high < tensor.extent(),
{
    LanePair {
        low: tensor.at4(batch, head, position, lane),
        high: tensor.at4(batch, head, position, lane + 32),
    }
}

/// What one lane reads and writes while it attends to some positions of a context.
#[derive(Clone, Debug, PartialEq, Eq)]
pub struct AttentionUnit {
    /// Its two query features.
    pub query: LanePair,
    /// The positions, in order.
    pub positions: Vec<usize>,
    /// Its two key features at each position.
    pub keys: Vec<LanePair>,
    /// Its two value features at each position.
    pub values: Vec<LanePair>,
}

impl AttentionUnit {
    /// The lane attends, for this head, to positions `start`, `start + step` and so on.
    pub open spec fn attends_to(
        self,
        head: Head,
        lane: int,
        start: int,
        step: int,
        query: TensorInfo,
        key: TensorInfo,
        value: TensorInfo,
    ) -> bool {
        let length = key.shape@[2] as int;
        &&& lane_pair(self.query, query, head.batch as int, head.query_head as int, 0, lane)
        &&& self.positions@.len() == strided_len(start, step, length)
        &&& self.keys@.len() == self.positions@.len()
        &&& self.values@.len() == self.positions@.len()
        &&& forall|k: int|
            0 <= k < self.positions@.len() ==> #[trigger] self.positions@[k] == strided(
                start,
                step,
                length,
            )[k]
        &&& forall|k: int|
            0 <= k < self.keys@.len() ==> lane_pair(
                #[trigger] self.keys@[k],
                key,
                head.batch as int,
                head.kv_head as int,
                self.positions@[k] as int,
                lane,
            )
        &&& forall|k: int|
            0 <= k < self.values@.len() ==> lane_pair(
                #[trigger] self.values@[k],
                value,
                head.batch as int,
                head.kv_head as int,
                self.positions@[k] as int,
                lane,
            )
    }
}

/// What lane `lane` reads for one head at positions `start`, `start + step` and so on.
fn attention_unit(
    head: Head,
    lane: usize,
    start: usize,
    step: usize,
    query: &TensorInfo,
    key: &TensorInfo,
    value: &TensorInfo,
) -> (unit: AttentionUnit)
    requires
        attends(*query, *key, *value),
        head.batch < query.shape@[0],
        head.query_head < query.shape@[1],
        head.kv_head < key.shape@[1],
        lane < 32,
        0 < step,
    ensures
        unit.attends_to(head, lane as int, start as int, step as int, *query, *key, *value),
{
    let positions = strided_positions(start, step, key.shape[2]);
    let mut keys: Vec<LanePair> = Vec::with_capacity(positions.len());
    let mut values: Vec<LanePair> = Vec::with_capacity(positions.len());
    let mut k: usize = 0;
    while k < positions.len()
        invariant
            attends(*query, *key, *value),
            head.batch < query.shape@[0],
            head.kv_head < key.shape@[1],
            lane < 32,
            0 < step,
            k <= positions@.len(),
            positions@.len() == strided_len(start as int, step as int, key.shape@[2] as int),
            forall|j: int|
                0 <= j < positions@.len() ==> #[trigger] positions@[j] == strided(
                    start as int,
                    step as int,
                    key.shape@[2] as int,
                )[j],
            keys@.len() == k,
            values@.len() == k,
            forall|j: int|
                0 <= j < k ==> lane_pair(
                    #[trigger] keys@[j],
                    *key,
                    head.batch as int,
                    head.kv_head as int,
                    positions@[j] as int,
                    lane as int,
                ),
            forall|j: int|
                0 <= j < k ==> lane_pair(
                    #[trigger] values@[j],
                    *value,
                    head.batch as int,
                    head.kv_head as int,
                    positions@[j] as int,
                    lane as int,
                ),
        decreases positions@.len() - k,
    {
        proof {
            lemma_strided_bound(start as int, step as int, key.shape@[2] as int, k as int);
        }
        let position: usize = positions[k];
        keys.push(lane_addresses(key, head.batch, head.kv_head, position, lane));
        values.push(lane_addresses(value, head.batch, head.kv_head, position, lane));
        k = k + 1;
    }
    AttentionUnit {
        query: lane_addresses(query, head.batch, head.query_head, 0, lane),
        positions,
        keys,
        values,
    }
}

/// What one lane of the kernel for short contexts does: it attends to every position.
pub fn attention_short_unit(
    cube: usize,
    lane: usize,
    query: &TensorInfo,
    key: &TensorInfo,
    value: &TensorInfo,
    output: &TensorInfo,
) -> (unit: (AttentionUnit, LanePair))
    requires
        attends(*query, *key, *value),
        output.addressable(),
        output.shape@ == query.shape@,
        cube < query.shape@[0] * query.shape@[1],
        lane < 32,
    ensures
        ({
            let head = head_of(cube as int, query.shape@, key.shape@);
            &&& unit.0.attends_to(head, lane as int, 0, 1, *query, *key, *value)
            &&& lane_pair(
                unit.1,
                *output,
                head.batch as int,
                head.query_head as int,
                0,
                lane as int,
            )
        }),
{
    let head = attention_head(cube, query.shape[0], query.shape[1], key.shape[1]);
    (
        attention_unit(head, lane, 0, 1, query, key, value),
        lane_addresses(output, head.batch, head.query_head, 0, lane),
    )
}

/// Scalar product of the query of a head with the key at one position.
pub open spec fn query_times_key(
    query: TensorInfo,
    query_data: Seq<real>,
    key: TensorInfo,
    key_data: Seq<real>,
    head: Head,
    position: int,
) -> real {
    sum(
        Seq::new(
            64,
            |f: int|
                query_data[at4(query.strides@, head.batch as int, head.query_head as int, 0, f)]
                    * key_data[at4(
                    key.strides@,
                    head.batch as int,
                    head.kv_head as int,
                    position,
                    f,
                )],
        ),
    )
}

/// What the lanes of a group add up in one turn: each multiplies its two query features with its two
/// key features.
pub open spec fn group_sum(
    units: Seq<AttentionUnit>,
    query_data: Seq<real>,
    key_data: Seq<real>,
    turn: int,
) -> real {
    sum(
        Seq::new(
            units.len(),
            |lane: int|
                query_data[units[lane].query.low as int]
                    * key_data[units[lane].keys@[turn].low as int]
                    + query_data[units[lane].query.high as int]
                    * key_data[units[lane].keys@[turn].high as int],
        ),
    )
}

/// In exact arithmetic the lanes of a group add up the scalar product of query and key at the position
/// of the turn, and each lane takes its features of the value at that position.
pub proof fn lemma_lanes_multiply(
    units: Seq<AttentionUnit>,
    head: Head,
    start: int,
    step: int,
    query: TensorInfo,
    query_data: Seq<real>,
    key: TensorInfo,
    key_data: Seq<real>,
    value: TensorInfo,
    turn: int,
)
    requires
        units.len() == 32,
        forall|lane: int|
            0 <= lane < 32 ==> (#[trigger] units[lane]).attends_to(
                head,
                lane,
                start,
                step,
                query,
                key,
                value,
            ),
        0 <= turn < strided_len(start, step, key.shape@[2] as int),
    ensures
        ({
            let position = strided(start, step, key.shape@[2] as int)[turn];
            &&& group_sum(units, query_data, key_data, turn) == query_times_key(
                query,
                query_data,
                key,
                key_data,
                head,
                position,
            )
            &&& forall|lane: int|
                0 <= lane < 32 ==> lane_pair(
                    (#[trigger] units[lane]).values@[turn],
                    value,
                    head.batch as int,
                    head.kv_head as int,
                    position,
                    lane,
                )
        }),
{
    let position = strided(start, step, key.shape@[2] as int)[turn];
    let (batch, query_head, kv_head) = (
        head.batch as int,
        head.query_head as int,
        head.kv_head as int,
    );
    let terms = Seq::new(
        64,
        |f: int|
            query_data[at4(query.strides@, batch, query_head, 0, f)] * key_data[at4(
                key.strides@,
                batch,
                kv_head,
                position,
                f,
            )],
    );
    let pairs = Seq::new(
        units.len(),
        |lane: int|
            query_data[units[lane].query.low as int] * key_data[units[lane].keys@[turn].low as int]
                + query_data[units[lane].query.high as int]
                * key_data[units[lane].keys@[turn].high as int],
    );
    let (low, high) = (terms.take(32), terms.skip(32));
    assert(low + high =~= terms);
    assert forall|lane: int| 0 <= lane < 32 implies #[trigger] pairs[lane] == low[lane] + high[lane]
        && lane_pair(units[lane].values@[turn], value, batch, kv_head, position, lane) by {
        let unit = units[lane];
        assert(unit.attends_to(head, lane, start, step, query, key, value));
        assert(unit.positions@[turn] == position);
        assert(lane_pair(unit.query, query, batch, query_head, 0, lane));
        assert(lane_pair(unit.keys@[turn], key, batch, kv_head, position, lane));
        assert(lane_pair(unit.values@[turn], value, batch, kv_head, position, lane));
        assert(low[lane] == terms[lane] && high[lane] == terms[lane + 32]);
    }
    lemma_sum_added(low, high, pairs);
    lemma_sum_joined(low, high);
    assert forall|lane: int| 0 <= lane < 32 implies lane_pair(
        (#[trigger] units[lane]).values@[turn],
        value,
        batch,
        kv_head,
        position,
        lane,
    ) by {
        assert(pairs[lane] == low[lane] + high[lane]);
    }
}

/// The head that cube `cube` computes for operands of these shapes.
pub open spec fn head_of(cube: int, query: Seq<usize>, key: Seq<usize>) -> Head {
    let query_head = cube % query[1] as int;
    Head {
        batch: (cube / query[1] as int) as usize,
        query_head: query_head as usize,
        kv_head: shared_head(query_head, query[1] as int, key[1] as int) as usize,
    }
}

/// With as many key and value heads as query heads, each query head has its own.
pub proof fn lemma_shared_by_one(query_head: int, query_heads: int)
    requires
        0 < query_heads,
    ensures
        shared_head(query_head, query_heads, query_heads) == query_head,
{
    vstd::arithmetic::div_mod::lemma_div_by_self(query_heads);
    vstd::arithmetic::div_mod::lemma_div_basics(query_head);
}

/// The head of a cube lies within the operands.
pub proof fn lemma_own_head(cube: int, query: TensorInfo, key: TensorInfo, value: TensorInfo)
    requires
        attends(query, key, value),
        0 <= cube < query.shape@[0] * query.shape@[1],
    ensures
        ({
            let (q, k) = (query.shape@, key.shape@);
            let head = head_of(cube, q, k);
            &&& head.batch == cube / q[1] as int
            &&& head.query_head == cube % q[1] as int
            &&& head.kv_head == shared_head(head.query_head as int, q[1] as int, k[1] as int)
            &&& head.batch < q[0] && head.query_head < q[1] && head.kv_head < k[1]
        }),
{
    lemma_heads(cube, query.shape@[0] as int, query.shape@[1] as int, key.shape@[1] as int);
}

/// `repeated` has a head of its own for every query head: what `compact` holds for the key and value
/// head that the query head shares.
pub open spec fn repeats_heads<S>(
    repeated: TensorInfo,
    repeated_data: Seq<S>,
    compact: TensorInfo,
    compact_data: Seq<S>,
    query_heads: int,
) -> bool {
    let k = compact.shape@;
    &&& repeated.shape@.len() == 4
    &&& repeated.shape@[0] == k[0] && repeated.shape@[1] == query_heads
    &&& repeated.shape@[2] == k[2] && repeated.shape@[3] == k[3]
    &&& forall|batch: int, head: int, position: int, feature: int|
        0 <= batch < k[0] && 0 <= head < query_heads && 0 <= position < k[2] && 0 <= feature < k[3]
            ==> repeated_data[#[trigger] at4(repeated.strides@, batch, head, position, feature)]
            == compact_data[at4(
            compact.strides@,
            batch,
            shared_head(head, query_heads, k[1] as int),
            position,
            feature,
        )]
}

// What a lane reads for its head in the repeated tensor is what it reads in the compact one.
proof fn lemma_lane_reads_alike<S>(
    pair: LanePair,
    other: LanePair,
    repeated: TensorInfo,
    repeated_data: Seq<S>,
    compact: TensorInfo,
    compact_data: Seq<S>,
    query_heads: int,
    batch: int,
    head: int,
    position: int,
    lane: int,
)
    requires
        repeats_heads(repeated, repeated_data, compact, compact_data, query_heads),
        compact.shape@[3] == HEAD_DIM,
        0 <= batch < compact.shape@[0],
        0 <= head < query_heads,
        0 <= position < compact.shape@[2],
        0 <= lane < 32,
        lane_pair(
            pair,
            compact,
            batch,
            shared_head(head, query_heads, compact.shape@[1] as int),
            position,
            lane,
        ),
        lane_pair(other, repeated, batch, head, position, lane),
    ensures
        repeated_data[other.low as int] == compact_data[pair.low as int],
        repeated_data[other.high as int] == compact_data[pair.high as int],
{
    assert(repeated_data[at4(repeated.strides@, batch, head, position, lane_feature(lane, 0))]
        == compact_data[pair.low as int]);
    assert(repeated_data[at4(repeated.strides@, batch, head, position, lane_feature(lane, 1))]
        == compact_data[pair.high as int]);
}

/// Compact key and value heads serve as well as heads repeated for every query head: at every
/// position a lane reads the same query, key and value features, whichever positions it attends to.
pub proof fn lemma_repeated_heads_read_alike<S>(
    unit: AttentionUnit,
    other: AttentionUnit,
    cube: int,
    lane: int,
    start: int,
    step: int,
    query: TensorInfo,
    key: TensorInfo,
    key_data: Seq<S>,
    value: TensorInfo,
    value_data: Seq<S>,
    repeated_key: TensorInfo,
    repeated_key_data: Seq<S>,
    repeated_value: TensorInfo,
    repeated_value_data: Seq<S>,
    k: int,
)
    requires
        attends(query, key, value),
        attends(query, repeated_key, repeated_value),
        0 <= cube < query.shape@[0] * query.shape@[1],
        0 <= lane < 32,
        0 <= start,
        0 < step,
        repeats_heads(
            repeated_key,
            repeated_key_data,
            key,
            key_data,
            query.shape@[1] as int,
        ),
        repeats_heads(
            repeated_value,
            repeated_value_data,
            value,
            value_data,
            query.shape@[1] as int,
        ),
        unit.attends_to(
            head_of(cube, query.shape@, key.shape@),
            lane,
            start,
            step,
            query,
            key,
            value,
        ),
        other.attends_to(
            head_of(cube, query.shape@, repeated_key.shape@),
            lane,
            start,
            step,
            query,
            repeated_key,
            repeated_value,
        ),
        0 <= k < unit.positions@.len(),
    ensures
        other.query == unit.query,
        other.positions@.len() == unit.positions@.len(),
        other.positions@[k] == unit.positions@[k],
        repeated_key_data[other.keys@[k].low as int] == key_data[unit.keys@[k].low as int],
        repeated_key_data[other.keys@[k].high as int] == key_data[unit.keys@[k].high as int],
        repeated_value_data[other.values@[k].low as int] == value_data[unit.values@[k].low as int],
        repeated_value_data[other.values@[k].high as int] == value_data[unit.values@[k].high as int],
{
    let (q, length) = (query.shape@, key.shape@[2] as int);
    let head = head_of(cube, q, key.shape@);
    let own = head_of(cube, q, repeated_key.shape@);
    lemma_own_head(cube, query, key, value);
    lemma_own_head(cube, query, repeated_key, repeated_value);
    lemma_shared_by_one(own.query_head as int, q[1] as int);
    lemma_strided_bound(start, step, length, k);
    assert(unit.positions@[k] == strided(start, step, length)[k]);
    assert(other.positions@[k] == strided(start, step, length)[k]);
    let (batch, h, position) = (
        head.batch as int,
        head.query_head as int,
        unit.positions@[k] as int,
    );
    assert(lane_pair(unit.keys@[k], key, batch, head.kv_head as int, position, lane));
    assert(lane_pair(other.keys@[k], repeated_key, batch, h, position, lane));
    assert(lane_pair(unit.values@[k], value, batch, head.kv_head as int, position, lane));
    assert(lane_pair(other.values@[k], repeated_value, batch, h, position, lane));
    lemma_lane_reads_alike(
        unit.keys@[k],
        other.keys@[k],
        repeated_key,
        repeated_key_data,
        key,
        key_data,
        q[1] as int,
        batch,
        h,
        position,
        lane,
    );
    lemma_lane_reads_alike(
        unit.values@[k],
        other.values@[k],
        repeated_value,
        repeated_value_data,
        value,
        value_data,
        q[1] as int,
        batch,
        h,
        position,
        lane,
    );
}

/// Where one lane of the kernel for long contexts leaves the results of its shard.
#[derive(Clone, Copy, Debug, PartialEq, Eq, Structural)]
pub struct ShardSlots {
    /// Address of the shard's maximum and, next to it, of its sum, in the lane that writes them.
    pub totals: Option<LanePair>,
    /// Addresses of the lane's two features.
    pub features: LanePair,
}

/// The slots of a shard in the intermediate results.
pub open spec fn shard_slots(
    slots: ShardSlots,
    partials: TensorInfo,
    batch: int,
    query_head: int,
    shard: int,
    lane: int,
) -> bool {
    &&& slots.totals is Some <==> lane == 0
    &&& slots.totals matches Some(totals) ==> totals.low == at4(
        partials.strides@,
        batch,
        query_head,
        shard,
        0,
    ) && totals.high == at4(partials.strides@, batch, query_head, shard, 1)
    &&& slots.features.low == at4(
        partials.strides@,
        batch,
        query_head,
        shard,
        lane_feature(lane, 0) + 2,
    )
    &&& slots.features.high == at4(
        partials.strides@,
        batch,
        query_head,
        shard,
        lane_feature(lane, 1) + 2,
    )
}

/// The intermediate results have one row per batch, query head and shard.
pub open spec fn holds_shards(partials: TensorInfo, query: Seq<usize>) -> bool {
    &&& partials.addressable()
    &&& partials.shape@.len() == 4
    &&& partials.shape@[0] == query[0]
    &&& partials.shape@[1] == query[1]
    &&& partials.shape@[2] == SHARDS
    &&& partials.shape@[3] == SHARD_WIDTH
}

/// What one lane of the kernel for long contexts does: cube `cube` has shard `cube % 8` of head
/// `cube / 8` and attends to every eighth position.
pub fn attention_partial_unit(
    cube: usize,
    lane: usize,
    query: &TensorInfo,
    key: &TensorInfo,
    value: &TensorInfo,
    partials: &TensorInfo,
) -> (unit: (AttentionUnit, ShardSlots))
    requires
        attends(*query, *key, *value),
        holds_shards(*partials, query.shape@),
        cube < query.shape@[0] * query.shape@[1] * SHARDS,
        lane < 32,
    ensures
        ({
            let head = head_of(cube as int / 8, query.shape@, key.shape@);
            let shard = cube as int % 8;
            &&& unit.0.attends_to(head, lane as int, shard, 8, *query, *key, *value)
            &&& shard_slots(
                unit.1,
                *partials,
                head.batch as int,
                head.query_head as int,
                shard,
                lane as int,
            )
        }),
{
    let shard: usize = cube % SHARDS;
    let head = attention_head(cube / SHARDS, query.shape[0], query.shape[1], key.shape[1]);
    let totals = if lane == 0 {
        Some(
            LanePair {
                low: partials.at4(head.batch, head.query_head, shard, 0),
                high: partials.at4(head.batch, head.query_head, shard, 1),
            },
        )
    } else {
        None
    };
    let features = LanePair {
        low: partials.at4(head.batch, head.query_head, shard, lane + 2),
        high: partials.at4(head.batch, head.query_head, shard, lane + 34),
    };
    (attention_unit(head, lane, shard, SHARDS, query, key, value), ShardSlots { totals, features })
}

/// The lanes of a shard fill its row: maximum and sum come from the first lane, and every feature
/// from one lane.
pub proof fn lemma_shard_row_filled(slot: int)
    requires
        0 <= slot < SHARD_WIDTH,
    ensures
        slot < 2 || ({
            let feature = slot - 2;
            &&& 0 <= feature < HEAD_DIM
            &&& lane_feature(feature % 32, feature / 32) + 2 == slot
            &&& 0 <= feature % 32 < 32
            &&& 0 <= feature / 32 < 2
        }),
{
}

/// The shards of a long context share out its positions: position `i` belongs to shard `i % 8` and
/// to no other.
pub proof fn lemma_shards_cover_positions(length: int, i: int)
    requires
        0 <= i < length,
    ensures
        0 <= i / 8 < strided_len(i % 8, 8, length),
        strided(i % 8, 8, length)[i / 8] == i,
        forall|shard: int, k: int|
            0 <= shard < 8 && 0 <= k < strided_len(shard, 8, length) && #[trigger] strided(
                shard,
                8,
                length,
            )[k] == i ==> shard == i % 8 && k == i / 8,
{
    lemma_strided_partition(8, length, i);
}

/// What one lane of the merging kernel reads for one shard.
#[derive(Clone, Copy, Debug, PartialEq, Eq, Structural)]
pub struct MergeSlots {
    /// Address of the shard's maximum.
    pub maximum: usize,
    /// Address of the shard's sum.
    pub sum: usize,
    /// Addresses of the lane's two features.
    pub features: LanePair,
}

/// What one lane of the merging kernel does for the head of cube `cube`: it reads its features from
/// every shard and writes them to the output.
pub fn attention_merge_unit(
    cube: usize,
    lane: usize,
    partials: &TensorInfo,
    output: &TensorInfo,
) -> (unit: (Vec<MergeSlots>, LanePair))
    requires
        output.addressable(),
        output.shape@.len() == 4,
        output.shape@[2] == 1,
        output.shape@[3] == HEAD_DIM,
        holds_shards(*partials, output.shape@),
        cube < output.shape@[0] * output.shape@[1],
        lane < 32,
    ensures
        ({
            let batch = cube as int / output.shape@[1] as int;
            let query_head = cube as int % output.shape@[1] as int;
            &&& unit.0@.len() == SHARDS
            &&& forall|shard: int|
                0 <= shard < SHARDS ==> merge_slots(
                    #[trigger] unit.0@[shard],
                    *partials,
                    batch,
                    query_head,
                    shard,
                    lane as int,
                )
            &&& lane_pair(unit.1, *output, batch, query_head, 0, lane as int)
        }),
{
    proof {
        let heads = output.shape@[1] as int;
        assert(heads > 0) by (nonlinear_arith)
            requires
                0 <= cube < output.shape@[0] * heads,
                heads >= 0,
        ;
        lemma_split(cube as int, output.shape@[0] as int, heads);
    }
    let query_head: usize = cube % output.shape[1];
    let batch: usize = cube / output.shape[1];
    let mut slots: Vec<MergeSlots> = Vec::with_capacity(SHARDS);
    let mut shard: usize = 0;
    while shard < SHARDS
        invariant
            shard <= SHARDS,
            holds_shards(*partials, output.shape@),
            batch < output.shape@[0],
            query_head < output.shape@[1],
            lane < 32,
            slots@.len() == shard,
            forall|s: int|
                0 <= s < shard ==> merge_slots(
                    #[trigger] slots@[s],
                    *partials,
                    batch as int,
                    query_head as int,
                    s,
                    lane as int,
                ),
        decreases SHARDS - shard,
    {
        slots.push(
            MergeSlots {
                maximum: partials.at4(batch, query_head, shard, 0),
                sum: partials.at4(batch, query_head, shard, 1),
                features: LanePair {
                    low: partials.at4(batch, query_head, shard, lane + 2),
                    high: partials.at4(batch, query_head, shard, lane + 34),
                },
            },
        );
        shard = shard + 1;
    }
    (slots, lane_addresses(output, batch, query_head, 0, lane))
}

/// The slots that the merge reads for a shard.
pub open spec fn merge_slots(
    slots: MergeSlots,
    partials: TensorInfo,
    batch: int,
    query_head: int,
    shard: int,
    lane: int,
) -> bool {
    &&& slots.maximum == at4(partials.strides@, batch, query_head, shard, 0)
    &&& slots.sum == at4(partials.strides@, batch, query_head, shard, 1)
    &&& slots.features.low == at4(
        partials.strides@,
        batch,
        query_head,
        shard,
        lane_feature(lane, 0) + 2,
    )
    &&& slots.features.high == at4(
        partials.strides@,
        batch,
        query_head,
        shard,
        lane_feature(lane, 1) + 2,
    )
}

/// The merge reads what the shards wrote: the first lane of a shard writes the maximum and the sum
/// that every lane of the merge reads, and each lane writes the features that the same lane reads.
pub proof fn lemma_merge_reads_shards(
    written: ShardSlots,
    first: ShardSlots,
    read: MergeSlots,
    partials: TensorInfo,
    batch: int,
    query_head: int,
    shard: int,
    lane: int,
)
    requires
        shard_slots(written, partials, batch, query_head, shard, lane),
        shard_slots(first, partials, batch, query_head, shard, 0),
        merge_slots(read, partials, batch, query_head, shard, lane),
    ensures
        read.features == written.features,
        first.totals == Some(LanePair { low: read.maximum, high: read.sum }),
{
}

/// The running maximum after `n` scores, which starts from the floor: a score replaces it only
/// where it is greater.
pub open spec fn running_maximum(scores: Seq<u32>, n: nat) -> u32
    decreases n,
{
    if n == 0 {
        FLOOR_BITS
    } else {
        let before = running_maximum(scores, (n - 1) as nat);
        if greater(scores[n - 1], before) {
            scores[n - 1]
        } else {
            before
        }
    }
}

/// One step of the online softmax: the maximum after a score, and whether sums so far have to be
/// rescaled.
pub fn softmax_step(maximum: u32, score: u32) -> (step: (u32, bool))
    ensures
        step.1 == greater(score, maximum),
        step.0 == if greater(score, maximum) {
            score
        } else {
            maximum
        },
{
    if pattern_greater(score, maximum) {
        (score, true)
    } else {
        (maximum, false)
    }
}

/// The maximum of some scores.
pub fn softmax_maximum(scores: &Vec<u32>) -> (maximum: u32)
    ensures
        maximum == running_maximum(scores@, scores@.len()),
{
    let mut maximum: u32 = FLOOR_BITS;
    let mut n: usize = 0;
    while n < scores.len()
        invariant
            n <= scores@.len(),
            maximum == running_maximum(scores@, n as nat),
        decreases scores@.len() - n,
    {
        maximum = softmax_step(maximum, scores[n]).0;
        n = n + 1;
    }
    maximum
}

/// The greatest of the maxima of the shards: a later one replaces an earlier one only where it is
/// greater.
pub fn merge_maximum(maxima: &Vec<u32>) -> (maximum: u32)
    requires
        maxima@.len() == SHARDS,
    ensures
        maximum == maxima@[winner(maxima@, 8)],
        0 <= winner(maxima@, 8) < 8,
{
    let mut best: usize = 0;
    let mut shard: usize = 1;
    assert(winner(maxima@, 1) == 0);
    while shard < SHARDS
        invariant
            maxima@.len() == SHARDS,
            1 <= shard <= SHARDS,
            best == winner(maxima@, shard as nat),
            best < shard,
        decreases SHARDS - shard,
    {
        if pattern_greater(maxima[shard], maxima[best]) {
            best = shard;
        }
        shard = shard + 1;
    }
    maxima[best]
}

/// Without a NaN, the running maximum is not below the floor or any score so far, and is one of
/// them.
pub proof fn lemma_running_maximum(scores: Seq<u32>, n: nat)
    requires
        n <= scores.len(),
        forall|i: int| 0 <= i < n ==> !is_nan(#[trigger] scores[i]),
    ensures
        !is_nan(running_maximum(scores, n)),
        order_key(running_maximum(scores, n)) >= FLOOR_KEY,
        forall|i: int|
            0 <= i < n ==> order_key(#[trigger] scores[i]) <= order_key(running_maximum(scores, n)),
        running_maximum(scores, n) == FLOOR_BITS || exists|i: int|
            0 <= i < n && #[trigger] scores[i] == running_maximum(scores, n),
    decreases n,
{
    if n > 0 {
        lemma_running_maximum(scores, (n - 1) as nat);
        assert(!is_nan(scores[n - 1]));
    }
}

/// The scores that a shard sees.
pub open spec fn shard_scores(scores: Seq<u32>, shard: int) -> Seq<u32> {
    Seq::new(
        strided_len(shard, 8, scores.len() as int),
        |k: int| scores[strided(shard, 8, scores.len() as int)[k]],
    )
}

/// The maximum of each shard.
pub open spec fn shard_maxima(scores: Seq<u32>) -> Seq<u32> {
    Seq::new(
        8,
        |shard: int|
            running_maximum(shard_scores(scores, shard), shard_scores(scores, shard).len()),
    )
}

/// Shards do not change the maximum: without a NaN, the greatest of the shards' maxima is the
/// maximum of the context.
pub proof fn lemma_merged_maximum(scores: Seq<u32>)
    requires
        forall|i: int| 0 <= i < scores.len() ==> !is_nan(#[trigger] scores[i]),
    ensures
        order_key(shard_maxima(scores)[winner(shard_maxima(scores), 8)]) == order_key(
            running_maximum(scores, scores.len()),
        ),
{
    let maxima = shard_maxima(scores);
    let n = scores.len() as int;
    let whole = running_maximum(scores, scores.len());
    lemma_running_maximum(scores, scores.len());
    assert forall|shard: int| 0 <= shard < 8 implies !is_nan(#[trigger] maxima[shard]) && order_key(
        maxima[shard],
    ) <= order_key(whole) by {
        lemma_shard_maximum(scores, shard);
    }
    lemma_winner_is_first_maximum(maxima, 8, 0);
    let best = winner(maxima, 8);
    assert(order_key(maxima[best]) <= order_key(whole));
    if whole == FLOOR_BITS {
        lemma_shard_maximum(scores, best);
    } else {
        let i = choose|i: int| 0 <= i < n && #[trigger] scores[i] == whole;
        lemma_shards_cover_positions(n, i);
        lemma_shard_maximum(scores, i % 8);
        let part = shard_scores(scores, i % 8);
        assert(part[i / 8] == whole);
        lemma_winner_is_first_maximum(maxima, 8, i % 8);
    }
}

proof fn lemma_shard_maximum(scores: Seq<u32>, shard: int)
    requires
        0 <= shard < 8,
        forall|i: int| 0 <= i < scores.len() ==> !is_nan(#[trigger] scores[i]),
    ensures
        ({
            let part = shard_scores(scores, shard);
            let maximum = running_maximum(part, part.len());
            &&& !is_nan(maximum)
            &&& order_key(maximum) >= FLOOR_KEY
            &&& order_key(maximum) <= order_key(running_maximum(scores, scores.len()))
            &&& forall|k: int|
                0 <= k < part.len() ==> order_key(#[trigger] part[k]) <= order_key(maximum)
        }),
{
    let part = shard_scores(scores, shard);
    let n = scores.len() as int;
    assert forall|k: int| 0 <= k < part.len() implies !is_nan(#[trigger] part[k]) && order_key(part[k])
        <= order_key(running_maximum(scores, scores.len())) by {
        lemma_strided_bound(shard, 8, n, k);
        lemma_running_maximum(scores, scores.len());
        assert(!is_nan(scores[strided(shard, 8, n)[k]]));
    }
    lemma_running_maximum(part, part.len());
    lemma_running_maximum(scores, scores.len());
}

} // verus!
