//! Ranks of logits, and comparisons of bit patterns.

use vstd::arithmetic::power2::{lemma2_to64, pow2};
use vstd::prelude::*;

use crate::bitonic::{
    comes_before, inverse_orders, is_number, number_key, precedes, ranked, reordered, Candidate,
};
use crate::bits::{
    is_nan, is_positive_finite, is_positive_finite_double, lemma_order_key_follows_value,
    magnitude_bits, order_key, pattern_greater, pattern_is_nan, pattern_key, pattern_magnitude,
    scaled_value,
};
use crate::ranking::{
    head, is_chosen, is_logit, keys_of, leading, lemma_best_head, lemma_merged_len,
    lemma_merged_prefix, lemma_ranks_are_logits, lemma_run_is_sorted, maximum_key, merge_runs,
    rank_logits, run_of, sort_capacity, sort_runs, start_cursors, unsorted_run, FLOOR_KEY,
};

verus! {

/// A pattern without its sign bit is that of the absolute value.
pub proof fn lemma_sign_dropped(bits: u32, magnitude: u32)
    requires
        call_ensures(pattern_magnitude, (bits,), magnitude),
    ensures
        magnitude == bits & 0x7fff_ffff,
{
    assert(bits < 0x8000_0000 ==> bits & 0x7fff_ffff == bits) by (bit_vector);
    assert(bits >= 0x8000_0000 ==> bits & 0x7fff_ffff == bits - 0x8000_0000) by (bit_vector);
}

/// A NaN has all exponent bits set, and some bit of the fraction.
pub proof fn lemma_nan_recognized(bits: u32, answer: bool)
    requires
        call_ensures(pattern_is_nan, (bits,), answer),
    ensures
        answer <==> bits & 0x7f80_0000 == 0x7f80_0000 && bits & 0x007f_ffff != 0,
{
    assert(bits < 0x8000_0000 ==> ((bits > 0x7f80_0000) <==> (bits & 0x7f80_0000 == 0x7f80_0000 && bits
        & 0x007f_ffff != 0))) by (bit_vector);
    assert(bits >= 0x8000_0000 ==> ((bits - 0x8000_0000 > 0x7f80_0000) <==> (bits & 0x7f80_0000
        == 0x7f80_0000 && bits & 0x007f_ffff != 0))) by (bit_vector);
}

/// One finite pattern is greater than another where its value is, and a NaN neither is nor has a
/// greater one.
pub proof fn lemma_values_compared(a: u32, b: u32, answer: bool)
    requires
        call_ensures(pattern_greater, (a, b), answer),
    ensures
        is_nan(a) || is_nan(b) ==> !answer,
        magnitude_bits(a) < 0x7f80_0000 && magnitude_bits(b) < 0x7f80_0000 ==> (answer
            <==> scaled_value(a) > scaled_value(b)),
        a == 0x7f80_0000 && magnitude_bits(b) < 0x7f80_0000 ==> answer,
        b == 0xff80_0000 && magnitude_bits(a) < 0x7f80_0000 ==> answer,
        a == 0xff80_0000 || b == 0x7f80_0000 ==> !answer,
{
    if magnitude_bits(a) < 0x7f80_0000 && magnitude_bits(b) < 0x7f80_0000 {
        lemma_order_key_follows_value(a, b);
    }
}

/// Keys of finite patterns are ordered as their values are.
pub proof fn lemma_keys_compared(a: u32, b: u32, key: i32, other: i32)
    requires
        call_ensures(pattern_key, (a,), key),
        call_ensures(pattern_key, (b,), other),
        magnitude_bits(a) < 0x7f80_0000,
        magnitude_bits(b) < 0x7f80_0000,
    ensures
        key > other <==> scaled_value(a) > scaled_value(b),
        key == other <==> scaled_value(a) == scaled_value(b),
{
    lemma_order_key_follows_value(a, b);
    lemma_order_key_follows_value(b, a);
}

/// Keys of infinities are beyond all others of numbers, and those of NaN beyond them.
pub proof fn lemma_keys_of_numbers(bits: u32, key: i32, answer: bool)
    requires
        call_ensures(pattern_key, (bits,), key),
        call_ensures(is_number, (key,), answer),
    ensures
        answer <==> !is_nan(bits),
        bits == 0x7f80_0000 <==> key == 0x7f80_0000,
        bits == 0xff80_0000 <==> key == -0x7f80_0000,
{
}

/// A positive finite pattern has a positive value, in either precision.
pub proof fn lemma_positive_recognized(bits: u32, answer: bool, double: u64, double_answer: bool)
    requires
        call_ensures(is_positive_finite, (bits,), answer),
        call_ensures(is_positive_finite_double, (double,), double_answer),
    ensures
        answer <==> magnitude_bits(bits) < 0x7f80_0000 && scaled_value(bits) > 0,
        double_answer <==> 0 < double < 0x7ff0_0000_0000_0000,
{
    if magnitude_bits(bits) < 0x7f80_0000 {
        lemma_order_key_follows_value(0, bits);
        lemma_order_key_follows_value(bits, 0);
        assert(scaled_value(0) == 0);
    }
}

/// A candidate comes before another where its logit is greater, or equal with a smaller index. A NaN
/// comes neither before nor after.
pub proof fn lemma_candidates_compared(a: Candidate, b: Candidate, answer: bool)
    requires
        call_ensures(comes_before, (a, b), answer),
    ensures
        -0x7f80_0000 <= a.key <= 0x7f80_0000 && -0x7f80_0000 <= b.key <= 0x7f80_0000 ==> (answer
            <==> a.key > b.key || (a.key == b.key && a.index < b.index)),
        !(-0x7f80_0000 <= a.key <= 0x7f80_0000) || !(-0x7f80_0000 <= b.key <= 0x7f80_0000)
            ==> !answer,
{
}

/// The capacity is the smallest power of two from thirty-two to 4096 that holds the candidates.
pub proof fn lemma_capacity_found(width: usize, answer: Option<usize>, n: nat)
    requires
        call_ensures(sort_capacity, (width,), answer),
        5 <= n <= 12,
    ensures
        answer is Some <==> width <= 4096,
        answer matches Some(capacity) ==> {
            &&& width <= capacity
            &&& width <= pow2(n) ==> capacity
                <= pow2(n)
            &&& exists|m: nat| 5 <= m <= 12 && #[trigger] pow2(m) == capacity
        },
{
    lemma2_to64();
    assert(pow2(5) == 32 && pow2(6) == 64
        && pow2(7) == 128 && pow2(8) == 256
        && pow2(9) == 512 && pow2(10) == 1024
        && pow2(11) == 2048 && pow2(12) == 4096);
    assert(n == 5 || n == 6 || n == 7 || n == 8 || n == 9 || n == 10 || n == 11 || n == 12);
}

/// The maximum is the greatest key of a number, or that of the floor where none is greater.
pub proof fn lemma_maximum_found(keys: Vec<i32>, capacity: usize, maximum: i32, i: int)
    requires
        call_ensures(maximum_key, (&keys, capacity), maximum),
        0 <= i < keys@.len(),
        -0x7f80_0000 <= keys@[i] <= 0x7f80_0000,
    ensures
        keys@[i] <= maximum,
        maximum >= -2137108966,
        maximum > -2137108966 ==> exists|j: int|
            0 <= j < keys@.len() && #[trigger] keys@[j] == maximum && maximum <= 0x7f80_0000,
{
    if maximum > -2137108966 {
        let j = choose|j: int|
            0 <= j < keys@.len() && crate::bitonic::number_key(keys@[j]) && #[trigger] keys@[j]
                == maximum;
        assert(keys@[j] == maximum);
    }
}

/// Every logit is a number at or above the floor, the key of which is given.
pub open spec fn above_floor(logits: Seq<u32>) -> bool {
    forall|i: int|
        0 <= i < logits.len() ==> !is_nan(#[trigger] logits[i]) && order_key(logits[i])
            >= -2137108966
}

/// Logit `i` is better than logit `j`: greater, or equal and earlier.
pub open spec fn is_better(logits: Seq<u32>, i: int, j: int) -> bool {
    order_key(logits[i]) > order_key(logits[j]) || (order_key(logits[i]) == order_key(logits[j]) && i
        < j)
}

/// The ranks are the best logits, best first: as many as were asked for, each with its own key, and
/// every other logit is worse than all of them.
pub proof fn lemma_logits_ranked(logits: Vec<u32>, top_k: usize, ranks: Vec<Candidate>, m: int)
    requires
        logits@.len() <= 4096,
        top_k <= logits@.len(),
        call_ensures(rank_logits, (&logits, top_k), ranks),
        above_floor(logits@),
        0 <= m < top_k,
    ensures
        ranks@.len() == top_k,
        ranks@[m].index < logits@.len(),
        ranks@[m].key == order_key(logits@[ranks@[m].index as int]),
        forall|l: int|
            0 <= l < m ==> is_better(
                logits@,
                (#[trigger] ranks@[l]).index as int,
                ranks@[m].index as int,
            ),
        forall|i: int|
            0 <= i < logits@.len() && (forall|l: int|
                0 <= l < top_k ==> (#[trigger] ranks@[l]).index != i) ==> #[trigger] is_better(
                logits@,
                ranks@[m].index as int,
                i,
            ),
{
    let keys = keys_of(logits@);
    assert forall|i: int| 0 <= i < keys.len() implies crate::bitonic::number_key(#[trigger] keys[i])
        && keys[i] >= FLOOR_KEY by {
        assert(!is_nan(logits@[i]));
    }
    lemma_ranks_are_logits(keys, top_k as nat);
    assert(is_logit(keys, ranks@[m]));
    assert forall|l: int| 0 <= l < m implies is_better(
        logits@,
        (#[trigger] ranks@[l]).index as int,
        ranks@[m].index as int,
    ) by {
        assert(is_logit(keys, ranks@[l]));
        assert(precedes(ranks@[l], ranks@[m]));
    }
    assert forall|i: int|
        0 <= i < logits@.len() && (forall|l: int|
            0 <= l < top_k ==> (#[trigger] ranks@[l]).index != i) implies #[trigger] is_better(
        logits@,
        ranks@[m].index as int,
        i,
    ) by {
        assert(!is_chosen(ranks@, i));
        assert(keys[i] == order_key(logits@[i]));
        assert(precedes(ranks@[m], crate::ranking::candidate(keys, i)));
    }
}

/// Without a NaN a rank is a logit with its own key, or padding: at most as many as were asked for, and
/// a logit at or above the floor is left out only where all of them are taken by better ones.
pub proof fn lemma_ranks_known(logits: Vec<u32>, top_k: usize, ranks: Vec<Candidate>, i: int)
    requires
        logits@.len() <= 4096,
        top_k <= logits@.len(),
        call_ensures(rank_logits, (&logits, top_k), ranks),
        forall|j: int| 0 <= j < logits@.len() ==> !is_nan(#[trigger] logits@[j]),
        0 <= i < logits@.len(),
        order_key(logits@[i]) >= -2137108966,
    ensures
        ranks@.len() <= top_k,
        (exists|m: int| 0 <= m < ranks@.len() && (#[trigger] ranks@[m]).index == i) || (ranks@.len()
            == top_k && forall|m: int|
            0 <= m < top_k ==> (#[trigger] ranks@[m]).index < logits@.len() && is_better(
                logits@,
                ranks@[m].index as int,
                i,
            )),
{
    let keys = keys_of(logits@);
    assert forall|j: int| 0 <= j < keys.len() implies crate::bitonic::number_key(
        #[trigger] keys[j],
    ) by {
        assert(!is_nan(logits@[j]));
    }
    assert(!crate::ranking::has_nan(logits@));
    let count = choose|count: int| leading(keys, ranks@, top_k as int, count);
    let chosen = ranks@.take(count);
    assert(keys[i] == order_key(logits@[i]));
    if is_chosen(chosen, i) {
        let m = choose|m: int| 0 <= m < chosen.len() && #[trigger] chosen[m].index == i;
        assert(ranks@[m].index == i);
    } else if count < top_k {
        assert(keys[i] < FLOOR_KEY);
    } else {
        assert(ranks@.len() == top_k);
        assert forall|m: int| 0 <= m < top_k implies (#[trigger] ranks@[m]).index < logits@.len()
            && is_better(logits@, ranks@[m].index as int, i) by {
            assert(chosen[m] == ranks@[m]);
            assert(is_logit(keys, chosen[m]));
            assert(precedes(chosen[m], crate::ranking::candidate(keys, i)));
        }
    }
}

/// Sorting runs leaves every logit in its run of thirty-two, with its key and its index, and each run
/// in order: greater keys first, and smaller indices first among equal keys.
/// A NaN in another run changes nothing of that.
pub proof fn lemma_runs_sorted(
    keys: Vec<i32>,
    capacity: usize,
    sorted: Vec<Candidate>,
    i: int,
    run: int,
    p: int,
    q: int,
)
    requires
        call_ensures(sort_runs, (&keys, capacity), sorted),
        keys@.len() <= capacity <= 4096,
        capacity % 32 == 0,
        0 <= i < keys@.len(),
        0 <= run < capacity as int / 32,
        forall|j: int|
            0 <= j < keys@.len() && (j / 32 == run || j / 32 == i / 32) ==> -0x7f80_0000
                <= #[trigger] keys@[j] <= 0x7f80_0000,
        0 <= p < q < 32,
    ensures
        sorted@.len() == capacity,
        exists|k: int|
            0 <= k < 32 && (#[trigger] sorted@[32 * (i / 32) + k]).index == i && sorted@[32 * (i / 32)
                + k].key == keys@[i],
        ({
            let (a, b) = (sorted@[32 * run + p], sorted@[32 * run + q]);
            a.key > b.key || (a.key == b.key && a.index <= b.index)
        }),
{
    let r = i / 32;
    assert forall|p: int| 0 <= p < 32 implies number_key(
        (#[trigger] unsorted_run(keys@, r)[p]).key,
    ) by {
        assert((32 * r + p) / 32 == r);
    }
    assert forall|p: int| 0 <= p < 32 implies number_key(
        (#[trigger] unsorted_run(keys@, run)[p]).key,
    ) by {
        assert((32 * run + p) / 32 == run);
    }
    lemma_run_is_sorted(keys@, capacity as nat, r);
    lemma_run_is_sorted(keys@, capacity as nat, run);
    let (there, back) = choose|there: Seq<int>, back: Seq<int>|
        #[trigger] inverse_orders(there, back, 32) && reordered(
            run_of(sorted@, r),
            unsorted_run(keys@, r),
            there,
        );
    let k = back[i % 32];
    assert(0 <= back[i % 32] < 32);
    assert(there[k] == i % 32);
    assert(run_of(sorted@, r)[k] == unsorted_run(keys@, r)[i % 32]);
    assert(sorted@[32 * r + k] == run_of(sorted@, r)[k]);
    let own = run_of(sorted@, run);
    assert(ranked(own));
    assert(own[p] == sorted@[32 * run + p] && own[q] == sorted@[32 * run + q]);
    let (to, from) = choose|to: Seq<int>, from: Seq<int>|
        #[trigger] inverse_orders(to, from, 32) && reordered(own, unsorted_run(keys@, run), to);
    assert(0 <= to[p] < 32 && 0 <= to[q] < 32);
    assert(own[p] == unsorted_run(keys@, run)[to[p]] && own[q] == unsorted_run(keys@, run)[to[q]]);
    assert(!precedes(own[q], own[p]));
}

/// Merging takes the best of the first candidates of all runs first, whatever stands behind them: no
/// first candidate is ranked before it. Slots without a run offer padding.
pub proof fn lemma_best_merged_first(
    sorted: Vec<Candidate>,
    top_k: usize,
    ranks: Vec<Candidate>,
    other: int,
)
    requires
        call_ensures(merge_runs, (&sorted, top_k), ranks),
        sorted@.len() <= 4096,
        sorted@.len() % 32 == 0,
        top_k > 0,
        forall|r: int|
            0 <= 32 * r < sorted@.len() ==> -0x7f80_0000 <= (#[trigger] sorted@[32 * r]).key
                <= 0x7f80_0000,
        0 <= 32 * other < sorted@.len(),
    ensures
        1 <= ranks@.len() <= top_k,
        (exists|r: int| 0 <= 32 * r < sorted@.len() && ranks@[0] == #[trigger] sorted@[32 * r]) || (
        sorted@.len() < 4096 && ranks@[0].key == -2137108966 && ranks@[0].index == 0xffff_ffff),
        ({
            let (first, best) = (sorted@[32 * other], ranks@[0]);
            first.key < best.key || (first.key == best.key && first.index >= best.index)
        }),
{
    let cursors = start_cursors();
    assert forall|r: int| 0 <= r < 128 implies number_key(
        (#[trigger] head(sorted@, cursors, r))->Some_0.key,
    ) && head(sorted@, cursors, r) is Some by {
        assert(32 * r < sorted@.len() ==> head(sorted@, cursors, r) == Some(sorted@[32 * r]));
    }
    let r = lemma_best_head(sorted@, cursors);
    lemma_merged_len(sorted@, cursors, top_k as nat);
    assert(32 * r < sorted@.len() ==> head(sorted@, cursors, r) == Some(sorted@[32 * r]));
    assert(head(sorted@, cursors, other) == Some(sorted@[32 * other]));
}

/// Merging for more ranks begins with the ranks that merging for fewer gives, and gives no fewer.
pub proof fn lemma_more_merged(
    sorted: Vec<Candidate>,
    fewer: usize,
    more: usize,
    first: Vec<Candidate>,
    all: Vec<Candidate>,
    m: int,
)
    requires
        call_ensures(merge_runs, (&sorted, fewer), first),
        call_ensures(merge_runs, (&sorted, more), all),
        fewer <= more,
        0 <= m < first@.len(),
    ensures
        first@.len() <= fewer,
        m < all@.len(),
        all@[m] == first@[m],
{
    lemma_merged_len(sorted@, start_cursors(), fewer as nat);
    lemma_merged_prefix(sorted@, start_cursors(), fewer as nat, more as nat);
}

/// Ranking logits is sorting runs of their keys, as many as the capacity holds, and merging them, also
/// where some logits are no numbers.
pub proof fn lemma_ranking_sorts_and_merges(
    logits: Vec<u32>,
    top_k: usize,
    keys: Vec<i32>,
    capacity: usize,
    sorted: Vec<Candidate>,
    merged: Vec<Candidate>,
    ranks: Vec<Candidate>,
)
    requires
        keys@.len() == logits@.len(),
        forall|i: int|
            0 <= i < keys@.len() ==> call_ensures(pattern_key, (logits@[i],), #[trigger] keys@[i]),
        call_ensures(sort_capacity, (logits.len(),), Some(capacity)),
        call_ensures(sort_runs, (&keys, capacity), sorted),
        call_ensures(merge_runs, (&sorted, top_k), merged),
        call_ensures(rank_logits, (&logits, top_k), ranks),
    ensures
        ranks@ == merged@,
{
    assert(keys@ =~= keys_of(logits@));
}

} // verus!
