//! Sampling: the caller's parameters reach the kernel, and the greatest perturbed logit of those kept
//! wins.

use vstd::arithmetic::power2::{lemma2_to64, pow2};
use vstd::prelude::*;

use crate::backend::{CubeBackend, MetalTransformerBackend};
use crate::bitonic::Candidate;
use crate::bits::{is_nan, order_key};
use crate::laws::tables::is_new;
use crate::ops::{sample_topk, Real};
use crate::plan::{Kernel, Plan};
use crate::ranking::rank_logits;
use crate::reject::Rejection;
use crate::rules::sample_topk_planned;
use crate::sampling::{
    kept_of, lemma_kept_of, lemma_kept_unique, lemma_winner_is_first_maximum, next_cursor,
    random_index, sample, select, winner, Sampled, Selection,
};
use crate::scheme::DType;
use crate::shape::product;
use crate::tensor::TensorInfo;

verus! {

/// One of the three operands lies elsewhere.
pub open spec fn apart(logits: TensorInfo, scores: TensorInfo, cursor: TensorInfo) -> bool {
    logits.device != scores.device || logits.device != cursor.device
}

/// Sampling runs in one cube with the caller's temperature, probability limit and number of candidates,
/// sorts the next power of two of candidates, and writes two integers of the cursor's type; it is
/// refused for these reasons only. Temperature and limit are patterns in single precision.
pub open spec fn sampling_served(
    answer: Result<Plan, Rejection>,
    logits: TensorInfo,
    scores: TensorInfo,
    cursor: TensorInfo,
    temperature: int,
    top_p: int,
    top_k: int,
) -> bool {
    let l = logits.shape@;
    let parameters_good = 0 < temperature < 0x7f80_0000 && 0 < top_p <= 0x3f80_0000;
    let joined = !apart(logits, scores, cursor) && logits.dtype is F32 && scores.dtype is F32;
    let shaped = joined && l.len() == 2 && l[0] == 1 && scores.shape@.len() == 1 && product(
        cursor.shape@,
    ) == 1;
    match answer {
        Ok(plan) => {
            &&& shaped
            &&& parameters_good
            &&& 0 < top_k <= l[1] <= 4096
            &&& plan.kernel matches Kernel::SampleTopk {
                temperature: t,
                top_p: p,
                top_k: k,
                sort_capacity: capacity,
            }
            &&& t == temperature
            &&& p == top_p
            &&& k == top_k
            &&& 32 <= capacity && l[1] <= capacity && (capacity == 32 || capacity < 2 * l[1])
            &&& exists|n: nat| #[trigger] pow2(n) == capacity
            &&& plan.launch.cubes == 1
            &&& plan.launch.threads == (if capacity < 1024 {
                capacity as int
            } else {
                1024
            })
            &&& is_new(plan.output, logits.device, cursor.dtype, seq![2usize])
        },
        Err(Rejection::DeviceMismatch) => apart(logits, scores, cursor),
        Err(Rejection::WrongDType) => !apart(logits, scores, cursor) && !(logits.dtype is F32),
        Err(Rejection::DTypeMismatch) => !apart(logits, scores, cursor) && logits.dtype is F32 && !(
        scores.dtype is F32),
        Err(Rejection::WrongRank) => joined && (l.len() != 2 || (l[0] == 1 && scores.shape@.len()
            != 1)),
        Err(Rejection::ShapeMismatch) => joined && l.len() == 2 && (l[0] != 1 || (
        scores.shape@.len() == 1 && product(cursor.shape@) != 1)),
        Err(Rejection::BadParameter) => shaped && !parameters_good,
        Err(Rejection::OutOfRange) => shaped && parameters_good && (top_k == 0 || top_k > l[1]),
        Err(Rejection::TooLarge) => shaped && parameters_good && 0 < top_k <= l[1] && l[1] > 4096,
        Err(_) => false,
    }
}

proof fn lemma_sampling(
    answer: Result<Plan, Rejection>,
    logits: TensorInfo,
    scores: TensorInfo,
    cursor: TensorInfo,
    temperature: u32,
    top_p: u32,
    top_k: u32,
)
    requires
        sample_topk_planned(answer, logits, scores, cursor, temperature, top_p, top_k),
    ensures
        sampling_served(
            answer,
            logits,
            scores,
            cursor,
            temperature as int,
            top_p as int,
            top_k as int,
        ),
{
    lemma2_to64();
    assert(pow2(5) == 32 && pow2(6) == 64 && pow2(7) == 128 && pow2(8) == 256 && pow2(9) == 512
        && pow2(10) == 1024 && pow2(11) == 2048 && pow2(12) == 4096);
}

/// Sampling by the fused kernel has the caller's parameters.
pub proof fn lemma_fused_sample_topk(
    logits: TensorInfo,
    scores: TensorInfo,
    cursor: TensorInfo,
    temperature: u32,
    top_p: u32,
    top_k: u32,
    answer: Result<Plan, Rejection>,
)
    requires
        call_ensures(
            CubeBackend::fused_sample_topk,
            (&logits, &scores, &cursor, temperature, top_p, top_k),
            answer,
        ),
    ensures
        sampling_served(
            answer,
            logits,
            scores,
            cursor,
            temperature as int,
            top_p as int,
            top_k as int,
        ),
{
    lemma_sampling(answer, logits, scores, cursor, temperature, top_p, top_k);
}

/// Sampling has the caller's parameters in single precision, and as many candidates as the caller asks
/// for, but no more than there are logits, counted by the low word.
pub proof fn lemma_sample_topk(
    logits: TensorInfo,
    scores: TensorInfo,
    cursor: TensorInfo,
    temperature: Real,
    top_p: Real,
    top_k: usize,
    answer: Result<Plan, Rejection>,
)
    requires
        call_ensures(
            sample_topk,
            (&logits, &scores, &cursor, temperature, top_p, top_k),
            answer,
        ),
    ensures
        if logits.shape@.len() != 2 || scores.shape@.len() != 1 || cursor.shape@.len() != 1 {
            answer == Err::<Plan, Rejection>(Rejection::WrongRank)
        } else if temperature.double == 0 || temperature.double >= 0x7ff0_0000_0000_0000
            || top_p.double == 0 || top_p.double > 0x3ff0_0000_0000_0000 || top_k == 0 {
            answer == Err::<Plan, Rejection>(Rejection::BadParameter)
        } else {
            sampling_served(
                answer,
                logits,
                scores,
                cursor,
                temperature.single as int,
                top_p.single as int,
                (if top_k < logits.shape@[1] {
                    top_k as int
                } else {
                    logits.shape@[1] as int
                }) % 0x1_0000_0000,
            )
        },
{
    if logits.shape@.len() == 2 && scores.shape@.len() == 1 && cursor.shape@.len() == 1 && 0
        < temperature.double < 0x7ff0_0000_0000_0000 && 0 < top_p.double <= 0x3ff0_0000_0000_0000
        && top_k != 0 {
        let limit = if top_k < logits.shape@[1] {
            top_k
        } else {
            logits.shape@[1]
        };
        lemma_sampling(
            answer,
            logits,
            scores,
            cursor,
            temperature.single,
            top_p.single,
            (limit as int % 0x1_0000_0000) as u32,
        );
    }
}

/// Two calls that differ in the temperature, in the probability limit or in the number of candidates
/// have plans that differ.
pub proof fn lemma_parameters_matter(
    logits: TensorInfo,
    scores: TensorInfo,
    cursor: TensorInfo,
    temperature: u32,
    top_p: u32,
    top_k: u32,
    plan: Plan,
    other_temperature: u32,
    other_p: u32,
    other_k: u32,
    other: Plan,
)
    requires
        call_ensures(
            CubeBackend::fused_sample_topk,
            (&logits, &scores, &cursor, temperature, top_p, top_k),
            Ok::<Plan, Rejection>(plan),
        ),
        call_ensures(
            CubeBackend::fused_sample_topk,
            (&logits, &scores, &cursor, other_temperature, other_p, other_k),
            Ok::<Plan, Rejection>(other),
        ),
    ensures
        plan.kernel == other.kernel <==> temperature == other_temperature && top_p == other_p && top_k
            == other_k,
{
    lemma_sampling(Ok(plan), logits, scores, cursor, temperature, top_p, top_k);
    lemma_sampling(Ok(other), logits, scores, cursor, other_temperature, other_p, other_k);
}

/// The first `kept` ranks take part: the best one, and all up to the first one that is over the limit.
pub open spec fn takes_part(over: Seq<bool>, top_k: int, kept: int) -> bool {
    &&& 1 <= kept <= top_k
    &&& forall|r: int| 1 <= r < kept ==> !#[trigger] over[r]
    &&& kept < top_k ==> over[kept]
}

/// Rank `best` has the greatest score of the first `kept`, and is the first of those that have it.
pub open spec fn has_greatest(scores: Seq<u32>, kept: int, best: int) -> bool {
    &&& 0 <= best < kept
    &&& forall|r: int|
        0 <= r < kept ==> order_key(#[trigger] scores[r]) <= order_key(scores[best])
    &&& forall|r: int| 0 <= r < best ==> order_key(#[trigger] scores[r]) < order_key(scores[best])
}

/// None of the first `kept` scores is a NaN.
pub open spec fn all_numbers(scores: Seq<u32>, kept: int) -> bool {
    forall|r: int| 0 <= r < kept ==> !is_nan(#[trigger] scores[r])
}

proof fn lemma_winner(scores: Seq<u32>, kept: nat)
    requires
        1 <= kept <= scores.len(),
        all_numbers(scores, kept as int),
    ensures
        has_greatest(scores, kept as int, winner(scores, kept)),
{
    let best = winner(scores, kept);
    lemma_winner_is_first_maximum(scores, kept, 0);
    assert forall|r: int| 0 <= r < kept implies order_key(#[trigger] scores[r]) <= order_key(
        scores[best],
    ) && (r < best ==> order_key(scores[r]) < order_key(scores[best])) by {
        lemma_winner_is_first_maximum(scores, kept, r);
    }
}

// A NaN neither wins nor loses its place: a first score that is one stays the winner.
proof fn lemma_nan_first(scores: Seq<u32>, kept: nat)
    requires
        1 <= kept,
        is_nan(scores[0]),
    ensures
        winner(scores, kept) == 0,
    decreases kept,
{
    if kept > 1 {
        lemma_nan_first(scores, (kept - 1) as nat);
    }
}

proof fn lemma_winner_is_number(scores: Seq<u32>, kept: nat)
    requires
        1 <= kept,
    ensures
        winner(scores, kept) == 0 || !is_nan(scores[winner(scores, kept)]),
    decreases kept,
{
    if kept > 1 {
        lemma_winner_is_number(scores, (kept - 1) as nat);
    }
}

/// A selection keeps the ranks that take part and picks the one with the greatest score: the token is
/// that of this rank. A NaN is never picked, unless it is the score of the best rank, which is then
/// picked. All candidates being known, there is a selection.
pub proof fn lemma_selected(
    chosen: Vec<Candidate>,
    over: Vec<bool>,
    scores: Vec<u32>,
    top_k: usize,
    answer: Option<Selection>,
)
    requires
        top_k > 0,
        chosen@.len() <= top_k,
        over@.len() >= chosen@.len(),
        scores@.len() >= chosen@.len(),
        call_ensures(select, (&chosen, &over, &scores, top_k), answer),
    ensures
        chosen@.len() == top_k ==> answer is Some,
        answer matches Some(selection) ==> {
            &&& takes_part(over@, top_k as int, selection.kept as int)
            &&& selection.kept <= chosen@.len()
            &&& all_numbers(scores@, selection.kept as int) ==> exists|best: int|
                has_greatest(scores@, selection.kept as int, best) && selection.token
                    == (#[trigger] chosen@[best]).index
            &&& is_nan(scores@[0]) ==> selection.token == chosen@[0].index
            &&& exists|best: int|
                0 <= best < selection.kept && selection.token == (#[trigger] chosen@[best]).index && (
                best == 0 || !is_nan(scores@[best]))
        },
        answer is None ==> chosen@.len() < top_k && forall|r: int|
            1 <= r < chosen@.len() ==> !#[trigger] over@[r],
{
    if let Some(selection) = answer {
        let kept = selection.kept as nat;
        let best = winner(scores@, kept);
        if all_numbers(scores@, kept as int) {
            lemma_winner(scores@, kept);
            assert(chosen@[best].index == selection.token);
        }
        if is_nan(scores@[0]) {
            lemma_nan_first(scores@, kept);
        }
        lemma_winner_is_number(scores@, kept);
        assert(chosen@[best].index == selection.token);
    }
}

/// Largest cursor that an integer type holds.
pub open spec fn last_of(dtype: DType) -> int {
    match dtype {
        DType::I64 => 0x7fff_ffff_ffff_ffff,
        DType::I32 => 0x7fff_ffff,
        DType::I16 => 0x7fff,
        DType::I8 => 0x7f,
        DType::U64 => 0xffff_ffff_ffff_ffff,
        DType::U32 => 0xffff_ffff,
        DType::U16 => 0xffff,
        DType::U8 => 0xff,
        _ => -1,
    }
}

/// The cursor moves on by the random scores that were used, as far as its type goes.
pub proof fn lemma_cursor_moves(dtype: DType, cursor: i128, kept: usize, answer: Option<i128>)
    requires
        last_of(dtype) > 0,
        kept <= 4096,
        call_ensures(next_cursor, (&dtype, cursor, kept), answer),
    ensures
        cursor + kept <= last_of(dtype) ==> answer == Some((cursor + kept) as i128),
        cursor + kept > last_of(dtype) ==> answer is None,
        answer matches Some(next) ==> next == cursor + kept,
{
}

/// Rank `rank` takes the random score `rank` places after the cursor, where there is one.
pub proof fn lemma_random_score_found(cursor: i128, rank: usize, len: usize, answer: Option<usize>)
    requires
        call_ensures(random_index, (cursor, rank, len), answer),
    ensures
        0 <= cursor && cursor + rank < len ==> answer == Some((cursor + rank) as usize),
        cursor < 0 || cursor + rank >= len ==> answer is None,
{
}

/// A sample is the token of the rank with the greatest score among those that take part, and moves the
/// cursor on by their number.
pub proof fn lemma_sampled(
    logits: Vec<u32>,
    over: Vec<bool>,
    scores: Vec<u32>,
    top_k: usize,
    dtype: DType,
    cursor: i128,
    ranks: Vec<Candidate>,
    answer: Option<Sampled>,
    kept: int,
)
    requires
        logits@.len() <= 4096,
        0 < top_k <= logits@.len(),
        over@.len() == top_k,
        scores@.len() == top_k,
        last_of(dtype) > 0,
        call_ensures(rank_logits, (&logits, top_k), ranks),
        call_ensures(sample, (&logits, &over, &scores, top_k, &dtype, cursor), answer),
        takes_part(over@, top_k as int, kept),
    ensures
        answer matches Some(sampled) ==> {
            &&& sampled.next_cursor == cursor + kept
            &&& kept <= ranks@.len()
            &&& all_numbers(scores@, kept) ==> exists|best: int|
                has_greatest(scores@, kept, best) && sampled.token == (#[trigger] ranks@[best]).index
            &&& is_nan(scores@[0]) ==> sampled.token == ranks@[0].index
        },
        (kept < ranks@.len() || ranks@.len() == top_k) && cursor + kept <= last_of(dtype)
            ==> answer is Some,
        ranks@.len() <= kept && ranks@.len() < top_k ==> answer is None,
        cursor + kept > last_of(dtype) ==> answer is None,
{
    lemma_kept_of(over@, top_k as nat);
    lemma_kept_unique(over@, top_k as int, kept, kept_of(over@, top_k as nat) as int);
    if let Some(sampled) = answer {
        let best = winner(scores@, kept as nat);
        if all_numbers(scores@, kept) {
            lemma_winner(scores@, kept as nat);
            assert(ranks@[best].index == sampled.token);
        }
        if is_nan(scores@[0]) {
            lemma_nan_first(scores@, kept as nat);
        }
    }
}

} // verus!
