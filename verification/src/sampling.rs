//! Sampling of one token: which of the ranked logits are kept, and which of those wins.

use vstd::prelude::*;

use crate::bits::{greater, is_nan, order_key, pattern_greater};
use crate::bitonic::Candidate;
use crate::ranking::{
    best_in_order, capacity_for, is_logit, is_maximum, keys_of, lemma_first_is_greatest,
    lemma_merged_len, lemma_ranks_are_logits, numeric, rank_logits, ranks_of, sorted_runs,
    start_cursors, FLOOR_KEY, MAX_CAPACITY,
};
use crate::scheme::DType;

verus! {

/// The token that was sampled and how many candidates took part.
#[derive(Clone, Copy, Debug, PartialEq, Eq, Structural)]
pub struct Selection {
    /// The token.
    pub token: u32,
    /// Number of candidates that were kept, each of which used one random score.
    pub kept: usize,
}

/// The first `kept` of `n` ranks are kept: all before the first rank, other than the best one, at
/// which the cumulative probability exceeds the limit.
pub open spec fn keeps(over_top_p: Seq<bool>, n: int, kept: int) -> bool {
    &&& 1 <= kept <= n
    &&& forall|r: int| 1 <= r < kept ==> !#[trigger] over_top_p[r]
    &&& kept < n ==> over_top_p[kept]
}

/// The rank with the greatest score among the first `kept`: a later one replaces an earlier one
/// only where its score is greater.
pub open spec fn winner(scores: Seq<u32>, kept: nat) -> int
    decreases kept,
{
    if kept <= 1 {
        0
    } else {
        let best = winner(scores, (kept - 1) as nat);
        if greater(scores[kept - 1], scores[best]) {
            kept - 1
        } else {
            best
        }
    }
}

/// At none of `n` ranks but the best one the cumulative probability exceeds the limit.
pub open spec fn none_over(over_top_p: Seq<bool>, n: int) -> bool {
    forall|r: int| 1 <= r < n ==> !#[trigger] over_top_p[r]
}

/// Selects among the ranked candidates, padding included. `over_top_p` says of each rank whether the
/// cumulative probability exceeds the limit there, and `scores` holds the patterns of the perturbed
/// logits. `None` where the selection needs a rank past the last candidate, which is not known.
pub fn select(
    chosen: &Vec<Candidate>,
    over_top_p: &Vec<bool>,
    scores: &Vec<u32>,
    top_k: usize,
) -> (selection: Option<Selection>)
    requires
        top_k > 0,
        chosen@.len() <= top_k,
        over_top_p@.len() >= chosen@.len(),
        scores@.len() >= chosen@.len(),
    ensures
        match selection {
            Some(selection) => {
                &&& selection.kept < chosen@.len() || selection.kept == top_k
                &&& selection.kept <= chosen@.len()
                &&& keeps(over_top_p@, top_k as int, selection.kept as int)
                &&& 0 <= winner(scores@, selection.kept as nat) < selection.kept
                &&& selection.token == chosen@[winner(scores@, selection.kept as nat)].index
            },
            None => chosen@.len() < top_k && none_over(over_top_p@, chosen@.len() as int),
        },
{
    let mut rank: usize = 0;
    let mut best: usize = 0;
    while rank < top_k
        invariant
            top_k > 0,
            chosen@.len() <= top_k,
            over_top_p@.len() >= chosen@.len(),
            scores@.len() >= chosen@.len(),
            rank <= chosen@.len(),
            rank <= top_k,
            forall|r: int| 1 <= r < rank ==> !#[trigger] over_top_p@[r],
            best == winner(scores@, rank as nat),
            rank > 0 ==> best < rank,
            rank == 0 ==> best == 0,
        decreases top_k - rank,
    {
        if rank >= chosen.len() {
            return None;
        }
        if rank > 0 && over_top_p[rank] {
            return Some(Selection { token: chosen[best].index, kept: rank });
        }
        if rank == 0 || pattern_greater(scores[rank], scores[best]) {
            best = rank;
        }
        rank = rank + 1;
    }
    Some(Selection { token: chosen[best].index, kept: rank })
}

/// The number of kept ranks is determined by the limits.
pub proof fn lemma_kept_unique(over_top_p: Seq<bool>, n: int, a: int, b: int)
    requires
        keeps(over_top_p, n, a),
        keeps(over_top_p, n, b),
    ensures
        a == b,
{
    if a < b {
        assert(!over_top_p[a]);
    }
    if b < a {
        assert(!over_top_p[b]);
    }
}

/// How many of `n` ranks are kept, where those below `rank` are.
pub open spec fn kept_from(over_top_p: Seq<bool>, rank: nat, n: nat) -> nat
    decreases n - rank,
{
    if rank >= n || over_top_p[rank as int] {
        rank
    } else {
        kept_from(over_top_p, rank + 1, n)
    }
}

/// How many of `n` ranks are kept: at least the best one.
pub open spec fn kept_of(over_top_p: Seq<bool>, n: nat) -> nat {
    kept_from(over_top_p, 1, n)
}

proof fn lemma_kept_from(over_top_p: Seq<bool>, rank: nat, n: nat)
    requires
        1 <= rank <= n,
        forall|r: int| 1 <= r < rank ==> !#[trigger] over_top_p[r],
    ensures
        keeps(over_top_p, n as int, kept_from(over_top_p, rank, n) as int),
    decreases n - rank,
{
    if rank < n && !over_top_p[rank as int] {
        lemma_kept_from(over_top_p, rank + 1, n);
    }
}

/// There is such a number.
pub proof fn lemma_kept_of(over_top_p: Seq<bool>, n: nat)
    requires
        1 <= n,
    ensures
        keeps(over_top_p, n as int, kept_of(over_top_p, n) as int),
{
    lemma_kept_from(over_top_p, 1, n);
}

/// Relaxing the limit or ranking more candidates never keeps fewer, and at least one is kept.
pub proof fn lemma_relaxed_limits_keep_more(
    strict: Seq<bool>,
    relaxed: Seq<bool>,
    fewer: nat,
    more: nat,
)
    requires
        1 <= fewer <= more,
        forall|r: int| 1 <= r < fewer && #[trigger] relaxed[r] ==> strict[r],
    ensures
        1 <= kept_of(strict, fewer) <= kept_of(relaxed, more) <= more,
{
    lemma_kept_of(strict, fewer);
    lemma_kept_of(relaxed, more);
    let (a, b) = (kept_of(strict, fewer) as int, kept_of(relaxed, more) as int);
    if b < a {
        assert(relaxed[b]);
        assert(!strict[b]);
    }
}

/// Whether the cumulative probability, given as a pattern, exceeds the limit at each of `n` ranks.
pub open spec fn over_limit(cumulative: Seq<u32>, top_p: u32, n: nat) -> Seq<bool> {
    Seq::new(n, |r: int| greater(cumulative[r], top_p))
}

/// A wider probability limit or more candidates never use fewer random scores: at least one is used,
/// and at most as many as there are ranks.
pub proof fn lemma_wider_limits_draw_more(
    cumulative: Seq<u32>,
    top_p: u32,
    wider_p: u32,
    top_k: nat,
    wider_k: nat,
    cursor: int,
)
    requires
        !is_nan(top_p),
        !is_nan(wider_p),
        order_key(top_p) <= order_key(wider_p),
        1 <= top_k <= wider_k,
    ensures
        ({
            let next = cursor + kept_of(over_limit(cumulative, top_p, top_k), top_k);
            let wider = cursor + kept_of(over_limit(cumulative, wider_p, wider_k), wider_k);
            cursor + 1 <= next <= wider <= cursor + wider_k
        }),
{
    lemma_relaxed_limits_keep_more(
        over_limit(cumulative, top_p, top_k),
        over_limit(cumulative, wider_p, wider_k),
        top_k,
        wider_k,
    );
}

/// What sampling writes.
#[derive(Clone, Copy, Debug, PartialEq, Eq, Structural)]
pub struct Sampled {
    /// The token, before it is written in the type of the cursor.
    pub token: u32,
    /// The cursor of the next random score.
    pub next_cursor: i128,
}

/// Whether the ranks that a selection of `kept` needs are known.
pub open spec fn is_known(ranks: Seq<Candidate>, top_k: int, kept: int) -> bool {
    kept < ranks.len() || ranks.len() == top_k
}

/// Samples one token: ranks the logits, keeps ranks up to the probability limit, picks the greatest
/// score among them and moves the cursor on. `over_top_p` and `scores` are those of each rank.
/// `None` where the selection needs a rank that is up to the device, or where the type of the cursor
/// does not hold the next one.
pub fn sample(
    logits: &Vec<u32>,
    over_top_p: &Vec<bool>,
    scores: &Vec<u32>,
    top_k: usize,
    dtype: &DType,
    cursor: i128,
) -> (sampled: Option<Sampled>)
    requires
        logits@.len() <= MAX_CAPACITY,
        0 < top_k <= logits@.len(),
        over_top_p@.len() == top_k,
        scores@.len() == top_k,
        int_bounds(*dtype) matches Some(bounds) && bounds.0 <= cursor <= bounds.1,
    ensures
        ({
            let ranks = ranks_of(keys_of(logits@), top_k as nat);
            let kept = kept_of(over_top_p@, top_k as nat);
            let known = is_known(ranks, top_k as int, kept as int);
            let last = int_bounds(*dtype)->Some_0.1;
            match sampled {
                Some(sampled) => {
                    &&& known
                    &&& 0 <= winner(scores@, kept) < kept
                    &&& sampled.token == ranks[winner(scores@, kept)].index
                    &&& sampled.next_cursor == cursor + kept
                    &&& sampled.next_cursor <= last
                },
                None => !known || cursor + kept > last,
            }
        }),
{
    let ranks = rank_logits(logits, top_k);
    proof {
        lemma_kept_of(over_top_p@, top_k as nat);
        lemma_merged_len(
            sorted_runs(keys_of(logits@), capacity_for(logits@.len() as int) as nat),
            start_cursors(),
            top_k as nat,
        );
    }
    match select(&ranks, over_top_p, scores, top_k) {
        Some(selection) => {
            proof {
                lemma_kept_unique(
                    over_top_p@,
                    top_k as int,
                    selection.kept as int,
                    kept_of(over_top_p@, top_k as nat) as int,
                );
            }
            match next_cursor(dtype, cursor, selection.kept) {
                Some(next) => Some(Sampled { token: selection.token, next_cursor: next }),
                None => None,
            }
        },
        None => {
            proof {
                let kept = kept_of(over_top_p@, top_k as nat) as int;
                if kept < ranks@.len() {
                    assert(over_top_p@[kept]);
                }
            }
            None
        },
    }
}

/// Where every logit is a number at or above the floor, the token is one of the vocabulary, and every
/// selection is known.
pub proof fn lemma_token_in_vocabulary(
    keys: Seq<i32>,
    over_top_p: Seq<bool>,
    top_k: nat,
    rank: int,
)
    requires
        keys.len() <= MAX_CAPACITY,
        1 <= top_k <= keys.len(),
        numeric(keys),
        forall|i: int| 0 <= i < keys.len() ==> #[trigger] keys[i] >= FLOOR_KEY,
        0 <= rank < kept_of(over_top_p, top_k),
    ensures
        is_known(ranks_of(keys, top_k), top_k as int, kept_of(over_top_p, top_k) as int),
        ranks_of(keys, top_k)[rank].index < keys.len(),
{
    lemma_kept_of(over_top_p, top_k);
    lemma_ranks_are_logits(keys, top_k);
    assert(is_logit(keys, ranks_of(keys, top_k)[rank]));
}

/// Without a NaN among the scores, the winner has the greatest score of those kept, and is the best
/// ranked among equals.
pub proof fn lemma_winner_is_first_maximum(scores: Seq<u32>, kept: nat, r: int)
    requires
        0 <= r < kept <= scores.len(),
        forall|i: int| 0 <= i < kept ==> !is_nan(#[trigger] scores[i]),
    ensures
        0 <= winner(scores, kept) < kept,
        order_key(scores[r]) <= order_key(scores[winner(scores, kept)]),
        order_key(scores[r]) == order_key(scores[winner(scores, kept)]) ==> winner(scores, kept)
            <= r,
    decreases kept,
{
    if kept > 1 {
        let before = (kept - 1) as nat;
        assert(!is_nan(scores[kept - 1]));
        lemma_winner_is_first_maximum(scores, before, 0);
        let best = winner(scores, before);
        assert(!is_nan(scores[best]));
        if r < kept - 1 {
            lemma_winner_is_first_maximum(scores, before, r);
        }
    }
}

/// A single candidate is the greatest logit, the earliest among equals, whatever the scores are.
pub proof fn lemma_top_one_is_greatest(
    keys: Seq<i32>,
    chosen: Seq<Candidate>,
    over_top_p: Seq<bool>,
    scores: Seq<u32>,
    kept: int,
    i: int,
)
    requires
        best_in_order(keys, chosen),
        chosen.len() == 1,
        keeps(over_top_p, 1, kept),
        0 <= i < keys.len() <= MAX_CAPACITY,
    ensures
        kept == 1,
        winner(scores, kept as nat) == 0,
        keys[i] <= chosen[0].key,
        keys[i] == chosen[0].key ==> chosen[0].index <= i,
{
    lemma_first_is_greatest(keys, chosen, i);
}

/// The best candidate has the greatest logit, so that its distance to the maximum is zero.
pub proof fn lemma_first_is_maximum(keys: Seq<i32>, chosen: Seq<Candidate>, maximum: int)
    requires
        numeric(keys),
        best_in_order(keys, chosen),
        chosen.len() > 0,
        chosen[0].key >= FLOOR_KEY,
        keys.len() <= MAX_CAPACITY,
        is_maximum(keys, maximum),
    ensures
        chosen[0].key == maximum,
{
    assert(crate::ranking::is_logit(keys, chosen[0]));
    let first = chosen[0].index as int;
    assert(keys[first] <= maximum);
    if maximum != FLOOR_KEY {
        let i = choose|i: int| 0 <= i < keys.len() && #[trigger] keys[i] == maximum;
        lemma_first_is_greatest(keys, chosen, i);
    }
}

/// Smallest and largest value of an integer type.
pub open spec fn int_bounds(dtype: DType) -> Option<(int, int)> {
    match dtype {
        DType::I64 => Some((i64::MIN as int, i64::MAX as int)),
        DType::I32 => Some((i32::MIN as int, i32::MAX as int)),
        DType::I16 => Some((i16::MIN as int, i16::MAX as int)),
        DType::I8 => Some((i8::MIN as int, i8::MAX as int)),
        DType::U64 => Some((0, u64::MAX as int)),
        DType::U32 => Some((0, u32::MAX as int)),
        DType::U16 => Some((0, u16::MAX as int)),
        DType::U8 => Some((0, u8::MAX as int)),
        _ => None,
    }
}

/// The cursor after `kept` random scores have been used, in the integer type of the cursor; `None`
/// where that type does not hold it.
pub fn next_cursor(dtype: &DType, cursor: i128, kept: usize) -> (next: Option<i128>)
    requires
        int_bounds(*dtype) matches Some(bounds) && bounds.0 <= cursor <= bounds.1,
        kept <= MAX_CAPACITY,
    ensures
        match next {
            Some(next) => next == cursor + kept && next <= int_bounds(*dtype)->Some_0.1,
            None => cursor + kept > int_bounds(*dtype)->Some_0.1,
        },
{
    let limit: i128 = match dtype {
        DType::I64 => i64::MAX as i128,
        DType::I32 => i32::MAX as i128,
        DType::I16 => i16::MAX as i128,
        DType::I8 => i8::MAX as i128,
        DType::U64 => u64::MAX as i128,
        DType::U32 => u32::MAX as i128,
        DType::U16 => u16::MAX as i128,
        _ => u8::MAX as i128,
    };
    let next: i128 = cursor + kept as i128;
    if next <= limit {
        Some(next)
    } else {
        None
    }
}

/// Where the random score of a rank is found; `None` where the cursor names no element.
pub fn random_index(cursor: i128, rank: usize, len: usize) -> (index: Option<usize>)
    ensures
        match index {
            Some(index) => cursor >= 0 && index == cursor + rank && index < len,
            None => cursor < 0 || cursor + rank >= len,
        },
{
    if cursor < 0 || cursor >= len as i128 {
        return None;
    }
    let offset: usize = cursor as usize;
    if rank < len - offset {
        Some(offset + rank)
    } else {
        None
    }
}

/// Two draws in a row use different random scores: the second starts where the first one ended.
pub proof fn lemma_draws_use_distinct_scores(
    cursor: int,
    kept: int,
    rank: int,
    next: int,
    later_rank: int,
)
    requires
        next == cursor + kept,
        0 <= rank < kept,
        0 <= later_rank,
    ensures
        cursor + rank < next + later_rank,
{
}

} // verus!
