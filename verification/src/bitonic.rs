//! Sorting network that orders the thirty-two candidates held by one SIMD group.

use vstd::prelude::*;

verus! {

/// Number of lanes in a SIMD group, and of candidates in one sorted run.
pub const LANES: usize = 32;

/// Order key of positive infinity. Keys further from zero belong to patterns that are not numbers.
pub const INFINITY_KEY: i32 = 0x7f80_0000;

/// A logit together with its position in the vocabulary.
#[derive(Clone, Copy, Debug, PartialEq, Eq, Structural)]
pub struct Candidate {
    /// Order key of the logit: larger keys stand for larger logits.
    pub key: i32,
    /// Position in the vocabulary, or `u32::MAX` for padding.
    pub index: u32,
}

/// The key is that of a number.
pub open spec fn number_key(key: i32) -> bool {
    -INFINITY_KEY <= key <= INFINITY_KEY
}

/// Every candidate of `run` has a number.
pub open spec fn numbers(run: Seq<Candidate>) -> bool {
    forall|i: int| 0 <= i < run.len() ==> number_key((#[trigger] run[i]).key)
}

/// Whether `a` is ranked strictly before `b`: the larger key first, and the
/// smaller index first among equal keys. A NaN is neither before nor after anything.
pub open spec fn precedes(a: Candidate, b: Candidate) -> bool {
    &&& number_key(a.key)
    &&& number_key(b.key)
    &&& a.key > b.key || (a.key == b.key && a.index < b.index)
}

/// No candidate of `run` is ranked before one that stands to its left.
pub open spec fn ranked(run: Seq<Candidate>) -> bool {
    forall|i: int, j: int| 0 <= i < j < run.len() ==> !precedes(#[trigger] run[j], #[trigger] run[i])
}

// Lanes whose bit `distance` is clear.
spec fn low_lanes(distance: u32) -> u32 {
    if distance == 1 {
        0x5555_5555
    } else if distance == 2 {
        0x3333_3333
    } else if distance == 4 {
        0x0f0f_0f0f
    } else if distance == 8 {
        0x00ff_00ff
    } else if distance == 16 {
        0x0000_ffff
    } else {
        0xffff_ffff
    }
}

// The marks of `m`, each moved to the lane `distance` away.
spec fn swapped(m: u32, distance: u32) -> u32 {
    ((m >> distance) & low_lanes(distance)) | ((m & low_lanes(distance)) << distance)
}

// Lanes that keep the candidate ranked first.
spec fn wanting(sequence: u32, distance: u32) -> u32 {
    !(low_lanes(distance) ^ low_lanes(sequence))
}

// The marks after one exchange, where a mark stands for a candidate ranked before some other one:
// lanes that keep the first of a pair are marked if either is, the others if both are.
spec fn stage(m: u32, sequence: u32, distance: u32) -> u32 {
    (wanting(sequence, distance) & (m | swapped(m, distance))) | (!wanting(sequence, distance) & (m
        & swapped(m, distance)))
}

// Lanes whose right neighbour is in the same block of `size` lanes.
spec fn inner(size: u32) -> u32 {
    if size == 2 {
        0x5555_5555
    } else if size == 4 {
        0x7777_7777
    } else if size == 8 {
        0x7f7f_7f7f
    } else if size == 16 {
        0x7fff_7fff
    } else {
        0x7fff_ffff
    }
}

// Within each block of `size` lanes marks stand on the left, or on the right where the network
// sorts the block the other way.
spec fn blocks_sorted(m: u32, size: u32) -> bool {
    (!m & (m >> 1) & inner(size) & low_lanes(size)) == 0 && (m & !(m >> 1) & inner(size)
        & !low_lanes(size)) == 0
}

proof fn lemma_phase_2(m: u32)
    by (bit_vector)
    ensures
        blocks_sorted(stage(m, 2, 1), 2),
{
}

proof fn lemma_phase_4(m: u32)
    by (bit_vector)
    requires
        blocks_sorted(m, 2),
    ensures
        blocks_sorted(stage(stage(m, 4, 2), 4, 1), 4),
{
}

proof fn lemma_phase_8(m: u32)
    by (bit_vector)
    requires
        blocks_sorted(m, 4),
    ensures
        blocks_sorted(stage(stage(stage(m, 8, 4), 8, 2), 8, 1), 8),
{
}

proof fn lemma_phase_16(m: u32)
    by (bit_vector)
    requires
        blocks_sorted(m, 8),
    ensures
        blocks_sorted(stage(stage(stage(stage(m, 16, 8), 16, 4), 16, 2), 16, 1), 16),
{
}

proof fn lemma_phase_32(m: u32)
    by (bit_vector)
    requires
        blocks_sorted(m, 16),
    ensures
        blocks_sorted(stage(stage(stage(stage(stage(m, 32, 16), 32, 8), 32, 4), 32, 2), 32, 1), 32),
{
}

// The candidates among `run` that are `t` or are ranked before it, as a bit per lane.
spec fn marks(m: u32, run: Seq<Candidate>, t: Candidate) -> bool {
    forall|i: u32| i < 32 ==> ((#[trigger] (m >> i)) & 1 == 1) == !precedes(t, run[i as int])
}

spec fn valid_stage(sequence: u32, distance: u32) -> bool {
    &&& sequence == 2 || sequence == 4 || sequence == 8 || sequence == 16 || sequence == 32
    &&& distance == 1 || distance == 2 || distance == 4 || distance == 8 || distance == 16
    &&& distance < sequence
}

/// What one lane holds after it compares its candidate with that of the lane
/// `distance` away and keeps the one that its place in the network asks for.
pub open spec fn exchanged_lane(
    run: Seq<Candidate>,
    sequence: u32,
    distance: u32,
    lane: u32,
) -> Candidate {
    let local = run[lane as int];
    let partner = run[(lane ^ distance) as int];
    let wants_preceding = ((lane & distance) == 0) == ((lane & sequence) == 0);
    if wants_preceding == precedes(local, partner) {
        local
    } else {
        partner
    }
}

/// The whole run after one such exchange.
pub open spec fn exchanged(run: Seq<Candidate>, sequence: u32, distance: u32) -> Seq<Candidate> {
    Seq::new(32, |lane: int| exchanged_lane(run, sequence, distance, lane as u32))
}

/// Two lanes that meet over a NaN both end up with the candidate of the one that asks for the later of
/// the two: it keeps its own, and the other one takes it.
pub proof fn lemma_nan_spreads(run: Seq<Candidate>, sequence: u32, distance: u32, lane: u32)
    requires
        lane < 32,
        distance == 1 || distance == 2 || distance == 4 || distance == 8 || distance == 16,
        !number_key(run[lane as int].key) || !number_key(run[(lane ^ distance) as int].key),
        sequence & distance == 0,
        (lane & sequence == 0 && lane & distance == 0) || (lane & sequence != 0 && lane & distance
            != 0),
    ensures
        exchanged(run, sequence, distance)[lane as int] == run[(lane ^ distance) as int],
        exchanged(run, sequence, distance)[(lane ^ distance) as int] == run[(lane ^ distance) as int],
{
    let partner = lane ^ distance;
    assert(partner < 32 && partner ^ distance == lane && partner & sequence == lane & sequence && (
    partner & distance == 0 <==> lane & distance != 0)) by (bit_vector)
        requires
            lane < 32,
            partner == lane ^ distance,
            sequence & distance == 0,
            distance == 1 || distance == 2 || distance == 4 || distance == 8 || distance == 16,
    ;
}

proof fn lemma_marks_exist(run: Seq<Candidate>, t: Candidate, n: u32) -> (m: u32)
    requires
        run.len() == 32,
        n <= 32,
    ensures
        forall|i: u32|
            i < n ==> ((#[trigger] (m >> i)) & 1 == 1) == !precedes(t, run[i as int]),
        n < 32 ==> m < (1u32 << n),
    decreases n,
{
    if n == 0 {
        assert(0u32 < (1u32 << 0u32)) by (bit_vector);
        0
    } else {
        let k = (n - 1) as u32;
        let rest = lemma_marks_exist(run, t, k);
        let m = if precedes(t, run[k as int]) {
            rest
        } else {
            rest | (1u32 << k)
        };
        assert forall|i: u32| i < n implies ((#[trigger] (m >> i)) & 1 == 1) == !precedes(
            t,
            run[i as int],
        ) by {
            if i == k {
                assert((rest >> k) & 1 == 0 && ((rest | (1u32 << k)) >> k) & 1 == 1)
                    by (bit_vector)
                    requires
                        k < 32,
                        rest < (1u32 << k),
                ;
            } else {
                assert(((rest | (1u32 << k)) >> i) & 1 == (rest >> i) & 1) by (bit_vector)
                    requires
                        i < k,
                        k < 32,
                ;
            }
        }
        if n < 32 {
            assert(rest < (1u32 << n) && (rest | (1u32 << k)) < (1u32 << n)) by (bit_vector)
                requires
                    rest < (1u32 << k),
                    n < 32,
                    k + 1 == n,
            ;
        }
        m
    }
}

proof fn lemma_marks_exchange(
    m: u32,
    run: Seq<Candidate>,
    t: Candidate,
    sequence: u32,
    distance: u32,
)
    requires
        run.len() == 32,
        numbers(run),
        valid_stage(sequence, distance),
        marks(m, run, t),
    ensures
        marks(stage(m, sequence, distance), exchanged(run, sequence, distance), t),
{
    let next = stage(m, sequence, distance);
    assert forall|i: u32| i < 32 implies ((#[trigger] (next >> i)) & 1 == 1) == !precedes(
        t,
        exchanged(run, sequence, distance)[i as int],
    ) by {
        let j = i ^ distance;
        assert(j < 32) by (bit_vector)
            requires
                i < 32,
                j == i ^ distance,
                distance <= 16,
        ;
        let wants = ((i & distance) == 0) == ((i & sequence) == 0);
        assert(((stage(m, sequence, distance) >> i) & 1 == 1) == (if ((i & distance) == 0) == ((i
            & sequence) == 0) {
            (m >> i) & 1 == 1 || (m >> j) & 1 == 1
        } else {
            (m >> i) & 1 == 1 && (m >> j) & 1 == 1
        })) by (bit_vector)
            requires
                i < 32,
                j == i ^ distance,
                sequence == 2 || sequence == 4 || sequence == 8 || sequence == 16 || sequence == 32,
                distance == 1 || distance == 2 || distance == 4 || distance == 8 || distance == 16,
        ;
        assert((m >> i) & 1 == 1 <==> !precedes(t, run[i as int]));
        assert((m >> j) & 1 == 1 <==> !precedes(t, run[j as int]));
        assert(exchanged(run, sequence, distance)[i as int] == exchanged_lane(
            run,
            sequence,
            distance,
            i,
        ));
    }
}

/// `p` and `q` are permutations of `0..n` that undo one another.
pub open spec fn inverse_orders(p: Seq<int>, q: Seq<int>, n: nat) -> bool {
    &&& p.len() == n
    &&& q.len() == n
    &&& forall|i: int| 0 <= i < n ==> 0 <= #[trigger] p[i] < n && q[p[i]] == i
    &&& forall|i: int| 0 <= i < n ==> 0 <= #[trigger] q[i] < n && p[q[i]] == i
}

/// `after` holds at place `i` what `before` holds at place `p[i]`.
pub open spec fn reordered<A>(after: Seq<A>, before: Seq<A>, p: Seq<int>) -> bool {
    forall|i: int| 0 <= i < after.len() ==> #[trigger] after[i] == before[p[i]]
}

/// `after` holds the items of `before`, each as often, in some order.
pub open spec fn rearranged<A>(after: Seq<A>, before: Seq<A>) -> bool {
    &&& after.len() == before.len()
    &&& exists|p: Seq<int>, q: Seq<int>|
        #[trigger] inverse_orders(p, q, before.len()) && reordered(after, before, p)
}

/// A sequence is a rearrangement of itself.
pub proof fn lemma_rearranged_reflexive<A>(run: Seq<A>)
    ensures
        rearranged(run, run),
{
    let p = Seq::new(run.len(), |i: int| i);
    assert(inverse_orders(p, p, run.len()));
    assert(reordered(run, run, p));
}

/// A rearrangement of a rearrangement is one of the first sequence.
pub proof fn lemma_rearranged_transitive<A>(last: Seq<A>, middle: Seq<A>, first: Seq<A>)
    requires
        rearranged(last, middle),
        rearranged(middle, first),
    ensures
        rearranged(last, first),
{
    let n = first.len();
    let (p1, q1) = choose|p: Seq<int>, q: Seq<int>|
        #[trigger] inverse_orders(p, q, n) && reordered(middle, first, p);
    let (p2, q2) = choose|p: Seq<int>, q: Seq<int>|
        #[trigger] inverse_orders(p, q, n) && reordered(last, middle, p);
    let p = Seq::new(n, |i: int| p1[p2[i]]);
    let q = Seq::new(n, |i: int| q2[q1[i]]);
    assert(inverse_orders(p, q, n));
    assert(reordered(last, first, p)) by {
        assert forall|i: int| 0 <= i < last.len() implies #[trigger] last[i] == first[p[i]] by {
            assert(last[i] == middle[p2[i]]);
            assert(middle[p2[i]] == first[p1[p2[i]]]);
        }
    }
}

proof fn lemma_exchange_rearranges(run: Seq<Candidate>, sequence: u32, distance: u32)
    requires
        run.len() == 32,
        numbers(run),
        valid_stage(sequence, distance),
    ensures
        rearranged(exchanged(run, sequence, distance), run),
{
    let next = exchanged(run, sequence, distance);
    let p = Seq::new(
        32,
        |lane: int|
            {
                let partner = ((lane as u32) ^ distance) as int;
                let wants = (((lane as u32) & distance) == 0) == (((lane as u32) & sequence) == 0);
                if run[lane] == run[partner] || wants == precedes(run[lane], run[partner]) {
                    lane
                } else {
                    partner
                }
            },
    );
    assert forall|i: int| 0 <= i < 32 implies 0 <= #[trigger] p[i] < 32 && p[p[i]] == i by {
        let lane = i as u32;
        let partner = lane ^ distance;
        assert(partner < 32 && partner ^ distance == lane && ((((lane & distance) == 0) == ((lane
            & sequence) == 0)) != (((partner & distance) == 0) == ((partner & sequence) == 0))))
            by (bit_vector)
            requires
                lane < 32,
                partner == lane ^ distance,
                sequence == 2 || sequence == 4 || sequence == 8 || sequence == 16 || sequence == 32,
                distance == 1 || distance == 2 || distance == 4 || distance == 8 || distance == 16,
                distance < sequence,
        ;
        assert(run[i] == run[partner as int] || precedes(run[i], run[partner as int])
            == !precedes(run[partner as int], run[i]));
    }
    assert(inverse_orders(p, p, 32));
    assert forall|i: int| 0 <= i < 32 implies #[trigger] next[i] == run[p[i]] by {
        assert(next[i] == exchanged_lane(run, sequence, distance, i as u32));
    }
    assert(reordered(next, run, p));
}

proof fn lemma_rearranged_numbers(after: Seq<Candidate>, before: Seq<Candidate>)
    requires
        rearranged(after, before),
        numbers(before),
    ensures
        numbers(after),
{
    let (p, q) = choose|p: Seq<int>, q: Seq<int>|
        #[trigger] inverse_orders(p, q, before.len()) && reordered(after, before, p);
    assert forall|i: int| 0 <= i < after.len() implies number_key((#[trigger] after[i]).key) by {
        assert(after[i] == before[p[i]]);
    }
}

/// The run after the exchanges at `distance`, `distance / 2`, ..., 1.
pub open spec fn phase(run: Seq<Candidate>, sequence: u32, distance: u32) -> Seq<Candidate>
    decreases distance,
{
    if distance == 0 {
        run
    } else {
        phase(exchanged(run, sequence, distance), sequence, distance / 2)
    }
}

/// The run after the phases for `sequence`, `2 * sequence`, ..., 32.
pub open spec fn phases_from(run: Seq<Candidate>, sequence: u32) -> Seq<Candidate>
    decreases 64 - sequence,
{
    if 0 < sequence <= 32 {
        phases_from(phase(run, sequence, sequence / 2), (2 * sequence) as u32)
    } else {
        run
    }
}

/// The run after the whole network.
pub open spec fn network(run: Seq<Candidate>) -> Seq<Candidate> {
    phases_from(run, 2)
}

// Whatever the threshold, the marked lanes are sorted within blocks of `size` lanes.
spec fn sorted_to(run: Seq<Candidate>, size: u32) -> bool {
    forall|t: Candidate| #[trigger] sorted_at(run, size, t)
}

spec fn sorted_at(run: Seq<Candidate>, size: u32, t: Candidate) -> bool {
    exists|m: u32| #[trigger] marks(m, run, t) && (size > 1 ==> blocks_sorted(m, size))
}

proof fn lemma_phase_sorts(run: Seq<Candidate>, sequence: u32)
    requires
        run.len() == 32,
        numbers(run),
        valid_stage(sequence, 1),
        sorted_to(run, sequence / 2),
    ensures
        sorted_to(phase(run, sequence, sequence / 2), sequence),
{
    let last = phase(run, sequence, sequence / 2);
    assert forall|t: Candidate| #[trigger] sorted_at(last, sequence, t) by {
        assert(sorted_at(run, sequence / 2, t));
        let m = choose|m: u32|
            #[trigger] marks(m, run, t) && (sequence / 2 > 1 ==> blocks_sorted(m, sequence / 2));
        reveal_with_fuel(phase, 6);
        lemma_exchange_numbers(run, sequence);
        if sequence == 2 {
            lemma_phase_2(m);
            lemma_marks_exchange(m, run, t, 2, 1);
        } else if sequence == 4 {
            lemma_phase_4(m);
            let r1 = exchanged(run, 4, 2);
            lemma_marks_exchange(m, run, t, 4, 2);
            lemma_marks_exchange(stage(m, 4, 2), r1, t, 4, 1);
        } else if sequence == 8 {
            lemma_phase_8(m);
            let r1 = exchanged(run, 8, 4);
            let r2 = exchanged(r1, 8, 2);
            let m1 = stage(m, 8, 4);
            let m2 = stage(m1, 8, 2);
            lemma_marks_exchange(m, run, t, 8, 4);
            lemma_marks_exchange(m1, r1, t, 8, 2);
            lemma_marks_exchange(m2, r2, t, 8, 1);
        } else if sequence == 16 {
            lemma_phase_16(m);
            let r1 = exchanged(run, 16, 8);
            let r2 = exchanged(r1, 16, 4);
            let r3 = exchanged(r2, 16, 2);
            let m1 = stage(m, 16, 8);
            let m2 = stage(m1, 16, 4);
            let m3 = stage(m2, 16, 2);
            lemma_marks_exchange(m, run, t, 16, 8);
            lemma_marks_exchange(m1, r1, t, 16, 4);
            lemma_marks_exchange(m2, r2, t, 16, 2);
            lemma_marks_exchange(m3, r3, t, 16, 1);
        } else {
            lemma_phase_32(m);
            let r1 = exchanged(run, 32, 16);
            let r2 = exchanged(r1, 32, 8);
            let r3 = exchanged(r2, 32, 4);
            let r4 = exchanged(r3, 32, 2);
            let m1 = stage(m, 32, 16);
            let m2 = stage(m1, 32, 8);
            let m3 = stage(m2, 32, 4);
            let m4 = stage(m3, 32, 2);
            lemma_marks_exchange(m, run, t, 32, 16);
            lemma_marks_exchange(m1, r1, t, 32, 8);
            lemma_marks_exchange(m2, r2, t, 32, 4);
            lemma_marks_exchange(m3, r3, t, 32, 2);
            lemma_marks_exchange(m4, r4, t, 32, 1);
        }
    }
}

// The runs within a phase have numbers.
proof fn lemma_exchange_numbers(run: Seq<Candidate>, sequence: u32)
    requires
        run.len() == 32,
        numbers(run),
        valid_stage(sequence, 1),
    ensures
        ({
            let r1 = exchanged(run, sequence, (sequence / 2) as u32);
            let r2 = exchanged(r1, sequence, (sequence / 4) as u32);
            let r3 = exchanged(r2, sequence, (sequence / 8) as u32);
            let r4 = exchanged(r3, sequence, (sequence / 16) as u32);
            &&& numbers(r1)
            &&& sequence >= 4 ==> numbers(r2)
            &&& sequence >= 8 ==> numbers(r3)
            &&& sequence >= 16 ==> numbers(r4)
        }),
{
    let d = sequence / 2;
    let r1 = exchanged(run, sequence, d);
    lemma_exchange_rearranges(run, sequence, d);
    lemma_rearranged_numbers(r1, run);
    if sequence >= 4 {
        let r2 = exchanged(r1, sequence, sequence / 4);
        lemma_exchange_rearranges(r1, sequence, sequence / 4);
        lemma_rearranged_numbers(r2, r1);
        if sequence >= 8 {
            let r3 = exchanged(r2, sequence, sequence / 8);
            lemma_exchange_rearranges(r2, sequence, sequence / 8);
            lemma_rearranged_numbers(r3, r2);
            if sequence >= 16 {
                let r4 = exchanged(r3, sequence, sequence / 16);
                lemma_exchange_rearranges(r3, sequence, sequence / 16);
                lemma_rearranged_numbers(r4, r3);
            }
        }
    }
}

proof fn lemma_sorted_run_is_ranked(run: Seq<Candidate>)
    requires
        run.len() == 32,
        sorted_to(run, 32),
    ensures
        ranked(run),
{
    assert forall|i: int, j: int| 0 <= i < j < run.len() implies !precedes(
        #[trigger] run[j],
        #[trigger] run[i],
    ) by {
        let t = run[j];
        assert(sorted_at(run, 32, t));
        let m = choose|m: u32| #[trigger] marks(m, run, t) && blocks_sorted(m, 32);
        let a = i as u32;
        let b = j as u32;
        assert((m >> b) & 1 == 1);
        assert((m >> a) & 1 == 1) by (bit_vector)
            requires
                a < b,
                b < 32,
                (m >> b) & 1 == 1,
                blocks_sorted(m, 32),
        ;
    }
}

/// Whether a key is that of a number.
pub fn is_number(key: i32) -> (result: bool)
    ensures
        result == number_key(key),
{
    -INFINITY_KEY <= key && key <= INFINITY_KEY
}

/// Whether `a` is ranked before `b`.
pub fn comes_before(a: Candidate, b: Candidate) -> (before: bool)
    ensures
        before == precedes(a, b),
{
    is_number(a.key) && is_number(b.key) && (a.key > b.key || (a.key == b.key && a.index < b.index))
}

/// Every lane compares with the lane `distance` away, and each pair settles
/// which of the two candidates goes left.
fn exchange(run: &Vec<Candidate>, sequence: u32, distance: u32) -> (next: Vec<Candidate>)
    requires
        run@.len() == 32,
        valid_stage(sequence, distance),
    ensures
        next@ == exchanged(run@, sequence, distance),
{
    let mut next: Vec<Candidate> = Vec::with_capacity(LANES);
    let mut lane: u32 = 0;
    while lane < 32
        invariant
            run@.len() == 32,
            valid_stage(sequence, distance),
            lane <= 32,
            next@.len() == lane,
            forall|i: int|
                0 <= i < lane ==> #[trigger] next@[i] == exchanged_lane(
                    run@,
                    sequence,
                    distance,
                    i as u32,
                ),
        decreases 32 - lane,
    {
        let partner_lane: u32 = lane ^ distance;
        assert(partner_lane < 32) by (bit_vector)
            requires
                lane < 32,
                partner_lane == lane ^ distance,
                distance <= 16,
        ;
        let local = run[lane as usize];
        let partner = run[partner_lane as usize];
        let lower_lane = (lane & distance) == 0;
        let descending_sequence = (lane & sequence) == 0;
        let wants_preceding = lower_lane == descending_sequence;
        if wants_preceding == comes_before(local, partner) {
            next.push(local);
        } else {
            next.push(partner);
        }
        lane = lane + 1;
    }
    assert(next@ =~= exchanged(run@, sequence, distance));
    next
}

proof fn lemma_phase_rearranges(run: Seq<Candidate>, sequence: u32, distance: u32)
    requires
        run.len() == 32,
        numbers(run),
        distance == 0 || valid_stage(sequence, distance),
    ensures
        rearranged(phase(run, sequence, distance), run),
    decreases distance,
{
    if distance == 0 {
        lemma_rearranged_reflexive(run);
    } else {
        let next = exchanged(run, sequence, distance);
        lemma_exchange_rearranges(run, sequence, distance);
        lemma_rearranged_numbers(next, run);
        lemma_phase_rearranges(next, sequence, distance / 2);
        lemma_rearranged_transitive(phase(run, sequence, distance), next, run);
    }
}

proof fn lemma_phases_sort(run: Seq<Candidate>, sequence: u32)
    requires
        run.len() == 32,
        numbers(run),
        sequence == 64 || valid_stage(sequence, 1),
        sorted_to(run, sequence / 2),
    ensures
        sorted_to(phases_from(run, sequence), 32),
        rearranged(phases_from(run, sequence), run),
    decreases 64 - sequence,
{
    if sequence == 64 {
        lemma_rearranged_reflexive(run);
    } else {
        let next = phase(run, sequence, sequence / 2);
        lemma_phase_sorts(run, sequence);
        lemma_phase_rearranges(run, sequence, sequence / 2);
        lemma_rearranged_numbers(next, run);
        lemma_phases_sort(next, (2 * sequence) as u32);
        lemma_rearranged_transitive(phases_from(run, sequence), next, run);
    }
}

/// The network sorts numbers: it keeps the candidates, and none ends up left of one that is ranked
/// before it.
pub proof fn lemma_network_sorts(run: Seq<Candidate>)
    requires
        run.len() == 32,
        numbers(run),
    ensures
        ranked(network(run)),
        rearranged(network(run), run),
{
    assert forall|t: Candidate| #[trigger] sorted_at(run, 1, t) by {
        let m = lemma_marks_exist(run, t, 32);
        assert(marks(m, run, t));
    }
    lemma_phases_sort(run, 2);
    lemma_sorted_run_is_ranked(network(run));
}

/// Sends the thirty-two candidates of one SIMD group through a bitonic network, which sorts numbers.
pub fn sort_run(run: &mut Vec<Candidate>)
    requires
        old(run)@.len() == 32,
    ensures
        final(run)@.len() == 32,
        final(run)@ == network(old(run)@),
        numbers(old(run)@) ==> ranked(final(run)@) && rearranged(final(run)@, old(run)@),
{
    let ghost first = run@;
    let mut sequence: u32 = 2;
    while sequence <= 32
        invariant
            run@.len() == 32,
            sequence == 64 || valid_stage(sequence, 1),
            phases_from(run@, sequence) == network(first),
        decreases 64 - sequence,
    {
        let ghost start = run@;
        let mut distance: u32 = sequence / 2;
        while distance > 0
            invariant
                run@.len() == 32,
                distance == 0 || valid_stage(sequence, distance),
                phase(run@, sequence, distance) == phase(start, sequence, sequence / 2),
            decreases distance,
        {
            *run = exchange(run, sequence, distance);
            distance = distance / 2;
        }
        sequence = sequence * 2;
    }
    proof {
        if numbers(first) {
            lemma_network_sorts(first);
        }
    }
}

} // verus!
