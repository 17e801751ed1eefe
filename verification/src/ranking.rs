//! Ranking of logits: sorted runs of one SIMD group each, merged into the best candidates in order.

use vstd::arithmetic::div_mod::lemma_div_by_self;
use vstd::prelude::*;

use crate::bits::{is_nan, order_key, pattern_key};
use crate::bitonic::{
    comes_before, inverse_orders, is_number, lemma_network_sorts, network, number_key, numbers,
    precedes, ranked, rearranged, reordered, sort_run, Candidate, LANES,
};
use crate::shape::{lemma_strided_bound, lemma_strided_partition, strided, strided_len, strided_positions};

verus! {

/// Key of the value that stands for "no logit": the lowest starting value of every maximum.
pub const FLOOR_KEY: i32 = -2137108966;

/// Index of padding, which belongs to no logit.
pub const NO_INDEX: u32 = 0xffff_ffff;

/// Number of candidates in one sorted run.
pub const RUN: usize = 32;

/// Runs that each lane of the merging group looks after.
pub const PARTS: usize = 4;

/// Runs that the merging group looks after.
pub const SLOTS: usize = 128;

/// Most threads that one cube has.
pub const MAX_THREADS: usize = 1024;

/// Largest vocabulary, padding included, that is ranked in one cube.
pub const MAX_CAPACITY: usize = 4096;

/// The candidate that fills places without a logit.
pub open spec fn padding() -> Candidate {
    Candidate { key: FLOOR_KEY, index: NO_INDEX }
}

/// The candidate at place `i`: the logit there, or padding past the last logit.
pub open spec fn candidate(keys: Seq<i32>, i: int) -> Candidate {
    if 0 <= i < keys.len() {
        Candidate { key: keys[i], index: i as u32 }
    } else {
        padding()
    }
}

/// The thirty-two candidates that make up run `r`.
pub open spec fn unsorted_run(keys: Seq<i32>, r: int) -> Seq<Candidate> {
    Seq::new(32, |p: int| candidate(keys, 32 * r + p))
}

/// All keys are those of numbers.
pub open spec fn numeric(keys: Seq<i32>) -> bool {
    forall|i: int| 0 <= i < keys.len() ==> number_key(#[trigger] keys[i])
}

/// The runs of `capacity` candidates, each as the network leaves it.
pub open spec fn sorted_runs(keys: Seq<i32>, capacity: nat) -> Seq<Candidate> {
    Seq::new(capacity, |k: int| network(unsorted_run(keys, k / 32))[k % 32])
}

/// The part of `sorted` that holds run `r`.
pub open spec fn run_of(sorted: Seq<Candidate>, r: int) -> Seq<Candidate> {
    sorted.subrange(32 * r, 32 * r + 32)
}

/// Each of the first `count` runs of `sorted` is its run of candidates in rank order.
pub open spec fn runs_sorted(keys: Seq<i32>, sorted: Seq<Candidate>, count: int) -> bool {
    forall|r: int|
        0 <= r < count ==> #[trigger] ranked(run_of(sorted, r)) && rearranged(
            run_of(sorted, r),
            unsorted_run(keys, r),
        )
}

// Each of the first `count` runs of `sorted` is what the network makes of its run.
spec fn runs_networked(keys: Seq<i32>, sorted: Seq<Candidate>, count: int) -> bool {
    forall|r: int|
        0 <= r < count ==> #[trigger] run_of(sorted, r) == network(unsorted_run(keys, r))
}

/// Threads of the cube that sorts `capacity` candidates.
pub open spec fn cube_threads(capacity: int) -> int {
    if capacity < MAX_THREADS {
        capacity
    } else {
        MAX_THREADS as int
    }
}

/// Capacities that a cube can sort: powers of two from one run up to the largest vocabulary.
pub open spec fn valid_capacity(capacity: int) -> bool {
    capacity == 32 || capacity == 64 || capacity == 128 || capacity == 256 || capacity == 512
        || capacity == 1024 || capacity == 2048 || capacity == 4096
}

/// Sends every run of `capacity` candidates through the network, which sorts numbers. Each pass hands
/// one run to every SIMD group of the cube: group `plane` takes the candidates from
/// `plane * 32 + pass * threads` on.
pub fn sort_runs(keys: &Vec<i32>, capacity: usize) -> (sorted: Vec<Candidate>)
    requires
        valid_capacity(capacity as int),
        keys@.len() <= capacity,
    ensures
        sorted@ == sorted_runs(keys@, capacity as nat),
        numeric(keys@) ==> runs_sorted(keys@, sorted@, capacity as int / 32),
{
    let threads: usize = if capacity < MAX_THREADS {
        capacity
    } else {
        MAX_THREADS
    };
    let planes: usize = threads / RUN;
    let passes: usize = capacity / threads;
    let mut sorted: Vec<Candidate> = Vec::with_capacity(capacity);
    let mut pass: usize = 0;
    assert(planes * 32 == threads && 1 <= planes <= 32);
    proof {
        if capacity < MAX_THREADS {
            lemma_div_by_self(capacity as int);
        }
        assert(1 <= passes <= 4 && passes * threads == capacity);
        assert(passes * planes == capacity as int / 32) by (nonlinear_arith)
            requires
                passes * threads == capacity,
                planes * 32 == threads,
        ;
    }
    while pass < passes
        invariant
            valid_capacity(capacity as int),
            keys@.len() <= capacity,
            planes * 32 == threads,
            threads <= 1024,
            passes <= 4,
            pass <= passes,
            sorted@.len() == pass * threads,
            runs_networked(keys@, sorted@, pass * planes),
            passes * threads == capacity,
            passes * planes == capacity as int / 32,
        decreases passes - pass,
    {
        let mut plane: usize = 0;
        while plane < planes
            invariant
                valid_capacity(capacity as int),
                keys@.len() <= capacity,
                planes * 32 == threads,
                threads <= 1024,
                passes <= 4,
                pass < passes,
                plane <= planes,
                sorted@.len() == pass * threads + plane * 32,
                runs_networked(keys@, sorted@, pass * planes + plane),
            decreases planes - plane,
        {
            let ghost r = pass * planes + plane;
            assert(pass * threads == 32 * (pass * planes)) by (nonlinear_arith)
                requires
                    planes * 32 == threads,
            ;
            assert(pass * threads <= 3 * 1024) by (nonlinear_arith)
                requires
                    pass <= 3,
                    threads <= 1024,
            ;
            let mut run: Vec<Candidate> = Vec::with_capacity(RUN);
            let mut lane: usize = 0;
            while lane < RUN
                invariant
                    keys@.len() <= capacity,
                    valid_capacity(capacity as int),
                    lane <= 32,
                    run@.len() == lane,
                    r == pass * planes + plane,
                    pass * threads == 32 * (pass * planes),
                    pass * threads <= 3 * 1024,
                    plane < planes,
                    planes * 32 == threads,
                    threads <= 1024,
                    forall|p: int|
                        0 <= p < lane ==> #[trigger] run@[p] == candidate(keys@, 32 * r + p),
                decreases 32 - lane,
            {
                let index: usize = plane * RUN + lane + pass * threads;
                if index < keys.len() {
                    run.push(Candidate { key: keys[index], index: index as u32 });
                } else {
                    run.push(Candidate { key: FLOOR_KEY, index: NO_INDEX });
                }
                lane = lane + 1;
            }
            assert(run@ =~= unsorted_run(keys@, r));
            sort_run(&mut run);
            let ghost before = sorted@;
            let ghost block = run@;
            sorted.append(&mut run);
            proof {
                assert(sorted@ =~= before + block);
                assert forall|s: int| 0 <= s < r + 1 implies #[trigger] run_of(sorted@, s) == network(
                    unsorted_run(keys@, s),
                ) by {
                    if s < r {
                        assert(run_of(before, s) == network(unsorted_run(keys@, s)));
                        assert(run_of(sorted@, s) =~= run_of(before, s));
                    } else {
                        assert(run_of(sorted@, s) =~= block);
                    }
                }
            }
            plane = plane + 1;
        }
        assert(pass * threads + threads == (pass + 1) * threads && pass * planes + planes == (pass
            + 1) * planes) by (nonlinear_arith);
        pass = pass + 1;
    }
    proof {
        assert forall|k: int| 0 <= k < capacity implies sorted@[k] == sorted_runs(
            keys@,
            capacity as nat,
        )[k] by {
            assert(run_of(sorted@, k / 32) == network(unsorted_run(keys@, k / 32)));
            assert(sorted@[k] == run_of(sorted@, k / 32)[k % 32]);
        }
        assert(sorted@ =~= sorted_runs(keys@, capacity as nat));
        if numeric(keys@) {
            lemma_runs_are_sorted(keys@, capacity as nat);
        }
    }
    sorted
}

/// The network sorts a run of numbers, whatever the other runs hold.
pub proof fn lemma_run_is_sorted(keys: Seq<i32>, capacity: nat, r: int)
    requires
        numbers(unsorted_run(keys, r)),
        0 <= r,
        32 * r + 32 <= capacity,
    ensures
        ranked(run_of(sorted_runs(keys, capacity), r)),
        rearranged(run_of(sorted_runs(keys, capacity), r), unsorted_run(keys, r)),
{
    let (sorted, run) = (sorted_runs(keys, capacity), unsorted_run(keys, r));
    lemma_network_sorts(run);
    assert(network(run).len() == 32);
    assert forall|p: int| 0 <= p < 32 implies run_of(sorted, r)[p] == network(run)[p] by {
        assert((32 * r + p) / 32 == r && (32 * r + p) % 32 == p);
    }
    assert(run_of(sorted, r) =~= network(run));
}

// The network sorts the runs of numbers.
proof fn lemma_runs_are_sorted(keys: Seq<i32>, capacity: nat)
    requires
        numeric(keys),
        capacity % 32 == 0,
    ensures
        runs_sorted(keys, sorted_runs(keys, capacity), capacity as int / 32),
{
    let sorted = sorted_runs(keys, capacity);
    assert forall|r: int| 0 <= r < capacity as int / 32 implies #[trigger] ranked(run_of(sorted, r))
        && rearranged(run_of(sorted, r), unsorted_run(keys, r)) by {
        assert(numbers(unsorted_run(keys, r)));
        lemma_run_is_sorted(keys, capacity, r);
    }
}

/// `c` is one of the logits.
pub open spec fn is_logit(keys: Seq<i32>, c: Candidate) -> bool {
    c.index < keys.len() && c.key == keys[c.index as int]
}

/// Whether logit `i` is among the chosen.
pub open spec fn is_chosen(chosen: Seq<Candidate>, i: int) -> bool {
    exists|m: int| 0 <= m < chosen.len() && #[trigger] chosen[m].index == i
}

/// `chosen` lists the best logits in rank order: every logit that is left out is ranked after all
/// of them.
pub open spec fn best_in_order(keys: Seq<i32>, chosen: Seq<Candidate>) -> bool {
    &&& forall|m: int| 0 <= m < chosen.len() ==> is_logit(keys, #[trigger] chosen[m])
    &&& forall|l: int, m: int|
        0 <= l < m < chosen.len() ==> precedes(#[trigger] chosen[l], #[trigger] chosen[m])
    &&& forall|i: int, m: int|
        #![trigger keys[i], chosen[m]]
        0 <= i < keys.len() && 0 <= m < chosen.len() && !is_chosen(chosen, i) ==> precedes(
            chosen[m],
            candidate(keys, i),
        )
}

// What the sorted runs say of each place, whatever run it is in.
spec fn well_placed(keys: Seq<i32>, sorted: Seq<Candidate>) -> bool {
    &&& forall|k: int|
        0 <= k < sorted.len() ==> #[trigger] sorted[k] == padding() || (is_logit(keys, sorted[k])
            && sorted[k].index as int / 32 == k / 32)
    &&& forall|i: int| 0 <= i < keys.len() ==> #[trigger] has_place(keys, sorted, i)
    &&& forall|k: int, l: int|
        0 <= k < l < sorted.len() && #[trigger] sorted[k] == #[trigger] sorted[l] ==> sorted[k]
            == padding()
    &&& forall|k: int, l: int|
        0 <= k < l < sorted.len() && k / 32 == l / 32 ==> !precedes(
            #[trigger] sorted[l],
            #[trigger] sorted[k],
        )
}

spec fn has_place(keys: Seq<i32>, sorted: Seq<Candidate>, i: int) -> bool {
    exists|k: int| 0 <= k < sorted.len() && #[trigger] sorted[k] == candidate(keys, i)
}

proof fn lemma_well_placed(keys: Seq<i32>, sorted: Seq<Candidate>)
    requires
        sorted.len() % 32 == 0,
        keys.len() <= sorted.len() <= MAX_CAPACITY,
        runs_sorted(keys, sorted, sorted.len() as int / 32),
    ensures
        well_placed(keys, sorted),
{
    let count = sorted.len() as int / 32;
    assert forall|k: int| 0 <= k < sorted.len() implies #[trigger] sorted[k] == padding() || (
    is_logit(keys, sorted[k]) && sorted[k].index as int / 32 == k / 32) by {
        let r = k / 32;
        assert(ranked(run_of(sorted, r)));
        let (p, q) = choose|p: Seq<int>, q: Seq<int>|
            #[trigger] inverse_orders(p, q, 32) && reordered(
                run_of(sorted, r),
                unsorted_run(keys, r),
                p,
            );
        assert(sorted[k] == run_of(sorted, r)[k % 32]);
        assert(0 <= p[k % 32] < 32);
    }
    assert forall|i: int| 0 <= i < keys.len() implies #[trigger] has_place(keys, sorted, i) by {
        let r = i / 32;
        assert(ranked(run_of(sorted, r)));
        let (p, q) = choose|p: Seq<int>, q: Seq<int>|
            #[trigger] inverse_orders(p, q, 32) && reordered(
                run_of(sorted, r),
                unsorted_run(keys, r),
                p,
            );
        let s = q[i % 32];
        assert(0 <= s < 32 && p[s] == i % 32);
        assert(run_of(sorted, r)[s] == unsorted_run(keys, r)[p[s]]);
        assert(sorted[32 * r + s] == candidate(keys, i));
    }
    assert forall|k: int, l: int|
        0 <= k < l < sorted.len() && #[trigger] sorted[k] == #[trigger] sorted[l] implies sorted[k]
        == padding() by {
        if sorted[k] != padding() {
            let r = k / 32;
            assert(r == l / 32);
            assert(ranked(run_of(sorted, r)));
            let (p, q) = choose|p: Seq<int>, q: Seq<int>|
                #[trigger] inverse_orders(p, q, 32) && reordered(
                    run_of(sorted, r),
                    unsorted_run(keys, r),
                    p,
                );
            assert(sorted[k] == run_of(sorted, r)[k % 32]);
            assert(sorted[l] == run_of(sorted, r)[l % 32]);
            assert(q[p[k % 32]] == k % 32 && q[p[l % 32]] == l % 32);
            assert(sorted[k] == candidate(keys, 32 * r + p[k % 32]));
            assert(sorted[l] == candidate(keys, 32 * r + p[l % 32]));
        }
    }
    assert forall|k: int, l: int| 0 <= k < l < sorted.len() && k / 32 == l / 32 implies !precedes(
        #[trigger] sorted[l],
        #[trigger] sorted[k],
    ) by {
        let r = k / 32;
        let run = run_of(sorted, r);
        assert(ranked(run));
        assert(sorted[k] == run[k % 32] && sorted[l] == run[l % 32]);
    }
}

// Whether the merge has taken the candidate at place `k`.
spec fn taken(cursors: Seq<usize>, k: int) -> bool {
    k % 32 < cursors[k / 32]
}

/// What stands at the cursor of slot `r`: a candidate of run `r`, or padding past the end of a run
/// and in a slot without a run. `None` past all runs, where nothing is known of the memory.
pub open spec fn head(sorted: Seq<Candidate>, cursors: Seq<usize>, r: int) -> Option<Candidate> {
    if cursors[r] >= 32 || (cursors[r] == 0 && 32 * r >= sorted.len()) {
        Some(padding())
    } else if 32 * r + cursors[r] < sorted.len() {
        Some(sorted[32 * r + cursors[r]])
    } else {
        None
    }
}

/// Whether all heads are known.
pub open spec fn heads_known(sorted: Seq<Candidate>, cursors: Seq<usize>) -> bool {
    forall|r: int| 0 <= r < SLOTS ==> #[trigger] head(sorted, cursors, r) is Some
}

/// The best of the first `parts` heads of a lane, which has slots `lane`, `lane + 32` and so on: a
/// later one replaces an earlier one only where it is ranked before it.
pub open spec fn lane_best(
    sorted: Seq<Candidate>,
    cursors: Seq<usize>,
    lane: int,
    parts: nat,
) -> Candidate
    decreases parts,
{
    if parts <= 1 {
        head(sorted, cursors, lane)->Some_0
    } else {
        let before = lane_best(sorted, cursors, lane, (parts - 1) as nat);
        let next = head(sorted, cursors, lane + 32 * (parts - 1))->Some_0;
        if precedes(next, before) {
            next
        } else {
            before
        }
    }
}

/// The best candidate of the first `lanes` lanes.
pub open spec fn group_best(sorted: Seq<Candidate>, cursors: Seq<usize>, lanes: nat) -> Candidate
    decreases lanes,
{
    if lanes <= 1 {
        lane_best(sorted, cursors, 0, 4)
    } else {
        let before = group_best(sorted, cursors, (lanes - 1) as nat);
        let next = lane_best(sorted, cursors, lanes - 1, 4);
        if precedes(next, before) {
            next
        } else {
            before
        }
    }
}

/// Every lane offers a number.
pub open spec fn lanes_numeric(sorted: Seq<Candidate>, cursors: Seq<usize>) -> bool {
    forall|lane: int|
        0 <= lane < LANES ==> number_key((#[trigger] lane_best(sorted, cursors, lane, 4)).key)
}

/// The next rank: the best candidate that the lanes offer. `None` where a head is unknown or a lane
/// offers a NaN, of which each device makes its own maximum.
pub open spec fn next_rank(sorted: Seq<Candidate>, cursors: Seq<usize>) -> Option<Candidate> {
    if heads_known(sorted, cursors) && lanes_numeric(sorted, cursors) {
        Some(group_best(sorted, cursors, 32))
    } else {
        None
    }
}

/// The cursors after a rank: every slot whose head has its index moves on, and so do all slots that
/// show padding when padding was ranked.
pub open spec fn advanced(sorted: Seq<Candidate>, cursors: Seq<usize>, next: Candidate) -> Seq<
    usize,
> {
    Seq::new(
        128,
        |r: int|
            if cursors[r] < 32 && head(sorted, cursors, r)->Some_0.index == next.index {
                (cursors[r] + 1) as usize
            } else {
                cursors[r]
            },
    )
}

/// The next `n` ranks, or fewer where one of them is up to the device.
pub open spec fn merged(sorted: Seq<Candidate>, cursors: Seq<usize>, n: nat) -> Seq<Candidate>
    decreases n,
{
    if n == 0 {
        Seq::empty()
    } else {
        match next_rank(sorted, cursors) {
            Some(next) => seq![next] + merged(
                sorted,
                advanced(sorted, cursors, next),
                (n - 1) as nat,
            ),
            None => Seq::empty(),
        }
    }
}

/// All cursors at the start of their runs.
pub open spec fn start_cursors() -> Seq<usize> {
    Seq::new(128, |r: int| 0)
}

fn head_at(sorted: &Vec<Candidate>, cursors: &Vec<usize>, r: usize) -> (result: Option<Candidate>)
    requires
        sorted@.len() <= MAX_CAPACITY,
        cursors@.len() == SLOTS,
        r < SLOTS,
    ensures
        result == head(sorted@, cursors@, r as int),
{
    let cursor: usize = cursors[r];
    if cursor >= RUN || (cursor == 0 && RUN * r >= sorted.len()) {
        Some(Candidate { key: FLOOR_KEY, index: NO_INDEX })
    } else if RUN * r + cursor < sorted.len() {
        Some(sorted[RUN * r + cursor])
    } else {
        None
    }
}

// The best head of a lane.
fn lane_candidate(sorted: &Vec<Candidate>, cursors: &Vec<usize>, lane: usize) -> (best: Option<
    Candidate,
>)
    requires
        sorted@.len() <= MAX_CAPACITY,
        cursors@.len() == SLOTS,
        lane < LANES,
    ensures
        match best {
            Some(best) => best == lane_best(sorted@, cursors@, lane as int, 4) && forall|part: int|
                0 <= part < 4 ==> #[trigger] head(sorted@, cursors@, lane + 32 * part) is Some,
            None => !heads_known(sorted@, cursors@),
        },
{
    let mut best = match head_at(sorted, cursors, lane) {
        Some(first) => first,
        None => {
            return None;
        },
    };
    let mut part: usize = 1;
    assert(lane + 32 * 0 == lane);
    while part < PARTS
        invariant
            sorted@.len() <= MAX_CAPACITY,
            cursors@.len() == SLOTS,
            lane < LANES,
            1 <= part <= PARTS,
            best == lane_best(sorted@, cursors@, lane as int, part as nat),
            forall|p: int|
                0 <= p < part ==> #[trigger] head(sorted@, cursors@, lane + 32 * p) is Some,
        decreases PARTS - part,
    {
        match head_at(sorted, cursors, lane + 32 * part) {
            Some(next) => {
                if comes_before(next, best) {
                    best = next;
                }
            },
            None => {
                return None;
            },
        }
        part = part + 1;
    }
    Some(best)
}

// The best candidate that the lanes offer.
fn group_candidate(sorted: &Vec<Candidate>, cursors: &Vec<usize>) -> (best: Option<Candidate>)
    requires
        sorted@.len() <= MAX_CAPACITY,
        cursors@.len() == SLOTS,
    ensures
        best == next_rank(sorted@, cursors@),
{
    let mut best = Candidate { key: FLOOR_KEY, index: NO_INDEX };
    let mut lane: usize = 0;
    while lane < LANES
        invariant
            sorted@.len() <= MAX_CAPACITY,
            cursors@.len() == SLOTS,
            lane <= LANES,
            lane > 0 ==> best == group_best(sorted@, cursors@, lane as nat),
            forall|l: int, part: int|
                0 <= l < lane && 0 <= part < 4 ==> #[trigger] head(sorted@, cursors@, l + 32 * part) is Some,
            forall|l: int|
                0 <= l < lane ==> number_key((#[trigger] lane_best(sorted@, cursors@, l, 4)).key),
        decreases LANES - lane,
    {
        match lane_candidate(sorted, cursors, lane) {
            Some(candidate) => {
                if !is_number(candidate.key) {
                    assert(!number_key(lane_best(sorted@, cursors@, lane as int, 4).key));
                    return None;
                }
                if lane == 0 || comes_before(candidate, best) {
                    best = candidate;
                }
            },
            None => {
                return None;
            },
        }
        lane = lane + 1;
    }
    assert forall|r: int| 0 <= r < SLOTS implies #[trigger] head(sorted@, cursors@, r) is Some by {
        assert(head(sorted@, cursors@, r % 32 + 32 * (r / 32)) is Some);
    }
    Some(best)
}

// Moves every slot on whose head has the index of the rank.
fn advance(sorted: &Vec<Candidate>, cursors: &Vec<usize>, next: Candidate) -> (moved: Vec<usize>)
    requires
        sorted@.len() <= MAX_CAPACITY,
        cursors@.len() == SLOTS,
        heads_known(sorted@, cursors@),
    ensures
        moved@ == advanced(sorted@, cursors@, next),
{
    let mut moved: Vec<usize> = Vec::with_capacity(SLOTS);
    let mut r: usize = 0;
    while r < SLOTS
        invariant
            sorted@.len() <= MAX_CAPACITY,
            cursors@.len() == SLOTS,
            heads_known(sorted@, cursors@),
            r <= SLOTS,
            moved@.len() == r,
            forall|i: int|
                0 <= i < r ==> #[trigger] moved@[i] == advanced(sorted@, cursors@, next)[i],
        decreases SLOTS - r,
    {
        let cursor: usize = cursors[r];
        let same = match head_at(sorted, cursors, r) {
            Some(found) => found.index == next.index,
            None => false,
        };
        assert(head(sorted@, cursors@, r as int) is Some);
        if cursor < RUN && same {
            moved.push(cursor + 1);
        } else {
            moved.push(cursor);
        }
        r = r + 1;
    }
    assert(moved@ =~= advanced(sorted@, cursors@, next));
    moved
}

/// Merges sorted runs: repeatedly takes the best head, until `top_k` ranks are taken or the next one
/// is up to the device.
pub fn merge_runs(sorted: &Vec<Candidate>, top_k: usize) -> (ranks: Vec<Candidate>)
    requires
        sorted@.len() <= MAX_CAPACITY,
    ensures
        ranks@ == merged(sorted@, start_cursors(), top_k as nat),
{
    let mut cursors: Vec<usize> = vec![0; SLOTS];
    let mut ranks: Vec<Candidate> = Vec::new();
    assert(cursors@ =~= start_cursors());
    assert(ranks@ + merged(sorted@, cursors@, top_k as nat) =~= merged(
        sorted@,
        start_cursors(),
        top_k as nat,
    ));
    while ranks.len() < top_k
        invariant
            sorted@.len() <= MAX_CAPACITY,
            cursors@.len() == SLOTS,
            ranks@.len() <= top_k,
            ranks@ + merged(sorted@, cursors@, (top_k - ranks@.len()) as nat) == merged(
                sorted@,
                start_cursors(),
                top_k as nat,
            ),
        decreases top_k - ranks@.len(),
    {
        match group_candidate(sorted, &cursors) {
            Some(next) => {
                let ghost before = ranks@;
                let ghost rest = merged(
                    sorted@,
                    advanced(sorted@, cursors@, next),
                    (top_k - before.len() - 1) as nat,
                );
                assert(before + (seq![next] + rest) =~= before.push(next) + rest);
                cursors = advance(sorted, &cursors, next);
                ranks.push(next);
            },
            None => {
                assert(ranks@ + Seq::<Candidate>::empty() =~= ranks@);
                return ranks;
            },
        }
    }
    assert(ranks@ + Seq::<Candidate>::empty() =~= ranks@);
    ranks
}

/// Order keys of patterns.
pub open spec fn keys_of(logits: Seq<u32>) -> Seq<i32> {
    Seq::new(logits.len(), |i: int| order_key(logits[i]) as i32)
}

/// Some pattern is not a number.
pub open spec fn has_nan(logits: Seq<u32>) -> bool {
    exists|i: int| 0 <= i < logits.len() && #[trigger] is_nan(logits[i])
}

/// The capacity of the cube that sorts `width` candidates: the next power of two, at least one run.
pub open spec fn capacity_for(width: int) -> int {
    if width <= 32 {
        32
    } else if width <= 64 {
        64
    } else if width <= 128 {
        128
    } else if width <= 256 {
        256
    } else if width <= 512 {
        512
    } else if width <= 1024 {
        1024
    } else if width <= 2048 {
        2048
    } else {
        4096
    }
}

/// It is the smallest capacity that holds the candidates.
pub proof fn lemma_capacity_is_smallest(width: int, other: int)
    requires
        width <= MAX_CAPACITY,
        valid_capacity(other),
        width <= other,
    ensures
        valid_capacity(capacity_for(width)),
        width <= capacity_for(width) <= other,
{
}

/// The capacity of the cube that sorts `width` candidates, or `None` where no cube can sort them.
pub fn sort_capacity(width: usize) -> (capacity: Option<usize>)
    ensures
        match capacity {
            Some(capacity) => width <= MAX_CAPACITY && capacity == capacity_for(width as int),
            None => width > MAX_CAPACITY,
        },
{
    if width > MAX_CAPACITY {
        return None;
    }
    let mut capacity: usize = RUN;
    while capacity < width
        invariant
            width <= 4096,
            valid_capacity(capacity as int),
            capacity <= capacity_for(width as int),
        decreases 4096 - capacity,
    {
        capacity = capacity * 2;
    }
    Some(capacity)
}

/// The ranks of logits with these keys.
pub open spec fn ranks_of(keys: Seq<i32>, top_k: nat) -> Seq<Candidate> {
    merged(sorted_runs(keys, capacity_for(keys.len() as int) as nat), start_cursors(), top_k)
}

/// The first `count` ranks are logits at or above the floor, the best ones in order, and all of
/// these logits where more ranks are asked for. Then comes padding. Where some slots have no run,
/// the ranks end with the first padding, since these slots then read past the runs. Where every slot
/// has a run, padding and logits below the floor fill the other ranks.
pub open spec fn leading(keys: Seq<i32>, ranks: Seq<Candidate>, top_k: int, count: int) -> bool {
    &&& 0 <= count <= ranks.len() <= top_k
    &&& best_in_order(keys, ranks.take(count))
    &&& forall|m: int| 0 <= m < count ==> (#[trigger] ranks[m]).key >= FLOOR_KEY
    &&& count < top_k ==> forall|i: int|
        0 <= i < keys.len() && !is_chosen(ranks.take(count), i) ==> #[trigger] keys[i] < FLOOR_KEY
    &&& if capacity_for(keys.len() as int) < MAX_CAPACITY {
        &&& count < top_k ==> ranks.len() == count + 1 && ranks[count] == padding()
        &&& count == top_k ==> ranks.len() == count
    } else {
        &&& ranks.len() == top_k
        &&& forall|m: int|
            count <= m < top_k ==> #[trigger] ranks[m] == padding() || ranks[m].key < FLOOR_KEY
    }
}

/// The first `top_k` ranks, or those before the first one that is up to the device: where a lane
/// offers a NaN, or once a slot reads past the runs.
pub fn rank_logits(logits: &Vec<u32>, top_k: usize) -> (ranks: Vec<Candidate>)
    requires
        logits@.len() <= MAX_CAPACITY,
        top_k <= logits@.len(),
    ensures
        ranks@ == ranks_of(keys_of(logits@), top_k as nat),
        !has_nan(logits@) ==> exists|count: int|
            leading(keys_of(logits@), ranks@, top_k as int, count),
{
    let mut keys: Vec<i32> = Vec::with_capacity(logits.len());
    let mut i: usize = 0;
    while i < logits.len()
        invariant
            i <= logits@.len(),
            keys@.len() == i,
            forall|j: int| 0 <= j < i ==> #[trigger] keys@[j] == order_key(logits@[j]),
        decreases logits@.len() - i,
    {
        keys.push(pattern_key(logits[i]));
        i = i + 1;
    }
    assert(keys@ =~= keys_of(logits@));
    proof {
        if !has_nan(logits@) {
            assert forall|j: int| 0 <= j < keys@.len() implies number_key(#[trigger] keys@[j]) by {
                assert(!is_nan(logits@[j]));
            }
            lemma_ranks_lead(keys@, top_k as nat);
        }
    }
    match sort_capacity(keys.len()) {
        Some(capacity) => {
            let sorted = sort_runs(&keys, capacity);
            merge_runs(&sorted, top_k)
        },
        None => Vec::new(),
    }
}

// What the merge has done so far: it has taken the best logits in order, all of them at or above the
// floor, and no slot without a run has moved.
spec fn merging(
    keys: Seq<i32>,
    sorted: Seq<Candidate>,
    cursors: Seq<usize>,
    earlier: Seq<Candidate>,
) -> bool {
    &&& cursors.len() == SLOTS
    &&& forall|r: int|
        0 <= r < SLOTS ==> #[trigger] cursors[r] <= 32 && (32 * r >= sorted.len() ==> cursors[r] == 0)
    &&& forall|m: int|
        0 <= m < earlier.len() ==> is_logit(keys, #[trigger] earlier[m]) && earlier[m].key
            >= FLOOR_KEY
    &&& forall|l: int, m: int|
        0 <= l < m < earlier.len() ==> precedes(#[trigger] earlier[l], #[trigger] earlier[m])
    &&& forall|k: int|
        0 <= k < sorted.len() && #[trigger] taken(cursors, k) ==> earlier.contains(sorted[k])
    &&& forall|k: int, m: int|
        #![trigger taken(cursors, k), earlier[m]]
        0 <= k < sorted.len() && 0 <= m < earlier.len() && !taken(cursors, k) ==> precedes(
            earlier[m],
            sorted[k],
        )
}

/// All heads are numbers.
pub open spec fn heads_numeric(sorted: Seq<Candidate>, cursors: Seq<usize>) -> bool {
    forall|r: int|
        0 <= r < SLOTS ==> number_key((#[trigger] head(sorted, cursors, r))->Some_0.key)
}

proof fn lemma_lane_best(sorted: Seq<Candidate>, cursors: Seq<usize>, lane: int, parts: nat)
    requires
        heads_numeric(sorted, cursors),
        heads_known(sorted, cursors),
        0 <= lane < LANES,
        1 <= parts <= 4,
    ensures
        number_key(lane_best(sorted, cursors, lane, parts).key),
        exists|r: int|
            0 <= r < SLOTS && #[trigger] head(sorted, cursors, r) == Some(
                lane_best(sorted, cursors, lane, parts),
            ),
        forall|part: int|
            0 <= part < parts ==> !precedes(
                (#[trigger] head(sorted, cursors, lane + 32 * part))->Some_0,
                lane_best(sorted, cursors, lane, parts),
            ),
    decreases parts,
{
    if parts == 1 {
        assert(head(sorted, cursors, lane) is Some);
    } else {
        lemma_lane_best(sorted, cursors, lane, (parts - 1) as nat);
        assert(head(sorted, cursors, lane + 32 * (parts - 1)) is Some);
    }
}

proof fn lemma_group_best(sorted: Seq<Candidate>, cursors: Seq<usize>, lanes: nat)
    requires
        heads_numeric(sorted, cursors),
        heads_known(sorted, cursors),
        1 <= lanes <= 32,
    ensures
        number_key(group_best(sorted, cursors, lanes).key),
        exists|r: int|
            0 <= r < SLOTS && #[trigger] head(sorted, cursors, r) == Some(
                group_best(sorted, cursors, lanes),
            ),
        forall|r: int|
            0 <= r < SLOTS && r % 32 < lanes ==> !precedes(
                (#[trigger] head(sorted, cursors, r))->Some_0,
                group_best(sorted, cursors, lanes),
            ),
    decreases lanes,
{
    let lane = lanes - 1;
    lemma_lane_best(sorted, cursors, lane, 4);
    if lanes > 1 {
        lemma_group_best(sorted, cursors, (lanes - 1) as nat);
    }
    assert forall|r: int| 0 <= r < SLOTS && r % 32 < lanes implies !precedes(
        (#[trigger] head(sorted, cursors, r))->Some_0,
        group_best(sorted, cursors, lanes),
    ) by {
        assert(head(sorted, cursors, r) is Some);
        if r % 32 == lane {
            assert(head(sorted, cursors, lane + 32 * (r / 32))->Some_0 == head(
                sorted,
                cursors,
                r,
            )->Some_0);
        }
    }
}

// With numbers there is a next rank, no head is ranked before it, and it is one of the heads.
proof fn lemma_next_rank(sorted: Seq<Candidate>, cursors: Seq<usize>) -> (r: int)
    requires
        numbers(sorted),
        heads_known(sorted, cursors),
    ensures
        next_rank(sorted, cursors) is Some,
        0 <= r < SLOTS,
        head(sorted, cursors, r) == next_rank(sorted, cursors),
        number_key(next_rank(sorted, cursors)->Some_0.key),
        forall|s: int|
            0 <= s < SLOTS ==> !precedes(
                (#[trigger] head(sorted, cursors, s))->Some_0,
                next_rank(sorted, cursors)->Some_0,
            ),
{
    assert forall|s: int| 0 <= s < SLOTS implies number_key(
        (#[trigger] head(sorted, cursors, s))->Some_0.key,
    ) by {
        assert(head(sorted, cursors, s) is Some);
    }
    lemma_best_head(sorted, cursors)
}

/// Where all heads are numbers there is a next rank, whatever stands behind them: it is one of the
/// heads, and no head is ranked before it.
pub proof fn lemma_best_head(sorted: Seq<Candidate>, cursors: Seq<usize>) -> (r: int)
    requires
        heads_numeric(sorted, cursors),
        heads_known(sorted, cursors),
    ensures
        next_rank(sorted, cursors) is Some,
        0 <= r < SLOTS,
        head(sorted, cursors, r) == next_rank(sorted, cursors),
        number_key(next_rank(sorted, cursors)->Some_0.key),
        forall|s: int|
            0 <= s < SLOTS ==> !precedes(
                (#[trigger] head(sorted, cursors, s))->Some_0,
                next_rank(sorted, cursors)->Some_0,
            ),
{
    assert forall|lane: int| 0 <= lane < LANES implies number_key(
        (#[trigger] lane_best(sorted, cursors, lane, 4)).key,
    ) by {
        lemma_lane_best(sorted, cursors, lane, 4);
    }
    lemma_group_best(sorted, cursors, 32);
    choose|r: int|
        0 <= r < SLOTS && #[trigger] head(sorted, cursors, r) == Some(
            group_best(sorted, cursors, 32),
        )
}

// No candidate that is left is ranked before the next rank.
proof fn lemma_rest_not_before(
    keys: Seq<i32>,
    sorted: Seq<Candidate>,
    cursors: Seq<usize>,
    best: Candidate,
    k: int,
)
    requires
        numbers(sorted),
        sorted.len() % 32 == 0,
        sorted.len() <= MAX_CAPACITY,
        well_placed(keys, sorted),
        number_key(best.key),
        0 <= k < sorted.len(),
        !taken(cursors, k),
        forall|s: int|
            0 <= s < SLOTS ==> !precedes((#[trigger] head(sorted, cursors, s))->Some_0, best),
    ensures
        !precedes(sorted[k], best),
{
    let r = k / 32;
    assert(cursors[r] <= k % 32);
    let h = 32 * r + cursors[r];
    assert(head(sorted, cursors, r) == Some(sorted[h]));
    assert(number_key(sorted[h].key) && number_key(sorted[k].key));
    if h < k {
        assert(!precedes(sorted[k], sorted[h]));
    }
}

// A rank at or above the floor is taken from one slot, and the merge goes on.
proof fn lemma_merge_takes(
    keys: Seq<i32>,
    sorted: Seq<Candidate>,
    cursors: Seq<usize>,
    earlier: Seq<Candidate>,
    r: int,
)
    requires
        numbers(sorted),
        sorted.len() % 32 == 0,
        keys.len() <= sorted.len() <= MAX_CAPACITY,
        well_placed(keys, sorted),
        merging(keys, sorted, cursors, earlier),
        heads_known(sorted, cursors),
        0 <= r < SLOTS,
        head(sorted, cursors, r) is Some,
        head(sorted, cursors, r)->Some_0 != padding(),
        head(sorted, cursors, r)->Some_0.key >= FLOOR_KEY,
        forall|s: int|
            0 <= s < SLOTS ==> !precedes(
                (#[trigger] head(sorted, cursors, s))->Some_0,
                head(sorted, cursors, r)->Some_0,
            ),
    ensures
        ({
            let best = head(sorted, cursors, r)->Some_0;
            merging(keys, sorted, advanced(sorted, cursors, best), earlier.push(best))
        }),
{
    let best = head(sorted, cursors, r)->Some_0;
    let b = 32 * r + cursors[r];
    let next = advanced(sorted, cursors, best);
    let later = earlier.push(best);
    assert(cursors[r] < 32 && sorted[b] == best && b / 32 == r && b % 32 == cursors[r]);
    assert(is_logit(keys, best));
    assert(!taken(cursors, b));
    assert forall|s: int| 0 <= s < SLOTS implies #[trigger] next[s] == (if s == r {
        (cursors[r] + 1) as usize
    } else {
        cursors[s]
    }) by {
        assert(head(sorted, cursors, s) is Some);
        assert(cursors[s] <= 32);
        if s != r && cursors[s] < 32 && head(sorted, cursors, s)->Some_0.index == best.index {
            let h = 32 * s + cursors[s];
            assert(sorted[h] == head(sorted, cursors, s)->Some_0);
            assert(is_logit(keys, sorted[h]));
            assert(sorted[h] == sorted[b]);
            if h < b {
                assert(sorted[h] == padding());
            } else {
                assert(sorted[b] == padding());
            }
        }
    }
    assert forall|k: int| 0 <= k < sorted.len() implies #[trigger] taken(next, k) == (taken(
        cursors,
        k,
    ) || k == b) by {
        assert(next[k / 32] == (if k / 32 == r {
            (cursors[r] + 1) as usize
        } else {
            cursors[k / 32]
        }));
    }
    assert forall|k: int| 0 <= k < sorted.len() && #[trigger] taken(next, k) implies later.contains(
        sorted[k],
    ) by {
        if k == b {
            assert(later[earlier.len() as int] == sorted[k]);
        } else {
            assert(taken(cursors, k));
            let m = choose|m: int| 0 <= m < earlier.len() && earlier[m] == sorted[k];
            assert(later[m] == sorted[k]);
        }
    }
    assert forall|k: int, m: int|
        #![trigger taken(next, k), later[m]]
        0 <= k < sorted.len() && 0 <= m < later.len() && !taken(next, k) implies precedes(
        later[m],
        sorted[k],
    ) by {
        assert(!taken(cursors, k) && k != b);
        if m < earlier.len() {
            assert(later[m] == earlier[m]);
        } else {
            lemma_rest_not_before(keys, sorted, cursors, best, k);
            assert(sorted[k] != sorted[b]) by {
                if sorted[k] == sorted[b] {
                    if k < b {
                        assert(sorted[k] == padding());
                    } else {
                        assert(sorted[b] == padding());
                    }
                }
            }
            assert(number_key(sorted[k].key));
            assert(sorted[k] == padding() || is_logit(keys, sorted[k]));
        }
    }
    assert forall|l: int, m: int| 0 <= l < m < later.len() implies precedes(
        #[trigger] later[l],
        #[trigger] later[m],
    ) by {
        assert(later[l] == earlier[l]);
        if m == earlier.len() {
            assert(!taken(cursors, b));
        } else {
            assert(later[m] == earlier[m]);
        }
    }
}

// Where every slot has a run and nothing at or above the floor is left, there are as many ranks as
// are asked for, and none of them is a logit at or above the floor.
proof fn lemma_tail(keys: Seq<i32>, sorted: Seq<Candidate>, cursors: Seq<usize>, n: nat)
    requires
        numbers(sorted),
        sorted.len() == MAX_CAPACITY,
        cursors.len() == SLOTS,
        forall|k: int|
            0 <= k < sorted.len() && !#[trigger] taken(cursors, k) ==> sorted[k] == padding()
                || sorted[k].key < FLOOR_KEY,
    ensures
        merged(sorted, cursors, n).len() == n,
        forall|m: int|
            0 <= m < n ==> #[trigger] merged(sorted, cursors, n)[m] == padding() || merged(
                sorted,
                cursors,
                n,
            )[m].key < FLOOR_KEY,
    decreases n,
{
    if n > 0 {
        assert(heads_known(sorted, cursors));
        let r = lemma_next_rank(sorted, cursors);
        let best = next_rank(sorted, cursors)->Some_0;
        let next = advanced(sorted, cursors, best);
        assert(best == padding() || best.key < FLOOR_KEY) by {
            if cursors[r] < 32 {
                let k = 32 * r + cursors[r];
                assert(k / 32 == r && k % 32 == cursors[r]);
                assert(!taken(cursors, k));
            }
        }
        assert forall|k: int| 0 <= k < sorted.len() && !#[trigger] taken(next, k) implies sorted[k]
            == padding() || sorted[k].key < FLOOR_KEY by {
            assert(next[k / 32] >= cursors[k / 32]);
            assert(!taken(cursors, k));
        }
        lemma_tail(keys, sorted, next, (n - 1) as nat);
        let rest = merged(sorted, next, (n - 1) as nat);
        let ranks = merged(sorted, cursors, n);
        assert(ranks == seq![best] + rest);
        assert forall|m: int| 0 <= m < n implies #[trigger] ranks[m] == padding() || ranks[m].key
            < FLOOR_KEY by {
            if m > 0 {
                assert(ranks[m] == rest[m - 1]);
            }
        }
    }
}

// The list that the merge has begun, once `n` more ranks are taken.
proof fn lemma_merge_leads(
    keys: Seq<i32>,
    sorted: Seq<Candidate>,
    cursors: Seq<usize>,
    earlier: Seq<Candidate>,
    n: nat,
) -> (count: int)
    requires
        numbers(sorted),
        sorted.len() == capacity_for(keys.len() as int),
        keys.len() <= MAX_CAPACITY,
        well_placed(keys, sorted),
        merging(keys, sorted, cursors, earlier),
    ensures
        leading(keys, earlier + merged(sorted, cursors, n), (earlier.len() + n) as int, count),
    decreases n,
{
    let top_k = (earlier.len() + n) as int;
    let ranks = earlier + merged(sorted, cursors, n);
    if n == 0 {
        assert(ranks =~= earlier);
        assert(ranks.take(top_k) =~= earlier);
        lemma_best_so_far(keys, sorted, cursors, earlier);
        return top_k;
    }
    assert(heads_known(sorted, cursors)) by {
        assert forall|r: int| 0 <= r < SLOTS implies #[trigger] head(sorted, cursors, r) is Some by {
            assert(cursors[r] <= 32);
        }
    }
    let r = lemma_next_rank(sorted, cursors);
    let best = next_rank(sorted, cursors)->Some_0;
    let next = advanced(sorted, cursors, best);
    let rest = merged(sorted, next, (n - 1) as nat);
    assert(merged(sorted, cursors, n) == seq![best] + rest);
    if best != padding() && best.key >= FLOOR_KEY {
        lemma_merge_takes(keys, sorted, cursors, earlier, r);
        let count = lemma_merge_leads(keys, sorted, next, earlier.push(best), (n - 1) as nat);
        assert(ranks =~= earlier.push(best) + rest);
        count
    } else {
        let count = earlier.len() as int;
        assert(ranks.take(count) =~= earlier);
        lemma_best_so_far(keys, sorted, cursors, earlier);
        assert forall|k: int| 0 <= k < sorted.len() && !#[trigger] taken(cursors, k) implies (
        sorted[k] == padding() || sorted[k].key < FLOOR_KEY) by {
            lemma_rest_not_before(keys, sorted, cursors, best, k);
            assert(number_key(sorted[k].key));
        }
        assert forall|i: int| 0 <= i < keys.len() && !is_chosen(earlier, i) implies #[trigger] keys[i]
            < FLOOR_KEY by {
            assert(has_place(keys, sorted, i));
            let k = choose|k: int|
                0 <= k < sorted.len() && #[trigger] sorted[k] == candidate(keys, i);
            if taken(cursors, k) {
                let w = choose|w: int| 0 <= w < earlier.len() && earlier[w] == sorted[k];
                assert(earlier[w].index == i);
            }
        }
        assert forall|m: int| 0 <= m < count implies (#[trigger] ranks[m]).key >= FLOOR_KEY by {
            assert(ranks[m] == earlier[m]);
        }
        if sorted.len() < MAX_CAPACITY {
            assert(cursors[127] == 0);
            assert(head(sorted, cursors, 127) == Some(padding()));
            assert(!precedes(padding(), best));
            assert(best == padding());
            assert(next[127] == 1);
            assert(head(sorted, next, 127) is None);
            assert(rest =~= Seq::<Candidate>::empty());
        } else {
            lemma_tail(keys, sorted, cursors, n);
            assert forall|m: int| count <= m < top_k implies #[trigger] ranks[m] == padding()
                || ranks[m].key < FLOOR_KEY by {
                assert(ranks[m] == merged(sorted, cursors, n)[m - count]);
            }
        }
        count
    }
}

proof fn lemma_best_so_far(
    keys: Seq<i32>,
    sorted: Seq<Candidate>,
    cursors: Seq<usize>,
    earlier: Seq<Candidate>,
)
    requires
        keys.len() <= MAX_CAPACITY,
        well_placed(keys, sorted),
        merging(keys, sorted, cursors, earlier),
    ensures
        best_in_order(keys, earlier),
{
    assert forall|i: int, m: int|
        #![trigger keys[i], earlier[m]]
        0 <= i < keys.len() && 0 <= m < earlier.len() && !is_chosen(earlier, i) implies precedes(
        earlier[m],
        candidate(keys, i),
    ) by {
        assert(has_place(keys, sorted, i));
        let k = choose|k: int| 0 <= k < sorted.len() && #[trigger] sorted[k] == candidate(keys, i);
        if taken(cursors, k) {
            let w = choose|w: int| 0 <= w < earlier.len() && earlier[w] == sorted[k];
            assert(earlier[w].index == i);
        }
    }
}

/// Ranks of numbers begin with the best logits in order.
pub proof fn lemma_ranks_lead(keys: Seq<i32>, top_k: nat)
    requires
        numeric(keys),
        keys.len() <= MAX_CAPACITY,
    ensures
        exists|count: int| leading(keys, ranks_of(keys, top_k), top_k as int, count),
{
    let sorted = sorted_runs(keys, capacity_for(keys.len() as int) as nat);
    lemma_runs_are_sorted(keys, sorted.len());
    lemma_well_placed(keys, sorted);
    assert forall|k: int| 0 <= k < sorted.len() implies number_key((#[trigger] sorted[k]).key) by {
        assert(sorted[k] == padding() || is_logit(keys, sorted[k]));
    }
    let earlier = Seq::<Candidate>::empty();
    assert(merging(keys, sorted, start_cursors(), earlier)) by {
        assert forall|k: int| 0 <= k < sorted.len() implies !#[trigger] taken(start_cursors(), k) by {
            assert(start_cursors()[k / 32] == 0);
        }
    }
    let count = lemma_merge_leads(keys, sorted, start_cursors(), earlier, top_k);
    assert(earlier + ranks_of(keys, top_k) =~= ranks_of(keys, top_k));
}

/// There are at most as many ranks as are asked for.
pub proof fn lemma_merged_len(sorted: Seq<Candidate>, cursors: Seq<usize>, n: nat)
    ensures
        merged(sorted, cursors, n).len() <= n,
    decreases n,
{
    if n > 0 {
        match next_rank(sorted, cursors) {
            Some(next) => {
                lemma_merged_len(sorted, advanced(sorted, cursors, next), (n - 1) as nat);
            },
            None => {},
        }
    }
}

/// Merging for more ranks leaves the first ones as they are.
pub proof fn lemma_merged_prefix(sorted: Seq<Candidate>, cursors: Seq<usize>, fewer: nat, more: nat)
    requires
        fewer <= more,
    ensures
        merged(sorted, cursors, fewer).is_prefix_of(merged(sorted, cursors, more)),
    decreases fewer,
{
    if fewer > 0 {
        match next_rank(sorted, cursors) {
            Some(next) => {
                let rest = advanced(sorted, cursors, next);
                lemma_merged_prefix(sorted, rest, (fewer - 1) as nat, (more - 1) as nat);
                let (a, b) = (
                    merged(sorted, rest, (fewer - 1) as nat),
                    merged(sorted, rest, (more - 1) as nat),
                );
                assert(merged(sorted, cursors, fewer) == seq![next] + a);
                assert(merged(sorted, cursors, more) == seq![next] + b);
                assert(a =~= b.take(a.len() as int));
                assert((seq![next] + a) =~= (seq![next] + b).take(a.len() as int + 1));
            },
            None => {},
        }
    }
}

/// Asking for more ranks leaves the first ones as they are.
pub proof fn lemma_ranks_extend(keys: Seq<i32>, fewer: nat, more: nat)
    requires
        fewer <= more,
    ensures
        ranks_of(keys, fewer).is_prefix_of(ranks_of(keys, more)),
{
    lemma_merged_prefix(
        sorted_runs(keys, capacity_for(keys.len() as int) as nat),
        start_cursors(),
        fewer,
        more,
    );
}

/// Where every logit is a number at or above the floor, all ranks are logits.
pub proof fn lemma_ranks_are_logits(keys: Seq<i32>, top_k: nat)
    requires
        numeric(keys),
        top_k <= keys.len() <= MAX_CAPACITY,
        forall|i: int| 0 <= i < keys.len() ==> #[trigger] keys[i] >= FLOOR_KEY,
    ensures
        ranks_of(keys, top_k).len() == top_k,
        best_in_order(keys, ranks_of(keys, top_k)),
        forall|m: int| 0 <= m < top_k ==> is_logit(keys, #[trigger] ranks_of(keys, top_k)[m]),
{
    lemma_ranks_lead(keys, top_k);
    let ranks = ranks_of(keys, top_k);
    let count = choose|count: int| leading(keys, ranks, top_k as int, count);
    let chosen = ranks.take(count);
    if count < top_k {
        let found = chosen.map_values(|c: Candidate| c.index as int).to_set();
        let all = vstd::set_lib::set_int_range(0, keys.len() as int);
        vstd::set_lib::lemma_int_range(0, keys.len() as int);
        assert forall|i: int| all.contains(i) implies found.contains(i) by {
            assert(keys[i] >= FLOOR_KEY);
            assert(is_chosen(chosen, i));
            let m = choose|m: int| 0 <= m < chosen.len() && #[trigger] chosen[m].index == i;
            assert(chosen.map_values(|c: Candidate| c.index as int)[m] == i);
        }
        chosen.map_values(|c: Candidate| c.index as int).lemma_cardinality_of_set();
        vstd::set_lib::lemma_len_subset(all, found);
    }
    assert(ranks.take(count) =~= ranks);
}

/// The best logits are determined by their number: there is one list of each length.
pub proof fn lemma_ranking_unique(keys: Seq<i32>, a: Seq<Candidate>, b: Seq<Candidate>)
    requires
        numeric(keys),
        best_in_order(keys, a),
        best_in_order(keys, b),
        a.len() == b.len(),
    ensures
        a == b,
{
    lemma_ranking_prefix(keys, a, b, a.len() as int);
    assert(a =~= b);
}

proof fn lemma_ranking_prefix(keys: Seq<i32>, a: Seq<Candidate>, b: Seq<Candidate>, n: int)
    requires
        numeric(keys),
        best_in_order(keys, a),
        best_in_order(keys, b),
        0 <= n <= a.len(),
        n <= b.len(),
    ensures
        forall|m: int| 0 <= m < n ==> #[trigger] a[m] == b[m],
    decreases n,
{
    if n > 0 {
        lemma_ranking_prefix(keys, a, b, n - 1);
        lemma_not_ahead(keys, a, b, n - 1);
        lemma_not_ahead(keys, b, a, n - 1);
        assert(is_logit(keys, a[n - 1]) && is_logit(keys, b[n - 1]));
    }
}

// What follows a common prefix in one list does not precede what follows it in the other.
proof fn lemma_not_ahead(keys: Seq<i32>, a: Seq<Candidate>, b: Seq<Candidate>, m: int)
    requires
        best_in_order(keys, a),
        best_in_order(keys, b),
        0 <= m < a.len(),
        m < b.len(),
        forall|l: int| 0 <= l < m ==> #[trigger] a[l] == b[l],
    ensures
        !precedes(a[m], b[m]),
{
    let i = a[m].index as int;
    assert(is_logit(keys, a[m]));
    assert(candidate(keys, i) == a[m]);
    if is_chosen(b, i) {
        let l = choose|l: int| 0 <= l < b.len() && #[trigger] b[l].index == i;
        assert(is_logit(keys, b[l]));
        assert(b[l] == a[m]);
        if l < m {
            assert(a[l] == b[l]);
            assert(precedes(a[l], a[m]));
        }
    } else {
        assert(keys[i] == keys[i]);
    }
}

/// The first of the best logits is the greatest one, and the earliest among equals.
pub proof fn lemma_first_is_greatest(keys: Seq<i32>, chosen: Seq<Candidate>, i: int)
    requires
        best_in_order(keys, chosen),
        chosen.len() > 0,
        0 <= i < keys.len() <= MAX_CAPACITY,
    ensures
        keys[i] <= chosen[0].key,
        keys[i] == chosen[0].key ==> chosen[0].index <= i,
{
    if is_chosen(chosen, i) {
        let m = choose|m: int| 0 <= m < chosen.len() && #[trigger] chosen[m].index == i;
        assert(is_logit(keys, chosen[m]));
        if m > 0 {
            assert(precedes(chosen[0], chosen[m]));
        }
    } else {
        assert(precedes(chosen[0], candidate(keys, i)));
    }
}

/// The greatest of the keys that are those of numbers, or the floor where all lie below it.
pub open spec fn is_maximum(keys: Seq<i32>, maximum: int) -> bool {
    &&& maximum >= FLOOR_KEY
    &&& forall|i: int|
        0 <= i < keys.len() && number_key(keys[i]) ==> #[trigger] keys[i] <= maximum
    &&& maximum == FLOOR_KEY || exists|i: int|
        0 <= i < keys.len() && number_key(keys[i]) && #[trigger] keys[i] == maximum
}

// The greatest key among those that threads `first..last` take in their passes.
fn threads_maximum(keys: &Vec<i32>, first: usize, last: usize, threads: usize) -> (maximum: i32)
    requires
        0 < threads,
        first <= last <= threads,
    ensures
        maximum >= FLOOR_KEY,
        forall|i: int|
            0 <= i < keys@.len() && number_key(keys@[i]) && first <= i % (threads as int) < last
                ==> #[trigger] keys@[i]
                <= maximum,
        maximum == FLOOR_KEY || exists|i: int|
            0 <= i < keys@.len() && number_key(keys@[i]) && #[trigger] keys@[i] == maximum,
{
    let mut maximum: i32 = FLOOR_KEY;
    let mut unit: usize = first;
    while unit < last
        invariant
            0 < threads,
            first <= unit <= last <= threads,
            maximum >= FLOOR_KEY,
            forall|i: int|
                0 <= i < keys@.len() && number_key(keys@[i]) && first <= i % (threads as int) < unit
                    ==> #[trigger] keys@[i]
                    <= maximum,
            maximum == FLOOR_KEY || exists|i: int|
                0 <= i < keys@.len() && number_key(keys@[i]) && #[trigger] keys@[i] == maximum,
        decreases last - unit,
    {
        let positions = strided_positions(unit, threads, keys.len());
        let ghost before = maximum;
        let mut pass: usize = 0;
        while pass < positions.len()
            invariant
                pass <= positions@.len(),
                positions@.len() == strided_len(unit as int, threads as int, keys@.len() as int),
                forall|k: int|
                    0 <= k < positions@.len() ==> #[trigger] positions@[k] == strided(
                        unit as int,
                        threads as int,
                        keys@.len() as int,
                    )[k],
                0 < threads,
                unit < threads,
                maximum >= before,
                maximum >= FLOOR_KEY,
                forall|k: int|
                    0 <= k < pass && number_key(keys@[positions@[k] as int]) ==> keys@[#[trigger] positions@[k] as int]
                        <= maximum,
                maximum == FLOOR_KEY || exists|i: int|
                    0 <= i < keys@.len() && number_key(keys@[i]) && #[trigger] keys@[i] == maximum,
            decreases positions@.len() - pass,
        {
            proof {
                lemma_strided_bound(unit as int, threads as int, keys@.len() as int, pass as int);
            }
            let key: i32 = keys[positions[pass]];
            if is_number(key) && key > maximum {
                maximum = key;
            }
            pass = pass + 1;
        }
        proof {
            assert forall|i: int|
                0 <= i < keys@.len() && number_key(keys@[i]) && first <= i % (threads as int) < unit + 1
                implies #[trigger] keys@[i]
                <= maximum by {
                if i % (threads as int) == unit {
                    lemma_strided_partition(threads as int, keys@.len() as int, i);
                    assert(positions@[i / (threads as int)] == i);
                }
            }
        }
        unit = unit + 1;
    }
    maximum
}

/// The greatest logit that is a number: every thread takes its share of the logits, every SIMD group the greatest of
/// its threads, and the first group the greatest of all groups.
pub fn maximum_key(keys: &Vec<i32>, capacity: usize) -> (maximum: i32)
    requires
        valid_capacity(capacity as int),
    ensures
        is_maximum(keys@, maximum as int),
{
    let threads: usize = if capacity < MAX_THREADS {
        capacity
    } else {
        MAX_THREADS
    };
    let planes: usize = threads / RUN;
    let mut maximum: i32 = FLOOR_KEY;
    let mut plane: usize = 0;
    while plane < planes
        invariant
            planes * 32 == threads,
            plane <= planes,
            threads <= 1024,
            0 < threads,
            maximum >= FLOOR_KEY,
            forall|i: int|
                0 <= i < keys@.len() && number_key(keys@[i]) && i % (threads as int) < plane * 32
                    ==> #[trigger] keys@[i]
                    <= maximum,
            maximum == FLOOR_KEY || exists|i: int|
                0 <= i < keys@.len() && number_key(keys@[i]) && #[trigger] keys@[i] == maximum,
        decreases planes - plane,
    {
        let plane_maximum: i32 = threads_maximum(keys, plane * RUN, plane * RUN + RUN, threads);
        if plane_maximum > maximum {
            maximum = plane_maximum;
        }
        plane = plane + 1;
    }
    proof {
        assert forall|i: int| 0 <= i < keys@.len() && number_key(keys@[i]) implies #[trigger] keys@[i]
            <= maximum by {
            vstd::arithmetic::div_mod::lemma_mod_bound(i, threads as int);
        }
    }
    maximum
}

} // verus!
