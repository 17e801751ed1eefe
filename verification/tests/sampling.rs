use burn_metal::bitonic::{sort_run, Candidate};
use burn_metal::bits::pattern_key;
use burn_metal::ranking::{maximum_key, rank_logits, sort_capacity, sort_runs, FLOOR_KEY};
use burn_metal::sampling::{next_cursor, random_index, sample, select, Sampled, Selection};
use burn_metal::scheme::DType;

struct Noise(u64);

impl Noise {
    fn next(&mut self) -> f32 {
        self.0 = self.0.wrapping_mul(6364136223846793005).wrapping_add(1442695040888963407);
        ((self.0 >> 40) as f32 / 16777216.0) * 20.0 - 10.0
    }
}

fn noise(seed: u64, n: usize) -> Vec<f32> {
    let mut noise = Noise(seed);
    (0..n).map(|_| noise.next()).collect()
}

fn bits(values: &[f32]) -> Vec<u32> {
    values.iter().map(|v| v.to_bits()).collect()
}

fn expected_ranking(values: &[f32], top_k: usize) -> Vec<u32> {
    let mut order: Vec<u32> = (0..values.len() as u32).collect();
    order.sort_by(|a, b| {
        values[*b as usize].partial_cmp(&values[*a as usize]).unwrap().then(a.cmp(b))
    });
    order.truncate(top_k);
    order
}

fn indices(chosen: &[Candidate]) -> Vec<u32> {
    chosen.iter().map(|c| c.index).collect()
}

#[test]
fn a_run_is_sorted_with_ties_by_index() {
    let mut run: Vec<Candidate> = (0..32u32)
        .map(|i| Candidate { key: ((i * 7) % 5) as i32, index: i })
        .collect();
    let mut expected = run.clone();
    expected.sort_by(|a, b| b.key.cmp(&a.key).then(a.index.cmp(&b.index)));
    sort_run(&mut run);
    assert_eq!(run, expected);
}

#[test]
fn runs_are_sorted_separately() {
    let keys: Vec<i32> = (0..100).map(|i| (i * 37) % 101).collect();
    let sorted = sort_runs(&keys, 128);
    assert_eq!(sorted.len(), 128);
    for r in 0..4 {
        let mut expected: Vec<Candidate> = (32 * r..32 * r + 32)
            .map(|i| {
                if i < keys.len() {
                    Candidate { key: keys[i], index: i as u32 }
                } else {
                    Candidate { key: FLOOR_KEY, index: u32::MAX }
                }
            })
            .collect();
        expected.sort_by(|a, b| b.key.cmp(&a.key).then(a.index.cmp(&b.index)));
        assert_eq!(&sorted[32 * r..32 * r + 32], &expected[..]);
    }
}

#[test]
fn capacities_are_powers_of_two() {
    assert_eq!(sort_capacity(0), Some(32));
    assert_eq!(sort_capacity(1), Some(32));
    assert_eq!(sort_capacity(32), Some(32));
    assert_eq!(sort_capacity(33), Some(64));
    assert_eq!(sort_capacity(1000), Some(1024));
    assert_eq!(sort_capacity(2049), Some(4096));
    assert_eq!(sort_capacity(4096), Some(4096));
    assert_eq!(sort_capacity(4097), None);
}

#[test]
fn ranking_agrees_with_a_full_sort() {
    for (seed, width) in [(1, 1), (2, 31), (3, 32), (4, 33), (5, 500), (6, 1025), (7, 4096)] {
        let logits = noise(seed, width);
        for top_k in [1, 2, 17, width].into_iter().filter(|k| *k <= width) {
            let chosen = rank_logits(&bits(&logits), top_k);
            assert_eq!(indices(&chosen), expected_ranking(&logits, top_k), "{width} {top_k}");
        }
    }
}

#[test]
fn equal_logits_rank_by_index() {
    let logits = vec![1.0f32; 70];
    let chosen = rank_logits(&bits(&logits), 70);
    assert_eq!(indices(&chosen), (0..70).collect::<Vec<u32>>());
}

#[test]
fn both_zeros_are_equal() {
    let chosen = rank_logits(&bits(&[-0.0, 0.0, -1.0]), 3);
    assert_eq!(indices(&chosen), vec![0, 1, 2]);
}

fn padding() -> Candidate {
    Candidate { key: FLOOR_KEY, index: u32::MAX }
}

#[test]
fn padding_is_ranked_before_logits_below_the_floor() {
    let logits = [1.0, f32::NEG_INFINITY, 2.0, -3.2e38];
    assert_eq!(indices(&rank_logits(&bits(&logits), 2)), vec![2, 0]);
    assert_eq!(indices(&rank_logits(&bits(&logits), 3)), vec![2, 0, u32::MAX]);
    let ranks = rank_logits(&bits(&logits), 4);
    assert_eq!(indices(&ranks), vec![2, 0, u32::MAX]);
    assert_eq!(ranks[2], padding());
}

#[test]
fn sampling_goes_on_with_padding() {
    let ranks = rank_logits(&bits(&[1.0, f32::NEG_INFINITY]), 2);
    assert_eq!(ranks, vec![Candidate { key: 1.0f32.to_bits() as i32, index: 0 }, padding()]);
    let selection = select(&ranks, &vec![false, false], &bits(&[1.5, -3.0e38]), 2);
    assert_eq!(selection, Some(Selection { token: 0, kept: 2 }));
    assert_eq!(next_cursor(&DType::I32, 7, 2), Some(9));
}

#[test]
fn without_a_logit_at_the_floor_padding_is_sampled() {
    let ranks = rank_logits(&bits(&[f32::NEG_INFINITY; 3]), 1);
    assert_eq!(ranks, vec![padding()]);
    let selection = select(&ranks, &vec![false], &bits(&[-3.0e38]), 1);
    assert_eq!(selection, Some(Selection { token: u32::MAX, kept: 1 }));
}

#[test]
fn full_runs_rank_logits_below_the_floor_until_one_is_used_up() {
    let ranks = rank_logits(&bits(&vec![f32::NEG_INFINITY; 4096]), 40);
    let expected: Vec<u32> = (0..32).chain(std::iter::repeat(u32::MAX).take(8)).collect();
    assert_eq!(indices(&ranks), expected);
}

#[test]
fn padding_of_the_last_run_comes_before_logits_below_the_floor() {
    let ranks = rank_logits(&bits(&vec![f32::NEG_INFINITY; 4094]), 6);
    assert_eq!(indices(&ranks), vec![u32::MAX, u32::MAX, 0, 1, 2, 3]);
}

#[test]
fn a_logit_at_the_floor_is_ranked() {
    let chosen = rank_logits(&bits(&[-3.0e38, 0.0]), 2);
    assert_eq!(indices(&chosen), vec![1, 0]);
}

fn precedes(a: (f32, u32), b: (f32, u32)) -> bool {
    a.0 > b.0 || (a.0 == b.0 && a.1 < b.1)
}

// The kernel on plain floats, up to the first rank that a device would decide.
fn kernel_ranks(logits: &[f32], capacity: usize, top_k: usize) -> Vec<u32> {
    let blank = (-3.0e38f32, u32::MAX);
    let mut sorted = Vec::new();
    for r in 0..capacity / 32 {
        let mut run: Vec<(f32, u32)> = (32 * r..32 * r + 32)
            .map(|i| if i < logits.len() { (logits[i], i as u32) } else { blank })
            .collect();
        let mut sequence = 2usize;
        while sequence <= 32 {
            let mut distance = sequence / 2;
            while distance > 0 {
                run = (0..32usize)
                    .map(|lane| {
                        let (local, partner) = (run[lane], run[lane ^ distance]);
                        let wants = ((lane & distance) == 0) == ((lane & sequence) == 0);
                        if wants != precedes(local, partner) { partner } else { local }
                    })
                    .collect();
                distance /= 2;
            }
            sequence *= 2;
        }
        sorted.extend(run);
    }
    let mut cursors = vec![0usize; 128];
    let mut heads: Vec<Option<(f32, u32)>> = (0..128)
        .map(|r| Some(if 32 * r < capacity { sorted[32 * r] } else { blank }))
        .collect();
    let mut ranks = Vec::new();
    while ranks.len() < top_k {
        if heads.iter().any(|head| head.is_none()) {
            break;
        }
        let lanes: Vec<(f32, u32)> = (0..32)
            .map(|lane| {
                let mut best = heads[lane].unwrap();
                for part in 1..4 {
                    let next = heads[lane + 32 * part].unwrap();
                    if precedes(next, best) {
                        best = next;
                    }
                }
                best
            })
            .collect();
        if lanes.iter().any(|lane| lane.0.is_nan()) {
            break;
        }
        let value = lanes.iter().fold(f32::NEG_INFINITY, |m, lane| m.max(lane.0));
        let index = lanes.iter().filter(|lane| lane.0 == value).map(|lane| lane.1).min().unwrap();
        ranks.push(index);
        for r in 0..128 {
            if heads[r].unwrap().1 == index {
                cursors[r] += 1;
                heads[r] = if cursors[r] < 32 {
                    sorted.get(32 * r + cursors[r]).copied()
                } else {
                    Some(blank)
                };
            }
        }
    }
    ranks
}

#[test]
fn ranks_are_those_of_the_kernel_whatever_the_logits() {
    let odd = [f32::NAN, f32::NEG_INFINITY, -3.0e38, -3.2e38, f32::INFINITY, -0.0];
    for (seed, width) in [(41, 2), (42, 32), (43, 40), (44, 700), (45, 2049), (46, 4096)] {
        for every in [2usize, 3, 7, 50] {
            let mut logits = noise(seed, width);
            for i in (0..width).step_by(every) {
                logits[i] = odd[(i / every + every) % odd.len()];
            }
            let capacity = sort_capacity(width).unwrap();
            for top_k in [1, width / 2, width] {
                let ranks = rank_logits(&bits(&logits), top_k);
                assert_eq!(indices(&ranks), kernel_ranks(&logits, capacity, top_k), "{width} {every}");
            }
        }
    }
}

#[test]
fn a_nan_displaces_logits_in_the_network() {
    let ranks = rank_logits(&bits(&[1.0, f32::NAN]), 2);
    assert_eq!(indices(&ranks), kernel_ranks(&[1.0, f32::NAN], 32, 2));
    let keys: Vec<i32> = [1.0, f32::NAN].iter().map(|l: &f32| pattern_key(l.to_bits())).collect();
    assert_eq!(maximum_key(&keys, 32), 1.0f32.to_bits() as i32);
}

#[test]
fn the_maximum_is_that_of_all_groups() {
    for (seed, width, capacity) in [(11, 20, 32), (12, 700, 1024), (13, 3000, 4096)] {
        let logits = noise(seed, width);
        let keys: Vec<i32> = logits.iter().map(|l| pattern_key(l.to_bits())).collect();
        assert_eq!(maximum_key(&keys, capacity), *keys.iter().max().unwrap());
        let chosen = rank_logits(&bits(&logits), 1);
        assert_eq!(chosen[0].key, maximum_key(&keys, capacity));
    }
    assert_eq!(maximum_key(&vec![], 32), FLOOR_KEY);
    assert_eq!(maximum_key(&vec![FLOOR_KEY - 5], 32), FLOOR_KEY);
}

fn candidates(indices: &[u32]) -> Vec<Candidate> {
    indices.iter().map(|i| Candidate { key: -(*i as i32), index: *i }).collect()
}

#[test]
fn the_best_candidate_is_kept_whatever_its_probability() {
    let chosen = candidates(&[5, 6, 7]);
    let selection = select(&chosen, &vec![true, true, true], &bits(&[0.0, 9.0, 9.0]), 3);
    assert_eq!(selection, Some(Selection { token: 5, kept: 1 }));
}

#[test]
fn ranks_are_kept_up_to_the_first_one_over_the_limit() {
    let chosen = candidates(&[5, 6, 7, 8]);
    let over = vec![false, false, true, false];
    let selection = select(&chosen, &over, &bits(&[1.0, 2.0, 9.0, 9.0]), 4);
    assert_eq!(selection, Some(Selection { token: 6, kept: 2 }));
}

#[test]
fn the_greatest_score_wins_and_the_first_among_equals() {
    let chosen = candidates(&[5, 6, 7, 8]);
    let over = vec![false; 4];
    let selection = select(&chosen, &over, &bits(&[1.0, 3.0, 3.0, 2.0]), 4);
    assert_eq!(selection, Some(Selection { token: 6, kept: 4 }));
}

#[test]
fn a_nan_score_is_not_replaced() {
    let chosen = candidates(&[5, 6]);
    let selection = select(&chosen, &vec![false; 2], &bits(&[f32::NAN, 3.0]), 2);
    assert_eq!(selection, Some(Selection { token: 5, kept: 2 }));
}

#[test]
fn selection_ends_where_the_next_rank_is_unknown() {
    let chosen = candidates(&[5, 6]);
    assert_eq!(select(&chosen, &vec![false; 2], &bits(&[1.0, 2.0]), 3), None);
    assert_eq!(
        select(&chosen, &vec![false, true], &bits(&[1.0, 2.0]), 3),
        Some(Selection { token: 5, kept: 1 })
    );
}

#[test]
fn one_candidate_is_the_greatest_logit() {
    let logits = noise(21, 300);
    let chosen = rank_logits(&bits(&logits), 1);
    let selection = select(&chosen, &vec![true], &bits(&[-5.0]), 1).unwrap();
    assert_eq!(selection.token, expected_ranking(&logits, 1)[0]);
    assert_eq!(selection.kept, 1);
}

#[test]
fn sampling_with_real_probabilities() {
    let logits = noise(31, 200);
    let gumbel = noise(32, 64);
    let (temperature, top_p, top_k, cursor) = (0.8f32, 0.9f32, 20usize, 7i128);
    let chosen = rank_logits(&bits(&logits), top_k);
    let maximum = logits.iter().cloned().fold(f32::MIN, f32::max);
    let base: f32 = logits.iter().map(|l| (l - maximum).exp()).sum();
    let mut cumulative = 0.0f32;
    let mut over = Vec::new();
    let mut scores = Vec::new();
    for (rank, candidate) in chosen.iter().enumerate() {
        let logit = logits[candidate.index as usize];
        cumulative += (logit - maximum).exp() / base;
        over.push(cumulative > top_p);
        let index = random_index(cursor, rank, gumbel.len()).unwrap();
        scores.push((logit / temperature + gumbel[index]).to_bits());
    }
    let selection = select(&chosen, &over, &scores, top_k).unwrap();

    let order = expected_ranking(&logits, top_k);
    let mut cumulative = 0.0f32;
    let (mut best, mut best_score, mut kept) = (0, 0.0f32, 0);
    for (rank, index) in order.iter().enumerate() {
        let logit = logits[*index as usize];
        cumulative += (logit - maximum).exp() / base;
        if rank > 0 && cumulative > top_p {
            break;
        }
        let score = logit / temperature + gumbel[7 + rank];
        if kept == 0 || score > best_score {
            best_score = score;
            best = *index;
        }
        kept = rank + 1;
    }
    assert_eq!(selection, Selection { token: best, kept });
    assert_eq!(next_cursor(&DType::I64, cursor, selection.kept), Some(7 + kept as i128));
}

#[test]
fn cursors_stay_within_their_type() {
    assert_eq!(next_cursor(&DType::I32, 10, 5), Some(15));
    assert_eq!(next_cursor(&DType::I32, i32::MAX as i128, 1), None);
    assert_eq!(next_cursor(&DType::I64, i32::MAX as i128, 1), Some(i32::MAX as i128 + 1));
    assert_eq!(next_cursor(&DType::U8, 250, 6), None);
    assert_eq!(next_cursor(&DType::I16, -3, 4096), Some(4093));
}

#[test]
fn random_scores_are_read_from_the_cursor_on() {
    assert_eq!(random_index(3, 2, 10), Some(5));
    assert_eq!(random_index(3, 7, 10), None);
    assert_eq!(random_index(-1, 5, 10), None);
    assert_eq!(random_index(12, 0, 10), None);
}

#[test]
fn consecutive_draws_use_different_scores() {
    let kept = 4usize;
    let next = next_cursor(&DType::I64, 100, kept).unwrap();
    let first: Vec<usize> = (0..kept).map(|r| random_index(100, r, 1000).unwrap()).collect();
    let second: Vec<usize> = (0..kept).map(|r| random_index(next, r, 1000).unwrap()).collect();
    assert!(first.iter().all(|i| !second.contains(i)));
}

#[test]
fn a_sample_is_a_token_and_the_next_cursor() {
    let logits = bits(&[0.5, 2.0, 1.0]);
    let over = vec![false, false, true];
    let scores = bits(&[2.1, 2.2, 9.0]);
    assert_eq!(
        sample(&logits, &over, &scores, 3, &DType::I32, 40),
        Some(Sampled { token: 2, next_cursor: 42 })
    );
    assert_eq!(
        sample(&logits, &over, &scores, 3, &DType::I8, 127),
        None,
    );
    assert_eq!(
        sample(&bits(&[1.0, f32::NEG_INFINITY]), &vec![false; 2], &bits(&[1.5, -3.0e38]), 2, &DType::I64, 5),
        Some(Sampled { token: 0, next_cursor: 7 })
    );
    let low = vec![f32::NEG_INFINITY; 3];
    assert_eq!(sample(&bits(&low), &vec![false; 3], &bits(&[0.0; 3]), 3, &DType::I64, 5), None);
}

#[test]
fn wider_limits_use_no_fewer_random_scores() {
    let logits = noise(51, 60);
    let scores = bits(&noise(52, 60));
    let cumulative: Vec<f32> = (1..=60).map(|r| r as f32 / 60.0).collect();
    let drawn = |top_p: f32, top_k: usize| {
        let over: Vec<bool> = (0..top_k).map(|r| cumulative[r] > top_p).collect();
        let scores = scores[..top_k].to_vec();
        sample(&bits(&logits), &over, &scores, top_k, &DType::I64, 100).unwrap()
    };
    let mut last = 100;
    for (top_p, top_k) in [(0.001, 1), (0.001, 9), (0.1, 9), (0.5, 9), (0.5, 40), (1.0, 60)] {
        let sampled = drawn(top_p, top_k);
        assert!(sampled.next_cursor >= last.max(101) && sampled.next_cursor <= 100 + top_k as i128);
        assert!(sampled.token < 60);
        last = sampled.next_cursor;
    }
    assert_eq!(last, 160);
}

#[test]
fn more_ranks_begin_with_the_same_ones() {
    let logits = bits(&noise(53, 300));
    let all = rank_logits(&logits, 300);
    for top_k in [1, 2, 50, 299] {
        assert_eq!(rank_logits(&logits, top_k), all[..top_k]);
    }
}
