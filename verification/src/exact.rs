//! Exact arithmetic on real numbers: sums and their terms.

use vstd::prelude::*;

use crate::bitonic::{inverse_orders, reordered};
use crate::shape::{lemma_pair, lemma_strided_position, strided};

verus! {

/// How far `a` is from `b`.
pub open spec fn distance(a: real, b: real) -> real {
    if a < b {
        b - a
    } else {
        a - b
    }
}

/// The sum of some numbers.
pub open spec fn sum(terms: Seq<real>) -> real
    decreases terms.len(),
{
    if terms.len() == 0 {
        0 as real
    } else {
        sum(terms.drop_last()) + terms.last()
    }
}

/// Products distribute over sums.
pub proof fn lemma_distributive(a: real, b: real, c: real)
    by (nonlinear_arith)
    ensures
        (a + b) * c == a * c + b * c,
{
}

/// Nothing times a number is nothing.
pub proof fn lemma_zero_times(a: real)
    by (nonlinear_arith)
    ensures
        (0 as real) * a == 0 as real,
{
}

/// One times a number is the number.
pub proof fn lemma_one_times(a: real)
    by (nonlinear_arith)
    ensures
        (1 as real) * a == a,
{
}

/// A factor that is not zero can be cancelled.
pub proof fn lemma_cancel(a: real, b: real, factor: real)
    by (nonlinear_arith)
    requires
        a * factor == b * factor,
        factor != 0 as real,
    ensures
        a == b,
{
}

/// A positive product with a positive factor has a positive other factor.
pub proof fn lemma_positive_factor(a: real, b: real)
    by (nonlinear_arith)
    requires
        (0 as real) < a * b,
        (0 as real) < b,
    ensures
        (0 as real) < a,
{
}

/// Products can be taken in any order.
pub proof fn lemma_associative(a: real, b: real, c: real)
    by (nonlinear_arith)
    ensures
        (a * b) * c == a * (b * c),
        (a * b) * c == (a * c) * b,
        a * b == b * a,
{
}

/// Positive terms have a positive sum.
pub proof fn lemma_sum_positive(terms: Seq<real>)
    requires
        forall|p: int| 0 <= p < terms.len() ==> (0 as real) < #[trigger] terms[p],
    ensures
        terms.len() > 0 ==> (0 as real) < sum(terms),
        terms.len() == 0 ==> sum(terms) == 0 as real,
    decreases terms.len(),
{
    if terms.len() > 0 {
        let rest = terms.drop_last();
        assert forall|p: int| 0 <= p < rest.len() implies (0 as real) < #[trigger] rest[p] by {
            assert((0 as real) < terms[p]);
        }
        lemma_sum_positive(rest);
        assert((0 as real) < terms[terms.len() - 1]);
    }
}

/// A common factor of all terms is one of the sum.
pub proof fn lemma_sum_scaled(terms: Seq<real>, scaled: Seq<real>, factor: real)
    requires
        terms.len() == scaled.len(),
        forall|p: int| 0 <= p < terms.len() ==> #[trigger] scaled[p] * factor == terms[p],
    ensures
        sum(scaled) * factor == sum(terms),
    decreases terms.len(),
{
    if terms.len() == 0 {
        lemma_zero_times(factor);
    } else {
        let (t, s) = (terms.drop_last(), scaled.drop_last());
        assert forall|p: int| 0 <= p < t.len() implies #[trigger] s[p] * factor == t[p] by {
            assert(scaled[p] * factor == terms[p]);
        }
        lemma_sum_scaled(t, s, factor);
        let (a, b) = (sum(s), scaled.last());
        assert(scaled[terms.len() - 1] * factor == terms[terms.len() - 1]);
        lemma_distributive(a, b, factor);
    }
}

/// A sum is that of all terms but one, and this one.
pub proof fn lemma_sum_remove(terms: Seq<real>, k: int)
    requires
        0 <= k < terms.len(),
    ensures
        sum(terms) == sum(terms.remove(k)) + terms[k],
    decreases terms.len(),
{
    if k == terms.len() - 1 {
        assert(terms.remove(k) =~= terms.drop_last());
    } else {
        lemma_sum_remove(terms.drop_last(), k);
        assert(terms.remove(k).drop_last() =~= terms.drop_last().remove(k));
        assert(terms.remove(k).last() == terms.last());
    }
}

/// A sum does not depend on the order of its terms.
pub proof fn lemma_sum_reordered(after: Seq<real>, before: Seq<real>, p: Seq<int>, q: Seq<int>)
    requires
        after.len() == before.len(),
        inverse_orders(p, q, before.len()),
        reordered(after, before, p),
    ensures
        sum(after) == sum(before),
    decreases before.len(),
{
    let n = before.len();
    if n > 0 {
        let k = p[n - 1];
        assert(0 <= k < n && q[k] == n - 1);
        let rest = before.remove(k);
        let p1 = Seq::new(
            (n - 1) as nat,
            |i: int|
                if p[i] < k {
                    p[i]
                } else {
                    p[i] - 1
                },
        );
        let q1 = Seq::new(
            (n - 1) as nat,
            |j: int|
                if j < k {
                    q[j]
                } else {
                    q[j + 1]
                },
        );
        assert forall|i: int| 0 <= i < n - 1 implies 0 <= #[trigger] p1[i] < n - 1 && q1[p1[i]]
            == i by {
            assert(0 <= p[i] < n && q[p[i]] == i);
        }
        assert forall|j: int| 0 <= j < n - 1 implies 0 <= #[trigger] q1[j] < n - 1 && p1[q1[j]]
            == j by {
            let j0 = if j < k {
                j
            } else {
                j + 1
            };
            assert(0 <= q[j0] < n && p[q[j0]] == j0);
        }
        assert(inverse_orders(p1, q1, (n - 1) as nat));
        let front = after.drop_last();
        assert forall|i: int| 0 <= i < front.len() implies #[trigger] front[i] == rest[p1[i]] by {
            assert(after[i] == before[p[i]]);
            assert(0 <= p[i] < n && q[p[i]] == i);
        }
        lemma_sum_reordered(front, rest, p1, q1);
        lemma_sum_remove(before, k);
        assert(after[n - 1] == before[p[n - 1]]);
    }
}

/// Two sums side by side are the sum of all their terms.
pub proof fn lemma_sum_joined(first: Seq<real>, second: Seq<real>)
    ensures
        sum(first + second) == sum(first) + sum(second),
    decreases second.len(),
{
    if second.len() == 0 {
        assert(first + second =~= first);
    } else {
        lemma_sum_joined(first, second.drop_last());
        assert((first + second).drop_last() =~= first + second.drop_last());
    }
}

/// Sums add up term by term.
pub proof fn lemma_sum_added(first: Seq<real>, second: Seq<real>, pairs: Seq<real>)
    requires
        first.len() == pairs.len(),
        second.len() == pairs.len(),
        forall|i: int| 0 <= i < pairs.len() ==> #[trigger] pairs[i] == first[i] + second[i],
    ensures
        sum(pairs) == sum(first) + sum(second),
    decreases pairs.len(),
{
    if pairs.len() > 0 {
        let (a, b, c) = (first.drop_last(), second.drop_last(), pairs.drop_last());
        assert forall|i: int| 0 <= i < c.len() implies #[trigger] c[i] == a[i] + b[i] by {
            assert(pairs[i] == first[i] + second[i]);
        }
        lemma_sum_added(a, b, c);
        assert(pairs[pairs.len() - 1] == first[pairs.len() - 1] + second[pairs.len() - 1]);
    }
}

/// The terms at some positions.
pub open spec fn picked(terms: Seq<real>, positions: Seq<int>) -> Seq<real> {
    Seq::new(positions.len(), |k: int| terms[positions[k]])
}

/// What units that start at `0..step` and advance by `step` each sum up.
pub open spec fn shared_sums(terms: Seq<real>, step: nat) -> Seq<real> {
    Seq::new(step, |unit: int| sum(picked(terms, strided(unit, step as int, terms.len() as int))))
}

// One more term goes to the unit that it belongs to.
proof fn lemma_share_grows(terms: Seq<real>, step: int, unit: int, n: int)
    requires
        0 <= unit < step,
        0 <= n < terms.len(),
    ensures
        sum(picked(terms, strided(unit, step, n + 1))) == sum(picked(terms, strided(unit, step, n)))
            + (if n % step == unit {
            terms[n]
        } else {
            0 as real
        }),
{
    let (before, after) = (
        picked(terms, strided(unit, step, n)),
        picked(terms, strided(unit, step, n + 1)),
    );
    let len = before.len() as int;
    lemma_strided_position(unit, step, n, len);
    lemma_strided_position(unit, step, n + 1, len);
    lemma_strided_position(unit, step, n + 1, len + 1);
    assert((len + 1) * step == len * step + step) by (nonlinear_arith);
    if len > 0 {
        lemma_strided_position(unit, step, n, len - 1);
        lemma_strided_position(unit, step, n + 1, len - 1);
        assert((len - 1) * step == len * step - step) by (nonlinear_arith);
    }
    lemma_pair(len, step, unit);
    if n % step == unit {
        lemma_strided_position(unit, step, n, n / step);
        vstd::arithmetic::div_mod::lemma_fundamental_div_mod(n, step);
        vstd::arithmetic::div_mod::lemma_div_pos_is_pos(n, step);
        assert((n / step) * step == step * (n / step)) by (nonlinear_arith);
        let k = n / step;
        assert(len == k) by (nonlinear_arith)
            requires
                unit + k * step == n,
                unit + len * step >= n,
                len > 0 ==> unit + (len - 1) * step < n,
                len >= 0,
                k >= 0,
                step > 0,
        ;
        assert(after.drop_last() =~= before);
        assert(after.last() == terms[n]);
    } else {
        assert(after =~= before);
    }
}

/// A sum of nothing but zeros is zero.
pub proof fn lemma_sum_of_zeros(terms: Seq<real>)
    requires
        forall|i: int| 0 <= i < terms.len() ==> #[trigger] terms[i] == 0 as real,
    ensures
        sum(terms) == 0 as real,
    decreases terms.len(),
{
    if terms.len() > 0 {
        let rest = terms.drop_last();
        assert forall|i: int| 0 <= i < rest.len() implies #[trigger] rest[i] == 0 as real by {
            assert(terms[i] == 0 as real);
        }
        lemma_sum_of_zeros(rest);
        assert(terms[terms.len() - 1] == 0 as real);
    }
}

proof fn lemma_shares_up_to(terms: Seq<real>, step: nat, n: nat, sums: Seq<real>)
    requires
        0 < step,
        n <= terms.len(),
        sums.len() == step,
        forall|unit: int|
            0 <= unit < step ==> #[trigger] sums[unit] == sum(
                picked(terms, strided(unit, step as int, n as int)),
            ),
    ensures
        sum(sums) == sum(terms.take(n as int)),
    decreases n,
{
    if n == 0 {
        assert forall|unit: int| 0 <= unit < step implies #[trigger] sums[unit] == 0 as real by {
            assert(picked(terms, strided(unit, step as int, 0)).len() == 0);
        }
        lemma_sum_of_zeros(sums);
    } else {
        let before = Seq::new(
            step,
            |unit: int| sum(picked(terms, strided(unit, step as int, n - 1))),
        );
        lemma_shares_up_to(terms, step, (n - 1) as nat, before);
        assert(terms.take(n as int).drop_last() =~= terms.take(n - 1));
        let r = (n - 1) % step as int;
        vstd::arithmetic::div_mod::lemma_mod_bound(n - 1, step as int);
        assert forall|unit: int| 0 <= unit < step implies #[trigger] sums[unit] == before[unit] + (
        if unit == r {
            terms[n - 1]
        } else {
            0 as real
        }) by {
            lemma_share_grows(terms, step as int, unit, n - 1);
        }
        lemma_sum_remove(sums, r);
        lemma_sum_remove(before, r);
        assert(sums.remove(r) =~= before.remove(r));
    }
}

/// Units that share out the terms of a sum add up to it.
pub proof fn lemma_shared_sums(terms: Seq<real>, step: nat)
    requires
        0 < step,
    ensures
        sum(shared_sums(terms, step)) == sum(terms),
{
    lemma_shares_up_to(terms, step, terms.len(), shared_sums(terms, step));
    assert(terms.take(terms.len() as int) =~= terms);
}

} // verus!
