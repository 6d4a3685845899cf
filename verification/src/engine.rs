//! The forward-probability engine: validation and the dynamic program.

use vstd::prelude::*;
use crate::alphabet::{is_base, is_base_spec, is_wildcard};
use crate::bounds::{
    lemma_col_sum_bound, lemma_den_at_mono, lemma_den_at_pos, lemma_em_num_bounds,
    lemma_first_bad, lemma_first_bad_all_valid, lemma_first_bad_row,
    lemma_first_bad_row_all_valid, lemma_fwd_bounds,
};
use crate::errors::{BaseSource, LsError};
use crate::model::{
    col_max, col_sum, den_at, em_num, expected_result, first_bad, first_bad_row, fwd,
    panel_valid, rows_aligned, valid_bases,
};
use crate::params::{Likelihood, Prob};

verus! {

/// Numerator of the emission term at one position, over the per-position
/// denominator `3 * mu.den`.
fn emission_num(qc: char, hc: char, mu: Prob) -> (r: u128)
    requires
        mu.wf(),
    ensures
        r as int == em_num(qc, hc, mu.num as int, mu.den as int),
{
    if is_wildcard(qc) || is_wildcard(hc) {
        3u128 * (mu.den as u128)
    } else if qc == hc {
        3u128 * ((mu.den - mu.num) as u128)
    } else {
        mu.num as u128
    }
}

/// One step of the common-denominator chain: multiplies by `3 * md * rd * n`,
/// reporting exactly whether the result still fits in 128 bits.
fn next_den(den: u128, md: u64, rd: u64, n: usize) -> (r: Option<u128>)
    requires
        0 < den,
        1 <= md,
        1 <= rd,
        1 <= n,
    ensures
        r matches Some(v) ==> v as int == den as int * (3 * md as int * rd as int * n as int),
        r is None ==> den as int * (3 * md as int * rd as int * n as int) > u128::MAX,
{
    let ghost d = den as int;
    let ghost m = md as int;
    let ghost rr = rd as int;
    let ghost nn = n as int;
    match den.checked_mul(3) {
        None => {
            proof {
                assert(d * (3 * m * rr * nn) >= d * 3) by (nonlinear_arith)
                    requires
                        0 < d,
                        1 <= m,
                        1 <= rr,
                        1 <= nn,
                ;
            }
            None
        },
        Some(a) => match a.checked_mul(md as u128) {
            None => {
                proof {
                    assert(d * (3 * m * rr * nn) >= (d * 3) * m) by (nonlinear_arith)
                        requires
                            0 < d,
                            1 <= m,
                            1 <= rr,
                            1 <= nn,
                    ;
                }
                None
            },
            Some(b) => match b.checked_mul(rd as u128) {
                None => {
                    proof {
                        assert(d * (3 * m * rr * nn) >= ((d * 3) * m) * rr) by (nonlinear_arith)
                            requires
                                0 < d,
                                1 <= m,
                                1 <= rr,
                                1 <= nn,
                        ;
                    }
                    None
                },
                Some(c) => {
                    let r = c.checked_mul(n as u128);
                    proof {
                        assert((((d * 3) * m) * rr) * nn == d * (3 * m * rr * nn))
                            by (nonlinear_arith);
                    }
                    r
                },
            },
        },
    }
}

/// Computes the likelihood of the query having been copied from the panel,
/// under the Li–Stephens model with the given mutation and recombination
/// probabilities.
///
/// The panel is a dense character matrix, one haplotype per row; the query
/// is a vector aligned to the same positions. The call fails on a row whose
/// width differs from the query's, on any character outside the base
/// alphabet (reporting the first offender in validation order), and when
/// the exact common denominator outgrows 128 bits; otherwise it returns the
/// exact unnormalized forward likelihood: the largest final-column forward
/// value over all rows, as the rational `num / den`.
#[verifier::loop_isolation(false)]
pub fn li_stephens_probs_matrix(
    haplotypes: &Vec<Vec<char>>,
    test_haplotype: &Vec<char>,
    mutation_prob: Prob,
    recombination_prob: Prob,
) -> (r: Result<Likelihood, LsError>)
    requires
        mutation_prob.wf(),
        recombination_prob.wf(),
    ensures
        r == expected_result(
            haplotypes@.map_values(|row: Vec<char>| row@),
            test_haplotype@,
            mutation_prob,
            recombination_prob,
        ),
{
    let ghost h = haplotypes@.map_values(|row: Vec<char>| row@);
    let ghost q = test_haplotype@;
    let ghost mn = mutation_prob.num as int;
    let ghost md = mutation_prob.den as int;
    let ghost rn = recombination_prob.num as int;
    let ghost rd = recombination_prob.den as int;
    let n: usize = haplotypes.len();
    let l: usize = test_haplotype.len();
    proof {
        assert(h.len() == haplotypes@.len());
        assert(forall|e: int| 0 <= e < h.len() ==> #[trigger] h[e] == haplotypes@[e]@);
    }

    // Width check: every row must be as long as the query.
    let mut i: usize = 0;
    while i < n
        invariant
            i <= n,
            forall|e: int| 0 <= e < i ==> #[trigger] h[e].len() == l as int,
        decreases n - i,
    {
        if haplotypes[i].len() != l {
            assert(h[i as int].len() != l as int);
            assert(!rows_aligned(h, l as int));
            return Err(LsError::DimensionMismatch);
        }
        i += 1;
    }
    assert(rows_aligned(h, l as int));

    // Validate the query, every position included.
    let mut j: usize = 0;
    while j < l
        invariant
            j <= l,
            forall|k: int| 0 <= k < j ==> is_base_spec(#[trigger] q[k]),
        decreases l - j,
    {
        if !is_base(test_haplotype[j]) {
            proof {
                lemma_first_bad(q);
                if first_bad(q) < j as int {
                    assert(is_base_spec(q[first_bad(q)]));
                }
                if first_bad(q) > j as int {
                    assert(is_base_spec(q[j as int]));
                }
                assert(first_bad(q) == j as int);
            }
            return Err(LsError::InvalidBase { source: BaseSource::Query, pos: j });
        }
        j += 1;
    }
    assert(valid_bases(q));
    proof {
        lemma_first_bad_all_valid(q);
    }

    // Validate the panel, row by row, left to right.
    let mut i: usize = 0;
    while i < n
        invariant
            i <= n,
            forall|e: int| 0 <= e < i ==> valid_bases(#[trigger] h[e]),
        decreases n - i,
    {
        let mut j: usize = 0;
        while j < l
            invariant
                j <= l,
                forall|k: int| 0 <= k < j ==> is_base_spec(#[trigger] h[i as int][k]),
            decreases l - j,
        {
            proof {
                assert(h[i as int] == haplotypes@[i as int]@);
                assert(h[i as int].len() == l as int);
            }
            if !is_base(haplotypes[i][j]) {
                proof {
                    lemma_first_bad_row(h);
                    assert(!valid_bases(h[i as int])) by {
                        assert(!is_base_spec(h[i as int][j as int]));
                    }
                    if first_bad_row(h) < i as int {
                        assert(valid_bases(h[first_bad_row(h)]));
                    }
                    if first_bad_row(h) > i as int {
                        assert(valid_bases(h[i as int]));
                    }
                    assert(first_bad_row(h) == i as int);
                    lemma_first_bad(h[i as int]);
                    if first_bad(h[i as int]) < j as int {
                        assert(is_base_spec(h[i as int][first_bad(h[i as int])]));
                    }
                    if first_bad(h[i as int]) > j as int {
                        assert(is_base_spec(h[i as int][j as int]));
                    }
                    assert(first_bad(h[i as int]) == j as int);
                }
                return Err(
                    LsError::InvalidBase { source: (BaseSource::Haplotype { row: i }), pos: j },
                );
            }
            j += 1;
        }
        assert(valid_bases(h[i as int]));
        i += 1;
    }
    assert(panel_valid(h));
    proof {
        lemma_first_bad_row_all_valid(h);
    }

    // An empty panel or an empty query carries no forward mass at all.
    if n == 0 || l == 0 {
        return Ok(Likelihood { num: 0, den: 1 });
    }

    // The common denominator of the final column, kept exact; the call
    // fails as soon as it outgrows 128 bits.
    let mut den: u128 = 3u128 * (mutation_prob.den as u128);
    assert(den as int == den_at(md, rd, n as int, 0));
    let mut j: usize = 1;
    while j < l
        invariant
            1 <= j <= l,
            den as int == den_at(md, rd, n as int, j - 1),
        decreases l - j,
    {
        proof {
            lemma_den_at_pos(md, rd, n as int, j - 1);
        }
        match next_den(den, mutation_prob.den, recombination_prob.den, n) {
            Some(v) => {
                den = v;
                assert(den as int == den_at(md, rd, n as int, j as int));
            },
            None => {
                proof {
                    assert(den_at(md, rd, n as int, j as int) > u128::MAX);
                    lemma_den_at_mono(md, rd, n as int, j as int, l - 1);
                }
                return Err(LsError::Overflow);
            },
        }
        j += 1;
    }
    assert(den as int == den_at(md, rd, n as int, l - 1));

    // Column 0: a flat transition prior, so the emission alone.
    let mut nums: Vec<u128> = Vec::new();
    let mut i: usize = 0;
    while i < n
        invariant
            i <= n,
            nums@.len() == i,
            forall|t: int|
                0 <= t < i ==> #[trigger] nums@[t] as int == fwd(h, q, mn, md, rn, rd, t, 0),
        decreases n - i,
    {
        proof {
            assert(h[i as int] == haplotypes@[i as int]@);
            assert(h[i as int].len() == l as int);
        }
        let e = emission_num(test_haplotype[0], haplotypes[i][0], mutation_prob);
        nums.push(e);
        i += 1;
    }

    // Later columns: mix the previous column, then apply the emission.
    let mut j: usize = 1;
    while j < l
        invariant
            1 <= j <= l,
            nums@.len() == n,
            forall|t: int|
                0 <= t < n ==> #[trigger] nums@[t] as int == fwd(h, q, mn, md, rn, rd, t, j - 1),
        decreases l - j,
    {
        let ghost dprev = den_at(md, rd, n as int, j - 1);
        let ghost dcur = den_at(md, rd, n as int, j as int);
        proof {
            lemma_fwd_bounds(h, q, mn, md, rn, rd, j - 1);
            lemma_den_at_pos(md, rd, n as int, j - 1);
            lemma_col_sum_bound(h, q, mn, md, rn, rd, j - 1, n as int, dprev);
            lemma_den_at_mono(md, rd, n as int, j as int, l - 1);
            assert(dcur == dprev * (3 * md * rd * n as int));
            assert(rd * (n as int * dprev) * (3 * md) == dcur) by (nonlinear_arith)
                requires
                    dcur == dprev * (3 * md * rd * n as int),
            ;
            assert(n as int * dprev <= dcur && rd * (n as int * dprev) <= dcur)
                by (nonlinear_arith)
                requires
                    dcur == dprev * (3 * md * rd * n as int),
                    0 < dprev,
                    1 <= md,
                    1 <= rd,
                    1 <= n as int,
            ;
        }

        // The mixing sum over the previous column.
        let mut s: u128 = 0;
        let mut t: usize = 0;
        while t < n
            invariant
                t <= n,
                s as int == col_sum(h, q, mn, md, rn, rd, j - 1, t as int),
                s as int <= t as int * dprev,
            decreases n - t,
        {
            proof {
                assert((t as int + 1) * dprev == t as int * dprev + dprev) by (nonlinear_arith);
                assert((t as int + 1) * dprev <= n as int * dprev) by (nonlinear_arith)
                    requires
                        t as int + 1 <= n as int,
                        0 < dprev,
                ;
            }
            s = s + nums[t];
            t += 1;
        }

        // The new column.
        let mut new_nums: Vec<u128> = Vec::new();
        let mut i: usize = 0;
        while i < n
            invariant
                i <= n,
                new_nums@.len() == i,
                forall|e: int|
                    0 <= e < i ==> #[trigger] new_nums@[e] as int == fwd(
                        h,
                        q,
                        mn,
                        md,
                        rn,
                        rd,
                        e,
                        j as int,
                    ),
            decreases n - i,
    {
            let ghost f = fwd(h, q, mn, md, rn, rd, i as int, j - 1);
            proof {
                assert(h[i as int] == haplotypes@[i as int]@);
                assert(h[i as int].len() == l as int);
                assert((rd - rn) * n as int <= u128::MAX) by (nonlinear_arith)
                    requires
                        0 <= rd - rn < 0x10000000000000000,
                        0 <= n as int,
                        (n as int) < 0x10000000000000000,
                ;
                assert(0 <= (rd - rn) * n as int * f <= (rd - rn) * (n as int * dprev))
                    by (nonlinear_arith)
                    requires
                        0 <= f <= dprev,
                        0 <= rn <= rd,
                        1 <= n as int,
                        0 < dprev,
                ;
                assert(0 <= rn * s as int <= rn * (n as int * dprev)) by (nonlinear_arith)
                    requires
                        0 <= s as int <= n as int * dprev,
                        0 <= rn,
                ;
                assert((rd - rn) * (n as int * dprev) + rn * (n as int * dprev) == rd * (n as int
                    * dprev)) by (nonlinear_arith);
            }
            let a: u128 = (((recombination_prob.den - recombination_prob.num) as u128) * (
            n as u128)) * nums[i];
            let b: u128 = (recombination_prob.num as u128) * s;
            let tr: u128 = a + b;
            let e: u128 = emission_num(test_haplotype[j], haplotypes[i][j], mutation_prob);
            proof {
                let em = em_num(q[j as int], h[i as int][j as int], mn, md);
                lemma_em_num_bounds(q[j as int], h[i as int][j as int], mn, md);
                assert(0 <= tr as int * em <= rd * (n as int * dprev) * (3 * md))
                    by (nonlinear_arith)
                    requires
                        0 <= tr as int <= rd * (n as int * dprev),
                        0 <= em <= 3 * md,
                        1 <= md,
                ;
            }
            let v: u128 = tr * e;
            assert(v as int == fwd(h, q, mn, md, rn, rd, i as int, j as int));
            new_nums.push(v);
            i += 1;
        }
        nums = new_nums;
        j += 1;
    }

    // Read out the largest final-column forward value.
    let mut best: u128 = 0;
    let mut i: usize = 0;
    while i < n
        invariant
            i <= n,
            best as int == col_max(h, q, mn, md, rn, rd, l - 1, i as int),
        decreases n - i,
    {
        if nums[i] > best {
            best = nums[i];
        }
        i += 1;
    }

    Ok(Likelihood { num: best, den })
}

} // verus!
