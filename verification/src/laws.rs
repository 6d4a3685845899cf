//! General laws of the forward recurrence, proved once and for all inputs:
//! the single-haplotype product form, the exact-match certainty, wildcard
//! absorption, and invariance under row permutation.

use vstd::prelude::*;
use vstd::arithmetic::power::pow;
use crate::alphabet::is_wildcard_spec;
use crate::bounds::{
    lemma_col_sum_bound, lemma_den_at_pos, lemma_em_num_bounds, lemma_fwd_bounds,
};
use crate::model::{col_max, col_sum, den_at, em_num, fwd, lik_den, lik_num, rows_aligned};

verus! {

/// Product of the emission numerators of row `h0` over positions `0..=j`.
pub open spec fn em_prod(h0: Seq<char>, q: Seq<char>, mn: int, md: int, j: int) -> int
    decreases j,
{
    if j <= 0 {
        em_num(q[0], h0[0], mn, md)
    } else {
        em_prod(h0, q, mn, md, j - 1) * em_num(q[j], h0[j], mn, md)
    }
}

/// The column maximum is no smaller than any one row's forward value.
pub proof fn lemma_col_max_ge(
    h: Seq<Seq<char>>,
    q: Seq<char>,
    mn: int,
    md: int,
    rn: int,
    rd: int,
    j: int,
    k: int,
    i: int,
)
    requires
        0 <= i < k,
    ensures
        fwd(h, q, mn, md, rn, rd, i, j) <= col_max(h, q, mn, md, rn, rd, j, k),
    decreases k,
{
    if i < k - 1 {
        lemma_col_max_ge(h, q, mn, md, rn, rd, j, k - 1, i);
    }
}

/// The column maximum never exceeds a bound that every row obeys.
pub proof fn lemma_col_max_le(
    h: Seq<Seq<char>>,
    q: Seq<char>,
    mn: int,
    md: int,
    rn: int,
    rd: int,
    j: int,
    k: int,
    b: int,
)
    requires
        0 <= b,
        forall|i: int| 0 <= i < k ==> #[trigger] fwd(h, q, mn, md, rn, rd, i, j) <= b,
    ensures
        0 <= col_max(h, q, mn, md, rn, rd, j, k) <= b,
    decreases k,
{
    if k > 0 {
        lemma_col_max_le(h, q, mn, md, rn, rd, j, k - 1, b);
    }
}

/// A positive column maximum is achieved by some row.
pub proof fn lemma_col_max_achieved(
    h: Seq<Seq<char>>,
    q: Seq<char>,
    mn: int,
    md: int,
    rn: int,
    rd: int,
    j: int,
    k: int,
)
    requires
        1 <= k,
    ensures
        col_max(h, q, mn, md, rn, rd, j, k) == 0 || exists|i: int|
            0 <= i < k && col_max(h, q, mn, md, rn, rd, j, k) == #[trigger] fwd(
                h,
                q,
                mn,
                md,
                rn,
                rd,
                i,
                j,
            ),
    decreases k,
{
    let m = col_max(h, q, mn, md, rn, rd, j, k);
    if k == 1 {
        assert(col_max(h, q, mn, md, rn, rd, j, 0) == 0);
        if m != 0 {
            assert(m == fwd(h, q, mn, md, rn, rd, 0, j));
        }
    } else {
        lemma_col_max_achieved(h, q, mn, md, rn, rd, j, k - 1);
        let prev = col_max(h, q, mn, md, rn, rd, j, k - 1);
        if fwd(h, q, mn, md, rn, rd, k - 1, j) > prev {
            assert(m == fwd(h, q, mn, md, rn, rd, k - 1, j));
        } else {
            if prev != 0 {
                let i0 = choose|i: int|
                    0 <= i < k - 1 && prev == #[trigger] fwd(h, q, mn, md, rn, rd, i, j);
                assert(m == fwd(h, q, mn, md, rn, rd, i0, j));
            }
        }
    }
}

/// The common denominator in closed form: `3 * md` times the per-column
/// factor raised to the column index.
pub proof fn lemma_den_at_pow(md: int, rd: int, n: int, j: int)
    requires
        0 <= j,
    ensures
        den_at(md, rd, n, j) == 3 * md * pow(3 * md * rd * n, j as nat),
    decreases j,
{
    reveal(pow);
    if j == 0 {
        assert(pow(3 * md * rd * n, 0) == 1);
    } else {
        lemma_den_at_pow(md, rd, n, j - 1);
        let s = 3 * md * rd * n;
        assert(pow(s, j as nat) == s * pow(s, (j - 1) as nat));
        assert((3 * md * pow(s, (j - 1) as nat)) * s == 3 * md * (s * pow(s, (j - 1) as nat)))
            by (nonlinear_arith);
    }
}

/// With a single reference haplotype and no recombination, the forward
/// value is the running product of the emissions, scaled by `rd` once per
/// transition.
pub proof fn lemma_fwd_single_row(
    h: Seq<Seq<char>>,
    q: Seq<char>,
    mn: int,
    md: int,
    rn: int,
    rd: int,
    j: int,
)
    requires
        h.len() == 1,
        rn == 0,
        0 <= j,
    ensures
        fwd(h, q, mn, md, rn, rd, 0, j) == pow(rd, j as nat) * em_prod(h[0], q, mn, md, j),
    decreases j,
{
    reveal(pow);
    if j == 0 {
        assert(pow(rd, 0) == 1);
    } else {
        lemma_fwd_single_row(h, q, mn, md, rn, rd, j - 1);
        let p = pow(rd, (j - 1) as nat);
        let ep = em_prod(h[0], q, mn, md, j - 1);
        let e = em_num(q[j], h[0][j], mn, md);
        assert(pow(rd, j as nat) == rd * p);
        assert(fwd(h, q, mn, md, rn, rd, 0, j) == ((rd - 0) * 1 * (p * ep) + 0 * col_sum(
            h,
            q,
            mn,
            md,
            rn,
            rd,
            j - 1,
            1,
        )) * e);
        assert(((rd - 0) * 1 * (p * ep) + 0 * col_sum(h, q, mn, md, rn, rd, j - 1, 1)) * e == (rd
            * p) * (ep * e)) by (nonlinear_arith);
    }
}

/// LAW. For a panel of one haplotype and recombination probability zero,
/// the likelihood equals the product over positions of the emission terms
/// of that haplotype: as rationals,
/// `lik_num / lik_den == em_prod / (3 * md) ^ q.len()`.
pub proof fn lemma_likelihood_single_row(
    h: Seq<Seq<char>>,
    q: Seq<char>,
    mn: int,
    md: int,
    rn: int,
    rd: int,
)
    requires
        h.len() == 1,
        1 <= q.len(),
        rn == 0,
        0 <= mn <= md,
        1 <= md,
        1 <= rd,
    ensures
        lik_num(h, q, mn, md, rn, rd) * pow(3 * md, q.len() as nat) == em_prod(
            h[0],
            q,
            mn,
            md,
            q.len() - 1,
        ) * lik_den(h, q, md, rd),
{
    reveal(pow);
    let l = q.len() as int;
    lemma_fwd_single_row(h, q, mn, md, rn, rd, l - 1);
    lemma_fwd_bounds(h, q, mn, md, rn, rd, l - 1);
    let f = fwd(h, q, mn, md, rn, rd, 0, l - 1);
    assert(col_max(h, q, mn, md, rn, rd, l - 1, 0) == 0);
    assert(col_max(h, q, mn, md, rn, rd, l - 1, 1) == f);
    lemma_den_at_pow(md, rd, 1, l - 1);
    let p = pow(rd, (l - 1) as nat);
    let ep = em_prod(h[0], q, mn, md, l - 1);
    let b = pow(3 * md, (l - 1) as nat);
    assert(3 * md * rd * 1 == (3 * md) * rd);
    vstd::arithmetic::power::lemma_pow_distributes(3 * md, rd, (l - 1) as nat);
    assert(pow((3 * md) * rd, (l - 1) as nat) == b * p);
    assert(den_at(md, rd, 1, l - 1) == 3 * md * (b * p));
    assert(pow(3 * md, l as nat) == (3 * md) * b);
    assert((p * ep) * ((3 * md) * b) == ep * (3 * md * (b * p))) by (nonlinear_arith);
}

/// With no mutation and no recombination, a row that matches the query
/// exactly keeps the full forward mass: its numerator equals the common
/// denominator in every column.
pub proof fn lemma_fwd_exact_match(
    h: Seq<Seq<char>>,
    q: Seq<char>,
    md: int,
    rd: int,
    row: int,
    j: int,
)
    requires
        0 <= row < h.len(),
        h[row] == q,
        1 <= md,
        0 <= j,
    ensures
        fwd(h, q, 0, md, 0, rd, row, j) == den_at(md, rd, h.len() as int, j),
    decreases j,
{
    let n = h.len() as int;
    assert(em_num(q[j], h[row][j], 0, md) == 3 * md) by {
        if !is_wildcard_spec(q[j]) && !is_wildcard_spec(h[row][j]) {
            assert(q[j] == h[row][j]);
        }
    }
    if j == 0 {
    } else {
        lemma_fwd_exact_match(h, q, md, rd, row, j - 1);
        let d = den_at(md, rd, n, j - 1);
        assert(fwd(h, q, 0, md, 0, rd, row, j) == ((rd - 0) * n * d + 0 * col_sum(
            h,
            q,
            0,
            md,
            0,
            rd,
            j - 1,
            n,
        )) * (3 * md));
        assert(((rd - 0) * n * d + 0 * col_sum(h, q, 0, md, 0, rd, j - 1, n)) * (3 * md) == d * (3
            * md * rd * n)) by (nonlinear_arith);
    }
}

/// LAW. With mutation probability zero, recombination probability zero and
/// a query identical to one panel row, the returned likelihood is exactly
/// `1`: its numerator equals its denominator.
pub proof fn lemma_likelihood_exact_match(
    h: Seq<Seq<char>>,
    q: Seq<char>,
    md: int,
    rd: int,
    row: int,
)
    requires
        0 <= row < h.len(),
        h[row] == q,
        1 <= q.len(),
        1 <= md,
        1 <= rd,
    ensures
        lik_num(h, q, 0, md, 0, rd) == lik_den(h, q, md, rd),
{
    let l = q.len() as int;
    let n = h.len() as int;
    lemma_fwd_exact_match(h, q, md, rd, row, l - 1);
    lemma_fwd_bounds(h, q, 0, md, 0, rd, l - 1);
    lemma_den_at_pos(md, rd, n, l - 1);
    lemma_col_max_ge(h, q, 0, md, 0, rd, l - 1, n, row);
    lemma_col_max_le(h, q, 0, md, 0, rd, l - 1, n, den_at(md, rd, n, l - 1));
}

/// Column sums respect a pointwise ordering of the forward values.
proof fn lemma_col_sum_le_pointwise(
    h: Seq<Seq<char>>,
    q: Seq<char>,
    h2: Seq<Seq<char>>,
    q2: Seq<char>,
    mn: int,
    md: int,
    rn: int,
    rd: int,
    j: int,
    k: int,
)
    requires
        forall|i: int|
            0 <= i < k ==> #[trigger] fwd(h, q, mn, md, rn, rd, i, j) <= fwd(
                h2,
                q2,
                mn,
                md,
                rn,
                rd,
                i,
                j,
            ),
    ensures
        col_sum(h, q, mn, md, rn, rd, j, k) <= col_sum(h2, q2, mn, md, rn, rd, j, k),
    decreases k,
{
    if k > 0 {
        lemma_col_sum_le_pointwise(h, q, h2, q2, mn, md, rn, rd, j, k - 1);
        assert(fwd(h, q, mn, md, rn, rd, k - 1, j) <= fwd(h2, q2, mn, md, rn, rd, k - 1, j));
    }
}

/// Column maxima respect a pointwise ordering of the forward values.
proof fn lemma_col_max_le_pointwise(
    h: Seq<Seq<char>>,
    q: Seq<char>,
    h2: Seq<Seq<char>>,
    q2: Seq<char>,
    mn: int,
    md: int,
    rn: int,
    rd: int,
    j: int,
    k: int,
)
    requires
        forall|i: int|
            0 <= i < k ==> #[trigger] fwd(h, q, mn, md, rn, rd, i, j) <= fwd(
                h2,
                q2,
                mn,
                md,
                rn,
                rd,
                i,
                j,
            ),
    ensures
        col_max(h, q, mn, md, rn, rd, j, k) <= col_max(h2, q2, mn, md, rn, rd, j, k),
    decreases k,
{
    if k > 0 {
        lemma_col_max_le_pointwise(h, q, h2, q2, mn, md, rn, rd, j, k - 1);
    }
}

/// When every emission of one instance is at least the matching emission of
/// another with the same dimensions, every forward value is too: raising an
/// emission anywhere can only raise the forward mass everywhere after it.
pub proof fn lemma_emission_monotone(
    h: Seq<Seq<char>>,
    q: Seq<char>,
    h2: Seq<Seq<char>>,
    q2: Seq<char>,
    mn: int,
    md: int,
    rn: int,
    rd: int,
    j: int,
)
    requires
        1 <= h.len(),
        h2.len() == h.len(),
        q2.len() == q.len(),
        0 <= mn <= md,
        1 <= md,
        0 <= rn <= rd,
        1 <= rd,
        0 <= j < q.len(),
        forall|i: int, k: int|
            0 <= i < h.len() && 0 <= k < q.len() ==> #[trigger] em_num(q[k], h[i][k], mn, md)
                <= em_num(q2[k], h2[i][k], mn, md),
    ensures
        forall|i: int|
            0 <= i < h.len() ==> #[trigger] fwd(h, q, mn, md, rn, rd, i, j) <= fwd(
                h2,
                q2,
                mn,
                md,
                rn,
                rd,
                i,
                j,
            ),
    decreases j,
{
    let n = h.len() as int;
    if j == 0 {
        assert forall|i: int|
            0 <= i < h.len() implies #[trigger] fwd(h, q, mn, md, rn, rd, i, 0) <= fwd(
            h2,
            q2,
            mn,
            md,
            rn,
            rd,
            i,
            0,
        ) by {
            assert(em_num(q[0], h[i][0], mn, md) <= em_num(q2[0], h2[i][0], mn, md));
        }
    } else {
        lemma_emission_monotone(h, q, h2, q2, mn, md, rn, rd, j - 1);
        lemma_fwd_bounds(h, q, mn, md, rn, rd, j - 1);
        lemma_fwd_bounds(h2, q2, mn, md, rn, rd, j - 1);
        lemma_col_sum_le_pointwise(h, q, h2, q2, mn, md, rn, rd, j - 1, n);
        lemma_den_at_pos(md, rd, n, j - 1);
        lemma_col_sum_bound(h, q, mn, md, rn, rd, j - 1, n, den_at(md, rd, n, j - 1));
        let s = col_sum(h, q, mn, md, rn, rd, j - 1, n);
        let s2 = col_sum(h2, q2, mn, md, rn, rd, j - 1, n);
        assert forall|i: int|
            0 <= i < h.len() implies #[trigger] fwd(h, q, mn, md, rn, rd, i, j) <= fwd(
            h2,
            q2,
            mn,
            md,
            rn,
            rd,
            i,
            j,
        ) by {
            let f = fwd(h, q, mn, md, rn, rd, i, j - 1);
            let f2 = fwd(h2, q2, mn, md, rn, rd, i, j - 1);
            let e = em_num(q[j], h[i][j], mn, md);
            let e2 = em_num(q2[j], h2[i][j], mn, md);
            lemma_em_num_bounds(q[j], h[i][j], mn, md);
            assert(e <= e2);
            assert(((rd - rn) * n * f + rn * s) * e <= ((rd - rn) * n * f2 + rn * s2) * e2)
                by (nonlinear_arith)
                requires
                    0 <= f <= f2,
                    0 <= s <= s2,
                    0 <= e <= e2,
                    0 <= rn <= rd,
                    1 <= n,
            ;
        }
    }
}

/// LAW (wildcard absorption, query side). Replacing one query character
/// with the wildcard base makes that position's emission term the full `1`
/// for every row, and neither any forward value nor the likelihood
/// decreases.
pub proof fn lemma_wildcard_absorption_query(
    h: Seq<Seq<char>>,
    q: Seq<char>,
    mn: int,
    md: int,
    rn: int,
    rd: int,
    c: int,
)
    requires
        1 <= h.len(),
        0 <= c < q.len(),
        0 <= mn <= md,
        1 <= md,
        0 <= rn <= rd,
        1 <= rd,
    ensures
        forall|hc: char| em_num('N', hc, mn, md) == 3 * md,
        forall|i: int, j: int|
            0 <= i < h.len() && 0 <= j < q.len() ==> #[trigger] fwd(h, q, mn, md, rn, rd, i, j)
                <= fwd(h, q.update(c, 'N'), mn, md, rn, rd, i, j),
        lik_num(h, q, mn, md, rn, rd) <= lik_num(h, q.update(c, 'N'), mn, md, rn, rd),
        lik_den(h, q.update(c, 'N'), md, rd) == lik_den(h, q, md, rd),
{
    let q2 = q.update(c, 'N');
    let n = h.len() as int;
    let l = q.len() as int;
    assert forall|i: int, k: int|
        0 <= i < h.len() && 0 <= k < q.len() implies #[trigger] em_num(q[k], h[i][k], mn, md)
        <= em_num(q2[k], h[i][k], mn, md) by {
        lemma_em_num_bounds(q[k], h[i][k], mn, md);
        if k != c {
            assert(q2[k] == q[k]);
        }
    }
    assert forall|i: int, j: int|
        0 <= i < h.len() && 0 <= j < q.len() implies #[trigger] fwd(h, q, mn, md, rn, rd, i, j)
        <= fwd(h, q2, mn, md, rn, rd, i, j) by {
        lemma_emission_monotone(h, q, h, q2, mn, md, rn, rd, j);
    }
    lemma_emission_monotone(h, q, h, q2, mn, md, rn, rd, l - 1);
    lemma_col_max_le_pointwise(h, q, h, q2, mn, md, rn, rd, l - 1, n);
}

/// LAW (wildcard absorption, panel side). Replacing one character of one
/// panel row with the wildcard base makes that position's emission term the
/// full `1` against any query character, and neither any forward value nor
/// the likelihood decreases.
pub proof fn lemma_wildcard_absorption_row(
    h: Seq<Seq<char>>,
    q: Seq<char>,
    mn: int,
    md: int,
    rn: int,
    rd: int,
    r: int,
    c: int,
)
    requires
        1 <= h.len(),
        rows_aligned(h, q.len() as int),
        0 <= r < h.len(),
        0 <= c < q.len(),
        0 <= mn <= md,
        1 <= md,
        0 <= rn <= rd,
        1 <= rd,
    ensures
        forall|qc: char| em_num(qc, 'N', mn, md) == 3 * md,
        forall|i: int, j: int|
            0 <= i < h.len() && 0 <= j < q.len() ==> #[trigger] fwd(h, q, mn, md, rn, rd, i, j)
                <= fwd(h.update(r, h[r].update(c, 'N')), q, mn, md, rn, rd, i, j),
        lik_num(h, q, mn, md, rn, rd) <= lik_num(
            h.update(r, h[r].update(c, 'N')),
            q,
            mn,
            md,
            rn,
            rd,
        ),
        lik_den(h.update(r, h[r].update(c, 'N')), q, md, rd) == lik_den(h, q, md, rd),
{
    let h2 = h.update(r, h[r].update(c, 'N'));
    let n = h.len() as int;
    let l = q.len() as int;
    assert forall|i: int, k: int|
        0 <= i < h.len() && 0 <= k < q.len() implies #[trigger] em_num(q[k], h[i][k], mn, md)
        <= em_num(q[k], h2[i][k], mn, md) by {
        lemma_em_num_bounds(q[k], h[i][k], mn, md);
        if i != r {
            assert(h2[i] == h[i]);
        } else {
            assert(h2[r] == h[r].update(c, 'N'));
            if k != c {
                assert(h[r].update(c, 'N')[k] == h[r][k]);
            }
        }
    }
    assert forall|i: int, j: int|
        0 <= i < h.len() && 0 <= j < q.len() implies #[trigger] fwd(h, q, mn, md, rn, rd, i, j)
        <= fwd(h2, q, mn, md, rn, rd, i, j) by {
        lemma_emission_monotone(h, q, h2, q, mn, md, rn, rd, j);
    }
    lemma_emission_monotone(h, q, h2, q, mn, md, rn, rd, l - 1);
    lemma_col_max_le_pointwise(h, q, h2, q, mn, md, rn, rd, l - 1, n);
}

/// Sum of an integer sequence.
spec fn seq_sum(s: Seq<int>) -> int
    decreases s.len(),
{
    if s.len() == 0 {
        0
    } else {
        seq_sum(s.drop_last()) + s.last()
    }
}

/// Removing one element removes exactly its contribution to the sum.
proof fn lemma_seq_sum_remove(s: Seq<int>, k: int)
    requires
        0 <= k < s.len(),
    ensures
        seq_sum(s) == seq_sum(s.remove(k)) + s[k],
    decreases s.len(),
{
    s.remove_ensures(k);
    if k == s.len() - 1 {
        assert(s.remove(k) =~= s.drop_last());
    } else {
        lemma_seq_sum_remove(s.drop_last(), k);
        s.drop_last().remove_ensures(k);
        assert(s.remove(k).drop_last() =~= s.drop_last().remove(k));
        assert(s.remove(k).last() == s.last());
    }
}

/// A sum is unchanged by reading the values through an injective index map.
proof fn lemma_seq_sum_permuted(vals: Seq<int>, vals2: Seq<int>, p: Seq<int>)
    requires
        vals2.len() == vals.len(),
        p.len() == vals.len(),
        forall|i: int| 0 <= i < p.len() ==> 0 <= #[trigger] p[i] < vals.len(),
        forall|i1: int, i2: int| 0 <= i1 < i2 < p.len() ==> p[i1] != p[i2],
        forall|i: int| 0 <= i < p.len() ==> #[trigger] vals2[i] == vals[p[i]],
    ensures
        seq_sum(vals2) == seq_sum(vals),
    decreases vals.len(),
{
    let n = vals.len() as int;
    if n > 0 {
        let k = p[n - 1];
        let vals_r = vals.remove(k);
        let p_r = Seq::new(
            (n - 1) as nat,
            |i: int|
                if p[i] < k {
                    p[i]
                } else {
                    p[i] - 1
                },
        );
        let vals2_r = vals2.drop_last();
        vals.remove_ensures(k);
        lemma_seq_sum_remove(vals, k);
        assert forall|i: int| 0 <= i < p_r.len() implies 0 <= #[trigger] p_r[i] < vals_r.len() by {
            assert(p[i] != k);
        }
        assert forall|i1: int, i2: int| 0 <= i1 < i2 < p_r.len() implies p_r[i1] != p_r[i2] by {
            assert(p[i1] != p[i2]);
            assert(p[i1] != k);
            assert(p[i2] != k);
        }
        assert forall|i: int|
            0 <= i < p_r.len() implies #[trigger] vals2_r[i] == vals_r[p_r[i]] by {
            assert(vals2[i] == vals[p[i]]);
            assert(p[i] != k);
            if p[i] < k {
                assert(vals_r[p[i]] == vals[p[i]]);
            } else {
                assert(vals_r[p[i] - 1] == vals[p[i]]);
            }
        }
        lemma_seq_sum_permuted(vals_r, vals2_r, p_r);
        assert(vals2.last() == vals[k]);
    }
}

/// A column sum is the sum of any sequence listing that column's forward
/// values.
proof fn lemma_col_sum_as_seq_sum(
    h: Seq<Seq<char>>,
    q: Seq<char>,
    mn: int,
    md: int,
    rn: int,
    rd: int,
    j: int,
    k: int,
    vals: Seq<int>,
)
    requires
        0 <= k <= vals.len(),
        forall|i: int|
            0 <= i < vals.len() ==> #[trigger] vals[i] == fwd(h, q, mn, md, rn, rd, i, j),
    ensures
        col_sum(h, q, mn, md, rn, rd, j, k) == seq_sum(vals.take(k)),
    decreases k,
{
    if k > 0 {
        lemma_col_sum_as_seq_sum(h, q, mn, md, rn, rd, j, k - 1, vals);
        assert(vals.take(k).drop_last() =~= vals.take(k - 1));
        assert(vals.take(k).last() == vals[k - 1]);
    } else {
        assert(vals.take(0).len() == 0);
    }
}

/// Reading the panel's rows through an injective map permutes the forward
/// values by the same map and keeps every column's mixing sum.
proof fn lemma_fwd_permuted(
    h: Seq<Seq<char>>,
    q: Seq<char>,
    h2: Seq<Seq<char>>,
    mn: int,
    md: int,
    rn: int,
    rd: int,
    p: Seq<int>,
    j: int,
)
    requires
        h2.len() == h.len(),
        p.len() == h.len(),
        forall|i: int| 0 <= i < p.len() ==> 0 <= #[trigger] p[i] < h.len(),
        forall|i1: int, i2: int| 0 <= i1 < i2 < p.len() ==> p[i1] != p[i2],
        forall|i: int| 0 <= i < p.len() ==> #[trigger] h2[i] == h[p[i]],
    ensures
        forall|i: int|
            0 <= i < h.len() ==> #[trigger] fwd(h2, q, mn, md, rn, rd, i, j) == fwd(
                h,
                q,
                mn,
                md,
                rn,
                rd,
                p[i],
                j,
            ),
        col_sum(h2, q, mn, md, rn, rd, j, h.len() as int) == col_sum(
            h,
            q,
            mn,
            md,
            rn,
            rd,
            j,
            h.len() as int,
        ),
    decreases j,
{
    let n = h.len() as int;
    if j <= 0 {
        assert forall|i: int|
            0 <= i < h.len() implies #[trigger] fwd(h2, q, mn, md, rn, rd, i, j) == fwd(
            h,
            q,
            mn,
            md,
            rn,
            rd,
            p[i],
            j,
        ) by {
            assert(h2[i] == h[p[i]]);
        }
    } else {
        lemma_fwd_permuted(h, q, h2, mn, md, rn, rd, p, j - 1);
        assert forall|i: int|
            0 <= i < h.len() implies #[trigger] fwd(h2, q, mn, md, rn, rd, i, j) == fwd(
            h,
            q,
            mn,
            md,
            rn,
            rd,
            p[i],
            j,
        ) by {
            assert(h2[i] == h[p[i]]);
            assert(fwd(h2, q, mn, md, rn, rd, i, j - 1) == fwd(h, q, mn, md, rn, rd, p[i], j - 1));
        }
    }
    let vals = Seq::new(n as nat, |i: int| fwd(h, q, mn, md, rn, rd, i, j));
    let vals2 = Seq::new(n as nat, |i: int| fwd(h2, q, mn, md, rn, rd, i, j));
    assert forall|i: int| 0 <= i < n implies #[trigger] vals2[i] == vals[p[i]] by {
        assert(fwd(h2, q, mn, md, rn, rd, i, j) == fwd(h, q, mn, md, rn, rd, p[i], j));
    }
    lemma_seq_sum_permuted(vals, vals2, p);
    lemma_col_sum_as_seq_sum(h, q, mn, md, rn, rd, j, n, vals);
    lemma_col_sum_as_seq_sum(h2, q, mn, md, rn, rd, j, n, vals2);
    assert(vals.take(n) =~= vals);
    assert(vals2.take(n) =~= vals2);
}

/// LAW (row-permutation symmetry). Reading the panel's rows through any
/// permutation leaves the returned likelihood unchanged: the uniform mixing
/// term and the final maximum are order-independent.
pub proof fn lemma_row_permutation(
    h: Seq<Seq<char>>,
    q: Seq<char>,
    h2: Seq<Seq<char>>,
    mn: int,
    md: int,
    rn: int,
    rd: int,
    p: Seq<int>,
    pinv: Seq<int>,
)
    requires
        1 <= h.len(),
        1 <= q.len(),
        h2.len() == h.len(),
        p.len() == h.len(),
        pinv.len() == h.len(),
        forall|i: int| 0 <= i < h.len() ==> 0 <= #[trigger] p[i] < h.len(),
        forall|i: int| 0 <= i < h.len() ==> 0 <= #[trigger] pinv[i] < h.len(),
        forall|i: int| 0 <= i < h.len() ==> pinv[#[trigger] p[i]] == i,
        forall|i: int| 0 <= i < h.len() ==> p[#[trigger] pinv[i]] == i,
        forall|i: int| 0 <= i < h.len() ==> #[trigger] h2[i] == h[p[i]],
        0 <= mn <= md,
        1 <= md,
        0 <= rn <= rd,
        1 <= rd,
    ensures
        lik_num(h2, q, mn, md, rn, rd) == lik_num(h, q, mn, md, rn, rd),
        lik_den(h2, q, md, rd) == lik_den(h, q, md, rd),
{
    let n = h.len() as int;
    let l = q.len() as int;
    assert forall|i1: int, i2: int| 0 <= i1 < i2 < p.len() implies p[i1] != p[i2] by {
        if p[i1] == p[i2] {
            assert(pinv[p[i1]] == i1);
            assert(pinv[p[i2]] == i2);
        }
    }
    lemma_fwd_permuted(h, q, h2, mn, md, rn, rd, p, l - 1);
    lemma_fwd_bounds(h, q, mn, md, rn, rd, l - 1);
    lemma_den_at_pos(md, rd, n, l - 1);
    let m1 = col_max(h, q, mn, md, rn, rd, l - 1, n);
    let m2 = col_max(h2, q, mn, md, rn, rd, l - 1, n);
    lemma_col_max_le(h, q, mn, md, rn, rd, l - 1, n, den_at(md, rd, n, l - 1));
    assert forall|i: int|
        0 <= i < n implies #[trigger] fwd(h2, q, mn, md, rn, rd, i, l - 1) <= m1 by {
        lemma_col_max_ge(h, q, mn, md, rn, rd, l - 1, n, p[i]);
    }
    lemma_col_max_le(h2, q, mn, md, rn, rd, l - 1, n, m1);
    lemma_col_max_achieved(h, q, mn, md, rn, rd, l - 1, n);
    if m1 != 0 {
        let i0 = choose|i: int|
            0 <= i < n && m1 == #[trigger] fwd(h, q, mn, md, rn, rd, i, l - 1);
        assert(p[pinv[i0]] == i0);
        assert(fwd(h2, q, mn, md, rn, rd, pinv[i0], l - 1) == fwd(h, q, mn, md, rn, rd, i0, l - 1));
        lemma_col_max_ge(h2, q, mn, md, rn, rd, l - 1, n, pinv[i0]);
    }
}

} // verus!
