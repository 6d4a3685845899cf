//! Bounds on the model: the common denominator is positive and grows with
//! the column, forward numerators never exceed it, and the first-failure
//! scans are characterized.

use vstd::prelude::*;
use crate::alphabet::is_base_spec;
use crate::model::{
    col_sum, den_at, em_num, first_bad, first_bad_row, fwd, panel_valid, valid_bases,
};

verus! {

/// Every emission numerator lies between `0` and the full per-position
/// denominator `3 * md`.
pub proof fn lemma_em_num_bounds(qc: char, hc: char, mn: int, md: int)
    requires
        0 <= mn <= md,
    ensures
        0 <= em_num(qc, hc, mn, md) <= 3 * md,
{
}

/// The common denominator is positive in every column.
pub proof fn lemma_den_at_pos(md: int, rd: int, n: int, j: int)
    requires
        1 <= md,
        1 <= rd,
        1 <= n,
    ensures
        0 < den_at(md, rd, n, j),
    decreases j,
{
    if j > 0 {
        lemma_den_at_pos(md, rd, n, j - 1);
        assert(den_at(md, rd, n, j - 1) * (3 * md * rd * n) > 0) by (nonlinear_arith)
            requires
                den_at(md, rd, n, j - 1) > 0,
                1 <= md,
                1 <= rd,
                1 <= n,
        ;
    }
}

/// The common denominator never shrinks from one column to a later one.
pub proof fn lemma_den_at_mono(md: int, rd: int, n: int, j1: int, j2: int)
    requires
        1 <= md,
        1 <= rd,
        1 <= n,
        j1 <= j2,
    ensures
        den_at(md, rd, n, j1) <= den_at(md, rd, n, j2),
    decreases j2 - j1,
{
    if j1 < j2 {
        lemma_den_at_mono(md, rd, n, j1, j2 - 1);
        if j2 > 0 {
            lemma_den_at_pos(md, rd, n, j2 - 1);
            assert(den_at(md, rd, n, j2 - 1) <= den_at(md, rd, n, j2 - 1) * (3 * md * rd * n))
                by (nonlinear_arith)
                requires
                    den_at(md, rd, n, j2 - 1) > 0,
                    1 <= md,
                    1 <= rd,
                    1 <= n,
            ;
        }
    }
}

/// A column sum of `k` values, each between `0` and `b`, lies between `0`
/// and `k * b`.
pub proof fn lemma_col_sum_bound(
    h: Seq<Seq<char>>,
    q: Seq<char>,
    mn: int,
    md: int,
    rn: int,
    rd: int,
    j: int,
    k: int,
    b: int,
)
    requires
        0 <= k,
        0 <= b,
        forall|i: int| 0 <= #[trigger] fwd(h, q, mn, md, rn, rd, i, j) <= b,
    ensures
        0 <= col_sum(h, q, mn, md, rn, rd, j, k) <= k * b,
    decreases k,
{
    if k > 0 {
        lemma_col_sum_bound(h, q, mn, md, rn, rd, j, k - 1, b);
        assert(fwd(h, q, mn, md, rn, rd, k - 1, j) <= b);
        assert((k - 1) * b + b == k * b) by (nonlinear_arith);
    }
}

/// No forward numerator exceeds its column's common denominator.
pub proof fn lemma_fwd_bounds(
    h: Seq<Seq<char>>,
    q: Seq<char>,
    mn: int,
    md: int,
    rn: int,
    rd: int,
    j: int,
)
    requires
        0 <= mn <= md,
        1 <= md,
        0 <= rn <= rd,
        1 <= rd,
        1 <= h.len(),
    ensures
        forall|i: int|
            0 <= #[trigger] fwd(h, q, mn, md, rn, rd, i, j) <= den_at(
                md,
                rd,
                h.len() as int,
                j,
            ),
    decreases j,
{
    let n = h.len() as int;
    if j <= 0 {
        assert forall|i: int|
            0 <= #[trigger] fwd(h, q, mn, md, rn, rd, i, j) <= den_at(md, rd, n, j) by {
            lemma_em_num_bounds(q[0], h[i][0], mn, md);
        }
    } else {
        lemma_fwd_bounds(h, q, mn, md, rn, rd, j - 1);
        let dprev = den_at(md, rd, n, j - 1);
        lemma_den_at_pos(md, rd, n, j - 1);
        lemma_col_sum_bound(h, q, mn, md, rn, rd, j - 1, n, dprev);
        let s = col_sum(h, q, mn, md, rn, rd, j - 1, n);
        assert forall|i: int|
            0 <= #[trigger] fwd(h, q, mn, md, rn, rd, i, j) <= den_at(md, rd, n, j) by {
            let f = fwd(h, q, mn, md, rn, rd, i, j - 1);
            let e = em_num(q[j], h[i][j], mn, md);
            lemma_em_num_bounds(q[j], h[i][j], mn, md);
            let t = (rd - rn) * n * f + rn * s;
            assert(0 <= t <= rd * n * dprev) by (nonlinear_arith)
                requires
                    0 <= f <= dprev,
                    0 <= s <= n * dprev,
                    0 <= rn <= rd,
                    1 <= n,
                    0 < dprev,
                    t == (rd - rn) * n * f + rn * s,
            ;
            assert(0 <= t * e <= (rd * n * dprev) * (3 * md)) by (nonlinear_arith)
                requires
                    0 <= t <= rd * n * dprev,
                    0 <= e <= 3 * md,
                    1 <= md,
            ;
            assert((rd * n * dprev) * (3 * md) == dprev * (3 * md * rd * n)) by (nonlinear_arith);
            assert(fwd(h, q, mn, md, rn, rd, i, j) == t * e);
            assert(den_at(md, rd, n, j) == dprev * (3 * md * rd * n));
        }
    }
}

/// What the first-invalid-character scan returns: everything before it is
/// valid, and where it stops short of the end, that character is invalid.
pub proof fn lemma_first_bad(s: Seq<char>)
    ensures
        0 <= first_bad(s) <= s.len(),
        forall|k: int| 0 <= k < first_bad(s) ==> is_base_spec(s[k]),
        first_bad(s) < s.len() ==> !is_base_spec(s[first_bad(s)]),
    decreases s.len(),
{
    if s.len() > 0 && is_base_spec(s[0]) {
        lemma_first_bad(s.drop_first());
        assert forall|k: int| 0 <= k < first_bad(s) implies is_base_spec(s[k]) by {
            if k > 0 {
                assert(s.drop_first()[k - 1] == s[k]);
            }
        }
        if first_bad(s) < s.len() {
            assert(s.drop_first()[first_bad(s) - 1] == s[first_bad(s)]);
        }
    }
}

/// A sequence is fully valid exactly when the scan runs off its end.
pub proof fn lemma_first_bad_all_valid(s: Seq<char>)
    ensures
        valid_bases(s) <==> first_bad(s) == s.len(),
{
    lemma_first_bad(s);
}

/// What the first-invalid-row scan returns.
pub proof fn lemma_first_bad_row(h: Seq<Seq<char>>)
    ensures
        0 <= first_bad_row(h) <= h.len(),
        forall|e: int| 0 <= e < first_bad_row(h) ==> valid_bases(#[trigger] h[e]),
        first_bad_row(h) < h.len() ==> !valid_bases(h[first_bad_row(h)]),
    decreases h.len(),
{
    if h.len() > 0 && valid_bases(h[0]) {
        lemma_first_bad_row(h.drop_first());
        assert forall|e: int| 0 <= e < first_bad_row(h) implies valid_bases(#[trigger] h[e]) by {
            if e > 0 {
                assert(h.drop_first()[e - 1] == h[e]);
            }
        }
        if first_bad_row(h) < h.len() {
            assert(h.drop_first()[first_bad_row(h) - 1] == h[first_bad_row(h)]);
        }
    }
}

/// A panel is fully valid exactly when the row scan runs off its end.
pub proof fn lemma_first_bad_row_all_valid(h: Seq<Seq<char>>)
    ensures
        panel_valid(h) <==> first_bad_row(h) == h.len(),
{
    lemma_first_bad_row(h);
}

} // verus!
