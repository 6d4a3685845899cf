//! The mathematical model of the forward dynamic program.
//!
//! With mutation probability `mn / md` and recombination probability
//! `rn / rd` over a panel of `n` haplotypes, every forward value of column
//! `j` is a rational with the one common denominator `den_at(md, rd, n, j)`.
//! The model tracks the integer numerators exactly; the engine computes the
//! very same integers.

use vstd::prelude::*;
use crate::alphabet::{is_base_spec, is_wildcard_spec};
use crate::errors::{BaseSource, LsError};
use crate::params::{Likelihood, Prob};

verus! {

/// Emission numerator at one position, over the per-position denominator
/// `3 * md`: a wildcard on either side emits `1` (numerator `3 * md`), a
/// match emits `1 - mu` (numerator `3 * (md - mn)`), and a mismatch emits
/// `mu / 3` (numerator `mn`).
pub open spec fn em_num(qc: char, hc: char, mn: int, md: int) -> int {
    if is_wildcard_spec(qc) || is_wildcard_spec(hc) {
        3 * md
    } else if qc == hc {
        3 * (md - mn)
    } else {
        mn
    }
}

/// Common denominator of the forward values in column `j`: `3 * md` for the
/// first column, and one more factor `3 * md * rd * n` for every later one.
pub open spec fn den_at(md: int, rd: int, n: int, j: int) -> int
    decreases j,
{
    if j <= 0 {
        3 * md
    } else {
        den_at(md, rd, n, j - 1) * (3 * md * rd * n)
    }
}

/// Forward numerator of haplotype row `i` in column `j`. In column 0 the
/// transition prior is flat, so the value is the emission alone; in a later
/// column the transition keeps the same row with probability `1 - rho` and
/// jumps to a uniformly drawn row with probability `rho`.
pub open spec fn fwd(
    h: Seq<Seq<char>>,
    q: Seq<char>,
    mn: int,
    md: int,
    rn: int,
    rd: int,
    i: int,
    j: int,
) -> int
    decreases j, 0int, 0int,
{
    if j <= 0 {
        em_num(q[0], h[i][0], mn, md)
    } else {
        ((rd - rn) * (h.len() as int) * fwd(h, q, mn, md, rn, rd, i, j - 1) + rn * col_sum(
            h,
            q,
            mn,
            md,
            rn,
            rd,
            j - 1,
            h.len() as int,
        )) * em_num(q[j], h[i][j], mn, md)
    }
}

/// Sum of the forward numerators of rows `0..k` in column `j`.
pub open spec fn col_sum(
    h: Seq<Seq<char>>,
    q: Seq<char>,
    mn: int,
    md: int,
    rn: int,
    rd: int,
    j: int,
    k: int,
) -> int
    decreases j, 1int, k,
{
    if k <= 0 {
        0
    } else {
        col_sum(h, q, mn, md, rn, rd, j, k - 1) + fwd(h, q, mn, md, rn, rd, k - 1, j)
    }
}

/// Largest forward numerator among rows `0..k` in column `j`; `0` when no
/// rows exist.
pub open spec fn col_max(
    h: Seq<Seq<char>>,
    q: Seq<char>,
    mn: int,
    md: int,
    rn: int,
    rd: int,
    j: int,
    k: int,
) -> int
    decreases k,
{
    if k <= 0 {
        0
    } else {
        let m = col_max(h, q, mn, md, rn, rd, j, k - 1);
        let v = fwd(h, q, mn, md, rn, rd, k - 1, j);
        if v > m {
            v
        } else {
            m
        }
    }
}

/// Numerator of the returned likelihood: the largest forward numerator in
/// the final column, and `0` for an empty panel or an empty query.
pub open spec fn lik_num(
    h: Seq<Seq<char>>,
    q: Seq<char>,
    mn: int,
    md: int,
    rn: int,
    rd: int,
) -> int {
    if h.len() == 0 || q.len() == 0 {
        0
    } else {
        col_max(h, q, mn, md, rn, rd, q.len() - 1, h.len() as int)
    }
}

/// Denominator of the returned likelihood, `1` for an empty panel or query.
pub open spec fn lik_den(h: Seq<Seq<char>>, q: Seq<char>, md: int, rd: int) -> int {
    if h.len() == 0 || q.len() == 0 {
        1
    } else {
        den_at(md, rd, h.len() as int, q.len() - 1)
    }
}

/// Every character of the sequence is a valid base.
pub open spec fn valid_bases(s: Seq<char>) -> bool {
    forall|i: int| 0 <= i < s.len() ==> is_base_spec(s[i])
}

/// Every row of the panel has width `l`.
pub open spec fn rows_aligned(h: Seq<Seq<char>>, l: int) -> bool {
    forall|i: int| 0 <= i < h.len() ==> h[i].len() == l
}

/// Every row of the panel consists of valid bases.
pub open spec fn panel_valid(h: Seq<Seq<char>>) -> bool {
    forall|i: int| 0 <= i < h.len() ==> valid_bases(h[i])
}

/// The exact common denominator of the final column fits in 128 bits.
pub open spec fn den_fits(md: int, rd: int, n: int, l: int) -> bool {
    den_at(md, rd, n, l - 1) <= u128::MAX
}

/// Index of the first invalid character, or `s.len()` when all are valid.
pub open spec fn first_bad(s: Seq<char>) -> int
    decreases s.len(),
{
    if s.len() == 0 {
        0
    } else if !is_base_spec(s[0]) {
        0
    } else {
        1 + first_bad(s.drop_first())
    }
}

/// Index of the first panel row holding an invalid character, or `h.len()`.
pub open spec fn first_bad_row(h: Seq<Seq<char>>) -> int
    decreases h.len(),
{
    if h.len() == 0 {
        0
    } else if !valid_bases(h[0]) {
        0
    } else {
        1 + first_bad_row(h.drop_first())
    }
}

/// The inputs on which the engine owes a likelihood: aligned widths, valid
/// bases throughout, and a final-column denominator that fits in 128 bits
/// (trivially so when the panel or the query is empty).
pub open spec fn inputs_ok(h: Seq<Seq<char>>, q: Seq<char>, mu: Prob, rho: Prob) -> bool {
    &&& rows_aligned(h, q.len() as int)
    &&& valid_bases(q)
    &&& panel_valid(h)
    &&& (h.len() == 0 || q.len() == 0 || den_fits(
        mu.den as int,
        rho.den as int,
        h.len() as int,
        q.len() as int,
    ))
}

/// The one result the engine returns on the given inputs: the first failure
/// in validation order (widths, then the query left to right, then the rows
/// top to bottom and left to right, then the denominator bound), and
/// otherwise the exact likelihood.
pub open spec fn expected_result(
    h: Seq<Seq<char>>,
    q: Seq<char>,
    mu: Prob,
    rho: Prob,
) -> Result<Likelihood, LsError> {
    let mn = mu.num as int;
    let md = mu.den as int;
    let rn = rho.num as int;
    let rd = rho.den as int;
    let n = h.len() as int;
    let l = q.len() as int;
    if !rows_aligned(h, l) {
        Err(LsError::DimensionMismatch)
    } else if first_bad(q) < l {
        Err(
            LsError::InvalidBase {
                source: BaseSource::Query,
                pos: first_bad(q) as usize,
            },
        )
    } else if first_bad_row(h) < n {
        Err(
            LsError::InvalidBase {
                source: (BaseSource::Haplotype { row: first_bad_row(h) as usize }),
                pos: first_bad(h[first_bad_row(h)]) as usize,
            },
        )
    } else if n > 0 && l > 0 && !den_fits(md, rd, n, l) {
        Err(LsError::Overflow)
    } else {
        Ok(
            Likelihood {
                num: lik_num(h, q, mn, md, rn, rd) as u128,
                den: lik_den(h, q, md, rd) as u128,
            },
        )
    }
}

} // verus!
