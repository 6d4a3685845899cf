//! The text adapter: builds the aligned character matrix from plain text
//! sequences, upper-casing the panel and right-padding every sequence with
//! the wildcard base, then delegates to the matrix entry point.

use vstd::prelude::*;
use crate::alphabet::{to_upper, upper_char};
use crate::engine::li_stephens_probs_matrix;
use crate::errors::LsError;
use crate::model::expected_result;
use crate::params::{Likelihood, Prob};
use vstd::string::StrSliceExecFns;

verus! {

/// A reference sequence as it enters the matrix: upper-cased and
/// right-padded to width `l` with the wildcard base.
pub open spec fn encode_row(s: Seq<char>, l: int) -> Seq<char> {
    Seq::new(
        l as nat,
        |j: int|
            if j < s.len() {
                upper_char(s[j])
            } else {
                'N'
            },
    )
}

/// The query as it enters the matrix: right-padded to width `l` with the
/// wildcard base, its original case preserved.
pub open spec fn encode_query(s: Seq<char>, l: int) -> Seq<char> {
    Seq::new(
        l as nat,
        |j: int|
            if j < s.len() {
                s[j]
            } else {
                'N'
            },
    )
}

/// Length of the longest sequence in the panel.
pub open spec fn panel_width(hs: Seq<Seq<char>>) -> int
    decreases hs.len(),
{
    if hs.len() == 0 {
        0
    } else {
        let w = panel_width(hs.drop_last());
        if hs.last().len() > w {
            hs.last().len() as int
        } else {
            w
        }
    }
}

/// Width of the matrix: the longest sequence among the panel and the query.
pub open spec fn target_width(hs: Seq<Seq<char>>, q: Seq<char>) -> int {
    if q.len() > panel_width(hs) {
        q.len() as int
    } else {
        panel_width(hs)
    }
}

/// The whole panel, encoded to width `l`.
pub open spec fn encode_panel(hs: Seq<Seq<char>>, l: int) -> Seq<Seq<char>> {
    Seq::new(hs.len(), |i: int| encode_row(hs[i], l))
}

/// Computes the likelihood of a plain-text query having been copied from a
/// panel of plain-text reference sequences, under the Li–Stephens model.
///
/// The sequences are aligned to the width of the longest one: panel
/// sequences are upper-cased and right-padded with the wildcard base, the
/// query is padded the same way with its case preserved. The aligned matrix
/// is then handed to `li_stephens_probs_matrix`, whose exact contract this
/// call inherits on the encoded inputs.
#[verifier::loop_isolation(false)]
pub fn li_stephens_probs(
    haplotypes: &Vec<String>,
    test_haplotype: &String,
    mutation_prob: Prob,
    recombination_prob: Prob,
) -> (r: Result<Likelihood, LsError>)
    requires
        mutation_prob.wf(),
        recombination_prob.wf(),
    ensures
        r == expected_result(
            encode_panel(
                haplotypes@.map_values(|s: String| s@),
                target_width(haplotypes@.map_values(|s: String| s@), test_haplotype@),
            ),
            encode_query(
                test_haplotype@,
                target_width(haplotypes@.map_values(|s: String| s@), test_haplotype@),
            ),
            mutation_prob,
            recombination_prob,
        ),
{
    let ghost hs = haplotypes@.map_values(|s: String| s@);
    let ghost qv = test_haplotype@;
    let n: usize = haplotypes.len();
    proof {
        assert(hs.len() == haplotypes@.len());
        assert(forall|e: int| 0 <= e < hs.len() ==> #[trigger] hs[e] == haplotypes@[e]@);
    }

    // The matrix width: the longest sequence among the panel and the query.
    let mut w: usize = 0;
    let mut x: usize = 0;
    while x < n
        invariant
            x <= n,
            w as int == panel_width(hs.take(x as int)),
        decreases n - x,
    {
        let len_x: usize = haplotypes[x].as_str().unicode_len();
        if len_x > w {
            w = len_x;
        }
        proof {
            assert(hs.take(x as int + 1).drop_last() =~= hs.take(x as int));
            assert(hs.take(x as int + 1).last() == hs[x as int]);
        }
        x += 1;
    }
    proof {
        assert(hs.take(n as int) =~= hs);
    }
    let ql: usize = test_haplotype.as_str().unicode_len();
    let l: usize = if ql > w {
        ql
    } else {
        w
    };
    assert(l as int == target_width(hs, qv));

    // Encode the panel: upper-case and pad each row to width `l`.
    let mut grid: Vec<Vec<char>> = Vec::new();
    let mut x: usize = 0;
    while x < n
        invariant
            x <= n,
            grid@.len() == x,
            forall|e: int| 0 <= e < x ==> #[trigger] grid@[e]@ == encode_row(hs[e], l as int),
        decreases n - x,
    {
        let sl: usize = haplotypes[x].as_str().unicode_len();
        let mut row: Vec<char> = Vec::new();
        let mut jdx: usize = 0;
        while jdx < l
            invariant
                jdx <= l,
                sl as int == hs[x as int].len(),
                row@.len() == jdx,
                forall|k: int|
                    0 <= k < jdx ==> #[trigger] row@[k] == encode_row(hs[x as int], l as int)[k],
            decreases l - jdx,
        {
            if jdx < sl {
                row.push(to_upper(haplotypes[x].as_str().get_char(jdx)));
            } else {
                row.push('N');
            }
            jdx += 1;
        }
        proof {
            assert(row@ =~= encode_row(hs[x as int], l as int));
        }
        grid.push(row);
        x += 1;
    }

    // Encode the query: pad to width `l`, preserving case.
    let mut qvec: Vec<char> = Vec::new();
    let mut jdx: usize = 0;
    while jdx < l
        invariant
            jdx <= l,
            qvec@.len() == jdx,
            forall|k: int|
                0 <= k < jdx ==> #[trigger] qvec@[k] == encode_query(qv, l as int)[k],
        decreases l - jdx,
    {
        if jdx < ql {
            qvec.push(test_haplotype.as_str().get_char(jdx));
        } else {
            qvec.push('N');
        }
        jdx += 1;
    }
    proof {
        assert(qvec@ =~= encode_query(qv, l as int));
    }

    let r = li_stephens_probs_matrix(&grid, &qvec, mutation_prob, recombination_prob);
    proof {
        assert(grid@.map_values(|row: Vec<char>| row@) =~~= encode_panel(hs, l as int));
    }
    r
}

} // verus!
