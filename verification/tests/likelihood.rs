use li_stephens::errors::{BaseSource, LsError};
use li_stephens::params::{Likelihood, Prob};
use li_stephens::{is_base, li_stephens_probs, li_stephens_probs_matrix};

fn prob(num: u64, den: u64) -> Prob {
    Prob::new(num, den).unwrap()
}

fn grid(rows: &[&str]) -> Vec<Vec<char>> {
    rows.iter().map(|r| r.chars().collect()).collect()
}

fn chars(s: &str) -> Vec<char> {
    s.chars().collect()
}

#[test]
fn valid_bases_accepted() {
    for c in ['a', 'c', 'g', 't', 'n', 'A', 'C', 'G', 'T', 'N'] {
        assert!(is_base(c));
    }
}

#[test]
fn invalid_bases_rejected() {
    for c in ['x', 'X', 'b', 'u', 'U', ' ', '0', '-'] {
        assert!(!is_base(c));
    }
}

#[test]
fn prob_constructor_checks_range() {
    assert!(Prob::new(1, 100).is_some());
    assert!(Prob::new(100, 100).is_some());
    assert!(Prob::new(0, 1).is_some());
    assert!(Prob::new(101, 100).is_none());
    assert!(Prob::new(0, 0).is_none());
}

// One haplotype, equal query, small mutation and recombination rates:
// the result is exactly (1 - mu)^2 = 0.9801.
#[test]
fn two_position_exact_value() {
    let haps = vec!["AC".to_string()];
    let query = "AC".to_string();
    let r = li_stephens_probs(&haps, &query, prob(1, 100), prob(1, 100)).unwrap();
    assert_eq!(r.num * 10000, 9801 * r.den);
    assert_eq!(r, Likelihood { num: 8820900, den: 9000000 });
}

// A single haplotype with no recombination multiplies the emission terms:
// match then mismatch gives (1 - mu) * (mu / 3) = 0.9 * (1/30) = 0.03.
#[test]
fn single_row_is_emission_product() {
    let r = li_stephens_probs_matrix(&grid(&["AG"]), &chars("AC"), prob(1, 10), prob(0, 1))
        .unwrap();
    assert_eq!(r.num, 27);
    assert_eq!(r.den, 900);
    assert_eq!(r.num * 100, 3 * r.den);
}

// With mutation and recombination both zero and the query equal to one
// panel row, the forward value of that row stays exactly 1.
#[test]
fn exact_match_returns_one() {
    let r = li_stephens_probs_matrix(
        &grid(&["ACGT", "TTTT"]),
        &chars("ACGT"),
        prob(0, 1),
        prob(0, 1),
    )
    .unwrap();
    assert_eq!(r.num, r.den);
    assert!(r.den > 0);
}

// Replacing a mismatching base with the wildcard can only raise the
// likelihood; here the shared denominator makes the numerators comparable.
#[test]
fn wildcard_absorbs_mismatch() {
    let mu = prob(1, 100);
    let rho = prob(1, 100);
    let mismatch = li_stephens_probs_matrix(&grid(&["AG"]), &chars("AC"), mu, rho).unwrap();
    let wild_hap = li_stephens_probs_matrix(&grid(&["AN"]), &chars("AC"), mu, rho).unwrap();
    let wild_query = li_stephens_probs_matrix(&grid(&["AG"]), &chars("AN"), mu, rho).unwrap();
    assert_eq!(mismatch.den, wild_hap.den);
    assert_eq!(mismatch.den, wild_query.den);
    assert!(wild_hap.num > mismatch.num);
    assert!(wild_query.num > mismatch.num);
    assert_eq!(wild_hap.num, wild_query.num);
}

// The lower-case wildcard absorbs just like the upper-case one.
#[test]
fn lowercase_wildcard_matches() {
    let r = li_stephens_probs_matrix(&grid(&["GC"]), &chars("nC"), prob(0, 1), prob(0, 1))
        .unwrap();
    assert_eq!(r.num, r.den);
}

// Permuting the panel rows leaves the returned likelihood unchanged.
#[test]
fn row_permutation_keeps_result() {
    let mu = prob(3, 100);
    let rho = prob(7, 100);
    let q = chars("ACGT");
    let a = li_stephens_probs_matrix(&grid(&["ACGA", "TCGT", "ACTT"]), &q, mu, rho).unwrap();
    let b = li_stephens_probs_matrix(&grid(&["TCGT", "ACTT", "ACGA"]), &q, mu, rho).unwrap();
    assert_eq!(a, b);
}

// An invalid character in the query fails with the query's position.
#[test]
fn invalid_query_base_fails() {
    let r = li_stephens_probs_matrix(&grid(&["AC"]), &chars("Ax"), prob(1, 100), prob(1, 100));
    assert_eq!(
        r,
        Err(LsError::InvalidBase { source: BaseSource::Query, pos: 1 })
    );
}

// An invalid character in the panel names the row and the position; the
// text entry point upper-cases first, which keeps 'x' invalid.
#[test]
fn invalid_panel_base_fails() {
    let haps = vec!["AC".to_string(), "AxC".to_string()];
    let query = "ACG".to_string();
    let r = li_stephens_probs(&haps, &query, prob(1, 100), prob(1, 100));
    assert_eq!(
        r,
        Err(LsError::InvalidBase { source: BaseSource::Haplotype { row: 1 }, pos: 1 })
    );
}

// The very last position is validated too.
#[test]
fn final_position_is_validated() {
    let r = li_stephens_probs_matrix(&grid(&["AC"]), &chars("A?"), prob(1, 100), prob(1, 100));
    assert_eq!(
        r,
        Err(LsError::InvalidBase { source: BaseSource::Query, pos: 1 })
    );
}

// Rows must share the query's width at the matrix entry point.
#[test]
fn unequal_widths_fail() {
    let r = li_stephens_probs_matrix(&grid(&["ACG", "AC"]), &chars("ACG"), prob(0, 1), prob(0, 1));
    assert_eq!(r, Err(LsError::DimensionMismatch));
}

// Width errors are reported before base errors.
#[test]
fn width_checked_before_bases() {
    let r = li_stephens_probs_matrix(&grid(&["Ax"]), &chars("ACG"), prob(0, 1), prob(0, 1));
    assert_eq!(r, Err(LsError::DimensionMismatch));
}

// An empty panel carries no forward mass.
#[test]
fn empty_panel_gives_zero() {
    let empty: Vec<Vec<char>> = Vec::new();
    let r = li_stephens_probs_matrix(&empty, &chars("ACGT"), prob(1, 100), prob(1, 100));
    assert_eq!(r, Ok(Likelihood { num: 0, den: 1 }));
}

// The text entry pads shorter sequences with the wildcard instead of
// truncating or reading past them: the padded tail always matches.
#[test]
fn encoder_pads_with_wildcard() {
    let haps = vec!["A".to_string()];
    let query = "ACG".to_string();
    let r = li_stephens_probs(&haps, &query, prob(1, 100), prob(0, 1)).unwrap();
    // (1 - mu) * 1 * 1 = 0.99
    assert_eq!(r.num * 100, 99 * r.den);
}

// The encoder also pads the query when the panel is wider.
#[test]
fn encoder_pads_query() {
    let haps = vec!["ACG".to_string()];
    let query = "A".to_string();
    let r = li_stephens_probs(&haps, &query, prob(1, 100), prob(0, 1)).unwrap();
    assert_eq!(r.num * 100, 99 * r.den);
}

// Panel text is upper-cased; the query's case is preserved, and emission
// equality is case-sensitive, so a lower-case query mismatches everywhere.
#[test]
fn query_case_is_preserved() {
    let haps = vec!["ac".to_string()];
    let query = "ac".to_string();
    let r = li_stephens_probs(&haps, &query, prob(3, 10), prob(0, 1)).unwrap();
    // both positions mismatch: (mu / 3)^2 = (1/10)^2
    assert_eq!(r.num * 100, r.den);
}

// The exact common denominator grows by a fixed factor per position; once
// it cannot fit in 128 bits the call reports it instead of rounding.
#[test]
fn long_sequence_overflows_exactly() {
    let row: Vec<char> = vec!['A'; 40];
    let q: Vec<char> = vec!['A'; 40];
    let r = li_stephens_probs_matrix(&vec![row], &q, prob(1, 3), prob(1, 3));
    assert_eq!(r, Err(LsError::Overflow));
}

// Just below the overflow threshold the exact value still comes back.
#[test]
fn short_sequence_stays_exact() {
    let row: Vec<char> = vec!['A'; 10];
    let q: Vec<char> = vec!['A'; 10];
    let r = li_stephens_probs_matrix(&vec![row], &q, prob(1, 3), prob(1, 3)).unwrap();
    // every position matches: (1 - 1/3)^10 = (2/3)^10
    assert_eq!(r.num * 59049, r.den * 1024);
}

// A panel and query made only of wildcards emit 1 at every position, so
// the likelihood is exactly 1 whatever the rates are.
#[test]
fn wildcard_everywhere_gives_one() {
    let r = li_stephens_probs_matrix(&grid(&["NN"]), &chars("NN"), prob(9, 10), prob(9, 10))
        .unwrap();
    assert_eq!(r.num, r.den);
}
