//! The similarity scorer: the Ochiai coefficient of a column of the coverage
//! matrix against the vector of failures.
//!
//! The coefficient of a column is `a11 / sqrt((a11 + a01) * (a11 + a10))`,
//! where `a11` counts the runs that covered the element and failed, `a10` those
//! that covered it and passed, and `a01` those that did not cover it and
//! failed. It is taken as 0 where the divisor is 0. The library keeps the
//! three counts, which determine the coefficient, and compares the coefficient
//! with a threshold in integers.
use crate::models::coverage_matrix::{CoverageMatrix, CoverageMatrixView};
use crate::settings::Threshold;
use vstd::arithmetic::div_mod::{lemma_fundamental_div_mod, lemma_mod_pos_bound};
use vstd::prelude::*;

verus! {

/// How many of the first `n` runs have the given coverage and the given
/// outcome.
pub open spec fn tally(
    column: Seq<bool>,
    errors: Seq<bool>,
    covered: bool,
    failed: bool,
    n: nat,
) -> nat
    decreases n,
{
    if n == 0 {
        0
    } else {
        tally(column, errors, covered, failed, (n - 1) as nat) + if column[n - 1] == covered
            && errors[n - 1] == failed {
            1nat
        } else {
            0nat
        }
    }
}

/// The counts that stand for a similarity.
pub struct SimilarityView {
    /// Runs that covered the element and failed.
    pub covered_failed: nat,
    /// Runs that covered the element and passed.
    pub covered_passed: nat,
    /// Runs that did not cover the element and failed.
    pub uncovered_failed: nat,
}

/// The similarity of the column under `key` with the failures of `matrix`; all
/// counts are zero where the matrix has no such column.
pub open spec fn similarity(matrix: CoverageMatrixView, key: Seq<char>) -> SimilarityView {
    if matrix.data.dom().contains(key) {
        let column = matrix.data[key];
        let n = matrix.error_vector.len();
        SimilarityView {
            covered_failed: tally(column, matrix.error_vector, true, true, n),
            covered_passed: tally(column, matrix.error_vector, true, false, n),
            uncovered_failed: tally(column, matrix.error_vector, false, true, n),
        }
    } else {
        SimilarityView { covered_failed: 0, covered_passed: 0, uncovered_failed: 0 }
    }
}

/// Whether the coefficient of `s` is greater than the threshold `t`. Both
/// sides of `a11 / sqrt(d) > numerator / denominator` are not negative, so
/// the comparison is that of their squares multiplied out; a negative
/// threshold is exceeded by every coefficient.
pub open spec fn score_exceeds(s: SimilarityView, t: Threshold) -> bool {
    if t.numerator < 0 {
        true
    } else {
        let d = (s.covered_failed + s.uncovered_failed) * (s.covered_failed + s.covered_passed);
        d > 0 && s.covered_failed * s.covered_failed * t.denominator * t.denominator > t.numerator
            * t.numerator * d
    }
}

/// The three counts add up to at most `n`.
pub proof fn lemma_tally_bound(column: Seq<bool>, errors: Seq<bool>, n: nat)
    ensures
        tally(column, errors, true, true, n) + tally(column, errors, true, false, n) + tally(
            column,
            errors,
            false,
            true,
            n,
        ) <= n,
    decreases n,
{
    if n > 0 {
        lemma_tally_bound(column, errors, (n - 1) as nat);
    }
}

/// Where no run failed, no run is counted as failed.
pub proof fn lemma_tally_no_failure(column: Seq<bool>, errors: Seq<bool>, covered: bool, n: nat)
    requires
        forall|i: int| 0 <= i < n ==> !errors[i],
    ensures
        tally(column, errors, covered, true, n) == 0,
    decreases n,
{
    if n > 0 {
        lemma_tally_no_failure(column, errors, covered, (n - 1) as nat);
    }
}

/// `p / q` is greater than `r / s`, for positive `q` and `s`, said without a
/// division.
pub open spec fn fraction_greater(p: int, q: int, r: int, s: int) -> bool {
    p * s > r * q
}

/// How two fractions compare follows from their whole parts, and where these
/// are the same from what is left over.
proof fn lemma_compare_parts(p: int, q: int, r: int, s: int, a: int, b: int, p_left: int, r_left: int)
    requires
        q > 0,
        s > 0,
        p == q * a + p_left,
        r == s * b + r_left,
        0 <= p_left < q,
        0 <= r_left < s,
    ensures
        a > b ==> fraction_greater(p, q, r, s),
        a < b ==> !fraction_greater(p, q, r, s),
        a == b ==> fraction_greater(p, q, r, s) == (p_left * s > r_left * q),
{
    assert(p * s - r * q == q * s * (a - b) + (p_left * s - r_left * q)) by (nonlinear_arith)
        requires
            p == q * a + p_left,
            r == s * b + r_left,
    ;
    assert(p_left * s < q * s) by (nonlinear_arith)
        requires
            0 <= p_left < q,
            s > 0,
    ;
    assert(r_left * q < q * s) by (nonlinear_arith)
        requires
            0 <= r_left < s,
            q > 0,
    ;
    assert(p_left * s >= 0 && r_left * q >= 0) by (nonlinear_arith)
        requires
            0 <= p_left,
            0 <= r_left,
            q > 0,
            s > 0,
    ;
    if a > b {
        assert(q * s * (a - b) >= q * s) by (nonlinear_arith)
            requires
                a - b >= 1,
                q > 0,
                s > 0,
        ;
    }
    if a < b {
        assert(q * s * (a - b) <= -(q * s)) by (nonlinear_arith)
            requires
                a - b <= -1,
                q > 0,
                s > 0,
        ;
    }
    if a == b {
        assert(q * s * (a - b) == 0) by (nonlinear_arith)
            requires
                a - b == 0,
        ;
    }
}

/// Whether `p / q` is greater than `r / s`. The two are compared by their
/// whole parts, and where these are the same by the reciprocals of what is
/// left over, so that no product is ever formed.
pub fn greater_fraction(p: u128, q: u128, r: u128, s: u128) -> (greater: bool)
    requires
        q > 0,
        s > 0,
    ensures
        greater == fraction_greater(p as int, q as int, r as int, s as int),
    decreases q + s,
{
    let a = p / q;
    let b = r / s;
    let p_left = p % q;
    let r_left = r % s;
    proof {
        lemma_fundamental_div_mod(p as int, q as int);
        lemma_fundamental_div_mod(r as int, s as int);
        lemma_mod_pos_bound(p as int, q as int);
        lemma_mod_pos_bound(r as int, s as int);
        lemma_compare_parts(
            p as int,
            q as int,
            r as int,
            s as int,
            a as int,
            b as int,
            p_left as int,
            r_left as int,
        );
    }
    if a != b {
        return a > b;
    }
    if p_left == 0 {
        proof {
            assert(p_left as int * s as int == 0) by (nonlinear_arith)
                requires
                    p_left == 0,
            ;
            assert(r_left as int * q as int >= 0) by (nonlinear_arith)
                requires
                    r_left >= 0,
                    q > 0,
            ;
        }
        return false;
    }
    if r_left == 0 {
        proof {
            assert(r_left as int * q as int == 0) by (nonlinear_arith)
                requires
                    r_left == 0,
            ;
            assert(p_left as int * s as int > 0) by (nonlinear_arith)
                requires
                    p_left > 0,
                    s > 0,
            ;
        }
        return true;
    }
    proof {
        assert((p_left as int * s as int > r_left as int * q as int) == fraction_greater(
            s as int,
            r_left as int,
            q as int,
            p_left as int,
        )) by (nonlinear_arith);
    }
    greater_fraction(s, r_left, q, p_left)
}

/// The similarity of a model element with the failures: the counts of the
/// runs that covered it and failed, covered it and passed, did not cover it
/// and failed.
#[derive(Debug, Clone, Copy, PartialEq, Eq, Structural)]
pub struct Similarity {
    pub covered_failed: u64,
    pub covered_passed: u64,
    pub uncovered_failed: u64,
}

impl View for Similarity {
    type V = SimilarityView;

    open spec fn view(&self) -> SimilarityView {
        SimilarityView {
            covered_failed: self.covered_failed as nat,
            covered_passed: self.covered_passed as nat,
            uncovered_failed: self.uncovered_failed as nat,
        }
    }
}

impl Similarity {
    /// The similarity with the given counts.
    pub fn new(covered_failed: u64, covered_passed: u64, uncovered_failed: u64) -> (made: Similarity)
        ensures
            made.covered_failed == covered_failed,
            made.covered_passed == covered_passed,
            made.uncovered_failed == uncovered_failed,
    {
        Similarity { covered_failed, covered_passed, uncovered_failed }
    }

    /// Whether the coefficient is greater than `threshold`.
    pub fn exceeds(&self, threshold: &Threshold) -> (above: bool)
        ensures
            above == score_exceeds(self@, *threshold),
    {
        let ghost a = self.covered_failed as int;
        let ghost failed_runs = self.covered_failed + self.uncovered_failed;
        let ghost covered_runs = self.covered_failed + self.covered_passed;
        let ghost den = threshold.denominator as int;
        let ghost num = threshold.numerator as int;
        if threshold.numerator < 0 {
            return true;
        }
        if self.covered_failed == 0 || threshold.denominator == 0 {
            proof {
                assert(a * a * den * den == 0) by (nonlinear_arith)
                    requires
                        a == 0 || den == 0,
                ;
                assert(num * num * (failed_runs * covered_runs) >= 0) by (nonlinear_arith)
                    requires
                        failed_runs >= 0,
                        covered_runs >= 0,
                ;
            }
            return false;
        }
        proof {
            assert(failed_runs * covered_runs > 0) by (nonlinear_arith)
                requires
                    failed_runs >= 1,
                    covered_runs >= 1,
            ;
        }
        if threshold.numerator == 0 {
            proof {
                assert(a * a * den * den > 0) by (nonlinear_arith)
                    requires
                        a >= 1,
                        den >= 1,
                ;
                assert(num * num * (failed_runs * covered_runs) == 0) by (nonlinear_arith)
                    requires
                        num == 0,
                ;
            }
            return true;
        }
        let hits: u128 = self.covered_failed as u128;
        let failed: u128 = self.covered_failed as u128 + self.uncovered_failed as u128;
        let covered: u128 = self.covered_failed as u128 + self.covered_passed as u128;
        let denominator: u128 = threshold.denominator as u128;
        let numerator: u128 = threshold.numerator as u128;
        assert(hits * denominator <= 0xFFFF_FFFF_FFFF_FFFF * 0xFFFF_FFFF) by (nonlinear_arith)
            requires
                hits <= 0xFFFF_FFFF_FFFF_FFFF,
                denominator <= 0xFFFF_FFFF,
        ;
        assert(numerator * failed <= 0x7FFF_FFFF * 0x1_FFFF_FFFF_FFFF_FFFE) by (nonlinear_arith)
            requires
                numerator <= 0x7FFF_FFFF,
                failed <= 0x1_FFFF_FFFF_FFFF_FFFE,
        ;
        assert(numerator * covered <= 0x7FFF_FFFF * 0x1_FFFF_FFFF_FFFF_FFFE) by (nonlinear_arith)
            requires
                numerator <= 0x7FFF_FFFF,
                covered <= 0x1_FFFF_FFFF_FFFF_FFFE,
        ;
        assert(numerator * failed > 0) by (nonlinear_arith)
            requires
                numerator >= 1,
                failed >= 1,
        ;
        let left: u128 = hits * denominator;
        let below_failed: u128 = numerator * failed;
        let below_covered: u128 = numerator * covered;
        proof {
            assert(left > 0) by (nonlinear_arith)
                requires
                    left == hits * denominator,
                    hits >= 1,
                    denominator >= 1,
            ;
            assert((left * left > below_covered * below_failed) == (a * a * den * den > num * num
                * (failed_runs * covered_runs))) by (nonlinear_arith)
                requires
                    left == a * den,
                    below_failed == num * failed_runs,
                    below_covered == num * covered_runs,
            ;
        }
        greater_fraction(left, below_failed, below_covered, left)
    }
}

/// The scorer. The similarity of the column under `key`; all counts are zero
/// where the matrix has no such column.
pub fn column_similarity(key: &str, coverage_matrix: &CoverageMatrix) -> (found: Similarity)
    ensures
        found@ == similarity(coverage_matrix@, key@),
{
    let errors = coverage_matrix.error_vector();
    match coverage_matrix.column(key) {
        Some(column) => {
            let mut covered_failed: u64 = 0;
            let mut covered_passed: u64 = 0;
            let mut uncovered_failed: u64 = 0;
            let mut i: usize = 0;
            while i < errors.len()
                invariant
                    i <= errors.len(),
                    column.len() == errors.len(),
                    covered_failed == tally(column@, errors@, true, true, i as nat),
                    covered_passed == tally(column@, errors@, true, false, i as nat),
                    uncovered_failed == tally(column@, errors@, false, true, i as nat),
                    covered_failed + covered_passed + uncovered_failed <= i,
                decreases errors.len() - i,
            {
                if column[i] && errors[i] {
                    covered_failed += 1;
                } else if !column[i] && errors[i] {
                    uncovered_failed += 1;
                } else if column[i] && !errors[i] {
                    covered_passed += 1;
                }
                i += 1;
            }
            Similarity { covered_failed, covered_passed, uncovered_failed }
        },
        None => Similarity { covered_failed: 0, covered_passed: 0, uncovered_failed: 0 },
    }
}

/// Where no run failed, no similarity exceeds a threshold that is not
/// negative.
pub proof fn law_no_failure_no_suspicion(matrix: CoverageMatrixView, key: Seq<char>, t: Threshold)
    requires
        forall|i: int| 0 <= i < matrix.error_vector.len() ==> !matrix.error_vector[i],
        t.numerator >= 0,
    ensures
        !score_exceeds(similarity(matrix, key), t),
{
    if matrix.data.dom().contains(key) {
        let n = matrix.error_vector.len();
        lemma_tally_no_failure(matrix.data[key], matrix.error_vector, true, n);
        lemma_tally_no_failure(matrix.data[key], matrix.error_vector, false, n);
    }
    let s = similarity(matrix, key);
    assert(s.covered_failed == 0 && s.uncovered_failed == 0);
    assert((s.covered_failed + s.uncovered_failed) * (s.covered_failed + s.covered_passed) == 0)
        by (nonlinear_arith)
        requires
            s.covered_failed + s.uncovered_failed == 0,
    ;
}

} // verus!
