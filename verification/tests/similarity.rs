use sfl_service::analysis_service::AnalysisService;
use sfl_service::models::coverage_matrix::CoverageMatrix;
use sfl_service::settings::Threshold;
use sfl_service::similarity::{column_similarity, Similarity};

fn coefficient(s: &Similarity) -> f32 {
    let a_11 = s.covered_failed;
    let a_01 = s.uncovered_failed;
    let a_10 = s.covered_passed;
    let divisor = (a_11 + a_01) * (a_11 + a_10);
    if divisor == 0 {
        return 0 as f32;
    }
    a_11 as f32 / ((divisor as f32).sqrt())
}

/**
 * This test is based on an example given in "Refining spectrum-based fault localization rankings"
 * by Abreu, Rui and Mayer, Wolfgang and Stumptner, Markus and van Gemund, Arjan JC
 */
#[test]
fn check_similarity() {
    let translation = vec!["c1", "c2", "c3", "c4", "c6", "c7", "c9", "c12"].iter().map(|it| it.to_string()).collect::<Vec<String>>();
    let error = vec![true, false, false, false, false, true];
    let mut data = Vec::new();
    data.push(("c1".to_string(), vec![true, true, true, true, true, true]));
    data.push(("c2".to_string(), vec![true, true, true, true, true, true, ]));
    data.push(("c3".to_string(), vec![true, false, true, true, true, true]));
    data.push(("c4".to_string(), vec![false, false, true, true, false, false]));
    data.push(("c6".to_string(), vec![true, false, false, true, true, true]));
    data.push(("c7".to_string(), vec![true, false, false, true, true, true]));
    data.push(("c9".to_string(), vec![true, false, false, true, true, true]));
    data.push(("c12".to_string(), vec![true, true, false, false, true, false]));

    let coverage_matrix = CoverageMatrix::new(error, vec![1, 2, 3, 4, 5, 6], data);
    coverage_matrix.to_coverage_table().printstd();

    let expected = vec![0.58, 0.58, 0.63, 0.00, 0.71, 0.71, 0.71, 0.41];
    let mut actual = vec![];
    let service = AnalysisService {};
    for component in translation.iter() {
        actual.push((coefficient(&service.similarity_coefficient(component, &coverage_matrix)) * 100 as f32).round() / 100 as f32);
    }

    assert_eq!(expected, actual);
}

#[test]
fn a_column_is_counted_against_the_failures() {
    let matrix = CoverageMatrix::new(vec![true, false, false, true, true], vec![1, 2, 3, 4, 5], vec![("x".to_string(), vec![true, true, false, false, true])]);
    let s = column_similarity("x", &matrix);
    assert_eq!((s.covered_failed, s.covered_passed, s.uncovered_failed), (2, 1, 1));
    let none = column_similarity("y", &matrix);
    assert_eq!((none.covered_failed, none.covered_passed, none.uncovered_failed), (0, 0, 0));
    assert_eq!(s, Similarity::new(2, 1, 1));
}

#[test]
fn a_similarity_exceeds_a_threshold_below_its_coefficient() {
    let three_of_four = Similarity::new(3, 1, 1);
    assert!(!three_of_four.exceeds(&Threshold::new(3, 4)));
    assert!(three_of_four.exceeds(&Threshold::new(74, 100)));
    assert!(!three_of_four.exceeds(&Threshold::new(76, 100)));
    let half_root = Similarity::new(1, 1, 0);
    assert!(half_root.exceeds(&Threshold::new(7071, 10000)));
    assert!(!half_root.exceeds(&Threshold::new(7072, 10000)));
    let all = Similarity::new(2, 0, 0);
    assert!(all.exceeds(&Threshold::new(3, 4)));
    assert!(!all.exceeds(&Threshold::new(1, 1)));
    assert!(all.exceeds(&Threshold::new(0, 1)));
    assert!(!all.exceeds(&Threshold::new(0, 0)));
    assert!(!all.exceeds(&Threshold::new(5, 0)));
    assert!(all.exceeds(&Threshold::new(-1, 0)));
}

#[test]
fn a_coefficient_without_divisor_counts_as_zero() {
    let nothing = Similarity::new(0, 0, 0);
    assert!(!nothing.exceeds(&Threshold::new(0, 1)));
    assert!(!nothing.exceeds(&Threshold::new(3, 4)));
    assert!(nothing.exceeds(&Threshold::new(-1, 4)));
    let never_failed = Similarity::new(0, 5, 0);
    assert!(!never_failed.exceeds(&Threshold::new(0, 1)));
    let never_covered = Similarity::new(0, 0, 5);
    assert!(!never_covered.exceeds(&Threshold::new(0, 1)));
    assert_eq!(coefficient(&nothing), 0.0);
}

#[test]
fn the_comparison_is_exact_for_the_largest_counts() {
    let most = Similarity::new(u64::MAX, 0, 0);
    assert!(most.exceeds(&Threshold::new(i32::MAX, u32::MAX)));
    assert!(!most.exceeds(&Threshold::new(1, 1)));
    assert!(most.exceeds(&Threshold::new(u32::MAX as i32 - 1, u32::MAX)));
    let close = Similarity::new(u64::MAX, 1, 0);
    assert!(!close.exceeds(&Threshold::new(1, 1)));
    assert!(close.exceeds(&Threshold::new(999_999_999, 1_000_000_000)));
    let even = Similarity::new(u64::MAX, u64::MAX, u64::MAX);
    assert!(!even.exceeds(&Threshold::new(1, 2)));
    assert!(even.exceeds(&Threshold::new(499_999_999, 1_000_000_000)));
    assert!(!even.exceeds(&Threshold::new(500_000_001, 1_000_000_000)));
    let nine_of_twenty = Similarity::new(9, 3, 7);
    assert!(nine_of_twenty.exceeds(&Threshold::new(649, 1000)));
    assert!(!nine_of_twenty.exceeds(&Threshold::new(650, 1000)));
}
