use sfl_service::models::coverage_matrix::CoverageMatrix;
use sfl_service::models::model::{Sts, TestModel, TraceProperties, Transition, TransitionAttribute};
use sfl_service::models::test_case::{Label, Step, TestCase, TestResult, Timestamp};

fn transition(source: &str, target: &str, label: &str, covered: Option<bool>) -> Transition {
    Transition::new(String::from(source), String::from(target), TransitionAttribute::new(String::from(label), None, covered))
}

fn graph(transitions: Vec<Transition>, passed: Option<Option<bool>>) -> Sts {
    Sts::new(String::from("g"), vec![], vec![], vec![], transitions, vec![], None, None, passed.map(|p| TraceProperties::new(p)))
}

fn step(name: &str, direction: &str, number: i32) -> Step {
    Step::new(Label::new(String::from(name), String::from(direction), None), Timestamp::new(10, 0), None, number, None, None, None, None)
}

fn cells(table: &prettytable::Table) -> Vec<Vec<String>> {
    table.row_iter().map(|row| row.iter().map(|cell| cell.get_content()).collect()).collect()
}

#[test]
fn test_append() {
    let error_vector = vec![true, false, false];
    let test_id_vector = vec![1, 5, 3];

    let mut first_data = Vec::new();
    first_data.push(("a".to_string(), vec![true, false, true]));
    let first = CoverageMatrix::new(error_vector.clone(), test_id_vector.clone(), first_data);

    let mut second_data = Vec::new();
    second_data.push(("b".to_string(), vec![true, false, false]));
    second_data.push(("c".to_string(), vec![true, true, false]));

    let second = CoverageMatrix::new(error_vector.clone(), test_id_vector.clone(), second_data);

    let mut expected_data = Vec::new();
    expected_data.push(("a".to_string(), vec![true, false, true]));
    expected_data.push(("b".to_string(), vec![true, false, false]));
    expected_data.push(("c".to_string(), vec![true, true, false]));

    let expected = CoverageMatrix::new(error_vector, test_id_vector, expected_data);

    first.to_coverage_table().printstd();
    expected.to_coverage_table().printstd();

    assert_eq!(expected, first.append(second).unwrap());
}

#[test]
fn a_merge_fails_where_the_numbers_of_runs_differ() {
    let two = CoverageMatrix::new(vec![true, false], vec![1, 2], vec![("a".to_string(), vec![true, false])]);
    let three = CoverageMatrix::new(vec![true, false, true], vec![1, 2, 3], vec![("b".to_string(), vec![true, false, true])]);
    assert_eq!(two.append(three.clone()), Err("number_of_tests was not equal for both coverage matrices".to_string()));
    assert_eq!(three.append(two.clone()), Err("number_of_tests was not equal for both coverage matrices".to_string()));
    let none = CoverageMatrix::new(vec![], vec![], vec![]);
    assert!(two.append(none.clone()).is_err());
    assert_eq!(none.append(none.clone()), Ok(none));
}

#[test]
fn a_merge_takes_the_right_column_and_the_left_runs() {
    let left = CoverageMatrix::new(vec![true, false], vec![1, 2], vec![("a".to_string(), vec![true, false]), ("b".to_string(), vec![false, false])]);
    let right = CoverageMatrix::new(vec![false, false], vec![8, 9], vec![("b".to_string(), vec![true, true]), ("c".to_string(), vec![false, true])]);
    let merged = left.append(right.clone()).unwrap();
    assert_eq!(merged.error_vector(), &vec![true, false]);
    assert_eq!(merged.test_id_vector(), &vec![1, 2]);
    assert_eq!(merged.keys(), &vec!["a".to_string(), "b".to_string(), "c".to_string()]);
    assert_eq!(merged.column("a"), Some(&vec![true, false]));
    assert_eq!(merged.column("b"), Some(&vec![true, true]));
    assert_eq!(merged.column("c"), Some(&vec![false, true]));
    assert_eq!(merged.column("d"), None);
    assert_eq!(merged.number_of_tests(), 2);
    assert_eq!(merged.number_of_steps(), 3);

    let other = right.append(left).unwrap();
    assert_eq!(other.column("b"), Some(&vec![false, false]));
    assert_eq!(other.test_id_vector(), &vec![8, 9]);
    let mut keys = other.keys().clone();
    keys.sort();
    assert_eq!(keys, vec!["a".to_string(), "b".to_string(), "c".to_string()]);
}

#[test]
fn merging_is_associative_and_commutative_on_the_columns() {
    let errors = vec![true, false];
    let ids = vec![1, 2];
    let a = CoverageMatrix::new(errors.clone(), ids.clone(), vec![("a".to_string(), vec![true, false]), ("x".to_string(), vec![true, true])]);
    let b = CoverageMatrix::new(errors.clone(), ids.clone(), vec![("b".to_string(), vec![false, false]), ("x".to_string(), vec![true, true])]);
    let c = CoverageMatrix::new(errors.clone(), ids.clone(), vec![("c".to_string(), vec![false, true]), ("a".to_string(), vec![true, false])]);
    let left = a.append(b.clone()).unwrap().append(c.clone()).unwrap();
    let right = a.append(b.append(c.clone()).unwrap()).unwrap();
    assert_eq!(left, right);
    assert_eq!(a.append(b.clone()).unwrap(), b.append(a.clone()).unwrap());
    assert_eq!(a.append(c.clone()).unwrap(), c.append(a).unwrap());
}

#[test]
fn matrices_are_equal_whatever_the_order_of_their_columns() {
    let one = CoverageMatrix::new(vec![true], vec![1], vec![("a".to_string(), vec![true]), ("b".to_string(), vec![false])]);
    let two = CoverageMatrix::new(vec![true], vec![1], vec![("b".to_string(), vec![false]), ("a".to_string(), vec![true])]);
    assert_eq!(one, two);
    assert_eq!(one, one.clone());
    assert_ne!(one, CoverageMatrix::new(vec![true], vec![1], vec![("a".to_string(), vec![true]), ("b".to_string(), vec![true])]));
    assert_ne!(one, CoverageMatrix::new(vec![true], vec![1], vec![("a".to_string(), vec![true])]));
    assert_ne!(one, CoverageMatrix::new(vec![false], vec![1], vec![("a".to_string(), vec![true]), ("b".to_string(), vec![false])]));
    assert_ne!(one, CoverageMatrix::new(vec![true], vec![2], vec![("a".to_string(), vec![true]), ("b".to_string(), vec![false])]));
}

#[test]
fn parts_are_accepted_where_they_fit() {
    assert!(CoverageMatrix::accepts(&vec![true, false], &vec![1, 2], &vec![("a".to_string(), vec![true, false])]));
    assert!(CoverageMatrix::accepts(&vec![], &vec![], &vec![]));
    assert!(!CoverageMatrix::accepts(&vec![true, false], &vec![1], &vec![("a".to_string(), vec![true, false])]));
    assert!(!CoverageMatrix::accepts(&vec![true, false], &vec![1, 2], &vec![("a".to_string(), vec![true])]));
    assert!(!CoverageMatrix::accepts(&vec![true], &vec![1], &vec![("a".to_string(), vec![true]), ("a".to_string(), vec![true])]));
}

#[test]
fn the_matrix_of_coverage_runs_has_a_column_for_each_transition() {
    let runs = vec![
        TestModel::new(1, vec![graph(vec![transition("0", "1", "?a x", Some(true)), transition("1", "2", "!b", Some(false)), transition("0", "1", "?a y", Some(false))], Some(Some(true)))], Some(11)),
        TestModel::new(1, vec![graph(vec![transition("0", "1", "?a x", None)], None), graph(vec![transition("1", "2", "!b", Some(true)), transition("2", "3", "", Some(true))], Some(Some(false)))], None),
        TestModel::new(1, vec![graph(vec![], Some(None)), graph(vec![transition("1", "2", "!b", Some(true))], Some(Some(true)))], Some(13)),
    ];
    let matrix = CoverageMatrix::from_model(&runs, None, false);
    assert_eq!(matrix.error_vector(), &vec![false, true, false]);
    assert_eq!(matrix.test_id_vector(), &vec![11, -1, 13]);
    assert_eq!(matrix.keys(), &vec!["0--?a-->1".to_string(), "1--!b-->2".to_string(), "2--UNKNOWN TRANSITION LABEL-->3".to_string()]);
    assert_eq!(matrix.column("0--?a-->1"), Some(&vec![true, false, false]));
    assert_eq!(matrix.column("1--!b-->2"), Some(&vec![false, true, true]));
    assert_eq!(matrix.column("2--UNKNOWN TRANSITION LABEL-->3"), Some(&vec![false, true, false]));

    let with_data = CoverageMatrix::from_model(&runs, None, true);
    assert_eq!(with_data.keys(), &vec!["0--?a x-->1".to_string(), "1--!b-->2".to_string(), "0--?a y-->1".to_string(), "2---->3".to_string()]);
    assert_eq!(with_data.column("0--?a y-->1"), Some(&vec![false, false, false]));
    assert_eq!(with_data.column("0--?a x-->1"), Some(&vec![true, false, false]));
}

#[test]
fn the_matrix_of_windows_has_a_column_for_each_window_key() {
    let a = transition("0", "1", "?a", None);
    let b = transition("1", "2", "!b", None);
    let c = transition("2", "3", "!c", None);
    let runs = vec![
        TestModel::new(1, vec![graph(vec![a.clone_and_update(|it| it.attributes.covered = Some(true)), b.clone_and_update(|it| it.attributes.covered = Some(true))], Some(Some(true)))], Some(1)),
        TestModel::new(1, vec![graph(vec![a.clone_and_update(|it| it.attributes.covered = Some(true)), b.clone_and_update(|it| it.attributes.covered = Some(false))], Some(Some(false)))], Some(2)),
        TestModel::new(1, vec![graph(vec![c.clone_and_update(|it| it.attributes.covered = None)], None)], Some(3)),
    ];
    let windows = vec![vec![a.clone(), b.clone()], vec![b.clone(), c.clone()], vec![a.clone(), b.clone()], vec![], vec![a.clone()]];
    let matrix = CoverageMatrix::from_model(&runs, Some(&windows), false);
    assert_eq!(matrix.keys(), &vec!["0--?a-->1 1--!b-->2".to_string(), "1--!b-->2 2--!c-->3".to_string(), "".to_string(), "0--?a-->1".to_string()]);
    assert_eq!(matrix.column("0--?a-->1 1--!b-->2"), Some(&vec![true, false, true]));
    assert_eq!(matrix.column("1--!b-->2 2--!c-->3"), Some(&vec![true, false, false]));
    assert_eq!(matrix.column(""), Some(&vec![true, true, true]));
    assert_eq!(matrix.column("0--?a-->1"), Some(&vec![true, true, true]));
    assert_eq!(matrix.error_vector(), &vec![false, true, false]);
    assert_eq!(matrix.test_id_vector(), &vec![1, 2, 3]);

    let nothing: Vec<Vec<Transition>> = vec![];
    let empty = CoverageMatrix::from_model(&runs, Some(&nothing), false);
    assert_eq!(empty.number_of_steps(), 0);
    assert_eq!(empty.number_of_tests(), 3);
    let single = CoverageMatrix::from_model(&runs, None, false);
    assert_eq!(single.append(empty).unwrap(), single);
}

#[test]
fn the_matrix_of_traces_has_a_column_for_each_label() {
    let cases = vec![
        TestCase::new(Some(1), Some(TestResult::passed), None, vec![step("a", "in", 0), step("b", "out", 1)], 1, None, None),
        TestCase::new(None, Some(TestResult::failed), None, vec![step("b", "out", 0), step("c", "out", 1), step("b", "out", 2)], 2, None, None),
        TestCase::new(Some(3), None, None, vec![], 0, None, None),
        TestCase::new(Some(4), Some(TestResult::unknown), None, vec![step("a", "in", 0)], 0, None, None),
        TestCase::new(Some(5), Some(TestResult::error), None, vec![step("a", "in", 0)], 0, None, None),
    ];
    let matrix = CoverageMatrix::from_traces(&cases, None, false);
    assert_eq!(matrix.error_vector(), &vec![false, true, true, true, true]);
    assert_eq!(matrix.test_id_vector(), &vec![1, -1, 3, 4, 5]);
    assert_eq!(matrix.keys(), &vec!["?a".to_string(), "!b".to_string(), "!c".to_string()]);
    assert_eq!(matrix.column("?a"), Some(&vec![true, false, false, true, true]));
    assert_eq!(matrix.column("!b"), Some(&vec![true, true, false, false, false]));
    assert_eq!(matrix.column("!c"), Some(&vec![false, true, false, false, false]));
}

#[test]
fn the_matrix_of_step_windows_looks_at_membership_only() {
    let a = step("a", "in", 0);
    let b = step("b", "out", 1);
    let c = step("c", "out", 2);
    let cases = vec![
        TestCase::new(Some(1), Some(TestResult::passed), None, vec![a.clone(), b.clone(), c.clone()], 1, None, None),
        TestCase::new(Some(2), Some(TestResult::failed), None, vec![c.clone(), a.clone()], 2, None, None),
    ];
    let late_b = step("b", "out", 7);
    let windows = vec![vec![c.clone(), a.clone()], vec![a.clone(), b.clone()], vec![a.clone(), late_b], vec![]];
    let matrix = CoverageMatrix::from_traces(&cases, Some(&windows), false);
    assert_eq!(matrix.keys(), &vec!["!c -> ?a".to_string(), "?a -> !b".to_string(), "".to_string()]);
    assert_eq!(matrix.column("!c -> ?a"), Some(&vec![true, true]));
    assert_eq!(matrix.column("?a -> !b"), Some(&vec![true, false]));
    assert_eq!(matrix.column(""), Some(&vec![true, true]));
    assert_eq!(matrix.error_vector(), &vec![false, true]);
    assert_eq!(matrix.test_id_vector(), &vec![1, 2]);
}

#[test]
fn the_table_has_a_heading_and_a_row_for_each_run() {
    let matrix = CoverageMatrix::new(vec![true, false], vec![7, -1], vec![("0--?a-->1".to_string(), vec![true, false]), ("say \"x\"".to_string(), vec![false, false])]);
    let table = matrix.to_coverage_table();
    assert_eq!(
        cells(&table),
        vec![
            vec!["id".to_string(), "\"0--?a-->1\"".to_string(), "\"say \\\"x\\\"\"".to_string(), "errored?".to_string()],
            vec!["T7".to_string(), "true".to_string(), "false".to_string(), "true".to_string()],
            vec!["T-1".to_string(), "false".to_string(), "false".to_string(), "false".to_string()],
        ]
    );
    let empty = CoverageMatrix::new(vec![], vec![], vec![]);
    assert_eq!(cells(&empty.to_coverage_table()), vec![vec!["id".to_string(), "errored?".to_string()]]);
}

#[test]
fn a_key_with_control_characters_is_shown_escaped() {
    let key = "\u{1b}[\u{644}\u{627}\u{644}\u{627}\tm".to_string();
    let matrix = CoverageMatrix::new(vec![false], vec![i64::MIN], vec![(key, vec![true])]);
    let shown = cells(&matrix.to_coverage_table());
    assert_eq!(shown[0][1], "\"\\u{1b}[\u{644}\u{627}\u{644}\u{627}\\tm\"");
    assert!(!shown[0][1].contains('\u{1b}'));
    assert_eq!(shown[1], vec!["T-9223372036854775808".to_string(), "true".to_string(), "false".to_string()]);
}
