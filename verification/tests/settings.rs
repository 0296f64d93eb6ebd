use sfl_service::analysis_service::{AnalysisService, AnalysisServiceTrait};
use sfl_service::models::analysis_result::AnalysisResult;
use sfl_service::models::coverage_matrix::CoverageMatrix;
use sfl_service::models::model::{
    State, StateAttribute, Sts, TestModel, Transition, TransitionAttribute,
};
use sfl_service::models::test_case::{Label, ParamValue, Step, TestCase, TestResult, Timestamp};
use sfl_service::settings::{
    look_up, narrow, parse_bool, parse_i32, Analysis, Setting, Settings, Threshold,
};
use sfl_service::similarity::Similarity;
use sfl_service::storage_service::StorageService;

fn text(value: &str) -> ParamValue {
    ParamValue::Text(String::from(value))
}

fn number(value: &str) -> ParamValue {
    ParamValue::Number(String::from(value))
}

fn entry(name: &str, value: ParamValue) -> (String, ParamValue) {
    (String::from(name), value)
}

#[test]
fn the_default_settings() {
    let analysis = Analysis::default();
    assert_eq!(analysis.similarity_threshold, Threshold::new(3, 4));
    assert_eq!(analysis.progress_endpoint, "http://localhost/analyse/train/progress");
    assert!(!analysis.use_thread_for_progress);
    assert!(!analysis.use_thread_for_training);
    assert_eq!(analysis.number_of_pairs_to_include_for_order, 0);
    assert!(!analysis.use_steps_instead_of_transitions_for_analysis);
    assert!(!analysis.use_transition_data);
    assert!(!analysis.return_highest_similarity_if_nothing_found);

    let settings = Settings::unwrap(Err(config::ConfigError::NotFound(String::from("Settings.toml"))));
    assert!(!settings.debug);
    assert_eq!(settings.analysis.similarity_threshold, Threshold::new(3, 4));
    let mut loaded = Settings::unwrap(Err(config::ConfigError::Message(String::from("nothing to load"))));
    loaded.debug = true;
    loaded.analysis.set_use_thread_for_training(true);
    loaded.analysis.set_progress_endpoint(String::from("http://h/p"));
    loaded.analysis.set_similarity_threshold(Threshold::new(1, 2));
    let kept = Settings::unwrap(Ok(loaded.clone()));
    assert!(kept.debug);
    assert!(kept.analysis.use_thread_for_training);
    assert_eq!(kept.analysis.progress_endpoint, "http://h/p");
    assert_eq!(kept.analysis.similarity_threshold, Threshold::new(1, 2));
}

#[test]
fn a_map_sets_what_it_names() {
    let mut analysis = Analysis::default();
    let failed = analysis.parse_from_map(&vec![
        entry("progress_endpoint", text("http://elsewhere/progress")),
        entry("use_thread_for_training", ParamValue::Bool(true)),
        entry("use_steps_instead_of_transitions_for_analysis", text("true")),
        entry("use_transition_data", text("true")),
        entry("number_of_pairs_to_include_for_order", number("2")),
        entry("return_highest_similarity_if_nothing_found", ParamValue::Bool(true)),
        entry("use_thread_for_progress", ParamValue::Bool(true)),
        entry("something_else", ParamValue::Absent),
    ]);
    assert_eq!(failed, vec![]);
    assert_eq!(analysis.progress_endpoint, "http://elsewhere/progress");
    assert!(analysis.use_thread_for_training);
    assert!(analysis.use_steps_instead_of_transitions_for_analysis);
    assert!(analysis.use_transition_data);
    assert_eq!(analysis.number_of_pairs_to_include_for_order, 2);
    assert!(analysis.return_highest_similarity_if_nothing_found);
    assert!(!analysis.use_thread_for_progress);
    assert_eq!(analysis.similarity_threshold, Threshold::new(3, 4));

    let again = analysis.parse_from_map(&vec![entry("use_transition_data", text("false")), entry("number_of_pairs_to_include_for_order", text("-3"))]);
    assert_eq!(again, vec![]);
    assert!(!analysis.use_transition_data);
    assert_eq!(analysis.number_of_pairs_to_include_for_order, -3);
    assert!(analysis.use_thread_for_training);
}

#[test]
fn a_value_that_cannot_be_read_leaves_its_setting() {
    let mut analysis = Analysis::default();
    analysis.number_of_pairs_to_include_for_order = 4;
    analysis.use_transition_data = true;
    let failed = analysis.parse_from_map(&vec![
        entry("return_highest_similarity_if_nothing_found", text("yes")),
        entry("number_of_pairs_to_include_for_order", number("1.5")),
        entry("use_transition_data", number("0")),
        entry("use_thread_for_training", ParamValue::Absent),
        entry("progress_endpoint", ParamValue::Bool(true)),
        entry("use_steps_instead_of_transitions_for_analysis", text("TRUE")),
    ]);
    assert_eq!(
        failed,
        vec![
            Setting::ProgressEndpoint,
            Setting::UseThreadForTraining,
            Setting::UseStepsInsteadOfTransitionsForAnalysis,
            Setting::UseTransitionData,
            Setting::NumberOfPairsToIncludeForOrder,
            Setting::ReturnHighestSimilarityIfNothingFound,
        ]
    );
    assert_eq!(analysis.number_of_pairs_to_include_for_order, 4);
    assert!(analysis.use_transition_data);
    assert_eq!(analysis.progress_endpoint, "http://localhost/analyse/train/progress");
    assert!(!analysis.use_thread_for_training);

    let first_wins = analysis.parse_from_map(&vec![entry("number_of_pairs_to_include_for_order", text("x")), entry("number_of_pairs_to_include_for_order", number("1"))]);
    assert_eq!(first_wins, vec![Setting::NumberOfPairsToIncludeForOrder]);
    assert_eq!(analysis.number_of_pairs_to_include_for_order, 4);
}

#[test]
fn values_are_read_as_flags_and_counts() {
    assert_eq!(parse_bool(&ParamValue::Bool(false)), Some(false));
    assert_eq!(parse_bool(&text("true")), Some(true));
    assert_eq!(parse_bool(&text("false")), Some(false));
    assert_eq!(parse_bool(&text(" true")), None);
    assert_eq!(parse_bool(&number("1")), None);
    assert_eq!(parse_bool(&ParamValue::Absent), None);
    assert_eq!(parse_i32(&number("17")), Some(17));
    assert_eq!(parse_i32(&text("+17")), Some(17));
    assert_eq!(parse_i32(&text("-2147483648")), Some(i32::MIN));
    assert_eq!(parse_i32(&number("2147483647")), Some(i32::MAX));
    assert_eq!(parse_i32(&number("2147483648")), None);
    assert_eq!(parse_i32(&text("-2147483649")), None);
    assert_eq!(parse_i32(&number("99999999999999999999")), None);
    assert_eq!(parse_i32(&text("")), None);
    assert_eq!(parse_i32(&text("1 ")), None);
    assert_eq!(parse_i32(&number("1e3")), None);
    assert_eq!(parse_i32(&ParamValue::Bool(true)), None);
    assert_eq!(parse_i32(&ParamValue::Absent), None);
    let map = vec![entry("a", text("1")), entry("b", text("2")), entry("a", text("3"))];
    assert_eq!(look_up(&map, "a"), Some(&text("1")));
    assert_eq!(look_up(&map, "b"), Some(&text("2")));
    assert_eq!(look_up(&map, "c"), None);
}

#[test]
fn labels_with_transition_data_are_seen_by_the_engine() {
    let states = vec![State::new(String::from("0"), StateAttribute::new(String::from("0"), String::from("integer"), None)), State::new(String::from("1"), StateAttribute::new(String::from("1"), String::from("integer"), None))];
    let t = Transition::new(String::from("0"), String::from("1"), TransitionAttribute::new(String::from("?a if x"), None, Some(true)));
    assert_eq!(t.to_string(false), "0--?a-->1");
    assert_eq!(t.to_string(true), "0--?a if x-->1");
    let tau = Transition::new(String::from("7"), String::from("4"), TransitionAttribute::new(String::from(" \t\n"), None, None));
    assert_eq!(tau.to_string(false), "7--UNKNOWN TRANSITION LABEL-->4");
    assert_eq!(tau.to_string(true), "7-- \t\n-->4");
    let wide = Transition::new(String::from("7"), String::from("4"), TransitionAttribute::new(String::from("\u{3000}\u{a0}!go\u{2003}now"), None, None));
    assert_eq!(wide.to_string(false), "7--!go-->4");

    let graph = |transitions: Vec<Transition>| Sts::new(String::from("g"), states.clone(), vec![], vec![], transitions, vec![], None, None, None);
    let mut storage = StorageService::new();
    storage.set_model(Some(TestModel::new(1, vec![graph(vec![t.clone()])], None)));
    storage.set_coverage_informations(vec![TestModel::new(1, vec![graph(vec![t.clone()])], Some(1))]);
    let mut analysis = Analysis::default();
    let service = AnalysisService {};
    service.train(&mut storage, &analysis).unwrap();
    assert_eq!(storage.coverage_matrix.as_ref().unwrap().keys(), &vec![String::from("0--?a-->1")]);
    analysis.parse_from_map(&vec![entry("use_transition_data", ParamValue::Bool(true))]);
    service.train(&mut storage, &analysis).unwrap();
    assert_eq!(storage.coverage_matrix.as_ref().unwrap().keys(), &vec![String::from("0--?a if x-->1")]);
}

struct Fixed {
    next_result: Option<AnalysisResult>,
}

impl AnalysisServiceTrait for Fixed {
    fn train(&self, _storage: &mut StorageService, _settings: &Analysis) -> Result<(), String> {
        Ok(())
    }

    fn analyse(&self, _testcase: TestCase, _storage: &StorageService, _settings: &Analysis) -> Option<AnalysisResult> {
        self.next_result.clone()
    }

    fn similarity_coefficient(&self, _step_j: &str, _coverage_matrix: &CoverageMatrix) -> Similarity {
        Similarity::new(0, 0, 0)
    }
}

fn analyse_with(service: &dyn AnalysisServiceTrait, testcase: TestCase) -> Option<AnalysisResult> {
    service.analyse(testcase, &StorageService::new(), &Analysis::default())
}

#[test]
fn another_engine_can_stand_in() {
    let test_testcase = TestCase::new(
        Some(1),
        Some(TestResult::passed),
        None,
        vec![Step::new(Label::new(String::new(), String::new(), None), Timestamp::new(0, 0), None, 0, None, None, None, None)],
        1,
        None,
        None,
    );
    let expected_result = AnalysisResult::new(
        "group".to_string(),
        Some(State::new("state 1".to_string(), StateAttribute::new("some label".to_string(), "string".to_string(), None))),
        Some(Transition::new("state 1".to_string(), "state 1".to_string(), TransitionAttribute::new("transition 1".to_string(), None, None))),
        None,
    );
    let stand_in = Fixed { next_result: Some(expected_result.clone()) };
    assert_eq!(analyse_with(&stand_in, test_testcase.clone()).unwrap(), expected_result);
    assert_eq!(analyse_with(&AnalysisService {}, test_testcase).unwrap(), AnalysisResult::new("Correct".to_string(), None, None, None));
    let mut storage = StorageService::new();
    assert_eq!(stand_in.train(&mut storage, &Analysis::default()), Ok(()));
    assert!(AnalysisServiceTrait::train(&AnalysisService {}, &mut storage, &Analysis::default()).is_err());
}

#[test]
fn the_store_keeps_what_it_is_given_and_forgets_on_reset() {
    let test_model = TestModel::new(9, vec![Sts::new(String::new(), vec![], vec![], vec![], vec![], vec![], Some(String::new()), Some(String::new()), None)], None);
    let passing_test = TestCase::new(Some(1), Some(TestResult::passed), None, vec![], 0, None, None);
    let failing_test = TestCase::new(Some(2), Some(TestResult::failed), Some("This is a test fail".to_string()), vec![], 0, None, None);

    let mut storage = StorageService::new();
    assert!(storage.model.is_none());
    storage.set_model(Some(test_model.clone()));
    storage.set_passing_tests(vec![passing_test.clone()]);
    storage.set_failing_tests(vec![failing_test.clone()]);
    storage.set_coverage_informations(vec![test_model.clone()]);
    storage.set_coverage_matrix(CoverageMatrix::new(vec![true], vec![2], vec![]));
    assert_eq!(storage.model.as_ref().unwrap().test_run_id, 9);
    assert!(storage.passing.contains(&passing_test));
    assert!(storage.failing.contains(&failing_test));

    storage.reset();

    assert!(storage.model.is_none());
    assert_eq!(storage.passing.len(), 0);
    assert_eq!(storage.failing.len(), 0);
    assert_eq!(storage.coverage_information.len(), 1);
    assert_eq!(storage.coverage_matrix.as_ref().unwrap().test_id_vector(), &vec![2]);
}

#[test]
fn a_parsed_integer_is_kept_where_it_lies_within_32_bits() {
    assert_eq!(narrow(None), None);
    assert_eq!(narrow(Some(0)), Some(0));
    assert_eq!(narrow(Some(-7)), Some(-7));
    assert_eq!(narrow(Some(2147483647)), Some(i32::MAX));
    assert_eq!(narrow(Some(2147483648)), None);
    assert_eq!(narrow(Some(-2147483648)), Some(i32::MIN));
    assert_eq!(narrow(Some(-2147483649)), None);
    assert_eq!(narrow(Some(4294967301)), None);
    assert_eq!(narrow(Some(i64::MAX)), None);
    assert_eq!(narrow(Some(i64::MIN)), None);
}
