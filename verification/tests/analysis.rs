use sfl_service::analysis_service::AnalysisService;
use sfl_service::models::analysis_result::AnalysisResult;
use sfl_service::models::model::{
    State, StateAttribute, Sts, TestModel, TraceProperties, Transition, TransitionAttribute,
};
use sfl_service::models::test_case::{Label, Step, TestCase, TestResult, Timestamp};
use sfl_service::settings::{Analysis, Threshold};
use sfl_service::storage_service::StorageService;
use std::time::{SystemTime, UNIX_EPOCH};
use uuid::Uuid;

fn now() -> Timestamp {
    let since = SystemTime::now().duration_since(UNIX_EPOCH).unwrap();
    Timestamp::new(since.as_secs() as i64, since.subsec_nanos())
}

fn state(id: &str) -> State {
    State::new(String::from(id), StateAttribute::new(String::from(id), String::from("integer"), None))
}

fn transition(source: &str, target: &str, label: &str) -> Transition {
    Transition::new(String::from(source), String::from(target), TransitionAttribute::new(String::from(label), None, None))
}

fn step(name: &str, direction: &str, number: i32) -> Step {
    Step::new(Label::new(String::from(name), String::from(direction), Some(String::from("default"))), now(), None, number, None, None, None, None)
}

fn settings(pairs: i32) -> Analysis {
    let mut analysis = Analysis::default();
    analysis.number_of_pairs_to_include_for_order = pairs;
    analysis
}

fn graph(states: &Vec<State>, transitions: Vec<Transition>, properties: Option<TraceProperties>) -> Sts {
    Sts::new(String::from("test model"), states.clone(), vec![], vec![states[0].to_start_state()], transitions, vec![], Some(states[0].id.clone()), Some(String::from("")), properties)
}

fn covered(transitions: &Vec<Transition>, flags: &[bool]) -> Vec<Transition> {
    transitions.iter().zip(flags.iter()).map(|(t, f)| t.clone_and_update(|it| it.attributes.covered = Some(*f))).collect()
}

#[test]
fn test_analyse_with_faulty_state() {
    //                 a? +-+ a!          c! +-+
    //               +--->+2+----+      +--->+5|
    //  +-+ init +-+ |    +-+    |  +-+ |    +-+
    //  |0+----->+1+-+           +->+4+-+
    //  +-+      +-+ | b? +-+ b! |  +-+ | d! +-+
    //               +--->+3+----+      +--->+6|
    //                    +-+                +-+
    //
    //  State 3 is wrongly implemented and should be returned. There is no faulty transition

    //Given
    let states: Vec<State> = vec![state("0"), state("1"), state("2"), state("3"), state("4"), state("5"), state("6")];

    let transition_init = transition("0", "1", "!init");
    let transition_a_in = transition("1", "2", "?a");
    let transition_b_in = transition("1", "3", "?b");
    let transition_a_out = transition("2", "4", "!a");
    let transition_b_out = transition("3", "4", "!b");
    let transition_c_out = transition("4", "5", "!c");
    let transition_d_out = transition("4", "6", "!d");
    let transitions = vec![transition_init.clone(), transition_a_in.clone(), transition_b_in.clone(), transition_a_out.clone(), transition_b_out.clone(), transition_c_out.clone(), transition_d_out.clone()];

    let run_id = Uuid::new_v4().as_u128();
    let model = TestModel::new(run_id, vec![graph(&states, transitions.clone(), None)], None);

    let step_init = step("init", "out", 0);
    let step_a_in = step("a", "in", 1);
    let step_b_in = step("b", "in", 1);
    let step_a_out = step("a", "out", 2);
    let step_b_out = step("b", "out", 2);
    let step_c_out = step("c", "out", 3);
    let step_d_out = step("d", "out", 3);

    let passing_test_one = TestCase::new(Some(1), Some(TestResult::passed), None, vec![step_init.clone(), step_a_in.clone(), step_a_out.clone(), step_c_out.clone()], 6, None, None);
    let passing_test_two = TestCase::new(Some(2), Some(TestResult::passed), None, vec![step_init.clone(), step_a_in, step_a_out, step_d_out.clone()], 6, None, None);
    let failing_test_one = TestCase::new(Some(3), Some(TestResult::failed), Some(String::from("There is a failure")), vec![step_init.clone(), step_b_in.clone(), step_b_out.clone(), step_c_out.clone()], 6, None, None);
    let failing_test_two = TestCase::new(Some(4), Some(TestResult::failed), Some(String::from("There is a failure")), vec![step_init.clone(), step_b_in.clone(), step_b_out.clone(), step_d_out], 6, None, None);

    let model_passing_test_one = TestModel::new(run_id, vec![graph(&states, covered(&transitions, &[true, true, false, true, false, true, false]), Some(TraceProperties::new(Some(true))))], Some(1));
    let model_passing_test_two = TestModel::new(run_id, vec![graph(&states, covered(&transitions, &[true, true, false, true, false, false, true]), Some(TraceProperties::new(Some(true))))], Some(2));
    let model_failing_test_one = TestModel::new(run_id, vec![graph(&states, covered(&transitions, &[true, false, true, false, true, true, false]), Some(TraceProperties::new(Some(false))))], Some(3));
    let model_failing_test_two = TestModel::new(run_id, vec![graph(&states, covered(&transitions, &[true, false, true, false, true, false, true]), Some(TraceProperties::new(Some(false))))], Some(4));

    let mut storage = StorageService::new();
    storage.set_model(Some(model));
    storage.set_passing_tests(vec![passing_test_one, passing_test_two]);
    storage.set_failing_tests(vec![failing_test_one, failing_test_two]);
    storage.set_coverage_informations(vec![model_passing_test_one, model_passing_test_two, model_failing_test_one, model_failing_test_two]);

    //When
    let analysis = settings(0);
    let service = AnalysisService {};
    let test_testcase = TestCase::new(Some(3), Some(TestResult::failed), Some(String::from("There is a failure")), vec![step_init.clone(), step_b_in.clone(), step_b_out.clone(), step_c_out.clone()], 6, None, None);
    service.train(&mut storage, &analysis).unwrap();
    let analysis_result = service.analyse(test_testcase, &storage, &analysis);

    //Then
    assert_eq!(analysis_result.unwrap(), AnalysisResult::new(String::from("State 3"), Some(State::new(String::from("3"), StateAttribute::new(String::from("3"), String::from("integer"), None))), None, Some(vec![step_b_in.clone(), step_b_out.clone()])));
}

#[test]
fn test_analyse_with_faulty_transition() {
    //  Transition b? is wrongly implemented (as it goes to state 2, instead of state 3) and should be returned. There is no faulty state

    //Given
    let states: Vec<State> = vec![state("0"), state("1"), state("2"), state("3"), state("4"), state("5"), state("6")];

    let transition_init = transition("0", "1", "!init");
    let transition_a_in = transition("1", "2", "?a");
    let transition_b_in = transition("1", "3", "?b");
    let transition_a_out = transition("2", "4", "!a");
    let transition_b_out = transition("3", "4", "!b");
    let transition_c_out = transition("4", "5", "!c");
    let transition_d_out = transition("4", "6", "!d");
    let transitions = vec![transition_init.clone(), transition_a_in.clone(), transition_b_in.clone(), transition_a_out.clone(), transition_b_out.clone(), transition_c_out.clone(), transition_d_out.clone()];

    let step_init = step("init", "out", 0);
    let step_a_in = step("a", "in", 1);
    let step_b_in = step("b", "in", 2);
    let step_a_out = step("a", "out", 3);
    let _step_b_out = step("b", "out", 4);
    let step_c_out = step("c", "out", 5);
    let step_d_out = step("d", "out", 6);

    let passing_test_one = TestCase::new(Some(1), Some(TestResult::passed), None, vec![step_init.clone(), step_a_in.clone(), step_a_out.clone(), step_c_out.clone()], 6, None, None);
    let passing_test_two = TestCase::new(Some(2), Some(TestResult::passed), None, vec![step_init.clone(), step_a_in, step_a_out.clone(), step_d_out.clone()], 6, None, None);
    let failing_test_one = TestCase::new(Some(3), Some(TestResult::failed), Some(String::from("There is a failure")), vec![step_init.clone(), step_b_in.clone(), step_a_out.clone(), step_c_out.clone()], 6, None, None);
    let failing_test_two = TestCase::new(Some(4), Some(TestResult::failed), Some(String::from("There is a failure")), vec![step_init.clone(), step_b_in.clone(), step_a_out.clone(), step_d_out], 6, None, None);

    let run_id = Uuid::new_v4().as_u128();
    let model = TestModel::new(run_id, vec![graph(&states, transitions.clone(), None)], None);
    let model_passing_test_one = TestModel::new(run_id, vec![graph(&states, covered(&transitions, &[true, true, false, true, false, true, false]), Some(TraceProperties::new(Some(true))))], Some(1));
    let model_passing_test_two = TestModel::new(run_id, vec![graph(&states, covered(&transitions, &[true, true, false, true, false, false, true]), Some(TraceProperties::new(Some(true))))], Some(2));
    let model_failing_test_one = TestModel::new(run_id, vec![graph(&states, covered(&transitions, &[true, false, true, false, false, true, false]), Some(TraceProperties::new(Some(false))))], Some(3));
    let model_failing_test_two = TestModel::new(run_id, vec![graph(&states, covered(&transitions, &[true, false, true, false, false, false, true]), Some(TraceProperties::new(Some(false))))], Some(4));

    let mut storage = StorageService::new();
    storage.set_model(Some(model));
    storage.set_passing_tests(vec![passing_test_one, passing_test_two]);
    storage.set_failing_tests(vec![failing_test_one, failing_test_two]);
    storage.set_coverage_informations(vec![model_passing_test_one, model_passing_test_two, model_failing_test_one, model_failing_test_two]);

    //When
    let analysis = settings(0);
    let service = AnalysisService {};
    let test_testcase = TestCase::new(Some(3), Some(TestResult::failed), Some(String::from("There is a failure")), vec![step_init.clone(), step_b_in.clone(), step_a_out.clone(), step_c_out.clone()], 6, None, None);
    service.train(&mut storage, &analysis).unwrap();
    let analysis_result = service.analyse(test_testcase, &storage, &analysis);

    //Then
    assert_eq!(analysis_result.unwrap(), AnalysisResult::new(String::from("Transition ?b"), None, Some(transition_b_in), Some(vec![step_b_in.clone()])))
}

#[test]
fn test_analyse_with_only_passing_tests() {
    //Given
    let step_init = step("init", "out", 0);
    let step_a_in = step("a", "in", 1);
    let step_b_in = step("b", "in", 2);
    let step_a_out = step("a", "out", 3);
    let step_b_out = step("b", "out", 4);
    let step_c_out = step("c", "out", 5);
    let step_d_out = step("d", "out", 6);

    let passing_test_one = TestCase::new(Some(1), Some(TestResult::passed), None, vec![step_init.clone(), step_a_in.clone(), step_a_out.clone(), step_c_out.clone()], 6, None, None);
    let passing_test_two = TestCase::new(Some(2), Some(TestResult::passed), None, vec![step_init.clone(), step_a_in, step_a_out, step_d_out.clone()], 6, None, None);
    let failing_test_one = TestCase::new(Some(3), Some(TestResult::passed), None, vec![step_init.clone(), step_b_in.clone(), step_b_out.clone(), step_c_out.clone()], 6, None, None);
    let failing_test_two = TestCase::new(Some(4), Some(TestResult::passed), None, vec![step_init.clone(), step_b_in.clone(), step_b_out.clone(), step_d_out], 6, None, None);

    let states: Vec<State> = vec![state("0"), state("1"), state("2"), state("3"), state("4"), state("5"), state("6")];

    let transitions = vec![transition("0", "1", "!init"), transition("1", "2", "?a"), transition("1", "3", "?b"), transition("2", "4", "!a"), transition("3", "4", "!b"), transition("4", "5", "!c"), transition("4", "6", "!d")];

    let model = TestModel::new(Uuid::new_v4().as_u128(), vec![graph(&states, transitions, None)], None);
    let mut storage = StorageService::new();
    storage.set_model(Some(model));
    storage.set_passing_tests(vec![passing_test_one, passing_test_two, failing_test_one, failing_test_two]);
    storage.set_failing_tests(vec![]);
    storage.set_coverage_informations(vec![]);

    //When
    let analysis = settings(0);
    let service = AnalysisService {};
    let test_testcase = TestCase::new(Some(3), Some(TestResult::failed), Some(String::from("There is a failure")), vec![step_init.clone(), step_b_in.clone(), step_b_out.clone(), step_c_out.clone()], 6, None, None);
    service.train(&mut storage, &analysis).unwrap();
    let analysis_result = service.analyse(test_testcase, &storage, &analysis);

    //Then
    assert_eq!(analysis_result.unwrap(), AnalysisResult::new(String::from("No problematic steps found"), None, None, None));
}

#[test]
fn test_analyse_with_failure_based_on_order() {
    //  Transition d! is wrongly implemented if the transition a! is taken and should be returned.

    //Given
    let states: Vec<State> = vec![state("0"), state("1"), state("2"), state("3"), state("4"), state("5"), state("6")];

    let transitions = vec![transition("0", "1", "!init"), transition("1", "2", "?a"), transition("1", "3", "?b"), transition("2", "4", "!a"), transition("3", "4", "!b"), transition("4", "5", "!c"), transition("4", "6", "!d")];

    let run_id = Uuid::new_v4().as_u128();
    let model = TestModel::new(run_id, vec![graph(&states, transitions.clone(), None)], None);

    let step_init = step("init", "out", 0);
    let step_a_in = step("a", "in", 1);
    let step_b_in = step("b", "in", 1);
    let step_a_out = step("a", "out", 2);
    let step_b_out = step("b", "out", 2);
    let step_c_out = step("c", "out", 3);
    let step_d_out = step("d", "out", 3);

    let passing_test_one = TestCase::new(Some(1), Some(TestResult::passed), None, vec![step_init.clone(), step_a_in.clone(), step_a_out.clone(), step_c_out.clone()], 6, None, None);
    let passing_test_two = TestCase::new(Some(2), Some(TestResult::passed), None, vec![step_init.clone(), step_b_in.clone(), step_b_out.clone(), step_c_out.clone()], 6, None, None);
    let passing_test_three = TestCase::new(Some(3), Some(TestResult::passed), None, vec![step_init.clone(), step_b_in.clone(), step_b_out.clone(), step_d_out.clone()], 6, None, None);
    let failing_test_one = TestCase::new(Some(4), Some(TestResult::failed), Some(String::from("There is a failure")), vec![step_init.clone(), step_a_in.clone(), step_a_out.clone(), step_d_out.clone()], 6, None, None);

    let model_passing_test_one = TestModel::new(run_id, vec![graph(&states, covered(&transitions, &[true, true, false, true, false, true, false]), Some(TraceProperties::new(Some(true))))], Some(1));
    let model_passing_test_two = TestModel::new(run_id, vec![graph(&states, covered(&transitions, &[true, false, true, false, true, true, false]), Some(TraceProperties::new(Some(true))))], Some(2));
    let model_passing_test_three = TestModel::new(run_id, vec![graph(&states, covered(&transitions, &[true, false, true, false, true, false, true]), Some(TraceProperties::new(Some(true))))], Some(3));
    let model_failing_test_one = TestModel::new(run_id, vec![graph(&states, covered(&transitions, &[true, true, false, true, false, false, true]), Some(TraceProperties::new(Some(false))))], Some(4));

    let mut storage = StorageService::new();
    storage.set_model(Some(model));
    storage.set_passing_tests(vec![passing_test_one, passing_test_two, passing_test_three]);
    storage.set_failing_tests(vec![failing_test_one]);
    storage.set_coverage_informations(vec![model_passing_test_one, model_passing_test_two, model_passing_test_three, model_failing_test_one]);

    //When
    let analysis = settings(2);
    let service = AnalysisService {};
    let test_testcase = TestCase::new(Some(4), Some(TestResult::failed), Some(String::from("There is a failure")), vec![step_init.clone(), step_a_in.clone(), step_a_out.clone(), step_d_out.clone()], 6, None, None);
    service.train(&mut storage, &analysis).unwrap();
    let analysis_result = service.analyse(test_testcase, &storage, &analysis);

    //Then
    //Require that both a? and d! are in the results and preferably at most one more
    let unwrapped_result = analysis_result.unwrap();
    println!("unwrapped_result = {:?}", unwrapped_result);
    assert!(&unwrapped_result.root_cause_steps.len() <= &3, "The analysis result contains more than 3 steps, i.e. {:?}. The result: {:?}", unwrapped_result.root_cause_steps.len(), unwrapped_result);
    assert!(&unwrapped_result.root_cause_steps.contains(&step_a_out), "The analysis result does not contain the step !a. The result: {:?}", unwrapped_result);
    assert!(&unwrapped_result.root_cause_steps.contains(&step_d_out), "The analysis result does not contain the step !d. The result: {:?}", unwrapped_result);
}

#[test]
fn test_analyse_with_failure_based_on_order_with_tau() {
    //  Transition d! is wrongly implemented if the transition a! is taken and should be returned. There is a transition between state 7 and 4 that is a tau step, so no label is added to the transition.

    //Given
    let states: Vec<State> = vec![state("0"), state("1"), state("2"), state("3"), state("4"), state("5"), state("6")];
    let mut model_states = states.clone();
    model_states.push(state("7"));

    let transition_tau = Transition::new(String::from("7"), String::from("4"), TransitionAttribute::new(String::from(""), Some(String::from("unobservable")), None));
    let transitions = vec![transition("0", "1", "!init"), transition("1", "2", "?a"), transition("1", "3", "?b"), transition("2", "7", "!a"), transition("3", "7", "!b"), transition("4", "5", "!c"), transition("4", "6", "!d"), transition_tau.clone()];

    let run_id = Uuid::new_v4().as_u128();
    let model = TestModel::new(run_id, vec![graph(&model_states, transitions.clone(), None)], None);

    let step_init = step("init", "out", 0);
    let step_a_in = step("a", "in", 1);
    let step_b_in = step("b", "in", 1);
    let step_a_out = step("a", "out", 2);
    let step_b_out = step("b", "out", 2);
    let step_c_out = step("c", "out", 3);
    let step_d_out = step("d", "out", 3);

    let passing_test_one = TestCase::new(Some(1), Some(TestResult::passed), None, vec![step_init.clone(), step_a_in.clone(), step_a_out.clone(), step_c_out.clone()], 6, None, None);
    let passing_test_two = TestCase::new(Some(2), Some(TestResult::passed), None, vec![step_init.clone(), step_b_in.clone(), step_b_out.clone(), step_c_out.clone()], 6, None, None);
    let passing_test_three = TestCase::new(Some(3), Some(TestResult::passed), None, vec![step_init.clone(), step_b_in.clone(), step_b_out.clone(), step_d_out.clone()], 6, None, None);
    let failing_test_one = TestCase::new(Some(4), Some(TestResult::failed), Some(String::from("There is a failure")), vec![step_init.clone(), step_a_in.clone(), step_a_out.clone(), step_d_out.clone()], 6, None, None);

    let model_passing_test_one = TestModel::new(run_id, vec![graph(&states, covered(&transitions, &[true, true, false, true, false, true, false, true]), Some(TraceProperties::new(Some(true))))], Some(1));
    let model_passing_test_two = TestModel::new(run_id, vec![graph(&states, covered(&transitions, &[true, false, true, false, true, true, false, true]), Some(TraceProperties::new(Some(true))))], Some(2));
    let model_passing_test_three = TestModel::new(run_id, vec![graph(&states, covered(&transitions, &[true, false, true, false, true, false, true, true]), Some(TraceProperties::new(Some(true))))], Some(3));
    let model_failing_test_one = TestModel::new(run_id, vec![graph(&states, covered(&transitions, &[true, true, false, true, false, false, true, true]), Some(TraceProperties::new(Some(false))))], Some(4));

    let mut storage = StorageService::new();
    storage.set_model(Some(model));
    storage.set_passing_tests(vec![passing_test_one, passing_test_two, passing_test_three]);
    storage.set_failing_tests(vec![failing_test_one]);
    storage.set_coverage_informations(vec![model_passing_test_one, model_passing_test_two, model_passing_test_three, model_failing_test_one]);

    //When
    let analysis = settings(2);
    let service = AnalysisService {};
    let test_testcase = TestCase::new(Some(4), Some(TestResult::failed), Some(String::from("There is a failure")), vec![step_init.clone(), step_a_in.clone(), step_a_out.clone(), step_d_out.clone()], 6, None, None);
    service.train(&mut storage, &analysis).unwrap();
    let analysis_result = service.analyse(test_testcase, &storage, &analysis);

    //Then
    //Require that both a? and d! are in the results and preferably at most one more
    let unwrapped_result = analysis_result.unwrap();
    println!("unwrapped_result = {:?}", unwrapped_result);
    assert!(&unwrapped_result.root_cause_steps.len() <= &3, "The analysis result contains more than 3 steps, i.e. {:?}. The result: {:?}", unwrapped_result.root_cause_steps.len(), unwrapped_result);
    assert!(&unwrapped_result.root_cause_steps.contains(&step_a_out), "The analysis result does not contain the step !a. The result: {:?}", unwrapped_result);
    assert!(&unwrapped_result.root_cause_steps.contains(&step_d_out), "The analysis result does not contain the step !d. The result: {:?}", unwrapped_result);
}

#[test]
fn order_dependent_failure_lists_the_labels_involved() {
    let states: Vec<State> = vec![state("0"), state("1"), state("2"), state("3"), state("4"), state("5"), state("6")];
    let transitions = vec![transition("0", "1", "!init"), transition("1", "2", "?a"), transition("1", "3", "?b"), transition("2", "4", "!a"), transition("3", "4", "!b"), transition("4", "5", "!c"), transition("4", "6", "!d")];
    let run_id: u128 = 7;
    let model = TestModel::new(run_id, vec![graph(&states, transitions.clone(), None)], None);
    let step_init = step("init", "out", 0);
    let step_a_in = step("a", "in", 1);
    let step_b_in = step("b", "in", 1);
    let step_a_out = step("a", "out", 2);
    let step_b_out = step("b", "out", 2);
    let step_c_out = step("c", "out", 3);
    let step_d_out = step("d", "out", 3);
    let one = TestCase::new(Some(1), Some(TestResult::passed), None, vec![step_init.clone(), step_a_in.clone(), step_a_out.clone(), step_c_out.clone()], 6, None, None);
    let two = TestCase::new(Some(2), Some(TestResult::passed), None, vec![step_init.clone(), step_b_in.clone(), step_b_out.clone(), step_c_out.clone()], 6, None, None);
    let three = TestCase::new(Some(3), Some(TestResult::passed), None, vec![step_init.clone(), step_b_in.clone(), step_b_out.clone(), step_d_out.clone()], 6, None, None);
    let four = TestCase::new(Some(4), Some(TestResult::failed), None, vec![step_init.clone(), step_a_in.clone(), step_a_out.clone(), step_d_out.clone()], 6, None, None);
    let mut storage = StorageService::new();
    storage.set_model(Some(model));
    storage.set_passing_tests(vec![one, two, three]);
    storage.set_failing_tests(vec![four.clone()]);
    storage.set_coverage_informations(vec![
        TestModel::new(run_id, vec![graph(&states, covered(&transitions, &[true, true, false, true, false, true, false]), Some(TraceProperties::new(Some(true))))], Some(1)),
        TestModel::new(run_id, vec![graph(&states, covered(&transitions, &[true, false, true, false, true, true, false]), Some(TraceProperties::new(Some(true))))], Some(2)),
        TestModel::new(run_id, vec![graph(&states, covered(&transitions, &[true, false, true, false, true, false, true]), Some(TraceProperties::new(Some(true))))], Some(3)),
        TestModel::new(run_id, vec![graph(&states, covered(&transitions, &[true, true, false, true, false, false, true]), Some(TraceProperties::new(Some(false))))], Some(4)),
    ]);
    let analysis = settings(2);
    let service = AnalysisService {};
    service.train(&mut storage, &analysis).unwrap();
    let result = service.analyse(four, &storage, &analysis).unwrap();
    assert_eq!(result.group_name, "Multiple steps: [\"?a\", \"!a\", \"!d\"]");
    assert_eq!(result.root_cause_state, None);
    assert_eq!(result.root_cause_transition, None);
    assert_eq!(result.root_cause_steps, vec![step_a_in, step_a_out, step_d_out]);
}

#[test]
fn a_trace_that_passed_is_correct_whatever_is_stored() {
    let service = AnalysisService {};
    let analysis = Analysis::default();
    let empty = StorageService::new();
    let passed = TestCase::new(Some(1), Some(TestResult::passed), None, vec![step("a", "in", 0)], 1, None, None);
    let expected = AnalysisResult::new(String::from("Correct"), None, None, None);
    assert_eq!(service.analyse(passed.clone(), &empty, &analysis), Some(expected.clone()));

    let mut always = analysis.clone();
    always.set_similarity_threshold(Threshold::new(-1, 1));
    assert_eq!(service.analyse(passed, &empty, &always), Some(expected));
}

#[test]
fn analysis_needs_a_model_and_a_matrix() {
    let service = AnalysisService {};
    let analysis = Analysis::default();
    let mut storage = StorageService::new();
    let failed = TestCase::new(Some(1), Some(TestResult::failed), None, vec![step("a", "in", 0)], 1, None, None);
    assert_eq!(service.analyse(failed.clone(), &storage, &analysis), None);
    let unknown = TestCase::new(Some(1), None, None, vec![step("a", "in", 0)], 1, None, None);
    assert_eq!(service.analyse(unknown, &storage, &analysis), None);

    let states = vec![state("0"), state("1")];
    storage.set_model(Some(TestModel::new(1, vec![graph(&states, vec![transition("0", "1", "?a")], None)], None)));
    assert_eq!(service.analyse(failed.clone(), &storage, &analysis), None);

    service.train(&mut storage, &analysis).unwrap();
    assert_eq!(service.analyse(failed, &storage, &analysis), Some(AnalysisResult::new(String::from("No problematic steps found"), None, None, None)));
}

#[test]
fn training_needs_a_model() {
    let service = AnalysisService {};
    let analysis = Analysis::default();
    let mut storage = StorageService::new();
    assert_eq!(service.train(&mut storage, &analysis), Err(String::from("There is no model to train with")));
    assert!(storage.coverage_matrix.is_none());
}

#[test]
fn training_twice_gives_the_same_matrix() {
    let states: Vec<State> = vec![state("0"), state("1"), state("2")];
    let transitions = vec![transition("0", "1", "?a"), transition("1", "2", "!b")];
    let mut storage = StorageService::new();
    storage.set_model(Some(TestModel::new(1, vec![graph(&states, transitions.clone(), None)], None)));
    storage.set_passing_tests(vec![TestCase::new(Some(1), Some(TestResult::passed), None, vec![step("a", "in", 0), step("b", "out", 1)], 2, None, None)]);
    storage.set_failing_tests(vec![TestCase::new(Some(2), Some(TestResult::failed), None, vec![step("a", "in", 0)], 1, None, None)]);
    storage.set_coverage_informations(vec![
        TestModel::new(1, vec![graph(&states, covered(&transitions, &[true, true]), Some(TraceProperties::new(Some(true))))], Some(1)),
        TestModel::new(1, vec![graph(&states, covered(&transitions, &[true, false]), Some(TraceProperties::new(Some(false))))], Some(2)),
    ]);
    let analysis = settings(1);
    let service = AnalysisService {};
    service.train(&mut storage, &analysis).unwrap();
    let first = storage.coverage_matrix.clone().unwrap();
    service.train(&mut storage, &analysis).unwrap();
    let second = storage.coverage_matrix.clone().unwrap();
    assert_eq!(first, second);
    assert_eq!(first.keys(), &vec![String::from("0--?a-->1"), String::from("1--!b-->2"), String::from("0--?a-->1 1--!b-->2")]);
    assert_eq!(first.error_vector(), &vec![false, true]);
    assert_eq!(first.test_id_vector(), &vec![1, 2]);
    assert_eq!(first.column("0--?a-->1 1--!b-->2"), Some(&vec![true, false]));
}
