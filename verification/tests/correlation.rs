use sfl_service::correlation::{correlate_step, correlate_transition, score_step};
use sfl_service::models::model::{
    State, StateAttribute, Sts, TestModel, Transition, TransitionAttribute,
};
use sfl_service::models::test_case::{Label, ParamValue, Step, Timestamp};

fn transition(source: &str, target: &str, label: &str, covered: Option<bool>) -> Transition {
    Transition::new(String::from(source), String::from(target), TransitionAttribute::new(String::from(label), None, covered))
}

fn step(name: &str, direction: &str, parameters: Option<Vec<(String, ParamValue)>>) -> Step {
    Step::new(Label::new(String::from(name), String::from(direction), None), Timestamp::new(1, 0), None, 0, None, None, None, parameters)
}

fn text(name: &str, value: &str) -> (String, ParamValue) {
    (String::from(name), ParamValue::Text(String::from(value)))
}

fn model(transitions: Vec<Transition>, more: Vec<Transition>) -> TestModel {
    let state = State::new(String::from("0"), StateAttribute::new(String::from("0"), String::from("integer"), None));
    TestModel::new(
        1,
        vec![
            Sts::new(String::from("first"), vec![state.clone()], vec![], vec![], transitions, vec![], None, None, None),
            Sts::new(String::from("second"), vec![state], vec![], vec![], more, vec![], None, None, None),
        ],
        None,
    )
}

#[test]
fn an_exact_match_wins_over_any_fallback() {
    let s = step("set", "in", Some(vec![text("mode", "fast")]));
    let ts = vec![
        transition("0", "1", "?set if ((mode == \"slow\"))", Some(true)),
        transition("0", "2", "?set if ((mode == \"fast\"))", None),
        transition("0", "3", "?set if ((mode == \"fast\"))", Some(true)),
    ];
    assert_eq!(correlate_step(&s, &ts), Some(1));
    assert_eq!(s.to_transition(&model(vec![ts[0].clone()], vec![ts[1].clone(), ts[2].clone()])), Some(ts[1].clone()));
}

#[test]
fn the_fallback_takes_the_covered_candidate_that_fits_best() {
    let s = step("set", "in", Some(vec![text("mode", "fast"), text("level", "9")]));
    let ts = vec![
        transition("0", "1", "?set if (mode == fast)", None),
        transition("0", "2", "?set if (speed == 1)", Some(true)),
        transition("0", "3", "?set if (mode == slow && level == 1)", Some(true)),
        transition("0", "4", "?set if (mode == fast && level == 1)", Some(true)),
        transition("0", "5", "?set if (mode == fast && level == 2)", Some(true)),
        transition("0", "6", "!set if (mode == fast && level == 9)", Some(true)),
        transition("0", "7", "?se", Some(true)),
        transition("0", "8", "?set if (mode == fast && level == 9)", Some(false)),
    ];
    assert_eq!(score_step(&s, "?set if (mode == slow && level == 1)"), 2);
    assert_eq!(score_step(&s, "?set if (mode == fast && level == 1)"), 3);
    assert_eq!(score_step(&s, "?set if (speed == 1)"), 0);
    assert_eq!(correlate_step(&s, &ts), Some(3));
    assert_eq!(s.to_transition(&model(ts.clone(), vec![])), Some(ts[3].clone()));
}

#[test]
fn a_step_that_fits_no_transition_stands_for_none() {
    let s = step("go", "out", None);
    let ts = vec![transition("0", "1", "?go", Some(true)), transition("0", "2", "!g", Some(true)), transition("0", "3", "!go now", None)];
    assert_eq!(correlate_step(&s, &ts), None);
    assert_eq!(s.to_transition(&model(ts, vec![])), None);
    assert_eq!(correlate_step(&s, &vec![]), None);
}

#[test]
fn parameter_values_count_by_their_text() {
    let s = step("set", "in", Some(vec![
        (String::from("on"), ParamValue::Bool(true)),
        (String::from("n"), ParamValue::Number(String::from("42"))),
        (String::from("gone"), ParamValue::Absent),
        text("", ""),
    ]));
    assert_eq!(score_step(&s, "true 42"), 4);
    assert_eq!(score_step(&s, "on = false, n = 7, gone"), 5);
    assert_eq!(score_step(&s, "xyz"), 2);
    assert_eq!(score_step(&step("set", "in", None), "set"), 0);
}

#[test]
fn an_unobservable_transition_is_never_matched() {
    let nameless = step("", "", None);
    let tau = transition("7", "4", "", Some(true));
    assert_eq!(nameless.get_full_label_with_params(true), "");
    assert_eq!(correlate_step(&nameless, &vec![tau.clone()]), None);
    assert_eq!(correlate_transition(&tau, &vec![nameless.clone()]), None);
    assert_eq!(tau.to_step(&vec![nameless, step("a", "in", None)]), None);
}

#[test]
fn a_transition_stands_for_the_step_with_its_label() {
    let steps = vec![step("a", "in", None), step("b", "in", Some(vec![text("k", "v")])), step("b", "in", None), step("b", "in", None)];
    assert_eq!(correlate_transition(&transition("0", "1", "?b", None), &steps), Some(2));
    assert_eq!(correlate_transition(&transition("0", "1", "?b if ((k == \"v\"))", None), &steps), Some(1));
    assert_eq!(transition("0", "1", "?a", None).to_step(&steps), Some(steps[0].clone()));
    assert_eq!(transition("0", "1", "?c", None).to_step(&steps), None);
}

#[test]
fn the_fallback_to_a_step_takes_the_first_of_the_best() {
    let steps = vec![
        step("b", "in", Some(vec![text("k", "w")])),
        step("b", "in", Some(vec![text("k", "v")])),
        step("b", "in", Some(vec![text("k", "v"), text("z", "q")])),
        step("b", "out", Some(vec![text("k", "v")])),
    ];
    let t = transition("0", "1", "?b if k is v", None);
    assert_eq!(correlate_transition(&t, &steps), Some(1));
    assert_eq!(t.to_step(&steps), Some(steps[1].clone()));
    assert_eq!(correlate_transition(&transition("0", "1", "?bb", None), &steps), Some(0));
    assert_eq!(correlate_transition(&transition("0", "1", "?", None), &steps), None);
}

#[test]
fn a_step_and_its_transition_find_each_other() {
    let steps = vec![step("init", "out", None), step("a", "in", None), step("a", "out", None)];
    let ts = vec![transition("0", "1", "!init", None), transition("1", "2", "?a", None), transition("2", "4", "!a", None)];
    let m = model(ts.clone(), vec![]);
    for s in steps.iter() {
        let t = s.to_transition(&m).unwrap();
        assert_eq!(t.to_step(&steps), Some(s.clone()));
    }
}
