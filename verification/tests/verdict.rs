use sfl_service::models::analysis_result::AnalysisResult;
use sfl_service::models::model::{
    State, StateAttribute, Sts, TestModel, Transition, TransitionAttribute,
};
use sfl_service::models::test_case::{Label, Step, Timestamp};
use sfl_service::ordering::{insert_transition, order_transitions, precedes};
use sfl_service::verdict::{
    collect_evidence, distinct_texts, extract_state_from_transitions, list_texts, reduce,
};

fn state(id: &str) -> State {
    State::new(String::from(id), StateAttribute::new(String::from("label ") + id, String::from("integer"), Some(true)))
}

fn transition(source: &str, target: &str, label: &str) -> Transition {
    Transition::new(String::from(source), String::from(target), TransitionAttribute::new(String::from(label), None, None))
}

fn step(name: &str, direction: &str) -> Step {
    Step::new(Label::new(String::from(name), String::from(direction), None), Timestamp::new(3, 4), None, 0, None, None, None, None)
}

fn model(first: Vec<State>, second: Vec<State>) -> TestModel {
    TestModel::new(
        1,
        vec![
            Sts::new(String::from("first"), first, vec![], vec![], vec![], vec![], None, None, None),
            Sts::new(String::from("second"), second, vec![], vec![], vec![], vec![], None, None, None),
        ],
        None,
    )
}

#[test]
fn two_transitions_share_the_state_between_them() {
    let m = model(vec![state("1"), state("2")], vec![state("3"), state("4")]);
    let into = transition("1", "3", "?b");
    let out = transition("3", "4", "!b");
    assert_eq!(extract_state_from_transitions(&into, &out, &m), Ok(state("3")));
    assert_eq!(extract_state_from_transitions(&out, &into, &m), Ok(state("3")));
    let around = transition("2", "2", "?loop");
    let other = transition("1", "4", "!x");
    assert_eq!(extract_state_from_transitions(&around, &other, &m), Ok(state("2")));
    let twice = transition("1", "4", "?y");
    let back = transition("1", "1", "!z");
    assert_eq!(extract_state_from_transitions(&twice, &back, &m), Ok(state("1")));
}

#[test]
fn transitions_without_a_single_shared_state_have_none() {
    let m = model(vec![state("1"), state("2")], vec![state("3"), state("4")]);
    let apart = extract_state_from_transitions(&transition("1", "2", "?a"), &transition("3", "4", "!b"), &m);
    assert_eq!(apart, Err(String::from("The transitions do not share exactly one state")));
    let circle = extract_state_from_transitions(&transition("1", "2", "?a"), &transition("2", "1", "!b"), &m);
    assert_eq!(circle, Err(String::from("The transitions do not share exactly one state")));
    let same_source = extract_state_from_transitions(&transition("1", "2", "?a"), &transition("1", "3", "!b"), &m);
    assert_eq!(same_source, Err(String::from("The transitions do not share exactly one state")));
    let unknown = extract_state_from_transitions(&transition("1", "9", "?a"), &transition("9", "4", "!b"), &m);
    assert_eq!(unknown, Err(String::from("The model has no state with the identity that the transitions share")));
}

#[test]
fn the_first_state_with_the_identity_is_taken() {
    let twin = State::new(String::from("3"), StateAttribute::new(String::from("the other"), String::from("integer"), None));
    let m = model(vec![state("1"), state("3")], vec![twin.clone(), state("4")]);
    let found = extract_state_from_transitions(&transition("1", "3", "?b"), &transition("3", "4", "!b"), &m).unwrap();
    assert_eq!(found, state("3"));
    assert_ne!(found, twin);
}

#[test]
fn nothing_problematic_gives_no_evidence() {
    let m = model(vec![state("1")], vec![]);
    let steps = vec![step("a", "in")];
    assert_eq!(reduce(&vec![], &steps, &m), AnalysisResult::new(String::from("No problematic steps found"), None, None, None));
}

#[test]
fn one_problematic_transition_is_named() {
    let m = model(vec![state("1")], vec![]);
    let steps = vec![step("a", "in"), step("b", "out")];
    let t = transition("1", "2", "!b");
    assert_eq!(reduce(&vec![t.clone()], &steps, &m), AnalysisResult::new(String::from("Transition !b"), None, Some(t), Some(vec![steps[1].clone()])));
    let silent = transition("1", "2", "!c");
    assert_eq!(reduce(&vec![silent.clone()], &steps, &m), AnalysisResult::new(String::from("Transition !c"), None, Some(silent), Some(vec![])));
}

#[test]
fn two_problematic_transitions_name_their_state_or_their_labels() {
    let m = model(vec![state("1"), state("2")], vec![state("3")]);
    let steps = vec![step("a", "in"), step("b", "out")];
    let into = transition("1", "2", "?a");
    let out = transition("2", "3", "!b");
    assert_eq!(reduce(&vec![into.clone(), out.clone()], &steps, &m), AnalysisResult::new(String::from("State 2"), Some(state("2")), None, Some(steps.clone())));
    let back = transition("3", "1", "!b");
    assert_eq!(reduce(&vec![into.clone(), back], &steps, &m), AnalysisResult::new(String::from("State 1"), Some(state("1")), None, Some(steps.clone())));
    let apart = transition("3", "3", "!b");
    assert_eq!(reduce(&vec![into.clone(), apart], &steps, &m), AnalysisResult::new(String::from("State 3"), Some(state("3")), None, Some(steps.clone())));
    let far = transition("3", "4", "!b");
    assert_eq!(reduce(&vec![into.clone(), far], &steps, &m), AnalysisResult::new(String::from("Multiple steps: [\"?a\", \"!b\"]"), None, None, Some(steps.clone())));
    let lost = transition("1", "7", "?a");
    let found = transition("7", "3", "!b");
    assert_eq!(reduce(&vec![lost, found], &steps, &m).group_name, "Multiple steps: [\"?a\", \"!b\"]");
}

#[test]
fn several_problematic_transitions_list_their_distinct_labels() {
    let m = model(vec![state("1"), state("2")], vec![state("3")]);
    let steps = vec![step("a", "in"), step("b", "out")];
    let all = vec![transition("1", "2", "?a"), transition("2", "3", "!b"), transition("3", "1", "?a"), transition("3", "2", "say \"c\"")];
    let result = reduce(&all, &steps, &m);
    assert_eq!(result.group_name, "Multiple steps: [\"?a\", \"!b\", \"say \\\"c\\\"\"]");
    assert_eq!(result.root_cause_state, None);
    assert_eq!(result.root_cause_transition, None);
    assert_eq!(result.root_cause_steps, vec![steps[0].clone(), steps[1].clone(), steps[0].clone()]);
    assert_eq!(collect_evidence(&all, &steps), result.root_cause_steps);
}

#[test]
fn texts_are_listed_without_repetition() {
    let texts = vec![String::from("a"), String::from("b"), String::from("a"), String::from(""), String::from("b")];
    assert_eq!(distinct_texts(&texts), vec![String::from("a"), String::from("b"), String::from("")]);
    assert_eq!(list_texts(&distinct_texts(&texts)), "[\"a\", \"b\", \"\"]");
    assert_eq!(list_texts(&vec![]), "[]");
    assert_eq!(list_texts(&vec![String::from("tab\there")]), "[\"tab\\there\"]");
}

#[test]
fn transitions_are_ordered_by_source_target_label_kind_and_flag() {
    let kind = |t: &Transition, k: &str| t.clone_and_update(|it| it.attributes._type = Some(String::from(k)));
    let flag = |t: &Transition, f: Option<bool>| t.clone_and_update(|it| it.attributes.covered = f);
    let base = transition("b", "b", "b");
    assert!(precedes(&transition("a", "z", "z"), &base));
    assert!(precedes(&transition("az", "z", "z"), &base));
    assert!(!precedes(&transition("ba", "a", "a"), &base));
    assert!(precedes(&transition("b", "a", "z"), &base));
    assert!(!precedes(&transition("b", "c", "a"), &base));
    assert!(precedes(&transition("b", "b", "a"), &base));
    assert!(precedes(&transition("b", "b", ""), &base));
    assert!(precedes(&transition("b", "b", "B"), &base));
    assert!(!precedes(&transition("b", "b", "bb"), &base));
    assert!(!precedes(&base, &base));
    assert!(precedes(&base, &kind(&base, "")));
    assert!(!precedes(&kind(&base, ""), &base));
    assert!(precedes(&kind(&base, "a"), &kind(&base, "b")));
    assert!(precedes(&base, &flag(&base, Some(false))));
    assert!(precedes(&flag(&base, Some(false)), &flag(&base, Some(true))));
    assert!(!precedes(&flag(&base, Some(true)), &flag(&base, Some(true))));
    assert!(precedes(&flag(&kind(&base, "a"), Some(true)), &kind(&base, "b")));
    assert!(precedes(&transition("10", "b", "b"), &transition("9", "a", "a")));
    assert!(precedes(&transition("a", "b", "c"), &transition("\u{e9}", "b", "c")));
    assert!(precedes(&transition("\u{e9}", "b", "c"), &transition("\u{4e2d}", "b", "c")));
}

#[test]
fn the_ordered_set_keeps_one_of_each_class_in_ascending_order() {
    let covered = |t: &Transition, f: Option<bool>| t.clone_and_update(|it| it.attributes.covered = f);
    let a = transition("1", "2", "?a");
    let b = transition("2", "3", "!b");
    let c = transition("2", "4", "!a");
    let raw = vec![covered(&c, Some(true)), b.clone(), covered(&a, Some(true)), c.clone(), covered(&b, Some(false)), a.clone(), b.clone()];
    let sorted = order_transitions(&raw);
    assert_eq!(sorted, vec![a.clone(), b.clone(), c.clone()]);
    assert_eq!(sorted.iter().map(|t| t.attributes.covered).collect::<Vec<_>>(), vec![None, None, None]);
    let kept = order_transitions(&vec![covered(&a, Some(true)), covered(&a, Some(false))]);
    assert_eq!(kept.len(), 1);
    assert_eq!(kept[0].attributes.covered, Some(false));
    assert_eq!(order_transitions(&vec![]), Vec::<Transition>::new());

    let mut list = vec![a.clone(), c.clone()];
    insert_transition(&mut list, b.clone());
    assert_eq!(list, vec![a.clone(), b.clone(), c.clone()]);
    insert_transition(&mut list, covered(&b, Some(true)));
    assert_eq!(list.len(), 3);
    assert_eq!(list[1].attributes.covered, None);
    insert_transition(&mut list, transition("0", "0", "first"));
    assert_eq!(list[0], transition("0", "0", "first"));
    insert_transition(&mut list, transition("9", "0", "last"));
    assert_eq!(list[4], transition("9", "0", "last"));
}
