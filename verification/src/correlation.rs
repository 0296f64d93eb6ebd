//! The label correlator: which transition of a model an executed step stands
//! for, and which step of a trace a transition stands for.
//!
//! Both directions first look for an exact match of the labels. Failing that
//! they fall back on the candidates whose label begins with the step's label
//! without parameters, rank them by how many of the step's parameter names and
//! values occur in the transition's label, and take the best; of several best
//! candidates the one that comes first wins. An unobservable transition, whose
//! label is empty, is never matched.
use crate::models::model::{TestModel, Transition, TransitionView};
use crate::models::test_case::{full_label, ParamValue, ParamValueView, Step, StepView};
use crate::text::{contains_text, flag_string, flag_text, occurs_in, same_text, starts_with};
use crate::views::lemma_deep_view_index;
use vstd::prelude::*;
use vstd::string::*;

verus! {

/// `i` is the least index at which `flags` holds `true`.
pub open spec fn is_first_true(flags: Seq<bool>, i: int) -> bool {
    &&& 0 <= i < flags.len()
    &&& flags[i]
    &&& forall|j: int| 0 <= j < i ==> !flags[j]
}

/// The least index at which `flags` holds `true`, if there is one.
pub open spec fn first_true(flags: Seq<bool>) -> Option<int> {
    if exists|i: int| is_first_true(flags, i) {
        Some(choose|i: int| is_first_true(flags, i))
    } else {
        None
    }
}

/// `i` is a candidate whose score no candidate exceeds, and the first such.
pub open spec fn is_best(candidate: Seq<bool>, score: Seq<nat>, i: int) -> bool {
    &&& 0 <= i < candidate.len()
    &&& candidate[i]
    &&& forall|j: int|
        0 <= j < candidate.len() && candidate[j] ==> score[j] < score[i] || (score[j] == score[i]
            && i <= j)
}

/// The first of the candidates with the highest score, if there is a
/// candidate.
pub open spec fn best_candidate(candidate: Seq<bool>, score: Seq<nat>) -> Option<int> {
    if exists|i: int| is_best(candidate, score, i) {
        Some(choose|i: int| is_best(candidate, score, i))
    } else {
        None
    }
}

/// The index that `is_first_true` holds of is the one that `first_true` gives.
pub proof fn lemma_first_true(flags: Seq<bool>, i: int)
    requires
        is_first_true(flags, i),
    ensures
        first_true(flags) == Some(i),
{
    let k = choose|k: int| is_first_true(flags, k);
    assert(is_first_true(flags, k));
    if k < i {
        assert(!flags[k]);
    }
    if i < k {
        assert(!flags[i]);
    }
}

/// Where no flag is set, `first_true` gives nothing.
pub proof fn lemma_no_true(flags: Seq<bool>)
    requires
        forall|j: int| 0 <= j < flags.len() ==> !flags[j],
    ensures
        first_true(flags) is None,
{
}

/// The index that `is_best` holds of is the one that `best_candidate` gives.
pub proof fn lemma_best(candidate: Seq<bool>, score: Seq<nat>, i: int)
    requires
        is_best(candidate, score, i),
    ensures
        best_candidate(candidate, score) == Some(i),
{
    let k = choose|k: int| is_best(candidate, score, k);
    assert(is_best(candidate, score, k));
}

/// Where there is no candidate, `best_candidate` gives nothing.
pub proof fn lemma_no_candidate(candidate: Seq<bool>, score: Seq<nat>)
    requires
        forall|j: int| 0 <= j < candidate.len() ==> !candidate[j],
    ensures
        best_candidate(candidate, score) is None,
{
}

/// The text by which a parameter value is looked for in a label: a string as
/// it is, a boolean as `true` or `false`, a number as it is written. An absent
/// value has none.
pub open spec fn value_text(value: ParamValueView) -> Option<Seq<char>> {
    match value {
        ParamValueView::Text(s) => Some(s),
        ParamValueView::Number(s) => Some(s),
        ParamValueView::Bool(b) => Some(flag_text(b)),
        ParamValueView::Absent => None,
    }
}

/// What one parameter adds to a score: one if its name occurs in `label`, and
/// one if the text of its value does.
pub open spec fn parameter_score(parameter: (Seq<char>, ParamValueView), label: Seq<char>) -> nat {
    let by_name: nat = if occurs_in(parameter.0, label) {
        1
    } else {
        0
    };
    let by_value: nat = match value_text(parameter.1) {
        Some(text) => if occurs_in(text, label) {
            1
        } else {
            0
        },
        None => 0,
    };
    by_name + by_value
}

/// The sum of the scores of `parameters`.
pub open spec fn parameters_score(
    parameters: Seq<(Seq<char>, ParamValueView)>,
    label: Seq<char>,
) -> nat
    decreases parameters.len(),
{
    if parameters.len() == 0 {
        0
    } else {
        parameters_score(parameters.drop_last(), label) + parameter_score(
            parameters.last(),
            label,
        )
    }
}

/// How well a step fits a transition label: the number of the step's parameter
/// names and parameter values that occur in the label.
pub open spec fn match_score(step: StepView, label: Seq<char>) -> nat {
    match step.label_parameters {
        Some(parameters) => parameters_score(parameters, label),
        None => 0,
    }
}

/// A step and a transition match exactly: the transition is observable and its
/// label is the step's label with parameters.
pub open spec fn exact_match(step: StepView, t: TransitionView) -> bool {
    t.label.len() > 0 && t.label == full_label(step, true)
}

/// A transition is a fallback candidate for a step: it is observable, it was
/// exercised, and its label begins with the step's label without parameters.
pub open spec fn transition_candidate(step: StepView, t: TransitionView) -> bool {
    t.label.len() > 0 && t.is_covered() && full_label(step, false).is_prefix_of(t.label)
}

/// A step is a fallback candidate for a transition: the transition is
/// observable and its label begins with the step's label without parameters.
pub open spec fn step_candidate(t: TransitionView, step: StepView) -> bool {
    t.label.len() > 0 && full_label(step, false).is_prefix_of(t.label)
}

/// The transition among `transitions` that `step` stands for.
pub open spec fn step_to_transition(step: StepView, transitions: Seq<TransitionView>) -> Option<
    TransitionView,
> {
    let exact = first_true(transitions.map_values(|t: TransitionView| exact_match(step, t)));
    let fallback = best_candidate(
        transitions.map_values(|t: TransitionView| transition_candidate(step, t)),
        transitions.map_values(|t: TransitionView| match_score(step, t.label)),
    );
    match exact {
        Some(i) => Some(transitions[i]),
        None => match fallback {
            Some(i) => Some(transitions[i]),
            None => None,
        },
    }
}

/// The step among `steps` that the transition `t` stands for.
pub open spec fn transition_to_step(t: TransitionView, steps: Seq<StepView>) -> Option<StepView> {
    let exact = first_true(steps.map_values(|s: StepView| exact_match(s, t)));
    let fallback = best_candidate(
        steps.map_values(|s: StepView| step_candidate(t, s)),
        steps.map_values(|s: StepView| match_score(s, t.label)),
    );
    match exact {
        Some(i) => Some(steps[i]),
        None => match fallback {
            Some(i) => Some(steps[i]),
            None => None,
        },
    }
}

/// The step that a transition stands for is a step of the trace, and the
/// transition is observable.
pub proof fn law_step_of_transition(t: TransitionView, steps: Seq<StepView>)
    ensures
        transition_to_step(t, steps) matches Some(s) ==> steps.contains(s) && t.label.len() > 0,
{
    let exact_flags = steps.map_values(|s: StepView| exact_match(s, t));
    let candidates = steps.map_values(|s: StepView| step_candidate(t, s));
    let scores = steps.map_values(|s: StepView| match_score(s, t.label));
    if first_true(exact_flags) is Some {
        let i = choose|i: int| is_first_true(exact_flags, i);
        assert(is_first_true(exact_flags, i));
        assert(steps[i] == steps[i]);
    } else if best_candidate(candidates, scores) is Some {
        let i = choose|i: int| is_best(candidates, scores, i);
        assert(is_best(candidates, scores, i));
        assert(steps[i] == steps[i]);
    }
}

/// The transition that a step stands for is a transition of the model, and
/// it is observable.
pub proof fn law_transition_of_step(step: StepView, transitions: Seq<TransitionView>)
    ensures
        step_to_transition(step, transitions) matches Some(t) ==> transitions.contains(t)
            && t.label.len() > 0,
{
    let exact_flags = transitions.map_values(|t: TransitionView| exact_match(step, t));
    let candidates = transitions.map_values(|t: TransitionView| transition_candidate(step, t));
    let scores = transitions.map_values(|t: TransitionView| match_score(step, t.label));
    if first_true(exact_flags) is Some {
        let i = choose|i: int| is_first_true(exact_flags, i);
        assert(is_first_true(exact_flags, i));
        assert(transitions[i] == transitions[i]);
    } else if best_candidate(candidates, scores) is Some {
        let i = choose|i: int| is_best(candidates, scores, i);
        assert(is_best(candidates, scores, i));
        assert(transitions[i] == transitions[i]);
    }
}

/// A step and a transition whose labels match exactly stand for each other
/// where no earlier one matches: the correlation goes both ways.
pub proof fn law_exact_match_both_ways(
    step: StepView,
    steps: Seq<StepView>,
    t: TransitionView,
    transitions: Seq<TransitionView>,
    i: int,
    j: int,
)
    requires
        0 <= i < steps.len(),
        steps[i] == step,
        0 <= j < transitions.len(),
        transitions[j] == t,
        exact_match(step, t),
        forall|k: int| 0 <= k < i ==> !exact_match(#[trigger] steps[k], t),
        forall|k: int| 0 <= k < j ==> !exact_match(step, #[trigger] transitions[k]),
    ensures
        step_to_transition(step, transitions) == Some(t),
        transition_to_step(t, steps) == Some(step),
{
    let by_transition = transitions.map_values(|x: TransitionView| exact_match(step, x));
    let by_step = steps.map_values(|s: StepView| exact_match(s, t));
    assert(is_first_true(by_transition, j));
    lemma_first_true(by_transition, j);
    assert(is_first_true(by_step, i));
    lemma_first_true(by_step, i);
}

/// Counts how many of the step's parameter names and values occur in `label`.
pub fn score_step(step: &Step, label: &str) -> (score: u128)
    ensures
        score == match_score(step@, label@),
{
    let mut score: u128 = 0;
    if let Some(parameters) = &step.label_parameters {
        let mut i: usize = 0;
        while i < parameters.len()
            invariant
                i <= parameters.len(),
                score == parameters_score(parameters.deep_view().take(i as int), label@),
                score <= 2 * i,
            decreases parameters.len() - i,
        {
            proof {
                let upto = parameters.deep_view().take(i + 1);
                assert(upto.drop_last() =~= parameters.deep_view().take(i as int));
                assert(upto.last() == parameters[i as int].deep_view());
            }
            if contains_text(label, parameters[i].0.as_str()) {
                score += 1;
            }
            let by_value = match &parameters[i].1 {
                ParamValue::Text(s) => contains_text(label, s.as_str()),
                ParamValue::Number(s) => contains_text(label, s.as_str()),
                ParamValue::Bool(b) => {
                    let text = flag_string(*b);
                    contains_text(label, text.as_str())
                },
                ParamValue::Absent => false,
            };
            if by_value {
                score += 1;
            }
            i += 1;
        }
        proof {
            assert(parameters.deep_view().take(parameters.len() as int)
                =~= parameters.deep_view());
        }
    }
    score
}

/// Finds the transition among `transitions` that `step` stands for.
pub fn correlate_step(step: &Step, transitions: &Vec<Transition>) -> (found: Option<usize>)
    ensures
        match found {
            Some(i) => i < transitions.len() && step_to_transition(
                step@,
                transitions.deep_view(),
            ) == Some(transitions[i as int]@),
            None => step_to_transition(step@, transitions.deep_view()) is None,
        },
{
    let ghost ts = transitions.deep_view();
    let ghost exact_flags = ts.map_values(|t: TransitionView| exact_match(step@, t));
    let ghost candidates = ts.map_values(|t: TransitionView| transition_candidate(step@, t));
    let ghost scores = ts.map_values(|t: TransitionView| match_score(step@, t.label));
    proof {
        lemma_deep_view_index(*transitions);
    }
    let with_parameters = step.get_full_label_with_params(true);
    let mut i: usize = 0;
    while i < transitions.len()
        invariant
            i <= transitions.len(),
            ts == transitions.deep_view(),
            ts.len() == transitions.len(),
            exact_flags == ts.map_values(|t: TransitionView| exact_match(step@, t)),
            with_parameters@ == full_label(step@, true),
            forall|j: int| 0 <= j < i ==> !exact_flags[j],
        decreases transitions.len() - i,
    {
        let label = transitions[i].attributes.label.as_str();
        if label.unicode_len() > 0 && same_text(label, with_parameters.as_str()) {
            proof {
                assert(exact_flags[i as int]);
                lemma_first_true(exact_flags, i as int);
            }
            return Some(i);
        }
        i += 1;
    }
    proof {
        lemma_no_true(exact_flags);
    }
    let without_parameters = step.get_full_label_with_params(false);
    let mut best: Option<usize> = None;
    let mut best_score: u128 = 0;
    let mut k: usize = 0;
    while k < transitions.len()
        invariant
            k <= transitions.len(),
            ts == transitions.deep_view(),
            ts.len() == transitions.len(),
            candidates == ts.map_values(|t: TransitionView| transition_candidate(step@, t)),
            scores == ts.map_values(|t: TransitionView| match_score(step@, t.label)),
            without_parameters@ == full_label(step@, false),
            best is None ==> forall|j: int| 0 <= j < k ==> !candidates[j],
            best matches Some(b) ==> {
                &&& b < k
                &&& candidates[b as int]
                &&& best_score == scores[b as int]
                &&& forall|j: int|
                    0 <= j < k && candidates[j] ==> scores[j] < scores[b as int] || (scores[j]
                        == scores[b as int] && b <= j)
            },
        decreases transitions.len() - k,
    {
        let t = &transitions[k];
        let label = t.attributes.label.as_str();
        let covered = match t.attributes.covered {
            Some(flag) => flag,
            None => false,
        };
        if label.unicode_len() > 0 && covered && starts_with(label, without_parameters.as_str()) {
            let score = score_step(step, label);
            if best.is_none() || score > best_score {
                best = Some(k);
                best_score = score;
            }
        }
        k += 1;
    }
    proof {
        match best {
            Some(b) => {
                lemma_best(candidates, scores, b as int);
            },
            None => {
                lemma_no_candidate(candidates, scores);
            },
        }
    }
    best
}

/// Finds the step among `steps` that `transition` stands for.
pub fn correlate_transition(transition: &Transition, steps: &Vec<Step>) -> (found: Option<usize>)
    ensures
        match found {
            Some(i) => i < steps.len() && transition_to_step(transition@, steps.deep_view())
                == Some(steps[i as int]@),
            None => transition_to_step(transition@, steps.deep_view()) is None,
        },
{
    let ghost t = transition@;
    let ghost ss = steps.deep_view();
    let ghost exact_flags = ss.map_values(|s: StepView| exact_match(s, t));
    let ghost candidates = ss.map_values(|s: StepView| step_candidate(t, s));
    let ghost scores = ss.map_values(|s: StepView| match_score(s, t.label));
    proof {
        lemma_deep_view_index(*steps);
    }
    let label = transition.attributes.label.as_str();
    if label.unicode_len() == 0 {
        proof {
            lemma_no_true(exact_flags);
            lemma_no_candidate(candidates, scores);
        }
        return None;
    }
    let mut i: usize = 0;
    while i < steps.len()
        invariant
            i <= steps.len(),
            ss == steps.deep_view(),
            ss.len() == steps.len(),
            t == transition@,
            label@ == t.label,
            label@.len() > 0,
            exact_flags == ss.map_values(|s: StepView| exact_match(s, t)),
            forall|j: int| 0 <= j < i ==> !exact_flags[j],
        decreases steps.len() - i,
    {
        let with_parameters = steps[i].get_full_label_with_params(true);
        if same_text(label, with_parameters.as_str()) {
            proof {
                assert(exact_flags[i as int]);
                lemma_first_true(exact_flags, i as int);
            }
            return Some(i);
        }
        i += 1;
    }
    proof {
        lemma_no_true(exact_flags);
    }
    let mut best: Option<usize> = None;
    let mut best_score: u128 = 0;
    let mut k: usize = 0;
    while k < steps.len()
        invariant
            k <= steps.len(),
            ss == steps.deep_view(),
            ss.len() == steps.len(),
            t == transition@,
            label@ == t.label,
            label@.len() > 0,
            candidates == ss.map_values(|s: StepView| step_candidate(t, s)),
            scores == ss.map_values(|s: StepView| match_score(s, t.label)),
            best is None ==> forall|j: int| 0 <= j < k ==> !candidates[j],
            best matches Some(b) ==> {
                &&& b < k
                &&& candidates[b as int]
                &&& best_score == scores[b as int]
                &&& forall|j: int|
                    0 <= j < k && candidates[j] ==> scores[j] < scores[b as int] || (scores[j]
                        == scores[b as int] && b <= j)
            },
        decreases steps.len() - k,
    {
        let without_parameters = steps[k].get_full_label_with_params(false);
        if starts_with(label, without_parameters.as_str()) {
            let score = score_step(&steps[k], label);
            if best.is_none() || score > best_score {
                best = Some(k);
                best_score = score;
            }
        }
        k += 1;
    }
    proof {
        match best {
            Some(b) => {
                lemma_best(candidates, scores, b as int);
            },
            None => {
                lemma_no_candidate(candidates, scores);
            },
        }
    }
    best
}

impl Step {
    /// The transition of `model` that this step stands for, if any.
    pub fn to_transition(&self, model: &TestModel) -> (found: Option<Transition>)
        ensures
            found.deep_view() == step_to_transition(self@, model@.all_transitions()),
    {
        let all = model.all_transitions();
        match correlate_step(self, &all) {
            Some(i) => Some(all[i].clone()),
            None => None,
        }
    }
}

impl Transition {
    /// The step among `steps` that this transition stands for, if any.
    pub fn to_step(&self, steps: &Vec<Step>) -> (found: Option<Step>)
        ensures
            found.deep_view() == transition_to_step(self@, steps.deep_view()),
    {
        match correlate_transition(self, steps) {
            Some(i) => Some(steps[i].clone()),
            None => None,
        }
    }
}

} // verus!
