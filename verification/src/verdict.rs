//! Reducing the set of problematic transitions to a verdict.
use crate::correlation::{
    first_true, law_step_of_transition, lemma_first_true, lemma_no_true, transition_to_step,
};
use crate::models::analysis_result::{AnalysisResult, AnalysisResultView};
use crate::models::model::{State, StateView, TestModel, Transition, TransitionView};
use crate::models::test_case::{Step, StepView};
use crate::text::{holds_text, join, join_strings, quote, quoted, same_text};
use crate::views::{lemma_deep_view_index, lemma_push_view};
use vstd::prelude::*;
use vstd::string::*;

verus! {

/// The texts of a list without repetition, each at the place of its first
/// occurrence.
pub open spec fn distinct(texts: Seq<Seq<char>>) -> Seq<Seq<char>>
    decreases texts.len(),
{
    if texts.len() == 0 {
        Seq::empty()
    } else {
        let rest = distinct(texts.drop_last());
        if rest.contains(texts.last()) {
            rest
        } else {
            rest.push(texts.last())
        }
    }
}

/// A list of texts as it is shown: each text quoted, separated by a comma and
/// a blank, between square brackets.
pub open spec fn listed(texts: Seq<Seq<char>>) -> Seq<char> {
    "["@ + join(texts.map_values(|t: Seq<char>| quoted(t)), ", "@) + "]"@
}

/// The state that two transitions share: the one state that is the source of
/// one of them and the target of one of them. There is none where no source is
/// a target, and none where both sources are targets and differ.
pub open spec fn shared_state_id(a: TransitionView, b: TransitionView) -> Option<Seq<char>> {
    let first = a.source == a.target || a.source == b.target;
    let second = b.source == a.target || b.source == b.target;
    if a.source == b.source {
        if first {
            Some(a.source)
        } else {
            None
        }
    } else if first && !second {
        Some(a.source)
    } else if second && !first {
        Some(b.source)
    } else {
        None
    }
}

/// The first of `states` with the identity `id`.
pub open spec fn state_with_id(states: Seq<StateView>, id: Seq<char>) -> Option<StateView> {
    match first_true(states.map_values(|s: StateView| s.id == id)) {
        Some(i) => Some(states[i]),
        None => None,
    }
}

/// The state of the model that two transitions point at as faulty: the state
/// that they share, where they share exactly one and the model has it.
pub open spec fn faulty_state(
    a: TransitionView,
    b: TransitionView,
    states: Seq<StateView>,
) -> Option<StateView> {
    match shared_state_id(a, b) {
        Some(id) => state_with_id(states, id),
        None => None,
    }
}

/// The steps of a trace that a list of transitions stands for: for each
/// transition, in order, the step that it correlates to, if any.
pub open spec fn evidence(problematic: Seq<TransitionView>, steps: Seq<StepView>) -> Seq<StepView>
    decreases problematic.len(),
{
    if problematic.len() == 0 {
        Seq::empty()
    } else {
        let rest = evidence(problematic.drop_last(), steps);
        match transition_to_step(problematic.last(), steps) {
            Some(step) => rest.push(step),
            None => rest,
        }
    }
}

/// The verdict on a trace that passed.
pub open spec fn correct() -> AnalysisResultView {
    AnalysisResultView {
        group_name: "Correct"@,
        root_cause_state: None,
        root_cause_transition: None,
        root_cause_steps: Seq::empty(),
    }
}

/// The verdict where nothing is problematic.
pub open spec fn no_problem() -> AnalysisResultView {
    AnalysisResultView {
        group_name: "No problematic steps found"@,
        root_cause_state: None,
        root_cause_transition: None,
        root_cause_steps: Seq::empty(),
    }
}

/// The name of the verdict that lists several transitions: their distinct
/// labels.
pub open spec fn multiple_steps_name(problematic: Seq<TransitionView>) -> Seq<char> {
    "Multiple steps: "@ + listed(distinct(problematic.map_values(|t: TransitionView| t.label)))
}

/// The verdict on an ordered set of problematic transitions. None: nothing
/// was found. One: that transition. Two that share exactly one state which the
/// model has: that state. Otherwise: the distinct labels of the transitions.
/// But for the first case the evidence is the steps that the transitions
/// stand for.
pub open spec fn verdict(
    problematic: Seq<TransitionView>,
    steps: Seq<StepView>,
    states: Seq<StateView>,
) -> AnalysisResultView {
    if problematic.len() == 0 {
        no_problem()
    } else if problematic.len() == 1 {
        AnalysisResultView {
            group_name: "Transition "@ + problematic[0].label,
            root_cause_state: None,
            root_cause_transition: Some(problematic[0]),
            root_cause_steps: evidence(problematic, steps),
        }
    } else if problematic.len() == 2 && faulty_state(problematic[0], problematic[1], states)
        is Some {
        let state = faulty_state(problematic[0], problematic[1], states)->0;
        AnalysisResultView {
            group_name: "State "@ + state.id,
            root_cause_state: Some(state),
            root_cause_transition: None,
            root_cause_steps: evidence(problematic, steps),
        }
    } else {
        AnalysisResultView {
            group_name: multiple_steps_name(problematic),
            root_cause_state: None,
            root_cause_transition: None,
            root_cause_steps: evidence(problematic, steps),
        }
    }
}

/// The texts of a list without repetition.
pub fn distinct_texts(texts: &Vec<String>) -> (kept: Vec<String>)
    ensures
        kept.deep_view() == distinct(texts.deep_view()),
{
    let mut kept: Vec<String> = Vec::new();
    proof {
        assert(texts.deep_view().take(0) =~= Seq::empty());
        assert(kept.deep_view() =~= Seq::empty());
    }
    let mut i: usize = 0;
    while i < texts.len()
        invariant
            i <= texts.len(),
            kept.deep_view() == distinct(texts.deep_view().take(i as int)),
        decreases texts.len() - i,
    {
        proof {
            let upto = texts.deep_view().take(i + 1);
            assert(upto.drop_last() =~= texts.deep_view().take(i as int));
            assert(upto.last() == texts[i as int]@);
        }
        if !holds_text(&kept, texts[i].as_str()) {
            let ghost before = kept;
            let copy = texts[i].clone();
            kept.push(copy);
            proof {
                lemma_push_view(before, kept, copy);
            }
        }
        i += 1;
    }
    proof {
        assert(texts.deep_view().take(texts.len() as int) =~= texts.deep_view());
    }
    kept
}

/// A list of texts as it is shown.
pub fn list_texts(texts: &Vec<String>) -> (shown: String)
    ensures
        shown@ == listed(texts.deep_view()),
{
    let mut parts: Vec<String> = Vec::new();
    let mut i: usize = 0;
    while i < texts.len()
        invariant
            i <= texts.len(),
            parts.len() == i,
            forall|a: int| 0 <= a < i ==> (#[trigger] parts[a])@ == quoted(texts[a]@),
        decreases texts.len() - i,
    {
        parts.push(quote(texts[i].as_str()));
        i += 1;
    }
    proof {
        lemma_deep_view_index(parts);
        lemma_deep_view_index(*texts);
        assert(parts.deep_view() =~= texts.deep_view().map_values(|t: Seq<char>| quoted(t)));
    }
    let mut shown = String::from_str("[");
    let joined = join_strings(&parts, ", ");
    shown.append(joined.as_str());
    shown.append("]");
    shown
}

/// What names the failure of `extract_state_from_transitions` where the two
/// transitions share no single state.
pub open spec fn no_shared_state() -> Seq<char> {
    "The transitions do not share exactly one state"@
}

/// What names the failure of `extract_state_from_transitions` where the model
/// has no state with the shared identity.
pub open spec fn unknown_state() -> Seq<char> {
    "The model has no state with the identity that the transitions share"@
}

/// The state of `model` that two transitions point at as faulty: the one state
/// that is the source of one of them and the target of one of them. Fails
/// where they share no single state, and where the model does not have it.
pub fn extract_state_from_transitions(
    transition1: &Transition,
    transition2: &Transition,
    model: &TestModel,
) -> (found: Result<State, String>)
    ensures
        match found {
            Ok(state) => faulty_state(transition1@, transition2@, model@.all_states()) == Some(
                state@,
            ),
            Err(message) => faulty_state(transition1@, transition2@, model@.all_states()) is None
                && message@ == (if shared_state_id(transition1@, transition2@) is None {
                no_shared_state()
            } else {
                unknown_state()
            }),
        },
{
    let first = same_text(transition1.source.as_str(), transition1.target.as_str()) || same_text(
        transition1.source.as_str(),
        transition2.target.as_str(),
    );
    let second = same_text(transition2.source.as_str(), transition1.target.as_str()) || same_text(
        transition2.source.as_str(),
        transition2.target.as_str(),
    );
    let id: &String = if same_text(transition1.source.as_str(), transition2.source.as_str()) {
        if first {
            &transition1.source
        } else {
            return Err(String::from_str("The transitions do not share exactly one state"));
        }
    } else if first && !second {
        &transition1.source
    } else if second && !first {
        &transition2.source
    } else {
        return Err(String::from_str("The transitions do not share exactly one state"));
    };
    let states = model.all_states();
    let ghost flags = states.deep_view().map_values(|s: StateView| s.id == id@);
    proof {
        lemma_deep_view_index(states);
    }
    let mut i: usize = 0;
    while i < states.len()
        invariant
            i <= states.len(),
            states.deep_view().len() == states.len(),
            forall|a: int| 0 <= a < states.len() ==> states.deep_view()[a] == (#[trigger] states[a])@,
            flags == states.deep_view().map_values(|s: StateView| s.id == id@),
            states.deep_view() == model@.all_states(),
            shared_state_id(transition1@, transition2@) == Some(id@),
            forall|a: int| 0 <= a < i ==> !flags[a],
        decreases states.len() - i,
    {
        if same_text(states[i].id.as_str(), id.as_str()) {
            proof {
                assert(flags[i as int]);
                lemma_first_true(flags, i as int);
            }
            return Ok(states[i].clone());
        }
        i += 1;
    }
    proof {
        lemma_no_true(flags);
    }
    Err(String::from_str("The model has no state with the identity that the transitions share"))
}

/// The steps of a trace that a list of transitions stands for.
pub fn collect_evidence(problematic: &Vec<Transition>, steps: &Vec<Step>) -> (found: Vec<Step>)
    ensures
        found.deep_view() == evidence(problematic.deep_view(), steps.deep_view()),
{
    let mut found: Vec<Step> = Vec::new();
    proof {
        assert(problematic.deep_view().take(0) =~= Seq::empty());
        assert(found.deep_view() =~= Seq::empty());
    }
    let mut i: usize = 0;
    while i < problematic.len()
        invariant
            i <= problematic.len(),
            found.deep_view() == evidence(problematic.deep_view().take(i as int), steps.deep_view()),
        decreases problematic.len() - i,
    {
        proof {
            let upto = problematic.deep_view().take(i + 1);
            assert(upto.drop_last() =~= problematic.deep_view().take(i as int));
            assert(upto.last() == problematic[i as int]@);
        }
        match problematic[i].to_step(steps) {
            Some(step) => {
                let ghost before = found;
                found.push(step);
                proof {
                    lemma_push_view(before, found, step);
                }
            },
            None => {},
        }
        i += 1;
    }
    proof {
        assert(problematic.deep_view().take(problematic.len() as int)
            =~= problematic.deep_view());
    }
    found
}

/// The verdict on an ordered set of problematic transitions of a trace with
/// the given steps.
pub fn reduce(problematic: &Vec<Transition>, steps: &Vec<Step>, model: &TestModel) -> (result:
    AnalysisResult)
    ensures
        result@ == verdict(problematic.deep_view(), steps.deep_view(), model@.all_states()),
{
    proof {
        lemma_deep_view_index(*problematic);
    }
    if problematic.len() == 0 {
        let result = AnalysisResult::new(
            String::from_str("No problematic steps found"),
            None,
            None,
            None,
        );
        proof {
            assert(result.root_cause_steps.deep_view() =~= Seq::<StepView>::empty());
        }
        return result;
    }
    let found = collect_evidence(problematic, steps);
    if problematic.len() == 1 {
        let mut name = String::from_str("Transition ");
        name.append(problematic[0].attributes.label.as_str());
        return AnalysisResult::new(name, None, Some(problematic[0].clone()), Some(found));
    }
    if problematic.len() == 2 {
        match extract_state_from_transitions(&problematic[0], &problematic[1], model) {
            Ok(state) => {
                let mut name = String::from_str("State ");
                name.append(state.id.as_str());
                return AnalysisResult::new(name, Some(state), None, Some(found));
            },
            Err(_) => {},
        }
    }
    let mut labels: Vec<String> = Vec::new();
    let mut i: usize = 0;
    while i < problematic.len()
        invariant
            i <= problematic.len(),
            labels.len() == i,
            forall|a: int| 0 <= a < i ==> (#[trigger] labels[a])@ == problematic[a]@.label,
        decreases problematic.len() - i,
    {
        labels.push(problematic[i].attributes.label.clone());
        i += 1;
    }
    proof {
        lemma_deep_view_index(labels);
        assert(labels.deep_view() =~= problematic.deep_view().map_values(
            |t: TransitionView| t.label,
        ));
    }
    let kept = distinct_texts(&labels);
    let shown = list_texts(&kept);
    let mut name = String::from_str("Multiple steps: ");
    name.append(shown.as_str());
    AnalysisResult::new(name, None, None, Some(found))
}

/// The evidence is made of steps of the trace, at most one for each
/// transition.
pub proof fn law_evidence_is_of_the_trace(problematic: Seq<TransitionView>, steps: Seq<StepView>)
    ensures
        evidence(problematic, steps).len() <= problematic.len(),
        forall|i: int|
            0 <= i < evidence(problematic, steps).len() ==> steps.contains(
                #[trigger] evidence(problematic, steps)[i],
            ),
    decreases problematic.len(),
{
    if problematic.len() > 0 {
        law_evidence_is_of_the_trace(problematic.drop_last(), steps);
        law_step_of_transition(problematic.last(), steps);
        let rest = evidence(problematic.drop_last(), steps);
        let all = evidence(problematic, steps);
        assert forall|i: int| 0 <= i < all.len() implies steps.contains(#[trigger] all[i]) by {
            if i < rest.len() {
                assert(all[i] == rest[i]);
            }
        }
    }
}

/// An outcome names a state or a transition, never both; it names a
/// transition exactly where one transition is problematic, and has no evidence
/// where none is.
pub proof fn law_state_or_transition(
    problematic: Seq<TransitionView>,
    steps: Seq<StepView>,
    states: Seq<StateView>,
)
    ensures
        !(verdict(problematic, steps, states).root_cause_state is Some && verdict(
            problematic,
            steps,
            states,
        ).root_cause_transition is Some),
        verdict(problematic, steps, states).root_cause_transition is Some <==> problematic.len()
            == 1,
        verdict(problematic, steps, states).root_cause_state is Some ==> problematic.len() == 2,
        problematic.len() == 0 ==> verdict(problematic, steps, states) == no_problem(),
{
}

} // verus!
