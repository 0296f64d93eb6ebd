//! The behavioural model: states and labelled transitions, grouped in named
//! sub-graphs. A coverage run is a model whose transitions carry the flag
//! "exercised by this trace".
use crate::text::{
    clone_optional_text, first_word, leading_word, same_optional_text, same_text,
};
use crate::views::lemma_push_view;
use vstd::prelude::*;
use vstd::std_specs::cmp::{PartialEqSpec, PartialEqSpecImpl};
use vstd::string::*;

verus! {

/// The label, kind and coverage flag of a transition.
#[derive(Debug, Eq)]
pub struct TransitionAttribute {
    pub label: String,
    pub _type: Option<String>,
    pub covered: Option<bool>,
}

impl TransitionAttribute {
    pub fn new(label: String, _type: Option<String>, covered: Option<bool>) -> (attributes:
        TransitionAttribute)
        ensures
            attributes.label == label,
            attributes._type == _type,
            attributes.covered == covered,
    {
        TransitionAttribute { label, _type, covered }
    }
}

/// A directed, labelled edge between two states. An empty label marks an
/// unobservable transition.
#[derive(Debug, Eq)]
pub struct Transition {
    pub source: String,
    pub target: String,
    pub attributes: TransitionAttribute,
}

/// What a `Transition` stands for.
pub struct TransitionView {
    pub source: Seq<char>,
    pub target: Seq<char>,
    pub label: Seq<char>,
    pub kind: Option<Seq<char>>,
    pub covered: Option<bool>,
}

impl TransitionView {
    /// Whether the transition was exercised; a missing flag counts as not.
    pub open spec fn is_covered(self) -> bool {
        self.covered == Some(true)
    }

    /// Equality of transitions looks at everything but the coverage flag.
    pub open spec fn same_as(self, other: TransitionView) -> bool {
        &&& self.source == other.source
        &&& self.target == other.target
        &&& self.label == other.label
        &&& self.kind == other.kind
    }
}

impl DeepView for Transition {
    type V = TransitionView;

    open spec fn deep_view(&self) -> TransitionView {
        TransitionView {
            source: self.source@,
            target: self.target@,
            label: self.attributes.label@,
            kind: self.attributes._type.deep_view(),
            covered: self.attributes.covered,
        }
    }
}

impl View for Transition {
    type V = TransitionView;

    open spec fn view(&self) -> TransitionView {
        self.deep_view()
    }
}

impl Clone for TransitionAttribute {
    fn clone(&self) -> (copy: Self)
        ensures
            copy.label@ == self.label@,
            copy._type.deep_view() == self._type.deep_view(),
            copy.covered == self.covered,
    {
        TransitionAttribute {
            label: self.label.clone(),
            _type: clone_optional_text(&self._type),
            covered: self.covered,
        }
    }
}

impl Clone for Transition {
    fn clone(&self) -> (copy: Self)
        ensures
            copy@ == self@,
    {
        Transition {
            source: self.source.clone(),
            target: self.target.clone(),
            attributes: self.attributes.clone(),
        }
    }
}

impl PartialEq for TransitionAttribute {
    fn eq(&self, other: &Self) -> (same: bool) {
        same_text(self.label.as_str(), other.label.as_str()) && same_optional_text(
            &self._type,
            &other._type,
        )
    }
}

impl PartialEqSpecImpl for TransitionAttribute {
    open spec fn obeys_eq_spec() -> bool {
        true
    }

    open spec fn eq_spec(&self, other: &Self) -> bool {
        self.label@ == other.label@ && self._type.deep_view() == other._type.deep_view()
    }
}

impl PartialEq for Transition {
    fn eq(&self, other: &Self) -> (same: bool) {
        same_text(self.source.as_str(), other.source.as_str()) && same_text(
            self.target.as_str(),
            other.target.as_str(),
        ) && self.attributes == other.attributes
    }
}

impl PartialEqSpecImpl for Transition {
    open spec fn obeys_eq_spec() -> bool {
        true
    }

    open spec fn eq_spec(&self, other: &Self) -> bool {
        self@.same_as(other@)
    }
}

/// The text that names a transition as a column of a coverage matrix:
/// `source--label-->target`. Without transition data only the first word of the
/// label is taken, and a label without any word reads
/// `UNKNOWN TRANSITION LABEL`.
pub open spec fn transition_key(t: TransitionView, use_transition_data: bool) -> Seq<char> {
    let label = if use_transition_data {
        t.label
    } else {
        match first_word(t.label) {
            Some(word) => word,
            None => "UNKNOWN TRANSITION LABEL"@,
        }
    };
    t.source + "--"@ + label + "-->"@ + t.target
}

impl Transition {
    pub fn new(source: String, target: String, attributes: TransitionAttribute) -> (transition:
        Transition)
        ensures
            transition.source == source,
            transition.target == target,
            transition.attributes == attributes,
    {
        Transition { source, target, attributes }
    }

    /// A copy of this transition that `f` has changed.
    pub fn clone_and_update<F>(&self, f: F) -> (updated: Self) where F: Fn(&mut Self)
        requires
            forall|copy: &mut Transition| (*copy)@ == self@ ==> #[trigger] f.requires((copy,)),
        ensures
            exists|copy: &mut Transition|
                (*copy)@ == self@ && #[trigger] f.ensures((copy,), ()) && updated == *final(copy),
    {
        let mut new_self = self.clone();
        f(&mut new_self);
        new_self
    }

    /// The text that names this transition as a column of a coverage matrix.
    pub fn to_string(&self, use_transition_data: bool) -> (key: String)
        ensures
            key@ == transition_key(self@, use_transition_data),
    {
        let mut key = self.source.clone();
        key.append("--");
        if use_transition_data {
            key.append(self.attributes.label.as_str());
        } else {
            match leading_word(self.attributes.label.as_str()) {
                Some(word) => key.append(word.as_str()),
                None => key.append("UNKNOWN TRANSITION LABEL"),
            }
        }
        key.append("-->");
        key.append(self.target.as_str());
        key
    }
}

/// The descriptive attributes of a state.
#[derive(Debug, Eq)]
pub struct StateAttribute {
    pub label: String,
    pub _type: String,
    pub covered: Option<bool>,
}

impl StateAttribute {
    pub fn new(label: String, _type: String, covered: Option<bool>) -> (attributes: StateAttribute)
        ensures
            attributes.label == label,
            attributes._type == _type,
            attributes.covered == covered,
    {
        StateAttribute { label, _type, covered }
    }
}

/// A state of the model.
#[derive(Debug, Eq)]
pub struct State {
    pub id: String,
    pub attributes: StateAttribute,
}

/// What a `State` stands for.
pub struct StateView {
    pub id: Seq<char>,
    pub label: Seq<char>,
    pub kind: Seq<char>,
    pub covered: Option<bool>,
}

impl StateView {
    /// Equality of states looks at everything but the coverage flag.
    pub open spec fn same_as(self, other: StateView) -> bool {
        &&& self.id == other.id
        &&& self.label == other.label
        &&& self.kind == other.kind
    }
}

impl DeepView for State {
    type V = StateView;

    open spec fn deep_view(&self) -> StateView {
        StateView {
            id: self.id@,
            label: self.attributes.label@,
            kind: self.attributes._type@,
            covered: self.attributes.covered,
        }
    }
}

impl View for State {
    type V = StateView;

    open spec fn view(&self) -> StateView {
        self.deep_view()
    }
}

impl Clone for StateAttribute {
    fn clone(&self) -> (copy: Self)
        ensures
            copy.label@ == self.label@,
            copy._type@ == self._type@,
            copy.covered == self.covered,
    {
        StateAttribute {
            label: self.label.clone(),
            _type: self._type.clone(),
            covered: self.covered,
        }
    }
}

impl Clone for State {
    fn clone(&self) -> (copy: Self)
        ensures
            copy@ == self@,
    {
        State { id: self.id.clone(), attributes: self.attributes.clone() }
    }
}

impl PartialEq for StateAttribute {
    fn eq(&self, other: &Self) -> (same: bool) {
        same_text(self.label.as_str(), other.label.as_str()) && same_text(
            self._type.as_str(),
            other._type.as_str(),
        )
    }
}

impl PartialEqSpecImpl for StateAttribute {
    open spec fn obeys_eq_spec() -> bool {
        true
    }

    open spec fn eq_spec(&self, other: &Self) -> bool {
        self.label@ == other.label@ && self._type@ == other._type@
    }
}

impl PartialEq for State {
    fn eq(&self, other: &Self) -> (same: bool) {
        same_text(self.id.as_str(), other.id.as_str()) && self.attributes == other.attributes
    }
}

impl PartialEqSpecImpl for State {
    open spec fn obeys_eq_spec() -> bool {
        true
    }

    open spec fn eq_spec(&self, other: &Self) -> bool {
        self@.same_as(other@)
    }
}

/// A state in which a sub-graph may start.
#[derive(Debug, Clone, Eq)]
pub struct StartState {
    pub id: String,
    pub covered: Option<bool>,
}

impl PartialEq for StartState {
    fn eq(&self, other: &Self) -> (same: bool) {
        same_text(self.id.as_str(), other.id.as_str())
    }
}

impl PartialEqSpecImpl for StartState {
    open spec fn obeys_eq_spec() -> bool {
        true
    }

    open spec fn eq_spec(&self, other: &Self) -> bool {
        self.id@ == other.id@
    }
}

impl State {
    pub fn new(id: String, attributes: StateAttribute) -> (state: State)
        ensures
            state.id == id,
            state.attributes == attributes,
    {
        State { id, attributes }
    }

    /// This state as a start state: its identity and its coverage flag.
    pub fn to_start_state(&self) -> (start: StartState)
        ensures
            start.id@ == self.id@,
            start.covered == self.attributes.covered,
    {
        StartState { id: self.id.clone(), covered: self.attributes.covered }
    }
}

/// The attributes of a reference to a child sub-graph.
#[derive(Debug, Clone, Eq)]
pub struct ChildModelAttribute {
    pub label: String,
    pub _type: String,
    pub hex_id: String,
    pub partially_covered: Option<bool>,
}

impl PartialEq for ChildModelAttribute {
    fn eq(&self, other: &Self) -> (same: bool) {
        same_text(self.label.as_str(), other.label.as_str()) && same_text(
            self._type.as_str(),
            other._type.as_str(),
        ) && same_text(self.hex_id.as_str(), other.hex_id.as_str())
    }
}

impl PartialEqSpecImpl for ChildModelAttribute {
    open spec fn obeys_eq_spec() -> bool {
        true
    }

    open spec fn eq_spec(&self, other: &Self) -> bool {
        self.label@ == other.label@ && self._type@ == other._type@ && self.hex_id@ == other.hex_id@
    }
}

/// A reference to a child sub-graph.
#[derive(Debug, Clone, Eq)]
pub struct ChildModel {
    pub id: String,
    pub attributes: ChildModelAttribute,
}

impl PartialEq for ChildModel {
    fn eq(&self, other: &Self) -> (same: bool) {
        same_text(self.id.as_str(), other.id.as_str()) && self.attributes == other.attributes
    }
}

impl PartialEqSpecImpl for ChildModel {
    open spec fn obeys_eq_spec() -> bool {
        true
    }

    open spec fn eq_spec(&self, other: &Self) -> bool {
        self.id@ == other.id@ && PartialEqSpec::eq_spec(&self.attributes, &other.attributes)
    }
}

/// What is known of the trace that a coverage run was made from.
#[derive(Debug, Clone, Copy, PartialEq, Eq, Structural)]
pub struct TraceProperties {
    pub passed: Option<bool>,
}

impl TraceProperties {
    pub fn new(passed: Option<bool>) -> (properties: TraceProperties)
        ensures
            properties.passed == passed,
    {
        TraceProperties { passed }
    }
}

/// A named sub-graph of the model.
#[derive(Debug, Clone, Eq)]
pub struct Sts {
    pub name: String,
    pub states: Vec<State>,
    pub children: Vec<ChildModel>,
    pub start_states: Vec<StartState>,
    pub transitions: Vec<Transition>,
    pub return_transitions: Vec<Transition>,
    pub return_state: Option<String>,
    pub sts: Option<String>,
    pub trace_properties: Option<TraceProperties>,
}

/// What the analysis reads of an `Sts`.
pub struct StsView {
    pub name: Seq<char>,
    pub states: Seq<StateView>,
    pub transitions: Seq<TransitionView>,
    pub return_transitions: Seq<TransitionView>,
    pub return_state: Option<Seq<char>>,
    pub sts: Option<Seq<char>>,
    pub trace_properties: Option<TraceProperties>,
}

impl DeepView for Sts {
    type V = StsView;

    open spec fn deep_view(&self) -> StsView {
        StsView {
            name: self.name@,
            states: self.states.deep_view(),
            transitions: self.transitions.deep_view(),
            return_transitions: self.return_transitions.deep_view(),
            return_state: self.return_state.deep_view(),
            sts: self.sts.deep_view(),
            trace_properties: self.trace_properties,
        }
    }
}

impl View for Sts {
    type V = StsView;

    open spec fn view(&self) -> StsView {
        self.deep_view()
    }
}

impl PartialEq for Sts {
    fn eq(&self, other: &Self) -> (same: bool) {
        same_text(self.name.as_str(), other.name.as_str()) && self.states == other.states
            && self.children == other.children && self.start_states == other.start_states
            && self.transitions == other.transitions && self.return_transitions
            == other.return_transitions && same_optional_text(
            &self.return_state,
            &other.return_state,
        ) && same_optional_text(&self.sts, &other.sts)
    }
}

impl PartialEqSpecImpl for Sts {
    open spec fn obeys_eq_spec() -> bool {
        true
    }

    /// Equality of sub-graphs looks at everything but what is known of the
    /// trace.
    open spec fn eq_spec(&self, other: &Self) -> bool {
        &&& self.name@ == other.name@
        &&& PartialEqSpec::eq_spec(&self.states, &other.states)
        &&& PartialEqSpec::eq_spec(&self.children, &other.children)
        &&& PartialEqSpec::eq_spec(&self.start_states, &other.start_states)
        &&& PartialEqSpec::eq_spec(&self.transitions, &other.transitions)
        &&& PartialEqSpec::eq_spec(&self.return_transitions, &other.return_transitions)
        &&& self.return_state.deep_view() == other.return_state.deep_view()
        &&& self.sts.deep_view() == other.sts.deep_view()
    }
}

impl Sts {
    pub fn new(
        name: String,
        states: Vec<State>,
        children: Vec<ChildModel>,
        start_states: Vec<StartState>,
        transitions: Vec<Transition>,
        return_transitions: Vec<Transition>,
        return_state: Option<String>,
        sts: Option<String>,
        trace_properties: Option<TraceProperties>,
    ) -> (graph: Sts)
        ensures
            graph.name == name,
            graph.states == states,
            graph.children == children,
            graph.start_states == start_states,
            graph.transitions == transitions,
            graph.return_transitions == return_transitions,
            graph.return_state == return_state,
            graph.sts == sts,
            graph.trace_properties == trace_properties,
    {
        Sts {
            name,
            states,
            children,
            start_states,
            transitions,
            return_transitions,
            return_state,
            sts,
            trace_properties,
        }
    }
}

/// A model, or a coverage run of it: the sub-graphs, the identity of the test
/// run and, for a coverage run, the identity of the trace it was made from.
#[derive(Debug, Clone, Eq)]
pub struct TestModel {
    pub test_run_id: u128,
    pub stss: Vec<Sts>,
    pub testcase_id: Option<i64>,
}

/// What a `TestModel` stands for.
pub struct TestModelView {
    pub test_run_id: u128,
    pub stss: Seq<StsView>,
    pub testcase_id: Option<i64>,
}

impl TestModelView {
    /// The transitions of all sub-graphs, one sub-graph after the other.
    pub open spec fn all_transitions(self) -> Seq<TransitionView> {
        self.stss.map_values(|g: StsView| g.transitions).flatten()
    }

    /// The states of all sub-graphs, one sub-graph after the other.
    pub open spec fn all_states(self) -> Seq<StateView> {
        self.stss.map_values(|g: StsView| g.states).flatten()
    }
}

impl DeepView for TestModel {
    type V = TestModelView;

    open spec fn deep_view(&self) -> TestModelView {
        TestModelView {
            test_run_id: self.test_run_id,
            stss: self.stss.deep_view(),
            testcase_id: self.testcase_id,
        }
    }
}

impl View for TestModel {
    type V = TestModelView;

    open spec fn view(&self) -> TestModelView {
        self.deep_view()
    }
}

impl PartialEq for TestModel {
    fn eq(&self, other: &Self) -> (same: bool) {
        self.test_run_id == other.test_run_id && self.stss == other.stss
    }
}

impl PartialEqSpecImpl for TestModel {
    open spec fn obeys_eq_spec() -> bool {
        true
    }

    /// Equality of models looks at everything but the identity of the trace.
    open spec fn eq_spec(&self, other: &Self) -> bool {
        self.test_run_id == other.test_run_id && PartialEqSpec::eq_spec(&self.stss, &other.stss)
    }
}

impl TestModel {
    pub fn new(test_run_id: u128, stss: Vec<Sts>, testcase_id: Option<i64>) -> (model: TestModel)
        ensures
            model.test_run_id == test_run_id,
            model.stss == stss,
            model.testcase_id == testcase_id,
    {
        TestModel { test_run_id, stss, testcase_id }
    }

    /// The transitions of all sub-graphs, one sub-graph after the other.
    pub fn all_transitions(&self) -> (all: Vec<Transition>)
        ensures
            all.deep_view() == self@.all_transitions(),
    {
        let mut all: Vec<Transition> = Vec::new();
        let ghost lists = self@.stss.map_values(|g: StsView| g.transitions);
        let mut i: usize = 0;
        while i < self.stss.len()
            invariant
                i <= self.stss.len(),
                lists == self@.stss.map_values(|g: StsView| g.transitions),
                all.deep_view() == lists.take(i as int).flatten(),
            decreases self.stss.len() - i,
        {
            let graph = &self.stss[i];
            let ghost before = all.deep_view();
            let mut j: usize = 0;
            while j < graph.transitions.len()
                invariant
                    j <= graph.transitions.len(),
                    all.deep_view() == before + graph.transitions.deep_view().take(j as int),
                decreases graph.transitions.len() - j,
            {
                let ghost items = all;
                let copy = graph.transitions[j].clone();
                all.push(copy);
                proof {
                    lemma_push_view(items, all, copy);
                    assert(all.deep_view() =~= before + graph.transitions.deep_view().take(
                        j + 1,
                    ));
                }
                j += 1;
            }
            proof {
                assert(graph.transitions.deep_view().take(graph.transitions.len() as int)
                    =~= graph.transitions.deep_view());
                assert(lists[i as int] == graph.transitions.deep_view());
                lemma_flatten_take(lists, i as int);
            }
            i += 1;
        }
        proof {
            assert(lists.take(self.stss.len() as int) =~= lists);
        }
        all
    }
}

impl TestModel {
    /// The states of all sub-graphs, one sub-graph after the other.
    pub fn all_states(&self) -> (all: Vec<State>)
        ensures
            all.deep_view() == self@.all_states(),
    {
        let mut all: Vec<State> = Vec::new();
        let ghost lists = self@.stss.map_values(|g: StsView| g.states);
        let mut i: usize = 0;
        while i < self.stss.len()
            invariant
                i <= self.stss.len(),
                lists == self@.stss.map_values(|g: StsView| g.states),
                all.deep_view() == lists.take(i as int).flatten(),
            decreases self.stss.len() - i,
        {
            let graph = &self.stss[i];
            let ghost before = all.deep_view();
            let mut j: usize = 0;
            while j < graph.states.len()
                invariant
                    j <= graph.states.len(),
                    all.deep_view() == before + graph.states.deep_view().take(j as int),
                decreases graph.states.len() - j,
            {
                let ghost items = all;
                let copy = graph.states[j].clone();
                all.push(copy);
                proof {
                    lemma_push_view(items, all, copy);
                    assert(all.deep_view() =~= before + graph.states.deep_view().take(j + 1));
                }
                j += 1;
            }
            proof {
                assert(graph.states.deep_view().take(graph.states.len() as int)
                    =~= graph.states.deep_view());
                assert(lists[i as int] == graph.states.deep_view());
                lemma_flatten_take(lists, i as int);
            }
            i += 1;
        }
        proof {
            assert(lists.take(self.stss.len() as int) =~= lists);
        }
        all
    }
}

/// Flattening the first `i + 1` lists is flattening the first `i` and adding
/// list `i`.
pub proof fn lemma_flatten_take<A>(lists: Seq<Seq<A>>, i: int)
    requires
        0 <= i < lists.len(),
    ensures
        lists.take(i + 1).flatten() == lists.take(i).flatten() + lists[i],
{
    let longer = lists.take(i + 1);
    assert(longer.drop_last() =~= lists.take(i));
    assert(longer.last() == lists[i]);
    longer.lemma_flatten_and_flatten_alt_are_equivalent();
    lists.take(i).lemma_flatten_and_flatten_alt_are_equivalent();
}

} // verus!
