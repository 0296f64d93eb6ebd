//! The verdict of an analysis.
use crate::models::model::{State, StateView, Transition, TransitionView};
use crate::models::test_case::{Step, StepView};
use crate::text::same_text;
use crate::views::lemma_deep_view_index;
use vstd::prelude::*;
use vstd::std_specs::cmp::PartialEqSpecImpl;
use vstd::string::*;

verus! {

/// The outcome of an analysis, a readable group name with the faulty state or the faulty
/// transition where one was identified, and the steps of the trace that are
/// taken for the root cause.
#[derive(Debug, Eq)]
pub struct AnalysisResult {
    pub group_name: String,
    pub root_cause_state: Option<State>,
    pub root_cause_transition: Option<Transition>,
    pub root_cause_steps: Vec<Step>,
}

/// What an `AnalysisResult` stands for.
pub struct AnalysisResultView {
    pub group_name: Seq<char>,
    pub root_cause_state: Option<StateView>,
    pub root_cause_transition: Option<TransitionView>,
    pub root_cause_steps: Seq<StepView>,
}

impl AnalysisResultView {
    /// Equality of verdicts: the same group name, the same state and the same
    /// transition but for their coverage flags, and the same steps.
    pub open spec fn same_as(self, other: AnalysisResultView) -> bool {
        &&& self.group_name == other.group_name
        &&& match (self.root_cause_state, other.root_cause_state) {
            (Some(a), Some(b)) => a.same_as(b),
            (None, None) => true,
            _ => false,
        }
        &&& match (self.root_cause_transition, other.root_cause_transition) {
            (Some(a), Some(b)) => a.same_as(b),
            (None, None) => true,
            _ => false,
        }
        &&& self.root_cause_steps == other.root_cause_steps
    }
}

impl DeepView for AnalysisResult {
    type V = AnalysisResultView;

    open spec fn deep_view(&self) -> AnalysisResultView {
        AnalysisResultView {
            group_name: self.group_name@,
            root_cause_state: self.root_cause_state.deep_view(),
            root_cause_transition: self.root_cause_transition.deep_view(),
            root_cause_steps: self.root_cause_steps.deep_view(),
        }
    }
}

impl View for AnalysisResult {
    type V = AnalysisResultView;

    open spec fn view(&self) -> AnalysisResultView {
        self.deep_view()
    }
}

/// A copy of a list of steps.
pub fn clone_steps(steps: &Vec<Step>) -> (copy: Vec<Step>)
    ensures
        copy.deep_view() == steps.deep_view(),
{
    let mut copy: Vec<Step> = Vec::new();
    let mut i: usize = 0;
    while i < steps.len()
        invariant
            i <= steps.len(),
            copy.len() == i,
            forall|a: int| 0 <= a < i ==> (#[trigger] copy[a])@ == steps[a]@,
        decreases steps.len() - i,
    {
        copy.push(steps[i].clone());
        i += 1;
    }
    proof {
        assert(copy.deep_view() =~= steps.deep_view());
    }
    copy
}

/// Whether two lists of steps hold equal steps in the same order.
pub fn same_steps(a: &Vec<Step>, b: &Vec<Step>) -> (same: bool)
    ensures
        same == (a.deep_view() == b.deep_view()),
{
    proof {
        lemma_deep_view_index(*a);
        lemma_deep_view_index(*b);
    }
    if a.len() != b.len() {
        return false;
    }
    let mut i: usize = 0;
    while i < a.len()
        invariant
            i <= a.len(),
            a.len() == b.len(),
            a.deep_view().len() == a.len(),
            b.deep_view().len() == b.len(),
            forall|j: int| 0 <= j < a.len() ==> a.deep_view()[j] == (#[trigger] a[j])@,
            forall|j: int| 0 <= j < b.len() ==> b.deep_view()[j] == (#[trigger] b[j])@,
            forall|j: int| 0 <= j < i ==> a[j]@ == b[j]@,
        decreases a.len() - i,
    {
        if a[i] != b[i] {
            proof {
                assert(a.deep_view()[i as int] != b.deep_view()[i as int]);
            }
            return false;
        }
        i += 1;
    }
    proof {
        assert(a.deep_view() =~= b.deep_view());
    }
    true
}

impl AnalysisResult {
    /// A verdict; without steps it has none.
    pub fn new(
        group_name: String,
        root_cause_state: Option<State>,
        root_cause_transition: Option<Transition>,
        root_cause_steps: Option<Vec<Step>>,
    ) -> (result: AnalysisResult)
        ensures
            result.group_name == group_name,
            result.root_cause_state == root_cause_state,
            result.root_cause_transition == root_cause_transition,
            match root_cause_steps {
                Some(steps) => result.root_cause_steps == steps,
                None => result.root_cause_steps@ == Seq::<Step>::empty(),
            },
    {
        let rcs = match root_cause_steps {
            Some(r) => r,
            None => Vec::new(),
        };
        AnalysisResult { group_name, root_cause_state, root_cause_transition, root_cause_steps: rcs }
    }
}

impl Clone for AnalysisResult {
    fn clone(&self) -> (copy: Self)
        ensures
            copy@ == self@,
    {
        AnalysisResult {
            group_name: self.group_name.clone(),
            root_cause_state: match &self.root_cause_state {
                Some(state) => Some(state.clone()),
                None => None,
            },
            root_cause_transition: match &self.root_cause_transition {
                Some(transition) => Some(transition.clone()),
                None => None,
            },
            root_cause_steps: clone_steps(&self.root_cause_steps),
        }
    }
}

impl PartialEq for AnalysisResult {
    fn eq(&self, other: &Self) -> (same: bool) {
        let same_state = match &self.root_cause_state {
            Some(a) => match &other.root_cause_state {
                Some(b) => *a == *b,
                None => false,
            },
            None => other.root_cause_state.is_none(),
        };
        let same_transition = match &self.root_cause_transition {
            Some(a) => match &other.root_cause_transition {
                Some(b) => *a == *b,
                None => false,
            },
            None => other.root_cause_transition.is_none(),
        };
        same_text(self.group_name.as_str(), other.group_name.as_str()) && same_state
            && same_transition && same_steps(&self.root_cause_steps, &other.root_cause_steps)
    }
}

impl PartialEqSpecImpl for AnalysisResult {
    open spec fn obeys_eq_spec() -> bool {
        true
    }

    open spec fn eq_spec(&self, other: &Self) -> bool {
        self@.same_as(other@)
    }
}

} // verus!
