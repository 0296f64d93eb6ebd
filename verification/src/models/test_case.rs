//! Executed test traces: steps with their labels and parameters, and the test
//! cases that hold them.
use crate::combinations::{get_pairs_with_length, windows};
use crate::correlation::{first_true, lemma_first_true, lemma_no_true};
use crate::models::model::{TestModel, TestModelView};
use crate::views::lemma_deep_view_index;
use crate::text::{
    clone_optional_text, clone_optional_texts, join, join_strings, same_optional_text,
    same_optional_texts, same_text,
};
use vstd::prelude::*;
use vstd::std_specs::cmp::PartialEqSpecImpl;
use vstd::string::*;

verus! {

/// A point in time: seconds since the Unix epoch and the nanoseconds within
/// that second.
#[derive(Debug, Clone, Copy, PartialEq, Eq, Structural, Hash)]
pub struct Timestamp {
    pub seconds: i64,
    pub nanoseconds: u32,
}

impl Timestamp {
    pub fn new(seconds: i64, nanoseconds: u32) -> (t: Timestamp)
        ensures
            t.seconds == seconds,
            t.nanoseconds == nanoseconds,
    {
        Timestamp { seconds, nanoseconds }
    }
}

/// The outcome of a test case.
#[derive(Debug, Clone, Copy, PartialEq, Eq, Structural, Hash)]
#[allow(non_camel_case_types)]
pub enum TestResult {
    passed,
    failed,
    error,
    unknown,
}

/// The value of a named step parameter.
#[derive(Debug, Eq)]
pub enum ParamValue {
    /// A string.
    Text(String),
    /// A number, held as the text it is written with.
    Number(String),
    /// A boolean.
    Bool(bool),
    /// No usable value: null or a structured value.
    Absent,
}

/// What a `ParamValue` stands for.
pub enum ParamValueView {
    Text(Seq<char>),
    Number(Seq<char>),
    Bool(bool),
    Absent,
}

impl DeepView for ParamValue {
    type V = ParamValueView;

    open spec fn deep_view(&self) -> ParamValueView {
        match self {
            ParamValue::Text(s) => ParamValueView::Text(s@),
            ParamValue::Number(s) => ParamValueView::Number(s@),
            ParamValue::Bool(b) => ParamValueView::Bool(*b),
            ParamValue::Absent => ParamValueView::Absent,
        }
    }
}

impl View for ParamValue {
    type V = ParamValueView;

    open spec fn view(&self) -> ParamValueView {
        self.deep_view()
    }
}

impl Clone for ParamValue {
    fn clone(&self) -> (copy: Self)
        ensures
            copy@ == self@,
    {
        match self {
            ParamValue::Text(s) => ParamValue::Text(s.clone()),
            ParamValue::Number(s) => ParamValue::Number(s.clone()),
            ParamValue::Bool(b) => ParamValue::Bool(*b),
            ParamValue::Absent => ParamValue::Absent,
        }
    }
}

impl PartialEq for ParamValue {
    fn eq(&self, other: &Self) -> (same: bool) {
        match self {
            ParamValue::Text(a) => match other {
                ParamValue::Text(b) => same_text(a.as_str(), b.as_str()),
                _ => false,
            },
            ParamValue::Number(a) => match other {
                ParamValue::Number(b) => same_text(a.as_str(), b.as_str()),
                _ => false,
            },
            ParamValue::Bool(a) => match other {
                ParamValue::Bool(b) => *a == *b,
                _ => false,
            },
            ParamValue::Absent => match other {
                ParamValue::Absent => true,
                _ => false,
            },
        }
    }
}

impl PartialEqSpecImpl for ParamValue {
    open spec fn obeys_eq_spec() -> bool {
        true
    }

    open spec fn eq_spec(&self, other: &Self) -> bool {
        self@ == other@
    }
}

/// The label of a step: its name, its direction and the channel it was seen on.
#[derive(Debug, Eq)]
pub struct Label {
    pub name: String,
    pub direction: String,
    pub channel: Option<String>,
}

/// What a `Label` stands for.
pub struct LabelView {
    pub name: Seq<char>,
    pub direction: Seq<char>,
    pub channel: Option<Seq<char>>,
}

impl DeepView for Label {
    type V = LabelView;

    open spec fn deep_view(&self) -> LabelView {
        LabelView {
            name: self.name@,
            direction: self.direction@,
            channel: self.channel.deep_view(),
        }
    }
}

impl View for Label {
    type V = LabelView;

    open spec fn view(&self) -> LabelView {
        self.deep_view()
    }
}

impl Label {
    pub fn new(name: String, direction: String, channel: Option<String>) -> (label: Label)
        ensures
            label.name == name,
            label.direction == direction,
            label.channel == channel,
    {
        Label { name, direction, channel }
    }
}

impl Clone for Label {
    fn clone(&self) -> (copy: Self)
        ensures
            copy@ == self@,
    {
        Label {
            name: self.name.clone(),
            direction: self.direction.clone(),
            channel: clone_optional_text(&self.channel),
        }
    }
}

impl PartialEq for Label {
    fn eq(&self, other: &Self) -> (same: bool) {
        same_text(self.name.as_str(), other.name.as_str()) && same_text(
            self.direction.as_str(),
            other.direction.as_str(),
        ) && same_optional_text(&self.channel, &other.channel)
    }
}

impl PartialEqSpecImpl for Label {
    open spec fn obeys_eq_spec() -> bool {
        true
    }

    open spec fn eq_spec(&self, other: &Self) -> bool {
        self@ == other@
    }
}

/// A copy of a list of parameters.
pub fn clone_parameters(a: &Vec<(String, ParamValue)>) -> (copy: Vec<(String, ParamValue)>)
    ensures
        copy.deep_view() == a.deep_view(),
{
    let mut copy: Vec<(String, ParamValue)> = Vec::new();
    let mut i: usize = 0;
    while i < a.len()
        invariant
            i <= a.len(),
            copy.len() == i,
            forall|j: int| 0 <= j < i ==> copy[j].deep_view() == a[j].deep_view(),
        decreases a.len() - i,
    {
        let entry = (a[i].0.clone(), a[i].1.clone());
        copy.push(entry);
        i += 1;
    }
    proof {
        assert(copy.deep_view() =~= a.deep_view());
    }
    copy
}

/// Whether two lists of parameters hold the same names and values in the same
/// order.
pub fn same_parameters(a: &Vec<(String, ParamValue)>, b: &Vec<(String, ParamValue)>) -> (same:
    bool)
    ensures
        same == (a.deep_view() == b.deep_view()),
{
    if a.len() != b.len() {
        proof {
            assert(a.deep_view().len() != b.deep_view().len());
        }
        return false;
    }
    let mut i: usize = 0;
    while i < a.len()
        invariant
            i <= a.len(),
            a.len() == b.len(),
            forall|j: int| 0 <= j < i ==> a[j].deep_view() == b[j].deep_view(),
        decreases a.len() - i,
    {
        if !(same_text(a[i].0.as_str(), b[i].0.as_str()) && a[i].1 == b[i].1) {
            proof {
                assert(a.deep_view()[i as int] == a[i as int].deep_view());
                assert(b.deep_view()[i as int] == b[i as int].deep_view());
            }
            return false;
        }
        i += 1;
    }
    proof {
        assert(a.deep_view() =~= b.deep_view());
    }
    true
}

/// One observed event of a trace.
#[derive(Debug, Eq)]
pub struct Step {
    pub label: Label,
    pub timestamp: Timestamp,
    pub notes: Option<Vec<String>>,
    pub step_number: i32,
    pub state_vector_size: Option<String>,
    pub advance_duration_ms: Option<String>,
    pub physical_label: Option<String>,
    pub label_parameters: Option<Vec<(String, ParamValue)>>,
}

/// What a `Step` stands for.
pub struct StepView {
    pub label: LabelView,
    pub timestamp: Timestamp,
    pub notes: Option<Seq<Seq<char>>>,
    pub step_number: i32,
    pub state_vector_size: Option<Seq<char>>,
    pub advance_duration_ms: Option<Seq<char>>,
    pub physical_label: Option<Seq<char>>,
    pub label_parameters: Option<Seq<(Seq<char>, ParamValueView)>>,
}

impl DeepView for Step {
    type V = StepView;

    open spec fn deep_view(&self) -> StepView {
        StepView {
            label: self.label@,
            timestamp: self.timestamp,
            notes: self.notes.deep_view(),
            step_number: self.step_number,
            state_vector_size: self.state_vector_size.deep_view(),
            advance_duration_ms: self.advance_duration_ms.deep_view(),
            physical_label: self.physical_label.deep_view(),
            label_parameters: self.label_parameters.deep_view(),
        }
    }
}

impl View for Step {
    type V = StepView;

    open spec fn view(&self) -> StepView {
        self.deep_view()
    }
}

impl Clone for Step {
    fn clone(&self) -> (copy: Self)
        ensures
            copy@ == self@,
    {
        Step {
            label: self.label.clone(),
            timestamp: self.timestamp,
            notes: clone_optional_texts(&self.notes),
            step_number: self.step_number,
            state_vector_size: clone_optional_text(&self.state_vector_size),
            advance_duration_ms: clone_optional_text(&self.advance_duration_ms),
            physical_label: clone_optional_text(&self.physical_label),
            label_parameters: match &self.label_parameters {
                Some(p) => Some(clone_parameters(p)),
                None => None,
            },
        }
    }
}

impl PartialEq for Step {
    fn eq(&self, other: &Self) -> (same: bool) {
        let same_parameters = match &self.label_parameters {
            Some(a) => match &other.label_parameters {
                Some(b) => same_parameters(a, b),
                None => false,
            },
            None => other.label_parameters.is_none(),
        };
        self.label == other.label && self.timestamp == other.timestamp && same_optional_texts(
            &self.notes,
            &other.notes,
        ) && self.step_number == other.step_number && same_optional_text(
            &self.state_vector_size,
            &other.state_vector_size,
        ) && same_optional_text(&self.advance_duration_ms, &other.advance_duration_ms)
            && same_optional_text(&self.physical_label, &other.physical_label)
            && same_parameters
    }
}

impl PartialEqSpecImpl for Step {
    open spec fn obeys_eq_spec() -> bool {
        true
    }

    open spec fn eq_spec(&self, other: &Self) -> bool {
        self@ == other@
    }
}

/// The sigil that a direction puts in front of a step's name: `?` for what
/// goes in, `!` for what comes out, nothing for any other direction.
pub open spec fn direction_sigil(direction: Seq<char>) -> Seq<char> {
    if direction == "in"@ || direction == "stimulus"@ {
        "?"@
    } else if direction == "out"@ || direction == "response"@ {
        "!"@
    } else {
        Seq::empty()
    }
}

/// One parameter as it stands in a label: `(name == "value")`, with `NULL` for
/// a value that is no string.
pub open spec fn parameter_clause(parameter: (Seq<char>, ParamValueView)) -> Seq<char> {
    let value = match parameter.1 {
        ParamValueView::Text(s) => s,
        _ => "NULL"@,
    };
    "("@ + parameter.0 + " == \""@ + value + "\")"@
}

/// The canonical label of a step: sigil and name, followed, where parameters
/// are asked for and there are any, by ` if (` and the parameter clauses joined
/// by ` && ` and `)`.
pub open spec fn full_label(step: StepView, include_parameters: bool) -> Seq<char> {
    let base = direction_sigil(step.label.direction) + step.label.name;
    if include_parameters && step.label_parameters is Some && step.label_parameters->0.len() > 0 {
        base + " if ("@ + join(
            step.label_parameters->0.map_values(
                |p: (Seq<char>, ParamValueView)| parameter_clause(p),
            ),
            " && "@,
        ) + ")"@
    } else {
        base
    }
}

impl Step {
    pub fn new(
        label: Label,
        timestamp: Timestamp,
        notes: Option<Vec<String>>,
        step_number: i32,
        state_vector_size: Option<String>,
        advance_duration_ms: Option<String>,
        physical_label: Option<String>,
        label_parameters: Option<Vec<(String, ParamValue)>>,
    ) -> (step: Step)
        ensures
            step.label == label,
            step.timestamp == timestamp,
            step.notes == notes,
            step.step_number == step_number,
            step.state_vector_size == state_vector_size,
            step.advance_duration_ms == advance_duration_ms,
            step.physical_label == physical_label,
            step.label_parameters == label_parameters,
    {
        Step {
            label,
            timestamp,
            notes,
            step_number,
            state_vector_size,
            advance_duration_ms,
            physical_label,
            label_parameters,
        }
    }

    /// The canonical label of this step, with or without its parameters.
    pub fn get_full_label_with_params(&self, include_parameters: bool) -> (label: String)
        ensures
            label@ == full_label(self@, include_parameters),
    {
        let mut full = String::new();
        let direction = self.label.direction.as_str();
        if same_text(direction, "in") || same_text(direction, "stimulus") {
            full.append("?");
        } else if same_text(direction, "out") || same_text(direction, "response") {
            full.append("!");
        }
        full.append(self.label.name.as_str());
        proof {
            assert(full@ =~= direction_sigil(self@.label.direction) + self@.label.name);
        }
        if include_parameters {
            if let Some(parameters) = &self.label_parameters {
                if parameters.len() > 0 {
                    let mut clauses: Vec<String> = Vec::new();
                    let mut i: usize = 0;
                    while i < parameters.len()
                        invariant
                            i <= parameters.len(),
                            clauses.len() == i,
                            forall|j: int|
                                0 <= j < i ==> clauses[j]@ == parameter_clause(
                                    #[trigger] parameters[j].deep_view(),
                                ),
                        decreases parameters.len() - i,
                    {
                        let mut clause = String::from_str("(");
                        clause.append(parameters[i].0.as_str());
                        clause.append(" == \"");
                        match &parameters[i].1 {
                            ParamValue::Text(s) => clause.append(s.as_str()),
                            _ => clause.append("NULL"),
                        }
                        clause.append("\")");
                        clauses.push(clause);
                        i += 1;
                    }
                    proof {
                        assert(clauses.deep_view() =~= parameters.deep_view().map_values(
                            |p: (Seq<char>, ParamValueView)| parameter_clause(p),
                        ));
                    }
                    full.append(" if (");
                    let joined = join_strings(&clauses, " && ");
                    full.append(joined.as_str());
                    full.append(")");
                }
            }
        }
        full
    }

    /// The canonical label of this step; with its parameters where labels carry
    /// transition data.
    pub fn get_full_label(&self, use_transition_data: bool) -> (label: String)
        ensures
            label@ == full_label(self@, use_transition_data),
    {
        self.get_full_label_with_params(use_transition_data)
    }
}

/// A label that a test expected to see.
#[derive(Debug, Clone, PartialEq, Eq)]
pub struct ExpectedLabel {
    pub label: Label,
}

impl ExpectedLabel {
    /// The deadline is accepted and not kept.
    pub fn new(label: Label, deadline: Option<Timestamp>) -> (expected: ExpectedLabel)
        ensures
            expected.label == label,
    {
        ExpectedLabel { label }
    }
}

/// A trace: an ordered sequence of steps with its identity and its outcome.
#[derive(Debug, Clone, PartialEq)]
pub struct TestCase {
    pub id: Option<i64>,
    pub verdict: Option<TestResult>,
    pub error_message: Option<String>,
    pub steps: Vec<Step>,
    pub last_step: i32,
    pub expected_labels: Option<Vec<ExpectedLabel>>,
    pub tags: Option<Vec<String>>,
}

/// What the analysis reads of a `TestCase`.
pub struct TestCaseView {
    pub id: Option<i64>,
    pub verdict: Option<TestResult>,
    pub error_message: Option<Seq<char>>,
    pub steps: Seq<StepView>,
    pub last_step: i32,
    pub tags: Option<Seq<Seq<char>>>,
}

impl TestCaseView {
    /// Whether the trace passed.
    pub open spec fn passed(self) -> bool {
        self.verdict == Some(TestResult::passed)
    }
}

impl DeepView for TestCase {
    type V = TestCaseView;

    open spec fn deep_view(&self) -> TestCaseView {
        TestCaseView {
            id: self.id,
            verdict: self.verdict,
            error_message: self.error_message.deep_view(),
            steps: self.steps.deep_view(),
            last_step: self.last_step,
            tags: self.tags.deep_view(),
        }
    }
}

impl View for TestCase {
    type V = TestCaseView;

    open spec fn view(&self) -> TestCaseView {
        self.deep_view()
    }
}

/// All contiguous windows of `length` steps of `steps`.
pub fn step_windows(length: usize, steps: &Vec<Step>) -> (all: Vec<Vec<Step>>)
    ensures
        all.deep_view() == windows(steps.deep_view(), length as nat),
{
    let all = get_pairs_with_length(length, steps);
    proof {
        let got = all.deep_view();
        let want = windows(steps.deep_view(), length as nat);
        assert(got.len() == want.len());
        assert forall|i: int| 0 <= i < got.len() implies got[i] == want[i] by {
            assert(all[i].len() == length);
            assert forall|p: int| 0 <= p < length implies got[i][p] == want[i][p] by {
                assert(cloned(steps[i + p], all[i][p]));
            }
            assert(got[i] =~= want[i]);
        }
        assert(got =~= want);
    }
    all
}

/// Each two steps that follow one another: for a trace of fewer than two
/// steps none, else one pair less than there are steps.
pub open spec fn step_tuples(steps: Seq<StepView>) -> Seq<(StepView, StepView)> {
    Seq::new(
        if steps.len() >= 1 {
            (steps.len() - 1) as nat
        } else {
            0
        },
        |i: int| (steps[i], steps[i + 1]),
    )
}

impl TestCase {
    pub fn new(
        id: Option<i64>,
        verdict: Option<TestResult>,
        error_message: Option<String>,
        steps: Vec<Step>,
        last_step: i32,
        expected_labels: Option<Vec<ExpectedLabel>>,
        tags: Option<Vec<String>>,
    ) -> (testcase: TestCase)
        ensures
            testcase.id == id,
            testcase.verdict == verdict,
            testcase.error_message == error_message,
            testcase.steps == steps,
            testcase.last_step == last_step,
            testcase.expected_labels == expected_labels,
            testcase.tags == tags,
    {
        TestCase { id, verdict, error_message, steps, last_step, expected_labels, tags }
    }

    /// Whether the outcome of this trace is "passed".
    pub fn has_passed(&self) -> (passed: bool)
        ensures
            passed == self@.passed(),
    {
        match self.verdict {
            Some(TestResult::passed) => true,
            _ => false,
        }
    }

    /// The labels of the steps of this trace, in order.
    pub fn get_steps(&self, use_transition_data: bool) -> (labels: Vec<String>)
        ensures
            labels.deep_view() == self@.steps.map_values(
                |s: StepView| full_label(s, use_transition_data),
            ),
    {
        let mut labels: Vec<String> = Vec::new();
        let mut i: usize = 0;
        while i < self.steps.len()
            invariant
                i <= self.steps.len(),
                labels.len() == i,
                forall|j: int|
                    0 <= j < i ==> labels[j]@ == full_label(self.steps[j]@, use_transition_data),
            decreases self.steps.len() - i,
        {
            labels.push(self.steps[i].get_full_label(use_transition_data));
            i += 1;
        }
        proof {
            assert(labels.deep_view() =~= self@.steps.map_values(
                |s: StepView| full_label(s, use_transition_data),
            ));
        }
        labels
    }

    /// The windows of `len` steps of this trace: none for a length of zero, and
    /// none where the trace is shorter than `len`.
    pub fn get_step_combinations(&self, len: usize) -> (combinations: Vec<Vec<Step>>)
        ensures
            combinations.deep_view() == windows(self@.steps, len as nat),
    {
        step_windows(len, &self.steps)
    }

    /// Each two steps that follow one another in this trace; none for a trace
    /// of fewer than two steps.
    pub fn get_step_tuples(&self) -> (tuples: Vec<(Step, Step)>)
        ensures
            tuples.deep_view() == step_tuples(self@.steps),
    {
        let mut tuples: Vec<(Step, Step)> = Vec::new();
        if self.steps.len() < 2 {
            proof {
                assert(tuples.deep_view() =~= step_tuples(self@.steps));
            }
            return tuples;
        }
        let mut i: usize = 0;
        while i + 1 < self.steps.len()
            invariant
                i + 1 <= self.steps.len(),
                tuples.len() == i,
                forall|j: int|
                    0 <= j < i ==> (#[trigger] tuples[j]).0@ == self.steps[j]@ && tuples[j].1@
                        == self.steps[j + 1]@,
            decreases self.steps.len() - i,
        {
            let pair = (self.steps[i].clone(), self.steps[i + 1].clone());
            tuples.push(pair);
            i += 1;
        }
        proof {
            assert(tuples.deep_view() =~= step_tuples(self@.steps));
        }
        tuples
    }

    /// The coverage run that was made from this trace: the first of
    /// `coverage_information` that carries this trace's identity.
    pub fn to_coverage_model<'a>(&self, coverage_information: &'a Vec<TestModel>) -> (found:
        Option<&'a TestModel>)
        ensures
            found.deep_view() == coverage_run(self@, coverage_information.deep_view()),
    {
        let ghost flags = coverage_information.deep_view().map_values(
            |run: TestModelView| run.testcase_id == self.id,
        );
        proof {
            lemma_deep_view_index(*coverage_information);
        }
        let mut i: usize = 0;
        while i < coverage_information.len()
            invariant
                i <= coverage_information.len(),
                coverage_information.deep_view().len() == coverage_information.len(),
                forall|a: int|
                    0 <= a < coverage_information.len() ==> coverage_information.deep_view()[a] == (
                    #[trigger] coverage_information[a])@,
                flags == coverage_information.deep_view().map_values(
                    |run: TestModelView| run.testcase_id == self.id,
                ),
                forall|a: int| 0 <= a < i ==> !flags[a],
            decreases coverage_information.len() - i,
        {
            if coverage_information[i].testcase_id == self.id {
                proof {
                    assert(flags[i as int]);
                    lemma_first_true(flags, i as int);
                }
                return Some(&coverage_information[i]);
            }
            i += 1;
        }
        proof {
            lemma_no_true(flags);
        }
        None
    }
}

/// The coverage run that was made from a trace: the first of `runs` that
/// carries the identity of the trace.
pub open spec fn coverage_run(case: TestCaseView, runs: Seq<TestModelView>) -> Option<
    TestModelView,
> {
    match first_true(runs.map_values(|run: TestModelView| run.testcase_id == case.id)) {
        Some(i) => Some(runs[i]),
        None => None,
    }
}

/// The test cases of one test run.
#[derive(Debug, Clone, PartialEq)]
pub struct TestRun {
    pub test_run_id: Option<u128>,
    pub test_cases: Vec<TestCase>,
}

} // verus!
