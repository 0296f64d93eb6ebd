//! The fault localization engine: training the coverage matrix from the stored
//! corpus, and analysing a trace against it.
use crate::combinations::windows;
use crate::correlation::{
    correlate_step, correlate_transition, step_to_transition, transition_to_step,
};
use crate::models::analysis_result::{AnalysisResult, AnalysisResultView};
use crate::models::coverage_matrix::{CoverageMatrix, CoverageMatrixView};
use crate::models::coverage_sources::{key_of_window, model_matrix, run_failed, window_key};
use crate::models::model::{transition_key, TestModelView, Transition, TransitionView};
use crate::models::test_case::{
    coverage_run, step_windows, Step, StepView, TestCase, TestCaseView,
};
use crate::ordering::{order_transitions, ordered};
use crate::settings::{Analysis, AnalysisView};
use crate::similarity::{
    column_similarity, law_no_failure_no_suspicion, score_exceeds, similarity, Similarity,
};
use crate::storage_service::{StorageService, StorageServiceView};
use crate::verdict::{correct, no_problem, reduce, verdict};
use crate::views::{lemma_deep_view_index, lemma_push_view};
use vstd::prelude::*;
use vstd::string::*;

verus! {

/// The element under `key` is suspicious: its similarity with the failures
/// exceeds the threshold.
pub open spec fn is_suspicious(key: Seq<char>, matrix: CoverageMatrixView, settings: AnalysisView) -> bool {
    score_exceeds(similarity(matrix, key), settings.similarity_threshold)
}

/// A transition of the coverage run of a trace is suspicious: it was covered,
/// it stands for a step of the trace, and its column is suspicious.
pub open spec fn suspicious_transition(
    t: TransitionView,
    steps: Seq<StepView>,
    matrix: CoverageMatrixView,
    settings: AnalysisView,
) -> bool {
    &&& t.is_covered()
    &&& transition_to_step(t, steps) is Some
    &&& is_suspicious(transition_key(t, settings.use_transition_data), matrix, settings)
}

/// The suspicious ones of the transitions of a coverage run, in order.
pub open spec fn suspicious_transitions(
    coverage: Seq<TransitionView>,
    steps: Seq<StepView>,
    matrix: CoverageMatrixView,
    settings: AnalysisView,
) -> Seq<TransitionView>
    decreases coverage.len(),
{
    if coverage.len() == 0 {
        Seq::empty()
    } else {
        let rest = suspicious_transitions(coverage.drop_last(), steps, matrix, settings);
        if suspicious_transition(coverage.last(), steps, matrix, settings) {
            rest.push(coverage.last())
        } else {
            rest
        }
    }
}

/// The transitions that the steps of a window stand for, in order. A step that
/// stands for none is left out.
pub open spec fn window_transitions(window: Seq<StepView>, transitions: Seq<TransitionView>) -> Seq<
    TransitionView,
>
    decreases window.len(),
{
    if window.len() == 0 {
        Seq::empty()
    } else {
        let rest = window_transitions(window.drop_last(), transitions);
        match step_to_transition(window.last(), transitions) {
            Some(t) => rest.push(t),
            None => rest,
        }
    }
}

/// Each of the transitions stands for a step of the trace.
pub open spec fn correlates_back(ts: Seq<TransitionView>, steps: Seq<StepView>) -> bool {
    forall|i: int| 0 <= i < ts.len() ==> transition_to_step(#[trigger] ts[i], steps) is Some
}

/// A window of transitions is suspicious: each of its transitions stands for a
/// step of the trace, and the column of the window is suspicious.
pub open spec fn suspicious_window(
    ts: Seq<TransitionView>,
    steps: Seq<StepView>,
    matrix: CoverageMatrixView,
    settings: AnalysisView,
) -> bool {
    correlates_back(ts, steps) && is_suspicious(
        window_key(ts, settings.use_transition_data),
        matrix,
        settings,
    )
}

/// The transitions of the suspicious ones among the given windows of steps,
/// window after window.
pub open spec fn suspicious_windows(
    step_windows: Seq<Seq<StepView>>,
    transitions: Seq<TransitionView>,
    steps: Seq<StepView>,
    matrix: CoverageMatrixView,
    settings: AnalysisView,
) -> Seq<TransitionView>
    decreases step_windows.len(),
{
    if step_windows.len() == 0 {
        Seq::empty()
    } else {
        let rest = suspicious_windows(step_windows.drop_last(), transitions, steps, matrix, settings);
        let ts = window_transitions(step_windows.last(), transitions);
        if suspicious_window(ts, steps, matrix, settings) {
            rest + ts
        } else {
            rest
        }
    }
}

/// The windows of a trace that the analysis looks at: for each length from 2
/// up to `pairs + 1`, the windows of that length, the shorter ones first.
pub open spec fn pair_windows(steps: Seq<StepView>, pairs: int) -> Seq<Seq<StepView>>
    decreases pairs,
{
    if pairs <= 0 {
        Seq::empty()
    } else {
        pair_windows(steps, pairs - 1) + windows(steps, (pairs + 1) as nat)
    }
}

/// The ordered set of the problematic transitions of a trace that did not
/// pass: the suspicious transitions of its coverage run, or of the model where
/// it has no coverage run, with the transitions of its suspicious windows.
pub open spec fn problematic(
    case: TestCaseView,
    model: TestModelView,
    matrix: CoverageMatrixView,
    runs: Seq<TestModelView>,
    settings: AnalysisView,
) -> Seq<TransitionView> {
    let coverage = match coverage_run(case, runs) {
        Some(run) => run,
        None => model,
    };
    ordered(
        suspicious_transitions(coverage.all_transitions(), case.steps, matrix, settings)
            + suspicious_windows(
            pair_windows(case.steps, settings.number_of_pairs_to_include_for_order as int),
            model.all_transitions(),
            case.steps,
            matrix,
            settings,
        ),
    )
}

/// The verdict on a trace. A trace that passed is correct. For any other
/// trace there is a verdict where the store has a model and a trained matrix,
/// and none where it lacks either.
pub open spec fn analysis(case: TestCaseView, store: StorageServiceView, settings: AnalysisView) -> Option<
    AnalysisResultView,
> {
    if case.passed() {
        Some(correct())
    } else if store.model is None || store.coverage_matrix is None {
        None
    } else {
        Some(
            verdict(
                problematic(
                    case,
                    store.model->0,
                    store.coverage_matrix->0,
                    store.coverage_information,
                    settings,
                ),
                case.steps,
                store.model->0.all_states(),
            ),
        )
    }
}

/// The windows of one length of the traces of a list, trace after trace.
pub open spec fn case_windows(cases: Seq<TestCaseView>, length: nat) -> Seq<Seq<StepView>>
    decreases cases.len(),
{
    if cases.len() == 0 {
        Seq::empty()
    } else {
        case_windows(cases.drop_last(), length) + windows(cases.last().steps, length)
    }
}

/// The windows that training draws from the stored traces: for each length
/// from 2 up to `pairs + 1`, the windows of that length of the passing traces
/// and then of the failing traces.
pub open spec fn corpus_windows(
    passing: Seq<TestCaseView>,
    failing: Seq<TestCaseView>,
    pairs: int,
) -> Seq<Seq<StepView>>
    decreases pairs,
{
    if pairs <= 0 {
        Seq::empty()
    } else {
        corpus_windows(passing, failing, pairs - 1) + case_windows(passing, (pairs + 1) as nat)
            + case_windows(failing, (pairs + 1) as nat)
    }
}

/// The windows of transitions that windows of steps stand for.
pub open spec fn transition_windows(
    step_windows: Seq<Seq<StepView>>,
    transitions: Seq<TransitionView>,
) -> Seq<Seq<TransitionView>> {
    step_windows.map_values(|w: Seq<StepView>| window_transitions(w, transitions))
}

/// The matrix with a column for each transition of the stored coverage runs.
pub open spec fn singleton_matrix(store: StorageServiceView, settings: AnalysisView) -> CoverageMatrixView {
    model_matrix(store.coverage_information, None, settings.use_transition_data)
}

/// The matrix with a column for each window of transitions that training
/// draws from the stored traces.
pub open spec fn pair_matrix(store: StorageServiceView, settings: AnalysisView) -> CoverageMatrixView {
    model_matrix(
        store.coverage_information,
        Some(
            transition_windows(
                corpus_windows(
                    store.passing,
                    store.failing,
                    settings.number_of_pairs_to_include_for_order as int,
                ),
                store.model->0.all_transitions(),
            ),
        ),
        settings.use_transition_data,
    )
}

/// Training can be done: the store has a model.
pub open spec fn trainable(store: StorageServiceView) -> bool {
    store.model is Some
}

/// The matrix that training publishes: the singleton matrix merged with the
/// pair matrix.
pub open spec fn trained_matrix(store: StorageServiceView, settings: AnalysisView) -> CoverageMatrixView {
    singleton_matrix(store, settings).append(pair_matrix(store, settings))->0
}

/// What names the failure of training where the store has no model.
pub open spec fn no_model() -> Seq<char> {
    "There is no model to train with"@
}

/// Adds copies of `more` to the end of `found`.
pub fn extend_transitions(found: &mut Vec<Transition>, more: &Vec<Transition>)
    ensures
        final(found).deep_view() == old(found).deep_view() + more.deep_view(),
{
    let ghost before = found.deep_view();
    let mut i: usize = 0;
    proof {
        assert(more.deep_view().take(0) =~= Seq::empty());
        assert(found.deep_view() =~= before + more.deep_view().take(0));
    }
    while i < more.len()
        invariant
            i <= more.len(),
            found.deep_view() == before + more.deep_view().take(i as int),
        decreases more.len() - i,
    {
        let ghost old_found = *found;
        let copy = more[i].clone();
        found.push(copy);
        proof {
            lemma_push_view(old_found, *found, copy);
            lemma_deep_view_index(*more);
            assert(found.deep_view() =~= before + more.deep_view().take(i + 1));
        }
        i += 1;
    }
    proof {
        assert(more.deep_view().take(more.len() as int) =~= more.deep_view());
    }
}

/// Moves the windows of `more` to the end of `all`.
pub fn extend_windows(all: &mut Vec<Vec<Step>>, more: Vec<Vec<Step>>)
    ensures
        final(all).deep_view() == old(all).deep_view() + more.deep_view(),
{
    let ghost before = all.deep_view();
    let ghost wanted = more.deep_view();
    let mut more = more;
    all.append(&mut more);
    proof {
        assert(all.deep_view() =~= before + wanted);
    }
}

/// The transitions that the steps of a window stand for.
pub fn correlate_window(window: &Vec<Step>, transitions: &Vec<Transition>) -> (found: Vec<
    Transition,
>)
    ensures
        found.deep_view() == window_transitions(window.deep_view(), transitions.deep_view()),
{
    let mut found: Vec<Transition> = Vec::new();
    proof {
        assert(window.deep_view().take(0) =~= Seq::empty());
        assert(found.deep_view() =~= Seq::empty());
    }
    let mut i: usize = 0;
    while i < window.len()
        invariant
            i <= window.len(),
            found.deep_view() == window_transitions(
                window.deep_view().take(i as int),
                transitions.deep_view(),
            ),
        decreases window.len() - i,
    {
        proof {
            let upto = window.deep_view().take(i + 1);
            assert(upto.drop_last() =~= window.deep_view().take(i as int));
            assert(upto.last() == window[i as int]@);
        }
        match correlate_step(&window[i], transitions) {
            Some(place) => {
                let ghost before = found;
                let copy = transitions[place].clone();
                found.push(copy);
                proof {
                    lemma_push_view(before, found, copy);
                }
            },
            None => {},
        }
        i += 1;
    }
    proof {
        assert(window.deep_view().take(window.len() as int) =~= window.deep_view());
    }
    found
}

/// Whether each of the transitions stands for a step of the trace.
pub fn all_correlate_back(ts: &Vec<Transition>, steps: &Vec<Step>) -> (all: bool)
    ensures
        all == correlates_back(ts.deep_view(), steps.deep_view()),
{
    proof {
        lemma_deep_view_index(*ts);
    }
    let mut i: usize = 0;
    while i < ts.len()
        invariant
            i <= ts.len(),
            ts.deep_view().len() == ts.len(),
            forall|a: int| 0 <= a < ts.len() ==> ts.deep_view()[a] == (#[trigger] ts[a])@,
            forall|a: int|
                0 <= a < i ==> transition_to_step(#[trigger] ts.deep_view()[a], steps.deep_view())
                    is Some,
        decreases ts.len() - i,
    {
        if correlate_transition(&ts[i], steps).is_none() {
            proof {
                assert(transition_to_step(ts.deep_view()[i as int], steps.deep_view()) is None);
            }
            return false;
        }
        i += 1;
    }
    true
}

/// What an engine offers. The engine of this library is `AnalysisService`;
/// another one can stand in for it.
pub trait AnalysisServiceTrait {
    /// Trains from the stored corpus and publishes the trained matrix.
    fn train(&self, storage: &mut StorageService, settings: &Analysis) -> Result<(), String>;

    /// The outcome of the analysis of a trace.
    fn analyse(&self, testcase: TestCase, storage: &StorageService, settings: &Analysis) -> Option<
        AnalysisResult,
    >;

    /// The similarity of a column of a matrix with the failures.
    fn similarity_coefficient(&self, step_j: &str, coverage_matrix: &CoverageMatrix) -> Similarity;
}

/// The engine.
#[derive(Debug, Clone, Copy, PartialEq, Eq, Structural)]
pub struct AnalysisService {}

impl AnalysisServiceTrait for AnalysisService {
    fn train(&self, storage: &mut StorageService, settings: &Analysis) -> (outcome: Result<
        (),
        String,
    >)
        ensures
            match outcome {
                Ok(_) => trainable(old(storage)@) && final(storage)@ == (StorageServiceView {
                    coverage_matrix: Some(trained_matrix(old(storage)@, settings@)),
                    ..old(storage)@
                }),
                Err(_) => !trainable(old(storage)@) && final(storage)@ == old(storage)@,
            },
    {
        AnalysisService::train(self, storage, settings)
    }

    fn analyse(&self, testcase: TestCase, storage: &StorageService, settings: &Analysis) -> (result:
        Option<AnalysisResult>)
        ensures
            result.deep_view() == analysis(testcase@, storage@, settings@),
    {
        AnalysisService::analyse(self, testcase, storage, settings)
    }

    fn similarity_coefficient(&self, step_j: &str, coverage_matrix: &CoverageMatrix) -> (found:
        Similarity)
        ensures
            found@ == similarity(coverage_matrix@, step_j@),
    {
        AnalysisService::similarity_coefficient(self, step_j, coverage_matrix)
    }
}

impl AnalysisService {
    /// The similarity of the column under `step_j` with the failures of
    /// `coverage_matrix`; all counts are zero where the matrix has no such
    /// column.
    pub fn similarity_coefficient(&self, step_j: &str, coverage_matrix: &CoverageMatrix) -> (found:
        Similarity)
        ensures
            found@ == similarity(coverage_matrix@, step_j@),
    {
        column_similarity(step_j, coverage_matrix)
    }

    /// The suspicious ones of the transitions of a coverage run.
    pub fn suspicious_of_run(
        &self,
        coverage: &Vec<Transition>,
        steps: &Vec<Step>,
        matrix: &CoverageMatrix,
        settings: &Analysis,
    ) -> (found: Vec<Transition>)
        ensures
            found.deep_view() == suspicious_transitions(
                coverage.deep_view(),
                steps.deep_view(),
                matrix@,
                settings@,
            ),
    {
        let mut found: Vec<Transition> = Vec::new();
        proof {
            assert(coverage.deep_view().take(0) =~= Seq::empty());
            assert(found.deep_view() =~= Seq::empty());
        }
        let mut i: usize = 0;
        while i < coverage.len()
            invariant
                i <= coverage.len(),
                found.deep_view() == suspicious_transitions(
                    coverage.deep_view().take(i as int),
                    steps.deep_view(),
                    matrix@,
                    settings@,
                ),
            decreases coverage.len() - i,
        {
            proof {
                let upto = coverage.deep_view().take(i + 1);
                assert(upto.drop_last() =~= coverage.deep_view().take(i as int));
                assert(upto.last() == coverage[i as int]@);
            }
            let t = &coverage[i];
            let covered = match t.attributes.covered {
                Some(flag) => flag,
                None => false,
            };
            if covered && correlate_transition(t, steps).is_some() {
                let key = t.to_string(settings.use_transition_data);
                let score = self.similarity_coefficient(key.as_str(), matrix);
                if score.exceeds(&settings.similarity_threshold) {
                    let ghost before = found;
                    let copy = t.clone();
                    found.push(copy);
                    proof {
                        lemma_push_view(before, found, copy);
                    }
                }
            }
            i += 1;
        }
        proof {
            assert(coverage.deep_view().take(coverage.len() as int) =~= coverage.deep_view());
        }
        found
    }

    /// The transitions of the suspicious ones among the given windows of steps.
    pub fn suspicious_of_windows(
        &self,
        windows: &Vec<Vec<Step>>,
        transitions: &Vec<Transition>,
        steps: &Vec<Step>,
        matrix: &CoverageMatrix,
        settings: &Analysis,
    ) -> (found: Vec<Transition>)
        ensures
            found.deep_view() == suspicious_windows(
                windows.deep_view(),
                transitions.deep_view(),
                steps.deep_view(),
                matrix@,
                settings@,
            ),
    {
        let mut found: Vec<Transition> = Vec::new();
        proof {
            assert(windows.deep_view().take(0) =~= Seq::empty());
            assert(found.deep_view() =~= Seq::empty());
        }
        let mut i: usize = 0;
        while i < windows.len()
            invariant
                i <= windows.len(),
                found.deep_view() == suspicious_windows(
                    windows.deep_view().take(i as int),
                    transitions.deep_view(),
                    steps.deep_view(),
                    matrix@,
                    settings@,
                ),
            decreases windows.len() - i,
        {
            proof {
                lemma_deep_view_index(*windows);
                let upto = windows.deep_view().take(i + 1);
                assert(upto.drop_last() =~= windows.deep_view().take(i as int));
                assert(upto.last() == windows[i as int].deep_view());
            }
            let ts = correlate_window(&windows[i], transitions);
            if all_correlate_back(&ts, steps) {
                let key = key_of_window(&ts, settings.use_transition_data);
                let score = self.similarity_coefficient(key.as_str(), matrix);
                if score.exceeds(&settings.similarity_threshold) {
                    extend_transitions(&mut found, &ts);
                }
            }
            i += 1;
        }
        proof {
            assert(windows.deep_view().take(windows.len() as int) =~= windows.deep_view());
        }
        found
    }

    /// The verdict on a trace: see `analysis`.
    pub fn analyse(&self, testcase: TestCase, storage: &StorageService, settings: &Analysis) -> (result:
        Option<AnalysisResult>)
        ensures
            result.deep_view() == analysis(testcase@, storage@, settings@),
    {
        if testcase.has_passed() {
            let result = AnalysisResult::new(String::from_str("Correct"), None, None, None);
            proof {
                assert(result.root_cause_steps.deep_view() =~= Seq::<StepView>::empty());
            }
            return Some(result);
        }
        let model = match &storage.model {
            Some(model) => model,
            None => {
                return None;
            },
        };
        let matrix = match &storage.coverage_matrix {
            Some(matrix) => matrix,
            None => {
                return None;
            },
        };
        let coverage = match testcase.to_coverage_model(&storage.coverage_information) {
            Some(run) => run.all_transitions(),
            None => model.all_transitions(),
        };
        let mut found = self.suspicious_of_run(&coverage, &testcase.steps, matrix, settings);
        let transitions = model.all_transitions();
        let windows = windows_of_trace(
            &testcase.steps,
            settings.number_of_pairs_to_include_for_order,
        );
        let paired = self.suspicious_of_windows(
            &windows,
            &transitions,
            &testcase.steps,
            matrix,
            settings,
        );
        extend_transitions(&mut found, &paired);
        let sorted = order_transitions(&found);
        Some(reduce(&sorted, &testcase.steps, model))
    }

    /// The matrix with a column for each transition of the stored coverage
    /// runs.
    pub fn build_singleton_matrix(&self, storage: &StorageService, settings: &Analysis) -> (matrix:
        CoverageMatrix)
        ensures
            matrix@ == singleton_matrix(storage@, settings@),
            matrix@.wf(),
    {
        CoverageMatrix::from_model(&storage.coverage_information, None, settings.use_transition_data)
    }

    /// The matrix with a column for each window of transitions that training
    /// draws from the stored traces.
    pub fn build_pair_matrix(&self, storage: &StorageService, settings: &Analysis) -> (matrix:
        CoverageMatrix)
        requires
            storage.model is Some,
        ensures
            matrix@ == pair_matrix(storage@, settings@),
            matrix@.wf(),
    {
        let transitions = match &storage.model {
            Some(model) => model.all_transitions(),
            None => Vec::new(),
        };
        let step_lists = windows_of_corpus(
            &storage.passing,
            &storage.failing,
            settings.number_of_pairs_to_include_for_order,
        );
        let windows = correlate_windows(&step_lists, &transitions);
        CoverageMatrix::from_model(
            &storage.coverage_information,
            Some(&windows),
            settings.use_transition_data,
        )
    }

    /// Publishes the merge of the singleton matrix with the pair matrix.
    /// Where the two cannot be merged the singleton matrix is published alone,
    /// and the reason is returned.
    pub fn publish_merged(
        &self,
        storage: &mut StorageService,
        matrix: CoverageMatrix,
        pair_matrix: CoverageMatrix,
    ) -> (failure: Option<String>)
        ensures
            final(storage)@ == (StorageServiceView {
                coverage_matrix: Some(
                    match matrix@.append(pair_matrix@) {
                        Some(merged) => merged,
                        None => matrix@,
                    },
                ),
                ..old(storage)@
            }),
            failure is None <==> matrix@.append(pair_matrix@) is Some,
            failure matches Some(message) ==> message@
                == "number_of_tests was not equal for both coverage matrices"@,
    {
        match matrix.append(pair_matrix) {
            Ok(combined) => {
                storage.set_coverage_matrix(combined);
                None
            },
            Err(message) => {
                storage.set_coverage_matrix(matrix);
                Some(message)
            },
        }
    }

    /// Trains: builds the singleton matrix and the pair matrix from the stored
    /// corpus and publishes their merge. Fails, and leaves the store as it
    /// is, where the store has no model.
    pub fn train(&self, storage: &mut StorageService, settings: &Analysis) -> (outcome: Result<
        (),
        String,
    >)
        ensures
            match outcome {
                Ok(_) => trainable(old(storage)@) && final(storage)@ == (StorageServiceView {
                    coverage_matrix: Some(trained_matrix(old(storage)@, settings@)),
                    ..old(storage)@
                }),
                Err(message) => !trainable(old(storage)@) && final(storage)@ == old(storage)@
                    && message@ == no_model(),
            },
    {
        if storage.model.is_none() {
            return Err(String::from_str("There is no model to train with"));
        }
        let matrix = self.build_singleton_matrix(storage, settings);
        let pair_matrix = self.build_pair_matrix(storage, settings);
        proof {
            assert(matrix@.number_of_tests() == pair_matrix@.number_of_tests());
        }
        self.publish_merged(storage, matrix, pair_matrix);
        Ok(())
    }
}

/// The windows of a trace that the analysis looks at.
pub fn windows_of_trace(steps: &Vec<Step>, pairs: i32) -> (all: Vec<Vec<Step>>)
    ensures
        all.deep_view() == pair_windows(steps.deep_view(), pairs as int),
{
    let mut all: Vec<Vec<Step>> = Vec::new();
    proof {
        assert(all.deep_view() =~= Seq::empty());
    }
    let mut k: i32 = 0;
    while k < pairs
        invariant
            0 <= k,
            pairs >= 0 ==> k <= pairs,
            pairs < 0 ==> k == 0,
            all.deep_view() == pair_windows(steps.deep_view(), k as int),
        decreases pairs - k,
    {
        k += 1;
        let length: usize = k as usize + 1;
        let more = step_windows(length, steps);
        extend_windows(&mut all, more);
    }
    proof {
        if pairs < 0 {
            assert(pair_windows(steps.deep_view(), 0) =~= pair_windows(
                steps.deep_view(),
                pairs as int,
            ));
        }
    }
    all
}

/// The windows of one length of the traces of a list.
pub fn windows_of_cases(cases: &Vec<TestCase>, length: usize) -> (all: Vec<Vec<Step>>)
    ensures
        all.deep_view() == case_windows(cases.deep_view(), length as nat),
{
    let mut all: Vec<Vec<Step>> = Vec::new();
    proof {
        assert(cases.deep_view().take(0) =~= Seq::empty());
        assert(all.deep_view() =~= Seq::empty());
    }
    let mut i: usize = 0;
    while i < cases.len()
        invariant
            i <= cases.len(),
            all.deep_view() == case_windows(cases.deep_view().take(i as int), length as nat),
        decreases cases.len() - i,
    {
        proof {
            lemma_deep_view_index(*cases);
            let upto = cases.deep_view().take(i + 1);
            assert(upto.drop_last() =~= cases.deep_view().take(i as int));
            assert(upto.last() == cases[i as int]@);
        }
        let more = step_windows(length, &cases[i].steps);
        extend_windows(&mut all, more);
        i += 1;
    }
    proof {
        assert(cases.deep_view().take(cases.len() as int) =~= cases.deep_view());
    }
    all
}

/// The windows that training draws from the stored traces.
pub fn windows_of_corpus(passing: &Vec<TestCase>, failing: &Vec<TestCase>, pairs: i32) -> (all: Vec<
    Vec<Step>,
>)
    ensures
        all.deep_view() == corpus_windows(
            passing.deep_view(),
            failing.deep_view(),
            pairs as int,
        ),
{
    let mut all: Vec<Vec<Step>> = Vec::new();
    proof {
        assert(all.deep_view() =~= Seq::empty());
    }
    let mut k: i32 = 0;
    while k < pairs
        invariant
            0 <= k,
            pairs >= 0 ==> k <= pairs,
            pairs < 0 ==> k == 0,
            all.deep_view() == corpus_windows(
                passing.deep_view(),
                failing.deep_view(),
                k as int,
            ),
        decreases pairs - k,
    {
        k += 1;
        let length: usize = k as usize + 1;
        let of_passing = windows_of_cases(passing, length);
        extend_windows(&mut all, of_passing);
        let of_failing = windows_of_cases(failing, length);
        extend_windows(&mut all, of_failing);
    }
    proof {
        if pairs < 0 {
            assert(corpus_windows(passing.deep_view(), failing.deep_view(), 0) =~= corpus_windows(
                passing.deep_view(),
                failing.deep_view(),
                pairs as int,
            ));
        }
    }
    all
}

/// The windows of transitions that windows of steps stand for.
pub fn correlate_windows(step_lists: &Vec<Vec<Step>>, transitions: &Vec<Transition>) -> (all: Vec<
    Vec<Transition>,
>)
    ensures
        all.deep_view() == transition_windows(step_lists.deep_view(), transitions.deep_view()),
{
    let mut all: Vec<Vec<Transition>> = Vec::new();
    let mut i: usize = 0;
    while i < step_lists.len()
        invariant
            i <= step_lists.len(),
            all.len() == i,
            forall|a: int|
                0 <= a < i ==> (#[trigger] all[a]).deep_view() == window_transitions(
                    step_lists[a].deep_view(),
                    transitions.deep_view(),
                ),
        decreases step_lists.len() - i,
    {
        all.push(correlate_window(&step_lists[i], transitions));
        i += 1;
    }
    proof {
        lemma_deep_view_index(all);
        lemma_deep_view_index(*step_lists);
        assert(all.deep_view() =~= transition_windows(
            step_lists.deep_view(),
            transitions.deep_view(),
        ));
    }
    all
}

/// A trace that passed is correct, with no evidence, whatever the store holds
/// and whatever the settings are.
pub proof fn law_passed_is_correct(
    case: TestCaseView,
    store: StorageServiceView,
    settings: AnalysisView,
)
    requires
        case.passed(),
    ensures
        analysis(case, store, settings) == Some(correct()),
        correct().group_name == "Correct"@,
        correct().root_cause_steps.len() == 0,
        correct().root_cause_state is None,
        correct().root_cause_transition is None,
{
}

/// Where no run of the matrix failed and the threshold is not negative, no
/// transition is suspicious.
pub proof fn lemma_no_suspicious_transitions(
    coverage: Seq<TransitionView>,
    steps: Seq<StepView>,
    matrix: CoverageMatrixView,
    settings: AnalysisView,
)
    requires
        forall|i: int| 0 <= i < matrix.error_vector.len() ==> !matrix.error_vector[i],
        settings.similarity_threshold.numerator >= 0,
    ensures
        suspicious_transitions(coverage, steps, matrix, settings) == Seq::<TransitionView>::empty(),
    decreases coverage.len(),
{
    if coverage.len() > 0 {
        lemma_no_suspicious_transitions(coverage.drop_last(), steps, matrix, settings);
        law_no_failure_no_suspicion(
            matrix,
            transition_key(coverage.last(), settings.use_transition_data),
            settings.similarity_threshold,
        );
    }
}

/// Where no run of the matrix failed and the threshold is not negative, no
/// window is suspicious.
pub proof fn lemma_no_suspicious_windows(
    step_windows: Seq<Seq<StepView>>,
    transitions: Seq<TransitionView>,
    steps: Seq<StepView>,
    matrix: CoverageMatrixView,
    settings: AnalysisView,
)
    requires
        forall|i: int| 0 <= i < matrix.error_vector.len() ==> !matrix.error_vector[i],
        settings.similarity_threshold.numerator >= 0,
    ensures
        suspicious_windows(step_windows, transitions, steps, matrix, settings) == Seq::<
            TransitionView,
        >::empty(),
    decreases step_windows.len(),
{
    if step_windows.len() > 0 {
        lemma_no_suspicious_windows(step_windows.drop_last(), transitions, steps, matrix, settings);
        law_no_failure_no_suspicion(
            matrix,
            window_key(
                window_transitions(step_windows.last(), transitions),
                settings.use_transition_data,
            ),
            settings.similarity_threshold,
        );
    }
}

/// Where no run of the trained matrix failed, nothing is found in a trace that
/// did not pass: there is no failure to correlate with. This holds for a
/// threshold that is not negative; a negative threshold is exceeded by every
/// similarity.
pub proof fn law_no_failure_nothing_found(
    case: TestCaseView,
    store: StorageServiceView,
    settings: AnalysisView,
)
    requires
        !case.passed(),
        store.model is Some,
        store.coverage_matrix is Some,
        forall|i: int|
            0 <= i < store.coverage_matrix->0.error_vector.len()
                ==> !store.coverage_matrix->0.error_vector[i],
        settings.similarity_threshold.numerator >= 0,
    ensures
        analysis(case, store, settings) == Some(no_problem()),
        no_problem().group_name == "No problematic steps found"@,
        no_problem().root_cause_steps.len() == 0,
{
    let model = store.model->0;
    let matrix = store.coverage_matrix->0;
    let coverage = match coverage_run(case, store.coverage_information) {
        Some(run) => run,
        None => model,
    };
    lemma_no_suspicious_transitions(coverage.all_transitions(), case.steps, matrix, settings);
    lemma_no_suspicious_windows(
        pair_windows(case.steps, settings.number_of_pairs_to_include_for_order as int),
        model.all_transitions(),
        case.steps,
        matrix,
        settings,
    );
    let raw = suspicious_transitions(coverage.all_transitions(), case.steps, matrix, settings)
        + suspicious_windows(
        pair_windows(case.steps, settings.number_of_pairs_to_include_for_order as int),
        model.all_transitions(),
        case.steps,
        matrix,
        settings,
    );
    assert(raw =~= Seq::<TransitionView>::empty());
    assert(ordered(raw) =~= Seq::<TransitionView>::empty());
}

/// Training on coverage runs of which none failed gives a matrix without a
/// failure, and after it nothing is found in any trace that did not pass.
pub proof fn law_training_without_failures(
    case: TestCaseView,
    store: StorageServiceView,
    settings: AnalysisView,
)
    requires
        trainable(store),
        forall|r: int|
            0 <= r < store.coverage_information.len() ==> !run_failed(
                #[trigger] store.coverage_information[r],
            ),
        settings.similarity_threshold.numerator >= 0,
        !case.passed(),
    ensures
        analysis(
            case,
            StorageServiceView {
                coverage_matrix: Some(trained_matrix(store, settings)),
                ..store
            },
            settings,
        ) == Some(no_problem()),
{
    let trained = StorageServiceView {
        coverage_matrix: Some(trained_matrix(store, settings)),
        ..store
    };
    assert(singleton_matrix(store, settings).number_of_tests() == pair_matrix(
        store,
        settings,
    ).number_of_tests());
    law_no_failure_nothing_found(case, trained, settings);
}

/// Training is idempotent: what it publishes does not depend on the matrix
/// that was published before, so that training again from the same corpus
/// publishes the same matrix.
pub proof fn law_training_idempotent(store: StorageServiceView, settings: AnalysisView)
    ensures
        trained_matrix(
            StorageServiceView { coverage_matrix: Some(trained_matrix(store, settings)), ..store },
            settings,
        ) == trained_matrix(store, settings),
{
}

/// The matrix that training publishes is the merge of two matrices over the
/// same runs: it has a row for each stored coverage run, and the merge is
/// defined.
pub proof fn law_trained_matrix_rows(store: StorageServiceView, settings: AnalysisView)
    ensures
        singleton_matrix(store, settings).append(pair_matrix(store, settings)) is Some,
        trained_matrix(store, settings).number_of_tests() == store.coverage_information.len(),
{
}

} // verus!
