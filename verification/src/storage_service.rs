//! The store that the engine reads from and publishes to: the model, the
//! traces, the coverage runs and the trained coverage matrix.
use crate::models::coverage_matrix::{CoverageMatrix, CoverageMatrixView};
use crate::models::model::{TestModel, TestModelView};
use crate::models::test_case::{TestCase, TestCaseView};
use vstd::prelude::*;

verus! {

/// The stored state of one session.
#[derive(Debug)]
pub struct StorageService {
    pub model: Option<TestModel>,
    pub failing: Vec<TestCase>,
    pub passing: Vec<TestCase>,
    pub coverage_information: Vec<TestModel>,
    pub coverage_matrix: Option<CoverageMatrix>,
}

/// What a `StorageService` stands for.
pub struct StorageServiceView {
    pub model: Option<TestModelView>,
    pub failing: Seq<TestCaseView>,
    pub passing: Seq<TestCaseView>,
    pub coverage_information: Seq<TestModelView>,
    pub coverage_matrix: Option<CoverageMatrixView>,
}

impl View for StorageService {
    type V = StorageServiceView;

    open spec fn view(&self) -> StorageServiceView {
        StorageServiceView {
            model: self.model.deep_view(),
            failing: self.failing.deep_view(),
            passing: self.passing.deep_view(),
            coverage_information: self.coverage_information.deep_view(),
            coverage_matrix: match self.coverage_matrix {
                Some(matrix) => Some(matrix@),
                None => None,
            },
        }
    }
}

impl StorageService {
    /// An empty store.
    pub fn new() -> (store: StorageService)
        ensures
            store@ == (StorageServiceView {
                model: None,
                failing: Seq::empty(),
                passing: Seq::empty(),
                coverage_information: Seq::empty(),
                coverage_matrix: None,
            }),
    {
        let store = StorageService {
            model: None,
            failing: Vec::new(),
            passing: Vec::new(),
            coverage_information: Vec::new(),
            coverage_matrix: None,
        };
        proof {
            assert(store.failing.deep_view() =~= Seq::empty());
            assert(store.passing.deep_view() =~= Seq::empty());
            assert(store.coverage_information.deep_view() =~= Seq::empty());
        }
        store
    }

    pub fn set_model(&mut self, model: Option<TestModel>)
        ensures
            final(self)@ == (StorageServiceView { model: model.deep_view(), ..old(self)@ }),
    {
        self.model = model;
    }

    pub fn set_passing_tests(&mut self, passing: Vec<TestCase>)
        ensures
            final(self)@ == (StorageServiceView { passing: passing.deep_view(), ..old(self)@ }),
    {
        self.passing = passing;
    }

    pub fn set_failing_tests(&mut self, failing: Vec<TestCase>)
        ensures
            final(self)@ == (StorageServiceView { failing: failing.deep_view(), ..old(self)@ }),
    {
        self.failing = failing;
    }

    pub fn set_coverage_informations(&mut self, coverage_information: Vec<TestModel>)
        ensures
            final(self)@ == (StorageServiceView {
                coverage_information: coverage_information.deep_view(),
                ..old(self)@
            }),
    {
        self.coverage_information = coverage_information;
    }

    /// Publishes a coverage matrix: it takes the place of the one before.
    pub fn set_coverage_matrix(&mut self, coverage_matrix: CoverageMatrix)
        ensures
            final(self)@ == (StorageServiceView {
                coverage_matrix: Some(coverage_matrix@),
                ..old(self)@
            }),
    {
        self.coverage_matrix = Some(coverage_matrix);
    }

    /// Forgets the model and the traces. The coverage runs and the trained
    /// matrix stay.
    pub fn reset(&mut self)
        ensures
            final(self)@ == (StorageServiceView {
                model: None,
                passing: Seq::empty(),
                failing: Seq::empty(),
                ..old(self)@
            }),
    {
        self.set_model(None);
        self.set_passing_tests(Vec::new());
        self.set_failing_tests(Vec::new());
        proof {
            assert(self.passing.deep_view() =~= Seq::empty());
            assert(self.failing.deep_view() =~= Seq::empty());
        }
    }
}

} // verus!
