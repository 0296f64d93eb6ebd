//! Spectrum-based fault localization over model-based test executions.
//!
//! Given a behavioural model, passing and failing traces and the coverage run
//! of each trace, the library finds the model elements that a failure is most
//! likely due to. It correlates executed steps with model transitions
//! (`correlation`), draws windows of consecutive steps (`combinations`),
//! builds and merges coverage matrices (`models::coverage_matrix`,
//! `models::coverage_sources`), scores the columns of a matrix against the
//! failures (`similarity`), and reduces the suspicious elements to one outcome
//! (`ordering`, `verdict`, `analysis_service`).
pub mod analysis_service;
pub mod combinations;
pub mod correlation;
pub mod models;
pub mod ordering;
pub mod progress;
pub mod settings;
pub mod similarity;
pub mod storage_service;
pub mod text;
pub mod verdict;
pub mod views;
