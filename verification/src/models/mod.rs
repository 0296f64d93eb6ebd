//! The data that the analysis works on: the model, the traces, the coverage
//! matrix and the outcome of an analysis.
pub mod analysis_result;
pub mod columns;
pub mod coverage_matrix;
pub mod coverage_sources;
pub mod coverage_table;
pub mod model;
pub mod step_order;
pub mod test_case;
