//! A file-driven test harness core: discovers test units from a directory
//! snapshot by a pluggable strategy, assembles them into a hierarchical,
//! filterable tree, lays the tree out as run batches, aggregates failures,
//! and renders the textual reports.

pub mod collect;
pub mod errors;
pub mod fs_model;
pub mod report;
pub mod results;
pub mod runner;
pub mod strings;
pub mod sync;
pub mod tree;

pub use errors::CollectTestsError;
pub use errors::InvalidTestNameError;
pub use errors::PathedIoError;
pub use report::LogReporter;
pub use report::Reporter;
pub use report::ReporterContext;
pub use report::ReporterFailure;
pub use results::SubTestResult;
pub use results::TestResult;
pub use runner::RunOptions;
pub use tree::CollectedCategoryOrTest;
pub use tree::CollectedTest;
pub use tree::CollectedTestCategory;
