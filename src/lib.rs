//! Checks a package's optional-feature matrix: enumerates feature subsets,
//! derives the argument vector of each child build, classifies features and
//! aggregates the outcome of a run.

pub mod options;
pub mod subsets;
pub mod features;
pub mod prompt;
pub mod driver;

