// Topics of repositories: a two-stage pipeline that fetches one payload per
// identifier and extracts the strings of its `topics` field, with a bound on
// each stage and a single aggregate result that the first failure decides.
pub mod endpoint;
pub mod error;
pub mod json;
pub mod pipeline;
pub mod stage;
