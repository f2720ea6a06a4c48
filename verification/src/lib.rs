//! Policy-rule validation for pull requests.
//!
//! A validation run assembles a canonical in-memory model of a pull
//! request from fetched records, resolves which configured rules are
//! exempted for this run via admin-issued disable directives found in
//! PR comments, evaluates the remaining rules' boolean expressions,
//! and returns the ordered list of human-readable rule failures.
//!
//! Fetching records, decoding them, and evaluating rule expressions
//! are capabilities of the surrounding application; this crate holds
//! the decision logic between those calls.

use vstd::prelude::*;

pub mod evaluator;
pub mod exemptions;
pub mod model;
pub mod text;
pub mod validate;

pub use model::build_pull_request;
pub use model::classify_status;
pub use model::Author;
pub use model::Comment;
pub use model::Commit;
pub use model::CommitBody;
pub use model::FetchError;
pub use model::Permission;
pub use model::PullRequest;
pub use model::RawPullRequest;
pub use model::Rule;
pub use model::User;
pub use model::ValidationError;
pub use evaluator::active_indices;
pub use evaluator::collect_failures;
pub use exemptions::disable_candidates;
pub use exemptions::grant_exemptions;
pub use exemptions::Candidate;
pub use text::directive_rule_name;
pub use validate::validate_pull_request;
pub use text::format_expression_error;
pub use text::format_failure;
pub use text::trim_payload;

verus! {

} // verus!
