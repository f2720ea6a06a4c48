//! The validation pipeline: one linear run from the built model to
//! the ordered failure list.
//!
//! The caller performs the outside work — fetching records, looking
//! up one collaborator permission per disable directive, and
//! evaluating one expression per non-exempted rule — and hands the
//! outcomes in; this module composes the verified stages between
//! those calls: resolve exemptions, select the rules to evaluate,
//! and collect the failure messages.

use vstd::prelude::*;

use crate::evaluator::active_indices;
use crate::evaluator::collect_failures;
use crate::evaluator::spec_active_indices;
use crate::evaluator::spec_failures;
use crate::exemptions::disable_candidates;
use crate::exemptions::grant_exemptions;
use crate::exemptions::spec_candidates;
use crate::exemptions::spec_exemptions;
use crate::model::Comment;
use crate::model::FetchError;
use crate::model::Permission;
use crate::model::PullRequest;
use crate::model::Rule;
use crate::model::ValidationError;

verus! {

/// The exemption set of a run, from its comments and the permission
/// of each disable-directive issuer, in directive order.
pub open spec fn run_exemptions(comments: Seq<Comment>, perms: Seq<Permission>) -> Set<Seq<char>> {
    spec_exemptions(spec_candidates(comments), perms)
}

/// The rule indices a run evaluates: the configured rules, in order,
/// minus the exempted ones.
pub open spec fn run_active(rules: Seq<Rule>, comments: Seq<Comment>, perms: Seq<Permission>) -> Seq<
    int,
> {
    spec_active_indices(rules, run_exemptions(comments, perms))
}

/// The failure list of a run, given the evaluation outcome of each
/// selected rule in selection order.
pub open spec fn run_failures(
    rules: Seq<Rule>,
    comments: Seq<Comment>,
    perms: Seq<Permission>,
    results: Seq<Result<bool, String>>,
) -> Seq<Seq<char>> {
    spec_failures(rules, run_active(rules, comments, perms), results)
}

/// Validates a pull request: resolves which rules the admin-issued
/// disable directives exempt, selects the remaining configured rules,
/// and returns their failure messages in configured order — an empty
/// list means the PR passes every check.
///
/// `perms` holds the outcome of one permission lookup per disable
/// directive, in directive order ([`disable_candidates`] names the
/// issuers); `results` holds the outcome of one expression evaluation
/// per selected rule, in selection order ([`active_indices`] names
/// the rules). A failed lookup aborts the run as an authority-check
/// error; a failed evaluation aborts it with context naming the rule
/// and the repository `owner/repo`.
pub fn validate_pull_request(
    pr: &PullRequest,
    rules: &Vec<Rule>,
    perms: &Vec<Result<Permission, FetchError>>,
    results: &Vec<Result<bool, String>>,
    owner: &str,
    repo: &str,
) -> (r: Result<Vec<String>, ValidationError>)
    requires
        perms@.len() == spec_candidates(pr.comments@).len(),
        (forall|i: int| 0 <= i < perms@.len() ==> perms@[i] is Ok) ==> results@.len() == run_active(
            rules@,
            pr.comments@,
            perms@.map_values(|p: Result<Permission, FetchError>| p->Ok_0),
        ).len(),
    ensures
        ({
            (forall|i: int| 0 <= i < perms@.len() ==> perms@[i] is Ok) && (forall|k: int|
                0 <= k < results@.len() ==> results@[k] is Ok)
        }) ==> r is Ok && r->Ok_0@.map_values(|s: String| s@) == run_failures(
            rules@,
            pr.comments@,
            perms@.map_values(|p: Result<Permission, FetchError>| p->Ok_0),
            results@,
        ),
        (exists|i: int| 0 <= i < perms@.len() && perms@[i] is Err) ==> r is Err && exists|i: int|
            {
                &&& 0 <= i < perms@.len()
                &&& perms@[i] is Err
                &&& (forall|j: int| 0 <= j < i ==> perms@[j] is Ok)
                &&& r->Err_0 == ValidationError::AuthorityCheck(perms@[i]->Err_0)
            },
        ({
            (forall|i: int| 0 <= i < perms@.len() ==> perms@[i] is Ok) && (exists|k: int|
                0 <= k < results@.len() && results@[k] is Err)
        }) ==> r is Err && exists|k: int|
            {
                &&& 0 <= k < results@.len()
                &&& results@[k] is Err
                &&& (forall|j: int| 0 <= j < k ==> results@[j] is Ok)
                &&& (r->Err_0 matches ValidationError::Expression {
                    rule: er,
                    owner: eo,
                    repo: ep,
                    reason: en,
                } && er@ == rules@[run_active(
                    rules@,
                    pr.comments@,
                    perms@.map_values(|p: Result<Permission, FetchError>| p->Ok_0),
                )[k]].name@ && eo@ == owner@ && ep@ == repo@ && en@ == results@[k]->Err_0@)
            },
{
    let candidates = disable_candidates(&pr.comments);
    let exemptions = match grant_exemptions(&candidates, perms) {
        Ok(ex) => ex,
        Err(err) => {
            return Err(err);
        },
    };
    let active = active_indices(rules, &exemptions);
    collect_failures(rules, &active, results, owner, repo)
}

} // verus!
