//! The canonical pull-request model and the error taxonomy of a
//! validation run.
//!
//! Timestamps are carried as seconds since the Unix epoch; the core
//! never computes with them, it only carries them through to rule
//! expressions.

use vstd::prelude::*;

verus! {

/// A platform account, identified by its platform-unique login handle.
#[derive(Debug)]
pub struct User {
    pub login: String,
}

/// Authorship metadata recorded inside a commit (name, email, and the
/// time of authorship), as distinct from the platform accounts that
/// pushed or committed it.
#[derive(Debug)]
pub struct Author {
    pub name: String,
    pub email: String,
    pub date: i64,
}

/// The inner body of a commit record: who wrote it, who committed it,
/// and the commit message.
#[derive(Debug)]
pub struct CommitBody {
    pub author: Author,
    pub committer: Author,
    pub message: String,
}

/// One commit of a pull request. `sha` is unique within the PR;
/// `author` and `committer` are the platform identities attached to
/// the commit record.
#[derive(Debug)]
pub struct Commit {
    pub sha: String,
    pub commit: CommitBody,
    pub author: User,
    pub committer: User,
}

/// A comment on a pull request. The comment list of a pull request is
/// kept in platform chronological order.
#[derive(Debug)]
pub struct Comment {
    pub user: User,
    pub body: String,
    pub created_at: i64,
}

/// The head record of a pull request as fetched from the platform:
/// its author, title, and body text.
#[derive(Debug)]
pub struct RawPullRequest {
    pub user: User,
    pub title: String,
    pub body: String,
}

/// The canonical in-memory pull request, built once per validation
/// run from the three fetched records and discarded after the run.
#[derive(Debug)]
pub struct PullRequest {
    pub user: User,
    pub title: String,
    pub body: String,
    pub commits: Vec<Commit>,
    pub comments: Vec<Comment>,
}

/// A configured policy rule: a repository-unique name, a
/// human-readable description, and an opaque boolean expression over
/// the pull-request model.
#[derive(Debug)]
pub struct Rule {
    pub name: String,
    pub description: String,
    pub expression: String,
}

/// The access level a platform account holds on a repository. The
/// platform reports the lowest level as "none"; it is named
/// `NoAccess` here.
#[derive(Clone, Copy, PartialEq, Eq, Debug, Structural)]
pub enum Permission {
    Admin,
    Write,
    Read,
    NoAccess,
}

/// Why a fetch against the hosting platform failed.
#[derive(Clone, Copy, PartialEq, Eq, Debug, Structural)]
pub enum FetchError {
    NotFound,
    RateLimited,
    Transport,
    Decode,
}

/// Why a validation run aborted without producing a failure list.
#[derive(Debug)]
pub enum ValidationError {
    /// One of the three record fetches failed; no model was built.
    Fetch(FetchError),
    /// A collaborator-permission lookup for a disable-directive issuer
    /// failed; an unverifiable exemption claim aborts the run.
    AuthorityCheck(FetchError),
    /// A rule expression could not be evaluated; the context names the
    /// broken rule and the repository so the configuration can be fixed.
    Expression { rule: String, owner: String, repo: String, reason: String },
}

/// Classifies a non-success HTTP status from the platform into a
/// fetch error kind: 404 is a missing resource, 403 and 429 are rate
/// limiting, anything else is a transport-level failure.
pub fn classify_status(status: u16) -> (r: FetchError)
    ensures
        r == (if status == 404 {
            FetchError::NotFound
        } else if status == 403 || status == 429 {
            FetchError::RateLimited
        } else {
            FetchError::Transport
        }),
{
    if status == 404 {
        FetchError::NotFound
    } else if status == 403 || status == 429 {
        FetchError::RateLimited
    } else {
        FetchError::Transport
    }
}

/// Builds the canonical model from the three fetched records. All
/// three fetches must have succeeded; the first failure, in the order
/// head record, commit list, comment list, aborts the run and no
/// partial model is built.
pub fn build_pull_request(
    head: Result<RawPullRequest, FetchError>,
    commits: Result<Vec<Commit>, FetchError>,
    comments: Result<Vec<Comment>, FetchError>,
) -> (r: Result<PullRequest, ValidationError>)
    ensures
        head is Err ==> r == Err::<PullRequest, ValidationError>(
            ValidationError::Fetch(head->Err_0),
        ),
        head is Ok && commits is Err ==> r == Err::<PullRequest, ValidationError>(
            ValidationError::Fetch(commits->Err_0),
        ),
        head is Ok && commits is Ok && comments is Err ==> r == Err::<PullRequest,
            ValidationError,
        >(ValidationError::Fetch(comments->Err_0)),
        head is Ok && commits is Ok && comments is Ok ==> r == Ok::<PullRequest,
            ValidationError,
        >(
            (PullRequest {
                user: head->Ok_0.user,
                title: head->Ok_0.title,
                body: head->Ok_0.body,
                commits: commits->Ok_0,
                comments: comments->Ok_0,
            }),
        ),
{
    let h = match head {
        Ok(h) => h,
        Err(e) => {
            return Err(ValidationError::Fetch(e));
        },
    };
    let cs = match commits {
        Ok(cs) => cs,
        Err(e) => {
            return Err(ValidationError::Fetch(e));
        },
    };
    let ms = match comments {
        Ok(ms) => ms,
        Err(e) => {
            return Err(ValidationError::Fetch(e));
        },
    };
    Ok(PullRequest { user: h.user, title: h.title, body: h.body, commits: cs, comments: ms })
}

} // verus!
