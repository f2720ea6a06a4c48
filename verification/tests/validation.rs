use tailor::active_indices;
use tailor::build_pull_request;
use tailor::classify_status;
use tailor::collect_failures;
use tailor::disable_candidates;
use tailor::grant_exemptions;
use tailor::validate_pull_request;
use tailor::Comment;
use tailor::FetchError;
use tailor::Permission;
use tailor::PullRequest;
use tailor::RawPullRequest;
use tailor::Rule;
use tailor::User;
use tailor::ValidationError;

fn user(login: &str) -> User {
    User { login: login.to_string() }
}

fn comment(login: &str, body: &str) -> Comment {
    Comment { user: user(login), body: body.to_string(), created_at: 0 }
}

fn rule(name: &str, expression: &str, description: &str) -> Rule {
    Rule {
        name: name.to_string(),
        description: description.to_string(),
        expression: expression.to_string(),
    }
}

fn pr_with_comments(comments: Vec<Comment>) -> PullRequest {
    PullRequest {
        user: user("author"),
        title: "title".to_string(),
        body: "".to_string(),
        commits: Vec::new(),
        comments,
    }
}

fn two_rules() -> Vec<Rule> {
    vec![
        rule("ci", "commits.size>0", "needs commits"),
        rule("desc", "body!=\"\"", "needs body"),
    ]
}

#[test]
fn admin_disable_exempts_named_rule() {
    // PR has 0 commits and an empty body; both rules fail, but an
    // admin disabled "ci", so only "desc" is reported.
    let rules = two_rules();
    let pr = pr_with_comments(vec![comment("alice", "tailor disable ci")]);
    let perms = vec![Ok(Permission::Admin)];
    // the only remaining rule is "desc"; its expression is false
    let results = vec![Ok(false)];
    let failures = validate_pull_request(&pr, &rules, &perms, &results, "coreos", "tailor")
        .expect("run succeeds");
    assert_eq!(failures, vec!["Failed desc (needs body)".to_string()]);
}

#[test]
fn read_holder_disable_has_no_effect() {
    // Same PR, but the disabling comment's author only has Read
    // permission: both rules are evaluated and both fail, in order.
    let rules = two_rules();
    let pr = pr_with_comments(vec![comment("alice", "tailor disable ci")]);
    let perms = vec![Ok(Permission::Read)];
    let results = vec![Ok(false), Ok(false)];
    let failures = validate_pull_request(&pr, &rules, &perms, &results, "coreos", "tailor")
        .expect("run succeeds");
    assert_eq!(
        failures,
        vec![
            "Failed ci (needs commits)".to_string(),
            "Failed desc (needs body)".to_string(),
        ]
    );
}

#[test]
fn write_and_no_access_holders_are_ignored_too() {
    let rules = two_rules();
    let pr = pr_with_comments(vec![
        comment("bob", "tailor disable ci"),
        comment("eve", "tailor disable desc"),
    ]);
    let perms = vec![Ok(Permission::Write), Ok(Permission::NoAccess)];
    let results = vec![Ok(false), Ok(false)];
    let failures = validate_pull_request(&pr, &rules, &perms, &results, "coreos", "tailor")
        .expect("run succeeds");
    assert_eq!(failures.len(), 2);
}

#[test]
fn all_rules_true_yields_empty_list() {
    let rules = two_rules();
    let pr = pr_with_comments(Vec::new());
    let perms: Vec<Result<Permission, FetchError>> = Vec::new();
    let results = vec![Ok(true), Ok(true)];
    let failures = validate_pull_request(&pr, &rules, &perms, &results, "coreos", "tailor")
        .expect("run succeeds");
    assert_eq!(failures, Vec::<String>::new());
}

#[test]
fn failures_keep_configured_rule_order() {
    let rules = vec![
        rule("a", "x", "first"),
        rule("b", "y", "second"),
        rule("c", "z", "third"),
    ];
    let pr = pr_with_comments(Vec::new());
    let perms: Vec<Result<Permission, FetchError>> = Vec::new();
    let results = vec![Ok(false), Ok(true), Ok(false)];
    let failures = validate_pull_request(&pr, &rules, &perms, &results, "coreos", "tailor")
        .expect("run succeeds");
    assert_eq!(
        failures,
        vec!["Failed a (first)".to_string(), "Failed c (third)".to_string()]
    );
}

#[test]
fn duplicate_directives_equal_single_directive() {
    let rules = two_rules();
    let once = pr_with_comments(vec![comment("alice", "tailor disable ci")]);
    let twice = pr_with_comments(vec![
        comment("alice", "tailor disable ci"),
        comment("carol", "tailor disable ci"),
    ]);
    let results = vec![Ok(false)];
    let one = validate_pull_request(
        &once,
        &rules,
        &vec![Ok(Permission::Admin)],
        &results,
        "coreos",
        "tailor",
    )
    .expect("run succeeds");
    let two = validate_pull_request(
        &twice,
        &rules,
        &vec![Ok(Permission::Admin), Ok(Permission::Admin)],
        &results,
        "coreos",
        "tailor",
    )
    .expect("run succeeds");
    assert_eq!(one, two);
}

#[test]
fn unmatched_directive_name_is_harmless() {
    let rules = two_rules();
    let pr = pr_with_comments(vec![comment("alice", "tailor disable nosuchrule")]);
    let perms = vec![Ok(Permission::Admin)];
    let results = vec![Ok(false), Ok(false)];
    let failures = validate_pull_request(&pr, &rules, &perms, &results, "coreos", "tailor")
        .expect("run succeeds");
    assert_eq!(failures.len(), 2);
}

#[test]
fn malformed_directive_yields_no_candidate_and_no_error() {
    let comments = vec![comment("alice", "tailor disable   "), comment("bob", "tailor disable")];
    let candidates = disable_candidates(&comments);
    assert_eq!(candidates.len(), 0);
}

#[test]
fn candidates_record_issuer_and_rule() {
    let comments = vec![
        comment("alice", "unrelated chatter"),
        comment("bob", "tailor disable ci"),
    ];
    let candidates = disable_candidates(&comments);
    assert_eq!(candidates.len(), 1);
    assert_eq!(candidates[0].login, "bob".to_string());
    assert_eq!(candidates[0].rule, "ci".to_string());
}

#[test]
fn failed_permission_lookup_aborts_run() {
    let comments = vec![comment("alice", "tailor disable ci")];
    let candidates = disable_candidates(&comments);
    let perms = vec![Err(FetchError::Transport)];
    let err = grant_exemptions(&candidates, &perms).expect_err("lookup failure aborts");
    assert!(matches!(err, ValidationError::AuthorityCheck(FetchError::Transport)));
}

#[test]
fn expression_error_aborts_with_rule_context() {
    let rules = two_rules();
    let active = vec![0usize, 1usize];
    let results = vec![Ok(true), Err("missing field".to_string())];
    let err = collect_failures(&rules, &active, &results, "coreos", "tailor")
        .expect_err("broken expression aborts");
    match err {
        ValidationError::Expression { rule, owner, repo, reason } => {
            assert_eq!(rule, "desc".to_string());
            assert_eq!(owner, "coreos".to_string());
            assert_eq!(repo, "tailor".to_string());
            assert_eq!(reason, "missing field".to_string());
        },
        _ => panic!("expected an expression error"),
    }
}

#[test]
fn first_expression_error_wins() {
    let rules = two_rules();
    let active = vec![0usize, 1usize];
    let results = vec![Err("first".to_string()), Err("second".to_string())];
    let err = collect_failures(&rules, &active, &results, "o", "r").expect_err("aborts");
    match err {
        ValidationError::Expression { rule, reason, .. } => {
            assert_eq!(rule, "ci".to_string());
            assert_eq!(reason, "first".to_string());
        },
        _ => panic!("expected an expression error"),
    }
}

#[test]
fn active_indices_skip_exempted_rules() {
    let rules = vec![rule("a", "x", "da"), rule("b", "y", "db"), rule("c", "z", "dc")];
    let exemptions = vec!["b".to_string()];
    let active = active_indices(&rules, &exemptions);
    assert_eq!(active, vec![0usize, 2usize]);
}

#[test]
fn fetch_failure_for_commits_surfaces_as_fetch_error() {
    let head = Ok(RawPullRequest {
        user: user("author"),
        title: "t".to_string(),
        body: "b".to_string(),
    });
    let comments: Result<Vec<Comment>, FetchError> = Ok(Vec::new());
    let err = build_pull_request(head, Err(FetchError::RateLimited), comments)
        .expect_err("fetch failure aborts");
    assert!(matches!(err, ValidationError::Fetch(FetchError::RateLimited)));
}

#[test]
fn first_fetch_failure_wins() {
    let err = build_pull_request(
        Err(FetchError::NotFound),
        Err(FetchError::RateLimited),
        Err(FetchError::Transport),
    )
    .expect_err("fetch failure aborts");
    assert!(matches!(err, ValidationError::Fetch(FetchError::NotFound)));
}

#[test]
fn successful_fetches_build_the_model() {
    let head = Ok(RawPullRequest {
        user: user("author"),
        title: "adds a feature".to_string(),
        body: "details".to_string(),
    });
    let pr = build_pull_request(head, Ok(Vec::new()), Ok(vec![comment("x", "hi")]))
        .expect("all fetches succeeded");
    assert_eq!(pr.user.login, "author".to_string());
    assert_eq!(pr.title, "adds a feature".to_string());
    assert_eq!(pr.body, "details".to_string());
    assert_eq!(pr.commits.len(), 0);
    assert_eq!(pr.comments.len(), 1);
}

#[test]
fn status_classification() {
    assert_eq!(classify_status(404), FetchError::NotFound);
    assert_eq!(classify_status(403), FetchError::RateLimited);
    assert_eq!(classify_status(429), FetchError::RateLimited);
    assert_eq!(classify_status(500), FetchError::Transport);
}
