use whisper_git::ci::{CiCounts, CiProvider, CiState};
use whisper_git::github::{
    ci_status_from_runs, fetch_ci_status_async, fetched_ci_result, parse_github_remote,
    per_commit_rollups, run_state, runs_from_answer, GitHubApiErrorBody, GitHubClient, RunsAnswer,
    WorkflowRun,
};

#[test]
fn parse_ssh_url() {
    let (owner, repo) = parse_github_remote("git@github.com:user/project.git").unwrap();
    assert_eq!(owner, "user");
    assert_eq!(repo, "project");
}

#[test]
fn parse_https_url() {
    let (owner, repo) = parse_github_remote("https://github.com/user/project.git").unwrap();
    assert_eq!(owner, "user");
    assert_eq!(repo, "project");
}

#[test]
fn parse_https_no_dotgit() {
    let (owner, repo) = parse_github_remote("https://github.com/user/project").unwrap();
    assert_eq!(owner, "user");
    assert_eq!(repo, "project");
}

#[test]
fn parse_non_github() {
    assert!(parse_github_remote("https://gitlab.com/user/project").is_none());
}

fn make_run(id: u64, name: &str, status: &str, conclusion: Option<&str>) -> WorkflowRun {
    WorkflowRun {
        id,
        name: name.to_string(),
        head_branch: "main".to_string(),
        head_sha: "abc123".to_string(),
        status: status.to_string(),
        conclusion: conclusion.map(|s| s.to_string()),
        html_url: format!("https://github.com/test/repo/actions/runs/{id}"),
    }
}

#[test]
fn ci_status_all_passed() {
    let runs = vec![
        make_run(1, "CI", "completed", Some("success")),
        make_run(2, "Lint", "completed", Some("success")),
    ];
    let status = ci_status_from_runs(&runs);
    assert_eq!(status.state, CiState::Success);
}

#[test]
fn ci_status_one_failed() {
    let runs = vec![
        make_run(1, "CI", "completed", Some("success")),
        make_run(2, "Lint", "completed", Some("failure")),
    ];
    let status = ci_status_from_runs(&runs);
    assert_eq!(status.state, CiState::Failure);
    assert!(status.summary.contains("failed"));
}

#[test]
fn ci_status_pending() {
    let runs = vec![make_run(1, "CI", "in_progress", None)];
    let status = ci_status_from_runs(&runs);
    assert_eq!(status.state, CiState::Pending);
}

#[test]
fn ci_status_empty() {
    let status = ci_status_from_runs(&[]);
    assert_eq!(status.state, CiState::Absent);
}

#[test]
fn ci_status_deduplicates_by_name() {
    let runs = vec![
        make_run(1, "CI", "completed", Some("failure")),
        make_run(2, "CI", "completed", Some("success")),
    ];
    let status = ci_status_from_runs(&runs);
    assert_eq!(status.state, CiState::Success);
}

#[test]
fn ci_status_ignores_older_commit_runs() {
    let mut old_fail = make_run(1, "CI", "completed", Some("failure"));
    old_fail.head_sha = "old_sha".to_string();
    let runs = vec![
        make_run(3, "CI", "completed", Some("success")),
        make_run(2, "Lint", "completed", Some("success")),
        old_fail,
    ];
    let status = ci_status_from_runs(&runs);
    assert_eq!(status.state, CiState::Success);
    assert_eq!(status.counts.unwrap().success, 2);
}

fn error_body(json: &str) -> Option<GitHubApiErrorBody> {
    let value: serde_json::Value = serde_json::from_str(json).ok()?;
    let member = |name: &str| value.get(name).and_then(|v| v.as_str()).map(|s| s.to_string());
    Some(GitHubApiErrorBody {
        message: member("message"),
        documentation_url: member("documentation_url"),
    })
}

#[test]
fn classify_404_mentions_private_org_access() {
    let body = r#"{"message":"Not Found","documentation_url":"https://docs.github.com/rest"}"#;
    let msg = GitHubClient::classify_http_error(404, error_body(body));
    assert!(msg.contains("private or organization repos"));
    assert!(msg.contains("token does not have access"));
    assert!(msg.contains("docs.github.com/rest"));
}

#[test]
fn classify_403_sso_message_is_explicit() {
    let body = r#"{"message":"Resource protected by organization SAML enforcement. You must grant your Personal Access token access to this organization.","documentation_url":"https://docs.github.com/rest"}"#;
    let msg = GitHubClient::classify_http_error(403, error_body(body));
    assert!(msg.contains("organization SSO"));
}

#[test]
fn classify_errors_exactly() {
    assert_eq!(
        GitHubClient::classify_http_error(401, None),
        "GitHub API unauthorized (401): token is invalid or expired."
    );
    assert_eq!(
        GitHubClient::classify_http_error(
            403,
            Some(GitHubApiErrorBody {
                message: Some("  API Rate Limit exceeded ".to_string()),
                documentation_url: Some("   ".to_string()),
            })
        ),
        "GitHub API rate limit exceeded (403). GitHub says: API Rate Limit exceeded"
    );
    assert_eq!(
        GitHubClient::classify_http_error(403, None),
        "GitHub API forbidden (403): token may lack required repository/actions permissions."
    );
    assert_eq!(
        GitHubClient::classify_http_error(
            500,
            Some(GitHubApiErrorBody {
                message: Some("NOT found".to_string()),
                documentation_url: Some("u".to_string()),
            })
        ),
        "GitHub API request failed (HTTP 500). See: u"
    );
}

#[test]
fn success_is_from_200_to_299() {
    assert!(GitHubClient::ensure_success(200, None).is_ok());
    assert!(GitHubClient::ensure_success(299, None).is_ok());
    assert!(GitHubClient::ensure_success(199, None).is_err());
    assert_eq!(
        GitHubClient::ensure_success(300, None).unwrap_err(),
        "GitHub API request failed (HTTP 300)."
    );
}

#[test]
fn requests_carry_token_and_branch() {
    let client = GitHubClient::new("secret".to_string());
    let r = client.workflow_runs("o", "r", Some("main"), 20);
    assert_eq!(
        r.url,
        "https://api.github.com/repos/o/r/actions/runs?per_page=20&branch=main"
    );
    assert!(r
        .headers
        .iter()
        .any(|(k, v)| k == "Authorization" && v == "Bearer secret"));
    let r = client.workflow_runs("o", "r", None, 5);
    assert_eq!(r.url, "https://api.github.com/repos/o/r/actions/runs?per_page=5");
    let r = fetch_ci_status_async("t", "git@github.com:o/r.git").unwrap();
    assert_eq!(r.url, "https://api.github.com/repos/o/r/actions/runs?per_page=50");
    assert!(fetch_ci_status_async("t", "https://example.com/o/r").is_none());
}

#[test]
fn run_states_follow_conclusion_then_status() {
    assert_eq!(run_state(&make_run(1, "a", "completed", Some("success"))), CiState::Success);
    for c in ["failure", "timed_out", "cancelled"] {
        assert_eq!(run_state(&make_run(1, "a", "completed", Some(c))), CiState::Failure);
    }
    assert_eq!(run_state(&make_run(1, "a", "completed", Some("skipped"))), CiState::Success);
    assert_eq!(run_state(&make_run(1, "a", "completed", None)), CiState::Success);
    assert_eq!(run_state(&make_run(1, "a", "queued", None)), CiState::Pending);
}

#[test]
fn rollups_are_kept_for_each_commit() {
    let mut other = make_run(9, "CI", "completed", Some("failure"));
    other.head_sha = "old_sha".to_string();
    let runs = vec![
        make_run(3, "CI", "completed", Some("success")),
        make_run(2, "CI", "completed", Some("failure")),
        make_run(4, "Lint", "queued", None),
        other,
    ];
    let map = per_commit_rollups(&runs);
    assert_eq!(map.len(), 2);
    let head = map.get("abc123").unwrap();
    assert_eq!(head.counts, CiCounts { success: 1, failure: 0, pending: 1 });
    assert_eq!(head.checks.len(), 2);
    let old = map.get("old_sha").unwrap();
    assert_eq!(old.counts, CiCounts { success: 0, failure: 1, pending: 0 });
    assert!(map.get("nothing").is_none());
}

#[test]
fn failed_fetch_is_no_status() {
    let runs = runs_from_answer("user", "project", RunsAnswer::Absent("no network".to_string()));
    let error = runs.as_ref().unwrap_err();
    assert_eq!(error.cause, "GitHub API transport error: no network");
    let r = fetched_ci_result(runs);
    assert_eq!(r.provider, CiProvider::GitHub);
    assert_eq!(r.status.state, CiState::Absent);
    assert_eq!(
        r.status.summary,
        "CI fetch failed: Failed to fetch workflow runs for user/project"
    );
    assert!(r.status.counts.is_none());
    assert!(r.per_commit_rollups.is_empty());
    let r = fetched_ci_result(Ok(vec![make_run(1, "CI", "completed", Some("success"))]));
    assert_eq!(r.status.state, CiState::Success);
    assert_eq!(r.per_commit_rollups.len(), 1);
}

#[test]
fn runs_are_read_from_an_answer() {
    let run = || make_run(7, "CI", "completed", Some("success"));
    let read = runs_from_answer("u", "p", RunsAnswer::Came(200, None, Ok(vec![run()])));
    assert_eq!(read.unwrap()[0].id, 7);
    let refused = runs_from_answer("u", "p", RunsAnswer::Came(401, None, Ok(vec![run()])));
    let error = refused.unwrap_err();
    assert_eq!(error.context, "Failed to fetch workflow runs for u/p");
    assert_eq!(
        error.cause,
        "GitHub API unauthorized (401): token is invalid or expired."
    );
    let garbled = RunsAnswer::Came(200, None, Err("expected value".to_string()));
    let error = runs_from_answer("u", "p", garbled).unwrap_err();
    assert_eq!(error.context, "Failed to parse runs");
    assert_eq!(error.cause, "expected value");
}
