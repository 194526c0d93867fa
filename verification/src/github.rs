//! GitHub Actions: which repository a remote names, what to ask the API for it, and what
//! its answers say of the commits.

use crate::ci::{
    self, CheckView, CiCheckStatus, CiCommitRollup, CiCounts, CiProvider, CiState, CiStatus,
    ProviderCiResult,
};
use crate::order::{self, sort, Order};
use crate::text::{
    self, chars_of, contains, dec_string, lower_char, push_dec, same, same_ignoring_ascii_case,
    split, split_once, strip_prefix, strip_suffix, text_before, trimmed,
};
use crate::text_map::{self, TextMap};
use vstd::prelude::*;
use vstd::string::*;

verus! {

// ---------------------------------------------------------------------------
// Remotes
// ---------------------------------------------------------------------------

/// `path` without the suffix of a git repository.
pub open spec fn without_git_suffix(path: Seq<char>) -> Seq<char> {
    match text::before_suffix(path, ".git"@) {
        Some(p) => p,
        None => path,
    }
}

/// Owner and repository of a path, where neither is empty.
pub open spec fn owner_and_repo(owner: Seq<char>, repo: Seq<char>) -> Option<
    (Seq<char>, Seq<char>),
> {
    if owner.len() > 0 && repo.len() > 0 {
        Some((owner, repo))
    } else {
        None
    }
}

/// The path of a web address at GitHub.
pub open spec fn web_path(url: Seq<char>) -> Option<Seq<char>> {
    match text::after_prefix(url, "https://github.com/"@) {
        Some(p) => Some(p),
        None => text::after_prefix(url, "http://github.com/"@),
    }
}

/// The owner and the repository that a remote at GitHub names.
pub open spec fn github_remote(url: Seq<char>) -> Option<(Seq<char>, Seq<char>)> {
    let u = text::trim(url);
    match text::after_prefix(u, "git@github.com:"@) {
        Some(path) => match text::cut(without_git_suffix(path), "/"@) {
            Some((owner, repo)) => owner_and_repo(owner, repo),
            None => None,
        },
        None => match web_path(u) {
            Some(path) => match text::cut(without_git_suffix(path), "/"@) {
                Some((owner, rest)) => owner_and_repo(owner, text::pieces(rest, '/')[0]),
                None => None,
            },
            None => None,
        },
    }
}

fn drop_git_suffix(path: String) -> (r: String)
    ensures
        r@ == without_git_suffix(path@),
{
    match strip_suffix(path.as_str(), ".git") {
        Some(p) => p,
        None => path,
    }
}

/// Extract (owner, repo) from a GitHub remote URL.
/// Supports both HTTPS and SSH formats:
///   https://github.com/owner/repo.git
///   git@github.com:owner/repo.git
pub fn parse_github_remote(url: &str) -> (r: Option<(String, String)>)
    ensures
        match r {
            Some((owner, repo)) => github_remote(url@) == Some((owner@, repo@)),
            None => github_remote(url@) is None,
        },
{
    let url = trimmed(url);
    if let Some(path) = strip_prefix(url.as_str(), "git@github.com:") {
        let path = drop_git_suffix(path);
        let (owner, repo) = match split_once(path.as_str(), "/") {
            Some(p) => p,
            None => {
                return None;
            },
        };
        if !owner.as_str().is_empty() && !repo.as_str().is_empty() {
            return Some((owner, repo));
        }
        return None;
    }
    let path = match strip_prefix(url.as_str(), "https://github.com/") {
        Some(p) => p,
        None => match strip_prefix(url.as_str(), "http://github.com/") {
            Some(p) => p,
            None => {
                return None;
            },
        },
    };
    let path = drop_git_suffix(path);
    let (owner, rest) = match split_once(path.as_str(), "/") {
        Some(p) => p,
        None => {
            return None;
        },
    };
    let parts = split(rest.as_str(), '/');
    assert(text::views(parts@)[0] == parts@[0]@);
    let repo = parts[0].clone();
    if !owner.as_str().is_empty() && !repo.as_str().is_empty() {
        Some((owner, repo))
    } else {
        None
    }
}

// ---------------------------------------------------------------------------
// Requests
// ---------------------------------------------------------------------------

/// A request to the API: where to, and with which headers.
pub struct ApiRequest {
    pub url: String,
    pub headers: Vec<(String, String)>,
}

/// The headers of a request by their views.
pub open spec fn header_views(h: Seq<(String, String)>) -> Seq<(Seq<char>, Seq<char>)> {
    Seq::new(h.len(), |i: int| (h[i].0@, h[i].1@))
}

/// The headers of every request.
pub open spec fn api_headers(token: Seq<char>) -> Seq<(Seq<char>, Seq<char>)> {
    seq![
        ("Authorization"@, "Bearer "@ + token),
        ("Accept"@, "application/vnd.github+json"@),
        ("User-Agent"@, "whisper-git"@),
        ("X-GitHub-Api-Version"@, "2022-11-28"@),
    ]
}

/// The path of the request for the workflow runs of a repository.
pub open spec fn runs_path(
    owner: Seq<char>,
    repo: Seq<char>,
    branch: Option<Seq<char>>,
    per_page: nat,
) -> Seq<char> {
    let path = "/repos/"@ + owner + "/"@ + repo + "/actions/runs?per_page="@ + text::dec(per_page);
    match branch {
        Some(b) => path + "&branch="@ + b,
        None => path,
    }
}

/// What the API says of a request that it refused.
pub struct GitHubApiErrorBody {
    pub message: Option<String>,
    pub documentation_url: Option<String>,
}

/// A text that says something, without the white space around it.
pub open spec fn said(text: Option<Seq<char>>) -> Option<Seq<char>> {
    match text {
        Some(t) => if text::trim(t).len() > 0 {
            Some(text::trim(t))
        } else {
            None
        },
        None => None,
    }
}

/// `s` with its ASCII capitals made small.
pub open spec fn ascii_lowered(s: Seq<char>) -> Seq<char> {
    Seq::new(s.len(), |i: int| text::ascii_lower(s[i]))
}

/// Whether a message speaks of an organization's single sign-on.
pub open spec fn mentions_sso(m: Seq<char>) -> bool {
    ||| text::has(m, "sso"@)
    ||| text::has(m, "saml"@)
    ||| text::has(m, "organization"@) && text::has(m, "authorize"@)
    ||| text::has(m, "organization"@) && text::has(m, "grant"@) && text::has(m, "access"@)
}

/// What a refusal with `status` means, where the API said `message`.
pub open spec fn status_meaning(status: u16, message: Seq<char>) -> Seq<char> {
    if status == 401 {
        "GitHub API unauthorized (401): token is invalid or expired."@
    } else if status == 403 {
        if mentions_sso(ascii_lowered(message)) {
            "GitHub API forbidden (403): token is not authorized for organization SSO."@
        } else if text::has(ascii_lowered(message), "rate limit"@) {
            "GitHub API rate limit exceeded (403)."@
        } else {
            "GitHub API forbidden (403): token may lack required repository/actions permissions."@
        }
    } else if status == 404 {
        "GitHub API returned 404 for this repository. For private or organization repos, this usually means the token does not have access (or is not SSO-authorized)."@
    } else {
        "GitHub API request failed (HTTP "@ + text::dec(status as nat) + ")."@
    }
}

/// The text for a refusal: its meaning, what the API said where that adds anything, and
/// where to read on.
pub open spec fn http_error_text(
    status: u16,
    message: Option<Seq<char>>,
    docs: Option<Seq<char>>,
) -> Seq<char> {
    let base = status_meaning(
        status,
        match said(message) {
            Some(m) => m,
            None => Seq::empty(),
        },
    );
    let told = match said(message) {
        Some(m) => if text::same_ascii(m, "Not Found"@) {
            base
        } else {
            base + " GitHub says: "@ + m
        },
        None => base,
    };
    match said(docs) {
        Some(url) => told + " See: "@ + url,
        None => told,
    }
}

/// The text for an answer with `status` that holds `body`.
pub open spec fn refusal_text(status: u16, body: Option<GitHubApiErrorBody>) -> Seq<char> {
    match body {
        Some(b) => http_error_text(
            status,
            text::opt_view(b.message),
            text::opt_view(b.documentation_url),
        ),
        None => http_error_text(status, None, None),
    }
}

fn say(text: &Option<String>) -> (r: Option<String>)
    ensures
        text::opt_view(r) == said(text::opt_view(*text)),
{
    match text {
        Some(t) => {
            let t = trimmed(t.as_str());
            if t.as_str().is_empty() {
                None
            } else {
                Some(t)
            }
        },
        None => None,
    }
}

fn ascii_lower_string(s: &str) -> (r: String)
    ensures
        r@ == ascii_lowered(s@),
{
    let v = chars_of(s);
    let mut r = String::new();
    let mut i: usize = 0;
    while i < v.len()
        invariant
            i <= v.len(),
            v@ == s@,
            r@ == ascii_lowered(s@).take(i as int),
        decreases v.len() - i,
    {
        r.push(lower_char(v[i]));
        i = i + 1;
        assert(r@ =~= ascii_lowered(s@).take(i as int));
    }
    assert(r@ =~= ascii_lowered(s@));
    r
}

fn sso_mentioned(m: &str) -> (r: bool)
    ensures
        r == mentions_sso(m@),
{
    contains(m, "sso") || contains(m, "saml") || (contains(m, "organization") && contains(
        m,
        "authorize",
    )) || (contains(m, "organization") && contains(m, "grant") && contains(m, "access"))
}

pub struct GitHubClient {
    token: String,
}

impl GitHubClient {
    /// The token that requests carry.
    pub closed spec fn token_view(self) -> Seq<char> {
        self.token@
    }

    pub fn new(token: String) -> (r: Self)
        ensures
            r.token_view() == token@,
    {
        GitHubClient { token }
    }

    /// The text for a request that the API answered with `status`, where its answer held
    /// `body`, or held nothing of that form.
    pub fn classify_http_error(status: u16, body: Option<GitHubApiErrorBody>) -> (r: String)
        ensures
            r@ == refusal_text(status, body),
    {
        let body = match body {
            Some(b) => b,
            None => GitHubApiErrorBody { message: None, documentation_url: None },
        };
        let api_message = say(&body.message);
        let docs_url = say(&body.documentation_url);
        let lowered = match &api_message {
            Some(m) => ascii_lower_string(m.as_str()),
            None => ascii_lower_string(""),
        };
        proof {
            reveal_strlit("");
            assert(""@ =~= Seq::empty());
        }
        let mut message = if status == 401 {
            "GitHub API unauthorized (401): token is invalid or expired.".to_owned()
        } else if status == 403 {
            if sso_mentioned(lowered.as_str()) {
                "GitHub API forbidden (403): token is not authorized for organization SSO.".to_owned()
            } else if contains(lowered.as_str(), "rate limit") {
                "GitHub API rate limit exceeded (403).".to_owned()
            } else {
                "GitHub API forbidden (403): token may lack required repository/actions permissions.".to_owned()
            }
        } else if status == 404 {
            "GitHub API returned 404 for this repository. For private or organization repos, this usually means the token does not have access (or is not SSO-authorized).".to_owned()
        } else {
            let mut m = "GitHub API request failed (HTTP ".to_owned();
            push_dec(&mut m, status as u64);
            m.append(").");
            m
        };
        if let Some(m) = &api_message {
            if !same_ignoring_ascii_case(m.as_str(), "Not Found") {
                message.append(" GitHub says: ");
                message.append(m.as_str());
            }
        }
        if let Some(url) = &docs_url {
            message.append(" See: ");
            message.append(url.as_str());
        }
        message
    }

    /// Whether an answer counts as a success, else the text for it.
    pub fn ensure_success(status: u16, body: Option<GitHubApiErrorBody>) -> (r: Result<(), String>)
        ensures
            r is Ok <==> 200 <= status < 300,
            r is Err ==> r->Err_0@ == refusal_text(status, body),
    {
        if 200 <= status && status < 300 {
            return Ok(());
        }
        Err(GitHubClient::classify_http_error(status, body))
    }

    /// The request for `path`.
    pub fn get(&self, path: &str) -> (r: ApiRequest)
        ensures
            r.url@ == "https://api.github.com"@ + path@,
            header_views(r.headers@) == api_headers(self.token_view()),
    {
        let mut url = "https://api.github.com".to_owned();
        url.append(path);
        let mut bearer = "Bearer ".to_owned();
        bearer.append(self.token.as_str());
        let mut headers: Vec<(String, String)> = Vec::new();
        headers.push(("Authorization".to_owned(), bearer));
        headers.push(("Accept".to_owned(), "application/vnd.github+json".to_owned()));
        headers.push(("User-Agent".to_owned(), "whisper-git".to_owned()));
        headers.push(("X-GitHub-Api-Version".to_owned(), "2022-11-28".to_owned()));
        assert(header_views(headers@) =~= api_headers(self.token_view()));
        ApiRequest { url, headers }
    }

    /// The request for the latest workflow runs of a repository, on all branches or on one.
    pub fn workflow_runs(
        &self,
        owner: &str,
        repo: &str,
        branch: Option<&str>,
        per_page: u32,
    ) -> (r: ApiRequest)
        ensures
            r.url@ == "https://api.github.com"@ + runs_path(
                owner@,
                repo@,
                match branch {
                    Some(b) => Some(b@),
                    None => None,
                },
                per_page as nat,
            ),
            header_views(r.headers@) == api_headers(self.token_view()),
    {
        let mut path = "/repos/".to_owned();
        path.append(owner);
        path.append("/");
        path.append(repo);
        path.append("/actions/runs?per_page=");
        push_dec(&mut path, per_page as u64);
        if let Some(b) = branch {
            path.append("&branch=");
            path.append(b);
        }
        self.get(path.as_str())
    }
}

// ---------------------------------------------------------------------------
// Answers
// ---------------------------------------------------------------------------

/// What became of a request for workflow runs.
pub enum RunsAnswer {
    /// No answer came, for the given reason.
    Absent(String),
    /// An answer came with a status; it holds what the API says of a refusal, where it has that
    /// form, and the runs, where they could be read.
    Came(u16, Option<GitHubApiErrorBody>, Result<Vec<WorkflowRun>, String>),
}

/// Why there are no workflow runs. People are told the context; the cause lies beneath it.
#[derive(Debug)]
pub struct ApiError {
    pub context: String,
    pub cause: String,
}

/// The runs that a request gave, or why it gave none.
pub open spec fn runs_or_error(
    r: Result<Vec<WorkflowRun>, ApiError>,
    owner: Seq<char>,
    repo: Seq<char>,
    answer: RunsAnswer,
) -> bool {
    let not_fetched = "Failed to fetch workflow runs for "@ + owner + "/"@ + repo;
    match answer {
        RunsAnswer::Absent(e) => r matches Err(x) && x.context@ == not_fetched && x.cause@
            == "GitHub API transport error: "@ + e@,
        RunsAnswer::Came(status, body, runs) => if 200 <= status < 300 {
            match runs {
                Ok(v) => r == Ok::<Vec<WorkflowRun>, ApiError>(v),
                Err(e) => r matches Err(x) && x.context@ == "Failed to parse runs"@ && x.cause@
                    == e@,
            }
        } else {
            r matches Err(x) && x.context@ == not_fetched && x.cause@ == refusal_text(status, body)
        },
    }
}

fn not_fetched(owner: &str, repo: &str) -> (r: String)
    ensures
        r@ == "Failed to fetch workflow runs for "@ + owner@ + "/"@ + repo@,
{
    let mut s = "Failed to fetch workflow runs for ".to_owned();
    s.append(owner);
    s.append("/");
    s.append(repo);
    s
}

/// The workflow runs in the answer to a request for those of a repository.
pub fn runs_from_answer(owner: &str, repo: &str, answer: RunsAnswer) -> (r: Result<
    Vec<WorkflowRun>,
    ApiError,
>)
    ensures
        runs_or_error(r, owner@, repo@, answer),
{
    match answer {
        RunsAnswer::Absent(e) => {
            let mut cause = "GitHub API transport error: ".to_owned();
            cause.append(e.as_str());
            Err(ApiError { context: not_fetched(owner, repo), cause })
        },
        RunsAnswer::Came(status, body, runs) => match GitHubClient::ensure_success(status, body) {
            Err(cause) => Err(ApiError { context: not_fetched(owner, repo), cause }),
            Ok(_) => match runs {
                Ok(v) => Ok(v),
                Err(cause) => Err(ApiError { context: "Failed to parse runs".to_owned(), cause }),
            },
        },
    }
}

// ---------------------------------------------------------------------------
// Runs
// ---------------------------------------------------------------------------

#[derive(Debug)]
pub struct WorkflowRun {
    pub id: u64,
    pub name: String,
    pub head_branch: String,
    pub head_sha: String,
    pub status: String,
    pub conclusion: Option<String>,
    pub html_url: String,
}

/// A run by its views.
pub struct RunView {
    pub id: u64,
    pub name: Seq<char>,
    pub head_branch: Seq<char>,
    pub head_sha: Seq<char>,
    pub status: Seq<char>,
    pub conclusion: Option<Seq<char>>,
    pub html_url: Seq<char>,
}

impl View for WorkflowRun {
    type V = RunView;

    open spec fn view(&self) -> RunView {
        RunView {
            id: self.id,
            name: self.name@,
            head_branch: self.head_branch@,
            head_sha: self.head_sha@,
            status: self.status@,
            conclusion: text::opt_view(self.conclusion),
            html_url: self.html_url@,
        }
    }
}

/// The state of a run: its conclusion decides where it says success or failure; else a
/// completed run passed, and any other is pending.
pub open spec fn state_of(run: RunView) -> CiState {
    match run.conclusion {
        Some(c) => if c == "success"@ {
            CiState::Success
        } else if c == "failure"@ || c == "timed_out"@ || c == "cancelled"@ {
            CiState::Failure
        } else if run.status == "completed"@ {
            CiState::Success
        } else {
            CiState::Pending
        },
        None => if run.status == "completed"@ {
            CiState::Success
        } else {
            CiState::Pending
        },
    }
}

/// The check that a run amounts to.
pub open spec fn check_of(run: RunView) -> CheckView {
    CheckView { label: run.name, state: state_of(run), url: Some(run.html_url) }
}

/// The runs for the commit `sha`.
pub open spec fn runs_for(runs: Seq<RunView>, sha: Seq<char>) -> Seq<RunView>
    decreases runs.len(),
{
    if runs.len() == 0 {
        runs
    } else if runs.last().head_sha == sha {
        runs_for(runs.drop_last(), sha).push(runs.last())
    } else {
        runs_for(runs.drop_last(), sha)
    }
}

/// The index of the first run named `name`, or the number of runs.
pub open spec fn named_from(runs: Seq<RunView>, name: Seq<char>, i: int) -> int
    decreases runs.len() - i,
{
    if i >= runs.len() {
        runs.len() as int
    } else if runs[i].name == name {
        i
    } else {
        named_from(runs, name, i + 1)
    }
}

/// `kept` with `run` taken in: it takes the place of an older run of its name, gives way to
/// one that is not older, and stands last where its name is new.
pub open spec fn keep_latest(kept: Seq<RunView>, run: RunView) -> Seq<RunView> {
    let i = named_from(kept, run.name, 0);
    if i < kept.len() {
        if run.id > kept[i].id {
            kept.update(i, run)
        } else {
            kept
        }
    } else {
        kept.push(run)
    }
}

/// Of each name the run with the highest id, in the order in which the names come.
pub open spec fn latest(runs: Seq<RunView>) -> Seq<RunView>
    decreases runs.len(),
{
    if runs.len() == 0 {
        runs
    } else {
        keep_latest(latest(runs.drop_last()), runs.last())
    }
}

/// The checks that `runs` amount to.
pub open spec fn checks_of(runs: Seq<RunView>) -> Seq<CheckView> {
    Seq::new(runs.len(), |i: int| check_of(runs[i]))
}

/// The states of checks.
pub open spec fn states_of(checks: Seq<CheckView>) -> Seq<CiState> {
    Seq::new(checks.len(), |i: int| checks[i].state)
}

proof fn lemma_named_from(runs: Seq<RunView>, name: Seq<char>, i: int)
    requires
        0 <= i <= runs.len(),
    ensures
        i <= named_from(runs, name, i) <= runs.len(),
        named_from(runs, name, i) < runs.len() ==> runs[named_from(runs, name, i)].name == name,
        forall|j: int| i <= j < named_from(runs, name, i) ==> (#[trigger] runs[j]).name != name,
    decreases runs.len() - i,
{
    if i < runs.len() && runs[i].name != name {
        lemma_named_from(runs, name, i + 1);
    }
}

/// Of each name that occurs, the latest runs hold one run, no other run of that name has a
/// higher id, and every run they hold is among the given ones.
#[verifier::rlimit(40)]
#[verifier::spinoff_prover]
pub proof fn latest_holds_one_newest_run_of_each_name(runs: Seq<RunView>)
    ensures
        forall|a: int, b: int|
            0 <= a < b < latest(runs).len() ==> (#[trigger] latest(runs)[a]).name != (
            #[trigger] latest(runs)[b]).name,
        forall|a: int| 0 <= a < latest(runs).len() ==> runs.contains(#[trigger] latest(runs)[a]),
        forall|i: int|
            0 <= i < runs.len() ==> exists|a: int|
                0 <= a < latest(runs).len() && latest(runs)[a].name == (
                #[trigger] runs[i]).name && latest(runs)[a].id >= runs[i].id,
    decreases runs.len(),
{
    if runs.len() > 0 {
        let rest = runs.drop_last();
        let run = runs.last();
        let kept = latest(rest);
        let now = latest(runs);
        latest_holds_one_newest_run_of_each_name(rest);
        lemma_named_from(kept, run.name, 0);
        let n = named_from(kept, run.name, 0);
        assert forall|a: int| 0 <= a < now.len() implies runs.contains(#[trigger] now[a]) by {
            if a < kept.len() && now[a] == kept[a] {
                assert(rest.contains(kept[a]));
                let i = choose|i: int| 0 <= i < rest.len() && rest[i] == kept[a];
                assert(runs[i] == kept[a]);
            } else {
                assert(runs[runs.len() - 1] == run);
            }
        }
        assert forall|a: int, b: int| 0 <= a < b < now.len() implies (#[trigger] now[a]).name != (
        #[trigger] now[b]).name by {
            assert(a < kept.len());
            assert(now[a].name == kept[a].name);
            if b < kept.len() {
                assert(now[b].name == kept[b].name);
            } else {
                assert(n == kept.len());
                assert(kept[a].name != run.name);
            }
        }
        assert forall|i: int| 0 <= i < runs.len() implies exists|a: int|
            0 <= a < now.len() && now[a].name == (#[trigger] runs[i]).name && now[a].id
                >= runs[i].id by {
            if i < rest.len() {
                assert(runs[i] == rest[i]);
                let a = choose|a: int|
                    0 <= a < kept.len() && kept[a].name == rest[i].name && kept[a].id
                        >= rest[i].id;
                assert(now[a].name == runs[i].name && now[a].id >= runs[i].id);
            } else {
                assert(now[n].name == run.name && now[n].id >= run.id);
            }
        }
    }
}

/// The order of labels.
pub struct ByLabel;

impl Order<CiCheckStatus> for ByLabel {
    open spec fn before(a: CheckView, b: CheckView) -> bool {
        text::before_text(a.label, b.label)
    }

    proof fn is_order(a: CheckView, b: CheckView, c: CheckView) {
        text::lemma_text_order(a.label, b.label, c.label);
    }

    fn is_before(a: &CiCheckStatus, b: &CiCheckStatus) -> (r: bool) {
        text_before(a.label.as_str(), b.label.as_str())
    }
}

/// How urgent a state is: the lower, the more.
pub open spec fn urgency(state: CiState) -> int {
    match state {
        CiState::Failure => 0,
        CiState::Pending => 1,
        CiState::Success => 2,
        CiState::Absent => 3,
    }
}

fn urgency_of(state: CiState) -> (r: u8)
    ensures
        r == urgency(state),
{
    match state {
        CiState::Failure => 0,
        CiState::Pending => 1,
        CiState::Success => 2,
        CiState::Absent => 3,
    }
}

/// The most urgent states first.
pub struct ByUrgency;

impl Order<CiCheckStatus> for ByUrgency {
    open spec fn before(a: CheckView, b: CheckView) -> bool {
        urgency(a.state) < urgency(b.state)
    }

    proof fn is_order(a: CheckView, b: CheckView, c: CheckView) {
    }

    fn is_before(a: &CiCheckStatus, b: &CiCheckStatus) -> (r: bool) {
        urgency_of(a.state) < urgency_of(b.state)
    }
}

/// The state of a run.
pub fn run_state(run: &WorkflowRun) -> (r: CiState)
    ensures
        r == state_of(run@),
{
    if let Some(c) = &run.conclusion {
        if same(c.as_str(), "success") {
            return CiState::Success;
        }
        if same(c.as_str(), "failure") || same(c.as_str(), "timed_out") || same(
            c.as_str(),
            "cancelled",
        ) {
            return CiState::Failure;
        }
    }
    if same(run.status.as_str(), "completed") {
        CiState::Success
    } else {
        CiState::Pending
    }
}

fn latest_for<'a>(runs: &'a [WorkflowRun], sha: &str) -> (r: Vec<&'a WorkflowRun>)
    ensures
        text::views(r@) == latest(runs_for(text::views(runs@), sha@)),
{
    let mut kept: Vec<&'a WorkflowRun> = Vec::new();
    let mut i: usize = 0;
    let ghost all = text::views(runs@);
    assert(text::views(kept@) =~= latest(runs_for(all.take(0), sha@)));
    while i < runs.len()
        invariant
            i <= runs.len(),
            all == text::views(runs@),
            text::views(kept@) == latest(runs_for(all.take(i as int), sha@)),
        decreases runs.len() - i,
    {
        let run = &runs[i];
        proof {
            assert(all.take(i + 1).drop_last() =~= all.take(i as int));
            assert(all.take(i + 1).last() == run@);
        }
        if same(run.head_sha.as_str(), sha) {
            let ghost before = kept@;
            let mut n: usize = 0;
            while n < kept.len() && !same(kept[n].name.as_str(), run.name.as_str())
                invariant
                    n <= kept.len(),
                    named_from(text::views(kept@), run@.name, 0) == named_from(
                        text::views(kept@),
                        run@.name,
                        n as int,
                    ),
                decreases kept.len() - n,
            {
                assert(text::views(kept@)[n as int] == kept@[n as int]@);
                n = n + 1;
            }
            proof {
                if n < kept.len() {
                    assert(text::views(kept@)[n as int] == kept@[n as int]@);
                }
                let seen = runs_for(all.take(i as int), sha@);
                assert(runs_for(all.take(i + 1), sha@) == seen.push(run@));
                assert(seen.push(run@).drop_last() =~= seen);
            }
            if n < kept.len() {
                if run.id > kept[n].id {
                    kept.set(n, run);
                    assert(text::views(kept@) =~= text::views(before).update(n as int, run@));
                }
            } else {
                kept.push(run);
                assert(text::views(kept@) =~= text::views(before).push(run@));
            }
        }
        i = i + 1;
    }
    assert(all.take(all.len() as int) =~= all);
    kept
}

fn checks_for(runs: &Vec<&WorkflowRun>) -> (r: Vec<CiCheckStatus>)
    ensures
        text::views(r@) == checks_of(text::views(runs@)),
{
    let mut checks: Vec<CiCheckStatus> = Vec::new();
    let mut i: usize = 0;
    let ghost all = checks_of(text::views(runs@));
    while i < runs.len()
        invariant
            i <= runs.len(),
            all == checks_of(text::views(runs@)),
            text::views(checks@) == all.take(i as int),
        decreases runs.len() - i,
    {
        let run = runs[i];
        let ghost before = checks@;
        let check = CiCheckStatus {
            label: run.name.clone(),
            state: run_state(run),
            url: Some(run.html_url.clone()),
        };
        assert(check@ == check_of(text::views(runs@)[i as int]));
        checks.push(check);
        assert(text::views(checks@) =~= text::views(before).push(check@));
        i = i + 1;
        assert(text::views(checks@) =~= all.take(i as int));
    }
    assert(all.take(all.len() as int) =~= all);
    checks
}

fn count_checks(checks: &Vec<CiCheckStatus>) -> (r: CiCounts)
    ensures
        r.counts(states_of(text::views(checks@))),
        r.success + r.failure + r.pending <= checks.len(),
{
    let mut states: Vec<CiState> = Vec::new();
    let mut i: usize = 0;
    let ghost all = states_of(text::views(checks@));
    while i < checks.len()
        invariant
            i <= checks.len(),
            all == states_of(text::views(checks@)),
            states@ == all.take(i as int),
        decreases checks.len() - i,
    {
        states.push(checks[i].state);
        i = i + 1;
        assert(states@ =~= all.take(i as int));
    }
    assert(states@ =~= all);
    CiCounts::from_states(states.as_slice())
}

/// The summary of counts.
pub open spec fn summary_text(c: CiCounts) -> Seq<char> {
    match c.overall() {
        CiState::Failure => text::dec(c.failure as nat) + " failed, "@ + text::dec(c.pending as nat)
            + " pending, "@ + text::dec(c.success as nat) + " passed"@,
        CiState::Pending => text::dec(c.pending as nat) + " pending, "@ + text::dec(c.success as nat)
            + " passed"@,
        CiState::Success => if c.success == 1 {
            "Workflow passed"@
        } else {
            "All "@ + text::dec(c.success as nat) + " workflows passed"@
        },
        CiState::Absent => "No CI runs"@,
    }
}

fn summarize(c: &CiCounts) -> (r: String)
    requires
        c.success + c.failure + c.pending <= usize::MAX,
    ensures
        r@ == summary_text(*c),
{
    let total: usize = c.total();
    match c.overall_state() {
        CiState::Failure => {
            let mut s = dec_string(c.failure as u64);
            s.append(" failed, ");
            push_dec(&mut s, c.pending as u64);
            s.append(" pending, ");
            push_dec(&mut s, c.success as u64);
            s.append(" passed");
            s
        },
        CiState::Pending => {
            let mut s = dec_string(c.pending as u64);
            s.append(" pending, ");
            push_dec(&mut s, c.success as u64);
            s.append(" passed");
            s
        },
        CiState::Success => {
            if total == 1 {
                "Workflow passed".to_owned()
            } else {
                let mut s = "All ".to_owned();
                push_dec(&mut s, total as u64);
                s.append(" workflows passed");
                s
            }
        },
        CiState::Absent => "No CI runs".to_owned(),
    }
}

/// The index of the first check in state `x` from `i` on, or the number of checks.
pub open spec fn state_from(checks: Seq<CheckView>, x: CiState, i: int) -> int
    decreases checks.len() - i,
{
    if i >= checks.len() {
        checks.len() as int
    } else if checks[i].state == x {
        i
    } else {
        state_from(checks, x, i + 1)
    }
}

/// Where to read on: at the first failure, else at the first pending check, else at the
/// first check.
pub open spec fn first_url(checks: Seq<CheckView>) -> Option<Seq<char>> {
    let failed = state_from(checks, CiState::Failure, 0);
    let pending = state_from(checks, CiState::Pending, 0);
    if failed < checks.len() {
        checks[failed].url
    } else if pending < checks.len() {
        checks[pending].url
    } else if checks.len() > 0 {
        checks[0].url
    } else {
        None
    }
}

fn find_state(checks: &Vec<CiCheckStatus>, x: CiState) -> (r: usize)
    ensures
        r <= checks.len(),
        r == state_from(text::views(checks@), x, 0),
{
    let mut i: usize = 0;
    while i < checks.len() && checks[i].state != x
        invariant
            i <= checks.len(),
            state_from(text::views(checks@), x, 0) == state_from(text::views(checks@), x, i as int),
        decreases checks.len() - i,
    {
        assert(text::views(checks@)[i as int] == checks@[i as int]@);
        i = i + 1;
    }
    if i < checks.len() {
        assert(text::views(checks@)[i as int] == checks@[i as int]@);
    }
    i
}

/// The checks of the commit that the first run is for, in the order of their labels.
pub open spec fn head_checks(runs: Seq<RunView>) -> Seq<CheckView> {
    if runs.len() == 0 {
        Seq::empty()
    } else {
        order::sorted::<CiCheckStatus, ByLabel>(checks_of(latest(runs_for(runs, runs[0].head_sha))))
    }
}

/// Summarize workflow runs into a single CI status.
///
/// Runs arrive sorted by ID descending (most recent first). Only runs for the most recent
/// commit SHA count — older commits' runs are historical and shouldn't inflate the
/// pass/fail counts.
pub fn ci_status_from_runs(runs: &[WorkflowRun]) -> (r: CiStatus)
    ensures
        r.counts is Some,
        r.counts->0.counts(states_of(head_checks(text::views(runs@)))),
        r.state == r.counts->0.overall(),
        r.summary@ == summary_text(r.counts->0),
        text::opt_view(r.url) == first_url(head_checks(text::views(runs@))),
{
    if runs.len() == 0 {
        assert(states_of(head_checks(text::views(runs@))) =~= Seq::empty());
        return CiStatus {
            state: CiState::Absent,
            summary: "No CI runs".to_owned(),
            url: None,
            counts: Some(CiCounts { success: 0, failure: 0, pending: 0 }),
        };
    }
    assert(text::views(runs@)[0] == runs@[0]@);
    let head_runs = latest_for(runs, runs[0].head_sha.as_str());
    let checks = sort::<CiCheckStatus, ByLabel>(checks_for(&head_runs));
    let counts = count_checks(&checks);
    let state = counts.overall_state();
    let summary = summarize(&counts);
    let failed: usize = find_state(&checks, CiState::Failure);
    let pending: usize = find_state(&checks, CiState::Pending);
    proof {
        assert forall|i: int| 0 <= i < checks.len() implies text::views(checks@)[i]
            == checks@[i]@ by {}
    }
    let url = if failed < checks.len() {
        assert(text::views(checks@)[failed as int] == checks@[failed as int]@);
        checks[failed].url.clone()
    } else if pending < checks.len() {
        assert(text::views(checks@)[pending as int] == checks@[pending as int]@);
        checks[pending].url.clone()
    } else if checks.len() > 0 {
        assert(text::views(checks@)[0] == checks@[0]@);
        checks[0].url.clone()
    } else {
        None
    };
    CiStatus { state, summary, url, counts: Some(counts) }
}

/// The checks of the commit `sha`, the most urgent first.
pub open spec fn commit_checks(runs: Seq<RunView>, sha: Seq<char>) -> Seq<CheckView> {
    order::sorted::<CiCheckStatus, ByUrgency>(checks_of(latest(runs_for(runs, sha))))
}

/// Whether some run is for the commit `sha`.
pub open spec fn sha_runs(runs: Seq<RunView>, sha: Seq<char>) -> bool {
    exists|i: int| 0 <= i < runs.len() && (#[trigger] runs[i]).head_sha == sha
}

/// Whether `rollup` is that of the commit `sha`.
pub open spec fn rolls_up(rollup: CiCommitRollup, runs: Seq<RunView>, sha: Seq<char>) -> bool {
    &&& text::views(rollup.checks@) == commit_checks(runs, sha)
    &&& rollup.counts.counts(states_of(commit_checks(runs, sha)))
}

/// Build per-commit CI states from workflow runs.
pub fn per_commit_rollups(runs: &[WorkflowRun]) -> (r: TextMap<CiCommitRollup>)
    ensures
        r.wf(),
        forall|sha: Seq<char>| #[trigger] r.has(sha) <==> sha_runs(text::views(runs@), sha),
        forall|sha: Seq<char>| #[trigger]
            r.has(sha) ==> rolls_up(r.at(sha), text::views(runs@), sha),
{
    let mut r: TextMap<CiCommitRollup> = TextMap::new();
    let mut i: usize = 0;
    let ghost all = text::views(runs@);
    while i < runs.len()
        invariant
            i <= runs.len(),
            all == text::views(runs@),
            r.wf(),
            forall|sha: Seq<char>| #[trigger] r.has(sha) <==> sha_runs(all.take(i as int), sha),
            forall|sha: Seq<char>| #[trigger] r.has(sha) ==> rolls_up(r.at(sha), all, sha),
        decreases runs.len() - i,
    {
        let sha = &runs[i].head_sha;
        let ghost before = r;
        assert(all[i as int].head_sha == sha@);
        if r.get(sha.as_str()).is_none() {
            let checks = sort::<CiCheckStatus, ByUrgency>(
                checks_for(&latest_for(runs, sha.as_str())),
            );
            let counts = count_checks(&checks);
            let rollup = CiCommitRollup { counts, checks };
            proof {
                text_map::put_is_found(r.list(), sha@, rollup);
                ci::lemma_other_keys_keep(r.list(), sha@, rollup);
            }
            r.insert(sha.clone(), rollup);
            assert forall|s: Seq<char>| #[trigger] r.has(s) implies rolls_up(
                r.at(s),
                all,
                s,
            ) by {
                assert(text_map::keys_of(r.list()).contains(s));
                if s != sha@ {
                    assert(before.has(s));
                    assert(text_map::put(before.list(), sha@, rollup)[text_map::key_index(r.list(), s)]
                        == before.list()[text_map::key_index(before.list(), s)]);
                }
            }
        }
        assert forall|s: Seq<char>| #[trigger] r.has(s) <==> sha_runs(all.take(i + 1), s) by {
            assert(r.has(s) <==> before.has(s) || s == sha@) by {
                assert(text_map::keys_of(r.list()).contains(s) <==> r.has(s));
            }
            if sha_runs(all.take(i as int), s) {
                let k = choose|k: int|
                    0 <= k < all.take(i as int).len() && (#[trigger] all.take(
                        i as int,
                    )[k]).head_sha == s;
                assert(all.take(i + 1)[k].head_sha == s);
            }
            assert(all.take(i + 1)[i as int].head_sha == sha@);
            if sha_runs(all.take(i + 1), s) && s != sha@ {
                let k = choose|k: int|
                    0 <= k < all.take(i + 1).len() && (#[trigger] all.take(i + 1)[k]).head_sha
                        == s;
                assert(all.take(i as int)[k].head_sha == s);
            }
        }
        i = i + 1;
    }
    assert(all.take(all.len() as int) =~= all);
    r
}

/// The request that tells the checks of the repository at `origin_url`: its newest workflow
/// runs on all branches. None where the repository is not on GitHub.
pub fn fetch_ci_status_async(token: &str, origin_url: &str) -> (r: Option<ApiRequest>)
    ensures
        match github_remote(origin_url@) {
            Some((owner, repo)) => match r {
                Some(request) => {
                    &&& request.url@ == "https://api.github.com"@ + runs_path(owner, repo, None, 50)
                    &&& header_views(request.headers@) == api_headers(token@)
                },
                None => false,
            },
            None => r is None,
        },
{
    match parse_github_remote(origin_url) {
        Some((owner, repo)) => {
            let client = GitHubClient::new(token.to_owned());
            Some(client.workflow_runs(owner.as_str(), repo.as_str(), None, 50))
        },
        None => None,
    }
}

/// What a fetch of the workflow runs amounts to, whether it worked or not.
pub fn fetched_ci_result(runs: Result<Vec<WorkflowRun>, ApiError>) -> (r: ProviderCiResult)
    ensures
        r.provider == CiProvider::GitHub,
        r.per_commit_rollups.wf(),
        match runs {
            Ok(runs) => {
                &&& r.status.counts is Some
                &&& r.status.counts->0.counts(states_of(head_checks(text::views(runs@))))
                &&& r.status.state == r.status.counts->0.overall()
                &&& r.status.summary@ == summary_text(r.status.counts->0)
                &&& text::opt_view(r.status.url) == first_url(head_checks(text::views(runs@)))
                &&& forall|sha: Seq<char>| #[trigger]
                    r.per_commit_rollups.has(sha) <==> sha_runs(text::views(runs@), sha)
                &&& forall|sha: Seq<char>| #[trigger]
                    r.per_commit_rollups.has(sha) ==> rolls_up(
                        r.per_commit_rollups.at(sha),
                        text::views(runs@),
                        sha,
                    )
            },
            Err(e) => {
                &&& r.status.state == CiState::Absent
                &&& r.status.summary@ == "CI fetch failed: "@ + e.context@
                &&& r.status.url is None
                &&& r.status.counts is None
                &&& r.per_commit_rollups.list().len() == 0
            },
        },
{
    match runs {
        Ok(runs) => {
            let rollups = per_commit_rollups(runs.as_slice());
            ProviderCiResult {
                provider: CiProvider::GitHub,
                status: ci_status_from_runs(runs.as_slice()),
                per_commit_rollups: rollups,
            }
        },
        Err(e) => {
            let mut summary = "CI fetch failed: ".to_owned();
            summary.append(e.context.as_str());
            ProviderCiResult {
                provider: CiProvider::GitHub,
                status: CiStatus { state: CiState::Absent, summary, url: None, counts: None },
                per_commit_rollups: TextMap::new(),
            }
        },
    }
}

/// Runs for other commits than that of the first run never change the status: the checks
/// that count are those of the runs for that commit alone.
pub proof fn older_commits_do_not_count(runs: Seq<RunView>)
    requires
        runs.len() > 0,
    ensures
        head_checks(runs_for(runs, runs[0].head_sha)) == head_checks(runs),
{
    let sha = runs[0].head_sha;
    let own = runs_for(runs, sha);
    lemma_runs_for(runs, sha);
    assert(own.len() > 0) by {
        assert(runs[0].head_sha == sha);
    }
    assert(own[0].head_sha == sha);
    lemma_runs_for_same(own, sha);
}

proof fn lemma_runs_for(runs: Seq<RunView>, sha: Seq<char>)
    ensures
        forall|i: int|
            0 <= i < runs_for(runs, sha).len() ==> (#[trigger] runs_for(runs, sha)[i]).head_sha
                == sha,
        (exists|i: int| 0 <= i < runs.len() && (#[trigger] runs[i]).head_sha == sha)
            ==> runs_for(runs, sha).len() > 0,
    decreases runs.len(),
{
    if runs.len() > 0 {
        lemma_runs_for(runs.drop_last(), sha);
        if exists|i: int| 0 <= i < runs.len() && (#[trigger] runs[i]).head_sha == sha {
            let i = choose|i: int| 0 <= i < runs.len() && (#[trigger] runs[i]).head_sha == sha;
            if i < runs.len() - 1 {
                assert(runs.drop_last()[i].head_sha == sha);
            }
        }
    }
}

proof fn lemma_runs_for_same(runs: Seq<RunView>, sha: Seq<char>)
    requires
        forall|i: int| 0 <= i < runs.len() ==> (#[trigger] runs[i]).head_sha == sha,
    ensures
        runs_for(runs, sha) == runs,
    decreases runs.len(),
{
    if runs.len() > 0 {
        assert forall|i: int| 0 <= i < runs.drop_last().len() implies (
        #[trigger] runs.drop_last()[i]).head_sha == sha by {
            assert(runs[i].head_sha == sha);
        }
        lemma_runs_for_same(runs.drop_last(), sha);
        assert(runs.drop_last().push(runs.last()) =~= runs);
    }
}

// ---------------------------------------------------------------------------
// Laws
// ---------------------------------------------------------------------------

proof fn lemma_owner_cut(owner: Seq<char>, repo: Seq<char>)
    requires
        !owner.contains('/'),
    ensures
        text::cut(owner + seq!['/'] + repo, "/"@) == Some((owner, repo)),
{
    reveal_strlit("/");
    assert("/"@ =~= seq!['/']);
    text::lemma_cut_at_mark(owner, '/', "/"@, repo);
}

proof fn lemma_suffix(path: Seq<char>)
    ensures
        without_git_suffix(path + ".git"@) == path,
        !text::ends(path, ".git"@) ==> without_git_suffix(path) == path,
{
    text::beginnings_and_ends_are_taken_off(".git"@, path);
}

/// A remote at GitHub is known by its owner and its repository, whichever of its forms it is
/// written in: with or without `.git` at its end, by ssh or over the web, and with white space
/// around it. What begins otherwise is no remote at GitHub.
pub proof fn remotes_at_github_are_known(owner: Seq<char>, repo: Seq<char>, other: Seq<char>)
    requires
        owner.len() > 0,
        repo.len() > 0,
        !owner.contains('/'),
        !repo.contains('/'),
        !text::is_white(repo.last()),
        !text::ends(owner + seq!['/'] + repo, ".git"@),
        !text::begins(text::trim(other), "git@github.com:"@),
        !text::begins(text::trim(other), "https://github.com/"@),
        !text::begins(text::trim(other), "http://github.com/"@),
    ensures
        github_remote("git@github.com:"@ + (owner + seq!['/'] + repo)) == Some((owner, repo)),
        github_remote("git@github.com:"@ + (owner + seq!['/'] + repo + ".git"@)) == Some(
            (owner, repo),
        ),
        github_remote("https://github.com/"@ + (owner + seq!['/'] + repo)) == Some((owner, repo)),
        github_remote("https://github.com/"@ + (owner + seq!['/'] + repo + ".git"@)) == Some(
            (owner, repo),
        ),
        github_remote("http://github.com/"@ + (owner + seq!['/'] + repo)) == Some((owner, repo)),
        github_remote("http://github.com/"@ + (owner + seq!['/'] + repo + ".git"@)) == Some(
            (owner, repo),
        ),
        github_remote(other) is None,
{
    lemma_remote_forms(owner, repo, owner + seq!['/'] + repo);
    reveal_strlit(".git");
    lemma_remote_forms(owner, repo, owner + seq!['/'] + repo + ".git"@);
}

proof fn lemma_remote_forms(owner: Seq<char>, repo: Seq<char>, path: Seq<char>)
    requires
        owner.len() > 0,
        repo.len() > 0,
        !owner.contains('/'),
        !repo.contains('/'),
        path.len() > 0,
        !text::is_white(path.last()),
        (path == owner + seq!['/'] + repo && !text::ends(path, ".git"@)) || path == owner
            + seq!['/'] + repo + ".git"@,
    ensures
        github_remote("git@github.com:"@ + path) == Some((owner, repo)),
        github_remote("https://github.com/"@ + path) == Some((owner, repo)),
        github_remote("http://github.com/"@ + path) == Some((owner, repo)),
{
    reveal_strlit("git@github.com:");
    reveal_strlit("https://github.com/");
    reveal_strlit("http://github.com/");
    let ssh = "git@github.com:"@;
    let tls = "https://github.com/"@;
    let web = "http://github.com/"@;
    lemma_suffix(owner + seq!['/'] + repo);
    assert(without_git_suffix(path) == owner + seq!['/'] + repo);
    lemma_owner_cut(owner, repo);
    text::lemma_one_piece(repo, '/');
    text::beginnings_and_ends_are_taken_off(ssh, path);
    text::beginnings_and_ends_are_taken_off(tls, path);
    text::beginnings_and_ends_are_taken_off(web, path);
    assert((ssh + path)[0] == 'g' && (tls + path)[0] == 'h' && (web + path)[0] == 'h');
    assert((ssh + path).last() == path.last() && (tls + path).last() == path.last() && (web
        + path).last() == path.last());
    text::lemma_nothing_to_trim(ssh + path);
    text::lemma_nothing_to_trim(tls + path);
    text::lemma_nothing_to_trim(web + path);
    if text::begins(tls + path, ssh) {
        assert((tls + path).subrange(0, ssh.len() as int)[0] == 'h');
    }
    if text::begins(web + path, ssh) {
        assert((web + path).subrange(0, ssh.len() as int)[0] == 'h');
    }
    if text::begins(web + path, tls) {
        assert((web + path).subrange(0, tls.len() as int)[4] == web[4]);
        assert(tls[4] == 's' && web[4] == ':');
    }
}

/// A run failed exactly where its conclusion says that it failed, took too long or was
/// cancelled, and is pending exactly where it is not completed and has no conclusion that says
/// how it ended; every other run passed.
pub proof fn runs_fail_by_their_conclusion(run: RunView)
    ensures
        state_of(run) == CiState::Failure <==> run.conclusion == Some("failure"@) || run.conclusion
            == Some("timed_out"@) || run.conclusion == Some("cancelled"@),
        state_of(run) == CiState::Pending <==> run.status != "completed"@ && run.conclusion != Some(
            "success"@,
        ) && run.conclusion != Some("failure"@) && run.conclusion != Some("timed_out"@)
            && run.conclusion != Some("cancelled"@),
        state_of(run) != CiState::Absent,
{
    reveal_strlit("success");
    reveal_strlit("failure");
    reveal_strlit("timed_out");
    reveal_strlit("cancelled");
    assert("success"@[0] == 's' && "failure"@[0] == 'f' && "timed_out"@[0] == 't'
        && "cancelled"@[0] == 'c');
}

/// The runs for a commit are those whose commit it is, in their order.
pub proof fn runs_for_a_commit_are_its_own(runs: Seq<RunView>, sha: Seq<char>)
    ensures
        runs_for(runs, sha) == runs.filter(|r: RunView| r.head_sha == sha),
    decreases runs.len(),
{
    reveal(Seq::filter);
    if runs.len() > 0 {
        runs_for_a_commit_are_its_own(runs.drop_last(), sha);
    }
}

proof fn lemma_newest_is_kept(runs: Seq<RunView>, sha: Seq<char>, i: int)
    requires
        0 <= i < runs.len(),
        runs[i].head_sha == sha,
        forall|j: int|
            0 <= j < runs.len() && j != i && (#[trigger] runs[j]).head_sha == sha && runs[j].name
                == runs[i].name ==> runs[j].id < runs[i].id,
    ensures
        exists|k: int|
            0 <= k < latest(runs_for(runs, sha)).len() && #[trigger] latest(runs_for(runs, sha))[k]
                == runs[i],
{
    let own = runs_for(runs, sha);
    let kept = latest(own);
    let m = lemma_own_run(runs, sha, i);
    let k = lemma_latest_of(own, m);
    let n = lemma_latest_from(own, k);
    let j = lemma_run_of(runs, sha, n);
    assert(runs[j].head_sha == sha && runs[j].name == runs[i].name);
    assert(j == i);
    assert(kept[k] == runs[i]);
}

proof fn lemma_latest_of(own: Seq<RunView>, m: int) -> (k: int)
    requires
        0 <= m < own.len(),
    ensures
        0 <= k < latest(own).len(),
        latest(own)[k].name == own[m].name,
        latest(own)[k].id >= own[m].id,
{
    latest_holds_one_newest_run_of_each_name(own);
    assert(own[m].name == own[m].name);
    choose|k: int|
        0 <= k < latest(own).len() && latest(own)[k].name == own[m].name && latest(own)[k].id
            >= own[m].id
}

proof fn lemma_latest_from(own: Seq<RunView>, k: int) -> (n: int)
    requires
        0 <= k < latest(own).len(),
    ensures
        0 <= n < own.len(),
        own[n] == latest(own)[k],
{
    latest_holds_one_newest_run_of_each_name(own);
    assert(own.contains(latest(own)[k]));
    choose|n: int| 0 <= n < own.len() && own[n] == latest(own)[k]
}

proof fn lemma_own_run(runs: Seq<RunView>, sha: Seq<char>, i: int) -> (m: int)
    requires
        0 <= i < runs.len(),
        runs[i].head_sha == sha,
    ensures
        0 <= m < runs_for(runs, sha).len(),
        runs_for(runs, sha)[m] == runs[i],
    decreases runs.len(),
{
    if i < runs.len() - 1 {
        lemma_own_run(runs.drop_last(), sha, i)
    } else {
        runs_for(runs, sha).len() - 1
    }
}

proof fn lemma_run_of(runs: Seq<RunView>, sha: Seq<char>, m: int) -> (j: int)
    requires
        0 <= m < runs_for(runs, sha).len(),
    ensures
        0 <= j < runs.len(),
        runs[j] == runs_for(runs, sha)[m],
        runs[j].head_sha == sha,
    decreases runs.len(),
{
    if m < runs_for(runs.drop_last(), sha).len() {
        lemma_run_of(runs.drop_last(), sha, m)
    } else {
        runs.len() - 1
    }
}

/// The newest run of each workflow for a commit is one of its checks, under its name, in its
/// state and with its address: in the checks of that commit, and where it is the commit of the
/// first run, among those that make up the status.
pub proof fn the_newest_run_of_a_workflow_is_a_check(runs: Seq<RunView>, i: int)
    requires
        0 <= i < runs.len(),
        forall|j: int|
            0 <= j < runs.len() && j != i && (#[trigger] runs[j]).head_sha == runs[i].head_sha
                && runs[j].name == runs[i].name ==> runs[j].id < runs[i].id,
    ensures
        exists|k: int|
            0 <= k < commit_checks(runs, runs[i].head_sha).len() && #[trigger] commit_checks(
                runs,
                runs[i].head_sha,
            )[k] == (CheckView {
                label: runs[i].name,
                state: state_of(runs[i]),
                url: Some(runs[i].html_url),
            }),
        runs[i].head_sha == runs[0].head_sha ==> exists|k: int|
            0 <= k < head_checks(runs).len() && #[trigger] head_checks(runs)[k] == (CheckView {
                label: runs[i].name,
                state: state_of(runs[i]),
                url: Some(runs[i].html_url),
            }),
{
    broadcast use vstd::seq_lib::group_to_multiset_ensures;

    let sha = runs[i].head_sha;
    lemma_newest_is_kept(runs, sha, i);
    let kept = latest(runs_for(runs, sha));
    let checks = checks_of(kept);
    let k = choose|k: int| 0 <= k < kept.len() && #[trigger] kept[k] == runs[i];
    let c = checks[k];
    assert(checks.contains(c));
    order::sorting_keeps_values_and_orders_them::<CiCheckStatus, ByUrgency>(checks);
    order::sorting_keeps_values_and_orders_them::<CiCheckStatus, ByLabel>(checks);
    let a = order::sorted::<CiCheckStatus, ByUrgency>(checks);
    let b = order::sorted::<CiCheckStatus, ByLabel>(checks);
    assert(a.to_multiset().count(c) > 0 && b.to_multiset().count(c) > 0);
    assert(a.contains(c) && b.contains(c));
    let x = choose|x: int| 0 <= x < a.len() && a[x] == c;
    let y = choose|y: int| 0 <= y < b.len() && b[y] == c;
    assert(commit_checks(runs, sha)[x] == c);
    if sha == runs[0].head_sha {
        assert(head_checks(runs)[y] == c);
    }
}

/// No workflow is counted twice: there are as many checks as workflows with runs for the commit,
/// each under a name of its own. In a commit's checks those that failed come first, then those
/// that are pending, then those that passed.
pub proof fn no_workflow_is_counted_twice(runs: Seq<RunView>, sha: Seq<char>)
    ensures
        commit_checks(runs, sha).len() == latest(runs_for(runs, sha)).len(),
        forall|j: int, k: int|
            0 <= j < k < commit_checks(runs, sha).len() ==> {
                let a = (#[trigger] commit_checks(runs, sha)[j]).state;
                let b = (#[trigger] commit_checks(runs, sha)[k]).state;
                &&& b == CiState::Failure ==> a == CiState::Failure
                &&& b == CiState::Pending ==> a == CiState::Failure || a == CiState::Pending
                &&& b == CiState::Success ==> a != CiState::Absent
            },
        runs.len() > 0 ==> head_checks(runs).len() == latest(
            runs_for(runs, runs[0].head_sha),
        ).len(),
{
    let checks = checks_of(latest(runs_for(runs, sha)));
    order::sorting_keeps_values_and_orders_them::<CiCheckStatus, ByUrgency>(checks);
    let r = commit_checks(runs, sha);
    assert forall|j: int, k: int| 0 <= j < k < r.len() implies ({
        let a = (#[trigger] r[j]).state;
        let b = (#[trigger] r[k]).state;
        &&& b == CiState::Failure ==> a == CiState::Failure
        &&& b == CiState::Pending ==> a == CiState::Failure || a == CiState::Pending
        &&& b == CiState::Success ==> a != CiState::Absent
    }) by {
        assert(!ByUrgency::before(r[k], r[j]));
    }
    if runs.len() > 0 {
        order::sorting_keeps_values_and_orders_them::<CiCheckStatus, ByLabel>(
            checks_of(latest(runs_for(runs, runs[0].head_sha))),
        );
    }
}

proof fn lemma_state_from(checks: Seq<CheckView>, x: CiState, i: int)
    requires
        0 <= i <= checks.len(),
    ensures
        i <= state_from(checks, x, i) <= checks.len(),
        state_from(checks, x, i) < checks.len() ==> checks[state_from(checks, x, i)].state == x,
        forall|j: int| i <= j < state_from(checks, x, i) ==> (#[trigger] checks[j]).state != x,
    decreases checks.len() - i,
{
    if i < checks.len() && checks[i].state != x {
        lemma_state_from(checks, x, i + 1);
    }
}

/// Where something failed the address leads to the first check that failed; where nothing
/// failed but something is pending, to the first that is pending; and else to the first check.
pub proof fn the_address_leads_to_what_failed(checks: Seq<CheckView>, k: int)
    requires
        0 <= k < checks.len(),
    ensures
        checks[k].state == CiState::Failure && (forall|j: int|
            0 <= j < k ==> (#[trigger] checks[j]).state != CiState::Failure) ==> first_url(checks)
            == checks[k].url,
        checks[k].state == CiState::Pending && (forall|j: int|
            0 <= j < checks.len() ==> (#[trigger] checks[j]).state != CiState::Failure) && (
        forall|j: int| 0 <= j < k ==> (#[trigger] checks[j]).state != CiState::Pending)
            ==> first_url(checks) == checks[k].url,
        (forall|j: int|
            0 <= j < checks.len() ==> (#[trigger] checks[j]).state != CiState::Failure
                && checks[j].state != CiState::Pending) ==> first_url(checks) == checks[0].url,
        first_url(Seq::empty()) is None,
{
    lemma_state_from(checks, CiState::Failure, 0);
    lemma_state_from(checks, CiState::Pending, 0);
}

/// What the API said is told: its message, unless it only says that nothing was found, and the
/// address where to read on; what it left blank is not told.
pub proof fn what_the_api_said_is_told(status: u16, message: Seq<char>, docs: Seq<char>)
    requires
        text::trim(message).len() > 0,
        !text::same_ascii(text::trim(message), "Not Found"@),
        text::trim(docs).len() > 0,
    ensures
        http_error_text(status, Some(message), None) == status_meaning(status, text::trim(message))
            + " GitHub says: "@ + text::trim(message),
        http_error_text(status, Some(message), Some(docs)) == http_error_text(
            status,
            Some(message),
            None,
        ) + " See: "@ + text::trim(docs),
        http_error_text(status, None, Some(docs)) == status_meaning(status, Seq::empty())
            + " See: "@ + text::trim(docs),
        http_error_text(status, None, None) == status_meaning(status, Seq::empty()),
{
}

/// A refusal is told by its kind: without a valid token, without the right to see, without an
/// organization's consent, too often, or not found; any other with its number.
pub proof fn refusals_are_told_by_their_kind(status: u16, message: Seq<char>)
    ensures
        status_meaning(401, message)
            == "GitHub API unauthorized (401): token is invalid or expired."@,
        text::has(ascii_lowered(message), "saml"@) || text::has(ascii_lowered(message), "sso"@)
            ==> status_meaning(403, message)
            == "GitHub API forbidden (403): token is not authorized for organization SSO."@,
        !mentions_sso(ascii_lowered(message)) && text::has(ascii_lowered(message), "rate limit"@)
            ==> status_meaning(403, message) == "GitHub API rate limit exceeded (403)."@,
        status != 401 && status != 403 && status != 404 ==> status_meaning(status, message)
            == "GitHub API request failed (HTTP "@ + text::dec(status as nat) + ")."@,
        !text::has(ascii_lowered(message), "organization"@) && !text::has(
            ascii_lowered(message),
            "saml"@,
        ) && !text::has(ascii_lowered(message), "sso"@) ==> !mentions_sso(ascii_lowered(message)),
{
}

/// The summary tells how many checks failed, how many are pending and how many passed.
pub proof fn the_summary_tells_the_counts(c: CiCounts)
    ensures
        c.failure > 0 ==> summary_text(c) == text::dec(c.failure as nat) + " failed, "@ + text::dec(
            c.pending as nat,
        ) + " pending, "@ + text::dec(c.success as nat) + " passed"@,
        c.failure == 0 && c.pending > 0 ==> summary_text(c) == text::dec(c.pending as nat)
            + " pending, "@ + text::dec(c.success as nat) + " passed"@,
        c.failure == 0 && c.pending == 0 && c.success > 1 ==> summary_text(c) == "All "@
            + text::dec(c.success as nat) + " workflows passed"@,
        c.failure == 0 && c.pending == 0 && c.success == 1 ==> summary_text(c)
            == "Workflow passed"@,
        c.failure == 0 && c.pending == 0 && c.success == 0 ==> summary_text(c) == "No CI runs"@,
{
}

/// A request names the repository, how many runs are wanted and, where one is, the branch, and
/// carries the token.
pub proof fn a_request_names_what_is_wanted(
    owner: Seq<char>,
    repo: Seq<char>,
    branch: Seq<char>,
    per_page: nat,
    token: Seq<char>,
)
    ensures
        runs_path(owner, repo, Some(branch), per_page) == runs_path(owner, repo, None, per_page)
            + "&branch="@ + branch,
        runs_path(owner, repo, None, per_page) == "/repos/"@ + owner + "/"@ + repo
            + "/actions/runs?per_page="@ + text::dec(per_page),
        api_headers(token).contains(("Authorization"@, "Bearer "@ + token)),
{
    assert(api_headers(token)[0] == ("Authorization"@, "Bearer "@ + token));
}

/// An answer with a status of success gives the runs that were read in it; any other gives none,
/// and says for which repository, and what the refusal was.
pub proof fn an_answer_gives_its_runs(
    r: Result<Vec<WorkflowRun>, ApiError>,
    owner: Seq<char>,
    repo: Seq<char>,
    status: u16,
    body: Option<GitHubApiErrorBody>,
    runs: Vec<WorkflowRun>,
)
    requires
        runs_or_error(r, owner, repo, RunsAnswer::Came(status, body, Ok(runs))),
    ensures
        200 <= status <= 299 ==> r is Ok && r->Ok_0 == runs,
        status < 200 || status > 299 ==> r is Err && r->Err_0.context@
            == "Failed to fetch workflow runs for "@ + owner + "/"@ + repo && r->Err_0.cause@
            == refusal_text(status, body),
        body is None ==> refusal_text(status, body) == status_meaning(status, Seq::empty()),
{
}

/// The rollup of a commit is made of its checks alone, and counts each of them by its state.
pub proof fn a_rollup_counts_its_checks(rollup: CiCommitRollup, runs: Seq<RunView>, sha: Seq<char>)
    requires
        rolls_up(rollup, runs, sha),
    ensures
        text::views(rollup.checks@) == commit_checks(runs, sha),
        ({
            let states = commit_checks(runs, sha).map_values(|c: CheckView| c.state);
            &&& rollup.counts.success == states.to_multiset().count(CiState::Success)
            &&& rollup.counts.failure == states.to_multiset().count(CiState::Failure)
            &&& rollup.counts.pending == states.to_multiset().count(CiState::Pending)
        }),
{
    let checks = commit_checks(runs, sha);
    assert(states_of(checks) =~= checks.map_values(|c: CheckView| c.state));
    ci::counts_are_how_often_states_occur(rollup.counts, states_of(checks));
}

/// A commit has a rollup exactly where one of the runs is for it.
pub proof fn commits_with_runs_have_rollups(runs: Seq<RunView>, sha: Seq<char>)
    ensures
        sha_runs(runs, sha) <==> runs.filter(|r: RunView| r.head_sha == sha).len() > 0,
{
    lemma_runs_for(runs, sha);
    runs_for_a_commit_are_its_own(runs, sha);
    if runs_for(runs, sha).len() > 0 {
        let j = lemma_run_of(runs, sha, 0);
        assert(runs[j].head_sha == sha);
    }
}

} // verus!
