//! The scenes that are drawn to look at the interface without a window.
//!
//! Each scene goes by a name, under which it is written, and says which tabs are open and what
//! is set up in them. Scenes that need something of a repository are there only where an open
//! repository has it.

use crate::app::repo_state::{self, collect_real_ids};
use crate::ci::{
    self, CheckView, CiCheckStatus, CiCommitRollup, CiCounts, CiFetchResult, CiProvider, CiState,
    CiStatus, ProviderCiResult, ProviderCommitRollup, RollupView, StatusView,
};
use crate::commit_details::CommitDetail;
use crate::dialogs::{CloneForm, TokenForm};
use crate::git::refs::SubmoduleEntryView;
use crate::git::status::WorkingDirStatus;
use crate::git::{CommitInfo, CommitSubmoduleEntry, SubmoduleInfo, SubmoduleView};
use crate::oid::Oid;
use crate::order;
use crate::text::{self, lines_of};
use crate::text_map::{self, TextMap};
use vstd::prelude::*;
use vstd::string::*;

verus! {

// ---------------------------------------------------------------------------
// Scenes
// ---------------------------------------------------------------------------

/// Which of the open repositories have a tab.
#[derive(Debug, Clone, Copy, PartialEq, Eq, Structural)]
pub enum SceneTabs {
    Nothing,
    First,
    All,
}

/// An operation that the header shows as going on.
#[derive(Debug, Clone, Copy, PartialEq, Eq, Structural)]
pub enum OpSlot {
    Fetch,
    Push,
    Mutation,
}

/// What a question in a scene would do.
#[derive(Debug)]
pub enum SceneAction {
    CloseTab(usize),
    /// Pushes over what a remote has: the remote and the branch.
    ForcePush(String, String),
}

/// What is set up in a scene.
pub enum SceneSetup {
    /// Nothing besides what is there from the start.
    Fresh,
    /// Repositories that were opened before.
    RecentRepos(Vec<String>),
    LocalCollapsed,
    ShortcutBarHidden,
    /// A file whose changes are shown, and whether side by side.
    DiffFile(String, bool),
    /// A commit that is selected.
    SelectedCommit(Option<Oid>),
    /// The menu of a commit that is selected, and where it opens.
    CommitMenu(Oid, (u32, u32)),
    /// The menu of a branch, and where it opens.
    BranchMenu(String, (u32, u32)),
    Settings,
    /// A question: its title, its text, the label of its button, whether something is lost by
    /// it, and what it would do.
    Confirm(String, String, String, bool, SceneAction),
    /// What went wrong: its title and its text.
    Error(String, String),
    Clone(CloneForm),
    /// The tokens, and the hosts that are known.
    Token(TokenForm, Vec<String>),
    /// Operations that go on: what they are, their labels, and for how many seconds.
    Busy(Vec<(OpSlot, String, u64)>),
    /// Results of checks.
    Checks,
    /// Submodules in the working directory.
    Submodules,
    /// Submodules of a commit that is selected.
    CommitSubmodules(Option<Oid>),
    /// A submodule that was gone into: its name, and the commit that is pinned.
    Drilled(String, Option<Oid>),
}

pub enum ActionView {
    CloseTab(usize),
    ForcePush(Seq<char>, Seq<char>),
}

/// What is set up in a scene, by its views.
#[verifier::ext_equal]
pub enum SetupView {
    Fresh,
    RecentRepos(Seq<Seq<char>>),
    LocalCollapsed,
    ShortcutBarHidden,
    DiffFile(Seq<char>, bool),
    SelectedCommit(Option<Oid>),
    CommitMenu(Oid, (u32, u32)),
    BranchMenu(Seq<char>, (u32, u32)),
    Settings,
    Confirm(Seq<char>, Seq<char>, Seq<char>, bool, ActionView),
    Error(Seq<char>, Seq<char>),
    /// The URL, the destination and whether the clone is bare.
    Clone(Seq<char>, Seq<char>, bool),
    /// What is written for GitHub and whether it is edited, what is written for each host that
    /// is edited, and the hosts.
    Token(Seq<char>, bool, Seq<(Seq<char>, Seq<char>)>, Seq<Seq<char>>),
    Busy(Seq<(OpSlot, Seq<char>, u64)>),
    Checks,
    Submodules,
    CommitSubmodules(Option<Oid>),
    Drilled(Seq<char>, Option<Oid>),
}

impl View for SceneAction {
    type V = ActionView;

    open spec fn view(&self) -> ActionView {
        match self {
            SceneAction::CloseTab(i) => ActionView::CloseTab(*i),
            SceneAction::ForcePush(r, b) => ActionView::ForcePush(r@, b@),
        }
    }
}

/// Operations by their views.
pub open spec fn op_views(s: Seq<(OpSlot, String, u64)>) -> Seq<(OpSlot, Seq<char>, u64)> {
    Seq::new(s.len(), |i: int| (s[i].0, s[i].1@, s[i].2))
}

impl View for SceneSetup {
    type V = SetupView;

    open spec fn view(&self) -> SetupView {
        match self {
            SceneSetup::Fresh => SetupView::Fresh,
            SceneSetup::RecentRepos(v) => SetupView::RecentRepos(text::views(v@)),
            SceneSetup::LocalCollapsed => SetupView::LocalCollapsed,
            SceneSetup::ShortcutBarHidden => SetupView::ShortcutBarHidden,
            SceneSetup::DiffFile(p, s) => SetupView::DiffFile(p@, *s),
            SceneSetup::SelectedCommit(c) => SetupView::SelectedCommit(*c),
            SceneSetup::CommitMenu(c, at) => SetupView::CommitMenu(*c, *at),
            SceneSetup::BranchMenu(b, at) => SetupView::BranchMenu(b@, *at),
            SceneSetup::Settings => SetupView::Settings,
            SceneSetup::Confirm(t, b, l, d, a) => SetupView::Confirm(t@, b@, l@, *d, a@),
            SceneSetup::Error(t, b) => SetupView::Error(t@, b@),
            SceneSetup::Clone(f) => SetupView::Clone(f.url@, f.dest@, f.bare),
            SceneSetup::Token(f, hosts) => SetupView::Token(
                f.github_input@,
                f.editing_github,
                f.gitlab_inputs@,
                text::views(hosts@),
            ),
            SceneSetup::Busy(ops) => SetupView::Busy(op_views(ops@)),
            SceneSetup::Checks => SetupView::Checks,
            SceneSetup::Submodules => SetupView::Submodules,
            SceneSetup::CommitSubmodules(c) => SetupView::CommitSubmodules(*c),
            SceneSetup::Drilled(n, c) => SetupView::Drilled(n@, *c),
        }
    }
}

/// A scene.
pub struct Scene {
    /// The name under which it is written.
    pub name: String,
    pub tabs: SceneTabs,
    pub setup: SceneSetup,
}

/// A scene by its views.
#[verifier::ext_equal]
pub struct SceneView {
    pub name: Seq<char>,
    pub tabs: SceneTabs,
    pub setup: SetupView,
}

impl View for Scene {
    type V = SceneView;

    open spec fn view(&self) -> SceneView {
        SceneView { name: self.name@, tabs: self.tabs, setup: self.setup@ }
    }
}

/// What is known of a repository that is open.
pub struct OpenedRepo {
    pub commits: Vec<CommitInfo>,
    /// The status of the working directory that is shown, where one is.
    pub status: Option<WorkingDirStatus>,
}

/// The file whose changes are shown: the first that is changed, else the first that is new,
/// else the first that is staged.
pub open spec fn diff_target(repo: OpenedRepo) -> Option<Seq<char>> {
    match repo.status {
        None => None,
        Some(s) => if s.unstaged@.len() > 0 {
            Some(s.unstaged@[0].path@)
        } else if s.untracked@.len() > 0 {
            Some(s.untracked@[0].path@)
        } else if s.staged@.len() > 0 {
            Some(s.staged@[0].path@)
        } else {
            None
        },
    }
}

/// The `n`th commit that is one, counted from zero.
pub open spec fn nth_real(commits: Seq<CommitInfo>, n: int) -> Option<Oid> {
    if n < repo_state::real_ids(commits).len() {
        Some(repo_state::real_ids(commits)[n])
    } else {
        None
    }
}

/// A scene with the first repository.
pub open spec fn with_first(name: Seq<char>, setup: SetupView) -> SceneView {
    SceneView { name, tabs: SceneTabs::First, setup }
}

/// The scenes without a repository.
pub open spec fn welcome_scenes() -> Seq<SceneView> {
    seq![
        SceneView {
            name: "welcome_empty"@,
            tabs: SceneTabs::Nothing,
            setup: SetupView::Fresh,
        },
        SceneView {
            name: "welcome_recents"@,
            tabs: SceneTabs::Nothing,
            setup: SetupView::RecentRepos(
                seq![
                    "/home/example/Projects/whisper-git"@,
                    "/home/example/Projects/aetna"@,
                    "/home/example/work/dotfiles"@,
                ],
            ),
        },
    ]
}

/// The scenes of the sidebar.
pub open spec fn sidebar_scenes() -> Seq<SceneView> {
    seq![
        with_first("sidebar_default"@, SetupView::Fresh),
        with_first("sidebar_local_collapsed"@, SetupView::LocalCollapsed),
        with_first("sidebar_shortcuts_collapsed"@, SetupView::ShortcutBarHidden),
    ]
}

/// The scenes of a file's changes, where a file has some.
pub open spec fn diff_scenes(target: Option<Seq<char>>) -> Seq<SceneView> {
    match target {
        Some(path) => seq![
            with_first("diff_view"@, SetupView::DiffFile(path, false)),
            with_first("diff_view_split"@, SetupView::DiffFile(path, true)),
        ],
        None => Seq::empty(),
    }
}

/// The scenes of the history.
pub open spec fn history_scenes(pick: Option<Oid>) -> Seq<SceneView> {
    seq![with_first("history_view"@, SetupView::SelectedCommit(pick))] + (match pick {
        Some(id) => seq![
            with_first("history_context_menu"@, SetupView::CommitMenu(id, (480, 200))),
        ],
        None => Seq::empty(),
    })
}

/// The scenes of dialogs.
pub open spec fn modal_scenes() -> Seq<SceneView> {
    seq![
        with_first("modal_settings"@, SetupView::Settings),
        with_first(
            "modal_confirm_destructive"@,
            SetupView::Confirm(
                "Delete branch"@,
                "Delete local branch 'feature/old' permanently?"@,
                "Delete"@,
                true,
                ActionView::CloseTab(0),
            ),
        ),
        with_first(
            "modal_confirm_force_push"@,
            SetupView::Confirm(
                "Push rejected"@,
                "Push rejected: Remote has new commits. Pull first, or use Force Push.\n\nremote rejected the push: non-fast-forward updates were rejected\n\nForce push will overwrite remote history. Only do this if you're certain no one else has based work on main."@,
                "Force push"@,
                true,
                ActionView::ForcePush("origin"@, "main"@),
            ),
        ),
        with_first(
            "modal_error"@,
            SetupView::Error(
                "Push failed"@,
                "remote rejected the push: non-fast-forward updates were rejected"@,
            ),
        ),
        with_first(
            "modal_clone"@,
            SetupView::Clone(
                "https://github.com/example/widget.git"@,
                "/home/example/Projects/widget"@,
                false,
            ),
        ),
        with_first(
            "modal_token"@,
            SetupView::Token(Seq::empty(), false, Seq::empty(), Seq::empty()),
        ),
        with_first(
            "modal_token_edit"@,
            SetupView::Token("ghp_demo123"@, true, Seq::empty(), Seq::empty()),
        ),
        with_first(
            "modal_token_gitlab"@,
            SetupView::Token(
                Seq::empty(),
                false,
                seq![("gitlab.company.example"@, "glpat_demo"@)],
                seq!["gitlab.com"@, "gitlab.company.example"@],
            ),
        ),
    ]
}

/// The scenes of menus and of operations that go on.
pub open spec fn header_scenes() -> Seq<SceneView> {
    seq![
        with_first("sidebar_context_menu"@, SetupView::BranchMenu("main"@, (90, 200))),
        with_first("header_fetch_busy"@, SetupView::Busy(seq![(OpSlot::Fetch, "from origin"@, 4)])),
        with_first(
            "header_fetch_stalled"@,
            SetupView::Busy(seq![(OpSlot::Fetch, "from origin"@, 75)]),
        ),
        with_first(
            "header_push_and_mutation"@,
            SetupView::Busy(
                seq![
                    (OpSlot::Push, "main \u{2192} origin"@, 8),
                    (OpSlot::Mutation, "cherry-pick abc1234"@, 90),
                ],
            ),
        ),
    ]
}

/// The scenes of checks and submodules.
pub open spec fn fixture_scenes(pick: Option<Oid>, pinned: Option<Oid>) -> Seq<SceneView> {
    seq![
        with_first("history_with_ci"@, SetupView::Checks),
        with_first("staging_with_submodules"@, SetupView::Submodules),
        with_first("commit_detail_with_submodules"@, SetupView::CommitSubmodules(pick)),
        with_first("drilled_into_submodule"@, SetupView::Drilled("vendor/embassy"@, pinned)),
    ]
}

/// The scenes with one repository. A submodule that is gone into is pinned to the fourth commit,
/// so that the pin stands apart from the branches on top.
pub open spec fn repo_scenes(repo: OpenedRepo) -> Seq<SceneView> {
    let pick = nth_real(repo.commits@, 0);
    sidebar_scenes() + diff_scenes(diff_target(repo)) + history_scenes(pick) + modal_scenes()
        + header_scenes() + fixture_scenes(pick, nth_real(repo.commits@, 3))
}

/// The scenes for the repositories that are open.
pub open spec fn all_scenes(opened: Seq<OpenedRepo>) -> Seq<SceneView> {
    welcome_scenes() + (if opened.len() > 0 {
        repo_scenes(opened[0])
    } else {
        Seq::empty()
    }) + (if opened.len() >= 2 {
        seq![
            SceneView {
                name: "sidebar_multi_tab"@,
                tabs: SceneTabs::All,
                setup: SetupView::Fresh,
            },
        ]
    } else {
        Seq::empty()
    })
}

fn put(scenes: &mut Vec<Scene>, name: &str, tabs: SceneTabs, setup: SceneSetup)
    ensures
        text::views(final(scenes)@) == text::views(old(scenes)@).push(
            SceneView { name: name@, tabs, setup: setup@ },
        ),
{
    let ghost before = scenes@;
    let one = Scene { name: name.to_owned(), tabs, setup };
    let ghost seen = one@;
    scenes.push(one);
    assert(text::views(scenes@) =~= text::views(before).push(seen));
}

fn put_first(scenes: &mut Vec<Scene>, name: &str, setup: SceneSetup)
    ensures
        text::views(final(scenes)@) == text::views(old(scenes)@).push(
            with_first(name@, setup@),
        ),
{
    put(scenes, name, SceneTabs::First, setup);
}

fn put_welcome_scenes(scenes: &mut Vec<Scene>)
    ensures
        text::views(final(scenes)@) == text::views(old(scenes)@) + welcome_scenes(),
{
    let ghost before = text::views(scenes@);
    put(scenes, "welcome_empty", SceneTabs::Nothing, SceneSetup::Fresh);
    let mut recent: Vec<String> = Vec::new();
    recent.push("/home/example/Projects/whisper-git".to_owned());
    recent.push("/home/example/Projects/aetna".to_owned());
    recent.push("/home/example/work/dotfiles".to_owned());
    assert(text::views(recent@) =~= seq![
        "/home/example/Projects/whisper-git"@,
        "/home/example/Projects/aetna"@,
        "/home/example/work/dotfiles"@,
    ]);
    put(scenes, "welcome_recents", SceneTabs::Nothing, SceneSetup::RecentRepos(recent));
    assert(text::views(scenes@) =~= before + welcome_scenes());
}

fn put_diff_scenes(scenes: &mut Vec<Scene>, repo: &OpenedRepo)
    ensures
        text::views(final(scenes)@) == text::views(old(scenes)@) + diff_scenes(
            diff_target(*repo),
        ),
{
    let ghost before = text::views(scenes@);
    if let Some(s) = &repo.status {
        let file = if s.unstaged.len() > 0 {
            Some(&s.unstaged[0])
        } else if s.untracked.len() > 0 {
            Some(&s.untracked[0])
        } else if s.staged.len() > 0 {
            Some(&s.staged[0])
        } else {
            None
        };
        if let Some(f) = file {
            put_first(scenes, "diff_view", SceneSetup::DiffFile(f.path.clone(), false));
            put_first(scenes, "diff_view_split", SceneSetup::DiffFile(f.path.clone(), true));
        }
    }
    assert(text::views(scenes@) =~= before + diff_scenes(diff_target(*repo)));
}

fn put_history_scenes(scenes: &mut Vec<Scene>, pick: Option<Oid>)
    ensures
        text::views(final(scenes)@) == text::views(old(scenes)@) + history_scenes(pick),
{
    let ghost before = text::views(scenes@);
    put_first(scenes, "history_view", SceneSetup::SelectedCommit(pick));
    if let Some(id) = pick {
        put_first(scenes, "history_context_menu", SceneSetup::CommitMenu(id, (480, 200)));
    }
    assert(text::views(scenes@) =~= before + history_scenes(pick));
}

fn question_scenes(scenes: &mut Vec<Scene>)
    ensures
        text::views(final(scenes)@) == text::views(old(scenes)@) + modal_scenes().take(4),
{
    let ghost before = text::views(scenes@);
    put_first(scenes, "modal_settings", SceneSetup::Settings);
    put_first(
        scenes,
        "modal_confirm_destructive",
        SceneSetup::Confirm(
            "Delete branch".to_owned(),
            "Delete local branch 'feature/old' permanently?".to_owned(),
            "Delete".to_owned(),
            true,
            SceneAction::CloseTab(0),
        ),
    );
    put_first(
        scenes,
        "modal_confirm_force_push",
        SceneSetup::Confirm(
            "Push rejected".to_owned(),
            "Push rejected: Remote has new commits. Pull first, or use Force Push.\n\nremote rejected the push: non-fast-forward updates were rejected\n\nForce push will overwrite remote history. Only do this if you're certain no one else has based work on main.".to_owned(),
            "Force push".to_owned(),
            true,
            SceneAction::ForcePush("origin".to_owned(), "main".to_owned()),
        ),
    );
    put_first(
        scenes,
        "modal_error",
        SceneSetup::Error(
            "Push failed".to_owned(),
            "remote rejected the push: non-fast-forward updates were rejected".to_owned(),
        ),
    );
    assert(text::views(scenes@) =~= before + modal_scenes().take(4));
}

fn form_scenes(scenes: &mut Vec<Scene>)
    ensures
        text::views(final(scenes)@) == text::views(old(scenes)@) + modal_scenes().skip(4),
{
    let ghost before = text::views(scenes@);
    let mut clone = CloneForm::default();
    clone.url = "https://github.com/example/widget.git".to_owned();
    clone.dest = "/home/example/Projects/widget".to_owned();
    put_first(scenes, "modal_clone", SceneSetup::Clone(clone));
    let none: Vec<String> = Vec::new();
    assert(text::views(none@) =~= Seq::<Seq<char>>::empty());
    put_first(scenes, "modal_token", SceneSetup::Token(TokenForm::default(), none));
    let mut edit = TokenForm::default();
    edit.editing_github = true;
    edit.github_input = "ghp_demo123".to_owned();
    let none: Vec<String> = Vec::new();
    assert(text::views(none@) =~= Seq::<Seq<char>>::empty());
    put_first(scenes, "modal_token_edit", SceneSetup::Token(edit, none));
    let mut hosts: Vec<String> = Vec::new();
    hosts.push("gitlab.com".to_owned());
    hosts.push("gitlab.company.example".to_owned());
    assert(text::views(hosts@) =~= seq!["gitlab.com"@, "gitlab.company.example"@]);
    let mut inputs: TextMap<String> = TextMap::new();
    inputs.insert("gitlab.company.example".to_owned(), "glpat_demo".to_owned());
    assert(inputs@ =~= seq![("gitlab.company.example"@, "glpat_demo"@)]);
    let gitlab = TokenForm {
        github_input: String::new(),
        editing_github: false,
        gitlab_inputs: inputs,
    };
    put_first(scenes, "modal_token_gitlab", SceneSetup::Token(gitlab, hosts));
    assert(text::views(scenes@) =~= before + modal_scenes().skip(4));
}

fn one_op(slot: OpSlot, label: &str, age_secs: u64) -> (r: Vec<(OpSlot, String, u64)>)
    ensures
        op_views(r@) == seq![(slot, label@, age_secs)],
{
    let mut r: Vec<(OpSlot, String, u64)> = Vec::new();
    r.push((slot, label.to_owned(), age_secs));
    assert(op_views(r@) =~= seq![(slot, label@, age_secs)]);
    r
}

fn put_header_scenes(scenes: &mut Vec<Scene>)
    ensures
        text::views(final(scenes)@) == text::views(old(scenes)@) + header_scenes(),
{
    let ghost before = text::views(scenes@);
    put_first(
        scenes,
        "sidebar_context_menu",
        SceneSetup::BranchMenu("main".to_owned(), (90, 200)),
    );
    put_first(
        scenes,
        "header_fetch_busy",
        SceneSetup::Busy(one_op(OpSlot::Fetch, "from origin", 4)),
    );
    put_first(
        scenes,
        "header_fetch_stalled",
        SceneSetup::Busy(one_op(OpSlot::Fetch, "from origin", 75)),
    );
    let mut ops: Vec<(OpSlot, String, u64)> = Vec::new();
    ops.push((OpSlot::Push, "main \u{2192} origin".to_owned(), 8));
    ops.push((OpSlot::Mutation, "cherry-pick abc1234".to_owned(), 90));
    assert(op_views(ops@) =~= seq![
        (OpSlot::Push, "main \u{2192} origin"@, 8u64),
        (OpSlot::Mutation, "cherry-pick abc1234"@, 90u64),
    ]);
    put_first(scenes, "header_push_and_mutation", SceneSetup::Busy(ops));
    assert(text::views(scenes@) =~= before + header_scenes());
}

fn put_fixture_scenes(scenes: &mut Vec<Scene>, pick: Option<Oid>, pinned: Option<Oid>)
    ensures
        text::views(final(scenes)@) == text::views(old(scenes)@) + fixture_scenes(pick, pinned),
{
    let ghost before = text::views(scenes@);
    put_first(scenes, "history_with_ci", SceneSetup::Checks);
    put_first(scenes, "staging_with_submodules", SceneSetup::Submodules);
    put_first(scenes, "commit_detail_with_submodules", SceneSetup::CommitSubmodules(pick));
    put_first(
        scenes,
        "drilled_into_submodule",
        SceneSetup::Drilled("vendor/embassy".to_owned(), pinned),
    );
    assert(text::views(scenes@) =~= before + fixture_scenes(pick, pinned));
}

fn put_repo_scenes(scenes: &mut Vec<Scene>, repo: &OpenedRepo)
    ensures
        text::views(final(scenes)@) == text::views(old(scenes)@) + repo_scenes(*repo),
{
    let ghost before = text::views(scenes@);
    put_first(scenes, "sidebar_default", SceneSetup::Fresh);
    put_first(scenes, "sidebar_local_collapsed", SceneSetup::LocalCollapsed);
    put_first(scenes, "sidebar_shortcuts_collapsed", SceneSetup::ShortcutBarHidden);
    assert(text::views(scenes@) =~= before + sidebar_scenes());
    put_diff_scenes(scenes, repo);
    let ids = collect_real_ids(&repo.commits);
    let pick = if ids.len() > 0 {
        Some(ids[0])
    } else {
        None
    };
    let pinned = if ids.len() > 3 {
        Some(ids[3])
    } else {
        None
    };
    put_history_scenes(scenes, pick);
    let ghost mid = text::views(scenes@);
    question_scenes(scenes);
    form_scenes(scenes);
    assert(text::views(scenes@) =~= mid + modal_scenes());
    put_header_scenes(scenes);
    put_fixture_scenes(scenes, pick, pinned);
    assert(text::views(scenes@) =~= before + repo_scenes(*repo));
}

/// The scenes for the repositories that are open, each with what is set up in it.
pub fn build_scenes(opened: &Vec<OpenedRepo>) -> (r: Vec<Scene>)
    ensures
        text::views(r@) == all_scenes(opened@),
{
    let mut scenes: Vec<Scene> = Vec::new();
    assert(text::views(scenes@) =~= Seq::<SceneView>::empty());
    put_welcome_scenes(&mut scenes);
    if opened.len() > 0 {
        put_repo_scenes(&mut scenes, &opened[0]);
    }
    if opened.len() >= 2 {
        put(&mut scenes, "sidebar_multi_tab", SceneTabs::All, SceneSetup::Fresh);
    }
    assert(text::views(scenes@) =~= all_scenes(opened@));
    scenes
}

// ---------------------------------------------------------------------------
// Checks
// ---------------------------------------------------------------------------

/// The checks of the newest commit at GitHub, one of each state.
pub open spec fn head_checks() -> Seq<CheckView> {
    seq![
        CheckView {
            label: "build"@,
            state: CiState::Failure,
            url: Some("https://example.com/runs/build"@),
        },
        CheckView { label: "test"@, state: CiState::Success, url: None },
        CheckView { label: "lint"@, state: CiState::Pending, url: None },
    ]
}

/// What the checks of the newest commit amount to at GitHub.
pub open spec fn head_counts() -> CiCounts {
    CiCounts { success: 1, failure: 1, pending: 1 }
}

/// The state of the commit at place `i`.
pub open spec fn state_at(i: int) -> CiState {
    if i % 3 == 0 {
        CiState::Success
    } else if i % 3 == 1 {
        CiState::Pending
    } else {
        CiState::Failure
    }
}

/// The counts of one check.
pub open spec fn counts_of(s: CiState) -> CiCounts {
    CiCounts {
        success: if s == CiState::Success {
            1
        } else {
            0
        },
        failure: if s == CiState::Failure {
            1
        } else {
            0
        },
        pending: if s == CiState::Pending {
            1
        } else {
            0
        },
    }
}

/// The checks of the commit at place `i` at GitHub.
pub open spec fn github_rollup(i: int) -> RollupView {
    if i == 0 {
        RollupView { counts: head_counts(), checks: head_checks() }
    } else {
        RollupView {
            counts: counts_of(state_at(i)),
            checks: seq![CheckView { label: "build"@, state: state_at(i), url: None }],
        }
    }
}

/// The checks of the commits at GitHub, each by the digits of its id.
pub open spec fn github_rollups(checked: Seq<Oid>) -> Seq<(Seq<char>, RollupView)> {
    text_map::put_all(
        Seq::new(checked.len(), |i: int| (checked[i].digits(), github_rollup(i))),
    )
}

/// The result of GitHub.
pub open spec fn is_github_fixture(r: ProviderCiResult, checked: Seq<Oid>) -> bool {
    &&& r.provider == CiProvider::GitHub
    &&& r.status@ == (StatusView {
        state: CiState::Failure,
        summary: "1 failed, 1 pending, 1 passed"@,
        url: Some("https://github.com/example/repo/actions"@),
        counts: Some(head_counts()),
    })
    &&& r.per_commit_rollups.wf()
    &&& r.per_commit_rollups@ == github_rollups(checked)
}

/// The result of GitLab, which knows the newest commit only.
pub open spec fn is_gitlab_fixture(r: ProviderCiResult, head: Oid) -> bool {
    let counts = CiCounts { success: 1, failure: 0, pending: 0 };
    &&& r.provider == CiProvider::GitLab
    &&& r.status@ == (StatusView {
        state: CiState::Success,
        summary: "Pipeline passed"@,
        url: Some("https://gitlab.example/pipelines"@),
        counts: Some(counts),
    })
    &&& r.per_commit_rollups.wf()
    &&& r.per_commit_rollups@ == seq![
        (
            head.digits(),
            RollupView {
                counts,
                checks: seq![
                    CheckView {
                        label: "Pipeline #4242"@,
                        state: CiState::Success,
                        url: Some("https://gitlab.example/pipeline/4242"@),
                    },
                ],
            },
        ),
    ]
}

/// The commits that the fixture gives checks: the first six that are commits.
pub open spec fn checked_commits(commits: Seq<CommitInfo>) -> Seq<Oid> {
    let ids = repo_state::real_ids(commits);
    if ids.len() > 6 {
        ids.take(6)
    } else {
        ids
    }
}

fn check(label: &str, state: CiState, url: Option<&str>) -> (r: CiCheckStatus)
    ensures
        r@ == (CheckView { label: label@, state, url: match url {
            Some(u) => Some(u@),
            None => None,
        } }),
{
    let url = match url {
        Some(u) => Some(u.to_owned()),
        None => None,
    };
    CiCheckStatus { label: label.to_owned(), state, url }
}

fn head_rollup() -> (r: CiCommitRollup)
    ensures
        r@ == github_rollup(0),
{
    let mut checks: Vec<CiCheckStatus> = Vec::new();
    checks.push(check("build", CiState::Failure, Some("https://example.com/runs/build")));
    checks.push(check("test", CiState::Success, None));
    checks.push(check("lint", CiState::Pending, None));
    let states = [CiState::Failure, CiState::Success, CiState::Pending];
    let counts = CiCounts::from_states(states.as_slice());
    proof {
        reveal_with_fuel(ci::tally, 4);
        assert(states@ =~= seq![CiState::Failure, CiState::Success, CiState::Pending]);
        assert(counts == head_counts());
    }
    let r = CiCommitRollup { counts, checks };
    assert(r@ =~= github_rollup(0));
    r
}

fn older_rollup(i: usize) -> (r: CiCommitRollup)
    requires
        i > 0,
    ensures
        r@ == github_rollup(i as int),
{
    let state = match i % 3 {
        0 => CiState::Success,
        1 => CiState::Pending,
        _ => CiState::Failure,
    };
    let states = [state];
    let counts = CiCounts::from_states(states.as_slice());
    proof {
        reveal_with_fuel(ci::tally, 2);
        assert(states@ =~= seq![state]);
        assert(counts == counts_of(state));
    }
    let mut checks: Vec<CiCheckStatus> = Vec::new();
    checks.push(check("build", state, None));
    let r = CiCommitRollup { counts, checks };
    assert(r@ =~= github_rollup(i as int));
    r
}

fn github_fixture(checked: &Vec<Oid>) -> (r: ProviderCiResult)
    requires
        checked.len() > 0,
    ensures
        is_github_fixture(r, checked@),
{
    let mut per_commit: TextMap<CiCommitRollup> = TextMap::new();
    let ghost pairs = Seq::new(
        checked@.len(),
        |i: int| (checked@[i].digits(), github_rollup(i)),
    );
    let mut i: usize = 0;
    assert(per_commit@ =~= text_map::put_all(pairs.take(0)));
    while i < checked.len()
        invariant
            i <= checked.len(),
            pairs == Seq::new(checked@.len(), |i: int| (checked@[i].digits(), github_rollup(i))),
            per_commit.wf(),
            per_commit@ == text_map::put_all(pairs.take(i as int)),
        decreases checked.len() - i,
    {
        let ghost before = per_commit;
        let rollup = if i == 0 {
            head_rollup()
        } else {
            older_rollup(i)
        };
        per_commit.insert(checked[i].to_hex(), rollup);
        proof {
            text_map::lemma_put_view(before, per_commit, checked@[i as int].digits(), rollup);
            assert(pairs.take(i + 1).drop_last() =~= pairs.take(i as int));
            assert(pairs.take(i + 1).last() == pairs[i as int]);
        }
        i = i + 1;
    }
    assert(pairs.take(pairs.len() as int) =~= pairs);
    let status = CiStatus {
        state: CiState::Failure,
        summary: "1 failed, 1 pending, 1 passed".to_owned(),
        url: Some("https://github.com/example/repo/actions".to_owned()),
        counts: Some(CiCounts { success: 1, failure: 1, pending: 1 }),
    };
    ProviderCiResult { provider: CiProvider::GitHub, status, per_commit_rollups: per_commit }
}

fn gitlab_fixture(head: &Oid) -> (r: ProviderCiResult)
    ensures
        is_gitlab_fixture(r, *head),
{
    let counts = CiCounts { success: 1, failure: 0, pending: 0 };
    let mut checks: Vec<CiCheckStatus> = Vec::new();
    checks.push(
        check("Pipeline #4242", CiState::Success, Some("https://gitlab.example/pipeline/4242")),
    );
    let rollup = CiCommitRollup { counts, checks };
    let ghost seen = RollupView {
        counts,
        checks: seq![
            CheckView {
                label: "Pipeline #4242"@,
                state: CiState::Success,
                url: Some("https://gitlab.example/pipeline/4242"@),
            },
        ],
    };
    assert(rollup@ =~= seen);
    let mut per_commit: TextMap<CiCommitRollup> = TextMap::new();
    per_commit.insert(head.to_hex(), rollup);
    assert(per_commit@ =~= seq![(head.digits(), seen)]);
    let status = CiStatus {
        state: CiState::Success,
        summary: "Pipeline passed".to_owned(),
        url: Some("https://gitlab.example/pipelines".to_owned()),
        counts: Some(counts),
    };
    ProviderCiResult { provider: CiProvider::GitLab, status, per_commit_rollups: per_commit }
}

/// Gives the first few commits results of checks: at GitHub a mix of states, at GitLab a
/// success for the newest. Without a commit nothing changes.
pub fn inject_synthetic_ci(
    commits: &Vec<CommitInfo>,
    results: &mut Vec<ProviderCiResult>,
    per_commit: &mut TextMap<Vec<ProviderCommitRollup>>,
)
    ensures
        checked_commits(commits@).len() == 0 ==> {
            &&& final(results)@ == old(results)@
            &&& *final(per_commit) == *old(per_commit)
        },
        checked_commits(commits@).len() > 0 ==> {
            let shown = final(results)@;
            &&& shown.len() == 2
            &&& is_github_fixture(shown[0], checked_commits(commits@))
            &&& is_gitlab_fixture(shown[1], checked_commits(commits@)[0])
            &&& final(per_commit).wf()
            &&& forall|sha: Seq<char>| #[trigger]
                final(per_commit).has(sha) <==> ci::sha_known(shown, sha)
            &&& forall|sha: Seq<char>| #[trigger]
                final(per_commit).has(sha) ==> text::views(final(per_commit).at(sha)@)
                    == order::sorted::<ProviderCommitRollup, ci::ByProvider>(
                    ci::rollups_for(shown, sha),
                )
        },
{
    let ids = collect_real_ids(commits);
    let mut checked: Vec<Oid> = Vec::new();
    let mut i: usize = 0;
    while i < ids.len() && i < 6
        invariant
            i <= ids.len(),
            i <= 6,
            checked@ == ids@.take(i as int),
        decreases ids.len() - i,
    {
        checked.push(ids[i]);
        assert(ids@.take(i + 1) =~= ids@.take(i as int).push(ids@[i as int]));
        i = i + 1;
    }
    assert(checked@ =~= checked_commits(commits@));
    if checked.len() == 0 {
        return ;
    }
    let mut providers: Vec<ProviderCiResult> = Vec::new();
    providers.push(github_fixture(&checked));
    providers.push(gitlab_fixture(&checked[0]));
    let merged = CiFetchResult { providers };
    *per_commit = merged.per_commit_provider_rollups();
    *results = merged.providers;
}

/// The newest commit shows every state at GitHub, and the counts are those of its checks.
pub proof fn newest_commit_shows_every_state(state: CiState)
    requires
        state != CiState::Absent,
    ensures
        exists|i: int|
            0 <= i < head_checks().len() && (#[trigger] head_checks()[i]).state == state,
        head_counts().counts(Seq::new(head_checks().len(), |i: int| head_checks()[i].state)),
{
    let states = Seq::new(head_checks().len(), |i: int| head_checks()[i].state);
    assert(states =~= seq![CiState::Failure, CiState::Success, CiState::Pending]);
    reveal_with_fuel(ci::tally, 4);
    let i: int = match state {
        CiState::Failure => 0,
        CiState::Success => 1,
        _ => 2,
    };
    assert(head_checks()[i].state == state);
}

// ---------------------------------------------------------------------------
// Submodules
// ---------------------------------------------------------------------------

/// An id of two words that are alike, and what follows them.
pub open spec fn id_of(word: u64, half: u32) -> Oid {
    Oid { hi: word, mid: word, lo: half }
}

/// A submodule that goes by its path.
pub open spec fn submodule_at(
    path: Seq<char>,
    branch: Seq<char>,
    is_dirty: bool,
    head: Oid,
    index: Oid,
    workdir: Oid,
) -> SubmoduleView {
    SubmoduleView {
        name: path,
        path,
        branch,
        is_dirty: Some(is_dirty),
        head_oid: Some(head),
        index_oid: Some(index),
        workdir_oid: Some(workdir),
    }
}

/// The submodules of the fixture: one is as it was committed, one is changed inside, one has
/// a new commit staged, and one has a new commit checked out.
pub open spec fn working_submodules() -> Seq<SubmoduleView> {
    let head = id_of(0xaaaa_aaaa_aaaa_aaaa, 0xaaaa_aaaa);
    let other = id_of(0xbbbb_bbbb_bbbb_bbbb, 0xbbbb_bbbb);
    seq![
        submodule_at("vendor/embassy"@, "main"@, false, head, head, head),
        submodule_at("vendor/nanoarrow"@, "release/1.0"@, true, head, head, head),
        submodule_at("third_party/oggopus"@, "main"@, false, head, other, other),
        submodule_at("third_party/trouble"@, "main"@, false, head, head, other),
    ]
}

fn submodule(path: &str, branch: &str, is_dirty: bool, head: Oid, index: Oid, workdir: Oid) -> (r:
    SubmoduleInfo)
    ensures
        r@ == submodule_at(path@, branch@, is_dirty, head, index, workdir),
{
    SubmoduleInfo {
        name: path.to_owned(),
        path: path.to_owned(),
        branch: branch.to_owned(),
        is_dirty: Some(is_dirty),
        head_oid: Some(head),
        index_oid: Some(index),
        workdir_oid: Some(workdir),
    }
}

/// Gives the working directory that is shown submodules in every condition; where none is
/// shown, nothing changes.
pub fn inject_synthetic_submodules_active_view(submodules: &mut Option<Vec<SubmoduleInfo>>)
    ensures
        match *final(submodules) {
            Some(list) => *old(submodules) is Some && text::views(list@) == working_submodules(),
            None => *old(submodules) is None,
        },
{
    if submodules.is_none() {
        return ;
    }
    let head = Oid { hi: 0xaaaa_aaaa_aaaa_aaaa, mid: 0xaaaa_aaaa_aaaa_aaaa, lo: 0xaaaa_aaaa };
    let other = Oid { hi: 0xbbbb_bbbb_bbbb_bbbb, mid: 0xbbbb_bbbb_bbbb_bbbb, lo: 0xbbbb_bbbb };
    let mut list: Vec<SubmoduleInfo> = Vec::new();
    list.push(submodule("vendor/embassy", "main", false, head, head, head));
    list.push(submodule("vendor/nanoarrow", "release/1.0", true, head, head, head));
    list.push(submodule("third_party/oggopus", "main", false, head, other, other));
    list.push(submodule("third_party/trouble", "main", false, head, head, other));
    assert(text::views(list@) =~= working_submodules());
    *submodules = Some(list);
}

/// The fixture holds a submodule in every condition: untouched, changed inside, with another
/// commit staged, and with another commit checked out than is staged.
pub proof fn every_condition_is_shown()
    ensures
        exists|i: int|
            0 <= i < working_submodules().len() && ({
                let s = #[trigger] working_submodules()[i];
                s.is_dirty == Some(false) && s.head_oid == s.index_oid && s.index_oid
                    == s.workdir_oid
            }),
        exists|i: int|
            0 <= i < working_submodules().len() && (#[trigger] working_submodules()[i]).is_dirty
                == Some(true),
        exists|i: int|
            0 <= i < working_submodules().len() && ({
                let s = #[trigger] working_submodules()[i];
                s.head_oid != s.index_oid
            }),
        exists|i: int|
            0 <= i < working_submodules().len() && ({
                let s = #[trigger] working_submodules()[i];
                s.index_oid != s.workdir_oid
            }),
{
    let s = working_submodules();
    assert(s[0].is_dirty == Some(false));
    assert(s[1].is_dirty == Some(true));
    assert(s[2].head_oid != s[2].index_oid);
    assert(s[3].index_oid != s[3].workdir_oid);
}

/// The submodules of a commit: one whose pin moves, one that is new, and one that stays.
pub open spec fn commit_submodules() -> Seq<SubmoduleEntryView> {
    seq![
        SubmoduleEntryView {
            name: "vendor/embassy"@,
            path: "vendor/embassy"@,
            pinned_oid: id_of(0x2222_2222_2222_2222, 0x2222_2222),
            changed: true,
            parent_oid: Some(id_of(0x1111_1111_1111_1111, 0x1111_1111)),
        },
        SubmoduleEntryView {
            name: "vendor/new-arrival"@,
            path: "vendor/new-arrival"@,
            pinned_oid: id_of(0x4444_4444_4444_4444, 0x4444_4444),
            changed: true,
            parent_oid: None,
        },
        SubmoduleEntryView {
            name: "third_party/oggopus"@,
            path: "third_party/oggopus"@,
            pinned_oid: id_of(0x3333_3333_3333_3333, 0x3333_3333),
            changed: false,
            parent_oid: Some(id_of(0x3333_3333_3333_3333, 0x3333_3333)),
        },
    ]
}

/// The first line of a text.
pub open spec fn first_line(s: Seq<char>) -> Seq<char> {
    if text::lines(s).len() > 0 {
        text::lines(s)[0]
    } else {
        Seq::empty()
    }
}

fn entry(path: &str, pinned_oid: Oid, changed: bool, parent_oid: Option<Oid>) -> (r:
    CommitSubmoduleEntry)
    ensures
        r@ == (SubmoduleEntryView { name: path@, path: path@, pinned_oid, changed, parent_oid }),
{
    CommitSubmoduleEntry {
        name: path.to_owned(),
        path: path.to_owned(),
        pinned_oid,
        changed,
        parent_oid,
    }
}

/// Gives the commit that is shown submodules, and leaves of its message the first line, so
/// that they are in sight; where none is shown, nothing changes.
pub fn inject_synthetic_submodules_commit_detail(detail: &mut Option<CommitDetail>)
    ensures
        match (*old(detail), *final(detail)) {
            (Some(a), Some(b)) => {
                &&& b.info.full_message@ == first_line(a.info.full_message@)
                &&& text::views(b.submodule_entries@) == commit_submodules()
                &&& b.info.id == a.info.id
                &&& b.info.short_id == a.info.short_id
                &&& b.info.author_name == a.info.author_name
                &&& b.info.author_email == a.info.author_email
                &&& b.info.author_time == a.info.author_time
                &&& b.info.parent_short_ids == a.info.parent_short_ids
                &&& b.files == a.files
            },
            (None, None) => true,
            _ => false,
        },
{
    match detail {
        Some(d) => {
            let lines = lines_of(d.info.full_message.as_str());
            d.info.full_message = if lines.len() > 0 {
                lines[0].clone()
            } else {
                String::new()
            };
            let parent = Oid { hi: 0x1111_1111_1111_1111, mid: 0x1111_1111_1111_1111, lo: 0x1111_1111 };
            let pinned = Oid { hi: 0x2222_2222_2222_2222, mid: 0x2222_2222_2222_2222, lo: 0x2222_2222 };
            let same = Oid { hi: 0x3333_3333_3333_3333, mid: 0x3333_3333_3333_3333, lo: 0x3333_3333 };
            let new = Oid { hi: 0x4444_4444_4444_4444, mid: 0x4444_4444_4444_4444, lo: 0x4444_4444 };
            let mut list: Vec<CommitSubmoduleEntry> = Vec::new();
            list.push(entry("vendor/embassy", pinned, true, Some(parent)));
            list.push(entry("vendor/new-arrival", new, true, None));
            list.push(entry("third_party/oggopus", same, false, Some(same)));
            assert(text::views(list@) =~= commit_submodules());
            d.submodule_entries = list;
        },
        None => {},
    }
}

// ---------------------------------------------------------------------------
// Names of scenes
// ---------------------------------------------------------------------------

/// The place of a name among those of all scenes, told by its length and its seventh
/// character.
spec fn place(s: Seq<char>) -> int {
    if s.len() == 13 && s[6] == 'e' {
        0
    } else if s.len() == 15 && s[6] == 'e' {
        1
    } else if s.len() == 15 && s[6] == 'r' {
        2
    } else if s.len() == 23 && s[6] == 'r' {
        3
    } else if s.len() == 27 && s[6] == 'r' {
        4
    } else if s.len() == 9 && s[6] == 'i' {
        5
    } else if s.len() == 15 && s[6] == 'i' {
        6
    } else if s.len() == 12 && s[6] == 'y' {
        7
    } else if s.len() == 20 && s[6] == 'y' {
        8
    } else if s.len() == 14 && s[6] == 's' {
        9
    } else if s.len() == 25 && s[6] == 'c' {
        10
    } else if s.len() == 24 && s[6] == 'c' {
        11
    } else if s.len() == 11 && s[6] == 'e' {
        12
    } else if s.len() == 11 && s[6] == 'c' {
        13
    } else if s.len() == 11 && s[6] == 't' {
        14
    } else if s.len() == 16 && s[6] == 't' {
        15
    } else if s.len() == 18 && s[6] == 't' {
        16
    } else if s.len() == 20 && s[6] == 'r' {
        17
    } else if s.len() == 17 && s[6] == '_' {
        18
    } else if s.len() == 20 && s[6] == '_' {
        19
    } else if s.len() == 24 && s[6] == '_' {
        20
    } else if s.len() == 15 && s[6] == 'y' {
        21
    } else if s.len() == 23 && s[6] == 'g' {
        22
    } else if s.len() == 29 && s[6] == '_' {
        23
    } else if s.len() == 22 && s[6] == 'd' {
        24
    } else if s.len() == 17 && s[6] == 'r' {
        25
    } else {
        -1
    }
}

/// The names of the scenes have places from `lo` to below `hi`, each after the one before.
spec fn rise(s: Seq<SceneView>, lo: int, hi: int) -> bool {
    &&& forall|i: int| 0 <= i < s.len() ==> lo <= place((#[trigger] s[i]).name) < hi
    &&& forall|i: int, j: int|
        0 <= i < j < s.len() ==> place((#[trigger] s[i]).name) < place((#[trigger] s[j]).name)
}

proof fn lemma_rise(a: Seq<SceneView>, b: Seq<SceneView>, lo: int, mid: int, hi: int)
    requires
        rise(a, lo, mid),
        rise(b, mid, hi),
        lo <= mid <= hi,
    ensures
        rise(a + b, lo, hi),
{
    let s = a + b;
    assert forall|i: int| 0 <= i < s.len() implies lo <= place((#[trigger] s[i]).name) < hi by {
        if i >= a.len() {
            assert(s[i] == b[i - a.len()]);
        } else {
            assert(s[i] == a[i]);
        }
    }
    assert forall|i: int, j: int| 0 <= i < j < s.len() implies place((#[trigger] s[i]).name)
        < place((#[trigger] s[j]).name) by {
        if i >= a.len() {
            assert(s[i] == b[i - a.len()] && s[j] == b[j - a.len()]);
        } else if j >= a.len() {
            assert(s[i] == a[i] && s[j] == b[j - a.len()]);
        } else {
            assert(s[i] == a[i] && s[j] == a[j]);
        }
    }
}

proof fn lemma_welcome_names()
    ensures
        rise(welcome_scenes(), 0, 2),
{
    reveal_strlit("welcome_empty");
    reveal_strlit("welcome_recents");
    assert(place("welcome_empty"@) == 0);
    assert(place("welcome_recents"@) == 1);
}

proof fn lemma_sidebar_names()
    ensures
        rise(sidebar_scenes(), 2, 5),
{
    reveal_strlit("sidebar_default");
    reveal_strlit("sidebar_local_collapsed");
    reveal_strlit("sidebar_shortcuts_collapsed");
    assert(place("sidebar_default"@) == 2);
    assert(place("sidebar_local_collapsed"@) == 3);
    assert(place("sidebar_shortcuts_collapsed"@) == 4);
}

proof fn lemma_diff_names(target: Option<Seq<char>>)
    ensures
        rise(diff_scenes(target), 5, 7),
{
    reveal_strlit("diff_view");
    reveal_strlit("diff_view_split");
    assert(place("diff_view"@) == 5);
    assert(place("diff_view_split"@) == 6);
}

proof fn lemma_history_names(pick: Option<Oid>)
    ensures
        rise(history_scenes(pick), 7, 9),
{
    reveal_strlit("history_view");
    reveal_strlit("history_context_menu");
    assert(place("history_view"@) == 7);
    assert(place("history_context_menu"@) == 8);
}

proof fn lemma_modal_names()
    ensures
        rise(modal_scenes(), 9, 17),
{
    reveal_strlit("modal_settings");
    reveal_strlit("modal_confirm_destructive");
    reveal_strlit("modal_confirm_force_push");
    reveal_strlit("modal_error");
    reveal_strlit("modal_clone");
    reveal_strlit("modal_token");
    reveal_strlit("modal_token_edit");
    reveal_strlit("modal_token_gitlab");
    assert(place("modal_settings"@) == 9);
    assert(place("modal_confirm_destructive"@) == 10);
    assert(place("modal_confirm_force_push"@) == 11);
    assert(place("modal_error"@) == 12);
    assert(place("modal_clone"@) == 13);
    assert(place("modal_token"@) == 14);
    assert(place("modal_token_edit"@) == 15);
    assert(place("modal_token_gitlab"@) == 16);
}

proof fn lemma_header_names()
    ensures
        rise(header_scenes(), 17, 21),
{
    reveal_strlit("sidebar_context_menu");
    reveal_strlit("header_fetch_busy");
    reveal_strlit("header_fetch_stalled");
    reveal_strlit("header_push_and_mutation");
    assert(place("sidebar_context_menu"@) == 17);
    assert(place("header_fetch_busy"@) == 18);
    assert(place("header_fetch_stalled"@) == 19);
    assert(place("header_push_and_mutation"@) == 20);
}

proof fn lemma_fixture_names(pick: Option<Oid>, pinned: Option<Oid>)
    ensures
        rise(fixture_scenes(pick, pinned), 21, 25),
{
    reveal_strlit("history_with_ci");
    reveal_strlit("staging_with_submodules");
    reveal_strlit("commit_detail_with_submodules");
    reveal_strlit("drilled_into_submodule");
    assert(place("history_with_ci"@) == 21);
    assert(place("staging_with_submodules"@) == 22);
    assert(place("commit_detail_with_submodules"@) == 23);
    assert(place("drilled_into_submodule"@) == 24);
}

/// No two scenes are written under one name.
pub proof fn scenes_have_names_of_their_own(opened: Seq<OpenedRepo>, i: int, j: int)
    requires
        0 <= i < j < all_scenes(opened).len(),
    ensures
        all_scenes(opened)[i].name != all_scenes(opened)[j].name,
{
    let last = if opened.len() >= 2 {
        seq![
            SceneView {
                name: "sidebar_multi_tab"@,
                tabs: SceneTabs::All,
                setup: SetupView::Fresh,
            },
        ]
    } else {
        Seq::empty()
    };
    reveal_strlit("sidebar_multi_tab");
    assert(place("sidebar_multi_tab"@) == 25);
    assert(rise(last, 25, 26));
    lemma_welcome_names();
    if opened.len() > 0 {
        let repo = opened[0];
        let pick = nth_real(repo.commits@, 0);
        let pinned = nth_real(repo.commits@, 3);
        let target = diff_target(repo);
        lemma_sidebar_names();
        lemma_diff_names(target);
        lemma_history_names(pick);
        lemma_modal_names();
        lemma_header_names();
        lemma_fixture_names(pick, pinned);
        let a = sidebar_scenes() + diff_scenes(target);
        lemma_rise(sidebar_scenes(), diff_scenes(target), 2, 5, 7);
        let b = a + history_scenes(pick);
        lemma_rise(a, history_scenes(pick), 2, 7, 9);
        let c = b + modal_scenes();
        lemma_rise(b, modal_scenes(), 2, 9, 17);
        let d = c + header_scenes();
        lemma_rise(c, header_scenes(), 2, 17, 21);
        lemma_rise(d, fixture_scenes(pick, pinned), 2, 21, 25);
        lemma_rise(welcome_scenes(), repo_scenes(repo), 0, 2, 25);
        lemma_rise(welcome_scenes() + repo_scenes(repo), last, 0, 25, 26);
    } else {
        lemma_rise(welcome_scenes(), Seq::empty(), 0, 2, 25);
        lemma_rise(welcome_scenes() + Seq::<SceneView>::empty(), last, 0, 25, 26);
    }
}

/// The newest six commits have checks, or all where there are fewer; entries for changes have none.
pub proof fn the_newest_six_have_checks(commits: Seq<CommitInfo>)
    ensures
        ({
            let ids = commits.filter_map(
                |c: CommitInfo|
                    if c.is_synthetic {
                        None
                    } else {
                        Some(c.id)
                    },
            );
            &&& checked_commits(commits).is_prefix_of(ids)
            &&& ids.len() <= 6 ==> checked_commits(commits) == ids
            &&& ids.len() > 6 ==> checked_commits(commits).len() == 6
        }),
{
    repo_state::real_commits_are_all_but_entries(commits);
    let ids = repo_state::real_ids(commits);
    assert(ids.take(ids.len() as int) =~= ids);
}

/// The file whose changes are shown is one that changed: the first that is not staged, else the
/// first that is new, else the first that is staged.
pub proof fn a_changed_file_is_shown(repo: OpenedRepo, s: WorkingDirStatus)
    requires
        repo.status == Some(s),
    ensures
        s.unstaged@.len() > 0 ==> diff_target(repo) == Some(s.unstaged@[0].path@),
        s.unstaged@.len() == 0 && s.untracked@.len() > 0 ==> diff_target(repo) == Some(
            s.untracked@[0].path@,
        ),
        s.unstaged@.len() == 0 && s.untracked@.len() == 0 && s.staged@.len() > 0 ==> diff_target(
            repo,
        ) == Some(s.staged@[0].path@),
        s.unstaged@.len() == 0 && s.untracked@.len() == 0 && s.staged@.len() == 0 ==> diff_target(
            repo,
        ) is None,
{
}

} // verus!
