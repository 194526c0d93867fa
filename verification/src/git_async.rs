//! What is read in the background, and for which tab.

use crate::app::repo_state::{self, collect_real_ids, list_read};
use crate::git::diff::{DiffFile, DiffHunk};
use crate::git::status::{
    self, append_staged_gitlinks, staged_gitlinks, working_dir_status_from_statuses, IndexDelta,
    StatusEntry, WorkingDirStatus, WorkingDirView,
};
use crate::git::{
    BranchTip, CommitInfo, RepositoryState, StashEntry, SubmoduleInfo, TagInfo, WorktreeInfo,
};
use crate::oid::Oid;
use crate::paths::{self, same_path};
use crate::text::{self, same};
use crate::text_map::{self, TextMap};
use vstd::prelude::*;
use vstd::string::*;

verus! {

/// Result of a single per-entity dirty check. Carries `tab_id` because
/// these flow over a single global channel and the consumer needs to route
/// each result back to the originating tab — without conflating tabs whose
/// paths happen to match an old closed-then-reopened tab.
#[derive(Debug)]
pub enum DirtyCheckResult {
    Submodule { tab_id: u64, name: String, is_dirty: bool },
    Worktree {
        tab_id: u64,
        path: String,
        /// Count of dirty (non-ignored) entries. `0` means clean.
        dirty_file_count: usize,
        /// Working-tree diff stats (insertions, deletions).
        diff_stats: (usize, usize),
    },
}

impl DirtyCheckResult {
    /// The tab that a check was made for.
    pub open spec fn tab(self) -> u64 {
        match self {
            DirtyCheckResult::Submodule { tab_id, .. } => tab_id,
            DirtyCheckResult::Worktree { tab_id, .. } => tab_id,
        }
    }

    pub fn tab_id(&self) -> (r: u64)
        ensures
            r == self.tab(),
    {
        match self {
            DirtyCheckResult::Submodule { tab_id, .. } => *tab_id,
            DirtyCheckResult::Worktree { tab_id, .. } => *tab_id,
        }
    }
}

// ---------------------------------------------------------------------------
// Status
// ---------------------------------------------------------------------------

/// Result of a working-directory status refresh.
pub struct StatusResult {
    /// Working directory path for `main_status`.
    pub main_path: Option<String>,
    /// Main repo working-directory status. `None` when the repository cannot be opened.
    pub main_status: Option<WorkingDirStatus>,
    /// Working directory path for `staging_status`.
    pub staging_path: Option<String>,
    /// Staging-context working-directory status — the worktree the
    /// staging well is pointing at, which may differ from the main
    /// repo when the user has switched worktrees.
    pub staging_status: Option<WorkingDirStatus>,
    /// Staging repo state (merge / rebase / cherry-pick in progress).
    pub staging_repo_state: RepositoryState,
    /// Prepared merge commit message, captured while one is being made. Prefills the commit
    /// draft.
    pub staging_merge_msg: Option<String>,
}

/// What is read of a repository that could be opened.
pub struct StatusReads {
    /// Its status, where it could be had.
    pub status: Option<WorkingDirStatus>,
    pub workdir: Option<String>,
    pub state: RepositoryState,
    /// The prepared commit message, where there is one.
    pub merge_message: Option<String>,
}

/// Whether git has prepared a commit message in this state: a merge, a cherry-pick or a
/// revert that stopped writes one.
pub open spec fn has_prepared_message(state: RepositoryState) -> bool {
    match state {
        RepositoryState::Merge
        | RepositoryState::CherryPick
        | RepositoryState::CherryPickSequence
        | RepositoryState::Revert
        | RepositoryState::RevertSequence => true,
        _ => false,
    }
}

/// The status that was read, or a clean one where it could not be had.
pub open spec fn status_read(reads: StatusReads) -> WorkingDirView {
    match reads.status {
        Some(s) => s@,
        None => WorkingDirView::clean(),
    }
}

/// Whether a result says of the main repository what was read of it.
pub open spec fn main_is(r: StatusResult, main: Option<StatusReads>) -> bool {
    match main {
        Some(m) => {
            &&& r.main_path == m.workdir
            &&& match r.main_status {
                Some(s) => s@ == status_read(m),
                None => false,
            }
        },
        None => r.main_path is None && r.main_status is None,
    }
}

/// Whether a result says of the worktree that is staged in what was read of it.
pub open spec fn staging_is(r: StatusResult, staging: Option<StatusReads>) -> bool {
    match staging {
        Some(m) => {
            &&& r.staging_path == m.workdir
            &&& r.staging_repo_state == m.state
            &&& r.staging_merge_msg == (if has_prepared_message(m.state) {
                m.merge_message
            } else {
                None
            })
            &&& match r.staging_status {
                Some(s) => s@ == status_read(m),
                None => false,
            }
        },
        None => {
            &&& r.staging_path is None
            &&& r.staging_status is None
            &&& r.staging_repo_state == RepositoryState::Clean
            &&& r.staging_merge_msg is None
        },
    }
}

/// Pure core of the status refresh. Each repository speaks for itself, so that a bare
/// reference repository never suppresses what was read of a worktree.
pub fn compute_status_result(main: Option<StatusReads>, staging: Option<StatusReads>) -> (r:
    StatusResult)
    ensures
        main_is(r, main),
        staging_is(r, staging),
{
    let (main_path, main_status) = match main {
        Some(m) => (
            m.workdir,
            Some(
                match m.status {
                    Some(s) => s,
                    None => WorkingDirStatus::default(),
                },
            ),
        ),
        None => (None, None),
    };
    match staging {
        Some(m) => {
            let staging_merge_msg = match m.state {
                RepositoryState::Merge
                | RepositoryState::CherryPick
                | RepositoryState::CherryPickSequence
                | RepositoryState::Revert
                | RepositoryState::RevertSequence => m.merge_message,
                _ => None,
            };
            StatusResult {
                main_path,
                main_status,
                staging_path: m.workdir,
                staging_status: Some(
                    match m.status {
                        Some(s) => s,
                        None => WorkingDirStatus::default(),
                    },
                ),
                staging_repo_state: m.state,
                staging_merge_msg,
            }
        },
        None => StatusResult {
            main_path,
            main_status,
            staging_path: None,
            staging_status: None,
            staging_repo_state: RepositoryState::Clean,
            staging_merge_msg: None,
        },
    }
}

/// What the reference repository says has no bearing on the worktree that is staged in: two
/// results for the same worktree say the same of it, whatever the reference repository is.
pub proof fn reference_does_not_blank_the_worktree(
    r1: StatusResult,
    r2: StatusResult,
    staging: Option<StatusReads>,
)
    requires
        staging_is(r1, staging),
        staging_is(r2, staging),
    ensures
        r1.staging_path == r2.staging_path,
        r1.staging_repo_state == r2.staging_repo_state,
        r1.staging_merge_msg == r2.staging_merge_msg,
        match (r1.staging_status, r2.staging_status) {
            (Some(a), Some(b)) => a@ == b@,
            (None, None) => true,
            _ => false,
        },
{
}

/// Branch / HEAD / submodules for one worktree.
pub struct WorktreeSnapshot {
    pub current_branch: String,
    pub head_oid: Option<Oid>,
    pub submodules: Vec<SubmoduleInfo>,
}

impl WorktreeSnapshot {
    /// A snapshot of what was read; what could not be read is left empty.
    pub fn capture(
        current_branch: Option<String>,
        head_oid: Option<Oid>,
        submodules: Option<Vec<SubmoduleInfo>>,
    ) -> (r: Self)
        ensures
            r.current_branch@ == (match current_branch {
                Some(b) => b@,
                None => ""@,
            }),
            r.head_oid == head_oid,
            r.submodules@ == (match submodules {
                Some(s) => s@,
                None => Seq::empty(),
            }),
    {
        WorktreeSnapshot {
            current_branch: match current_branch {
                Some(b) => b,
                None => "".to_owned(),
            },
            head_oid,
            submodules: match submodules {
                Some(s) => s,
                None => Vec::new(),
            },
        }
    }
}

/// A snapshot by its views.
#[verifier::ext_equal]
pub struct SnapshotView {
    pub current_branch: Seq<char>,
    pub head_oid: Option<Oid>,
    pub submodules: Seq<SubmoduleInfo>,
}

impl View for WorktreeSnapshot {
    type V = SnapshotView;

    open spec fn view(&self) -> SnapshotView {
        SnapshotView {
            current_branch: self.current_branch@,
            head_oid: self.head_oid,
            submodules: self.submodules@,
        }
    }
}

// ---------------------------------------------------------------------------
// Repository state
// ---------------------------------------------------------------------------

/// What is read of a working directory that could be opened.
pub struct HandleReads {
    pub current_branch: Option<String>,
    pub head_oid: Option<Oid>,
    pub submodules: Option<Vec<SubmoduleInfo>>,
}

/// A working directory: the main one or that of a linked worktree.
pub struct WorktreeHandle {
    pub path: String,
    /// What was read of it, where it could be opened.
    pub reads: Option<HandleReads>,
}

/// The snapshot of what was read.
pub open spec fn snapshot_of(reads: HandleReads) -> SnapshotView {
    SnapshotView {
        current_branch: match reads.current_branch {
            Some(b) => b@,
            None => ""@,
        },
        head_oid: reads.head_oid,
        submodules: match reads.submodules {
            Some(s) => s@,
            None => Seq::empty(),
        },
    }
}

/// The index of the first entry for a path, or the number of entries where there is none.
pub open spec fn path_index<V>(s: Seq<(Seq<char>, V)>, path: Seq<char>) -> int
    decreases s.len(),
{
    if s.len() == 0 {
        0
    } else if paths::same_way(s[0].0, path) {
        0
    } else {
        1 + path_index(s.skip(1), path)
    }
}

/// The snapshots of the working directories that could be opened, by their paths. Where a
/// path comes twice, what came first counts.
pub open spec fn snapshots_of(handles: Seq<WorktreeHandle>) -> Seq<(Seq<char>, SnapshotView)>
    decreases handles.len(),
{
    if handles.len() == 0 {
        Seq::empty()
    } else {
        let h = handles.last();
        let rest = snapshots_of(handles.drop_last());
        match h.reads {
            Some(reads) => if path_index(rest, h.path@) < rest.len() {
                rest
            } else {
                rest.push((h.path@, snapshot_of(reads)))
            },
            None => rest,
        }
    }
}

proof fn lemma_path_index<V>(s: Seq<(Seq<char>, V)>, path: Seq<char>)
    ensures
        0 <= path_index(s, path) <= s.len(),
        path_index(s, path) < s.len() ==> paths::same_way(s[path_index(s, path)].0, path),
        forall|i: int|
            0 <= i < path_index(s, path) ==> !paths::same_way((#[trigger] s[i]).0, path),
    decreases s.len(),
{
    if s.len() > 0 && !paths::same_way(s[0].0, path) {
        lemma_path_index(s.skip(1), path);
        assert forall|i: int| 0 <= i < path_index(s, path) implies !paths::same_way(
            (#[trigger] s[i]).0,
            path,
        ) by {
            if i > 0 {
                assert(s.skip(1)[i - 1] == s[i]);
            }
        }
    }
}

fn place_of(map: &TextMap<WorktreeSnapshot>, path: &str) -> (r: usize)
    ensures
        r == path_index(map@, path@),
        r <= map@.len(),
{
    let ghost s = map@;
    let mut i: usize = 0;
    assert(s.skip(0) =~= s);
    while i < map.len() && !same_path(map.key(i).as_str(), path)
        invariant
            i <= s.len(),
            s == map@,
            path_index(s, path@) == i + path_index(s.skip(i as int), path@),
        decreases s.len() - i,
    {
        assert(s.skip(i as int)[0] == s[i as int]);
        assert(s.skip(i as int).skip(1) =~= s.skip(i + 1));
        i = i + 1;
    }
    if i < map.len() {
        assert(s.skip(i as int)[0] == s[i as int]);
    }
    i
}

/// The snapshot of the working directory at a path.
pub fn snapshot_at<'a>(map: &'a TextMap<WorktreeSnapshot>, path: &str) -> (r: Option<
    &'a WorktreeSnapshot,
>)
    ensures
        match r {
            Some(v) => path_index(map@, path@) < map@.len() && v@ == map@[path_index(
                map@,
                path@,
            )].1,
            None => path_index(map@, path@) == map@.len(),
        },
{
    let i: usize = place_of(map, path);
    if i < map.len() {
        Some(map.value(i))
    } else {
        None
    }
}

fn take_snapshots(handles: Vec<WorktreeHandle>) -> (r: TextMap<WorktreeSnapshot>)
    ensures
        r.wf(),
        r@ == snapshots_of(handles@),
{
    let ghost all = handles@;
    let mut r: TextMap<WorktreeSnapshot> = TextMap::new();
    assert(r@ =~= snapshots_of(all.take(0)));
    for h in it: handles
        invariant
            it.seq() == all,
            r.wf(),
            r@ == snapshots_of(all.take(it.index() as int)),
    {
        proof {
            let i = it.index() as int;
            assert(all.take(i + 1).drop_last() =~= all.take(i));
            assert(all.take(i + 1).last() == h);
        }
        if let Some(reads) = h.reads {
            let at: usize = place_of(&r, h.path.as_str());
            if at >= r.len() {
                let ghost before = r;
                let s = WorktreeSnapshot::capture(
                    reads.current_branch,
                    reads.head_oid,
                    reads.submodules,
                );
                r.insert(h.path, s);
                proof {
                    text_map::lemma_put_view(before, r, h.path@, s);
                    text_map::lemma_key_index(before@, h.path@);
                    lemma_path_index(before@, h.path@);
                    let k = text_map::key_index(before@, h.path@);
                    if k < before@.len() {
                        assert(!paths::same_way(before@[k].0, h.path@));
                    }
                    assert(s@ =~= snapshot_of(reads));
                }
            }
        }
    }
    assert(all.take(all.len() as int) =~= all);
    r
}

/// What is read for a full refresh of a repository that could be opened.
pub struct RefreshReads {
    pub commits: Result<Vec<CommitInfo>, String>,
    pub branch_tips: Result<Vec<BranchTip>, String>,
    pub tags: Result<Vec<TagInfo>, String>,
    pub worktrees: Result<Vec<WorktreeInfo>, String>,
    /// The main working directory, where there is one, and those of the worktrees.
    pub handles: Vec<WorktreeHandle>,
    pub remote_names: Vec<String>,
    pub remote_urls: TextMap<String>,
    pub is_bare: bool,
    pub stashes: Vec<StashEntry>,
    pub ahead_behind: TextMap<(usize, usize)>,
    pub ref_fingerprint: u64,
}

/// Result of a full repo-state refresh: commits, refs, worktrees,
/// remotes, stashes, ahead/behind, and snapshots of all worktrees.
pub struct RepoStateResult {
    pub commits: Vec<CommitInfo>,
    pub branch_tips: Vec<BranchTip>,
    pub tags: Vec<TagInfo>,
    pub worktrees: Vec<WorktreeInfo>,
    pub remote_names: Vec<String>,
    pub remote_urls: TextMap<String>,
    pub is_bare: bool,
    pub stashes: Vec<StashEntry>,
    pub ahead_behind: TextMap<(usize, usize)>,
    /// Cheap hash of the refs, compared with the one seen last.
    pub ref_fingerprint: u64,
    /// Real (non-synthetic) commit OIDs, whose statistics are to be computed.
    pub real_oids: Vec<Oid>,
    /// Per-worktree ref + submodule snapshots, by working-dir path.
    pub worktree_snapshots: TextMap<WorktreeSnapshot>,
    /// Errors collected during the refresh. They are told, and do not
    /// blank the existing data on a partial failure.
    pub errors: Vec<String>,
}

/// Everything that went wrong while a repository was read, in the order of the readings.
pub open spec fn refresh_errors(reads: RefreshReads) -> Seq<Seq<char>> {
    repo_state::complaint_of(reads.commits, "Failed to load commits: "@)
        + repo_state::complaint_of(reads.branch_tips, "Failed to load branches: "@)
        + repo_state::complaint_of(reads.tags, "Failed to load tags: "@)
        + repo_state::complaint_of(reads.worktrees, "Failed to load worktrees: "@)
}

/// Put together what was read for a full refresh. A reading that failed leaves its part empty
/// and is complained about; `Err` says why the repository could not even be opened.
pub fn compute_repo_state(reads: Result<RefreshReads, String>) -> (r: RepoStateResult)
    ensures
        match reads {
            Ok(reads) => {
                &&& r.commits@ == repo_state::list_or_none(reads.commits)
                &&& r.branch_tips@ == repo_state::list_or_none(reads.branch_tips)
                &&& r.tags@ == repo_state::list_or_none(reads.tags)
                &&& r.worktrees@ == repo_state::list_or_none(reads.worktrees)
                &&& r.remote_names == reads.remote_names
                &&& r.remote_urls == reads.remote_urls
                &&& r.is_bare == reads.is_bare
                &&& r.stashes == reads.stashes
                &&& r.ahead_behind == reads.ahead_behind
                &&& r.ref_fingerprint == reads.ref_fingerprint
                &&& r.real_oids@ == repo_state::real_ids(r.commits@)
                &&& r.worktree_snapshots@ == snapshots_of(reads.handles@)
                &&& text::views(r.errors@) == refresh_errors(reads)
            },
            Err(e) => {
                &&& r.commits@.len() == 0
                &&& r.branch_tips@.len() == 0
                &&& r.tags@.len() == 0
                &&& r.worktrees@.len() == 0
                &&& r.remote_names@.len() == 0
                &&& r.remote_urls.list().len() == 0
                &&& !r.is_bare
                &&& r.stashes@.len() == 0
                &&& r.ahead_behind.list().len() == 0
                &&& r.ref_fingerprint == 0
                &&& r.real_oids@.len() == 0
                &&& r.worktree_snapshots.list().len() == 0
                &&& text::views(r.errors@) == seq!["Failed to open repo: "@ + e@]
            },
        },
        r.worktree_snapshots.wf(),
{
    let mut errors: Vec<String> = Vec::new();
    assert(text::views(errors@) =~= Seq::<Seq<char>>::empty());
    match reads {
        Ok(reads) => {
            let commits = list_read(reads.commits, "Failed to load commits: ", &mut errors);
            let branch_tips = list_read(
                reads.branch_tips,
                "Failed to load branches: ",
                &mut errors,
            );
            let tags = list_read(reads.tags, "Failed to load tags: ", &mut errors);
            let worktrees = list_read(reads.worktrees, "Failed to load worktrees: ", &mut errors);
            let worktree_snapshots = take_snapshots(reads.handles);
            let real_oids = collect_real_ids(&commits);
            assert(text::views(errors@) =~= refresh_errors(reads));
            RepoStateResult {
                commits,
                branch_tips,
                tags,
                worktrees,
                remote_names: reads.remote_names,
                remote_urls: reads.remote_urls,
                is_bare: reads.is_bare,
                stashes: reads.stashes,
                ahead_behind: reads.ahead_behind,
                ref_fingerprint: reads.ref_fingerprint,
                real_oids,
                worktree_snapshots,
                errors,
            }
        },
        Err(e) => {
            let mut s = "Failed to open repo: ".to_owned();
            s.append(e.as_str());
            errors.push(s);
            assert(text::views(errors@) =~= seq!["Failed to open repo: "@ + e@]);
            RepoStateResult {
                commits: Vec::new(),
                branch_tips: Vec::new(),
                tags: Vec::new(),
                worktrees: Vec::new(),
                remote_names: Vec::new(),
                remote_urls: TextMap::new(),
                is_bare: false,
                stashes: Vec::new(),
                ahead_behind: TextMap::new(),
                ref_fingerprint: 0,
                real_oids: Vec::new(),
                worktree_snapshots: TextMap::new(),
                errors,
            }
        },
    }
}

/// Every working directory that could be opened has its snapshot, and no other has one.
pub proof fn opened_worktrees_have_snapshots(handles: Seq<WorktreeHandle>, path: Seq<char>)
    ensures
        path_index(snapshots_of(handles), path) < snapshots_of(handles).len() <==> exists|i: int|
            0 <= i < handles.len() && paths::same_way((#[trigger] handles[i]).path@, path)
                && handles[i].reads is Some,
    decreases handles.len(),
{
    let all = snapshots_of(handles);
    lemma_path_index(all, path);
    if handles.len() > 0 {
        let rest = snapshots_of(handles.drop_last());
        let n = handles.len() - 1;
        let own = handles[n].path@;
        opened_worktrees_have_snapshots(handles.drop_last(), path);
        lemma_path_index(rest, path);
        lemma_path_index(rest, own);
        let at = path_index(rest, path);
        if at < rest.len() {
            assert(all[at].0 == rest[at].0);
            let i = choose|i: int|
                0 <= i < n && paths::same_way((#[trigger] handles.drop_last()[i]).path@, path)
                    && handles.drop_last()[i].reads is Some;
            assert(handles[i] == handles.drop_last()[i]);
        } else if path_index(all, path) < all.len() {
            let k = path_index(all, path);
            if k < rest.len() {
                assert(rest[k] == all[k]);
            }
            assert(handles[n].reads is Some && paths::same_way(own, path));
        }
        if exists|i: int|
            0 <= i < handles.len() && paths::same_way((#[trigger] handles[i]).path@, path)
                && handles[i].reads is Some {
            let i = choose|i: int|
                0 <= i < handles.len() && paths::same_way((#[trigger] handles[i]).path@, path)
                    && handles[i].reads is Some;
            if i < n {
                assert(handles.drop_last()[i] == handles[i]);
            } else {
                let k = path_index(rest, own);
                if k < rest.len() {
                    assert(paths::same_way(rest[k].0, path));
                    assert(rest[k] == all[k]);
                } else {
                    assert(all[rest.len() as int].0 == own);
                }
            }
        }
    }
}

/// No working directory has two snapshots, however its path is written.
pub proof fn worktrees_have_one_snapshot(handles: Seq<WorktreeHandle>, i: int, j: int)
    requires
        0 <= i < j < snapshots_of(handles).len(),
    ensures
        !paths::same_way(snapshots_of(handles)[i].0, snapshots_of(handles)[j].0),
    decreases handles.len(),
{
    let rest = snapshots_of(handles.drop_last());
    if j < rest.len() {
        worktrees_have_one_snapshot(handles.drop_last(), i, j);
    } else {
        lemma_path_index(rest, handles.last().path@);
        assert(snapshots_of(handles)[i] == rest[i]);
    }
}

// ---------------------------------------------------------------------------
// Differences
// ---------------------------------------------------------------------------

/// Identity of one rendered diff: which worktree / file / source
/// produced it. `epoch` folds in the working-tree status generation
/// (bumped whenever a status refresh lands changed content), so an
/// edit to the selected file re-fetches even though the target is
/// unchanged.
#[derive(Debug)]
pub struct DiffKey {
    /// Working-dir path of the worktree the diff reads from.
    pub worktree: String,
    /// Repo-relative path of the selected file.
    pub file: String,
    /// `Some` = the file's diff within this commit; `None` = the
    /// working-tree diff.
    pub commit: Option<Oid>,
    /// Working-tree diffs only: diff the staged side (HEAD → index)
    /// rather than the unstaged side.
    pub staged: bool,
    /// Working-tree status generation.
    pub epoch: u64,
}

impl DiffKey {
    /// Whether two keys stand for the same diff, whatever the generation and however the path of
    /// the worktree is written.
    pub open spec fn targets(self, other: DiffKey) -> bool {
        &&& paths::same_way(self.worktree@, other.worktree@)
        &&& self.file@ == other.file@
        &&& self.commit == other.commit
        &&& self.staged == other.staged
    }

    /// Same diff target, ignoring the content generation. Used by the
    /// renderer to keep showing the previous hunks while a re-fetch
    /// for a newer epoch is in flight, instead of flashing a loading state on every edit.
    pub fn same_target(&self, other: &Self) -> (r: bool)
        ensures
            r == self.targets(*other),
    {
        let same_commit = match (self.commit, other.commit) {
            (Some(a), Some(b)) => a == b,
            (None, None) => true,
            _ => false,
        };
        same_path(self.worktree.as_str(), other.worktree.as_str()) && same(
            self.file.as_str(),
            other.file.as_str(),
        ) && same_commit && self.staged == other.staged
    }
}

/// Having the same target is an equivalence, and the generation plays no part in it.
pub proof fn same_target_is_an_equivalence(a: DiffKey, b: DiffKey, c: DiffKey, epoch: u64)
    ensures
        a.targets(a),
        a.targets(b) ==> b.targets(a),
        a.targets(b) && b.targets(c) ==> a.targets(c),
        a.targets(b) == (DiffKey { epoch, ..a }).targets(b),
{
}

/// Result of an off-thread diff fetch. Carries the key it was
/// computed for so the consumer can tell a current result from a
/// stale one (selection moved while the worker ran).
pub struct DiffFetchResult {
    pub key: DiffKey,
    pub hunks: Vec<DiffHunk>,
}

/// What is read for a diff.
pub enum DiffReads {
    /// The repository could not be opened.
    NotOpened,
    /// The files of a commit, where they could be had.
    Commit(Option<Vec<DiffFile>>),
    /// The hunks of the working directory, where they could be had.
    Working(Option<Vec<DiffHunk>>),
}

/// The hunks of all files, one file after the other.
pub open spec fn all_hunks(files: Seq<DiffFile>) -> Seq<DiffHunk>
    decreases files.len(),
{
    if files.len() == 0 {
        Seq::empty()
    } else {
        all_hunks(files.drop_last()) + files.last().hunks@
    }
}

/// The hunks of a diff; none where they could not be read.
pub fn compute_diff_hunks(reads: DiffReads) -> (r: Vec<DiffHunk>)
    ensures
        r@ == (match reads {
            DiffReads::NotOpened => Seq::empty(),
            DiffReads::Commit(None) => Seq::empty(),
            DiffReads::Commit(Some(files)) => all_hunks(files@),
            DiffReads::Working(None) => Seq::empty(),
            DiffReads::Working(Some(hunks)) => hunks@,
        }),
{
    match reads {
        DiffReads::NotOpened => Vec::new(),
        DiffReads::Commit(None) => Vec::new(),
        DiffReads::Commit(Some(files)) => {
            let ghost all = files@;
            let mut hunks: Vec<DiffHunk> = Vec::new();
            assert(hunks@ =~= all_hunks(all.take(0)));
            for f in it: files
                invariant
                    it.seq() == all,
                    hunks@ == all_hunks(all.take(it.index() as int)),
            {
                proof {
                    let i = it.index() as int;
                    assert(all.take(i + 1).drop_last() =~= all.take(i));
                    assert(all.take(i + 1).last() == f);
                }
                let mut more = f.hunks;
                hunks.append(&mut more);
            }
            assert(all.take(all.len() as int) =~= all);
            hunks
        },
        DiffReads::Working(None) => Vec::new(),
        DiffReads::Working(Some(hunks)) => hunks,
    }
}

// ---------------------------------------------------------------------------
// Checks of single worktrees and submodules
// ---------------------------------------------------------------------------

/// A check to be made.
#[derive(Debug)]
pub enum DirtyCheck {
    /// The name of the submodule and its path below the working directory.
    Submodule(String, String),
    /// The path of the worktree.
    Worktree(String),
}

/// A check by its views.
pub enum DirtyCheckView {
    Submodule(Seq<char>, Seq<char>),
    Worktree(Seq<char>),
}

impl View for DirtyCheck {
    type V = DirtyCheckView;

    open spec fn view(&self) -> DirtyCheckView {
        match self {
            DirtyCheck::Submodule(n, p) => DirtyCheckView::Submodule(n@, p@),
            DirtyCheck::Worktree(p) => DirtyCheckView::Worktree(p@),
        }
    }
}

/// The checks of submodules whose directory is there.
pub open spec fn submodule_checks(
    submodules: Seq<SubmoduleInfo>,
    present: Seq<bool>,
) -> Seq<DirtyCheckView>
    decreases submodules.len(),
{
    if submodules.len() == 0 {
        Seq::empty()
    } else {
        let s = submodules.last();
        let rest = submodule_checks(submodules.drop_last(), present);
        if present[submodules.len() - 1] {
            rest.push(DirtyCheckView::Submodule(s.name@, s.path@))
        } else {
            rest
        }
    }
}

/// The checks of worktrees whose directory is there.
pub open spec fn worktree_checks(paths: Seq<Seq<char>>, present: Seq<bool>) -> Seq<
    DirtyCheckView,
>
    decreases paths.len(),
{
    if paths.len() == 0 {
        Seq::empty()
    } else {
        let rest = worktree_checks(paths.drop_last(), present);
        if present[paths.len() - 1] {
            rest.push(DirtyCheckView::Worktree(paths.last()))
        } else {
            rest
        }
    }
}

/// The checks that are made, each on its own: of every submodule, where the repository has a
/// working directory, and of every worktree, where its directory is there.
pub fn plan_dirty_checks(
    submodules: &Vec<SubmoduleInfo>,
    submodule_present: &Vec<bool>,
    worktree_paths: &Vec<String>,
    worktree_present: &Vec<bool>,
    has_workdir: bool,
) -> (r: Vec<DirtyCheck>)
    requires
        submodule_present.len() == submodules.len(),
        worktree_present.len() == worktree_paths.len(),
    ensures
        text::views(r@) == (if has_workdir {
            submodule_checks(submodules@, submodule_present@)
        } else {
            Seq::empty()
        }) + worktree_checks(text::views(worktree_paths@), worktree_present@),
{
    let mut r: Vec<DirtyCheck> = Vec::new();
    assert(text::views(r@) =~= Seq::empty());
    if has_workdir {
        let mut i: usize = 0;
        assert(submodules@.take(0) =~= Seq::empty());
        while i < submodules.len()
            invariant
                i <= submodules.len() == submodule_present.len(),
                text::views(r@) == submodule_checks(
                    submodules@.take(i as int),
                    submodule_present@,
                ),
            decreases submodules.len() - i,
        {
            proof {
                assert(submodules@.take(i + 1).drop_last() =~= submodules@.take(i as int));
                assert(submodules@.take(i + 1).last() == submodules@[i as int]);
            }
            if submodule_present[i] {
                let ghost before = r@;
                let check = DirtyCheck::Submodule(
                    submodules[i].name.clone(),
                    submodules[i].path.clone(),
                );
                r.push(check);
                assert(text::views(r@) =~= text::views(before).push(check@));
            }
            i = i + 1;
        }
        assert(submodules@.take(submodules@.len() as int) =~= submodules@);
    }
    let ghost first = text::views(r@);
    let ghost paths = text::views(worktree_paths@);
    let mut i: usize = 0;
    assert(first + worktree_checks(paths.take(0), worktree_present@) =~= first);
    while i < worktree_paths.len()
        invariant
            i <= worktree_paths.len() == worktree_present.len(),
            paths == text::views(worktree_paths@),
            text::views(r@) == first + worktree_checks(paths.take(i as int), worktree_present@),
        decreases worktree_paths.len() - i,
    {
        proof {
            assert(paths.take(i + 1).drop_last() =~= paths.take(i as int));
            assert(paths.take(i + 1).last() == worktree_paths@[i as int]@);
        }
        if worktree_present[i] {
            let ghost before = r@;
            let check = DirtyCheck::Worktree(worktree_paths[i].clone());
            r.push(check);
            assert(text::views(r@) =~= text::views(before).push(check@));
        }
        i = i + 1;
        assert(text::views(r@) =~= first + worktree_checks(
            paths.take(i as int),
            worktree_present@,
        ));
    }
    assert(paths.take(paths.len() as int) =~= paths);
    r
}

/// What is read to tell whether a working directory is dirty.
pub struct DirtyReads {
    /// What git reports, where it could be had.
    pub statuses: Option<Vec<StatusEntry>>,
    /// How the index differs from HEAD.
    pub deltas: Vec<IndexDelta>,
    /// Lines inserted and deleted.
    pub stats: (usize, usize),
}

/// Whether a repository is dirty: a file that is not ignored is changed, or what a submodule
/// is pinned to is staged.
pub open spec fn is_dirty(reads: DirtyReads) -> bool {
    (match reads.statuses {
        Some(s) => status::changes_in(s@) > 0,
        None => false,
    }) || status::gitlinks_of(reads.deltas@).len() > 0
}

/// Cheap dirty check for a single repository; one that cannot be opened (`None`) is clean.
pub fn check_dirty(reads: Option<DirtyReads>) -> (r: bool)
    ensures
        r == (match reads {
            Some(d) => is_dirty(d),
            None => false,
        }),
{
    match reads {
        Some(d) => {
            let (changed, _) = status::check_dirty(d.statuses.as_ref());
            let gitlinks = staged_gitlinks(&d.deltas);
            assert(text::views(gitlinks@).len() == gitlinks@.len());
            changed || gitlinks.len() > 0
        },
        None => false,
    }
}

/// The status that tells how many files of a worktree are changed.
pub open spec fn full_status(statuses: Seq<StatusEntry>, deltas: Seq<IndexDelta>) -> WorkingDirView {
    WorkingDirView {
        staged: status::with_gitlinks(
            status::status_of(statuses).staged,
            status::gitlinks_of(deltas),
        ),
        ..status::status_of(statuses)
    }
}

/// How many files of a worktree are changed.
pub open spec fn changed_files(reads: Option<DirtyReads>) -> nat {
    match reads {
        Some(d) => match d.statuses {
            Some(s) => full_status(s@, d.deltas@).total(),
            None => 0,
        },
        None => 0,
    }
}

/// The dirty summary for one worktree: how many files are changed, and the lines inserted and
/// deleted. It counts as the full status does.
pub fn check_worktree_dirty(reads: Option<DirtyReads>) -> (r: (usize, (usize, usize)))
    requires
        changed_files(reads) <= usize::MAX,
    ensures
        r.0 == changed_files(reads),
        r.1 == (match reads {
            Some(d) => d.stats,
            None => (0, 0),
        }),
{
    match reads {
        Some(d) => {
            let count: usize = match &d.statuses {
                Some(s) => {
                    let mut status = working_dir_status_from_statuses(s);
                    append_staged_gitlinks(&mut status, staged_gitlinks(&d.deltas));
                    status.total_files()
                },
                None => 0,
            };
            (count, d.stats)
        },
        None => (0, (0, 0)),
    }
}

// ---------------------------------------------------------------------------
// Laws
// ---------------------------------------------------------------------------

/// The diff of a commit is that of all its files, one after the other: no hunk is left out.
pub proof fn the_hunks_of_all_files_are_shown(files: Seq<DiffFile>)
    ensures
        all_hunks(files) == files.map_values(|f: DiffFile| f.hunks@).flatten(),
    decreases files.len(),
{
    let hunks = |f: DiffFile| f.hunks@;
    if files.len() > 0 {
        let front = files.drop_last();
        the_hunks_of_all_files_are_shown(front);
        assert(files.map_values(hunks) =~= front.map_values(hunks).push(files.last().hunks@));
        front.map_values(hunks).lemma_flatten_push(files.last().hunks@);
    } else {
        assert(files.map_values(hunks) =~= Seq::empty());
    }
}

proof fn lemma_submodule_checks(submodules: Seq<SubmoduleInfo>, present: Seq<bool>, n: nat)
    requires
        n <= submodules.len(),
    ensures
        submodule_checks(submodules.take(n as int), present) == Seq::new(n, |i: int| i).filter_map(
            |i: int|
                if !present[i] {
                    None
                } else {
                    Some(DirtyCheckView::Submodule(submodules[i].name@, submodules[i].path@))
                },
        ),
    decreases n,
{
    if n > 0 {
        lemma_submodule_checks(submodules, present, (n - 1) as nat);
        assert(submodules.take(n as int).drop_last() =~= submodules.take(n - 1));
        assert(Seq::new(n, |i: int| i).drop_last() =~= Seq::new((n - 1) as nat, |i: int| i));
    }
}

proof fn lemma_worktree_checks(paths: Seq<Seq<char>>, present: Seq<bool>, n: nat)
    requires
        n <= paths.len(),
    ensures
        worktree_checks(paths.take(n as int), present) == Seq::new(n, |i: int| i).filter_map(
            |i: int|
                if !present[i] {
                    None
                } else {
                    Some(DirtyCheckView::Worktree(paths[i]))
                },
        ),
    decreases n,
{
    if n > 0 {
        lemma_worktree_checks(paths, present, (n - 1) as nat);
        assert(paths.take(n as int).drop_last() =~= paths.take(n - 1));
        assert(Seq::new(n, |i: int| i).drop_last() =~= Seq::new((n - 1) as nat, |i: int| i));
    }
}

/// Every submodule and every worktree that is there is checked, in order, and none that is not.
pub proof fn whatever_is_there_is_checked(
    submodules: Seq<SubmoduleInfo>,
    paths: Seq<Seq<char>>,
    present: Seq<bool>,
)
    ensures
        submodule_checks(submodules, present) == Seq::new(
            submodules.len(),
            |i: int| i,
        ).filter_map(
            |i: int|
                if !present[i] {
                    None
                } else {
                    Some(DirtyCheckView::Submodule(submodules[i].name@, submodules[i].path@))
                },
        ),
        worktree_checks(paths, present) == Seq::new(paths.len(), |i: int| i).filter_map(
            |i: int|
                if !present[i] {
                    None
                } else {
                    Some(DirtyCheckView::Worktree(paths[i]))
                },
        ),
{
    lemma_submodule_checks(submodules, present, submodules.len());
    lemma_worktree_checks(paths, present, paths.len());
    assert(submodules.take(submodules.len() as int) =~= submodules);
    assert(paths.take(paths.len() as int) =~= paths);
}

/// A submodule or worktree is dirty exactly where a file in it changed that is not ignored, or a
/// pointer to a submodule is staged.
pub proof fn any_change_makes_it_dirty(reads: DirtyReads)
    ensures
        is_dirty(reads) <==> (reads.statuses is Some && exists|i: int|
            0 <= i < reads.statuses->0@.len() && !(
            #[trigger] reads.statuses->0@[i]).flags.ignored) || status::gitlinks_of(
            reads.deltas@,
        ).len() > 0,
{
    if let Some(s) = reads.statuses {
        lemma_changes_in(s@);
    }
}

proof fn lemma_changes_in(s: Seq<StatusEntry>)
    ensures
        status::changes_in(s) > 0 <==> exists|i: int|
            0 <= i < s.len() && !(#[trigger] s[i]).flags.ignored,
    decreases s.len(),
{
    if s.len() > 0 {
        let front = s.drop_last();
        lemma_changes_in(front);
        assert(s[s.len() - 1] == s.last());
        if exists|i: int| 0 <= i < front.len() && !(#[trigger] front[i]).flags.ignored {
            let i = choose|i: int| 0 <= i < front.len() && !(#[trigger] front[i]).flags.ignored;
            assert(s[i] == front[i]);
        }
        if exists|i: int| 0 <= i < s.len() && !(#[trigger] s[i]).flags.ignored {
            let i = choose|i: int| 0 <= i < s.len() && !(#[trigger] s[i]).flags.ignored;
            if i < front.len() {
                assert(front[i] == s[i]);
            }
        }
    }
}

/// A worktree counts all its files, and what is not staged is as git reports it: staged pointers
/// to submodules only add to what is staged.
pub proof fn the_count_holds_every_list(statuses: Seq<StatusEntry>, deltas: Seq<IndexDelta>)
    ensures
        ({
            let f = full_status(statuses, deltas);
            let s = status::status_of(statuses);
            &&& f.unstaged == s.unstaged && f.untracked == s.untracked && f.conflicted
                == s.conflicted
            &&& f.total() == f.staged.len() + s.unstaged.len() + s.untracked.len()
                + s.conflicted.len()
            &&& status::gitlinks_of(deltas).len() == 0 ==> f.staged == s.staged
        }),
{
}

proof fn lemma_snapshot_kept(handles: Seq<WorktreeHandle>, path: Seq<char>, i: int)
    requires
        0 <= i < handles.len(),
        handles[i].reads is Some,
        paths::same_way(handles[i].path@, path),
        forall|j: int|
            0 <= j < i && (#[trigger] handles[j]).reads is Some ==> !paths::same_way(
                handles[j].path@,
                path,
            ),
    ensures
        ({
            let s = snapshots_of(handles);
            let k = path_index(s, path);
            0 <= k < s.len() && s[k].1 == snapshot_of(handles[i].reads->0)
        }),
    decreases handles.len(),
{
    let s = snapshots_of(handles);
    opened_worktrees_have_snapshots(handles, path);
    let front = handles.drop_last();
    let rest = snapshots_of(front);
    if i < handles.len() - 1 {
        assert forall|j: int| 0 <= j < i && (#[trigger] front[j]).reads is Some implies
            !paths::same_way(front[j].path@, path) by {
            assert(front[j] == handles[j]);
        }
        assert(front[i] == handles[i]);
        lemma_snapshot_kept(front, path, i);
        lemma_path_index_push(rest, path, (handles.last().path@, s.last().1));
    } else {
        let h = handles[i];
        opened_worktrees_have_snapshots(front, h.path@);
        opened_worktrees_have_snapshots(front, path);
        if path_index(rest, h.path@) < rest.len() {
            let j = choose|j: int|
                0 <= j < front.len() && paths::same_way((#[trigger] front[j]).path@, h.path@)
                    && front[j].reads is Some;
            assert(handles[j] == front[j]);
            paths::same_way_is_an_equivalence(front[j].path@, h.path@, path);
        }
        assert(!(path_index(rest, path) < rest.len())) by {
            if path_index(rest, path) < rest.len() {
                let j = choose|j: int|
                    0 <= j < front.len() && paths::same_way((#[trigger] front[j]).path@, path)
                        && front[j].reads is Some;
                assert(handles[j] == front[j]);
            }
        }
        assert(s == rest.push((h.path@, snapshot_of(h.reads->0))));
        lemma_path_index_push(rest, path, (h.path@, snapshot_of(h.reads->0)));
    }
}

proof fn lemma_path_index_push<V>(s: Seq<(Seq<char>, V)>, path: Seq<char>, x: (Seq<char>, V))
    ensures
        0 <= path_index(s, path) <= s.len(),
        path_index(s, path) < s.len() ==> path_index(s.push(x), path) == path_index(s, path),
        path_index(s, path) == s.len() && paths::same_way(x.0, path) ==> path_index(s.push(x), path)
            == s.len(),
    decreases s.len(),
{
    if s.len() > 0 {
        lemma_path_index_push(s.skip(1), path, x);
        assert(s.push(x).skip(1) =~= s.skip(1).push(x));
        assert(s.push(x)[0] == s[0]);
    } else {
        assert(s.push(x)[0] == x);
    }
}

/// The snapshot of a worktree is what was read of it where it was first opened: its branch, the
/// commit it has checked out and its submodules.
pub proof fn a_snapshot_tells_what_was_read(handles: Seq<WorktreeHandle>, path: Seq<char>, i: int)
    requires
        0 <= i < handles.len(),
        handles[i].reads is Some,
        paths::same_way(handles[i].path@, path),
        forall|j: int|
            0 <= j < i && (#[trigger] handles[j]).reads is Some ==> !paths::same_way(
                handles[j].path@,
                path,
            ),
    ensures
        ({
            let reads = handles[i].reads->0;
            let s = snapshots_of(handles)[path_index(snapshots_of(handles), path)].1;
            &&& s.head_oid == reads.head_oid
            &&& reads.current_branch is Some ==> s.current_branch == reads.current_branch->0@
            &&& reads.submodules is Some ==> s.submodules == reads.submodules->0@
        }),
{
    lemma_snapshot_kept(handles, path, i);
}

/// Everything that a refresh could not read is told, with the reason.
pub proof fn a_refresh_tells_what_it_could_not_read(reads: RefreshReads)
    ensures
        reads.commits is Err ==> repo_state::tells(
            refresh_errors(reads),
            "Failed to load commits: "@,
            reads.commits->Err_0,
        ),
        reads.branch_tips is Err ==> repo_state::tells(
            refresh_errors(reads),
            "Failed to load branches: "@,
            reads.branch_tips->Err_0,
        ),
        reads.tags is Err ==> repo_state::tells(
            refresh_errors(reads),
            "Failed to load tags: "@,
            reads.tags->Err_0,
        ),
        reads.worktrees is Err ==> repo_state::tells(
            refresh_errors(reads),
            "Failed to load worktrees: "@,
            reads.worktrees->Err_0,
        ),
        reads.commits is Ok && reads.branch_tips is Ok && reads.tags is Ok && reads.worktrees is Ok
            ==> refresh_errors(reads).len() == 0,
{
    let e = refresh_errors(reads);
    let n1: int = if reads.commits is Err {
        1
    } else {
        0
    };
    let n2: int = n1 + if reads.branch_tips is Err {
        1int
    } else {
        0
    };
    let n3: int = n2 + if reads.tags is Err {
        1int
    } else {
        0
    };
    if reads.commits is Err {
        assert(e[0] == "Failed to load commits: "@ + reads.commits->Err_0@);
    }
    if reads.branch_tips is Err {
        assert(e[n1] == "Failed to load branches: "@ + reads.branch_tips->Err_0@);
    }
    if reads.tags is Err {
        assert(e[n2] == "Failed to load tags: "@ + reads.tags->Err_0@);
    }
    if reads.worktrees is Err {
        assert(e[n3] == "Failed to load worktrees: "@ + reads.worktrees->Err_0@);
    }
}

/// The status that is told is the one that was read, of the main working directory and of the
/// worktree that is staged in; where none could be read of one that was opened, nothing in it
/// changed. The prepared message comes along while a merge, a cherry-pick or a revert is made.
pub proof fn the_status_read_is_told(
    r: StatusResult,
    main: Option<StatusReads>,
    staging: Option<StatusReads>,
)
    requires
        main_is(r, main),
        staging_is(r, staging),
    ensures
        main is Some && main->0.status is Some ==> r.main_status is Some && r.main_status->0@
            == main->0.status->0@,
        main is Some && main->0.status is None ==> r.main_status is Some
            && r.main_status->0@.total() == 0,
        main is None ==> r.main_status is None,
        staging is Some && staging->0.status is Some ==> r.staging_status is Some
            && r.staging_status->0@ == staging->0.status->0@,
        staging is Some ==> r.staging_repo_state == staging->0.state && r.staging_path
            == staging->0.workdir,
        staging is Some && staging->0.state == RepositoryState::Merge ==> r.staging_merge_msg
            == staging->0.merge_message,
        staging is Some && (staging->0.state == RepositoryState::CherryPick || staging->0.state
            == RepositoryState::CherryPickSequence) ==> r.staging_merge_msg
            == staging->0.merge_message,
        staging is Some && (staging->0.state == RepositoryState::Revert || staging->0.state
            == RepositoryState::RevertSequence) ==> r.staging_merge_msg
            == staging->0.merge_message,
        staging is Some && (staging->0.state == RepositoryState::Clean || staging->0.state
            == RepositoryState::Rebase || staging->0.state == RepositoryState::Bisect)
            ==> r.staging_merge_msg is None,
{
}

/// A worktree has as many changed files as its lists name, and none where it could not be read.
pub proof fn a_worktree_counts_its_files(reads: DirtyReads)
    ensures
        reads.statuses is Some ==> changed_files(Some(reads)) == full_status(
            reads.statuses->0@,
            reads.deltas@,
        ).total(),
        reads.statuses is None ==> changed_files(Some(reads)) == 0,
        changed_files(None) == 0,
{
}

} // verus!
