//! How what was read of a repository in the background reaches a tab.

use crate::app::toast::{self, ToastManager, ToastSeverity, ToastView};
use crate::git::repo;
use crate::git::status::{
    self, working_dir_status_from_statuses, StatusEntry, WorkingDirStatus, WorkingDirView,
};
use crate::git::{
    self, create_synthetic_entries, insert_synthetics_sorted, repo_state_label, time_of_commit,
    BranchTip, CommitInfo, RepositoryState, StashEntry, SubmoduleInfo, TagInfo, WorkdirFacts,
    WorktreeFacts, WorktreeInfo,
};
use crate::git_async::DirtyCheckResult;
use crate::oid::Oid;
use crate::paths::{self, same_path};
use crate::text::{self, same, trimmed_end_char};
use crate::text_map::TextMap;
use vstd::prelude::*;
use vstd::string::*;

verus! {

// ---------------------------------------------------------------------------
// Commits that stand for changes
// ---------------------------------------------------------------------------

/// The commits that are commits, without the entries for changes not yet committed.
pub open spec fn real_commits(commits: Seq<CommitInfo>) -> Seq<CommitInfo>
    decreases commits.len(),
{
    if commits.len() == 0 {
        Seq::empty()
    } else if commits.last().is_synthetic {
        real_commits(commits.drop_last())
    } else {
        real_commits(commits.drop_last()).push(commits.last())
    }
}

fn drop_synthetics(commits: &mut Vec<CommitInfo>)
    ensures
        final(commits)@ == real_commits(old(commits)@),
{
    let ghost all = commits@;
    let mut taken: Vec<CommitInfo> = Vec::new();
    std::mem::swap(&mut taken, commits);
    assert(commits@ =~= real_commits(all.take(0)));
    for c in it: taken
        invariant
            it.seq() == all,
            commits@ == real_commits(all.take(it.index() as int)),
    {
        proof {
            let i = it.index() as int;
            assert(all.take(i + 1).drop_last() =~= all.take(i));
            assert(all.take(i + 1).last() == c);
        }
        if !c.is_synthetic {
            commits.push(c);
        }
    }
    assert(all.take(all.len() as int) =~= all);
}

/// The ids of the commits that are commits.
pub open spec fn real_ids(commits: Seq<CommitInfo>) -> Seq<Oid>
    decreases commits.len(),
{
    if commits.len() == 0 {
        Seq::empty()
    } else if commits.last().is_synthetic {
        real_ids(commits.drop_last())
    } else {
        real_ids(commits.drop_last()).push(commits.last().id)
    }
}

/// The ids of the commits, without those of the entries for changes.
pub fn collect_real_ids(commits: &Vec<CommitInfo>) -> (r: Vec<Oid>)
    ensures
        r@ == real_ids(commits@),
{
    let mut r: Vec<Oid> = Vec::new();
    let mut i: usize = 0;
    assert(r@ =~= real_ids(commits@.take(0)));
    while i < commits.len()
        invariant
            i <= commits.len(),
            r@ == real_ids(commits@.take(i as int)),
        decreases commits.len() - i,
    {
        proof {
            assert(commits@.take(i + 1).drop_last() =~= commits@.take(i as int));
            assert(commits@.take(i + 1).last() == commits@[i as int]);
        }
        if !commits[i].is_synthetic {
            r.push(commits[i].id);
        }
        i = i + 1;
    }
    assert(commits@.take(commits@.len() as int) =~= commits@);
    r
}

// ---------------------------------------------------------------------------
// Working directory status
// ---------------------------------------------------------------------------

/// What was read of the working directories.
pub struct StatusRefresh {
    /// Status of the main working directory, for the graph and the header.
    pub main_status: Option<WorkingDirStatus>,
    /// Status of the worktree that is being staged in.
    pub staging_status: Option<WorkingDirStatus>,
    pub staging_repo_state: RepositoryState,
    /// Lines inserted and deleted in the main working directory.
    pub main_diff_stats: Option<(usize, usize)>,
    pub head_oid: Option<Oid>,
    /// Whether the repository has a working directory.
    pub has_workdir: bool,
    /// When a file in the main working directory was last changed.
    pub mtime: Option<i64>,
}

/// What is read of the repository of a tab for a status refresh.
pub struct MainReads {
    /// The changed files, where they could be listed.
    pub statuses: Option<Vec<StatusEntry>>,
    pub head_oid: Option<Oid>,
    pub has_workdir: bool,
    pub diff_stats: (usize, usize),
    pub mtime: Option<i64>,
}

/// What is read of the worktree that is being staged in for a status refresh.
pub struct WorktreeReads {
    pub statuses: Option<Vec<StatusEntry>>,
    pub state: RepositoryState,
}

/// The status that a list of changed files amounts to; a repository without a working
/// directory has no changed files.
pub open spec fn status_read(bare: bool, statuses: Option<Vec<StatusEntry>>) -> Option<
    WorkingDirView,
> {
    if bare {
        Some(WorkingDirView::clean())
    } else {
        match statuses {
            Some(s) => Some(status::status_of(s@)),
            None => None,
        }
    }
}

/// The status of the main working directory; a repository without one is clean even where it
/// could not be opened.
pub open spec fn main_status_read(bare: bool, main: Option<MainReads>) -> Option<WorkingDirView> {
    match main {
        Some(m) => status_read(bare, m.statuses),
        None => if bare {
            Some(WorkingDirView::clean())
        } else {
            None
        },
    }
}

/// A status by its views, where there is one.
pub open spec fn status_view(s: Option<WorkingDirStatus>) -> Option<WorkingDirView> {
    match s {
        Some(s) => Some(s@),
        None => None,
    }
}

fn read_status(bare: bool, statuses: Option<Vec<StatusEntry>>) -> (r: Option<WorkingDirStatus>)
    ensures
        status_view(r) == status_read(bare, statuses),
{
    if bare {
        let none: Vec<StatusEntry> = Vec::new();
        let clean = working_dir_status_from_statuses(&none);
        assert(clean@ =~= WorkingDirView::clean());
        return Some(clean);
    }
    match statuses {
        Some(s) => Some(working_dir_status_from_statuses(&s)),
        None => None,
    }
}

/// Put together what was read for a status refresh. Statistics are taken only where a file is
/// changed.
pub fn gather_status(bare: bool, main: Option<MainReads>, staging: Option<WorktreeReads>) -> (r:
    StatusRefresh)
    requires
        match main_status_read(bare, main) {
            Some(s) => s.total() <= usize::MAX,
            None => true,
        },
    ensures
        status_view(r.main_status) == main_status_read(bare, main),
        match staging {
            Some(w) => {
                &&& status_view(r.staging_status) == status_read(bare, w.statuses)
                &&& r.staging_repo_state == w.state
            },
            None => r.staging_status is None && r.staging_repo_state == RepositoryState::Clean,
        },
        match main {
            Some(m) => {
                &&& r.head_oid == m.head_oid
                &&& r.has_workdir == m.has_workdir
                &&& r.mtime == m.mtime
                &&& r.main_diff_stats == (if dirty_count(r) > 0 {
                    Some(m.diff_stats)
                } else {
                    None
                })
            },
            None => r.head_oid is None && !r.has_workdir && r.mtime is None
                && r.main_diff_stats is None,
        },
{
    let (staging_status, staging_repo_state) = match staging {
        Some(w) => (read_status(bare, w.statuses), w.state),
        None => (None, RepositoryState::Clean),
    };
    match main {
        Some(m) => {
            let main_status = read_status(bare, m.statuses);
            let dirty = match &main_status {
                Some(s) => s.total_files() > 0,
                None => false,
            };
            StatusRefresh {
                main_status,
                staging_status,
                staging_repo_state,
                main_diff_stats: if dirty {
                    Some(m.diff_stats)
                } else {
                    None
                },
                head_oid: m.head_oid,
                has_workdir: m.has_workdir,
                mtime: m.mtime,
            }
        },
        None => StatusRefresh {
            main_status: read_status(bare, None),
            staging_status,
            staging_repo_state,
            main_diff_stats: None,
            head_oid: None,
            has_workdir: false,
            mtime: None,
        },
    }
}

/// What a status refresh reaches.
pub struct StatusTarget {
    pub staging_status: WorkingDirStatus,
    pub repo_state_label: Option<&'static str>,
    pub working_dir_status: Option<WorkingDirStatus>,
    pub commits: Vec<CommitInfo>,
    /// How many worktrees are linked.
    pub worktree_count: usize,
}

/// How many files are changed in the main working directory.
pub open spec fn dirty_count(r: StatusRefresh) -> nat {
    match r.main_status {
        Some(s) => s@.total(),
        None => 0,
    }
}

/// Whether there is an entry for changes in the main working directory.
pub open spec fn entry_due(r: StatusRefresh) -> bool {
    r.head_oid is Some && r.has_workdir && dirty_count(r) > 0
}

/// The entry for the changes in the main working directory.
pub open spec fn status_entry(r: StatusRefresh, commits: Seq<CommitInfo>) -> git::CommitView {
    git::workdir_entry(
        r.head_oid->0,
        dirty_count(r),
        git::commit_time(commits, r.head_oid->0),
        r.mtime,
        match r.main_diff_stats {
            Some(s) => s,
            None => (0, 0),
        },
    )
}

/// The commits after a status refresh. While no worktree is linked, the entry for changes is
/// brought up to date; otherwise that is left to the checks of the worktrees.
pub open spec fn commits_after_status(
    before: Seq<CommitInfo>,
    r: StatusRefresh,
    worktree_count: nat,
    after: Seq<CommitInfo>,
) -> bool {
    if worktree_count > 0 {
        after == before
    } else if entry_due(r) {
        exists|entry: CommitInfo|
            entry@ == status_entry(r, real_commits(before)) && after == #[trigger] git::with_entry(
                real_commits(before),
                entry,
            )
    } else {
        after == real_commits(before)
    }
}

/// Apply a completed status result. Returns whether the rows of the graph have to be laid out
/// again.
pub fn apply_status_result(result: StatusRefresh, target: &mut StatusTarget) -> (r: bool)
    requires
        dirty_count(result) <= usize::MAX,
    ensures
        final(target).staging_status == (match result.staging_status {
            Some(s) => s,
            None => old(target).staging_status,
        }),
        git::opt_str_view(final(target).repo_state_label) == git::state_label(
            result.staging_repo_state,
        ),
        final(target).working_dir_status == (match result.main_status {
            Some(s) => Some(s),
            None => old(target).working_dir_status,
        }),
        final(target).worktree_count == old(target).worktree_count,
        commits_after_status(
            old(target).commits@,
            result,
            old(target).worktree_count as nat,
            final(target).commits@,
        ),
        r == (old(target).worktree_count == 0 && entry_due(result)),
{
    if let Some(status) = result.staging_status {
        target.staging_status = status;
    }
    target.repo_state_label = repo_state_label(result.staging_repo_state);
    let mut count: usize = 0;
    if let Some(status) = result.main_status {
        count = status.total_files();
        target.working_dir_status = Some(status);
    }
    if target.worktree_count > 0 {
        return false;
    }
    drop_synthetics(&mut target.commits);
    let ghost kept = target.commits@;
    if let Some(head) = result.head_oid {
        if result.has_workdir && count > 0 {
            let parent_time = time_of_commit(&target.commits, head);
            let mut entry = CommitInfo::synthetic_for_working_dir(
                head,
                count,
                parent_time,
                result.mtime,
            );
            if let Some(stats) = result.main_diff_stats {
                entry.insertions = stats.0;
                entry.deletions = stats.1;
            }
            let ghost e = entry;
            let mut entries: Vec<CommitInfo> = Vec::new();
            entries.push(entry);
            proof {
                let s = entries@;
                assert(s.drop_last() =~= Seq::empty());
                assert(s.last() == e);
                assert(git::with_entries(kept, s.drop_last()) == kept);
                assert(git::with_entries(kept, s) == git::with_entry(kept, e));
            }
            insert_synthetics_sorted(&mut target.commits, entries);
            return true;
        }
    }
    false
}

// ---------------------------------------------------------------------------
// Everything that is read of a repository
// ---------------------------------------------------------------------------

/// How many commits are read.
pub const MAX_COMMITS: usize = 1000;

/// The readings of a repository, each with its error where it failed.
pub struct RepoReads {
    pub commits: Result<Vec<CommitInfo>, String>,
    pub branch_tips: Result<Vec<BranchTip>, String>,
    pub tags: Result<Vec<TagInfo>, String>,
    pub current_branch: Result<String, String>,
    pub head_oid: Option<Oid>,
    pub worktrees: Result<Vec<WorktreeInfo>, String>,
    /// What was read of each worktree, where the worktrees could be read.
    pub worktree_facts: Vec<WorktreeFacts>,
    /// What the reference repository has checked out.
    pub repo_head: Option<Oid>,
    pub workdir: Option<WorkdirFacts>,
    pub remote_names: Vec<String>,
    pub remote_urls: TextMap<String>,
    pub is_bare: bool,
    pub submodules: Result<Vec<SubmoduleInfo>, String>,
    pub stashes: Vec<StashEntry>,
    pub ahead_behind: TextMap<(usize, usize)>,
    pub ref_fingerprint: u64,
}

/// Result of a background repo state refresh.
pub struct RepoStateResult {
    pub commits: Vec<CommitInfo>,
    pub branch_tips: Vec<BranchTip>,
    pub tags: Vec<TagInfo>,
    pub current_branch: String,
    pub head_oid: Option<Oid>,
    pub worktrees: Vec<WorktreeInfo>,
    pub remote_names: Vec<String>,
    pub remote_urls: TextMap<String>,
    pub is_bare: bool,
    pub submodules: Vec<SubmoduleInfo>,
    pub stashes: Vec<StashEntry>,
    pub ahead_behind: TextMap<(usize, usize)>,
    pub ref_fingerprint: u64,
    /// Commits whose statistics are to be computed.
    pub real_oids: Vec<Oid>,
    pub errors: Vec<String>,
}

/// What is said of a reading that failed.
pub open spec fn complaint_of<T>(r: Result<T, String>, what: Seq<char>) -> Seq<Seq<char>> {
    match r {
        Ok(_) => Seq::empty(),
        Err(e) => seq![what + e@],
    }
}

/// Everything that went wrong while a repository was read, in the order of the readings.
pub open spec fn read_errors(reads: RepoReads) -> Seq<Seq<char>> {
    complaint_of(reads.commits, "Failed to load commits: "@) + complaint_of(
        reads.branch_tips,
        "Failed to load branches: "@,
    ) + complaint_of(reads.tags, "Failed to load tags: "@) + complaint_of(
        reads.current_branch,
        "Failed to get current branch: "@,
    ) + complaint_of(reads.worktrees, "Failed to load worktrees: "@) + complaint_of(
        reads.submodules,
        "Failed to load submodules: "@,
    )
}

/// What was read, or nothing.
pub open spec fn list_or_none<T>(r: Result<Vec<T>, String>) -> Seq<T> {
    match r {
        Ok(v) => v@,
        Err(_) => Seq::empty(),
    }
}

/// A tip that is the HEAD exactly where it is the local branch `current`.
pub open spec fn with_head(tip: repo::TipView, current: Seq<char>) -> repo::TipView {
    repo::TipView { is_head: !tip.is_remote && tip.name == current, ..tip }
}

/// All tips, the HEAD among them being the local branch `current`.
pub open spec fn with_heads(tips: Seq<repo::TipView>, current: Seq<char>) -> Seq<repo::TipView> {
    Seq::new(tips.len(), |i: int| with_head(tips[i], current))
}

/// The name of the branch that was read.
pub open spec fn branch_read(r: Result<String, String>) -> Seq<char> {
    match r {
        Ok(s) => s@,
        Err(_) => ""@,
    }
}

fn mark_heads(tips: &mut Vec<BranchTip>, current: &str)
    ensures
        text::views(final(tips)@) == with_heads(text::views(old(tips)@), current@),
{
    let ghost before = text::views(tips@);
    let mut i: usize = 0;
    while i < tips.len()
        invariant
            i <= tips.len() == before.len(),
            forall|k: int| 0 <= k < i ==> (#[trigger] tips@[k])@ == with_head(before[k], current@),
            forall|k: int| i <= k < tips.len() ==> (#[trigger] tips@[k])@ == before[k],
        decreases tips.len() - i,
    {
        let head = !tips[i].is_remote && same(tips[i].name.as_str(), current);
        assert(tips@[i as int]@ == before[i as int]);
        tips[i].is_head = head;
        i = i + 1;
    }
    assert(text::views(tips@) =~= with_heads(before, current@));
}

fn note_error(errors: &mut Vec<String>, what: &str, e: &String)
    ensures
        text::views(final(errors)@) == text::views(old(errors)@) + seq![what@ + e@],
{
    let mut s = what.to_owned();
    s.append(e.as_str());
    let ghost before = errors@;
    errors.push(s);
    assert(text::views(errors@) =~= text::views(before) + seq![what@ + e@]);
}

/// What was read, or nothing and a complaint.
pub(crate) fn list_read<T>(r: Result<Vec<T>, String>, what: &str, errors: &mut Vec<String>) -> (out: Vec<T>)
    ensures
        out@ == list_or_none(r),
        text::views(final(errors)@) == text::views(old(errors)@) + complaint_of(r, what@),
{
    match r {
        Ok(v) => {
            assert(text::views(errors@) =~= text::views(old(errors)@) + complaint_of(r, what@));
            v
        },
        Err(e) => {
            note_error(errors, what, &e);
            Vec::new()
        },
    }
}

/// Whether a refresh holds what the readings say.
pub open spec fn holds_reads(r: RepoStateResult, reads: RepoReads) -> bool {
    let commits = list_or_none(reads.commits);
    let entries = git::synthetic_entries(
        reads.repo_head,
        reads.workdir,
        list_or_none(reads.worktrees),
        reads.worktree_facts@,
        commits,
    );
    &&& exists|made: Seq<CommitInfo>|
        text::views(made) == entries && r.commits@ == #[trigger] git::with_entries(commits, made)
    &&& text::views(r.branch_tips@) == with_heads(
        text::views(list_or_none(reads.branch_tips)),
        branch_read(reads.current_branch),
    )
    &&& r.tags@ == list_or_none(reads.tags)
    &&& r.current_branch@ == branch_read(reads.current_branch)
    &&& r.head_oid == reads.head_oid
    &&& r.worktrees@ == list_or_none(reads.worktrees)
    &&& r.remote_names == reads.remote_names
    &&& r.remote_urls == reads.remote_urls
    &&& r.is_bare == reads.is_bare
    &&& r.submodules@ == list_or_none(reads.submodules)
    &&& r.stashes == reads.stashes
    &&& r.ahead_behind == reads.ahead_behind
    &&& r.ref_fingerprint == reads.ref_fingerprint
    &&& r.real_oids@ == real_ids(r.commits@)
    &&& text::views(r.errors@) == read_errors(reads)
}

/// Put together what was read of a repository. A reading that failed leaves its part empty
/// and is complained about.
pub fn gather_repo_state(reads: RepoReads) -> (r: RepoStateResult)
    requires
        reads.worktree_facts@.len() == list_or_none(reads.worktrees).len(),
    ensures
        holds_reads(r, reads),
{
    let mut errors: Vec<String> = Vec::new();
    assert(text::views(errors@) =~= Seq::<Seq<char>>::empty());
    let mut commits = list_read(reads.commits, "Failed to load commits: ", &mut errors);
    let mut branch_tips = list_read(reads.branch_tips, "Failed to load branches: ", &mut errors);
    let tags = list_read(reads.tags, "Failed to load tags: ", &mut errors);
    let current_branch = match reads.current_branch {
        Ok(s) => s,
        Err(e) => {
            note_error(&mut errors, "Failed to get current branch: ", &e);
            "".to_owned()
        },
    };
    mark_heads(&mut branch_tips, current_branch.as_str());
    let worktrees = list_read(reads.worktrees, "Failed to load worktrees: ", &mut errors);
    let synthetics = create_synthetic_entries(
        reads.repo_head,
        reads.workdir,
        &worktrees,
        &reads.worktree_facts,
        &commits,
    );
    insert_synthetics_sorted(&mut commits, synthetics);
    let submodules = list_read(reads.submodules, "Failed to load submodules: ", &mut errors);
    let real_oids = collect_real_ids(&commits);
    assert(text::views(errors@) =~= read_errors(reads));
    RepoStateResult {
        commits,
        branch_tips,
        tags,
        current_branch,
        head_oid: reads.head_oid,
        worktrees,
        remote_names: reads.remote_names,
        remote_urls: reads.remote_urls,
        is_bare: reads.is_bare,
        submodules,
        stashes: reads.stashes,
        ahead_behind: reads.ahead_behind,
        ref_fingerprint: reads.ref_fingerprint,
        real_oids,
        errors,
    }
}

/// What a refresh gives where the repository could not even be opened.
pub fn repo_open_failed(error: &str) -> (r: RepoStateResult)
    ensures
        r.commits@.len() == 0,
        r.branch_tips@.len() == 0,
        r.tags@.len() == 0,
        r.current_branch@ == ""@,
        r.head_oid is None,
        r.worktrees@.len() == 0,
        r.remote_names@.len() == 0,
        r.remote_urls.list().len() == 0,
        !r.is_bare,
        r.submodules@.len() == 0,
        r.stashes@.len() == 0,
        r.ahead_behind.list().len() == 0,
        r.ref_fingerprint == 0,
        r.real_oids@.len() == 0,
        text::views(r.errors@) == seq!["Failed to open repo: "@ + error@],
{
    let mut s = "Failed to open repo: ".to_owned();
    s.append(error);
    let mut errors: Vec<String> = Vec::new();
    errors.push(s);
    assert(text::views(errors@) =~= seq!["Failed to open repo: "@ + error@]);
    RepoStateResult {
        commits: Vec::new(),
        branch_tips: Vec::new(),
        tags: Vec::new(),
        current_branch: "".to_owned(),
        head_oid: None,
        worktrees: Vec::new(),
        remote_names: Vec::new(),
        remote_urls: TextMap::new(),
        is_bare: false,
        submodules: Vec::new(),
        stashes: Vec::new(),
        ahead_behind: TextMap::new(),
        ref_fingerprint: 0,
        real_oids: Vec::new(),
        errors,
    }
}

/// What is read of the worktree that is being staged in when a refresh is applied.
pub struct StagingReads {
    pub submodules: Result<Vec<SubmoduleInfo>, String>,
    pub current_branch: Option<String>,
    pub head_oid: Option<Oid>,
    pub repo_state: RepositoryState,
    /// The directory that holds the repository.
    pub project_path: String,
}

/// What a tab shows of its repository.
pub struct RepoView {
    pub commits: Vec<CommitInfo>,
    pub branch_tips: Vec<BranchTip>,
    pub tags: Vec<TagInfo>,
    pub current_branch: String,
    pub head_oid: Option<Oid>,
    pub worktrees: Vec<WorktreeInfo>,
    pub remote_names: Vec<String>,
    pub remote_urls: TextMap<String>,
    pub is_bare: bool,
    pub submodules: Vec<SubmoduleInfo>,
    pub stashes: Vec<StashEntry>,
    pub ahead_behind: TextMap<(usize, usize)>,
    pub ref_fingerprint: u64,
    pub repo_path: String,
    pub operation_state_label: Option<&'static str>,
}

/// The statistics that are known of the commit `id`.
pub open spec fn known_stats(commits: Seq<CommitInfo>, id: Oid) -> Option<(usize, usize)>
    decreases commits.len(),
{
    if commits.len() == 0 {
        None
    } else {
        let c = commits.last();
        if c.id == id && (c.insertions > 0 || c.deletions > 0) {
            Some((c.insertions, c.deletions))
        } else {
            known_stats(commits.drop_last(), id)
        }
    }
}

/// A commit with the statistics that are known of it.
pub open spec fn with_known_stats(c: CommitInfo, known: Seq<CommitInfo>) -> CommitInfo {
    match known_stats(known, c.id) {
        Some(s) => CommitInfo { insertions: s.0, deletions: s.1, ..c },
        None => c,
    }
}

/// New commits with the statistics that are known from before.
pub open spec fn restored(new: Seq<CommitInfo>, old_commits: Seq<CommitInfo>) -> Seq<CommitInfo> {
    Seq::new(new.len(), |i: int| with_known_stats(new[i], old_commits))
}

fn find_stats(commits: &Vec<CommitInfo>, id: Oid) -> (r: Option<(usize, usize)>)
    ensures
        r == known_stats(commits@, id),
{
    let mut i: usize = commits.len();
    assert(commits@.take(i as int) =~= commits@);
    while i > 0
        invariant
            i <= commits.len(),
            known_stats(commits@, id) == known_stats(commits@.take(i as int), id),
        decreases i,
    {
        proof {
            assert(commits@.take(i as int).drop_last() =~= commits@.take(i - 1));
            assert(commits@.take(i as int).last() == commits@[i - 1]);
        }
        let c = &commits[i - 1];
        if c.id == id && (c.insertions > 0 || c.deletions > 0) {
            return Some((c.insertions, c.deletions));
        }
        i = i - 1;
    }
    None
}

fn restore_stats(new: &mut Vec<CommitInfo>, before: &Vec<CommitInfo>)
    ensures
        final(new)@ == restored(old(new)@, before@),
{
    let ghost start = new@;
    let mut i: usize = 0;
    while i < new.len()
        invariant
            i <= new.len() == start.len(),
            forall|k: int|
                0 <= k < i ==> #[trigger] new@[k] == with_known_stats(start[k], before@),
            forall|k: int| i <= k < new.len() ==> #[trigger] new@[k] == start[k],
        decreases new.len() - i,
    {
        assert(new@[i as int] == start[i as int]);
        if let Some(s) = find_stats(before, new[i].id) {
            let c = &mut new[i];
            c.insertions = s.0;
            c.deletions = s.1;
        }
        i = i + 1;
    }
    assert(new@ =~= restored(start, before@));
}

/// Errors as toasts.
pub open spec fn error_toasts(errors: Seq<Seq<char>>) -> Seq<ToastView> {
    Seq::new(errors.len(), |i: int| toast::error(errors[i]))
}

fn toast_errors(toasts: &mut ToastManager, errors: &Vec<String>)
    ensures
        final(toasts)@ == old(toasts)@ + error_toasts(text::views(errors@)),
{
    let ghost all = error_toasts(text::views(errors@));
    let mut i: usize = 0;
    assert(toasts@ =~= old(toasts)@ + all.take(0));
    while i < errors.len()
        invariant
            i <= errors.len(),
            all == error_toasts(text::views(errors@)),
            toasts@ == old(toasts)@ + all.take(i as int),
        decreases errors.len() - i,
    {
        toasts.push(errors[i].clone(), ToastSeverity::Error);
        i = i + 1;
        assert(toasts@ =~= old(toasts)@ + all.take(i as int));
    }
    assert(all.take(all.len() as int) =~= all);
}

/// Whether a refresh is passed over: one without commits never takes the place of commits
/// that are there, so that the graph does not go blank when reading fails.
pub open spec fn passed_over(result: RepoStateResult, view: RepoView) -> bool {
    result.commits@.len() == 0 && view.commits@.len() > 0
}

/// The branch that is shown as checked out.
pub open spec fn branch_shown(result: RepoStateResult, staging: StagingReads) -> Seq<char> {
    match staging.current_branch {
        Some(b) => b@,
        None => result.current_branch@,
    }
}

/// Whether a tab shows a refresh.
pub open spec fn shows_refresh(
    before: RepoView,
    result: RepoStateResult,
    staging: StagingReads,
    after: RepoView,
) -> bool {
    &&& after.commits@ == restored(result.commits@, before.commits@)
    &&& text::views(after.branch_tips@) == with_heads(
        text::views(result.branch_tips@),
        branch_shown(result, staging),
    )
    &&& after.tags == result.tags
    &&& after.current_branch@ == branch_shown(result, staging)
    &&& after.head_oid == (match staging.head_oid {
        Some(h) => Some(h),
        None => result.head_oid,
    })
    &&& after.worktrees == result.worktrees
    &&& after.remote_names == result.remote_names
    &&& after.remote_urls == result.remote_urls
    &&& after.is_bare == result.is_bare
    &&& after.submodules == (match staging.submodules {
        Ok(s) => s,
        Err(_) => result.submodules,
    })
    &&& after.stashes == result.stashes
    &&& after.ahead_behind == result.ahead_behind
    &&& after.ref_fingerprint == result.ref_fingerprint
    &&& after.repo_path@ == text::trim_end_char(staging.project_path@, '/')
    &&& git::opt_str_view(after.operation_state_label) == git::state_label(staging.repo_state)
}

/// Apply a completed repo state result. Returns the commits whose statistics are to be
/// computed, where there are any.
pub fn apply_repo_state_result(
    result: RepoStateResult,
    staging: StagingReads,
    view: &mut RepoView,
    toasts: &mut ToastManager,
) -> (r: Option<Vec<Oid>>)
    ensures
        passed_over(result, *old(view)) ==> {
            &&& *final(view) == *old(view)
            &&& r is None
            &&& final(toasts)@ == old(toasts)@ + error_toasts(text::views(result.errors@))
        },
        !passed_over(result, *old(view)) ==> {
            &&& shows_refresh(*old(view), result, staging, *final(view))
            &&& r == (if result.real_oids@.len() > 0 {
                Some(result.real_oids)
            } else {
                None
            })
            &&& final(toasts)@ == old(toasts)@ + error_toasts(text::views(result.errors@))
                + error_toasts(complaint_of(staging.submodules, "Failed to load submodules: "@))
        },
{
    toast_errors(toasts, &result.errors);
    if result.commits.len() == 0 && view.commits.len() > 0 {
        return None;
    }
    let mut commits = result.commits;
    restore_stats(&mut commits, &view.commits);
    view.commits = commits;
    view.tags = result.tags;
    view.worktrees = result.worktrees;
    view.remote_names = result.remote_names;
    view.remote_urls = result.remote_urls;
    view.is_bare = result.is_bare;
    let ghost said = toasts@;
    view.submodules = match staging.submodules {
        Ok(s) => {
            assert(error_toasts(complaint_of(staging.submodules, "Failed to load submodules: "@))
                =~= Seq::empty());
            s
        },
        Err(e) => {
            let mut s = "Failed to load submodules: ".to_owned();
            s.append(e.as_str());
            toasts.push(s, ToastSeverity::Error);
            assert(error_toasts(complaint_of(staging.submodules, "Failed to load submodules: "@))
                =~= seq![toast::error(s@)]);
            result.submodules
        },
    };
    assert(toasts@ =~= said + error_toasts(
        complaint_of(staging.submodules, "Failed to load submodules: "@),
    ));
    view.current_branch = match staging.current_branch {
        Some(b) => b,
        None => result.current_branch,
    };
    view.head_oid = match staging.head_oid {
        Some(h) => Some(h),
        None => result.head_oid,
    };
    view.stashes = result.stashes;
    view.ahead_behind = result.ahead_behind;
    view.repo_path = trimmed_end_char(staging.project_path.as_str(), '/');
    view.operation_state_label = repo_state_label(staging.repo_state);
    let mut tips = result.branch_tips;
    mark_heads(&mut tips, view.current_branch.as_str());
    view.branch_tips = tips;
    view.ref_fingerprint = result.ref_fingerprint;
    if result.real_oids.len() > 0 {
        Some(result.real_oids)
    } else {
        None
    }
}

/// A refresh never leaves a tab without commits that had some.
pub proof fn refresh_never_blanks_the_graph(
    before: RepoView,
    result: RepoStateResult,
    staging: StagingReads,
    after: RepoView,
)
    requires
        before.commits@.len() > 0,
        if passed_over(result, before) {
            after == before
        } else {
            shows_refresh(before, result, staging, after)
        },
    ensures
        after.commits@.len() > 0,
{
}

/// Statistics survive a refresh: a commit of which some were known still has statistics, and
/// only the statistics of a commit differ from what was read.
pub proof fn statistics_survive_a_refresh(
    new: Seq<CommitInfo>,
    before: Seq<CommitInfo>,
    i: int,
    k: int,
)
    requires
        0 <= i < new.len(),
        0 <= k < before.len(),
        before[k].id == new[i].id,
        before[k].insertions > 0 || before[k].deletions > 0,
    ensures
        restored(new, before).len() == new.len(),
        restored(new, before)[i].insertions > 0 || restored(new, before)[i].deletions > 0,
        restored(new, before)[i] == (CommitInfo {
            insertions: restored(new, before)[i].insertions,
            deletions: restored(new, before)[i].deletions,
            ..new[i]
        }),
{
    lemma_known_stats(before, new[i].id, k);
}

proof fn lemma_known_stats(commits: Seq<CommitInfo>, id: Oid, k: int)
    requires
        0 <= k < commits.len(),
        commits[k].id == id,
        commits[k].insertions > 0 || commits[k].deletions > 0,
    ensures
        match known_stats(commits, id) {
            Some(s) => s.0 > 0 || s.1 > 0,
            None => false,
        },
    decreases commits.len(),
{
    if k < commits.len() - 1 {
        assert(commits.drop_last()[k] == commits[k]);
        lemma_known_stats(commits.drop_last(), id, k);
    }
}

/// Of a tab's local branches the one that is shown as checked out is the HEAD, and no other
/// branch is.
pub proof fn the_branch_checked_out_is_the_head(
    tips: Seq<repo::TipView>,
    current: Seq<char>,
    i: int,
)
    requires
        0 <= i < tips.len(),
    ensures
        with_heads(tips, current)[i].is_head <==> !tips[i].is_remote && tips[i].name == current,
{
}

// ---------------------------------------------------------------------------
// The worktrees that are kept open
// ---------------------------------------------------------------------------

/// Where the handle of a worktree comes from: it was there, or the refresh opened it.
#[derive(Debug, Clone, Copy, PartialEq, Eq, Structural)]
pub enum HandleFrom {
    /// It was there, at this place.
    Cached(usize),
    /// The refresh opened it, at this place.
    Opened(usize),
}

/// A worktree that is kept open.
#[derive(Debug)]
pub struct CachedHandle {
    pub path: String,
    pub from: HandleFrom,
}

/// A worktree that is kept open, by its views.
pub struct HandleView {
    pub path: Seq<char>,
    pub from: HandleFrom,
}

impl View for CachedHandle {
    type V = HandleView;

    open spec fn view(&self) -> HandleView {
        HandleView { path: self.path@, from: self.from }
    }
}

/// The handles that are there, by their paths.
pub open spec fn own_handles(cached: Seq<Seq<char>>) -> Seq<HandleView> {
    Seq::new(
        cached.len(),
        |i: int| HandleView { path: cached[i], from: HandleFrom::Cached(i as usize) },
    )
}

/// The place of the first handle for a path from `i` on, or the number of handles where there is
/// none.
pub open spec fn handle_from(s: Seq<HandleView>, path: Seq<char>, i: int) -> int
    decreases s.len() - i,
{
    if i >= s.len() {
        s.len() as int
    } else if paths::same_way(s[i].path, path) {
        i
    } else {
        handle_from(s, path, i + 1)
    }
}

/// The handles that are there, and behind them those that were opened for other paths. Where
/// there is a handle already, it stays.
pub open spec fn with_opened(cached: Seq<Seq<char>>, opened: Seq<Seq<char>>) -> Seq<HandleView>
    decreases opened.len(),
{
    if opened.len() == 0 {
        own_handles(cached)
    } else {
        let rest = with_opened(cached, opened.drop_last());
        let path = opened.last();
        if handle_from(rest, path, 0) < rest.len() {
            rest
        } else {
            rest.push(
                HandleView { path, from: HandleFrom::Opened((opened.len() - 1) as usize) },
            )
        }
    }
}

/// Whether a worktree at `path` is listed.
pub open spec fn is_listed(worktrees: Seq<WorktreeInfo>, path: Seq<char>) -> bool {
    exists|i: int|
        0 <= i < worktrees.len() && paths::same_way((#[trigger] worktrees[i]).path@, path)
}

/// The handles of worktrees that are listed.
pub open spec fn listed_handles(s: Seq<HandleView>, worktrees: Seq<WorktreeInfo>) -> Seq<
    HandleView,
>
    decreases s.len(),
{
    if s.len() == 0 {
        Seq::empty()
    } else if is_listed(worktrees, s.last().path) {
        listed_handles(s.drop_last(), worktrees).push(s.last())
    } else {
        listed_handles(s.drop_last(), worktrees)
    }
}

/// The handles that are kept after a refresh.
pub open spec fn handles_after(
    cached: Seq<Seq<char>>,
    opened: Seq<Seq<char>>,
    worktrees: Seq<WorktreeInfo>,
) -> Seq<HandleView> {
    listed_handles(with_opened(cached, opened), worktrees)
}

/// The place of the handle of the worktree that is staged in, none where that is the
/// repository of the tab itself.
pub open spec fn staging_place(s: Seq<HandleView>, selected: Option<Seq<char>>) -> Option<int> {
    match selected {
        Some(path) => if handle_from(s, path, 0) < s.len() {
            Some(handle_from(s, path, 0))
        } else {
            None
        },
        None => None,
    }
}

/// The worktrees of a tab after a refresh.
#[derive(Debug)]
pub struct OpenWorktrees {
    pub handles: Vec<CachedHandle>,
    /// The path of the worktree that is selected.
    pub selected: Option<String>,
    /// The place of the handle that is staged in. Where there is none, the repository of the
    /// tab is staged in.
    pub staging: Option<usize>,
}

fn find_handle(handles: &Vec<CachedHandle>, path: &str) -> (r: usize)
    ensures
        r == handle_from(text::views(handles@), path@, 0),
        r <= handles.len(),
{
    let ghost all = text::views(handles@);
    let mut i: usize = 0;
    while i < handles.len()
        invariant
            i <= handles.len(),
            all == text::views(handles@),
            handle_from(all, path@, 0) == handle_from(all, path@, i as int),
        decreases handles.len() - i,
    {
        if same_path(handles[i].path.as_str(), path) {
            return i;
        }
        i = i + 1;
    }
    i
}

fn listed(worktrees: &Vec<WorktreeInfo>, path: &str) -> (r: bool)
    ensures
        r == is_listed(worktrees@, path@),
{
    let mut i: usize = 0;
    while i < worktrees.len()
        invariant
            i <= worktrees.len(),
            forall|k: int|
                0 <= k < i ==> !paths::same_way((#[trigger] worktrees@[k]).path@, path@),
        decreases worktrees.len() - i,
    {
        if same_path(worktrees[i].path.as_str(), path) {
            return true;
        }
        i = i + 1;
    }
    false
}

fn push_handle(handles: &mut Vec<CachedHandle>, path: String, from: HandleFrom)
    ensures
        text::views(final(handles)@) == text::views(old(handles)@).push(
            HandleView { path: path@, from },
        ),
{
    let ghost before = text::views(handles@);
    handles.push(CachedHandle { path, from });
    assert(text::views(handles@) =~= before.push(HandleView { path: path@, from }));
}

fn handles_there(cached: &Vec<String>) -> (r: Vec<CachedHandle>)
    ensures
        text::views(r@) == own_handles(text::views(cached@)),
{
    let ghost all = own_handles(text::views(cached@));
    let mut r: Vec<CachedHandle> = Vec::new();
    let mut i: usize = 0;
    assert(text::views(r@) =~= all.take(0));
    while i < cached.len()
        invariant
            i <= cached.len(),
            all == own_handles(text::views(cached@)),
            text::views(r@) == all.take(i as int),
        decreases cached.len() - i,
    {
        push_handle(&mut r, cached[i].clone(), HandleFrom::Cached(i));
        i = i + 1;
        assert(text::views(r@) =~= all.take(i as int));
    }
    assert(all.take(all.len() as int) =~= all);
    r
}

fn add_opened(handles: &mut Vec<CachedHandle>, cached: &Vec<String>, opened: &Vec<String>)
    requires
        text::views(old(handles)@) == own_handles(text::views(cached@)),
    ensures
        text::views(final(handles)@) == with_opened(text::views(cached@), text::views(opened@)),
{
    let ghost own = text::views(cached@);
    let ghost all = text::views(opened@);
    let mut i: usize = 0;
    assert(all.take(0) =~= Seq::empty());
    while i < opened.len()
        invariant
            i <= opened.len(),
            own == text::views(cached@),
            all == text::views(opened@),
            text::views(handles@) == with_opened(own, all.take(i as int)),
        decreases opened.len() - i,
    {
        proof {
            assert(all.take(i + 1).drop_last() =~= all.take(i as int));
            assert(all.take(i + 1).last() == opened@[i as int]@);
        }
        let at: usize = find_handle(handles, opened[i].as_str());
        assert(text::views(handles@).len() == handles@.len());
        if at >= handles.len() {
            push_handle(handles, opened[i].clone(), HandleFrom::Opened(i));
        }
        i = i + 1;
    }
    assert(all.take(all.len() as int) =~= all);
}

fn keep_listed(handles: Vec<CachedHandle>, worktrees: &Vec<WorktreeInfo>) -> (r: Vec<
    CachedHandle,
>)
    ensures
        text::views(r@) == listed_handles(text::views(handles@), worktrees@),
{
    let ghost all = text::views(handles@);
    let mut r: Vec<CachedHandle> = Vec::new();
    assert(all.take(0) =~= Seq::empty());
    assert(text::views(r@) =~= Seq::empty());
    for h in it: handles
        invariant
            it.seq() == handles@,
            all == text::views(handles@),
            text::views(r@) == listed_handles(all.take(it.index() as int), worktrees@),
    {
        proof {
            let i = it.index() as int;
            assert(all.take(i + 1).drop_last() =~= all.take(i));
            assert(all.take(i + 1).last() == h@);
        }
        if listed(worktrees, h.path.as_str()) {
            push_handle(&mut r, h.path, h.from);
        }
    }
    assert(all.take(all.len() as int) =~= all);
    r
}

/// Which worktrees stay open once a refresh is applied, and which of them is staged in. The
/// handles that the refresh opened join those that are there, and the worktrees that are not
/// listed any more are dropped. The worktree that is picked in the staging area is selected.
/// A refresh that is passed over leaves all as it is.
pub fn worktrees_after_refresh(
    result: &RepoStateResult,
    view: &RepoView,
    cached: &Vec<String>,
    opened: &Vec<String>,
    selected: Option<String>,
    picked: Option<String>,
) -> (r: OpenWorktrees)
    ensures
        text::views(r.handles@) == (if passed_over(*result, *view) {
            own_handles(text::views(cached@))
        } else {
            handles_after(text::views(cached@), text::views(opened@), result.worktrees@)
        }),
        r.selected == (if passed_over(*result, *view) {
            selected
        } else {
            picked
        }),
        match r.staging {
            Some(i) => staging_place(text::views(r.handles@), text::opt_view(r.selected)) == Some(
                i as int,
            ),
            None => staging_place(text::views(r.handles@), text::opt_view(r.selected)) is None,
        },
{
    let mut handles = handles_there(cached);
    let mut chosen = selected;
    if result.commits.len() > 0 || view.commits.len() == 0 {
        add_opened(&mut handles, cached, opened);
        handles = keep_listed(handles, &result.worktrees);
        chosen = picked;
    }
    let staging: Option<usize> = match &chosen {
        Some(path) => {
            let at: usize = find_handle(&handles, path.as_str());
            if at < handles.len() {
                Some(at)
            } else {
                None
            }
        },
        None => None,
    };
    assert(text::views(handles@).len() == handles@.len());
    OpenWorktrees { handles, selected: chosen, staging }
}

proof fn lemma_handle_from(s: Seq<HandleView>, path: Seq<char>, i: int)
    requires
        0 <= i <= s.len(),
    ensures
        i <= handle_from(s, path, i) <= s.len(),
        handle_from(s, path, i) < s.len() ==> paths::same_way(
            s[handle_from(s, path, i)].path,
            path,
        ),
        forall|k: int|
            i <= k < handle_from(s, path, i) ==> !paths::same_way((#[trigger] s[k]).path, path),
    decreases s.len() - i,
{
    if i < s.len() && !paths::same_way(s[i].path, path) {
        lemma_handle_from(s, path, i + 1);
    }
}

proof fn lemma_listed_handles(s: Seq<HandleView>, worktrees: Seq<WorktreeInfo>, h: HandleView)
    ensures
        listed_handles(s, worktrees).contains(h) <==> s.contains(h) && is_listed(
            worktrees,
            h.path,
        ),
    decreases s.len(),
{
    if s.len() > 0 {
        let front = s.drop_last();
        let kept = listed_handles(front, worktrees);
        lemma_listed_handles(front, worktrees, h);
        assert(s =~= front.push(s.last()));
        if s.contains(h) {
            let k = choose|k: int| 0 <= k < s.len() && s[k] == h;
            if k < front.len() {
                assert(front[k] == h);
            }
        }
        if front.contains(h) {
            let k = choose|k: int| 0 <= k < front.len() && front[k] == h;
            assert(s[k] == h);
        }
        if is_listed(worktrees, s.last().path) {
            let all = kept.push(s.last());
            if all.contains(h) {
                let k = choose|k: int| 0 <= k < all.len() && all[k] == h;
                if k < kept.len() {
                    assert(kept[k] == h);
                } else {
                    assert(s[s.len() - 1] == h);
                }
            }
            if kept.contains(h) {
                let k = choose|k: int| 0 <= k < kept.len() && kept[k] == h;
                assert(all[k] == h);
            }
            if s.last() == h {
                assert(all[kept.len() as int] == h);
            }
        }
    } else {
        assert(!s.contains(h));
        assert(!listed_handles(s, worktrees).contains(h));
    }
}

proof fn lemma_own_handles_stay(cached: Seq<Seq<char>>, opened: Seq<Seq<char>>)
    ensures
        with_opened(cached, opened).len() >= cached.len(),
        forall|i: int|
            0 <= i < cached.len() ==> #[trigger] with_opened(cached, opened)[i] == own_handles(
                cached,
            )[i],
        forall|k: int|
            cached.len() <= k < with_opened(cached, opened).len() ==> (#[trigger] with_opened(
                cached,
                opened,
            )[k]).from is Opened,
    decreases opened.len(),
{
    if opened.len() > 0 {
        lemma_own_handles_stay(cached, opened.drop_last());
    }
}

/// A handle that is there wins: where its worktree is still listed it stays, whatever the
/// refresh opened, and a handle that the refresh opened is for a path that had none.
pub proof fn handles_that_are_there_win(
    cached: Seq<Seq<char>>,
    opened: Seq<Seq<char>>,
    worktrees: Seq<WorktreeInfo>,
    i: int,
    h: HandleView,
)
    requires
        0 <= i < cached.len(),
    ensures
        is_listed(worktrees, cached[i]) ==> handles_after(cached, opened, worktrees).contains(
            own_handles(cached)[i],
        ),
        handles_after(cached, opened, worktrees).contains(h) && h.from is Opened
            ==> !paths::same_way(cached[i], h.path),
{
    let all = with_opened(cached, opened);
    lemma_own_handles_stay(cached, opened);
    lemma_listed_handles(all, worktrees, own_handles(cached)[i]);
    lemma_listed_handles(all, worktrees, h);
    assert(all[i] == own_handles(cached)[i]);
    assert(all.contains(all[i]));
    if all.contains(h) && h.from is Opened {
        let k = choose|k: int| 0 <= k < all.len() && all[k] == h;
        if k < cached.len() {
            assert(all[k] == own_handles(cached)[k]);
        }
        lemma_paths_differ(cached, opened, i, k);
    }
}

/// A handle that was opened is for another path than all before it.
proof fn lemma_paths_differ(cached: Seq<Seq<char>>, opened: Seq<Seq<char>>, i: int, k: int)
    requires
        0 <= i < k < with_opened(cached, opened).len(),
        cached.len() <= k,
    ensures
        !paths::same_way(
            with_opened(cached, opened)[i].path,
            with_opened(cached, opened)[k].path,
        ),
    decreases opened.len(),
{
    if opened.len() > 0 {
        let rest = with_opened(cached, opened.drop_last());
        if k < rest.len() {
            lemma_paths_differ(cached, opened.drop_last(), i, k);
        } else {
            lemma_handle_from(rest, opened.last(), 0);
            assert(!paths::same_way(rest[i].path, opened.last()));
        }
    }
}

/// Whether no two handles are for one path.
pub open spec fn paths_differ(s: Seq<HandleView>) -> bool {
    forall|i: int, k: int|
        0 <= i < k < s.len() ==> !paths::same_way((#[trigger] s[i]).path, (#[trigger] s[k]).path)
}

proof fn lemma_listed_paths_differ(s: Seq<HandleView>, worktrees: Seq<WorktreeInfo>)
    requires
        paths_differ(s),
    ensures
        paths_differ(listed_handles(s, worktrees)),
    decreases s.len(),
{
    if s.len() > 0 {
        let front = s.drop_last();
        let kept = listed_handles(front, worktrees);
        let all = listed_handles(s, worktrees);
        assert(paths_differ(front));
        lemma_listed_paths_differ(front, worktrees);
        assert forall|i: int, k: int| 0 <= i < k < all.len() implies !paths::same_way(
            (#[trigger] all[i]).path,
            (#[trigger] all[k]).path,
        ) by {
            assert(all[i] == kept[i]);
            if k < kept.len() {
                assert(all[k] == kept[k]);
            } else {
                lemma_listed_handles(front, worktrees, kept[i]);
                assert(kept.contains(kept[i]));
                let m = choose|m: int| 0 <= m < front.len() && front[m] == kept[i];
                assert(s[m] == front[m]);
                assert(all[k] == s[s.len() - 1]);
            }
        }
    }
}

/// Where no two handles were for one path, no two are after a refresh.
pub proof fn one_handle_for_each_path(
    cached: Seq<Seq<char>>,
    opened: Seq<Seq<char>>,
    worktrees: Seq<WorktreeInfo>,
)
    requires
        paths_differ(own_handles(cached)),
    ensures
        paths_differ(handles_after(cached, opened, worktrees)),
{
    let all = with_opened(cached, opened);
    let own = own_handles(cached);
    lemma_own_handles_stay(cached, opened);
    assert forall|i: int, k: int| 0 <= i < k < all.len() implies !paths::same_way(
        (#[trigger] all[i]).path,
        (#[trigger] all[k]).path,
    ) by {
        if k < cached.len() {
            assert(all[i] == own[i] && all[k] == own[k]);
        } else {
            lemma_paths_differ(cached, opened, i, k);
        }
    }
    lemma_listed_paths_differ(all, worktrees);
}

/// Only worktrees that are listed stay open, and each that is listed stays open where it was
/// open or was opened.
pub proof fn listed_worktrees_stay_open(
    cached: Seq<Seq<char>>,
    opened: Seq<Seq<char>>,
    worktrees: Seq<WorktreeInfo>,
    h: HandleView,
    j: int,
)
    ensures
        handles_after(cached, opened, worktrees).contains(h) ==> is_listed(worktrees, h.path),
        0 <= j < opened.len() && is_listed(worktrees, opened[j]) ==> exists|k: int|
            0 <= k < handles_after(cached, opened, worktrees).len() && paths::same_way(
                (#[trigger] handles_after(cached, opened, worktrees)[k]).path,
                opened[j],
            ),
{
    let all = with_opened(cached, opened);
    let kept = handles_after(cached, opened, worktrees);
    lemma_listed_handles(all, worktrees, h);
    if 0 <= j < opened.len() && is_listed(worktrees, opened[j]) {
        let at = lemma_opened_has_handle(cached, opened, j);
        let g = all[at];
        lemma_listed_handles(all, worktrees, g);
        assert(all.contains(g));
        let w = choose|w: int|
            0 <= w < worktrees.len() && paths::same_way(
                (#[trigger] worktrees[w]).path@,
                opened[j],
            );
        assert(paths::same_way(worktrees[w].path@, g.path));
        let k = choose|k: int| 0 <= k < kept.len() && kept[k] == g;
        assert(paths::same_way(kept[k].path, opened[j]));
    }
}

proof fn lemma_opened_has_handle(cached: Seq<Seq<char>>, opened: Seq<Seq<char>>, j: int) -> (at:
    int)
    requires
        0 <= j < opened.len(),
    ensures
        0 <= at < with_opened(cached, opened).len(),
        paths::same_way(with_opened(cached, opened)[at].path, opened[j]),
    decreases opened.len(),
{
    let rest = with_opened(cached, opened.drop_last());
    let all = with_opened(cached, opened);
    if j < opened.len() - 1 {
        let k = lemma_opened_has_handle(cached, opened.drop_last(), j);
        assert(all[k] == rest[k]);
        k
    } else {
        lemma_handle_from(rest, opened.last(), 0);
        let k = handle_from(rest, opened.last(), 0);
        if k < rest.len() {
            k
        } else {
            rest.len() as int
        }
    }
}

/// The worktree that is selected is staged in where it stays open, and the repository of the
/// tab is staged in where it does not.
pub proof fn the_selected_worktree_is_staged_in(s: Seq<HandleView>, path: Seq<char>)
    ensures
        match staging_place(s, Some(path)) {
            Some(i) => 0 <= i < s.len() && paths::same_way(s[i].path, path),
            None => forall|k: int|
                0 <= k < s.len() ==> !paths::same_way((#[trigger] s[k]).path, path),
        },
        staging_place(s, None) is None,
{
    lemma_handle_from(s, path, 0);
}

// ---------------------------------------------------------------------------
// Checks of single worktrees and submodules
// ---------------------------------------------------------------------------

/// What a check of a worktree or submodule reaches.
pub struct DirtyTarget {
    pub submodules: Vec<SubmoduleInfo>,
    pub worktrees: Vec<WorktreeInfo>,
    pub commits: Vec<CommitInfo>,
}

/// The index of the first submodule called `name`, from `i` on, or the number of submodules.
pub open spec fn submodule_from(s: Seq<SubmoduleInfo>, name: Seq<char>, i: int) -> int
    decreases s.len() - i,
{
    if i >= s.len() {
        s.len() as int
    } else if s[i].name@ == name {
        i
    } else {
        submodule_from(s, name, i + 1)
    }
}

/// The index of the first worktree at `path`, from `i` on, or the number of worktrees.
pub open spec fn worktree_from(s: Seq<WorktreeInfo>, path: Seq<char>, i: int) -> int
    decreases s.len() - i,
{
    if i >= s.len() {
        s.len() as int
    } else if s[i].path@ == path {
        i
    } else {
        worktree_from(s, path, i + 1)
    }
}

/// A worktree of which it is known how many files are changed.
pub open spec fn checked(wt: WorktreeInfo, count: usize) -> WorktreeInfo {
    WorktreeInfo { is_dirty: Some(count > 0), dirty_file_count: Some(count), ..wt }
}

/// Whether a check says something new of a worktree.
pub open spec fn says_new(wt: WorktreeInfo, count: usize) -> bool {
    wt.is_dirty != Some(count > 0) || wt.dirty_file_count != Some(count)
}

/// What is known of each worktree when the entries are made again: when a file in it was
/// last changed, and the statistics of the worktree that was checked, where it is dirty.
pub open spec fn entry_facts(
    mtimes: Seq<Option<i64>>,
    count: usize,
    stats: (usize, usize),
) -> Seq<WorktreeFacts> {
    Seq::new(
        mtimes.len(),
        |i: int|
            WorktreeFacts {
                mtime: mtimes[i],
                stats: if count > 0 {
                    Some(stats)
                } else {
                    None
                },
            },
    )
}

/// The worktrees and commits after a check of the worktree at `path`.
pub open spec fn after_worktree_check(
    before: DirtyTarget,
    path: Seq<char>,
    count: usize,
    stats: (usize, usize),
    mtimes: Seq<Option<i64>>,
    after: DirtyTarget,
) -> bool {
    let i = worktree_from(before.worktrees@, path, 0);
    &&& after.submodules == before.submodules
    &&& if i >= before.worktrees@.len() {
        after == before
    } else {
        &&& after.worktrees@ == before.worktrees@.update(i, checked(before.worktrees@[i], count))
        &&& if !says_new(before.worktrees@[i], count) {
            after.commits == before.commits
        } else {
            let kept = real_commits(before.commits@);
            exists|made: Seq<CommitInfo>|
                text::views(made) == git::worktree_entries(
                    kept,
                    after.worktrees@,
                    entry_facts(mtimes, count, stats),
                ) && after.commits@ == #[trigger] git::with_entries(kept, made)
        }
    }
}

fn find_worktree(worktrees: &Vec<WorktreeInfo>, path: &str) -> (r: usize)
    ensures
        r == worktree_from(worktrees@, path@, 0),
        r <= worktrees.len(),
{
    let mut i: usize = 0;
    while i < worktrees.len()
        invariant
            i <= worktrees.len(),
            worktree_from(worktrees@, path@, 0) == worktree_from(worktrees@, path@, i as int),
        decreases worktrees.len() - i,
    {
        if same(worktrees[i].path.as_str(), path) {
            return i;
        }
        i = i + 1;
    }
    i
}

fn find_submodule(submodules: &Vec<SubmoduleInfo>, name: &str) -> (r: usize)
    ensures
        r == submodule_from(submodules@, name@, 0),
        r <= submodules.len(),
{
    let mut i: usize = 0;
    while i < submodules.len()
        invariant
            i <= submodules.len(),
            submodule_from(submodules@, name@, 0) == submodule_from(
                submodules@,
                name@,
                i as int,
            ),
        decreases submodules.len() - i,
    {
        if same(submodules[i].name.as_str(), name) {
            return i;
        }
        i = i + 1;
    }
    i
}

fn collect_facts(mtimes: &Vec<Option<i64>>, count: usize, stats: (usize, usize)) -> (r: Vec<
    WorktreeFacts,
>)
    ensures
        r@ == entry_facts(mtimes@, count, stats),
{
    let mut r: Vec<WorktreeFacts> = Vec::new();
    let mut i: usize = 0;
    while i < mtimes.len()
        invariant
            i <= mtimes.len(),
            r@ == entry_facts(mtimes@, count, stats).take(i as int),
        decreases mtimes.len() - i,
    {
        r.push(
            WorktreeFacts {
                mtime: mtimes[i],
                stats: if count > 0 {
                    Some(stats)
                } else {
                    None
                },
            },
        );
        i = i + 1;
        assert(r@ =~= entry_facts(mtimes@, count, stats).take(i as int));
    }
    assert(r@ =~= entry_facts(mtimes@, count, stats));
    r
}

/// Apply a single dirty check result. `mtimes` holds for each worktree when a file in it was
/// last changed. Returns whether what is known of a worktree changed, so that the graph has
/// to be laid out again.
pub fn apply_dirty_check_result(
    result: DirtyCheckResult,
    mtimes: &Vec<Option<i64>>,
    target: &mut DirtyTarget,
) -> (r: bool)
    requires
        mtimes.len() == old(target).worktrees.len(),
    ensures
        match result {
            DirtyCheckResult::Submodule { tab_id, name, is_dirty } => {
                let i = submodule_from(old(target).submodules@, name@, 0);
                &&& !r
                &&& final(target).worktrees == old(target).worktrees
                &&& final(target).commits == old(target).commits
                &&& final(target).submodules@ == (if i < old(target).submodules@.len() {
                    old(target).submodules@.update(
                        i,
                        SubmoduleInfo {
                            is_dirty: Some(is_dirty),
                            ..old(target).submodules@[i]
                        },
                    )
                } else {
                    old(target).submodules@
                })
            },
            DirtyCheckResult::Worktree { tab_id, path, dirty_file_count, diff_stats } => {
                let i = worktree_from(old(target).worktrees@, path@, 0);
                &&& r == (i < old(target).worktrees@.len() && says_new(
                    old(target).worktrees@[i],
                    dirty_file_count,
                ))
                &&& after_worktree_check(
                    *old(target),
                    path@,
                    dirty_file_count,
                    diff_stats,
                    mtimes@,
                    *final(target),
                )
            },
        },
{
    match result {
        DirtyCheckResult::Submodule { tab_id: _, name, is_dirty } => {
            let i: usize = find_submodule(&target.submodules, name.as_str());
            if i < target.submodules.len() {
                let sm = &mut target.submodules[i];
                sm.is_dirty = Some(is_dirty);
            }
            assert(target.submodules@ =~= (if i < old(target).submodules@.len() {
                old(target).submodules@.update(
                    i as int,
                    SubmoduleInfo {
                        is_dirty: Some(is_dirty),
                        ..old(target).submodules@[i as int]
                    },
                )
            } else {
                old(target).submodules@
            }));
            false
        },
        DirtyCheckResult::Worktree { tab_id: _, path, dirty_file_count, diff_stats } => {
            let i: usize = find_worktree(&target.worktrees, path.as_str());
            if i >= target.worktrees.len() {
                return false;
            }
            let is_dirty = dirty_file_count > 0;
            let was_dirty = target.worktrees[i].is_dirty;
            let had_count = target.worktrees[i].dirty_file_count;
            let known_dirty = match was_dirty {
                Some(b) => b == is_dirty,
                None => false,
            };
            let known_count = match had_count {
                Some(n) => n == dirty_file_count,
                None => false,
            };
            let changed = !known_dirty || !known_count;
            let wt = &mut target.worktrees[i];
            wt.is_dirty = Some(is_dirty);
            wt.dirty_file_count = Some(dirty_file_count);
            assert(target.worktrees@ =~= old(target).worktrees@.update(
                i as int,
                checked(old(target).worktrees@[i as int], dirty_file_count),
            ));
            if changed {
                drop_synthetics(&mut target.commits);
                let facts = collect_facts(mtimes, dirty_file_count, diff_stats);
                let synthetics = create_synthetic_entries(
                    None,
                    None,
                    &target.worktrees,
                    &facts,
                    &target.commits,
                );
                insert_synthetics_sorted(&mut target.commits, synthetics);
            }
            changed
        },
    }
}

/// Checking a worktree again with the same answer changes nothing.
pub proof fn same_answer_changes_nothing(wt: WorktreeInfo, count: usize)
    ensures
        !says_new(checked(wt, count), count),
        checked(checked(wt, count), count) == checked(wt, count),
{
}

// ---------------------------------------------------------------------------
// Statistics of commits
// ---------------------------------------------------------------------------

/// The commits of which no statistics are known.
pub open spec fn without_stats(commits: Seq<CommitInfo>) -> Seq<Oid>
    decreases commits.len(),
{
    if commits.len() == 0 {
        Seq::empty()
    } else {
        let c = commits.last();
        let rest = without_stats(commits.drop_last());
        if !c.is_synthetic && c.insertions == 0 && c.deletions == 0 {
            rest.push(c.id)
        } else {
            rest
        }
    }
}

/// The commits whose statistics are to be computed: those without any, unless a computation
/// is in progress already.
pub fn ensure_diff_stats(commits: &Vec<CommitInfo>, in_progress: bool) -> (r: Option<Vec<Oid>>)
    ensures
        match r {
            Some(ids) => !in_progress && ids@ == without_stats(commits@) && ids@.len() > 0,
            None => in_progress || without_stats(commits@).len() == 0,
        },
{
    if in_progress {
        return None;
    }
    let mut ids: Vec<Oid> = Vec::new();
    let mut i: usize = 0;
    assert(ids@ =~= without_stats(commits@.take(0)));
    while i < commits.len()
        invariant
            i <= commits.len(),
            ids@ == without_stats(commits@.take(i as int)),
        decreases commits.len() - i,
    {
        let c = &commits[i];
        proof {
            assert(commits@.take(i + 1).drop_last() =~= commits@.take(i as int));
            assert(commits@.take(i + 1).last() == *c);
        }
        if !c.is_synthetic && c.insertions == 0 && c.deletions == 0 {
            ids.push(c.id);
        }
        i = i + 1;
    }
    assert(commits@.take(commits@.len() as int) =~= commits@);
    if ids.len() > 0 {
        Some(ids)
    } else {
        None
    }
}

/// The index of the first commit `id`, from `i` on, or the number of commits.
pub open spec fn commit_from(commits: Seq<CommitInfo>, id: Oid, i: int) -> int
    decreases commits.len() - i,
{
    if i >= commits.len() {
        commits.len() as int
    } else if commits[i].id == id {
        i
    } else {
        commit_from(commits, id, i + 1)
    }
}

/// The commits once the statistics of one of them have come.
pub open spec fn with_stats(
    commits: Seq<CommitInfo>,
    stats: (Oid, usize, usize),
) -> Seq<CommitInfo> {
    let i = commit_from(commits, stats.0, 0);
    if i < commits.len() {
        commits.update(i, CommitInfo { insertions: stats.1, deletions: stats.2, ..commits[i] })
    } else {
        commits
    }
}

/// The commits once all statistics have come, one after the other.
pub open spec fn with_all_stats(
    commits: Seq<CommitInfo>,
    stats: Seq<(Oid, usize, usize)>,
) -> Seq<CommitInfo>
    decreases stats.len(),
{
    if stats.len() == 0 {
        commits
    } else {
        with_stats(with_all_stats(commits, stats.drop_last()), stats.last())
    }
}

fn find_commit(commits: &Vec<CommitInfo>, id: Oid) -> (r: usize)
    ensures
        r == commit_from(commits@, id, 0),
        r <= commits.len(),
{
    let mut i: usize = 0;
    while i < commits.len()
        invariant
            i <= commits.len(),
            commit_from(commits@, id, 0) == commit_from(commits@, id, i as int),
        decreases commits.len() - i,
    {
        if commits[i].id == id {
            return i;
        }
        i = i + 1;
    }
    i
}

/// Take over statistics that were computed in the background.
pub fn poll_diff_stats(commits: &mut Vec<CommitInfo>, stats: &Vec<(Oid, usize, usize)>)
    ensures
        final(commits)@ == with_all_stats(old(commits)@, stats@),
{
    let ghost start = commits@;
    let mut i: usize = 0;
    assert(stats@.take(0) =~= Seq::empty());
    while i < stats.len()
        invariant
            i <= stats.len(),
            commits@ == with_all_stats(start, stats@.take(i as int)),
        decreases stats.len() - i,
    {
        proof {
            assert(stats@.take(i + 1).drop_last() =~= stats@.take(i as int));
            assert(stats@.take(i + 1).last() == stats@[i as int]);
        }
        let ghost before = commits@;
        let s = stats[i];
        let at: usize = find_commit(commits, s.0);
        if at < commits.len() {
            let c = &mut commits[at];
            c.insertions = s.1;
            c.deletions = s.2;
        }
        assert(commits@ =~= with_stats(before, s));
        i = i + 1;
    }
    assert(stats@.take(stats@.len() as int) =~= stats@);
}

/// Statistics change nothing of a commit but its statistics, and add or remove none.
pub proof fn statistics_only_change_statistics(
    commits: Seq<CommitInfo>,
    stats: Seq<(Oid, usize, usize)>,
)
    ensures
        with_all_stats(commits, stats).len() == commits.len(),
        forall|i: int|
            0 <= i < commits.len() ==> (#[trigger] with_all_stats(commits, stats)[i]) == (
            CommitInfo {
                insertions: with_all_stats(commits, stats)[i].insertions,
                deletions: with_all_stats(commits, stats)[i].deletions,
                ..commits[i]
            }),
    decreases stats.len(),
{
    if stats.len() > 0 {
        statistics_only_change_statistics(commits, stats.drop_last());
        let before = with_all_stats(commits, stats.drop_last());
        let after = with_all_stats(commits, stats);
        lemma_commit_from(before, stats.last().0, 0);
        assert forall|i: int| 0 <= i < commits.len() implies (#[trigger] after[i]) == (CommitInfo {
            insertions: after[i].insertions,
            deletions: after[i].deletions,
            ..commits[i]
        }) by {
            assert(before[i] == before[i]);
        }
    }
}

proof fn lemma_commit_from(commits: Seq<CommitInfo>, id: Oid, i: int)
    requires
        0 <= i <= commits.len(),
    ensures
        i <= commit_from(commits, id, i) <= commits.len(),
    decreases commits.len() - i,
{
    if i < commits.len() && commits[i].id != id {
        lemma_commit_from(commits, id, i + 1);
    }
}

// ---------------------------------------------------------------------------
// Laws
// ---------------------------------------------------------------------------

/// The commits that are none of the entries for changes are all the others, in their order, and
/// so are their ids.
pub proof fn real_commits_are_all_but_entries(commits: Seq<CommitInfo>)
    ensures
        real_commits(commits) == commits.filter(|c: CommitInfo| !c.is_synthetic),
        real_ids(commits) == commits.filter_map(
            |c: CommitInfo|
                if c.is_synthetic {
                    None
                } else {
                    Some(c.id)
                },
        ),
    decreases commits.len(),
{
    reveal(Seq::filter);
    if commits.len() > 0 {
        real_commits_are_all_but_entries(commits.drop_last());
    }
}

proof fn lemma_real_concat(a: Seq<CommitInfo>, b: Seq<CommitInfo>)
    ensures
        real_commits(a + b) == real_commits(a) + real_commits(b),
    decreases b.len(),
{
    if b.len() > 0 {
        lemma_real_concat(a, b.drop_last());
        assert((a + b).drop_last() =~= a + b.drop_last());
        assert(real_commits(a + b) =~= real_commits(a) + real_commits(b));
    } else {
        assert(a + b =~= a);
        assert(real_commits(a + b) =~= real_commits(a) + real_commits(b));
    }
}

proof fn lemma_real_with_entry(commits: Seq<CommitInfo>, e: CommitInfo)
    requires
        e.is_synthetic,
    ensures
        real_commits(git::with_entry(commits, e)) == real_commits(commits),
        git::with_entry(commits, e).len() == commits.len() + 1,
        git::with_entry(commits, e).contains(e),
{
    git::an_entry_stands_before_what_is_not_newer(commits, Seq::empty(), e);
    assert(git::with_entries(commits, Seq::empty()) == commits);
    assert(Seq::empty().push(e).drop_last() =~= Seq::<CommitInfo>::empty());
    assert(git::with_entries(commits, Seq::empty().push(e)) == git::with_entry(commits, e));
    let p = choose|p: int|
        0 <= p <= commits.len() && git::with_entry(commits, e) == #[trigger] commits.insert(p, e);
    let (a, b) = (commits.take(p), commits.skip(p));
    assert(commits.insert(p, e) =~= a.push(e) + b);
    assert(commits =~= a + b);
    lemma_real_concat(a.push(e), b);
    lemma_real_concat(a, b);
    assert(a.push(e).drop_last() =~= a);
    assert(commits.insert(p, e)[p] == e);
}

proof fn lemma_real_twice(commits: Seq<CommitInfo>)
    ensures
        real_commits(real_commits(commits)) == real_commits(commits),
        forall|i: int|
            0 <= i < real_commits(commits).len() ==> !(#[trigger] real_commits(
                commits,
            )[i]).is_synthetic,
    decreases commits.len(),
{
    if commits.len() > 0 {
        lemma_real_twice(commits.drop_last());
        let rest = real_commits(commits.drop_last());
        assert(rest.push(commits.last()).drop_last() =~= rest);
    }
}

proof fn lemma_real_with_entries(commits: Seq<CommitInfo>, made: Seq<CommitInfo>)
    requires
        forall|i: int| 0 <= i < made.len() ==> (#[trigger] made[i]).is_synthetic,
    ensures
        real_commits(git::with_entries(commits, made)) == real_commits(commits),
        git::with_entries(commits, made).len() == commits.len() + made.len(),
    decreases made.len(),
{
    if made.len() > 0 {
        let front = made.drop_last();
        assert forall|i: int| 0 <= i < front.len() implies (#[trigger] front[i]).is_synthetic by {
            assert(front[i] == made[i]);
        }
        lemma_real_with_entries(commits, front);
        assert(made[made.len() - 1] == made.last());
        lemma_real_with_entry(git::with_entries(commits, front), made.last());
    }
}

/// A look at the working directory changes no commit. Where worktrees are linked the list stays
/// as it is; without any, it holds one entry for the changes exactly where files changed, HEAD is
/// on a commit and there is a working directory, and no entry that was there before is left.
pub proof fn a_status_changes_no_commit(
    before: Seq<CommitInfo>,
    r: StatusRefresh,
    worktree_count: nat,
    after: Seq<CommitInfo>,
)
    requires
        commits_after_status(before, r, worktree_count, after),
    ensures
        real_commits(after) == real_commits(before),
        worktree_count > 0 ==> after == before,
        worktree_count == 0 && r.main_status is Some && r.main_status->0@.total() > 0
            && r.head_oid is Some && r.has_workdir ==> after.len() == real_commits(before).len() + 1
            && exists|k: int|
            0 <= k < after.len() && (#[trigger] after[k]).is_synthetic && after[k].parent_ids@
                == seq![r.head_oid->0],
        worktree_count == 0 && (r.main_status is None || r.main_status->0@.total() == 0
            || r.head_oid is None || !r.has_workdir) ==> after == real_commits(before),
{
    lemma_real_twice(before);
    if worktree_count == 0 && entry_due(r) {
        let kept = real_commits(before);
        let e = choose|e: CommitInfo|
            e@ == status_entry(r, kept) && after == #[trigger] git::with_entry(kept, e);
        assert(e@.is_synthetic);
        lemma_real_with_entry(kept, e);
        let k = choose|k: int| 0 <= k < after.len() && after[k] == e;
        assert(after[k].is_synthetic && after[k]@.parent_ids == seq![r.head_oid->0]);
    }
}

/// Whether one of the texts is `what` and the reason.
pub open spec fn tells(errors: Seq<Seq<char>>, what: Seq<char>, reason: String) -> bool {
    errors.contains(what + reason@)
}

/// Everything that could not be read is told, with the reason, and nothing else is.
pub proof fn every_failed_read_is_told(reads: RepoReads)
    ensures
        reads.commits is Err ==> tells(
            read_errors(reads),
            "Failed to load commits: "@,
            reads.commits->Err_0,
        ),
        reads.branch_tips is Err ==> tells(
            read_errors(reads),
            "Failed to load branches: "@,
            reads.branch_tips->Err_0,
        ),
        reads.tags is Err ==> tells(read_errors(reads), "Failed to load tags: "@, reads.tags->Err_0),
        reads.current_branch is Err ==> tells(
            read_errors(reads),
            "Failed to get current branch: "@,
            reads.current_branch->Err_0,
        ),
        reads.worktrees is Err ==> tells(
            read_errors(reads),
            "Failed to load worktrees: "@,
            reads.worktrees->Err_0,
        ),
        reads.submodules is Err ==> tells(
            read_errors(reads),
            "Failed to load submodules: "@,
            reads.submodules->Err_0,
        ),
        reads.commits is Ok && reads.branch_tips is Ok && reads.tags is Ok && reads.current_branch
            is Ok && reads.worktrees is Ok && reads.submodules is Ok ==> read_errors(reads).len()
            == 0,
{
    let e = read_errors(reads);
    let n1: int = if reads.commits is Err {
        1
    } else {
        0
    };
    let n2: int = n1 + if reads.branch_tips is Err {
        1int
    } else {
        0
    };
    let n3: int = n2 + if reads.tags is Err {
        1int
    } else {
        0
    };
    let n4: int = n3 + if reads.current_branch is Err {
        1int
    } else {
        0
    };
    let n5: int = n4 + if reads.worktrees is Err {
        1int
    } else {
        0
    };
    if reads.commits is Err {
        assert(e[0] == "Failed to load commits: "@ + reads.commits->Err_0@);
    }
    if reads.branch_tips is Err {
        assert(e[n1] == "Failed to load branches: "@ + reads.branch_tips->Err_0@);
    }
    if reads.tags is Err {
        assert(e[n2] == "Failed to load tags: "@ + reads.tags->Err_0@);
    }
    if reads.current_branch is Err {
        assert(e[n3] == "Failed to get current branch: "@ + reads.current_branch->Err_0@);
    }
    if reads.worktrees is Err {
        assert(e[n4] == "Failed to load worktrees: "@ + reads.worktrees->Err_0@);
    }
    if reads.submodules is Err {
        assert(e[n5] == "Failed to load submodules: "@ + reads.submodules->Err_0@);
    }
}

/// What could be read is held: the commits with the entries for changes among them, the tags,
/// worktrees and submodules as they are, and the branches with their names and commits.
pub proof fn what_was_read_is_held(r: RepoStateResult, reads: RepoReads)
    requires
        holds_reads(r, reads),
        reads.worktree_facts@.len() == list_or_none(reads.worktrees).len(),
    ensures
        reads.commits is Ok ==> real_commits(r.commits@) == real_commits(reads.commits->Ok_0@),
        reads.tags is Ok ==> r.tags@ == reads.tags->Ok_0@,
        reads.worktrees is Ok ==> r.worktrees@ == reads.worktrees->Ok_0@,
        reads.submodules is Ok ==> r.submodules@ == reads.submodules->Ok_0@,
        reads.current_branch is Ok ==> r.current_branch@ == reads.current_branch->Ok_0@,
        reads.branch_tips is Ok ==> r.branch_tips@.len() == reads.branch_tips->Ok_0@.len()
            && forall|i: int|
            0 <= i < r.branch_tips@.len() ==> (#[trigger] r.branch_tips@[i]).name@
                == reads.branch_tips->Ok_0@[i].name@ && r.branch_tips@[i].oid
                == reads.branch_tips->Ok_0@[i].oid && r.branch_tips@[i].is_remote
                == reads.branch_tips->Ok_0@[i].is_remote,
        r.stashes == reads.stashes && r.ahead_behind == reads.ahead_behind,
        r.remote_names == reads.remote_names && r.remote_urls == reads.remote_urls,
        r.head_oid == reads.head_oid && r.is_bare == reads.is_bare && r.ref_fingerprint
            == reads.ref_fingerprint,
        r.real_oids@ == r.commits@.filter_map(
            |c: CommitInfo|
                if c.is_synthetic {
                    None
                } else {
                    Some(c.id)
                },
        ),
{
    let commits = list_or_none(reads.commits);
    let entries = git::synthetic_entries(
        reads.repo_head,
        reads.workdir,
        list_or_none(reads.worktrees),
        reads.worktree_facts@,
        commits,
    );
    real_commits_are_all_but_entries(r.commits@);
    let made = choose|made: Seq<CommitInfo>|
        text::views(made) == entries && r.commits@ == #[trigger] git::with_entries(commits, made);
    lemma_entries_are_synthetic(commits, list_or_none(reads.worktrees), reads.worktree_facts@);
    assert forall|i: int| 0 <= i < entries.len() implies (#[trigger] entries[i]).is_synthetic by {
    }
    assert forall|i: int| 0 <= i < made.len() implies (#[trigger] made[i]).is_synthetic by {
        assert(text::views(made)[i] == made[i]@);
        assert(entries[i].is_synthetic);
    }
    lemma_real_with_entries(commits, made);
    if reads.branch_tips is Ok {
        let a = text::views(r.branch_tips@);
        let b = text::views(reads.branch_tips->Ok_0@);
        assert(a.len() == b.len());
        assert forall|i: int| 0 <= i < r.branch_tips@.len() implies (
        #[trigger] r.branch_tips@[i]).name@ == reads.branch_tips->Ok_0@[i].name@
            && r.branch_tips@[i].oid == reads.branch_tips->Ok_0@[i].oid
            && r.branch_tips@[i].is_remote == reads.branch_tips->Ok_0@[i].is_remote by {
            assert(a[i] == r.branch_tips@[i]@);
            assert(b[i] == reads.branch_tips->Ok_0@[i]@);
        }
    }
}

proof fn lemma_entries_are_synthetic(
    commits: Seq<CommitInfo>,
    worktrees: Seq<WorktreeInfo>,
    facts: Seq<WorktreeFacts>,
)
    ensures
        forall|i: int|
            0 <= i < git::worktree_entries(commits, worktrees, facts).len() ==> (
            #[trigger] git::worktree_entries(commits, worktrees, facts)[i]).is_synthetic,
    decreases worktrees.len(),
{
    if worktrees.len() > 0 {
        lemma_entries_are_synthetic(commits, worktrees.drop_last(), facts);
    }
}

/// The refresh shows what was gathered: every commit in its place, with nothing changed but its
/// statistics, and tags, worktrees, stashes and remotes as they are. What the selected worktree
/// has checked out, and the submodules read there, come first.
pub proof fn a_refresh_shows_what_was_gathered(
    before: RepoView,
    result: RepoStateResult,
    staging: StagingReads,
    after: RepoView,
)
    requires
        shows_refresh(before, result, staging, after),
    ensures
        after.commits@.len() == result.commits@.len(),
        forall|i: int|
            0 <= i < after.commits@.len() ==> (#[trigger] after.commits@[i]).id
                == result.commits@[i].id && after.commits@[i].parent_ids
                == result.commits@[i].parent_ids && after.commits@[i].time
                == result.commits@[i].time && after.commits@[i].summary
                == result.commits@[i].summary,
        after.tags@ == result.tags@ && after.worktrees@ == result.worktrees@ && after.stashes@
            == result.stashes@,
        after.remote_names == result.remote_names && after.remote_urls == result.remote_urls,
        after.ahead_behind == result.ahead_behind && after.ref_fingerprint
            == result.ref_fingerprint && after.is_bare == result.is_bare,
        staging.head_oid is Some ==> after.head_oid == staging.head_oid,
        staging.head_oid is None ==> after.head_oid == result.head_oid,
        staging.current_branch is Some ==> after.current_branch@ == staging.current_branch->0@,
        staging.current_branch is None ==> after.current_branch@ == result.current_branch@,
        staging.submodules is Ok ==> after.submodules == staging.submodules->Ok_0,
        staging.submodules is Err ==> after.submodules == result.submodules,
        after.branch_tips@.len() == result.branch_tips@.len(),
{
    let a = text::views(after.branch_tips@);
    let b = text::views(result.branch_tips@);
    assert(a.len() == b.len());
}

proof fn lemma_stats_of(commits: Seq<CommitInfo>, id: Oid, k: int)
    requires
        0 <= k <= commits.len(),
        k < commits.len() ==> commits[k].id == id && (commits[k].insertions > 0
            || commits[k].deletions > 0),
        forall|j: int|
            0 <= j < commits.len() && j != k && (#[trigger] commits[j]).id == id
                ==> commits[j].insertions == 0 && commits[j].deletions == 0,
    ensures
        known_stats(commits, id) == (if k < commits.len() {
            Some((commits[k].insertions, commits[k].deletions))
        } else {
            None
        }),
    decreases commits.len(),
{
    if commits.len() > 0 {
        let front = commits.drop_last();
        assert(commits[commits.len() - 1] == commits.last());
        assert forall|j: int| 0 <= j < front.len() && j != k && (#[trigger] front[j]).id
            == id implies front[j].insertions == 0 && front[j].deletions == 0 by {
            assert(front[j] == commits[j]);
        }
        if k < commits.len() - 1 {
            assert(front[k] == commits[k]);
            lemma_stats_of(front, id, k);
        } else if k == commits.len() {
            lemma_stats_of(front, id, front.len() as int);
        }
    }
}

/// A commit keeps the statistics that it had before the refresh, to the line; one that had none
/// is shown as it was read.
pub proof fn statistics_are_restored_as_they_were(
    new: Seq<CommitInfo>,
    before: Seq<CommitInfo>,
    i: int,
    k: int,
)
    requires
        0 <= i < new.len(),
        0 <= k <= before.len(),
        k < before.len() ==> before[k].id == new[i].id && (before[k].insertions > 0
            || before[k].deletions > 0),
        forall|j: int|
            0 <= j < before.len() && j != k && (#[trigger] before[j]).id == new[i].id
                ==> before[j].insertions == 0 && before[j].deletions == 0,
    ensures
        k < before.len() ==> restored(new, before)[i].insertions == before[k].insertions
            && restored(new, before)[i].deletions == before[k].deletions,
        k == before.len() ==> restored(new, before)[i] == new[i],
        restored(new, before)[i].id == new[i].id,
{
    lemma_stats_of(before, new[i].id, k);
}

/// Statistics are asked for every commit without any, in order, and for no entry.
pub proof fn statistics_are_asked_for_where_missing(commits: Seq<CommitInfo>)
    ensures
        without_stats(commits) == commits.filter_map(
            |c: CommitInfo|
                if c.is_synthetic || c.deletions > 0 || c.insertions > 0 {
                    None
                } else {
                    Some(c.id)
                },
        ),
    decreases commits.len(),
{
    if commits.len() > 0 {
        statistics_are_asked_for_where_missing(commits.drop_last());
    }
}

proof fn lemma_first_commit(commits: Seq<CommitInfo>, id: Oid, from: int, i: int)
    requires
        0 <= from <= i <= commits.len(),
        forall|j: int| from <= j < i ==> (#[trigger] commits[j]).id != id,
        i < commits.len() ==> commits[i].id == id,
    ensures
        commit_from(commits, id, from) == i,
    decreases i - from,
{
    if from < i {
        lemma_first_commit(commits, id, from + 1, i);
    }
}

/// Statistics reach their commit: the first commit with the id has the lines inserted and
/// deleted that were told last, and no other commit is touched by them.
pub proof fn statistics_reach_their_commit(
    commits: Seq<CommitInfo>,
    stats: Seq<(Oid, usize, usize)>,
    id: Oid,
    inserted: usize,
    deleted: usize,
    i: int,
)
    requires
        0 <= i <= commits.len(),
        forall|j: int| 0 <= j < i ==> (#[trigger] commits[j]).id != id,
        i < commits.len() ==> commits[i].id == id,
    ensures
        ({
            let told = with_all_stats(commits, stats.push((id, inserted, deleted)));
            let earlier = with_all_stats(commits, stats);
            &&& i < commits.len() ==> told[i].insertions == inserted && told[i].deletions == deleted
            &&& forall|j: int|
                0 <= j < commits.len() && j != i ==> (#[trigger] told[j]) == earlier[j]
            &&& told.len() == commits.len()
        }),
        with_all_stats(commits, Seq::empty()) == commits,
{
    let earlier = with_all_stats(commits, stats);
    statistics_only_change_statistics(commits, stats);
    assert(stats.push((id, inserted, deleted)).drop_last() =~= stats);
    assert forall|j: int| 0 <= j < i implies (#[trigger] earlier[j]).id != id by {
        assert(commits[j].id != id);
    }
    lemma_first_commit(earlier, id, 0, i);
}

proof fn lemma_first_worktree(s: Seq<WorktreeInfo>, path: Seq<char>, from: int, i: int)
    requires
        0 <= from <= i <= s.len(),
        forall|j: int| from <= j < i ==> (#[trigger] s[j]).path@ != path,
        i < s.len() ==> s[i].path@ == path,
    ensures
        worktree_from(s, path, from) == i,
    decreases i - from,
{
    if from < i {
        lemma_first_worktree(s, path, from + 1, i);
    }
}

/// The check of a worktree reaches that worktree alone: it is dirty exactly where files changed,
/// and tells how many; every other worktree stays as it was, and so do the commits.
pub proof fn a_check_reaches_its_worktree(
    before: DirtyTarget,
    path: Seq<char>,
    count: usize,
    stats: (usize, usize),
    mtimes: Seq<Option<i64>>,
    after: DirtyTarget,
    i: int,
)
    requires
        after_worktree_check(before, path, count, stats, mtimes, after),
        0 <= i <= before.worktrees@.len(),
        forall|j: int| 0 <= j < i ==> (#[trigger] before.worktrees@[j]).path@ != path,
        i < before.worktrees@.len() ==> before.worktrees@[i].path@ == path,
    ensures
        after.worktrees@.len() == before.worktrees@.len(),
        i < before.worktrees@.len() ==> {
            &&& after.worktrees@[i].is_dirty == Some(count != 0)
            &&& after.worktrees@[i].dirty_file_count == Some(count)
            &&& after.worktrees@[i].path == before.worktrees@[i].path
            &&& after.worktrees@[i].name == before.worktrees@[i].name
            &&& after.worktrees@[i].head_oid == before.worktrees@[i].head_oid
            &&& after.worktrees@[i].branch == before.worktrees@[i].branch
        },
        forall|j: int|
            0 <= j < before.worktrees@.len() && j != i ==> (#[trigger] after.worktrees@[j])
                == before.worktrees@[j],
        real_commits(after.commits@) == real_commits(before.commits@),
        after.submodules == before.submodules,
{
    lemma_first_worktree(before.worktrees@, path, 0, i);
    if i < before.worktrees@.len() && says_new(before.worktrees@[i], count) {
        let kept = real_commits(before.commits@);
        let facts = entry_facts(mtimes, count, stats);
        let made = choose|made: Seq<CommitInfo>|
            text::views(made) == git::worktree_entries(kept, after.worktrees@, facts)
                && after.commits@ == #[trigger] git::with_entries(kept, made);
        lemma_entries_are_synthetic(kept, after.worktrees@, facts);
        assert forall|k: int| 0 <= k < made.len() implies (#[trigger] made[k]).is_synthetic by {
            assert(text::views(made)[k] == made[k]@);
        }
        lemma_real_with_entries(kept, made);
        lemma_real_twice(before.commits@);
    }
}

/// Each error has its toast, in order, and is told as one.
pub proof fn each_error_has_its_toast(errors: Seq<Seq<char>>, i: int)
    requires
        0 <= i < errors.len(),
    ensures
        error_toasts(errors).len() == errors.len(),
        error_toasts(errors)[i].text == errors[i],
        error_toasts(errors)[i].severity == toast::ToastSeverity::Error,
{
}

/// A repository without a working directory has no changes; in any other the status is that of
/// the files that were listed, and unknown where they could not be listed.
pub proof fn the_status_is_that_of_the_files(bare: bool, m: MainReads)
    ensures
        bare ==> main_status_read(bare, Some(m)) is Some && main_status_read(
            bare,
            Some(m),
        )->0.total() == 0,
        !bare && m.statuses is Some ==> main_status_read(bare, Some(m)) == Some(
            status::status_of(m.statuses->0@),
        ),
        !bare && m.statuses is None ==> main_status_read(bare, Some(m)) is None,
        !bare ==> main_status_read(bare, None) is None,
{
}

/// The check of a submodule reaches the first submodule of that name.
pub proof fn a_check_reaches_its_submodule(
    s: Seq<SubmoduleInfo>,
    name: Seq<char>,
    from: int,
    i: int,
)
    requires
        0 <= from <= i <= s.len(),
        forall|j: int| from <= j < i ==> (#[trigger] s[j]).name@ != name,
        i < s.len() ==> s[i].name@ == name,
    ensures
        submodule_from(s, name, from) == i,
    decreases i - from,
{
    if from < i {
        a_check_reaches_its_submodule(s, name, from + 1, i);
    }
}

} // verus!
