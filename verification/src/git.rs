//! What is known of a repository: its commits, branches, worktrees and submodules, and the
//! entries that stand for changes not yet committed.

pub mod async_ops;
pub mod diff;
pub mod errors;
pub mod hunk;
pub mod orphans;
pub mod refs;
pub mod repo;
pub mod status;

use crate::oid::Oid;
use crate::order;
use crate::text::{self, dec_string, joined, lines_of, push_dec, same, trimmed};
use std::collections::hash_map::DefaultHasher;
use std::hash::Hasher;
use vstd::prelude::*;
use vstd::std_specs::hash::*;
use vstd::string::*;

verus! {

// ---------------------------------------------------------------------------
// Time
// ---------------------------------------------------------------------------

/// How long ago something was, in the largest unit that it fills.
pub open spec fn relative_time(seconds: int) -> Seq<char> {
    if seconds < 60 {
        "just now"@
    } else if seconds < 3600 {
        text::dec((seconds / 60) as nat) + "m"@
    } else if seconds < 86400 {
        text::dec((seconds / 3600) as nat) + "h"@
    } else if seconds < 604800 {
        text::dec((seconds / 86400) as nat) + "d"@
    } else if seconds < 2592000 {
        text::dec((seconds / 604800) as nat) + "w"@
    } else if seconds < 31536000 {
        text::dec((seconds / 2592000) as nat) + "mo"@
    } else {
        text::dec((seconds / 31536000) as nat) + "y"@
    }
}

/// Format a Unix timestamp as a human-readable relative time string, as seen at `now`.
pub fn format_relative_time(timestamp: i64, now: i64) -> (r: String)
    ensures
        r@ == relative_time(now - timestamp),
{
    let diff: i128 = now as i128 - timestamp as i128;
    if diff < 60 {
        return "just now".to_owned();
    }
    let d: u128 = diff as u128;
    let (n, unit): (u128, &str) = if d < 3600 {
        (d / 60, "m")
    } else if d < 86400 {
        (d / 3600, "h")
    } else if d < 604800 {
        (d / 86400, "d")
    } else if d < 2592000 {
        (d / 604800, "w")
    } else if d < 31536000 {
        (d / 2592000, "mo")
    } else {
        (d / 31536000, "y")
    };
    let mut s = dec_string(n as u64);
    s.append(unit);
    s
}

// ---------------------------------------------------------------------------
// State of the repository
// ---------------------------------------------------------------------------

/// The operation that a repository is in the middle of.
#[derive(Debug, Clone, Copy, PartialEq, Eq, Structural)]
pub enum RepositoryState {
    Clean,
    Merge,
    Revert,
    RevertSequence,
    CherryPick,
    CherryPickSequence,
    Bisect,
    Rebase,
    RebaseInteractive,
    RebaseMerge,
    ApplyMailbox,
    ApplyMailboxOrRebase,
}

/// The description of a state, `None` where no operation is in progress.
pub open spec fn state_label(state: RepositoryState) -> Option<Seq<char>> {
    match state {
        RepositoryState::Clean => None,
        RepositoryState::Merge => Some("MERGE IN PROGRESS"@),
        RepositoryState::Revert => Some("REVERT IN PROGRESS"@),
        RepositoryState::RevertSequence => Some("REVERT SEQUENCE IN PROGRESS"@),
        RepositoryState::CherryPick => Some("CHERRY-PICK IN PROGRESS"@),
        RepositoryState::CherryPickSequence => Some("CHERRY-PICK SEQUENCE IN PROGRESS"@),
        RepositoryState::Bisect => Some("BISECT IN PROGRESS"@),
        RepositoryState::Rebase => Some("REBASE IN PROGRESS"@),
        RepositoryState::RebaseInteractive => Some("INTERACTIVE REBASE IN PROGRESS"@),
        RepositoryState::RebaseMerge => Some("REBASE-MERGE IN PROGRESS"@),
        RepositoryState::ApplyMailbox => Some("APPLY MAILBOX IN PROGRESS"@),
        RepositoryState::ApplyMailboxOrRebase => Some("APPLY MAILBOX/REBASE IN PROGRESS"@),
    }
}

/// The view of an optional text.
pub open spec fn opt_str_view(o: Option<&str>) -> Option<Seq<char>> {
    match o {
        Some(s) => Some(s@),
        None => None,
    }
}

/// Convert a `RepositoryState` to a human-readable description.
/// Returns `None` for the `Clean` state (no operation in progress).
pub fn repo_state_label(state: RepositoryState) -> (r: Option<&'static str>)
    ensures
        opt_str_view(r) == state_label(state),
{
    match state {
        RepositoryState::Clean => None,
        RepositoryState::Merge => Some("MERGE IN PROGRESS"),
        RepositoryState::Revert => Some("REVERT IN PROGRESS"),
        RepositoryState::RevertSequence => Some("REVERT SEQUENCE IN PROGRESS"),
        RepositoryState::CherryPick => Some("CHERRY-PICK IN PROGRESS"),
        RepositoryState::CherryPickSequence => Some("CHERRY-PICK SEQUENCE IN PROGRESS"),
        RepositoryState::Bisect => Some("BISECT IN PROGRESS"),
        RepositoryState::Rebase => Some("REBASE IN PROGRESS"),
        RepositoryState::RebaseInteractive => Some("INTERACTIVE REBASE IN PROGRESS"),
        RepositoryState::RebaseMerge => Some("REBASE-MERGE IN PROGRESS"),
        RepositoryState::ApplyMailbox => Some("APPLY MAILBOX IN PROGRESS"),
        RepositoryState::ApplyMailboxOrRebase => Some("APPLY MAILBOX/REBASE IN PROGRESS"),
    }
}

// ---------------------------------------------------------------------------
// What a repository holds
// ---------------------------------------------------------------------------

/// Submodule information
#[derive(Debug)]
pub struct SubmoduleInfo {
    pub name: String,
    pub path: String,
    pub branch: String,
    /// None = not yet checked (async dirty check pending), Some(bool) = known state
    pub is_dirty: Option<bool>,
    /// What the HEAD of the containing repository pins.
    pub head_oid: Option<Oid>,
    /// What the index of the containing repository pins.
    pub index_oid: Option<Oid>,
    /// What the submodule has checked out.
    pub workdir_oid: Option<Oid>,
}

/// A submodule by its views.
pub struct SubmoduleView {
    pub name: Seq<char>,
    pub path: Seq<char>,
    pub branch: Seq<char>,
    pub is_dirty: Option<bool>,
    pub head_oid: Option<Oid>,
    pub index_oid: Option<Oid>,
    pub workdir_oid: Option<Oid>,
}

impl View for SubmoduleInfo {
    type V = SubmoduleView;

    open spec fn view(&self) -> SubmoduleView {
        SubmoduleView {
            name: self.name@,
            path: self.path@,
            branch: self.branch@,
            is_dirty: self.is_dirty,
            head_oid: self.head_oid,
            index_oid: self.index_oid,
            workdir_oid: self.workdir_oid,
        }
    }
}

/// Per-commit submodule entry: what a commit tree pins for each submodule.
#[derive(Debug)]
pub struct CommitSubmoduleEntry {
    pub name: String,
    pub path: String,
    pub pinned_oid: Oid,
    pub changed: bool,
    pub parent_oid: Option<Oid>,
}

/// Worktree information
#[derive(Debug)]
pub struct WorktreeInfo {
    pub name: String,
    pub path: String,
    pub branch: String,
    pub head_oid: Option<Oid>,
    /// None = not yet checked (async dirty check pending), Some(bool) = known state
    pub is_dirty: Option<bool>,
    pub dirty_file_count: Option<usize>,
}

/// A worktree by its views.
pub struct WorktreeView {
    pub name: Seq<char>,
    pub path: Seq<char>,
    pub branch: Seq<char>,
    pub head_oid: Option<Oid>,
    pub is_dirty: Option<bool>,
    pub dirty_file_count: Option<usize>,
}

impl View for WorktreeInfo {
    type V = WorktreeView;

    open spec fn view(&self) -> WorktreeView {
        WorktreeView {
            name: self.name@,
            path: self.path@,
            branch: self.branch@,
            head_oid: self.head_oid,
            is_dirty: self.is_dirty,
            dirty_file_count: self.dirty_file_count,
        }
    }
}

/// Stash entry information
#[derive(Debug)]
pub struct StashEntry {
    pub index: usize,
    pub message: String,
    pub time: i64,
}

/// Branch tip for graph labels
#[derive(Debug)]
pub struct BranchTip {
    pub name: String,
    pub oid: Oid,
    pub is_remote: bool,
    pub is_head: bool,
    /// Upstream tracking branch name (e.g. "origin/main"), if any
    pub upstream: Option<String>,
}

/// Tag information
#[derive(Debug)]
pub struct TagInfo {
    pub name: String,
    pub oid: Oid,
}

/// A tag by its views.
pub struct TagView {
    pub name: Seq<char>,
    pub oid: Oid,
}

impl View for TagInfo {
    type V = TagView;

    open spec fn view(&self) -> TagView {
        TagView { name: self.name@, oid: self.oid }
    }
}

/// Result of a remote git operation (fetch, push, pull)
#[derive(Debug)]
pub struct RemoteOpResult {
    pub success: bool,
    pub error: String,
}

/// Full commit information for the detail panel
#[derive(Debug)]
pub struct FullCommitInfo {
    pub id: Oid,
    pub short_id: String,
    pub full_message: String,
    pub author_name: String,
    pub author_email: String,
    pub author_time: i64,
    pub parent_short_ids: Vec<String>,
}

impl FullCommitInfo {
    /// How long ago the author wrote the commit, as seen at `now`.
    pub fn relative_author_time(&self, now: i64) -> (r: String)
        ensures
            r@ == relative_time(now - self.author_time),
    {
        format_relative_time(self.author_time, now)
    }
}

/// Information about a single commit
#[derive(Debug)]
pub struct CommitInfo {
    pub id: Oid,
    pub short_id: String,
    pub summary: String,
    /// First line of the commit body (after the summary), if any.
    pub body_excerpt: Option<String>,
    /// Full body text (all lines after summary), for tooltips.
    pub body_full: Option<String>,
    pub author: String,
    pub author_email: String,
    pub time: i64,
    pub parent_ids: Vec<Oid>,
    /// Number of lines inserted in this commit (0 if not computed)
    pub insertions: usize,
    /// Number of lines deleted in this commit (0 if not computed)
    pub deletions: usize,
    /// True for synthetic "uncommitted changes" rows (not real commits)
    pub is_synthetic: bool,
    /// For synthetic entries: the worktree name this entry represents
    pub synthetic_wt_name: Option<String>,
    /// True for orphaned commits discovered via reflogs (unreachable from any branch tip)
    pub is_orphaned: bool,
    /// Reflog source label for orphaned commits, e.g. "HEAD@{3}: rebase (finish)"
    pub orphan_source: Option<String>,
}

/// A commit by its views.
#[verifier::ext_equal]
pub struct CommitView {
    pub id: Oid,
    pub short_id: Seq<char>,
    pub summary: Seq<char>,
    pub body_excerpt: Option<Seq<char>>,
    pub body_full: Option<Seq<char>>,
    pub author: Seq<char>,
    pub author_email: Seq<char>,
    pub time: i64,
    pub parent_ids: Seq<Oid>,
    pub insertions: usize,
    pub deletions: usize,
    pub is_synthetic: bool,
    pub synthetic_wt_name: Option<Seq<char>>,
    pub is_orphaned: bool,
    pub orphan_source: Option<Seq<char>>,
}

impl View for CommitInfo {
    type V = CommitView;

    open spec fn view(&self) -> CommitView {
        CommitView {
            id: self.id,
            short_id: self.short_id@,
            summary: self.summary@,
            body_excerpt: text::opt_view(self.body_excerpt),
            body_full: text::opt_view(self.body_full),
            author: self.author@,
            author_email: self.author_email@,
            time: self.time,
            parent_ids: self.parent_ids@,
            insertions: self.insertions,
            deletions: self.deletions,
            is_synthetic: self.is_synthetic,
            synthetic_wt_name: text::opt_view(self.synthetic_wt_name),
            is_orphaned: self.is_orphaned,
            orphan_source: text::opt_view(self.orphan_source),
        }
    }
}

// ---------------------------------------------------------------------------
// Commit messages
// ---------------------------------------------------------------------------

/// The lines of a message after its first.
pub open spec fn body_lines(message: Seq<char>) -> Seq<Seq<char>> {
    let all = text::lines(message);
    if all.len() == 0 {
        all
    } else {
        all.skip(1)
    }
}

/// The first of `lines` that says something, without the white space around it.
pub open spec fn first_said(lines: Seq<Seq<char>>) -> Option<Seq<char>>
    decreases lines.len(),
{
    if lines.len() == 0 {
        None
    } else if text::trim(lines[0]).len() > 0 {
        Some(text::trim(lines[0]))
    } else {
        first_said(lines.skip(1))
    }
}

/// The body of a message, `None` where it says nothing.
pub open spec fn body_text(message: Seq<char>) -> Option<Seq<char>> {
    let t = text::trim(text::join(body_lines(message), "\n"@));
    if t.len() > 0 {
        Some(t)
    } else {
        None
    }
}

fn split_body(message: &str) -> (r: Vec<String>)
    ensures
        text::views(r@) == body_lines(message@),
{
    let mut all = lines_of(message);
    let ghost v = text::views(all@);
    if all.len() > 0 {
        let ghost before = all@;
        let _ = all.remove(0);
        assert(text::views(all@) =~= v.skip(1));
    }
    all
}

fn find_said(lines: &Vec<String>) -> (r: Option<String>)
    ensures
        text::opt_view(r) == first_said(text::views(lines@)),
{
    let mut i: usize = 0;
    let ghost v = text::views(lines@);
    assert(v.skip(0) =~= v);
    while i < lines.len()
        invariant
            i <= lines.len(),
            v == text::views(lines@),
            first_said(v) == first_said(v.skip(i as int)),
        decreases lines.len() - i,
    {
        let t = trimmed(lines[i].as_str());
        assert(v.skip(i as int)[0] == lines@[i as int]@);
        if !t.as_str().is_empty() {
            return Some(t);
        }
        assert(v.skip(i as int).skip(1) =~= v.skip(i + 1));
        i = i + 1;
    }
    None
}

/// What is read of a commit.
pub struct CommitParts {
    pub id: Oid,
    pub message: Option<String>,
    pub summary: Option<String>,
    pub author_name: Option<String>,
    pub author_email: Option<String>,
    pub time: i64,
    pub parent_ids: Vec<Oid>,
}

/// `o`, or `other` where there is none.
pub open spec fn or_text(o: Option<Seq<char>>, other: Seq<char>) -> Seq<char> {
    match o {
        Some(s) => s,
        None => other,
    }
}

/// `o`, or `other` where there is none.
pub fn text_or(o: &Option<String>, other: &str) -> (r: String)
    ensures
        r@ == or_text(text::opt_view(*o), other@),
{
    match o {
        Some(s) => s.clone(),
        None => other.to_owned(),
    }
}

/// The commit that `parts` describe.
pub open spec fn commit_view(parts: CommitParts) -> CommitView {
    CommitView {
        id: parts.id,
        short_id: parts.id.short(),
        summary: or_text(text::opt_view(parts.summary), ""@),
        body_excerpt: match parts.message {
            Some(m) => first_said(body_lines(m@)),
            None => None,
        },
        body_full: match parts.message {
            Some(m) => body_text(m@),
            None => None,
        },
        author: or_text(text::opt_view(parts.author_name), "Unknown"@),
        author_email: or_text(text::opt_view(parts.author_email), ""@),
        time: parts.time,
        parent_ids: parts.parent_ids@,
        insertions: 0,
        deletions: 0,
        is_synthetic: false,
        synthetic_wt_name: None,
        is_orphaned: false,
        orphan_source: None,
    }
}

// ---------------------------------------------------------------------------
// Entries for changes not yet committed
// ---------------------------------------------------------------------------

/// The eight bytes of `n`, the least significant first.
pub open spec fn little_endian(n: nat, count: nat) -> Seq<u8>
    decreases count,
{
    if count == 0 {
        Seq::empty()
    } else {
        seq![(n % 256) as u8] + little_endian(n / 256, (count - 1) as nat)
    }
}

/// What the standard hasher makes of a name.
pub open spec fn name_hash(name: Seq<char>) -> u64 {
    DefaultHasher::spec_finish(seq![vstd::utf8::encode_utf8(name), seq![0xffu8]])
}

/// The bytes of the id that stands for the changes in the worktree `name`.
pub open spec fn worktree_sentinel(name: Seq<char>) -> Seq<u8> {
    seq![0xffu8, 0xfeu8] + little_endian(name_hash(name) as nat, 8) + Seq::new(
        10,
        |i: int| 0u8,
    )
}

/// The bytes of the id that stands for the changes in the only working directory.
pub open spec fn workdir_sentinel() -> Seq<u8> {
    seq![0xffu8, 0xfdu8] + Seq::new(18, |i: int| 0u8)
}

/// How many files a number of files is.
pub open spec fn files_text(count: nat) -> Seq<char> {
    if count == 1 {
        "1 file"@
    } else {
        text::dec(count) + " files"@
    }
}

/// The time of an entry: that of the newest file, but never before the commit it builds on.
pub open spec fn entry_time(mtime: Option<i64>, parent_time: i64) -> i64 {
    match mtime {
        Some(t) => if t > parent_time {
            t
        } else {
            parent_time
        },
        None => parent_time,
    }
}

/// An entry for changes on top of `head`.
pub open spec fn entry_view(
    id: Oid,
    summary: Seq<char>,
    head: Oid,
    time: i64,
    name: Option<Seq<char>>,
    stats: (usize, usize),
) -> CommitView {
    CommitView {
        id,
        short_id: Seq::empty(),
        summary,
        body_excerpt: None,
        body_full: None,
        author: Seq::empty(),
        author_email: Seq::empty(),
        time,
        parent_ids: seq![head],
        insertions: stats.0,
        deletions: stats.1,
        is_synthetic: true,
        synthetic_wt_name: name,
        is_orphaned: false,
        orphan_source: None,
    }
}

/// The entry for the changes in a worktree.
pub open spec fn worktree_entry(
    wt: WorktreeInfo,
    parent_time: i64,
    mtime: Option<i64>,
    stats: (usize, usize),
) -> Option<CommitView> {
    match wt.head_oid {
        Some(head) => Some(
            entry_view(
                Oid::of(worktree_sentinel(wt.name@)),
                "Uncommitted changes ("@ + wt.name@ + "): "@ + files_text(
                    match wt.dirty_file_count {
                        Some(n) => n as nat,
                        None => 0,
                    },
                ),
                head,
                entry_time(mtime, parent_time),
                Some(wt.name@),
                stats,
            ),
        ),
        None => None,
    }
}

/// The entry for the changes in the only working directory.
pub open spec fn workdir_entry(
    head: Oid,
    dirty_count: nat,
    parent_time: i64,
    mtime: Option<i64>,
    stats: (usize, usize),
) -> CommitView {
    entry_view(
        Oid::of(workdir_sentinel()),
        "Uncommitted changes: "@ + files_text(dirty_count),
        head,
        entry_time(mtime, parent_time),
        None,
        stats,
    )
}

fn hash_name(name: &str) -> (r: u64)
    ensures
        r == name_hash(name@),
{
    let mut hasher = DefaultHasher::new();
    hasher.write(name.as_bytes());
    let end: [u8; 1] = [0xff];
    hasher.write(end.as_slice());
    assert(hasher@ =~= seq![vstd::utf8::encode_utf8(name@), seq![0xffu8]]) by {
        assert(end@ =~= seq![0xffu8]);
    }
    hasher.finish()
}

/// Appends the bytes of `n`, the least significant first.
pub fn push_little_endian(bytes: &mut Vec<u8>, n: u64, count: usize)
    ensures
        final(bytes)@ == old(bytes)@ + little_endian(n as nat, count as nat),
    decreases count,
{
    if count > 0 {
        bytes.push((n % 256) as u8);
        let ghost mid = bytes@;
        push_little_endian(bytes, n / 256, count - 1);
        assert(bytes@ =~= old(bytes)@ + little_endian(n as nat, count as nat));
    } else {
        assert(bytes@ =~= old(bytes)@ + little_endian(n as nat, count as nat));
    }
}

fn push_zeros(bytes: &mut Vec<u8>, count: usize)
    ensures
        final(bytes)@ == old(bytes)@ + Seq::new(count as nat, |i: int| 0u8),
{
    let mut i: usize = 0;
    assert(bytes@ =~= old(bytes)@ + Seq::new(0, |j: int| 0u8));
    while i < count
        invariant
            i <= count,
            bytes@ == old(bytes)@ + Seq::new(i as nat, |j: int| 0u8),
        decreases count - i,
    {
        bytes.push(0);
        i = i + 1;
        assert(bytes@ =~= old(bytes)@ + Seq::new(i as nat, |j: int| 0u8));
    }
}

proof fn lemma_little_endian_len(n: nat, count: nat)
    ensures
        little_endian(n, count).len() == count,
    decreases count,
{
    if count > 0 {
        lemma_little_endian_len(n / 256, (count - 1) as nat);
    }
}

fn push_files(s: &mut String, count: usize)
    ensures
        final(s)@ == old(s)@ + files_text(count as nat),
{
    if count == 1 {
        s.append("1 file");
    } else {
        push_dec(s, count as u64);
        s.append(" files");
        assert(s@ =~= old(s)@ + files_text(count as nat));
    }
}

fn later(mtime: Option<i64>, parent_time: i64) -> (r: i64)
    ensures
        r == entry_time(mtime, parent_time),
{
    match mtime {
        Some(t) => if t > parent_time {
            t
        } else {
            parent_time
        },
        None => parent_time,
    }
}

fn entry(
    id: Oid,
    summary: String,
    head: Oid,
    time: i64,
    name: Option<String>,
    stats: (usize, usize),
) -> (r: CommitInfo)
    ensures
        r@ == entry_view(id, summary@, head, time, text::opt_view(name), stats),
{
    let mut parent_ids: Vec<Oid> = Vec::new();
    parent_ids.push(head);
    let r = CommitInfo {
        id,
        short_id: String::new(),
        summary,
        body_excerpt: None,
        body_full: None,
        author: String::new(),
        author_email: String::new(),
        time,
        parent_ids,
        insertions: stats.0,
        deletions: stats.1,
        is_synthetic: true,
        synthetic_wt_name: name,
        is_orphaned: false,
        orphan_source: None,
    };
    assert(r.parent_ids@ =~= seq![head]);
    r
}

impl CommitInfo {
    /// The commit that `parts` describe.
    pub fn from_commit(parts: CommitParts) -> (r: Self)
        ensures
            r@ == commit_view(parts),
    {
        let (body_excerpt, body_full) = match &parts.message {
            Some(m) => {
                let lines = split_body(m.as_str());
                let excerpt = find_said(&lines);
                let body = joined(&lines, "\n");
                let full = trimmed(body.as_str());
                if full.as_str().is_empty() {
                    (excerpt, None)
                } else {
                    (excerpt, Some(full))
                }
            },
            None => (None, None),
        };
        CommitInfo {
            id: parts.id,
            short_id: parts.id.short_id(),
            summary: text_or(&parts.summary, ""),
            body_excerpt,
            body_full,
            author: text_or(&parts.author_name, "Unknown"),
            author_email: text_or(&parts.author_email, ""),
            time: parts.time,
            parent_ids: parts.parent_ids,
            insertions: 0,
            deletions: 0,
            is_synthetic: false,
            synthetic_wt_name: None,
            is_orphaned: false,
            orphan_source: None,
        }
    }

    /// How long ago the commit was made, as seen at `now`.
    pub fn relative_time(&self, now: i64) -> (r: String)
        ensures
            r@ == relative_time(now - self.time),
    {
        format_relative_time(self.time, now)
    }

    /// Create a synthetic "uncommitted changes" entry for a dirty worktree.
    /// Uses a deterministic sentinel Oid derived from the worktree name so each
    /// worktree gets a unique, stable fake commit ID.
    /// The timestamp is the most recently modified file in the worktree (`mtime`), bounded
    /// to no earlier than the parent commit's timestamp.
    pub fn synthetic_for_worktree(wt: &WorktreeInfo, parent_time: i64, mtime: Option<i64>) -> (r:
        Option<Self>)
        ensures
            match r {
                Some(c) => worktree_entry(*wt, parent_time, mtime, (0, 0)) == Some(c@),
                None => wt.head_oid is None,
            },
    {
        let head = match wt.head_oid {
            Some(h) => h,
            None => {
                return None;
            },
        };
        let hash: u64 = hash_name(wt.name.as_str());
        let mut bytes: Vec<u8> = Vec::new();
        bytes.push(0xff);
        bytes.push(0xfe);
        push_little_endian(&mut bytes, hash, 8);
        push_zeros(&mut bytes, 10);
        proof {
            lemma_little_endian_len(hash as nat, 8);
            assert(bytes@ =~= worktree_sentinel(wt.name@));
        }
        let id = match Oid::from_bytes(bytes.as_slice()) {
            Some(id) => id,
            None => {
                return None;
            },
        };
        let mut summary = "Uncommitted changes (".to_owned();
        summary.append(wt.name.as_str());
        summary.append("): ");
        push_files(
            &mut summary,
            match wt.dirty_file_count {
                Some(n) => n,
                None => 0,
            },
        );
        Some(
            entry(
                id,
                summary,
                head,
                later(mtime, parent_time),
                Some(wt.name.clone()),
                (0, 0),
            ),
        )
    }

    /// Create a synthetic "uncommitted changes" entry for the current working directory
    /// (single-worktree fallback when no linked worktrees exist).
    /// The timestamp is the most recently modified file in the workdir (`mtime`), bounded
    /// to no earlier than the parent commit's timestamp.
    pub fn synthetic_for_working_dir(
        head_oid: Oid,
        dirty_count: usize,
        parent_time: i64,
        mtime: Option<i64>,
    ) -> (r: Self)
        ensures
            r@ == workdir_entry(head_oid, dirty_count as nat, parent_time, mtime, (0, 0)),
    {
        let mut bytes: Vec<u8> = Vec::new();
        bytes.push(0xff);
        bytes.push(0xfd);
        push_zeros(&mut bytes, 18);
        assert(bytes@ =~= workdir_sentinel());
        let id = match Oid::from_bytes(bytes.as_slice()) {
            Some(id) => id,
            None => head_oid,
        };
        let mut summary = "Uncommitted changes: ".to_owned();
        push_files(&mut summary, dirty_count);
        entry(id, summary, head_oid, later(mtime, parent_time), None, (0, 0))
    }
}

/// The entry for a worktree never has the id of the entry for the only working directory,
/// and no entry is older than the commit it builds on.
pub proof fn entries_are_told_apart_and_not_older(
    wt: WorktreeInfo,
    head: Oid,
    count: nat,
    parent_time: i64,
    mtime: Option<i64>,
    stats: (usize, usize),
)
    requires
        wt.head_oid is Some,
    ensures
        worktree_entry(wt, parent_time, mtime, stats)->0.id != workdir_entry(
            head,
            count,
            parent_time,
            mtime,
            stats,
        ).id,
        worktree_entry(wt, parent_time, mtime, stats)->0.time >= parent_time,
        workdir_entry(head, count, parent_time, mtime, stats).time >= parent_time,
{
    let a = worktree_sentinel(wt.name@).subrange(0, 8);
    let b = workdir_sentinel().subrange(0, 8);
    lemma_little_endian_len(name_hash(wt.name@) as nat, 8);
    assert(a[0] == 0xff && a[1] == 0xfe);
    assert(b[0] == 0xff && b[1] == 0xfd);
    crate::oid::lemma_big_endian_prefix(a);
    crate::oid::lemma_big_endian_prefix(b);
}

// ---------------------------------------------------------------------------
// Entries among the commits
// ---------------------------------------------------------------------------

/// The index of the first commit from `i` on that is not newer than `time`, or the number of
/// commits.
pub open spec fn not_newer_from(commits: Seq<CommitInfo>, time: i64, i: int) -> int
    decreases commits.len() - i,
{
    if i >= commits.len() {
        commits.len() as int
    } else if commits[i].time <= time {
        i
    } else {
        not_newer_from(commits, time, i + 1)
    }
}

/// `commits` with `entry` before the first commit that is not newer.
pub open spec fn with_entry(commits: Seq<CommitInfo>, entry: CommitInfo) -> Seq<CommitInfo> {
    commits.insert(not_newer_from(commits, entry.time, 0), entry)
}

/// `commits` with `entries` put in one after the other.
pub open spec fn with_entries(commits: Seq<CommitInfo>, entries: Seq<CommitInfo>) -> Seq<
    CommitInfo,
>
    decreases entries.len(),
{
    if entries.len() == 0 {
        commits
    } else {
        with_entry(with_entries(commits, entries.drop_last()), entries.last())
    }
}

/// Whether no commit is newer than the one before it.
pub open spec fn newest_first(commits: Seq<CommitInfo>) -> bool {
    forall|i: int, j: int|
        0 <= i < j < commits.len() ==> (#[trigger] commits[i]).time >= (
        #[trigger] commits[j]).time
}

proof fn lemma_not_newer_from(commits: Seq<CommitInfo>, time: i64, i: int)
    requires
        0 <= i <= commits.len(),
    ensures
        i <= not_newer_from(commits, time, i) <= commits.len(),
        forall|j: int|
            i <= j < not_newer_from(commits, time, i) ==> (#[trigger] commits[j]).time > time,
        not_newer_from(commits, time, i) < commits.len() ==> commits[not_newer_from(
            commits,
            time,
            i,
        )].time <= time,
    decreases commits.len() - i,
{
    if i < commits.len() && commits[i].time > time {
        lemma_not_newer_from(commits, time, i + 1);
    }
}

/// Putting entries among commits loses none of either, and where the commits stand with the
/// newest first they still do afterwards.
pub proof fn entries_keep_commits_and_their_order(
    commits: Seq<CommitInfo>,
    entries: Seq<CommitInfo>,
)
    ensures
        with_entries(commits, entries).to_multiset() == commits.to_multiset().add(
            entries.to_multiset(),
        ),
        newest_first(commits) ==> newest_first(with_entries(commits, entries)),
    decreases entries.len(),
{
    broadcast use vstd::seq_lib::group_to_multiset_ensures;

    if entries.len() == 0 {
        assert(entries =~= Seq::empty());
        assert(commits.to_multiset().add(entries.to_multiset()) =~= commits.to_multiset());
    } else {
        let before = with_entries(commits, entries.drop_last());
        let x = entries.last();
        entries_keep_commits_and_their_order(commits, entries.drop_last());
        lemma_not_newer_from(before, x.time, 0);
        let p = not_newer_from(before, x.time, 0);
        let after = before.insert(p, x);
        order::to_multiset_insert(before, p, x);
        assert(entries =~= entries.drop_last().push(x));
        assert(after.to_multiset() =~= commits.to_multiset().add(entries.to_multiset()));
        if newest_first(commits) {
            assert forall|i: int, j: int| 0 <= i < j < after.len() implies (
            #[trigger] after[i]).time >= (#[trigger] after[j]).time by {
                if j == p {
                    assert(after[i] == before[i]);
                } else if i == p {
                    assert(after[j] == before[j - 1]);
                    assert(before[p].time >= before[j - 1].time || p == j - 1);
                } else {
                    let a = if i < p {
                        i
                    } else {
                        i - 1
                    };
                    let b = if j < p {
                        j
                    } else {
                        j - 1
                    };
                    assert(after[i] == before[a] && after[j] == before[b]);
                }
            }
        }
    }
}

/// Insert synthetic entries into the commit list sorted by time.
/// Commits are in reverse chronological order (newest first), so each
/// synthetic is inserted at the position where its time >= the next commit's time.
pub fn insert_synthetics_sorted(commits: &mut Vec<CommitInfo>, synthetics: Vec<CommitInfo>)
    ensures
        final(commits)@ == with_entries(old(commits)@, synthetics@),
{
    let ghost start = commits@;
    assert(synthetics@.take(0) =~= Seq::empty());
    for s in it: synthetics
        invariant
            it.seq() == synthetics@,
            commits@ == with_entries(start, synthetics@.take(it.index() as int)),
    {
        let ghost n = it.index() as int;
        let ghost before = commits@;
        let mut p: usize = 0;
        while p < commits.len() && commits[p].time > s.time
            invariant
                p <= commits.len(),
                commits@ == before,
                not_newer_from(before, s.time, 0) == not_newer_from(before, s.time, p as int),
            decreases commits.len() - p,
        {
            p = p + 1;
        }
        commits.insert(p, s);
        proof {
            assert(synthetics@.take(n + 1).drop_last() =~= synthetics@.take(n));
            assert(synthetics@.take(n + 1).last() == synthetics@[n]);
        }
    }
    assert(synthetics@.take(synthetics@.len() as int) =~= synthetics@);
}

/// The time of the first commit with the id `id`, 0 where there is none.
pub open spec fn commit_time(commits: Seq<CommitInfo>, id: Oid) -> i64
    decreases commits.len(),
{
    if commits.len() == 0 {
        0
    } else if commits[0].id == id {
        commits[0].time
    } else {
        commit_time(commits.skip(1), id)
    }
}

/// The time of the first commit with the id `id`, 0 where there is none.
pub fn time_of_commit(commits: &Vec<CommitInfo>, id: Oid) -> (r: i64)
    ensures
        r == commit_time(commits@, id),
{
    let mut i: usize = 0;
    assert(commits@.skip(0) =~= commits@);
    while i < commits.len()
        invariant
            i <= commits.len(),
            commit_time(commits@, id) == commit_time(commits@.skip(i as int), id),
        decreases commits.len() - i,
    {
        if commits[i].id == id {
            return commits[i].time;
        }
        assert(commits@.skip(i as int).skip(1) =~= commits@.skip(i + 1));
        i = i + 1;
    }
    0
}

/// What is read of an entry one level deep in a directory.
#[derive(Debug)]
pub struct InnerTime {
    pub name: String,
    pub is_dir: bool,
    /// When the entry was modified, where that is known.
    pub modified: Option<i64>,
}

/// What is read of an entry of a directory.
#[derive(Debug)]
pub struct DirEntryTimes {
    pub name: String,
    /// When the entry was modified, where that is known.
    pub modified: Option<i64>,
    /// What a directory holds; nothing for a file.
    pub inner: Vec<InnerTime>,
}

/// Whether an inner entry was modified at `t`. A directory that git keeps for itself does not
/// count; a file of that name does.
pub open spec fn inner_at(e: InnerTime, t: i64) -> bool {
    !(e.is_dir && e.name@ == ".git"@) && e.modified == Some(t)
}

/// Whether something in an entry was modified at `t`. What git keeps for itself does not count.
pub open spec fn modified_at(e: DirEntryTimes, t: i64) -> bool {
    e.name@ != ".git"@ && (e.modified == Some(t) || exists|j: int|
        0 <= j < e.inner@.len() && inner_at(#[trigger] e.inner@[j], t))
}

/// Whether one of the entries was modified at `t`.
pub open spec fn some_modified_at(entries: Seq<DirEntryTimes>, t: i64) -> bool {
    exists|i: int| 0 <= i < entries.len() && modified_at(#[trigger] entries[i], t)
}

/// Whether `r` is the latest time in the entries, none where they tell none.
pub open spec fn is_newest(entries: Seq<DirEntryTimes>, r: Option<i64>) -> bool {
    match r {
        Some(m) => some_modified_at(entries, m) && forall|t: i64| #[trigger]
            some_modified_at(entries, t) ==> t <= m,
        None => forall|t: i64| !#[trigger] some_modified_at(entries, t),
    }
}

/// The later of two times.
pub open spec fn later_of(a: Option<i64>, b: Option<i64>) -> Option<i64> {
    match (a, b) {
        (Some(x), Some(y)) => if x < y {
            b
        } else {
            a
        },
        (None, _) => b,
        (_, None) => a,
    }
}

fn newer(a: Option<i64>, b: Option<i64>) -> (r: Option<i64>)
    ensures
        r == later_of(a, b),
{
    match (a, b) {
        (Some(x), Some(y)) => if x < y {
            b
        } else {
            a
        },
        (None, _) => b,
        (_, None) => a,
    }
}

fn newest_in_entry(e: &DirEntryTimes) -> (r: Option<i64>)
    ensures
        is_newest(seq![*e], r),
{
    let ghost one = seq![*e];
    assert(one[0] == *e);
    if same(e.name.as_str(), ".git") {
        return None;
    }
    let mut newest = e.modified;
    let mut i: usize = 0;
    while i < e.inner.len()
        invariant
            i <= e.inner.len(),
            match newest {
                Some(m) => {
                    &&& e.modified == Some(m) || exists|j: int|
                        0 <= j < i && inner_at(#[trigger] e.inner@[j], m)
                    &&& forall|t: i64| e.modified == Some(t) ==> t <= m
                    &&& forall|j: int, t: i64|
                        0 <= j < i && #[trigger] inner_at(e.inner@[j], t) ==> t <= m
                },
                None => {
                    &&& e.modified is None
                    &&& forall|j: int, t: i64|
                        0 <= j < i ==> !#[trigger] inner_at(e.inner@[j], t)
                },
            },
        decreases e.inner.len() - i,
    {
        if !(e.inner[i].is_dir && same(e.inner[i].name.as_str(), ".git")) {
            let ghost before = newest;
            newest = newer(newest, e.inner[i].modified);
            proof {
                if newest != before {
                    assert(inner_at(e.inner@[i as int], newest->0));
                }
            }
        }
        i = i + 1;
    }
    proof {
        assert forall|t: i64| #[trigger] some_modified_at(one, t) implies modified_at(*e, t) by {
        }
        match newest {
            Some(m) => {
                assert(modified_at(one[0], m));
            },
            None => {},
        }
    }
    newest
}

/// The latest time at which something in a directory was modified: its entries and those one
/// level deeper count, what git keeps for itself does not.
pub fn newest_mtime_in_dir(entries: &Vec<DirEntryTimes>) -> (r: Option<i64>)
    ensures
        is_newest(entries@, r),
{
    let mut newest: Option<i64> = None;
    let mut i: usize = 0;
    while i < entries.len()
        invariant
            i <= entries.len(),
            is_newest(entries@.take(i as int), newest),
        decreases entries.len() - i,
    {
        let one = newest_in_entry(&entries[i]);
        let ghost before = entries@.take(i as int);
        let ghost after = entries@.take(i + 1);
        let ghost single = seq![entries@[i as int]];
        proof {
            assert forall|t: i64| #[trigger]
                some_modified_at(after, t) <==> some_modified_at(before, t) || some_modified_at(
                    single,
                    t,
                ) by {
                if some_modified_at(before, t) {
                    let k = choose|k: int| 0 <= k < before.len() && modified_at(before[k], t);
                    assert(after[k] == before[k]);
                }
                if some_modified_at(single, t) {
                    assert(after[i as int] == single[0]);
                }
                if some_modified_at(after, t) {
                    let k = choose|k: int| 0 <= k < after.len() && modified_at(after[k], t);
                    if k < i {
                        assert(before[k] == after[k]);
                    } else {
                        assert(single[0] == after[k]);
                    }
                }
            }
        }
        newest = newer(newest, one);
        i = i + 1;
    }
    assert(entries@.take(entries@.len() as int) =~= entries@);
    newest
}

/// What is read of the only working directory.
#[derive(Debug, Clone, Copy)]
pub struct WorkdirFacts {
    pub dirty_count: usize,
    pub mtime: Option<i64>,
    pub stats: (usize, usize),
}

/// What is read of a dirty worktree.
#[derive(Debug, Clone, Copy)]
pub struct WorktreeFacts {
    pub mtime: Option<i64>,
    /// Lines inserted and deleted, where the worktree could be opened.
    pub stats: Option<(usize, usize)>,
}

/// The time of the commit that a worktree has checked out, 0 where it is not known.
pub open spec fn worktree_parent_time(commits: Seq<CommitInfo>, wt: WorktreeInfo) -> i64 {
    match wt.head_oid {
        Some(h) => commit_time(commits, h),
        None => 0,
    }
}

/// The entries for the worktrees that are dirty and have something checked out.
pub open spec fn worktree_entries(
    commits: Seq<CommitInfo>,
    worktrees: Seq<WorktreeInfo>,
    facts: Seq<WorktreeFacts>,
) -> Seq<CommitView>
    decreases worktrees.len(),
{
    if worktrees.len() == 0 {
        Seq::empty()
    } else {
        let wt = worktrees.last();
        let fact = facts[worktrees.len() - 1];
        let rest = worktree_entries(commits, worktrees.drop_last(), facts);
        let stats = match fact.stats {
            Some(s) => s,
            None => (0, 0),
        };
        match worktree_entry(wt, worktree_parent_time(commits, wt), fact.mtime, stats) {
            Some(e) => if wt.is_dirty == Some(true) {
                rest.push(e)
            } else {
                rest
            },
            None => rest,
        }
    }
}

/// The entries for all changes not yet committed: those of the dirty worktrees, or where
/// there are none linked, that of the working directory where it is dirty.
pub open spec fn synthetic_entries(
    head: Option<Oid>,
    workdir: Option<WorkdirFacts>,
    worktrees: Seq<WorktreeInfo>,
    facts: Seq<WorktreeFacts>,
    commits: Seq<CommitInfo>,
) -> Seq<CommitView> {
    if worktrees.len() > 0 {
        worktree_entries(commits, worktrees, facts)
    } else {
        match (head, workdir) {
            (Some(h), Some(w)) => if w.dirty_count > 0 {
                seq![
                    workdir_entry(
                        h,
                        w.dirty_count as nat,
                        commit_time(commits, h),
                        w.mtime,
                        w.stats,
                    ),
                ]
            } else {
                Seq::empty()
            },
            _ => Seq::empty(),
        }
    }
}

/// Create synthetic "uncommitted changes" entries for dirty worktrees.
/// `workdir` holds what was read of the working directory where its status could be had,
/// and `facts` what was read of each worktree.
pub fn create_synthetic_entries(
    head_oid: Option<Oid>,
    workdir: Option<WorkdirFacts>,
    worktrees: &Vec<WorktreeInfo>,
    facts: &Vec<WorktreeFacts>,
    commits: &Vec<CommitInfo>,
) -> (r: Vec<CommitInfo>)
    requires
        facts.len() == worktrees.len(),
    ensures
        text::views(r@) == synthetic_entries(
            head_oid,
            workdir,
            worktrees@,
            facts@,
            commits@,
        ),
{
    let mut synthetics: Vec<CommitInfo> = Vec::new();
    if worktrees.len() == 0 {
        if let Some(head) = head_oid {
            if let Some(w) = workdir {
                if w.dirty_count > 0 {
                    let mut e = CommitInfo::synthetic_for_working_dir(
                        head,
                        w.dirty_count,
                        time_of_commit(commits, head),
                        w.mtime,
                    );
                    e.insertions = w.stats.0;
                    e.deletions = w.stats.1;
                    synthetics.push(e);
                    assert(text::views(synthetics@) =~= synthetic_entries(
                        head_oid,
                        workdir,
                        worktrees@,
                        facts@,
                        commits@,
                    ));
                    return synthetics;
                }
            }
        }
        assert(text::views(synthetics@) =~= Seq::empty());
        return synthetics;
    }
    let mut i: usize = 0;
    assert(text::views(synthetics@) =~= worktree_entries(commits@, worktrees@.take(0), facts@));
    while i < worktrees.len()
        invariant
            i <= worktrees.len() == facts.len(),
            text::views(synthetics@) == worktree_entries(
                commits@,
                worktrees@.take(i as int),
                facts@,
            ),
        decreases worktrees.len() - i,
    {
        let wt = &worktrees[i];
        let ghost before = synthetics@;
        proof {
            assert(worktrees@.take(i + 1).drop_last() =~= worktrees@.take(i as int));
            assert(worktrees@.take(i + 1).last() == *wt);
        }
        if wt.is_dirty == Some(true) {
            let parent_time: i64 = match wt.head_oid {
                Some(h) => time_of_commit(commits, h),
                None => 0,
            };
            if let Some(e) = CommitInfo::synthetic_for_worktree(wt, parent_time, facts[i].mtime) {
                let mut e = e;
                if let Some(stats) = facts[i].stats {
                    e.insertions = stats.0;
                    e.deletions = stats.1;
                }
                synthetics.push(e);
                assert(text::views(synthetics@) =~= text::views(before).push(e@));
            }
        }
        i = i + 1;
    }
    assert(worktrees@.take(worktrees@.len() as int) =~= worktrees@);
    synthetics
}

// ---------------------------------------------------------------------------
// Laws
// ---------------------------------------------------------------------------

/// Whether `r` says that `seconds` are `n` whole units of `unit` seconds, and not one more.
pub open spec fn says_units(r: Seq<char>, seconds: int, unit: nat, name: Seq<char>) -> bool {
    exists|n: nat|
        n >= 1 && n * unit <= seconds < (n + 1) * unit && r == #[trigger] text::dec(n) + name
}

proof fn lemma_says_units(seconds: int, unit: nat, name: Seq<char>)
    requires
        seconds >= unit >= 1,
    ensures
        says_units(text::dec((seconds / (unit as int)) as nat) + name, seconds, unit, name),
{
    let n = (seconds / (unit as int)) as nat;
    assert(n >= 1 && n * unit <= seconds < (n + 1) * unit) by (nonlinear_arith)
        requires
            seconds >= unit >= 1,
            n == seconds / (unit as int),
    ;
}

/// A time is told in whole minutes up to an hour, in hours up to a day, in days up to a week,
/// in weeks up to thirty days, in months of thirty days up to a year of 365 days, and in years
/// from there on; under a minute, and in the future, it is just now.
pub proof fn times_are_told_in_the_largest_unit(seconds: int)
    ensures
        seconds < 60 ==> relative_time(seconds) == "just now"@,
        60 <= seconds < 60 * 60 ==> says_units(relative_time(seconds), seconds, 60, "m"@),
        60 * 60 <= seconds < 24 * 60 * 60 ==> says_units(
            relative_time(seconds),
            seconds,
            60 * 60,
            "h"@,
        ),
        24 * 60 * 60 <= seconds < 7 * 24 * 60 * 60 ==> says_units(
            relative_time(seconds),
            seconds,
            24 * 60 * 60,
            "d"@,
        ),
        7 * 24 * 60 * 60 <= seconds < 30 * 24 * 60 * 60 ==> says_units(
            relative_time(seconds),
            seconds,
            7 * 24 * 60 * 60,
            "w"@,
        ),
        30 * 24 * 60 * 60 <= seconds < 365 * 24 * 60 * 60 ==> says_units(
            relative_time(seconds),
            seconds,
            30 * 24 * 60 * 60,
            "mo"@,
        ),
        365 * 24 * 60 * 60 <= seconds ==> says_units(
            relative_time(seconds),
            seconds,
            365 * 24 * 60 * 60,
            "y"@,
        ),
{
    if seconds >= 60 {
        lemma_says_units(seconds, 60, "m"@);
    }
    if seconds >= 60 * 60 {
        lemma_says_units(seconds, 60 * 60, "h"@);
    }
    if seconds >= 24 * 60 * 60 {
        lemma_says_units(seconds, 24 * 60 * 60, "d"@);
    }
    if seconds >= 7 * 24 * 60 * 60 {
        lemma_says_units(seconds, 7 * 24 * 60 * 60, "w"@);
    }
    if seconds >= 30 * 24 * 60 * 60 {
        lemma_says_units(seconds, 30 * 24 * 60 * 60, "mo"@);
    }
    if seconds >= 365 * 24 * 60 * 60 {
        lemma_says_units(seconds, 365 * 24 * 60 * 60, "y"@);
    }
}

proof fn lemma_first_said(lines: Seq<Seq<char>>)
    ensures
        match first_said(lines) {
            Some(t) => t.len() > 0 && exists|k: int|
                0 <= k < lines.len() && t == text::trim(#[trigger] lines[k]) && forall|j: int|
                    0 <= j < k ==> text::trim(#[trigger] lines[j]).len() == 0,
            None => forall|j: int|
                0 <= j < lines.len() ==> text::trim(#[trigger] lines[j]).len() == 0,
        },
    decreases lines.len(),
{
    if lines.len() > 0 && text::trim(lines[0]).len() == 0 {
        let rest = lines.skip(1);
        lemma_first_said(rest);
        match first_said(lines) {
            Some(t) => {
                let k = choose|k: int|
                    0 <= k < rest.len() && t == text::trim(#[trigger] rest[k]) && forall|j: int|
                        0 <= j < k ==> text::trim(#[trigger] rest[j]).len() == 0;
                assert(lines[k + 1] == rest[k]);
                assert forall|j: int| 0 <= j < k + 1 implies text::trim(
                    #[trigger] lines[j],
                ).len() == 0 by {
                    if j > 0 {
                        assert(lines[j] == rest[j - 1]);
                    }
                }
            },
            None => {
                assert forall|j: int| 0 <= j < lines.len() implies text::trim(
                    #[trigger] lines[j],
                ).len() == 0 by {
                    if j > 0 {
                        assert(lines[j] == rest[j - 1]);
                    }
                }
            },
        }
    }
}

/// The excerpt of a commit is the first line after the first of its message that holds more
/// than white space, without the white space around it, and there is none where every such
/// line is blank.
pub proof fn the_excerpt_is_the_first_line_that_says_something(parts: CommitParts, m: String)
    requires
        parts.message == Some(m),
    ensures
        match commit_view(parts).body_excerpt {
            Some(t) => t.len() > 0 && exists|k: int|
                1 <= k < text::lines(m@).len() && t == text::trim(#[trigger] text::lines(m@)[k])
                    && forall|j: int|
                    1 <= j < k ==> text::trim(#[trigger] text::lines(m@)[j]).len() == 0,
            None => forall|j: int|
                1 <= j < text::lines(m@).len() ==> text::trim(#[trigger] text::lines(m@)[j]).len()
                    == 0,
        },
{
    let all = text::lines(m@);
    let rest = body_lines(m@);
    lemma_first_said(rest);
    match first_said(rest) {
        Some(t) => {
            let k = choose|k: int|
                0 <= k < rest.len() && t == text::trim(#[trigger] rest[k]) && forall|j: int|
                    0 <= j < k ==> text::trim(#[trigger] rest[j]).len() == 0;
            assert(all[k + 1] == rest[k]);
            assert forall|j: int| 1 <= j < k + 1 implies text::trim(#[trigger] all[j]).len()
                == 0 by {
                assert(all[j] == rest[j - 1]);
            }
        },
        None => {
            assert forall|j: int| 1 <= j < all.len() implies text::trim(#[trigger] all[j]).len()
                == 0 by {
                assert(all[j] == rest[j - 1]);
            }
        },
    }
}

/// The body of a commit is what follows the first line of its message, without the white space
/// around it, and there is none where nothing but white space follows. (Where lines end in a
/// carriage return as well, the body is without those.)
pub proof fn the_body_follows_the_first_line(parts: CommitParts, m: String, body: Seq<char>)
    requires
        parts.message == Some(m),
        exists|first: Seq<char>|
            !first.contains('\n') && m@ == #[trigger] (first + seq!['\n'] + body),
        !body.contains('\r'),
    ensures
        commit_view(parts).body_full == (if text::trim(body).len() > 0 {
            Some(text::trim(body))
        } else {
            None
        }),
{
    let first = choose|first: Seq<char>|
        !first.contains('\n') && m@ == #[trigger] (first + seq!['\n'] + body);
    text::lemma_lines_after(first, body);
    let all = text::lines(m@);
    assert(all.skip(1) =~= text::lines(body));
    text::lemma_lines_rejoined(body);
}

/// What was read of a commit is shown as it was read: its id, its time and its parents in their
/// order, its summary and who wrote it. A commit is not an entry for changes, nor an orphan.
pub proof fn commits_keep_what_was_read(parts: CommitParts)
    ensures
        commit_view(parts).id == parts.id,
        commit_view(parts).time == parts.time,
        commit_view(parts).parent_ids == parts.parent_ids@,
        parts.summary is Some ==> commit_view(parts).summary == parts.summary->0@,
        parts.author_name is Some ==> commit_view(parts).author == parts.author_name->0@,
        parts.author_name is None ==> commit_view(parts).author == "Unknown"@,
        parts.author_email is Some ==> commit_view(parts).author_email == parts.author_email->0@,
        parts.message is None ==> commit_view(parts).body_excerpt is None && commit_view(
            parts,
        ).body_full is None,
        !commit_view(parts).is_synthetic && !commit_view(parts).is_orphaned,
{
}

/// An entry for changes stands before the first commit that is not newer than it: all before it
/// are newer, the one after it is not, and what was there keeps its order.
pub proof fn an_entry_stands_before_what_is_not_newer(
    commits: Seq<CommitInfo>,
    entries: Seq<CommitInfo>,
    e: CommitInfo,
)
    ensures
        exists|p: int|
            {
                &&& 0 <= p <= with_entries(commits, entries).len()
                &&& with_entries(commits, entries.push(e)) == #[trigger] with_entries(
                    commits,
                    entries,
                ).insert(p, e)
                &&& forall|j: int|
                    0 <= j < p ==> (#[trigger] with_entries(commits, entries)[j]).time > e.time
                &&& p < with_entries(commits, entries).len() ==> with_entries(
                    commits,
                    entries,
                )[p].time <= e.time
            },
        with_entries(commits, Seq::empty()) == commits,
{
    let before = with_entries(commits, entries);
    assert(entries.push(e).drop_last() =~= entries);
    lemma_not_newer_from(before, e.time, 0);
    let p = not_newer_from(before, e.time, 0);
    assert(with_entries(commits, entries.push(e)) == before.insert(p, e));
}

/// The time of a commit is that of the first with its id, and nothing is known where there is
/// none.
pub proof fn the_first_commit_with_an_id_tells_its_time(commits: Seq<CommitInfo>, i: int, id: Oid)
    ensures
        0 <= i < commits.len() && commits[i].id == id && (forall|j: int|
            0 <= j < i ==> (#[trigger] commits[j]).id != id) ==> commit_time(commits, id)
            == commits[i].time,
        (forall|j: int| 0 <= j < commits.len() ==> (#[trigger] commits[j]).id != id)
            ==> commit_time(commits, id) == 0,
    decreases commits.len(),
{
    if commits.len() > 0 && commits[0].id != id {
        let rest = commits.skip(1);
        the_first_commit_with_an_id_tells_its_time(rest, i - 1, id);
        if 0 <= i < commits.len() {
            assert(i > 0 ==> rest[i - 1] == commits[i]);
        }
        if forall|j: int| 0 <= j < commits.len() ==> (#[trigger] commits[j]).id != id {
            assert forall|j: int| 0 <= j < rest.len() implies (#[trigger] rest[j]).id != id by {
                assert(rest[j] == commits[j + 1]);
            }
        }
        if 0 <= i < commits.len() && (forall|j: int|
            0 <= j < i ==> (#[trigger] commits[j]).id != id) {
            assert forall|j: int| 0 <= j < i - 1 implies (#[trigger] rest[j]).id != id by {
                assert(rest[j] == commits[j + 1]);
            }
        }
    }
}

/// Every modification counts that git did not make for itself: the newest time is no earlier
/// than that of an entry with another name than `.git`, and no earlier than that of anything
/// one level deeper in such an entry, unless it is a directory named `.git`. It is one of these
/// times.
pub proof fn every_file_counts_for_the_newest_time(
    entries: Seq<DirEntryTimes>,
    r: Option<i64>,
    i: int,
)
    requires
        is_newest(entries, r),
        0 <= i < entries.len(),
        entries[i].name@ != ".git"@,
    ensures
        entries[i].modified is Some ==> r is Some && r->0 >= entries[i].modified->0,
        forall|j: int|
            0 <= j < entries[i].inner@.len() && (#[trigger] entries[i].inner@[j]).modified is Some
                && (entries[i].inner@[j].name@ != ".git"@ || !entries[i].inner@[j].is_dir) ==> r
                is Some && r->0 >= entries[i].inner@[j].modified->0,
        r is Some ==> exists|k: int|
            0 <= k < entries.len() && (#[trigger] entries[k]).name@ != ".git"@ && (
            entries[k].modified == r || exists|j: int|
                0 <= j < entries[k].inner@.len() && (#[trigger] entries[k].inner@[j]).modified == r
                    && (entries[k].inner@[j].name@ != ".git"@ || !entries[k].inner@[j].is_dir)),
{
    if entries[i].modified is Some {
        assert(modified_at(entries[i], entries[i].modified->0));
        assert(some_modified_at(entries, entries[i].modified->0));
    }
    assert forall|j: int|
        0 <= j < entries[i].inner@.len() && (#[trigger] entries[i].inner@[j]).modified is Some && (
        entries[i].inner@[j].name@ != ".git"@ || !entries[i].inner@[j].is_dir) implies r is Some
        && r->0 >= entries[i].inner@[j].modified->0 by {
        let t = entries[i].inner@[j].modified->0;
        assert(inner_at(entries[i].inner@[j], t));
        assert(modified_at(entries[i], t));
        assert(some_modified_at(entries, t));
    }
    if let Some(m) = r {
        assert(some_modified_at(entries, m));
        let k = choose|k: int| 0 <= k < entries.len() && modified_at(#[trigger] entries[k], m);
        if entries[k].modified != r {
            let j = choose|j: int|
                0 <= j < entries[k].inner@.len() && inner_at(#[trigger] entries[k].inner@[j], m);
            assert(entries[k].inner@[j].modified == r);
        }
    }
}

/// Whether `e` is the entry for the changes on top of `head`: it builds on that commit alone, is
/// as old as the newer of that commit and what was modified last, and tells the lines changed.
pub open spec fn stands_for_changes(
    e: CommitView,
    head: Oid,
    commits: Seq<CommitInfo>,
    mtime: Option<i64>,
    lines: (usize, usize),
) -> bool {
    &&& e.is_synthetic && !e.is_orphaned
    &&& e.parent_ids == seq![head]
    &&& e.time >= commit_time(commits, head)
    &&& mtime is Some ==> e.time >= mtime->0
    &&& e.time == commit_time(commits, head) || mtime == Some(e.time)
    &&& (e.insertions, e.deletions) == lines
}

/// What the entries for worktrees are there for: the name and the commit checked out of each
/// worktree that is known to be dirty and has a commit checked out.
pub open spec fn dirty_worktrees(worktrees: Seq<WorktreeInfo>) -> Seq<(Seq<char>, Oid)> {
    worktrees.filter_map(
        |wt: WorktreeInfo|
            match (wt.head_oid, wt.is_dirty) {
                (Some(head), Some(true)) => Some((wt.name@, head)),
                _ => None,
            },
    )
}

proof fn lemma_worktree_entries(
    commits: Seq<CommitInfo>,
    worktrees: Seq<WorktreeInfo>,
    facts: Seq<WorktreeFacts>,
)
    requires
        facts.len() >= worktrees.len(),
    ensures
        ({
            let r = worktree_entries(commits, worktrees, facts);
            let d = dirty_worktrees(worktrees);
            &&& r.len() == d.len()
            &&& forall|k: int|
                0 <= k < r.len() ==> (#[trigger] r[k]).synthetic_wt_name == Some(d[k].0)
                    && r[k].parent_ids == seq![d[k].1]
            &&& forall|i: int|
                0 <= i < worktrees.len() && (#[trigger] worktrees[i]).is_dirty == Some(true)
                    && worktrees[i].head_oid is Some ==> exists|k: int|
                    0 <= k < r.len() && (#[trigger] r[k]).synthetic_wt_name == Some(
                        worktrees[i].name@,
                    ) && stands_for_changes(
                        r[k],
                        worktrees[i].head_oid->0,
                        commits,
                        facts[i].mtime,
                        match facts[i].stats {
                            Some(lines) => lines,
                            None => (0, 0),
                        },
                    )
        }),
    decreases worktrees.len(),
{
    let r = worktree_entries(commits, worktrees, facts);
    let d = dirty_worktrees(worktrees);
    if worktrees.len() > 0 {
        let front = worktrees.drop_last();
        let n = front.len() as int;
        lemma_worktree_entries(commits, front, facts);
        let r0 = worktree_entries(commits, front, facts);
        let d0 = dirty_worktrees(front);
        assert(worktrees[n] == worktrees.last());
        assert forall|i: int|
            0 <= i < worktrees.len() && (#[trigger] worktrees[i]).is_dirty == Some(true)
                && worktrees[i].head_oid is Some implies exists|k: int|
            0 <= k < r.len() && (#[trigger] r[k]).synthetic_wt_name == Some(worktrees[i].name@)
                && stands_for_changes(
                r[k],
                worktrees[i].head_oid->0,
                commits,
                facts[i].mtime,
                match facts[i].stats {
                    Some(lines) => lines,
                    None => (0, 0),
                },
            ) by {
            if i < n {
                assert(front[i] == worktrees[i]);
                let k = choose|k: int|
                    0 <= k < r0.len() && (#[trigger] r0[k]).synthetic_wt_name == Some(
                        front[i].name@,
                    ) && stands_for_changes(
                        r0[k],
                        front[i].head_oid->0,
                        commits,
                        facts[i].mtime,
                        match facts[i].stats {
                            Some(lines) => lines,
                            None => (0, 0),
                        },
                    );
                assert(r[k] == r0[k]);
            } else {
                assert(r == r0.push(r.last()));
                assert(r[r0.len() as int].synthetic_wt_name == Some(worktrees[i].name@));
            }
        }
        assert forall|k: int| 0 <= k < r.len() implies (#[trigger] r[k]).synthetic_wt_name == Some(
            d[k].0,
        ) && r[k].parent_ids == seq![d[k].1] by {
            if k < r0.len() {
                assert(r[k] == r0[k] && d[k] == d0[k]);
            }
        }
    }
}

/// Every worktree with changes has an entry, in the order of the worktrees, and no other has:
/// the entries bear the names and the commits of the worktrees that are dirty and have a commit
/// checked out, and each tells how new its changes are and how many lines they are.
pub proof fn every_dirty_worktree_has_an_entry(
    head: Option<Oid>,
    workdir: Option<WorkdirFacts>,
    worktrees: Seq<WorktreeInfo>,
    facts: Seq<WorktreeFacts>,
    commits: Seq<CommitInfo>,
)
    requires
        worktrees.len() > 0,
        facts.len() == worktrees.len(),
    ensures
        ({
            let r = synthetic_entries(head, workdir, worktrees, facts, commits);
            let d = dirty_worktrees(worktrees);
            &&& r.len() == d.len()
            &&& forall|k: int|
                0 <= k < r.len() ==> (#[trigger] r[k]).synthetic_wt_name == Some(d[k].0)
                    && r[k].parent_ids == seq![d[k].1]
            &&& forall|i: int|
                0 <= i < worktrees.len() && (#[trigger] worktrees[i]).is_dirty == Some(true)
                    && worktrees[i].head_oid is Some ==> exists|k: int|
                    0 <= k < r.len() && (#[trigger] r[k]).synthetic_wt_name == Some(
                        worktrees[i].name@,
                    ) && stands_for_changes(
                        r[k],
                        worktrees[i].head_oid->0,
                        commits,
                        facts[i].mtime,
                        match facts[i].stats {
                            Some(lines) => lines,
                            None => (0, 0),
                        },
                    )
        }),
{
    lemma_worktree_entries(commits, worktrees, facts);
}

/// A working directory without linked worktrees has one entry where something in it changed and
/// a commit is checked out, and none otherwise.
pub proof fn a_dirty_working_directory_has_an_entry(
    head: Option<Oid>,
    workdir: Option<WorkdirFacts>,
    facts: Seq<WorktreeFacts>,
    commits: Seq<CommitInfo>,
)
    ensures
        ({
            let r = synthetic_entries(head, workdir, Seq::empty(), facts, commits);
            if head is Some && workdir is Some && workdir->0.dirty_count != 0 {
                r.len() == 1 && r[0].synthetic_wt_name is None && stands_for_changes(
                    r[0],
                    head->0,
                    commits,
                    workdir->0.mtime,
                    workdir->0.stats,
                )
            } else {
                r.len() == 0
            }
        }),
{
}

/// An entry says how many files changed: the number where it is not one, and one file otherwise.
pub proof fn entries_tell_how_many_files_changed(
    wt: WorktreeInfo,
    head: Oid,
    count: nat,
    parent_time: i64,
    mtime: Option<i64>,
    stats: (usize, usize),
)
    requires
        wt.head_oid is Some,
        wt.dirty_file_count is Some,
    ensures
        count != 1 ==> workdir_entry(head, count, parent_time, mtime, stats).summary
            == "Uncommitted changes: "@ + (text::dec(count) + " files"@),
        workdir_entry(head, 1, parent_time, mtime, stats).summary == "Uncommitted changes: "@
            + "1 file"@,
        ({
            let n = wt.dirty_file_count->0;
            worktree_entry(wt, parent_time, mtime, stats)->0.summary == "Uncommitted changes ("@
                + wt.name@ + "): "@ + (if n == 1 {
                "1 file"@
            } else {
                text::dec(n as nat) + " files"@
            })
        }),
{
}

/// A state is described exactly where an operation is in progress, and no two states have the
/// same description.
pub proof fn states_are_told_apart(a: RepositoryState, b: RepositoryState)
    ensures
        state_label(a) is None <==> a == RepositoryState::Clean,
        state_label(a) == state_label(b) ==> a == b,
{
    reveal_strlit("MERGE IN PROGRESS");
    reveal_strlit("REVERT IN PROGRESS");
    reveal_strlit("REVERT SEQUENCE IN PROGRESS");
    reveal_strlit("CHERRY-PICK IN PROGRESS");
    reveal_strlit("CHERRY-PICK SEQUENCE IN PROGRESS");
    reveal_strlit("BISECT IN PROGRESS");
    reveal_strlit("REBASE IN PROGRESS");
    reveal_strlit("INTERACTIVE REBASE IN PROGRESS");
    reveal_strlit("REBASE-MERGE IN PROGRESS");
    reveal_strlit("APPLY MAILBOX IN PROGRESS");
    reveal_strlit("APPLY MAILBOX/REBASE IN PROGRESS");
    assert("MERGE IN PROGRESS"@.len() == 17);
    assert("REVERT IN PROGRESS"@.len() == 18);
    assert("REVERT SEQUENCE IN PROGRESS"@.len() == 27);
    assert("CHERRY-PICK IN PROGRESS"@.len() == 23);
    assert("CHERRY-PICK SEQUENCE IN PROGRESS"@.len() == 32);
    assert("BISECT IN PROGRESS"@.len() == 18);
    assert("REBASE IN PROGRESS"@.len() == 18);
    assert("INTERACTIVE REBASE IN PROGRESS"@.len() == 30);
    assert("REBASE-MERGE IN PROGRESS"@.len() == 24);
    assert("APPLY MAILBOX IN PROGRESS"@.len() == 25);
    assert("APPLY MAILBOX/REBASE IN PROGRESS"@.len() == 32);
    assert("REVERT IN PROGRESS"@[2] == 'V');
    assert("BISECT IN PROGRESS"@[2] == 'S');
    assert("REBASE IN PROGRESS"@[2] == 'B');
    assert("CHERRY-PICK SEQUENCE IN PROGRESS"@[0] == 'C');
    assert("APPLY MAILBOX/REBASE IN PROGRESS"@[0] == 'A');
    if state_label(a) == state_label(b) && a != RepositoryState::Clean {
        let x = state_label(a)->0;
        let y = state_label(b)->0;
        assert(x == y);
        assert(x.len() == y.len() && x[2] == y[2] && x[0] == y[0]);
    }
}

proof fn lemma_little_endian_tells_apart(m: nat, n: nat, count: nat, bound: nat)
    requires
        m < bound,
        n < bound,
        bound == vstd::arithmetic::power::pow(256, count),
        little_endian(m, count) == little_endian(n, count),
    ensures
        m == n,
    decreases count,
{
    vstd::arithmetic::power::lemma_pow0(256);
    if count > 0 {
        let c = (count - 1) as nat;
        vstd::arithmetic::power::lemma_pow_positive(256, c);
        let p = vstd::arithmetic::power::pow(256, c) as nat;
        reveal(vstd::arithmetic::power::pow);
        assert(bound == 256 * p);
        let a = little_endian(m, count);
        let b = little_endian(n, count);
        assert(a[0] == (m % 256) as u8 && b[0] == (n % 256) as u8);
        assert(a.skip(1) =~= little_endian(m / 256, c));
        assert(b.skip(1) =~= little_endian(n / 256, c));
        assert(m / 256 < p && n / 256 < p);
        lemma_little_endian_tells_apart(m / 256, n / 256, c, p);
    }
}

/// Worktrees whose names are hashed differently have entries with different ids.
pub proof fn worktrees_have_entries_of_their_own(a: Seq<char>, b: Seq<char>)
    requires
        name_hash(a) != name_hash(b),
    ensures
        Oid::of(worktree_sentinel(a)) != Oid::of(worktree_sentinel(b)),
{
    let x = worktree_sentinel(a);
    let y = worktree_sentinel(b);
    let (m, n) = (name_hash(a) as nat, name_hash(b) as nat);
    lemma_little_endian_len(m, 8);
    lemma_little_endian_len(n, 8);
    if Oid::of(x) == Oid::of(y) {
        crate::oid::bytes_tell_ids_apart(x, y);
        assert(x.subrange(2, 10) =~= little_endian(m, 8));
        assert(y.subrange(2, 10) =~= little_endian(n, 8));
        reveal_with_fuel(vstd::arithmetic::power::pow, 9);
        assert(vstd::arithmetic::power::pow(256, 8) == 0x1_0000_0000_0000_0000);
        lemma_little_endian_tells_apart(m, n, 8, 0x1_0000_0000_0000_0000);
    }
}

} // verus!
