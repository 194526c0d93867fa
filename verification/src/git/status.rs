//! The status of the working directory: which files are staged, changed, new or in conflict.

use crate::order::{self, sort, Order};
use crate::text::{self, same, text_before};
use vstd::prelude::*;
use vstd::string::*;

verus! {

/// Kind of file status change
#[derive(Clone, Copy, Debug, PartialEq, Eq, Structural)]
pub enum FileStatusKind {
    New,
    Modified,
    Deleted,
    Renamed,
    TypeChange,
    Conflicted,
}

/// Status of a single file
#[derive(Debug)]
pub struct FileStatus {
    pub path: String,
    pub status: FileStatusKind,
}

/// A file's status by its views.
pub struct FileStatusView {
    pub path: Seq<char>,
    pub status: FileStatusKind,
}

impl View for FileStatus {
    type V = FileStatusView;

    open spec fn view(&self) -> FileStatusView {
        FileStatusView { path: self.path@, status: self.status }
    }
}

/// Working directory status
#[derive(Debug)]
pub struct WorkingDirStatus {
    pub staged: Vec<FileStatus>,
    pub unstaged: Vec<FileStatus>,
    /// Files not yet known to git
    pub untracked: Vec<FileStatus>,
    pub conflicted: Vec<FileStatus>,
}

/// A working directory's status by its views.
#[verifier::ext_equal]
pub struct WorkingDirView {
    pub staged: Seq<FileStatusView>,
    pub unstaged: Seq<FileStatusView>,
    pub untracked: Seq<FileStatusView>,
    pub conflicted: Seq<FileStatusView>,
}

impl View for WorkingDirStatus {
    type V = WorkingDirView;

    open spec fn view(&self) -> WorkingDirView {
        WorkingDirView {
            staged: text::views(self.staged@),
            unstaged: text::views(self.unstaged@),
            untracked: text::views(self.untracked@),
            conflicted: text::views(self.conflicted@),
        }
    }
}

impl WorkingDirView {
    /// How many files the lists name in all.
    pub open spec fn total(self) -> nat {
        self.staged.len() + self.unstaged.len() + self.untracked.len() + self.conflicted.len()
    }

    /// A status that names no file.
    pub open spec fn clean() -> WorkingDirView {
        WorkingDirView {
            staged: Seq::empty(),
            unstaged: Seq::empty(),
            untracked: Seq::empty(),
            conflicted: Seq::empty(),
        }
    }
}

impl Default for WorkingDirStatus {
    fn default() -> (r: Self)
        ensures
            r@ == WorkingDirView::clean(),
    {
        let r = WorkingDirStatus {
            staged: Vec::new(),
            unstaged: Vec::new(),
            untracked: Vec::new(),
            conflicted: Vec::new(),
        };
        assert(r@ =~= WorkingDirView::clean());
        r
    }
}

impl WorkingDirStatus {
    pub fn total_files(&self) -> (r: usize)
        requires
            self@.total() <= usize::MAX,
        ensures
            r == self@.total(),
    {
        self.staged.len() + self.unstaged.len() + self.untracked.len() + self.conflicted.len()
    }
}

/// What git reports of a file: how the index differs from HEAD, and the working directory
/// from the index.
#[derive(Clone, Copy, Debug)]
pub struct StatusFlags {
    pub index_new: bool,
    pub index_modified: bool,
    pub index_deleted: bool,
    pub index_renamed: bool,
    pub index_typechange: bool,
    pub wt_new: bool,
    pub wt_modified: bool,
    pub wt_deleted: bool,
    pub wt_renamed: bool,
    pub wt_typechange: bool,
    pub ignored: bool,
    pub conflicted: bool,
}

impl StatusFlags {
    /// Whether the index differs from HEAD.
    pub open spec fn in_index(self) -> bool {
        self.index_new || self.index_modified || self.index_deleted || self.index_renamed
            || self.index_typechange
    }

    /// Whether a file that git knows differs from the index.
    pub open spec fn in_workdir(self) -> bool {
        self.wt_modified || self.wt_deleted || self.wt_renamed || self.wt_typechange
    }
}

/// How the index differs from HEAD.
pub open spec fn index_kind(f: StatusFlags) -> FileStatusKind {
    if f.index_new {
        FileStatusKind::New
    } else if f.index_modified {
        FileStatusKind::Modified
    } else if f.index_deleted {
        FileStatusKind::Deleted
    } else if f.index_renamed {
        FileStatusKind::Renamed
    } else {
        FileStatusKind::TypeChange
    }
}

/// How the working directory differs from the index.
pub open spec fn wt_kind(f: StatusFlags) -> FileStatusKind {
    if f.wt_new {
        FileStatusKind::New
    } else if f.wt_modified {
        FileStatusKind::Modified
    } else if f.wt_deleted {
        FileStatusKind::Deleted
    } else if f.wt_renamed {
        FileStatusKind::Renamed
    } else {
        FileStatusKind::TypeChange
    }
}

impl FileStatusKind {
    pub fn from_index_status(f: StatusFlags) -> (r: Self)
        ensures
            r == index_kind(f),
    {
        if f.index_new {
            FileStatusKind::New
        } else if f.index_modified {
            FileStatusKind::Modified
        } else if f.index_deleted {
            FileStatusKind::Deleted
        } else if f.index_renamed {
            FileStatusKind::Renamed
        } else {
            FileStatusKind::TypeChange
        }
    }

    pub fn from_wt_status(f: StatusFlags) -> (r: Self)
        ensures
            r == wt_kind(f),
    {
        if f.wt_new {
            FileStatusKind::New
        } else if f.wt_modified {
            FileStatusKind::Modified
        } else if f.wt_deleted {
            FileStatusKind::Deleted
        } else if f.wt_renamed {
            FileStatusKind::Renamed
        } else {
            FileStatusKind::TypeChange
        }
    }
}

/// What git reports of one path.
pub struct StatusEntry {
    pub path: Option<String>,
    pub flags: StatusFlags,
}

/// The path of an entry, empty where it is not readable.
pub open spec fn entry_path(e: StatusEntry) -> Seq<char> {
    match e.path {
        Some(p) => p@,
        None => Seq::empty(),
    }
}

/// The status with an entry filed. A conflict counts alone; else what the index holds is
/// staged, and the rest is new or changed.
pub open spec fn filed(s: WorkingDirView, e: StatusEntry) -> WorkingDirView {
    let path = entry_path(e);
    let f = e.flags;
    if f.conflicted {
        WorkingDirView {
            conflicted: s.conflicted.push(
                FileStatusView { path, status: FileStatusKind::Conflicted },
            ),
            ..s
        }
    } else {
        WorkingDirView {
            staged: if f.in_index() {
                s.staged.push(FileStatusView { path, status: index_kind(f) })
            } else {
                s.staged
            },
            untracked: if f.wt_new {
                s.untracked.push(FileStatusView { path, status: FileStatusKind::New })
            } else {
                s.untracked
            },
            unstaged: if !f.wt_new && f.in_workdir() {
                s.unstaged.push(FileStatusView { path, status: wt_kind(f) })
            } else {
                s.unstaged
            },
            conflicted: s.conflicted,
        }
    }
}

/// The status with all entries filed.
pub open spec fn status_of(entries: Seq<StatusEntry>) -> WorkingDirView
    decreases entries.len(),
{
    if entries.len() == 0 {
        WorkingDirView::clean()
    } else {
        filed(status_of(entries.drop_last()), entries.last())
    }
}

fn push_file(list: &mut Vec<FileStatus>, path: &Option<String>, status: FileStatusKind)
    ensures
        text::views(final(list)@) == text::views(old(list)@).push(
            (FileStatusView {
                path: match *path {
                    Some(p) => p@,
                    None => Seq::empty(),
                },
                status,
            }),
        ),
{
    let path = match path {
        Some(p) => p.clone(),
        None => String::new(),
    };
    let f = FileStatus { path, status };
    let ghost before = list@;
    list.push(f);
    assert(text::views(list@) =~= text::views(before).push(f@));
}

/// Build a `WorkingDirStatus` from what git reports.
pub fn working_dir_status_from_statuses(statuses: &Vec<StatusEntry>) -> (r: WorkingDirStatus)
    ensures
        r@ == status_of(statuses@),
{
    let mut staged: Vec<FileStatus> = Vec::new();
    let mut unstaged: Vec<FileStatus> = Vec::new();
    let mut untracked: Vec<FileStatus> = Vec::new();
    let mut conflicted: Vec<FileStatus> = Vec::new();
    let mut i: usize = 0;
    proof {
        assert(text::views(staged@) =~= Seq::empty());
        assert(statuses@.take(0) =~= Seq::empty());
    }
    while i < statuses.len()
        invariant
            i <= statuses.len(),
            status_of(statuses@.take(i as int)) == (WorkingDirView {
                staged: text::views(staged@),
                unstaged: text::views(unstaged@),
                untracked: text::views(untracked@),
                conflicted: text::views(conflicted@),
            }),
        decreases statuses.len() - i,
    {
        let e = &statuses[i];
        let f = e.flags;
        proof {
            assert(statuses@.take(i + 1).drop_last() =~= statuses@.take(i as int));
            assert(statuses@.take(i + 1).last() == *e);
        }
        if f.conflicted {
            push_file(&mut conflicted, &e.path, FileStatusKind::Conflicted);
        } else {
            if f.index_new || f.index_modified || f.index_deleted || f.index_renamed
                || f.index_typechange {
                push_file(&mut staged, &e.path, FileStatusKind::from_index_status(f));
            }
            if f.wt_new {
                push_file(&mut untracked, &e.path, FileStatusKind::New);
            } else if f.wt_modified || f.wt_deleted || f.wt_renamed || f.wt_typechange {
                push_file(&mut unstaged, &e.path, FileStatusKind::from_wt_status(f));
            }
        }
        i = i + 1;
    }
    assert(statuses@.take(statuses@.len() as int) =~= statuses@);
    WorkingDirStatus { staged, unstaged, untracked, conflicted }
}

/// How often `path` stands in `list`.
pub open spec fn path_count(list: Seq<FileStatusView>, path: Seq<char>) -> nat
    decreases list.len(),
{
    if list.len() == 0 {
        0
    } else {
        path_count(list.drop_last(), path) + if list.last().path == path {
            1nat
        } else {
            0nat
        }
    }
}

/// How many of `entries` satisfy what is asked for at `path`.
pub open spec fn entry_count(
    entries: Seq<StatusEntry>,
    path: Seq<char>,
    asked: spec_fn(StatusFlags) -> bool,
) -> nat
    decreases entries.len(),
{
    if entries.len() == 0 {
        0
    } else {
        entry_count(entries.drop_last(), path, asked) + if entry_path(entries.last()) == path
            && asked(entries.last().flags) {
            1nat
        } else {
            0nat
        }
    }
}

/// Every path stands in each list as often as git reports it so: in conflict and nowhere
/// else, or staged where the index differs, and new, or changed where it is not new.
pub proof fn files_are_filed_where_they_belong(entries: Seq<StatusEntry>, path: Seq<char>)
    ensures
        path_count(status_of(entries).conflicted, path) == entry_count(
            entries,
            path,
            |f: StatusFlags| f.conflicted,
        ),
        path_count(status_of(entries).staged, path) == entry_count(
            entries,
            path,
            |f: StatusFlags| !f.conflicted && f.in_index(),
        ),
        path_count(status_of(entries).untracked, path) == entry_count(
            entries,
            path,
            |f: StatusFlags| !f.conflicted && f.wt_new,
        ),
        path_count(status_of(entries).unstaged, path) == entry_count(
            entries,
            path,
            |f: StatusFlags| !f.conflicted && !f.wt_new && f.in_workdir(),
        ),
    decreases entries.len(),
{
    if entries.len() > 0 {
        files_are_filed_where_they_belong(entries.drop_last(), path);
        let s = status_of(entries.drop_last());
        let t = status_of(entries);
        assert(t.conflicted.len() > s.conflicted.len() ==> t.conflicted.drop_last()
            =~= s.conflicted);
        assert(t.staged.len() > s.staged.len() ==> t.staged.drop_last() =~= s.staged);
        assert(t.untracked.len() > s.untracked.len() ==> t.untracked.drop_last() =~= s.untracked);
        assert(t.unstaged.len() > s.unstaged.len() ==> t.unstaged.drop_last() =~= s.unstaged);
    }
}

/// What git reports of the index is staged, file by file and in the order of the report: a file
/// that is new there, modified, deleted, renamed or of another type, the first of these that
/// holds being what it is listed as. A file in conflict is not staged.
pub proof fn what_the_index_holds_is_staged(entries: Seq<StatusEntry>)
    ensures
        status_of(entries).staged == entries.filter_map(
            |e: StatusEntry|
                {
                    let path = match e.path {
                        Some(p) => p@,
                        None => Seq::<char>::empty(),
                    };
                    if e.flags.conflicted {
                        None
                    } else if e.flags.index_new {
                        Some(FileStatusView { path, status: FileStatusKind::New })
                    } else if e.flags.index_modified {
                        Some(FileStatusView { path, status: FileStatusKind::Modified })
                    } else if e.flags.index_deleted {
                        Some(FileStatusView { path, status: FileStatusKind::Deleted })
                    } else if e.flags.index_renamed {
                        Some(FileStatusView { path, status: FileStatusKind::Renamed })
                    } else if e.flags.index_typechange {
                        Some(FileStatusView { path, status: FileStatusKind::TypeChange })
                    } else {
                        None
                    }
                },
        ),
    decreases entries.len(),
{
    if entries.len() > 0 {
        what_the_index_holds_is_staged(entries.drop_last());
    }
}

/// What git reports of the working directory is unstaged, file by file and in the order of the
/// report: a file that is modified, deleted, renamed or of another type, the first of these that
/// holds being what it is listed as. A file that is new or in conflict is not among them.
pub proof fn what_the_working_directory_changed_is_unstaged(entries: Seq<StatusEntry>)
    ensures
        status_of(entries).unstaged == entries.filter_map(
            |e: StatusEntry|
                {
                    let path = match e.path {
                        Some(p) => p@,
                        None => Seq::<char>::empty(),
                    };
                    if e.flags.conflicted || e.flags.wt_new {
                        None
                    } else if e.flags.wt_modified {
                        Some(FileStatusView { path, status: FileStatusKind::Modified })
                    } else if e.flags.wt_deleted {
                        Some(FileStatusView { path, status: FileStatusKind::Deleted })
                    } else if e.flags.wt_renamed {
                        Some(FileStatusView { path, status: FileStatusKind::Renamed })
                    } else if e.flags.wt_typechange {
                        Some(FileStatusView { path, status: FileStatusKind::TypeChange })
                    } else {
                        None
                    }
                },
        ),
    decreases entries.len(),
{
    if entries.len() > 0 {
        what_the_working_directory_changed_is_unstaged(entries.drop_last());
    }
}

/// The files that are new in the working directory are untracked, and those in conflict are
/// listed as such, both in the order of the report.
pub proof fn new_files_are_untracked_and_conflicts_are_told(entries: Seq<StatusEntry>)
    ensures
        status_of(entries).untracked == entries.filter_map(
            |e: StatusEntry|
                if !e.flags.conflicted && e.flags.wt_new {
                    Some(
                        FileStatusView {
                            path: match e.path {
                                Some(p) => p@,
                                None => Seq::<char>::empty(),
                            },
                            status: FileStatusKind::New,
                        },
                    )
                } else {
                    None
                },
        ),
        status_of(entries).conflicted == entries.filter_map(
            |e: StatusEntry|
                if e.flags.conflicted {
                    Some(
                        FileStatusView {
                            path: match e.path {
                                Some(p) => p@,
                                None => Seq::<char>::empty(),
                            },
                            status: FileStatusKind::Conflicted,
                        },
                    )
                } else {
                    None
                },
        ),
    decreases entries.len(),
{
    if entries.len() > 0 {
        new_files_are_untracked_and_conflicts_are_told(entries.drop_last());
    }
}

proof fn lemma_filed_lists_grow(entries: Seq<StatusEntry>, k: int)
    requires
        0 <= k <= entries.len(),
    ensures
        ({
            let (s, t) = (status_of(entries.take(k)), status_of(entries));
            &&& s.staged.is_prefix_of(t.staged)
            &&& s.unstaged.is_prefix_of(t.unstaged)
            &&& s.untracked.is_prefix_of(t.untracked)
            &&& s.conflicted.is_prefix_of(t.conflicted)
        }),
    decreases entries.len() - k,
{
    if k == entries.len() {
        assert(entries.take(k) =~= entries);
    } else {
        lemma_filed_lists_grow(entries, k + 1);
        let (s, t) = (status_of(entries.take(k)), status_of(entries.take(k + 1)));
        assert(entries.take(k + 1).drop_last() =~= entries.take(k));
        assert(t == filed(s, entries[k]));
        assert(s.staged =~= t.staged.take(s.staged.len() as int));
        assert(s.unstaged =~= t.unstaged.take(s.unstaged.len() as int));
        assert(s.untracked =~= t.untracked.take(s.untracked.len() as int));
        assert(s.conflicted =~= t.conflicted.take(s.conflicted.len() as int));
        let u = status_of(entries);
        assert(s.staged =~= u.staged.take(s.staged.len() as int));
        assert(s.unstaged =~= u.unstaged.take(s.unstaged.len() as int));
        assert(s.untracked =~= u.untracked.take(s.untracked.len() as int));
        assert(s.conflicted =~= u.conflicted.take(s.conflicted.len() as int));
    }
}

/// Whether `list` names the file at `path` as `kind`.
pub open spec fn lists_as(
    list: Seq<FileStatusView>,
    path: Seq<char>,
    kind: FileStatusKind,
) -> bool {
    list.contains(FileStatusView { path, status: kind })
}

/// No change that git reports is passed over: a file that is in conflict is told as that, and
/// any other is staged for each kind of change that the index holds, unstaged for each that the
/// working directory holds, and untracked where it is new there. Where only one kind is
/// reported, the file is listed as that kind.
pub proof fn no_change_is_passed_over(entries: Seq<StatusEntry>, path: String, k: int)
    requires
        0 <= k < entries.len(),
        entries[k].path == Some(path),
    ensures
        ({
            let f = entries[k].flags;
            let s = status_of(entries);
            &&& f.conflicted ==> lists_as(s.conflicted, path@, FileStatusKind::Conflicted)
            &&& !f.conflicted && f.index_new ==> lists_as(s.staged, path@, FileStatusKind::New)
            &&& !f.conflicted && f.index_modified ==> lists_as(
                s.staged,
                path@,
                FileStatusKind::Modified,
            ) || f.index_new
            &&& !f.conflicted && f.index_deleted ==> lists_as(
                s.staged,
                path@,
                FileStatusKind::Deleted,
            ) || f.index_new || f.index_modified
            &&& !f.conflicted && f.index_renamed ==> lists_as(
                s.staged,
                path@,
                FileStatusKind::Renamed,
            ) || f.index_new || f.index_modified || f.index_deleted
            &&& !f.conflicted && f.index_typechange ==> lists_as(
                s.staged,
                path@,
                FileStatusKind::TypeChange,
            ) || f.index_new || f.index_modified || f.index_deleted || f.index_renamed
            &&& !f.conflicted && f.wt_new ==> lists_as(s.untracked, path@, FileStatusKind::New)
            &&& !f.conflicted && f.wt_modified ==> lists_as(
                s.unstaged,
                path@,
                FileStatusKind::Modified,
            ) || f.wt_new
            &&& !f.conflicted && f.wt_deleted ==> lists_as(
                s.unstaged,
                path@,
                FileStatusKind::Deleted,
            ) || f.wt_new || f.wt_modified
            &&& !f.conflicted && f.wt_renamed ==> lists_as(
                s.unstaged,
                path@,
                FileStatusKind::Renamed,
            ) || f.wt_new || f.wt_modified || f.wt_deleted
            &&& !f.conflicted && f.wt_typechange ==> lists_as(
                s.unstaged,
                path@,
                FileStatusKind::TypeChange,
            ) || f.wt_new || f.wt_modified || f.wt_deleted || f.wt_renamed
        }),
{
    let some = entries.take(k + 1);
    let (s, t) = (status_of(some), status_of(entries));
    assert(some.last() == entries[k]);
    lemma_filed_lists_grow(entries, k + 1);
    lemma_last_is_in_longer(s.staged, t.staged);
    lemma_last_is_in_longer(s.unstaged, t.unstaged);
    lemma_last_is_in_longer(s.untracked, t.untracked);
    lemma_last_is_in_longer(s.conflicted, t.conflicted);
}

proof fn lemma_last_is_in_longer(s: Seq<FileStatusView>, t: Seq<FileStatusView>)
    requires
        s.is_prefix_of(t),
    ensures
        s.len() > 0 ==> t.contains(s.last()),
{
    if s.len() > 0 {
        assert(t[s.len() - 1] == s.last());
    }
}

// ---------------------------------------------------------------------------
// Staged submodule pointers
// ---------------------------------------------------------------------------

/// How a path differs between HEAD and the index.
#[derive(Clone, Copy, Debug, PartialEq, Eq, Structural)]
pub enum DeltaKind {
    Added,
    Deleted,
    Renamed,
    Typechange,
    Conflicted,
    Other,
}

/// One difference between HEAD and the index.
pub struct IndexDelta {
    pub kind: DeltaKind,
    /// Whether the path is a submodule pointer in HEAD.
    pub old_is_gitlink: bool,
    /// Whether the path is a submodule pointer in the index.
    pub new_is_gitlink: bool,
    pub new_path: Option<String>,
    pub old_path: Option<String>,
}

/// Whether a difference is a staged change of a submodule pointer. One that is in conflict is
/// not staged.
pub open spec fn is_staged_gitlink(d: IndexDelta) -> bool {
    d.kind != DeltaKind::Conflicted && (d.old_is_gitlink || d.new_is_gitlink)
}

/// A difference as it is listed.
pub open spec fn delta_status(d: IndexDelta) -> FileStatusView {
    FileStatusView {
        path: match d.new_path {
            Some(p) => p@,
            None => match d.old_path {
                Some(p) => p@,
                None => Seq::empty(),
            },
        },
        status: match d.kind {
            DeltaKind::Added => FileStatusKind::New,
            DeltaKind::Deleted => FileStatusKind::Deleted,
            DeltaKind::Renamed => FileStatusKind::Renamed,
            DeltaKind::Typechange => FileStatusKind::TypeChange,
            _ => FileStatusKind::Modified,
        },
    }
}

/// The staged changes of submodule pointers.
pub open spec fn gitlinks_of(deltas: Seq<IndexDelta>) -> Seq<FileStatusView>
    decreases deltas.len(),
{
    if deltas.len() == 0 {
        Seq::empty()
    } else if is_staged_gitlink(deltas.last()) {
        gitlinks_of(deltas.drop_last()).push(delta_status(deltas.last()))
    } else {
        gitlinks_of(deltas.drop_last())
    }
}

/// Staged submodule-pointer (gitlink) changes — HEAD tree vs index, gitlink entries only.
pub fn staged_gitlinks(deltas: &Vec<IndexDelta>) -> (r: Vec<FileStatus>)
    ensures
        text::views(r@) == gitlinks_of(deltas@),
{
    let mut r: Vec<FileStatus> = Vec::new();
    let mut i: usize = 0;
    assert(text::views(r@) =~= gitlinks_of(deltas@.take(0)));
    while i < deltas.len()
        invariant
            i <= deltas.len(),
            text::views(r@) == gitlinks_of(deltas@.take(i as int)),
        decreases deltas.len() - i,
    {
        let d = &deltas[i];
        proof {
            assert(deltas@.take(i + 1).drop_last() =~= deltas@.take(i as int));
            assert(deltas@.take(i + 1).last() == *d);
        }
        if d.kind != DeltaKind::Conflicted && (d.old_is_gitlink || d.new_is_gitlink) {
            let path = match &d.new_path {
                Some(p) => p.clone(),
                None => match &d.old_path {
                    Some(p) => p.clone(),
                    None => String::new(),
                },
            };
            let status = match d.kind {
                DeltaKind::Added => FileStatusKind::New,
                DeltaKind::Deleted => FileStatusKind::Deleted,
                DeltaKind::Renamed => FileStatusKind::Renamed,
                DeltaKind::Typechange => FileStatusKind::TypeChange,
                _ => FileStatusKind::Modified,
            };
            let f = FileStatus { path, status };
            let ghost before = r@;
            r.push(f);
            assert(text::views(r@) =~= text::views(before).push(f@));
        }
        i = i + 1;
    }
    assert(deltas@.take(deltas@.len() as int) =~= deltas@);
    r
}

/// The order of paths.
pub struct ByPath;

impl Order<FileStatus> for ByPath {
    open spec fn before(a: FileStatusView, b: FileStatusView) -> bool {
        text::before_text(a.path, b.path)
    }

    proof fn is_order(a: FileStatusView, b: FileStatusView, c: FileStatusView) {
        text::lemma_text_order(a.path, b.path, c.path);
    }

    fn is_before(a: &FileStatus, b: &FileStatus) -> (r: bool) {
        text_before(a.path.as_str(), b.path.as_str())
    }
}

/// `list` without the entries that follow one with the same path.
pub open spec fn without_repeats(list: Seq<FileStatusView>) -> Seq<FileStatusView>
    decreases list.len(),
{
    if list.len() <= 1 {
        list
    } else if list.last().path == list[list.len() - 2].path {
        without_repeats(list.drop_last())
    } else {
        without_repeats(list.drop_last()).push(list.last())
    }
}

/// The staged files with submodule pointers among them.
pub open spec fn with_gitlinks(
    staged: Seq<FileStatusView>,
    gitlinks: Seq<FileStatusView>,
) -> Seq<FileStatusView> {
    if gitlinks.len() == 0 {
        staged
    } else {
        without_repeats(order::sorted::<FileStatus, ByPath>(staged + gitlinks))
    }
}

fn drop_repeats(list: Vec<FileStatus>) -> (r: Vec<FileStatus>)
    ensures
        text::views(r@) == without_repeats(text::views(list@)),
{
    let ghost all = text::views(list@);
    let mut r: Vec<FileStatus> = Vec::new();
    assert(text::views(r@) =~= without_repeats(all.take(0)));
    let mut last: String = String::new();
    for f in it: list
        invariant
            it.seq() == list@,
            all == text::views(list@),
            text::views(r@) == without_repeats(all.take(it.index() as int)),
            it.index() > 0 ==> r.len() > 0 && last@ == all[it.index() - 1].path,
            it.index() == 0 ==> r.len() == 0,
    {
        let ghost n = it.index() as int;
        let ghost before = r@;
        proof {
            assert(all.take(n + 1).drop_last() =~= all.take(n));
            assert(all.take(n + 1).last() == list@[n]@);
        }
        if r.len() == 0 || !same(last.as_str(), f.path.as_str()) {
            last = f.path.clone();
            r.push(f);
            assert(text::views(r@) =~= text::views(before).push(list@[n]@));
            proof {
                if n == 0 {
                    assert(text::views(r@) =~= all.take(1));
                }
            }
        }
    }
    assert(all.take(all.len() as int) =~= all);
    r
}

/// Merge staged gitlink entries into `status.staged`, keeping the list
/// path-sorted and free of duplicates.
pub fn append_staged_gitlinks(status: &mut WorkingDirStatus, gitlinks: Vec<FileStatus>)
    ensures
        final(status)@ == (WorkingDirView {
            staged: with_gitlinks(old(status)@.staged, text::views(gitlinks@)),
            ..old(status)@
        }),
{
    if gitlinks.len() == 0 {
        return;
    }
    let mut more = gitlinks;
    let mut all: Vec<FileStatus> = Vec::new();
    let ghost a = status.staged@;
    all.append(&mut status.staged);
    all.append(&mut more);
    assert(text::views(all@) =~= text::views(a) + text::views(gitlinks@));
    status.staged = drop_repeats(sort::<FileStatus, ByPath>(all));
}

proof fn lemma_without_repeats(list: Seq<FileStatusView>)
    requires
        order::in_order::<FileStatus, ByPath>(list),
    ensures
        list.len() > 0 ==> without_repeats(list).len() > 0 && without_repeats(list).last().path
            == list.last().path,
        forall|i: int, j: int|
            0 <= i < j < without_repeats(list).len() ==> text::before_text(
                (#[trigger] without_repeats(list)[i]).path,
                (#[trigger] without_repeats(list)[j]).path,
            ),
        forall|i: int|
            0 <= i < without_repeats(list).len() ==> list.contains(
                #[trigger] without_repeats(list)[i],
            ),
    decreases list.len(),
{
    if list.len() > 1 {
        let t = list.drop_last();
        assert forall|i: int, j: int| 0 <= i < j < t.len() implies !ByPath::before(
            #[trigger] t[j],
            #[trigger] t[i],
        ) by {
            assert(t[i] == list[i] && t[j] == list[j]);
        }
        lemma_without_repeats(t);
        let r = without_repeats(t);
        let now = without_repeats(list);
        assert forall|i: int| 0 <= i < now.len() implies list.contains(#[trigger] now[i]) by {
            if i < r.len() {
                assert(t.contains(r[i]));
                let k = choose|k: int| 0 <= k < t.len() && t[k] == r[i];
                assert(list[k] == r[i]);
            } else {
                assert(list[list.len() - 1] == list.last());
            }
        }
        if list.last().path != list[list.len() - 2].path {
            let x = list.last();
            let y = list[list.len() - 2];
            text::text_order_is_strict_and_total(y.path, x.path);
            assert(!ByPath::before(list[list.len() - 1], list[list.len() - 2]));
            assert(text::before_text(y.path, x.path));
            assert forall|i: int, j: int| 0 <= i < j < now.len() implies text::before_text(
                (#[trigger] now[i]).path,
                (#[trigger] now[j]).path,
            ) by {
                if j == r.len() {
                    if i < r.len() - 1 {
                        assert(text::before_text(r[i].path, r[r.len() - 1].path));
                        text::text_order_is_transitive(r[i].path, y.path, x.path);
                    }
                }
            }
        }
    } else if list.len() == 1 {
        assert(list.contains(list[0]));
    }
}

/// After submodule pointers were merged in, the staged files stand in the order of their
/// paths and no path occurs twice.
pub proof fn staged_files_are_sorted_without_repeats(
    staged: Seq<FileStatusView>,
    gitlinks: Seq<FileStatusView>,
)
    requires
        gitlinks.len() > 0,
    ensures
        forall|i: int, j: int|
            0 <= i < j < with_gitlinks(staged, gitlinks).len() ==> text::before_text(
                (#[trigger] with_gitlinks(staged, gitlinks)[i]).path,
                (#[trigger] with_gitlinks(staged, gitlinks)[j]).path,
            ),
{
    order::sorting_keeps_values_and_orders_them::<FileStatus, ByPath>(staged + gitlinks);
    lemma_without_repeats(order::sorted::<FileStatus, ByPath>(staged + gitlinks));
}

/// Whether some entry of `list` names `path`.
pub open spec fn names(list: Seq<FileStatusView>, path: Seq<char>) -> bool {
    exists|i: int| 0 <= i < list.len() && (#[trigger] list[i]).path == path
}

proof fn lemma_paths_are_kept(list: Seq<FileStatusView>, path: Seq<char>)
    requires
        names(list, path),
    ensures
        names(without_repeats(list), path),
    decreases list.len(),
{
    if list.len() > 1 {
        let t = list.drop_last();
        let r = without_repeats(t);
        let k = choose|k: int| 0 <= k < list.len() && (#[trigger] list[k]).path == path;
        if k < t.len() || list.last().path == t.last().path {
            let at = if k < t.len() {
                k
            } else {
                t.len() - 1
            };
            assert(t[at].path == path);
            lemma_paths_are_kept(t, path);
            let j = choose|j: int| 0 <= j < r.len() && (#[trigger] r[j]).path == path;
            assert(without_repeats(list)[j].path == path);
        } else {
            assert(without_repeats(list)[r.len() as int].path == path);
        }
    }
}

proof fn lemma_gitlinks_are_listed(deltas: Seq<IndexDelta>, i: int)
    requires
        0 <= i < deltas.len(),
        is_staged_gitlink(deltas[i]),
    ensures
        names(gitlinks_of(deltas), delta_status(deltas[i]).path),
    decreases deltas.len(),
{
    let rest = gitlinks_of(deltas.drop_last());
    if i < deltas.len() - 1 {
        let path = delta_status(deltas[i]).path;
        assert(deltas.drop_last()[i] == deltas[i]);
        lemma_gitlinks_are_listed(deltas.drop_last(), i);
        let j = choose|j: int| 0 <= j < rest.len() && (#[trigger] rest[j]).path == path;
        assert(gitlinks_of(deltas)[j].path == path);
    } else {
        assert(gitlinks_of(deltas)[rest.len() as int] == delta_status(deltas[i]));
    }
}

/// The staged changes of submodule pointers are those that concern a pointer on either side and
/// are not in conflict, in their order, each under its new path or else its old one.
pub proof fn changed_pointers_are_listed(deltas: Seq<IndexDelta>)
    ensures
        gitlinks_of(deltas) == deltas.filter_map(
            |d: IndexDelta|
                if d.kind == DeltaKind::Conflicted || !(d.old_is_gitlink || d.new_is_gitlink) {
                    None
                } else {
                    Some(
                        FileStatusView {
                            path: match (d.new_path, d.old_path) {
                                (Some(p), _) => p@,
                                (None, Some(p)) => p@,
                                (None, None) => Seq::<char>::empty(),
                            },
                            status: match d.kind {
                                DeltaKind::Added => FileStatusKind::New,
                                DeltaKind::Deleted => FileStatusKind::Deleted,
                                DeltaKind::Renamed => FileStatusKind::Renamed,
                                DeltaKind::Typechange => FileStatusKind::TypeChange,
                                DeltaKind::Conflicted | DeltaKind::Other =>
                                    FileStatusKind::Modified,
                            },
                        },
                    )
                },
        ),
    decreases deltas.len(),
{
    if deltas.len() > 0 {
        changed_pointers_are_listed(deltas.drop_last());
    }
}

/// Merging submodule pointers in invents nothing: what is staged then was staged or is one of
/// the pointers. Without pointers the list stays as it is, in its order.
pub proof fn merging_pointers_invents_nothing(
    staged: Seq<FileStatusView>,
    gitlinks: Seq<FileStatusView>,
    i: int,
)
    ensures
        gitlinks.len() == 0 ==> with_gitlinks(staged, gitlinks) == staged,
        0 <= i < with_gitlinks(staged, gitlinks).len() ==> staged.contains(
            with_gitlinks(staged, gitlinks)[i],
        ) || gitlinks.contains(with_gitlinks(staged, gitlinks)[i]),
{
    if 0 <= i < with_gitlinks(staged, gitlinks).len() {
        let x = with_gitlinks(staged, gitlinks)[i];
        if gitlinks.len() == 0 {
            assert(staged[i] == x);
        } else {
            let all = staged + gitlinks;
            let sorted = order::sorted::<FileStatus, ByPath>(all);
            order::sorting_keeps_values_and_orders_them::<FileStatus, ByPath>(all);
            lemma_without_repeats(sorted);
            assert(sorted.contains(x));
            broadcast use vstd::seq_lib::group_to_multiset_ensures;

            assert(all.to_multiset().contains(x));
            assert(all.contains(x));
            let k = choose|k: int| 0 <= k < all.len() && all[k] == x;
            if k < staged.len() {
                assert(staged[k] == x);
            } else {
                assert(gitlinks[k - staged.len()] == x);
            }
        }
    }
}

/// No path is lost when submodule pointers are merged in: a file that was staged still is.
pub proof fn staged_files_stay_staged(
    staged: Seq<FileStatusView>,
    gitlinks: Seq<FileStatusView>,
    path: Seq<char>,
)
    requires
        names(staged, path) || names(gitlinks, path),
    ensures
        names(with_gitlinks(staged, gitlinks), path),
{
    if gitlinks.len() > 0 {
        let all = staged + gitlinks;
        let sorted = order::sorted::<FileStatus, ByPath>(all);
        order::sorting_keeps_values_and_orders_them::<FileStatus, ByPath>(all);
        let k = if names(staged, path) {
            choose|k: int| 0 <= k < staged.len() && (#[trigger] staged[k]).path == path
        } else {
            let k = choose|k: int| 0 <= k < gitlinks.len() && (#[trigger] gitlinks[k]).path == path;
            staged.len() + k
        };
        assert(all[k].path == path);
        broadcast use vstd::seq_lib::group_to_multiset_ensures;

        assert(all.contains(all[k]));
        assert(sorted.to_multiset().contains(all[k]));
        assert(sorted.contains(all[k]));
        let j = choose|j: int| 0 <= j < sorted.len() && sorted[j] == all[k];
        assert(sorted[j].path == path);
        lemma_paths_are_kept(sorted, path);
    }
}

proof fn lemma_first_of_a_path_stays(list: Seq<FileStatusView>, m: int)
    requires
        0 <= m < list.len(),
        m == 0 || list[m - 1].path != list[m].path,
    ensures
        without_repeats(list).contains(list[m]),
    decreases list.len(),
{
    let now = without_repeats(list);
    if list.len() == 1 {
        assert(now[0] == list[m]);
    } else if m < list.len() - 1 {
        let t = list.drop_last();
        assert(t[m] == list[m]);
        if m > 0 {
            assert(t[m - 1] == list[m - 1]);
        }
        lemma_first_of_a_path_stays(t, m);
        let r = without_repeats(t);
        let k = choose|k: int| 0 <= k < r.len() && r[k] == list[m];
        assert(now[k] == list[m]);
    } else {
        assert(now[now.len() - 1] == list[m]);
    }
}

/// The first place of a path in a list.
proof fn lemma_first_place(list: Seq<FileStatusView>, path: Seq<char>) -> (m: int)
    requires
        names(list, path),
    ensures
        0 <= m < list.len(),
        list[m].path == path,
        forall|i: int| 0 <= i < m ==> (#[trigger] list[i]).path != path,
    decreases list.len(),
{
    let t = list.drop_last();
    if names(t, path) {
        let m = lemma_first_place(t, path);
        assert(t[m] == list[m]);
        assert forall|i: int| 0 <= i < m implies (#[trigger] list[i]).path != path by {
            assert(t[i].path != path);
        }
        m
    } else {
        let k = choose|k: int| 0 <= k < list.len() && (#[trigger] list[k]).path == path;
        assert forall|i: int| 0 <= i < list.len() - 1 implies (#[trigger] list[i]).path
            != path by {
            assert(t[i] == list[i]);
        }
        list.len() - 1
    }
}

/// Where a file is staged and a pointer has its path, the file stays listed as it was staged.
pub proof fn staged_files_keep_their_kind(
    staged: Seq<FileStatusView>,
    gitlinks: Seq<FileStatusView>,
    k: int,
)
    requires
        0 <= k < staged.len(),
        forall|i: int| 0 <= i < k ==> (#[trigger] staged[i]).path != staged[k].path,
    ensures
        with_gitlinks(staged, gitlinks).contains(staged[k]),
{
    if gitlinks.len() == 0 {
        assert(with_gitlinks(staged, gitlinks)[k] == staged[k]);
    } else {
        let x = staged[k];
        let all = staged + gitlinks;
        let sorted = order::sorted::<FileStatus, ByPath>(all);
        let alike = |y: FileStatusView| !ByPath::before(x, y) && !ByPath::before(y, x);
        assert forall|y: FileStatusView| #[trigger] alike(y) <==> y.path == x.path by {
            text::text_order_is_strict_and_total(x.path, y.path);
            text::text_order_is_strict_and_total(x.path, x.path);
        }
        assert(all[k] == x);
        order::sorting_keeps_the_order_of_what_is_alike::<FileStatus, ByPath>(all, x);
        order::lemma_first_that_passes(all, alike, k);
        order::sorting_keeps_values_and_orders_them::<FileStatus, ByPath>(all);
        broadcast use vstd::seq_lib::group_to_multiset_ensures;

        assert(all.contains(x));
        assert(sorted.to_multiset().contains(x));
        assert(sorted.contains(x));
        let j = choose|j: int| 0 <= j < sorted.len() && sorted[j] == x;
        assert(sorted[j].path == x.path);
        let m = lemma_first_place(sorted, x.path);
        assert forall|i: int| 0 <= i < m implies !alike(#[trigger] sorted[i]) by {
            assert(sorted[i].path != x.path);
        }
        order::lemma_first_that_passes(sorted, alike, m);
        assert(sorted[m] == x);
        if m > 0 {
            assert(sorted[m - 1].path != x.path);
        }
        lemma_first_of_a_path_stays(sorted, m);
    }
}

/// A change of a submodule pointer that is in the index shows among the staged files.
pub proof fn staged_pointers_are_visible(
    staged: Seq<FileStatusView>,
    deltas: Seq<IndexDelta>,
    i: int,
)
    requires
        0 <= i < deltas.len(),
        is_staged_gitlink(deltas[i]),
    ensures
        names(with_gitlinks(staged, gitlinks_of(deltas)), delta_status(deltas[i]).path),
{
    lemma_gitlinks_are_listed(deltas, i);
    staged_files_stay_staged(staged, gitlinks_of(deltas), delta_status(deltas[i]).path);
}

/// A submodule pointer that is in conflict is not staged: it adds nothing to the staged files.
pub proof fn pointers_in_conflict_are_not_staged(deltas: Seq<IndexDelta>, i: int)
    requires
        0 <= i < deltas.len(),
        deltas[i].kind == DeltaKind::Conflicted,
    ensures
        gitlinks_of(deltas) == gitlinks_of(deltas.remove(i)),
    decreases deltas.len(),
{
    if i < deltas.len() - 1 {
        let rest = deltas.drop_last();
        assert(rest[i] == deltas[i]);
        pointers_in_conflict_are_not_staged(rest, i);
        assert(deltas.remove(i).drop_last() =~= rest.remove(i));
        assert(deltas.remove(i).last() == deltas.last());
    } else {
        assert(deltas.remove(i) =~= deltas.drop_last());
    }
}

/// Get working directory status from what git reports; that of a bare repository is clean.
pub fn status(bare: bool, statuses: &Vec<StatusEntry>, deltas: &Vec<IndexDelta>) -> (r:
    WorkingDirStatus)
    ensures
        r@ == (if bare {
            WorkingDirView::clean()
        } else {
            WorkingDirView {
                staged: with_gitlinks(status_of(statuses@).staged, gitlinks_of(deltas@)),
                ..status_of(statuses@)
            }
        }),
{
    if bare {
        return WorkingDirStatus::default();
    }
    let mut s = working_dir_status_from_statuses(statuses);
    append_staged_gitlinks(&mut s, staged_gitlinks(deltas));
    s
}

// ---------------------------------------------------------------------------
// What to do to stage and unstage
// ---------------------------------------------------------------------------

/// What is done to the index for a file.
#[derive(Clone, Copy, Debug, PartialEq, Eq, Structural)]
pub enum IndexAction {
    /// Put the file as it is on disk into the index.
    AddPath,
    /// Take the file out of the index.
    RemovePath,
    /// Set the file in the index to what HEAD holds.
    ResetToHead,
}

/// How to stage a file: one that is on disk is added, one that is not was deleted.
pub fn stage_file(bare: bool, exists_on_disk: bool) -> (r: Result<IndexAction, String>)
    ensures
        match r {
            Ok(a) => !bare && a == (if exists_on_disk {
                IndexAction::AddPath
            } else {
                IndexAction::RemovePath
            }),
            Err(e) => bare && e@ == "Cannot perform this operation on a bare repository"@,
        },
{
    match crate::git::repo::ensure_not_bare(bare) {
        Ok(_) => {},
        Err(e) => {
            return Err(e);
        },
    }
    if exists_on_disk {
        Ok(IndexAction::AddPath)
    } else {
        Ok(IndexAction::RemovePath)
    }
}

/// How to unstage a file: one that HEAD does not hold is taken out, any other set back.
pub fn unstage_file(bare: bool, flags: Option<StatusFlags>) -> (r: Result<IndexAction, String>)
    ensures
        match r {
            Ok(a) => !bare && a == (if flags is Some && flags->0.index_new {
                IndexAction::RemovePath
            } else {
                IndexAction::ResetToHead
            }),
            Err(e) => bare && e@ == "Cannot perform this operation on a bare repository"@,
        },
{
    match crate::git::repo::ensure_not_bare(bare) {
        Ok(_) => {},
        Err(e) => {
            return Err(e);
        },
    }
    match flags {
        Some(f) => if f.index_new {
            return Ok(IndexAction::RemovePath);
        },
        None => {},
    }
    Ok(IndexAction::ResetToHead)
}

/// How many of the reported entries count as changes: all that are not ignored.
pub open spec fn changes_in(statuses: Seq<StatusEntry>) -> nat
    decreases statuses.len(),
{
    if statuses.len() == 0 {
        0
    } else {
        changes_in(statuses.drop_last()) + if statuses.last().flags.ignored {
            0nat
        } else {
            1nat
        }
    }
}

/// What is ignored is no change, and everything else that is reported is one.
pub proof fn all_but_ignored_files_are_changes(statuses: Seq<StatusEntry>)
    ensures
        changes_in(statuses) == statuses.filter(|e: StatusEntry| !e.flags.ignored).len(),
    decreases statuses.len(),
{
    reveal(Seq::filter);
    if statuses.len() > 0 {
        all_but_ignored_files_are_changes(statuses.drop_last());
    }
}

/// Whether a working directory is dirty, and how many of its files are; one whose status
/// cannot be had (`None`) counts as clean.
pub fn check_dirty(statuses: Option<&Vec<StatusEntry>>) -> (r: (bool, usize))
    ensures
        r.1 == (match statuses {
            Some(s) => changes_in(s@),
            None => 0,
        }),
        r.0 == (r.1 > 0),
{
    let s = match statuses {
        Some(s) => s,
        None => {
            return (false, 0);
        },
    };
    let mut n: usize = 0;
    let mut i: usize = 0;
    while i < s.len()
        invariant
            i <= s.len(),
            n <= i,
            n == changes_in(s@.take(i as int)),
        decreases s.len() - i,
    {
        assert(s@.take(i + 1).drop_last() =~= s@.take(i as int));
        assert(s@.take(i + 1).last() == s@[i as int]);
        if !s[i].flags.ignored {
            n = n + 1;
        }
        i = i + 1;
    }
    assert(s@.take(s@.len() as int) =~= s@);
    (n > 0, n)
}

} // verus!
