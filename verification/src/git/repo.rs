//! What is made of the facts that are read of a repository.

use crate::git::{
    self, BranchTip, CommitInfo, CommitParts, CommitView, SubmoduleInfo, SubmoduleView, TagInfo,
    TagView, WorktreeInfo, WorktreeView,
};
use crate::oid::{self, Oid};
use crate::order::{self, sort, Order};
use crate::text::{self, bytes_in, ends_with, starts_with, strip_prefix, take_bytes};
use crate::text_map::{self, TextMap};
use std::collections::hash_map::DefaultHasher;
use std::hash::Hasher;
use vstd::prelude::*;
use vstd::std_specs::hash::*;
use vstd::string::*;

verus! {

/// Whether a repository has no working directory: it says so itself, or it has none, or the
/// one it has does not lead back to it (`workdir_has_git`).
pub fn is_effectively_bare(is_bare: bool, workdir_has_git: Option<bool>) -> (r: bool)
    ensures
        r == (is_bare || workdir_has_git != Some(true)),
{
    if is_bare {
        return true;
    }
    match workdir_has_git {
        None => true,
        Some(linked) => !linked,
    }
}

/// Return an error if this is a bare repository (no working directory).
pub fn ensure_not_bare(bare: bool) -> (r: Result<(), String>)
    ensures
        r is Ok <==> !bare,
        r is Err ==> r->Err_0@ == "Cannot perform this operation on a bare repository"@,
{
    if bare {
        return Err("Cannot perform this operation on a bare repository".to_owned());
    }
    Ok(())
}

/// Whether a directory gives a repository its name: it is not hidden, and not itself the
/// store of a bare repository.
pub open spec fn names_repo(name: Seq<char>) -> bool {
    !text::begins(name, "."@) && !text::ends(name, ".git"@)
}

/// The first of `names` that names the repository.
pub open spec fn name_from(names: Seq<Option<String>>, i: int) -> Seq<char>
    decreases names.len() - i,
{
    if i >= names.len() {
        "unknown"@
    } else {
        match names[i] {
            Some(n) => if names_repo(n@) {
                n@
            } else {
                name_from(names, i + 1)
            },
            None => name_from(names, i + 1),
        }
    }
}

/// Get the repository name. `names` are those of the directory that the repository's refs
/// and objects live in, of its parent, and so on up to the root; `None` where a directory
/// has no readable name.
pub fn repo_name(names: &Vec<Option<String>>) -> (r: String)
    ensures
        r@ == name_from(names@, 0),
{
    let mut i: usize = 0;
    while i < names.len()
        invariant
            i <= names.len(),
            name_from(names@, 0) == name_from(names@, i as int),
        decreases names.len() - i,
    {
        if let Some(n) = &names[i] {
            if !starts_with(n.as_str(), ".") && !ends_with(n.as_str(), ".git") {
                return n.clone();
            }
        }
        i = i + 1;
    }
    "unknown".to_owned()
}

/// What is read of HEAD.
pub enum HeadFacts {
    /// HEAD cannot be read: it points to a branch that does not exist.
    Missing,
    /// HEAD is on a branch, with its short name where that is readable.
    OnBranch(Option<String>),
    /// HEAD is on no branch, but on a commit where that is known.
    Detached(Option<Oid>),
}

/// The first text of a list of optional texts from `i` on.
pub open spec fn first_text(names: Seq<Option<String>>, i: int) -> Option<Seq<char>>
    decreases names.len() - i,
{
    if i >= names.len() {
        None
    } else {
        match names[i] {
            Some(n) => Some(n@),
            None => first_text(names, i + 1),
        }
    }
}

/// What the current branch is called.
pub open spec fn branch_name(head: HeadFacts, local: Seq<Option<String>>) -> Seq<char> {
    match head {
        HeadFacts::OnBranch(name) => git::or_text(text::opt_view(name), "HEAD"@),
        HeadFacts::Detached(Some(id)) => id.short(),
        HeadFacts::Detached(None) => "HEAD"@,
        HeadFacts::Missing => git::or_text(first_text(local, 0), "HEAD"@),
    }
}

fn find_text(names: &Vec<Option<String>>) -> (r: Option<String>)
    ensures
        text::opt_view(r) == first_text(names@, 0),
{
    let mut i: usize = 0;
    while i < names.len()
        invariant
            i <= names.len(),
            first_text(names@, 0) == first_text(names@, i as int),
        decreases names.len() - i,
    {
        if let Some(n) = &names[i] {
            return Some(n.clone());
        }
        i = i + 1;
    }
    None
}

/// Get the current branch name. `local` are the names of the local branches, `None` where
/// one cannot be read.
pub fn current_branch(head: &HeadFacts, local: &Vec<Option<String>>) -> (r: String)
    ensures
        r@ == branch_name(*head, local@),
{
    match head {
        HeadFacts::OnBranch(name) => match name {
            Some(n) => n.clone(),
            None => "HEAD".to_owned(),
        },
        HeadFacts::Detached(id) => match id {
            Some(id) => id.short_id(),
            None => "HEAD".to_owned(),
        },
        HeadFacts::Missing => match find_text(local) {
            Some(n) => n,
            None => "HEAD".to_owned(),
        },
    }
}

/// The first id of a list of optional ids from `i` on.
pub open spec fn first_id(ids: Seq<Option<Oid>>, i: int) -> Option<Oid>
    decreases ids.len() - i,
{
    if i >= ids.len() {
        None
    } else if ids[i] is Some {
        ids[i]
    } else {
        first_id(ids, i + 1)
    }
}

/// Get the head commit OID (falls back to first local branch tip for bare repos).
pub fn head_oid(target: Option<Oid>, local_tips: &Vec<Option<Oid>>) -> (r: Result<Oid, String>)
    ensures
        match r {
            Ok(id) => target == Some(id) || (target is None && first_id(local_tips@, 0) == Some(
                id,
            )),
            Err(e) => target is None && first_id(local_tips@, 0) is None && e@
                == "No HEAD or branch tips found"@,
        },
{
    if let Some(id) = target {
        return Ok(id);
    }
    let mut i: usize = 0;
    while i < local_tips.len()
        invariant
            i <= local_tips.len(),
            target is None,
            first_id(local_tips@, 0) == first_id(local_tips@, i as int),
        decreases local_tips.len() - i,
    {
        if let Some(id) = local_tips[i] {
            return Ok(id);
        }
        i = i + 1;
    }
    Err("No HEAD or branch tips found".to_owned())
}

/// What is read of a local branch and its upstream: its name, and how many commits it is
/// ahead and behind; `None` where that cannot be had.
pub struct BranchDivergence {
    pub name: Option<String>,
    pub counts: Option<(usize, usize)>,
}

/// The entries for the branches that have an upstream.
pub open spec fn tracked_counts(branches: Seq<BranchDivergence>) -> Seq<(Seq<char>, (usize, usize))>
    decreases branches.len(),
{
    if branches.len() == 0 {
        Seq::empty()
    } else {
        let b = branches.last();
        let rest = tracked_counts(branches.drop_last());
        match (b.name, b.counts) {
            (Some(n), Some(c)) => text_map::put(rest, n@, c),
            _ => rest,
        }
    }
}

/// Get ahead/behind counts for all local branches that have an upstream.
pub fn all_branches_ahead_behind(branches: &Vec<BranchDivergence>) -> (r: TextMap<(usize, usize)>)
    ensures
        r.wf(),
        r.list() == tracked_counts(branches@),
{
    let mut r: TextMap<(usize, usize)> = TextMap::new();
    let mut i: usize = 0;
    while i < branches.len()
        invariant
            i <= branches.len(),
            r.wf(),
            r.list() == tracked_counts(branches@.take(i as int)),
        decreases branches.len() - i,
    {
        let b = &branches[i];
        proof {
            assert(branches@.take(i + 1).drop_last() =~= branches@.take(i as int));
            assert(branches@.take(i + 1).last() == *b);
        }
        if let Some(n) = &b.name {
            if let Some(c) = b.counts {
                r.insert(n.clone(), c);
            }
        }
        i = i + 1;
    }
    assert(branches@.take(branches@.len() as int) =~= branches@);
    r
}

/// What is read of a branch.
pub struct BranchFacts {
    pub name: Option<String>,
    /// The commit it points to, where that can be had.
    pub oid: Option<Oid>,
    pub is_remote: bool,
    pub upstream: Option<String>,
}

/// A branch tip by its views.
pub struct TipView {
    pub name: Seq<char>,
    pub oid: Oid,
    pub is_remote: bool,
    pub is_head: bool,
    pub upstream: Option<Seq<char>>,
}

impl View for BranchTip {
    type V = TipView;

    open spec fn view(&self) -> TipView {
        TipView {
            name: self.name@,
            oid: self.oid,
            is_remote: self.is_remote,
            is_head: self.is_head,
            upstream: text::opt_view(self.upstream),
        }
    }
}

/// The tips of the branches that point to a commit. Only a local branch has an upstream.
pub open spec fn tips_of(head: Option<Oid>, branches: Seq<BranchFacts>) -> Seq<TipView>
    decreases branches.len(),
{
    if branches.len() == 0 {
        Seq::empty()
    } else {
        let b = branches.last();
        let rest = tips_of(head, branches.drop_last());
        match b.oid {
            Some(oid) => rest.push(
                TipView {
                    name: git::or_text(text::opt_view(b.name), ""@),
                    oid,
                    is_remote: b.is_remote,
                    is_head: head == Some(oid),
                    upstream: if b.is_remote {
                        None
                    } else {
                        text::opt_view(b.upstream)
                    },
                },
            ),
            None => rest,
        }
    }
}

/// Get branch tips (for graph labels).
pub fn branch_tips(head: Option<Oid>, branches: &Vec<BranchFacts>) -> (r: Vec<BranchTip>)
    ensures
        text::views(r@) == tips_of(head, branches@),
{
    let mut tips: Vec<BranchTip> = Vec::new();
    let mut i: usize = 0;
    assert(text::views(tips@) =~= tips_of(head, branches@.take(0)));
    while i < branches.len()
        invariant
            i <= branches.len(),
            text::views(tips@) == tips_of(head, branches@.take(i as int)),
        decreases branches.len() - i,
    {
        let b = &branches[i];
        let ghost before = tips@;
        proof {
            assert(branches@.take(i + 1).drop_last() =~= branches@.take(i as int));
            assert(branches@.take(i + 1).last() == *b);
        }
        if let Some(oid) = b.oid {
            let is_head = match head {
                Some(h) => h == oid,
                None => false,
            };
            let tip = BranchTip {
                name: git::text_or(&b.name, ""),
                oid,
                is_remote: b.is_remote,
                is_head,
                upstream: if b.is_remote {
                    None
                } else {
                    b.upstream.clone()
                },
            };
            tips.push(tip);
            assert(text::views(tips@) =~= text::views(before).push(tip@));
        }
        i = i + 1;
    }
    assert(branches@.take(branches@.len() as int) =~= branches@);
    tips
}

/// `name` without the prefixes of a tag.
pub open spec fn tag_name(name: Seq<char>) -> Seq<char>
    decreases name.len(),
{
    if text::begins(name, "refs/tags/"@) && "refs/tags/"@.len() > 0 {
        tag_name(name.skip("refs/tags/"@.len() as int))
    } else {
        name
    }
}

/// The tag called `name` on `oid`.
pub fn tag_info(name: &str, oid: Oid) -> (r: TagInfo)
    ensures
        r.name@ == tag_name(name@),
        r.oid == oid,
{
    let ghost whole = name@;
    let mut name = name.to_owned();
    proof {
        reveal_strlit("refs/tags/");
    }
    loop
        invariant
            "refs/tags/"@.len() > 0,
            tag_name(whole) == tag_name(name@),
        ensures
            tag_name(whole) == name@,
        decreases name@.len(),
    {
        match strip_prefix(name.as_str(), "refs/tags/") {
            Some(rest) => {
                name = rest;
            },
            None => {
                break;
            },
        }
    }
    TagInfo { name, oid }
}

/// What is read of a tag: the object it is on, and the commit that this leads to, where it
/// leads to one.
pub struct TagFacts {
    pub name: String,
    pub oid: Oid,
    pub commit: Option<Oid>,
}

/// The tags: each is on the commit that it leads to.
pub open spec fn tag_views(found: Seq<TagFacts>) -> Seq<TagView> {
    Seq::new(
        found.len(),
        |i: int|
            TagView {
                name: tag_name(found[i].name@),
                oid: match found[i].commit {
                    Some(c) => c,
                    None => found[i].oid,
                },
            },
    )
}

/// Get tags.
pub fn tags(found: &Vec<TagFacts>) -> (r: Vec<TagInfo>)
    ensures
        text::views(r@) == tag_views(found@),
{
    let ghost all = tag_views(found@);
    let mut r: Vec<TagInfo> = Vec::new();
    let mut i: usize = 0;
    assert(text::views(r@) =~= all.take(0));
    while i < found.len()
        invariant
            i <= found.len(),
            all == tag_views(found@),
            text::views(r@) == all.take(i as int),
        decreases found.len() - i,
    {
        // Tags can point to tag objects.
        let oid = match found[i].commit {
            Some(c) => c,
            None => found[i].oid,
        };
        let ghost before = r@;
        let tag = tag_info(found[i].name.as_str(), oid);
        r.push(tag);
        proof {
            assert(text::views(r@) =~= text::views(before).push(tag@));
            assert(all.take(i + 1) =~= all.take(i as int).push(all[i as int]));
        }
        i = i + 1;
    }
    assert(all.take(all.len() as int) =~= all);
    r
}

/// What is read of a submodule.
pub struct SubmoduleFacts {
    pub name: Option<String>,
    pub path: String,
    /// The branch that it has checked out, where it can be opened.
    pub branch: Option<String>,
    pub head_oid: Option<Oid>,
    pub index_oid: Option<Oid>,
    pub workdir_oid: Option<Oid>,
}

/// A submodule; what cannot be read is unknown, and whether it is dirty is left to be found
/// out.
pub open spec fn submodule_view(f: SubmoduleFacts) -> SubmoduleView {
    SubmoduleView {
        name: git::or_text(text::opt_view(f.name), "unknown"@),
        path: f.path@,
        branch: git::or_text(text::opt_view(f.branch), "unknown"@),
        is_dirty: None,
        head_oid: f.head_oid,
        index_oid: f.index_oid,
        workdir_oid: f.workdir_oid,
    }
}

/// The submodule that `f` describes.
pub fn submodule_info(f: SubmoduleFacts) -> (r: SubmoduleInfo)
    ensures
        r@ == submodule_view(f),
{
    SubmoduleInfo {
        name: git::text_or(&f.name, "unknown"),
        path: f.path,
        branch: git::text_or(&f.branch, "unknown"),
        is_dirty: None,
        head_oid: f.head_oid,
        index_oid: f.index_oid,
        workdir_oid: f.workdir_oid,
    }
}

/// Get submodule metadata (lightweight — no dirty checks). Submodules belong to a working
/// directory: without one there are none.
pub fn submodules(has_workdir: bool, found: Option<Vec<SubmoduleFacts>>) -> (r: Result<
    Vec<SubmoduleInfo>,
    String,
>)
    ensures
        match r {
            Ok(list) => if has_workdir {
                found is Some && text::views(list@) == Seq::new(
                    found->0@.len(),
                    |i: int| submodule_view(found->0@[i]),
                )
            } else {
                list@.len() == 0
            },
            Err(e) => has_workdir && found is None && e@ == "Failed to get submodules"@,
        },
{
    if !has_workdir {
        return Ok(Vec::new());
    }
    let facts = match found {
        Some(f) => f,
        None => {
            return Err("Failed to get submodules".to_owned());
        },
    };
    let ghost all = Seq::new(facts@.len(), |i: int| submodule_view(facts@[i]));
    let mut r: Vec<SubmoduleInfo> = Vec::new();
    assert(text::views(r@) =~= all.take(0));
    for f in it: facts
        invariant
            it.seq() == facts@,
            all == Seq::new(facts@.len(), |i: int| submodule_view(facts@[i])),
            text::views(r@) == all.take(it.index() as int),
    {
        let ghost before = r@;
        let one = submodule_info(f);
        r.push(one);
        proof {
            let i = it.index() as int;
            assert(text::views(r@) =~= text::views(before).push(one@));
            assert(all.take(i + 1) =~= all.take(i).push(all[i]));
        }
    }
    assert(all.take(all.len() as int) =~= all);
    Ok(r)
}

/// What is read of the HEAD of a worktree that can be opened.
pub struct WorktreeHead {
    pub shorthand: Option<String>,
    pub target: Option<Oid>,
}

/// What is read of a linked worktree.
pub struct FoundWorktree {
    pub name: String,
    pub path: String,
    /// Its HEAD, where it can be opened.
    pub head: Option<WorktreeHead>,
}

/// A worktree. Where it cannot be opened its branch is unknown; where it is on none it is
/// detached; whether it is dirty is left to be found out.
pub open spec fn worktree_view(f: FoundWorktree) -> WorktreeView {
    WorktreeView {
        name: f.name@,
        path: f.path@,
        branch: match f.head {
            Some(h) => git::or_text(text::opt_view(h.shorthand), "detached"@),
            None => "unknown"@,
        },
        head_oid: match f.head {
            Some(h) => h.target,
            None => None,
        },
        is_dirty: None,
        dirty_file_count: None,
    }
}

/// The worktree that `f` describes.
pub fn worktree_info(f: FoundWorktree) -> (r: WorktreeInfo)
    ensures
        r@ == worktree_view(f),
{
    let (branch, head_oid) = match &f.head {
        Some(h) => (git::text_or(&h.shorthand, "detached"), h.target),
        None => ("unknown".to_owned(), None),
    };
    WorktreeInfo {
        name: f.name,
        path: f.path,
        branch,
        head_oid,
        is_dirty: None,
        dirty_file_count: None,
    }
}

/// The worktrees that could be looked up.
pub open spec fn worktrees_found(found: Seq<Option<FoundWorktree>>) -> Seq<WorktreeView>
    decreases found.len(),
{
    if found.len() == 0 {
        Seq::empty()
    } else {
        let rest = worktrees_found(found.drop_last());
        match found.last() {
            Some(f) => rest.push(worktree_view(f)),
            None => rest,
        }
    }
}

/// Get worktree metadata (lightweight — no dirty checks). Worktrees that cannot be looked up
/// are left out.
pub fn worktrees(found: Option<Vec<Option<FoundWorktree>>>) -> (r: Result<
    Vec<WorktreeInfo>,
    String,
>)
    ensures
        match r {
            Ok(list) => found is Some && text::views(list@) == worktrees_found(found->0@),
            Err(e) => found is None && e@ == "Failed to get worktrees"@,
        },
{
    let facts = match found {
        Some(f) => f,
        None => {
            return Err("Failed to get worktrees".to_owned());
        },
    };
    let ghost all = facts@;
    let mut r: Vec<WorktreeInfo> = Vec::new();
    assert(text::views(r@) =~= worktrees_found(all.take(0)));
    for f in it: facts
        invariant
            it.seq() == all,
            text::views(r@) == worktrees_found(all.take(it.index() as int)),
    {
        proof {
            let i = it.index() as int;
            assert(all.take(i + 1).drop_last() =~= all.take(i));
            assert(all.take(i + 1).last() == f);
        }
        if let Some(w) = f {
            let ghost before = r@;
            let one = worktree_info(w);
            r.push(one);
            assert(text::views(r@) =~= text::views(before).push(one@));
        }
    }
    assert(all.take(all.len() as int) =~= all);
    Ok(r)
}

/// The commits of a walk that could be read.
pub open spec fn commits_read(walk: Seq<Option<CommitParts>>) -> Seq<CommitView>
    decreases walk.len(),
{
    if walk.len() == 0 {
        Seq::empty()
    } else {
        let rest = commits_read(walk.drop_last());
        match walk.last() {
            Some(parts) => rest.push(git::commit_view(parts)),
            None => rest,
        }
    }
}

/// Get commits for building a graph: those of the first `max_commits` of a walk that can be
/// read.
pub fn commit_graph(walk: Vec<Option<CommitParts>>, max_commits: usize) -> (r: Vec<CommitInfo>)
    ensures
        text::views(r@) == commits_read(
            if walk@.len() > max_commits {
                walk@.take(max_commits as int)
            } else {
                walk@
            },
        ),
{
    let ghost all = walk@;
    let mut walk = walk;
    if walk.len() > max_commits {
        walk.truncate(max_commits);
    }
    let ghost taken = walk@;
    let mut r: Vec<CommitInfo> = Vec::new();
    assert(text::views(r@) =~= commits_read(taken.take(0)));
    for c in it: walk
        invariant
            it.seq() == taken,
            text::views(r@) == commits_read(taken.take(it.index() as int)),
    {
        proof {
            let i = it.index() as int;
            assert(taken.take(i + 1).drop_last() =~= taken.take(i));
            assert(taken.take(i + 1).last() == c);
        }
        if let Some(parts) = c {
            let ghost before = r@;
            let one = CommitInfo::from_commit(parts);
            r.push(one);
            assert(text::views(r@) =~= text::views(before).push(one@));
        }
    }
    assert(taken.take(taken.len() as int) =~= taken);
    r
}

/// The index of `target` in a walk from `i` on.
pub open spec fn walk_index(walk: Seq<Option<Oid>>, target: Oid, i: int) -> Option<int>
    decreases walk.len() - i,
{
    if i >= walk.len() {
        None
    } else if walk[i] == Some(target) {
        Some(i)
    } else {
        walk_index(walk, target, i + 1)
    }
}

/// Find the position of a commit among the first `max_search` steps of a walk; a step that
/// could not be read is `None` and still counts.
pub fn commit_position_in_walk(walk: &Vec<Option<Oid>>, target: Oid, max_search: usize) -> (r:
    Option<usize>)
    ensures
        match r {
            Some(i) => i < max_search && walk_index(walk@, target, 0) == Some(i as int),
            None => match walk_index(walk@, target, 0) {
                Some(i) => i >= max_search,
                None => true,
            },
        },
{
    let mut i: usize = 0;
    while i < walk.len() && i < max_search
        invariant
            i <= walk.len(),
            i <= max_search,
            walk_index(walk@, target, 0) == walk_index(walk@, target, i as int),
        decreases walk.len() - i,
    {
        if let Some(id) = walk[i] {
            if id == target {
                return Some(i);
            }
        }
        i = i + 1;
    }
    proof {
        lemma_walk_index(walk@, target, i as int);
    }
    None
}

proof fn lemma_walk_index(walk: Seq<Option<Oid>>, target: Oid, i: int)
    ensures
        walk_index(walk, target, i) is Some ==> walk_index(walk, target, i)->0 >= i,
    decreases walk.len() - i,
{
    if i < walk.len() && walk[i] != Some(target) {
        lemma_walk_index(walk, target, i + 1);
    }
}

// ---------------------------------------------------------------------------
// The staged diff as text
// ---------------------------------------------------------------------------

/// One line of a diff: its origin, and its content where that is text.
pub struct PatchLine {
    pub origin: char,
    pub content: Option<String>,
}

/// A line as it stands in a patch. Only additions, deletions and context show their origin.
pub open spec fn patch_line(line: PatchLine) -> Seq<char> {
    let content = match line.content {
        Some(c) => c@,
        None => Seq::empty(),
    };
    if line.origin == '+' || line.origin == '-' || line.origin == ' ' {
        seq![line.origin] + content
    } else {
        content
    }
}

/// The lines of a patch one after the other.
pub open spec fn patch_text(lines: Seq<PatchLine>) -> Seq<char>
    decreases lines.len(),
{
    if lines.len() == 0 {
        Seq::empty()
    } else {
        patch_text(lines.drop_last()) + patch_line(lines.last())
    }
}

/// How many of `lines` it takes, `n` at least, to make more than `max_bytes`.
pub open spec fn lines_over(lines: Seq<PatchLine>, max_bytes: nat, n: int) -> Option<int>
    decreases lines.len() + 1 - n,
{
    if n > lines.len() {
        None
    } else if text::byte_len(patch_text(lines.take(n))) > max_bytes {
        Some(n)
    } else {
        lines_over(lines, max_bytes, n + 1)
    }
}

/// The patch, cut at `max_bytes` with a mark where it is longer.
pub open spec fn cut_patch(lines: Seq<PatchLine>, max_bytes: nat) -> Seq<char> {
    match lines_over(lines, max_bytes, 0) {
        Some(n) => text::first_bytes(patch_text(lines.take(n)), max_bytes)
            + "\n... [diff truncated]"@,
        None => patch_text(lines),
    }
}

/// Produce the staged diff as a unified patch string.
/// Truncates at `max_bytes` with a marker if the diff is too large. The cut must not fall
/// inside a character.
pub fn staged_diff_text(lines: &Vec<PatchLine>, max_bytes: usize) -> (r: String)
    requires
        match lines_over(lines@, max_bytes as nat, 0) {
            Some(n) => text::cuts_at(patch_text(lines@.take(n)), max_bytes as nat),
            None => true,
        },
    ensures
        r@ == cut_patch(lines@, max_bytes as nat),
{
    let mut buf = String::new();
    let mut i: usize = 0;
    assert(buf@ =~= patch_text(lines@.take(0)));
    assert(text::byte_len(buf@) == 0);
    while i < lines.len()
        invariant
            i <= lines.len(),
            buf@ == patch_text(lines@.take(i as int)),
            text::byte_len(buf@) <= max_bytes,
            lines_over(lines@, max_bytes as nat, 0) == lines_over(
                lines@,
                max_bytes as nat,
                i as int,
            ),
            match lines_over(lines@, max_bytes as nat, 0) {
                Some(n) => text::cuts_at(patch_text(lines@.take(n)), max_bytes as nat),
                None => true,
            },
        decreases lines.len() - i,
    {
        let line = &lines[i];
        proof {
            assert(lines@.take(i + 1).drop_last() =~= lines@.take(i as int));
            assert(lines@.take(i + 1).last() == *line);
        }
        let ghost before = buf@;
        if line.origin == '+' || line.origin == '-' || line.origin == ' ' {
            buf.push(line.origin);
        }
        if let Some(c) = &line.content {
            buf.append(c.as_str());
        }
        assert(buf@ =~= before + patch_line(*line));
        i = i + 1;
        if bytes_in(buf.as_str()) > max_bytes {
            assert(lines_over(lines@, max_bytes as nat, i as int) == Some(i as int));
            let mut cut = take_bytes(buf.as_str(), max_bytes);
            cut.append("\n... [diff truncated]");
            return cut;
        }
    }
    assert(lines@.take(lines@.len() as int) =~= lines@);
    assert(lines_over(lines@, max_bytes as nat, i + 1) is None);
    buf
}

/// A diff that fits is given whole, and one that does not is cut to the limit and marked.
pub proof fn staged_diff_is_whole_or_marked(lines: Seq<PatchLine>, max_bytes: nat)
    requires
        match lines_over(lines, max_bytes, 0) {
            Some(n) => text::cuts_at(patch_text(lines.take(n)), max_bytes),
            None => true,
        },
    ensures
        text::byte_len(patch_text(lines)) <= max_bytes ==> cut_patch(lines, max_bytes)
            == patch_text(lines),
        text::byte_len(patch_text(lines)) > max_bytes ==> {
            &&& text::ends(cut_patch(lines, max_bytes), "\n... [diff truncated]"@)
            &&& text::byte_len(cut_patch(lines, max_bytes)) == max_bytes + text::byte_len(
                "\n... [diff truncated]"@,
            )
        },
{
    lemma_lines_over(lines, max_bytes, 0);
    match lines_over(lines, max_bytes, 0) {
        Some(n) => {
            lemma_patch_grows(lines, n);
            let p = text::first_bytes(patch_text(lines.take(n)), max_bytes);
            let mark = "\n... [diff truncated]"@;
            text::first_bytes_is_a_prefix(patch_text(lines.take(n)), max_bytes);
            text::lemma_byte_len_concat(p, mark);
            assert((p + mark).subrange(p.len() as int, (p + mark).len() as int) =~= mark);
        },
        None => {},
    }
}

proof fn lemma_lines_over(lines: Seq<PatchLine>, max_bytes: nat, n: int)
    requires
        0 <= n <= lines.len() + 1,
    ensures
        match lines_over(lines, max_bytes, n) {
            Some(m) => n <= m <= lines.len() && text::byte_len(patch_text(lines.take(m)))
                > max_bytes,
            None => n <= lines.len() ==> text::byte_len(patch_text(lines)) <= max_bytes,
        },
    decreases lines.len() + 1 - n,
{
    if n <= lines.len() {
        assert(lines.take(lines.len() as int) =~= lines);
        if text::byte_len(patch_text(lines.take(n))) <= max_bytes {
            lemma_lines_over(lines, max_bytes, n + 1);
        }
    }
}

proof fn lemma_patch_grows(lines: Seq<PatchLine>, n: int)
    requires
        0 <= n <= lines.len(),
    ensures
        text::byte_len(patch_text(lines)) >= text::byte_len(patch_text(lines.take(n))),
    decreases lines.len(),
{
    if n == lines.len() {
        assert(lines.take(n) =~= lines);
    } else {
        lemma_patch_grows(lines.drop_last(), n);
        assert(lines.drop_last().take(n) =~= lines.take(n));
        text::lemma_byte_len_concat(patch_text(lines.drop_last()), patch_line(lines.last()));
    }
}

/// Lines inserted and deleted in all: those staged and those not, where each could be had.
pub fn diff_stats(staged: Option<(usize, usize)>, unstaged: Option<(usize, usize)>) -> (r: (
    usize,
    usize,
))
    requires
        match (staged, unstaged) {
            (Some(a), Some(b)) => a.0 + b.0 <= usize::MAX && a.1 + b.1 <= usize::MAX,
            _ => true,
        },
    ensures
        r == (match (staged, unstaged) {
            (Some(a), Some(b)) => ((a.0 + b.0) as usize, (a.1 + b.1) as usize),
            (Some(a), None) => a,
            (None, Some(b)) => b,
            (None, None) => (0usize, 0usize),
        }),
{
    let mut ins: usize = 0;
    let mut del: usize = 0;
    if let Some(s) = staged {
        ins = s.0;
        del = s.1;
    }
    if let Some(s) = unstaged {
        ins = ins + s.0;
        del = del + s.1;
    }
    (ins, del)
}

/// Aggregate diff stats for the working tree (staged + unstaged); none for a repository
/// without one.
pub fn working_tree_diff_stats(
    bare: bool,
    staged: Option<(usize, usize)>,
    unstaged: Option<(usize, usize)>,
) -> (r: (usize, usize))
    requires
        match (staged, unstaged) {
            (Some(a), Some(b)) => a.0 + b.0 <= usize::MAX && a.1 + b.1 <= usize::MAX,
            _ => true,
        },
    ensures
        r == (if bare {
            (0usize, 0usize)
        } else {
            match (staged, unstaged) {
                (Some(a), Some(b)) => ((a.0 + b.0) as usize, (a.1 + b.1) as usize),
                (Some(a), None) => a,
                (None, Some(b)) => b,
                (None, None) => (0usize, 0usize),
            }
        }),
{
    if bare {
        return (0, 0);
    }
    diff_stats(staged, unstaged)
}

// ---------------------------------------------------------------------------
// The fingerprint of the refs
// ---------------------------------------------------------------------------

/// The order of ids, which is that of their bytes.
pub struct ByBytes;

/// The number that an id is.
pub open spec fn id_number(id: Oid) -> int {
    (id.hi as int * 0x1_0000_0000_0000_0000 + id.mid as int) * 0x1_0000_0000 + id.lo as int
}

impl Order<Oid> for ByBytes {
    open spec fn before(a: Oid, b: Oid) -> bool {
        id_number(a) < id_number(b)
    }

    proof fn is_order(a: Oid, b: Oid, c: Oid) {
    }

    fn is_before(a: &Oid, b: &Oid) -> (r: bool) {
        if a.hi != b.hi {
            a.hi < b.hi
        } else if a.mid != b.mid {
            a.mid < b.mid
        } else {
            a.lo < b.lo
        }
    }
}

/// What is hashed for one id: the number of its bytes, and its bytes.
pub open spec fn id_writes(id: Oid) -> Seq<Seq<u8>> {
    seq![git::little_endian(20, 8), id.bytes()]
}

/// What is hashed for ids.
pub open spec fn ids_writes(ids: Seq<Oid>) -> Seq<Seq<u8>>
    decreases ids.len(),
{
    if ids.len() == 0 {
        Seq::empty()
    } else {
        ids_writes(ids.drop_last()) + id_writes(ids.last())
    }
}

/// The fingerprint of HEAD and the tips of the local branches.
pub open spec fn fingerprint(head: Option<Oid>, tips: Seq<Oid>) -> u64 {
    let first = match head {
        Some(id) => id_writes(id),
        None => Seq::empty(),
    };
    DefaultHasher::spec_finish(first + ids_writes(order::sorted::<Oid, ByBytes>(tips)))
}

fn hash_id(hasher: &mut DefaultHasher, id: Oid)
    ensures
        final(hasher)@ == old(hasher)@ + id_writes(id),
{
    let mut count: Vec<u8> = Vec::new();
    git::push_little_endian(&mut count, 20, 8);
    assert(count@ =~= git::little_endian(20, 8));
    hasher.write(count.as_slice());
    let bytes = id.to_bytes();
    hasher.write(bytes.as_slice());
    assert(hasher@ =~= old(hasher)@ + id_writes(id));
}

/// Compute a fingerprint of the repository's ref state from the HEAD OID and the local
/// branch tip OIDs.
pub fn ref_fingerprint(head: Option<Oid>, tips: Vec<Oid>) -> (r: u64)
    ensures
        r == fingerprint(head, tips@),
{
    let mut hasher = DefaultHasher::new();
    if let Some(id) = head {
        hash_id(&mut hasher, id);
    }
    let ghost first = hasher@;
    proof {
        assert(text::views(tips@) =~= tips@);
        match head {
            Some(id) => {
                assert(first =~= id_writes(id));
            },
            None => {},
        }
    }
    let sorted = sort::<Oid, ByBytes>(tips);
    let ghost ids = text::views(sorted@);
    let mut i: usize = 0;
    assert(hasher@ =~= first + ids_writes(ids.take(0)));
    while i < sorted.len()
        invariant
            i <= sorted.len(),
            ids == text::views(sorted@),
            hasher@ == first + ids_writes(ids.take(i as int)),
        decreases sorted.len() - i,
    {
        proof {
            assert(ids.take(i + 1).drop_last() =~= ids.take(i as int));
            assert(ids.take(i + 1).last() == sorted@[i as int]);
        }
        let ghost before = hasher@;
        hash_id(&mut hasher, sorted[i]);
        assert(hasher@ =~= first + ids_writes(ids.take(i + 1)));
        i = i + 1;
    }
    assert(ids.take(ids.len() as int) =~= ids);
    hasher.finish()
}

/// The order in which the branches come does not change the fingerprint.
pub proof fn fingerprint_ignores_branch_order(head: Option<Oid>, a: Seq<Oid>, b: Seq<Oid>)
    requires
        a.to_multiset() == b.to_multiset(),
    ensures
        fingerprint(head, a) == fingerprint(head, b),
{
    order::sorting_keeps_values_and_orders_them::<Oid, ByBytes>(a);
    order::sorting_keeps_values_and_orders_them::<Oid, ByBytes>(b);
    lemma_same_order(
        order::sorted::<Oid, ByBytes>(a),
        order::sorted::<Oid, ByBytes>(b),
    );
}

proof fn lemma_id_number_injective(a: Oid, b: Oid)
    requires
        id_number(a) == id_number(b),
    ensures
        a == b,
{
}

proof fn lemma_same_order(a: Seq<Oid>, b: Seq<Oid>)
    requires
        order::in_order::<Oid, ByBytes>(a),
        order::in_order::<Oid, ByBytes>(b),
        a.to_multiset() == b.to_multiset(),
    ensures
        a == b,
    decreases a.len(),
{
    broadcast use vstd::seq_lib::group_to_multiset_ensures;

    assert(a.to_multiset().len() == a.len());
    assert(b.to_multiset().len() == b.len());
    if a.len() > 0 {
        let x = a.last();
        let y = b.last();
        assert(a[a.len() - 1] == x);
        assert(b[b.len() - 1] == y);
        assert(a.contains(x));
        assert(b.contains(y));
        assert(b.to_multiset().count(x) > 0);
        assert(a.to_multiset().count(y) > 0);
        assert(b.contains(x));
        assert(a.contains(y));
        let i = choose|i: int| 0 <= i < b.len() && b[i] == x;
        let j = choose|j: int| 0 <= j < a.len() && a[j] == y;
        assert(i == b.len() - 1 || !ByBytes::before(b[b.len() - 1], b[i]));
        assert(j == a.len() - 1 || !ByBytes::before(a[a.len() - 1], a[j]));
        lemma_id_number_injective(x, y);
        assert(a =~= a.drop_last().push(x));
        assert(b =~= b.drop_last().push(x));
        assert(a.drop_last().to_multiset() =~= b.drop_last().to_multiset()) by {
            assert(a.drop_last().to_multiset() =~= a.to_multiset().remove(x));
            assert(b.drop_last().to_multiset() =~= b.to_multiset().remove(x));
        }
        assert forall|i: int, j: int| 0 <= i < j < a.drop_last().len() implies !ByBytes::before(
            #[trigger] a.drop_last()[j],
            #[trigger] a.drop_last()[i],
        ) by {
            assert(a.drop_last()[i] == a[i] && a.drop_last()[j] == a[j]);
        }
        assert forall|i: int, j: int| 0 <= i < j < b.drop_last().len() implies !ByBytes::before(
            #[trigger] b.drop_last()[j],
            #[trigger] b.drop_last()[i],
        ) by {
            assert(b.drop_last()[i] == b[i] && b.drop_last()[j] == b[j]);
        }
        lemma_same_order(a.drop_last(), b.drop_last());
    } else {
        assert(a =~= b);
    }
}

// ---------------------------------------------------------------------------
// Laws
// ---------------------------------------------------------------------------

/// A repository bears the name of the nearest directory that is neither hidden nor a store, and
/// is unknown where there is none.
pub proof fn the_nearest_directory_names_the_repository(names: Seq<Option<String>>, i: int, k: int)
    requires
        0 <= i <= k <= names.len(),
        forall|j: int|
            i <= j < k && (#[trigger] names[j]) is Some ==> text::begins(names[j]->0@, "."@)
                || text::ends(names[j]->0@, ".git"@),
        k < names.len() ==> names[k] is Some && !text::begins(names[k]->0@, "."@) && !text::ends(
            names[k]->0@,
            ".git"@,
        ),
    ensures
        k < names.len() ==> name_from(names, i) == names[k]->0@,
        k == names.len() ==> name_from(names, i) == "unknown"@,
    decreases k - i,
{
    if i < k {
        the_nearest_directory_names_the_repository(names, i + 1, k);
    }
}

/// The first that is known counts, of ids and of names, wherever it stands.
pub proof fn the_first_that_is_known_counts(
    ids: Seq<Option<Oid>>,
    names: Seq<Option<String>>,
    i: int,
    k: int,
)
    requires
        0 <= i <= k,
    ensures
        k < ids.len() && ids[k] is Some && (forall|j: int| i <= j < k ==> (#[trigger] ids[j]) is None)
            ==> first_id(ids, i) == ids[k],
        k == ids.len() && (forall|j: int| i <= j < k ==> (#[trigger] ids[j]) is None) ==> first_id(
            ids,
            i,
        ) is None,
        k < names.len() && names[k] is Some && (forall|j: int|
            i <= j < k ==> (#[trigger] names[j]) is None) ==> first_text(names, i) == Some(
            names[k]->0@,
        ),
        k == names.len() && (forall|j: int| i <= j < k ==> (#[trigger] names[j]) is None)
            ==> first_text(names, i) is None,
    decreases k - i,
{
    if i < k {
        the_first_that_is_known_counts(ids, names, i + 1, k);
    }
}

/// The current branch is the one HEAD is on; without one it is the commit, by its short id; and
/// where HEAD points to a branch that is not there, it is the first branch there is.
pub proof fn the_current_branch_is_that_of_head(
    name: String,
    id: Oid,
    local: Seq<Option<String>>,
)
    ensures
        branch_name(HeadFacts::OnBranch(Some(name)), local) == name@,
        branch_name(HeadFacts::Detached(Some(id)), local) == id.short(),
        local.len() > 0 && local[0] is Some ==> branch_name(HeadFacts::Missing, local)
            == local[0]->0@,
{
}

/// Every branch that follows another tells how far ahead and behind it is, under its name: the
/// counts read last for that name are found there. A name for which none were read is not found.
pub proof fn every_tracking_branch_tells_its_counts(
    branches: Seq<BranchDivergence>,
    k: int,
    name: Seq<char>,
)
    ensures
        text_map::keys_of(tracked_counts(branches)).no_duplicates(),
        0 <= k < branches.len() && branches[k].name is Some && branches[k].name->0@ == name
            && branches[k].counts is Some && (forall|j: int|
            k < j < branches.len() && (#[trigger] branches[j]).name is Some && branches[j].counts
                is Some ==> branches[j].name->0@ != name) ==> crate::git::refs::looked_up(
            tracked_counts(branches),
            name,
        ) == branches[k].counts,
        (forall|j: int|
            0 <= j < branches.len() && (#[trigger] branches[j]).name is Some && branches[j].counts
                is Some ==> branches[j].name->0@ != name) ==> crate::git::refs::looked_up(
            tracked_counts(branches),
            name,
        ) is None,
    decreases branches.len(),
{
    if branches.len() > 0 {
        let front = branches.drop_last();
        let last = branches.last();
        let n = branches.len() - 1;
        assert(branches[n] == last);
        every_tracking_branch_tells_its_counts(front, k, name);
        let a = tracked_counts(front);
        let b = tracked_counts(branches);
        let told = last.name is Some && last.counts is Some;
        if told {
            text_map::put_is_found(a, last.name->0@, last.counts->0);
            text_map::lemma_key_index(a, last.name->0@);
            assert(b == text_map::put(a, last.name->0@, last.counts->0));
            if last.name->0@ != name {
                text_map::put_leaves_other_keys_alone(a, last.name->0@, last.counts->0, name);
            }
        }
        text_map::lemma_key_index(a, name);
        if 0 <= k < branches.len() && branches[k].name is Some && branches[k].name->0@ == name
            && branches[k].counts is Some && (forall|j: int|
            k < j < branches.len() && (#[trigger] branches[j]).name is Some && branches[j].counts
                is Some ==> branches[j].name->0@ != name) {
            if k < n {
                assert(front[k] == branches[k]);
                assert forall|j: int|
                    k < j < front.len() && (#[trigger] front[j]).name is Some && front[j].counts
                        is Some implies front[j].name->0@ != name by {
                    assert(front[j] == branches[j]);
                }
                assert(crate::git::refs::looked_up(a, name) == branches[k].counts);
            }
        }
        if forall|j: int|
            0 <= j < branches.len() && (#[trigger] branches[j]).name is Some && branches[j].counts
                is Some ==> branches[j].name->0@ != name {
            assert forall|j: int|
                0 <= j < front.len() && (#[trigger] front[j]).name is Some && front[j].counts
                    is Some implies front[j].name->0@ != name by {
                assert(front[j] == branches[j]);
            }
        }
    }
}

/// Every branch that points to a commit has its tip there, in the order of the branches; it is
/// marked as checked out where HEAD is on that commit, and only a local one tells what it follows.
pub proof fn every_branch_has_its_tip(head: Option<Oid>, branches: Seq<BranchFacts>)
    ensures
        tips_of(head, branches) == branches.filter_map(
            |b: BranchFacts|
                match b.oid {
                    None => None,
                    Some(oid) => Some(
                        TipView {
                            is_remote: b.is_remote,
                            is_head: Some(oid) == head,
                            oid,
                            name: match b.name {
                                Some(n) => n@,
                                None => ""@,
                            },
                            upstream: match (b.is_remote, b.upstream) {
                                (false, Some(u)) => Some(u@),
                                _ => None,
                            },
                        },
                    ),
                },
        ),
    decreases branches.len(),
{
    if branches.len() > 0 {
        every_branch_has_its_tip(head, branches.drop_last());
    }
}

/// A tag goes by its name without the directory of the tags, and is on the commit that it leads
/// to, or where it leads to none, on what it points to.
pub proof fn tags_go_by_their_short_names(found: Seq<TagFacts>, k: int, short: Seq<char>)
    requires
        0 <= k < found.len(),
        !text::begins(short, "refs/tags/"@),
    ensures
        tag_views(found).len() == found.len(),
        found[k].name@ == short || found[k].name@ == "refs/tags/"@ + short ==> tag_views(
            found,
        )[k].name == short,
        found[k].commit is Some ==> tag_views(found)[k].oid == found[k].commit->0,
        found[k].commit is None ==> tag_views(found)[k].oid == found[k].oid,
{
    reveal_strlit("refs/tags/");
    text::beginnings_and_ends_are_taken_off("refs/tags/"@, short);
    assert(text::begins("refs/tags/"@ + short, "refs/tags/"@));
    assert(tag_name("refs/tags/"@ + short) == tag_name(short));
}

/// Every worktree that could be looked up is listed, in order, with its name, its path and the
/// commit it has checked out.
pub proof fn every_worktree_found_is_listed(found: Seq<Option<FoundWorktree>>)
    ensures
        worktrees_found(found).map_values(|w: WorktreeView| (w.name, w.path, w.head_oid))
            == found.filter_map(
            |f: Option<FoundWorktree>|
                match f {
                    None => None,
                    Some(w) => Some(
                        (
                            w.name@,
                            w.path@,
                            if w.head is None {
                                None
                            } else {
                                w.head->0.target
                            },
                        ),
                    ),
                },
        ),
    decreases found.len(),
{
    let short = |w: WorktreeView| (w.name, w.path, w.head_oid);
    if found.len() > 0 {
        every_worktree_found_is_listed(found.drop_last());
        let rest = worktrees_found(found.drop_last());
        if let Some(f) = found.last() {
            assert(rest.push(worktree_view(f)).map_values(short) =~= rest.map_values(short).push(
                short(worktree_view(f)),
            ));
        }
    } else {
        assert(worktrees_found(found).map_values(short) =~= Seq::empty());
    }
}

/// What is read of a submodule is told as it was read, and whether it is dirty is still open.
pub proof fn submodules_keep_what_was_read(f: SubmoduleFacts)
    ensures
        f.name is Some ==> submodule_view(f).name == f.name->0@,
        f.branch is Some ==> submodule_view(f).branch == f.branch->0@,
        submodule_view(f).path == f.path@,
        submodule_view(f).head_oid == f.head_oid,
        submodule_view(f).index_oid == f.index_oid,
        submodule_view(f).workdir_oid == f.workdir_oid,
        submodule_view(f).is_dirty is None,
{
}

/// Every commit of the walk that could be read is in the graph, in the order of the walk.
pub proof fn every_commit_read_is_in_the_graph(walk: Seq<Option<CommitParts>>)
    ensures
        commits_read(walk).map_values(|c: crate::git::CommitView| (c.id, c.parent_ids, c.time))
            == walk.filter_map(
            |p: Option<CommitParts>|
                match p {
                    None => None,
                    Some(parts) => Some((parts.id, parts.parent_ids@, parts.time)),
                },
        ),
    decreases walk.len(),
{
    let short = |c: crate::git::CommitView| (c.id, c.parent_ids, c.time);
    if walk.len() > 0 {
        every_commit_read_is_in_the_graph(walk.drop_last());
        let rest = commits_read(walk.drop_last());
        if let Some(parts) = walk.last() {
            let c = git::commit_view(parts);
            assert(rest.push(c).map_values(short) =~= rest.map_values(short).push(short(c)));
        }
    } else {
        assert(commits_read(walk).map_values(short) =~= Seq::empty());
    }
}

/// A commit is found in a walk at the first step that leads to it.
pub proof fn a_commit_is_found_at_its_first_step(
    walk: Seq<Option<Oid>>,
    target: Oid,
    i: int,
    k: int,
)
    requires
        0 <= i <= k <= walk.len(),
        forall|j: int| i <= j < k ==> (#[trigger] walk[j]) != Some(target),
        k < walk.len() ==> walk[k] == Some(target),
    ensures
        k < walk.len() ==> walk_index(walk, target, i) == Some(k),
        k == walk.len() ==> walk_index(walk, target, i) is None,
    decreases k - i,
{
    if i < k {
        a_commit_is_found_at_its_first_step(walk, target, i + 1, k);
    }
}

/// Each line stands in the patch after those before it: an addition, a deletion or context
/// behind its origin, any other line as it is.
pub proof fn each_line_stands_in_the_patch(lines: Seq<PatchLine>, line: PatchLine)
    requires
        line.content is Some,
    ensures
        line.origin == ' ' || line.origin == '-' || line.origin == '+' ==> patch_text(
            lines.push(line),
        ) == patch_text(lines) + (seq![line.origin] + line.content->0@),
        line.origin != ' ' && line.origin != '-' && line.origin != '+' ==> patch_text(
            lines.push(line),
        ) == patch_text(lines) + line.content->0@,
        patch_text(Seq::empty()) == Seq::<char>::empty(),
{
    assert(lines.push(line).drop_last() =~= lines);
}

proof fn lemma_patch_prefix(lines: Seq<PatchLine>, n: int)
    requires
        0 <= n <= lines.len(),
    ensures
        patch_text(lines.take(n)).is_prefix_of(patch_text(lines)),
    decreases lines.len(),
{
    let whole = patch_text(lines);
    if n == lines.len() {
        assert(lines.take(n) =~= lines);
        assert(whole.take(whole.len() as int) =~= whole);
    } else {
        lemma_patch_prefix(lines.drop_last(), n);
        assert(lines.drop_last().take(n) =~= lines.take(n));
        let a = patch_text(lines.take(n));
        let b = patch_text(lines.drop_last());
        assert(b =~= whole.take(b.len() as int));
        assert(a =~= whole.take(a.len() as int));
    }
}

/// What is left of a patch that was cut is its beginning: nothing in it is changed.
pub proof fn a_cut_patch_is_the_beginning_of_the_whole(lines: Seq<PatchLine>, max_bytes: nat)
    requires
        text::byte_len(patch_text(lines)) > max_bytes,
        match lines_over(lines, max_bytes, 0) {
            Some(n) => text::cuts_at(patch_text(lines.take(n)), max_bytes),
            None => true,
        },
    ensures
        exists|p: Seq<char>|
            #[trigger] p.is_prefix_of(patch_text(lines)) && text::byte_len(p) == max_bytes
                && cut_patch(lines, max_bytes) == p + "\n... [diff truncated]"@,
{
    lemma_lines_over(lines, max_bytes, 0);
    let n = lines_over(lines, max_bytes, 0)->0;
    let part = patch_text(lines.take(n));
    let whole = patch_text(lines);
    let p = text::first_bytes(part, max_bytes);
    text::first_bytes_is_a_prefix(part, max_bytes);
    lemma_patch_prefix(lines, n);
    assert(part =~= whole.take(part.len() as int));
    assert(p =~= part.take(p.len() as int)) by {
        assert(part.subrange(0, p.len() as int) =~= part.take(p.len() as int));
    }
    assert(p =~= whole.take(p.len() as int));
    assert(p.is_prefix_of(whole));
}

} // verus!
