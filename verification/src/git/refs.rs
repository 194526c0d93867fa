//! Branches, remotes, stashes and the submodules of a commit.

use crate::git::status::StatusFlags;
use crate::git::{self, CommitParts, CommitSubmoduleEntry, FullCommitInfo, StashEntry};
use crate::oid::Oid;
use crate::order::{self, sort, Order};
use crate::text::{
    self, contains, lines_of, parse_int, same, split, split_once, starts_with, strip_prefix,
    strip_suffix, text_before, trimmed,
};
use crate::text_map::{self, TextMap};
use vstd::prelude::*;
use vstd::string::*;

verus! {

/// How many files have changes not yet committed, where a status could be had; a bare
/// repository has none.
pub fn uncommitted_change_count(bare: bool, total: Option<usize>) -> (r: usize)
    ensures
        r == (match total {
            Some(n) => if bare {
                0
            } else {
                n
            },
            None => 0,
        }),
{
    if bare {
        return 0;
    }
    match total {
        Some(n) => n,
        None => 0,
    }
}

/// Check if the repo uses Git LFS: whether the attributes say so in the working directory, or
/// else in HEAD.
pub fn has_lfs(workdir_attributes: Option<&str>, head_attributes: Option<&str>) -> (r: bool)
    ensures
        r == ((workdir_attributes is Some && text::has(workdir_attributes->0@, "filter=lfs"@)) || (
        head_attributes is Some && text::has(head_attributes->0@, "filter=lfs"@))),
{
    if let Some(content) = workdir_attributes {
        if contains(content, "filter=lfs") {
            return true;
        }
    }
    if let Some(content) = head_attributes {
        return contains(content, "filter=lfs");
    }
    false
}

/// The remote to use where none is named: that of the current branch's upstream, else
/// "origin", else the first.
pub open spec fn remote_by_default(
    upstream: Option<Seq<char>>,
    has_origin: bool,
    remotes: Seq<Option<String>>,
) -> Option<Seq<char>> {
    match upstream {
        Some(u) => Some(text::pieces(u, '/')[0]),
        None => if has_origin {
            Some("origin"@)
        } else if remotes.len() > 0 {
            text::opt_view(remotes[0])
        } else {
            None
        },
    }
}

/// Find the default remote name (usually "origin"). `upstream` is the name of the current
/// branch's upstream, such as "origin/main".
pub fn default_remote(
    upstream: Option<&str>,
    has_origin: bool,
    remotes: &Vec<Option<String>>,
) -> (r: Result<String, String>)
    ensures
        match r {
            Ok(name) => remote_by_default(
                git::opt_str_view(upstream),
                has_origin,
                remotes@,
            ) == Some(name@),
            Err(e) => remote_by_default(git::opt_str_view(upstream), has_origin, remotes@) is None
                && e@ == "No remotes configured"@,
        },
{
    if let Some(u) = upstream {
        let parts = split(u, '/');
        assert(text::views(parts@)[0] == parts@[0]@);
        return Ok(parts[0].clone());
    }
    if has_origin {
        return Ok("origin".to_owned());
    }
    if remotes.len() > 0 {
        if let Some(name) = &remotes[0] {
            return Ok(name.clone());
        }
    }
    Err("No remotes configured".to_owned())
}

/// The full name of a local branch.
pub fn branch_ref(name: &str) -> (r: String)
    ensures
        r@ == "refs/heads/"@ + name@,
{
    let mut s = "refs/heads/".to_owned();
    s.append(name);
    s
}

/// How a branch of a remote is checked out.
pub enum RemoteCheckout {
    /// The local branch of that name is there already.
    ExistingBranch,
    /// A local branch is made from this branch and follows it.
    TrackingBranch(String),
}

/// Checkout a remote branch, creating a local branch that follows it where there is none.
pub fn checkout_remote_branch(remote: &str, branch: &str, local_exists: bool) -> (r: RemoteCheckout)
    ensures
        match r {
            RemoteCheckout::ExistingBranch => local_exists,
            RemoteCheckout::TrackingBranch(name) => !local_exists && name@ == remote@ + "/"@
                + branch@,
        },
{
    if local_exists {
        return RemoteCheckout::ExistingBranch;
    }
    let mut name = remote.to_owned();
    name.append("/");
    name.append(branch);
    RemoteCheckout::TrackingBranch(name)
}

/// Whether a local branch may be deleted: it must be there, and be checked out neither here
/// nor in a worktree. `found` says whether it is there, and if so whether it is checked out.
pub fn delete_branch(name: &str, current: Option<&str>, found: Option<bool>) -> (r: Result<
    (),
    String,
>)
    ensures
        r is Ok <==> git::opt_str_view(current) != Some(name@) && found == Some(false),
        r is Err ==> r->Err_0@ == (if git::opt_str_view(current) == Some(name@) || found is Some {
            "Cannot delete the currently checked-out branch"@
        } else {
            "Branch '"@ + name@ + "' not found"@
        }),
{
    if let Some(c) = current {
        if same(c, name) {
            return Err("Cannot delete the currently checked-out branch".to_owned());
        }
    }
    match found {
        None => {
            let mut e = "Branch '".to_owned();
            e.append(name);
            e.append("' not found");
            Err(e)
        },
        Some(is_head) => if is_head {
            Err("Cannot delete the currently checked-out branch".to_owned())
        } else {
            Ok(())
        },
    }
}

/// The refspec that a remote fetches all branches by.
pub fn default_fetch_refspec(remote: &str) -> (r: String)
    ensures
        r@ == "+refs/heads/*:refs/remotes/"@ + remote@ + "/*"@,
{
    let mut s = "+refs/heads/*:refs/remotes/".to_owned();
    s.append(remote);
    s.append("/*");
    s
}

// ---------------------------------------------------------------------------
// Stashes
// ---------------------------------------------------------------------------

/// A stash by its views.
pub struct StashView {
    pub index: usize,
    pub message: Seq<char>,
    pub time: i64,
}

impl View for StashEntry {
    type V = StashView;

    open spec fn view(&self) -> StashView {
        StashView { index: self.index, message: self.message@, time: self.time }
    }
}

/// The time that a text gives, 0 where it gives none.
pub open spec fn time_value(t: Seq<char>) -> i64 {
    match text::int_value(t) {
        Some(v) => v as i64,
        None => 0,
    }
}

/// The stash that a line describes: a name, a message and, where it is given, a time, with a
/// zero character between each.
pub open spec fn stash_of(index: usize, line: Seq<char>) -> Option<StashView> {
    match text::cut(line, "\0"@) {
        Some((name, rest)) => Some(
            match text::cut(rest, "\0"@) {
                Some((message, time)) => StashView { index, message, time: time_value(time) },
                None => StashView { index, message: rest, time: 0 },
            },
        ),
        None => None,
    }
}

/// The stashes that `lines` describe. Their indices are those of their lines.
pub open spec fn stashes_of(lines: Seq<Seq<char>>) -> Seq<StashView>
    decreases lines.len(),
{
    if lines.len() == 0 {
        Seq::empty()
    } else {
        let rest = stashes_of(lines.drop_last());
        match stash_of((lines.len() - 1) as usize, lines.last()) {
            Some(s) => rest.push(s),
            None => rest,
        }
    }
}

fn read_stash(index: usize, line: &str) -> (r: Option<StashEntry>)
    ensures
        match r {
            Some(s) => stash_of(index, line@) == Some(s@),
            None => stash_of(index, line@) is None,
        },
{
    match split_once(line, "\0") {
        Some((_, rest)) => match split_once(rest.as_str(), "\0") {
            Some((message, time)) => {
                let time: i64 = match parse_int(time.as_str()) {
                    Some(t) => t,
                    None => 0,
                };
                Some(StashEntry { index, message, time })
            },
            None => Some(StashEntry { index, message: rest, time: 0 }),
        },
        None => None,
    }
}

/// List all stash entries from the output of `git stash list`.
pub fn stash_list(output: &str) -> (r: Vec<StashEntry>)
    ensures
        text::views(r@) == stashes_of(text::lines(output@)),
{
    let lines = lines_of(output);
    let ghost all = text::views(lines@);
    let mut r: Vec<StashEntry> = Vec::new();
    let mut i: usize = 0;
    assert(text::views(r@) =~= stashes_of(all.take(0)));
    while i < lines.len()
        invariant
            i <= lines.len(),
            all == text::views(lines@),
            text::views(r@) == stashes_of(all.take(i as int)),
        decreases lines.len() - i,
    {
        proof {
            assert(all.take(i + 1).drop_last() =~= all.take(i as int));
            assert(all.take(i + 1).last() == lines@[i as int]@);
        }
        let ghost before = r@;
        if let Some(s) = read_stash(i, lines[i].as_str()) {
            r.push(s);
            assert(text::views(r@) =~= text::views(before).push(s@));
        }
        i = i + 1;
    }
    assert(all.take(all.len() as int) =~= all);
    r
}

// ---------------------------------------------------------------------------
// Commit messages
// ---------------------------------------------------------------------------

/// Subject and body of a message: its first line and the rest, without the white space around
/// them.
pub open spec fn subject_and_body(message: Seq<char>) -> (Seq<char>, Seq<char>) {
    match text::cut(message, "\n"@) {
        Some((subject, body)) => (text::trim(subject), text::trim(body)),
        None => (text::trim(message), Seq::empty()),
    }
}

/// Get the HEAD commit's message split into (subject, body).
pub fn head_commit_message(message: &str) -> (r: (String, String))
    ensures
        (r.0@, r.1@) == subject_and_body(message@),
{
    match split_once(message, "\n") {
        Some((subject, body)) => (trimmed(subject.as_str()), trimmed(body.as_str())),
        None => (trimmed(message), String::new()),
    }
}

/// What discarding the changes to a file takes.
#[derive(Clone, Copy, Debug, PartialEq, Eq, Structural)]
pub enum DiscardAction {
    /// Nothing: the file is new, and there is no working directory it could be in.
    Nothing,
    RemoveDirectory,
    RemoveFile,
    /// Restore the file to what is staged.
    CheckoutIndex,
}

/// How to discard unstaged changes to a file: a file that git does not know is deleted, any
/// other restored to its state in the index. `on_disk` says, where there is a working
/// directory, whether the path is a directory in it.
pub fn discard_file(flags: Option<StatusFlags>, on_disk: Option<bool>) -> (r: DiscardAction)
    ensures
        r == (if flags is Some && flags->0.wt_new {
            match on_disk {
                Some(is_dir) => if is_dir {
                    DiscardAction::RemoveDirectory
                } else {
                    DiscardAction::RemoveFile
                },
                None => DiscardAction::Nothing,
            }
        } else {
            DiscardAction::CheckoutIndex
        }),
{
    let is_new = match flags {
        Some(f) => f.wt_new,
        None => false,
    };
    if is_new {
        match on_disk {
            Some(is_dir) => if is_dir {
                DiscardAction::RemoveDirectory
            } else {
                DiscardAction::RemoveFile
            },
            None => DiscardAction::Nothing,
        }
    } else {
        DiscardAction::CheckoutIndex
    }
}

/// The short forms of ids.
pub open spec fn short_ids(ids: Seq<Oid>) -> Seq<Seq<char>> {
    Seq::new(ids.len(), |i: int| ids[i].short())
}

/// Get full commit information for the detail panel.
pub fn full_commit_info(parts: CommitParts) -> (r: FullCommitInfo)
    ensures
        r.id == parts.id,
        r.short_id@ == parts.id.short(),
        r.full_message@ == git::or_text(text::opt_view(parts.message), ""@),
        r.author_name@ == git::or_text(text::opt_view(parts.author_name), "Unknown"@),
        r.author_email@ == git::or_text(text::opt_view(parts.author_email), ""@),
        r.author_time == parts.time,
        text::views(r.parent_short_ids@) == short_ids(parts.parent_ids@),
{
    let mut parents: Vec<String> = Vec::new();
    let ghost all = short_ids(parts.parent_ids@);
    let mut i: usize = 0;
    while i < parts.parent_ids.len()
        invariant
            i <= parts.parent_ids.len(),
            all == short_ids(parts.parent_ids@),
            text::views(parents@) == all.take(i as int),
        decreases parts.parent_ids.len() - i,
    {
        let ghost before = parents@;
        let s = parts.parent_ids[i].short_id();
        parents.push(s);
        assert(text::views(parents@) =~= text::views(before).push(s@));
        i = i + 1;
        assert(text::views(parents@) =~= all.take(i as int));
    }
    assert(all.take(all.len() as int) =~= all);
    FullCommitInfo {
        id: parts.id,
        short_id: parts.id.short_id(),
        full_message: git::text_or(&parts.message, ""),
        author_name: git::text_or(&parts.author_name, "Unknown"),
        author_email: git::text_or(&parts.author_email, ""),
        author_time: parts.time,
        parent_short_ids: parents,
    }
}

// ---------------------------------------------------------------------------
// Submodules of a commit
// ---------------------------------------------------------------------------

/// Where the reader of a `.gitmodules` file stands.
#[verifier::ext_equal]
pub struct ModulesView {
    /// The names read so far, by their paths.
    pub names: Seq<(Seq<char>, Seq<char>)>,
    pub name: Option<Seq<char>>,
    pub path: Option<Seq<char>>,
}

/// The names with the one that was being read.
pub open spec fn flushed(m: ModulesView) -> Seq<(Seq<char>, Seq<char>)> {
    match (m.path, m.name) {
        (Some(p), Some(n)) => text_map::put(m.names, p, n),
        _ => m.names,
    }
}

/// The name in the heading of a section.
pub open spec fn section_name(heading: Seq<char>) -> Option<Seq<char>> {
    match text::after_prefix(heading, "[submodule \""@) {
        Some(s) => text::before_suffix(s, "\"]"@),
        None => None,
    }
}

/// The value after the key "path".
pub open spec fn path_value(rest: Seq<char>) -> Seq<char> {
    text::trim(
        match text::after_prefix(text::trim(rest), "="@) {
            Some(v) => v,
            None => rest,
        },
    )
}

/// The reader after a line.
pub open spec fn modules_after(m: ModulesView, line: Seq<char>) -> ModulesView {
    let t = text::trim(line);
    if text::begins(t, "[submodule "@) {
        ModulesView { names: flushed(m), name: section_name(t), path: None }
    } else {
        match text::after_prefix(t, "path"@) {
            Some(rest) => ModulesView { path: Some(path_value(rest)), ..m },
            None => m,
        }
    }
}

/// The reader after lines.
pub open spec fn modules_read(lines: Seq<Seq<char>>) -> ModulesView
    decreases lines.len(),
{
    if lines.len() == 0 {
        ModulesView { names: Seq::empty(), name: None, path: None }
    } else {
        modules_after(modules_read(lines.drop_last()), lines.last())
    }
}

/// The names of submodules by their paths, as a `.gitmodules` file gives them.
pub open spec fn module_names(content: Seq<char>) -> Seq<(Seq<char>, Seq<char>)> {
    flushed(modules_read(text::lines(content)))
}

/// A map of text by the views of its values.
pub open spec fn text_pairs(m: TextMap<String>) -> Seq<(Seq<char>, Seq<char>)> {
    Seq::new(m.list().len(), |i: int| (m.list()[i].0, m.list()[i].1@))
}

fn flush(map: &mut TextMap<String>, path: &Option<String>, name: &Option<String>)
    requires
        old(map).wf(),
    ensures
        final(map).wf(),
        text_pairs(*final(map)) == flushed(
            (ModulesView {
                names: text_pairs(*old(map)),
                name: text::opt_view(*name),
                path: text::opt_view(*path),
            }),
        ),
{
    if let Some(p) = path {
        if let Some(n) = name {
            let ghost before = map.list();
            map.insert(p.clone(), n.clone());
            proof {
                lemma_text_pairs_put(before, p@, *n);
                assert(text_pairs(*map) =~= text_map::put(text_pairs(*old(map)), p@, n@));
            }
        }
    }
}

proof fn lemma_text_pairs_put(s: Seq<(Seq<char>, String)>, key: Seq<char>, value: String)
    ensures
        ({
            let f = Seq::new(s.len(), |i: int| (s[i].0, s[i].1@));
            let t = text_map::put(s, key, value);
            Seq::new(t.len(), |i: int| (t[i].0, t[i].1@)) == text_map::put(f, key, value@)
        }),
{
    let f = Seq::new(s.len(), |i: int| (s[i].0, s[i].1@));
    lemma_same_index(s, f, key);
    text_map::lemma_key_index(s, key);
    let t = text_map::put(s, key, value);
    assert(Seq::new(t.len(), |i: int| (t[i].0, t[i].1@)) =~= text_map::put(f, key, value@));
}

proof fn lemma_same_index(s: Seq<(Seq<char>, String)>, f: Seq<(Seq<char>, Seq<char>)>, key: Seq<
    char,
>)
    requires
        s.len() == f.len(),
        forall|i: int| 0 <= i < s.len() ==> (#[trigger] f[i]).0 == s[i].0,
    ensures
        text_map::key_index(s, key) == text_map::key_index(f, key),
    decreases s.len(),
{
    if s.len() > 0 && s[0].0 != key {
        assert(f[0].0 == s[0].0);
        assert forall|i: int| 0 <= i < s.skip(1).len() implies (#[trigger] f.skip(1)[i]).0
            == s.skip(1)[i].0 by {
            assert(f[i + 1].0 == s[i + 1].0);
        }
        lemma_same_index(s.skip(1), f.skip(1), key);
    } else if s.len() > 0 {
        assert(f[0].0 == s[0].0);
    }
}

/// Parse the content of `.gitmodules` to build a path→name mapping.
pub fn parse_gitmodules(content: &str) -> (r: TextMap<String>)
    ensures
        r.wf(),
        text_pairs(r) == module_names(content@),
{
    let lines = lines_of(content);
    let ghost all = text::views(lines@);
    let mut map: TextMap<String> = TextMap::new();
    let mut name: Option<String> = None;
    let mut path: Option<String> = None;
    let mut i: usize = 0;
    assert(text_pairs(map) =~= Seq::empty());
    assert(all.take(0) =~= Seq::empty());
    while i < lines.len()
        invariant
            i <= lines.len(),
            all == text::views(lines@),
            map.wf(),
            modules_read(all.take(i as int)) == (ModulesView {
                names: text_pairs(map),
                name: text::opt_view(name),
                path: text::opt_view(path),
            }),
        decreases lines.len() - i,
    {
        proof {
            assert(all.take(i + 1).drop_last() =~= all.take(i as int));
            assert(all.take(i + 1).last() == lines@[i as int]@);
        }
        let t = trimmed(lines[i].as_str());
        if starts_with(t.as_str(), "[submodule ") {
            flush(&mut map, &path, &name);
            name = match strip_prefix(t.as_str(), "[submodule \"") {
                Some(s) => strip_suffix(s.as_str(), "\"]"),
                None => None,
            };
            path = None;
        } else if let Some(rest) = strip_prefix(t.as_str(), "path") {
            let value = trimmed(rest.as_str());
            let value = match strip_prefix(value.as_str(), "=") {
                Some(v) => v,
                None => rest,
            };
            path = Some(trimmed(value.as_str()));
        }
        i = i + 1;
    }
    assert(all.take(all.len() as int) =~= all);
    flush(&mut map, &path, &name);
    map
}

/// A submodule pointer in a tree: the directory it lies in, its name and what it pins.
pub struct TreePin {
    pub root: String,
    pub name: String,
    pub oid: Oid,
}

/// The pointers by their paths.
pub open spec fn pins_of(pins: Seq<TreePin>) -> Seq<(Seq<char>, Oid)>
    decreases pins.len(),
{
    if pins.len() == 0 {
        Seq::empty()
    } else {
        text_map::put(
            pins_of(pins.drop_last()),
            pins.last().root@ + pins.last().name@,
            pins.last().oid,
        )
    }
}

/// Collect all submodule pin entries of a tree by their full paths.
pub fn collect_submodule_pins(pins: &Vec<TreePin>) -> (r: TextMap<Oid>)
    ensures
        r.wf(),
        r.list() == pins_of(pins@),
{
    let mut r: TextMap<Oid> = TextMap::new();
    let mut i: usize = 0;
    while i < pins.len()
        invariant
            i <= pins.len(),
            r.wf(),
            r.list() == pins_of(pins@.take(i as int)),
        decreases pins.len() - i,
    {
        let p = &pins[i];
        proof {
            assert(pins@.take(i + 1).drop_last() =~= pins@.take(i as int));
            assert(pins@.take(i + 1).last() == *p);
        }
        let mut path = p.root.clone();
        path.append(p.name.as_str());
        r.insert(path, p.oid);
        i = i + 1;
    }
    assert(pins@.take(pins@.len() as int) =~= pins@);
    r
}

/// A submodule of a commit by its views.
pub struct SubmoduleEntryView {
    pub name: Seq<char>,
    pub path: Seq<char>,
    pub pinned_oid: Oid,
    pub changed: bool,
    pub parent_oid: Option<Oid>,
}

impl View for CommitSubmoduleEntry {
    type V = SubmoduleEntryView;

    open spec fn view(&self) -> SubmoduleEntryView {
        SubmoduleEntryView {
            name: self.name@,
            path: self.path@,
            pinned_oid: self.pinned_oid,
            changed: self.changed,
            parent_oid: self.parent_oid,
        }
    }
}

/// The value for `key` in a list of entries.
pub open spec fn looked_up<V>(s: Seq<(Seq<char>, V)>, key: Seq<char>) -> Option<V> {
    let i = text_map::key_index(s, key);
    if i < s.len() {
        Some(s[i].1)
    } else {
        None
    }
}

/// A submodule of a commit: it goes by its path where it has no name, and it changed where
/// the commit before pins another commit or none.
pub open spec fn submodule_entry(
    pin: (Seq<char>, Oid),
    before: Seq<(Seq<char>, Oid)>,
    names: Seq<(Seq<char>, Seq<char>)>,
) -> SubmoduleEntryView {
    SubmoduleEntryView {
        name: match looked_up(names, pin.0) {
            Some(n) => n,
            None => pin.0,
        },
        path: pin.0,
        pinned_oid: pin.1,
        changed: looked_up(before, pin.0) != Some(pin.1),
        parent_oid: looked_up(before, pin.0),
    }
}

/// The changed ones first, each kind in the order of its names.
pub struct ChangedFirst;

impl Order<CommitSubmoduleEntry> for ChangedFirst {
    open spec fn before(a: SubmoduleEntryView, b: SubmoduleEntryView) -> bool {
        if a.changed != b.changed {
            a.changed
        } else {
            text::before_text(a.name, b.name)
        }
    }

    proof fn is_order(a: SubmoduleEntryView, b: SubmoduleEntryView, c: SubmoduleEntryView) {
        text::lemma_text_order(a.name, b.name, c.name);
    }

    fn is_before(a: &CommitSubmoduleEntry, b: &CommitSubmoduleEntry) -> (r: bool) {
        if a.changed != b.changed {
            a.changed
        } else {
            text_before(a.name.as_str(), b.name.as_str())
        }
    }
}

/// The submodules of a commit.
pub open spec fn commit_submodules(
    pins: Seq<(Seq<char>, Oid)>,
    before: Seq<(Seq<char>, Oid)>,
    names: Seq<(Seq<char>, Seq<char>)>,
) -> Seq<SubmoduleEntryView> {
    order::sorted::<CommitSubmoduleEntry, ChangedFirst>(
        Seq::new(pins.len(), |i: int| submodule_entry(pins[i], before, names)),
    )
}

/// Get submodule entries pinned by a commit's tree, where `pins` are its pointers, `before`
/// those of the tree of its first parent, and `content` is that of its `.gitmodules`.
pub fn submodules_at_commit(pins: &Vec<TreePin>, before: &Vec<TreePin>, content: &str) -> (r: Vec<
    CommitSubmoduleEntry,
>)
    ensures
        text::views(r@) == commit_submodules(
            pins_of(pins@),
            pins_of(before@),
            module_names(content@),
        ),
{
    let names = parse_gitmodules(content);
    let pins = collect_submodule_pins(pins);
    let before = collect_submodule_pins(before);
    let ghost all = Seq::new(
        pins.list().len(),
        |i: int| submodule_entry(pins.list()[i], before.list(), text_pairs(names)),
    );
    let mut entries: Vec<CommitSubmoduleEntry> = Vec::new();
    let mut i: usize = 0;
    while i < pins.len()
        invariant
            i <= pins.list().len(),
            all == Seq::new(
                pins.list().len(),
                |i: int| submodule_entry(pins.list()[i], before.list(), text_pairs(names)),
            ),
            text::views(entries@) == all.take(i as int),
        decreases pins.list().len() - i,
    {
        let path = pins.key(i);
        let pinned_oid = *pins.value(i);
        proof {
            lemma_same_index(names.list(), text_pairs(names), path@);
            text_map::lemma_key_index(names.list(), path@);
            text_map::lemma_key_index(before.list(), path@);
        }
        let name = match names.get(path.as_str()) {
            Some(n) => n.clone(),
            None => path.clone(),
        };
        let parent_oid = match before.get(path.as_str()) {
            Some(id) => Some(*id),
            None => None,
        };
        let changed = match parent_oid {
            Some(id) => id != pinned_oid,
            None => true,
        };
        let e = CommitSubmoduleEntry { name, path: path.clone(), pinned_oid, changed, parent_oid };
        assert(e@ == all[i as int]);
        let ghost old_entries = entries@;
        entries.push(e);
        assert(text::views(entries@) =~= text::views(old_entries).push(e@));
        i = i + 1;
        assert(text::views(entries@) =~= all.take(i as int));
    }
    assert(all.take(all.len() as int) =~= all);
    sort::<CommitSubmoduleEntry, ChangedFirst>(entries)
}

// ---------------------------------------------------------------------------
// Laws
// ---------------------------------------------------------------------------

/// A branch that follows one of a remote is sent to that remote: the part of the upstream's name
/// before the first slash. Where it follows none, "origin" is preferred, and another remote is
/// taken only where there is no "origin".
pub proof fn the_upstream_names_the_remote(
    remote: Seq<char>,
    branch: Seq<char>,
    has_origin: bool,
    remotes: Seq<Option<String>>,
)
    requires
        !remote.contains('/'),
    ensures
        remote_by_default(Some(remote + seq!['/'] + branch), has_origin, remotes) == Some(remote),
        remote_by_default(None, true, remotes) == Some("origin"@),
        remotes.len() > 0 && remotes[0] is Some ==> remote_by_default(None, false, remotes) == Some(
            remotes[0]->0@,
        ),
        remote_by_default(None, false, Seq::empty()) is None,
{
    text::lemma_pieces_concat(remote, '/', branch);
    text::lemma_one_piece(remote, '/');
}

/// A stash is read from what is printed of it: its place in the list, its message and, where it
/// is printed, its time. A line without a zero character is none.
pub proof fn stashes_are_read_as_printed(
    index: usize,
    name: Seq<char>,
    message: Seq<char>,
    time: nat,
    line: Seq<char>,
)
    requires
        !name.contains('\0'),
        !message.contains('\0'),
        !line.contains('\0'),
        time <= i64::MAX,
    ensures
        stash_of(index, name + seq!['\0'] + (message + seq!['\0'] + text::dec(time))) == Some(
            StashView { index, message, time: time as i64 },
        ),
        stash_of(index, name + seq!['\0'] + message) == Some(
            StashView { index, message, time: 0 },
        ),
        stash_of(index, line) is None,
{
    reveal_strlit("\0");
    let p = "\0"@;
    assert(p =~= seq!['\0']);
    text::lemma_cut_at_mark(name, '\0', p, message + seq!['\0'] + text::dec(time));
    text::lemma_cut_at_mark(message, '\0', p, text::dec(time));
    text::lemma_cut_at_mark(name, '\0', p, message);
    text::integers_are_read(time);
    text::cutting_parts_at_the_first_mark(message, p);
    text::cutting_parts_at_the_first_mark(line, p);
    if let Some((x, y)) = text::cut(message, p) {
        assert((x + p + y)[x.len() as int] == '\0');
        assert(message.contains('\0'));
    }
    if let Some((x, y)) = text::cut(line, p) {
        assert((x + p + y)[x.len() as int] == '\0');
        assert(line.contains('\0'));
    }
}

/// Each line gives its stash, with the number of the line for its index, after those of the lines
/// before; a line that describes none leaves the list as it is, but keeps its number.
pub proof fn each_line_gives_its_stash(lines: Seq<Seq<char>>, line: Seq<char>)
    requires
        lines.len() <= usize::MAX,
    ensures
        stashes_of(lines.push(line)) == (match stash_of(lines.len() as usize, line) {
            Some(s) => stashes_of(lines).push(s),
            None => stashes_of(lines),
        }),
        stashes_of(Seq::empty()) == Seq::<StashView>::empty(),
{
    assert(lines.push(line).drop_last() =~= lines);
}

/// Subject and body of a message are its first line and what follows, without the white space
/// around each; a message of one line has no body.
pub proof fn the_first_line_is_the_subject(first: Seq<char>, rest: Seq<char>)
    requires
        !first.contains('\n'),
    ensures
        subject_and_body(first + seq!['\n'] + rest) == (text::trim(first), text::trim(rest)),
        subject_and_body(first) == (text::trim(first), Seq::<char>::empty()),
{
    reveal_strlit("\n");
    let p = "\n"@;
    assert(p =~= seq!['\n']);
    text::lemma_cut_at_mark(first, '\n', p, rest);
    text::cutting_parts_at_the_first_mark(first, p);
    if let Some((x, y)) = text::cut(first, p) {
        assert((x + p + y)[x.len() as int] == '\n');
        assert(first.contains('\n'));
    }
}

/// A section of `.gitmodules` gives the path its name: after a heading with a name and a line
/// with a path, the name is found at the path, and what was read before is kept but for what
/// stood at that path. A line that is neither a heading nor a path changes nothing.
pub proof fn sections_name_their_paths(
    m: ModulesView,
    name: Seq<char>,
    path: Seq<char>,
    other: Seq<char>,
)
    requires
        path.len() > 0,
        !text::is_white(path[0]),
        !text::is_white(path.last()),
        !text::begins(text::trim(other), "[submodule "@),
        !text::begins(text::trim(other), "path"@),
    ensures
        ({
            let heading = "[submodule \""@ + name + "\"]"@;
            let line = seq!['\t'] + "path = "@ + path;
            flushed(modules_after(modules_after(m, heading), line)) == text_map::put(
                flushed(m),
                path,
                name,
            )
        }),
        modules_after(m, other) == m,
{
    reveal_strlit("[submodule \"");
    reveal_strlit("[submodule ");
    reveal_strlit("\"]");
    reveal_strlit("path = ");
    reveal_strlit("path");
    reveal_strlit("=");
    let heading = "[submodule \""@ + name + "\"]"@;
    let line = seq!['\t'] + "path = "@ + path;
    text::lemma_nothing_to_trim(heading);
    assert(heading.subrange(0, "[submodule "@.len() as int) =~= "[submodule "@);
    text::beginnings_and_ends_are_taken_off("[submodule \""@, name + "\"]"@);
    text::beginnings_and_ends_are_taken_off("\"]"@, name);
    assert(heading =~= "[submodule \""@ + (name + "\"]"@));
    assert(section_name(heading) == Some(name));
    let t = "path = "@ + path;
    text::lemma_white_begin(t, '\t');
    assert(line =~= seq!['\t'] + t);
    text::lemma_nothing_to_trim(t);
    assert(text::trim(line) == t);
    assert(t[0] == 'p');
    assert("[submodule "@[0] == '[');
    if text::begins(t, "[submodule "@) {
        assert(t.subrange(0, "[submodule "@.len() as int)[0] == t[0]);
    }
    let rest = seq![' ', '=', ' '] + path;
    text::beginnings_and_ends_are_taken_off("path"@, rest);
    assert(t =~= "path"@ + rest);
    let after = seq!['=', ' '] + path;
    text::lemma_white_begin(after, ' ');
    assert(rest =~= seq![' '] + after);
    text::lemma_nothing_to_trim(after);
    text::beginnings_and_ends_are_taken_off("="@, seq![' '] + path);
    assert(after =~= "="@ + (seq![' '] + path));
    text::lemma_white_begin(path, ' ');
    text::lemma_nothing_to_trim(path);
    assert(path_value(rest) == path);
}

/// Each pointer of a tree is found at its path: the directory it lies in and its name. What no
/// pointer has for its path is not found.
pub proof fn pins_are_found_at_their_paths(pins: Seq<TreePin>, k: int, path: Seq<char>)
    ensures
        0 <= k < pins.len() && path == pins[k].root@ + pins[k].name@ && (forall|j: int|
            k < j < pins.len() ==> (#[trigger] pins[j]).root@ + pins[j].name@ != path) ==> looked_up(
            pins_of(pins),
            path,
        ) == Some(pins[k].oid),
        (forall|j: int|
            0 <= j < pins.len() ==> (#[trigger] pins[j]).root@ + pins[j].name@ != path)
            ==> looked_up(pins_of(pins), path) is None,
        text_map::keys_of(pins_of(pins)).no_duplicates(),
    decreases pins.len(),
{
    if pins.len() > 0 {
        let front = pins.drop_last();
        let last = pins.last();
        let at = last.root@ + last.name@;
        assert(pins[pins.len() - 1] == last);
        pins_are_found_at_their_paths(front, k, path);
        text_map::put_is_found(pins_of(front), at, last.oid);
        text_map::lemma_key_index(pins_of(front), path);
        if path != at {
            text_map::put_leaves_other_keys_alone(pins_of(front), at, last.oid, path);
        }
        if 0 <= k < front.len() {
            assert(front[k] == pins[k]);
        }
        if forall|j: int|
            0 <= j < pins.len() ==> (#[trigger] pins[j]).root@ + pins[j].name@ != path {
            assert forall|j: int| 0 <= j < front.len() implies (#[trigger] front[j]).root@
                + front[j].name@ != path by {
                assert(front[j] == pins[j]);
            }
        }
        if 0 <= k < pins.len() && path == pins[k].root@ + pins[k].name@ && (forall|j: int|
            k < j < pins.len() ==> (#[trigger] pins[j]).root@ + pins[j].name@ != path) {
            if k < front.len() {
                assert forall|j: int| k < j < front.len() implies (#[trigger] front[j]).root@
                    + front[j].name@ != path by {
                    assert(front[j] == pins[j]);
                }
                assert(looked_up(pins_of(front), path) == Some(pins[k].oid));
                assert(path != at);
                assert(pins_of(pins) == text_map::put(pins_of(front), at, last.oid));
                let (a, b) = (pins_of(front), pins_of(pins));
                let i = text_map::key_index(a, path);
                text_map::put_leaves_other_keys_alone(a, at, last.oid, path);
                text_map::lemma_key_index(a, at);
                assert(i < a.len());
                assert(text_map::key_index(b, path) == i && b[i] == a[i]);
                assert(a.len() <= b.len());
                assert(looked_up(pins_of(pins), path) == Some(pins[k].oid));
            } else {
                assert(path == at);
                assert(pins_of(pins) == text_map::put(pins_of(front), at, last.oid));
                assert(looked_up(pins_of(pins), path) == Some(pins[k].oid));
            }
        }
    }
}

/// Every submodule that a commit pins is listed once, with what is pinned and what was pinned
/// before; it is marked as changed exactly where these differ or nothing was pinned before, and
/// goes by the name that `.gitmodules` gives its path, or else by its path. Those that changed
/// come first.
pub proof fn every_pinned_submodule_is_listed(
    pins: Seq<(Seq<char>, Oid)>,
    before: Seq<(Seq<char>, Oid)>,
    names: Seq<(Seq<char>, Seq<char>)>,
)
    ensures
        commit_submodules(pins, before, names).len() == pins.len(),
        forall|i: int|
            0 <= i < pins.len() ==> exists|k: int|
                0 <= k < pins.len() && (#[trigger] commit_submodules(pins, before, names)[k]).path
                    == (#[trigger] pins[i]).0 && commit_submodules(pins, before, names)[k].pinned_oid
                    == pins[i].1,
        forall|k: int|
            0 <= k < pins.len() ==> {
                let e = #[trigger] commit_submodules(pins, before, names)[k];
                &&& pins.contains((e.path, e.pinned_oid))
                &&& e.parent_oid == looked_up(before, e.path)
                &&& e.changed <==> e.parent_oid is None || e.parent_oid->0 != e.pinned_oid
                &&& looked_up(names, e.path) is Some ==> Some(e.name) == looked_up(names, e.path)
                &&& looked_up(names, e.path) is None ==> e.name == e.path
            },
        forall|j: int, k: int|
            0 <= j < k < pins.len() && (#[trigger] commit_submodules(pins, before, names)[k]).changed
                ==> (#[trigger] commit_submodules(pins, before, names)[j]).changed,
{
    broadcast use vstd::seq_lib::group_to_multiset_ensures;

    let all = Seq::new(pins.len(), |i: int| submodule_entry(pins[i], before, names));
    let r = commit_submodules(pins, before, names);
    order::sorting_keeps_values_and_orders_them::<CommitSubmoduleEntry, ChangedFirst>(all);
    assert forall|i: int| 0 <= i < pins.len() implies exists|k: int|
        0 <= k < pins.len() && (#[trigger] r[k]).path == (#[trigger] pins[i]).0 && r[k].pinned_oid
            == pins[i].1 by {
        assert(all.contains(all[i]));
        assert(r.to_multiset().count(all[i]) > 0);
        assert(r.contains(all[i]));
        let k = choose|k: int| 0 <= k < r.len() && r[k] == all[i];
        assert(r[k].path == pins[i].0);
    }
    assert forall|k: int| 0 <= k < pins.len() implies ({
        let e = #[trigger] r[k];
        &&& pins.contains((e.path, e.pinned_oid))
        &&& e.parent_oid == looked_up(before, e.path)
        &&& e.changed <==> e.parent_oid is None || e.parent_oid->0 != e.pinned_oid
        &&& looked_up(names, e.path) is Some ==> Some(e.name) == looked_up(names, e.path)
        &&& looked_up(names, e.path) is None ==> e.name == e.path
    }) by {
        assert(r.contains(r[k]));
        assert(all.to_multiset().count(r[k]) > 0);
        assert(all.contains(r[k]));
        let i = choose|i: int| 0 <= i < all.len() && all[i] == r[k];
        assert(pins[i] == (r[k].path, r[k].pinned_oid));
    }
}

/// The reader of `.gitmodules` reads one line after the other, to the last, and what it was in
/// the middle of at the end is not lost.
pub proof fn every_line_of_gitmodules_is_read(lines: Seq<Seq<char>>, line: Seq<char>)
    ensures
        modules_read(lines.push(line)) == modules_after(modules_read(lines), line),
        modules_read(Seq::empty()).names.len() == 0,
        forall|content: Seq<char>|
            text::lines(content) == lines ==> #[trigger] module_names(content) == flushed(
                modules_read(lines),
            ),
{
    assert(lines.push(line).drop_last() =~= lines);
}

/// Each parent is shown by its short id, in order.
pub proof fn parents_are_shown_by_their_short_ids(ids: Seq<Oid>, i: int)
    requires
        0 <= i < ids.len(),
    ensures
        short_ids(ids).len() == ids.len(),
        short_ids(ids)[i] == ids[i].digits().take(7),
{
}

} // verus!
