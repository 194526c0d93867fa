//! What is shown of the differences in the file that is selected.

use crate::git::diff::{self, DiffHunk, DiffLine};
use crate::git_async::DiffKey;
use crate::text::{self, push_dec};
use vstd::prelude::*;
use vstd::string::*;

verus! {

pub const DIFF_MODE_TOGGLE_KEY: &'static str = "diff:mode_toggle";

#[derive(Debug, Clone, Copy, PartialEq, Eq, Structural)]
pub enum DiffLineKind {
    Addition,
    Deletion,
    Context,
}

/// A line as it is shown.
#[derive(Debug)]
pub struct ShownLine {
    pub kind: DiffLineKind,
    pub content: String,
    pub old_lineno: Option<u32>,
    pub new_lineno: Option<u32>,
    pub highlights: Vec<(usize, usize)>,
}

/// What can be done with a hunk.
#[derive(Debug)]
pub struct DiffHunkAction {
    pub label: String,
    pub key: String,
    pub tooltip: Option<String>,
    pub destructive: bool,
}

/// What can be done with a hunk, by its views.
pub struct ActionView {
    pub label: Seq<char>,
    pub key: Seq<char>,
    pub tooltip: Option<Seq<char>>,
    pub destructive: bool,
}

impl View for DiffHunkAction {
    type V = ActionView;

    open spec fn view(&self) -> ActionView {
        ActionView {
            label: self.label@,
            key: self.key@,
            tooltip: text::opt_view(self.tooltip),
            destructive: self.destructive,
        }
    }
}

/// A hunk as it is shown.
#[derive(Debug)]
pub struct ShownHunk {
    pub header: String,
    pub lines: Vec<ShownLine>,
    pub actions: Vec<DiffHunkAction>,
}

/// What the pane shows.
pub enum DiffPane {
    /// Nothing is there to show; this is said instead.
    Empty(String),
    Diff(DiffData),
}

/// The differences as they are shown.
pub struct DiffData {
    pub title: String,
    pub badge: String,
    pub hunks: Vec<ShownHunk>,
}

/// What a line is, by the character before it.
pub open spec fn line_kind(origin: char) -> DiffLineKind {
    if origin == '+' {
        DiffLineKind::Addition
    } else if origin == '-' {
        DiffLineKind::Deletion
    } else {
        DiffLineKind::Context
    }
}

/// Whether a line is shown as it is.
pub open spec fn shows_line(s: ShownLine, l: DiffLine) -> bool {
    &&& s.kind == line_kind(l.origin)
    &&& s.content@ == l.content@
    &&& s.old_lineno == l.old_lineno
    &&& s.new_lineno == l.new_lineno
    &&& s.highlights@ == l.highlight_ranges@
}

/// What can be done with a hunk that is not yet committed.
pub open spec fn actions_for(idx: nat, path: Seq<char>, staged: bool) -> Seq<ActionView> {
    if staged {
        seq![
            ActionView {
                label: "Unstage"@,
                key: "unstage_hunk:"@ + text::dec(idx) + ":"@ + path,
                tooltip: Some("Unstage this hunk"@),
                destructive: false,
            },
        ]
    } else {
        seq![
            ActionView {
                label: "Stage"@,
                key: "stage_hunk:"@ + text::dec(idx) + ":"@ + path,
                tooltip: Some("Stage this hunk"@),
                destructive: false,
            },
            ActionView {
                label: "Discard"@,
                key: "discard_hunk:"@ + text::dec(idx) + ":"@ + path,
                tooltip: Some("Discard this hunk"@),
                destructive: true,
            },
        ]
    }
}

fn action(label: &str, verb: &str, idx: usize, path: &str, tip: &str, destructive: bool) -> (r:
    DiffHunkAction)
    ensures
        r@ == (ActionView {
            label: label@,
            key: verb@ + text::dec(idx as nat) + ":"@ + path@,
            tooltip: Some(tip@),
            destructive,
        }),
{
    let mut key = verb.to_owned();
    push_dec(&mut key, idx as u64);
    key.append(":");
    key.append(path);
    DiffHunkAction { label: label.to_owned(), key, tooltip: Some(tip.to_owned()), destructive }
}

/// What can be done with a hunk that is not yet committed.
pub fn working_actions(idx: usize, path: &str, staged: bool) -> (r: Vec<DiffHunkAction>)
    ensures
        text::views(r@) == actions_for(idx as nat, path@, staged),
{
    let mut r: Vec<DiffHunkAction> = Vec::new();
    if staged {
        r.push(action("Unstage", "unstage_hunk:", idx, path, "Unstage this hunk", false));
    } else {
        r.push(action("Stage", "stage_hunk:", idx, path, "Stage this hunk", false));
        r.push(action("Discard", "discard_hunk:", idx, path, "Discard this hunk", true));
    }
    assert(text::views(r@) =~= actions_for(idx as nat, path@, staged));
    r
}

/// Whether a hunk is shown as it is, with what can be done with it.
pub open spec fn shows_hunk(s: ShownHunk, h: DiffHunk, actions: Seq<ActionView>) -> bool {
    &&& s.header@ == h.header@
    &&& s.lines@.len() == h.lines@.len()
    &&& forall|i: int| 0 <= i < h.lines@.len() ==> shows_line(#[trigger] s.lines@[i], h.lines@[i])
    &&& text::views(s.actions@) == actions
}

fn copy_ranges(ranges: &Vec<(usize, usize)>) -> (r: Vec<(usize, usize)>)
    ensures
        r@ == ranges@,
{
    let mut r: Vec<(usize, usize)> = Vec::new();
    let mut i: usize = 0;
    while i < ranges.len()
        invariant
            i <= ranges.len(),
            r@ == ranges@.take(i as int),
        decreases ranges.len() - i,
    {
        r.push(ranges[i]);
        i = i + 1;
        assert(r@ =~= ranges@.take(i as int));
    }
    assert(r@ =~= ranges@);
    r
}

/// A hunk as it is shown.
pub fn convert_hunk(hunk: &DiffHunk, actions: Vec<DiffHunkAction>) -> (r: ShownHunk)
    ensures
        shows_hunk(r, *hunk, text::views(actions@)),
{
    let mut lines: Vec<ShownLine> = Vec::new();
    let mut i: usize = 0;
    while i < hunk.lines.len()
        invariant
            i <= hunk.lines.len(),
            lines@.len() == i,
            forall|k: int| 0 <= k < i ==> shows_line(#[trigger] lines@[k], hunk.lines@[k]),
        decreases hunk.lines.len() - i,
    {
        let l = &hunk.lines[i];
        let kind = if l.origin == '+' {
            DiffLineKind::Addition
        } else if l.origin == '-' {
            DiffLineKind::Deletion
        } else {
            DiffLineKind::Context
        };
        lines.push(
            ShownLine {
                kind,
                content: l.content.clone(),
                old_lineno: l.old_lineno,
                new_lineno: l.new_lineno,
                highlights: copy_ranges(&l.highlight_ranges),
            },
        );
        i = i + 1;
    }
    ShownHunk { header: hunk.header.clone(), lines, actions }
}

/// What the pane is made of.
pub struct DiffInput {
    pub has_view: bool,
    /// Whether a file is selected.
    pub file_selected: bool,
    /// The diff that is wanted.
    pub desired: Option<DiffKey>,
    /// The diff that was read last.
    pub cache: Option<(DiffKey, Vec<DiffHunk>)>,
}

/// The badge of a diff: the commit it is in, or whether it is staged.
pub open spec fn badge_of(key: DiffKey) -> Seq<char> {
    match key.commit {
        Some(oid) => oid.short(),
        None => if key.staged {
            "staged"@
        } else {
            "unstaged"@
        },
    }
}

/// What can be done with a hunk: nothing where it is in a commit already.
pub open spec fn hunk_actions(key: DiffKey, idx: nat) -> Seq<ActionView> {
    match key.commit {
        Some(_) => Seq::empty(),
        None => actions_for(idx, key.file@, key.staged),
    }
}

/// Whether a diff is shown as it was read.
pub open spec fn shows_diff(d: DiffData, key: DiffKey, hunks: Seq<DiffHunk>) -> bool {
    &&& d.title@ == key.file@
    &&& d.badge@ == badge_of(key)
    &&& d.hunks@.len() == hunks.len()
    &&& forall|i: int|
        0 <= i < hunks.len() ==> shows_hunk(
            #[trigger] d.hunks@[i],
            hunks[i],
            hunk_actions(key, i as nat),
        )
}

/// Render the diff pane from what was read last. While newer content is being read, the
/// previous hunks for the same target are shown, so that edits don't flash a loading state.
pub fn diff_view(input: &DiffInput) -> (r: DiffPane)
    ensures
        match r {
            DiffPane::Empty(s) => s@ == (if !input.has_view {
                "No active worktree."@
            } else if !input.file_selected || input.desired is None {
                "No file selected."@
            } else {
                "Loading diff…"@
            }) && (input.has_view && input.file_selected && input.desired is Some ==> match input.cache {
                Some((key, _)) => !key.targets(input.desired->0),
                None => true,
            }),
            DiffPane::Diff(d) => {
                &&& input.has_view
                &&& input.file_selected
                &&& input.desired is Some
                &&& match input.cache {
                    Some((key, hunks)) => key.targets(input.desired->0) && shows_diff(
                        d,
                        key,
                        hunks@,
                    ),
                    None => false,
                }
            },
        },
{
    if !input.has_view {
        return DiffPane::Empty("No active worktree.".to_owned());
    }
    if !input.file_selected {
        return DiffPane::Empty("No file selected.".to_owned());
    }
    let desired = match &input.desired {
        Some(d) => d,
        None => {
            return DiffPane::Empty("No file selected.".to_owned());
        },
    };
    let (key, hunks) = match &input.cache {
        Some((k, h)) => (k, h),
        None => {
            return DiffPane::Empty("Loading diff…".to_owned());
        },
    };
    if !key.same_target(desired) {
        return DiffPane::Empty("Loading diff…".to_owned());
    }
    let badge = match key.commit {
        Some(oid) => oid.short_id(),
        None => if key.staged {
            "staged".to_owned()
        } else {
            "unstaged".to_owned()
        },
    };
    let mut shown: Vec<ShownHunk> = Vec::new();
    let mut i: usize = 0;
    while i < hunks.len()
        invariant
            i <= hunks.len(),
            shown@.len() == i,
            forall|k: int|
                0 <= k < i ==> shows_hunk(
                    #[trigger] shown@[k],
                    hunks@[k],
                    hunk_actions(*key, k as nat),
                ),
        decreases hunks.len() - i,
    {
        let actions = match key.commit {
            Some(_) => {
                let none: Vec<DiffHunkAction> = Vec::new();
                assert(text::views(none@) =~= Seq::empty());
                none
            },
            None => working_actions(i, key.file.as_str(), key.staged),
        };
        shown.push(convert_hunk(&hunks[i], actions));
        i = i + 1;
    }
    DiffPane::Diff(DiffData { title: key.file.clone(), badge, hunks: shown })
}

/// Nothing can be done with the hunks of a commit, and what can be done with the others never
/// both stages and unstages.
pub proof fn history_cannot_be_staged(key: DiffKey, idx: nat)
    ensures
        key.commit is Some ==> hunk_actions(key, idx).len() == 0,
        key.commit is None && key.staged ==> hunk_actions(key, idx).len() == 1,
        key.commit is None && !key.staged ==> hunk_actions(key, idx).len() == 2
            && !hunk_actions(key, idx)[0].destructive && hunk_actions(key, idx)[1].destructive,
{
}

/// A diff is shown whole: every hunk with its header, every line in its order with its text, its
/// numbers and what is highlighted in it; a line is an addition or a deletion exactly where it
/// came as one.
pub proof fn every_line_is_shown(d: DiffData, key: DiffKey, hunks: Seq<DiffHunk>, h: int, i: int)
    requires
        shows_diff(d, key, hunks),
        0 <= h < hunks.len(),
        0 <= i < hunks[h].lines@.len(),
    ensures
        d.title@ == key.file@,
        d.hunks@.len() == hunks.len(),
        d.hunks@[h].header@ == hunks[h].header@,
        d.hunks@[h].lines@.len() == hunks[h].lines@.len(),
        ({
            let s = d.hunks@[h].lines@[i];
            let l = hunks[h].lines@[i];
            &&& s.content@ == l.content@
            &&& s.old_lineno == l.old_lineno
            &&& s.new_lineno == l.new_lineno
            &&& s.highlights@ == l.highlight_ranges@
            &&& s.kind is Addition <==> l.origin == '+'
            &&& s.kind is Deletion <==> l.origin == '-'
        }),
{
    assert(shows_hunk(d.hunks@[h], hunks[h], hunk_actions(key, h as nat)));
    assert(shows_line(d.hunks@[h].lines@[i], hunks[h].lines@[i]));
}

/// A hunk that is staged can be unstaged, one that is not can be staged or discarded, and each
/// button names the hunk by its place and its file. Only discarding loses something.
pub proof fn hunks_can_be_moved_to_the_other_side(key: DiffKey, idx: nat)
    requires
        key.commit is None,
    ensures
        ({
            let a = hunk_actions(key, idx);
            let named = text::dec(idx) + ":"@ + key.file@;
            &&& key.staged ==> a.len() == 1 && a[0].label == "Unstage"@ && a[0].key
                == "unstage_hunk:"@ + named && !a[0].destructive
            &&& !key.staged ==> a.len() == 2 && a[0].label == "Stage"@ && a[0].key
                == "stage_hunk:"@ + named && !a[0].destructive
            &&& !key.staged ==> a[1].label == "Discard"@ && a[1].key == "discard_hunk:"@ + named
                && a[1].destructive
        }),
        key.staged ==> badge_of(key) == "staged"@,
        !key.staged ==> badge_of(key) == "unstaged"@,
{
    let named = text::dec(idx) + ":"@ + key.file@;
    assert("unstage_hunk:"@ + text::dec(idx) + ":"@ + key.file@ =~= "unstage_hunk:"@ + named);
    assert("stage_hunk:"@ + text::dec(idx) + ":"@ + key.file@ =~= "stage_hunk:"@ + named);
    assert("discard_hunk:"@ + text::dec(idx) + ":"@ + key.file@ =~= "discard_hunk:"@ + named);
}

} // verus!
