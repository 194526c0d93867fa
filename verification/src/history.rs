//! The history pane: what each row says of its commit, and which rows match a search.

use crate::ci::{CheckView, CiState, ProviderCommitRollup, ProviderRollupView};
use crate::commit_graph::{CommitLayout, Paint};
use crate::git::{self, BranchTip, CommitInfo, CommitView, TagInfo};
use crate::oid::Oid;
use crate::text::{
    self, contains, dec_string, joined, push_dec, same, split_once, starts_with, to_lowercase,
    to_uppercase,
};
use crate::text_map::TextMap;
use vstd::prelude::*;
use vstd::string::*;

verus! {

/// The part that a color plays.
#[derive(Debug, Clone, Copy, PartialEq, Eq, Structural)]
pub enum Tint {
    Primary,
    Success,
    Warning,
    Info,
    Destructive,
    Foreground,
    Muted,
}

/// The tint of a lane, or of a commit that only reflogs reach.
pub open spec fn tint_of(p: Paint) -> Tint {
    match p {
        Paint::Lane(i) => if i == 0 {
            Tint::Primary
        } else if i == 1 {
            Tint::Success
        } else if i == 2 {
            Tint::Warning
        } else if i == 3 {
            Tint::Info
        } else if i == 4 {
            Tint::Destructive
        } else {
            Tint::Foreground
        },
        Paint::Orphan => Tint::Muted,
    }
}

/// The tint of a lane, or of a commit that only reflogs reach.
pub fn paint_tint(p: Paint) -> (r: Tint)
    ensures
        r == tint_of(p),
{
    match p {
        Paint::Lane(i) => if i == 0 {
            Tint::Primary
        } else if i == 1 {
            Tint::Success
        } else if i == 2 {
            Tint::Warning
        } else if i == 3 {
            Tint::Info
        } else if i == 4 {
            Tint::Destructive
        } else {
            Tint::Foreground
        },
        Paint::Orphan => Tint::Muted,
    }
}

// ---------------------------------------------------------------------------
// Authors
// ---------------------------------------------------------------------------

/// How many colors stand for authors without a picture.
pub const IDENTICON_COLOR_COUNT: usize = 8;

/// The hash of an author's name.
pub open spec fn author_hash(bytes: Seq<u8>) -> int
    decreases bytes.len(),
{
    if bytes.len() == 0 {
        0
    } else {
        (author_hash(bytes.drop_last()) * 31 + bytes.last()) % 0x1_0000_0000
    }
}

/// Hash an author name to a deterministic color slot.
pub fn author_color(author: &str) -> (r: usize)
    ensures
        r == author_hash(vstd::utf8::encode_utf8(author@)) % IDENTICON_COLOR_COUNT as int,
        r < IDENTICON_COLOR_COUNT,
{
    let bytes = author.as_bytes();
    let mut hash: u64 = 0;
    let mut i: usize = 0;
    while i < bytes.len()
        invariant
            i <= bytes.len(),
            hash < 0x1_0000_0000,
            hash == author_hash(bytes@.take(i as int)),
        decreases bytes.len() - i,
    {
        assert(bytes@.take(i + 1).drop_last() =~= bytes@.take(i as int));
        hash = (hash * 31 + bytes[i] as u64) % 0x1_0000_0000;
        i = i + 1;
    }
    assert(bytes@.take(bytes@.len() as int) =~= bytes@);
    (hash % (IDENTICON_COLOR_COUNT as u64)) as usize
}

/// The letter that stands for an author: the first of the name as a capital, or a question
/// mark.
pub open spec fn initial_of(author: Seq<char>) -> Seq<char> {
    if author.len() > 0 {
        text::uppercase(seq![author[0]])
    } else {
        "?"@
    }
}

/// The letter that stands for an author without a picture.
pub fn author_initial(author: &str) -> (r: String)
    ensures
        r@ == initial_of(author@),
{
    if author.is_empty() {
        return "?".to_owned();
    }
    let first = author.substring_char(0, 1);
    assert(first@ =~= seq![author@[0]]);
    to_uppercase(first)
}

/// What stands for an author: a picture where one is loaded, else the initial on a colored
/// disc.
pub struct Avatar {
    pub key: String,
    pub tooltip: String,
    pub initial: String,
    pub color: usize,
}

/// Whether an avatar is that of `author`.
pub open spec fn stands_for(a: Avatar, author: Seq<char>, key: Seq<char>) -> bool {
    &&& a.key@ == key
    &&& a.tooltip@ == author
    &&& a.initial@ == initial_of(author)
    &&& a.color == author_hash(vstd::utf8::encode_utf8(author)) % IDENTICON_COLOR_COUNT as int
}

/// The avatar of an author.
pub fn author_avatar(author: &str, key: String) -> (r: Avatar)
    ensures
        stands_for(r, author@, key@),
{
    Avatar {
        key,
        tooltip: author.to_owned(),
        initial: author_initial(author),
        color: author_color(author),
    }
}

// ---------------------------------------------------------------------------
// Checks and statistics
// ---------------------------------------------------------------------------

/// The tint of a state.
pub open spec fn state_tint(s: CiState) -> Tint {
    match s {
        CiState::Success => Tint::Success,
        CiState::Failure => Tint::Destructive,
        CiState::Pending => Tint::Warning,
        CiState::Absent => Tint::Muted,
    }
}

/// The mark of a state.
pub open spec fn state_mark(s: CiState) -> Seq<char> {
    match s {
        CiState::Success => "\u{2713}"@,
        CiState::Failure => "\u{2717}"@,
        CiState::Pending => "\u{22ef}"@,
        CiState::Absent => "\u{2014}"@,
    }
}

/// The checks, each with the mark of its state.
pub open spec fn marked_checks(checks: Seq<CheckView>) -> Seq<Seq<char>> {
    Seq::new(checks.len(), |i: int| state_mark(checks[i].state) + " "@ + checks[i].label)
}

/// What is said of a provider's checks.
pub open spec fn ci_tip(r: ProviderRollupView) -> Seq<char> {
    let label = match r.provider {
        crate::ci::CiProvider::GitHub => "GH"@,
        crate::ci::CiProvider::GitLab => "GL"@,
    };
    label + ": "@ + if r.rollup.checks.len() == 0 {
        "no checks"@
    } else {
        text::join(marked_checks(r.rollup.checks), ", "@)
    }
}

/// A dot for one provider's checks of a commit.
pub struct CiDot {
    pub key: String,
    pub tint: Tint,
    pub tooltip: String,
}

/// A dot by its views.
pub struct CiDotView {
    pub key: Seq<char>,
    pub tint: Tint,
    pub tooltip: Seq<char>,
}

impl View for CiDot {
    type V = CiDotView;

    open spec fn view(&self) -> CiDotView {
        CiDotView { key: self.key@, tint: self.tint, tooltip: self.tooltip@ }
    }
}

/// Compact CI dot for one provider's per-commit rollup. Color reflects
/// the overall state across that provider's checks at this SHA; the
/// tooltip enumerates each check by name + status.
pub fn ci_dot(rollup: &ProviderCommitRollup, key: String) -> (r: CiDot)
    ensures
        r@ == (CiDotView {
            key: key@,
            tint: state_tint(rollup.rollup.counts.overall()),
            tooltip: ci_tip(rollup@),
        }),
{
    let tint = match rollup.rollup.counts.overall_state() {
        CiState::Success => Tint::Success,
        CiState::Failure => Tint::Destructive,
        CiState::Pending => Tint::Warning,
        CiState::Absent => Tint::Muted,
    };
    let mut tip = rollup.provider.short_label().to_owned();
    tip.append(": ");
    let checks = &rollup.rollup.checks;
    assert(rollup@.rollup.checks == text::views(checks@));
    if checks.len() == 0 {
        tip.append("no checks");
        return CiDot { key, tint, tooltip: tip };
    }
    let ghost all = marked_checks(text::views(checks@));
    let mut parts: Vec<String> = Vec::new();
    let mut i: usize = 0;
    while i < checks.len()
        invariant
            i <= checks.len(),
            all == marked_checks(text::views(checks@)),
            text::views(parts@) == all.take(i as int),
        decreases checks.len() - i,
    {
        let mark = match checks[i].state {
            CiState::Success => "\u{2713}",
            CiState::Failure => "\u{2717}",
            CiState::Pending => "\u{22ef}",
            CiState::Absent => "\u{2014}",
        };
        let mut part = mark.to_owned();
        part.append(" ");
        part.append(checks[i].label.as_str());
        assert(text::views(checks@)[i as int] == checks@[i as int]@);
        let ghost before = parts@;
        parts.push(part);
        assert(text::views(parts@) =~= text::views(before).push(part@));
        i = i + 1;
        assert(text::views(parts@) =~= all.take(i as int));
    }
    assert(all.take(all.len() as int) =~= all);
    let list = joined(&parts, ", ");
    tip.append(list.as_str());
    CiDot { key, tint, tooltip: tip }
}

/// The lines inserted and deleted by a commit, as a chip.
pub struct DiffChip {
    pub insertions: String,
    pub deletions: String,
    pub key: String,
    pub tooltip: String,
}

/// How many of something there are, in words.
pub open spec fn counted(n: nat, what: Seq<char>) -> Seq<char> {
    text::dec(n) + what + if n == 1 {
        ""@
    } else {
        "s"@
    }
}

fn push_counted(s: &mut String, n: usize, what: &str)
    ensures
        final(s)@ == old(s)@ + counted(n as nat, what@),
{
    push_dec(s, n as u64);
    s.append(what);
    s.append(
        if n == 1 {
            ""
        } else {
            "s"
        },
    );
    assert(s@ =~= old(s)@ + counted(n as nat, what@));
}

/// Compact `+N -M` chip rendered to the right of the commit summary. `None` when both counts
/// are zero.
pub fn diff_stats_chip(insertions: usize, deletions: usize, key: String) -> (r: Option<DiffChip>)
    ensures
        match r {
            Some(c) => {
                &&& insertions != 0 || deletions != 0
                &&& c.insertions@ == "+"@ + text::dec(insertions as nat)
                &&& c.deletions@ == "-"@ + text::dec(deletions as nat)
                &&& c.key == key
                &&& c.tooltip@ == counted(insertions as nat, " insertion"@) + ", "@ + counted(
                    deletions as nat,
                    " deletion"@,
                )
            },
            None => insertions == 0 && deletions == 0,
        },
{
    if insertions == 0 && deletions == 0 {
        return None;
    }
    let mut tip = String::new();
    push_counted(&mut tip, insertions, " insertion");
    tip.append(", ");
    push_counted(&mut tip, deletions, " deletion");
    assert(tip@ =~= counted(insertions as nat, " insertion"@) + ", "@ + counted(
        deletions as nat,
        " deletion"@,
    ));
    let mut plus = "+".to_owned();
    push_dec(&mut plus, insertions as u64);
    let mut minus = "-".to_owned();
    push_dec(&mut minus, deletions as u64);
    Some(DiffChip { insertions: plus, deletions: minus, key, tooltip: tip })
}

// ---------------------------------------------------------------------------
// Pills
// ---------------------------------------------------------------------------

/// A small label on a tinted ground.
pub struct Pill {
    pub label: String,
    pub tint: Tint,
    pub alpha: u8,
    pub key: String,
    pub tooltip: Option<String>,
    /// Whether the keyboard can reach it: only those that lead to a worktree.
    pub focusable: bool,
}

/// A pill by its views.
pub struct PillView {
    pub label: Seq<char>,
    pub tint: Tint,
    pub alpha: u8,
    pub key: Seq<char>,
    pub tooltip: Option<Seq<char>>,
    pub focusable: bool,
}

impl View for Pill {
    type V = PillView;

    open spec fn view(&self) -> PillView {
        PillView {
            label: self.label@,
            tint: self.tint,
            alpha: self.alpha,
            key: self.key@,
            tooltip: text::opt_view(self.tooltip),
            focusable: self.focusable,
        }
    }
}

/// A pill.
pub open spec fn pill_view(
    label: Seq<char>,
    tint: Tint,
    alpha: u8,
    key: Seq<char>,
    tooltip: Option<Seq<char>>,
) -> PillView {
    PillView { label, tint, alpha, key, tooltip, focusable: text::begins(key, "worktree:"@) }
}

fn pill(label: String, tint: Tint, alpha: u8, key: String, tooltip: Option<String>) -> (r: Pill)
    ensures
        r@ == pill_view(label@, tint, alpha, key@, text::opt_view(tooltip)),
{
    let focusable = starts_with(key.as_str(), "worktree:");
    Pill { label, tint, alpha, key, tooltip, focusable }
}

/// What a branch is to the commit it points to.
#[derive(Debug, Clone, Copy, PartialEq, Eq, Structural)]
pub enum BranchKind {
    /// Active worktree's branch.
    Head,
    /// Local non-head.
    Local,
    /// Remote-tracking branch.
    Remote,
}

/// The tint of a branch.
pub open spec fn branch_tint(k: BranchKind) -> Tint {
    match k {
        BranchKind::Head => Tint::Success,
        BranchKind::Local => Tint::Primary,
        BranchKind::Remote => Tint::Info,
    }
}

impl BranchKind {
    pub fn color(self) -> (r: Tint)
        ensures
            r == branch_tint(self),
    {
        match self {
            BranchKind::Head => Tint::Success,
            BranchKind::Local => Tint::Primary,
            BranchKind::Remote => Tint::Info,
        }
    }
}

/// Decoration set for a single commit row — branch tips at this
/// commit, tags at this commit, clean worktrees whose HEAD is this
/// commit.
pub struct RowPills {
    pub branches: Vec<(String, BranchKind)>,
    pub tags: Vec<String>,
    /// Names of clean worktrees pointing here. Dirty worktrees show
    /// their pill on the synthetic row instead, so this list excludes
    /// them.
    pub clean_worktrees: Vec<String>,
}

/// The decoration set by its views.
#[verifier::ext_equal]
pub struct RowPillsView {
    pub branches: Seq<(Seq<char>, BranchKind)>,
    pub tags: Seq<Seq<char>>,
    pub clean_worktrees: Seq<Seq<char>>,
}

/// Branches by their views.
pub open spec fn branch_views(s: Seq<(String, BranchKind)>) -> Seq<(Seq<char>, BranchKind)> {
    Seq::new(s.len(), |i: int| (s[i].0@, s[i].1))
}

impl View for RowPills {
    type V = RowPillsView;

    open spec fn view(&self) -> RowPillsView {
        RowPillsView {
            branches: branch_views(self.branches@),
            tags: text::views(self.tags@),
            clean_worktrees: text::views(self.clean_worktrees@),
        }
    }
}

/// The key of a part of a row.
pub open spec fn row_key(idx: nat, part: Seq<char>) -> Seq<char> {
    "commit:"@ + text::dec(idx) + part
}

fn key_for(idx: usize, part: &str) -> (r: String)
    ensures
        r@ == row_key(idx as nat, part@),
{
    let mut s = "commit:".to_owned();
    push_dec(&mut s, idx as u64);
    s.append(part);
    s
}

/// The pill that leads to a worktree.
pub open spec fn worktree_pill(name: Seq<char>) -> PillView {
    pill_view(
        "WT: "@ + name,
        Tint::Warning,
        40,
        "worktree:"@ + name,
        Some("Switch to this worktree"@),
    )
}

/// The pill of a branch.
pub open spec fn branch_pill(idx: nat, branch: (Seq<char>, BranchKind)) -> PillView {
    pill_view(
        branch.0,
        branch_tint(branch.1),
        44,
        row_key(idx, ".branch:"@ + branch.0),
        Some(branch.0),
    )
}

/// The pill of a tag.
pub open spec fn tag_pill(idx: nat, tag: Seq<char>) -> PillView {
    pill_view(
        "\u{25C6} "@ + tag,
        Tint::Warning,
        40,
        row_key(idx, ".tag:"@ + tag),
        Some(tag),
    )
}

/// `p`, where it is wanted.
pub open spec fn pill_if(wanted: bool, p: PillView) -> Seq<PillView> {
    if wanted {
        seq![p]
    } else {
        Seq::empty()
    }
}

/// The pills of a commit's row: that it is pinned, the clean worktrees, the branches, the
/// tags, a HEAD that is on no branch, and that it is an orphan.
pub open spec fn row_pills(
    commit: CommitView,
    p: RowPillsView,
    detached_here: bool,
    pinned: bool,
    idx: nat,
) -> Seq<PillView> {
    pill_if(
        pinned,
        pill_view(
            "PINNED"@,
            Tint::Info,
            44,
            row_key(idx, ".pinned"@),
            Some("Parent repo pins this commit"@),
        ),
    ) + Seq::new(p.clean_worktrees.len(), |i: int| worktree_pill(p.clean_worktrees[i]))
        + Seq::new(p.branches.len(), |i: int| branch_pill(idx, p.branches[i])) + Seq::new(
        p.tags.len(),
        |i: int| tag_pill(idx, p.tags[i]),
    ) + pill_if(
        detached_here && p.branches.len() == 0,
        pill_view(
            "HEAD"@,
            Tint::Success,
            44,
            row_key(idx, ".head"@),
            Some("Detached HEAD"@),
        ),
    ) + pill_if(
        commit.is_orphaned,
        pill_view("ORPHAN"@, Tint::Muted, 44, row_key(idx, ".orphan"@), commit.orphan_source),
    )
}

fn make_worktree_pill(name: &str) -> (r: Pill)
    ensures
        r@ == worktree_pill(name@),
{
    let mut label = "WT: ".to_owned();
    label.append(name);
    let mut key = "worktree:".to_owned();
    key.append(name);
    pill(label, Tint::Warning, 40, key, Some("Switch to this worktree".to_owned()))
}

fn push_pill(list: &mut Vec<Pill>, p: Pill)
    ensures
        text::views(final(list)@) == text::views(old(list)@).push(p@),
{
    let ghost before = list@;
    list.push(p);
    assert(text::views(list@) =~= text::views(before).push(p@));
}

fn make_row_pills(
    commit: &CommitInfo,
    pills: &RowPills,
    detached_here: bool,
    pinned: bool,
    idx: usize,
) -> (r: Vec<Pill>)
    ensures
        text::views(r@) == row_pills(commit@, pills@, detached_here, pinned, idx as nat),
{
    let ghost p = pills@;
    let ghost n = idx as nat;
    let ghost pinned_part = pill_if(
        pinned,
        pill_view(
            "PINNED"@,
            Tint::Info,
            44,
            row_key(n, ".pinned"@),
            Some("Parent repo pins this commit"@),
        ),
    );
    let ghost wt_part = Seq::new(
        p.clean_worktrees.len(),
        |i: int| worktree_pill(p.clean_worktrees[i]),
    );
    let ghost branch_part = Seq::new(p.branches.len(), |i: int| branch_pill(n, p.branches[i]));
    let ghost tag_part = Seq::new(p.tags.len(), |i: int| tag_pill(n, p.tags[i]));
    let mut kids: Vec<Pill> = Vec::new();
    if pinned {
        push_pill(
            &mut kids,
            pill(
                "PINNED".to_owned(),
                Tint::Info,
                44,
                key_for(idx, ".pinned"),
                Some("Parent repo pins this commit".to_owned()),
            ),
        );
    }
    assert(text::views(kids@) =~= pinned_part + wt_part.take(0));
    let mut i: usize = 0;
    while i < pills.clean_worktrees.len()
        invariant
            i <= pills.clean_worktrees.len(),
            p == pills@,
            wt_part == Seq::new(
                p.clean_worktrees.len(),
                |i: int| worktree_pill(p.clean_worktrees[i]),
            ),
            text::views(kids@) == pinned_part + wt_part.take(i as int),
        decreases pills.clean_worktrees.len() - i,
    {
        push_pill(&mut kids, make_worktree_pill(pills.clean_worktrees[i].as_str()));
        i = i + 1;
        assert(text::views(kids@) =~= pinned_part + wt_part.take(i as int));
    }
    let ghost so_far = pinned_part + wt_part;
    assert(text::views(kids@) =~= so_far + branch_part.take(0));
    let mut i: usize = 0;
    while i < pills.branches.len()
        invariant
            i <= pills.branches.len(),
            p == pills@,
            n == idx as nat,
            branch_part == Seq::new(p.branches.len(), |i: int| branch_pill(n, p.branches[i])),
            text::views(kids@) == so_far + branch_part.take(i as int),
        decreases pills.branches.len() - i,
    {
        let name = &pills.branches[i].0;
        let kind = pills.branches[i].1;
        let mut part = ".branch:".to_owned();
        part.append(name.as_str());
        push_pill(
            &mut kids,
            pill(
                name.clone(),
                kind.color(),
                44,
                key_for(idx, part.as_str()),
                Some(name.clone()),
            ),
        );
        i = i + 1;
        assert(text::views(kids@) =~= so_far + branch_part.take(i as int));
    }
    let ghost so_far = pinned_part + wt_part + branch_part;
    assert(text::views(kids@) =~= so_far + tag_part.take(0));
    let mut i: usize = 0;
    while i < pills.tags.len()
        invariant
            i <= pills.tags.len(),
            p == pills@,
            n == idx as nat,
            tag_part == Seq::new(p.tags.len(), |i: int| tag_pill(n, p.tags[i])),
            text::views(kids@) == so_far + tag_part.take(i as int),
        decreases pills.tags.len() - i,
    {
        let tag = &pills.tags[i];
        let mut label = "\u{25C6} ".to_owned();
        label.append(tag.as_str());
        let mut part = ".tag:".to_owned();
        part.append(tag.as_str());
        push_pill(
            &mut kids,
            pill(label, Tint::Warning, 40, key_for(idx, part.as_str()), Some(tag.clone())),
        );
        i = i + 1;
        assert(text::views(kids@) =~= so_far + tag_part.take(i as int));
    }
    let ghost so_far = pinned_part + wt_part + branch_part + tag_part;
    assert(text::views(kids@) =~= so_far);
    if detached_here && pills.branches.len() == 0 {
        push_pill(
            &mut kids,
            pill(
                "HEAD".to_owned(),
                Tint::Success,
                44,
                key_for(idx, ".head"),
                Some("Detached HEAD".to_owned()),
            ),
        );
    }
    if commit.is_orphaned {
        push_pill(
            &mut kids,
            pill(
                "ORPHAN".to_owned(),
                Tint::Muted,
                44,
                key_for(idx, ".orphan"),
                commit.orphan_source.clone(),
            ),
        );
    }
    assert(text::views(kids@) =~= row_pills(commit@, p, detached_here, pinned, n));
    kids
}

// ---------------------------------------------------------------------------
// Rows
// ---------------------------------------------------------------------------

/// A text with its key and what it says when pointed at.
pub struct Leaf {
    pub text: String,
    pub key: String,
    pub tooltip: String,
}

/// What the row of a commit shows.
pub struct CommitRow {
    pub key: String,
    pub lane: usize,
    pub color: Paint,
    /// The pills above the content; where there are none, there is no band for them.
    pub pills: Vec<Pill>,
    pub sha: Leaf,
    pub avatar: Avatar,
    pub summary: Leaf,
    /// The first line of the body, where there is one.
    pub excerpt: Option<String>,
    pub diff: Option<DiffChip>,
    pub checks: Vec<CiDot>,
    pub time: Leaf,
    pub selected: bool,
    /// Every other row is tinted, unless it is selected.
    pub striped: bool,
}

/// What the row of changes not yet committed shows.
pub struct SyntheticRow {
    pub key: String,
    pub lane: usize,
    pub pill: Option<Pill>,
    pub summary: String,
    pub time: String,
    pub selected: bool,
}

pub enum HistoryRow {
    Commit(CommitRow),
    Synthetic(SyntheticRow),
}

/// `s`, or what stands for it where it is empty.
pub open spec fn shown(s: Seq<char>, fallback: Seq<char>) -> Seq<char> {
    if s.len() == 0 {
        fallback
    } else {
        s
    }
}

fn text_shown(s: &String, fallback: &str) -> (r: String)
    ensures
        r@ == shown(s@, fallback@),
{
    if s.as_str().is_empty() {
        fallback.to_owned()
    } else {
        s.clone()
    }
}

/// The dots of a row.
pub open spec fn dots_of(rollups: Seq<ProviderCommitRollup>, idx: nat) -> Seq<CiDotView> {
    Seq::new(
        rollups.len(),
        |i: int|
            CiDotView {
                key: row_key(idx, ".ci"@ + text::dec(i as nat)),
                tint: state_tint(rollups[i].rollup.counts.overall()),
                tooltip: ci_tip(rollups[i]@),
            },
    )
}

fn make_dots(rollups: &Vec<ProviderCommitRollup>, idx: usize) -> (r: Vec<CiDot>)
    ensures
        text::views(r@) == dots_of(rollups@, idx as nat),
{
    let ghost all = dots_of(rollups@, idx as nat);
    let mut dots: Vec<CiDot> = Vec::new();
    let mut i: usize = 0;
    while i < rollups.len()
        invariant
            i <= rollups.len(),
            all == dots_of(rollups@, idx as nat),
            text::views(dots@) == all.take(i as int),
        decreases rollups.len() - i,
    {
        let mut part = ".ci".to_owned();
        push_dec(&mut part, i as u64);
        let dot = ci_dot(&rollups[i], key_for(idx, part.as_str()));
        let ghost before = dots@;
        dots.push(dot);
        assert(text::views(dots@) =~= text::views(before).push(dot@));
        i = i + 1;
        assert(text::views(dots@) =~= all.take(i as int));
    }
    assert(all.take(all.len() as int) =~= all);
    dots
}

/// What the summary says when pointed at: the whole message.
pub open spec fn summary_tip(summary: Seq<char>, body: Option<Seq<char>>) -> Seq<char> {
    match body {
        Some(b) => if b.len() > 0 {
            summary + "\n\n"@ + b
        } else {
            summary
        },
        None => summary,
    }
}

/// The excerpt as it is shown.
pub open spec fn excerpt_text(excerpt: Option<Seq<char>>) -> Option<Seq<char>> {
    match excerpt {
        Some(e) => if e.len() > 0 {
            Some("\u{2014} "@ + e)
        } else {
            None
        },
        None => None,
    }
}

/// The row of changes not yet committed.
pub fn synthetic_row(
    commit: &CommitInfo,
    layout: Option<&CommitLayout>,
    idx: usize,
    selected: bool,
    now: i64,
) -> (r: SyntheticRow)
    ensures
        r.key@ == row_key(idx as nat, ""@),
        r.lane == (match layout {
            Some(l) => l.lane,
            None => 0,
        }),
        match r.pill {
            Some(p) => commit@.synthetic_wt_name is Some && p@ == worktree_pill(
                commit@.synthetic_wt_name->0,
            ),
            None => commit@.synthetic_wt_name is None,
        },
        r.summary@ == shown(commit@.summary, "Uncommitted changes"@),
        r.time@ == git::relative_time(now - commit.time),
        r.selected == selected,
{
    let pill = match &commit.synthetic_wt_name {
        Some(name) => Some(make_worktree_pill(name.as_str())),
        None => None,
    };
    SyntheticRow {
        key: key_for(idx, ""),
        lane: match layout {
            Some(l) => l.lane,
            None => 0,
        },
        pill,
        summary: text_shown(&commit.summary, "Uncommitted changes"),
        time: commit.relative_time(now),
        selected,
    }
}

/// Whether a row is that of a commit, with everything it shows.
pub open spec fn shows_commit(
    r: CommitRow,
    commit: CommitView,
    layout: Option<CommitLayout>,
    pills: RowPillsView,
    rollups: Option<Seq<ProviderCommitRollup>>,
    detached_here: bool,
    pinned: bool,
    idx: nat,
    selected: bool,
    now: int,
    absolute_time: Seq<char>,
) -> bool {
    let summary = shown(commit.summary, "(no summary)"@);
    &&& r.key@ == row_key(idx, ""@)
    &&& r.lane == (match layout {
        Some(l) => l.lane,
        None => 0,
    })
    &&& r.color == (match layout {
        Some(l) => l.color,
        None => Paint::Orphan,
    })
    &&& text::views(r.pills@) == row_pills(commit, pills, detached_here, pinned, idx)
    &&& r.sha.text@ == commit.short_id
    &&& r.sha.key@ == row_key(idx, ".sha"@)
    &&& r.sha.tooltip@ == commit.id.digits()
    &&& stands_for(r.avatar, commit.author, row_key(idx, ".avatar"@))
    &&& r.summary.text@ == summary
    &&& r.summary.key@ == row_key(idx, ".summary"@)
    &&& r.summary.tooltip@ == summary_tip(summary, commit.body_full)
    &&& text::opt_view(r.excerpt) == excerpt_text(commit.body_excerpt)
    &&& match r.diff {
        Some(c) => {
            &&& commit.insertions != 0 || commit.deletions != 0
            &&& c.insertions@ == "+"@ + text::dec(commit.insertions as nat)
            &&& c.deletions@ == "-"@ + text::dec(commit.deletions as nat)
            &&& c.key@ == row_key(idx, ".diff"@)
            &&& c.tooltip@ == counted(commit.insertions as nat, " insertion"@) + ", "@ + counted(
                commit.deletions as nat,
                " deletion"@,
            )
        },
        None => commit.insertions == 0 && commit.deletions == 0,
    }
    &&& text::views(r.checks@) == (match rollups {
        Some(s) => dots_of(s, idx),
        None => Seq::empty(),
    })
    &&& r.time.text@ == git::relative_time(now - commit.time)
    &&& r.time.key@ == row_key(idx, ".time"@)
    &&& r.time.tooltip@ == absolute_time
    &&& r.selected == selected
    &&& r.striped == (!selected && idx % 2 == 1)
}

/// The row of a commit, or of changes not yet committed.
pub fn build_row(
    commit: &CommitInfo,
    layout: Option<&CommitLayout>,
    pills: &RowPills,
    ci_rollups: Option<&Vec<ProviderCommitRollup>>,
    is_detached_head_here: bool,
    is_pinned: bool,
    idx: usize,
    selected: bool,
    now: i64,
    absolute_time: &str,
) -> (r: HistoryRow)
    ensures
        match r {
            HistoryRow::Synthetic(s) => {
                &&& commit.is_synthetic
                &&& s.key@ == row_key(idx as nat, ""@)
                &&& s.lane == (match layout {
                    Some(l) => l.lane,
                    None => 0,
                })
                &&& match s.pill {
                    Some(p) => commit@.synthetic_wt_name is Some && p@ == worktree_pill(
                        commit@.synthetic_wt_name->0,
                    ),
                    None => commit@.synthetic_wt_name is None,
                }
                &&& s.summary@ == shown(commit@.summary, "Uncommitted changes"@)
                &&& s.time@ == git::relative_time(now - commit.time)
                &&& s.selected == selected
            },
            HistoryRow::Commit(row) => !commit.is_synthetic && shows_commit(
                row,
                commit@,
                match layout {
                    Some(l) => Some(*l),
                    None => None,
                },
                pills@,
                match ci_rollups {
                    Some(v) => Some(v@),
                    None => None,
                },
                is_detached_head_here,
                is_pinned,
                idx as nat,
                selected,
                now as int,
                absolute_time@,
            ),
        },
{
    if commit.is_synthetic {
        return HistoryRow::Synthetic(synthetic_row(commit, layout, idx, selected, now));
    }
    let (lane, color) = match layout {
        Some(l) => (l.lane, l.color),
        None => (0usize, Paint::Orphan),
    };
    let summary = text_shown(&commit.summary, "(no summary)");
    let mut tooltip = summary.clone();
    if let Some(body) = &commit.body_full {
        if !body.as_str().is_empty() {
            tooltip.append("\n\n");
            tooltip.append(body.as_str());
        }
    }
    let excerpt = match &commit.body_excerpt {
        Some(e) => if e.as_str().is_empty() {
            None
        } else {
            let mut s = "\u{2014} ".to_owned();
            s.append(e.as_str());
            Some(s)
        },
        None => None,
    };
    let checks = match ci_rollups {
        Some(rollups) => make_dots(rollups, idx),
        None => Vec::new(),
    };
    proof {
        if ci_rollups is None {
            assert(text::views(checks@) =~= Seq::empty());
        }
    }
    let row = CommitRow {
        key: key_for(idx, ""),
        lane,
        color,
        pills: make_row_pills(commit, pills, is_detached_head_here, is_pinned, idx),
        sha: Leaf {
            text: commit.short_id.clone(),
            key: key_for(idx, ".sha"),
            tooltip: commit.id.to_hex(),
        },
        avatar: author_avatar(commit.author.as_str(), key_for(idx, ".avatar")),
        summary: Leaf { text: summary, key: key_for(idx, ".summary"), tooltip },
        excerpt,
        diff: diff_stats_chip(commit.insertions, commit.deletions, key_for(idx, ".diff")),
        checks,
        time: Leaf {
            text: commit.relative_time(now),
            key: key_for(idx, ".time"),
            tooltip: absolute_time.to_owned(),
        },
        selected,
        striped: !selected && idx % 2 == 1,
    };
    HistoryRow::Commit(row)
}

// ---------------------------------------------------------------------------
// Decorations by commit
// ---------------------------------------------------------------------------

/// Whether a branch of a remote only stands for its HEAD: it points to a real branch and
/// would double up the pills.
pub open spec fn is_head_alias(tip: crate::git::repo::TipView) -> bool {
    tip.is_remote && match text::cut(tip.name, "/"@) {
        Some((remote, branch)) => branch == "HEAD"@,
        None => false,
    }
}

/// What a branch is to the commit it points to.
pub open spec fn kind_of(tip: crate::git::repo::TipView) -> BranchKind {
    if tip.is_remote {
        BranchKind::Remote
    } else if tip.is_head {
        BranchKind::Head
    } else {
        BranchKind::Local
    }
}

/// The branches that point to `id`.
pub open spec fn branches_at(tips: Seq<BranchTip>, id: Oid) -> Seq<(Seq<char>, BranchKind)>
    decreases tips.len(),
{
    if tips.len() == 0 {
        Seq::empty()
    } else {
        let tip = tips.last()@;
        let rest = branches_at(tips.drop_last(), id);
        if tip.oid == id && !is_head_alias(tip) {
            rest.push((tip.name, kind_of(tip)))
        } else {
            rest
        }
    }
}

/// The tags on `id`.
pub open spec fn tags_at(tags: Seq<TagInfo>, id: Oid) -> Seq<Seq<char>>
    decreases tags.len(),
{
    if tags.len() == 0 {
        Seq::empty()
    } else if tags.last().oid == id {
        tags_at(tags.drop_last(), id).push(tags.last().name@)
    } else {
        tags_at(tags.drop_last(), id)
    }
}

/// What the history needs to know of a worktree.
pub struct WorktreeSummary {
    pub name: String,
    pub head_oid: Option<Oid>,
    pub dirty_files: usize,
}

/// The clean worktrees that have `id` checked out.
pub open spec fn worktrees_at(views: Seq<WorktreeSummary>, id: Oid) -> Seq<Seq<char>>
    decreases views.len(),
{
    if views.len() == 0 {
        Seq::empty()
    } else if views.last().dirty_files == 0 && views.last().head_oid == Some(id) {
        worktrees_at(views.drop_last(), id).push(views.last().name@)
    } else {
        worktrees_at(views.drop_last(), id)
    }
}

/// The decorations of the commit `id`.
pub open spec fn decorations(
    tips: Seq<BranchTip>,
    tags: Seq<TagInfo>,
    worktrees: Seq<WorktreeSummary>,
    id: Oid,
) -> RowPillsView {
    RowPillsView {
        branches: branches_at(tips, id),
        tags: tags_at(tags, id),
        clean_worktrees: worktrees_at(worktrees, id),
    }
}

fn find_branches(tips: &Vec<BranchTip>, id: Oid) -> (r: Vec<(String, BranchKind)>)
    ensures
        branch_views(r@) == branches_at(tips@, id),
{
    let mut r: Vec<(String, BranchKind)> = Vec::new();
    let mut i: usize = 0;
    assert(branch_views(r@) =~= branches_at(tips@.take(0), id));
    while i < tips.len()
        invariant
            i <= tips.len(),
            branch_views(r@) == branches_at(tips@.take(i as int), id),
        decreases tips.len() - i,
    {
        let tip = &tips[i];
        proof {
            assert(tips@.take(i + 1).drop_last() =~= tips@.take(i as int));
            assert(tips@.take(i + 1).last() == *tip);
        }
        let alias = tip.is_remote && match split_once(tip.name.as_str(), "/") {
            Some((_, branch)) => same(branch.as_str(), "HEAD"),
            None => false,
        };
        if tip.oid == id && !alias {
            let kind = if tip.is_remote {
                BranchKind::Remote
            } else if tip.is_head {
                BranchKind::Head
            } else {
                BranchKind::Local
            };
            let ghost before = r@;
            r.push((tip.name.clone(), kind));
            assert(branch_views(r@) =~= branch_views(before).push((tip@.name, kind_of(tip@))));
        }
        i = i + 1;
    }
    assert(tips@.take(tips@.len() as int) =~= tips@);
    r
}

fn find_tags(tags: &Vec<TagInfo>, id: Oid) -> (r: Vec<String>)
    ensures
        text::views(r@) == tags_at(tags@, id),
{
    let mut r: Vec<String> = Vec::new();
    let mut i: usize = 0;
    assert(text::views(r@) =~= tags_at(tags@.take(0), id));
    while i < tags.len()
        invariant
            i <= tags.len(),
            text::views(r@) == tags_at(tags@.take(i as int), id),
        decreases tags.len() - i,
    {
        proof {
            assert(tags@.take(i + 1).drop_last() =~= tags@.take(i as int));
            assert(tags@.take(i + 1).last() == tags@[i as int]);
        }
        if tags[i].oid == id {
            let name = tags[i].name.clone();
            let ghost before = r@;
            r.push(name);
            assert(text::views(r@) =~= text::views(before).push(name@));
        }
        i = i + 1;
    }
    assert(tags@.take(tags@.len() as int) =~= tags@);
    r
}

fn find_worktrees(views: &Vec<WorktreeSummary>, id: Oid) -> (r: Vec<String>)
    ensures
        text::views(r@) == worktrees_at(views@, id),
{
    let mut r: Vec<String> = Vec::new();
    let mut i: usize = 0;
    assert(text::views(r@) =~= worktrees_at(views@.take(0), id));
    while i < views.len()
        invariant
            i <= views.len(),
            text::views(r@) == worktrees_at(views@.take(i as int), id),
        decreases views.len() - i,
    {
        proof {
            assert(views@.take(i + 1).drop_last() =~= views@.take(i as int));
            assert(views@.take(i + 1).last() == views@[i as int]);
        }
        let here = match views[i].head_oid {
            Some(h) => h == id,
            None => false,
        };
        if views[i].dirty_files == 0 && here {
            let name = views[i].name.clone();
            let ghost before = r@;
            r.push(name);
            assert(text::views(r@) =~= text::views(before).push(name@));
        }
        i = i + 1;
    }
    assert(views@.take(views@.len() as int) =~= views@);
    r
}

/// Pre-compute the `RowPills` for each commit.
pub fn build_row_pills(
    commits: &Vec<CommitInfo>,
    tips: &Vec<BranchTip>,
    tags: &Vec<TagInfo>,
    worktrees: &Vec<WorktreeSummary>,
) -> (r: Vec<RowPills>)
    ensures
        r.len() == commits.len(),
        forall|i: int|
            0 <= i < r.len() ==> (#[trigger] r@[i])@ == decorations(
                tips@,
                tags@,
                worktrees@,
                commits@[i].id,
            ),
{
    let mut r: Vec<RowPills> = Vec::new();
    let mut i: usize = 0;
    while i < commits.len()
        invariant
            i <= commits.len(),
            r.len() == i,
            forall|k: int|
                0 <= k < r.len() ==> (#[trigger] r@[k])@ == decorations(
                    tips@,
                    tags@,
                    worktrees@,
                    commits@[k].id,
                ),
        decreases commits.len() - i,
    {
        let id = commits[i].id;
        r.push(
            RowPills {
                branches: find_branches(tips, id),
                tags: find_tags(tags, id),
                clean_worktrees: find_worktrees(worktrees, id),
            },
        );
        i = i + 1;
    }
    r
}

// ---------------------------------------------------------------------------
// Searching
// ---------------------------------------------------------------------------

/// Whether a commit matches a query, where all texts are in lower case: the query occurs in
/// the subject, the author or the short id, or the full id begins with it.
pub open spec fn matches_lower(
    summary: Seq<char>,
    author: Seq<char>,
    short_id: Seq<char>,
    id: Seq<char>,
    query: Seq<char>,
) -> bool {
    ||| text::has(summary, query)
    ||| text::has(author, query)
    ||| text::has(short_id, query)
    ||| text::begins(id, query)
}

/// Whether a commit matches a query that is in lower case.
pub open spec fn matches_query(c: CommitView, query: Seq<char>) -> bool {
    matches_lower(
        text::lowercase(c.summary),
        text::lowercase(c.author),
        text::lowercase(c.short_id),
        text::lowercase(c.id.digits()),
        query,
    )
}

/// Whether a commit matches a query, where all texts are in lower case.
pub fn commit_matches_lowered(
    summary: &str,
    author: &str,
    short_id: &str,
    id: &str,
    lower_query: &str,
) -> (r: bool)
    ensures
        r == matches_lower(summary@, author@, short_id@, id@, lower_query@),
{
    contains(summary, lower_query) || contains(author, lower_query) || contains(
        short_id,
        lower_query,
    ) || starts_with(id, lower_query)
}

/// Lower-case substring match across subject, author and short SHA. The full SHA's prefix is
/// also checked so paste-a-SHA navigation still works.
pub fn commit_matches_query(c: &CommitInfo, lower_query: &str) -> (r: bool)
    ensures
        r == matches_query(c@, lower_query@),
{
    let id = c.id.to_hex();
    commit_matches_lowered(
        to_lowercase(c.summary.as_str()).as_str(),
        to_lowercase(c.author.as_str()).as_str(),
        to_lowercase(c.short_id.as_str()).as_str(),
        to_lowercase(id.as_str()).as_str(),
        lower_query,
    )
}

// ---------------------------------------------------------------------------
// The pane
// ---------------------------------------------------------------------------

/// What the history pane is made of.
pub struct HistoryInput {
    pub commits: Vec<CommitInfo>,
    pub branch_tips: Vec<BranchTip>,
    pub tags: Vec<TagInfo>,
    pub worktrees: Vec<WorktreeSummary>,
    pub selected_commit: Option<Oid>,
    pub search_query: String,
    pub search_open: bool,
    /// What the active worktree has checked out.
    pub active_head: Option<Oid>,
    /// The commit that the containing repository pins, where this one is a submodule.
    pub pinned_oid: Option<Oid>,
}

/// What is known of a row beside its commit.
pub struct RowFacts {
    pub pills: RowPills,
    /// Whether the row matches the search; one that does not is dimmed.
    pub matches: bool,
    pub selected: bool,
    pub detached_here: bool,
    pub pinned: bool,
    /// Whether a band for pills lies above the row's content.
    pub has_band: bool,
}

pub enum HistoryPane {
    /// There are no commits: a title and a hint.
    Empty(String, String),
    /// A header, the search input where it is open, and what is known of each row.
    List(String, Option<SearchInput>, Vec<RowFacts>),
}

/// Routed key for the history-pane search input.
pub const SEARCH_INPUT_KEY: &'static str = "history:search";

/// The input for what is searched for.
#[derive(Debug)]
pub struct SearchInput {
    pub key: String,
    pub query: String,
}

/// Whether the search input is shown as it should be: where it is open, with the query.
pub open spec fn search_shown(s: Option<SearchInput>, input: HistoryInput) -> bool {
    match s {
        Some(x) => input.search_open && x.key@ == SEARCH_INPUT_KEY@ && x.query@
            == input.search_query@,
        None => !input.search_open,
    }
}

/// Whether the HEAD of the active worktree is on `id` and no local branch points there.
pub open spec fn detached_at(input: HistoryInput, id: Oid) -> bool {
    input.active_head == Some(id) && !exists|i: int|
        0 <= i < input.branch_tips@.len() && (#[trigger] input.branch_tips@[i]).oid == id
            && !input.branch_tips@[i].is_remote
}

/// Whether the row of a commit matches the search; without a query every row does.
pub open spec fn row_matches(input: HistoryInput, c: CommitView) -> bool {
    input.search_query@.len() == 0 || matches_query(c, text::lowercase(input.search_query@))
}

/// Whether what is known of a row is right.
pub open spec fn row_known(f: RowFacts, input: HistoryInput, c: CommitInfo) -> bool {
    &&& f.pills@ == decorations(input.branch_tips@, input.tags@, input.worktrees@, c.id)
    &&& f.matches == row_matches(input, c@)
    &&& f.selected == (input.selected_commit == Some(c.id))
    &&& f.detached_here == detached_at(input, c.id)
    &&& f.pinned == (input.pinned_oid == Some(c.id))
    &&& f.has_band == (!c.is_synthetic && (f.pills@.clean_worktrees.len() > 0
        || f.pills@.branches.len() > 0 || f.pills@.tags.len() > 0 || (f.detached_here
        && f.pills@.branches.len() == 0) || c.is_orphaned || f.pinned))
}

/// How many of the first `n` commits match the search.
pub open spec fn match_count(input: HistoryInput, n: nat) -> nat
    decreases n,
{
    if n == 0 {
        0
    } else {
        match_count(input, (n - 1) as nat) + if row_matches(input, input.commits@[n - 1]@) {
            1nat
        } else {
            0nat
        }
    }
}

/// How many commits there are.
pub open spec fn commits_text(n: nat) -> Seq<char> {
    text::dec(n) + " commits"@
}

/// The index of the first commit `id` from `i` on, or the number of commits.
pub open spec fn commit_from(commits: Seq<CommitInfo>, id: Oid, i: int) -> int
    decreases commits.len() - i,
{
    if i >= commits.len() {
        commits.len() as int
    } else if commits[i].id == id {
        i
    } else {
        commit_from(commits, id, i + 1)
    }
}

/// The header of the pane: how many commits match the search, or what the selected commit is,
/// or how many commits there are.
pub open spec fn header_text(input: HistoryInput) -> Seq<char> {
    let n = input.commits@.len();
    if input.search_query@.len() > 0 {
        let m = match_count(input, n);
        text::dec(m) + " match"@ + (if m == 1 {
            ""@
        } else {
            "es"@
        }) + " · "@ + commits_text(n)
    } else {
        match input.selected_commit {
            Some(id) => {
                let i = commit_from(input.commits@, id, 0);
                if i < n {
                    let c = input.commits@[i]@;
                    c.short_id + " · "@ + c.author + " · "@ + shown(c.summary, "(no summary)"@)
                } else {
                    commits_text(n)
                }
            },
            None => commits_text(n),
        }
    }
}

fn is_detached_at(input: &HistoryInput, id: Oid) -> (r: bool)
    ensures
        r == detached_at(*input, id),
{
    let here = match input.active_head {
        Some(h) => h == id,
        None => false,
    };
    if !here {
        return false;
    }
    let mut i: usize = 0;
    while i < input.branch_tips.len()
        invariant
            i <= input.branch_tips.len(),
            forall|k: int|
                0 <= k < i ==> !((#[trigger] input.branch_tips@[k]).oid == id
                    && !input.branch_tips@[k].is_remote),
        decreases input.branch_tips.len() - i,
    {
        if input.branch_tips[i].oid == id && !input.branch_tips[i].is_remote {
            assert(input.branch_tips@[i as int].oid == id);
            return false;
        }
        i = i + 1;
    }
    true
}

fn same_id(o: Option<Oid>, id: Oid) -> (r: bool)
    ensures
        r == (o == Some(id)),
{
    match o {
        Some(x) => x == id,
        None => false,
    }
}

fn make_header(input: &HistoryInput, matching: usize) -> (r: String)
    requires
        matching == match_count(*input, input.commits@.len()),
    ensures
        r@ == header_text(*input),
{
    let n: usize = input.commits.len();
    if !input.search_query.as_str().is_empty() {
        let mut s = dec_string(matching as u64);
        s.append(" match");
        s.append(
            if matching == 1 {
                ""
            } else {
                "es"
            },
        );
        s.append(" · ");
        let mut rest = dec_string(n as u64);
        rest.append(" commits");
        s.append(rest.as_str());
        return s;
    }
    if let Some(id) = input.selected_commit {
        let mut i: usize = 0;
        while i < n
            invariant
                i <= n,
                n == input.commits.len(),
                commit_from(input.commits@, id, 0) == commit_from(input.commits@, id, i as int),
                input.search_query@.len() == 0,
                input.selected_commit == Some(id),
            decreases n - i,
        {
            let c = &input.commits[i];
            if c.id == id {
                let mut s = c.short_id.clone();
                s.append(" · ");
                s.append(c.author.as_str());
                s.append(" · ");
                let summary = text_shown(&c.summary, "(no summary)");
                s.append(summary.as_str());
                return s;
            }
            i = i + 1;
        }
    }
    let mut s = dec_string(n as u64);
    s.append(" commits");
    s
}

/// History pane composer: the header, the search input, and what is known of each row.
pub fn history_view(input: &HistoryInput) -> (r: HistoryPane)
    ensures
        match r {
            HistoryPane::Empty(title, hint) => {
                &&& input.commits@.len() == 0
                &&& title@ == "No commits"@
                &&& hint@ == "This repo has no reachable commits — make one and refresh."@
            },
            HistoryPane::List(header, search, rows) => {
                &&& input.commits@.len() > 0
                &&& header@ == header_text(*input)
                &&& search_shown(search, *input)
                &&& rows.len() == input.commits.len()
                &&& forall|i: int|
                    0 <= i < rows.len() ==> row_known(
                        #[trigger] rows@[i],
                        *input,
                        input.commits@[i],
                    )
            },
        },
{
    if input.commits.len() == 0 {
        return HistoryPane::Empty(
            "No commits".to_owned(),
            "This repo has no reachable commits — make one and refresh.".to_owned(),
        );
    }
    let searching = !input.search_query.as_str().is_empty();
    let query = to_lowercase(input.search_query.as_str());
    let mut rows: Vec<RowFacts> = Vec::new();
    let mut matching: usize = 0;
    let mut i: usize = 0;
    while i < input.commits.len()
        invariant
            i <= input.commits.len(),
            rows.len() == i,
            matching <= i,
            searching == (input.search_query@.len() > 0),
            query@ == text::lowercase(input.search_query@),
            matching == match_count(*input, i as nat),
            forall|k: int|
                0 <= k < rows.len() ==> row_known(
                    #[trigger] rows@[k],
                    *input,
                    input.commits@[k],
                ),
        decreases input.commits.len() - i,
    {
        let c = &input.commits[i];
        let pills = RowPills {
            branches: find_branches(&input.branch_tips, c.id),
            tags: find_tags(&input.tags, c.id),
            clean_worktrees: find_worktrees(&input.worktrees, c.id),
        };
        let matches = !searching || commit_matches_query(c, query.as_str());
        let detached_here = is_detached_at(input, c.id);
        let pinned = same_id(input.pinned_oid, c.id);
        let has_band = !c.is_synthetic && (pills.clean_worktrees.len() > 0 || pills.branches.len()
            > 0 || pills.tags.len() > 0 || (detached_here && pills.branches.len() == 0)
            || c.is_orphaned || pinned);
        let f = RowFacts {
            pills,
            matches,
            selected: same_id(input.selected_commit, c.id),
            detached_here,
            pinned,
            has_band,
        };
        assert(row_known(f, *input, *c));
        rows.push(f);
        if matches {
            matching = matching + 1;
        }
        i = i + 1;
    }
    let search = if input.search_open {
        Some(
            SearchInput { key: SEARCH_INPUT_KEY.to_owned(), query: input.search_query.clone() },
        )
    } else {
        None
    };
    HistoryPane::List(make_header(input, matching), search, rows)
}

/// A row has a band above it exactly where it has pills to put there.
pub proof fn band_is_there_for_pills(f: RowFacts, input: HistoryInput, c: CommitInfo, idx: nat)
    requires
        row_known(f, input, c),
        !c.is_synthetic,
    ensures
        f.has_band <==> row_pills(c@, f.pills@, f.detached_here, f.pinned, idx).len() > 0,
{
}

/// The rollups of a commit, where there are any.
pub fn rollups_for_commit<'a>(
    ci_per_commit: &'a TextMap<Vec<ProviderCommitRollup>>,
    id: Oid,
) -> (r: Option<&'a Vec<ProviderCommitRollup>>)
    ensures
        match r {
            Some(v) => ci_per_commit.has(id.digits()) && *v == ci_per_commit.at(id.digits()),
            None => !ci_per_commit.has(id.digits()),
        },
{
    let key = id.to_hex();
    ci_per_commit.get(key.as_str())
}

// ---------------------------------------------------------------------------
// Laws
// ---------------------------------------------------------------------------

/// Whether a name is that of the HEAD of a remote: the remote, a slash and `HEAD`.
pub open spec fn names_remote_head(name: Seq<char>) -> bool {
    exists|remote: Seq<char>|
        !#[trigger] remote.contains('/') && name == remote + seq!['/', 'H', 'E', 'A', 'D']
}

proof fn lemma_head_alias(tip: BranchTip)
    ensures
        is_head_alias(tip@) <==> tip.is_remote && names_remote_head(tip.name@),
{
    reveal_strlit("/");
    reveal_strlit("HEAD");
    let p = "/"@;
    let name = tip.name@;
    assert(p =~= seq!['/']);
    assert("HEAD"@ =~= seq!['H', 'E', 'A', 'D']);
    if names_remote_head(name) {
        let remote = choose|remote: Seq<char>|
            !#[trigger] remote.contains('/') && name == remote + seq!['/', 'H', 'E', 'A', 'D'];
        text::lemma_cut_at_mark(remote, '/', p, "HEAD"@);
        assert(remote + p + "HEAD"@ =~= name);
    }
    text::cutting_parts_at_the_first_mark(name, p);
    if let Some((remote, branch)) = text::cut(name, p) {
        if branch == "HEAD"@ {
            assert(name =~= remote + seq!['/', 'H', 'E', 'A', 'D']);
            if remote.contains('/') {
                let i = choose|i: int| 0 <= i < remote.len() && remote[i] == '/';
                assert(name =~= name.take(i) + p + name.skip(i + 1));
                assert(name.take(i).len() >= remote.len());
            }
            assert(names_remote_head(name));
        }
    }
}

/// Every branch and every tag is shown at the commit it points to, and nowhere else, in the
/// order in which they come; so is every worktree without changes at the commit it has checked
/// out. Only the HEAD of a remote is left out. A branch is marked as that of a remote, as the
/// one checked out, or as another.
pub proof fn pointers_are_shown_at_their_commits(
    tips: Seq<BranchTip>,
    tags: Seq<TagInfo>,
    worktrees: Seq<WorktreeSummary>,
    id: Oid,
)
    ensures
        decorations(tips, tags, worktrees, id).branches == tips.filter_map(
            |t: BranchTip|
                if t.oid != id || (t.is_remote && names_remote_head(t.name@)) {
                    None
                } else {
                    Some(
                        (
                            t.name@,
                            match (t.is_remote, t.is_head) {
                                (true, _) => BranchKind::Remote,
                                (false, true) => BranchKind::Head,
                                (false, false) => BranchKind::Local,
                            },
                        ),
                    )
                },
        ),
        decorations(tips, tags, worktrees, id).tags == tags.filter_map(
            |t: TagInfo|
                if t.oid != id {
                    None
                } else {
                    Some(t.name@)
                },
        ),
        decorations(tips, tags, worktrees, id).clean_worktrees == worktrees.filter_map(
            |w: WorktreeSummary|
                if w.dirty_files > 0 || w.head_oid != Some(id) {
                    None
                } else {
                    Some(w.name@)
                },
        ),
{
    lemma_branches_at(tips, id);
    lemma_tags_at(tags, id);
    lemma_worktrees_at(worktrees, id);
}

proof fn lemma_branches_at(tips: Seq<BranchTip>, id: Oid)
    ensures
        branches_at(tips, id) == tips.filter_map(
            |t: BranchTip|
                if t.oid != id || (t.is_remote && names_remote_head(t.name@)) {
                    None
                } else {
                    Some(
                        (
                            t.name@,
                            match (t.is_remote, t.is_head) {
                                (true, _) => BranchKind::Remote,
                                (false, true) => BranchKind::Head,
                                (false, false) => BranchKind::Local,
                            },
                        ),
                    )
                },
        ),
    decreases tips.len(),
{
    if tips.len() > 0 {
        lemma_branches_at(tips.drop_last(), id);
        lemma_head_alias(tips.last());
    }
}

proof fn lemma_tags_at(tags: Seq<TagInfo>, id: Oid)
    ensures
        tags_at(tags, id) == tags.filter_map(
            |t: TagInfo|
                if t.oid != id {
                    None
                } else {
                    Some(t.name@)
                },
        ),
    decreases tags.len(),
{
    if tags.len() > 0 {
        lemma_tags_at(tags.drop_last(), id);
    }
}

proof fn lemma_worktrees_at(views: Seq<WorktreeSummary>, id: Oid)
    ensures
        worktrees_at(views, id) == views.filter_map(
            |w: WorktreeSummary|
                if w.dirty_files > 0 || w.head_oid != Some(id) {
                    None
                } else {
                    Some(w.name@)
                },
        ),
    decreases views.len(),
{
    if views.len() > 0 {
        lemma_worktrees_at(views.drop_last(), id);
    }
}

/// Whether one of the pills reads `label`, in the tint `tint`.
pub open spec fn has_pill(pills: Seq<PillView>, label: Seq<char>, tint: Tint) -> bool {
    exists|k: int| 0 <= k < pills.len() && (#[trigger] pills[k]).label == label && pills[k].tint == tint
}

/// Everything that is known of a commit has its pill: each clean worktree, branch and tag, that
/// the containing repository pins it, that it is an orphan, and that HEAD is on it and on no
/// branch. There are no others.
pub proof fn each_decoration_has_its_pill(
    commit: CommitView,
    p: RowPillsView,
    detached_here: bool,
    pinned: bool,
    idx: nat,
)
    ensures
        ({
            let all = row_pills(commit, p, detached_here, pinned, idx);
            let w = p.clean_worktrees.len();
            let b = p.branches.len();
            let t = p.tags.len();
            &&& all.len() == w + b + t + (if pinned {
                1int
            } else {
                0
            }) + (if commit.is_orphaned {
                1int
            } else {
                0
            }) + (if detached_here && b == 0 {
                1int
            } else {
                0
            })
            &&& forall|i: int|
                0 <= i < w ==> has_pill(all, "WT: "@ + #[trigger] p.clean_worktrees[i], Tint::Warning)
            &&& forall|i: int|
                0 <= i < b && (#[trigger] p.branches[i]).1 == BranchKind::Head ==> has_pill(
                    all,
                    p.branches[i].0,
                    Tint::Success,
                )
            &&& forall|i: int|
                0 <= i < b && (#[trigger] p.branches[i]).1 == BranchKind::Local ==> has_pill(
                    all,
                    p.branches[i].0,
                    Tint::Primary,
                )
            &&& forall|i: int|
                0 <= i < b && (#[trigger] p.branches[i]).1 == BranchKind::Remote ==> has_pill(
                    all,
                    p.branches[i].0,
                    Tint::Info,
                )
            &&& forall|i: int|
                0 <= i < t ==> has_pill(all, "\u{25C6} "@ + #[trigger] p.tags[i], Tint::Warning)
            &&& pinned ==> has_pill(all, "PINNED"@, Tint::Info)
            &&& commit.is_orphaned ==> has_pill(all, "ORPHAN"@, Tint::Muted) && all.last().tooltip
                == commit.orphan_source
            &&& detached_here && b == 0 ==> has_pill(all, "HEAD"@, Tint::Success)
        }),
{
    let all = row_pills(commit, p, detached_here, pinned, idx);
    let w = p.clean_worktrees.len() as int;
    let b = p.branches.len() as int;
    let t = p.tags.len() as int;
    let first: int = if pinned {
        1
    } else {
        0
    };
    if pinned {
        assert(all[0].label == "PINNED"@);
    }
    assert forall|i: int| 0 <= i < w implies has_pill(
        all,
        "WT: "@ + #[trigger] p.clean_worktrees[i],
        Tint::Warning,
    ) by {
        assert(all[first + i] == worktree_pill(p.clean_worktrees[i]));
    }
    assert forall|i: int| 0 <= i < b implies all[first + w + i] == branch_pill(
        idx,
        #[trigger] p.branches[i],
    ) by {
    }
    assert forall|i: int| 0 <= i < t implies has_pill(
        all,
        "\u{25C6} "@ + #[trigger] p.tags[i],
        Tint::Warning,
    ) by {
        assert(all[first + w + b + i] == tag_pill(idx, p.tags[i]));
    }
    if detached_here && b == 0 {
        assert(all[first + w + b + t].label == "HEAD"@);
    }
    if commit.is_orphaned {
        assert(all[all.len() - 1].label == "ORPHAN"@);
    }
}

/// A search finds a commit exactly where the query stands somewhere in its subject, in its author
/// or in its short id, or where its full id is the query and something more.
pub proof fn a_search_finds_what_holds_the_query(
    summary: Seq<char>,
    author: Seq<char>,
    short_id: Seq<char>,
    id: Seq<char>,
    query: Seq<char>,
)
    ensures
        matches_lower(summary, author, short_id, id, query) <==> {
            ||| exists|a: Seq<char>, b: Seq<char>| summary == #[trigger] (a + query + b)
            ||| exists|a: Seq<char>, b: Seq<char>| author == #[trigger] (a + query + b)
            ||| exists|a: Seq<char>, b: Seq<char>| short_id == #[trigger] (a + query + b)
            ||| exists|b: Seq<char>| id == #[trigger] (query + b)
        },
{
    text::cutting_parts_at_the_first_mark(summary, query);
    text::cutting_parts_at_the_first_mark(author, query);
    text::cutting_parts_at_the_first_mark(short_id, query);
    text::beginnings_and_ends_are_taken_off(query, id);
    assert(text::begins(id, query) <==> text::after_prefix(id, query) is Some);
}

proof fn lemma_match_count(input: HistoryInput, n: nat)
    requires
        n <= input.commits@.len(),
    ensures
        match_count(input, n) == input.commits@.take(n as int).filter(
            |c: CommitInfo| row_matches(input, c@),
        ).len(),
    decreases n,
{
    reveal(Seq::filter);
    if n > 0 {
        lemma_match_count(input, (n - 1) as nat);
        assert(input.commits@.take(n as int).drop_last() =~= input.commits@.take(n - 1));
    }
}

/// The header tells how many commits match: as many as are not dimmed, of all there are.
pub proof fn the_header_counts_the_matches(input: HistoryInput)
    requires
        input.search_query@.len() > 0,
    ensures
        ({
            let found = input.commits@.filter(|c: CommitInfo| row_matches(input, c@)).len();
            &&& found != 1 ==> header_text(input) == text::dec(found) + " match"@ + "es"@ + " · "@
                + (text::dec(input.commits@.len()) + " commits"@)
            &&& found == 1 ==> header_text(input) == text::dec(1) + " match"@ + ""@ + " · "@ + (
            text::dec(input.commits@.len()) + " commits"@)
        }),
{
    lemma_match_count(input, input.commits@.len());
    assert(input.commits@.take(input.commits@.len() as int) =~= input.commits@);
}

/// Without a search the header tells of the selected commit, where it is listed, and else how
/// many commits there are.
pub proof fn the_header_tells_of_the_selected_commit(input: HistoryInput, i: int)
    requires
        input.search_query@.len() == 0,
        0 <= i < input.commits@.len(),
        forall|j: int|
            0 <= j < i ==> Some((#[trigger] input.commits@[j]).id) != input.selected_commit,
    ensures
        input.selected_commit == Some(input.commits@[i].id) && input.commits@[i].summary@.len() > 0
            ==> header_text(input) == input.commits@[i].short_id@ + " · "@
            + input.commits@[i].author@ + " · "@ + input.commits@[i].summary@,
        i == input.commits@.len() - 1 && input.selected_commit != Some(input.commits@[i].id)
            ==> header_text(input) == text::dec(input.commits@.len()) + " commits"@,
{
    if let Some(id) = input.selected_commit {
        lemma_commit_from(input.commits@, id, 0, i);
        if input.commits@[i].id != id {
            assert(commit_from(input.commits@, id, i) == commit_from(input.commits@, id, i + 1));
        }
    }
}

proof fn lemma_commit_from(commits: Seq<CommitInfo>, id: Oid, from: int, to: int)
    requires
        0 <= from <= to <= commits.len(),
        forall|j: int| from <= j < to ==> (#[trigger] commits[j]).id != id,
    ensures
        commit_from(commits, id, from) == commit_from(commits, id, to),
    decreases to - from,
{
    if from < to {
        lemma_commit_from(commits, id, from + 1, to);
    }
}

/// A row shows its commit: the lane and the color that the graph gives it, its short id with the
/// full one to point at, its author, its summary, how long ago it was made, a dot for each
/// provider's checks, and the lines it changed wherever it changed any.
pub proof fn a_row_shows_its_commit(
    r: CommitRow,
    commit: CommitView,
    layout: CommitLayout,
    pills: RowPillsView,
    rollups: Seq<ProviderCommitRollup>,
    detached_here: bool,
    pinned: bool,
    idx: nat,
    selected: bool,
    now: int,
    absolute_time: Seq<char>,
)
    requires
        shows_commit(
            r,
            commit,
            Some(layout),
            pills,
            Some(rollups),
            detached_here,
            pinned,
            idx,
            selected,
            now,
            absolute_time,
        ),
    ensures
        r.lane == layout.lane && r.color == layout.color,
        r.sha.text@ == commit.short_id && r.sha.tooltip@ == commit.id.digits(),
        r.avatar.tooltip@ == commit.author,
        commit.summary.len() > 0 ==> r.summary.text@ == commit.summary,
        commit.summary.len() > 0 && commit.body_full is Some && commit.body_full->0.len() > 0
            ==> r.summary.tooltip@ == commit.summary + "\n\n"@ + commit.body_full->0,
        commit.summary.len() > 0 && commit.body_full is None ==> r.summary.tooltip@
            == commit.summary,
        commit.body_excerpt is Some && commit.body_excerpt->0.len() > 0 ==> r.excerpt is Some
            && r.excerpt->0@ == "\u{2014} "@ + commit.body_excerpt->0,
        commit.body_excerpt is None ==> r.excerpt is None,
        r.time.text@ == git::relative_time(now - commit.time) && r.time.tooltip@ == absolute_time,
        commit.insertions > 0 || commit.deletions > 0 ==> r.diff is Some
            && r.diff->0.insertions@ == "+"@ + text::dec(commit.insertions as nat)
            && r.diff->0.deletions@ == "-"@ + text::dec(commit.deletions as nat),
        r.checks@.len() == rollups.len(),
        forall|i: int|
            0 <= i < rollups.len() ==> {
                let dot = (#[trigger] r.checks@[i])@;
                let state = rollups[i].rollup.counts.overall();
                &&& state == CiState::Success <==> dot.tint == Tint::Success
                &&& state == CiState::Failure <==> dot.tint == Tint::Destructive
                &&& state == CiState::Pending <==> dot.tint == Tint::Warning
            },
        r.selected == selected,
        selected ==> !r.striped,
{
    let dots = text::views(r.checks@);
    assert(dots.len() == rollups.len());
    assert forall|i: int| 0 <= i < rollups.len() implies ({
        let dot = (#[trigger] r.checks@[i])@;
        let state = rollups[i].rollup.counts.overall();
        &&& state == CiState::Success <==> dot.tint == Tint::Success
        &&& state == CiState::Failure <==> dot.tint == Tint::Destructive
        &&& state == CiState::Pending <==> dot.tint == Tint::Warning
    }) by {
        assert(dots[i] == r.checks@[i]@);
    }
}

/// What is known of a row is true of its commit: it is selected where its commit is, pinned where
/// its commit is, and dimmed exactly where there is a query that it does not match.
pub proof fn rows_know_their_commits(f: RowFacts, input: HistoryInput, c: CommitInfo)
    requires
        row_known(f, input, c),
    ensures
        f.selected <==> input.selected_commit == Some(c.id),
        f.pinned <==> input.pinned_oid == Some(c.id),
        input.search_query@.len() == 0 ==> f.matches,
        input.search_query@.len() > 0 ==> (f.matches <==> matches_lower(
            text::lowercase(c.summary@),
            text::lowercase(c.author@),
            text::lowercase(c.short_id@),
            text::lowercase(c.id.digits()),
            text::lowercase(input.search_query@),
        )),
        input.active_head != Some(c.id) ==> !f.detached_here,
        (exists|i: int|
            0 <= i < input.branch_tips@.len() && (#[trigger] input.branch_tips@[i]).oid == c.id
                && !input.branch_tips@[i].is_remote) ==> !f.detached_here,
        input.active_head == Some(c.id) && (forall|i: int|
            0 <= i < input.branch_tips@.len() && (#[trigger] input.branch_tips@[i]).oid == c.id
                ==> input.branch_tips@[i].is_remote) ==> f.detached_here,
        f.pills@ == decorations(input.branch_tips@, input.tags@, input.worktrees@, c.id),
{
}

/// The search is shown while it is open, with what is searched for.
pub proof fn the_search_is_shown_while_open(s: Option<SearchInput>, input: HistoryInput)
    requires
        search_shown(s, input),
    ensures
        s is Some <==> input.search_open,
        s is Some ==> s->0.query@ == input.search_query@,
{
}

/// Lanes of different colors have different tints, and orphans have one of their own.
pub proof fn lanes_are_told_apart_by_tint(a: usize, b: usize)
    requires
        a < 6,
        b < 6,
    ensures
        tint_of(Paint::Lane(a)) == tint_of(Paint::Lane(b)) ==> a == b,
        tint_of(Paint::Lane(a)) != tint_of(Paint::Orphan),
        tint_of(Paint::Lane(0)) == Tint::Primary,
{
}

/// What is said of a provider's checks names each of them behind the mark of its state.
pub proof fn each_check_is_named(r: ProviderRollupView, i: int)
    requires
        0 <= i < r.rollup.checks.len(),
    ensures
        marked_checks(r.rollup.checks).len() == r.rollup.checks.len(),
        r.rollup.checks[i].state == CiState::Success ==> marked_checks(r.rollup.checks)[i]
            == "\u{2713}"@ + " "@ + r.rollup.checks[i].label,
        r.rollup.checks[i].state == CiState::Failure ==> marked_checks(r.rollup.checks)[i]
            == "\u{2717}"@ + " "@ + r.rollup.checks[i].label,
        r.rollup.checks[i].state == CiState::Pending ==> marked_checks(r.rollup.checks)[i]
            == "\u{22ef}"@ + " "@ + r.rollup.checks[i].label,
        r.provider == crate::ci::CiProvider::GitHub ==> ci_tip(r) == "GH"@ + ": "@ + text::join(
            marked_checks(r.rollup.checks),
            ", "@,
        ),
        r.provider == crate::ci::CiProvider::GitLab ==> ci_tip(r) == "GL"@ + ": "@ + text::join(
            marked_checks(r.rollup.checks),
            ", "@,
        ),
{
}

} // verus!
