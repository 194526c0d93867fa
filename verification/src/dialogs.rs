//! What each modal dialog shows.
//!
//! A dialog is a titled panel over a scrim. A click outside of the panel is routed to the
//! dialog's key with `:dismiss` behind it. The parts stand in the order in which they are
//! shown.

use crate::git::{self, WorktreeInfo};
use crate::paths::{self, same_path};
use crate::text::{self, dec_string, push_dec, same, trimmed};
use crate::text_map::TextMap;
use vstd::prelude::*;
use vstd::string::*;

verus! {

pub const MODAL_SETTINGS_KEY: &'static str = "modal:settings";

pub const MODAL_CONFIRM_KEY: &'static str = "modal:confirm";

pub const MODAL_ERROR_KEY: &'static str = "modal:error";

pub const MODAL_CLONE_KEY: &'static str = "modal:clone";

pub const MODAL_TOKEN_KEY: &'static str = "modal:token";

pub const MODAL_BRANCH_KEY: &'static str = "modal:branch";

pub const MODAL_TAG_KEY: &'static str = "modal:tag";

pub const MODAL_PULL_KEY: &'static str = "modal:pull";

pub const MODAL_PUSH_KEY: &'static str = "modal:push";

pub const MODAL_MERGE_KEY: &'static str = "modal:merge";

pub const MODAL_REBASE_KEY: &'static str = "modal:rebase";

pub const MODAL_WORKTREE_KEY: &'static str = "modal:worktree";

pub const MODAL_WORKTREES_KEY: &'static str = "modal:worktrees";

pub const MODAL_OPEN_REPO_KEY: &'static str = "modal:open_repo";

/// Strategy for the Merge options modal.
#[derive(Debug, Clone, Copy, PartialEq, Eq, Structural)]
pub enum MergeStrategy {
    /// Default: `git merge <source>`, fast-forward when possible.
    Default,
    /// `--no-ff`: always create a merge commit, even when ff is possible.
    NoFf,
    /// `--ff-only`: refuse to merge if ff isn't possible.
    FfOnly,
    /// `--squash`: stage the merge result, leave HEAD un-advanced.
    Squash,
}

/// The value that stands for a strategy in a choice.
pub open spec fn radio_value(s: MergeStrategy) -> Seq<char> {
    match s {
        MergeStrategy::Default => "default"@,
        MergeStrategy::NoFf => "no_ff"@,
        MergeStrategy::FfOnly => "ff_only"@,
        MergeStrategy::Squash => "squash"@,
    }
}

/// The strategy that a value stands for.
pub open spec fn strategy_of(raw: Seq<char>) -> Option<MergeStrategy> {
    if raw == "default"@ {
        Some(MergeStrategy::Default)
    } else if raw == "no_ff"@ {
        Some(MergeStrategy::NoFf)
    } else if raw == "ff_only"@ {
        Some(MergeStrategy::FfOnly)
    } else if raw == "squash"@ {
        Some(MergeStrategy::Squash)
    } else {
        None
    }
}

impl MergeStrategy {
    pub fn as_radio_value(self) -> (r: &'static str)
        ensures
            r@ == radio_value(self),
    {
        match self {
            MergeStrategy::Default => "default",
            MergeStrategy::NoFf => "no_ff",
            MergeStrategy::FfOnly => "ff_only",
            MergeStrategy::Squash => "squash",
        }
    }

    pub fn from_radio_value(raw: &str) -> (r: Option<MergeStrategy>)
        ensures
            r == strategy_of(raw@),
    {
        if same(raw, "default") {
            Some(MergeStrategy::Default)
        } else if same(raw, "no_ff") {
            Some(MergeStrategy::NoFf)
        } else if same(raw, "ff_only") {
            Some(MergeStrategy::FfOnly)
        } else if same(raw, "squash") {
            Some(MergeStrategy::Squash)
        } else {
            None
        }
    }
}

/// Each strategy is found again by the value that stands for it, and only those values stand
/// for one.
pub proof fn strategies_and_values_match(s: MergeStrategy, raw: Seq<char>)
    ensures
        strategy_of(radio_value(s)) == Some(s),
        strategy_of(raw) == Some(s) <==> raw == radio_value(s),
{
    reveal_strlit("default");
    reveal_strlit("no_ff");
    reveal_strlit("ff_only");
    reveal_strlit("squash");
    assert("default"@.len() == 7 && "no_ff"@.len() == 5 && "ff_only"@.len() == 7);
    assert("default"@[0] != "ff_only"@[0]);
    assert("squash"@.len() == 6);
}

// ---------------------------------------------------------------------------
// Parts of a dialog
// ---------------------------------------------------------------------------

#[derive(Debug, Clone, Copy, PartialEq, Eq, Structural)]
pub enum ButtonStyle {
    Plain,
    Primary,
    Subtle,
    Destructive,
}

#[derive(Debug, Clone, Copy, PartialEq, Eq, Structural)]
pub enum BadgeTone {
    Muted,
    Success,
    Warning,
}

/// A part of a dialog.
#[derive(Debug)]
pub enum Part {
    Heading(String),
    Paragraph(String),
    /// A paragraph that stays in the background.
    Caption(String),
    /// The sign of an error.
    Alert,
    Label(String),
    Description(String),
    /// A line of text to be edited: its key and the text.
    Input(String, String),
    /// Its label, its key and whether it is on.
    Switch(String, String, bool),
    /// Its key, the value that is chosen, and the values with their labels.
    Radio(String, String, Vec<(String, String)>),
    /// Its label, its key, its style and whether it can be pressed.
    Button(String, String, ButtonStyle, bool),
    Badge(String, BadgeTone),
    /// An entry of a list: its title, what stands below it, and its key.
    Item(String, String, String),
    /// A worktree: its name, its branch and its path.
    Worktree(String, String, String),
}

/// A part of a dialog by its views.
pub enum PartView {
    Heading(Seq<char>),
    Paragraph(Seq<char>),
    Caption(Seq<char>),
    Alert,
    Label(Seq<char>),
    Description(Seq<char>),
    Input(Seq<char>, Seq<char>),
    Switch(Seq<char>, Seq<char>, bool),
    Radio(Seq<char>, Seq<char>, Seq<(Seq<char>, Seq<char>)>),
    Button(Seq<char>, Seq<char>, ButtonStyle, bool),
    Badge(Seq<char>, BadgeTone),
    Item(Seq<char>, Seq<char>, Seq<char>),
    Worktree(Seq<char>, Seq<char>, Seq<char>),
}

/// Pairs of texts by their views.
pub open spec fn pair_views(s: Seq<(String, String)>) -> Seq<(Seq<char>, Seq<char>)> {
    Seq::new(s.len(), |i: int| (s[i].0@, s[i].1@))
}

impl View for Part {
    type V = PartView;

    open spec fn view(&self) -> PartView {
        match self {
            Part::Heading(s) => PartView::Heading(s@),
            Part::Paragraph(s) => PartView::Paragraph(s@),
            Part::Caption(s) => PartView::Caption(s@),
            Part::Alert => PartView::Alert,
            Part::Label(s) => PartView::Label(s@),
            Part::Description(s) => PartView::Description(s@),
            Part::Input(k, v) => PartView::Input(k@, v@),
            Part::Switch(l, k, on) => PartView::Switch(l@, k@, *on),
            Part::Radio(k, c, o) => PartView::Radio(k@, c@, pair_views(o@)),
            Part::Button(l, k, s, e) => PartView::Button(l@, k@, *s, *e),
            Part::Badge(l, t) => PartView::Badge(l@, *t),
            Part::Item(t, d, k) => PartView::Item(t@, d@, k@),
            Part::Worktree(n, b, p) => PartView::Worktree(n@, b@, p@),
        }
    }
}

/// A dialog.
#[derive(Debug)]
pub struct ModalPanel {
    /// The key of a click outside of the panel.
    pub dismiss_key: String,
    pub title: String,
    pub parts: Vec<Part>,
}

/// Whether a panel is the dialog `key`, with a title and parts.
pub open spec fn is_panel(
    m: ModalPanel,
    key: Seq<char>,
    title: Seq<char>,
    parts: Seq<PartView>,
) -> bool {
    &&& m.dismiss_key@ == key + ":dismiss"@
    &&& m.title@ == title
    &&& text::views(m.parts@) =~= parts
}

fn overlays_panel(key: &str, title: &str, parts: Vec<Part>) -> (r: ModalPanel)
    ensures
        is_panel(r, key@, title@, text::views(parts@)),
{
    let mut dismiss_key = key.to_owned();
    dismiss_key.append(":dismiss");
    ModalPanel { dismiss_key, title: title.to_owned(), parts }
}

fn put(parts: &mut Vec<Part>, p: Part)
    ensures
        text::views(final(parts)@) == text::views(old(parts)@).push(p@),
{
    let ghost before = parts@;
    parts.push(p);
    assert(text::views(parts@) =~= text::views(before).push(p@));
}

fn no_parts() -> (r: Vec<Part>)
    ensures
        text::views(r@) == Seq::<PartView>::empty(),
{
    let r: Vec<Part> = Vec::new();
    assert(text::views(r@) =~= Seq::<PartView>::empty());
    r
}

fn heading(s: &str) -> (r: Part)
    ensures
        r@ == PartView::Heading(s@),
{
    Part::Heading(s.to_owned())
}

fn label(s: &str) -> (r: Part)
    ensures
        r@ == PartView::Label(s@),
{
    Part::Label(s.to_owned())
}

fn described(s: &str) -> (r: Part)
    ensures
        r@ == PartView::Description(s@),
{
    Part::Description(s.to_owned())
}

fn input(key: &str, value: &str) -> (r: Part)
    ensures
        r@ == PartView::Input(key@, value@),
{
    Part::Input(key.to_owned(), value.to_owned())
}

fn switch(name: &str, key: &str, on: bool) -> (r: Part)
    ensures
        r@ == PartView::Switch(name@, key@, on),
{
    Part::Switch(name.to_owned(), key.to_owned(), on)
}

fn button(name: &str, key: &str, style: ButtonStyle) -> (r: Part)
    ensures
        r@ == PartView::Button(name@, key@, style, true),
{
    Part::Button(name.to_owned(), key.to_owned(), style, true)
}

fn badge(name: &str, tone: BadgeTone) -> (r: Part)
    ensures
        r@ == PartView::Badge(name@, tone),
{
    Part::Badge(name.to_owned(), tone)
}

/// Texts, each as a value with itself as the label.
pub open spec fn as_options(s: Seq<Seq<char>>) -> Seq<(Seq<char>, Seq<char>)> {
    Seq::new(s.len(), |i: int| (s[i], s[i]))
}

fn options(values: &Vec<String>) -> (r: Vec<(String, String)>)
    ensures
        pair_views(r@) == as_options(text::views(values@)),
{
    let mut r: Vec<(String, String)> = Vec::new();
    let mut i: usize = 0;
    let ghost want = as_options(text::views(values@));
    while i < values.len()
        invariant
            i <= values.len(),
            want == as_options(text::views(values@)),
            pair_views(r@) == want.take(i as int),
        decreases values.len() - i,
    {
        let ghost before = r@;
        r.push((values[i].clone(), values[i].clone()));
        proof {
            assert(pair_views(r@) =~= pair_views(before).push(want[i as int]));
            assert(want.take(i + 1) =~= want.take(i as int).push(want[i as int]));
        }
        i = i + 1;
    }
    assert(pair_views(r@) =~= want);
    r
}

// ---------------------------------------------------------------------------
// Settings, questions and errors
// ---------------------------------------------------------------------------

/// What the settings show, apart from measures.
#[derive(Debug, Clone, Copy, PartialEq, Eq, Structural)]
pub struct SettingsForm {
    pub show_orphaned_commits: bool,
    /// Whether rows have the normal size, not the large one.
    pub normal_rows: bool,
    pub avatars_enabled: bool,
    pub shortcut_bar_visible: bool,
    pub diff_split: bool,
}

/// The style of a choice of two.
pub open spec fn chosen_style(chosen: bool) -> ButtonStyle {
    if chosen {
        ButtonStyle::Primary
    } else {
        ButtonStyle::Subtle
    }
}

fn style_if(chosen: bool) -> (r: ButtonStyle)
    ensures
        r == chosen_style(chosen),
{
    if chosen {
        ButtonStyle::Primary
    } else {
        ButtonStyle::Subtle
    }
}

/// Settings panel for application preferences.
pub fn settings_modal(form: SettingsForm) -> (r: ModalPanel)
    ensures
        is_panel(
            r,
            MODAL_SETTINGS_KEY@,
            "Settings"@,
            seq![
                PartView::Heading("History"@),
                PartView::Switch(
                    "Orphaned commits"@,
                    "settings:orphans"@,
                    form.show_orphaned_commits,
                ),
                PartView::Label("Row size"@),
                PartView::Button(
                    "Normal"@,
                    "settings:row_size:1.0"@,
                    chosen_style(form.normal_rows),
                    true,
                ),
                PartView::Button(
                    "Large"@,
                    "settings:row_size:1.5"@,
                    chosen_style(!form.normal_rows),
                    true,
                ),
                PartView::Heading("Interface"@),
                PartView::Switch("Avatars"@, "settings:avatars"@, form.avatars_enabled),
                PartView::Switch(
                    "Shortcut bar"@,
                    "settings:shortcut_bar"@,
                    form.shortcut_bar_visible,
                ),
                PartView::Switch("Split diff"@, "settings:diff_split"@, form.diff_split),
                PartView::Heading("Repositories"@),
                PartView::Button(
                    "Clone repository\u{2026}"@,
                    "settings:clone"@,
                    ButtonStyle::Subtle,
                    true,
                ),
                PartView::Button(
                    "Manage tokens\u{2026}"@,
                    "settings:tokens"@,
                    ButtonStyle::Subtle,
                    true,
                ),
                PartView::Button("Done"@, "settings:close"@, ButtonStyle::Primary, true),
            ],
        ),
{
    let mut p = no_parts();
    put(&mut p, heading("History"));
    put(&mut p, switch("Orphaned commits", "settings:orphans", form.show_orphaned_commits));
    put(&mut p, label("Row size"));
    put(&mut p, button("Normal", "settings:row_size:1.0", style_if(form.normal_rows)));
    put(&mut p, button("Large", "settings:row_size:1.5", style_if(!form.normal_rows)));
    put(&mut p, heading("Interface"));
    put(&mut p, switch("Avatars", "settings:avatars", form.avatars_enabled));
    put(&mut p, switch("Shortcut bar", "settings:shortcut_bar", form.shortcut_bar_visible));
    put(&mut p, switch("Split diff", "settings:diff_split", form.diff_split));
    put(&mut p, heading("Repositories"));
    put(&mut p, button("Clone repository\u{2026}", "settings:clone", ButtonStyle::Subtle));
    put(&mut p, button("Manage tokens\u{2026}", "settings:tokens", ButtonStyle::Subtle));
    put(&mut p, button("Done", "settings:close", ButtonStyle::Primary));
    overlays_panel(MODAL_SETTINGS_KEY, "Settings", p)
}

/// Generic confirm dialog. `ok_label` is typically "Delete" /
/// "Discard" / "Reset"; `destructive` switches the OK button's role.
pub fn confirm_modal(title: &str, body: &str, ok_label: &str, destructive: bool) -> (r: ModalPanel)
    ensures
        is_panel(
            r,
            MODAL_CONFIRM_KEY@,
            title@,
            seq![
                PartView::Paragraph(body@),
                PartView::Button("Cancel"@, "modal:confirm:cancel"@, ButtonStyle::Subtle, true),
                PartView::Button(
                    ok_label@,
                    "modal:confirm:ok"@,
                    if destructive {
                        ButtonStyle::Destructive
                    } else {
                        ButtonStyle::Primary
                    },
                    true,
                ),
            ],
        ),
{
    let mut p = no_parts();
    put(&mut p, Part::Paragraph(body.to_owned()));
    put(&mut p, button("Cancel", "modal:confirm:cancel", ButtonStyle::Subtle));
    put(
        &mut p,
        button(
            ok_label,
            "modal:confirm:ok",
            if destructive {
                ButtonStyle::Destructive
            } else {
                ButtonStyle::Primary
            },
        ),
    );
    overlays_panel(MODAL_CONFIRM_KEY, title, p)
}

/// What went wrong.
pub fn error_modal(title: &str, body: &str) -> (r: ModalPanel)
    ensures
        is_panel(
            r,
            MODAL_ERROR_KEY@,
            title@,
            seq![
                PartView::Alert,
                PartView::Paragraph(body@),
                PartView::Button("Dismiss"@, "modal:error:close"@, ButtonStyle::Primary, true),
            ],
        ),
{
    let mut p = no_parts();
    put(&mut p, Part::Alert);
    put(&mut p, Part::Paragraph(body.to_owned()));
    put(&mut p, button("Dismiss", "modal:error:close", ButtonStyle::Primary));
    overlays_panel(MODAL_ERROR_KEY, title, p)
}

// ---------------------------------------------------------------------------
// Opening and cloning
// ---------------------------------------------------------------------------

/// A repository that was opened before: its path, the last part of it and what stands before
/// that, where there are such.
#[derive(Debug)]
pub struct RecentRepo {
    pub path: String,
    pub name: Option<String>,
    pub parent: Option<String>,
}

/// The entry of a repository that was opened before.
pub open spec fn recent_item(idx: nat, repo: RecentRepo) -> PartView {
    PartView::Item(
        match repo.name {
            Some(n) => n@,
            None => repo.path@,
        },
        match repo.parent {
            Some(p) => p@,
            None => ""@,
        },
        "modal:open_repo:recent:"@ + text::dec(idx),
    )
}

/// The list of repositories that were opened before.
pub open spec fn recent_parts(recent: Seq<RecentRepo>) -> Seq<PartView> {
    if recent.len() == 0 {
        Seq::empty()
    } else {
        seq![PartView::Heading("Recent"@)] + Seq::new(
            recent.len(),
            |i: int| recent_item(i as nat, recent[i]),
        )
    }
}

fn recent_repo_row(idx: usize, repo: &RecentRepo) -> (r: Part)
    ensures
        r@ == recent_item(idx as nat, *repo),
{
    let name = match &repo.name {
        Some(n) => n.clone(),
        None => repo.path.clone(),
    };
    let parent = match &repo.parent {
        Some(p) => p.clone(),
        None => "".to_owned(),
    };
    let mut key = "modal:open_repo:recent:".to_owned();
    push_dec(&mut key, idx as u64);
    Part::Item(name, parent, key)
}

/// Open-repository picker: a repository on disk, a clone, or one that was opened before.
pub fn open_repo_modal(recent: &Vec<RecentRepo>) -> (r: ModalPanel)
    ensures
        is_panel(
            r,
            MODAL_OPEN_REPO_KEY@,
            "Open repository"@,
            seq![
                PartView::Button(
                    "Open Local\u{2026}"@,
                    "modal:open_repo:browse"@,
                    ButtonStyle::Primary,
                    true,
                ),
                PartView::Button(
                    "Clone Remote\u{2026}"@,
                    "modal:open_repo:clone"@,
                    ButtonStyle::Plain,
                    true,
                ),
                PartView::Button("Cancel"@, "modal:open_repo:cancel"@, ButtonStyle::Subtle, true),
            ] + recent_parts(recent@),
        ),
{
    let mut p = no_parts();
    put(&mut p, button("Open Local\u{2026}", "modal:open_repo:browse", ButtonStyle::Primary));
    put(&mut p, button("Clone Remote\u{2026}", "modal:open_repo:clone", ButtonStyle::Plain));
    put(&mut p, button("Cancel", "modal:open_repo:cancel", ButtonStyle::Subtle));
    let ghost first = text::views(p@);
    let ghost items = Seq::new(recent@.len(), |i: int| recent_item(i as nat, recent@[i]));
    if recent.len() > 0 {
        put(&mut p, heading("Recent"));
        let ghost base = first.push(PartView::Heading("Recent"@));
        let mut i: usize = 0;
        assert(text::views(p@) =~= base + items.take(0));
        while i < recent.len()
            invariant
                i <= recent.len(),
                items == Seq::new(recent@.len(), |i: int| recent_item(i as nat, recent@[i])),
                text::views(p@) == base + items.take(i as int),
            decreases recent.len() - i,
        {
            put(&mut p, recent_repo_row(i, &recent[i]));
            i = i + 1;
            assert(text::views(p@) =~= base + items.take(i as int));
        }
    }
    assert(text::views(p@) =~= first + recent_parts(recent@));
    overlays_panel(MODAL_OPEN_REPO_KEY, "Open repository", p)
}

/// Form state for the Clone modal.
#[derive(Debug)]
pub struct CloneForm {
    pub url: String,
    pub dest: String,
    pub bare: bool,
}

impl Default for CloneForm {
    fn default() -> (r: CloneForm)
        ensures
            r.url@ == Seq::<char>::empty(),
            r.dest@ == Seq::<char>::empty(),
            !r.bare,
    {
        CloneForm { url: String::new(), dest: String::new(), bare: false }
    }
}

/// Clone-a-remote modal. While a clone is under way, the button says so.
pub fn clone_modal(state: &CloneForm, in_flight: bool) -> (r: ModalPanel)
    ensures
        is_panel(
            r,
            MODAL_CLONE_KEY@,
            "Clone repository"@,
            seq![
                PartView::Label("Repository URL"@),
                PartView::Input("clone:url"@, state.url@),
                PartView::Label("Destination"@),
                PartView::Input("clone:dest"@, state.dest@),
                PartView::Button("Browse\u{2026}"@, "clone:browse"@, ButtonStyle::Subtle, true),
                PartView::Switch("Bare clone"@, "clone:bare"@, state.bare),
                PartView::Button("Cancel"@, "modal:clone:cancel"@, ButtonStyle::Subtle, true),
                PartView::Button(
                    if in_flight {
                        "Cloning\u{2026}"@
                    } else {
                        "Clone"@
                    },
                    "clone:start"@,
                    chosen_style(!in_flight),
                    true,
                ),
            ],
        ),
{
    let mut p = no_parts();
    put(&mut p, label("Repository URL"));
    put(&mut p, input("clone:url", state.url.as_str()));
    put(&mut p, label("Destination"));
    put(&mut p, input("clone:dest", state.dest.as_str()));
    put(&mut p, button("Browse\u{2026}", "clone:browse", ButtonStyle::Subtle));
    put(&mut p, switch("Bare clone", "clone:bare", state.bare));
    put(&mut p, button("Cancel", "modal:clone:cancel", ButtonStyle::Subtle));
    let name = if in_flight {
        "Cloning\u{2026}"
    } else {
        "Clone"
    };
    put(&mut p, button(name, "clone:start", style_if(!in_flight)));
    overlays_panel(MODAL_CLONE_KEY, "Clone repository", p)
}

// ---------------------------------------------------------------------------
// Branches and tags
// ---------------------------------------------------------------------------

/// Form state for the Create Branch modal.
#[derive(Debug)]
pub struct BranchForm {
    pub name: String,
    /// Whether the branch is checked out once it is there; it is unless told otherwise.
    pub checkout: bool,
}

impl Default for BranchForm {
    fn default() -> (r: BranchForm)
        ensures
            r.name@ == Seq::<char>::empty(),
            r.checkout,
    {
        BranchForm { name: String::new(), checkout: true }
    }
}

fn created_at(target_short: &str) -> (r: Part)
    ensures
        r@ == PartView::Description("Will be created at "@ + target_short@ + "."@),
{
    let mut s = "Will be created at ".to_owned();
    s.append(target_short);
    s.append(".");
    Part::Description(s)
}

/// Create-a-branch modal.
pub fn branch_modal(state: &BranchForm, target_short: &str) -> (r: ModalPanel)
    ensures
        is_panel(
            r,
            MODAL_BRANCH_KEY@,
            "Create branch"@,
            seq![
                PartView::Label("Branch name"@),
                PartView::Input("branch:name"@, state.name@),
                PartView::Description("Will be created at "@ + target_short@ + "."@),
                PartView::Switch(
                    "Check out after creating"@,
                    "branch:checkout"@,
                    state.checkout,
                ),
                PartView::Button("Cancel"@, "modal:branch:cancel"@, ButtonStyle::Subtle, true),
                PartView::Button("Create"@, "branch:create"@, ButtonStyle::Primary, true),
            ],
        ),
{
    let mut p = no_parts();
    put(&mut p, label("Branch name"));
    put(&mut p, input("branch:name", state.name.as_str()));
    put(&mut p, created_at(target_short));
    put(&mut p, switch("Check out after creating", "branch:checkout", state.checkout));
    put(&mut p, button("Cancel", "modal:branch:cancel", ButtonStyle::Subtle));
    put(&mut p, button("Create", "branch:create", ButtonStyle::Primary));
    overlays_panel(MODAL_BRANCH_KEY, "Create branch", p)
}

/// Form state for the Create Tag modal.
#[derive(Debug)]
pub struct TagForm {
    pub name: String,
}

impl Default for TagForm {
    fn default() -> (r: TagForm)
        ensures
            r.name@ == Seq::<char>::empty(),
    {
        TagForm { name: String::new() }
    }
}

/// Create-a-tag modal.
pub fn tag_modal(state: &TagForm, target_short: &str) -> (r: ModalPanel)
    ensures
        is_panel(
            r,
            MODAL_TAG_KEY@,
            "Create tag"@,
            seq![
                PartView::Label("Tag name"@),
                PartView::Input("tag:name"@, state.name@),
                PartView::Description("Will be created at "@ + target_short@ + "."@),
                PartView::Button("Cancel"@, "modal:tag:cancel"@, ButtonStyle::Subtle, true),
                PartView::Button("Create"@, "tag:create"@, ButtonStyle::Primary, true),
            ],
        ),
{
    let mut p = no_parts();
    put(&mut p, label("Tag name"));
    put(&mut p, input("tag:name", state.name.as_str()));
    put(&mut p, created_at(target_short));
    put(&mut p, button("Cancel", "modal:tag:cancel", ButtonStyle::Subtle));
    put(&mut p, button("Create", "tag:create", ButtonStyle::Primary));
    overlays_panel(MODAL_TAG_KEY, "Create tag", p)
}

// ---------------------------------------------------------------------------
// Pulling, pushing, merging and rebasing
// ---------------------------------------------------------------------------

/// Form state for the Pull picker modal — one selected source label
/// (e.g. "origin/main") plus the `--rebase` toggle.
#[derive(Debug)]
pub struct PullForm {
    pub source: String,
    pub rebase: bool,
}

impl Default for PullForm {
    fn default() -> (r: PullForm)
        ensures
            r.source@ == Seq::<char>::empty(),
            !r.rebase,
    {
        PullForm { source: String::new(), rebase: false }
    }
}

/// Pull-from-remote modal. Nothing can be pulled while no source is chosen.
pub fn pull_modal(state: &PullForm, sources: &Vec<String>) -> (r: ModalPanel)
    ensures
        is_panel(
            r,
            MODAL_PULL_KEY@,
            "Pull from remote"@,
            seq![
                PartView::Label("Source"@),
                PartView::Radio(
                    "pull:source"@,
                    state.source@,
                    as_options(text::views(sources@)),
                ),
                PartView::Switch("Rebase instead of merge"@, "pull:rebase"@, state.rebase),
                PartView::Button("Cancel"@, "modal:pull:cancel"@, ButtonStyle::Subtle, true),
                PartView::Button(
                    "Pull"@,
                    "pull:execute"@,
                    ButtonStyle::Primary,
                    state.source@.len() > 0,
                ),
            ],
        ),
{
    let mut p = no_parts();
    put(&mut p, label("Source"));
    put(
        &mut p,
        Part::Radio("pull:source".to_owned(), state.source.clone(), options(sources)),
    );
    put(&mut p, switch("Rebase instead of merge", "pull:rebase", state.rebase));
    put(&mut p, button("Cancel", "modal:pull:cancel", ButtonStyle::Subtle));
    put(
        &mut p,
        Part::Button(
            "Pull".to_owned(),
            "pull:execute".to_owned(),
            ButtonStyle::Primary,
            !state.source.as_str().is_empty(),
        ),
    );
    overlays_panel(MODAL_PULL_KEY, "Pull from remote", p)
}

/// Form state for the Push picker modal.
#[derive(Debug)]
pub struct PushForm {
    pub remote: String,
    pub branch: String,
    pub force_with_lease: bool,
    pub set_upstream: bool,
    pub include_tags: bool,
}

impl Default for PushForm {
    fn default() -> (r: PushForm)
        ensures
            r.remote@ == Seq::<char>::empty(),
            r.branch@ == Seq::<char>::empty(),
            !r.force_with_lease,
            !r.set_upstream,
            !r.include_tags,
    {
        PushForm { remote: String::new(), branch: String::new(), force_with_lease: false, set_upstream: false, include_tags: false }
    }
}

/// Whether a text says something.
pub open spec fn says_something(s: Seq<char>) -> bool {
    text::trim(s).len() > 0
}

fn is_said(s: &str) -> (r: bool)
    ensures
        r == says_something(s@),
{
    let t = trimmed(s);
    !t.as_str().is_empty()
}

/// Push-with-options modal. Nothing can be pushed while the remote or the branch is left open.
pub fn push_modal(state: &PushForm, remotes: &Vec<String>) -> (r: ModalPanel)
    ensures
        is_panel(
            r,
            MODAL_PUSH_KEY@,
            "Push to remote"@,
            seq![
                PartView::Label("Remote"@),
                PartView::Radio(
                    "push:remote"@,
                    state.remote@,
                    as_options(text::views(remotes@)),
                ),
                PartView::Label("Branch"@),
                PartView::Input("push:branch"@, state.branch@),
                PartView::Description(
                    "Local branch to push. Defaults to the current branch."@,
                ),
                PartView::Switch("Force with lease"@, "push:force"@, state.force_with_lease),
                PartView::Switch("Set upstream"@, "push:set_upstream"@, state.set_upstream),
                PartView::Switch("Include tags"@, "push:tags"@, state.include_tags),
                PartView::Button("Cancel"@, "modal:push:cancel"@, ButtonStyle::Subtle, true),
                PartView::Button(
                    "Push"@,
                    "push:execute"@,
                    ButtonStyle::Primary,
                    says_something(state.remote@) && says_something(state.branch@),
                ),
            ],
        ),
{
    let mut p = no_parts();
    put(&mut p, label("Remote"));
    put(
        &mut p,
        Part::Radio("push:remote".to_owned(), state.remote.clone(), options(remotes)),
    );
    put(&mut p, label("Branch"));
    put(&mut p, input("push:branch", state.branch.as_str()));
    put(&mut p, described("Local branch to push. Defaults to the current branch."));
    put(&mut p, switch("Force with lease", "push:force", state.force_with_lease));
    put(&mut p, switch("Set upstream", "push:set_upstream", state.set_upstream));
    put(&mut p, switch("Include tags", "push:tags", state.include_tags));
    put(&mut p, button("Cancel", "modal:push:cancel", ButtonStyle::Subtle));
    put(
        &mut p,
        Part::Button(
            "Push".to_owned(),
            "push:execute".to_owned(),
            ButtonStyle::Primary,
            is_said(state.remote.as_str()) && is_said(state.branch.as_str()),
        ),
    );
    overlays_panel(MODAL_PUSH_KEY, "Push to remote", p)
}

/// Form state for the Merge options modal — strategy choice plus the
/// `--no-ff` commit message.
#[derive(Debug)]
pub struct MergeForm {
    pub strategy: MergeStrategy,
    pub no_ff_message: String,
}

impl Default for MergeForm {
    fn default() -> (r: MergeForm)
        ensures
            r.strategy == MergeStrategy::Default,
            r.no_ff_message@ == Seq::<char>::empty(),
    {
        MergeForm { strategy: MergeStrategy::Default, no_ff_message: String::new() }
    }
}

/// The strategies to choose from.
pub open spec fn strategy_options() -> Seq<(Seq<char>, Seq<char>)> {
    seq![
        ("default"@, "Default (fast-forward when possible)"@),
        ("no_ff"@, "No fast-forward (--no-ff)"@),
        ("ff_only"@, "Fast-forward only (--ff-only)"@),
        ("squash"@, "Squash (--squash)"@),
    ]
}

/// The message of a merge can be written only where one is sure to be made.
pub open spec fn merge_message_parts(state: MergeForm) -> Seq<PartView> {
    if state.strategy == MergeStrategy::NoFf {
        seq![
            PartView::Label("Merge commit message"@),
            PartView::Input("merge:message"@, state.no_ff_message@),
            PartView::Description(
                "Optional. Leave empty to use git's default `Merge branch ‘…’`."@,
            ),
        ]
    } else {
        Seq::empty()
    }
}

/// Merge-with-options modal.
pub fn merge_modal(state: &MergeForm, source: &str) -> (r: ModalPanel)
    ensures
        is_panel(
            r,
            MODAL_MERGE_KEY@,
            "Merge with options"@,
            seq![
                PartView::Label("Strategy"@),
                PartView::Radio(
                    "merge:strategy"@,
                    radio_value(state.strategy),
                    strategy_options(),
                ),
                PartView::Description("Will merge "@ + source@ + " into HEAD."@),
            ] + merge_message_parts(*state) + seq![
                PartView::Button("Cancel"@, "modal:merge:cancel"@, ButtonStyle::Subtle, true),
                PartView::Button("Merge"@, "merge:execute"@, ButtonStyle::Primary, true),
            ],
        ),
{
    let mut choices: Vec<(String, String)> = Vec::new();
    choices.push(("default".to_owned(), "Default (fast-forward when possible)".to_owned()));
    choices.push(("no_ff".to_owned(), "No fast-forward (--no-ff)".to_owned()));
    choices.push(("ff_only".to_owned(), "Fast-forward only (--ff-only)".to_owned()));
    choices.push(("squash".to_owned(), "Squash (--squash)".to_owned()));
    assert(pair_views(choices@) =~= strategy_options());
    let mut p = no_parts();
    put(&mut p, label("Strategy"));
    put(
        &mut p,
        Part::Radio(
            "merge:strategy".to_owned(),
            state.strategy.as_radio_value().to_owned(),
            choices,
        ),
    );
    let mut s = "Will merge ".to_owned();
    s.append(source);
    s.append(" into HEAD.");
    put(&mut p, Part::Description(s));
    let ghost first = text::views(p@);
    if state.strategy == MergeStrategy::NoFf {
        put(&mut p, label("Merge commit message"));
        put(&mut p, input("merge:message", state.no_ff_message.as_str()));
        put(
            &mut p,
            described("Optional. Leave empty to use git's default `Merge branch ‘…’`."),
        );
    }
    assert(text::views(p@) =~= first + merge_message_parts(*state));
    put(&mut p, button("Cancel", "modal:merge:cancel", ButtonStyle::Subtle));
    put(&mut p, button("Merge", "merge:execute", ButtonStyle::Primary));
    assert(text::views(p@) =~= first + merge_message_parts(*state) + seq![
        PartView::Button("Cancel"@, "modal:merge:cancel"@, ButtonStyle::Subtle, true),
        PartView::Button("Merge"@, "merge:execute"@, ButtonStyle::Primary, true),
    ]);
    overlays_panel(MODAL_MERGE_KEY, "Merge with options", p)
}

/// Form state for the Rebase options modal.
#[derive(Debug, Clone, Copy, PartialEq, Eq, Structural)]
pub struct RebaseForm {
    pub autostash: bool,
    pub rebase_merges: bool,
}

impl Default for RebaseForm {
    fn default() -> (r: RebaseForm)
        ensures
            !r.autostash,
            !r.rebase_merges,
    {
        RebaseForm { autostash: false, rebase_merges: false }
    }
}

/// Rebase-with-options modal.
pub fn rebase_modal(state: RebaseForm, base: &str) -> (r: ModalPanel)
    ensures
        is_panel(
            r,
            MODAL_REBASE_KEY@,
            "Rebase with options"@,
            seq![
                PartView::Caption("Will rebase HEAD onto "@ + base@ + "."@),
                PartView::Switch(
                    "Autostash dirty changes"@,
                    "rebase:autostash"@,
                    state.autostash,
                ),
                PartView::Switch(
                    "Preserve merge commits"@,
                    "rebase:merges"@,
                    state.rebase_merges,
                ),
                PartView::Button("Cancel"@, "modal:rebase:cancel"@, ButtonStyle::Subtle, true),
                PartView::Button("Rebase"@, "rebase:execute"@, ButtonStyle::Primary, true),
            ],
        ),
{
    let mut p = no_parts();
    let mut s = "Will rebase HEAD onto ".to_owned();
    s.append(base);
    s.append(".");
    put(&mut p, Part::Caption(s));
    put(&mut p, switch("Autostash dirty changes", "rebase:autostash", state.autostash));
    put(&mut p, switch("Preserve merge commits", "rebase:merges", state.rebase_merges));
    put(&mut p, button("Cancel", "modal:rebase:cancel", ButtonStyle::Subtle));
    put(&mut p, button("Rebase", "rebase:execute", ButtonStyle::Primary));
    overlays_panel(MODAL_REBASE_KEY, "Rebase with options", p)
}

// ---------------------------------------------------------------------------
// Worktrees
// ---------------------------------------------------------------------------

/// Form state for the Create Worktree modal.
#[derive(Debug)]
pub struct WorktreeForm {
    pub path: String,
    pub source: String,
    pub detached: bool,
    pub init_submodules: bool,
}

impl Default for WorktreeForm {
    fn default() -> (r: WorktreeForm)
        ensures
            r.path@ == Seq::<char>::empty(),
            r.source@ == Seq::<char>::empty(),
            !r.detached,
            !r.init_submodules,
    {
        WorktreeForm { path: String::new(), source: String::new(), detached: false, init_submodules: false }
    }
}

/// Create-a-worktree modal. Nothing can be created while the path or the source is left open.
pub fn worktree_modal(state: &WorktreeForm) -> (r: ModalPanel)
    ensures
        is_panel(
            r,
            MODAL_WORKTREE_KEY@,
            "Create worktree"@,
            seq![
                PartView::Label("Path"@),
                PartView::Input("worktree:path"@, state.path@),
                PartView::Description(
                    "The directory the worktree will be created at. Must not exist yet."@,
                ),
                PartView::Label("Source"@),
                PartView::Input("worktree:source"@, state.source@),
                PartView::Description(
                    "Branch name (creates a checkout of that branch) or, with Detached enabled, any commit-ish."@,
                ),
                PartView::Switch("Detached HEAD"@, "worktree:detached"@, state.detached),
                PartView::Switch(
                    "Initialize submodules after"@,
                    "worktree:submodules"@,
                    state.init_submodules,
                ),
                PartView::Button("Cancel"@, "modal:worktree:cancel"@, ButtonStyle::Subtle, true),
                PartView::Button(
                    "Create"@,
                    "worktree:create"@,
                    ButtonStyle::Primary,
                    says_something(state.path@) && says_something(state.source@),
                ),
            ],
        ),
{
    let mut p = no_parts();
    put(&mut p, label("Path"));
    put(&mut p, input("worktree:path", state.path.as_str()));
    put(
        &mut p,
        described("The directory the worktree will be created at. Must not exist yet."),
    );
    put(&mut p, label("Source"));
    put(&mut p, input("worktree:source", state.source.as_str()));
    put(
        &mut p,
        described(
            "Branch name (creates a checkout of that branch) or, with Detached enabled, any commit-ish.",
        ),
    );
    put(&mut p, switch("Detached HEAD", "worktree:detached", state.detached));
    put(
        &mut p,
        switch("Initialize submodules after", "worktree:submodules", state.init_submodules),
    );
    put(&mut p, button("Cancel", "modal:worktree:cancel", ButtonStyle::Subtle));
    put(
        &mut p,
        Part::Button(
            "Create".to_owned(),
            "worktree:create".to_owned(),
            ButtonStyle::Primary,
            is_said(state.path.as_str()) && is_said(state.source.as_str()),
        ),
    );
    overlays_panel(MODAL_WORKTREE_KEY, "Create worktree", p)
}

/// How many files of a worktree are changed, or that none are.
pub open spec fn dirty_badge(wt: WorktreeInfo) -> Seq<PartView> {
    let n = match wt.dirty_file_count {
        Some(n) => n,
        None => 0,
    };
    if n > 0 {
        seq![PartView::Badge(text::dec(n as nat) + " dirty"@, BadgeTone::Warning)]
    } else if wt.is_dirty == Some(false) {
        seq![PartView::Badge("clean"@, BadgeTone::Muted)]
    } else {
        Seq::empty()
    }
}

/// The entry of a worktree.
pub open spec fn worktree_parts(idx: nat, wt: WorktreeInfo, active: bool) -> Seq<PartView> {
    seq![PartView::Worktree(wt.name@, wt.branch@, wt.path@)] + dirty_badge(wt) + (if active {
        seq![PartView::Badge("active"@, BadgeTone::Muted)]
    } else {
        Seq::empty()
    }) + seq![
        PartView::Button(
            "Remove"@,
            "worktrees:remove:"@ + text::dec(idx),
            ButtonStyle::Destructive,
            true,
        ),
    ]
}

/// Whether a worktree is the active one, by the path of that.
pub open spec fn is_active(wt: WorktreeInfo, active_path: Option<Seq<char>>) -> bool {
    match active_path {
        Some(p) => paths::same_way(p, wt.path@),
        None => false,
    }
}

/// The entries of all worktrees, given the path of the active one.
pub open spec fn all_worktree_parts(
    worktrees: Seq<WorktreeInfo>,
    active_path: Option<Seq<char>>,
) -> Seq<PartView>
    decreases worktrees.len(),
{
    if worktrees.len() == 0 {
        Seq::empty()
    } else {
        let i = worktrees.len() - 1;
        all_worktree_parts(worktrees.drop_last(), active_path) + worktree_parts(
            i as nat,
            worktrees[i],
            is_active(worktrees[i], active_path),
        )
    }
}

fn worktree_manage_row(parts: &mut Vec<Part>, idx: usize, wt: &WorktreeInfo, active: bool)
    ensures
        text::views(final(parts)@) == text::views(old(parts)@) + worktree_parts(
            idx as nat,
            *wt,
            active,
        ),
{
    let ghost before = text::views(parts@);
    put(parts, Part::Worktree(wt.name.clone(), wt.branch.clone(), wt.path.clone()));
    let dirty: usize = match wt.dirty_file_count {
        Some(n) => n,
        None => 0,
    };
    let clean = match wt.is_dirty {
        Some(b) => !b,
        None => false,
    };
    if dirty > 0 {
        let mut s = dec_string(dirty as u64);
        s.append(" dirty");
        put(parts, Part::Badge(s, BadgeTone::Warning));
    } else if clean {
        put(parts, badge("clean", BadgeTone::Muted));
    }
    if active {
        put(parts, badge("active", BadgeTone::Muted));
    }
    let mut key = "worktrees:remove:".to_owned();
    push_dec(&mut key, idx as u64);
    put(parts, button("Remove", key.as_str(), ButtonStyle::Destructive));
    assert(text::views(parts@) =~= before + worktree_parts(idx as nat, *wt, active));
}

/// The linked worktrees. The one at `active_path` is marked.
pub fn worktrees_modal(worktrees: &Vec<WorktreeInfo>, active_path: &Option<String>) -> (r:
    ModalPanel)
    ensures
        is_panel(
            r,
            MODAL_WORKTREES_KEY@,
            "Worktrees"@,
            (if worktrees@.len() == 0 {
                seq![PartView::Caption("No linked worktrees."@)]
            } else {
                all_worktree_parts(worktrees@, text::opt_view(*active_path))
            }) + seq![
                PartView::Button("Done"@, "modal:worktrees:close"@, ButtonStyle::Primary, true),
            ],
        ),
{
    let mut p = no_parts();
    if worktrees.len() == 0 {
        put(&mut p, Part::Caption("No linked worktrees.".to_owned()));
        assert(text::views(p@) =~= seq![PartView::Caption("No linked worktrees."@)]);
    } else {
        let mut i: usize = 0;
        assert(text::views(p@) =~= all_worktree_parts(
            worktrees@.take(0),
            text::opt_view(*active_path),
        ));
        while i < worktrees.len()
            invariant
                i <= worktrees.len(),
                text::views(p@) == all_worktree_parts(
                    worktrees@.take(i as int),
                    text::opt_view(*active_path),
                ),
            decreases worktrees.len() - i,
        {
            proof {
                assert(worktrees@.take(i + 1).drop_last() =~= worktrees@.take(i as int));
            }
            let active = match active_path {
                Some(path) => same_path(path.as_str(), worktrees[i].path.as_str()),
                None => false,
            };
            worktree_manage_row(&mut p, i, &worktrees[i], active);
            i = i + 1;
        }
        assert(worktrees@.take(worktrees@.len() as int) =~= worktrees@);
    }
    let ghost first = text::views(p@);
    put(&mut p, button("Done", "modal:worktrees:close", ButtonStyle::Primary));
    assert(text::views(p@) =~= first + seq![
        PartView::Button("Done"@, "modal:worktrees:close"@, ButtonStyle::Primary, true),
    ]);
    overlays_panel(MODAL_WORKTREES_KEY, "Worktrees", p)
}

// ---------------------------------------------------------------------------
// Tokens
// ---------------------------------------------------------------------------

/// Form state for the Token modal.
pub struct TokenForm {
    /// Live text-input contents for the GitHub field.
    pub github_input: String,
    /// `true` while the user is actively editing the GitHub field.
    pub editing_github: bool,
    /// Per-host GitLab input buffers. A host being a key here means the
    /// row is in editing mode.
    pub gitlab_inputs: TextMap<String>,
}

impl Default for TokenForm {
    fn default() -> (r: TokenForm)
        ensures
            r.github_input@ == Seq::<char>::empty(),
            !r.editing_github,
            r.gitlab_inputs@ == Seq::<(Seq<char>, Seq<char>)>::empty(),
    {
        TokenForm { github_input: String::new(), editing_github: false, gitlab_inputs: TextMap::new() }
    }
}

/// The controls of a token: its text while it is edited, else whether it is there and what
/// can be done with it. The keys of the controls are those given.
pub open spec fn token_controls(
    editing: Option<Seq<char>>,
    configured: bool,
    input_key: Seq<char>,
    save_key: Seq<char>,
    cancel_key: Seq<char>,
    edit_key: Seq<char>,
    clear_key: Seq<char>,
) -> Seq<PartView> {
    match editing {
        Some(s) => seq![
            PartView::Input(input_key, s),
            PartView::Button("Save"@, save_key, ButtonStyle::Primary, true),
            PartView::Button("Cancel"@, cancel_key, ButtonStyle::Subtle, true),
        ],
        None => if configured {
            seq![
                PartView::Badge("Configured"@, BadgeTone::Success),
                PartView::Button("Replace\u{2026}"@, edit_key, ButtonStyle::Subtle, true),
                PartView::Button("Clear"@, clear_key, ButtonStyle::Destructive, true),
            ]
        } else {
            seq![
                PartView::Badge("Not set"@, BadgeTone::Muted),
                PartView::Button("Set\u{2026}"@, edit_key, ButtonStyle::Subtle, true),
            ]
        },
    }
}

fn put_token_controls(
    parts: &mut Vec<Part>,
    editing: Option<&str>,
    configured: bool,
    input_key: &str,
    save_key: &str,
    cancel_key: &str,
    edit_key: &str,
    clear_key: &str,
)
    ensures
        text::views(final(parts)@) == text::views(old(parts)@) + token_controls(
            git::opt_str_view(editing),
            configured,
            input_key@,
            save_key@,
            cancel_key@,
            edit_key@,
            clear_key@,
        ),
{
    let ghost before = text::views(parts@);
    match editing {
        Some(s) => {
            put(parts, input(input_key, s));
            put(parts, button("Save", save_key, ButtonStyle::Primary));
            put(parts, button("Cancel", cancel_key, ButtonStyle::Subtle));
        },
        None => {
            if configured {
                put(parts, badge("Configured", BadgeTone::Success));
                put(parts, button("Replace\u{2026}", edit_key, ButtonStyle::Subtle));
                put(parts, button("Clear", clear_key, ButtonStyle::Destructive));
            } else {
                put(parts, badge("Not set", BadgeTone::Muted));
                put(parts, button("Set\u{2026}", edit_key, ButtonStyle::Subtle));
            }
        },
    }
    assert(text::views(parts@) =~= before + token_controls(
        git::opt_str_view(editing),
        configured,
        input_key@,
        save_key@,
        cancel_key@,
        edit_key@,
        clear_key@,
    ));
}

/// What is being written for a host, while its token is edited.
pub open spec fn host_input(state: TokenForm, host: Seq<char>) -> Option<Seq<char>> {
    if state.gitlab_inputs.has(host) {
        Some(state.gitlab_inputs.at(host)@)
    } else {
        None
    }
}

/// The line of a host.
pub open spec fn host_parts(state: TokenForm, host: (String, bool)) -> Seq<PartView> {
    seq![PartView::Label(host.0@)] + token_controls(
        host_input(state, host.0@),
        host.1,
        "token:gitlab:input:"@ + host.0@,
        "token:gitlab:save:"@ + host.0@,
        "token:gitlab:cancel:"@ + host.0@,
        "token:gitlab:edit:"@ + host.0@,
        "token:gitlab:clear:"@ + host.0@,
    )
}

/// The lines of all hosts.
pub open spec fn all_host_parts(state: TokenForm, hosts: Seq<(String, bool)>) -> Seq<PartView>
    decreases hosts.len(),
{
    if hosts.len() == 0 {
        Seq::empty()
    } else {
        all_host_parts(state, hosts.drop_last()) + host_parts(state, hosts.last())
    }
}

fn with_host(prefix: &str, host: &str) -> (r: String)
    ensures
        r@ == prefix@ + host@,
{
    let mut s = prefix.to_owned();
    s.append(host);
    s
}

fn gitlab_host_row(parts: &mut Vec<Part>, state: &TokenForm, host: &(String, bool))
    ensures
        text::views(final(parts)@) == text::views(old(parts)@) + host_parts(*state, *host),
{
    let ghost before = text::views(parts@);
    let name = host.0.as_str();
    put(parts, label(name));
    let editing = match state.gitlab_inputs.get(name) {
        Some(s) => Some(s.as_str()),
        None => None,
    };
    put_token_controls(
        parts,
        editing,
        host.1,
        with_host("token:gitlab:input:", name).as_str(),
        with_host("token:gitlab:save:", name).as_str(),
        with_host("token:gitlab:cancel:", name).as_str(),
        with_host("token:gitlab:edit:", name).as_str(),
        with_host("token:gitlab:clear:", name).as_str(),
    );
    assert(text::views(parts@) =~= before + host_parts(*state, *host));
}

/// The part of the token dialog for GitHub.
pub open spec fn github_parts(state: TokenForm, github_set: bool) -> Seq<PartView> {
    seq![PartView::Label("GitHub"@)] + token_controls(
        if state.editing_github {
            Some(state.github_input@)
        } else {
            None
        },
        github_set,
        "token:github"@,
        "token:github:save"@,
        "token:github:cancel"@,
        "token:github:edit"@,
        "token:github:clear"@,
    ) + seq![
        PartView::Description("Stored in the system keychain via the `keyring` crate."@),
    ]
}

/// The part of the token dialog for GitLab.
pub open spec fn gitlab_parts(state: TokenForm, hosts: Seq<(String, bool)>) -> Seq<PartView> {
    if hosts.len() == 0 {
        seq![
            PartView::Label("GitLab"@),
            PartView::Description(
                "GitLab hosts appear here automatically when whisper-git sees a remote that points at one (e.g. `gitlab.com` or a self-hosted instance). Open a repo with a GitLab remote to register the host."@,
            ),
        ]
    } else {
        seq![PartView::Label("GitLab"@)] + all_host_parts(state, hosts) + seq![
            PartView::Description("One token per host. Per-host secrets go in the keychain."@),
        ]
    }
}

/// Token management modal. One block for GitHub, one block per
/// registered GitLab host.
///
/// `gitlab_hosts` is `(host, configured)` for each registered GitLab
/// host.
pub fn token_modal(
    state: &TokenForm,
    github_set: bool,
    gitlab_hosts: &Vec<(String, bool)>,
) -> (r: ModalPanel)
    ensures
        is_panel(
            r,
            MODAL_TOKEN_KEY@,
            "Manage tokens"@,
            github_parts(*state, github_set) + gitlab_parts(*state, gitlab_hosts@) + seq![
                PartView::Button("Done"@, "modal:token:close"@, ButtonStyle::Primary, true),
            ],
        ),
{
    let mut p = no_parts();
    put(&mut p, label("GitHub"));
    let editing = if state.editing_github {
        Some(state.github_input.as_str())
    } else {
        None
    };
    put_token_controls(
        &mut p,
        editing,
        github_set,
        "token:github",
        "token:github:save",
        "token:github:cancel",
        "token:github:edit",
        "token:github:clear",
    );
    put(&mut p, described("Stored in the system keychain via the `keyring` crate."));
    let ghost first = text::views(p@);
    assert(first =~= github_parts(*state, github_set));
    put(&mut p, label("GitLab"));
    if gitlab_hosts.len() == 0 {
        put(
            &mut p,
            described(
                "GitLab hosts appear here automatically when whisper-git sees a remote that points at one (e.g. `gitlab.com` or a self-hosted instance). Open a repo with a GitLab remote to register the host.",
            ),
        );
    } else {
        let ghost base = first.push(PartView::Label("GitLab"@));
        let mut i: usize = 0;
        assert(text::views(p@) =~= base + all_host_parts(*state, gitlab_hosts@.take(0)));
        while i < gitlab_hosts.len()
            invariant
                i <= gitlab_hosts.len(),
                text::views(p@) == base + all_host_parts(*state, gitlab_hosts@.take(i as int)),
            decreases gitlab_hosts.len() - i,
        {
            proof {
                assert(gitlab_hosts@.take(i + 1).drop_last() =~= gitlab_hosts@.take(i as int));
                assert(gitlab_hosts@.take(i + 1).last() == gitlab_hosts@[i as int]);
            }
            gitlab_host_row(&mut p, state, &gitlab_hosts[i]);
            i = i + 1;
            assert(text::views(p@) =~= base + all_host_parts(
                *state,
                gitlab_hosts@.take(i as int),
            ));
        }
        assert(gitlab_hosts@.take(gitlab_hosts@.len() as int) =~= gitlab_hosts@);
        put(&mut p, described("One token per host. Per-host secrets go in the keychain."));
    }
    assert(text::views(p@) =~= first + gitlab_parts(*state, gitlab_hosts@));
    let ghost second = text::views(p@);
    put(&mut p, button("Done", "modal:token:close", ButtonStyle::Primary));
    assert(text::views(p@) =~= second + seq![
        PartView::Button("Done"@, "modal:token:close"@, ButtonStyle::Primary, true),
    ]);
    overlays_panel(MODAL_TOKEN_KEY, "Manage tokens", p)
}

/// While a token is edited it can be saved or left as it is; only one that is there can be
/// cleared.
pub proof fn only_tokens_that_are_there_are_cleared(
    editing: Option<Seq<char>>,
    configured: bool,
    keys: Seq<Seq<char>>,
    i: int,
)
    requires
        keys.len() == 5,
        0 <= i,
        i < token_controls(
            editing,
            configured,
            keys[0],
            keys[1],
            keys[2],
            keys[3],
            keys[4],
        ).len(),
        token_controls(editing, configured, keys[0], keys[1], keys[2], keys[3], keys[4])[i]
            == PartView::Button("Clear"@, keys[4], ButtonStyle::Destructive, true),
    ensures
        configured,
        editing is None,
{
}

/// Every worktree is listed, in order: with its name, its branch and its path, how many files
/// changed in it wherever any did, a mark where it is the one in use, and a button that removes
/// it by its place in the list.
pub proof fn every_worktree_is_listed(
    worktrees: Seq<WorktreeInfo>,
    wt: WorktreeInfo,
    active_path: Option<Seq<char>>,
)
    ensures
        ({
            let before = all_worktree_parts(worktrees, active_path);
            let parts = worktree_parts(
                worktrees.len(),
                wt,
                active_path is Some && paths::same_way(active_path->0, wt.path@),
            );
            &&& all_worktree_parts(worktrees.push(wt), active_path) == before + parts
            &&& parts[0] == PartView::Worktree(wt.name@, wt.branch@, wt.path@)
            &&& parts.last() == PartView::Button(
                "Remove"@,
                "worktrees:remove:"@ + text::dec(worktrees.len()),
                ButtonStyle::Destructive,
                true,
            )
            &&& wt.dirty_file_count is Some && wt.dirty_file_count->0 > 0 ==> parts[1]
                == PartView::Badge(
                text::dec(wt.dirty_file_count->0 as nat) + " dirty"@,
                BadgeTone::Warning,
            )
            &&& active_path is Some && paths::same_way(active_path->0, wt.path@) ==> parts.contains(
                PartView::Badge("active"@, BadgeTone::Muted),
            )
        }),
{
    let all = worktrees.push(wt);
    assert(all.drop_last() =~= worktrees);
    let active = active_path is Some && paths::same_way(active_path->0, wt.path@);
    let parts = worktree_parts(worktrees.len(), wt, active);
    if active {
        assert(parts[parts.len() - 2] == PartView::Badge("active"@, BadgeTone::Muted));
    }
}

/// Every host has its controls, in order, under its name.
pub proof fn every_host_has_its_controls(
    state: TokenForm,
    hosts: Seq<(String, bool)>,
    host: (String, bool),
)
    ensures
        all_host_parts(state, hosts.push(host)) == all_host_parts(state, hosts) + host_parts(
            state,
            host,
        ),
        host_parts(state, host)[0] == PartView::Label(host.0@),
        !state.gitlab_inputs.has(host.0@) && host.1 ==> host_parts(state, host).contains(
            PartView::Badge("Configured"@, BadgeTone::Success),
        ),
        !state.gitlab_inputs.has(host.0@) && !host.1 ==> host_parts(state, host).contains(
            PartView::Badge("Not set"@, BadgeTone::Muted),
        ),
        state.gitlab_inputs.has(host.0@) ==> host_parts(state, host).contains(
            PartView::Input(
                "token:gitlab:input:"@ + host.0@,
                state.gitlab_inputs.at(host.0@)@,
            ),
        ),
{
    assert(hosts.push(host).drop_last() =~= hosts);
    let p = host_parts(state, host);
    if state.gitlab_inputs.has(host.0@) {
        assert(p[1] is Input);
    } else if host.1 {
        assert(p[1] == PartView::Badge("Configured"@, BadgeTone::Success));
    } else {
        assert(p[1] == PartView::Badge("Not set"@, BadgeTone::Muted));
    }
}

/// Every repository that was opened before is offered, by its name where it has one, and by its
/// place in the list.
pub proof fn every_recent_repository_is_offered(recent: Seq<RecentRepo>, i: int)
    requires
        0 <= i < recent.len(),
    ensures
        recent_parts(recent).len() == recent.len() + 1,
        ({
            let item = recent_parts(recent)[i + 1];
            &&& item is Item
            &&& recent[i].name is Some ==> item->Item_0 == recent[i].name->0@
            &&& recent[i].name is None ==> item->Item_0 == recent[i].path@
            &&& item->Item_2 == "modal:open_repo:recent:"@ + text::dec(i as nat)
        }),
{
}

/// A button that needs something filled in can be pressed exactly where more than white space is
/// there; and each choice of a list is shown as it is called.
pub proof fn blanks_do_not_count(s: Seq<char>, names: Seq<Seq<char>>)
    ensures
        says_something(s) <==> exists|i: int| 0 <= i < s.len() && !text::is_white(#[trigger] s[i]),
        as_options(names).len() == names.len(),
        forall|i: int|
            0 <= i < names.len() ==> (#[trigger] as_options(names)[i]) == (names[i], names[i]),
{
    text::trimming_takes_white_space_only(s);
    let t = text::trim(s);
    let (i, j) = choose|i: int, j: int|
        0 <= i <= j <= s.len() && t == #[trigger] s.subrange(i, j) && (forall|k: int|
            0 <= k < i || j <= k < s.len() ==> text::is_white(#[trigger] s[k]));
    if t.len() > 0 {
        assert(t[0] == s[i]);
    }
    if exists|k: int| 0 <= k < s.len() && !text::is_white(#[trigger] s[k]) {
        let k = choose|k: int| 0 <= k < s.len() && !text::is_white(#[trigger] s[k]);
        assert(i <= k < j);
    }
}

/// Every way to merge can be chosen, by its own value.
pub proof fn every_strategy_can_be_chosen(s: MergeStrategy)
    ensures
        exists|i: int|
            0 <= i < strategy_options().len() && (#[trigger] strategy_options()[i]).0 == radio_value(
                s,
            ),
{
    let o = strategy_options();
    assert(o[0].0 == "default"@ && o[1].0 == "no_ff"@ && o[2].0 == "ff_only"@ && o[3].0
        == "squash"@);
}

} // verus!
