//! What follows from what the user did in a dialog.

use crate::app::messages::{AppMessage, MessageView};
use crate::app::modal_state::{ActiveModal, Modals};
use crate::dialogs::MergeStrategy;
use crate::oid::Oid;
use crate::text::{self, contains};
use vstd::prelude::*;
use vstd::string::*;

verus! {

#[derive(Debug, Clone, Copy, PartialEq, Eq, Structural)]
pub enum ConfirmDialogAction {
    Confirm,
    Cancel,
}

#[derive(Debug)]
pub enum BranchNameDialogAction {
    Create(String, Oid),
    /// The name, what it starts from, whether to set up submodules and whether to fetch large
    /// files.
    CreateWorktree(String, String, bool, bool),
    /// The new name and the old one.
    Rename(String, String),
    Cancel,
}

#[derive(Debug)]
pub enum RemoteDialogAction {
    AddRemote(String, String),
    EditUrl(String, String),
    /// The old name and the new one.
    Rename(String, String),
    Cancel,
}

#[derive(Debug)]
pub enum PullDialogAction {
    /// The remote, the branch and whether to rebase.
    Confirm(String, String, bool),
    Cancel,
}

#[derive(Debug)]
pub enum PushDialogAction {
    /// The local branch, the remote, the branch there and whether to force.
    Confirm(String, String, String, bool),
    Cancel,
}

#[derive(Debug)]
pub enum MergeDialogAction {
    /// The branch, how to merge it, the message and the directory to merge in.
    Confirm(String, MergeStrategy, Option<String>, Option<String>),
    Cancel,
}

#[derive(Debug, Clone, Copy, PartialEq, Eq, Structural)]
pub struct RebaseOptions {
    pub autostash: bool,
    pub rebase_merges: bool,
}

#[derive(Debug)]
pub enum RebaseDialogAction {
    /// The branch, the options and the directory to rebase in.
    Confirm(String, RebaseOptions, Option<String>),
    Cancel,
}

#[derive(Debug, Clone, Copy, PartialEq, Eq, Structural)]
pub enum SettingsDialogAction {
    Close,
    ManageTokens,
}

#[derive(Debug)]
pub enum TokenDialogAction {
    Close,
    SetGitHubToken(String),
    /// The host and the token.
    SetGitLabToken(String, String),
    RemoveGitLabToken(String),
}

/// What the active dialog made of an event.
#[derive(Debug)]
pub enum DialogReport {
    Confirm(Option<ConfirmDialogAction>),
    /// Whether the dialog is still on the screen.
    Error(bool),
    /// The title of the dialog, and what was done.
    BranchName(String, Option<BranchNameDialogAction>),
    Remote(Option<RemoteDialogAction>),
    Pull(Option<PullDialogAction>),
    Push(Option<PushDialogAction>),
    Merge(Option<MergeDialogAction>),
    Rebase(Option<RebaseDialogAction>),
    Settings(Option<SettingsDialogAction>),
    TokenManager(Vec<TokenDialogAction>),
    /// Whether the dialog is still on the screen.
    RepoDialog(bool),
    /// Whether the dialog is still on the screen.
    CloneDialog(bool),
}

impl DialogReport {
    /// The modal that reports.
    pub open spec fn from_modal(self) -> ActiveModal {
        match self {
            DialogReport::Confirm(_) => ActiveModal::Confirm,
            DialogReport::Error(_) => ActiveModal::Error,
            DialogReport::BranchName(_, _) => ActiveModal::BranchName,
            DialogReport::Remote(_) => ActiveModal::Remote,
            DialogReport::Pull(_) => ActiveModal::Pull,
            DialogReport::Push(_) => ActiveModal::Push,
            DialogReport::Merge(_) => ActiveModal::Merge,
            DialogReport::Rebase(_) => ActiveModal::Rebase,
            DialogReport::Settings(_) => ActiveModal::Settings,
            DialogReport::TokenManager(_) => ActiveModal::TokenManager,
            DialogReport::RepoDialog(_) => ActiveModal::RepoDialog,
            DialogReport::CloneDialog(_) => ActiveModal::CloneDialog,
        }
    }
}

/// What is left to do outside.
#[derive(Debug, Clone, Copy, PartialEq, Eq, Structural)]
pub enum ModalEffect {
    Nothing,
    /// Take over what was chosen in the settings.
    ApplySettings,
    /// Fill in the token dialog.
    FillTokenDialog,
}

/// What follows from a report.
pub struct ModalOutcome {
    /// Something the user asked for.
    pub message: Option<AppMessage>,
    pub effect: ModalEffect,
    /// Tokens to set or remove, in their order.
    pub tokens: Vec<TokenDialogAction>,
}

/// Whether the title says that a tag is being named.
pub open spec fn names_a_tag(title: Seq<char>) -> bool {
    text::has(title, "Tag"@)
}

/// The message of a merge that makes a commit in any case.
pub open spec fn merge_message(branch: Seq<char>, message: Option<Seq<char>>) -> Seq<char> {
    match message {
        Some(m) => m,
        None => "Merge branch '"@ + branch + "'"@,
    }
}

/// What the user asked for by a report.
pub open spec fn asked_for(report: DialogReport, pending: Option<AppMessage>) -> Option<
    MessageView,
> {
    match report {
        DialogReport::Confirm(Some(ConfirmDialogAction::Confirm)) => match pending {
            Some(m) => Some(m@),
            None => None,
        },
        DialogReport::BranchName(title, Some(BranchNameDialogAction::Create(name, oid))) => Some(
            if names_a_tag(title@) {
                MessageView::CreateTag(name@, oid)
            } else {
                MessageView::CreateBranch(name@, oid)
            },
        ),
        DialogReport::BranchName(
            _,
            Some(BranchNameDialogAction::CreateWorktree(name, source, submodules, lfs)),
        ) => Some(MessageView::CreateWorktree(name@, source@, submodules, lfs)),
        DialogReport::BranchName(_, Some(BranchNameDialogAction::Rename(new_name, old_name))) =>
            Some(MessageView::RenameBranch(old_name@, new_name@)),
        DialogReport::Remote(Some(RemoteDialogAction::AddRemote(name, url))) => Some(
            MessageView::AddRemote(name@, url@),
        ),
        DialogReport::Remote(Some(RemoteDialogAction::EditUrl(name, url))) => Some(
            MessageView::SetRemoteUrl(name@, url@),
        ),
        DialogReport::Remote(Some(RemoteDialogAction::Rename(old_name, new_name))) => Some(
            MessageView::RenameRemote(old_name@, new_name@),
        ),
        DialogReport::Pull(Some(PullDialogAction::Confirm(remote, branch, rebase))) => Some(
            MessageView::PullBranchFrom { remote: remote@, branch: branch@, rebase },
        ),
        DialogReport::Push(
            Some(PushDialogAction::Confirm(local_branch, remote, remote_branch, force)),
        ) => Some(
            MessageView::PushBranchTo {
                local_branch: local_branch@,
                remote: remote@,
                remote_branch: remote_branch@,
                force,
            },
        ),
        DialogReport::Merge(Some(MergeDialogAction::Confirm(branch, strategy, message, dir))) =>
            Some(
            match strategy {
                MergeStrategy::Default => MessageView::MergeBranch(branch@, text::opt_view(dir)),
                MergeStrategy::NoFf => MessageView::MergeNoFf(
                    branch@,
                    merge_message(branch@, text::opt_view(message)),
                    text::opt_view(dir),
                ),
                MergeStrategy::FfOnly => MessageView::MergeFfOnly(
                    branch@,
                    text::opt_view(dir),
                ),
                MergeStrategy::Squash => MessageView::MergeSquash(branch@, text::opt_view(dir)),
            },
        ),
        DialogReport::Rebase(Some(RebaseDialogAction::Confirm(branch, options, dir))) => Some(
            MessageView::RebaseBranchWithOptions(
                branch@,
                options.autostash,
                options.rebase_merges,
                text::opt_view(dir),
            ),
        ),
        _ => None,
    }
}

/// Whether one of the actions closes the token dialog.
pub open spec fn closes(actions: Seq<TokenDialogAction>) -> bool {
    exists|i: int| 0 <= i < actions.len() && #[trigger] actions[i] is Close
}

/// The actions that set or remove tokens.
pub open spec fn token_changes(actions: Seq<TokenDialogAction>) -> Seq<TokenDialogAction>
    decreases actions.len(),
{
    if actions.len() == 0 {
        Seq::empty()
    } else if actions.last() is Close {
        token_changes(actions.drop_last())
    } else {
        token_changes(actions.drop_last()).push(actions.last())
    }
}

/// The settings take the place of the token dialog.
pub open spec fn back_to_settings(m: Modals) -> Modals {
    Modals {
        active: Some(ActiveModal::Settings),
        dialogs: m.dialogs.with(ActiveModal::TokenManager, false).with(
            ActiveModal::Settings,
            true,
        ),
        ..m
    }
}

/// The token dialog takes the place of the settings.
pub open spec fn on_to_tokens(m: Modals) -> Modals {
    Modals {
        active: Some(ActiveModal::TokenManager),
        dialogs: m.dialogs.with(ActiveModal::Settings, false).with(
            ActiveModal::TokenManager,
            true,
        ),
        ..m
    }
}

/// The dialog hid itself and nothing takes its place.
pub open spec fn gone(m: Modals, modal: ActiveModal) -> Modals {
    Modals { active: None, dialogs: m.dialogs.with(modal, false), ..m }
}

/// Which dialogs are open after a report.
pub open spec fn after_report(m: Modals, report: DialogReport) -> Modals {
    match report {
        DialogReport::Confirm(action) => if action is Some {
            m.resumed()
        } else {
            m
        },
        DialogReport::Error(visible) => if visible {
            m
        } else {
            m.resumed()
        },
        DialogReport::BranchName(_, action) => if action is Some {
            m.closed()
        } else {
            m
        },
        DialogReport::Remote(action) => if action is Some {
            m.closed()
        } else {
            m
        },
        DialogReport::Pull(action) => if action is Some {
            m.closed()
        } else {
            m
        },
        DialogReport::Push(action) => if action is Some {
            m.closed()
        } else {
            m
        },
        DialogReport::Merge(action) => if action is Some {
            m.closed()
        } else {
            m
        },
        DialogReport::Rebase(action) => if action is Some {
            m.closed()
        } else {
            m
        },
        DialogReport::Settings(Some(SettingsDialogAction::Close)) => m.closed(),
        DialogReport::Settings(Some(SettingsDialogAction::ManageTokens)) => on_to_tokens(m),
        DialogReport::Settings(None) => m,
        DialogReport::TokenManager(actions) => if closes(actions@) {
            back_to_settings(m)
        } else {
            m
        },
        DialogReport::RepoDialog(visible) => if visible {
            m
        } else {
            gone(m, ActiveModal::RepoDialog)
        },
        DialogReport::CloneDialog(visible) => if visible {
            m
        } else {
            gone(m, ActiveModal::CloneDialog)
        },
    }
}

/// What is still waiting to be confirmed after a report.
pub open spec fn still_pending(
    report: DialogReport,
    pending: Option<AppMessage>,
) -> Option<AppMessage> {
    match report {
        DialogReport::Confirm(Some(_)) => None,
        _ => pending,
    }
}

fn branch_name_message(title: &str, action: BranchNameDialogAction) -> (r: Option<AppMessage>)
    ensures
        match r {
            Some(m) => Some(m@),
            None => None::<MessageView>,
        } == asked_for_name(title@, action),
{
    match action {
        BranchNameDialogAction::Create(name, oid) => if contains(title, "Tag") {
            Some(AppMessage::CreateTag(name, oid))
        } else {
            Some(AppMessage::CreateBranch(name, oid))
        },
        BranchNameDialogAction::CreateWorktree(name, source, submodules, lfs) => Some(
            AppMessage::CreateWorktree(name, source, submodules, lfs),
        ),
        BranchNameDialogAction::Rename(new_name, old_name) => Some(
            AppMessage::RenameBranch(old_name, new_name),
        ),
        BranchNameDialogAction::Cancel => None,
    }
}

/// What was asked for by naming something.
pub open spec fn asked_for_name(
    title: Seq<char>,
    action: BranchNameDialogAction,
) -> Option<MessageView> {
    match action {
        BranchNameDialogAction::Create(name, oid) => Some(
            if names_a_tag(title) {
                MessageView::CreateTag(name@, oid)
            } else {
                MessageView::CreateBranch(name@, oid)
            },
        ),
        BranchNameDialogAction::CreateWorktree(name, source, submodules, lfs) => Some(
            MessageView::CreateWorktree(name@, source@, submodules, lfs),
        ),
        BranchNameDialogAction::Rename(new_name, old_name) => Some(
            MessageView::RenameBranch(old_name@, new_name@),
        ),
        BranchNameDialogAction::Cancel => None,
    }
}

fn merge_request(
    branch: String,
    strategy: MergeStrategy,
    message: Option<String>,
    dir: Option<String>,
) -> (r: AppMessage)
    ensures
        r@ == (match strategy {
            MergeStrategy::Default => MessageView::MergeBranch(branch@, text::opt_view(dir)),
            MergeStrategy::NoFf => MessageView::MergeNoFf(
                branch@,
                merge_message(branch@, text::opt_view(message)),
                text::opt_view(dir),
            ),
            MergeStrategy::FfOnly => MessageView::MergeFfOnly(
                branch@,
                text::opt_view(dir),
            ),
            MergeStrategy::Squash => MessageView::MergeSquash(branch@, text::opt_view(dir)),
        }),
{
    match strategy {
        MergeStrategy::Default => AppMessage::MergeBranch(branch, dir),
        MergeStrategy::NoFf => {
            let text = match message {
                Some(m) => m,
                None => {
                    let mut s = "Merge branch '".to_owned();
                    s.append(branch.as_str());
                    s.append("'");
                    s
                },
            };
            AppMessage::MergeNoFf(branch, text, dir)
        },
        MergeStrategy::FfOnly => AppMessage::MergeFfOnly(branch, dir),
        MergeStrategy::Squash => AppMessage::MergeSquash(branch, dir),
    }
}

fn handle_token_actions(modals: &mut Modals, actions: Vec<TokenDialogAction>) -> (r: Vec<
    TokenDialogAction,
>)
    ensures
        r@ == token_changes(actions@),
        *final(modals) == (if closes(actions@) {
            back_to_settings(*old(modals))
        } else {
            *old(modals)
        }),
{
    let ghost m = *modals;
    let mut changes: Vec<TokenDialogAction> = Vec::new();
    let mut closing = false;
    let ghost all = actions@;
    assert(changes@ =~= token_changes(all.take(0)));
    for action in it: actions
        invariant
            it.seq() == all,
            changes@ == token_changes(all.take(it.index() as int)),
            closing == closes(all.take(it.index() as int)),
    {
        let ghost i = it.index() as int;
        proof {
            assert(all.take(i + 1).drop_last() =~= all.take(i));
            assert(all.take(i + 1).last() == action);
            assert forall|k: int| 0 <= k < i implies all.take(i + 1)[k] == all.take(i)[k] by {}
            if closes(all.take(i)) {
                let k = choose|k: int| 0 <= k < i && #[trigger] all.take(i)[k] is Close;
                assert(all.take(i + 1)[k] is Close);
            }
            if closes(all.take(i + 1)) {
                let k = choose|k: int| 0 <= k < i + 1 && #[trigger] all.take(i + 1)[k] is Close;
                if k < i {
                    assert(all.take(i)[k] is Close);
                }
            }
        }
        match action {
            TokenDialogAction::Close => {
                closing = true;
                assert(all.take(i + 1)[i] is Close);
            },
            other => {
                changes.push(other);
            },
        }
    }
    assert(all.take(all.len() as int) =~= all);
    if closing {
        modals.dialogs.set(ActiveModal::TokenManager, false);
        modals.dialogs.set(ActiveModal::Settings, true);
        modals.active = Some(ActiveModal::Settings);
    }
    changes
}

/// Handle what the active dialog made of an event. `has_tab` says whether there is a
/// repository to act on; without one nothing is asked for. The event is consumed.
pub fn handle_modal_events(
    modals: &mut Modals,
    pending_confirm: &mut Option<AppMessage>,
    report: DialogReport,
    has_tab: bool,
) -> (r: ModalOutcome)
    requires
        old(modals).active == Some(report.from_modal()),
    ensures
        *final(modals) == after_report(*old(modals), report),
        *final(pending_confirm) == still_pending(report, *old(pending_confirm)),
        match r.message {
            Some(m) => has_tab && asked_for(report, *old(pending_confirm)) == Some(m@),
            None => !has_tab || asked_for(report, *old(pending_confirm)) is None,
        },
        r.effect == (match report {
            DialogReport::Settings(Some(SettingsDialogAction::Close)) =>
                ModalEffect::ApplySettings,
            DialogReport::Settings(Some(SettingsDialogAction::ManageTokens)) =>
                ModalEffect::FillTokenDialog,
            _ => ModalEffect::Nothing,
        }),
        r.tokens@ == (match report {
            DialogReport::TokenManager(actions) => token_changes(actions@),
            _ => Seq::empty(),
        }),
{
    let mut message: Option<AppMessage> = None;
    let mut effect = ModalEffect::Nothing;
    let mut tokens: Vec<TokenDialogAction> = Vec::new();
    match report {
        DialogReport::Confirm(action) => {
            if let Some(a) = action {
                let waiting = pending_confirm.take();
                match a {
                    ConfirmDialogAction::Confirm => {
                        message = waiting;
                    },
                    ConfirmDialogAction::Cancel => {},
                }
                modals.close_interrupt_modal();
            }
        },
        DialogReport::Error(visible) => {
            if !visible {
                modals.close_interrupt_modal();
            }
        },
        DialogReport::BranchName(title, action) => {
            if let Some(a) = action {
                message = branch_name_message(title.as_str(), a);
                modals.close_active_modal();
            }
        },
        DialogReport::Remote(action) => {
            if let Some(a) = action {
                match a {
                    RemoteDialogAction::AddRemote(name, url) => {
                        message = Some(AppMessage::AddRemote(name, url));
                    },
                    RemoteDialogAction::EditUrl(name, url) => {
                        message = Some(AppMessage::SetRemoteUrl(name, url));
                    },
                    RemoteDialogAction::Rename(old_name, new_name) => {
                        message = Some(AppMessage::RenameRemote(old_name, new_name));
                    },
                    RemoteDialogAction::Cancel => {},
                }
                modals.close_active_modal();
            }
        },
        DialogReport::Pull(action) => {
            if let Some(a) = action {
                if let PullDialogAction::Confirm(remote, branch, rebase) = a {
                    message = Some(AppMessage::PullBranchFrom { remote, branch, rebase });
                }
                modals.close_active_modal();
            }
        },
        DialogReport::Push(action) => {
            if let Some(a) = action {
                if let PushDialogAction::Confirm(local_branch, remote, remote_branch, force) = a {
                    message = Some(
                        AppMessage::PushBranchTo { local_branch, remote, remote_branch, force },
                    );
                }
                modals.close_active_modal();
            }
        },
        DialogReport::Merge(action) => {
            if let Some(a) = action {
                if let MergeDialogAction::Confirm(branch, strategy, text, dir) = a {
                    message = Some(merge_request(branch, strategy, text, dir));
                }
                modals.close_active_modal();
            }
        },
        DialogReport::Rebase(action) => {
            if let Some(a) = action {
                if let RebaseDialogAction::Confirm(branch, options, dir) = a {
                    message = Some(
                        AppMessage::RebaseBranchWithOptions(
                            branch,
                            options.autostash,
                            options.rebase_merges,
                            dir,
                        ),
                    );
                }
                modals.close_active_modal();
            }
        },
        DialogReport::Settings(action) => {
            if let Some(a) = action {
                match a {
                    SettingsDialogAction::Close => {
                        effect = ModalEffect::ApplySettings;
                        modals.close_active_modal();
                    },
                    SettingsDialogAction::ManageTokens => {
                        effect = ModalEffect::FillTokenDialog;
                        modals.dialogs.set(ActiveModal::Settings, false);
                        modals.dialogs.set(ActiveModal::TokenManager, true);
                        modals.active = Some(ActiveModal::TokenManager);
                    },
                }
            }
        },
        DialogReport::TokenManager(actions) => {
            tokens = handle_token_actions(modals, actions);
        },
        DialogReport::RepoDialog(visible) => {
            if !visible {
                modals.dialogs.set(ActiveModal::RepoDialog, false);
                modals.active = None;
            }
        },
        DialogReport::CloneDialog(visible) => {
            if !visible {
                modals.dialogs.set(ActiveModal::CloneDialog, false);
                modals.active = None;
            }
        },
    }
    if !has_tab {
        message = None;
    }
    ModalOutcome { message, effect, tokens }
}

/// What is done with an event while no dialog is open.
#[derive(Debug)]
pub enum OverlayOutcome {
    /// It goes on to what lies below.
    NotConsumed,
    Consumed,
    /// An entry of the context menu was chosen.
    MenuAction(String),
}

/// The context menu, where it is open.
#[derive(Debug)]
pub enum MenuReport {
    Closed,
    /// It is open, and this entry was chosen if any was.
    Open(Option<String>),
}

/// Handle non-modal overlay events: a toast that was clicked takes the event first, then an
/// open context menu.
pub fn handle_overlay_events(toast_took_it: bool, menu: MenuReport) -> (r: OverlayOutcome)
    ensures
        r == (if toast_took_it {
            OverlayOutcome::Consumed
        } else {
            match menu {
                MenuReport::Closed => OverlayOutcome::NotConsumed,
                MenuReport::Open(None) => OverlayOutcome::Consumed,
                MenuReport::Open(Some(id)) => OverlayOutcome::MenuAction(id),
            }
        }),
{
    if toast_took_it {
        return OverlayOutcome::Consumed;
    }
    match menu {
        MenuReport::Closed => OverlayOutcome::NotConsumed,
        MenuReport::Open(None) => OverlayOutcome::Consumed,
        MenuReport::Open(Some(id)) => OverlayOutcome::MenuAction(id),
    }
}

/// What waits to be confirmed is carried out only when it is confirmed, and is forgotten
/// either way; nothing else that is done in a dialog touches it.
pub proof fn only_confirming_carries_out(report: DialogReport, pending: Option<AppMessage>)
    requires
        report is Confirm,
    ensures
        asked_for(report, pending) is Some ==> report == DialogReport::Confirm(
            Some(ConfirmDialogAction::Confirm),
        ) && pending is Some,
        report->Confirm_0 is Some ==> still_pending(report, pending) is None,
        report->Confirm_0 is None ==> still_pending(report, pending) == pending,
{
}

/// Cancelling a dialog asks for nothing.
pub proof fn cancelling_asks_for_nothing(title: String, pending: Option<AppMessage>)
    ensures
        asked_for(DialogReport::Confirm(Some(ConfirmDialogAction::Cancel)), pending) is None,
        asked_for(
            DialogReport::BranchName(title, Some(BranchNameDialogAction::Cancel)),
            pending,
        ) is None,
        asked_for(DialogReport::Remote(Some(RemoteDialogAction::Cancel)), pending) is None,
        asked_for(DialogReport::Pull(Some(PullDialogAction::Cancel)), pending) is None,
        asked_for(DialogReport::Push(Some(PushDialogAction::Cancel)), pending) is None,
        asked_for(DialogReport::Merge(Some(MergeDialogAction::Cancel)), pending) is None,
        asked_for(DialogReport::Rebase(Some(RebaseDialogAction::Cancel)), pending) is None,
{
}

/// Going from the settings to the tokens and back leads to the settings.
pub proof fn tokens_lead_back_to_settings(m: Modals, actions: Vec<TokenDialogAction>)
    requires
        m.active == Some(ActiveModal::Settings),
        closes(actions@),
    ensures
        ({
            let there = after_report(
                m,
                DialogReport::Settings(Some(SettingsDialogAction::ManageTokens)),
            );
            let back = after_report(there, DialogReport::TokenManager(actions));
            &&& there.active == Some(ActiveModal::TokenManager)
            &&& back.active == Some(ActiveModal::Settings)
            &&& back.dialogs.settings
            &&& !back.dialogs.token_manager
        }),
{
}

/// What was filled in is what is asked for: where to pull from and push to, what to merge and
/// rebase, and how; what to name, and what it was named before.
pub proof fn what_was_filled_in_is_asked_for(
    a: String,
    b: String,
    c: String,
    oid: Oid,
    flag: bool,
    other: bool,
    dir: Option<String>,
    options: RebaseOptions,
    pending: Option<AppMessage>,
)
    ensures
        asked_for(DialogReport::Pull(Some(PullDialogAction::Confirm(a, b, flag))), pending) == Some(
            MessageView::PullBranchFrom { rebase: flag, branch: b@, remote: a@ },
        ),
        asked_for(
            DialogReport::Push(Some(PushDialogAction::Confirm(a, b, c, flag))),
            pending,
        ) == Some(
            MessageView::PushBranchTo {
                force: flag,
                remote_branch: c@,
                remote: b@,
                local_branch: a@,
            },
        ),
        asked_for(
            DialogReport::Rebase(Some(RebaseDialogAction::Confirm(a, options, dir))),
            pending,
        ) == Some(
            MessageView::RebaseBranchWithOptions(
                a@,
                options.autostash,
                options.rebase_merges,
                text::opt_view(dir),
            ),
        ),
        asked_for(DialogReport::Remote(Some(RemoteDialogAction::AddRemote(a, b))), pending) == Some(
            MessageView::AddRemote(a@, b@),
        ),
        asked_for(DialogReport::Remote(Some(RemoteDialogAction::EditUrl(a, b))), pending) == Some(
            MessageView::SetRemoteUrl(a@, b@),
        ),
        asked_for(DialogReport::Remote(Some(RemoteDialogAction::Rename(a, b))), pending) == Some(
            MessageView::RenameRemote(a@, b@),
        ),
        asked_for(
            DialogReport::BranchName(c, Some(BranchNameDialogAction::Rename(a, b))),
            pending,
        ) == Some(MessageView::RenameBranch(b@, a@)),
        asked_for(
            DialogReport::BranchName(
                c,
                Some(BranchNameDialogAction::CreateWorktree(a, b, flag, other)),
            ),
            pending,
        ) == Some(MessageView::CreateWorktree(a@, b@, flag, other)),
        text::has(c@, "Tag"@) ==> asked_for(
            DialogReport::BranchName(c, Some(BranchNameDialogAction::Create(a, oid))),
            pending,
        ) == Some(MessageView::CreateTag(a@, oid)),
        !text::has(c@, "Tag"@) ==> asked_for(
            DialogReport::BranchName(c, Some(BranchNameDialogAction::Create(a, oid))),
            pending,
        ) == Some(MessageView::CreateBranch(a@, oid)),
        pending is Some ==> asked_for(
            DialogReport::Confirm(Some(ConfirmDialogAction::Confirm)),
            pending,
        ) == Some(pending->0@),
{
}

/// A merge is made the way that was chosen, in the directory that was chosen; one that always
/// makes a commit has the message that was given, or else the usual one.
pub proof fn a_merge_is_made_as_chosen(
    branch: String,
    message: Option<String>,
    dir: Option<String>,
    pending: Option<AppMessage>,
)
    ensures
        asked_for(
            DialogReport::Merge(
                Some(MergeDialogAction::Confirm(branch, MergeStrategy::Default, message, dir)),
            ),
            pending,
        ) == Some(MessageView::MergeBranch(branch@, text::opt_view(dir))),
        asked_for(
            DialogReport::Merge(
                Some(MergeDialogAction::Confirm(branch, MergeStrategy::FfOnly, message, dir)),
            ),
            pending,
        ) == Some(MessageView::MergeFfOnly(branch@, text::opt_view(dir))),
        asked_for(
            DialogReport::Merge(
                Some(MergeDialogAction::Confirm(branch, MergeStrategy::Squash, message, dir)),
            ),
            pending,
        ) == Some(MessageView::MergeSquash(branch@, text::opt_view(dir))),
        asked_for(
            DialogReport::Merge(
                Some(MergeDialogAction::Confirm(branch, MergeStrategy::NoFf, message, dir)),
            ),
            pending,
        ) == Some(
            MessageView::MergeNoFf(
                branch@,
                if message is None {
                    "Merge branch '"@ + branch@ + "'"@
                } else {
                    message->0@
                },
                text::opt_view(dir),
            ),
        ),
{
}

/// Every change of a token is carried out, in its order; closing the dialog is none.
pub proof fn every_token_change_is_carried_out(actions: Seq<TokenDialogAction>)
    ensures
        token_changes(actions) == actions.filter(|a: TokenDialogAction| !(a is Close)),
    decreases actions.len(),
{
    reveal(Seq::filter);
    if actions.len() > 0 {
        every_token_change_is_carried_out(actions.drop_last());
    }
}

} // verus!
