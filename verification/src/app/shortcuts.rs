//! What a key does wherever it is pressed.

use crate::app::messages::{AppMessage, MessageView};
use crate::app::modal_state::{ActiveModal, Modals};
use crate::app::tabs::{self, next_tab, previous_tab};
use crate::text;
use vstd::prelude::*;
use vstd::string::*;

verus! {

#[derive(Debug, Clone, Copy, PartialEq, Eq, Structural)]
pub enum Key {
    A,
    F,
    L,
    O,
    P,
    R,
    S,
    W,
    F5,
    Tab,
    Grave,
    Num1,
    Num2,
    Num3,
    Num4,
    Num5,
    Num6,
    Num7,
    Num8,
    Num9,
    Other,
}

/// The modifiers held down with a key, and the combinations that the keyboard layer tells
/// apart.
#[derive(Debug, Clone, Copy, PartialEq, Eq, Structural)]
pub struct Modifiers {
    pub ctrl: bool,
    pub shift: bool,
    pub alt: bool,
    /// Ctrl and nothing else.
    pub only_ctrl: bool,
    /// Ctrl and Shift.
    pub ctrl_shift: bool,
    /// Any modifier at all.
    pub any: bool,
}

/// What the active tab looks like.
pub struct TabFacts {
    pub staging_text_focus: bool,
    pub sidebar_text_focus: bool,
    pub has_worktree_selector: bool,
    pub worktree_count: usize,
    /// The branch that is checked out, where there is one.
    pub current_branch: Option<String>,
}

/// What a key leads to.
#[derive(Debug)]
pub enum ShortcutOutcome {
    NotConsumed,
    /// The key is taken, and nothing follows.
    Consumed,
    OpenRepoDialog,
    OpenCloneDialog,
    CloseTab(usize),
    SwitchTab(usize),
    Message(AppMessage),
    DiagnosticReload,
    SwitchWorktree(usize),
    OpenTerminal,
}

/// What a key leads to, by its views.
pub enum ShortcutView {
    NotConsumed,
    Consumed,
    OpenRepoDialog,
    OpenCloneDialog,
    CloseTab(usize),
    SwitchTab(nat),
    Message(MessageView),
    DiagnosticReload,
    SwitchWorktree(usize),
    OpenTerminal,
}

impl View for ShortcutOutcome {
    type V = ShortcutView;

    open spec fn view(&self) -> ShortcutView {
        match self {
            ShortcutOutcome::NotConsumed => ShortcutView::NotConsumed,
            ShortcutOutcome::Consumed => ShortcutView::Consumed,
            ShortcutOutcome::OpenRepoDialog => ShortcutView::OpenRepoDialog,
            ShortcutOutcome::OpenCloneDialog => ShortcutView::OpenCloneDialog,
            ShortcutOutcome::CloseTab(i) => ShortcutView::CloseTab(*i),
            ShortcutOutcome::SwitchTab(i) => ShortcutView::SwitchTab(*i as nat),
            ShortcutOutcome::Message(m) => ShortcutView::Message(m@),
            ShortcutOutcome::DiagnosticReload => ShortcutView::DiagnosticReload,
            ShortcutOutcome::SwitchWorktree(i) => ShortcutView::SwitchWorktree(*i),
            ShortcutOutcome::OpenTerminal => ShortcutView::OpenTerminal,
        }
    }
}

/// The worktree that a digit stands for.
pub open spec fn worktree_of(key: Key) -> Option<usize> {
    match key {
        Key::Num1 => Some(0),
        Key::Num2 => Some(1),
        Key::Num3 => Some(2),
        Key::Num4 => Some(3),
        Key::Num5 => Some(4),
        Key::Num6 => Some(5),
        Key::Num7 => Some(6),
        Key::Num8 => Some(7),
        Key::Num9 => Some(8),
        _ => None,
    }
}

/// The branch to pull or push: the one that is checked out, or HEAD.
pub open spec fn branch_or_head(tab: TabFacts) -> Seq<char> {
    match tab.current_branch {
        Some(b) => b@,
        None => "HEAD"@,
    }
}

/// What a key does to the active tab.
pub open spec fn tab_shortcut(key: Key, m: Modifiers, tab: TabFacts) -> ShortcutView {
    if key == Key::S && m.only_ctrl && !tab.staging_text_focus {
        ShortcutView::Message(MessageView::StashPush)
    } else if key == Key::S && m.ctrl_shift {
        ShortcutView::Message(MessageView::StashPop)
    } else if key == Key::A && m.ctrl_shift && !tab.staging_text_focus {
        ShortcutView::Message(MessageView::ToggleAmend)
    } else if key == Key::F5 && !m.any {
        ShortcutView::DiagnosticReload
    } else if m.only_ctrl && worktree_of(key) is Some && tab.has_worktree_selector
        && worktree_of(key)->0 < tab.worktree_count {
        ShortcutView::SwitchWorktree(worktree_of(key)->0)
    } else if key == Key::F && m.ctrl_shift {
        ShortcutView::Message(MessageView::Fetch(None))
    } else if key == Key::L && m.ctrl_shift {
        ShortcutView::Message(MessageView::Pull { remote: None, branch: branch_or_head(tab) })
    } else if key == Key::P && m.ctrl_shift {
        ShortcutView::Message(MessageView::Push { remote: None, branch: branch_or_head(tab) })
    } else if key == Key::R && m.ctrl_shift {
        ShortcutView::Message(
            MessageView::PullRebase { remote: None, branch: branch_or_head(tab) },
        )
    } else if key == Key::Grave && !m.any && !tab.staging_text_focus && !tab.sidebar_text_focus {
        ShortcutView::OpenTerminal
    } else {
        ShortcutView::NotConsumed
    }
}

/// What a key does, whichever part of the window it was meant for.
pub open spec fn shortcut(
    key: Key,
    m: Modifiers,
    active: usize,
    count: nat,
    tab: Option<TabFacts>,
) -> ShortcutView {
    if key == Key::O && m.only_ctrl {
        ShortcutView::OpenRepoDialog
    } else if key == Key::O && m.ctrl && m.shift && !m.alt {
        ShortcutView::OpenCloneDialog
    } else if key == Key::W && m.only_ctrl {
        if count > 1 {
            ShortcutView::CloseTab(active)
        } else {
            ShortcutView::Consumed
        }
    } else if key == Key::Tab && m.only_ctrl {
        ShortcutView::SwitchTab(tabs::tab_after(active as nat, count))
    } else if key == Key::Tab && m.ctrl_shift {
        ShortcutView::SwitchTab(tabs::tab_before(active as nat, count))
    } else {
        match tab {
            Some(t) => tab_shortcut(key, m, t),
            None => if key == Key::F5 && !m.any {
                ShortcutView::DiagnosticReload
            } else {
                ShortcutView::NotConsumed
            },
        }
    }
}

fn worktree_index(key: Key) -> (r: Option<usize>)
    ensures
        r == worktree_of(key),
{
    match key {
        Key::Num1 => Some(0),
        Key::Num2 => Some(1),
        Key::Num3 => Some(2),
        Key::Num4 => Some(3),
        Key::Num5 => Some(4),
        Key::Num6 => Some(5),
        Key::Num7 => Some(6),
        Key::Num8 => Some(7),
        Key::Num9 => Some(8),
        _ => None,
    }
}

fn branch_of(tab: &TabFacts) -> (r: String)
    ensures
        r@ == branch_or_head(*tab),
{
    match &tab.current_branch {
        Some(b) => b.clone(),
        None => "HEAD".to_owned(),
    }
}

fn handle_tab_shortcut(key: Key, m: Modifiers, tab: &TabFacts) -> (r: ShortcutOutcome)
    ensures
        r@ == tab_shortcut(key, m, *tab),
{
    if key == Key::S && m.only_ctrl && !tab.staging_text_focus {
        return ShortcutOutcome::Message(AppMessage::StashPush);
    }
    if key == Key::S && m.ctrl_shift {
        return ShortcutOutcome::Message(AppMessage::StashPop);
    }
    if key == Key::A && m.ctrl_shift && !tab.staging_text_focus {
        return ShortcutOutcome::Message(AppMessage::ToggleAmend);
    }
    if key == Key::F5 && !m.any {
        return ShortcutOutcome::DiagnosticReload;
    }
    if m.only_ctrl {
        if let Some(idx) = worktree_index(key) {
            if tab.has_worktree_selector && idx < tab.worktree_count {
                return ShortcutOutcome::SwitchWorktree(idx);
            }
        }
    }
    if key == Key::F && m.ctrl_shift {
        return ShortcutOutcome::Message(AppMessage::Fetch(None));
    }
    if key == Key::L && m.ctrl_shift {
        return ShortcutOutcome::Message(
            AppMessage::Pull { remote: None, branch: branch_of(tab) },
        );
    }
    if key == Key::P && m.ctrl_shift {
        return ShortcutOutcome::Message(
            AppMessage::Push { remote: None, branch: branch_of(tab) },
        );
    }
    if key == Key::R && m.ctrl_shift {
        return ShortcutOutcome::Message(
            AppMessage::PullRebase { remote: None, branch: branch_of(tab) },
        );
    }
    if key == Key::Grave && !m.any && !tab.staging_text_focus && !tab.sidebar_text_focus {
        return ShortcutOutcome::OpenTerminal;
    }
    ShortcutOutcome::NotConsumed
}

/// The dialogs after a key was handled.
pub open spec fn modals_after_shortcut(m: Modals, r: ShortcutView) -> Modals {
    match r {
        ShortcutView::OpenRepoDialog => Modals {
            active: Some(ActiveModal::RepoDialog),
            dialogs: m.dialogs.with(ActiveModal::RepoDialog, true),
            ..m
        },
        ShortcutView::OpenCloneDialog => Modals {
            active: Some(ActiveModal::CloneDialog),
            dialogs: m.dialogs.with(ActiveModal::CloneDialog, true),
            ..m
        },
        _ => m,
    }
}

/// Handle global keyboard shortcuts (Ctrl+O, Ctrl+W, Ctrl+Tab, etc.). `tab` is the active
/// tab, where there is one.
pub fn handle_global_shortcuts(
    key: Key,
    m: Modifiers,
    active: usize,
    count: usize,
    tab: Option<&TabFacts>,
    modals: &mut Modals,
) -> (r: ShortcutOutcome)
    requires
        key == Key::Tab && (m.only_ctrl || m.ctrl_shift) ==> count > 0 && active < usize::MAX,
    ensures
        r@ == shortcut(
            key,
            m,
            active,
            count as nat,
            match tab {
                Some(t) => Some(*t),
                None => None,
            },
        ),
        *final(modals) == modals_after_shortcut(*old(modals), r@),
{
    if key == Key::O && m.only_ctrl {
        modals.dialogs.set(ActiveModal::RepoDialog, true);
        modals.active = Some(ActiveModal::RepoDialog);
        return ShortcutOutcome::OpenRepoDialog;
    }
    if key == Key::O && m.ctrl && m.shift && !m.alt {
        modals.dialogs.set(ActiveModal::CloneDialog, true);
        modals.active = Some(ActiveModal::CloneDialog);
        return ShortcutOutcome::OpenCloneDialog;
    }
    if key == Key::W && m.only_ctrl {
        if count > 1 {
            return ShortcutOutcome::CloseTab(active);
        }
        return ShortcutOutcome::Consumed;
    }
    if key == Key::Tab && m.only_ctrl {
        return ShortcutOutcome::SwitchTab(next_tab(active, count));
    }
    if key == Key::Tab && m.ctrl_shift {
        return ShortcutOutcome::SwitchTab(previous_tab(active, count));
    }
    match tab {
        Some(t) => handle_tab_shortcut(key, m, t),
        None => if key == Key::F5 && !m.any {
            ShortcutOutcome::DiagnosticReload
        } else {
            ShortcutOutcome::NotConsumed
        },
    }
}

/// The last tab is never closed by a key.
pub proof fn last_tab_stays_open(key: Key, m: Modifiers, active: usize, tab: Option<TabFacts>)
    ensures
        !(shortcut(key, m, active, 1, tab) is CloseTab),
{
}

/// While text is being written in the staging area, no key stashes it away, amends or opens a
/// terminal, except the one that brings a stash back.
pub proof fn typing_is_safe(key: Key, m: Modifiers, tab: TabFacts)
    requires
        tab.staging_text_focus,
    ensures
        tab_shortcut(key, m, tab) != ShortcutView::Message(MessageView::StashPush),
        tab_shortcut(key, m, tab) != ShortcutView::Message(MessageView::ToggleAmend),
        !(tab_shortcut(key, m, tab) is OpenTerminal),
{
}

/// Each shortcut does its work where nothing is typed and a repository is open.
pub proof fn shortcuts_do_their_work(m: Modifiers, active: usize, count: nat, tab: TabFacts)
    requires
        !tab.staging_text_focus,
        !tab.sidebar_text_focus,
    ensures
        m.only_ctrl ==> {
            &&& shortcut(Key::O, m, active, count, Some(tab)) == ShortcutView::OpenRepoDialog
            &&& count > 1 ==> shortcut(Key::W, m, active, count, Some(tab))
                == ShortcutView::CloseTab(active)
            &&& shortcut(Key::S, m, active, count, Some(tab)) == ShortcutView::Message(
                MessageView::StashPush,
            )
            &&& tab.has_worktree_selector && tab.worktree_count > 0 ==> shortcut(
                Key::Num1,
                m,
                active,
                count,
                Some(tab),
            ) == ShortcutView::SwitchWorktree(0)
            &&& tab.has_worktree_selector && tab.worktree_count > 8 ==> shortcut(
                Key::Num9,
                m,
                active,
                count,
                Some(tab),
            ) == ShortcutView::SwitchWorktree(8)
        },
        m.ctrl_shift && !m.only_ctrl && tab.current_branch is Some ==> {
            let branch = tab.current_branch->0@;
            &&& shortcut(Key::S, m, active, count, Some(tab)) == ShortcutView::Message(
                MessageView::StashPop,
            )
            &&& shortcut(Key::A, m, active, count, Some(tab)) == ShortcutView::Message(
                MessageView::ToggleAmend,
            )
            &&& shortcut(Key::F, m, active, count, Some(tab)) == ShortcutView::Message(
                MessageView::Fetch(None),
            )
            &&& shortcut(Key::L, m, active, count, Some(tab)) == ShortcutView::Message(
                MessageView::Pull { branch, remote: None },
            )
            &&& shortcut(Key::P, m, active, count, Some(tab)) == ShortcutView::Message(
                MessageView::Push { branch, remote: None },
            )
            &&& shortcut(Key::R, m, active, count, Some(tab)) == ShortcutView::Message(
                MessageView::PullRebase { branch, remote: None },
            )
        },
        !m.any && !m.only_ctrl && !m.ctrl_shift && !m.ctrl ==> {
            &&& shortcut(Key::F5, m, active, count, Some(tab)) == ShortcutView::DiagnosticReload
            &&& shortcut(Key::Grave, m, active, count, Some(tab)) == ShortcutView::OpenTerminal
        },
        shortcut(Key::Other, m, active, count, Some(tab)) == ShortcutView::NotConsumed,
{
}

/// A shortcut opens the dialog it is for, and no other shortcut opens one.
pub proof fn shortcuts_open_their_dialogs(m: Modals, r: ShortcutView)
    ensures
        r is OpenRepoDialog ==> modals_after_shortcut(m, r).active == Some(ActiveModal::RepoDialog)
            && modals_after_shortcut(m, r).dialogs.repo,
        r is OpenCloneDialog ==> modals_after_shortcut(m, r).active == Some(
            ActiveModal::CloneDialog,
        ) && modals_after_shortcut(m, r).dialogs.clone_repo,
        !(r is OpenRepoDialog) && !(r is OpenCloneDialog) ==> modals_after_shortcut(m, r) == m,
{
}

} // verus!
