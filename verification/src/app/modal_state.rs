//! Which dialog is open, and which one it interrupted.

use vstd::prelude::*;

verus! {

#[derive(Debug, Clone, Copy, PartialEq, Eq, Structural)]
pub enum ActiveModal {
    Confirm,
    Error,
    BranchName,
    Remote,
    Pull,
    Push,
    Merge,
    Rebase,
    Settings,
    TokenManager,
    RepoDialog,
    CloneDialog,
}

/// Which dialogs are on the screen.
#[derive(Debug, Clone, Copy, PartialEq, Eq, Structural)]
pub struct Dialogs {
    pub confirm: bool,
    pub error: bool,
    pub branch_name: bool,
    pub remote: bool,
    pub pull: bool,
    pub push: bool,
    pub merge: bool,
    pub rebase: bool,
    pub settings: bool,
    pub token_manager: bool,
    pub repo: bool,
    pub clone_repo: bool,
}

impl Dialogs {
    /// Whether the dialog of `m` is on the screen.
    pub open spec fn at(self, m: ActiveModal) -> bool {
        match m {
            ActiveModal::Confirm => self.confirm,
            ActiveModal::Error => self.error,
            ActiveModal::BranchName => self.branch_name,
            ActiveModal::Remote => self.remote,
            ActiveModal::Pull => self.pull,
            ActiveModal::Push => self.push,
            ActiveModal::Merge => self.merge,
            ActiveModal::Rebase => self.rebase,
            ActiveModal::Settings => self.settings,
            ActiveModal::TokenManager => self.token_manager,
            ActiveModal::RepoDialog => self.repo,
            ActiveModal::CloneDialog => self.clone_repo,
        }
    }

    /// The same, with the dialog of `m` shown or hidden.
    pub open spec fn with(self, m: ActiveModal, visible: bool) -> Dialogs {
        match m {
            ActiveModal::Confirm => Dialogs { confirm: visible, ..self },
            ActiveModal::Error => Dialogs { error: visible, ..self },
            ActiveModal::BranchName => Dialogs { branch_name: visible, ..self },
            ActiveModal::Remote => Dialogs { remote: visible, ..self },
            ActiveModal::Pull => Dialogs { pull: visible, ..self },
            ActiveModal::Push => Dialogs { push: visible, ..self },
            ActiveModal::Merge => Dialogs { merge: visible, ..self },
            ActiveModal::Rebase => Dialogs { rebase: visible, ..self },
            ActiveModal::Settings => Dialogs { settings: visible, ..self },
            ActiveModal::TokenManager => Dialogs { token_manager: visible, ..self },
            ActiveModal::RepoDialog => Dialogs { repo: visible, ..self },
            ActiveModal::CloneDialog => Dialogs { clone_repo: visible, ..self },
        }
    }

    /// Whether the dialog of `m` is on the screen.
    pub fn is_visible(&self, m: ActiveModal) -> (r: bool)
        ensures
            r == self.at(m),
    {
        match m {
            ActiveModal::Confirm => self.confirm,
            ActiveModal::Error => self.error,
            ActiveModal::BranchName => self.branch_name,
            ActiveModal::Remote => self.remote,
            ActiveModal::Pull => self.pull,
            ActiveModal::Push => self.push,
            ActiveModal::Merge => self.merge,
            ActiveModal::Rebase => self.rebase,
            ActiveModal::Settings => self.settings,
            ActiveModal::TokenManager => self.token_manager,
            ActiveModal::RepoDialog => self.repo,
            ActiveModal::CloneDialog => self.clone_repo,
        }
    }

    /// Show or hide the dialog of `m`.
    pub fn set(&mut self, m: ActiveModal, visible: bool)
        ensures
            *final(self) == old(self).with(m, visible),
    {
        let d = *self;
        *self = match m {
            ActiveModal::Confirm => Dialogs { confirm: visible, ..d },
            ActiveModal::Error => Dialogs { error: visible, ..d },
            ActiveModal::BranchName => Dialogs { branch_name: visible, ..d },
            ActiveModal::Remote => Dialogs { remote: visible, ..d },
            ActiveModal::Pull => Dialogs { pull: visible, ..d },
            ActiveModal::Push => Dialogs { push: visible, ..d },
            ActiveModal::Merge => Dialogs { merge: visible, ..d },
            ActiveModal::Rebase => Dialogs { rebase: visible, ..d },
            ActiveModal::Settings => Dialogs { settings: visible, ..d },
            ActiveModal::TokenManager => Dialogs { token_manager: visible, ..d },
            ActiveModal::RepoDialog => Dialogs { repo: visible, ..d },
            ActiveModal::CloneDialog => Dialogs { clone_repo: visible, ..d },
        };
    }
}

/// Showing or hiding one dialog leaves the others as they are.
pub proof fn lemma_with(d: Dialogs, m: ActiveModal, visible: bool)
    ensures
        d.with(m, visible).at(m) == visible,
        forall|o: ActiveModal|
            o != m ==> #[trigger] d.with(m, visible).at(o) == d.at(o),
{
}

/// The dialog that gets the events, the one it interrupted, and which are on the screen.
#[derive(Debug, Clone, Copy, PartialEq, Eq, Structural)]
pub struct Modals {
    pub active: Option<ActiveModal>,
    pub interrupted: Option<ActiveModal>,
    pub dialogs: Dialogs,
}

/// Every dialog can be hidden by its name alone; only the settings can be shown so. The
/// others are shown by what fills them in.
pub open spec fn after_setting(d: Dialogs, m: ActiveModal, visible: bool) -> Dialogs {
    if visible && m != ActiveModal::Settings {
        d
    } else {
        d.with(m, visible)
    }
}

/// With the dialog of `m`, where there is one, hidden.
pub open spec fn without(d: Dialogs, m: Option<ActiveModal>) -> Dialogs {
    match m {
        Some(x) => after_setting(d, x, false),
        None => d,
    }
}

impl Modals {
    /// After `set_active_modal`.
    pub open spec fn activated(self, modal: ActiveModal) -> Modals {
        Modals {
            active: Some(modal),
            interrupted: self.interrupted,
            dialogs: after_setting(without(self.dialogs, self.active), modal, true),
        }
    }

    /// After `close_active_modal`.
    pub open spec fn closed(self) -> Modals {
        Modals {
            active: None,
            interrupted: self.interrupted,
            dialogs: without(self.dialogs, self.active),
        }
    }

    /// After `open_interrupt_modal`.
    pub open spec fn interrupted_by(self, modal: ActiveModal) -> Modals {
        Modals {
            active: Some(modal),
            interrupted: self.active,
            dialogs: after_setting(without(self.dialogs, self.active), modal, true),
        }
    }

    /// After `close_interrupt_modal`.
    pub open spec fn resumed(self) -> Modals {
        let hidden = without(self.dialogs, self.active);
        Modals {
            active: self.interrupted,
            interrupted: None,
            dialogs: match self.interrupted {
                Some(prev) => after_setting(hidden, prev, true),
                None => hidden,
            },
        }
    }

    /// No dialog is open.
    pub fn new() -> (r: Modals)
        ensures
            r.active is None,
            r.interrupted is None,
            forall|m: ActiveModal| !#[trigger] r.dialogs.at(m),
    {
        Modals {
            active: None,
            interrupted: None,
            dialogs: Dialogs {
                confirm: false,
                error: false,
                branch_name: false,
                remote: false,
                pull: false,
                push: false,
                merge: false,
                rebase: false,
                settings: false,
                token_manager: false,
                repo: false,
                clone_repo: false,
            },
        }
    }

    /// Set the visible flag on a dialog by modal variant.
    pub fn set_modal_visible(&mut self, modal: ActiveModal, visible: bool)
        ensures
            *final(self) == (Modals {
                dialogs: after_setting(old(self).dialogs, modal, visible),
                ..*old(self)
            }),
    {
        let settings = match modal {
            ActiveModal::Settings => true,
            _ => false,
        };
        if !visible || settings {
            self.dialogs.set(modal, visible);
        }
    }

    /// Set the active modal, hiding the previous one.
    pub fn set_active_modal(&mut self, modal: ActiveModal)
        ensures
            *final(self) == old(self).activated(modal),
    {
        if let Some(prev) = self.active {
            self.set_modal_visible(prev, false);
        }
        self.set_modal_visible(modal, true);
        self.active = Some(modal);
    }

    /// Close the active modal.
    pub fn close_active_modal(&mut self)
        ensures
            *final(self) == old(self).closed(),
    {
        if let Some(modal) = self.active {
            self.set_modal_visible(modal, false);
        }
        self.active = None;
    }

    /// Open an interrupt modal (Error/Confirm) that restores the previous
    /// modal when closed.
    pub fn open_interrupt_modal(&mut self, modal: ActiveModal)
        ensures
            *final(self) == old(self).interrupted_by(modal),
    {
        self.interrupted = self.active;
        if let Some(prev) = self.interrupted {
            self.set_modal_visible(prev, false);
        }
        self.set_modal_visible(modal, true);
        self.active = Some(modal);
    }

    /// Close an interrupt modal and restore whatever was active before.
    pub fn close_interrupt_modal(&mut self)
        ensures
            *final(self) == old(self).resumed(),
    {
        if let Some(modal) = self.active {
            self.set_modal_visible(modal, false);
        }
        self.active = None;
        if let Some(prev) = self.interrupted {
            self.interrupted = None;
            self.set_modal_visible(prev, true);
            self.active = Some(prev);
        }
    }
}

/// Closing an interrupt modal brings back the modal it interrupted, and leaves none waiting;
/// the settings are on the screen again where they were the ones interrupted.
pub proof fn interrupt_gives_way_to_what_it_interrupted(m: Modals, modal: ActiveModal)
    ensures
        m.interrupted_by(modal).active == Some(modal),
        m.interrupted_by(modal).resumed().active == m.active,
        m.interrupted_by(modal).resumed().interrupted is None,
        m.active == Some(ActiveModal::Settings) ==> m.interrupted_by(
            modal,
        ).resumed().dialogs.settings,
        m.active != Some(modal) ==> !m.interrupted_by(modal).resumed().dialogs.at(modal),
{
    let opened = m.interrupted_by(modal);
    lemma_with(opened.dialogs, modal, false);
    if let Some(prev) = m.active {
        lemma_with(opened.dialogs.with(modal, false), prev, true);
    }
}

/// Opening or closing one modal leaves every dialog but its own and the active one as it was.
pub proof fn other_dialogs_stay(m: Modals, modal: ActiveModal, other: ActiveModal)
    requires
        other != modal,
        m.active != Some(other),
    ensures
        m.activated(modal).dialogs.at(other) == m.dialogs.at(other),
        m.interrupted_by(modal).dialogs.at(other) == m.dialogs.at(other),
        m.closed().dialogs.at(other) == m.dialogs.at(other),
{
    lemma_with(m.dialogs, modal, true);
    if let Some(prev) = m.active {
        lemma_with(m.dialogs, prev, false);
        lemma_with(m.dialogs.with(prev, false), modal, true);
    }
}

/// A closed modal is not on the screen.
pub proof fn closed_modal_is_hidden(m: Modals, modal: ActiveModal)
    requires
        m.active == Some(modal),
    ensures
        m.closed().active is None,
        !m.closed().dialogs.at(modal),
{
}

} // verus!
