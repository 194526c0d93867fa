//! What the user asked for, and the order in which it is dealt with.

use crate::app::modal_state::{ActiveModal, Modals};
use crate::app::toast::{self, ToastManager, ToastSeverity};
use crate::oid::Oid;
use crate::text::{self, push_dec, trimmed};
use vstd::prelude::*;
use vstd::string::*;

verus! {

/// Something the user asked for. A path is held as text.
#[derive(Debug)]
#[allow(inconsistent_fields)]
pub enum AppMessage {
    EnterSubmodule(String),
    ExitSubmodule,
    ExitToDepth(usize),
    ShowPullDialog(String),
    ShowPushDialog(String),
    AiGenerateCommitMessage,
    CheckoutBranch(String),
    CheckoutRemoteBranch(String, String),
    CreateBranch(String, Oid),
    CreateTag(String, Oid),
    /// The name, what it starts from, whether to set up submodules and whether to fetch large
    /// files.
    CreateWorktree(String, String, bool, bool),
    RenameBranch(String, String),
    DeleteBranch(String),
    DeleteTag(String),
    AddRemote(String, String),
    SetRemoteUrl(String, String),
    RenameRemote(String, String),
    Fetch(Option<String>),
    Pull { remote: Option<String>, branch: String },
    PullRebase { remote: Option<String>, branch: String },
    Push { remote: Option<String>, branch: String },
    PullBranchFrom { remote: String, branch: String, rebase: bool },
    PushBranchTo { local_branch: String, remote: String, remote_branch: String, force: bool },
    MergeBranch(String, Option<String>),
    MergeNoFf(String, String, Option<String>),
    MergeFfOnly(String, Option<String>),
    MergeSquash(String, Option<String>),
    RebaseBranchWithOptions(String, bool, bool, Option<String>),
    StashPush,
    StashPop,
    StashApply(usize),
    StashDrop(usize),
    ToggleAmend,
    JumpToCommit(Oid),
}

/// A message by its views.
#[allow(inconsistent_fields)]
pub enum MessageView {
    EnterSubmodule(Seq<char>),
    ExitSubmodule,
    ExitToDepth(usize),
    ShowPullDialog(Seq<char>),
    ShowPushDialog(Seq<char>),
    AiGenerateCommitMessage,
    CheckoutBranch(Seq<char>),
    CheckoutRemoteBranch(Seq<char>, Seq<char>),
    CreateBranch(Seq<char>, Oid),
    CreateTag(Seq<char>, Oid),
    CreateWorktree(Seq<char>, Seq<char>, bool, bool),
    RenameBranch(Seq<char>, Seq<char>),
    DeleteBranch(Seq<char>),
    DeleteTag(Seq<char>),
    AddRemote(Seq<char>, Seq<char>),
    SetRemoteUrl(Seq<char>, Seq<char>),
    RenameRemote(Seq<char>, Seq<char>),
    Fetch(Option<Seq<char>>),
    Pull { remote: Option<Seq<char>>, branch: Seq<char> },
    PullRebase { remote: Option<Seq<char>>, branch: Seq<char> },
    Push { remote: Option<Seq<char>>, branch: Seq<char> },
    PullBranchFrom { remote: Seq<char>, branch: Seq<char>, rebase: bool },
    PushBranchTo {
        local_branch: Seq<char>,
        remote: Seq<char>,
        remote_branch: Seq<char>,
        force: bool,
    },
    MergeBranch(Seq<char>, Option<Seq<char>>),
    MergeNoFf(Seq<char>, Seq<char>, Option<Seq<char>>),
    MergeFfOnly(Seq<char>, Option<Seq<char>>),
    MergeSquash(Seq<char>, Option<Seq<char>>),
    RebaseBranchWithOptions(Seq<char>, bool, bool, Option<Seq<char>>),
    StashPush,
    StashPop,
    StashApply(usize),
    StashDrop(usize),
    ToggleAmend,
    JumpToCommit(Oid),
}

impl View for AppMessage {
    type V = MessageView;

    open spec fn view(&self) -> MessageView {
        match self {
            AppMessage::EnterSubmodule(a) => MessageView::EnterSubmodule(a@),
            AppMessage::ExitSubmodule => MessageView::ExitSubmodule,
            AppMessage::ExitToDepth(a) => MessageView::ExitToDepth(*a),
            AppMessage::ShowPullDialog(a) => MessageView::ShowPullDialog(a@),
            AppMessage::ShowPushDialog(a) => MessageView::ShowPushDialog(a@),
            AppMessage::AiGenerateCommitMessage => MessageView::AiGenerateCommitMessage,
            AppMessage::CheckoutBranch(a) => MessageView::CheckoutBranch(a@),
            AppMessage::CheckoutRemoteBranch(a, b) => MessageView::CheckoutRemoteBranch(a@, b@),
            AppMessage::CreateBranch(a, b) => MessageView::CreateBranch(a@, *b),
            AppMessage::CreateTag(a, b) => MessageView::CreateTag(a@, *b),
            AppMessage::CreateWorktree(a, b, c, d) => MessageView::CreateWorktree(a@, b@, *c, *d),
            AppMessage::RenameBranch(a, b) => MessageView::RenameBranch(a@, b@),
            AppMessage::DeleteBranch(a) => MessageView::DeleteBranch(a@),
            AppMessage::DeleteTag(a) => MessageView::DeleteTag(a@),
            AppMessage::AddRemote(a, b) => MessageView::AddRemote(a@, b@),
            AppMessage::SetRemoteUrl(a, b) => MessageView::SetRemoteUrl(a@, b@),
            AppMessage::RenameRemote(a, b) => MessageView::RenameRemote(a@, b@),
            AppMessage::Fetch(a) => MessageView::Fetch(text::opt_view(*a)),
            AppMessage::Pull { remote, branch } => MessageView::Pull {
                remote: text::opt_view(*remote),
                branch: branch@,
            },
            AppMessage::PullRebase { remote, branch } => MessageView::PullRebase {
                remote: text::opt_view(*remote),
                branch: branch@,
            },
            AppMessage::Push { remote, branch } => MessageView::Push {
                remote: text::opt_view(*remote),
                branch: branch@,
            },
            AppMessage::PullBranchFrom { remote, branch, rebase } => MessageView::PullBranchFrom {
                remote: remote@,
                branch: branch@,
                rebase: *rebase,
            },
            AppMessage::PushBranchTo {
                local_branch,
                remote,
                remote_branch,
                force,
            } => MessageView::PushBranchTo {
                local_branch: local_branch@,
                remote: remote@,
                remote_branch: remote_branch@,
                force: *force,
            },
            AppMessage::MergeBranch(a, b) => MessageView::MergeBranch(a@, text::opt_view(*b)),
            AppMessage::MergeNoFf(a, b, c) => MessageView::MergeNoFf(a@, b@, text::opt_view(*c)),
            AppMessage::MergeFfOnly(a, b) => MessageView::MergeFfOnly(a@, text::opt_view(*b)),
            AppMessage::MergeSquash(a, b) => MessageView::MergeSquash(a@, text::opt_view(*b)),
            AppMessage::RebaseBranchWithOptions(
                a,
                b,
                c,
                d,
            ) => MessageView::RebaseBranchWithOptions(a@, *b, *c, text::opt_view(*d)),
            AppMessage::StashPush => MessageView::StashPush,
            AppMessage::StashPop => MessageView::StashPop,
            AppMessage::StashApply(a) => MessageView::StashApply(*a),
            AppMessage::StashDrop(a) => MessageView::StashDrop(*a),
            AppMessage::ToggleAmend => MessageView::ToggleAmend,
            AppMessage::JumpToCommit(a) => MessageView::JumpToCommit(*a),
        }
    }
}

/// When a message is dealt with.
#[derive(Debug, Clone, Copy, PartialEq, Eq, Structural)]
pub enum MessageKind {
    /// It leads into or out of a submodule.
    Navigation,
    /// It opens a dialog or asks for a commit message to be written.
    Aside,
    /// All others.
    Normal,
}

/// When a message is dealt with.
pub open spec fn kind(m: MessageView) -> MessageKind {
    match m {
        MessageView::EnterSubmodule(_) | MessageView::ExitSubmodule | MessageView::ExitToDepth(
            _,
        ) => MessageKind::Navigation,
        MessageView::ShowPullDialog(_)
        | MessageView::ShowPushDialog(_)
        | MessageView::AiGenerateCommitMessage => MessageKind::Aside,
        _ => MessageKind::Normal,
    }
}

/// When a message is dealt with.
pub fn message_kind(m: &AppMessage) -> (r: MessageKind)
    ensures
        r == kind(m@),
{
    match m {
        AppMessage::EnterSubmodule(_) | AppMessage::ExitSubmodule | AppMessage::ExitToDepth(_) => {
            MessageKind::Navigation
        },
        AppMessage::ShowPullDialog(_)
        | AppMessage::ShowPushDialog(_)
        | AppMessage::AiGenerateCommitMessage => MessageKind::Aside,
        _ => MessageKind::Normal,
    }
}

/// The messages of one kind, in their order.
pub open spec fn of_kind(s: Seq<MessageView>, k: MessageKind) -> Seq<MessageView>
    decreases s.len(),
{
    if s.len() == 0 {
        Seq::empty()
    } else if kind(s.last()) == k {
        of_kind(s.drop_last(), k).push(s.last())
    } else {
        of_kind(s.drop_last(), k)
    }
}

/// How the pending messages are dealt with: what stands aside first, then the navigation,
/// then the rest.
pub struct MessagePlan {
    pub breadcrumb: Option<String>,
    pub asides: Vec<AppMessage>,
    pub navigation: Vec<AppMessage>,
    pub normal: Vec<AppMessage>,
    /// Whether the status has to be read again.
    pub status_dirty: bool,
}

/// Sort the pending messages by how they are dealt with. `ready` says whether there is a
/// window; without one there is no navigation.
pub fn process_messages(messages: Vec<AppMessage>, ready: bool) -> (r: MessagePlan)
    ensures
        text::opt_view(r.breadcrumb) == (if messages.len() == 0 {
            None
        } else {
            Some("process_messages: "@ + text::dec(messages@.len()) + " pending"@)
        }),
        text::views(r.asides@) == of_kind(text::views(messages@), MessageKind::Aside),
        text::views(r.navigation@) == (if ready {
            of_kind(text::views(messages@), MessageKind::Navigation)
        } else {
            Seq::empty()
        }),
        text::views(r.normal@) == of_kind(text::views(messages@), MessageKind::Normal),
        r.status_dirty == (of_kind(text::views(messages@), MessageKind::Navigation).len() > 0
            || of_kind(text::views(messages@), MessageKind::Normal).len() > 0),
{
    let breadcrumb = if messages.len() == 0 {
        None
    } else {
        let mut s = "process_messages: ".to_owned();
        push_dec(&mut s, messages.len() as u64);
        s.append(" pending");
        Some(s)
    };
    let ghost all = text::views(messages@);
    let mut asides: Vec<AppMessage> = Vec::new();
    let mut navigation: Vec<AppMessage> = Vec::new();
    let mut normal: Vec<AppMessage> = Vec::new();
    proof {
        assert(all.take(0) =~= Seq::empty());
        assert(text::views(asides@) =~= Seq::empty());
        assert(text::views(navigation@) =~= Seq::empty());
        assert(text::views(normal@) =~= Seq::empty());
    }
    for m in it: messages
        invariant
            it.seq() == messages@,
            all == text::views(messages@),
            text::views(asides@) == of_kind(all.take(it.index() as int), MessageKind::Aside),
            text::views(navigation@) == of_kind(
                all.take(it.index() as int),
                MessageKind::Navigation,
            ),
            text::views(normal@) == of_kind(all.take(it.index() as int), MessageKind::Normal),
    {
        let ghost i = it.index() as int;
        proof {
            assert(all.take(i + 1).drop_last() =~= all.take(i));
            assert(all.take(i + 1).last() == m@);
        }
        match message_kind(&m) {
            MessageKind::Aside => push_message(&mut asides, m),
            MessageKind::Navigation => push_message(&mut navigation, m),
            MessageKind::Normal => push_message(&mut normal, m),
        }
    }
    assert(all.take(all.len() as int) =~= all);
    let status_dirty = navigation.len() > 0 || normal.len() > 0;
    proof {
        assert(text::views(navigation@).len() == navigation@.len());
        assert(text::views(normal@).len() == normal@.len());
    }
    if !ready {
        navigation = Vec::new();
        assert(text::views(navigation@) =~= Seq::empty());
    }
    MessagePlan { breadcrumb, asides, navigation, normal, status_dirty }
}

fn push_message(list: &mut Vec<AppMessage>, m: AppMessage)
    ensures
        text::views(final(list)@) == text::views(old(list)@).push(m@),
{
    let ghost before = list@;
    list.push(m);
    assert(text::views(list@) =~= text::views(before).push(m@));
}

/// No message is lost and none is dealt with twice: the three groups together hold exactly
/// the messages that were pending.
pub proof fn messages_are_dealt_with_once(s: Seq<MessageView>)
    ensures
        of_kind(s, MessageKind::Aside).to_multiset().add(
            of_kind(s, MessageKind::Navigation).to_multiset(),
        ).add(of_kind(s, MessageKind::Normal).to_multiset()) == s.to_multiset(),
    decreases s.len(),
{
    broadcast use vstd::seq_lib::group_to_multiset_ensures;

    let a = of_kind(s, MessageKind::Aside).to_multiset();
    let n = of_kind(s, MessageKind::Navigation).to_multiset();
    let o = of_kind(s, MessageKind::Normal).to_multiset();
    if s.len() == 0 {
        assert(a.add(n).add(o) =~= s.to_multiset());
    } else {
        messages_are_dealt_with_once(s.drop_last());
        assert(s =~= s.drop_last().push(s.last()));
        assert(a.add(n).add(o) =~= s.to_multiset());
    }
}

/// What the tab waits for once all messages were dealt with.
#[derive(Debug, Clone, Copy, PartialEq, Eq, Structural)]
pub enum StateReceiver {
    /// What it waited for before.
    Kept,
    /// What the navigation at this place started to read.
    Navigation(usize),
    /// A refresh, which is started now.
    Refresh,
}

/// What the tab waits for, given for each navigation whether it started to read, and for each
/// normal message whether it asked for a refresh. One refresh follows if and only if some
/// normal message asked for one, and it takes the place of all else. Of the navigations the
/// last that started to read counts.
pub fn receiver_after(navigation: &Vec<bool>, normal: &Vec<bool>) -> (r: StateReceiver)
    ensures
        r is Refresh <==> exists|i: int| 0 <= i < normal@.len() && #[trigger] normal@[i],
        match r {
            StateReceiver::Navigation(i) => {
                &&& i < navigation@.len()
                &&& navigation@[i as int]
                &&& forall|j: int| i < j < navigation@.len() ==> !#[trigger] navigation@[j]
            },
            StateReceiver::Kept => forall|j: int|
                0 <= j < navigation@.len() ==> !#[trigger] navigation@[j],
            StateReceiver::Refresh => true,
        },
{
    let mut i: usize = 0;
    while i < normal.len()
        invariant
            i <= normal.len(),
            forall|k: int| 0 <= k < i ==> !#[trigger] normal@[k],
        decreases normal.len() - i,
    {
        if normal[i] {
            return StateReceiver::Refresh;
        }
        i = i + 1;
    }
    let mut n: usize = navigation.len();
    while n > 0
        invariant
            n <= navigation.len(),
            forall|k: int| 0 <= k < normal@.len() ==> !#[trigger] normal@[k],
            forall|j: int| n <= j < navigation@.len() ==> !#[trigger] navigation@[j],
        decreases n,
    {
        n = n - 1;
        if navigation[n] {
            return StateReceiver::Navigation(n);
        }
    }
    StateReceiver::Kept
}

// ---------------------------------------------------------------------------
// Pull and push dialogs
// ---------------------------------------------------------------------------

/// What a pull or push dialog is filled in with.
pub struct RemoteChoice {
    pub branch: String,
    pub remote: String,
    pub remotes: Vec<String>,
}

/// Fill in the pull or push dialog: the branch, the default remote (or `origin` where none
/// could be found) and the remotes to choose from; and make the dialog the active one.
pub fn show_remote_dialog(
    modals: &mut Modals,
    modal: ActiveModal,
    branch: String,
    default_remote: Option<String>,
    remotes: Vec<String>,
) -> (r: RemoteChoice)
    ensures
        r.branch == branch,
        r.remote@ == (match text::opt_view(default_remote) {
            Some(s) => s,
            None => "origin"@,
        }),
        r.remotes == remotes,
        *final(modals) == (Modals {
            active: Some(modal),
            dialogs: old(modals).dialogs.with(modal, true),
            ..*old(modals)
        }),
{
    modals.dialogs.set(modal, true);
    modals.active = Some(modal);
    let remote = match default_remote {
        Some(s) => s,
        None => "origin".to_owned(),
    };
    RemoteChoice { branch, remote, remotes }
}

// ---------------------------------------------------------------------------
// Having a commit message written
// ---------------------------------------------------------------------------

/// How many bytes of the staged changes are handed over.
pub const AI_DIFF_LIMIT: usize = 50000;

/// Whether a commit message can be asked for; if not, say why.
pub fn ai_may_start(toasts: &mut ToastManager, in_progress: bool, staged_files: usize) -> (r: bool)
    ensures
        r == (!in_progress && staged_files > 0),
        final(toasts)@ == (if in_progress {
            old(toasts)@.push(toast::info("AI generation already in progress"@))
        } else if staged_files == 0 {
            old(toasts)@.push(toast::info("No staged files — stage changes first"@))
        } else {
            old(toasts)@
        }),
{
    if in_progress {
        toasts.push("AI generation already in progress".to_owned(), ToastSeverity::Info);
        false
    } else if staged_files == 0 {
        toasts.push("No staged files — stage changes first".to_owned(), ToastSeverity::Info);
        false
    } else {
        true
    }
}

/// Go on once the staged changes were read: the text to hand over, or none where there is
/// nothing in it or it could not be read.
pub fn ai_diff_read(
    toasts: &mut ToastManager,
    diff: Result<String, String>,
    provider_name: &str,
) -> (r: Option<String>)
    ensures
        match diff {
            Ok(d) => {
                &&& (r is Some <==> text::trim(d@).len() > 0)
                &&& (r is Some ==> r == Some(d))
                &&& final(toasts)@ == old(toasts)@.push(
                    if text::trim(d@).len() == 0 {
                        toast::info("Staged diff is empty"@)
                    } else {
                        toast::info(
                            "Generating commit message via "@ + provider_name@ + "..."@,
                        )
                    },
                )
            },
            Err(e) => {
                &&& r is None
                &&& final(toasts)@ == old(toasts)@.push(
                    toast::error("Failed to read staged diff: "@ + e@),
                )
            },
        },
{
    match diff {
        Ok(d) => {
            let t = trimmed(d.as_str());
            if t.as_str().is_empty() {
                toasts.push("Staged diff is empty".to_owned(), ToastSeverity::Info);
                None
            } else {
                let mut s = "Generating commit message via ".to_owned();
                s.append(provider_name);
                s.append("...");
                toasts.push(s, ToastSeverity::Info);
                Some(d)
            }
        },
        Err(e) => {
            let mut s = "Failed to read staged diff: ".to_owned();
            s.append(e.as_str());
            toasts.push(s, ToastSeverity::Error);
            None
        },
    }
}

/// Messages of a kind keep their order.
pub proof fn messages_keep_their_order(s: Seq<MessageView>, k: MessageKind)
    ensures
        of_kind(s, k) == s.filter(|m: MessageView| kind(m) == k),
    decreases s.len(),
{
    reveal(Seq::filter);
    if s.len() > 0 {
        messages_keep_their_order(s.drop_last(), k);
    }
}

/// What leads into or out of a submodule is navigation, what opens a dialog or asks for a commit
/// message stands aside, and everything else is done in its turn.
pub proof fn only_submodules_are_navigated(m: MessageView)
    ensures
        kind(m) == MessageKind::Navigation <==> m is EnterSubmodule || m is ExitSubmodule || m
            is ExitToDepth,
        kind(m) == MessageKind::Aside <==> m is ShowPullDialog || m is ShowPushDialog || m
            is AiGenerateCommitMessage,
{
}

} // verus!
