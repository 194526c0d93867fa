//! What follows from a choice in the sidebar.

use crate::app::messages::{AppMessage, MessageView};
use crate::app::modal_state::{ActiveModal, Modals};
use crate::git::{BranchTip, TagInfo};
use crate::oid::Oid;
use crate::text::{self, push_dec, same};
use vstd::prelude::*;
use vstd::string::*;

verus! {

#[derive(Debug)]
pub enum SidebarAction {
    Checkout(String),
    /// The remote and the branch.
    CheckoutRemote(String, String),
    Delete(String),
    ApplyStash(usize),
    DropStash(usize),
    DeleteTag(String),
    SwitchWorktree(String),
    JumpToRef(String),
}

/// What a confirm dialog asks.
#[derive(Debug)]
pub struct Question {
    pub title: String,
    pub body: String,
}

/// What follows from a choice.
#[derive(Debug)]
pub enum SidebarOutcome {
    Nothing,
    Message(AppMessage),
    /// The user is asked first.
    Ask(Question),
    SwitchWorktree(String),
}

/// What follows from a choice, by its views.
pub enum SidebarView {
    Nothing,
    Message(MessageView),
    /// The title, the question, and what is done once it is confirmed.
    Ask(Seq<char>, Seq<char>, MessageView),
    SwitchWorktree(Seq<char>),
}

/// The commit that the first branch called `name` points to.
pub open spec fn branch_target(tips: Seq<BranchTip>, name: Seq<char>) -> Option<Oid>
    decreases tips.len(),
{
    if tips.len() == 0 {
        None
    } else if tips[0].name@ == name {
        Some(tips[0].oid)
    } else {
        branch_target(tips.skip(1), name)
    }
}

/// The commit that the first tag called `name` is on.
pub open spec fn tag_target(tags: Seq<TagInfo>, name: Seq<char>) -> Option<Oid>
    decreases tags.len(),
{
    if tags.len() == 0 {
        None
    } else if tags[0].name@ == name {
        Some(tags[0].oid)
    } else {
        tag_target(tags.skip(1), name)
    }
}

/// The commit that a name stands for: that of the branch, or else of the tag.
pub open spec fn ref_target(
    tips: Seq<BranchTip>,
    tags: Seq<TagInfo>,
    name: Seq<char>,
) -> Option<Oid> {
    match branch_target(tips, name) {
        Some(id) => Some(id),
        None => tag_target(tags, name),
    }
}

/// What follows from a choice in the sidebar.
pub open spec fn sidebar_view(
    action: SidebarAction,
    tips: Seq<BranchTip>,
    tags: Seq<TagInfo>,
) -> SidebarView {
    match action {
        SidebarAction::Checkout(name) => SidebarView::Message(MessageView::CheckoutBranch(name@)),
        SidebarAction::CheckoutRemote(remote, branch) => SidebarView::Message(
            MessageView::CheckoutRemoteBranch(remote@, branch@),
        ),
        SidebarAction::Delete(name) => SidebarView::Ask(
            "Delete Branch"@,
            "Delete local branch '"@ + name@ + "'?"@,
            MessageView::DeleteBranch(name@),
        ),
        SidebarAction::ApplyStash(index) => SidebarView::Message(MessageView::StashApply(index)),
        SidebarAction::DropStash(index) => SidebarView::Ask(
            "Drop Stash"@,
            "Drop stash@{"@ + text::dec(index as nat) + "}? This cannot be undone."@,
            MessageView::StashDrop(index),
        ),
        SidebarAction::DeleteTag(name) => SidebarView::Ask(
            "Delete Tag"@,
            "Delete tag '"@ + name@ + "'?"@,
            MessageView::DeleteTag(name@),
        ),
        SidebarAction::SwitchWorktree(name) => SidebarView::SwitchWorktree(name@),
        SidebarAction::JumpToRef(name) => match ref_target(tips, tags, name@) {
            Some(id) => SidebarView::Message(MessageView::JumpToCommit(id)),
            None => SidebarView::Nothing,
        },
    }
}

fn find_ref(tips: &Vec<BranchTip>, tags: &Vec<TagInfo>, name: &str) -> (r: Option<Oid>)
    ensures
        r == ref_target(tips@, tags@, name@),
{
    let mut i: usize = 0;
    assert(tips@.skip(0) =~= tips@);
    while i < tips.len()
        invariant
            i <= tips.len(),
            branch_target(tips@, name@) == branch_target(tips@.skip(i as int), name@),
        decreases tips.len() - i,
    {
        if same(tips[i].name.as_str(), name) {
            return Some(tips[i].oid);
        }
        assert(tips@.skip(i as int).skip(1) =~= tips@.skip(i + 1));
        i = i + 1;
    }
    let mut i: usize = 0;
    assert(tags@.skip(0) =~= tags@);
    while i < tags.len()
        invariant
            i <= tags.len(),
            branch_target(tips@, name@) is None,
            tag_target(tags@, name@) == tag_target(tags@.skip(i as int), name@),
        decreases tags.len() - i,
    {
        if same(tags[i].name.as_str(), name) {
            return Some(tags[i].oid);
        }
        assert(tags@.skip(i as int).skip(1) =~= tags@.skip(i + 1));
        i = i + 1;
    }
    None
}

/// Handle a sidebar action. What cannot be undone is asked about first: it waits in
/// `pending_confirm`, and the confirm dialog interrupts whatever is open.
pub fn handle_sidebar_action(
    action: SidebarAction,
    tips: &Vec<BranchTip>,
    tags: &Vec<TagInfo>,
    modals: &mut Modals,
    pending_confirm: &mut Option<AppMessage>,
) -> (r: SidebarOutcome)
    ensures
        match sidebar_view(action, tips@, tags@) {
            SidebarView::Nothing => r is Nothing,
            SidebarView::Message(m) => match r {
                SidebarOutcome::Message(x) => x@ == m,
                _ => false,
            },
            SidebarView::Ask(title, body, m) => {
                &&& match r {
                    SidebarOutcome::Ask(q) => q.title@ == title && q.body@ == body,
                    _ => false,
                }
                &&& match *final(pending_confirm) {
                    Some(x) => x@ == m,
                    None => false,
                }
            },
            SidebarView::SwitchWorktree(name) => match r {
                SidebarOutcome::SwitchWorktree(x) => x@ == name,
                _ => false,
            },
        },
        if sidebar_view(action, tips@, tags@) is Ask {
            *final(modals) == old(modals).interrupted_by(ActiveModal::Confirm)
        } else {
            *final(modals) == *old(modals) && *final(pending_confirm) == *old(pending_confirm)
        },
{
    match action {
        SidebarAction::Checkout(name) => SidebarOutcome::Message(AppMessage::CheckoutBranch(name)),
        SidebarAction::CheckoutRemote(remote, branch) => SidebarOutcome::Message(
            AppMessage::CheckoutRemoteBranch(remote, branch),
        ),
        SidebarAction::Delete(name) => {
            let mut body = "Delete local branch '".to_owned();
            body.append(name.as_str());
            body.append("'?");
            *pending_confirm = Some(AppMessage::DeleteBranch(name));
            modals.open_interrupt_modal(ActiveModal::Confirm);
            SidebarOutcome::Ask(Question { title: "Delete Branch".to_owned(), body })
        },
        SidebarAction::ApplyStash(index) => SidebarOutcome::Message(
            AppMessage::StashApply(index),
        ),
        SidebarAction::DropStash(index) => {
            let mut body = "Drop stash@{".to_owned();
            push_dec(&mut body, index as u64);
            body.append("}? This cannot be undone.");
            *pending_confirm = Some(AppMessage::StashDrop(index));
            modals.open_interrupt_modal(ActiveModal::Confirm);
            SidebarOutcome::Ask(Question { title: "Drop Stash".to_owned(), body })
        },
        SidebarAction::DeleteTag(name) => {
            let mut body = "Delete tag '".to_owned();
            body.append(name.as_str());
            body.append("'?");
            *pending_confirm = Some(AppMessage::DeleteTag(name));
            modals.open_interrupt_modal(ActiveModal::Confirm);
            SidebarOutcome::Ask(Question { title: "Delete Tag".to_owned(), body })
        },
        SidebarAction::SwitchWorktree(name) => SidebarOutcome::SwitchWorktree(name),
        SidebarAction::JumpToRef(name) => match find_ref(tips, tags, name.as_str()) {
            Some(id) => SidebarOutcome::Message(AppMessage::JumpToCommit(id)),
            None => SidebarOutcome::Nothing,
        },
    }
}

/// Nothing is deleted or dropped without asking.
pub proof fn nothing_is_lost_without_asking(
    action: SidebarAction,
    tips: Seq<BranchTip>,
    tags: Seq<TagInfo>,
    m: MessageView,
)
    requires
        sidebar_view(action, tips, tags) == SidebarView::Message(m),
    ensures
        !(m is DeleteBranch) && !(m is DeleteTag) && !(m is StashDrop),
{
}

proof fn lemma_branch_target(tips: Seq<BranchTip>, name: Seq<char>, i: int)
    requires
        0 <= i <= tips.len(),
        forall|j: int| 0 <= j < i ==> (#[trigger] tips[j]).name@ != name,
        i < tips.len() ==> tips[i].name@ == name,
    ensures
        branch_target(tips, name) == (if i < tips.len() {
            Some(tips[i].oid)
        } else {
            None
        }),
    decreases i,
{
    if i > 0 {
        assert(tips[0].name@ != name);
        let rest = tips.skip(1);
        assert forall|j: int| 0 <= j < i - 1 implies (#[trigger] rest[j]).name@ != name by {
            assert(rest[j] == tips[j + 1]);
        }
        lemma_branch_target(rest, name, i - 1);
    }
}

proof fn lemma_tag_target(tags: Seq<TagInfo>, name: Seq<char>, i: int)
    requires
        0 <= i <= tags.len(),
        forall|j: int| 0 <= j < i ==> (#[trigger] tags[j]).name@ != name,
        i < tags.len() ==> tags[i].name@ == name,
    ensures
        tag_target(tags, name) == (if i < tags.len() {
            Some(tags[i].oid)
        } else {
            None
        }),
    decreases i,
{
    if i > 0 {
        assert(tags[0].name@ != name);
        let rest = tags.skip(1);
        assert forall|j: int| 0 <= j < i - 1 implies (#[trigger] rest[j]).name@ != name by {
            assert(rest[j] == tags[j + 1]);
        }
        lemma_tag_target(rest, name, i - 1);
    }
}

/// A jump leads to the commit of the first branch of that name, or where no branch has it, of the
/// first tag; where neither has it, nowhere.
pub proof fn a_jump_leads_to_the_branch_or_tag(
    name: String,
    tips: Seq<BranchTip>,
    tags: Seq<TagInfo>,
    b: int,
    t: int,
)
    requires
        0 <= b <= tips.len(),
        0 <= t <= tags.len(),
        forall|j: int| 0 <= j < b ==> (#[trigger] tips[j]).name@ != name@,
        b < tips.len() ==> tips[b].name@ == name@,
        forall|j: int| 0 <= j < t ==> (#[trigger] tags[j]).name@ != name@,
        t < tags.len() ==> tags[t].name@ == name@,
    ensures
        sidebar_view(SidebarAction::JumpToRef(name), tips, tags) == (if b < tips.len() {
            SidebarView::Message(MessageView::JumpToCommit(tips[b].oid))
        } else if t < tags.len() {
            SidebarView::Message(MessageView::JumpToCommit(tags[t].oid))
        } else {
            SidebarView::Nothing
        }),
{
    lemma_branch_target(tips, name@, b);
    lemma_tag_target(tags, name@, t);
}

/// What is confirmed is what was pointed at: deleting a branch or a tag, or dropping a stash, is
/// asked about by its name, and checking out and applying are done at once.
pub proof fn what_was_pointed_at_is_done(
    name: String,
    remote: String,
    index: usize,
    tips: Seq<BranchTip>,
    tags: Seq<TagInfo>,
)
    ensures
        sidebar_view(SidebarAction::Delete(name), tips, tags) is Ask && sidebar_view(
            SidebarAction::Delete(name),
            tips,
            tags,
        )->Ask_2 == MessageView::DeleteBranch(name@),
        sidebar_view(SidebarAction::DeleteTag(name), tips, tags) is Ask && sidebar_view(
            SidebarAction::DeleteTag(name),
            tips,
            tags,
        )->Ask_2 == MessageView::DeleteTag(name@),
        sidebar_view(SidebarAction::DropStash(index), tips, tags) is Ask && sidebar_view(
            SidebarAction::DropStash(index),
            tips,
            tags,
        )->Ask_2 == MessageView::StashDrop(index),
        sidebar_view(SidebarAction::Checkout(name), tips, tags) == SidebarView::Message(
            MessageView::CheckoutBranch(name@),
        ),
        sidebar_view(SidebarAction::CheckoutRemote(remote, name), tips, tags)
            == SidebarView::Message(MessageView::CheckoutRemoteBranch(remote@, name@)),
        sidebar_view(SidebarAction::ApplyStash(index), tips, tags) == SidebarView::Message(
            MessageView::StashApply(index),
        ),
        sidebar_view(SidebarAction::SwitchWorktree(name), tips, tags)
            == SidebarView::SwitchWorktree(name@),
{
}

} // verus!
