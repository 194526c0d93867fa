//! What follows from what background work has sent.

use crate::ai::AiResponse;
use crate::app::remote_ops::{self, elapsed_secs, status_update, ReceiverPoll, StatusUpdate};
use crate::app::toast::{self, ToastManager, ToastSeverity, ToastView};
use vstd::prelude::*;
use vstd::string::*;

verus! {

/// How long writing a commit message may take, in seconds.
pub const AI_TIMEOUT_SECS: u64 = 30;

/// What is said when the writing of a commit message comes to an end; nothing while it goes
/// on.
pub open spec fn ai_toast(
    reply: ReceiverPoll<Result<AiResponse, String>>,
    started: nat,
    now: nat,
) -> Option<ToastView> {
    match reply {
        ReceiverPoll::Ready(Ok(_)) => Some(toast::success("Commit message generated"@)),
        ReceiverPoll::Ready(Err(e)) => Some(toast::error("AI generation failed: "@ + e@)),
        ReceiverPoll::Disconnected => Some(
            toast::error("AI generation failed: thread terminated"@),
        ),
        ReceiverPoll::Pending => if remote_ops::seconds_between(started, now) >= AI_TIMEOUT_SECS {
            Some(toast::error("AI generation timed out"@))
        } else {
            None
        },
    }
}

/// Deal with what the writing of a commit message has sent. `started` is when it was begun,
/// in milliseconds; it is forgotten once it has come to an end. Returns the message.
pub fn poll_ai_commit(
    started: &mut Option<u64>,
    reply: ReceiverPoll<Result<AiResponse, String>>,
    toasts: &mut ToastManager,
    now: u64,
) -> (r: Option<AiResponse>)
    ensures
        match *old(started) {
            None => {
                &&& *final(started) is None
                &&& final(toasts)@ == old(toasts)@
                &&& r is None
            },
            Some(t) => {
                let said = ai_toast(reply, t as nat, now as nat);
                &&& *final(started) == (if said is Some {
                    None
                } else {
                    Some(t)
                })
                &&& final(toasts)@ == (match said {
                    Some(x) => old(toasts)@.push(x),
                    None => old(toasts)@,
                })
                &&& r == (match reply {
                    ReceiverPoll::Ready(Ok(response)) => Some(response),
                    _ => None,
                })
            },
        },
{
    let begun: u64 = match *started {
        Some(t) => t,
        None => {
            return None;
        },
    };
    match reply {
        ReceiverPoll::Ready(Ok(response)) => {
            *started = None;
            toasts.push("Commit message generated".to_owned(), ToastSeverity::Success);
            Some(response)
        },
        ReceiverPoll::Ready(Err(e)) => {
            *started = None;
            let mut s = "AI generation failed: ".to_owned();
            s.append(e.as_str());
            toasts.push(s, ToastSeverity::Error);
            None
        },
        ReceiverPoll::Disconnected => {
            *started = None;
            toasts.push(
                "AI generation failed: thread terminated".to_owned(),
                ToastSeverity::Error,
            );
            None
        },
        ReceiverPoll::Pending => {
            if elapsed_secs(begun, now) >= AI_TIMEOUT_SECS {
                *started = None;
                toasts.push("AI generation timed out".to_owned(), ToastSeverity::Error);
            }
            None
        },
    }
}

/// What becomes of a file watcher that was being set up.
#[derive(Debug, Clone, Copy, PartialEq, Eq, Structural)]
pub enum WatcherSetup {
    /// It is not ready yet.
    Wait,
    /// It is ready: use it.
    Use,
    /// There is none.
    Drop,
}

/// Deal with a file watcher that was being set up.
pub fn poll_watcher_init(reply: ReceiverPoll<Result<(), String>>, toasts: &mut ToastManager) -> (r:
    WatcherSetup)
    ensures
        match reply {
            ReceiverPoll::Ready(Ok(_)) => r == WatcherSetup::Use && final(toasts)@
                == old(toasts)@,
            ReceiverPoll::Ready(Err(e)) => r == WatcherSetup::Drop && final(toasts)@ == old(
                toasts,
            )@.push(toast::error("Filesystem watcher failed: "@ + e@)),
            ReceiverPoll::Disconnected => r == WatcherSetup::Drop && final(toasts)@ == old(
                toasts,
            )@.push(
                toast::error("Filesystem watcher failed: background thread terminated"@),
            ),
            ReceiverPoll::Pending => r == WatcherSetup::Wait && final(toasts)@ == old(toasts)@,
        },
{
    match reply {
        ReceiverPoll::Ready(Ok(_)) => WatcherSetup::Use,
        ReceiverPoll::Ready(Err(e)) => {
            let mut s = "Filesystem watcher failed: ".to_owned();
            s.append(e.as_str());
            toasts.push(s, ToastSeverity::Error);
            WatcherSetup::Drop
        },
        ReceiverPoll::Disconnected => {
            toasts.push(
                "Filesystem watcher failed: background thread terminated".to_owned(),
                ToastSeverity::Error,
            );
            WatcherSetup::Drop
        },
        ReceiverPoll::Pending => WatcherSetup::Wait,
    }
}

/// What changed on disk.
#[derive(Debug, Clone, Copy, PartialEq, Eq, Structural)]
pub enum FsChangeKind {
    WorkingTree,
    GitMetadata,
    WorktreeStructure,
}

/// The change that is dealt with, of all that were seen, each with its priority: the first
/// of the highest priority.
pub open spec fn most_urgent(changes: Seq<(FsChangeKind, u8)>) -> Option<(FsChangeKind, u8)>
    decreases changes.len(),
{
    if changes.len() == 0 {
        None
    } else {
        match most_urgent(changes.drop_last()) {
            None => Some(changes.last()),
            Some(prev) => if changes.last().1 > prev.1 {
                Some(changes.last())
            } else {
                Some(prev)
            },
        }
    }
}

/// What is done about a change.
#[derive(Debug, Clone, Copy, PartialEq, Eq, Structural)]
pub struct ChangeResponse {
    pub status: StatusUpdate,
    /// Check the worktrees again.
    pub recheck_worktrees: bool,
    /// Open the repository and its worktrees anew, so that nothing cached is read.
    pub reopen: bool,
    /// Read the whole repository again.
    pub refresh_repo: bool,
}

/// Drain the changes that a watcher has seen and say what is done about them.
pub fn poll_watcher(changes: &Vec<(FsChangeKind, u8)>, tab: usize, active_tab: usize) -> (r: Option<
    ChangeResponse,
>)
    ensures
        match most_urgent(changes@) {
            None => r is None,
            Some((kind, _)) => r == Some(
                ChangeResponse {
                    status: if tab == active_tab {
                        StatusUpdate::MarkDirty
                    } else {
                        StatusUpdate::RefreshTab
                    },
                    recheck_worktrees: kind == FsChangeKind::WorkingTree,
                    reopen: kind != FsChangeKind::WorkingTree,
                    refresh_repo: kind != FsChangeKind::WorkingTree,
                },
            ),
        },
{
    let mut max: Option<(FsChangeKind, u8)> = None;
    let mut i: usize = 0;
    assert(changes@.take(0) =~= Seq::empty());
    while i < changes.len()
        invariant
            i <= changes.len(),
            max == most_urgent(changes@.take(i as int)),
        decreases changes.len() - i,
    {
        proof {
            assert(changes@.take(i + 1).drop_last() =~= changes@.take(i as int));
            assert(changes@.take(i + 1).last() == changes@[i as int]);
        }
        let c = changes[i];
        max = Some(
            match max {
                Some(prev) => if c.1 > prev.1 {
                    c
                } else {
                    prev
                },
                None => c,
            },
        );
        i = i + 1;
    }
    assert(changes@.take(changes@.len() as int) =~= changes@);
    match max {
        None => None,
        Some((kind, _)) => {
            let files_only = kind == FsChangeKind::WorkingTree;
            Some(
                ChangeResponse {
                    status: status_update(tab, active_tab),
                    recheck_worktrees: files_only,
                    reopen: !files_only,
                    refresh_repo: !files_only,
                },
            )
        },
    }
}

/// The change that is dealt with was seen, and none that was seen is more urgent.
pub proof fn most_urgent_change_wins(changes: Seq<(FsChangeKind, u8)>)
    requires
        changes.len() > 0,
    ensures
        match most_urgent(changes) {
            Some(c) => changes.contains(c) && forall|i: int|
                0 <= i < changes.len() ==> (#[trigger] changes[i]).1 <= c.1,
            None => false,
        },
    decreases changes.len(),
{
    let rest = changes.drop_last();
    if rest.len() > 0 {
        most_urgent_change_wins(rest);
        let prev = most_urgent(rest)->0;
        let top = most_urgent(changes)->0;
        let k = choose|k: int| 0 <= k < rest.len() && rest[k] == prev;
        assert(changes[k] == prev);
        assert forall|i: int| 0 <= i < changes.len() implies (#[trigger] changes[i]).1
            <= top.1 by {
            if i < rest.len() {
                assert(rest[i] == changes[i]);
            }
        }
    }
    assert(changes[changes.len() - 1] == changes.last());
}

/// How many checks are under way once one has come in.
pub fn check_came_in(in_flight: usize) -> (r: usize)
    ensures
        r == (if in_flight > 0 {
            (in_flight - 1) as usize
        } else {
            0
        }),
{
    in_flight.saturating_sub(1)
}

/// The directory that background work on a repository starts from: its working directory, or
/// where it has none, the repository itself.
pub fn context_path(workdir: Option<String>, git_dir: String) -> (r: String)
    ensures
        r@ == (match workdir {
            Some(w) => w@,
            None => git_dir@,
        }),
{
    match workdir {
        Some(w) => w,
        None => git_dir,
    }
}

/// The directory that staging works in: that of the worktree that is selected, or else that
/// of the repository.
pub fn staging_context_path(
    selected: Option<(Option<String>, String)>,
    repo_context: String,
) -> (r: String)
    ensures
        r@ == (match selected {
            Some((Some(w), _)) => w@,
            Some((None, g)) => g@,
            None => repo_context@,
        }),
{
    match selected {
        Some((workdir, git_dir)) => context_path(workdir, git_dir),
        None => repo_context,
    }
}

/// A commit message that is being written is waited for thirty seconds, and how it ended is told.
pub proof fn a_message_is_waited_for_half_a_minute(
    reply: ReceiverPoll<Result<AiResponse, String>>,
    started: nat,
    now: nat,
)
    ensures
        reply is Pending && now >= started ==> (ai_toast(reply, started, now) is Some <==> now
            >= started + 30_000),
        !(reply is Pending) ==> ai_toast(reply, started, now) is Some,
        reply matches ReceiverPoll::Ready(Ok(_)) ==> ai_toast(reply, started, now)->0.severity
            == toast::ToastSeverity::Success,
        reply matches ReceiverPoll::Ready(Err(e)) ==> ai_toast(reply, started, now) == Some(
            toast::error("AI generation failed: "@ + e@),
        ),
{
}

} // verus!
