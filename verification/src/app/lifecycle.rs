//! Cloning repositories and opening them in tabs.

use crate::app::remote_ops::ReceiverPoll;
use crate::app::tabs::take_tab_id;
use crate::app::toast::{self, ToastManager, ToastSeverity, ToastView};
use crate::text::{self, trimmed};
use vstd::prelude::*;
use vstd::string::*;

verus! {

/// The arguments of git for a clone.
pub open spec fn clone_args(url: Seq<char>, dest: Seq<char>, bare: bool) -> Seq<Seq<char>> {
    if bare {
        seq!["clone"@, "--bare"@, url, dest]
    } else {
        seq!["clone"@, url, dest]
    }
}

/// What is said when a clone is asked for.
pub open spec fn clone_toast(in_progress: bool, dest: Seq<char>, bare: bool) -> ToastView {
    if in_progress {
        toast::info("A clone is already in progress"@)
    } else {
        toast::info(
            (if bare {
                "Bare cloning"@
            } else {
                "Cloning"@
            }) + " into "@ + dest + "..."@,
        )
    }
}

/// Start a clone: the arguments that git is run with, none while another clone is in
/// progress.
pub fn start_clone(
    in_progress: bool,
    url: String,
    dest: String,
    bare: bool,
    toasts: &mut ToastManager,
) -> (r: Option<Vec<String>>)
    ensures
        match r {
            Some(args) => !in_progress && text::views(args@) == clone_args(url@, dest@, bare),
            None => in_progress,
        },
        final(toasts)@ == old(toasts)@.push(clone_toast(in_progress, dest@, bare)),
{
    if in_progress {
        toasts.push("A clone is already in progress".to_owned(), ToastSeverity::Info);
        return None;
    }
    let mut s = if bare {
        "Bare cloning".to_owned()
    } else {
        "Cloning".to_owned()
    };
    s.append(" into ");
    s.append(dest.as_str());
    s.append("...");
    toasts.push(s, ToastSeverity::Info);
    let mut args: Vec<String> = Vec::new();
    args.push("clone".to_owned());
    if bare {
        args.push("--bare".to_owned());
    }
    args.push(url);
    args.push(dest);
    assert(text::views(args@) =~= clone_args(url@, dest@, bare));
    Some(args)
}

/// Deal with what a clone has sent. Returns the repository that is to be opened.
pub fn poll_clone_receiver(
    cloning: &mut bool,
    reply: ReceiverPoll<Result<String, String>>,
    toasts: &mut ToastManager,
) -> (r: Option<String>)
    ensures
        if !*old(cloning) {
            &&& !*final(cloning)
            &&& final(toasts)@ == old(toasts)@
            &&& r is None
        } else {
            match reply {
                ReceiverPoll::Ready(Ok(dest)) => {
                    &&& !*final(cloning)
                    &&& final(toasts)@ == old(toasts)@.push(
                        toast::success("Cloned into "@ + dest@),
                    )
                    &&& r == Some(dest)
                },
                ReceiverPoll::Ready(Err(e)) => {
                    &&& !*final(cloning)
                    &&& final(toasts)@ == old(toasts)@.push(
                        toast::error("Clone failed: "@ + text::trim(e@)),
                    )
                    &&& r is None
                },
                ReceiverPoll::Disconnected => {
                    &&& !*final(cloning)
                    &&& final(toasts)@ == old(toasts)@.push(
                        toast::error("Clone failed: background thread terminated"@),
                    )
                    &&& r is None
                },
                ReceiverPoll::Pending => {
                    &&& *final(cloning)
                    &&& final(toasts)@ == old(toasts)@
                    &&& r is None
                },
            }
        },
{
    if !*cloning {
        return None;
    }
    match reply {
        ReceiverPoll::Ready(Ok(dest)) => {
            *cloning = false;
            let mut s = "Cloned into ".to_owned();
            s.append(dest.as_str());
            toasts.push(s, ToastSeverity::Success);
            Some(dest)
        },
        ReceiverPoll::Ready(Err(e)) => {
            *cloning = false;
            let mut s = "Clone failed: ".to_owned();
            s.append(trimmed(e.as_str()).as_str());
            toasts.push(s, ToastSeverity::Error);
            None
        },
        ReceiverPoll::Disconnected => {
            *cloning = false;
            toasts.push(
                "Clone failed: background thread terminated".to_owned(),
                ToastSeverity::Error,
            );
            None
        },
        ReceiverPoll::Pending => None,
    }
}

/// Whether a repository can be opened now; only one is opened at a time.
pub fn open_repo_tab(opening: &mut bool, toasts: &mut ToastManager) -> (r: bool)
    ensures
        r == !*old(opening),
        *final(opening),
        final(toasts)@ == (if *old(opening) {
            old(toasts)@.push(toast::info("A repo is already being opened"@))
        } else {
            old(toasts)@
        }),
{
    if *opening {
        toasts.push("A repo is already being opened".to_owned(), ToastSeverity::Info);
        false
    } else {
        *opening = true;
        true
    }
}

/// Deal with a repository that was being opened. Returns the name that its tab gets.
pub fn poll_open_receiver(
    opening: &mut bool,
    reply: ReceiverPoll<Result<String, String>>,
    toasts: &mut ToastManager,
) -> (r: Option<String>)
    ensures
        if !*old(opening) {
            &&& !*final(opening)
            &&& final(toasts)@ == old(toasts)@
            &&& r is None
        } else {
            match reply {
                ReceiverPoll::Ready(Ok(name)) => {
                    &&& !*final(opening)
                    &&& final(toasts)@ == old(toasts)@
                    &&& r == Some(name)
                },
                ReceiverPoll::Ready(Err(e)) => {
                    &&& !*final(opening)
                    &&& final(toasts)@ == old(toasts)@.push(
                        toast::error("Failed to open: "@ + e@),
                    )
                    &&& r is None
                },
                ReceiverPoll::Disconnected => {
                    &&& !*final(opening)
                    &&& final(toasts)@ == old(toasts)@.push(
                        toast::error("Failed to open: background thread terminated"@),
                    )
                    &&& r is None
                },
                ReceiverPoll::Pending => {
                    &&& *final(opening)
                    &&& final(toasts)@ == old(toasts)@
                    &&& r is None
                },
            }
        },
{
    if !*opening {
        return None;
    }
    match reply {
        ReceiverPoll::Ready(Ok(name)) => {
            *opening = false;
            Some(name)
        },
        ReceiverPoll::Ready(Err(e)) => {
            *opening = false;
            let mut s = "Failed to open: ".to_owned();
            s.append(e.as_str());
            toasts.push(s, ToastSeverity::Error);
            None
        },
        ReceiverPoll::Disconnected => {
            *opening = false;
            toasts.push(
                "Failed to open: background thread terminated".to_owned(),
                ToastSeverity::Error,
            );
            None
        },
        ReceiverPoll::Pending => None,
    }
}

/// A tab: its id and its name.
#[derive(Debug)]
pub struct Tab {
    pub id: u64,
    pub name: String,
}

/// The open tabs.
#[derive(Debug)]
pub struct Tabs {
    pub list: Vec<Tab>,
    pub active: usize,
    pub next_id: u64,
}

impl Tabs {
    /// Whether every tab has an id of its own, below the one that comes next.
    pub open spec fn wf(self) -> bool {
        &&& forall|i: int|
            0 <= i < self.list@.len() ==> (#[trigger] self.list@[i]).id < self.next_id
        &&& forall|i: int, j: int|
            0 <= i < j < self.list@.len() ==> (#[trigger] self.list@[i]).id != (
            #[trigger] self.list@[j]).id
        &&& self.list@.len() > 0 ==> self.active < self.list@.len()
    }
}

/// Finish creating a tab after its repository was opened: it comes last and is the active one.
/// Its id is its own until the ids run out.
pub fn finish_open_repo_tab(tabs: &mut Tabs, name: String, toasts: &mut ToastManager)
    ensures
        final(tabs).list@ == old(tabs).list@.push(Tab { id: old(tabs).next_id, name }),
        final(tabs).active == old(tabs).list@.len(),
        final(tabs).next_id == (if old(tabs).next_id < u64::MAX {
            (old(tabs).next_id + 1) as u64
        } else {
            u64::MAX
        }),
        old(tabs).wf() && old(tabs).next_id < u64::MAX ==> final(tabs).wf(),
        final(toasts)@ == old(toasts)@.push(toast::success("Opened "@ + name@)),
{
    let mut s = "Opened ".to_owned();
    s.append(name.as_str());
    let id: u64 = take_tab_id(&mut tabs.next_id);
    let at: usize = tabs.list.len();
    tabs.list.push(Tab { id, name });
    tabs.active = at;
    toasts.push(s, ToastSeverity::Success);
}

/// The repositories that are opened at the start: those that were asked for, or else the one
/// in the current directory.
pub fn repos_to_open(asked_for: Vec<String>) -> (r: Vec<String>)
    ensures
        text::views(r@) == (if asked_for@.len() == 0 {
            seq!["."@]
        } else {
            text::views(asked_for@)
        }),
{
    if asked_for.len() == 0 {
        let mut r: Vec<String> = Vec::new();
        r.push(".".to_owned());
        assert(text::views(r@) =~= seq!["."@]);
        r
    } else {
        asked_for
    }
}

/// The names of the repositories that could be opened.
pub open spec fn opened_names(opened: Seq<Result<String, String>>) -> Seq<String>
    decreases opened.len(),
{
    if opened.len() == 0 {
        Seq::empty()
    } else {
        match opened.last() {
            Ok(name) => opened_names(opened.drop_last()).push(name),
            Err(_) => opened_names(opened.drop_last()),
        }
    }
}

/// Whether tabs are the first ones, for the given names.
pub open spec fn first_tabs(tabs: Tabs, names: Seq<String>) -> bool {
    &&& tabs.list@.len() == names.len()
    &&& forall|i: int|
        0 <= i < names.len() ==> #[trigger] tabs.list@[i] == (Tab {
            id: (i + 1) as u64,
            name: names[i],
        })
    &&& tabs.active == 0
    &&& tabs.next_id == names.len() + 1
}

/// The tabs at the start: one for each repository that could be opened, numbered from one.
/// Where none could be, there is nothing to start with.
pub fn startup_tabs(opened: Vec<Result<String, String>>) -> (r: Result<Tabs, String>)
    requires
        opened.len() < u64::MAX,
    ensures
        match r {
            Ok(tabs) => opened_names(opened@).len() > 0 && tabs.wf() && first_tabs(
                tabs,
                opened_names(opened@),
            ),
            Err(e) => opened_names(opened@).len() == 0 && e@
                == "No repositories could be opened"@,
        },
{
    let ghost all = opened@;
    let mut tabs = Tabs { list: Vec::new(), active: 0, next_id: 1 };
    assert(all.take(0) =~= Seq::empty());
    for o in it: opened
        invariant
            it.seq() == all,
            all.len() < u64::MAX,
            first_tabs(tabs, opened_names(all.take(it.index() as int))),
            opened_names(all.take(it.index() as int)).len() <= it.index(),
    {
        let ghost i = it.index() as int;
        proof {
            assert(all.take(i + 1).drop_last() =~= all.take(i));
            assert(all.take(i + 1).last() == o);
        }
        if let Ok(name) = o {
            let id: u64 = take_tab_id(&mut tabs.next_id);
            tabs.list.push(Tab { id, name });
        }
    }
    assert(all.take(all.len() as int) =~= all);
    if tabs.list.len() == 0 {
        Err("No repositories could be opened".to_owned())
    } else {
        Ok(tabs)
    }
}

/// What was chosen in the dialog that opens repositories.
#[derive(Debug)]
pub enum RepoDialogAction {
    Open(String),
    Cancel,
}

/// The repository that is to be opened, and remembered as the latest one.
pub fn poll_repo_dialog(action: Option<RepoDialogAction>) -> (r: Option<String>)
    ensures
        r == (match action {
            Some(RepoDialogAction::Open(path)) => Some(path),
            _ => None,
        }),
{
    match action {
        Some(RepoDialogAction::Open(path)) => Some(path),
        _ => None,
    }
}

/// What was chosen in the dialog that clones repositories.
#[derive(Debug)]
pub enum CloneDialogAction {
    /// The URL, where to clone to, and whether without a working directory.
    Clone(String, String, bool),
    Cancel,
}

/// Start the clone that was chosen, if any was.
pub fn poll_clone_dialog(
    action: Option<CloneDialogAction>,
    in_progress: bool,
    toasts: &mut ToastManager,
) -> (r: Option<Vec<String>>)
    ensures
        match action {
            Some(CloneDialogAction::Clone(url, dest, bare)) => {
                &&& match r {
                    Some(args) => !in_progress && text::views(args@) == clone_args(
                        url@,
                        dest@,
                        bare,
                    ),
                    None => in_progress,
                }
                &&& final(toasts)@ == old(toasts)@.push(clone_toast(in_progress, dest@, bare))
            },
            _ => r is None && final(toasts)@ == old(toasts)@,
        },
{
    match action {
        Some(CloneDialogAction::Clone(url, dest, bare)) => start_clone(
            in_progress,
            url,
            dest,
            bare,
            toasts,
        ),
        _ => None,
    }
}

/// What is dropped on the window: a file of a repository, or the repository itself. Returns
/// the repository that is to be opened; `discovered` tells whether there is one, and its
/// working directory where it has one.
pub fn handle_dropped_file(
    path: String,
    discovered: Option<Option<String>>,
    toasts: &mut ToastManager,
) -> (r: Option<String>)
    ensures
        match discovered {
            Some(Some(workdir)) => r == Some(workdir) && final(toasts)@ == old(toasts)@,
            Some(None) => r == Some(path) && final(toasts)@ == old(toasts)@,
            None => r is None && final(toasts)@ == old(toasts)@.push(
                toast::error("Not a git repository: "@ + path@),
            ),
        },
{
    match discovered {
        Some(Some(workdir)) => Some(workdir),
        Some(None) => Some(path),
        None => {
            let mut s = "Not a git repository: ".to_owned();
            s.append(path.as_str());
            toasts.push(s, ToastSeverity::Error);
            None
        },
    }
}

/// Every repository that could be opened gets its tab, in the order in which they were asked for.
pub proof fn every_opened_repository_gets_a_tab(opened: Seq<Result<String, String>>)
    ensures
        opened_names(opened) == opened.filter_map(
            |r: Result<String, String>|
                match r {
                    Err(_) => None,
                    Ok(name) => Some(name),
                },
        ),
    decreases opened.len(),
{
    if opened.len() > 0 {
        every_opened_repository_gets_a_tab(opened.drop_last());
    }
}

/// A repository is cloned from where it was asked for to where it was asked for, without a
/// working directory exactly where that was asked for.
pub proof fn a_clone_goes_where_it_was_asked_for(url: Seq<char>, dest: Seq<char>, bare: bool)
    ensures
        ({
            let args = clone_args(url, dest, bare);
            &&& args[0] == "clone"@
            &&& args[args.len() - 2] == url && args[args.len() - 1] == dest
            &&& bare <==> args.len() == 4
            &&& bare ==> args[1] == "--bare"@
            &&& !bare ==> args.len() == 3
        }),
{
}

} // verus!
