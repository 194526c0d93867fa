//! Reading a repository afresh and reporting how it differs from what was shown.

use crate::app::toast::{self, ToastManager, ToastSeverity, ToastView};
use crate::oid::Oid;
use crate::text::{self, push_dec};
use vstd::prelude::*;
use vstd::string::*;

verus! {

/// What a tab shows of its repository at some time.
#[derive(Debug)]
pub struct RepoStateSnapshot {
    /// How many commits are shown, not counting entries for changes.
    pub commits: usize,
    pub head_oid: Option<Oid>,
    pub current_branch: String,
    pub branch_tips: usize,
    pub tags: usize,
    pub staged_count: usize,
    pub unstaged_count: usize,
    pub conflicted_count: usize,
}

/// What becomes of a reload that was asked for.
#[derive(Debug, Clone, Copy, PartialEq, Eq, Structural)]
pub enum ReloadStep {
    /// There is nothing to report yet.
    Wait,
    /// There is nothing left to report on.
    Forget,
    /// Everything has been read: report on it.
    Report,
}

/// What becomes of a reload. It is reported on once neither the repository nor the status of
/// the active tab is being read any more.
pub fn reload_step(has_tab: bool, reading: bool, asked_for: bool) -> (r: ReloadStep)
    ensures
        r == (if has_tab && reading || !asked_for {
            ReloadStep::Wait
        } else if !has_tab {
            ReloadStep::Forget
        } else {
            ReloadStep::Report
        }),
{
    if has_tab && reading || !asked_for {
        ReloadStep::Wait
    } else if !has_tab {
        ReloadStep::Forget
    } else {
        ReloadStep::Report
    }
}

/// The id of a HEAD, where there is one.
pub open spec fn head_text(head: Option<Oid>) -> Seq<char> {
    match head {
        Some(h) => "Some("@ + h.digits() + ")"@,
        None => "None"@,
    }
}

/// A snapshot as it is reported.
pub open spec fn snapshot_text(s: RepoStateSnapshot) -> Seq<char> {
    "Commits: "@ + text::dec(s.commits as nat) + " (non-synthetic)\n"@ + "HEAD: "@ + head_text(
        s.head_oid,
    ) + "\nBranch: "@ + s.current_branch@ + "\nBranch tips: "@ + text::dec(s.branch_tips as nat)
        + "\nTags: "@ + text::dec(s.tags as nat) + "\nStaged/Unstaged/Conflicted: "@ + text::dec(
        s.staged_count as nat,
    ) + "/"@ + text::dec(s.unstaged_count as nat) + "/"@ + text::dec(s.conflicted_count as nat)
        + "\n"@
}

/// The differences, one on each line.
pub open spec fn delta_lines(deltas: Seq<Seq<char>>) -> Seq<char>
    decreases deltas.len(),
{
    if deltas.len() == 0 {
        Seq::empty()
    } else {
        delta_lines(deltas.drop_last()) + deltas.last() + "\n"@
    }
}

/// The report on a reload.
pub open spec fn report_text(
    now: nat,
    repo: Option<Seq<char>>,
    deltas: Seq<Seq<char>>,
    before: RepoStateSnapshot,
    after: RepoStateSnapshot,
) -> Seq<char> {
    "Reload report — unix "@ + text::dec(now) + "\n"@ + (match repo {
        Some(name) => "Repo: "@ + name + "\n"@,
        None => Seq::empty(),
    }) + "Deltas: "@ + text::dec(deltas.len()) + "\n\n"@ + (if deltas.len() == 0 {
        "No deltas detected.\n"@
    } else {
        delta_lines(deltas)
    }) + "\n--- Before snapshot ---\n"@ + snapshot_text(before)
        + "\n--- After snapshot ---\n"@ + snapshot_text(after)
}

fn snapshot_string(s: &RepoStateSnapshot) -> (r: String)
    ensures
        r@ == snapshot_text(*s),
{
    let mut r = "Commits: ".to_owned();
    push_dec(&mut r, s.commits as u64);
    r.append(" (non-synthetic)\n");
    r.append("HEAD: ");
    let head = match s.head_oid {
        Some(h) => {
            let mut t = "Some(".to_owned();
            t.append(h.to_hex().as_str());
            t.append(")");
            t
        },
        None => "None".to_owned(),
    };
    r.append(head.as_str());
    r.append("\nBranch: ");
    r.append(s.current_branch.as_str());
    r.append("\nBranch tips: ");
    push_dec(&mut r, s.branch_tips as u64);
    r.append("\nTags: ");
    push_dec(&mut r, s.tags as u64);
    r.append("\nStaged/Unstaged/Conflicted: ");
    push_dec(&mut r, s.staged_count as u64);
    r.append("/");
    push_dec(&mut r, s.unstaged_count as u64);
    r.append("/");
    push_dec(&mut r, s.conflicted_count as u64);
    r.append("\n");
    r
}

fn delta_string(deltas: &Vec<String>) -> (r: String)
    ensures
        r@ == delta_lines(text::views(deltas@)),
{
    let ghost all = text::views(deltas@);
    let mut r = String::new();
    let mut i: usize = 0;
    assert(r@ =~= delta_lines(all.take(0)));
    while i < deltas.len()
        invariant
            i <= deltas.len(),
            all == text::views(deltas@),
            r@ == delta_lines(all.take(i as int)),
        decreases deltas.len() - i,
    {
        proof {
            assert(all.take(i + 1).drop_last() =~= all.take(i as int));
            assert(all.take(i + 1).last() == deltas@[i as int]@);
        }
        r.append(deltas[i].as_str());
        r.append("\n");
        i = i + 1;
    }
    assert(all.take(all.len() as int) =~= all);
    r
}

/// The report on a reload: when it was made, of which repository, the differences, and what
/// was shown before and after.
pub fn reload_report(
    now: u64,
    repo: &Option<String>,
    deltas: &Vec<String>,
    before: &RepoStateSnapshot,
    after: &RepoStateSnapshot,
) -> (r: String)
    ensures
        r@ == report_text(
            now as nat,
            text::opt_view(*repo),
            text::views(deltas@),
            *before,
            *after,
        ),
{
    let mut r = "Reload report — unix ".to_owned();
    push_dec(&mut r, now);
    r.append("\n");
    let named = match repo {
        Some(name) => {
            let mut t = "Repo: ".to_owned();
            t.append(name.as_str());
            t.append("\n");
            t
        },
        None => String::new(),
    };
    proof {
        if repo is None {
            assert(named@ =~= Seq::empty());
        }
    }
    r.append(named.as_str());
    r.append("Deltas: ");
    push_dec(&mut r, deltas.len() as u64);
    r.append("\n\n");
    let list = if deltas.len() == 0 {
        "No deltas detected.\n".to_owned()
    } else {
        delta_string(deltas)
    };
    r.append(list.as_str());
    r.append("\n--- Before snapshot ---\n");
    r.append(snapshot_string(before).as_str());
    r.append("\n--- After snapshot ---\n");
    r.append(snapshot_string(after).as_str());
    r
}

/// The name of the file that a report is written to.
pub fn report_file_name(now: u64) -> (r: String)
    ensures
        r@ == "reload-"@ + text::dec(now as nat) + ".txt"@,
{
    let mut r = "reload-".to_owned();
    push_dec(&mut r, now);
    r.append(".txt");
    r
}

/// How many differences there are.
pub open spec fn summary_text(deltas: nat) -> Seq<char> {
    if deltas == 0 {
        "Reload: no deltas"@
    } else {
        "Reload: "@ + text::dec(deltas) + " delta"@ + if deltas == 1 {
            ""@
        } else {
            "s"@
        }
    }
}

/// What is said once the report was written, or could not be.
pub open spec fn reload_toast(
    deltas: nat,
    path: Seq<char>,
    written: Result<(), String>,
) -> ToastView {
    match written {
        Ok(_) => {
            let text = summary_text(deltas) + " — "@ + path;
            if deltas == 0 {
                toast::success(text)
            } else {
                toast::info(text)
            }
        },
        Err(e) => toast::error("Failed to write reload report: "@ + e@),
    }
}

/// Say how the reload went.
pub fn tell_reload(
    toasts: &mut ToastManager,
    deltas: usize,
    path: &str,
    written: Result<(), String>,
)
    ensures
        final(toasts)@ == old(toasts)@.push(reload_toast(deltas as nat, path@, written)),
{
    match written {
        Ok(_) => {
            let mut s = if deltas == 0 {
                "Reload: no deltas".to_owned()
            } else {
                let mut t = "Reload: ".to_owned();
                push_dec(&mut t, deltas as u64);
                t.append(" delta");
                t.append(
                    if deltas == 1 {
                        ""
                    } else {
                        "s"
                    },
                );
                t
            };
            s.append(" — ");
            s.append(path);
            toasts.push(
                s,
                if deltas == 0 {
                    ToastSeverity::Success
                } else {
                    ToastSeverity::Info
                },
            );
        },
        Err(e) => {
            let mut s = "Failed to write reload report: ".to_owned();
            s.append(e.as_str());
            toasts.push(s, ToastSeverity::Error);
        },
    }
}

/// Each difference stands on a line of its own, in order.
pub proof fn each_difference_has_its_line(deltas: Seq<Seq<char>>, delta: Seq<char>)
    ensures
        delta_lines(deltas.push(delta)) == delta_lines(deltas) + delta + "\n"@,
        delta_lines(Seq::empty()) == Seq::<char>::empty(),
{
    assert(deltas.push(delta).drop_last() =~= deltas);
}

/// What a reload found is told: how many differences, and where the report lies, or why it could
/// not be written. Only a reload that found nothing is told as a success.
pub proof fn what_a_reload_found_is_told(deltas: nat, path: Seq<char>, reason: String)
    ensures
        reload_toast(deltas, path, Err(reason)) == crate::app::toast::error(
            "Failed to write reload report: "@ + reason@,
        ),
        reload_toast(deltas, path, Ok(())).text == summary_text(deltas) + " — "@ + path,
        reload_toast(deltas, path, Ok(())).severity == (if deltas == 0 {
            crate::app::toast::ToastSeverity::Success
        } else {
            crate::app::toast::ToastSeverity::Info
        }),
        deltas > 1 ==> summary_text(deltas) == "Reload: "@ + text::dec(deltas) + " delta"@ + "s"@,
        summary_text(1) == "Reload: "@ + text::dec(1) + " delta"@ + ""@,
        summary_text(0) == "Reload: no deltas"@,
{
}

} // verus!
