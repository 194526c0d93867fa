//! What a failed git command means to the user.

use crate::text::{
    self, contains, joined, lines_of, starts_with, to_lowercase, trimmed,
};
use vstd::prelude::*;
use vstd::string::*;

verus! {

/// What git complained of.
#[derive(Debug, Clone, Copy, PartialEq, Eq, Structural)]
pub enum Complaint {
    Authentication,
    PermissionDenied,
    Password,
    HostKey,
    NotFound,
    Unreachable,
    WouldOverwrite,
    NoFastForward,
    Conflicts,
    NeedsMerge,
    Uncommitted,
    Rejected,
    Other,
}

/// Whether the remote rejected a push.
pub open spec fn says_rejected(lower: Seq<char>) -> bool {
    text::has(lower, "rejected"@) || text::has(lower, "non-fast-forward"@)
}

/// What git complained of, by its output in lower case. Where several texts occur, the first
/// in this order counts.
pub open spec fn complaint(lower: Seq<char>) -> Complaint {
    if text::has(lower, "terminal prompts disabled"@) || text::has(
        lower,
        "could not read username"@,
    ) {
        Complaint::Authentication
    } else if text::has(lower, "permission denied"@) {
        Complaint::PermissionDenied
    } else if text::has(lower, "could not read password"@) {
        Complaint::Password
    } else if text::has(lower, "host key verification failed"@) {
        Complaint::HostKey
    } else if text::has(lower, "repository not found"@) || text::has(lower, "404"@) {
        Complaint::NotFound
    } else if text::has(lower, "connection refused"@) || text::has(lower, "could not resolve"@) {
        Complaint::Unreachable
    } else if text::has(lower, "local changes to the following files would be overwritten"@) {
        Complaint::WouldOverwrite
    } else if text::has(lower, "not possible to fast-forward"@) {
        Complaint::NoFastForward
    } else if text::has(lower, "merge conflict"@) || text::has(lower, "fix conflicts"@) {
        Complaint::Conflicts
    } else if text::has(lower, "needs merge"@) {
        Complaint::NeedsMerge
    } else if text::has(lower, "you have unstaged changes"@) || text::has(
        lower,
        "your index contains uncommitted changes"@,
    ) {
        Complaint::Uncommitted
    } else if says_rejected(lower) {
        Complaint::Rejected
    } else {
        Complaint::Other
    }
}

/// The index of the first line from `i` on that speaks of overwriting, or the number of
/// lines.
pub open spec fn overwrite_line(lower: Seq<Seq<char>>, i: int) -> int
    decreases lower.len() - i,
{
    if i >= lower.len() {
        lower.len() as int
    } else if text::has(lower[i], "would be overwritten"@) {
        i
    } else {
        overwrite_line(lower, i + 1)
    }
}

/// The texts of `lines` from `i` on up to the first that asks for something, without the
/// white space around them; empty ones are left out.
pub open spec fn files_from(lines: Seq<Seq<char>>, lower: Seq<Seq<char>>, i: int) -> Seq<Seq<char>>
    decreases lines.len() - i,
{
    if i >= lines.len() || text::begins(lower[i], "please"@) {
        Seq::empty()
    } else {
        let rest = files_from(lines, lower, i + 1);
        if text::trim(lines[i]).len() > 0 {
            seq![text::trim(lines[i])] + rest
        } else {
            rest
        }
    }
}

/// The files that git names as being overwritten.
pub open spec fn overwritten_files(lines: Seq<Seq<char>>, lower: Seq<Seq<char>>) -> Seq<Seq<char>> {
    files_from(lines, lower, overwrite_line(lower, 0) + 1)
}

/// Whether a line of git's output says something of an error, and not only how far git came.
pub open spec fn is_meaningful(line: Seq<char>) -> bool {
    let t = text::trim(line);
    &&& t.len() > 0
    &&& !text::begins(t, "From "@)
    &&& !text::begins(t, "To "@)
    &&& !text::begins(t, " * branch"@)
    &&& !text::begins(t, " * [new"@)
    &&& !text::begins(t, "   "@)
    &&& !text::begins(t, "Updating "@)
}

/// The first `n` meaningful lines from `i` on.
pub open spec fn meaningful_from(lines: Seq<Seq<char>>, i: int, n: nat) -> Seq<Seq<char>>
    decreases lines.len() - i,
{
    if n == 0 || i >= lines.len() {
        Seq::empty()
    } else if is_meaningful(lines[i]) {
        seq![lines[i]] + meaningful_from(lines, i + 1, (n - 1) as nat)
    } else {
        meaningful_from(lines, i + 1, n)
    }
}

/// The text for a failed command, where git's output has `lines`, and `lower_lines` in lower
/// case.
pub open spec fn friendly_text(
    op: Seq<char>,
    c: Complaint,
    lines: Seq<Seq<char>>,
    lower_lines: Seq<Seq<char>>,
) -> Seq<char> {
    match c {
        Complaint::Authentication => op
            + " failed: Authentication required. Configure SSH keys or a credential helper."@,
        Complaint::PermissionDenied => op
            + " failed: Permission denied. Check your SSH key or access token."@,
        Complaint::Password => op
            + " failed: Password required. Set up a credential helper (git config credential.helper cache)."@,
        Complaint::HostKey => op
            + " failed: SSH host key not trusted. Run ssh-keyscan to add the host."@,
        Complaint::NotFound => op + " failed: Repository not found. Check the remote URL."@,
        Complaint::Unreachable => op
            + " failed: Cannot connect to remote. Check your network and remote URL."@,
        Complaint::WouldOverwrite => {
            let files = overwritten_files(lines, lower_lines);
            if files.len() == 0 {
                op
                    + " aborted: Local changes would be overwritten. Commit or stash your changes first."@
            } else {
                op + " aborted: Local changes to "@ + text::join(files, ", "@)
                    + " would be overwritten. Commit or stash first."@
            }
        },
        Complaint::NoFastForward => op
            + " failed: Cannot fast-forward — the branches have diverged. Pull with merge or rebase instead."@,
        Complaint::Conflicts => op
            + " stopped: Merge conflicts need to be resolved. Check the staging area for conflicted files."@,
        Complaint::NeedsMerge => op
            + " failed: Unresolved merge in progress. Resolve conflicts and commit, or abort the merge first."@,
        Complaint::Uncommitted => op
            + " aborted: You have uncommitted changes. Commit or stash them first."@,
        Complaint::Rejected => op
            + " rejected: Remote has new commits. Pull first, or use Force Push."@,
        Complaint::Other => {
            let summary = text::join(meaningful_from(lines, 0, 3), "\n"@);
            if summary.len() == 0 {
                op + " failed: unknown error"@
            } else {
                op + " failed: "@ + summary
            }
        },
    }
}

/// The lines of a text in lower case, each by itself.
pub open spec fn lowered(lines: Seq<Seq<char>>) -> Seq<Seq<char>> {
    Seq::new(lines.len(), |i: int| text::lowercase(lines[i]))
}

fn find_complaint(lower: &str) -> (r: Complaint)
    ensures
        r == complaint(lower@),
{
    if contains(lower, "terminal prompts disabled") || contains(lower, "could not read username") {
        Complaint::Authentication
    } else if contains(lower, "permission denied") {
        Complaint::PermissionDenied
    } else if contains(lower, "could not read password") {
        Complaint::Password
    } else if contains(lower, "host key verification failed") {
        Complaint::HostKey
    } else if contains(lower, "repository not found") || contains(lower, "404") {
        Complaint::NotFound
    } else if contains(lower, "connection refused") || contains(lower, "could not resolve") {
        Complaint::Unreachable
    } else if contains(lower, "local changes to the following files would be overwritten") {
        Complaint::WouldOverwrite
    } else if contains(lower, "not possible to fast-forward") {
        Complaint::NoFastForward
    } else if contains(lower, "merge conflict") || contains(lower, "fix conflicts") {
        Complaint::Conflicts
    } else if contains(lower, "needs merge") {
        Complaint::NeedsMerge
    } else if contains(lower, "you have unstaged changes") || contains(
        lower,
        "your index contains uncommitted changes",
    ) {
        Complaint::Uncommitted
    } else if contains(lower, "rejected") || contains(lower, "non-fast-forward") {
        Complaint::Rejected
    } else {
        Complaint::Other
    }
}

fn list_files(lines: &Vec<String>, lower: &Vec<String>) -> (r: Vec<String>)
    requires
        lines.len() == lower.len(),
    ensures
        text::views(r@) == overwritten_files(text::views(lines@), text::views(lower@)),
{
    let ghost a = text::views(lines@);
    let ghost b = text::views(lower@);
    let mut i: usize = 0;
    while i < lower.len() && !contains(lower[i].as_str(), "would be overwritten")
        invariant
            i <= lower.len(),
            b == text::views(lower@),
            overwrite_line(b, 0) == overwrite_line(b, i as int),
        decreases lower.len() - i,
    {
        assert(b[i as int] == lower@[i as int]@);
        i = i + 1;
    }
    if i < lower.len() {
        assert(b[i as int] == lower@[i as int]@);
    }
    let mut files: Vec<String> = Vec::new();
    if i >= lines.len() {
        assert(text::views(files@) =~= Seq::empty());
        return files;
    }
    let ghost start = i + 1;
    i = i + 1;
    assert(text::views(files@) + files_from(a, b, i as int) =~= files_from(a, b, start));
    while i < lines.len() && !starts_with(lower[i].as_str(), "please")
        invariant
            i <= lines.len() == lower.len(),
            a == text::views(lines@),
            b == text::views(lower@),
            text::views(files@) + files_from(a, b, i as int) == files_from(a, b, start),
        decreases lines.len() - i,
    {
        assert(b[i as int] == lower@[i as int]@);
        assert(a[i as int] == lines@[i as int]@);
        let t = trimmed(lines[i].as_str());
        let ghost before = files@;
        if !t.as_str().is_empty() {
            files.push(t);
            assert(text::views(files@) =~= text::views(before).push(t@));
            assert(text::views(files@) + files_from(a, b, i + 1) =~= text::views(before)
                + files_from(a, b, i as int));
        }
        i = i + 1;
    }
    if i < lines.len() {
        assert(b[i as int] == lower@[i as int]@);
    }
    assert(text::views(files@) + files_from(a, b, i as int) =~= text::views(files@));
    files
}

fn meaningful(line: &str) -> (r: bool)
    ensures
        r == is_meaningful(line@),
{
    let t = trimmed(line);
    !t.as_str().is_empty() && !starts_with(t.as_str(), "From ") && !starts_with(t.as_str(), "To ")
        && !starts_with(t.as_str(), " * branch") && !starts_with(t.as_str(), " * [new")
        && !starts_with(t.as_str(), "   ") && !starts_with(t.as_str(), "Updating ")
}

fn pick_meaningful(lines: &Vec<String>, max: usize) -> (r: Vec<String>)
    ensures
        text::views(r@) == meaningful_from(text::views(lines@), 0, max as nat),
{
    let ghost a = text::views(lines@);
    let mut r: Vec<String> = Vec::new();
    let mut i: usize = 0;
    assert(text::views(r@) + meaningful_from(a, 0, max as nat) =~= meaningful_from(
        a,
        0,
        max as nat,
    ));
    while i < lines.len() && r.len() < max
        invariant
            i <= lines.len(),
            r.len() <= max,
            a == text::views(lines@),
            text::views(r@) + meaningful_from(a, i as int, (max - r.len()) as nat)
                == meaningful_from(a, 0, max as nat),
        decreases lines.len() - i,
    {
        assert(a[i as int] == lines@[i as int]@);
        let ghost before = r@;
        if meaningful(lines[i].as_str()) {
            let line = lines[i].clone();
            r.push(line);
            assert(text::views(r@) =~= text::views(before).push(a[i as int]));
            assert(text::views(r@) + meaningful_from(a, i + 1, (max - r.len()) as nat)
                =~= text::views(before) + meaningful_from(
                a,
                i as int,
                (max - before.len()) as nat,
            ));
        }
        i = i + 1;
    }
    assert(text::views(r@) + meaningful_from(a, i as int, (max - r.len()) as nat)
        =~= text::views(r@));
    r
}

/// The text for a failed command, and whether the remote rejected it, where `lower` is git's
/// output in lower case and `lower_lines` are its lines in lower case, each by itself.
pub fn classify_lowered(op: &str, stderr: &str, lower: &str, lower_lines: &Vec<String>) -> (r: (
    String,
    bool,
))
    requires
        lower_lines.len() == text::lines(stderr@).len(),
    ensures
        r.0@ == friendly_text(
            op@,
            complaint(lower@),
            text::lines(stderr@),
            text::views(lower_lines@),
        ),
        r.1 == says_rejected(lower@),
{
    let rejected = contains(lower, "rejected") || contains(lower, "non-fast-forward");
    let mut s = op.to_owned();
    match find_complaint(lower) {
        Complaint::Authentication => {
            s.append(" failed: Authentication required. Configure SSH keys or a credential helper.");
        },
        Complaint::PermissionDenied => {
            s.append(" failed: Permission denied. Check your SSH key or access token.");
        },
        Complaint::Password => {
            s.append(
                " failed: Password required. Set up a credential helper (git config credential.helper cache).",
            );
        },
        Complaint::HostKey => {
            s.append(" failed: SSH host key not trusted. Run ssh-keyscan to add the host.");
        },
        Complaint::NotFound => {
            s.append(" failed: Repository not found. Check the remote URL.");
        },
        Complaint::Unreachable => {
            s.append(" failed: Cannot connect to remote. Check your network and remote URL.");
        },
        Complaint::WouldOverwrite => {
            let lines = lines_of(stderr);
            assert(lines.len() == text::views(lines@).len());
            let files = list_files(&lines, lower_lines);
            assert(files.len() == text::views(files@).len());
            if files.len() == 0 {
                s.append(
                    " aborted: Local changes would be overwritten. Commit or stash your changes first.",
                );
            } else {
                s.append(" aborted: Local changes to ");
                let list = joined(&files, ", ");
                s.append(list.as_str());
                s.append(" would be overwritten. Commit or stash first.");
            }
        },
        Complaint::NoFastForward => {
            s.append(
                " failed: Cannot fast-forward — the branches have diverged. Pull with merge or rebase instead.",
            );
        },
        Complaint::Conflicts => {
            s.append(
                " stopped: Merge conflicts need to be resolved. Check the staging area for conflicted files.",
            );
        },
        Complaint::NeedsMerge => {
            s.append(
                " failed: Unresolved merge in progress. Resolve conflicts and commit, or abort the merge first.",
            );
        },
        Complaint::Uncommitted => {
            s.append(" aborted: You have uncommitted changes. Commit or stash them first.");
        },
        Complaint::Rejected => {
            s.append(" rejected: Remote has new commits. Pull first, or use Force Push.");
        },
        Complaint::Other => {
            let lines = lines_of(stderr);
            let picked = pick_meaningful(&lines, 3);
            let summary = joined(&picked, "\n");
            if summary.as_str().is_empty() {
                s.append(" failed: unknown error");
            } else {
                s.append(" failed: ");
                s.append(summary.as_str());
            }
        },
    }
    (s, rejected)
}

/// Classify a git CLI stderr message into a user-friendly error string.
/// Returns `(friendly_message, is_rejected)` where `is_rejected` indicates
/// the remote rejected the push (e.g. non-fast-forward).
pub fn classify_git_error(op: &str, stderr: &str) -> (r: (String, bool))
    ensures
        r.0@ == friendly_text(
            op@,
            complaint(text::lowercase(stderr@)),
            text::lines(stderr@),
            lowered(text::lines(stderr@)),
        ),
        r.1 == says_rejected(text::lowercase(stderr@)),
{
    let lower = to_lowercase(stderr);
    let lines = lines_of(stderr);
    let ghost all = text::views(lines@);
    let mut lower_lines: Vec<String> = Vec::new();
    let mut i: usize = 0;
    while i < lines.len()
        invariant
            i <= lines.len(),
            all == text::views(lines@),
            text::views(lower_lines@) == lowered(all).take(i as int),
        decreases lines.len() - i,
    {
        let ghost before = lower_lines@;
        let l = to_lowercase(lines[i].as_str());
        lower_lines.push(l);
        assert(text::views(lower_lines@) =~= text::views(before).push(l@));
        i = i + 1;
        assert(text::views(lower_lines@) =~= lowered(all).take(i as int));
    }
    assert(text::views(lower_lines@) =~= lowered(all));
    assert(lower_lines.len() == text::views(lower_lines@).len());
    classify_lowered(op, stderr, lower.as_str(), &lower_lines)
}

/// The text always begins with the name of the operation, and a push that the remote rejected
/// is told so unless git complains of something that comes before it.
pub proof fn text_names_the_operation(
    op: Seq<char>,
    c: Complaint,
    lines: Seq<Seq<char>>,
    lower_lines: Seq<Seq<char>>,
)
    ensures
        text::begins(friendly_text(op, c, lines, lower_lines), op),
        forall|lower: Seq<char>|
            complaint(lower) == Complaint::Rejected ==> #[trigger] says_rejected(lower),
        forall|lower: Seq<char>| #[trigger]
            says_rejected(lower) ==> complaint(lower) != Complaint::Other,
{
    let t = friendly_text(op, c, lines, lower_lines);
    assert(t.subrange(0, op.len() as int) =~= op);
}

/// What git may say, in the order in which it counts, and what that is a complaint of.
pub open spec fn phrases() -> Seq<(Seq<char>, Complaint)> {
    seq![
        ("terminal prompts disabled"@, Complaint::Authentication),
        ("could not read username"@, Complaint::Authentication),
        ("permission denied"@, Complaint::PermissionDenied),
        ("could not read password"@, Complaint::Password),
        ("host key verification failed"@, Complaint::HostKey),
        ("repository not found"@, Complaint::NotFound),
        ("404"@, Complaint::NotFound),
        ("connection refused"@, Complaint::Unreachable),
        ("could not resolve"@, Complaint::Unreachable),
        (
            "local changes to the following files would be overwritten"@,
            Complaint::WouldOverwrite,
        ),
        ("not possible to fast-forward"@, Complaint::NoFastForward),
        ("merge conflict"@, Complaint::Conflicts),
        ("fix conflicts"@, Complaint::Conflicts),
        ("needs merge"@, Complaint::NeedsMerge),
        ("you have unstaged changes"@, Complaint::Uncommitted),
        ("your index contains uncommitted changes"@, Complaint::Uncommitted),
        ("rejected"@, Complaint::Rejected),
        ("non-fast-forward"@, Complaint::Rejected),
    ]
}

/// The first phrase that occurs in what git said decides what it complained of, and where none
/// occurs it is something else. A rejection is told whenever git speaks of one, whatever else it
/// complained of.
pub proof fn the_first_phrase_decides(lower: Seq<char>, k: int)
    requires
        0 <= k < phrases().len(),
    ensures
        text::has(lower, phrases()[k].0) && (forall|j: int|
            0 <= j < k ==> !text::has(lower, (#[trigger] phrases()[j]).0)) ==> complaint(lower)
            == phrases()[k].1,
        (forall|j: int|
            0 <= j < phrases().len() ==> !text::has(lower, (#[trigger] phrases()[j]).0))
            ==> complaint(lower) == Complaint::Other,
        says_rejected(lower) <==> text::has(lower, phrases()[16].0) || text::has(
            lower,
            phrases()[17].0,
        ),
{
    let p = phrases();
    assert(p.len() == 18);
    if text::has(lower, p[k].0) && (forall|j: int|
        0 <= j < k ==> !text::has(lower, (#[trigger] p[j]).0)) {
        assert forall|j: int| 0 <= j < k implies !text::has(lower, (#[trigger] p[j]).0) by {
        }
        lemma_no_phrase_before(lower, k);
    }
    if forall|j: int| 0 <= j < p.len() ==> !text::has(lower, (#[trigger] p[j]).0) {
        lemma_no_phrase_before(lower, 18);
    }
}

proof fn lemma_no_phrase_before(lower: Seq<char>, k: int)
    requires
        0 <= k <= phrases().len(),
        forall|j: int| 0 <= j < k ==> !text::has(lower, (#[trigger] phrases()[j]).0),
    ensures
        k > 0 ==> !text::has(lower, "terminal prompts disabled"@),
        k > 1 ==> !text::has(lower, "could not read username"@),
        k > 2 ==> !text::has(lower, "permission denied"@),
        k > 3 ==> !text::has(lower, "could not read password"@),
        k > 4 ==> !text::has(lower, "host key verification failed"@),
        k > 5 ==> !text::has(lower, "repository not found"@),
        k > 6 ==> !text::has(lower, "404"@),
        k > 7 ==> !text::has(lower, "connection refused"@),
        k > 8 ==> !text::has(lower, "could not resolve"@),
        k > 9 ==> !text::has(lower, "local changes to the following files would be overwritten"@),
        k > 10 ==> !text::has(lower, "not possible to fast-forward"@),
        k > 11 ==> !text::has(lower, "merge conflict"@),
        k > 12 ==> !text::has(lower, "fix conflicts"@),
        k > 13 ==> !text::has(lower, "needs merge"@),
        k > 14 ==> !text::has(lower, "you have unstaged changes"@),
        k > 15 ==> !text::has(lower, "your index contains uncommitted changes"@),
        k > 16 ==> !text::has(lower, "rejected"@),
        k > 17 ==> !text::has(lower, "non-fast-forward"@),
{
    let p = phrases();
    assert(p[0].0 == "terminal prompts disabled"@);
    assert(p[1].0 == "could not read username"@);
    assert(p[2].0 == "permission denied"@);
    assert(p[3].0 == "could not read password"@);
    assert(p[4].0 == "host key verification failed"@);
    assert(p[5].0 == "repository not found"@);
    assert(p[6].0 == "404"@);
    assert(p[7].0 == "connection refused"@);
    assert(p[8].0 == "could not resolve"@);
    assert(p[9].0 == "local changes to the following files would be overwritten"@);
    assert(p[10].0 == "not possible to fast-forward"@);
    assert(p[11].0 == "merge conflict"@);
    assert(p[12].0 == "fix conflicts"@);
    assert(p[13].0 == "needs merge"@);
    assert(p[14].0 == "you have unstaged changes"@);
    assert(p[15].0 == "your index contains uncommitted changes"@);
    assert(p[16].0 == "rejected"@);
    assert(p[17].0 == "non-fast-forward"@);
}

proof fn lemma_overwrite_line(lower: Seq<Seq<char>>, i: int, at: int)
    requires
        0 <= i <= at < lower.len(),
        text::has(lower[at], "would be overwritten"@),
        forall|j: int| i <= j < at ==> !text::has(#[trigger] lower[j], "would be overwritten"@),
    ensures
        overwrite_line(lower, i) == at,
    decreases at - i,
{
    if i < at {
        lemma_overwrite_line(lower, i + 1, at);
    }
}

/// What stands on lines that are not blank, without the white space around it.
pub open spec fn what_is_said(lines: Seq<Seq<char>>) -> Seq<Seq<char>> {
    lines.filter_map(
        |line: Seq<char>|
            if text::trim(line) == Seq::<char>::empty() {
                None
            } else {
                Some(text::trim(line))
            },
    )
}

proof fn lemma_said_first(line: Seq<char>, rest: Seq<Seq<char>>)
    ensures
        what_is_said(seq![line] + rest) == (if text::trim(line) == Seq::<char>::empty() {
            what_is_said(rest)
        } else {
            seq![text::trim(line)] + what_is_said(rest)
        }),
    decreases rest.len(),
{
    let all = seq![line] + rest;
    if rest.len() == 0 {
        assert(all.drop_last() =~= Seq::empty());
        assert(rest =~= Seq::empty());
        assert(what_is_said(Seq::empty()) =~= Seq::empty());
        assert(all.last() == line);
        assert(what_is_said(all.drop_last()) =~= Seq::empty());
        assert(what_is_said(all) =~= if text::trim(line) == Seq::<char>::empty() {
            what_is_said(rest)
        } else {
            seq![text::trim(line)] + what_is_said(rest)
        });
    } else {
        lemma_said_first(line, rest.drop_last());
        assert(all.drop_last() =~= seq![line] + rest.drop_last());
        assert(all.last() == rest.last());
        assert(what_is_said(all) =~= if text::trim(line) == Seq::<char>::empty() {
            what_is_said(rest)
        } else {
            seq![text::trim(line)] + what_is_said(rest)
        });
    }
}

proof fn lemma_files_from(lines: Seq<Seq<char>>, lower: Seq<Seq<char>>, i: int, stop: int)
    requires
        0 <= i <= stop <= lines.len() == lower.len(),
        stop < lower.len() ==> text::begins(lower[stop], "please"@),
        forall|j: int| i <= j < stop ==> !text::begins(#[trigger] lower[j], "please"@),
    ensures
        files_from(lines, lower, i) == what_is_said(lines.subrange(i, stop)),
    decreases stop - i,
{
    if i < stop {
        lemma_files_from(lines, lower, i + 1, stop);
        lemma_said_first(lines[i], lines.subrange(i + 1, stop));
        assert(seq![lines[i]] + lines.subrange(i + 1, stop) =~= lines.subrange(i, stop));
        assert(text::trim(lines[i]).len() == 0 ==> text::trim(lines[i]) =~= Seq::empty());
    } else {
        assert(lines.subrange(i, stop) =~= Seq::empty());
        assert(what_is_said(Seq::empty()) =~= Seq::empty());
    }
}

/// Every file that git names is told: where a line speaks of overwriting, each line after it
/// that is not blank is the name of a file, up to the first that begins with a request, or to
/// the end. Where no line speaks of overwriting, no file is told.
pub proof fn every_overwritten_file_is_told(
    lines: Seq<Seq<char>>,
    lower: Seq<Seq<char>>,
    at: int,
    stop: int,
)
    requires
        0 <= at < stop <= lines.len() == lower.len(),
        text::has(lower[at], "would be overwritten"@),
        forall|j: int| 0 <= j < at ==> !text::has(#[trigger] lower[j], "would be overwritten"@),
        stop < lower.len() ==> text::begins(lower[stop], "please"@),
        forall|j: int| at < j < stop ==> !text::begins(#[trigger] lower[j], "please"@),
    ensures
        overwritten_files(lines, lower) == what_is_said(lines.subrange(at + 1, stop)),
{
    lemma_overwrite_line(lower, 0, at);
    lemma_files_from(lines, lower, at + 1, stop);
}

/// The lines that say more than how far git came: not blank, and not the beginning of a report
/// on what was fetched, pushed or updated.
pub open spec fn telling_lines(lines: Seq<Seq<char>>) -> Seq<Seq<char>> {
    lines.filter_map(
        |line: Seq<char>|
            {
                let t = text::trim(line);
                if t == Seq::<char>::empty() || text::begins(t, "Updating "@) || text::begins(
                    t,
                    "To "@,
                ) || text::begins(t, "From "@) || text::begins(t, " * [new"@) || text::begins(
                    t,
                    "   "@,
                ) || text::begins(t, " * branch"@) {
                    None
                } else {
                    Some(line)
                }
            },
    )
}

proof fn lemma_telling_first(line: Seq<char>, rest: Seq<Seq<char>>)
    ensures
        telling_lines(seq![line] + rest) == telling_lines(seq![line]) + telling_lines(rest),
        telling_lines(seq![line]) == (if is_meaningful(line) {
            seq![line]
        } else {
            Seq::empty()
        }),
    decreases rest.len(),
{
    let all = seq![line] + rest;
    let t = text::trim(line);
    assert(t.len() == 0 ==> t =~= Seq::empty());
    assert(seq![line].drop_last() =~= Seq::empty());
    assert(telling_lines(Seq::empty()) =~= Seq::empty());
    assert(seq![line].last() == line);
    assert(telling_lines(seq![line].drop_last()) =~= Seq::empty());
    assert(telling_lines(seq![line]) =~= if is_meaningful(line) {
        seq![line]
    } else {
        Seq::empty()
    });
    if rest.len() == 0 {
        assert(rest =~= Seq::empty());
        assert(all =~= seq![line]);
        assert(telling_lines(all) =~= telling_lines(seq![line]) + telling_lines(rest));
    } else {
        lemma_telling_first(line, rest.drop_last());
        assert(all.drop_last() =~= seq![line] + rest.drop_last());
        assert(all.last() == rest.last());
        assert(telling_lines(all) =~= telling_lines(seq![line]) + telling_lines(rest));
    }
}

proof fn lemma_meaningful_from(lines: Seq<Seq<char>>, i: int, n: nat)
    requires
        0 <= i <= lines.len(),
    ensures
        ({
            let all = telling_lines(lines.skip(i));
            meaningful_from(lines, i, n) == if all.len() < n {
                all
            } else {
                all.take(n as int)
            }
        }),
    decreases lines.len() - i,
{
    let all = telling_lines(lines.skip(i));
    if i == lines.len() {
        assert(lines.skip(i) =~= Seq::empty());
        assert(telling_lines(Seq::empty()) =~= Seq::empty());
        assert(all.take(0) =~= Seq::empty());
    } else if n == 0 {
        assert(all.take(0) =~= Seq::empty());
    } else {
        let rest = lines.skip(i + 1);
        lemma_telling_first(lines[i], rest);
        assert(seq![lines[i]] + rest =~= lines.skip(i));
        let later = telling_lines(rest);
        if is_meaningful(lines[i]) {
            lemma_meaningful_from(lines, i + 1, (n - 1) as nat);
            assert(all =~= seq![lines[i]] + later);
            if later.len() >= n - 1 {
                assert(all.take(n as int) =~= seq![lines[i]] + later.take(n - 1));
            }
        } else {
            lemma_meaningful_from(lines, i + 1, n);
            assert(all =~= later);
        }
    }
}

/// What git says is told in its own words where nothing in it is known: the first three lines
/// that say something are told, in their order, or all where there are fewer, and an unknown
/// error where there is none.
pub proof fn unknown_errors_are_told_in_gits_words(
    op: Seq<char>,
    lines: Seq<Seq<char>>,
    lower_lines: Seq<Seq<char>>,
)
    ensures
        ({
            let all = telling_lines(lines);
            let told = text::join(
                if all.len() <= 3 {
                    all
                } else {
                    all.take(3)
                },
                "\n"@,
            );
            friendly_text(op, Complaint::Other, lines, lower_lines) == op + " failed: "@ + told || (
            told == Seq::<char>::empty() && friendly_text(op, Complaint::Other, lines, lower_lines)
                == op + " failed: unknown error"@)
        }),
{
    let all = telling_lines(lines);
    lemma_meaningful_from(lines, 0, 3);
    assert(lines.skip(0) =~= lines);
    if all.len() == 3 {
        assert(all.take(3) =~= all);
    }
    let summary = text::join(meaningful_from(lines, 0, 3), "\n"@);
    if summary.len() == 0 {
        assert(summary =~= Seq::empty());
    }
}

} // verus!
