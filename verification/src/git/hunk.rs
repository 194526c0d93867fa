//! Staging, unstaging and discarding single hunks.
//!
//! Hunks are addressed by their `@@` header rather than list index: the index that was
//! displayed can go stale (file edited between render and click), and a stale index silently
//! selects the wrong hunk. A stale header instead fails to match — the operation errors out
//! rather than staging or discarding something the user never saw.

use crate::git::diff::{DiffHunk, HunkView, LineView};
use crate::text::{self, ends_with, same};
use vstd::prelude::*;
use vstd::string::*;

verus! {

/// What is read of a file in the working directory.
#[derive(Debug, Clone, Copy)]
pub struct FileMeta {
    pub is_symlink: bool,
    pub is_executable: bool,
}

/// A patch and the git command that takes it on its standard input.
pub struct HunkPatch {
    pub args: Vec<String>,
    pub patch: String,
}

/// What is done with a hunk.
#[derive(Debug, Clone, Copy, PartialEq, Eq, Structural)]
pub enum HunkAction {
    Stage,
    Unstage,
    Discard,
}

/// The index of the first hunk with `header` from `i` on, or the number of hunks.
pub open spec fn header_from(hunks: Seq<HunkView>, header: Seq<char>, i: int) -> int
    decreases hunks.len() - i,
{
    if i >= hunks.len() {
        hunks.len() as int
    } else if hunks[i].header == header {
        i
    } else {
        header_from(hunks, header, i + 1)
    }
}

/// Find the hunk matching `header` in a freshly computed diff.
pub fn find_hunk<'a>(hunks: &'a Vec<DiffHunk>, header: &str) -> (r: Result<&'a DiffHunk, String>)
    ensures
        ({
            let v = text::views(hunks@);
            let n = header_from(v, header@, 0);
            match r {
                Ok(h) => n < v.len() && h@ == v[n] && h.header@ == header@,
                Err(e) => n == v.len() && e@
                    == "The file changed since this diff was shown — try again"@,
            }
        }),
{
    let ghost v = text::views(hunks@);
    let mut i: usize = 0;
    while i < hunks.len()
        invariant
            i <= hunks.len(),
            v == text::views(hunks@),
            header_from(v, header@, 0) == header_from(v, header@, i as int),
        decreases hunks.len() - i,
    {
        assert(v[i as int] == hunks@[i as int]@);
        if same(hunks[i].header.as_str(), header) {
            return Ok(&hunks[i]);
        }
        i = i + 1;
    }
    Err("The file changed since this diff was shown — try again".to_owned())
}

/// git file mode string for a new-file patch header, from what is read of the working copy.
pub open spec fn mode_text(meta: Option<FileMeta>) -> Seq<char> {
    match meta {
        Some(m) => if m.is_symlink {
            "120000"@
        } else if m.is_executable {
            "100755"@
        } else {
            "100644"@
        },
        None => "100644"@,
    }
}

/// git file mode string for a new-file patch header, read from the
/// working copy: `120000` symlink, `100755` executable, else `100644`.
pub fn new_file_mode(meta: Option<FileMeta>) -> (r: &'static str)
    ensures
        r@ == mode_text(meta),
{
    match meta {
        Some(m) => if m.is_symlink {
            "120000"
        } else if m.is_executable {
            "100755"
        } else {
            "100644"
        },
        None => "100644",
    }
}

/// `s`, ended by a newline.
pub open spec fn ended(s: Seq<char>) -> Seq<char> {
    if text::ends(s, "\n"@) {
        s
    } else {
        s.push('\n')
    }
}

/// A line in a patch. Where no newline ends it in its file, a mark follows.
pub open spec fn patch_line(line: LineView) -> Seq<char> {
    let body = seq![line.origin] + ended(line.content);
    if line.no_newline {
        body + "\\ No newline at end of file\n"@
    } else {
        body
    }
}

/// Lines in a patch.
pub open spec fn patch_lines(lines: Seq<LineView>) -> Seq<char>
    decreases lines.len(),
{
    if lines.len() == 0 {
        Seq::empty()
    } else {
        patch_lines(lines.drop_last()) + patch_line(lines.last())
    }
}

/// The headers of a patch: those of a file that comes into being carry its mode.
pub open spec fn patch_headers(path: Seq<char>, mode: Option<Seq<char>>) -> Seq<char> {
    match mode {
        Some(m) => "diff --git a/"@ + path + " b/"@ + path + "\nnew file mode "@ + m
            + "\n--- /dev/null\n+++ b/"@ + path + "\n"@,
        None => "--- a/"@ + path + "\n+++ b/"@ + path + "\n"@,
    }
}

/// The patch of a single hunk.
pub open spec fn hunk_patch(path: Seq<char>, hunk: HunkView, mode: Option<Seq<char>>) -> Seq<char> {
    patch_headers(path, mode) + ended(hunk.header) + patch_lines(hunk.lines)
}

fn push_ended(patch: &mut String, s: &str)
    ensures
        final(patch)@ == old(patch)@ + ended(s@),
{
    patch.append(s);
    if !ends_with(s, "\n") {
        patch.push('\n');
    }
    assert(patch@ =~= old(patch)@ + ended(s@));
}

/// Build a minimal unified-diff patch for a single hunk. Pass
/// `new_file_mode` when the hunk creates the file — the patch then
/// carries git's extended new-file headers (`diff --git`, `new file
/// mode`, `--- /dev/null`) so mode is preserved on apply and reverse
/// application deletes the file.
pub fn build_hunk_patch(path: &str, hunk: &DiffHunk, new_file_mode: Option<&str>) -> (r: String)
    ensures
        r@ == hunk_patch(path@, hunk@, crate::git::opt_str_view(new_file_mode)),
{
    let mut patch = match new_file_mode {
        Some(mode) => {
            let mut p = "diff --git a/".to_owned();
            p.append(path);
            p.append(" b/");
            p.append(path);
            p.append("\nnew file mode ");
            p.append(mode);
            p.append("\n--- /dev/null\n+++ b/");
            p.append(path);
            p.append("\n");
            p
        },
        None => {
            let mut p = "--- a/".to_owned();
            p.append(path);
            p.append("\n+++ b/");
            p.append(path);
            p.append("\n");
            p
        },
    };
    push_ended(&mut patch, hunk.header.as_str());
    let ghost head = patch@;
    let ghost all = text::views(hunk.lines@);
    let mut i: usize = 0;
    assert(patch@ =~= head + patch_lines(all.take(0)));
    while i < hunk.lines.len()
        invariant
            i <= hunk.lines.len(),
            all == text::views(hunk.lines@),
            patch@ == head + patch_lines(all.take(i as int)),
        decreases hunk.lines.len() - i,
    {
        let line = &hunk.lines[i];
        let ghost before = patch@;
        proof {
            assert(all.take(i + 1).drop_last() =~= all.take(i as int));
            assert(all.take(i + 1).last() == line@);
        }
        patch.push(line.origin);
        push_ended(&mut patch, line.content.as_str());
        if line.no_newline {
            patch.append("\\ No newline at end of file\n");
        }
        assert(patch@ =~= before + patch_line(line@));
        i = i + 1;
        assert(patch@ =~= head + patch_lines(all.take(i as int)));
    }
    assert(all.take(all.len() as int) =~= all);
    patch
}

/// The arguments of the git command for an action.
pub open spec fn action_args(action: HunkAction) -> Seq<Seq<char>> {
    match action {
        HunkAction::Stage => seq!["apply"@, "--cached"@, "--unidiff-zero"@, "-"@],
        HunkAction::Unstage => seq![
            "apply"@,
            "--cached"@,
            "--reverse"@,
            "--unidiff-zero"@,
            "-"@,
        ],
        HunkAction::Discard => seq!["apply"@, "--reverse"@, "--unidiff-zero"@, "-"@],
    }
}

fn args_for(action: HunkAction) -> (r: Vec<String>)
    ensures
        text::views(r@) == action_args(action),
{
    let mut args: Vec<String> = Vec::new();
    args.push("apply".to_owned());
    if action != HunkAction::Discard {
        args.push("--cached".to_owned());
    }
    if action != HunkAction::Stage {
        args.push("--reverse".to_owned());
    }
    args.push("--unidiff-zero".to_owned());
    args.push("-".to_owned());
    assert(text::views(args@) =~= action_args(action));
    args
}

/// The patch for an action on the hunk with `header` of the file at `path`, and the command
/// that applies it.
///
/// `hunks` are those of the diff that the action is about, freshly computed. `known` says
/// whether the file is there on the other side of that diff: in HEAD for unstaging, in the
/// index for the others. A hunk of a file that is not there creates it, and its patch is
/// shaped so: with plain headers git would drop the mode of the file when it stages it, and
/// leave an empty file when it takes it back.
pub fn apply_hunk_patch(
    action: HunkAction,
    path: &str,
    header: &str,
    hunks: &Vec<DiffHunk>,
    known: bool,
    meta: Option<FileMeta>,
    has_workdir: bool,
) -> (r: Result<HunkPatch, String>)
    ensures
        ({
            let v = text::views(hunks@);
            let n = header_from(v, header@, 0);
            match r {
                Ok(p) => {
                    &&& has_workdir
                    &&& n < v.len()
                    &&& v[n].header == header@
                    &&& text::views(p.args@) == action_args(action)
                    &&& p.patch@ == hunk_patch(
                        path@,
                        v[n],
                        if known {
                            None
                        } else {
                            Some(mode_text(meta))
                        },
                    )
                },
                Err(e) => if n == v.len() {
                    e@ == "The file changed since this diff was shown — try again"@
                } else {
                    !has_workdir && e@ == "No working directory"@
                },
            }
        }),
{
    let hunk = match find_hunk(hunks, header) {
        Ok(h) => h,
        Err(e) => {
            return Err(e);
        },
    };
    let mode = if known {
        None
    } else {
        Some(new_file_mode(meta))
    };
    let patch = build_hunk_patch(path, hunk, mode);
    if !has_workdir {
        return Err("No working directory".to_owned());
    }
    Ok(HunkPatch { args: args_for(action), patch })
}

/// Stage a single hunk from a working-directory file.
pub fn stage_hunk(
    path: &str,
    header: &str,
    unstaged: &Vec<DiffHunk>,
    in_index: bool,
    meta: Option<FileMeta>,
    has_workdir: bool,
) -> (r: Result<HunkPatch, String>)
    ensures
        r is Ok <==> has_workdir && header_from(text::views(unstaged@), header@, 0)
            < unstaged.len(),
        r is Ok ==> text::views(r->Ok_0.args@) == action_args(HunkAction::Stage)
            && r->Ok_0.patch@ == hunk_patch(
            path@,
            text::views(unstaged@)[header_from(text::views(unstaged@), header@, 0)],
            if in_index {
                None
            } else {
                Some(mode_text(meta))
            },
        ),
        r is Err ==> r->Err_0@ == (if header_from(text::views(unstaged@), header@, 0)
            == unstaged.len() {
            "The file changed since this diff was shown — try again"@
        } else {
            "No working directory"@
        }),
{
    proof {
        lemma_header_from(text::views(unstaged@), header@, 0);
    }
    apply_hunk_patch(HunkAction::Stage, path, header, unstaged, in_index, meta, has_workdir)
}

/// Unstage a single hunk from the index.
pub fn unstage_hunk(
    path: &str,
    header: &str,
    staged: &Vec<DiffHunk>,
    in_head: bool,
    meta: Option<FileMeta>,
    has_workdir: bool,
) -> (r: Result<HunkPatch, String>)
    ensures
        r is Ok <==> has_workdir && header_from(text::views(staged@), header@, 0) < staged.len(),
        r is Ok ==> text::views(r->Ok_0.args@) == action_args(HunkAction::Unstage)
            && r->Ok_0.patch@ == hunk_patch(
            path@,
            text::views(staged@)[header_from(text::views(staged@), header@, 0)],
            if in_head {
                None
            } else {
                Some(mode_text(meta))
            },
        ),
        r is Err ==> r->Err_0@ == (if header_from(text::views(staged@), header@, 0)
            == staged.len() {
            "The file changed since this diff was shown — try again"@
        } else {
            "No working directory"@
        }),
{
    proof {
        lemma_header_from(text::views(staged@), header@, 0);
    }
    apply_hunk_patch(HunkAction::Unstage, path, header, staged, in_head, meta, has_workdir)
}

/// Discard a single hunk from the working tree.
pub fn discard_hunk(
    path: &str,
    header: &str,
    unstaged: &Vec<DiffHunk>,
    in_index: bool,
    meta: Option<FileMeta>,
    has_workdir: bool,
) -> (r: Result<HunkPatch, String>)
    ensures
        r is Ok <==> has_workdir && header_from(text::views(unstaged@), header@, 0)
            < unstaged.len(),
        r is Ok ==> text::views(r->Ok_0.args@) == action_args(HunkAction::Discard)
            && r->Ok_0.patch@ == hunk_patch(
            path@,
            text::views(unstaged@)[header_from(text::views(unstaged@), header@, 0)],
            if in_index {
                None
            } else {
                Some(mode_text(meta))
            },
        ),
        r is Err ==> r->Err_0@ == (if header_from(text::views(unstaged@), header@, 0)
            == unstaged.len() {
            "The file changed since this diff was shown — try again"@
        } else {
            "No working directory"@
        }),
{
    proof {
        lemma_header_from(text::views(unstaged@), header@, 0);
    }
    apply_hunk_patch(HunkAction::Discard, path, header, unstaged, in_index, meta, has_workdir)
}

proof fn lemma_header_from(hunks: Seq<HunkView>, header: Seq<char>, i: int)
    requires
        0 <= i <= hunks.len(),
    ensures
        i <= header_from(hunks, header, i) <= hunks.len(),
        header_from(hunks, header, i) < hunks.len() ==> hunks[header_from(
            hunks,
            header,
            i,
        )].header == header,
        forall|j: int|
            i <= j < header_from(hunks, header, i) ==> (#[trigger] hunks[j]).header != header,
    decreases hunks.len() - i,
{
    if i < hunks.len() && hunks[i].header != header {
        lemma_header_from(hunks, header, i + 1);
    }
}

/// A header that no hunk has matches nothing, and one that is matched is that of the hunk
/// found: a hunk with another header is never touched.
pub proof fn only_the_named_hunk_is_touched(hunks: Seq<HunkView>, header: Seq<char>)
    ensures
        header_from(hunks, header, 0) == hunks.len() <==> (forall|j: int|
            0 <= j < hunks.len() ==> (#[trigger] hunks[j]).header != header),
        header_from(hunks, header, 0) < hunks.len() ==> hunks[header_from(
            hunks,
            header,
            0,
        )].header == header,
{
    lemma_header_from(hunks, header, 0);
}

/// A patch without lines: the names of the file on both sides, and the header of the hunk. Where
/// the hunk creates the file, there is none on the old side and the mode is told.
pub proof fn a_patch_begins_with_its_headers(
    path: Seq<char>,
    header: Seq<char>,
    mode: Seq<char>,
)
    ensures
        hunk_patch(path, HunkView { header: header.push('\n'), lines: Seq::empty() }, None)
            == "--- a/"@ + path + "\n+++ b/"@ + path + "\n"@ + header.push('\n'),
        hunk_patch(path, HunkView { header: header.push('\n'), lines: Seq::empty() }, Some(mode))
            == "diff --git a/"@ + path + " b/"@ + path + "\nnew file mode "@ + mode
            + "\n--- /dev/null\n+++ b/"@ + path + "\n"@ + header.push('\n'),
        header.len() == 0 || header.last() != '\n' ==> forall|m: Option<Seq<char>>|
            #[trigger] hunk_patch(path, HunkView { header, lines: Seq::empty() }, m)
                == hunk_patch(
                path,
                HunkView { header: header.push('\n'), lines: Seq::empty() },
                m,
            ),
{
    lemma_ended(header);
    lemma_ended(header.push('\n'));
    let lines = Seq::<LineView>::empty();
    let plain = "--- a/"@ + path + "\n+++ b/"@ + path + "\n"@ + header.push('\n');
    assert(hunk_patch(path, HunkView { header: header.push('\n'), lines }, None) =~= plain);
    let new = "diff --git a/"@ + path + " b/"@ + path + "\nnew file mode "@ + mode
        + "\n--- /dev/null\n+++ b/"@ + path + "\n"@ + header.push('\n');
    assert(hunk_patch(path, HunkView { header: header.push('\n'), lines }, Some(mode)) =~= new);
}

proof fn lemma_ended(s: Seq<char>)
    ensures
        ended(s) == (if s.len() > 0 && s.last() == '\n' {
            s
        } else {
            s.push('\n')
        }),
{
    reveal_strlit("\n");
    if s.len() > 0 {
        let end = s.subrange(s.len() - 1, s.len() as int);
        assert(end[0] == s.last());
        assert("\n"@[0] == '\n');
        if s.last() == '\n' {
            assert(end =~= "\n"@);
        }
    }
}

/// Each line of a hunk adds to its patch exactly its origin, its content and the newline that
/// ends it, and after that the mark where its file has no newline there. No line is left out,
/// whatever it holds.
pub proof fn every_line_is_in_the_patch(
    path: Seq<char>,
    header: Seq<char>,
    lines: Seq<LineView>,
    line: LineView,
    mode: Option<Seq<char>>,
)
    ensures
        hunk_patch(path, HunkView { header, lines: lines.push(line) }, mode) == hunk_patch(
            path,
            HunkView { header, lines },
            mode,
        ) + (seq![line.origin] + (if line.content.len() > 0 && line.content.last() == '\n' {
            line.content
        } else {
            line.content.push('\n')
        })) + (if line.no_newline {
            "\\ No newline at end of file\n"@
        } else {
            Seq::empty()
        }),
{
    lemma_ended(line.content);
    assert(lines.push(line).drop_last() =~= lines);
    let before = hunk_patch(path, HunkView { header, lines }, mode);
    let after = hunk_patch(path, HunkView { header, lines: lines.push(line) }, mode);
    assert(after =~= before + patch_line(line));
    if line.no_newline {
        let said = seq![line.origin] + ended(line.content);
        let mark = "\\ No newline at end of file\n"@;
        assert(before + (said + mark) =~= before + said + mark);
    } else {
        assert(before + patch_line(line) =~= before + patch_line(line) + Seq::<char>::empty());
    }
}

/// Whether a text is a single line, which a newline may end.
pub open spec fn is_one_line(s: Seq<char>) -> bool {
    forall|i: int| 0 <= i < s.len() - 1 ==> #[trigger] s[i] != '\n'
}

/// A text without the newline at its end.
pub open spec fn unended(s: Seq<char>) -> Seq<char> {
    if s.len() > 0 && s.last() == '\n' {
        s.drop_last()
    } else {
        s
    }
}

/// Line by line a patch is its two file headers, the header of the hunk, and then one line for
/// each line of the hunk, in order, which begins with its origin and goes on with its content.
pub proof fn a_patch_has_a_line_for_each_line(path: Seq<char>, hunk: HunkView)
    requires
        !path.contains('\n'),
        is_one_line(hunk.header),
        forall|k: int|
            0 <= k < hunk.lines.len() ==> {
                &&& is_one_line((#[trigger] hunk.lines[k]).content)
                &&& hunk.lines[k].origin != '\n'
                &&& !hunk.lines[k].no_newline
            },
    ensures
        text::pieces(hunk_patch(path, hunk, None), '\n') == seq![
            "--- a/"@ + path,
            "+++ b/"@ + path,
            unended(hunk.header),
        ] + Seq::new(
            hunk.lines.len(),
            |k: int| seq![hunk.lines[k].origin] + unended(hunk.lines[k].content),
        ) + seq![Seq::<char>::empty()],
    decreases hunk.lines.len(),
{
    let patch = hunk_patch(path, hunk, None);
    let none = Seq::<char>::empty();
    if hunk.lines.len() == 0 {
        reveal_strlit("--- a/");
        reveal_strlit("\n+++ b/");
        reveal_strlit("+++ b/");
        reveal_strlit("\n");
        let head = unended(hunk.header);
        assert(!head.contains('\n'));
        lemma_ended(hunk.header);
        assert(ended(hunk.header) =~= head + seq!['\n']);
        let (old, new) = ("--- a/"@ + path, "+++ b/"@ + path);
        assert(!old.contains('\n')) by {
            assert(forall|i: int| 0 <= i < old.len() ==> old[i] == "--- a/"@[i] || path.contains(
                old[i],
            ));
        }
        assert(!new.contains('\n')) by {
            assert(forall|i: int| 0 <= i < new.len() ==> new[i] == "+++ b/"@[i] || path.contains(
                new[i],
            ));
        }
        let nl = seq!['\n'];
        assert(patch =~= old + nl + (new + nl + (head + nl + none)));
        text::lemma_pieces_concat(old, '\n', new + nl + (head + nl + none));
        text::lemma_pieces_concat(new, '\n', head + nl + none);
        text::lemma_pieces_concat(head, '\n', none);
        text::lemma_one_piece(old, '\n');
        text::lemma_one_piece(new, '\n');
        text::lemma_one_piece(head, '\n');
        text::lemma_one_piece(none, '\n');
        assert(text::pieces(patch, '\n') =~= seq![old, new, head] + Seq::new(
            0,
            |k: int| seq![hunk.lines[k].origin] + unended(hunk.lines[k].content),
        ) + seq![none]);
    } else {
        let rest = HunkView { header: hunk.header, lines: hunk.lines.drop_last() };
        let line = hunk.lines.last();
        assert(hunk.lines[hunk.lines.len() - 1] == line);
        assert forall|k: int| 0 <= k < rest.lines.len() implies {
            &&& is_one_line((#[trigger] rest.lines[k]).content)
            &&& rest.lines[k].origin != '\n'
            &&& !rest.lines[k].no_newline
        } by {
            assert(rest.lines[k] == hunk.lines[k]);
        }
        a_patch_has_a_line_for_each_line(path, rest);
        every_line_is_in_the_patch(path, hunk.header, rest.lines, line, None);
        assert(rest.lines.push(line) =~= hunk.lines);
        let shown = seq![line.origin] + unended(line.content);
        assert(!shown.contains('\n')) by {
            assert forall|i: int| 0 <= i < shown.len() implies shown[i] != '\n' by {
                if i > 0 {
                    assert(shown[i] == line.content[i - 1]);
                }
            }
        }
        let before = hunk_patch(path, rest, None);
        lemma_patch_is_ended(path, rest);
        let q = before.drop_last();
        let nl = seq!['\n'];
        assert(before =~= q + nl + none);
        assert(patch =~= q + nl + (shown + nl + none));
        text::lemma_pieces_concat(q, '\n', none);
        text::lemma_pieces_concat(q, '\n', shown + nl + none);
        text::lemma_pieces_concat(shown, '\n', none);
        text::lemma_one_piece(shown, '\n');
        text::lemma_one_piece(none, '\n');
        let (a, b) = (text::pieces(q, '\n'), text::pieces(before, '\n'));
        assert(a =~= b.drop_last());
        assert(text::pieces(patch, '\n') =~= seq![
            "--- a/"@ + path,
            "+++ b/"@ + path,
            unended(hunk.header),
        ] + Seq::new(
            hunk.lines.len(),
            |k: int| seq![hunk.lines[k].origin] + unended(hunk.lines[k].content),
        ) + seq![none]);
    }
}

proof fn lemma_patch_is_ended(path: Seq<char>, hunk: HunkView)
    ensures
        hunk_patch(path, hunk, None).len() > 0,
        hunk_patch(path, hunk, None).last() == '\n',
    decreases hunk.lines.len(),
{
    if hunk.lines.len() == 0 {
        lemma_ended(hunk.header);
    } else {
        let line = hunk.lines.last();
        every_line_is_in_the_patch(path, hunk.header, hunk.lines.drop_last(), line, None);
        assert(hunk.lines.drop_last().push(line) =~= hunk.lines);
        reveal_strlit("\\ No newline at end of file\n");
    }
}

/// What changes the index names it, and what takes a change back is applied in reverse: staging
/// and unstaging work on the index, unstaging and discarding take back.
pub proof fn actions_differ_in_what_they_change(action: HunkAction)
    ensures
        action_args(action).len() > 0,
        action_args(action).first() == "apply"@,
        action_args(action).last() == "-"@,
        action_args(action).contains("--unidiff-zero"@),
        action_args(action).contains("--cached"@) <==> action is Stage || action is Unstage,
        action_args(action).contains("--reverse"@) <==> action is Unstage || action is Discard,
{
    reveal_strlit("apply");
    reveal_strlit("-");
    reveal_strlit("--cached");
    reveal_strlit("--reverse");
    reveal_strlit("--unidiff-zero");
    let args = action_args(action);
    let zero = "--unidiff-zero"@;
    assert("--cached"@.len() == 8 && "--reverse"@.len() == 9 && zero.len() == 14);
    assert(args[args.len() - 2] == zero);
    match action {
        HunkAction::Stage => {
            assert(args[1] == "--cached"@);
        },
        HunkAction::Unstage => {
            assert(args[1] == "--cached"@);
            assert(args[2] == "--reverse"@);
        },
        HunkAction::Discard => {
            assert(args[1] == "--reverse"@);
        },
    }
}

/// The text for a git command that did not do what was asked of it.
pub open spec fn action_failed(action: HunkAction, stderr: Seq<char>) -> Seq<char> {
    match action {
        HunkAction::Stage => "Failed to stage hunk: "@ + stderr,
        HunkAction::Unstage => "Failed to unstage hunk: "@ + stderr,
        HunkAction::Discard => "Failed to discard hunk: "@ + stderr,
    }
}

/// What the end of the git command for an action means.
pub fn hunk_result(action: HunkAction, success: bool, stderr: &str) -> (r: Result<(), String>)
    ensures
        r is Ok <==> success,
        r is Err ==> r->Err_0@ == action_failed(action, stderr@),
{
    if success {
        return Ok(());
    }
    let mut s = match action {
        HunkAction::Stage => "Failed to stage hunk: ".to_owned(),
        HunkAction::Unstage => "Failed to unstage hunk: ".to_owned(),
        HunkAction::Discard => "Failed to discard hunk: ".to_owned(),
    };
    s.append(stderr);
    Err(s)
}

/// Of hunks with the same header the first is meant.
pub proof fn the_first_hunk_with_the_header_is_meant(
    hunks: Seq<HunkView>,
    header: Seq<char>,
    from: int,
    i: int,
)
    requires
        0 <= from <= i <= hunks.len(),
        forall|j: int| from <= j < i ==> (#[trigger] hunks[j]).header != header,
        i < hunks.len() ==> hunks[i].header == header,
    ensures
        header_from(hunks, header, from) == i,
    decreases i - from,
{
    if from < i {
        the_first_hunk_with_the_header_is_meant(hunks, header, from + 1, i);
    }
}

/// A new file keeps what it is: a link is a link, and what can be run can be run.
pub proof fn new_files_keep_what_they_are(meta: FileMeta)
    ensures
        meta.is_symlink ==> mode_text(Some(meta)) == "120000"@,
        !meta.is_symlink && meta.is_executable ==> mode_text(Some(meta)) == "100755"@,
        !meta.is_symlink && !meta.is_executable ==> mode_text(Some(meta)) == "100644"@,
        mode_text(None) == "100644"@,
{
}

} // verus!
