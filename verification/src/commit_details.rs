//! What is shown of the commit that is selected.

use crate::git::diff::DiffFile;
use crate::git::{self, CommitSubmoduleEntry, FullCommitInfo};
use crate::text::{self, dec_string, joined, lines_of, push_dec, trimmed};
use vstd::prelude::*;
use vstd::string::*;

verus! {

/// What was read of the commit that is selected.
pub struct CommitDetail {
    pub info: FullCommitInfo,
    pub files: Vec<DiffFile>,
    pub submodule_entries: Vec<CommitSubmoduleEntry>,
}

/// What the pane shows.
pub enum DetailsPane {
    /// Nothing is there to show; this is said instead.
    Placeholder(String),
    Details(Details),
}

/// A line of the list of files.
pub struct FileRow {
    pub path: String,
    pub key: String,
    /// Lines added and deleted; none where the file was only renamed.
    pub stats: Option<(String, String)>,
}

/// How a commit pins a submodule.
pub enum PinText {
    /// It pins what its parent pinned.
    Same(String),
    /// It moves the pin from one commit to another.
    Moved(String, String),
    /// It adds the submodule.
    New(String),
}

/// A line of the list of submodules.
pub struct SubmoduleRow {
    pub name: String,
    /// Whether the name stands out.
    pub changed: bool,
    pub pin: PinText,
    pub key: String,
    pub tooltip: String,
}

/// What is shown of a commit.
pub struct Details {
    pub short_id: String,
    pub parents: String,
    pub author: String,
    pub subject: String,
    /// The body, where it says something.
    pub body: Option<String>,
    pub files_title: String,
    pub files_total: String,
    pub files: Vec<FileRow>,
    /// The title of the list of submodules and its lines, where there are any.
    pub submodules: Option<(String, Vec<SubmoduleRow>)>,
}

/// The parents of a commit.
pub open spec fn parents_text(ids: Seq<Seq<char>>) -> Seq<char> {
    if ids.len() == 0 {
        "(root commit)"@
    } else {
        "Parents: "@ + text::join(ids, ", "@)
    }
}

/// Lines, each with its end.
pub open spec fn lines_text(lines: Seq<Seq<char>>) -> Seq<char>
    decreases lines.len(),
{
    if lines.len() == 0 {
        Seq::empty()
    } else {
        (lines_text(lines.drop_last()) + lines.last()).push('\n')
    }
}

/// The subject of a message: its first line.
pub open spec fn subject_of(msg: Seq<char>) -> Seq<char> {
    let lines = text::lines(msg);
    if lines.len() == 0 {
        text::trim(""@)
    } else {
        text::trim(lines[0])
    }
}

/// The index of the first empty line from `i` on, or the number of lines.
pub open spec fn empty_from(lines: Seq<Seq<char>>, i: int) -> int
    decreases lines.len() - i,
{
    if i >= lines.len() {
        lines.len() as int
    } else if lines[i].len() == 0 {
        i
    } else {
        empty_from(lines, i + 1)
    }
}

/// The lines after the first empty one.
pub open spec fn after_empty(lines: Seq<Seq<char>>) -> Seq<Seq<char>> {
    let n = empty_from(lines, 0);
    if n < lines.len() {
        lines.skip(n + 1)
    } else {
        Seq::empty()
    }
}

/// The body of a message: everything after its first empty line.
pub open spec fn body_of(msg: Seq<char>) -> Seq<char> {
    text::trim(lines_text(after_empty(text::lines(msg))))
}

fn find_empty(lines: &Vec<String>) -> (r: usize)
    ensures
        r <= lines.len(),
        r == empty_from(text::views(lines@), 0),
{
    let ghost v = text::views(lines@);
    let mut i: usize = 0;
    while i < lines.len() && !lines[i].as_str().is_empty()
        invariant
            i <= lines.len(),
            v == text::views(lines@),
            empty_from(v, 0) == empty_from(v, i as int),
        decreases lines.len() - i,
    {
        assert(v[i as int] == lines@[i as int]@);
        i = i + 1;
    }
    if i < lines.len() {
        assert(v[i as int] == lines@[i as int]@);
    }
    i
}

/// Split a commit message into (subject, body). Body is everything
/// after the first empty line, trimmed.
pub fn split_message(msg: &str) -> (r: (String, String))
    ensures
        r.0@ == subject_of(msg@),
        r.1@ == body_of(msg@),
{
    let lines = lines_of(msg);
    let ghost v = text::views(lines@);
    let ghost rest_lines = after_empty(v);
    let subject = if lines.len() == 0 {
        trimmed("")
    } else {
        trimmed(lines[0].as_str())
    };
    let mut rest = String::new();
    assert(rest@ =~= lines_text(rest_lines.take(0)));
    let empty: usize = find_empty(&lines);
    if empty < lines.len() {
        let mut i: usize = empty + 1;
        while i < lines.len()
            invariant
                empty < i <= lines.len(),
                v == text::views(lines@),
                rest_lines == v.skip(empty + 1),
                rest@ == lines_text(rest_lines.take(i - empty - 1)),
            decreases lines.len() - i,
        {
            proof {
                let k = i - empty - 1;
                assert(rest_lines.take(k + 1).drop_last() =~= rest_lines.take(k));
                assert(rest_lines.take(k + 1).last() == lines@[i as int]@);
            }
            rest.append(lines[i].as_str());
            rest.push('\n');
            i = i + 1;
        }
    }
    assert(rest_lines.take(rest_lines.len() as int) =~= rest_lines);
    (subject, trimmed(rest.as_str()))
}

/// A message in the usual form, a subject, an empty line and a body, is split there.
pub proof fn body_follows_the_empty_line(subject: Seq<char>, body: Seq<Seq<char>>)
    requires
        subject.len() > 0,
    ensures
        after_empty(seq![subject, Seq::<char>::empty()] + body) == body,
{
    let lines = seq![subject, Seq::<char>::empty()] + body;
    assert(lines[0] == subject && lines[1].len() == 0);
    assert(empty_from(lines, 1) == 1);
    assert(empty_from(lines, 0) == 1);
    assert(lines.skip(2) =~= body);
}

/// How many lines all files add.
pub open spec fn total_additions(files: Seq<DiffFile>) -> nat
    decreases files.len(),
{
    if files.len() == 0 {
        0
    } else {
        total_additions(files.drop_last()) + files.last().additions as nat
    }
}

/// How many lines all files delete.
pub open spec fn total_deletions(files: Seq<DiffFile>) -> nat
    decreases files.len(),
{
    if files.len() == 0 {
        0
    } else {
        total_deletions(files.drop_last()) + files.last().deletions as nat
    }
}

proof fn lemma_totals_grow(files: Seq<DiffFile>, i: int)
    requires
        0 <= i <= files.len(),
    ensures
        total_additions(files.take(i)) <= total_additions(files),
        total_deletions(files.take(i)) <= total_deletions(files),
    decreases files.len(),
{
    if i < files.len() {
        assert(files.drop_last().take(i) =~= files.take(i));
        lemma_totals_grow(files.drop_last(), i);
    } else {
        assert(files.take(i) =~= files);
    }
}

fn sum_files(files: &Vec<DiffFile>) -> (r: (usize, usize))
    requires
        total_additions(files@) <= usize::MAX,
        total_deletions(files@) <= usize::MAX,
    ensures
        r.0 == total_additions(files@),
        r.1 == total_deletions(files@),
{
    let mut a: usize = 0;
    let mut d: usize = 0;
    let mut i: usize = 0;
    while i < files.len()
        invariant
            i <= files.len(),
            total_additions(files@) <= usize::MAX,
            total_deletions(files@) <= usize::MAX,
            a == total_additions(files@.take(i as int)),
            d == total_deletions(files@.take(i as int)),
        decreases files.len() - i,
    {
        proof {
            assert(files@.take(i + 1).drop_last() =~= files@.take(i as int));
            assert(files@.take(i + 1).last() == files@[i as int]);
            lemma_totals_grow(files@, i + 1);
        }
        a = a + files[i].additions;
        d = d + files[i].deletions;
        i = i + 1;
    }
    assert(files@.take(files@.len() as int) =~= files@);
    (a, d)
}

/// Whether a line is that of a file.
pub open spec fn shows_file(r: FileRow, f: DiffFile) -> bool {
    &&& r.path@ == f.path@
    &&& r.key@ == "commit_file:"@ + f.path@
    &&& match r.stats {
        Some((a, d)) => {
            &&& f.additions != 0 || f.deletions != 0
            &&& a@ == "+"@ + text::dec(f.additions as nat)
            &&& d@ == "-"@ + text::dec(f.deletions as nat)
        },
        None => f.additions == 0 && f.deletions == 0,
    }
}

/// The line of a file.
pub fn file_row(f: &DiffFile) -> (r: FileRow)
    ensures
        shows_file(r, *f),
{
    let mut key = "commit_file:".to_owned();
    key.append(f.path.as_str());
    let stats = if f.additions == 0 && f.deletions == 0 {
        None
    } else {
        let mut a = "+".to_owned();
        push_dec(&mut a, f.additions as u64);
        let mut d = "-".to_owned();
        push_dec(&mut d, f.deletions as u64);
        Some((a, d))
    };
    FileRow { path: f.path.clone(), key, stats }
}

/// How many entries changed.
pub open spec fn changed_entries(entries: Seq<CommitSubmoduleEntry>) -> nat
    decreases entries.len(),
{
    if entries.len() == 0 {
        0
    } else {
        changed_entries(entries.drop_last()) + if entries.last().changed {
            1nat
        } else {
            0nat
        }
    }
}

/// The title of the list of submodules.
pub open spec fn submodules_title(entries: Seq<CommitSubmoduleEntry>) -> Seq<char> {
    let n = changed_entries(entries);
    if n > 0 {
        "Submodules ("@ + text::dec(n) + " changed)"@
    } else {
        "Submodules ("@ + text::dec(entries.len()) + ")"@
    }
}

/// Whether a line is that of a submodule.
pub open spec fn shows_submodule(r: SubmoduleRow, e: CommitSubmoduleEntry) -> bool {
    &&& r.name@ == e.name@
    &&& r.changed == e.changed
    &&& r.key@ == "submodule:open:"@ + e.path@
    &&& r.tooltip@ == "path: "@ + e.path@
    &&& match r.pin {
        PinText::Same(s) => !e.changed && s@ == e.pinned_oid.short(),
        PinText::Moved(a, b) => {
            &&& e.changed
            &&& e.parent_oid is Some
            &&& a@ == e.parent_oid->0.short()
            &&& b@ == e.pinned_oid.short()
        },
        PinText::New(s) => e.changed && e.parent_oid is None && s@ == "new \u{00b7} "@
            + e.pinned_oid.short(),
    }
}

/// The line of a submodule.
pub fn submodule_entry_row(e: &CommitSubmoduleEntry) -> (r: SubmoduleRow)
    ensures
        shows_submodule(r, *e),
{
    let pinned = e.pinned_oid.short_id();
    let pin = if e.changed {
        match e.parent_oid {
            Some(parent) => PinText::Moved(parent.short_id(), pinned),
            None => {
                let mut s = "new \u{00b7} ".to_owned();
                s.append(pinned.as_str());
                PinText::New(s)
            },
        }
    } else {
        PinText::Same(pinned)
    };
    let mut key = "submodule:open:".to_owned();
    key.append(e.path.as_str());
    let mut tooltip = "path: ".to_owned();
    tooltip.append(e.path.as_str());
    SubmoduleRow { name: e.name.clone(), changed: e.changed, pin, key, tooltip }
}

/// The title of the list of submodules and its lines.
pub fn submodules_card(entries: &Vec<CommitSubmoduleEntry>) -> (r: (String, Vec<SubmoduleRow>))
    ensures
        r.0@ == submodules_title(entries@),
        r.1@.len() == entries@.len(),
        forall|i: int|
            0 <= i < entries@.len() ==> shows_submodule(#[trigger] r.1@[i], entries@[i]),
{
    let mut rows: Vec<SubmoduleRow> = Vec::new();
    let mut n: usize = 0;
    let mut i: usize = 0;
    while i < entries.len()
        invariant
            i <= entries.len(),
            n <= i,
            n == changed_entries(entries@.take(i as int)),
            rows@.len() == i,
            forall|k: int| 0 <= k < i ==> shows_submodule(#[trigger] rows@[k], entries@[k]),
        decreases entries.len() - i,
    {
        proof {
            assert(entries@.take(i + 1).drop_last() =~= entries@.take(i as int));
            assert(entries@.take(i + 1).last() == entries@[i as int]);
        }
        if entries[i].changed {
            n = n + 1;
        }
        rows.push(submodule_entry_row(&entries[i]));
        i = i + 1;
    }
    assert(entries@.take(entries@.len() as int) =~= entries@);
    let mut title = "Submodules (".to_owned();
    if n > 0 {
        push_dec(&mut title, n as u64);
        title.append(" changed)");
    } else {
        push_dec(&mut title, entries.len() as u64);
        title.append(")");
    }
    (title, rows)
}

/// Whether details are those of a commit, as seen at `now`.
pub open spec fn shows_detail(r: Details, d: CommitDetail, now: int) -> bool {
    &&& r.short_id@ == d.info.short_id@
    &&& r.parents@ == parents_text(text::views(d.info.parent_short_ids@))
    &&& r.author@ == d.info.author_name@ + " <"@ + d.info.author_email@ + "> · "@
        + git::relative_time(now - d.info.author_time)
    &&& r.subject@ == subject_of(d.info.full_message@)
    &&& text::opt_view(r.body) == (if text::trim(body_of(d.info.full_message@)).len() > 0 {
        Some(body_of(d.info.full_message@))
    } else {
        None
    })
    &&& r.files_title@ == text::dec(d.files@.len()) + " files"@
    &&& r.files_total@ == "+"@ + text::dec(total_additions(d.files@)) + "  -"@ + text::dec(
        total_deletions(d.files@),
    )
    &&& r.files@.len() == d.files@.len()
    &&& forall|i: int| 0 <= i < d.files@.len() ==> shows_file(#[trigger] r.files@[i], d.files@[i])
    &&& match r.submodules {
        None => d.submodule_entries@.len() == 0,
        Some((title, rows)) => {
            &&& d.submodule_entries@.len() > 0
            &&& title@ == submodules_title(d.submodule_entries@)
            &&& rows@.len() == d.submodule_entries@.len()
            &&& forall|i: int|
                0 <= i < rows@.len() ==> shows_submodule(
                    #[trigger] rows@[i],
                    d.submodule_entries@[i],
                )
        },
    }
}

/// What is shown of a commit.
pub fn details_pane(d: &CommitDetail, now: i64) -> (r: Details)
    requires
        total_additions(d.files@) <= usize::MAX,
        total_deletions(d.files@) <= usize::MAX,
    ensures
        shows_detail(r, *d, now as int),
{
    let parents = if d.info.parent_short_ids.len() == 0 {
        "(root commit)".to_owned()
    } else {
        let mut s = "Parents: ".to_owned();
        s.append(joined(&d.info.parent_short_ids, ", ").as_str());
        s
    };
    let (subject, body) = split_message(d.info.full_message.as_str());
    let said = trimmed(body.as_str());
    let shown_body = if said.as_str().is_empty() {
        None
    } else {
        Some(body)
    };
    let mut author = d.info.author_name.clone();
    author.append(" <");
    author.append(d.info.author_email.as_str());
    author.append("> · ");
    author.append(d.info.relative_author_time(now).as_str());
    let mut files_title = dec_string(d.files.len() as u64);
    files_title.append(" files");
    let (a, del) = sum_files(&d.files);
    let mut files_total = "+".to_owned();
    push_dec(&mut files_total, a as u64);
    files_total.append("  -");
    push_dec(&mut files_total, del as u64);
    let mut files: Vec<FileRow> = Vec::new();
    let mut i: usize = 0;
    while i < d.files.len()
        invariant
            i <= d.files.len(),
            files@.len() == i,
            forall|k: int| 0 <= k < i ==> shows_file(#[trigger] files@[k], d.files@[k]),
        decreases d.files.len() - i,
    {
        files.push(file_row(&d.files[i]));
        i = i + 1;
    }
    let submodules = if d.submodule_entries.len() == 0 {
        None
    } else {
        Some(submodules_card(&d.submodule_entries))
    };
    Details {
        short_id: d.info.short_id.clone(),
        parents,
        author,
        subject,
        body: shown_body,
        files_title,
        files_total,
        files,
        submodules,
    }
}

/// What the pane shows: the commit that is selected, once it was read.
pub fn commit_details_pane(selected: bool, detail: Option<&CommitDetail>, now: i64) -> (r:
    DetailsPane)
    requires
        match detail {
            Some(d) => total_additions(d.files@) <= usize::MAX && total_deletions(d.files@)
                <= usize::MAX,
            None => true,
        },
    ensures
        match r {
            DetailsPane::Details(x) => selected && detail is Some && shows_detail(
                x,
                *detail->0,
                now as int,
            ),
            DetailsPane::Placeholder(s) => if selected {
                detail is None && s@ == "Loading…"@
            } else {
                s@ == "Select a commit to inspect."@
            },
        },
{
    if !selected {
        return DetailsPane::Placeholder("Select a commit to inspect.".to_owned());
    }
    match detail {
        Some(d) => DetailsPane::Details(details_pane(d, now)),
        None => DetailsPane::Placeholder("Loading…".to_owned()),
    }
}

/// Whether `n` is the first empty one of `lines`.
pub open spec fn first_empty(lines: Seq<Seq<char>>, n: int) -> bool {
    &&& 0 <= n < lines.len()
    &&& lines[n].len() == 0
    &&& forall|i: int| 0 <= i < n ==> (#[trigger] lines[i]).len() > 0
}

proof fn lemma_empty_from(lines: Seq<Seq<char>>, from: int, n: int)
    requires
        0 <= from <= n <= lines.len(),
        forall|i: int| from <= i < n ==> (#[trigger] lines[i]).len() > 0,
        n < lines.len() ==> lines[n].len() == 0,
    ensures
        empty_from(lines, from) == n,
    decreases n - from,
{
    if from < n {
        lemma_empty_from(lines, from + 1, n);
    }
}

/// The body of a message is all that follows its first empty line, each line on a line of its
/// own, without the white space around it; a message without an empty line has none.
pub proof fn the_body_is_what_follows_the_empty_line(msg: Seq<char>, n: int)
    ensures
        first_empty(text::lines(msg), n) ==> body_of(msg) == text::trim(
            lines_text(text::lines(msg).skip(n + 1)),
        ),
        (forall|i: int| 0 <= i < text::lines(msg).len() ==> (#[trigger] text::lines(msg)[i]).len() > 0)
            ==> body_of(msg).len() == 0,
{
    let lines = text::lines(msg);
    if first_empty(lines, n) {
        lemma_empty_from(lines, 0, n);
    }
    if forall|i: int| 0 <= i < lines.len() ==> (#[trigger] lines[i]).len() > 0 {
        lemma_empty_from(lines, 0, lines.len() as int);
    }
}

/// Lines are written one after the other, each with its newline.
pub proof fn each_line_is_written_with_its_newline(lines: Seq<Seq<char>>, line: Seq<char>)
    ensures
        lines_text(lines.push(line)) == lines_text(lines) + line + seq!['\n'],
        lines_text(Seq::empty()) == Seq::<char>::empty(),
{
    assert(lines.push(line).drop_last() =~= lines);
    assert(lines_text(lines.push(line)) =~= lines_text(lines) + line + seq!['\n']);
}

/// The subject is the first line of the message, without the white space around it.
pub proof fn the_subject_is_the_first_line(first: Seq<char>, rest: Seq<char>)
    requires
        !first.contains('\n'),
        !first.contains('\r'),
    ensures
        subject_of(first + seq!['\n'] + rest) == text::trim(first),
{
    text::lemma_lines_after(first, rest);
    if first.len() > 0 {
        assert(first.contains(first.last()));
    }
}

/// The totals are the sums over all files: each file adds the lines it has.
pub proof fn the_totals_are_sums(files: Seq<DiffFile>, f: DiffFile)
    ensures
        total_additions(files.push(f)) == total_additions(files) + f.additions,
        total_deletions(files.push(f)) == total_deletions(files) + f.deletions,
        total_additions(Seq::empty()) == 0 && total_deletions(Seq::empty()) == 0,
{
    assert(files.push(f).drop_last() =~= files);
}

/// The title counts the submodules that changed, or all where none did.
pub proof fn the_title_counts_what_changed(entries: Seq<CommitSubmoduleEntry>)
    ensures
        changed_entries(entries) == entries.filter(|e: CommitSubmoduleEntry| e.changed).len(),
    decreases entries.len(),
{
    reveal(Seq::filter);
    if entries.len() > 0 {
        the_title_counts_what_changed(entries.drop_last());
    }
}

/// The pane tells of the commit: every file has its line, in order, with the lines added and
/// deleted wherever there are any; every submodule has its line, with the old and the new pin
/// wherever it moved; and the parents are all named.
pub proof fn the_pane_tells_of_the_commit(r: Details, d: CommitDetail, now: int)
    requires
        shows_detail(r, d, now),
    ensures
        r.short_id@ == d.info.short_id@,
        r.files@.len() == d.files@.len(),
        forall|i: int|
            0 <= i < d.files@.len() ==> (#[trigger] r.files@[i]).path@ == d.files@[i].path@ && (
            d.files@[i].additions + d.files@[i].deletions > 0 ==> match r.files@[i].stats {
                Some((added, deleted)) => added@ == "+"@ + text::dec(d.files@[i].additions as nat)
                    && deleted@ == "-"@ + text::dec(d.files@[i].deletions as nat),
                None => false,
            }),
        d.submodule_entries@.len() > 0 ==> r.submodules is Some && (r.submodules->0).1.len()
            == d.submodule_entries@.len() && forall|i: int|
            0 <= i < d.submodule_entries@.len() ==> {
                let e = d.submodule_entries@[i];
                let row = #[trigger] (r.submodules->0).1[i];
                &&& row.name@ == e.name@
                &&& !e.changed ==> row.pin is Same
                &&& e.changed && e.parent_oid is Some ==> row.pin is Moved && row.pin->Moved_0@
                    == e.parent_oid->0.short() && row.pin->Moved_1@ == e.pinned_oid.short()
                &&& e.changed && e.parent_oid is None ==> row.pin is New
            },
        d.info.parent_short_ids@.len() == 1 ==> r.parents@ == "Parents: "@
            + d.info.parent_short_ids@[0]@,
        d.info.parent_short_ids@.len() == 2 ==> r.parents@ == "Parents: "@ + (
        d.info.parent_short_ids@[0]@ + ", "@ + d.info.parent_short_ids@[1]@),
{
    let ids = text::views(d.info.parent_short_ids@);
    if ids.len() == 1 {
        assert(ids[0] == d.info.parent_short_ids@[0]@);
    }
    if ids.len() == 2 {
        assert(ids[0] == d.info.parent_short_ids@[0]@ && ids[1] == d.info.parent_short_ids@[1]@);
        assert(ids.drop_last()[0] == ids[0] && ids.drop_last().len() == 1);
        assert(text::join(ids.drop_last(), ", "@) == ids[0]);
    }
}

} // verus!
