//! Diffs: files, hunks and lines, and what differs within a changed line.

use crate::text::{self, same, trimmed_end, trimmed_end_char};
use vstd::prelude::*;
use vstd::string::*;
use vstd::utf8::*;

verus! {

/// A file changed in a diff, with its hunks
#[derive(Debug)]
pub struct DiffFile {
    pub path: String,
    pub hunks: Vec<DiffHunk>,
    pub additions: usize,
    pub deletions: usize,
}

/// A hunk within a diff file
#[derive(Debug)]
pub struct DiffHunk {
    pub header: String,
    pub lines: Vec<DiffLine>,
}

/// A single line in a diff hunk
#[derive(Debug)]
pub struct DiffLine {
    pub origin: char,
    pub content: String,
    pub old_lineno: Option<u32>,
    pub new_lineno: Option<u32>,
    /// Byte ranges within `content` that represent intra-line changes (word-level highlight).
    /// Empty means the entire line is changed (no paired line found for comparison).
    pub highlight_ranges: Vec<(usize, usize)>,
    /// Whether the line is the last of its file and no newline ends it.
    pub no_newline: bool,
}

/// A line by its views.
#[verifier::ext_equal]
pub struct LineView {
    pub origin: char,
    pub content: Seq<char>,
    pub old_lineno: Option<u32>,
    pub new_lineno: Option<u32>,
    pub highlight_ranges: Seq<(usize, usize)>,
    pub no_newline: bool,
}

impl View for DiffLine {
    type V = LineView;

    open spec fn view(&self) -> LineView {
        LineView {
            origin: self.origin,
            content: self.content@,
            old_lineno: self.old_lineno,
            new_lineno: self.new_lineno,
            highlight_ranges: self.highlight_ranges@,
            no_newline: self.no_newline,
        }
    }
}

/// A hunk by its views.
#[verifier::ext_equal]
pub struct HunkView {
    pub header: Seq<char>,
    pub lines: Seq<LineView>,
}

impl View for DiffHunk {
    type V = HunkView;

    open spec fn view(&self) -> HunkView {
        HunkView { header: self.header@, lines: text::views(self.lines@) }
    }
}

/// A file by its views.
#[verifier::ext_equal]
pub struct FileView {
    pub path: Seq<char>,
    pub hunks: Seq<HunkView>,
    pub additions: nat,
    pub deletions: nat,
}

impl View for DiffFile {
    type V = FileView;

    open spec fn view(&self) -> FileView {
        FileView {
            path: self.path@,
            hunks: text::views(self.hunks@),
            additions: self.additions as nat,
            deletions: self.deletions as nat,
        }
    }
}

// ---------------------------------------------------------------------------
// Counting
// ---------------------------------------------------------------------------

/// How many of `lines` have the origin `c`.
pub open spec fn origin_count(lines: Seq<LineView>, c: char) -> nat
    decreases lines.len(),
{
    if lines.len() == 0 {
        0
    } else {
        origin_count(lines.drop_last(), c) + if lines.last().origin == c {
            1nat
        } else {
            0nat
        }
    }
}

/// How many lines of `hunks` have the origin `c`.
pub open spec fn hunks_count(hunks: Seq<HunkView>, c: char) -> nat
    decreases hunks.len(),
{
    if hunks.len() == 0 {
        0
    } else {
        hunks_count(hunks.drop_last(), c) + origin_count(hunks.last().lines, c)
    }
}

proof fn lemma_hunks_count_grows(hunks: Seq<HunkView>, c: char, i: int)
    requires
        0 <= i <= hunks.len(),
    ensures
        hunks_count(hunks.take(i), c) <= hunks_count(hunks, c),
    decreases hunks.len() - i,
{
    if i == hunks.len() {
        assert(hunks.take(i) =~= hunks);
    } else {
        assert(hunks.take(i + 1).drop_last() =~= hunks.take(i));
        lemma_hunks_count_grows(hunks, c, i + 1);
    }
}

fn count_origin(lines: &Vec<DiffLine>, c: char) -> (r: usize)
    ensures
        r == origin_count(text::views(lines@), c),
{
    let ghost all = text::views(lines@);
    let mut n: usize = 0;
    let mut i: usize = 0;
    while i < lines.len()
        invariant
            i <= lines.len(),
            n <= i,
            all == text::views(lines@),
            n == origin_count(all.take(i as int), c),
        decreases lines.len() - i,
    {
        assert(all.take(i + 1).drop_last() =~= all.take(i as int));
        assert(all.take(i + 1).last() == lines@[i as int]@);
        if lines[i].origin == c {
            n = n + 1;
        }
        i = i + 1;
    }
    assert(all.take(all.len() as int) =~= all);
    n
}

fn count_hunks(hunks: &Vec<DiffHunk>, c: char) -> (r: usize)
    requires
        hunks_count(text::views(hunks@), c) <= usize::MAX,
    ensures
        r == hunks_count(text::views(hunks@), c),
{
    let ghost all = text::views(hunks@);
    let mut n: usize = 0;
    let mut i: usize = 0;
    while i < hunks.len()
        invariant
            i <= hunks.len(),
            all == text::views(hunks@),
            hunks_count(all, c) <= usize::MAX,
            n == hunks_count(all.take(i as int), c),
        decreases hunks.len() - i,
    {
        proof {
            assert(all.take(i + 1).drop_last() =~= all.take(i as int));
            assert(all.take(i + 1).last() == hunks@[i as int]@);
            lemma_hunks_count_grows(all, c, i + 1);
        }
        n = n + count_origin(&hunks[i].lines, c);
        i = i + 1;
    }
    assert(all.take(all.len() as int) =~= all);
    n
}

impl DiffFile {
    /// Build a DiffFile from a path and hunks, computing addition/deletion counts.
    pub fn from_hunks(path: String, hunks: Vec<DiffHunk>) -> (r: Self)
        requires
            hunks_count(text::views(hunks@), '+') <= usize::MAX,
            hunks_count(text::views(hunks@), '-') <= usize::MAX,
        ensures
            r.path == path,
            r.hunks == hunks,
            r.additions == hunks_count(text::views(hunks@), '+'),
            r.deletions == hunks_count(text::views(hunks@), '-'),
    {
        let additions: usize = count_hunks(&hunks, '+');
        let deletions: usize = count_hunks(&hunks, '-');
        DiffFile { path, hunks, additions, deletions }
    }
}

// ---------------------------------------------------------------------------
// What differs within a line
// ---------------------------------------------------------------------------

/// How many bytes two texts have in common at their start, where they agree up to `i`.
pub open spec fn common_prefix(a: Seq<u8>, b: Seq<u8>, i: int) -> int
    decreases a.len() - i,
{
    if i < a.len() && i < b.len() && a[i] == b[i] {
        common_prefix(a, b, i + 1)
    } else {
        i
    }
}

/// How many bytes two texts have in common at their end, where they agree in the last `k`;
/// their first `p` bytes do not count.
pub open spec fn common_suffix(a: Seq<u8>, b: Seq<u8>, p: int, k: int) -> int
    decreases a.len() - p - k,
{
    if k < a.len() - p && k < b.len() - p && a[a.len() - 1 - k] == b[b.len() - 1 - k] {
        common_suffix(a, b, p, k + 1)
    } else {
        k
    }
}

/// The last character boundary at or before `i`.
pub open spec fn snap_back(bytes: Seq<u8>, i: int) -> int
    decreases i,
{
    if i > 0 && !is_char_boundary(bytes, i) {
        snap_back(bytes, i - 1)
    } else {
        i
    }
}

/// The first character boundary at or after `i`.
pub open spec fn snap_forward(bytes: Seq<u8>, i: int) -> int
    decreases bytes.len() - i,
{
    if i < bytes.len() && !is_char_boundary(bytes, i) {
        snap_forward(bytes, i + 1)
    } else {
        i
    }
}

/// The range from `start` to `end`, widened to whole characters; none where it is empty.
pub open spec fn snapped(bytes: Seq<u8>, start: int, end: int) -> Seq<(usize, usize)> {
    if start < end {
        seq![(snap_back(bytes, start) as usize, snap_forward(bytes, end) as usize)]
    } else {
        Seq::empty()
    }
}

/// The ranges that differ between the bytes of two lines: what is left between their common
/// start and their common end. None where the lines have neither in common, or nothing
/// differs.
pub open spec fn byte_diff(a: Seq<u8>, b: Seq<u8>) -> (Seq<(usize, usize)>, Seq<(usize, usize)>) {
    let p = common_prefix(a, b, 0);
    let s = common_suffix(a, b, p, 0);
    let a_end = a.len() - s;
    let b_end = b.len() - s;
    if p == 0 && s == 0 {
        (Seq::empty(), Seq::empty())
    } else if p >= a_end && p >= b_end {
        (Seq::empty(), Seq::empty())
    } else {
        (snapped(a, p, a_end), snapped(b, p, b_end))
    }
}

/// The ranges that differ between two lines; newlines at their ends do not count.
pub open spec fn line_diff(old: Seq<char>, new: Seq<char>) -> (
    Seq<(usize, usize)>,
    Seq<(usize, usize)>,
) {
    byte_diff(
        encode_utf8(text::trim_end_char(old, '\n')),
        encode_utf8(text::trim_end_char(new, '\n')),
    )
}

proof fn lemma_common_prefix(a: Seq<u8>, b: Seq<u8>, i: int)
    requires
        0 <= i <= a.len(),
        i <= b.len(),
        forall|j: int| 0 <= j < i ==> a[j] == b[j],
    ensures
        i <= common_prefix(a, b, i) <= a.len(),
        common_prefix(a, b, i) <= b.len(),
        forall|j: int| 0 <= j < common_prefix(a, b, i) ==> a[j] == b[j],
    decreases a.len() - i,
{
    if i < a.len() && i < b.len() && a[i] == b[i] {
        lemma_common_prefix(a, b, i + 1);
    }
}

proof fn lemma_common_suffix(a: Seq<u8>, b: Seq<u8>, p: int, k: int)
    requires
        0 <= p <= a.len(),
        p <= b.len(),
        0 <= k <= a.len() - p,
        k <= b.len() - p,
        forall|j: int| a.len() - k <= j < a.len() ==> #[trigger] a[j] == b[j - a.len() + b.len()],
    ensures
        k <= common_suffix(a, b, p, k) <= a.len() - p,
        common_suffix(a, b, p, k) <= b.len() - p,
        forall|j: int|
            a.len() - common_suffix(a, b, p, k) <= j < a.len() ==> #[trigger] a[j] == b[j
                - a.len() + b.len()],
    decreases a.len() - p - k,
{
    if k < a.len() - p && k < b.len() - p && a[a.len() - 1 - k] == b[b.len() - 1 - k] {
        lemma_common_suffix(a, b, p, k + 1);
    }
}

proof fn lemma_snap(bytes: Seq<u8>, i: int)
    requires
        valid_utf8(bytes),
        0 <= i <= bytes.len(),
    ensures
        0 <= snap_back(bytes, i) <= i,
        is_char_boundary(bytes, snap_back(bytes, i)),
    decreases i,
{
    is_char_boundary_start_end_of_seq(bytes);
    if i > 0 && !is_char_boundary(bytes, i) {
        lemma_snap(bytes, i - 1);
    }
}

proof fn lemma_snap_forward(bytes: Seq<u8>, i: int)
    requires
        valid_utf8(bytes),
        0 <= i <= bytes.len(),
    ensures
        i <= snap_forward(bytes, i) <= bytes.len(),
        is_char_boundary(bytes, snap_forward(bytes, i)),
    decreases bytes.len() - i,
{
    is_char_boundary_start_end_of_seq(bytes);
    if i < bytes.len() && !is_char_boundary(bytes, i) {
        lemma_snap_forward(bytes, i + 1);
    }
}

/// Whether `ranges` holds at most one range, which is not empty, lies in `bytes` and cuts no
/// character; and whether `bytes` and `other` agree before it, and after it up to their
/// ends.
pub open spec fn covers(
    ranges: Seq<(usize, usize)>,
    bytes: Seq<u8>,
    other: Seq<u8>,
) -> bool {
    &&& ranges.len() <= 1
    &&& ranges.len() == 1 ==> {
        let (s, e) = ranges[0];
        &&& s < e <= bytes.len()
        &&& is_char_boundary(bytes, s as int)
        &&& is_char_boundary(bytes, e as int)
        &&& forall|j: int| 0 <= j < s ==> j < other.len() && bytes[j] == other[j]
        &&& forall|j: int|
            e <= j < bytes.len() ==> bytes.len() - j <= other.len() && #[trigger] bytes[j]
                == other[j - bytes.len() + other.len()]
    }
}

/// What is highlighted never cuts a character and lies in its line, and outside of it the
/// two lines agree. Lines that are the same have nothing highlighted.
pub proof fn highlights_cover_what_differs(old: Seq<char>, new: Seq<char>)
    requires
        encode_utf8(old).len() <= usize::MAX,
        encode_utf8(new).len() <= usize::MAX,
    ensures
        ({
            let a = encode_utf8(text::trim_end_char(old, '\n'));
            let b = encode_utf8(text::trim_end_char(new, '\n'));
            let (x, y) = line_diff(old, new);
            &&& covers(x, a, b)
            &&& covers(y, b, a)
            &&& a == b ==> x.len() == 0 && y.len() == 0
        }),
{
    let a = encode_utf8(text::trim_end_char(old, '\n'));
    let b = encode_utf8(text::trim_end_char(new, '\n'));
    text::lemma_trim_end_char_shorter(old, '\n');
    text::lemma_trim_end_char_shorter(new, '\n');
    encode_utf8_valid_utf8(text::trim_end_char(old, '\n'));
    encode_utf8_valid_utf8(text::trim_end_char(new, '\n'));
    lemma_common_prefix(a, b, 0);
    let p = common_prefix(a, b, 0);
    lemma_common_suffix(a, b, p, 0);
    let s = common_suffix(a, b, p, 0);
    lemma_snap(a, p);
    lemma_snap(b, p);
    lemma_snap_forward(a, a.len() - s);
    lemma_snap_forward(b, b.len() - s);
    if a == b {
        lemma_prefix_of_same(a, 0);
    }
}

/// Whether a range is the smallest that covers the bytes from `start` to `end` and cuts no
/// character.
pub open spec fn is_widened(bytes: Seq<u8>, range: (usize, usize), start: int, end: int) -> bool {
    &&& 0 <= range.0 <= start
    &&& end <= range.1 <= bytes.len()
    &&& is_char_boundary(bytes, range.0 as int)
    &&& is_char_boundary(bytes, range.1 as int)
    &&& forall|j: int| range.0 < j <= start ==> !is_char_boundary(bytes, j)
    &&& forall|j: int| end <= j < range.1 ==> !is_char_boundary(bytes, j)
}

/// Lines that agree in their first `p` bytes and no further, and beyond these in their last `s`
/// and no further, have highlighted what lies in between: on each side on which something does
/// lie there one range, from the first byte that differs to the start of the common end, widened
/// to whole characters. Lines that agree neither at their start nor at their end have nothing
/// highlighted. Newlines behind the lines play no part.
pub proof fn what_lies_between_is_highlighted(
    old: Seq<char>,
    new: Seq<char>,
    m: nat,
    n: nat,
    p: int,
    s: int,
)
    requires
        old.len() == 0 || old.last() != '\n',
        new.len() == 0 || new.last() != '\n',
        encode_utf8(old).len() <= usize::MAX,
        encode_utf8(new).len() <= usize::MAX,
        0 <= p <= encode_utf8(old).len(),
        p <= encode_utf8(new).len(),
        forall|j: int| 0 <= j < p ==> encode_utf8(old)[j] == encode_utf8(new)[j],
        p == encode_utf8(old).len() || p == encode_utf8(new).len() || encode_utf8(old)[p]
            != encode_utf8(new)[p],
        0 <= s <= encode_utf8(old).len() - p,
        s <= encode_utf8(new).len() - p,
        forall|j: int|
            0 <= j < s ==> #[trigger] encode_utf8(old)[encode_utf8(old).len() - 1 - j]
                == encode_utf8(new)[encode_utf8(new).len() - 1 - j],
        s == encode_utf8(old).len() - p || s == encode_utf8(new).len() - p || encode_utf8(
            old,
        )[encode_utf8(old).len() - 1 - s] != encode_utf8(new)[encode_utf8(new).len() - 1 - s],
    ensures
        ({
            let (a, b) = (encode_utf8(old), encode_utf8(new));
            let (x, y) = line_diff(
                old + Seq::new(m, |i: int| '\n'),
                new + Seq::new(n, |i: int| '\n'),
            );
            &&& p == 0 && s == 0 ==> x.len() == 0 && y.len() == 0
            &&& p > 0 || s > 0 ==> {
                &&& x.len() == if p < a.len() - s {
                    1nat
                } else {
                    0nat
                }
                &&& y.len() == if p < b.len() - s {
                    1nat
                } else {
                    0nat
                }
                &&& x.len() == 1 ==> is_widened(a, x[0], p, a.len() - s)
                &&& y.len() == 1 ==> is_widened(b, y[0], p, b.len() - s)
            }
        }),
{
    let (a, b) = (encode_utf8(old), encode_utf8(new));
    text::lemma_trim_end_char(old, '\n', m);
    text::lemma_trim_end_char(new, '\n', n);
    encode_utf8_valid_utf8(old);
    encode_utf8_valid_utf8(new);
    lemma_prefix_is(a, b, 0, p);
    lemma_suffix_is(a, b, p, 0, s);
    lemma_snap(a, p);
    lemma_snap(b, p);
    lemma_snap_forward(a, a.len() - s);
    lemma_snap_forward(b, b.len() - s);
    lemma_snap_is_nearest(a, p);
    lemma_snap_is_nearest(b, p);
    lemma_snap_forward_is_nearest(a, a.len() - s);
    lemma_snap_forward_is_nearest(b, b.len() - s);
}

proof fn lemma_prefix_is(a: Seq<u8>, b: Seq<u8>, i: int, p: int)
    requires
        0 <= i <= p <= a.len(),
        p <= b.len(),
        forall|j: int| i <= j < p ==> a[j] == b[j],
        p == a.len() || p == b.len() || a[p] != b[p],
    ensures
        common_prefix(a, b, i) == p,
    decreases p - i,
{
    if i < p {
        lemma_prefix_is(a, b, i + 1, p);
    }
}

proof fn lemma_suffix_is(a: Seq<u8>, b: Seq<u8>, p: int, k: int, s: int)
    requires
        0 <= p,
        0 <= k <= s <= a.len() - p,
        s <= b.len() - p,
        forall|j: int| k <= j < s ==> #[trigger] a[a.len() - 1 - j] == b[b.len() - 1 - j],
        s == a.len() - p || s == b.len() - p || a[a.len() - 1 - s] != b[b.len() - 1 - s],
    ensures
        common_suffix(a, b, p, k) == s,
    decreases s - k,
{
    if k < s {
        assert(a[a.len() - 1 - k] == b[b.len() - 1 - k]);
        lemma_suffix_is(a, b, p, k + 1, s);
    }
}

proof fn lemma_snap_is_nearest(bytes: Seq<u8>, i: int)
    ensures
        forall|j: int| snap_back(bytes, i) < j <= i ==> !is_char_boundary(bytes, j),
    decreases i,
{
    if i > 0 && !is_char_boundary(bytes, i) {
        lemma_snap_is_nearest(bytes, i - 1);
    }
}

proof fn lemma_snap_forward_is_nearest(bytes: Seq<u8>, i: int)
    ensures
        forall|j: int| i <= j < snap_forward(bytes, i) ==> !is_char_boundary(bytes, j),
    decreases bytes.len() - i,
{
    if i < bytes.len() && !is_char_boundary(bytes, i) {
        lemma_snap_forward_is_nearest(bytes, i + 1);
    }
}

proof fn lemma_prefix_of_same(a: Seq<u8>, i: int)
    requires
        0 <= i <= a.len(),
    ensures
        common_prefix(a, a, i) == a.len(),
    decreases a.len() - i,
{
    if i < a.len() {
        lemma_prefix_of_same(a, i + 1);
    }
}

fn snap_to_char_boundaries(s: &str, start: usize, end: usize) -> (r: (usize, usize))
    requires
        start <= encode_utf8(s@).len(),
        end <= encode_utf8(s@).len(),
    ensures
        r.0 == snap_back(encode_utf8(s@), start as int),
        r.1 == snap_forward(encode_utf8(s@), end as int),
{
    let ghost bytes = encode_utf8(s@);
    let len: usize = s.as_bytes().len();
    let mut a: usize = start;
    while a > 0 && !s.is_char_boundary(a)
        invariant
            bytes == encode_utf8(s@),
            snap_back(bytes, start as int) == snap_back(bytes, a as int),
        decreases a,
    {
        a = a - 1;
    }
    let mut b: usize = end;
    while b < len && !s.is_char_boundary(b)
        invariant
            bytes == encode_utf8(s@),
            len == bytes.len(),
            b <= len,
            snap_forward(bytes, end as int) == snap_forward(bytes, b as int),
        decreases len - b,
    {
        b = b + 1;
    }
    (a, b)
}

fn range_in(s: &str, start: usize, end: usize) -> (r: Vec<(usize, usize)>)
    requires
        start <= encode_utf8(s@).len(),
        end <= encode_utf8(s@).len(),
    ensures
        r@ == snapped(encode_utf8(s@), start as int, end as int),
{
    let mut r: Vec<(usize, usize)> = Vec::new();
    if start < end {
        let pair = snap_to_char_boundaries(s, start, end);
        r.push(pair);
    }
    assert(r@ =~= snapped(encode_utf8(s@), start as int, end as int));
    r
}

/// Compute the differing byte ranges between two strings.
/// Returns (old_ranges, new_ranges) where each range is a (start, end) byte offset
/// into the respective string's content (excluding trailing newline).
pub fn diff_chars(old: &str, new: &str) -> (r: (Vec<(usize, usize)>, Vec<(usize, usize)>))
    ensures
        r.0@ == line_diff(old@, new@).0,
        r.1@ == line_diff(old@, new@).1,
{
    let old = trimmed_end_char(old, '\n');
    let new = trimmed_end_char(new, '\n');
    let a = old.as_str().as_bytes();
    let b = new.as_str().as_bytes();
    let mut p: usize = 0;
    while p < a.len() && p < b.len() && a[p] == b[p]
        invariant
            p <= a.len(),
            p <= b.len(),
            common_prefix(a@, b@, 0) == common_prefix(a@, b@, p as int),
        decreases a.len() - p,
    {
        p = p + 1;
    }
    let mut s: usize = 0;
    while s < a.len() - p && s < b.len() - p && a[a.len() - 1 - s] == b[b.len() - 1 - s]
        invariant
            p <= a.len(),
            p <= b.len(),
            s <= a.len() - p,
            s <= b.len() - p,
            common_suffix(a@, b@, p as int, 0) == common_suffix(a@, b@, p as int, s as int),
        decreases a.len() - p - s,
    {
        s = s + 1;
    }
    let a_end: usize = a.len() - s;
    let b_end: usize = b.len() - s;
    if p == 0 && s == 0 {
        return (Vec::new(), Vec::new());
    }
    if p >= a_end && p >= b_end {
        return (Vec::new(), Vec::new());
    }
    (range_in(old.as_str(), p, a_end), range_in(new.as_str(), p, b_end))
}

// ---------------------------------------------------------------------------
// Pairs of removed and added lines
// ---------------------------------------------------------------------------

/// The origins of lines.
pub open spec fn origins(lines: Seq<LineView>) -> Seq<char> {
    Seq::new(lines.len(), |i: int| lines[i].origin)
}

/// Where the run of equal origins that `k` lies in begins.
pub open spec fn run_start(o: Seq<char>, k: int) -> int
    decreases k,
{
    if k > 0 && o[k - 1] == o[k] {
        run_start(o, k - 1)
    } else {
        k
    }
}

/// Where the run of equal origins that `k` lies in ends.
pub open spec fn run_end(o: Seq<char>, k: int) -> int
    decreases o.len() - k,
{
    if k + 1 < o.len() && o[k + 1] == o[k] {
        run_end(o, k + 1)
    } else {
        k + 1
    }
}

/// The line that the line `k` is compared to. Where added lines directly follow removed
/// ones, the first of each belong together, the second, and so on as far as both go.
pub open spec fn partner(o: Seq<char>, k: int) -> Option<int> {
    if o[k] == '-' {
        let start = run_start(o, k);
        let end = run_end(o, k);
        if end < o.len() && o[end] == '+' && end + (k - start) < run_end(o, end) {
            Some(end + (k - start))
        } else {
            None
        }
    } else if o[k] == '+' {
        let start = run_start(o, k);
        if start > 0 && o[start - 1] == '-' {
            let first = run_start(o, start - 1);
            if first + (k - start) < start {
                Some(first + (k - start))
            } else {
                None
            }
        } else {
            None
        }
    } else {
        None
    }
}

/// What is highlighted in the line `k`: what differs from its partner, or, where it has none,
/// what was highlighted before.
pub open spec fn ranges_for(lines: Seq<LineView>, k: int) -> Seq<(usize, usize)> {
    match partner(origins(lines), k) {
        Some(p) => if lines[k].origin == '-' {
            line_diff(lines[k].content, lines[p].content).0
        } else {
            line_diff(lines[p].content, lines[k].content).1
        },
        None => lines[k].highlight_ranges,
    }
}

/// Lines with what differs highlighted.
pub open spec fn highlighted(lines: Seq<LineView>) -> Seq<LineView> {
    Seq::new(
        lines.len(),
        |k: int| LineView { highlight_ranges: ranges_for(lines, k), ..lines[k] },
    )
}

/// Hunks with what differs highlighted.
pub open spec fn highlighted_hunks(hunks: Seq<HunkView>) -> Seq<HunkView> {
    Seq::new(
        hunks.len(),
        |i: int| HunkView { header: hunks[i].header, lines: highlighted(hunks[i].lines) },
    )
}

/// Files with what differs highlighted.
pub open spec fn highlighted_files(files: Seq<FileView>) -> Seq<FileView> {
    Seq::new(
        files.len(),
        |i: int| FileView { hunks: highlighted_hunks(files[i].hunks), ..files[i] },
    )
}

/// The line that a line is compared to is compared to that line.
pub proof fn partners_are_mutual(o: Seq<char>, k: int)
    requires
        0 <= k < o.len(),
        partner(o, k) is Some,
    ensures
        ({
            let p = partner(o, k)->0;
            &&& 0 <= p < o.len()
            &&& partner(o, p) == Some(k)
            &&& o[k] == '-' <==> o[p] == '+'
        }),
{
    lemma_run_start(o, k);
    lemma_run_end(o, k);
    let p = partner(o, k)->0;
    if o[k] == '-' {
        let start = run_start(o, k);
        let end = run_end(o, k);
        lemma_run_end(o, end);
        lemma_run_of(o, start, end, k);
        lemma_run_of(o, end, run_end(o, end), p);
        lemma_run_of(o, start, end, end - 1);
    } else {
        let start = run_start(o, k);
        lemma_run_start(o, start - 1);
        let first = run_start(o, start - 1);
        lemma_run_of(o, first, start, p);
        lemma_run_of(o, first, start, first);
        lemma_run_of(o, start, run_end(o, k), start);
        lemma_run_of(o, start, run_end(o, k), k);
    }
}

/// Where `d` removed lines are directly followed by `e` added ones, the first of each are compared
/// to one another, the second, and so on: what differs from the other is highlighted in each. The
/// lines left over on the longer side stay as they are.
pub proof fn removed_and_added_lines_are_compared_in_order(
    lines: Seq<LineView>,
    s: int,
    d: int,
    e: int,
    j: int,
)
    requires
        0 <= s,
        0 < d,
        0 < e,
        s + d + e <= lines.len(),
        forall|k: int| s <= k < s + d ==> (#[trigger] lines[k]).origin == '-',
        forall|k: int| s + d <= k < s + d + e ==> (#[trigger] lines[k]).origin == '+',
        s == 0 || lines[s - 1].origin != '-',
        s + d + e == lines.len() || lines[s + d + e].origin != '+',
        0 <= j,
    ensures
        j < d && j < e ==> {
            &&& highlighted(lines)[s + j].highlight_ranges == line_diff(
                lines[s + j].content,
                lines[s + d + j].content,
            ).0
            &&& highlighted(lines)[s + d + j].highlight_ranges == line_diff(
                lines[s + j].content,
                lines[s + d + j].content,
            ).1
        },
        e <= j < d ==> highlighted(lines)[s + j] == lines[s + j],
        d <= j < e ==> highlighted(lines)[s + d + j] == lines[s + d + j],
{
    let o = origins(lines);
    if j < d {
        lemma_run_of(o, s, s + d, s + j);
        lemma_run_of(o, s + d, s + d + e, s + d);
    }
    if j < e {
        lemma_run_of(o, s + d, s + d + e, s + d + j);
        lemma_run_of(o, s, s + d, s + d - 1);
    }
}

/// A line that is neither removed nor added, a removed line that no added one follows, and an
/// added line that follows no removed one stay as they are; and in no line anything but what is
/// highlighted changes.
pub proof fn only_compared_lines_are_highlighted(lines: Seq<LineView>, k: int, end: int)
    requires
        0 <= k < end <= lines.len(),
    ensures
        highlighted(lines).len() == lines.len(),
        highlighted(lines)[k] == (LineView {
            highlight_ranges: highlighted(lines)[k].highlight_ranges,
            ..lines[k]
        }),
        lines[k].origin != '-' && lines[k].origin != '+' ==> highlighted(lines)[k] == lines[k],
        (forall|i: int| k <= i < end ==> (#[trigger] lines[i]).origin == '-') && (end
            == lines.len() || lines[end].origin != '-' && lines[end].origin != '+')
            ==> highlighted(lines)[k] == lines[k],
        (forall|i: int| k <= i < end ==> (#[trigger] lines[i]).origin == '+') && (k == 0
            || lines[k - 1].origin != '-' && lines[k - 1].origin != '+') ==> highlighted(
            lines,
        )[end - 1] == lines[end - 1],
{
    let o = origins(lines);
    lemma_run_start(o, k);
    lemma_run_end(o, k);
    lemma_run_start(o, end - 1);
    if forall|i: int| k <= i < end ==> (#[trigger] lines[i]).origin == '-' {
        if end == lines.len() || lines[end].origin != '-' {
            assert(forall|i: int| k <= i < end ==> o[i] == '-');
            assert(end == o.len() || o[end] != '-');
            let r = run_end(o, k);
            if r < end {
                assert(o[r] == '-');
            }
            if r > end {
                assert(o[end] == '-');
            }
        }
    }
    if forall|i: int| k <= i < end ==> (#[trigger] lines[i]).origin == '+' {
        if k == 0 || lines[k - 1].origin != '+' {
            assert(forall|i: int| k <= i < end ==> o[i] == '+');
            assert(k == 0 || o[k - 1] != '+');
            let r = run_start(o, end - 1);
            if r > k {
                assert(o[r - 1] == '+');
            }
            if r < k {
                assert(o[k - 1] == '+');
            }
        }
    }
}

proof fn lemma_run_start(o: Seq<char>, k: int)
    requires
        0 <= k < o.len(),
    ensures
        0 <= run_start(o, k) <= k,
        forall|j: int| run_start(o, k) <= j <= k ==> o[j] == o[k],
        run_start(o, k) > 0 ==> o[run_start(o, k) - 1] != o[k],
    decreases k,
{
    if k > 0 && o[k - 1] == o[k] {
        lemma_run_start(o, k - 1);
    }
}

proof fn lemma_run_end(o: Seq<char>, k: int)
    requires
        0 <= k < o.len(),
    ensures
        k < run_end(o, k) <= o.len(),
        forall|j: int| k <= j < run_end(o, k) ==> o[j] == o[k],
        run_end(o, k) < o.len() ==> o[run_end(o, k)] != o[k],
    decreases o.len() - k,
{
    if k + 1 < o.len() && o[k + 1] == o[k] {
        lemma_run_end(o, k + 1);
    }
}

/// Every place of a run leads to its ends.
proof fn lemma_run_of(o: Seq<char>, start: int, end: int, k: int)
    requires
        0 <= start <= k < end <= o.len(),
        forall|j: int| start <= j < end ==> o[j] == o[k],
        start == 0 || o[start - 1] != o[k],
        end == o.len() || o[end] != o[k],
    ensures
        run_start(o, k) == start,
        run_end(o, k) == end,
{
    lemma_run_start(o, k);
    lemma_run_end(o, k);
    let s = run_start(o, k);
    let e = run_end(o, k);
    if s < start {
        assert(o[start - 1] == o[k]);
    }
    if s > start {
        assert(o[s - 1] == o[k]);
    }
    if e > end {
        assert(o[end] == o[k]);
    }
    if e < end {
        assert(o[e] == o[k]);
    }
}

fn copy_ranges(v: &Vec<(usize, usize)>) -> (r: Vec<(usize, usize)>)
    ensures
        r@ == v@,
{
    let mut r: Vec<(usize, usize)> = Vec::new();
    let mut i: usize = 0;
    while i < v.len()
        invariant
            i <= v.len(),
            r@ == v@.take(i as int),
        decreases v.len() - i,
    {
        r.push(v[i]);
        i = i + 1;
        assert(r@ =~= v@.take(i as int));
    }
    assert(r@ =~= v@);
    r
}

/// Where the search for runs may stand: not within a run of removed or of added lines.
spec fn between_runs(o: Seq<char>, i: int) -> bool {
    i == 0 || i >= o.len() || (o[i - 1] != '-' && !(o[i - 1] == '+' && o[i] == '+'))
}

fn ranges_of(lines: &Vec<DiffLine>) -> (r: Vec<Vec<(usize, usize)>>)
    ensures
        r.len() == lines.len(),
        forall|k: int|
            0 <= k < r.len() ==> (#[trigger] r@[k])@ == ranges_for(text::views(lines@), k),
{
    let ghost v = text::views(lines@);
    let ghost o = origins(v);
    let len: usize = lines.len();
    let mut r: Vec<Vec<(usize, usize)>> = Vec::new();
    let mut i: usize = 0;
    while i < len
        invariant
            i <= len,
            len == lines.len(),
            r.len() == i,
            v == text::views(lines@),
            o == origins(v),
            between_runs(o, i as int),
            forall|k: int| 0 <= k < r.len() ==> (#[trigger] r@[k])@ == ranges_for(v, k),
        decreases len - i,
    {
        let del_start: usize = i;
        while i < len && lines[i].origin == '-'
            invariant
                del_start <= i <= len,
                len == lines.len(),
                v == text::views(lines@),
                o == origins(v),
                forall|j: int| del_start <= j < i ==> o[j] == '-',
            decreases len - i,
        {
            i = i + 1;
        }
        let add_start: usize = i;
        while i < len && lines[i].origin == '+'
            invariant
                del_start <= add_start <= i <= len,
                len == lines.len(),
                v == text::views(lines@),
                o == origins(v),
                forall|j: int| add_start <= j < i ==> o[j] == '+',
            decreases len - i,
        {
            i = i + 1;
        }
        let add_end: usize = i;
        let del_count: usize = add_start - del_start;
        let add_count: usize = add_end - add_start;
        proof {
            if add_start < len {
                assert(o[add_start as int] == lines@[add_start as int].origin);
            }
            if add_end < len {
                assert(o[add_end as int] == lines@[add_end as int].origin);
            }
            // The runs found are whole runs.
            assert forall|k: int| del_start <= k < add_start implies run_start(o, k) == del_start
                && run_end(o, k) == add_start by {
                lemma_run_of(o, del_start as int, add_start as int, k);
            }
            assert forall|k: int| add_start <= k < add_end implies run_start(o, k) == add_start
                && run_end(o, k) == add_end by {
                lemma_run_of(o, add_start as int, add_end as int, k);
            }
        }
        let pairs: usize = if del_count < add_count {
            del_count
        } else {
            add_count
        };
        let mut added: Vec<Vec<(usize, usize)>> = Vec::new();
        let mut j: usize = 0;
        while j < del_count
            invariant
                j <= del_count,
                del_count == add_start - del_start,
                add_count == add_end - add_start,
                del_start <= add_start <= add_end <= len,
                pairs <= del_count,
                pairs <= add_count,
                pairs == del_count || pairs == add_count,
                len == lines.len(),
                v == text::views(lines@),
                o == origins(v),
                r.len() == del_start + j,
                added.len() == if j < pairs { j as int } else { pairs as int },
                forall|k: int| del_start <= k < add_start ==> #[trigger] o[k] == '-',
                add_start < len && add_count == 0 ==> o[add_start as int] != '+',
                add_count > 0 ==> o[add_start as int] == '+',
                forall|k: int|
                    del_start <= k < add_start ==> run_start(o, k) == del_start && run_end(o, k)
                        == add_start,
                forall|k: int|
                    add_start <= k < add_end ==> run_start(o, k) == add_start && run_end(o, k)
                        == add_end,
                forall|k: int| 0 <= k < r.len() ==> (#[trigger] r@[k])@ == ranges_for(v, k),
                forall|k: int|
                    0 <= k < added.len() ==> (#[trigger] added@[k])@ == line_diff(
                        v[del_start + k].content,
                        v[add_start + k].content,
                    ).1,
            decreases del_count - j,
        {
            let ghost k = del_start + j;
            assert(o[k] == '-');
            assert(v[k].origin == '-');
            if j < pairs {
                let d: usize = del_start + j;
                let a: usize = add_start + j;
                assert(partner(o, k) == Some(a as int));
                let (old_ranges, new_ranges) = diff_chars(
                    lines[d].content.as_str(),
                    lines[a].content.as_str(),
                );
                r.push(old_ranges);
                added.push(new_ranges);
            } else {
                assert(partner(o, k) is None);
                r.push(copy_ranges(&lines[del_start + j].highlight_ranges));
            }
            j = j + 1;
        }
        let mut j: usize = 0;
        // Take the ranges of the added lines in their order.
        while j < add_count
            invariant
                j <= add_count,
                del_count == add_start - del_start,
                add_count == add_end - add_start,
                del_start <= add_start <= add_end <= len,
                pairs <= del_count,
                pairs <= add_count,
                pairs == del_count || pairs == add_count,
                len == lines.len(),
                v == text::views(lines@),
                o == origins(v),
                r.len() == add_start + j,
                added.len() == pairs,
                between_runs(o, del_start as int),
                forall|k: int| del_start <= k < add_start ==> #[trigger] o[k] == '-',
                forall|k: int| add_start <= k < add_end ==> #[trigger] o[k] == '+',
                forall|k: int|
                    del_start <= k < add_start ==> run_start(o, k) == del_start && run_end(o, k)
                        == add_start,
                forall|k: int|
                    add_start <= k < add_end ==> run_start(o, k) == add_start && run_end(o, k)
                        == add_end,
                forall|k: int| 0 <= k < r.len() ==> (#[trigger] r@[k])@ == ranges_for(v, k),
                forall|k: int|
                    0 <= k < added.len() ==> (#[trigger] added@[k])@ == line_diff(
                        v[del_start + k].content,
                        v[add_start + k].content,
                    ).1,
            decreases add_count - j,
        {
            let ghost k = add_start + j;
            assert(o[k] == '+');
            assert(v[k].origin == '+');
            assert(run_start(o, k) == add_start);
            if j < pairs {
                assert(run_start(o, add_start - 1) == del_start);
                assert(o[add_start - 1] == '-');
                assert(partner(o, k) == Some(del_start + j));
                assert(ranges_for(v, k) == line_diff(
                    v[del_start + j].content,
                    v[add_start + j].content,
                ).1);
                r.push(copy_ranges(&added[j]));
            } else {
                proof {
                    if del_count > 0 {
                        assert(run_start(o, add_start - 1) == del_start);
                    }
                    assert(partner(o, k) is None);
                }
                r.push(copy_ranges(&lines[add_start + j].highlight_ranges));
            }
            j = j + 1;
        }
        if add_count == 0 && i < len {
            // A line that is neither removed nor added.
            assert(o[i as int] != '+' && o[i as int] != '-') by {
                assert(o[i as int] == lines@[i as int].origin);
            }
            assert(partner(o, i as int) is None);
            r.push(copy_ranges(&lines[i].highlight_ranges));
            i = i + 1;
        }
    }
    r
}

fn highlight_lines(lines: Vec<DiffLine>) -> (r: Vec<DiffLine>)
    ensures
        text::views(r@) == highlighted(text::views(lines@)),
{
    let ranges = ranges_of(&lines);
    let ghost v = text::views(lines@);
    let mut r: Vec<DiffLine> = Vec::new();
    for line in it: lines
        invariant
            it.seq() == lines@,
            v == text::views(lines@),
            ranges.len() == lines.len(),
            r.len() == it.index(),
            forall|k: int| 0 <= k < ranges.len() ==> (#[trigger] ranges@[k])@ == ranges_for(v, k),
            text::views(r@) == highlighted(v).take(it.index() as int),
    {
        let ghost before = r@;
        let ghost n = it.index() as int;
        assert(v[n] == lines@[n]@);
        let mut line = line;
        line.highlight_ranges = copy_ranges(&ranges[r.len()]);
        r.push(line);
        assert(text::views(r@) =~= text::views(before).push(line@));
        assert(text::views(r@) =~= highlighted(v).take(n + 1));
    }
    assert(highlighted(v).take(v.len() as int) =~= highlighted(v));
    r
}

fn highlight_hunks(hunks: Vec<DiffHunk>) -> (r: Vec<DiffHunk>)
    ensures
        text::views(r@) == highlighted_hunks(text::views(hunks@)),
{
    let ghost v = text::views(hunks@);
    let mut r: Vec<DiffHunk> = Vec::new();
    for hunk in it: hunks
        invariant
            it.seq() == hunks@,
            v == text::views(hunks@),
            text::views(r@) == highlighted_hunks(v).take(it.index() as int),
    {
        let ghost before = r@;
        let ghost n = it.index() as int;
        assert(v[n] == hunks@[n]@);
        let done = DiffHunk { header: hunk.header, lines: highlight_lines(hunk.lines) };
        r.push(done);
        assert(text::views(r@) =~= text::views(before).push(done@));
        assert(text::views(r@) =~= highlighted_hunks(v).take(n + 1));
    }
    assert(highlighted_hunks(v).take(v.len() as int) =~= highlighted_hunks(v));
    r
}

/// Compute intra-line highlight ranges for paired add/remove lines within hunks.
/// Finds consecutive `-` then `+` line pairs and highlights the differing byte ranges.
pub fn compute_intra_line_highlights(files: Vec<DiffFile>) -> (r: Vec<DiffFile>)
    ensures
        text::views(r@) == highlighted_files(text::views(files@)),
{
    let ghost v = text::views(files@);
    let mut r: Vec<DiffFile> = Vec::new();
    for file in it: files
        invariant
            it.seq() == files@,
            v == text::views(files@),
            text::views(r@) == highlighted_files(v).take(it.index() as int),
    {
        let ghost before = r@;
        let ghost n = it.index() as int;
        assert(v[n] == files@[n]@);
        let done = DiffFile {
            path: file.path,
            hunks: highlight_hunks(file.hunks),
            additions: file.additions,
            deletions: file.deletions,
        };
        r.push(done);
        assert(text::views(r@) =~= text::views(before).push(done@));
        assert(text::views(r@) =~= highlighted_files(v).take(n + 1));
    }
    assert(highlighted_files(v).take(v.len() as int) =~= highlighted_files(v));
    r
}

// ---------------------------------------------------------------------------
// Reading a diff
// ---------------------------------------------------------------------------

/// One line as a diff is printed: the file it belongs to, its origin, the header of the hunk
/// it lies in, and its content.
pub struct DiffEvent {
    pub path: String,
    pub origin: char,
    pub hunk_header: Option<String>,
    pub content: String,
    pub old_lineno: Option<u32>,
    pub new_lineno: Option<u32>,
}

/// Whether an origin says that the line before it has no newline.
pub open spec fn ends_file(origin: char) -> bool {
    origin == '>' || origin == '<' || origin == '='
}

/// The line that an event adds.
pub open spec fn event_line(e: DiffEvent) -> LineView {
    LineView {
        origin: e.origin,
        content: e.content@,
        old_lineno: e.old_lineno,
        new_lineno: e.new_lineno,
        highlight_ranges: Seq::empty(),
        no_newline: false,
    }
}

/// Hunks with a line added to the last; where there is none, one without a header comes
/// first.
pub open spec fn with_line(hunks: Seq<HunkView>, line: LineView) -> Seq<HunkView> {
    let hs = if hunks.len() == 0 {
        seq![HunkView { header: Seq::empty(), lines: Seq::empty() }]
    } else {
        hunks
    };
    hs.drop_last().push(HunkView { header: hs.last().header, lines: hs.last().lines.push(line) })
}

/// Hunks whose last line has no newline.
pub open spec fn without_newline(hunks: Seq<HunkView>) -> Seq<HunkView> {
    if hunks.len() == 0 || hunks.last().lines.len() == 0 {
        hunks
    } else {
        let lines = hunks.last().lines;
        hunks.drop_last().push(
            HunkView {
                header: hunks.last().header,
                lines: lines.drop_last().push(LineView { no_newline: true, ..lines.last() }),
            },
        )
    }
}

/// A file after an event.
pub open spec fn file_after(f: FileView, e: DiffEvent) -> FileView {
    if e.origin == 'H' {
        FileView {
            hunks: f.hunks.push(
                HunkView {
                    header: match e.hunk_header {
                        Some(h) => text::trim_end(h@),
                        None => Seq::empty(),
                    },
                    lines: Seq::empty(),
                },
            ),
            ..f
        }
    } else if e.origin == '+' {
        FileView {
            hunks: with_line(f.hunks, event_line(e)),
            additions: f.additions + 1,
            ..f
        }
    } else if e.origin == '-' {
        FileView {
            hunks: with_line(f.hunks, event_line(e)),
            deletions: f.deletions + 1,
            ..f
        }
    } else if e.origin == ' ' {
        FileView { hunks: with_line(f.hunks, event_line(e)), ..f }
    } else if ends_file(e.origin) {
        FileView { hunks: without_newline(f.hunks), ..f }
    } else {
        f
    }
}

/// The files after an event: another file begins where the path changes.
pub open spec fn files_after(files: Seq<FileView>, e: DiffEvent) -> Seq<FileView> {
    let fs = if files.len() == 0 || files.last().path != e.path@ {
        files.push(FileView { path: e.path@, hunks: Seq::empty(), additions: 0, deletions: 0 })
    } else {
        files
    };
    fs.drop_last().push(file_after(fs.last(), e))
}

/// The files that events describe.
pub open spec fn files_of(events: Seq<DiffEvent>) -> Seq<FileView>
    decreases events.len(),
{
    if events.len() == 0 {
        Seq::empty()
    } else {
        files_after(files_of(events.drop_last()), events.last())
    }
}

proof fn lemma_counts_bounded(events: Seq<DiffEvent>)
    ensures
        forall|i: int|
            0 <= i < files_of(events).len() ==> {
                &&& (#[trigger] files_of(events)[i]).additions <= events.len()
                &&& files_of(events)[i].deletions <= events.len()
            },
    decreases events.len(),
{
    if events.len() > 0 {
        lemma_counts_bounded(events.drop_last());
        let before = files_of(events.drop_last());
        let e = events.last();
        let now = files_of(events);
        assert forall|i: int| 0 <= i < now.len() implies {
            &&& (#[trigger] now[i]).additions <= events.len()
            &&& now[i].deletions <= events.len()
        } by {
            if i < before.len() {
                assert(before[i].additions <= events.len() - 1);
                if i < now.len() - 1 {
                    assert(now[i] == before[i]);
                }
            }
        }
    }
}

fn add_line(hunks: &mut Vec<DiffHunk>, line: DiffLine)
    ensures
        text::views(final(hunks)@) == with_line(text::views(old(hunks)@), line@),
{
    let ghost start = text::views(hunks@);
    if hunks.len() == 0 {
        let first = DiffHunk { header: String::new(), lines: Vec::new() };
        assert(first@ =~= (HunkView { header: Seq::empty(), lines: Seq::empty() }));
        hunks.push(first);
        assert(text::views(hunks@) =~= seq![HunkView { header: Seq::empty(), lines: Seq::empty() }]);
    }
    let ghost hs = text::views(hunks@);
    let ghost before = hunks@;
    let mut last = hunks.pop().unwrap();
    assert(hs.last() == last@);
    let ghost old_lines = last.lines@;
    last.lines.push(line);
    assert(text::views(last.lines@) =~= text::views(old_lines).push(line@));
    hunks.push(last);
    assert(text::views(hunks@) =~= hs.drop_last().push(last@));
}

fn mark_no_newline(hunks: &mut Vec<DiffHunk>)
    ensures
        text::views(final(hunks)@) == without_newline(text::views(old(hunks)@)),
{
    let ghost hs = text::views(hunks@);
    if hunks.len() == 0 {
        return;
    }
    let mut last = hunks.pop().unwrap();
    assert(hs.last() == last@);
    if last.lines.len() > 0 {
        let ghost old_lines = text::views(last.lines@);
        let mut line = last.lines.pop().unwrap();
        assert(old_lines.last() == line@);
        line.no_newline = true;
        last.lines.push(line);
        assert(text::views(last.lines@) =~= old_lines.drop_last().push(line@));
        hunks.push(last);
        assert(text::views(hunks@) =~= hs.drop_last().push(last@));
        assert(text::views(hunks@) =~= without_newline(hs));
    } else {
        hunks.push(last);
        assert(text::views(hunks@) =~= hs);
    }
}

fn read_event(file: &mut DiffFile, e: &DiffEvent)
    requires
        old(file).additions < usize::MAX,
        old(file).deletions < usize::MAX,
    ensures
        final(file)@ == file_after(old(file)@, *e),
{
    let ghost start = file@;
    if e.origin == 'H' {
        let header = match &e.hunk_header {
            Some(h) => trimmed_end(h.as_str()),
            None => String::new(),
        };
        let hunk = DiffHunk { header, lines: Vec::new() };
        assert(text::views(hunk.lines@) =~= Seq::empty());
        let ghost before = file.hunks@;
        file.hunks.push(hunk);
        assert(text::views(file.hunks@) =~= text::views(before).push(hunk@));
        return;
    }
    if e.origin == '+' || e.origin == '-' || e.origin == ' ' {
        if e.origin == '+' {
            file.additions = file.additions + 1;
        } else if e.origin == '-' {
            file.deletions = file.deletions + 1;
        }
        let line = DiffLine {
            origin: e.origin,
            content: e.content.clone(),
            old_lineno: e.old_lineno,
            new_lineno: e.new_lineno,
            highlight_ranges: Vec::new(),
            no_newline: false,
        };
        assert(line@ =~= event_line(*e));
        add_line(&mut file.hunks, line);
        return;
    }
    if e.origin == '>' || e.origin == '<' || e.origin == '=' {
        mark_no_newline(&mut file.hunks);
    }
}

/// Parse the lines of a printed diff into structured DiffFile/DiffHunk/DiffLine data.
pub fn parse_diff(events: &Vec<DiffEvent>) -> (r: Vec<DiffFile>)
    ensures
        text::views(r@) == highlighted_files(files_of(events@)),
{
    let mut files: Vec<DiffFile> = Vec::new();
    let mut i: usize = 0;
    assert(text::views(files@) =~= files_of(events@.take(0)));
    while i < events.len()
        invariant
            i <= events.len(),
            text::views(files@) == files_of(events@.take(i as int)),
        decreases events.len() - i,
    {
        let e = &events[i];
        let ghost before = files_of(events@.take(i as int));
        proof {
            assert(events@.take(i + 1).drop_last() =~= events@.take(i as int));
            assert(events@.take(i + 1).last() == *e);
            lemma_counts_bounded(events@.take(i as int));
            assert(forall|k: int|
                0 <= k < files.len() ==> text::views(files@)[k] == (#[trigger] files@[k])@);
        }
        let n: usize = files.len();
        if n > 0 {
            assert(before.last() == files@[n - 1]@);
        }
        if n == 0 || !same(files[n - 1].path.as_str(), e.path.as_str()) {
            let fresh = DiffFile {
                path: e.path.clone(),
                hunks: Vec::new(),
                additions: 0,
                deletions: 0,
            };
            assert(text::views(fresh.hunks@) =~= Seq::empty());
            let ghost old_files = files@;
            files.push(fresh);
            assert(text::views(files@) =~= text::views(old_files).push(fresh@));
        }
        let ghost fs = text::views(files@);
        let mut file = files.pop().unwrap();
        assert(fs.last() == file@);
        assert(file.additions <= i && file.deletions <= i) by {
            if fs != before {
                assert(file@.additions == 0 && file@.deletions == 0);
            } else {
                assert(before[before.len() - 1].additions <= i);
            }
        }
        read_event(&mut file, e);
        files.push(file);
        assert(text::views(files@) =~= fs.drop_last().push(file@));
        i = i + 1;
    }
    assert(events@.take(events@.len() as int) =~= events@);
    compute_intra_line_highlights(files)
}

/// Whether the counts of a file are those of its lines.
pub open spec fn counts_its_lines(f: FileView) -> bool {
    f.additions == hunks_count(f.hunks, '+') && f.deletions == hunks_count(f.hunks, '-')
}

proof fn lemma_with_line(hunks: Seq<HunkView>, line: LineView, c: char)
    ensures
        hunks_count(with_line(hunks, line), c) == hunks_count(hunks, c) + if line.origin == c {
            1nat
        } else {
            0nat
        },
{
    let blank = HunkView { header: Seq::empty(), lines: Seq::empty() };
    let hs = if hunks.len() == 0 {
        seq![blank]
    } else {
        hunks
    };
    let lines = hs.last().lines;
    assert(lines.push(line).drop_last() =~= lines);
    let now = with_line(hunks, line);
    assert(now.drop_last() =~= hs.drop_last());
    assert(now.last().lines == lines.push(line));
    assert(hunks_count(now, c) == hunks_count(hs.drop_last(), c) + origin_count(
        lines.push(line),
        c,
    ));
    if hunks.len() == 0 {
        assert(hunks_count(hs.drop_last(), c) == 0);
        assert(origin_count(lines, c) == 0);
    }
}

proof fn lemma_without_newline(hunks: Seq<HunkView>, c: char)
    ensures
        hunks_count(without_newline(hunks), c) == hunks_count(hunks, c),
{
    if hunks.len() > 0 && hunks.last().lines.len() > 0 {
        let lines = hunks.last().lines;
        let marked = lines.drop_last().push(LineView { no_newline: true, ..lines.last() });
        assert(marked.drop_last() =~= lines.drop_last());
        assert(without_newline(hunks).drop_last() =~= hunks.drop_last());
    }
}

proof fn lemma_file_after(f: FileView, e: DiffEvent)
    requires
        counts_its_lines(f),
    ensures
        counts_its_lines(file_after(f, e)),
{
    let line = event_line(e);
    lemma_with_line(f.hunks, line, '+');
    lemma_with_line(f.hunks, line, '-');
    lemma_without_newline(f.hunks, '+');
    lemma_without_newline(f.hunks, '-');
    if e.origin == 'H' {
        let g = file_after(f, e);
        assert(g.hunks.drop_last() =~= f.hunks);
        assert(g.hunks.last().lines =~= Seq::empty());
    }
}

proof fn lemma_files_count_their_lines(events: Seq<DiffEvent>)
    ensures
        forall|i: int|
            0 <= i < files_of(events).len() ==> counts_its_lines(#[trigger] files_of(events)[i]),
    decreases events.len(),
{
    if events.len() > 0 {
        let before = files_of(events.drop_last());
        let e = events.last();
        lemma_files_count_their_lines(events.drop_last());
        let blank = FileView { path: e.path@, hunks: Seq::empty(), additions: 0, deletions: 0 };
        let last = if before.len() == 0 || before.last().path != e.path@ {
            blank
        } else {
            before[before.len() - 1]
        };
        lemma_file_after(last, e);
    }
}

proof fn lemma_highlighting_keeps_lines(lines: Seq<LineView>, c: char)
    ensures
        origin_count(highlighted(lines), c) == origin_count(lines, c),
{
    lemma_same_origins(highlighted(lines), lines, c);
}

proof fn lemma_same_origins(a: Seq<LineView>, b: Seq<LineView>, c: char)
    requires
        a.len() == b.len(),
        forall|i: int| 0 <= i < a.len() ==> (#[trigger] a[i]).origin == b[i].origin,
    ensures
        origin_count(a, c) == origin_count(b, c),
    decreases a.len(),
{
    if a.len() > 0 {
        assert(a[a.len() - 1].origin == b[b.len() - 1].origin);
        let (x, y) = (a.drop_last(), b.drop_last());
        assert forall|i: int| 0 <= i < x.len() implies (#[trigger] x[i]).origin == y[i].origin by {
            assert(a[i].origin == b[i].origin);
        }
        lemma_same_origins(x, y, c);
    }
}

proof fn lemma_highlighting_keeps_counts(hunks: Seq<HunkView>, c: char)
    ensures
        hunks_count(highlighted_hunks(hunks), c) == hunks_count(hunks, c),
    decreases hunks.len(),
{
    if hunks.len() > 0 {
        lemma_highlighting_keeps_counts(hunks.drop_last(), c);
        lemma_highlighting_keeps_lines(hunks.last().lines, c);
        assert(highlighted_hunks(hunks).drop_last() =~= highlighted_hunks(hunks.drop_last()));
    }
}

/// The counts of every file in a diff that was read are those of its lines: as many additions
/// and deletions as its hunks hold.
pub proof fn files_count_their_lines(events: Seq<DiffEvent>)
    ensures
        forall|i: int|
            0 <= i < files_of(events).len() ==> counts_its_lines(
                #[trigger] highlighted_files(files_of(events))[i],
            ),
{
    lemma_files_count_their_lines(events);
    assert forall|i: int| 0 <= i < files_of(events).len() implies counts_its_lines(
        #[trigger] highlighted_files(files_of(events))[i],
    ) by {
        let f = files_of(events)[i];
        assert(counts_its_lines(f));
        lemma_highlighting_keeps_counts(f.hunks, '+');
        lemma_highlighting_keeps_counts(f.hunks, '-');
    }
}

/// A line as it was printed: the path of its file, its origin, its content and its numbers on both
/// sides.
pub type ShownLine = (Seq<char>, char, Seq<char>, Option<u32>, Option<u32>);

/// The lines of a hunk as they were printed.
pub open spec fn lines_in_hunk(path: Seq<char>, lines: Seq<LineView>) -> Seq<ShownLine> {
    Seq::new(
        lines.len(),
        |i: int|
            (path, lines[i].origin, lines[i].content, lines[i].old_lineno, lines[i].new_lineno),
    )
}

/// The lines of hunks, one hunk after the other.
pub open spec fn lines_in_hunks(path: Seq<char>, hunks: Seq<HunkView>) -> Seq<ShownLine>
    decreases hunks.len(),
{
    if hunks.len() == 0 {
        Seq::empty()
    } else {
        lines_in_hunks(path, hunks.drop_last()) + lines_in_hunk(path, hunks.last().lines)
    }
}

/// The lines of files, one file after the other.
pub open spec fn lines_in_files(files: Seq<FileView>) -> Seq<ShownLine>
    decreases files.len(),
{
    if files.len() == 0 {
        Seq::empty()
    } else {
        lines_in_files(files.drop_last()) + lines_in_hunks(files.last().path, files.last().hunks)
    }
}

proof fn lemma_shown_with_line(path: Seq<char>, hunks: Seq<HunkView>, line: LineView)
    ensures
        lines_in_hunks(path, with_line(hunks, line)) == lines_in_hunks(path, hunks).push(
            (path, line.origin, line.content, line.old_lineno, line.new_lineno),
        ),
{
    let blank = HunkView { header: Seq::empty(), lines: Seq::empty() };
    let hs = if hunks.len() == 0 {
        seq![blank]
    } else {
        hunks
    };
    let now = with_line(hunks, line);
    let shown = (path, line.origin, line.content, line.old_lineno, line.new_lineno);
    assert(now.drop_last() =~= hs.drop_last());
    assert(lines_in_hunk(path, hs.last().lines.push(line)) =~= lines_in_hunk(
        path,
        hs.last().lines,
    ).push(shown));
    assert(now.last().lines == hs.last().lines.push(line));
    assert(lines_in_hunks(path, now) == lines_in_hunks(path, hs.drop_last()) + lines_in_hunk(
        path,
        hs.last().lines,
    ).push(shown));
    if hunks.len() == 0 {
        assert(lines_in_hunks(path, hs.drop_last()) =~= Seq::empty());
        assert(lines_in_hunk(path, hs.last().lines) =~= Seq::empty());
        assert(lines_in_hunks(path, hunks) =~= Seq::empty());
    }
    assert(lines_in_hunks(path, now) =~= lines_in_hunks(path, hunks).push(shown));
}

proof fn lemma_shown_without_newline(path: Seq<char>, hunks: Seq<HunkView>)
    ensures
        lines_in_hunks(path, without_newline(hunks)) == lines_in_hunks(path, hunks),
{
    if hunks.len() > 0 && hunks.last().lines.len() > 0 {
        let lines = hunks.last().lines;
        let marked = lines.drop_last().push(LineView { no_newline: true, ..lines.last() });
        assert(without_newline(hunks).drop_last() =~= hunks.drop_last());
        assert(lines_in_hunk(path, marked) =~= lines_in_hunk(path, lines));
    }
}

proof fn lemma_shown_header(path: Seq<char>, hunks: Seq<HunkView>, header: Seq<char>)
    ensures
        lines_in_hunks(path, hunks.push(HunkView { header, lines: Seq::empty() }))
            == lines_in_hunks(path, hunks),
{
    let now = hunks.push(HunkView { header, lines: Seq::empty() });
    assert(now.drop_last() =~= hunks);
    assert(lines_in_hunk(path, now.last().lines) =~= Seq::empty());
    assert(lines_in_hunks(path, now) =~= lines_in_hunks(path, hunks));
}

/// The files before an event with the one that it belongs to at their end.
spec fn with_own_file(files: Seq<FileView>, e: DiffEvent) -> Seq<FileView> {
    if files.len() == 0 || files.last().path != e.path@ {
        files.push(FileView { path: e.path@, hunks: Seq::empty(), additions: 0, deletions: 0 })
    } else {
        files
    }
}

proof fn lemma_shown_own_file(files: Seq<FileView>, e: DiffEvent)
    ensures
        lines_in_files(with_own_file(files, e)) == lines_in_files(files),
        with_own_file(files, e).len() > 0,
        with_own_file(files, e).last().path == e.path@,
{
    let fs = with_own_file(files, e);
    if fs.len() > files.len() {
        assert(fs.drop_last() =~= files);
        assert(lines_in_files(fs) =~= lines_in_files(files));
    }
}

proof fn lemma_shown_lines_are_read(events: Seq<DiffEvent>)
    ensures
        lines_in_files(files_of(events)) == events.filter_map(
            |e: DiffEvent|
                if e.origin == ' ' || e.origin == '-' || e.origin == '+' {
                    Some((e.path@, e.origin, e.content@, e.old_lineno, e.new_lineno))
                } else {
                    None
                },
        ),
    decreases events.len(),
{
    if events.len() > 0 {
        let e = events.last();
        let before = files_of(events.drop_last());
        lemma_shown_lines_are_read(events.drop_last());
        let fs = with_own_file(before, e);
        lemma_shown_own_file(before, e);
        let f = fs.last();
        let now = files_of(events);
        assert(now == fs.drop_last().push(file_after(f, e)));
        assert(now.drop_last() =~= fs.drop_last());
        lemma_shown_with_line(f.path, f.hunks, event_line(e));
        lemma_shown_without_newline(f.path, f.hunks);
        lemma_shown_header(
            f.path,
            f.hunks,
            match e.hunk_header {
                Some(h) => text::trim_end(h@),
                None => Seq::empty(),
            },
        );
        assert(file_after(f, e).path == f.path);
        let shown = (e.path@, e.origin, e.content@, e.old_lineno, e.new_lineno);
        if e.origin == ' ' || e.origin == '-' || e.origin == '+' {
            assert(lines_in_files(now) =~= lines_in_files(before) + seq![shown]);
        } else {
            assert(lines_in_files(now) =~= lines_in_files(before));
        }
    }
}

proof fn lemma_highlighting_keeps_shown_hunks(path: Seq<char>, hunks: Seq<HunkView>)
    ensures
        lines_in_hunks(path, highlighted_hunks(hunks)) == lines_in_hunks(path, hunks),
    decreases hunks.len(),
{
    if hunks.len() > 0 {
        lemma_highlighting_keeps_shown_hunks(path, hunks.drop_last());
        assert(highlighted_hunks(hunks).drop_last() =~= highlighted_hunks(hunks.drop_last()));
        assert(lines_in_hunk(path, highlighted(hunks.last().lines)) =~= lines_in_hunk(
            path,
            hunks.last().lines,
        ));
    }
}

proof fn lemma_highlighting_keeps_shown_files(files: Seq<FileView>)
    ensures
        lines_in_files(highlighted_files(files)) == lines_in_files(files),
    decreases files.len(),
{
    if files.len() > 0 {
        lemma_highlighting_keeps_shown_files(files.drop_last());
        lemma_highlighting_keeps_shown_hunks(files.last().path, files.last().hunks);
        assert(highlighted_files(files).drop_last() =~= highlighted_files(files.drop_last()));
    }
}

/// The lines of a diff that was read, file after file and hunk after hunk, are exactly the added,
/// removed and unchanged lines that were printed, in their order, each in the file it was printed
/// for, with its content and its numbers.
pub proof fn every_printed_line_is_read(events: Seq<DiffEvent>)
    ensures
        lines_in_files(highlighted_files(files_of(events))) == events.filter_map(
            |e: DiffEvent|
                if e.origin == ' ' || e.origin == '-' || e.origin == '+' {
                    Some((e.path@, e.origin, e.content@, e.old_lineno, e.new_lineno))
                } else {
                    None
                },
        ),
{
    lemma_shown_lines_are_read(events);
    lemma_highlighting_keeps_shown_files(files_of(events));
}

/// What is printed of a diff: the header of a hunk, a line, or that a line has no newline.
pub enum Printed {
    Header(Seq<char>, Seq<char>),
    Line(ShownLine),
    NoNewline(Seq<char>),
}

/// A line as it is printed, and after it whether it has no newline.
pub open spec fn printed_line(path: Seq<char>, l: LineView) -> Seq<Printed> {
    let line = Printed::Line((path, l.origin, l.content, l.old_lineno, l.new_lineno));
    if l.no_newline {
        seq![line, Printed::NoNewline(path)]
    } else {
        seq![line]
    }
}

/// Lines as they are printed.
pub open spec fn printed_lines(path: Seq<char>, lines: Seq<LineView>) -> Seq<Printed>
    decreases lines.len(),
{
    if lines.len() == 0 {
        Seq::empty()
    } else {
        printed_lines(path, lines.drop_last()) + printed_line(path, lines.last())
    }
}

/// Hunks as they are printed: the header of each, and then its lines.
pub open spec fn printed_hunks(path: Seq<char>, hunks: Seq<HunkView>) -> Seq<Printed>
    decreases hunks.len(),
{
    if hunks.len() == 0 {
        Seq::empty()
    } else {
        printed_hunks(path, hunks.drop_last()) + seq![
            Printed::Header(path, hunks.last().header),
        ] + printed_lines(path, hunks.last().lines)
    }
}

/// Files as they are printed.
pub open spec fn printed_files(files: Seq<FileView>) -> Seq<Printed>
    decreases files.len(),
{
    if files.len() == 0 {
        Seq::empty()
    } else {
        printed_files(files.drop_last()) + printed_hunks(files.last().path, files.last().hunks)
    }
}

/// Whether a diff is printed as git does: a line of a file directly follows the header of a hunk,
/// another line, or the remark that one has no newline; and that remark directly follows a line.
pub open spec fn is_well_printed(events: Seq<DiffEvent>) -> bool {
    forall|k: int|
        0 <= k < events.len() ==> {
            let o = (#[trigger] events[k]).origin;
            &&& o == '+' || o == '-' || o == ' ' ==> {
                &&& k > 0
                &&& events[k - 1].path@ == events[k].path@
                &&& {
                    let p = events[k - 1].origin;
                    p == 'H' || p == '+' || p == '-' || p == ' ' || p == '>' || p == '<' || p
                        == '='
                }
            }
            &&& o == '>' || o == '<' || o == '=' ==> {
                &&& k > 0
                &&& events[k - 1].path@ == events[k].path@
                &&& {
                    let p = events[k - 1].origin;
                    p == '+' || p == '-' || p == ' '
                }
            }
        }
}

/// Where the reading of a well printed diff stands.
spec fn stands_after(events: Seq<DiffEvent>) -> bool {
    let files = files_of(events);
    events.len() > 0 ==> {
        let e = events.last();
        let o = e.origin;
        &&& files.len() > 0
        &&& files.last().path == e.path@
        &&& o == 'H' || o == '+' || o == '-' || o == ' ' || ends_file(o) ==> files.last().hunks.len()
            > 0
        &&& o == '+' || o == '-' || o == ' ' ==> files.last().hunks.last().lines.len() > 0
            && !files.last().hunks.last().lines.last().no_newline
    }
}

proof fn lemma_printed_own_file(files: Seq<FileView>, e: DiffEvent)
    ensures
        printed_files(with_own_file(files, e)) == printed_files(files),
{
    let fs = with_own_file(files, e);
    if fs.len() > files.len() {
        assert(fs.drop_last() =~= files);
        assert(printed_files(fs) =~= printed_files(files));
    }
}

proof fn lemma_printed_with_line(path: Seq<char>, hunks: Seq<HunkView>, line: LineView)
    requires
        hunks.len() > 0,
        !line.no_newline,
    ensures
        printed_hunks(path, with_line(hunks, line)) == printed_hunks(path, hunks).push(
            Printed::Line(
                (path, line.origin, line.content, line.old_lineno, line.new_lineno),
            ),
        ),
{
    let now = with_line(hunks, line);
    let lines = hunks.last().lines;
    assert(now.drop_last() =~= hunks.drop_last());
    assert(lines.push(line).drop_last() =~= lines);
    assert(printed_hunks(path, now) =~= printed_hunks(path, hunks) + printed_line(path, line));
}

proof fn lemma_printed_without_newline(path: Seq<char>, hunks: Seq<HunkView>)
    requires
        hunks.len() > 0,
        hunks.last().lines.len() > 0,
        !hunks.last().lines.last().no_newline,
    ensures
        printed_hunks(path, without_newline(hunks)) == printed_hunks(path, hunks).push(
            Printed::NoNewline(path),
        ),
{
    let lines = hunks.last().lines;
    let last = LineView { no_newline: true, ..lines.last() };
    let marked = lines.drop_last().push(last);
    assert(marked.drop_last() =~= lines.drop_last());
    assert(without_newline(hunks).drop_last() =~= hunks.drop_last());
    assert(printed_line(path, last) =~= printed_line(path, lines.last()).push(
        Printed::NoNewline(path),
    ));
    assert(printed_hunks(path, without_newline(hunks)) =~= printed_hunks(path, hunks).push(
        Printed::NoNewline(path),
    ));
}

proof fn lemma_printed_header(path: Seq<char>, hunks: Seq<HunkView>, header: Seq<char>)
    ensures
        printed_hunks(path, hunks.push(HunkView { header, lines: Seq::empty() }))
            == printed_hunks(path, hunks).push(Printed::Header(path, header)),
{
    let now = hunks.push(HunkView { header, lines: Seq::empty() });
    assert(now.drop_last() =~= hunks);
    assert(printed_hunks(path, now) =~= printed_hunks(path, hunks).push(
        Printed::Header(path, header),
    ));
}

proof fn lemma_well_printed_is_read(events: Seq<DiffEvent>)
    requires
        is_well_printed(events),
    ensures
        stands_after(events),
        printed_files(files_of(events)) == events.filter_map(
            |e: DiffEvent|
                if e.origin == 'H' {
                    Some(
                        Printed::Header(
                            e.path@,
                            match e.hunk_header {
                                Some(h) => text::trim_end(h@),
                                None => Seq::<char>::empty(),
                            },
                        ),
                    )
                } else if e.origin == ' ' || e.origin == '-' || e.origin == '+' {
                    Some(
                        Printed::Line(
                            (e.path@, e.origin, e.content@, e.old_lineno, e.new_lineno),
                        ),
                    )
                } else if e.origin == '>' || e.origin == '<' || e.origin == '=' {
                    Some(Printed::NoNewline(e.path@))
                } else {
                    None
                },
        ),
    decreases events.len(),
{
    if events.len() > 0 {
        let t = events.drop_last();
        let e = events.last();
        let o = e.origin;
        assert(events[events.len() - 1] == e);
        assert(is_well_printed(t)) by {
            assert forall|k: int| 0 <= k < t.len() implies ({
                let o = (#[trigger] t[k]).origin;
                &&& o == '+' || o == '-' || o == ' ' ==> {
                    &&& k > 0
                    &&& t[k - 1].path@ == t[k].path@
                    &&& {
                        let p = t[k - 1].origin;
                        p == 'H' || p == '+' || p == '-' || p == ' ' || p == '>' || p == '<' || p
                            == '='
                    }
                }
                &&& o == '>' || o == '<' || o == '=' ==> {
                    &&& k > 0
                    &&& t[k - 1].path@ == t[k].path@
                    &&& {
                        let p = t[k - 1].origin;
                        p == '+' || p == '-' || p == ' '
                    }
                }
            }) by {
                assert(t[k] == events[k]);
                if k > 0 {
                    assert(t[k - 1] == events[k - 1]);
                }
            }
        }
        lemma_well_printed_is_read(t);
        if t.len() > 0 {
            assert(t.last() == events[events.len() - 2]);
        }
        let before = files_of(t);
        let fs = with_own_file(before, e);
        lemma_printed_own_file(before, e);
        let f = fs.last();
        let now = files_of(events);
        let g = file_after(f, e);
        assert(now == fs.drop_last().push(g));
        assert(now.drop_last() =~= fs.drop_last());
        assert(now.last() == g);
        assert(g.path == f.path && f.path == e.path@);
        let header = match e.hunk_header {
            Some(h) => text::trim_end(h@),
            None => Seq::empty(),
        };
        if o == 'H' {
            lemma_printed_header(f.path, f.hunks, header);
            assert(printed_files(now) =~= printed_files(before) + seq![
                Printed::Header(e.path@, header),
            ]);
        } else if o == '+' || o == '-' || o == ' ' {
            lemma_printed_with_line(f.path, f.hunks, event_line(e));
            assert(printed_files(now) =~= printed_files(before) + seq![
                Printed::Line((e.path@, e.origin, e.content@, e.old_lineno, e.new_lineno)),
            ]);
        } else if ends_file(o) {
            lemma_printed_without_newline(f.path, f.hunks);
            assert(printed_files(now) =~= printed_files(before) + seq![
                Printed::NoNewline(e.path@),
            ]);
        } else {
            assert(printed_files(now) =~= printed_files(before));
        }
    }
}

proof fn lemma_highlighting_keeps_printed_lines(path: Seq<char>, a: Seq<LineView>, b: Seq<LineView>)
    requires
        a.len() == b.len(),
        forall|i: int|
            0 <= i < a.len() ==> (#[trigger] a[i]) == (LineView {
                highlight_ranges: a[i].highlight_ranges,
                ..b[i]
            }),
    ensures
        printed_lines(path, a) == printed_lines(path, b),
    decreases a.len(),
{
    if a.len() > 0 {
        let (x, y) = (a.drop_last(), b.drop_last());
        assert forall|i: int| 0 <= i < x.len() implies (#[trigger] x[i]) == (LineView {
            highlight_ranges: x[i].highlight_ranges,
            ..y[i]
        }) by {
            assert(x[i] == a[i] && y[i] == b[i]);
        }
        lemma_highlighting_keeps_printed_lines(path, x, y);
        assert(a[a.len() - 1] == a.last() && b[b.len() - 1] == b.last());
        assert(printed_line(path, a.last()) =~= printed_line(path, b.last()));
    }
}

proof fn lemma_highlighting_keeps_printed_hunks(path: Seq<char>, hunks: Seq<HunkView>)
    ensures
        printed_hunks(path, highlighted_hunks(hunks)) == printed_hunks(path, hunks),
    decreases hunks.len(),
{
    if hunks.len() > 0 {
        let lines = hunks.last().lines;
        lemma_highlighting_keeps_printed_hunks(path, hunks.drop_last());
        assert(highlighted_hunks(hunks).drop_last() =~= highlighted_hunks(hunks.drop_last()));
        lemma_highlighting_keeps_printed_lines(path, highlighted(lines), lines);
    }
}

proof fn lemma_highlighting_keeps_printed_files(files: Seq<FileView>)
    ensures
        printed_files(highlighted_files(files)) == printed_files(files),
    decreases files.len(),
{
    if files.len() > 0 {
        lemma_highlighting_keeps_printed_files(files.drop_last());
        lemma_highlighting_keeps_printed_hunks(files.last().path, files.last().hunks);
        assert(highlighted_files(files).drop_last() =~= highlighted_files(files.drop_last()));
    }
}

/// Reading a diff loses nothing: printing what was read of a well printed diff, file after file,
/// gives back the headers, the lines and the remarks on missing newlines that were read, in their
/// order and each where it stood.
pub proof fn printing_gives_back_what_was_read(events: Seq<DiffEvent>)
    requires
        is_well_printed(events),
    ensures
        printed_files(highlighted_files(files_of(events))) == events.filter_map(
            |e: DiffEvent|
                if e.origin == 'H' {
                    Some(
                        Printed::Header(
                            e.path@,
                            match e.hunk_header {
                                Some(h) => text::trim_end(h@),
                                None => Seq::<char>::empty(),
                            },
                        ),
                    )
                } else if e.origin == ' ' || e.origin == '-' || e.origin == '+' {
                    Some(
                        Printed::Line(
                            (e.path@, e.origin, e.content@, e.old_lineno, e.new_lineno),
                        ),
                    )
                } else if e.origin == '>' || e.origin == '<' || e.origin == '=' {
                    Some(Printed::NoNewline(e.path@))
                } else {
                    None
                },
        ),
{
    lemma_well_printed_is_read(events);
    lemma_highlighting_keeps_printed_files(files_of(events));
}

/// Another event changes at most the file that was read last: it belongs to that file where it has
/// its path, and else begins the next one.
pub proof fn another_path_begins_another_file(events: Seq<DiffEvent>, e: DiffEvent)
    ensures
        ({
            let before = files_of(events);
            let after = files_of(events.push(e));
            let same_file = events.len() > 0 && events.last().path@ == e.path@;
            &&& after.len() == before.len() + if same_file {
                0int
            } else {
                1int
            }
            &&& after.last().path == e.path@
            &&& after.drop_last() == if same_file {
                before.drop_last()
            } else {
                before
            }
            &&& highlighted_files(after).len() == after.len()
            &&& forall|i: int|
                0 <= i < after.len() ==> (#[trigger] highlighted_files(after)[i]).path
                    == after[i].path
        }),
{
    let before = files_of(events);
    assert(events.push(e).drop_last() =~= events);
    lemma_last_path(events);
    let fs = with_own_file(before, e);
    let after = files_of(events.push(e));
    assert(after == fs.drop_last().push(file_after(fs.last(), e)));
    assert(after.drop_last() =~= fs.drop_last());
    if fs.len() > before.len() {
        assert(fs.drop_last() =~= before);
    }
}

proof fn lemma_last_path(events: Seq<DiffEvent>)
    ensures
        events.len() == 0 <==> files_of(events).len() == 0,
        events.len() > 0 ==> files_of(events).last().path == events.last().path@,
    decreases events.len(),
{
    if events.len() > 0 {
        lemma_last_path(events.drop_last());
    }
}

/// A file has as many additions as it has added lines, and as many deletions as removed ones.
pub proof fn additions_are_added_lines(events: Seq<DiffEvent>, i: int)
    requires
        0 <= i < files_of(events).len(),
    ensures
        ({
            let f = highlighted_files(files_of(events))[i];
            let lines = lines_in_hunks(f.path, f.hunks);
            &&& f.additions == lines.filter(|l: ShownLine| l.1 == '+').len()
            &&& f.deletions == lines.filter(|l: ShownLine| l.1 == '-').len()
        }),
{
    files_count_their_lines(events);
    let f = highlighted_files(files_of(events))[i];
    assert(counts_its_lines(f));
    lemma_hunks_count_is_filter(f.path, f.hunks, '+');
    lemma_hunks_count_is_filter(f.path, f.hunks, '-');
}

proof fn lemma_origin_count_is_filter(path: Seq<char>, lines: Seq<LineView>, c: char)
    ensures
        origin_count(lines, c) == lines_in_hunk(path, lines).filter(
            |l: ShownLine| l.1 == c,
        ).len(),
    decreases lines.len(),
{
    reveal(Seq::filter);
    if lines.len() > 0 {
        lemma_origin_count_is_filter(path, lines.drop_last(), c);
        assert(lines_in_hunk(path, lines).drop_last() =~= lines_in_hunk(path, lines.drop_last()));
    }
}

proof fn lemma_hunks_count_is_filter(path: Seq<char>, hunks: Seq<HunkView>, c: char)
    ensures
        hunks_count(hunks, c) == lines_in_hunks(path, hunks).filter(
            |l: ShownLine| l.1 == c,
        ).len(),
    decreases hunks.len(),
{
    let pred = |l: ShownLine| l.1 == c;
    if hunks.len() > 0 {
        lemma_hunks_count_is_filter(path, hunks.drop_last(), c);
        lemma_origin_count_is_filter(path, hunks.last().lines, c);
        Seq::filter_distributes_over_add(
            lines_in_hunks(path, hunks.drop_last()),
            lines_in_hunk(path, hunks.last().lines),
            pred,
        );
    } else {
        reveal(Seq::filter);
    }
}

/// Highlighting changes nothing else: the same files with the same hunks and the same lines are
/// shown, and each hunk is highlighted by itself.
pub proof fn highlighting_changes_nothing_else(files: Seq<FileView>, i: int, h: int)
    requires
        0 <= i < files.len(),
        0 <= h < files[i].hunks.len(),
    ensures
        highlighted_files(files).len() == files.len(),
        highlighted_files(files)[i].path == files[i].path,
        highlighted_files(files)[i].additions == files[i].additions,
        highlighted_files(files)[i].deletions == files[i].deletions,
        highlighted_files(files)[i].hunks.len() == files[i].hunks.len(),
        highlighted_files(files)[i].hunks[h].header == files[i].hunks[h].header,
        highlighted_files(files)[i].hunks[h].lines == highlighted(files[i].hunks[h].lines),
        highlighted(files[i].hunks[h].lines).len() == files[i].hunks[h].lines.len(),
        forall|k: int|
            0 <= k < files[i].hunks[h].lines.len() ==> {
                let a = #[trigger] highlighted(files[i].hunks[h].lines)[k];
                let b = files[i].hunks[h].lines[k];
                &&& a.origin == b.origin && a.content == b.content
                &&& a.old_lineno == b.old_lineno && a.new_lineno == b.new_lineno
                &&& a.no_newline == b.no_newline
            },
{
}

/// Lines are counted by their origin, in all hunks.
pub proof fn lines_are_counted_in_all_hunks(hunks: Seq<HunkView>, hunk: HunkView, c: char)
    ensures
        hunks_count(hunks.push(hunk), c) == hunks_count(hunks, c) + hunk.lines.filter(
            |l: LineView| l.origin == c,
        ).len(),
        hunks_count(Seq::empty(), c) == 0,
{
    assert(hunks.push(hunk).drop_last() =~= hunks);
    lemma_origin_filter(hunk.lines, c);
}

proof fn lemma_origin_filter(lines: Seq<LineView>, c: char)
    ensures
        origin_count(lines, c) == lines.filter(|l: LineView| l.origin == c).len(),
    decreases lines.len(),
{
    reveal(Seq::filter);
    if lines.len() > 0 {
        lemma_origin_filter(lines.drop_last(), c);
    }
}

} // verus!
