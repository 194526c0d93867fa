//! The commit graph: which lane each commit stands on, how commits and their parents are
//! connected, and what each row shows of the connections that pass through it.
//!
//! Commits stand newest first. A lane that waits for a commit is held until that commit
//! comes; first parents inherit the lane, further parents of a merge get lanes of their own.

use crate::git::CommitInfo;
use crate::oid::Oid;
use vstd::prelude::*;

verus! {

/// How many colors the lanes go through.
pub const LANE_COLOR_COUNT: usize = 6;

/// Cap on the visible lane count. Beyond this, deeper lanes stack on the rightmost slot —
/// keeps very deep graphs from pushing the commit text off-screen.
pub const LANE_COUNT_VISUAL: usize = 6;

/// The color of a lane, or that of a commit that only reflogs reach.
#[derive(Debug, Clone, Copy, PartialEq, Eq, Structural)]
pub enum Paint {
    Lane(usize),
    Orphan,
}

#[derive(Debug, Clone, Copy, PartialEq, Eq, Structural)]
pub struct CommitLayout {
    pub lane: usize,
    pub color: Paint,
}

/// One edge from a commit to one of its parents. The child sits at
/// `child_row` on `child_lane`; the parent at `parent_row` on
/// `parent_lane`. The connection inherits the child's lane color.
#[derive(Debug, Clone, Copy, PartialEq, Eq, Structural)]
pub struct GraphEdge {
    pub child_row: usize,
    pub child_lane: usize,
    pub parent_row: usize,
    pub parent_lane: usize,
    pub color: Paint,
}

/// Per-row paint data — what verticals to draw in this row's strip and what curves pass
/// through.
///
/// Verticals come in three flavors so the node circle can interrupt the line cleanly:
/// full-height passes through this row, top-half stops at the node (incoming lane
/// terminating there), bottom-half starts at the node.
#[derive(Debug)]
pub struct RowGeometry {
    pub full_verticals: Vec<(usize, Paint)>,
    pub top_half_verticals: Vec<(usize, Paint)>,
    pub bottom_half_verticals: Vec<(usize, Paint)>,
    /// The edges whose curve has a part in this row.
    pub curves: Vec<GraphEdge>,
}

/// A row by its views.
#[verifier::ext_equal]
pub struct RowView {
    pub full_verticals: Seq<(usize, Paint)>,
    pub top_half_verticals: Seq<(usize, Paint)>,
    pub bottom_half_verticals: Seq<(usize, Paint)>,
    pub curves: Seq<GraphEdge>,
}

impl View for RowGeometry {
    type V = RowView;

    open spec fn view(&self) -> RowView {
        RowView {
            full_verticals: self.full_verticals@,
            top_half_verticals: self.top_half_verticals@,
            bottom_half_verticals: self.bottom_half_verticals@,
            curves: self.curves@,
        }
    }
}

/// A row that nothing passes through.
pub open spec fn blank_row() -> RowView {
    RowView {
        full_verticals: Seq::empty(),
        top_half_verticals: Seq::empty(),
        bottom_half_verticals: Seq::empty(),
        curves: Seq::empty(),
    }
}

impl Default for RowGeometry {
    fn default() -> (r: Self)
        ensures
            r@ == blank_row(),
    {
        let r = RowGeometry {
            full_verticals: Vec::new(),
            top_half_verticals: Vec::new(),
            bottom_half_verticals: Vec::new(),
            curves: Vec::new(),
        };
        assert(r@ =~= blank_row());
        r
    }
}

// ---------------------------------------------------------------------------
// Lanes
// ---------------------------------------------------------------------------

/// The first lane from `i` on that holds `what`, or the number of lanes.
pub open spec fn lane_from(lanes: Seq<Option<Oid>>, what: Option<Oid>, i: int) -> int
    decreases lanes.len() - i,
{
    if i >= lanes.len() {
        lanes.len() as int
    } else if lanes[i] == what {
        i
    } else {
        lane_from(lanes, what, i + 1)
    }
}

/// The lane of a commit: the first that waits for it, else the lowest free one, else a new
/// one.
pub open spec fn lane_for(lanes: Seq<Option<Oid>>, id: Oid) -> int {
    let waiting = lane_from(lanes, Some(id), 0);
    if waiting < lanes.len() {
        waiting
    } else {
        lane_from(lanes, None, 0)
    }
}

/// The lanes with one more where `lane` is not among them.
pub open spec fn opened(lanes: Seq<Option<Oid>>, lane: int) -> Seq<Option<Oid>> {
    if lane >= lanes.len() {
        lanes.push(None)
    } else {
        lanes
    }
}

/// The lanes other than `lane` that wait for `id` freed: several children can point at one
/// parent.
pub open spec fn freed(lanes: Seq<Option<Oid>>, id: Oid, lane: int) -> Seq<Option<Oid>> {
    Seq::new(
        lanes.len(),
        |i: int|
            if i != lane && lanes[i] == Some(id) {
                None
            } else {
                lanes[i]
            },
    )
}

/// Whether one of `commits` has the id `id`.
pub open spec fn listed(commits: Seq<CommitInfo>, id: Oid) -> bool {
    exists|i: int| 0 <= i < commits.len() && (#[trigger] commits[i]).id == id
}

/// The lanes with one that waits for a further parent, where it is listed and none waits for
/// it yet.
pub open spec fn with_parent(
    lanes: Seq<Option<Oid>>,
    commits: Seq<CommitInfo>,
    parent: Oid,
) -> Seq<Option<Oid>> {
    if !listed(commits, parent) || lanes.contains(Some(parent)) {
        lanes
    } else {
        let lane = lane_from(lanes, None, 0);
        opened(lanes, lane).update(lane, Some(parent))
    }
}

/// The lanes with those for the first `n` parents; the first inherits `lane`.
pub open spec fn with_parents(
    lanes: Seq<Option<Oid>>,
    commits: Seq<CommitInfo>,
    lane: int,
    parents: Seq<Oid>,
    n: nat,
) -> Seq<Option<Oid>>
    decreases n,
{
    if n == 0 {
        lanes.update(lane, None)
    } else if n == 1 {
        lanes.update(
            lane,
            if listed(commits, parents[0]) {
                Some(parents[0])
            } else {
                None
            },
        )
    } else {
        with_parent(
            with_parents(lanes, commits, lane, parents, (n - 1) as nat),
            commits,
            parents[n - 1],
        )
    }
}

/// The highest lane below `i` that waits for a commit, where that is higher than `least`.
pub open spec fn peak(lanes: Seq<Option<Oid>>, least: int, i: int) -> int
    decreases i,
{
    if i <= 0 {
        least
    } else if lanes[i - 1] is Some {
        if i - 1 > least {
            i - 1
        } else {
            least
        }
    } else {
        peak(lanes, least, i - 1)
    }
}

/// The color of a commit on a lane.
pub open spec fn commit_paint(orphaned: bool, lane: int) -> Paint {
    if orphaned {
        Paint::Orphan
    } else {
        Paint::Lane((lane % LANE_COLOR_COUNT as int) as usize)
    }
}

/// Where the assignment of lanes stands.
#[verifier::ext_equal]
pub struct LanesView {
    pub lanes: Seq<Option<Oid>>,
    pub max_lane: int,
    /// The layouts of the commits assigned so far.
    pub rows: Seq<CommitLayout>,
}

/// The assignment after one more commit.
pub open spec fn assigned(s: LanesView, commits: Seq<CommitInfo>, c: CommitInfo) -> LanesView {
    let lane = lane_for(s.lanes, c.id);
    let lanes = with_parents(
        freed(opened(s.lanes, lane), c.id, lane),
        commits,
        lane,
        c.parent_ids@,
        c.parent_ids@.len(),
    );
    LanesView {
        lanes,
        max_lane: peak(lanes, s.max_lane, lanes.len() as int),
        rows: s.rows.push(
            CommitLayout { lane: lane as usize, color: commit_paint(c.is_orphaned, lane) },
        ),
    }
}

/// The assignment after the first `n` commits.
pub open spec fn lanes_after(commits: Seq<CommitInfo>, n: nat) -> LanesView
    decreases n,
{
    if n == 0 {
        LanesView { lanes: Seq::empty(), max_lane: 0, rows: Seq::empty() }
    } else {
        assigned(lanes_after(commits, (n - 1) as nat), commits, commits[n - 1])
    }
}

// ---------------------------------------------------------------------------
// Edges
// ---------------------------------------------------------------------------

/// The last row below `n` of the commit `id`, -1 where there is none.
pub open spec fn last_row(commits: Seq<CommitInfo>, id: Oid, n: int) -> int
    decreases n,
{
    if n <= 0 {
        -1
    } else if commits[n - 1].id == id {
        n - 1
    } else {
        last_row(commits, id, n - 1)
    }
}

/// The layout of the commit `id`.
pub open spec fn layout_of(
    commits: Seq<CommitInfo>,
    rows: Seq<CommitLayout>,
    id: Oid,
) -> CommitLayout {
    rows[last_row(commits, id, commits.len() as int)]
}

/// The edges of the commit in `row` to the first `n` of its parents; a parent that is not
/// listed has none.
pub open spec fn edges_of(
    commits: Seq<CommitInfo>,
    rows: Seq<CommitLayout>,
    row: int,
    n: nat,
) -> Seq<GraphEdge>
    decreases n,
{
    if n == 0 {
        Seq::empty()
    } else {
        let rest = edges_of(commits, rows, row, (n - 1) as nat);
        let parent = commits[row].parent_ids@[n - 1];
        let parent_row = last_row(commits, parent, commits.len() as int);
        if parent_row < 0 {
            rest
        } else {
            let child = layout_of(commits, rows, commits[row].id);
            rest.push(
                GraphEdge {
                    child_row: row as usize,
                    child_lane: child.lane,
                    parent_row: parent_row as usize,
                    parent_lane: rows[parent_row].lane,
                    color: child.color,
                },
            )
        }
    }
}

/// The edges of the commits in the first `n` rows.
pub open spec fn edges_below(
    commits: Seq<CommitInfo>,
    rows: Seq<CommitLayout>,
    n: nat,
) -> Seq<GraphEdge>
    decreases n,
{
    if n == 0 {
        Seq::empty()
    } else {
        edges_below(commits, rows, (n - 1) as nat) + edges_of(
            commits,
            rows,
            n - 1,
            commits[n - 1].parent_ids@.len(),
        )
    }
}

// ---------------------------------------------------------------------------
// Rows
// ---------------------------------------------------------------------------

/// A row with what an edge shows in it. An edge within one lane is a line from below the
/// child's node to above the parent's; one between lanes has a part of its curve in every
/// row that it spans. Only an edge that leads down shows.
pub open spec fn row_with_edge(g: RowView, row: int, e: GraphEdge) -> RowView {
    if e.child_row >= e.parent_row || row < e.child_row || row > e.parent_row {
        g
    } else if e.child_lane != e.parent_lane {
        RowView { curves: g.curves.push(e), ..g }
    } else if row == e.child_row {
        RowView {
            bottom_half_verticals: g.bottom_half_verticals.push((e.child_lane, e.color)),
            ..g
        }
    } else if row == e.parent_row {
        RowView { top_half_verticals: g.top_half_verticals.push((e.child_lane, e.color)), ..g }
    } else {
        RowView { full_verticals: g.full_verticals.push((e.child_lane, e.color)), ..g }
    }
}

/// Rows with what an edge shows in them.
pub open spec fn rows_with_edge(rows: Seq<RowView>, e: GraphEdge) -> Seq<RowView> {
    Seq::new(rows.len(), |r: int| row_with_edge(rows[r], r, e))
}

/// `n` rows with what edges show in them.
pub open spec fn rows_of(edges: Seq<GraphEdge>, n: nat) -> Seq<RowView>
    decreases edges.len(),
{
    if edges.len() == 0 {
        Seq::new(n, |r: int| blank_row())
    } else {
        rows_with_edge(rows_of(edges.drop_last(), n), edges.last())
    }
}

proof fn lemma_rows_of_len(edges: Seq<GraphEdge>, n: nat)
    ensures
        rows_of(edges, n).len() == n,
    decreases edges.len(),
{
    if edges.len() > 0 {
        lemma_rows_of_len(edges.drop_last(), n);
    }
}

/// Decompose one edge into per-row paint entries.
pub fn decompose_edge_into_rows(edge: &GraphEdge, rows: &mut Vec<RowGeometry>)
    requires
        edge.child_row < edge.parent_row && edge.child_lane != edge.parent_lane ==> edge.parent_row
            < old(rows).len(),
    ensures
        crate::text::views(final(rows)@) == rows_with_edge(
            crate::text::views(old(rows)@),
            *edge,
        ),
{
    let ghost start = crate::text::views(rows@);
    let n: usize = rows.len();
    let mut r: usize = 0;
    while r < n
        invariant
            r <= n,
            rows.len() == n,
            start.len() == n,
            forall|k: int|
                0 <= k < r ==> (#[trigger] rows@[k])@ == row_with_edge(start[k], k, *edge),
            forall|k: int| r <= k < n ==> (#[trigger] rows@[k])@ == start[k],
        decreases n - r,
    {
        let ghost before = rows@;
        if edge.child_row < edge.parent_row && edge.child_row <= r && r <= edge.parent_row {
            let g = &mut rows[r];
            if edge.child_lane != edge.parent_lane {
                g.curves.push(*edge);
            } else if r == edge.child_row {
                g.bottom_half_verticals.push((edge.child_lane, edge.color));
            } else if r == edge.parent_row {
                g.top_half_verticals.push((edge.child_lane, edge.color));
            } else {
                g.full_verticals.push((edge.child_lane, edge.color));
            }
        }
        assert(rows@[r as int]@ =~= row_with_edge(start[r as int], r as int, *edge));
        assert(forall|k: int| 0 <= k < n && k != r ==> (#[trigger] rows@[k]) == before[k]);
        r = r + 1;
    }
    assert(crate::text::views(rows@) =~= rows_with_edge(start, *edge));
}

/// Lane assignment, edges and rows of a list of commits.
pub struct GraphLayout {
    /// The ids of the commits, by row.
    pub ids: Vec<Oid>,
    /// The layouts of the commits, by row.
    pub layouts: Vec<CommitLayout>,
    pub max_lane: usize,
    /// Edges built alongside lane assignment — one per commit/parent
    /// pair where both ends are in the commit list.
    pub edges: Vec<GraphEdge>,
    /// Per-row paint data, indexed by row.
    pub row_geometry: Vec<RowGeometry>,
    /// How many lanes the graph column shows: those in use, up to the cap.
    pub visible_lanes: usize,
}

/// The ids of commits.
pub open spec fn ids_of(commits: Seq<CommitInfo>) -> Seq<Oid> {
    Seq::new(commits.len(), |i: int| commits[i].id)
}

/// The last index below `n` of `id`, -1 where there is none.
pub open spec fn last_index(ids: Seq<Oid>, id: Oid, n: int) -> int
    decreases n,
{
    if n <= 0 {
        -1
    } else if ids[n - 1] == id {
        n - 1
    } else {
        last_index(ids, id, n - 1)
    }
}

proof fn lemma_last_row(commits: Seq<CommitInfo>, id: Oid, n: int)
    requires
        0 <= n <= commits.len(),
    ensures
        -1 <= last_row(commits, id, n) < n,
        last_row(commits, id, n) >= 0 ==> commits[last_row(commits, id, n)].id == id,
        forall|j: int|
            last_row(commits, id, n) < j < n ==> (#[trigger] commits[j]).id != id,
        last_row(commits, id, n) == last_index(ids_of(commits), id, n),
    decreases n,
{
    if n > 0 && commits[n - 1].id != id {
        lemma_last_row(commits, id, n - 1);
    }
}

fn find_lane(lanes: &Vec<Option<Oid>>, what: Option<Oid>) -> (r: usize)
    ensures
        r <= lanes.len(),
        r == lane_from(lanes@, what, 0),
{
    let mut i: usize = 0;
    while i < lanes.len()
        invariant
            i <= lanes.len(),
            lane_from(lanes@, what, 0) == lane_from(lanes@, what, i as int),
        decreases lanes.len() - i,
    {
        let hit = match (lanes[i], what) {
            (Some(a), Some(b)) => a == b,
            (None, None) => true,
            _ => false,
        };
        if hit {
            return i;
        }
        i = i + 1;
    }
    i
}

fn is_listed(commits: &Vec<CommitInfo>, id: Oid) -> (r: bool)
    ensures
        r == listed(commits@, id),
{
    let mut i: usize = 0;
    while i < commits.len()
        invariant
            i <= commits.len(),
            forall|j: int| 0 <= j < i ==> (#[trigger] commits@[j]).id != id,
        decreases commits.len() - i,
    {
        if commits[i].id == id {
            assert(commits@[i as int].id == id);
            return true;
        }
        i = i + 1;
    }
    false
}

fn find_last(ids: &Vec<Oid>, id: Oid) -> (r: Option<usize>)
    ensures
        match r {
            Some(i) => i < ids.len() && last_index(ids@, id, ids.len() as int) == i,
            None => last_index(ids@, id, ids.len() as int) == -1,
        },
{
    let mut n: usize = ids.len();
    while n > 0
        invariant
            n <= ids.len(),
            last_index(ids@, id, ids.len() as int) == last_index(ids@, id, n as int),
        decreases n,
    {
        if ids[n - 1] == id {
            return Some(n - 1);
        }
        n = n - 1;
    }
    None
}

proof fn lemma_lane_from(lanes: Seq<Option<Oid>>, what: Option<Oid>, i: int)
    requires
        0 <= i <= lanes.len(),
    ensures
        i <= lane_from(lanes, what, i) <= lanes.len(),
        lane_from(lanes, what, i) < lanes.len() ==> lanes[lane_from(lanes, what, i)] == what,
        forall|j: int| i <= j < lane_from(lanes, what, i) ==> lanes[j] != what,
    decreases lanes.len() - i,
{
    if i < lanes.len() && lanes[i] != what {
        lemma_lane_from(lanes, what, i + 1);
    }
}

fn free_others(lanes: &mut Vec<Option<Oid>>, id: Oid, lane: usize)
    ensures
        final(lanes)@ == freed(old(lanes)@, id, lane as int),
{
    let ghost start = lanes@;
    let n: usize = lanes.len();
    let mut i: usize = 0;
    while i < n
        invariant
            i <= n,
            lanes.len() == n,
            start.len() == n,
            forall|k: int| 0 <= k < i ==> lanes@[k] == freed(start, id, lane as int)[k],
            forall|k: int| i <= k < n ==> lanes@[k] == start[k],
        decreases n - i,
    {
        let waits = match lanes[i] {
            Some(w) => w == id,
            None => false,
        };
        if i != lane && waits {
            lanes.set(i, None);
        }
        i = i + 1;
    }
    assert(lanes@ =~= freed(start, id, lane as int));
}

fn add_parent(lanes: &mut Vec<Option<Oid>>, commits: &Vec<CommitInfo>, parent: Oid)
    ensures
        final(lanes)@ == with_parent(old(lanes)@, commits@, parent),
{
    if !is_listed(commits, parent) {
        return;
    }
    let waiting: usize = find_lane(lanes, Some(parent));
    proof {
        lemma_lane_from(lanes@, Some(parent), 0);
    }
    if waiting < lanes.len() {
        assert(lanes@[waiting as int] == Some(parent));
        assert(lanes@.contains(Some(parent)));
        return;
    }
    assert(!lanes@.contains(Some(parent)));
    let lane: usize = find_lane(lanes, None);
    if lane == lanes.len() {
        lanes.push(None);
    }
    lanes.set(lane, Some(parent));
}

fn update_lanes_for_parents(
    lanes: &mut Vec<Option<Oid>>,
    commits: &Vec<CommitInfo>,
    commit: &CommitInfo,
    lane: usize,
)
    requires
        lane < old(lanes).len(),
    ensures
        final(lanes)@ == with_parents(
            old(lanes)@,
            commits@,
            lane as int,
            commit.parent_ids@,
            commit.parent_ids@.len(),
        ),
{
    let ghost start = lanes@;
    if commit.parent_ids.len() == 0 {
        lanes.set(lane, None);
        return;
    }
    let first = commit.parent_ids[0];
    if is_listed(commits, first) {
        lanes.set(lane, Some(first));
    } else {
        lanes.set(lane, None);
    }
    let mut i: usize = 1;
    while i < commit.parent_ids.len()
        invariant
            1 <= i <= commit.parent_ids.len(),
            lanes@ == with_parents(start, commits@, lane as int, commit.parent_ids@, i as nat),
        decreases commit.parent_ids.len() - i,
    {
        add_parent(lanes, commits, commit.parent_ids[i]);
        i = i + 1;
    }
}

fn update_peak(lanes: &Vec<Option<Oid>>, max_lane: usize) -> (r: usize)
    ensures
        r == peak(lanes@, max_lane as int, lanes@.len() as int),
{
    let mut i: usize = lanes.len();
    while i > 0
        invariant
            i <= lanes.len(),
            peak(lanes@, max_lane as int, lanes@.len() as int) == peak(
                lanes@,
                max_lane as int,
                i as int,
            ),
        decreases i,
    {
        if lanes[i - 1].is_some() {
            return if i - 1 > max_lane {
                i - 1
            } else {
                max_lane
            };
        }
        i = i - 1;
    }
    max_lane
}

/// How many lanes the graph column shows.
pub open spec fn shown_lanes(max_lane: int) -> int {
    if max_lane + 1 < LANE_COUNT_VISUAL {
        max_lane + 1
    } else {
        LANE_COUNT_VISUAL as int
    }
}

impl GraphLayout {
    /// Whether the layout is that of `commits`.
    pub open spec fn lays_out(self, commits: Seq<CommitInfo>) -> bool {
        let s = lanes_after(commits, commits.len());
        &&& self.ids@ == ids_of(commits)
        &&& self.layouts@ == s.rows
        &&& self.max_lane == s.max_lane
        &&& self.edges@ == edges_below(commits, s.rows, commits.len())
        &&& crate::text::views(self.row_geometry@) == rows_of(self.edges@, commits.len())
        &&& self.visible_lanes == shown_lanes(s.max_lane)
    }

    /// A layout of no commits.
    pub fn new() -> (r: Self)
        ensures
            r.lays_out(Seq::empty()),
    {
        let r = GraphLayout {
            ids: Vec::new(),
            layouts: Vec::new(),
            max_lane: 0,
            edges: Vec::new(),
            row_geometry: Vec::new(),
            visible_lanes: 1,
        };
        assert(r.ids@ =~= ids_of(Seq::empty()));
        assert(crate::text::views(r.row_geometry@) =~= rows_of(r.edges@, 0));
        r
    }

    /// Lays out `commits`.
    pub fn build(&mut self, commits: &Vec<CommitInfo>)
        ensures
            final(self).lays_out(commits@),
    {
        let mut ids: Vec<Oid> = Vec::new();
        let mut layouts: Vec<CommitLayout> = Vec::new();
        let mut lanes: Vec<Option<Oid>> = Vec::new();
        let mut max_lane: usize = 0;
        let mut i: usize = 0;
        while i < commits.len()
            invariant
                i <= commits.len(),
                ids@ == ids_of(commits@).take(i as int),
                layouts.len() == i,
                max_lane < usize::MAX,
                lanes_after(commits@, i as nat) == (LanesView {
                    lanes: lanes@,
                    max_lane: max_lane as int,
                    rows: layouts@,
                }),
            decreases commits.len() - i,
        {
            let commit = &commits[i];
            ids.push(commit.id);
            assert(ids@ =~= ids_of(commits@).take(i + 1));
            let waiting: usize = find_lane(&lanes, Some(commit.id));
            let lane: usize = if waiting < lanes.len() {
                waiting
            } else {
                find_lane(&lanes, None)
            };
            if lane == lanes.len() {
                lanes.push(None);
            }
            let color = if commit.is_orphaned {
                Paint::Orphan
            } else {
                Paint::Lane(lane % LANE_COLOR_COUNT)
            };
            layouts.push(CommitLayout { lane, color });
            free_others(&mut lanes, commit.id, lane);
            update_lanes_for_parents(&mut lanes, commits, commit, lane);
            max_lane = update_peak(&lanes, max_lane);
            let count: usize = lanes.len();
            i = i + 1;
            proof {
                let s = lanes_after(commits@, (i - 1) as nat);
                assert(lanes_after(commits@, i as nat) == assigned(
                    s,
                    commits@,
                    commits@[i - 1],
                ));
                lemma_peak_bound(lanes@, s.max_lane, count as int);
            }
        }
        assert(ids@ =~= ids_of(commits@));
        let mut edges: Vec<GraphEdge> = Vec::new();
        let mut row: usize = 0;
        while row < commits.len()
            invariant
                row <= commits.len(),
                ids@ == ids_of(commits@),
                layouts.len() == commits.len(),
                edges@ == edges_below(commits@, layouts@, row as nat),
                forall|k: int|
                    0 <= k < edges.len() ==> (#[trigger] edges@[k]).parent_row < commits.len(),
            decreases commits.len() - row,
        {
            let commit = &commits[row];
            proof {
                lemma_last_row(commits@, commit.id, commits@.len() as int);
            }
            let ghost before = edges@;
            let mut p: usize = 0;
            assert(edges@ =~= before + edges_of(commits@, layouts@, row as int, 0));
            while p < commit.parent_ids.len()
                invariant
                    p <= commit.parent_ids.len(),
                    row < commits.len(),
                    *commit == commits@[row as int],
                    ids@ == ids_of(commits@),
                    layouts.len() == commits.len(),
                    0 <= last_row(commits@, commit.id, commits@.len() as int),
                    edges@ == before + edges_of(commits@, layouts@, row as int, p as nat),
                    forall|k: int|
                        0 <= k < edges.len() ==> (#[trigger] edges@[k]).parent_row
                            < commits.len(),
                decreases commit.parent_ids.len() - p,
            {
                let parent = commit.parent_ids[p];
                proof {
                    lemma_last_row(commits@, parent, commits@.len() as int);
                    lemma_last_row(commits@, commit.id, commits@.len() as int);
                }
                if let Some(parent_row) = find_last(&ids, parent) {
                    if let Some(own) = find_last(&ids, commit.id) {
                        let child = layouts[own];
                        edges.push(
                            GraphEdge {
                                child_row: row,
                                child_lane: child.lane,
                                parent_row,
                                parent_lane: layouts[parent_row].lane,
                                color: child.color,
                            },
                        );
                    }
                }
                p = p + 1;
                assert(edges@ =~= before + edges_of(commits@, layouts@, row as int, p as nat));
            }
            row = row + 1;
        }
        let mut rows: Vec<RowGeometry> = Vec::new();
        let n: usize = commits.len();
        while rows.len() < n
            invariant
                rows.len() <= n,
                crate::text::views(rows@) == Seq::new(rows.len() as nat, |r: int| blank_row()),
            decreases n - rows.len(),
        {
            let g: RowGeometry = RowGeometry::default();
            let ghost before = rows@;
            rows.push(g);
            assert(crate::text::views(rows@) =~= Seq::new(
                rows.len() as nat,
                |r: int| blank_row(),
            )) by {
                assert(crate::text::views(rows@) =~= crate::text::views(before).push(g@));
            }
        }
        let mut e: usize = 0;
        assert(edges@.take(0) =~= Seq::empty());
        while e < edges.len()
            invariant
                e <= edges.len(),
                n == commits.len(),
                rows.len() == n,
                crate::text::views(rows@) == rows_of(edges@.take(e as int), n as nat),
                forall|k: int|
                    0 <= k < edges.len() ==> (#[trigger] edges@[k]).parent_row < n,
            decreases edges.len() - e,
        {
            proof {
                assert(edges@.take(e + 1).drop_last() =~= edges@.take(e as int));
                assert(edges@.take(e + 1).last() == edges@[e as int]);
                lemma_rows_of_len(edges@.take(e + 1), n as nat);
            }
            decompose_edge_into_rows(&edges[e], &mut rows);
            assert(rows.len() == crate::text::views(rows@).len());
            e = e + 1;
        }
        assert(edges@.take(edges@.len() as int) =~= edges@);
        self.ids = ids;
        self.layouts = layouts;
        self.max_lane = max_lane;
        self.edges = edges;
        self.row_geometry = rows;
        self.visible_lanes = if max_lane + 1 < LANE_COUNT_VISUAL {
            max_lane + 1
        } else {
            LANE_COUNT_VISUAL
        };
    }

    /// The layout of the commit `id`.
    pub fn get(&self, id: &Oid) -> (r: Option<&CommitLayout>)
        requires
            self.ids@.len() == self.layouts@.len(),
        ensures
            match r {
                Some(l) => {
                    let i = last_index(self.ids@, *id, self.ids@.len() as int);
                    i >= 0 && *l == self.layouts@[i]
                },
                None => last_index(self.ids@, *id, self.ids@.len() as int) == -1,
            },
    {
        match find_last(&self.ids, *id) {
            Some(i) => Some(&self.layouts[i]),
            None => None,
        }
    }
}

proof fn lemma_peak_bound(lanes: Seq<Option<Oid>>, least: int, i: int)
    requires
        0 <= i <= lanes.len(),
    ensures
        least <= peak(lanes, least, i),
        peak(lanes, least, i) == least || peak(lanes, least, i) < i,
        forall|j: int| 0 <= j < i && lanes[j] is Some ==> j <= peak(lanes, least, i),
    decreases i,
{
    if i > 0 && lanes[i - 1] is None {
        lemma_peak_bound(lanes, least, i - 1);
    }
}

/// A history in which each commit has the next one as its only parent takes a single lane,
/// and the graph column shows a single lane for it.
pub proof fn linear_history_is_one_lane(commits: Seq<CommitInfo>, n: nat)
    requires
        0 < n <= commits.len(),
        forall|i: int, j: int|
            0 <= i < j < commits.len() ==> (#[trigger] commits[i]).id != (
            #[trigger] commits[j]).id,
        forall|i: int|
            0 <= i < commits.len() - 1 ==> (#[trigger] commits[i]).parent_ids@ == seq![
                commits[i + 1].id,
            ],
        forall|k: int|
            0 <= k < commits.last().parent_ids@.len() ==> !listed(
                commits,
                #[trigger] commits.last().parent_ids@[k],
            ),
    ensures
        forall|i: int| 0 <= i < n ==> (#[trigger] lanes_after(commits, n).rows[i]).lane == 0,
        lanes_after(commits, n).rows.len() == n,
        lanes_after(commits, n).lanes == seq![
            if n < commits.len() {
                Some(commits[n as int].id)
            } else {
                None
            },
        ],
        shown_lanes(lanes_after(commits, n).max_lane) == 1,
    decreases n,
{
    let before = lanes_after(commits, (n - 1) as nat);
    let c = commits[n - 1];
    if n > 1 {
        linear_history_is_one_lane(commits, (n - 1) as nat);
    }
    let lane = lane_for(before.lanes, c.id);
    reveal_with_fuel(lane_from, 3);
    assert(lane == 0);
    let open_lanes = opened(before.lanes, lane);
    assert(open_lanes.len() == 1);
    let free = freed(open_lanes, c.id, 0);
    assert(free =~= open_lanes);
    let lanes = lanes_after(commits, n).lanes;
    if n < commits.len() {
        assert(commits[n - 1].parent_ids@ == seq![commits[n as int].id]);
        assert(listed(commits, commits[n as int].id));
        assert(lanes =~= seq![Some(commits[n as int].id)]);
    } else {
        assert(c == commits.last());
        lemma_unlisted_parents(free, commits, c.parent_ids@, c.parent_ids@.len());
        assert(lanes =~= seq![None]);
    }
    reveal_with_fuel(peak, 3);
    assert(lanes_after(commits, n).max_lane == 0);
    assert forall|i: int| 0 <= i < n implies (#[trigger] lanes_after(commits, n).rows[i]).lane
        == 0 by {
        if i < n - 1 {
            assert(lanes_after(commits, n).rows[i] == before.rows[i]);
        }
    }
}

proof fn lemma_unlisted_parents(
    lanes: Seq<Option<Oid>>,
    commits: Seq<CommitInfo>,
    parents: Seq<Oid>,
    n: nat,
)
    requires
        lanes.len() == 1,
        n <= parents.len(),
        forall|k: int| 0 <= k < parents.len() ==> !listed(commits, #[trigger] parents[k]),
    ensures
        with_parents(lanes, commits, 0, parents, n) == seq![None::<Oid>],
    decreases n,
{
    if n > 1 {
        lemma_unlisted_parents(lanes, commits, parents, (n - 1) as nat);
        assert(!listed(commits, parents[n - 1]));
    } else {
        if n == 1 {
            assert(!listed(commits, parents[0]));
        }
        assert(with_parents(lanes, commits, 0, parents, n) =~= seq![None::<Oid>]);
    }
}

/// A commit stands on the first lane that waits for it; where none does, on the lowest free
/// lane, or on a new one where none is free.
pub proof fn commits_take_the_waiting_or_lowest_free_lane(lanes: Seq<Option<Oid>>, id: Oid)
    ensures
        0 <= lane_for(lanes, id) <= lanes.len(),
        lanes.contains(Some(id)) ==> lane_for(lanes, id) < lanes.len() && lanes[lane_for(
            lanes,
            id,
        )] == Some(id) && forall|j: int| 0 <= j < lane_for(lanes, id) ==> lanes[j] != Some(id),
        !lanes.contains(Some(id)) ==> (lane_for(lanes, id) < lanes.len() ==> lanes[lane_for(
            lanes,
            id,
        )] is None) && forall|j: int| 0 <= j < lane_for(lanes, id) ==> lanes[j] is Some,
{
    lemma_lane_from(lanes, Some(id), 0);
    lemma_lane_from(lanes, None, 0);
    let w = lane_from(lanes, Some(id), 0);
    if lanes.contains(Some(id)) {
        let k = choose|k: int| 0 <= k < lanes.len() && lanes[k] == Some(id);
        assert(w <= k);
    } else if w < lanes.len() {
        assert(lanes.contains(lanes[w]));
    }
}

proof fn lemma_only_parents_wait(
    lanes: Seq<Option<Oid>>,
    commits: Seq<CommitInfo>,
    lane: int,
    parents: Seq<Oid>,
    n: nat,
    id: Oid,
)
    requires
        0 <= lane < lanes.len(),
        n <= parents.len(),
        !parents.contains(id),
        forall|i: int| 0 <= i < lanes.len() && i != lane ==> lanes[i] != Some(id),
    ensures
        with_parents(lanes, commits, lane, parents, n).len() >= lanes.len(),
        !with_parents(lanes, commits, lane, parents, n).contains(Some(id)),
    decreases n,
{
    let r = with_parents(lanes, commits, lane, parents, n);
    if n > 1 {
        let before = with_parents(lanes, commits, lane, parents, (n - 1) as nat);
        lemma_only_parents_wait(lanes, commits, lane, parents, (n - 1) as nat, id);
        lemma_lane_from(before, None, 0);
        assert(parents.contains(parents[n - 1]));
        if r.contains(Some(id)) {
            let k = choose|k: int| 0 <= k < r.len() && r[k] == Some(id);
            if k < before.len() && r[k] == before[k] {
                assert(before.contains(Some(id)));
            }
        }
    } else {
        if n == 1 {
            assert(parents.contains(parents[0]));
        }
        if r.contains(Some(id)) {
            let k = choose|k: int| 0 <= k < r.len() && r[k] == Some(id);
        }
    }
}

/// Once a commit has come, no lane waits for it any more, however many children led to it.
pub proof fn no_lane_waits_for_a_commit_that_came(
    s: LanesView,
    commits: Seq<CommitInfo>,
    c: CommitInfo,
)
    requires
        !c.parent_ids@.contains(c.id),
    ensures
        !assigned(s, commits, c).lanes.contains(Some(c.id)),
{
    commits_take_the_waiting_or_lowest_free_lane(s.lanes, c.id);
    let lane = lane_for(s.lanes, c.id);
    lemma_only_parents_wait(
        freed(opened(s.lanes, lane), c.id, lane),
        commits,
        lane,
        c.parent_ids@,
        c.parent_ids@.len(),
        c.id,
    );
}

/// Whether an edge leads from a commit to one of its parents.
pub open spec fn leads_to_parent(commits: Seq<CommitInfo>, e: GraphEdge) -> bool {
    &&& e.child_row < commits.len()
    &&& e.parent_row < commits.len()
    &&& commits[e.child_row as int].parent_ids@.contains(commits[e.parent_row as int].id)
}

proof fn lemma_edges_of(commits: Seq<CommitInfo>, rows: Seq<CommitLayout>, row: int, n: nat)
    requires
        0 <= row < commits.len() <= usize::MAX,
        n <= commits[row].parent_ids@.len(),
    ensures
        forall|k: int|
            0 <= k < edges_of(commits, rows, row, n).len() ==> leads_to_parent(
                commits,
                #[trigger] edges_of(commits, rows, row, n)[k],
            ),
    decreases n,
{
    if n > 0 {
        lemma_edges_of(commits, rows, row, (n - 1) as nat);
        let parents = commits[row].parent_ids@;
        let parent = parents[n - 1];
        lemma_last_row(commits, parent, commits.len() as int);
        assert(parents.contains(parent));
        let rest = edges_of(commits, rows, row, (n - 1) as nat);
        let now = edges_of(commits, rows, row, n);
        assert forall|k: int| 0 <= k < now.len() implies leads_to_parent(
            commits,
            #[trigger] now[k],
        ) by {
            if k < rest.len() {
                assert(now[k] == rest[k]);
            }
        }
    }
}

/// Every edge leads from a commit to one of its parents, both of them listed.
pub proof fn edges_lead_to_parents(commits: Seq<CommitInfo>, rows: Seq<CommitLayout>, n: nat)
    requires
        n <= commits.len() <= usize::MAX,
    ensures
        forall|k: int|
            0 <= k < edges_below(commits, rows, n).len() ==> leads_to_parent(
                commits,
                #[trigger] edges_below(commits, rows, n)[k],
            ),
    decreases n,
{
    if n > 0 {
        edges_lead_to_parents(commits, rows, (n - 1) as nat);
        lemma_edges_of(commits, rows, n - 1, commits[n - 1].parent_ids@.len());
        let a = edges_below(commits, rows, (n - 1) as nat);
        let b = edges_of(commits, rows, n - 1, commits[n - 1].parent_ids@.len());
        assert forall|k: int| 0 <= k < edges_below(commits, rows, n).len() implies leads_to_parent(
            commits,
            #[trigger] edges_below(commits, rows, n)[k],
        ) by {
            if k < a.len() {
                assert(edges_below(commits, rows, n)[k] == a[k]);
            } else {
                assert(edges_below(commits, rows, n)[k] == b[k - a.len()]);
            }
        }
    }
}

proof fn lemma_lanes_have_rows(commits: Seq<CommitInfo>, n: nat)
    ensures
        lanes_after(commits, n).rows.len() == n,
    decreases n,
{
    if n > 0 {
        lemma_lanes_have_rows(commits, (n - 1) as nat);
    }
}

/// Whether an edge joins the nodes of its commits: it starts on the lane of its child and has its
/// color, and ends on the lane of its parent. Of rows with one id the last counts.
pub open spec fn joins_nodes(commits: Seq<CommitInfo>, rows: Seq<CommitLayout>, e: GraphEdge) -> bool {
    &&& e.child_row < commits.len()
    &&& e.parent_row < commits.len()
    &&& commits[e.child_row as int].parent_ids@.contains(commits[e.parent_row as int].id)
    &&& forall|j: int|
        e.parent_row < j < commits.len() ==> (#[trigger] commits[j]).id
            != commits[e.parent_row as int].id
    &&& e.parent_lane == rows[e.parent_row as int].lane
    &&& forall|r: int|
        e.child_row <= r < commits.len() && (#[trigger] commits[r]).id
            == commits[e.child_row as int].id && (forall|j: int|
            r < j < commits.len() ==> (#[trigger] commits[j]).id != commits[r].id)
            ==> e.child_lane == rows[r].lane && e.color == rows[r].color
}

proof fn lemma_edges_of_join(commits: Seq<CommitInfo>, rows: Seq<CommitLayout>, row: int, n: nat)
    requires
        0 <= row < commits.len() <= usize::MAX,
        n <= commits[row].parent_ids@.len(),
    ensures
        forall|k: int|
            0 <= k < edges_of(commits, rows, row, n).len() ==> {
                &&& (#[trigger] edges_of(commits, rows, row, n)[k]).child_row == row
                &&& joins_nodes(commits, rows, edges_of(commits, rows, row, n)[k])
            },
    decreases n,
{
    if n > 0 {
        lemma_edges_of_join(commits, rows, row, (n - 1) as nat);
        let parents = commits[row].parent_ids@;
        let parent = parents[n - 1];
        lemma_last_row(commits, parent, commits.len() as int);
        lemma_last_row(commits, commits[row].id, commits.len() as int);
        assert(parents.contains(parent));
        let rest = edges_of(commits, rows, row, (n - 1) as nat);
        let now = edges_of(commits, rows, row, n);
        assert forall|k: int| 0 <= k < now.len() implies {
            &&& (#[trigger] now[k]).child_row == row
            &&& joins_nodes(commits, rows, now[k])
        } by {
            if k < rest.len() {
                assert(now[k] == rest[k]);
            } else {
                let e = now[k];
                let own = last_row(commits, commits[row].id, commits.len() as int);
                assert(e.child_lane == rows[own].lane);
                assert forall|r: int|
                    e.child_row <= r < commits.len() && (#[trigger] commits[r]).id
                        == commits[e.child_row as int].id && (forall|j: int|
                        r < j < commits.len() ==> (#[trigger] commits[j]).id
                            != commits[r].id) implies e.child_lane == rows[r].lane && e.color
                    == rows[r].color by {
                    if own < r {
                        assert(commits[r].id != commits[row].id);
                    } else if r < own {
                        assert(commits[own].id != commits[r].id);
                    }
                }
            }
        }
    }
}

proof fn lemma_edges_below_join(commits: Seq<CommitInfo>, rows: Seq<CommitLayout>, n: nat)
    requires
        n <= commits.len() <= usize::MAX,
    ensures
        forall|k: int|
            0 <= k < edges_below(commits, rows, n).len() ==> {
                &&& (#[trigger] edges_below(commits, rows, n)[k]).child_row < n
                &&& joins_nodes(commits, rows, edges_below(commits, rows, n)[k])
            },
        forall|a: int, b: int|
            0 <= a <= b < edges_below(commits, rows, n).len() ==> (#[trigger] edges_below(
                commits,
                rows,
                n,
            )[a]).child_row <= (#[trigger] edges_below(commits, rows, n)[b]).child_row,
    decreases n,
{
    if n > 0 {
        lemma_edges_below_join(commits, rows, (n - 1) as nat);
        lemma_edges_of_join(commits, rows, n - 1, commits[n - 1].parent_ids@.len());
        let a = edges_below(commits, rows, (n - 1) as nat);
        let b = edges_of(commits, rows, n - 1, commits[n - 1].parent_ids@.len());
        let now = edges_below(commits, rows, n);
        assert forall|k: int| 0 <= k < now.len() implies {
            &&& (#[trigger] now[k]).child_row < n
            &&& joins_nodes(commits, rows, now[k])
        } by {
            if k < a.len() {
                assert(now[k] == a[k]);
            } else {
                assert(now[k] == b[k - a.len()]);
            }
        }
        assert forall|x: int, y: int| 0 <= x <= y < now.len() implies (
        #[trigger] now[x]).child_row <= (#[trigger] now[y]).child_row by {
            if y < a.len() {
                assert(now[x] == a[x] && now[y] == a[y]);
            } else {
                assert(now[y] == b[y - a.len()]);
                if x < a.len() {
                    assert(now[x] == a[x]);
                } else {
                    assert(now[x] == b[x - a.len()]);
                }
            }
        }
    }
}

/// Every edge of a layout joins the node of a commit with that of one of its parents: it starts on
/// the lane of the one and ends on the lane of the other. The edges stand in the order of their
/// children.
pub proof fn edges_join_the_lanes_of_their_commits(
    g: GraphLayout,
    commits: Seq<CommitInfo>,
    k: int,
    next: int,
)
    requires
        g.lays_out(commits),
        commits.len() <= usize::MAX,
        0 <= k <= next < g.edges@.len(),
    ensures
        g.layouts@.len() == commits.len(),
        joins_nodes(commits, g.layouts@, g.edges@[k]),
        g.edges@[k].child_row <= g.edges@[next].child_row,
{
    lemma_lanes_have_rows(commits, commits.len());
    lemma_edges_below_join(commits, g.layouts@, commits.len());
}

/// Where no id occurs twice, an edge starts on the lane of the commit in its first row, in its
/// color, and ends on the lane of the commit in its last row.
pub proof fn edges_start_and_end_at_their_nodes(g: GraphLayout, commits: Seq<CommitInfo>, k: int)
    requires
        g.lays_out(commits),
        commits.len() <= usize::MAX,
        0 <= k < g.edges@.len(),
        forall|i: int, j: int|
            0 <= i < j < commits.len() ==> (#[trigger] commits[i]).id != (
            #[trigger] commits[j]).id,
    ensures
        g.edges@[k].child_lane == g.layouts@[g.edges@[k].child_row as int].lane,
        g.edges@[k].color == g.layouts@[g.edges@[k].child_row as int].color,
        g.edges@[k].parent_lane == g.layouts@[g.edges@[k].parent_row as int].lane,
{
    edges_join_the_lanes_of_their_commits(g, commits, k, k);
    let e = g.edges@[k];
    let r = e.child_row as int;
    assert(commits[r].id == commits[e.child_row as int].id);
}

/// The edges of a commit lead to those of its parents that are listed, one to each and in their
/// order.
pub proof fn a_commit_has_an_edge_to_each_listed_parent(
    g: GraphLayout,
    commits: Seq<CommitInfo>,
    row: int,
)
    requires
        g.lays_out(commits),
        commits.len() <= usize::MAX,
        0 <= row < commits.len(),
    ensures
        g.edges@.filter(|e: GraphEdge| e.child_row == row).map_values(
            |e: GraphEdge| commits[e.parent_row as int].id,
        ) == commits[row].parent_ids@.filter(
            |id: Oid| exists|j: int| 0 <= j < commits.len() && (#[trigger] commits[j]).id == id,
        ),
{
    lemma_lanes_have_rows(commits, commits.len());
    lemma_own_edges(commits, g.layouts@, row, commits.len());
    lemma_parents_of_edges(commits, g.layouts@, row, commits[row].parent_ids@.len());
    let parents = commits[row].parent_ids@;
    assert(parents.take(parents.len() as int) =~= parents);
}

proof fn lemma_own_edges(commits: Seq<CommitInfo>, rows: Seq<CommitLayout>, row: int, n: nat)
    requires
        0 <= row < commits.len() <= usize::MAX,
        n <= commits.len(),
    ensures
        edges_below(commits, rows, n).filter(|e: GraphEdge| e.child_row == row) == (if row < n {
            edges_of(commits, rows, row, commits[row].parent_ids@.len())
        } else {
            Seq::empty()
        }),
    decreases n,
{
    let own = |e: GraphEdge| e.child_row == row;
    if n == 0 {
        reveal(Seq::filter);
        assert(edges_below(commits, rows, n).filter(own) =~= Seq::empty());
    } else {
        lemma_own_edges(commits, rows, row, (n - 1) as nat);
        let a = edges_below(commits, rows, (n - 1) as nat);
        let b = edges_of(commits, rows, n - 1, commits[n - 1].parent_ids@.len());
        Seq::filter_distributes_over_add(a, b, own);
        lemma_edges_of_join(commits, rows, n - 1, commits[n - 1].parent_ids@.len());
        lemma_filter_all_or_none(b, own, n - 1 == row);
        assert(edges_below(commits, rows, n).filter(own) =~= (if row < n {
            edges_of(commits, rows, row, commits[row].parent_ids@.len())
        } else {
            Seq::empty()
        }));
    }
}

proof fn lemma_filter_all_or_none<A>(s: Seq<A>, pred: spec_fn(A) -> bool, all: bool)
    requires
        forall|i: int| 0 <= i < s.len() ==> pred(#[trigger] s[i]) == all,
    ensures
        s.filter(pred) == (if all {
            s
        } else {
            Seq::empty()
        }),
    decreases s.len(),
{
    reveal(Seq::filter);
    if s.len() > 0 {
        let t = s.drop_last();
        assert forall|i: int| 0 <= i < t.len() implies pred(#[trigger] t[i]) == all by {
            assert(t[i] == s[i]);
        }
        lemma_filter_all_or_none(t, pred, all);
        assert(s[s.len() - 1] == s.last());
        assert(s =~= t.push(s.last()));
    } else {
        assert(s =~= Seq::empty());
    }
}

proof fn lemma_parents_of_edges(commits: Seq<CommitInfo>, rows: Seq<CommitLayout>, row: int, n: nat)
    requires
        0 <= row < commits.len() <= usize::MAX,
        n <= commits[row].parent_ids@.len(),
    ensures
        edges_of(commits, rows, row, n).map_values(
            |e: GraphEdge| commits[e.parent_row as int].id,
        ) == commits[row].parent_ids@.take(n as int).filter(
            |id: Oid| exists|j: int| 0 <= j < commits.len() && (#[trigger] commits[j]).id == id,
        ),
    decreases n,
{
    let known = |id: Oid|
        exists|j: int| 0 <= j < commits.len() && (#[trigger] commits[j]).id == id;
    let parents = commits[row].parent_ids@;
    reveal(Seq::filter);
    if n == 0 {
        assert(parents.take(0) =~= Seq::empty());
        assert(edges_of(commits, rows, row, n).map_values(
            |e: GraphEdge| commits[e.parent_row as int].id,
        ) =~= parents.take(0).filter(known));
    } else {
        lemma_parents_of_edges(commits, rows, row, (n - 1) as nat);
        let parent = parents[n - 1];
        lemma_last_row(commits, parent, commits.len() as int);
        let at = last_row(commits, parent, commits.len() as int);
        assert(parents.take(n as int).drop_last() =~= parents.take(n - 1));
        assert(parents.take(n as int).last() == parent);
        if at >= 0 {
            assert(commits[at].id == parent);
            assert(known(parent));
        } else {
            assert(!known(parent));
        }
        assert(edges_of(commits, rows, row, n).map_values(
            |e: GraphEdge| commits[e.parent_row as int].id,
        ) =~= parents.take(n as int).filter(known));
    }
}

proof fn lemma_row_shows(edges: Seq<GraphEdge>, n: nat, r: int)
    requires
        0 <= r < n,
    ensures
        ({
            let row = rows_of(edges, n)[r];
            &&& row.curves == edges.filter(
                |e: GraphEdge|
                    e.child_row < e.parent_row && e.child_row <= r <= e.parent_row
                        && e.child_lane != e.parent_lane,
            )
            &&& row.full_verticals == edges.filter_map(
                |e: GraphEdge|
                    if e.child_row < r < e.parent_row && e.child_lane == e.parent_lane {
                        Some((e.child_lane, e.color))
                    } else {
                        None
                    },
            )
            &&& row.top_half_verticals == edges.filter_map(
                |e: GraphEdge|
                    if e.child_row < e.parent_row && r == e.parent_row && e.child_lane
                        == e.parent_lane {
                        Some((e.child_lane, e.color))
                    } else {
                        None
                    },
            )
            &&& row.bottom_half_verticals == edges.filter_map(
                |e: GraphEdge|
                    if e.child_row < e.parent_row && r == e.child_row && e.child_lane
                        == e.parent_lane {
                        Some((e.child_lane, e.color))
                    } else {
                        None
                    },
            )
        }),
    decreases edges.len(),
{
    reveal(Seq::filter);
    if edges.len() > 0 {
        lemma_row_shows(edges.drop_last(), n, r);
        lemma_rows_of_len(edges.drop_last(), n);
    }
}

/// What a row shows is what the edges that lead down have there. An edge between two lanes has a
/// part of its curve in every row from its child to its parent. An edge within a lane has the
/// lower half of a line at its child, the upper half at its parent, and a whole line in every row
/// between.
pub proof fn rows_show_the_edges_that_pass(g: GraphLayout, commits: Seq<CommitInfo>, r: int)
    requires
        g.lays_out(commits),
        0 <= r < commits.len(),
    ensures
        g.row_geometry@.len() == commits.len(),
        g.row_geometry@[r].curves@ == g.edges@.filter(
            |e: GraphEdge|
                e.child_row < e.parent_row && e.child_row <= r <= e.parent_row && e.child_lane
                    != e.parent_lane,
        ),
        g.row_geometry@[r].full_verticals@ == g.edges@.filter_map(
            |e: GraphEdge|
                if e.child_row < r < e.parent_row && e.child_lane == e.parent_lane {
                    Some((e.child_lane, e.color))
                } else {
                    None
                },
        ),
        g.row_geometry@[r].top_half_verticals@ == g.edges@.filter_map(
            |e: GraphEdge|
                if e.child_row < e.parent_row && r == e.parent_row && e.child_lane
                    == e.parent_lane {
                    Some((e.child_lane, e.color))
                } else {
                    None
                },
        ),
        g.row_geometry@[r].bottom_half_verticals@ == g.edges@.filter_map(
            |e: GraphEdge|
                if e.child_row < e.parent_row && r == e.child_row && e.child_lane
                    == e.parent_lane {
                    Some((e.child_lane, e.color))
                } else {
                    None
                },
        ),
{
    lemma_rows_of_len(g.edges@, commits.len());
    lemma_row_shows(g.edges@, commits.len(), r);
    let rows = crate::text::views(g.row_geometry@);
    assert(rows.len() == g.row_geometry@.len());
    assert(rows[r] == g.row_geometry@[r]@);
}

/// Every row from a commit down to a parent on another lane holds the curve between them.
pub proof fn commits_on_different_lanes_are_joined_by_a_curve(
    g: GraphLayout,
    commits: Seq<CommitInfo>,
    child: int,
    parent: int,
    r: int,
)
    requires
        g.lays_out(commits),
        commits.len() <= usize::MAX,
        forall|i: int, j: int|
            0 <= i < j < commits.len() ==> (#[trigger] commits[i]).id != (
            #[trigger] commits[j]).id,
        0 <= child < parent < commits.len(),
        commits[child].parent_ids@.contains(commits[parent].id),
        g.layouts@[child].lane != g.layouts@[parent].lane,
        child <= r <= parent,
    ensures
        exists|k: int|
            0 <= k < g.row_geometry@[r].curves@.len() && {
                let e = #[trigger] g.row_geometry@[r].curves@[k];
                &&& e.child_row == child
                &&& e.child_lane == g.layouts@[child].lane
                &&& e.parent_row == parent
                &&& e.parent_lane == g.layouts@[parent].lane
            },
{
    broadcast use vstd::seq_lib::group_filter_ensures;

    let known = |id: Oid|
        exists|j: int| 0 <= j < commits.len() && (#[trigger] commits[j]).id == id;
    let own = |e: GraphEdge| e.child_row == child;
    let id_of = |e: GraphEdge| commits[e.parent_row as int].id;
    let parents = commits[child].parent_ids@;
    a_commit_has_an_edge_to_each_listed_parent(g, commits, child);
    let q = choose|q: int| 0 <= q < parents.len() && parents[q] == commits[parent].id;
    assert(known(parents[q]));
    assert(parents.filter(known).contains(parents[q]));
    let ids = g.edges@.filter(own).map_values(id_of);
    let x = choose|x: int| 0 <= x < ids.len() && ids[x] == commits[parent].id;
    let e = g.edges@.filter(own)[x];
    assert(own(e));
    assert(g.edges@.filter(own).contains(e));
    g.edges@.lemma_filter_contains_rev(own, e);
    let k = choose|k: int| 0 <= k < g.edges@.len() && g.edges@[k] == e;
    edges_join_the_lanes_of_their_commits(g, commits, k, k);
    edges_start_and_end_at_their_nodes(g, commits, k);
    assert(id_of(e) == commits[parent].id);
    assert(e.parent_row == parent);
    rows_show_the_edges_that_pass(g, commits, r);
    let passes = |e: GraphEdge|
        e.child_row < e.parent_row && e.child_row <= r <= e.parent_row && e.child_lane
            != e.parent_lane;
    assert(passes(g.edges@[k]));
    assert(g.edges@.filter(passes).contains(g.edges@[k]));
    let curves = g.row_geometry@[r].curves@;
    let z = choose|z: int| 0 <= z < curves.len() && curves[z] == e;
    assert(curves[z] == e);
}

/// Whether a commit with the id `id` is among `commits`.
spec fn is_known(commits: Seq<CommitInfo>, id: Oid) -> bool {
    exists|j: int| 0 <= j < commits.len() && (#[trigger] commits[j]).id == id
}

/// What is known of the lanes once the first `n` parents have theirs.
spec fn parents_wait(
    before: Seq<Option<Oid>>,
    after: Seq<Option<Oid>>,
    commits: Seq<CommitInfo>,
    lane: int,
    parents: Seq<Oid>,
    n: nat,
) -> bool {
    &&& after.len() >= before.len()
    &&& forall|m: int|
        0 <= m < before.len() && m != lane && before[m] is Some ==> #[trigger] after[m] == before[m]
    &&& n > 0 && is_known(commits, parents[0]) ==> after[lane] == Some(parents[0])
    &&& forall|k: int|
        0 <= k < n && is_known(commits, parents[k]) ==> after.contains(
            Some(#[trigger] parents[k]),
        )
    &&& forall|m: int|
        0 <= m < after.len() && (#[trigger] after[m]) is Some ==> (m < before.len() && m != lane
            && after[m] == before[m]) || (is_known(commits, after[m]->0) && parents.contains(
            after[m]->0,
        ))
    &&& forall|m: int, o: int|
        0 <= m < after.len() && m != lane && (#[trigger] after[m]) is Some && (m >= before.len()
            || before[m] != after[m]) && 0 <= o < after.len() && o != m
            ==> (#[trigger] after[o]) != after[m] && (o < m ==> after[o] is Some)
}

proof fn lemma_parents_wait(
    lanes: Seq<Option<Oid>>,
    commits: Seq<CommitInfo>,
    lane: int,
    parents: Seq<Oid>,
    n: nat,
)
    requires
        0 <= lane < lanes.len(),
        n <= parents.len(),
    ensures
        parents_wait(
            lanes,
            with_parents(lanes, commits, lane, parents, n),
            commits,
            lane,
            parents,
            n,
        ),
    decreases n,
{
    let r = with_parents(lanes, commits, lane, parents, n);
    if n <= 1 {
        if n == 1 {
            assert(parents.contains(parents[0]));
            assert(listed(commits, parents[0]) == is_known(commits, parents[0]));
            if is_known(commits, parents[0]) {
                assert(r[lane] == Some(parents[0]));
                assert(r.contains(Some(parents[0])));
            }
        }
        assert forall|k: int| 0 <= k < n && is_known(commits, parents[k]) implies r.contains(
            Some(#[trigger] parents[k]),
        ) by {
            assert(k == 0);
        }
    } else {
        let t = with_parents(lanes, commits, lane, parents, (n - 1) as nat);
        lemma_parents_wait(lanes, commits, lane, parents, (n - 1) as nat);
        let parent = parents[n - 1];
        assert(parents.contains(parent));
        assert(listed(commits, parent) == is_known(commits, parent));
        if !listed(commits, parent) || t.contains(Some(parent)) {
            assert(r == t);
        } else {
            lemma_lane_from(t, None, 0);
            let at = lane_from(t, None, 0);
            assert(r[at] == Some(parent));
            assert(forall|m: int| 0 <= m < t.len() && m != at ==> r[m] == t[m]);
            assert(r.len() == if at < t.len() {
                t.len()
            } else {
                t.len() + 1
            });
            assert forall|k: int| 0 <= k < n && is_known(commits, parents[k]) implies r.contains(
                Some(#[trigger] parents[k]),
            ) by {
                if k < n - 1 {
                    assert(t.contains(Some(parents[k])));
                    let m = choose|m: int| 0 <= m < t.len() && t[m] == Some(parents[k]);
                    assert(r[m] == t[m]);
                } else {
                    assert(r[at] == Some(parents[k]));
                }
            }
            assert forall|m: int, o: int|
                0 <= m < r.len() && m != lane && (#[trigger] r[m]) is Some && (m >= lanes.len()
                    || lanes[m] != r[m]) && 0 <= o < r.len() && o != m implies (
            #[trigger] r[o]) != r[m] && (o < m ==> r[o] is Some) by {
                if m == at {
                    if o < t.len() {
                        assert(r[o] == t[o]);
                        if t[o] == Some(parent) {
                            assert(t.contains(Some(parent)));
                        }
                    }
                } else {
                    assert(r[m] == t[m]);
                    if o == at {
                        if t[m] == Some(parent) {
                            assert(t.contains(Some(parent)));
                        }
                    } else {
                        assert(r[o] == t[o]);
                    }
                }
            }
        }
    }
}

/// A commit takes the first lane that waits for it, or else the lowest free one. Then its lane
/// waits for its first parent where that is listed, and every other listed parent is waited for
/// too: by a lane that did so before, or else by the lowest free one. A lane that waits for
/// another commit goes on waiting for it, and none waits for anything else.
pub proof fn lanes_wait_for_parents(s: LanesView, commits: Seq<CommitInfo>, c: CommitInfo)
    requires
        s.lanes.len() < usize::MAX,
    ensures
        ({
            let t = assigned(s, commits, c);
            let lane = t.rows.last().lane as int;
            let parents = c.parent_ids@;
            &&& t.rows.len() == s.rows.len() + 1
            &&& t.rows.drop_last() == s.rows
            &&& t.rows.last().color == (if c.is_orphaned {
                Paint::Orphan
            } else {
                Paint::Lane((lane % LANE_COLOR_COUNT as int) as usize)
            })
            &&& 0 <= lane < t.lanes.len()
            &&& forall|j: int|
                0 <= j < lane ==> j < s.lanes.len() && (#[trigger] s.lanes[j]) != Some(c.id) && (
                s.lanes[j] is Some || s.lanes.contains(Some(c.id)))
            &&& lane < s.lanes.len() ==> s.lanes[lane] == Some(c.id) || s.lanes[lane] is None
                && !s.lanes.contains(Some(c.id))
            &&& lane >= s.lanes.len() ==> !s.lanes.contains(Some(c.id))
            &&& parents.len() > 0 && (exists|j: int|
                0 <= j < commits.len() && (#[trigger] commits[j]).id == parents[0])
                ==> t.lanes[lane] == Some(parents[0])
            &&& forall|k: int|
                0 <= k < parents.len() && (exists|j: int|
                    0 <= j < commits.len() && (#[trigger] commits[j]).id == parents[k])
                    ==> t.lanes.contains(Some(#[trigger] parents[k]))
            &&& forall|m: int|
                0 <= m < s.lanes.len() && m != lane && (#[trigger] s.lanes[m]) is Some && s.lanes[m]
                    != Some(c.id) ==> t.lanes[m] == s.lanes[m]
            &&& forall|m: int|
                0 <= m < t.lanes.len() && (#[trigger] t.lanes[m]) is Some ==> (m < s.lanes.len()
                    && m != lane && t.lanes[m] == s.lanes[m] && t.lanes[m] != Some(c.id)) || (
                parents.contains(t.lanes[m]->0) && exists|j: int|
                    0 <= j < commits.len() && (#[trigger] commits[j]).id == t.lanes[m]->0)
            &&& forall|m: int, o: int|
                0 <= m < t.lanes.len() && m != lane && (#[trigger] t.lanes[m]) is Some && (m
                    >= s.lanes.len() || s.lanes[m] != t.lanes[m]) && 0 <= o < t.lanes.len() && o
                    != m ==> (#[trigger] t.lanes[o]) != t.lanes[m] && (o < m ==> t.lanes[o] is Some)
            &&& s.max_lane <= t.max_lane
            &&& forall|m: int|
                0 <= m < t.lanes.len() && (#[trigger] t.lanes[m]) is Some ==> m <= t.max_lane
            &&& t.max_lane == s.max_lane || 0 <= t.max_lane < t.lanes.len()
                && t.lanes[t.max_lane] is Some
        }),
{
    commits_take_the_waiting_or_lowest_free_lane(s.lanes, c.id);
    let lane = lane_for(s.lanes, c.id);
    let wide = opened(s.lanes, lane);
    let start = freed(wide, c.id, lane);
    let parents = c.parent_ids@;
    let t = assigned(s, commits, c);
    lemma_parents_wait(start, commits, lane, parents, parents.len());
    lemma_peak_bound(t.lanes, s.max_lane, t.lanes.len() as int);
    lemma_peak_is_taken(t.lanes, s.max_lane, t.lanes.len() as int);
    assert(t.rows.drop_last() =~= s.rows);
    assert(t.rows.last().lane == lane);
    assert(parents.len() > 0 ==> is_known(commits, parents[0]) == (exists|j: int|
        0 <= j < commits.len() && (#[trigger] commits[j]).id == parents[0]));
    assert forall|k: int|
        0 <= k < parents.len() && (exists|j: int|
            0 <= j < commits.len() && (#[trigger] commits[j]).id
                == parents[k]) implies t.lanes.contains(Some(#[trigger] parents[k])) by {
        assert(is_known(commits, parents[k]));
    }
    assert forall|j: int| 0 <= j < lane implies j < s.lanes.len() && (#[trigger] s.lanes[j])
        != Some(c.id) && (s.lanes[j] is Some || s.lanes.contains(Some(c.id))) by {
        if s.lanes[j] == Some(c.id) {
            assert(s.lanes.contains(s.lanes[j]));
        }
    }
    if lane < s.lanes.len() && s.lanes[lane] == Some(c.id) {
        assert(s.lanes.contains(s.lanes[lane]));
    }
    assert forall|m: int|
        0 <= m < s.lanes.len() && m != lane && (#[trigger] s.lanes[m]) is Some && s.lanes[m]
            != Some(c.id) implies t.lanes[m] == s.lanes[m] by {
        assert(start[m] == s.lanes[m]);
    }
    assert forall|m: int| 0 <= m < t.lanes.len() && (#[trigger] t.lanes[m]) is Some implies (m
        < s.lanes.len() && m != lane && t.lanes[m] == s.lanes[m] && t.lanes[m] != Some(c.id)) || (
    parents.contains(t.lanes[m]->0) && exists|j: int|
        0 <= j < commits.len() && (#[trigger] commits[j]).id == t.lanes[m]->0) by {
        if m < start.len() && m != lane && t.lanes[m] == start[m] {
            assert(start[m] == wide[m]);
        } else {
            assert(is_known(commits, t.lanes[m]->0));
        }
    }
    assert forall|m: int, o: int|
        0 <= m < t.lanes.len() && m != lane && (#[trigger] t.lanes[m]) is Some && (m
            >= s.lanes.len() || s.lanes[m] != t.lanes[m]) && 0 <= o < t.lanes.len() && o
            != m implies (#[trigger] t.lanes[o]) != t.lanes[m] && (o < m ==> t.lanes[o] is Some) by {
        if m < start.len() {
            assert(start[m] == wide[m] || start[m] is None);
        }
    }
}

proof fn lemma_peak_is_taken(lanes: Seq<Option<Oid>>, least: int, i: int)
    requires
        0 <= i <= lanes.len(),
    ensures
        peak(lanes, least, i) == least || 0 <= peak(lanes, least, i) < i && lanes[peak(
            lanes,
            least,
            i,
        )] is Some,
    decreases i,
{
    if i > 0 && lanes[i - 1] is None {
        lemma_peak_is_taken(lanes, least, i - 1);
    }
}

proof fn lemma_lanes_grow(commits: Seq<CommitInfo>, i: nat, n: nat)
    requires
        i <= n <= commits.len(),
    ensures
        lanes_after(commits, i).lanes.len() <= lanes_after(commits, n).lanes.len(),
        lanes_after(commits, i).rows.len() == i,
        lanes_after(commits, n).rows.len() == n,
        forall|k: int|
            0 <= k < i ==> lanes_after(commits, n).rows[k] == #[trigger] lanes_after(
                commits,
                i,
            ).rows[k],
    decreases n - i,
{
    lemma_lanes_have_rows(commits, i);
    lemma_lanes_have_rows(commits, n);
    if i < n {
        lemma_lanes_grow(commits, i, (n - 1) as nat);
        let s = lanes_after(commits, (n - 1) as nat);
        let c = commits[n - 1];
        commits_take_the_waiting_or_lowest_free_lane(s.lanes, c.id);
        let lane = lane_for(s.lanes, c.id);
        let start = freed(opened(s.lanes, lane), c.id, lane);
        lemma_lanes_have_rows(commits, (n - 1) as nat);
        lemma_parents_wait(start, commits, lane, c.parent_ids@, c.parent_ids@.len());
        assert forall|k: int| 0 <= k < i implies lanes_after(commits, n).rows[k]
            == #[trigger] lanes_after(commits, i).rows[k] by {
            assert(lanes_after(commits, n).rows[k] == s.rows[k]);
        }
    }
}

/// From a commit down to its first parent no other commit stands on its lane, and the parent
/// stands on that lane or on one further left.
pub proof fn first_parents_line_is_kept_free(
    g: GraphLayout,
    commits: Seq<CommitInfo>,
    child: int,
    parent: int,
    r: int,
)
    requires
        g.lays_out(commits),
        lanes_after(commits, commits.len()).lanes.len() < usize::MAX,
        forall|i: int, j: int|
            0 <= i < j < commits.len() ==> (#[trigger] commits[i]).id != (
            #[trigger] commits[j]).id,
        0 <= child < r <= parent < commits.len(),
        commits[child].parent_ids@.len() > 0,
        commits[child].parent_ids@[0] == commits[parent].id,
    ensures
        r < parent ==> g.layouts@[r].lane != g.layouts@[child].lane,
        g.layouts@[parent].lane <= g.layouts@[child].lane,
{
    let n = commits.len();
    let lane = g.layouts@[child].lane as int;
    lemma_lane_is_held(commits, child, parent, r);
    lemma_lane_is_held(commits, child, parent, parent);
    lemma_lanes_grow(commits, (r + 1) as nat, n);
    lemma_lanes_grow(commits, (parent + 1) as nat, n);
    lemma_lanes_grow(commits, (child + 1) as nat, n);
    lemma_lanes_grow(commits, r as nat, n);
    lemma_lanes_grow(commits, parent as nat, n);
    let s = lanes_after(commits, r as nat);
    lanes_wait_for_parents(s, commits, commits[r]);
    let t = lanes_after(commits, parent as nat);
    lanes_wait_for_parents(t, commits, commits[parent]);
    assert(lanes_after(commits, (r + 1) as nat) == assigned(s, commits, commits[r]));
    assert(lanes_after(commits, (parent + 1) as nat) == assigned(t, commits, commits[parent]));
    assert(g.layouts@[r] == lanes_after(commits, (r + 1) as nat).rows[r]);
    assert(g.layouts@[parent] == lanes_after(commits, (parent + 1) as nat).rows[parent]);
    assert(g.layouts@[child] == lanes_after(commits, (child + 1) as nat).rows[child]);
    assert(t.lanes[lane] == Some(commits[parent].id));
    let own = g.layouts@[parent].lane as int;
    if lane < own {
        assert(t.lanes[lane] != Some(commits[parent].id));
    }
    if r < parent {
        assert(commits[r].id != commits[parent].id);
        assert(s.lanes[lane] == Some(commits[parent].id));
    }
}

/// The lane of a commit waits for its first parent until that comes.
proof fn lemma_lane_is_held(commits: Seq<CommitInfo>, child: int, parent: int, r: int)
    requires
        lanes_after(commits, commits.len()).lanes.len() < usize::MAX,
        forall|i: int, j: int|
            0 <= i < j < commits.len() ==> (#[trigger] commits[i]).id != (
            #[trigger] commits[j]).id,
        0 <= child < r <= parent < commits.len(),
        commits[child].parent_ids@.len() > 0,
        commits[child].parent_ids@[0] == commits[parent].id,
    ensures
        ({
            let lane = lanes_after(commits, (child + 1) as nat).rows[child].lane as int;
            let s = lanes_after(commits, r as nat);
            0 <= lane < s.lanes.len() && s.lanes[lane] == Some(commits[parent].id)
        }),
    decreases r,
{
    let lane = lanes_after(commits, (child + 1) as nat).rows[child].lane as int;
    let before = lanes_after(commits, (r - 1) as nat);
    lemma_lanes_grow(commits, (r - 1) as nat, commits.len());
    lemma_lanes_grow(commits, r as nat, commits.len());
    lemma_lanes_grow(commits, (r - 1) as nat, r as nat);
    lemma_lanes_grow(commits, (child + 1) as nat, r as nat);
    lanes_wait_for_parents(before, commits, commits[r - 1]);
    let after = lanes_after(commits, r as nat);
    assert(after == assigned(before, commits, commits[r - 1]));
    assert(after.rows.last() == after.rows[r - 1]);
    if r - 1 == child {
        assert(commits[parent].id == commits[child].parent_ids@[0]);
    } else {
        lemma_lane_is_held(commits, child, parent, r - 1);
        assert(commits[r - 1].id != commits[parent].id);
        assert(before.lanes[lane] == Some(commits[parent].id));
        assert(after.rows[r - 1].lane != lane);
    }
}

/// The graph shows as many lanes as are in use, at most six, and has a row of its own for every
/// commit.
pub proof fn the_graph_shows_the_lanes_in_use(g: GraphLayout, commits: Seq<CommitInfo>)
    requires
        g.lays_out(commits),
    ensures
        g.max_lane < 6 ==> g.visible_lanes == g.max_lane + 1,
        g.max_lane >= 6 ==> g.visible_lanes == 6,
        g.ids@.len() == commits.len(),
        forall|i: int| 0 <= i < commits.len() ==> (#[trigger] g.ids@[i]) == commits[i].id,
        g.row_geometry@.len() == commits.len(),
{
    lemma_rows_len(g.edges@, commits.len());
    assert(crate::text::views(g.row_geometry@).len() == g.row_geometry@.len());
}

proof fn lemma_rows_len(edges: Seq<GraphEdge>, n: nat)
    ensures
        rows_of(edges, n).len() == n,
    decreases edges.len(),
{
    if edges.len() > 0 {
        lemma_rows_len(edges.drop_last(), n);
    }
}

/// The layout of a commit is found by its id: at the last row with that id, and nowhere where no
/// row has it.
pub proof fn a_layout_is_found_by_its_id(ids: Seq<Oid>, id: Oid, i: int, n: int)
    requires
        -1 <= i < n <= ids.len(),
        forall|j: int| i < j < n ==> (#[trigger] ids[j]) != id,
        i >= 0 ==> ids[i] == id,
    ensures
        last_index(ids, id, n) == i,
    decreases n,
{
    if n > 0 && i < n - 1 {
        assert(ids[n - 1] != id);
        a_layout_is_found_by_its_id(ids, id, i, n - 1);
    }
}

/// Commits on one lane have one color, and six neighbouring lanes have six.
pub proof fn neighbouring_lanes_differ_in_color(a: int, b: int)
    requires
        0 <= a < b,
    ensures
        b < a + 6 ==> commit_paint(false, a) != commit_paint(false, b),
        b == a + 6 ==> commit_paint(false, a) == commit_paint(false, b),
        commit_paint(true, a) == Paint::Orphan,
        commit_paint(false, a) is Lane,
{
}

} // verus!
