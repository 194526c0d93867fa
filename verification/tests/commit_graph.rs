use whisper_git::commit_graph::{
    decompose_edge_into_rows, GraphEdge, GraphLayout, Paint, RowGeometry,
};
use whisper_git::git::CommitInfo;
use whisper_git::oid::Oid;

fn id(n: u64) -> Oid {
    Oid { hi: n, mid: 0, lo: 0 }
}

fn commit(n: u64, parents: &[u64]) -> CommitInfo {
    CommitInfo {
        id: id(n),
        short_id: String::new(),
        summary: String::new(),
        body_excerpt: None,
        body_full: None,
        author: String::new(),
        author_email: String::new(),
        time: 0,
        parent_ids: parents.iter().map(|p| id(*p)).collect(),
        insertions: 0,
        deletions: 0,
        is_synthetic: false,
        synthetic_wt_name: None,
        is_orphaned: false,
        orphan_source: None,
    }
}

fn no_rows(n: usize) -> Vec<RowGeometry> {
    (0..n)
        .map(|_| RowGeometry {
            full_verticals: Vec::new(),
            top_half_verticals: Vec::new(),
            bottom_half_verticals: Vec::new(),
            curves: Vec::new(),
        })
        .collect()
}

#[test]
fn decompose_same_lane_emits_top_full_bottom_verticals() {
    let edge = GraphEdge {
        child_row: 0,
        child_lane: 1,
        parent_row: 3,
        parent_lane: 1,
        color: Paint::Lane(0),
    };
    let mut rows = no_rows(4);
    decompose_edge_into_rows(&edge, &mut rows);
    // child row gets bottom-half (line emerges below the node).
    assert_eq!(rows[0].bottom_half_verticals.len(), 1);
    assert_eq!(rows[0].full_verticals.len(), 0);
    assert_eq!(rows[0].top_half_verticals.len(), 0);
    // intermediate rows get full verticals.
    assert_eq!(rows[1].full_verticals.len(), 1);
    assert_eq!(rows[2].full_verticals.len(), 1);
    // parent row gets top-half (line ends at the node).
    assert_eq!(rows[3].top_half_verticals.len(), 1);
}

#[test]
fn decompose_cross_lane_emits_one_curve_per_spanned_row() {
    let edge = GraphEdge {
        child_row: 0,
        child_lane: 0,
        parent_row: 3,
        parent_lane: 2,
        color: Paint::Lane(0),
    };
    let mut rows = no_rows(4);
    decompose_edge_into_rows(&edge, &mut rows);
    // 4 spanned rows = 4 curve segments; no verticals on cross-lane.
    assert_eq!(rows[0].curves.len(), 1);
    assert_eq!(rows[1].curves.len(), 1);
    assert_eq!(rows[2].curves.len(), 1);
    assert_eq!(rows[3].curves.len(), 1);
    for r in &rows {
        assert!(r.full_verticals.is_empty());
        assert!(r.top_half_verticals.is_empty());
        assert!(r.bottom_half_verticals.is_empty());
    }
}

#[test]
fn linear_history_stays_on_lane_zero() {
    let mut g = GraphLayout::new();
    g.build(&vec![commit(3, &[2]), commit(2, &[1]), commit(1, &[])]);
    for n in 1..=3 {
        assert_eq!(g.get(&id(n)).unwrap().lane, 0);
    }
    assert_eq!(g.max_lane, 0);
    assert_eq!(g.edges.len(), 2);
    assert_eq!((g.edges[0].child_row, g.edges[0].parent_row), (0, 1));
    assert!(g.get(&id(9)).is_none());
}

#[test]
fn a_merge_takes_a_second_lane() {
    let mut g = GraphLayout::new();
    g.build(&vec![commit(4, &[3, 2]), commit(3, &[1]), commit(2, &[1]), commit(1, &[])]);
    assert_eq!(g.get(&id(4)).unwrap().lane, 0);
    assert_eq!(g.get(&id(3)).unwrap().lane, 0);
    assert_eq!(g.get(&id(2)).unwrap().lane, 1);
    assert_eq!(g.get(&id(1)).unwrap().lane, 0);
    assert_eq!(g.max_lane, 1);
    assert_eq!(g.edges.len(), 4);
}

#[test]
fn orphans_have_a_colour_of_their_own() {
    let mut c = commit(1, &[]);
    c.is_orphaned = true;
    let mut g = GraphLayout::new();
    g.build(&vec![c]);
    assert_eq!(g.get(&id(1)).unwrap().color, Paint::Orphan);
}

#[test]
fn building_again_forgets_what_was_there() {
    let mut g = GraphLayout::new();
    g.build(&vec![commit(3, &[2]), commit(2, &[1]), commit(1, &[])]);
    g.build(&vec![commit(7, &[])]);
    assert!(g.get(&id(3)).is_none());
    assert!(g.get(&id(7)).is_some());
    assert_eq!(g.edges.len(), 0);
    assert_eq!(g.row_geometry.len(), 1);
}
