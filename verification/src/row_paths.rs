//! The rows of the picture that shows whether lines drawn row by row meet without a seam.
//!
//! A row says which lines, curves and nodes it holds; where they lie in pixels is left to the
//! drawing.

use vstd::prelude::*;

verus! {

/// What a row shows of two lanes.
#[derive(Debug, Clone, Copy, PartialEq, Eq, Structural)]
pub enum RowKind {
    /// Pure lane vertical at lane 0.
    Lane0,
    /// Lane 0 vertical + a node circle on lane 0.
    Lane0Node,
    /// Lane 0 outgoing curve to lane 1 (top half of the S).
    Lane0OutgoingToLane1,
    /// Lane 1 incoming curve from lane 0 (bottom half) + node on lane 1.
    Lane1IncomingNode,
    /// Lane 1 vertical only.
    Lane1,
    /// Lane 0 + Lane 1 verticals (both lanes active through this row).
    BothLanes,
}

/// How far down a row something reaches.
#[derive(Debug, Clone, Copy, PartialEq, Eq, Structural)]
pub enum Height {
    Top,
    Middle,
    Bottom,
}

/// Something drawn in a row.
#[derive(Debug, Clone, Copy, PartialEq, Eq, Structural)]
pub enum RowPath {
    /// A straight line on a lane, from one height down to another.
    Line(usize, Height, Height),
    /// A curve from the top of one lane down to a height on another.
    Curve(usize, usize, Height),
    /// A circle on a lane, in the middle of the row.
    Node(usize),
}

/// What a row holds.
pub open spec fn row_paths(kind: RowKind) -> Seq<RowPath> {
    match kind {
        RowKind::Lane0 => seq![RowPath::Line(0, Height::Top, Height::Bottom)],
        RowKind::Lane0Node => seq![
            RowPath::Line(0, Height::Top, Height::Bottom),
            RowPath::Node(0),
        ],
        RowKind::Lane0OutgoingToLane1 => seq![
            RowPath::Line(0, Height::Top, Height::Bottom),
            RowPath::Curve(0, 1, Height::Bottom),
        ],
        RowKind::Lane1IncomingNode => seq![
            RowPath::Curve(0, 1, Height::Middle),
            RowPath::Line(1, Height::Middle, Height::Bottom),
            RowPath::Node(1),
        ],
        RowKind::Lane1 => seq![RowPath::Line(1, Height::Top, Height::Bottom)],
        RowKind::BothLanes => seq![
            RowPath::Line(0, Height::Top, Height::Bottom),
            RowPath::Line(1, Height::Top, Height::Bottom),
        ],
    }
}

fn vert(lane: usize) -> (r: RowPath)
    ensures
        r == RowPath::Line(lane, Height::Top, Height::Bottom),
{
    RowPath::Line(lane, Height::Top, Height::Bottom)
}

/// What a row holds, in the order in which it is drawn.
pub fn build_row_paths(kind: RowKind) -> (r: Vec<RowPath>)
    ensures
        r@ == row_paths(kind),
{
    let mut paths: Vec<RowPath> = Vec::new();
    match kind {
        RowKind::Lane0 => {
            paths.push(vert(0));
        },
        RowKind::Lane0Node => {
            paths.push(vert(0));
            paths.push(RowPath::Node(0));
        },
        RowKind::Lane0OutgoingToLane1 => {
            paths.push(vert(0));
            paths.push(RowPath::Curve(0, 1, Height::Bottom));
        },
        RowKind::Lane1IncomingNode => {
            paths.push(RowPath::Curve(0, 1, Height::Middle));
            paths.push(RowPath::Line(1, Height::Middle, Height::Bottom));
            paths.push(RowPath::Node(1));
        },
        RowKind::Lane1 => {
            paths.push(vert(1));
        },
        RowKind::BothLanes => {
            paths.push(vert(0));
            paths.push(vert(1));
        },
    }
    assert(paths@ =~= row_paths(kind));
    paths
}

/// The rows of the picture, from the top.
pub open spec fn picture_rows() -> Seq<RowKind> {
    seq![
        RowKind::Lane0,
        RowKind::Lane0,
        RowKind::Lane0Node,
        RowKind::Lane0OutgoingToLane1,
        RowKind::Lane1IncomingNode,
        RowKind::BothLanes,
        RowKind::BothLanes,
        RowKind::Lane1,
        RowKind::Lane1,
        RowKind::Lane1,
        RowKind::BothLanes,
        RowKind::Lane0,
        RowKind::Lane0,
        RowKind::Lane0Node,
    ]
}

/// The rows of the picture, from the top.
pub fn row_kinds() -> (r: Vec<RowKind>)
    ensures
        r@ == picture_rows(),
{
    let r = vec![
        RowKind::Lane0,
        RowKind::Lane0,
        RowKind::Lane0Node,
        RowKind::Lane0OutgoingToLane1,
        RowKind::Lane1IncomingNode,
        RowKind::BothLanes,
        RowKind::BothLanes,
        RowKind::Lane1,
        RowKind::Lane1,
        RowKind::Lane1,
        RowKind::BothLanes,
        RowKind::Lane0,
        RowKind::Lane0,
        RowKind::Lane0Node,
    ];
    assert(r@ =~= picture_rows());
    r
}

/// No two paths of a row are alike, so nothing is drawn twice.
pub proof fn nothing_is_drawn_twice(kind: RowKind)
    ensures
        row_paths(kind).no_duplicates(),
{
}

} // verus!
