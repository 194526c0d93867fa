//! Dragging the dividers between the parts of the window.

use vstd::prelude::*;

verus! {

/// A divider that is dragged.
#[derive(Debug, Clone, Copy, PartialEq, Eq, Structural)]
pub enum DividerDrag {
    SidebarGraph,
    GraphRight,
    StagingPreview,
}

/// The shape of the pointer.
#[derive(Debug, Clone, Copy, PartialEq, Eq, Structural)]
pub enum CursorShape {
    Normal,
    ColumnResize,
    RowResize,
}

/// Where the pointer was pressed.
#[derive(Debug, Clone, Copy, PartialEq, Eq, Structural)]
pub struct PressedAt {
    pub below_shortcut_bar: bool,
    pub near_sidebar_edge: bool,
    pub near_graph_edge: bool,
    /// Near the split of the right panel, which is there only while changes are staged.
    pub near_staging_split: bool,
}

/// What the pointer did.
#[derive(Debug, Clone, Copy, PartialEq, Eq, Structural)]
pub enum PointerEvent {
    Moved,
    Released,
    /// The left button was pressed.
    Pressed(PressedAt),
    Other,
}

/// What is done about it.
#[derive(Debug, Clone, Copy, PartialEq, Eq, Structural)]
pub struct DividerOutcome {
    /// The event is dealt with.
    pub consumed: bool,
    /// A divider moves to where the pointer is.
    pub moved: Option<DividerDrag>,
    /// The pointer takes another shape.
    pub cursor: Option<CursorShape>,
}

/// The shape of the pointer while a divider is dragged.
pub open spec fn drag_cursor(d: DividerDrag) -> CursorShape {
    match d {
        DividerDrag::StagingPreview => CursorShape::RowResize,
        _ => CursorShape::ColumnResize,
    }
}

/// The divider that a press takes hold of: the leftmost counts where two are near.
pub open spec fn grabbed(at: PressedAt) -> Option<DividerDrag> {
    if !at.below_shortcut_bar {
        None
    } else if at.near_sidebar_edge {
        Some(DividerDrag::SidebarGraph)
    } else if at.near_graph_edge {
        Some(DividerDrag::GraphRight)
    } else if at.near_staging_split {
        Some(DividerDrag::StagingPreview)
    } else {
        None
    }
}

/// What is dragged after an event.
pub open spec fn dragged_after(drag: Option<DividerDrag>, event: PointerEvent) -> Option<
    DividerDrag,
> {
    match event {
        PointerEvent::Released => None,
        PointerEvent::Pressed(at) => if grabbed(at) is Some {
            grabbed(at)
        } else {
            drag
        },
        _ => drag,
    }
}

/// The shape that the pointer has to take, where an event asks for one.
pub open spec fn wanted_cursor(drag: Option<DividerDrag>, event: PointerEvent) -> Option<
    CursorShape,
> {
    match (drag, event) {
        (Some(d), PointerEvent::Moved) => Some(drag_cursor(d)),
        (Some(_), PointerEvent::Released) => Some(CursorShape::Normal),
        _ => None,
    }
}

/// What is done about an event.
pub open spec fn divider_outcome(
    drag: Option<DividerDrag>,
    cursor: CursorShape,
    has_window: bool,
    event: PointerEvent,
) -> DividerOutcome {
    let wanted = wanted_cursor(drag, event);
    DividerOutcome {
        consumed: wanted is Some || (event matches PointerEvent::Pressed(at) && grabbed(
            at,
        ) is Some),
        moved: if event == PointerEvent::Moved {
            drag
        } else {
            None
        },
        cursor: if has_window && wanted != Some(cursor) {
            wanted
        } else {
            None
        },
    }
}

/// Handle divider drag events (ongoing drag and starting new drags). The pointer changes its
/// shape only where there is a window.
pub fn handle_divider_drag(
    drag: &mut Option<DividerDrag>,
    cursor: &mut CursorShape,
    has_window: bool,
    event: PointerEvent,
) -> (r: DividerOutcome)
    ensures
        r == divider_outcome(*old(drag), *old(cursor), has_window, event),
        *final(drag) == dragged_after(*old(drag), event),
        *final(cursor) == (match r.cursor {
            Some(c) => c,
            None => *old(cursor),
        }),
{
    let mut r = DividerOutcome { consumed: false, moved: None, cursor: None };
    if let Some(d) = *drag {
        let wanted = match event {
            PointerEvent::Moved => {
                r.moved = Some(d);
                Some(
                    match d {
                        DividerDrag::StagingPreview => CursorShape::RowResize,
                        _ => CursorShape::ColumnResize,
                    },
                )
            },
            PointerEvent::Released => {
                *drag = None;
                Some(CursorShape::Normal)
            },
            _ => None,
        };
        if let Some(c) = wanted {
            r.consumed = true;
            if has_window && *cursor != c {
                *cursor = c;
                r.cursor = Some(c);
            }
            return r;
        }
    }
    if let PointerEvent::Pressed(at) = event {
        if at.below_shortcut_bar {
            let hit = if at.near_sidebar_edge {
                Some(DividerDrag::SidebarGraph)
            } else if at.near_graph_edge {
                Some(DividerDrag::GraphRight)
            } else if at.near_staging_split {
                Some(DividerDrag::StagingPreview)
            } else {
                None
            };
            if hit.is_some() {
                *drag = hit;
                r.consumed = true;
            }
        }
    }
    r
}

/// A divider moves only while it is dragged, and letting go ends that.
pub proof fn dividers_move_only_while_dragged(
    drag: Option<DividerDrag>,
    cursor: CursorShape,
    has_window: bool,
    event: PointerEvent,
)
    ensures
        divider_outcome(drag, cursor, has_window, event).moved is Some ==> drag is Some && event
            == PointerEvent::Moved,
        dragged_after(drag, PointerEvent::Released) is None,
        divider_outcome(
            dragged_after(drag, PointerEvent::Released),
            cursor,
            has_window,
            PointerEvent::Moved,
        ) == (DividerOutcome { consumed: false, moved: None, cursor: None }),
{
}

} // verus!
