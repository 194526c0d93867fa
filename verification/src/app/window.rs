//! What is done with each frame.

use vstd::prelude::*;

verus! {

/// A step of a frame.
#[derive(Debug, Clone, Copy, PartialEq, Eq, Structural)]
pub enum FrameStep {
    /// Take over fonts that were drawn anew for another screen.
    Fonts,
    DiffStats,
    EnsureDiffStats,
    Status,
    RepoState,
    DirtyChecks,
    WatcherInit,
    Watcher,
    RemoteOps,
    AiCommit,
    FinishReload,
    Messages,
    StagingRefresh,
    StatusTimer,
    RefReconciliation,
    CiRefresh,
    RepoDialog,
    CloneDialog,
    CloneResult,
    OpenResult,
    Welcome,
    /// Set up the drawing surface anew where the window has a new size.
    Resize,
    Draw,
}

/// The steps of a frame in their order. Statistics come before the rest, so that results that
/// are there are taken over before anything asks for new ones; what the user asked for is dealt
/// with after everything that came in. Where fonts came but no window is there, the frame ends
/// with them.
pub open spec fn frame_order(
    fonts_came: bool,
    has_window: bool,
    reload_asked_for: bool,
) -> Seq<FrameStep> {
    if fonts_came && !has_window {
        seq![FrameStep::Fonts]
    } else {
        (if fonts_came {
            seq![FrameStep::Fonts]
        } else {
            Seq::empty()
        }) + seq![
            FrameStep::DiffStats,
            FrameStep::EnsureDiffStats,
            FrameStep::Status,
            FrameStep::RepoState,
            FrameStep::DirtyChecks,
            FrameStep::WatcherInit,
            FrameStep::Watcher,
            FrameStep::RemoteOps,
            FrameStep::AiCommit,
        ] + (if reload_asked_for {
            seq![FrameStep::FinishReload]
        } else {
            Seq::empty()
        }) + seq![
            FrameStep::Messages,
            FrameStep::StagingRefresh,
            FrameStep::StatusTimer,
            FrameStep::RefReconciliation,
            FrameStep::CiRefresh,
            FrameStep::RepoDialog,
            FrameStep::CloneDialog,
            FrameStep::CloneResult,
            FrameStep::OpenResult,
            FrameStep::Welcome,
            FrameStep::Resize,
            FrameStep::Draw,
        ]
    }
}

/// The steps of a frame in their order.
pub fn frame_steps(fonts_came: bool, has_window: bool, reload_asked_for: bool) -> (r: Vec<
    FrameStep,
>)
    ensures
        r@ == frame_order(fonts_came, has_window, reload_asked_for),
{
    let mut r: Vec<FrameStep> = Vec::new();
    if fonts_came {
        r.push(FrameStep::Fonts);
        if !has_window {
            assert(r@ =~= frame_order(fonts_came, has_window, reload_asked_for));
            return r;
        }
    }
    r.push(FrameStep::DiffStats);
    r.push(FrameStep::EnsureDiffStats);
    r.push(FrameStep::Status);
    r.push(FrameStep::RepoState);
    r.push(FrameStep::DirtyChecks);
    r.push(FrameStep::WatcherInit);
    r.push(FrameStep::Watcher);
    r.push(FrameStep::RemoteOps);
    r.push(FrameStep::AiCommit);
    if reload_asked_for {
        r.push(FrameStep::FinishReload);
    }
    r.push(FrameStep::Messages);
    r.push(FrameStep::StagingRefresh);
    r.push(FrameStep::StatusTimer);
    r.push(FrameStep::RefReconciliation);
    r.push(FrameStep::CiRefresh);
    r.push(FrameStep::RepoDialog);
    r.push(FrameStep::CloneDialog);
    r.push(FrameStep::CloneResult);
    r.push(FrameStep::OpenResult);
    r.push(FrameStep::Welcome);
    r.push(FrameStep::Resize);
    r.push(FrameStep::Draw);
    assert(r@ =~= frame_order(fonts_came, has_window, reload_asked_for));
    r
}

/// How long a window has to keep its size before it is set up anew, in milliseconds.
pub const RESIZE_SETTLED_MS: u64 = 100;

/// The window was resized at `now`.
pub fn handle_window_resized(debounce: &mut Option<u64>, now: u64)
    ensures
        *final(debounce) == Some(now),
{
    *debounce = Some(now);
}

/// Whether the drawing surface is set up anew: once the window has kept its size for a while.
/// The resize is forgotten then.
pub fn resize_settled(debounce: &mut Option<u64>, now: u64) -> (r: bool)
    ensures
        r == (match *old(debounce) {
            Some(t) => now >= t && now - t >= RESIZE_SETTLED_MS,
            None => false,
        }),
        *final(debounce) == (if r {
            None
        } else {
            *old(debounce)
        }),
{
    let settled = match *debounce {
        Some(t) => now >= t && now - t >= RESIZE_SETTLED_MS,
        None => false,
    };
    if settled {
        *debounce = None;
    }
    settled
}

/// How many frames in a row could not be drawn, once one more was tried.
pub fn draw_errors(so_far: u32, drawn: bool) -> (r: u32)
    requires
        so_far < u32::MAX,
    ensures
        r == (if drawn {
            0
        } else {
            (so_far + 1) as u32
        }),
{
    if drawn {
        0
    } else {
        so_far + 1
    }
}

/// What a frame does towards a screenshot.
#[derive(Debug, Clone, Copy, PartialEq, Eq, Structural)]
pub struct ScreenshotStep {
    /// Set up the state that is to be seen.
    pub inject: bool,
    /// Take the screenshot and end.
    pub capture: bool,
    /// Ask for another frame.
    pub redraw: bool,
}

/// The frame at which a screenshot is taken: a state that is set up for it needs one more.
pub open spec fn capture_frame(has_state: bool) -> u64 {
    if has_state {
        4
    } else {
        3
    }
}

/// What a frame does towards a screenshot, where one is wanted.
pub fn screenshot_step(wanted: bool, has_state: bool, frame: u64) -> (r: ScreenshotStep)
    ensures
        r == (ScreenshotStep {
            inject: wanted && has_state && frame == 3,
            capture: wanted && frame == capture_frame(has_state),
            redraw: wanted && frame != capture_frame(has_state),
        }),
{
    if !wanted {
        return ScreenshotStep { inject: false, capture: false, redraw: false };
    }
    let at: u64 = if has_state {
        4
    } else {
        3
    };
    ScreenshotStep { inject: has_state && frame == 3, capture: frame == at, redraw: frame != at }
}

/// The state of a screenshot is set up one frame before it is taken, and never in the same
/// frame.
pub proof fn state_is_set_up_before_capture(frame: u64)
    ensures
        frame == 3 ==> frame + 1 == capture_frame(true),
        capture_frame(false) < capture_frame(true),
{
}

/// A frame ends with drawing, and nothing is done twice in it; what came from outside is taken
/// in before the messages are dealt with, and the messages before the frame is drawn.
pub proof fn a_frame_ends_with_drawing(fonts_came: bool, reload_asked_for: bool)
    ensures
        ({
            let f = frame_order(fonts_came, true, reload_asked_for);
            &&& f.last() == FrameStep::Draw
            &&& f.contains(FrameStep::Status) && f.contains(FrameStep::RepoState) && f.contains(
                FrameStep::RemoteOps,
            ) && f.contains(FrameStep::Messages)
            &&& f.contains(FrameStep::FinishReload) <==> reload_asked_for
            &&& f.contains(FrameStep::Fonts) <==> fonts_came
            &&& forall|i: int, j: int|
                0 <= i < f.len() && 0 <= j < f.len() && f[i] == FrameStep::Messages && (f[j]
                    == FrameStep::Status || f[j] == FrameStep::RepoState || f[j]
                    == FrameStep::RemoteOps || f[j] == FrameStep::Watcher) ==> j < i
            &&& f.no_duplicates()
        }),
{
    let f = frame_order(fonts_came, true, reload_asked_for);
    let a: int = if fonts_came {
        1
    } else {
        0
    };
    let b: int = if reload_asked_for {
        1
    } else {
        0
    };
    assert(f[a + 2] == FrameStep::Status);
    assert(f[a + 3] == FrameStep::RepoState);
    assert(f[a + 7] == FrameStep::RemoteOps);
    assert(f[a + 9 + b] == FrameStep::Messages);
    if reload_asked_for {
        assert(f[a + 9] == FrameStep::FinishReload);
    }
    if fonts_came {
        assert(f[0] == FrameStep::Fonts);
    }
}

} // verus!
