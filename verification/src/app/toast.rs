//! Short notes to the user.

use crate::text;
use vstd::prelude::*;

verus! {

#[derive(Debug, Clone, Copy, PartialEq, Eq, Structural)]
pub enum ToastSeverity {
    Info,
    Success,
    Error,
}

/// A short note to the user.
#[derive(Debug)]
pub struct Toast {
    pub text: String,
    pub severity: ToastSeverity,
}

/// A toast by its views.
pub struct ToastView {
    pub text: Seq<char>,
    pub severity: ToastSeverity,
}

impl View for Toast {
    type V = ToastView;

    open spec fn view(&self) -> ToastView {
        ToastView { text: self.text@, severity: self.severity }
    }
}

/// A toast that informs.
pub open spec fn info(text: Seq<char>) -> ToastView {
    ToastView { text, severity: ToastSeverity::Info }
}

/// A toast that reports a success.
pub open spec fn success(text: Seq<char>) -> ToastView {
    ToastView { text, severity: ToastSeverity::Success }
}

/// A toast that reports an error.
pub open spec fn error(text: Seq<char>) -> ToastView {
    ToastView { text, severity: ToastSeverity::Error }
}

/// Toasts in the order in which they were pushed.
#[derive(Debug)]
pub struct ToastManager {
    pub toasts: Vec<Toast>,
}

impl View for ToastManager {
    type V = Seq<ToastView>;

    open spec fn view(&self) -> Seq<ToastView> {
        text::views(self.toasts@)
    }
}

impl ToastManager {
    pub fn new() -> (r: ToastManager)
        ensures
            r@ == Seq::<ToastView>::empty(),
    {
        let r = ToastManager { toasts: Vec::new() };
        assert(r@ =~= Seq::<ToastView>::empty());
        r
    }

    pub fn push(&mut self, text: String, severity: ToastSeverity)
        ensures
            final(self)@ == old(self)@.push(ToastView { text: text@, severity }),
    {
        let ghost before = self@;
        let toast = Toast { text, severity };
        self.toasts.push(toast);
        assert(self@ =~= before.push(toast@));
    }

    /// Whether any toast is shown.
    pub fn has_active_toasts(&self) -> (r: bool)
        ensures
            r == (self@.len() > 0),
    {
        self.toasts.len() > 0
    }
}

} // verus!
