//! What follows when a fetch, pull, push or other background operation comes to an end.

use crate::app::modal_state::{ActiveModal, Modals};
use crate::app::toast::{self, ToastManager, ToastSeverity, ToastView};
use crate::ci::{self, CiFetchResult, ProviderCiResult, ProviderCommitRollup};
use crate::git::errors::{self, classify_git_error};
use crate::git::RemoteOpResult;
use crate::order::{self, sort, Order};
use crate::text::{self, starts_with};
use crate::text_map::TextMap;
use vstd::prelude::*;
use vstd::string::*;

verus! {

/// What a background operation has sent so far.
#[derive(Debug)]
pub enum ReceiverPoll<T> {
    Ready(T),
    /// The operation is gone and will send nothing.
    Disconnected,
    /// Nothing has been sent yet.
    Pending,
}

/// Whole seconds from one point in time to a later one, both in milliseconds.
pub open spec fn seconds_between(from: nat, to: nat) -> nat {
    if to <= from {
        0
    } else {
        ((to - from) / 1000) as nat
    }
}

/// Whole seconds from one point in time to a later one, both in milliseconds.
pub fn elapsed_secs(from: u64, to: u64) -> (r: u64)
    ensures
        r == seconds_between(from as nat, to as nat),
{
    if to <= from {
        0
    } else {
        (to - from) / 1000
    }
}

/// A background operation that has not ended.
#[derive(Debug)]
pub struct PendingOp {
    /// When it was started, in milliseconds.
    pub started: u64,
    /// The remote it works with, or what it is called.
    pub label: String,
}

/// Result of polling an async remote operation receiver.
#[derive(Debug)]
pub enum AsyncOpPoll {
    /// Operation completed successfully; contains the remote/op name for the toast.
    Success(String),
    /// Operation failed; contains (friendly_message, raw_stderr).
    Failed(String, String),
    /// Background thread disconnected unexpectedly.
    Disconnected,
    /// Timeout threshold reached — caller should show a "still running" toast.
    Timeout,
    /// Still running, nothing to report yet.
    Pending,
}

/// The result of polling by its views.
pub enum PollView {
    Success(Seq<char>),
    Failed(Seq<char>, Seq<char>),
    Disconnected,
    Timeout,
    Pending,
}

impl View for AsyncOpPoll {
    type V = PollView;

    open spec fn view(&self) -> PollView {
        match self {
            AsyncOpPoll::Success(s) => PollView::Success(s@),
            AsyncOpPoll::Failed(a, b) => PollView::Failed(a@, b@),
            AsyncOpPoll::Disconnected => PollView::Disconnected,
            AsyncOpPoll::Timeout => PollView::Timeout,
            AsyncOpPoll::Pending => PollView::Pending,
        }
    }
}

/// What is said of an operation that failed.
pub open spec fn friendly(op_name: Seq<char>, error: Seq<char>) -> Seq<char> {
    errors::friendly_text(
        op_name,
        errors::complaint(text::lowercase(error)),
        text::lines(error),
        errors::lowered(text::lines(error)),
    )
}

/// What polling an operation gives. `shown` says whether the user was already told that it
/// takes long.
pub open spec fn polled(
    op: Option<PendingOp>,
    reply: ReceiverPoll<RemoteOpResult>,
    shown: bool,
    op_name: Seq<char>,
    now: nat,
    timeout_secs: nat,
) -> PollView {
    match op {
        None => PollView::Pending,
        Some(o) => match reply {
            ReceiverPoll::Ready(result) => if result.success {
                PollView::Success(o.label@)
            } else {
                PollView::Failed(friendly(op_name, result.error@), result.error@)
            },
            ReceiverPoll::Disconnected => PollView::Disconnected,
            ReceiverPoll::Pending => if seconds_between(o.started as nat, now) >= timeout_secs
                && !shown {
                PollView::Timeout
            } else {
                PollView::Pending
            },
        },
    }
}

/// Whether the operation has ended.
pub open spec fn ended(p: PollView) -> bool {
    p is Success || p is Failed || p is Disconnected
}

/// Poll a remote operation receiver (fetch/pull/push) and return what happened.
/// On completion or disconnect, clears the receiver, header flag, and timeout flag.
/// On timeout, sets the timeout flag.
pub fn poll_remote_op(
    receiver: &mut Option<PendingOp>,
    header_flag: &mut bool,
    timeout_flag: &mut bool,
    reply: ReceiverPoll<RemoteOpResult>,
    op_name: &str,
    now: u64,
    timeout_secs: u64,
) -> (r: AsyncOpPoll)
    ensures
        r@ == polled(
            *old(receiver),
            reply,
            *old(timeout_flag),
            op_name@,
            now as nat,
            timeout_secs as nat,
        ),
        *final(receiver) == (if ended(r@) {
            None
        } else {
            *old(receiver)
        }),
        *final(header_flag) == (*old(header_flag) && !ended(r@)),
        *final(timeout_flag) == (!ended(r@) && (*old(timeout_flag) || r@ is Timeout)),
{
    let (started, remote) = match receiver {
        Some(op) => (op.started, op.label.clone()),
        None => {
            return AsyncOpPoll::Pending;
        },
    };
    match reply {
        ReceiverPoll::Ready(result) => {
            *header_flag = false;
            *receiver = None;
            *timeout_flag = false;
            if result.success {
                AsyncOpPoll::Success(remote)
            } else {
                let (msg, _) = classify_git_error(op_name, result.error.as_str());
                AsyncOpPoll::Failed(msg, result.error)
            }
        },
        ReceiverPoll::Disconnected => {
            *header_flag = false;
            *receiver = None;
            *timeout_flag = false;
            AsyncOpPoll::Disconnected
        },
        ReceiverPoll::Pending => {
            if elapsed_secs(started, now) >= timeout_secs && !*timeout_flag {
                *timeout_flag = true;
                AsyncOpPoll::Timeout
            } else {
                AsyncOpPoll::Pending
            }
        },
    }
}

/// The user is told only once that an operation takes long: polled again at any later time
/// without an answer, it is not said again.
pub proof fn slowness_is_told_once(
    op: Option<PendingOp>,
    op_name: Seq<char>,
    now: nat,
    later: nat,
    timeout_secs: nat,
)
    requires
        polled(op, ReceiverPoll::Pending, false, op_name, now, timeout_secs) is Timeout,
    ensures
        polled(op, ReceiverPoll::Pending, true, op_name, later, timeout_secs) is Pending,
{
}

/// An operation that sent its result, or is gone, has ended; one that is still running has
/// not.
pub proof fn answer_ends_operation(
    op: PendingOp,
    reply: ReceiverPoll<RemoteOpResult>,
    shown: bool,
    op_name: Seq<char>,
    now: nat,
    timeout_secs: nat,
)
    ensures
        ended(polled(Some(op), reply, shown, op_name, now, timeout_secs)) <==> !(reply is Pending),
{
}

// ---------------------------------------------------------------------------
// Telling the user
// ---------------------------------------------------------------------------

/// What an error dialog shows.
#[derive(Debug)]
pub struct ErrorNote {
    pub title: String,
    pub summary: String,
    pub details: String,
}

/// An error note by its views.
pub struct ErrorNoteView {
    pub title: Seq<char>,
    pub summary: Seq<char>,
    pub details: Seq<char>,
}

impl View for ErrorNote {
    type V = ErrorNoteView;

    open spec fn view(&self) -> ErrorNoteView {
        ErrorNoteView { title: self.title@, summary: self.summary@, details: self.details@ }
    }
}

/// With the error dialog in front of whatever was active.
pub open spec fn errored(m: Modals) -> Modals {
    Modals {
        active: Some(ActiveModal::Error),
        interrupted: m.active,
        dialogs: m.dialogs.with(ActiveModal::Error, true),
    }
}

fn show_error(modals: &mut Modals)
    ensures
        *final(modals) == errored(*old(modals)),
{
    modals.dialogs.set(ActiveModal::Error, true);
    modals.interrupted = modals.active;
    modals.active = Some(ActiveModal::Error);
}

/// The toasts that follow from polling a fetch, pull or push.
pub open spec fn remote_toasts(
    p: PollView,
    op_name: Seq<char>,
    past_tense: Seq<char>,
) -> Seq<ToastView> {
    match p {
        PollView::Success(remote) => seq![toast::success(past_tense + " "@ + remote)],
        PollView::Timeout => seq![toast::info(op_name + " still running..."@)],
        _ => Seq::empty(),
    }
}

/// The error note that follows from polling an operation.
pub open spec fn error_notes(p: PollView, op_name: Seq<char>) -> Seq<ErrorNoteView> {
    match p {
        PollView::Failed(summary, raw) => seq![
            ErrorNoteView { title: op_name + " Failed"@, summary, details: raw },
        ],
        PollView::Disconnected => seq![
            ErrorNoteView {
                title: op_name + " Failed"@,
                summary: op_name
                    + " failed: the background thread terminated unexpectedly."@,
                details: ""@,
            },
        ],
        _ => Seq::empty(),
    }
}

/// The dialogs after polling an operation.
pub open spec fn modals_after(m: Modals, p: PollView) -> Modals {
    if p is Failed || p is Disconnected {
        errored(m)
    } else {
        m
    }
}

fn push_note(notes: &mut Vec<ErrorNote>, op_name: &str, summary: String, details: String)
    ensures
        text::views(final(notes)@) == text::views(old(notes)@).push(
            ErrorNoteView { title: op_name@ + " Failed"@, summary: summary@, details: details@ },
        ),
{
    let mut title = op_name.to_owned();
    title.append(" Failed");
    let ghost before = notes@;
    let note = ErrorNote { title, summary, details };
    notes.push(note);
    assert(text::views(notes@) =~= text::views(before).push(note@));
}

fn note_failure(
    p: AsyncOpPoll,
    op_name: &str,
    modals: &mut Modals,
    notes: &mut Vec<ErrorNote>,
)
    ensures
        *final(modals) == modals_after(*old(modals), p@),
        text::views(final(notes)@) == text::views(old(notes)@) + error_notes(p@, op_name@),
{
    match p {
        AsyncOpPoll::Failed(summary, raw) => {
            push_note(notes, op_name, summary, raw);
            show_error(modals);
        },
        AsyncOpPoll::Disconnected => {
            let mut summary = op_name.to_owned();
            summary.append(" failed: the background thread terminated unexpectedly.");
            push_note(notes, op_name, summary, "".to_owned());
            show_error(modals);
        },
        _ => {},
    }
    assert(text::views(notes@) =~= text::views(old(notes)@) + error_notes(p@, op_name@));
}

/// Whether the repository has to be read again after polling a fetch, pull or push. That is
/// so on failure too: a failed pull still fetches refs, a failed merge may leave the
/// repository in a new state.
pub open spec fn refreshes(p: PollView) -> bool {
    p is Success || p is Failed
}

fn settle_remote(
    p: AsyncOpPoll,
    op_name: &str,
    past_tense: &str,
    toasts: &mut ToastManager,
    modals: &mut Modals,
    notes: &mut Vec<ErrorNote>,
) -> (r: (bool, bool))
    ensures
        r.0 == refreshes(p@),
        r.1 == (p@ is Success),
        final(toasts)@ == old(toasts)@ + remote_toasts(p@, op_name@, past_tense@),
        *final(modals) == modals_after(*old(modals), p@),
        text::views(final(notes)@) == text::views(old(notes)@) + error_notes(p@, op_name@),
{
    let refresh = match &p {
        AsyncOpPoll::Success(_) => true,
        AsyncOpPoll::Failed(_, _) => true,
        _ => false,
    };
    let mut succeeded = false;
    match &p {
        AsyncOpPoll::Success(remote) => {
            let mut s = past_tense.to_owned();
            s.append(" ");
            s.append(remote.as_str());
            toasts.push(s, ToastSeverity::Success);
            succeeded = true;
        },
        AsyncOpPoll::Timeout => {
            let mut s = op_name.to_owned();
            s.append(" still running...");
            toasts.push(s, ToastSeverity::Info);
        },
        _ => {},
    }
    assert(toasts@ =~= old(toasts)@ + remote_toasts(p@, op_name@, past_tense@));
    note_failure(p, op_name, modals, notes);
    (refresh, succeeded)
}

/// The toasts that follow from polling an operation on submodules, worktrees or branches.
pub open spec fn generic_toasts(p: PollView) -> Seq<ToastView> {
    match p {
        PollView::Success(label) => {
            let done = seq![toast::success(label + " complete"@)];
            if text::begins(label, "Squash merge"@) {
                done.push(
                    toast::info("Squash merge staged. Review and commit when ready."@),
                )
            } else {
                done
            }
        },
        _ => Seq::empty(),
    }
}

/// That an operation takes long.
pub open spec fn slow_toasts(p: PollView, label: Seq<char>) -> Seq<ToastView> {
    if p is Timeout {
        seq![toast::info(label + " still running..."@)]
    } else {
        Seq::empty()
    }
}

fn settle_generic(
    p: AsyncOpPoll,
    label: &str,
    toasts: &mut ToastManager,
    modals: &mut Modals,
    notes: &mut Vec<ErrorNote>,
) -> (r: bool)
    ensures
        r == (p@ is Success),
        final(toasts)@ == old(toasts)@ + generic_toasts(p@) + slow_toasts(p@, label@),
        *final(modals) == modals_after(*old(modals), p@),
        text::views(final(notes)@) == text::views(old(notes)@) + error_notes(p@, label@),
{
    let mut succeeded = false;
    match &p {
        AsyncOpPoll::Success(name) => {
            let mut s = name.clone();
            s.append(" complete");
            toasts.push(s, ToastSeverity::Success);
            if starts_with(name.as_str(), "Squash merge") {
                toasts.push(
                    "Squash merge staged. Review and commit when ready.".to_owned(),
                    ToastSeverity::Info,
                );
            }
            succeeded = true;
        },
        AsyncOpPoll::Timeout => {
            let mut s = label.to_owned();
            s.append(" still running...");
            toasts.push(s, ToastSeverity::Info);
        },
        _ => {},
    }
    assert(toasts@ =~= old(toasts)@ + generic_toasts(p@) + slow_toasts(p@, label@));
    note_failure(p, label, modals, notes);
    succeeded
}

// ---------------------------------------------------------------------------
// Checks
// ---------------------------------------------------------------------------

/// Results in the order of their providers.
pub struct ResultByProvider {}

impl Order<ProviderCiResult> for ResultByProvider {
    open spec fn before(a: ProviderCiResult, b: ProviderCiResult) -> bool {
        a.provider.rank() < b.provider.rank()
    }

    proof fn is_order(a: ProviderCiResult, b: ProviderCiResult, c: ProviderCiResult) {
    }

    fn is_before(a: &ProviderCiResult, b: &ProviderCiResult) -> (r: bool) {
        a.provider.sort_key() < b.provider.sort_key()
    }
}

/// The results of the other providers.
pub open spec fn of_others(
    results: Seq<ProviderCiResult>,
    r: ProviderCiResult,
) -> Seq<ProviderCiResult>
    decreases results.len(),
{
    if results.len() == 0 {
        Seq::empty()
    } else if results.last().provider != r.provider {
        of_others(results.drop_last(), r).push(results.last())
    } else {
        of_others(results.drop_last(), r)
    }
}

/// The results once `r` has come in the place of what its provider said before.
pub open spec fn with_result(
    results: Seq<ProviderCiResult>,
    r: ProviderCiResult,
) -> Seq<ProviderCiResult> {
    order::sorted::<ProviderCiResult, ResultByProvider>(of_others(results, r).push(r))
}

/// The results once all of `arrived` have come, one after the other.
pub open spec fn with_results(
    results: Seq<ProviderCiResult>,
    arrived: Seq<ProviderCiResult>,
) -> Seq<ProviderCiResult>
    decreases arrived.len(),
{
    if arrived.len() == 0 {
        results
    } else {
        with_result(with_results(results, arrived.drop_last()), arrived.last())
    }
}

fn take_result(results: Vec<ProviderCiResult>, r: ProviderCiResult) -> (out: Vec<ProviderCiResult>)
    ensures
        out@ == with_result(results@, r),
{
    let ghost all = results@;
    let mut kept: Vec<ProviderCiResult> = Vec::new();
    assert(kept@ =~= of_others(all.take(0), r));
    for x in it: results
        invariant
            it.seq() == all,
            kept@ == of_others(all.take(it.index() as int), r),
    {
        proof {
            let i = it.index() as int;
            assert(all.take(i + 1).drop_last() =~= all.take(i));
            assert(all.take(i + 1).last() == x);
        }
        if x.provider != r.provider {
            kept.push(x);
        }
    }
    assert(all.take(all.len() as int) =~= all);
    kept.push(r);
    let out = sort::<ProviderCiResult, ResultByProvider>(kept);
    assert(text::views(kept@) =~= kept@);
    assert(text::views(out@) =~= out@);
    out
}

fn take_results(results: Vec<ProviderCiResult>, arrived: Vec<ProviderCiResult>) -> (out: Vec<
    ProviderCiResult,
>)
    ensures
        out@ == with_results(results@, arrived@),
{
    let ghost all = arrived@;
    let ghost start = results@;
    let mut out = results;
    assert(all.take(0) =~= Seq::empty());
    for x in it: arrived
        invariant
            it.seq() == all,
            out@ == with_results(start, all.take(it.index() as int)),
    {
        proof {
            let i = it.index() as int;
            assert(all.take(i + 1).drop_last() =~= all.take(i));
            assert(all.take(i + 1).last() == x);
        }
        out = take_result(out, x);
    }
    assert(all.take(all.len() as int) =~= all);
    out
}

proof fn lemma_of_others(results: Seq<ProviderCiResult>, r: ProviderCiResult)
    ensures
        forall|i: int|
            0 <= i < of_others(results, r).len() ==> (#[trigger] of_others(
                results,
                r,
            )[i]).provider != r.provider,
    decreases results.len(),
{
    if results.len() > 0 {
        lemma_of_others(results.drop_last(), r);
    }
}

/// What a provider says last is what is kept of it: after a result has come in, it is there,
/// it is the only one of its provider, and the results are in the order of the providers.
pub proof fn newest_result_is_kept(results: Seq<ProviderCiResult>, r: ProviderCiResult)
    ensures
        with_result(results, r).contains(r),
        with_result(results, r).to_multiset().count(r) == 1,
        forall|x: ProviderCiResult|
            with_result(results, r).contains(x) && x.provider == r.provider ==> x == r,
        order::in_order::<ProviderCiResult, ResultByProvider>(with_result(results, r)),
{
    broadcast use vstd::seq_lib::group_to_multiset_ensures;

    let rest = of_others(results, r);
    let all = rest.push(r);
    let out = with_result(results, r);
    lemma_of_others(results, r);
    order::sorting_keeps_values_and_orders_them::<ProviderCiResult, ResultByProvider>(all);
    assert(out.to_multiset() == all.to_multiset());
    assert(!rest.contains(r));
    assert(rest.to_multiset().count(r) == 0);
    assert(all.to_multiset() =~= rest.to_multiset().insert(r));
    assert(out.to_multiset().count(r) == 1);
    assert(out.contains(r));
    assert forall|x: ProviderCiResult| out.contains(x) && x.provider == r.provider implies x
        == r by {
        assert(out.to_multiset().count(x) > 0);
        assert(all.contains(x));
        let i = choose|i: int| 0 <= i < all.len() && all[i] == x;
        if i < rest.len() {
            assert(rest[i].provider != r.provider);
        }
    }
}

// ---------------------------------------------------------------------------
// All operations of a tab
// ---------------------------------------------------------------------------

/// How long an operation may take before the user is told that it is still running.
pub const TIMEOUT_SECS: u64 = 60;

/// The background operations of a tab.
pub struct RemoteOps {
    pub fetch: Option<PendingOp>,
    pub pull: Option<PendingOp>,
    pub push: Option<PendingOp>,
    /// An operation on submodules, worktrees or branches.
    pub generic: Option<PendingOp>,
    pub fetching: bool,
    pub pulling: bool,
    pub pushing: bool,
    /// Of which the user was told that they take long.
    pub told_fetch: bool,
    pub told_pull: bool,
    pub told_push: bool,
    pub told_generic: bool,
    /// When the last push ended, in milliseconds.
    pub last_push_time: Option<u64>,
    pub ci_results: Vec<ProviderCiResult>,
}

/// What the background operations of a tab have sent.
pub struct RemoteReplies {
    pub fetch: ReceiverPoll<RemoteOpResult>,
    pub pull: ReceiverPoll<RemoteOpResult>,
    pub push: ReceiverPoll<RemoteOpResult>,
    pub generic: ReceiverPoll<RemoteOpResult>,
    /// What providers report, in the order in which it came.
    pub ci: Vec<ProviderCiResult>,
}

/// What is left to do outside.
pub struct RemoteOutcome {
    /// What the error dialog is filled in with, one after the other.
    pub errors: Vec<ErrorNote>,
    /// How many times the checks are to be asked for again.
    pub ci_fetches: usize,
    /// The checks of each commit, where any provider has reported.
    pub rollups: Option<TextMap<Vec<ProviderCommitRollup>>>,
    /// Whether the repository has to be read again.
    pub needs_repo_refresh: bool,
}

/// What polling the fetch gives.
pub open spec fn fetch_poll(ops: RemoteOps, replies: RemoteReplies, now: nat) -> PollView {
    polled(ops.fetch, replies.fetch, ops.told_fetch, "Fetch"@, now, TIMEOUT_SECS as nat)
}

/// What polling the pull gives.
pub open spec fn pull_poll(ops: RemoteOps, replies: RemoteReplies, now: nat) -> PollView {
    polled(ops.pull, replies.pull, ops.told_pull, "Pull"@, now, TIMEOUT_SECS as nat)
}

/// What polling the push gives.
pub open spec fn push_poll(ops: RemoteOps, replies: RemoteReplies, now: nat) -> PollView {
    polled(ops.push, replies.push, ops.told_push, "Push"@, now, TIMEOUT_SECS as nat)
}

/// What an operation is called.
pub open spec fn label_of(op: Option<PendingOp>) -> Seq<char> {
    match op {
        Some(o) => o.label@,
        None => ""@,
    }
}

/// What the other operation is called.
pub open spec fn generic_label(ops: RemoteOps) -> Seq<char> {
    label_of(ops.generic)
}

/// What polling the other operation gives.
pub open spec fn generic_poll(ops: RemoteOps, replies: RemoteReplies, now: nat) -> PollView {
    polled(
        ops.generic,
        replies.generic,
        ops.told_generic,
        generic_label(ops),
        now,
        TIMEOUT_SECS as nat,
    )
}

/// One where `b`, else none.
pub open spec fn one_if(b: bool) -> nat {
    if b {
        1
    } else {
        0
    }
}

/// An operation after it was polled.
pub open spec fn op_after(op: Option<PendingOp>, p: PollView) -> Option<PendingOp> {
    if ended(p) {
        None
    } else {
        op
    }
}

/// Whether the user knows that an operation takes long, after it was polled.
pub open spec fn told_after(told: bool, p: PollView) -> bool {
    !ended(p) && (told || p is Timeout)
}

/// Whether the operations of a tab are as polling leaves them.
pub open spec fn ops_after(
    before: RemoteOps,
    replies: RemoteReplies,
    now: u64,
    after: RemoteOps,
) -> bool {
    let f = fetch_poll(before, replies, now as nat);
    let l = pull_poll(before, replies, now as nat);
    let h = push_poll(before, replies, now as nat);
    let g = generic_poll(before, replies, now as nat);
    &&& after.fetch == op_after(before.fetch, f)
    &&& after.pull == op_after(before.pull, l)
    &&& after.push == op_after(before.push, h)
    &&& after.generic == op_after(before.generic, g)
    &&& after.fetching == (before.fetching && !ended(f))
    &&& after.pulling == (before.pulling && !ended(l))
    &&& after.pushing == (before.pushing && !ended(h))
    &&& after.told_fetch == told_after(before.told_fetch, f)
    &&& after.told_pull == told_after(before.told_pull, l)
    &&& after.told_push == told_after(before.told_push, h)
    &&& after.told_generic == told_after(before.told_generic, g)
    &&& after.last_push_time == (if before.pushing && ended(h) {
        Some(now)
    } else {
        before.last_push_time
    })
    &&& after.ci_results@ == with_results(before.ci_results@, replies.ci@)
}

fn poll_and_settle(
    receiver: &mut Option<PendingOp>,
    header_flag: &mut bool,
    timeout_flag: &mut bool,
    reply: ReceiverPoll<RemoteOpResult>,
    op_name: &str,
    past_tense: &str,
    now: u64,
    toasts: &mut ToastManager,
    modals: &mut Modals,
    notes: &mut Vec<ErrorNote>,
) -> (r: (bool, bool))
    ensures
        ({
            let p = polled(
                *old(receiver),
                reply,
                *old(timeout_flag),
                op_name@,
                now as nat,
                TIMEOUT_SECS as nat,
            );
            &&& r.0 == refreshes(p)
            &&& r.1 == (p is Success)
            &&& *final(receiver) == op_after(*old(receiver), p)
            &&& *final(header_flag) == (*old(header_flag) && !ended(p))
            &&& *final(timeout_flag) == told_after(*old(timeout_flag), p)
            &&& final(toasts)@ == old(toasts)@ + remote_toasts(p, op_name@, past_tense@)
            &&& *final(modals) == modals_after(*old(modals), p)
            &&& text::views(final(notes)@) == text::views(old(notes)@) + error_notes(p, op_name@)
        }),
{
    let p = poll_remote_op(
        receiver,
        header_flag,
        timeout_flag,
        reply,
        op_name,
        now,
        TIMEOUT_SECS,
    );
    settle_remote(p, op_name, past_tense, toasts, modals, notes)
}

fn poll_generic(
    receiver: &mut Option<PendingOp>,
    timeout_flag: &mut bool,
    reply: ReceiverPoll<RemoteOpResult>,
    now: u64,
    toasts: &mut ToastManager,
    modals: &mut Modals,
    notes: &mut Vec<ErrorNote>,
) -> (r: bool)
    ensures
        ({
            let label = label_of(*old(receiver));
            let p = polled(
                *old(receiver),
                reply,
                *old(timeout_flag),
                label,
                now as nat,
                TIMEOUT_SECS as nat,
            );
            &&& r == (p is Success)
            &&& *final(receiver) == op_after(*old(receiver), p)
            &&& *final(timeout_flag) == told_after(*old(timeout_flag), p)
            &&& final(toasts)@ == old(toasts)@ + generic_toasts(p) + slow_toasts(p, label)
            &&& *final(modals) == modals_after(*old(modals), p)
            &&& text::views(final(notes)@) == text::views(old(notes)@) + error_notes(p, label)
        }),
{
    let label = match receiver {
        Some(op) => op.label.clone(),
        None => "".to_owned(),
    };
    let mut no_flag = false;
    let p = poll_remote_op(
        receiver,
        &mut no_flag,
        timeout_flag,
        reply,
        label.as_str(),
        now,
        TIMEOUT_SECS,
    );
    settle_generic(p, label.as_str(), toasts, modals, notes)
}

/// The checks of each commit, where any provider has reported.
pub open spec fn rollups_known(
    r: Option<TextMap<Vec<ProviderCommitRollup>>>,
    results: Seq<ProviderCiResult>,
) -> bool {
    match r {
        None => results.len() == 0,
        Some(map) => {
            &&& results.len() > 0
            &&& map.wf()
            &&& forall|sha: Seq<char>| #[trigger] map.has(sha) <==> ci::sha_known(results, sha)
            &&& forall|sha: Seq<char>| #[trigger]
                map.has(sha) ==> text::views(map.at(sha)@) == order::sorted::<
                    ProviderCommitRollup,
                    ci::ByProvider,
                >(ci::rollups_for(results, sha))
        },
    }
}

fn poll_ci(ci_results: &mut Vec<ProviderCiResult>, arrived: Vec<ProviderCiResult>) -> (r: Option<
    TextMap<Vec<ProviderCommitRollup>>,
>)
    ensures
        final(ci_results)@ == with_results(old(ci_results)@, arrived@),
        rollups_known(r, final(ci_results)@),
{
    let mut results: Vec<ProviderCiResult> = Vec::new();
    std::mem::swap(&mut results, ci_results);
    results = take_results(results, arrived);
    let mut rollups: Option<TextMap<Vec<ProviderCommitRollup>>> = None;
    if results.len() > 0 {
        let merged = CiFetchResult { providers: results };
        rollups = Some(merged.per_commit_provider_rollups());
        results = merged.providers;
    }
    *ci_results = results;
    rollups
}

#[verifier::rlimit(30)]
fn poll_transfers(
    ops: &mut RemoteOps,
    fetch: ReceiverPoll<RemoteOpResult>,
    pull: ReceiverPoll<RemoteOpResult>,
    push: ReceiverPoll<RemoteOpResult>,
    toasts: &mut ToastManager,
    modals: &mut Modals,
    notes: &mut Vec<ErrorNote>,
    now: u64,
) -> (r: (bool, usize))
    ensures
        ({
            let o = *old(ops);
            let t = TIMEOUT_SECS as nat;
            let f = polled(o.fetch, fetch, o.told_fetch, "Fetch"@, now as nat, t);
            let l = polled(o.pull, pull, o.told_pull, "Pull"@, now as nat, t);
            let h = polled(o.push, push, o.told_push, "Push"@, now as nat, t);
            &&& *final(ops) == (RemoteOps {
                fetch: op_after(o.fetch, f),
                pull: op_after(o.pull, l),
                push: op_after(o.push, h),
                fetching: o.fetching && !ended(f),
                pulling: o.pulling && !ended(l),
                pushing: o.pushing && !ended(h),
                told_fetch: told_after(o.told_fetch, f),
                told_pull: told_after(o.told_pull, l),
                told_push: told_after(o.told_push, h),
                last_push_time: if o.pushing && ended(h) {
                    Some(now)
                } else {
                    o.last_push_time
                },
                ..o
            })
            &&& final(toasts)@ == old(toasts)@ + remote_toasts(f, "Fetch"@, "Fetched from"@)
                + remote_toasts(l, "Pull"@, "Pulled from"@) + remote_toasts(
                h,
                "Push"@,
                "Pushed to"@,
            )
            &&& *final(modals) == modals_after(modals_after(modals_after(*old(modals), f), l), h)
            &&& text::views(final(notes)@) == text::views(old(notes)@) + error_notes(f, "Fetch"@)
                + error_notes(l, "Pull"@) + error_notes(h, "Push"@)
            &&& r.0 == (refreshes(f) || refreshes(l) || refreshes(h))
            &&& r.1 == one_if(f is Success) + one_if(l is Success) + one_if(h is Success)
        }),
{
    let (refresh_f, ok_f) = poll_and_settle(
        &mut ops.fetch,
        &mut ops.fetching,
        &mut ops.told_fetch,
        fetch,
        "Fetch",
        "Fetched from",
        now,
        toasts,
        modals,
        notes,
    );
    let (refresh_l, ok_l) = poll_and_settle(
        &mut ops.pull,
        &mut ops.pulling,
        &mut ops.told_pull,
        pull,
        "Pull",
        "Pulled from",
        now,
        toasts,
        modals,
        notes,
    );
    let was_pushing = ops.pushing;
    let (refresh_h, ok_h) = poll_and_settle(
        &mut ops.push,
        &mut ops.pushing,
        &mut ops.told_push,
        push,
        "Push",
        "Pushed to",
        now,
        toasts,
        modals,
        notes,
    );
    if was_pushing && !ops.pushing {
        ops.last_push_time = Some(now);
    }
    let mut ci_fetches: usize = 0;
    if ok_f {
        ci_fetches = ci_fetches + 1;
    }
    if ok_l {
        ci_fetches = ci_fetches + 1;
    }
    if ok_h {
        ci_fetches = ci_fetches + 1;
    }
    (refresh_f || refresh_l || refresh_h, ci_fetches)
}

/// Deal with everything that the background operations of a tab have sent, as seen at `now`,
/// in milliseconds.
#[verifier::rlimit(30)]
pub fn poll_remote_ops_for_tab(
    ops: &mut RemoteOps,
    replies: RemoteReplies,
    toasts: &mut ToastManager,
    modals: &mut Modals,
    now: u64,
) -> (r: RemoteOutcome)
    ensures
        ops_after(*old(ops), replies, now, *final(ops)),
        ({
            let f = fetch_poll(*old(ops), replies, now as nat);
            let l = pull_poll(*old(ops), replies, now as nat);
            let h = push_poll(*old(ops), replies, now as nat);
            let g = generic_poll(*old(ops), replies, now as nat);
            &&& final(toasts)@ == old(toasts)@ + remote_toasts(f, "Fetch"@, "Fetched from"@)
                + remote_toasts(l, "Pull"@, "Pulled from"@) + remote_toasts(
                h,
                "Push"@,
                "Pushed to"@,
            ) + generic_toasts(g) + slow_toasts(g, generic_label(*old(ops)))
            &&& *final(modals) == modals_after(
                modals_after(modals_after(modals_after(*old(modals), f), l), h),
                g,
            )
            &&& text::views(r.errors@) == error_notes(f, "Fetch"@) + error_notes(l, "Pull"@)
                + error_notes(h, "Push"@) + error_notes(g, generic_label(*old(ops)))
            &&& r.ci_fetches == one_if(f is Success) + one_if(l is Success) + one_if(h is Success)
            &&& r.needs_repo_refresh == (refreshes(f) || refreshes(l) || refreshes(h)
                || g is Success)
        }),
        rollups_known(r.rollups, final(ops).ci_results@),
{
    let mut errors: Vec<ErrorNote> = Vec::new();
    assert(text::views(errors@) =~= Seq::<ErrorNoteView>::empty());
    let (refresh, ci_fetches) = poll_transfers(
        ops,
        replies.fetch,
        replies.pull,
        replies.push,
        toasts,
        modals,
        &mut errors,
        now,
    );
    let rollups = poll_ci(&mut ops.ci_results, replies.ci);
    let refresh_g = poll_generic(
        &mut ops.generic,
        &mut ops.told_generic,
        replies.generic,
        now,
        toasts,
        modals,
        &mut errors,
    );
    assert(text::views(errors@) =~= error_notes(
        fetch_poll(*old(ops), replies, now as nat),
        "Fetch"@,
    ) + error_notes(pull_poll(*old(ops), replies, now as nat), "Pull"@) + error_notes(
        push_poll(*old(ops), replies, now as nat),
        "Push"@,
    ) + error_notes(
        generic_poll(*old(ops), replies, now as nat),
        generic_label(*old(ops)),
    ));
    RemoteOutcome { errors, ci_fetches, rollups, needs_repo_refresh: refresh || refresh_g }
}

/// How the rest of the program learns that a tab has changed.
#[derive(Debug, Clone, Copy, PartialEq, Eq, Structural)]
pub enum StatusUpdate {
    /// The active tab: its status is read with the next frame.
    MarkDirty,
    /// Another tab: its status is read right away.
    RefreshTab,
}

/// How the status of a changed tab is brought up to date.
pub fn status_update(tab: usize, active_tab: usize) -> (r: StatusUpdate)
    ensures
        r == (if tab == active_tab {
            StatusUpdate::MarkDirty
        } else {
            StatusUpdate::RefreshTab
        }),
{
    if tab == active_tab {
        StatusUpdate::MarkDirty
    } else {
        StatusUpdate::RefreshTab
    }
}

// ---------------------------------------------------------------------------
// Laws
// ---------------------------------------------------------------------------

/// An operation that has not answered is told to be slow when as many seconds have passed since
/// it was started as it may take, and not before.
pub proof fn slowness_is_told_when_time_is_up(
    op: PendingOp,
    op_name: Seq<char>,
    now: nat,
    timeout_secs: nat,
)
    requires
        timeout_secs > 0,
    ensures
        polled(Some(op), ReceiverPoll::Pending, false, op_name, now, timeout_secs) is Timeout
            <==> now >= op.started + 1000 * timeout_secs,
{
    let from = op.started as nat;
    if now > from {
        let d = (now - from) as int;
        assert(d / 1000 >= timeout_secs <==> d >= 1000 * timeout_secs) by (nonlinear_arith);
    }
}

/// Fetching, pulling, pushing and any other operation may take a minute before it is told that
/// it takes long.
pub proof fn operations_may_take_a_minute(
    ops: RemoteOps,
    replies: RemoteReplies,
    now: nat,
)
    ensures
        ops.fetch is Some && replies.fetch is Pending && !ops.told_fetch ==> (fetch_poll(
            ops,
            replies,
            now,
        ) is Timeout <==> now >= ops.fetch->0.started + 60_000),
        ops.pull is Some && replies.pull is Pending && !ops.told_pull ==> (pull_poll(
            ops,
            replies,
            now,
        ) is Timeout <==> now >= ops.pull->0.started + 60_000),
        ops.push is Some && replies.push is Pending && !ops.told_push ==> (push_poll(
            ops,
            replies,
            now,
        ) is Timeout <==> now >= ops.push->0.started + 60_000),
        ops.generic is Some && replies.generic is Pending && !ops.told_generic ==> (generic_poll(
            ops,
            replies,
            now,
        ) is Timeout <==> now >= ops.generic->0.started + 60_000),
{
    if ops.fetch is Some {
        slowness_is_told_when_time_is_up(ops.fetch->0, "Fetch"@, now, 60);
    }
    if ops.pull is Some {
        slowness_is_told_when_time_is_up(ops.pull->0, "Pull"@, now, 60);
    }
    if ops.push is Some {
        slowness_is_told_when_time_is_up(ops.push->0, "Push"@, now, 60);
    }
    if ops.generic is Some {
        slowness_is_told_when_time_is_up(ops.generic->0, generic_label(ops), now, 60);
    }
}

/// The answer decides: an operation that worked is told with its label, and one that failed with
/// what git said, word for word.
pub proof fn the_answer_is_told(
    op: PendingOp,
    result: RemoteOpResult,
    shown: bool,
    op_name: Seq<char>,
    now: nat,
    timeout_secs: nat,
)
    ensures
        result.success ==> polled(
            Some(op),
            ReceiverPoll::Ready(result),
            shown,
            op_name,
            now,
            timeout_secs,
        ) == PollView::Success(op.label@),
        !result.success ==> {
            let p = polled(
                Some(op),
                ReceiverPoll::Ready(result),
                shown,
                op_name,
                now,
                timeout_secs,
            );
            &&& p is Failed
            &&& p->Failed_1 == result.error@
            &&& error_notes(p, op_name).len() == 1
            &&& error_notes(p, op_name)[0].title == op_name + " Failed"@
            &&& error_notes(p, op_name)[0].details == result.error@
        },
{
}

/// An operation goes on until it is answered: while no answer has come it is kept and shown as
/// running, and when one has come, of whatever kind, it is kept and shown no more. The four are
/// dealt with each by itself.
pub proof fn operations_go_on_until_answered(
    before: RemoteOps,
    replies: RemoteReplies,
    now: u64,
    after: RemoteOps,
)
    requires
        ops_after(before, replies, now, after),
    ensures
        before.fetch is None || replies.fetch is Pending ==> after.fetch == before.fetch
            && after.fetching == before.fetching,
        before.fetch is Some && !(replies.fetch is Pending) ==> after.fetch is None
            && !after.fetching && !after.told_fetch,
        before.pull is None || replies.pull is Pending ==> after.pull == before.pull
            && after.pulling == before.pulling,
        before.pull is Some && !(replies.pull is Pending) ==> after.pull is None && !after.pulling
            && !after.told_pull,
        before.push is None || replies.push is Pending ==> after.push == before.push
            && after.pushing == before.pushing && after.last_push_time == before.last_push_time,
        before.push is Some && !(replies.push is Pending) ==> after.push is None && !after.pushing
            && !after.told_push,
        before.push is Some && before.pushing && !(replies.push is Pending) ==> after.last_push_time
            == Some(now),
        before.generic is None || replies.generic is Pending ==> after.generic == before.generic,
        before.generic is Some && !(replies.generic is Pending) ==> after.generic is None
            && !after.told_generic,
{
}

proof fn lemma_others_filtered(results: Seq<ProviderCiResult>, r: ProviderCiResult)
    ensures
        of_others(results, r) == results.filter(
            |x: ProviderCiResult| x.provider != r.provider,
        ),
    decreases results.len(),
{
    reveal(Seq::filter);
    if results.len() > 0 {
        lemma_others_filtered(results.drop_last(), r);
    }
}

/// What another provider reported stays when a result comes, and nothing is made up: the results
/// are the new one and those of the other providers.
pub proof fn results_of_other_providers_stay(
    results: Seq<ProviderCiResult>,
    r: ProviderCiResult,
)
    ensures
        with_result(results, r).to_multiset() == results.filter(
            |x: ProviderCiResult| x.provider != r.provider,
        ).push(r).to_multiset(),
        forall|x: ProviderCiResult|
            results.contains(x) && x.provider != r.provider ==> #[trigger] with_result(
                results,
                r,
            ).contains(x),
{
    broadcast use vstd::seq_lib::group_to_multiset_ensures;

    lemma_others_filtered(results, r);
    let pred = |x: ProviderCiResult| x.provider != r.provider;
    let kept = results.filter(pred);
    order::sorting_keeps_values_and_orders_them::<ProviderCiResult, ResultByProvider>(kept.push(r));
    assert forall|x: ProviderCiResult|
        results.contains(x) && x.provider != r.provider implies #[trigger] with_result(
        results,
        r,
    ).contains(x) by {
        let i = choose|i: int| 0 <= i < results.len() && results[i] == x;
        results.lemma_filter_contains(pred, i);
        let k = choose|k: int| 0 <= k < kept.len() && kept[k] == x;
        assert(kept.push(r)[k] == x);
        assert(kept.push(r).contains(x));
        assert(with_result(results, r).to_multiset().count(x) > 0);
    }
}

/// An operation that worked is told by its name and where it went to, one that takes long is told
/// to go on, and one that failed or is gone opens the error dialog over what was open, with one
/// note; while nothing is new nothing is told.
pub proof fn each_outcome_is_told(
    p: PollView,
    op_name: Seq<char>,
    past_tense: Seq<char>,
    m: Modals,
)
    ensures
        p is Success ==> remote_toasts(p, op_name, past_tense) == seq![
            toast::success(past_tense + " "@ + p->Success_0),
        ] && generic_toasts(p)[0] == toast::success(p->Success_0 + " complete"@),
        p is Timeout ==> remote_toasts(p, op_name, past_tense) == seq![
            toast::info(op_name + " still running..."@),
        ] && slow_toasts(p, op_name) == seq![toast::info(op_name + " still running..."@)],
        p is Pending ==> remote_toasts(p, op_name, past_tense).len() == 0 && generic_toasts(p).len()
            == 0 && slow_toasts(p, op_name).len() == 0 && error_notes(p, op_name).len() == 0,
        p is Failed || p is Disconnected ==> {
            &&& error_notes(p, op_name).len() == 1
            &&& remote_toasts(p, op_name, past_tense).len() == 0
            &&& modals_after(m, p).active == Some(ActiveModal::Error)
            &&& modals_after(m, p).interrupted == m.active
            &&& modals_after(m, p).dialogs.error
        },
        !(p is Failed) && !(p is Disconnected) ==> modals_after(m, p) == m && error_notes(
            p,
            op_name,
        ).len() == 0,
        refreshes(p) <==> p is Success || p is Failed,
{
}

/// A squash merge that worked says what is left to do.
pub proof fn a_squash_merge_is_still_to_be_committed(label: Seq<char>)
    ensures
        text::begins(label, "Squash merge"@) ==> generic_toasts(PollView::Success(label)).len() == 2
            && generic_toasts(PollView::Success(label))[1].severity == ToastSeverity::Info,
        !text::begins(label, "Squash merge"@) ==> generic_toasts(PollView::Success(label)).len()
            == 1,
{
}

/// The checks of each commit that some provider knows are known, from every provider that knows
/// it.
pub proof fn checks_come_from_all_providers(
    map: TextMap<Vec<ProviderCommitRollup>>,
    results: Seq<ProviderCiResult>,
    i: int,
    sha: Seq<char>,
)
    requires
        rollups_known(Some(map), results),
        0 <= i < results.len(),
        results[i].per_commit_rollups.has(sha),
    ensures
        map.has(sha),
        text::views(map.at(sha)@).contains(
            ci::ProviderRollupView {
                provider: results[i].provider,
                rollup: results[i].per_commit_rollups.at(sha)@,
            },
        ),
{
    broadcast use vstd::seq_lib::group_to_multiset_ensures;

    assert(ci::sha_known(results, sha));
    assert(map.has(sha));
    let all = ci::rollups_for(results, sha);
    lemma_rollup_is_there(results, sha, i);
    order::sorting_keeps_values_and_orders_them::<ProviderCommitRollup, ci::ByProvider>(all);
    let x = ci::ProviderRollupView {
        provider: results[i].provider,
        rollup: results[i].per_commit_rollups.at(sha)@,
    };
    assert(all.contains(x));
    assert(text::views(map.at(sha)@).to_multiset().count(x) > 0);
}

proof fn lemma_rollup_is_there(results: Seq<ProviderCiResult>, sha: Seq<char>, i: int)
    requires
        0 <= i < results.len(),
        results[i].per_commit_rollups.has(sha),
    ensures
        ci::rollups_for(results, sha).contains(
            ci::ProviderRollupView {
                provider: results[i].provider,
                rollup: results[i].per_commit_rollups.at(sha)@,
            },
        ),
    decreases results.len(),
{
    let x = ci::ProviderRollupView {
        provider: results[i].provider,
        rollup: results[i].per_commit_rollups.at(sha)@,
    };
    let all = ci::rollups_for(results, sha);
    let rest = ci::rollups_for(results.drop_last(), sha);
    if i < results.len() - 1 {
        lemma_rollup_is_there(results.drop_last(), sha, i);
        let k = choose|k: int| 0 <= k < rest.len() && rest[k] == x;
        assert(all[k] == x);
    } else {
        assert(all[rest.len() as int] == x);
    }
}

} // verus!
