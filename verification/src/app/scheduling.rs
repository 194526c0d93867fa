//! When the program has to wake up next.

use crate::app::remote_ops::{self, elapsed_secs};
use crate::ci::CiState;
use vstd::prelude::*;

verus! {

/// The checks of a tab, as far as waking up for them goes. Times are in milliseconds.
pub struct CiTimer {
    /// Whether providers are being asked.
    pub asking: bool,
    /// The state that each provider reported.
    pub states: Vec<CiState>,
    pub last_push_time: Option<u64>,
    pub last_ci_fetch: u64,
}

/// What is in progress in the active tab.
#[derive(Debug, Clone, Copy, PartialEq, Eq, Structural)]
pub struct Busy {
    pub fetching: bool,
    pub pulling: bool,
    pub pushing: bool,
    pub generic_op: bool,
    /// Whether a commit message is being written.
    pub ai_commit: bool,
}

/// What decides when to wake up. Times are in milliseconds.
pub struct WakeFacts {
    pub last_frame_time: u64,
    /// What is in progress in the active tab, where there is one.
    pub busy: Option<Busy>,
    pub has_toasts: bool,
    pub has_text_focus: bool,
    pub last_status_refresh: u64,
    pub last_ref_check: u64,
    pub resize_debounce: Option<u64>,
    pub tabs: Vec<CiTimer>,
}

/// How long after the last frame an animation goes on.
pub const FRAME_MS: u64 = 16;

/// How long the cursor stays as it is.
pub const BLINK_MS: u64 = 530;

pub const STATUS_REFRESH_MS: u64 = 3000;

pub const REF_CHECK_MS: u64 = 5000;

/// How long a window has to keep its size before it is drawn anew.
pub const RESIZE_MS: u64 = 100;

pub const CI_FAST_MS: u64 = 15000;

pub const CI_SLOW_MS: u64 = 300000;

/// For how many seconds after a push checks are asked for often.
pub const CI_PUSH_SECS: u64 = 300;

/// Whether the checks of a tab are asked for often: one of them is pending, or something was
/// pushed a short while ago.
pub open spec fn polls_fast(t: CiTimer, now: nat) -> bool {
    t.states@.contains(CiState::Pending) || match t.last_push_time {
        Some(p) => remote_ops::seconds_between(p as nat, now) < CI_PUSH_SECS,
        None => false,
    }
}

/// When the checks of a tab are asked for again, where they are at all.
pub open spec fn ci_wakes(t: CiTimer, now: nat) -> Seq<int> {
    if t.asking || t.states@.len() == 0 {
        Seq::empty()
    } else {
        seq![
            t.last_ci_fetch + if polls_fast(t, now) {
                CI_FAST_MS
            } else {
                CI_SLOW_MS
            },
        ]
    }
}

/// When the checks of all tabs are asked for again.
pub open spec fn all_ci_wakes(tabs: Seq<CiTimer>, now: nat) -> Seq<int>
    decreases tabs.len(),
{
    if tabs.len() == 0 {
        Seq::empty()
    } else {
        all_ci_wakes(tabs.drop_last(), now) + ci_wakes(tabs.last(), now)
    }
}

/// `t`, where it is wanted.
pub open spec fn wake_if(wanted: bool, t: int) -> Seq<int> {
    if wanted {
        seq![t]
    } else {
        Seq::empty()
    }
}

/// Whether a spinner turns: something is in progress in the active tab.
pub open spec fn animating(f: WakeFacts) -> bool {
    match f.busy {
        Some(b) => b.fetching || b.pulling || b.pushing || b.generic_op || b.ai_commit,
        None => false,
    }
}

/// All times for which there is a reason to wake up.
pub open spec fn wakes(f: WakeFacts, now: nat) -> Seq<int> {
    wake_if(animating(f), f.last_frame_time + FRAME_MS) + wake_if(
        f.has_toasts,
        f.last_frame_time + FRAME_MS,
    ) + wake_if(f.has_text_focus, f.last_frame_time + BLINK_MS) + seq![
        f.last_status_refresh + STATUS_REFRESH_MS,
    ] + seq![f.last_ref_check + REF_CHECK_MS] + (match f.resize_debounce {
        Some(t) => seq![t + RESIZE_MS],
        None => Seq::empty(),
    }) + all_ci_wakes(f.tabs@, now)
}

/// Whether `t` is the earliest of `s`.
pub open spec fn earliest(s: Seq<int>, t: int) -> bool {
    s.contains(t) && forall|i: int| 0 <= i < s.len() ==> t <= #[trigger] s[i]
}

/// Whether no time lies so far in the future that an interval after it cannot be named.
pub open spec fn times_fit(f: WakeFacts) -> bool {
    &&& f.last_frame_time <= u64::MAX - BLINK_MS
    &&& f.last_status_refresh <= u64::MAX - STATUS_REFRESH_MS
    &&& f.last_ref_check <= u64::MAX - REF_CHECK_MS
    &&& match f.resize_debounce {
        Some(t) => t <= u64::MAX - RESIZE_MS,
        None => true,
    }
    &&& forall|i: int|
        0 <= i < f.tabs@.len() ==> (#[trigger] f.tabs@[i]).last_ci_fetch <= u64::MAX - CI_SLOW_MS
}

/// What is known of the earliest of the times seen so far.
spec fn seen(s: Seq<int>, t: Option<u64>) -> bool {
    match t {
        Some(x) => earliest(s, x as int),
        None => s.len() == 0,
    }
}

fn merge(next: Option<u64>, t: u64, Ghost(s): Ghost<Seq<int>>) -> (r: Option<u64>)
    requires
        seen(s, next),
    ensures
        seen(s + seq![t as int], r),
        r is Some,
{
    let ghost all = s + seq![t as int];
    assert(all[s.len() as int] == t);
    let r = match next {
        Some(w) => {
            proof {
                let i = choose|i: int| 0 <= i < s.len() && s[i] == w as int;
                assert(all[i] == w as int);
            }
            if t < w {
                t
            } else {
                w
            }
        },
        None => t,
    };
    assert forall|i: int| 0 <= i < all.len() implies r <= #[trigger] all[i] by {
        if i < s.len() {
            assert(all[i] == s[i]);
        }
    }
    Some(r)
}

fn is_fast(t: &CiTimer, now: u64) -> (r: bool)
    ensures
        r == polls_fast(*t, now as nat),
{
    let mut i: usize = 0;
    let mut any_pending = false;
    while i < t.states.len()
        invariant
            i <= t.states.len(),
            any_pending <==> exists|k: int|
                0 <= k < i && #[trigger] t.states@[k] == CiState::Pending,
        decreases t.states.len() - i,
    {
        match t.states[i] {
            CiState::Pending => {
                any_pending = true;
                assert(t.states@[i as int] == CiState::Pending);
            },
            _ => {},
        }
        i = i + 1;
    }
    let pushed = match t.last_push_time {
        Some(p) => elapsed_secs(p, now) < CI_PUSH_SECS,
        None => false,
    };
    any_pending || pushed
}

/// The earliest time at which there is something to do, as seen at `now`.
pub fn next_wake_deadline(f: &WakeFacts, now: u64) -> (r: Option<u64>)
    requires
        times_fit(*f),
    ensures
        match r {
            Some(t) => earliest(wakes(*f, now as nat), t as int),
            None => false,
        },
{
    let mut next: Option<u64> = None;
    let ghost mut s: Seq<int> = Seq::empty();
    let turning = match f.busy {
        Some(b) => b.fetching || b.pulling || b.pushing || b.generic_op || b.ai_commit,
        None => false,
    };
    if turning {
        let t: u64 = f.last_frame_time + FRAME_MS;
        next = merge(next, t, Ghost(s));
        proof {
            s = s + seq![t as int];
        }
    }
    assert(s =~= wake_if(animating(*f), f.last_frame_time + FRAME_MS));
    let ghost s1 = s;
    if f.has_toasts {
        let t: u64 = f.last_frame_time + FRAME_MS;
        next = merge(next, t, Ghost(s));
        proof {
            s = s + seq![t as int];
        }
    }
    assert(s =~= s1 + wake_if(f.has_toasts, f.last_frame_time + FRAME_MS));
    let ghost s2 = s;
    if f.has_text_focus {
        let t: u64 = f.last_frame_time + BLINK_MS;
        next = merge(next, t, Ghost(s));
        proof {
            s = s + seq![t as int];
        }
    }
    assert(s =~= s2 + wake_if(f.has_text_focus, f.last_frame_time + BLINK_MS));
    let t: u64 = f.last_status_refresh + STATUS_REFRESH_MS;
    next = merge(next, t, Ghost(s));
    proof {
        s = s + seq![t as int];
    }
    let t: u64 = f.last_ref_check + REF_CHECK_MS;
    next = merge(next, t, Ghost(s));
    proof {
        s = s + seq![t as int];
    }
    let ghost s3 = s;
    if let Some(last) = f.resize_debounce {
        let t: u64 = last + RESIZE_MS;
        next = merge(next, t, Ghost(s));
        proof {
            s = s + seq![t as int];
        }
    }
    proof {
        if f.resize_debounce is None {
            assert(s =~= s3 + Seq::<int>::empty());
        }
    }
    let ghost base = s;
    let mut i: usize = 0;
    assert(s =~= base + all_ci_wakes(f.tabs@.take(0), now as nat));
    while i < f.tabs.len()
        invariant
            i <= f.tabs.len(),
            times_fit(*f),
            seen(s, next),
            next is Some,
            s == base + all_ci_wakes(f.tabs@.take(i as int), now as nat),
        decreases f.tabs.len() - i,
    {
        let tab = &f.tabs[i];
        proof {
            assert(f.tabs@.take(i + 1).drop_last() =~= f.tabs@.take(i as int));
            assert(f.tabs@.take(i + 1).last() == *tab);
        }
        if !tab.asking && tab.states.len() > 0 {
            let interval: u64 = if is_fast(tab, now) {
                CI_FAST_MS
            } else {
                CI_SLOW_MS
            };
            let t: u64 = tab.last_ci_fetch + interval;
            next = merge(next, t, Ghost(s));
            proof {
                s = s + seq![t as int];
            }
        }
        assert(s =~= base + all_ci_wakes(f.tabs@.take(i + 1), now as nat));
        i = i + 1;
    }
    assert(f.tabs@.take(f.tabs@.len() as int) =~= f.tabs@);
    assert(s =~= wakes(*f, now as nat));
    next
}

/// Whether the status is read again: something changed it, or it was not read for a while.
pub fn status_due(dirty: bool, last_status_refresh: u64, now: u64) -> (r: bool)
    ensures
        r == (dirty || now >= last_status_refresh + STATUS_REFRESH_MS),
{
    dirty || now >= last_status_refresh && now - last_status_refresh >= STATUS_REFRESH_MS
}

/// Whether it is looked whether the refs are still the same.
pub fn refs_due(last_ref_check: u64, now: u64) -> (r: bool)
    ensures
        r == (now >= last_ref_check + REF_CHECK_MS),
{
    now >= last_ref_check && now - last_ref_check >= REF_CHECK_MS
}

/// Whether the checks of a tab are to be asked for.
pub open spec fn asks_for_checks(t: CiTimer, now: nat) -> bool {
    ci_wakes(t, now).len() > 0 && now >= ci_wakes(t, now)[0]
}

/// Whether the checks of a tab are asked for again.
pub fn checks_due(t: &CiTimer, now: u64) -> (r: bool)
    ensures
        r == asks_for_checks(*t, now as nat),
{
    if t.asking || t.states.len() == 0 {
        return false;
    }
    let interval: u64 = if is_fast(t, now) {
        CI_FAST_MS
    } else {
        CI_SLOW_MS
    };
    now >= t.last_ci_fetch && now - t.last_ci_fetch >= interval
}

proof fn lemma_ci_wakes(tabs: Seq<CiTimer>, now: nat, i: int)
    requires
        0 <= i < tabs.len(),
        ci_wakes(tabs[i], now).len() > 0,
    ensures
        all_ci_wakes(tabs, now).contains(ci_wakes(tabs[i], now)[0]),
    decreases tabs.len(),
{
    let front = all_ci_wakes(tabs.drop_last(), now);
    let all = all_ci_wakes(tabs, now);
    let t = ci_wakes(tabs[i], now)[0];
    if i < tabs.len() - 1 {
        assert(tabs.drop_last()[i] == tabs[i]);
        lemma_ci_wakes(tabs.drop_last(), now, i);
        let k = choose|k: int| 0 <= k < front.len() && front[k] == t;
        assert(all[k] == t);
    } else {
        assert(all[front.len() as int] == t);
    }
}

/// Nothing is missed while the program sleeps: before it wakes neither the status nor the refs
/// nor the checks of any tab are due.
pub proof fn nothing_is_due_while_asleep(f: WakeFacts, now: nat, t: int, i: int)
    requires
        earliest(wakes(f, now), t),
        now < t,
    ensures
        now < f.last_status_refresh + STATUS_REFRESH_MS,
        now < f.last_ref_check + REF_CHECK_MS,
        0 <= i < f.tabs@.len() ==> !asks_for_checks(f.tabs@[i], now),
{
    wakes_for_status_and_refs(f, now, t);
    if 0 <= i < f.tabs@.len() && asks_for_checks(f.tabs@[i], now) {
        lemma_ci_wakes(f.tabs@, now, i);
        let ci = all_ci_wakes(f.tabs@, now);
        let due = ci_wakes(f.tabs@[i], now)[0];
        let k = choose|k: int| 0 <= k < ci.len() && ci[k] == due;
        let all = wakes(f, now);
        assert(all[all.len() - ci.len() + k] == due);
    }
}

/// The program never sleeps past the time at which the status or the refs are due.
pub proof fn wakes_for_status_and_refs(f: WakeFacts, now: nat, t: int)
    requires
        earliest(wakes(f, now), t),
    ensures
        t <= f.last_status_refresh + STATUS_REFRESH_MS,
        t <= f.last_ref_check + REF_CHECK_MS,
        animating(f) ==> t <= f.last_frame_time + FRAME_MS,
{
    let a = wake_if(animating(f), f.last_frame_time + FRAME_MS);
    let b = a + wake_if(f.has_toasts, f.last_frame_time + FRAME_MS);
    let c = b + wake_if(f.has_text_focus, f.last_frame_time + BLINK_MS);
    let all = wakes(f, now);
    assert(all[c.len() as int] == f.last_status_refresh + STATUS_REFRESH_MS);
    assert(all[c.len() as int + 1] == f.last_ref_check + REF_CHECK_MS);
    if animating(f) {
        assert(all[0] == f.last_frame_time + FRAME_MS);
    }
}

/// Where the keyboard writes.
#[derive(Debug, Clone, Copy, PartialEq, Eq, Structural)]
pub struct TextFocus {
    pub has_tab: bool,
    pub subject: bool,
    pub body: bool,
    pub sidebar: bool,
    pub search: bool,
    pub branch_name_dialog: bool,
    pub remote_dialog: bool,
    pub repo_dialog: bool,
    pub token_dialog: bool,
}

/// Check if any text input is currently focused (for cursor blink scheduling).
pub fn has_focused_text_input(f: TextFocus) -> (r: bool)
    ensures
        r == (f.has_tab && (f.subject || f.body || f.sidebar || f.search || f.branch_name_dialog
            || f.remote_dialog || f.repo_dialog || f.token_dialog)),
{
    if !f.has_tab {
        return false;
    }
    f.subject || f.body || f.sidebar || f.search || f.branch_name_dialog || f.remote_dialog
        || f.repo_dialog || f.token_dialog
}

/// Checks are asked for again five minutes after the last time, and after fifteen seconds already
/// while one of them is pending or the last push is less than five minutes ago; not while they
/// are being asked for, nor before any provider has reported.
pub proof fn checks_are_asked_for_in_time(t: CiTimer, now: nat)
    ensures
        t.asking || t.states@.len() == 0 ==> !asks_for_checks(t, now),
        !t.asking && t.states@.contains(CiState::Pending) ==> (asks_for_checks(t, now) <==> now
            >= t.last_ci_fetch + 15_000),
        !t.asking && t.states@.len() > 0 && t.last_push_time is Some && t.last_push_time->0 <= now
            < t.last_push_time->0 + 300_000 ==> (asks_for_checks(t, now) <==> now >= t.last_ci_fetch
            + 15_000),
        !t.asking && t.states@.len() > 0 && !t.states@.contains(CiState::Pending) && (
        t.last_push_time is None || now >= t.last_push_time->0 + 300_000) ==> (asks_for_checks(
            t,
            now,
        ) <==> now >= t.last_ci_fetch + 300_000),
{
    if t.states@.contains(CiState::Pending) {
        assert(t.states@.len() > 0);
    }
}

/// While anything is going on the next frame comes after a sixtieth of a second, and while text
/// is edited the caret blinks.
pub proof fn whatever_goes_on_wakes(f: WakeFacts, now: nat, t: int, b: Busy)
    requires
        earliest(wakes(f, now), t),
    ensures
        f.busy == Some(b) && (b.fetching || b.pulling || b.pushing || b.generic_op || b.ai_commit)
            ==> t <= f.last_frame_time + 16,
        f.has_toasts ==> t <= f.last_frame_time + 16,
        f.has_text_focus ==> t <= f.last_frame_time + 530,
        f.resize_debounce is Some ==> t <= f.resize_debounce->0 + 100,
        t <= f.last_status_refresh + 3_000,
        t <= f.last_ref_check + 5_000,
{
    let w = wakes(f, now);
    let n1: int = if animating(f) {
        1
    } else {
        0
    };
    let n2: int = n1 + if f.has_toasts {
        1int
    } else {
        0
    };
    let n3: int = n2 + if f.has_text_focus {
        1int
    } else {
        0
    };
    if animating(f) {
        assert(w[0] == f.last_frame_time + FRAME_MS);
    }
    if f.has_toasts {
        assert(w[n1] == f.last_frame_time + FRAME_MS);
    }
    if f.has_text_focus {
        assert(w[n2] == f.last_frame_time + BLINK_MS);
    }
    assert(w[n3] == f.last_status_refresh + STATUS_REFRESH_MS);
    assert(w[n3 + 1] == f.last_ref_check + REF_CHECK_MS);
    if f.resize_debounce is Some {
        assert(w[n3 + 2] == f.resize_debounce->0 + RESIZE_MS);
    }
}

} // verus!
