//! What is written down for the case of a crash.

use crate::order::{self, sort, Order};
use crate::text::{self, dec_padded_string, dec_string, push_dec, text_before};
use vstd::prelude::*;
use vstd::string::*;

verus! {

// ---------------------------------------------------------------------------
// Breadcrumbs
// ---------------------------------------------------------------------------

/// Something that happened: when, in milliseconds since the start, in which thread, and what.
#[derive(Debug)]
pub struct Breadcrumb {
    pub elapsed: u64,
    pub thread: String,
    pub message: String,
}

/// A breadcrumb by its views.
pub struct BreadcrumbView {
    pub elapsed: u64,
    pub thread: Seq<char>,
    pub message: Seq<char>,
}

impl View for Breadcrumb {
    type V = BreadcrumbView;

    open spec fn view(&self) -> BreadcrumbView {
        BreadcrumbView { elapsed: self.elapsed, thread: self.thread@, message: self.message@ }
    }
}

/// How many breadcrumbs are kept.
pub const MAX_BREADCRUMBS: usize = 50;

/// The latest breadcrumbs, the oldest first.
#[derive(Debug)]
pub struct Breadcrumbs {
    pub crumbs: Vec<Breadcrumb>,
}

impl View for Breadcrumbs {
    type V = Seq<BreadcrumbView>;

    open spec fn view(&self) -> Seq<BreadcrumbView> {
        text::views(self.crumbs@)
    }
}

/// The breadcrumbs once another came: where there are as many as are kept, the oldest goes.
pub open spec fn with_crumb(s: Seq<BreadcrumbView>, c: BreadcrumbView) -> Seq<BreadcrumbView> {
    if s.len() >= MAX_BREADCRUMBS {
        s.skip(1).push(c)
    } else {
        s.push(c)
    }
}

/// The breadcrumbs once all of `more` came, one after the other.
pub open spec fn with_crumbs(
    s: Seq<BreadcrumbView>,
    more: Seq<BreadcrumbView>,
) -> Seq<BreadcrumbView>
    decreases more.len(),
{
    if more.len() == 0 {
        s
    } else {
        with_crumb(with_crumbs(s, more.drop_last()), more.last())
    }
}

/// The last of `s`, at most as many as are kept.
pub open spec fn newest_crumbs(s: Seq<BreadcrumbView>) -> Seq<BreadcrumbView> {
    if s.len() > MAX_BREADCRUMBS {
        s.skip(s.len() - MAX_BREADCRUMBS)
    } else {
        s
    }
}

/// However many breadcrumbs come, the newest ones are kept, in the order in which they came,
/// and never more than the limit.
pub proof fn newest_breadcrumbs_are_kept(more: Seq<BreadcrumbView>)
    ensures
        with_crumbs(Seq::empty(), more) == newest_crumbs(more),
        with_crumbs(Seq::empty(), more).len() <= MAX_BREADCRUMBS,
    decreases more.len(),
{
    if more.len() > 0 {
        newest_breadcrumbs_are_kept(more.drop_last());
        assert(with_crumbs(Seq::empty(), more) =~= newest_crumbs(more));
    } else {
        assert(with_crumbs(Seq::empty(), more) =~= newest_crumbs(more));
    }
}

/// A number of milliseconds in seconds, with three places behind the point, in eight places.
pub open spec fn seconds_text(ms: nat) -> Seq<char> {
    let s = text::dec(ms / 1000) + "."@ + text::dec_padded(ms % 1000, 3);
    padding((8 - s.len()) as int) + s
}

/// `n` spaces.
pub open spec fn padding(n: int) -> Seq<char> {
    Seq::new(
        if n > 0 {
            n as nat
        } else {
            0
        },
        |i: int| ' ',
    )
}

/// A breadcrumb as it is reported.
pub open spec fn crumb_line(c: BreadcrumbView) -> Seq<char> {
    "["@ + seconds_text(c.elapsed as nat) + "s] ["@ + c.thread + "] "@ + c.message + "\n"@
}

/// All breadcrumbs as they are reported.
pub open spec fn crumb_lines(s: Seq<BreadcrumbView>) -> Seq<char>
    decreases s.len(),
{
    if s.len() == 0 {
        Seq::empty()
    } else {
        crumb_lines(s.drop_last()) + crumb_line(s.last())
    }
}

fn seconds_string(ms: u64) -> (r: String)
    ensures
        r@ == seconds_text(ms as nat),
{
    let mut s = dec_string(ms / 1000);
    s.append(".");
    s.append(dec_padded_string(ms % 1000, 3).as_str());
    let n: usize = s.as_str().unicode_len();
    let mut r = String::new();
    let mut i: usize = n;
    assert(r@ =~= padding(0));
    while i < 8
        invariant
            n <= i,
            i <= 8 || i == n,
            r@ == padding(i - n),
        decreases 8 - i,
    {
        r.push(' ');
        i = i + 1;
        assert(r@ =~= padding(i - n));
    }
    proof {
        if n >= 8 {
            assert(padding(8 - n) =~= padding(0));
        }
    }
    r.append(s.as_str());
    r
}

impl Breadcrumbs {
    /// No breadcrumb has come yet.
    pub fn init() -> (r: Self)
        ensures
            r@ == Seq::<BreadcrumbView>::empty(),
    {
        let r = Breadcrumbs { crumbs: Vec::new() };
        assert(r@ =~= Seq::<BreadcrumbView>::empty());
        r
    }

    /// Record a breadcrumb.
    pub fn breadcrumb(&mut self, entry: Breadcrumb)
        ensures
            final(self)@ == with_crumb(old(self)@, entry@),
    {
        let ghost before = self@;
        if self.crumbs.len() >= MAX_BREADCRUMBS {
            let _ = self.crumbs.remove(0);
        }
        self.crumbs.push(entry);
        assert(self@ =~= with_crumb(before, entry@));
    }

    /// Format all breadcrumbs for inclusion in a crash report.
    pub fn drain_breadcrumbs(&self) -> (r: String)
        ensures
            r@ == crumb_lines(self@),
    {
        let ghost all = self@;
        let mut out = String::new();
        let mut i: usize = 0;
        assert(out@ =~= crumb_lines(all.take(0)));
        while i < self.crumbs.len()
            invariant
                i <= self.crumbs.len(),
                all == self@,
                out@ == crumb_lines(all.take(i as int)),
            decreases self.crumbs.len() - i,
        {
            let b = &self.crumbs[i];
            proof {
                assert(all.take(i + 1).drop_last() =~= all.take(i as int));
                assert(all.take(i + 1).last() == b@);
            }
            let mut line = "[".to_owned();
            line.append(seconds_string(b.elapsed).as_str());
            line.append("s] [");
            line.append(b.thread.as_str());
            line.append("] ");
            line.append(b.message.as_str());
            line.append("\n");
            out.append(line.as_str());
            i = i + 1;
        }
        assert(all.take(all.len() as int) =~= all);
        out
    }
}

// ---------------------------------------------------------------------------
// The system
// ---------------------------------------------------------------------------

/// What is known of the system.
#[derive(Debug)]
pub struct SystemInfo {
    pub os: String,
    pub version: String,
    pub gpu: String,
}

/// What is known of the system, by its views.
pub struct SystemView {
    pub os: Seq<char>,
    pub version: Seq<char>,
    pub gpu: Seq<char>,
}

impl View for SystemInfo {
    type V = SystemView;

    open spec fn view(&self) -> SystemView {
        SystemView { os: self.os@, version: self.version@, gpu: self.gpu@ }
    }
}

/// The line on the graphics device, where there is one.
pub open spec fn gpu_line(name: Seq<char>) -> Seq<char> {
    if name.len() > 0 {
        "GPU: "@ + name + "\n"@
    } else {
        Seq::empty()
    }
}

/// What is known of the system, as it is reported.
pub open spec fn system_text(info: SystemView) -> Seq<char> {
    "Version: "@ + info.version + "\nOS: "@ + info.os + "\n"@ + gpu_line(info.gpu)
}

impl SystemInfo {
    /// The system before a graphics device was chosen.
    pub fn new(os: String, version: String) -> (r: Self)
        ensures
            r@ == (SystemView { os: os@, version: version@, gpu: Seq::empty() }),
    {
        let r = SystemInfo { os, version, gpu: String::new() };
        assert(r.gpu@ =~= Seq::empty());
        r
    }

    /// Set the Vulkan device name after GPU selection.
    pub fn set_vulkan_device(&mut self, name: &str)
        ensures
            final(self)@ == (SystemView { gpu: name@, ..old(self)@ }),
    {
        self.gpu = name.to_owned();
    }

    /// What is known of the system, as it is reported.
    pub fn format_system_info(&self) -> (r: String)
        ensures
            r@ == system_text(self@),
    {
        let mut out = "Version: ".to_owned();
        out.append(self.version.as_str());
        out.append("\nOS: ");
        out.append(self.os.as_str());
        out.append("\n");
        let gpu = if self.gpu.as_str().is_empty() {
            String::new()
        } else {
            let mut s = "GPU: ".to_owned();
            s.append(self.gpu.as_str());
            s.append("\n");
            s
        };
        proof {
            if self.gpu@.len() == 0 {
                assert(gpu@ =~= Seq::empty());
            }
        }
        out.append(gpu.as_str());
        out
    }
}

// ---------------------------------------------------------------------------
// What the program keeps while it runs
// ---------------------------------------------------------------------------

/// What the program keeps for a report. Each part is there once it was set up.
#[derive(Debug)]
pub struct CrashLog {
    /// When recording began, in milliseconds of some clock.
    pub start: Option<u64>,
    pub breadcrumbs: Option<Breadcrumbs>,
    pub system: Option<SystemInfo>,
}

/// What the program keeps for a report, by its views.
pub struct CrashLogView {
    pub start: Option<u64>,
    pub breadcrumbs: Option<Seq<BreadcrumbView>>,
    pub system: Option<SystemView>,
}

impl View for CrashLog {
    type V = CrashLogView;

    open spec fn view(&self) -> CrashLogView {
        CrashLogView {
            start: self.start,
            breadcrumbs: match self.breadcrumbs {
                Some(b) => Some(b@),
                None => None,
            },
            system: match self.system {
                Some(i) => Some(i@),
                None => None,
            },
        }
    }
}

/// Recording is set up: what is there already stays, and else it begins now, with no
/// breadcrumb.
pub open spec fn started(log: CrashLogView, now: u64) -> CrashLogView {
    CrashLogView {
        start: match log.start {
            Some(t) => Some(t),
            None => Some(now),
        },
        breadcrumbs: match log.breadcrumbs {
            Some(b) => Some(b),
            None => Some(Seq::empty()),
        },
        system: log.system,
    }
}

/// Something to be recorded: when it happened, the name of its thread where it has one, and
/// what it was.
pub struct EventView {
    pub now: u64,
    pub thread: Option<Seq<char>>,
    pub message: Seq<char>,
}

/// The breadcrumb of an event, given when recording began.
pub open spec fn crumb_of(start: u64, e: EventView) -> BreadcrumbView {
    BreadcrumbView {
        elapsed: if e.now >= start {
            (e.now - start) as u64
        } else {
            0
        },
        thread: match e.thread {
            Some(name) => name,
            None => "unnamed"@,
        },
        message: e.message,
    }
}

/// An event is recorded where recording was set up, and is lost elsewhere.
pub open spec fn recorded(log: CrashLogView, e: EventView) -> CrashLogView {
    match (log.start, log.breadcrumbs) {
        (Some(start), Some(b)) => CrashLogView {
            breadcrumbs: Some(with_crumb(b, crumb_of(start, e))),
            ..log
        },
        _ => log,
    }
}

/// All of `events` are recorded, one after the other.
pub open spec fn all_recorded(log: CrashLogView, events: Seq<EventView>) -> CrashLogView
    decreases events.len(),
{
    if events.len() == 0 {
        log
    } else {
        recorded(all_recorded(log, events.drop_last()), events.last())
    }
}

/// The breadcrumbs as they are reported: nothing where recording was not set up.
pub open spec fn breadcrumbs_report(log: CrashLogView) -> Seq<char> {
    match log.breadcrumbs {
        Some(b) => crumb_lines(b),
        None => Seq::empty(),
    }
}

/// The system is made known: what is known already stays.
pub open spec fn with_system(
    log: CrashLogView,
    os: Seq<char>,
    version: Seq<char>,
) -> CrashLogView {
    CrashLogView {
        system: match log.system {
            Some(i) => Some(i),
            None => Some(SystemView { os, version, gpu: Seq::empty() }),
        },
        ..log
    }
}

/// The graphics device is named. Where nothing is known of the system, nothing changes.
pub open spec fn with_device(log: CrashLogView, name: Seq<char>) -> CrashLogView {
    CrashLogView {
        system: match log.system {
            Some(i) => Some(SystemView { gpu: name, ..i }),
            None => None,
        },
        ..log
    }
}

/// The system as it is reported: nothing where nothing is known of it.
pub open spec fn system_report(log: CrashLogView) -> Seq<char> {
    match log.system {
        Some(i) => system_text(i),
        None => Seq::empty(),
    }
}

impl CrashLog {
    /// Nothing is set up yet.
    pub fn new() -> (r: Self)
        ensures
            r@ == (CrashLogView { start: None, breadcrumbs: None, system: None }),
    {
        CrashLog { start: None, breadcrumbs: None, system: None }
    }

    /// Set recording up, at the very start of the program. Where that was done before, nothing
    /// changes.
    pub fn init(&mut self, now: u64)
        ensures
            final(self)@ == started(old(self)@, now),
    {
        if self.start.is_none() {
            self.start = Some(now);
        }
        if self.breadcrumbs.is_none() {
            self.breadcrumbs = Some(Breadcrumbs::init());
        }
    }

    /// Record a breadcrumb.
    pub fn breadcrumb(&mut self, now: u64, thread: Option<String>, message: String)
        ensures
            final(self)@ == recorded(
                old(self)@,
                EventView { now, thread: text::opt_view(thread), message: message@ },
            ),
    {
        if let Some(start) = self.start {
            if let Some(mut crumbs) = self.breadcrumbs.take() {
                let elapsed: u64 = if now >= start {
                    now - start
                } else {
                    0
                };
                let thread = match thread {
                    Some(name) => name,
                    None => "unnamed".to_owned(),
                };
                crumbs.breadcrumb(Breadcrumb { elapsed, thread, message });
                self.breadcrumbs = Some(crumbs);
            }
        }
    }

    /// Format all breadcrumbs for inclusion in a crash report.
    pub fn drain_breadcrumbs(&self) -> (r: String)
        ensures
            r@ == breadcrumbs_report(self@),
    {
        match &self.breadcrumbs {
            Some(b) => b.drain_breadcrumbs(),
            None => {
                let r = String::new();
                assert(r@ =~= Seq::empty());
                r
            },
        }
    }

    /// Make the system known, unless it is.
    pub fn init_system_info(&mut self, os: String, version: String)
        ensures
            final(self)@ == with_system(old(self)@, os@, version@),
    {
        if self.system.is_none() {
            self.system = Some(SystemInfo::new(os, version));
        }
    }

    /// Set the Vulkan device name after GPU selection.
    pub fn set_vulkan_device(&mut self, name: &str)
        ensures
            final(self)@ == with_device(old(self)@, name@),
    {
        if let Some(mut info) = self.system.take() {
            info.set_vulkan_device(name);
            self.system = Some(info);
        }
    }

    /// What is known of the system, for inclusion in a crash report.
    pub fn format_system_info(&self) -> (r: String)
        ensures
            r@ == system_report(self@),
    {
        match &self.system {
            Some(i) => i.format_system_info(),
            None => {
                let r = String::new();
                assert(r@ =~= Seq::empty());
                r
            },
        }
    }
}

/// Once recording was set up, setting it up again changes nothing, whatever was recorded in
/// between: the start and the breadcrumbs stay, and they are reported as just before.
pub proof fn starting_again_changes_nothing(
    log: CrashLogView,
    first: u64,
    events: Seq<EventView>,
    again: u64,
)
    ensures
        ({
            let running = all_recorded(started(log, first), events);
            &&& started(running, again) == running
            &&& started(running, again).start == started(log, first).start
            &&& breadcrumbs_report(started(running, again)) == breadcrumbs_report(running)
        }),
    decreases events.len(),
{
    if events.len() > 0 {
        starting_again_changes_nothing(log, first, events.drop_last(), again);
    }
}

/// What happens before recording is set up is lost.
pub proof fn nothing_is_recorded_before_the_start(log: CrashLogView, events: Seq<EventView>)
    requires
        log.start is None || log.breadcrumbs is None,
    ensures
        all_recorded(log, events) == log,
    decreases events.len(),
{
    if events.len() > 0 {
        nothing_is_recorded_before_the_start(log, events.drop_last());
    }
}

/// The device names, one set after the other.
pub open spec fn with_devices(log: CrashLogView, names: Seq<Seq<char>>) -> CrashLogView
    decreases names.len(),
{
    if names.len() == 0 {
        log
    } else {
        with_device(with_devices(log, names.drop_last()), names.last())
    }
}

/// However often the graphics device was named before, the report holds the lines on version
/// and system as before, and the last name alone, in a line at the end. Where nothing is known
/// of the system, naming a device changes nothing, and nothing is reported.
pub proof fn last_device_name_is_reported(
    log: CrashLogView,
    names: Seq<Seq<char>>,
    name: Seq<char>,
)
    requires
        name.len() > 0,
    ensures
        ({
            let named = with_device(with_devices(log, names), name);
            match log.system {
                Some(i) => {
                    &&& system_report(named) == "Version: "@ + i.version + "\nOS: "@ + i.os
                        + "\n"@ + ("GPU: "@ + name + "\n"@)
                    &&& system_report(log) == "Version: "@ + i.version + "\nOS: "@ + i.os + "\n"@
                        + gpu_line(i.gpu)
                },
                None => named == log && system_report(named) == Seq::<char>::empty(),
            }
        }),
{
    lemma_devices(log, names);
}

proof fn lemma_devices(log: CrashLogView, names: Seq<Seq<char>>)
    ensures
        match log.system {
            Some(i) => {
                let later = with_devices(log, names).system;
                later is Some && later->0.version == i.version && later->0.os == i.os
            },
            None => with_devices(log, names) == log,
        },
    decreases names.len(),
{
    if names.len() > 0 {
        lemma_devices(log, names.drop_last());
    }
}

// ---------------------------------------------------------------------------
// Time
// ---------------------------------------------------------------------------

/// Whether a year has a day more.
pub open spec fn is_leap(year: int) -> bool {
    year % 4 == 0 && (year % 100 != 0 || year % 400 == 0)
}

/// How many days a month has.
pub open spec fn days_in_month(year: int, month: int) -> int {
    if month == 2 {
        if is_leap(year) {
            29
        } else {
            28
        }
    } else if month == 4 || month == 6 || month == 9 || month == 11 {
        30
    } else {
        31
    }
}

/// How many days a year has.
pub open spec fn days_in_year(year: int) -> int {
    if is_leap(year) {
        366
    } else {
        365
    }
}

/// How many days lie before the first of a month in its year.
pub open spec fn days_before_month(year: int, month: int) -> int
    decreases month,
{
    if month <= 1 {
        0
    } else {
        days_before_month(year, month - 1) + days_in_month(year, month - 1)
    }
}

/// How many days lie between the beginning of 1970 and that of a later year.
pub open spec fn days_before_year(year: int) -> int
    decreases year,
{
    if year <= 1970 {
        0
    } else {
        days_before_year(year - 1) + days_in_year(year - 1)
    }
}

/// How many days a date lies after the first of January 1970.
pub open spec fn day_number(year: int, month: int, day: int) -> int {
    days_before_year(year) + days_before_month(year, month) + day - 1
}

/// Whether there is such a date, from 1970 on.
pub open spec fn is_date(year: int, month: int, day: int) -> bool {
    1970 <= year && 1 <= month <= 12 && 1 <= day <= days_in_month(year, month)
}

/// How many days lie before the first of March of a year, counted from that of the year 0.
spec fn days_before_march(year: int) -> int {
    365 * year + year / 4 - year / 100 + year / 400
}

proof fn lemma_quotient_4(y: int)
    requires
        y > 0,
    ensures
        y / 4 - (y - 1) / 4 == (if y % 4 == 0 {
            1int
        } else {
            0int
        }),
{
}

proof fn lemma_quotient_100(y: int)
    requires
        y > 0,
    ensures
        y / 100 - (y - 1) / 100 == (if y % 100 == 0 {
            1int
        } else {
            0int
        }),
{
}

proof fn lemma_quotient_400(y: int)
    requires
        y > 0,
    ensures
        y / 400 - (y - 1) / 400 == (if y % 400 == 0 {
            1int
        } else {
            0int
        }),
{
}

proof fn lemma_multiple(y: int)
    ensures
        y % 400 == 0 ==> y % 100 == 0,
        y % 100 == 0 ==> y % 4 == 0,
{
}

#[verifier::spinoff_prover]
proof fn lemma_march(year: int)
    requires
        year >= 0,
    ensures
        days_before_march(year + 1) - days_before_march(year) == (if is_leap(year + 1) {
            366int
        } else {
            365int
        }),
{
    let y = year + 1;
    lemma_quotient_4(y);
    lemma_quotient_100(y);
    lemma_quotient_400(y);
    lemma_multiple(y);
}

proof fn lemma_days_before_year(year: int)
    requires
        year >= 1970,
    ensures
        days_before_year(year) == days_before_march(year - 1) + 306 - 719468,
    decreases year,
{
    if year > 1970 {
        lemma_days_before_year(year - 1);
        lemma_march(year - 2);
    }
}

proof fn lemma_months(year: int)
    ensures
        days_before_month(year, 1) == 0,
        days_before_month(year, 2) == 31,
        days_before_month(year, 3) == 59 + (days_in_year(year) - 365),
        days_before_month(year, 4) == 90 + (days_in_year(year) - 365),
        days_before_month(year, 5) == 120 + (days_in_year(year) - 365),
        days_before_month(year, 6) == 151 + (days_in_year(year) - 365),
        days_before_month(year, 7) == 181 + (days_in_year(year) - 365),
        days_before_month(year, 8) == 212 + (days_in_year(year) - 365),
        days_before_month(year, 9) == 243 + (days_in_year(year) - 365),
        days_before_month(year, 10) == 273 + (days_in_year(year) - 365),
        days_before_month(year, 11) == 304 + (days_in_year(year) - 365),
        days_before_month(year, 12) == 334 + (days_in_year(year) - 365),
{
    reveal_with_fuel(days_before_month, 13);
}

/// A date.
#[derive(Debug, Clone, Copy, PartialEq, Eq, Structural)]
pub struct Date {
    pub year: u64,
    pub month: u64,
    pub day: u64,
}

/// The date of a day, counted from the first of January 1970.
pub fn date_of(days: u64) -> (r: Date)
    requires
        days <= u64::MAX / 86400,
    ensures
        is_date(r.year as int, r.month as int, r.day as int),
        day_number(r.year as int, r.month as int, r.day as int) == days,
{
    let z: u64 = days + 719468;
    let era: u64 = z / 146097;
    let doe: u64 = z - era * 146097;
    assert(doe == z % 146097 && doe <= 146096);
    let yoe: u64 = (doe - doe / 1460 + doe / 36524 - doe / 146096) / 365;
    assert(yoe <= 399);
    let y: u64 = yoe + era * 400;
    assert(365 * yoe + yoe / 4 - yoe / 100 <= doe) by {
        lemma_year_of_era(doe as int);
    }
    let doy: u64 = doe - (365 * yoe + yoe / 4 - yoe / 100);
    proof {
        lemma_year_of_era(doe as int);
    }
    assert(doy <= 365);
    let mp: u64 = (5 * doy + 2) / 153;
    assert(mp <= 11);
    let d: u64 = doy - (153 * mp + 2) / 5 + 1;
    let m: u64 = if mp < 10 {
        mp + 3
    } else {
        mp - 9
    };
    let year: u64 = if m <= 2 {
        y + 1
    } else {
        y
    };
    proof {
        lemma_date(
            days as int,
            era as int,
            doe as int,
            yoe as int,
            doy as int,
            mp as int,
            y as int,
            m as int,
            d as int,
            year as int,
        );
    }
    Date { year, month: m, day: d }
}

/// The year of an era, by its day: the day lies in it.
proof fn lemma_year_of_era(doe: int)
    requires
        0 <= doe <= 146096,
    ensures
        ({
            let yoe = (doe - doe / 1460 + doe / 36524 - doe / 146096) / 365;
            let start = 365 * yoe + yoe / 4 - yoe / 100;
            let next = 365 * (yoe + 1) + (yoe + 1) / 4 - (yoe + 1) / 100;
            &&& 0 <= yoe <= 399
            &&& start <= doe
            &&& yoe < 399 ==> doe < next
            &&& yoe == 399 ==> doe - start <= 365
        }),
{
}

proof fn lemma_date(
    days: int,
    era: int,
    doe: int,
    yoe: int,
    doy: int,
    mp: int,
    y: int,
    m: int,
    d: int,
    year: int,
)
    requires
        0 <= days,
        era == (days + 719468) / 146097,
        doe == (days + 719468) % 146097,
        yoe == (doe - doe / 1460 + doe / 36524 - doe / 146096) / 365,
        y == yoe + era * 400,
        doy == doe - (365 * yoe + yoe / 4 - yoe / 100),
        mp == (5 * doy + 2) / 153,
        d == doy - (153 * mp + 2) / 5 + 1,
        m == (if mp < 10 {
            mp + 3
        } else {
            mp - 9
        }),
        year == (if m <= 2 {
            y + 1
        } else {
            y
        }),
    ensures
        is_date(year, m, d),
        day_number(year, m, d) == days,
{
    lemma_march_day(days, era, doe, yoe, doy, y);
    lemma_month_of_year(doy, mp, y, m, d, year);
    lemma_days_before_year(year);
    lemma_march(y - 1);
}

/// The day in the count from March of the year 0.
proof fn lemma_march_day(days: int, era: int, doe: int, yoe: int, doy: int, y: int)
    requires
        0 <= days,
        era == (days + 719468) / 146097,
        doe == (days + 719468) % 146097,
        yoe == (doe - doe / 1460 + doe / 36524 - doe / 146096) / 365,
        y == yoe + era * 400,
        doy == doe - (365 * yoe + yoe / 4 - yoe / 100),
    ensures
        y >= 1969,
        days + 719468 == days_before_march(y) + doy,
        0 <= doy,
        doy < (if is_leap(y + 1) {
            366int
        } else {
            365int
        }),
        y == 1969 ==> doy >= 306,
{
    lemma_year_of_era(doe);
    lemma_leap_repeats(yoe + 1, era);
    assert(y / 4 == yoe / 4 + 100 * era);
    assert(y / 100 == yoe / 100 + 4 * era);
    assert(y / 400 == era);
    assert(days_before_march(y) == 146097 * era + 365 * yoe + yoe / 4 - yoe / 100);
    lemma_march(yoe);
    if y < 1969 {
        lemma_marches_grow(y + 1, 1969);
        lemma_march(y);
    }
}

proof fn lemma_marches_grow(a: int, b: int)
    requires
        0 <= a <= b,
    ensures
        days_before_march(a) <= days_before_march(b),
    decreases b - a,
{
    if a < b {
        lemma_marches_grow(a, b - 1);
        lemma_march(b - 1);
    }
}

proof fn lemma_leap_repeats(year: int, era: int)
    requires
        year >= 0,
        era >= 0,
    ensures
        is_leap(year + 400 * era) == is_leap(year),
{
}

/// The month and the day of a day that is counted from the first of March.
proof fn lemma_month_of_year(doy: int, mp: int, y: int, m: int, d: int, year: int)
    requires
        y >= 1969,
        y == 1969 ==> doy >= 306,
        0 <= doy,
        doy < (if is_leap(y + 1) {
            366int
        } else {
            365int
        }),
        mp == (5 * doy + 2) / 153,
        d == doy - (153 * mp + 2) / 5 + 1,
        m == (if mp < 10 {
            mp + 3
        } else {
            mp - 9
        }),
        year == (if m <= 2 {
            y + 1
        } else {
            y
        }),
    ensures
        is_date(year, m, d),
        days_before_month(year, m) + d - 1 == (if m <= 2 {
            doy - 306
        } else {
            doy + 59 + (days_in_year(year) - 365)
        }),
{
    lemma_months(year);
    assert(0 <= mp <= 11);
    if mp == 0 {
    } else if mp == 1 {
    } else if mp == 2 {
    } else if mp == 3 {
    } else if mp == 4 {
    } else if mp == 5 {
    } else if mp == 6 {
    } else if mp == 7 {
    } else if mp == 8 {
    } else if mp == 9 {
    } else if mp == 10 {
    } else {
        assert(mp == 11);
    }
}

/// A point in time, in seconds since 1970, for a file's name.
pub open spec fn timestamp_text(year: nat, month: nat, day: nat, seconds: nat) -> Seq<char> {
    text::dec_padded(year, 4) + "-"@ + text::dec_padded(month, 2) + "-"@ + text::dec_padded(
        day,
        2,
    ) + "-"@ + text::dec_padded(seconds / 3600, 2) + text::dec_padded(seconds % 3600 / 60, 2)
        + text::dec_padded(seconds % 60, 2)
}

/// A timestamp with a space between date and time, and colons in the time: its characters up
/// to the tenth, and six from the twelfth on, two and two. A shorter one stays as it is.
pub open spec fn displayed(ts: Seq<char>) -> Seq<char> {
    if ts.len() >= 17 {
        ts.subrange(0, 10) + " "@ + ts.subrange(11, 13) + ":"@ + ts.subrange(13, 15) + ":"@
            + ts.subrange(15, 17)
    } else {
        ts
    }
}

/// Whether a text is the timestamp of a point in time.
pub open spec fn is_timestamp(s: Seq<char>, secs: nat) -> bool {
    exists|year: nat, month: nat, day: nat|
        is_date(year as int, month as int, day as int) && day_number(
            year as int,
            month as int,
            day as int,
        ) == secs / 86400 && s == #[trigger] timestamp_text(year, month, day, secs % 86400)
}

/// A point in time, in seconds since 1970, as it stands in a file's name: the date and the
/// time of day.
pub fn format_timestamp(secs_since_epoch: u64) -> (r: String)
    ensures
        is_timestamp(r@, secs_since_epoch as nat),
{
    let date = date_of(secs_since_epoch / 86400);
    let day_secs: u64 = secs_since_epoch % 86400;
    let mut r = dec_padded_string(date.year, 4);
    r.append("-");
    r.append(dec_padded_string(date.month, 2).as_str());
    r.append("-");
    r.append(dec_padded_string(date.day, 2).as_str());
    r.append("-");
    r.append(dec_padded_string(day_secs / 3600, 2).as_str());
    r.append(dec_padded_string(day_secs % 3600 / 60, 2).as_str());
    r.append(dec_padded_string(day_secs % 60, 2).as_str());
    assert(r@ == timestamp_text(
        date.year as nat,
        date.month as nat,
        date.day as nat,
        day_secs as nat,
    ));
    r
}

fn part(s: &str, from: usize, to: usize) -> (r: String)
    requires
        from <= to <= s@.len(),
    ensures
        r@ == s@.subrange(from as int, to as int),
{
    s.substring_char(from, to).to_owned()
}

/// A point in time, in seconds since 1970, as it is shown.
pub fn format_timestamp_display(secs_since_epoch: u64) -> (r: String)
    ensures
        exists|ts: Seq<char>|
            is_timestamp(ts, secs_since_epoch as nat) && r@ == #[trigger] displayed(ts),
{
    let ts = format_timestamp(secs_since_epoch);
    let n: usize = ts.as_str().unicode_len();
    if n < 17 {
        assert(displayed(ts@) == ts@);
        return ts;
    }
    let mut r = part(ts.as_str(), 0, 10);
    r.append(" ");
    r.append(part(ts.as_str(), 11, 13).as_str());
    r.append(":");
    r.append(part(ts.as_str(), 13, 15).as_str());
    r.append(":");
    r.append(part(ts.as_str(), 15, 17).as_str());
    assert(r@ == displayed(ts@));
    r
}

/// Only one date lies a given number of days after the beginning of 1970.
pub proof fn dates_are_told_apart(
    year: int,
    month: int,
    day: int,
    other_year: int,
    other_month: int,
    other_day: int,
)
    requires
        is_date(year, month, day),
        is_date(other_year, other_month, other_day),
        day_number(year, month, day) == day_number(other_year, other_month, other_day),
    ensures
        year == other_year,
        month == other_month,
        day == other_day,
{
    lemma_in_year(year, month, day);
    lemma_in_year(other_year, other_month, other_day);
    if year < other_year {
        lemma_years_grow(year + 1, other_year);
    } else if other_year < year {
        lemma_years_grow(other_year + 1, year);
    }
    lemma_months(year);
}

proof fn lemma_in_year(year: int, month: int, day: int)
    requires
        is_date(year, month, day),
    ensures
        days_before_year(year) <= day_number(year, month, day) < days_before_year(year + 1),
{
    lemma_months(year);
}

proof fn lemma_years_grow(a: int, b: int)
    requires
        1970 <= a <= b,
    ensures
        days_before_year(a) <= days_before_year(b),
    decreases b - a,
{
    if a < b {
        lemma_years_grow(a, b - 1);
    }
}

/// A date lies before another where its year is less, or in one year its month, or in one month
/// its day.
spec fn before_date(
    year: int,
    month: int,
    day: int,
    other_year: int,
    other_month: int,
    other_day: int,
) -> bool {
    ||| year < other_year
    ||| year == other_year && month < other_month
    ||| year == other_year && month == other_month && day < other_day
}

proof fn lemma_earlier_date(
    year: int,
    month: int,
    day: int,
    other_year: int,
    other_month: int,
    other_day: int,
)
    requires
        is_date(year, month, day),
        is_date(other_year, other_month, other_day),
        day_number(year, month, day) < day_number(other_year, other_month, other_day),
    ensures
        before_date(year, month, day, other_year, other_month, other_day),
{
    lemma_in_year(year, month, day);
    lemma_in_year(other_year, other_month, other_day);
    if other_year < year {
        lemma_years_grow(other_year + 1, year);
    }
    lemma_months(year);
}

/// The days before the end of the year 9999 lie in years of four digits.
proof fn lemma_four_digit_year(year: int, month: int, day: int)
    requires
        is_date(year, month, day),
        day_number(year, month, day) < 2932897,
    ensures
        year < 10000,
{
    lemma_in_year(year, month, day);
    if year >= 10000 {
        lemma_years_grow(10000, year);
        lemma_days_before_year(10000);
    }
}

/// The time of day in a timestamp.
spec fn clock_text(seconds: nat) -> Seq<char> {
    text::dec_padded(seconds / 3600, 2) + (text::dec_padded(seconds % 3600 / 60, 2)
        + text::dec_padded(seconds % 60, 2))
}

/// Times of day are in the order of their texts.
proof fn lemma_clock_order(a: nat, b: nat)
    requires
        a < 86400,
        b < 86400,
    ensures
        clock_text(a).len() == 6,
        clock_text(b).len() == 6,
        a < b ==> text::before_text(clock_text(a), clock_text(b)),
{
    let h = text::dec_padded(a / 3600, 2);
    let m = text::dec_padded(a % 3600 / 60, 2);
    let s = text::dec_padded(a % 60, 2);
    let i = text::dec_padded(b / 3600, 2);
    let n = text::dec_padded(b % 3600 / 60, 2);
    let t = text::dec_padded(b % 60, 2);
    text::lemma_order_in_two_places(a / 3600, b / 3600);
    text::lemma_order_in_two_places(a % 3600 / 60, b % 3600 / 60);
    text::lemma_order_in_two_places(a % 60, b % 60);
    if a < b {
        if a / 3600 < b / 3600 {
            text::lemma_what_follows(h, i, m + s, n + t);
        } else {
            text::lemma_common_beginning(h, m + s, n + t);
            if a % 3600 / 60 < b % 3600 / 60 {
                text::lemma_what_follows(m, n, s, t);
            } else {
                text::lemma_common_beginning(m, s, t);
            }
        }
    }
}

proof fn lemma_regroup(a: Seq<char>, b: Seq<char>, c: Seq<char>)
    ensures
        a + b + c == a + (b + c),
{
    assert(a + b + c =~= a + (b + c));
}

/// The parts of a timestamp, each followed by all the others behind it.
proof fn lemma_timestamp_parts(year: nat, month: nat, day: nat, seconds: nat)
    ensures
        timestamp_text(year, month, day, seconds) == text::dec_padded(year, 4) + ("-"@ + (
        text::dec_padded(month, 2) + ("-"@ + (text::dec_padded(day, 2) + ("-"@ + clock_text(
            seconds,
        )))))),
{
    let dash = "-"@;
    let y = text::dec_padded(year, 4);
    let m = text::dec_padded(month, 2);
    let d = text::dec_padded(day, 2);
    let hours = text::dec_padded(seconds / 3600, 2);
    let minutes = text::dec_padded(seconds % 3600 / 60, 2);
    let secs = text::dec_padded(seconds % 60, 2);
    let clock = clock_text(seconds);
    lemma_regroup(y + dash + m + dash + d + dash + hours, minutes, secs);
    lemma_regroup(y + dash + m + dash + d + dash, hours, minutes + secs);
    lemma_regroup(y + dash + m + dash + d, dash, clock);
    lemma_regroup(y + dash + m + dash, d, dash + clock);
    lemma_regroup(y + dash + m, dash, d + (dash + clock));
    lemma_regroup(y + dash, m, dash + (d + (dash + clock)));
    lemma_regroup(y, dash, m + (dash + (d + (dash + clock))));
}

proof fn lemma_timestamp_order(
    year: nat,
    month: nat,
    day: nat,
    seconds: nat,
    other_year: nat,
    other_month: nat,
    other_day: nat,
    other_seconds: nat,
)
    requires
        year < 10000 && month < 100 && day < 100 && seconds < 86400,
        other_year < 10000 && other_month < 100 && other_day < 100 && other_seconds < 86400,
        before_date(
            year as int,
            month as int,
            day as int,
            other_year as int,
            other_month as int,
            other_day as int,
        ) || year == other_year && month == other_month && day == other_day && seconds
            < other_seconds,
    ensures
        timestamp_text(year, month, day, seconds).len() == 17,
        timestamp_text(other_year, other_month, other_day, other_seconds).len() == 17,
        text::before_text(
            timestamp_text(year, month, day, seconds),
            timestamp_text(other_year, other_month, other_day, other_seconds),
        ),
{
    reveal_strlit("-");
    lemma_timestamp_parts(year, month, day, seconds);
    lemma_timestamp_parts(other_year, other_month, other_day, other_seconds);
    text::lemma_order_in_four_places(year, other_year);
    text::lemma_order_in_two_places(month, other_month);
    text::lemma_order_in_two_places(day, other_day);
    lemma_clock_order(seconds, other_seconds);
    let y = text::dec_padded(year, 4);
    let m = text::dec_padded(month, 2);
    let d = text::dec_padded(day, 2);
    let v = text::dec_padded(other_year, 4);
    let n = text::dec_padded(other_month, 2);
    let e = text::dec_padded(other_day, 2);
    let c3 = "-"@ + clock_text(seconds);
    let o3 = "-"@ + clock_text(other_seconds);
    let c2 = "-"@ + (d + c3);
    let o2 = "-"@ + (e + o3);
    let c1 = "-"@ + (m + c2);
    let o1 = "-"@ + (n + o2);
    if year < other_year {
        text::lemma_what_follows(y, v, c1, o1);
    } else {
        text::lemma_common_beginning(y, c1, o1);
        text::lemma_common_beginning("-"@, m + c2, n + o2);
        if month < other_month {
            text::lemma_what_follows(m, n, c2, o2);
        } else {
            text::lemma_common_beginning(m, c2, o2);
            text::lemma_common_beginning("-"@, d + c3, e + o3);
            if day < other_day {
                text::lemma_what_follows(d, e, c3, o3);
            } else {
                text::lemma_common_beginning(d, c3, o3);
                text::lemma_common_beginning("-"@, clock_text(seconds), clock_text(other_seconds));
            }
        }
    }
}

/// The last second of the year 9999.
pub const LAST_FOUR_DIGIT_SECOND: u64 = 253402300799;

/// Up to the end of the year 9999 a timestamp has seventeen characters, and the timestamp of
/// an earlier point in time stands before that of a later one in the order of texts.
pub proof fn timestamps_are_in_the_order_of_time(a: nat, b: nat, s: Seq<char>, t: Seq<char>)
    requires
        a < b <= LAST_FOUR_DIGIT_SECOND,
        is_timestamp(s, a),
        is_timestamp(t, b),
    ensures
        s.len() == 17,
        t.len() == 17,
        text::before_text(s, t),
{
    let (year, month, day) = choose|year: nat, month: nat, day: nat|
        is_date(year as int, month as int, day as int) && day_number(
            year as int,
            month as int,
            day as int,
        ) == a / 86400 && s == #[trigger] timestamp_text(year, month, day, a % 86400);
    let (other_year, other_month, other_day) = choose|year: nat, month: nat, day: nat|
        is_date(year as int, month as int, day as int) && day_number(
            year as int,
            month as int,
            day as int,
        ) == b / 86400 && t == #[trigger] timestamp_text(year, month, day, b % 86400);
    lemma_four_digit_year(year as int, month as int, day as int);
    lemma_four_digit_year(other_year as int, other_month as int, other_day as int);
    if a / 86400 == b / 86400 {
        dates_are_told_apart(
            year as int,
            month as int,
            day as int,
            other_year as int,
            other_month as int,
            other_day as int,
        );
    } else {
        lemma_earlier_date(
            year as int,
            month as int,
            day as int,
            other_year as int,
            other_month as int,
            other_day as int,
        );
    }
    lemma_timestamp_order(
        year,
        month,
        day,
        a % 86400,
        other_year,
        other_month,
        other_day,
        b % 86400,
    );
}

// ---------------------------------------------------------------------------
// The report
// ---------------------------------------------------------------------------

/// Where a panic happened.
#[derive(Debug)]
pub struct PanicPlace {
    pub file: String,
    pub line: u32,
    pub column: u32,
}

/// What is reported of a panic.
pub struct PanicFacts {
    /// The time as it is shown.
    pub timestamp: String,
    /// What is known of the system.
    pub system: String,
    /// The message, where it is a text.
    pub message: Option<String>,
    pub place: Option<PanicPlace>,
    pub breadcrumbs: String,
    pub backtrace: String,
}

/// Where a panic happened, as it is reported.
pub open spec fn place_text(place: Option<PanicPlace>) -> Seq<char> {
    match place {
        Some(p) => "Location: "@ + p.file@ + ":"@ + text::dec(p.line as nat) + ":"@ + text::dec(
            p.column as nat,
        ) + "\n"@,
        None => Seq::empty(),
    }
}

/// The report on a panic.
pub open spec fn crash_text(f: PanicFacts) -> Seq<char> {
    "=== Whisper-Git Crash Report ===\nTimestamp: "@ + f.timestamp@ + "\n"@ + f.system@
        + "\n--- Panic ---\nMessage: "@ + (match f.message {
        Some(m) => m@,
        None => "unknown panic payload"@,
    }) + "\n"@ + place_text(f.place) + (if f.breadcrumbs@.len() > 0 {
        "\n--- Breadcrumbs ---\n"@ + f.breadcrumbs@
    } else {
        Seq::empty()
    }) + "\n--- Backtrace ---\n"@ + f.backtrace@
}

/// The report on a panic.
pub fn crash_report(f: &PanicFacts) -> (r: String)
    ensures
        r@ == crash_text(*f),
{
    let mut r = "=== Whisper-Git Crash Report ===\nTimestamp: ".to_owned();
    r.append(f.timestamp.as_str());
    r.append("\n");
    r.append(f.system.as_str());
    r.append("\n--- Panic ---\nMessage: ");
    let message = match &f.message {
        Some(m) => m.clone(),
        None => "unknown panic payload".to_owned(),
    };
    r.append(message.as_str());
    r.append("\n");
    let place = match &f.place {
        Some(p) => {
            let mut s = "Location: ".to_owned();
            s.append(p.file.as_str());
            s.append(":");
            push_dec(&mut s, p.line as u64);
            s.append(":");
            push_dec(&mut s, p.column as u64);
            s.append("\n");
            s
        },
        None => String::new(),
    };
    let crumbs = if f.breadcrumbs.as_str().is_empty() {
        String::new()
    } else {
        let mut s = "\n--- Breadcrumbs ---\n".to_owned();
        s.append(f.breadcrumbs.as_str());
        s
    };
    proof {
        if f.place is None {
            assert(place@ =~= Seq::empty());
        }
        if f.breadcrumbs@.len() == 0 {
            assert(crumbs@ =~= Seq::empty());
        }
    }
    r.append(place.as_str());
    r.append(crumbs.as_str());
    r.append("\n--- Backtrace ---\n");
    r.append(f.backtrace.as_str());
    r
}

/// The name of the file that a report is written to.
pub open spec fn report_name(timestamp: Seq<char>) -> Seq<char> {
    "crash-"@ + timestamp + ".log"@
}

/// The name of the file that a report is written to.
pub fn crash_file_name(timestamp: &str) -> (r: String)
    ensures
        r@ == report_name(timestamp@),
{
    let mut r = "crash-".to_owned();
    r.append(timestamp);
    r.append(".log");
    r
}

// ---------------------------------------------------------------------------
// Old reports
// ---------------------------------------------------------------------------

/// A file in the directory of reports.
#[derive(Debug)]
pub struct LogFile {
    pub path: String,
    /// Whether it is a report, by its extension.
    pub is_log: bool,
    /// When it was last changed, in nanoseconds, where that is known.
    pub mtime: Option<u128>,
}

/// The newest report that is newer than `marker`: of several equally new ones the first.
pub open spec fn newest_log(files: Seq<LogFile>, marker: u128) -> Option<(u128, Seq<char>)>
    decreases files.len(),
{
    if files.len() == 0 {
        None
    } else {
        let f = files.last();
        let rest = newest_log(files.drop_last(), marker);
        match f.mtime {
            Some(t) => if f.is_log && t > marker && match rest {
                Some((best, _)) => t > best,
                None => true,
            } {
                Some((t, f.path@))
            } else {
                rest
            },
            None => rest,
        }
    }
}

/// Check if there is a crash log newer than the last clean exit marker.
/// Returns the path to the newest crash log if one exists.
pub fn has_crash_since_last_exit(files: &Vec<LogFile>, marker: u128) -> (r: Option<String>)
    ensures
        text::opt_view(r) == (match newest_log(files@, marker) {
            Some((_, path)) => Some(path),
            None => None,
        }),
{
    let mut newest: Option<(u128, String)> = None;
    let mut i: usize = 0;
    assert(files@.take(0) =~= Seq::empty());
    while i < files.len()
        invariant
            i <= files.len(),
            match newest {
                Some((t, p)) => newest_log(files@.take(i as int), marker) == Some((t, p@)),
                None => newest_log(files@.take(i as int), marker) is None,
            },
        decreases files.len() - i,
    {
        let f = &files[i];
        proof {
            assert(files@.take(i + 1).drop_last() =~= files@.take(i as int));
            assert(files@.take(i + 1).last() == *f);
        }
        if f.is_log {
            if let Some(t) = f.mtime {
                let newer = match &newest {
                    Some((best, _)) => t > *best,
                    None => true,
                };
                if t > marker && newer {
                    newest = Some((t, f.path.clone()));
                }
            }
        }
        i = i + 1;
    }
    assert(files@.take(files@.len() as int) =~= files@);
    match newest {
        Some((_, p)) => Some(p),
        None => None,
    }
}

/// What is found is a report, it is newer than the marker, and none is newer; and something
/// is found wherever there is such a report.
pub proof fn newest_crash_is_found(files: Seq<LogFile>, marker: u128)
    ensures
        match newest_log(files, marker) {
            Some((t, p)) => {
                &&& t > marker
                &&& exists|i: int|
                    0 <= i < files.len() && (#[trigger] files[i]).is_log && files[i].mtime == Some(
                        t,
                    ) && files[i].path@ == p
                &&& forall|i: int|
                    0 <= i < files.len() && (#[trigger] files[i]).is_log && files[i].mtime is Some
                        ==> files[i].mtime->0 <= t || files[i].mtime->0 <= marker
            },
            None => forall|i: int|
                0 <= i < files.len() && (#[trigger] files[i]).is_log && files[i].mtime is Some
                    ==> files[i].mtime->0 <= marker,
        },
    decreases files.len(),
{
    if files.len() > 0 {
        let rest = files.drop_last();
        newest_crash_is_found(rest, marker);
        assert forall|i: int| 0 <= i < rest.len() implies rest[i] == #[trigger] files[i] by {}
        match newest_log(rest, marker) {
            Some((t, p)) => {
                let k = choose|k: int|
                    0 <= k < rest.len() && (#[trigger] rest[k]).is_log && rest[k].mtime == Some(t)
                        && rest[k].path@ == p;
                assert(files[k].is_log && files[k].mtime == Some(t) && files[k].path@ == p);
            },
            None => {},
        }
        let n = files.len() - 1;
        assert(files[n] == files.last());
    }
}

/// The paths of the reports.
pub open spec fn log_paths(files: Seq<LogFile>) -> Seq<Seq<char>>
    decreases files.len(),
{
    if files.len() == 0 {
        Seq::empty()
    } else if files.last().is_log {
        log_paths(files.drop_last()).push(files.last().path@)
    } else {
        log_paths(files.drop_last())
    }
}

/// Paths in the order of their texts, which for reports is that of their times.
pub struct ByName {}

impl Order<String> for ByName {
    open spec fn before(a: Seq<char>, b: Seq<char>) -> bool {
        text::before_text(a, b)
    }

    proof fn is_order(a: Seq<char>, b: Seq<char>, c: Seq<char>) {
        text::lemma_text_order(a, b, c);
    }

    fn is_before(a: &String, b: &String) -> (r: bool) {
        text_before(a.as_str(), b.as_str())
    }
}

/// The reports that are deleted: the first in their order, so that `keep` are left.
pub open spec fn logs_to_delete(files: Seq<LogFile>, keep: nat) -> Seq<Seq<char>> {
    let all = order::sorted::<String, ByName>(log_paths(files));
    if all.len() <= keep {
        Seq::empty()
    } else {
        all.take(all.len() - keep)
    }
}

/// The oldest crash logs beyond the keep limit, which are to be deleted.
pub fn prune_crash_logs(files: &Vec<LogFile>, keep: usize) -> (r: Vec<String>)
    ensures
        text::views(r@) == logs_to_delete(files@, keep as nat),
{
    let mut logs: Vec<String> = Vec::new();
    let mut i: usize = 0;
    assert(text::views(logs@) =~= log_paths(files@.take(0)));
    while i < files.len()
        invariant
            i <= files.len(),
            text::views(logs@) == log_paths(files@.take(i as int)),
        decreases files.len() - i,
    {
        proof {
            assert(files@.take(i + 1).drop_last() =~= files@.take(i as int));
            assert(files@.take(i + 1).last() == files@[i as int]);
        }
        if files[i].is_log {
            let ghost before = logs@;
            let p = files[i].path.clone();
            logs.push(p);
            assert(text::views(logs@) =~= text::views(before).push(p@));
        }
        i = i + 1;
    }
    assert(files@.take(files@.len() as int) =~= files@);
    proof {
        order::sorting_keeps_values_and_orders_them::<String, ByName>(log_paths(files@));
        assert(text::views(logs@).len() == logs@.len());
    }
    if logs.len() <= keep {
        let r: Vec<String> = Vec::new();
        assert(text::views(r@) =~= Seq::empty());
        return r;
    }
    let mut sorted = sort::<String, ByName>(logs);
    let ghost all = order::sorted::<String, ByName>(log_paths(files@));
    assert(text::views(sorted@).len() == sorted@.len());
    let n: usize = sorted.len() - keep;
    sorted.truncate(n);
    assert(text::views(sorted@) =~= all.take(n as int));
    sorted
}

/// Deleting leaves exactly the limit where there were more, and no report that is left stands
/// before one that is deleted.
pub proof fn newest_logs_are_left(files: Seq<LogFile>, keep: nat)
    ensures
        ({
            let all = order::sorted::<String, ByName>(log_paths(files));
            let gone = logs_to_delete(files, keep);
            &&& all.to_multiset() == log_paths(files).to_multiset()
            &&& gone.len() <= all.len()
            &&& all.len() > keep ==> all.len() - gone.len() == keep
            &&& all.len() <= keep ==> gone.len() == 0
            &&& forall|i: int, j: int|
                0 <= i < gone.len() && gone.len() <= j < all.len() ==> !text::before_text(
                    #[trigger] all[j],
                    #[trigger] gone[i],
                )
        }),
{
    order::sorting_keeps_values_and_orders_them::<String, ByName>(log_paths(files));
    let all = order::sorted::<String, ByName>(log_paths(files));
    let gone = logs_to_delete(files, keep);
    assert forall|i: int, j: int| 0 <= i < gone.len() && gone.len() <= j < all.len() implies
        !text::before_text(#[trigger] all[j], #[trigger] gone[i]) by {
        assert(gone[i] == all[i]);
        assert(!ByName::before(all[j], all[i]));
    }
}

/// In one directory, the path of an earlier report stands before that of a later one.
pub proof fn reports_are_in_the_order_of_time(
    dir: Seq<char>,
    a: nat,
    b: nat,
    s: Seq<char>,
    t: Seq<char>,
)
    requires
        a < b <= LAST_FOUR_DIGIT_SECOND,
        is_timestamp(s, a),
        is_timestamp(t, b),
    ensures
        text::before_text(dir + report_name(s), dir + report_name(t)),
{
    timestamps_are_in_the_order_of_time(a, b, s, t);
    text::lemma_what_follows(s, t, ".log"@, ".log"@);
    text::lemma_common_beginning("crash-"@, s + ".log"@, t + ".log"@);
    assert(report_name(s) =~= "crash-"@ + (s + ".log"@));
    assert(report_name(t) =~= "crash-"@ + (t + ".log"@));
    text::lemma_common_beginning(dir, report_name(s), report_name(t));
}

/// Of the reports in one directory, none that is left is older than one that is deleted.
pub proof fn oldest_reports_are_deleted(
    files: Seq<LogFile>,
    keep: nat,
    dir: Seq<char>,
    i: int,
    j: int,
    a: nat,
    b: nat,
    s: Seq<char>,
    t: Seq<char>,
)
    requires
        0 <= i < logs_to_delete(files, keep).len(),
        logs_to_delete(files, keep).len() <= j < order::sorted::<String, ByName>(
            log_paths(files),
        ).len(),
        logs_to_delete(files, keep)[i] == dir + report_name(s),
        order::sorted::<String, ByName>(log_paths(files))[j] == dir + report_name(t),
        a <= LAST_FOUR_DIGIT_SECOND,
        b <= LAST_FOUR_DIGIT_SECOND,
        is_timestamp(s, a),
        is_timestamp(t, b),
    ensures
        a <= b,
{
    newest_logs_are_left(files, keep);
    if b < a {
        reports_are_in_the_order_of_time(dir, b, a, t, s);
    }
}

/// The directory of the application's own files, given where the user's settings are and
/// where the user is at home: that below the first, or else below the second, or a temporary
/// one.
pub open spec fn dirs_text(config: Option<Seq<char>>, home: Option<Seq<char>>) -> Seq<Seq<char>> {
    match config {
        Some(c) => seq![c, "whisper-git"@],
        None => match home {
            Some(h) => seq![h, ".config"@, "whisper-git"@],
            None => seq!["/tmp/whisper-git"@],
        },
    }
}

/// The parts of the path of the application's own files.
pub fn dirs_path(config: Option<String>, home: Option<String>) -> (r: Vec<String>)
    ensures
        text::views(r@) == dirs_text(text::opt_view(config), text::opt_view(home)),
{
    let ghost want = dirs_text(text::opt_view(config), text::opt_view(home));
    let mut r: Vec<String> = Vec::new();
    match config {
        Some(c) => {
            r.push(c);
            r.push("whisper-git".to_owned());
        },
        None => {
            match home {
                Some(h) => {
                    r.push(h);
                    r.push(".config".to_owned());
                    r.push("whisper-git".to_owned());
                },
                None => {
                    r.push("/tmp/whisper-git".to_owned());
                },
            }
        },
    }
    assert(text::views(r@) =~= want);
    r
}

/// The parts of the path of the directory of reports.
pub fn crash_dir(config: Option<String>, home: Option<String>) -> (r: Vec<String>)
    ensures
        text::views(r@) == dirs_text(text::opt_view(config), text::opt_view(home)).push(
            "crashes"@,
        ),
{
    let ghost want = dirs_text(text::opt_view(config), text::opt_view(home));
    let mut r = dirs_path(config, home);
    r.push("crashes".to_owned());
    assert(text::views(r@) =~= want.push("crashes"@));
    r
}

/// The parts of the path of the file that tells when the program last ended well.
pub fn clean_exit_marker(config: Option<String>, home: Option<String>) -> (r: Vec<String>)
    ensures
        text::views(r@) == dirs_text(text::opt_view(config), text::opt_view(home)).push(
            ".last_clean_exit"@,
        ),
{
    let ghost want = dirs_text(text::opt_view(config), text::opt_view(home));
    let mut r = dirs_path(config, home);
    r.push(".last_clean_exit".to_owned());
    assert(text::views(r@) =~= want.push(".last_clean_exit"@));
    r
}

// ---------------------------------------------------------------------------
// Laws of the calendar and of reports
// ---------------------------------------------------------------------------

/// The months of a year are its days, and each day follows the one before: after the last day of
/// a month comes the first of the next, and after the last of December the first of January.
pub proof fn days_follow_each_other(year: int, month: int, day: int)
    requires
        is_date(year, month, day),
    ensures
        days_before_month(year, 12) + days_in_month(year, 12) == days_in_year(year),
        day < days_in_month(year, month) ==> day_number(year, month, day + 1) == day_number(
            year,
            month,
            day,
        ) + 1,
        day == days_in_month(year, month) && month < 12 ==> day_number(year, month + 1, 1)
            == day_number(year, month, day) + 1,
        day == days_in_month(year, month) && month == 12 ==> day_number(year + 1, 1, 1)
            == day_number(year, month, day) + 1,
        day_number(1970, 1, 1) == 0,
{
    reveal_with_fuel(days_before_month, 13);
}

/// February has a day more in every fourth year, but in a hundredth year only in every fourth of
/// those.
pub proof fn leap_years_come_every_fourth_year(k: int)
    requires
        k >= 0,
    ensures
        is_leap(400 * k),
        !is_leap(400 * k + 100) && !is_leap(400 * k + 200) && !is_leap(400 * k + 300),
        !is_leap(4 * k + 1) && !is_leap(4 * k + 2) && !is_leap(4 * k + 3),
        (4 * k) % 100 != 0 ==> is_leap(4 * k),
        days_in_month(400 * k, 2) == 29 && days_in_month(4 * k + 1, 2) == 28,
{
}

/// A time is shown with blanks and colons between its parts, and with all its digits.
pub proof fn the_time_is_shown_with_colons(year: nat, month: nat, day: nat, seconds: nat)
    requires
        1000 <= year <= 9999,
        1 <= month <= 12,
        1 <= day <= 31,
        seconds < 86400,
    ensures
        displayed(timestamp_text(year, month, day, seconds)) == text::dec_padded(year, 4) + "-"@
            + text::dec_padded(month, 2) + "-"@ + text::dec_padded(day, 2) + " "@
            + text::dec_padded(seconds / 3600, 2) + ":"@ + text::dec_padded(seconds % 3600 / 60, 2)
            + ":"@ + text::dec_padded(seconds % 60, 2),
{
    reveal_strlit("-");
    reveal_strlit(" ");
    reveal_strlit(":");
    reveal_with_fuel(text::dec, 5);
    let y = text::dec_padded(year, 4);
    let mo = text::dec_padded(month, 2);
    let d = text::dec_padded(day, 2);
    let h = text::dec_padded(seconds / 3600, 2);
    let mi = text::dec_padded(seconds % 3600 / 60, 2);
    let s = text::dec_padded(seconds % 60, 2);
    lemma_two_digits(month);
    lemma_two_digits(day);
    lemma_two_digits(seconds / 3600);
    lemma_two_digits(seconds % 3600 / 60);
    lemma_two_digits(seconds % 60);
    assert(y.len() == 4) by {
        assert(text::dec(year / 10 / 10 / 10).len() == 1);
        assert(text::dec(year / 10 / 10).len() == 2);
        assert(text::dec(year / 10).len() == 3);
        assert(text::dec(year).len() == 4);
    }
    let t = timestamp_text(year, month, day, seconds);
    assert(t.subrange(0, 10) =~= y + "-"@ + mo + "-"@ + d);
    assert(t.subrange(11, 13) =~= h);
    assert(t.subrange(13, 15) =~= mi);
    assert(t.subrange(15, 17) =~= s);
    assert(displayed(t) =~= y + "-"@ + mo + "-"@ + d + " "@ + h + ":"@ + mi + ":"@ + s);
}

proof fn lemma_two_digits(n: nat)
    requires
        n < 100,
    ensures
        text::dec_padded(n, 2).len() == 2,
{
    if n >= 10 {
        assert(text::dec(n / 10).len() == 1);
        assert(text::dec(n).len() == 2);
    } else {
        assert(text::dec(n).len() == 1);
    }
}

/// Every report among the files counts, in order, and nothing else does.
pub proof fn every_report_counts(files: Seq<LogFile>)
    ensures
        log_paths(files) == files.filter_map(
            |f: LogFile|
                if !f.is_log {
                    None
                } else {
                    Some(f.path@)
                },
        ),
    decreases files.len(),
{
    if files.len() > 0 {
        every_report_counts(files.drop_last());
    }
}

/// Each breadcrumb has its line, in order: what was done, by which thread, and when.
pub proof fn each_breadcrumb_has_its_line(s: Seq<BreadcrumbView>, c: BreadcrumbView)
    ensures
        crumb_lines(s.push(c)) == crumb_lines(s) + ("["@ + seconds_text(c.elapsed as nat) + "s] ["@
            + c.thread + "] "@ + c.message + "\n"@),
        crumb_lines(Seq::empty()) == Seq::<char>::empty(),
{
    assert(s.push(c).drop_last() =~= s);
}

/// What happens after recording began is recorded, with the time since then, the thread and what
/// was done; as long as there is room nothing recorded before is lost.
pub proof fn what_happens_is_recorded(log: CrashLogView, e: EventView)
    requires
        log.start is Some,
        log.breadcrumbs is Some,
        log.start->0 <= e.now,
    ensures
        ({
            let after = recorded(log, e);
            let c = after.breadcrumbs->0.last();
            &&& after.breadcrumbs is Some && after.breadcrumbs->0.len() > 0
            &&& c.elapsed == e.now - log.start->0
            &&& c.message == e.message
            &&& e.thread is Some ==> c.thread == e.thread->0
            &&& e.thread is None ==> c.thread == "unnamed"@
            &&& log.breadcrumbs->0.len() < 50 ==> after.breadcrumbs->0.drop_last()
                == log.breadcrumbs->0
            &&& after.start == log.start && after.system == log.system
        }),
{
    let b = log.breadcrumbs->0;
    let c = crumb_of(log.start->0, e);
    assert(b.push(c).drop_last() =~= b);
}

/// What belongs to the program lies in a directory of its own: below the directory for settings
/// where one is named, else below the home, and where neither is known among the temporary files.
pub proof fn the_program_has_a_directory(config: Seq<char>, home: Seq<char>, h: Option<Seq<char>>)
    ensures
        dirs_text(Some(config), h) == seq![config, "whisper-git"@],
        dirs_text(None, Some(home)) == seq![home, ".config"@, "whisper-git"@],
        dirs_text(None, None) == seq!["/tmp/whisper-git"@],
{
}

/// What is known of the system first stays, and the report tells it.
pub proof fn what_is_known_of_the_system_is_told(
    log: CrashLogView,
    os: Seq<char>,
    version: Seq<char>,
    gpu: Seq<char>,
)
    ensures
        log.system is Some ==> with_system(log, os, version) == log,
        log.system is None ==> with_system(log, os, version).system == Some(
            SystemView { os, version, gpu: Seq::empty() },
        ),
        system_text(SystemView { os, version, gpu: Seq::empty() }) == "Version: "@ + version
            + "\nOS: "@ + os + "\n"@ + Seq::empty(),
        gpu.len() > 0 ==> system_text(SystemView { os, version, gpu }) == "Version: "@ + version
            + "\nOS: "@ + os + "\n"@ + ("GPU: "@ + gpu + "\n"@),
{
}

} // verus!
