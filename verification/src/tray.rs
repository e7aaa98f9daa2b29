//! The tray daemon's decisions: what the tray shows, when the unread count is
//! republished, when a click toggles Thunderbird, and when the watchdog restarts
//! it.
//!
//! The application runs the event loops (timers, signals, D-Bus, processes) and
//! feeds their events to these state machines.

use crate::text::{
    decimal, lemma_decimal_digits, lemma_decimal_injective, lemma_decimal_parses_back,
    parse_u64_spec, push_decimal,
};
use vstd::prelude::*;

verus! {

/// The tray's title: the unread count when there is unread mail.
pub open spec fn title_text(unread: u32) -> Seq<char> {
    if unread > 0 {
        "ThunderTray - "@ + decimal(unread as nat) + " unread"@
    } else {
        "ThunderTray"@
    }
}

/// The tray's title.
pub fn tray_title(unread_count: u32) -> (r: String)
    ensures
        r@ == title_text(unread_count),
{
    if unread_count > 0 {
        let mut s = String::from_str("ThunderTray - ");
        push_decimal(&mut s, unread_count as u64);
        s.append(" unread");
        s
    } else {
        String::from_str("ThunderTray")
    }
}

/// Law of the tray title: without unread mail it is `ThunderTray`; with unread
/// mail it is `ThunderTray - ` and ` unread` around a number that reads back as
/// the count; and different counts give different titles.
pub proof fn titles_tell_counts_apart(n: u32, m: u32)
    ensures
        title_text(0) == "ThunderTray"@,
        title_text(n) == title_text(m) <==> n == m,
        n > 0 ==> title_text(n).subrange(0, 14) == "ThunderTray - "@ && parse_u64_spec(
            title_text(n).subrange(14, title_text(n).len() - 7),
        ) == Some(n as u64) && title_text(n).subrange(
            title_text(n).len() - 7,
            title_text(n).len() as int,
        ) == " unread"@,
{
    reveal_strlit("ThunderTray");
    reveal_strlit("ThunderTray - ");
    reveal_strlit(" unread");
    lemma_decimal_digits(n as nat);
    lemma_decimal_digits(m as nat);
    let tn = title_text(n);
    let tm = title_text(m);
    if n > 0 && m > 0 && tn == tm {
        let dn = decimal(n as nat);
        let dm = decimal(m as nat);
        assert(tn.len() == 21 + dn.len());
        assert(tm.len() == 21 + dm.len());
        assert(dn =~= tn.subrange(14, 14 + dn.len() as int));
        assert(dm =~= tm.subrange(14, 14 + dm.len() as int));
        lemma_decimal_injective(n as nat, m as nat);
    }
    if n > 0 && m == 0 {
        assert(tn.len() > tm.len());
    }
    if n > 0 {
        let dn = decimal(n as nat);
        assert(tn.subrange(0, 14) =~= "ThunderTray - "@);
        assert(tn.subrange(14, tn.len() - 7) =~= dn);
        assert(tn.subrange(tn.len() - 7, tn.len() as int) =~= " unread"@);
        lemma_decimal_parses_back(n as nat);
    }
    if n == 0 && m > 0 {
        assert(tm.len() > tn.len());
    }
}

/// The disabled menu entry that shows the count.
pub fn unread_menu_label(unread_count: u32) -> (r: String)
    ensures
        r@ == "Unread: "@ + decimal(unread_count as nat),
{
    let mut s = String::from_str("Unread: ");
    push_decimal(&mut s, unread_count as u64);
    s
}

// ---------------------------------------------------------------------------
// The poll loop
// ---------------------------------------------------------------------------

/// What the daemon's main loop is woken by.
#[derive(Debug, Clone, Copy, PartialEq, Eq, Structural)]
pub enum TrayEvent {
    /// The poll interval elapsed and the mailboxes now hold this many unread messages.
    Tick(u32),
    /// SIGTERM.
    Terminate,
    /// SIGINT.
    Interrupt,
    /// The tray menu's Quit entry.
    QuitRequested,
}

/// What the main loop does next.
#[derive(Debug, Clone, Copy, PartialEq, Eq, Structural)]
pub enum TrayAction {
    /// Publish this unread count to the tray.
    UpdateCount(u32),
    /// Nothing changed.
    Idle,
    /// Stop the watchdog and the tray and leave the loop.
    Shutdown,
}

/// The main loop's memory: the count the tray shows, and whether it has stopped.
pub struct TrayLoop {
    pub last_count: u32,
    pub stopped: bool,
}

impl TrayLoop {
    /// The loop as it starts, showing the initial count.
    pub fn new(initial_count: u32) -> (r: Self)
        ensures
            r.last_count == initial_count,
            !r.stopped,
    {
        TrayLoop { last_count: initial_count, stopped: false }
    }

    /// Handles one event. A new count is published only when it differs from the
    /// one shown; any stop request shuts down; once stopped, nothing more happens.
    pub fn handle(&mut self, event: TrayEvent) -> (r: TrayAction)
        ensures
            old(self).stopped ==> r == TrayAction::Idle && *final(self) == *old(self),
            !old(self).stopped ==> match event {
                TrayEvent::Tick(n) => {
                    &&& final(self).last_count == n
                    &&& !final(self).stopped
                    &&& r == if n != old(self).last_count {
                        TrayAction::UpdateCount(n)
                    } else {
                        TrayAction::Idle
                    }
                },
                _ => {
                    &&& r == TrayAction::Shutdown
                    &&& final(self).stopped
                    &&& final(self).last_count == old(self).last_count
                },
            },
    {
        if self.stopped {
            return TrayAction::Idle;
        }
        match event {
            TrayEvent::Tick(n) => {
                if n != self.last_count {
                    self.last_count = n;
                    TrayAction::UpdateCount(n)
                } else {
                    TrayAction::Idle
                }
            },
            _ => {
                self.stopped = true;
                TrayAction::Shutdown
            },
        }
    }
}

// ---------------------------------------------------------------------------
// Toggle clicks
// ---------------------------------------------------------------------------

/// Clicks within this many milliseconds of the last accepted one are ignored.
pub const TOGGLE_DEBOUNCE_MS: u64 = 500;

/// Debounces toggle requests from the tray.
pub struct ToggleDebounce {
    pub last_toggle_ms: Option<u64>,
}

/// Whether a click at `now` comes soon enough after the last accepted one to be ignored.
pub open spec fn too_soon(last: Option<u64>, now: u64) -> bool {
    match last {
        None => false,
        Some(t) => now < t || now - t < TOGGLE_DEBOUNCE_MS,
    }
}

impl ToggleDebounce {
    /// No click accepted yet.
    pub fn new() -> (r: Self)
        ensures
            r.last_toggle_ms is None,
    {
        ToggleDebounce { last_toggle_ms: None }
    }

    /// Whether a click at `now_ms` (monotonic milliseconds) toggles Thunderbird.
    /// An accepted click becomes the last one; an ignored click changes nothing.
    pub fn accept(&mut self, now_ms: u64) -> (r: bool)
        ensures
            r == !too_soon(old(self).last_toggle_ms, now_ms),
            r ==> final(self).last_toggle_ms == Some(now_ms),
            !r ==> final(self).last_toggle_ms == old(self).last_toggle_ms,
    {
        match self.last_toggle_ms {
            Some(t) => {
                if now_ms < t || now_ms - t < TOGGLE_DEBOUNCE_MS {
                    return false;
                }
            },
            None => {},
        }
        self.last_toggle_ms = Some(now_ms);
        true
    }
}

/// Law of the debounce: two accepted clicks are at least the debounce interval
/// apart.
pub proof fn accepted_clicks_are_spaced(last: u64, now: u64)
    requires
        !too_soon(Some(last), now),
    ensures
        now >= last + TOGGLE_DEBOUNCE_MS,
{
}

// ---------------------------------------------------------------------------
// The watchdog
// ---------------------------------------------------------------------------

/// The window in which repeated starts are counted.
pub const RESTART_WINDOW_MS: u64 = 60_000;

/// How many starts within the window pause the watchdog.
pub const MAX_RECENT_STARTS: usize = 3;

/// What the watchdog does next.
#[derive(Debug, Clone, Copy, PartialEq, Eq, Structural)]
pub enum WatchdogAction {
    /// Thunderbird is running: look again after a pause.
    WaitWhileRunning,
    /// Start Thunderbird hidden and wait for it to exit.
    Start,
    /// Thunderbird exited too often: stop restarting it.
    Pause,
}

/// A start at `t` is older than the window at `now` (a clock that went backwards
/// counts as no time elapsed).
pub open spec fn expired(t: u64, now: u64) -> bool {
    now >= t && now - t > RESTART_WINDOW_MS
}

/// Drops the oldest starts while they are older than the window.
pub open spec fn prune(starts: Seq<u64>, now: u64) -> Seq<u64>
    decreases starts.len(),
{
    if starts.len() > 0 && expired(starts[0], now) {
        prune(starts.drop_first(), now)
    } else {
        starts
    }
}

/// The watchdog's decision: the starts it remembers afterwards, whether it is
/// paused, and what it does. A paused watchdog stays paused; while Thunderbird
/// runs nothing changes; otherwise starts older than the window are forgotten and,
/// with three recent starts left, the watchdog pauses for good.
pub open spec fn decision(starts: Seq<u64>, paused: bool, running: bool, now: u64) -> (
    Seq<u64>,
    bool,
    WatchdogAction,
) {
    if paused {
        (starts, true, WatchdogAction::Pause)
    } else if running {
        (starts, false, WatchdogAction::WaitWhileRunning)
    } else {
        let p = prune(starts, now);
        if p.len() >= MAX_RECENT_STARTS {
            (p, true, WatchdogAction::Pause)
        } else {
            (p, false, WatchdogAction::Start)
        }
    }
}

/// Restarts Thunderbird after it exits, and pauses after repeated rapid exits.
pub struct Watchdog {
    recent_starts: Vec<u64>,
    paused: bool,
}

impl Watchdog {
    /// The times of the recent starts, oldest first.
    pub closed spec fn starts(&self) -> Seq<u64> {
        self.recent_starts@
    }

    /// Whether the watchdog has given up.
    pub closed spec fn is_paused(&self) -> bool {
        self.paused
    }

    /// A watchdog that has not started Thunderbird yet.
    pub fn new() -> (r: Self)
        ensures
            r.starts().len() == 0,
            !r.is_paused(),
    {
        Watchdog { recent_starts: Vec::new(), paused: false }
    }

    /// Decides the next step, given whether Thunderbird is running and the time.
    /// Starts older than the window are forgotten; with three recent starts left,
    /// the watchdog pauses for good.
    pub fn decide(&mut self, thunderbird_running: bool, now_ms: u64) -> (r: WatchdogAction)
        ensures
            (final(self).starts(), final(self).is_paused(), r) == decision(
                old(self).starts(),
                old(self).is_paused(),
                thunderbird_running,
                now_ms,
            ),
    {
        if self.paused {
            return WatchdogAction::Pause;
        }
        if thunderbird_running {
            return WatchdogAction::WaitWhileRunning;
        }
        let ghost starts = self.recent_starts@;
        let mut first: usize = 0;
        assert(starts.subrange(0, starts.len() as int) =~= starts);
        while first < self.recent_starts.len() && now_ms >= self.recent_starts[first] && now_ms
            - self.recent_starts[first] > RESTART_WINDOW_MS
            invariant
                first <= self.recent_starts@.len(),
                starts == self.recent_starts@,
                prune(starts, now_ms) == prune(starts.subrange(first as int, starts.len() as int), now_ms),
            decreases self.recent_starts@.len() - first,
        {
            assert(starts.subrange(first as int, starts.len() as int).drop_first() =~= starts.subrange(
                first + 1,
                starts.len() as int,
            ));
            first = first + 1;
        }
        let mut kept: Vec<u64> = Vec::new();
        let mut i = first;
        while i < self.recent_starts.len()
            invariant
                first <= i <= self.recent_starts@.len(),
                kept@ == self.recent_starts@.subrange(first as int, i as int),
            decreases self.recent_starts@.len() - i,
        {
            kept.push(self.recent_starts[i]);
            i = i + 1;
            assert(kept@ =~= self.recent_starts@.subrange(first as int, i as int));
        }
        assert(prune(starts.subrange(first as int, starts.len() as int), now_ms) == starts.subrange(
            first as int,
            starts.len() as int,
        ));
        self.recent_starts = kept;
        if self.recent_starts.len() >= MAX_RECENT_STARTS {
            self.paused = true;
            WatchdogAction::Pause
        } else {
            WatchdogAction::Start
        }
    }

    /// Records that Thunderbird was started at `now_ms`.
    pub fn record_start(&mut self, now_ms: u64)
        ensures
            final(self).starts() == old(self).starts().push(now_ms),
            final(self).is_paused() == old(self).is_paused(),
    {
        self.recent_starts.push(now_ms);
    }
}

/// Starts recorded in order, none later than `now`.
pub open spec fn ordered_until(starts: Seq<u64>, now: u64) -> bool {
    &&& forall|i: int, j: int| 0 <= i <= j < starts.len() ==> starts[i] <= starts[j]
    &&& forall|i: int| 0 <= i < starts.len() ==> starts[i] <= now
}

/// Law of the watchdog: when starts are recorded in time order, the starts it
/// remembers at `now` are exactly those within the window, so it starts
/// Thunderbird only while fewer than three starts happened in the last minute.
pub proof fn remembered_starts_are_those_in_window(starts: Seq<u64>, now: u64)
    requires
        ordered_until(starts, now),
    ensures
        prune(starts, now) == starts.filter(|t: u64| !expired(t, now)),
    decreases starts.len(),
{
    reveal_with_fuel(Seq::<_>::filter, 1);
    if starts.len() == 0 {
        assert(starts.filter(|t: u64| !expired(t, now)) =~= Seq::<u64>::empty());
    } else {
        if expired(starts[0], now) {
            assert(ordered_until(starts.drop_first(), now));
            remembered_starts_are_those_in_window(starts.drop_first(), now);
            lemma_filter_drop_expired_first(starts, now);
        } else {
            // No start is expired: all are at least as late as the first.
            assert forall|i: int| 0 <= i < starts.len() implies !expired(#[trigger] starts[i], now) by {
                assert(starts[0] <= starts[i]);
            }
            lemma_filter_keeps_all(starts, now);
        }
    }
}

proof fn lemma_filter_keeps_all(starts: Seq<u64>, now: u64)
    requires
        forall|i: int| 0 <= i < starts.len() ==> !expired(#[trigger] starts[i], now),
    ensures
        starts.filter(|t: u64| !expired(t, now)) == starts,
    decreases starts.len(),
{
    reveal_with_fuel(Seq::<_>::filter, 1);
    if starts.len() > 0 {
        lemma_filter_keeps_all(starts.drop_last(), now);
        assert(starts.drop_last().push(starts.last()) =~= starts);
    } else {
        assert(starts.filter(|t: u64| !expired(t, now)) =~= starts);
    }
}

proof fn lemma_filter_drop_expired_first(starts: Seq<u64>, now: u64)
    requires
        starts.len() > 0,
        expired(starts[0], now),
    ensures
        starts.filter(|t: u64| !expired(t, now)) == starts.drop_first().filter(
            |t: u64| !expired(t, now),
        ),
    decreases starts.len(),
{
    reveal_with_fuel(Seq::<_>::filter, 1);
    if starts.len() == 1 {
        assert(starts.drop_last() =~= Seq::<u64>::empty());
        assert(starts.drop_first() =~= Seq::<u64>::empty());
        assert(starts.drop_first().filter(|t: u64| !expired(t, now)) =~= Seq::<u64>::empty());
        assert(starts.drop_last().filter(|t: u64| !expired(t, now)) =~= Seq::<u64>::empty());
    } else {
        lemma_filter_drop_expired_first(starts.drop_last(), now);
        assert(starts.drop_last().drop_first() =~= starts.drop_first().drop_last());
        assert(starts.drop_first().last() == starts.last());
    }
}

// ---------------------------------------------------------------------------
// The watchdog over a whole run
// ---------------------------------------------------------------------------

/// What happens to the watchdog: a decision at a time, or a start of Thunderbird
/// recorded at a time.
pub enum WatchdogEvent {
    Checked { running: bool, now: u64 },
    Started { at: u64 },
}

/// The time of an event.
pub open spec fn event_time(e: WatchdogEvent) -> u64 {
    match e {
        WatchdogEvent::Checked { now, .. } => now,
        WatchdogEvent::Started { at } => at,
    }
}

/// A watchdog after some events: what it remembers, whether it is paused, every
/// start recorded so far, its last decision since the last start, and the time
/// of the last event.
pub struct WatchdogRun {
    pub starts: Seq<u64>,
    pub paused: bool,
    pub history: Seq<u64>,
    pub last: Option<WatchdogAction>,
    pub clock: u64,
}

/// One event, as `Watchdog::decide` and `Watchdog::record_start` handle it.
pub open spec fn watchdog_step(r: WatchdogRun, e: WatchdogEvent) -> WatchdogRun {
    match e {
        WatchdogEvent::Checked { running, now } => {
            let (starts, paused, action) = decision(r.starts, r.paused, running, now);
            WatchdogRun { starts, paused, last: Some(action), clock: now, ..r }
        },
        WatchdogEvent::Started { at } => WatchdogRun {
            starts: r.starts.push(at),
            history: r.history.push(at),
            last: None,
            clock: at,
            ..r
        },
    }
}

/// A new watchdog after a sequence of events.
pub open spec fn watchdog_run(events: Seq<WatchdogEvent>) -> WatchdogRun
    decreases events.len(),
{
    if events.len() == 0 {
        WatchdogRun {
            starts: Seq::empty(),
            paused: false,
            history: Seq::empty(),
            last: None,
            clock: 0,
        }
    } else {
        watchdog_step(watchdog_run(events.drop_last()), events.last())
    }
}

/// The events come in time order, and a start is recorded only right after a
/// decision to start.
pub open spec fn well_run(events: Seq<WatchdogEvent>) -> bool {
    &&& forall|i: int, j: int|
        0 <= i <= j < events.len() ==> event_time(#[trigger] events[i]) <= event_time(
            #[trigger] events[j],
        )
    &&& forall|i: int|
        0 <= i < events.len() && (#[trigger] events[i] is Started) ==> watchdog_run(
            events.take(i),
        ).last == Some(WatchdogAction::Start)
}

/// What holds of a watchdog after a well-run sequence of events.
pub open spec fn run_invariant(r: WatchdogRun) -> bool {
    let h = r.history;
    let k = h.len() - r.starts.len();
    &&& r.starts.len() <= h.len()
    &&& r.starts == h.subrange(k, h.len() as int)
    &&& forall|i: int| 0 <= i < k ==> r.clock - #[trigger] h[i] > RESTART_WINDOW_MS
    &&& forall|i: int| 0 <= i && i + 3 < h.len() ==> #[trigger] h[i + 3] - h[i] > RESTART_WINDOW_MS
    &&& r.last == Some(WatchdogAction::Start) ==> r.starts.len() < MAX_RECENT_STARTS
}

proof fn lemma_prune_drops_expired(starts: Seq<u64>, now: u64)
    ensures
        prune(starts, now).len() <= starts.len(),
        prune(starts, now) == starts.subrange(
            starts.len() - prune(starts, now).len(),
            starts.len() as int,
        ),
        forall|i: int|
            0 <= i < starts.len() - prune(starts, now).len() ==> expired(#[trigger] starts[i], now),
    decreases starts.len(),
{
    if starts.len() > 0 && expired(starts[0], now) {
        let rest = starts.drop_first();
        lemma_prune_drops_expired(rest, now);
        assert(rest.subrange(rest.len() - prune(rest, now).len(), rest.len() as int) =~= starts.subrange(
            starts.len() - prune(starts, now).len(),
            starts.len() as int,
        ));
        assert forall|i: int|
            0 <= i < starts.len() - prune(starts, now).len() implies expired(
            #[trigger] starts[i],
            now,
        ) by {
            if i > 0 {
                assert(starts[i] == rest[i - 1]);
            }
        }
    } else {
        assert(starts.subrange(0, starts.len() as int) =~= starts);
    }
}

proof fn lemma_run_invariant(events: Seq<WatchdogEvent>)
    requires
        well_run(events),
    ensures
        run_invariant(watchdog_run(events)),
        events.len() > 0 ==> watchdog_run(events).clock == event_time(events.last()),
    decreases events.len(),
{
    if events.len() > 0 {
        let n = events.len() - 1;
        let prefix = events.drop_last();
        assert forall|i: int| 0 <= i < prefix.len() && (#[trigger] prefix[i] is Started) implies watchdog_run(
            prefix.take(i),
        ).last == Some(WatchdogAction::Start) by {
            assert(prefix.take(i) =~= events.take(i));
            assert(events[i] is Started);
        }
        lemma_run_invariant(prefix);
        let r = watchdog_run(prefix);
        let e = events.last();
        let t = event_time(e);
        if prefix.len() > 0 {
            assert(event_time(events[n - 1]) <= event_time(events[n]));
        }
        assert(r.clock <= t);
        let h = r.history;
        let k = h.len() - r.starts.len();
        match e {
            WatchdogEvent::Checked { running, now } => {
                if !r.paused && !running {
                    let p = prune(r.starts, now);
                    lemma_prune_drops_expired(r.starts, now);
                    let k2 = h.len() - p.len();
                    assert(p =~= h.subrange(k2, h.len() as int));
                    assert forall|i: int| 0 <= i < k2 implies now - #[trigger] h[i]
                        > RESTART_WINDOW_MS by {
                        if i >= k {
                            assert(h[i] == r.starts[i - k]);
                            assert(expired(r.starts[i - k], now));
                        }
                    }
                }
            },
            WatchdogEvent::Started { at } => {
                assert(events.take(n) =~= prefix);
                assert(events[n] is Started);
                let h2 = h.push(at);
                assert(r.starts.push(at) =~= h2.subrange(k, h2.len() as int));
                assert forall|i: int| 0 <= i && i + 3 < h2.len() implies #[trigger] h2[i + 3] - h2[i]
                    > RESTART_WINDOW_MS by {
                    if i + 3 == h.len() {
                        assert(h2[i] == h[i]);
                        assert(i < k);
                    } else {
                        assert(h2[i] == h[i] && h2[i + 3] == h[i + 3]);
                    }
                }
            },
        }
    } else {
        assert(Seq::<u64>::empty().subrange(0, 0) =~= Seq::<u64>::empty());
    }
}

/// Law of the watchdog over a run: when its events come in time order and a
/// start is recorded only after a decision to start, any four starts lie more
/// than a minute apart, so no 60-second span holds more than three starts.
pub proof fn at_most_three_starts_per_minute(events: Seq<WatchdogEvent>)
    requires
        well_run(events),
    ensures
        forall|i: int|
            0 <= i && i + 3 < watchdog_run(events).history.len() ==> #[trigger] watchdog_run(
                events,
            ).history[i + 3] - watchdog_run(events).history[i] > RESTART_WINDOW_MS,
{
    lemma_run_invariant(events);
}

} // verus!
