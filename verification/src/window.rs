//! One monitored host: its settings, its probe history, and the state
//! machine that decides when the next probe is due.

use crate::clock::{elapsed_between, CADENCE_NANOS};
use crate::pong::Pong;
use crate::segments::{history_segments, segments_of, segments_view, windowed};
use egui::Pos2;
use std::time::Duration;
use vstd::prelude::*;

verus! {

/// `egui::Pos2`, a position on screen, made known to the verifier as a
/// value it cannot look into. A monitor only carries it for the panel.
#[verifier::external_type_specification]
#[verifier::external_body]
pub struct ExPos2(Pos2);

/// The number of groups a host can be filed under; a group is `0..GROUP_COUNT`.
pub const GROUP_COUNT: usize = 5;

/// The title of a panel whose host has no name.
pub const UNTITLED: &'static str = "Sin título";

/// What a host's address is prefixed with to make the link that a
/// browser opens.
pub const URL_SCHEME: &'static str = "http://";

/// The initial value of a panel's `open` flag.
pub fn default_true() -> (yes: bool)
    ensures
        yes,
{
    true
}

/// What the status light of a panel shows.
#[derive(Clone, Copy, Debug, PartialEq, Eq, Structural)]
pub enum Indicator {
    /// Not scanning, or no probe has completed since scanning began.
    Idle,
    /// The latest probe was answered.
    Pass,
    /// The latest probe failed.
    Fail,
}

/// Something that happens to a monitor: one for each operation of a
/// `PingWindow` that changes it.
pub enum Event {
    /// The driver ticked at the given instant.
    Tick(u64),
    /// A probe completed with the given outcome at the given instant.
    Complete(Pong, u64),
    /// The operator switched scanning on or off.
    SetScanning(bool),
    /// The operator filed the host under a group.
    SetGroup(usize),
    /// The operator changed the host's name.
    Rename(Seq<char>),
    /// The operator changed the host's address.
    SetAddress(Seq<char>),
    /// The operator changed the notes.
    SetScratchpad(Seq<char>),
    /// The operator showed or hid the plot.
    SetShowPlot(bool),
    /// The operator showed or hid the notes.
    SetShowScratchpad(bool),
    /// The operator closed the panel.
    Close,
}

/// The mathematical model of a `PingWindow`.
pub struct Monitor {
    /// Where the panel first appears, if the operator chose a place.
    pub origin: Option<Pos2>,
    /// The name shown for the host.
    pub hostname: Seq<char>,
    /// The host name or literal address that every probe resolves anew.
    pub address: Seq<char>,
    /// The group the host is filed under.
    pub group: usize,
    /// The operator's notes.
    pub scratchpad: Seq<char>,
    /// False once the operator has closed the panel.
    pub open: bool,
    /// Whether ticks may start probes.
    pub scanning: bool,
    /// Whether the panel shows the latency plot.
    pub show_plot: bool,
    /// Whether the panel shows the notes.
    pub show_scratchpad: bool,
    /// The latest outcome's success, or `None` before the first probe of
    /// a scanning session completes.
    pub success: Option<bool>,
    /// Every completed probe, oldest first: when it completed and how.
    pub history: Seq<(u64, Pong)>,
    /// When the latest probe completed.
    pub last_ping: u64,
    /// Whether a probe has been started and has not completed yet.
    pub in_flight: bool,
}

impl Monitor {
    /// A newly created monitor: idle, with no history and no status.
    pub open spec fn fresh(hostname: Seq<char>, address: Seq<char>, origin: Option<Pos2>) -> Monitor {
        Monitor {
            origin,
            hostname,
            address,
            group: 0,
            scratchpad: Seq::empty(),
            open: true,
            scanning: false,
            show_plot: false,
            show_scratchpad: false,
            success: None,
            history: Seq::empty(),
            last_ping: 0,
            in_flight: false,
        }
    }

    /// Whether a tick at `now` starts a probe: the monitor is scanning,
    /// no probe is outstanding, and either no probe has completed yet or
    /// more than the cadence has passed since the last one.
    pub open spec fn probe_due(self, now: u64) -> bool {
        &&& self.scanning
        &&& !self.in_flight
        &&& (self.success is None || elapsed_between(self.last_ping, now) > CADENCE_NANOS)
    }

    /// The monitor after a tick at `now`.
    pub open spec fn ticked(self, now: u64) -> Monitor {
        if self.probe_due(now) {
            Monitor { in_flight: true, ..self }
        } else {
            self
        }
    }

    /// The monitor after a probe completed at `now` with `outcome`.
    pub open spec fn completed(self, outcome: Pong, now: u64) -> Monitor {
        Monitor {
            success: Some(outcome is Success),
            history: self.history.push((now, outcome)),
            last_ping: now,
            in_flight: false,
            ..self
        }
    }

    /// The monitor after the operator set `scanning` to `on`. Switching
    /// scanning on from off forgets the previous session's status.
    pub open spec fn switched(self, on: bool) -> Monitor {
        Monitor {
            scanning: on,
            success: if on && !self.scanning {
                None
            } else {
                self.success
            },
            ..self
        }
    }

    /// The title of the panel: the host's name, or `UNTITLED` if it has none.
    pub open spec fn title(self) -> Seq<char> {
        if self.hostname.len() == 0 {
            UNTITLED@
        } else {
            self.hostname
        }
    }

    /// The link to the host that a browser opens.
    pub open spec fn url(self) -> Seq<char> {
        URL_SCHEME@ + self.address
    }

    /// The monitor after `event`.
    pub open spec fn after(self, event: Event) -> Monitor {
        match event {
            Event::Tick(now) => self.ticked(now),
            Event::Complete(outcome, now) => self.completed(outcome, now),
            Event::SetScanning(on) => self.switched(on),
            Event::SetGroup(group) => Monitor { group, ..self },
            Event::Rename(hostname) => Monitor { hostname, ..self },
            Event::SetAddress(address) => Monitor { address, ..self },
            Event::SetScratchpad(scratchpad) => Monitor { scratchpad, ..self },
            Event::SetShowPlot(show_plot) => Monitor { show_plot, ..self },
            Event::SetShowScratchpad(show_scratchpad) => Monitor { show_scratchpad, ..self },
            Event::Close => Monitor { open: false, ..self },
        }
    }

    /// The monitor after all of `events`, in order.
    pub open spec fn after_all(self, events: Seq<Event>) -> Monitor
        decreases events.len(),
    {
        if events.len() == 0 {
            self
        } else {
            self.after_all(events.drop_last()).after(events.last())
        }
    }

    /// Whether `event` is a tick that starts a probe.
    pub open spec fn starts_probe(self, event: Event) -> bool {
        event matches Event::Tick(now) && self.probe_due(now)
    }

    /// What the status light shows.
    pub open spec fn indicator(self) -> Indicator {
        if !self.scanning {
            Indicator::Idle
        } else {
            match self.success {
                None => Indicator::Idle,
                Some(true) => Indicator::Pass,
                Some(false) => Indicator::Fail,
            }
        }
    }
}

/// A group index, always below `GROUP_COUNT`.
#[derive(Clone, Copy, Debug)]
pub struct Group {
    index: usize,
}

impl Group {
    #[verifier::type_invariant]
    spec fn in_range(&self) -> bool {
        self.index < GROUP_COUNT
    }

    /// The index as a number.
    pub closed spec fn value(&self) -> usize {
        self.index
    }

    /// The group with the given index.
    pub fn new(index: usize) -> (group: Group)
        requires
            index < GROUP_COUNT,
        ensures
            group.value() == index,
    {
        Group { index }
    }

    /// The index, which is below `GROUP_COUNT`.
    pub fn index(&self) -> (index: usize)
        ensures
            index == self.value(),
            index < GROUP_COUNT,
    {
        proof {
            use_type_invariant(self);
        }
        self.index
    }
}

/// One monitored host and its panel.
pub struct PingWindow {
    origin: Option<Pos2>,
    hostname: String,
    address: String,
    group: Group,
    scratchpad: String,
    open: bool,
    scanning: bool,
    show_plot: bool,
    show_scratchpad: bool,
    success: Option<bool>,
    history: Vec<(u64, Pong)>,
    last_ping: u64,
    in_flight: bool,
}

impl View for PingWindow {
    type V = Monitor;

    closed spec fn view(&self) -> Monitor {
        Monitor {
            origin: self.origin,
            hostname: self.hostname@,
            address: self.address@,
            group: self.group.value(),
            scratchpad: self.scratchpad@,
            open: self.open,
            scanning: self.scanning,
            show_plot: self.show_plot,
            show_scratchpad: self.show_scratchpad,
            success: self.success,
            history: self.history@,
            last_ping: self.last_ping,
            in_flight: self.in_flight,
        }
    }
}

impl PingWindow {
    /// A monitor for the local host, as a new panel starts out.
    pub fn empty(origin: Option<Pos2>) -> (window: Self)
        ensures
            window@ == Monitor::fresh("localhost (v4)"@, "127.0.0.1"@, origin),
    {
        PingWindow::new("localhost (v4)", "127.0.0.1", origin)
    }

    /// A monitor for `address`, shown as `hostname`: idle, with an empty
    /// history and no status.
    pub fn new(hostname: &str, address: &str, origin: Option<Pos2>) -> (window: Self)
        ensures
            window@ == Monitor::fresh(hostname@, address@, origin),
    {
        PingWindow {
            origin,
            hostname: hostname.to_owned(),
            address: address.to_owned(),
            group: Group::new(0),
            scratchpad: String::new(),
            open: default_true(),
            scanning: false,
            show_plot: false,
            show_scratchpad: false,
            success: None,
            history: Vec::new(),
            last_ping: 0,
            in_flight: false,
        }
    }

    /// Decides whether a probe starts at `now`, and marks it outstanding
    /// if so. The caller performs the probe and reports it with `complete`.
    pub fn tick(&mut self, now: u64) -> (probe: bool)
        ensures
            probe == old(self)@.probe_due(now),
            probe == old(self)@.starts_probe(Event::Tick(now)),
            final(self)@ == old(self)@.ticked(now),
            probe ==> !old(self)@.in_flight && final(self)@.in_flight,
            old(self)@.in_flight ==> !probe,
    {
        let due = self.scanning && !self.in_flight && match self.success {
            None => true,
            Some(_) => now >= self.last_ping && now - self.last_ping > CADENCE_NANOS,
        };
        if due {
            self.in_flight = true;
        }
        due
    }

    /// Records a probe that completed at `now`: the outcome joins the
    /// history, becomes the current status, and no probe is outstanding.
    pub fn complete(&mut self, outcome: Pong, now: u64)
        ensures
            final(self)@ == old(self)@.completed(outcome, now),
    {
        self.last_ping = now;
        self.history.push((now, outcome));
        self.success = Some(outcome.is_success());
        self.in_flight = false;
    }

    /// Switches scanning on or off. Switching it on from off clears the
    /// status; any other call leaves the status as it is.
    pub fn set_scanning(&mut self, on: bool)
        ensures
            final(self)@ == old(self)@.switched(on),
            on && !old(self)@.scanning ==> final(self)@.success is None,
            !on || old(self)@.scanning ==> final(self)@.success == old(self)@.success,
    {
        if on && !self.scanning {
            self.success = None;
        }
        self.scanning = on;
    }

    /// Files the host under `group`.
    pub fn set_group(&mut self, group: usize)
        requires
            group < GROUP_COUNT,
        ensures
            final(self)@ == (Monitor { group, ..old(self)@ }),
    {
        self.group = Group::new(group);
    }

    /// Changes the name shown for the host.
    pub fn rename(&mut self, hostname: &str)
        ensures
            final(self)@ == (Monitor { hostname: hostname@, ..old(self)@ }),
    {
        self.hostname = hostname.to_owned();
    }

    /// Changes the address that the next probe resolves.
    pub fn set_address(&mut self, address: &str)
        ensures
            final(self)@ == (Monitor { address: address@, ..old(self)@ }),
    {
        self.address = address.to_owned();
    }

    /// Replaces the operator's notes.
    pub fn set_scratchpad(&mut self, notes: &str)
        ensures
            final(self)@ == (Monitor { scratchpad: notes@, ..old(self)@ }),
    {
        self.scratchpad = notes.to_owned();
    }

    /// Shows or hides the latency plot.
    pub fn set_show_plot(&mut self, show: bool)
        ensures
            final(self)@ == (Monitor { show_plot: show, ..old(self)@ }),
    {
        self.show_plot = show;
    }

    /// Shows or hides the notes.
    pub fn set_show_scratchpad(&mut self, show: bool)
        ensures
            final(self)@ == (Monitor { show_scratchpad: show, ..old(self)@ }),
    {
        self.show_scratchpad = show;
    }

    /// Marks the panel as closed by the operator.
    pub fn close(&mut self)
        ensures
            final(self)@ == (Monitor { open: false, ..old(self)@ }),
    {
        self.open = false;
    }

    /// The plottable series of the last `window` probes: one run per
    /// stretch of consecutive successes.
    pub fn history_segments(&self, window: usize) -> (segments: Vec<Vec<(usize, Duration)>>)
        ensures
            segments_view(segments@) == segments_of(windowed(self@.history, window as nat)),
    {
        history_segments(&self.history, window)
    }

    /// The title of the panel: the host's name, or `UNTITLED` if it has none.
    pub fn title(&self) -> (title: &str)
        ensures
            title@ == self@.title(),
    {
        if self.hostname.as_str().is_empty() {
            UNTITLED
        } else {
            self.hostname.as_str()
        }
    }

    /// The link to the host that a browser opens: the address behind
    /// `URL_SCHEME`.
    pub fn url(&self) -> (url: String)
        ensures
            url@ == self@.url(),
    {
        URL_SCHEME.to_owned().concat(self.address.as_str())
    }

    /// Whether the host has no name, so that the panel shows `UNTITLED`.
    pub fn is_untitled(&self) -> (untitled: bool)
        ensures
            untitled == (self@.hostname.len() == 0),
    {
        self.hostname.as_str().is_empty()
    }

    /// What the status light shows: nothing while idle or before the
    /// first result, else the latest result.
    pub fn indicator(&self) -> (light: Indicator)
        ensures
            light == self@.indicator(),
    {
        if !self.scanning {
            Indicator::Idle
        } else {
            match self.success {
                None => Indicator::Idle,
                Some(true) => Indicator::Pass,
                Some(false) => Indicator::Fail,
            }
        }
    }

    /// Where the panel first appears, if the operator chose a place.
    pub fn origin(&self) -> (origin: Option<Pos2>)
        ensures
            origin == self@.origin,
    {
        self.origin
    }

    /// The name shown for the host.
    pub fn hostname(&self) -> (hostname: &str)
        ensures
            hostname@ == self@.hostname,
    {
        self.hostname.as_str()
    }

    /// The host name or literal address that probes resolve.
    pub fn address(&self) -> (address: &str)
        ensures
            address@ == self@.address,
    {
        self.address.as_str()
    }

    /// The group the host is filed under.
    pub fn group(&self) -> (group: usize)
        ensures
            group == self@.group,
            group < GROUP_COUNT,
    {
        self.group.index()
    }

    /// The operator's notes.
    pub fn scratchpad(&self) -> (notes: &str)
        ensures
            notes@ == self@.scratchpad,
    {
        self.scratchpad.as_str()
    }

    /// Whether the operator has not closed the panel.
    pub fn is_open(&self) -> (open: bool)
        ensures
            open == self@.open,
    {
        self.open
    }

    /// Whether ticks may start probes.
    pub fn scanning(&self) -> (scanning: bool)
        ensures
            scanning == self@.scanning,
    {
        self.scanning
    }

    /// Whether the panel shows the latency plot.
    pub fn show_plot(&self) -> (show: bool)
        ensures
            show == self@.show_plot,
    {
        self.show_plot
    }

    /// Whether the panel shows the notes.
    pub fn show_scratchpad(&self) -> (show: bool)
        ensures
            show == self@.show_scratchpad,
    {
        self.show_scratchpad
    }

    /// The latest outcome's success, if a probe has completed since
    /// scanning began.
    pub fn success(&self) -> (status: Option<bool>)
        ensures
            status == self@.success,
    {
        self.success
    }

    /// Every completed probe, oldest first.
    pub fn history(&self) -> (history: &Vec<(u64, Pong)>)
        ensures
            history@ == self@.history,
    {
        &self.history
    }

    /// When the latest probe completed.
    pub fn last_ping(&self) -> (at: u64)
        ensures
            at == self@.last_ping,
    {
        self.last_ping
    }

    /// Whether a probe is outstanding.
    pub fn in_flight(&self) -> (outstanding: bool)
        ensures
            outstanding == self@.in_flight,
    {
        self.in_flight
    }
}

/// A monitor that is switched on from off has no status, whatever it had
/// before, and its next tick starts a probe at once unless one is still
/// outstanding.
pub proof fn lemma_switching_on_clears_status(monitor: Monitor, now: u64)
    requires
        !monitor.scanning,
    ensures
        monitor.switched(true).success is None,
        monitor.switched(true).history == monitor.history,
        monitor.switched(true).probe_due(now) == !monitor.in_flight,
{
}

/// A monitor that is switched off, or switched on while already on,
/// keeps its status and its history.
pub proof fn lemma_switching_otherwise_keeps_status(monitor: Monitor, on: bool)
    requires
        !on || monitor.scanning,
    ensures
        monitor.switched(on).success == monitor.success,
        monitor.switched(on).history == monitor.history,
{
}

/// While a probe is outstanding no tick starts another, and only a
/// completion ends that state.
pub proof fn lemma_outstanding_probe_blocks_ticks(monitor: Monitor, event: Event)
    requires
        monitor.in_flight,
    ensures
        !monitor.starts_probe(event),
        !(event is Complete) ==> monitor.after(event).in_flight,
        event is Complete ==> !monitor.after(event).in_flight,
{
}

/// After a tick that started a probe, a probe stays outstanding for as
/// long as no completion arrives.
proof fn lemma_outstanding_until_completion(start: Monitor, events: Seq<Event>, first: int, upto: int)
    requires
        0 <= first < upto <= events.len(),
        start.after_all(events.take(first)).starts_probe(events[first]),
        forall|k: int| first < k < upto ==> !((#[trigger] events[k]) is Complete),
    ensures
        start.after_all(events.take(upto)).in_flight,
    decreases upto - first,
{
    assert(events.take(upto).drop_last() =~= events.take(upto - 1));
    assert(events.take(upto).last() == events[upto - 1]);
    if upto > first + 1 {
        lemma_outstanding_until_completion(start, events, first, upto - 1);
        lemma_outstanding_probe_blocks_ticks(
            start.after_all(events.take(upto - 1)),
            events[upto - 1],
        );
    }
}

/// Probes of one monitor never overlap: whatever happens to a monitor,
/// between two ticks that each start a probe a completion arrives.
pub proof fn lemma_probes_never_overlap(start: Monitor, events: Seq<Event>, first: int, second: int)
    requires
        0 <= first < second < events.len(),
        start.after_all(events.take(first)).starts_probe(events[first]),
        start.after_all(events.take(second)).starts_probe(events[second]),
    ensures
        exists|between: int| first < between < second && (#[trigger] events[between]) is Complete,
{
    if forall|k: int| first < k < second ==> !((#[trigger] events[k]) is Complete) {
        lemma_outstanding_until_completion(start, events, first, second);
        lemma_outstanding_probe_blocks_ticks(start.after_all(events.take(second)), events[second]);
    }
}

/// A tick at the same instant as the one before starts nothing and
/// changes nothing: ticking more often than the cadence is harmless.
pub proof fn lemma_repeated_tick_changes_nothing(monitor: Monitor, now: u64)
    ensures
        !monitor.ticked(now).probe_due(now),
        monitor.ticked(now).ticked(now) == monitor.ticked(now),
{
}

/// A completion becomes the last entry of the history and the current
/// status, and leaves every earlier entry as it was: the history only
/// grows at its end.
pub proof fn lemma_completion_appends(monitor: Monitor, outcome: Pong, now: u64)
    ensures
        monitor.completed(outcome, now).history.len() == monitor.history.len() + 1,
        monitor.completed(outcome, now).history.last() == (now, outcome),
        monitor.completed(outcome, now).history.drop_last() == monitor.history,
        monitor.completed(outcome, now).success == Some(outcome is Success),
        monitor.completed(outcome, now).last_ping == now,
{
    assert(monitor.history.push((now, outcome)).drop_last() =~= monitor.history);
}

/// No event but a completion touches the history, and a completion only
/// appends to it.
pub proof fn lemma_history_is_append_only(monitor: Monitor, event: Event)
    ensures
        monitor.history.is_prefix_of(monitor.after(event).history),
        !(event is Complete) ==> monitor.after(event).history == monitor.history,
{
}

/// A scanning monitor that has no status yet starts a probe at its first
/// tick, whenever that is; one with a status waits until more than the
/// cadence has passed since its last probe.
pub proof fn lemma_first_probe_is_immediate(monitor: Monitor, now: u64)
    requires
        monitor.scanning,
        !monitor.in_flight,
    ensures
        monitor.success is None ==> monitor.probe_due(now),
        monitor.success is Some ==> (monitor.probe_due(now) <==> now > monitor.last_ping
            + CADENCE_NANOS),
{
}

} // verus!
