//! The registry of monitors: it owns every live monitor, names each by an
//! identifier of its own, and drives their ticks.

use crate::clock::Clock;
use crate::pong::Pong;
use crate::segments::{history_segments, segments_of, segments_view, windowed};
use crate::window::{Monitor, PingWindow, GROUP_COUNT};
use std::time::Duration;
use vstd::prelude::*;

verus! {

/// A probe that a tick has started: the driver resolves `address`, probes
/// it, and reports the outcome for `id`.
pub struct ProbeRequest {
    /// The monitor that asks.
    pub id: u64,
    /// The address specification to resolve, as it stood at the tick.
    pub address: String,
}

impl View for ProbeRequest {
    type V = (u64, Seq<char>);

    open spec fn view(&self) -> (u64, Seq<char>) {
        (self.id, self.address@)
    }
}

/// What the presentation layer lists of one target.
pub struct TargetInfo {
    /// The monitor's identifier.
    pub id: u64,
    /// The name shown for the host.
    pub display_name: String,
    /// The host name or literal address that probes resolve.
    pub address_spec: String,
    /// The group the host is filed under.
    pub group: usize,
    /// Whether ticks may start probes.
    pub scanning: bool,
    /// The latest outcome's success, if any.
    pub current_status: Option<bool>,
}

impl TargetInfo {
    /// Whether this entry lists the monitor `target.1` under `target.0`.
    pub open spec fn lists(&self, target: (u64, Monitor)) -> bool {
        &&& self.id == target.0
        &&& self.display_name@ == target.1.hostname
        &&& self.address_spec@ == target.1.address
        &&& self.group == target.1.group
        &&& self.scanning == target.1.scanning
        &&& self.current_status == target.1.success
    }
}

/// Whether some target of `targets` is named `id`.
pub open spec fn has_target(targets: Seq<(u64, Monitor)>, id: u64) -> bool {
    exists|i: int| 0 <= i < targets.len() && (#[trigger] targets[i]).0 == id
}

/// The monitor that `targets` holds under `id`.
pub open spec fn monitor_of(targets: Seq<(u64, Monitor)>, id: u64) -> Monitor {
    targets[choose|i: int| 0 <= i < targets.len() && (#[trigger] targets[i]).0 == id].1
}

/// Identifiers grow along `targets`, so no two targets share one.
pub open spec fn ids_ascend(targets: Seq<(u64, Monitor)>) -> bool {
    forall|i: int, j: int|
        0 <= i < j < targets.len() ==> (#[trigger] targets[i]).0 < (#[trigger] targets[j]).0
}

/// `targets` with `change` applied to the monitor named `id`, if there is one.
pub open spec fn with_target(
    targets: Seq<(u64, Monitor)>,
    id: u64,
    change: spec_fn(Monitor) -> Monitor,
) -> Seq<(u64, Monitor)> {
    targets.map_values(
        |target: (u64, Monitor)|
            if target.0 == id {
                (target.0, change(target.1))
            } else {
                target
            },
    )
}

/// `targets` without the one named `id`.
pub open spec fn without_target(targets: Seq<(u64, Monitor)>, id: u64) -> Seq<(u64, Monitor)> {
    targets.filter(|target: (u64, Monitor)| target.0 != id)
}

/// `targets` after the probe of the monitor named `id` completed at
/// `now` with `outcome`; unchanged if no monitor is named `id`.
pub open spec fn completed_target(
    targets: Seq<(u64, Monitor)>,
    id: u64,
    outcome: Pong,
    now: u64,
) -> Seq<(u64, Monitor)> {
    with_target(targets, id, |monitor: Monitor| monitor.completed(outcome, now))
}

/// Every monitor of `targets` after a tick at `now`.
pub open spec fn ticked_all(targets: Seq<(u64, Monitor)>, now: u64) -> Seq<(u64, Monitor)> {
    targets.map_values(|target: (u64, Monitor)| (target.0, target.1.ticked(now)))
}

/// The probes that a tick at `now` starts: one for each monitor that is
/// due, in the order of `targets`, with the address it has at the tick.
pub open spec fn due_requests(targets: Seq<(u64, Monitor)>, now: u64) -> Seq<(u64, Seq<char>)> {
    targets.filter(|target: (u64, Monitor)| target.1.probe_due(now)).map_values(
        |target: (u64, Monitor)| (target.0, target.1.address),
    )
}

/// The targets whose panel the operator has not closed.
pub open spec fn open_targets(targets: Seq<(u64, Monitor)>) -> Seq<(u64, Monitor)> {
    targets.filter(|target: (u64, Monitor)| target.1.open)
}

/// The three monitors that a new registry starts with.
pub open spec fn initial_targets() -> Seq<(u64, Monitor)> {
    seq![
        (0u64, Monitor::fresh("localhost (v4)"@, "127.0.0.1"@, None)),
        (1u64, Monitor::fresh("localhost (v6)"@, "::1"@, None)),
        (2u64, Monitor::fresh("Google DNS"@, "8.8.8.8"@, None)),
    ]
}

/// A list of requests as plain values.
pub open spec fn requests_view(requests: Seq<ProbeRequest>) -> Seq<(u64, Seq<char>)> {
    requests.map_values(|request: ProbeRequest| request@)
}

/// Under ascending identifiers, the monitor found under a target's
/// identifier is that target's monitor.
pub proof fn lemma_monitor_of(targets: Seq<(u64, Monitor)>, at: int)
    requires
        ids_ascend(targets),
        0 <= at < targets.len(),
    ensures
        has_target(targets, targets[at].0),
        monitor_of(targets, targets[at].0) == targets[at].1,
{
    let id = targets[at].0;
    let found = choose|i: int| 0 <= i < targets.len() && (#[trigger] targets[i]).0 == id;
    assert(found == at) by {
        if found < at {
            assert(targets[found].0 < targets[at].0);
        } else if at < found {
            assert(targets[at].0 < targets[found].0);
        }
    }
}

/// Every probe that a tick starts is for a live monitor that was due: it
/// had no probe outstanding before the tick, has one after it, and the
/// request carries its address.
pub proof fn lemma_requests_are_for_due_monitors(targets: Seq<(u64, Monitor)>, now: u64, k: int)
    requires
        ids_ascend(targets),
        0 <= k < due_requests(targets, now).len(),
    ensures
        has_target(targets, due_requests(targets, now)[k].0),
        monitor_of(targets, due_requests(targets, now)[k].0).probe_due(now),
        !monitor_of(targets, due_requests(targets, now)[k].0).in_flight,
        monitor_of(targets, due_requests(targets, now)[k].0).address == due_requests(
            targets,
            now,
        )[k].1,
        monitor_of(ticked_all(targets, now), due_requests(targets, now)[k].0).in_flight,
{
    let started = targets.filter(|target: (u64, Monitor)| target.1.probe_due(now));
    let asking = started[k];
    assert(started.contains(asking));
    targets.lemma_filter_contains_rev(|target: (u64, Monitor)| target.1.probe_due(now), asking);
    targets.lemma_filter_pred(|target: (u64, Monitor)| target.1.probe_due(now), k);
    let at = choose|i: int| 0 <= i < targets.len() && targets[i] == asking;
    lemma_monitor_of(targets, at);
    let after = ticked_all(targets, now);
    assert(ids_ascend(after)) by {
        assert forall|i: int, j: int| 0 <= i < j < after.len() implies (#[trigger] after[i]).0 < (
        #[trigger] after[j]).0 by {
            assert(targets[i].0 < targets[j].0);
        }
    }
    lemma_monitor_of(after, at);
}

/// Ticking again at the same instant is harmless: it starts no probe and
/// changes no monitor.
pub proof fn lemma_repeated_tick_is_harmless(targets: Seq<(u64, Monitor)>, now: u64)
    ensures
        due_requests(ticked_all(targets, now), now) == Seq::<(u64, Seq<char>)>::empty(),
        ticked_all(ticked_all(targets, now), now) == ticked_all(targets, now),
{
    let after = ticked_all(targets, now);
    assert(ticked_all(after, now) =~= after);
    lemma_none_due(after, now);
}

/// Where no monitor is due, a tick starts no probe.
proof fn lemma_none_due(targets: Seq<(u64, Monitor)>, now: u64)
    requires
        forall|i: int| 0 <= i < targets.len() ==> !(#[trigger] targets[i]).1.probe_due(now),
    ensures
        due_requests(targets, now) == Seq::<(u64, Seq<char>)>::empty(),
    decreases targets.len(),
{
    reveal(Seq::filter);
    if targets.len() > 0 {
        lemma_none_due(targets.drop_last(), now);
    }
    assert(due_requests(targets, now) =~= Seq::<(u64, Seq<char>)>::empty());
}

/// Taking out a target that is not there changes nothing.
proof fn lemma_without_absent(targets: Seq<(u64, Monitor)>, id: u64)
    requires
        forall|i: int| 0 <= i < targets.len() ==> (#[trigger] targets[i]).0 != id,
    ensures
        without_target(targets, id) == targets,
    decreases targets.len(),
{
    reveal(Seq::filter);
    if targets.len() > 0 {
        lemma_without_absent(targets.drop_last(), id);
        assert(targets.drop_last().push(targets.last()) =~= targets);
    }
}

/// Under ascending identifiers, taking out the target named as the one
/// at `at` removes exactly that one.
pub proof fn lemma_without_target(targets: Seq<(u64, Monitor)>, at: int)
    requires
        ids_ascend(targets),
        0 <= at < targets.len(),
    ensures
        without_target(targets, targets[at].0) == targets.remove(at),
    decreases targets.len(),
{
    reveal(Seq::filter);
    let id = targets[at].0;
    let earlier = targets.drop_last();
    if at == targets.len() - 1 {
        assert forall|i: int| 0 <= i < earlier.len() implies (#[trigger] earlier[i]).0 != id by {
            assert(targets[i].0 < targets[at].0);
        }
        lemma_without_absent(earlier, id);
        assert(targets.remove(at) =~= earlier);
    } else {
        assert(targets[at].0 < targets.last().0);
        assert(ids_ascend(earlier)) by {
            assert forall|i: int, j: int| 0 <= i < j < earlier.len() implies (#[trigger] earlier[i]).0
                < (#[trigger] earlier[j]).0 by {
                assert(targets[i].0 < targets[j].0);
            }
        }
        lemma_without_target(earlier, at);
        assert(earlier[at] == targets[at]);
        assert(earlier.remove(at).push(targets.last()) =~= targets.remove(at));
    }
}

/// How the requests of a tick grow with one more target.
proof fn lemma_due_requests_step(targets: Seq<(u64, Monitor)>, now: u64, at: int)
    requires
        0 <= at < targets.len(),
    ensures
        due_requests(targets.take(at + 1), now) == if targets[at].1.probe_due(now) {
            due_requests(targets.take(at), now).push((targets[at].0, targets[at].1.address))
        } else {
            due_requests(targets.take(at), now)
        },
{
    reveal(Seq::filter);
    let due = |target: (u64, Monitor)| target.1.probe_due(now);
    let ask = |target: (u64, Monitor)| (target.0, target.1.address);
    let upto = targets.take(at + 1);
    assert(upto.drop_last() =~= targets.take(at));
    assert(upto.last() == targets[at]);
    if targets[at].1.probe_due(now) {
        assert(upto.filter(due) == targets.take(at).filter(due).push(targets[at]));
        assert(targets.take(at).filter(due).push(targets[at]).map_values(ask) =~= targets.take(
            at,
        ).filter(due).map_values(ask).push(ask(targets[at])));
    }
}

/// How the open targets grow with one more target.
proof fn lemma_open_targets_step(targets: Seq<(u64, Monitor)>, at: int)
    requires
        0 <= at < targets.len(),
    ensures
        open_targets(targets.take(at + 1)) == if targets[at].1.open {
            open_targets(targets.take(at)).push(targets[at])
        } else {
            open_targets(targets.take(at))
        },
{
    reveal(Seq::filter);
    let upto = targets.take(at + 1);
    assert(upto.drop_last() =~= targets.take(at));
    assert(upto.last() == targets[at]);
}

struct Slot {
    id: u64,
    window: PingWindow,
}

impl View for Slot {
    type V = (u64, Monitor);

    closed spec fn view(&self) -> (u64, Monitor) {
        (self.id, self.window@)
    }
}

/// The registry: every live monitor under its identifier, in the order
/// of creation.
pub struct PingApp {
    slots: Vec<Slot>,
    next_id: u64,
    clock: Clock,
}

impl View for PingApp {
    type V = Seq<(u64, Monitor)>;

    closed spec fn view(&self) -> Seq<(u64, Monitor)> {
        self.slots@.map_values(|slot: Slot| slot@)
    }
}

impl PingApp {
    /// The identifier that the next created monitor gets.
    pub closed spec fn next_id(&self) -> u64 {
        self.next_id
    }

    /// The registry's invariant: identifiers ascend in order of creation
    /// and none has reached `next_id` yet, so every new one is fresh.
    pub open spec fn wf(&self) -> bool {
        &&& ids_ascend(self@)
        &&& forall|i: int| 0 <= i < self@.len() ==> (#[trigger] self@[i]).0 < self.next_id()
    }

    /// What a change to the one slot at `at` leaves as it was.
    proof fn lemma_changed_one(before: Seq<Slot>, after: Seq<Slot>, at: int)
        requires
            ids_ascend(before.map_values(|slot: Slot| slot@)),
            0 <= at < before.len() == after.len(),
            after[at].id == before[at].id,
            forall|i: int| 0 <= i < before.len() && i != at ==> after[i] == before[i],
        ensures
            ids_ascend(after.map_values(|slot: Slot| slot@)),
            forall|i: int|
                0 <= i < before.len() && i != at ==> (#[trigger] after[i])@ == before[i]@
                    && before[i]@.0 != before[at].id,
            forall|i: int| 0 <= i < before.len() ==> (#[trigger] after[i])@.0 == before[i]@.0,
    {
        let views = before.map_values(|slot: Slot| slot@);
        let changed = after.map_values(|slot: Slot| slot@);
        assert forall|i: int| 0 <= i < before.len() && i != at implies (#[trigger] after[i])@
            == before[i]@ && before[i]@.0 != before[at].id by {
            if i < at {
                assert(views[i].0 < views[at].0);
            } else {
                assert(views[at].0 < views[i].0);
            }
        }
        assert forall|i: int, j: int| 0 <= i < j < changed.len() implies (#[trigger] changed[i]).0 < (
        #[trigger] changed[j]).0 by {
            assert(views[i].0 < views[j].0);
        }
    }

    /// The instant at which the registry's own clock was started.
    pub closed spec fn started(&self) -> u64 {
        self.clock.start()
    }

    /// A registry with the three initial monitors, none of them scanning.
    /// Its own clock starts at instant 0.
    pub fn new() -> (app: Self)
        ensures
            app.wf(),
            app@ == initial_targets(),
            app.next_id() == 3,
            app.started() == 0,
    {
        PingApp::starting_at(0)
    }

    /// A registry with the three initial monitors, none of them scanning,
    /// whose own clock shows `start` now. With the wall-clock time as
    /// `start`, the instants in the histories are wall-clock times.
    pub fn starting_at(start: u64) -> (app: Self)
        ensures
            app.wf(),
            app@ == initial_targets(),
            app.next_id() == 3,
            app.started() == start,
    {
        let mut slots: Vec<Slot> = Vec::new();
        slots.push(Slot { id: 0, window: PingWindow::new("localhost (v4)", "127.0.0.1", None) });
        slots.push(Slot { id: 1, window: PingWindow::new("localhost (v6)", "::1", None) });
        slots.push(Slot { id: 2, window: PingWindow::new("Google DNS", "8.8.8.8", None) });
        let app = PingApp { slots, next_id: 3, clock: Clock::starting_at(start) };
        assert(app@ =~= initial_targets());
        app
    }

    /// How many monitors are live.
    pub fn len(&self) -> (count: usize)
        ensures
            count == self@.len(),
    {
        self.slots.len()
    }

    /// Whether an identifier is left for one more monitor.
    pub fn can_create(&self) -> (room: bool)
        ensures
            room == (self.next_id() < u64::MAX),
    {
        self.next_id < u64::MAX
    }

    /// Takes `window` in as a new monitor and returns its identifier,
    /// which no monitor has had before.
    pub fn create(&mut self, window: PingWindow) -> (id: u64)
        requires
            old(self).wf(),
            old(self).next_id() < u64::MAX,
        ensures
            final(self).wf(),
            id == old(self).next_id(),
            !has_target(old(self)@, id),
            final(self)@ == old(self)@.push((id, window@)),
            final(self).next_id() == id + 1,
            final(self).started() == old(self).started(),
    {
        let id = self.next_id;
        self.next_id = id + 1;
        self.slots.push(Slot { id, window });
        assert(self@ =~= old(self)@.push((id, window@)));
        id
    }

    /// The position of the monitor named `id`, if it is live.
    fn find(&self, id: u64) -> (found: Option<usize>)
        requires
            self.wf(),
        ensures
            match found {
                Some(at) => at < self@.len() && self@[at as int].0 == id && has_target(self@, id)
                    && monitor_of(self@, id) == self@[at as int].1,
                None => !has_target(self@, id),
            },
    {
        let mut at: usize = 0;
        while at < self.slots.len()
            invariant
                self.wf(),
                0 <= at <= self.slots@.len(),
                self@.len() == self.slots@.len(),
                forall|i: int| 0 <= i < at ==> (#[trigger] self@[i]).0 != id,
            decreases self.slots@.len() - at,
        {
            if self.slots[at].id == id {
                proof {
                    assert(self@[at as int] == self.slots@[at as int]@);
                    lemma_monitor_of(self@, at as int);
                }
                return Some(at);
            }
            assert(self@[at as int] == self.slots@[at as int]@);
            at += 1;
        }
        None
    }

    /// Whether a monitor named `id` is live.
    pub fn contains(&self, id: u64) -> (live: bool)
        requires
            self.wf(),
        ensures
            live == has_target(self@, id),
    {
        self.find(id).is_some()
    }

    /// The monitor named `id`.
    pub fn window(&self, id: u64) -> (window: &PingWindow)
        requires
            self.wf(),
            has_target(self@, id),
        ensures
            window@ == monitor_of(self@, id),
    {
        let at = self.find(id).unwrap();
        assert(self@[at as int] == self.slots@[at as int]@);
        &self.slots[at].window
    }

    /// The identifiers of the live monitors, in order of creation.
    pub fn ids(&self) -> (ids: Vec<u64>)
        ensures
            ids@ == self@.map_values(|target: (u64, Monitor)| target.0),
    {
        let mut ids: Vec<u64> = Vec::new();
        let mut at: usize = 0;
        while at < self.slots.len()
            invariant
                0 <= at <= self.slots@.len(),
                self@.len() == self.slots@.len(),
                ids@.len() == at,
                forall|i: int| 0 <= i < at ==> ids@[i] == (#[trigger] self@[i]).0,
            decreases self.slots@.len() - at,
        {
            assert(self@[at as int] == self.slots@[at as int]@);
            ids.push(self.slots[at].id);
            at += 1;
        }
        assert(ids@ =~= self@.map_values(|target: (u64, Monitor)| target.0));
        ids
    }
    /// Removes the monitor named `id`, with its history.
    pub fn destroy(&mut self, id: u64)
        requires
            old(self).wf(),
            has_target(old(self)@, id),
        ensures
            final(self).wf(),
            final(self).next_id() == old(self).next_id(),
            final(self).started() == old(self).started(),
            final(self)@ == without_target(old(self)@, id),
            !has_target(final(self)@, id),
    {
        let at = self.find(id).unwrap();
        let ghost before = self@;
        self.slots.remove(at);
        proof {
            assert(self@ =~= before.remove(at as int));
            lemma_without_target(before, at as int);
            assert forall|i: int, j: int| 0 <= i < j < self@.len() implies (#[trigger] self@[i]).0 < (
            #[trigger] self@[j]).0 by {
                let from = if i < at { i } else { i + 1 };
                let to = if j < at { j } else { j + 1 };
                assert(self@[i] == before[from]);
                assert(self@[j] == before[to]);
            }
            assert forall|i: int| 0 <= i < self@.len() implies (#[trigger] self@[i]).0
                < self.next_id() && self@[i].0 != id by {
                let from = if i < at { i } else { i + 1 };
                assert(self@[i] == before[from]);
                if from < at {
                    assert(before[from].0 < before[at as int].0);
                } else {
                    assert(before[at as int].0 < before[from].0);
                }
            }
        }
    }

    /// Ticks every live monitor at `now` and returns the probes that are
    /// to be started, one for each monitor that is due. No monitor's tick
    /// waits for a probe: the driver performs the probes on its own
    /// schedule and reports each with `complete`.
    pub fn tick_all(&mut self, now: u64) -> (requests: Vec<ProbeRequest>)
        requires
            old(self).wf(),
        ensures
            final(self).wf(),
            final(self).next_id() == old(self).next_id(),
            final(self).started() == old(self).started(),
            final(self)@ == ticked_all(old(self)@, now),
            requests_view(requests@) == due_requests(old(self)@, now),
    {
        let ghost before = self@;
        let mut requests: Vec<ProbeRequest> = Vec::new();
        let mut at: usize = 0;
        assert(before.take(0) =~= Seq::empty());
        assert(requests_view(requests@) =~= due_requests(before.take(0), now)) by {
            reveal(Seq::filter);
        }
        while at < self.slots.len()
            invariant
                0 <= at <= self.slots@.len(),
                self.next_id == old(self).next_id,
                self.clock == old(self).clock,
                self@.len() == before.len() == self.slots@.len(),
                forall|i: int|
                    0 <= i < at ==> (#[trigger] self.slots@[i])@ == (
                        before[i].0,
                        before[i].1.ticked(now),
                    ),
                forall|i: int| at <= i < before.len() ==> (#[trigger] self.slots@[i])@ == before[i],
                requests_view(requests@) == due_requests(before.take(at as int), now),
            decreases self.slots@.len() - at,
        {
            let ghost asked = requests@;
            let probe = self.slots[at].window.tick(now);
            if probe {
                let id = self.slots[at].id;
                let address = self.slots[at].window.address().to_owned();
                requests.push(ProbeRequest { id, address });
            }
            proof {
                lemma_due_requests_step(before, now, at as int);
                if probe {
                    assert(requests_view(requests@) =~= requests_view(asked).push(
                        (before[at as int].0, before[at as int].1.address),
                    ));
                }
            }
            at += 1;
        }
        assert(before.take(at as int) =~= before);
        assert(self@ =~= ticked_all(before, now));
        requests
    }

    /// Applies the outcome of a probe that completed at `now` to the
    /// monitor named `id`. The outcome of a monitor that has been
    /// removed meanwhile is dropped, and `false` is returned.
    pub fn complete(&mut self, id: u64, outcome: Pong, now: u64) -> (applied: bool)
        requires
            old(self).wf(),
        ensures
            final(self).wf(),
            final(self).next_id() == old(self).next_id(),
            final(self).started() == old(self).started(),
            applied == has_target(old(self)@, id),
            final(self)@ == completed_target(old(self)@, id, outcome, now),
    {
        let ghost before = self@;
        match self.find(id) {
            Some(at) => {
                let ghost slots = self.slots@;
                self.slots[at].window.complete(outcome, now);
                proof {
                    Self::lemma_changed_one(slots, self.slots@, at as int);
                    assert(self@ =~= completed_target(before, id, outcome, now));
                }
                true
            },
            None => {
                assert(self@ =~= completed_target(before, id, outcome, now));
                false
            },
        }
    }

    /// Switches the scanning of the monitor named `id` on or off.
    /// Switching it on from off clears the monitor's status.
    pub fn set_scanning(&mut self, id: u64, on: bool)
        requires
            old(self).wf(),
            has_target(old(self)@, id),
        ensures
            final(self).wf(),
            final(self).next_id() == old(self).next_id(),
            final(self).started() == old(self).started(),
            final(self)@ == with_target(old(self)@, id, |monitor: Monitor| monitor.switched(on)),
            monitor_of(final(self)@, id) == monitor_of(old(self)@, id).switched(on),
    {
        let at = self.find(id).unwrap();
        let ghost slots = self.slots@;
        self.slots[at].window.set_scanning(on);
        proof {
            Self::lemma_changed_one(slots, self.slots@, at as int);
            assert(self@ =~= with_target(old(self)@, id, |monitor: Monitor| monitor.switched(on)));
            lemma_monitor_of(self@, at as int);
        }
    }

    /// Files the monitor named `id` under `group`.
    pub fn set_group(&mut self, id: u64, group: usize)
        requires
            old(self).wf(),
            has_target(old(self)@, id),
            group < GROUP_COUNT,
        ensures
            final(self).wf(),
            final(self).next_id() == old(self).next_id(),
            final(self).started() == old(self).started(),
            final(self)@ == with_target(
                old(self)@,
                id,
                |monitor: Monitor| (Monitor { group, ..monitor }),
            ),
    {
        let at = self.find(id).unwrap();
        let ghost slots = self.slots@;
        self.slots[at].window.set_group(group);
        proof {
            Self::lemma_changed_one(slots, self.slots@, at as int);
            assert(self@ =~= with_target(
                old(self)@,
                id,
                |monitor: Monitor| (Monitor { group, ..monitor }),
            ));
        }
    }

    /// Changes the name shown for the monitor named `id`.
    pub fn rename(&mut self, id: u64, display_name: &str)
        requires
            old(self).wf(),
            has_target(old(self)@, id),
        ensures
            final(self).wf(),
            final(self).next_id() == old(self).next_id(),
            final(self).started() == old(self).started(),
            final(self)@ == with_target(
                old(self)@,
                id,
                |monitor: Monitor| (Monitor { hostname: display_name@, ..monitor }),
            ),
    {
        let at = self.find(id).unwrap();
        let ghost slots = self.slots@;
        self.slots[at].window.rename(display_name);
        proof {
            Self::lemma_changed_one(slots, self.slots@, at as int);
            assert(self@ =~= with_target(
                old(self)@,
                id,
                |monitor: Monitor| (Monitor { hostname: display_name@, ..monitor }),
            ));
        }
    }

    /// Changes the address that the monitor named `id` probes next.
    pub fn set_address(&mut self, id: u64, address_spec: &str)
        requires
            old(self).wf(),
            has_target(old(self)@, id),
        ensures
            final(self).wf(),
            final(self).next_id() == old(self).next_id(),
            final(self).started() == old(self).started(),
            final(self)@ == with_target(
                old(self)@,
                id,
                |monitor: Monitor| (Monitor { address: address_spec@, ..monitor }),
            ),
    {
        let at = self.find(id).unwrap();
        let ghost slots = self.slots@;
        self.slots[at].window.set_address(address_spec);
        proof {
            Self::lemma_changed_one(slots, self.slots@, at as int);
            assert(self@ =~= with_target(
                old(self)@,
                id,
                |monitor: Monitor| (Monitor { address: address_spec@, ..monitor }),
            ));
        }
    }

    /// Replaces the notes of the monitor named `id`.
    pub fn set_scratchpad(&mut self, id: u64, notes: &str)
        requires
            old(self).wf(),
            has_target(old(self)@, id),
        ensures
            final(self).wf(),
            final(self).next_id() == old(self).next_id(),
            final(self).started() == old(self).started(),
            final(self)@ == with_target(
                old(self)@,
                id,
                |monitor: Monitor| (Monitor { scratchpad: notes@, ..monitor }),
            ),
    {
        let at = self.find(id).unwrap();
        let ghost slots = self.slots@;
        self.slots[at].window.set_scratchpad(notes);
        proof {
            Self::lemma_changed_one(slots, self.slots@, at as int);
            assert(self@ =~= with_target(
                old(self)@,
                id,
                |monitor: Monitor| (Monitor { scratchpad: notes@, ..monitor }),
            ));
        }
    }

    /// Shows or hides the plot of the monitor named `id`.
    pub fn set_show_plot(&mut self, id: u64, show: bool)
        requires
            old(self).wf(),
            has_target(old(self)@, id),
        ensures
            final(self).wf(),
            final(self).next_id() == old(self).next_id(),
            final(self).started() == old(self).started(),
            final(self)@ == with_target(
                old(self)@,
                id,
                |monitor: Monitor| (Monitor { show_plot: show, ..monitor }),
            ),
    {
        let at = self.find(id).unwrap();
        let ghost slots = self.slots@;
        self.slots[at].window.set_show_plot(show);
        proof {
            Self::lemma_changed_one(slots, self.slots@, at as int);
            assert(self@ =~= with_target(
                old(self)@,
                id,
                |monitor: Monitor| (Monitor { show_plot: show, ..monitor }),
            ));
        }
    }

    /// Shows or hides the notes of the monitor named `id`.
    pub fn set_show_scratchpad(&mut self, id: u64, show: bool)
        requires
            old(self).wf(),
            has_target(old(self)@, id),
        ensures
            final(self).wf(),
            final(self).next_id() == old(self).next_id(),
            final(self).started() == old(self).started(),
            final(self)@ == with_target(
                old(self)@,
                id,
                |monitor: Monitor| (Monitor { show_scratchpad: show, ..monitor }),
            ),
    {
        let at = self.find(id).unwrap();
        let ghost slots = self.slots@;
        self.slots[at].window.set_show_scratchpad(show);
        proof {
            Self::lemma_changed_one(slots, self.slots@, at as int);
            assert(self@ =~= with_target(
                old(self)@,
                id,
                |monitor: Monitor| (Monitor { show_scratchpad: show, ..monitor }),
            ));
        }
    }

    /// Marks the panel of the monitor named `id` as closed; the next
    /// `sweep` removes the monitor.
    pub fn close(&mut self, id: u64)
        requires
            old(self).wf(),
            has_target(old(self)@, id),
        ensures
            final(self).wf(),
            final(self).next_id() == old(self).next_id(),
            final(self).started() == old(self).started(),
            final(self)@ == with_target(
                old(self)@,
                id,
                |monitor: Monitor| (Monitor { open: false, ..monitor }),
            ),
    {
        let at = self.find(id).unwrap();
        let ghost slots = self.slots@;
        self.slots[at].window.close();
        proof {
            Self::lemma_changed_one(slots, self.slots@, at as int);
            assert(self@ =~= with_target(
                old(self)@,
                id,
                |monitor: Monitor| (Monitor { open: false, ..monitor }),
            ));
        }
    }

    /// The plottable series of the monitor named `id`: the runs of
    /// consecutive successes among its last `window` probes.
    pub fn history_segments(&self, id: u64, window: usize) -> (segments: Vec<Vec<(usize, Duration)>>)
        requires
            self.wf(),
            has_target(self@, id),
        ensures
            segments_view(segments@) == segments_of(
                windowed(monitor_of(self@, id).history, window as nat),
            ),
    {
        let at = self.find(id).unwrap();
        assert(self@[at as int] == self.slots@[at as int]@);
        history_segments(self.slots[at].window.history(), window)
    }

    /// What the presentation layer shows of every live monitor, in order
    /// of creation.
    pub fn list_targets(&self) -> (listing: Vec<TargetInfo>)
        ensures
            listing@.len() == self@.len(),
            forall|i: int| 0 <= i < listing@.len() ==> (#[trigger] listing@[i]).lists(self@[i]),
            forall|i: int| 0 <= i < listing@.len() ==> (#[trigger] listing@[i]).group < GROUP_COUNT,
    {
        let mut listing: Vec<TargetInfo> = Vec::new();
        let mut at: usize = 0;
        while at < self.slots.len()
            invariant
                0 <= at <= self.slots@.len(),
                self@.len() == self.slots@.len(),
                listing@.len() == at,
                forall|i: int| 0 <= i < at ==> (#[trigger] listing@[i]).lists(self@[i]),
                forall|i: int| 0 <= i < at ==> (#[trigger] listing@[i]).group < GROUP_COUNT,
            decreases self.slots@.len() - at,
        {
            assert(self@[at as int] == self.slots@[at as int]@);
            let window = &self.slots[at].window;
            listing.push(
                TargetInfo {
                    id: self.slots[at].id,
                    display_name: window.hostname().to_owned(),
                    address_spec: window.address().to_owned(),
                    group: window.group(),
                    scanning: window.scanning(),
                    current_status: window.success(),
                },
            );
            at += 1;
        }
        listing
    }

    /// Removes every monitor whose panel the operator has closed.
    pub fn sweep(&mut self)
        requires
            old(self).wf(),
        ensures
            final(self).wf(),
            final(self).next_id() == old(self).next_id(),
            final(self).started() == old(self).started(),
            final(self)@ == open_targets(old(self)@),
    {
        let ghost before = self@;
        let ghost mut seen: int = 0;
        let mut at: usize = 0;
        assert(before.take(0) =~= Seq::empty());
        assert(open_targets(before.take(0)) =~= Seq::empty()) by {
            reveal(Seq::filter);
        }
        assert(self@ =~= open_targets(before.take(0)) + before.skip(0));
        while at < self.slots.len()
            invariant
                self.wf(),
                self.next_id == old(self).next_id,
                self.clock == old(self).clock,
                self@.len() == self.slots@.len(),
                0 <= seen <= before.len(),
                at == open_targets(before.take(seen)).len(),
                self@ == open_targets(before.take(seen)) + before.skip(seen),
            decreases before.len() - seen,
        {
            let ghost current = self@;
            assert(current[at as int] == before[seen]);
            assert(self@[at as int] == self.slots@[at as int]@);
            proof {
                lemma_open_targets_step(before, seen);
            }
            if self.slots[at].window.is_open() {
                at += 1;
                assert(self@ =~= open_targets(before.take(seen + 1)) + before.skip(seen + 1));
            } else {
                self.slots.remove(at);
                proof {
                    assert(self@ =~= current.remove(at as int));
                    assert(self@ =~= open_targets(before.take(seen + 1)) + before.skip(seen + 1));
                    assert forall|i: int, j: int| 0 <= i < j < self@.len() implies (
                    #[trigger] self@[i]).0 < (#[trigger] self@[j]).0 by {
                        let from = if i < at { i } else { i + 1 };
                        let to = if j < at { j } else { j + 1 };
                        assert(self@[i] == current[from]);
                        assert(self@[j] == current[to]);
                    }
                    assert forall|i: int| 0 <= i < self@.len() implies (#[trigger] self@[i]).0
                        < self.next_id() by {
                        let from = if i < at { i } else { i + 1 };
                        assert(self@[i] == current[from]);
                    }
                }
            }
            proof {
                seen = seen + 1;
            }
        }
        assert(before.take(seen) =~= before);
        assert(self@ =~= open_targets(before));
    }

    /// The present instant of the registry's own clock.
    pub fn now(&self) -> (now: u64)
        ensures
            now >= self.started(),
    {
        self.clock.now()
    }

    /// Ticks every live monitor at the present instant, as `tick_all`
    /// does at a given one.
    pub fn update(&mut self) -> (requests: Vec<ProbeRequest>)
        requires
            old(self).wf(),
        ensures
            final(self).wf(),
            final(self).next_id() == old(self).next_id(),
            final(self).started() == old(self).started(),
            exists|now: u64|
                now >= old(self).started() && final(self)@ == #[trigger] ticked_all(old(self)@, now)
                    && requests_view(requests@) == due_requests(old(self)@, now),
    {
        let now = self.now();
        self.tick_all(now)
    }

    /// Applies the outcome of a probe that has just completed, as
    /// `complete` does at a given instant.
    pub fn record(&mut self, id: u64, outcome: Pong) -> (applied: bool)
        requires
            old(self).wf(),
        ensures
            final(self).wf(),
            final(self).next_id() == old(self).next_id(),
            final(self).started() == old(self).started(),
            applied == has_target(old(self)@, id),
            exists|now: u64|
                now >= old(self).started() && final(self)@ == #[trigger] completed_target(
                    old(self)@,
                    id,
                    outcome,
                    now,
                ),
    {
        let now = self.now();
        self.complete(id, outcome, now)
    }
}

impl Default for PingApp {
    /// A registry with the three initial monitors.
    fn default() -> (app: Self)
        ensures
            app.wf(),
            app@ == initial_targets(),
            app.next_id() == 3,
            app.started() == 0,
    {
        PingApp::new()
    }
}

} // verus!
