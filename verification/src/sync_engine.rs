use vstd::prelude::*;
use crate::error::{AppError, is_protocol_error};
use crate::protocol::{
    ClipboardEvent, ClipboardKind, EventView, Version, WireMessage, WireView, event_fault, is_random_uuid,
    oversize_message, version_lt, MAX_PAYLOAD_BYTES,
};
use crate::digest::blake3_digest;
use crate::seen::{
    SeenEvents, window_after, SEEN_EVENT_CAPACITY, offer_all, fresh_count,
    lemma_remembered_until_capacity,
};

verus! {

/// What the engine made of an event from a peer.
#[derive(Debug, Clone, Copy, PartialEq, Eq, Structural)]
pub enum RemoteEventResult {
    Duplicate,
    ForwardOnly,
    ApplyAndForward,
}

/// The clock after a local change: one more, saturating at the maximum.
pub open spec fn clock_after_local(clock: u64) -> u64 {
    if clock == u64::MAX { clock } else { (clock + 1) as u64 }
}

/// The clock after an event with counter `counter` arrives: one more than the
/// larger of the two, saturating at the maximum.
pub open spec fn clock_after_remote(clock: u64, counter: u64) -> u64 {
    clock_after_local(if clock >= counter { clock } else { counter })
}

/// Whether `ev` replaces `current` as the clipboard's content: it does when
/// there is none, or when its version comes after the current one's.
pub open spec fn supersedes(ev: EventView, current: Option<EventView>) -> bool {
    match current {
        None => true,
        Some(c) => version_lt(c.version, ev.version),
    }
}

/// The content after `ev` has been considered.
pub open spec fn adopt(current: Option<EventView>, ev: EventView) -> Option<EventView> {
    if supersedes(ev, current) { Some(ev) } else { current }
}

/// Whether a peer that knows `known` should be sent `current`.
pub open spec fn state_worth_sending(current: Option<EventView>, known: Option<Version>) -> bool {
    match (current, known) {
        (Some(_), None) => true,
        (None, _) => false,
        (Some(c), Some(k)) => version_lt(k, c.version),
    }
}

/// The value of a `SyncEngine`.
pub struct EngineView {
    pub device: u128,
    pub clock: u64,
    pub current: Option<EventView>,
    pub window: Seq<u128>,
}

/// What the engine answers to a valid event `ev`; `None` when `ev` is refused.
pub open spec fn remote_result(s: EngineView, ev: EventView) -> Option<RemoteEventResult> {
    if event_fault(ev) is Some {
        None
    } else if s.window.contains(ev.event_id) {
        Some(RemoteEventResult::Duplicate)
    } else if supersedes(ev, s.current) {
        Some(RemoteEventResult::ApplyAndForward)
    } else {
        Some(RemoteEventResult::ForwardOnly)
    }
}

/// The engine's state after it is offered `ev`.
pub open spec fn state_after_remote(s: EngineView, ev: EventView) -> EngineView {
    if event_fault(ev) is Some {
        s
    } else {
        EngineView {
            device: s.device,
            clock: clock_after_remote(s.clock, ev.version.counter),
            current: if !s.window.contains(ev.event_id) {
                adopt(s.current, ev)
            } else {
                s.current
            },
            window: window_after(s.window, ev.event_id),
        }
    }
}

/// The clock is never behind the counter of the current event.
pub open spec fn lamport_ok(s: EngineView) -> bool {
    s.current matches Some(c) ==> c.version.counter <= s.clock
}

/// One call on an engine, by its outcome: a local event made, a local
/// payload refused, or an event offered by a peer.
pub enum EngineStep {
    Local(EventView),
    LocalRefused,
    Remote(EventView),
}

/// The engine's state after a step.
pub open spec fn state_after_step(s: EngineView, step: EngineStep) -> EngineView {
    match step {
        EngineStep::Local(ev) => EngineView {
            device: s.device,
            clock: clock_after_local(s.clock),
            current: Some(ev),
            window: window_after(s.window, ev.event_id),
        },
        EngineStep::LocalRefused => EngineView {
            device: s.device,
            clock: clock_after_local(s.clock),
            current: s.current,
            window: s.window,
        },
        EngineStep::Remote(ev) => state_after_remote(s, ev),
    }
}

/// Whether the engine in state `s` can take `step`: a local event is stamped
/// with the engine's device and the advanced clock.
pub open spec fn step_possible(s: EngineView, step: EngineStep) -> bool {
    match step {
        EngineStep::Local(ev) => ev.version == (Version {
            counter: clock_after_local(s.clock),
            device_id: s.device,
        }),
        _ => true,
    }
}

/// The state after a sequence of steps.
pub open spec fn run(s: EngineView, steps: Seq<EngineStep>) -> EngineView
    decreases steps.len(),
{
    if steps.len() == 0 {
        s
    } else {
        state_after_step(run(s, steps.drop_last()), steps.last())
    }
}

/// Every step of the sequence is one the engine could take when it came.
pub open spec fn history_possible(s: EngineView, steps: Seq<EngineStep>) -> bool {
    forall|i: int| 0 <= i < steps.len() ==> step_possible(run(s, steps.take(i)), #[trigger] steps[i])
}

/// The counter of the event that a step brought into the engine, if any.
pub open spec fn taken_counter(step: EngineStep) -> Option<u64> {
    match step {
        EngineStep::Local(ev) => Some(ev.version.counter),
        EngineStep::Remote(ev) => if event_fault(ev) is None {
            Some(ev.version.counter)
        } else {
            None
        },
        EngineStep::LocalRefused => None,
    }
}

/// The replicated clipboard state of one device: a Lamport clock, the latest
/// event, and the ids of recent events.
#[derive(Debug)]
pub struct SyncEngine {
    device_id: u128,
    logical_clock: u64,
    current: Option<ClipboardEvent>,
    seen: SeenEvents,
}

impl View for SyncEngine {
    type V = EngineView;

    open spec fn view(&self) -> EngineView {
        EngineView {
            device: self.device(),
            clock: self.clock(),
            current: self.current_event(),
            window: self.seen_window(),
        }
    }
}

impl SyncEngine {
    pub closed spec fn device(&self) -> u128 {
        self.device_id
    }

    pub closed spec fn clock(&self) -> u64 {
        self.logical_clock
    }

    /// The latest event, by value.
    pub closed spec fn current_event(&self) -> Option<EventView> {
        match self.current {
            Some(e) => Some(e@),
            None => None,
        }
    }

    /// The ids of the remembered events, oldest first.
    pub closed spec fn seen_window(&self) -> Seq<u128> {
        self.seen.window()
    }

    /// The window of ids is well formed, and the clock is never behind the
    /// current event's counter.
    pub closed spec fn wf(&self) -> bool {
        &&& self.seen.wf()
        &&& lamport_ok(self@)
    }

    pub fn new(device_id: u128) -> (e: Self)
        ensures
            e.wf(),
            e.device() == device_id,
            e.clock() == 0,
            e.current_event() is None,
            e.seen_window() == Seq::<u128>::empty(),
    {
        SyncEngine { device_id, logical_clock: 0, current: None, seen: SeenEvents::new() }
    }

    /// The latest event, if any.
    pub fn current(&self) -> (r: Option<&ClipboardEvent>)
        ensures
            r is Some <==> self.current_event() is Some,
            r matches Some(e) ==> e@ == self.current_event()->0,
    {
        self.current.as_ref()
    }

    /// Records a change of the local clipboard: the clock advances (also when
    /// the payload is refused), and the new event becomes the current one and
    /// is remembered.
    pub fn local_event(&mut self, kind: ClipboardKind, payload: Vec<u8>) -> (r: Result<
        ClipboardEvent,
        AppError,
    >)
        requires
            old(self).wf(),
        ensures
            final(self).wf(),
            final(self).device() == old(self).device(),
            final(self).clock() == clock_after_local(old(self).clock()),
            r is Err <==> payload@.len() > MAX_PAYLOAD_BYTES,
            r matches Err(e) ==> {
                &&& is_protocol_error(e, oversize_message(payload@.len()))
                &&& final(self).current_event() == old(self).current_event()
                &&& final(self).seen_window() == old(self).seen_window()
            },
            r matches Ok(ev) ==> {
                &&& ev@.origin == old(self).device()
                &&& ev@.version == (Version {
                    counter: final(self).clock(),
                    device_id: old(self).device(),
                })
                &&& ev@.kind == kind
                &&& ev@.payload == payload@
                &&& ev@.digest == blake3_digest(payload@)
                &&& is_random_uuid(ev@.event_id)
                &&& final(self).current_event() == Some(ev@)
                &&& final(self).seen_window() == window_after(old(self).seen_window(), ev@.event_id)
                &&& final(self).seen_window().contains(ev@.event_id)
            },
            r matches Ok(ev) ==> step_possible(old(self)@, EngineStep::Local(ev@)),
            r matches Ok(ev) ==> final(self)@ == state_after_step(old(self)@, EngineStep::Local(ev@)),
            r is Err ==> final(self)@ == state_after_step(old(self)@, EngineStep::LocalRefused),
            r matches Ok(ev) ==> (old(self).clock() < u64::MAX && old(self).current_event() is Some ==> version_lt(
                old(self).current_event()->0.version,
                ev@.version,
            )),
    {
        self.logical_clock = self.logical_clock.saturating_add(1);
        let event = match ClipboardEvent::new(self.device_id, self.logical_clock, kind, payload) {
            Ok(event) => event,
            Err(e) => return Err(e),
        };
        self.seen.insert(event.event_id);
        self.current = Some(event.clone());
        Ok(event)
    }

    /// Takes an event from a peer: an invalid event is refused and changes
    /// nothing; otherwise the clock passes the event's counter, an event
    /// already seen is a duplicate, and a new one is remembered and becomes the
    /// current one when its version comes after the current one's.
    pub fn accept_remote(&mut self, event: ClipboardEvent) -> (r: Result<
        RemoteEventResult,
        AppError,
    >)
        requires
            old(self).wf(),
        ensures
            final(self).wf(),
            final(self).device() == old(self).device(),
            r is Err <==> event_fault(event@) is Some,
            r matches Err(e) ==> {
                &&& is_protocol_error(e, event_fault(event@)->0)
                &&& final(self).clock() == old(self).clock()
                &&& final(self).current_event() == old(self).current_event()
                &&& final(self).seen_window() == old(self).seen_window()
            },
            r is Ok ==> final(self).clock() == clock_after_remote(
                old(self).clock(),
                event@.version.counter,
            ),
            r is Ok ==> final(self).seen_window() == window_after(
                old(self).seen_window(),
                event@.event_id,
            ),
            r is Ok ==> final(self).seen_window().contains(event@.event_id),
            final(self)@ == state_after_remote(old(self)@, event@),
            match remote_result(old(self)@, event@) {
                Some(res) => r == Ok::<RemoteEventResult, AppError>(res),
                None => r is Err,
            },
            r == Ok::<RemoteEventResult, AppError>(RemoteEventResult::Duplicate) <==> (
            event_fault(event@) is None && old(self).seen_window().contains(event@.event_id)),
            r == Ok::<RemoteEventResult, AppError>(RemoteEventResult::Duplicate) ==> final(self).current_event() == old(self).current_event(),
            r == Ok::<RemoteEventResult, AppError>(RemoteEventResult::ApplyAndForward) <==> (
            event_fault(event@) is None && !old(self).seen_window().contains(event@.event_id)
                && supersedes(event@, old(self).current_event())),
            r == Ok::<RemoteEventResult, AppError>(RemoteEventResult::ApplyAndForward) ==> final(self).current_event() == Some(event@),
            r == Ok::<RemoteEventResult, AppError>(RemoteEventResult::ForwardOnly) ==> final(self).current_event() == old(self).current_event(),
    {
        match event.validate() {
            Err(e) => return Err(e),
            Ok(()) => {},
        }
        let counter = event.version.counter;
        let larger = if self.logical_clock >= counter { self.logical_clock } else { counter };
        self.logical_clock = larger.saturating_add(1);

        if !self.seen.insert(event.event_id) {
            return Ok(RemoteEventResult::Duplicate);
        }

        let newer = match &self.current {
            None => true,
            Some(current) => current.version.precedes(&event.version),
        };
        if newer {
            self.current = Some(event);
            Ok(RemoteEventResult::ApplyAndForward)
        } else {
            Ok(RemoteEventResult::ForwardOnly)
        }
    }

    /// The request for a peer's state, naming the version this engine holds.
    pub fn state_request(&self) -> (m: WireMessage)
        ensures
            m@ == (WireView::StateRequest {
                known: match self.current_event() {
                    Some(e) => Some(e.version),
                    None => None,
                },
            }),
    {
        let known = match &self.current {
            Some(event) => Some(event.version),
            None => None,
        };
        WireMessage::StateRequest { known }
    }

    /// The window of remembered ids never holds an id twice nor grows past
    /// its capacity.
    pub proof fn lemma_window_bounded(&self)
        requires
            self.wf(),
        ensures
            self.seen_window().len() <= SEEN_EVENT_CAPACITY,
            self.seen_window().no_duplicates(),
    {
        self.seen.lemma_window_bounded();
    }

    /// Whether a peer that reports `known` as its latest version should be
    /// sent the current event.
    pub fn should_send_state(&self, known: Option<&Version>) -> (r: bool)
        ensures
            r == state_worth_sending(
                self.current_event(),
                match known {
                    Some(k) => Some(*k),
                    None => None,
                },
            ),
    {
        match (self.current.as_ref(), known) {
            (Some(_), None) => true,
            (None, _) => false,
            (Some(current), Some(known)) => known.precedes(&current.version),
        }
    }
}

/// After an event from a peer, a local change is stamped with a counter
/// greater than the peer's (unless that counter is already the maximum).
pub proof fn lemma_clock_passes_remote(clock: u64, counter: u64)
    requires
        counter < u64::MAX,
    ensures
        clock_after_local(clock_after_remote(clock, counter)) > counter,
        clock_after_remote(clock, counter) >= clock,
{
}

/// The clock never runs backwards, and a local change advances it unless it
/// is saturated.
pub proof fn lemma_clock_monotone(clock: u64, counter: u64)
    ensures
        clock_after_local(clock) >= clock,
        clock < u64::MAX ==> clock_after_local(clock) > clock,
        clock_after_remote(clock, counter) >= clock,
        clock_after_remote(clock, counter) >= counter,
{
}

/// Concurrent updates converge: considering two events with distinct
/// versions in either order leaves the same content, the one with the later
/// version (or the earlier content if that is later still).
pub proof fn lemma_concurrent_updates_commute(current: Option<EventView>, a: EventView, b: EventView)
    requires
        a.version != b.version,
    ensures
        adopt(adopt(current, a), b) == adopt(adopt(current, b), a),
{
}

/// The content never goes back to an earlier version.
pub proof fn lemma_adopt_never_regresses(current: Option<EventView>, ev: EventView)
    ensures
        adopt(current, ev) is Some,
        current matches Some(c) ==> (adopt(current, ev)->0.version == c.version || version_lt(
            c.version,
            adopt(current, ev)->0.version,
        )),
{
}


/// Lamport clock over a history: after any possible sequence of steps the
/// clock has never gone back, is never behind the current event, and is not
/// behind the counter of any event made or taken in along the way.
pub proof fn lemma_lamport_history(s: EngineView, steps: Seq<EngineStep>)
    requires
        lamport_ok(s),
        history_possible(s, steps),
    ensures
        lamport_ok(run(s, steps)),
        run(s, steps).clock >= s.clock,
        forall|i: int| 0 <= i < steps.len() ==> (#[trigger] taken_counter(steps[i]) matches Some(k) ==> k <= run(s, steps).clock),
    decreases steps.len(),
{
    if steps.len() > 0 {
        let p = steps.drop_last();
        assert forall|i: int| 0 <= i < p.len() implies step_possible(run(s, p.take(i)), #[trigger] p[i]) by {
            assert(p.take(i) =~= steps.take(i));
            assert(step_possible(run(s, steps.take(i)), steps[i]));
        }
        lemma_lamport_history(s, p);
        let t = run(s, p);
        assert(steps.take(steps.len() - 1) =~= p);
        assert(step_possible(run(s, steps.take(steps.len() - 1)), steps[steps.len() - 1]));
        let u = run(s, steps);
        assert(u == state_after_step(t, steps.last()));
        assert(u.clock >= t.clock);
        assert forall|i: int| 0 <= i < steps.len() implies (#[trigger] taken_counter(steps[i]) matches Some(k) ==> k <= u.clock) by {
            if i < p.len() {
                assert(steps[i] == p[i]);
                assert(taken_counter(p[i]) matches Some(k) ==> k <= t.clock);
            }
        }
    }
}

/// A local event made after any possible history comes after everything the
/// engine has made or taken in, and after its current event, unless the
/// clock is already at its maximum.
pub proof fn lemma_local_event_is_latest(s: EngineView, steps: Seq<EngineStep>, ev: EventView)
    requires
        lamport_ok(s),
        history_possible(s, steps),
        run(s, steps).clock < u64::MAX,
        step_possible(run(s, steps), EngineStep::Local(ev)),
    ensures
        forall|i: int| 0 <= i < steps.len() ==> (#[trigger] taken_counter(steps[i]) matches Some(k) ==> k < ev.version.counter),
        run(s, steps).current matches Some(c) ==> version_lt(c.version, ev.version),
{
    lemma_lamport_history(s, steps);
}


/// The ids that a sequence of steps offered to the window, in order.
pub open spec fn offered_ids(steps: Seq<EngineStep>) -> Seq<u128>
    decreases steps.len(),
{
    if steps.len() == 0 {
        Seq::empty()
    } else {
        let earlier = offered_ids(steps.drop_last());
        match steps.last() {
            EngineStep::Local(ev) => earlier.push(ev.event_id),
            EngineStep::Remote(ev) => if event_fault(ev) is None {
                earlier.push(ev.event_id)
            } else {
                earlier
            },
            EngineStep::LocalRefused => earlier,
        }
    }
}

/// The window after a sequence of steps is the window after their ids were offered.
pub proof fn lemma_run_window(s: EngineView, steps: Seq<EngineStep>)
    ensures
        run(s, steps).window == offer_all(s.window, offered_ids(steps)),
        run(s, steps).device == s.device,
    decreases steps.len(),
{
    if steps.len() > 0 {
        let p = steps.drop_last();
        lemma_run_window(s, p);
        let o = offered_ids(p);
        match steps.last() {
            EngineStep::Local(ev) => {
                assert(o.push(ev.event_id).drop_last() =~= o);
            },
            EngineStep::Remote(ev) => {
                if event_fault(ev) is None {
                    assert(o.push(ev.event_id).drop_last() =~= o);
                }
            },
            EngineStep::LocalRefused => {},
        }
    }
}

/// An event that came back round a loop is a duplicate and changes nothing,
/// as long as fewer new ids than the window's capacity entered the engine
/// since the event itself did (`s1` is the state right after it did).
pub proof fn lemma_redelivery_is_duplicate(s: EngineView, s1: EngineView, ev: EventView, steps: Seq<EngineStep>)
    requires
        s.window.len() <= SEEN_EVENT_CAPACITY,
        !s.window.contains(ev.event_id),
        s1.window == window_after(s.window, ev.event_id),
        event_fault(ev) is None,
        fresh_count(s1.window, offered_ids(steps)) < SEEN_EVENT_CAPACITY,
    ensures
        run(s1, steps).window.contains(ev.event_id),
        remote_result(run(s1, steps), ev) == Some(RemoteEventResult::Duplicate),
        state_after_remote(run(s1, steps), ev).current == run(s1, steps).current,
{
    lemma_run_window(s1, steps);
    lemma_remembered_until_capacity(s.window, ev.event_id, offered_ids(steps));
}

/// The state after events are offered one after another.
pub open spec fn accept_all(s: EngineView, evs: Seq<EventView>) -> EngineView
    decreases evs.len(),
{
    if evs.len() == 0 {
        s
    } else {
        state_after_remote(accept_all(s, evs.drop_last()), evs.last())
    }
}

/// Events that all validate, with distinct ids and distinct versions.
pub open spec fn distinct_valid_events(evs: Seq<EventView>) -> bool {
    &&& forall|i: int| 0 <= i < evs.len() ==> event_fault(#[trigger] evs[i]) is None
    &&& forall|i: int, j: int|
        0 <= i < evs.len() && 0 <= j < evs.len() && i != j ==> #[trigger] evs[i].event_id != #[trigger] evs[j].event_id
            && evs[i].version != evs[j].version
}

/// `m` is one of `evs` and comes after every other one.
pub open spec fn latest_of(m: EventView, evs: Seq<EventView>) -> bool {
    &&& evs.contains(m)
    &&& forall|i: int| 0 <= i < evs.len() ==> #[trigger] evs[i] == m || version_lt(evs[i].version, m.version)
}

proof fn lemma_window_after_only(w: Seq<u128>, id: u128, x: u128)
    requires
        window_after(w, id).contains(x),
    ensures
        w.contains(x) || x == id,
{
    let w2 = window_after(w, id);
    let k = choose|k: int| 0 <= k < w2.len() && w2[k] == x;
    if !w.contains(id) {
        if w.len() + 1 > SEEN_EVENT_CAPACITY {
            assert(w.push(id)[k + 1] == x);
        } else {
            assert(w.push(id)[k] == x);
        }
    }
}

proof fn lemma_accept_all_latest(s: EngineView, evs: Seq<EventView>)
    requires
        s.current is None,
        s.window.len() == 0,
        distinct_valid_events(evs),
    ensures
        forall|x: u128| accept_all(s, evs).window.contains(x) ==> exists|k: int| 0 <= k < evs.len() && (#[trigger] evs[k]).event_id == x,
        evs.len() == 0 ==> accept_all(s, evs).current is None,
        evs.len() > 0 ==> (accept_all(s, evs).current matches Some(m) && latest_of(m, evs)),
    decreases evs.len(),
{
    if evs.len() > 0 {
        let p = evs.drop_last();
        let e = evs.last();
        assert(distinct_valid_events(p)) by {
            assert forall|i: int| 0 <= i < p.len() implies event_fault(#[trigger] p[i]) is None by {
                assert(p[i] == evs[i]);
            }
            assert forall|i: int, j: int|
                0 <= i < p.len() && 0 <= j < p.len() && i != j implies #[trigger] p[i].event_id != #[trigger] p[j].event_id
                    && p[i].version != p[j].version by {
                assert(p[i] == evs[i] && p[j] == evs[j]);
            }
        }
        lemma_accept_all_latest(s, p);
        let t = accept_all(s, p);
        assert(event_fault(evs[evs.len() - 1]) is None);
        assert(!t.window.contains(e.event_id)) by {
            if t.window.contains(e.event_id) {
                let k = choose|k: int| 0 <= k < p.len() && (#[trigger] p[k]).event_id == e.event_id;
                assert(p[k] == evs[k]);
                assert(evs[k].event_id != evs[evs.len() - 1].event_id);
            }
        }
        let u = accept_all(s, evs);
        assert(u.current == adopt(t.current, e));
        assert forall|x: u128| u.window.contains(x) implies exists|k: int| 0 <= k < evs.len() && (#[trigger] evs[k]).event_id == x by {
            lemma_window_after_only(t.window, e.event_id, x);
            if t.window.contains(x) {
                let k = choose|k: int| 0 <= k < p.len() && (#[trigger] p[k]).event_id == x;
                assert(evs[k] == p[k]);
            } else {
                assert(evs[evs.len() - 1].event_id == x);
            }
        }
        assert(evs[evs.len() - 1] == e);
        if p.len() == 0 {
            assert(u.current == Some(e));
            assert forall|i: int| 0 <= i < evs.len() implies #[trigger] evs[i] == e || version_lt(evs[i].version, e.version) by {
                assert(i == 0);
            }
        } else {
            let c = t.current->0;
            assert(latest_of(c, p));
            let k = choose|k: int| 0 <= k < p.len() && p[k] == c;
            assert(evs[k] == c);
            assert(evs[k].event_id != evs[evs.len() - 1].event_id);
            assert(c.version != e.version);
            if version_lt(c.version, e.version) {
                assert(u.current == Some(e));
                assert forall|i: int| 0 <= i < evs.len() implies #[trigger] evs[i] == e || version_lt(evs[i].version, e.version) by {
                    if i < p.len() {
                        assert(evs[i] == p[i]);
                        assert(p[i] == c || version_lt(p[i].version, c.version));
                    }
                }
            } else {
                assert(u.current == Some(c));
                assert(version_lt(e.version, c.version));
                assert forall|i: int| 0 <= i < evs.len() implies #[trigger] evs[i] == c || version_lt(evs[i].version, c.version) by {
                    if i < p.len() {
                        assert(evs[i] == p[i]);
                        assert(p[i] == c || version_lt(p[i].version, c.version));
                    }
                }
                assert(evs.contains(c));
            }
        }
    }
}

/// Delivery order does not matter: two engines that start empty and are
/// offered the same events (valid, with distinct ids and versions), each in
/// its own order, end with the same current event, the one with the latest
/// version.
pub proof fn lemma_convergence(sa: EngineView, sb: EngineView, a: Seq<EventView>, b: Seq<EventView>)
    requires
        sa.current is None,
        sa.window.len() == 0,
        sb.current is None,
        sb.window.len() == 0,
        distinct_valid_events(a),
        distinct_valid_events(b),
        a.to_set() == b.to_set(),
        a.len() > 0,
    ensures
        accept_all(sa, a).current == accept_all(sb, b).current,
        accept_all(sa, a).current matches Some(m) && latest_of(m, a),
{
    lemma_accept_all_latest(sa, a);
    lemma_accept_all_latest(sb, b);
    assert(a.to_set().contains(a[0]));
    assert(b.len() > 0) by {
        assert(b.to_set().contains(a[0]));
    }
    let ma = accept_all(sa, a).current->0;
    let mb = accept_all(sb, b).current->0;
    assert(a.to_set().contains(mb));
    assert(b.to_set().contains(ma));
    let ia = choose|i: int| 0 <= i < a.len() && a[i] == mb;
    let ib = choose|i: int| 0 <= i < b.len() && b[i] == ma;
    assert(a[ia] == ma || version_lt(a[ia].version, ma.version));
    assert(b[ib] == mb || version_lt(b[ib].version, mb.version));
}

} // verus!
