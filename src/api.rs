use crate::channel::Channel;
use crate::geometry::Texture;
use crate::messages::{Event, Msg};
use std::time::{Duration, Instant};
use vstd::prelude::*;

verus! {

#[verifier::external_type_specification]
#[verifier::external_body]
pub struct ExInstant(Instant);

/// Relies on Instant::now: a reading of the monotonic clock.
#[verifier::external_body]
fn clock_now() -> Instant {
    Instant::now()
}

/// Relies on Instant::elapsed: the time since `start`.
#[verifier::external_body]
fn elapsed_since(start: &Instant) -> Duration {
    start.elapsed()
}

/// What Duration::as_nanos returns for `d`: a function of `d` alone.
pub uninterp spec fn nanos_of(d: Duration) -> u128;

/// Relies on Duration::as_nanos: the duration as a whole number of
/// nanoseconds.
#[verifier::external_body]
fn whole_nanos(d: &Duration) -> (r: u128)
    ensures
        r == nanos_of(*d),
{
    d.as_nanos()
}

/// The decay time of a new handle: one second, in nanoseconds.
pub const DEFAULT_DECAY_NANOS: u128 = 1_000_000_000;

/// The kinds of event that the handle's queries take out of its buffer.
#[derive(Clone, Copy, Debug, PartialEq, Eq, Structural)]
pub enum EventKind {
    Resize,
    Redraw,
    MouseMove,
    MouseButton,
}

pub open spec fn of_kind(e: Event, k: EventKind) -> bool {
    match k {
        EventKind::Resize => e is Resize,
        EventKind::Redraw => e is Redraw,
        EventKind::MouseMove => e is MouseMove,
        EventKind::MouseButton => e is MouseButton,
    }
}

fn is_of_kind(e: &Event, k: EventKind) -> (r: bool)
    ensures
        r == of_kind(*e, k),
{
    match k {
        EventKind::Resize => matches!(e, Event::Resize(_, _)),
        EventKind::Redraw => matches!(e, Event::Redraw),
        EventKind::MouseMove => matches!(e, Event::MouseMove(_, _)),
        EventKind::MouseButton => matches!(e, Event::MouseButton(_)),
    }
}

/// The events carried by `ms`, in order, each stamped with `now`; other
/// messages are left out.
pub open spec fn stamped(ms: Seq<Msg>, now: u128) -> Seq<(Event, u128)>
    decreases ms.len(),
{
    if ms.len() == 0 {
        Seq::empty()
    } else {
        let init = stamped(ms.drop_last(), now);
        match ms.last() {
            Msg::Event(e) => init.push((e, now)),
            _ => init,
        }
    }
}

/// Whether an event stamped `t` is still fresh at `now`: less than
/// `too_old` has passed since `t` (none has where `t` is later than `now`).
pub open spec fn fresh(t: u128, now: u128, too_old: u128) -> bool {
    now - t < too_old
}

/// The buffered events that are still fresh at `now`, in order.
pub open spec fn keep_fresh(s: Seq<(Event, u128)>, now: u128, too_old: u128) -> Seq<(Event, u128)>
    decreases s.len(),
{
    if s.len() == 0 {
        Seq::empty()
    } else {
        let init = keep_fresh(s.drop_last(), now, too_old);
        if fresh(s.last().1, now, too_old) {
            init.push(s.last())
        } else {
            init
        }
    }
}

/// The buffered events that are not of kind `k`, in order.
pub open spec fn keep_other(s: Seq<(Event, u128)>, k: EventKind) -> Seq<(Event, u128)>
    decreases s.len(),
{
    if s.len() == 0 {
        Seq::empty()
    } else {
        let init = keep_other(s.drop_last(), k);
        if of_kind(s.last().0, k) {
            init
        } else {
            init.push(s.last())
        }
    }
}

/// The buffered events of kind `k`, in order, without their stamps.
pub open spec fn of_kind_in(s: Seq<(Event, u128)>, k: EventKind) -> Seq<Event>
    decreases s.len(),
{
    if s.len() == 0 {
        Seq::empty()
    } else {
        let init = of_kind_in(s.drop_last(), k);
        if of_kind(s.last().0, k) {
            init.push(s.last().0)
        } else {
            init
        }
    }
}

/// The size of the last resize among `es`.
pub open spec fn last_resize(es: Seq<Event>) -> Option<(u32, u32)>
    decreases es.len(),
{
    if es.len() == 0 {
        None
    } else {
        match es.last() {
            Event::Resize(w, h) => Some((w, h)),
            _ => last_resize(es.drop_last()),
        }
    }
}

/// The positions of the mouse moves among `es`, in order.
pub open spec fn move_positions(es: Seq<Event>) -> Seq<(u32, u32)>
    decreases es.len(),
{
    if es.len() == 0 {
        Seq::empty()
    } else {
        let init = move_positions(es.drop_last());
        match es.last() {
            Event::MouseMove(x, y) => init.push((x, y)),
            _ => init,
        }
    }
}

/// The buttons of the mouse presses among `es`, in order.
pub open spec fn pressed_buttons(es: Seq<Event>) -> Seq<u32>
    decreases es.len(),
{
    if es.len() == 0 {
        Seq::empty()
    } else {
        let init = pressed_buttons(es.drop_last());
        match es.last() {
            Event::MouseButton(b) => init.push(b),
            _ => init,
        }
    }
}

/// A query takes out only events of its own kind: after the events of kind
/// `k1` are taken, those of any other kind `k2` are all still there, in order.
pub proof fn lemma_query_leaves_other_kinds(s: Seq<(Event, u128)>, k1: EventKind, k2: EventKind)
    requires
        k1 != k2,
    ensures
        of_kind_in(keep_other(s, k1), k2) == of_kind_in(s, k2),
    decreases s.len(),
{
    if s.len() > 0 {
        let init = s.drop_last();
        lemma_query_leaves_other_kinds(init, k1, k2);
        let rest = keep_other(init, k1);
        if !of_kind(s.last().0, k1) {
            assert(rest.push(s.last()).drop_last() =~= rest);
        }
    }
}

/// Decay is monotone in time: dropping stale events at `n1` and then at a
/// later `n2` leaves what one decay at `n2` leaves, so a repeat at the same
/// instant changes nothing.
pub proof fn lemma_decay_twice(s: Seq<(Event, u128)>, n1: u128, n2: u128, too_old: u128)
    requires
        n1 <= n2,
    ensures
        keep_fresh(keep_fresh(s, n1, too_old), n2, too_old) == keep_fresh(s, n2, too_old),
    decreases s.len(),
{
    if s.len() > 0 {
        let init = s.drop_last();
        lemma_decay_twice(init, n1, n2, too_old);
        let first = keep_fresh(init, n1, too_old);
        if fresh(s.last().1, n1, too_old) {
            assert(first.push(s.last()).drop_last() =~= first);
        }
    }
}

/// A buffered event is returned by the query of its kind exactly once while
/// it is fresh, and by none once it has gone stale.
pub proof fn lemma_fresh_event_returned_once(
    e: Event,
    t: u128,
    k: EventKind,
    now: u128,
    later: u128,
    too_old: u128,
)
    requires
        of_kind(e, k),
    ensures
        ({
            let s = seq![(e, t)];
            let first = keep_fresh(s, now, too_old);
            let second = keep_fresh(keep_other(first, k), later, too_old);
            &&& fresh(t, now, too_old) ==> of_kind_in(first, k) == seq![e]
            &&& of_kind_in(second, k) == Seq::<Event>::empty()
            &&& !fresh(t, now, too_old) ==> of_kind_in(first, k) == Seq::<Event>::empty()
        }),
{
    let s = seq![(e, t)];
    let empty = Seq::<(Event, u128)>::empty();
    assert(s.drop_last() =~= empty);
    assert(s.last() == (e, t));
    let first = keep_fresh(s, now, too_old);
    assert(keep_fresh(empty, now, too_old) == empty);
    assert(keep_other(empty, k) == empty);
    assert(keep_fresh(empty, later, too_old) == empty);
    assert(of_kind_in(empty, k) == Seq::<Event>::empty());
    if fresh(t, now, too_old) {
        assert(first == empty.push((e, t)));
        assert(first =~= s);
        assert(of_kind_in(first, k) =~= seq![e]);
        assert(keep_other(first, k) == empty);
    } else {
        assert(first == empty);
    }
}

/// The handle's buffer and decay time, as contracts speak of them.
pub struct ApiView {
    pub events: Seq<(Event, u128)>,
    pub too_old: u128,
}

/// The user's handle: it sends commands to the coordinator and buffers the
/// events it receives, each stamped with its arrival time in nanoseconds
/// since the handle was made. Events older than the decay time are dropped
/// when a query runs.
pub struct WindowAPI {
    pub events: Vec<(Event, u128)>,
    channel: Channel<Msg>,
    too_old: u128,
    epoch: Instant,
}

impl View for WindowAPI {
    type V = ApiView;

    closed spec fn view(&self) -> ApiView {
        ApiView { events: self.events@, too_old: self.too_old }
    }
}

impl WindowAPI {
    /// A handle on `channel` with an empty buffer and a decay time of one
    /// second.
    pub fn new(channel: Channel<Msg>) -> (r: WindowAPI)
        ensures
            r@ == (ApiView { events: Seq::empty(), too_old: DEFAULT_DECAY_NANOS }),
    {
        let r = WindowAPI {
            events: Vec::new(),
            channel,
            too_old: DEFAULT_DECAY_NANOS,
            epoch: clock_now(),
        };
        assert(r.events@ =~= Seq::<(Event, u128)>::empty());
        r
    }

    /// Sets the decay time.
    pub fn set_decay_nanos(&mut self, nanos: u128)
        ensures
            final(self)@ == (ApiView { too_old: nanos, ..old(self)@ }),
    {
        self.too_old = nanos;
    }

    /// Sets the decay time to `time`, taken in whole nanoseconds.
    pub fn set_decay_time(&mut self, time: Duration)
        ensures
            final(self)@ == (ApiView { too_old: nanos_of(time), ..old(self)@ }),
    {
        let nanos = whole_nanos(&time);
        self.set_decay_nanos(nanos);
    }

    /// Nanoseconds since the handle was made.
    fn now(&self) -> u128 {
        let d = elapsed_since(&self.epoch);
        whole_nanos(&d)
    }

    fn send(&self, msg: Msg) -> (delivered: bool)
        opens_invariants none
        no_unwind
    {
        self.channel.send(msg)
    }

    /// Blocks until the coordinator sends a message and tells whether it was
    /// the handshake's `Start`; `None` when the coordinator is gone first.
    pub fn await_start_once(&self) -> (started: Option<bool>) {
        match self.channel.recv() {
            Some(m) => Some(m.is_start()),
            None => None,
        }
    }

    /// Appends the events carried by `msgs`, stamped `now`; other messages
    /// are ignored.
    pub fn ingest(&mut self, msgs: Vec<Msg>, now: u128)
        ensures
            final(self)@ == (ApiView { events: old(self)@.events + stamped(msgs@, now), ..old(self)@ }),
    {
        let ghost start = self.events@;
        let mut i: usize = 0;
        while i < msgs.len()
            invariant
                i <= msgs@.len(),
                self.events@ == start + stamped(msgs@.take(i as int), now),
                self.too_old == old(self).too_old,
            decreases msgs@.len() - i,
        {
            assert(msgs@.take(i + 1).drop_last() =~= msgs@.take(i as int));
            match &msgs[i] {
                Msg::Event(e) => {
                    self.events.push((*e, now));
                    assert(self.events@ =~= start + stamped(msgs@.take(i + 1), now));
                },
                _ => {
                    assert(self.events@ =~= start + stamped(msgs@.take(i + 1), now));
                },
            }
            i += 1;
        }
        assert(msgs@.take(i as int) =~= msgs@);
    }

    /// Takes in every message that the coordinator has already sent.
    pub fn recv(&mut self)
        ensures
            exists|ms: Seq<Msg>, now: u128|
                final(self)@ == (ApiView { events: old(self)@.events + #[trigger] stamped(ms, now), ..old(self)@ }),
    {
        let msgs = self.channel.try_recv_all();
        let now = self.now();
        self.ingest(msgs, now);
    }

    /// Drops every buffered event that is no longer fresh at `now`.
    pub fn decay_at(&mut self, now: u128)
        ensures
            final(self)@ == (ApiView { events: keep_fresh(old(self)@.events, now, old(self)@.too_old), ..old(self)@ }),
    {
        let ghost s = self.events@;
        let mut kept: Vec<(Event, u128)> = Vec::new();
        let mut i: usize = 0;
        while i < self.events.len()
            invariant
                i <= s.len(),
                self.events@ == s,
                kept@ == keep_fresh(s.take(i as int), now, self.too_old),
            decreases s.len() - i,
        {
            assert(s.take(i + 1).drop_last() =~= s.take(i as int));
            let entry = self.events[i];
            let young = if now >= entry.1 {
                now - entry.1 < self.too_old
            } else {
                true
            };
            if young {
                kept.push(entry);
            }
            i += 1;
        }
        assert(s.take(i as int) =~= s);
        self.events = kept;
    }

    fn decay(&mut self)
        ensures
            exists|now: u128|
                final(self)@ == (ApiView { events: #[trigger] keep_fresh(old(self)@.events, now, old(self)@.too_old), ..old(self)@ }),
    {
        let now = self.now();
        self.decay_at(now);
    }

    /// Takes every buffered event of kind `k` out of the buffer, in order.
    pub fn take_kind(&mut self, k: EventKind) -> (r: Vec<Event>)
        ensures
            r@ == of_kind_in(old(self)@.events, k),
            final(self)@ == (ApiView { events: keep_other(old(self)@.events, k), ..old(self)@ }),
    {
        let ghost s = self.events@;
        let mut kept: Vec<(Event, u128)> = Vec::new();
        let mut taken: Vec<Event> = Vec::new();
        let mut i: usize = 0;
        while i < self.events.len()
            invariant
                i <= s.len(),
                self.events@ == s,
                kept@ == keep_other(s.take(i as int), k),
                taken@ == of_kind_in(s.take(i as int), k),
            decreases s.len() - i,
        {
            assert(s.take(i + 1).drop_last() =~= s.take(i as int));
            let entry = self.events[i];
            if is_of_kind(&entry.0, k) {
                taken.push(entry.0);
            } else {
                kept.push(entry);
            }
            i += 1;
        }
        assert(s.take(i as int) =~= s);
        self.events = kept;
        taken
    }

    /// Takes the resizes out of the buffer; returns the size of the last.
    pub fn take_resized(&mut self) -> (r: Option<(u32, u32)>)
        ensures
            r == last_resize(of_kind_in(old(self)@.events, EventKind::Resize)),
            final(self)@ == (ApiView { events: keep_other(old(self)@.events, EventKind::Resize), ..old(self)@ }),
    {
        let es = self.take_kind(EventKind::Resize);
        let mut r: Option<(u32, u32)> = None;
        let mut i: usize = 0;
        while i < es.len()
            invariant
                i <= es@.len(),
                r == last_resize(es@.take(i as int)),
            decreases es@.len() - i,
        {
            assert(es@.take(i + 1).drop_last() =~= es@.take(i as int));
            match es[i] {
                Event::Resize(w, h) => {
                    r = Some((w, h));
                },
                _ => {},
            }
            i += 1;
        }
        assert(es@.take(i as int) =~= es@);
        r
    }

    /// Takes the redraws out of the buffer; returns whether there was one.
    pub fn take_redrawn(&mut self) -> (r: bool)
        ensures
            r == (of_kind_in(old(self)@.events, EventKind::Redraw).len() > 0),
            final(self)@ == (ApiView { events: keep_other(old(self)@.events, EventKind::Redraw), ..old(self)@ }),
    {
        let es = self.take_kind(EventKind::Redraw);
        es.len() > 0
    }

    /// Takes the mouse moves out of the buffer; returns their positions in
    /// order.
    pub fn take_mouse_moves(&mut self) -> (r: Vec<(u32, u32)>)
        ensures
            r@ == move_positions(of_kind_in(old(self)@.events, EventKind::MouseMove)),
            final(self)@ == (ApiView { events: keep_other(old(self)@.events, EventKind::MouseMove), ..old(self)@ }),
    {
        let es = self.take_kind(EventKind::MouseMove);
        let mut r: Vec<(u32, u32)> = Vec::new();
        let mut i: usize = 0;
        while i < es.len()
            invariant
                i <= es@.len(),
                r@ == move_positions(es@.take(i as int)),
            decreases es@.len() - i,
        {
            assert(es@.take(i + 1).drop_last() =~= es@.take(i as int));
            match es[i] {
                Event::MouseMove(x, y) => {
                    r.push((x, y));
                },
                _ => {},
            }
            i += 1;
        }
        assert(es@.take(i as int) =~= es@);
        r
    }

    /// Takes the mouse presses out of the buffer; returns their buttons in
    /// order.
    pub fn take_mouse_presses(&mut self) -> (r: Vec<u32>)
        ensures
            r@ == pressed_buttons(of_kind_in(old(self)@.events, EventKind::MouseButton)),
            final(self)@ == (ApiView { events: keep_other(old(self)@.events, EventKind::MouseButton), ..old(self)@ }),
    {
        let es = self.take_kind(EventKind::MouseButton);
        let mut r: Vec<u32> = Vec::new();
        let mut i: usize = 0;
        while i < es.len()
            invariant
                i <= es@.len(),
                r@ == pressed_buttons(es@.take(i as int)),
            decreases es@.len() - i,
        {
            assert(es@.take(i + 1).drop_last() =~= es@.take(i as int));
            match es[i] {
                Event::MouseButton(b) => {
                    r.push(b);
                },
                _ => {},
            }
            i += 1;
        }
        assert(es@.take(i as int) =~= es@);
        r
    }

    /// Takes in what the coordinator sent, drops stale events, then takes
    /// the resizes out; returns the size of the last.
    pub fn resized(&mut self) -> (r: Option<(u32, u32)>)
        ensures
            exists|ms: Seq<Msg>, t1: u128, t2: u128|
                {
                    let mid = #[trigger] keep_fresh(old(self)@.events + stamped(ms, t1), t2, old(self)@.too_old);
                    &&& r == last_resize(of_kind_in(mid, EventKind::Resize))
                    &&& final(self)@ == (ApiView { events: keep_other(mid, EventKind::Resize), ..old(self)@ })
                },
    {
        self.recv();
        self.decay();
        self.take_resized()
    }

    /// Takes in what the coordinator sent, drops stale events, then takes
    /// the redraws out; returns whether there was one.
    pub fn redrawn(&mut self) -> (r: bool)
        ensures
            exists|ms: Seq<Msg>, t1: u128, t2: u128|
                {
                    let mid = #[trigger] keep_fresh(old(self)@.events + stamped(ms, t1), t2, old(self)@.too_old);
                    &&& r == (of_kind_in(mid, EventKind::Redraw).len() > 0)
                    &&& final(self)@ == (ApiView { events: keep_other(mid, EventKind::Redraw), ..old(self)@ })
                },
    {
        self.recv();
        self.decay();
        self.take_redrawn()
    }

    /// Takes in what the coordinator sent, drops stale events, then takes
    /// the mouse moves out; returns their positions in order.
    pub fn mouse_moves(&mut self) -> (r: Vec<(u32, u32)>)
        ensures
            exists|ms: Seq<Msg>, t1: u128, t2: u128|
                {
                    let mid = #[trigger] keep_fresh(old(self)@.events + stamped(ms, t1), t2, old(self)@.too_old);
                    &&& r@ == move_positions(of_kind_in(mid, EventKind::MouseMove))
                    &&& final(self)@ == (ApiView { events: keep_other(mid, EventKind::MouseMove), ..old(self)@ })
                },
    {
        self.recv();
        self.decay();
        self.take_mouse_moves()
    }

    /// Takes in what the coordinator sent, drops stale events, then takes
    /// the mouse presses out; returns their buttons in order.
    pub fn mouse_presses(&mut self) -> (r: Vec<u32>)
        ensures
            exists|ms: Seq<Msg>, t1: u128, t2: u128|
                {
                    let mid = #[trigger] keep_fresh(old(self)@.events + stamped(ms, t1), t2, old(self)@.too_old);
                    &&& r@ == pressed_buttons(of_kind_in(mid, EventKind::MouseButton))
                    &&& final(self)@ == (ApiView { events: keep_other(mid, EventKind::MouseButton), ..old(self)@ })
                },
    {
        self.recv();
        self.decay();
        self.take_mouse_presses()
    }

    /// Asks the coordinator to redraw; `false` when it is gone.
    pub fn redraw(&self) -> (delivered: bool) {
        self.send(Msg::redraw_request())
    }

    /// Turns the coordinator's handling of window events on or off; `false`
    /// when it is gone.
    pub fn set_event_handling(&self, b: bool) -> (delivered: bool) {
        self.send(Msg::event_handling_request(b))
    }

    /// Registers `texture` at `id`, replacing what was there; `false` when
    /// the coordinator is gone.
    pub fn set_texture(&self, id: i32, texture: Texture) -> (delivered: bool) {
        self.send(Msg::texture_request(id, texture))
    }

    /// Removes the texture at `id`; `false` when the coordinator is gone.
    pub fn remove_texture(&self, id: i32) -> (delivered: bool) {
        self.send(Msg::removal_request(id))
    }

    /// Asks the coordinator to shut down; `false` when it is gone.
    pub fn exit(&self) -> (delivered: bool)
        opens_invariants none
        no_unwind
    {
        self.send(Msg::exit_request())
    }

    /// Asks the coordinator to resize the window; `false` when it is gone.
    pub fn resize(&self, width: u32, height: u32) -> (delivered: bool) {
        self.send(Msg::resize_request(width, height))
    }
}

impl Drop for WindowAPI {
    /// A dropped handle asks the coordinator to shut down.
    fn drop(&mut self)
        opens_invariants none
        no_unwind
    {
        let _ = self.exit();
    }
}

} // verus!
