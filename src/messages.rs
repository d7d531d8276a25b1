use crate::geometry::{triangles_eq, Texture};
use vstd::prelude::*;

verus! {

/// An event handed to the user side. Key codes are the numeric codes of the
/// windowing layer's virtual keys.
#[derive(Clone, Copy, Debug, PartialEq, Eq, Structural)]
pub enum Event {
    Resize(u32, u32),
    Redraw,
    Key(u32),
    MouseMove(u32, u32),
    MouseButton(u32),
    Exit,
    Empty,
}

/// A raw input event, as the OS event loop reports it to the coordinator.
#[derive(Clone, Copy, Debug, PartialEq, Eq, Structural)]
pub enum EvMSG {
    Resize(u32, u32),
    Redraw,
    Key(u32),
    MouseMove(u32, u32),
    MouseButton(u32),
    Exit,
    Stop,
}

/// A message between the coordinator and the user handle.
pub enum Msg {
    Start,
    Event(Event),
    Exit,
    SetEventHandling(bool),
    Resize(u32, u32),
    Redraw,
    SetTexture(i32, Texture),
    RemoveTexture(i32),
}

impl Msg {
    /// The command that asks the coordinator to redraw.
    pub fn redraw_request() -> (m: Msg)
        ensures
            m is Redraw,
    {
        Msg::Redraw
    }

    /// The command that turns the coordinator's event handling on or off.
    pub fn event_handling_request(b: bool) -> (m: Msg)
        ensures
            m == Msg::SetEventHandling(b),
    {
        Msg::SetEventHandling(b)
    }

    /// The command that registers `texture` at `id`.
    pub fn texture_request(id: i32, texture: Texture) -> (m: Msg)
        ensures
            m == Msg::SetTexture(id, texture),
    {
        Msg::SetTexture(id, texture)
    }

    /// The command that removes the texture at `id`.
    pub fn removal_request(id: i32) -> (m: Msg)
        ensures
            m == Msg::RemoveTexture(id),
    {
        Msg::RemoveTexture(id)
    }

    /// The command that asks the coordinator to shut down.
    pub fn exit_request() -> (m: Msg)
        ensures
            m is Exit,
        opens_invariants none
        no_unwind
    {
        Msg::Exit
    }

    /// The command that resizes the window to `width` x `height`.
    pub fn resize_request(width: u32, height: u32) -> (m: Msg)
        ensures
            m == Msg::Resize(width, height),
    {
        Msg::Resize(width, height)
    }

    /// Field-wise equality. Two texture commands are equal where their ids
    /// are and their textures yield equal triangle lists right now; what a
    /// texture yields is up to its own code.
    pub fn eq(&self, other: &Msg) -> (r: bool)
        ensures
            !(*self is SetTexture && *other is SetTexture) ==> r == (*self == *other),
            (*self is SetTexture && *other is SetTexture) ==> (r ==> self->SetTexture_0
                == other->SetTexture_0),
    {
        match (self, other) {
            (Msg::Start, Msg::Start) => true,
            (Msg::Event(a), Msg::Event(b)) => *a == *b,
            (Msg::Exit, Msg::Exit) => true,
            (Msg::SetEventHandling(a), Msg::SetEventHandling(b)) => *a == *b,
            (Msg::Resize(w, h), Msg::Resize(w2, h2)) => *w == *w2 && *h == *h2,
            (Msg::Redraw, Msg::Redraw) => true,
            (Msg::SetTexture(id, t), Msg::SetTexture(id2, t2)) => {
                *id == *id2 && triangles_eq(&t.triangles(), &t2.triangles())
            },
            (Msg::RemoveTexture(a), Msg::RemoveTexture(b)) => *a == *b,
            _ => false,
        }
    }

    /// Whether this is the handshake message.
    pub fn is_start(&self) -> (r: bool)
        ensures
            r == (*self is Start),
    {
        match self {
            Msg::Start => true,
            _ => false,
        }
    }
}

/// Whether a waiting side is still blocked after reading `s` in order: it is
/// released by the first `Start` and by nothing else.
pub open spec fn still_waiting(s: Seq<Msg>) -> bool
    decreases s.len(),
{
    if s.len() == 0 {
        true
    } else {
        still_waiting(s.drop_last()) && !(s.last() is Start)
    }
}

/// The handshake releases a waiting side exactly when a `Start` has been
/// read, whatever other messages came before it.
pub proof fn lemma_handshake_released_by_start(s: Seq<Msg>)
    ensures
        still_waiting(s) <==> forall|i: int| 0 <= i < s.len() ==> !(#[trigger] s[i] is Start),
    decreases s.len(),
{
    if s.len() > 0 {
        let init = s.drop_last();
        lemma_handshake_released_by_start(init);
        if still_waiting(s) {
            assert forall|i: int| 0 <= i < s.len() implies !(#[trigger] s[i] is Start) by {
                if i < s.len() - 1 {
                    assert(init[i] == s[i]);
                }
            }
        } else if !still_waiting(init) {
            let i = choose|i: int| 0 <= i < init.len() && (#[trigger] init[i] is Start);
            assert(s[i] == init[i]);
        } else {
            assert(s[s.len() - 1] is Start);
        }
    }
}

/// The event that a raw input event translates to.
pub open spec fn translation(ev: EvMSG) -> Event {
    match ev {
        EvMSG::Resize(w, h) => Event::Resize(w, h),
        EvMSG::Redraw => Event::Redraw,
        EvMSG::Key(k) => Event::Key(k),
        EvMSG::MouseMove(x, y) => Event::MouseMove(x, y),
        EvMSG::MouseButton(b) => Event::MouseButton(b),
        EvMSG::Exit => Event::Exit,
        EvMSG::Stop => Event::Empty,
    }
}

/// Translates a raw input event.
pub fn translate(ev: EvMSG) -> (r: Event)
    ensures
        r == translation(ev),
{
    match ev {
        EvMSG::Resize(w, h) => Event::Resize(w, h),
        EvMSG::Redraw => Event::Redraw,
        EvMSG::Key(k) => Event::Key(k),
        EvMSG::MouseMove(x, y) => Event::MouseMove(x, y),
        EvMSG::MouseButton(b) => Event::MouseButton(b),
        EvMSG::Exit => Event::Exit,
        EvMSG::Stop => Event::Empty,
    }
}

/// Whether the OS event loop stops on what it polled from the coordinator.
pub open spec fn os_stops(polled: Option<EvMSG>) -> bool {
    polled == Some(EvMSG::Exit)
}

/// The OS event loop's decision on what it polled from the coordinator.
pub fn os_loop_should_exit(polled: &Option<EvMSG>) -> (r: bool)
    ensures
        r == os_stops(*polled),
{
    match polled {
        Some(EvMSG::Exit) => true,
        _ => false,
    }
}

} // verus!
