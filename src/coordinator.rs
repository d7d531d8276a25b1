use crate::geometry::{Texture, Triangle};
use crate::messages::{os_stops, translate, translation, EvMSG, Event, Msg};
use vstd::prelude::*;

verus! {

/// What the coordinator's state lets the presentation layer see of one
/// redraw: the surface size and the triangles in compositing order.
pub struct Frame {
    pub width: u32,
    pub height: u32,
    pub triangles: Vec<Triangle>,
}

/// Work that the coordinator hands to the presentation layer.
pub enum Effect {
    Nothing,
    ResizeSurface(u32, u32),
    Present(Frame),
    Shutdown,
}

/// The coordinator's state: the window size, the texture registry, the
/// forwarding flag and whether it is closing. The registry keeps one entry
/// per id, in order of first insertion; that order is the compositing order,
/// earlier entries drawn over later ones.
pub struct Window {
    pub width: u32,
    pub height: u32,
    textures: Vec<(i32, Texture)>,
    pub event_handling: bool,
    pub closing: bool,
}

/// The coordinator's state as contracts speak of it.
pub struct WindowView {
    pub width: u32,
    pub height: u32,
    pub textures: Seq<(i32, Texture)>,
    pub event_handling: bool,
    pub closing: bool,
}

impl View for Window {
    type V = WindowView;

    closed spec fn view(&self) -> WindowView {
        WindowView {
            width: self.width,
            height: self.height,
            textures: self.textures@,
            event_handling: self.event_handling,
            closing: self.closing,
        }
    }
}

/// No id occurs twice in the registry.
pub open spec fn unique_ids(entries: Seq<(i32, Texture)>) -> bool {
    forall|i: int, j: int|
        0 <= i < j < entries.len() ==> (#[trigger] entries[i]).0 != (#[trigger] entries[j]).0
}

/// The ids of the registry, in order.
pub open spec fn ids(entries: Seq<(i32, Texture)>) -> Seq<i32> {
    entries.map_values(|e: (i32, Texture)| e.0)
}

/// Where `id` stands in the registry, if it is there.
pub open spec fn position(entries: Seq<(i32, Texture)>, id: i32) -> Option<int> {
    if exists|i: int| 0 <= i < entries.len() && #[trigger] entries[i].0 == id {
        Some(choose|i: int| 0 <= i < entries.len() && #[trigger] entries[i].0 == id)
    } else {
        None
    }
}

/// The registry after `texture` is set at `id`: an entry already there is
/// replaced in place, a new one goes last.
pub open spec fn with_texture(entries: Seq<(i32, Texture)>, id: i32, texture: Texture) -> Seq<
    (i32, Texture),
> {
    match position(entries, id) {
        Some(i) => entries.update(i, (id, texture)),
        None => entries.push((id, texture)),
    }
}

/// The registry after the entry at `id`, if any, is removed.
pub open spec fn without_texture(entries: Seq<(i32, Texture)>, id: i32) -> Seq<(i32, Texture)> {
    match position(entries, id) {
        Some(i) => entries.remove(i),
        None => entries,
    }
}

/// The coordinator's state after a raw input event.
pub open spec fn after_raw(v: WindowView, ev: EvMSG) -> WindowView {
    match ev {
        EvMSG::Resize(w, h) => if v.event_handling {
            WindowView { width: w, height: h, ..v }
        } else {
            v
        },
        EvMSG::Exit => WindowView { closing: true, ..v },
        _ => v,
    }
}

/// The coordinator's state after a command.
pub open spec fn after_command(v: WindowView, msg: Msg) -> WindowView {
    match msg {
        Msg::Exit => WindowView { closing: true, ..v },
        Msg::SetEventHandling(b) => WindowView { event_handling: b, ..v },
        Msg::SetTexture(id, t) => WindowView { textures: with_texture(v.textures, id, t), ..v },
        Msg::RemoveTexture(id) => WindowView { textures: without_texture(v.textures, id), ..v },
        Msg::Resize(w, h) => WindowView { width: w, height: h, ..v },
        _ => v,
    }
}

/// The events that `raws` translate to, in order.
pub open spec fn translations(raws: Seq<EvMSG>) -> Seq<Event>
    decreases raws.len(),
{
    if raws.len() == 0 {
        Seq::empty()
    } else {
        translations(raws.drop_last()).push(translation(raws.last()))
    }
}

/// The coordinator's state after the raw input events `raws`, in order.
pub open spec fn after_raws(v: WindowView, raws: Seq<EvMSG>) -> WindowView
    decreases raws.len(),
{
    if raws.len() == 0 {
        v
    } else {
        after_raw(after_raws(v, raws.drop_last()), raws.last())
    }
}

/// The coordinator's state after the commands `ms`, in order; a closing
/// coordinator applies no further command.
pub open spec fn after_commands(v: WindowView, ms: Seq<Msg>) -> WindowView
    decreases ms.len(),
{
    if ms.len() == 0 || v.closing {
        v
    } else {
        after_commands(after_command(v, ms[0]), ms.subrange(1, ms.len() as int))
    }
}

/// Whether `e` is the work that the raw input event `ev` hands to the
/// presentation layer in state `v`.
pub open spec fn raw_effect(e: Effect, v: WindowView, ev: EvMSG) -> bool {
    match ev {
        EvMSG::Resize(w, h) => if v.event_handling {
            e == Effect::ResizeSurface(w, h)
        } else {
            e is Nothing
        },
        EvMSG::Redraw => if v.event_handling {
            presents(e, v)
        } else {
            e is Nothing
        },
        _ => e is Nothing,
    }
}

/// Whether `e` is the work that the command `msg` hands to the presentation
/// layer in state `v`.
pub open spec fn command_effect(e: Effect, v: WindowView, msg: Msg) -> bool {
    match msg {
        Msg::Exit => e is Shutdown,
        Msg::Resize(w, h) => e == Effect::ResizeSurface(w, h),
        Msg::Redraw => presents(e, v),
        _ => e is Nothing,
    }
}

/// The states in which the commands of `ms` are applied, one per command
/// applied: a closing coordinator applies no further command.
pub open spec fn command_states(v: WindowView, ms: Seq<Msg>) -> Seq<WindowView>
    decreases ms.len(),
{
    if ms.len() == 0 || v.closing {
        Seq::empty()
    } else {
        seq![v] + command_states(after_command(v, ms[0]), ms.subrange(1, ms.len() as int))
    }
}

/// The triangle lists `parts` joined in order.
pub open spec fn concat(parts: Seq<Seq<Triangle>>) -> Seq<Triangle>
    decreases parts.len(),
{
    if parts.len() == 0 {
        Seq::empty()
    } else {
        concat(parts.drop_last()) + parts.last()
    }
}

/// Whether `ts` is one triangle list per registry entry, joined in registry
/// order: what each texture yields is up to its own code.
pub open spec fn drawn_from(ts: Seq<Triangle>, textures: Seq<(i32, Texture)>) -> bool {
    exists|parts: Seq<Seq<Triangle>>| parts.len() == textures.len() && #[trigger] concat(parts) == ts
}

/// Whether `e` presents a frame of the size of `v`, drawn from its registry.
pub open spec fn presents(e: Effect, v: WindowView) -> bool {
    &&& e is Present
    &&& e->Present_0.width == v.width
    &&& e->Present_0.height == v.height
    &&& drawn_from(e->Present_0.triangles@, v.textures)
}

proof fn lemma_with_texture(es: Seq<(i32, Texture)>, id: i32, t: Texture)
    requires
        unique_ids(es),
    ensures
        unique_ids(with_texture(es, id, t)),
        position(with_texture(es, id, t), id) is Some,
{
    let r = with_texture(es, id, t);
    match position(es, id) {
        Some(i) => {
            assert(es[i].0 == id);
            assert forall|a: int, b: int| 0 <= a < b < r.len() implies (#[trigger] r[a]).0 != (
            #[trigger] r[b]).0 by {
                assert(es[a].0 != es[b].0);
            }
            assert(r[i].0 == id);
        },
        None => {
            assert forall|a: int, b: int| 0 <= a < b < r.len() implies (#[trigger] r[a]).0 != (
            #[trigger] r[b]).0 by {
                if b < es.len() {
                    assert(es[a].0 != es[b].0);
                } else {
                    assert(!(0 <= a < es.len() && es[a].0 == id));
                }
            }
            assert(r[es.len() as int].0 == id);
        },
    }
}

proof fn lemma_without_texture(es: Seq<(i32, Texture)>, id: i32)
    requires
        unique_ids(es),
    ensures
        unique_ids(without_texture(es, id)),
        forall|k: int|
            0 <= k < without_texture(es, id).len() ==> (#[trigger] without_texture(es, id)[k]).0
                != id,
{
    let r = without_texture(es, id);
    match position(es, id) {
        Some(i) => {
            assert(es[i].0 == id);
            assert forall|k: int| 0 <= k < r.len() implies (#[trigger] r[k]).0 != id by {
                if k < i {
                    assert(es[k].0 != es[i].0);
                } else {
                    assert(r[k] == es[k + 1]);
                    assert(es[i].0 != es[k + 1].0);
                }
            }
            assert forall|a: int, b: int| 0 <= a < b < r.len() implies (#[trigger] r[a]).0 != (
            #[trigger] r[b]).0 by {
                let a0 = if a < i { a } else { a + 1 };
                let b0 = if b < i { b } else { b + 1 };
                assert(r[a] == es[a0]);
                assert(r[b] == es[b0]);
            }
        },
        None => {
            assert forall|k: int| 0 <= k < r.len() implies (#[trigger] r[k]).0 != id by {
                assert(!(0 <= k < es.len() && es[k].0 == id));
            }
        },
    }
}

/// Commands take effect in the order they were sent: setting a texture at
/// an id twice and then removing that id, followed by a redraw, leaves no
/// entry at that id, and the redraw draws from that registry.
pub proof fn lemma_commands_apply_in_order(v: WindowView, id: i32, a: Texture, b: Texture)
    requires
        unique_ids(v.textures),
    ensures
        ({
            let v1 = after_command(v, Msg::SetTexture(id, a));
            let v2 = after_command(v1, Msg::SetTexture(id, b));
            let v3 = after_command(v2, Msg::RemoveTexture(id));
            let v4 = after_command(v3, Msg::Redraw);
            &&& v4 == v3
            &&& unique_ids(v4.textures)
            &&& forall|k: int| 0 <= k < v4.textures.len() ==> (#[trigger] v4.textures[k]).0 != id
        }),
{
    let v1 = after_command(v, Msg::SetTexture(id, a));
    lemma_with_texture(v.textures, id, a);
    let v2 = after_command(v1, Msg::SetTexture(id, b));
    lemma_with_texture(v1.textures, id, b);
    let v3 = after_command(v2, Msg::RemoveTexture(id));
    lemma_without_texture(v2.textures, id);
}

proof fn lemma_raws_keep_closing(v: WindowView, raws: Seq<EvMSG>, i: int)
    requires
        0 <= i < raws.len(),
        raws[i] == EvMSG::Exit,
    ensures
        after_raws(v, raws).closing,
    decreases raws.len(),
{
    if i < raws.len() - 1 {
        assert(raws.drop_last()[i] == raws[i]);
        lemma_raws_keep_closing(v, raws.drop_last(), i);
    }
}

proof fn lemma_commands_reach_exit(v: WindowView, ms: Seq<Msg>, i: int)
    requires
        0 <= i < ms.len(),
        ms[i] is Exit,
    ensures
        after_commands(v, ms).closing,
    decreases ms.len(),
{
    let rest = ms.subrange(1, ms.len() as int);
    if !v.closing && i > 0 {
        assert(rest[i - 1] == ms[i]);
        lemma_commands_reach_exit(after_command(v, ms[0]), rest, i - 1);
    } else if !v.closing {
        assert(after_command(v, ms[0]).closing);
        assert(after_commands(after_command(v, ms[0]), rest) == after_command(v, ms[0]));
    }
}

/// Shutdown within one polling iteration: where the OS event loop reported
/// an exit, or the user handle sent `Exit`, the coordinator ends the
/// iteration closing; it then sends `Exit` to the OS event loop, which stops
/// on it.
pub proof fn lemma_exit_propagates(v: WindowView, raws: Seq<EvMSG>, ms: Seq<Msg>)
    requires
        (exists|i: int| 0 <= i < raws.len() && raws[i] == EvMSG::Exit) || (exists|i: int|
            0 <= i < ms.len() && #[trigger] ms[i] is Exit),
    ensures
        after_commands(after_raws(v, raws), ms).closing,
        os_stops(Some(EvMSG::Exit)),
{
    let u = after_raws(v, raws);
    if exists|i: int| 0 <= i < raws.len() && raws[i] == EvMSG::Exit {
        let i = choose|i: int| 0 <= i < raws.len() && raws[i] == EvMSG::Exit;
        lemma_raws_keep_closing(v, raws, i);
        if ms.len() > 0 {
            assert(after_commands(u, ms) == u);
        }
    } else {
        let i = choose|i: int| 0 <= i < ms.len() && #[trigger] ms[i] is Exit;
        lemma_commands_reach_exit(u, ms, i);
    }
}

impl Window {
    pub closed spec fn wf(&self) -> bool {
        unique_ids(self.textures@)
    }

    /// A coordinator for a `width` x `height` window, with an empty registry,
    /// forwarding on and not closing.
    pub fn new(width: u32, height: u32) -> (r: Window)
        ensures
            r.wf(),
            r@ == (WindowView {
                width,
                height,
                textures: Seq::empty(),
                event_handling: true,
                closing: false,
            }),
    {
        let r = Window { width, height, textures: Vec::new(), event_handling: true, closing: false };
        assert(r.textures@ =~= Seq::<(i32, Texture)>::empty());
        r
    }

    /// The ids in the registry, in compositing order.
    pub fn texture_ids(&self) -> (r: Vec<i32>)
        ensures
            r@ == ids(self@.textures),
    {
        let mut r: Vec<i32> = Vec::new();
        let mut i: usize = 0;
        while i < self.textures.len()
            invariant
                i <= self.textures@.len(),
                r@ == ids(self.textures@.take(i as int)),
            decreases self.textures@.len() - i,
        {
            r.push(self.textures[i].0);
            assert(self.textures@.take(i + 1).drop_last() =~= self.textures@.take(i as int));
            assert(ids(self.textures@.take(i + 1)) =~= ids(self.textures@.take(i as int)).push(
                self.textures@[i as int].0,
            ));
            i += 1;
        }
        assert(self.textures@.take(i as int) =~= self.textures@);
        r
    }

    fn find(&self, id: i32) -> (r: Option<usize>)
        requires
            self.wf(),
        ensures
            match r {
                Some(i) => position(self.textures@, id) == Some(i as int),
                None => position(self.textures@, id) is None,
            },
    {
        let mut i: usize = 0;
        while i < self.textures.len()
            invariant
                i <= self.textures@.len(),
                self.wf(),
                forall|k: int| 0 <= k < i ==> #[trigger] self.textures@[k].0 != id,
            decreases self.textures@.len() - i,
        {
            if self.textures[i].0 == id {
                proof {
                    let es = self.textures@;
                    let j = choose|j: int| 0 <= j < es.len() && #[trigger] es[j].0 == id;
                    assert(es[i as int].0 == id);
                    assert(es[j].0 == id);
                    if j > i as int {
                        assert(es[i as int].0 != es[j].0);
                    }
                }
                return Some(i);
            }
            i += 1;
        }
        None
    }

    /// Sets `texture` at `id`, replacing an entry already there in place.
    pub fn set_texture(&mut self, id: i32, texture: Texture)
        requires
            old(self).wf(),
        ensures
            final(self).wf(),
            final(self)@ == (WindowView {
                textures: with_texture(old(self)@.textures, id, texture),
                ..old(self)@
            }),
    {
        match self.find(id) {
            Some(i) => {
                let ghost es = self.textures@;
                self.textures[i] = (id, texture);
                assert forall|a: int, b: int|
                    0 <= a < b < self.textures@.len() implies (#[trigger] self.textures@[a]).0
                    != (#[trigger] self.textures@[b]).0 by {
                    assert(es[a].0 != es[b].0);
                    assert(es[i as int].0 == id);
                }
            },
            None => {
                let ghost es = self.textures@;
                self.textures.push((id, texture));
                assert forall|a: int, b: int|
                    0 <= a < b < self.textures@.len() implies (#[trigger] self.textures@[a]).0
                    != (#[trigger] self.textures@[b]).0 by {
                    assert(self.textures@[a] == es[a]);
                    if b < es.len() {
                        assert(self.textures@[b] == es[b]);
                        assert(es[a].0 != es[b].0);
                    } else {
                        assert(self.textures@[b].0 == id);
                        assert(!(0 <= a < es.len() && es[a].0 == id));
                    }
                }
            },
        }
    }

    /// Removes the entry at `id`; nothing happens where there is none.
    pub fn remove_texture(&mut self, id: i32)
        requires
            old(self).wf(),
        ensures
            final(self).wf(),
            final(self)@ == (WindowView {
                textures: without_texture(old(self)@.textures, id),
                ..old(self)@
            }),
    {
        match self.find(id) {
            Some(i) => {
                let _ = self.textures.remove(i);
                let ghost es = old(self).textures@;
                assert forall|a: int, b: int|
                    0 <= a < b < self.textures@.len() implies (#[trigger] self.textures@[a]).0
                    != (#[trigger] self.textures@[b]).0 by {
                    let a0 = if a < i { a } else { a + 1 };
                    let b0 = if b < i { b } else { b + 1 };
                    assert(self.textures@[a] == es[a0]);
                    assert(self.textures@[b] == es[b0]);
                }
            },
            None => {},
        }
    }

    /// Every triangle of every texture, in registry order.
    fn gather(&self) -> (r: Vec<Triangle>)
        ensures
            drawn_from(r@, self@.textures),
    {
        let mut all: Vec<Triangle> = Vec::new();
        let ghost mut parts: Seq<Seq<Triangle>> = Seq::empty();
        let mut i: usize = 0;
        while i < self.textures.len()
            invariant
                i <= self.textures@.len(),
                parts.len() == i,
                all@ == concat(parts),
            decreases self.textures@.len() - i,
        {
            let mut ts = self.textures[i].1.triangles();
            let ghost part = ts@;
            all.append(&mut ts);
            proof {
                let old_parts = parts;
                parts = parts.push(part);
                assert(parts.drop_last() =~= old_parts);
            }
            i += 1;
        }
        assert(parts.len() == self@.textures.len() && concat(parts) == all@);
        all
    }

    /// The frame of a redraw at the current size.
    fn frame(&self) -> (r: Frame)
        ensures
            r.width == self.width,
            r.height == self.height,
            drawn_from(r.triangles@, self@.textures),
    {
        Frame { width: self.width, height: self.height, triangles: self.gather() }
    }

    /// Takes in one raw input event: returns the event to forward and the work
    /// for the presentation layer. With forwarding on, a resize is applied to
    /// the state and a redraw presents a frame; an exit marks the coordinator
    /// closing either way.
    pub fn handle_raw(&mut self, ev: EvMSG) -> (r: (Event, Effect))
        ensures
            final(self).wf() == old(self).wf(),
            final(self)@ == after_raw(old(self)@, ev),
            r.0 == translation(ev),
            raw_effect(r.1, old(self)@, ev),
    {
        let event = translate(ev);
        let effect = match ev {
            EvMSG::Resize(w, h) => {
                if self.event_handling {
                    self.width = w;
                    self.height = h;
                    Effect::ResizeSurface(w, h)
                } else {
                    Effect::Nothing
                }
            },
            EvMSG::Redraw => {
                if self.event_handling {
                    Effect::Present(self.frame())
                } else {
                    Effect::Nothing
                }
            },
            EvMSG::Exit => {
                self.closing = true;
                Effect::Nothing
            },
            _ => Effect::Nothing,
        };
        (event, effect)
    }

    /// Applies one command from the user handle and returns the work for the
    /// presentation layer.
    pub fn apply(&mut self, msg: Msg) -> (r: Effect)
        requires
            old(self).wf(),
        ensures
            final(self).wf(),
            final(self)@ == after_command(old(self)@, msg),
            (r is Shutdown) == (msg is Exit),
            command_effect(r, old(self)@, msg),
    {
        match msg {
            Msg::Exit => {
                self.closing = true;
                Effect::Shutdown
            },
            Msg::SetEventHandling(b) => {
                self.event_handling = b;
                Effect::Nothing
            },
            Msg::SetTexture(id, t) => {
                self.set_texture(id, t);
                Effect::Nothing
            },
            Msg::RemoveTexture(id) => {
                self.remove_texture(id);
                Effect::Nothing
            },
            Msg::Resize(w, h) => {
                self.width = w;
                self.height = h;
                Effect::ResizeSurface(w, h)
            },
            Msg::Redraw => Effect::Present(self.frame()),
            Msg::Start => Effect::Nothing,
            Msg::Event(_) => Effect::Nothing,
        }
    }

    /// One polling iteration: takes in the raw input events, then, unless
    /// that leaves the coordinator closing, the commands in order until one
    /// makes it close. Returns every translated event, none lost, and the work
    /// for the presentation layer in the order it arose: one item per raw
    /// event, then one per command applied.
    pub fn poll(&mut self, raws: Vec<EvMSG>, commands: Vec<Msg>) -> (r: (Vec<Event>, Vec<Effect>))
        requires
            old(self).wf(),
        ensures
            final(self).wf(),
            r.0@ == translations(raws@),
            final(self)@ == after_commands(after_raws(old(self)@, raws@), commands@),
            ({
                let u = after_raws(old(self)@, raws@);
                let cs = command_states(u, commands@);
                &&& r.1@.len() == raws@.len() + cs.len()
                &&& forall|i: int|
                    0 <= i < raws@.len() ==> raw_effect(
                        #[trigger] r.1@[i],
                        after_raws(old(self)@, raws@.take(i)),
                        raws@[i],
                    )
                &&& forall|j: int|
                    0 <= j < cs.len() ==> command_effect(
                        #[trigger] r.1@[raws@.len() + j],
                        cs[j],
                        commands@[j],
                    )
            }),
    {
        let mut events: Vec<Event> = Vec::new();
        let mut effects: Vec<Effect> = Vec::new();
        let mut i: usize = 0;
        while i < raws.len()
            invariant
                i <= raws@.len(),
                self.wf(),
                events@ == translations(raws@.take(i as int)),
                self@ == after_raws(old(self)@, raws@.take(i as int)),
                effects@.len() == i,
                forall|k: int|
                    0 <= k < i ==> raw_effect(
                        #[trigger] effects@[k],
                        after_raws(old(self)@, raws@.take(k)),
                        raws@[k],
                    ),
            decreases raws@.len() - i,
        {
            assert(raws@.take(i + 1).drop_last() =~= raws@.take(i as int));
            let (e, eff) = self.handle_raw(raws[i]);
            events.push(e);
            effects.push(eff);
            i += 1;
        }
        assert(raws@.take(i as int) =~= raws@);
        let ghost u = self@;
        let ghost n = raws@.len();
        let ghost mut done: Seq<WindowView> = Seq::empty();
        let mut cmds = commands;
        while cmds.len() > 0 && !self.closing
            invariant
                self.wf(),
                u == after_raws(old(self)@, raws@),
                n == raws@.len(),
                after_commands(self@, cmds@) == after_commands(u, commands@),
                command_states(u, commands@) == done + command_states(self@, cmds@),
                done.len() <= commands@.len(),
                cmds@ == commands@.subrange(done.len() as int, commands@.len() as int),
                effects@.len() == n + done.len(),
                forall|k: int|
                    0 <= k < n ==> raw_effect(
                        #[trigger] effects@[k],
                        after_raws(old(self)@, raws@.take(k)),
                        raws@[k],
                    ),
                forall|j: int|
                    0 <= j < done.len() ==> command_effect(
                        #[trigger] effects@[n + j],
                        done[j],
                        commands@[j],
                    ),
            decreases cmds@.len(),
        {
            let ghost before = cmds@;
            let ghost state = self@;
            assert(before[0] == commands@[done.len() as int]);
            let m = cmds.remove(0);
            assert(cmds@ =~= before.subrange(1, before.len() as int));
            let eff = self.apply(m);
            effects.push(eff);
            proof {
                let rest = command_states(self@, cmds@);
                assert(command_states(state, before) == seq![state] + rest);
                assert(done + (seq![state] + rest) =~= done.push(state) + rest);
                done = done.push(state);
                assert(cmds@ =~= commands@.subrange(done.len() as int, commands@.len() as int));
            }
        }
        assert(command_states(self@, cmds@) == Seq::<WindowView>::empty());
        assert(command_states(u, commands@) =~= done);
        (events, effects)
    }

    /// The two messages of a closing coordinator: `Exit` to the user handle
    /// and `Exit` to the OS event loop.
    pub fn farewell(&self) -> (r: (Msg, EvMSG))
        ensures
            r.0 is Exit,
            r.1 == EvMSG::Exit,
    {
        (Msg::Exit, EvMSG::Exit)
    }
}

} // verus!
