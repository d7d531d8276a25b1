use window::coordinator::Effect;
use window::messages::{os_loop_should_exit, translate};
use window::{Channel, EvMSG, Event, Msg, Texture, TextureTrait, Triangle, Window};

struct Solid(Triangle);

impl TextureTrait for Solid {
    fn triangles(&self) -> Vec<Triangle> {
        vec![self.0]
    }
}

fn solid(color: (u8, u8, u8)) -> Texture {
    Texture::new(Box::new(Solid(Triangle { vertices: [(0, 0), (10, 0), (5, 10)], color })))
}

#[test]
fn channel_carries_both_directions_in_order() {
    let (a, b) = Channel::<u32>::new();
    assert!(a.send(1));
    assert!(a.send(2));
    assert!(b.send(7));
    assert_eq!(b.try_recv(), Some(1));
    assert_eq!(b.recv(), Some(2));
    assert_eq!(b.try_recv(), None);
    assert_eq!(a.try_recv_all(), vec![7]);
}

#[test]
fn channel_reports_a_dropped_peer() {
    let (a, b) = Channel::<u32>::new();
    drop(b);
    assert!(!a.send(1));
    assert_eq!(a.recv(), None);
}

#[test]
fn raw_events_translate() {
    assert_eq!(translate(EvMSG::Resize(3, 4)), Event::Resize(3, 4));
    assert_eq!(translate(EvMSG::Redraw), Event::Redraw);
    assert_eq!(translate(EvMSG::Key(17)), Event::Key(17));
    assert_eq!(translate(EvMSG::MouseMove(1, 2)), Event::MouseMove(1, 2));
    assert_eq!(translate(EvMSG::MouseButton(3)), Event::MouseButton(3));
    assert_eq!(translate(EvMSG::Exit), Event::Exit);
    assert_eq!(translate(EvMSG::Stop), Event::Empty);
}

#[test]
fn handshake_message_is_recognised() {
    assert!(Msg::Start.is_start());
    assert!(!Msg::Redraw.is_start());
    assert!(!Msg::Event(Event::Redraw).is_start());
}

#[test]
fn os_loop_stops_only_on_exit() {
    assert!(os_loop_should_exit(&Some(EvMSG::Exit)));
    assert!(!os_loop_should_exit(&Some(EvMSG::Redraw)));
    assert!(!os_loop_should_exit(&None));
}

#[test]
fn set_set_remove_then_redraw_leaves_no_entry() {
    let mut w = Window::new(20, 20);
    w.apply(Msg::SetTexture(1, solid((1, 1, 1))));
    w.apply(Msg::SetTexture(1, solid((2, 2, 2))));
    w.apply(Msg::RemoveTexture(1));
    let e = w.apply(Msg::Redraw);
    assert!(w.texture_ids().is_empty());
    match e {
        Effect::Present(f) => assert!(f.triangles.is_empty()),
        _ => panic!("a redraw presents a frame"),
    }
}

#[test]
fn registry_keeps_first_insertion_order() {
    let mut w = Window::new(20, 20);
    w.set_texture(5, solid((5, 5, 5)));
    w.set_texture(2, solid((2, 2, 2)));
    w.set_texture(5, solid((6, 6, 6)));
    w.remove_texture(9);
    assert_eq!(w.texture_ids(), vec![5, 2]);
    match w.apply(Msg::Redraw) {
        Effect::Present(f) => {
            assert_eq!(f.width, 20);
            assert_eq!(f.triangles.len(), 2);
            assert_eq!(f.triangles[0].color, (6, 6, 6));
            assert_eq!(f.triangles[1].color, (2, 2, 2));
        }
        _ => panic!("a redraw presents a frame"),
    }
}

#[test]
fn resize_command_updates_state_and_surface() {
    let mut w = Window::new(20, 20);
    match w.apply(Msg::Resize(30, 40)) {
        Effect::ResizeSurface(30, 40) => {}
        _ => panic!("a resize reaches the surface"),
    }
    assert_eq!((w.width, w.height), (30, 40));
}

#[test]
fn raw_resize_applies_only_with_event_handling() {
    let mut w = Window::new(20, 20);
    let (ev, eff) = w.handle_raw(EvMSG::Resize(7, 8));
    assert_eq!(ev, Event::Resize(7, 8));
    assert!(matches!(eff, Effect::ResizeSurface(7, 8)));
    assert_eq!((w.width, w.height), (7, 8));
    w.apply(Msg::SetEventHandling(false));
    let (ev, eff) = w.handle_raw(EvMSG::Resize(9, 9));
    assert_eq!(ev, Event::Resize(9, 9));
    assert!(matches!(eff, Effect::Nothing));
    assert_eq!((w.width, w.height), (7, 8));
    let (ev, eff) = w.handle_raw(EvMSG::Redraw);
    assert_eq!(ev, Event::Redraw);
    assert!(matches!(eff, Effect::Nothing));
}

#[test]
fn raw_redraw_presents_with_event_handling() {
    let mut w = Window::new(4, 3);
    let (_, eff) = w.handle_raw(EvMSG::Redraw);
    match eff {
        Effect::Present(f) => assert_eq!((f.width, f.height), (4, 3)),
        _ => panic!("a redraw presents a frame"),
    }
}

#[test]
fn raw_exit_marks_closing() {
    let mut w = Window::new(4, 3);
    let (ev, eff) = w.handle_raw(EvMSG::Exit);
    assert_eq!(ev, Event::Exit);
    assert!(matches!(eff, Effect::Nothing));
    assert!(w.closing);
}

#[test]
fn exit_command_shuts_down_and_reaches_os_loop() {
    let mut w = Window::new(4, 3);
    assert!(!w.closing);
    assert!(matches!(w.apply(Msg::Exit), Effect::Shutdown));
    assert!(w.closing);
    let (to_api, to_os) = w.farewell();
    assert!(matches!(to_api, Msg::Exit));
    assert!(os_loop_should_exit(&Some(to_os)));
}

#[test]
fn start_and_events_are_no_ops_for_the_coordinator() {
    let mut w = Window::new(4, 3);
    assert!(matches!(w.apply(Msg::Start), Effect::Nothing));
    assert!(matches!(w.apply(Msg::Event(Event::Redraw)), Effect::Nothing));
    assert!(!w.closing);
    assert!(w.event_handling);
}

#[test]
fn poll_forwards_every_event_and_stops_at_exit() {
    let mut w = Window::new(10, 10);
    let (events, effects) = w.poll(
        vec![EvMSG::Key(1), EvMSG::Resize(5, 6), EvMSG::Stop],
        vec![Msg::SetTexture(4, solid((4, 4, 4))), Msg::Exit, Msg::Resize(99, 99)],
    );
    assert_eq!(events, vec![Event::Key(1), Event::Resize(5, 6), Event::Empty]);
    assert_eq!(effects.len(), 5);
    assert!(matches!(effects[1], Effect::ResizeSurface(5, 6)));
    assert!(matches!(effects[4], Effect::Shutdown));
    assert!(w.closing);
    assert_eq!((w.width, w.height), (5, 6));
    assert_eq!(w.texture_ids(), vec![4]);
}

#[test]
fn poll_applies_no_command_after_raw_exit() {
    let mut w = Window::new(10, 10);
    let (events, effects) = w.poll(vec![EvMSG::Exit, EvMSG::MouseMove(1, 2)], vec![Msg::Resize(3, 3)]);
    assert_eq!(events, vec![Event::Exit, Event::MouseMove(1, 2)]);
    assert_eq!(effects.len(), 2);
    assert!(w.closing);
    assert_eq!((w.width, w.height), (10, 10));
}

#[test]
fn poll_effects_follow_raw_events_then_commands() {
    let mut w = Window::new(10, 10);
    w.set_texture(3, solid((3, 3, 3)));
    let (_, effects) = w.poll(
        vec![EvMSG::Redraw, EvMSG::Key(2)],
        vec![Msg::RemoveTexture(3), Msg::Redraw],
    );
    assert_eq!(effects.len(), 4);
    match &effects[0] {
        Effect::Present(f) => assert_eq!(f.triangles.len(), 1),
        _ => panic!("a raw redraw presents a frame"),
    }
    assert!(matches!(effects[1], Effect::Nothing));
    assert!(matches!(effects[2], Effect::Nothing));
    match &effects[3] {
        Effect::Present(f) => assert!(f.triangles.is_empty()),
        _ => panic!("a redraw presents a frame"),
    }
}

#[test]
fn texture_request_carries_the_texture() {
    match Msg::texture_request(5, solid((8, 8, 8))) {
        Msg::SetTexture(5, t) => assert_eq!(t.triangles()[0].color, (8, 8, 8)),
        _ => panic!("a texture request sets a texture"),
    }
}

#[test]
fn messages_compare_field_by_field() {
    assert!(Msg::Start.eq(&Msg::Start));
    assert!(!Msg::Start.eq(&Msg::Exit));
    assert!(Msg::Resize(1, 2).eq(&Msg::Resize(1, 2)));
    assert!(!Msg::Resize(1, 2).eq(&Msg::Resize(2, 1)));
    assert!(Msg::Event(Event::Key(4)).eq(&Msg::Event(Event::Key(4))));
    assert!(!Msg::RemoveTexture(1).eq(&Msg::RemoveTexture(2)));
    assert!(Msg::SetTexture(1, solid((1, 1, 1))).eq(&Msg::SetTexture(1, solid((1, 1, 1)))));
    assert!(!Msg::SetTexture(1, solid((1, 1, 1))).eq(&Msg::SetTexture(1, solid((2, 1, 1)))));
    assert!(!Msg::SetTexture(1, solid((1, 1, 1))).eq(&Msg::SetTexture(2, solid((1, 1, 1)))));
}
