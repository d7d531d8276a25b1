use window::api::DEFAULT_DECAY_NANOS;
use window::{Channel, EvMSG, Event, EventKind, Msg, WindowAPI};

fn handle() -> (Channel<Msg>, WindowAPI) {
    let (coordinator, user) = Channel::new();
    (coordinator, WindowAPI::new(user))
}

#[test]
fn resized_leaves_mouse_moves() {
    let (c, mut api) = handle();
    c.send(Msg::Event(Event::Resize(640, 480)));
    c.send(Msg::Event(Event::MouseMove(3, 4)));
    assert_eq!(api.resized(), Some((640, 480)));
    assert_eq!(api.mouse_moves(), vec![(3, 4)]);
    assert_eq!(api.resized(), None);
}

#[test]
fn resized_returns_the_last_size() {
    let (c, mut api) = handle();
    c.send(Msg::Event(Event::Resize(1, 1)));
    c.send(Msg::Event(Event::Resize(2, 3)));
    assert_eq!(api.resized(), Some((2, 3)));
    assert!(api.events.is_empty());
}

#[test]
fn queries_consume_their_events_once() {
    let (c, mut api) = handle();
    c.send(Msg::Event(Event::Redraw));
    c.send(Msg::Event(Event::MouseButton(1)));
    c.send(Msg::Event(Event::MouseButton(3)));
    c.send(Msg::Redraw);
    assert!(api.redrawn());
    assert!(!api.redrawn());
    assert_eq!(api.mouse_presses(), vec![1, 3]);
    assert_eq!(api.mouse_presses(), Vec::<u32>::new());
}

#[test]
fn non_event_messages_are_ignored() {
    let (c, mut api) = handle();
    c.send(Msg::Start);
    c.send(Msg::Exit);
    c.send(Msg::Event(Event::Key(5)));
    api.recv();
    assert_eq!(api.events.len(), 1);
    assert_eq!(api.events[0].0, Event::Key(5));
}

#[test]
fn fresh_event_returned_once_stale_event_dropped() {
    let (_c, mut api) = handle();
    api.set_decay_nanos(100);
    api.ingest(vec![Msg::Event(Event::MouseMove(1, 2))], 1000);
    api.decay_at(1099);
    assert_eq!(api.take_mouse_moves(), vec![(1, 2)]);
    api.decay_at(1099);
    assert_eq!(api.take_mouse_moves(), Vec::<(u32, u32)>::new());

    api.ingest(vec![Msg::Event(Event::MouseMove(5, 6))], 1000);
    api.decay_at(1100);
    assert_eq!(api.take_mouse_moves(), Vec::<(u32, u32)>::new());
    assert!(api.events.is_empty());
}

#[test]
fn decay_keeps_events_stamped_after_now() {
    let (_c, mut api) = handle();
    api.set_decay_nanos(10);
    api.ingest(vec![Msg::Event(Event::Redraw)], 500);
    api.decay_at(400);
    assert!(api.take_redrawn());
}

#[test]
fn zero_decay_time_drops_everything() {
    let (c, mut api) = handle();
    api.set_decay_nanos(0);
    c.send(Msg::Event(Event::MouseMove(1, 1)));
    assert_eq!(api.mouse_moves(), Vec::<(u32, u32)>::new());
}

#[test]
fn set_decay_time_takes_a_duration() {
    let (c, mut api) = handle();
    api.set_decay_time(std::time::Duration::from_secs(3600));
    c.send(Msg::Event(Event::MouseButton(2)));
    assert_eq!(api.mouse_presses(), vec![2]);
    assert_eq!(DEFAULT_DECAY_NANOS, 1_000_000_000);
}

#[test]
fn take_kind_splits_the_buffer() {
    let (_c, mut api) = handle();
    api.ingest(
        vec![
            Msg::Event(Event::MouseMove(1, 1)),
            Msg::Event(Event::Redraw),
            Msg::Event(Event::MouseMove(2, 2)),
        ],
        7,
    );
    assert_eq!(
        api.take_kind(EventKind::MouseMove),
        vec![Event::MouseMove(1, 1), Event::MouseMove(2, 2)]
    );
    assert_eq!(api.events, vec![(Event::Redraw, 7)]);
}

#[test]
fn commands_reach_the_coordinator_in_order() {
    let (c, api) = handle();
    assert!(api.resize(3, 4));
    assert!(api.redraw());
    assert!(api.set_event_handling(false));
    assert!(api.remove_texture(2));
    let got = c.try_recv_all();
    assert_eq!(got.len(), 4);
    assert!(matches!(got[0], Msg::Resize(3, 4)));
    assert!(matches!(got[1], Msg::Redraw));
    assert!(matches!(got[2], Msg::SetEventHandling(false)));
    assert!(matches!(got[3], Msg::RemoveTexture(2)));
}

#[test]
fn dropping_the_handle_sends_exit() {
    let (c, api) = handle();
    drop(api);
    assert!(matches!(c.try_recv(), Some(Msg::Exit)));
}

#[test]
fn await_start_sees_the_handshake() {
    let (c, api) = handle();
    c.send(Msg::Redraw);
    c.send(Msg::Start);
    assert_eq!(api.await_start_once(), Some(false));
    assert_eq!(api.await_start_once(), Some(true));
    drop(c);
    assert_eq!(api.await_start_once(), None);
}

#[test]
fn raw_event_enum_compares_by_value() {
    assert_eq!(EvMSG::MouseMove(1, 2), EvMSG::MouseMove(1, 2));
    assert_ne!(EvMSG::Exit, EvMSG::Stop);
}

#[test]
fn zero_duration_decay_time_drops_everything() {
    let (c, mut api) = handle();
    api.set_decay_time(std::time::Duration::from_nanos(0));
    c.send(Msg::Event(Event::Redraw));
    assert!(!api.redrawn());
}

#[test]
fn decay_twice_equals_decay_at_the_later_instant() {
    let (_c, mut api) = handle();
    api.set_decay_nanos(100);
    api.ingest(vec![Msg::Event(Event::MouseButton(1))], 0);
    api.ingest(vec![Msg::Event(Event::MouseButton(2))], 50);
    api.decay_at(60);
    api.decay_at(120);
    assert_eq!(api.take_mouse_presses(), vec![2]);
}

#[test]
fn command_builders_make_the_named_commands() {
    assert!(matches!(Msg::redraw_request(), Msg::Redraw));
    assert!(matches!(Msg::exit_request(), Msg::Exit));
    assert!(matches!(Msg::event_handling_request(true), Msg::SetEventHandling(true)));
    assert!(matches!(Msg::removal_request(7), Msg::RemoveTexture(7)));
    assert!(matches!(Msg::resize_request(2, 9), Msg::Resize(2, 9)));
}
