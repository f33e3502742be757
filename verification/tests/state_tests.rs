use tickworld::data::AudioRequest;
use tickworld::data::Color;
use tickworld::data::DrawData;
use tickworld::data::EventData;
use tickworld::data::GameRequest;
use tickworld::data::Rect;
use tickworld::data::WindowRequest;
use tickworld::state::SharedState;

fn key(code: i32) -> EventData {
    EventData::KeyDown { keycode: code, scancode: 0, keymod: 0 }
}

fn rect(x: i32) -> DrawData {
    DrawData::FilledRectangle {
        rect: Rect { x, y: 0, w: 10, h: 10 },
        color: Color { r: 0, g: 0, b: 0, a: 255 },
    }
}

#[test]
fn event_drain_is_destructive() {
    let mut state = SharedState::new();
    state.push_event(key(1));
    state.push_event(key(2));
    assert_eq!(state.take_events(), vec![key(1), key(2)]);
    // a second drain with no intervening push yields nothing
    assert_eq!(state.take_events(), Vec::new());
}

#[test]
fn events_drain_in_fifo_order() {
    let mut state = SharedState::new();
    state.push_event(key(10));
    state.push_event(key(20));
    state.push_event(key(30));
    assert_eq!(state.take_events(), vec![key(10), key(20), key(30)]);
}

#[test]
fn publish_is_last_writer_wins() {
    let mut state = SharedState::new();
    state.set_draw_data(vec![rect(1)]);
    state.set_draw_data(vec![rect(2), rect(3)]);
    // the drain observes exactly the second batch: no first batch, no merge
    assert_eq!(state.lock_draw_data(), Some(vec![rect(2), rect(3)]));
    // and a batch is delivered at most once
    assert_eq!(state.lock_draw_data(), None);
}

#[test]
fn fresh_state_offers_one_empty_batch() {
    let mut state = SharedState::new();
    assert_eq!(state.lock_draw_data(), Some(Vec::new()));
    assert_eq!(state.lock_draw_data(), None);
}

#[test]
fn stop_is_terminal() {
    let mut state = SharedState::new();
    assert!(state.running());
    state.stop();
    assert!(!state.running());
    // no operation on the mailbox raises the flag again
    state.push_event(key(1));
    let _ = state.take_events();
    state.set_draw_data(vec![rect(1)]);
    let _ = state.lock_draw_data();
    let mut requests = vec![GameRequest::Stop];
    state.push_requests(&mut requests);
    let _ = state.take_requests();
    state.stop();
    assert!(!state.running());
}

#[test]
fn request_push_appends_and_drains_the_source() {
    let mut state = SharedState::new();
    let mut first = vec![GameRequest::WindowRequest(WindowRequest::EnableFullscreen)];
    let mut second = vec![
        GameRequest::AudioRequest(AudioRequest::PlaySound(7)),
        GameRequest::Stop,
    ];
    state.push_requests(&mut first);
    state.push_requests(&mut second);
    assert!(first.is_empty());
    assert!(second.is_empty());
    assert_eq!(
        state.take_requests(),
        vec![
            GameRequest::WindowRequest(WindowRequest::EnableFullscreen),
            GameRequest::AudioRequest(AudioRequest::PlaySound(7)),
            GameRequest::Stop,
        ]
    );
    assert_eq!(state.take_requests(), Vec::new());
}

#[test]
fn requests_route_by_subsystem() {
    let batch = vec![
        GameRequest::AudioRequest(AudioRequest::PlaySound(1)),
        GameRequest::WindowRequest(WindowRequest::Resize(1, 2)),
        GameRequest::Stop,
        GameRequest::AudioRequest(AudioRequest::PlaySound(2)),
    ];
    let (audio, window, stop) = tickworld::data::route_requests(batch);
    assert_eq!(audio, vec![AudioRequest::PlaySound(1), AudioRequest::PlaySound(2)]);
    assert_eq!(window, vec![WindowRequest::Resize(1, 2)]);
    assert!(stop);

    let (audio2, window2, stop2) =
        tickworld::data::route_requests(vec![GameRequest::WindowRequest(WindowRequest::EnableFullscreen)]);
    assert!(audio2.is_empty());
    assert_eq!(window2, vec![WindowRequest::EnableFullscreen]);
    assert!(!stop2);
}

#[test]
fn requests_convert_from_their_subsystem_types() {
    let audio = GameRequest::from(AudioRequest::PlaySound(1));
    assert_eq!(audio, GameRequest::AudioRequest(AudioRequest::PlaySound(1)));
    let window = GameRequest::from(WindowRequest::Resize(320, 200));
    assert_eq!(window, GameRequest::WindowRequest(WindowRequest::Resize(320, 200)));
}
