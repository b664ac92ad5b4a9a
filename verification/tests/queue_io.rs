use collector::events::{decode_raw_keyboard, decode_raw_mouse, make_key_event, InputEvent,
    InputEventKind, InputState, MouseButton};
use collector::queue::InputQueue;

fn mouse_move(ts: u64, dx: i32, dy: i32) -> InputEvent {
    InputEvent { qpc_ts: ts, kind: InputEventKind::MouseMove { dx, dy } }
}

#[test]
fn key_state_tracks_down_keys() {
    let mut state = InputState::new();
    let down = make_key_event(10, "W", true);
    let up = make_key_event(20, "W", false);

    state.apply_event(&down);
    assert!(state.down_keys.contains("W"));

    state.apply_event(&up);
    assert!(!state.down_keys.contains("W"));
}

#[test]
fn overflow_drops_oldest_and_counts() {
    let mut q = InputQueue::new(20000);
    for i in 0..25000u64 {
        q.push_event(mouse_move(i, 1, 0));
    }
    let dropped = q.take_dropped_events();
    assert_eq!(dropped, 5000);
    let out = q.drain_events(0, u64::MAX);
    assert_eq!(out.len(), 20000);
    // The oldest five thousand left first.
    assert_eq!(out[0].qpc_ts, 5000);
}

#[test]
fn drain_returns_exact_window() {
    let mut q = InputQueue::new(100);
    for i in 0..10u64 {
        q.push_event(mouse_move(i * 10, 1, 1));
    }
    let first = q.drain_events(0, 50);
    assert_eq!(first.len(), 5);
    for e in &first {
        assert!(e.qpc_ts < 50);
    }
    let second = q.drain_events(50, 100);
    assert_eq!(second.len(), 5);
    for e in &second {
        assert!(50 <= e.qpc_ts && e.qpc_ts < 100);
    }
    // Together the two windows returned the whole stream.
    assert_eq!(first.len() + second.len(), 10);
}

#[test]
fn drain_discards_events_before_window() {
    let mut q = InputQueue::new(100);
    q.push_event(mouse_move(5, 1, 0));
    q.push_event(mouse_move(15, 1, 0));
    q.push_event(mouse_move(25, 1, 0));
    let out = q.drain_events(10, 20);
    assert_eq!(out.len(), 1);
    assert_eq!(out[0].qpc_ts, 15);
    // The event at 25 is still queued; the one at 5 is gone.
    let rest = q.drain_events(20, 30);
    assert_eq!(rest.len(), 1);
    assert_eq!(rest[0].qpc_ts, 25);
}

#[test]
fn drain_output_is_tick_ordered() {
    let mut q = InputQueue::new(100);
    q.push_event(mouse_move(1, 1, 0));
    q.push_event(mouse_move(1, 2, 0));
    q.push_event(mouse_move(3, 3, 0));
    let out = q.drain_events(0, 10);
    assert_eq!(out.len(), 3);
    for w in out.windows(2) {
        assert!(w[0].qpc_ts <= w[1].qpc_ts);
    }
}

#[test]
fn capacity_is_never_exceeded() {
    let mut q = InputQueue::new(3);
    for i in 0..10u64 {
        q.push_event(mouse_move(i, 1, 0));
        assert!(q.buffer.len() <= 3);
    }
    assert_eq!(q.take_dropped_events(), 7);
}

#[test]
fn raw_keyboard_decodes_presses_and_releases() {
    let down = decode_raw_keyboard(0x57, 0, 42).unwrap();
    assert_eq!(down.qpc_ts, 42);
    assert!(matches!(down.kind, InputEventKind::KeyDown { ref key } if key == "W"));
    let up = decode_raw_keyboard(0x57, 1, 43).unwrap();
    assert!(matches!(up.kind, InputEventKind::KeyUp { ref key } if key == "W"));
    // Unknown scancodes and the noise code are dropped.
    assert!(decode_raw_keyboard(0x07, 0, 44).is_none());
    assert!(decode_raw_keyboard(255, 0, 45).is_none());
}

#[test]
fn raw_mouse_decodes_motion_buttons_and_wheel() {
    // Motion, a left press, and a wheel notch of -120 in one notification.
    let out = decode_raw_mouse(3, -4, 0x0001 | 0x0400, 0xFF88, 7);
    assert_eq!(out.len(), 3);
    assert!(matches!(out[0].kind, InputEventKind::MouseMove { dx: 3, dy: -4 }));
    assert!(matches!(
        out[1].kind,
        InputEventKind::MouseButton { button: MouseButton::Left, is_down: true }
    ));
    assert!(matches!(out[2].kind, InputEventKind::MouseWheel { delta: -120 }));
    // A release-only notification.
    let rel = decode_raw_mouse(0, 0, 0x0002, 0, 8);
    assert_eq!(rel.len(), 1);
    assert!(matches!(
        rel[0].kind,
        InputEventKind::MouseButton { button: MouseButton::Left, is_down: false }
    ));
}
