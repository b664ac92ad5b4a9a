use collector::aggregator::{aggregate_window, aggregate_window_with_compiled, AggregatorState,
    CursorProvider};
use collector::events::{InputEvent, InputEventKind, MouseButton};

fn key_down(ts: u64, key: &str) -> InputEvent {
    InputEvent { qpc_ts: ts, kind: InputEventKind::KeyDown { key: key.to_string() } }
}

fn key_up(ts: u64, key: &str) -> InputEvent {
    InputEvent { qpc_ts: ts, kind: InputEventKind::KeyUp { key: key.to_string() } }
}

fn mouse_move(ts: u64, dx: i32, dy: i32) -> InputEvent {
    InputEvent { qpc_ts: ts, kind: InputEventKind::MouseMove { dx, dy } }
}

#[test]
fn clears_inputs_when_not_foreground() {
    let events = vec![InputEvent {
        qpc_ts: 10,
        kind: InputEventKind::MouseMove { dx: 5, dy: -3 },
    }];
    let cursor = CursorProvider { visible: true, x_norm: 500000, y_norm: 500000 };
    let mut state = AggregatorState::new();
    let snapshot = aggregate_window(&events, 0, 200, 0, false, &cursor, &mut state);
    assert_eq!(snapshot.mouse.dx, 0);
    assert_eq!(snapshot.keyboard.down.len(), 0);
}

#[test]
fn single_keydown_held_through_window() {
    let events = vec![key_down(10, "W")];
    let cursor = CursorProvider { visible: false, x_norm: 0, y_norm: 0 };
    let mut state = AggregatorState::new();
    let out = aggregate_window_with_compiled(&events, 0, 200, 0, true, &cursor, &mut state);
    assert_eq!(out.snapshot.keyboard.down, vec!["W".to_string()]);
    assert_eq!(out.snapshot.keyboard.pressed, vec!["W".to_string()]);
    assert!(out.snapshot.keyboard.released.is_empty());
    assert_eq!(
        out.compiled_action,
        "<|action_start|>0 0 0 ; W ; W ; W ; W ; W ; W<|action_end|>"
    );
}

#[test]
fn mouse_move_saturation_clamps_compiled_only() {
    let events = vec![mouse_move(10, 1200, -700), mouse_move(20, 800, -800)];
    let cursor = CursorProvider { visible: false, x_norm: 0, y_norm: 0 };
    let mut state = AggregatorState::new();
    let out = aggregate_window_with_compiled(&events, 0, 200, 0, true, &cursor, &mut state);
    assert_eq!(out.snapshot.mouse.dx, 2000);
    assert_eq!(out.snapshot.mouse.dy, -1500);
    assert_eq!(
        out.compiled_action,
        "<|action_start|>1000 -1000 0 ; ; ; ; ; ;<|action_end|>"
    );
}

#[test]
fn foreground_loss_keeps_held_keys() {
    let cursor = CursorProvider { visible: true, x_norm: 250000, y_norm: 750000 };
    let mut state = AggregatorState::new();
    // The window without focus reports nothing but still absorbs the press.
    let events = vec![key_down(10, "X")];
    let snapshot = aggregate_window(&events, 0, 200, 0, false, &cursor, &mut state);
    assert!(snapshot.keyboard.down.is_empty());
    assert!(snapshot.keyboard.pressed.is_empty());
    assert!(snapshot.keyboard.released.is_empty());
    assert_eq!(snapshot.mouse.dx, 0);
    assert_eq!(snapshot.mouse.dy, 0);
    assert_eq!(snapshot.mouse.wheel, 0);
    assert!(snapshot.mouse.cursor.visible);
    assert_eq!(snapshot.mouse.cursor.x_norm, 250000);
    assert_eq!(snapshot.mouse.cursor.y_norm, 750000);
    // The next focused window still reports the key as held.
    let snapshot2 = aggregate_window(&[], 200, 400, 1, true, &cursor, &mut state);
    assert_eq!(snapshot2.keyboard.down, vec!["X".to_string()]);
    assert!(snapshot2.keyboard.pressed.is_empty());
}

#[test]
fn keyup_moves_key_to_released() {
    let cursor = CursorProvider { visible: false, x_norm: 0, y_norm: 0 };
    let mut state = AggregatorState::new();
    let w1 = vec![key_down(10, "W")];
    aggregate_window(&w1, 0, 200, 0, true, &cursor, &mut state);
    let w2 = vec![key_up(210, "W")];
    let snap = aggregate_window(&w2, 200, 400, 1, true, &cursor, &mut state);
    assert!(snap.keyboard.down.is_empty());
    assert_eq!(snap.keyboard.released, vec!["W".to_string()]);
    let snap3 = aggregate_window(&[], 400, 600, 2, true, &cursor, &mut state);
    assert!(snap3.keyboard.down.is_empty());
}

#[test]
fn button_mask_records_went_down() {
    let cursor = CursorProvider { visible: false, x_norm: 0, y_norm: 0 };
    let mut state = AggregatorState::new();
    let events = vec![
        InputEvent {
            qpc_ts: 10,
            kind: InputEventKind::MouseButton { button: MouseButton::Left, is_down: true },
        },
        InputEvent {
            qpc_ts: 20,
            kind: InputEventKind::MouseButton { button: MouseButton::Left, is_down: false },
        },
    ];
    let snap = aggregate_window(&events, 0, 200, 0, true, &cursor, &mut state);
    // Release inside the window does not clear the went-down mark.
    assert!(snap.mouse.buttons.left);
    assert!(!snap.mouse.buttons.right);
}

#[test]
fn events_outside_window_are_ignored() {
    let cursor = CursorProvider { visible: false, x_norm: 0, y_norm: 0 };
    let mut state = AggregatorState::new();
    let events = vec![mouse_move(5, 100, 100), mouse_move(250, 7, 7)];
    let snap = aggregate_window(&events, 10, 200, 0, true, &cursor, &mut state);
    assert_eq!(snap.mouse.dx, 0);
    assert_eq!(snap.mouse.dy, 0);
}

#[test]
fn snapshot_lists_use_canonical_order() {
    // Byte order would give ["A", "Shift"]; the canonical rank order
    // puts the modifier first.
    let events = vec![key_down(10, "A"), key_down(20, "Shift"), key_down(30, "zero")];
    let cursor = CursorProvider { visible: false, x_norm: 0, y_norm: 0 };
    let mut state = AggregatorState::new();
    let snap = aggregate_window(&events, 0, 200, 0, true, &cursor, &mut state);
    assert_eq!(
        snap.keyboard.pressed,
        vec!["Shift".to_string(), "A".to_string(), "zero".to_string()]
    );
    assert_eq!(
        snap.keyboard.down,
        vec!["Shift".to_string(), "A".to_string(), "zero".to_string()]
    );
}
