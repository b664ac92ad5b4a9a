use collector::compiler::{clamp, compile_action_string, compile_window, format_action_string,
    key_rank, sort_keys, KeyState};
use collector::events::{InputEvent, InputEventKind, MouseButton};
use collector::keys::KeySet;

fn key_down(ts: u64, key: &str) -> InputEvent {
    InputEvent { qpc_ts: ts, kind: InputEventKind::KeyDown { key: key.to_string() } }
}

fn key_up(ts: u64, key: &str) -> InputEvent {
    InputEvent { qpc_ts: ts, kind: InputEventKind::KeyUp { key: key.to_string() } }
}

#[test]
fn empty_window_formats_correctly() {
    let events = Vec::<InputEvent>::new();
    let mut state = KeyState::new();
    let out = compile_action_string(&events, 0, 200, &mut state);
    assert_eq!(out, "<|action_start|>0 0 0 ; ; ; ; ; ;<|action_end|>");
}

#[test]
fn output_has_six_bins() {
    let events = vec![InputEvent {
        qpc_ts: 10,
        kind: InputEventKind::KeyDown { key: "W".to_string() },
    }];
    let mut state = KeyState::new();
    let out = compile_action_string(&events, 0, 200, &mut state);
    assert_eq!(out.matches(';').count(), 6);
}

#[test]
fn key_appears_from_its_bin_onward() {
    // Tick 40 falls in the second bin of [0, 200).
    let events = vec![key_down(40, "W")];
    let mut state = KeyState::new();
    let out = compile_action_string(&events, 0, 200, &mut state);
    assert_eq!(out, "<|action_start|>0 0 0 ; ; W ; W ; W ; W ; W<|action_end|>");
}

#[test]
fn release_clears_later_bins() {
    let events = vec![key_down(10, "W"), key_up(100, "W")];
    let mut state = KeyState::new();
    let out = compile_action_string(&events, 0, 200, &mut state);
    // Held in the bins up to the release, gone afterwards.
    assert_eq!(out, "<|action_start|>0 0 0 ; W ; W ; W ; W ; ;<|action_end|>");
}

#[test]
fn buttons_count_as_keys_in_bins() {
    let events = vec![InputEvent {
        qpc_ts: 10,
        kind: InputEventKind::MouseButton { button: MouseButton::Left, is_down: true },
    }];
    let mut state = KeyState::new();
    let out = compile_action_string(&events, 0, 200, &mut state);
    assert_eq!(
        out,
        "<|action_start|>0 0 0 ; MouseLeft ; MouseLeft ; MouseLeft ; MouseLeft ; MouseLeft ; MouseLeft<|action_end|>"
    );
}

#[test]
fn bins_truncate_to_four_keys() {
    let events = vec![
        key_down(10, "W"),
        key_down(11, "A"),
        key_down(12, "S"),
        key_down(13, "D"),
        key_down(14, "Shift"),
    ];
    let mut state = KeyState::new();
    let (_, _, _, bins) = compile_window(&events, 0, 200, &mut state);
    assert_eq!(bins.len(), 6);
    assert_eq!(bins[0].len(), 4);
    // Rank order puts the modifier before the movement keys.
    assert_eq!(bins[0], vec!["Shift", "W", "A", "S"]);
}

#[test]
fn sort_keys_uses_rank_then_lex() {
    let mut set = KeySet::new();
    set.insert("B");
    set.insert("W");
    set.insert("Shift");
    set.insert("MouseLeft");
    set.insert("Space");
    set.insert("one");
    set.insert("One");
    let sorted = sort_keys(&set);
    assert_eq!(
        sorted,
        vec!["MouseLeft", "Shift", "W", "Space", "one", "One", "B"]
    );
}

#[test]
fn key_rank_groups() {
    assert_eq!(key_rank("MouseLeft"), (0, 0));
    assert_eq!(key_rank("MouseMiddle"), (0, 2));
    assert_eq!(key_rank("Ctrl"), (1, 1));
    assert_eq!(key_rank("D"), (2, 3));
    assert_eq!(key_rank("Enter"), (3, 3));
    assert_eq!(key_rank("zero"), (4, 0));
    assert_eq!(key_rank("one"), (4, 1));
    assert_eq!(key_rank("nine"), (4, 9));
    assert_eq!(key_rank("One"), (4, 10));
    assert_eq!(key_rank("Twelve"), (4, 21));
    assert_eq!(key_rank("Backspace"), (5, 0));
}

#[test]
fn clamp_limits_both_sides() {
    assert_eq!(clamp(1500, 1000), 1000);
    assert_eq!(clamp(-1500, 1000), -1000);
    assert_eq!(clamp(7, 1000), 7);
    assert_eq!(clamp(-7, 5), -5);
    assert_eq!(clamp(3, 5), 3);
}

#[test]
fn format_joins_bins_with_separators() {
    let bins = vec![
        vec!["W".to_string(), "A".to_string()],
        vec![],
        vec!["S".to_string()],
        vec![],
        vec![],
        vec![],
    ];
    let out = format_action_string(7, -3, 2, &bins);
    assert_eq!(out, "<|action_start|>7 -3 2 ; W A ; ; S ; ; ;<|action_end|>");
}

#[test]
fn state_carries_between_windows() {
    let mut state = KeyState::new();
    let w1 = vec![key_down(10, "W")];
    compile_action_string(&w1, 0, 200, &mut state);
    let out = compile_action_string(&[], 200, 400, &mut state);
    assert_eq!(out, "<|action_start|>0 0 0 ; W ; W ; W ; W ; W ; W<|action_end|>");
}
