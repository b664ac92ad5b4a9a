//! The per-window fold: events inside the half-open window
//! `[window_start, window_end)` are folded into one structured snapshot,
//! while the set of keys held down persists across windows. When the
//! capture target is not the foreground window, motion, wheel, buttons
//! and key lists are zeroed, but the cursor sample is still carried and
//! the held-down set still absorbs the window's events, so holds survive
//! a foreground loss.

use vstd::prelude::*;

use crate::events::{InputEvent, InputEventKind, MouseButton};
use crate::keys::{key_views, KeySet};
use crate::snapshot::{
    ActionSnapshot, CursorSample, KeyboardSnapshot, MouseButtons, MouseSnapshot, WindowState,
};
use crate::{QpcTimestamp, StepIndex};

verus! {

/// Whether an event's tick falls in the half-open window.
pub open spec fn in_window(e: InputEvent, start: QpcTimestamp, end: QpcTimestamp) -> bool {
    start <= e.qpc_ts < end
}

/// Signed 32-bit addition clamped at the type's bounds.
pub open spec fn spec_sat_add_i32(a: int, b: int) -> int {
    if a + b > i32::MAX as int {
        i32::MAX as int
    } else if a + b < i32::MIN as int {
        i32::MIN as int
    } else {
        a + b
    }
}

/// Signed 32-bit addition clamped at the type's bounds.
pub fn sat_add_i32(a: i32, b: i32) -> (r: i32)
    ensures
        r as int == spec_sat_add_i32(a as int, b as int),
{
    match a.checked_add(b) {
        Some(v) => v,
        None => if b > 0 {
            i32::MAX
        } else {
            i32::MIN
        },
    }
}

/// How one event changes the set of keyboard keys held down; mouse
/// events leave it alone.
pub open spec fn kb_down_step(s: Set<Seq<char>>, kind: InputEventKind) -> Set<Seq<char>> {
    match kind {
        InputEventKind::KeyDown { key } => s.insert(key@),
        InputEventKind::KeyUp { key } => s.remove(key@),
        _ => s,
    }
}

/// The keyboard keys held down after folding the window's events over `s`.
pub open spec fn snap_down_after(
    s: Set<Seq<char>>,
    events: Seq<InputEvent>,
    start: QpcTimestamp,
    end: QpcTimestamp,
) -> Set<Seq<char>>
    decreases events.len(),
{
    if events.len() == 0 {
        s
    } else {
        let prev = snap_down_after(s, events.drop_last(), start, end);
        if in_window(events.last(), start, end) {
            kb_down_step(prev, events.last().kind)
        } else {
            prev
        }
    }
}

/// The keys pressed during the window, folded over `s`.
pub open spec fn pressed_after(
    s: Set<Seq<char>>,
    events: Seq<InputEvent>,
    start: QpcTimestamp,
    end: QpcTimestamp,
) -> Set<Seq<char>>
    decreases events.len(),
{
    if events.len() == 0 {
        s
    } else {
        let prev = pressed_after(s, events.drop_last(), start, end);
        if in_window(events.last(), start, end) {
            match events.last().kind {
                InputEventKind::KeyDown { key } => prev.insert(key@),
                _ => prev,
            }
        } else {
            prev
        }
    }
}

/// The keys released during the window, folded over `s`.
pub open spec fn released_after(
    s: Set<Seq<char>>,
    events: Seq<InputEvent>,
    start: QpcTimestamp,
    end: QpcTimestamp,
) -> Set<Seq<char>>
    decreases events.len(),
{
    if events.len() == 0 {
        s
    } else {
        let prev = released_after(s, events.drop_last(), start, end);
        if in_window(events.last(), start, end) {
            match events.last().kind {
                InputEventKind::KeyUp { key } => prev.insert(key@),
                _ => prev,
            }
        } else {
            prev
        }
    }
}

/// The button mask with one button marked.
pub open spec fn spec_mark_button(b: MouseButtons, button: MouseButton) -> MouseButtons {
    match button {
        MouseButton::Left => MouseButtons { left: true, ..b },
        MouseButton::Right => MouseButtons { right: true, ..b },
        MouseButton::Middle => MouseButtons { middle: true, ..b },
        MouseButton::X1 => MouseButtons { x1: true, ..b },
        MouseButton::X2 => MouseButtons { x2: true, ..b },
    }
}

/// The mask of buttons that went down during the window, folded over
/// `b`; a button release within the window does not clear its mark.
pub open spec fn buttons_after(
    b: MouseButtons,
    events: Seq<InputEvent>,
    start: QpcTimestamp,
    end: QpcTimestamp,
) -> MouseButtons
    decreases events.len(),
{
    if events.len() == 0 {
        b
    } else {
        let prev = buttons_after(b, events.drop_last(), start, end);
        if in_window(events.last(), start, end) {
            match events.last().kind {
                InputEventKind::MouseButton { button, is_down } => if is_down {
                    spec_mark_button(prev, button)
                } else {
                    prev
                },
                _ => prev,
            }
        } else {
            prev
        }
    }
}

/// The saturating sum of horizontal mouse motion in the window, over `a`.
pub open spec fn dx_after(
    a: int,
    events: Seq<InputEvent>,
    start: QpcTimestamp,
    end: QpcTimestamp,
) -> int
    decreases events.len(),
{
    if events.len() == 0 {
        a
    } else {
        let prev = dx_after(a, events.drop_last(), start, end);
        if in_window(events.last(), start, end) {
            match events.last().kind {
                InputEventKind::MouseMove { dx, dy } => spec_sat_add_i32(prev, dx as int),
                _ => prev,
            }
        } else {
            prev
        }
    }
}

/// The saturating sum of vertical mouse motion in the window, over `a`.
pub open spec fn dy_after(
    a: int,
    events: Seq<InputEvent>,
    start: QpcTimestamp,
    end: QpcTimestamp,
) -> int
    decreases events.len(),
{
    if events.len() == 0 {
        a
    } else {
        let prev = dy_after(a, events.drop_last(), start, end);
        if in_window(events.last(), start, end) {
            match events.last().kind {
                InputEventKind::MouseMove { dx, dy } => spec_sat_add_i32(prev, dy as int),
                _ => prev,
            }
        } else {
            prev
        }
    }
}

/// The saturating sum of wheel motion in the window, over `a`.
pub open spec fn wheel_after(
    a: int,
    events: Seq<InputEvent>,
    start: QpcTimestamp,
    end: QpcTimestamp,
) -> int
    decreases events.len(),
{
    if events.len() == 0 {
        a
    } else {
        let prev = wheel_after(a, events.drop_last(), start, end);
        if in_window(events.last(), start, end) {
            match events.last().kind {
                InputEventKind::MouseWheel { delta } => spec_sat_add_i32(prev, delta as int),
                _ => prev,
            }
        } else {
            prev
        }
    }
}

/// A cursor position handed to the aggregator, in the same fixed point
/// as [`CursorSample`].
#[derive(Debug, Clone, PartialEq, Eq, Structural)]
pub struct CursorProvider {
    pub visible: bool,
    pub x_norm: u32,
    pub y_norm: u32,
}

impl CursorProvider {
    /// The cursor sample this provider reports.
    pub fn sample(&self) -> (c: CursorSample)
        ensures
            c == (CursorSample {
                visible: self.visible,
                x_norm: self.x_norm,
                y_norm: self.y_norm,
            }),
    {
        CursorSample { visible: self.visible, x_norm: self.x_norm, y_norm: self.y_norm }
    }
}

/// The state the aggregator carries across windows: the keyboard keys
/// held down, which the snapshots report, and the separate key set of
/// keyboard keys and mouse buttons that the compiled bins consider held.
#[derive(Debug)]
pub struct AggregatorState {
    pub down_keys: KeySet,
    pub compiled_keys: crate::compiler::KeyState,
}

impl AggregatorState {
    /// Both held-down sets are sorted and duplicate-free.
    pub open spec fn well_formed(self) -> bool {
        self.down_keys.well_formed() && self.compiled_keys.down.well_formed()
    }

    /// No key held at session start.
    pub fn new() -> (s: AggregatorState)
        ensures
            s.well_formed(),
            s.down_keys.key_set() =~= Set::<Seq<char>>::empty(),
            s.compiled_keys.down.key_set() =~= Set::<Seq<char>>::empty(),
    {
        AggregatorState {
            down_keys: KeySet::new(),
            compiled_keys: crate::compiler::KeyState::new(),
        }
    }
}

/// The button mask with one more button marked.
fn mark_button(buttons: &mut MouseButtons, button: MouseButton)
    ensures
        *final(buttons) == spec_mark_button(*old(buttons), button),
{
    match button {
        MouseButton::Left => buttons.left = true,
        MouseButton::Right => buttons.right = true,
        MouseButton::Middle => buttons.middle = true,
        MouseButton::X1 => buttons.x1 = true,
        MouseButton::X2 => buttons.x2 = true,
    }
}

/// Fold one window's events into a structured snapshot.
///
/// Key presses and releases inside the window always update the held-down
/// set, foreground or not. With the target in the foreground the snapshot
/// reports saturated motion sums, the buttons that went down, and the key
/// lists in the canonical rank-then-lex order; otherwise it reports zero
/// motion, no buttons and empty lists, but still the provided cursor
/// sample.
pub fn aggregate_window(
    events: &[InputEvent],
    window_start: QpcTimestamp,
    window_end: QpcTimestamp,
    step_index: StepIndex,
    is_foreground: bool,
    cursor_provider: &CursorProvider,
    state: &mut AggregatorState,
) -> (out: ActionSnapshot)
    requires
        old(state).well_formed(),
    ensures
        final(state).well_formed(),
        final(state).compiled_keys == old(state).compiled_keys,
        final(state).down_keys.key_set() == snap_down_after(
            old(state).down_keys.key_set(),
            events@,
            window_start,
            window_end,
        ),
        out.step_index == step_index,
        out.qpc_ts == window_end,
        out.window.is_foreground == is_foreground,
        out.mouse.cursor == (CursorSample {
            visible: cursor_provider.visible,
            x_norm: cursor_provider.x_norm,
            y_norm: cursor_provider.y_norm,
        }),
        !is_foreground ==> out.mouse.dx == 0 && out.mouse.dy == 0 && out.mouse.wheel == 0,
        !is_foreground ==> out.mouse.buttons == (MouseButtons {
            left: false,
            right: false,
            middle: false,
            x1: false,
            x2: false,
        }),
        !is_foreground ==> out.keyboard.down@.len() == 0 && out.keyboard.pressed@.len() == 0
            && out.keyboard.released@.len() == 0,
        is_foreground ==> out.mouse.dx as int == dx_after(0, events@, window_start, window_end),
        is_foreground ==> out.mouse.dy as int == dy_after(0, events@, window_start, window_end),
        is_foreground ==> out.mouse.wheel as int == wheel_after(
            0,
            events@,
            window_start,
            window_end,
        ),
        is_foreground ==> out.mouse.buttons == buttons_after(
            MouseButtons { left: false, right: false, middle: false, x1: false, x2: false },
            events@,
            window_start,
            window_end,
        ),
        is_foreground ==> key_views(out.keyboard.down@).to_set()
            == final(state).down_keys.key_set() && crate::compiler::compiled_sorted(
            key_views(out.keyboard.down@),
        ),
        is_foreground ==> key_views(out.keyboard.pressed@).to_set() == pressed_after(
            Set::<Seq<char>>::empty(),
            events@,
            window_start,
            window_end,
        ) && crate::compiler::compiled_sorted(key_views(out.keyboard.pressed@)),
        is_foreground ==> key_views(out.keyboard.released@).to_set() == released_after(
            Set::<Seq<char>>::empty(),
            events@,
            window_start,
            window_end,
        ) && crate::compiler::compiled_sorted(key_views(out.keyboard.released@)),
{
    let n = events.len();
    let mut dx: i32 = 0;
    let mut dy: i32 = 0;
    let mut wheel: i32 = 0;
    let mut pressed = KeySet::new();
    let mut released = KeySet::new();
    let mut buttons = MouseButtons { left: false, right: false, middle: false, x1: false, x2: false };
    let ghost down0 = old(state).down_keys.key_set();
    let ghost b0 = buttons;

    let mut i: usize = 0;
    while i < n
        invariant
            i <= n,
            n == events@.len(),
            state.well_formed(),
            state.compiled_keys == old(state).compiled_keys,
            pressed.well_formed(),
            released.well_formed(),
            state.down_keys.key_set() == snap_down_after(
                down0,
                events@.take(i as int),
                window_start,
                window_end,
            ),
            pressed.key_set() == pressed_after(
                Set::<Seq<char>>::empty(),
                events@.take(i as int),
                window_start,
                window_end,
            ),
            released.key_set() == released_after(
                Set::<Seq<char>>::empty(),
                events@.take(i as int),
                window_start,
                window_end,
            ),
            buttons == buttons_after(b0, events@.take(i as int), window_start, window_end),
            b0 == (MouseButtons { left: false, right: false, middle: false, x1: false, x2: false }),
            dx as int == dx_after(0, events@.take(i as int), window_start, window_end),
            dy as int == dy_after(0, events@.take(i as int), window_start, window_end),
            wheel as int == wheel_after(0, events@.take(i as int), window_start, window_end),
        decreases n - i,
    {
        let event = &events[i];
        proof {
            assert(events@.take(i as int + 1).drop_last() =~= events@.take(i as int));
            assert(events@.take(i as int + 1).last() == events@[i as int]);
        }
        if event.qpc_ts >= window_start && event.qpc_ts < window_end {
            match &event.kind {
                InputEventKind::KeyDown { key } => {
                    state.down_keys.insert(key.as_str());
                    pressed.insert(key.as_str());
                },
                InputEventKind::KeyUp { key } => {
                    state.down_keys.remove(key.as_str());
                    released.insert(key.as_str());
                },
                InputEventKind::MouseMove { dx: edx, dy: edy } => {
                    dx = sat_add_i32(dx, *edx);
                    dy = sat_add_i32(dy, *edy);
                },
                InputEventKind::MouseWheel { delta } => {
                    wheel = sat_add_i32(wheel, *delta);
                },
                InputEventKind::MouseButton { button, is_down } => {
                    if *is_down {
                        mark_button(&mut buttons, *button);
                    }
                },
            }
        }
        i = i + 1;
    }
    proof {
        assert(events@.take(n as int) =~= events@);
    }

    let cursor = cursor_provider.sample();

    if !is_foreground {
        return ActionSnapshot {
            step_index,
            qpc_ts: window_end,
            window: WindowState { is_foreground },
            mouse: MouseSnapshot {
                dx: 0,
                dy: 0,
                wheel: 0,
                buttons: MouseButtons {
                    left: false,
                    right: false,
                    middle: false,
                    x1: false,
                    x2: false,
                },
                cursor,
            },
            keyboard: KeyboardSnapshot {
                down: Vec::new(),
                pressed: Vec::new(),
                released: Vec::new(),
            },
        };
    }

    let down_list = crate::compiler::sort_keys(&state.down_keys);
    let pressed_list = crate::compiler::sort_keys(&pressed);
    let released_list = crate::compiler::sort_keys(&released);
    proof {
        assert forall|k: Seq<char>|
            key_views(down_list@).to_set().contains(k) <==> state.down_keys.key_set().contains(
                k,
            ) by {
            assert(key_views(down_list@).contains(k) <==> state.down_keys.has(k));
        }
        assert(key_views(down_list@).to_set() =~= state.down_keys.key_set());
        assert forall|k: Seq<char>|
            key_views(pressed_list@).to_set().contains(k) <==> pressed.key_set().contains(k) by {
            assert(key_views(pressed_list@).contains(k) <==> pressed.has(k));
        }
        assert(key_views(pressed_list@).to_set() =~= pressed.key_set());
        assert forall|k: Seq<char>|
            key_views(released_list@).to_set().contains(k) <==> released.key_set().contains(
                k,
            ) by {
            assert(key_views(released_list@).contains(k) <==> released.has(k));
        }
        assert(key_views(released_list@).to_set() =~= released.key_set());
    }
    ActionSnapshot {
        step_index,
        qpc_ts: window_end,
        window: WindowState { is_foreground },
        mouse: MouseSnapshot { dx, dy, wheel, buttons, cursor },
        keyboard: KeyboardSnapshot {
            down: down_list,
            pressed: pressed_list,
            released: released_list,
        },
    }
}


/// One window's two artifacts: the structured snapshot and the compiled
/// action string.
#[derive(Debug)]
pub struct AggregatedWindow {
    pub snapshot: ActionSnapshot,
    pub compiled_action: String,
}

/// Fold one window's events into both artifacts at once: the structured
/// snapshot, and the compiled action string over the state's separate
/// compiled key set.
pub fn aggregate_window_with_compiled(
    events: &[InputEvent],
    window_start: QpcTimestamp,
    window_end: QpcTimestamp,
    step_index: StepIndex,
    is_foreground: bool,
    cursor_provider: &CursorProvider,
    state: &mut AggregatorState,
) -> (out: AggregatedWindow)
    requires
        old(state).well_formed(),
        crate::compiler::ts_sorted(events@),
    ensures
        final(state).well_formed(),
        final(state).down_keys.key_set() == snap_down_after(
            old(state).down_keys.key_set(),
            events@,
            window_start,
            window_end,
        ),
        final(state).compiled_keys.down.key_set() == crate::compiler::held_after(
            old(state).compiled_keys.down.key_set(),
            events@,
            window_start,
            crate::compiler::win_end(window_start, window_end),
        ),
        out.snapshot.step_index == step_index,
        out.snapshot.qpc_ts == window_end,
        out.snapshot.window.is_foreground == is_foreground,
        out.snapshot.mouse.cursor == (CursorSample {
            visible: cursor_provider.visible,
            x_norm: cursor_provider.x_norm,
            y_norm: cursor_provider.y_norm,
        }),
        !is_foreground ==> out.snapshot.mouse.dx == 0 && out.snapshot.mouse.dy == 0
            && out.snapshot.mouse.wheel == 0,
        !is_foreground ==> out.snapshot.keyboard.down@.len() == 0
            && out.snapshot.keyboard.pressed@.len() == 0
            && out.snapshot.keyboard.released@.len() == 0,
        is_foreground ==> out.snapshot.mouse.dx as int == dx_after(
            0,
            events@,
            window_start,
            window_end,
        ),
        is_foreground ==> out.snapshot.mouse.dy as int == dy_after(
            0,
            events@,
            window_start,
            window_end,
        ),
        is_foreground ==> out.snapshot.mouse.wheel as int == wheel_after(
            0,
            events@,
            window_start,
            window_end,
        ),
        is_foreground ==> out.snapshot.mouse.buttons == buttons_after(
            MouseButtons { left: false, right: false, middle: false, x1: false, x2: false },
            events@,
            window_start,
            window_end,
        ),
        is_foreground ==> key_views(out.snapshot.keyboard.down@).to_set()
            == final(state).down_keys.key_set() && crate::compiler::compiled_sorted(
            key_views(out.snapshot.keyboard.down@),
        ),
        is_foreground ==> key_views(out.snapshot.keyboard.pressed@).to_set() == pressed_after(
            Set::<Seq<char>>::empty(),
            events@,
            window_start,
            window_end,
        ) && crate::compiler::compiled_sorted(key_views(out.snapshot.keyboard.pressed@)),
        is_foreground ==> key_views(out.snapshot.keyboard.released@).to_set() == released_after(
            Set::<Seq<char>>::empty(),
            events@,
            window_start,
            window_end,
        ) && crate::compiler::compiled_sorted(key_views(out.snapshot.keyboard.released@)),
        exists|bins: Seq<Seq<Seq<char>>>|
            crate::compiler::compiled_output_ok(
                out.compiled_action@,
                old(state).compiled_keys.down.key_set(),
                events@,
                window_start,
                window_end,
                bins,
            ),
{
    let snapshot = aggregate_window(
        events,
        window_start,
        window_end,
        step_index,
        is_foreground,
        cursor_provider,
        state,
    );
    let ghost ck0 = state.compiled_keys.down.key_set();
    let compiled_action = crate::compiler::compile_action_string(
        events,
        window_start,
        window_end,
        &mut state.compiled_keys,
    );
    let result = AggregatedWindow { snapshot, compiled_action };
    proof {
        let bins = choose|bins: Seq<Seq<Seq<char>>>|
            crate::compiler::compiled_output_ok(
                result.compiled_action@,
                ck0,
                events@,
                window_start,
                window_end,
                bins,
            );
        assert(crate::compiler::compiled_output_ok(
            result.compiled_action@,
            old(state).compiled_keys.down.key_set(),
            events@,
            window_start,
            window_end,
            bins,
        ));
    }
    result
}


/// A held key survives any window that holds no release of it: folding
/// events without a `KeyUp` of `k` keeps `k` in the held-down set, so a
/// key pressed in one window stays in every later snapshot's `down`
/// list until it is released.
pub proof fn lemma_held_key_persists(
    s: Set<Seq<char>>,
    events: Seq<InputEvent>,
    a: QpcTimestamp,
    b: QpcTimestamp,
    k: Seq<char>,
)
    requires
        s.contains(k),
        forall|i: int|
            0 <= i < events.len() && in_window(#[trigger] events[i], a, b) ==> !(
            events[i].kind matches InputEventKind::KeyUp { key } && key@ == k),
    ensures
        snap_down_after(s, events, a, b).contains(k),
    decreases events.len(),
{
    if events.len() > 0 {
        assert(forall|i: int|
            0 <= i < events.drop_last().len() && in_window(
                #[trigger] events.drop_last()[i],
                a,
                b,
            ) ==> !(events.drop_last()[i].kind matches InputEventKind::KeyUp { key } && key@
            == k));
        lemma_held_key_persists(s, events.drop_last(), a, b, k);
        assert(events[events.len() - 1] == events.last());
    }
}

/// A key released inside the window and not pressed again afterwards is
/// out of the held-down set when the window ends, so later snapshots no
/// longer list it as down.
pub proof fn lemma_released_key_absent(
    s: Set<Seq<char>>,
    events: Seq<InputEvent>,
    a: QpcTimestamp,
    b: QpcTimestamp,
    k: Seq<char>,
    i: int,
)
    requires
        0 <= i < events.len(),
        in_window(events[i], a, b),
        events[i].kind matches InputEventKind::KeyUp { key } && key@ == k,
        forall|j: int|
            i < j < events.len() && in_window(#[trigger] events[j], a, b) ==> !(
            events[j].kind matches InputEventKind::KeyDown { key } && key@ == k),
    ensures
        !snap_down_after(s, events, a, b).contains(k),
    decreases events.len(),
{
    if i == events.len() - 1 {
        assert(events.last() == events[i]);
    } else {
        assert(forall|j: int|
            i < j < events.drop_last().len() && in_window(
                #[trigger] events.drop_last()[j],
                a,
                b,
            ) ==> !(events.drop_last()[j].kind matches InputEventKind::KeyDown { key } && key@
            == k));
        assert(events.drop_last()[i] == events[i]);
        lemma_released_key_absent(s, events.drop_last(), a, b, k, i);
        let last = events.last();
        assert(last == events[events.len() - 1]);
        if in_window(last, a, b) {
            assert(!(last.kind matches InputEventKind::KeyDown { key } && key@ == k));
        }
    }
}

/// A key released inside the window shows up in the window's `released`
/// list.
pub proof fn lemma_release_recorded(
    s: Set<Seq<char>>,
    events: Seq<InputEvent>,
    a: QpcTimestamp,
    b: QpcTimestamp,
    k: Seq<char>,
    i: int,
)
    requires
        0 <= i < events.len(),
        in_window(events[i], a, b),
        events[i].kind matches InputEventKind::KeyUp { key } && key@ == k,
    ensures
        released_after(s, events, a, b).contains(k),
    decreases events.len(),
{
    if i == events.len() - 1 {
        assert(events.last() == events[i]);
    } else {
        assert(events.drop_last()[i] == events[i]);
        lemma_release_recorded(s, events.drop_last(), a, b, k, i);
    }
}

} // verus!
