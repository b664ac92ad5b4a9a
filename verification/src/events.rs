//! The event model: timestamped keyboard and mouse events, the mapping
//! from OS virtual-key codes to stable symbolic key names, and the
//! running set of keys that are currently held down.

use vstd::prelude::*;

use crate::keys::KeySet;
use crate::QpcTimestamp;

verus! {

/// A mouse button, as reported by the OS input tap.
#[derive(Debug, Clone, Copy, PartialEq, Eq, Structural)]
pub enum MouseButton {
    Left,
    Right,
    Middle,
    X1,
    X2,
}

/// What one input event reports.
#[derive(Debug, Clone)]
pub enum InputEventKind {
    KeyDown { key: String },
    KeyUp { key: String },
    MouseMove { dx: i32, dy: i32 },
    MouseWheel { delta: i32 },
    MouseButton { button: MouseButton, is_down: bool },
}

/// One input event with the tick at which it was decoded.
#[derive(Debug, Clone)]
pub struct InputEvent {
    pub qpc_ts: QpcTimestamp,
    pub kind: InputEventKind,
}

/// The key name under which a mouse button is tracked.
pub open spec fn button_key(button: MouseButton) -> Seq<char> {
    match button {
        MouseButton::Left => "MouseLeft"@,
        MouseButton::Right => "MouseRight"@,
        MouseButton::Middle => "MouseMiddle"@,
        MouseButton::X1 => "MouseX1"@,
        MouseButton::X2 => "MouseX2"@,
    }
}

/// The key name under which a mouse button is tracked.
pub fn mouse_button_name(button: MouseButton) -> (r: &'static str)
    ensures
        r@ == button_key(button),
{
    match button {
        MouseButton::Left => "MouseLeft",
        MouseButton::Right => "MouseRight",
        MouseButton::Middle => "MouseMiddle",
        MouseButton::X1 => "MouseX1",
        MouseButton::X2 => "MouseX2",
    }
}

/// The stable symbolic name of a virtual-key code; unknown codes have
/// none and their events are dropped.
pub open spec fn spec_keyboard_key_name(vk: u16) -> Option<Seq<char>> {
    match vk {
        0x41u16 => Some("A"@),
        0x42u16 => Some("B"@),
        0x43u16 => Some("C"@),
        0x44u16 => Some("D"@),
        0x45u16 => Some("E"@),
        0x46u16 => Some("F"@),
        0x47u16 => Some("G"@),
        0x48u16 => Some("H"@),
        0x49u16 => Some("I"@),
        0x4au16 => Some("J"@),
        0x4bu16 => Some("K"@),
        0x4cu16 => Some("L"@),
        0x4du16 => Some("M"@),
        0x4eu16 => Some("N"@),
        0x4fu16 => Some("O"@),
        0x50u16 => Some("P"@),
        0x51u16 => Some("Q"@),
        0x52u16 => Some("R"@),
        0x53u16 => Some("S"@),
        0x54u16 => Some("T"@),
        0x55u16 => Some("U"@),
        0x56u16 => Some("V"@),
        0x57u16 => Some("W"@),
        0x58u16 => Some("X"@),
        0x59u16 => Some("Y"@),
        0x5au16 => Some("Z"@),
        0x30u16 => Some("zero"@),
        0x31u16 => Some("one"@),
        0x32u16 => Some("two"@),
        0x33u16 => Some("three"@),
        0x34u16 => Some("four"@),
        0x35u16 => Some("five"@),
        0x36u16 => Some("six"@),
        0x37u16 => Some("seven"@),
        0x38u16 => Some("eight"@),
        0x39u16 => Some("nine"@),
        0x60u16 => Some("Numpad0"@),
        0x61u16 => Some("Numpad1"@),
        0x62u16 => Some("Numpad2"@),
        0x63u16 => Some("Numpad3"@),
        0x64u16 => Some("Numpad4"@),
        0x65u16 => Some("Numpad5"@),
        0x66u16 => Some("Numpad6"@),
        0x67u16 => Some("Numpad7"@),
        0x68u16 => Some("Numpad8"@),
        0x69u16 => Some("Numpad9"@),
        0x70u16 => Some("One"@),
        0x71u16 => Some("Two"@),
        0x72u16 => Some("Three"@),
        0x73u16 => Some("Four"@),
        0x74u16 => Some("Five"@),
        0x75u16 => Some("Six"@),
        0x76u16 => Some("Seven"@),
        0x77u16 => Some("Eight"@),
        0x78u16 => Some("Nine"@),
        0x79u16 => Some("Ten"@),
        0x7au16 => Some("Eleven"@),
        0x7bu16 => Some("Twelve"@),
        0x10u16 => Some("Shift"@),
        0x11u16 => Some("Ctrl"@),
        0x12u16 => Some("Alt"@),
        0x20u16 => Some("Space"@),
        0x1bu16 => Some("Esc"@),
        0x9u16 => Some("Tab"@),
        0xdu16 => Some("Enter"@),
        0x8u16 => Some("Backspace"@),
        0x2du16 => Some("Insert"@),
        0x2eu16 => Some("Delete"@),
        0x24u16 => Some("Home"@),
        0x23u16 => Some("End"@),
        0x21u16 => Some("PageUp"@),
        0x22u16 => Some("PageDown"@),
        0x13u16 => Some("Pause"@),
        0x2cu16 => Some("PrintScreen"@),
        0x14u16 => Some("CapsLock"@),
        0x90u16 => Some("NumLock"@),
        0x91u16 => Some("ScrollLock"@),
        0x26u16 => Some("Up"@),
        0x28u16 => Some("Down"@),
        0x25u16 => Some("Left"@),
        0x27u16 => Some("Right"@),
        0x5bu16 => Some("LWin"@),
        0x5cu16 => Some("RWin"@),
        0x5du16 => Some("Menu"@),
        0x6au16 => Some("NumpadMultiply"@),
        0x6bu16 => Some("NumpadAdd"@),
        0x6du16 => Some("NumpadSubtract"@),
        0x6eu16 => Some("NumpadDecimal"@),
        0x6fu16 => Some("NumpadDivide"@),
        _ => None,
    }
}

/// The stable symbolic name of a virtual-key code: letters map to
/// themselves, digits to "zero".."nine", function keys to the ordinal
/// words "One".."Twelve"; unknown codes map to nothing.
pub fn keyboard_key_name(vk: u16) -> (r: Option<&'static str>)
    ensures
        match r {
            Some(s) => spec_keyboard_key_name(vk) == Some(s@),
            None => spec_keyboard_key_name(vk) is None,
        },
{
    match vk {
        0x41 => Some("A"),
        0x42 => Some("B"),
        0x43 => Some("C"),
        0x44 => Some("D"),
        0x45 => Some("E"),
        0x46 => Some("F"),
        0x47 => Some("G"),
        0x48 => Some("H"),
        0x49 => Some("I"),
        0x4a => Some("J"),
        0x4b => Some("K"),
        0x4c => Some("L"),
        0x4d => Some("M"),
        0x4e => Some("N"),
        0x4f => Some("O"),
        0x50 => Some("P"),
        0x51 => Some("Q"),
        0x52 => Some("R"),
        0x53 => Some("S"),
        0x54 => Some("T"),
        0x55 => Some("U"),
        0x56 => Some("V"),
        0x57 => Some("W"),
        0x58 => Some("X"),
        0x59 => Some("Y"),
        0x5a => Some("Z"),
        0x30 => Some("zero"),
        0x31 => Some("one"),
        0x32 => Some("two"),
        0x33 => Some("three"),
        0x34 => Some("four"),
        0x35 => Some("five"),
        0x36 => Some("six"),
        0x37 => Some("seven"),
        0x38 => Some("eight"),
        0x39 => Some("nine"),
        0x60 => Some("Numpad0"),
        0x61 => Some("Numpad1"),
        0x62 => Some("Numpad2"),
        0x63 => Some("Numpad3"),
        0x64 => Some("Numpad4"),
        0x65 => Some("Numpad5"),
        0x66 => Some("Numpad6"),
        0x67 => Some("Numpad7"),
        0x68 => Some("Numpad8"),
        0x69 => Some("Numpad9"),
        0x70 => Some("One"),
        0x71 => Some("Two"),
        0x72 => Some("Three"),
        0x73 => Some("Four"),
        0x74 => Some("Five"),
        0x75 => Some("Six"),
        0x76 => Some("Seven"),
        0x77 => Some("Eight"),
        0x78 => Some("Nine"),
        0x79 => Some("Ten"),
        0x7a => Some("Eleven"),
        0x7b => Some("Twelve"),
        0x10 => Some("Shift"),
        0x11 => Some("Ctrl"),
        0x12 => Some("Alt"),
        0x20 => Some("Space"),
        0x1b => Some("Esc"),
        0x9 => Some("Tab"),
        0xd => Some("Enter"),
        0x8 => Some("Backspace"),
        0x2d => Some("Insert"),
        0x2e => Some("Delete"),
        0x24 => Some("Home"),
        0x23 => Some("End"),
        0x21 => Some("PageUp"),
        0x22 => Some("PageDown"),
        0x13 => Some("Pause"),
        0x2c => Some("PrintScreen"),
        0x14 => Some("CapsLock"),
        0x90 => Some("NumLock"),
        0x91 => Some("ScrollLock"),
        0x26 => Some("Up"),
        0x28 => Some("Down"),
        0x25 => Some("Left"),
        0x27 => Some("Right"),
        0x5b => Some("LWin"),
        0x5c => Some("RWin"),
        0x5d => Some("Menu"),
        0x6a => Some("NumpadMultiply"),
        0x6b => Some("NumpadAdd"),
        0x6d => Some("NumpadSubtract"),
        0x6e => Some("NumpadDecimal"),
        0x6f => Some("NumpadDivide"),
        _ => None,
    }
}

/// A key event at `qpc_ts`: a press when `is_down`, else a release.
pub fn make_key_event(qpc_ts: QpcTimestamp, key: &str, is_down: bool) -> (e: InputEvent)
    ensures
        e.qpc_ts == qpc_ts,
        is_down ==> (e.kind matches InputEventKind::KeyDown { key: k } && k@ == key@),
        !is_down ==> (e.kind matches InputEventKind::KeyUp { key: k } && k@ == key@),
{
    let kind = if is_down {
        InputEventKind::KeyDown { key: String::from_str(key) }
    } else {
        InputEventKind::KeyUp { key: String::from_str(key) }
    };
    InputEvent { qpc_ts, kind }
}

/// A mouse-button event at `qpc_ts`.
pub fn make_mouse_button_event(qpc_ts: QpcTimestamp, button: MouseButton, is_down: bool) -> (e:
    InputEvent)
    ensures
        e.qpc_ts == qpc_ts,
        e.kind == (InputEventKind::MouseButton { button, is_down }),
{
    InputEvent { qpc_ts, kind: InputEventKind::MouseButton { button, is_down } }
}

/// A relative mouse-motion event at `qpc_ts`.
pub fn make_mouse_move_event(qpc_ts: QpcTimestamp, dx: i32, dy: i32) -> (e: InputEvent)
    ensures
        e.qpc_ts == qpc_ts,
        e.kind == (InputEventKind::MouseMove { dx, dy }),
{
    InputEvent { qpc_ts, kind: InputEventKind::MouseMove { dx, dy } }
}

/// A mouse-wheel event at `qpc_ts`.
pub fn make_mouse_wheel_event(qpc_ts: QpcTimestamp, delta: i32) -> (e: InputEvent)
    ensures
        e.qpc_ts == qpc_ts,
        e.kind == (InputEventKind::MouseWheel { delta }),
{
    InputEvent { qpc_ts, kind: InputEventKind::MouseWheel { delta } }
}

/// The key a kind presses or releases: key events name their key, button
/// events their button's key name, and motion and wheel events none.
pub open spec fn tracked_key(kind: InputEventKind) -> Option<(Seq<char>, bool)> {
    match kind {
        InputEventKind::KeyDown { key } => Some((key@, true)),
        InputEventKind::KeyUp { key } => Some((key@, false)),
        InputEventKind::MouseButton { button, is_down } => Some((button_key(button), is_down)),
        _ => None,
    }
}

/// How one event changes the set of inputs that are held down, with
/// mouse buttons tracked under their key names.
pub open spec fn down_step(s: Set<Seq<char>>, kind: InputEventKind) -> Set<Seq<char>> {
    match tracked_key(kind) {
        Some(p) => if p.1 {
            s.insert(p.0)
        } else {
            s.remove(p.0)
        },
        None => s,
    }
}

/// The set of inputs held down after a sequence of events.
pub open spec fn down_after(s: Set<Seq<char>>, events: Seq<InputEvent>) -> Set<Seq<char>>
    decreases events.len(),
{
    if events.len() == 0 {
        s
    } else {
        down_step(down_after(s, events.drop_last()), events.last().kind)
    }
}

/// The set of keys and buttons currently held down.
#[derive(Debug)]
pub struct InputState {
    pub down_keys: KeySet,
}

impl InputState {
    /// No key is down at the start.
    pub fn new() -> (s: InputState)
        ensures
            s.down_keys.well_formed(),
            s.down_keys.key_set() =~= Set::<Seq<char>>::empty(),
    {
        InputState { down_keys: KeySet::new() }
    }

    /// Fold one event into the held-down set: a key or button press adds
    /// its key name, a release removes it, motion changes nothing.
    pub fn apply_event(&mut self, event: &InputEvent)
        requires
            old(self).down_keys.well_formed(),
        ensures
            final(self).down_keys.well_formed(),
            final(self).down_keys.key_set() == down_step(
                old(self).down_keys.key_set(),
                event.kind,
            ),
    {
        match &event.kind {
            InputEventKind::KeyDown { key } => {
                self.down_keys.insert(key.as_str());
            },
            InputEventKind::KeyUp { key } => {
                self.down_keys.remove(key.as_str());
            },
            InputEventKind::MouseButton { button, is_down } => {
                let name = mouse_button_name(*button);
                if *is_down {
                    self.down_keys.insert(name);
                } else {
                    self.down_keys.remove(name);
                }
            },
            _ => {},
        }
    }
}


/// The release bit of a raw keyboard notification's flags.
pub const RAW_KEY_BREAK: u16 = 0x0001;

/// Decode one raw keyboard notification into a key event: the break
/// flag tells press from release, virtual key 255 is noise, and a code
/// without a name in the key table is dropped.
pub fn decode_raw_keyboard(vk: u16, flags: u16, qpc_ts: QpcTimestamp) -> (r: Option<InputEvent>)
    ensures
        ({
            let is_down = flags & RAW_KEY_BREAK == 0;
            match spec_keyboard_key_name(vk) {
                Some(name) => if vk == 255 {
                    r is None
                } else {
                    r is Some && r->0.qpc_ts == qpc_ts && if is_down {
                        r->0.kind matches InputEventKind::KeyDown { key } && key@ == name
                    } else {
                        r->0.kind matches InputEventKind::KeyUp { key } && key@ == name
                    }
                },
                None => r is None,
            }
        }),
{
    if vk == 255 {
        return None;
    }
    let is_down = flags & RAW_KEY_BREAK == 0;
    match keyboard_key_name(vk) {
        Some(name) => Some(make_key_event(qpc_ts, name, is_down)),
        None => None,
    }
}

/// The events one raw mouse notification carries: relative motion when
/// either delta is nonzero, then one event per button transition flag in
/// a fixed order, then the wheel motion if its flag is set.
pub open spec fn spec_decoded_mouse(
    last_x: i32,
    last_y: i32,
    button_flags: u16,
    wheel_delta: int,
    qpc_ts: QpcTimestamp,
) -> Seq<InputEvent> {
    let motion: Seq<InputEvent> = if last_x != 0 || last_y != 0 {
        seq![InputEvent { qpc_ts, kind: InputEventKind::MouseMove { dx: last_x, dy: last_y } }]
    } else {
        Seq::empty()
    };
    let buttons = spec_button_events(button_flags, qpc_ts);
    let wheel: Seq<InputEvent> = if button_flags & 0x0400u16 != 0 {
        seq![
            InputEvent {
                qpc_ts,
                kind: InputEventKind::MouseWheel { delta: wheel_delta as i32 },
            },
        ]
    } else {
        Seq::empty()
    };
    motion + buttons + wheel
}

/// The button transitions a raw mouse notification's flags encode, in
/// the fixed order left, right, middle, and the two extra buttons, each
/// down before up.
pub open spec fn spec_button_events(flags: u16, qpc_ts: QpcTimestamp) -> Seq<InputEvent> {
    button_bit(flags, 0x0001u16, MouseButton::Left, true, qpc_ts) + button_bit(
        flags,
        0x0002u16,
        MouseButton::Left,
        false,
        qpc_ts,
    ) + button_bit(flags, 0x0004u16, MouseButton::Right, true, qpc_ts) + button_bit(
        flags,
        0x0008u16,
        MouseButton::Right,
        false,
        qpc_ts,
    ) + button_bit(flags, 0x0010u16, MouseButton::Middle, true, qpc_ts) + button_bit(
        flags,
        0x0020u16,
        MouseButton::Middle,
        false,
        qpc_ts,
    ) + button_bit(flags, 0x0040u16, MouseButton::X1, true, qpc_ts) + button_bit(
        flags,
        0x0080u16,
        MouseButton::X1,
        false,
        qpc_ts,
    ) + button_bit(flags, 0x0100u16, MouseButton::X2, true, qpc_ts) + button_bit(
        flags,
        0x0200u16,
        MouseButton::X2,
        false,
        qpc_ts,
    )
}

/// One button event when its transition bit is set.
pub open spec fn button_bit(
    flags: u16,
    mask: u16,
    button: MouseButton,
    is_down: bool,
    qpc_ts: QpcTimestamp,
) -> Seq<InputEvent> {
    if flags & mask != 0 {
        seq![InputEvent { qpc_ts, kind: InputEventKind::MouseButton { button, is_down } }]
    } else {
        Seq::empty()
    }
}

/// The signed wheel motion a raw mouse notification's data field holds,
/// read as a two's-complement sixteen-bit value.
pub open spec fn spec_wheel_delta(button_data: u16) -> int {
    if button_data >= 0x8000 {
        button_data - 0x10000
    } else {
        button_data as int
    }
}

/// Decode one raw mouse notification into its events, in the order the
/// OS presents them: motion, button transitions, wheel.
#[verifier::rlimit(100)]
#[verifier::spinoff_prover]
pub fn decode_raw_mouse(
    last_x: i32,
    last_y: i32,
    button_flags: u16,
    button_data: u16,
    qpc_ts: QpcTimestamp,
) -> (out: Vec<InputEvent>)
    ensures
        out@ == spec_decoded_mouse(
            last_x,
            last_y,
            button_flags,
            spec_wheel_delta(button_data),
            qpc_ts,
        ),
{
    let ghost motion: Seq<InputEvent> = if last_x != 0 || last_y != 0 {
        seq![InputEvent { qpc_ts, kind: InputEventKind::MouseMove { dx: last_x, dy: last_y } }]
    } else {
        Seq::empty()
    };
    let mut out: Vec<InputEvent> = Vec::new();
    if last_x != 0 || last_y != 0 {
        out.push(make_mouse_move_event(qpc_ts, last_x, last_y));
    }
    let ghost mut btns: Seq<InputEvent> = Seq::empty();
    proof {
        assert(out@ =~= motion + btns);
    }
    emit_button(&mut out, button_flags, 0x0001, MouseButton::Left, true, qpc_ts);
    proof {
        btns = btns + button_bit(button_flags, 0x0001u16, MouseButton::Left, true, qpc_ts);
        assert(out@ =~= motion + btns);
    }
    emit_button(&mut out, button_flags, 0x0002, MouseButton::Left, false, qpc_ts);
    proof {
        btns = btns + button_bit(button_flags, 0x0002u16, MouseButton::Left, false, qpc_ts);
        assert(out@ =~= motion + btns);
    }
    emit_button(&mut out, button_flags, 0x0004, MouseButton::Right, true, qpc_ts);
    proof {
        btns = btns + button_bit(button_flags, 0x0004u16, MouseButton::Right, true, qpc_ts);
        assert(out@ =~= motion + btns);
    }
    emit_button(&mut out, button_flags, 0x0008, MouseButton::Right, false, qpc_ts);
    proof {
        btns = btns + button_bit(button_flags, 0x0008u16, MouseButton::Right, false, qpc_ts);
        assert(out@ =~= motion + btns);
    }
    emit_button(&mut out, button_flags, 0x0010, MouseButton::Middle, true, qpc_ts);
    proof {
        btns = btns + button_bit(button_flags, 0x0010u16, MouseButton::Middle, true, qpc_ts);
        assert(out@ =~= motion + btns);
    }
    emit_button(&mut out, button_flags, 0x0020, MouseButton::Middle, false, qpc_ts);
    proof {
        btns = btns + button_bit(button_flags, 0x0020u16, MouseButton::Middle, false, qpc_ts);
        assert(out@ =~= motion + btns);
    }
    emit_button(&mut out, button_flags, 0x0040, MouseButton::X1, true, qpc_ts);
    proof {
        btns = btns + button_bit(button_flags, 0x0040u16, MouseButton::X1, true, qpc_ts);
        assert(out@ =~= motion + btns);
    }
    emit_button(&mut out, button_flags, 0x0080, MouseButton::X1, false, qpc_ts);
    proof {
        btns = btns + button_bit(button_flags, 0x0080u16, MouseButton::X1, false, qpc_ts);
        assert(out@ =~= motion + btns);
    }
    emit_button(&mut out, button_flags, 0x0100, MouseButton::X2, true, qpc_ts);
    proof {
        btns = btns + button_bit(button_flags, 0x0100u16, MouseButton::X2, true, qpc_ts);
        assert(out@ =~= motion + btns);
    }
    emit_button(&mut out, button_flags, 0x0200, MouseButton::X2, false, qpc_ts);
    proof {
        btns = btns + button_bit(button_flags, 0x0200u16, MouseButton::X2, false, qpc_ts);
        assert(out@ =~= motion + btns);
    }
    proof {
        assert(btns =~= spec_button_events(button_flags, qpc_ts));
    }
    if button_flags & 0x0400 != 0 {
        let delta: i32 = if button_data >= 0x8000 {
            (button_data as i32) - 0x10000
        } else {
            button_data as i32
        };
        out.push(make_mouse_wheel_event(qpc_ts, delta));
    }
    proof {
        assert(out@ =~= spec_decoded_mouse(
            last_x,
            last_y,
            button_flags,
            spec_wheel_delta(button_data),
            qpc_ts,
        ));
    }
    out
}

/// Append one button event when its transition bit is set.
fn emit_button(
    out: &mut Vec<InputEvent>,
    flags: u16,
    mask: u16,
    button: MouseButton,
    is_down: bool,
    qpc_ts: QpcTimestamp,
)
    ensures
        final(out)@ == old(out)@ + button_bit(flags, mask, button, is_down, qpc_ts),
{
    if flags & mask != 0 {
        out.push(make_mouse_button_event(qpc_ts, button, is_down));
    } else {
        proof {
            assert(final(out)@ =~= old(out)@ + button_bit(flags, mask, button, is_down, qpc_ts));
        }
    }
}

} // verus!
