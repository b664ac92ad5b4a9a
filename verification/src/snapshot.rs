//! The per-step records: the structured action snapshot written to the
//! actions log, the cursor sample it carries, and the captured frame.
//! Normalized cursor coordinates are held in fixed point, as parts of
//! [`NORM_SCALE`], so that a coordinate of `NORM_SCALE` means 1.0.

use vstd::prelude::*;

use crate::{QpcTimestamp, StepIndex};

verus! {

/// Fixed-point scale of normalized cursor coordinates: this value is 1.0.
pub const NORM_SCALE: u32 = 1000000;

/// Whether the capture target was the foreground window.
#[derive(Debug, Clone, PartialEq, Eq, Structural)]
pub struct WindowState {
    pub is_foreground: bool,
}

/// Which mouse buttons went down during the window.
#[derive(Debug, Clone, PartialEq, Eq, Structural)]
pub struct MouseButtons {
    pub left: bool,
    pub right: bool,
    pub middle: bool,
    pub x1: bool,
    pub x2: bool,
}

impl Default for MouseButtons {
    /// No button marked.
    fn default() -> (b: MouseButtons)
        ensures
            b == (MouseButtons { left: false, right: false, middle: false, x1: false, x2: false }),
    {
        MouseButtons { left: false, right: false, middle: false, x1: false, x2: false }
    }
}

/// A cursor sample: visibility and the cursor's normalized position in
/// record space, each coordinate in `[0, NORM_SCALE]` fixed point.
#[derive(Debug, Clone, PartialEq, Eq, Structural)]
pub struct CursorSample {
    pub visible: bool,
    pub x_norm: u32,
    pub y_norm: u32,
}

impl CursorSample {
    /// Coordinates are clamped to `[0, 1]`.
    pub open spec fn well_formed(self) -> bool {
        self.x_norm <= NORM_SCALE && self.y_norm <= NORM_SCALE
    }
}

impl Default for CursorSample {
    /// Not visible, position unknown, reported as the origin.
    fn default() -> (c: CursorSample)
        ensures
            c == (CursorSample { visible: false, x_norm: 0u32, y_norm: 0u32 }),
            c.well_formed(),
    {
        CursorSample { visible: false, x_norm: 0, y_norm: 0 }
    }
}

/// The keys down at window end, pressed during the window, and released
/// during the window; each list sorted in the canonical rank-then-lex
/// order of the compiled format.
#[derive(Debug, Clone)]
pub struct KeyboardSnapshot {
    pub down: Vec<String>,
    pub pressed: Vec<String>,
    pub released: Vec<String>,
}

impl Default for KeyboardSnapshot {
    /// All three lists empty.
    fn default() -> (k: KeyboardSnapshot)
        ensures
            k.down@ =~= Seq::<String>::empty(),
            k.pressed@ =~= Seq::<String>::empty(),
            k.released@ =~= Seq::<String>::empty(),
    {
        KeyboardSnapshot { down: Vec::new(), pressed: Vec::new(), released: Vec::new() }
    }
}

/// Accumulated mouse state of one window.
#[derive(Debug, Clone)]
pub struct MouseSnapshot {
    pub dx: i32,
    pub dy: i32,
    pub wheel: i32,
    pub buttons: MouseButtons,
    pub cursor: CursorSample,
}

/// One step's structured record: window, mouse and keyboard state.
#[derive(Debug, Clone)]
pub struct ActionSnapshot {
    pub step_index: StepIndex,
    pub qpc_ts: QpcTimestamp,
    pub window: WindowState,
    pub mouse: MouseSnapshot,
    pub keyboard: KeyboardSnapshot,
}

/// One captured frame, letterboxed into record space. `src_w` and
/// `src_h` are the unscaled capture dimensions before letterboxing;
/// `data` holds `width * height * 4` BGRA bytes.
#[derive(Debug, Clone)]
pub struct FrameRecord {
    pub step_index: StepIndex,
    pub qpc_ts: QpcTimestamp,
    pub src_w: u32,
    pub src_h: u32,
    pub width: u32,
    pub height: u32,
    pub data: Vec<u8>,
}

impl FrameRecord {
    /// The pixel buffer holds exactly four bytes per record pixel.
    pub open spec fn well_formed(self) -> bool {
        self.data@.len() == self.width * self.height * 4
    }
}

} // verus!
