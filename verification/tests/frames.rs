use collector::capture::capture_gate;
use collector::events::{keyboard_key_name, mouse_button_name, MouseButton};
use collector::geometry::{cursor_norm, ensure_buffer_size, letterbox_bgra, letterbox_geometry,
    sample_cursor};
use collector::gui::{is_tmp_dir, resolve_targets};
use collector::numfmt::{i32_to_string, norm_to_string, u64_to_string};
use collector::step_ticks;

#[test]
fn key_names_follow_table() {
    assert_eq!(keyboard_key_name(0x41), Some("A"));
    assert_eq!(keyboard_key_name(0x5A), Some("Z"));
    assert_eq!(keyboard_key_name(0x30), Some("zero"));
    assert_eq!(keyboard_key_name(0x39), Some("nine"));
    assert_eq!(keyboard_key_name(0x60), Some("Numpad0"));
    assert_eq!(keyboard_key_name(0x70), Some("One"));
    assert_eq!(keyboard_key_name(0x7B), Some("Twelve"));
    assert_eq!(keyboard_key_name(0x10), Some("Shift"));
    assert_eq!(keyboard_key_name(0x1B), Some("Esc"));
    assert_eq!(keyboard_key_name(0xFF), None);
    assert_eq!(keyboard_key_name(0x07), None);
}

#[test]
fn button_names_follow_table() {
    assert_eq!(mouse_button_name(MouseButton::Left), "MouseLeft");
    assert_eq!(mouse_button_name(MouseButton::Right), "MouseRight");
    assert_eq!(mouse_button_name(MouseButton::Middle), "MouseMiddle");
    assert_eq!(mouse_button_name(MouseButton::X1), "MouseX1");
    assert_eq!(mouse_button_name(MouseButton::X2), "MouseX2");
}

#[test]
fn letterbox_same_aspect_fills() {
    let g = letterbox_geometry(1920, 1080, 1280, 720);
    assert_eq!(g.scaled_w, 1280);
    assert_eq!(g.scaled_h, 720);
    assert_eq!(g.pad_x, 0);
    assert_eq!(g.pad_y, 0);
}

#[test]
fn letterbox_square_source_pads_width() {
    let g = letterbox_geometry(1000, 1000, 1280, 720);
    assert_eq!(g.scaled_w, 720);
    assert_eq!(g.scaled_h, 720);
    assert_eq!(g.pad_x, 280);
    assert_eq!(g.pad_y, 0);
}

#[test]
fn letterbox_wide_source_pads_height() {
    let g = letterbox_geometry(1000, 250, 1280, 720);
    // Width-constrained: scale 1.28, height rounds to 320.
    assert_eq!(g.scaled_w, 1280);
    assert_eq!(g.scaled_h, 320);
    assert_eq!(g.pad_x, 0);
    assert_eq!(g.pad_y, 200);
}

#[test]
fn letterbox_copies_pixels_and_zeroes_padding() {
    // A 2x2 source into a 4x2 destination: 2x2 scaled, centred.
    let mut src = vec![0u8; 2 * 2 * 4];
    for (i, b) in src.iter_mut().enumerate() {
        *b = (i + 1) as u8;
    }
    let mut dst = vec![0xAAu8; 4 * 2 * 4];
    letterbox_bgra(&src, 2, 2, &mut dst, 4, 2);
    // Padding column zeroed.
    assert_eq!(&dst[0..4], &[0, 0, 0, 0]);
    // First scaled pixel comes from the source origin.
    assert_eq!(&dst[4..8], &src[0..4]);
    assert_eq!(&dst[8..12], &src[4..8]);
    assert_eq!(&dst[12..16], &[0, 0, 0, 0]);
    // Second row.
    assert_eq!(&dst[20..24], &src[8..12]);
    assert_eq!(&dst[24..28], &src[12..16]);
}

#[test]
fn letterbox_zero_dimension_zero_fills() {
    let src: Vec<u8> = Vec::new();
    let mut dst = vec![0xAAu8; 32];
    letterbox_bgra(&src, 0, 2, &mut dst, 4, 2);
    assert!(dst.iter().all(|b| *b == 0));
}

#[test]
fn letterbox_skips_pixels_past_short_buffer() {
    // The same 2x2-into-4x2 fit, but the buffer ends after the first row.
    let mut src = vec![0u8; 2 * 2 * 4];
    for (i, b) in src.iter_mut().enumerate() {
        *b = (i + 1) as u8;
    }
    let mut dst = vec![0xAAu8; 4 * 4];
    letterbox_bgra(&src, 2, 2, &mut dst, 4, 2);
    assert_eq!(&dst[0..4], &[0, 0, 0, 0]);
    assert_eq!(&dst[4..8], &src[0..4]);
    assert_eq!(&dst[8..12], &src[4..8]);
    assert_eq!(&dst[12..16], &[0, 0, 0, 0]);
}

#[test]
fn buffer_resized_to_frame_size() {
    let mut buf = vec![1u8; 3];
    ensure_buffer_size(&mut buf, 2, 2);
    assert_eq!(buf.len(), 16);
    assert!(buf.iter().all(|b| *b == 0));
    // A buffer already at size keeps its content.
    let mut same = vec![7u8; 16];
    ensure_buffer_size(&mut same, 2, 2);
    assert!(same.iter().all(|b| *b == 7));
}

#[test]
fn cursor_center_maps_to_half() {
    // Same aspect, no padding, 96 dpi: the client centre normalizes to 0.5.
    let (x, y) = cursor_norm(500, 250, 1000, 500, 96, 1000, 500, 1280, 640);
    assert_eq!(x, 500000);
    assert_eq!(y, 500000);
}

#[test]
fn cursor_clamps_outside_client() {
    let (x, y) = cursor_norm(-50, 9000, 1000, 500, 96, 1000, 500, 1280, 640);
    assert_eq!(x, 0);
    assert_eq!(y, 1000000);
}

#[test]
fn cursor_dpi_compensation_halves_position() {
    // At 192 dpi the physical client point maps to half the logical run.
    let (x, _) = cursor_norm(1000, 0, 1000, 500, 192, 1000, 500, 1280, 640);
    assert_eq!(x, 500000);
}

#[test]
fn sampling_guards_zero_dimensions() {
    // A usable geometry passes foreground through and maps the point.
    let (fg, sample) = sample_cursor(true, true, 500, 250, 1000, 500, 96, 1000, 500, 1280, 640);
    assert!(fg);
    assert!(sample.visible);
    assert_eq!(sample.x_norm, 500000);
    assert_eq!(sample.y_norm, 500000);
    // A zero client area yields not-foreground and a zero-coordinate sample.
    let (fg2, sample2) = sample_cursor(true, true, 500, 250, 0, 500, 96, 1000, 500, 1280, 640);
    assert!(!fg2);
    assert!(sample2.visible);
    assert_eq!(sample2.x_norm, 0);
    assert_eq!(sample2.y_norm, 0);
    // A zero record dimension likewise.
    let (fg3, sample3) = sample_cursor(true, false, 500, 250, 1000, 500, 96, 1000, 500, 0, 640);
    assert!(!fg3);
    assert!(!sample3.visible);
    assert_eq!(sample3.x_norm, 0);
}

#[test]
fn gate_keeps_first_frame_and_paces() {
    // No schedule yet: the first frame is kept.
    let (keep, next) = capture_gate(1000, 0, 100);
    assert!(keep);
    assert_eq!(next, 1100);
    // A frame before the schedule is skipped.
    let (keep2, next2) = capture_gate(1050, 1100, 100);
    assert!(!keep2);
    assert_eq!(next2, 1100);
    // A source far behind catches up without a burst.
    let (keep3, next3) = capture_gate(1750, 1100, 100);
    assert!(keep3);
    assert_eq!(next3, 1800);
}

#[test]
fn step_ticks_scales_with_frequency() {
    assert_eq!(step_ticks(10_000_000, 200), 2_000_000);
    assert_eq!(step_ticks(1000, 200), 200);
    // Degenerate clocks still give at least one tick.
    assert_eq!(step_ticks(1, 0), 1);
}

#[test]
fn decimal_rendering() {
    assert_eq!(u64_to_string(0), "0");
    assert_eq!(u64_to_string(90210), "90210");
    assert_eq!(i32_to_string(-1000), "-1000");
    assert_eq!(i32_to_string(i32::MIN), "-2147483648");
    assert_eq!(norm_to_string(0), "0.0");
    assert_eq!(norm_to_string(500000), "0.5");
    assert_eq!(norm_to_string(1000000), "1.0");
    assert_eq!(norm_to_string(60000), "0.06");
    assert_eq!(norm_to_string(123456), "0.123456");
}

#[test]
fn tmp_directories_are_recognized() {
    assert!(is_tmp_dir("run1.tmp"));
    assert!(!is_tmp_dir("run1"));
    assert!(!is_tmp_dir("tmp"));
    assert!(is_tmp_dir(".tmp"));
}

#[test]
fn targets_resolve_under_root() {
    let names = vec!["a".to_string(), "b".to_string()];
    let out = resolve_targets("/data/sessions", &names);
    assert_eq!(out, vec!["/data/sessions/a", "/data/sessions/b"]);
}
