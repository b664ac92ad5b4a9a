//! Configuration and metadata records that describe one recording
//! session: the capture, input and timing settings written to
//! `options.json`, and the session metadata written to `meta.json`.

use vstd::prelude::*;

verus! {

/// Which OS capture API produces frames.
#[derive(Debug, Clone, PartialEq, Eq, Structural)]
pub enum CaptureApi {
    WindowsGraphicsCapture,
}

/// How a captured frame is fitted into the record resolution.
#[derive(Debug, Clone, PartialEq, Eq, Structural)]
pub enum ResizeMode {
    Letterbox,
}

/// Pixel layout of frames handed to the encoder.
#[derive(Debug, Clone, PartialEq, Eq, Structural)]
pub enum ColorFormat {
    Bgra8,
}

/// Which OS input API feeds the collector.
#[derive(Debug, Clone, PartialEq, Eq, Structural)]
pub enum InputApi {
    RawInput,
}

/// How mouse motion is interpreted.
#[derive(Debug, Clone, PartialEq, Eq, Structural)]
pub enum MouseMode {
    RelativePlusPointerMixed,
}

/// DPI awareness the recording process declares to the OS.
#[derive(Debug, Clone, PartialEq, Eq, Structural)]
pub enum DpiAwareness {
    PerMonitorV2,
}

/// Which clock stamps events and frames.
#[derive(Debug, Clone, PartialEq, Eq, Structural)]
pub enum ClockType {
    Qpc,
}

/// How the capture target window is chosen.
#[derive(Debug, Clone)]
pub struct CaptureTarget {
    pub method: String,
    pub window_title: Option<String>,
    pub process_name: Option<String>,
}

/// Frame-capture settings.
#[derive(Debug, Clone)]
pub struct CaptureOptions {
    pub api: CaptureApi,
    pub fps: u32,
    pub record_resolution: [u32; 2],
    pub resize_mode: ResizeMode,
    pub color_format: ColorFormat,
    pub include_cursor_in_video: bool,
    pub target: CaptureTarget,
}

/// Input-collection settings.
#[derive(Debug, Clone)]
pub struct InputOptions {
    pub keyboard: InputApi,
    pub mouse: InputApi,
    pub mouse_mode: MouseMode,
    pub dpi_awareness: DpiAwareness,
    pub foreground_only: bool,
}

/// Step pacing settings.
#[derive(Debug, Clone)]
pub struct TimingOptions {
    pub clock: ClockType,
    pub step_ms: u64,
    pub fps: u32,
}

/// Settings of the reserved automatic-event detector.
#[derive(Debug, Clone)]
pub struct AutoEventsOptions {
    pub enabled: bool,
    pub roi_config: String,
    pub stability_frames: u32,
}

/// The full configuration snapshot written to `options.json`.
#[derive(Debug, Clone)]
pub struct Options {
    pub schema_version: u32,
    pub capture: CaptureOptions,
    pub input: InputOptions,
    pub timing: TimingOptions,
    pub auto_events: AutoEventsOptions,
}

/// Build identification written into session metadata.
#[derive(Debug, Clone)]
pub struct BuildInfo {
    pub collector_version: String,
    pub git_commit: String,
}

/// Session metadata written to `meta.json`.
#[derive(Debug, Clone)]
pub struct Meta {
    pub session_id: String,
    pub game: String,
    pub os: String,
    pub cpu: String,
    pub gpu: String,
    pub qpc_frequency_hz: u64,
    pub build: BuildInfo,
    pub notes: String,
}

impl Options {
    /// The version-1 default configuration: letterboxed BGRA capture at
    /// the default resolution and rate, raw input restricted to the
    /// foreground target, and QPC step pacing.
    pub fn default_v1() -> (o: Options)
        ensures
            o.schema_version == 1,
            o.capture.fps == crate::CAPTURE_FPS,
            o.capture.record_resolution[0] == crate::RECORD_WIDTH,
            o.capture.record_resolution[1] == crate::RECORD_HEIGHT,
            o.capture.api == CaptureApi::WindowsGraphicsCapture,
            o.capture.resize_mode == ResizeMode::Letterbox,
            o.capture.color_format == ColorFormat::Bgra8,
            !o.capture.include_cursor_in_video,
            o.capture.target.method@ == "gui"@,
            o.capture.target.window_title is None,
            o.capture.target.process_name is None,
            o.input.keyboard == InputApi::RawInput,
            o.input.mouse == InputApi::RawInput,
            o.input.mouse_mode == MouseMode::RelativePlusPointerMixed,
            o.input.dpi_awareness == DpiAwareness::PerMonitorV2,
            o.input.foreground_only,
            o.timing.clock == ClockType::Qpc,
            o.timing.step_ms == crate::STEP_MS,
            o.timing.fps == crate::CAPTURE_FPS,
            !o.auto_events.enabled,
            o.auto_events.roi_config@ == "rois_config_1280x720.json"@,
            o.auto_events.stability_frames == 3,
    {
        Options {
            schema_version: 1,
            capture: CaptureOptions {
                api: CaptureApi::WindowsGraphicsCapture,
                fps: crate::CAPTURE_FPS,
                record_resolution: [crate::RECORD_WIDTH, crate::RECORD_HEIGHT],
                resize_mode: ResizeMode::Letterbox,
                color_format: ColorFormat::Bgra8,
                include_cursor_in_video: false,
                target: CaptureTarget {
                    method: String::from_str("gui"),
                    window_title: None,
                    process_name: None,
                },
            },
            input: InputOptions {
                keyboard: InputApi::RawInput,
                mouse: InputApi::RawInput,
                mouse_mode: MouseMode::RelativePlusPointerMixed,
                dpi_awareness: DpiAwareness::PerMonitorV2,
                foreground_only: true,
            },
            timing: TimingOptions {
                clock: ClockType::Qpc,
                step_ms: crate::STEP_MS,
                fps: crate::CAPTURE_FPS,
            },
            auto_events: AutoEventsOptions {
                enabled: false,
                roi_config: String::from_str("rois_config_1280x720.json"),
                stability_frames: 3,
            },
        }
    }
}

} // verus!
