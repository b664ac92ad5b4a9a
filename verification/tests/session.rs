use collector::aggregator::{aggregate_window_with_compiled, AggregatorState, CursorProvider};
use collector::events::{InputEvent, InputEventKind};
use collector::json::snapshot_to_json;
use collector::options::Options;
use collector::pipeline::{compute_window, default_session_name, format_thought_line};
use collector::writer::{default_ffmpeg_config, validate_frame, JsonlWriter, SessionCommit,
    SessionError, SessionLayout, SessionStage, SessionWriters};

#[test]
fn writes_action_and_compiled_lines() {
    let events = vec![InputEvent {
        qpc_ts: 10,
        kind: InputEventKind::KeyDown { key: "W".to_string() },
    }];
    let cursor = CursorProvider { visible: false, x_norm: 0, y_norm: 0 };
    let mut state = AggregatorState::new();
    let window = aggregate_window_with_compiled(&events, 0, 200, 0, true, &cursor, &mut state);

    let mut writers = SessionWriters::new(Vec::new(), Vec::new(), 10, 1000, 0);

    writers.write_window(&window, 0);
    let SessionWriters { actions, compiled } = writers;
    let actions_out = actions.into_inner();
    let compiled_out = compiled.into_inner();

    assert!(std::str::from_utf8(&actions_out)
        .unwrap()
        .contains("\"step_index\""));
    assert!(std::str::from_utf8(&compiled_out)
        .unwrap()
        .contains("<|action_start|>"));
}

#[test]
fn snapshot_json_line_is_exact() {
    let cursor = CursorProvider { visible: true, x_norm: 500000, y_norm: 0 };
    let mut state = AggregatorState::new();
    let window = aggregate_window_with_compiled(&[], 0, 200, 0, true, &cursor, &mut state);
    let line = snapshot_to_json(&window.snapshot);
    assert_eq!(line, "{\"step_index\":0,\"qpc_ts\":200,\"window\":{\"is_foreground\":true},\"mouse\":{\"dx\":0,\"dy\":0,\"wheel\":0,\"buttons\":{\"left\":false,\"right\":false,\"middle\":false,\"x1\":false,\"x2\":false},\"cursor\":{\"visible\":true,\"x_norm\":0.5,\"y_norm\":0.0}},\"keyboard\":{\"down\":[],\"pressed\":[],\"released\":[]}}");
}

#[test]
fn json_escapes_special_keys() {
    let events = vec![InputEvent {
        qpc_ts: 10,
        kind: InputEventKind::KeyDown { key: "a\"b\\c\n".to_string() },
    }];
    let cursor = CursorProvider { visible: false, x_norm: 0, y_norm: 0 };
    let mut state = AggregatorState::new();
    let window = aggregate_window_with_compiled(&events, 0, 200, 0, true, &cursor, &mut state);
    let line = snapshot_to_json(&window.snapshot);
    assert!(line.contains("\"down\":[\"a\\\"b\\\\c\\n\"]"));
}

#[test]
fn transactional_finalize_failure_keeps_staging() {
    let mut commit = SessionCommit::create(false, false).unwrap();
    // The encoder died mid-stream: finalize must fail, the staging
    // directory must remain, the final name must not appear.
    let r = commit.finalize(false, false);
    assert_eq!(r, Err(SessionError::Encoder));
    assert!(commit.temp_exists);
    assert!(!commit.final_exists);
    assert_eq!(commit.stage, SessionStage::Failed);

    // A rerun under another name succeeds.
    let mut second = SessionCommit::create(false, false).unwrap();
    let r2 = second.finalize(true, false);
    assert_eq!(r2, Ok(()));
    assert!(second.final_exists);
    assert!(!second.temp_exists);
}

#[test]
fn create_refuses_existing_directories() {
    assert_eq!(SessionCommit::create(true, false), Err(SessionError::AlreadyExists));
    assert_eq!(SessionCommit::create(false, true), Err(SessionError::AlreadyExists));
}

#[test]
fn layout_paths_follow_naming() {
    let layout = SessionLayout::new("/data", "run1");
    assert_eq!(layout.root_dir, "/data/sessions/run1");
    assert_eq!(layout.temp_dir, "/data/sessions/run1.tmp");
    assert_eq!(layout.video_path, "/data/sessions/run1.tmp/video.mp4");
    assert_eq!(layout.actions_path, "/data/sessions/run1.tmp/actions.jsonl");
    assert_eq!(layout.compiled_path, "/data/sessions/run1.tmp/compiled_actions.jsonl");
    assert_eq!(layout.thoughts_path, "/data/sessions/run1.tmp/thoughts.jsonl");
    assert_eq!(layout.auto_events_path, "/data/sessions/run1.tmp/auto_events.jsonl");
    assert_eq!(layout.options_path, "/data/sessions/run1.tmp/options.json");
    assert_eq!(layout.meta_path, "/data/sessions/run1.tmp/meta.json");
}

#[test]
fn flush_policy_counts_lines_and_time() {
    let mut log = JsonlWriter::new(Vec::new(), 3, 1000, 0);
    log.write_line("a", 10);
    assert_eq!(log.flushed, 0);
    log.write_line("b", 20);
    assert_eq!(log.flushed, 0);
    log.write_line("c", 30);
    // The third line hits the line quota.
    assert_eq!(log.flushed, log.writer.len());
    log.write_line("d", 2000);
    // More than a second since the last flush.
    assert_eq!(log.flushed, log.writer.len());
    assert_eq!(log.line_count, 4);
    let bytes = log.into_inner();
    assert_eq!(std::str::from_utf8(&bytes).unwrap(), "a\nb\nc\nd\n");
}

#[test]
fn thought_line_uses_placeholder_and_wrapping() {
    assert_eq!(
        format_thought_line("  "),
        "<|labeling_instruct_start|>Labeling Instruct <|labeling_instruct_end|>"
    );
    assert_eq!(
        format_thought_line("<|labeling_instruct_start|>keep it <|labeling_instruct_end|>"),
        "<|labeling_instruct_start|>keep it <|labeling_instruct_end|>"
    );
    assert_eq!(
        format_thought_line("  push the cart  "),
        "<|labeling_instruct_start|>push the cart <|labeling_instruct_end|>"
    );
}

#[test]
fn session_name_pads_run_index() {
    assert_eq!(default_session_name("20240101", 7), "20240101_run007");
    assert_eq!(default_session_name("x", 42), "x_run042");
    assert_eq!(default_session_name("x", 1234), "x_run1234");
}

#[test]
fn window_bounds_follow_frame_tick() {
    assert_eq!(compute_window(1000, 200), (800, 1000));
    assert_eq!(compute_window(100, 200), (0, 100));
}

#[test]
fn frame_validation_checks_size() {
    let good = vec![0u8; 16];
    assert!(validate_frame(&good, 2, 2).is_ok());
    let bad = vec![0u8; 15];
    assert_eq!(validate_frame(&bad, 2, 2), Err(SessionError::InvalidInput));
}

#[test]
fn default_options_match_schema() {
    let o = Options::default_v1();
    assert_eq!(o.schema_version, 1);
    assert_eq!(o.capture.fps, 5);
    assert_eq!(o.capture.record_resolution, [1280, 720]);
    assert!(o.input.foreground_only);
    assert_eq!(o.timing.step_ms, 200);
    assert_eq!(o.auto_events.stability_frames, 3);
    assert_eq!(o.capture.target.method, "gui");
}

#[test]
fn options_json_matches_schema() {
    let o = Options::default_v1();
    let text = collector::json::options_to_json(&o);
    assert_eq!(text, "{\"schema_version\":1,\"capture\":{\"api\":\"WindowsGraphicsCapture\",\"fps\":5,\"record_resolution\":[1280,720],\"resize_mode\":\"letterbox\",\"color_format\":\"BGRA8\",\"include_cursor_in_video\":false,\"target\":{\"method\":\"gui\",\"window_title\":null,\"process_name\":null}},\"input\":{\"keyboard\":\"RawInput\",\"mouse\":\"RawInput\",\"mouse_mode\":\"relative_plus_pointer_mixed\",\"dpi_awareness\":\"PerMonitorV2\",\"foreground_only\":true},\"timing\":{\"clock\":\"QPC\",\"step_ms\":200,\"fps\":5},\"auto_events\":{\"enabled\":false,\"roi_config\":\"rois_config_1280x720.json\",\"stability_frames\":3}}");
}

#[test]
fn meta_json_lists_fields() {
    let meta = collector::options::Meta {
        session_id: "s1".to_string(),
        game: "g".to_string(),
        os: "o".to_string(),
        cpu: "c".to_string(),
        gpu: "p".to_string(),
        qpc_frequency_hz: 10000000,
        build: collector::options::BuildInfo {
            collector_version: "0.1.0".to_string(),
            git_commit: "unknown".to_string(),
        },
        notes: "".to_string(),
    };
    let text = collector::json::meta_to_json(&meta);
    assert_eq!(text, "{\"session_id\":\"s1\",\"game\":\"g\",\"os\":\"o\",\"cpu\":\"c\",\"gpu\":\"p\",\"qpc_frequency_hz\":10000000,\"build\":{\"collector_version\":\"0.1.0\",\"git_commit\":\"unknown\"},\"notes\":\"\"}");
}

#[test]
fn ffmpeg_defaults() {
    let c = default_ffmpeg_config("ffmpeg", "/tmp/video.mp4");
    assert_eq!(c.width, 1280);
    assert_eq!(c.height, 720);
    assert_eq!(c.fps, 5);
    assert_eq!(c.crf, 20);
    assert_eq!(c.gop, 10);
}
