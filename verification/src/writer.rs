//! The session's sinks as verified models: the directory layout with
//! its temporary staging name, the line logs with their periodic flush
//! policy, the frame-size check the encoder pipe enforces, and the
//! transactional commit whose single rename makes the final directory
//! appear only when every sink finished cleanly.

use vstd::prelude::*;

use crate::aggregator::AggregatedWindow;
use crate::json::json_snapshot;
use crate::snapshot::ActionSnapshot;

verus! {

/// What can go wrong around a session.
#[derive(Debug, Clone, Copy, PartialEq, Eq, Structural)]
pub enum SessionError {
    AlreadyExists,
    NotFound,
    InvalidInput,
    UnexpectedEof,
    Encoder,
    OsCapture,
    OsInput,
}

/// The session's file names: the in-progress `<name>.tmp/` staging
/// directory and the final `<name>/` it is renamed to.
#[derive(Debug, Clone)]
pub struct SessionLayout {
    pub root_dir: String,
    pub temp_dir: String,
    pub video_path: String,
    pub actions_path: String,
    pub compiled_path: String,
    pub thoughts_path: String,
    pub auto_events_path: String,
    pub options_path: String,
    pub meta_path: String,
}

impl SessionLayout {
    /// Lay out the session's paths under `<dataset_root>/sessions/`.
    pub fn new(dataset_root: &str, session_name: &str) -> (layout: SessionLayout)
        ensures
            layout.root_dir@ == dataset_root@ + "/sessions/"@ + session_name@,
            layout.temp_dir@ == layout.root_dir@ + ".tmp"@,
            layout.video_path@ == layout.temp_dir@ + "/video.mp4"@,
            layout.actions_path@ == layout.temp_dir@ + "/actions.jsonl"@,
            layout.compiled_path@ == layout.temp_dir@ + "/compiled_actions.jsonl"@,
            layout.thoughts_path@ == layout.temp_dir@ + "/thoughts.jsonl"@,
            layout.auto_events_path@ == layout.temp_dir@ + "/auto_events.jsonl"@,
            layout.options_path@ == layout.temp_dir@ + "/options.json"@,
            layout.meta_path@ == layout.temp_dir@ + "/meta.json"@,
    {
        let mut root_dir = String::from_str(dataset_root);
        root_dir.append("/sessions/");
        root_dir.append(session_name);
        let mut temp_dir = root_dir.clone();
        temp_dir.append(".tmp");
        let mut video_path = temp_dir.clone();
        video_path.append("/video.mp4");
        let mut actions_path = temp_dir.clone();
        actions_path.append("/actions.jsonl");
        let mut compiled_path = temp_dir.clone();
        compiled_path.append("/compiled_actions.jsonl");
        let mut thoughts_path = temp_dir.clone();
        thoughts_path.append("/thoughts.jsonl");
        let mut auto_events_path = temp_dir.clone();
        auto_events_path.append("/auto_events.jsonl");
        let mut options_path = temp_dir.clone();
        options_path.append("/options.json");
        let mut meta_path = temp_dir.clone();
        meta_path.append("/meta.json");
        SessionLayout {
            root_dir,
            temp_dir,
            video_path,
            actions_path,
            compiled_path,
            thoughts_path,
            auto_events_path,
            options_path,
            meta_path,
        }
    }
}

/// How the video encoder subprocess is invoked.
#[derive(Debug, Clone)]
pub struct FfmpegConfig {
    pub ffmpeg_path: String,
    pub output_path: String,
    pub width: u32,
    pub height: u32,
    pub fps: u32,
    pub crf: u32,
    pub gop: u32,
}

/// The default encoder settings: the default record resolution and
/// rate, CRF 20 and a GOP of 10.
pub fn default_ffmpeg_config(ffmpeg_path: &str, output_path: &str) -> (c: FfmpegConfig)
    ensures
        c.ffmpeg_path@ == ffmpeg_path@,
        c.output_path@ == output_path@,
        c.width == crate::RECORD_WIDTH,
        c.height == crate::RECORD_HEIGHT,
        c.fps == crate::CAPTURE_FPS,
        c.crf == 20,
        c.gop == 10,
{
    FfmpegConfig {
        ffmpeg_path: String::from_str(ffmpeg_path),
        output_path: String::from_str(output_path),
        width: crate::RECORD_WIDTH,
        height: crate::RECORD_HEIGHT,
        fps: crate::CAPTURE_FPS,
        crf: 20,
        gop: 10,
    }
}

/// A frame handed to the encoder must hold exactly four bytes per pixel.
pub fn validate_frame(frame: &[u8], width: u32, height: u32) -> (r: Result<(), SessionError>)
    requires
        width <= 0x4000,
        height <= 0x4000,
    ensures
        r is Ok <==> frame@.len() == width * height * 4,
        r is Err ==> r->Err_0 == SessionError::InvalidInput,
{
    proof {
        assert((width as int) * (height as int) <= 0x10000000) by (nonlinear_arith)
            requires
                0 <= (width as int) <= 0x4000,
                0 <= (height as int) <= 0x4000,
        ;
    }
    let expected: usize = (width as usize) * (height as usize) * 4;
    if frame.len() == expected {
        Ok(())
    } else {
        Err(SessionError::InvalidInput)
    }
}

/// Whether a write at line `count` must flush: every `every_lines`
/// lines, or once `every_ms` passed since the last flush.
pub open spec fn spec_flush_due(
    count: u64,
    last_flush: u64,
    now: u64,
    every_lines: u64,
    every_ms: u64,
) -> bool {
    count % every_lines == 0 || (now >= last_flush && now - last_flush >= every_ms)
}

/// A newline-delimited log: the bytes written so far, a line count, and
/// the periodic flush policy. `flushed` marks how much of the buffer a
/// flush has already pushed to the sink.
#[derive(Debug)]
pub struct JsonlWriter {
    pub writer: Vec<u8>,
    pub line_count: u64,
    pub last_flush: u64,
    pub flush_every_lines: u64,
    pub flush_every_ms: u64,
    pub flushed: usize,
}

impl JsonlWriter {
    /// The flush interval is at least one line and the flush mark is
    /// inside the buffer.
    pub open spec fn well_formed(self) -> bool {
        self.flush_every_lines >= 1 && self.flushed <= self.writer@.len()
    }

    /// A fresh log over `writer`, flushing every `flush_every_lines`
    /// lines (at least one) or `flush_every_ms` milliseconds.
    pub fn new(writer: Vec<u8>, flush_every_lines: u64, flush_every_ms: u64, now_ms: u64) -> (w:
        JsonlWriter)
        ensures
            w.well_formed(),
            w.writer@ == writer@,
            w.line_count == 0,
            w.last_flush == now_ms,
            w.flush_every_lines == if flush_every_lines >= 1 {
                flush_every_lines as int
            } else {
                1int
            },
            w.flush_every_ms == flush_every_ms,
            w.flushed == 0,
    {
        JsonlWriter {
            writer,
            line_count: 0,
            last_flush: now_ms,
            flush_every_lines: if flush_every_lines >= 1 {
                flush_every_lines
            } else {
                1
            },
            flush_every_ms,
            flushed: 0,
        }
    }

    /// Append one line and a newline, then flush if the policy says so.
    pub fn write_line(&mut self, line: &str, now_ms: u64)
        requires
            old(self).well_formed(),
        ensures
            final(self).well_formed(),
            final(self).writer@ == old(self).writer@
                + vstd::string::StringSliceAdditionalSpecFns::spec_bytes(line) + seq![10u8],
            final(self).line_count == crate::compiler::sat_add64(old(self).line_count, 1),
            final(self).flush_every_lines == old(self).flush_every_lines,
            final(self).flush_every_ms == old(self).flush_every_ms,
            spec_flush_due(
                final(self).line_count,
                old(self).last_flush,
                now_ms,
                old(self).flush_every_lines,
                old(self).flush_every_ms,
            ) ==> final(self).flushed == final(self).writer@.len() && final(self).last_flush
                == now_ms,
            !spec_flush_due(
                final(self).line_count,
                old(self).last_flush,
                now_ms,
                old(self).flush_every_lines,
                old(self).flush_every_ms,
            ) ==> final(self).flushed == old(self).flushed && final(self).last_flush == old(
                self,
            ).last_flush,
    {
        self.writer.extend_from_slice(line.as_bytes());
        self.writer.push(10u8);
        self.after_write(now_ms);
    }

    /// Append one snapshot as its JSON log line.
    pub fn write_json(&mut self, snapshot: &ActionSnapshot, now_ms: u64)
        requires
            old(self).well_formed(),
        ensures
            final(self).well_formed(),
            final(self).writer@ == old(self).writer@ + vstd::utf8::encode_utf8(
                json_snapshot(*snapshot),
            ) + seq![10u8],
            final(self).line_count == crate::compiler::sat_add64(old(self).line_count, 1),
            final(self).flush_every_lines == old(self).flush_every_lines,
            final(self).flush_every_ms == old(self).flush_every_ms,
    {
        let text = crate::json::snapshot_to_json(snapshot);
        self.write_line(text.as_str(), now_ms);
    }

    /// Mark everything written so far as pushed to the sink.
    pub fn flush(&mut self, now_ms: u64)
        ensures
            final(self).writer == old(self).writer,
            final(self).line_count == old(self).line_count,
            final(self).flush_every_lines == old(self).flush_every_lines,
            final(self).flush_every_ms == old(self).flush_every_ms,
            final(self).flushed == final(self).writer@.len(),
            final(self).last_flush == now_ms,
    {
        self.last_flush = now_ms;
        self.flushed = self.writer.len();
    }

    /// Give the written bytes back.
    pub fn into_inner(self) -> (out: Vec<u8>)
        ensures
            out@ == self.writer@,
    {
        self.writer
    }

    /// Count the line and flush when the policy asks for it.
    fn after_write(&mut self, now_ms: u64)
        requires
            old(self).well_formed(),
        ensures
            final(self).well_formed(),
            final(self).writer == old(self).writer,
            final(self).line_count == crate::compiler::sat_add64(old(self).line_count, 1),
            final(self).flush_every_lines == old(self).flush_every_lines,
            final(self).flush_every_ms == old(self).flush_every_ms,
            spec_flush_due(
                final(self).line_count,
                old(self).last_flush,
                now_ms,
                old(self).flush_every_lines,
                old(self).flush_every_ms,
            ) ==> final(self).flushed == final(self).writer@.len() && final(self).last_flush
                == now_ms,
            !spec_flush_due(
                final(self).line_count,
                old(self).last_flush,
                now_ms,
                old(self).flush_every_lines,
                old(self).flush_every_ms,
            ) ==> final(self).flushed == old(self).flushed && final(self).last_flush == old(
                self,
            ).last_flush,
    {
        self.line_count = self.line_count.saturating_add(1);
        if self.line_count % self.flush_every_lines == 0 || (now_ms >= self.last_flush && now_ms
            - self.last_flush >= self.flush_every_ms) {
            self.flush(now_ms);
        }
    }
}

/// Append one snapshot to a log as its JSON line.
pub fn write_snapshot(writer: &mut JsonlWriter, snapshot: &ActionSnapshot, now_ms: u64)
    requires
        old(writer).well_formed(),
    ensures
        final(writer).well_formed(),
        final(writer).writer@ == old(writer).writer@ + vstd::utf8::encode_utf8(
            json_snapshot(*snapshot),
        ) + seq![10u8],
{
    writer.write_json(snapshot, now_ms);
}

/// The two per-step text sinks: the snapshot log and the compiled log.
#[derive(Debug)]
pub struct SessionWriters {
    pub actions: JsonlWriter,
    pub compiled: JsonlWriter,
}

impl SessionWriters {
    /// Both logs well formed.
    pub open spec fn well_formed(self) -> bool {
        self.actions.well_formed() && self.compiled.well_formed()
    }

    /// Fresh logs over the two sinks with one shared flush policy.
    pub fn new(
        actions: Vec<u8>,
        compiled: Vec<u8>,
        flush_every_lines: u64,
        flush_every_ms: u64,
        now_ms: u64,
    ) -> (w: SessionWriters)
        ensures
            w.well_formed(),
            w.actions.writer@ == actions@,
            w.compiled.writer@ == compiled@,
            w.actions.line_count == 0,
            w.compiled.line_count == 0,
    {
        SessionWriters {
            actions: JsonlWriter::new(actions, flush_every_lines, flush_every_ms, now_ms),
            compiled: JsonlWriter::new(compiled, flush_every_lines, flush_every_ms, now_ms),
        }
    }

    /// Write one aggregated window: its snapshot as a JSON line to the
    /// actions log and its compiled string as a line to the compiled log.
    pub fn write_window(&mut self, window: &AggregatedWindow, now_ms: u64)
        requires
            old(self).well_formed(),
        ensures
            final(self).well_formed(),
            final(self).actions.writer@ == old(self).actions.writer@ + vstd::utf8::encode_utf8(
                json_snapshot(window.snapshot),
            ) + seq![10u8],
            final(self).compiled.writer@ == old(self).compiled.writer@ + vstd::utf8::encode_utf8(
                window.compiled_action@,
            ) + seq![10u8],
    {
        self.actions.write_json(&window.snapshot, now_ms);
        self.compiled.write_line(window.compiled_action.as_str(), now_ms);
    }
}

/// What the session commit looks like on disk.
#[derive(Debug, Clone, Copy, PartialEq, Eq, Structural)]
pub enum SessionStage {
    Staging,
    Finalized,
    Failed,
}

/// The transactional state of one session's directories: the staging
/// directory `<name>.tmp/` and the final `<name>/`, of which the final
/// one exists exactly when finalization succeeded.
#[derive(Debug, Clone, Copy, PartialEq, Eq, Structural)]
pub struct SessionCommit {
    pub stage: SessionStage,
    pub temp_exists: bool,
    pub final_exists: bool,
}

impl SessionCommit {
    /// The final directory exists exactly when the commit finished, and
    /// the staging directory is left in place on failure.
    pub open spec fn inv(self) -> bool {
        &&& (self.final_exists <==> self.stage == SessionStage::Finalized)
        &&& (self.stage == SessionStage::Finalized ==> !self.temp_exists)
        &&& (self.stage != SessionStage::Finalized ==> self.temp_exists)
    }

    /// Create a session: its staging directory appears, the final name
    /// does not. Fails when either directory already exists.
    pub fn create(temp_already: bool, final_already: bool) -> (r: Result<
        SessionCommit,
        SessionError,
    >)
        ensures
            r is Ok <==> !temp_already && !final_already,
            r is Ok ==> r->Ok_0.inv() && r->Ok_0.stage == SessionStage::Staging
                && r->Ok_0.temp_exists && !r->Ok_0.final_exists,
            r is Err ==> r->Err_0 == SessionError::AlreadyExists,
    {
        if temp_already || final_already {
            Err(SessionError::AlreadyExists)
        } else {
            Ok(SessionCommit { stage: SessionStage::Staging, temp_exists: true, final_exists: false })
        }
    }

    /// Finalize: when the encoder exited cleanly and the final name is
    /// still free, the one rename makes the final directory appear and
    /// the staging directory vanish; on any failure the staging
    /// directory stays for inspection and the final name never appears.
    pub fn finalize(&mut self, encoder_ok: bool, final_appeared: bool) -> (r: Result<
        (),
        SessionError,
    >)
        requires
            old(self).inv(),
            old(self).stage == SessionStage::Staging,
        ensures
            final(self).inv(),
            r is Ok <==> encoder_ok && !final_appeared,
            r is Ok ==> final(self).stage == SessionStage::Finalized && final(self).final_exists
                && !final(self).temp_exists,
            r is Err ==> final(self).stage == SessionStage::Failed && !final(self).final_exists
                && final(self).temp_exists,
            !encoder_ok ==> r == Result::<(), SessionError>::Err(SessionError::Encoder),
            encoder_ok && final_appeared ==> r == Result::<(), SessionError>::Err(
                SessionError::AlreadyExists,
            ),
    {
        if !encoder_ok {
            self.stage = SessionStage::Failed;
            return Err(SessionError::Encoder);
        }
        if final_appeared {
            self.stage = SessionStage::Failed;
            return Err(SessionError::AlreadyExists);
        }
        self.stage = SessionStage::Finalized;
        self.temp_exists = false;
        self.final_exists = true;
        Ok(())
    }
}

/// The transactional guarantee: under the commit invariant the final
/// directory never coexists with the staging directory, and it exists
/// only for a commit that finished.
pub proof fn lemma_commit_transactional(c: SessionCommit)
    requires
        c.inv(),
    ensures
        !(c.final_exists && c.temp_exists),
        c.final_exists ==> c.stage == SessionStage::Finalized,
        c.stage == SessionStage::Failed ==> c.temp_exists && !c.final_exists,
{
}

} // verus!
