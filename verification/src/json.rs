//! JSON rendering of the per-step snapshot and the session's options
//! and metadata files. The records are framed here, in verified code,
//! one line per step for the `.jsonl` logs; unverified code only moves
//! the finished text to disk.

use vstd::prelude::*;

use crate::numfmt::{dec_digits, dec_int, digit_char, norm_chars};
use crate::options::{Meta, Options};
use crate::snapshot::ActionSnapshot;

verus! {

/// The escape of one character inside a JSON string: quote and backslash
/// get a backslash, the named control characters their short forms, the
/// rest of the control range a `\u00..` escape, and all else itself.
pub open spec fn json_escape_char(c: char) -> Seq<char> {
    if c == '"' {
        seq!['\\', '"']
    } else if c == '\\' {
        seq!['\\', '\\']
    } else if c == '\u{8}' {
        seq!['\\', 'b']
    } else if c == '\t' {
        seq!['\\', 't']
    } else if c == '\n' {
        seq!['\\', 'n']
    } else if c == '\u{c}' {
        seq!['\\', 'f']
    } else if c == '\r' {
        seq!['\\', 'r']
    } else if (c as u32) < 0x20 {
        seq!['\\', 'u', '0', '0', if (c as u32) < 16 { '0' } else { '1' }, hex_char(
            (c as u32) % 16,
        )]
    } else {
        seq![c]
    }
}

/// The lower hex digit character of `d`.
pub open spec fn hex_char(d: u32) -> char {
    if d < 10 {
        digit_char(d as nat)
    } else if d == 10 {
        'a'
    } else if d == 11 {
        'b'
    } else if d == 12 {
        'c'
    } else if d == 13 {
        'd'
    } else if d == 14 {
        'e'
    } else {
        'f'
    }
}

/// A string's characters, each escaped for JSON.
pub open spec fn json_escape(s: Seq<char>) -> Seq<char>
    decreases s.len(),
{
    if s.len() == 0 {
        Seq::empty()
    } else {
        json_escape(s.drop_last()) + json_escape_char(s.last())
    }
}

/// A JSON string: the escaped characters in quotes.
pub open spec fn json_string(s: Seq<char>) -> Seq<char> {
    seq!['"'] + json_escape(s) + seq!['"']
}

/// A JSON boolean.
pub open spec fn json_bool(b: bool) -> Seq<char> {
    if b {
        "true"@
    } else {
        "false"@
    }
}

/// A JSON array of strings.
pub open spec fn json_string_list(keys: Seq<Seq<char>>) -> Seq<char> {
    seq!['['] + json_join(keys) + seq![']']
}

/// Strings rendered as JSON and joined by commas.
pub open spec fn json_join(keys: Seq<Seq<char>>) -> Seq<char>
    decreases keys.len(),
{
    if keys.len() == 0 {
        Seq::empty()
    } else if keys.len() == 1 {
        json_string(keys[0])
    } else {
        json_join(keys.drop_last()) + seq![','] + json_string(keys.last())
    }
}

/// The lower hex digit of `d` as a string slice.
fn hex_str(d: u32) -> (r: &'static str)
    requires
        d < 16,
    ensures
        r@ =~= seq![hex_char(d)],
{
    if d < 10 {
        match d {
            0 => {
                proof { reveal_strlit("0"); }
                "0"
            },
            1 => {
                proof { reveal_strlit("1"); }
                "1"
            },
            2 => {
                proof { reveal_strlit("2"); }
                "2"
            },
            3 => {
                proof { reveal_strlit("3"); }
                "3"
            },
            4 => {
                proof { reveal_strlit("4"); }
                "4"
            },
            5 => {
                proof { reveal_strlit("5"); }
                "5"
            },
            6 => {
                proof { reveal_strlit("6"); }
                "6"
            },
            7 => {
                proof { reveal_strlit("7"); }
                "7"
            },
            8 => {
                proof { reveal_strlit("8"); }
                "8"
            },
            _ => {
                proof { reveal_strlit("9"); }
                "9"
            },
        }
    } else {
        match d {
            10 => {
                proof { reveal_strlit("a"); }
                "a"
            },
            11 => {
                proof { reveal_strlit("b"); }
                "b"
            },
            12 => {
                proof { reveal_strlit("c"); }
                "c"
            },
            13 => {
                proof { reveal_strlit("d"); }
                "d"
            },
            14 => {
                proof { reveal_strlit("e"); }
                "e"
            },
            _ => {
                proof { reveal_strlit("f"); }
                "f"
            },
        }
    }
}

/// Append one string to `out`, escaped for JSON.
fn append_escaped(out: &mut String, s: &str)
    ensures
        final(out)@ == old(out)@ + json_escape(s@),
{
    let n = s.unicode_len();
    let mut i: usize = 0;
    proof {
        assert(json_escape(s@.take(0)) =~= Seq::<char>::empty());
        assert(old(out)@ + json_escape(s@.take(0)) =~= old(out)@);
    }
    while i < n
        invariant
            i <= n,
            n == s@.len(),
            out@ == old(out)@ + json_escape(s@.take(i as int)),
        decreases n - i,
    {
        let c = s.get_char(i);
        proof {
            assert(s@.take(i as int + 1).drop_last() =~= s@.take(i as int));
            assert(s@.take(i as int + 1).last() == s@[i as int]);
        }
        if c == '"' {
            out.append("\\\"");
            proof {
                reveal_strlit("\\\"");
                assert(out@ =~= old(out)@ + json_escape(s@.take(i as int + 1)));
            }
        } else if c == '\\' {
            out.append("\\\\");
            proof {
                reveal_strlit("\\\\");
                assert(out@ =~= old(out)@ + json_escape(s@.take(i as int + 1)));
            }
        } else if c == '\u{8}' {
            out.append("\\b");
            proof {
                reveal_strlit("\\b");
                assert(out@ =~= old(out)@ + json_escape(s@.take(i as int + 1)));
            }
        } else if c == '\t' {
            out.append("\\t");
            proof {
                reveal_strlit("\\t");
                assert(out@ =~= old(out)@ + json_escape(s@.take(i as int + 1)));
            }
        } else if c == '\n' {
            out.append("\\n");
            proof {
                reveal_strlit("\\n");
                assert(out@ =~= old(out)@ + json_escape(s@.take(i as int + 1)));
            }
        } else if c == '\u{c}' {
            out.append("\\f");
            proof {
                reveal_strlit("\\f");
                assert(out@ =~= old(out)@ + json_escape(s@.take(i as int + 1)));
            }
        } else if c == '\r' {
            out.append("\\r");
            proof {
                reveal_strlit("\\r");
                assert(out@ =~= old(out)@ + json_escape(s@.take(i as int + 1)));
            }
        } else if (c as u32) < 0x20 {
            out.append("\\u00");
            if (c as u32) < 16 {
                out.append("0");
                proof { reveal_strlit("0"); }
            } else {
                out.append("1");
                proof { reveal_strlit("1"); }
            }
            out.append(hex_str((c as u32) % 16));
            proof {
                reveal_strlit("\\u00");
                assert("\\u00"@ =~= seq!['\\', 'u', '0', '0']);
                assert(out@ =~= old(out)@ + json_escape(s@.take(i as int + 1)));
            }
        } else {
            let piece = s.substring_char(i, i + 1);
            out.append(piece);
            proof {
                assert(piece@ =~= seq![s@[i as int]]);
                assert(out@ =~= old(out)@ + json_escape(s@.take(i as int + 1)));
            }
        }
        i = i + 1;
    }
    proof {
        assert(s@.take(n as int) =~= s@);
    }
}

/// Append one string to `out` as a JSON string.
fn append_json_string(out: &mut String, s: &str)
    ensures
        final(out)@ == old(out)@ + json_string(s@),
{
    out.append("\"");
    append_escaped(out, s);
    out.append("\"");
    proof {
        reveal_strlit("\"");
        assert(out@ =~= old(out)@ + json_string(s@));
    }
}

/// Append a JSON boolean to `out`.
fn append_json_bool(out: &mut String, b: bool)
    ensures
        final(out)@ == old(out)@ + json_bool(b),
{
    if b {
        out.append("true");
    } else {
        out.append("false");
    }
}

/// Append a JSON array of strings to `out`.
fn append_json_string_list(out: &mut String, keys: &Vec<String>)
    ensures
        final(out)@ == old(out)@ + json_string_list(crate::keys::key_views(keys@)),
{
    out.append("[");
    let n = keys.len();
    let mut i: usize = 0;
    proof {
        reveal_strlit("[");
        assert(json_join(crate::keys::key_views(keys@).take(0)) =~= Seq::<char>::empty());
        assert(out@ =~= old(out)@ + seq!['['] + json_join(crate::keys::key_views(keys@).take(0)));
    }
    while i < n
        invariant
            i <= n,
            n == keys@.len(),
            out@ == old(out)@ + seq!['['] + json_join(crate::keys::key_views(keys@).take(i as int)),
        decreases n - i,
    {
        if i > 0 {
            out.append(",");
            proof {
                reveal_strlit(",");
            }
        }
        append_json_string(out, keys[i].as_str());
        proof {
            let kv = crate::keys::key_views(keys@);
            assert(kv.take(i as int + 1).drop_last() =~= kv.take(i as int));
            assert(kv.take(i as int + 1).last() == keys@[i as int]@);
            if i == 0 {
                assert(json_join(kv.take(1)) == json_string(kv.take(1)[0]));
                assert(out@ =~= old(out)@ + seq!['['] + json_join(kv.take(i as int + 1)));
            } else {
                assert(out@ =~= old(out)@ + seq!['['] + json_join(kv.take(i as int + 1)));
            }
        }
        i = i + 1;
    }
    out.append("]");
    proof {
        reveal_strlit("]");
        assert(crate::keys::key_views(keys@).take(n as int) =~= crate::keys::key_views(keys@));
        assert(out@ =~= old(out)@ + json_string_list(crate::keys::key_views(keys@)));
    }
}

/// The JSON rendering of one action snapshot, as one log line.
pub open spec fn json_snapshot(s: ActionSnapshot) -> Seq<char> {
    "{\"step_index\":"@ + dec_digits(s.step_index as nat) + ",\"qpc_ts\":"@ + dec_digits(
        s.qpc_ts as nat,
    ) + ",\"window\":{\"is_foreground\":"@ + json_bool(s.window.is_foreground)
        + "},\"mouse\":{\"dx\":"@ + dec_int(s.mouse.dx as int) + ",\"dy\":"@ + dec_int(
        s.mouse.dy as int,
    ) + ",\"wheel\":"@ + dec_int(s.mouse.wheel as int) + ",\"buttons\":{\"left\":"@ + json_bool(
        s.mouse.buttons.left,
    ) + ",\"right\":"@ + json_bool(s.mouse.buttons.right) + ",\"middle\":"@ + json_bool(
        s.mouse.buttons.middle,
    ) + ",\"x1\":"@ + json_bool(s.mouse.buttons.x1) + ",\"x2\":"@ + json_bool(s.mouse.buttons.x2)
        + "},\"cursor\":{\"visible\":"@ + json_bool(s.mouse.cursor.visible) + ",\"x_norm\":"@
        + norm_chars(s.mouse.cursor.x_norm as nat) + ",\"y_norm\":"@ + norm_chars(
        s.mouse.cursor.y_norm as nat,
    ) + "}},\"keyboard\":{\"down\":"@ + json_string_list(crate::keys::key_views(s.keyboard.down@))
        + ",\"pressed\":"@ + json_string_list(crate::keys::key_views(s.keyboard.pressed@))
        + ",\"released\":"@ + json_string_list(crate::keys::key_views(s.keyboard.released@))
        + "}}"@
}

/// Render one action snapshot as its JSON log line.
pub fn snapshot_to_json(s: &ActionSnapshot) -> (out: String)
    ensures
        out@ == json_snapshot(*s),
{
    let mut out = String::from_str("{\"step_index\":");
    out.append(crate::numfmt::u64_to_string(s.step_index).as_str());
    out.append(",\"qpc_ts\":");
    out.append(crate::numfmt::u64_to_string(s.qpc_ts).as_str());
    out.append(",\"window\":{\"is_foreground\":");
    append_json_bool(&mut out, s.window.is_foreground);
    out.append("},\"mouse\":{\"dx\":");
    out.append(crate::numfmt::i32_to_string(s.mouse.dx).as_str());
    out.append(",\"dy\":");
    out.append(crate::numfmt::i32_to_string(s.mouse.dy).as_str());
    out.append(",\"wheel\":");
    out.append(crate::numfmt::i32_to_string(s.mouse.wheel).as_str());
    out.append(",\"buttons\":{\"left\":");
    append_json_bool(&mut out, s.mouse.buttons.left);
    out.append(",\"right\":");
    append_json_bool(&mut out, s.mouse.buttons.right);
    out.append(",\"middle\":");
    append_json_bool(&mut out, s.mouse.buttons.middle);
    out.append(",\"x1\":");
    append_json_bool(&mut out, s.mouse.buttons.x1);
    out.append(",\"x2\":");
    append_json_bool(&mut out, s.mouse.buttons.x2);
    out.append("},\"cursor\":{\"visible\":");
    append_json_bool(&mut out, s.mouse.cursor.visible);
    out.append(",\"x_norm\":");
    out.append(crate::numfmt::norm_to_string(s.mouse.cursor.x_norm).as_str());
    out.append(",\"y_norm\":");
    out.append(crate::numfmt::norm_to_string(s.mouse.cursor.y_norm).as_str());
    out.append("}},\"keyboard\":{\"down\":");
    append_json_string_list(&mut out, &s.keyboard.down);
    out.append(",\"pressed\":");
    append_json_string_list(&mut out, &s.keyboard.pressed);
    out.append(",\"released\":");
    append_json_string_list(&mut out, &s.keyboard.released);
    out.append("}}");
    proof {
        assert(out@ =~= json_snapshot(*s));
    }
    out
}


/// The JSON rendering of the configuration snapshot, as `options.json`
/// holds it.
pub open spec fn json_options(o: Options) -> Seq<char> {
    "{\"schema_version\":"@ + dec_digits(o.schema_version as nat) + ",\"capture\":{\"api\":\"WindowsGraphicsCapture\",\"fps\":"@
        + dec_digits(o.capture.fps as nat) + ",\"record_resolution\":["@ + dec_digits(
        o.capture.record_resolution[0] as nat,
    ) + seq![','] + dec_digits(o.capture.record_resolution[1] as nat)
        + "],\"resize_mode\":\"letterbox\",\"color_format\":\"BGRA8\",\"include_cursor_in_video\":"@
        + json_bool(o.capture.include_cursor_in_video) + ",\"target\":{\"method\":"@ + json_string(
        o.capture.target.method@,
    ) + ",\"window_title\":"@ + json_opt_string(o.capture.target.window_title)
        + ",\"process_name\":"@ + json_opt_string(o.capture.target.process_name)
        + "}},\"input\":{\"keyboard\":\"RawInput\",\"mouse\":\"RawInput\",\"mouse_mode\":\"relative_plus_pointer_mixed\",\"dpi_awareness\":\"PerMonitorV2\",\"foreground_only\":"@
        + json_bool(o.input.foreground_only)
        + "},\"timing\":{\"clock\":\"QPC\",\"step_ms\":"@ + dec_digits(o.timing.step_ms as nat)
        + ",\"fps\":"@ + dec_digits(o.timing.fps as nat)
        + "},\"auto_events\":{\"enabled\":"@ + json_bool(o.auto_events.enabled)
        + ",\"roi_config\":"@ + json_string(o.auto_events.roi_config@)
        + ",\"stability_frames\":"@ + dec_digits(o.auto_events.stability_frames as nat) + "}}"@
}

/// A JSON string or `null`.
pub open spec fn json_opt_string(s: Option<String>) -> Seq<char> {
    match s {
        Some(v) => json_string(v@),
        None => "null"@,
    }
}

/// Append a JSON string or `null` to `out`.
fn append_json_opt_string(out: &mut String, s: &Option<String>)
    ensures
        final(out)@ == old(out)@ + json_opt_string(*s),
{
    match s {
        Some(v) => {
            append_json_string(out, v.as_str());
        },
        None => {
            out.append("null");
        },
    }
}

/// Render the configuration snapshot as the `options.json` text.
pub fn options_to_json(o: &Options) -> (out: String)
    ensures
        out@ == json_options(*o),
{
    let mut out = String::from_str("{\"schema_version\":");
    out.append(crate::numfmt::u64_to_string(o.schema_version as u64).as_str());
    out.append(",\"capture\":{\"api\":\"WindowsGraphicsCapture\",\"fps\":");
    out.append(crate::numfmt::u64_to_string(o.capture.fps as u64).as_str());
    out.append(",\"record_resolution\":[");
    out.append(crate::numfmt::u64_to_string(o.capture.record_resolution[0] as u64).as_str());
    out.append(",");
    out.append(crate::numfmt::u64_to_string(o.capture.record_resolution[1] as u64).as_str());
    out.append(
        "],\"resize_mode\":\"letterbox\",\"color_format\":\"BGRA8\",\"include_cursor_in_video\":",
    );
    append_json_bool(&mut out, o.capture.include_cursor_in_video);
    out.append(",\"target\":{\"method\":");
    append_json_string(&mut out, o.capture.target.method.as_str());
    out.append(",\"window_title\":");
    append_json_opt_string(&mut out, &o.capture.target.window_title);
    out.append(",\"process_name\":");
    append_json_opt_string(&mut out, &o.capture.target.process_name);
    out.append(
        "}},\"input\":{\"keyboard\":\"RawInput\",\"mouse\":\"RawInput\",\"mouse_mode\":\"relative_plus_pointer_mixed\",\"dpi_awareness\":\"PerMonitorV2\",\"foreground_only\":",
    );
    append_json_bool(&mut out, o.input.foreground_only);
    out.append("},\"timing\":{\"clock\":\"QPC\",\"step_ms\":");
    out.append(crate::numfmt::u64_to_string(o.timing.step_ms).as_str());
    out.append(",\"fps\":");
    out.append(crate::numfmt::u64_to_string(o.timing.fps as u64).as_str());
    out.append("},\"auto_events\":{\"enabled\":");
    append_json_bool(&mut out, o.auto_events.enabled);
    out.append(",\"roi_config\":");
    append_json_string(&mut out, o.auto_events.roi_config.as_str());
    out.append(",\"stability_frames\":");
    out.append(crate::numfmt::u64_to_string(o.auto_events.stability_frames as u64).as_str());
    out.append("}}");
    proof {
        reveal_strlit(",");
        assert(","@ =~= seq![',']);
        assert(out@ =~= json_options(*o));
    }
    out
}

/// The JSON rendering of the session metadata, as `meta.json` holds it.
pub open spec fn json_meta(m: Meta) -> Seq<char> {
    "{\"session_id\":"@ + json_string(m.session_id@) + ",\"game\":"@ + json_string(m.game@)
        + ",\"os\":"@ + json_string(m.os@) + ",\"cpu\":"@ + json_string(m.cpu@) + ",\"gpu\":"@
        + json_string(m.gpu@) + ",\"qpc_frequency_hz\":"@ + dec_digits(m.qpc_frequency_hz as nat)
        + ",\"build\":{\"collector_version\":"@ + json_string(m.build.collector_version@)
        + ",\"git_commit\":"@ + json_string(m.build.git_commit@) + "},\"notes\":"@ + json_string(
        m.notes@,
    ) + "}"@
}

/// Render the session metadata as the `meta.json` text.
pub fn meta_to_json(m: &Meta) -> (out: String)
    ensures
        out@ == json_meta(*m),
{
    let mut out = String::from_str("{\"session_id\":");
    append_json_string(&mut out, m.session_id.as_str());
    out.append(",\"game\":");
    append_json_string(&mut out, m.game.as_str());
    out.append(",\"os\":");
    append_json_string(&mut out, m.os.as_str());
    out.append(",\"cpu\":");
    append_json_string(&mut out, m.cpu.as_str());
    out.append(",\"gpu\":");
    append_json_string(&mut out, m.gpu.as_str());
    out.append(",\"qpc_frequency_hz\":");
    out.append(crate::numfmt::u64_to_string(m.qpc_frequency_hz).as_str());
    out.append(",\"build\":{\"collector_version\":");
    append_json_string(&mut out, m.build.collector_version.as_str());
    out.append(",\"git_commit\":");
    append_json_string(&mut out, m.build.git_commit.as_str());
    out.append("},\"notes\":");
    append_json_string(&mut out, m.notes.as_str());
    out.append("}");
    proof {
        assert(out@ =~= json_meta(*m));
    }
    out
}

} // verus!
