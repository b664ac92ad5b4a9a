//! The per-step decisions the recording loop makes between its I/O
//! calls: each frame's half-open event window, the thought line wrapped
//! in its sentinels, and the default session name.

use vstd::prelude::*;

use crate::numfmt::dec_digits;
use crate::QpcTimestamp;

verus! {

/// What one recording session is parameterized by: where the dataset
/// lives, the session's name, the encoder to spawn, and the record
/// resolution and rate.
#[derive(Debug, Clone)]
pub struct PipelineConfig {
    pub dataset_root: String,
    pub session_name: String,
    pub ffmpeg_path: String,
    pub record_width: u32,
    pub record_height: u32,
    pub fps: u32,
}

/// One frame's event window: it ends at the frame's tick and starts one
/// step earlier, clamped at zero, so the start never passes the end.
pub fn compute_window(frame_qpc: QpcTimestamp, step_ticks: u64) -> (w: (
    QpcTimestamp,
    QpcTimestamp,
))
    ensures
        w.1 == frame_qpc,
        w.0 == if frame_qpc >= step_ticks {
            (frame_qpc - step_ticks) as int
        } else {
            0int
        },
        w.0 <= w.1,
{
    let start = if frame_qpc >= step_ticks {
        frame_qpc - step_ticks
    } else {
        0
    };
    (start, frame_qpc)
}

/// The whitespace characters that trimming removes.
pub open spec fn is_space(c: char) -> bool {
    ||| c == ' '
    ||| c == '\t'
    ||| c == '\n'
    ||| c == '\r'
    ||| (c as u32) == 0x0B
    ||| (c as u32) == 0x0C
    ||| (c as u32) == 0x85
    ||| (c as u32) == 0xA0
    ||| (c as u32) == 0x1680
    ||| (0x2000 <= (c as u32) <= 0x200A)
    ||| (c as u32) == 0x2028
    ||| (c as u32) == 0x2029
    ||| (c as u32) == 0x202F
    ||| (c as u32) == 0x205F
    ||| (c as u32) == 0x3000
}

/// Whether trimming removes this character.
pub fn char_is_space(c: char) -> (r: bool)
    ensures
        r == is_space(c),
{
    let v = c as u32;
    v == 0x20 || v == 0x09 || v == 0x0A || v == 0x0D || v == 0x0B || v == 0x0C || v == 0x85 || v
        == 0xA0 || v == 0x1680 || (0x2000 <= v && v <= 0x200A) || v == 0x2028 || v == 0x2029 || v
        == 0x202F || v == 0x205F || v == 0x3000
}

/// The characters left when leading whitespace goes.
pub open spec fn trim_start(s: Seq<char>) -> Seq<char>
    decreases s.len(),
{
    if s.len() > 0 && is_space(s[0]) {
        trim_start(s.drop_first())
    } else {
        s
    }
}

/// The characters left when trailing whitespace goes.
pub open spec fn trim_end(s: Seq<char>) -> Seq<char>
    decreases s.len(),
{
    if s.len() > 0 && is_space(s.last()) {
        trim_end(s.drop_last())
    } else {
        s
    }
}

/// The characters left when whitespace goes from both ends.
pub open spec fn spec_trim(s: Seq<char>) -> Seq<char> {
    trim_end(trim_start(s))
}

/// Whether `pat` occurs contiguously in `s`.
pub open spec fn contains_seq(s: Seq<char>, pat: Seq<char>) -> bool {
    exists|i: int| 0 <= i <= s.len() - pat.len() && #[trigger] s.subrange(i, i + pat.len()) == pat
}

/// Leading whitespace up to `a` makes the trim a suffix from `a`.
proof fn lemma_trim_start_at(s: Seq<char>, a: int)
    requires
        0 <= a <= s.len(),
        forall|i: int| 0 <= i < a ==> is_space(#[trigger] s[i]),
        a < s.len() ==> !is_space(s[a]),
    ensures
        trim_start(s) == s.skip(a),
    decreases a,
{
    if a == 0 {
        assert(s.skip(0) =~= s);
    } else {
        assert(is_space(s[0]));
        assert(forall|i: int|
            0 <= i < a - 1 ==> is_space(#[trigger] s.drop_first()[i]));
        lemma_trim_start_at(s.drop_first(), a - 1);
        assert(s.drop_first().skip(a - 1) =~= s.skip(a));
    }
}

/// Trailing whitespace from `b` on makes the trim a prefix up to `b`.
proof fn lemma_trim_end_at(s: Seq<char>, b: int)
    requires
        0 <= b <= s.len(),
        forall|i: int| b <= i < s.len() ==> is_space(#[trigger] s[i]),
        b > 0 ==> !is_space(s[b - 1]),
    ensures
        trim_end(s) == s.take(b),
    decreases s.len(),
{
    if b == s.len() {
        if s.len() == 0 {
            assert(s.take(b) =~= s);
        } else {
            assert(!is_space(s.last()));
            assert(s.take(b) =~= s);
        }
    } else {
        assert(is_space(s.last()));
        assert(forall|i: int|
            b <= i < s.drop_last().len() ==> is_space(#[trigger] s.drop_last()[i]));
        lemma_trim_end_at(s.drop_last(), b);
        assert(s.drop_last().take(b) =~= s.take(b));
    }
}

/// The string without leading or trailing whitespace.
pub fn trim_str<'a>(s: &'a str) -> (t: &'a str)
    ensures
        t@ == spec_trim(s@),
{
    let n = s.unicode_len();
    let mut a: usize = 0;
    while a < n && char_is_space(s.get_char(a))
        invariant
            a <= n,
            n == s@.len(),
            forall|i: int| 0 <= i < a ==> is_space(#[trigger] s@[i]),
        decreases n - a,
    {
        a = a + 1;
    }
    proof {
        lemma_trim_start_at(s@, a as int);
    }
    let mut b: usize = n;
    while b > a && char_is_space(s.get_char(b - 1))
        invariant
            a <= b <= n,
            n == s@.len(),
            forall|i: int| b <= i < n ==> is_space(#[trigger] s@[i]),
        decreases b,
    {
        b = b - 1;
    }
    proof {
        let suffix = s@.skip(a as int);
        assert(forall|i: int|
            b - a <= i < suffix.len() ==> is_space(#[trigger] suffix[i]));
        if b > a {
            assert(suffix[b - a - 1] == s@[b as int - 1]);
        }
        lemma_trim_end_at(suffix, b - a as int);
        assert(suffix.take(b - a as int) =~= s@.subrange(a as int, b as int));
    }
    s.substring_char(a, b)
}

/// Whether `pat` occurs contiguously in `s`.
pub fn str_contains(s: &str, pat: &str) -> (r: bool)
    ensures
        r == contains_seq(s@, pat@),
{
    let n = s.unicode_len();
    let m = pat.unicode_len();
    if m > n {
        proof {
            if contains_seq(s@, pat@) {
                let i = choose|i: int|
                    0 <= i <= s@.len() - pat@.len() && #[trigger] s@.subrange(i, i + pat@.len())
                        == pat@;
            }
        }
        return false;
    }
    if m == 0 {
        proof {
            assert(s@.subrange(0, 0 + pat@.len() as int) =~= pat@);
        }
        return true;
    }
    let mut i: usize = 0;
    while i <= n - m
        invariant
            1 <= m <= n,
            n == s@.len(),
            m == pat@.len(),
            i <= n - m + 1,
            forall|k: int| 0 <= k < i ==> #[trigger] s@.subrange(k, k + pat@.len()) != pat@,
        decreases n - m + 1 - i,
    {
        let mut j: usize = 0;
        let mut matched = true;
        while j < m && matched
            invariant
                j <= m,
                m <= n,
                i <= n - m,
                n == s@.len(),
                m == pat@.len(),
                matched ==> forall|k: int| 0 <= k < j ==> s@[i + k] == pat@[k],
                !matched ==> s@.subrange(i as int, i as int + pat@.len()) != pat@,
            decreases m - j + (if matched {
                1int
            } else {
                0int
            }),
        {
            if s.get_char(i + j) != pat.get_char(j) {
                proof {
                    assert(s@.subrange(i as int, i as int + pat@.len())[j as int] == s@[i + j]);
                }
                matched = false;
            } else {
                j = j + 1;
            }
        }
        if matched {
            proof {
                assert(s@.subrange(i as int, i as int + pat@.len()) =~= pat@);
            }
            return true;
        }
        i = i + 1;
    }
    proof {
        if contains_seq(s@, pat@) {
            let k = choose|k: int|
                0 <= k <= s@.len() - pat@.len() && #[trigger] s@.subrange(k, k + pat@.len())
                    == pat@;
            assert(s@.subrange(k, k + pat@.len()) != pat@);
        }
    }
    false
}

/// The placeholder thought line.
pub open spec fn thought_template() -> Seq<char> {
    "<|labeling_instruct_start|>Labeling Instruct <|labeling_instruct_end|>"@
}

/// The thought line of a step: the placeholder when the text is blank,
/// the trimmed text as it stands when it already carries both sentinel
/// tokens, and the trimmed text wrapped in them otherwise.
pub open spec fn spec_thought_line(content: Seq<char>) -> Seq<char> {
    let t = spec_trim(content);
    if t.len() == 0 {
        thought_template()
    } else if contains_seq(t, "<|labeling_instruct_start|>"@) && contains_seq(
        t,
        "<|labeling_instruct_end|>"@,
    ) {
        t
    } else {
        "<|labeling_instruct_start|>"@ + t + " <|labeling_instruct_end|>"@
    }
}

/// Format one thought line for the thoughts log.
pub fn format_thought_line(content: &str) -> (out: String)
    ensures
        out@ == spec_thought_line(content@),
{
    let trimmed = trim_str(content);
    if trimmed.unicode_len() == 0 {
        String::from_str("<|labeling_instruct_start|>Labeling Instruct <|labeling_instruct_end|>")
    } else if str_contains(trimmed, "<|labeling_instruct_start|>") && str_contains(
        trimmed,
        "<|labeling_instruct_end|>",
    ) {
        String::from_str(trimmed)
    } else {
        let mut out = String::from_str("<|labeling_instruct_start|>");
        out.append(trimmed);
        out.append(" <|labeling_instruct_end|>");
        proof {
            assert(out@ =~= spec_thought_line(content@));
        }
        out
    }
}

/// A session name's run suffix, padded to at least three digits.
pub open spec fn run_id_chars(run_id: u32) -> Seq<char> {
    if run_id < 10 {
        seq!['0', '0'] + dec_digits(run_id as nat)
    } else if run_id < 100 {
        seq!['0'] + dec_digits(run_id as nat)
    } else {
        dec_digits(run_id as nat)
    }
}

/// The default session name: the timestamp text and a padded run index.
pub fn default_session_name(now: &str, run_id: u32) -> (out: String)
    ensures
        out@ == now@ + "_run"@ + run_id_chars(run_id),
{
    let mut out = String::from_str(now);
    out.append("_run");
    if run_id < 10 {
        out.append("00");
        proof {
            reveal_strlit("00");
        }
    } else if run_id < 100 {
        out.append("0");
        proof {
            reveal_strlit("0");
        }
    }
    out.append(crate::numfmt::u64_to_string(run_id as u64).as_str());
    proof {
        assert(out@ =~= now@ + "_run"@ + run_id_chars(run_id));
    }
    out
}

} // verus!
