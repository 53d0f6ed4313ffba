//! Output handling for background Bash sessions: capped reads, their
//! footers, and the session list.
use vstd::prelude::*;
use vstd::string::*;
use vstd::utf8::*;

use crate::compensation::{event_models, push_truncation_event_if, truncation_event, CompensationEvent, EventModel};
use crate::judge_gate::ToolResult;
use crate::bash_output::{format_i32, format_seconds_tenths, seconds_tenths_text, signed_decimal, str_chars};
use crate::text::{
    decimal_chars, decimal_string, floor_boundary, floor_char_boundary,
    lemma_boundary_is_char_boundary, lemma_end_boundaries, lemma_floor_boundary_bounds, str_slice,
    string_from_chars,
};

verus! {

/// The session output as shown: whole when within the cap, otherwise cut at
/// the last character boundary within the cap and marked as truncated.
pub open spec fn capped_output(output: Seq<u8>, max_bytes: Option<usize>) -> (Seq<char>, bool) {
    match max_bytes {
        None => (decode_utf8(output), false),
        Some(max) => if output.len() <= max {
            (decode_utf8(output), false)
        } else {
            (
                decode_utf8(output.subrange(0, floor_boundary(output, max as int)))
                    + "\n[... output truncated at "@ + decimal_chars(max as nat) + " bytes ...]"@,
                true,
            )
        },
    }
}

/// Whether capping cuts the output, so that the whole of it is worth
/// saving.
pub fn capped_output_is_cut(output: &str, max_bytes: Option<usize>) -> (r: bool)
    ensures
        r == capped_output(output.spec_bytes(), max_bytes).1,
{
    match max_bytes {
        Some(max) => output.as_bytes().len() > max,
        None => false,
    }
}

/// Capping keeps whole characters within the budget: of an output over the
/// cap, the kept text is a prefix of the output whose encoding fits in the
/// cap, followed by the truncation marker.
pub proof fn lemma_cap_keeps_a_prefix_within_budget(output: Seq<char>, max: usize)
    requires
        encode_utf8(output).len() > max,
    ensures
        ({
            let kept = decode_utf8(encode_utf8(output).subrange(0, floor_boundary(encode_utf8(output), max as int)));
            &&& kept.len() <= output.len()
            &&& output.subrange(0, kept.len() as int) == kept
            &&& encode_utf8(kept).len() <= max
            &&& capped_output(encode_utf8(output), Some(max)).0 == kept + "\n[... output truncated at "@
                + decimal_chars(max as nat) + " bytes ...]"@
        }),
{
    let b = encode_utf8(output);
    let k = floor_boundary(b, max as int);
    encode_utf8_valid_utf8(output);
    lemma_floor_boundary_bounds(b, max as int);
    lemma_boundary_is_char_boundary(b, k);
    decode_utf8_split(b, k);
    valid_utf8_split(b, k);
    encode_utf8_decode_utf8(output);
    let kept = decode_utf8(b.subrange(0, k));
    let rest = decode_utf8(b.subrange(k, b.len() as int));
    assert(output == kept + rest);
    assert(output.subrange(0, kept.len() as int) =~= kept);
    decode_utf8_encode_utf8(b.subrange(0, k));
}

/// Cap session output at `max_bytes` without splitting a character.
pub fn cap_output(output: &str, max_bytes: Option<usize>) -> (r: (String, bool))
    ensures
        (r.0@, r.1) == capped_output(output.spec_bytes(), max_bytes),
{
    proof {
        encode_utf8_decode_utf8(output@);
    }
    let max = match max_bytes {
        None => {
            return (output.to_owned(), false);
        },
        Some(m) => m,
    };
    if output.as_bytes().len() <= max {
        return (output.to_owned(), false);
    }
    let end = floor_char_boundary(output, max);
    proof {
        encode_utf8_valid_utf8(output@);
        lemma_end_boundaries(output.spec_bytes());
    }
    let head: &str = match str_slice(output, 0, end) {
        Some(h) => h,
        None => "",
    };
    proof {
        encode_utf8_decode_utf8(head@);
    }
    let mut s = <String as StringExecFns>::from_str(head);
    s.append("\n[... output truncated at ");
    let digits = decimal_string(max as u128);
    s.append(digits.as_str());
    s.append(" bytes ...]");
    (s, true)
}

/// Seconds a session read waits for new output when none is given.
pub const READ_WAIT_DEFAULT: u64 = 10;

/// The longest a session read may wait, in seconds.
pub const READ_WAIT_MAX: u64 = 120;

/// Characters of a session's command shown in the session list.
pub const COMMAND_PREVIEW_CHARS: usize = 100;

/// The wait of a read: the requested seconds (default ten), at most two
/// minutes.
pub fn read_wait_secs(wait: Option<u64>) -> (r: u64)
    ensures
        r == match wait {
            Some(w) => if w < READ_WAIT_MAX {
                w
            } else {
                READ_WAIT_MAX
            },
            None => READ_WAIT_DEFAULT,
        },
{
    let w = match wait {
        Some(w) => w,
        None => READ_WAIT_DEFAULT,
    };
    if w < READ_WAIT_MAX {
        w
    } else {
        READ_WAIT_MAX
    }
}

/// What one read of a background session gave: the new output, the bytes
/// dropped since the last read, the exit code once it exited, the time since
/// it started, and why it ended when it was terminated.
#[derive(Debug, Clone)]
pub struct SessionRead {
    pub output: String,
    pub dropped_bytes: u64,
    pub exit_code: Option<i32>,
    pub elapsed_ms: u128,
    pub termination: Option<String>,
}

/// The footer of a read: the running state with the session id, or the exit
/// code, with the elapsed seconds.
pub open spec fn read_footer(id: Seq<char>, exit_code: Option<i32>, elapsed_ms: u128) -> Seq<char> {
    let elapsed = seconds_tenths_text(elapsed_ms as nat);
    match exit_code {
        None => "[running | session: "@ + id + " | "@ + elapsed + "s elapsed]"@,
        Some(code) => "[exit:"@ + signed_decimal(code as int) + " | total "@ + elapsed + "s]"@,
    }
}

/// The notes after the footer: the bytes dropped since the last read, and
/// why the session ended.
pub open spec fn read_notes(read: SessionRead) -> Seq<char> {
    let gap = if read.dropped_bytes > 0 {
        "\n[Oldest output was dropped: "@ + decimal_chars(read.dropped_bytes as nat) + " bytes since the last read.]"@
    } else {
        seq![]
    };
    let termination = match read.termination {
        Some(why) => "\n[Session "@ + why@ + ".]"@,
        None => seq![],
    };
    gap + termination
}

/// The text of a read and whether output was lost to the cap or to the
/// session buffer: the capped output (naming the file holding all of it when
/// it was cut and saved), the footer, and the notes.
pub open spec fn read_result(id: Seq<char>, read: SessionRead, max_bytes: Option<usize>, saved_path: Option<Seq<char>>) -> (
    Seq<char>,
    bool,
) {
    let (capped, truncated) = capped_output(encode_utf8(read.output@), max_bytes);
    let shown = match saved_path {
        Some(path) if truncated => capped + "\nFull output saved to: "@ + path,
        _ => capped,
    };
    (shown + "\n\n"@ + read_footer(id, read.exit_code, read.elapsed_ms) + read_notes(read), truncated
        || read.dropped_bytes > 0)
}

fn format_read_footer(id: &str, exit_code: Option<i32>, elapsed_ms: u128) -> (r: String)
    ensures
        r@ == read_footer(id@, exit_code, elapsed_ms),
{
    let elapsed = format_seconds_tenths(elapsed_ms);
    match exit_code {
        None => {
            let mut f = <String as StringExecFns>::from_str("[running | session: ");
            f.append(id);
            f.append(" | ");
            f.append(elapsed.as_str());
            f.append("s elapsed]");
            f
        },
        Some(code) => {
            let mut f = <String as StringExecFns>::from_str("[exit:");
            let c = format_i32(code);
            f.append(c.as_str());
            f.append(" | total ");
            f.append(elapsed.as_str());
            f.append("s]");
            f
        },
    }
}

fn format_read_notes(read: &SessionRead) -> (r: String)
    ensures
        r@ == read_notes(*read),
{
    let mut notes = String::new();
    if read.dropped_bytes > 0 {
        notes.append("\n[Oldest output was dropped: ");
        let d = decimal_string(read.dropped_bytes as u128);
        notes.append(d.as_str());
        notes.append(" bytes since the last read.]");
    }
    if let Some(why) = &read.termination {
        notes.append("\n[Session ");
        notes.append(why.as_str());
        notes.append(".]");
    }
    notes
}

/// Format a session read, with one output-truncation event when output was
/// cut or dropped.  `saved_path` names where the whole output was saved when
/// the cap cut it.
pub fn format_read(id: &str, read: &SessionRead, max_bytes: Option<usize>, saved_path: Option<&str>) -> (r:
    ToolResult)
    ensures
        ({
            let (text, cut) = read_result(
                id@,
                *read,
                max_bytes,
                match saved_path {
                    Some(p) => Some(p@),
                    None => None,
                },
            );
            &&& r.output@ == text
            &&& event_models(r.compensation_events@) == if cut {
                seq![truncation_event("BashSession"@)]
            } else {
                Seq::<EventModel>::empty()
            }
            &&& r.permission_denials@.len() == 0
        }),
{
    let (mut output, truncated) = cap_output(read.output.as_str(), max_bytes);
    if truncated {
        if let Some(path) = saved_path {
            output.append("\nFull output saved to: ");
            output.append(path);
        }
    }
    output.append("\n\n");
    let footer = format_read_footer(id, read.exit_code, read.elapsed_ms);
    output.append(footer.as_str());
    let notes = format_read_notes(read);
    output.append(notes.as_str());
    let mut events: Vec<CompensationEvent> = Vec::new();
    proof {
        reveal_strlit("BashSession");
    }
    push_truncation_event_if(&mut events, "BashSession", truncated || read.dropped_bytes > 0, false);
    assert(event_models(Seq::<CompensationEvent>::empty()) =~= Seq::<EventModel>::empty());
    assert(event_models(seq![]).push(truncation_event("BashSession"@)) =~= seq![truncation_event("BashSession"@)]);
    ToolResult { output, compensation_events: events, permission_denials: Vec::new() }
}

/// A background session as listed.
#[derive(Debug, Clone)]
pub struct SessionSummary {
    pub id: String,
    pub command: String,
    pub exit_code: Option<i32>,
    pub elapsed_ms: u128,
}

/// The first characters of a command, as listed.
pub open spec fn command_preview(command: Seq<char>) -> Seq<char> {
    if command.len() <= COMMAND_PREVIEW_CHARS {
        command
    } else {
        command.subrange(0, COMMAND_PREVIEW_CHARS as int)
    }
}

/// One line of the session list: id, state, elapsed seconds, command.
pub open spec fn session_line(s: SessionSummary) -> Seq<char> {
    s.id@ + " | "@ + match s.exit_code {
        None => "running"@,
        Some(code) => "exit:"@ + signed_decimal(code as int),
    } + " | "@ + seconds_tenths_text(s.elapsed_ms as nat) + "s | "@ + command_preview(s.command@)
}

/// The lines of the first `n` sessions, joined with line feeds.
pub open spec fn session_lines(sessions: Seq<SessionSummary>, n: int) -> Seq<char>
    decreases n,
{
    if n <= 0 {
        seq![]
    } else if n == 1 {
        session_line(sessions[0])
    } else {
        session_lines(sessions, n - 1) + "\n"@ + session_line(sessions[n - 1])
    }
}

/// The session list: one line per session, or a note that there are none.
pub open spec fn session_list(sessions: Seq<SessionSummary>) -> Seq<char> {
    if sessions.len() == 0 {
        "No Bash sessions in this Cake run."@
    } else {
        session_lines(sessions, sessions.len() as int)
    }
}

fn format_session_line(s: &SessionSummary) -> (r: String)
    ensures
        r@ == session_line(*s),
{
    let mut line = s.id.clone();
    line.append(" | ");
    match s.exit_code {
        None => line.append("running"),
        Some(code) => {
            line.append("exit:");
            let c = format_i32(code);
            line.append(c.as_str());
        },
    }
    line.append(" | ");
    let elapsed = format_seconds_tenths(s.elapsed_ms);
    line.append(elapsed.as_str());
    line.append("s | ");
    let cs = str_chars(s.command.as_str());
    let n = if cs.len() <= COMMAND_PREVIEW_CHARS {
        cs.len()
    } else {
        COMMAND_PREVIEW_CHARS
    };
    let preview = string_from_chars(&cs.as_slice()[0..n]);
    proof {
        assert(cs@.subrange(0, n as int) =~= command_preview(s.command@));
    }
    line.append(preview.as_str());
    line
}

/// List the sessions of this run.
pub fn format_list(sessions: &[SessionSummary]) -> (r: String)
    ensures
        r@ == session_list(sessions@),
{
    if sessions.len() == 0 {
        return <String as StringExecFns>::from_str("No Bash sessions in this Cake run.");
    }
    let mut out = format_session_line(&sessions[0]);
    let mut i: usize = 1;
    while i < sessions.len()
        invariant
            1 <= i <= sessions@.len(),
            out@ == session_lines(sessions@, i as int),
        decreases sessions@.len() - i,
    {
        out.append("\n");
        let line = format_session_line(&sessions[i]);
        out.append(line.as_str());
        i += 1;
    }
    out
}

} // verus!
