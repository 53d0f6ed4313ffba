//! How a finished Bash run is shown to the model: binary detection, sandbox
//! failure classification, size and time formatting, the metadata footer and
//! the notices appended to the output.
use vstd::prelude::*;
use vstd::string::*;
use vstd::utf8::*;

use crate::text::{
    ceil_boundary, ceil_char_boundary, contains_bytes, contains_slice, decimal_chars,
    decimal_string, floor_boundary, floor_char_boundary, lemma_end_boundaries, lines_from, slice_eq,
    split_whitespace_vec, str_slice, string_from_chars, trim_end_chars, words,
};

verus! {

broadcast use vstd::seq::group_seq_axioms;

/// More null bytes than this mark data as binary.
pub const BINARY_NULL_BYTE_THRESHOLD: usize = 8;
/// Data whose non-printable share exceeds this percentage is binary.
pub const BINARY_RATIO_THRESHOLD_PERCENT: usize = 30;
pub const BYTES_PER_KIB: u128 = 1024;
pub const TENTHS_PER_KIB: u128 = 10;
pub const EXIT_ZERO_STDERR_WARNING: &'static str = "[stderr output present despite exit 0]";
pub const EMPTY_SEARCH_NO_MATCH_ANNOTATION: &'static str = "(no matches)";

// =============================================================================
// Binary detection
// =============================================================================

/// The number of null bytes among the first `n` of `data`.
pub open spec fn count_nulls(data: Seq<u8>, n: int) -> nat
    decreases n,
{
    if n <= 0 || n > data.len() {
        0
    } else {
        count_nulls(data, n - 1) + if data[n - 1] == 0 {
            1nat
        } else {
            0nat
        }
    }
}

/// The number of non-printable bytes among the first `n` of `data`.
pub open spec fn count_non_printable(data: Seq<u8>, n: int) -> nat
    decreases n,
{
    if n <= 0 || n > data.len() {
        0
    } else {
        count_non_printable(data, n - 1) + if is_non_printable(data[n - 1]) {
            1nat
        } else {
            0nat
        }
    }
}

/// A byte that text does not contain: a control byte other than tab, line
/// feed and carriage return (bytes from 128 up may belong to UTF-8 text).
pub open spec fn is_non_printable(b: u8) -> bool {
    !(b == 0x09 || b == 0x0a || b == 0x0d || (32 <= b <= 126) || b >= 128)
}

/// Data is binary when it holds more than eight null bytes, or when more
/// than 30% of it is non-printable.  Empty data is not binary.
pub open spec fn binary_data(data: Seq<u8>) -> bool {
    data.len() > 0 && (count_nulls(data, data.len() as int) > BINARY_NULL_BYTE_THRESHOLD
        || count_non_printable(data, data.len() as int) * 100 > data.len() * BINARY_RATIO_THRESHOLD_PERCENT)
}

/// Check if raw bytes appear to be binary data rather than text.
pub fn is_binary_data(data: &[u8]) -> (r: bool)
    ensures
        r == binary_data(data@),
{
    let len = data.len();
    if len == 0 {
        return false;
    }
    let mut null_count: usize = 0;
    let mut i: usize = 0;
    while i < len
        invariant
            i <= len,
            len == data@.len(),
            null_count == count_nulls(data@, i as int),
            null_count <= i,
        decreases len - i,
    {
        if data[i] == 0 {
            null_count += 1;
        }
        i += 1;
    }
    if null_count > BINARY_NULL_BYTE_THRESHOLD {
        return true;
    }
    let mut non_printable_count: usize = 0;
    let mut j: usize = 0;
    while j < len
        invariant
            j <= len,
            len == data@.len(),
            non_printable_count == count_non_printable(data@, j as int),
            non_printable_count <= j,
        decreases len - j,
    {
        let b = data[j];
        if !(b == 0x09 || b == 0x0a || b == 0x0d || (32 <= b && b <= 126) || b >= 128) {
            non_printable_count += 1;
        }
        j += 1;
    }
    (non_printable_count as u128) * 100 > (len as u128) * (BINARY_RATIO_THRESHOLD_PERCENT as u128)
}

// =============================================================================
// Sandbox failures
// =============================================================================

/// The sandbox engine itself failed before the command ran: cake applied a
/// sandbox and stderr holds the `sandbox-exec` apply error.
pub open spec fn sandbox_initialization_failed(sandbox_applied: bool, stderr: Seq<u8>) -> bool {
    sandbox_applied && contains_bytes(stderr, "sandbox-exec: sandbox_apply".spec_bytes())
}

/// Detect when the sandbox engine itself failed before the requested command
/// ran.  Must be called with stderr only, so that a command printing the
/// marker on stdout is not mistaken for a failure.
pub fn is_sandbox_initialization_failure(sandbox_applied: bool, stderr: &str) -> (r: bool)
    ensures
        r == sandbox_initialization_failed(sandbox_applied, stderr.spec_bytes()),
{
    sandbox_applied && contains_slice(stderr.as_bytes(), "sandbox-exec: sandbox_apply".as_bytes())
}

/// A failed sandboxed command whose output looks like a permission failure
/// of the sandbox (and not like a failure to set the sandbox up).
pub open spec fn sandbox_violation(sandbox_applied: bool, success: bool, output: Seq<u8>, stderr: Seq<u8>) -> bool {
    &&& sandbox_applied
    &&& !success
    &&& !sandbox_initialization_failed(sandbox_applied, stderr)
    &&& (contains_bytes(output, "Operation not permitted".spec_bytes()) || contains_bytes(
        output,
        "os error 1".spec_bytes(),
    ) || (contains_bytes(output, "Permission denied".spec_bytes()) && contains_bytes(
        output,
        "sandbox".spec_bytes(),
    )))
}

/// Detect if a failed sandboxed command looks like a sandbox-related
/// permission failure.  `output` is the combined model-visible stream;
/// `stderr` is kept separate for the initialization check.
pub fn is_sandbox_violation(sandbox_applied: bool, success: bool, output: &str, stderr: &str) -> (r: bool)
    ensures
        r == sandbox_violation(sandbox_applied, success, output.spec_bytes(), stderr.spec_bytes()),
{
    if !sandbox_applied || success {
        return false;
    }
    if is_sandbox_initialization_failure(sandbox_applied, stderr) {
        return false;
    }
    let o = output.as_bytes();
    contains_slice(o, "Operation not permitted".as_bytes()) || contains_slice(o, "os error 1".as_bytes()) || (
    contains_slice(o, "Permission denied".as_bytes()) && contains_slice(o, "sandbox".as_bytes()))
}

/// When a failed command ran under an applied sandbox and stderr does not
/// hold the `sandbox-exec: sandbox_apply` marker, output mentioning
/// `Operation not permitted`, `os error 1`, or both `Permission denied` and
/// `sandbox` is a sandbox violation.  Nothing is a violation without an
/// applied sandbox, for a command that succeeded, or when the marker shows
/// the sandbox failed to start; and no other output is one.
pub proof fn lemma_sandbox_violation_signs(sandbox_applied: bool, success: bool, output: Seq<u8>, stderr: Seq<u8>)
    ensures
        sandbox_applied && !success && !contains_bytes(stderr, "sandbox-exec: sandbox_apply".spec_bytes()) && (
        contains_bytes(output, "Operation not permitted".spec_bytes()) || contains_bytes(
            output,
            "os error 1".spec_bytes(),
        ) || (contains_bytes(output, "Permission denied".spec_bytes()) && contains_bytes(
            output,
            "sandbox".spec_bytes(),
        ))) ==> sandbox_violation(sandbox_applied, success, output, stderr),
        !sandbox_applied || success || contains_bytes(stderr, "sandbox-exec: sandbox_apply".spec_bytes())
            ==> !sandbox_violation(sandbox_applied, success, output, stderr),
        sandbox_violation(sandbox_applied, success, output, stderr) ==> contains_bytes(
            output,
            "Operation not permitted".spec_bytes(),
        ) || contains_bytes(output, "os error 1".spec_bytes()) || (contains_bytes(
            output,
            "Permission denied".spec_bytes(),
        ) && contains_bytes(output, "sandbox".spec_bytes())),
{
}

/// A successful command that still wrote to stderr gets a warning.
pub fn should_warn_exit_zero_stderr(success: bool, stderr: &str) -> (r: bool)
    ensures
        r == (success && stderr@.len() > 0),
{
    success && !stderr.is_empty()
}

/// The text of bytes read as UTF-8, with each invalid sequence replaced by
/// U+FFFD.
pub uninterp spec fn utf8_lossy_text(data: Seq<u8>) -> Seq<char>;

/// Calls `String::from_utf8_lossy`: the bytes decoded as UTF-8 with invalid
/// sequences replaced by U+FFFD, so valid UTF-8 decodes to its text.
#[verifier::external_body]
pub(crate) fn utf8_lossy(data: &[u8]) -> (r: String)
    ensures
        r@ == utf8_lossy_text(data@),
        valid_utf8(data@) ==> r@ == decode_utf8(data@),
{
    String::from_utf8_lossy(data).into_owned()
}

/// Return the captured output for a sandbox initialization failure, if any.
/// The caller checks this before binary output so that a fail-closed setup
/// error cannot be turned into an ordinary binary artifact response.
pub fn sandbox_initialization_output(sandbox_applied: bool, stderr: &str, data: &[u8]) -> (r: Option<String>)
    ensures
        r is Some <==> sandbox_initialization_failed(sandbox_applied, stderr.spec_bytes()),
        r matches Some(t) ==> t@ == utf8_lossy_text(data@),
{
    if is_sandbox_initialization_failure(sandbox_applied, stderr) {
        Some(utf8_lossy(data))
    } else {
        None
    }
}

// =============================================================================
// Formatting
// =============================================================================

/// `"{tenths / 10}.{tenths % 10}"`.
pub open spec fn tenths_text(tenths: nat) -> Seq<char> {
    decimal_chars(tenths / 10) + "."@ + decimal_chars(tenths % 10)
}

fn format_tenths(tenths: u128) -> (r: String)
    ensures
        r@ == tenths_text(tenths as nat),
{
    let mut s = decimal_string(tenths / 10);
    s.append(".");
    let frac = decimal_string(tenths % 10);
    s.append(frac.as_str());
    s
}

/// A byte count in KiB, rounded to the nearest tenth.
pub open spec fn kib_tenths_text(size_bytes: nat) -> Seq<char> {
    tenths_text((size_bytes * 10 + 512) / 1024)
}

/// Format bytes as KiB with one decimal place using integer rounding.
pub fn format_kib_tenths(size_bytes: usize) -> (r: String)
    ensures
        r@ == kib_tenths_text(size_bytes as nat),
{
    let rounded_tenths = ((size_bytes as u128) * TENTHS_PER_KIB + BYTES_PER_KIB / 2) / BYTES_PER_KIB;
    format_tenths(rounded_tenths)
}

/// Milliseconds in seconds, rounded to the nearest tenth.
pub open spec fn seconds_tenths_text(elapsed_ms: nat) -> Seq<char> {
    tenths_text((elapsed_ms + 50) / 100)
}

/// Format milliseconds as seconds with one decimal place, rounding to the
/// nearest tenth.
pub fn format_seconds_tenths(elapsed_ms: u128) -> (r: String)
    ensures
        r@ == seconds_tenths_text(elapsed_ms as nat),
{
    let up: u128 = if elapsed_ms % 100 >= 50 {
        1
    } else {
        0
    };
    assert((elapsed_ms + 50) / 100 == elapsed_ms / 100 + up) by (nonlinear_arith)
        requires
            up == (if elapsed_ms % 100 >= 50 { 1int } else { 0int }),
    ;
    format_tenths(elapsed_ms / 100 + up)
}

/// The decimal notation of a signed number.
pub open spec fn signed_decimal(x: int) -> Seq<char> {
    if x < 0 {
        "-"@ + decimal_chars((-x) as nat)
    } else {
        decimal_chars(x as nat)
    }
}

pub(crate) fn format_i32(x: i32) -> (r: String)
    ensures
        r@ == signed_decimal(x as int),
{
    if x < 0 {
        let mut s = <String as StringExecFns>::from_str("-");
        let magnitude = decimal_string((0i64 - x as i64) as u128);
        s.append(magnitude.as_str());
        s
    } else {
        decimal_string(x as u128)
    }
}

/// The metadata footer: the exit code and the elapsed time, in milliseconds
/// under one second and in seconds (to the tenth) from one second on.
pub open spec fn metadata_footer(exit_code: i32, elapsed_ms: u128) -> Seq<char> {
    "[exit:"@ + signed_decimal(exit_code as int) + " | "@ + (if elapsed_ms > 999 {
        seconds_tenths_text(elapsed_ms as nat) + "s]"@
    } else {
        decimal_chars(elapsed_ms as nat) + "ms]"@
    })
}

/// Format the metadata footer with exit code and elapsed time.
pub fn format_metadata_footer(exit_code: i32, elapsed_ms: u128) -> (r: String)
    ensures
        r@ == metadata_footer(exit_code, elapsed_ms),
{
    let mut s = <String as StringExecFns>::from_str("[exit:");
    let code = format_i32(exit_code);
    s.append(code.as_str());
    s.append(" | ");
    if elapsed_ms > 999 {
        let secs = format_seconds_tenths(elapsed_ms);
        s.append(secs.as_str());
        s.append("s]");
    } else {
        let ms = decimal_string(elapsed_ms);
        s.append(ms.as_str());
        s.append("ms]");
    }
    s
}

/// The footer, preceded by the exit-zero stderr warning when asked for.
pub open spec fn metadata_suffix(exit_code: i32, elapsed_ms: u128, warn_exit_zero_stderr: bool) -> Seq<char> {
    if warn_exit_zero_stderr {
        EXIT_ZERO_STDERR_WARNING@ + "\n\n"@ + metadata_footer(exit_code, elapsed_ms)
    } else {
        metadata_footer(exit_code, elapsed_ms)
    }
}

pub fn format_metadata_suffix(exit_code: i32, elapsed_ms: u128, warn_exit_zero_stderr: bool) -> (r: String)
    ensures
        r@ == metadata_suffix(exit_code, elapsed_ms, warn_exit_zero_stderr),
{
    let footer = format_metadata_footer(exit_code, elapsed_ms);
    if warn_exit_zero_stderr {
        let mut s = <String as StringExecFns>::from_str(EXIT_ZERO_STDERR_WARNING);
        s.append("\n\n");
        s.append(footer.as_str());
        s
    } else {
        footer
    }
}

/// Calls `str::trim_end`: the text without trailing `White_Space`
/// characters.
#[verifier::external_body]
pub(crate) fn str_trim_end(s: &str) -> (r: &str)
    ensures
        r@ == trim_end_chars(s@),
{
    s.trim_end()
}

/// The output with the metadata footer appended after a blank line (the
/// footer alone for empty output).
pub open spec fn with_metadata(output: Seq<char>, exit_code: i32, elapsed_ms: u128, warn: bool) -> Seq<char> {
    if output.len() == 0 {
        metadata_suffix(exit_code, elapsed_ms, warn)
    } else {
        trim_end_chars(output) + "\n\n"@ + metadata_suffix(exit_code, elapsed_ms, warn)
    }
}

/// Append the metadata footer to output.
pub fn append_metadata(output: &str, exit_code: i32, elapsed_ms: u128, warn_exit_zero_stderr: bool) -> (r: String)
    ensures
        r@ == with_metadata(output@, exit_code, elapsed_ms, warn_exit_zero_stderr),
{
    let footer = format_metadata_suffix(exit_code, elapsed_ms, warn_exit_zero_stderr);
    if output.is_empty() {
        footer
    } else {
        let mut s = <String as StringExecFns>::from_str(str_trim_end(output));
        s.append("\n\n");
        s.append(footer.as_str());
        s
    }
}

// =============================================================================
// Search commands
// =============================================================================

/// The text after the last `/` of `t` (all of `t` when it has none).
pub open spec fn after_last_slash(t: Seq<u8>) -> Seq<u8>
    decreases t.len(),
{
    if t.len() == 0 {
        t
    } else if t.last() == 0x2f {
        seq![]
    } else {
        after_last_slash(t.drop_last()).push(t.last())
    }
}

/// The command's first word names a search tool (`rg`, `ripgrep`, `grep`,
/// `egrep`, `fgrep`), possibly by a path.
pub open spec fn starts_with_search(command: Seq<char>) -> bool {
    let ws = words(command);
    ws.len() > 0 && {
        let name = after_last_slash(encode_utf8(ws[0]));
        ||| name == "rg".spec_bytes()
        ||| name == "ripgrep".spec_bytes()
        ||| name == "grep".spec_bytes()
        ||| name == "egrep".spec_bytes()
        ||| name == "fgrep".spec_bytes()
    }
}

fn after_last_slash_vec(t: &[u8]) -> (r: Vec<u8>)
    ensures
        r@ == after_last_slash(t@),
{
    let len = t.len();
    let mut start = len;
    assert(t@.subrange(0, len as int) =~= t@);
    assert(t@.subrange(len as int, len as int) =~= Seq::<u8>::empty());
    while start > 0 && t[start - 1] != 0x2f
        invariant
            start <= len,
            len == t@.len(),
            after_last_slash(t@) == after_last_slash(t@.subrange(0, start as int)) + t@.subrange(
                start as int,
                len as int,
            ),
        decreases start,
    {
        let ghost pre = t@.subrange(0, start as int);
        assert(pre.drop_last() =~= t@.subrange(0, start - 1));
        assert(t@.subrange(start - 1, len as int) =~= seq![pre.last()] + t@.subrange(start as int, len as int));
        start -= 1;
    }
    if start > 0 {
        assert(after_last_slash(t@.subrange(0, start as int)) =~= Seq::<u8>::empty());
    } else {
        assert(after_last_slash(t@.subrange(0, 0)) =~= Seq::<u8>::empty());
    }
    let mut out: Vec<u8> = Vec::new();
    let mut k = start;
    while k < len
        invariant
            start <= k <= len,
            len == t@.len(),
            out@ == t@.subrange(start as int, k as int),
        decreases len - k,
    {
        out.push(t[k]);
        k += 1;
        assert(out@ =~= t@.subrange(start as int, k as int));
    }
    assert(out@ =~= after_last_slash(t@));
    out
}

/// Whether the command's first word is a search tool.
pub fn command_starts_with_search(command: &str) -> (r: bool)
    ensures
        r == starts_with_search(command@),
{
    let parts = split_whitespace_vec(command);
    if parts.len() == 0 {
        return false;
    }
    let name = after_last_slash_vec(parts[0].as_bytes());
    let n = name.as_slice();
    slice_eq(n, "rg".as_bytes()) || slice_eq(n, "ripgrep".as_bytes()) || slice_eq(n, "grep".as_bytes())
        || slice_eq(n, "egrep".as_bytes()) || slice_eq(n, "fgrep".as_bytes())
}

/// An empty, error-free exit 1 of a search tool means "no matches": say so.
pub open spec fn annotated_search_result(command: Seq<char>, output: Seq<char>, exit_code: i32, stderr: Seq<char>) -> Seq<
    char,
> {
    if exit_code == 1 && output.len() == 0 && stderr.len() == 0 && starts_with_search(command) {
        EMPTY_SEARCH_NO_MATCH_ANNOTATION@
    } else {
        output
    }
}

pub fn annotate_empty_search_result(command: &str, output: String, exit_code: i32, stderr: &str) -> (r: String)
    ensures
        r@ == annotated_search_result(command@, output@, exit_code, stderr@),
{
    if exit_code == 1 && output.as_str().is_empty() && stderr.is_empty() && command_starts_with_search(command) {
        <String as StringExecFns>::from_str(EMPTY_SEARCH_NO_MATCH_ANNOTATION)
    } else {
        output
    }
}

// =============================================================================
// Notices
// =============================================================================

/// The strings joined with `sep` between them.
pub open spec fn joined(parts: Seq<Seq<char>>, sep: Seq<char>) -> Seq<char>
    decreases parts.len(),
{
    if parts.len() == 0 {
        seq![]
    } else if parts.len() == 1 {
        parts[0]
    } else {
        joined(parts.drop_last(), sep) + sep + parts.last()
    }
}

/// The character views of a slice of strings.
pub open spec fn texts(v: Seq<String>) -> Seq<Seq<char>> {
    v.map_values(|s: String| s@)
}

fn join_strings(parts: &[String], sep: &str) -> (r: String)
    ensures
        r@ == joined(texts(parts@), sep@),
{
    let mut out = String::new();
    let mut i: usize = 0;
    while i < parts.len()
        invariant
            i <= parts@.len(),
            out@ == joined(texts(parts@.subrange(0, i as int)), sep@),
        decreases parts@.len() - i,
    {
        if i > 0 {
            out.append(sep);
        }
        out.append(parts[i].as_str());
        proof {
            let pre = texts(parts@.subrange(0, i + 1));
            assert(pre.drop_last() =~= texts(parts@.subrange(0, i as int)));
            assert(pre.last() == parts@[i as int]@);
            if i == 0 {
                assert(out@ =~= joined(pre, sep@));
            }
        }
        i += 1;
    }
    assert(parts@.subrange(0, parts@.len() as int) =~= parts@);
    out
}

/// The paragraph naming the denied paths, empty when there are none.
pub open spec fn denial_detail(denials: Seq<Seq<char>>) -> Seq<char> {
    if denials.len() == 0 {
        seq![]
    } else {
        "\n\nThe following path(s) are outside the allowed directories:\n"@ + joined(denials, "\n"@)
            + "\nAdd each path (or its parent directory) to `directories` in `.cake/settings.toml` (or pass it with `--add-dir`) to grant that access."@
    }
}

/// Build the denial-detail paragraph appended to a `[Sandbox restriction]`
/// notice.
pub fn sandbox_denial_detail(denials: &[String]) -> (r: String)
    ensures
        r@ == denial_detail(texts(denials@)),
{
    if denials.len() == 0 {
        return String::new();
    }
    let mut s = <String as StringExecFns>::from_str(
        "\n\nThe following path(s) are outside the allowed directories:\n",
    );
    let list = join_strings(denials, "\n");
    s.append(list.as_str());
    s.append(
        "\nAdd each path (or its parent directory) to `directories` in `.cake/settings.toml` (or pass it with `--add-dir`) to grant that access.",
    );
    s
}

/// The notice appended to the output of a run that the sandbox blocked.
pub open spec fn sandbox_notice(denials: Seq<Seq<char>>) -> Seq<char> {
    "\n\n[Sandbox restriction]: This command was blocked by the filesystem sandbox. The sandbox restricts file access to the project directory and standard system paths."@
        + denial_detail(denials)
        + "\nDo NOT retry with different workarounds \u{2014} the restriction is intentional. Instead, inform the user that this command requires access outside the sandbox and suggest they run it directly in their terminal."@
}

/// The model-visible text of a completed run's combined output: empty stays
/// empty, a read-cap cut gets a truncation marker, and a failed sandboxed
/// run that looks like a denial gets the sandbox-restriction notice.
pub open spec fn composed_output(
    output: Seq<char>,
    stderr: Seq<char>,
    hit_cap: bool,
    read_cap: Option<usize>,
    success: bool,
    sandbox_applied: bool,
    denials: Seq<Seq<char>>,
) -> Seq<char> {
    if output.len() == 0 {
        seq![]
    } else if hit_cap {
        output + "\n[... output truncated at "@ + decimal_chars(
            match read_cap {
                Some(c) => c as nat,
                None => 0,
            },
        ) + " bytes ...]"@
    } else if success {
        output
    } else if sandbox_violation(sandbox_applied, success, encode_utf8(output), encode_utf8(stderr)) {
        output + sandbox_notice(denials)
    } else {
        output
    }
}

pub fn compose_text_output(
    output: &str,
    stderr: &str,
    hit_cap: bool,
    read_cap: Option<usize>,
    success: bool,
    sandbox_applied: bool,
    denials: &[String],
) -> (r: String)
    ensures
        r@ == composed_output(output@, stderr@, hit_cap, read_cap, success, sandbox_applied, texts(denials@)),
{
    if output.is_empty() {
        String::new()
    } else if hit_cap {
        let cap: usize = match read_cap {
            Some(c) => c,
            None => 0,
        };
        let mut s = <String as StringExecFns>::from_str(output);
        s.append("\n[... output truncated at ");
        let digits = decimal_string(cap as u128);
        s.append(digits.as_str());
        s.append(" bytes ...]");
        s
    } else if success {
        output.to_owned()
    } else if is_sandbox_violation(sandbox_applied, success, output, stderr) {
        let mut s = <String as StringExecFns>::from_str(output);
        s.append(
            "\n\n[Sandbox restriction]: This command was blocked by the filesystem sandbox. The sandbox restricts file access to the project directory and standard system paths.",
        );
        let detail = sandbox_denial_detail(denials);
        s.append(detail.as_str());
        s.append(
            "\nDo NOT retry with different workarounds \u{2014} the restriction is intentional. Instead, inform the user that this command requires access outside the sandbox and suggest they run it directly in their terminal.",
        );
        s
    } else {
        output.to_owned()
    }
}

/// The bytes of the next chunk that fit under the read cap, given the bytes
/// already buffered: the whole chunk without a cap, nothing once the cap is
/// reached.
pub fn take_within_cap(n: usize, read_cap: Option<usize>, buffered: usize) -> (r: usize)
    ensures
        r == match read_cap {
            Some(cap) => if buffered < cap {
                if n <= cap - buffered {
                    n as int
                } else {
                    cap - buffered
                }
            } else {
                0
            },
            None => n as int,
        },
{
    match read_cap {
        Some(cap) => if buffered < cap {
            if n <= cap - buffered {
                n
            } else {
                cap - buffered
            }
        } else {
            0
        },
        None => n,
    }
}

/// Append a read chunk to the combined capture, and to the stderr capture
/// when the chunk came from stderr, keeping the combined capture within the
/// read cap.  Returns the bytes kept; fewer than the chunk means the cap was
/// hit.
pub fn take_chunk_within_cap(
    buf: &mut Vec<u8>,
    stderr_buf: Option<&mut Vec<u8>>,
    chunk: &[u8],
    read_cap: Option<usize>,
) -> (r: usize)
    ensures
        r == take_within_cap_spec(chunk@.len() as usize, read_cap, old(buf)@.len() as usize),
        final(buf)@ == old(buf)@ + chunk@.subrange(0, r as int),
        stderr_buf matches Some(e) ==> final(e)@ == (*e)@ + chunk@.subrange(0, r as int),
{
    let take = take_within_cap(chunk.len(), read_cap, buf.len());
    let kept = &chunk[0..take];
    let mut k: usize = 0;
    let ghost start = buf@;
    while k < take
        invariant
            take <= chunk@.len(),
            kept@ == chunk@.subrange(0, take as int),
            k <= take,
            buf@ == start + chunk@.subrange(0, k as int),
        decreases take - k,
    {
        buf.push(kept[k]);
        assert(chunk@.subrange(0, k + 1) =~= chunk@.subrange(0, k as int).push(chunk@[k as int]));
        k += 1;
    }
    match stderr_buf {
        Some(errs) => {
            let ghost e0 = errs@;
            let mut j: usize = 0;
            while j < take
                invariant
                    take <= chunk@.len(),
                    kept@ == chunk@.subrange(0, take as int),
                    j <= take,
                    errs@ == e0 + chunk@.subrange(0, j as int),
                decreases take - j,
            {
                errs.push(kept[j]);
                assert(chunk@.subrange(0, j + 1) =~= chunk@.subrange(0, j as int).push(chunk@[j as int]));
                j += 1;
            }
        },
        None => {},
    }
    take
}

/// `take_within_cap` as a value.
pub open spec fn take_within_cap_spec(n: usize, read_cap: Option<usize>, buffered: usize) -> usize {
    match read_cap {
        Some(cap) => if buffered < cap {
            if n <= cap - buffered {
                n
            } else {
                (cap - buffered) as usize
            }
        } else {
            0
        },
        None => n,
    }
}

/// The byte count of one pipe read: a clean end of stream (zero bytes) closes
/// the pipe, and a read error fails the capture naming the stream.
pub open spec fn chunk_len(read: Result<usize, Seq<char>>, stream_name: Seq<char>) -> Result<Option<usize>, Seq<char>> {
    match read {
        Ok(n) => if n == 0 {
            Ok(None)
        } else {
            Ok(Some(n))
        },
        Err(e) => Err(stream_name + " read error: "@ + e),
    }
}

/// Map one pipe read to its byte count; `read` carries the text of a read
/// error.
pub fn checked_chunk_len(read: Result<usize, String>, stream_name: &str) -> (r: Result<Option<usize>, String>)
    ensures
        match r {
            Ok(v) => chunk_len(
                match read {
                    Ok(n) => Ok(n),
                    Err(e) => Err(e@),
                },
                stream_name@,
            ) == Ok::<Option<usize>, Seq<char>>(v),
            Err(m) => chunk_len(
                match read {
                    Ok(n) => Ok(n),
                    Err(e) => Err(e@),
                },
                stream_name@,
            ) == Err::<Option<usize>, Seq<char>>(m@),
        },
{
    match read {
        Ok(n) => if n == 0 {
            Ok(None)
        } else {
            Ok(Some(n))
        },
        Err(e) => {
            let mut m = <String as StringExecFns>::from_str(stream_name);
            m.append(" read error: ");
            m.append(e.as_str());
            Err(m)
        },
    }
}

/// The explanation that follows the captured output when the sandbox could
/// not be applied.
pub const SANDBOX_UNAVAILABLE_NOTE: &'static str = "macOS sandbox unavailable: sandbox-exec could not apply a sandbox profile, so the requested command did not run. This commonly happens when cake is itself running inside another Seatbelt sandbox. Run cake with --sandbox danger-full-access (or set CAKE_SANDBOX=off) to run Bash commands without filesystem sandboxing.";

/// The tool error text for a sandbox that could not be applied: the
/// captured output without trailing whitespace, then the explanation.
pub fn sandbox_initialization_tool_error(output: &str) -> (r: String)
    ensures
        r@ == trim_end_chars(output@) + "\n\n"@ + SANDBOX_UNAVAILABLE_NOTE@,
{
    let mut s = <String as StringExecFns>::from_str(str_trim_end(output));
    s.append("\n\n");
    s.append(SANDBOX_UNAVAILABLE_NOTE);
    s
}

/// What a finished run becomes, checked in this order: a sandbox that could
/// not be applied is an error carrying what the command printed; binary
/// output is saved and described; anything else is text.
#[derive(Debug, Clone, PartialEq, Eq)]
pub enum RunOutputKind {
    SandboxUnavailable { message: String },
    Binary,
    Text,
}

/// Decide what a finished run becomes from whether a sandbox was applied,
/// what the command wrote to stderr, and its captured output.
pub fn finished_run_kind(sandbox_applied: bool, stderr: &str, data: &[u8]) -> (r: RunOutputKind)
    ensures
        sandbox_initialization_failed(sandbox_applied, stderr.spec_bytes()) ==> (r matches RunOutputKind::SandboxUnavailable {
            message,
        } && message@ == trim_end_chars(utf8_lossy_text(data@)) + "\n\n"@ + SANDBOX_UNAVAILABLE_NOTE@),
        !sandbox_initialization_failed(sandbox_applied, stderr.spec_bytes()) ==> if binary_data(data@) {
            r == RunOutputKind::Binary
        } else {
            r == RunOutputKind::Text
        },
{
    if let Some(output) = sandbox_initialization_output(sandbox_applied, stderr, data) {
        return RunOutputKind::SandboxUnavailable { message: sandbox_initialization_tool_error(output.as_str()) };
    }
    if is_binary_data(data) {
        RunOutputKind::Binary
    } else {
        RunOutputKind::Text
    }
}

/// The refusal shown when the command-safety judge could not be reached:
/// the command was not run.
pub fn fail_closed_message(error: &str) -> (r: String)
    ensures
        r@ == "BLOCKED\n\nThe command-safety judge was unavailable, so this command was not executed (fail-closed).\n\n"@
            + error@,
{
    let mut s = <String as StringExecFns>::from_str(
        "BLOCKED\n\nThe command-safety judge was unavailable, so this command was not executed (fail-closed).\n\n",
    );
    s.append(error);
    s
}

/// The output preceded by the soft safety warnings, if any, each separated
/// by a blank line.
pub open spec fn with_safety_warnings(output: Seq<char>, warnings: Seq<Seq<char>>) -> Seq<char> {
    if warnings.len() == 0 {
        output
    } else {
        joined(warnings, "\n\n"@) + "\n\n"@ + output
    }
}

/// Prepend soft safety warnings to command output, if any.
pub fn prepend_safety_warnings(output: String, warnings: &[String]) -> (r: String)
    ensures
        r@ == with_safety_warnings(output@, texts(warnings@)),
{
    if warnings.len() == 0 {
        output
    } else {
        let mut s = join_strings(warnings, "\n\n");
        s.append("\n\n");
        s.append(output.as_str());
        s
    }
}


// =============================================================================
// Binary output
// =============================================================================

/// The MIME type that content sniffing finds for `data`.
pub uninterp spec fn mime_type_of(data: Seq<u8>) -> Option<Seq<char>>;

/// Calls `infer::get` and returns the `mime_type` of the matched file type;
/// `None` when no matcher recognises the data.
#[verifier::external_body]
fn infer_mime_type(data: &[u8]) -> (r: Option<&'static str>)
    ensures
        match r {
            Some(m) => mime_type_of(data@) == Some(m@),
            None => mime_type_of(data@) is None,
        },
{
    infer::get(data).map(|kind| kind.mime_type())
}

/// Attempt to detect the MIME type of binary data using content-based
/// detection.
pub fn detect_mime_type(data: &[u8]) -> (r: Option<&'static str>)
    ensures
        match r {
            Some(m) => mime_type_of(data@) == Some(m@),
            None => mime_type_of(data@) is None,
        },
{
    infer_mime_type(data)
}

/// Where the bytes of a binary output went.
#[derive(Debug, Clone)]
pub enum BinarySave {
    /// Saved to this file.
    Saved { path: String },
    /// The secure temporary directory could not be created.
    DirectoryFailed { error: String },
    /// Writing the file failed.
    WriteFailed { error: String },
}

/// The first line of a binary-output notice.
pub open spec fn binary_header(size_bytes: usize) -> Seq<char> {
    "[Binary output detected - "@ + decimal_chars(size_bytes as nat) + " bytes ("@ + kib_tenths_text(
        size_bytes as nat,
    ) + " KB)]\nDetected type: "@
}

/// The notice shown instead of binary output.
pub open spec fn binary_notice(size_bytes: usize, mime: Option<Seq<char>>, save: BinarySave, footer: Seq<char>) -> Seq<char> {
    let kind = match mime {
        Some(m) => m,
        None => "unknown"@,
    };
    binary_header(size_bytes) + kind + match save {
        BinarySave::Saved { path } => "\nBinary data saved to: "@ + path@
            + "\nThe command produced binary output which cannot be displayed as text.\nYou can inspect the file with appropriate tools (e.g., `file`, `hexdump`, `xxd`).\n"@
            + footer,
        BinarySave::DirectoryFailed { error } => "\nFailed to save binary data to temp file: could not create secure directory: "@
            + error@ + "\nThe command produced binary output which cannot be displayed as text.\n"@ + footer,
        BinarySave::WriteFailed { error } => "\nFailed to save binary data to temp file: "@ + error@
            + "\nThe command produced binary output which cannot be displayed as text.\n"@ + footer,
    }
}

/// The result message for binary output of `size_bytes` bytes, with the
/// detected type (if any) and where the bytes went.
pub fn binary_output_notice(
    size_bytes: usize,
    mime: Option<&str>,
    save: &BinarySave,
    exit_code: i32,
    elapsed_ms: u128,
    warn_exit_zero_stderr: bool,
) -> (r: String)
    ensures
        r@ == binary_notice(
            size_bytes,
            match mime {
                Some(m) => Some(m@),
                None => None,
            },
            *save,
            metadata_suffix(exit_code, elapsed_ms, warn_exit_zero_stderr),
        ),
{
    let size_kb = format_kib_tenths(size_bytes);
    let footer = format_metadata_suffix(exit_code, elapsed_ms, warn_exit_zero_stderr);
    let mut s = <String as StringExecFns>::from_str("[Binary output detected - ");
    let size = decimal_string(size_bytes as u128);
    s.append(size.as_str());
    s.append(" bytes (");
    s.append(size_kb.as_str());
    s.append(" KB)]\nDetected type: ");
    match mime {
        Some(m) => s.append(m),
        None => s.append("unknown"),
    }
    match save {
        BinarySave::Saved { path } => {
            s.append("\nBinary data saved to: ");
            s.append(path.as_str());
            s.append(
                "\nThe command produced binary output which cannot be displayed as text.\nYou can inspect the file with appropriate tools (e.g., `file`, `hexdump`, `xxd`).\n",
            );
        },
        BinarySave::DirectoryFailed { error } => {
            s.append("\nFailed to save binary data to temp file: could not create secure directory: ");
            s.append(error.as_str());
            s.append("\nThe command produced binary output which cannot be displayed as text.\n");
        },
        BinarySave::WriteFailed { error } => {
            s.append("\nFailed to save binary data to temp file: ");
            s.append(error.as_str());
            s.append("\nThe command produced binary output which cannot be displayed as text.\n");
        },
    }
    s.append(footer.as_str());
    s
}

/// The result message for binary output, once its bytes were saved (or not).
pub fn binary_output_message(
    data: &[u8],
    save: &BinarySave,
    exit_code: i32,
    elapsed_ms: u128,
    warn_exit_zero_stderr: bool,
) -> (r: String)
    ensures
        r@ == binary_notice(
            data@.len() as usize,
            mime_type_of(data@),
            *save,
            metadata_suffix(exit_code, elapsed_ms, warn_exit_zero_stderr),
        ),
{
    let mime = detect_mime_type(data);
    binary_output_notice(data.len(), mime, save, exit_code, elapsed_ms, warn_exit_zero_stderr)
}

// =============================================================================
// Long output
// =============================================================================

/// The output is over the byte budget and goes to a file.
pub open spec fn overflows(output: Seq<u8>, max_bytes: Option<usize>) -> bool {
    max_bytes matches Some(max) && output.len() > max
}

/// Whether the output is over the byte budget, so that the whole of it is
/// saved to a file and only a summary is shown.
pub fn output_overflows(output: &str, max_bytes: Option<usize>) -> (r: bool)
    ensures
        r == overflows(output.spec_bytes(), max_bytes),
{
    match max_bytes {
        Some(max) => output.as_bytes().len() > max,
        None => false,
    }
}

/// The first bytes of `b`, up to the last character boundary within `n`.
pub open spec fn head_of(b: Seq<u8>, n: int) -> Seq<char> {
    decode_utf8(b.subrange(0, floor_boundary(b, n)))
}

/// The last bytes of `b`, from the first character boundary at or after
/// `b.len() - n`.
pub open spec fn tail_of(b: Seq<u8>, n: int) -> Seq<char> {
    decode_utf8(b.subrange(ceil_boundary(b, b.len() - n), b.len() as int))
}

/// The summary shown for output over the budget: its size and line count,
/// where the whole output was saved (when it could be), and its first and
/// last bytes (a quarter of the budget each when saved, half otherwise),
/// then the footer.
pub open spec fn overflow_summary(b: Seq<u8>, max_bytes: usize, saved_path: Option<Seq<char>>, footer: Seq<char>) -> Seq<char> {
    let header = "[Output too long \u{2014} "@ + decimal_chars(b.len()) + " bytes, "@ + decimal_chars(
        lines_from(b, 0, 0).len(),
    ) + " lines."@;
    match saved_path {
        Some(path) => {
            let preview = max_bytes / 4;
            header + "]\nFull output saved to: "@ + path
                + "\nYou can search it with `grep` or view portions with `head`/`tail`.\nConsider reformulating the command to produce less output.\n\n--- first ~"@
                + decimal_chars(preview as nat) + " bytes ---\n"@ + head_of(b, preview as int) + "\n\n--- last ~"@
                + decimal_chars(preview as nat) + " bytes ---\n"@ + tail_of(b, preview as int) + "\n"@ + footer
        },
        None => {
            let half = max_bytes / 2;
            header
                + " The command was too verbose; reformulate with less output (e.g. pipe through `head`, `tail`, or `grep`).]\n\n--- first ~"@
                + decimal_chars(half as nat) + " bytes ---\n"@ + head_of(b, half as int) + "\n\n--- last ~"@
                + decimal_chars(half as nat) + " bytes ---\n"@ + tail_of(b, half as int) + "\n"@ + footer
        },
    }
}

fn count_lines(b: &[u8]) -> (r: usize)
    ensures
        r == lines_from(b@, 0, 0).len(),
{
    let len = b.len();
    let mut count: usize = 0;
    let mut start: usize = 0;
    let mut i: usize = 0;
    while i < len
        invariant
            len == b@.len(),
            start <= i <= len,
            count <= start,
            count + lines_from(b@, start as int, i as int).len() == lines_from(b@, 0, 0).len(),
        decreases len - i,
    {
        if b[i] == 0x0a {
            count += 1;
            start = i + 1;
        }
        i += 1;
    }
    if start < len {
        count += 1;
    }
    count
}

fn head_text(output: &str, n: usize) -> (r: &str)
    ensures
        r@ == head_of(output.spec_bytes(), n as int),
{
    let end = floor_char_boundary(output, n);
    proof {
        encode_utf8_valid_utf8(output@);
        lemma_end_boundaries(output.spec_bytes());
    }
    let head = str_slice(output, 0, end).unwrap();
    proof {
        encode_utf8_decode_utf8(head@);
    }
    head
}

fn tail_text(output: &str, n: usize) -> (r: &str)
    requires
        n <= output.spec_bytes().len(),
    ensures
        r@ == tail_of(output.spec_bytes(), n as int),
{
    let len = output.as_bytes().len();
    let start = ceil_char_boundary(output, len - n);
    proof {
        encode_utf8_valid_utf8(output@);
        lemma_end_boundaries(output.spec_bytes());
    }
    let tail = str_slice(output, start, len).unwrap();
    proof {
        encode_utf8_decode_utf8(tail@);
    }
    tail
}

/// The model-visible form of a run's output: with the metadata footer when
/// within the byte budget, otherwise the overflow summary, naming the file
/// that holds the whole output when it could be saved.  `saved_path` is only
/// read when the output overflows.
pub open spec fn truncated_output(
    output: Seq<char>,
    max_bytes: Option<usize>,
    exit_code: i32,
    elapsed_ms: u128,
    warn: bool,
    saved_path: Option<Seq<char>>,
) -> Seq<char> {
    match max_bytes {
        Some(max) if encode_utf8(output).len() > max => overflow_summary(
            encode_utf8(output),
            max,
            saved_path,
            metadata_suffix(exit_code, elapsed_ms, warn),
        ),
        _ => with_metadata(output, exit_code, elapsed_ms, warn),
    }
}

/// Whatever the budget, the shaped output ends with the metadata footer;
/// within the budget (or without one) it is the output with trailing
/// whitespace trimmed, a blank line and the footer (the footer alone for
/// empty output).
pub proof fn lemma_shaped_output_ends_with_footer(
    output: Seq<char>,
    max_bytes: Option<usize>,
    exit_code: i32,
    elapsed_ms: u128,
    warn: bool,
    saved_path: Option<Seq<char>>,
)
    ensures
        ({
            let r = truncated_output(output, max_bytes, exit_code, elapsed_ms, warn, saved_path);
            let f = metadata_suffix(exit_code, elapsed_ms, warn);
            r.len() >= f.len() && r.subrange(r.len() - f.len(), r.len() as int) == f
        }),
        (max_bytes is None || encode_utf8(output).len() <= max_bytes->0) ==> truncated_output(
            output,
            max_bytes,
            exit_code,
            elapsed_ms,
            warn,
            saved_path,
        ) == if output.len() == 0 {
            metadata_suffix(exit_code, elapsed_ms, warn)
        } else {
            trim_end_chars(output) + "\n\n"@ + metadata_suffix(exit_code, elapsed_ms, warn)
        },
{
    let f = metadata_suffix(exit_code, elapsed_ms, warn);
    assert forall|x: Seq<char>| #![trigger x + f] (x + f).subrange(x.len() as int, (x + f).len() as int) == f by {
        assert((x + f).subrange(x.len() as int, (x + f).len() as int) =~= f);
    }
    assert(f.subrange(0, f.len() as int) =~= f);
}

/// Shape a run's output for the model (see `truncated_output`).
pub fn truncate_output(
    output: &str,
    max_bytes: Option<usize>,
    exit_code: i32,
    elapsed_ms: u128,
    warn_exit_zero_stderr: bool,
    saved_path: Option<&str>,
) -> (r: String)
    ensures
        r@ == truncated_output(
            output@,
            max_bytes,
            exit_code,
            elapsed_ms,
            warn_exit_zero_stderr,
            match saved_path {
                Some(p) => Some(p@),
                None => None,
            },
        ),
{
    let max = match max_bytes {
        Some(m) => m,
        None => {
            return append_metadata(output, exit_code, elapsed_ms, warn_exit_zero_stderr);
        },
    };
    let b = output.as_bytes();
    if b.len() <= max {
        return append_metadata(output, exit_code, elapsed_ms, warn_exit_zero_stderr);
    }
    let footer = format_metadata_suffix(exit_code, elapsed_ms, warn_exit_zero_stderr);
    let total_bytes = b.len();
    let total_lines = count_lines(b);
    let mut s = <String as StringExecFns>::from_str("[Output too long \u{2014} ");
    let tb = decimal_string(total_bytes as u128);
    s.append(tb.as_str());
    s.append(" bytes, ");
    let tl = decimal_string(total_lines as u128);
    s.append(tl.as_str());
    s.append(" lines.");
    let n = match saved_path {
        Some(path) => {
            s.append("]\nFull output saved to: ");
            s.append(path);
            s.append(
                "\nYou can search it with `grep` or view portions with `head`/`tail`.\nConsider reformulating the command to produce less output.\n\n--- first ~",
            );
            max / 4
        },
        None => {
            s.append(
                " The command was too verbose; reformulate with less output (e.g. pipe through `head`, `tail`, or `grep`).]\n\n--- first ~",
            );
            max / 2
        },
    };
    let ns = decimal_string(n as u128);
    s.append(ns.as_str());
    s.append(" bytes ---\n");
    s.append(head_text(output, n));
    s.append("\n\n--- last ~");
    s.append(ns.as_str());
    s.append(" bytes ---\n");
    s.append(tail_text(output, n));
    s.append("\n");
    s.append(footer.as_str());
    s
}

// =============================================================================
// Judge messages
// =============================================================================

/// The most characters of a judge message shown to the model.
pub const JUDGE_MESSAGE_MAX_CHARS: usize = 1000;

/// `char::is_control`: the control codes (general category `Cc`).
pub open spec fn is_control_char(c: char) -> bool {
    ('\u{0}' <= c <= '\u{1f}') || ('\u{7f}' <= c <= '\u{9f}')
}

/// The characters of `s` without control characters other than line feed,
/// carriage return and tab.
pub open spec fn without_controls(s: Seq<char>) -> Seq<char>
    decreases s.len(),
{
    if s.len() == 0 {
        seq![]
    } else {
        let rest = without_controls(s.drop_last());
        let c = s.last();
        if !is_control_char(c) || c == '\n' || c == '\r' || c == '\t' {
            rest.push(c)
        } else {
            rest
        }
    }
}

/// A judge message as shown: control characters removed (line breaks and
/// tabs kept) and cut to at most `JUDGE_MESSAGE_MAX_CHARS` characters.
pub open spec fn sanitized(message: Seq<char>) -> Seq<char> {
    let kept = without_controls(message);
    if kept.len() > JUDGE_MESSAGE_MAX_CHARS {
        kept.subrange(0, JUDGE_MESSAGE_MAX_CHARS as int)
    } else {
        kept
    }
}

/// The characters of `s`, in order.
pub(crate) fn str_chars(s: &str) -> (r: Vec<char>)
    ensures
        r@ == s@,
{
    broadcast use vstd::string::axiom_spec_iter;
    let mut out: Vec<char> = Vec::new();
    for c in it: s.chars()
        invariant
            it.seq() == s@,
            out@ == it.seq().take(it.index() as int),
    {
        out.push(c);
    }
    assert(out@ =~= s@);
    out
}

/// Strip control characters from a judge message and cap its length, so
/// that model-generated text cannot inject terminal control sequences or
/// unbounded text into the tool output.
pub fn sanitize_judge_message(message: &str) -> (r: String)
    ensures
        r@ == sanitized(message@),
{
    let cs = str_chars(message);
    let mut kept: Vec<char> = Vec::new();
    let mut i: usize = 0;
    while i < cs.len() && kept.len() < JUDGE_MESSAGE_MAX_CHARS
        invariant
            i <= cs@.len(),
            cs@ == message@,
            kept@ == without_controls(cs@.subrange(0, i as int)),
            kept@.len() <= JUDGE_MESSAGE_MAX_CHARS,
        decreases cs@.len() - i,
    {
        let c = cs[i];
        proof {
            let pre = cs@.subrange(0, i + 1);
            assert(pre.drop_last() =~= cs@.subrange(0, i as int));
            assert(pre.last() == c);
        }
        let control = ('\u{0}' <= c && c <= '\u{1f}') || ('\u{7f}' <= c && c <= '\u{9f}');
        if !control || c == '\n' || c == '\r' || c == '\t' {
            kept.push(c);
        }
        i += 1;
    }
    proof {
        lemma_without_controls_prefix(cs@, i as int);
    }
    string_from_chars(kept.as_slice())
}

/// Once a prefix keeps the most characters shown, the rest does not
/// change what is shown.
proof fn lemma_without_controls_prefix(s: Seq<char>, i: int)
    requires
        0 <= i <= s.len(),
        i == s.len() || without_controls(s.subrange(0, i)).len() >= JUDGE_MESSAGE_MAX_CHARS,
        without_controls(s.subrange(0, i)).len() <= JUDGE_MESSAGE_MAX_CHARS,
    ensures
        sanitized(s) == without_controls(s.subrange(0, i)),
    decreases s.len() - i,
{
    assert(s.subrange(0, s.len() as int) =~= s);
    if i == s.len() {
    } else {
        lemma_without_controls_extends(s, i, s.len() as int);
        let all = without_controls(s);
        if all.len() == JUDGE_MESSAGE_MAX_CHARS {
            assert(all.subrange(0, all.len() as int) =~= all);
        }
    }
}

proof fn lemma_without_controls_extends(s: Seq<char>, i: int, j: int)
    requires
        0 <= i <= j <= s.len(),
    ensures
        without_controls(s.subrange(0, j)).subrange(0, without_controls(s.subrange(0, i)).len() as int)
            == without_controls(s.subrange(0, i)),
        without_controls(s.subrange(0, j)).len() >= without_controls(s.subrange(0, i)).len(),
    decreases j - i,
{
    if j > i {
        lemma_without_controls_extends(s, i, j - 1);
        let pre = s.subrange(0, j);
        assert(pre.drop_last() =~= s.subrange(0, j - 1));
        let a = without_controls(s.subrange(0, j - 1));
        let k = without_controls(s.subrange(0, i)).len() as int;
        assert(a.push(pre.last()).subrange(0, k) =~= a.subrange(0, k));
    }
}

} // verus!
