//! Best-effort destructive command guard for the Bash tool.
//!
//! Blocks known-destructive commands that operate within the sandbox's allowed
//! zone (e.g. destructive git operations inside the repo) or affect remote
//! state (e.g. force-push), and produces soft warnings for suspicious but not
//! destructive patterns (e.g. the `rg -rn` footgun).  This is a best-effort
//! guard, not a security boundary; the OS-level sandbox remains the primary
//! filesystem enforcement layer.
pub mod checks;
pub mod parse;
pub mod chain;

use vstd::prelude::*;
use vstd::string::*;
use vstd::utf8::*;

use self::checks::{
    check_dangerous_rm, check_git_branch_delete, check_git_checkout, check_git_clean,
    check_git_commit_backticks, check_git_push, check_git_reset, check_git_restore, check_git_stash,
    check_rg_replace_flag, dangerous_rm_message, git_branch_delete_message, git_checkout_message,
    git_clean_message, git_commit_backticks_message, git_push_message, git_reset_message,
    git_restore_message, git_stash_message, opt_view, rg_replace_message,
};
use self::parse::{
    extract_command_substitutions, extract_inline_script, inline_script_of,
    lemma_inline_script_shorter, lemma_segments_within, lemma_substitutions_shorter,
    normalize_whitespace, normalized_chars, segments_of, split_segments, strip_shell_data,
    stripped_of, substitutions_of,
};
use crate::text::{
    lemma_encode_trim_len, lowercase, str_to_lowercase, str_trim, trimmed_bytes,
};

verus! {

/// The text of a blocked-command message.
pub open spec fn blocked_text(reason: Seq<char>, tip: Seq<char>) -> Seq<char> {
    "BLOCKED\n\nReason: "@ + reason + "\n\nTip: "@ + tip
}

/// The text of a soft warning.
pub open spec fn warned_text(notice: Seq<char>, tip: Seq<char>) -> Seq<char> {
    "NOTICE: "@ + notice + "\n\nTip: "@ + tip
}

/// Format a blocked-command error message.
pub fn blocked(reason: &str, tip: &str) -> (r: String)
    ensures
        r@ == blocked_text(reason@, tip@),
{
    let mut out = <String as StringExecFns>::from_str("BLOCKED\n\nReason: ");
    out.append(reason);
    out.append("\n\nTip: ");
    out.append(tip);
    out
}

/// Format a soft warning (non-blocking guidance).
pub fn warned(notice: &str, tip: &str) -> (r: String)
    ensures
        r@ == warned_text(notice@, tip@),
{
    let mut out = <String as StringExecFns>::from_str("NOTICE: ");
    out.append(notice);
    out.append("\n\nTip: ");
    out.append(tip);
    out
}


// =============================================================================
// The guard as a whole
// =============================================================================

/// What the guard answers: the warnings of a command that may run, or the
/// message of the first hard block.
pub open spec fn outcome_view(r: Result<Vec<String>, String>) -> Result<Seq<Seq<char>>, Seq<char>> {
    match r {
        Ok(ws) => Ok(strings_view(ws@)),
        Err(m) => Err(m@),
    }
}

/// The character views of a sequence of strings.
pub open spec fn strings_view(v: Seq<String>) -> Seq<Seq<char>> {
    v.map_values(|s: String| s@)
}

/// `a` when it holds a message, otherwise `b`.
pub open spec fn first_some(a: Option<Seq<char>>, b: Option<Seq<char>>) -> Option<Seq<char>> {
    if a is Some {
        a
    } else {
        b
    }
}

/// The message of the first hard-block check, in registry order, that fires
/// on the segment whose bytes are `seg`.  The rules see the segment itself,
/// its shell-data-stripped and whitespace-normalized text, and that text
/// lower-cased.
#[verifier::opaque]
pub open spec fn hard_block_of(seg: Seq<u8>) -> Option<Seq<char>> {
    let norm = normalized_chars(stripped_of(seg));
    let nb = encode_utf8(norm);
    let lb = encode_utf8(lowercase(norm));
    first_some(
        git_reset_message(lb),
        first_some(
            git_checkout_message(lb),
            first_some(
                git_restore_message(lb),
                first_some(
                    git_clean_message(lb),
                    first_some(
                        git_push_message(lb),
                        first_some(
                            git_branch_delete_message(nb),
                            first_some(
                                git_stash_message(lb),
                                first_some(git_commit_backticks_message(seg), dangerous_rm_message(nb)),
                            ),
                        ),
                    ),
                ),
            ),
        ),
    )
}

/// The soft warning of the segment whose bytes are `seg`, if any.
pub open spec fn soft_warning_of(seg: Seq<u8>) -> Option<Seq<char>> {
    rg_replace_message(seg)
}

/// The guard's answer for the command whose bytes are `b`: commands that are
/// empty after trimming pass with no warnings; otherwise the segments are
/// inspected in order.
pub open spec fn safety_verdict(b: Seq<u8>) -> Result<Seq<Seq<char>>, Seq<char>>
    decreases b.len(), 3int, 0int,
{
    let t = trimmed_bytes(b);
    if t.len() == 0 {
        Ok(seq![])
    } else {
        segments_verdict(b, segments_of(t), 0, seq![])
    }
}

/// The answer for segments `k..` of the command `b`, with the warnings `acc`
/// gathered so far.  A segment that is an inline `-c` wrapper is judged by
/// its script alone; any other segment has its command substitutions judged
/// first, then the hard-block checks, then the soft warning.  Blocks
/// propagate; warnings accumulate in order.  (Scripts and substitutions are
/// always shorter than the command holding them; the length tests only make
/// the recursion visibly well-founded.)
pub open spec fn segments_verdict(b: Seq<u8>, segs: Seq<Seq<u8>>, k: int, acc: Seq<Seq<char>>) -> Result<
    Seq<Seq<char>>,
    Seq<char>,
>
    decreases b.len(), 2int, segs.len() - k,
{
    if k < 0 || k >= segs.len() {
        Ok(acc)
    } else {
        let seg = trimmed_bytes(segs[k]);
        if seg.len() == 0 {
            segments_verdict(b, segs, k + 1, acc)
        } else {
            match inline_script_of(seg) {
                Some(script) => if script.len() < b.len() {
                    match safety_verdict(script) {
                        Err(m) => Err(m),
                        Ok(ws) => segments_verdict(b, segs, k + 1, acc + ws),
                    }
                } else {
                    Ok(acc)
                },
                None => match substitutions_verdict(b, substitutions_of(seg), 0, acc) {
                    Err(m) => Err(m),
                    Ok(acc2) => match hard_block_of(seg) {
                        Some(m) => Err(m),
                        None => segments_verdict(
                            b,
                            segs,
                            k + 1,
                            match soft_warning_of(seg) {
                                Some(w) => acc2.push(w),
                                None => acc2,
                            },
                        ),
                    },
                },
            }
        }
    }
}

/// The answer for the command substitutions `j..` of a segment of `b`, with
/// the warnings `acc` gathered so far.
pub open spec fn substitutions_verdict(b: Seq<u8>, subs: Seq<Seq<u8>>, j: int, acc: Seq<Seq<char>>) -> Result<
    Seq<Seq<char>>,
    Seq<char>,
>
    decreases b.len(), 1int, subs.len() - j,
{
    if j < 0 || j >= subs.len() {
        Ok(acc)
    } else if subs[j].len() < b.len() {
        match safety_verdict(subs[j]) {
            Err(m) => Err(m),
            Ok(ws) => substitutions_verdict(b, subs, j + 1, acc + ws),
        }
    } else {
        Ok(acc)
    }
}

/// Runs the checks on one segment: the first hard block, or else the soft
/// warning if there is one.
fn inspect_segment(seg: &str) -> (r: Result<Option<String>, String>)
    ensures
        match r {
            Err(m) => hard_block_of(seg.spec_bytes()) == Some(m@),
            Ok(w) => hard_block_of(seg.spec_bytes()) is None && opt_view(w) == soft_warning_of(
                seg.spec_bytes(),
            ),
        },
{
    reveal(hard_block_of);
    let inspection_segment = strip_shell_data(seg);
    let normalized = normalize_whitespace(inspection_segment.as_str());
    let lower = str_to_lowercase(normalized.as_str());
    let n = normalized.as_str();
    let l = lower.as_str();
    if let Some(m) = check_git_reset(seg, n, l) {
        return Err(m);
    }
    if let Some(m) = check_git_checkout(seg, n, l) {
        return Err(m);
    }
    if let Some(m) = check_git_restore(seg, n, l) {
        return Err(m);
    }
    if let Some(m) = check_git_clean(seg, n, l) {
        return Err(m);
    }
    if let Some(m) = check_git_push(seg, n, l) {
        return Err(m);
    }
    if let Some(m) = check_git_branch_delete(seg, n, l) {
        return Err(m);
    }
    if let Some(m) = check_git_stash(seg, n, l) {
        return Err(m);
    }
    if let Some(m) = check_git_commit_backticks(seg, n, l) {
        return Err(m);
    }
    if let Some(m) = check_dangerous_rm(seg, n, l) {
        return Err(m);
    }
    Ok(check_rg_replace_flag(seg, n, l))
}

/// Validate that a command does not contain known-destructive operations.
///
/// Returns `Ok(warnings)` if safe (warnings may be empty), or
/// `Err(block_message)` if a hard-block check triggers.  The first block
/// message is returned; execution stops.  Warning messages are non-blocking:
/// the command still executes, but the agent receives the warnings.
pub fn validate_command_safety(command: &str) -> (r: Result<Vec<String>, String>)
    ensures
        outcome_view(r) == safety_verdict(command.spec_bytes()),
    decreases command.spec_bytes().len(),
{
    let ghost b = command.spec_bytes();
    proof {
        encode_utf8_decode_utf8(command@);
        lemma_encode_trim_len(command@);
    }
    let trimmed = str_trim(command);
    let ghost t = trimmed.spec_bytes();
    assert(t == trimmed_bytes(b));
    if trimmed.is_empty() {
        proof {
            lemma_encode_empty_chars(trimmed@);
        }
        let empty: Vec<String> = Vec::new();
        assert(strings_view(empty@) =~= Seq::<Seq<char>>::empty());
        return Ok(empty);
    }
    proof {
        lemma_encode_empty_chars(trimmed@);
        lemma_segments_within(t);
    }
    let segments = split_segments(trimmed);
    let ghost segs = segments_of(t);
    let mut warnings: Vec<String> = Vec::new();
    let mut k: usize = 0;
    assert(strings_view(warnings@) =~= Seq::<Seq<char>>::empty());
    while k < segments.len()
        invariant
            b == command.spec_bytes(),
            t == trimmed_bytes(b),
            t.len() <= b.len(),
            segs == segments_of(t),
            segments@.len() == segs.len(),
            forall|q: int| 0 <= q < segments@.len() ==> (#[trigger] segments@[q]).spec_bytes() == segs[q],
            forall|q: int| 0 <= q < segs.len() ==> (#[trigger] segs[q]).len() <= t.len(),
            k <= segments@.len(),
            safety_verdict(b) == segments_verdict(b, segs, k as int, strings_view(warnings@)),
        decreases segments@.len() - k,
    {
        let ghost acc = strings_view(warnings@);
        let piece = segments[k];
        proof {
            encode_utf8_decode_utf8(piece@);
            lemma_encode_trim_len(piece@);
        }
        let seg = str_trim(piece);
        let ghost sb = seg.spec_bytes();
        assert(sb == trimmed_bytes(segs[k as int]));
        assert(sb.len() <= b.len());
        if seg.is_empty() {
            proof {
                lemma_encode_empty_chars(seg@);
            }
            k += 1;
            continue;
        }
        proof {
            lemma_encode_empty_chars(seg@);
            encode_utf8_valid_utf8(seg@);
            lemma_inline_script_shorter(sb);
        }
        if let Some(inner) = extract_inline_script(seg) {
            let ghost script = inline_script_of(sb)->0;
            assert(encode_utf8(inner@) == script);
            match validate_command_safety(inner.as_str()) {
                Err(m) => {
                    return Err(m);
                },
                Ok(mut inner_warnings) => {
                    let ghost iw = strings_view(inner_warnings@);
                    warnings.append(&mut inner_warnings);
                    assert(strings_view(warnings@) =~= acc + iw);
                },
            }
            k += 1;
            continue;
        }
        let substitutions = extract_command_substitutions(seg);
        let ghost subs = substitutions_of(sb);
        proof {
            lemma_substitutions_shorter(sb, 0, false, false);
        }
        let mut j: usize = 0;
        while j < substitutions.len()
            invariant
                b == command.spec_bytes(),
                sb.len() <= b.len(),
                0 < sb.len(),
                k < segs.len(),
                sb == trimmed_bytes(segs[k as int]),
                inline_script_of(sb) is None,
                safety_verdict(b) == segments_verdict(b, segs, k as int, acc),
                subs == substitutions_of(sb),
                substitutions@.len() == subs.len(),
                forall|q: int|
                    0 <= q < substitutions@.len() ==> encode_utf8((#[trigger] substitutions@[q])@)
                        == subs[q],
                forall|q: int| 0 <= q < subs.len() ==> (#[trigger] subs[q]).len() < sb.len(),
                j <= substitutions@.len(),
                substitutions_verdict(b, subs, 0, acc) == substitutions_verdict(
                    b,
                    subs,
                    j as int,
                    strings_view(warnings@),
                ),
            decreases substitutions@.len() - j,
        {
            let ghost acc_j = strings_view(warnings@);
            assert(encode_utf8(substitutions@[j as int]@) == subs[j as int]);
            match validate_command_safety(substitutions[j].as_str()) {
                Err(m) => {
                    return Err(m);
                },
                Ok(mut sub_warnings) => {
                    let ghost sw = strings_view(sub_warnings@);
                    warnings.append(&mut sub_warnings);
                    assert(strings_view(warnings@) =~= acc_j + sw);
                },
            }
            j += 1;
        }
        match inspect_segment(seg) {
            Err(m) => {
                return Err(m);
            },
            Ok(Some(w)) => {
                let ghost before = strings_view(warnings@);
                warnings.push(w);
                assert(strings_view(warnings@) =~= before.push(w@));
            },
            Ok(None) => {},
        }
        k += 1;
    }
    Ok(warnings)
}

/// A character sequence is empty exactly when its encoding is.
proof fn lemma_encode_empty_chars(s: Seq<char>)
    ensures
        (encode_utf8(s).len() == 0) <==> (s.len() == 0),
{
    parse::lemma_encode_empty(s);
}

// =============================================================================
// Laws of the guard
// =============================================================================

/// `m` begins with `p`.
pub open spec fn has_prefix(m: Seq<char>, p: Seq<char>) -> bool {
    p.len() <= m.len() && m.subrange(0, p.len() as int) == p
}

/// The answer's messages have their forms: a refusal is a `BLOCKED`
/// message, and every warning a `NOTICE`.
pub open spec fn messages_well_formed(r: Result<Seq<Seq<char>>, Seq<char>>) -> bool {
    match r {
        Err(m) => has_prefix(m, "BLOCKED\n\nReason: "@),
        Ok(ws) => all_notices(ws),
    }
}

/// Every message of `ws` is a `NOTICE`.
pub open spec fn all_notices(ws: Seq<Seq<char>>) -> bool {
    forall|i: int| 0 <= i < ws.len() ==> has_prefix(#[trigger] ws[i], "NOTICE: "@)
}

proof fn lemma_blocked_prefix(reason: Seq<char>, tip: Seq<char>)
    ensures
        has_prefix(blocked_text(reason, tip), "BLOCKED\n\nReason: "@),
{
    let p = "BLOCKED\n\nReason: "@;
    assert((p + reason + "\n\nTip: "@ + tip).subrange(0, p.len() as int) =~= p);
}

proof fn lemma_warned_prefix(notice: Seq<char>, tip: Seq<char>)
    ensures
        has_prefix(warned_text(notice, tip), "NOTICE: "@),
{
    let p = "NOTICE: "@;
    assert((p + notice + "\n\nTip: "@ + tip).subrange(0, p.len() as int) =~= p);
}

proof fn lemma_hard_block_is_blocked(seg: Seq<u8>)
    ensures
        hard_block_of(seg) matches Some(m) ==> has_prefix(m, "BLOCKED\n\nReason: "@),
{
    reveal(hard_block_of);
    assert forall|r: Seq<char>, t: Seq<char>| has_prefix(#[trigger] blocked_text(r, t), "BLOCKED\n\nReason: "@) by {
        lemma_blocked_prefix(r, t);
    }
}

proof fn lemma_soft_warning_is_notice(seg: Seq<u8>)
    ensures
        soft_warning_of(seg) matches Some(w) ==> has_prefix(w, "NOTICE: "@),
{
    assert forall|n: Seq<char>, t: Seq<char>| has_prefix(#[trigger] warned_text(n, t), "NOTICE: "@) by {
        lemma_warned_prefix(n, t);
    }
}

/// Whatever the command, the guard refuses it with a `BLOCKED` message
/// giving the reason, or lets it run with `NOTICE` warnings only.
pub proof fn lemma_guard_message_forms(command: Seq<u8>)
    ensures
        messages_well_formed(safety_verdict(command)),
    decreases command.len(), 3int, 0int,
{
    let t = trimmed_bytes(command);
    if t.len() > 0 {
        lemma_segments_message_forms(command, segments_of(t), 0, seq![]);
    }
}

proof fn lemma_segments_message_forms(b: Seq<u8>, segs: Seq<Seq<u8>>, k: int, acc: Seq<Seq<char>>)
    requires
        all_notices(acc),
    ensures
        messages_well_formed(segments_verdict(b, segs, k, acc)),
    decreases b.len(), 2int, segs.len() - k,
{
    if 0 <= k < segs.len() {
        let seg = trimmed_bytes(segs[k]);
        if seg.len() == 0 {
            lemma_segments_message_forms(b, segs, k + 1, acc);
        } else {
            match inline_script_of(seg) {
                Some(script) => {
                    if script.len() < b.len() {
                        lemma_guard_message_forms(script);
                        match safety_verdict(script) {
                            Err(_) => {},
                            Ok(ws) => {
                                assert(all_notices(acc + ws)) by {
                                    assert forall|i: int| 0 <= i < (acc + ws).len() implies has_prefix(
                                        #[trigger] (acc + ws)[i],
                                        "NOTICE: "@,
                                    ) by {
                                        if i >= acc.len() {
                                            assert((acc + ws)[i] == ws[i - acc.len()]);
                                        }
                                    }
                                }
                                lemma_segments_message_forms(b, segs, k + 1, acc + ws);
                            },
                        }
                    }
                },
                None => {
                    lemma_substitutions_message_forms(b, substitutions_of(seg), 0, acc);
                    match substitutions_verdict(b, substitutions_of(seg), 0, acc) {
                        Err(_) => {},
                        Ok(acc2) => {
                            lemma_hard_block_is_blocked(seg);
                            if hard_block_of(seg) is None {
                                lemma_soft_warning_is_notice(seg);
                                let acc3 = match soft_warning_of(seg) {
                                    Some(w) => acc2.push(w),
                                    None => acc2,
                                };
                                assert(all_notices(acc3)) by {
                                    assert forall|i: int| 0 <= i < acc3.len() implies has_prefix(
                                        #[trigger] acc3[i],
                                        "NOTICE: "@,
                                    ) by {
                                        if i < acc2.len() {
                                            assert(acc3[i] == acc2[i]);
                                        }
                                    }
                                }
                                lemma_segments_message_forms(b, segs, k + 1, acc3);
                            }
                        },
                    }
                },
            }
        }
    }
}

proof fn lemma_substitutions_message_forms(b: Seq<u8>, subs: Seq<Seq<u8>>, j: int, acc: Seq<Seq<char>>)
    requires
        all_notices(acc),
    ensures
        messages_well_formed(substitutions_verdict(b, subs, j, acc)),
        substitutions_verdict(b, subs, j, acc) matches Ok(ws) ==> all_notices(ws),
    decreases b.len(), 1int, subs.len() - j,
{
    if 0 <= j < subs.len() && subs[j].len() < b.len() {
        lemma_guard_message_forms(subs[j]);
        match safety_verdict(subs[j]) {
            Err(_) => {},
            Ok(ws) => {
                assert(all_notices(acc + ws)) by {
                    assert forall|i: int| 0 <= i < (acc + ws).len() implies has_prefix(
                        #[trigger] (acc + ws)[i],
                        "NOTICE: "@,
                    ) by {
                        if i >= acc.len() {
                            assert((acc + ws)[i] == ws[i - acc.len()]);
                        }
                    }
                }
                lemma_substitutions_message_forms(b, subs, j + 1, acc + ws);
            },
        }
    }
}

/// A command that is empty or only whitespace passes with no warnings.
pub proof fn lemma_blank_command_passes(command: Seq<u8>)
    requires
        trimmed_bytes(command).len() == 0,
    ensures
        safety_verdict(command) == Ok::<Seq<Seq<char>>, Seq<char>>(seq![]),
{
}

} // verus!
