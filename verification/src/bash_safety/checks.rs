//! Destructive-command check rules for the Bash tool safety guard.
//!
//! Each check receives `(segment, normalized, lower)`: the original segment
//! text, the whitespace-collapsed inspection segment (case preserved), and
//! its lower-cased form.  A check returns the message to report when it
//! triggers.
use vstd::prelude::*;
use vstd::string::*;
use vstd::utf8::*;

use super::parse::{
    lemma_skip_word_bounds, lemma_skip_ws_bounds, skip_ascii_word, skip_ascii_ws, skip_word_at,
    skip_ws_at, BACKSLASH, BACKTICK, DOLLAR, DQ, LPAREN, SQ,
};
use super::{blocked, blocked_text, warned, warned_text};
use crate::text::{
    ascii_cut, ascii_lower, ascii_lower_byte, contains_bytes, contains_slice, eq_ignore_ascii_case,
    eq_ignore_ascii_case_slice, find_bytes, find_from, first_occurrence, has_byte, has_byte_from,
    has_byte_slice, lemma_ascii_str_bytes, lemma_find_from_bounds, lowercase, occurs_at,
    occurs_at_slice, slice_eq, split_whitespace_vec, starts_with_bytes, starts_with_slice,
    str_to_lowercase, str_trim, trimmed_bytes, views_of, words,
};

verus! {

broadcast use vstd::seq::group_seq_axioms;

pub const DASH: u8 = 0x2d;

/// The character view of an optional message.
pub open spec fn opt_view(r: Option<String>) -> Option<Seq<char>> {
    match r {
        Some(m) => Some(m@),
        None => None,
    }
}

/// The UTF-8 bytes of each piece.
pub open spec fn bytes_of_each(parts: Seq<Seq<char>>) -> Seq<Seq<u8>> {
    parts.map_values(|p: Seq<char>| encode_utf8(p))
}

/// Whether `needle` occurs in `hay`.
pub fn str_contains(hay: &str, needle: &str) -> (r: bool)
    ensures
        r == contains_bytes(hay.spec_bytes(), needle.spec_bytes()),
{
    contains_slice(hay.as_bytes(), needle.as_bytes())
}

// =============================================================================
// Git checks
// =============================================================================

pub const GIT_RESET_REASON: &'static str = "git reset --hard/--merge destroys uncommitted changes";
pub const GIT_RESET_TIP: &'static str = "Use 'git stash' to save changes first, or 'git reset --soft' to preserve them.";

/// `git reset --hard` / `git reset --merge` occurs in the lower-cased text.
pub open spec fn git_reset_message(lower: Seq<u8>) -> Option<Seq<char>> {
    if contains_bytes(lower, "git reset --hard".spec_bytes()) || contains_bytes(
        lower,
        "git reset --merge".spec_bytes(),
    ) {
        Some(blocked_text(GIT_RESET_REASON@, GIT_RESET_TIP@))
    } else {
        None
    }
}

/// `git reset --hard` / `git reset --merge`
pub fn check_git_reset(_segment: &str, _normalized: &str, lower: &str) -> (r: Option<String>)
    ensures
        opt_view(r) == git_reset_message(lower.spec_bytes()),
{
    if str_contains(lower, "git reset --hard") || str_contains(lower, "git reset --merge") {
        return Some(blocked(GIT_RESET_REASON, GIT_RESET_TIP));
    }
    None
}

/// The whitespace-separated tokens of the text whose bytes are `b`, as bytes.
pub open spec fn tokens_of(b: Seq<u8>) -> Seq<Seq<u8>> {
    bytes_of_each(words(decode_utf8(b)))
}

/// The trimmed text of `hay` after byte `pos + skip`.
fn tail_after<'a>(hay: &'a str, pos: usize, needle: &str) -> (r: &'a str)
    requires
        occurs_at(hay.spec_bytes(), needle.spec_bytes(), pos as int),
        needle.spec_bytes().len() > 0,
        needle.spec_bytes()[needle.spec_bytes().len() - 1] < 0x80,
    ensures
        r.spec_bytes() == trimmed_bytes(
            hay.spec_bytes().subrange(pos + needle.spec_bytes().len(), hay.spec_bytes().len() as int),
        ),
{
    let len = hay.as_bytes().len();
    let skip = needle.as_bytes().len();
    let ghost h = hay.spec_bytes();
    let ghost n = needle.spec_bytes();
    assert(h[pos + skip - 1] == h.subrange(pos as int, pos + skip)[skip - 1]);
    let after = ascii_cut(hay, pos + skip, len);
    str_trim(after)
}

/// The tokens of `s` as string slices.
fn tokens(s: &str) -> (r: Vec<&str>)
    ensures
        r@.len() == tokens_of(s.spec_bytes()).len(),
        forall|k: int| 0 <= k < r@.len() ==> (#[trigger] r@[k]).spec_bytes() == tokens_of(s.spec_bytes())[k],
{
    proof {
        encode_utf8_decode_utf8(s@);
    }
    let r = split_whitespace_vec(s);
    assert forall|k: int| 0 <= k < r@.len() implies (#[trigger] r@[k]).spec_bytes() == tokens_of(
        s.spec_bytes(),
    )[k] by {
        assert(views_of(r@)[k] == r@[k]@);
    }
    r
}

pub const GIT_CHECKOUT_REASON: &'static str = "git checkout -- <file> discards uncommitted file changes";
pub const GIT_CHECKOUT_TIP: &'static str = "Use 'git restore --staged <file>' to unstage, or 'git stash' to save changes.";

/// The first `git checkout --` is followed by a path: text that does not
/// begin with `-`.
pub open spec fn git_checkout_message(lower: Seq<u8>) -> Option<Seq<char>> {
    let needle = "git checkout --".spec_bytes();
    match first_occurrence(lower, needle) {
        Some(p) => {
            let t = trimmed_bytes(lower.subrange(p + needle.len(), lower.len() as int));
            if t.len() > 0 && t[0] != DASH {
                Some(blocked_text(GIT_CHECKOUT_REASON@, GIT_CHECKOUT_TIP@))
            } else {
                None
            }
        },
        None => None,
    }
}

/// `git checkout -- <file>`
pub fn check_git_checkout(_segment: &str, _normalized: &str, lower: &str) -> (r: Option<String>)
    ensures
        opt_view(r) == git_checkout_message(lower.spec_bytes()),
{
    let needle = "git checkout --";
    proof {
        reveal_strlit("git checkout --");
        assert(is_ascii("git checkout --"));
        lemma_ascii_str_bytes("git checkout --");
        lemma_find_from_bounds(lower.spec_bytes(), needle.spec_bytes(), 0);
    }
    if str_contains(lower, needle) {
        if let Some(pos) = find_bytes(lower.as_bytes(), needle.as_bytes()) {
            let after = tail_after(lower, pos, needle);
            let ab = after.as_bytes();
            if ab.len() > 0 && ab[0] != DASH {
                return Some(blocked(GIT_CHECKOUT_REASON, GIT_CHECKOUT_TIP));
            }
        }
    }
    None
}

pub const GIT_RESTORE_WORKTREE_REASON: &'static str = "git restore --worktree discards uncommitted changes";
pub const GIT_RESTORE_FILE_REASON: &'static str = "git restore <file> without --staged discards uncommitted changes";
pub const GIT_RESTORE_TIP: &'static str = "Use 'git restore --staged <file>' to only unstage, or 'git stash' to save changes.";

/// `git restore` with `--worktree`, or without `--staged` and followed by a
/// path (anything but nothing or `-b ...`).
pub open spec fn git_restore_message(lower: Seq<u8>) -> Option<Seq<char>> {
    let needle = "git restore".spec_bytes();
    if !contains_bytes(lower, needle) {
        None
    } else if contains_bytes(lower, "--worktree".spec_bytes()) {
        Some(blocked_text(GIT_RESTORE_WORKTREE_REASON@, GIT_RESTORE_TIP@))
    } else if contains_bytes(lower, "--staged".spec_bytes()) {
        None
    } else {
        match first_occurrence(lower, needle) {
            Some(p) => {
                let t = trimmed_bytes(lower.subrange(p + needle.len(), lower.len() as int));
                if t.len() == 0 || starts_with_bytes(t, "-b".spec_bytes()) {
                    None
                } else {
                    Some(blocked_text(GIT_RESTORE_FILE_REASON@, GIT_RESTORE_TIP@))
                }
            },
            None => None,
        }
    }
}

/// `git restore <file>` without `--staged`, or with `--worktree`.
/// `git restore -b <branch>` is allowed (creates a branch).
pub fn check_git_restore(_segment: &str, _normalized: &str, lower: &str) -> (r: Option<String>)
    ensures
        opt_view(r) == git_restore_message(lower.spec_bytes()),
{
    let needle = "git restore";
    proof {
        reveal_strlit("git restore");
        assert(is_ascii("git restore"));
        lemma_ascii_str_bytes("git restore");
        lemma_find_from_bounds(lower.spec_bytes(), needle.spec_bytes(), 0);
    }
    if !str_contains(lower, needle) {
        return None;
    }
    if str_contains(lower, "--worktree") {
        return Some(blocked(GIT_RESTORE_WORKTREE_REASON, GIT_RESTORE_TIP));
    }
    if str_contains(lower, "--staged") {
        return None;
    }
    if let Some(pos) = find_bytes(lower.as_bytes(), needle.as_bytes()) {
        let after = tail_after(lower, pos, needle);
        let ab = after.as_bytes();
        if ab.len() == 0 || starts_with_slice(ab, "-b".as_bytes()) {
            return None;
        }
        return Some(blocked(GIT_RESTORE_FILE_REASON, GIT_RESTORE_TIP));
    }
    None
}

pub const GIT_CLEAN_REASON: &'static str = "git clean -f permanently deletes untracked files";
pub const GIT_CLEAN_TIP: &'static str = "Use 'git clean -n' to preview what would be deleted first.";

/// A short-flag group (`-x...`, not `--...`) that contains `f`.
pub open spec fn is_force_flag_group(t: Seq<u8>) -> bool {
    t.len() > 0 && t[0] == DASH && !starts_with_bytes(t, "--".spec_bytes()) && has_byte(t, 0x66)
}

/// `git clean` with `--force`, `-f`, or a later short-flag group holding `f`.
pub open spec fn git_clean_message(lower: Seq<u8>) -> Option<Seq<char>> {
    let needle = "git clean".spec_bytes();
    if !contains_bytes(lower, needle) {
        None
    } else if contains_bytes(lower, "git clean --force".spec_bytes()) || contains_bytes(
        lower,
        "git clean -f".spec_bytes(),
    ) {
        Some(blocked_text(GIT_CLEAN_REASON@, GIT_CLEAN_TIP@))
    } else {
        match first_occurrence(lower, needle) {
            Some(p) => {
                let toks = tokens_of(
                    trimmed_bytes(lower.subrange(p + needle.len(), lower.len() as int)),
                );
                if exists|k: int| 0 <= k < toks.len() && is_force_flag_group(#[trigger] toks[k]) {
                    Some(blocked_text(GIT_CLEAN_REASON@, GIT_CLEAN_TIP@))
                } else {
                    None
                }
            },
            None => None,
        }
    }
}

/// `git clean -f` / `--force`, including combined flags like `-fd`, `-fdx`.
#[verifier::loop_isolation(false)]
pub fn check_git_clean(_segment: &str, _normalized: &str, lower: &str) -> (r: Option<String>)
    ensures
        opt_view(r) == git_clean_message(lower.spec_bytes()),
{
    let needle = "git clean";
    proof {
        reveal_strlit("git clean");
        assert(is_ascii("git clean"));
        lemma_ascii_str_bytes("git clean");
        lemma_find_from_bounds(lower.spec_bytes(), needle.spec_bytes(), 0);
    }
    if !str_contains(lower, needle) {
        return None;
    }
    if str_contains(lower, "git clean --force") || str_contains(lower, "git clean -f") {
        return Some(blocked(GIT_CLEAN_REASON, GIT_CLEAN_TIP));
    }
    if let Some(pos) = find_bytes(lower.as_bytes(), needle.as_bytes()) {
        let after = tail_after(lower, pos, needle);
        let toks = tokens(after);
        let mut k: usize = 0;
        while k < toks.len()
            invariant
                k <= toks@.len(),
                toks@.len() == tokens_of(after.spec_bytes()).len(),
                forall|j: int| 0 <= j < toks@.len() ==> (#[trigger] toks@[j]).spec_bytes() == tokens_of(after.spec_bytes())[j],
                forall|j: int| 0 <= j < k ==> !is_force_flag_group(#[trigger] tokens_of(after.spec_bytes())[j]),
            decreases toks@.len() - k,
        {
            let tb = toks[k].as_bytes();
            if tb.len() > 0 && tb[0] == DASH && !starts_with_slice(tb, "--".as_bytes()) && has_byte_slice(tb, 0x66) {
                assert(is_force_flag_group(tokens_of(after.spec_bytes())[k as int]));
                return Some(blocked(GIT_CLEAN_REASON, GIT_CLEAN_TIP));
            }
            k += 1;
        }
    }
    None
}

pub const GIT_PUSH_FORCE_REASON: &'static str = "git push --force overwrites remote commit history";
pub const GIT_PUSH_SHORT_REASON: &'static str = "git push -f overwrites remote commit history";
pub const GIT_PUSH_TIP: &'static str = "Use 'git push --force-with-lease' for safer force pushes.";

/// `-f`, or a short-flag group longer than one byte that contains `f`.
pub open spec fn is_push_force_token(t: Seq<u8>) -> bool {
    t == "-f".spec_bytes() || (t.len() > 1 && t[0] == DASH && !starts_with_bytes(
        t,
        "--".spec_bytes(),
    ) && has_byte(t, 0x66))
}

/// `git push` with `--force` (but never when `--force-with-lease` appears),
/// or followed by a force flag.
pub open spec fn git_push_message(lower: Seq<u8>) -> Option<Seq<char>> {
    let needle = "git push".spec_bytes();
    if !contains_bytes(lower, needle) {
        None
    } else if contains_bytes(lower, "--force-with-lease".spec_bytes()) {
        None
    } else if contains_bytes(lower, "git push --force".spec_bytes()) {
        Some(blocked_text(GIT_PUSH_FORCE_REASON@, GIT_PUSH_TIP@))
    } else {
        match first_occurrence(lower, needle) {
            Some(p) => {
                let toks = tokens_of(
                    trimmed_bytes(lower.subrange(p + needle.len(), lower.len() as int)),
                );
                if exists|k: int| 0 <= k < toks.len() && is_push_force_token(#[trigger] toks[k]) {
                    Some(blocked_text(GIT_PUSH_SHORT_REASON@, GIT_PUSH_TIP@))
                } else {
                    None
                }
            },
            None => None,
        }
    }
}

/// `git push --force` / `-f`; `--force-with-lease` is allowed.
#[verifier::loop_isolation(false)]
pub fn check_git_push(_segment: &str, _normalized: &str, lower: &str) -> (r: Option<String>)
    ensures
        opt_view(r) == git_push_message(lower.spec_bytes()),
{
    let needle = "git push";
    proof {
        reveal_strlit("git push");
        assert(is_ascii("git push"));
        lemma_ascii_str_bytes("git push");
        lemma_find_from_bounds(lower.spec_bytes(), needle.spec_bytes(), 0);
    }
    if !str_contains(lower, needle) {
        return None;
    }
    if str_contains(lower, "--force-with-lease") {
        return None;
    }
    if str_contains(lower, "git push --force") {
        return Some(blocked(GIT_PUSH_FORCE_REASON, GIT_PUSH_TIP));
    }
    if let Some(pos) = find_bytes(lower.as_bytes(), needle.as_bytes()) {
        let after = tail_after(lower, pos, needle);
        let toks = tokens(after);
        let mut k: usize = 0;
        while k < toks.len()
            invariant
                k <= toks@.len(),
                forall|j: int| 0 <= j < k ==> !is_push_force_token(#[trigger] tokens_of(after.spec_bytes())[j]),
            decreases toks@.len() - k,
        {
            let tb = toks[k].as_bytes();
            if slice_eq(tb, "-f".as_bytes()) {
                assert(is_push_force_token(tokens_of(after.spec_bytes())[k as int]));
                return Some(blocked(GIT_PUSH_SHORT_REASON, GIT_PUSH_TIP));
            }
            if tb.len() > 1 && tb[0] == DASH && !starts_with_slice(tb, "--".as_bytes()) && has_byte_slice(tb, 0x66) {
                assert(is_push_force_token(tokens_of(after.spec_bytes())[k as int]));
                return Some(blocked(GIT_PUSH_SHORT_REASON, GIT_PUSH_TIP));
            }
            k += 1;
        }
    }
    None
}

pub const GIT_BRANCH_DELETE_REASON: &'static str = "git branch -D force-deletes branches without checking merge status";
pub const GIT_BRANCH_DELETE_TIP: &'static str = "Use 'git branch -d' (lowercase) to safely delete only merged branches.";

/// A flag token `-...` (not `--...`) whose flags contain an upper-case `D`.
pub open spec fn is_force_delete_flags(t: Seq<u8>) -> bool {
    t.len() > 0 && t[0] == DASH && !(t.len() > 1 && t[1] == DASH) && exists|i: int|
        1 <= i < t.len() && t[i] == 0x44
}

/// Scanning the tokens from `i`: a `git` token (any case) followed by
/// `branch` (any case) and then a force-delete flag token.  Tokens that were
/// inspected as the word after `git` or after `git branch` are not looked at
/// again.
pub open spec fn branch_delete_from(toks: Seq<Seq<u8>>, i: int) -> bool
    decreases toks.len() - i,
{
    if i < 0 || i >= toks.len() {
        false
    } else if !eq_ignore_ascii_case(toks[i], "git".spec_bytes()) {
        branch_delete_from(toks, i + 1)
    } else if i + 1 >= toks.len() {
        false
    } else if !eq_ignore_ascii_case(toks[i + 1], "branch".spec_bytes()) {
        branch_delete_from(toks, i + 2)
    } else if i + 2 >= toks.len() {
        false
    } else if is_force_delete_flags(toks[i + 2]) {
        true
    } else {
        branch_delete_from(toks, i + 3)
    }
}

/// `git branch -D` in the case-preserved, whitespace-normalized text.
pub open spec fn git_branch_delete_message(normalized: Seq<u8>) -> Option<Seq<char>> {
    if branch_delete_from(tokens_of(normalized), 0) {
        Some(blocked_text(GIT_BRANCH_DELETE_REASON@, GIT_BRANCH_DELETE_TIP@))
    } else {
        None
    }
}

/// `git branch -D` — uppercase D only (force delete without merge check).
/// Uses the case-preserved, whitespace-normalized text so lowercase `-d`
/// stays allowed.
pub fn check_git_branch_delete(_segment: &str, normalized: &str, _lower: &str) -> (r: Option<String>)
    ensures
        opt_view(r) == git_branch_delete_message(normalized.spec_bytes()),
{
    let toks = tokens(normalized);
    let ghost spec_toks = tokens_of(normalized.spec_bytes());
    let mut i: usize = 0;
    while i < toks.len()
        invariant
            toks@.len() == spec_toks.len(),
            spec_toks == tokens_of(normalized.spec_bytes()),
            forall|j: int| 0 <= j < toks@.len() ==> (#[trigger] toks@[j]).spec_bytes() == spec_toks[j],
            branch_delete_from(spec_toks, 0) == branch_delete_from(spec_toks, i as int),
        decreases toks@.len() - i,
    {
        let token = toks[i].as_bytes();
        i += 1;
        if !eq_ignore_ascii_case_slice(token, "git".as_bytes()) {
            continue;
        }
        if i >= toks.len() {
            return None;
        }
        let next = toks[i].as_bytes();
        i += 1;
        if !eq_ignore_ascii_case_slice(next, "branch".as_bytes()) {
            continue;
        }
        if i >= toks.len() {
            return None;
        }
        let flags = toks[i].as_bytes();
        i += 1;
        if flags.len() > 0 && flags[0] == DASH && !(flags.len() > 1 && flags[1] == DASH) {
            if has_byte_from(flags, 1, 0x44) {
                return Some(blocked(GIT_BRANCH_DELETE_REASON, GIT_BRANCH_DELETE_TIP));
            }
        }
    }
    None
}

pub const GIT_STASH_REASON: &'static str = "git stash drop/clear permanently deletes stashed changes";
pub const GIT_STASH_TIP: &'static str = "Use 'git stash list' to review stashes, or 'git stash pop' to apply and remove.";

/// `git stash drop` / `git stash clear` occurs in the lower-cased text.
pub open spec fn git_stash_message(lower: Seq<u8>) -> Option<Seq<char>> {
    if contains_bytes(lower, "git stash drop".spec_bytes()) || contains_bytes(
        lower,
        "git stash clear".spec_bytes(),
    ) {
        Some(blocked_text(GIT_STASH_REASON@, GIT_STASH_TIP@))
    } else {
        None
    }
}

/// `git stash drop` / `git stash clear`
pub fn check_git_stash(_segment: &str, _normalized: &str, lower: &str) -> (r: Option<String>)
    ensures
        opt_view(r) == git_stash_message(lower.spec_bytes()),
{
    if str_contains(lower, "git stash drop") || str_contains(lower, "git stash clear") {
        return Some(blocked(GIT_STASH_REASON, GIT_STASH_TIP));
    }
    None
}

pub const EQUALS: u8 = 0x3d;

/// The end of a single-quoted body scanned from `i`: the position of the
/// closing quote, or the end of the text.  A backslash skips the next byte.
pub open spec fn single_quote_end(b: Seq<u8>, i: int) -> int
    decreases b.len() - i,
{
    if i < 0 || i >= b.len() {
        i
    } else if b[i] == SQ {
        i
    } else if b[i] == BACKSLASH && i + 1 < b.len() {
        single_quote_end(b, i + 2)
    } else {
        single_quote_end(b, i + 1)
    }
}

/// Scan a double-quoted message body from `i`: whether a backtick or `$(`
/// occurs before the closing quote, and where the scan stopped.
pub open spec fn double_quote_scan(b: Seq<u8>, i: int) -> (bool, int)
    decreases b.len() - i,
{
    if i < 0 || i >= b.len() {
        (false, i)
    } else if b[i] == DQ {
        (false, i)
    } else if b[i] == BACKSLASH && i + 1 < b.len() {
        double_quote_scan(b, i + 2)
    } else if b[i] == BACKTICK {
        (true, i)
    } else if b[i] == DOLLAR && i + 1 < b.len() && b[i + 1] == LPAREN {
        (true, i)
    } else {
        double_quote_scan(b, i + 1)
    }
}

/// `-m` starts at `i`.
pub open spec fn is_m_flag(b: Seq<u8>, i: int) -> bool {
    0 <= i && i + 1 < b.len() && b[i] == DASH && b[i + 1] == 0x6d
}

/// `--message` starts at `i` and more text follows it.
pub open spec fn is_message_flag(b: Seq<u8>, i: int) -> bool {
    0 <= i && i + 8 < b.len() && b[i] == DASH && b[i + 1] == DASH && b.subrange(i + 2, i + 9)
        == "message".spec_bytes()
}

pub proof fn lemma_single_quote_end_bounds(b: Seq<u8>, i: int)
    requires
        0 <= i <= b.len(),
    ensures
        i <= single_quote_end(b, i) <= b.len(),
    decreases b.len() - i,
{
    if i < 0 || i >= b.len() {
    } else if b[i] == SQ {
    } else if b[i] == BACKSLASH && i + 1 < b.len() {
        lemma_single_quote_end_bounds(b, i + 2);
    } else {
        lemma_single_quote_end_bounds(b, i + 1);
    }
}

pub proof fn lemma_double_quote_scan_bounds(b: Seq<u8>, i: int)
    requires
        0 <= i <= b.len(),
    ensures
        i <= double_quote_scan(b, i).1 <= b.len(),
    decreases b.len() - i,
{
    if i < 0 || i >= b.len() {
    } else if b[i] == DQ {
    } else if b[i] == BACKSLASH && i + 1 < b.len() {
        lemma_double_quote_scan_bounds(b, i + 2);
    } else if b[i] == BACKTICK {
    } else if b[i] == DOLLAR && i + 1 < b.len() && b[i + 1] == LPAREN {
    } else {
        lemma_double_quote_scan_bounds(b, i + 1);
    }
}

/// From byte `i` on, some `-m` / `--message` flag (outside single quotes)
/// takes a double-quoted value holding a backtick or `$(`.  The value may
/// follow after spaces, after `=`, or directly.
pub open spec fn unsafe_message_from(b: Seq<u8>, i: int) -> bool
    decreases b.len() - i,
{
    let i1 = skip_ascii_ws(b, i);
    if i < 0 || i > b.len() || i1 >= b.len() {
        false
    } else if b[i1] == SQ {
        proof {
            lemma_skip_ws_bounds(b, i);
            lemma_single_quote_end_bounds(b, i1 + 1);
        }
        let e = single_quote_end(b, i1 + 1);
        unsafe_message_from(b, if e < b.len() { e + 1 } else { e })
    } else if is_m_flag(b, i1) || is_message_flag(b, i1) {
        proof {
            lemma_skip_ws_bounds(b, i);
        }
        let after = if is_m_flag(b, i1) { i1 + 2 } else { i1 + 9 };
        let v = skip_ascii_ws(b, after);
        if v >= b.len() {
            false
        } else {
            proof {
                lemma_skip_ws_bounds(b, after);
                lemma_skip_ws_bounds(b, v + 1);
            }
            let v2 = if b[v] == EQUALS { skip_ascii_ws(b, v + 1) } else { v };
            if v2 < b.len() && b[v2] == DQ {
                proof {
                    lemma_double_quote_scan_bounds(b, v2 + 1);
                }
                let scan = double_quote_scan(b, v2 + 1);
                if scan.0 {
                    true
                } else {
                    unsafe_message_from(b, if scan.1 < b.len() { scan.1 + 1 } else { scan.1 })
                }
            } else {
                unsafe_message_from(b, v2)
            }
        }
    } else {
        proof {
            lemma_skip_ws_bounds(b, i);
            lemma_skip_word_bounds(b, i1);
        }
        unsafe_message_from(b, skip_ascii_word(b, i1))
    }
}

/// Scanning the words of `b` from byte `i`: a `git` word (any case) followed
/// by a `commit` word (any case) whose remaining text has an unsafe message
/// flag.
pub open spec fn commit_scan(b: Seq<u8>, i: int) -> bool
    decreases b.len() - i,
{
    let i1 = skip_ascii_ws(b, i);
    if i < 0 || i > b.len() || i1 >= b.len() {
        false
    } else {
        proof {
            lemma_skip_ws_bounds(b, i);
            lemma_skip_word_bounds(b, i1);
        }
        let e = skip_ascii_word(b, i1);
        if eq_ignore_ascii_case(b.subrange(i1, e), "git".spec_bytes()) {
            proof {
                lemma_skip_ws_bounds(b, e);
                lemma_skip_word_bounds(b, skip_ascii_ws(b, e));
            }
            let c1 = skip_ascii_ws(b, e);
            let c2 = skip_ascii_word(b, c1);
            if c1 < b.len() && eq_ignore_ascii_case(b.subrange(c1, c2), "commit".spec_bytes())
                && unsafe_message_from(b, c2) {
                true
            } else {
                commit_scan(b, c2)
            }
        } else {
            commit_scan(b, e)
        }
    }
}

pub const GIT_COMMIT_REASON: &'static str = "git commit -m/--message with backticks or $() in double-quoted message";
pub const GIT_COMMIT_TIP: &'static str = "Use 'git commit -F -' with a heredoc to pass the message via stdin, or use single quotes around the message instead of double quotes.";

/// `git commit` whose `-m`/`--message` value is double-quoted and holds a
/// backtick or `$(`.
pub open spec fn git_commit_backticks_message(segment: Seq<u8>) -> Option<Seq<char>> {
    if contains_bytes(segment, "git commit".spec_bytes()) && commit_scan(segment, 0) {
        Some(blocked_text(GIT_COMMIT_REASON@, GIT_COMMIT_TIP@))
    } else {
        None
    }
}

/// Scan the remainder of a command (starting at `start`) for `-m`/`--message`
/// flags whose double-quoted value contains backticks or `$(`.
#[verifier::loop_isolation(false)]
fn has_unsafe_message_flag(command: &[u8], start: usize) -> (r: bool)
    requires
        start <= command@.len(),
    ensures
        r == unsafe_message_from(command@, start as int),
{
    let ghost b = command@;
    let len = command.len();
    let mut i = start;
    while i < len
        invariant
            b == command@,
            len == b.len(),
            i <= len,
            unsafe_message_from(b, start as int) == unsafe_message_from(b, i as int),
        decreases len - i,
    {
        let i1 = skip_ws_at(command, i);
        proof {
            lemma_skip_ws_bounds(b, i as int);
        }
        if i1 >= len {
            return false;
        }
        if command[i1] == SQ {
            let mut k = i1 + 1;
            while k < len && command[k] != SQ
                invariant
                    b == command@,
                    len == b.len(),
                    i1 + 1 <= k <= len,
                    single_quote_end(b, k as int) == single_quote_end(b, i1 + 1),
                decreases len - k,
            {
                if command[k] == BACKSLASH && k + 1 < len {
                    k += 2;
                } else {
                    k += 1;
                }
            }
            if k < len {
                k += 1;
            }
            i = k;
            continue;
        }
        let m_flag = len - i1 > 1 && command[i1] == DASH && command[i1 + 1] == 0x6d;
        let message_flag = len - i1 > 8 && command[i1] == DASH && command[i1 + 1] == DASH
            && occurs_at_slice(command, "message".as_bytes(), i1 + 2);
        proof {
            reveal_strlit("message");
            assert(is_ascii("message"));
            lemma_ascii_str_bytes("message");
            if message_flag {
                assert(b.subrange(i1 + 2, i1 + 9) == "message".spec_bytes());
            }
            if is_message_flag(b, i1 as int) {
                assert(occurs_at(b, "message".spec_bytes(), i1 + 2));
            }
        }
        if !m_flag && !message_flag {
            proof {
                lemma_skip_word_bounds(b, i1 as int);
            }
            i = skip_word_at(command, i1);
            continue;
        }
        let after = if m_flag { i1 + 2 } else { i1 + 9 };
        let v = skip_ws_at(command, after);
        if v >= len {
            return false;
        }
        let v2 = if command[v] == EQUALS { skip_ws_at(command, v + 1) } else { v };
        if v2 < len && command[v2] == DQ {
            let mut k = v2 + 1;
            while k < len && command[k] != DQ
                invariant
                    b == command@,
                    len == b.len(),
                    v2 + 1 <= k <= len,
                    double_quote_scan(b, k as int) == double_quote_scan(b, v2 + 1),
                decreases len - k,
            {
                if command[k] == BACKSLASH && k + 1 < len {
                    k += 2;
                    continue;
                }
                if command[k] == BACKTICK {
                    return true;
                }
                if command[k] == DOLLAR && k + 1 < len && command[k + 1] == LPAREN {
                    return true;
                }
                k += 1;
            }
            if k < len {
                k += 1;
            }
            i = k;
        } else {
            i = v2;
        }
    }
    false
}

/// `git commit -m` with backticks or `$()` inside a double-quoted message.
///
/// The shell interprets backticks and `$()` as command substitution even
/// inside double-quoted arguments, so such calls are blocked with advice to
/// use `git commit -F -` with a heredoc or single quotes instead.
pub fn check_git_commit_backticks(segment: &str, _normalized: &str, _lower: &str) -> (r: Option<String>)
    ensures
        opt_view(r) == git_commit_backticks_message(segment.spec_bytes()),
{
    if !str_contains(segment, "git commit") {
        return None;
    }
    let bytes = segment.as_bytes();
    let ghost b = bytes@;
    let len = bytes.len();
    let mut i: usize = 0;
    while i < len
        invariant
            b == bytes@,
            b == segment.spec_bytes(),
            contains_bytes(b, "git commit".spec_bytes()),
            len == b.len(),
            i <= len,
            commit_scan(b, 0) == commit_scan(b, i as int),
        decreases len - i,
    {
        let word_start = skip_ws_at(bytes, i);
        proof {
            lemma_skip_ws_bounds(b, i as int);
        }
        if word_start >= len {
            return None;
        }
        let git_end = skip_word_at(bytes, word_start);
        proof {
            lemma_skip_word_bounds(b, word_start as int);
        }
        if eq_ignore_ascii_case_slice_at(bytes, word_start, git_end, "git".as_bytes()) {
            let commit_start = skip_ws_at(bytes, git_end);
            let commit_end = skip_word_at(bytes, commit_start);
            if commit_start < len && eq_ignore_ascii_case_slice_at(bytes, commit_start, commit_end, "commit".as_bytes()) {
                if has_unsafe_message_flag(bytes, commit_end) {
                    return Some(blocked(GIT_COMMIT_REASON, GIT_COMMIT_TIP));
                }
            }
            i = commit_end;
        } else {
            i = git_end;
        }
    }
    None
}

/// Whether the bytes `start..end` of `hay` equal `word` ignoring ASCII case.
fn eq_ignore_ascii_case_slice_at(hay: &[u8], start: usize, end: usize, word: &[u8]) -> (r: bool)
    requires
        start <= end <= hay@.len(),
    ensures
        r == eq_ignore_ascii_case(hay@.subrange(start as int, end as int), word@),
{
    if end - start != word.len() {
        return false;
    }
    let mut j: usize = 0;
    while j < word.len()
        invariant
            j <= word@.len(),
            end - start == word@.len(),
            start <= end <= hay@.len(),
            forall|k: int| 0 <= k < j ==> ascii_lower(hay@[start + k]) == ascii_lower(word@[k]),
        decreases word@.len() - j,
    {
        if ascii_lower_byte(hay[start + j]) != ascii_lower_byte(word[j]) {
            assert(hay@.subrange(start as int, end as int)[j as int] == hay@[start + j]);
            return false;
        }
        j += 1;
    }
    assert forall|k: int| 0 <= k < word@.len() implies ascii_lower(hay@.subrange(start as int, end as int)[k]) == ascii_lower(word@[k]) by {
        assert(hay@.subrange(start as int, end as int)[k] == hay@[start + k]);
    }
    true
}

// =============================================================================
// rm -rf check
// =============================================================================

/// `rm -rf` may remove `t`: the literal `/tmp` or `/var/tmp` directories or
/// paths below them.
pub open spec fn allowed_rm_target(t: Seq<u8>) -> bool {
    ||| t == "/tmp".spec_bytes()
    ||| starts_with_bytes(t, "/tmp/".spec_bytes())
    ||| t == "/var/tmp".spec_bytes()
    ||| starts_with_bytes(t, "/var/tmp/".spec_bytes())
}

/// Check if an `rm -rf` target is in an allowed temporary directory.
pub fn is_allowed_rm_target(target: &str) -> (r: bool)
    ensures
        r == allowed_rm_target(target.spec_bytes()),
{
    let t = target.as_bytes();
    if slice_eq(t, "/tmp".as_bytes()) || starts_with_slice(t, "/tmp/".as_bytes()) {
        return true;
    }
    if slice_eq(t, "/var/tmp".as_bytes()) || starts_with_slice(t, "/var/tmp/".as_bytes()) {
        return true;
    }
    false
}

/// The arguments of an `rm` from token `j` on, with the options-ended flag,
/// whether recursive and force flags were seen, and whether some target is
/// not an allowed temporary path: the command is blocked when it is
/// recursive, forced and has such a target.
pub open spec fn rm_args_block(toks: Seq<Seq<u8>>, j: int, ended: bool, r: bool, f: bool, bad: bool) -> bool
    decreases toks.len() - j,
{
    if j < 0 || j >= toks.len() {
        r && f && bad
    } else {
        let a = toks[j];
        if !ended && a == "--".spec_bytes() {
            rm_args_block(toks, j + 1, true, r, f, bad)
        } else if !ended && starts_with_bytes(a, "--".spec_bytes()) {
            rm_args_block(
                toks,
                j + 1,
                ended,
                r || a == "--recursive".spec_bytes(),
                f || a == "--force".spec_bytes(),
                bad,
            )
        } else if !ended && a.len() > 0 && a[0] == DASH {
            rm_args_block(
                toks,
                j + 1,
                ended,
                r || has_byte(a, 0x72) || has_byte(a, 0x52),
                f || has_byte(a, 0x66) || has_byte(a, 0x46),
                bad,
            )
        } else {
            rm_args_block(toks, j + 1, ended, r, f, bad || !allowed_rm_target(a))
        }
    }
}

pub const RM_REASON: &'static str = "rm -rf outside of temporary directories can cause permanent data loss";
pub const RM_TIP: &'static str = "rm -rf is only allowed for literal /tmp/* or /var/tmp/* paths.";

/// Some `rm` token (any case) is recursive, forced and targets a path that is
/// not an allowed temporary path.  Only considered when the lower-cased text
/// holds `rm `.
pub open spec fn dangerous_rm_message(normalized: Seq<u8>) -> Option<Seq<char>> {
    let lower = encode_utf8(lowercase(decode_utf8(normalized)));
    let toks = tokens_of(normalized);
    if contains_bytes(lower, "rm ".spec_bytes()) && exists|i: int|
        0 <= i < toks.len() && eq_ignore_ascii_case(#[trigger] toks[i], "rm".spec_bytes())
            && rm_args_block(toks, i + 1, false, false, false, false) {
        Some(blocked_text(RM_REASON@, RM_TIP@))
    } else {
        None
    }
}

/// Whether the `rm` whose arguments start at token `start` is blocked.
fn rm_invocation_blocked(toks: &Vec<&str>, start: usize, spec_toks: Ghost<Seq<Seq<u8>>>) -> (r: bool)
    requires
        start <= toks@.len(),
        toks@.len() == spec_toks@.len(),
        forall|j: int| 0 <= j < toks@.len() ==> (#[trigger] toks@[j]).spec_bytes() == spec_toks@[j],
    ensures
        r == rm_args_block(spec_toks@, start as int, false, false, false, false),
{
    let mut has_r = false;
    let mut has_f = false;
    let mut bad = false;
    let mut options_ended = false;
    let mut j = start;
    while j < toks.len()
        invariant
            start <= j <= toks@.len(),
            toks@.len() == spec_toks@.len(),
            forall|k: int| 0 <= k < toks@.len() ==> (#[trigger] toks@[k]).spec_bytes() == spec_toks@[k],
            rm_args_block(spec_toks@, start as int, false, false, false, false) == rm_args_block(
                spec_toks@,
                j as int,
                options_ended,
                has_r,
                has_f,
                bad,
            ),
        decreases toks@.len() - j,
    {
        let a = toks[j].as_bytes();
        if !options_ended && slice_eq(a, "--".as_bytes()) {
            options_ended = true;
        } else if !options_ended && starts_with_slice(a, "--".as_bytes()) {
            if slice_eq(a, "--recursive".as_bytes()) {
                has_r = true;
            }
            if slice_eq(a, "--force".as_bytes()) {
                has_f = true;
            }
        } else if !options_ended && a.len() > 0 && a[0] == DASH {
            if has_byte_slice(a, 0x72) || has_byte_slice(a, 0x52) {
                has_r = true;
            }
            if has_byte_slice(a, 0x66) || has_byte_slice(a, 0x46) {
                has_f = true;
            }
        } else {
            if !is_allowed_rm_target(toks[j]) {
                bad = true;
            }
        }
        j += 1;
    }
    has_r && has_f && bad
}

/// Block `rm -rf` targeting obviously dangerous paths.
/// Allowed: `/tmp/*`, `/var/tmp/*`.
#[verifier::loop_isolation(false)]
pub fn check_dangerous_rm(_segment: &str, normalized: &str, _lower: &str) -> (r: Option<String>)
    ensures
        opt_view(r) == dangerous_rm_message(normalized.spec_bytes()),
{
    proof {
        encode_utf8_decode_utf8(normalized@);
    }
    let lower = str_to_lowercase(normalized);
    if !str_contains(lower.as_str(), "rm ") {
        return None;
    }
    let toks = tokens(normalized);
    let ghost spec_toks = tokens_of(normalized.spec_bytes());
    let mut i: usize = 0;
    while i < toks.len()
        invariant
            i <= toks@.len(),
            toks@.len() == spec_toks.len(),
            spec_toks == tokens_of(normalized.spec_bytes()),
            forall|k: int| 0 <= k < toks@.len() ==> (#[trigger] toks@[k]).spec_bytes() == spec_toks[k],
            forall|k: int|
                0 <= k < i ==> !(eq_ignore_ascii_case(#[trigger] spec_toks[k], "rm".spec_bytes())
                    && rm_args_block(spec_toks, k + 1, false, false, false, false)),
        decreases toks@.len() - i,
    {
        if eq_ignore_ascii_case_slice(toks[i].as_bytes(), "rm".as_bytes()) {
            if rm_invocation_blocked(&toks, i + 1, Ghost(spec_toks)) {
                assert(eq_ignore_ascii_case(spec_toks[i as int], "rm".spec_bytes()));
                return Some(blocked(RM_REASON, RM_TIP));
            }
        }
        i += 1;
    }
    None
}

// =============================================================================
// rg -rn / ripgrep replace-flag footgun (soft warning)
// =============================================================================

/// Scan the arguments of an `rg` from byte `i` (`prev_r`: the previous
/// argument was `-r`/`--replace`): which warning applies (1 for a `-..rn..`
/// flag group, 2 for `-r n`), and where the scan stopped (after `--` or at
/// the end).
pub open spec fn rg_args_scan(b: Seq<u8>, i: int, prev_r: bool) -> (Option<int>, int)
    decreases b.len() - i,
{
    let i1 = skip_ascii_ws(b, i);
    if i < 0 || i > b.len() || i1 >= b.len() {
        (None, i1)
    } else {
        proof {
            lemma_skip_ws_bounds(b, i);
            lemma_skip_word_bounds(b, i1);
        }
        let e = skip_ascii_word(b, i1);
        let word = b.subrange(i1, e);
        if b[i1] == DASH {
            if !starts_with_bytes(word, "--".spec_bytes()) && contains_bytes(word, "rn".spec_bytes()) {
                (Some(1), e)
            } else if word == "--".spec_bytes() {
                (None, e)
            } else {
                rg_args_scan(b, e, word == "-r".spec_bytes() || word == "--replace".spec_bytes())
            }
        } else if prev_r {
            if word == "n".spec_bytes() {
                (Some(2), e)
            } else {
                rg_args_scan(b, e, false)
            }
        } else {
            rg_args_scan(b, e, false)
        }
    }
}

pub proof fn lemma_rg_args_scan_bounds(b: Seq<u8>, i: int, prev_r: bool)
    requires
        0 <= i <= b.len(),
    ensures
        i <= rg_args_scan(b, i, prev_r).1 <= b.len(),
    decreases b.len() - i,
{
    let i1 = skip_ascii_ws(b, i);
    lemma_skip_ws_bounds(b, i);
    if i1 >= b.len() {
    } else {
        lemma_skip_word_bounds(b, i1);
        let e = skip_ascii_word(b, i1);
        let word = b.subrange(i1, e);
        if b[i1] == DASH {
            if !starts_with_bytes(word, "--".spec_bytes()) && contains_bytes(word, "rn".spec_bytes()) {
            } else if word == "--".spec_bytes() {
            } else {
                lemma_rg_args_scan_bounds(b, e, word == "-r".spec_bytes() || word == "--replace".spec_bytes());
            }
        } else if prev_r {
            if word != "n".spec_bytes() {
                lemma_rg_args_scan_bounds(b, e, false);
            }
        } else {
            lemma_rg_args_scan_bounds(b, e, false);
        }
    }
}

/// Scanning the words of `b` from byte `i` for `rg` invocations: the first
/// warning found in their arguments.
pub open spec fn rg_scan(b: Seq<u8>, i: int) -> Option<int>
    decreases b.len() - i,
{
    let i1 = skip_ascii_ws(b, i);
    if i < 0 || i > b.len() || i1 >= b.len() {
        None
    } else {
        proof {
            lemma_skip_ws_bounds(b, i);
            lemma_skip_word_bounds(b, i1);
        }
        let e = skip_ascii_word(b, i1);
        if b.subrange(i1, e) != "rg".spec_bytes() {
            rg_scan(b, e)
        } else {
            proof {
                lemma_rg_args_scan_bounds(b, e, false);
            }
            let scan = rg_args_scan(b, e, false);
            if scan.0 is Some {
                scan.0
            } else {
                rg_scan(b, scan.1)
            }
        }
    }
}

pub const RG_RN_NOTICE: &'static str = "rg -rn sets the replacement string to \"n\". Did you mean `rg -n` (line numbers)?";
pub const RG_RN_TIP: &'static str = "The -r/--replace flag in ripgrep takes the next argument as the replacement string. `rg -rn pattern` replaces matches with \"n\". Use `rg -n` to show line numbers instead.";
pub const RG_R_N_NOTICE: &'static str = "rg -r n sets the replacement string to \"n\". Did you mean `rg -n` (line numbers)?";
pub const RG_R_N_TIP: &'static str = "The -r/--replace flag in ripgrep takes the next argument as the replacement string. `rg -r n pattern` replaces matches with \"n\". Use `rg -n` to show line numbers instead.";

/// The `rg -rn` / `rg -r n` warning for a segment that mentions `rg`.
pub open spec fn rg_replace_message(segment: Seq<u8>) -> Option<Seq<char>> {
    if !contains_bytes(segment, "rg".spec_bytes()) {
        None
    } else {
        match rg_scan(segment, 0) {
            Some(k) => if k == 1 {
                Some(warned_text(RG_RN_NOTICE@, RG_RN_TIP@))
            } else {
                Some(warned_text(RG_R_N_NOTICE@, RG_R_N_TIP@))
            },
            None => None,
        }
    }
}

/// Scan the arguments of one `rg` invocation from byte `start`.
fn rg_args(b: &[u8], start: usize) -> (r: (Option<u8>, usize))
    requires
        start <= b@.len(),
    ensures
        rg_args_scan(b@, start as int, false) == (
            match r.0 {
                Some(k) => Some(k as int),
                None => None::<int>,
            },
            r.1 as int,
        ),
{
    let len = b.len();
    let mut i = start;
    let mut prev_was_dash_r = false;
    while i < len
        invariant
            start <= i <= len,
            len == b@.len(),
            rg_args_scan(b@, start as int, false) == rg_args_scan(b@, i as int, prev_was_dash_r),
        decreases len - i,
    {
        let i1 = skip_ws_at(b, i);
        proof {
            lemma_skip_ws_bounds(b@, i as int);
        }
        if i1 >= len {
            return (None, i1);
        }
        let e = skip_word_at(b, i1);
        proof {
            lemma_skip_word_bounds(b@, i1 as int);
        }
        if b[i1] == DASH {
            if !starts_with_at(b, i1, e, "--".as_bytes()) && contains_at(b, i1, e, "rn".as_bytes()) {
                return (Some(1), e);
            }
            let is_r = range_eq(b, i1, e, "-r".as_bytes()) || range_eq(b, i1, e, "--replace".as_bytes());
            if range_eq(b, i1, e, "--".as_bytes()) {
                return (None, e);
            }
            prev_was_dash_r = is_r;
            i = e;
            continue;
        }
        if prev_was_dash_r {
            if range_eq(b, i1, e, "n".as_bytes()) {
                return (Some(2), e);
            }
            prev_was_dash_r = false;
            i = e;
            continue;
        }
        i = e;
        prev_was_dash_r = false;
    }
    (None, i)
}

/// Whether bytes `start..end` of `b` equal `w`.
fn range_eq(b: &[u8], start: usize, end: usize, w: &[u8]) -> (r: bool)
    requires
        start <= end <= b@.len(),
    ensures
        r == (b@.subrange(start as int, end as int) == w@),
{
    if end - start != w.len() {
        return false;
    }
    let r = occurs_at_slice(b, w, start);
    assert(r == (b@.subrange(start as int, end as int) =~= w@));
    r
}

/// Whether bytes `start..end` of `b` begin with `w`.
fn starts_with_at(b: &[u8], start: usize, end: usize, w: &[u8]) -> (r: bool)
    requires
        start <= end <= b@.len(),
    ensures
        r == starts_with_bytes(b@.subrange(start as int, end as int), w@),
{
    if w.len() > end - start {
        return false;
    }
    let r = occurs_at_slice(b, w, start);
    assert(b@.subrange(start as int, end as int).subrange(0, w@.len() as int) =~= b@.subrange(
        start as int,
        start + w@.len(),
    ));
    r
}

/// Whether `w` occurs within bytes `start..end` of `b`.
fn contains_at(b: &[u8], start: usize, end: usize, w: &[u8]) -> (r: bool)
    requires
        start <= end <= b@.len(),
    ensures
        r == contains_bytes(b@.subrange(start as int, end as int), w@),
{
    let mut piece: Vec<u8> = Vec::new();
    let mut k = start;
    while k < end
        invariant
            start <= k <= end <= b@.len(),
            piece@ == b@.subrange(start as int, k as int),
        decreases end - k,
    {
        piece.push(b[k]);
        k += 1;
        assert(piece@ =~= b@.subrange(start as int, k as int));
    }
    contains_slice(piece.as_slice(), w)
}

/// Detect `rg -rn` where `-rn` sets the replacement string to "n".
///
/// The `-r`/`--replace` flag takes the next argument as the replacement
/// string, so `rg -rn pattern` replaces matches with the literal "n".  This
/// is almost certainly a mistake where `rg -n` (line numbers) was intended.
/// The command still runs; the agent is warned.
pub fn check_rg_replace_flag(segment: &str, _normalized: &str, _lower: &str) -> (r: Option<String>)
    ensures
        opt_view(r) == rg_replace_message(segment.spec_bytes()),
{
    if !str_contains(segment, "rg") {
        return None;
    }
    let b = segment.as_bytes();
    let len = b.len();
    let mut i: usize = 0;
    while i < len
        invariant
            i <= len,
            len == b@.len(),
            b@ == segment.spec_bytes(),
            contains_bytes(b@, "rg".spec_bytes()),
            rg_scan(b@, 0) == rg_scan(b@, i as int),
        decreases len - i,
    {
        let i1 = skip_ws_at(b, i);
        proof {
            lemma_skip_ws_bounds(b@, i as int);
        }
        if i1 >= len {
            return None;
        }
        let e = skip_word_at(b, i1);
        proof {
            lemma_skip_word_bounds(b@, i1 as int);
        }
        if !range_eq(b, i1, e, "rg".as_bytes()) {
            i = e;
            continue;
        }
        proof {
            lemma_rg_args_scan_bounds(b@, e as int, false);
        }
        let (warning, stop) = rg_args(b, e);
        match warning {
            Some(k) => {
                if k == 1 {
                    return Some(warned(RG_RN_NOTICE, RG_RN_TIP));
                } else {
                    return Some(warned(RG_R_N_NOTICE, RG_R_N_TIP));
                }
            },
            None => {
                i = stop;
            },
        }
    }
    None
}

// =============================================================================
// Laws
// =============================================================================

/// A short force flag as the guard reads it: `-f` itself, or a group of
/// short flags (`-` then not `-`) that holds an `f`.
pub open spec fn short_force_flag(t: Seq<u8>) -> bool {
    t == seq![0x2du8, 0x66u8] || (t.len() > 1 && t[0] == 0x2du8 && t[1] != 0x2du8 && exists|i: int|
        1 <= i < t.len() && t[i] == 0x66u8)
}

/// A short flag group holding an `f`: `-` then not `-`, with an `f` in it.
pub open spec fn flag_group_with_f(t: Seq<u8>) -> bool {
    t.len() > 0 && t[0] == 0x2du8 && !(t.len() > 1 && t[1] == 0x2du8) && exists|i: int|
        0 <= i < t.len() && t[i] == 0x66u8
}

proof fn lemma_dash_dash_bytes()
    ensures
        "--".spec_bytes() == seq![0x2du8, 0x2du8],
        "-f".spec_bytes() == seq![0x2du8, 0x66u8],
{
    reveal_strlit("--");
    reveal_strlit("-f");
    assert(is_ascii("--"));
    assert(is_ascii("-f"));
    lemma_ascii_str_bytes("--");
    lemma_ascii_str_bytes("-f");
    assert("--".spec_bytes() =~= seq![0x2du8, 0x2du8]);
    assert("-f".spec_bytes() =~= seq![0x2du8, 0x66u8]);
}

/// `git push` followed anywhere after its first occurrence by a short force
/// flag (`-f`, or a group like `-uf`) is blocked, unless the text mentions
/// `--force-with-lease`: with the `--force` message when `git push --force`
/// also occurs, else with the `-f` message.
pub proof fn lemma_git_push_short_force_anywhere(lower: Seq<u8>, p: int, k: int)
    requires
        first_occurrence(lower, "git push".spec_bytes()) == Some(p),
        !contains_bytes(lower, "--force-with-lease".spec_bytes()),
        0 <= k < tokens_of(
            trimmed_bytes(lower.subrange(p + "git push".spec_bytes().len(), lower.len() as int)),
        ).len(),
        short_force_flag(
            tokens_of(trimmed_bytes(lower.subrange(p + "git push".spec_bytes().len(), lower.len() as int)))[k],
        ),
    ensures
        git_push_message(lower) == Some(
            blocked_text(
                if contains_bytes(lower, "git push --force".spec_bytes()) {
                    "git push --force overwrites remote commit history"@
                } else {
                    "git push -f overwrites remote commit history"@
                },
                "Use 'git push --force-with-lease' for safer force pushes."@,
            ),
        ),
{
    lemma_dash_dash_bytes();
    let toks = tokens_of(trimmed_bytes(lower.subrange(p + "git push".spec_bytes().len(), lower.len() as int)));
    let t = toks[k];
    if t != seq![0x2du8, 0x66u8] {
        let i = choose|i: int| 1 <= i < t.len() && t[i] == 0x66u8;
        assert(has_byte(t, 0x66));
        assert(!starts_with_bytes(t, "--".spec_bytes())) by {
            if starts_with_bytes(t, "--".spec_bytes()) {
                assert(t.subrange(0, 2)[1] == t[1]);
            }
        }
    }
    assert(is_push_force_token(t));
    assert(exists|j: int| 0 <= j < toks.len() && is_push_force_token(#[trigger] toks[j]));
    assert(GIT_PUSH_SHORT_REASON@ == "git push -f overwrites remote commit history"@);
    assert(GIT_PUSH_FORCE_REASON@ == "git push --force overwrites remote commit history"@);
    assert(contains_bytes(lower, "git push".spec_bytes()));
    if !contains_bytes(lower, "git push --force".spec_bytes()) {
        let needle = "git push".spec_bytes();
        assert(git_push_message(lower) == (match first_occurrence(lower, needle) {
            Some(q) => {
                let tk = tokens_of(trimmed_bytes(lower.subrange(q + needle.len(), lower.len() as int)));
                if exists|j: int| 0 <= j < tk.len() && is_push_force_token(#[trigger] tk[j]) {
                    Some(blocked_text(GIT_PUSH_SHORT_REASON@, GIT_PUSH_TIP@))
                } else {
                    None
                }
            },
            None => None,
        }));
    }
}

/// `git clean` followed anywhere after its first occurrence by a short flag
/// group holding `f` (`-f`, `-df`, `-xfd`...) is blocked with the
/// `git clean -f` message.
pub proof fn lemma_git_clean_force_anywhere(lower: Seq<u8>, p: int, k: int)
    requires
        first_occurrence(lower, "git clean".spec_bytes()) == Some(p),
        0 <= k < tokens_of(
            trimmed_bytes(lower.subrange(p + "git clean".spec_bytes().len(), lower.len() as int)),
        ).len(),
        flag_group_with_f(
            tokens_of(trimmed_bytes(lower.subrange(p + "git clean".spec_bytes().len(), lower.len() as int)))[k],
        ),
    ensures
        git_clean_message(lower) == Some(
            blocked_text(
                "git clean -f permanently deletes untracked files"@,
                "Use 'git clean -n' to preview what would be deleted first."@,
            ),
        ),
{
    lemma_dash_dash_bytes();
    let toks = tokens_of(trimmed_bytes(lower.subrange(p + "git clean".spec_bytes().len(), lower.len() as int)));
    let t = toks[k];
    assert(has_byte(t, 0x66));
    assert(!starts_with_bytes(t, "--".spec_bytes())) by {
        if starts_with_bytes(t, "--".spec_bytes()) {
            assert(t.subrange(0, 2)[1] == t[1]);
        }
    }
    assert(is_force_flag_group(t));
    assert(exists|j: int| 0 <= j < toks.len() && is_force_flag_group(#[trigger] toks[j]));
    assert(contains_bytes(lower, "git clean".spec_bytes()));
    if !(contains_bytes(lower, "git clean --force".spec_bytes()) || contains_bytes(lower, "git clean -f".spec_bytes())) {
        assert(first_occurrence(lower, "git clean".spec_bytes()) == Some(p));
        let needle = "git clean".spec_bytes();
        let toks2 = tokens_of(trimmed_bytes(lower.subrange(p + needle.len(), lower.len() as int)));
        assert(toks2 == toks);
        assert(exists|j: int| 0 <= j < toks2.len() && is_force_flag_group(#[trigger] toks2[j]));
        assert(!contains_bytes(lower, "git clean --force".spec_bytes()));
        assert(git_clean_message(lower) == (match first_occurrence(lower, needle) {
            Some(q) => {
                let tk = tokens_of(trimmed_bytes(lower.subrange(q + needle.len(), lower.len() as int)));
                if exists|j: int| 0 <= j < tk.len() && is_force_flag_group(#[trigger] tk[j]) {
                    Some(blocked_text(GIT_CLEAN_REASON@, GIT_CLEAN_TIP@))
                } else {
                    None
                }
            },
            None => None,
        }));
        assert(git_clean_message(lower) == Some(blocked_text(GIT_CLEAN_REASON@, GIT_CLEAN_TIP@)));
    } else {
        assert(git_clean_message(lower) == Some(blocked_text(GIT_CLEAN_REASON@, GIT_CLEAN_TIP@)));
    }
    assert(GIT_CLEAN_REASON@ == "git clean -f permanently deletes untracked files"@);
}

/// `git reset --hard` or `git reset --merge` anywhere in the lower-cased
/// segment is blocked with the reset message; without either it is not.
pub proof fn lemma_git_reset_blocks(lower: Seq<u8>)
    ensures
        contains_bytes(lower, "git reset --hard".spec_bytes()) || contains_bytes(lower, "git reset --merge".spec_bytes())
            ==> git_reset_message(lower) == Some(
            blocked_text(
                "git reset --hard/--merge destroys uncommitted changes"@,
                "Use 'git stash' to save changes first, or 'git reset --soft' to preserve them."@,
            ),
        ),
        !contains_bytes(lower, "git reset --hard".spec_bytes()) && !contains_bytes(lower, "git reset --merge".spec_bytes())
            ==> git_reset_message(lower) is None,
{
}

/// `git stash drop` or `git stash clear` anywhere in the lower-cased segment
/// is blocked with the stash message; without either it is not.
pub proof fn lemma_git_stash_blocks(lower: Seq<u8>)
    ensures
        contains_bytes(lower, "git stash drop".spec_bytes()) || contains_bytes(lower, "git stash clear".spec_bytes())
            ==> git_stash_message(lower) == Some(
            blocked_text(
                "git stash drop/clear permanently deletes stashed changes"@,
                "Use 'git stash list' to review stashes, or 'git stash pop' to apply and remove."@,
            ),
        ),
        !contains_bytes(lower, "git stash drop".spec_bytes()) && !contains_bytes(lower, "git stash clear".spec_bytes())
            ==> git_stash_message(lower) is None,
{
}

/// `git push --force` is blocked with the `--force` message, and any text
/// that mentions `--force-with-lease` (or no `git push` at all) is never
/// blocked as a force push.
pub proof fn lemma_git_push_long_force(lower: Seq<u8>)
    ensures
        contains_bytes(lower, "git push --force".spec_bytes()) && !contains_bytes(
            lower,
            "--force-with-lease".spec_bytes(),
        ) ==> git_push_message(lower) == Some(
            blocked_text(
                "git push --force overwrites remote commit history"@,
                "Use 'git push --force-with-lease' for safer force pushes."@,
            ),
        ),
        contains_bytes(lower, "--force-with-lease".spec_bytes()) || !contains_bytes(lower, "git push".spec_bytes())
            ==> git_push_message(lower) is None,
{
    if contains_bytes(lower, "git push --force".spec_bytes()) {
        let p = first_occurrence(lower, "git push --force".spec_bytes())->0;
        lemma_find_from_bounds(lower, "git push --force".spec_bytes(), 0);
        reveal_strlit("git push --force");
        reveal_strlit("git push");
        assert(is_ascii("git push --force"));
        assert(is_ascii("git push"));
        lemma_ascii_str_bytes("git push --force");
        lemma_ascii_str_bytes("git push");
        assert(lower.subrange(p, p + 8) =~= "git push".spec_bytes());
        assert(occurs_at(lower, "git push".spec_bytes(), p));
        lemma_occurs_means_contains(lower, "git push".spec_bytes(), p);
    }
}

/// A needle that occurs somewhere is contained.
proof fn lemma_occurs_means_contains(hay: Seq<u8>, needle: Seq<u8>, p: int)
    requires
        occurs_at(hay, needle, p),
    ensures
        contains_bytes(hay, needle),
{
    lemma_find_from_reaches(hay, needle, 0, p);
}

proof fn lemma_find_from_reaches(hay: Seq<u8>, needle: Seq<u8>, from: int, p: int)
    requires
        0 <= from <= p,
        occurs_at(hay, needle, p),
    ensures
        find_from(hay, needle, from) is Some,
    decreases p - from,
{
    if from < p && !occurs_at(hay, needle, from) {
        lemma_find_from_reaches(hay, needle, from + 1, p);
    }
}

/// `git checkout --` followed by a path (text that does not start with `-`)
/// after its first occurrence is blocked with the checkout message.
pub proof fn lemma_git_checkout_path_blocks(lower: Seq<u8>, p: int)
    requires
        first_occurrence(lower, "git checkout --".spec_bytes()) == Some(p),
        trimmed_bytes(lower.subrange(p + "git checkout --".spec_bytes().len(), lower.len() as int)).len() > 0,
        trimmed_bytes(lower.subrange(p + "git checkout --".spec_bytes().len(), lower.len() as int))[0] != 0x2du8,
    ensures
        git_checkout_message(lower) == Some(
            blocked_text(
                "git checkout -- <file> discards uncommitted file changes"@,
                "Use 'git restore --staged <file>' to unstage, or 'git stash' to save changes."@,
            ),
        ),
{
}

/// `git restore --worktree` is blocked; without `--worktree` and `--staged`,
/// `git restore` followed by a path (anything but nothing or `-b ...`) after
/// its first occurrence is blocked; with `--staged` and no `--worktree` it is
/// not.
pub proof fn lemma_git_restore_blocks(lower: Seq<u8>, p: int)
    ensures
        contains_bytes(lower, "git restore".spec_bytes()) && contains_bytes(lower, "--worktree".spec_bytes())
            ==> git_restore_message(lower) == Some(
            blocked_text(
                "git restore --worktree discards uncommitted changes"@,
                "Use 'git restore --staged <file>' to only unstage, or 'git stash' to save changes."@,
            ),
        ),
        !contains_bytes(lower, "--worktree".spec_bytes()) && contains_bytes(lower, "--staged".spec_bytes())
            ==> git_restore_message(lower) is None,
        ({
            let t = trimmed_bytes(lower.subrange(p + "git restore".spec_bytes().len(), lower.len() as int));
            first_occurrence(lower, "git restore".spec_bytes()) == Some(p) && !contains_bytes(
                lower,
                "--worktree".spec_bytes(),
            ) && !contains_bytes(lower, "--staged".spec_bytes()) && t.len() > 0 && !(t.len() >= 2 && t[0]
                == 0x2du8 && t[1] == 0x62u8) ==> git_restore_message(lower) == Some(
                blocked_text(
                    "git restore <file> without --staged discards uncommitted changes"@,
                    "Use 'git restore --staged <file>' to only unstage, or 'git stash' to save changes."@,
                ),
            )
        }),
{
    reveal_strlit("-b");
    assert(is_ascii("-b"));
    lemma_ascii_str_bytes("-b");
    let t = trimmed_bytes(lower.subrange(p + "git restore".spec_bytes().len(), lower.len() as int));
    if starts_with_bytes(t, "-b".spec_bytes()) {
        assert(t.subrange(0, 2)[0] == t[0]);
        assert(t.subrange(0, 2)[1] == t[1]);
    }
}

proof fn lemma_branch_scan_skips(toks: Seq<Seq<u8>>, j: int, i: int)
    requires
        0 <= j <= i < toks.len(),
        forall|q: int| j <= q < i ==> !eq_ignore_ascii_case(#[trigger] toks[q], "git".spec_bytes()),
    ensures
        branch_delete_from(toks, j) == branch_delete_from(toks, i),
    decreases i - j,
{
    if j < i {
        lemma_branch_scan_skips(toks, j + 1, i);
    }
}

/// In the whitespace-normalized segment, a first `git` word (any case)
/// followed by `branch` (any case) and then a short flag group holding an
/// upper-case `D` (`-D`, `-Dr`, ...) is blocked with the force-delete
/// message.
pub proof fn lemma_git_branch_force_delete_blocks(normalized: Seq<u8>, i: int)
    requires
        0 <= i,
        i + 2 < tokens_of(normalized).len(),
        forall|q: int| 0 <= q < i ==> !eq_ignore_ascii_case(#[trigger] tokens_of(normalized)[q], "git".spec_bytes()),
        eq_ignore_ascii_case(tokens_of(normalized)[i], "git".spec_bytes()),
        eq_ignore_ascii_case(tokens_of(normalized)[i + 1], "branch".spec_bytes()),
        ({
            let t = tokens_of(normalized)[i + 2];
            t.len() > 0 && t[0] == 0x2du8 && !(t.len() > 1 && t[1] == 0x2du8) && exists|d: int|
                1 <= d < t.len() && t[d] == 0x44u8
        }),
    ensures
        git_branch_delete_message(normalized) == Some(
            blocked_text(
                "git branch -D force-deletes branches without checking merge status"@,
                "Use 'git branch -d' (lowercase) to safely delete only merged branches."@,
            ),
        ),
{
    lemma_branch_scan_skips(tokens_of(normalized), 0, i);
}

proof fn lemma_rm_block_stays(toks: Seq<Seq<u8>>, j: int, ended: bool)
    requires
        0 <= j,
    ensures
        rm_args_block(toks, j, ended, true, true, true),
    decreases toks.len() - j,
{
    if j < toks.len() {
        let a = toks[j];
        if !ended && a == "--".spec_bytes() {
            lemma_rm_block_stays(toks, j + 1, true);
        } else {
            lemma_rm_block_stays(toks, j + 1, ended);
        }
    }
}

/// `rm` (any case) whose next word is a short flag group holding a
/// recursive flag (`r` or `R`) and a force flag (`f` or `F`), followed by a
/// target outside `/tmp` and `/var/tmp`, is blocked with the `rm -rf`
/// message, whatever follows.
pub proof fn lemma_rm_rf_outside_tmp_blocks(normalized: Seq<u8>, i: int)
    requires
        contains_bytes(encode_utf8(lowercase(decode_utf8(normalized))), "rm ".spec_bytes()),
        0 <= i,
        i + 2 < tokens_of(normalized).len(),
        eq_ignore_ascii_case(tokens_of(normalized)[i], "rm".spec_bytes()),
        ({
            let t = tokens_of(normalized)[i + 1];
            &&& t.len() > 1 && t[0] == 0x2du8 && t[1] != 0x2du8
            &&& exists|a: int| 0 <= a < t.len() && (t[a] == 0x72u8 || t[a] == 0x52u8)
            &&& exists|b: int| 0 <= b < t.len() && (t[b] == 0x66u8 || t[b] == 0x46u8)
        }),
        ({
            let x = tokens_of(normalized)[i + 2];
            &&& x.len() > 0 && x[0] != 0x2du8
            &&& !(x.len() >= 4 && x.subrange(0, 4) == seq![0x2fu8, 0x74u8, 0x6du8, 0x70u8])
            &&& !(x.len() >= 8 && x.subrange(0, 8) == seq![0x2fu8, 0x76u8, 0x61u8, 0x72u8, 0x2fu8, 0x74u8, 0x6du8, 0x70u8])
        }),
    ensures
        dangerous_rm_message(normalized) == Some(
            blocked_text(
                "rm -rf outside of temporary directories can cause permanent data loss"@,
                "rm -rf is only allowed for literal /tmp/* or /var/tmp/* paths."@,
            ),
        ),
{
    let toks = tokens_of(normalized);
    let t = toks[i + 1];
    let x = toks[i + 2];
    reveal_strlit("--");
    reveal_strlit("/tmp");
    reveal_strlit("/tmp/");
    reveal_strlit("/var/tmp");
    reveal_strlit("/var/tmp/");
    assert(is_ascii("--"));
    assert(is_ascii("/tmp"));
    assert(is_ascii("/tmp/"));
    assert(is_ascii("/var/tmp"));
    assert(is_ascii("/var/tmp/"));
    lemma_ascii_str_bytes("--");
    lemma_ascii_str_bytes("/tmp");
    lemma_ascii_str_bytes("/tmp/");
    lemma_ascii_str_bytes("/var/tmp");
    lemma_ascii_str_bytes("/var/tmp/");
    // The flag group is a short one with both flags.
    assert(t != "--".spec_bytes());
    assert(!starts_with_bytes(t, "--".spec_bytes())) by {
        if starts_with_bytes(t, "--".spec_bytes()) {
            assert(t.subrange(0, 2)[1] == t[1]);
        }
    }
    let a = choose|a: int| 0 <= a < t.len() && (t[a] == 0x72u8 || t[a] == 0x52u8);
    let b = choose|b: int| 0 <= b < t.len() && (t[b] == 0x66u8 || t[b] == 0x46u8);
    assert(has_byte(t, 0x72) || has_byte(t, 0x52));
    assert(has_byte(t, 0x66) || has_byte(t, 0x46));
    // The target is an operand outside the temporary directories.
    assert(!starts_with_bytes(x, "--".spec_bytes())) by {
        if starts_with_bytes(x, "--".spec_bytes()) {
            assert(x.subrange(0, 2)[0] == x[0]);
        }
    }
    assert(x != "--".spec_bytes()) by {
        if x == "--".spec_bytes() {
            assert(x[0] == 0x2du8);
        }
    }
    assert(!allowed_rm_target(x)) by {
        if x == "/tmp".spec_bytes() {
            assert(x.subrange(0, 4) =~= seq![0x2fu8, 0x74u8, 0x6du8, 0x70u8]);
        }
        if starts_with_bytes(x, "/tmp/".spec_bytes()) {
            assert(x.subrange(0, 4) =~= seq![0x2fu8, 0x74u8, 0x6du8, 0x70u8]) by {
                assert forall|q: int| 0 <= q < 4 implies x.subrange(0, 4)[q] == x.subrange(0, 5)[q] by {}
            }
        }
        if x == "/var/tmp".spec_bytes() {
            assert(x.subrange(0, 8) =~= seq![0x2fu8, 0x76u8, 0x61u8, 0x72u8, 0x2fu8, 0x74u8, 0x6du8, 0x70u8]);
        }
        if starts_with_bytes(x, "/var/tmp/".spec_bytes()) {
            assert(x.subrange(0, 8) =~= seq![0x2fu8, 0x76u8, 0x61u8, 0x72u8, 0x2fu8, 0x74u8, 0x6du8, 0x70u8]) by {
                assert forall|q: int| 0 <= q < 8 implies x.subrange(0, 8)[q] == x.subrange(0, 9)[q] by {}
            }
        }
    }
    lemma_rm_block_stays(toks, i + 3, false);
    assert(rm_args_block(toks, i + 2, false, true, true, false) == rm_args_block(toks, i + 3, false, true, true, true));
    assert(rm_args_block(toks, i + 1, false, false, false, false) == rm_args_block(toks, i + 2, false, true, true, false));
    assert(exists|j: int|
        0 <= j < toks.len() && eq_ignore_ascii_case(#[trigger] toks[j], "rm".spec_bytes())
            && rm_args_block(toks, j + 1, false, false, false, false));
    assert(RM_REASON@ == "rm -rf outside of temporary directories can cause permanent data loss"@);
}

} // verus!
