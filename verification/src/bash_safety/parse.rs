//! Shell-parsing utilities for the destructive command guard.
//!
//! These functions split commands, extract inline scripts and command
//! substitutions, and blank out shell data before the rules in `checks`
//! look at the text.  This is scoped preflight matching, not complete shell
//! tokenization.
use vstd::prelude::*;
use vstd::string::*;
use vstd::utf8::*;

use crate::text::{
    lemma_encode_trim_len, lemma_join_first, lemma_words_from_nonempty, lemma_words_from_shape,
    is_whitespace_char, ascii_cut, string_from_chars, lemma_ascii_boundaries, lowercase,
    str_to_lowercase, str_trim, trimmed_bytes, is_ascii_ws, is_ascii_ws_byte, lemma_end_boundaries,
    find_bytes_from, find_from, lemma_find_from_bounds, occurs_at, str_slice, join_space,
    join_with_space, split_whitespace_vec, words,
};

verus! {

broadcast use vstd::seq::group_seq_axioms;

pub const SQ: u8 = 0x27;
pub const DQ: u8 = 0x22;
pub const BACKSLASH: u8 = 0x5c;
pub const NEWLINE: u8 = 0x0a;
pub const SEMICOLON: u8 = 0x3b;
pub const AMPERSAND: u8 = 0x26;
pub const PIPE: u8 = 0x7c;
pub const DOLLAR: u8 = 0x24;
pub const LPAREN: u8 = 0x28;
pub const RPAREN: u8 = 0x29;
pub const BACKTICK: u8 = 0x60;
pub const SPACE: u8 = 0x20;
pub const TAB: u8 = 0x09;
pub const SLASH: u8 = 0x2f;

// =============================================================================
// Whitespace normalization
// =============================================================================

/// The text with every whitespace run collapsed to one space and no leading
/// or trailing whitespace.
pub open spec fn normalized_chars(s: Seq<char>) -> Seq<char> {
    join_with_space(words(s))
}

/// Collapse all whitespace runs to a single space.
pub fn normalize_whitespace(s: &str) -> (r: String)
    ensures
        r@ == normalized_chars(s@),
{
    let parts = split_whitespace_vec(s);
    join_space(parts.as_slice())
}

// =============================================================================
// Segment splitting
// =============================================================================

/// The byte ranges of the segments of `b`, scanning from byte `i` with the
/// current segment starting at `start` and the given quote state.
///
/// Separators are `\n`, `;`, `&&`, `||` and `|` outside quotes; inside double
/// quotes a backslash escapes the next byte.
pub open spec fn segment_ranges(b: Seq<u8>, i: int, start: int, sq: bool, dq: bool) -> Seq<(int, int)>
    decreases b.len() - i,
{
    if i >= b.len() || i < 0 {
        if start < b.len() { seq![(start, b.len() as int)] } else { seq![] }
    } else if b[i] == SQ && !dq {
        segment_ranges(b, i + 1, start, !sq, dq)
    } else if b[i] == DQ && !sq {
        segment_ranges(b, i + 1, start, sq, !dq)
    } else if b[i] == BACKSLASH && dq && i + 1 < b.len() {
        segment_ranges(b, i + 2, start, sq, dq)
    } else if !sq && !dq && (b[i] == NEWLINE || b[i] == SEMICOLON) {
        seq![(start, i)] + segment_ranges(b, i + 1, i + 1, sq, dq)
    } else if !sq && !dq && i + 1 < b.len() && b[i] == AMPERSAND && b[i + 1] == AMPERSAND {
        seq![(start, i)] + segment_ranges(b, i + 2, i + 2, sq, dq)
    } else if !sq && !dq && i + 1 < b.len() && b[i] == PIPE && b[i + 1] == PIPE {
        seq![(start, i)] + segment_ranges(b, i + 2, i + 2, sq, dq)
    } else if !sq && !dq && b[i] == PIPE {
        seq![(start, i)] + segment_ranges(b, i + 1, i + 1, sq, dq)
    } else {
        segment_ranges(b, i + 1, start, sq, dq)
    }
}

/// The segments of the command whose bytes are `b`, as byte sequences.
pub open spec fn segments_of(b: Seq<u8>) -> Seq<Seq<u8>> {
    segment_ranges(b, 0, 0, false, false).map_values(|r: (int, int)| b.subrange(r.0, r.1))
}

/// Every range lies within `b` and is cut next to ASCII bytes (or at the ends).
pub open spec fn ranges_cut_at_ascii(b: Seq<u8>, rs: Seq<(int, int)>) -> bool {
    forall|k: int|
        0 <= k < rs.len() ==> {
            let r = #[trigger] rs[k];
            &&& 0 <= r.0 <= r.1 <= b.len()
            &&& r.0 == 0 || b[r.0 - 1] < 0x80
            &&& r.1 == b.len() || b[r.1] < 0x80
        }
}

proof fn lemma_ranges_prepend(b: Seq<u8>, x: (int, int), rest: Seq<(int, int)>)
    requires
        ranges_cut_at_ascii(b, rest),
        ranges_cut_at_ascii(b, seq![x]),
    ensures
        ranges_cut_at_ascii(b, seq![x] + rest),
{
    assert forall|k: int| 0 <= k < (seq![x] + rest).len() implies {
        let r = #[trigger] (seq![x] + rest)[k];
        &&& 0 <= r.0 <= r.1 <= b.len()
        &&& r.0 == 0 || b[r.0 - 1] < 0x80
        &&& r.1 == b.len() || b[r.1] < 0x80
    } by {
        if k == 0 {
            assert(seq![x][0] == x);
        } else {
            assert((seq![x] + rest)[k] == rest[k - 1]);
        }
    }
}

pub(crate) proof fn lemma_segment_ranges_sound(b: Seq<u8>, i: int, start: int, sq: bool, dq: bool)
    requires
        0 <= start <= i <= b.len(),
        start == 0 || b[start - 1] < 0x80,
    ensures
        ranges_cut_at_ascii(b, segment_ranges(b, i, start, sq, dq)),
    decreases b.len() - i,
{
    if i >= b.len() {
        if start < b.len() {
            assert(seq![(start, b.len() as int)][0] == (start, b.len() as int));
        }
    } else if b[i] == SQ && !dq {
        lemma_segment_ranges_sound(b, i + 1, start, !sq, dq);
    } else if b[i] == DQ && !sq {
        lemma_segment_ranges_sound(b, i + 1, start, sq, !dq);
    } else if b[i] == BACKSLASH && dq && i + 1 < b.len() {
        lemma_segment_ranges_sound(b, i + 2, start, sq, dq);
    } else if !sq && !dq && (b[i] == NEWLINE || b[i] == SEMICOLON) {
        lemma_segment_ranges_sound(b, i + 1, i + 1, sq, dq);
        assert(seq![(start, i)][0] == (start, i));
        lemma_ranges_prepend(b, (start, i), segment_ranges(b, i + 1, i + 1, sq, dq));
    } else if !sq && !dq && i + 1 < b.len() && b[i] == AMPERSAND && b[i + 1] == AMPERSAND {
        lemma_segment_ranges_sound(b, i + 2, i + 2, sq, dq);
        assert(seq![(start, i)][0] == (start, i));
        lemma_ranges_prepend(b, (start, i), segment_ranges(b, i + 2, i + 2, sq, dq));
    } else if !sq && !dq && i + 1 < b.len() && b[i] == PIPE && b[i + 1] == PIPE {
        lemma_segment_ranges_sound(b, i + 2, i + 2, sq, dq);
        assert(seq![(start, i)][0] == (start, i));
        lemma_ranges_prepend(b, (start, i), segment_ranges(b, i + 2, i + 2, sq, dq));
    } else if !sq && !dq && b[i] == PIPE {
        lemma_segment_ranges_sound(b, i + 1, i + 1, sq, dq);
        assert(seq![(start, i)][0] == (start, i));
        lemma_ranges_prepend(b, (start, i), segment_ranges(b, i + 1, i + 1, sq, dq));
    } else {
        lemma_segment_ranges_sound(b, i + 1, start, sq, dq);
    }
}

/// Split a command string on common separators (`;`, `&&`, `||`, `|`, `\n`).
/// Tracks single and double quotes so that separators inside quoted strings
/// are not treated as split points.
pub fn split_segments(command: &str) -> (r: Vec<&str>)
    ensures
        r@.len() == segments_of(command.spec_bytes()).len(),
        forall|k: int|
            0 <= k < r@.len() ==> (#[trigger] r@[k]).spec_bytes() == segments_of(
                command.spec_bytes(),
            )[k],
{
    let bytes = command.as_bytes();
    let ghost b = bytes@;
    let len = bytes.len();
    let mut segments: Vec<&str> = Vec::new();
    let mut start: usize = 0;
    let mut i: usize = 0;
    let mut in_single_quote = false;
    let mut in_double_quote = false;
    let ghost mut done: Seq<(int, int)> = seq![];
    proof {
        lemma_segment_ranges_sound(b, 0, 0, false, false);
    }
    while i < len
        invariant
            b == command.spec_bytes(),
            bytes@ == b,
            len == b.len(),
            start <= i <= len,
            start == 0 || b[start - 1] < 0x80,
            done + segment_ranges(b, i as int, start as int, in_single_quote, in_double_quote)
                == segment_ranges(b, 0, 0, false, false),
            segments@.len() == done.len(),
            forall|k: int|
                0 <= k < done.len() ==> (#[trigger] segments@[k]).spec_bytes() == b.subrange(
                    done[k].0,
                    done[k].1,
                ),
        decreases len - i,
    {
        proof {
            lemma_segment_ranges_sound(b, i as int, start as int, in_single_quote, in_double_quote);
        }
        if bytes[i] == SQ && !in_double_quote {
            in_single_quote = !in_single_quote;
            i += 1;
            continue;
        }
        if bytes[i] == DQ && !in_single_quote {
            in_double_quote = !in_double_quote;
            i += 1;
            continue;
        }
        if bytes[i] == BACKSLASH && in_double_quote && i + 1 < len {
            i += 2;
            continue;
        }
        if !in_single_quote && !in_double_quote {
            if bytes[i] == NEWLINE || bytes[i] == SEMICOLON {
                let seg = ascii_cut(command, start, i);
                segments.push(seg);
                proof {
                    done = done.push((start as int, i as int));
                    assert(seq![(start as int, i as int)] + segment_ranges(b, i + 1, i + 1, false, false)
                        == segment_ranges(b, i as int, start as int, false, false));
                    assert(done + segment_ranges(b, i + 1, i + 1, false, false) =~= done.drop_last()
                        + segment_ranges(b, i as int, start as int, false, false));
                }
                start = i + 1;
                i += 1;
                continue;
            }
            if i + 1 < len && bytes[i] == AMPERSAND && bytes[i + 1] == AMPERSAND {
                let seg = ascii_cut(command, start, i);
                segments.push(seg);
                proof {
                    done = done.push((start as int, i as int));
                    assert(done + segment_ranges(b, i + 2, i + 2, false, false) =~= done.drop_last()
                        + segment_ranges(b, i as int, start as int, false, false));
                }
                start = i + 2;
                i += 2;
                continue;
            }
            if i + 1 < len && bytes[i] == PIPE && bytes[i + 1] == PIPE {
                let seg = ascii_cut(command, start, i);
                segments.push(seg);
                proof {
                    done = done.push((start as int, i as int));
                    assert(done + segment_ranges(b, i + 2, i + 2, false, false) =~= done.drop_last()
                        + segment_ranges(b, i as int, start as int, false, false));
                }
                start = i + 2;
                i += 2;
                continue;
            }
            if bytes[i] == PIPE {
                let seg = ascii_cut(command, start, i);
                segments.push(seg);
                proof {
                    done = done.push((start as int, i as int));
                    assert(done + segment_ranges(b, i + 1, i + 1, false, false) =~= done.drop_last()
                        + segment_ranges(b, i as int, start as int, false, false));
                }
                start = i + 1;
                i += 1;
                continue;
            }
        }
        i += 1;
    }
    if start < len {
        let seg = ascii_cut(command, start, len);
        segments.push(seg);
        proof {
            done = done.push((start as int, len as int));
        }
    }
    proof {
        assert(done =~= segment_ranges(b, 0, 0, false, false));
    }
    segments
}

/// One of the separators a command is split on: `;`, a newline, `&&`, `||`
/// or `|`.
pub open spec fn is_separator(s: Seq<u8>) -> bool {
    s == seq![SEMICOLON] || s == seq![NEWLINE] || s == seq![AMPERSAND, AMPERSAND] || s == seq![PIPE, PIPE]
        || s == seq![PIPE]
}

/// The segments joined back, each followed by the separator after it.
pub open spec fn joined_with(segs: Seq<Seq<u8>>, seps: Seq<Seq<u8>>) -> Seq<u8>
    decreases segs.len(),
{
    if segs.len() == 0 {
        seq![]
    } else {
        joined_with(segs.drop_last(), seps.drop_last()) + segs.last() + seps.last()
    }
}

/// The ranges `rs` cover `b` from `start` on, in order, with exactly one
/// separator between neighbours and at most one after the last.
spec fn tiles_from(b: Seq<u8>, rs: Seq<(int, int)>, start: int) -> bool {
    &&& (rs.len() == 0 ==> start == b.len())
    &&& (rs.len() > 0 ==> rs[0].0 == start)
    &&& forall|k: int|
        #![trigger rs[k]]
        0 <= k < rs.len() - 1 ==> rs[k].1 < rs[k + 1].0 && is_separator(b.subrange(rs[k].1, rs[k + 1].0))
    &&& (rs.len() > 0 ==> (rs.last().1 == b.len() || (rs.last().1 < b.len() && is_separator(
        b.subrange(rs.last().1, b.len() as int),
    ))))
}

proof fn lemma_tiles_prepend(b: Seq<u8>, start: int, i: int, w: int, rest: Seq<(int, int)>)
    requires
        start <= i,
        i + w <= b.len(),
        is_separator(b.subrange(i, i + w)),
        w >= 1,
        tiles_from(b, rest, i + w),
    ensures
        tiles_from(b, seq![(start, i)] + rest, start),
{
    let rs = seq![(start, i)] + rest;
    assert(rs[0] == (start, i));
    assert forall|k: int| #![trigger rs[k]] 0 <= k < rs.len() - 1 implies rs[k].1 < rs[k + 1].0 && is_separator(
        b.subrange(rs[k].1, rs[k + 1].0),
    ) by {
        if k == 0 {
            assert(rs[1] == rest[0]);
        } else {
            assert(rs[k] == rest[k - 1]);
            assert(rs[k + 1] == rest[k]);
        }
    }
    if rest.len() > 0 {
        assert(rs.last() == rest.last());
    }
}

proof fn lemma_segment_ranges_tile(b: Seq<u8>, i: int, start: int, sq: bool, dq: bool)
    requires
        0 <= start <= i <= b.len(),
    ensures
        tiles_from(b, segment_ranges(b, i, start, sq, dq), start),
    decreases b.len() - i,
{
    if i >= b.len() {
        if start < b.len() {
            assert(seq![(start, b.len() as int)][0] == (start, b.len() as int));
        }
    } else if b[i] == SQ && !dq {
        lemma_segment_ranges_tile(b, i + 1, start, !sq, dq);
    } else if b[i] == DQ && !sq {
        lemma_segment_ranges_tile(b, i + 1, start, sq, !dq);
    } else if b[i] == BACKSLASH && dq && i + 1 < b.len() {
        lemma_segment_ranges_tile(b, i + 2, start, sq, dq);
    } else if !sq && !dq && (b[i] == NEWLINE || b[i] == SEMICOLON) {
        lemma_segment_ranges_tile(b, i + 1, i + 1, sq, dq);
        assert(b.subrange(i, i + 1) =~= seq![b[i]]);
        lemma_tiles_prepend(b, start, i, 1, segment_ranges(b, i + 1, i + 1, sq, dq));
    } else if !sq && !dq && i + 1 < b.len() && b[i] == AMPERSAND && b[i + 1] == AMPERSAND {
        lemma_segment_ranges_tile(b, i + 2, i + 2, sq, dq);
        assert(b.subrange(i, i + 2) =~= seq![AMPERSAND, AMPERSAND]);
        lemma_tiles_prepend(b, start, i, 2, segment_ranges(b, i + 2, i + 2, sq, dq));
    } else if !sq && !dq && i + 1 < b.len() && b[i] == PIPE && b[i + 1] == PIPE {
        lemma_segment_ranges_tile(b, i + 2, i + 2, sq, dq);
        assert(b.subrange(i, i + 2) =~= seq![PIPE, PIPE]);
        lemma_tiles_prepend(b, start, i, 2, segment_ranges(b, i + 2, i + 2, sq, dq));
    } else if !sq && !dq && b[i] == PIPE {
        lemma_segment_ranges_tile(b, i + 1, i + 1, sq, dq);
        assert(b.subrange(i, i + 1) =~= seq![PIPE]);
        lemma_tiles_prepend(b, start, i, 1, segment_ranges(b, i + 1, i + 1, sq, dq));
    } else {
        lemma_segment_ranges_tile(b, i + 1, start, sq, dq);
    }
}

/// The separator after segment `k` of the tiling `rs` of `b`: the bytes up
/// to the next segment, or to the end after the last.
spec fn separator_after(b: Seq<u8>, rs: Seq<(int, int)>, k: int) -> Seq<u8> {
    if k + 1 < rs.len() {
        b.subrange(rs[k].1, rs[k + 1].0)
    } else {
        b.subrange(rs[k].1, b.len() as int)
    }
}

proof fn lemma_join_prefix(b: Seq<u8>, rs: Seq<(int, int)>, m: int)
    requires
        tiles_from(b, rs, 0),
        ranges_cut_at_ascii(b, rs),
        0 <= m <= rs.len(),
    ensures
        joined_with(
            rs.take(m).map_values(|r: (int, int)| b.subrange(r.0, r.1)),
            Seq::new(m as nat, |k: int| separator_after(b, rs, k)),
        ) == b.subrange(0, if m < rs.len() { rs[m].0 } else { b.len() as int }),
    decreases m,
{
    let segs = rs.take(m).map_values(|r: (int, int)| b.subrange(r.0, r.1));
    let seps = Seq::new(m as nat, |k: int| separator_after(b, rs, k));
    if m == 0 {
        if rs.len() > 0 {
            assert(rs[0].0 == 0);
        }
        assert(b.subrange(0, if m < rs.len() { rs[m].0 } else { b.len() as int }) =~= Seq::<u8>::empty());
    } else {
        lemma_join_prefix(b, rs, m - 1);
        let prev_segs = rs.take(m - 1).map_values(|r: (int, int)| b.subrange(r.0, r.1));
        let prev_seps = Seq::new((m - 1) as nat, |k: int| separator_after(b, rs, k));
        assert(segs.drop_last() =~= prev_segs);
        assert(seps.drop_last() =~= prev_seps);
        let r = rs[m - 1];
        assert(segs.last() == b.subrange(r.0, r.1));
        let end = if m < rs.len() { rs[m].0 } else { b.len() as int };
        assert(0 <= r.0 <= r.1 <= b.len());
        if m < rs.len() {
            assert(rs[m - 1].1 < rs[m].0);
            assert(rs[m].0 <= rs[m].1 <= b.len());
        }
        assert(seps.last() == b.subrange(r.1, end));
        assert(b.subrange(0, r.0) + b.subrange(r.0, r.1) + b.subrange(r.1, end) =~= b.subrange(0, end));
    }
}

/// The segments of a command, each followed by the separator that ended it,
/// give back the command: segments are contiguous slices in order and only
/// separators (`;`, newline, `&&`, `||`, `|`) are dropped, the last one
/// optionally followed by a final separator.  An empty command has no
/// segment.
pub proof fn lemma_segments_rebuild_command(b: Seq<u8>)
    ensures
        b.len() == 0 ==> segments_of(b).len() == 0,
        b.len() > 0 ==> exists|seps: Seq<Seq<u8>>|
            {
                &&& segments_of(b).len() >= 1
                &&& #[trigger] seps.len() == segments_of(b).len()
                &&& forall|k: int| 0 <= k < seps.len() - 1 ==> is_separator(#[trigger] seps[k])
                &&& (is_separator(seps.last()) || seps.last().len() == 0)
                &&& joined_with(segments_of(b), seps) == b
            },
{
    let rs = segment_ranges(b, 0, 0, false, false);
    lemma_segment_ranges_tile(b, 0, 0, false, false);
    lemma_segment_ranges_sound(b, 0, 0, false, false);
    if b.len() > 0 {
        let n = rs.len() as int;
        let seps = Seq::new(n as nat, |k: int| separator_after(b, rs, k));
        lemma_join_prefix(b, rs, n);
        assert(rs.take(n) =~= rs);
        assert(segments_of(b) == rs.map_values(|r: (int, int)| b.subrange(r.0, r.1)));
        assert forall|k: int| 0 <= k < seps.len() - 1 implies is_separator(#[trigger] seps[k]) by {
            assert(rs[k].1 < rs[k + 1].0);
        }
        if seps.last().len() != 0 {
            assert(rs.last() == rs[n - 1]);
        }
        assert(b.subrange(0, b.len() as int) =~= b);
    }
}

// =============================================================================
// Inline script extraction
// =============================================================================

/// The byte before `idx` ends a shell word: `idx` is the start of the text or
/// follows a space, tab, newline or `/`.
pub open spec fn token_boundary_at(b: Seq<u8>, idx: int) -> bool {
    idx == 0 || b[idx - 1] == SPACE || b[idx - 1] == TAB || b[idx - 1] == NEWLINE || b[idx - 1]
        == SLASH
}

/// The first occurrence of `needle` at or after `from` that starts at a shell
/// word boundary; `None` as soon as the search position is not a character
/// boundary of `hay` (the remainder could not be sliced off).
pub open spec fn shell_token_from(hay: Seq<u8>, needle: Seq<u8>, from: int) -> Option<int>
    decreases hay.len() - from,
{
    if from < 0 || from > hay.len() || !is_char_boundary(hay, from) {
        None
    } else {
        match find_from(hay, needle, from) {
            None => None,
            Some(i) => if token_boundary_at(hay, i) {
                Some(i)
            } else if i >= hay.len() || i < from {
                None
            } else {
                shell_token_from(hay, needle, i + 1)
            },
        }
    }
}

/// Whether position `idx` of `bytes` starts a shell word.
pub fn is_shell_token_boundary(bytes: &[u8], idx: usize) -> (r: bool)
    requires
        idx <= bytes@.len(),
    ensures
        r == token_boundary_at(bytes@, idx as int),
{
    if idx == 0 {
        return true;
    }
    let b = bytes[idx - 1];
    b == SPACE || b == TAB || b == NEWLINE || b == SLASH
}

/// Find `needle` in `normalized_lower` at a shell word boundary.
pub fn find_shell_token(normalized_lower: &str, needle: &str) -> (r: Option<usize>)
    ensures
        r is Some <==> shell_token_from(normalized_lower.spec_bytes(), needle.spec_bytes(), 0) is Some,
        r matches Some(i) ==> shell_token_from(normalized_lower.spec_bytes(), needle.spec_bytes(), 0)
            == Some(i as int),
        normalized_lower.spec_bytes().len() <= usize::MAX,
        r matches Some(i) ==> i + needle.spec_bytes().len() <= normalized_lower.spec_bytes().len(),
{
    let h = normalized_lower.as_bytes();
    let n = needle.as_bytes();
    let mut offset: usize = 0;
    proof {
        encode_utf8_valid_utf8(normalized_lower@);
    }
    loop
        invariant
            h@ == normalized_lower.spec_bytes(),
            n@ == needle.spec_bytes(),
            valid_utf8(h@),
            offset <= h@.len() + 1,
            shell_token_from(h@, n@, 0) == shell_token_from(h@, n@, offset as int),
        decreases h@.len() + 1 - offset,
    {
        proof {
            lemma_end_boundaries(h@);
        }
        let rest = str_slice(normalized_lower, offset, h.len());
        if rest.is_none() {
            return None;
        }
        proof {
            lemma_find_from_bounds(h@, n@, offset as int);
        }
        match find_bytes_from(h, n, offset) {
            None => {
                return None;
            },
            Some(idx) => {
                if is_shell_token_boundary(h, idx) {
                    proof {
                        lemma_shell_token_occurs(h@, n@, offset as int);
                    }
                    return Some(idx);
                }
                if idx >= h.len() {
                    return None;
                }
                offset = idx + 1;
            },
        }
    }
}

/// The shell-`-c` invocation found in a normalized, lower-cased command:
/// `bash -c ` first, then `sh -c `, with the length of the matched text.
pub open spec fn inline_invocation(lower: Seq<u8>) -> Option<(int, int)> {
    match shell_token_from(lower, "bash -c ".spec_bytes(), 0) {
        Some(i) => Some((i, 8)),
        None => match shell_token_from(lower, "sh -c ".spec_bytes(), 0) {
            Some(i) => Some((i, 6)),
            None => None,
        },
    }
}

pub fn find_inline_shell_invocation(normalized_lower: &str) -> (r: Option<(usize, usize)>)
    ensures
        r is Some <==> inline_invocation(normalized_lower.spec_bytes()) is Some,
        r matches Some((i, l)) ==> inline_invocation(normalized_lower.spec_bytes()) == Some(
            (i as int, l as int),
        ),
        r matches Some((i, l)) ==> i + l <= normalized_lower.spec_bytes().len() <= usize::MAX,
{
    proof {
        reveal_strlit("bash -c ");
        reveal_strlit("sh -c ");
        assert(is_ascii("bash -c "));
        assert(is_ascii("sh -c "));
        is_ascii_spec_bytes("bash -c ");
        is_ascii_spec_bytes("sh -c ");
    }
    match find_shell_token(normalized_lower, "bash -c ") {
        Some(idx) => {
            proof {
                lemma_shell_token_occurs(normalized_lower.spec_bytes(), "bash -c ".spec_bytes(), 0);
            }
            Some((idx, 8))
        },
        None => match find_shell_token(normalized_lower, "sh -c ") {
            Some(idx) => {
                proof {
                    lemma_shell_token_occurs(normalized_lower.spec_bytes(), "sh -c ".spec_bytes(), 0);
                }
                Some((idx, 6))
            },
            None => None,
        },
    }
}

/// A shell-token match is an occurrence of the needle.
pub proof fn lemma_shell_token_occurs(hay: Seq<u8>, needle: Seq<u8>, from: int)
    ensures
        shell_token_from(hay, needle, from) matches Some(i) ==> occurs_at(hay, needle, i),
    decreases hay.len() - from,
{
    if from < 0 || from > hay.len() || !is_char_boundary(hay, from) {
    } else {
        lemma_find_from_bounds(hay, needle, from);
        match find_from(hay, needle, from) {
            None => {},
            Some(i) => if token_boundary_at(hay, i) {
            } else if i >= hay.len() || i < from {
            } else {
                lemma_shell_token_occurs(hay, needle, i + 1);
            },
        }
    }
}

/// Skip ASCII whitespace starting at byte `i`.
pub open spec fn skip_ascii_ws(b: Seq<u8>, i: int) -> int
    decreases b.len() - i,
{
    if 0 <= i < b.len() && is_ascii_ws(b[i]) {
        skip_ascii_ws(b, i + 1)
    } else {
        i
    }
}

/// Skip non-whitespace bytes starting at byte `i`.
pub open spec fn skip_ascii_word(b: Seq<u8>, i: int) -> int
    decreases b.len() - i,
{
    if 0 <= i < b.len() && !is_ascii_ws(b[i]) {
        skip_ascii_word(b, i + 1)
    } else {
        i
    }
}

/// The position after skipping `remaining` whitespace-separated tokens of
/// `b` from byte `i`, stopping early at the end of `b`.
pub open spec fn skip_tokens(b: Seq<u8>, i: int, remaining: nat) -> int
    decreases remaining,
{
    if i >= b.len() || remaining == 0 {
        i
    } else {
        skip_tokens(b, skip_ascii_word(b, skip_ascii_ws(b, i)), (remaining - 1) as nat)
    }
}

/// The bytes of the whitespace-normalized form of the text whose bytes are `b`.
pub open spec fn normalized_bytes(b: Seq<u8>) -> Seq<u8> {
    encode_utf8(normalized_chars(decode_utf8(b)))
}

/// Where the script starts in the original command `b`, given the position
/// `norm_pos` and length `shell_len` of the `-c` invocation in the normalized
/// command: as many tokens are skipped in the original as the normalized
/// text holds up to the end of the invocation.
pub open spec fn after_flag_index(b: Seq<u8>, norm_pos: int, shell_len: int) -> Option<int> {
    let nb = normalized_bytes(b);
    let end = norm_pos + shell_len;
    if end <= nb.len() && is_char_boundary(nb, end) {
        Some(skip_tokens(b, 0, words(decode_utf8(nb.subrange(0, end))).len()))
    } else {
        None
    }
}

proof fn lemma_skip_positions(b: Seq<u8>, i: int, remaining: nat)
    requires
        0 <= i <= b.len(),
        i == 0 || i == b.len() || is_ascii_ws(b[i]),
    ensures
        0 <= skip_tokens(b, i, remaining) <= b.len(),
        skip_tokens(b, i, remaining) == 0 || skip_tokens(b, i, remaining) == b.len() || is_ascii_ws(
            b[skip_tokens(b, i, remaining)],
        ),
    decreases remaining,
{
    if i >= b.len() || remaining == 0 {
    } else {
        let j = skip_ascii_ws(b, i);
        lemma_skip_ws_bounds(b, i);
        let k = skip_ascii_word(b, j);
        lemma_skip_word_bounds(b, j);
        lemma_skip_positions(b, k, (remaining - 1) as nat);
    }
}

pub proof fn lemma_skip_ws_bounds(b: Seq<u8>, i: int)
    requires
        0 <= i <= b.len(),
    ensures
        i <= skip_ascii_ws(b, i) <= b.len(),
        skip_ascii_ws(b, i) == b.len() || !is_ascii_ws(b[skip_ascii_ws(b, i)]),
    decreases b.len() - i,
{
    if 0 <= i < b.len() && is_ascii_ws(b[i]) {
        lemma_skip_ws_bounds(b, i + 1);
    }
}

pub proof fn lemma_skip_word_bounds(b: Seq<u8>, i: int)
    requires
        0 <= i <= b.len(),
    ensures
        i <= skip_ascii_word(b, i) <= b.len(),
        skip_ascii_word(b, i) == b.len() || is_ascii_ws(b[skip_ascii_word(b, i)]),
        i < b.len() && !is_ascii_ws(b[i]) ==> i < skip_ascii_word(b, i),
    decreases b.len() - i,
{
    if 0 <= i < b.len() && !is_ascii_ws(b[i]) {
        lemma_skip_word_bounds(b, i + 1);
    }
}

/// The position after the ASCII whitespace run starting at `i`.
pub fn skip_ws_at(b: &[u8], i: usize) -> (r: usize)
    requires
        i <= b@.len(),
    ensures
        r == skip_ascii_ws(b@, i as int),
        i <= r <= b@.len(),
{
    let mut j = i;
    while j < b.len() && is_ascii_ws_byte(b[j])
        invariant
            i <= j <= b@.len(),
            skip_ascii_ws(b@, j as int) == skip_ascii_ws(b@, i as int),
        decreases b@.len() - j,
    {
        j += 1;
    }
    j
}

/// The position after the run of non-whitespace bytes starting at `i`.
pub fn skip_word_at(b: &[u8], i: usize) -> (r: usize)
    requires
        i <= b@.len(),
    ensures
        r == skip_ascii_word(b@, i as int),
        i <= r <= b@.len(),
{
    let mut j = i;
    while j < b.len() && !is_ascii_ws_byte(b[j])
        invariant
            i <= j <= b@.len(),
            skip_ascii_word(b@, j as int) == skip_ascii_word(b@, i as int),
        decreases b@.len() - j,
    {
        j += 1;
    }
    j
}

/// Map a position in the whitespace-normalized string back to the original,
/// then skip past the normalized tokens to find where the script starts.
pub fn skip_to_after_flag(original: &str, norm_pos: usize, shell_len: usize) -> (r: Option<&str>)
    requires
        norm_pos + shell_len <= usize::MAX,
    ensures
        r is Some <==> after_flag_index(original.spec_bytes(), norm_pos as int, shell_len as int) is Some,
        r matches Some(x) ==> x.spec_bytes() == original.spec_bytes().subrange(
            after_flag_index(original.spec_bytes(), norm_pos as int, shell_len as int)->0,
            original.spec_bytes().len() as int,
        ),
{
    let ghost b = original.spec_bytes();
    let normalized = normalize_whitespace(original);
    proof {
        encode_utf8_decode_utf8(original@);
    }
    let end = norm_pos + shell_len;
    proof {
        encode_utf8_valid_utf8(normalized@);
        lemma_end_boundaries(encode_utf8(normalized@));
    }
    let prefix = match str_slice(normalized.as_str(), 0, end) {
        Some(p) => p,
        None => {
            return None;
        },
    };
    proof {
        encode_utf8_decode_utf8(prefix@);
    }
    let token_count = split_whitespace_vec(prefix).len();
    let bytes = original.as_bytes();
    let mut seen: usize = 0;
    let mut i: usize = 0;
    let ghost target = skip_tokens(b, 0, token_count as nat);
    while i < bytes.len() && seen < token_count
        invariant
            bytes@ == b,
            seen <= token_count,
            i <= b.len(),
            skip_tokens(b, i as int, (token_count - seen) as nat) == target,
        decreases token_count - seen,
    {
        let ghost i0 = i;
        while i < bytes.len() && is_ascii_ws_byte(bytes[i])
            invariant
                bytes@ == b,
                i0 <= i <= b.len(),
                skip_ascii_ws(b, i as int) == skip_ascii_ws(b, i0 as int),
            decreases b.len() - i,
        {
            i += 1;
        }
        let ghost i1 = i;
        while i < bytes.len() && !is_ascii_ws_byte(bytes[i])
            invariant
                bytes@ == b,
                i1 <= i <= b.len(),
                skip_ascii_word(b, i as int) == skip_ascii_word(b, i1 as int),
            decreases b.len() - i,
        {
            i += 1;
        }
        seen += 1;
    }
    proof {
        lemma_skip_positions(b, 0, token_count as nat);
    }
    Some(ascii_cut(original, i, bytes.len()))
}

/// Position of the first unescaped `q` in `t` at or after `j`; a backslash
/// skips the byte after it.
pub open spec fn closing_quote(t: Seq<u8>, j: int, q: u8) -> Option<int>
    decreases t.len() - j,
{
    if j < 0 || j >= t.len() {
        None
    } else if t[j] == BACKSLASH {
        if j + 2 >= t.len() {
            None
        } else {
            closing_quote(t, j + 2, q)
        }
    } else if t[j] == q {
        Some(j)
    } else {
        closing_quote(t, j + 1, q)
    }
}

/// The bytes of the lower-cased, whitespace-normalized form of the text whose
/// bytes are `b`.
pub open spec fn lower_normalized_bytes(b: Seq<u8>) -> Seq<u8> {
    encode_utf8(lowercase(normalized_chars(decode_utf8(b))))
}

/// The script of a `bash -c` / `sh -c` wrapper in the command whose bytes are
/// `b`: the trimmed text after the flag, with one layer of matching quotes
/// removed when the closing quote is found.
pub open spec fn inline_script_of(b: Seq<u8>) -> Option<Seq<u8>> {
    match inline_invocation(lower_normalized_bytes(b)) {
        None => None,
        Some((idx, len)) => match after_flag_index(b, idx, len) {
            None => None,
            Some(i) => {
                let t = trimmed_bytes(b.subrange(i, b.len() as int));
                if t.len() == 0 {
                    None
                } else if (t[0] == DQ || t[0] == SQ) && t.len() > 1 {
                    match closing_quote(t, 1, t[0]) {
                        Some(e) => Some(t.subrange(1, e)),
                        None => Some(t),
                    }
                } else {
                    Some(t)
                }
            },
        },
    }
}

/// A character sequence is empty exactly when its encoding is.
pub proof fn lemma_encode_empty(s: Seq<char>)
    ensures
        (encode_utf8(s).len() == 0) <==> (s.len() == 0),
{
    if s.len() > 0 {
        reveal_with_fuel(encode_utf8, 1);
        assert(encode_scalar(s[0] as u32).len() >= 1);
    }
}

proof fn lemma_closing_quote_bounds(t: Seq<u8>, j: int, q: u8)
    requires
        0 <= j,
    ensures
        closing_quote(t, j, q) matches Some(e) ==> j <= e < t.len() && t[e] == q,
    decreases t.len() - j,
{
    if j < 0 || j >= t.len() {
    } else if t[j] == BACKSLASH {
        if j + 2 < t.len() {
            lemma_closing_quote_bounds(t, j + 2, q);
        }
    } else if t[j] == q {
    } else {
        lemma_closing_quote_bounds(t, j + 1, q);
    }
}

/// Extract the inner script from documented `bash -c "..."` or `sh -c "..."`
/// wrappers.  Returns `None` if the command is not a shell `-c` invocation.
pub fn extract_inline_script(command: &str) -> (r: Option<String>)
    ensures
        r is Some <==> inline_script_of(command.spec_bytes()) is Some,
        r matches Some(x) ==> encode_utf8(x@) == inline_script_of(command.spec_bytes())->0,
{
    let ghost b = command.spec_bytes();
    proof {
        encode_utf8_decode_utf8(command@);
    }
    let normalized = normalize_whitespace(command);
    let lower = str_to_lowercase(normalized.as_str());
    let (idx, shell_len) = match find_inline_shell_invocation(lower.as_str()) {
        Some(found) => found,
        None => {
            return None;
        },
    };
    let after_flag = match skip_to_after_flag(command, idx, shell_len) {
        Some(rest) => rest,
        None => {
            return None;
        },
    };
    proof {
        encode_utf8_decode_utf8(after_flag@);
    }
    let trimmed = str_trim(after_flag);
    proof {
        lemma_encode_empty(trimmed@);
    }
    if trimmed.is_empty() {
        return None;
    }
    let tb = trimmed.as_bytes();
    let first = tb[0];
    if (first == DQ || first == SQ) && tb.len() > 1 {
        let inner = ascii_cut(trimmed, 1, tb.len());
        let ib = inner.as_bytes();
        assert(inline_script_of(b) == match closing_quote(tb@, 1, first) {
            Some(e) => Some(tb@.subrange(1, e)),
            None => Some(tb@),
        });
        let mut j: usize = 0;
        while j < ib.len()
            invariant
                ib@ == tb@.subrange(1, tb@.len() as int),
                ib@ == inner.spec_bytes(),
                tb@.len() > 1,
                tb@[0] == first,
                b == command.spec_bytes(),
                first == DQ || first == SQ,
                inline_script_of(b) == match closing_quote(tb@, 1, first) {
                    Some(e) => Some(tb@.subrange(1, e)),
                    None => Some(tb@),
                },
                j <= ib@.len(),
                closing_quote(tb@, 1, first) == closing_quote(tb@, j + 1, first),
            decreases ib@.len() - j,
        {
            if ib[j] == BACKSLASH {
                if ib.len() - j >= 2 {
                    j += 2;
                } else {
                    j = ib.len();
                }
                continue;
            }
            if ib[j] == first {
                assert(tb@[j + 1] == first);
                assert(closing_quote(tb@, j + 1, first) == Some(j + 1));
                proof {
                    lemma_closing_quote_bounds(tb@, 1, first);
                }
                let script = ascii_cut(inner, 0, j);
                assert(script.spec_bytes() =~= tb@.subrange(1, j + 1));
                return Some(script.to_owned());
            }
            j += 1;
        }
    }
    Some(trimmed.to_owned())
}

// =============================================================================
// Command substitution extraction
// =============================================================================

/// Position of the `)` that closes a `$(` whose body is scanned from byte `i`
/// at nesting `depth`, tracking quotes; a backslash skips the next byte.
pub open spec fn paren_close(b: Seq<u8>, i: int, depth: int, sq: bool, dq: bool) -> Option<int>
    decreases b.len() - i,
{
    if i < 0 || i >= b.len() {
        None
    } else if b[i] == SQ && !dq {
        paren_close(b, i + 1, depth, !sq, dq)
    } else if b[i] == DQ && !sq {
        paren_close(b, i + 1, depth, sq, !dq)
    } else if b[i] == BACKSLASH {
        if i + 2 >= b.len() {
            None
        } else {
            paren_close(b, i + 2, depth, sq, dq)
        }
    } else if b[i] == DOLLAR && !sq && i + 1 < b.len() && b[i + 1] == LPAREN {
        paren_close(b, i + 2, depth + 1, sq, dq)
    } else if b[i] == RPAREN && !sq {
        if depth - 1 == 0 {
            Some(i)
        } else {
            paren_close(b, i + 1, depth - 1, sq, dq)
        }
    } else {
        paren_close(b, i + 1, depth, sq, dq)
    }
}

/// The body of the `$( ... )` substitution whose body starts at `start`, and
/// the position after its closing parenthesis.
pub open spec fn dollar_paren_at(b: Seq<u8>, start: int) -> Option<(Seq<u8>, int)> {
    match paren_close(b, start, 1, false, false) {
        Some(i) => if is_char_boundary(b, start) {
            Some((b.subrange(start, i), i + 1))
        } else {
            None
        },
        None => None,
    }
}

/// Position of the closing backtick scanned from `i`; a backslash skips the
/// next byte.
pub open spec fn backtick_close(b: Seq<u8>, i: int) -> Option<int>
    decreases b.len() - i,
{
    if i < 0 || i >= b.len() {
        None
    } else if b[i] == BACKSLASH {
        if i + 2 >= b.len() {
            None
        } else {
            backtick_close(b, i + 2)
        }
    } else if b[i] == BACKTICK {
        Some(i)
    } else {
        backtick_close(b, i + 1)
    }
}

/// The body of the backtick substitution whose body starts at `start`, and
/// the position after its closing backtick.
pub open spec fn backticks_at(b: Seq<u8>, start: int) -> Option<(Seq<u8>, int)> {
    match backtick_close(b, start) {
        Some(i) => if is_char_boundary(b, start) {
            Some((b.subrange(start, i), i + 1))
        } else {
            None
        },
        None => None,
    }
}

proof fn lemma_paren_close_bounds(b: Seq<u8>, i: int, depth: int, sq: bool, dq: bool)
    requires
        0 <= i,
    ensures
        paren_close(b, i, depth, sq, dq) matches Some(e) ==> i <= e < b.len() && b[e] == RPAREN,
    decreases b.len() - i,
{
    if i < 0 || i >= b.len() {
    } else if b[i] == SQ && !dq {
        lemma_paren_close_bounds(b, i + 1, depth, !sq, dq);
    } else if b[i] == DQ && !sq {
        lemma_paren_close_bounds(b, i + 1, depth, sq, !dq);
    } else if b[i] == BACKSLASH {
        if i + 2 < b.len() {
            lemma_paren_close_bounds(b, i + 2, depth, sq, dq);
        }
    } else if b[i] == DOLLAR && !sq && i + 1 < b.len() && b[i + 1] == LPAREN {
        lemma_paren_close_bounds(b, i + 2, depth + 1, sq, dq);
    } else if b[i] == RPAREN && !sq {
        if depth - 1 != 0 {
            lemma_paren_close_bounds(b, i + 1, depth - 1, sq, dq);
        }
    } else {
        lemma_paren_close_bounds(b, i + 1, depth, sq, dq);
    }
}

proof fn lemma_backtick_close_bounds(b: Seq<u8>, i: int)
    requires
        0 <= i,
    ensures
        backtick_close(b, i) matches Some(e) ==> i <= e < b.len() && b[e] == BACKTICK,
    decreases b.len() - i,
{
    if i < 0 || i >= b.len() {
    } else if b[i] == BACKSLASH {
        if i + 2 < b.len() {
            lemma_backtick_close_bounds(b, i + 2);
        }
    } else if b[i] == BACKTICK {
    } else {
        lemma_backtick_close_bounds(b, i + 1);
    }
}

/// Extract the body of a `$( ... )` substitution whose body starts at byte
/// `start`, with the position after the closing parenthesis.
pub fn extract_dollar_paren(command: &str, start: usize) -> (r: Option<(String, usize)>)
    ensures
        r is Some <==> dollar_paren_at(command.spec_bytes(), start as int) is Some,
        r matches Some((inner, end)) ==> dollar_paren_at(command.spec_bytes(), start as int) == Some(
            (encode_utf8(inner@), end as int),
        ),
{
    let bytes = command.as_bytes();
    let ghost b = bytes@;
    let mut i = start;
    let mut depth: usize = 1;
    let mut in_single_quote = false;
    let mut in_double_quote = false;
    proof {
        encode_utf8_valid_utf8(command@);
    }
    while i < bytes.len()
        invariant
            b == bytes@,
            b == command.spec_bytes(),
            valid_utf8(b),
            start <= i,
            1 <= depth <= i - start + 1,
            paren_close(b, start as int, 1, false, false) == paren_close(
                b,
                i as int,
                depth as int,
                in_single_quote,
                in_double_quote,
            ),
        decreases bytes@.len() - i,
    {
        let c = bytes[i];
        if c == SQ && !in_double_quote {
            in_single_quote = !in_single_quote;
            i += 1;
        } else if c == DQ && !in_single_quote {
            in_double_quote = !in_double_quote;
            i += 1;
        } else if c == BACKSLASH {
            if bytes.len() - i <= 2 {
                return None;
            }
            i += 2;
        } else if c == DOLLAR && !in_single_quote && i + 1 < bytes.len() && bytes[i + 1] == LPAREN {
            depth += 1;
            i += 2;
        } else if c == RPAREN && !in_single_quote {
            depth -= 1;
            if depth == 0 {
                proof {
                    lemma_paren_close_bounds(b, start as int, 1, false, false);
                    lemma_end_boundaries(b);
                    lemma_ascii_boundaries(b, i as int);
                }
                return match str_slice(command, start, i) {
                    Some(inner) => {
                        let owned = inner.to_owned();
                        proof {
                            encode_utf8_decode_utf8(inner@);
                        }
                        Some((owned, i + 1))
                    },
                    None => None,
                };
            }
            i += 1;
        } else {
            i += 1;
        }
    }
    None
}

/// Extract the body of a backtick substitution whose body starts at byte
/// `start`, with the position after the closing backtick.
pub fn extract_backticks(command: &str, start: usize) -> (r: Option<(String, usize)>)
    ensures
        r is Some <==> backticks_at(command.spec_bytes(), start as int) is Some,
        r matches Some((inner, end)) ==> backticks_at(command.spec_bytes(), start as int) == Some(
            (encode_utf8(inner@), end as int),
        ),
{
    let bytes = command.as_bytes();
    let ghost b = bytes@;
    let mut i = start;
    proof {
        encode_utf8_valid_utf8(command@);
    }
    while i < bytes.len()
        invariant
            b == bytes@,
            b == command.spec_bytes(),
            valid_utf8(b),
            start <= i,
            backtick_close(b, start as int) == backtick_close(b, i as int),
        decreases bytes@.len() - i,
    {
        let c = bytes[i];
        if c == BACKSLASH {
            if bytes.len() - i <= 2 {
                return None;
            }
            i += 2;
        } else if c == BACKTICK {
            proof {
                lemma_backtick_close_bounds(b, start as int);
                lemma_end_boundaries(b);
                lemma_ascii_boundaries(b, i as int);
            }
            return match str_slice(command, start, i) {
                Some(inner) => {
                    let owned = inner.to_owned();
                    proof {
                        encode_utf8_decode_utf8(inner@);
                    }
                    Some((owned, i + 1))
                },
                None => None,
            };
        } else {
            i += 1;
        }
    }
    None
}

/// The bodies of the top-level command substitutions of `b` from byte `i`
/// with the given quote state.  Single-quoted text is shell data; double
/// quotes still allow substitutions.
pub open spec fn substitutions_from(b: Seq<u8>, i: int, sq: bool, dq: bool) -> Seq<Seq<u8>>
    decreases b.len() - i,
{
    if i < 0 || i >= b.len() {
        seq![]
    } else if b[i] == SQ && !dq {
        substitutions_from(b, i + 1, !sq, dq)
    } else if b[i] == DQ && !sq {
        substitutions_from(b, i + 1, sq, !dq)
    } else if b[i] == BACKSLASH {
        if i + 2 >= b.len() {
            seq![]
        } else {
            substitutions_from(b, i + 2, sq, dq)
        }
    } else if b[i] == DOLLAR && !sq && i + 1 < b.len() && b[i + 1] == LPAREN {
        match dollar_paren_at(b, i + 2) {
            Some((inner, end)) => if end <= i || end > b.len() {
                seq![]
            } else {
                seq![inner] + substitutions_from(b, end, sq, dq)
            },
            None => substitutions_from(b, i + 2, sq, dq),
        }
    } else if b[i] == BACKTICK && !sq {
        match backticks_at(b, i + 1) {
            Some((inner, end)) => if end <= i || end > b.len() {
                seq![]
            } else {
                seq![inner] + substitutions_from(b, end, sq, dq)
            },
            None => substitutions_from(b, i + 1, sq, dq),
        }
    } else {
        substitutions_from(b, i + 1, sq, dq)
    }
}

/// The bodies of the top-level command substitutions of `b`.
pub open spec fn substitutions_of(b: Seq<u8>) -> Seq<Seq<u8>> {
    substitutions_from(b, 0, false, false)
}

/// Extract executable command substitutions from a shell segment.
pub fn extract_command_substitutions(command: &str) -> (r: Vec<String>)
    ensures
        r@.len() == substitutions_of(command.spec_bytes()).len(),
        forall|k: int|
            0 <= k < r@.len() ==> encode_utf8((#[trigger] r@[k])@) == substitutions_of(
                command.spec_bytes(),
            )[k],
{
    let bytes = command.as_bytes();
    let ghost b = bytes@;
    let mut substitutions: Vec<String> = Vec::new();
    let mut i: usize = 0;
    let mut in_single_quote = false;
    let mut in_double_quote = false;
    let ghost mut done: Seq<Seq<u8>> = seq![];
    while i < bytes.len()
        invariant
            b == bytes@,
            b == command.spec_bytes(),
            done + substitutions_from(b, i as int, in_single_quote, in_double_quote)
                == substitutions_of(b),
            substitutions@.len() == done.len(),
            forall|k: int|
                0 <= k < done.len() ==> encode_utf8((#[trigger] substitutions@[k])@) == done[k],
        decreases bytes@.len() - i,
    {
        let c = bytes[i];
        if c == SQ && !in_double_quote {
            in_single_quote = !in_single_quote;
            i += 1;
        } else if c == DQ && !in_single_quote {
            in_double_quote = !in_double_quote;
            i += 1;
        } else if c == BACKSLASH {
            if bytes.len() - i <= 2 {
                i = bytes.len();
            } else {
                i += 2;
            }
        } else if c == DOLLAR && !in_single_quote && i + 1 < bytes.len() && bytes[i + 1] == LPAREN {
            proof {
                lemma_paren_close_bounds(b, i + 2, 1, false, false);
            }
            match extract_dollar_paren(command, i + 2) {
                Some((inner, end)) => {
                    let ghost piece = encode_utf8(inner@);
                    substitutions.push(inner);
                    proof {
                        assert(done.push(piece) + substitutions_from(b, end as int, in_single_quote, in_double_quote)
                            =~= done + substitutions_from(b, i as int, in_single_quote, in_double_quote));
                        done = done.push(piece);
                    }
                    i = end;
                },
                None => {
                    i += 2;
                },
            }
        } else if c == BACKTICK && !in_single_quote {
            proof {
                lemma_backtick_close_bounds(b, i + 1);
            }
            match extract_backticks(command, i + 1) {
                Some((inner, end)) => {
                    let ghost piece = encode_utf8(inner@);
                    substitutions.push(inner);
                    proof {
                        assert(done.push(piece) + substitutions_from(b, end as int, in_single_quote, in_double_quote)
                            =~= done + substitutions_from(b, i as int, in_single_quote, in_double_quote));
                        done = done.push(piece);
                    }
                    i = end;
                },
                None => {
                    i += 1;
                },
            }
        } else {
            i += 1;
        }
    }
    proof {
        assert(done =~= substitutions_of(b));
    }
    substitutions
}

/// The text of `b` from byte `i` with shell data blanked out: quote
/// characters and quoted text become spaces, and each closed command
/// substitution becomes one space.  Other bytes are kept, each as the
/// character with that code.
pub open spec fn stripped_from(b: Seq<u8>, i: int, sq: bool, dq: bool) -> Seq<char>
    decreases b.len() - i,
{
    if i < 0 || i >= b.len() {
        seq![]
    } else if b[i] == SQ && !dq {
        seq![' '] + stripped_from(b, i + 1, !sq, dq)
    } else if b[i] == DQ && !sq {
        seq![' '] + stripped_from(b, i + 1, sq, !dq)
    } else if b[i] == BACKSLASH && dq {
        if i + 1 < b.len() {
            seq![' ', ' '] + stripped_from(b, i + 2, sq, dq)
        } else {
            seq![' ']
        }
    } else if b[i] == DOLLAR && !sq && i + 1 < b.len() && b[i + 1] == LPAREN {
        match dollar_paren_at(b, i + 2) {
            Some((_, end)) => if end <= i || end > b.len() {
                seq![]
            } else {
                seq![' '] + stripped_from(b, end, sq, dq)
            },
            None => seq![b[i] as char] + stripped_from(b, i + 1, sq, dq),
        }
    } else if b[i] == BACKTICK && !sq {
        match backticks_at(b, i + 1) {
            Some((_, end)) => if end <= i || end > b.len() {
                seq![]
            } else {
                seq![' '] + stripped_from(b, end, sq, dq)
            },
            None => seq![b[i] as char] + stripped_from(b, i + 1, sq, dq),
        }
    } else if sq || dq {
        seq![' '] + stripped_from(b, i + 1, sq, dq)
    } else {
        seq![b[i] as char] + stripped_from(b, i + 1, sq, dq)
    }
}

/// The command whose bytes are `b` with its shell data blanked out.
pub open spec fn stripped_of(b: Seq<u8>) -> Seq<char> {
    stripped_from(b, 0, false, false)
}

/// Strip shell data contexts before looking for destructive command text.
/// Command substitutions are replaced with spaces because they are validated
/// on their own.
#[verifier::spinoff_prover]
#[verifier::rlimit(80)]
pub fn strip_shell_data(command: &str) -> (r: String)
    ensures
        r@ == stripped_of(command.spec_bytes()),
{
    let bytes = command.as_bytes();
    let ghost b = bytes@;
    let mut stripped: Vec<char> = Vec::new();
    let mut i: usize = 0;
    let mut in_single_quote = false;
    let mut in_double_quote = false;
    while i < bytes.len()
        invariant
            b == bytes@,
            b == command.spec_bytes(),
            stripped@ + stripped_from(b, i as int, in_single_quote, in_double_quote) == stripped_of(b),
        decreases bytes@.len() - i,
    {
        let ghost before = stripped@;
        let c = bytes[i];
        if c == SQ && !in_double_quote {
            in_single_quote = !in_single_quote;
            stripped.push(' ');
            i += 1;
            assert(stripped@ + stripped_from(b, i as int, in_single_quote, in_double_quote) =~= before
                + stripped_from(b, i - 1, !in_single_quote, in_double_quote));
        } else if c == DQ && !in_single_quote {
            in_double_quote = !in_double_quote;
            stripped.push(' ');
            i += 1;
            assert(stripped@ + stripped_from(b, i as int, in_single_quote, in_double_quote) =~= before
                + stripped_from(b, i - 1, in_single_quote, !in_double_quote));
        } else if c == BACKSLASH && in_double_quote {
            stripped.push(' ');
            if i + 1 < bytes.len() {
                stripped.push(' ');
                i += 2;
                assert(stripped@ + stripped_from(b, i as int, in_single_quote, in_double_quote) =~= before
                    + stripped_from(b, i - 2, in_single_quote, in_double_quote));
            } else {
                i += 1;
                assert(stripped@ + stripped_from(b, i as int, in_single_quote, in_double_quote) =~= before
                    + stripped_from(b, i - 1, in_single_quote, in_double_quote));
            }
        } else if c == DOLLAR && !in_single_quote && i + 1 < bytes.len() && bytes[i + 1] == LPAREN {
            proof {
                lemma_paren_close_bounds(b, i + 2, 1, false, false);
            }
            match extract_dollar_paren(command, i + 2) {
                Some((_inner, end)) => {
                    stripped.push(' ');
                    let ghost i0 = i;
                    i = end;
                    assert(stripped@ + stripped_from(b, i as int, in_single_quote, in_double_quote) =~= before
                        + stripped_from(b, i0 as int, in_single_quote, in_double_quote));
                },
                None => {
                    stripped.push(c as char);
                    i += 1;
                    assert(stripped@ + stripped_from(b, i as int, in_single_quote, in_double_quote) =~= before
                        + stripped_from(b, i - 1, in_single_quote, in_double_quote));
                },
            }
        } else if c == BACKTICK && !in_single_quote {
            proof {
                lemma_backtick_close_bounds(b, i + 1);
            }
            match extract_backticks(command, i + 1) {
                Some((_inner, end)) => {
                    stripped.push(' ');
                    let ghost i0 = i;
                    i = end;
                    assert(stripped@ + stripped_from(b, i as int, in_single_quote, in_double_quote) =~= before
                        + stripped_from(b, i0 as int, in_single_quote, in_double_quote));
                },
                None => {
                    stripped.push(c as char);
                    i += 1;
                    assert(stripped@ + stripped_from(b, i as int, in_single_quote, in_double_quote) =~= before
                        + stripped_from(b, i - 1, in_single_quote, in_double_quote));
                },
            }
        } else if in_single_quote || in_double_quote {
            stripped.push(' ');
            i += 1;
            assert(stripped@ + stripped_from(b, i as int, in_single_quote, in_double_quote) =~= before
                + stripped_from(b, i - 1, in_single_quote, in_double_quote));
        } else {
            stripped.push(c as char);
            i += 1;
            assert(stripped@ + stripped_from(b, i as int, in_single_quote, in_double_quote) =~= before
                + stripped_from(b, i - 1, in_single_quote, in_double_quote));
        }
    }
    assert(stripped@ =~= stripped_of(b));
    string_from_chars(stripped.as_slice())
}


// =============================================================================
// Size facts used to bound the guard's recursion
// =============================================================================

/// Every segment is a piece of the command it was split from.
pub proof fn lemma_segments_within(b: Seq<u8>)
    ensures
        forall|k: int|
            0 <= k < segments_of(b).len() ==> (#[trigger] segments_of(b)[k]).len() <= b.len(),
{
    lemma_segment_ranges_sound(b, 0, 0, false, false);
    let rs = segment_ranges(b, 0, 0, false, false);
    assert forall|k: int| 0 <= k < segments_of(b).len() implies (#[trigger] segments_of(b)[k]).len()
        <= b.len() by {
        let r = rs[k];
        assert(0 <= r.0 <= r.1 <= b.len());
    }
}

/// Every command substitution body is shorter than the text it was found in.
pub proof fn lemma_substitutions_shorter(b: Seq<u8>, i: int, sq: bool, dq: bool)
    requires
        0 <= i,
    ensures
        forall|j: int|
            0 <= j < substitutions_from(b, i, sq, dq).len() ==> (#[trigger] substitutions_from(
                b,
                i,
                sq,
                dq,
            )[j]).len() < b.len(),
    decreases b.len() - i,
{
    if i < 0 || i >= b.len() {
    } else if b[i] == SQ && !dq {
        lemma_substitutions_shorter(b, i + 1, !sq, dq);
        assert(substitutions_from(b, i, sq, dq) == substitutions_from(b, i + 1, !sq, dq));
    } else if b[i] == DQ && !sq {
        lemma_substitutions_shorter(b, i + 1, sq, !dq);
        assert(substitutions_from(b, i, sq, dq) == substitutions_from(b, i + 1, sq, !dq));
    } else if b[i] == BACKSLASH {
        if i + 2 < b.len() {
            lemma_substitutions_shorter(b, i + 2, sq, dq);
            assert(substitutions_from(b, i, sq, dq) == substitutions_from(b, i + 2, sq, dq));
        }
    } else if b[i] == DOLLAR && !sq && i + 1 < b.len() && b[i + 1] == LPAREN {
        lemma_paren_close_bounds(b, i + 2, 1, false, false);
        match dollar_paren_at(b, i + 2) {
            Some((inner, end)) => {
                if end > i && end <= b.len() {
                    lemma_substitutions_shorter(b, end, sq, dq);
                    let rest = substitutions_from(b, end, sq, dq);
                    let all = substitutions_from(b, i, sq, dq);
                    assert(all == seq![inner] + rest);
                    assert forall|j: int| 0 <= j < all.len() implies (#[trigger] all[j]).len()
                        < b.len() by {
                        if j > 0 {
                            assert(all[j] == rest[j - 1]);
                        }
                    }
                }
            },
            None => {
                lemma_substitutions_shorter(b, i + 2, sq, dq);
                assert(substitutions_from(b, i, sq, dq) == substitutions_from(b, i + 2, sq, dq));
            },
        }
    } else if b[i] == BACKTICK && !sq {
        lemma_backtick_close_bounds(b, i + 1);
        match backticks_at(b, i + 1) {
            Some((inner, end)) => {
                if end > i && end <= b.len() {
                    lemma_substitutions_shorter(b, end, sq, dq);
                    let rest = substitutions_from(b, end, sq, dq);
                    let all = substitutions_from(b, i, sq, dq);
                    assert(all == seq![inner] + rest);
                    assert forall|j: int| 0 <= j < all.len() implies (#[trigger] all[j]).len()
                        < b.len() by {
                        if j > 0 {
                            assert(all[j] == rest[j - 1]);
                        }
                    }
                }
            },
            None => {
                lemma_substitutions_shorter(b, i + 1, sq, dq);
                assert(substitutions_from(b, i, sq, dq) == substitutions_from(b, i + 1, sq, dq));
            },
        }
    } else {
        lemma_substitutions_shorter(b, i + 1, sq, dq);
        assert(substitutions_from(b, i, sq, dq) == substitutions_from(b, i + 1, sq, dq));
    }
}

proof fn lemma_skip_tokens_monotone(b: Seq<u8>, i: int, remaining: nat)
    requires
        0 <= i <= b.len(),
    ensures
        i <= skip_tokens(b, i, remaining),
    decreases remaining,
{
    if i >= b.len() || remaining == 0 {
    } else {
        let j = skip_ascii_ws(b, i);
        lemma_skip_ws_bounds(b, i);
        lemma_skip_word_bounds(b, j);
        lemma_skip_tokens_monotone(b, skip_ascii_word(b, j), (remaining - 1) as nat);
    }
}

/// The normalized text starts with a non-whitespace character.
proof fn lemma_normalized_starts_with_word(s: Seq<char>)
    requires
        normalized_chars(s).len() > 0,
    ensures
        !is_whitespace_char(normalized_chars(s)[0]),
{
    lemma_words_from_shape(s, seq![]);
    let ws = words(s);
    if ws.len() == 0 {
        assert(join_with_space(ws) =~= Seq::<char>::empty());
    } else {
        assert(ws[0].len() > 0);
        lemma_join_first(ws);
    }
}

/// The script of an inline `-c` wrapper is shorter than the command holding it.
pub proof fn lemma_inline_script_shorter(b: Seq<u8>)
    requires
        valid_utf8(b),
    ensures
        inline_script_of(b) matches Some(s) ==> s.len() < b.len(),
{
    let lnb = lower_normalized_bytes(b);
    match inline_invocation(lnb) {
        None => {},
        Some((idx, len)) => {
            lemma_shell_token_occurs(lnb, "bash -c ".spec_bytes(), 0);
            lemma_shell_token_occurs(lnb, "sh -c ".spec_bytes(), 0);
            assert(idx >= 0 && len >= 6);
            match after_flag_index(b, idx, len) {
                None => {},
                Some(i) => {
                    let n = normalized_chars(decode_utf8(b));
                    let nb = normalized_bytes(b);
                    let end = idx + len;
                    assert(nb == encode_utf8(n));
                    encode_utf8_valid_utf8(n);
                    encode_utf8_decode_utf8(n);
                    lemma_encode_empty(n);
                    assert(n.len() > 0);
                    lemma_normalized_starts_with_word(decode_utf8(b));
                    let pre = nb.subrange(0, end);
                    valid_utf8_split(nb, end);
                    decode_utf8_split(nb, end);
                    let dp = decode_utf8(pre);
                    assert(dp.len() > 0);
                    assert(n == dp + decode_utf8(nb.subrange(end, nb.len() as int)));
                    assert(dp[0] == n[0]);
                    lemma_words_from_nonempty(dp, seq![], 0);
                    let count = words(dp).len();
                    assert(count > 0);
                    if b.len() == 0 {
                        assert(decode_utf8(b) =~= Seq::<char>::empty());
                        assert(words(decode_utf8(b)) =~= Seq::<Seq<char>>::empty());
                        assert(false);
                    }
                    let j0 = skip_ascii_ws(b, 0);
                    lemma_skip_ws_bounds(b, 0);
                    let k0 = skip_ascii_word(b, j0);
                    lemma_skip_word_bounds(b, j0);
                    assert(k0 >= 1);
                    lemma_skip_tokens_monotone(b, k0, (count - 1) as nat);
                    assert(i == skip_tokens(b, k0, (count - 1) as nat));
                    lemma_skip_positions(b, 0, count);
                    assert(1 <= i <= b.len());
                    let x = b.subrange(i, b.len() as int);
                    if i < b.len() {
                        lemma_ascii_boundaries(b, i);
                    } else {
                        lemma_end_boundaries(b);
                    }
                    valid_utf8_split(b, i);
                    decode_utf8_encode_utf8(x);
                    lemma_encode_trim_len(decode_utf8(x));
                    let t = trimmed_bytes(x);
                    assert(t.len() <= x.len());
                    if t.len() > 0 && (t[0] == DQ || t[0] == SQ) && t.len() > 1 {
                        lemma_closing_quote_bounds(t, 1, t[0]);
                    }
                },
            }
        },
    }
}

} // verus!
