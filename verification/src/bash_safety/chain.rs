//! How the guard judges two commands chained with `&&`: each side in turn,
//! as if it had been checked alone.  Stated for quote-free sides joined by
//! ` && ` (any segments, any surrounding whitespace), and for single-segment
//! sides that close their quotes joined by `&&` with no space.
use vstd::prelude::*;
use vstd::utf8::*;

use super::parse::{
    inline_script_of, lemma_inline_script_shorter, lemma_substitutions_shorter, segment_ranges, segments_of,
    substitutions_of, AMPERSAND, BACKSLASH, DQ, NEWLINE, PIPE, SEMICOLON, SPACE, SQ,
};
use super::{hard_block_of, safety_verdict, segments_verdict, soft_warning_of, substitutions_verdict};
use crate::text::{
    is_whitespace_char, lemma_ascii_boundaries, lemma_encode_concat, lemma_encode_trim_len, lemma_end_boundaries, trim_chars,
    trim_end_chars, trim_start_chars, trimmed_bytes,
};

verus! {

/// The quote state after scanning `b` from byte `i` in the given state.
pub open spec fn quote_state_after(b: Seq<u8>, i: int, sq: bool, dq: bool) -> (bool, bool)
    decreases b.len() - i,
{
    if i >= b.len() || i < 0 {
        (sq, dq)
    } else if b[i] == SQ && !dq {
        quote_state_after(b, i + 1, !sq, dq)
    } else if b[i] == DQ && !sq {
        quote_state_after(b, i + 1, sq, !dq)
    } else if b[i] == BACKSLASH && dq && i + 1 < b.len() {
        quote_state_after(b, i + 2, sq, dq)
    } else {
        quote_state_after(b, i + 1, sq, dq)
    }
}

/// Every quote that `b` opens is closed again.
pub open spec fn quotes_closed(b: Seq<u8>) -> bool {
    quote_state_after(b, 0, false, false) == (false, false)
}

/// Ranges moved `d` bytes to the right.
spec fn shifted(rs: Seq<(int, int)>, d: int) -> Seq<(int, int)> {
    rs.map_values(|r: (int, int)| (r.0 + d, r.1 + d))
}

proof fn lemma_shifted_prepend(x: (int, int), rest: Seq<(int, int)>, d: int)
    ensures
        shifted(seq![x] + rest, d) == seq![(x.0 + d, x.1 + d)] + shifted(rest, d),
{
    assert(shifted(seq![x] + rest, d) =~= seq![(x.0 + d, x.1 + d)] + shifted(rest, d));
}

/// Scanning the bytes after a prefix `p` gives the ranges of the suffix
/// alone, moved by the prefix's length.
proof fn lemma_ranges_after_prefix(p: Seq<u8>, y: Seq<u8>, j: int, s: int, sq: bool, dq: bool)
    requires
        0 <= s <= y.len(),
        0 <= j <= y.len(),
    ensures
        segment_ranges(p + y, p.len() as int + j, p.len() as int + s, sq, dq) == shifted(
            segment_ranges(y, j, s, sq, dq),
            p.len() as int,
        ),
    decreases y.len() - j,
{
    let c = p + y;
    let d = p.len() as int;
    if j >= y.len() {
        if s < y.len() {
            assert(shifted(seq![(s, y.len() as int)], d) =~= seq![(s + d, c.len() as int)]);
        } else {
            assert(shifted(Seq::<(int, int)>::empty(), d) =~= Seq::<(int, int)>::empty());
        }
    } else {
        assert(c[d + j] == y[j]);
        if j + 1 < y.len() {
            assert(c[d + j + 1] == y[j + 1]);
        }
        if y[j] == SQ && !dq {
            lemma_ranges_after_prefix(p, y, j + 1, s, !sq, dq);
        } else if y[j] == DQ && !sq {
            lemma_ranges_after_prefix(p, y, j + 1, s, sq, !dq);
        } else if y[j] == BACKSLASH && dq && j + 1 < y.len() {
            lemma_ranges_after_prefix(p, y, j + 2, s, sq, dq);
        } else if !sq && !dq && (y[j] == NEWLINE || y[j] == SEMICOLON) {
            lemma_ranges_after_prefix(p, y, j + 1, j + 1, sq, dq);
            lemma_shifted_prepend((s, j), segment_ranges(y, j + 1, j + 1, sq, dq), d);
        } else if !sq && !dq && j + 1 < y.len() && y[j] == AMPERSAND && y[j + 1] == AMPERSAND {
            lemma_ranges_after_prefix(p, y, j + 2, j + 2, sq, dq);
            lemma_shifted_prepend((s, j), segment_ranges(y, j + 2, j + 2, sq, dq), d);
        } else if !sq && !dq && j + 1 < y.len() && y[j] == PIPE && y[j + 1] == PIPE {
            lemma_ranges_after_prefix(p, y, j + 2, j + 2, sq, dq);
            lemma_shifted_prepend((s, j), segment_ranges(y, j + 2, j + 2, sq, dq), d);
        } else if !sq && !dq && y[j] == PIPE {
            lemma_ranges_after_prefix(p, y, j + 1, j + 1, sq, dq);
            lemma_shifted_prepend((s, j), segment_ranges(y, j + 1, j + 1, sq, dq), d);
        } else {
            lemma_ranges_after_prefix(p, y, j + 1, s, sq, dq);
        }
    }
}

/// Before the `&&`, a side that is one segment with its quotes closed scans
/// the same inside the chain, which splits right after it.
proof fn lemma_ranges_before_and(a: Seq<u8>, y: Seq<u8>, i: int, sq: bool, dq: bool)
    requires
        0 <= i <= a.len(),
        a.len() > 0,
        segment_ranges(a, i, 0, sq, dq) == seq![(0int, a.len() as int)],
        quote_state_after(a, i, sq, dq) == (false, false),
        a.last() != AMPERSAND,
    ensures
        segment_ranges(a + seq![AMPERSAND, AMPERSAND] + y, i, 0, sq, dq) == seq![(0int, a.len() as int)]
            + segment_ranges(
            a + seq![AMPERSAND, AMPERSAND] + y,
            a.len() + 2int,
            a.len() + 2int,
            false,
            false,
        ),
    decreases a.len() - i,
{
    let c = a + seq![AMPERSAND, AMPERSAND] + y;
    let la = a.len() as int;
    assert(c[la] == AMPERSAND);
    assert(c[la + 1] == AMPERSAND);
    if i < la {
        assert(c[i] == a[i]);
        if i + 1 < la {
            assert(c[i + 1] == a[i + 1]);
        }
        if a[i] == SQ && !dq {
            lemma_ranges_before_and(a, y, i + 1, !sq, dq);
        } else if a[i] == DQ && !sq {
            lemma_ranges_before_and(a, y, i + 1, sq, !dq);
        } else if a[i] == BACKSLASH && dq && i + 1 < la {
            lemma_ranges_before_and(a, y, i + 2, sq, dq);
        } else if a[i] == BACKSLASH && dq {
            assert(quote_state_after(a, i + 1, sq, dq) == (sq, dq));
        } else if !sq && !dq && (a[i] == NEWLINE || a[i] == SEMICOLON) {
            assert((seq![(0int, i)] + segment_ranges(a, i + 1, i + 1, sq, dq))[0] == (0int, i));
        } else if !sq && !dq && i + 1 < la && a[i] == AMPERSAND && a[i + 1] == AMPERSAND {
            assert((seq![(0int, i)] + segment_ranges(a, i + 2, i + 2, sq, dq))[0] == (0int, i));
        } else if !sq && !dq && i + 1 < la && a[i] == PIPE && a[i + 1] == PIPE {
            assert((seq![(0int, i)] + segment_ranges(a, i + 2, i + 2, sq, dq))[0] == (0int, i));
        } else if !sq && !dq && a[i] == PIPE {
            assert((seq![(0int, i)] + segment_ranges(a, i + 1, i + 1, sq, dq))[0] == (0int, i));
        } else {
            if i + 1 == la {
                assert(a[i] == a.last());
            }
            lemma_ranges_before_and(a, y, i + 1, sq, dq);
        }
    }
}

/// What one trimmed, non-empty segment adds to the warnings `acc`: the
/// answer for its inline script, or for its command substitutions, its hard
/// block and its soft warning.
spec fn segment_step(s: Seq<u8>, acc: Seq<Seq<char>>) -> Result<Seq<Seq<char>>, Seq<char>> {
    match inline_script_of(s) {
        Some(script) => match safety_verdict(script) {
            Err(m) => Err(m),
            Ok(ws) => Ok(acc + ws),
        },
        None => match substitutions_verdict(s, substitutions_of(s), 0, acc) {
            Err(m) => Err(m),
            Ok(acc2) => match hard_block_of(s) {
                Some(m) => Err(m),
                None => Ok(
                    match soft_warning_of(s) {
                        Some(w) => acc2.push(w),
                        None => acc2,
                    },
                ),
            },
        },
    }
}

/// Warnings gathered before an answer are kept in front of it.
spec fn after(acc: Seq<Seq<char>>, r: Result<Seq<Seq<char>>, Seq<char>>) -> Result<Seq<Seq<char>>, Seq<char>> {
    match r {
        Err(m) => Err(m),
        Ok(w) => Ok(acc + w),
    }
}

proof fn lemma_substitutions_any_bound(
    b1: Seq<u8>,
    b2: Seq<u8>,
    subs: Seq<Seq<u8>>,
    j: int,
    acc: Seq<Seq<char>>,
)
    requires
        0 <= j,
        forall|k: int| 0 <= k < subs.len() ==> (#[trigger] subs[k]).len() < b1.len() && subs[k].len() < b2.len(),
    ensures
        substitutions_verdict(b1, subs, j, acc) == substitutions_verdict(b2, subs, j, acc),
    decreases subs.len() - j,
{
    if j < subs.len() {
        assert(subs[j].len() < b1.len());
        match safety_verdict(subs[j]) {
            Err(_) => {},
            Ok(ws) => lemma_substitutions_any_bound(b1, b2, subs, j + 1, acc + ws),
        }
    }
}

proof fn lemma_substitutions_keep_acc(b: Seq<u8>, subs: Seq<Seq<u8>>, j: int, acc: Seq<Seq<char>>)
    requires
        0 <= j,
    ensures
        substitutions_verdict(b, subs, j, acc) == after(acc, substitutions_verdict(b, subs, j, seq![])),
    decreases subs.len() - j,
{
    if j >= subs.len() {
        assert(acc + Seq::<Seq<char>>::empty() =~= acc);
    } else if subs[j].len() < b.len() {
        match safety_verdict(subs[j]) {
            Err(_) => {},
            Ok(ws) => {
                lemma_substitutions_keep_acc(b, subs, j + 1, acc + ws);
                lemma_substitutions_keep_acc(b, subs, j + 1, ws);
                assert(Seq::<Seq<char>>::empty() + ws =~= ws);
                match substitutions_verdict(b, subs, j + 1, seq![]) {
                    Err(_) => {},
                    Ok(w) => {
                        assert(acc + (ws + w) =~= acc + ws + w);
                    },
                }
            },
        }
    } else {
        assert(acc + Seq::<Seq<char>>::empty() =~= acc);
    }
}

proof fn lemma_step_keeps_acc(s: Seq<u8>, acc: Seq<Seq<char>>)
    ensures
        segment_step(s, acc) == after(acc, segment_step(s, seq![])),
{
    match inline_script_of(s) {
        Some(script) => match safety_verdict(script) {
            Err(_) => {},
            Ok(ws) => {
                assert(Seq::<Seq<char>>::empty() + ws =~= ws);
            },
        },
        None => {
            lemma_substitutions_keep_acc(s, substitutions_of(s), 0, acc);
            match substitutions_verdict(s, substitutions_of(s), 0, seq![]) {
                Err(_) => {},
                Ok(w2) => match soft_warning_of(s) {
                    Some(w) => {
                        assert((acc + w2).push(w) =~= acc + w2.push(w));
                    },
                    None => {},
                },
            }
        },
    }
}

/// A trimmed, non-empty segment `k` of a command `b` is judged by
/// `segment_step`, whatever command it was cut from.
proof fn lemma_segment_is_one_step(b: Seq<u8>, segs: Seq<Seq<u8>>, k: int, acc: Seq<Seq<char>>)
    requires
        0 <= k < segs.len(),
        trimmed_bytes(segs[k]) == segs[k],
        segs[k].len() > 0,
        segs[k].len() <= b.len(),
        valid_utf8(segs[k]),
    ensures
        segments_verdict(b, segs, k, acc) == match segment_step(segs[k], acc) {
            Err(m) => Err(m),
            Ok(next) => segments_verdict(b, segs, k + 1, next),
        },
{
    let s = segs[k];
    lemma_inline_script_shorter(s);
    lemma_substitutions_shorter(s, 0, false, false);
    let subs = substitutions_of(s);
    assert forall|j: int| 0 <= j < subs.len() implies (#[trigger] subs[j]).len() < b.len() && subs[j].len()
        < s.len() by {}
    lemma_substitutions_any_bound(b, s, subs, 0, acc);
}

/// A command that is a single segment, trimmed, is judged by one step.
proof fn lemma_single_segment_verdict(chars: Seq<char>)
    requires
        chars.len() > 0,
        !is_whitespace_char(chars[0]),
        !is_whitespace_char(chars.last()),
        segments_of(encode_utf8(chars)) == seq![encode_utf8(chars)],
    ensures
        trimmed_bytes(encode_utf8(chars)) == encode_utf8(chars),
        safety_verdict(encode_utf8(chars)) == segment_step(encode_utf8(chars), seq![]),
{
    let b = encode_utf8(chars);
    lemma_trim_identity(chars);
    encode_utf8_decode_utf8(chars);
    encode_utf8_valid_utf8(chars);
    lemma_encode_nonempty(chars);
    lemma_segment_is_one_step(b, seq![b], 0, seq![]);
    match segment_step(b, seq![]) {
        Err(_) => {},
        Ok(_) => {},
    }
}

proof fn lemma_encode_nonempty(chars: Seq<char>)
    requires
        chars.len() > 0,
    ensures
        encode_utf8(chars).len() > 0,
{
    assert(encode_utf8(chars) == encode_scalar(chars[0] as u32) + encode_utf8(chars.drop_first()));
}

proof fn lemma_trim_identity(chars: Seq<char>)
    requires
        chars.len() > 0,
        !is_whitespace_char(chars[0]),
        !is_whitespace_char(chars.last()),
    ensures
        trim_chars(chars) == chars,
{
    assert(trim_start_chars(chars) == chars);
    assert(trim_end_chars(chars) == chars);
}

proof fn lemma_chain_bytes(a: Seq<char>, b: Seq<char>)
    ensures
        encode_utf8(a + seq!['&', '&'] + b) == encode_utf8(a) + seq![AMPERSAND, AMPERSAND] + encode_utf8(b),
{
    let amp = seq!['&', '&'];
    assert(is_ascii_chars(amp));
    is_ascii_chars_encode_utf8(amp);
    assert(encode_utf8(amp) =~= seq![AMPERSAND, AMPERSAND]);
    lemma_encode_concat(a, amp);
    lemma_encode_concat(a + amp, b);
}

proof fn lemma_one_range(b: Seq<u8>)
    requires
        segments_of(b) == seq![b],
    ensures
        segment_ranges(b, 0, 0, false, false) == seq![(0int, b.len() as int)],
{
    let r = segment_ranges(b, 0, 0, false, false);
    super::parse::lemma_segment_ranges_sound(b, 0, 0, false, false);
    assert(seq![b].len() == 1);
    assert(segments_of(b).len() == r.len());
    assert(r.len() == 1);
    assert(segments_of(b)[0] == b.subrange(r[0].0, r[0].1));
    assert(0 <= r[0].0 <= r[0].1 <= b.len());
    assert(r =~= seq![(0int, b.len() as int)]);
}

proof fn lemma_chain_segments(ab: Seq<u8>, bb: Seq<u8>)
    requires
        ab.len() > 0,
        bb.len() > 0,
        segments_of(ab) == seq![ab],
        segments_of(bb) == seq![bb],
        quotes_closed(ab),
        ab.last() != AMPERSAND,
    ensures
        segments_of(ab + seq![AMPERSAND, AMPERSAND] + bb) == seq![ab, bb],
{
    let p = ab + seq![AMPERSAND, AMPERSAND];
    let cb = p + bb;
    lemma_one_range(ab);
    lemma_one_range(bb);
    lemma_ranges_before_and(ab, bb, 0, false, false);
    lemma_ranges_after_prefix(p, bb, 0, 0, false, false);
    let rb = segment_ranges(bb, 0, 0, false, false);
    assert(shifted(rb, p.len() as int) =~= seq![(p.len() as int, cb.len() as int)]);
    let rc = segment_ranges(cb, 0, 0, false, false);
    assert(rc =~= seq![(0int, ab.len() as int), (p.len() as int, cb.len() as int)]);
    assert(cb.subrange(0, ab.len() as int) =~= ab);
    assert(cb.subrange(p.len() as int, cb.len() as int) =~= bb);
    assert(segments_of(cb) =~= seq![ab, bb]);
}

/// Two commands chained with `&&` are judged as each alone, in turn: the
/// chain is refused with the first side's refusal, else with the second's,
/// and otherwise carries the first side's warnings followed by the
/// second's.  This holds where each side is one segment (no unquoted `;`,
/// newline, `&&`, `||` or `|`), has no leading or trailing whitespace,
/// closes every quote it opens (so the `&&` is not quoted), and the first
/// side does not end in `&` (which would make `&&&`).
pub proof fn lemma_and_chain_verdict(a: Seq<char>, b: Seq<char>)
    requires
        a.len() > 0,
        !is_whitespace_char(a[0]),
        !is_whitespace_char(a.last()),
        b.len() > 0,
        !is_whitespace_char(b[0]),
        !is_whitespace_char(b.last()),
        segments_of(encode_utf8(a)) == seq![encode_utf8(a)],
        segments_of(encode_utf8(b)) == seq![encode_utf8(b)],
        quotes_closed(encode_utf8(a)),
        encode_utf8(a).last() != AMPERSAND,
    ensures
        safety_verdict(encode_utf8(a + seq!['&', '&'] + b)) == match safety_verdict(encode_utf8(a)) {
            Err(m) => Err(m),
            Ok(wa) => match safety_verdict(encode_utf8(b)) {
                Err(m) => Err(m),
                Ok(wb) => Ok(wa + wb),
            },
        },
{
    let ab = encode_utf8(a);
    let bb = encode_utf8(b);
    let c = a + seq!['&', '&'] + b;
    let cb = encode_utf8(c);
    lemma_chain_bytes(a, b);
    lemma_encode_nonempty(a);
    lemma_encode_nonempty(b);
    assert(c[0] == a[0]);
    assert(c.last() == b.last());
    lemma_trim_identity(c);
    encode_utf8_decode_utf8(c);
    assert(trimmed_bytes(cb) == cb);
    lemma_chain_segments(ab, bb);

    // Each side alone is one step; in the chain the steps follow each other.
    lemma_single_segment_verdict(a);
    lemma_single_segment_verdict(b);
    encode_utf8_valid_utf8(a);
    encode_utf8_valid_utf8(b);
    let segs = seq![ab, bb];
    lemma_segment_is_one_step(cb, segs, 0, seq![]);
    match segment_step(ab, seq![]) {
        Err(_) => {},
        Ok(wa) => {
            lemma_segment_is_one_step(cb, segs, 1, wa);
            lemma_step_keeps_acc(bb, wa);
        },
    }
}

// =============================================================================
// Chains of quote-free commands
// =============================================================================

/// The bytes hold no quote character.
pub open spec fn quote_free(b: Seq<u8>) -> bool {
    forall|i: int| 0 <= i < b.len() ==> b[i] != SQ && b[i] != DQ
}

/// The segments a verdict looks at: each segment trimmed, blank ones left out.
pub open spec fn judged_segments(segs: Seq<Seq<u8>>) -> Seq<Seq<u8>>
    decreases segs.len(),
{
    if segs.len() == 0 {
        seq![]
    } else {
        (if trimmed_bytes(segs[0]).len() > 0 {
            seq![trimmed_bytes(segs[0])]
        } else {
            Seq::<Seq<u8>>::empty()
        }) + judged_segments(segs.drop_first())
    }
}

/// The answer for the judged segments `l` in turn, with the warnings `acc`
/// gathered so far.
spec fn steps(l: Seq<Seq<u8>>, acc: Seq<Seq<char>>) -> Result<Seq<Seq<char>>, Seq<char>>
    decreases l.len(),
{
    if l.len() == 0 {
        Ok(acc)
    } else {
        match segment_step(l[0], acc) {
            Err(m) => Err(m),
            Ok(next) => steps(l.drop_first(), next),
        }
    }
}

/// The segments of quote-free bytes from byte `i` on, with `cur` the bytes of
/// the segment being read.
spec fn pieces_from(x: Seq<u8>, i: int, cur: Seq<u8>) -> Seq<Seq<u8>>
    decreases x.len() - i,
{
    if i < 0 || i >= x.len() {
        if cur.len() > 0 {
            seq![cur]
        } else {
            seq![]
        }
    } else if x[i] == NEWLINE || x[i] == SEMICOLON {
        seq![cur] + pieces_from(x, i + 1, seq![])
    } else if i + 1 < x.len() && x[i] == AMPERSAND && x[i + 1] == AMPERSAND {
        seq![cur] + pieces_from(x, i + 2, seq![])
    } else if i + 1 < x.len() && x[i] == PIPE && x[i + 1] == PIPE {
        seq![cur] + pieces_from(x, i + 2, seq![])
    } else if x[i] == PIPE {
        seq![cur] + pieces_from(x, i + 1, seq![])
    } else {
        pieces_from(x, i + 1, cur.push(x[i]))
    }
}

/// The segments closed by a separator before the end of `x`.
spec fn closed_from(x: Seq<u8>, i: int, cur: Seq<u8>) -> Seq<Seq<u8>>
    decreases x.len() - i,
{
    if i < 0 || i >= x.len() {
        seq![]
    } else if x[i] == NEWLINE || x[i] == SEMICOLON {
        seq![cur] + closed_from(x, i + 1, seq![])
    } else if i + 1 < x.len() && x[i] == AMPERSAND && x[i + 1] == AMPERSAND {
        seq![cur] + closed_from(x, i + 2, seq![])
    } else if i + 1 < x.len() && x[i] == PIPE && x[i + 1] == PIPE {
        seq![cur] + closed_from(x, i + 2, seq![])
    } else if x[i] == PIPE {
        seq![cur] + closed_from(x, i + 1, seq![])
    } else {
        closed_from(x, i + 1, cur.push(x[i]))
    }
}

/// The bytes of the segment still open at the end of `x`.
spec fn open_from(x: Seq<u8>, i: int, cur: Seq<u8>) -> Seq<u8>
    decreases x.len() - i,
{
    if i < 0 || i >= x.len() {
        cur
    } else if x[i] == NEWLINE || x[i] == SEMICOLON {
        open_from(x, i + 1, seq![])
    } else if i + 1 < x.len() && x[i] == AMPERSAND && x[i + 1] == AMPERSAND {
        open_from(x, i + 2, seq![])
    } else if i + 1 < x.len() && x[i] == PIPE && x[i + 1] == PIPE {
        open_from(x, i + 2, seq![])
    } else if x[i] == PIPE {
        open_from(x, i + 1, seq![])
    } else {
        open_from(x, i + 1, cur.push(x[i]))
    }
}

proof fn lemma_map_prepend(x: Seq<u8>, r: (int, int), rest: Seq<(int, int)>)
    ensures
        (seq![r] + rest).map_values(|q: (int, int)| x.subrange(q.0, q.1)) == seq![x.subrange(r.0, r.1)]
            + rest.map_values(|q: (int, int)| x.subrange(q.0, q.1)),
{
    assert((seq![r] + rest).map_values(|q: (int, int)| x.subrange(q.0, q.1)) =~= seq![x.subrange(r.0, r.1)]
        + rest.map_values(|q: (int, int)| x.subrange(q.0, q.1)));
}

/// On quote-free bytes the scanner's segments are the separator-split pieces.
proof fn lemma_ranges_are_pieces(x: Seq<u8>, i: int, start: int)
    requires
        quote_free(x),
        0 <= start <= i <= x.len(),
    ensures
        segment_ranges(x, i, start, false, false).map_values(|q: (int, int)| x.subrange(q.0, q.1))
            == pieces_from(x, i, x.subrange(start, i)),
    decreases x.len() - i,
{
    if i >= x.len() {
        if start < x.len() {
            assert(seq![(start, x.len() as int)].map_values(|q: (int, int)| x.subrange(q.0, q.1)) =~= seq![
                x.subrange(start, i),
            ]);
        } else {
            assert(Seq::<(int, int)>::empty().map_values(|q: (int, int)| x.subrange(q.0, q.1)) =~= Seq::<
                Seq<u8>,
            >::empty());
        }
    } else {
        assert(x[i] != SQ && x[i] != DQ);
        if x[i] == NEWLINE || x[i] == SEMICOLON || x[i] == PIPE {
            if i + 1 < x.len() && x[i] == PIPE && x[i + 1] == PIPE {
                lemma_ranges_are_pieces(x, i + 2, i + 2);
                lemma_map_prepend(x, (start, i), segment_ranges(x, i + 2, i + 2, false, false));
                assert(x.subrange(i + 2, i + 2) =~= Seq::<u8>::empty());
            } else {
                lemma_ranges_are_pieces(x, i + 1, i + 1);
                lemma_map_prepend(x, (start, i), segment_ranges(x, i + 1, i + 1, false, false));
                assert(x.subrange(i + 1, i + 1) =~= Seq::<u8>::empty());
            }
        } else if i + 1 < x.len() && x[i] == AMPERSAND && x[i + 1] == AMPERSAND {
            lemma_ranges_are_pieces(x, i + 2, i + 2);
            lemma_map_prepend(x, (start, i), segment_ranges(x, i + 2, i + 2, false, false));
            assert(x.subrange(i + 2, i + 2) =~= Seq::<u8>::empty());
        } else {
            lemma_ranges_are_pieces(x, i + 1, start);
            assert(x.subrange(start, i).push(x[i]) =~= x.subrange(start, i + 1));
        }
    }
}

proof fn lemma_segments_are_pieces(x: Seq<u8>)
    requires
        quote_free(x),
    ensures
        segments_of(x) == pieces_from(x, 0, seq![]),
{
    lemma_ranges_are_pieces(x, 0, 0);
    assert(x.subrange(0, 0) =~= Seq::<u8>::empty());
}

/// The pieces split into those closed before the end and the open one.
proof fn lemma_pieces_closed_open(x: Seq<u8>, i: int, cur: Seq<u8>)
    requires
        0 <= i <= x.len(),
    ensures
        pieces_from(x, i, cur) == closed_from(x, i, cur) + (if open_from(x, i, cur).len() > 0 {
            seq![open_from(x, i, cur)]
        } else {
            Seq::<Seq<u8>>::empty()
        }),
    decreases x.len() - i,
{
    if i >= x.len() {
        assert(Seq::<Seq<u8>>::empty() + seq![cur] =~= seq![cur]);
        assert(Seq::<Seq<u8>>::empty() + Seq::<Seq<u8>>::empty() =~= Seq::<Seq<u8>>::empty());
    } else if x[i] == NEWLINE || x[i] == SEMICOLON {
        lemma_pieces_closed_open(x, i + 1, seq![]);
    } else if i + 1 < x.len() && x[i] == AMPERSAND && x[i + 1] == AMPERSAND {
        lemma_pieces_closed_open(x, i + 2, seq![]);
    } else if i + 1 < x.len() && x[i] == PIPE && x[i + 1] == PIPE {
        lemma_pieces_closed_open(x, i + 2, seq![]);
    } else if x[i] == PIPE {
        lemma_pieces_closed_open(x, i + 1, seq![]);
    } else {
        lemma_pieces_closed_open(x, i + 1, cur.push(x[i]));
    }
}

/// Reading past a prefix reads the rest on its own.
proof fn lemma_pieces_after_prefix(p: Seq<u8>, y: Seq<u8>, j: int, cur: Seq<u8>)
    requires
        0 <= j <= y.len(),
    ensures
        pieces_from(p + y, p.len() + j, cur) == pieces_from(y, j, cur),
    decreases y.len() - j,
{
    let z = p + y;
    let d = p.len() as int;
    if j < y.len() {
        assert(z[d + j] == y[j]);
        if j + 1 < y.len() {
            assert(z[d + j + 1] == y[j + 1]);
        }
        if y[j] == NEWLINE || y[j] == SEMICOLON {
            lemma_pieces_after_prefix(p, y, j + 1, seq![]);
        } else if j + 1 < y.len() && y[j] == AMPERSAND && y[j + 1] == AMPERSAND {
            lemma_pieces_after_prefix(p, y, j + 2, seq![]);
        } else if j + 1 < y.len() && y[j] == PIPE && y[j + 1] == PIPE {
            lemma_pieces_after_prefix(p, y, j + 2, seq![]);
        } else if y[j] == PIPE {
            lemma_pieces_after_prefix(p, y, j + 1, seq![]);
        } else {
            lemma_pieces_after_prefix(p, y, j + 1, cur.push(y[j]));
        }
    }
}

/// Reading `x` followed by `w` (which does not start with `&` or `|`, so
/// nothing at the end of `x` reads as a longer separator): the pieces closed
/// in `x`, then the pieces of `w` continuing the segment open at the end of
/// `x`.
proof fn lemma_pieces_concat(x: Seq<u8>, w: Seq<u8>, i: int, cur: Seq<u8>)
    requires
        0 <= i <= x.len(),
        w.len() > 0,
        w[0] != AMPERSAND && w[0] != PIPE,
    ensures
        pieces_from(x + w, i, cur) == closed_from(x, i, cur) + pieces_from(w, 0, open_from(x, i, cur)),
    decreases x.len() - i,
{
    let z = x + w;
    if i >= x.len() {
        lemma_pieces_after_prefix(x, w, 0, cur);
        assert(Seq::<Seq<u8>>::empty() + pieces_from(w, 0, cur) =~= pieces_from(w, 0, cur));
    } else {
        assert(z[i] == x[i]);
        if i + 1 < x.len() {
            assert(z[i + 1] == x[i + 1]);
        } else {
            assert(z[i + 1] == w[0]);
        }
        if x[i] == NEWLINE || x[i] == SEMICOLON {
            lemma_pieces_concat(x, w, i + 1, seq![]);
            assert(seq![cur] + closed_from(x, i + 1, seq![]) + pieces_from(w, 0, open_from(x, i + 1, seq![]))
                =~= seq![cur] + (closed_from(x, i + 1, seq![]) + pieces_from(w, 0, open_from(x, i + 1, seq![]))));
        } else if i + 1 < x.len() && x[i] == AMPERSAND && x[i + 1] == AMPERSAND {
            lemma_pieces_concat(x, w, i + 2, seq![]);
            assert(seq![cur] + closed_from(x, i + 2, seq![]) + pieces_from(w, 0, open_from(x, i + 2, seq![]))
                =~= seq![cur] + (closed_from(x, i + 2, seq![]) + pieces_from(w, 0, open_from(x, i + 2, seq![]))));
        } else if i + 1 < x.len() && x[i] == PIPE && x[i + 1] == PIPE {
            lemma_pieces_concat(x, w, i + 2, seq![]);
            assert(seq![cur] + closed_from(x, i + 2, seq![]) + pieces_from(w, 0, open_from(x, i + 2, seq![]))
                =~= seq![cur] + (closed_from(x, i + 2, seq![]) + pieces_from(w, 0, open_from(x, i + 2, seq![]))));
        } else if x[i] == PIPE {
            lemma_pieces_concat(x, w, i + 1, seq![]);
            assert(seq![cur] + closed_from(x, i + 1, seq![]) + pieces_from(w, 0, open_from(x, i + 1, seq![]))
                =~= seq![cur] + (closed_from(x, i + 1, seq![]) + pieces_from(w, 0, open_from(x, i + 1, seq![]))));
        } else {
            lemma_pieces_concat(x, w, i + 1, cur.push(x[i]));
        }
    }
}

/// A segment read with bytes `pre` in front: the first piece gains them (or
/// they stand alone when nothing else is read).
proof fn lemma_pieces_with_front(y: Seq<u8>, j: int, pre: Seq<u8>, cur: Seq<u8>)
    requires
        0 <= j <= y.len(),
        pre.len() > 0,
    ensures
        pieces_from(y, j, pre + cur) == if pieces_from(y, j, cur).len() == 0 {
            seq![pre]
        } else {
            seq![pre + pieces_from(y, j, cur)[0]] + pieces_from(y, j, cur).drop_first()
        },
    decreases y.len() - j,
{
    let l = pieces_from(y, j, cur);
    if j >= y.len() {
        if cur.len() == 0 {
            assert(pre + cur =~= pre);
        }
    } else if y[j] == NEWLINE || y[j] == SEMICOLON || y[j] == PIPE || (j + 1 < y.len() && y[j] == AMPERSAND
        && y[j + 1] == AMPERSAND) {
        assert(l[0] == cur);
        if y[j] == PIPE && j + 1 < y.len() && y[j + 1] == PIPE {
            assert(l.drop_first() =~= pieces_from(y, j + 2, seq![]));
        } else if y[j] == AMPERSAND {
            assert(l.drop_first() =~= pieces_from(y, j + 2, seq![]));
        } else {
            assert(l.drop_first() =~= pieces_from(y, j + 1, seq![]));
        }
    } else {
        lemma_pieces_with_front(y, j + 1, pre, cur.push(y[j]));
        assert((pre + cur).push(y[j]) =~= pre + cur.push(y[j]));
    }
}

proof fn lemma_judged_concat(a: Seq<Seq<u8>>, b: Seq<Seq<u8>>)
    ensures
        judged_segments(a + b) == judged_segments(a) + judged_segments(b),
    decreases a.len(),
{
    if a.len() == 0 {
        assert(a + b =~= b);
        assert(Seq::<Seq<u8>>::empty() + judged_segments(b) =~= judged_segments(b));
    } else {
        assert((a + b)[0] == a[0]);
        assert((a + b).drop_first() =~= a.drop_first() + b);
        lemma_judged_concat(a.drop_first(), b);
        let h = if trimmed_bytes(a[0]).len() > 0 {
            seq![trimmed_bytes(a[0])]
        } else {
            Seq::<Seq<u8>>::empty()
        };
        assert(h + (judged_segments(a.drop_first()) + judged_segments(b)) =~= h + judged_segments(a.drop_first())
            + judged_segments(b));
    }
}

proof fn lemma_judged_one(s: Seq<u8>)
    ensures
        judged_segments(seq![s]) == if trimmed_bytes(s).len() > 0 {
            seq![trimmed_bytes(s)]
        } else {
            Seq::<Seq<u8>>::empty()
        },
{
    assert(seq![s][0] == s);
    assert(seq![s].drop_first() =~= Seq::<Seq<u8>>::empty());
    assert(judged_segments(Seq::<Seq<u8>>::empty()) == Seq::<Seq<u8>>::empty());
    assert(seq![trimmed_bytes(s)] + Seq::<Seq<u8>>::empty() =~= seq![trimmed_bytes(s)]);
    assert(Seq::<Seq<u8>>::empty() + Seq::<Seq<u8>>::empty() =~= Seq::<Seq<u8>>::empty());
}

proof fn lemma_space_bytes()
    ensures
        encode_utf8(seq![' ']) == seq![SPACE],
        valid_utf8(seq![SPACE]),
{
    assert(is_ascii_chars(seq![' ']));
    is_ascii_chars_encode_utf8(seq![' ']);
    assert(encode_utf8(seq![' ']) =~= seq![SPACE]);
    encode_utf8_valid_utf8(seq![' ']);
}

proof fn lemma_trim_start_push_space(t: Seq<char>)
    ensures
        trim_start_chars(t.push(' ')) == if trim_start_chars(t).len() == 0 {
            Seq::<char>::empty()
        } else {
            trim_start_chars(t).push(' ')
        },
    decreases t.len(),
{
    if t.len() == 0 {
        lemma_trim_start_lone_space();
        assert(t.push(' ') =~= seq![' ']);
    } else {
        assert(t.push(' ')[0] == t[0]);
        if is_whitespace_char(t[0]) {
            assert(t.push(' ').drop_first() =~= t.drop_first().push(' '));
            lemma_trim_start_push_space(t.drop_first());
        }
    }
}

/// A space before or after a segment does not change it once trimmed.
proof fn lemma_trimmed_ignores_spaces(s: Seq<u8>)
    requires
        valid_utf8(s),
    ensures
        trimmed_bytes(seq![SPACE] + s) == trimmed_bytes(s),
        trimmed_bytes(s + seq![SPACE]) == trimmed_bytes(s),
        trimmed_bytes(seq![SPACE]).len() == 0,
{
    let t = decode_utf8(s);
    decode_utf8_encode_utf8(s);
    lemma_space_bytes();
    lemma_encode_concat(seq![' '], t);
    lemma_encode_concat(t, seq![' ']);
    encode_utf8_decode_utf8(seq![' '] + t);
    encode_utf8_decode_utf8(t + seq![' ']);
    encode_utf8_decode_utf8(seq![' ']);
    // leading space
    assert((seq![' '] + t)[0] == ' ');
    assert((seq![' '] + t).drop_first() =~= t);
    assert(trim_start_chars(seq![' '] + t) == trim_start_chars(t));
    // trailing space
    assert(t + seq![' '] =~= t.push(' '));
    lemma_trim_start_push_space(t);
    let u = trim_start_chars(t);
    if u.len() > 0 {
        assert(u.push(' ').drop_last() =~= u);
        assert(trim_end_chars(u.push(' ')) == trim_end_chars(u));
    }
    // a lone space
    lemma_trim_start_lone_space();
}

proof fn lemma_trim_start_lone_space()
    ensures
        trim_start_chars(seq![' ']) == Seq::<char>::empty(),
{
    assert(seq![' '][0] == ' ');
    assert(is_whitespace_char(' '));
    assert(seq![' '].drop_first() =~= Seq::<char>::empty());
    assert(trim_start_chars(Seq::<char>::empty()) == Seq::<char>::empty());
}

/// Every segment of a valid UTF-8 command is valid UTF-8.
proof fn lemma_segments_valid(t: Seq<u8>)
    requires
        valid_utf8(t),
    ensures
        forall|k: int| 0 <= k < segments_of(t).len() ==> valid_utf8(#[trigger] segments_of(t)[k]),
{
    let rs = segment_ranges(t, 0, 0, false, false);
    super::parse::lemma_segment_ranges_sound(t, 0, 0, false, false);
    assert forall|k: int| 0 <= k < segments_of(t).len() implies valid_utf8(#[trigger] segments_of(t)[k]) by {
        let r = rs[k];
        assert(0 <= r.0 <= r.1 <= t.len());
        lemma_end_boundaries(t);
        if r.0 > 0 {
            lemma_ascii_boundaries(t, r.0 - 1);
        }
        valid_utf8_split(t, r.0);
        let u = t.subrange(r.0, t.len() as int);
        lemma_end_boundaries(u);
        if r.1 < t.len() {
            assert(u[r.1 - r.0] == t[r.1]);
            lemma_ascii_boundaries(u, r.1 - r.0);
        }
        valid_utf8_split(u, r.1 - r.0);
        assert(u.subrange(0, r.1 - r.0) =~= t.subrange(r.0, r.1));
    }
}

/// A trimmed, non-blank segment `k` of a command `b` is judged by
/// `segment_step`, whatever command it was cut from.
proof fn lemma_trimmed_segment_is_one_step(b: Seq<u8>, segs: Seq<Seq<u8>>, k: int, acc: Seq<Seq<char>>)
    requires
        0 <= k < segs.len(),
        valid_utf8(segs[k]),
        trimmed_bytes(segs[k]).len() > 0,
        segs[k].len() <= b.len(),
    ensures
        segments_verdict(b, segs, k, acc) == match segment_step(trimmed_bytes(segs[k]), acc) {
            Err(m) => Err(m),
            Ok(next) => segments_verdict(b, segs, k + 1, next),
        },
{
    let s = trimmed_bytes(segs[k]);
    decode_utf8_encode_utf8(segs[k]);
    lemma_encode_trim_len(decode_utf8(segs[k]));
    encode_utf8_valid_utf8(trim_chars(decode_utf8(segs[k])));
    lemma_inline_script_shorter(s);
    lemma_substitutions_shorter(s, 0, false, false);
    let subs = substitutions_of(s);
    assert forall|j: int| 0 <= j < subs.len() implies (#[trigger] subs[j]).len() < b.len() && subs[j].len()
        < s.len() by {}
    lemma_substitutions_any_bound(b, s, subs, 0, acc);
}

/// The verdict over segments `k..` is the judged segments' steps.
proof fn lemma_segments_verdict_steps(b: Seq<u8>, segs: Seq<Seq<u8>>, k: int, acc: Seq<Seq<char>>)
    requires
        0 <= k <= segs.len(),
        forall|j: int| 0 <= j < segs.len() ==> valid_utf8(#[trigger] segs[j]) && segs[j].len() <= b.len(),
    ensures
        segments_verdict(b, segs, k, acc) == steps(judged_segments(segs.subrange(k, segs.len() as int)), acc),
    decreases segs.len() - k,
{
    let sub = segs.subrange(k, segs.len() as int);
    if k == segs.len() {
        assert(sub =~= Seq::<Seq<u8>>::empty());
    } else {
        assert(sub[0] == segs[k]);
        assert(sub.drop_first() =~= segs.subrange(k + 1, segs.len() as int));
        let t = trimmed_bytes(segs[k]);
        if t.len() == 0 {
            lemma_segments_verdict_steps(b, segs, k + 1, acc);
            assert(Seq::<Seq<u8>>::empty() + judged_segments(sub.drop_first()) =~= judged_segments(
                sub.drop_first(),
            ));
        } else {
            lemma_trimmed_segment_is_one_step(b, segs, k, acc);
            let j = judged_segments(sub);
            assert(j == seq![t] + judged_segments(sub.drop_first()));
            assert(j[0] == t);
            assert(j.drop_first() =~= judged_segments(sub.drop_first()));
            match segment_step(t, acc) {
                Err(_) => {},
                Ok(next) => {
                    lemma_segments_verdict_steps(b, segs, k + 1, next);
                },
            }
        }
    }
}

proof fn lemma_steps_concat(l1: Seq<Seq<u8>>, l2: Seq<Seq<u8>>, acc: Seq<Seq<char>>)
    ensures
        steps(l1 + l2, acc) == match steps(l1, acc) {
            Err(m) => Err(m),
            Ok(a) => steps(l2, a),
        },
    decreases l1.len(),
{
    if l1.len() == 0 {
        assert(l1 + l2 =~= l2);
    } else {
        assert((l1 + l2)[0] == l1[0]);
        assert((l1 + l2).drop_first() =~= l1.drop_first() + l2);
        match segment_step(l1[0], acc) {
            Err(_) => {},
            Ok(next) => lemma_steps_concat(l1.drop_first(), l2, next),
        }
    }
}

proof fn lemma_steps_keep_acc(l: Seq<Seq<u8>>, acc: Seq<Seq<char>>)
    ensures
        steps(l, acc) == after(acc, steps(l, seq![])),
    decreases l.len(),
{
    if l.len() == 0 {
        assert(acc + Seq::<Seq<char>>::empty() =~= acc);
    } else {
        lemma_step_keeps_acc(l[0], acc);
        match segment_step(l[0], seq![]) {
            Err(_) => {},
            Ok(w0) => {
                assert(Seq::<Seq<char>>::empty() + w0 =~= w0);
                lemma_steps_keep_acc(l.drop_first(), acc + w0);
                lemma_steps_keep_acc(l.drop_first(), w0);
                match steps(l.drop_first(), seq![]) {
                    Err(_) => {},
                    Ok(w) => {
                        assert(acc + (w0 + w) =~= acc + w0 + w);
                    },
                }
            },
        }
    }
}

/// The judged segments of `x && y` (spaces around the `&&`) are those of `x`
/// followed by those of `y`, for quote-free valid `x` and `y`.
proof fn lemma_judged_and_chain(x: Seq<u8>, y: Seq<u8>)
    requires
        quote_free(x),
        quote_free(y),
        valid_utf8(x),
        valid_utf8(y),
    ensures
        judged_segments(segments_of(x + seq![SPACE, AMPERSAND, AMPERSAND, SPACE] + y)) == judged_segments(
            segments_of(x),
        ) + judged_segments(segments_of(y)),
{
    let mid = seq![SPACE, AMPERSAND, AMPERSAND, SPACE];
    let w = mid + y;
    let z = x + w;
    assert(x + mid + y =~= z);
    assert forall|i: int| 0 <= i < z.len() implies z[i] != SQ && z[i] != DQ by {
        if i < x.len() {
            assert(z[i] == x[i]);
        } else if i < x.len() + 4 {
            assert(z[i] == mid[i - x.len()]);
        } else {
            assert(z[i] == y[i - x.len() - 4]);
        }
    }
    lemma_segments_are_pieces(z);
    lemma_segments_are_pieces(x);
    lemma_segments_are_pieces(y);
    assert(w[0] == SPACE);
    assert(w[1] == AMPERSAND);
    assert(w[2] == AMPERSAND);
    assert(w[3] == SPACE);
    lemma_pieces_concat(x, w, 0, seq![]);
    let c = closed_from(x, 0, seq![]);
    let f = open_from(x, 0, seq![]);
    // Through the separator.
    assert(pieces_from(w, 0, f) == pieces_from(w, 1, f.push(SPACE)));
    assert(pieces_from(w, 1, f.push(SPACE)) == seq![f.push(SPACE)] + pieces_from(w, 3, seq![]));
    assert(pieces_from(w, 3, seq![]) == pieces_from(w, 4, seq![SPACE]));
    lemma_pieces_after_prefix(mid, y, 0, seq![SPACE]);
    assert(mid.len() + 0 == 4);
    let ly = pieces_from(y, 0, seq![]);
    lemma_pieces_with_front(y, 0, seq![SPACE], seq![]);
    assert(seq![SPACE] + Seq::<u8>::empty() =~= seq![SPACE]);
    let m = pieces_from(y, 0, seq![SPACE]);
    // The pieces of x.
    lemma_pieces_closed_open(x, 0, seq![]);
    // Validity of the open piece of x and the first piece of y.
    lemma_segments_valid(x);
    lemma_segments_valid(y);
    lemma_space_bytes();
    let fx = if f.len() > 0 { seq![f] } else { Seq::<Seq<u8>>::empty() };
    assert(pieces_from(x, 0, seq![]) == c + fx);
    if f.len() > 0 {
        assert((c + fx)[c.len() as int] == f);
        lemma_trimmed_ignores_spaces(f);
        assert(f.push(SPACE) =~= f + seq![SPACE]);
    } else {
        lemma_trimmed_ignores_spaces(Seq::<u8>::empty());
        assert(f.push(SPACE) =~= seq![SPACE]);
        assert(Seq::<u8>::empty() + seq![SPACE] =~= seq![SPACE]);
    }
    lemma_judged_one(f.push(SPACE));
    if f.len() > 0 {
        lemma_judged_one(f);
    } else {
        assert(judged_segments(fx) == Seq::<Seq<u8>>::empty());
    }
    // The pieces of y, with the space in front.
    if ly.len() == 0 {
        assert(m == seq![seq![SPACE]]);
        lemma_trimmed_ignores_spaces(Seq::<u8>::empty());
        assert(Seq::<u8>::empty() + seq![SPACE] =~= seq![SPACE]);
        lemma_judged_one(seq![SPACE]);
        assert(judged_segments(ly) == Seq::<Seq<u8>>::empty());
    } else {
        assert(m == seq![seq![SPACE] + ly[0]] + ly.drop_first());
        assert(valid_utf8(ly[0]));
        lemma_trimmed_ignores_spaces(ly[0]);
        lemma_judged_concat(seq![seq![SPACE] + ly[0]], ly.drop_first());
        lemma_judged_one(seq![SPACE] + ly[0]);
        lemma_judged_concat(seq![ly[0]], ly.drop_first());
        lemma_judged_one(ly[0]);
        assert(seq![ly[0]] + ly.drop_first() =~= ly);
    }
    // Putting it together.
    lemma_judged_concat(c, seq![f.push(SPACE)] + m);
    lemma_judged_concat(seq![f.push(SPACE)], m);
    lemma_judged_concat(c, fx);
    assert(judged_segments(segments_of(z)) == judged_segments(c) + (judged_segments(seq![f.push(SPACE)])
        + judged_segments(m)));
    assert(judged_segments(c) + (judged_segments(fx) + judged_segments(ly)) =~= judged_segments(c)
        + judged_segments(fx) + judged_segments(ly));
}

proof fn lemma_or_high_bit(x: u8)
    by (bit_vector)
    ensures
        (0xC0u8 | x) >= 0x80u8,
        (0xE0u8 | x) >= 0x80u8,
        (0xF0u8 | x) >= 0x80u8,
        (0x80u8 | x) >= 0x80u8,
{
}

proof fn lemma_low_seven_bits(v: u32)
    by (bit_vector)
    requires
        v < 0x80,
    ensures
        (v & 0x7F) == v,
{
}

/// All characters are whitespace.
spec fn all_blank(cs: Seq<char>) -> bool {
    forall|i: int| 0 <= i < cs.len() ==> is_whitespace_char(#[trigger] cs[i])
}

/// A whitespace character other than a newline encodes to bytes none of which
/// separates segments.
proof fn lemma_blank_char_bytes(c: char)
    requires
        is_whitespace_char(c),
        c != '\n',
    ensures
        encode_utf8(seq![c]).len() > 0,
        forall|k: int|
            0 <= k < encode_utf8(seq![c]).len() ==> {
                let x = #[trigger] encode_utf8(seq![c])[k];
                x != NEWLINE && x != SEMICOLON && x != AMPERSAND && x != PIPE
            },
{
    let v = c as u32;
    assert(seq![c][0] == c);
    assert(seq![c].drop_first() =~= Seq::<char>::empty());
    assert(encode_utf8(seq![c]) == encode_scalar(seq![c][0] as u32) + encode_utf8(seq![c].drop_first()));
    assert(encode_utf8(Seq::<char>::empty()) == Seq::<u8>::empty());
    assert(encode_utf8(seq![c]) =~= encode_scalar(v));
    if v < 0x80 {
        lemma_low_seven_bits(v);
    } else if v <= 0x7FF {
        lemma_or_high_bit((((v >> 6) & 0x1F)) as u8);
        lemma_or_high_bit(((v & 0x3F)) as u8);
    } else if v <= 0xFFFF {
        lemma_or_high_bit((((v >> 12) & 0x0F)) as u8);
        lemma_or_high_bit((((v >> 6) & 0x3F)) as u8);
        lemma_or_high_bit(((v & 0x3F)) as u8);
    } else {
        lemma_or_high_bit((((v >> 18) & 0x7)) as u8);
        lemma_or_high_bit((((v >> 12) & 0x3F)) as u8);
        lemma_or_high_bit((((v >> 6) & 0x3F)) as u8);
        lemma_or_high_bit(((v & 0x3F)) as u8);
    }
}

proof fn lemma_newline_bytes()
    ensures
        encode_utf8(seq!['\n']) == seq![NEWLINE],
{
    assert(is_ascii_chars(seq!['\n']));
    is_ascii_chars_encode_utf8(seq!['\n']);
    assert(encode_utf8(seq!['\n']) =~= seq![NEWLINE]);
}

/// Bytes with no separator are taken into the open segment as they are.
proof fn lemma_pieces_no_separator(p: Seq<u8>, q: Seq<u8>, i: int, cur: Seq<u8>)
    requires
        0 <= i <= p.len(),
        forall|k: int|
            0 <= k < p.len() ==> {
                let x = #[trigger] p[k];
                x != NEWLINE && x != SEMICOLON && x != AMPERSAND && x != PIPE
            },
    ensures
        pieces_from(p + q, i, cur) == pieces_from(q, 0, cur + p.subrange(i, p.len() as int)),
    decreases p.len() - i,
{
    let z = p + q;
    if i == p.len() {
        lemma_pieces_after_prefix(p, q, 0, cur);
        assert(cur + p.subrange(i, p.len() as int) =~= cur);
    } else {
        assert(z[i] == p[i]);
        lemma_pieces_no_separator(p, q, i + 1, cur.push(p[i]));
        assert(cur.push(p[i]) + p.subrange(i + 1, p.len() as int) =~= cur + p.subrange(i, p.len() as int));
    }
}

proof fn lemma_trim_start_blank_front(w: Seq<char>, t: Seq<char>)
    requires
        all_blank(w),
    ensures
        trim_start_chars(w + t) == trim_start_chars(t),
    decreases w.len(),
{
    if w.len() > 0 {
        assert((w + t)[0] == w[0]);
        assert((w + t).drop_first() =~= w.drop_first() + t);
        lemma_trim_start_blank_front(w.drop_first(), t);
    } else {
        assert(w + t =~= t);
    }
}

proof fn lemma_trim_start_blank(w: Seq<char>)
    requires
        all_blank(w),
    ensures
        trim_start_chars(w) == Seq::<char>::empty(),
{
    lemma_trim_start_blank_front(w, Seq::<char>::empty());
    assert(w + Seq::<char>::empty() =~= w);
    assert(trim_start_chars(Seq::<char>::empty()) == Seq::<char>::empty());
}

proof fn lemma_trim_end_blank_back(t: Seq<char>, w: Seq<char>)
    requires
        all_blank(w),
    ensures
        trim_end_chars(t + w) == trim_end_chars(t),
    decreases w.len(),
{
    if w.len() > 0 {
        assert((t + w).last() == w.last());
        assert((t + w).drop_last() =~= t + w.drop_last());
        lemma_trim_end_blank_back(t, w.drop_last());
    } else {
        assert(t + w =~= t);
    }
}

proof fn lemma_trim_start_blank_back(t: Seq<char>, w: Seq<char>)
    requires
        all_blank(w),
    ensures
        trim_start_chars(t + w) == if trim_start_chars(t).len() == 0 {
            Seq::<char>::empty()
        } else {
            trim_start_chars(t) + w
        },
    decreases t.len(),
{
    if t.len() == 0 {
        assert(t + w =~= w);
        lemma_trim_start_blank(w);
    } else {
        assert((t + w)[0] == t[0]);
        if is_whitespace_char(t[0]) {
            assert((t + w).drop_first() =~= t.drop_first() + w);
            lemma_trim_start_blank_back(t.drop_first(), w);
        }
    }
}

/// Blank text before or after a segment does not change it once trimmed,
/// and blank text alone trims to nothing.
proof fn lemma_trimmed_ignores_blanks(w: Seq<char>, s: Seq<u8>)
    requires
        all_blank(w),
        valid_utf8(s),
    ensures
        trimmed_bytes(encode_utf8(w) + s) == trimmed_bytes(s),
        trimmed_bytes(s + encode_utf8(w)) == trimmed_bytes(s),
        trimmed_bytes(encode_utf8(w)).len() == 0,
{
    let t = decode_utf8(s);
    decode_utf8_encode_utf8(s);
    lemma_encode_concat(w, t);
    lemma_encode_concat(t, w);
    encode_utf8_decode_utf8(w + t);
    encode_utf8_decode_utf8(t + w);
    encode_utf8_decode_utf8(w);
    lemma_trim_start_blank_front(w, t);
    lemma_trim_start_blank_back(t, w);
    let u = trim_start_chars(t);
    if u.len() > 0 {
        lemma_trim_end_blank_back(u, w);
    }
    lemma_trim_start_blank(w);
    assert(trim_end_chars(Seq::<char>::empty()) == Seq::<char>::empty());
}

/// The pieces of blank text read after the open segment `cur` judge as that
/// segment alone.
proof fn lemma_blank_tail_pieces(w: Seq<char>, cur: Seq<u8>)
    requires
        all_blank(w),
        valid_utf8(cur),
    ensures
        judged_segments(pieces_from(encode_utf8(w), 0, cur)) == judged_segments(
            if cur.len() > 0 {
                seq![cur]
            } else {
                Seq::<Seq<u8>>::empty()
            },
        ),
    decreases w.len(),
{
    let e = encode_utf8(w);
    if w.len() == 0 {
        assert(e =~= Seq::<u8>::empty());
    } else {
        let c0 = w[0];
        let rest = w.drop_first();
        assert(seq![c0] + rest =~= w);
        lemma_encode_concat(seq![c0], rest);
        assert forall|i: int| 0 <= i < rest.len() implies is_whitespace_char(#[trigger] rest[i]) by {
            assert(rest[i] == w[i + 1]);
        }
        encode_utf8_valid_utf8(seq![c0]);
        assert(all_blank(seq![c0])) by {
            assert(seq![c0][0] == c0);
        }
        if c0 == '\n' {
            lemma_newline_bytes();
            assert(e[0] == NEWLINE);
            lemma_pieces_after_prefix(seq![NEWLINE], encode_utf8(rest), 0, seq![]);
            assert(pieces_from(e, 0, cur) == seq![cur] + pieces_from(e, 1, seq![]));
            encode_utf8_valid_utf8(Seq::<char>::empty());
            assert(encode_utf8(Seq::<char>::empty()) =~= Seq::<u8>::empty());
            lemma_blank_tail_pieces(rest, seq![]);
            lemma_judged_concat(seq![cur], pieces_from(encode_utf8(rest), 0, seq![]));
            lemma_judged_one(cur);
            lemma_judged_one(Seq::<u8>::empty());
            if cur.len() == 0 {
                assert(trimmed_bytes(cur).len() == 0) by {
                    lemma_trimmed_ignores_blanks(Seq::<char>::empty(), cur);
                    assert(encode_utf8(Seq::<char>::empty()) =~= cur);
                }
            }
            assert(judged_segments(Seq::<Seq<u8>>::empty()) == Seq::<Seq<u8>>::empty());
            assert(judged_segments(seq![cur]) + Seq::<Seq<u8>>::empty() =~= judged_segments(seq![cur]));
        } else {
            lemma_blank_char_bytes(c0);
            let b0 = encode_utf8(seq![c0]);
            lemma_pieces_no_separator(b0, encode_utf8(rest), 0, cur);
            assert(b0.subrange(0, b0.len() as int) =~= b0);
            valid_utf8_concat(cur, b0);
            lemma_blank_tail_pieces(rest, cur + b0);
            lemma_trimmed_ignores_blanks(seq![c0], cur);
            lemma_judged_one(cur + b0);
            if cur.len() > 0 {
                lemma_judged_one(cur);
            } else {
                assert(cur + b0 =~= b0);
                assert(judged_segments(Seq::<Seq<u8>>::empty()) == Seq::<Seq<u8>>::empty());
            }
        }
    }
}

/// Blank text read before `y`, with a blank open segment `encode(cw)`, judges
/// as `y` alone.
proof fn lemma_blank_head_pieces(w: Seq<char>, cw: Seq<char>, y: Seq<u8>)
    requires
        all_blank(w),
        all_blank(cw),
        valid_utf8(y),
        quote_free(y),
    ensures
        judged_segments(pieces_from(encode_utf8(w) + y, 0, encode_utf8(cw))) == judged_segments(
            segments_of(y),
        ),
    decreases w.len(),
{
    let e = encode_utf8(w);
    lemma_segments_are_pieces(y);
    lemma_segments_valid(y);
    if w.len() == 0 {
        assert(e =~= Seq::<u8>::empty());
        assert(e + y =~= y);
        let ly = pieces_from(y, 0, seq![]);
        let pre = encode_utf8(cw);
        if pre.len() == 0 {
            assert(pre =~= Seq::<u8>::empty());
        } else {
            lemma_pieces_with_front(y, 0, pre, seq![]);
            assert(pre + Seq::<u8>::empty() =~= pre);
            lemma_trimmed_ignores_blanks(cw, Seq::<u8>::empty());
            assert(pre + Seq::<u8>::empty() =~= pre);
            if ly.len() == 0 {
                lemma_judged_one(pre);
                assert(judged_segments(ly) == Seq::<Seq<u8>>::empty());
            } else {
                assert(valid_utf8(ly[0]));
                lemma_trimmed_ignores_blanks(cw, ly[0]);
                lemma_judged_concat(seq![pre + ly[0]], ly.drop_first());
                lemma_judged_one(pre + ly[0]);
                lemma_judged_concat(seq![ly[0]], ly.drop_first());
                lemma_judged_one(ly[0]);
                assert(seq![ly[0]] + ly.drop_first() =~= ly);
            }
        }
    } else {
        let c0 = w[0];
        let rest = w.drop_first();
        assert(seq![c0] + rest =~= w);
        lemma_encode_concat(seq![c0], rest);
        assert forall|i: int| 0 <= i < rest.len() implies is_whitespace_char(#[trigger] rest[i]) by {
            assert(rest[i] == w[i + 1]);
        }
        let q = encode_utf8(rest) + y;
        assert(e + y =~= encode_utf8(seq![c0]) + q);
        if c0 == '\n' {
            lemma_newline_bytes();
            let z = seq![NEWLINE] + q;
            assert(z[0] == NEWLINE);
            lemma_pieces_after_prefix(seq![NEWLINE], q, 0, seq![]);
            assert(pieces_from(z, 0, encode_utf8(cw)) == seq![encode_utf8(cw)] + pieces_from(z, 1, seq![]));
            assert(all_blank(Seq::<char>::empty()));
            assert(encode_utf8(Seq::<char>::empty()) =~= Seq::<u8>::empty());
            lemma_blank_head_pieces(rest, Seq::<char>::empty(), y);
            lemma_judged_concat(seq![encode_utf8(cw)], pieces_from(q, 0, seq![]));
            lemma_judged_one(encode_utf8(cw));
            encode_utf8_valid_utf8(Seq::<char>::empty());
            lemma_trimmed_ignores_blanks(cw, Seq::<u8>::empty());
            assert(encode_utf8(cw) + Seq::<u8>::empty() =~= encode_utf8(cw));
            assert(Seq::<Seq<u8>>::empty() + judged_segments(pieces_from(q, 0, seq![])) =~= judged_segments(
                pieces_from(q, 0, seq![]),
            ));
        } else {
            lemma_blank_char_bytes(c0);
            let b0 = encode_utf8(seq![c0]);
            lemma_pieces_no_separator(b0, q, 0, encode_utf8(cw));
            assert(b0.subrange(0, b0.len() as int) =~= b0);
            lemma_encode_concat(cw, seq![c0]);
            assert forall|i: int| 0 <= i < (cw + seq![c0]).len() implies is_whitespace_char(
                #[trigger] (cw + seq![c0])[i],
            ) by {
                if i < cw.len() {
                    assert((cw + seq![c0])[i] == cw[i]);
                } else {
                    assert((cw + seq![c0])[i] == c0);
                }
            }
            lemma_blank_head_pieces(rest, cw + seq![c0], y);
        }
    }
}

/// A command's judged segments are those of its trimmed text.
proof fn lemma_judged_ignores_trim(s: Seq<char>)
    requires
        quote_free(encode_utf8(s)),
    ensures
        judged_segments(segments_of(trimmed_bytes(encode_utf8(s)))) == judged_segments(segments_of(encode_utf8(s))),
{
    let ts = trim_start_chars(s);
    let core = trim_end_chars(ts);
    let (lead, trail) = lemma_trim_split(s);
    let x = encode_utf8(s);
    encode_utf8_decode_utf8(s);
    assert(trimmed_bytes(x) == encode_utf8(core));
    lemma_encode_concat(lead, core);
    lemma_encode_concat(lead + core, trail);
    let ec = encode_utf8(core);
    let et = encode_utf8(trail);
    let el = encode_utf8(lead);
    assert(x == el + ec + et);
    assert(el + ec + et =~= el + (ec + et));
    assert forall|i: int| 0 <= i < ec.len() implies ec[i] != SQ && ec[i] != DQ by {
        assert(ec[i] == x[el.len() + i]);
    }
    assert forall|i: int| 0 <= i < (ec + et).len() implies (ec + et)[i] != SQ && (ec + et)[i] != DQ by {
        assert((ec + et)[i] == x[el.len() + i]);
    }
    encode_utf8_valid_utf8(core);
    encode_utf8_valid_utf8(trail);
    valid_utf8_concat(ec, et);
    // Before the command: blank text.
    lemma_segments_are_pieces(x);
    assert(all_blank(Seq::<char>::empty()));
    assert(encode_utf8(Seq::<char>::empty()) =~= Seq::<u8>::empty());
    lemma_blank_head_pieces(lead, Seq::<char>::empty(), ec + et);
    // After it: blank text.
    lemma_segments_are_pieces(ec + et);
    lemma_segments_are_pieces(ec);
    if et.len() > 0 {
        if trail[0] == '\n' {
            assert(seq![trail[0]] + trail.drop_first() =~= trail);
            lemma_encode_concat(seq![trail[0]], trail.drop_first());
            lemma_newline_bytes();
            assert(et[0] == NEWLINE);
        } else {
            assert(seq![trail[0]] + trail.drop_first() =~= trail);
            lemma_encode_concat(seq![trail[0]], trail.drop_first());
            lemma_blank_char_bytes(trail[0]);
            assert(et[0] == encode_utf8(seq![trail[0]])[0]);
        }
        lemma_pieces_concat(ec, et, 0, seq![]);
        lemma_pieces_closed_open(ec, 0, seq![]);
        let c = closed_from(ec, 0, seq![]);
        let f = open_from(ec, 0, seq![]);
        lemma_segments_valid(ec);
        let fx = if f.len() > 0 { seq![f] } else { Seq::<Seq<u8>>::empty() };
        assert(pieces_from(ec, 0, seq![]) == c + fx);
        if f.len() > 0 {
            assert((c + fx)[c.len() as int] == f);
        } else {
            encode_utf8_valid_utf8(Seq::<char>::empty());
            assert(f =~= encode_utf8(Seq::<char>::empty()));
        }
        lemma_blank_tail_pieces(trail, f);
        lemma_judged_concat(c, pieces_from(et, 0, f));
        lemma_judged_concat(c, fx);
    } else {
        assert(ec + et =~= ec);
    }
}

/// A text splits into its leading blanks, its trimmed text and its trailing
/// blanks.
proof fn lemma_trim_split(s: Seq<char>) -> (r: (Seq<char>, Seq<char>))
    ensures
        all_blank(r.0),
        all_blank(r.1),
        s == r.0 + trim_chars(s) + r.1,
{
    let (lead, ts) = lemma_trim_start_split(s);
    let (core, trail) = lemma_trim_end_split(ts);
    assert(s =~= lead + core + trail);
    (lead, trail)
}

proof fn lemma_trim_start_split(s: Seq<char>) -> (r: (Seq<char>, Seq<char>))
    ensures
        all_blank(r.0),
        r.1 == trim_start_chars(s),
        s == r.0 + r.1,
    decreases s.len(),
{
    if s.len() > 0 && is_whitespace_char(s[0]) {
        let (l, t) = lemma_trim_start_split(s.drop_first());
        let lead = seq![s[0]] + l;
        assert forall|i: int| 0 <= i < lead.len() implies is_whitespace_char(#[trigger] lead[i]) by {
            if i > 0 {
                assert(lead[i] == l[i - 1]);
            }
        }
        assert(s.drop_first() == l + t);
        assert(s =~= seq![s[0]] + s.drop_first());
        assert(seq![s[0]] + (l + t) =~= lead + t);
        (lead, t)
    } else {
        assert(s =~= Seq::<char>::empty() + s);
        (Seq::<char>::empty(), s)
    }
}

proof fn lemma_trim_end_split(s: Seq<char>) -> (r: (Seq<char>, Seq<char>))
    ensures
        all_blank(r.1),
        r.0 == trim_end_chars(s),
        s == r.0 + r.1,
    decreases s.len(),
{
    if s.len() > 0 && is_whitespace_char(s.last()) {
        let (c, t) = lemma_trim_end_split(s.drop_last());
        let trail = t + seq![s.last()];
        assert forall|i: int| 0 <= i < trail.len() implies is_whitespace_char(#[trigger] trail[i]) by {
            if i < t.len() {
                assert(trail[i] == t[i]);
            }
        }
        assert(s.drop_last() == c + t);
        assert(s =~= s.drop_last() + seq![s.last()]);
        assert((c + t) + seq![s.last()] =~= c + trail);
        (c, trail)
    } else {
        assert(s =~= s + Seq::<char>::empty());
        (s, Seq::<char>::empty())
    }
}

/// Any valid command is judged by the steps of the judged segments of its
/// trimmed text.
proof fn lemma_verdict_is_trimmed_steps(x: Seq<u8>)
    requires
        valid_utf8(x),
    ensures
        safety_verdict(x) == steps(judged_segments(segments_of(trimmed_bytes(x))), seq![]),
{
    let t = trimmed_bytes(x);
    decode_utf8_encode_utf8(x);
    lemma_encode_trim_len(decode_utf8(x));
    encode_utf8_valid_utf8(trim_chars(decode_utf8(x)));
    lemma_segments_valid(t);
    super::parse::lemma_segments_within(t);
    let segs = segments_of(t);
    if t.len() == 0 {
        assert(segment_ranges(t, 0, 0, false, false) =~= Seq::<(int, int)>::empty());
        assert(segs =~= Seq::<Seq<u8>>::empty());
    } else {
        lemma_segments_verdict_steps(x, segs, 0, seq![]);
        assert(segs.subrange(0, segs.len() as int) =~= segs);
    }
}

/// Two commands chained with ` && ` are judged as each alone, in turn: the
/// chain is refused with the first side's refusal, else with the second's,
/// and otherwise carries the first side's warnings followed by the second's.
/// This holds for any two sides without a quote character, each of any
/// number of segments and with any surrounding whitespace.
pub proof fn lemma_spaced_and_chain_verdict(a: Seq<char>, b: Seq<char>)
    requires
        quote_free(encode_utf8(a)),
        quote_free(encode_utf8(b)),
    ensures
        safety_verdict(encode_utf8(a + seq![' ', '&', '&', ' '] + b)) == match safety_verdict(encode_utf8(a)) {
            Err(m) => Err(m),
            Ok(wa) => match safety_verdict(encode_utf8(b)) {
                Err(m) => Err(m),
                Ok(wb) => Ok(wa + wb),
            },
        },
{
    let ab = encode_utf8(a);
    let bb = encode_utf8(b);
    let mid = seq![' ', '&', '&', ' '];
    let c = a + mid + b;
    let cb = encode_utf8(c);
    assert(is_ascii_chars(mid));
    is_ascii_chars_encode_utf8(mid);
    assert(encode_utf8(mid) =~= seq![SPACE, AMPERSAND, AMPERSAND, SPACE]);
    lemma_encode_concat(a, mid);
    lemma_encode_concat(a + mid, b);
    let bytes_mid = seq![SPACE, AMPERSAND, AMPERSAND, SPACE];
    assert(cb == ab + bytes_mid + bb);
    assert forall|i: int| 0 <= i < cb.len() implies cb[i] != SQ && cb[i] != DQ by {
        if i < ab.len() {
            assert(cb[i] == ab[i]);
        } else if i < ab.len() + 4 {
            assert(cb[i] == bytes_mid[i - ab.len()]);
        } else {
            assert(cb[i] == bb[i - ab.len() - 4]);
        }
    }
    encode_utf8_valid_utf8(a);
    encode_utf8_valid_utf8(b);
    encode_utf8_valid_utf8(c);
    lemma_verdict_is_trimmed_steps(ab);
    lemma_verdict_is_trimmed_steps(bb);
    lemma_verdict_is_trimmed_steps(cb);
    lemma_judged_ignores_trim(a);
    lemma_judged_ignores_trim(b);
    lemma_judged_ignores_trim(c);
    lemma_judged_and_chain(ab, bb);
    let ja = judged_segments(segments_of(ab));
    let jb = judged_segments(segments_of(bb));
    lemma_steps_concat(ja, jb, seq![]);
    match steps(ja, seq![]) {
        Err(_) => {},
        Ok(wa) => lemma_steps_keep_acc(jb, wa),
    }
}

} // verus!
