//! Text primitives shared by the command guard and the output formatters.
//!
//! Strings are modelled twice: a `&str` has a character view (`s@`) and a
//! byte view (`s.spec_bytes()`, its UTF-8 encoding).  Scanners in this crate
//! work on bytes; the standard-library string operations that work on
//! characters (trimming, whitespace splitting, lower-casing) are reached
//! through the small trusted wrappers at the end of this file.
use vstd::prelude::*;
use vstd::string::*;
use vstd::utf8::*;

verus! {

broadcast use vstd::seq::group_seq_axioms;

// =============================================================================
// Byte classes
// =============================================================================

/// `u8::is_ascii_whitespace`: space, tab, line feed, form feed, carriage return.
pub open spec fn is_ascii_ws(b: u8) -> bool {
    b == 0x20 || b == 0x09 || b == 0x0a || b == 0x0c || b == 0x0d
}

/// `u8::is_ascii_digit`.
pub open spec fn is_ascii_digit(b: u8) -> bool {
    0x30 <= b <= 0x39
}

/// `u8::to_ascii_lowercase`.
pub open spec fn ascii_lower(b: u8) -> u8 {
    if 0x41 <= b <= 0x5a { (b + 0x20) as u8 } else { b }
}

/// `char::is_whitespace`: the characters with the Unicode `White_Space` property.
pub open spec fn is_whitespace_char(c: char) -> bool {
    ||| '\u{9}' <= c <= '\u{d}'
    ||| c == ' '
    ||| c == '\u{85}'
    ||| c == '\u{a0}'
    ||| c == '\u{1680}'
    ||| '\u{2000}' <= c <= '\u{200a}'
    ||| c == '\u{2028}'
    ||| c == '\u{2029}'
    ||| c == '\u{202f}'
    ||| c == '\u{205f}'
    ||| c == '\u{3000}'
}

pub fn is_ascii_ws_byte(b: u8) -> (r: bool)
    ensures
        r == is_ascii_ws(b),
{
    b == 0x20 || b == 0x09 || b == 0x0a || b == 0x0c || b == 0x0d
}

pub fn is_ascii_digit_byte(b: u8) -> (r: bool)
    ensures
        r == is_ascii_digit(b),
{
    0x30 <= b && b <= 0x39
}

pub fn ascii_lower_byte(b: u8) -> (r: u8)
    ensures
        r == ascii_lower(b),
{
    if 0x41 <= b && b <= 0x5a { b + 0x20 } else { b }
}

// =============================================================================
// Byte sequences
// =============================================================================

/// `needle` occurs in `hay` starting at byte `i`.
pub open spec fn occurs_at(hay: Seq<u8>, needle: Seq<u8>, i: int) -> bool {
    0 <= i && i + needle.len() <= hay.len() && hay.subrange(i, i + needle.len()) == needle
}

/// The first position at or after `from` where `needle` occurs.
pub open spec fn find_from(hay: Seq<u8>, needle: Seq<u8>, from: int) -> Option<int>
    decreases hay.len() - from,
{
    if from < 0 || from + needle.len() > hay.len() {
        None
    } else if occurs_at(hay, needle, from) {
        Some(from)
    } else if from >= hay.len() {
        None
    } else {
        find_from(hay, needle, from + 1)
    }
}

/// The first position where `needle` occurs in `hay` (`str::find`).
pub open spec fn first_occurrence(hay: Seq<u8>, needle: Seq<u8>) -> Option<int> {
    find_from(hay, needle, 0)
}

/// `needle` occurs somewhere in `hay` (`str::contains`).
pub open spec fn contains_bytes(hay: Seq<u8>, needle: Seq<u8>) -> bool {
    first_occurrence(hay, needle) is Some
}

/// `hay` begins with `prefix`.
pub open spec fn starts_with_bytes(hay: Seq<u8>, prefix: Seq<u8>) -> bool {
    prefix.len() <= hay.len() && hay.subrange(0, prefix.len() as int) == prefix
}

/// `hay` contains the byte `b`.
pub open spec fn has_byte(hay: Seq<u8>, b: u8) -> bool {
    exists|i: int| 0 <= i < hay.len() && hay[i] == b
}

/// `[u8]::eq_ignore_ascii_case`.
pub open spec fn eq_ignore_ascii_case(a: Seq<u8>, b: Seq<u8>) -> bool {
    a.len() == b.len() && forall|i: int| 0 <= i < a.len() ==> ascii_lower(a[i]) == ascii_lower(b[i])
}

pub proof fn lemma_find_from_bounds(hay: Seq<u8>, needle: Seq<u8>, from: int)
    requires
        0 <= from,
    ensures
        find_from(hay, needle, from) matches Some(i) ==> from <= i && occurs_at(hay, needle, i)
            && forall|j: int| from <= j < i ==> !occurs_at(hay, needle, j),
        find_from(hay, needle, from) is None ==> forall|j: int|
            from <= j ==> !occurs_at(hay, needle, j),
    decreases hay.len() - from,
{
    if from < 0 || from + needle.len() > hay.len() {
        assert forall|j: int| from <= j implies !occurs_at(hay, needle, j) by {}
    } else if occurs_at(hay, needle, from) {
    } else if from >= hay.len() {
    } else {
        lemma_find_from_bounds(hay, needle, from + 1);
    }
}

/// Position of the first occurrence of `needle` in `hay` at or after `from`.
pub fn find_bytes_from(hay: &[u8], needle: &[u8], from: usize) -> (r: Option<usize>)
    ensures
        r is Some <==> find_from(hay@, needle@, from as int) is Some,
        r matches Some(i) ==> find_from(hay@, needle@, from as int) == Some(i as int),
{
    let mut i = from;
    if needle.len() > hay.len() {
        return None;
    }
    while i <= hay.len() - needle.len()
        invariant
            from <= i,
            needle.len() <= hay.len(),
            find_from(hay@, needle@, from as int) == find_from(hay@, needle@, i as int),
        decreases hay.len() - i,
    {
        let mut j: usize = 0;
        let mut matched = true;
        while j < needle.len()
            invariant
                j <= needle.len(),
                i + needle.len() <= hay.len(),
                matched == forall|k: int| 0 <= k < j ==> hay@[i + k] == needle@[k],
            decreases needle.len() - j,
        {
            if hay[i + j] != needle[j] {
                matched = false;
            }
            j += 1;
        }
        if matched {
            assert(hay@.subrange(i as int, i + needle.len()) =~= needle@);
            return Some(i);
        }
        assert(!occurs_at(hay@, needle@, i as int)) by {
            let k = choose|k: int| 0 <= k < needle.len() && hay@[i + k] != needle@[k];
            assert(hay@.subrange(i as int, i + needle.len())[k] != needle@[k]);
        }
        i += 1;
    }
    None
}

/// Position of the first occurrence of `needle` in `hay`.
pub fn find_bytes(hay: &[u8], needle: &[u8]) -> (r: Option<usize>)
    ensures
        r is Some <==> first_occurrence(hay@, needle@) is Some,
        r matches Some(i) ==> first_occurrence(hay@, needle@) == Some(i as int),
{
    find_bytes_from(hay, needle, 0)
}

/// Whether `needle` occurs in `hay`.
pub fn contains_slice(hay: &[u8], needle: &[u8]) -> (r: bool)
    ensures
        r == contains_bytes(hay@, needle@),
{
    find_bytes(hay, needle).is_some()
}

/// Whether `hay` begins with `prefix`.
pub fn starts_with_slice(hay: &[u8], prefix: &[u8]) -> (r: bool)
    ensures
        r == starts_with_bytes(hay@, prefix@),
{
    if prefix.len() > hay.len() {
        return false;
    }
    let mut j: usize = 0;
    while j < prefix.len()
        invariant
            j <= prefix.len() <= hay.len(),
            forall|k: int| 0 <= k < j ==> hay@[k] == prefix@[k],
        decreases prefix.len() - j,
    {
        if hay[j] != prefix[j] {
            assert(hay@.subrange(0, prefix.len() as int)[j as int] != prefix@[j as int]);
            return false;
        }
        j += 1;
    }
    assert(hay@.subrange(0, prefix.len() as int) =~= prefix@);
    true
}

/// Whether `hay` contains the byte `b`.
pub fn has_byte_slice(hay: &[u8], b: u8) -> (r: bool)
    ensures
        r == has_byte(hay@, b),
{
    let mut j: usize = 0;
    while j < hay.len()
        invariant
            j <= hay.len(),
            forall|k: int| 0 <= k < j ==> hay@[k] != b,
        decreases hay.len() - j,
    {
        if hay[j] == b {
            return true;
        }
        j += 1;
    }
    false
}

/// Whether `needle` occurs in `hay` at position `pos`.
pub fn occurs_at_slice(hay: &[u8], needle: &[u8], pos: usize) -> (r: bool)
    ensures
        r == occurs_at(hay@, needle@, pos as int),
{
    if pos > hay.len() || needle.len() > hay.len() - pos {
        return false;
    }
    let mut j: usize = 0;
    while j < needle.len()
        invariant
            j <= needle@.len(),
            pos + needle@.len() <= hay@.len(),
            hay@.len() == hay.len(),
            forall|k: int| 0 <= k < j ==> hay@[pos + k] == needle@[k],
        decreases needle@.len() - j,
    {
        if hay[pos + j] != needle[j] {
            assert(hay@.subrange(pos as int, pos + needle@.len())[j as int] != needle@[j as int]);
            return false;
        }
        j += 1;
    }
    assert(hay@.subrange(pos as int, pos + needle@.len()) =~= needle@);
    true
}

/// Whether `hay` holds the byte `b` at some position at or after `start`.
pub fn has_byte_from(hay: &[u8], start: usize, b: u8) -> (r: bool)
    ensures
        r == exists|i: int| start <= i < hay@.len() && hay@[i] == b,
{
    let mut j: usize = start;
    while j < hay.len()
        invariant
            start <= j,
            forall|k: int| start <= k < j ==> hay@[k] != b,
        decreases hay.len() - j,
    {
        if hay[j] == b {
            return true;
        }
        j += 1;
    }
    false
}

/// `[u8]::eq_ignore_ascii_case`.
pub fn eq_ignore_ascii_case_slice(a: &[u8], b: &[u8]) -> (r: bool)
    ensures
        r == eq_ignore_ascii_case(a@, b@),
{
    if a.len() != b.len() {
        return false;
    }
    let mut j: usize = 0;
    while j < a.len()
        invariant
            j <= a.len(),
            a.len() == b.len(),
            forall|k: int| 0 <= k < j ==> ascii_lower(a@[k]) == ascii_lower(b@[k]),
        decreases a.len() - j,
    {
        if ascii_lower_byte(a[j]) != ascii_lower_byte(b[j]) {
            return false;
        }
        j += 1;
    }
    true
}

/// Byte-wise equality of two slices.
pub fn slice_eq(a: &[u8], b: &[u8]) -> (r: bool)
    ensures
        r == (a@ == b@),
{
    if a.len() != b.len() {
        return false;
    }
    let mut j: usize = 0;
    while j < a.len()
        invariant
            j <= a.len(),
            a.len() == b.len(),
            forall|k: int| 0 <= k < j ==> a@[k] == b@[k],
        decreases a.len() - j,
    {
        if a[j] != b[j] {
            return false;
        }
        j += 1;
    }
    assert(a@ =~= b@);
    true
}

// =============================================================================
// UTF-8 boundaries
// =============================================================================

/// In well-formed UTF-8, a continuation byte is always preceded by a non-ASCII byte.
pub proof fn lemma_continuation_follows_non_ascii(b: Seq<u8>, j: int)
    requires
        valid_utf8(b),
        0 < j < b.len(),
        is_continuation_byte(b[j]),
    ensures
        b[j - 1] >= 0x80,
    decreases b.len(),
{
    reveal_with_fuel(valid_utf8, 2);
    let lf = length_of_first_scalar(b);
    assert(valid_first_scalar(b));
    assert(1 <= lf <= b.len());
    let rest = pop_first_scalar(b);
    assert(rest.len() == b.len() - lf);
    if j < lf {
    } else if j == lf {
        assert(rest[0] == b[j]);
        assert(valid_first_scalar(rest));
    } else {
        assert(rest[j - lf] == b[j]);
        assert(rest[j - lf - 1] == b[j - 1]);
        lemma_continuation_follows_non_ascii(rest, j - lf);
    }
}

/// A position holding an ASCII byte, and the position right after it, are
/// character boundaries.
pub proof fn lemma_ascii_boundaries(b: Seq<u8>, i: int)
    requires
        valid_utf8(b),
        0 <= i < b.len(),
        b[i] < 0x80,
    ensures
        is_char_boundary(b, i),
        is_char_boundary(b, i + 1),
{
    is_char_boundary_iff_not_is_continuation_byte(b, i);
    if i + 1 == b.len() {
        is_char_boundary_start_end_of_seq(b);
    } else {
        if is_continuation_byte(b[i + 1]) {
            lemma_continuation_follows_non_ascii(b, i + 1);
        }
        is_char_boundary_iff_not_is_continuation_byte(b, i + 1);
    }
}

/// Both ends of a byte sequence are character boundaries.
pub proof fn lemma_end_boundaries(b: Seq<u8>)
    requires
        valid_utf8(b),
    ensures
        is_char_boundary(b, 0),
        is_char_boundary(b, b.len() as int),
{
    is_char_boundary_start_end_of_seq(b);
}

/// The bytes of an ASCII string are its characters' codes, all below 0x80.
pub proof fn lemma_ascii_str_bytes(s: &str)
    requires
        is_ascii(s),
    ensures
        s.spec_bytes().len() == s@.len(),
        forall|i: int| 0 <= i < s@.len() ==> (#[trigger] s.spec_bytes()[i]) < 0x80 && s.spec_bytes()[i]
            == s@[i] as u8,
{
    is_ascii_spec_bytes(s);
    assert forall|i: int| 0 <= i < s@.len() implies (#[trigger] s.spec_bytes()[i]) < 0x80 && s.spec_bytes()[i]
        == s@[i] as u8 by {
        assert('\0' <= s@[i] <= '\u{7f}');
    }
}

// =============================================================================
// Character sequences
// =============================================================================

/// Drop leading whitespace characters.
pub open spec fn trim_start_chars(s: Seq<char>) -> Seq<char>
    decreases s.len(),
{
    if s.len() > 0 && is_whitespace_char(s[0]) {
        trim_start_chars(s.drop_first())
    } else {
        s
    }
}

/// Drop trailing whitespace characters.
pub open spec fn trim_end_chars(s: Seq<char>) -> Seq<char>
    decreases s.len(),
{
    if s.len() > 0 && is_whitespace_char(s.last()) {
        trim_end_chars(s.drop_last())
    } else {
        s
    }
}

/// `str::trim`: drop leading and trailing whitespace characters.
pub open spec fn trim_chars(s: Seq<char>) -> Seq<char> {
    trim_end_chars(trim_start_chars(s))
}

/// The maximal runs of non-whitespace characters of `s`, continuing a run
/// that already holds `cur`.
pub open spec fn words_from(s: Seq<char>, cur: Seq<char>) -> Seq<Seq<char>>
    decreases s.len(),
{
    if s.len() == 0 {
        if cur.len() > 0 { seq![cur] } else { seq![] }
    } else if is_whitespace_char(s[0]) {
        (if cur.len() > 0 { seq![cur] } else { Seq::<Seq<char>>::empty() }) + words_from(s.drop_first(), seq![])
    } else {
        words_from(s.drop_first(), cur.push(s[0]))
    }
}

/// `str::split_whitespace`: the maximal runs of non-whitespace characters.
pub open spec fn words(s: Seq<char>) -> Seq<Seq<char>> {
    words_from(s, seq![])
}

/// `[&str]::join(" ")`.
pub open spec fn join_with_space(parts: Seq<Seq<char>>) -> Seq<char>
    decreases parts.len(),
{
    if parts.len() == 0 {
        seq![]
    } else if parts.len() == 1 {
        parts[0]
    } else {
        parts[0] + seq![' '] + join_with_space(parts.drop_first())
    }
}

/// The character views of a sequence of string slices.
pub open spec fn views_of(parts: Seq<&str>) -> Seq<Seq<char>> {
    parts.map_values(|p: &str| p@)
}

/// Encoding distributes over concatenation.
pub proof fn lemma_encode_concat(a: Seq<char>, c: Seq<char>)
    ensures
        encode_utf8(a + c) == encode_utf8(a) + encode_utf8(c),
    decreases a.len(),
{
    if a.len() == 0 {
        assert(a + c =~= c);
    } else {
        assert((a + c)[0] == a[0]);
        assert((a + c).drop_first() =~= a.drop_first() + c);
        lemma_encode_concat(a.drop_first(), c);
    }
}

/// Trimming never lengthens the encoding.
pub proof fn lemma_encode_trim_len(s: Seq<char>)
    ensures
        encode_utf8(trim_chars(s)).len() <= encode_utf8(s).len(),
{
    lemma_encode_trim_start_len(s);
    lemma_encode_trim_end_len(trim_start_chars(s));
}

proof fn lemma_encode_trim_start_len(s: Seq<char>)
    ensures
        encode_utf8(trim_start_chars(s)).len() <= encode_utf8(s).len(),
    decreases s.len(),
{
    if s.len() > 0 && is_whitespace_char(s[0]) {
        lemma_encode_trim_start_len(s.drop_first());
    }
}

proof fn lemma_encode_trim_end_len(s: Seq<char>)
    ensures
        encode_utf8(trim_end_chars(s)).len() <= encode_utf8(s).len(),
    decreases s.len(),
{
    if s.len() > 0 && is_whitespace_char(s.last()) {
        lemma_encode_trim_end_len(s.drop_last());
        assert(s =~= s.drop_last() + seq![s.last()]);
        lemma_encode_concat(s.drop_last(), seq![s.last()]);
    }
}

/// A text holding a non-whitespace character (or a started run) has a word.
pub proof fn lemma_words_from_nonempty(s: Seq<char>, cur: Seq<char>, k: int)
    requires
        cur.len() > 0 || (0 <= k < s.len() && !is_whitespace_char(s[k])),
    ensures
        words_from(s, cur).len() > 0,
    decreases s.len(),
{
    if s.len() == 0 {
    } else if is_whitespace_char(s[0]) {
        if cur.len() == 0 {
            assert(s.drop_first()[k - 1] == s[k]);
            lemma_words_from_nonempty(s.drop_first(), seq![], k - 1);
        }
    } else {
        lemma_words_from_nonempty(s.drop_first(), cur.push(s[0]), k - 1);
    }
}

/// Every word is a non-empty run of non-whitespace characters.
pub proof fn lemma_words_from_shape(s: Seq<char>, cur: Seq<char>)
    requires
        forall|i: int| 0 <= i < cur.len() ==> !is_whitespace_char(#[trigger] cur[i]),
    ensures
        forall|j: int|
            0 <= j < words_from(s, cur).len() ==> (#[trigger] words_from(s, cur)[j]).len() > 0
                && !is_whitespace_char(words_from(s, cur)[j][0]),
    decreases s.len(),
{
    if cur.len() > 0 {
        assert(!is_whitespace_char(cur[0]));
        assert(seq![cur][0] == cur);
    }
    if s.len() == 0 {
        assert(words_from(s, cur) == (if cur.len() > 0 { seq![cur] } else { Seq::<Seq<char>>::empty() }));
    } else if is_whitespace_char(s[0]) {
        lemma_words_from_shape(s.drop_first(), seq![]);
        let head = if cur.len() > 0 { seq![cur] } else { Seq::<Seq<char>>::empty() };
        let tail = words_from(s.drop_first(), seq![]);
        assert(words_from(s, cur) == head + tail);
        assert forall|j: int| 0 <= j < (head + tail).len() implies (#[trigger] (head + tail)[j]).len() > 0
            && !is_whitespace_char((head + tail)[j][0]) by {
            if j < head.len() {
                assert((head + tail)[j] == cur);
            } else {
                assert((head + tail)[j] == tail[j - head.len()]);
            }
        }
    } else {
        let next = cur.push(s[0]);
        assert forall|i: int| 0 <= i < next.len() implies !is_whitespace_char(#[trigger] next[i]) by {
            if i < cur.len() {
                assert(next[i] == cur[i]);
            }
        }
        lemma_words_from_shape(s.drop_first(), next);
        assert(words_from(s, cur) == words_from(s.drop_first(), next));
    }
}

/// The space-joined words begin with the first word's first character.
pub proof fn lemma_join_first(parts: Seq<Seq<char>>)
    requires
        parts.len() > 0,
        parts[0].len() > 0,
    ensures
        join_with_space(parts).len() > 0,
        join_with_space(parts)[0] == parts[0][0],
{
    if parts.len() > 1 {
        assert((parts[0] + seq![' '] + join_with_space(parts.drop_first()))[0] == parts[0][0]);
    }
}

/// The bytes of the string whose bytes are `b`, after `str::trim`.
pub open spec fn trimmed_bytes(b: Seq<u8>) -> Seq<u8> {
    encode_utf8(trim_chars(decode_utf8(b)))
}

// =============================================================================
// Standard-library string operations
// =============================================================================

/// `str::to_lowercase`: the Unicode lower-case mapping of a character
/// sequence.  Its definition lives in the standard library's case tables.
pub uninterp spec fn lowercase(s: Seq<char>) -> Seq<char>;

/// Calls `str::trim`.  The result is the input with leading and trailing
/// `White_Space` characters removed; it is a sub-slice of the input, so it is
/// never longer in bytes.
#[verifier::external_body]
pub(crate) fn str_trim(s: &str) -> (r: &str)
    ensures
        r@ == trim_chars(s@),
        r.spec_bytes().len() <= s.spec_bytes().len(),
{
    s.trim()
}

/// Calls `str::trim_start`: the text without leading `White_Space`
/// characters.
#[verifier::external_body]
pub(crate) fn str_trim_start(s: &str) -> (r: &str)
    ensures
        r@ == trim_start_chars(s@),
{
    s.trim_start()
}

/// Calls `str::split_whitespace` and collects the pieces: the maximal runs of
/// non-`White_Space` characters, in order, each a sub-slice of the input.
#[verifier::external_body]
pub(crate) fn split_whitespace_vec(s: &str) -> (r: Vec<&str>)
    ensures
        views_of(r@) == words(s@),
        forall|i: int| 0 <= i < r@.len() ==> (#[trigger] r@[i]).spec_bytes().len() <= s.spec_bytes().len(),
{
    s.split_whitespace().collect()
}

proof fn lemma_join_with_space_push(p: Seq<Seq<char>>, x: Seq<char>)
    ensures
        join_with_space(p.push(x)) == if p.len() == 0 {
            x
        } else {
            join_with_space(p) + seq![' '] + x
        },
    decreases p.len(),
{
    let q = p.push(x);
    if p.len() == 0 {
        assert(q.len() == 1 && q[0] == x);
    } else if p.len() == 1 {
        assert(q[0] == p[0]);
        assert(q.drop_first() =~= seq![x]);
        assert(seq![x].len() == 1 && seq![x][0] == x);
        assert(join_with_space(seq![x]) == x);
    } else {
        assert(q[0] == p[0]);
        assert(q.drop_first() =~= p.drop_first().push(x));
        lemma_join_with_space_push(p.drop_first(), x);
        assert(p[0] + seq![' '] + (join_with_space(p.drop_first()) + seq![' '] + x) =~= p[0] + seq![' ']
            + join_with_space(p.drop_first()) + seq![' '] + x);
    }
}

/// The parts joined with a single space between neighbours.
pub(crate) fn join_space(parts: &[&str]) -> (r: String)
    ensures
        r@ == join_with_space(views_of(parts@)),
{
    let mut joined = String::new();
    let mut k: usize = 0;
    while k < parts.len()
        invariant
            k <= parts@.len(),
            joined@ == join_with_space(views_of(parts@).take(k as int)),
        decreases parts@.len() - k,
    {
        let ghost before = views_of(parts@).take(k as int);
        proof {
            assert(views_of(parts@).take(k + 1) =~= before.push(parts@[k as int]@));
            lemma_join_with_space_push(before, parts@[k as int]@);
            reveal_strlit(" ");
        }
        if k > 0 {
            joined.append(" ");
        }
        joined.append(parts[k]);
        k += 1;
    }
    assert(views_of(parts@).take(parts@.len() as int) =~= views_of(parts@));
    joined
}

/// The ASCII lower-case form of a character: `A`-`Z` become `a`-`z`, every
/// other character stays.
pub open spec fn ascii_lower_char(c: char) -> char {
    if 'A' <= c <= 'Z' {
        ((c as u32) + 32) as char
    } else {
        c
    }
}

/// Calls `str::to_lowercase`.  The Unicode mapping is named, not stated;
/// on ASCII text it is the ASCII one (the Unicode lower case of an ASCII
/// letter is the ASCII lower-case letter, and other ASCII characters have
/// none), which is stated.
#[verifier::external_body]
pub(crate) fn str_to_lowercase(s: &str) -> (r: String)
    ensures
        r@ == lowercase(s@),
        is_ascii_chars(s@) ==> r@ == s@.map_values(|c: char| ascii_lower_char(c)),
{
    s.to_lowercase()
}

/// Calls `str::get` with the byte range `start..end`: `None` unless the range
/// is in bounds and both ends are character boundaries, otherwise the slice
/// holding exactly those bytes.
#[verifier::external_body]
pub(crate) fn str_slice(s: &str, start: usize, end: usize) -> (r: Option<&str>)
    ensures
        r is Some <==> (start <= end <= s.spec_bytes().len() && is_char_boundary(
            s.spec_bytes(),
            start as int,
        ) && is_char_boundary(s.spec_bytes(), end as int)),
        r matches Some(x) ==> x.spec_bytes() == s.spec_bytes().subrange(start as int, end as int),
{
    s.get(start..end)
}

/// The ASCII digit character for `d` (below ten).
pub open spec fn digit_char(d: nat) -> char {
    (48 + d) as char
}

/// The decimal notation of `n`, without leading zeros (`"0"` for zero).
pub open spec fn decimal_chars(n: nat) -> Seq<char>
    decreases n,
{
    if n < 10 {
        seq![digit_char(n)]
    } else {
        decimal_chars(n / 10).push(digit_char(n % 10))
    }
}

fn push_decimal(n: u128, out: &mut Vec<char>)
    ensures
        final(out)@ == old(out)@ + decimal_chars(n as nat),
    decreases n,
{
    if n >= 10 {
        push_decimal(n / 10, out);
    }
    let d = (n % 10) as u8;
    let c = (48u8 + d) as char;
    assert(c == digit_char((n % 10) as nat));
    let ghost mid = out@;
    out.push(c);
    assert(out@ =~= old(out)@ + decimal_chars(n as nat));
}

/// The decimal notation of `n` (`u128`'s `Display`).
pub fn decimal_string(n: u128) -> (r: String)
    ensures
        r@ == decimal_chars(n as nat),
{
    let mut cs: Vec<char> = Vec::new();
    push_decimal(n, &mut cs);
    assert(cs@ =~= decimal_chars(n as nat));
    string_from_chars(cs.as_slice())
}

/// `str::floor_char_boundary`: the largest character boundary at or before
/// `i` (the length when `i` is past the end).
pub open spec fn floor_boundary(b: Seq<u8>, i: int) -> int
    decreases i,
{
    if i >= b.len() {
        b.len() as int
    } else if i <= 0 || !is_continuation_byte(b[i]) {
        if i < 0 { 0 } else { i }
    } else {
        floor_boundary(b, i - 1)
    }
}

/// `str::ceil_char_boundary`: the smallest character boundary at or after
/// `i` (the length when `i` is past the end).
pub open spec fn ceil_boundary(b: Seq<u8>, i: int) -> int
    decreases b.len() - i,
{
    if i >= b.len() {
        b.len() as int
    } else if i <= 0 || !is_continuation_byte(b[i]) {
        if i < 0 { 0 } else { i }
    } else {
        ceil_boundary(b, i + 1)
    }
}

pub proof fn lemma_boundary_is_char_boundary(b: Seq<u8>, i: int)
    requires
        valid_utf8(b),
        0 <= i <= b.len(),
        i == b.len() || i == 0 || !is_continuation_byte(b[i]),
    ensures
        is_char_boundary(b, i),
{
    lemma_end_boundaries(b);
    if 0 < i < b.len() {
        is_char_boundary_iff_not_is_continuation_byte(b, i);
    }
}

/// The floor boundary of a position inside `b` lies at or before it, at the
/// start or on a byte that begins a character.
pub proof fn lemma_floor_boundary_bounds(b: Seq<u8>, i: int)
    requires
        0 <= i < b.len(),
    ensures
        0 <= floor_boundary(b, i) <= i,
        floor_boundary(b, i) == 0 || !is_continuation_byte(b[floor_boundary(b, i)]),
    decreases i,
{
    if i > 0 && is_continuation_byte(b[i]) {
        lemma_floor_boundary_bounds(b, i - 1);
    }
}

/// The largest character boundary of `s` at or before `i`.
pub fn floor_char_boundary(s: &str, i: usize) -> (r: usize)
    ensures
        r == floor_boundary(s.spec_bytes(), i as int),
        r <= s.spec_bytes().len(),
        r <= i,
        is_char_boundary(s.spec_bytes(), r as int),
{
    let b = s.as_bytes();
    proof {
        encode_utf8_valid_utf8(s@);
    }
    if i >= b.len() {
        proof {
            lemma_boundary_is_char_boundary(b@, b@.len() as int);
        }
        return b.len();
    }
    let mut j = i;
    while j > 0 && 0x80 <= b[j] && b[j] <= 0xbf
        invariant
            j <= i < b@.len(),
            floor_boundary(b@, i as int) == floor_boundary(b@, j as int),
        decreases j,
    {
        j -= 1;
    }
    proof {
        lemma_boundary_is_char_boundary(b@, j as int);
    }
    j
}

/// The smallest character boundary of `s` at or after `i`.
pub fn ceil_char_boundary(s: &str, i: usize) -> (r: usize)
    ensures
        r == ceil_boundary(s.spec_bytes(), i as int),
        r <= s.spec_bytes().len(),
        i <= s.spec_bytes().len() ==> i <= r,
        is_char_boundary(s.spec_bytes(), r as int),
{
    let b = s.as_bytes();
    proof {
        encode_utf8_valid_utf8(s@);
    }
    let mut j = i;
    while j < b.len() && j > 0 && 0x80 <= b[j] && b[j] <= 0xbf
        invariant
            i <= j,
            ceil_boundary(b@, i as int) == ceil_boundary(b@, j as int),
        decreases b@.len() - j,
    {
        j += 1;
    }
    if j >= b.len() {
        proof {
            lemma_boundary_is_char_boundary(b@, b@.len() as int);
        }
        return b.len();
    }
    proof {
        lemma_boundary_is_char_boundary(b@, j as int);
    }
    j
}

/// A line without the carriage return of its `\r\n` ending.
pub open spec fn strip_cr(l: Seq<u8>) -> Seq<u8> {
    if l.len() > 0 && l.last() == 0x0d {
        l.drop_last()
    } else {
        l
    }
}

/// `str::lines` on bytes, scanning from `i` with the current line starting
/// at `start`: lines end at `\n` (and lose a `\r` before it); a final line
/// without a line ending counts too, an empty one does not.
pub open spec fn lines_from(b: Seq<u8>, start: int, i: int) -> Seq<Seq<u8>>
    decreases b.len() - i,
{
    if i < 0 || i >= b.len() {
        if 0 <= start < b.len() {
            seq![b.subrange(start, b.len() as int)]
        } else {
            seq![]
        }
    } else if b[i] == 0x0a {
        seq![strip_cr(b.subrange(start, i))] + lines_from(b, i + 1, i + 1)
    } else {
        lines_from(b, start, i + 1)
    }
}

/// Collects characters into a `String` (`FromIterator<char>`).
#[verifier::external_body]
pub(crate) fn string_from_chars(cs: &[char]) -> (r: String)
    ensures
        r@ == cs@,
{
    cs.iter().collect()
}

/// The slice of `s` holding the bytes `start..end`, when both ends sit next
/// to ASCII bytes or at the ends of `s`.
pub fn ascii_cut(s: &str, start: usize, end: usize) -> (r: &str)
    requires
        start <= end <= s.spec_bytes().len(),
        start == 0 || start == s.spec_bytes().len() || s.spec_bytes()[start as int] < 0x80
            || s.spec_bytes()[start - 1] < 0x80,
        end == 0 || end == s.spec_bytes().len() || s.spec_bytes()[end as int] < 0x80
            || s.spec_bytes()[end - 1] < 0x80,
    ensures
        r.spec_bytes() == s.spec_bytes().subrange(start as int, end as int),
        r@ == decode_utf8(s.spec_bytes().subrange(start as int, end as int)),
{
    let ghost b = s.spec_bytes();
    proof {
        encode_utf8_valid_utf8(s@);
        lemma_end_boundaries(b);
        if start < b.len() && b[start as int] < 0x80 {
            lemma_ascii_boundaries(b, start as int);
        } else if start > 0 && start < b.len() {
            lemma_ascii_boundaries(b, start - 1);
        }
        if end < b.len() && b[end as int] < 0x80 {
            lemma_ascii_boundaries(b, end as int);
        } else if end > 0 && end < b.len() {
            lemma_ascii_boundaries(b, end - 1);
        }
    }
    let r = str_slice(s, start, end);
    let x = r.unwrap();
    proof {
        encode_utf8_decode_utf8(x@);
    }
    x
}

} // verus!
