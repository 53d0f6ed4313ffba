//! Retry classification for failed model requests.
//!
//! An HTTP failure or a transport error is turned into a decision: retry
//! after a delay, retry with reduced output budgets (context overflow), or
//! give up.  Delays are whole milliseconds.  The backoff doubles per attempt
//! up to a cap, plus a jitter derived from the session id and attempt, so
//! the same session retries on the same schedule.
use vstd::arithmetic::power2::pow2;
use vstd::bits::lemma_u64_shl_is_mul;
use vstd::prelude::*;
use vstd::string::*;
use vstd::utf8::*;

use sha2::{Digest, Sha256};

use crate::text::{
    ascii_lower, ascii_lower_byte, contains_bytes, contains_slice, eq_ignore_ascii_case,
    eq_ignore_ascii_case_slice, find_bytes, first_occurrence, is_ascii_digit, is_ascii_digit_byte,
    decimal_chars, decimal_string, lemma_ascii_str_bytes, lemma_find_from_bounds, str_trim,
    trim_chars,
};

verus! {

broadcast use vstd::seq::group_seq_axioms;

pub const DEFAULT_MAX_RETRIES: u32 = 5;
pub const DEFAULT_BASE_DELAY_MS: u64 = 500;
pub const DEFAULT_MAX_BACKOFF_MS: u64 = 30_000;
pub const DEFAULT_JITTER_DIVISOR: u64 = 5;
pub const CONTEXT_OVERFLOW_SAFETY_BUFFER_TOKENS: u32 = 1024;
pub const MIN_CONTEXT_OVERFLOW_OUTPUT_TOKENS: u32 = 256;

/// How many times, and how patiently, a failed request is retried.
#[derive(Debug, Clone, Copy, PartialEq, Eq)]
pub struct RetryPolicy {
    pub max_retries: u32,
    pub base_delay_ms: u64,
    pub max_backoff_ms: u64,
    pub jitter_divisor: u64,
}

impl Default for RetryPolicy {
    fn default() -> (r: Self)
        ensures
            r == (RetryPolicy {
                max_retries: DEFAULT_MAX_RETRIES,
                base_delay_ms: DEFAULT_BASE_DELAY_MS,
                max_backoff_ms: DEFAULT_MAX_BACKOFF_MS,
                jitter_divisor: DEFAULT_JITTER_DIVISOR,
            }),
    {
        RetryPolicy {
            max_retries: DEFAULT_MAX_RETRIES,
            base_delay_ms: DEFAULT_BASE_DELAY_MS,
            max_backoff_ms: DEFAULT_MAX_BACKOFF_MS,
            jitter_divisor: DEFAULT_JITTER_DIVISOR,
        }
    }
}

/// Request settings changed for a retry.
#[derive(Debug, Clone, Copy, PartialEq, Eq)]
pub struct RequestOverrides {
    pub max_output_tokens: Option<u32>,
    pub reasoning_max_tokens: Option<u32>,
    pub context_overflow_retry_used: bool,
}

impl Default for RequestOverrides {
    fn default() -> (r: Self)
        ensures
            r == (RequestOverrides {
                max_output_tokens: None,
                reasoning_max_tokens: None,
                context_overflow_retry_used: false,
            }),
    {
        RequestOverrides { max_output_tokens: None, reasoning_max_tokens: None, context_overflow_retry_used: false }
    }
}

#[derive(Debug, Clone, Copy, PartialEq, Eq)]
pub enum RetryReason {
    RateLimit,
    Overloaded,
    ServerError,
    RequestTimeout,
    LockTimeout,
    Network,
    ContextOverflow,
}

/// What a retry will do: which attempt comes next, after what delay, and why.
#[derive(Debug, Clone, PartialEq, Eq)]
pub struct RetryStatus {
    pub attempt: u32,
    pub max_retries: u32,
    pub delay_ms: u128,
    pub reason: RetryReason,
    pub detail: String,
}

#[derive(Debug, Clone, PartialEq, Eq)]
pub enum RetryDecision {
    Retry { status: RetryStatus },
    RetryWithOverrides { status: RetryStatus, overrides: RequestOverrides },
    DoNotRetry,
}

/// A failed HTTP response, as far as the classification reads it: the
/// status, the text of the `Retry-After` and `x-should-retry` headers when
/// present and readable, and the body.
#[derive(Debug, Clone)]
pub struct HttpFailure {
    pub status: u16,
    pub retry_after: Option<String>,
    pub x_should_retry: Option<String>,
    pub body: String,
}

/// One error in a transport error's cause chain: its message, and whether
/// the HTTP client reported it as a timeout or a connect failure (both false
/// for causes that did not come from the HTTP client).
#[derive(Debug, Clone)]
pub struct TransportCause {
    pub message: String,
    pub is_timeout: bool,
    pub is_connect: bool,
}

/// A transport error: its cause chain, outermost first.
#[derive(Debug, Clone)]
pub struct TransportError {
    pub causes: Vec<TransportCause>,
}

/// The abstract content of a retry status.
pub struct StatusModel {
    pub attempt: u32,
    pub max_retries: u32,
    pub delay_ms: u128,
    pub reason: RetryReason,
    pub detail: Seq<char>,
}

/// The abstract content of a retry decision.
pub enum DecisionModel {
    Retry(StatusModel),
    RetryWithOverrides(StatusModel, RequestOverrides),
    DoNotRetry,
}

impl RetryStatus {
    pub open spec fn model(&self) -> StatusModel {
        StatusModel {
            attempt: self.attempt,
            max_retries: self.max_retries,
            delay_ms: self.delay_ms,
            reason: self.reason,
            detail: self.detail@,
        }
    }
}

impl RetryDecision {
    pub open spec fn model(&self) -> DecisionModel {
        match self {
            RetryDecision::Retry { status } => DecisionModel::Retry(status.model()),
            RetryDecision::RetryWithOverrides { status, overrides } => DecisionModel::RetryWithOverrides(
                status.model(),
                *overrides,
            ),
            RetryDecision::DoNotRetry => DecisionModel::DoNotRetry,
        }
    }
}

// =============================================================================
// Backoff
// =============================================================================

/// `a.min(b)`.
pub open spec fn min_u64(a: u64, b: u64) -> u64 {
    if a <= b {
        a
    } else {
        b
    }
}

/// The exponential backoff for `attempt`: the base delay doubled once per
/// attempt after the first (at most 31 times), saturating, and capped at the
/// maximum backoff.
pub open spec fn capped_backoff(policy: RetryPolicy, attempt: u32) -> u64 {
    let exponent: nat = if attempt == 0 {
        0
    } else if attempt - 1 > 31 {
        31
    } else {
        (attempt - 1) as nat
    };
    let product = policy.base_delay_ms * pow2(exponent);
    let saturated: u64 = if product > u64::MAX {
        u64::MAX
    } else {
        product as u64
    };
    min_u64(saturated, policy.max_backoff_ms)
}

pub fn capped_backoff_ms(policy: &RetryPolicy, attempt: u32) -> (r: u64)
    ensures
        r == capped_backoff(*policy, attempt),
{
    let exponent: u32 = if attempt.saturating_sub(1) < 31 {
        attempt.saturating_sub(1)
    } else {
        31
    };
    let shift = exponent as u64;
    proof {
        vstd::bits::lemma_u64_pow2_no_overflow(shift as nat);
        lemma_u64_shl_is_mul(1, shift);
    }
    let factor: u64 = 1u64 << shift;
    assert(factor == pow2(shift as nat));
    let product: u64 = match policy.base_delay_ms.checked_mul(factor) {
        Some(p) => p,
        None => u64::MAX,
    };
    if product < policy.max_backoff_ms {
        product
    } else {
        policy.max_backoff_ms
    }
}

/// The big-endian value of a byte sequence.
pub open spec fn be_value(bytes: Seq<u8>) -> nat
    decreases bytes.len(),
{
    if bytes.len() == 0 {
        0
    } else {
        be_value(bytes.drop_last()) * 256 + bytes.last() as nat
    }
}

/// `u32::to_be_bytes`.
pub open spec fn u32_be_bytes(x: u32) -> Seq<u8> {
    seq![
        (x / 16777216) as u8,
        ((x / 65536) % 256) as u8,
        ((x / 256) % 256) as u8,
        (x % 256) as u8,
    ]
}

/// The SHA-256 digest of `data`.
pub uninterp spec fn sha256_digest(data: Seq<u8>) -> Seq<u8>;

/// Calls `Sha256::digest` (sha2): the 32-byte SHA-256 digest of `data`.
#[verifier::external_body]
pub(crate) fn sha256(data: &[u8]) -> (r: Vec<u8>)
    ensures
        r@ == sha256_digest(data@),
        r@.len() == 32,
{
    Sha256::digest(data).to_vec()
}

/// The jitter for `attempt` of the session with id bytes `session_id`: the
/// first eight bytes of SHA-256 over the id bytes and the attempt (big
/// endian), read as a big-endian number, modulo `max_jitter_ms + 1`.
pub open spec fn jitter(session_id: Seq<u8>, attempt: u32, max_jitter_ms: u64) -> u64 {
    if max_jitter_ms == 0 {
        0
    } else {
        (be_value(sha256_digest(session_id + u32_be_bytes(attempt)).subrange(0, 8)) % (max_jitter_ms
            + 1) as nat) as u64
    }
}

proof fn lemma_be_value_bound(bytes: Seq<u8>)
    ensures
        be_value(bytes) < pow2(8 * bytes.len()),
    decreases bytes.len(),
{
    vstd::arithmetic::power2::lemma2_to64();
    if bytes.len() > 0 {
        let rest = bytes.drop_last();
        lemma_be_value_bound(rest);
        vstd::arithmetic::power2::lemma_pow2_adds(8 * rest.len(), 8);
        let v = be_value(rest);
        let p = pow2(8 * rest.len());
        assert(v * 256 + bytes.last() < p * 256) by (nonlinear_arith)
            requires
                v < p,
                bytes.last() < 256,
        ;
        assert(8 * bytes.len() == 8 * rest.len() + 8);
    }
}

pub fn deterministic_jitter_ms(session_id: &[u8; 16], attempt: u32, max_jitter_ms: u64) -> (r: u64)
    requires
        max_jitter_ms < u64::MAX,
    ensures
        r == jitter(session_id@, attempt, max_jitter_ms),
        r <= max_jitter_ms,
{
    if max_jitter_ms == 0 {
        return 0;
    }
    let mut data: Vec<u8> = Vec::new();
    let mut k: usize = 0;
    while k < 16
        invariant
            k <= 16,
            data@ == session_id@.subrange(0, k as int),
        decreases 16 - k,
    {
        data.push(session_id[k]);
        k += 1;
        assert(data@ =~= session_id@.subrange(0, k as int));
    }
    data.push((attempt / 16777216) as u8);
    data.push(((attempt / 65536) % 256) as u8);
    data.push(((attempt / 256) % 256) as u8);
    data.push((attempt % 256) as u8);
    assert(data@ =~= session_id@ + u32_be_bytes(attempt));
    let digest = sha256(data.as_slice());
    jitter_from_digest(digest.as_slice(), max_jitter_ms)
}

/// The jitter a digest gives: its first eight bytes as a big-endian number,
/// modulo `max_jitter_ms + 1`.
pub fn jitter_from_digest(digest: &[u8], max_jitter_ms: u64) -> (r: u64)
    requires
        digest@.len() >= 8,
        max_jitter_ms < u64::MAX,
    ensures
        r == (be_value(digest@.subrange(0, 8)) % (max_jitter_ms + 1) as nat) as u64,
        r <= max_jitter_ms,
{
    let ghost d = digest@.subrange(0, 8);
    let mut value: u64 = 0;
    let mut i: usize = 0;
    while i < 8
        invariant
            i <= 8,
            digest@.len() >= 8,
            d == digest@.subrange(0, 8),
            value == be_value(digest@.subrange(0, i as int)),
        decreases 8 - i,
    {
        proof {
            lemma_be_value_bound(digest@.subrange(0, i as int));
            vstd::arithmetic::power2::lemma2_to64();
            vstd::arithmetic::power2::lemma2_to64_rest();
            if i < 7 {
                vstd::arithmetic::power2::lemma_pow2_strictly_increases(8 * i as nat, 56);
            }
            assert(digest@.subrange(0, i as int).len() == i);
            assert(value < pow2(8 * i as nat));
            assert(value < 0x100000000000000);
            assert(digest@.subrange(0, i + 1).drop_last() =~= digest@.subrange(0, i as int));
        }
        value = value * 256 + digest[i] as u64;
        i += 1;
    }
    assert(digest@.subrange(0, 8) =~= d);
    value % (max_jitter_ms + 1)
}

/// The delay used when the server names none: the capped backoff plus a
/// jitter of at most a `1/jitter_divisor` share of it (at least one
/// millisecond), or no jitter once the cap is reached or when the divisor
/// is zero.
pub open spec fn fallback_delay(policy: RetryPolicy, attempt: u32, session_id: Seq<u8>) -> u64 {
    let base = capped_backoff(policy, attempt);
    let bound: u64 = if base >= policy.max_backoff_ms || policy.jitter_divisor == 0 {
        0
    } else if base / policy.jitter_divisor < 1 {
        1
    } else {
        base / policy.jitter_divisor
    };
    let j = jitter(session_id, attempt, bound);
    if base + j > u64::MAX {
        u64::MAX
    } else {
        (base + j) as u64
    }
}

pub fn fallback_delay_ms(policy: &RetryPolicy, attempt: u32, session_id: &[u8; 16]) -> (r: u64)
    ensures
        r == fallback_delay(*policy, attempt, session_id@),
{
    let base_delay_ms = capped_backoff_ms(policy, attempt);
    let max_backoff_ms = policy.max_backoff_ms;
    let jitter_bound_ms: u64 = if base_delay_ms >= max_backoff_ms || policy.jitter_divisor == 0 {
        0
    } else if base_delay_ms / policy.jitter_divisor < 1 {
        1
    } else {
        base_delay_ms / policy.jitter_divisor
    };
    let jitter_ms = deterministic_jitter_ms(session_id, attempt, jitter_bound_ms);
    base_delay_ms.saturating_add(jitter_ms)
}


// =============================================================================
// Reading the failure
// =============================================================================

/// `to_ascii_lowercase` on bytes.
pub open spec fn ascii_lowered(b: Seq<u8>) -> Seq<u8> {
    b.map_values(|c: u8| ascii_lower(c))
}

fn ascii_lowered_vec(b: &[u8]) -> (r: Vec<u8>)
    ensures
        r@ == ascii_lowered(b@),
{
    let mut out: Vec<u8> = Vec::new();
    let mut i: usize = 0;
    while i < b.len()
        invariant
            i <= b@.len(),
            out@ == ascii_lowered(b@.subrange(0, i as int)),
        decreases b@.len() - i,
    {
        out.push(ascii_lower_byte(b[i]));
        i += 1;
        assert(out@ =~= ascii_lowered(b@.subrange(0, i as int)));
    }
    assert(b@.subrange(0, b@.len() as int) =~= b@);
    out
}

/// The body names an `overloaded_error` (in any case).
pub open spec fn overloaded_marker(body: Seq<u8>) -> bool {
    contains_bytes(ascii_lowered(body), "overloaded_error".spec_bytes())
}

pub fn has_overloaded_marker(body: &str) -> (r: bool)
    ensures
        r == overloaded_marker(body.spec_bytes()),
{
    let lower = ascii_lowered_vec(body.as_bytes());
    contains_slice(lower.as_slice(), "overloaded_error".as_bytes())
}

/// The `x-should-retry` header: `true` or `false` in any case, after
/// trimming; anything else says nothing.
pub open spec fn x_should_retry_of(value: Option<Seq<char>>) -> Option<bool> {
    match value {
        None => None,
        Some(v) => {
            let t = encode_utf8(trim_chars(v));
            if eq_ignore_ascii_case(t, "true".spec_bytes()) {
                Some(true)
            } else if eq_ignore_ascii_case(t, "false".spec_bytes()) {
                Some(false)
            } else {
                None
            }
        },
    }
}

/// The character view of an optional string.
pub open spec fn opt_string_view(v: Option<String>) -> Option<Seq<char>> {
    match v {
        Some(s) => Some(s@),
        None => None,
    }
}

pub fn parse_x_should_retry(value: &Option<String>) -> (r: Option<bool>)
    ensures
        r == x_should_retry_of(opt_string_view(*value)),
{
    match value {
        None => None,
        Some(v) => {
            let t = str_trim(v.as_str());
            if eq_ignore_ascii_case_slice(t.as_bytes(), "true".as_bytes()) {
                Some(true)
            } else if eq_ignore_ascii_case_slice(t.as_bytes(), "false".as_bytes()) {
                Some(false)
            } else {
                None
            }
        },
    }
}

/// The decimal value of a run of ASCII digits.
pub open spec fn digits_value(d: Seq<u8>) -> nat
    decreases d.len(),
{
    if d.len() == 0 {
        0
    } else {
        digits_value(d.drop_last()) * 10 + (d.last() - 48) as nat
    }
}

/// The numbers written in `s` as maximal runs of ASCII digits, scanning from
/// byte `i` with the digits `cur` of the current run; runs whose value does
/// not fit in a `u32` are skipped.
pub open spec fn u32_values_from(s: Seq<u8>, i: int, cur: Seq<u8>) -> Seq<u32>
    decreases s.len() - i,
{
    let done: Seq<u32> = if cur.len() > 0 && digits_value(cur) <= u32::MAX {
        seq![digits_value(cur) as u32]
    } else {
        seq![]
    };
    if i < 0 || i >= s.len() {
        done
    } else if is_ascii_digit(s[i]) {
        u32_values_from(s, i + 1, cur.push(s[i]))
    } else {
        done + u32_values_from(s, i + 1, seq![])
    }
}

/// The numbers written in `s` that fit in a `u32`, in order.
pub open spec fn u32_values(s: Seq<u8>) -> Seq<u32> {
    u32_values_from(s, 0, seq![])
}

proof fn lemma_digits_value_grows(d: Seq<u8>, c: u8)
    requires
        is_ascii_digit(c),
    ensures
        digits_value(d.push(c)) == digits_value(d) * 10 + (c - 48),
        digits_value(d.push(c)) >= digits_value(d),
{
    assert(d.push(c).drop_last() =~= d);
}

pub fn extract_u32_values(input: &[u8]) -> (r: Vec<u32>)
    ensures
        r@ == u32_values(input@),
{
    let mut values: Vec<u32> = Vec::new();
    let ghost mut cur: Seq<u8> = seq![];
    let mut value: u32 = 0;
    let mut too_big = false;
    let mut in_run = false;
    let mut i: usize = 0;
    while i < input.len()
        invariant
            i <= input@.len(),
            in_run <==> cur.len() > 0,
            too_big <==> digits_value(cur) > u32::MAX,
            !too_big ==> value == digits_value(cur),
            forall|k: int| 0 <= k < cur.len() ==> is_ascii_digit(#[trigger] cur[k]),
            values@ + u32_values_from(input@, i as int, cur) == u32_values(input@),
        decreases input@.len() - i,
    {
        let c = input[i];
        if is_ascii_digit_byte(c) {
            proof {
                lemma_digits_value_grows(cur, c);
            }
            if !too_big {
                let d = (c - 48) as u32;
                if value > 429496729 || (value == 429496729 && d > 5) {
                    too_big = true;
                } else {
                    value = value * 10 + d;
                }
            }
            proof {
                cur = cur.push(c);
            }
            in_run = true;
        } else {
            let ghost before = values@;
            if in_run && !too_big {
                values.push(value);
            }
            assert(values@ + u32_values_from(input@, i + 1, seq![]) =~= before + u32_values_from(
                input@,
                i as int,
                cur,
            ));
            proof {
                cur = seq![];
            }
            value = 0;
            too_big = false;
            in_run = false;
        }
        i += 1;
    }
    if in_run && !too_big {
        values.push(value);
    }
    assert(values@ =~= u32_values(input@));
    values
}

/// The first number in `s`, if any.
pub open spec fn first_u32(s: Seq<u8>) -> Option<u32> {
    if u32_values(s).len() > 0 {
        Some(u32_values(s)[0])
    } else {
        None
    }
}

/// The last number in `s`, if any.
pub open spec fn last_u32(s: Seq<u8>) -> Option<u32> {
    if u32_values(s).len() > 0 {
        Some(u32_values(s).last())
    } else {
        None
    }
}

fn parse_first_u32(input: &[u8]) -> (r: Option<u32>)
    ensures
        r == first_u32(input@),
{
    let values = extract_u32_values(input);
    if values.len() > 0 {
        Some(values[0])
    } else {
        None
    }
}

fn parse_last_u32(input: &[u8]) -> (r: Option<u32>)
    ensures
        r == last_u32(input@),
{
    let values = extract_u32_values(input);
    if values.len() > 0 {
        Some(values[values.len() - 1])
    } else {
        None
    }
}


// =============================================================================
// Context overflow
// =============================================================================

/// The string at the JSON pointer `pointer` of a body that parses as JSON;
/// `None` when it does not parse or holds no string there.
pub uninterp spec fn json_pointer_string(body: Seq<char>, pointer: Seq<char>) -> Option<Seq<char>>;

/// The string under the top-level key `key` of a body that parses as JSON;
/// `None` when it does not parse or holds no string there.
pub uninterp spec fn json_key_string(body: Seq<char>, key: Seq<char>) -> Option<Seq<char>>;

/// Parses `body` with `serde_json::from_str` into a `serde_json::Value` and
/// makes two lookups in it: `Value::pointer(pointer)` and `Value::get(key)`,
/// each kept where it is a string (`as_str`).  Both are `None` when the body
/// is not JSON.
#[verifier::external_body]
fn json_string_lookups(body: &str, pointer: &str, key: &str) -> (r: (Option<String>, Option<String>))
    ensures
        opt_string_view(r.0) == json_pointer_string(body@, pointer@),
        opt_string_view(r.1) == json_key_string(body@, key@),
{
    let parsed: serde_json::Value = match serde_json::from_str(body) {
        Ok(v) => v,
        Err(_) => return (None, None),
    };
    (
        parsed.pointer(pointer).and_then(|v| v.as_str()).map(|m| m.to_owned()),
        parsed.get(key).and_then(|v| v.as_str()).map(|m| m.to_owned()),
    )
}

/// The message of a JSON error body: the string at `/error/message`, or else
/// the top-level `message` string.
pub open spec fn json_error_message(body: Seq<char>) -> Option<Seq<char>> {
    match json_pointer_string(body, "/error/message"@) {
        Some(m) => Some(m),
        None => json_key_string(body, "message"@),
    }
}

/// The message of a JSON error body, preferring `/error/message` over the
/// top-level `message`.
fn extract_error_message(body: &str) -> (r: Option<String>)
    ensures
        opt_string_view(r) == json_error_message(body@),
{
    let (nested, top_level) = json_string_lookups(body, "/error/message", "message");
    match nested {
        Some(m) => Some(m),
        None => top_level,
    }
}

/// The token counts of a context-overflow error:
/// `... context limit: <input> + <requested> > <limit>`.
#[derive(Debug, Clone, Copy, PartialEq, Eq)]
pub struct ContextOverflow {
    pub input_tokens: u32,
    pub requested_tokens: u32,
    pub context_limit: u32,
}

/// The bytes of the error message of `body`: the JSON error message when
/// there is one, otherwise the body itself.
pub open spec fn overflow_message_bytes(body: Seq<char>) -> Seq<u8> {
    match json_error_message(body) {
        Some(m) => encode_utf8(m),
        None => encode_utf8(body),
    }
}

/// The context overflow that the message `m` reports: it must mention
/// `context limit` and `max_tokens` (in any case); after the first
/// `context limit` come the input tokens (the last number before `+`), the
/// requested tokens (the first number between `+` and `>`) and the limit
/// (the first number after `>`).
pub open spec fn context_overflow_in(m: Seq<u8>) -> Option<ContextOverflow> {
    let lower = ascii_lowered(m);
    if !(contains_bytes(lower, "context limit".spec_bytes()) && contains_bytes(
        lower,
        "max_tokens".spec_bytes(),
    )) {
        None
    } else {
        match first_occurrence(lower, "context limit".spec_bytes()) {
            None => None,
            Some(marker) => {
                let e = m.subrange(marker + 13, m.len() as int);
                match first_occurrence(e, "+".spec_bytes()) {
                    None => None,
                    Some(plus) => match first_occurrence(
                        e.subrange(plus + 1, e.len() as int),
                        ">".spec_bytes(),
                    ) {
                        None => None,
                        Some(g) => {
                            let gt = plus + 1 + g;
                            match (
                                last_u32(e.subrange(0, plus)),
                                first_u32(e.subrange(plus + 1, gt)),
                                first_u32(e.subrange(gt + 1, e.len() as int)),
                            ) {
                                (Some(a), Some(b), Some(c)) => Some(
                                    ContextOverflow {
                                        input_tokens: a,
                                        requested_tokens: b,
                                        context_limit: c,
                                    },
                                ),
                                _ => None,
                            }
                        },
                    },
                }
            },
        }
    }
}

pub fn parse_context_overflow(body: &str) -> (r: Option<ContextOverflow>)
    ensures
        r == context_overflow_in(overflow_message_bytes(body@)),
{
    let owned_message = extract_error_message(body);
    let message: &str = match &owned_message {
        Some(m) => m.as_str(),
        None => body,
    };
    assert(message.spec_bytes() == overflow_message_bytes(body@));
    parse_context_overflow_message(message)
}

/// The token counts of the context-overflow error message `message`, if it
/// is one.
pub fn parse_context_overflow_message(message: &str) -> (r: Option<ContextOverflow>)
    ensures
        r == context_overflow_in(message.spec_bytes()),
{
    let m = message.as_bytes();
    let ghost mb = m@;
    let lower = ascii_lowered_vec(m);
    proof {
        reveal_strlit("context limit");
        reveal_strlit("+");
        reveal_strlit(">");
        assert(is_ascii("context limit"));
        assert(is_ascii("+"));
        assert(is_ascii(">"));
        lemma_ascii_str_bytes("context limit");
        lemma_ascii_str_bytes("+");
        lemma_ascii_str_bytes(">");
    }
    if !(contains_slice(lower.as_slice(), "context limit".as_bytes()) && contains_slice(
        lower.as_slice(),
        "max_tokens".as_bytes(),
    )) {
        return None;
    }
    let marker = match find_bytes(lower.as_slice(), "context limit".as_bytes()) {
        Some(i) => i,
        None => {
            return None;
        },
    };
    proof {
        lemma_find_from_bounds(lower@, "context limit".spec_bytes(), 0);
        assert("context limit".spec_bytes().len() == 13);
        assert(lower@.len() == m@.len());
        assert(marker + 13 <= m@.len());
    }
    let mlen = m.len();
    let expression = &m[marker + 13..mlen];
    let plus = match find_bytes(expression, "+".as_bytes()) {
        Some(i) => i,
        None => {
            return None;
        },
    };
    proof {
        lemma_find_from_bounds(expression@, "+".spec_bytes(), 0);
        assert("+".spec_bytes().len() == 1);
    }
    let rest = &expression[plus + 1..expression.len()];
    let g = match find_bytes(rest, ">".as_bytes()) {
        Some(i) => i,
        None => {
            return None;
        },
    };
    proof {
        lemma_find_from_bounds(rest@, ">".spec_bytes(), 0);
        assert(">".spec_bytes().len() == 1);
    }
    let greater_than = plus + 1 + g;
    let input_tokens = match parse_last_u32(&expression[0..plus]) {
        Some(v) => v,
        None => {
            return None;
        },
    };
    let requested_tokens = match parse_first_u32(&expression[plus + 1..greater_than]) {
        Some(v) => v,
        None => {
            return None;
        },
    };
    let context_limit = match parse_first_u32(&expression[greater_than + 1..expression.len()]) {
        Some(v) => v,
        None => {
            return None;
        },
    };
    Some(ContextOverflow { input_tokens, requested_tokens, context_limit })
}

/// `a.saturating_sub(b)`.
pub open spec fn sat_sub(a: u32, b: u32) -> u32 {
    if a >= b {
        (a - b) as u32
    } else {
        0
    }
}

/// The output tokens left for a retry: the limit less the input and a
/// safety buffer, at most the tokens that were requested.
pub open spec fn overflow_output_budget(o: ContextOverflow) -> u32 {
    let available = sat_sub(sat_sub(o.context_limit, o.input_tokens), CONTEXT_OVERFLOW_SAFETY_BUFFER_TOKENS);
    if available <= o.requested_tokens {
        available
    } else {
        o.requested_tokens
    }
}

/// The retry status for a context overflow: only for a 400 whose body reports
/// one, once per request, and only when at least the minimum output budget
/// is left.
pub open spec fn overflow_status(
    policy: RetryPolicy,
    f: HttpFailure,
    attempt: u32,
    ov: RequestOverrides,
) -> Option<StatusModel> {
    if f.status != 400 || ov.context_overflow_retry_used {
        None
    } else {
        match context_overflow_in(overflow_message_bytes(f.body@)) {
            None => None,
            Some(o) => {
                let available = sat_sub(
                    sat_sub(o.context_limit, o.input_tokens),
                    CONTEXT_OVERFLOW_SAFETY_BUFFER_TOKENS,
                );
                if available < MIN_CONTEXT_OVERFLOW_OUTPUT_TOKENS {
                    None
                } else {
                    Some(
                        StatusModel {
                            attempt: (attempt + 1) as u32,
                            max_retries: policy.max_retries,
                            delay_ms: 0,
                            reason: RetryReason::ContextOverflow,
                            detail: "max_output_tokens="@ + decimal_chars(overflow_output_budget(o) as nat),
                        },
                    )
                }
            },
        }
    }
}

/// The overrides for a context-overflow retry: the reduced output budget, a
/// reasoning budget kept below it, and the overflow retry marked as used.
pub open spec fn overflow_overrides(f: HttpFailure, ov: RequestOverrides) -> RequestOverrides {
    match context_overflow_in(overflow_message_bytes(f.body@)) {
        None => ov,
        Some(o) => {
            let m = overflow_output_budget(o);
            RequestOverrides {
                max_output_tokens: Some(m),
                reasoning_max_tokens: match ov.reasoning_max_tokens {
                    Some(budget) => Some(
                        if budget <= sat_sub(m, 1) {
                            budget
                        } else {
                            sat_sub(m, 1)
                        },
                    ),
                    None => None,
                },
                context_overflow_retry_used: true,
            }
        },
    }
}

fn context_overflow_retry_status(
    policy: &RetryPolicy,
    failure: &HttpFailure,
    attempt: u32,
    current_overrides: &RequestOverrides,
) -> (r: Option<RetryStatus>)
    requires
        attempt < u32::MAX,
    ensures
        match r {
            Some(st) => overflow_status(*policy, *failure, attempt, *current_overrides) == Some(st.model()),
            None => overflow_status(*policy, *failure, attempt, *current_overrides) is None,
        },
{
    if failure.status != 400 || current_overrides.context_overflow_retry_used {
        return None;
    }
    let overflow = match parse_context_overflow(failure.body.as_str()) {
        Some(o) => o,
        None => {
            return None;
        },
    };
    let available_output = overflow.context_limit.saturating_sub(overflow.input_tokens).saturating_sub(
        CONTEXT_OVERFLOW_SAFETY_BUFFER_TOKENS,
    );
    if available_output < MIN_CONTEXT_OVERFLOW_OUTPUT_TOKENS {
        return None;
    }
    let max_output_tokens = if available_output <= overflow.requested_tokens {
        available_output
    } else {
        overflow.requested_tokens
    };
    let mut detail = <String as StringExecFns>::from_str("max_output_tokens=");
    let digits = decimal_string(max_output_tokens as u128);
    detail.append(digits.as_str());
    proof {
        reveal_strlit("max_output_tokens=");
    }
    Some(
        RetryStatus {
            attempt: attempt + 1,
            max_retries: policy.max_retries,
            delay_ms: 0,
            reason: RetryReason::ContextOverflow,
            detail,
        },
    )
}

fn apply_context_overflow_override(failure: &HttpFailure, current_overrides: &RequestOverrides) -> (r:
    RequestOverrides)
    ensures
        r == overflow_overrides(*failure, *current_overrides),
{
    let overflow = match parse_context_overflow(failure.body.as_str()) {
        Some(o) => o,
        None => {
            return *current_overrides;
        },
    };
    let available_output = overflow.context_limit.saturating_sub(overflow.input_tokens).saturating_sub(
        CONTEXT_OVERFLOW_SAFETY_BUFFER_TOKENS,
    );
    let max_output_tokens = if available_output <= overflow.requested_tokens {
        available_output
    } else {
        overflow.requested_tokens
    };
    let cap = max_output_tokens.saturating_sub(1);
    RequestOverrides {
        max_output_tokens: Some(max_output_tokens),
        reasoning_max_tokens: match current_overrides.reasoning_max_tokens {
            Some(budget) => Some(
                if budget <= cap {
                    budget
                } else {
                    cap
                },
            ),
            None => None,
        },
        context_overflow_retry_used: true,
    }
}


// =============================================================================
// Retry-After
// =============================================================================

/// The bytes `s` without one leading `+`.
pub open spec fn sign_stripped(s: Seq<u8>) -> Seq<u8> {
    if s.len() > 0 && s[0] == 0x2b {
        s.subrange(1, s.len() as int)
    } else {
        s
    }
}

/// Every byte of `d` is an ASCII digit.
pub open spec fn all_digits(d: Seq<u8>) -> bool {
    forall|i: int| 0 <= i < d.len() ==> is_ascii_digit(#[trigger] d[i])
}

/// `u64::from_str` on the bytes `s`: an optional `+`, then one or more ASCII
/// digits whose value fits in a `u64`.
pub open spec fn u64_parse(s: Seq<u8>) -> Option<u64> {
    let d = sign_stripped(s);
    if d.len() > 0 && all_digits(d) && digits_value(d) <= u64::MAX {
        Some(digits_value(d) as u64)
    } else {
        None
    }
}

#[verifier::loop_isolation(false)]
pub fn parse_u64(s: &[u8]) -> (r: Option<u64>)
    ensures
        r == u64_parse(s@),
{
    let len = s.len();
    let start: usize = if len > 0 && s[0] == 0x2b {
        1
    } else {
        0
    };
    let ghost d = sign_stripped(s@);
    assert(d =~= s@.subrange(start as int, len as int));
    if start == len {
        return None;
    }
    let mut value: u64 = 0;
    let mut i = start;
    while i < len
        invariant
            start <= i <= len,
            len == s@.len(),
            d == s@.subrange(start as int, len as int),
            forall|k: int| 0 <= k < i - start ==> is_ascii_digit(#[trigger] d[k]),
            value == digits_value(d.subrange(0, i - start)),
        decreases len - i,
    {
        let c = s[i];
        if !is_ascii_digit_byte(c) {
            assert(d[i - start] == c);
            assert(!is_ascii_digit(d[i - start]));
            return None;
        }
        let digit = (c - 48) as u64;
        proof {
            assert(d[i - start] == c);
            lemma_digits_value_grows(d.subrange(0, i - start), c);
            assert(d.subrange(0, i - start).push(c) =~= d.subrange(0, i + 1 - start));
        }
        if value > 1844674407370955161 || (value == 1844674407370955161 && digit > 5) {
            proof {
                if all_digits(d) {
                    lemma_digits_value_prefix_bound(d, i + 1 - start);
                    assert(digits_value(d.subrange(0, i + 1 - start)) > u64::MAX);
                }
            }
            return None;
        }
        value = value * 10 + digit;
        i += 1;
    }
    assert(d.subrange(0, len - start) =~= d);
    Some(value)
}

proof fn lemma_digits_value_prefix_bound(d: Seq<u8>, n: int)
    requires
        0 <= n <= d.len(),
        forall|k: int| 0 <= k < d.len() ==> is_ascii_digit(#[trigger] d[k]),
    ensures
        digits_value(d) >= digits_value(d.subrange(0, n)),
    decreases d.len() - n,
{
    if n < d.len() {
        lemma_digits_value_grows(d.subrange(0, n), d[n]);
        assert(d.subrange(0, n).push(d[n]) =~= d.subrange(0, n + 1));
        lemma_digits_value_prefix_bound(d, n + 1);
    } else {
        assert(d.subrange(0, n) =~= d);
    }
}

/// The instant, in milliseconds since the Unix epoch, that an RFC 2822 date
/// names.
pub uninterp spec fn rfc2822_instant_ms(value: Seq<char>) -> Option<i64>;

/// Calls `chrono::DateTime::parse_from_rfc2822` and, on success, returns the
/// parsed instant as `timestamp_millis`.
#[verifier::external_body]
fn parse_rfc2822_ms(value: &str) -> (r: Option<i64>)
    ensures
        r == rfc2822_instant_ms(value@),
{
    match chrono::DateTime::parse_from_rfc2822(value) {
        Ok(at) => Some(at.timestamp_millis()),
        Err(_) => None,
    }
}

/// Reads the system clock: `std::time::SystemTime::now`, measured from the
/// Unix epoch by `duration_since(UNIX_EPOCH)` and counted in whole
/// milliseconds by `Duration::as_millis`.  A clock at or after the epoch
/// gives `(false, ms)`; one before it makes `duration_since` fail with a
/// `SystemTimeError` whose `duration` is how far before, which gives
/// `(true, ms)`.  Nothing else is stated of the value: it is the time.
#[verifier::external_body]
fn clock_millis_since_epoch() -> (r: (bool, u128)) {
    match std::time::SystemTime::now().duration_since(std::time::UNIX_EPOCH) {
        Ok(elapsed) => (false, elapsed.as_millis()),
        Err(before) => (true, before.duration().as_millis()),
    }
}

/// The clock in milliseconds since the Unix epoch, negative before it, held
/// at the ends of `i64` (hundreds of millions of years away).
pub(crate) fn current_time_ms() -> i64 {
    let (before_epoch, ms) = clock_millis_since_epoch();
    if before_epoch {
        if ms <= i64::MAX as u128 {
            -(ms as i64)
        } else {
            i64::MIN
        }
    } else if ms <= i64::MAX as u128 {
        ms as i64
    } else {
        i64::MAX
    }
}

/// The delay that a `Retry-After` value asks for at the instant `now_ms`:
/// whole seconds, or the time until an HTTP date (zero once it has passed).
pub open spec fn retry_after_delay(value: Option<Seq<char>>, now_ms: i64) -> Option<u128> {
    match value {
        None => None,
        Some(v) => {
            let t = trim_chars(v);
            match u64_parse(encode_utf8(t)) {
                Some(secs) => Some((secs * 1000) as u128),
                None => match rfc2822_instant_ms(t) {
                    None => None,
                    Some(at) => if at - now_ms <= 0 {
                        Some(0)
                    } else {
                        Some((at - now_ms) as u128)
                    },
                },
            }
        },
    }
}

/// The delay that `value` asks for with the clock read as `now_ms`.
pub fn parse_retry_after_at(value: &Option<String>, now_ms: i64) -> (r: Option<u128>)
    ensures
        r == retry_after_delay(opt_string_view(*value), now_ms),
{
    let v = match value {
        Some(v) => v,
        None => {
            return None;
        },
    };
    let t = str_trim(v.as_str());
    if let Some(seconds) = parse_u64(t.as_bytes()) {
        return Some(seconds as u128 * 1000);
    }
    retry_after_delay_until(parse_rfc2822_ms(t), now_ms)
}

/// The delay until the instant `retry_at_ms` (when a date was read) as seen
/// at `now_ms`: none without a date, zero once it has passed.
pub fn retry_after_delay_until(retry_at_ms: Option<i64>, now_ms: i64) -> (r: Option<u128>)
    ensures
        r == match retry_at_ms {
            None => None,
            Some(at) => if at - now_ms <= 0 {
                Some(0u128)
            } else {
                Some((at - now_ms) as u128)
            },
        },
{
    let at = match retry_at_ms {
        Some(at) => at,
        None => {
            return None;
        },
    };
    let delay: i128 = at as i128 - now_ms as i128;
    if delay <= 0 {
        return Some(0);
    }
    Some(delay as u128)
}

// =============================================================================
// Decisions
// =============================================================================

/// `"{status} overloaded provider"`, without the status for the codes that
/// usually carry the marker.
pub open spec fn overloaded_detail(status: u16) -> Seq<char> {
    if status == 400 || status == 500 || status == 502 || status == 503 || status == 504 {
        "overloaded provider"@
    } else {
        decimal_chars(status as nat) + " overloaded provider"@
    }
}

/// `"{status} server error"`.
pub open spec fn server_error_detail(status: u16) -> Seq<char> {
    decimal_chars(status as nat) + " server error"@
}

/// Which statuses are retried, and why.
pub open spec fn retry_classification_of(status: u16, x_should_retry: Option<bool>, is_overloaded: bool) -> Option<
    (RetryReason, Seq<char>),
> {
    if status == 408 {
        Some((RetryReason::RequestTimeout, "408 request timeout"@))
    } else if status == 409 {
        Some((RetryReason::LockTimeout, "409 lock timeout"@))
    } else if status == 429 {
        Some((RetryReason::RateLimit, "429 rate limit"@))
    } else if status == 529 {
        Some((RetryReason::Overloaded, overloaded_detail(status)))
    } else if status == 500 || status == 502 || status == 503 || status == 504 {
        if is_overloaded {
            Some((RetryReason::Overloaded, overloaded_detail(status)))
        } else {
            Some((RetryReason::ServerError, server_error_detail(status)))
        }
    } else if is_overloaded {
        Some((RetryReason::Overloaded, overloaded_detail(status)))
    } else if x_should_retry == Some(true) && 500 <= status < 600 {
        Some((RetryReason::ServerError, server_error_detail(status)))
    } else {
        None
    }
}

/// Why a status is retried, and how it is reported.
struct RetryClassification {
    reason: RetryReason,
    detail: String,
}

fn fixed_retry_classification(reason: RetryReason, detail: &str) -> (r: RetryClassification)
    ensures
        r.reason == reason,
        r.detail@ == detail@,
{
    RetryClassification { reason, detail: <String as StringExecFns>::from_str(detail) }
}

fn overloaded_retry_classification(status: u16) -> (r: RetryClassification)
    ensures
        r.reason == RetryReason::Overloaded,
        r.detail@ == overloaded_detail(status),
{
    let detail = if status == 400 || status == 500 || status == 502 || status == 503 || status == 504 {
        <String as StringExecFns>::from_str("overloaded provider")
    } else {
        let mut d = decimal_string(status as u128);
        d.append(" overloaded provider");
        d
    };
    RetryClassification { reason: RetryReason::Overloaded, detail }
}

fn server_error_retry_classification(status: u16) -> (r: RetryClassification)
    ensures
        r.reason == RetryReason::ServerError,
        r.detail@ == server_error_detail(status),
{
    let mut detail = decimal_string(status as u128);
    detail.append(" server error");
    RetryClassification { reason: RetryReason::ServerError, detail }
}

fn retry_classification(status: u16, x_should_retry: Option<bool>, is_overloaded: bool) -> (r: Option<
    RetryClassification,
>)
    ensures
        match r {
            Some(c) => retry_classification_of(status, x_should_retry, is_overloaded) == Some((c.reason, c.detail@)),
            None => retry_classification_of(status, x_should_retry, is_overloaded) is None,
        },
{
    let classification = if status == 408 {
        fixed_retry_classification(RetryReason::RequestTimeout, "408 request timeout")
    } else if status == 409 {
        fixed_retry_classification(RetryReason::LockTimeout, "409 lock timeout")
    } else if status == 429 {
        fixed_retry_classification(RetryReason::RateLimit, "429 rate limit")
    } else if status == 529 {
        overloaded_retry_classification(status)
    } else if status == 500 || status == 502 || status == 503 || status == 504 {
        if is_overloaded {
            overloaded_retry_classification(status)
        } else {
            server_error_retry_classification(status)
        }
    } else if is_overloaded {
        overloaded_retry_classification(status)
    } else if x_should_retry == Some(true) && 500 <= status && status < 600 {
        server_error_retry_classification(status)
    } else {
        return None;
    };
    proof {
        reveal_strlit("408 request timeout");
        reveal_strlit("409 lock timeout");
        reveal_strlit("429 rate limit");
    }
    Some(classification)
}

/// The decision for an HTTP failure on `attempt`, with the clock at `now_ms`.
///
/// No retry once the budget is spent.  A context overflow is retried once
/// with reduced budgets and no delay.  Otherwise `x-should-retry: false`
/// forbids a retry; retryable statuses are retried after the `Retry-After`
/// delay or else the fallback backoff.
pub open spec fn http_decision(
    policy: RetryPolicy,
    f: HttpFailure,
    attempt: u32,
    session_id: Seq<u8>,
    ov: RequestOverrides,
    now_ms: i64,
) -> DecisionModel {
    if attempt >= policy.max_retries {
        DecisionModel::DoNotRetry
    } else {
        match overflow_status(policy, f, attempt, ov) {
            Some(st) => DecisionModel::RetryWithOverrides(st, overflow_overrides(f, ov)),
            None => {
                let xsr = x_should_retry_of(opt_string_view(f.x_should_retry));
                if xsr == Some(false) {
                    DecisionModel::DoNotRetry
                } else {
                    match retry_classification_of(f.status, xsr, overloaded_marker(encode_utf8(f.body@))) {
                        None => DecisionModel::DoNotRetry,
                        Some((reason, detail)) => DecisionModel::Retry(
                            StatusModel {
                                attempt: (attempt + 1) as u32,
                                max_retries: policy.max_retries,
                                delay_ms: match retry_after_delay(opt_string_view(f.retry_after), now_ms) {
                                    Some(d) => d,
                                    None => fallback_delay(policy, attempt, session_id) as u128,
                                },
                                reason,
                                detail,
                            },
                        ),
                    }
                }
            },
        }
    }
}


fn retry_status(
    policy: &RetryPolicy,
    attempt: u32,
    session_id: &[u8; 16],
    reason: RetryReason,
    detail: String,
    retry_after: &Option<String>,
    now_ms: i64,
) -> (r: RetryStatus)
    requires
        attempt < u32::MAX,
    ensures
        r.model() == (StatusModel {
            attempt: (attempt + 1) as u32,
            max_retries: policy.max_retries,
            delay_ms: match retry_after_delay(opt_string_view(*retry_after), now_ms) {
                Some(d) => d,
                None => fallback_delay(*policy, attempt, session_id@) as u128,
            },
            reason,
            detail: detail@,
        }),
{
    let delay_ms = match parse_retry_after_at(retry_after, now_ms) {
        Some(d) => d,
        None => fallback_delay_ms(policy, attempt, session_id) as u128,
    };
    RetryStatus { attempt: attempt + 1, max_retries: policy.max_retries, delay_ms, reason, detail }
}

/// The decision for a status that may be retried: a retry after the
/// `Retry-After` delay (or the fallback backoff) when the status is
/// retryable, else none.
fn classify_retryable_status(
    policy: &RetryPolicy,
    failure: &HttpFailure,
    attempt: u32,
    session_id: &[u8; 16],
    x_should_retry: Option<bool>,
    is_overloaded: bool,
    now_ms: i64,
) -> (r: RetryDecision)
    requires
        attempt < policy.max_retries,
    ensures
        r.model() == match retry_classification_of(failure.status, x_should_retry, is_overloaded) {
            None => DecisionModel::DoNotRetry,
            Some((reason, detail)) => DecisionModel::Retry(
                StatusModel {
                    attempt: (attempt + 1) as u32,
                    max_retries: policy.max_retries,
                    delay_ms: match retry_after_delay(opt_string_view(failure.retry_after), now_ms) {
                        Some(d) => d,
                        None => fallback_delay(*policy, attempt, session_id@) as u128,
                    },
                    reason,
                    detail,
                },
            ),
        },
{
    match retry_classification(failure.status, x_should_retry, is_overloaded) {
        None => RetryDecision::DoNotRetry,
        Some(classification) => RetryDecision::Retry {
            status: retry_status(
                policy,
                attempt,
                session_id,
                classification.reason,
                classification.detail,
                &failure.retry_after,
                now_ms,
            ),
        },
    }
}

/// Classify an HTTP failure on `attempt` with the clock read as `now_ms`.
pub fn classify_http_failure_at(
    policy: &RetryPolicy,
    failure: &HttpFailure,
    attempt: u32,
    session_id: &[u8; 16],
    current_overrides: &RequestOverrides,
    now_ms: i64,
) -> (r: RetryDecision)
    ensures
        r.model() == http_decision(*policy, *failure, attempt, session_id@, *current_overrides, now_ms),
{
    if attempt >= policy.max_retries {
        return RetryDecision::DoNotRetry;
    }
    if let Some(status) = context_overflow_retry_status(policy, failure, attempt, current_overrides) {
        return RetryDecision::RetryWithOverrides {
            status,
            overrides: apply_context_overflow_override(failure, current_overrides),
        };
    }
    let x_should_retry = parse_x_should_retry(&failure.x_should_retry);
    if x_should_retry == Some(false) {
        return RetryDecision::DoNotRetry;
    }
    let is_overloaded = has_overloaded_marker(failure.body.as_str());
    classify_retryable_status(policy, failure, attempt, session_id, x_should_retry, is_overloaded, now_ms)
}

/// Classify an HTTP failure on `attempt` of the session `session_id`, reading
/// the clock for an HTTP-date `Retry-After`.  The decision is the one of
/// [`classify_http_failure_at`] for some reading of the clock.
pub fn classify_http_failure(
    policy: &RetryPolicy,
    failure: &HttpFailure,
    attempt: u32,
    session_id: &[u8; 16],
    current_overrides: &RequestOverrides,
) -> (r: RetryDecision)
    ensures
        exists|now_ms: i64|
            r.model() == #[trigger] http_decision(
                *policy,
                *failure,
                attempt,
                session_id@,
                *current_overrides,
                now_ms,
            ),
{
    let now_ms = current_time_ms();
    classify_http_failure_at(policy, failure, attempt, session_id, current_overrides, now_ms)
}

// =============================================================================
// Transport errors
// =============================================================================

/// The lower-cased messages of the first `n` causes, joined with ` | `.
pub open spec fn joined_lower(causes: Seq<TransportCause>, n: int) -> Seq<u8>
    decreases n,
{
    if n <= 0 {
        seq![]
    } else if n == 1 {
        ascii_lowered(encode_utf8(causes[0].message@))
    } else {
        joined_lower(causes, n - 1) + " | ".spec_bytes() + ascii_lowered(encode_utf8(causes[n - 1].message@))
    }
}

/// The detail of the first cause, from `i` on, that the HTTP client reported
/// as a timeout or a connect failure.
pub open spec fn flagged_detail(causes: Seq<TransportCause>, i: int) -> Option<Seq<char>>
    decreases causes.len() - i,
{
    if i < 0 || i >= causes.len() {
        None
    } else if causes[i].is_timeout {
        Some("stale connection timeout"@)
    } else if causes[i].is_connect {
        Some("stale connection failure"@)
    } else {
        flagged_detail(causes, i + 1)
    }
}

/// Why a transport error is worth a retry on a fresh connection: a timeout
/// or connect failure of the HTTP client anywhere in the chain, else a
/// stale-connection phrase in the lower-cased, joined messages.
pub open spec fn transport_detail(causes: Seq<TransportCause>) -> Option<Seq<char>> {
    match flagged_detail(causes, 0) {
        Some(d) => Some(d),
        None => {
            let lower = joined_lower(causes, causes.len() as int);
            if contains_bytes(lower, "connection reset".spec_bytes()) {
                Some("stale connection reset"@)
            } else if contains_bytes(lower, "broken pipe".spec_bytes()) {
                Some("stale broken pipe"@)
            } else if contains_bytes(lower, "unexpected eof".spec_bytes()) || contains_bytes(
                lower,
                "end of file".spec_bytes(),
            ) {
                Some("stale unexpected eof"@)
            } else if contains_bytes(lower, "timed out".spec_bytes()) {
                Some("stale connection timeout"@)
            } else {
                None
            }
        },
    }
}

fn transport_retry_detail(error: &TransportError) -> (r: Option<String>)
    ensures
        opt_string_view(r) == transport_detail(error.causes@),
{
    let causes = &error.causes;
    let mut i: usize = 0;
    while i < causes.len()
        invariant
            i <= causes@.len(),
            causes@ == error.causes@,
            flagged_detail(causes@, 0) == flagged_detail(causes@, i as int),
        decreases causes@.len() - i,
    {
        if causes[i].is_timeout {
            return Some(<String as StringExecFns>::from_str("stale connection timeout"));
        }
        if causes[i].is_connect {
            return Some(<String as StringExecFns>::from_str("stale connection failure"));
        }
        i += 1;
    }
    let mut lower: Vec<u8> = Vec::new();
    let mut k: usize = 0;
    while k < causes.len()
        invariant
            k <= causes@.len(),
            lower@ == joined_lower(causes@, k as int),
        decreases causes@.len() - k,
    {
        if k > 0 {
            let sep = " | ".as_bytes();
            let mut j: usize = 0;
            let ghost before = lower@;
            while j < sep.len()
                invariant
                    j <= sep@.len(),
                    sep@ == " | ".spec_bytes(),
                    lower@ == before + sep@.subrange(0, j as int),
                decreases sep@.len() - j,
            {
                lower.push(sep[j]);
                j += 1;
                assert(lower@ =~= before + sep@.subrange(0, j as int));
            }
            assert(sep@.subrange(0, sep@.len() as int) =~= sep@);
        }
        let piece = ascii_lowered_vec(causes[k].message.as_str().as_bytes());
        let ghost before = lower@;
        let mut j: usize = 0;
        while j < piece.len()
            invariant
                j <= piece@.len(),
                lower@ == before + piece@.subrange(0, j as int),
            decreases piece@.len() - j,
        {
            lower.push(piece[j]);
            j += 1;
            assert(lower@ =~= before + piece@.subrange(0, j as int));
        }
        assert(piece@.subrange(0, piece@.len() as int) =~= piece@);
        k += 1;
    }
    let l = lower.as_slice();
    if contains_slice(l, "connection reset".as_bytes()) {
        Some(<String as StringExecFns>::from_str("stale connection reset"))
    } else if contains_slice(l, "broken pipe".as_bytes()) {
        Some(<String as StringExecFns>::from_str("stale broken pipe"))
    } else if contains_slice(l, "unexpected eof".as_bytes()) || contains_slice(l, "end of file".as_bytes()) {
        Some(<String as StringExecFns>::from_str("stale unexpected eof"))
    } else if contains_slice(l, "timed out".as_bytes()) {
        Some(<String as StringExecFns>::from_str("stale connection timeout"))
    } else {
        None
    }
}

/// The decision for a transport error on `attempt`: a network retry after
/// the fallback backoff when the error looks like a stale connection, while
/// the budget lasts.
pub open spec fn transport_decision(
    policy: RetryPolicy,
    causes: Seq<TransportCause>,
    attempt: u32,
    session_id: Seq<u8>,
) -> DecisionModel {
    if attempt >= policy.max_retries {
        DecisionModel::DoNotRetry
    } else {
        match transport_detail(causes) {
            None => DecisionModel::DoNotRetry,
            Some(detail) => DecisionModel::Retry(
                StatusModel {
                    attempt: (attempt + 1) as u32,
                    max_retries: policy.max_retries,
                    delay_ms: fallback_delay(policy, attempt, session_id) as u128,
                    reason: RetryReason::Network,
                    detail,
                },
            ),
        }
    }
}

pub fn classify_transport_error(
    policy: &RetryPolicy,
    error: &TransportError,
    attempt: u32,
    session_id: &[u8; 16],
) -> (r: RetryDecision)
    ensures
        r.model() == transport_decision(*policy, error.causes@, attempt, session_id@),
{
    if attempt >= policy.max_retries {
        return RetryDecision::DoNotRetry;
    }
    let detail = match transport_retry_detail(error) {
        Some(d) => d,
        None => {
            return RetryDecision::DoNotRetry;
        },
    };
    RetryDecision::Retry {
        status: RetryStatus {
            attempt: attempt + 1,
            max_retries: policy.max_retries,
            delay_ms: fallback_delay_ms(policy, attempt, session_id) as u128,
            reason: RetryReason::Network,
            detail,
        },
    }
}

/// Whether a transport error looks like a stale pooled connection, so that
/// the next request should open a fresh one.
pub fn should_disable_connection_reuse(error: &TransportError) -> (r: bool)
    ensures
        r == transport_detail(error.causes@) is Some,
{
    transport_retry_detail(error).is_some()
}


// =============================================================================
// Laws
// =============================================================================

/// Once the retry budget is spent, nothing is retried.
pub proof fn lemma_budget_spent_never_retries(
    policy: RetryPolicy,
    f: HttpFailure,
    causes: Seq<TransportCause>,
    attempt: u32,
    session_id: Seq<u8>,
    ov: RequestOverrides,
    now_ms: i64,
)
    requires
        attempt >= policy.max_retries,
    ensures
        http_decision(policy, f, attempt, session_id, ov, now_ms) == DecisionModel::DoNotRetry,
        transport_decision(policy, causes, attempt, session_id) == DecisionModel::DoNotRetry,
{
}

/// Every retry announces the next attempt under the policy's budget.
pub proof fn lemma_retry_advances_attempt(
    policy: RetryPolicy,
    f: HttpFailure,
    causes: Seq<TransportCause>,
    attempt: u32,
    session_id: Seq<u8>,
    ov: RequestOverrides,
    now_ms: i64,
)
    ensures
        match http_decision(policy, f, attempt, session_id, ov, now_ms) {
            DecisionModel::Retry(st) => st.attempt == attempt + 1 && st.max_retries == policy.max_retries
                && attempt < policy.max_retries,
            DecisionModel::RetryWithOverrides(st, _) => st.attempt == attempt + 1 && st.max_retries
                == policy.max_retries && attempt < policy.max_retries,
            DecisionModel::DoNotRetry => true,
        },
        match transport_decision(policy, causes, attempt, session_id) {
            DecisionModel::Retry(st) => st.attempt == attempt + 1 && st.max_retries == policy.max_retries
                && attempt < policy.max_retries && st.reason == RetryReason::Network,
            _ => true,
        },
{
}

/// A context overflow is retried with reduced budgets at most once per
/// request: never when the overrides already record it, and the overrides of
/// such a retry always record it, with no delay.
pub proof fn lemma_context_overflow_retried_once(
    policy: RetryPolicy,
    f: HttpFailure,
    attempt: u32,
    session_id: Seq<u8>,
    ov: RequestOverrides,
    now_ms: i64,
)
    ensures
        ov.context_overflow_retry_used ==> !(http_decision(
            policy,
            f,
            attempt,
            session_id,
            ov,
            now_ms,
        ) is RetryWithOverrides),
        http_decision(policy, f, attempt, session_id, ov, now_ms) matches DecisionModel::RetryWithOverrides(
            st,
            o,
        ) ==> o.context_overflow_retry_used && st.delay_ms == 0 && st.reason
            == RetryReason::ContextOverflow && f.status == 400,
{
}

/// The budgets of a context-overflow retry never exceed what was requested
/// or what the context has room for, and the reasoning budget stays below
/// the output budget.
pub proof fn lemma_overflow_overrides_bounded(f: HttpFailure, ov: RequestOverrides)
    ensures
        context_overflow_in(overflow_message_bytes(f.body@)) matches Some(o) ==> {
            let r = overflow_overrides(f, ov);
            &&& r.max_output_tokens == Some(overflow_output_budget(o))
            &&& overflow_output_budget(o) <= o.requested_tokens
            &&& overflow_output_budget(o) + o.input_tokens + CONTEXT_OVERFLOW_SAFETY_BUFFER_TOKENS
                <= o.context_limit || overflow_output_budget(o) == 0
            &&& (r.reasoning_max_tokens matches Some(b) ==> b < overflow_output_budget(o)
                || overflow_output_budget(o) == 0)
        },
{
}

/// An explicit `x-should-retry: false` rules out every retry but the
/// context-overflow one.
pub proof fn lemma_server_refusal_is_final(
    policy: RetryPolicy,
    f: HttpFailure,
    attempt: u32,
    session_id: Seq<u8>,
    ov: RequestOverrides,
    now_ms: i64,
)
    requires
        x_should_retry_of(opt_string_view(f.x_should_retry)) == Some(false),
    ensures
        !(http_decision(policy, f, attempt, session_id, ov, now_ms) is Retry),
{
}

/// The fallback delay is the capped backoff plus a bounded jitter: at the cap
/// (or with jitter switched off) it is exactly the backoff, otherwise it
/// exceeds it by at most a `1/jitter_divisor` share (at least one
/// millisecond).  The backoff itself never exceeds the cap.
pub proof fn lemma_fallback_delay_bounds(policy: RetryPolicy, attempt: u32, session_id: Seq<u8>)
    ensures
        capped_backoff(policy, attempt) <= policy.max_backoff_ms,
        ({
            let base = capped_backoff(policy, attempt);
            let d = fallback_delay(policy, attempt, session_id);
            &&& base <= d
            &&& (base >= policy.max_backoff_ms || policy.jitter_divisor == 0) ==> d == base
            &&& (base < policy.max_backoff_ms && policy.jitter_divisor > 0) ==> d <= base + (if base
                / policy.jitter_divisor < 1 {
                1
            } else {
                base / policy.jitter_divisor
            })
        }),
{
}

} // verus!
