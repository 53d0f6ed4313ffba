//! Compensation events: the records a tool call leaves of what the safety
//! gate decided and of output it had to cut, each linked to the transcript
//! call by a one-way digest of the call id.
use vstd::prelude::*;
use vstd::string::*;
use vstd::utf8::*;

use crate::judge_gate::JudgeDecision;
use crate::provider::{hex_bytes, hex_digit, opt_text};
use crate::retry::{sha256, sha256_digest};
use crate::text::string_from_chars;

verus! {

/// What a compensation event records.
#[derive(Debug, Clone, Copy, PartialEq, Eq, Structural)]
pub enum CompensationKind {
    /// The judge's decision on a call.
    JudgeVerdict,
    /// The judge was switched off, so the call ran unjudged.
    JudgeBypass,
    /// The judge could not decide, so the call was refused.
    JudgeFailClosed,
    /// The call's output was cut (read cap reached or spilled to a file).
    OutputTruncation,
}

/// One compensation event.
#[derive(Debug, Clone, PartialEq, Eq)]
pub struct CompensationEvent {
    pub kind: CompensationKind,
    /// The verdict (`decision` or `decision:code`), the failure class, or the
    /// tool whose output was cut.
    pub detail: Option<String>,
    /// The judge decision's latency in milliseconds.
    pub latency_ms: Option<u64>,
    /// `Some(true)` when an allowlist overrode the verdict.
    pub overridden: Option<bool>,
    /// The digest of the transcript call the event belongs to.
    pub call_id: Option<String>,
}

/// An event by its plain values.
pub struct EventModel {
    pub kind: CompensationKind,
    pub detail: Option<Seq<char>>,
    pub latency_ms: Option<u64>,
    pub overridden: Option<bool>,
    pub call_id: Option<Seq<char>>,
}

impl CompensationEvent {
    pub open spec fn model(self) -> EventModel {
        EventModel {
            kind: self.kind,
            detail: opt_text(self.detail),
            latency_ms: self.latency_ms,
            overridden: self.overridden,
            call_id: opt_text(self.call_id),
        }
    }
}

/// The models of a list of events.
pub open spec fn event_models(events: Seq<CompensationEvent>) -> Seq<EventModel> {
    events.map_values(|e: CompensationEvent| e.model())
}

/// The linkage digest of a transcript call id: SHA-256 over its UTF-8 bytes,
/// in lower-case hexadecimal.
pub open spec fn call_digest(raw: Seq<char>) -> Seq<char> {
    let d = sha256_digest(encode_utf8(raw));
    hex_bytes(d, 0, d.len() as int)
}

/// The linkage an event carries for an optional call id: its digest, never
/// the id itself.
pub open spec fn linked_call(raw_call_id: Option<&str>) -> Option<Seq<char>> {
    match raw_call_id {
        Some(raw) => Some(call_digest(raw@)),
        None => None,
    }
}

fn hex_char(n: u8) -> (c: char)
    requires
        n < 16,
    ensures
        c == hex_digit(n as nat),
{
    if n < 10 {
        (48u8 + n) as char
    } else {
        (87u8 + n) as char
    }
}

/// The lower-case hexadecimal text of `bytes`, two digits per byte.
pub fn hex_text(bytes: &[u8]) -> (r: String)
    ensures
        r@ == hex_bytes(bytes@, 0, bytes@.len() as int),
{
    let mut cs: Vec<char> = Vec::new();
    let mut i: usize = 0;
    while i < bytes.len()
        invariant
            i <= bytes@.len(),
            cs@ == hex_bytes(bytes@, 0, i as int),
        decreases bytes@.len() - i,
    {
        let b = bytes[i];
        let ghost before = cs@;
        cs.push(hex_char(b / 16));
        cs.push(hex_char(b % 16));
        i += 1;
        assert(cs@ =~= before + seq![hex_digit((b / 16) as nat), hex_digit((b % 16) as nat)]);
    }
    string_from_chars(cs.as_slice())
}

/// The linkage digest of a transcript call id.
pub fn call_id_digest(raw_call_id: &str) -> (r: String)
    ensures
        r@ == call_digest(raw_call_id@),
{
    let digest = sha256(raw_call_id.as_bytes());
    hex_text(digest.as_slice())
}

/// The name a decision is recorded under.
pub open spec fn decision_name(decision: JudgeDecision) -> Seq<char> {
    match decision {
        JudgeDecision::Allow => "allow"@,
        JudgeDecision::Warn => "warn"@,
        JudgeDecision::Block => "block"@,
    }
}

fn decision_str(decision: JudgeDecision) -> (r: &'static str)
    ensures
        r@ == decision_name(decision),
{
    proof {
        reveal_strlit("allow");
        reveal_strlit("warn");
        reveal_strlit("block");
    }
    match decision {
        JudgeDecision::Allow => "allow",
        JudgeDecision::Warn => "warn",
        JudgeDecision::Block => "block",
    }
}

/// The detail of a verdict event: the decision, followed by `:` and the
/// verdict's code when it has one.
pub open spec fn verdict_detail(decision: JudgeDecision, code: Option<Seq<char>>) -> Seq<char> {
    match code {
        Some(c) => decision_name(decision) + ":"@ + c,
        None => decision_name(decision),
    }
}

/// A verdict event, with its latency, the override flag only when set, and
/// the call linkage.
pub open spec fn verdict_event(
    decision: JudgeDecision,
    code: Option<Seq<char>>,
    latency_ms: u64,
    overridden: bool,
    call: Option<Seq<char>>,
) -> EventModel {
    EventModel {
        kind: CompensationKind::JudgeVerdict,
        detail: Some(verdict_detail(decision, code)),
        latency_ms: Some(latency_ms),
        overridden: if overridden {
            Some(true)
        } else {
            None
        },
        call_id: call,
    }
}

/// A bypass event: no detail, only the call linkage.
pub open spec fn bypass_event(call: Option<Seq<char>>) -> EventModel {
    EventModel {
        kind: CompensationKind::JudgeBypass,
        detail: None,
        latency_ms: None,
        overridden: None,
        call_id: call,
    }
}

/// A fail-closed event: the failure class and the call linkage.
pub open spec fn fail_closed_event(class: Seq<char>, call: Option<Seq<char>>) -> EventModel {
    EventModel {
        kind: CompensationKind::JudgeFailClosed,
        detail: Some(class),
        latency_ms: None,
        overridden: None,
        call_id: call,
    }
}

/// An output-truncation event for `tool`.
pub open spec fn truncation_event(tool: Seq<char>) -> EventModel {
    EventModel {
        kind: CompensationKind::OutputTruncation,
        detail: Some(tool),
        latency_ms: None,
        overridden: None,
        call_id: None,
    }
}

impl CompensationEvent {
    /// An event of `kind` with `detail` and nothing else.
    pub fn new(kind: CompensationKind, detail: Option<String>) -> (r: Self)
        ensures
            r.model() == (EventModel {
                kind,
                detail: opt_text(detail),
                latency_ms: None,
                overridden: None,
                call_id: None,
            }),
    {
        CompensationEvent { kind, detail, latency_ms: None, overridden: None, call_id: None }
    }

    /// The event of a judge decision.
    pub fn judge_verdict(
        decision: JudgeDecision,
        code: Option<&str>,
        latency_ms: u64,
        overridden: bool,
    ) -> (r: Self)
        ensures
            r.model() == verdict_event(
                decision,
                match code {
                    Some(c) => Some(c@),
                    None => None,
                },
                latency_ms,
                overridden,
                None,
            ),
    {
        let mut detail = <String as StringExecFns>::from_str(decision_str(decision));
        if let Some(c) = code {
            proof {
                reveal_strlit(":");
            }
            detail.append(":");
            detail.append(c);
        }
        CompensationEvent {
            kind: CompensationKind::JudgeVerdict,
            detail: Some(detail),
            latency_ms: Some(latency_ms),
            overridden: if overridden {
                Some(true)
            } else {
                None
            },
            call_id: None,
        }
    }

    /// The event of a call that ran with the judge switched off.
    pub fn judge_bypass() -> (r: Self)
        ensures
            r.model() == bypass_event(None),
    {
        CompensationEvent {
            kind: CompensationKind::JudgeBypass,
            detail: None,
            latency_ms: None,
            overridden: None,
            call_id: None,
        }
    }

    /// The event of a call refused because the judge failed with `class`.
    pub fn judge_fail_closed(class: &str) -> (r: Self)
        ensures
            r.model() == fail_closed_event(class@, None),
    {
        CompensationEvent {
            kind: CompensationKind::JudgeFailClosed,
            detail: Some(class.to_owned()),
            latency_ms: None,
            overridden: None,
            call_id: None,
        }
    }

    /// The event linked to the transcript call `raw_call_id` by its digest.
    pub fn with_call_id(self, raw_call_id: Option<&str>) -> (r: Self)
        ensures
            r.model() == (EventModel { call_id: linked_call(raw_call_id), ..self.model() }),
    {
        let call_id = match raw_call_id {
            Some(raw) => Some(call_id_digest(raw)),
            None => None,
        };
        CompensationEvent { call_id, ..self }
    }
}

/// Record an output-truncation event for `tool` when the run hit the read
/// cap or its output spilled to a file: one event per run that was cut.
pub fn push_truncation_event_if(events: &mut Vec<CompensationEvent>, tool: &str, read_cap: bool, spilled: bool)
    ensures
        event_models(final(events)@) == if read_cap || spilled {
            event_models(old(events)@).push(truncation_event(tool@))
        } else {
            event_models(old(events)@)
        },
{
    if read_cap || spilled {
        let ghost before = events@;
        events.push(CompensationEvent::new(CompensationKind::OutputTruncation, Some(tool.to_owned())));
        assert(event_models(events@) =~= event_models(before).push(truncation_event(tool@)));
    }
}

} // verus!
