//! What the command-safety judge's answer means for a Bash call: whether the
//! call is judged at all, how a verdict becomes a refusal or a notice, and
//! the event every decision records.
use vstd::prelude::*;
use vstd::string::*;

use crate::bash_output::{fail_closed_message, sanitize_judge_message, sanitized};
use crate::compensation::{
    bypass_event, event_models, fail_closed_event, linked_call, verdict_event, CompensationEvent, EventModel,
};
use crate::provider::opt_text;
use crate::text::{str_trim, trim_chars};

verus! {

/// The judge's decision on a command.
#[derive(Debug, Clone, Copy, PartialEq, Eq, Structural)]
pub enum JudgeDecision {
    Allow,
    Warn,
    Block,
}

/// How a judge evaluation ended.
#[derive(Debug, Clone)]
pub enum JudgeOutcome {
    /// The judge was switched off for this run.
    Bypassed,
    /// The fast classifier approved the command as observational, after
    /// `elapsed_ms`.
    FastApproved { elapsed_ms: u128 },
    /// The judge gave a verdict; `overridden` says that an allowlist
    /// overrode a block.
    Verdict { decision: JudgeDecision, message: String, code: Option<String>, overridden: bool },
}

/// What a judged call gets: notices to show before the output, or the
/// refusal that keeps it from running.  A block that no allowlist overrode
/// refuses with the verdict's reason; a warning becomes a notice; anything
/// else runs unannotated.  The judge's text is sanitized first.
pub open spec fn preflight_of(outcome: JudgeOutcome) -> Result<Seq<Seq<char>>, Seq<char>> {
    match outcome {
        JudgeOutcome::Verdict { decision, message, overridden, .. } => if decision == JudgeDecision::Block
            && !overridden {
            Err("BLOCKED\n\nReason: "@ + sanitized(message@))
        } else if decision == JudgeDecision::Warn {
            Ok(seq!["NOTICE: "@ + sanitized(message@)])
        } else {
            Ok(seq![])
        },
        _ => Ok(seq![]),
    }
}

/// Only a block that no allowlist overrode stops a call, and its refusal
/// is a `BLOCKED` message; every notice of a call that runs is a `NOTICE`.
pub proof fn lemma_only_unoverridden_blocks_refuse(outcome: JudgeOutcome)
    ensures
        preflight_of(outcome) is Err <==> (outcome matches JudgeOutcome::Verdict { decision, overridden, .. }
            && decision == JudgeDecision::Block && !overridden),
        preflight_of(outcome) matches Err(m) ==> crate::bash_safety::has_prefix(m, "BLOCKED\n\nReason: "@),
        preflight_of(outcome) matches Ok(ws) ==> crate::bash_safety::all_notices(ws),
{
    match outcome {
        JudgeOutcome::Verdict { message, .. } => {
            let b = "BLOCKED\n\nReason: "@;
            let n = "NOTICE: "@;
            assert((b + sanitized(message@)).subrange(0, b.len() as int) =~= b);
            assert((n + sanitized(message@)).subrange(0, n.len() as int) =~= n);
        },
        _ => {},
    }
}

/// What a call that may run gets from the judge: the notices to show before
/// its output and the events recorded for it.
#[derive(Debug, Clone, PartialEq, Eq)]
pub struct JudgePreflight {
    pub warnings: Vec<String>,
    pub compensation_events: Vec<CompensationEvent>,
}

/// What a tool call answers: its output, the events recorded for it, and the
/// permission labels of what a sandbox denied it.
#[derive(Debug, Clone, PartialEq, Eq)]
pub struct ToolResult {
    pub output: String,
    pub compensation_events: Vec<CompensationEvent>,
    pub permission_denials: Vec<String>,
}

/// A refused call: the message the model sees and the events recorded for
/// the call.
#[derive(Debug, Clone, PartialEq, Eq)]
pub struct ToolError {
    pub message: String,
    pub compensation_events: Vec<CompensationEvent>,
}

/// The character views of a list of strings.
pub open spec fn string_views(v: Seq<String>) -> Seq<Seq<char>> {
    v.map_values(|w: String| w@)
}

/// The event a judge outcome records for the call linked as `call`: the
/// bypass, or the verdict (a fast approval is an `allow` verdict) with its
/// code, latency and override flag.
pub open spec fn outcome_event(outcome: JudgeOutcome, latency_ms: u64, call: Option<Seq<char>>) -> EventModel {
    match outcome {
        JudgeOutcome::Bypassed => bypass_event(call),
        JudgeOutcome::FastApproved { .. } => verdict_event(JudgeDecision::Allow, None, latency_ms, false, call),
        JudgeOutcome::Verdict { decision, code, overridden, .. } => verdict_event(
            decision,
            opt_text(code),
            latency_ms,
            overridden,
            call,
        ),
    }
}

/// The preflight of a call the judge never evaluated because it is switched
/// off: no notice, and the bypass recorded with the call's linkage.
pub fn bypassed_preflight(raw_call_id: Option<&str>) -> (r: JudgePreflight)
    ensures
        string_views(r.warnings@) == Seq::<Seq<char>>::empty(),
        event_models(r.compensation_events@) == seq![bypass_event(linked_call(raw_call_id))],
{
    let event = CompensationEvent::judge_bypass().with_call_id(raw_call_id);
    let mut events: Vec<CompensationEvent> = Vec::new();
    events.push(event);
    assert(event_models(events@) =~= seq![bypass_event(linked_call(raw_call_id))]);
    let warnings: Vec<String> = Vec::new();
    assert(string_views(warnings@) =~= Seq::<Seq<char>>::empty());
    JudgePreflight { warnings, compensation_events: events }
}

/// Map a judge outcome to the preflight of the call, or its refusal; either
/// way exactly one event is recorded, linked to the call by digest.
pub fn judge_preflight_outcome(outcome: &JudgeOutcome, latency_ms: u64, raw_call_id: Option<&str>) -> (r: Result<
    JudgePreflight,
    ToolError,
>)
    ensures
        match r {
            Ok(p) => preflight_of(*outcome) == Ok::<Seq<Seq<char>>, Seq<char>>(string_views(p.warnings@))
                && event_models(p.compensation_events@) == seq![
                outcome_event(*outcome, latency_ms, linked_call(raw_call_id)),
            ],
            Err(e) => preflight_of(*outcome) == Err::<Seq<Seq<char>>, Seq<char>>(e.message@) && event_models(
                e.compensation_events@,
            ) == seq![outcome_event(*outcome, latency_ms, linked_call(raw_call_id))],
        },
{
    let event = match outcome {
        JudgeOutcome::Bypassed => {
            return Ok(bypassed_preflight(raw_call_id));
        },
        JudgeOutcome::FastApproved { .. } => CompensationEvent::judge_verdict(
            JudgeDecision::Allow,
            None,
            latency_ms,
            false,
        ),
        JudgeOutcome::Verdict { decision, code, overridden, .. } => {
            let code_text: Option<&str> = match code {
                Some(c) => Some(c.as_str()),
                None => None,
            };
            CompensationEvent::judge_verdict(*decision, code_text, latency_ms, *overridden)
        },
    }.with_call_id(raw_call_id);
    let mut events: Vec<CompensationEvent> = Vec::new();
    events.push(event);
    assert(event_models(events@) =~= seq![outcome_event(*outcome, latency_ms, linked_call(raw_call_id))]);
    match outcome {
        JudgeOutcome::Verdict { decision, message, overridden, .. } => {
            if *decision == JudgeDecision::Block && !*overridden {
                let mut m = <String as StringExecFns>::from_str("BLOCKED\n\nReason: ");
                let reason = sanitize_judge_message(message.as_str());
                m.append(reason.as_str());
                Err(ToolError { message: m, compensation_events: events })
            } else if *decision == JudgeDecision::Warn {
                let mut w = <String as StringExecFns>::from_str("NOTICE: ");
                let notice = sanitize_judge_message(message.as_str());
                w.append(notice.as_str());
                let mut ws: Vec<String> = Vec::new();
                ws.push(w);
                assert(string_views(ws@) =~= seq!["NOTICE: "@ + sanitized(message@)]);
                Ok(JudgePreflight { warnings: ws, compensation_events: events })
            } else {
                let ws: Vec<String> = Vec::new();
                assert(string_views(ws@) =~= Seq::<Seq<char>>::empty());
                Ok(JudgePreflight { warnings: ws, compensation_events: events })
            }
        },
        _ => {
            let ws: Vec<String> = Vec::new();
            assert(string_views(ws@) =~= Seq::<Seq<char>>::empty());
            Ok(JudgePreflight { warnings: ws, compensation_events: events })
        },
    }
}

/// The refusal of a call whose judge failed with `error`.
pub open spec fn fail_closed_text(error: Seq<char>) -> Seq<char> {
    "BLOCKED\n\nThe command-safety judge was unavailable, so this command was not executed (fail-closed).\n\n"@
        + error
}

/// The refusal of a call the judge could not decide: the fail-closed
/// message for `error`, and the failure `class` recorded with the call's
/// linkage.
pub fn fail_closed_tool_error(class: &str, error: &str, raw_call_id: Option<&str>) -> (r: ToolError)
    ensures
        r.message@ == fail_closed_text(error@),
        event_models(r.compensation_events@) == seq![fail_closed_event(class@, linked_call(raw_call_id))],
{
    let event = CompensationEvent::judge_fail_closed(class).with_call_id(raw_call_id);
    let mut events: Vec<CompensationEvent> = Vec::new();
    events.push(event);
    assert(event_models(events@) =~= seq![fail_closed_event(class@, linked_call(raw_call_id))]);
    ToolError { message: fail_closed_message(error), compensation_events: events }
}

/// The refusal of a call that failed once the judge let it run: its message,
/// with the judge's events kept so the verdict is not lost.
pub fn judge_tool_error(events: Vec<CompensationEvent>, message: String) -> (r: ToolError)
    ensures
        r.message@ == message@,
        r.compensation_events@ == events@,
{
    ToolError { message, compensation_events: events }
}

/// One judge attempt: its own time and the backoff wait before the next,
/// in milliseconds.
#[derive(Debug, Clone, Copy)]
pub struct JudgeAttempt {
    pub total_ms: u64,
    pub retry_delay_ms: u64,
}

/// The saturating sum of the first `n` attempts' times and waits.
pub open spec fn attempts_latency(attempts: Seq<JudgeAttempt>, n: int) -> u64
    decreases n,
{
    if n <= 0 {
        0
    } else {
        let acc = attempts_latency(attempts, n - 1) as int + attempts[n - 1].total_ms;
        let acc = if acc > u64::MAX { u64::MAX as int } else { acc };
        let acc = acc + attempts[n - 1].retry_delay_ms;
        (if acc > u64::MAX { u64::MAX as int } else { acc }) as u64
    }
}

/// The latency of a judge decision: the fast leg's time for a fast
/// approval (at most `u64::MAX`), otherwise the whole judge operation, every
/// attempt with the waits between them.
pub open spec fn decision_latency(outcome: JudgeOutcome, attempts: Seq<JudgeAttempt>) -> u64 {
    match outcome {
        JudgeOutcome::FastApproved { elapsed_ms } => if elapsed_ms > u64::MAX {
            u64::MAX
        } else {
            elapsed_ms as u64
        },
        _ => attempts_latency(attempts, attempts.len() as int),
    }
}

/// The latency recorded for a judge decision.
pub fn judge_latency_ms(outcome: &JudgeOutcome, attempts: &[JudgeAttempt]) -> (r: u64)
    ensures
        r == decision_latency(*outcome, attempts@),
{
    if let JudgeOutcome::FastApproved { elapsed_ms } = outcome {
        return if *elapsed_ms > u64::MAX as u128 {
            u64::MAX
        } else {
            *elapsed_ms as u64
        };
    }
    let mut acc: u64 = 0;
    let mut i: usize = 0;
    while i < attempts.len()
        invariant
            i <= attempts@.len(),
            acc == attempts_latency(attempts@, i as int),
        decreases attempts@.len() - i,
    {
        acc = acc.saturating_add(attempts[i].total_ms).saturating_add(attempts[i].retry_delay_ms);
        i += 1;
    }
    acc
}

/// Why the judge could not decide: the failure class recorded for it and
/// the description the model sees.
#[derive(Debug, Clone, PartialEq, Eq)]
pub struct JudgeFailure {
    pub class: String,
    pub message: String,
}

/// What asking the judge gave, with every attempt it took.
#[derive(Debug)]
pub struct JudgeEvaluation {
    pub outcome: Result<JudgeOutcome, JudgeFailure>,
    pub attempts: Vec<JudgeAttempt>,
}

/// Turn a judge evaluation into the call's preflight: an outcome is mapped
/// with its decision latency (the fast leg, or every attempt and wait); a
/// failure refuses the call fail-closed and records its class.
pub fn observed_evaluation_to_preflight(evaluation: &JudgeEvaluation, raw_call_id: Option<&str>) -> (r: Result<
    JudgePreflight,
    ToolError,
>)
    ensures
        match evaluation.outcome {
            Ok(o) => {
                let ev = outcome_event(o, decision_latency(o, evaluation.attempts@), linked_call(raw_call_id));
                match r {
                    Ok(p) => preflight_of(o) == Ok::<Seq<Seq<char>>, Seq<char>>(string_views(p.warnings@))
                        && event_models(p.compensation_events@) == seq![ev],
                    Err(e) => preflight_of(o) == Err::<Seq<Seq<char>>, Seq<char>>(e.message@) && event_models(
                        e.compensation_events@,
                    ) == seq![ev],
                }
            },
            Err(f) => r matches Err(e) && e.message@ == fail_closed_text(f.message@) && event_models(
                e.compensation_events@,
            ) == seq![fail_closed_event(f.class@, linked_call(raw_call_id))],
        },
{
    match &evaluation.outcome {
        Ok(outcome) => {
            let latency_ms = judge_latency_ms(outcome, evaluation.attempts.as_slice());
            judge_preflight_outcome(outcome, latency_ms, raw_call_id)
        },
        Err(failure) => Err(
            fail_closed_tool_error(failure.class.as_str(), failure.message.as_str(), raw_call_id),
        ),
    }
}

/// Every judge outcome is recorded, and the record carries the call's
/// digest and never its raw id: a bypass as a bypass event, anything else as
/// a verdict with the decision's latency, flagged as overridden exactly when
/// an allowlist overrode it.
pub proof fn lemma_every_decision_is_recorded(outcome: JudgeOutcome, latency_ms: u64, raw_call_id: Option<&str>)
    ensures
        outcome_event(outcome, latency_ms, linked_call(raw_call_id)).call_id == match raw_call_id {
            Some(raw) => Some(crate::compensation::call_digest(raw@)),
            None => None::<Seq<char>>,
        },
        (outcome_event(outcome, latency_ms, linked_call(raw_call_id)).kind
            == crate::compensation::CompensationKind::JudgeBypass) <==> outcome is Bypassed,
        !(outcome is Bypassed) ==> outcome_event(outcome, latency_ms, linked_call(raw_call_id)).kind
            == crate::compensation::CompensationKind::JudgeVerdict && outcome_event(
            outcome,
            latency_ms,
            linked_call(raw_call_id),
        ).latency_ms == Some(latency_ms),
        (outcome_event(outcome, latency_ms, linked_call(raw_call_id)).overridden == Some(true)) <==> (
        outcome matches JudgeOutcome::Verdict { overridden, .. } && overridden),
{
}

/// Whether and how a Bash call is judged.
#[derive(Debug, Clone, PartialEq, Eq)]
pub enum JudgeGate {
    /// A blank command has nothing to judge: no notice, no event.
    Skip,
    /// No judge is configured: the call is refused (fail-closed).
    Refuse { error: ToolError },
    /// The judge is switched off for this run: the call runs, and the bypass
    /// is recorded.
    Bypass { preflight: JudgePreflight },
    /// Ask the judge.
    Evaluate,
}

/// Why a call is refused when no judge is configured.
pub open spec fn missing_judge_reason() -> Seq<char> {
    "the command-safety judge is not configured for this run"@
}

/// Decide how a call is judged: blank commands are not, a missing judge
/// refuses the call, a disabled judge lets it run, else the judge is asked.
/// A refusal and a bypass record their event with the call's linkage.
pub fn judge_gate(command: &str, judge_configured: bool, judge_enabled: bool, raw_call_id: Option<&str>) -> (r:
    JudgeGate)
    ensures
        trim_chars(command@).len() == 0 ==> r == JudgeGate::Skip,
        trim_chars(command@).len() > 0 && !judge_configured ==> (r matches JudgeGate::Refuse { error }
            && error.message@ == fail_closed_text(missing_judge_reason()) && event_models(
            error.compensation_events@,
        ) == seq![fail_closed_event("missing_context"@, linked_call(raw_call_id))]),
        trim_chars(command@).len() > 0 && judge_configured && !judge_enabled ==> (r matches JudgeGate::Bypass {
            preflight,
        } && string_views(preflight.warnings@) == Seq::<Seq<char>>::empty() && event_models(
            preflight.compensation_events@,
        ) == seq![bypass_event(linked_call(raw_call_id))]),
        trim_chars(command@).len() > 0 && judge_configured && judge_enabled ==> r == JudgeGate::Evaluate,
{
    if str_trim(command).is_empty() {
        return JudgeGate::Skip;
    }
    if !judge_configured {
        proof {
            reveal_strlit("the command-safety judge is not configured for this run");
        }
        let error = fail_closed_tool_error(
            "missing_context",
            "the command-safety judge is not configured for this run",
            raw_call_id,
        );
        return JudgeGate::Refuse { error };
    }
    if !judge_enabled {
        return JudgeGate::Bypass { preflight: bypassed_preflight(raw_call_id) };
    }
    JudgeGate::Evaluate
}

} // verus!
