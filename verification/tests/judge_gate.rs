use cake::compensation::{call_id_digest, push_truncation_event_if, CompensationEvent, CompensationKind};
use cake::judge_gate::{
    bypassed_preflight, fail_closed_tool_error, judge_gate, judge_latency_ms, judge_preflight_outcome,
    judge_tool_error, observed_evaluation_to_preflight, JudgeAttempt, JudgeDecision, JudgeEvaluation,
    JudgeFailure, JudgeGate, JudgeOutcome,
};
use sha2::{Digest, Sha256};

/// The linkage digest computed from the documented rule (SHA-256 of the raw
/// call id, lower-case hex), independently of the library.
fn call_id_hex(raw_call_id: &str) -> String {
    let mut hasher = Sha256::new();
    hasher.update(raw_call_id.as_bytes());
    hasher.finalize().iter().map(|b| format!("{b:02x}")).collect()
}

fn verdict(decision: JudgeDecision, message: &str, overridden: bool) -> JudgeOutcome {
    JudgeOutcome::Verdict { decision, message: message.to_string(), code: None, overridden }
}

/// A verdict outcome for `decision` with no allowlist override.
fn verdict_outcome(decision: JudgeDecision, code: Option<&str>) -> JudgeOutcome {
    JudgeOutcome::Verdict {
        decision,
        code: code.map(str::to_string),
        message: "judged".to_string(),
        overridden: false,
    }
}

fn warnings_of(outcome: &JudgeOutcome) -> Result<Vec<String>, String> {
    match judge_preflight_outcome(outcome, 0, None) {
        Ok(preflight) => Ok(preflight.warnings),
        Err(error) => Err(error.message),
    }
}

#[test]
fn a_block_refuses_with_the_sanitized_reason() {
    assert_eq!(
        warnings_of(&verdict(JudgeDecision::Block, "force push\u{1b}[0m", false)),
        Err("BLOCKED\n\nReason: force push[0m".to_string())
    );
}

#[test]
fn an_overridden_block_runs_unannotated() {
    assert_eq!(warnings_of(&verdict(JudgeDecision::Block, "x", true)), Ok(vec![]));
    assert_eq!(warnings_of(&verdict(JudgeDecision::Allow, "fine", false)), Ok(vec![]));
    assert_eq!(warnings_of(&JudgeOutcome::Bypassed), Ok(vec![]));
    assert_eq!(warnings_of(&JudgeOutcome::FastApproved { elapsed_ms: 3 }), Ok(vec![]));
}

#[test]
fn a_warning_becomes_a_notice() {
    assert_eq!(
        warnings_of(&verdict(JudgeDecision::Warn, "check the branch", true)),
        Ok(vec!["NOTICE: check the branch".to_string()])
    );
}

#[test]
fn every_judge_decision_records_the_linked_transcript_call() {
    let cases = [
        (JudgeDecision::Allow, None, "allow"),
        (JudgeDecision::Warn, Some("rg-replace-footgun"), "warn:rg-replace-footgun"),
        (JudgeDecision::Block, Some("destructive-rm"), "block:destructive-rm"),
    ];
    for (decision, code, detail) in cases {
        let events =
            match judge_preflight_outcome(&verdict_outcome(decision, code), 12, Some("call-linkage")) {
                Ok(preflight) => preflight.compensation_events,
                Err(error) => error.compensation_events,
            };
        assert_eq!(events.len(), 1, "{detail} must record one judge event");
        assert_eq!(events[0].detail.as_deref(), Some(detail));
        assert_eq!(
            events[0].call_id.as_deref(),
            Some(call_id_hex("call-linkage").as_str()),
            "{detail} must carry the digest of the call it judged"
        );
    }
}

#[test]
fn bypass_and_fail_closed_record_the_linked_transcript_call() {
    let bypassed = judge_preflight_outcome(&JudgeOutcome::Bypassed, 0, Some("call-linkage")).unwrap();
    assert_eq!(bypassed.compensation_events.len(), 1);
    assert_eq!(bypassed.compensation_events[0].kind, CompensationKind::JudgeBypass);
    assert_eq!(
        bypassed.compensation_events[0].call_id.as_deref(),
        Some(call_id_hex("call-linkage").as_str())
    );

    let denied = fail_closed_tool_error("timeout", "judge timed out", Some("call-linkage"));
    assert_eq!(denied.compensation_events.len(), 1);
    assert_eq!(denied.compensation_events[0].kind, CompensationKind::JudgeFailClosed);
    assert_eq!(
        denied.compensation_events[0].call_id.as_deref(),
        Some(call_id_hex("call-linkage").as_str())
    );
}

#[test]
fn a_block_verdict_is_refused_with_one_verdict_event() {
    let outcome = JudgeOutcome::Verdict {
        decision: JudgeDecision::Block,
        message: "Prefer push --force-with-lease.".to_string(),
        code: Some("git-force-push".to_string()),
        overridden: false,
    };
    let error = judge_preflight_outcome(&outcome, 12, Some("call-linkage")).unwrap_err();
    assert_eq!(error.message, "BLOCKED\n\nReason: Prefer push --force-with-lease.");
    assert_eq!(error.compensation_events.len(), 1);
    let event = &error.compensation_events[0];
    assert_eq!(event.kind, CompensationKind::JudgeVerdict);
    assert_eq!(event.detail.as_deref(), Some("block:git-force-push"));
    assert_eq!(event.overridden, None);
    assert_eq!(event.latency_ms, Some(12));
}

#[test]
fn a_warning_verdict_records_its_code_and_latency() {
    let outcome = JudgeOutcome::Verdict {
        decision: JudgeDecision::Warn,
        message: "Use -r with an explicit replacement.".to_string(),
        code: Some("rg-replace-footgun".to_string()),
        overridden: false,
    };
    let preflight = judge_preflight_outcome(&outcome, 7, None).unwrap();
    assert_eq!(preflight.warnings, vec!["NOTICE: Use -r with an explicit replacement.".to_string()]);
    assert_eq!(preflight.compensation_events.len(), 1);
    assert_eq!(preflight.compensation_events[0].kind, CompensationKind::JudgeVerdict);
    assert_eq!(preflight.compensation_events[0].detail.as_deref(), Some("warn:rg-replace-footgun"));
    assert_eq!(preflight.compensation_events[0].latency_ms, Some(7));
    assert_eq!(preflight.compensation_events[0].call_id, None);
}

#[test]
fn an_overridden_block_records_the_override() {
    let outcome = JudgeOutcome::Verdict {
        decision: JudgeDecision::Block,
        message: "judged".to_string(),
        code: Some("destructive-rm".to_string()),
        overridden: true,
    };
    let preflight = judge_preflight_outcome(&outcome, 1, None).unwrap();
    assert!(preflight.warnings.is_empty());
    assert_eq!(preflight.compensation_events[0].detail.as_deref(), Some("block:destructive-rm"));
    assert_eq!(preflight.compensation_events[0].overridden, Some(true));
}

#[test]
fn a_fast_approval_is_an_allow_verdict_with_the_fast_latency() {
    let attempts = [JudgeAttempt { total_ms: 100, retry_delay_ms: 500 }];
    let evaluation = JudgeEvaluation {
        outcome: Ok(JudgeOutcome::FastApproved { elapsed_ms: 42 }),
        attempts: attempts.to_vec(),
    };
    let preflight = observed_evaluation_to_preflight(&evaluation, Some("call-cascade")).unwrap();
    assert!(preflight.warnings.is_empty());
    let event = &preflight.compensation_events[0];
    assert_eq!(event.kind, CompensationKind::JudgeVerdict);
    assert_eq!(event.detail.as_deref(), Some("allow"));
    assert_eq!(event.overridden, None);
    assert_eq!(event.latency_ms, Some(42));
    assert_eq!(event.call_id.as_deref(), Some(call_id_hex("call-cascade").as_str()));
}

#[test]
fn a_judge_failure_fails_closed_with_its_class() {
    let evaluation = JudgeEvaluation {
        outcome: Err(JudgeFailure { class: "timeout".to_string(), message: "judge timed out".to_string() }),
        attempts: vec![JudgeAttempt { total_ms: 100, retry_delay_ms: 0 }],
    };
    let error = observed_evaluation_to_preflight(&evaluation, None).unwrap_err();
    assert_eq!(
        error.message,
        "BLOCKED\n\nThe command-safety judge was unavailable, so this command was not executed \
         (fail-closed).\n\njudge timed out"
    );
    assert_eq!(error.compensation_events.len(), 1);
    assert_eq!(error.compensation_events[0].kind, CompensationKind::JudgeFailClosed);
    assert_eq!(error.compensation_events[0].detail.as_deref(), Some("timeout"));
}

#[test]
fn an_evaluated_verdict_records_every_attempt_and_wait_as_latency() {
    let evaluation = JudgeEvaluation {
        outcome: Ok(verdict_outcome(JudgeDecision::Allow, None)),
        attempts: vec![
            JudgeAttempt { total_ms: 100, retry_delay_ms: 500 },
            JudgeAttempt { total_ms: 120, retry_delay_ms: 0 },
        ],
    };
    let preflight = observed_evaluation_to_preflight(&evaluation, None).unwrap();
    assert_eq!(preflight.compensation_events[0].latency_ms, Some(720));
}

#[test]
fn the_call_digest_is_lower_case_hex_sha256() {
    assert_eq!(
        call_id_digest("abc"),
        "ba7816bf8f01cfea414140de5dae2223b00361a396177a9cb410ff61f20015ad"
    );
    assert_eq!(call_id_digest("call-linkage"), call_id_hex("call-linkage"));
    let event = CompensationEvent::judge_bypass().with_call_id(None);
    assert_eq!(event.call_id, None);
}

#[test]
fn a_post_gate_failure_keeps_the_preflight_events() {
    let preflight = bypassed_preflight(Some("call-linkage"));
    let error = judge_tool_error(preflight.compensation_events.clone(), "Command timed out after 5 seconds".to_string());
    assert_eq!(error.message, "Command timed out after 5 seconds");
    assert_eq!(error.compensation_events, preflight.compensation_events);
    assert_eq!(error.compensation_events[0].detail, None);
}

#[test]
fn a_cut_run_records_one_truncation_event() {
    let mut events = Vec::new();
    push_truncation_event_if(&mut events, "Bash", false, false);
    assert!(events.is_empty());
    push_truncation_event_if(&mut events, "Bash", true, true);
    assert_eq!(events.len(), 1);
    assert_eq!(events[0].kind, CompensationKind::OutputTruncation);
    assert_eq!(events[0].detail.as_deref(), Some("Bash"));
    assert_eq!(events[0].call_id, None);
    push_truncation_event_if(&mut events, "BashSession", false, true);
    assert_eq!(events.len(), 2);
    assert_eq!(events[1].detail.as_deref(), Some("BashSession"));
}

#[test]
fn latency_is_the_fast_leg_or_every_attempt_and_wait() {
    let attempts = [
        JudgeAttempt { total_ms: 100, retry_delay_ms: 500 },
        JudgeAttempt { total_ms: 120, retry_delay_ms: 0 },
    ];
    assert_eq!(judge_latency_ms(&verdict(JudgeDecision::Allow, "", false), &attempts), 720);
    assert_eq!(judge_latency_ms(&JudgeOutcome::FastApproved { elapsed_ms: 42 }, &attempts), 42);
    let huge = [JudgeAttempt { total_ms: u64::MAX, retry_delay_ms: 1 }];
    assert_eq!(judge_latency_ms(&JudgeOutcome::Bypassed, &huge), u64::MAX);
}

#[test]
fn gate_skips_blank_commands_and_refuses_without_a_judge() {
    assert_eq!(judge_gate("  ", false, false, Some("c")), JudgeGate::Skip);
    match judge_gate("ls", false, true, Some("call-linkage")) {
        JudgeGate::Refuse { error } => {
            assert_eq!(
                error.message,
                "BLOCKED\n\nThe command-safety judge was unavailable, so this command was not executed \
                 (fail-closed).\n\nthe command-safety judge is not configured for this run"
            );
            assert_eq!(error.compensation_events.len(), 1);
            assert_eq!(error.compensation_events[0].kind, CompensationKind::JudgeFailClosed);
            assert_eq!(error.compensation_events[0].detail.as_deref(), Some("missing_context"));
            assert_eq!(
                error.compensation_events[0].call_id.as_deref(),
                Some(call_id_hex("call-linkage").as_str())
            );
        },
        other => panic!("expected a refusal, got {other:?}"),
    }
    match judge_gate("ls", true, false, None) {
        JudgeGate::Bypass { preflight } => {
            assert!(preflight.warnings.is_empty());
            assert_eq!(preflight.compensation_events.len(), 1);
            assert_eq!(preflight.compensation_events[0].kind, CompensationKind::JudgeBypass);
            assert_eq!(preflight.compensation_events[0].detail, None);
        },
        other => panic!("expected a bypass, got {other:?}"),
    }
    assert_eq!(judge_gate("ls", true, true, None), JudgeGate::Evaluate);
}
