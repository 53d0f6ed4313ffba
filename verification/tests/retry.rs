use cake::retry::{
    capped_backoff_ms, classify_http_failure, classify_http_failure_at, classify_transport_error,
    deterministic_jitter_ms, extract_u32_values, fallback_delay_ms, has_overloaded_marker,
    parse_context_overflow, parse_retry_after_at, parse_u64, parse_x_should_retry,
    should_disable_connection_reuse, ContextOverflow, HttpFailure, RequestOverrides, RetryDecision,
    RetryPolicy, RetryReason, RetryStatus, TransportCause, TransportError,
};
use chrono::TimeZone;
use sha2::{Digest, Sha256};

/// The bytes of the session id `550e8400-e29b-41d4-a716-446655440000`.
fn session_id() -> [u8; 16] {
    *uuid::Uuid::parse_str("550e8400-e29b-41d4-a716-446655440000")
        .unwrap()
        .as_bytes()
}

fn retry_policy() -> RetryPolicy {
    RetryPolicy::default()
}

fn http_failure(status: u16) -> HttpFailure {
    HttpFailure {
        status,
        retry_after: None,
        x_should_retry: None,
        body: String::new(),
    }
}

fn transport_error(message: &str, is_timeout: bool, is_connect: bool) -> TransportError {
    TransportError {
        causes: vec![TransportCause {
            message: message.to_string(),
            is_timeout,
            is_connect,
        }],
    }
}

fn now_ms() -> i64 {
    chrono::Utc::now().timestamp_millis()
}

#[test]
fn parse_retry_after_delta_seconds() {
    assert_eq!(
        parse_retry_after_at(&Some("3".to_string()), now_ms()),
        Some(3_000)
    );
}

#[test]
fn parse_retry_after_http_date() {
    let now = chrono::Utc
        .with_ymd_and_hms(2026, 4, 28, 0, 0, 0)
        .single()
        .unwrap()
        .timestamp_millis();

    assert_eq!(
        parse_retry_after_at(&Some("Tue, 28 Apr 2026 00:01:30 GMT".to_string()), now),
        Some(90_000)
    );
}

#[test]
fn x_should_retry_false_blocks_retry() {
    let failure = HttpFailure {
        status: 503,
        retry_after: None,
        x_should_retry: Some("false".to_string()),
        body: r#"{"error":{"message":"busy","type":"server_error"}}"#.to_string(),
    };

    assert_eq!(
        classify_http_failure(
            &retry_policy(),
            &failure,
            1,
            &session_id(),
            &RequestOverrides::default()
        ),
        RetryDecision::DoNotRetry
    );
}

#[test]
fn x_should_retry_false_blocks_overloaded_error() {
    let failure = HttpFailure {
        status: 503,
        retry_after: None,
        x_should_retry: Some("false".to_string()),
        body: r#"{"error":{"message":"provider overloaded","type":"overloaded_error"}}"#.to_string(),
    };

    assert_eq!(
        classify_http_failure(
            &retry_policy(),
            &failure,
            1,
            &session_id(),
            &RequestOverrides::default()
        ),
        RetryDecision::DoNotRetry
    );
}

#[test]
fn overloaded_retry_detail_is_classified_once() {
    let marker_body = r#"{"error":{"message":"provider overloaded","type":"overloaded_error"}}"#;

    for (status, expected_detail) in [
        (400, "overloaded provider"),
        (503, "overloaded provider"),
        (529, "529 overloaded provider"),
    ] {
        let failure = HttpFailure {
            status,
            retry_after: None,
            x_should_retry: None,
            body: marker_body.to_string(),
        };

        match classify_http_failure(
            &retry_policy(),
            &failure,
            1,
            &session_id(),
            &RequestOverrides::default(),
        ) {
            RetryDecision::Retry { status } => {
                assert_eq!(status.reason, RetryReason::Overloaded);
                assert_eq!(status.detail, expected_detail);
            },
            other => panic!("expected overloaded retry, got {other:?}"),
        }
    }
}

#[test]
fn parse_context_overflow_reduces_output_budget() {
    let failure = HttpFailure {
        status: 400,
        retry_after: None,
        x_should_retry: None,
        body: r#"{"error":{"message":"input length and max_tokens exceed context limit: 12000 + 5000 > 16384"}}"#.to_string(),
    };
    let decision = classify_http_failure(
        &retry_policy(),
        &failure,
        1,
        &session_id(),
        &RequestOverrides {
            max_output_tokens: Some(5000),
            reasoning_max_tokens: Some(4000),
            context_overflow_retry_used: false,
        },
    );

    match decision {
        RetryDecision::RetryWithOverrides { status, overrides } => {
            assert_eq!(status.reason, RetryReason::ContextOverflow);
            assert_eq!(status.delay_ms, 0);
            assert_eq!(overrides.max_output_tokens, Some(3360));
            assert_eq!(overrides.reasoning_max_tokens, Some(3359));
            assert!(overrides.context_overflow_retry_used);
        },
        other => panic!("expected overflow retry override, got {other:?}"),
    }
}

#[test]
fn parse_context_overflow_ignores_trailing_numeric_metadata() {
    let failure = HttpFailure {
        status: 400,
        retry_after: None,
        x_should_retry: None,
        body: r#"{"error":{"message":"input length and max_tokens exceed context limit: 12000 + 5000 > 16384 (request 42)"}}"#.to_string(),
    };

    match classify_http_failure(
        &retry_policy(),
        &failure,
        1,
        &session_id(),
        &RequestOverrides {
            max_output_tokens: Some(5000),
            reasoning_max_tokens: Some(4000),
            context_overflow_retry_used: false,
        },
    ) {
        RetryDecision::RetryWithOverrides { overrides, .. } => {
            assert_eq!(overrides.max_output_tokens, Some(3360));
            assert_eq!(overrides.reasoning_max_tokens, Some(3359));
        },
        other => panic!("expected overflow retry override, got {other:?}"),
    }
}

#[test]
fn fallback_delay_caps_and_jitters() {
    let policy = retry_policy();
    let capped = fallback_delay_ms(&policy, 10, &session_id());
    assert_eq!(capped, policy.max_backoff_ms);

    let jittered = fallback_delay_ms(&policy, 3, &session_id());
    assert!(jittered >= 2_000);
    assert!(jittered <= 2_400);
}

#[test]
fn retry_policy_controls_retry_budget_and_backoff() {
    let policy = RetryPolicy {
        max_retries: 2,
        base_delay_ms: 25,
        max_backoff_ms: 25,
        jitter_divisor: 0,
    };

    assert_eq!(
        classify_http_failure(
            &policy,
            &http_failure(429),
            1,
            &session_id(),
            &RequestOverrides::default()
        ),
        RetryDecision::Retry {
            status: RetryStatus {
                attempt: 2,
                max_retries: 2,
                delay_ms: 25,
                reason: RetryReason::RateLimit,
                detail: "429 rate limit".to_string(),
            },
        }
    );
    assert_eq!(
        classify_http_failure(
            &policy,
            &http_failure(429),
            2,
            &session_id(),
            &RequestOverrides::default()
        ),
        RetryDecision::DoNotRetry
    );
}

#[test]
fn stale_connection_markers_retry_and_disable_reuse() {
    let error = transport_error("connection reset by peer", false, false);

    assert!(should_disable_connection_reuse(&error));
    match classify_transport_error(&retry_policy(), &error, 1, &session_id()) {
        RetryDecision::Retry { status } => {
            assert_eq!(status.reason, RetryReason::Network);
            assert_eq!(status.detail, "stale connection reset");
        },
        other => panic!("expected transport retry, got {other:?}"),
    }
}

// -----------------------------------------------------------------------------
// Further cases
// -----------------------------------------------------------------------------

#[test]
fn default_policy_values() {
    let policy = RetryPolicy::default();
    assert_eq!(policy.max_retries, 5);
    assert_eq!(policy.base_delay_ms, 500);
    assert_eq!(policy.max_backoff_ms, 30_000);
    assert_eq!(policy.jitter_divisor, 5);
    assert_eq!(RequestOverrides::default().max_output_tokens, None);
    assert!(!RequestOverrides::default().context_overflow_retry_used);
}

#[test]
fn backoff_doubles_per_attempt_and_caps() {
    let policy = retry_policy();
    assert_eq!(capped_backoff_ms(&policy, 0), 500);
    assert_eq!(capped_backoff_ms(&policy, 1), 500);
    assert_eq!(capped_backoff_ms(&policy, 2), 1_000);
    assert_eq!(capped_backoff_ms(&policy, 3), 2_000);
    assert_eq!(capped_backoff_ms(&policy, 7), 30_000);
    assert_eq!(capped_backoff_ms(&policy, u32::MAX), 30_000);
    let huge = RetryPolicy {
        max_retries: 5,
        base_delay_ms: u64::MAX / 2,
        max_backoff_ms: u64::MAX,
        jitter_divisor: 5,
    };
    assert_eq!(capped_backoff_ms(&huge, 40), u64::MAX);
}

#[test]
fn jitter_is_deterministic_and_bounded() {
    let a = deterministic_jitter_ms(&session_id(), 3, 400);
    let b = deterministic_jitter_ms(&session_id(), 3, 400);
    assert_eq!(a, b);
    assert!(a <= 400);
    assert_eq!(deterministic_jitter_ms(&session_id(), 3, 0), 0);
    for attempt in 0..20 {
        assert!(deterministic_jitter_ms(&session_id(), attempt, 7) <= 7);
    }
}

#[test]
fn jitter_matches_sha256_of_session_and_attempt() {
    let id = session_id();
    let mut hasher = Sha256::new();
    hasher.update(id);
    hasher.update(3_u32.to_be_bytes());
    let digest = hasher.finalize();
    let mut first = [0_u8; 8];
    first.copy_from_slice(&digest[..8]);
    let expected = u64::from_be_bytes(first) % 401;
    assert_eq!(deterministic_jitter_ms(&id, 3, 400), expected);
}

#[test]
fn fallback_without_jitter_is_the_backoff() {
    let policy = RetryPolicy {
        max_retries: 5,
        base_delay_ms: 100,
        max_backoff_ms: 10_000,
        jitter_divisor: 0,
    };
    assert_eq!(fallback_delay_ms(&policy, 3, &session_id()), 400);
}

#[test]
fn budget_spent_never_retries() {
    let policy = retry_policy();
    assert_eq!(
        classify_http_failure(&policy, &http_failure(429), 5, &session_id(), &RequestOverrides::default()),
        RetryDecision::DoNotRetry
    );
    assert_eq!(
        classify_transport_error(&policy, &transport_error("broken pipe", false, false), 5, &session_id()),
        RetryDecision::DoNotRetry
    );
}

#[test]
fn fixed_status_classifications() {
    for (status, reason, detail) in [
        (408, RetryReason::RequestTimeout, "408 request timeout"),
        (409, RetryReason::LockTimeout, "409 lock timeout"),
        (429, RetryReason::RateLimit, "429 rate limit"),
        (500, RetryReason::ServerError, "500 server error"),
        (502, RetryReason::ServerError, "502 server error"),
        (503, RetryReason::ServerError, "503 server error"),
        (504, RetryReason::ServerError, "504 server error"),
        (529, RetryReason::Overloaded, "529 overloaded provider"),
    ] {
        match classify_http_failure_at(
            &retry_policy(),
            &http_failure(status),
            0,
            &session_id(),
            &RequestOverrides::default(),
            0,
        ) {
            RetryDecision::Retry { status: st } => {
                assert_eq!(st.reason, reason);
                assert_eq!(st.detail, detail);
                assert_eq!(st.attempt, 1);
                assert_eq!(st.max_retries, 5);
            },
            other => panic!("expected retry for {status}, got {other:?}"),
        }
    }
}

#[test]
fn unlisted_statuses_are_not_retried() {
    for status in [400, 401, 403, 404, 501, 599] {
        assert_eq!(
            classify_http_failure_at(
                &retry_policy(),
                &http_failure(status),
                0,
                &session_id(),
                &RequestOverrides::default(),
                0
            ),
            RetryDecision::DoNotRetry,
            "status {status}"
        );
    }
}

#[test]
fn x_should_retry_true_retries_other_server_errors() {
    let failure = HttpFailure {
        status: 501,
        retry_after: None,
        x_should_retry: Some("  TRUE ".to_string()),
        body: String::new(),
    };
    match classify_http_failure_at(&retry_policy(), &failure, 0, &session_id(), &RequestOverrides::default(), 0) {
        RetryDecision::Retry { status } => {
            assert_eq!(status.reason, RetryReason::ServerError);
            assert_eq!(status.detail, "501 server error");
        },
        other => panic!("expected retry, got {other:?}"),
    }
    let client_error = HttpFailure {
        status: 418,
        retry_after: None,
        x_should_retry: Some("true".to_string()),
        body: String::new(),
    };
    assert_eq!(
        classify_http_failure_at(&retry_policy(), &client_error, 0, &session_id(), &RequestOverrides::default(), 0),
        RetryDecision::DoNotRetry
    );
}

#[test]
fn retry_after_seconds_sets_the_delay() {
    let failure = HttpFailure {
        status: 429,
        retry_after: Some(" 7 ".to_string()),
        x_should_retry: None,
        body: String::new(),
    };
    match classify_http_failure_at(&retry_policy(), &failure, 2, &session_id(), &RequestOverrides::default(), 0) {
        RetryDecision::Retry { status } => {
            assert_eq!(status.delay_ms, 7_000);
            assert_eq!(status.attempt, 3);
        },
        other => panic!("expected retry, got {other:?}"),
    }
}

#[test]
fn retry_after_in_the_past_is_zero() {
    let now = chrono::Utc
        .with_ymd_and_hms(2026, 4, 28, 0, 5, 0)
        .single()
        .unwrap()
        .timestamp_millis();
    assert_eq!(
        parse_retry_after_at(&Some("Tue, 28 Apr 2026 00:01:30 GMT".to_string()), now),
        Some(0)
    );
    assert_eq!(parse_retry_after_at(&Some("soon".to_string()), now), None);
    assert_eq!(parse_retry_after_at(&None, now), None);
}

#[test]
fn u64_parsing_follows_from_str() {
    assert_eq!(parse_u64(b"42"), Some(42));
    assert_eq!(parse_u64(b"+42"), Some(42));
    assert_eq!(parse_u64(b"007"), Some(7));
    assert_eq!(parse_u64(b""), None);
    assert_eq!(parse_u64(b"+"), None);
    assert_eq!(parse_u64(b"-1"), None);
    assert_eq!(parse_u64(b"1.5"), None);
    assert_eq!(parse_u64(b"18446744073709551615"), Some(u64::MAX));
    assert_eq!(parse_u64(b"18446744073709551616"), None);
    for s in ["0", "+9", "123456789012", "x1", "1x"] {
        assert_eq!(parse_u64(s.as_bytes()), s.parse::<u64>().ok(), "{s}");
    }
}

#[test]
fn x_should_retry_header_values() {
    assert_eq!(parse_x_should_retry(&Some("true".to_string())), Some(true));
    assert_eq!(parse_x_should_retry(&Some("False".to_string())), Some(false));
    assert_eq!(parse_x_should_retry(&Some(" maybe ".to_string())), None);
    assert_eq!(parse_x_should_retry(&None), None);
}

#[test]
fn overloaded_marker_ignores_case() {
    assert!(has_overloaded_marker(r#"{"type":"OVERLOADED_ERROR"}"#));
    assert!(!has_overloaded_marker("overloaded"));
}

#[test]
fn u32_values_skip_overflowing_runs() {
    assert_eq!(extract_u32_values(b"12000 + 5000 > 16384"), vec![12000, 5000, 16384]);
    assert_eq!(extract_u32_values(b"a99999999999b7"), vec![7]);
    assert_eq!(extract_u32_values(b"4294967295 4294967296"), vec![u32::MAX]);
    assert_eq!(extract_u32_values(b""), Vec::<u32>::new());
}

#[test]
fn context_overflow_parsing() {
    assert_eq!(
        parse_context_overflow("Context Limit: 100 + 20 > 110 MAX_TOKENS"),
        Some(ContextOverflow {
            input_tokens: 100,
            requested_tokens: 20,
            context_limit: 110
        })
    );
    assert_eq!(
        parse_context_overflow(r#"{"message":"max_tokens over context limit: 1 2 + 3 > 4"}"#),
        Some(ContextOverflow {
            input_tokens: 2,
            requested_tokens: 3,
            context_limit: 4
        })
    );
    assert_eq!(parse_context_overflow("context limit: 1 + 2 > 3"), None);
    assert_eq!(parse_context_overflow("max_tokens context limit: 1 - 2 > 3"), None);
}

#[test]
fn context_overflow_is_retried_only_once() {
    let failure = HttpFailure {
        status: 400,
        retry_after: None,
        x_should_retry: None,
        body: r#"{"error":{"message":"input length and max_tokens exceed context limit: 12000 + 5000 > 16384"}}"#.to_string(),
    };
    let used = RequestOverrides {
        max_output_tokens: Some(3360),
        reasoning_max_tokens: None,
        context_overflow_retry_used: true,
    };
    assert_eq!(
        classify_http_failure_at(&retry_policy(), &failure, 1, &session_id(), &used, 0),
        RetryDecision::DoNotRetry
    );
}

#[test]
fn context_overflow_without_room_is_not_retried() {
    let failure = HttpFailure {
        status: 400,
        retry_after: None,
        x_should_retry: None,
        body: r#"{"error":{"message":"max_tokens: context limit: 16000 + 5000 > 16384"}}"#.to_string(),
    };
    assert_eq!(
        classify_http_failure_at(&retry_policy(), &failure, 1, &session_id(), &RequestOverrides::default(), 0),
        RetryDecision::DoNotRetry
    );
}

#[test]
fn transport_flags_and_phrases() {
    let policy = retry_policy();
    let cases = [
        (transport_error("whatever", true, false), Some("stale connection timeout")),
        (transport_error("whatever", false, true), Some("stale connection failure")),
        (transport_error("Broken Pipe", false, false), Some("stale broken pipe")),
        (transport_error("unexpected EOF during handshake", false, false), Some("stale unexpected eof")),
        (transport_error("reached end of file", false, false), Some("stale unexpected eof")),
        (transport_error("operation timed out", false, false), Some("stale connection timeout")),
        (transport_error("invalid certificate", false, false), None),
    ];
    for (error, expected) in cases {
        assert_eq!(should_disable_connection_reuse(&error), expected.is_some());
        match (classify_transport_error(&policy, &error, 0, &session_id()), expected) {
            (RetryDecision::Retry { status }, Some(detail)) => {
                assert_eq!(status.detail, detail);
                assert_eq!(status.reason, RetryReason::Network);
                assert_eq!(status.delay_ms, fallback_delay_ms(&policy, 0, &session_id()) as u128);
            },
            (RetryDecision::DoNotRetry, None) => {},
            (other, expected) => panic!("unexpected {other:?} for {expected:?}"),
        }
    }
}

#[test]
fn transport_messages_are_joined_across_the_chain() {
    let error = TransportError {
        causes: vec![
            TransportCause {
                message: "request failed".to_string(),
                is_timeout: false,
                is_connect: false,
            },
            TransportCause {
                message: "Connection Reset by peer".to_string(),
                is_timeout: false,
                is_connect: false,
            },
        ],
    };
    assert!(should_disable_connection_reuse(&error));
    let split = TransportError {
        causes: vec![
            TransportCause {
                message: "connection".to_string(),
                is_timeout: false,
                is_connect: false,
            },
            TransportCause {
                message: "reset".to_string(),
                is_timeout: false,
                is_connect: false,
            },
        ],
    };
    assert!(!should_disable_connection_reuse(&split));
}

use cake::retry::{jitter_from_digest, parse_context_overflow_message, retry_after_delay_until};

#[test]
fn jitter_reads_the_first_eight_digest_bytes() {
    let digest = [0, 0, 0, 0, 0, 0, 1, 0, 0xff, 0xff];
    assert_eq!(jitter_from_digest(&digest, 1000), 256);
    assert_eq!(jitter_from_digest(&digest, 100), 256 % 101);
    assert_eq!(jitter_from_digest(&digest, 0), 0);
    let full = Sha256::digest(b"x");
    assert!(jitter_from_digest(&full, 7) <= 7);
}

#[test]
fn retry_after_dates_count_down_to_zero() {
    assert_eq!(retry_after_delay_until(None, 5), None);
    assert_eq!(retry_after_delay_until(Some(10_000), 4_000), Some(6_000));
    assert_eq!(retry_after_delay_until(Some(4_000), 10_000), Some(0));
    assert_eq!(retry_after_delay_until(Some(4_000), 4_000), Some(0));
}

#[test]
fn overflow_message_is_read_from_plain_text() {
    assert_eq!(
        parse_context_overflow_message("max_tokens too large: context limit: 120000 + 9000 > 128000"),
        Some(ContextOverflow { input_tokens: 120000, requested_tokens: 9000, context_limit: 128000 })
    );
    assert_eq!(parse_context_overflow_message("context limit reached"), None);
}

#[test]
fn the_nested_error_message_wins_over_the_top_level_one() {
    assert_eq!(
        parse_context_overflow(
            r#"{"message":"max_tokens context limit: 9 + 9 > 9","error":{"message":"max_tokens context limit: 1 + 2 > 3"}}"#
        ),
        Some(ContextOverflow { input_tokens: 1, requested_tokens: 2, context_limit: 3 })
    );
    assert_eq!(
        parse_context_overflow(r#"{"error":{"code":7},"message":"max_tokens context limit: 4 + 5 > 6"}"#),
        Some(ContextOverflow { input_tokens: 4, requested_tokens: 5, context_limit: 6 })
    );
}

#[test]
fn a_past_http_date_is_retried_at_once_with_the_clock_read() {
    let failure = HttpFailure {
        status: 503,
        retry_after: Some("Tue, 28 Apr 2020 00:01:30 GMT".to_string()),
        x_should_retry: None,
        body: String::new(),
    };
    match classify_http_failure(&retry_policy(), &failure, 0, &session_id(), &RequestOverrides::default()) {
        RetryDecision::Retry { status } => {
            assert_eq!(status.attempt, 1);
            assert_eq!(status.delay_ms, 0);
        },
        other => panic!("expected a retry, got {other:?}"),
    }
}
