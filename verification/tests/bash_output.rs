use cake::bash_output::{
    annotate_empty_search_result, compose_text_output, format_kib_tenths, format_metadata_footer,
    is_binary_data, is_sandbox_initialization_failure, is_sandbox_violation,
    sandbox_initialization_output, EMPTY_SEARCH_NO_MATCH_ANNOTATION,
};

/// Pure parsing of the optional value for `CAKE_REQUIRE_SANDBOX_TESTS`.
fn parse_sandbox_tests_required(value: Option<&str>) -> bool {
    matches!(value, Some("1" | "true" | "yes" | "on"))
}

#[test]
fn metadata_footer_shows_milliseconds_under_1_second() {
    let footer = format_metadata_footer(0, 500);
    assert_eq!(footer, "[exit:0 | 500ms]");
}

#[test]
fn metadata_footer_shows_milliseconds_at_boundary() {
    // 999ms should still show as milliseconds
    let footer = format_metadata_footer(0, 999);
    assert_eq!(footer, "[exit:0 | 999ms]");
}

#[test]
fn metadata_footer_shows_seconds_over_1_second() {
    // 1000ms should show as 1.0s
    let footer = format_metadata_footer(0, 1000);
    assert_eq!(footer, "[exit:0 | 1.0s]");
}

#[test]
fn metadata_footer_shows_seconds_with_decimal() {
    // 1234ms should show as 1.2s (rounded to 1 decimal)
    let footer = format_metadata_footer(1, 1234);
    assert_eq!(footer, "[exit:1 | 1.2s]");
}

#[test]
fn metadata_footer_handles_large_values() {
    // 60000ms = 60.0s
    let footer = format_metadata_footer(0, 60000);
    assert_eq!(footer, "[exit:0 | 60.0s]");
}

#[test]
fn format_kib_tenths_rounds_to_nearest_tenth() {
    assert_eq!(format_kib_tenths(0), "0.0");
    assert_eq!(format_kib_tenths(51), "0.0");
    assert_eq!(format_kib_tenths(52), "0.1");
    assert_eq!(format_kib_tenths(1024), "1.0");
    assert_eq!(format_kib_tenths(1536), "1.5");
}

#[test]
fn format_kib_tenths_handles_max_size_without_overflowing() {
    let formatted = format_kib_tenths(usize::MAX);

    assert!(formatted.contains('.'));
}

#[test]
fn empty_rg_no_match_is_annotated() {
    let result = annotate_empty_search_result("rg definitely_missing src", String::new(), 1, "");

    assert_eq!(result, EMPTY_SEARCH_NO_MATCH_ANNOTATION);
}

#[test]
fn empty_non_search_exit_one_is_not_annotated() {
    let result = annotate_empty_search_result("false", String::new(), 1, "");

    assert_eq!(result, "");
}

#[test]
fn search_error_with_stderr_is_not_annotated() {
    let result = annotate_empty_search_result(
        "rg definitely_missing src",
        String::new(),
        1,
        "regex parse error",
    );

    assert_eq!(result, "");
}

#[test]
fn require_sandbox_tests_false_for_unrecognized_values() {
    assert!(!parse_sandbox_tests_required(Some("0")));
    assert!(!parse_sandbox_tests_required(Some("false")));
    assert!(!parse_sandbox_tests_required(Some("no")));
    assert!(!parse_sandbox_tests_required(Some("off")));
    assert!(!parse_sandbox_tests_required(Some("maybe")));
    assert!(!parse_sandbox_tests_required(Some("")));
}

#[test]
fn require_sandbox_tests_true_for_truthy_values() {
    assert!(parse_sandbox_tests_required(Some("1")));
    assert!(parse_sandbox_tests_required(Some("true")));
    assert!(parse_sandbox_tests_required(Some("yes")));
    assert!(parse_sandbox_tests_required(Some("on")));
}

#[test]
fn test_is_binary_data_detects_null_bytes() {
    // Data with null bytes should be detected as binary (need >8 null bytes)
    let binary_data =
        b"hello\x00world\x00more\x00nulls\x00here\x00more\x00data\x00extra\x00again\x00more";
    assert!(is_binary_data(binary_data));
}

#[test]
fn test_is_binary_data_detects_high_non_printable_ratio() {
    // Data with many non-printable characters should be detected as binary
    // Create data with ~50% non-printable characters
    let mut binary_data = Vec::new();
    for i in 0..100 {
        if i % 2 == 0 {
            binary_data.push(0x01); // Non-printable
        } else {
            binary_data.push(b'A'); // Printable
        }
    }
    assert!(is_binary_data(&binary_data));
}

#[test]
fn test_is_binary_data_allows_exact_threshold() {
    let mut data = Vec::new();
    for i in 0..100 {
        if i < 30 {
            data.push(0x01);
        } else {
            data.push(b'A');
        }
    }
    assert!(!is_binary_data(&data));
}

#[test]
fn test_is_binary_data_allows_text() {
    // Normal text should not be detected as binary
    let text_data = b"Hello, world!\nThis is a test.\nLine 3.\n";
    assert!(!is_binary_data(text_data));
}

#[test]
fn test_is_binary_data_allows_multibyte_utf8() {
    // UTF-8 text with multi-byte characters should not be detected as binary
    let utf8_text = "Hello, 世界!\nПривет мир\n🎉".as_bytes();
    assert!(!is_binary_data(utf8_text));
}

#[test]
fn test_is_binary_data_allows_few_null_bytes() {
    // A few null bytes (below threshold) should not trigger binary detection
    let text_with_few_nulls = b"hello\x00world";
    assert!(!is_binary_data(text_with_few_nulls));
}

#[test]
fn test_is_binary_data_allows_empty() {
    // Empty data should not be detected as binary.
    assert!(!is_binary_data(b""));
}

#[test]
fn sandbox_initialization_failure_requires_applied_sandbox() {
    let output = "sandbox-exec: sandbox_apply: Operation not permitted";
    assert!(is_sandbox_initialization_failure(true, output));
    assert!(!is_sandbox_initialization_failure(false, output));
    assert!(!is_sandbox_violation(true, false, output, output));
}

#[test]
fn sandbox_initialization_failure_checks_stderr_only() {
    // The pattern must appear in the stderr string to be detected.
    // An empty stderr means no initialization failure, even if stdout
    // contains the literal string.
    assert!(!is_sandbox_initialization_failure(true, ""));
    assert!(!is_sandbox_initialization_failure(
        true,
        "some normal stderr output"
    ));
    assert!(is_sandbox_initialization_failure(
        true,
        "sandbox-exec: sandbox_apply: Operation not permitted"
    ));
}

#[test]
fn sandbox_violation_uses_stderr_for_initialization_exclusion() {
    let output = "sandbox-exec: sandbox_apply: Operation not permitted\nOperation not permitted";
    let denial_stderr = "Operation not permitted";
    let initialization_stderr = "sandbox-exec: sandbox_apply: Operation not permitted";

    assert!(is_sandbox_violation(true, false, output, denial_stderr));
    assert!(!is_sandbox_violation(
        true,
        false,
        output,
        initialization_stderr
    ));
}

#[test]
fn sandbox_initialization_precedes_binary_classification() {
    let binary_output = [0_u8; 16];
    let initialization_stderr = "sandbox-exec: sandbox_apply: Operation not permitted";

    assert!(is_binary_data(&binary_output));
    assert!(sandbox_initialization_output(true, initialization_stderr, &binary_output).is_some());
}

#[test]
fn sandbox_violation_requires_sandboxed_failed_command() {
    let output = "Operation not permitted";

    assert!(is_sandbox_violation(true, false, output, ""));
    assert!(!is_sandbox_violation(true, true, output, ""));
    assert!(!is_sandbox_violation(false, false, output, ""));
}

#[test]
fn compose_text_output_includes_named_denials() {
    let output = compose_text_output(
        "Operation not permitted",
        "",
        false,
        None,
        false,
        true,
        &["  - /tmp/x/secret.json (read)".to_string()],
    );
    assert!(output.contains("[Sandbox restriction]"));
    assert!(output.contains("secret.json"));
    assert!(output.contains("(read)"));
    assert!(output.contains("directories"));
    assert!(output.contains("Do NOT retry"));
}

#[test]
fn compose_text_output_without_denials_keeps_original_guidance() {
    let output = compose_text_output("Operation not permitted", "", false, None, false, true, &[]);
    assert!(output.contains("[Sandbox restriction]"));
    assert!(output.contains("Do NOT retry"));
    assert!(!output.contains("outside the allowed directories"));
}

// -----------------------------------------------------------------------------
// Further formatting and classification cases
// -----------------------------------------------------------------------------

use cake::bash_output::{
    append_metadata, command_starts_with_search, format_metadata_suffix, format_seconds_tenths,
    prepend_safety_warnings, sandbox_denial_detail, should_warn_exit_zero_stderr, take_within_cap,
};

#[test]
fn metadata_footer_negative_exit_code() {
    assert_eq!(format_metadata_footer(-1, 12), "[exit:-1 | 12ms]");
    assert_eq!(format_metadata_footer(i32::MIN, 0), "[exit:-2147483648 | 0ms]");
}

#[test]
fn seconds_round_to_nearest_tenth() {
    assert_eq!(format_seconds_tenths(1000), "1.0");
    assert_eq!(format_seconds_tenths(1049), "1.0");
    assert_eq!(format_seconds_tenths(1050), "1.1");
    assert_eq!(format_seconds_tenths(59_999), "60.0");
}

#[test]
fn metadata_suffix_and_append() {
    assert_eq!(
        format_metadata_suffix(0, 5, true),
        "[stderr output present despite exit 0]\n\n[exit:0 | 5ms]"
    );
    assert_eq!(append_metadata("", 0, 5, false), "[exit:0 | 5ms]");
    assert_eq!(append_metadata("out\n\n  ", 2, 1500, false), "out\n\n[exit:2 | 1.5s]");
}

#[test]
fn exit_zero_stderr_warning_needs_success_and_stderr() {
    assert!(should_warn_exit_zero_stderr(true, "warning"));
    assert!(!should_warn_exit_zero_stderr(true, ""));
    assert!(!should_warn_exit_zero_stderr(false, "error"));
}

#[test]
fn search_commands_by_path_are_recognized() {
    assert!(command_starts_with_search("/usr/bin/grep -r x ."));
    assert!(command_starts_with_search("  egrep x"));
    assert!(!command_starts_with_search("cat file | rg x"));
    assert!(!command_starts_with_search(""));
    assert!(!command_starts_with_search("rgx pattern"));
}

#[test]
fn search_annotation_requires_exit_one() {
    assert_eq!(annotate_empty_search_result("rg x", String::new(), 0, ""), "");
    assert_eq!(annotate_empty_search_result("rg x", "hit".to_string(), 1, ""), "hit");
}

#[test]
fn compose_text_output_cases() {
    assert_eq!(compose_text_output("", "", true, Some(5), false, true, &[]), "");
    assert_eq!(
        compose_text_output("abc", "", true, Some(3), true, false, &[]),
        "abc\n[... output truncated at 3 bytes ...]"
    );
    assert_eq!(compose_text_output("ok", "", false, None, true, true, &[]), "ok");
    assert_eq!(compose_text_output("boom", "", false, None, false, true, &[]), "boom");
}

#[test]
fn denial_detail_lists_paths() {
    assert_eq!(sandbox_denial_detail(&[]), "");
    let detail = sandbox_denial_detail(&["  - /a (read)".to_string(), "  - /b (write)".to_string()]);
    assert!(detail.starts_with("\n\nThe following path(s) are outside the allowed directories:\n  - /a (read)\n  - /b (write)\n"));
}

#[test]
fn read_cap_budget() {
    assert_eq!(take_within_cap(10, None, 100), 10);
    assert_eq!(take_within_cap(10, Some(15), 8), 7);
    assert_eq!(take_within_cap(3, Some(15), 8), 3);
    assert_eq!(take_within_cap(3, Some(15), 15), 0);
}

#[test]
fn safety_warnings_are_prepended() {
    assert_eq!(prepend_safety_warnings("out".to_string(), &[]), "out");
    assert_eq!(
        prepend_safety_warnings("out".to_string(), &["w1".to_string(), "w2".to_string()]),
        "w1\n\nw2\n\nout"
    );
}

#[test]
fn sandbox_initialization_output_is_lossy_text() {
    let stderr = "sandbox-exec: sandbox_apply: Operation not permitted";
    assert_eq!(
        sandbox_initialization_output(true, stderr, b"ok\xff").as_deref(),
        Some("ok\u{fffd}")
    );
    assert!(sandbox_initialization_output(false, stderr, b"ok").is_none());
}

#[test]
fn the_largest_elapsed_time_still_rounds_to_the_tenth() {
    assert_eq!(format_seconds_tenths(u128::MAX), "340282366920938463463374607431768211.5");
    assert_eq!(format_seconds_tenths(1050), "1.1");
    assert_eq!(
        format_metadata_footer(0, u128::MAX),
        "[exit:0 | 340282366920938463463374607431768211.5s]"
    );
}
