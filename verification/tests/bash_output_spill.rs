use cake::bash_output::{
    binary_output_message, detect_mime_type, sanitize_judge_message, truncate_output, BinarySave,
    JUDGE_MESSAGE_MAX_CHARS,
};

const BASH_OUTPUT_MAX_BYTES: usize = 50_000;
const SAVED: &str = "/tmp/cake-bash/output.txt";

#[test]
fn truncate_output_passes_through_small_output() {
    let small = "hello world";
    let result = truncate_output(small, Some(BASH_OUTPUT_MAX_BYTES), 0, 100, false, None);
    assert!(result.contains(small));
    assert!(result.contains("[exit:0 | 100ms]"));
}

#[test]
fn truncate_output_passes_through_at_limit() {
    let exact = "a".repeat(BASH_OUTPUT_MAX_BYTES);
    let result = truncate_output(&exact, Some(BASH_OUTPUT_MAX_BYTES), 0, 50, false, None);
    assert!(result.contains(&exact));
    assert!(result.contains("[exit:0 | 50ms]"));
}

#[test]
fn truncate_output_truncates_large_output() {
    let large = "x".repeat(BASH_OUTPUT_MAX_BYTES + 1000);
    let result = truncate_output(&large, Some(BASH_OUTPUT_MAX_BYTES), 0, 500, false, Some(SAVED));
    assert!(result.len() < large.len());
    assert!(result.contains("[Output too long"));
    assert!(result.contains("Full output saved to:"));
    assert!(result.contains("[exit:0 | 500ms]"));
}

#[test]
fn truncate_output_handles_multibyte_chars() {
    let large = "é".repeat(BASH_OUTPUT_MAX_BYTES);
    let result = truncate_output(&large, Some(BASH_OUTPUT_MAX_BYTES), 1, 2000, false, Some(SAVED));
    assert!(result.contains("[Output too long"));
    assert!(result.contains("[exit:1 | 2.0s]"));
}

#[test]
fn truncated_summary_is_exact_for_a_small_budget() {
    let output = "line1\nline2\nline3\n";
    let result = truncate_output(output, Some(8), 0, 5, false, Some("/tmp/o.txt"));
    assert_eq!(
        result,
        "[Output too long \u{2014} 18 bytes, 3 lines.]\nFull output saved to: /tmp/o.txt\n\
         You can search it with `grep` or view portions with `head`/`tail`.\n\
         Consider reformulating the command to produce less output.\n\n\
         --- first ~2 bytes ---\nli\n\n--- last ~2 bytes ---\n3\n\n[exit:0 | 5ms]"
    );
}

#[test]
fn unsaved_overflow_shows_half_the_budget_at_each_end() {
    let result = truncate_output("abcdefghij", Some(4), 2, 1500, true, None);
    assert_eq!(
        result,
        "[Output too long \u{2014} 10 bytes, 1 lines. The command was too verbose; reformulate with less output \
         (e.g. pipe through `head`, `tail`, or `grep`).]\n\n--- first ~2 bytes ---\nab\n\n--- last ~2 bytes ---\nij\n\
         [stderr output present despite exit 0]\n\n[exit:2 | 1.5s]"
    );
}

#[test]
fn unlimited_budget_never_spills() {
    let large = "y".repeat(200_000);
    let result = truncate_output(&large, None, 0, 1, false, None);
    assert!(result.starts_with(&large));
    assert!(!result.contains("[Output too long"));
}

#[test]
fn multibyte_cut_stays_on_character_boundaries() {
    let result = truncate_output("ééééé", Some(4), 0, 1, false, None);
    assert!(result.contains("--- first ~2 bytes ---\né\n"));
    assert!(result.contains("--- last ~2 bytes ---\né\n"));
}

#[test]
fn test_detect_mime_type_png() {
    let png_header = [0x89, 0x50, 0x4E, 0x47, 0x0D, 0x0A, 0x1A, 0x0A];
    assert_eq!(detect_mime_type(&png_header), Some("image/png"));
}

#[test]
fn test_detect_mime_type_jpeg() {
    let jpeg_header = [0xFF, 0xD8, 0xFF, 0xE0, 0x00, 0x10];
    assert_eq!(detect_mime_type(&jpeg_header), Some("image/jpeg"));
}

#[test]
fn test_detect_mime_type_pdf() {
    let pdf_header = b"%PDF-1.4";
    assert_eq!(detect_mime_type(pdf_header), Some("application/pdf"));
}

#[test]
fn test_detect_mime_type_zip() {
    let zip_header = [0x50, 0x4B, 0x03, 0x04, 0x00, 0x00, 0x00];
    assert_eq!(detect_mime_type(&zip_header), Some("application/zip"));
}

#[test]
fn test_detect_mime_type_gzip() {
    let gzip_header = [0x1F, 0x8B, 0x08, 0x00];
    assert_eq!(detect_mime_type(&gzip_header), Some("application/gzip"));
}

#[test]
fn test_detect_mime_type_unknown() {
    let unknown_data = b"Hello, world!";
    assert_eq!(detect_mime_type(unknown_data), None);
}

#[test]
fn test_detect_mime_type_too_short() {
    let short_data = [0x89, 0x50];
    assert_eq!(detect_mime_type(&short_data), None);
}

#[test]
fn binary_notice_names_size_type_and_file() {
    let png = [0x89, 0x50, 0x4E, 0x47, 0x0D, 0x0A, 0x1A, 0x0A];
    let save = BinarySave::Saved { path: "/tmp/b.bin".to_string() };
    let message = binary_output_message(&png, &save, 0, 20, false);
    assert_eq!(
        message,
        "[Binary output detected - 8 bytes (0.0 KB)]\nDetected type: image/png\nBinary data saved to: /tmp/b.bin\n\
         The command produced binary output which cannot be displayed as text.\n\
         You can inspect the file with appropriate tools (e.g., `file`, `hexdump`, `xxd`).\n[exit:0 | 20ms]"
    );
}

#[test]
fn binary_notice_reports_save_failures() {
    let data = vec![0u8; 2048];
    let dir = BinarySave::DirectoryFailed { error: "denied".to_string() };
    let message = binary_output_message(&data, &dir, 1, 3000, true);
    assert_eq!(
        message,
        "[Binary output detected - 2048 bytes (2.0 KB)]\nDetected type: unknown\n\
         Failed to save binary data to temp file: could not create secure directory: denied\n\
         The command produced binary output which cannot be displayed as text.\n\
         [stderr output present despite exit 0]\n\n[exit:1 | 3.0s]"
    );
    let write = BinarySave::WriteFailed { error: "disk full".to_string() };
    let message = binary_output_message(&data, &write, 1, 10, false);
    assert!(message.contains("\nFailed to save binary data to temp file: disk full\n"));
}

#[test]
fn judge_message_loses_control_characters_but_keeps_line_breaks() {
    assert_eq!(sanitize_judge_message("a\u{0}b\u{1b}[31mc\n\td\r"), "ab[31mc\n\td\r");
    assert_eq!(sanitize_judge_message("caf\u{e9}\u{7f}\u{85}!"), "caf\u{e9}!");
}

#[test]
fn judge_message_is_cut_to_the_character_limit() {
    let long = "é".repeat(JUDGE_MESSAGE_MAX_CHARS + 5);
    let cut = sanitize_judge_message(&long);
    assert_eq!(cut.chars().count(), JUDGE_MESSAGE_MAX_CHARS);
    assert_eq!(sanitize_judge_message(""), "");
}

use cake::bash_output::{checked_chunk_len, fail_closed_message, sandbox_initialization_tool_error, take_chunk_within_cap};

#[test]
fn chunks_are_kept_within_the_read_cap() {
    let mut buf = b"abc".to_vec();
    let mut errs = Vec::new();
    assert_eq!(take_chunk_within_cap(&mut buf, Some(&mut errs), b"defgh", Some(5)), 2);
    assert_eq!(buf, b"abcde");
    assert_eq!(errs, b"de");
    assert_eq!(take_chunk_within_cap(&mut buf, None, b"xyz", Some(5)), 0);
    assert_eq!(buf, b"abcde");
    assert_eq!(take_chunk_within_cap(&mut buf, None, b"xyz", None), 3);
    assert_eq!(buf, b"abcdexyz");
}

#[test]
fn pipe_reads_map_to_lengths_or_errors() {
    assert_eq!(checked_chunk_len(Ok(0), "stdout"), Ok(None));
    assert_eq!(checked_chunk_len(Ok(12), "stdout"), Ok(Some(12)));
    assert_eq!(
        checked_chunk_len(Err("broken pipe".to_string()), "stderr"),
        Err("stderr read error: broken pipe".to_string())
    );
}

#[test]
fn sandbox_and_judge_failures_explain_that_nothing_ran() {
    let message = sandbox_initialization_tool_error("sandbox-exec: sandbox_apply: Operation not permitted\n\n");
    assert!(message.starts_with("sandbox-exec: sandbox_apply: Operation not permitted\n\nmacOS sandbox unavailable:"));
    assert!(message.ends_with("without filesystem sandboxing."));
    assert_eq!(
        fail_closed_message("timeout"),
        "BLOCKED\n\nThe command-safety judge was unavailable, so this command was not executed (fail-closed).\n\ntimeout"
    );
}

use cake::bash_output::binary_output_notice;

#[test]
fn binary_notice_from_a_detected_type() {
    let save = BinarySave::WriteFailed { error: "disk full".to_string() };
    assert_eq!(
        binary_output_notice(1536, Some("application/zip"), &save, 0, 1000, false),
        "[Binary output detected - 1536 bytes (1.5 KB)]\nDetected type: application/zip\n\
         Failed to save binary data to temp file: disk full\n\
         The command produced binary output which cannot be displayed as text.\n[exit:0 | 1.0s]"
    );
}
