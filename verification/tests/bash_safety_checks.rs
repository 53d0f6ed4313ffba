use cake::bash_safety::checks::is_allowed_rm_target;
use cake::bash_safety::validate_command_safety;

// Shorthand: collect all check results for a command
// Returns (warnings, blocks). Only the first block is captured since
// validation stops at the first hard block.
fn collect_results(command: &str) -> (Vec<String>, Vec<String>) {
    match validate_command_safety(command) {
        Ok(warnings) => (warnings, Vec::new()),
        Err(block) => (Vec::new(), vec![block]),
    }
}

// Shorthand: assert command is blocked
fn assert_blocked(command: &str) {
    let (warnings, blocks) = collect_results(command);
    assert!(
        !blocks.is_empty(),
        "Expected command to be BLOCKED: {command}"
    );
    // Warnings may also be present alongside blocks, that's fine.
    _ = warnings;
}

// Shorthand: assert command is allowed (no blocks)
fn assert_allowed(command: &str) {
    match validate_command_safety(command) {
        Ok(_) => {}, // OK, may have warnings
        Err(block) => {
            panic!("Expected command to be ALLOWED: {command}\nGot block: {block}");
        },
    }
}

// Shorthand: assert command produces a soft warning
fn assert_warned(command: &str) {
    let (warnings, blocks) = collect_results(command);
    assert!(
        !warnings.is_empty(),
        "Expected command to produce WARNING: {command}"
    );
    // No blocks expected for soft-warning-only commands.
    assert!(
        blocks.is_empty(),
        "Expected no blocks for warning-only command: {command}\nGot: {blocks:?}"
    );
}

// =========================================================================
// git reset
// =========================================================================

#[test]
fn checks_blocks_git_reset_hard() {
    assert_blocked("git reset --hard");
    assert_blocked("git reset --hard HEAD");
    assert_blocked("git reset --hard HEAD~3");
    assert_blocked("GIT RESET --HARD");
    assert_blocked("Git Reset --Hard");
}

#[test]
fn checks_blocks_git_reset_merge() {
    assert_blocked("git reset --merge");
}

#[test]
fn checks_allows_git_reset_soft() {
    assert_allowed("git reset --soft HEAD~1");
    assert_allowed("git reset HEAD~1");
}

// =========================================================================
// git checkout
// =========================================================================

#[test]
fn checks_blocks_git_checkout_dash_dash_file() {
    assert_blocked("git checkout -- src/main.rs");
    assert_blocked("git checkout -- .");
}

#[test]
fn checks_allows_git_checkout_branch() {
    assert_allowed("git checkout main");
    assert_allowed("git checkout -b new-branch");
}

// =========================================================================
// git restore
// =========================================================================

#[test]
fn checks_blocks_git_restore_file() {
    assert_blocked("git restore src/main.rs");
    assert_blocked("git restore .");
}

#[test]
fn checks_blocks_git_restore_worktree() {
    assert_blocked("git restore --worktree src/main.rs");
    assert_blocked("git restore --staged --worktree src/main.rs");
}

#[test]
fn checks_allows_git_restore_staged() {
    assert_allowed("git restore --staged src/main.rs");
}

#[test]
fn checks_allows_git_restore_branch() {
    assert_allowed("git restore -b new-branch");
}

// =========================================================================
// git clean
// =========================================================================

#[test]
fn checks_blocks_git_clean_force() {
    assert_blocked("git clean -f");
    assert_blocked("git clean --force");
    assert_blocked("git clean -fd");
    assert_blocked("git clean -fdx");
    assert_blocked("git clean -xf");
}

#[test]
fn checks_allows_git_clean_dry_run() {
    assert_allowed("git clean -n");
    assert_allowed("git clean -nd");
}

// =========================================================================
// git push
// =========================================================================

#[test]
fn checks_blocks_git_push_force() {
    assert_blocked("git push --force");
    assert_blocked("git push --force origin main");
    assert_blocked("git push -f");
    assert_blocked("git push -f origin main");
    assert_blocked("git push -fu origin main");
}

#[test]
fn checks_allows_git_push_force_with_lease() {
    assert_allowed("git push --force-with-lease");
    assert_allowed("git push --force-with-lease origin main");
}

#[test]
fn checks_allows_normal_git_push() {
    assert_allowed("git push");
    assert_allowed("git push origin main");
}

// =========================================================================
// git branch -D
// =========================================================================

#[test]
fn checks_blocks_git_branch_uppercase_d() {
    assert_blocked("git branch -D feature-branch");
}

#[test]
fn checks_allows_git_branch_lowercase_d() {
    assert_allowed("git branch -d feature-branch");
}

// =========================================================================
// git stash
// =========================================================================

#[test]
fn checks_blocks_git_stash_drop() {
    assert_blocked("git stash drop");
    assert_blocked("git stash drop stash@{0}");
}

#[test]
fn checks_blocks_git_stash_clear() {
    assert_blocked("git stash clear");
}

#[test]
fn checks_allows_git_stash_other() {
    assert_allowed("git stash");
    assert_allowed("git stash pop");
    assert_allowed("git stash list");
    assert_allowed("git stash apply");
}

// =========================================================================
// rm -rf
// =========================================================================

// =========================================================================
// is_allowed_rm_target (unit-level)
// =========================================================================

#[test]
fn allowed_rm_target_accepts_tmp_variants() {
    assert!(is_allowed_rm_target("/tmp"));
    assert!(is_allowed_rm_target("/tmp/"));
    assert!(is_allowed_rm_target("/tmp/build-cache"));
    assert!(is_allowed_rm_target("/var/tmp"));
    assert!(is_allowed_rm_target("/var/tmp/"));
    assert!(is_allowed_rm_target("/var/tmp/test"));
}

#[test]
fn allowed_rm_target_rejects_non_tmp() {
    assert!(!is_allowed_rm_target("/home/user"));
    assert!(!is_allowed_rm_target("/usr"));
    assert!(!is_allowed_rm_target("."));
    assert!(!is_allowed_rm_target(".."));
    assert!(!is_allowed_rm_target("/tmpsomething"));
    assert!(!is_allowed_rm_target("/var/tmpsomething"));
}

#[test]
fn checks_blocks_rm_rf_dangerous_targets() {
    assert_blocked("rm -rf /");
    assert_blocked("rm -rf /home/user");
    assert_blocked("rm -rf ~/projects");
    assert_blocked("rm -rf .");
    assert_blocked("rm -rf ..");
    assert_blocked("rm -rf /usr");
    assert_blocked("rm -rf /etc");
}

#[test]
fn checks_blocks_rm_rf_when_any_target_is_dangerous() {
    assert_blocked("rm -rf /tmp/build-cache ~/projects");
    assert_blocked("rm -rf /tmp/build-cache /home/user");
    assert_blocked("rm -r -f /tmp/build-cache ..");
    assert_blocked("rm -rf /tmp/build-cache -- ~/projects");
}

#[test]
fn checks_blocks_rm_rf_shell_variable_temp_targets() {
    assert_blocked("rm -rf $TMPDIR/foo");
    assert_blocked("rm -rf ${TMPDIR}/bar");
    assert_blocked("rm -rf $TMPDIR");
    assert_blocked("rm -rf ${TMPDIR}");
    assert_blocked("rm -rf /tmp/build-cache $TMPDIR/foo");
    assert_blocked("rm -rf /tmp/build-cache ${TMPDIR}/bar");
}

#[test]
fn checks_allows_rm_rf_temp_dirs() {
    assert_allowed("rm -rf /tmp/build-cache");
    assert_allowed("rm -rf /var/tmp/test");
}

#[test]
fn checks_allows_rm_rf_multiple_temp_targets() {
    assert_allowed("rm -rf /tmp/build-cache /var/tmp/test");
    assert_allowed("rm -rf -- /tmp/build-cache /var/tmp/test");
}

#[test]
fn checks_allows_rm_without_rf() {
    assert_allowed("rm file.txt");
    assert_allowed("rm -r dir/");
    assert_allowed("rm -f file.txt");
}

// =========================================================================
// Inline scripts (bash -c / sh -c)
// =========================================================================

#[test]
fn checks_blocks_inline_script_with_destructive_command() {
    assert_blocked("bash -c \"git reset --hard\"");
    assert_blocked("sh -c \"git clean -f\"");
    assert_blocked("bash -c 'git push --force origin main'");
}

#[test]
fn checks_blocks_inline_script_with_extra_whitespace() {
    assert_blocked("bash  -c \"git reset --hard\"");
    assert_blocked("bash\t-c \"git reset --hard\"");
}

#[test]
fn checks_blocks_destructive_after_inline_script() {
    assert_blocked("bash -c 'echo safe' ; rm -rf /");
    assert_blocked("bash -c 'echo safe' && git reset --hard");
}

#[test]
fn checks_allows_inline_script_with_safe_command() {
    assert_allowed("bash -c \"echo hello\"");
    assert_allowed("sh -c \"git status\"");
}

#[test]
fn checks_unsupported_inline_script_forms_are_out_of_scope() {
    assert_allowed("zsh -c 'git reset --hard'");
    assert_allowed("sh -lc 'git clean -f'");
}

// =========================================================================
// Command chaining
// =========================================================================

#[test]
fn checks_blocks_destructive_in_chain() {
    assert_blocked("echo done && git reset --hard");
    assert_blocked("git add . && git reset --hard HEAD~1");
    assert_blocked("git stash; git reset --hard; git stash pop");
}

#[test]
fn checks_blocks_destructive_via_pipe() {
    // Pipe splits segments so each side is checked independently
    assert_blocked("git status | tee log.txt && git reset --hard");
    assert_blocked("git log | head -5 ; rm -rf /");
}

#[test]
fn checks_allows_safe_chain() {
    assert_allowed("git add . && git commit -m 'test'");
    assert_allowed("cargo build && cargo test");
}

// =========================================================================
// False positive avoidance
// =========================================================================

#[test]
fn checks_allows_commit_message_containing_destructive_text() {
    assert_allowed("git commit -m \"fix: handle git branch -D correctly\"");
    assert_allowed("git commit -m \"docs: explain git reset --hard\"");
}

#[test]
fn checks_allows_echo_containing_destructive_text() {
    assert_allowed("echo \"git reset --hard\"");
}

#[test]
fn checks_blocks_destructive_commands_inside_data_context_substitutions() {
    assert_blocked("echo \"$(git reset --hard)\"");
    assert_blocked("printf '%s\\n' \"$(git clean -fd)\"");
    assert_blocked("cat > out.txt <<EOF\n$(rm -rf /)\nEOF");
    assert_blocked("git commit -m \"$(git branch -D feature)\"");
    assert_blocked("git tag -a v1 -m \"$(git stash clear)\"");
    assert_blocked("git status | tee \"$(git reset --hard)\"");
}

#[test]
fn checks_blocks_destructive_commands_inside_backtick_substitutions() {
    assert_blocked("echo `git reset --hard`");
    assert_blocked("git commit -m \"`rm -rf /`\"");
}

#[test]
fn checks_allows_single_quoted_substitution_text_as_literal_data() {
    assert_allowed("echo '$(git reset --hard)'");
    assert_allowed("git commit -m '$(git clean -fd)'");
}

#[test]
fn checks_allows_quoted_separators_in_commit_messages() {
    assert_allowed("git commit -m \"fix: updated stuff ; git reset --hard\"");
    assert_allowed("git commit -m 'refactor && git clean -f'");
}

// =========================================================================
// git commit -m backtick / $() safeguard
// =========================================================================

#[test]
fn blocks_commit_message_with_backticks_in_double_quotes() {
    assert_blocked("git commit -m \"feat: add `Runtime::new()` support\"");
    assert_blocked("git commit -m \"fix: handle `$var` weird case\"");
}

#[test]
fn blocks_commit_message_with_dollar_paren_in_double_quotes() {
    assert_blocked("git commit -m \"refactor: use $(some_command) result\"");
}

#[test]
fn blocks_commit_message_with_backticks_via_message_flag() {
    assert_blocked("git commit --message \"docs: updated `function_name` docs\"");
}

#[test]
fn blocks_commit_message_backticks_with_equal_sign() {
    assert_blocked("git commit -m=\"feat: add `new_feature`\"");
    assert_blocked("git commit --message=\"fix: handle `edge_case`\"");
}

#[test]
fn allows_commit_message_with_backticks_in_single_quotes() {
    assert_allowed("git commit -m 'feat: add `Runtime::new()` support'");
}

#[test]
fn allows_commit_message_without_backticks_or_dollar_paren() {
    assert_allowed("git commit -m \"feat: add Runtime::new() support\"");
    assert_allowed("git commit --message \"fix: handle edge case\"");
}

#[test]
fn allows_git_commands_unrelated_to_commit() {
    assert_allowed("git add .");
    assert_allowed("git log");
    assert_allowed("git diff");
}

#[test]
fn blocks_commit_message_dollar_paren_with_equal_sign() {
    assert_blocked("git commit -m=\"use $(pwd) for path\"");
    assert_blocked("git commit --message=\"use $(hostname) for host\"");
}

// =========================================================================
// rg -rn / ripgrep replace-flag footgun (Soft Warning)
// =========================================================================

#[test]
fn warns_rg_rn_combined_flag() {
    assert_warned("rg -rn pattern");
    assert_warned("rg -rn 'some pattern'");
    assert_warned("rg -rn 'pattern' src/");
}

#[test]
fn warns_rg_r_with_n_as_separate_arg() {
    assert_warned("rg -r n pattern");
    assert_warned("rg --replace n pattern");
}

#[test]
fn allows_rg_n_line_numbers() {
    assert_allowed("rg -n pattern");
    assert_allowed("rg -n 'some pattern' src/");
}

#[test]
fn allows_rg_without_n_flag() {
    assert_allowed("rg pattern");
    assert_allowed("rg -i pattern");
    assert_allowed("rg -l pattern");
}

#[test]
fn allows_rg_with_r_replace_not_n() {
    // rg -r 'replacement' is valid intentional usage
    assert_allowed("rg -r 'replacement' pattern");
    assert_allowed("rg --replace 'replacement' pattern");
}

#[test]
fn warns_rg_rn_with_n_immediately_after_r() {
    // -rn sets replacement to "n" — the footgun.
    assert_warned("rg -rn pattern");
}

#[test]
fn allows_rg_nr_flag() {
    // -nr means -n -r with no replacement arg. Ripgrep errors:
    //   error: The argument '--replace <ARG> ...' requires a value but none was supplied
    // This is a different failure mode, not the silent-replace footgun.
    assert_allowed("rg -nr pattern");
}

#[test]
fn warns_rg_rn_in_chain() {
    assert_warned("echo test && rg -rn pattern");
}

#[test]
fn allows_rg_normal_usage() {
    assert_allowed("rg TODO src/");
    assert_allowed("rg --type rust fn main");
    assert_allowed("rg -C 3 pattern");
}

// =========================================================================
// Whitespace variations
// =========================================================================

#[test]
fn checks_handles_extra_whitespace() {
    assert_blocked("git  reset  --hard");
    assert_blocked("git\treset\t--hard");
}

#[test]
fn handles_unicode_text_before_destructive_segments() {
    assert_blocked("echo préfix ; git reset --hard");
    assert_blocked("echo préfix && git branch -D feature-branch");
}

// =========================================================================
// Error message format
// =========================================================================

#[test]
fn checks_error_message_contains_reason_and_tip() {
    let Err(err) = validate_command_safety("git reset --hard") else {
        panic!("should be blocked");
    };
    assert!(err.contains("BLOCKED"), "Missing BLOCKED header");
    assert!(err.contains("Reason:"), "Missing reason");
    assert!(err.contains("Tip:"), "Missing tip");
}

// =========================================================================
// Warning message format
// =========================================================================

#[test]
fn warning_message_contains_notice_and_tip() {
    let (warnings, _blocks) = collect_results("rg -rn pattern");
    assert!(!warnings.is_empty(), "Expected warning for rg -rn");
    let warning = &warnings[0];
    assert!(
        warning.contains("NOTICE"),
        "Missing NOTICE header in: {warning}"
    );
    assert!(
        warning.contains("Did you mean"),
        "Missing guidance in: {warning}"
    );
    assert!(warning.contains("Tip:"), "Missing tip in: {warning}");
}
