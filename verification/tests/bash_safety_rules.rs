use cake::bash_safety::validate_command_safety;

// Shorthand: assert command is blocked
fn assert_blocked(command: &str) {
    let result = validate_command_safety(command);
    assert!(result.is_err(), "Expected command to be BLOCKED: {command}");
}

// Shorthand: assert command is allowed
fn assert_allowed(command: &str) {
    if let Err(msg) = validate_command_safety(command) {
        panic!("Expected command to be ALLOWED: {command}\nGot: {msg}");
    }
}

// =========================================================================
// git reset
// =========================================================================

#[test]
fn bash_safety_blocks_git_reset_hard() {
    assert_blocked("git reset --hard");
    assert_blocked("git reset --hard HEAD");
    assert_blocked("git reset --hard HEAD~3");
    assert_blocked("GIT RESET --HARD");
    assert_blocked("Git Reset --Hard");
}

#[test]
fn bash_safety_blocks_git_reset_merge() {
    assert_blocked("git reset --merge");
}

#[test]
fn bash_safety_allows_git_reset_soft() {
    assert_allowed("git reset --soft HEAD~1");
    assert_allowed("git reset HEAD~1");
}

// =========================================================================
// git checkout
// =========================================================================

#[test]
fn bash_safety_blocks_git_checkout_dash_dash_file() {
    assert_blocked("git checkout -- src/main.rs");
    assert_blocked("git checkout -- .");
}

#[test]
fn bash_safety_allows_git_checkout_branch() {
    assert_allowed("git checkout main");
    assert_allowed("git checkout -b new-branch");
}

// =========================================================================
// git restore
// =========================================================================

#[test]
fn bash_safety_blocks_git_restore_file() {
    assert_blocked("git restore src/main.rs");
    assert_blocked("git restore .");
}

#[test]
fn bash_safety_blocks_git_restore_worktree() {
    assert_blocked("git restore --worktree src/main.rs");
    assert_blocked("git restore --staged --worktree src/main.rs");
}

#[test]
fn bash_safety_allows_git_restore_staged() {
    assert_allowed("git restore --staged src/main.rs");
}

#[test]
fn bash_safety_allows_git_restore_branch() {
    assert_allowed("git restore -b new-branch");
}

// =========================================================================
// git clean
// =========================================================================

#[test]
fn bash_safety_blocks_git_clean_force() {
    assert_blocked("git clean -f");
    assert_blocked("git clean --force");
    assert_blocked("git clean -fd");
    assert_blocked("git clean -fdx");
    assert_blocked("git clean -xf");
}

#[test]
fn bash_safety_allows_git_clean_dry_run() {
    assert_allowed("git clean -n");
    assert_allowed("git clean -nd");
}

// =========================================================================
// git push
// =========================================================================

#[test]
fn bash_safety_blocks_git_push_force() {
    assert_blocked("git push --force");
    assert_blocked("git push --force origin main");
    assert_blocked("git push -f");
    assert_blocked("git push -f origin main");
    assert_blocked("git push -fu origin main");
}

#[test]
fn bash_safety_allows_git_push_force_with_lease() {
    assert_allowed("git push --force-with-lease");
    assert_allowed("git push --force-with-lease origin main");
}

#[test]
fn bash_safety_allows_normal_git_push() {
    assert_allowed("git push");
    assert_allowed("git push origin main");
}

// =========================================================================
// git branch -D
// =========================================================================

#[test]
fn bash_safety_blocks_git_branch_uppercase_d() {
    assert_blocked("git branch -D feature-branch");
}

#[test]
fn bash_safety_allows_git_branch_lowercase_d() {
    assert_allowed("git branch -d feature-branch");
}

// =========================================================================
// git stash
// =========================================================================

#[test]
fn bash_safety_blocks_git_stash_drop() {
    assert_blocked("git stash drop");
    assert_blocked("git stash drop stash@{0}");
}

#[test]
fn bash_safety_blocks_git_stash_clear() {
    assert_blocked("git stash clear");
}

#[test]
fn bash_safety_allows_git_stash_other() {
    assert_allowed("git stash");
    assert_allowed("git stash pop");
    assert_allowed("git stash list");
    assert_allowed("git stash apply");
}

// =========================================================================
// rm -rf
// =========================================================================

#[test]
fn bash_safety_blocks_rm_rf_dangerous_targets() {
    assert_blocked("rm -rf /");
    assert_blocked("rm -rf /home/user");
    assert_blocked("rm -rf ~/projects");
    assert_blocked("rm -rf .");
    assert_blocked("rm -rf ..");
    assert_blocked("rm -rf /usr");
    assert_blocked("rm -rf /etc");
}

#[test]
fn bash_safety_blocks_rm_rf_when_any_target_is_dangerous() {
    assert_blocked("rm -rf /tmp/build-cache ~/projects");
    assert_blocked("rm -rf /tmp/build-cache /home/user");
    assert_blocked("rm -r -f /tmp/build-cache ..");
    assert_blocked("rm -rf /tmp/build-cache -- ~/projects");
}

#[test]
fn bash_safety_blocks_rm_rf_shell_variable_temp_targets() {
    assert_blocked("rm -rf $TMPDIR/foo");
    assert_blocked("rm -rf ${TMPDIR}/bar");
    assert_blocked("rm -rf $TMPDIR");
    assert_blocked("rm -rf ${TMPDIR}");
    assert_blocked("rm -rf /tmp/build-cache $TMPDIR/foo");
    assert_blocked("rm -rf /tmp/build-cache ${TMPDIR}/bar");
}

#[test]
fn bash_safety_allows_rm_rf_temp_dirs() {
    assert_allowed("rm -rf /tmp/build-cache");
    assert_allowed("rm -rf /var/tmp/test");
}

#[test]
fn bash_safety_allows_rm_rf_multiple_temp_targets() {
    assert_allowed("rm -rf /tmp/build-cache /var/tmp/test");
    assert_allowed("rm -rf -- /tmp/build-cache /var/tmp/test");
}

#[test]
fn bash_safety_allows_rm_without_rf() {
    assert_allowed("rm file.txt");
    assert_allowed("rm -r dir/");
    assert_allowed("rm -f file.txt");
}

// =========================================================================
// Inline scripts (bash -c / sh -c)
// =========================================================================

#[test]
fn bash_safety_blocks_inline_script_with_destructive_command() {
    assert_blocked("bash -c \"git reset --hard\"");
    assert_blocked("sh -c \"git clean -f\"");
    assert_blocked("bash -c 'git push --force origin main'");
}

#[test]
fn bash_safety_blocks_inline_script_with_extra_whitespace() {
    assert_blocked("bash  -c \"git reset --hard\"");
    assert_blocked("bash\t-c \"git reset --hard\"");
}

#[test]
fn bash_safety_blocks_destructive_after_inline_script() {
    assert_blocked("bash -c 'echo safe' ; rm -rf /");
    assert_blocked("bash -c 'echo safe' && git reset --hard");
}

#[test]
fn bash_safety_allows_inline_script_with_safe_command() {
    assert_allowed("bash -c \"echo hello\"");
    assert_allowed("sh -c \"git status\"");
}

#[test]
fn bash_safety_unsupported_inline_script_forms_are_out_of_scope() {
    assert_allowed("zsh -c 'git reset --hard'");
    assert_allowed("sh -lc 'git clean -f'");
}

// =========================================================================
// Command chaining
// =========================================================================

#[test]
fn bash_safety_blocks_destructive_in_chain() {
    assert_blocked("echo done && git reset --hard");
    assert_blocked("git add . && git reset --hard HEAD~1");
    assert_blocked("git stash; git reset --hard; git stash pop");
}

#[test]
fn bash_safety_blocks_destructive_via_pipe() {
    // Pipe splits segments so each side is checked independently
    assert_blocked("git status | tee log.txt && git reset --hard");
    assert_blocked("git log | head -5 ; rm -rf /");
}

#[test]
fn bash_safety_allows_safe_chain() {
    assert_allowed("git add . && git commit -m 'test'");
    assert_allowed("cargo build && cargo test");
}

// =========================================================================
// False positive avoidance
// =========================================================================

#[test]
fn bash_safety_allows_commit_message_containing_destructive_text() {
    assert_allowed("git commit -m \"fix: handle git branch -D correctly\"");
    assert_allowed("git commit -m \"docs: explain git reset --hard\"");
}

#[test]
fn bash_safety_allows_echo_containing_destructive_text() {
    assert_allowed("echo \"git reset --hard\"");
}

#[test]
fn bash_safety_blocks_destructive_commands_inside_data_context_substitutions() {
    assert_blocked("echo \"$(git reset --hard)\"");
    assert_blocked("printf '%s\\n' \"$(git clean -fd)\"");
    assert_blocked("cat > out.txt <<EOF\n$(rm -rf /)\nEOF");
    assert_blocked("git commit -m \"$(git branch -D feature)\"");
    assert_blocked("git tag -a v1 -m \"$(git stash clear)\"");
    assert_blocked("git status | tee \"$(git reset --hard)\"");
}

#[test]
fn bash_safety_blocks_destructive_commands_inside_backtick_substitutions() {
    assert_blocked("echo `git reset --hard`");
    assert_blocked("git commit -m \"`rm -rf /`\"");
}

#[test]
fn bash_safety_allows_single_quoted_substitution_text_as_literal_data() {
    assert_allowed("echo '$(git reset --hard)'");
    assert_allowed("git commit -m '$(git clean -fd)'");
}

#[test]
fn bash_safety_allows_quoted_separators_in_commit_messages() {
    assert_allowed("git commit -m \"fix: updated stuff ; git reset --hard\"");
    assert_allowed("git commit -m 'refactor && git clean -f'");
}

// =========================================================================
// Whitespace variations
// =========================================================================

#[test]
fn bash_safety_handles_extra_whitespace() {
    assert_blocked("git  reset  --hard");
    assert_blocked("git\treset\t--hard");
}

