use cake::bash_safety::validate_command_safety;

#[test]
fn blank_commands_pass_without_warnings() {
    for command in ["", "   ", "\n\t "] {
        assert_eq!(validate_command_safety(command), Ok(Vec::new()));
    }
}

#[test]
fn block_messages_have_reason_and_tip() {
    let err = validate_command_safety("git reset --hard").unwrap_err();
    assert_eq!(
        err,
        "BLOCKED\n\nReason: git reset --hard/--merge destroys uncommitted changes\n\nTip: Use 'git stash' to save changes first, or 'git reset --soft' to preserve them."
    );
}

#[test]
fn warnings_are_notices() {
    let warnings = validate_command_safety("rg -rn foo src").unwrap();
    assert_eq!(warnings.len(), 1);
    assert!(warnings[0].starts_with("NOTICE: "));
    assert!(warnings[0].contains("\n\nTip: "));
}

#[test]
fn warnings_accumulate_across_segments_and_scripts() {
    let warnings = validate_command_safety("rg -rn a . ; bash -c 'rg -rn b .' && echo $(rg -rn c .)").unwrap();
    assert_eq!(warnings.len(), 3);
}

#[test]
fn first_block_in_order_is_reported() {
    let err = validate_command_safety("git stash drop; git reset --hard").unwrap_err();
    assert!(err.contains("git stash"), "{err}");
}

#[test]
fn blocks_inside_substitution_propagate() {
    assert!(validate_command_safety("echo \"$(git clean -fd)\"").is_err());
    assert!(validate_command_safety("echo '$(git clean -fd)'").is_ok());
}

#[test]
fn an_and_chain_is_judged_side_by_side() {
    let sides = ["git status", "git reset --hard", "rg -rn pattern", "rg -r n pattern", "ls 'a && b'"];
    for a in sides {
        for b in sides {
            let chained = validate_command_safety(&format!("{a}&&{b}"));
            let expected = match (validate_command_safety(a), validate_command_safety(b)) {
                (Err(m), _) => Err(m),
                (Ok(_), Err(m)) => Err(m),
                (Ok(mut wa), Ok(wb)) => {
                    wa.extend(wb);
                    Ok(wa)
                },
            };
            assert_eq!(chained, expected, "{a} && {b}");
        }
    }
    assert_eq!(validate_command_safety("rg -rn pattern&&rg -r n pattern").unwrap().len(), 2);
}

#[test]
fn a_spaced_and_chain_of_quote_free_commands_is_judged_side_by_side() {
    let sides = [
        "git status",
        "  git reset --hard ",
        "ls; git clean -fd",
        "rg -rn pattern | head",
        "echo a\nrg -r n pattern",
        "",
        "  ",
        "cat x |",
    ];
    for a in sides {
        for b in sides {
            let chained = validate_command_safety(&format!("{a} && {b}"));
            let expected = match (validate_command_safety(a), validate_command_safety(b)) {
                (Err(m), _) => Err(m),
                (Ok(_), Err(m)) => Err(m),
                (Ok(mut wa), Ok(wb)) => {
                    wa.extend(wb);
                    Ok(wa)
                },
            };
            assert_eq!(chained, expected, "{a:?} && {b:?}");
        }
    }
}
