use cake::duplicate_guard::{normalize_path, reject_duplicate_mutating_tool_calls, ScheduledToolPlan};

fn call(id: &str, name: &str, plan: u32, target: Option<&str>) -> (String, String, u32, Option<String>) {
    (id.to_string(), name.to_string(), plan, target.map(str::to_string))
}

#[test]
fn duplicate_guard_rejects_second_edit_for_same_file() {
    let plans = reject_duplicate_mutating_tool_calls(vec![
        call("call-1", "Edit", 1, Some("/work/first.txt")),
        call("call-2", "Edit", 2, Some("/work/first.txt")),
    ]);

    assert!(matches!(plans[0].2, ScheduledToolPlan::Hook(1)));
    let ScheduledToolPlan::RejectedDuplicateMutation { output } = &plans[1].2 else {
        panic!("second edit should be rejected");
    };
    assert_eq!(
        output,
        "Error: Rejected this Edit call because another Edit call for the same file was already issued in this assistant turn: /work/first.txt. Wait for the previous tool result, re-read the file, and then issue one follow-up Edit or Write call if more changes are needed."
    );
    assert_eq!(plans[1].0, "call-2");
    assert_eq!(plans[1].1, "Edit");
}

#[test]
fn duplicate_guard_names_the_first_claimant() {
    let plans = reject_duplicate_mutating_tool_calls(vec![
        call("a", "Write", 1, Some("/w/x")),
        call("b", "Edit", 2, Some("/w/y")),
        call("c", "Edit", 3, Some("/w/x")),
        call("d", "Write", 4, Some("/w/y")),
    ]);
    assert!(matches!(plans[0].2, ScheduledToolPlan::Hook(1)));
    assert!(matches!(plans[1].2, ScheduledToolPlan::Hook(2)));
    match &plans[2].2 {
        ScheduledToolPlan::RejectedDuplicateMutation { output } => {
            assert!(output.starts_with("Error: Rejected this Edit call because another Write call"));
            assert!(output.contains(": /w/x."));
        },
        other => panic!("expected rejection, got {other:?}"),
    }
    match &plans[3].2 {
        ScheduledToolPlan::RejectedDuplicateMutation { output } => {
            assert!(output.starts_with("Error: Rejected this Write call because another Edit call"));
        },
        other => panic!("expected rejection, got {other:?}"),
    }
}

#[test]
fn duplicate_guard_passes_through_non_mutating_calls() {
    let plans = reject_duplicate_mutating_tool_calls(vec![
        call("a", "Read", 1, None),
        call("b", "Read", 2, None),
        call("c", "Edit", 3, Some("/w/x")),
        call("d", "Bash", 4, None),
    ]);
    assert_eq!(plans.len(), 4);
    for (i, p) in plans.iter().enumerate() {
        match p.2 {
            ScheduledToolPlan::Hook(n) => assert_eq!(n, i as u32 + 1),
            ScheduledToolPlan::RejectedDuplicateMutation { .. } => panic!("unexpected rejection"),
        }
    }
}

#[test]
fn duplicate_guard_keeps_order_and_ids() {
    let plans = reject_duplicate_mutating_tool_calls(vec![
        call("x1", "Edit", 10, Some("/p")),
        call("x2", "Edit", 20, Some("/p")),
        call("x3", "Edit", 30, Some("/p")),
    ]);
    let ids: Vec<&str> = plans.iter().map(|p| p.0.as_str()).collect();
    assert_eq!(ids, vec!["x1", "x2", "x3"]);
    assert!(matches!(plans[0].2, ScheduledToolPlan::Hook(10)));
    assert!(matches!(plans[1].2, ScheduledToolPlan::RejectedDuplicateMutation { .. }));
    assert!(matches!(plans[2].2, ScheduledToolPlan::RejectedDuplicateMutation { .. }));
}

#[test]
fn duplicate_guard_empty_batch() {
    let plans = reject_duplicate_mutating_tool_calls::<u32>(Vec::new());
    assert!(plans.is_empty());
}

#[test]
fn duplicate_guard_rejects_write_after_edit_for_same_file() {
    let plans = reject_duplicate_mutating_tool_calls(vec![
        call("call-1", "Edit", 1, Some("/work/first.txt")),
        call("call-2", "Write", 2, Some("/work/first.txt")),
    ]);

    assert!(matches!(plans[0].2, ScheduledToolPlan::Hook(_)));
    assert!(
        matches!(&plans[1].2, ScheduledToolPlan::RejectedDuplicateMutation { output } if
            output.contains("Rejected this Write call")
                && output.contains("another Edit call"))
    );
}

#[test]
fn duplicate_guard_allows_mutations_to_different_files() {
    let plans = reject_duplicate_mutating_tool_calls(vec![
        call("call-1", "Edit", 1, Some("/work/first.txt")),
        call("call-2", "Write", 2, Some("/work/second.txt")),
    ]);

    assert!(plans.iter().all(|(_, _, plan)| matches!(plan, ScheduledToolPlan::Hook(_))));
}

#[test]
fn duplicate_guard_allows_repeated_reads_for_same_file() {
    let plans = reject_duplicate_mutating_tool_calls(vec![
        call("call-1", "Read", 1, None),
        call("call-2", "Read", 2, None),
    ]);

    assert!(plans.iter().all(|(_, _, plan)| matches!(plan, ScheduledToolPlan::Hook(_))));
}

#[test]
fn duplicate_guard_compares_targets_as_paths() {
    let plans = reject_duplicate_mutating_tool_calls(vec![
        call("a", "Edit", 1, Some("/w/a.rs")),
        call("b", "Write", 2, Some("/w//a.rs")),
        call("c", "Edit", 3, Some("/w/./a.rs/")),
        call("d", "Edit", 4, Some("./w/a.rs")),
        call("e", "Edit", 5, Some("w/a.rs")),
    ]);
    assert!(matches!(plans[0].2, ScheduledToolPlan::Hook(1)));
    match &plans[1].2 {
        ScheduledToolPlan::RejectedDuplicateMutation { output } => {
            assert!(output.starts_with("Error: Rejected this Write call because another Edit call"));
            assert!(output.contains(": /w//a.rs."));
        },
        other => panic!("expected rejection, got {other:?}"),
    }
    assert!(matches!(plans[2].2, ScheduledToolPlan::RejectedDuplicateMutation { .. }));
    assert!(matches!(plans[3].2, ScheduledToolPlan::Hook(4)));
    assert!(matches!(plans[4].2, ScheduledToolPlan::Hook(5)));
}

#[test]
fn normalized_paths_follow_path_components() {
    for (path, normalized) in [
        ("/w//a.rs", "/w/a.rs"),
        ("/w/./a.rs/", "/w/a.rs"),
        ("./a//b/.", "./a/b"),
        ("a/../b", "a/../b"),
        ("/", "/"),
        ("//", "/"),
        ("/.", "/"),
        (".", "."),
        ("./", "."),
        ("", ""),
        ("a", "a"),
    ] {
        assert_eq!(normalize_path(path), normalized, "{path}");
        let as_std: Vec<_> = std::path::Path::new(path).components().collect();
        let back: Vec<_> = std::path::Path::new(normalized).components().collect();
        assert_eq!(as_std, back, "{path}");
    }
}
