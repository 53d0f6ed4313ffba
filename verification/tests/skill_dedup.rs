use cake::skill_dedup::{
    begin_skill_read, finish_skill_read, SkillActivations, SkillReadStep, SkillReservation,
};

#[test]
fn reserve_complete_then_active() {
    let mut s = SkillActivations::new();
    assert_eq!(s.reserve("review"), SkillReservation::Reserved);
    assert_eq!(s.reserve("review"), SkillReservation::AlreadyPending);
    s.complete("review");
    assert_eq!(s.reserve("review"), SkillReservation::AlreadyActive);
    assert_eq!(s.active_names(), vec!["review".to_string()]);
    assert!(s.pending_names().is_empty());
}

#[test]
fn failed_skill_can_be_reserved_again() {
    let mut s = SkillActivations::new();
    assert_eq!(s.reserve("deploy"), SkillReservation::Reserved);
    s.fail("deploy");
    assert!(s.pending_names().is_empty());
    assert_eq!(s.reserve("deploy"), SkillReservation::Reserved);
}

#[test]
fn replace_active_clears_pending_and_dedups() {
    let mut s = SkillActivations::new();
    assert_eq!(s.reserve("a"), SkillReservation::Reserved);
    s.replace_active(vec!["b".to_string(), "c".to_string(), "b".to_string()]);
    assert_eq!(s.active_names(), vec!["b".to_string(), "c".to_string()]);
    assert!(s.pending_names().is_empty());
    assert_eq!(s.reserve("b"), SkillReservation::AlreadyActive);
    assert_eq!(s.reserve("a"), SkillReservation::Reserved);
}

#[test]
fn read_of_non_skill_executes() {
    let mut s = SkillActivations::new();
    assert!(matches!(begin_skill_read(&mut s, "Read", None), SkillReadStep::Execute));
    assert!(matches!(begin_skill_read(&mut s, "Edit", Some("x")), SkillReadStep::Execute));
    assert!(s.pending_names().is_empty());
}

#[test]
fn skill_read_lifecycle_messages() {
    let mut s = SkillActivations::new();
    assert!(matches!(begin_skill_read(&mut s, "Read", Some("review")), SkillReadStep::Load));
    match begin_skill_read(&mut s, "Read", Some("review")) {
        SkillReadStep::Skip { output } => assert_eq!(
            output,
            "Skill 'review' activation is already in progress in this tool batch. Its instructions will be included when that read completes."
        ),
        other => panic!("expected skip, got {other:?}"),
    }
    let done = finish_skill_read(
        &mut s,
        "review",
        "/skills/review/SKILL.md",
        "/skills/review/SKILL.md".to_string(),
        Ok("body".to_string()),
    )
    .unwrap();
    assert_eq!(done.output, "body");
    let activation = done.skill_activation.unwrap();
    assert_eq!(activation.name, "review");
    assert_eq!(activation.path, "/skills/review/SKILL.md");
    match begin_skill_read(&mut s, "Read", Some("review")) {
        SkillReadStep::Skip { output } => assert_eq!(
            output,
            "Skill 'review' is already active in this session. Its instructions are already in the conversation context."
        ),
        other => panic!("expected skip, got {other:?}"),
    }
}

#[test]
fn failed_skill_load_reports_location() {
    let mut s = SkillActivations::new();
    assert!(matches!(begin_skill_read(&mut s, "Read", Some("x")), SkillReadStep::Load));
    let err = finish_skill_read(&mut s, "x", "/s/x.md", "/s/x.md".to_string(), Err("gone".to_string()))
        .unwrap_err();
    assert_eq!(err, "Failed to load skill '/s/x.md': gone");
    assert!(s.active_names().is_empty());
    assert!(s.pending_names().is_empty());
}
