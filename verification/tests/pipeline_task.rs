use atomic_kb::pipeline_task::{draft_step, DraftAction, DraftEvent, DraftStage};
use atomic_kb::pipeline_task::{
    db_id_from_stem, parse_i64, quiet_minutes_from_setting, DraftPipelineTask, TaskSkip,
    DEFAULT_ENABLED, DEFAULT_INTERVAL_SECS, DEFAULT_QUIET_MINUTES,
};

#[test]
fn task_identity_and_defaults() {
    let t = DraftPipelineTask;
    assert_eq!(t.id(), "draft_pipeline");
    assert_eq!(t.display_name(), "Draft pipeline");
    assert_eq!(t.default_interval(), 60);
    assert_eq!(DEFAULT_INTERVAL_SECS, 60);
    assert!(DEFAULT_ENABLED);
    assert_eq!(DEFAULT_QUIET_MINUTES, 1);
}

#[test]
fn disabled_wins_over_not_due() {
    let t = DraftPipelineTask;
    assert_eq!(t.run_gate(false, false), Err(TaskSkip::Disabled));
    assert_eq!(t.run_gate(false, true), Err(TaskSkip::Disabled));
    assert_eq!(t.run_gate(true, false), Err(TaskSkip::NotDue));
    assert_eq!(t.run_gate(true, true), Ok(()));
}

#[test]
fn parse_i64_agrees_with_std() {
    let cases = [
        "0", "7", "-7", "+7", "0042", "-0", "", "-", "+", "12a", " 5", "5 ", "1.5",
        "9223372036854775807", "9223372036854775808", "-9223372036854775808",
        "-9223372036854775809", "99999999999999999999999", "١٢",
    ];
    for c in cases {
        assert_eq!(parse_i64(c), c.parse::<i64>().ok(), "input {:?}", c);
    }
}

#[test]
fn quiet_minutes_falls_back_to_one() {
    assert_eq!(quiet_minutes_from_setting(None), 1);
    assert_eq!(quiet_minutes_from_setting(Some("15")), 15);
    assert_eq!(quiet_minutes_from_setting(Some("0")), 1);
    assert_eq!(quiet_minutes_from_setting(Some("-3")), 1);
    assert_eq!(quiet_minutes_from_setting(Some("soon")), 1);
    assert_eq!(quiet_minutes_from_setting(Some("")), 1);
    assert_eq!(quiet_minutes_from_setting(Some("+2")), 2);
}

#[test]
fn db_id_is_the_file_stem_or_default() {
    assert_eq!(db_id_from_stem(Some("research")), "research");
    assert_eq!(db_id_from_stem(None), "default");
}

#[test]
fn draft_run_follows_its_sequence() {
    let (s, a) = draft_step(DraftStage::Begin, DraftEvent::Schedule { enabled: true, due: true });
    assert_eq!(a, DraftAction::EmitStarted);
    let (s, a) = draft_step(s, DraftEvent::Succeeded);
    assert_eq!(a, DraftAction::ProcessEmbeddings);
    let (s, a) = draft_step(s, DraftEvent::Succeeded);
    assert_eq!(a, DraftAction::ProcessTagging);
    let (s, a) = draft_step(s, DraftEvent::Succeeded);
    assert_eq!(a, DraftAction::RecordLastRun);
    let (s, a) = draft_step(s, DraftEvent::Succeeded);
    assert_eq!(a, DraftAction::EmitCompleted);
    let (s, a) = draft_step(s, DraftEvent::Succeeded);
    assert_eq!((s, a), (DraftStage::Stopped, DraftAction::Finish));
}

#[test]
fn draft_run_stops_on_gate_or_failure() {
    assert_eq!(
        draft_step(DraftStage::Begin, DraftEvent::Schedule { enabled: false, due: true }),
        (DraftStage::Stopped, DraftAction::Skip(TaskSkip::Disabled))
    );
    assert_eq!(
        draft_step(DraftStage::Begin, DraftEvent::Schedule { enabled: true, due: false }),
        (DraftStage::Stopped, DraftAction::Skip(TaskSkip::NotDue))
    );
    assert_eq!(
        draft_step(DraftStage::Tagging, DraftEvent::Failed),
        (DraftStage::Stopped, DraftAction::Fail)
    );
    assert_eq!(
        draft_step(DraftStage::Stopped, DraftEvent::Succeeded),
        (DraftStage::Stopped, DraftAction::Idle)
    );
}
