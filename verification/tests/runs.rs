use runflow::error::FlowError;
use runflow::flow::{Flow, Stage};
use runflow::run::{slugify, to_seconds, Run, RunStatus, StageStatus};

fn stage(name: &str, command: &str, artifact: Option<&str>, optional: bool) -> Stage {
    Stage {
        name: name.to_string(),
        description: format!("the {name} stage"),
        command: command.to_string(),
        artifact: artifact.map(|a| a.to_string()),
        optional,
        repeatable: false,
        agents: Vec::new(),
    }
}

fn main_flow() -> Flow {
    Flow {
        name: "main-flow".to_string(),
        description: String::new(),
        agent: String::new(),
        agents: Vec::new(),
        stages: vec![
            stage("grill", "/grill-with-docs", Some(".flow/artifacts/{slug}/grill.md"), false),
            stage("spec", "/to-spec", Some("tracker:issue"), false),
            stage("tickets", "/to-tickets", None, true),
            stage("implement", "/implement", None, false),
            stage("review", "/review", None, false),
        ],
    }
}

fn fresh() -> Run {
    Run::new_at(
        "auth-rework".to_string(),
        "Auth rework".to_string(),
        "feature".to_string(),
        &main_flow(),
        "2024-05-01T10:00:00.123Z",
    )
}

fn statuses(run: &Run) -> Vec<StageStatus> {
    run.meta.stages.iter().map(|s| s.status).collect()
}

#[test]
fn slugs_are_lowercase_words_joined_by_single_hyphens() {
    assert_eq!(slugify("Auth rework"), "auth-rework");
    assert_eq!(slugify("  Hello, World!! 2 "), "hello-world-2");
    assert_eq!(slugify("<script>alert(1)</script> & co"), "script-alert-1-script-co");
    assert_eq!(slugify("!!!"), "");
    assert_eq!(slugify("Ünïcode café"), "n-code-caf");
}

#[test]
fn slugifying_a_slug_changes_nothing() {
    for title in ["Auth rework", "a--b", "-x-", "Crash on load", "2024 Q3: plan"] {
        let once = slugify(title);
        assert_eq!(slugify(&once), once);
    }
}

#[test]
fn stamps_are_trimmed_to_seconds() {
    assert_eq!(to_seconds("2024-05-01T10:00:00.123Z"), "2024-05-01T10:00:00");
    assert_eq!(to_seconds("2024-05-01T10:00:00Z"), "2024-05-01T10:00:00");
    assert_eq!(to_seconds("2024-05-01T10:00:00"), "2024-05-01T10:00:00");
}

#[test]
fn a_new_run_has_its_first_stage_in_flight_and_the_rest_pending() {
    let run = fresh();
    assert_eq!(
        statuses(&run),
        vec![
            StageStatus::InProgress,
            StageStatus::Pending,
            StageStatus::Pending,
            StageStatus::Pending,
            StageStatus::Pending
        ]
    );
    assert_eq!(run.current_index(), Some(0));
    assert_eq!(run.current_stage_name(), Some("grill"));
    assert_eq!(run.progress(), (0, 5));
    assert_eq!(run.meta.stages[0].started.as_deref(), Some("2024-05-01T10:00:00.123Z"));
    assert!(run.meta.stages[1].started.is_none());
    assert_eq!(run.meta.flow, "main-flow");
    assert_eq!(run.meta.status, RunStatus::Active);
    assert!(!run.is_finished());
}

#[test]
fn a_run_lives_under_the_runs_directory() {
    assert_eq!(Run::path_for("/repo", "auth-rework"), "/repo/.flow/runs/auth-rework.md");
    assert_eq!(Run::path_for("/repo/", "x"), "/repo/.flow/runs/x.md");
}

#[test]
fn done_advances_to_the_next_stage() {
    let mut run = fresh();
    let headline = run.done(Some("grilled"), None, "2024-05-01T11:00:00.000Z").unwrap();
    assert_eq!(headline, "`grill` done → `spec`");
    assert_eq!(run.meta.stages[0].status, StageStatus::Done);
    assert_eq!(run.meta.stages[0].completed.as_deref(), Some("2024-05-01T11:00:00.000Z"));
    assert_eq!(run.meta.stages[1].status, StageStatus::InProgress);
    assert_eq!(run.current_stage_name(), Some("spec"));
    assert_eq!(run.progress(), (1, 5));
    assert_eq!(run.handoff, "`grill` done → `spec`\n\ngrilled");
    assert_eq!(
        run.log,
        "### 2024-05-01T11:00:00Z — `grill` done → `spec`\n\ngrilled\n"
    );
}

#[test]
fn done_records_the_artifact_it_is_told_of() {
    let mut run = fresh();
    run.done(None, Some("notes/grill.md"), "t").unwrap();
    assert_eq!(run.meta.stages[0].artifact.as_deref(), Some("notes/grill.md"));
}

#[test]
fn the_last_stage_done_settles_everything() {
    let mut run = fresh();
    for _ in 0..4 {
        run.done(None, None, "t").unwrap();
    }
    let headline = run.done(None, None, "t").unwrap();
    assert_eq!(headline, "`review` done — every stage settled");
    assert_eq!(run.current_index(), None);
    assert_eq!(run.progress(), (5, 5));
    match run.done(None, None, "t") {
        Err(FlowError::NothingInFlight { slug }) => assert_eq!(slug, "auth-rework"),
        other => panic!("expected nothing in flight, got {other:?}"),
    }
}

#[test]
fn the_handoff_is_replaced_while_the_log_only_grows() {
    let mut run = fresh();
    run.record_at("Started.", Some("FIRST NOTE"), "2024-05-01T10:00:00.000Z");
    let first_log = run.log.clone();
    run.done(Some("  SECOND NOTE  "), None, "2024-05-01T12:00:00.000Z").unwrap();
    assert!(run.handoff.contains("SECOND NOTE"));
    assert!(!run.handoff.contains("FIRST NOTE"));
    assert!(run.log.starts_with(first_log.trim_end()));
    assert!(run.log.contains("FIRST NOTE"));
    assert!(run.log.ends_with("\n\nSECOND NOTE\n"));
}

#[test]
fn a_required_stage_cannot_be_skipped_and_nothing_changes() {
    let flow = main_flow();
    let mut run = fresh();
    let before = format!("{run:?}");
    match run.skip(&flow, None, "t") {
        Err(FlowError::NotOptional { stage }) => assert_eq!(stage, "grill"),
        other => panic!("expected a refusal, got {other:?}"),
    }
    assert_eq!(format!("{run:?}"), before);
}

#[test]
fn an_optional_stage_can_be_skipped() {
    let flow = main_flow();
    let mut run = fresh();
    run.done(None, None, "t").unwrap();
    run.done(None, None, "t").unwrap();
    let headline = run.skip(&flow, Some("one-liner"), "t2").unwrap();
    assert_eq!(headline, "`tickets` skipped → `implement`");
    assert_eq!(run.meta.stages[2].status, StageStatus::Skipped);
    assert_eq!(run.current_stage_name(), Some("implement"));
}

#[test]
fn skipping_a_stage_the_flow_no_longer_has_names_it() {
    let mut flow = main_flow();
    flow.stages.remove(0);
    let mut run = fresh();
    match run.skip(&flow, None, "t") {
        Err(FlowError::NotAFlowStage { stage, flow }) => {
            assert_eq!(stage, "grill");
            assert_eq!(flow, "main-flow");
        }
        other => panic!("expected a refusal, got {other:?}"),
    }
}

#[test]
fn back_reopens_the_previous_stage_and_keeps_the_log() {
    let mut run = fresh();
    run.done(Some("GRILL NOTE"), None, "t1").unwrap();
    run.done(Some("SPEC NOTE"), None, "t2").unwrap();
    let headline = run.back(None, Some("spec was wrong"), "t3").unwrap();
    assert_eq!(headline, "sent back to `spec`");
    assert_eq!(run.current_stage_name(), Some("spec"));
    assert_eq!(run.meta.stages[0].status, StageStatus::Done);
    assert_eq!(run.meta.stages[1].status, StageStatus::InProgress);
    assert_eq!(run.meta.stages[2].status, StageStatus::Pending);
    assert!(run.meta.stages[1].reopened);
    for note in ["GRILL NOTE", "SPEC NOTE", "spec was wrong"] {
        assert!(run.log.contains(note));
    }
}

#[test]
fn back_can_name_a_stage_and_unsettles_everything_after_it() {
    let mut run = fresh();
    for _ in 0..3 {
        run.done(None, None, "t").unwrap();
    }
    run.back(Some("spec"), None, "t").unwrap();
    assert_eq!(
        statuses(&run),
        vec![
            StageStatus::Done,
            StageStatus::InProgress,
            StageStatus::Pending,
            StageStatus::Pending,
            StageStatus::Pending
        ]
    );
}

#[test]
fn back_refuses_to_move_forwards() {
    let mut run = fresh();
    match run.back(None, None, "t") {
        Err(FlowError::AtFirstStage { slug }) => assert_eq!(slug, "auth-rework"),
        other => panic!("expected a refusal, got {other:?}"),
    }
    match run.back(Some("review"), None, "t") {
        Err(FlowError::NotBehind { stage }) => assert_eq!(stage, "review"),
        other => panic!("expected a refusal, got {other:?}"),
    }
    match run.back(Some("nope"), None, "t") {
        Err(FlowError::NotARunStage { stage }) => assert_eq!(stage, "nope"),
        other => panic!("expected a refusal, got {other:?}"),
    }
}

#[test]
fn back_from_past_the_end_returns_to_the_last_stage() {
    let mut run = fresh();
    for _ in 0..5 {
        run.done(None, None, "t").unwrap();
    }
    run.back(None, None, "t").unwrap();
    assert_eq!(run.current_stage_name(), Some("review"));
}

#[test]
fn a_finished_run_refuses_recording_until_it_is_reopened() {
    let flow = main_flow();
    let mut finished = fresh();
    finished.path = Run::path_for("/repo", "auth-rework");
    finished.finish(Some("shipped"), "t").unwrap();
    // A bare command, with the current-run pointer still naming the run.
    let mut runs = vec![finished];
    let i = runflow::select::resolve(&runs, "/repo", None, Some("auth-rework")).unwrap();
    let mut run = runs.remove(i);
    assert!(run.is_finished());
    assert!(matches!(run.done(None, None, "t"), Err(FlowError::RunFinished { .. })));
    assert!(matches!(run.skip(&flow, None, "t"), Err(FlowError::RunFinished { .. })));
    assert!(matches!(run.back(None, None, "t"), Err(FlowError::RunFinished { .. })));
    assert!(run.done(None, None, "t").unwrap_err().message().contains("flow reopen"));
    assert!(matches!(run.finish(None, "t"), Err(FlowError::AlreadyFinished { .. })));
    run.reopen(Some("it came back"), "t").unwrap();
    assert!(!run.is_finished());
    assert!(matches!(run.reopen(None, "t"), Err(FlowError::AlreadyActive { .. })));
    run.done(None, None, "t").unwrap();
}

#[test]
fn deliberately_reopening_a_stage_is_cleared_when_it_is_done_again() {
    let mut run = fresh();
    run.done(None, None, "t").unwrap();
    run.back(None, None, "t").unwrap();
    assert!(run.meta.stages[0].reopened);
    run.done(None, None, "t").unwrap();
    assert!(!run.meta.stages[0].reopened);
}

#[test]
fn reopening_a_finished_run_gives_back_its_stages() {
    let mut run = fresh();
    run.done(None, None, "t").unwrap();
    let stages = format!("{:?}", run.meta.stages);
    let log = run.log.clone();
    run.finish(Some("shipped"), "t1").unwrap();
    run.reopen(Some("it came back"), "t2").unwrap();
    assert_eq!(format!("{:?}", run.meta.stages), stages);
    assert_eq!(run.meta.status, RunStatus::Active);
    assert!(run.log.starts_with(log.trim_end()));
    assert!(run.log.contains("Run finished."));
    assert!(run.log.ends_with("it came back\n"));
}

#[test]
fn a_run_made_now_is_stamped_in_utc_to_the_millisecond() {
    let run = Run::new("x".to_string(), "X".to_string(), String::new(), &main_flow()).unwrap();
    let c: Vec<char> = run.meta.created.chars().collect();
    assert_eq!(c.len(), 24);
    for (i, ch) in c.iter().enumerate() {
        match i {
            4 | 7 => assert_eq!(*ch, '-'),
            10 => assert_eq!(*ch, 'T'),
            13 | 16 => assert_eq!(*ch, ':'),
            19 => assert_eq!(*ch, '.'),
            23 => assert_eq!(*ch, 'Z'),
            _ => assert!(ch.is_ascii_digit()),
        }
    }
    assert_eq!(run.meta.updated, run.meta.created);
    assert_eq!(run.meta.stages[0].started.as_deref(), Some(run.meta.created.as_str()));
    let later = runflow::run::now().unwrap();
    assert!(run.meta.created <= later);
}

#[test]
fn recording_now_heads_the_entry_with_a_stamp_to_the_second() {
    let mut run = fresh();
    run.record("Checked in", Some("all good")).unwrap();
    let at = run.log.rfind("### ").unwrap();
    let heading: Vec<char> = run.log[at + 4..].chars().collect();
    for (i, ch) in heading.iter().take(19).enumerate() {
        match i {
            4 | 7 => assert_eq!(*ch, '-'),
            10 => assert_eq!(*ch, 'T'),
            13 | 16 => assert_eq!(*ch, ':'),
            _ => assert!(ch.is_ascii_digit()),
        }
    }
    assert!(run.log[at..].contains("Z — Checked in\n\nall good\n"));
    assert!(run.handoff.contains("Checked in") && run.handoff.contains("all good"));
}

#[test]
fn a_slug_is_empty_exactly_when_the_title_has_no_ascii_letter_or_digit() {
    for title in ["", "!!!", "   ", "¿¡ — üé!", "-_-"] {
        assert_eq!(slugify(title), "");
    }
    for title in ["a", "Café!", "--9--", "é1"] {
        assert!(!slugify(title).is_empty());
    }
    assert_eq!(slugify("Café!"), "caf");
}

#[test]
fn only_an_active_run_with_a_stage_in_flight_has_one_to_hand_over() {
    let mut run = fresh();
    assert_eq!(runflow::agent::stage_to_hand_over(&run).unwrap(), 0);
    run.finish(None, "t").unwrap();
    assert!(matches!(runflow::agent::stage_to_hand_over(&run), Err(FlowError::RunFinished { .. })));
}
