use runflow::agent::{build_prompt, describe_exit, hand_over, launch_argv, nesting_marker, report_after, Handover};
use runflow::config::{Settings, Source, UserConfig};
use runflow::error::FlowError;
use runflow::flow::{Flow, Launcher, Stage};
use runflow::html::{board, card, escape, title_for};
use runflow::lifecycle::{check_switch, next_report, next_text, open_run, show, start_slug, NO_BRIEF};
use runflow::run::{Drift, Run};
use runflow::status::{status, visible};

fn stage(name: &str, command: &str, artifact: Option<&str>, optional: bool) -> Stage {
    Stage {
        name: name.to_string(),
        description: format!("the {name} stage"),
        command: command.to_string(),
        artifact: artifact.map(|a| a.to_string()),
        optional,
        repeatable: false,
        agents: Vec::new(),
    }
}

fn main_flow() -> Flow {
    Flow {
        name: "main-flow".to_string(),
        description: String::new(),
        agent: String::new(),
        agents: Vec::new(),
        stages: vec![
            stage("grill", "/grill-with-docs", Some(".flow/artifacts/{slug}/grill.md"), false),
            stage("spec", "/to-spec", Some("tracker:issue"), false),
            stage("tickets", "/to-tickets", None, true),
            stage("implement", "/implement", None, false),
            stage("review", "/review", None, false),
        ],
    }
}

fn run_of(slug: &str, title: &str, kind: &str) -> Run {
    Run::new_at(slug.to_string(), title.to_string(), kind.to_string(), &main_flow(), "t0")
}

fn launcher(command: &[&str], guard: &[&str]) -> Launcher {
    Launcher {
        command: command.iter().map(|s| s.to_string()).collect(),
        guard_env: guard.iter().map(|s| s.to_string()).collect(),
    }
}

fn settings_with(name: &str, l: Launcher) -> Settings {
    let user = UserConfig {
        agent: name.to_string(),
        preset: String::new(),
        agents: vec![(name.to_string(), l)],
    };
    Settings::resolve(&main_flow(), None, user, Some("/home/x/.config/flow/config.toml".to_string()), true)
}

#[test]
fn text_is_escaped_for_html() {
    assert_eq!(escape("<script>alert(1)</script> & co"), "&lt;script&gt;alert(1)&lt;/script&gt; &amp; co");
    assert_eq!(escape("say \"hi\""), "say &quot;hi&quot;");
    assert_eq!(escape("plain"), "plain");
}

#[test]
fn run_titles_are_html_escaped() {
    let run = run_of("script-alert-1-script-co", "<script>alert(1)</script> & co", "");
    let html = card(&run, &Vec::new());
    assert!(html.contains("&lt;script&gt;"));
    assert!(html.contains("&amp; co"));
    assert!(!html.contains("<script>alert"));
}

#[test]
fn a_card_marks_the_current_stage_and_shows_drift_and_handoff() {
    let mut run = run_of("auth-rework", "Auth rework", "feature");
    run.done(Some("Tracker choice is still open."), None, "t1").unwrap();
    let drift = vec![Drift { stage: "grill".to_string(), message: "marked done but x is missing".to_string() }];
    let html = card(&run, &drift);
    assert!(html.starts_with("  <article class=\"card\">\n    <div class=\"kind\">feature</div>"));
    assert!(html.contains("<li class=\"done\"><span class=\"dot\"></span><span class=\"name\">grill</span></li>"));
    assert!(html.contains("<li class=\"current\"><span class=\"dot\"></span><span class=\"name\">spec</span></li>"));
    assert!(html.contains("<li class=\"\"><span class=\"dot\"></span><span class=\"name\">review</span></li>"));
    assert!(html.contains("    <div class=\"drift\">grill: marked done but x is missing</div>\n"));
    assert!(html.contains("<div class=\"handoff\">`grill` done → `spec`\n\nTracker choice is still open.</div>"));
    assert!(html.ends_with("  </article>"));
}

#[test]
fn a_card_without_a_kind_shows_the_flow() {
    let run = run_of("x", "X", "");
    assert!(card(&run, &Vec::new()).contains("<div class=\"kind\">main-flow</div>"));
}

#[test]
fn the_board_is_a_standalone_page_with_every_card() {
    let runs = vec![run_of("auth-rework", "Auth rework", "feature")];
    let html = board("my-repo", "main-flow", &runs, &vec![Vec::new()], "2024-05-01T10:00:00.000Z");
    assert!(html.starts_with("<!doctype html>"));
    assert!(html.contains("Auth rework"));
    for stage in ["grill", "spec", "tickets", "implement", "review"] {
        assert!(html.contains(stage));
    }
    assert!(html.contains("class=\"current\""));
    assert!(html.contains("1 run · flow <code>main-flow</code> · 1 active"));
    assert!(html.contains("<title>my-repo · flow</title>"));
    assert!(html.contains("prefers-color-scheme: dark"));
    assert!(html.contains(":root {"));
    for forbidden in ["http://", "https://", "<script", "<link"] {
        assert!(!html.contains(forbidden));
    }
    assert!(html.contains("Generated 2024-05-01T10:00:00.000Z by flow."));
}

#[test]
fn an_empty_board_says_so() {
    let html = board("r", "main-flow", &Vec::new(), &Vec::new(), "now");
    assert!(html.contains("No runs yet."));
    assert!(html.contains("0 runs · flow <code>main-flow</code> · 0 active"));
}

#[test]
fn the_board_title_falls_back_to_flow() {
    assert_eq!(title_for(Some("repo")), "repo");
    assert_eq!(title_for(None), "flow");
}

#[test]
fn status_lists_every_run_with_its_stage_and_progress() {
    let mut a = run_of("auth-rework", "Auth rework", "feature");
    a.done(None, None, "t").unwrap();
    let b = run_of("billing-fix", "Billing fix", "bug");
    let out = status(&vec![a, b], &vec![Vec::new(), Vec::new()], Some("auth-rework"), false);
    assert_eq!(
        out,
        "  RUN          KIND     STAGE  DONE\n\
         * auth-rework  feature  spec   1/5\n\
         \x20 billing-fix  bug      grill  0/5\n"
    );
}

#[test]
fn status_on_an_empty_repo_is_helpful_and_succeeds() {
    let out = status(&Vec::new(), &Vec::new(), None, false);
    assert_eq!(out, "no active runs yet — start one with `flow start \"<title>\"`\n");
    let out = status(&Vec::new(), &Vec::new(), None, true);
    assert!(out.starts_with("no runs yet"));
}

#[test]
fn status_reports_drift_after_the_table() {
    let a = run_of("auth-rework", "Auth rework", "");
    let drift = vec![vec![Drift { stage: "grill".to_string(), message: "m".to_string() }]];
    let out = status(&vec![a], &drift, None, false);
    assert!(out.contains("  auth-rework  —     grill  0/5\n"));
    assert!(out.ends_with("\ndrift:\n  ! auth-rework — grill: m\n"));
}

#[test]
fn finished_runs_are_hidden_until_asked_for() {
    let mut a = run_of("a", "A", "");
    a.finish(None, "t").unwrap();
    let b = run_of("b", "B", "");
    let shown = visible(vec![a.clone(), b.clone()], false);
    assert_eq!(shown.len(), 1);
    assert_eq!(shown[0].meta.slug, "b");
    assert_eq!(visible(vec![a, b], true).len(), 2);
}

#[test]
fn next_prints_the_stage_and_its_command_without_running_it() {
    let run = run_of("auth-rework", "Auth rework", "feature");
    let out = next_text(&main_flow(), &run, None);
    assert_eq!(
        out,
        "Auth rework — stage 1 of 5\n\n  grill\n  the grill stage\n\n  run: /grill-with-docs\n  produces: .flow/artifacts/auth-rework/grill.md\n"
    );
}

#[test]
fn a_run_past_its_last_stage_says_so() {
    let mut run = run_of("auth-rework", "Auth rework", "");
    for _ in 0..5 {
        run.done(None, None, "t").unwrap();
    }
    let out = next_text(&main_flow(), &run, None);
    assert_eq!(out, "`auth-rework` has no stages left. Close it with `flow finish`.\n");
}

#[test]
fn next_shows_drift_first() {
    let run = run_of("auth-rework", "Auth rework", "");
    let drift = vec![Drift { stage: "grill".to_string(), message: "m".to_string() }];
    let out = next_report(&main_flow(), &run, None, &drift);
    assert!(out.starts_with("drift — resolve this before continuing:\n  ! grill: m\n\nAuth rework — stage 1 of 5"));
}

#[test]
fn a_stage_can_override_its_command_per_agent() {
    let mut flow = main_flow();
    flow.stages[1].agents = vec![("other-agent".to_string(), "write it up, other-style".to_string())];
    let mut run = run_of("thing", "Thing", "");
    run.done(None, None, "t").unwrap();
    assert!(next_text(&flow, &run, None).contains("/to-spec"));
    assert!(next_text(&flow, &run, Some("other-agent")).contains("write it up, other-style"));
    assert!(next_text(&flow, &run, Some("third-agent")).contains("/to-spec"));
}

#[test]
fn show_lists_stages_drift_handoff_and_log() {
    let mut run = run_of("auth-rework", "Auth rework", "feature");
    run.done(Some("note"), Some("g.md"), "2024-05-01T10:00:00.000Z").unwrap();
    run.meta.updated = "2024-05-01T10:00:00.000Z".to_string();
    let drift = vec![Drift { stage: "grill".to_string(), message: "marked done but g.md is missing".to_string() }];
    let out = show(&run, &drift);
    assert!(out.starts_with("Auth rework (auth-rework)\nfeature · flow `main-flow` · 1/5 stages · active\nupdated 2024-05-01T10:00:00.000Z\n\n"));
    assert!(out.contains("  [x] grill  → g.md\n  [>] spec\n  [ ] tickets\n"));
    assert!(out.contains("\ndrift:\n  ! grill: marked done but g.md is missing\n"));
    assert!(out.contains("\n## Where we are\n\n`grill` done → `spec`\n\nnote\n"));
    assert!(out.ends_with("\n## Log\n\n### 2024-05-01T10:00:00Z — `grill` done → `spec`\n\nnote\n"));
}

#[test]
fn the_prompt_carries_the_command_the_run_the_handoff_and_the_recording_line() {
    let mut run = run_of("auth-rework", "Auth rework", "feature");
    run.record_at("Started.", Some("Sessions outlive their tokens"), "t");
    let prompt = build_prompt(&main_flow(), &run, 0, None);
    assert!(prompt.starts_with("/grill-with-docs\n\n"));
    assert!(prompt.contains("You are working on `auth-rework` (Auth rework), a feature.\nStage 1 of 5: **grill** — the grill stage\n"));
    assert!(prompt.contains("\n## Where we are\n\nStarted.\n\nSessions outlive their tokens\n"));
    assert!(prompt.contains("flow done auth-rework -m"));
    assert!(prompt.contains("--artifact .flow/artifacts/auth-rework/grill.md"));
    assert!(prompt.ends_with("costs a later session real time.\n"));
}

#[test]
fn a_tracker_artifact_is_never_offered_as_a_file() {
    let mut run = run_of("x", "X", "");
    run.done(None, None, "t").unwrap();
    let prompt = build_prompt(&main_flow(), &run, 1, None);
    assert!(!prompt.contains("--artifact"));
}

#[test]
fn go_launches_the_configured_agent_with_the_assembled_prompt() {
    let run = run_of("auth-rework", "Auth rework", "feature");
    let s = settings_with("test", launcher(&["sh", "-c", "{prompt}", "{slug}:{stage}"], &["AGENT_SESSION"]));
    match hand_over(&main_flow(), &run, &s, false, &vec![false]).unwrap() {
        Handover::Launch { agent, announce, argv } => {
            assert_eq!(agent, "test");
            assert_eq!(announce, "→ test: sh\n");
            assert_eq!(argv[0], "sh");
            assert!(argv[2].starts_with("/grill-with-docs"));
            assert!(argv[2].contains("Stage 1 of 5"));
            assert_eq!(argv[3], "auth-rework:grill");
        }
        other => panic!("expected a launch, got {other:?}"),
    }
}

#[test]
fn go_refuses_to_nest_a_session_inside_a_session() {
    let run = run_of("auth-rework", "Auth rework", "");
    let s = settings_with("my-agent", launcher(&["my-agent", "{prompt}"], &["NOPE", "AGENT_SESSION"]));
    match hand_over(&main_flow(), &run, &s, false, &vec![false, true]).unwrap() {
        Handover::Print(text) => {
            assert!(text.starts_with("`AGENT_SESSION` is set"));
            assert!(text.contains("/grill-with-docs"));
        }
        other => panic!("expected a print, got {other:?}"),
    }
}

#[test]
fn go_print_shows_the_prompt_and_launches_nothing() {
    let run = run_of("auth-rework", "Auth rework", "");
    let s = settings_with("my-agent", launcher(&["touch", "SHOULD_NOT_EXIST"], &[]));
    match hand_over(&main_flow(), &run, &s, true, &Vec::new()).unwrap() {
        Handover::Print(text) => {
            assert!(text.contains("/grill-with-docs"));
            assert!(text.contains("flow done auth-rework"));
        }
        other => panic!("expected a print, got {other:?}"),
    }
}

#[test]
fn go_refuses_a_finished_run_and_one_with_nothing_in_flight() {
    let s = settings_with("my-agent", launcher(&["my-agent"], &[]));
    let mut run = run_of("a", "A", "");
    run.finish(None, "t").unwrap();
    assert!(matches!(hand_over(&main_flow(), &run, &s, false, &Vec::new()), Err(FlowError::RunFinished { .. })));
    let mut run = run_of("b", "B", "");
    for _ in 0..5 {
        run.done(None, None, "t").unwrap();
    }
    assert!(matches!(hand_over(&main_flow(), &run, &s, false, &Vec::new()), Err(FlowError::NothingToHandOver { .. })));
}

#[test]
fn go_with_nothing_configured_points_at_the_setup_command() {
    let run = run_of("a", "A", "");
    let user = UserConfig { agent: String::new(), preset: String::new(), agents: Vec::new() };
    let s = Settings::resolve(&main_flow(), None, user, None, false);
    let e = hand_over(&main_flow(), &run, &s, false, &Vec::new()).unwrap_err();
    assert!(matches!(e, FlowError::NoAgent));
    assert!(e.message().contains("flow config --init"));
}

#[test]
fn an_unknown_agent_names_the_ones_that_exist() {
    let user = UserConfig {
        agent: String::new(),
        preset: String::new(),
        agents: vec![("test".to_string(), launcher(&["x"], &[]))],
    };
    let s = Settings::resolve(&main_flow(), Some("nope"), user, None, false);
    let e = s.launcher().unwrap_err();
    assert_eq!(e.message(), "no agent called `nope` — configured agents: test. See `flow config`.");
}

#[test]
fn the_guard_is_the_first_variable_that_is_set() {
    let l = launcher(&["x"], &["A", "B", "C"]);
    assert_eq!(nesting_marker(&l, &vec![false, true, true]), Some("B"));
    assert_eq!(nesting_marker(&l, &vec![false]), None);
}

#[test]
fn the_launcher_argv_is_substituted_in_order() {
    let l = launcher(&["a", "{prompt}", "{slug}-{stage}", "{slug}"], &[]);
    assert_eq!(launch_argv(&l, "P {slug}", "s", "g"), vec!["a", "P s", "s-g", "s"]);
}

#[test]
fn after_the_agent_exits_the_run_is_reported_and_nothing_is_recorded() {
    let run = run_of("auth-rework", "Auth rework", "");
    let drift = vec![Drift { stage: "grill".to_string(), message: ".flow/artifacts/auth-rework/grill.md exists".to_string() }];
    let out = report_after(&run, &drift);
    assert!(out.contains("still reads `grill`"));
    assert!(out.contains("grill.md"));
    assert!(out.contains("flow done"));
    let mut done = run_of("b", "B", "");
    for _ in 0..5 {
        done.done(None, None, "t").unwrap();
    }
    assert_eq!(report_after(&done, &Vec::new()), "\n`b` has no stage left — close it with `flow finish`.\n");
}

#[test]
fn a_failing_agent_is_described() {
    assert_eq!(describe_exit(Some(3)), "with status 3");
    assert_eq!(describe_exit(Some(-1)), "with status -1");
    assert_eq!(describe_exit(None), "on a signal");
}

#[test]
fn nothing_is_asked_for_when_no_one_is_there_to_answer() {
    assert!(matches!(start_slug(None), Err(FlowError::NoTitle)));
    assert!(matches!(start_slug(Some("   ")), Err(FlowError::NoTitle)));
    assert!(start_slug(None).unwrap_err().message().contains("no title"));
    match start_slug(Some("!!!")) {
        Err(FlowError::NoSlug { title }) => assert_eq!(title, "!!!"),
        other => panic!("expected a refusal, got {other:?}"),
    }
    assert_eq!(start_slug(Some("Auth rework")).unwrap(), "auth-rework");
}

#[test]
fn the_brief_given_at_start_becomes_the_first_handoff() {
    let run = open_run(
        "auth-rework".to_string(),
        "Auth rework".to_string(),
        "feature".to_string(),
        "Sessions outlive their tokens",
        &main_flow(),
        "/r/.flow/runs/auth-rework.md".to_string(),
        "2024-05-01T10:00:00.000Z",
    );
    assert_eq!(run.path, "/r/.flow/runs/auth-rework.md");
    assert_eq!(
        run.handoff,
        "Started. First stage is `grill`.\n\nSessions outlive their tokens\n\nthe grill stage\n\nRun `/grill-with-docs` next."
    );
    assert!(run.log.contains("Sessions outlive their tokens"));
    assert_eq!(run.current_stage_name(), Some("grill"));
}

#[test]
fn starting_without_a_brief_says_so_instead_of_pretending() {
    let run = open_run("x".to_string(), "X".to_string(), String::new(), "  ", &main_flow(), String::new(), "t");
    assert!(run.handoff.contains(NO_BRIEF));
    assert!(run.handoff.contains("No brief was given"));
    assert!(run.handoff.contains("/grill-with-docs"));
}

#[test]
fn switching_to_a_finished_run_is_refused() {
    let mut run = run_of("first", "First", "");
    assert!(check_switch(&run).is_ok());
    run.finish(None, "t").unwrap();
    let e = check_switch(&run).unwrap_err();
    assert!(e.message().contains("flow reopen first"));
}
