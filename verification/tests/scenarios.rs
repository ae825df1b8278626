use runflow::agent::{describe_exit, report_after};
use runflow::config::{config_report, Settings, UserConfig};
use runflow::error::FlowError;
use runflow::flow::{empty_flow, Flow, Stage};
use runflow::init::{choose_preset, PresetSource};
use runflow::listing::{presets_report, candidates};
use runflow::preset_path::{discover, Candidate, Layer};
use runflow::run::{Drift, Run, StageStatus};
use runflow::run_file::{render_run_text, split_run_text};
use runflow::select::resolve;
use runflow::status::status;

fn stage(name: &str, command: &str, artifact: Option<&str>, optional: bool) -> Stage {
    Stage {
        name: name.to_string(),
        description: format!("the {name} stage"),
        command: command.to_string(),
        artifact: artifact.map(|a| a.to_string()),
        optional,
        repeatable: false,
        agents: Vec::new(),
    }
}

fn the_main_flow() -> Flow {
    Flow {
        name: "main-flow".to_string(),
        description: String::new(),
        agent: String::new(),
        agents: Vec::new(),
        stages: vec![
            stage("grill", "/grill-with-docs", Some(".flow/artifacts/{slug}/grill.md"), false),
            stage("spec", "/to-spec", Some("tracker:issue"), false),
            stage("tickets", "/to-tickets", None, true),
            stage("implement", "/implement", None, false),
            stage("review", "/review", None, false),
        ],
    }
}

fn a_run(slug: &str, title: &str) -> Run {
    let mut run = Run::new_at(slug.to_string(), title.to_string(), String::new(), &the_main_flow(), "t0");
    run.path = Run::path_for("/r", slug);
    run
}

fn shipped_presets(found: Vec<Candidate>) -> Vec<runflow::preset_path::Preset> {
    discover(&candidates(found))
}

fn user_preset(name: &str, description: &str) -> Candidate {
    Candidate { layer: Layer::User, name: name.to_string(), description: description.to_string(), contents: String::new() }
}

fn project_preset(dir: &str, name: &str, description: &str) -> Candidate {
    Candidate {
        layer: Layer::Project(dir.to_string()),
        name: name.to_string(),
        description: description.to_string(),
        contents: String::new(),
    }
}

fn row_for<'a>(out: &'a str, name: &str) -> &'a str {
    out.lines()
        .find(|line| line.split_whitespace().any(|word| word == name))
        .unwrap_or_else(|| panic!("no row for `{name}`:\n{out}"))
}

#[test]
fn a_stage_completed_without_its_declared_artifact_is_drift() {
    let flow = the_main_flow();
    let mut run = a_run("auth-rework", "Auth rework");
    run.done(None, None, "t").unwrap();
    let drift = run.drift(&flow, &vec![false; 5]);
    assert_eq!(drift.len(), 1);
    assert_eq!(drift[0].stage, "grill");
    assert_eq!(drift[0].message, "marked done but .flow/artifacts/auth-rework/grill.md is missing");
}

#[test]
fn a_stage_whose_artifact_exists_while_it_is_open_is_drift() {
    let flow = the_main_flow();
    let run = a_run("auth-rework", "Auth rework");
    let drift = run.drift(&flow, &vec![true, false, false, false, false]);
    assert_eq!(drift.len(), 1);
    assert_eq!(
        drift[0].message,
        ".flow/artifacts/auth-rework/grill.md exists but the stage is in progress — did a session die here?"
    );
    assert!(run.drift(&flow, &vec![false; 5]).is_empty());
}

#[test]
fn a_tracker_artifact_is_never_drift() {
    let flow = the_main_flow();
    let mut run = a_run("x", "X");
    run.done(None, None, "t").unwrap();
    run.done(None, None, "t").unwrap();
    let drift = run.drift(&flow, &vec![true, false, false, false, false]);
    assert!(drift.is_empty());
    assert_eq!(run.checked_artifacts(&flow)[1], None);
}

#[test]
fn a_deliberately_reopened_stage_is_not_a_dead_session() {
    let flow = the_main_flow();
    let mut run = a_run("x", "X");
    run.done(None, None, "t").unwrap();
    run.back(None, None, "t").unwrap();
    assert!(run.drift(&flow, &vec![true, false, false, false, false]).is_empty());
}

#[test]
fn the_artifact_template_resolves_the_run_slug() {
    let flow = the_main_flow();
    assert_eq!(flow.stages[0].artifact_for("auth-rework"), Some(".flow/artifacts/auth-rework/grill.md".to_string()));
    assert_eq!(flow.stages[3].artifact_for("auth-rework"), None);
    let blank = stage("x", "/x", Some("   "), false);
    assert_eq!(blank.artifact_for("s"), None);
}

#[test]
fn every_move_rewrites_the_handoff() {
    let flow = the_main_flow();
    let mut run = a_run("x", "X");
    run.done(Some("after done"), None, "t").unwrap();
    assert!(run.handoff.contains("after done"));
    run.done(Some("after spec"), None, "t").unwrap();
    run.skip(&flow, Some("after skip"), "t").unwrap();
    assert!(run.handoff.contains("after skip") && !run.handoff.contains("after spec"));
    run.back(None, Some("after back"), "t").unwrap();
    assert!(run.handoff.contains("after back"));
    run.finish(Some("after finish"), "t").unwrap();
    assert!(run.handoff.contains("after finish"));
    run.reopen(Some("after reopen"), "t").unwrap();
    assert!(run.handoff.contains("after reopen") && !run.handoff.contains("after finish"));
}

#[test]
fn an_explicit_slug_still_beats_the_pointer() {
    let runs = vec![a_run("first", "First"), a_run("second", "Second")];
    assert_eq!(resolve(&runs, "/r", Some("first"), Some("second")).unwrap(), 0);
}

#[test]
fn next_and_done_need_no_slug_when_one_run_is_active() {
    let runs = vec![a_run("auth-rework", "Auth rework")];
    assert_eq!(resolve(&runs, "/r", None, None).unwrap(), 0);
}

#[test]
fn showing_an_unknown_run_fails_clearly() {
    let runs = vec![a_run("auth-rework", "Auth rework")];
    let e = resolve(&runs, "/r", Some("nope"), None).unwrap_err();
    assert!(e.message().contains("nope"));
}

#[test]
fn switching_to_an_unknown_run_fails() {
    let runs = vec![a_run("first", "First")];
    assert!(matches!(resolve(&runs, "/r", Some("nope"), None), Err(FlowError::NoSuchRun { .. })));
}

#[test]
fn ambiguity_with_no_pointer_is_refused_rather_than_guessed() {
    let runs = vec![a_run("first", "First"), a_run("second", "Second")];
    let e = resolve(&runs, "/r", None, Some("gone")).unwrap_err();
    assert!(e.message().contains("flow switch"));
    assert!(e.message().contains("first, second"));
}

#[test]
fn starting_a_run_makes_it_current() {
    let runs = vec![a_run("first", "First"), a_run("second", "Second")];
    let out = status(&runs, &vec![Vec::new(), Vec::new()], Some("second"), false);
    assert!(out.contains("* second"));
    assert!(out.contains("\n  first "));
}

#[test]
fn a_colliding_run_is_refused_before_anything_is_asked_for() {
    let e = FlowError::RunExists { slug: "auth-rework".to_string(), path: "/r/.flow/runs/auth-rework.md".to_string() };
    assert!(e.message().contains("already exists"));
}

#[test]
fn a_run_round_trips_through_a_separate_process() {
    let frontmatter = "slug = \"auth-rework\"\ntitle = \"Auth rework\"\nkind = \"feature\"\n";
    let text = render_run_text(frontmatter, "Started.", "### 2024 — Started.\n");
    let back = split_run_text(&text).unwrap();
    assert_eq!(format!("{}\n", back.frontmatter), frontmatter);
    assert_eq!(back.handoff, "Started.");
    assert_eq!(back.log, "### 2024 — Started.");
}

#[test]
fn go_reports_an_artifact_that_appeared_while_the_agent_had_it() {
    let flow = the_main_flow();
    let run = a_run("auth-rework", "Auth rework");
    let drift = run.drift(&flow, &vec![true, false, false, false, false]);
    let out = report_after(&run, &drift);
    assert!(out.contains("grill.md"), "no drift reported:\n{out}");
    assert!(out.contains("still reads `grill`"));
}

#[test]
fn go_never_records_the_stage_itself() {
    let run = a_run("auth-rework", "Auth rework");
    let before = format!("{run:?}");
    let _ = report_after(&run, &Vec::<Drift>::new());
    assert_eq!(format!("{run:?}"), before);
    assert_eq!(run.meta.stages[0].status, StageStatus::InProgress);
}

#[test]
fn a_failing_agent_is_reported_rather_than_swallowed() {
    assert_eq!(describe_exit(Some(3)), "with status 3");
}

#[test]
fn config_works_outside_a_flow_repo() {
    let user = UserConfig { agent: String::new(), preset: String::new(), agents: Vec::new() };
    let s = Settings::resolve(&empty_flow(), None, user, None, false);
    let out = config_report(&s, "/tmp/x/.flow/flow.toml", false, &Vec::new());
    assert!(out.contains("flow init"));
    assert!(out.contains("unavailable (no HOME or XDG_CONFIG_HOME)"));
}

#[test]
fn presets_lists_the_built_in_flows() {
    let presets = shipped_presets(Vec::new());
    let out = presets_report(&presets, "main-flow", &Vec::new());
    for name in ["main-flow", "minimal", "bugfix"] {
        assert!(out.contains(name), "presets missing {name}:\n{out}");
    }
    assert!(out.contains("* main-flow"), "main-flow should be the default:\n{out}");
}

#[test]
fn the_default_marker_and_the_footer_survive() {
    let out = presets_report(&shipped_presets(Vec::new()), "main-flow", &Vec::new());
    assert!(out.contains("* main-flow"));
    assert!(out.contains("preset = "));
}

#[test]
fn the_user_config_can_change_which_flow_init_writes() {
    let presets = shipped_presets(Vec::new());
    let out = presets_report(&presets, "minimal", &Vec::new());
    assert!(out.contains("* minimal"));
    match choose_preset(None, "minimal", &presets).unwrap() {
        PresetSource::Found(i) => assert!(presets[i].contents.contains("name = \"minimal\"")),
        other => panic!("expected a preset, got {other:?}"),
    }
}

#[test]
fn a_named_preset_is_written_out() {
    let presets = shipped_presets(Vec::new());
    match choose_preset(Some("bugfix"), "", &presets).unwrap() {
        PresetSource::Found(i) => {
            let toml = &presets[i].contents;
            assert!(toml.contains("name = \"bugfix\""));
            for stage in ["reproduce", "diagnose", "fix", "verify"] {
                assert!(toml.contains(&format!("name = \"{stage}\"")));
            }
        }
        other => panic!("expected a preset, got {other:?}"),
    }
}

#[test]
fn an_unknown_preset_is_refused() {
    let presets = shipped_presets(Vec::new());
    assert!(choose_preset(Some("nonsense"), "", &presets).is_err());
}

#[test]
fn an_unknown_preset_lists_the_ones_that_exist() {
    let presets = shipped_presets(Vec::new());
    let e = choose_preset(Some("nonsense"), "", &presets).unwrap_err();
    assert!(e.message().contains("minimal"));
}

#[test]
fn an_unknown_preset_lists_presets_from_every_layer() {
    let presets = shipped_presets(vec![user_preset("house", "The house style.")]);
    let e = choose_preset(Some("nonsense"), "", &presets).unwrap_err();
    assert!(e.message().contains("house"));
    assert!(e.message().contains("main-flow"));
}

#[test]
fn a_user_preset_is_offered_and_says_it_came_from_the_user() {
    let presets = shipped_presets(vec![user_preset("house", "The house style.")]);
    let out = presets_report(&presets, "main-flow", &Vec::new());
    assert!(out.contains("The house style."));
    assert!(row_for(&out, "house").contains("user"));
}

#[test]
fn a_project_preset_is_offered_and_says_it_came_from_the_project() {
    let presets = shipped_presets(vec![project_preset("/r/.flow/presets", "ours", "What we do here.")]);
    let out = presets_report(&presets, "main-flow", &Vec::new());
    assert!(out.contains("What we do here."));
    assert!(row_for(&out, "ours").contains("project"));
}

#[test]
fn the_project_beats_the_user_which_beats_what_ships() {
    let presets = shipped_presets(vec![user_preset("main-flow", "The user's own.")]);
    let out = presets_report(&presets, "main-flow", &Vec::new());
    assert!(row_for(&out, "main-flow").contains("The user's own."));
    let presets = shipped_presets(vec![
        project_preset("/r/.flow/presets", "main-flow", "The project's own."),
        user_preset("main-flow", "The user's own."),
    ]);
    let out = presets_report(&presets, "main-flow", &Vec::new());
    assert!(row_for(&out, "main-flow").contains("The project's own."));
}

#[test]
fn a_nearer_ancestor_beats_a_farther_one() {
    let presets = shipped_presets(vec![
        project_preset("/o/packages/api/.flow/presets", "house", "The near one."),
        project_preset("/o/.flow/presets", "house", "The far one."),
    ]);
    let out = presets_report(&presets, "main-flow", &Vec::new());
    assert!(row_for(&out, "house").contains("The near one."));
}

#[test]
fn a_shadowed_preset_is_still_listed_and_says_what_beat_it() {
    let presets = shipped_presets(vec![project_preset("/r/.flow/presets", "main-flow", "The project's own.")]);
    let out = presets_report(&presets, "main-flow", &Vec::new());
    let shadow = out.lines().find(|line| line.to_lowercase().contains("shadow")).unwrap();
    assert!(shadow.contains("shipped"));
    assert!(shadow.contains("project"));
}

#[test]
fn a_shadowed_preset_says_what_you_overrode_not_just_that_you_did() {
    let shipped = presets_report(&shipped_presets(Vec::new()), "main-flow", &Vec::new());
    let overridden = row_for(&shipped, "main-flow").split_whitespace().last().unwrap().to_string();
    let presets = shipped_presets(vec![project_preset("/r/.flow/presets", "main-flow", "The project's own.")]);
    let out = presets_report(&presets, "main-flow", &Vec::new());
    let shadow = out.lines().find(|line| line.to_lowercase().contains("shadow")).unwrap();
    assert!(shadow.contains(&overridden), "the shadowed description is nowhere: {shadow}");
    let description = runflow::presets::shipped("main-flow").unwrap().description;
    assert!(shadow.contains(description), "the shadowed description is nowhere: {shadow}");
}

#[test]
fn a_preset_you_wrote_shadows_the_default_a_bare_init_writes() {
    let mut mine = user_preset("main-flow", "The house spine.");
    mine.contents = "name = \"main-flow\"\ndescription = \"The house spine.\"\n".to_string();
    let presets = shipped_presets(vec![mine]);
    match choose_preset(None, "", &presets).unwrap() {
        PresetSource::Found(i) => assert!(presets[i].contents.contains("The house spine.")),
        other => panic!("expected a preset, got {other:?}"),
    }
}

#[test]
fn each_reason_a_preset_is_skipped_for_is_reported_distinguishably() {
    let skipped = vec![
        ("garbled.toml".to_string(), "is not valid TOML".to_string()),
        ("stageless.toml".to_string(), "declares no stages".to_string()),
    ];
    let out = presets_report(&shipped_presets(Vec::new()), "main-flow", &skipped);
    let line = |file: &str| out.lines().find(|l| l.contains(file)).unwrap().to_string();
    assert!(line("garbled.toml").contains("TOML"));
    assert!(line("stageless.toml").contains("stages"));
    assert_ne!(line("garbled.toml"), line("stageless.toml"));
    assert!(out.to_lowercase().contains("skip"));
}

#[test]
fn an_absent_presets_directory_is_not_an_error() {
    let out = presets_report(&shipped_presets(Vec::new()), "main-flow", &Vec::new());
    assert!(!out.to_lowercase().contains("skip"));
}

#[test]
fn config_names_the_presets_directories_it_reads() {
    let user = UserConfig { agent: String::new(), preset: String::new(), agents: Vec::new() };
    let s = Settings::resolve(&empty_flow(), None, user, None, false);
    let dirs = vec![
        ("/r/.flow/presets".to_string(), true),
        ("/h/xdg/flow/presets".to_string(), true),
    ];
    let out = config_report(&s, "/r/.flow/flow.toml", true, &dirs);
    assert!(out.contains("xdg/flow/presets"));
    assert!(out.contains(".flow/presets"));
}

#[test]
fn config_marks_a_presets_directory_that_does_not_exist_yet() {
    let user = UserConfig { agent: String::new(), preset: String::new(), agents: Vec::new() };
    let s = Settings::resolve(&empty_flow(), None, user, None, false);
    let dirs = vec![("/r/.flow/presets".to_string(), false)];
    let out = config_report(&s, "/r/.flow/flow.toml", true, &dirs);
    let row = out.lines().find(|line| line.contains(".flow/presets")).unwrap();
    assert!(row.contains("does not exist"), "unmarked: {row}");
}

#[test]
fn a_default_preset_that_resolves_to_nothing_is_said_so_in_the_listing() {
    let out = presets_report(&shipped_presets(Vec::new()), "gone", &Vec::new());
    assert!(out.contains("gone"));
    assert!(!out.lines().any(|l| l.starts_with("  * ")));
}

#[test]
fn status_is_ordered_most_recently_updated_first() {
    let mut a = a_run("older", "Older");
    a.meta.updated = "2024-05-01T10:00:00.000Z".to_string();
    let mut b = a_run("newer", "Newer");
    b.meta.updated = "2024-05-01T10:00:00.500Z".to_string();
    let mut c = a_run("oldest", "Oldest");
    c.meta.updated = "2024-04-30T09:00:00.000Z".to_string();
    let sorted = runflow::select::newest_first(vec![a, b, c]);
    let slugs: Vec<&str> = sorted.iter().map(|r| r.meta.slug.as_str()).collect();
    assert_eq!(slugs, vec!["newer", "older", "oldest"]);
}

#[test]
fn a_run_survives_being_read_by_a_process_that_never_wrote_it() {
    let text = "+++\nslug = \"auth-rework\"\ntitle = \"Auth rework\"\n+++\n\n## Where we are\n\nthe tracker choice is still open\n\n## Log\n\n### 2024-05-01T10:00:00Z — Started.\n";
    let back = split_run_text(text).unwrap();
    assert_eq!(back.frontmatter, "slug = \"auth-rework\"\ntitle = \"Auth rework\"");
    assert_eq!(back.handoff, "the tracker choice is still open");
    assert_eq!(back.log, "### 2024-05-01T10:00:00Z — Started.");
}
