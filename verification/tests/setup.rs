use runflow::config::{config_report, user_config_path, user_presets_dir, Settings, Source, UserConfig, USER_CONFIG_STARTER};
use runflow::error::FlowError;
use runflow::flow::{empty_flow, find_root, flow_dir, flow_path, is_tracker_artifact, runs_dir, Flow, Launcher, Stage};
use runflow::init::{agents_block, choose_preset, is_preset_file, spliced_agents, PresetSource, ADAPTER_SKILL, BLOCK_END, BLOCK_START, GITIGNORE};
use runflow::listing::{presets_report, candidates};
use runflow::path::{ancestors, join, parent, rel};
use runflow::preset_path::{check_preset, discover, project_dirs, Candidate, Layer, Preset, Shadowed};
use runflow::presets::{catalog, shipped, shipped_names, DEFAULT};
use runflow::run::Run;
use runflow::run_file::{render_run_text, split_body, split_run_text};
use runflow::select::resolve;

fn stage(name: &str, command: &str, artifact: Option<&str>) -> Stage {
    Stage {
        name: name.to_string(),
        description: format!("the {name} stage"),
        command: command.to_string(),
        artifact: artifact.map(|a| a.to_string()),
        optional: false,
        repeatable: false,
        agents: Vec::new(),
    }
}

fn flow_of(stages: Vec<Stage>) -> Flow {
    Flow { name: "main-flow".to_string(), description: String::new(), agent: String::new(), agents: Vec::new(), stages }
}

fn launcher(command: &[&str]) -> Launcher {
    Launcher { command: command.iter().map(|s| s.to_string()).collect(), guard_env: Vec::new() }
}

fn candidate(layer: Layer, name: &str, description: &str) -> Candidate {
    Candidate { layer, name: name.to_string(), description: description.to_string(), contents: format!("name = \"{name}\"") }
}

fn preset(name: &str) -> Preset {
    Preset { name: name.to_string(), description: String::new(), contents: String::new(), layer: Layer::Shipped, shadowed: Vec::new() }
}

#[test]
fn init_creates_agents_md_when_absent() {
    let agents = spliced_agents("");
    assert!(agents.starts_with(BLOCK_START));
    assert!(agents.contains(BLOCK_END));
    assert!(agents.contains("flow next"));
    assert_eq!(agents, format!("{}\n", agents_block()));
}

#[test]
fn init_preserves_surrounding_agents_md_content_byte_for_byte() {
    let original = "# My repo\n\nHouse rules that matter.\n";
    let after_first = spliced_agents(original);
    assert!(after_first.starts_with("# My repo\n\nHouse rules that matter."));
    let after_second = spliced_agents(&after_first);
    assert_eq!(after_first, after_second, "init must be idempotent");
    assert_eq!(after_second.matches(BLOCK_START).count(), 1);
}

#[test]
fn init_updates_its_block_in_place_without_touching_the_rest() {
    let original = format!("# Top\n\n{BLOCK_START}\nstale text\n{BLOCK_END}\n\n# Bottom\n");
    let agents = spliced_agents(&original);
    assert!(agents.starts_with("# Top\n"));
    assert!(agents.trim_end().ends_with("# Bottom"));
    assert!(!agents.contains("stale text"));
    assert_eq!(agents.matches(BLOCK_START).count(), 1);
    assert_eq!(agents, format!("# Top\n\n{}\n\n# Bottom\n", agents_block()));
}

#[test]
fn a_stray_end_marker_before_the_start_gets_a_fresh_block_appended() {
    let original = format!("{BLOCK_END}\nnotes\n");
    let agents = spliced_agents(&original);
    assert_eq!(agents, format!("{BLOCK_END}\nnotes\n\n{}\n", agents_block()));
}

#[test]
fn init_writes_the_claude_adapter_with_frontmatter() {
    assert!(ADAPTER_SKILL.starts_with("---\n"));
    assert!(ADAPTER_SKILL.contains("name: flow"));
    assert!(ADAPTER_SKILL.contains("description:"));
}

#[test]
fn the_adapter_documents_the_real_command_surface() {
    assert!(ADAPTER_SKILL.starts_with("---\n"));
    assert!(ADAPTER_SKILL.contains("name: flow"));
    assert!(ADAPTER_SKILL.contains("description:"));
    for command in ["flow status", "flow next", "flow done", "flow skip", "flow back", "flow finish", "flow reopen", "flow start"] {
        assert!(ADAPTER_SKILL.contains(command), "adapter never mentions `{command}`");
    }
}

#[test]
fn the_generated_board_is_ignored_and_runs_are_offered_rather_than_ignored() {
    assert!(GITIGNORE.lines().any(|l| l.trim() == "/current"));
    assert!(GITIGNORE.lines().any(|l| l.trim() == "/board.html"));
    assert!(GITIGNORE.lines().any(|l| l.trim() == "# /runs/"));
    assert!(GITIGNORE.lines().any(|l| l.trim() == "# /artifacts/"));
}

#[test]
fn a_preset_argument_is_a_file_when_it_looks_like_one() {
    assert!(is_preset_file("./mine.toml"));
    assert!(is_preset_file("/abs/mine.toml"));
    assert!(is_preset_file("mine.toml"));
    assert!(!is_preset_file("bugfix"));
    assert!(!is_preset_file("main-flow"));
}

#[test]
fn init_resolves_presets_by_name_and_refuses_unknown_ones() {
    let presets = vec![preset("bugfix"), preset("main-flow"), preset("minimal")];
    assert!(matches!(choose_preset(None, "", &presets), Ok(PresetSource::Found(1))));
    assert!(matches!(choose_preset(None, "minimal", &presets), Ok(PresetSource::Found(2))));
    assert!(matches!(choose_preset(Some("bugfix"), "minimal", &presets), Ok(PresetSource::Found(0))));
    match choose_preset(Some("./mine.toml"), "", &presets) {
        Ok(PresetSource::File(p)) => assert_eq!(p, "./mine.toml"),
        other => panic!("expected a file, got {other:?}"),
    }
    let e = choose_preset(Some("nonsense"), "", &presets).unwrap_err();
    match &e {
        FlowError::UnknownPreset { name, known } => {
            assert_eq!(name, "nonsense");
            assert_eq!(known, &vec!["bugfix".to_string(), "main-flow".to_string(), "minimal".to_string()]);
        }
        other => panic!("expected unknown preset, got {other:?}"),
    }
    assert!(e.message().contains("minimal"));
    let e = choose_preset(None, "house", &presets).unwrap_err();
    assert!(matches!(e, FlowError::DefaultPresetMissing { .. }));
    assert!(e.message().contains("house") && e.message().contains("main-flow"));
}

#[test]
fn the_shipped_presets_are_main_flow_minimal_and_bugfix() {
    assert_eq!(shipped_names(), vec!["bugfix", "main-flow", "minimal"]);
    assert_eq!(DEFAULT, "main-flow");
    let main = shipped("main-flow").unwrap();
    for stage in ["grill", "spec", "tickets", "implement", "review"] {
        assert!(main.contents.contains(&format!("name = \"{stage}\"")));
    }
    assert!(main.contents.contains("description ="));
    assert!(main.contents.contains("command ="));
    assert!(main.contents.contains("artifact ="));
    let bugfix = shipped("bugfix").unwrap();
    assert!(bugfix.contents.contains("name = \"bugfix\""));
    for stage in ["reproduce", "diagnose", "fix", "verify"] {
        assert!(bugfix.contents.contains(&format!("name = \"{stage}\"")));
    }
    assert!(shipped("nonsense").is_none());
    assert_eq!(catalog().len(), 3);
}

#[test]
fn a_nearer_preset_shadows_a_farther_one_and_says_so() {
    let found = vec![
        candidate(Layer::Project("/r/.flow/presets".to_string()), "main-flow", "The project's own."),
        candidate(Layer::User, "house", "The house style."),
        candidate(Layer::User, "main-flow", "The user's own."),
    ];
    let all = candidates(found);
    assert_eq!(all.len(), 6);
    assert_eq!(all[3].layer, Layer::Shipped);
    let presets = discover(&all);
    let names: Vec<&str> = presets.iter().map(|p| p.name.as_str()).collect();
    assert_eq!(names, vec!["bugfix", "house", "main-flow", "minimal"]);
    let main = &presets[2];
    assert_eq!(main.description, "The project's own.");
    assert_eq!(main.layer, Layer::Project("/r/.flow/presets".to_string()));
    let shipped_description = shipped("main-flow").unwrap().description;
    assert_eq!(
        main.shadowed,
        vec![
            Shadowed { layer: Layer::User, description: "The user's own.".to_string() },
            Shadowed { layer: Layer::Shipped, description: shipped_description.to_string() },
        ]
    );
    assert_eq!(presets[1].layer, Layer::User);
    let out = presets_report(&presets, "main-flow", &vec![("garbled.toml".to_string(), "not TOML".to_string())]);
    assert!(out.contains("  * main-flow    The project's own.   (project (/r/.flow/presets))\n"));
    assert!(out.contains(&format!(
        "      project (/r/.flow/presets) shadows The user's own. (user); {shipped_description} (shipped)\n"
    )));
    assert!(out.contains("    house        The house style.   (user)\n"));
    assert!(out.contains("\nSkipped:\n  garbled.toml: not TOML\n"));
    assert!(out.contains("preset = "));
}

#[test]
fn a_preset_must_declare_stages_and_its_own_name() {
    let f = flow_of(vec![stage("do", "/do", None)]);
    assert!(check_preset("main-flow", &f).is_ok());
    assert!(check_preset("misnamed", &f).unwrap_err().contains("misnamed"));
    assert_eq!(check_preset("main-flow", &flow_of(Vec::new())).unwrap_err(), "declares no stages");
}

#[test]
fn the_project_layer_walks_up_to_the_repository_or_home() {
    let dirs = project_dirs("/home/me/repo/packages/api", Some("/home/me"), &vec![false, false, true]);
    assert_eq!(
        dirs,
        vec![
            "/home/me/repo/packages/api/.flow/presets",
            "/home/me/repo/packages/.flow/presets",
            "/home/me/repo/.flow/presets",
            "/home/me/.flow/presets",
        ]
    );
    let alone = project_dirs("/tmp/x", None, &Vec::new());
    assert_eq!(alone, vec!["/tmp/x/.flow/presets"]);
}

#[test]
fn commands_work_from_a_subdirectory_of_the_repo() {
    assert_eq!(find_root("/r/a/b", &vec![false, false, true]), "/r");
    assert_eq!(find_root("/r/a/b", &vec![false, false, false, false]), "/r/a/b");
}

#[test]
fn paths_join_and_walk_up_as_std_does() {
    assert_eq!(join("/r", ".flow"), "/r/.flow");
    assert_eq!(join("/r/", "x"), "/r/x");
    assert_eq!(join("/r", "/abs"), "/abs");
    assert_eq!(parent("/a/b"), Some("/a".to_string()));
    assert_eq!(parent("/"), None);
    assert_eq!(parent("a"), Some(String::new()));
    assert_eq!(ancestors("/a/b"), vec!["/a/b", "/a", "/"]);
    assert_eq!(rel("/r", "/r/.flow/flow.toml"), ".flow/flow.toml");
    assert_eq!(rel("/r/", "/r/AGENTS.md"), "AGENTS.md");
    assert_eq!(rel("/r", "/elsewhere/x"), "/elsewhere/x");
    assert_eq!(flow_dir("/r"), "/r/.flow");
    assert_eq!(flow_path("/r"), "/r/.flow/flow.toml");
    assert_eq!(runs_dir("/r"), "/r/.flow/runs");
}

#[test]
fn tracker_artifacts_are_recognised() {
    assert!(is_tracker_artifact("tracker:issue"));
    assert!(!is_tracker_artifact(".flow/artifacts/x/grill.md"));
}

#[test]
fn user_settings_live_under_xdg_or_home() {
    assert_eq!(user_config_path(Some("/x"), Some("/h")), Some("/x/flow/config.toml".to_string()));
    assert_eq!(user_config_path(Some(""), Some("/h")), Some("/h/.config/flow/config.toml".to_string()));
    assert_eq!(user_presets_dir(None, Some("/h")), Some("/h/.config/flow/presets".to_string()));
    assert_eq!(user_config_path(None, None), None);
    assert!(USER_CONFIG_STARTER.contains("[agents.my-agent]"));
    assert!(USER_CONFIG_STARTER.contains("guard_env"));
}

#[test]
fn a_repo_may_override_the_users_agent_by_name() {
    let mut flow = empty_flow();
    flow.agents = vec![("test".to_string(), launcher(&["repo"]))];
    let user = UserConfig {
        agent: "test".to_string(),
        preset: String::new(),
        agents: vec![("test".to_string(), launcher(&["user"])), ("other".to_string(), launcher(&["o"]))],
    };
    let s = Settings::resolve(&flow, None, user, Some("/x/flow/config.toml".to_string()), true);
    let (name, l) = s.launcher().unwrap();
    assert_eq!(name, "test");
    assert_eq!(l.command, vec!["repo"]);
    assert_eq!(s.agent_source, Source::User);
    assert_eq!(s.agents.len(), 2);
    assert_eq!(s.agents[0].0, "other");
    assert_eq!(s.agents[1].1 .1, Source::Repo);
}

#[test]
fn config_names_both_files_and_where_each_setting_came_from() {
    let user = UserConfig { agent: "test".to_string(), preset: String::new(), agents: vec![("test".to_string(), launcher(&["sh", "-c"]))] };
    let s = Settings::resolve(&empty_flow(), None, user, Some("/x/flow/config.toml".to_string()), true);
    let out = config_report(&s, "/r/.flow/flow.toml", true, &Vec::new());
    assert!(out.contains("  /x/flow/config.toml\n"));
    assert!(out.contains("  /r/.flow/flow.toml\n"));
    assert!(out.contains("\nDefault agent: test   (from user config)\n"));
    assert!(out.contains("\nAgents:\n  * test  sh -c   (from user config)\n"));
}

#[test]
fn config_says_so_when_the_user_config_is_missing() {
    let user = UserConfig { agent: String::new(), preset: String::new(), agents: Vec::new() };
    let s = Settings::resolve(&empty_flow(), None, user, Some("/x/flow/config.toml".to_string()), false);
    let out = config_report(&s, "/r/.flow/flow.toml", false, &Vec::new());
    assert!(out.contains("does not exist"));
    assert!(out.contains("flow config --init"));
    assert!(out.contains("(no flow here — `flow init`)"));
    assert!(out.contains("Default agent: none"));
}

#[test]
fn a_run_file_round_trips_through_its_text() {
    let text = render_run_text("slug = \"x\"\n", "  where we are \n", "### a\n\nb\n\n\n");
    assert_eq!(text, "+++\nslug = \"x\"\n+++\n\n## Where we are\n\nwhere we are\n\n## Log\n\n### a\n\nb\n");
    let back = split_run_text(&text).unwrap();
    assert_eq!(back.frontmatter, "slug = \"x\"");
    assert_eq!(back.handoff, "where we are");
    assert_eq!(back.log, "### a\n\nb");
}

#[test]
fn a_run_file_without_fences_is_refused() {
    assert!(matches!(split_run_text("slug = 1"), Err(FlowError::MissingOpeningFence)));
    assert!(matches!(split_run_text("+++\nslug = 1\n"), Err(FlowError::MissingClosingFence)));
}

#[test]
fn a_handoff_quoting_the_log_heading_does_not_swallow_the_log() {
    let log = "### 2024-05-01T10:00:00Z — Started.\n\n### 2024-05-01T11:00:00Z — `grill` done → `spec`\n\nFIRST\n";
    let text = render_run_text("slug = \"x\"\n", "See the ## Log section below for history", log);
    let back = split_run_text(&text).unwrap();
    let shown = format!("{}\n{}", back.handoff, back.log);
    assert!(shown.contains("FIRST"));
    assert!(shown.contains("Started."));
    let (h, l) = split_body("## Where we are\n\nFIRST\n\n## Log\n\n### Started.\n");
    assert_eq!(h, "FIRST");
    assert_eq!(l, "### Started.");
}

#[test]
fn several_active_runs_are_disambiguated_by_the_pointer_or_by_name() {
    let flow = flow_of(vec![stage("do", "/do", None)]);
    let mut a = Run::new_at("first".to_string(), "First".to_string(), String::new(), &flow, "t");
    a.path = Run::path_for("/r", "first");
    let mut b = Run::new_at("second".to_string(), "Second".to_string(), String::new(), &flow, "t");
    b.path = Run::path_for("/r", "second");
    let runs = vec![a, b];
    assert_eq!(resolve(&runs, "/r", None, Some("second")).unwrap(), 1);
    assert_eq!(resolve(&runs, "/r", Some("first"), Some("second")).unwrap(), 0);
    let e = resolve(&runs, "/r", None, None).unwrap_err();
    assert!(matches!(e, FlowError::SeveralActive { .. }));
    assert!(e.message().contains("flow switch"));
    assert!(matches!(resolve(&runs, "/r", Some("nope"), None), Err(FlowError::NoSuchRun { .. })));
    assert!(matches!(resolve(&Vec::new(), "/r", None, None), Err(FlowError::NoActiveRuns)));
}

#[test]
fn a_finished_current_run_stops_being_followed() {
    let flow = flow_of(vec![stage("do", "/do", None)]);
    let mut a = Run::new_at("first".to_string(), "First".to_string(), String::new(), &flow, "t");
    a.path = Run::path_for("/r", "first");
    let mut b = Run::new_at("second".to_string(), "Second".to_string(), String::new(), &flow, "t");
    b.path = Run::path_for("/r", "second");
    a.finish(None, "t").unwrap();
    assert_eq!(resolve(&vec![a, b], "/r", None, Some("first")).unwrap(), 1);
}

#[test]
fn every_refusal_names_what_it_is_about() {
    let cases = vec![
        (FlowError::NoFlowAgent, "no agent configured — add an [agents.<name>] table to .flow/flow.toml"),
        (FlowError::EmptyCommand { agent: "x".to_string() }, "agent `x` declares an empty command"),
        (FlowError::UnknownFlowAgent { agent: "x".to_string(), known: Vec::new() }, "no agent called `x` — .flow/flow.toml declares: none"),
        (FlowError::NoStages { path: "/r/.flow/flow.toml".to_string() }, "/r/.flow/flow.toml declares no stages"),
        (FlowError::NoSuchRun { slug: "nope".to_string() }, "no run called `nope` — try `flow status`"),
        (FlowError::NotOptional { stage: "grill".to_string() }, "`grill` is not optional — mark it optional in .flow/flow.toml, or use `flow done`"),
        (FlowError::NotBehind { stage: "review".to_string() }, "`review` is not behind the current stage — `flow back` only moves backwards"),
        (FlowError::RunExists { slug: "a".to_string(), path: "/p".to_string() }, "a run called `a` already exists at /p"),
        (FlowError::SwitchToFinished { slug: "a".to_string() }, "`a` is finished — bring it back with `flow reopen a` instead"),
        (FlowError::MissingClosingFence, "missing closing `+++` frontmatter fence"),
        (FlowError::ClockUnreadable, "the system clock reads before 1970, or past any date a stamp can hold"),
    ];
    for (e, m) in cases {
        assert_eq!(e.message(), m);
    }
}

/// A shipped preset read as the program reads a flow file.
fn flow_from_toml(raw: &str) -> Flow {
    let v: toml::Value = toml::from_str(raw).expect("a shipped preset is valid TOML");
    let text = |t: &toml::Value, k: &str| t.get(k).and_then(|x| x.as_str()).unwrap_or("").to_string();
    let stages = v
        .get("stage")
        .and_then(|s| s.as_array())
        .expect("a shipped preset declares stages")
        .iter()
        .map(|s| Stage {
            name: text(s, "name"),
            description: text(s, "description"),
            command: text(s, "command"),
            artifact: s.get("artifact").and_then(|x| x.as_str()).map(|x| x.to_string()),
            optional: s.get("optional").and_then(|x| x.as_bool()).unwrap_or(false),
            repeatable: s.get("repeatable").and_then(|x| x.as_bool()).unwrap_or(false),
            agents: Vec::new(),
        })
        .collect();
    Flow { name: text(&v, "name"), description: text(&v, "description"), agent: String::new(), agents: Vec::new(), stages }
}

#[test]
fn every_built_in_preset_actually_works() {
    assert!(!catalog().is_empty(), "no presets were embedded");
    for preset in catalog() {
        let flow = flow_from_toml(preset.contents);
        assert_eq!(flow.name, preset.name);
        assert_eq!(flow.description, preset.description);
        assert!(check_preset(preset.name, &flow).is_ok());
        assert!(flow.check_stages("preset").is_ok());
        let mut run = Run::new_at("thing".to_string(), "Thing".to_string(), String::new(), &flow, "t");
        assert_eq!(run.current_index(), Some(0));
        run.done(Some("n"), None, "t").unwrap();
        assert_eq!(run.progress().0, 1);
    }
}

#[test]
fn the_committed_flow_carries_no_agent_of_its_own() {
    for preset in catalog() {
        let flow = flow_from_toml(preset.contents);
        assert!(flow.agent.is_empty());
        assert!(!preset.contents.contains("[agents"));
    }
}

#[test]
fn the_default_preset_has_the_five_main_flow_stages() {
    let flow = flow_from_toml(shipped(DEFAULT).unwrap().contents);
    let names: Vec<&str> = flow.stages.iter().map(|s| s.name.as_str()).collect();
    assert_eq!(names, vec!["grill", "spec", "tickets", "implement", "review"]);
    assert_eq!(flow.stages[0].command, "/grill-with-docs");
    assert_eq!(flow.stages[0].artifact.as_deref(), Some(".flow/artifacts/{slug}/grill.md"));
    assert_eq!(flow.stages[1].artifact.as_deref(), Some("tracker:issue"));
    assert!(flow.stages[2].optional);
}

#[test]
fn a_flow_resolves_its_launchers_by_name_then_default_then_the_only_one() {
    let mut flow = flow_of(vec![stage("do", "/do", None)]);
    assert!(matches!(flow.launcher(None), Err(FlowError::NoFlowAgent)));
    flow.agents = vec![("only".to_string(), launcher(&["run-it"]))];
    let (name, l) = flow.launcher(None).unwrap();
    assert_eq!(name, "only");
    assert_eq!(l.command, vec!["run-it"]);
    match flow.launcher(Some("nope")) {
        Err(FlowError::UnknownFlowAgent { agent, known }) => {
            assert_eq!(agent, "nope");
            assert_eq!(known, vec!["only".to_string()]);
        }
        other => panic!("expected a refusal, got {other:?}"),
    }
    flow.agents.push(("quiet".to_string(), launcher(&[])));
    flow.agent = "quiet".to_string();
    match flow.launcher(None) {
        Err(FlowError::EmptyCommand { agent }) => assert_eq!(agent, "quiet"),
        other => panic!("expected a refusal, got {other:?}"),
    }
}

#[test]
fn a_flow_without_stages_is_refused_naming_its_file() {
    let e = flow_of(Vec::new()).check_stages("/r/.flow/flow.toml").unwrap_err();
    assert_eq!(e.message(), "/r/.flow/flow.toml declares no stages");
    assert!(flow_of(vec![stage("do", "/do", None)]).check_stages("x").is_ok());
}

#[test]
fn a_default_agent_with_an_empty_command_is_refused() {
    let user = UserConfig { agent: "quiet".to_string(), preset: String::new(), agents: vec![("quiet".to_string(), launcher(&[]))] };
    let s = Settings::resolve(&empty_flow(), None, user, None, false);
    match s.launcher() {
        Err(FlowError::EmptyCommand { agent }) => assert_eq!(agent, "quiet"),
        other => panic!("expected a refusal, got {other:?}"),
    }
}

#[test]
fn the_only_agent_there_is_becomes_the_default() {
    let user = UserConfig { agent: String::new(), preset: String::new(), agents: vec![("solo".to_string(), launcher(&["s"]))] };
    let s = Settings::resolve(&empty_flow(), None, user, None, false);
    assert_eq!(s.agent, "solo");
    assert_eq!(s.agent_source, Source::User);
    let user = UserConfig { agent: "solo".to_string(), preset: String::new(), agents: vec![("solo".to_string(), launcher(&["s"]))] };
    let s = Settings::resolve(&empty_flow(), Some("other"), user, None, false);
    assert_eq!(s.agent, "other");
    assert_eq!(s.agent_source, Source::Flag);
    assert_eq!(Source::Flag.describe(), "--agent flag");
    assert_eq!(Source::Unset.describe(), "unset");
}

#[test]
fn layers_are_named_for_a_column_and_in_full() {
    assert_eq!(Layer::Project("/r/.flow/presets".to_string()).label(), "project");
    assert_eq!(Layer::Project("/r/.flow/presets".to_string()).describe(), "project (/r/.flow/presets)");
    assert_eq!(Layer::User.describe(), "user");
    assert_eq!(Layer::Shipped.label(), "shipped");
}

#[test]
fn preset_files_are_toml_files_in_name_order() {
    let names = vec!["README.md".to_string(), "b.toml".to_string(), ".main-flow.toml.swp".to_string(), "a.toml".to_string(), ".toml".to_string()];
    assert_eq!(runflow::listing::preset_files(names), vec!["a.toml", "b.toml"]);
    assert_eq!(runflow::listing::preset_stem("house.toml"), "house");
}

#[test]
fn a_bare_command_reaches_a_finished_current_run_when_nothing_else_is_active() {
    let flow = flow_of(vec![stage("do", "/do", None), stage("then", "/then", None)]);
    let mut a = Run::new_at("auth-rework".to_string(), "Auth rework".to_string(), String::new(), &flow, "t");
    a.path = Run::path_for("/r", "auth-rework");
    a.finish(Some("shipped"), "t").unwrap();
    let mut runs = vec![a];
    let i = resolve(&runs, "/r", None, Some("auth-rework")).unwrap();
    assert_eq!(i, 0);
    let e = runs[i].done(Some("more"), None, "t").unwrap_err();
    assert!(e.message().contains("flow reopen"));
    assert!(runs[i].back(None, Some("no"), "t").unwrap_err().message().contains("flow reopen"));
    assert!(runs[i].skip(&flow, Some("no"), "t").unwrap_err().message().contains("flow reopen"));
    runs[i].reopen(Some("review found a hole"), "t").unwrap();
    runs[i].done(Some("now it works"), None, "t").unwrap();
    assert!(matches!(resolve(&runs, "/r", None, None), Ok(0)));
    let mut lone = runs.remove(0);
    lone.finish(None, "t").unwrap();
    assert!(matches!(resolve(&vec![lone], "/r", None, None), Err(FlowError::NoActiveRuns)));
}

#[test]
fn a_named_run_is_found_by_its_file() {
    let flow = flow_of(vec![stage("do", "/do", None)]);
    let mut a = Run::new_at("renamed-inside".to_string(), "A".to_string(), String::new(), &flow, "t");
    a.path = Run::path_for("/r", "on-disk");
    let runs = vec![a];
    assert_eq!(resolve(&runs, "/r", Some("on-disk"), None).unwrap(), 0);
    assert!(matches!(resolve(&runs, "/r", Some("renamed-inside"), None), Err(FlowError::NoSuchRun { .. })));
}

#[test]
fn the_user_presets_directory_stands_beside_the_user_config() {
    for (xdg, home) in [(Some("/x"), Some("/h")), (Some("/x/"), None), (Some(""), Some("/h")), (None, Some("rel")), (None, None)] {
        let config = user_config_path(xdg, home);
        let presets = user_presets_dir(xdg, home);
        let beside = config.map(|p| std::path::Path::new(&p).parent().unwrap().join("presets").to_string_lossy().into_owned());
        assert_eq!(presets, beside);
    }
}

#[test]
fn a_flow_knows_whether_its_agent_tables_are_in_name_order() {
    let launcher = |c: &str| Launcher { command: vec![c.to_string()], guard_env: Vec::new() };
    let mut flow = flow_of(vec![stage("do", "/do", None)]);
    assert!(flow.has_ordered_tables());
    assert!(empty_flow().has_ordered_tables());
    flow.agents = vec![("a".to_string(), launcher("a")), ("b".to_string(), launcher("b"))];
    assert!(flow.has_ordered_tables());
    flow.stages[0].agents = vec![("b".to_string(), "/x".to_string()), ("a".to_string(), "/y".to_string())];
    assert!(!flow.has_ordered_tables());
    flow.stages[0].agents = vec![("a".to_string(), "/y".to_string())];
    flow.agents = vec![("b".to_string(), launcher("b")), ("b".to_string(), launcher("c"))];
    assert!(!flow.has_ordered_tables());
}
