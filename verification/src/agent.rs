//! Handing the current stage to an agent: the prompt it is told, the argv
//! its launcher becomes, and the decision between printing the prompt and
//! launching. Launching itself, and reading the environment, happen outside.
use crate::config::Settings;
use crate::drift::drift_view;
use crate::error::FlowError;
use crate::flow::{is_tracker_spec, opt_view, Flow, Launcher, Stage};
use crate::run::{current_spec, Drift, Run, RunStatus};
use crate::text::{decimal, owned, push_str, replace, replace_seq, trim, trim_seq, views};
use vstd::prelude::*;

verus! {

/// The closing lines of every prompt.
pub const RECORDING_TAIL: &'static str = "\n\nDo not record it until it is done. The file outlives this session, and a lie in it costs a later session real time.\n";

/// The `--artifact` part of the recording line: the stage's artifact for the
/// run, unless there is none or it lives on a tracker.
pub open spec fn artifact_flag(stage: Stage, slug: Seq<char>) -> Seq<char> {
    match stage.artifact_for_spec(slug) {
        Some(a) => if is_tracker_spec(a) {
            Seq::empty()
        } else {
            " --artifact "@ + a
        },
        None => Seq::empty(),
    }
}

/// The command the prompt opens with, followed by a blank line; nothing
/// when the stage has no command.
pub open spec fn command_part(command: Seq<char>) -> Seq<char> {
    if command.len() == 0 {
        Seq::empty()
    } else {
        command + "\n\n"@
    }
}

/// Who the run is and which stage this is.
pub open spec fn intro_part(run: Run, index: int, total: nat, name: Seq<char>, description: Seq<char>) -> Seq<
    char,
> {
    "You are working on `"@ + run.meta.slug@ + "` ("@ + run.meta.title@ + ")"@ + (if run.meta.kind@.len()
        == 0 {
        Seq::<char>::empty()
    } else {
        ", a "@ + run.meta.kind@
    }) + ".\nStage "@ + decimal((index + 1) as nat) + " of "@ + decimal(total) + ": **"@ + name
        + "** — "@ + description + "\n"@
}

/// The handoff the last session left, under its heading; nothing when blank.
pub open spec fn handoff_part(handoff: Seq<char>) -> Seq<char> {
    if trim_seq(handoff).len() == 0 {
        Seq::empty()
    } else {
        "\n## Where we are\n\n"@ + trim_seq(handoff) + "\n"@
    }
}

/// The exact line that records the stage.
pub open spec fn recording_part(slug: Seq<char>, stage: Stage) -> Seq<char> {
    "\n## Recording\n\nWhen this stage is genuinely complete:\n\n    flow done "@ + slug
        + " -m \"<where this leaves the work, for someone who has never seen it>\""@ + artifact_flag(
        stage,
        slug,
    ) + RECORDING_TAIL@
}

/// What the agent is told for stage `index` of `flow` on `run`: the stage's
/// command first (for `agent`), so it reads as an instruction, then who the
/// run is and which stage this is, the handoff, and the exact line to record
/// the stage with.
pub open spec fn prompt_spec(flow: Flow, run: Run, index: int, agent: Option<Seq<char>>) -> Seq<char> {
    let stage = flow.stages@[index];
    command_part(stage.command_for_spec(agent)) + intro_part(
        run,
        index,
        flow.stages@.len(),
        stage.name@,
        stage.description@,
    ) + handoff_part(run.handoff@) + recording_part(run.meta.slug@, stage)
}

fn intro_text(run: &Run, index: usize, total: usize, name: &str, description: &str) -> (r: String)
    requires
        index < total,
    ensures
        r@ == intro_part(*run, index as int, total as nat, name@, description@),
{
    let mut out = owned("You are working on `");
    push_str(&mut out, run.meta.slug.as_str());
    push_str(&mut out, "` (");
    push_str(&mut out, run.meta.title.as_str());
    push_str(&mut out, ")");
    if !run.meta.kind.as_str().is_empty() {
        push_str(&mut out, ", a ");
        push_str(&mut out, run.meta.kind.as_str());
    }
    push_str(&mut out, ".\nStage ");
    let n = crate::text::decimal_string(index + 1);
    push_str(&mut out, n.as_str());
    push_str(&mut out, " of ");
    let t = crate::text::decimal_string(total);
    push_str(&mut out, t.as_str());
    push_str(&mut out, ": **");
    push_str(&mut out, name);
    push_str(&mut out, "** — ");
    push_str(&mut out, description);
    push_str(&mut out, "\n");
    proof {
        if run.meta.kind@.len() == 0 {
            reveal_strlit("");
        }
    }
    assert(out@ =~= intro_part(*run, index as int, total as nat, name@, description@));
    out
}

/// The handoff under its heading, or nothing.
pub fn handoff_text(handoff: &str) -> (r: String)
    ensures
        r@ == handoff_part(handoff@),
{
    let h = trim(handoff);
    if h.as_str().is_empty() {
        String::new()
    } else {
        let mut out = owned("\n## Where we are\n\n");
        push_str(&mut out, h.as_str());
        push_str(&mut out, "\n");
        out
    }
}

fn recording_text(slug: &str, stage: &Stage) -> (r: String)
    ensures
        r@ == recording_part(slug@, *stage),
{
    let mut out = owned("\n## Recording\n\nWhen this stage is genuinely complete:\n\n    flow done ");
    push_str(&mut out, slug);
    push_str(&mut out, " -m \"<where this leaves the work, for someone who has never seen it>\"");
    let ghost p = out@;
    match stage.artifact_for(slug) {
        Some(a) => {
            if !crate::flow::is_tracker_artifact(a.as_str()) {
                push_str(&mut out, " --artifact ");
                push_str(&mut out, a.as_str());
            }
        },
        None => {},
    }
    assert(out@ =~= p + artifact_flag(*stage, slug@));
    push_str(&mut out, RECORDING_TAIL);
    out
}

/// The prompt for stage `index` of `flow` on `run`, with `agent`'s command.
pub fn build_prompt(flow: &Flow, run: &Run, index: usize, agent: Option<&str>) -> (r: String)
    requires
        index < flow.stages@.len(),
    ensures
        r@ == prompt_spec(*flow, *run, index as int, opt_view(agent)),
{
    let total: usize = flow.stages.len();
    let stage = &flow.stages[index];
    let mut out = String::new();
    let command = stage.command_for(agent);
    if !command.is_empty() {
        push_str(&mut out, command);
        push_str(&mut out, "\n\n");
    }
    assert(out@ =~= command_part(stage.command_for_spec(opt_view(agent))));
    let intro = intro_text(run, index, total, stage.name.as_str(), stage.description.as_str());
    push_str(&mut out, intro.as_str());
    let h = handoff_text(run.handoff.as_str());
    push_str(&mut out, h.as_str());
    let rec = recording_text(run.meta.slug.as_str(), stage);
    push_str(&mut out, rec.as_str());
    out
}

/// The first guard variable whose flag in `set` is up, if any.
pub open spec fn first_set(names: Seq<Seq<char>>, set: Seq<bool>) -> Option<int> {
    if exists|i: int| 0 <= i < names.len() && i < set.len() && set[i] {
        Some(
            choose|i: int|
                0 <= i < names.len() && i < set.len() && set[i] && forall|j: int|
                    0 <= j < i ==> !(j < set.len() && set[j]),
        )
    } else {
        None
    }
}

/// The first of the launcher's guard variables that is set — `set[i]` says
/// whether guard variable `i` is present in the environment — if any. Its
/// presence means an agent is already running here.
pub fn nesting_marker<'a>(launcher: &'a Launcher, set: &Vec<bool>) -> (r: Option<&'a str>)
    ensures
        match first_set(views(launcher.guard_env@), set@) {
            Some(i) => r matches Some(m) && m@ == launcher.guard_env@[i]@,
            None => r is None,
        },
{
    let mut i: usize = 0;
    while i < launcher.guard_env.len()
        invariant
            i <= launcher.guard_env@.len(),
            forall|j: int| 0 <= j < i ==> !(j < set@.len() && set@[j]),
        decreases launcher.guard_env.len() - i,
    {
        if i < set.len() && set[i] {
            proof {
                let names = views(launcher.guard_env@);
                let k = choose|k: int|
                    0 <= k < names.len() && k < set@.len() && set@[k] && forall|j: int|
                        0 <= j < k ==> !(j < set@.len() && set@[j]);
                assert(0 <= k < names.len() && k < set@.len() && set@[k]);
                if k < i {
                    assert(!(k < set@.len() && set@[k]));
                }
                if i < k {
                    assert(!(i < set@.len() && set@[i as int]));
                }
            }
            return Some(launcher.guard_env[i].as_str());
        }
        i = i + 1;
    }
    proof {
        let names = views(launcher.guard_env@);
        if exists|k: int| 0 <= k < names.len() && k < set@.len() && set@[k] {
            let k = choose|k: int| 0 <= k < names.len() && k < set@.len() && set@[k];
            assert(!(k < set@.len() && set@[k]));
        }
    }
    None
}

/// One argument of the launcher with `{prompt}`, then `{slug}`, then
/// `{stage}` substituted.
pub open spec fn substituted(arg: Seq<char>, prompt: Seq<char>, slug: Seq<char>, stage: Seq<char>) -> Seq<
    char,
> {
    replace_seq(
        replace_seq(replace_seq(arg, "{prompt}"@, prompt), "{slug}"@, slug),
        "{stage}"@,
        stage,
    )
}

/// The argv the launcher becomes for this prompt, run and stage.
pub fn launch_argv(launcher: &Launcher, prompt: &str, slug: &str, stage: &str) -> (r: Vec<String>)
    ensures
        r@.len() == launcher.command@.len(),
        forall|i: int|
            0 <= i < r@.len() ==> (#[trigger] r@[i])@ == substituted(
                launcher.command@[i]@,
                prompt@,
                slug@,
                stage@,
            ),
{
    proof {
        reveal_strlit("{prompt}");
        reveal_strlit("{slug}");
        reveal_strlit("{stage}");
    }
    let mut r: Vec<String> = Vec::new();
    let mut i: usize = 0;
    while i < launcher.command.len()
        invariant
            i <= launcher.command@.len(),
            r@.len() == i,
            "{prompt}"@.len() > 0,
            "{slug}"@.len() > 0,
            "{stage}"@.len() > 0,
            forall|j: int|
                0 <= j < i ==> (#[trigger] r@[j])@ == substituted(
                    launcher.command@[j]@,
                    prompt@,
                    slug@,
                    stage@,
                ),
        decreases launcher.command.len() - i,
    {
        let a = replace(launcher.command[i].as_str(), "{prompt}", prompt);
        let b = replace(a.as_str(), "{slug}", slug);
        let c = replace(b.as_str(), "{stage}", stage);
        r.push(c);
        i = i + 1;
    }
    r
}

/// What `flow go` does once it has decided.
#[derive(Debug)]
pub enum Handover {
    /// Print this and launch nothing.
    Print(String),
    /// Say `announce`, then run `argv` in the repo.
    Launch { agent: String, announce: String, argv: Vec<String> },
}

/// What is printed instead of launching inside a running agent.
pub open spec fn nested_text(marker: Seq<char>, prompt: Seq<char>) -> Seq<char> {
    "`"@ + marker
        + "` is set — an agent is already running here, so `flow go` would nest a session inside a session.\n\nHand it this instead:\n\n"@
        + prompt
}

/// Whether `h` is what `flow go` decides for `run` at stage `index` of
/// `flow`, with the launcher `launcher` of the agent called `name`.
pub open spec fn handover_for(
    h: Handover,
    flow: Flow,
    run: Run,
    index: int,
    name: Seq<char>,
    launcher: Launcher,
    print_only: bool,
    set: Seq<bool>,
) -> bool {
    let prompt = prompt_spec(flow, run, index, Some(name));
    if print_only {
        (h matches Handover::Print(t) && t@ == prompt)
    } else {
        match first_set(views(launcher.guard_env@), set) {
            Some(i) => (h matches Handover::Print(t) && t@ == nested_text(
                launcher.guard_env@[i]@,
                prompt,
            )),
            None => (h matches Handover::Launch { agent, announce, argv } && agent@ == name
                && argv@.len() == launcher.command@.len() && (forall|k: int|
                0 <= k < argv@.len() ==> (#[trigger] argv@[k])@ == substituted(
                    launcher.command@[k]@,
                    prompt,
                    run.meta.slug@,
                    flow.stages@[index].name@,
                )) && announce@ == "→ "@ + name + ": "@ + argv@[0]@ + "\n"@),
        }
    }
}

/// The stage of `run` there is to hand to an agent: the one it is on.
/// Refused when no stage is in flight, and when the run is finished.
pub fn stage_to_hand_over(run: &Run) -> (r: Result<usize, FlowError>)
    ensures
        match current_spec(run.meta.stages@) {
            None => r matches Err(FlowError::NothingToHandOver { slug }) && slug@ == run.meta.slug@,
            Some(index) => if run.meta.status == RunStatus::Finished {
                r matches Err(FlowError::RunFinished { slug }) && slug@ == run.meta.slug@
            } else {
                r matches Ok(i) && i == index
            },
        },
{
    let index = match run.current_index() {
        Some(i) => i,
        None => {
            return Err(FlowError::NothingToHandOver { slug: run.meta.slug.clone() });
        },
    };
    if run.is_finished() {
        return Err(FlowError::RunFinished { slug: run.meta.slug.clone() });
    }
    Ok(index)
}

/// Hand the current stage of `run` to the agent `settings` resolves: the
/// prompt to print (with `print_only`, or inside an agent that is already
/// running — `set[i]` says whether the launcher's guard variable `i` is in
/// the environment), else the argv to launch. Refused when no stage is in
/// flight, when the run is finished, and when no usable launcher resolves.
pub fn hand_over(flow: &Flow, run: &Run, settings: &Settings, print_only: bool, set: &Vec<bool>) -> (r:
    Result<Handover, FlowError>)
    requires
        current_spec(run.meta.stages@) matches Some(i) ==> i < flow.stages@.len(),
    ensures
        match current_spec(run.meta.stages@) {
            None => r matches Err(FlowError::NothingToHandOver { slug }) && slug@ == run.meta.slug@,
            Some(index) => if run.meta.status == RunStatus::Finished {
                r matches Err(FlowError::RunFinished { slug }) && slug@ == run.meta.slug@
            } else {
                match crate::config::usable_launcher(*settings) {
                    None => r matches Err(e) && crate::config::launcher_refusal(*settings, e),
                    Some(i) => r matches Ok(h) && handover_for(
                        h,
                        *flow,
                        *run,
                        index,
                        settings.agents@[i].0@,
                        settings.agents@[i].1.0,
                        print_only,
                        set@,
                    ),
                }
            },
        },
{
    let index = match stage_to_hand_over(run) {
        Ok(i) => i,
        Err(e) => {
            return Err(e);
        },
    };
    let (name, launcher) = match settings.launcher() {
        Ok(x) => x,
        Err(e) => {
            return Err(e);
        },
    };
    let prompt = build_prompt(flow, run, index, Some(name));
    if print_only {
        return Ok(Handover::Print(prompt));
    }
    match nesting_marker(launcher, set) {
        Some(m) => {
            let mut t = owned("`");
            push_str(&mut t, m);
            push_str(
                &mut t,
                "` is set — an agent is already running here, so `flow go` would nest a session inside a session.\n\nHand it this instead:\n\n",
            );
            push_str(&mut t, prompt.as_str());
            Ok(Handover::Print(t))
        },
        None => {
            let argv = launch_argv(
                launcher,
                prompt.as_str(),
                run.meta.slug.as_str(),
                flow.stages[index].name.as_str(),
            );
            let mut announce = owned("→ ");
            push_str(&mut announce, name);
            push_str(&mut announce, ": ");
            push_str(&mut announce, argv[0].as_str());
            push_str(&mut announce, "\n");
            Ok(Handover::Launch { agent: owned(name), announce, argv })
        },
    }
}

/// What `flow go` says once the agent has exited, from the run as it now
/// reads (`stage`, the stage it is on, if any) and the drift found on it.
/// It never records anything: an agent exiting means the session ended, not
/// that the work is done.
pub open spec fn report_spec(slug: Seq<char>, stage: Option<Seq<char>>, d: Seq<(Seq<char>, Seq<char>)>) -> Seq<
    char,
> {
    match stage {
        Some(s) => "\n`"@ + slug + "` still reads `"@ + s + "`.\n"@ + crate::lifecycle::drift_block(d,
            d.len()) + "Record it with `flow done` when it is done, or `flow go` again to carry on.\n"@,
        None => "\n`"@ + slug + "` has no stage left — close it with `flow finish`.\n"@,
    }
}

/// What `flow go` says once the agent has exited.
pub fn report_after(run: &Run, drift: &Vec<Drift>) -> (r: String)
    ensures
        r@ == report_spec(
            run.meta.slug@,
            match current_spec(run.meta.stages@) {
                Some(i) => Some(run.meta.stages@[i].name@),
                None => None,
            },
            drift_view(drift@),
        ),
{
    proof {
        crate::run::lemma_current_props(run.meta.stages@);
    }
    match run.current_stage_name() {
        Some(stage) => {
            let mut r = owned("\n`");
            push_str(&mut r, run.meta.slug.as_str());
            push_str(&mut r, "` still reads `");
            push_str(&mut r, stage);
            push_str(&mut r, "`.\n");
            let lines = crate::lifecycle::drift_lines(drift);
            push_str(&mut r, lines.as_str());
            push_str(&mut r, "Record it with `flow done` when it is done, or `flow go` again to carry on.\n");
            r
        },
        None => {
            let mut r = owned("\n`");
            push_str(&mut r, run.meta.slug.as_str());
            push_str(&mut r, "` has no stage left — close it with `flow finish`.\n");
            r
        },
    }
}

/// How an agent exited that did not succeed: its status code, or the signal
/// that stopped it.
pub open spec fn exit_text(code: Option<i32>) -> Seq<char> {
    match code {
        Some(c) => "with status "@ + (if c < 0 {
            "-"@ + decimal((-c) as nat)
        } else {
            decimal(c as nat)
        }),
        None => "on a signal"@,
    }
}

/// How an agent exited that did not succeed.
pub fn describe_exit(code: Option<i32>) -> (r: String)
    ensures
        r@ == exit_text(code),
{
    match code {
        Some(c) => {
            let mut r = owned("with status ");
            if c < 0 {
                push_str(&mut r, "-");
                let m: i64 = -(c as i64);
                let d = crate::text::decimal_string(m as usize);
                push_str(&mut r, d.as_str());
            } else {
                let d = crate::text::decimal_string(c as usize);
                push_str(&mut r, d.as_str());
            }
            r
        },
        None => owned("on a signal"),
    }
}

} // verus!
