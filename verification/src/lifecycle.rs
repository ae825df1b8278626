//! Starting a run, and what `flow next` and `flow show` say about one.
use crate::drift::drift_view;
use crate::error::FlowError;
use crate::flow::{opt_string_view, opt_view, Flow};
use crate::run::{
    current_spec, fresh_run, recorded, settled_count, slugify_spec, Drift, Run, RunStatus,
    StageStatus,
};
use crate::text::{decimal, owned, push_str, trim, trim_seq};
use vstd::prelude::*;

verus! {

/// The first `n` drift entries, one line each.
pub open spec fn drift_block(d: Seq<(Seq<char>, Seq<char>)>, n: nat) -> Seq<char>
    decreases n,
{
    if n == 0 {
        Seq::empty()
    } else {
        drift_block(d, (n - 1) as nat) + "  ! "@ + d[n - 1].0 + ": "@ + d[n - 1].1 + "\n"@
    }
}

/// Every drift entry, one line each.
pub fn drift_lines(drift: &Vec<Drift>) -> (r: String)
    ensures
        r@ == drift_block(drift_view(drift@), drift@.len()),
{
    let ghost d = drift_view(drift@);
    let mut r = String::new();
    let mut i: usize = 0;
    while i < drift.len()
        invariant
            i <= drift@.len(),
            d == drift_view(drift@),
            r@ == drift_block(d, i as nat),
        decreases drift.len() - i,
    {
        push_str(&mut r, "  ! ");
        push_str(&mut r, drift[i].stage.as_str());
        push_str(&mut r, ": ");
        push_str(&mut r, drift[i].message.as_str());
        push_str(&mut r, "\n");
        i = i + 1;
        assert(r@ =~= drift_block(d, i as nat));
    }
    r
}

/// The heading of a stage: which stage of how many, then its name and
/// description.
pub open spec fn stage_heading(title: Seq<char>, i: int, total: nat, name: Seq<char>, description: Seq<
    char,
>) -> Seq<char> {
    title + " — stage "@ + decimal((i + 1) as nat) + " of "@ + decimal(total) + "\n"@ + "\n  "@ + name
        + "\n  "@ + description + "\n"@
}

/// The command to run, when the stage has one.
pub open spec fn run_part(command: Seq<char>) -> Seq<char> {
    if command.len() == 0 {
        Seq::empty()
    } else {
        "\n  run: "@ + command + "\n"@
    }
}

/// What the stage produces, when it declares something.
pub open spec fn produces_part(artifact: Option<Seq<char>>) -> Seq<char> {
    match artifact {
        Some(a) => "  produces: "@ + a + "\n"@,
        None => Seq::empty(),
    }
}

/// How the stage `run` is on reads: which stage of how many, what it is, the
/// command to run for it (as `agent` would see it) and what it produces, then
/// the handoff; or that no stage is left.
pub open spec fn next_spec(flow: Flow, run: Run, agent: Option<Seq<char>>) -> Seq<char> {
    match current_spec(run.meta.stages@) {
        None => "`"@ + run.meta.slug@ + "` has no stages left. Close it with `flow finish`.\n"@,
        Some(i) => {
            let stage = flow.stages@[i];
            stage_heading(run.meta.title@, i, flow.stages@.len(), stage.name@, stage.description@)
                + run_part(stage.command_for_spec(agent)) + produces_part(
                stage.artifact_for_spec(run.meta.slug@),
            ) + crate::agent::handoff_part(run.handoff@)
        },
    }
}

fn heading_text(title: &str, i: usize, total: usize, name: &str, description: &str) -> (r: String)
    requires
        i < total,
    ensures
        r@ == stage_heading(title@, i as int, total as nat, name@, description@),
{
    let mut r = owned(title);
    push_str(&mut r, " — stage ");
    let n = crate::text::decimal_string(i + 1);
    push_str(&mut r, n.as_str());
    push_str(&mut r, " of ");
    let t = crate::text::decimal_string(total);
    push_str(&mut r, t.as_str());
    push_str(&mut r, "\n");
    push_str(&mut r, "\n  ");
    push_str(&mut r, name);
    push_str(&mut r, "\n  ");
    push_str(&mut r, description);
    push_str(&mut r, "\n");
    r
}

/// What to do now on `run`, shared by every command that moves a run so
/// that each describes a stage the same way.
pub fn next_text(flow: &Flow, run: &Run, agent: Option<&str>) -> (r: String)
    requires
        current_spec(run.meta.stages@) matches Some(i) ==> i < flow.stages@.len(),
    ensures
        r@ == next_spec(*flow, *run, opt_view(agent)),
{
    let index = match run.current_index() {
        Some(i) => i,
        None => {
            let mut r = owned("`");
            push_str(&mut r, run.meta.slug.as_str());
            push_str(&mut r, "` has no stages left. Close it with `flow finish`.\n");
            return r;
        },
    };
    let total: usize = flow.stages.len();
    let stage = &flow.stages[index];
    let mut r = heading_text(
        run.meta.title.as_str(),
        index,
        total,
        stage.name.as_str(),
        stage.description.as_str(),
    );
    let ghost p1 = r@;
    let command = stage.command_for(agent);
    if !command.is_empty() {
        push_str(&mut r, "\n  run: ");
        push_str(&mut r, command);
        push_str(&mut r, "\n");
    }
    assert(r@ =~= p1 + run_part(stage.command_for_spec(opt_view(agent))));
    let ghost p2 = r@;
    match stage.artifact_for(run.meta.slug.as_str()) {
        Some(a) => {
            push_str(&mut r, "  produces: ");
            push_str(&mut r, a.as_str());
            push_str(&mut r, "\n");
        },
        None => {},
    }
    assert(r@ =~= p2 + produces_part(stage.artifact_for_spec(run.meta.slug@)));
    let h = crate::agent::handoff_text(run.handoff.as_str());
    push_str(&mut r, h.as_str());
    r
}

/// What `flow next` prints: the drift on the run first, so that a session
/// that died mid-stage says so before anyone acts on its position, then the
/// stage.
pub open spec fn next_report_spec(
    flow: Flow,
    run: Run,
    agent: Option<Seq<char>>,
    d: Seq<(Seq<char>, Seq<char>)>,
) -> Seq<char> {
    (if d.len() == 0 {
        Seq::<char>::empty()
    } else {
        "drift — resolve this before continuing:\n"@ + drift_block(d, d.len()) + "\n"@
    }) + next_spec(flow, run, agent)
}

/// What `flow next` prints for `run`, with the drift found on it.
pub fn next_report(flow: &Flow, run: &Run, agent: Option<&str>, drift: &Vec<Drift>) -> (r: String)
    requires
        current_spec(run.meta.stages@) matches Some(i) ==> i < flow.stages@.len(),
    ensures
        r@ == next_report_spec(*flow, *run, opt_view(agent), drift_view(drift@)),
{
    let mut r = String::new();
    if drift.len() > 0 {
        push_str(&mut r, "drift — resolve this before continuing:\n");
        let lines = drift_lines(drift);
        push_str(&mut r, lines.as_str());
        push_str(&mut r, "\n");
    }
    let rest = next_text(flow, run, agent);
    push_str(&mut r, rest.as_str());
    assert(r@ =~= next_report_spec(*flow, *run, opt_view(agent), drift_view(drift@)));
    r
}

/// The mark in front of stage record `i` in `flow show`.
pub open spec fn show_mark(run: Run, i: int) -> Seq<char> {
    let st = run.meta.stages@[i].status;
    if st == StageStatus::Done {
        "[x]"@
    } else if st == StageStatus::Skipped {
        "[-]"@
    } else if current_spec(run.meta.stages@) == Some(i) {
        "[>]"@
    } else {
        "[ ]"@
    }
}

/// The line for stage record `i` in `flow show`.
pub open spec fn show_line(run: Run, i: int) -> Seq<char> {
    let rec = run.meta.stages@[i];
    "  "@ + show_mark(run, i) + " "@ + rec.name@ + (match rec.artifact {
        Some(a) => "  → "@ + a@,
        None => Seq::<char>::empty(),
    }) + "\n"@
}

/// The lines of the first `n` stage records.
pub open spec fn show_lines(run: Run, n: nat) -> Seq<char>
    decreases n,
{
    if n == 0 {
        Seq::empty()
    } else {
        show_lines(run, (n - 1) as nat) + show_line(run, n - 1)
    }
}

/// What `flow show` prints: the run's title and slug, its kind, flow,
/// progress and state, when it was updated, every stage with its mark, the
/// drift, the handoff and the log.
pub open spec fn show_spec(run: Run, d: Seq<(Seq<char>, Seq<char>)>) -> Seq<char> {
    let log = trim_seq(run.log@);
    run.meta.title@ + " ("@ + run.meta.slug@ + ")\n"@ + (if run.meta.kind@.len() == 0 {
        "—"@
    } else {
        run.meta.kind@
    }) + " · flow `"@ + run.meta.flow@ + "` · "@ + decimal(settled_count(run.meta.stages@)) + "/"@
        + decimal(run.meta.stages@.len()) + " stages · "@ + (if run.meta.status == RunStatus::Finished {
        "finished"@
    } else {
        "active"@
    }) + "\n"@ + "updated "@ + run.meta.updated@ + "\n\n"@ + show_lines(run, run.meta.stages@.len())
        + (if d.len() == 0 {
        Seq::<char>::empty()
    } else {
        "\ndrift:\n"@ + drift_block(d, d.len())
    }) + "\n## Where we are\n\n"@ + trim_seq(run.handoff@) + "\n"@ + (if log.len() == 0 {
        Seq::<char>::empty()
    } else {
        "\n## Log\n\n"@ + log + "\n"@
    })
}

fn show_line_of(run: &Run, i: usize, current: Option<usize>) -> (r: String)
    requires
        i < run.meta.stages@.len(),
        match current {
            Some(c) => current_spec(run.meta.stages@) == Some(c as int),
            None => current_spec(run.meta.stages@) is None,
        },
    ensures
        r@ == show_line(*run, i as int),
{
    let rec = &run.meta.stages[i];
    let mark: &str = if rec.status == StageStatus::Done {
        "[x]"
    } else if rec.status == StageStatus::Skipped {
        "[-]"
    } else {
        match current {
            Some(c) => if c == i {
                "[>]"
            } else {
                "[ ]"
            },
            None => "[ ]",
        }
    };
    let mut r = owned("  ");
    push_str(&mut r, mark);
    push_str(&mut r, " ");
    push_str(&mut r, rec.name.as_str());
    let ghost p = r@;
    match &rec.artifact {
        Some(a) => {
            push_str(&mut r, "  → ");
            push_str(&mut r, a.as_str());
        },
        None => {},
    }
    assert(r@ =~= p + match rec.artifact {
        Some(a) => "  → "@ + a@,
        None => Seq::<char>::empty(),
    });
    push_str(&mut r, "\n");
    r
}

/// What `flow show` prints for `run`, with the drift found on it.
pub fn show(run: &Run, drift: &Vec<Drift>) -> (r: String)
    ensures
        r@ == show_spec(*run, drift_view(drift@)),
{
    let mut r = owned(run.meta.title.as_str());
    push_str(&mut r, " (");
    push_str(&mut r, run.meta.slug.as_str());
    push_str(&mut r, ")\n");
    if run.meta.kind.as_str().is_empty() {
        push_str(&mut r, "—");
    } else {
        push_str(&mut r, run.meta.kind.as_str());
    }
    push_str(&mut r, " · flow `");
    push_str(&mut r, run.meta.flow.as_str());
    push_str(&mut r, "` · ");
    let (done, total) = run.progress();
    let d = crate::text::decimal_string(done);
    push_str(&mut r, d.as_str());
    push_str(&mut r, "/");
    let t = crate::text::decimal_string(total);
    push_str(&mut r, t.as_str());
    push_str(&mut r, " stages · ");
    if run.is_finished() {
        push_str(&mut r, "finished");
    } else {
        push_str(&mut r, "active");
    }
    push_str(&mut r, "\n");
    push_str(&mut r, "updated ");
    push_str(&mut r, run.meta.updated.as_str());
    push_str(&mut r, "\n\n");
    let ghost head = r@;
    let current = run.current_index();
    let mut i: usize = 0;
    while i < run.meta.stages.len()
        invariant
            i <= run.meta.stages@.len(),
            match current {
                Some(c) => current_spec(run.meta.stages@) == Some(c as int),
                None => current_spec(run.meta.stages@) is None,
            },
            r@ == head + show_lines(*run, i as nat),
        decreases run.meta.stages.len() - i,
    {
        let line = show_line_of(run, i, current);
        push_str(&mut r, line.as_str());
        i = i + 1;
        assert(r@ =~= head + show_lines(*run, i as nat));
    }
    let ghost body = r@;
    if drift.len() > 0 {
        push_str(&mut r, "\ndrift:\n");
        let lines = drift_lines(drift);
        push_str(&mut r, lines.as_str());
    }
    push_str(&mut r, "\n## Where we are\n\n");
    let h = trim(run.handoff.as_str());
    push_str(&mut r, h.as_str());
    push_str(&mut r, "\n");
    let log = trim(run.log.as_str());
    if !log.as_str().is_empty() {
        push_str(&mut r, "\n## Log\n\n");
        push_str(&mut r, log.as_str());
        push_str(&mut r, "\n");
    }
    assert(r@ =~= show_spec(*run, drift_view(drift@)));
    r
}

/// The slug a new run titled `title` gets, or why there is none: no title,
/// a blank one, or one with nothing a slug can be made from.
pub fn start_slug(title: Option<&str>) -> (r: Result<String, FlowError>)
    ensures
        match title {
            None => r matches Err(FlowError::NoTitle),
            Some(t) => if trim_seq(t@).len() == 0 {
                r matches Err(FlowError::NoTitle)
            } else if slugify_spec(t@).len() == 0 {
                r matches Err(FlowError::NoSlug { title: x }) && x@ == t@
            } else {
                r matches Ok(s) && s@ == slugify_spec(t@)
            },
        },
{
    let t = match title {
        Some(t) => t,
        None => {
            return Err(FlowError::NoTitle);
        },
    };
    if crate::text::is_blank(t) {
        return Err(FlowError::NoTitle);
    }
    let slug = crate::run::slugify(t);
    if slug.as_str().is_empty() {
        return Err(FlowError::NoSlug { title: owned(t) });
    }
    Ok(slug)
}

/// What the first handoff says when no brief was given.
pub const NO_BRIEF: &'static str = "No brief was given — the title is all there is. Find out what this work actually is, and who wants it, before doing the stage.";

/// The note a new run opens with: the brief (or, without one, a plain
/// statement that there is none), then what the first stage is and the
/// command to run for it.
pub open spec fn opening_note(flow: Flow, brief: Seq<char>) -> Seq<char> {
    let first = flow.stages@[0];
    (if trim_seq(brief).len() == 0 {
        NO_BRIEF@
    } else {
        trim_seq(brief)
    }) + "\n\n"@ + first.description@ + "\n\nRun `"@ + first.command@ + "` next."@
}

/// The headline a new run opens with.
pub open spec fn opening_headline(flow: Flow) -> Seq<char> {
    "Started. First stage is `"@ + flow.stages@[0].name@ + "`."@
}

/// A new run of `flow` titled `title`, kept at `path`, made at `stamp`: its
/// first stage in progress, and its first handoff and log entry carrying
/// the brief.
pub fn open_run(
    slug: String,
    title: String,
    kind: String,
    brief: &str,
    flow: &Flow,
    path: String,
    stamp: &str,
) -> (run: Run)
    requires
        flow.stages@.len() > 0,
    ensures
        exists|fresh: Run|
            fresh_run(fresh, slug@, title@, kind@, *flow, stamp@) && recorded(
                Run { path: path, ..fresh },
                run,
                opening_headline(*flow),
                Some(opening_note(*flow, brief@)),
                stamp@,
            ),
{
    let mut run = Run::new_at(slug, title, kind, flow, stamp);
    let ghost fresh = run;
    run.path = path;
    let first = &flow.stages[0];
    let b = trim(brief);
    let mut note = if b.as_str().is_empty() {
        owned(NO_BRIEF)
    } else {
        b
    };
    push_str(&mut note, "\n\n");
    push_str(&mut note, first.description.as_str());
    push_str(&mut note, "\n\nRun `");
    push_str(&mut note, first.command.as_str());
    push_str(&mut note, "` next.");
    let mut headline = owned("Started. First stage is `");
    push_str(&mut headline, first.name.as_str());
    push_str(&mut headline, "`.");
    assert(note@ == opening_note(*flow, brief@));
    assert(run == Run { path: path, ..fresh });
    run.record_at(headline.as_str(), Some(note.as_str()), stamp);
    run
}

/// Whether `run` can become current: a finished run cannot.
pub fn check_switch(run: &Run) -> (r: Result<(), FlowError>)
    ensures
        run.meta.status == RunStatus::Finished ==> (r matches Err(FlowError::SwitchToFinished { slug })
            && slug@ == run.meta.slug@),
        run.meta.status == RunStatus::Active ==> r is Ok,
{
    if run.is_finished() {
        Err(FlowError::SwitchToFinished { slug: run.meta.slug.clone() })
    } else {
        Ok(())
    }
}

} // verus!
