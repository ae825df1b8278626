//! Why an operation of the library refused.
use crate::text::{join_seq, owned, push_str, views};
use vstd::prelude::*;

verus! {

/// Every refusal the library makes, with what its message names.
#[derive(Debug, Clone)]
pub enum FlowError {
    /// The flow names no agent and declares no single one to fall back on.
    NoFlowAgent,
    /// Neither the command line, the repo nor the user names an agent.
    NoAgent,
    /// The chosen agent's launcher has an empty argv.
    EmptyCommand { agent: String },
    /// The flow declares no agent by that name.
    UnknownFlowAgent { agent: String, known: Vec<String> },
    /// No configured agent by that name.
    UnknownAgent { agent: String, known: Vec<String> },
    /// The flow file declares no stages.
    NoStages { path: String },
    /// No run has that slug.
    NoSuchRun { slug: String },
    /// No run is active.
    NoActiveRuns,
    /// Several runs are active and none is current.
    SeveralActive { slugs: Vec<String> },
    /// The run is finished, so nothing can be recorded against it.
    RunFinished { slug: String },
    /// Every stage of the run is settled.
    NothingInFlight { slug: String },
    /// The run's current stage is not part of the flow.
    NotAFlowStage { stage: String, flow: String },
    /// The current stage may not be skipped.
    NotOptional { stage: String },
    /// The run has no stage by that name.
    NotARunStage { stage: String },
    /// There is no stage before the current one.
    AtFirstStage { slug: String },
    /// The named stage is not before the current one.
    NotBehind { stage: String },
    /// The run is finished already.
    AlreadyFinished { slug: String },
    /// The run is active already.
    AlreadyActive { slug: String },
    /// A finished run cannot be made current.
    SwitchToFinished { slug: String },
    /// A run needs a title.
    NoTitle,
    /// The title has nothing a slug can be made from.
    NoSlug { title: String },
    /// A run with that slug exists already.
    RunExists { slug: String, path: String },
    /// The run file does not open with a frontmatter fence.
    MissingOpeningFence,
    /// The run file's frontmatter is never closed.
    MissingClosingFence,
    /// There is no stage to hand to an agent.
    NothingToHandOver { slug: String },
    /// No preset has that name.
    UnknownPreset { name: String, known: Vec<String> },
    /// The user's configured default preset resolves to nothing.
    DefaultPresetMissing { name: String },
    /// The system clock reads a time no stamp can be written for.
    ClockUnreadable,
}

/// A list of names as a message gives it: comma separated, or `none`.
pub open spec fn name_list(names: Seq<Seq<char>>) -> Seq<char> {
    if names.len() == 0 {
        "none"@
    } else {
        join_seq(names, ", "@)
    }
}

/// `` `x` `` — a name quoted the way messages quote names.
pub open spec fn quoted(x: Seq<char>) -> Seq<char> {
    "`"@ + x + "`"@
}

/// What each refusal says.
pub open spec fn message_spec(e: FlowError) -> Seq<char> {
    match e {
        FlowError::NoFlowAgent => "no agent configured — add an [agents.<name>] table to .flow/flow.toml"@,
        FlowError::NoAgent => "no agent configured — run `flow config --init` and set one up"@,
        FlowError::EmptyCommand { agent } => "agent "@ + quoted(agent@) + " declares an empty command"@,
        FlowError::UnknownFlowAgent { agent, known } => "no agent called "@ + quoted(agent@)
            + " — .flow/flow.toml declares: "@ + name_list(views(known@)),
        FlowError::UnknownAgent { agent, known } => "no agent called "@ + quoted(agent@)
            + " — configured agents: "@ + name_list(views(known@)) + ". See `flow config`."@,
        FlowError::NoStages { path } => path@ + " declares no stages"@,
        FlowError::NoSuchRun { slug } => "no run called "@ + quoted(slug@) + " — try `flow status`"@,
        FlowError::NoActiveRuns => "no active runs — start one with `flow start \"<title>\"`"@,
        FlowError::SeveralActive { slugs } => "several active runs — name one of: "@ + name_list(
            views(slugs@),
        ) + ", or make one current with `flow switch <slug>`"@,
        FlowError::RunFinished { slug } => quoted(slug@)
            + " is finished — bring it back with `flow reopen` first"@,
        FlowError::NothingInFlight { slug } => quoted(slug@)
            + " has no stage in flight — every stage is settled. Use `flow finish` or `flow back`."@,
        FlowError::NotAFlowStage { stage, flow } => quoted(stage@) + " is not a stage of flow "@
            + quoted(flow@),
        FlowError::NotOptional { stage } => quoted(stage@)
            + " is not optional — mark it optional in .flow/flow.toml, or use `flow done`"@,
        FlowError::NotARunStage { stage } => quoted(stage@) + " is not a stage of this run"@,
        FlowError::AtFirstStage { slug } => quoted(slug@) + " is already at its first stage"@,
        FlowError::NotBehind { stage } => quoted(stage@)
            + " is not behind the current stage — `flow back` only moves backwards"@,
        FlowError::AlreadyFinished { slug } => quoted(slug@) + " is already finished"@,
        FlowError::AlreadyActive { slug } => quoted(slug@) + " is already active"@,
        FlowError::SwitchToFinished { slug } => quoted(slug@)
            + " is finished — bring it back with `flow reopen "@ + slug@ + "` instead"@,
        FlowError::NoTitle => "no title — `flow start \"<title>\"`"@,
        FlowError::NoSlug { title } => quoted(title@) + " has no characters a slug can be made from"@,
        FlowError::RunExists { slug, path } => "a run called "@ + quoted(slug@) + " already exists at "@
            + path@,
        FlowError::MissingOpeningFence => "missing opening `+++` frontmatter fence"@,
        FlowError::MissingClosingFence => "missing closing `+++` frontmatter fence"@,
        FlowError::NothingToHandOver { slug } => quoted(slug@)
            + " has no stage in flight — nothing to hand over"@,
        FlowError::UnknownPreset { name, known } => "unknown preset "@ + quoted(name@)
            + " — the presets on offer are: "@ + name_list(views(known@)),
        FlowError::DefaultPresetMissing { name } => "your configured preset "@ + quoted(name@)
            + " is not on the Preset Path — point `preset` in your user config at one that exists, or remove it to use `main-flow`"@,
        FlowError::ClockUnreadable => "the system clock reads before 1970, or past any date a stamp can hold"@,
    }
}

fn names_text(names: &Vec<String>) -> (r: String)
    ensures
        r@ == name_list(views(names@)),
{
    if names.len() == 0 {
        owned("none")
    } else {
        crate::text::join(names, ", ")
    }
}

fn quote(x: &str) -> (r: String)
    ensures
        r@ == quoted(x@),
{
    let mut r = owned("`");
    push_str(&mut r, x);
    push_str(&mut r, "`");
    r
}

/// `a` followed by `b`.
fn cat(a: String, b: &str) -> (r: String)
    ensures
        r@ == a@ + b@,
{
    let mut r = a;
    push_str(&mut r, b);
    r
}

impl FlowError {
    /// What the refusal says, naming whatever it is about.
    pub fn message(&self) -> (r: String)
        ensures
            r@ == message_spec(*self),
    {
        match self {
            FlowError::NoFlowAgent => owned(
                "no agent configured — add an [agents.<name>] table to .flow/flow.toml",
            ),
            FlowError::NoAgent => owned("no agent configured — run `flow config --init` and set one up"),
            FlowError::EmptyCommand { agent } => {
                let q = quote(agent.as_str());
                cat(cat(owned("agent "), q.as_str()), " declares an empty command")
            },
            FlowError::UnknownFlowAgent { agent, known } => {
                let q = quote(agent.as_str());
                let l = names_text(known);
                cat(
                    cat(cat(owned("no agent called "), q.as_str()), " — .flow/flow.toml declares: "),
                    l.as_str(),
                )
            },
            FlowError::UnknownAgent { agent, known } => {
                let q = quote(agent.as_str());
                let l = names_text(known);
                cat(
                    cat(
                        cat(cat(owned("no agent called "), q.as_str()), " — configured agents: "),
                        l.as_str(),
                    ),
                    ". See `flow config`.",
                )
            },
            FlowError::NoStages { path } => cat(owned(path.as_str()), " declares no stages"),
            FlowError::NoSuchRun { slug } => {
                let q = quote(slug.as_str());
                cat(cat(owned("no run called "), q.as_str()), " — try `flow status`")
            },
            FlowError::NoActiveRuns => owned("no active runs — start one with `flow start \"<title>\"`"),
            FlowError::SeveralActive { slugs } => {
                let l = names_text(slugs);
                cat(
                    cat(owned("several active runs — name one of: "), l.as_str()),
                    ", or make one current with `flow switch <slug>`",
                )
            },
            FlowError::RunFinished { slug } => cat(
                quote(slug.as_str()),
                " is finished — bring it back with `flow reopen` first",
            ),
            FlowError::NothingInFlight { slug } => cat(
                quote(slug.as_str()),
                " has no stage in flight — every stage is settled. Use `flow finish` or `flow back`.",
            ),
            FlowError::NotAFlowStage { stage, flow } => {
                let q = quote(flow.as_str());
                cat(cat(quote(stage.as_str()), " is not a stage of flow "), q.as_str())
            },
            FlowError::NotOptional { stage } => cat(
                quote(stage.as_str()),
                " is not optional — mark it optional in .flow/flow.toml, or use `flow done`",
            ),
            FlowError::NotARunStage { stage } => cat(quote(stage.as_str()), " is not a stage of this run"),
            FlowError::AtFirstStage { slug } => cat(quote(slug.as_str()), " is already at its first stage"),
            FlowError::NotBehind { stage } => cat(
                quote(stage.as_str()),
                " is not behind the current stage — `flow back` only moves backwards",
            ),
            FlowError::AlreadyFinished { slug } => cat(quote(slug.as_str()), " is already finished"),
            FlowError::AlreadyActive { slug } => cat(quote(slug.as_str()), " is already active"),
            FlowError::SwitchToFinished { slug } => cat(
                cat(
                    cat(quote(slug.as_str()), " is finished — bring it back with `flow reopen "),
                    slug.as_str(),
                ),
                "` instead",
            ),
            FlowError::NoTitle => owned("no title — `flow start \"<title>\"`"),
            FlowError::NoSlug { title } => cat(
                quote(title.as_str()),
                " has no characters a slug can be made from",
            ),
            FlowError::RunExists { slug, path } => {
                let q = quote(slug.as_str());
                cat(cat(cat(owned("a run called "), q.as_str()), " already exists at "), path.as_str())
            },
            FlowError::MissingOpeningFence => owned("missing opening `+++` frontmatter fence"),
            FlowError::MissingClosingFence => owned("missing closing `+++` frontmatter fence"),
            FlowError::NothingToHandOver { slug } => cat(
                quote(slug.as_str()),
                " has no stage in flight — nothing to hand over",
            ),
            FlowError::UnknownPreset { name, known } => {
                let q = quote(name.as_str());
                let l = names_text(known);
                cat(
                    cat(cat(owned("unknown preset "), q.as_str()), " — the presets on offer are: "),
                    l.as_str(),
                )
            },
            FlowError::DefaultPresetMissing { name } => {
                let q = quote(name.as_str());
                cat(
                    cat(owned("your configured preset "), q.as_str()),
                    " is not on the Preset Path — point `preset` in your user config at one that exists, or remove it to use `main-flow`",
                )
            },
            FlowError::ClockUnreadable => owned("the system clock reads before 1970, or past any date a stamp can hold"),
        }
    }
}

} // verus!
