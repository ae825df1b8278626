//! The flow: an ordered, linear sequence of stages, and the launchers that
//! hand a stage to an agent. Nothing here special-cases a stage by name.
use crate::error::FlowError;
use crate::path::join_seq;
use crate::table::{index_of_key, is_sorted, key_list, key_position, keys, lemma_index_of_key_props, lookup, sorted};
use crate::text::{has_prefix, is_blank, owned, replace, replace_seq, starts_with, trim_seq, views};
use vstd::prelude::*;

verus! {

/// How to start an agent: an argv in which `{prompt}`, `{slug}` and `{stage}`
/// are substituted, and the environment variables whose presence means an
/// agent is already running.
#[derive(Debug, Clone)]
pub struct Launcher {
    pub command: Vec<String>,
    pub guard_env: Vec<String>,
}

impl View for Launcher {
    type V = (Seq<Seq<char>>, Seq<Seq<char>>);

    /// The argv and the guard variables, as text.
    open spec fn view(&self) -> Self::V {
        (views(self.command@), views(self.guard_env@))
    }
}

/// A copy of a list of strings.
pub fn copy_strings(v: &Vec<String>) -> (r: Vec<String>)
    ensures
        r@ == v@,
{
    let mut r: Vec<String> = Vec::new();
    let mut i: usize = 0;
    while i < v.len()
        invariant
            i <= v.len(),
            r@ == v@.take(i as int),
        decreases v.len() - i,
    {
        r.push(v[i].clone());
        assert(r@ =~= v@.take(i + 1));
        i = i + 1;
    }
    assert(v@.take(i as int) =~= v@);
    r
}

impl Launcher {
    /// A copy of this launcher.
    pub fn copy(&self) -> (r: Launcher)
        ensures
            r@ == self@,
            r.command@ == self.command@,
            r.guard_env@ == self.guard_env@,
    {
        Launcher { command: copy_strings(&self.command), guard_env: copy_strings(&self.guard_env) }
    }
}

/// One step of a flow: a name bound to a command and an expected artifact.
#[derive(Debug, Clone)]
pub struct Stage {
    pub name: String,
    pub description: String,
    pub command: String,
    pub artifact: Option<String>,
    pub optional: bool,
    pub repeatable: bool,
    /// Per-agent overrides for `command`, by agent name in ascending order
    /// (see `Flow::tables_ordered`).
    pub agents: Vec<(String, String)>,
}

/// A flow definition.
#[derive(Debug, Clone)]
pub struct Flow {
    pub name: String,
    pub description: String,
    /// Which launcher is used when none is named.
    pub agent: String,
    /// Launchers by agent name, in ascending name order (see
    /// `Flow::tables_ordered`).
    pub agents: Vec<(String, Launcher)>,
    pub stages: Vec<Stage>,
}

/// The text an optional borrowed string holds.
pub open spec fn opt_view(o: Option<&str>) -> Option<Seq<char>> {
    match o {
        Some(s) => Some(s@),
        None => None,
    }
}

impl Flow {
    /// Whether every table of the flow, its launchers and each stage's
    /// overrides, is keyed in strictly ascending order, as the `BTreeMap`s of
    /// a flow file are: each agent name at most once, in name order.
    pub open spec fn tables_ordered(self) -> bool {
        &&& sorted(self.agents@)
        &&& forall|i: int| 0 <= i < self.stages@.len() ==> sorted(#[trigger] self.stages@[i].agents@)
    }

    /// Whether every table of the flow is keyed in ascending order.
    pub fn has_ordered_tables(&self) -> (r: bool)
        ensures
            r == self.tables_ordered(),
    {
        if !is_sorted(&self.agents) {
            return false;
        }
        let mut i: usize = 0;
        while i < self.stages.len()
            invariant
                i <= self.stages@.len(),
                forall|j: int| 0 <= j < i ==> sorted(#[trigger] self.stages@[j].agents@),
            decreases self.stages.len() - i,
        {
            if !is_sorted(&self.stages[i].agents) {
                return false;
            }
            i = i + 1;
        }
        true
    }

    /// The agent a launcher is looked up for: the one named, else the flow's
    /// default, else the only one declared.
    pub open spec fn chosen_agent(self, name: Option<Seq<char>>) -> Option<Seq<char>> {
        match name {
            Some(n) => Some(n),
            None => if self.agent@.len() > 0 {
                Some(self.agent@)
            } else if self.agents@.len() == 1 {
                Some(self.agents@[0].0@)
            } else {
                None
            },
        }
    }

    /// Resolve a launcher by name, falling back to the flow's default and then
    /// to the only one declared.
    pub fn launcher(&self, name: Option<&str>) -> (r: Result<(&str, &Launcher), FlowError>)
        ensures
            match self.chosen_agent(opt_view(name)) {
                None => r matches Err(FlowError::NoFlowAgent),
                Some(c) => match index_of_key(self.agents@, c) {
                    Some(i) => if self.agents@[i].1.command@.len() > 0 {
                        r matches Ok((n, l)) && n@ == c && *l == self.agents@[i].1
                    } else {
                        r matches Err(FlowError::EmptyCommand { agent }) && agent@ == c
                    },
                    None => r matches Err(FlowError::UnknownFlowAgent { agent, known }) && agent@
                        == c && views(known@) == keys(self.agents@),
                },
            },
    {
        let chosen: String = match name {
            Some(n) => owned(n),
            None => {
                if !self.agent.as_str().is_empty() {
                    self.agent.clone()
                } else if self.agents.len() == 1 {
                    self.agents[0].0.clone()
                } else {
                    return Err(FlowError::NoFlowAgent);
                }
            },
        };
        proof {
            lemma_index_of_key_props(self.agents@, chosen@);
        }
        match key_position(&self.agents, chosen.as_str()) {
            Some(i) => {
                if self.agents[i].1.command.len() > 0 {
                    Ok((self.agents[i].0.as_str(), &self.agents[i].1))
                } else {
                    Err(FlowError::EmptyCommand { agent: chosen })
                }
            },
            None => Err(FlowError::UnknownFlowAgent { agent: chosen, known: key_list(&self.agents) }),
        }
    }

    /// `Ok` when the flow declares at least one stage; otherwise the refusal
    /// naming the file at `path` it was read from.
    pub fn check_stages(&self, path: &str) -> (r: Result<(), FlowError>)
        ensures
            r is Ok <==> self.stages@.len() > 0,
            r matches Err(e) ==> e matches FlowError::NoStages { path: p } && p@ == path@,
    {
        if self.stages.len() == 0 {
            Err(FlowError::NoStages { path: owned(path) })
        } else {
            Ok(())
        }
    }
}

impl Stage {
    /// The command shown for `agent`: its override when the stage declares
    /// one, else the stage's command.
    pub open spec fn command_for_spec(self, agent: Option<Seq<char>>) -> Seq<char> {
        match agent {
            Some(a) => match lookup(self.agents@, a) {
                Some(c) => c@,
                None => self.command@,
            },
            None => self.command@,
        }
    }

    /// The command to show, honouring a per-agent override when one exists.
    pub fn command_for(&self, agent: Option<&str>) -> (r: &str)
        ensures
            r@ == self.command_for_spec(opt_view(agent)),
    {
        match agent {
            Some(a) => {
                proof {
                    lemma_index_of_key_props(self.agents@, a@);
                }
                match key_position(&self.agents, a) {
                    Some(i) => self.agents[i].1.as_str(),
                    None => self.command.as_str(),
                }
            },
            None => self.command.as_str(),
        }
    }

    /// The artifact a stage declares, with `{slug}` resolved; `None` when the
    /// declaration is absent or blank.
    pub open spec fn artifact_for_spec(self, slug: Seq<char>) -> Option<Seq<char>> {
        match self.artifact {
            Some(raw) => if trim_seq(raw@).len() == 0 {
                None
            } else {
                Some(replace_seq(raw@, "{slug}"@, slug))
            },
            None => None,
        }
    }

    /// The artifact this stage should leave behind, with `{slug}` resolved.
    /// `None` when the stage declares nothing.
    pub fn artifact_for(&self, slug: &str) -> (r: Option<String>)
        ensures
            opt_string_view(r) == self.artifact_for_spec(slug@),
    {
        match &self.artifact {
            Some(raw) => {
                if is_blank(raw.as_str()) {
                    None
                } else {
                    proof {
                        reveal_strlit("{slug}");
                    }
                    Some(replace(raw.as_str(), "{slug}", slug))
                }
            },
            None => None,
        }
    }
}

/// The text an optional owned string holds.
pub open spec fn opt_string_view(o: Option<String>) -> Option<Seq<char>> {
    match o {
        Some(s) => Some(s@),
        None => None,
    }
}

/// Whether an artifact lives on a tracker rather than on disk.
pub open spec fn is_tracker_spec(artifact: Seq<char>) -> bool {
    has_prefix(artifact, "tracker:"@)
}

/// An artifact that lives on a tracker is recorded but never checked on disk.
pub fn is_tracker_artifact(artifact: &str) -> (b: bool)
    ensures
        b == is_tracker_spec(artifact@),
{
    starts_with(artifact, "tracker:")
}

/// `<root>/.flow`.
pub open spec fn flow_dir_spec(root: Seq<char>) -> Seq<char> {
    join_seq(root, ".flow"@)
}

/// The directory holding the flow, its runs and its artifacts.
pub fn flow_dir(root: &str) -> (r: String)
    ensures
        r@ == flow_dir_spec(root@),
{
    crate::path::join(root, ".flow")
}

/// `<root>/.flow/flow.toml`.
pub fn flow_path(root: &str) -> (r: String)
    ensures
        r@ == join_seq(flow_dir_spec(root@), "flow.toml"@),
{
    let d = flow_dir(root);
    crate::path::join(d.as_str(), "flow.toml")
}

/// `<root>/.flow/runs`.
pub open spec fn runs_dir_spec(root: Seq<char>) -> Seq<char> {
    join_seq(flow_dir_spec(root), "runs"@)
}

/// The directory holding one file per run.
pub fn runs_dir(root: &str) -> (r: String)
    ensures
        r@ == runs_dir_spec(root@),
{
    let d = flow_dir(root);
    crate::path::join(d.as_str(), "runs")
}

/// The first of `dirs` whose flag in `flags` is set, if any.
pub open spec fn first_flagged(dirs: Seq<Seq<char>>, flags: Seq<bool>) -> Option<int> {
    if exists|i: int| 0 <= i < dirs.len() && i < flags.len() && flags[i] {
        Some(
            choose|i: int|
                0 <= i < dirs.len() && i < flags.len() && flags[i] && forall|j: int|
                    0 <= j < i ==> !flags[j],
        )
    } else {
        None
    }
}

/// The repo root for `start`: the nearest of `start` and its ancestors (in
/// the order `path::ancestors` lists them) whose `.flow` directory exists, as
/// `has_flow` reports for each; `start` itself when none does, so that
/// `flow init` has somewhere to write.
pub fn find_root(start: &str, has_flow: &Vec<bool>) -> (r: String)
    ensures
        match first_flagged(crate::path::ancestry(start@), has_flow@) {
            Some(i) => r@ == crate::path::ancestry(start@)[i],
            None => r@ == start@,
        },
{
    let dirs = crate::path::ancestors(start);
    let mut i: usize = 0;
    while i < dirs.len() && i < has_flow.len()
        invariant
            views(dirs@) == crate::path::ancestry(start@),
            i <= dirs.len(),
            forall|j: int| 0 <= j < i && j < has_flow@.len() ==> !has_flow@[j],
        decreases dirs.len() - i,
    {
        if has_flow[i] {
            proof {
                let a = crate::path::ancestry(start@);
                let k = choose|k: int|
                    0 <= k < a.len() && k < has_flow@.len() && has_flow@[k] && forall|j: int|
                        0 <= j < k ==> !has_flow@[j];
                assert(0 <= k < a.len() && k < has_flow@.len() && has_flow@[k]);
                if k < i {
                    assert(!has_flow@[k]);
                }
                if i < k {
                    assert(!has_flow@[i as int]);
                }
                assert(views(dirs@)[i as int] == dirs@[i as int]@);
            }
            return dirs[i].clone();
        }
        i = i + 1;
    }
    owned(start)
}

/// A flow with no name, no agents and no stages: what `flow config` reads
/// outside a repo that has a flow.
pub fn empty_flow() -> (f: Flow)
    ensures
        f.name@.len() == 0,
        f.description@.len() == 0,
        f.agent@.len() == 0,
        f.agents@.len() == 0,
        f.stages@.len() == 0,
        f.tables_ordered(),
{
    Flow {
        name: String::new(),
        description: String::new(),
        agent: String::new(),
        agents: Vec::new(),
        stages: Vec::new(),
    }
}

} // verus!
