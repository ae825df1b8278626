//! Settings layered by who owns them: the launchers and default agent the
//! repo's flow declares, over those in the user's own config.
use crate::error::FlowError;
use crate::flow::{opt_view, Flow, Launcher};
use crate::path::join_seq;
use crate::table::{
    has_key, index_of_key, insert, key_list, key_position, keys, lemma_index_of_key,
    lemma_index_of_key_props, lookup, sorted,
};
use crate::text::{owned, views};
use vstd::prelude::*;

verus! {

/// Settings that belong to the person, not the project: which agent they
/// drive, which preset a bare `flow init` writes, and how each agent starts on
/// their machine.
#[derive(Debug, Clone)]
pub struct UserConfig {
    pub agent: String,
    pub preset: String,
    pub agents: Vec<(String, Launcher)>,
}

/// Where a setting came from.
#[derive(Debug, Clone, Copy, PartialEq, Eq, Structural)]
pub enum Source {
    Flag,
    Repo,
    User,
    Unset,
}

impl Source {
    /// Where the setting came from, as `flow config` names it.
    pub fn describe(&self) -> (r: &'static str)
        ensures
            r@ == source_text(*self),
    {
        match self {
            Source::Flag => "--agent flag",
            Source::Repo => ".flow/flow.toml",
            Source::User => "user config",
            Source::Unset => "unset",
        }
    }
}

/// How each source is named.
pub open spec fn source_text(s: Source) -> Seq<char> {
    match s {
        Source::Flag => "--agent flag"@,
        Source::Repo => ".flow/flow.toml"@,
        Source::User => "user config"@,
        Source::Unset => "unset"@,
    }
}

/// The launchers and default agent, after layering the repo's flow over the
/// user's config.
#[derive(Debug)]
pub struct Settings {
    /// Every launcher, by agent name in ascending order, with where it came from.
    pub agents: Vec<(String, (Launcher, Source))>,
    pub agent: String,
    pub agent_source: Source,
    pub user_path: Option<String>,
    pub user_exists: bool,
}

/// `$XDG_CONFIG_HOME/flow` when that variable is set and not empty, else
/// `$HOME/.config/flow`, else nothing.
pub open spec fn user_dir_spec(xdg: Option<Seq<char>>, home: Option<Seq<char>>) -> Option<Seq<char>> {
    match xdg {
        Some(d) if d.len() > 0 => Some(join_seq(d, "flow"@)),
        _ => match home {
            Some(h) => Some(join_seq(join_seq(h, ".config"@), "flow"@)),
            None => None,
        },
    }
}

/// The user's flow directory, given the values of `XDG_CONFIG_HOME` and
/// `HOME`.
fn user_dir(xdg: Option<&str>, home: Option<&str>) -> (r: Option<String>)
    ensures
        crate::flow::opt_string_view(r) == user_dir_spec(opt_view(xdg), opt_view(home)),
{
    match xdg {
        Some(d) => {
            if !d.is_empty() {
                return Some(crate::path::join(d, "flow"));
            }
        },
        None => {},
    }
    match home {
        Some(h) => {
            let c = crate::path::join(h, ".config");
            Some(crate::path::join(c.as_str(), "flow"))
        },
        None => None,
    }
}

/// `config.toml` in the user's flow directory.
pub open spec fn user_config_spec(xdg: Option<Seq<char>>, home: Option<Seq<char>>) -> Option<Seq<char>> {
    match user_dir_spec(xdg, home) {
        Some(d) => Some(join_seq(d, "config.toml"@)),
        None => None,
    }
}

/// `presets` in the user's flow directory.
pub open spec fn user_presets_spec(xdg: Option<Seq<char>>, home: Option<Seq<char>>) -> Option<Seq<char>> {
    match user_dir_spec(xdg, home) {
        Some(d) => Some(join_seq(d, "presets"@)),
        None => None,
    }
}

/// `$XDG_CONFIG_HOME/flow/config.toml`, falling back to `~/.config`.
pub fn user_config_path(xdg: Option<&str>, home: Option<&str>) -> (r: Option<String>)
    ensures
        crate::flow::opt_string_view(r) == user_config_spec(opt_view(xdg), opt_view(home)),
{
    match user_dir(xdg, home) {
        Some(d) => Some(crate::path::join(d.as_str(), "config.toml")),
        None => None,
    }
}

/// `$XDG_CONFIG_HOME/flow/presets/` — the user layer of the preset path.
pub fn user_presets_dir(xdg: Option<&str>, home: Option<&str>) -> (r: Option<String>)
    ensures
        crate::flow::opt_string_view(r) == user_presets_spec(opt_view(xdg), opt_view(home)),
{
    match user_dir(xdg, home) {
        Some(d) => Some(crate::path::join(d.as_str(), "presets")),
        None => None,
    }
}

/// The user's flow directory is never empty and never ends in a separator.
proof fn lemma_user_dir_shape(xdg: Option<Seq<char>>, home: Option<Seq<char>>)
    ensures
        user_dir_spec(xdg, home) matches Some(d) ==> d.len() > 0 && !crate::path::is_sep(d.last()),
{
    reveal_strlit("flow");
    reveal_strlit(".config");
    match xdg {
        Some(d) if d.len() > 0 => crate::path::lemma_join_ends_as(d, "flow"@),
        _ => match home {
            Some(h) => {
                crate::path::lemma_join_ends_as(h, ".config"@);
                crate::path::lemma_join_ends_as(join_seq(h, ".config"@), "flow"@);
            },
            None => {},
        },
    }
}

/// The user's presets directory stands beside the user's config file: both
/// are there or neither is, and the presets directory is `presets` in the
/// directory that holds `config.toml`.
pub proof fn law_user_presets_beside_user_config(xdg: Option<Seq<char>>, home: Option<Seq<char>>)
    ensures
        match user_config_spec(xdg, home) {
            Some(p) => crate::path::parent_seq(p) matches Some(d) && user_presets_spec(xdg, home)
                == Some(join_seq(d, "presets"@)),
            None => user_presets_spec(xdg, home) is None,
        },
{
    lemma_user_dir_shape(xdg, home);
    reveal_strlit("config.toml");
    match user_dir_spec(xdg, home) {
        Some(d) => crate::path::lemma_parent_of_joined_name(d, "config.toml"@),
        None => {},
    }
}

/// The launcher the settings give agent `k`, and where it came from: the
/// repo's, when its flow declares one, else the user's.
pub open spec fn layered(flow: Flow, user: UserConfig, k: Seq<char>) -> Option<
    ((Seq<Seq<char>>, Seq<Seq<char>>), Source),
> {
    match lookup(flow.agents@, k) {
        Some(l) => Some((l@, Source::Repo)),
        None => match lookup(user.agents@, k) {
            Some(l) => Some((l@, Source::User)),
            None => None,
        },
    }
}

/// The launcher a settings table gives agent `k`, as text.
pub open spec fn table_entry(t: Seq<(String, (Launcher, Source))>, k: Seq<char>) -> Option<
    ((Seq<Seq<char>>, Seq<Seq<char>>), Source),
> {
    match lookup(t, k) {
        Some(e) => Some((e.0@, e.1)),
        None => None,
    }
}

/// The default agent and where it came from: the one named on the command
/// line, else the repo's, else the user's, else the only launcher there is.
pub open spec fn default_agent(
    flow: Flow,
    flag: Option<Seq<char>>,
    user: UserConfig,
    agents: Seq<(String, (Launcher, Source))>,
) -> (Seq<char>, Source) {
    match flag {
        Some(f) => (f, Source::Flag),
        None => if flow.agent@.len() > 0 {
            (flow.agent@, Source::Repo)
        } else if user.agent@.len() > 0 {
            (user.agent@, Source::User)
        } else if agents.len() == 1 {
            (agents[0].0@, agents[0].1.1)
        } else {
            (Seq::empty(), Source::Unset)
        },
    }
}

/// Looking a key up in `t[i..]` finds the entry at `i` when it holds the
/// key, and otherwise what `t[i + 1..]` gives.
proof fn lemma_lookup_step<V>(t: Seq<(String, V)>, i: int, k: Seq<char>)
    requires
        0 <= i < t.len(),
    ensures
        lookup(t.skip(i), k) == if t[i].0@ == k {
            Some(t[i].1)
        } else {
            lookup(t.skip(i + 1), k)
        },
{
    let a = t.skip(i);
    let b = t.skip(i + 1);
    lemma_index_of_key_props(a, k);
    lemma_index_of_key_props(b, k);
    if t[i].0@ == k {
        assert(a[0] == t[i]);
        lemma_index_of_key(a, k, 0);
    } else {
        match index_of_key(b, k) {
            Some(m) => {
                assert(a[m + 1] == b[m]);
                assert forall|j: int| 0 <= j < m + 1 implies a[j].0@ != k by {
                    if j > 0 {
                        assert(a[j] == b[j - 1]);
                    }
                }
                lemma_index_of_key(a, k, m + 1);
            },
            None => {
                match index_of_key(a, k) {
                    Some(m) => {
                        assert(m > 0);
                        assert(a[m] == b[m - 1]);
                    },
                    None => {},
                }
            },
        }
    }
}

/// One step of `layer_in`: binding the key of `from[i]` keeps the table
/// agreeing with `from[i..]` over what it agreed with before.
proof fn lemma_layer_step(
    before: Seq<(String, (Launcher, Source))>,
    after: Seq<(String, (Launcher, Source))>,
    t0: Seq<(String, (Launcher, Source))>,
    from: Seq<(String, Launcher)>,
    i: int,
    source: Source,
)
    requires
        0 <= i < from.len(),
        forall|k: Seq<char>|
            #[trigger] table_entry(before, k) == match lookup(from.skip(i + 1), k) {
                Some(l) => Some((l@, source)),
                None => table_entry(t0, k),
            },
        forall|k: Seq<char>|
            #[trigger] has_key(before, k) <==> (has_key(t0, k) || has_key(from.skip(i + 1), k)),
        lookup(after, from[i].0@) matches Some(v) && v.0@ == from[i].1@ && v.1 == source,
        forall|j: Seq<char>| j != from[i].0@ ==> #[trigger] lookup(after, j) == lookup(before, j),
        forall|j: Seq<char>| has_key(after, j) <==> (j == from[i].0@ || has_key(before, j)),
    ensures
        forall|k: Seq<char>|
            #[trigger] table_entry(after, k) == match lookup(from.skip(i), k) {
                Some(l) => Some((l@, source)),
                None => table_entry(t0, k),
            },
        forall|k: Seq<char>|
            #[trigger] has_key(after, k) <==> (has_key(t0, k) || has_key(from.skip(i), k)),
{
    assert forall|k: Seq<char>|
        #[trigger] table_entry(after, k) == match lookup(from.skip(i), k) {
            Some(l) => Some((l@, source)),
            None => table_entry(t0, k),
        } by {
        lemma_lookup_step(from, i, k);
        if k != from[i].0@ {
            assert(lookup(after, k) == lookup(before, k));
            assert(table_entry(after, k) == table_entry(before, k));
        }
    }
    assert forall|k: Seq<char>|
        #[trigger] has_key(after, k) <==> (has_key(t0, k) || has_key(from.skip(i), k)) by {
        let s1 = from.skip(i);
        let s2 = from.skip(i + 1);
        assert(s1[0] == from[i]);
        if has_key(s2, k) {
            let w = choose|w: int| 0 <= w < s2.len() && s2[w].0@ == k;
            assert(s1[w + 1] == s2[w]);
        }
        if has_key(s1, k) {
            let w = choose|w: int| 0 <= w < s1.len() && s1[w].0@ == k;
            if w > 0 {
                assert(s1[w] == s2[w - 1]);
            }
        }
    }
}

/// Layer the launchers of `from`, first entry winning, into the sorted table
/// `t`, each tagged with `source`.
fn layer_in(t: &mut Vec<(String, (Launcher, Source))>, from: &Vec<(String, Launcher)>, source: Source)
    requires
        sorted(old(t)@),
    ensures
        sorted(final(t)@),
        forall|k: Seq<char>|
            #[trigger] table_entry(final(t)@, k) == match lookup(from@, k) {
                Some(l) => Some((l@, source)),
                None => table_entry(old(t)@, k),
            },
        forall|k: Seq<char>|
            #[trigger] has_key(final(t)@, k) <==> (has_key(old(t)@, k) || has_key(from@, k)),
{
    let ghost t0 = t@;
    let mut i = from.len();
    assert(from@.skip(from@.len() as int) =~= Seq::<(String, Launcher)>::empty());
    while i > 0
        invariant
            i <= from@.len(),
            sorted(t@),
            forall|k: Seq<char>|
                #[trigger] table_entry(t@, k) == match lookup(from@.skip(i as int), k) {
                    Some(l) => Some((l@, source)),
                    None => table_entry(t0, k),
                },
            forall|k: Seq<char>|
                #[trigger] has_key(t@, k) <==> (has_key(t0, k) || has_key(from@.skip(i as int), k)),
        decreases i,
    {
        i = i - 1;
        let ghost before = t@;
        let key = from[i].0.clone();
        let l = from[i].1.copy();
        insert(t, key, (l, source));
        proof {
            lemma_layer_step(before, t@, t0, from@, i as int, source);
        }
    }
    assert(from@.skip(0) =~= from@);
}

/// The position of the default agent's launcher, when it has one with a
/// command to run.
pub open spec fn usable_launcher(s: Settings) -> Option<int> {
    if s.agent@.len() == 0 {
        None
    } else {
        match index_of_key(s.agents@, s.agent@) {
            Some(i) => if s.agents@[i].1.0.command@.len() > 0 {
                Some(i)
            } else {
                None
            },
            None => None,
        }
    }
}

/// Why the default agent has no usable launcher: no agent is named at all;
/// the one named has an empty command; or no launcher has its name.
pub open spec fn launcher_refusal(s: Settings, e: FlowError) -> bool {
    if s.agent@.len() == 0 {
        e matches FlowError::NoAgent
    } else {
        match index_of_key(s.agents@, s.agent@) {
            Some(i) => e matches FlowError::EmptyCommand { agent } && agent@ == s.agent@,
            None => e matches FlowError::UnknownAgent { agent, known } && agent@ == s.agent@ && views(
                known@,
            ) == keys(s.agents@),
        }
    }
}

impl Settings {
    /// Layer the repo's flow over the user's config (`user`, read from
    /// `user_path`, which `user_exists` says is on disk). A launcher the repo
    /// declares overrides the user's of the same name; the default agent is the
    /// one `flag` names, else the repo's, else the user's, else the only
    /// launcher there is.
    pub fn resolve(
        flow: &Flow,
        flag: Option<&str>,
        user: UserConfig,
        user_path: Option<String>,
        user_exists: bool,
    ) -> (s: Settings)
        ensures
            sorted(s.agents@),
            forall|k: Seq<char>| #[trigger] table_entry(s.agents@, k) == layered(*flow, user, k),
            forall|k: Seq<char>|
                #[trigger] has_key(s.agents@, k) <==> (has_key(flow.agents@, k) || has_key(
                    user.agents@,
                    k,
                )),
            (s.agent@, s.agent_source) == default_agent(*flow, opt_view(flag), user, s.agents@),
            s.user_path == user_path,
            s.user_exists == user_exists,
    {
        let mut agents: Vec<(String, (Launcher, Source))> = Vec::new();
        layer_in(&mut agents, &user.agents, Source::User);
        let ghost after_user = agents@;
        layer_in(&mut agents, &flow.agents, Source::Repo);
        proof {
            assert forall|k: Seq<char>| #[trigger] table_entry(agents@, k) == layered(*flow, user, k) by {
                assert(table_entry(after_user, k) == match lookup(user.agents@, k) {
                    Some(l) => Some((l@, Source::User)),
                    None => table_entry(Seq::<(String, (Launcher, Source))>::empty(), k),
                });
            }
        }
        let (agent, agent_source) = match flag {
            Some(f) => (owned(f), Source::Flag),
            None => {
                if !flow.agent.as_str().is_empty() {
                    (flow.agent.clone(), Source::Repo)
                } else if !user.agent.as_str().is_empty() {
                    (user.agent.clone(), Source::User)
                } else if agents.len() == 1 {
                    (agents[0].0.clone(), agents[0].1.1)
                } else {
                    (String::new(), Source::Unset)
                }
            },
        };
        Settings { agents, agent, agent_source, user_path, user_exists }
    }

    /// The launcher of the default agent, or why there is none.
    pub fn launcher(&self) -> (r: Result<(&str, &Launcher), FlowError>)
        ensures
            match usable_launcher(*self) {
                Some(i) => r matches Ok((n, l)) && n@ == self.agent@ && n@ == self.agents@[i].0@
                    && *l == self.agents@[i].1.0,
                None => r matches Err(e) && launcher_refusal(*self, e),
            },
    {
        if self.agent.as_str().is_empty() {
            return Err(FlowError::NoAgent);
        }
        proof {
            lemma_index_of_key_props(self.agents@, self.agent@);
        }
        match key_position(&self.agents, self.agent.as_str()) {
            Some(i) => {
                if self.agents[i].1.0.command.len() > 0 {
                    Ok((self.agents[i].0.as_str(), &self.agents[i].1.0))
                } else {
                    Err(FlowError::EmptyCommand { agent: self.agent.clone() })
                }
            },
            None => Err(
                FlowError::UnknownAgent { agent: self.agent.clone(), known: key_list(&self.agents) },
            ),
        }
    }
}

/// What a user config starts as: one agent, how it starts, and the guard
/// variable that says it is already running.
pub const USER_CONFIG_STARTER: &'static str = "# Your flow settings: which agent you drive, and how it starts on this machine.
# This file is yours; it never goes in a repo.

agent = \"my-agent\"

# A bare `flow init` writes this preset. Any name on the Preset Path works.
# preset = \"main-flow\"

[agents.my-agent]
# The argv `flow go` runs. {prompt}, {slug} and {stage} are substituted.
command = [\"my-agent\", \"{prompt}\"]
# Set inside a running session: `flow go` prints the prompt instead of nesting.
guard_env = [\"MY_AGENT_SESSION\"]
";

/// The line for agent `i` in `flow config`: marked when it is the default,
/// with its argv and where it came from.
pub open spec fn agent_line(s: Settings, i: int) -> Seq<char> {
    let e = s.agents@[i];
    "  "@ + (if e.0@ == s.agent@ {
        "*"@
    } else {
        " "@
    }) + " "@ + e.0@ + "  "@ + crate::text::join_seq(views(e.1.0.command@), " "@) + "   (from "@
        + source_text(e.1.1) + ")\n"@
}

/// The lines of the first `n` agents.
pub open spec fn agent_lines(s: Settings, n: nat) -> Seq<char>
    decreases n,
{
    if n == 0 {
        Seq::empty()
    } else {
        agent_lines(s, (n - 1) as nat) + agent_line(s, n - 1)
    }
}

/// Where the user's config lives, and whether it exists yet.
pub open spec fn user_part(s: Settings) -> Seq<char> {
    match s.user_path {
        Some(p) => "  "@ + p@ + (if s.user_exists {
            Seq::<char>::empty()
        } else {
            "   (does not exist — `flow config --init` writes it)"@
        }) + "\n"@,
        None => "  unavailable (no HOME or XDG_CONFIG_HOME)\n"@,
    }
}

/// Where the repo's flow lives, and whether it exists.
pub open spec fn project_part(flow_path: Seq<char>, flow_exists: bool) -> Seq<char> {
    "  "@ + flow_path + (if flow_exists {
        Seq::<char>::empty()
    } else {
        "   (no flow here — `flow init`)"@
    }) + "\n"@
}

/// The default agent and where it came from.
pub open spec fn default_part(s: Settings) -> Seq<char> {
    (if s.agent@.len() == 0 {
        "none"@
    } else {
        s.agent@ + "   (from "@ + source_text(s.agent_source) + ")"@
    }) + "\n"@
}

/// Every agent, or a pointer at the setup command when there is none.
pub open spec fn agents_part(s: Settings) -> Seq<char> {
    if s.agents@.len() == 0 {
        "\nNo agents configured. `flow config --init`, then `flow go` works.\n"@
    } else {
        "\nAgents:\n"@ + agent_lines(s, s.agents@.len())
    }
}

/// The line for a presets directory: where it is, and whether it exists yet.
pub open spec fn dir_line(d: (String, bool)) -> Seq<char> {
    "  "@ + d.0@ + (if d.1 {
        Seq::<char>::empty()
    } else {
        "   (does not exist)"@
    }) + "\n"@
}

/// The lines of the first `n` presets directories.
pub open spec fn dir_lines(dirs: Seq<(String, bool)>, n: nat) -> Seq<char>
    decreases n,
{
    if n == 0 {
        Seq::empty()
    } else {
        dir_lines(dirs, (n - 1) as nat) + dir_line(dirs[n - 1])
    }
}

/// What `flow config` prints: where each file lives (and whether it does yet),
/// the default agent and where that came from, every agent, and the presets
/// directories of the Preset Path, nearest first.
pub open spec fn config_report_spec(
    s: Settings,
    flow_path: Seq<char>,
    flow_exists: bool,
    dirs: Seq<(String, bool)>,
) -> Seq<char> {
    "Yours — the agent you drive, and how it starts on this machine:\n"@ + user_part(s)
        + "\nThe project's — which stages exist, committed and shared:\n"@ + project_part(
        flow_path,
        flow_exists,
    ) + "\nDefault agent: "@ + default_part(s) + agents_part(s)
        + "\nPresets, nearest first — drop a .toml in one to offer a flow of your own:\n"@ + dir_lines(
        dirs,
        dirs.len(),
    )
}

fn user_text(s: &Settings) -> (r: String)
    ensures
        r@ == user_part(*s),
{
    match &s.user_path {
        Some(p) => {
            let mut r = owned("  ");
            crate::text::push_str(&mut r, p.as_str());
            if !s.user_exists {
                crate::text::push_str(&mut r, "   (does not exist — `flow config --init` writes it)");
            } else {
                proof {
                    reveal_strlit("");
                }
            }
            crate::text::push_str(&mut r, "\n");
            assert(r@ =~= user_part(*s));
            r
        },
        None => owned("  unavailable (no HOME or XDG_CONFIG_HOME)\n"),
    }
}

fn project_text(flow_path: &str, flow_exists: bool) -> (r: String)
    ensures
        r@ == project_part(flow_path@, flow_exists),
{
    let mut r = owned("  ");
    crate::text::push_str(&mut r, flow_path);
    if !flow_exists {
        crate::text::push_str(&mut r, "   (no flow here — `flow init`)");
    }
    crate::text::push_str(&mut r, "\n");
    assert(r@ =~= project_part(flow_path@, flow_exists));
    r
}

fn default_text(s: &Settings) -> (r: String)
    ensures
        r@ == default_part(*s),
{
    let mut r = if s.agent.as_str().is_empty() {
        owned("none")
    } else {
        let mut x = owned(s.agent.as_str());
        crate::text::push_str(&mut x, "   (from ");
        crate::text::push_str(&mut x, s.agent_source.describe());
        crate::text::push_str(&mut x, ")");
        x
    };
    crate::text::push_str(&mut r, "\n");
    r
}

fn agents_text(s: &Settings) -> (r: String)
    ensures
        r@ == agents_part(*s),
{
    if s.agents.len() == 0 {
        return owned("\nNo agents configured. `flow config --init`, then `flow go` works.\n");
    }
    let mut r = owned("\nAgents:\n");
    let ghost head = r@;
    let mut i: usize = 0;
    while i < s.agents.len()
        invariant
            i <= s.agents@.len(),
            r@ == head + agent_lines(*s, i as nat),
        decreases s.agents.len() - i,
    {
        let line = agent_line_of(s, i);
        crate::text::push_str(&mut r, line.as_str());
        i = i + 1;
    }
    r
}

fn agent_line_of(s: &Settings, i: usize) -> (r: String)
    requires
        i < s.agents@.len(),
    ensures
        r@ == agent_line(*s, i as int),
{
    let e = &s.agents[i];
    let mut r = owned("  ");
    if crate::text::str_eq(e.0.as_str(), s.agent.as_str()) {
        crate::text::push_str(&mut r, "*");
    } else {
        crate::text::push_str(&mut r, " ");
    }
    crate::text::push_str(&mut r, " ");
    crate::text::push_str(&mut r, e.0.as_str());
    crate::text::push_str(&mut r, "  ");
    let argv = crate::text::join(&e.1.0.command, " ");
    crate::text::push_str(&mut r, argv.as_str());
    crate::text::push_str(&mut r, "   (from ");
    crate::text::push_str(&mut r, e.1.1.describe());
    crate::text::push_str(&mut r, ")\n");
    r
}

/// What `flow config` prints for `settings`, with the repo's flow file at
/// `flow_path` (`flow_exists` saying whether it is there) and the presets
/// directories `dirs`, nearest first, each with whether it exists.
pub fn config_report(
    settings: &Settings,
    flow_path: &str,
    flow_exists: bool,
    dirs: &Vec<(String, bool)>,
) -> (r: String)
    ensures
        r@ == config_report_spec(*settings, flow_path@, flow_exists, dirs@),
{
    let mut r = owned("Yours — the agent you drive, and how it starts on this machine:\n");
    let u = user_text(settings);
    crate::text::push_str(&mut r, u.as_str());
    crate::text::push_str(&mut r, "\nThe project's — which stages exist, committed and shared:\n");
    let p = project_text(flow_path, flow_exists);
    crate::text::push_str(&mut r, p.as_str());
    crate::text::push_str(&mut r, "\nDefault agent: ");
    let d = default_text(settings);
    crate::text::push_str(&mut r, d.as_str());
    let a = agents_text(settings);
    crate::text::push_str(&mut r, a.as_str());
    crate::text::push_str(&mut r, "\nPresets, nearest first — drop a .toml in one to offer a flow of your own:\n");
    let ghost head = r@;
    let mut i: usize = 0;
    while i < dirs.len()
        invariant
            i <= dirs@.len(),
            r@ == head + dir_lines(dirs@, i as nat),
        decreases dirs.len() - i,
    {
        crate::text::push_str(&mut r, "  ");
        crate::text::push_str(&mut r, dirs[i].0.as_str());
        if !dirs[i].1 {
            crate::text::push_str(&mut r, "   (does not exist)");
        } else {
            proof {
                reveal_strlit("");
            }
        }
        crate::text::push_str(&mut r, "\n");
        i = i + 1;
        assert(r@ =~= head + dir_lines(dirs@, i as nat));
    }
    r
}

} // verus!
