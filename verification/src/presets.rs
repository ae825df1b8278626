//! The presets that ship with `flow`. A preset's name is its file's stem and
//! its description is the one declared inside the file.
use vstd::prelude::*;

verus! {

/// A flow that ships with `flow`.
#[derive(Debug, Clone, Copy)]
pub struct Shipped {
    pub name: &'static str,
    pub description: &'static str,
    pub contents: &'static str,
}

/// What a bare `flow init` writes when nothing else is configured.
pub const DEFAULT: &'static str = "main-flow";

/// The spine of work from idea to shipped code.
pub const MAIN_FLOW: &'static str = "name = \"main-flow\"
description = \"Idea to shipped code: grill, spec, tickets, implement, review.\"

[[stage]]
name = \"grill\"
description = \"Sharpen the idea by being questioned on it until the open questions are answered.\"
command = \"/grill-with-docs\"
artifact = \".flow/artifacts/{slug}/grill.md\"
optional = false
repeatable = false

[[stage]]
name = \"spec\"
description = \"Synthesise the conversation into a spec and publish it to the tracker.\"
command = \"/to-spec\"
artifact = \"tracker:issue\"
optional = false
repeatable = false

[[stage]]
name = \"tickets\"
description = \"Break the spec into tickets with blocking edges between them.\"
command = \"/to-tickets\"
artifact = \"tracker:issues\"
optional = true
repeatable = false

[[stage]]
name = \"implement\"
description = \"Build it, working the frontier of unblocked tickets. Test-first at the agreed seams.\"
command = \"/implement\"
optional = false
repeatable = true

[[stage]]
name = \"review\"
description = \"Review the change against the spec before it ships.\"
command = \"/review\"
optional = false
repeatable = true
";

/// The smallest flow that is still a flow.
pub const MINIMAL: &'static str = "name = \"minimal\"
description = \"Plan it, then build it. Add stages when you miss them.\"

[[stage]]
name = \"plan\"
description = \"Decide what the work is and how it will be done.\"
command = \"/plan\"
optional = false
repeatable = false

[[stage]]
name = \"build\"
description = \"Do the work.\"
command = \"/implement\"
optional = false
repeatable = true
";

/// Fixing a bug, from a reproduction to a verified fix.
pub const BUGFIX: &'static str = "name = \"bugfix\"
description = \"From a reproduction to a verified fix: reproduce, diagnose, fix, verify.\"

[[stage]]
name = \"reproduce\"
description = \"Reproduce the bug with a failing test or an exact recipe.\"
command = \"/reproduce\"
optional = false
repeatable = false

[[stage]]
name = \"diagnose\"
description = \"Find the cause, not just the place it shows.\"
command = \"/diagnose\"
optional = false
repeatable = true

[[stage]]
name = \"fix\"
description = \"Fix the cause, keeping the reproduction as a regression test.\"
command = \"/implement\"
optional = false
repeatable = true

[[stage]]
name = \"verify\"
description = \"Check the reproduction now passes and nothing near it broke.\"
command = \"/review\"
optional = false
repeatable = false
";

/// The shipped presets, in order of their names.
pub open spec fn catalog_spec() -> Seq<Shipped> {
    seq![
        Shipped {
            name: "bugfix",
            description: "From a reproduction to a verified fix: reproduce, diagnose, fix, verify.",
            contents: BUGFIX,
        },
        Shipped {
            name: "main-flow",
            description: "Idea to shipped code: grill, spec, tickets, implement, review.",
            contents: MAIN_FLOW,
        },
        Shipped {
            name: "minimal",
            description: "Plan it, then build it. Add stages when you miss them.",
            contents: MINIMAL,
        },
    ]
}

/// Every shipped preset, in order of their names.
pub fn catalog() -> (r: Vec<Shipped>)
    ensures
        r@ == catalog_spec(),
{
    let r = vec![
        Shipped {
            name: "bugfix",
            description: "From a reproduction to a verified fix: reproduce, diagnose, fix, verify.",
            contents: BUGFIX,
        },
        Shipped {
            name: "main-flow",
            description: "Idea to shipped code: grill, spec, tickets, implement, review.",
            contents: MAIN_FLOW,
        },
        Shipped {
            name: "minimal",
            description: "Plan it, then build it. Add stages when you miss them.",
            contents: MINIMAL,
        },
    ];
    assert(r@ =~= catalog_spec());
    r
}

/// The position of the first shipped preset called `name`.
pub open spec fn shipped_index(name: Seq<char>) -> Option<int> {
    if exists|i: int| 0 <= i < catalog_spec().len() && catalog_spec()[i].name@ == name {
        Some(
            choose|i: int|
                0 <= i < catalog_spec().len() && catalog_spec()[i].name@ == name && forall|j: int|
                    0 <= j < i ==> catalog_spec()[j].name@ != name,
        )
    } else {
        None
    }
}

/// The shipped preset with this name, if one ships.
pub fn shipped(name: &str) -> (r: Option<Shipped>)
    ensures
        match shipped_index(name@) {
            Some(i) => r == Some(catalog_spec()[i]),
            None => r is None,
        },
{
    let all = catalog();
    let mut i: usize = 0;
    while i < all.len()
        invariant
            all@ == catalog_spec(),
            i <= all@.len(),
            forall|j: int| 0 <= j < i ==> all@[j].name@ != name@,
        decreases all.len() - i,
    {
        if crate::text::str_eq(all[i].name, name) {
            proof {
                let k = choose|k: int|
                    0 <= k < catalog_spec().len() && catalog_spec()[k].name@ == name@ && forall|j: int|
                        0 <= j < k ==> catalog_spec()[j].name@ != name@;
                assert(0 <= k < catalog_spec().len() && catalog_spec()[k].name@ == name@);
                if k < i {
                    assert(all@[k].name@ != name@);
                }
                if i < k {
                    assert(catalog_spec()[i as int].name@ != name@);
                }
            }
            return Some(all[i]);
        }
        i = i + 1;
    }
    None
}

/// The names of the shipped presets.
pub open spec fn shipped_names_spec() -> Seq<Seq<char>> {
    Seq::new(catalog_spec().len(), |i: int| catalog_spec()[i].name@)
}

/// Every shipped preset's name, for telling someone what they could have
/// asked for instead.
pub fn shipped_names() -> (r: Vec<&'static str>)
    ensures
        r@.len() == catalog_spec().len(),
        forall|i: int| 0 <= i < r@.len() ==> (#[trigger] r@[i])@ == shipped_names_spec()[i],
{
    let all = catalog();
    let mut r: Vec<&'static str> = Vec::new();
    let mut i: usize = 0;
    while i < all.len()
        invariant
            all@ == catalog_spec(),
            i <= all@.len(),
            r@.len() == i,
            forall|j: int| 0 <= j < i ==> (#[trigger] r@[j])@ == shipped_names_spec()[j],
        decreases all.len() - i,
    {
        r.push(all[i].name);
        i = i + 1;
    }
    r
}

} // verus!
