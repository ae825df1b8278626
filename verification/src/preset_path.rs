//! The Preset Path: the ordered list of places presets are read from, nearest
//! owner first — the project and its ancestors, then the user, then what
//! ships with `flow`. A nearer preset shadows a farther one of the same name,
//! whole file for whole file; the shadowed one is still reported.
use crate::flow::{flow_dir_spec, Flow};
use crate::path::{ancestry, join_seq};
use crate::table::{has_key, index_of_key, insert, key_position, lemma_index_of_key_props, lemma_sorted_index, lookup, sorted, take_at};
use crate::text::{first_in, lemma_first_in_is, lemma_first_in_props, owned, push_str, seq_lt, str_eq, views};
use vstd::prelude::*;

verus! {

/// Which layer of the Preset Path a preset was found on.
#[derive(Debug, Clone, PartialEq, Eq)]
pub enum Layer {
    /// `.flow/presets/` in the starting directory or one of its ancestors.
    Project(String),
    /// The user's presets directory.
    User,
    /// What ships with `flow`.
    Shipped,
}

impl Layer {
    /// The layer's name on its own, for a column that has to line up.
    pub fn label(&self) -> (r: &'static str)
        ensures
            r@ == match self {
                Layer::Project(_) => "project"@,
                Layer::User => "user"@,
                Layer::Shipped => "shipped"@,
            },
    {
        match self {
            Layer::Project(_) => "project",
            Layer::User => "user",
            Layer::Shipped => "shipped",
        }
    }

    /// A copy of this layer.
    pub fn copy(&self) -> (r: Layer)
        ensures
            r == *self,
    {
        match self {
            Layer::Project(d) => Layer::Project(d.clone()),
            Layer::User => Layer::User,
            Layer::Shipped => Layer::Shipped,
        }
    }

    /// The layer named in full, so that two project layers are told apart by
    /// the directory they came from.
    pub fn describe(&self) -> (r: String)
        ensures
            r@ == match self {
                Layer::Project(d) => "project ("@ + d@ + ")"@,
                Layer::User => "user"@,
                Layer::Shipped => "shipped"@,
            },
    {
        match self {
            Layer::Project(d) => {
                let mut s = owned("project (");
                push_str(&mut s, d.as_str());
                push_str(&mut s, ")");
                s
            },
            Layer::User => owned("user"),
            Layer::Shipped => owned("shipped"),
        }
    }
}

/// A preset file found on the path: the layer it was found on, its name (the
/// file's stem), its description and its text.
#[derive(Debug, Clone)]
pub struct Candidate {
    pub layer: Layer,
    pub name: String,
    pub description: String,
    pub contents: String,
}

/// A preset that lost its name to a nearer one: the layer it was found on
/// and its description, so that a listing can say what was overridden.
#[derive(Debug, Clone, PartialEq, Eq)]
pub struct Shadowed {
    pub layer: Layer,
    pub description: String,
}

/// What a candidate leaves behind when a nearer one takes its name.
pub open spec fn shadow_of(c: Candidate) -> Shadowed {
    Shadowed { layer: c.layer, description: c.description }
}

/// A preset that won its name, and the ones it beat.
#[derive(Debug, Clone)]
pub struct Preset {
    pub name: String,
    pub description: String,
    pub contents: String,
    pub layer: Layer,
    /// The farther presets that carry this name too, nearest first.
    pub shadowed: Vec<Shadowed>,
}

/// The first candidate called `n`.
pub open spec fn first_named(c: Seq<Candidate>, n: Seq<char>) -> Option<int> {
    if exists|j: int| 0 <= j < c.len() && c[j].name@ == n {
        Some(
            choose|k: int|
                0 <= k < c.len() && c[k].name@ == n && forall|j: int| 0 <= j < k ==> c[j].name@ != n,
        )
    } else {
        None
    }
}

/// The layers and descriptions of the first `m` candidates called `n`, in
/// order.
pub open spec fn named_shadows(c: Seq<Candidate>, n: Seq<char>, m: nat) -> Seq<Shadowed>
    decreases m,
{
    if m == 0 {
        Seq::empty()
    } else if c[m - 1].name@ == n {
        named_shadows(c, n, (m - 1) as nat).push(shadow_of(c[m - 1]))
    } else {
        named_shadows(c, n, (m - 1) as nat)
    }
}

/// Whether some candidate among the first `m` is called `n`.
pub open spec fn named_within(c: Seq<Candidate>, n: Seq<char>, m: int) -> bool {
    exists|j: int| 0 <= j < m && c[j].name@ == n
}

/// Whether `p` is what the first `m` candidates make of the name `n`: the
/// nearest candidate called `n`, shadowing every later one of that name.
pub open spec fn wins(p: Preset, c: Seq<Candidate>, n: Seq<char>, m: nat) -> bool {
    match first_named(c, n) {
        Some(k) => {
            &&& k < m
            &&& p.name == c[k].name
            &&& p.description == c[k].description
            &&& p.contents == c[k].contents
            &&& p.layer == c[k].layer
            &&& p.shadowed@ == named_shadows(c, n, m).drop_first()
        },
        None => false,
    }
}

proof fn lemma_named_shadows_nonempty(c: Seq<Candidate>, n: Seq<char>, m: nat, j: int)
    requires
        0 <= j < m <= c.len(),
        c[j].name@ == n,
    ensures
        named_shadows(c, n, m).len() > 0,
    decreases m,
{
    if j < m - 1 {
        lemma_named_shadows_nonempty(c, n, (m - 1) as nat, j);
    }
}

proof fn lemma_first_named(c: Seq<Candidate>, n: Seq<char>)
    ensures
        match first_named(c, n) {
            Some(k) => 0 <= k < c.len() && c[k].name@ == n && forall|j: int|
                0 <= j < k ==> c[j].name@ != n,
            None => forall|j: int| 0 <= j < c.len() ==> c[j].name@ != n,
        },
{
    if exists|j: int| 0 <= j < c.len() && c[j].name@ == n {
        let w = choose|w: int| 0 <= w < c.len() && c[w].name@ == n;
        lemma_least_named(c, n, w);
    }
}

proof fn lemma_least_named(c: Seq<Candidate>, n: Seq<char>, w: int)
    requires
        0 <= w < c.len(),
        c[w].name@ == n,
    ensures
        exists|k: int| 0 <= k < c.len() && c[k].name@ == n && forall|j: int| 0 <= j < k ==> c[j].name@ != n,
    decreases w,
{
    if exists|j: int| 0 <= j < w && c[j].name@ == n {
        let j = choose|j: int| 0 <= j < w && c[j].name@ == n;
        lemma_least_named(c, n, j);
    } else {
        assert(forall|j: int| 0 <= j < w ==> c[j].name@ != n);
    }
}

proof fn lemma_first_named_is(c: Seq<Candidate>, n: Seq<char>, i: int)
    requires
        0 <= i < c.len(),
        c[i].name@ == n,
        forall|j: int| 0 <= j < i ==> c[j].name@ != n,
    ensures
        first_named(c, n) == Some(i),
{
    lemma_first_named(c, n);
    let k = first_named(c, n)->0;
    if k < i {
        assert(c[k].name@ != n);
    }
    if i < k {
        assert(c[i].name@ != n);
    }
}

/// The table of winners after the first `m` candidates.
pub open spec fn table_ok(t: Seq<(String, Preset)>, c: Seq<Candidate>, m: nat) -> bool {
    &&& sorted(t)
    &&& forall|i: int| 0 <= i < t.len() ==> (#[trigger] t[i]).0@ == t[i].1.name@
    &&& forall|n: Seq<char>| #[trigger] has_key(t, n) <==> named_within(c, n, m as int)
    &&& forall|n: Seq<char>|
        #[trigger] lookup(t, n) is Some ==> wins(lookup(t, n)->0, c, n, m)
}

/// What the first `m + 1` candidates say of each name, against what the
/// first `m` said.
proof fn lemma_step_names(c: Seq<Candidate>, m: int)
    requires
        0 <= m < c.len(),
    ensures
        forall|n: Seq<char>| n != c[m].name@ ==> #[trigger] named_shadows(c, n, (m + 1) as nat)
            == named_shadows(c, n, m as nat),
        named_shadows(c, c[m].name@, (m + 1) as nat) == named_shadows(c, c[m].name@, m as nat).push(
            shadow_of(c[m]),
        ),
        forall|n: Seq<char>|
            #[trigger] named_within(c, n, m + 1) <==> (n == c[m].name@ || named_within(c, n, m)),
{
    let cn = c[m].name@;
    assert forall|n: Seq<char>| #[trigger] named_within(c, n, m + 1) <==> (n == cn || named_within(
        c,
        n,
        m,
    )) by {
        if named_within(c, n, m + 1) && n != cn {
            let j = choose|j: int| 0 <= j < m + 1 && c[j].name@ == n;
            assert(j < m);
        }
        if n == cn {
            assert(c[m].name@ == n);
        }
    }
}

/// A table keyed by each preset's name keeps that property when a key is
/// bound to a preset of that name.
proof fn lemma_keys_named(
    t0: Seq<(String, Preset)>,
    n2: Seq<(String, Preset)>,
    cn: Seq<char>,
)
    requires
        sorted(t0),
        sorted(n2),
        forall|i: int| 0 <= i < t0.len() ==> (#[trigger] t0[i]).0@ == t0[i].1.name@,
        lookup(n2, cn) is Some ==> lookup(n2, cn)->0.name@ == cn,
        forall|j: Seq<char>| j != cn ==> #[trigger] lookup(n2, j) == lookup(t0, j),
    ensures
        forall|i: int| 0 <= i < n2.len() ==> (#[trigger] n2[i]).0@ == n2[i].1.name@,
{
    assert forall|i: int| 0 <= i < n2.len() implies (#[trigger] n2[i]).0@ == n2[i].1.name@ by {
        lemma_sorted_index(n2, i);
        let key = n2[i].0@;
        if key != cn {
            assert(lookup(n2, key) == lookup(t0, key));
            lemma_index_of_key_props(t0, key);
            let w = index_of_key(t0, key)->0;
            lemma_sorted_index(t0, w);
        }
    }
}

/// The winner of a name keeps it when a farther candidate of that name turns
/// up, and shadows it.
proof fn lemma_shadow_wins(q: Preset, p: Preset, c: Seq<Candidate>, m: int)
    requires
        0 <= m < c.len(),
        wins(q, c, c[m].name@, m as nat),
        p.name == q.name,
        p.description == q.description,
        p.contents == q.contents,
        p.layer == q.layer,
        p.shadowed@ == q.shadowed@.push(shadow_of(c[m])),
    ensures
        wins(p, c, c[m].name@, (m + 1) as nat),
{
    let cn = c[m].name@;
    lemma_first_named(c, cn);
    let k = first_named(c, cn)->0;
    lemma_named_shadows_nonempty(c, cn, m as nat, k);
    let x = named_shadows(c, cn, m as nat);
    assert(named_shadows(c, cn, (m + 1) as nat) == x.push(shadow_of(c[m])));
    assert(x.push(shadow_of(c[m])).drop_first() =~= x.drop_first().push(shadow_of(c[m])));
}

/// The table after the winner of the name of candidate `m` gains that
/// candidate among those it shadows.
#[verifier::rlimit(60)]
proof fn lemma_shadow_ok(
    t0: Seq<(String, Preset)>,
    t1: Seq<(String, Preset)>,
    n2: Seq<(String, Preset)>,
    c: Seq<Candidate>,
    m: int,
    i: int,
    p: Preset,
)
    requires
        0 <= m < c.len(),
        table_ok(t0, c, m as nat),
        0 <= i < t0.len(),
        t0[i].0@ == c[m].name@,
        p.name == t0[i].1.name,
        p.description == t0[i].1.description,
        p.contents == t0[i].1.contents,
        p.layer == t0[i].1.layer,
        p.shadowed@ == t0[i].1.shadowed@.push(shadow_of(c[m])),
        forall|j: Seq<char>| j != c[m].name@ ==> #[trigger] lookup(t1, j) == lookup(t0, j),
        forall|j: Seq<char>| #[trigger] has_key(t1, j) <==> (j != c[m].name@ && has_key(t0, j)),
        sorted(n2),
        lookup(n2, c[m].name@) == Some(p),
        forall|j: Seq<char>| j != c[m].name@ ==> #[trigger] lookup(n2, j) == lookup(t1, j),
        forall|j: Seq<char>| has_key(n2, j) <==> (j == c[m].name@ || has_key(t1, j)),
    ensures
        table_ok(n2, c, (m + 1) as nat),
{
    let cn = c[m].name@;
    lemma_step_names(c, m);
    lemma_sorted_index(t0, i);
    assert(lookup(t0, cn) == Some(t0[i].1));
    let q = t0[i].1;
    assert(wins(q, c, cn, m as nat));
    assert(has_key(t0, cn));
    lemma_shadow_wins(q, p, c, m);
    assert forall|j: Seq<char>| j != cn implies #[trigger] lookup(n2, j) == lookup(t0, j) by {}
    lemma_keys_named(t0, n2, cn);
    assert forall|n: Seq<char>| #[trigger] lookup(n2, n) is Some implies wins(
        lookup(n2, n)->0,
        c,
        n,
        (m + 1) as nat,
    ) by {
        if n != cn {
            assert(lookup(n2, n) == lookup(t0, n));
        }
    }
    assert forall|n: Seq<char>| #[trigger] has_key(n2, n) <==> named_within(c, n, m + 1) by {}
}

/// One candidate's step of `discover`, for a name already in the table: the
/// winner gains the candidate among those it shadows.
fn shadow_candidate(t: &mut Vec<(String, Preset)>, c: &Vec<Candidate>, m: usize, i: usize)
    requires
        m < c@.len(),
        table_ok(old(t)@, c@, m as nat),
        i < old(t)@.len(),
        old(t)@[i as int].0@ == c@[m as int].name@,
    ensures
        table_ok(final(t)@, c@, (m + 1) as nat),
{
    let ghost t0 = t@;
    let (k, mut p) = take_at(t, i);
    let ghost t1 = t@;
    p.shadowed.push(Shadowed { layer: c[m].layer.copy(), description: c[m].description.clone() });
    let ghost pv = p;
    insert(t, k, p);
    proof {
        lemma_shadow_ok(t0, t1, t@, c@, m as int, i as int, pv);
    }
}

/// One candidate's step of `discover`, for a name not yet in the table: the
/// candidate wins it.
#[verifier::rlimit(40)]
fn claim_candidate(t: &mut Vec<(String, Preset)>, c: &Vec<Candidate>, m: usize)
    requires
        m < c@.len(),
        table_ok(old(t)@, c@, m as nat),
        !has_key(old(t)@, c@[m as int].name@),
    ensures
        table_ok(final(t)@, c@, (m + 1) as nat),
{
    let ghost cn = c@[m as int].name@;
    let ghost t0 = t@;
    let cand = &c[m];
    let p = Preset {
        name: cand.name.clone(),
        description: cand.description.clone(),
        contents: cand.contents.clone(),
        layer: cand.layer.copy(),
        shadowed: Vec::new(),
    };
    proof {
        lemma_step_names(c@, m as int);
        assert(!named_within(c@, cn, m as int));
        lemma_first_named_is(c@, cn, m as int);
        lemma_no_named_shadows(c@, cn, m as nat);
        assert(p.shadowed@ =~= named_shadows(c@, cn, (m + 1) as nat).drop_first());
        assert(wins(p, c@, cn, (m + 1) as nat));
    }
    insert(t, cand.name.clone(), p);
    proof {
        let n2 = t@;
        lemma_keys_named(t0, n2, cn);
        assert forall|n: Seq<char>| #[trigger] lookup(n2, n) is Some implies wins(
            lookup(n2, n)->0,
            c@,
            n,
            (m + 1) as nat,
        ) by {
            if n != cn {
                assert(lookup(n2, n) == lookup(t0, n));
            }
        }
    }
}

/// One candidate's step of `discover`.
fn take_candidate(t: &mut Vec<(String, Preset)>, c: &Vec<Candidate>, m: usize)
    requires
        m < c@.len(),
        table_ok(old(t)@, c@, m as nat),
    ensures
        table_ok(final(t)@, c@, (m + 1) as nat),
{
    proof {
        lemma_index_of_key_props(t@, c@[m as int].name@);
    }
    match key_position(t, c[m].name.as_str()) {
        Some(i) => shadow_candidate(t, c, m, i),
        None => {
            proof {
                assert(!has_key(t@, c@[m as int].name@)) by {
                    if has_key(t@, c@[m as int].name@) {
                        let w = choose|w: int| 0 <= w < t@.len() && t@[w].0@ == c@[m as int].name@;
                        assert(t@[w].0@ != c@[m as int].name@);
                    }
                }
            }
            claim_candidate(t, c, m)
        },
    }
}

proof fn lemma_no_named_shadows(c: Seq<Candidate>, n: Seq<char>, m: nat)
    requires
        m <= c.len(),
        !named_within(c, n, m as int),
    ensures
        named_shadows(c, n, m) == Seq::<Shadowed>::empty(),
    decreases m,
{
    if m > 0 {
        assert(c[m - 1].name@ != n);
        assert(!named_within(c, n, m - 1)) by {
            if named_within(c, n, m - 1) {
                let j = choose|j: int| 0 <= j < m - 1 && c[j].name@ == n;
                assert(0 <= j < m && c[j].name@ == n);
            }
        }
        lemma_no_named_shadows(c, n, (m - 1) as nat);
    }
}

/// Every preset the candidates offer, by name in ascending order: one per
/// name, the nearest candidate of that name, carrying the layers and
/// descriptions of the farther ones it shadows. `candidates` lists the preset files of the path
/// nearest owner first.
pub fn discover(candidates: &Vec<Candidate>) -> (r: Vec<Preset>)
    ensures
        forall|i: int, j: int| 0 <= i < j < r@.len() ==> seq_lt(#[trigger] r@[i].name@, #[trigger] r@[j].name@),
        forall|n: Seq<char>|
            (exists|i: int| 0 <= i < r@.len() && r@[i].name@ == n) <==> named_within(
                candidates@,
                n,
                candidates@.len() as int,
            ),
        forall|i: int|
            0 <= i < r@.len() ==> wins(
                #[trigger] r@[i],
                candidates@,
                r@[i].name@,
                candidates@.len() as nat,
            ),
{
    let t = winners_table(candidates);
    let ghost t0 = t@;
    let out = table_values(t);
    proof {
        lemma_table_list(t0, out@, candidates@);
    }
    out
}

/// The winner of each name among the candidates, keyed by name.
fn winners_table(candidates: &Vec<Candidate>) -> (t: Vec<(String, Preset)>)
    ensures
        table_ok(t@, candidates@, candidates@.len() as nat),
{
    let mut t: Vec<(String, Preset)> = Vec::new();
    let mut m: usize = 0;
    while m < candidates.len()
        invariant
            m <= candidates@.len(),
            table_ok(t@, candidates@, m as nat),
        decreases candidates.len() - m,
    {
        take_candidate(&mut t, candidates, m);
        m = m + 1;
    }
    t
}

/// The values of a table, in its order.
fn table_values(t: Vec<(String, Preset)>) -> (out: Vec<Preset>)
    ensures
        out@.len() == t@.len(),
        forall|i: int| 0 <= i < out@.len() ==> out@[i] == t@[i].1,
{
    let ghost t0 = t@;
    let mut t = t;
    let mut out: Vec<Preset> = Vec::new();
    while t.len() > 0
        invariant
            t0.len() == out@.len() + t@.len(),
            forall|i: int| 0 <= i < out@.len() ==> out@[i] == t0[i].1,
            forall|i: int| 0 <= i < t@.len() ==> t@[i] == t0[i + out@.len()],
        decreases t.len(),
    {
        let (k, p) = t.remove(0);
        out.push(p);
    }
    out
}

/// The winners listed in table order keep the table's properties.
proof fn lemma_table_list(t0: Seq<(String, Preset)>, out: Seq<Preset>, c: Seq<Candidate>)
    requires
        table_ok(t0, c, c.len() as nat),
        t0.len() == out.len(),
        forall|i: int| 0 <= i < out.len() ==> out[i] == t0[i].1,
    ensures
        forall|i: int, j: int| 0 <= i < j < out.len() ==> seq_lt(#[trigger] out[i].name@, #[trigger] out[j].name@),
        forall|n: Seq<char>|
            (exists|i: int| 0 <= i < out.len() && out[i].name@ == n) <==> named_within(
                c,
                n,
                c.len() as int,
            ),
        forall|i: int| 0 <= i < out.len() ==> wins(#[trigger] out[i], c, out[i].name@, c.len() as nat),
{
    assert forall|i: int, j: int| 0 <= i < j < out.len() implies seq_lt(
        #[trigger] out[i].name@,
        #[trigger] out[j].name@,
    ) by {
        assert(t0[i].0@ == t0[i].1.name@);
        assert(t0[j].0@ == t0[j].1.name@);
    }
    assert forall|n: Seq<char>|
        (exists|i: int| 0 <= i < out.len() && out[i].name@ == n) <==> named_within(
            c,
            n,
            c.len() as int,
        ) by {
        if exists|i: int| 0 <= i < out.len() && out[i].name@ == n {
            let i = choose|i: int| 0 <= i < out.len() && out[i].name@ == n;
            assert(t0[i].0@ == t0[i].1.name@);
            assert(has_key(t0, n));
        }
        if named_within(c, n, c.len() as int) {
            assert(has_key(t0, n));
            let i = choose|i: int| 0 <= i < t0.len() && t0[i].0@ == n;
            assert(t0[i].0@ == t0[i].1.name@);
            assert(out[i].name@ == n);
        }
    }
    assert forall|i: int| 0 <= i < out.len() implies wins(
        #[trigger] out[i],
        c,
        out[i].name@,
        c.len() as nat,
    ) by {
        lemma_sorted_index(t0, i);
        assert(t0[i].0@ == t0[i].1.name@);
        assert(lookup(t0, t0[i].0@) == Some(t0[i].1));
    }
}

/// The presets directory of the project layer in directory `d`.
pub open spec fn presets_dir_spec(d: Seq<char>) -> Seq<char> {
    join_seq(flow_dir_spec(d), "presets"@)
}

/// How far up the project walk goes, as a position in the ancestry of the
/// start: to the outermost repository root or to the home directory,
/// whichever is farther — and no further than the start itself when neither
/// lies on the way up. `repo_root[i]` says whether ancestor `i` holds a
/// repository (`.git`); `home` is the home directory, if known.
pub open spec fn walk_limit(anc: Seq<Seq<char>>, home: Option<Seq<char>>, repo_root: Seq<bool>) -> int {
    let h = match home {
        Some(hd) => match position_of(anc, hd) {
            Some(i) => i,
            None => 0,
        },
        None => 0,
    };
    let g = last_repo(anc.len() as int, repo_root);
    if g > h {
        g
    } else {
        h
    }
}

/// The first position of `x` in `s`.
pub open spec fn position_of(s: Seq<Seq<char>>, x: Seq<char>) -> Option<int> {
    if exists|j: int| 0 <= j < s.len() && s[j] == x {
        Some(choose|k: int| 0 <= k < s.len() && s[k] == x && forall|j: int| 0 <= j < k ==> s[j] != x)
    } else {
        None
    }
}

proof fn lemma_least_position(s: Seq<Seq<char>>, x: Seq<char>, w: int)
    requires
        0 <= w < s.len(),
        s[w] == x,
    ensures
        exists|k: int| 0 <= k < s.len() && s[k] == x && forall|j: int| 0 <= j < k ==> s[j] != x,
    decreases w,
{
    if exists|j: int| 0 <= j < w && s[j] == x {
        let j = choose|j: int| 0 <= j < w && s[j] == x;
        lemma_least_position(s, x, j);
    } else {
        assert(forall|j: int| 0 <= j < w ==> s[j] != x);
    }
}

proof fn lemma_position_is(s: Seq<Seq<char>>, x: Seq<char>, i: int)
    requires
        0 <= i < s.len(),
        s[i] == x,
        forall|j: int| 0 <= j < i ==> s[j] != x,
    ensures
        position_of(s, x) == Some(i),
{
    lemma_least_position(s, x, i);
    let k = position_of(s, x)->0;
    if k < i {
        assert(s[k] != x);
    }
    if i < k {
        assert(s[i] != x);
    }
}

/// The position of the outermost flagged repository root below `n`, or 0.
pub open spec fn last_repo(n: int, repo_root: Seq<bool>) -> int
    decreases n,
{
    if n <= 0 {
        0
    } else if n - 1 < repo_root.len() && repo_root[n - 1] {
        n - 1
    } else {
        last_repo(n - 1, repo_root)
    }
}

proof fn lemma_last_repo_bound(n: int, repo_root: Seq<bool>)
    ensures
        0 <= last_repo(n, repo_root),
        n > 0 ==> last_repo(n, repo_root) < n,
    decreases n,
{
    if n > 0 {
        lemma_last_repo_bound(n - 1, repo_root);
    }
}

/// The first position of `x` in `v`.
fn position_in(v: &Vec<String>, x: &str) -> (r: Option<usize>)
    ensures
        match r {
            Some(i) => position_of(views(v@), x@) == Some(i as int) && i < v@.len(),
            None => position_of(views(v@), x@) is None,
        },
{
    let mut i: usize = 0;
    while i < v.len()
        invariant
            i <= v@.len(),
            forall|j: int| 0 <= j < i ==> views(v@)[j] != x@,
        decreases v.len() - i,
    {
        if str_eq(v[i].as_str(), x) {
            proof {
                lemma_position_is(views(v@), x@, i as int);
            }
            return Some(i);
        }
        i = i + 1;
    }
    None
}

/// The presets directories the project layer reads, nearest ancestor first:
/// the start's and each ancestor's, up to the walk's limit.
pub fn project_dirs(start: &str, home: Option<&str>, repo_root: &Vec<bool>) -> (r: Vec<String>)
    ensures
        r@.len() == walk_limit(ancestry(start@), crate::flow::opt_view(home), repo_root@) + 1,
        forall|i: int|
            0 <= i < r@.len() ==> (#[trigger] r@[i])@ == presets_dir_spec(ancestry(start@)[i]),
{
    let anc = crate::path::ancestors(start);
    let ghost a = ancestry(start@);
    proof {
        crate::path::lemma_ancestry_nonempty(start@);
    }
    let h: usize = match home {
        Some(hd) => match position_in(&anc, hd) {
            Some(i) => i,
            None => 0,
        },
        None => 0,
    };
    assert(h as int == match crate::flow::opt_view(home) {
        Some(hd) => match position_of(a, hd) {
            Some(i) => i,
            None => 0,
        },
        None => 0,
    });
    assert(h < anc@.len());
    let mut g: usize = anc.len();
    while g > 0 && !(g - 1 < repo_root.len() && repo_root[g - 1])
        invariant
            g <= anc@.len(),
            last_repo(anc@.len() as int, repo_root@) == last_repo(g as int, repo_root@),
        decreases g,
    {
        g = g - 1;
    }
    let g2: usize = if g > 0 {
        g - 1
    } else {
        0
    };
    proof {
        lemma_last_repo_bound(anc@.len() as int, repo_root@);
    }
    let limit = if g2 > h {
        g2
    } else {
        h
    };
    let mut r: Vec<String> = Vec::new();
    let mut i: usize = 0;
    let bound = limit + 1;
    while i < bound
        invariant
            views(anc@) == a,
            limit < anc@.len(),
            bound == limit + 1,
            i <= limit + 1,
            r@.len() == i,
            forall|j: int| 0 <= j < i ==> (#[trigger] r@[j])@ == presets_dir_spec(a[j]),
        decreases bound - i,
    {
        let d = crate::flow::flow_dir(anc[i].as_str());
        let pd = crate::path::join(d.as_str(), "presets");
        proof {
            assert(views(anc@)[i as int] == anc@[i as int]@);
        }
        r.push(pd);
        i = i + 1;
    }
    r
}

/// Why a parsed preset file is not a preset, if it is not one: a flow with
/// no stages, or one whose declared name disagrees with its filename stem.
pub fn check_preset(stem: &str, flow: &Flow) -> (r: Result<(), String>)
    ensures
        r is Ok <==> flow.stages@.len() > 0 && flow.name@ == stem@,
        flow.stages@.len() == 0 ==> (r matches Err(e) && e@ == "declares no stages"@),
        flow.stages@.len() > 0 && flow.name@ != stem@ ==> (r matches Err(e) && e@
            == crate::preset_name::mismatch_reason(stem@, flow.name@)),
{
    if flow.stages.len() == 0 {
        return Err(owned("declares no stages"));
    }
    crate::preset_name::check(stem, flow.name.as_str())
}

} // verus!
