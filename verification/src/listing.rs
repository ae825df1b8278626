//! `flow presets`: what the Preset Path offers, listed with the layer each
//! preset came from and what it shadows, and the files that were skipped.
use crate::preset_path::{Candidate, Layer, Preset, Shadowed};
use crate::text::{owned, push_str, str_eq, views};
use vstd::prelude::*;

verus! {

/// How a layer is named in full.
pub open spec fn layer_text(l: Layer) -> Seq<char> {
    match l {
        Layer::Project(d) => "project ("@ + d@ + ")"@,
        Layer::User => "user"@,
        Layer::Shipped => "shipped"@,
    }
}

/// A preset that was shadowed, written as its row is: its description, when
/// it has one, then its layer in brackets.
pub open spec fn shadowed_text(s: Shadowed) -> Seq<char> {
    (if s.description@.len() == 0 {
        Seq::<char>::empty()
    } else {
        s.description@ + " "@
    }) + "("@ + layer_text(s.layer) + ")"@
}

/// The presets a preset shadows, each with what it said of itself, separated
/// by `; `.
pub open spec fn shadows_text(ss: Seq<Shadowed>) -> Seq<char> {
    crate::text::join_seq(Seq::new(ss.len(), |i: int| shadowed_text(ss[i])), "; "@)
}

/// The line for a preset in `flow presets`: marked when it is what a bare
/// `flow init` writes, its name in a column, its description and its layer;
/// then, when it shadows anything, a line naming what it beat: the
/// description and layer of each preset it overrode.
pub open spec fn preset_entry(p: Preset, default: Seq<char>) -> Seq<char> {
    "  "@ + (if p.name@ == default {
        "*"@
    } else {
        " "@
    }) + " "@ + crate::status::pad(p.name@, 12) + " "@ + p.description@ + "   ("@ + layer_text(p.layer)
        + ")\n"@ + (if p.shadowed@.len() == 0 {
        Seq::<char>::empty()
    } else {
        "      "@ + layer_text(p.layer) + " shadows "@ + shadows_text(p.shadowed@) + "\n"@
    })
}

/// The entries of the first `n` presets.
pub open spec fn preset_entries(ps: Seq<Preset>, default: Seq<char>, n: nat) -> Seq<char>
    decreases n,
{
    if n == 0 {
        Seq::empty()
    } else {
        preset_entries(ps, default, (n - 1) as nat) + preset_entry(ps[n - 1], default)
    }
}

/// The lines for the first `n` preset files that were skipped, with why.
pub open spec fn skipped_lines(sk: Seq<(String, String)>, n: nat) -> Seq<char>
    decreases n,
{
    if n == 0 {
        Seq::empty()
    } else {
        skipped_lines(sk, (n - 1) as nat) + "  "@ + sk[n - 1].0@ + ": "@ + sk[n - 1].1@ + "\n"@
    }
}

/// What `flow presets` prints: every preset on the Preset Path with its
/// layer, the default marked, what each shadows, the files skipped and why,
/// and how to change the default.
pub open spec fn presets_report_spec(ps: Seq<Preset>, default: Seq<char>, sk: Seq<(String, String)>) -> Seq<
    char,
> {
    "Flows you can init with. `flow init --preset <name>`, or pass a path to a .toml of your own.\n\n"@
        + preset_entries(ps, default, ps.len()) + (if sk.len() == 0 {
        Seq::<char>::empty()
    } else {
        "\nSkipped:\n"@ + skipped_lines(sk, sk.len())
    }) + missing_default(ps, default)
        + "\n* is what a bare `flow init` writes. Change it with `preset = \"<name>\"` in your user config.\n"@
}

/// A line naming the default when no preset carries its name: a bare
/// `flow init` refuses then, and this is where someone looks to find out why.
pub open spec fn missing_default(ps: Seq<Preset>, default: Seq<char>) -> Seq<char> {
    if exists|i: int| 0 <= i < ps.len() && #[trigger] ps[i].name@ == default {
        Seq::empty()
    } else {
        "\nThe default preset `"@ + default
            + "` is not on the Preset Path, so a bare `flow init` refuses until it is.\n"@
    }
}

fn shadowed_line(s: &Shadowed) -> (r: String)
    ensures
        r@ == shadowed_text(*s),
{
    let mut r = String::new();
    if !s.description.as_str().is_empty() {
        push_str(&mut r, s.description.as_str());
        push_str(&mut r, " ");
    }
    push_str(&mut r, "(");
    let layer = s.layer.describe();
    push_str(&mut r, layer.as_str());
    push_str(&mut r, ")");
    r
}

fn shadows_join(ss: &Vec<Shadowed>) -> (r: String)
    ensures
        r@ == shadows_text(ss@),
{
    let mut parts: Vec<String> = Vec::new();
    let mut i: usize = 0;
    while i < ss.len()
        invariant
            i <= ss@.len(),
            parts@.len() == i,
            forall|j: int| 0 <= j < i ==> (#[trigger] parts@[j])@ == shadowed_text(ss@[j]),
        decreases ss.len() - i,
    {
        parts.push(shadowed_line(&ss[i]));
        i = i + 1;
    }
    assert(views(parts@) =~= Seq::new(ss@.len(), |i: int| shadowed_text(ss@[i])));
    crate::text::join(&parts, "; ")
}

fn entry_text(p: &Preset, default: &str) -> (r: String)
    ensures
        r@ == preset_entry(*p, default@),
{
    let mut r = owned("  ");
    if str_eq(p.name.as_str(), default) {
        push_str(&mut r, "*");
    } else {
        push_str(&mut r, " ");
    }
    push_str(&mut r, " ");
    let name = crate::status::padded(p.name.as_str(), 12);
    push_str(&mut r, name.as_str());
    push_str(&mut r, " ");
    push_str(&mut r, p.description.as_str());
    push_str(&mut r, "   (");
    let layer = p.layer.describe();
    push_str(&mut r, layer.as_str());
    push_str(&mut r, ")\n");
    let ghost head = r@;
    if p.shadowed.len() > 0 {
        push_str(&mut r, "      ");
        push_str(&mut r, layer.as_str());
        push_str(&mut r, " shadows ");
        let others = shadows_join(&p.shadowed);
        push_str(&mut r, others.as_str());
        push_str(&mut r, "\n");
    }
    assert(r@ =~= preset_entry(*p, default@));
    r
}

/// What `flow presets` prints for the presets `discover` offers, with
/// `default` the name a bare `flow init` resolves and `skipped` the preset
/// files that were passed over, each with its reason.
pub fn presets_report(presets: &Vec<Preset>, default: &str, skipped: &Vec<(String, String)>) -> (r:
    String)
    ensures
        r@ == presets_report_spec(presets@, default@, skipped@),
{
    let mut r = owned(
        "Flows you can init with. `flow init --preset <name>`, or pass a path to a .toml of your own.\n\n",
    );
    let ghost h0 = r@;
    let mut i: usize = 0;
    while i < presets.len()
        invariant
            i <= presets@.len(),
            r@ == h0 + preset_entries(presets@, default@, i as nat),
        decreases presets.len() - i,
    {
        let e = entry_text(&presets[i], default);
        push_str(&mut r, e.as_str());
        i = i + 1;
    }
    let ghost h1 = r@;
    if skipped.len() > 0 {
        push_str(&mut r, "\nSkipped:\n");
        let ghost h2 = r@;
        let mut j: usize = 0;
        while j < skipped.len()
            invariant
                j <= skipped@.len(),
                r@ == h2 + skipped_lines(skipped@, j as nat),
            decreases skipped.len() - j,
        {
            push_str(&mut r, "  ");
            push_str(&mut r, skipped[j].0.as_str());
            push_str(&mut r, ": ");
            push_str(&mut r, skipped[j].1.as_str());
            push_str(&mut r, "\n");
            j = j + 1;
            assert(r@ =~= h2 + skipped_lines(skipped@, j as nat));
        }
    }
    assert(r@ =~= h1 + if skipped@.len() == 0 {
        Seq::<char>::empty()
    } else {
        "\nSkipped:\n"@ + skipped_lines(skipped@, skipped@.len())
    });
    let ghost h3 = r@;
    let mut found = false;
    let mut k: usize = 0;
    while k < presets.len()
        invariant
            k <= presets@.len(),
            found <==> exists|i: int| 0 <= i < k && #[trigger] presets@[i].name@ == default@,
        decreases presets.len() - k,
    {
        if str_eq(presets[k].name.as_str(), default) {
            found = true;
        }
        k = k + 1;
    }
    if !found {
        push_str(&mut r, "\nThe default preset `");
        push_str(&mut r, default);
        push_str(&mut r, "` is not on the Preset Path, so a bare `flow init` refuses until it is.\n");
    }
    assert(r@ =~= h3 + missing_default(presets@, default@));
    push_str(
        &mut r,
        "\n* is what a bare `flow init` writes. Change it with `preset = \"<name>\"` in your user config.\n",
    );
    r
}

/// Every preset file on the Path, nearest owner first: the ones found on
/// disk (the project's directories, nearest first, then the user's), then
/// what ships — so the first candidate of a name is the one that wins.
pub fn candidates(found: Vec<Candidate>) -> (r: Vec<Candidate>)
    ensures
        r@.len() == found@.len() + crate::presets::catalog_spec().len(),
        forall|i: int| 0 <= i < found@.len() ==> r@[i] == found@[i],
        forall|i: int|
            0 <= i < crate::presets::catalog_spec().len() ==> {
                let c = #[trigger] r@[found@.len() + i];
                let p = crate::presets::catalog_spec()[i];
                &&& c.layer == Layer::Shipped
                &&& c.name@ == p.name@
                &&& c.description@ == p.description@
                &&& c.contents@ == p.contents@
            },
{
    let mut r = found;
    let ghost n = r@.len();
    let ghost before = r@;
    let all = crate::presets::catalog();
    let mut i: usize = 0;
    while i < all.len()
        invariant
            all@ == crate::presets::catalog_spec(),
            i <= all@.len(),
            r@.len() == n + i,
            n == before.len(),
            forall|j: int| 0 <= j < n ==> r@[j] == before[j],
            forall|j: int|
                0 <= j < i ==> {
                    let c = #[trigger] r@[n + j];
                    &&& c.layer == Layer::Shipped
                    &&& c.name@ == all@[j].name@
                    &&& c.description@ == all@[j].description@
                    &&& c.contents@ == all@[j].contents@
                },
        decreases all.len() - i,
    {
        let p = all[i];
        r.push(Candidate {
            layer: Layer::Shipped,
            name: owned(p.name),
            description: owned(p.description),
            contents: owned(p.contents),
        });
        i = i + 1;
    }
    r
}

/// Whether a file in a presets directory is a preset file: its name ends in
/// `.toml` after something else. A README or an editor's swap file is not.
pub open spec fn is_preset_file_name(name: Seq<char>) -> bool {
    name.len() > 5 && name.skip(name.len() - 5) == ".toml"@
}

/// The preset files among `names`, in the order given.
pub open spec fn preset_file_names(names: Seq<String>) -> Seq<String>
    decreases names.len(),
{
    if names.len() == 0 {
        Seq::empty()
    } else if is_preset_file_name(names.last()@) {
        preset_file_names(names.drop_last()).push(names.last())
    } else {
        preset_file_names(names.drop_last())
    }
}

/// Whether `names` is in ascending order.
pub open spec fn ascending(names: Seq<String>) -> bool {
    forall|i: int, j: int|
        0 <= i < j < names.len() ==> !crate::text::seq_lt(#[trigger] names[j]@, #[trigger] names[i]@)
}

/// Whether `name` is the name of a preset file.
pub fn ends_in_toml(name: &str) -> (b: bool)
    ensures
        b == is_preset_file_name(name@),
{
    let v = crate::text::chars_of(name);
    if v.len() <= 5 {
        return false;
    }
    let tail = crate::text::string_of_range(&v, v.len() - 5, v.len());
    assert(v@.subrange(v.len() - 5, v.len() as int) =~= name@.skip(name@.len() - 5));
    str_eq(tail.as_str(), ".toml")
}

/// The name a preset file gives its preset: its file name without `.toml`.
pub fn preset_stem(name: &str) -> (r: String)
    requires
        is_preset_file_name(name@),
    ensures
        r@ == name@.take(name@.len() - 5),
{
    let v = crate::text::chars_of(name);
    let s = crate::text::string_of_range(&v, 0, v.len() - 5);
    assert(v@.subrange(0, v.len() - 5) =~= name@.take(name@.len() - 5));
    s
}

fn ascending_position(out: &Vec<String>, x: &str) -> (p: usize)
    requires
        ascending(out@),
    ensures
        p <= out@.len(),
        forall|i: int| 0 <= i < p ==> !crate::text::seq_lt(x@, #[trigger] out@[i]@),
        p < out@.len() ==> crate::text::seq_lt(x@, out@[p as int]@),
{
    let mut p: usize = 0;
    while p < out.len()
        invariant
            p <= out@.len(),
            forall|i: int| 0 <= i < p ==> !crate::text::seq_lt(x@, #[trigger] out@[i]@),
        decreases out.len() - p,
    {
        if crate::text::str_less(x, out[p].as_str()) {
            return p;
        }
        p = p + 1;
    }
    p
}

proof fn lemma_ascending_insert(out: Seq<String>, x: String, p: int)
    requires
        ascending(out),
        0 <= p <= out.len(),
        forall|i: int| 0 <= i < p ==> !crate::text::seq_lt(x@, #[trigger] out[i]@),
        p < out.len() ==> crate::text::seq_lt(x@, out[p]@),
    ensures
        ascending(out.insert(p, x)),
{
    let r = out.insert(p, x);
    assert forall|i: int, j: int| 0 <= i < j < r.len() implies !crate::text::seq_lt(
        #[trigger] r[j]@,
        #[trigger] r[i]@,
    ) by {
        if j < p {
            assert(r[i] == out[i] && r[j] == out[j]);
        } else if j == p {
            assert(r[i] == out[i]);
        } else if i == p {
            assert(r[j] == out[j - 1]);
            let a = out[p]@;
            let b = out[j - 1]@;
            let u = x@;
            if crate::text::seq_lt(b, u) {
                if j - 1 == p {
                    crate::text::lemma_seq_lt_asymmetric(u, a);
                } else {
                    assert(!crate::text::seq_lt(b, a));
                    if a == b {
                        crate::text::lemma_seq_lt_asymmetric(u, a);
                    } else {
                        crate::text::lemma_seq_lt_total(a, b);
                        crate::text::lemma_seq_lt_transitive(u, a, b);
                        crate::text::lemma_seq_lt_asymmetric(b, u);
                    }
                }
            }
        } else if i < p {
            assert(r[i] == out[i] && r[j] == out[j - 1]);
        } else {
            assert(r[i] == out[i - 1] && r[j] == out[j - 1]);
        }
    }
}

/// The preset files among the names of a directory's entries, in ascending
/// order: only names ending in `.toml` after something else.
pub fn preset_files(names: Vec<String>) -> (r: Vec<String>)
    ensures
        r@.to_multiset() == preset_file_names(names@).to_multiset(),
        ascending(r@),
{
    broadcast use vstd::seq_lib::to_multiset_build, vstd::seq_lib::to_multiset_insert;

    let n0: usize = names.len();
    let ghost orig = names@;
    assert(orig.len() == n0);
    let mut rest = names;
    let mut out: Vec<String> = Vec::new();
    let mut k: usize = 0;
    assert(orig.take(0) =~= Seq::<String>::empty());
    while rest.len() > 0
        invariant
            orig.len() <= usize::MAX,
            k + rest@.len() == orig.len(),
            rest@ == orig.skip(k as int),
            out@.to_multiset() == preset_file_names(orig.take(k as int)).to_multiset(),
            ascending(out@),
        decreases rest.len(),
    {
        let x = rest.remove(0);
        assert(orig.take(k + 1).drop_last() =~= orig.take(k as int));
        assert(orig.take(k + 1).last() == x);
        let ghost kept = preset_file_names(orig.take(k as int));
        if ends_in_toml(x.as_str()) {
            let p = ascending_position(&out, x.as_str());
            proof {
                lemma_ascending_insert(out@, x, p as int);
            }
            let ghost before = out@;
            out.insert(p, x);
            proof {
                vstd::seq_lib::to_multiset_insert(before, p as int, x);
                vstd::seq_lib::to_multiset_build(kept, x);
            }
        }
        k = k + 1;
        assert(rest@ =~= orig.skip(k as int));
    }
    assert(orig.take(k as int) =~= orig);
    out
}

} // verus!
