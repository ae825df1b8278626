//! Which run a command acts on: the one named, else the current one, else
//! the only active one.
use crate::error::FlowError;
use crate::flow::opt_view;
use crate::run::{run_path_spec, Run, RunStatus};
use crate::text::{owned, str_eq, views};
use vstd::prelude::*;

verus! {

/// Whether run `i` is kept at `path` and, when `active_only`, is active.
pub open spec fn kept_at(runs: Seq<Run>, path: Seq<char>, active_only: bool, i: int) -> bool {
    runs[i].path@ == path && (!active_only || runs[i].meta.status == RunStatus::Active)
}

/// The first run kept at `path` (the first active one, with `active_only`).
pub open spec fn run_at(runs: Seq<Run>, path: Seq<char>, active_only: bool) -> Option<int> {
    if exists|i: int| 0 <= i < runs.len() && #[trigger] kept_at(runs, path, active_only, i) {
        Some(
            choose|i: int|
                0 <= i < runs.len() && #[trigger] kept_at(runs, path, active_only, i) && forall|j: int|
                    0 <= j < i ==> !#[trigger] kept_at(runs, path, active_only, j),
        )
    } else {
        None
    }
}

/// The positions of the active runs among the first `n`, in order.
pub open spec fn active_upto(runs: Seq<Run>, n: nat) -> Seq<int>
    decreases n,
{
    if n == 0 {
        Seq::empty()
    } else if runs[n - 1].meta.status == RunStatus::Active {
        active_upto(runs, (n - 1) as nat).push(n - 1)
    } else {
        active_upto(runs, (n - 1) as nat)
    }
}

/// The slugs of the runs at `idx`.
pub open spec fn slugs_at(runs: Seq<Run>, idx: Seq<int>) -> Seq<Seq<char>> {
    Seq::new(idx.len(), |k: int| runs[idx[k]].meta.slug@)
}

/// Which run a bare command acts on in the repo at `root`, or why there is
/// none: the current run when the pointer names an active one; else the only
/// active run; else, when no run is active, the run the pointer names even
/// though it is finished — so that recording against it says to reopen it,
/// and reopening it works.
pub open spec fn bare_choice(runs: Seq<Run>, root: Seq<char>, current: Option<Seq<char>>) -> Option<int> {
    let pointed = match current {
        Some(c) => run_at(runs, run_path_spec(root, c), true),
        None => None,
    };
    let a = active_upto(runs, runs.len());
    match pointed {
        Some(i) => Some(i),
        None => if a.len() == 1 {
            Some(a[0])
        } else if a.len() == 0 {
            match current {
                Some(c) => run_at(runs, run_path_spec(root, c), false),
                None => None,
            }
        } else {
            None
        },
    }
}

proof fn lemma_active_upto(runs: Seq<Run>, n: nat)
    requires
        n <= runs.len(),
    ensures
        forall|k: int|
            0 <= k < active_upto(runs, n).len() ==> 0 <= #[trigger] active_upto(runs, n)[k] < n
                && runs[active_upto(runs, n)[k]].meta.status == RunStatus::Active,
    decreases n,
{
    if n > 0 {
        lemma_active_upto(runs, (n - 1) as nat);
    }
}

proof fn lemma_run_at_is(runs: Seq<Run>, path: Seq<char>, active_only: bool, i: int)
    requires
        0 <= i < runs.len(),
        kept_at(runs, path, active_only, i),
        forall|j: int| 0 <= j < i ==> !#[trigger] kept_at(runs, path, active_only, j),
    ensures
        run_at(runs, path, active_only) == Some(i),
{
    let k = choose|k: int|
        0 <= k < runs.len() && #[trigger] kept_at(runs, path, active_only, k) && forall|j: int|
            0 <= j < k ==> !#[trigger] kept_at(runs, path, active_only, j);
    assert(0 <= k < runs.len() && kept_at(runs, path, active_only, k));
    if k < i {
        assert(!kept_at(runs, path, active_only, k));
    }
    if i < k {
        assert(!kept_at(runs, path, active_only, i));
    }
}

/// The first run kept at `path` (the first active one, with `active_only`).
fn find_kept(runs: &Vec<Run>, path: &str, active_only: bool) -> (r: Option<usize>)
    ensures
        match r {
            Some(i) => run_at(runs@, path@, active_only) == Some(i as int) && i < runs@.len(),
            None => run_at(runs@, path@, active_only) is None,
        },
{
    let mut i: usize = 0;
    while i < runs.len()
        invariant
            i <= runs@.len(),
            forall|j: int| 0 <= j < i ==> !#[trigger] kept_at(runs@, path@, active_only, j),
        decreases runs.len() - i,
    {
        if str_eq(runs[i].path.as_str(), path) && (!active_only || runs[i].meta.status
            == RunStatus::Active) {
            proof {
                assert(kept_at(runs@, path@, active_only, i as int));
                lemma_run_at_is(runs@, path@, active_only, i as int);
            }
            return Some(i);
        }
        proof {
            assert(!kept_at(runs@, path@, active_only, i as int));
        }
        i = i + 1;
    }
    proof {
        if exists|j: int| 0 <= j < runs@.len() && #[trigger] kept_at(runs@, path@, active_only, j) {
            let j = choose|j: int| 0 <= j < runs@.len() && #[trigger] kept_at(runs@, path@, active_only, j);
            assert(!kept_at(runs@, path@, active_only, j));
        }
    }
    None
}

/// Resolve the run a command acts on in the repo at `root`, as a position in
/// `runs`: the run kept at `<root>/.flow/runs/<slug>.md` when `slug` is
/// given — finished or not — else the run `bare_choice` picks with the
/// `current` pointer. Refuses when the named run does not exist, when no run
/// is active (and the pointer names none), and when several are active and
/// the pointer names none of them.
pub fn resolve(runs: &Vec<Run>, root: &str, slug: Option<&str>, current: Option<&str>) -> (r:
    Result<usize, FlowError>)
    ensures
        match opt_view(slug) {
            Some(s) => match run_at(runs@, run_path_spec(root@, s), false) {
                Some(i) => (r matches Ok(x) && x == i),
                None => r matches Err(FlowError::NoSuchRun { slug: n }) && n@ == s,
            },
            None => match bare_choice(runs@, root@, opt_view(current)) {
                Some(i) => (r matches Ok(x) && x == i),
                None => if active_upto(runs@, runs@.len()).len() == 0 {
                    r matches Err(FlowError::NoActiveRuns)
                } else {
                    r matches Err(FlowError::SeveralActive { slugs }) && views(slugs@)
                        == slugs_at(runs@, active_upto(runs@, runs@.len()))
                },
            },
        },
        r matches Ok(i) ==> i < runs@.len(),
{
    match slug {
        Some(s) => {
            let path = Run::path_for(root, s);
            let found = find_kept(runs, path.as_str(), false);
            match found {
                Some(i) => Ok(i),
                None => Err(FlowError::NoSuchRun { slug: owned(s) }),
            }
        },
        None => {
            let pointed: Option<usize> = match current {
                Some(c) => {
                    let path = Run::path_for(root, c);
                    let f = find_kept(runs, path.as_str(), true);
                    f
                },
                None => None,
            };
            if let Some(i) = pointed {
                return Ok(i);
            }
            let mut active: Vec<usize> = Vec::new();
            let mut slugs: Vec<String> = Vec::new();
            let mut i: usize = 0;
            while i < runs.len()
                invariant
                    i <= runs@.len(),
                    active@.len() == active_upto(runs@, i as nat).len(),
                    forall|k: int|
                        0 <= k < active@.len() ==> active@[k] as int == #[trigger] active_upto(
                            runs@,
                            i as nat,
                        )[k],
                    views(slugs@) == slugs_at(runs@, active_upto(runs@, i as nat)),
                decreases runs.len() - i,
            {
                if runs[i].meta.status == RunStatus::Active {
                    let ghost before = slugs@;
                    active.push(i);
                    slugs.push(runs[i].meta.slug.clone());
                    proof {
                        assert(active_upto(runs@, (i + 1) as nat) == active_upto(runs@, i as nat).push(
                            i as int,
                        ));
                        assert(views(slugs@) =~= views(before).push(runs@[i as int].meta.slug@));
                        assert(views(slugs@) =~= slugs_at(runs@, active_upto(runs@, (i + 1) as nat)));
                    }
                } else {
                    proof {
                        assert(active_upto(runs@, (i + 1) as nat) == active_upto(runs@, i as nat));
                    }
                }
                i = i + 1;
            }
            proof {
                lemma_active_upto(runs@, runs@.len());
            }
            if active.len() == 1 {
                Ok(active[0])
            } else if active.len() == 0 {
                match current {
                    Some(c) => {
                        let path = Run::path_for(root, c);
                        let f = find_kept(runs, path.as_str(), false);
                        match f {
                            Some(k) => Ok(k),
                            None => Err(FlowError::NoActiveRuns),
                        }
                    },
                    None => Err(FlowError::NoActiveRuns),
                }
            } else {
                Err(FlowError::SeveralActive { slugs })
            }
        },
    }
}

/// Whether `runs` lists the most recently updated first: no run was updated
/// before one listed after it.
pub open spec fn newest_first_order(runs: Seq<Run>) -> bool {
    forall|i: int, j: int|
        0 <= i < j < runs.len() ==> !crate::text::seq_lt(
            #[trigger] runs[i].meta.updated@,
            #[trigger] runs[j].meta.updated@,
        )
}

/// Where `x` goes in `out`, most recent first: before the first run updated
/// before it, so that runs updated at the same time keep their order.
fn insert_position(out: &Vec<Run>, x: &Run) -> (p: usize)
    requires
        newest_first_order(out@),
    ensures
        p <= out@.len(),
        forall|i: int| 0 <= i < p ==> !crate::text::seq_lt(#[trigger] out@[i].meta.updated@, x.meta.updated@),
        p < out@.len() ==> crate::text::seq_lt(out@[p as int].meta.updated@, x.meta.updated@),
{
    let mut p: usize = 0;
    while p < out.len()
        invariant
            p <= out@.len(),
            forall|i: int| 0 <= i < p ==> !crate::text::seq_lt(#[trigger] out@[i].meta.updated@, x.meta.updated@),
        decreases out.len() - p,
    {
        if crate::text::str_less(out[p].meta.updated.as_str(), x.meta.updated.as_str()) {
            return p;
        }
        p = p + 1;
    }
    p
}

proof fn lemma_insert_keeps_order(out: Seq<Run>, x: Run, p: int)
    requires
        newest_first_order(out),
        0 <= p <= out.len(),
        forall|i: int| 0 <= i < p ==> !crate::text::seq_lt(#[trigger] out[i].meta.updated@, x.meta.updated@),
        p < out.len() ==> crate::text::seq_lt(out[p].meta.updated@, x.meta.updated@),
    ensures
        newest_first_order(out.insert(p, x)),
{
    let r = out.insert(p, x);
    assert forall|i: int, j: int| 0 <= i < j < r.len() implies !crate::text::seq_lt(
        #[trigger] r[i].meta.updated@,
        #[trigger] r[j].meta.updated@,
    ) by {
        if j < p {
            assert(r[i] == out[i] && r[j] == out[j]);
        } else if j == p {
            assert(r[i] == out[i]);
        } else if i == p {
            assert(r[j] == out[j - 1]);
            let a = out[p].meta.updated@;
            let b = out[j - 1].meta.updated@;
            let u = x.meta.updated@;
            if crate::text::seq_lt(u, b) {
                if j - 1 == p {
                    crate::text::lemma_seq_lt_asymmetric(a, u);
                } else {
                    assert(!crate::text::seq_lt(a, b));
                    if a == b {
                        crate::text::lemma_seq_lt_asymmetric(a, u);
                    } else {
                        crate::text::lemma_seq_lt_total(a, b);
                        crate::text::lemma_seq_lt_transitive(a, u, b);
                        crate::text::lemma_seq_lt_asymmetric(b, a);
                    }
                }
            }
        } else if i < p {
            assert(r[i] == out[i] && r[j] == out[j - 1]);
        } else {
            assert(r[i] == out[i - 1] && r[j] == out[j - 1]);
        }
    }
}

/// Whether `idx` places each of `r` at its position in `runs`, and runs
/// updated at the same time stand in the order they had there.
pub open spec fn stable_placing(runs: Seq<Run>, r: Seq<Run>, idx: Seq<int>) -> bool {
    &&& idx.len() == r.len()
    &&& forall|i: int| 0 <= i < r.len() ==> 0 <= #[trigger] idx[i] < runs.len() && r[i] == runs[idx[i]]
    &&& forall|i: int, j: int|
        0 <= i < j < r.len() && (#[trigger] r[i]).meta.updated@ == (#[trigger] r[j]).meta.updated@
            ==> idx[i] < idx[j]
}

/// Inserting `x`, from position `k` of `runs`, where `insert_position` puts
/// it keeps the placing stable.
proof fn lemma_insert_keeps_placing(runs: Seq<Run>, out: Seq<Run>, idx: Seq<int>, x: Run, k: int, p: int)
    requires
        stable_placing(runs, out, idx),
        forall|i: int| 0 <= i < idx.len() ==> #[trigger] idx[i] < k,
        0 <= k < runs.len(),
        runs[k] == x,
        newest_first_order(out),
        0 <= p <= out.len(),
        p < out.len() ==> crate::text::seq_lt(out[p].meta.updated@, x.meta.updated@),
    ensures
        stable_placing(runs, out.insert(p, x), idx.insert(p, k)),
        forall|i: int| 0 <= i < idx.len() + 1 ==> #[trigger] idx.insert(p, k)[i] < k + 1,
{
    let r = out.insert(p, x);
    let q = idx.insert(p, k);
    assert forall|i: int| 0 <= i < r.len() implies 0 <= #[trigger] q[i] < runs.len() && r[i] == runs[q[i]] by {
        if i < p {
            assert(q[i] == idx[i] && r[i] == out[i]);
        } else if i > p {
            assert(q[i] == idx[i - 1] && r[i] == out[i - 1]);
        }
    }
    assert forall|i: int, j: int|
        0 <= i < j < r.len() && (#[trigger] r[i]).meta.updated@ == (#[trigger] r[j]).meta.updated@
            implies q[i] < q[j] by {
        if j < p {
            assert(q[i] == idx[i] && q[j] == idx[j] && r[i] == out[i] && r[j] == out[j]);
        } else if j == p {
            assert(q[i] == idx[i]);
        } else if i == p {
            assert(r[j] == out[j - 1]);
            let a = out[p].meta.updated@;
            let b = out[j - 1].meta.updated@;
            if j - 1 == p {
                crate::text::lemma_seq_lt_asymmetric(a, x.meta.updated@);
            } else {
                assert(!crate::text::seq_lt(a, b));
                crate::text::lemma_seq_lt_asymmetric(a, x.meta.updated@);
                if a != b {
                    crate::text::lemma_seq_lt_total(a, b);
                }
            }
        } else if i < p {
            assert(q[i] == idx[i] && q[j] == idx[j - 1] && r[i] == out[i] && r[j] == out[j - 1]);
        } else {
            assert(q[i] == idx[i - 1] && q[j] == idx[j - 1] && r[i] == out[i - 1] && r[j] == out[j - 1]);
        }
    }
    assert forall|i: int| 0 <= i < idx.len() + 1 implies #[trigger] q[i] < k + 1 by {
        if i < p {
            assert(q[i] == idx[i]);
        } else if i > p {
            assert(q[i] == idx[i - 1]);
        }
    }
}

/// The runs, most recently updated first: the same runs, reordered, with
/// runs updated at the same time kept in the order they came in.
pub fn newest_first(runs: Vec<Run>) -> (r: Vec<Run>)
    ensures
        r@.to_multiset() == runs@.to_multiset(),
        newest_first_order(r@),
        exists|idx: Seq<int>| stable_placing(runs@, r@, idx),
{
    broadcast use vstd::seq_lib::to_multiset_build, vstd::seq_lib::to_multiset_insert;

    let n0: usize = runs.len();
    let ghost orig = runs@;
    assert(orig.len() == n0);
    let mut rest = runs;
    let mut out: Vec<Run> = Vec::new();
    let mut k: usize = 0;
    let ghost mut idx: Seq<int> = Seq::empty();
    assert(orig.take(0) =~= Seq::<Run>::empty());
    while rest.len() > 0
        invariant
            orig.len() <= usize::MAX,
            k + rest@.len() == orig.len(),
            rest@ == orig.skip(k as int),
            out@.to_multiset() == orig.take(k as int).to_multiset(),
            newest_first_order(out@),
            stable_placing(orig, out@, idx),
            forall|i: int| 0 <= i < idx.len() ==> #[trigger] idx[i] < k,
        decreases rest.len(),
    {
        let x = rest.remove(0);
        assert(orig.take(k + 1) =~= orig.take(k as int).push(x));
        assert(orig[k as int] == x);
        let p = insert_position(&out, &x);
        proof {
            lemma_insert_keeps_order(out@, x, p as int);
            lemma_insert_keeps_placing(orig, out@, idx, x, k as int, p as int);
        }
        let ghost before = out@;
        let ghost taken = orig.take(k as int);
        out.insert(p, x);
        proof {
            vstd::seq_lib::to_multiset_insert(before, p as int, x);
            vstd::seq_lib::to_multiset_build(taken, x);
            assert(out@ == before.insert(p as int, x));
            assert(orig.take(k + 1) == taken.push(x));
            idx = idx.insert(p as int, k as int);
        }
        k = k + 1;
        assert(rest@ =~= orig.skip(k as int));
    }
    assert(orig.take(k as int) =~= orig);
    out
}

} // verus!
