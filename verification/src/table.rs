//! Tables keyed by name: a `Vec` of `(name, value)` pairs standing for a map
//! whose keys are kept in ascending order, as a `BTreeMap<String, _>` keeps
//! them.
use crate::text::{views, lemma_seq_lt_asymmetric, lemma_seq_lt_total, lemma_seq_lt_transitive, seq_lt, str_eq, str_less};
use vstd::prelude::*;

verus! {

/// The keys of a table, in table order.
pub open spec fn keys<V>(t: Seq<(String, V)>) -> Seq<Seq<char>> {
    Seq::new(t.len(), |i: int| t[i].0@)
}

/// Whether the keys of `t` ascend strictly — distinct and sorted.
pub open spec fn sorted<V>(t: Seq<(String, V)>) -> bool {
    forall|i: int, j: int| 0 <= i < j < t.len() ==> seq_lt(#[trigger] t[i].0@, #[trigger] t[j].0@)
}

/// Whether the keys of `t` stand in strictly ascending order.
pub fn is_sorted<V>(t: &Vec<(String, V)>) -> (r: bool)
    ensures
        r == sorted(t@),
{
    let mut k: usize = 1;
    if t.len() == 0 {
        return true;
    }
    while k < t.len()
        invariant
            1 <= k <= t@.len(),
            sorted(t@.take(k as int)),
        decreases t.len() - k,
    {
        if !str_less(t[k - 1].0.as_str(), t[k].0.as_str()) {
            assert(!sorted(t@)) by {
                if sorted(t@) {
                    assert(seq_lt(t@[k - 1].0@, t@[k as int].0@));
                }
            }
            return false;
        }
        let ghost p = t@.take(k as int);
        let ghost q = t@.take(k + 1);
        assert forall|i: int, j: int| 0 <= i < j < q.len() implies seq_lt(
            #[trigger] q[i].0@,
            #[trigger] q[j].0@,
        ) by {
            if j < k {
                assert(q[i] == p[i] && q[j] == p[j]);
            } else if i < k - 1 {
                assert(q[i] == p[i] && q[k - 1] == p[k - 1]);
                assert(seq_lt(p[i].0@, p[k - 1].0@));
                lemma_seq_lt_transitive(q[i].0@, q[k - 1].0@, q[j].0@);
            }
        }
        k = k + 1;
    }
    assert(t@.take(k as int) =~= t@);
    true
}

/// Whether `t` holds key `k`.
pub open spec fn has_key<V>(t: Seq<(String, V)>, k: Seq<char>) -> bool {
    exists|i: int| 0 <= i < t.len() && t[i].0@ == k
}

/// The position of the first entry of `t` with key `k`, if any.
pub open spec fn index_of_key<V>(t: Seq<(String, V)>, k: Seq<char>) -> Option<int> {
    if has_key(t, k) {
        Some(
            choose|i: int|
                0 <= i < t.len() && t[i].0@ == k && forall|j: int| 0 <= j < i ==> t[j].0@ != k,
        )
    } else {
        None
    }
}

/// The value the table gives key `k`: that of its first entry with that key.
pub open spec fn lookup<V>(t: Seq<(String, V)>, k: Seq<char>) -> Option<V> {
    match index_of_key(t, k) {
        Some(i) => Some(t[i].1),
        None => None,
    }
}

/// What `index_of_key` returns satisfies its defining property.
pub proof fn lemma_index_of_key_props<V>(t: Seq<(String, V)>, k: Seq<char>)
    ensures
        match index_of_key(t, k) {
            Some(i) => 0 <= i < t.len() && t[i].0@ == k && forall|j: int|
                0 <= j < i ==> t[j].0@ != k,
            None => forall|j: int| 0 <= j < t.len() ==> t[j].0@ != k,
        },
{
    if has_key(t, k) {
        let w = choose|w: int| 0 <= w < t.len() && t[w].0@ == k;
        lemma_least_key_index(t, k, w);
    }
}

proof fn lemma_least_key_index<V>(t: Seq<(String, V)>, k: Seq<char>, w: int)
    requires
        0 <= w < t.len(),
        t[w].0@ == k,
    ensures
        exists|i: int|
            0 <= i < t.len() && t[i].0@ == k && forall|j: int| 0 <= j < i ==> t[j].0@ != k,
    decreases w,
{
    if exists|j: int| 0 <= j < w && t[j].0@ == k {
        let j = choose|j: int| 0 <= j < w && t[j].0@ == k;
        lemma_least_key_index(t, k, j);
    } else {
        assert(forall|j: int| 0 <= j < w ==> t[j].0@ != k);
    }
}

/// Characterises `index_of_key` by its defining property.
pub proof fn lemma_index_of_key<V>(t: Seq<(String, V)>, k: Seq<char>, i: int)
    requires
        0 <= i < t.len(),
        t[i].0@ == k,
        forall|j: int| 0 <= j < i ==> t[j].0@ != k,
    ensures
        index_of_key(t, k) == Some(i),
{
    let c = choose|c: int|
        0 <= c < t.len() && t[c].0@ == k && forall|j: int| 0 <= j < c ==> t[j].0@ != k;
    assert(0 <= c < t.len() && t[c].0@ == k);
    if c < i {
        assert(t[c].0@ != k);
    }
    if i < c {
        assert(t[i].0@ != k);
    }
}

/// In a sorted table the entry holding a key is the only one that does.
pub proof fn lemma_sorted_index<V>(t: Seq<(String, V)>, i: int)
    requires
        sorted(t),
        0 <= i < t.len(),
    ensures
        index_of_key(t, t[i].0@) == Some(i),
{
    assert forall|j: int| 0 <= j < i implies t[j].0@ != t[i].0@ by {
        lemma_seq_lt_asymmetric(t[j].0@, t[i].0@);
    }
    lemma_index_of_key(t, t[i].0@, i);
}

/// The position of the first entry whose key is `k`.
pub fn key_position<V>(t: &Vec<(String, V)>, k: &str) -> (r: Option<usize>)
    ensures
        match r {
            Some(i) => index_of_key(t@, k@) == Some(i as int),
            None => index_of_key(t@, k@) is None,
        },
{
    let mut i: usize = 0;
    while i < t.len()
        invariant
            i <= t.len(),
            forall|j: int| 0 <= j < i ==> t@[j].0@ != k@,
        decreases t.len() - i,
    {
        if str_eq(t[i].0.as_str(), k) {
            proof {
                lemma_index_of_key(t@, k@, i as int);
            }
            return Some(i);
        }
        i = i + 1;
    }
    None
}

/// The keys of a table, copied out in table order.
pub fn key_list<V>(t: &Vec<(String, V)>) -> (r: Vec<String>)
    ensures
        views(r@) == keys(t@),
{
    let mut r: Vec<String> = Vec::new();
    let mut i: usize = 0;
    while i < t.len()
        invariant
            i <= t.len(),
            views(r@) == keys(t@).take(i as int),
        decreases t.len() - i,
    {
        let c = t[i].0.clone();
        let ghost before = r@;
        r.push(c);
        assert(views(r@) =~= views(before).push(c@));
        assert(keys(t@).take(i + 1) =~= keys(t@).take(i as int).push(t@[i as int].0@));
        i = i + 1;
    }
    assert(keys(t@).take(i as int) =~= keys(t@));
    r
}

/// Sets `k` to `v`, replacing the entry already holding `k` or inserting a
/// new one before the first key that sorts after `k`. A sorted table stays
/// sorted, and gains exactly the binding of `k`.
pub fn insert<V>(t: &mut Vec<(String, V)>, k: String, v: V)
    requires
        sorted(old(t)@),
    ensures
        sorted(final(t)@),
        lookup(final(t)@, k@) == Some(v),
        forall|j: Seq<char>| j != k@ ==> #[trigger] lookup(final(t)@, j) == lookup(old(t)@, j),
        forall|j: Seq<char>|
            has_key(final(t)@, j) <==> (j == k@ || has_key(old(t)@, j)),
{
    let ghost old_t = t@;
    match key_position(t, k.as_str()) {
        Some(i) => {
            proof {
                lemma_index_of_key_props(old_t, k@);
            }
            let ghost kv = k@;
            t.set(i, (k, v));
            proof {
                let n = t@;
                assert forall|a: int, b: int| 0 <= a < b < n.len() implies seq_lt(
                    #[trigger] n[a].0@,
                    #[trigger] n[b].0@,
                ) by {
                    assert(old_t[a].0@ == n[a].0@);
                    assert(old_t[b].0@ == n[b].0@);
                }
                lemma_sorted_index(n, i as int);
                assert forall|j: Seq<char>| j != kv implies #[trigger] lookup(n, j) == lookup(
                    old_t,
                    j,
                ) by {
                    lemma_same_keys_lookup(old_t, n, i as int, j);
                }
                assert forall|j: Seq<char>| has_key(n, j) <==> (j == kv || has_key(old_t, j)) by {
                    if has_key(old_t, j) {
                        let w = choose|w: int| 0 <= w < old_t.len() && old_t[w].0@ == j;
                        assert(n[w].0@ == j);
                    }
                    if has_key(n, j) {
                        let w = choose|w: int| 0 <= w < n.len() && n[w].0@ == j;
                        assert(old_t[w].0@ == j);
                    }
                }
            }
        },
        None => {
            let mut p: usize = 0;
            while p < t.len() && !str_less(k.as_str(), t[p].0.as_str())
                invariant
                    t@ == old_t,
                    p <= t.len(),
                    !has_key(t@, k@),
                    forall|j: int| 0 <= j < p ==> seq_lt(#[trigger] t@[j].0@, k@),
                decreases t.len() - p,
            {
                proof {
                    assert(t@[p as int].0@ != k@);
                    lemma_seq_lt_total(t@[p as int].0@, k@);
                }
                p = p + 1;
            }
            let ghost kv = k@;
            t.insert(p, (k, v));
            proof {
                let n = t@;
                assert(n.len() == old_t.len() + 1);
                assert forall|a: int| 0 <= a < p implies n[a] == old_t[a] by {}
                assert forall|a: int| p < a < n.len() implies n[a] == old_t[a - 1] by {}
                // Every key after the insertion point sorts after `k`.
                assert forall|a: int| p < a < n.len() implies seq_lt(kv, #[trigger] n[a].0@) by {
                    if a - 1 > p {
                        lemma_seq_lt_transitive(kv, old_t[p as int].0@, old_t[a - 1].0@);
                    }
                }
                assert forall|a: int, b: int| 0 <= a < b < n.len() implies seq_lt(
                    #[trigger] n[a].0@,
                    #[trigger] n[b].0@,
                ) by {
                    if a < p && b > p {
                        lemma_seq_lt_transitive(n[a].0@, kv, n[b].0@);
                    }
                }
                lemma_sorted_index(n, p as int);
                assert forall|j: Seq<char>| j != kv implies #[trigger] lookup(n, j) == lookup(
                    old_t,
                    j,
                ) by {
                    if has_key(old_t, j) {
                        let w = choose|w: int| 0 <= w < old_t.len() && old_t[w].0@ == j;
                        lemma_sorted_index(old_t, w);
                        let w2 = if w < p { w } else { w + 1 };
                        assert(n[w2] == old_t[w]);
                        lemma_sorted_index(n, w2);
                    } else if has_key(n, j) {
                        let w = choose|w: int| 0 <= w < n.len() && n[w].0@ == j;
                        if w < p {
                            assert(old_t[w].0@ == j);
                        } else if w > p {
                            assert(old_t[w - 1].0@ == j);
                        }
                    }
                }
                assert forall|j: Seq<char>| has_key(n, j) <==> (j == kv || has_key(old_t, j)) by {
                    if has_key(old_t, j) {
                        let w = choose|w: int| 0 <= w < old_t.len() && old_t[w].0@ == j;
                        let w2 = if w < p { w } else { w + 1 };
                        assert(n[w2].0@ == j);
                    }
                    if has_key(n, j) && j != kv {
                        let w = choose|w: int| 0 <= w < n.len() && n[w].0@ == j;
                        if w < p {
                            assert(old_t[w].0@ == j);
                        } else if w > p {
                            assert(old_t[w - 1].0@ == j);
                        }
                    }
                    if j == kv {
                        assert(n[p as int].0@ == j);
                    }
                }
            }
        },
    }
}

/// Replacing the value of one entry without changing its key leaves every other
/// key's lookup as it was.
proof fn lemma_same_keys_lookup<V>(a: Seq<(String, V)>, b: Seq<(String, V)>, i: int, j: Seq<char>)
    requires
        a.len() == b.len(),
        0 <= i < a.len(),
        forall|m: int| 0 <= m < a.len() ==> a[m].0@ == b[m].0@,
        forall|m: int| 0 <= m < a.len() && m != i ==> a[m] == b[m],
        j != a[i].0@,
    ensures
        lookup(b, j) == lookup(a, j),
{
    lemma_index_of_key_props(a, j);
    lemma_index_of_key_props(b, j);
    match index_of_key(a, j) {
        Some(w) => {
            assert forall|x: int| 0 <= x < w implies b[x].0@ != j by {
                assert(a[x].0@ != j);
            }
            lemma_index_of_key(b, j, w);
        },
        None => {
            match index_of_key(b, j) {
                Some(w) => {
                    assert(a[w].0@ == j);
                },
                None => {},
            }
        },
    }
}

/// Takes the entry at `i` out of a sorted table, which stays sorted and
/// loses exactly that key.
pub fn take_at<V>(t: &mut Vec<(String, V)>, i: usize) -> (e: (String, V))
    requires
        sorted(old(t)@),
        i < old(t)@.len(),
    ensures
        e == old(t)@[i as int],
        final(t)@ == old(t)@.remove(i as int),
        sorted(final(t)@),
        !has_key(final(t)@, e.0@),
        forall|j: Seq<char>| j != e.0@ ==> #[trigger] lookup(final(t)@, j) == lookup(old(t)@, j),
        forall|j: Seq<char>| #[trigger] has_key(final(t)@, j) <==> (j != e.0@ && has_key(old(t)@, j)),
{
    let ghost o = t@;
    let e = t.remove(i);
    proof {
        let n = t@;
        assert forall|a: int| 0 <= a < n.len() implies n[a] == (if a < i { o[a] } else { o[a + 1] }) by {}
        assert forall|a: int, b: int| 0 <= a < b < n.len() implies seq_lt(
            #[trigger] n[a].0@,
            #[trigger] n[b].0@,
        ) by {
            let a2 = if a < i { a } else { a + 1 };
            let b2 = if b < i { b } else { b + 1 };
            assert(n[a] == o[a2]);
            assert(n[b] == o[b2]);
        }
        assert(!has_key(n, e.0@)) by {
            if has_key(n, e.0@) {
                let w = choose|w: int| 0 <= w < n.len() && n[w].0@ == e.0@;
                let w2 = if w < i { w } else { w + 1 };
                assert(o[w2].0@ == o[i as int].0@);
                if w2 < i {
                    lemma_seq_lt_asymmetric(o[w2].0@, o[i as int].0@);
                } else {
                    lemma_seq_lt_asymmetric(o[i as int].0@, o[w2].0@);
                }
            }
        }
        assert forall|j: Seq<char>| j != e.0@ implies #[trigger] lookup(n, j) == lookup(o, j) by {
            lemma_index_of_key_props(o, j);
            lemma_index_of_key_props(n, j);
            match index_of_key(o, j) {
                Some(w) => {
                    assert(w != i);
                    lemma_sorted_index(o, w);
                    let w2 = if w < i { w } else { w - 1 };
                    assert(n[w2] == o[w]);
                    lemma_sorted_index(n, w2);
                },
                None => {
                    match index_of_key(n, j) {
                        Some(w) => {
                            let w2 = if w < i { w } else { w + 1 };
                            assert(o[w2] == n[w]);
                        },
                        None => {},
                    }
                },
            }
        }
        assert forall|j: Seq<char>| #[trigger] has_key(n, j) <==> (j != e.0@ && has_key(o, j)) by {
            if has_key(n, j) {
                let w = choose|w: int| 0 <= w < n.len() && n[w].0@ == j;
                let w2 = if w < i { w } else { w + 1 };
                assert(o[w2] == n[w]);
            }
            if j != e.0@ && has_key(o, j) {
                let w = choose|w: int| 0 <= w < o.len() && o[w].0@ == j;
                assert(w != i);
                let w2 = if w < i { w } else { w - 1 };
                assert(n[w2] == o[w]);
            }
        }
    }
    e
}

} // verus!
