//! Paths as text: joining a relative name onto a directory, and walking up
//! through a path's ancestors, the way `std::path::Path` does for paths
//! written with `/` separators.
use crate::text::{views, chars_of, push_char, push_str, string_of, string_of_range};
use vstd::prelude::*;

verus! {

/// Whether `c` is the separator `/`.
pub open spec fn is_sep(c: char) -> bool {
    c as u32 == 0x2f
}

/// `p` without trailing separators, except that a path made only of
/// separators keeps one.
pub open spec fn strip_trailing_seps(p: Seq<char>) -> Seq<char>
    decreases p.len(),
{
    if p.len() > 1 && is_sep(p.last()) {
        strip_trailing_seps(p.drop_last())
    } else {
        p
    }
}

/// The position of the last separator in `p`, if any.
pub open spec fn last_sep(p: Seq<char>) -> Option<int>
    decreases p.len(),
{
    if p.len() == 0 {
        None
    } else if is_sep(p.last()) {
        Some(p.len() - 1)
    } else {
        last_sep(p.drop_last())
    }
}

/// The path `Path::parent` gives: `None` for the empty path and for the root,
/// the empty path for a single relative name, and otherwise everything before
/// the last component.
pub open spec fn parent_seq(p: Seq<char>) -> Option<Seq<char>> {
    let t = strip_trailing_seps(p);
    if t.len() == 0 || (t.len() == 1 && is_sep(t[0])) {
        None
    } else {
        match last_sep(t) {
            None => Some(Seq::empty()),
            Some(k) => if k == 0 {
                Some(seq!['/'])
            } else {
                Some(strip_trailing_seps(t.take(k)))
            },
        }
    }
}

/// `rel` joined onto `base`, as `Path::join` does: a rooted `rel` replaces
/// `base`, an empty `base` gives `rel`, and otherwise the two are separated by
/// exactly the one separator `base` may already end with.
pub open spec fn join_seq(base: Seq<char>, rel: Seq<char>) -> Seq<char> {
    if rel.len() > 0 && is_sep(rel[0]) {
        rel
    } else if base.len() == 0 {
        rel
    } else if is_sep(base.last()) {
        base + rel
    } else {
        base + seq!['/'] + rel
    }
}

proof fn lemma_strip_shorter(p: Seq<char>)
    ensures
        strip_trailing_seps(p).len() <= p.len(),
        p.len() > 0 ==> strip_trailing_seps(p).len() > 0,
        strip_trailing_seps(p).len() == 1 && is_sep(strip_trailing_seps(p)[0]) ==> is_sep(p[0]),
        strip_trailing_seps(p) == p.take(strip_trailing_seps(p).len() as int),
    decreases p.len(),
{
    if p.len() > 1 && is_sep(p.last()) {
        lemma_strip_shorter(p.drop_last());
        let s = strip_trailing_seps(p.drop_last());
        assert(p.drop_last().take(s.len() as int) =~= p.take(s.len() as int));
    } else {
        assert(p.take(p.len() as int) =~= p);
    }
}

proof fn lemma_last_sep(p: Seq<char>)
    ensures
        match last_sep(p) {
            Some(k) => 0 <= k < p.len() && is_sep(p[k]) && forall|j: int|
                k < j < p.len() ==> !is_sep(p[j]),
            None => forall|j: int| 0 <= j < p.len() ==> !is_sep(p[j]),
        },
    decreases p.len(),
{
    if p.len() > 0 && !is_sep(p.last()) {
        lemma_last_sep(p.drop_last());
        assert(forall|j: int| 0 <= j < p.len() - 1 ==> p.drop_last()[j] == p[j]);
    }
}

/// A parent is always shorter than the path it came from.
pub proof fn lemma_parent_shorter(p: Seq<char>)
    ensures
        parent_seq(p) matches Some(q) ==> q.len() < p.len(),
{
    let t = strip_trailing_seps(p);
    lemma_strip_shorter(p);
    lemma_last_sep(t);
    match last_sep(t) {
        Some(k) => {
            if k > 0 {
                lemma_strip_shorter(t.take(k));
            }
        },
        None => {},
    }
}

/// A relative `rel` joined onto anything ends as `rel` ends.
pub proof fn lemma_join_ends_as(base: Seq<char>, rel: Seq<char>)
    requires
        rel.len() > 0,
        !is_sep(rel[0]),
    ensures
        join_seq(base, rel).len() >= rel.len(),
        join_seq(base, rel).last() == rel.last(),
{
}

/// A name with no separator in it, joined onto a directory that does not
/// end in one, has that directory for its parent.
pub proof fn lemma_parent_of_joined_name(dir: Seq<char>, name: Seq<char>)
    requires
        dir.len() > 0,
        !is_sep(dir.last()),
        name.len() > 0,
        forall|j: int| 0 <= j < name.len() ==> !is_sep(#[trigger] name[j]),
    ensures
        parent_seq(join_seq(dir, name)) == Some(dir),
{
    let p = join_seq(dir, name);
    let n = dir.len() as int;
    assert(p == dir + seq!['/'] + name);
    assert(!is_sep(p.last()) && p.last() == name[name.len() - 1]);
    assert(strip_trailing_seps(p) == p);
    lemma_last_sep(p);
    assert(is_sep(p[n]));
    assert forall|j: int| n < j < p.len() implies !is_sep(#[trigger] p[j]) by {
        assert(p[j] == name[j - n - 1]);
    }
    match last_sep(p) {
        Some(k) => {
            if k < n {
                assert(!is_sep(p[n]));
            }
            assert(k == n);
            assert(p.take(k) =~= dir);
        },
        None => {
            assert(!is_sep(p[n]));
        },
    }
}

/// `p` followed by each of its ancestors in turn, nearest first.
pub open spec fn ancestry(p: Seq<char>) -> Seq<Seq<char>>
    decreases p.len(),
{
    match parent_seq(p) {
        Some(q) => {
            proof {
                lemma_parent_shorter(p);
            }
            seq![p] + ancestry(q)
        },
        None => seq![p],
    }
}

/// `rel` joined onto `base` (`Path::join`).
pub fn join(base: &str, rel: &str) -> (r: String)
    ensures
        r@ == join_seq(base@, rel@),
{
    let b = chars_of(base);
    let rv = chars_of(rel);
    if rv.len() > 0 && rv[0] as u32 == 0x2f {
        return string_of(&rv);
    }
    if b.len() == 0 {
        return string_of(&rv);
    }
    let mut out = string_of(&b);
    if b[b.len() - 1] as u32 != 0x2f {
        push_char(&mut out, '/');
    }
    push_str(&mut out, rel);
    out
}

/// The length of `v[..len]` once trailing separators are stripped.
fn stripped_len(v: &Vec<char>, len: usize) -> (n: usize)
    requires
        len <= v.len(),
    ensures
        n <= len,
        strip_trailing_seps(v@.take(len as int)) == v@.take(n as int),
{
    let mut n = len;
    while n > 1 && v[n - 1] as u32 == 0x2f
        invariant
            n <= len <= v.len(),
            strip_trailing_seps(v@.take(len as int)) == strip_trailing_seps(v@.take(n as int)),
        decreases n,
    {
        assert(v@.take(n as int).drop_last() =~= v@.take(n - 1));
        n = n - 1;
    }
    n
}

/// The parent of `p`, as `Path::parent` gives it.
pub fn parent(p: &str) -> (r: Option<String>)
    ensures
        match r {
            Some(q) => parent_seq(p@) == Some(q@),
            None => parent_seq(p@) is None,
        },
{
    let v = chars_of(p);
    let n = stripped_len(&v, v.len());
    assert(v@.take(v.len() as int) =~= v@);
    let ghost t = v@.take(n as int);
    if n == 0 || (n == 1 && v[0] as u32 == 0x2f) {
        return None;
    }
    let mut k = n;
    assert(t.take(n as int) =~= t);
    while k > 0 && v[k - 1] as u32 != 0x2f
        invariant
            k <= n <= v.len(),
            t == v@.take(n as int),
            last_sep(t) == last_sep(t.take(k as int)),
        decreases k,
    {
        assert(t.take(k as int).drop_last() =~= t.take(k - 1));
        k = k - 1;
    }
    if k == 0 {
        assert(t.take(0) =~= Seq::<char>::empty());
        return Some(String::new());
    }
    assert(t.take(k as int).last() == t[k - 1]);
    if k == 1 {
        let mut root = String::new();
        push_char(&mut root, '/');
        return Some(root);
    }
    let m = stripped_len(&v, k - 1);
    assert(t.take(k - 1) =~= v@.take(k - 1));
    Some(string_of_range(&v, 0, m))
}

/// `p` followed by each of its ancestors, nearest first: the directories a
/// search upward from `p` visits.
pub fn ancestors(p: &str) -> (r: Vec<String>)
    ensures
        views(r@) == ancestry(p@),
    decreases p@.len(),
{
    let mut r: Vec<String> = Vec::new();
    r.push(string_of(&chars_of(p)));
    match parent(p) {
        Some(q) => {
            proof {
                lemma_parent_shorter(p@);
            }
            let rest = ancestors(q.as_str());
            let ghost head = r@;
            let mut i: usize = 0;
            while i < rest.len()
                invariant
                    i <= rest.len(),
                    views(r@) == views(head) + views(rest@).take(i as int),
                    views(head) == seq![p@],
                decreases rest.len() - i,
            {
                let ghost before = r@;
                r.push(rest[i].clone());
                assert(views(r@) =~= views(before).push(rest@[i as int]@));
                assert(views(rest@).take(i + 1) =~= views(rest@).take(i as int).push(
                    rest@[i as int]@,
                ));
                i = i + 1;
            }
            assert(views(rest@).take(i as int) =~= views(rest@));
        },
        None => {
            assert(views(r@) =~= seq![p@]);
        },
    }
    r
}

/// A path's ancestry starts with the path itself.
pub proof fn lemma_ancestry_nonempty(p: Seq<char>)
    ensures
        ancestry(p).len() >= 1,
        ancestry(p)[0] == p,
{
}

/// `path` relative to `root` for display: what follows `root` and a
/// separator, nothing when the two are the same, and `path` itself when it
/// does not lie under `root`.
pub open spec fn rel_seq(root: Seq<char>, path: Seq<char>) -> Seq<char> {
    if path == root {
        Seq::empty()
    } else if root.len() > 0 && is_sep(root.last()) && crate::text::has_prefix(path, root) {
        path.skip(root.len() as int)
    } else if crate::text::has_prefix(path, root + seq!['/']) {
        path.skip(root.len() as int + 1)
    } else {
        path
    }
}

proof fn lemma_is_sep(c: char)
    ensures
        is_sep(c) <==> c == '/',
{
    if is_sep(c) {
        assert(c as u32 == 0x2f);
        assert(('/' as u32) == 0x2f);
    }
}

/// `path` relative to `root`, for telling someone what was written.
pub fn rel(root: &str, path: &str) -> (r: String)
    ensures
        r@ == rel_seq(root@, path@),
{
    if crate::text::str_eq(root, path) {
        return String::new();
    }
    let rv = chars_of(root);
    let pv = chars_of(path);
    let ends_sep = rv.len() > 0 && rv[rv.len() - 1] == '/';
    proof {
        if rv@.len() > 0 {
            lemma_is_sep(root@.last());
            assert(rv@[rv@.len() - 1] == root@.last());
        }
    }
    assert(ends_sep == (root@.len() > 0 && is_sep(root@.last())));
    if ends_sep && crate::text::starts_with(path, root) {
        let s = string_of_range(&pv, rv.len(), pv.len());
        assert(pv@.subrange(rv.len() as int, pv.len() as int) =~= path@.skip(root@.len() as int));
        return s;
    }
    let mut prefix = crate::text::owned(root);
    push_char(&mut prefix, '/');
    assert(prefix@ =~= root@ + seq!['/']);
    if crate::text::starts_with(path, prefix.as_str()) {
        assert(rv.len() + 1 <= pv.len());
        let from: usize = rv.len() + 1;
        let s = string_of_range(&pv, from, pv.len());
        assert(pv@.subrange(from as int, pv.len() as int) =~= path@.skip(root@.len() as int + 1));
        return s;
    }
    crate::text::owned(path)
}

} // verus!
