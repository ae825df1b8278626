//! Character-level operations on text, each with a statement of what it
//! computes over the text's characters.
use vstd::prelude::*;

verus! {

// ---------------------------------------------------------------------------
// Specifications
// ---------------------------------------------------------------------------

/// The Unicode `White_Space` property, which is what `char::is_whitespace`
/// tests: tab through carriage return, space, next line, no-break space,
/// ogham space mark, the en quad through hair space block, line and paragraph
/// separators, narrow no-break space, medium mathematical space and the
/// ideographic space.
pub open spec fn is_ws(c: char) -> bool {
    let u = c as u32;
    ||| 0x09 <= u <= 0x0d
    ||| u == 0x20
    ||| u == 0x85
    ||| u == 0xa0
    ||| u == 0x1680
    ||| 0x2000 <= u <= 0x200a
    ||| u == 0x2028
    ||| u == 0x2029
    ||| u == 0x202f
    ||| u == 0x205f
    ||| u == 0x3000
}

/// `s` without its leading whitespace.
pub open spec fn trim_start_seq(s: Seq<char>) -> Seq<char>
    decreases s.len(),
{
    if s.len() > 0 && is_ws(s[0]) {
        trim_start_seq(s.drop_first())
    } else {
        s
    }
}

/// `s` without its trailing whitespace.
pub open spec fn trim_end_seq(s: Seq<char>) -> Seq<char>
    decreases s.len(),
{
    if s.len() > 0 && is_ws(s.last()) {
        trim_end_seq(s.drop_last())
    } else {
        s
    }
}

/// `s` without leading or trailing whitespace.
pub open spec fn trim_seq(s: Seq<char>) -> Seq<char> {
    trim_end_seq(trim_start_seq(s))
}

/// Whether `c` is a line break character (`\r` or `\n`).
pub open spec fn is_newline(c: char) -> bool {
    c as u32 == 0x0a || c as u32 == 0x0d
}

/// `s` without its leading `\r` and `\n` characters.
pub open spec fn trim_start_newlines_seq(s: Seq<char>) -> Seq<char>
    decreases s.len(),
{
    if s.len() > 0 && is_newline(s[0]) {
        trim_start_newlines_seq(s.drop_first())
    } else {
        s
    }
}

/// Whether `s` begins with `p`.
pub open spec fn has_prefix(s: Seq<char>, p: Seq<char>) -> bool {
    p.len() <= s.len() && s.take(p.len() as int) == p
}

/// Whether `p` occurs in `s` starting at position `i`.
pub open spec fn occurs_at(s: Seq<char>, p: Seq<char>, i: int) -> bool {
    0 <= i && i + p.len() <= s.len() && s.subrange(i, i + p.len()) == p
}

/// The position of the first occurrence of `p` in `s`, if any.
pub open spec fn first_occurrence(s: Seq<char>, p: Seq<char>) -> Option<int> {
    if exists|i: int| occurs_at(s, p, i) {
        Some(choose|i: int| occurs_at(s, p, i) && forall|j: int| 0 <= j < i ==> !occurs_at(s, p, j))
    } else {
        None
    }
}

/// Whether `p` occurs anywhere in `s`.
pub open spec fn contains_seq(s: Seq<char>, p: Seq<char>) -> bool {
    exists|i: int| occurs_at(s, p, i)
}

/// Every non-overlapping occurrence of `from` in `s`, scanning left to right,
/// replaced by `to`.
pub open spec fn replace_seq(s: Seq<char>, from: Seq<char>, to: Seq<char>) -> Seq<char>
    decreases s.len(),
{
    if from.len() == 0 || s.len() < from.len() {
        s
    } else if s.take(from.len() as int) == from {
        to + replace_seq(s.skip(from.len() as int), from, to)
    } else {
        seq![s[0]] + replace_seq(s.drop_first(), from, to)
    }
}

/// Lexicographic order on character sequences, by code point — the order in
/// which `String`'s `Ord` sorts valid text.
pub open spec fn seq_lt(a: Seq<char>, b: Seq<char>) -> bool
    decreases a.len(),
{
    if a.len() == 0 {
        b.len() > 0
    } else if b.len() == 0 {
        false
    } else if (a[0] as u32) < (b[0] as u32) {
        true
    } else if a[0] == b[0] {
        seq_lt(a.drop_first(), b.drop_first())
    } else {
        false
    }
}

/// ASCII letters and digits.
pub open spec fn is_ascii_alnum(c: char) -> bool {
    let u = c as u32;
    (0x30 <= u <= 0x39) || (0x41 <= u <= 0x5a) || (0x61 <= u <= 0x7a)
}

/// The ASCII lower-case form of `c`; every other character is itself.
pub open spec fn ascii_lower(c: char) -> char {
    let u = c as u32;
    if 0x41 <= u <= 0x5a {
        ((u + 32) as u8) as char
    } else {
        c
    }
}

/// The elements of `parts` with `sep` between neighbours.
pub open spec fn join_seq(parts: Seq<Seq<char>>, sep: Seq<char>) -> Seq<char>
    decreases parts.len(),
{
    if parts.len() == 0 {
        Seq::empty()
    } else if parts.len() == 1 {
        parts[0]
    } else {
        join_seq(parts.drop_last(), sep) + sep + parts.last()
    }
}

/// The views of a sequence of strings.
pub open spec fn views(v: Seq<String>) -> Seq<Seq<char>> {
    Seq::new(v.len(), |i: int| v[i]@)
}

/// The character for a decimal digit.
pub open spec fn digit_char(d: nat) -> char {
    ((d + 48) as u8) as char
}

/// The decimal numeral for `n`.
pub open spec fn decimal(n: nat) -> Seq<char>
    decreases n,
{
    if n < 10 {
        seq![digit_char(n)]
    } else {
        decimal(n / 10) + seq![digit_char(n % 10)]
    }
}

// ---------------------------------------------------------------------------
// Lemmas
// ---------------------------------------------------------------------------

/// `p` occurs in `a + p + b` right after `a`.
pub proof fn lemma_occurs_between(a: Seq<char>, p: Seq<char>, b: Seq<char>)
    ensures
        occurs_at(a + p + b, p, a.len() as int),
        contains_seq(a + p + b, p),
{
    assert((a + p + b).subrange(a.len() as int, (a.len() + p.len()) as int) =~= p);
}

/// What occurs in `a` occurs in `a` with anything put before or after it.
pub proof fn lemma_contains_extend(a: Seq<char>, p: Seq<char>, before: Seq<char>, after: Seq<char>)
    requires
        contains_seq(a, p),
    ensures
        contains_seq(before + a + after, p),
{
    let i = choose|i: int| occurs_at(a, p, i);
    let j = before.len() + i;
    assert((before + a + after).subrange(j, j + p.len()) =~= a.subrange(i, i + p.len()));
    assert(occurs_at(before + a + after, p, j));
}

/// What occurs in `a` occurs in `a + b`.
pub proof fn lemma_contains_append(a: Seq<char>, b: Seq<char>, p: Seq<char>)
    requires
        contains_seq(a, p),
    ensures
        contains_seq(a + b, p),
{
    let i = choose|i: int| occurs_at(a, p, i);
    assert((a + b).subrange(i, i + p.len()) =~= a.subrange(i, i + p.len()));
    assert(occurs_at(a + b, p, i));
}

/// What occurs in `a` occurs in `b + a`.
pub proof fn lemma_contains_prepend(b: Seq<char>, a: Seq<char>, p: Seq<char>)
    requires
        contains_seq(a, p),
    ensures
        contains_seq(b + a, p),
{
    let i = choose|i: int| occurs_at(a, p, i);
    let j = b.len() + i;
    assert((b + a).subrange(j, j + p.len()) =~= a.subrange(i, i + p.len()));
    assert(occurs_at(b + a, p, j));
}

/// Each part occurs in the parts joined.
pub proof fn lemma_join_contains(parts: Seq<Seq<char>>, sep: Seq<char>, i: int)
    requires
        0 <= i < parts.len(),
    ensures
        contains_seq(join_seq(parts, sep), parts[i]),
    decreases parts.len(),
{
    if parts.len() == 1 {
        lemma_occurs_between(Seq::empty(), parts[0], Seq::empty());
        assert(Seq::<char>::empty() + parts[0] + Seq::<char>::empty() =~= parts[0]);
    } else if i == parts.len() - 1 {
        lemma_occurs_between(join_seq(parts.drop_last(), sep) + sep, parts.last(), Seq::empty());
        assert(join_seq(parts.drop_last(), sep) + sep + parts.last() + Seq::<char>::empty()
            =~= join_seq(parts, sep));
    } else {
        lemma_join_contains(parts.drop_last(), sep, i);
        assert(parts.drop_last()[i] == parts[i]);
        lemma_contains_extend(join_seq(parts.drop_last(), sep), parts[i], Seq::empty(), sep + parts.last());
        assert(Seq::<char>::empty() + join_seq(parts.drop_last(), sep) + (sep + parts.last())
            =~= join_seq(parts, sep));
    }
}

proof fn lemma_seq_lt_irreflexive(a: Seq<char>)
    ensures
        !seq_lt(a, a),
    decreases a.len(),
{
    if a.len() > 0 {
        lemma_seq_lt_irreflexive(a.drop_first());
    }
}

/// The order on sequences is transitive.
pub proof fn lemma_seq_lt_transitive(a: Seq<char>, b: Seq<char>, c: Seq<char>)
    requires
        seq_lt(a, b),
        seq_lt(b, c),
    ensures
        seq_lt(a, c),
    decreases a.len(),
{
    if a.len() > 0 && b.len() > 0 && c.len() > 0 {
        if a[0] == b[0] && b[0] == c[0] {
            lemma_seq_lt_transitive(a.drop_first(), b.drop_first(), c.drop_first());
        }
    }
}

/// Two different sequences are ordered one way or the other.
pub proof fn lemma_seq_lt_total(a: Seq<char>, b: Seq<char>)
    requires
        a != b,
    ensures
        seq_lt(a, b) || seq_lt(b, a),
    decreases a.len(),
{
    if a.len() > 0 && b.len() > 0 {
        vstd::utf8::char_u32_cast(a[0], a[0] as u32);
        vstd::utf8::char_u32_cast(b[0], b[0] as u32);
    }
    if a.len() > 0 && b.len() > 0 && a[0] == b[0] {
        if a.drop_first() == b.drop_first() {
            assert(a =~= seq![a[0]] + a.drop_first());
            assert(b =~= seq![b[0]] + b.drop_first());
        }
        lemma_seq_lt_total(a.drop_first(), b.drop_first());
    } else if a.len() == 0 && b.len() == 0 {
        assert(a =~= b);
    }
}

/// No sequence precedes itself, and precedence goes one way only.
pub proof fn lemma_seq_lt_asymmetric(a: Seq<char>, b: Seq<char>)
    requires
        seq_lt(a, b),
    ensures
        !seq_lt(b, a),
        a != b,
{
    lemma_seq_lt_irreflexive(a);
    if seq_lt(b, a) {
        lemma_seq_lt_transitive(a, b, a);
    }
}

/// What `first_occurrence` returns satisfies its defining property.
pub proof fn lemma_first_occurrence_props(s: Seq<char>, p: Seq<char>)
    ensures
        match first_occurrence(s, p) {
            Some(i) => occurs_at(s, p, i) && forall|j: int| 0 <= j < i ==> !occurs_at(s, p, j),
            None => forall|j: int| !occurs_at(s, p, j),
        },
{
    if exists|i: int| occurs_at(s, p, i) {
        let w = choose|w: int| occurs_at(s, p, w);
        lemma_least_occurrence(s, p, w);
    }
}

proof fn lemma_least_occurrence(s: Seq<char>, p: Seq<char>, w: int)
    requires
        occurs_at(s, p, w),
    ensures
        exists|i: int| occurs_at(s, p, i) && forall|j: int| 0 <= j < i ==> !occurs_at(s, p, j),
    decreases w,
{
    if exists|j: int| 0 <= j < w && occurs_at(s, p, j) {
        let j = choose|j: int| 0 <= j < w && occurs_at(s, p, j);
        lemma_least_occurrence(s, p, j);
    } else {
        assert(forall|j: int| 0 <= j < w ==> !occurs_at(s, p, j));
    }
}

pub proof fn lemma_first_occurrence_is(s: Seq<char>, p: Seq<char>, i: int)
    requires
        occurs_at(s, p, i),
        forall|j: int| 0 <= j < i ==> !occurs_at(s, p, j),
    ensures
        first_occurrence(s, p) == Some(i),
{
    let k = choose|k: int| occurs_at(s, p, k) && forall|j: int| 0 <= j < k ==> !occurs_at(s, p, j);
    assert(occurs_at(s, p, k));
    if k < i {
        assert(!occurs_at(s, p, k));
    }
    if i < k {
        assert(!occurs_at(s, p, i));
    }
}

// ---------------------------------------------------------------------------
// Executable operations
// ---------------------------------------------------------------------------

/// Appends one character to a string.
///
/// Calls `String::push`, whose documentation says it appends the given char
/// to the end of the string; the contract states exactly that.
#[verifier::external_body]
pub(crate) fn push_char(s: &mut String, c: char)
    ensures
        final(s)@ == old(s)@.push(c),
{
    s.push(c)
}

/// Appends `t` to `s`.
pub(crate) fn push_str(s: &mut String, t: &str)
    ensures
        final(s)@ == old(s)@ + t@,
{
    s.append(t)
}

/// A new string holding `t`.
pub(crate) fn owned(t: &str) -> (s: String)
    ensures
        s@ == t@,
{
    t.to_owned()
}

/// The characters of `s`, in order.
pub fn chars_of(s: &str) -> (v: Vec<char>)
    ensures
        v@ == s@,
{
    let mut v: Vec<char> = Vec::new();
    for c in it: s.chars()
        invariant
            v@ == it.seq().take(it.index() as int),
            it.seq() == s@,
    {
        v.push(c);
    }
    v
}

/// The string made of `v[from..to]`.
pub fn string_of_range(v: &Vec<char>, from: usize, to: usize) -> (s: String)
    requires
        from <= to <= v.len(),
    ensures
        s@ == v@.subrange(from as int, to as int),
{
    let mut s = String::new();
    let mut i = from;
    while i < to
        invariant
            from <= i <= to <= v.len(),
            s@ == v@.subrange(from as int, i as int),
        decreases to - i,
    {
        push_char(&mut s, v[i]);
        i = i + 1;
        assert(s@ =~= v@.subrange(from as int, i as int));
    }
    s
}

/// The string made of the characters in `v`.
pub fn string_of(v: &Vec<char>) -> (s: String)
    ensures
        s@ == v@,
{
    let s = string_of_range(v, 0, v.len());
    assert(v@.subrange(0, v.len() as int) =~= v@);
    s
}

/// `char::is_whitespace`, written out over the Unicode `White_Space` set.
pub fn is_whitespace(c: char) -> (b: bool)
    ensures
        b == is_ws(c),
{
    let u = c as u32;
    (0x09 <= u && u <= 0x0d) || u == 0x20 || u == 0x85 || u == 0xa0 || u == 0x1680 || (0x2000
        <= u && u <= 0x200a) || u == 0x2028 || u == 0x2029 || u == 0x202f || u == 0x205f || u
        == 0x3000
}

/// Whether `c` is an ASCII letter or digit.
pub fn is_alnum(c: char) -> (b: bool)
    ensures
        b == is_ascii_alnum(c),
{
    let u = c as u32;
    (0x30 <= u && u <= 0x39) || (0x41 <= u && u <= 0x5a) || (0x61 <= u && u <= 0x7a)
}

/// The ASCII lower-case form of `c`.
pub fn to_ascii_lower(c: char) -> (l: char)
    ensures
        l == ascii_lower(c),
{
    let u = c as u32;
    if 0x41 <= u && u <= 0x5a {
        let b: u8 = (u + 32) as u8;
        b as char
    } else {
        c
    }
}

/// The index of the first character of `v[from..]` that is not whitespace,
/// or `v.len()`.
fn skip_ws(v: &Vec<char>, from: usize) -> (i: usize)
    requires
        from <= v.len(),
    ensures
        from <= i <= v.len(),
        trim_start_seq(v@.skip(from as int)) == v@.skip(i as int),
{
    let mut i = from;
    while i < v.len() && is_whitespace(v[i])
        invariant
            from <= i <= v.len(),
            trim_start_seq(v@.skip(from as int)) == trim_start_seq(v@.skip(i as int)),
        decreases v.len() - i,
    {
        assert(v@.skip(i as int).drop_first() =~= v@.skip(i + 1));
        i = i + 1;
    }
    i
}

/// One past the last character of `v[..to]` that is not whitespace, or 0.
fn back_over_ws(v: &Vec<char>, from: usize, to: usize) -> (j: usize)
    requires
        from <= to <= v.len(),
    ensures
        from <= j <= to,
        j > from ==> !is_ws(v@[j - 1]),
        trim_end_seq(v@.subrange(from as int, to as int)) == v@.subrange(from as int, j as int),
{
    let mut j = to;
    while j > from && is_whitespace(v[j - 1])
        invariant
            from <= j <= to <= v.len(),
            trim_end_seq(v@.subrange(from as int, to as int)) == trim_end_seq(
                v@.subrange(from as int, j as int),
            ),
        decreases j,
    {
        assert(v@.subrange(from as int, j as int).drop_last() =~= v@.subrange(
            from as int,
            j - 1,
        ));
        j = j - 1;
    }
    j
}

/// `s` without leading and trailing whitespace (`str::trim`).
pub fn trim(s: &str) -> (t: String)
    ensures
        t@ == trim_seq(s@),
{
    let v = chars_of(s);
    let i = skip_ws(&v, 0);
    let j = back_over_ws(&v, i, v.len());
    assert(v@.skip(0) =~= v@);
    assert(v@.skip(i as int) =~= v@.subrange(i as int, v.len() as int));
    string_of_range(&v, i, j)
}

/// `s` without trailing whitespace (`str::trim_end`).
pub fn trim_end(s: &str) -> (t: String)
    ensures
        t@ == trim_end_seq(s@),
{
    let v = chars_of(s);
    let j = back_over_ws(&v, 0, v.len());
    assert(v@.subrange(0, v.len() as int) =~= v@);
    string_of_range(&v, 0, j)
}

/// `s` without leading `\r` and `\n` characters.
pub fn trim_start_newlines(s: &str) -> (t: String)
    ensures
        t@ == trim_start_newlines_seq(s@),
{
    let v = chars_of(s);
    let mut i: usize = 0;
    assert(v@.skip(0) =~= v@);
    while i < v.len() && (v[i] as u32 == 0x0a || v[i] as u32 == 0x0d)
        invariant
            i <= v.len(),
            trim_start_newlines_seq(v@) == trim_start_newlines_seq(v@.skip(i as int)),
        decreases v.len() - i,
    {
        assert(v@.skip(i as int).drop_first() =~= v@.skip(i + 1));
        i = i + 1;
    }
    assert(v@.skip(i as int) =~= v@.subrange(i as int, v.len() as int));
    string_of_range(&v, i, v.len())
}

/// Whether the whole of `s` is whitespace (or `s` is empty).
pub fn is_blank(s: &str) -> (b: bool)
    ensures
        b == (trim_seq(s@).len() == 0),
{
    let t = trim(s);
    t.as_str().is_empty()
}

/// Whether two texts are equal.
pub fn str_eq(a: &str, b: &str) -> (r: bool)
    ensures
        r == (a@ == b@),
{
    let va = chars_of(a);
    let vb = chars_of(b);
    if va.len() != vb.len() {
        return false;
    }
    let mut i: usize = 0;
    while i < va.len()
        invariant
            va@ == a@,
            vb@ == b@,
            va.len() == vb.len(),
            i <= va.len(),
            va@.take(i as int) == vb@.take(i as int),
        decreases va.len() - i,
    {
        if va[i] != vb[i] {
            assert(va@[i as int] != vb@[i as int]);
            return false;
        }
        assert(va@.take(i + 1) =~= va@.take(i as int).push(va@[i as int]));
        assert(vb@.take(i + 1) =~= vb@.take(i as int).push(vb@[i as int]));
        i = i + 1;
    }
    assert(va@.take(i as int) =~= va@);
    assert(vb@.take(i as int) =~= vb@);
    true
}

/// Whether `p` occurs in `v` at position `i`.
fn matches_at(v: &Vec<char>, p: &Vec<char>, i: usize) -> (r: bool)
    requires
        i <= v.len(),
    ensures
        r == occurs_at(v@, p@, i as int),
{
    if p.len() > v.len() - i {
        return false;
    }
    let mut k: usize = 0;
    while k < p.len()
        invariant
            i + p.len() <= v.len(),
            k <= p.len(),
            forall|m: int| 0 <= m < k ==> v@[i + m] == p@[m],
        decreases p.len() - k,
    {
        if v[i + k] != p[k] {
            assert(v@.subrange(i as int, i + p.len())[k as int] != p@[k as int]);
            return false;
        }
        k = k + 1;
    }
    assert(v@.subrange(i as int, i + p.len()) =~= p@);
    true
}

/// The position of the first occurrence of `p` in `v` at or after `from`.
fn find_from(v: &Vec<char>, p: &Vec<char>, from: usize) -> (r: Option<usize>)
    requires
        from <= v.len(),
    ensures
        match r {
            Some(i) => from <= i && occurs_at(v@, p@, i as int) && forall|j: int|
                from <= j < i ==> !occurs_at(v@, p@, j),
            None => forall|j: int| from <= j ==> !occurs_at(v@, p@, j),
        },
{
    let mut i = from;
    loop
        invariant
            from <= i <= v.len(),
            forall|j: int| from <= j < i ==> !occurs_at(v@, p@, j),
        ensures
            i == v.len(),
            forall|j: int| from <= j <= i ==> !occurs_at(v@, p@, j),
        decreases v.len() - i,
    {
        if matches_at(v, p, i) {
            return Some(i);
        }
        if i == v.len() {
            break;
        }
        i = i + 1;
    }
    assert forall|j: int| from <= j implies !occurs_at(v@, p@, j) by {
        if j > i {
            assert(j + p@.len() > v@.len());
        }
    }
    None
}

/// The position, counted in characters, of the first occurrence of `p` in
/// `s` (`str::find`, which counts in bytes instead).
pub fn find(s: &str, p: &str) -> (r: Option<usize>)
    ensures
        match r {
            Some(i) => first_occurrence(s@, p@) == Some(i as int),
            None => first_occurrence(s@, p@) is None,
        },
{
    let v = chars_of(s);
    let pv = chars_of(p);
    let r = find_from(&v, &pv, 0);
    match r {
        Some(i) => {
            proof {
                lemma_first_occurrence_is(s@, p@, i as int);
            }
        },
        None => {},
    }
    r
}

/// Whether `p` occurs in `s`.
pub fn contains(s: &str, p: &str) -> (b: bool)
    ensures
        b == contains_seq(s@, p@),
{
    let r = find(s, p);
    r.is_some()
}

/// Whether `s` begins with `p`.
pub fn starts_with(s: &str, p: &str) -> (b: bool)
    ensures
        b == has_prefix(s@, p@),
{
    let v = chars_of(s);
    let pv = chars_of(p);
    let r = matches_at(&v, &pv, 0);
    proof {
        if p@.len() <= s@.len() {
            assert(s@.take(p@.len() as int) =~= s@.subrange(0, p@.len() as int));
        }
    }
    r
}

/// `s` with every non-overlapping occurrence of `from`, scanning left to right,
/// replaced by `to` (`str::replace`, for a non-empty pattern).
pub fn replace(s: &str, from: &str, to: &str) -> (r: String)
    requires
        from@.len() > 0,
    ensures
        r@ == replace_seq(s@, from@, to@),
{
    let v = chars_of(s);
    let f = chars_of(from);
    let mut out = String::new();
    let mut i: usize = 0;
    assert(v@.skip(0) =~= v@);
    while i < v.len()
        invariant
            i <= v.len(),
            f@ == from@,
            f@.len() > 0,
            v@ == s@,
            out@ + replace_seq(v@.skip(i as int), f@, to@) == replace_seq(s@, from@, to@),
        decreases v.len() - i,
    {
        let ghost rest = v@.skip(i as int);
        if matches_at(&v, &f, i) {
            assert(rest.take(f@.len() as int) =~= v@.subrange(i as int, i + f@.len()));
            assert(rest.skip(f@.len() as int) =~= v@.skip(i + f@.len()));
            let ghost before = out@;
            push_str(&mut out, to);
            assert(replace_seq(rest, f@, to@) == to@ + replace_seq(v@.skip(i + f@.len()), f@, to@));
            assert(out@ + replace_seq(v@.skip(i + f@.len()), f@, to@) =~= before + replace_seq(rest, f@, to@));
            i = i + f.len();
        } else {
            proof {
                if rest.len() >= f@.len() {
                    assert(rest.take(f@.len() as int) =~= v@.subrange(i as int, i + f@.len()));
                }
                assert(rest.drop_first() =~= v@.skip(i + 1));
            }
            let ghost before = out@;
            push_char(&mut out, v[i]);
            proof {
                if rest.len() < f@.len() {
                    // The pattern no longer fits: the rest is copied as it is.
                    lemma_replace_short(rest, f@, to@);
                    lemma_replace_short(v@.skip(i + 1), f@, to@);
                    assert(rest =~= seq![v@[i as int]] + v@.skip(i + 1));
                }
                assert(out@ =~= before + seq![v@[i as int]]);
            }
            i = i + 1;
        }
    }
    proof {
        assert(v@.skip(i as int) =~= Seq::<char>::empty());
        lemma_replace_short(v@.skip(i as int), f@, to@);
        assert(out@ + Seq::<char>::empty() =~= out@);
    }
    out
}

proof fn lemma_replace_short(s: Seq<char>, f: Seq<char>, t: Seq<char>)
    requires
        s.len() < f.len(),
    ensures
        replace_seq(s, f, t) == s,
{
}

/// The strings of `parts` with `sep` between neighbours (`[String]::join`).
pub fn join(parts: &Vec<String>, sep: &str) -> (r: String)
    ensures
        r@ == join_seq(views(parts@), sep@),
{
    let mut out = String::new();
    let mut i: usize = 0;
    while i < parts.len()
        invariant
            i <= parts.len(),
            out@ == join_seq(views(parts@).take(i as int), sep@),
        decreases parts.len() - i,
    {
        let ghost before = out@;
        if i > 0 {
            push_str(&mut out, sep);
        }
        push_str(&mut out, parts[i].as_str());
        proof {
            let t = views(parts@).take(i + 1);
            assert(t.drop_last() =~= views(parts@).take(i as int));
            if i == 0 {
                assert(before =~= Seq::<char>::empty());
                assert(out@ =~= t[0]);
            }
        }
        i = i + 1;
    }
    assert(views(parts@).take(i as int) =~= views(parts@));
    out
}

/// The decimal numeral for `n` (`usize::to_string`).
pub fn decimal_string(n: usize) -> (s: String)
    ensures
        s@ == decimal(n as nat),
    decreases n,
{
    let d: u8 = (n % 10) as u8;
    let c: char = (d + 48) as char;
    if n < 10 {
        let mut s = String::new();
        push_char(&mut s, c);
        assert(s@ =~= seq![digit_char(n as nat)]);
        s
    } else {
        let mut s = decimal_string(n / 10);
        push_char(&mut s, c);
        s
    }
}

/// Whether `a` sorts before `b`.
pub fn str_less(a: &str, b: &str) -> (r: bool)
    ensures
        r == seq_lt(a@, b@),
{
    let va = chars_of(a);
    let vb = chars_of(b);
    let mut i: usize = 0;
    assert(va@.skip(0) =~= va@);
    assert(vb@.skip(0) =~= vb@);
    while i < va.len() && i < vb.len() && va[i] == vb[i]
        invariant
            i <= va.len(),
            i <= vb.len(),
            seq_lt(va@, vb@) == seq_lt(va@.skip(i as int), vb@.skip(i as int)),
        decreases va.len() - i,
    {
        assert(va@.skip(i as int).drop_first() =~= va@.skip(i + 1));
        assert(vb@.skip(i as int).drop_first() =~= vb@.skip(i + 1));
        i = i + 1;
    }
    if i == va.len() {
        i < vb.len()
    } else if i == vb.len() {
        false
    } else {
        (va[i] as u32) < (vb[i] as u32)
    }
}

} // verus!

verus! {

/// The least position in `lo..hi` satisfying `p`, if any.
pub open spec fn first_in(lo: int, hi: int, p: spec_fn(int) -> bool) -> Option<int> {
    if exists|i: int| lo <= i < hi && #[trigger] p(i) {
        Some(choose|i: int| lo <= i < hi && #[trigger] p(i) && forall|j: int| lo <= j < i ==> !#[trigger] p(j))
    } else {
        None
    }
}

/// What `first_in` returns satisfies its defining property.
pub proof fn lemma_first_in_props(lo: int, hi: int, p: spec_fn(int) -> bool)
    ensures
        match first_in(lo, hi, p) {
            Some(i) => lo <= i < hi && #[trigger] p(i) && forall|j: int| lo <= j < i ==> !#[trigger] p(j),
            None => forall|j: int| lo <= j < hi ==> !#[trigger] p(j),
        },
{
    if exists|i: int| lo <= i < hi && #[trigger] p(i) {
        let w = choose|w: int| lo <= w < hi && #[trigger] p(w);
        lemma_least_in(lo, hi, p, w);
    }
}

proof fn lemma_least_in(lo: int, hi: int, p: spec_fn(int) -> bool, w: int)
    requires
        lo <= w < hi,
        p(w),
    ensures
        exists|i: int| lo <= i < hi && #[trigger] p(i) && forall|j: int| lo <= j < i ==> !#[trigger] p(j),
    decreases w - lo,
{
    if exists|j: int| lo <= j < w && #[trigger] p(j) {
        let j = choose|j: int| lo <= j < w && #[trigger] p(j);
        lemma_least_in(lo, hi, p, j);
    } else {
        assert(forall|j: int| lo <= j < w ==> !#[trigger] p(j));
    }
}

/// `first_in` is the least position satisfying `p`.
pub proof fn lemma_first_in_is(lo: int, hi: int, p: spec_fn(int) -> bool, i: int)
    requires
        lo <= i < hi,
        p(i),
        forall|j: int| lo <= j < i ==> !#[trigger] p(j),
    ensures
        first_in(lo, hi, p) == Some(i),
{
    lemma_first_in_props(lo, hi, p);
    let k = first_in(lo, hi, p)->0;
    if k < i {
        assert(!p(k));
    }
    if i < k {
        assert(!p(i));
    }
}

} // verus!

verus! {

/// Whether every character of `s` is whitespace.
pub open spec fn all_ws(s: Seq<char>) -> bool {
    forall|i: int| 0 <= i < s.len() ==> is_ws(#[trigger] s[i])
}

proof fn lemma_trim_start_ws_prefix(a: Seq<char>, y: Seq<char>)
    requires
        all_ws(a),
    ensures
        trim_start_seq(a + y) == trim_start_seq(y),
    decreases a.len(),
{
    if a.len() > 0 {
        assert((a + y)[0] == a[0]);
        assert((a + y).drop_first() =~= a.drop_first() + y);
        lemma_trim_start_ws_prefix(a.drop_first(), y);
    } else {
        assert(a + y =~= y);
    }
}

proof fn lemma_trim_end_ws_suffix(y: Seq<char>, b: Seq<char>)
    requires
        all_ws(b),
    ensures
        trim_end_seq(y + b) == trim_end_seq(y),
    decreases b.len(),
{
    if b.len() > 0 {
        assert((y + b).last() == b.last());
        assert((y + b).drop_last() =~= y + b.drop_last());
        lemma_trim_end_ws_suffix(y, b.drop_last());
    } else {
        assert(y + b =~= y);
    }
}

proof fn lemma_trim_start_all_ws(s: Seq<char>)
    requires
        all_ws(s),
    ensures
        trim_start_seq(s) == Seq::<char>::empty(),
    decreases s.len(),
{
    if s.len() > 0 {
        lemma_trim_start_all_ws(s.drop_first());
    }
}

proof fn lemma_trim_end_all_ws(s: Seq<char>)
    requires
        all_ws(s),
    ensures
        trim_end_seq(s) == Seq::<char>::empty(),
    decreases s.len(),
{
    if s.len() > 0 {
        lemma_trim_end_all_ws(s.drop_last());
    }
}

proof fn lemma_trim_start_append(x: Seq<char>, b: Seq<char>)
    requires
        !all_ws(x),
    ensures
        trim_start_seq(x + b) == trim_start_seq(x) + b,
    decreases x.len(),
{
    if is_ws(x[0]) {
        assert(x.len() > 0);
        assert((x + b).drop_first() =~= x.drop_first() + b);
        assert(!all_ws(x.drop_first())) by {
            let k = choose|k: int| 0 <= k < x.len() && !is_ws(x[k]);
            assert(x.drop_first()[k - 1] == x[k]);
        }
        lemma_trim_start_append(x.drop_first(), b);
    }
}

proof fn lemma_trim_end_prepend(a: Seq<char>, y: Seq<char>)
    requires
        !all_ws(y),
    ensures
        trim_end_seq(a + y) == a + trim_end_seq(y),
    decreases y.len(),
{
    if is_ws(y.last()) {
        assert((a + y).drop_last() =~= a + y.drop_last());
        assert(!all_ws(y.drop_last())) by {
            let k = choose|k: int| 0 <= k < y.len() && !is_ws(y[k]);
            assert(y.drop_last()[k] == y[k]);
        }
        lemma_trim_end_prepend(a, y.drop_last());
    }
}

/// Whitespace around a text does not change what trimming it leaves.
pub proof fn lemma_trim_around(a: Seq<char>, x: Seq<char>, b: Seq<char>)
    requires
        all_ws(a),
        all_ws(b),
    ensures
        trim_seq(a + x + b) == trim_seq(x),
{
    assert(a + x + b =~= a + (x + b));
    lemma_trim_start_ws_prefix(a, x + b);
    if all_ws(x) {
        lemma_trim_start_ws_prefix(x, b);
        lemma_trim_start_all_ws(b);
        lemma_trim_start_all_ws(x);
    } else {
        lemma_trim_start_append(x, b);
        lemma_trim_end_ws_suffix(trim_start_seq(x), b);
    }
}

/// A text is its leading whitespace followed by what `trim_start` leaves.
proof fn lemma_trim_start_split(s: Seq<char>)
    ensures
        all_ws(s.take(s.len() - trim_start_seq(s).len())),
        s == s.take(s.len() - trim_start_seq(s).len()) + trim_start_seq(s),
        trim_start_seq(s).len() <= s.len(),
    decreases s.len(),
{
    if s.len() > 0 && is_ws(s[0]) {
        lemma_trim_start_split(s.drop_first());
        let t = trim_start_seq(s.drop_first());
        let n = s.len() - t.len();
        let d = s.drop_first();
        assert(d == d.take(n - 1) + t);
        assert(s =~= seq![s[0]] + d);
        assert(s.take(n) =~= seq![s[0]] + d.take(n - 1));
        assert(s =~= s.take(n) + t);
    } else {
        assert(s.take(0) =~= Seq::<char>::empty());
        assert(s =~= s.take(0) + s);
    }
}

/// A text is what `trim_end` leaves followed by its trailing whitespace.
proof fn lemma_trim_end_split(s: Seq<char>)
    ensures
        all_ws(s.skip(trim_end_seq(s).len() as int)),
        s == trim_end_seq(s) + s.skip(trim_end_seq(s).len() as int),
        trim_end_seq(s).len() <= s.len(),
    decreases s.len(),
{
    if s.len() > 0 && is_ws(s.last()) {
        lemma_trim_end_split(s.drop_last());
        let t = trim_end_seq(s.drop_last());
        let d = s.drop_last();
        assert(d == t + d.skip(t.len() as int));
        assert(s =~= d.push(s.last()));
        assert(s.skip(t.len() as int) =~= d.skip(t.len() as int).push(s.last()));
        assert(s =~= t + s.skip(t.len() as int));
    } else {
        assert(s.skip(s.len() as int) =~= Seq::<char>::empty());
        assert(s =~= s + s.skip(s.len() as int));
    }
}

/// Trimming twice is trimming once.
pub proof fn lemma_trim_idempotent(s: Seq<char>)
    ensures
        trim_seq(trim_seq(s)) == trim_seq(s),
{
    lemma_trim_start_split(s);
    let ts = trim_start_seq(s);
    let a = s.take(s.len() - ts.len());
    lemma_trim_end_split(ts);
    let t = trim_end_seq(ts);
    let b = ts.skip(t.len() as int);
    assert(s =~= a + t + b);
    lemma_trim_around(a, t, b);
}

/// Trimming what `trim_end` left is trimming the text itself.
pub proof fn lemma_trim_of_trim_end(s: Seq<char>)
    ensures
        trim_seq(trim_end_seq(s)) == trim_seq(s),
{
    lemma_trim_end_split(s);
    let t = trim_end_seq(s);
    let b = s.skip(t.len() as int);
    assert(Seq::<char>::empty() + t + b =~= s);
    lemma_trim_around(Seq::<char>::empty(), t, b);
}

/// A text that trims to nothing has nothing left after `trim_end` either.
pub proof fn lemma_trim_blank_end(s: Seq<char>)
    requires
        trim_seq(s).len() == 0,
    ensures
        trim_end_seq(s).len() == 0,
{
    lemma_trim_start_split(s);
    let ts = trim_start_seq(s);
    let a = s.take(s.len() - ts.len());
    lemma_trim_end_split(ts);
    assert(trim_end_seq(ts).len() == 0);
    assert(ts =~= ts.skip(0));
    assert(all_ws(ts));
    assert(all_ws(s)) by {
        assert forall|i: int| 0 <= i < s.len() implies is_ws(#[trigger] s[i]) by {
            if i < a.len() {
                assert(s[i] == a[i]);
            } else {
                assert(s[i] == ts[i - a.len()]);
            }
        }
    }
    lemma_trim_end_all_ws(s);
}

/// `trim_end` keeps every character up to the last one that is not
/// whitespace, so what it leaves is a prefix reaching past any such character.
pub proof fn lemma_trim_end_keeps(s: Seq<char>, k: int)
    requires
        0 <= k < s.len(),
        !is_ws(s[k]),
    ensures
        k < trim_end_seq(s).len() <= s.len(),
        trim_end_seq(s) == s.take(trim_end_seq(s).len() as int),
    decreases s.len(),
{
    if is_ws(s.last()) {
        assert(k < s.len() - 1);
        assert(s.drop_last()[k] == s[k]);
        lemma_trim_end_keeps(s.drop_last(), k);
        let t = trim_end_seq(s.drop_last());
        assert(s.drop_last().take(t.len() as int) =~= s.take(t.len() as int));
    } else {
        assert(s.take(s.len() as int) =~= s);
    }
}

} // verus!
