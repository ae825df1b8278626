//! The text of a run file: TOML frontmatter between `+++` fences, then the
//! handoff under `## Where we are`, then the log under `## Log`. This module
//! frames the text; turning the frontmatter into values is a TOML parser's
//! job.
use crate::error::FlowError;
use crate::text::{
    find, first_occurrence, is_newline, owned, push_str, string_of_range, chars_of, starts_with,
    trim, trim_end, trim_seq, trim_end_seq, trim_start_newlines, trim_start_newlines_seq, has_prefix,
};
use vstd::prelude::*;

verus! {

/// The heading of the always-current block.
pub const HANDOFF_HEADING: &'static str = "## Where we are";

/// The heading of the append-only history.
pub const LOG_HEADING: &'static str = "## Log";

/// The fence around the frontmatter.
pub const FRONTMATTER_FENCE: &'static str = "+++";

/// A run file, framed: the frontmatter text, the handoff and the log.
#[derive(Debug, Clone)]
pub struct RunText {
    pub frontmatter: String,
    pub handoff: String,
    pub log: String,
}

/// The handoff and the log a run body holds: the log is everything after the
/// first `## Log`, trimmed; the handoff is what comes before it, after the
/// first `## Where we are` if there is one, trimmed.
pub open spec fn split_body_spec(body: Seq<char>) -> (Seq<char>, Seq<char>) {
    let (before_log, log) = match first_occurrence(body, "## Log"@) {
        Some(i) => (body.take(i), trim_seq(body.skip(i + "## Log"@.len()))),
        None => (body, Seq::empty()),
    };
    let handoff = match first_occurrence(before_log, "## Where we are"@) {
        Some(i) => trim_seq(before_log.skip(i + "## Where we are"@.len())),
        None => trim_seq(before_log),
    };
    (handoff, log)
}

/// A run file's frontmatter, handoff and log, or `None` when it has no
/// opening fence or its frontmatter is never closed.
pub open spec fn split_run_spec(text: Seq<char>) -> Option<(Seq<char>, Seq<char>, Seq<char>)> {
    if !has_prefix(text, "+++"@) {
        None
    } else {
        let rest = trim_start_newlines_seq(text.skip(3));
        match first_occurrence(rest, "\n+++"@) {
            None => None,
            Some(end) => {
                let body = trim_start_newlines_seq(rest.skip(end + 4));
                let (h, l) = split_body_spec(body);
                Some((rest.take(end), h, l))
            },
        }
    }
}

/// The text of a run file with the given frontmatter, handoff and log.
pub open spec fn render_run_spec(frontmatter: Seq<char>, handoff: Seq<char>, log: Seq<char>) -> Seq<
    char,
> {
    "+++\n"@ + frontmatter + "+++\n\n## Where we are\n\n"@ + trim_seq(handoff) + "\n\n## Log\n\n"@
        + trim_end_seq(log) + "\n"@
}

/// Split a run body into its handoff block and its log. Anything before the
/// handoff heading is discarded; anything after the log heading is kept.
pub fn split_body(body: &str) -> (r: (String, String))
    ensures
        (r.0@, r.1@) == split_body_spec(body@),
{
    let v = chars_of(body);
    proof {
        reveal_strlit("## Log");
        reveal_strlit("## Where we are");
        crate::text::lemma_first_occurrence_props(body@, "## Log"@);
    }
    let (before_log, log) = match find(body, "## Log") {
        Some(i) => {
            assert("## Log"@.len() == 6);
            assert(crate::text::occurs_at(body@, "## Log"@, i as int));
            assert(v@ == body@);
            assert(i + 6 <= v@.len());
            assert(i + 6 <= v.len());
            let start: usize = i + 6;
            let after = string_of_range(&v, start, v.len());
            assert(v@.subrange(i + 6, v@.len() as int) =~= v@.skip(i + 6));
            let b = string_of_range(&v, 0, i);
            assert(v@.subrange(0, i as int) =~= v@.take(i as int));
            (b, trim(after.as_str()))
        },
        None => (owned(body), String::new()),
    };
    let w = chars_of(before_log.as_str());
    proof {
        crate::text::lemma_first_occurrence_props(before_log@, "## Where we are"@);
    }
    let handoff = match find(before_log.as_str(), "## Where we are") {
        Some(i) => {
            assert("## Where we are"@.len() == 15);
            assert(crate::text::occurs_at(before_log@, "## Where we are"@, i as int));
            assert(w@ == before_log@);
            assert(i + 15 <= w@.len());
            assert(i + 15 <= w.len());
            let start: usize = i + 15;
            let after = string_of_range(&w, start, w.len());
            assert(w@.subrange(i + 15, w@.len() as int) =~= w@.skip(i + 15));
            trim(after.as_str())
        },
        None => trim(before_log.as_str()),
    };
    (handoff, log)
}

/// Frame the text of a run file: its frontmatter, its handoff and its log.
pub fn split_run_text(text: &str) -> (r: Result<RunText, FlowError>)
    ensures
        match split_run_spec(text@) {
            Some((f, h, l)) => r matches Ok(t) && t.frontmatter@ == f && t.handoff@ == h
                && t.log@ == l,
            None => if !has_prefix(text@, "+++"@) {
                r matches Err(FlowError::MissingOpeningFence)
            } else {
                r matches Err(FlowError::MissingClosingFence)
            },
        },
{
    if !starts_with(text, "+++") {
        return Err(FlowError::MissingOpeningFence);
    }
    let v = chars_of(text);
    proof {
        reveal_strlit("+++");
        reveal_strlit("\n+++");
    }
    let after_fence = string_of_range(&v, 3, v.len());
    assert(v@.subrange(3, v@.len() as int) =~= v@.skip(3));
    let rest = trim_start_newlines(after_fence.as_str());
    let rv = chars_of(rest.as_str());
    proof {
        crate::text::lemma_first_occurrence_props(rest@, "\n+++"@);
    }
    match find(rest.as_str(), "\n+++") {
        None => Err(FlowError::MissingClosingFence),
        Some(end) => {
            let frontmatter = string_of_range(&rv, 0, end);
            assert(rv@.subrange(0, end as int) =~= rv@.take(end as int));
            let start: usize = end + 4;
            let tail = string_of_range(&rv, start, rv.len());
            assert(rv@.subrange(end + 4, rv@.len() as int) =~= rv@.skip(end + 4));
            let body = trim_start_newlines(tail.as_str());
            let (handoff, log) = split_body(body.as_str());
            Ok(RunText { frontmatter, handoff, log })
        },
    }
}

/// The text of a run file: the frontmatter between fences, then the handoff
/// and the log under their headings.
pub fn render_run_text(frontmatter: &str, handoff: &str, log: &str) -> (r: String)
    ensures
        r@ == render_run_spec(frontmatter@, handoff@, log@),
{
    let mut out = owned("+++\n");
    push_str(&mut out, frontmatter);
    push_str(&mut out, "+++\n\n## Where we are\n\n");
    let h = trim(handoff);
    push_str(&mut out, h.as_str());
    push_str(&mut out, "\n\n## Log\n\n");
    let l = trim_end(log);
    push_str(&mut out, l.as_str());
    push_str(&mut out, "\n");
    out
}

} // verus!

verus! {

/// Whether every character of `s` is a line break.
pub open spec fn all_newlines(s: Seq<char>) -> bool {
    forall|i: int| 0 <= i < s.len() ==> is_newline(#[trigger] s[i])
}

proof fn lemma_trim_newlines_prefix(a: Seq<char>, x: Seq<char>)
    requires
        all_newlines(a),
        x.len() == 0 || !is_newline(x[0]),
    ensures
        trim_start_newlines_seq(a + x) == x,
    decreases a.len(),
{
    if a.len() > 0 {
        assert((a + x)[0] == a[0]);
        assert((a + x).drop_first() =~= a.drop_first() + x);
        lemma_trim_newlines_prefix(a.drop_first(), x);
    } else {
        assert(a + x =~= x);
    }
}

/// No `## Log` begins inside the handoff heading and the blank line under it.
proof fn lemma_no_log_in_heading(body: Seq<char>, j: int)
    requires
        0 <= j < 17,
        body.len() >= 17,
        body.take(17) == "## Where we are\n\n"@,
    ensures
        !crate::text::occurs_at(body, "## Log"@, j),
{
    reveal_strlit("## Where we are\n\n");
    reveal_strlit("## Log");
    let hd = "## Where we are\n\n"@;
    if crate::text::occurs_at(body, "## Log"@, j) {
        let w = body.subrange(j, j + 6);
        assert(w[0] == body[j]);
        assert(w[0] == '#');
        assert(body[j] == hd[j]);
        if j == 0 {
            assert(w[3] == body[3]);
            assert(hd[3] == 'W');
        } else if j == 1 {
            assert(w[1] == body[2]);
            assert(hd[2] == ' ');
        } else {
            assert(hd[j] != '#');
        }
    }
}

/// No line of the frontmatter starts with the fence.
proof fn lemma_no_fence_at(f: Seq<char>, tail: Seq<char>, j: int)
    requires
        !crate::text::contains_seq(f + "\n"@, "\n+++"@),
        0 <= j < f.len(),
    ensures
        !crate::text::occurs_at(f + "\n+++"@ + tail, "\n+++"@, j),
{
    reveal_strlit("\n+++");
    reveal_strlit("\n");
    let p = "\n+++"@;
    let rest = f + p + tail;
    let n = f.len() as int;
    if crate::text::occurs_at(rest, p, j) {
        if j + 4 <= n + 1 {
            assert(rest.subrange(j, j + 4) =~= (f + "\n"@).subrange(j, j + 4));
            assert(crate::text::occurs_at(f + "\n"@, p, j));
        } else {
            let k = n - j;
            assert(rest.subrange(j, j + 4)[k] == rest[n]);
            assert(rest[n] == '\n');
            assert(p[k] == '+');
        }
    }
}

/// The closing fence is found right after the frontmatter.
proof fn lemma_closing_fence(f: Seq<char>, tail: Seq<char>)
    requires
        !crate::text::contains_seq(f + "\n"@, "\n+++"@),
    ensures
        crate::text::first_occurrence(f + "\n+++"@ + tail, "\n+++"@) == Some(f.len() as int),
{
    reveal_strlit("\n+++");
    let p = "\n+++"@;
    let rest = f + p + tail;
    let n = f.len() as int;
    assert(rest.subrange(n, n + 4) =~= p);
    assert forall|j: int| 0 <= j < n implies !crate::text::occurs_at(rest, p, j) by {
        lemma_no_fence_at(f, tail, j);
    }
    crate::text::lemma_first_occurrence_is(rest, p, n);
}

/// No `## Log` begins before the log heading of a body `render_run_spec`
/// writes.
proof fn lemma_no_log_before(th: Seq<char>, tail: Seq<char>, j: int)
    requires
        !crate::text::contains_seq(th, "## Log"@),
        0 <= j < 19 + th.len(),
    ensures
        !crate::text::occurs_at("## Where we are\n\n"@ + th + ("\n\n"@ + tail), "## Log"@, j),
{
    reveal_strlit("\n\n");
    reveal_strlit("## Log");
    reveal_strlit("## Where we are\n\n");
    let lg = "## Log"@;
    let body = "## Where we are\n\n"@ + th + ("\n\n"@ + tail);
    assert(body.take(17) =~= "## Where we are\n\n"@);
    if j < 17 {
        lemma_no_log_in_heading(body, j);
    } else if crate::text::occurs_at(body, lg, j) {
        let e: int = (17 + th.len()) as int;
        if j + 6 <= e {
            assert(body.subrange(j, j + 6) =~= th.subrange(j - 17, j - 17 + 6));
            assert(crate::text::occurs_at(th, lg, j - 17));
        } else if j < e {
            let k = e - j;
            assert(body.subrange(j, j + 6)[k] == body[e]);
            assert(body[e] == '\n');
            assert(lg[k] != '\n');
        } else {
            assert(body.subrange(j, j + 6)[0] == body[j]);
            assert(body[j] == '\n');
        }
    }
}

/// The log heading of a body `render_run_spec` writes is its first `## Log`.
proof fn lemma_log_heading(th: Seq<char>, tl: Seq<char>)
    requires
        !crate::text::contains_seq(th, "## Log"@),
    ensures
        crate::text::first_occurrence(
            "## Where we are\n\n"@ + th + "\n\n## Log\n\n"@ + tl + "\n"@,
            "## Log"@,
        ) == Some((19 + th.len()) as int),
{
    reveal_strlit("\n");
    reveal_strlit("\n\n");
    reveal_strlit("\n\n## Log\n\n");
    reveal_strlit("## Log");
    reveal_strlit("## Where we are\n\n");
    let lg = "## Log"@;
    let tail = lg + "\n\n"@ + tl + "\n"@;
    let body = "## Where we are\n\n"@ + th + "\n\n## Log\n\n"@ + tl + "\n"@;
    assert(body =~= "## Where we are\n\n"@ + th + ("\n\n"@ + tail));
    let q: int = (19 + th.len()) as int;
    assert(body.subrange(q, q + 6) =~= lg);
    assert forall|j: int| 0 <= j < q implies !crate::text::occurs_at(body, lg, j) by {
        lemma_no_log_before(th, tail, j);
    }
    crate::text::lemma_first_occurrence_is(body, lg, q);
}

/// The body `render_run_spec` writes splits back into its handoff and log.
#[verifier::rlimit(80)]
proof fn lemma_body_round_trip(th: Seq<char>, tl: Seq<char>)
    requires
        !crate::text::contains_seq(th, "## Log"@),
        trim_seq(th) == th,
    ensures
        split_body_spec(
            "## Where we are\n\n"@ + th + "\n\n## Log\n\n"@ + tl + "\n"@,
        ) == (th, trim_seq(tl)),
{
    reveal_strlit("\n");
    reveal_strlit("\n\n## Log\n\n");
    reveal_strlit("## Log");
    reveal_strlit("## Where we are");
    reveal_strlit("## Where we are\n\n");
    let nl = seq!['\n'];
    let t1 = seq!['\n', '\n'];
    let wh = "## Where we are"@;
    let body = "## Where we are\n\n"@ + th + "\n\n## Log\n\n"@ + tl + "\n"@;
    lemma_log_heading(th, tl);
    let q: int = (19 + th.len()) as int;
    let before_log = body.take(q);
    assert(before_log =~= wh + t1 + th + t1);
    assert(before_log.subrange(0, 15) =~= wh);
    crate::text::lemma_first_occurrence_is(before_log, wh, 0);
    assert(before_log.skip(15) =~= t1 + th + t1);
    assert(crate::text::all_ws(t1));
    crate::text::lemma_trim_around(t1, th, t1);
    assert(body.skip(q + 6) =~= t1 + tl + nl);
    assert(crate::text::all_ws(nl));
    crate::text::lemma_trim_around(t1, tl, nl);
}

/// What a run file gives back is what was written into it: its frontmatter
/// (less the line break that closes it), its handoff trimmed and its log
/// trimmed. This holds when the frontmatter does not begin with a line break
/// or hold a line starting with the fence, and the handoff does not quote the
/// log heading.
pub proof fn law_run_text_round_trip(f: Seq<char>, h: Seq<char>, l: Seq<char>)
    requires
        f.len() > 0,
        !is_newline(f[0]),
        !crate::text::contains_seq(f + "\n"@, "\n+++"@),
        !crate::text::contains_seq(trim_seq(h), "## Log"@),
    ensures
        split_run_spec(render_run_spec(f + "\n"@, h, l)) == Some((f, trim_seq(h), trim_seq(l))),
{
    reveal_strlit("+++\n");
    reveal_strlit("\n");
    reveal_strlit("+++\n\n## Where we are\n\n");
    reveal_strlit("\n\n## Log\n\n");
    reveal_strlit("+++");
    reveal_strlit("\n+++");
    reveal_strlit("## Where we are\n\n");
    let th = trim_seq(h);
    let tl = trim_end_seq(l);
    let nl = seq!['\n'];
    let t1 = seq!['\n', '\n'];
    let p = "\n+++"@;
    let body = "## Where we are\n\n"@ + th + "\n\n## Log\n\n"@ + tl + "\n"@;
    let rest = f + p + (t1 + body);
    let text = render_run_spec(f + "\n"@, h, l);
    assert(text =~= "+++"@ + nl + rest);
    assert(text.take(3) =~= "+++"@);
    assert(text.skip(3) =~= nl + rest);
    assert(rest[0] == f[0]);
    lemma_trim_newlines_prefix(nl, rest);
    lemma_closing_fence(f, t1 + body);
    let n = f.len() as int;
    assert(rest.take(n) =~= f);
    assert(rest.skip(n + 4) =~= t1 + body);
    assert(body[0] == '#');
    lemma_trim_newlines_prefix(t1, body);
    crate::text::lemma_trim_idempotent(h);
    lemma_body_round_trip(th, tl);
    crate::text::lemma_trim_of_trim_end(l);
}

} // verus!
