//! What `flow init` writes besides the flow: the delimited block in
//! `AGENTS.md`, spliced in place so that everything around it survives byte
//! for byte, and the `.gitignore` inside `.flow/`.
use crate::text::{
    views, chars_of, find, first_occurrence, is_blank, occurs_at, owned, push_str, string_of_range,
    trim_end, trim_end_seq, trim_seq,
};
use crate::error::FlowError;
use crate::preset_path::Preset;
use vstd::prelude::*;

verus! {

/// Opens the block `flow init` owns in `AGENTS.md`.
pub const BLOCK_START: &'static str = "<!-- flow:start -->";

/// Closes the block `flow init` owns in `AGENTS.md`.
pub const BLOCK_END: &'static str = "<!-- flow:end -->";

/// What an agent opening the repo is told about `flow`.
pub const AGENTS_BLOCK: &'static str = "## Flow

This repo tracks work with `flow`. Run `flow status` to see every run and the
stage it is on, and `flow next` for the current run's stage and the command to
run for it. `flow` never runs commands itself — it prints them and records that
they happened.

When a stage is complete, record it with `flow done -m \"<handoff>\"`. The message
replaces the run's `## Where we are` block and is appended to its `## Log`, so
write it for someone who has never seen the work.

State lives in `.flow/` and is the source of truth, not the conversation. Commit
it alongside the work.";

/// The agent adapter `flow init` writes to `ADAPTER_PATH`.
pub const ADAPTER_PATH: &'static str = ".agents/skills/flow/SKILL.md";

/// The adapter's text: what an agent opening the repo is told to do.
pub const ADAPTER_SKILL: &'static str = "---
name: flow
description: Track which stage of a piece of work you are in, in files that outlive the session. Use when starting, resuming or finishing a stage of work in a repo that has a .flow/ directory.
---

# flow

This repo records where each piece of work stands in `.flow/`. The files are
the source of truth, not the conversation: read them before acting, and record
every move you make.

## Finding your place

- `flow status` — every active run, the stage it is on, and any drift.
- `flow next` — the current run's stage, the command to run for it, and the
  handoff the last session left. Read it before doing anything.
- `flow show <slug>` — one run in full, with its log.

`flow next` only prints. Never start another agent session from inside this
one; `flow go` is for a person at a terminal.

## Recording

- `flow done -m \"<handoff>\"` — the stage is genuinely complete. The message
  replaces the run's `## Where we are` block and is appended to its log, so
  write it for someone who has never seen the work. Pass `--artifact <path>`
  when the stage produced a file somewhere other than it declares.
- `flow skip -m \"<why>\"` — the stage is optional and does not apply.
- `flow back -m \"<why>\"` — the work has to go back a stage; name one with
  `--stage <name>`.
- `flow finish -m \"<summary>\"` — every stage is settled and the work is done.
- `flow reopen -m \"<why>\"` — a finished run came back.

Do not record a stage until it is done. A wrong entry in the file a later
session trusts costs that session real time.

## Starting

- `flow start \"<title>\" --kind <kind> -m \"<brief>\"` — begin a run. The brief
  becomes its first handoff, so say what the work is and who wants it.

## Drift

If `flow next` or `flow status` reports drift, a stage's recorded status
disagrees with its artifact on disk. Say so to the person you are working with;
never resolve it by guessing.
";

/// What `.flow/.gitignore` holds: the current-run pointer and the generated
/// board stay out of the repo; runs and artifacts are offered, commented out.
pub const GITIGNORE: &'static str = "# Local to this checkout: which run bare commands act on.
/current
# Generated by `flow board`.
/board.html
# Runs and artifacts are meant to be committed with the work. Uncomment to keep
# them local instead.
# /runs/
# /artifacts/
";

/// The block, markers included.
#[verifier::opaque]
pub open spec fn block_spec() -> Seq<char> {
    BLOCK_START@ + "\n"@ + AGENTS_BLOCK@ + "\n"@ + BLOCK_END@
}

/// `existing` with the flow block replaced in place when both markers are
/// there in order, else with the block appended after a blank line (or on
/// its own when `existing` is blank).
#[verifier::opaque]
pub open spec fn spliced_spec(existing: Seq<char>) -> Seq<char> {
    match (first_occurrence(existing, BLOCK_START@), first_occurrence(existing, BLOCK_END@)) {
        (Some(s), Some(e)) if e > s => existing.take(s) + block_spec() + existing.skip(
            e + BLOCK_END@.len(),
        ),
        _ => if trim_seq(existing).len() == 0 {
            block_spec() + "\n"@
        } else {
            trim_end_seq(existing) + "\n\n"@ + block_spec() + "\n"@
        },
    }
}

/// The block, markers included.
pub fn agents_block() -> (r: String)
    ensures
        r@ == block_spec(),
{
    reveal(block_spec);
    let mut r = owned(BLOCK_START);
    push_str(&mut r, "\n");
    push_str(&mut r, AGENTS_BLOCK);
    push_str(&mut r, "\n");
    push_str(&mut r, BLOCK_END);
    r
}

/// `AGENTS.md` after `flow init`: its flow block replaced in place, or one
/// appended. Everything outside the markers is kept byte for byte.
pub fn spliced_agents(existing: &str) -> (r: String)
    ensures
        r@ == spliced_spec(existing@),
{
    reveal(spliced_spec);
    let block = agents_block();
    let start = find(existing, BLOCK_START);
    let end = find(existing, BLOCK_END);
    proof {
        crate::text::lemma_first_occurrence_props(existing@, BLOCK_END@);
    }
    match (start, end) {
        (Some(s), Some(e)) => {
            if e > s {
                let v = chars_of(existing);
                let m = chars_of(BLOCK_END);
                assert(occurs_at(existing@, BLOCK_END@, e as int));
                assert(m@.len() == BLOCK_END@.len());
                assert(e + m@.len() <= v@.len());
                let ml: usize = m.len();
                let vl: usize = v.len();
                assert(e + ml <= vl);
                let after: usize = e + ml;
                let mut out = string_of_range(&v, 0, s);
                push_str(&mut out, block.as_str());
                let tail = string_of_range(&v, after, v.len());
                push_str(&mut out, tail.as_str());
                assert(v@.subrange(0, s as int) =~= existing@.take(s as int));
                assert(v@.subrange(after as int, v.len() as int) =~= existing@.skip(after as int));
                return out;
            }
        },
        _ => {},
    }
    if is_blank(existing) {
        let mut out = block;
        push_str(&mut out, "\n");
        out
    } else {
        let mut out = trim_end(existing);
        push_str(&mut out, "\n\n");
        push_str(&mut out, block.as_str());
        push_str(&mut out, "\n");
        out
    }
}

/// Whether `existing` carries the markers the way `flow init` leaves them:
/// neither of them, or both with the first end after the first start.
pub open spec fn well_marked(existing: Seq<char>) -> bool {
    match (first_occurrence(existing, BLOCK_START@), first_occurrence(existing, BLOCK_END@)) {
        (Some(s), Some(e)) => e > s,
        (None, None) => true,
        _ => false,
    }
}

proof fn lemma_marker_chars()
    ensures
        BLOCK_START@.len() == 19,
        BLOCK_END@.len() == 17,
        BLOCK_START@[0] == '<',
        BLOCK_END@[0] == '<',
        BLOCK_END@[1] == '!',
        BLOCK_START@[10] == 's',
        BLOCK_END@[10] == 'e',
        forall|k: int| 0 < k < 19 ==> #[trigger] BLOCK_START@[k] != '<',
        forall|k: int| 0 < k < 17 ==> #[trigger] BLOCK_END@[k] != '<',
        forall|k: int| 0 <= k < 19 ==> #[trigger] BLOCK_START@[k] != '\n',
        forall|k: int| 0 <= k < 17 ==> #[trigger] BLOCK_END@[k] != '\n',
{
    reveal_strlit("<!-- flow:start -->");
    reveal_strlit("<!-- flow:end -->");
}

proof fn lemma_body_chars()
    ensures
        forall|k: int|
            0 <= k < AGENTS_BLOCK@.len() && #[trigger] AGENTS_BLOCK@[k] == '<' ==> k + 1
                < AGENTS_BLOCK@.len() && AGENTS_BLOCK@[k + 1] != '!',
{
    reveal_strlit("## Flow

This repo tracks work with `flow`. Run `flow status` to see every run and the
stage it is on, and `flow next` for the current run's stage and the command to
run for it. `flow` never runs commands itself — it prints them and records that
they happened.

When a stage is complete, record it with `flow done -m \"<handoff>\"`. The message
replaces the run's `## Where we are` block and is appended to its `## Log`, so
write it for someone who has never seen the work.

State lives in `.flow/` and is the source of truth, not the conversation. Commit
it alongside the work.");
}

/// Where the end marker sits in the block.
spec fn end_at() -> int {
    block_spec().len() - BLOCK_END@.len()
}

/// Where each character of the block comes from.
proof fn lemma_block_index()
    ensures
        block_spec().len() == 19 + 1 + AGENTS_BLOCK@.len() + 1 + 17,
        forall|k: int| 0 <= k < 19 ==> #[trigger] block_spec()[k] == BLOCK_START@[k],
        block_spec()[19] == '\n',
        forall|k: int|
            0 <= k < AGENTS_BLOCK@.len() ==> #[trigger] block_spec()[20 + k] == AGENTS_BLOCK@[k],
        block_spec()[20 + AGENTS_BLOCK@.len() as int] == '\n',
        forall|k: int|
            0 <= k < 17 ==> #[trigger] block_spec()[21 + AGENTS_BLOCK@.len() as int + k] == BLOCK_END@[k],
{
    reveal(block_spec);
    reveal_strlit("\n");
    lemma_marker_lengths();
}

proof fn lemma_marker_lengths()
    ensures
        BLOCK_START@.len() == 19,
        BLOCK_END@.len() == 17,
{
    reveal_strlit("<!-- flow:start -->");
    reveal_strlit("<!-- flow:end -->");
}

/// The block holds the end marker once, at its end.
proof fn lemma_block_ends_once()
    ensures
        occurs_at(block_spec(), BLOCK_END@, end_at()),
        end_at() > 0,
        forall|k: int| 0 <= k < end_at() ==> !occurs_at(block_spec(), BLOCK_END@, k),
        occurs_at(block_spec(), BLOCK_START@, 0),
        block_spec()[0] == '<',
        block_spec().len() == end_at() + 17,
{
    lemma_block_index();
    lemma_marker_chars();
    lemma_body_chars();
    let b = block_spec();
    let a = AGENTS_BLOCK@;
    let s = BLOCK_START@;
    let e = BLOCK_END@;
    let la = a.len() as int;
    assert(end_at() == 21 + la);
    assert forall|i: int| 0 <= i < 17 implies b.subrange(end_at(), end_at() + 17)[i] == e[i] by {
        assert(b[21 + la + i] == e[i]);
    }
    assert(b.subrange(end_at(), end_at() + 17) =~= e);
    assert forall|i: int| 0 <= i < 19 implies b.subrange(0, 19)[i] == s[i] by {
        assert(b[i] == s[i]);
    }
    assert(b.subrange(0, 19) =~= s);
    assert forall|k: int| 0 <= k < end_at() implies !occurs_at(b, e, k) by {
        if occurs_at(b, e, k) {
            let w = b.subrange(k, k + 17);
            assert(w[0] == b[k]);
            assert(w[1] == b[k + 1]);
            assert(w[10] == b[k + 10]);
            if k == 0 {
                assert(b[10] == s[10]);
            } else if k < 19 {
                assert(b[k] == s[k]);
            } else if k == 19 {
            } else if k < 20 + la {
                assert(b[20 + (k - 20)] == a[k - 20]);
                assert(a[k - 20] == '<');
                assert(b[20 + (k - 19)] == a[k - 19]);
            } else {
            }
        }
    }
}

proof fn lemma_window_in_prefix(x: Seq<char>, y: Seq<char>, m: Seq<char>, j: int)
    requires
        0 <= j,
        j + m.len() <= x.len(),
        occurs_at(x + y, m, j),
    ensures
        occurs_at(x, m, j),
{
    assert((x + y).subrange(j, j + m.len()) =~= x.subrange(j, j + m.len()));
}

proof fn lemma_window_in_suffix(x: Seq<char>, y: Seq<char>, m: Seq<char>, j: int)
    requires
        x.len() <= j,
        j + m.len() <= x.len() + y.len(),
        occurs_at(x + y, m, j),
    ensures
        occurs_at(y, m, j - x.len()),
{
    assert((x + y).subrange(j, j + m.len()) =~= y.subrange(j - x.len(), j - x.len() + m.len()));
}

proof fn lemma_window_straddles(x: Seq<char>, y: Seq<char>, m: Seq<char>, j: int)
    requires
        0 <= j < x.len() < j + m.len(),
        y.len() > 0,
        y[0] == '<',
        forall|k: int| 0 < k < m.len() ==> #[trigger] m[k] != '<',
    ensures
        !occurs_at(x + y, m, j),
{
    if occurs_at(x + y, m, j) {
        let n = x.len() as int;
        assert((x + y).subrange(j, j + m.len())[n - j] == (x + y)[n]);
        assert(m[n - j] != '<');
    }
}

/// In `pre + b + post`, a marker `m` that opens with the only `<` it holds,
/// while `b` opens with `<`, first occurs where it first occurs in `b`,
/// provided `pre` holds no whole copy of it.
proof fn lemma_first_marker(pre: Seq<char>, b: Seq<char>, post: Seq<char>, m: Seq<char>, at: int)
    requires
        m.len() > 0,
        m[0] == '<',
        forall|k: int| 0 < k < m.len() ==> #[trigger] m[k] != '<',
        b.len() > 0,
        b[0] == '<',
        occurs_at(b, m, at),
        forall|k: int| 0 <= k < at ==> !#[trigger] occurs_at(b, m, k),
        forall|j: int| 0 <= j && j + m.len() <= pre.len() ==> !#[trigger] occurs_at(pre, m, j),
    ensures
        first_occurrence(pre + (b + post), m) == Some(pre.len() + at),
{
    let y = b + post;
    let r = pre + y;
    let n = pre.len() as int;
    assert(y[0] == b[0]);
    assert(occurs_at(y, m, at)) by {
        assert(y.subrange(at, at + m.len()) =~= b.subrange(at, at + m.len()));
    }
    assert(occurs_at(r, m, n + at)) by {
        assert(r.subrange(n + at, n + at + m.len()) =~= y.subrange(at, at + m.len()));
    }
    assert forall|j: int| 0 <= j < n + at implies !occurs_at(r, m, j) by {
        if j + m.len() <= n {
            if occurs_at(r, m, j) {
                lemma_window_in_prefix(pre, y, m, j);
            }
        } else if j < n {
            lemma_window_straddles(pre, y, m, j);
        } else {
            if occurs_at(r, m, j) {
                lemma_window_in_suffix(pre, y, m, j);
                lemma_window_in_prefix(b, post, m, j - n);
            }
        }
    }
    crate::text::lemma_first_occurrence_is(r, m, n + at);
}

/// In `pre + block + post`, when `pre` holds neither marker whole, the first
/// start marker opens the block and the first end marker closes it.
proof fn lemma_splice_firsts(pre: Seq<char>, post: Seq<char>)
    requires
        forall|j: int|
            0 <= j && j + BLOCK_START@.len() <= pre.len() ==> !#[trigger] occurs_at(pre, BLOCK_START@, j),
        forall|j: int|
            0 <= j && j + BLOCK_END@.len() <= pre.len() ==> !#[trigger] occurs_at(pre, BLOCK_END@, j),
    ensures
        first_occurrence(pre + (block_spec() + post), BLOCK_START@) == Some(pre.len() as int),
        first_occurrence(pre + (block_spec() + post), BLOCK_END@) == Some(pre.len() + end_at()),
{
    lemma_marker_chars();
    lemma_block_ends_once();
    lemma_first_marker(pre, block_spec(), post, BLOCK_START@, 0);
    lemma_first_marker(pre, block_spec(), post, BLOCK_END@, end_at());
}

/// `trim_end_seq(s)` is a prefix of `s`.
proof fn lemma_trim_end_prefix(s: Seq<char>)
    ensures
        trim_end_seq(s).len() <= s.len(),
        trim_end_seq(s) == s.take(trim_end_seq(s).len() as int),
    decreases s.len(),
{
    if s.len() > 0 && crate::text::is_ws(s.last()) {
        lemma_trim_end_prefix(s.drop_last());
        assert(s.drop_last().take(trim_end_seq(s).len() as int) =~= s.take(
            trim_end_seq(s).len() as int,
        ));
    } else {
        assert(s.take(s.len() as int) =~= s);
    }
}

/// A prefix of `x` holds a whole copy of `m` only where `x` does.
proof fn lemma_no_copy_in_prefix(x: Seq<char>, n: int, m: Seq<char>, limit: int)
    requires
        0 <= n <= x.len(),
        n <= limit,
        m.len() > 0,
        forall|j: int| 0 <= j < limit ==> !#[trigger] occurs_at(x, m, j),
    ensures
        forall|j: int| 0 <= j && j + m.len() <= n ==> !#[trigger] occurs_at(x.take(n), m, j),
{
    assert forall|j: int| 0 <= j && j + m.len() <= n implies !occurs_at(x.take(n), m, j) by {
        if occurs_at(x.take(n), m, j) {
            assert(x.take(n).subrange(j, j + m.len()) =~= x.subrange(j, j + m.len()));
            assert(occurs_at(x, m, j));
        }
    }
}

proof fn lemma_block_len()
    ensures
        block_spec().len() == end_at() + 17,
        end_at() > 0,
{
    lemma_block_ends_once();
}

/// The splice where both markers are there in order.
proof fn lemma_spliced_marked(x: Seq<char>, s: int, e: int)
    requires
        first_occurrence(x, BLOCK_START@) == Some(s),
        first_occurrence(x, BLOCK_END@) == Some(e),
        e > s,
    ensures
        spliced_spec(x) == x.take(s) + block_spec() + x.skip(e + BLOCK_END@.len()),
{
    reveal(spliced_spec);
}

/// The splice where neither marker is there.
proof fn lemma_spliced_unmarked(x: Seq<char>)
    requires
        first_occurrence(x, BLOCK_START@) is None,
        first_occurrence(x, BLOCK_END@) is None,
    ensures
        spliced_spec(x) == if trim_seq(x).len() == 0 {
            block_spec() + "\n"@
        } else {
            trim_end_seq(x) + "\n\n"@ + block_spec() + "\n"@
        },
{
    reveal(spliced_spec);
}

/// The idempotence of the splice, where both markers are there in order.
#[verifier::rlimit(30)]
proof fn lemma_idempotent_when_marked(x: Seq<char>, s: int, e: int)
    requires
        first_occurrence(x, BLOCK_START@) == Some(s),
        first_occurrence(x, BLOCK_END@) == Some(e),
        e > s,
    ensures
        spliced_spec(spliced_spec(x)) == spliced_spec(x),
{
    lemma_marker_lengths();
    crate::text::lemma_first_occurrence_props(x, BLOCK_START@);
    crate::text::lemma_first_occurrence_props(x, BLOCK_END@);
    let b = block_spec();
    let pre = x.take(s);
    let post = x.skip(e + 17);
    lemma_no_copy_in_prefix(x, s, BLOCK_START@, s);
    lemma_no_copy_in_prefix(x, s, BLOCK_END@, e);
    lemma_splice_firsts(pre, post);
    lemma_block_len();
    lemma_spliced_marked(x, s, e);
    let r1 = spliced_spec(x);
    assert(r1 =~= pre + (b + post));
    lemma_spliced_marked(r1, s, s + end_at());
    assert(r1.take(s) =~= pre);
    assert(r1.skip(s + end_at() + 17) =~= post);
}

/// The splice appended to a block `pre` leads up to: splicing again changes
/// nothing.
#[verifier::rlimit(30)]
proof fn lemma_idempotent_appended(pre: Seq<char>)
    requires
        forall|j: int|
            0 <= j && j + BLOCK_START@.len() <= pre.len() ==> !#[trigger] occurs_at(pre, BLOCK_START@, j),
        forall|j: int|
            0 <= j && j + BLOCK_END@.len() <= pre.len() ==> !#[trigger] occurs_at(pre, BLOCK_END@, j),
    ensures
        spliced_spec(pre + block_spec() + "\n"@) == pre + block_spec() + "\n"@,
{
    lemma_marker_lengths();
    lemma_block_len();
    let b = block_spec();
    let post = "\n"@;
    let r1 = pre + b + post;
    lemma_splice_firsts(pre, post);
    assert(r1 =~= pre + (b + post));
    lemma_spliced_marked(r1, pre.len() as int, pre.len() + end_at());
    assert(r1.take(pre.len() as int) =~= pre);
    assert(r1.skip(pre.len() + end_at() + 17) =~= post);
}

/// The idempotence of the splice, where neither marker is there.
proof fn lemma_idempotent_when_unmarked(x: Seq<char>)
    requires
        first_occurrence(x, BLOCK_START@) is None,
        first_occurrence(x, BLOCK_END@) is None,
    ensures
        spliced_spec(spliced_spec(x)) == spliced_spec(x),
{
    crate::text::lemma_first_occurrence_props(x, BLOCK_START@);
    crate::text::lemma_first_occurrence_props(x, BLOCK_END@);
    lemma_spliced_unmarked(x);
    lemma_marker_lengths();
    if trim_seq(x).len() == 0 {
        let pre = Seq::<char>::empty();
        lemma_idempotent_appended(pre);
        assert(pre + block_spec() + "\n"@ =~= block_spec() + "\n"@);
    } else {
        let te = trim_end_seq(x);
        lemma_trim_end_prefix(x);
        lemma_no_newline_copies(x, te.len() as int, BLOCK_START@);
        lemma_no_newline_copies(x, te.len() as int, BLOCK_END@);
        lemma_idempotent_appended(te + "\n\n"@);
    }
}

/// A marker holds no line break, so `x.take(n) + "\n\n"` holds a whole copy
/// of it only where `x` does.
proof fn lemma_no_newline_copies(x: Seq<char>, n: int, m: Seq<char>)
    requires
        0 <= n <= x.len(),
        forall|j: int| !#[trigger] occurs_at(x, m, j),
        m == BLOCK_START@ || m == BLOCK_END@,
    ensures
        forall|j: int|
            0 <= j && j + m.len() <= (x.take(n) + "\n\n"@).len() ==> !#[trigger] occurs_at(
                x.take(n) + "\n\n"@,
                m,
                j,
            ),
{
    lemma_marker_chars();
    reveal_strlit("\n\n");
    let y = x.take(n) + "\n\n"@;
    assert forall|j: int| 0 <= j && j + m.len() <= y.len() implies !occurs_at(y, m, j) by {
        if occurs_at(y, m, j) {
            let w = y.subrange(j, j + m.len());
            if j + m.len() <= n {
                assert(w =~= x.subrange(j, j + m.len()));
                assert(occurs_at(x, m, j));
            } else {
                assert(w[n - j] == y[n]);
                assert(y[n] == '\n');
                if m == BLOCK_START@ {
                    assert(BLOCK_START@[n - j] != '\n');
                } else {
                    assert(BLOCK_END@[n - j] != '\n');
                }
            }
        }
    }
}

/// Running `flow init` twice leaves `AGENTS.md` as running it once did, for a
/// file whose markers are as `flow init` leaves them (none, or both in order).
pub proof fn law_splice_idempotent(existing: Seq<char>)
    requires
        well_marked(existing),
    ensures
        spliced_spec(spliced_spec(existing)) == spliced_spec(existing),
{
    match (first_occurrence(existing, BLOCK_START@), first_occurrence(existing, BLOCK_END@)) {
        (Some(s), Some(e)) => lemma_idempotent_when_marked(existing, s, e),
        _ => lemma_idempotent_when_unmarked(existing),
    }
}

/// Whether a `--preset` argument names a file rather than a preset: it holds
/// a path separator or ends in `.toml`.
pub open spec fn names_file(arg: Seq<char>) -> bool {
    crate::text::contains_seq(arg, "/"@) || (arg.len() >= 5 && arg.skip(arg.len() - 5) == ".toml"@)
}

/// Whether a `--preset` argument names a file rather than a preset.
pub fn is_preset_file(arg: &str) -> (b: bool)
    ensures
        b == names_file(arg@),
{
    if crate::text::contains(arg, "/") {
        return true;
    }
    let v = chars_of(arg);
    if v.len() < 5 {
        return false;
    }
    let tail = string_of_range(&v, v.len() - 5, v.len());
    assert(v@.subrange(v.len() - 5, v.len() as int) =~= arg@.skip(arg@.len() - 5));
    crate::text::str_eq(tail.as_str(), ".toml")
}

/// The first of `presets` called `name`.
pub open spec fn preset_index(presets: Seq<Preset>, name: Seq<char>) -> Option<int> {
    if exists|i: int| 0 <= i < presets.len() && presets[i].name@ == name {
        Some(
            choose|i: int|
                0 <= i < presets.len() && presets[i].name@ == name && forall|j: int|
                    0 <= j < i ==> presets[j].name@ != name,
        )
    } else {
        None
    }
}

/// The names of `presets`, in order.
pub open spec fn preset_names(presets: Seq<Preset>) -> Seq<Seq<char>> {
    Seq::new(presets.len(), |i: int| presets[i].name@)
}

/// Where the flow `flow init` writes comes from.
#[derive(Debug)]
pub enum PresetSource {
    /// A file of the user's own, read exactly as written.
    File(String),
    /// The preset at this position of what the Preset Path offers.
    Found(usize),
}

/// The name a bare `flow init` resolves: the user's configured preset, else
/// the built-in default.
pub open spec fn default_name(configured: Seq<char>) -> Seq<char> {
    if configured.len() > 0 {
        configured
    } else {
        crate::presets::DEFAULT@
    }
}

/// Which flow `flow init` writes. A `--preset` argument that names a file is
/// read as that file; one that names a preset is resolved through the Preset
/// Path (`presets`, as `preset_path::discover` offers it). Without one, the
/// user's configured preset is resolved the same way, else `main-flow`; a
/// configured preset that resolves to nothing is an error of its own.
pub fn choose_preset(requested: Option<&str>, configured: &str, presets: &Vec<Preset>) -> (r:
    Result<PresetSource, FlowError>)
    ensures
        match requested {
            Some(arg) => if names_file(arg@) {
                r matches Ok(PresetSource::File(p)) && p@ == arg@
            } else {
                match preset_index(presets@, arg@) {
                    Some(i) => r matches Ok(PresetSource::Found(k)) && k == i,
                    None => r matches Err(FlowError::UnknownPreset { name, known }) && name@ == arg@
                        && views(known@) == preset_names(presets@),
                }
            },
            None => match preset_index(presets@, default_name(configured@)) {
                Some(i) => r matches Ok(PresetSource::Found(k)) && k == i,
                None => if configured@.len() > 0 {
                    r matches Err(FlowError::DefaultPresetMissing { name }) && name@ == configured@
                } else {
                    r matches Err(FlowError::UnknownPreset { name, known }) && name@
                        == crate::presets::DEFAULT@ && views(known@) == preset_names(presets@)
                },
            },
        },
{
    let name: &str = match requested {
        Some(arg) => {
            if is_preset_file(arg) {
                return Ok(PresetSource::File(owned(arg)));
            }
            arg
        },
        None => if configured.is_empty() {
            crate::presets::DEFAULT
        } else {
            configured
        },
    };
    let mut i: usize = 0;
    while i < presets.len()
        invariant
            i <= presets@.len(),
            forall|j: int| 0 <= j < i ==> presets@[j].name@ != name@,
            requested matches Some(a) ==> name@ == a@ && !names_file(a@),
            requested is None ==> name@ == default_name(configured@),
        decreases presets.len() - i,
    {
        if crate::text::str_eq(presets[i].name.as_str(), name) {
            proof {
                let k = choose|k: int|
                    0 <= k < presets@.len() && presets@[k].name@ == name@ && forall|j: int|
                        0 <= j < k ==> presets@[j].name@ != name@;
                assert(0 <= k < presets@.len() && presets@[k].name@ == name@);
                if k < i {
                    assert(presets@[k].name@ != name@);
                }
                if i < k {
                    assert(presets@[i as int].name@ != name@);
                }
            }
            return Ok(PresetSource::Found(i));
        }
        i = i + 1;
    }
    if requested.is_none() && !configured.is_empty() {
        return Err(FlowError::DefaultPresetMissing { name: owned(configured) });
    }
    let mut known: Vec<String> = Vec::new();
    let mut j: usize = 0;
    while j < presets.len()
        invariant
            j <= presets@.len(),
            known@.len() == j,
            forall|k: int| 0 <= k < j ==> (#[trigger] known@[k])@ == presets@[k].name@,
        decreases presets.len() - j,
    {
        known.push(presets[j].name.clone());
        j = j + 1;
    }
    assert(views(known@) =~= preset_names(presets@));
    Err(FlowError::UnknownPreset { name: owned(name), known })
}

} // verus!
