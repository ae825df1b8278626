//! What holds of the library as a whole: of every slug, of every escaped
//! text, of every log, and of every move a run makes.
use crate::html::{escape_char, escape_spec};
use crate::flow::Flow;
use crate::run::{
    current_spec, fresh_run, handoff_text, lemma_first_with_is, lemma_first_with_props, log_entry,
    note_text, recorded, settled, settled_count, slug_state, slugify_spec, unsettled, Run,
    StageRecord, StageStatus,
};
use crate::transitions::{advanced, back_target, next_open, sent_back_record};
use crate::text::{ascii_lower, has_prefix, is_ascii_alnum, trim_end_seq, trim_seq};
use vstd::prelude::*;

verus! {

/// A character a slug may hold: a lower-case ASCII letter, a digit, or `-`.
pub open spec fn is_slug_char(c: char) -> bool {
    let u = c as u32;
    (0x30 <= u <= 0x39) || (0x61 <= u <= 0x7a) || c == '-'
}

/// Slug characters only, never opening with `-`, and no `-` twice in a row.
pub open spec fn slug_like(s: Seq<char>) -> bool {
    &&& forall|i: int| 0 <= i < s.len() ==> is_slug_char(#[trigger] s[i])
    &&& (s.len() > 0 ==> s[0] != '-')
    &&& forall|i: int| 0 <= i < s.len() - 1 && #[trigger] s[i] == '-' ==> s[i + 1] != '-'
}

/// A slug: slug-like, and not ending with `-` either.
pub open spec fn is_slug(s: Seq<char>) -> bool {
    slug_like(s) && (s.len() > 0 ==> s.last() != '-')
}

/// The ASCII lower-case form of a letter or digit is a lower-case letter or
/// a digit, and a character that is not an upper-case letter is its own.
proof fn ascii_lower_is(c: char)
    ensures
        is_ascii_alnum(c) ==> {
            let u = ascii_lower(c) as u32;
            (0x30 <= u <= 0x39) || (0x61 <= u <= 0x7a)
        },
        !(0x41 <= (c as u32) <= 0x5a) ==> ascii_lower(c) == c,
{
    let u = c as u32;
    if 0x41 <= u <= 0x5a {
        let v: u8 = (u + 32) as u8;
        assert(v == u + 32);
        assert((v as char) as u32 == v as u32);
    }
}

proof fn lemma_lower_is_slug_char(c: char)
    requires
        is_ascii_alnum(c),
    ensures
        is_slug_char(ascii_lower(c)),
        ascii_lower(c) != '-',
{
    ascii_lower_is(c);
}

proof fn lemma_slug_state_shape(t: Seq<char>)
    ensures
        is_slug(slug_state(t).0),
    decreases t.len(),
{
    if t.len() > 0 {
        lemma_slug_state_shape(t.drop_last());
        let (out, pending) = slug_state(t.drop_last());
        let c = t.last();
        if is_ascii_alnum(c) {
            lemma_lower_is_slug_char(c);
            let base = if pending && out.len() > 0 {
                out + seq!['-']
            } else {
                out
            };
            let r = base.push(ascii_lower(c));
            assert(r == slug_state(t).0);
            assert forall|i: int| 0 <= i < r.len() implies is_slug_char(#[trigger] r[i]) by {
                if i < out.len() {
                    assert(r[i] == out[i]);
                }
            }
            assert forall|i: int| 0 <= i < r.len() - 1 && #[trigger] r[i] == '-' implies r[i + 1]
                != '-' by {
                if i + 1 < out.len() {
                    assert(r[i] == out[i]);
                    assert(r[i + 1] == out[i + 1]);
                } else if i + 1 == out.len() {
                    assert(r[i] == out[i]);
                }
            }
            if out.len() > 0 {
                assert(r[0] == out[0]);
            }
        }
    }
}

/// Every slug `slugify` makes is made of lower-case letters, digits and
/// single hyphens between them.
pub proof fn law_slug_shape(title: Seq<char>)
    ensures
        is_slug(slugify_spec(title)),
{
    lemma_slug_state_shape(title);
}

proof fn lemma_slug_state_of_slug_like(p: Seq<char>)
    requires
        slug_like(p),
    ensures
        slug_state(p) == (if p.len() > 0 && p.last() == '-' {
            p.drop_last()
        } else {
            p
        }, p.len() > 0 && p.last() == '-'),
    decreases p.len(),
{
    if p.len() > 0 {
        let q = p.drop_last();
        assert(slug_like(q)) by {
            assert forall|i: int| 0 <= i < q.len() implies is_slug_char(#[trigger] q[i]) by {
                assert(q[i] == p[i]);
            }
            assert forall|i: int| 0 <= i < q.len() - 1 && #[trigger] q[i] == '-' implies q[i + 1]
                != '-' by {
                assert(q[i] == p[i]);
                assert(q[i + 1] == p[i + 1]);
            }
            if q.len() > 0 {
                assert(q[0] == p[0]);
            }
        }
        lemma_slug_state_of_slug_like(q);
        let c = p.last();
        assert(is_slug_char(p[p.len() - 1]));
        if c == '-' {
            if q.len() > 0 {
                assert(p[q.len() - 1] == q.last());
                assert(q.last() != '-');
            }
            assert(!is_ascii_alnum(c));
        } else {
            assert(is_ascii_alnum(c));
            ascii_lower_is(c);
            if q.len() > 0 && q.last() == '-' {
                assert(q.len() > 1) by {
                    assert(q[0] == p[0]);
                }
                assert(q.drop_last() + seq!['-'] =~= q);
            }
            assert(q.push(c) =~= p);
        }
    }
}

/// A slug is its own slug, so slugifying twice is slugifying once.
pub proof fn law_slugify_idempotent(title: Seq<char>)
    ensures
        slugify_spec(slugify_spec(title)) == slugify_spec(title),
{
    let s = slugify_spec(title);
    lemma_slug_state_shape(title);
    lemma_slug_state_of_slug_like(s);
}

proof fn lemma_slug_state_empty(t: Seq<char>)
    ensures
        slug_state(t).0.len() == 0 <==> forall|i: int|
            0 <= i < t.len() ==> !is_ascii_alnum(#[trigger] t[i]),
    decreases t.len(),
{
    if t.len() > 0 {
        let p = t.drop_last();
        lemma_slug_state_empty(p);
        assert forall|i: int| 0 <= i < p.len() implies #[trigger] p[i] == t[i] by {}
        if is_ascii_alnum(t.last()) {
            assert(is_ascii_alnum(t[t.len() - 1]));
        } else {
            if forall|i: int| 0 <= i < p.len() ==> !is_ascii_alnum(#[trigger] p[i]) {
                assert forall|i: int| 0 <= i < t.len() implies !is_ascii_alnum(#[trigger] t[i]) by {
                    if i < p.len() {
                        assert(p[i] == t[i]);
                    }
                }
            } else {
                let j = choose|j: int| 0 <= j < p.len() && is_ascii_alnum(#[trigger] p[j]);
                assert(t[j] == p[j]);
            }
        }
    }
}

/// A title gives an empty slug exactly when it holds no ASCII letter or
/// digit.
pub proof fn law_slug_empty_iff_no_letter_or_digit(title: Seq<char>)
    ensures
        slugify_spec(title).len() == 0 <==> forall|i: int|
            0 <= i < title.len() ==> !is_ascii_alnum(#[trigger] title[i]),
{
    lemma_slug_state_empty(title);
}

/// Escaped text holds no `<`, `>` or `"`: run text cannot open or close
/// markup, or end an attribute, on the board.
pub proof fn law_escape_is_inert(s: Seq<char>)
    ensures
        forall|i: int|
            0 <= i < escape_spec(s).len() ==> #[trigger] escape_spec(s)[i] != '<' && escape_spec(s)[i]
                != '>' && escape_spec(s)[i] != '"',
    decreases s.len(),
{
    if s.len() > 0 {
        law_escape_is_inert(s.drop_last());
        let a = escape_spec(s.drop_last());
        let e = escape_char(s.last());
        reveal_strlit("&amp;");
        reveal_strlit("&lt;");
        reveal_strlit("&gt;");
        reveal_strlit("&quot;");
        assert forall|i: int| 0 <= i < (a + e).len() implies (a + e)[i] != '<' && (a + e)[i] != '>'
            && (a + e)[i] != '"' by {
            if i < a.len() {
                assert((a + e)[i] == a[i]);
                assert(escape_spec(s.drop_last())[i] == a[i]);
            }
        }
    }
}

/// Recording a move replaces the handoff wholesale and only ever adds to the
/// log: what the log held (less trailing whitespace) is where the new log
/// begins, and the new entry is where it ends.
pub proof fn law_log_only_grows(
    before: Run,
    after: Run,
    headline: Seq<char>,
    note: Option<Seq<char>>,
    stamp: Seq<char>,
)
    requires
        recorded(before, after, headline, note, stamp),
    ensures
        after.handoff@ == handoff_text(headline, note_text(note)),
        has_prefix(after.log@, trim_end_seq(before.log@)),
        after.log@.len() >= log_entry(headline, note_text(note), stamp).len(),
        after.log@.skip(after.log@.len() - log_entry(headline, note_text(note), stamp).len())
            == log_entry(headline, note_text(note), stamp),
        after.meta == before.meta,
{
    let entry = log_entry(headline, note_text(note), stamp);
    let l = before.log@;
    if trim_seq(l).len() == 0 {
        crate::text::lemma_trim_blank_end(l);
        assert(after.log@ == entry);
        assert(after.log@.take(0) =~= Seq::<char>::empty());
        assert(trim_end_seq(l) =~= Seq::<char>::empty());
        assert(entry.skip(0) =~= entry);
    } else {
        let te = trim_end_seq(l);
        reveal_strlit("\n\n");
        assert(after.log@ == te + "\n\n"@ + entry);
        assert((te + "\n\n"@ + entry).take(te.len() as int) =~= te);
        assert((te + "\n\n"@ + entry).skip((te + "\n\n"@).len() as int) =~= entry);
    }
}

/// The stages of a run stand in order at `k`: everything before `k` settled,
/// stage `k` (when there is one) in progress, everything after it pending.
pub open spec fn ordered_at(s: Seq<StageRecord>, k: int) -> bool {
    &&& 0 <= k <= s.len()
    &&& forall|j: int| 0 <= j < k ==> settled(#[trigger] s[j].status)
    &&& k < s.len() ==> s[k].status == StageStatus::InProgress
    &&& forall|j: int| k < j < s.len() ==> (#[trigger] s[j].status) == StageStatus::Pending
}

/// The stages of a run stand in order: a settled prefix, at most one stage
/// in hand, and nothing begun after it.
pub open spec fn in_order(s: Seq<StageRecord>) -> bool {
    exists|k: int| ordered_at(s, k)
}

/// In stages that stand in order at `k`, the run is on stage `k`, or on none
/// once every stage is settled.
pub proof fn lemma_ordered_current(s: Seq<StageRecord>, k: int)
    requires
        ordered_at(s, k),
    ensures
        current_spec(s) == if k < s.len() {
            Some(k)
        } else {
            None::<int>
        },
{
    if k < s.len() {
        assert forall|j: int| 0 <= j < k implies s[j].status != StageStatus::InProgress by {
            assert(settled(s[j].status));
        }
        lemma_first_with_is(s, StageStatus::InProgress, k);
    } else {
        lemma_first_with_props(s, StageStatus::InProgress);
        lemma_first_with_props(s, StageStatus::Pending);
        assert forall|j: int| 0 <= j < s.len() implies s[j].status != StageStatus::InProgress && s[j].status
            != StageStatus::Pending by {
            assert(settled(s[j].status));
        }
    }
}

/// A new run stands in order, on its first stage.
pub proof fn law_new_run_in_order(
    run: Run,
    slug: Seq<char>,
    title: Seq<char>,
    kind: Seq<char>,
    flow: Flow,
    stamp: Seq<char>,
)
    requires
        fresh_run(run, slug, title, kind, flow, stamp),
    ensures
        ordered_at(run.meta.stages@, 0),
        in_order(run.meta.stages@),
        flow.stages@.len() > 0 ==> current_spec(run.meta.stages@) == Some(0int),
{
    let s = run.meta.stages@;
    assert forall|j: int| 0 < j < s.len() implies (#[trigger] s[j].status) == StageStatus::Pending by {
        assert(crate::run::fresh_record(s[j], flow, j, stamp));
    }
    if s.len() > 0 {
        assert(crate::run::fresh_record(s[0], flow, 0, stamp));
    }
    assert(ordered_at(s, 0));
    lemma_ordered_current(s, 0);
}

/// The number of settled stages, where `a` and `b` differ in being settled
/// only at `c`, which `b` settles.
proof fn lemma_count_step(a: Seq<StageRecord>, b: Seq<StageRecord>, c: int)
    requires
        a.len() == b.len(),
        0 <= c < a.len(),
        !settled(a[c].status),
        settled(b[c].status),
        forall|j: int| 0 <= j < a.len() && j != c ==> settled(a[j].status) == settled(b[j].status),
    ensures
        settled_count(b) == settled_count(a) + 1,
    decreases a.len(),
{
    if a.len() - 1 == c {
        lemma_count_same(a.drop_last(), b.drop_last());
    } else {
        lemma_count_step(a.drop_last(), b.drop_last(), c);
    }
}

proof fn lemma_count_same(a: Seq<StageRecord>, b: Seq<StageRecord>)
    requires
        a.len() == b.len(),
        forall|j: int| 0 <= j < a.len() ==> settled(a[j].status) == settled(b[j].status),
    ensures
        settled_count(b) == settled_count(a),
    decreases a.len(),
{
    if a.len() > 0 {
        lemma_count_same(a.drop_last(), b.drop_last());
    }
}

/// After `advanced`, the stages stand in order one further on.
#[verifier::rlimit(30)]
proof fn lemma_advanced_order(
    before: Seq<StageRecord>,
    after: Seq<StageRecord>,
    c: int,
    status: StageStatus,
    stamp: Seq<char>,
    artifact: Option<Seq<char>>,
)
    requires
        ordered_at(before, c),
        c < before.len(),
        settled(status),
        advanced(before, after, c, status, stamp, artifact),
    ensures
        ordered_at(after, c + 1),
        next_open(before, c) == if c + 1 < before.len() {
            Some(c + 1)
        } else {
            None::<int>
        },
        forall|j: int| 0 <= j < before.len() && j != c && j != c + 1 ==> after[j] == before[j],
        c + 1 < before.len() ==> crate::transitions::opened_record(before[c + 1], after[c + 1], stamp),
{
    crate::transitions::lemma_next_open(before, c);
    if c + 1 < before.len() {
        assert(unsettled(before[c + 1].status));
        assert(next_open(before, c) == Some(c + 1));
    } else {
        assert(next_open(before, c) is None);
    }
    assert forall|j: int| 0 <= j < c + 1 implies settled(#[trigger] after[j].status) by {
        if j < c {
            assert(after[j] == before[j]);
        }
    }
    assert forall|j: int| c + 1 < j < after.len() implies (#[trigger] after[j].status)
        == StageStatus::Pending by {
        assert(after[j] == before[j]);
    }
}

/// Completing (or skipping) the stage in hand keeps the stages in order:
/// the next stage is in hand, and one more stage is settled. Every stage
/// keeps its name.
#[verifier::rlimit(40)]
pub proof fn law_advance_in_order(
    before: Seq<StageRecord>,
    after: Seq<StageRecord>,
    c: int,
    status: StageStatus,
    stamp: Seq<char>,
    artifact: Option<Seq<char>>,
)
    requires
        in_order(before),
        current_spec(before) == Some(c),
        settled(status),
        advanced(before, after, c, status, stamp, artifact),
    ensures
        ordered_at(after, c + 1),
        current_spec(after) == next_open(before, c),
        settled_count(after) == settled_count(before) + 1,
        after.len() == before.len(),
        forall|j: int| 0 <= j < before.len() ==> (#[trigger] after[j]).name == before[j].name,
{
    let k = choose|k: int| ordered_at(before, k);
    lemma_ordered_current(before, k);
    assert(k == c);
    lemma_advanced_order(before, after, c, status, stamp, artifact);
    lemma_ordered_current(after, c + 1);
    assert forall|j: int| 0 <= j < before.len() && j != c implies settled(before[j].status) == settled(
        after[j].status,
    ) by {
        if j != c + 1 {
            assert(after[j] == before[j]);
        }
    }
    lemma_count_step(before, after, c);
    assert forall|j: int| 0 <= j < before.len() implies (#[trigger] after[j]).name == before[j].name by {
        if j != c && j != c + 1 {
            assert(after[j] == before[j]);
        }
    }
}

/// The stage `flow back` returns to lies before the stage in hand (before
/// the end when none is).
#[verifier::rlimit(60)]
proof fn lemma_back_target_before(s: Seq<StageRecord>, stage: Option<Seq<char>>, t: int)
    requires
        back_target(s, stage) == Some(t),
    ensures
        0 <= t,
        t < match current_spec(s) {
            Some(i) => i,
            None => s.len() as int,
        },
{
    crate::run::lemma_current_props(s);
    match stage {
        Some(n) => {
            crate::transitions::lemma_record_named_props(s, n);
        },
        None => {},
    }
}

/// Sending a run back keeps its stages in order, with the stage it was sent
/// back to in hand; every stage before it is as it was, and every stage
/// keeps its name.
pub proof fn law_back_in_order(
    before: Seq<StageRecord>,
    after: Seq<StageRecord>,
    stage: Option<Seq<char>>,
    t: int,
    stamp: Seq<char>,
)
    requires
        in_order(before),
        back_target(before, stage) == Some(t),
        after.len() == before.len(),
        forall|j: int|
            0 <= j < before.len() ==> sent_back_record(#[trigger] before[j], after[j], j, t, stamp),
    ensures
        ordered_at(after, t),
        current_spec(after) == Some(t),
        forall|j: int| 0 <= j < t ==> #[trigger] after[j] == before[j],
        forall|j: int| 0 <= j < before.len() ==> (#[trigger] after[j]).name == before[j].name,
{
    let k = choose|k: int| ordered_at(before, k);
    lemma_ordered_current(before, k);
    lemma_back_target_before(before, stage, t);
    assert(0 <= t < k);
    lemma_sent_back_order(before, after, t, k, stamp);
    lemma_ordered_current(after, t);
}

#[verifier::rlimit(30)]
proof fn lemma_sent_back_order(
    before: Seq<StageRecord>,
    after: Seq<StageRecord>,
    t: int,
    k: int,
    stamp: Seq<char>,
)
    requires
        ordered_at(before, k),
        0 <= t < k,
        after.len() == before.len(),
        forall|j: int|
            0 <= j < before.len() ==> sent_back_record(#[trigger] before[j], after[j], j, t, stamp),
    ensures
        ordered_at(after, t),
        forall|j: int| 0 <= j < t ==> #[trigger] after[j] == before[j],
        forall|j: int| 0 <= j < before.len() ==> (#[trigger] after[j]).name == before[j].name,
{
    assert forall|j: int| 0 <= j < t implies #[trigger] after[j] == before[j] by {
        assert(sent_back_record(before[j], after[j], j, t, stamp));
    }
    assert forall|j: int| 0 <= j < t implies settled(#[trigger] after[j].status) by {
        assert(after[j] == before[j]);
    }
    assert(sent_back_record(before[t], after[t], t, t, stamp));
    assert forall|j: int| t < j < after.len() implies (#[trigger] after[j].status) == StageStatus::Pending by {
        assert(sent_back_record(before[j], after[j], j, t, stamp));
    }
    assert forall|j: int| 0 <= j < before.len() implies (#[trigger] after[j]).name == before[j].name by {
        assert(sent_back_record(before[j], after[j], j, t, stamp));
    }
}

/// A stage that `flow back` deliberately reopened is never reported as a
/// session that died on it: while it stays open, its artifact on disk is no
/// drift.
pub proof fn law_reopened_stage_is_not_drift(run: Run, flow: Flow, present: Seq<bool>, j: int)
    requires
        0 <= j < run.meta.stages@.len(),
        run.meta.stages@[j].reopened,
        unsettled(run.meta.stages@[j].status),
    ensures
        crate::drift::drift_at(run, flow, present, j) is None,
{
}

/// Reopening a run undoes finishing it: the run is active again with the
/// very stages and identity it had, and its log holds what it held before,
/// followed by both entries.
pub proof fn law_reopen_undoes_finish(
    active: Run,
    finished: Run,
    reopened: Run,
    finish_note: Option<Seq<char>>,
    reopen_note: Option<Seq<char>>,
    finish_stamp: Seq<char>,
    reopen_stamp: Seq<char>,
)
    requires
        active.meta.status == crate::run::RunStatus::Active,
        crate::transitions::status_moved(
            active,
            finished,
            crate::run::RunStatus::Finished,
            "Run finished."@,
            finish_note,
            finish_stamp,
        ),
        crate::transitions::status_moved(
            finished,
            reopened,
            crate::run::RunStatus::Active,
            "Reopened."@,
            reopen_note,
            reopen_stamp,
        ),
    ensures
        reopened.meta.status == active.meta.status,
        reopened.meta.stages == active.meta.stages,
        crate::transitions::same_identity(active, reopened),
        has_prefix(reopened.log@, trim_end_seq(active.log@)),
{
    let mid = finished.log@;
    let e1 = log_entry("Run finished."@, note_text(finish_note), finish_stamp);
    let e2 = log_entry("Reopened."@, note_text(reopen_note), reopen_stamp);
    let a = active.log@;
    lemma_entry_opens("Run finished."@, note_text(finish_note), finish_stamp);
    lemma_appended_has_prefix(mid, e2);
    lemma_trim_end_of_appended(a, e1);
    let p = trim_end_seq(a);
    let q = trim_end_seq(mid);
    assert(has_prefix(q, p));
    assert(has_prefix(reopened.log@, q));
    assert(reopened.log@.take(p.len() as int) =~= q.take(p.len() as int));
}

/// An appended log begins with the old log, less its trailing whitespace.
proof fn lemma_appended_has_prefix(log: Seq<char>, entry: Seq<char>)
    ensures
        has_prefix(crate::run::appended_log(log, entry), trim_end_seq(log)),
{
    if trim_seq(log).len() == 0 {
        crate::text::lemma_trim_blank_end(log);
        assert(trim_end_seq(log) =~= Seq::<char>::empty());
        assert(crate::run::appended_log(log, entry).take(0) =~= Seq::<char>::empty());
    } else {
        let te = trim_end_seq(log);
        reveal_strlit("\n\n");
        assert((te + "\n\n"@ + entry).take(te.len() as int) =~= te);
    }
}

/// Trimming an appended log keeps everything the old log kept, for an
/// entry that opens with something other than whitespace.
proof fn lemma_trim_end_of_appended(log: Seq<char>, entry: Seq<char>)
    requires
        entry.len() > 0,
        !crate::text::is_ws(entry[0]),
    ensures
        has_prefix(trim_end_seq(crate::run::appended_log(log, entry)), trim_end_seq(log)),
{
    let r = crate::run::appended_log(log, entry);
    if trim_seq(log).len() == 0 {
        crate::text::lemma_trim_blank_end(log);
        assert(trim_end_seq(log) =~= Seq::<char>::empty());
        assert(trim_end_seq(r).take(0) =~= Seq::<char>::empty());
    } else {
        let te = trim_end_seq(log);
        reveal_strlit("\n\n");
        let k: int = te.len() as int + 2;
        assert(r == te + "\n\n"@ + entry);
        assert(r[k] == entry[0]);
        crate::text::lemma_trim_end_keeps(r, k);
        let t = trim_end_seq(r);
        assert(t.take(te.len() as int) =~= r.take(te.len() as int));
        assert(r.take(te.len() as int) =~= te);
    }
}

/// A log entry opens with `#`.
proof fn lemma_entry_opens(headline: Seq<char>, note: Seq<char>, stamp: Seq<char>)
    ensures
        log_entry(headline, note, stamp).len() > 0,
        log_entry(headline, note, stamp)[0] == '#',
{
    reveal_strlit("### ");
}

/// Drift found on a record is listed among the drift of every stretch of
/// records that takes it in.
proof fn lemma_drift_listed(run: Run, flow: Flow, present: Seq<bool>, i: int, n: nat)
    requires
        0 <= i < n,
        crate::drift::drift_at(run, flow, present, i) is Some,
    ensures
        crate::drift::drift_upto(run, flow, present, n).contains(
            crate::drift::drift_at(run, flow, present, i)->0,
        ),
    decreases n,
{
    let d = crate::drift::drift_at(run, flow, present, i)->0;
    let prev = crate::drift::drift_upto(run, flow, present, (n - 1) as nat);
    let all = crate::drift::drift_upto(run, flow, present, n);
    if i == n - 1 {
        assert(all == prev + seq![d]);
        assert(all[prev.len() as int] == d);
    } else {
        lemma_drift_listed(run, flow, present, i, (n - 1) as nat);
        let k = choose|k: int| 0 <= k < prev.len() && prev[k] == d;
        assert(all[k] == prev[k]);
    }
}

/// A stage the record still has open — pending or in progress, and not
/// reopened on purpose — whose artifact is on disk is reported as drift,
/// naming the artifact and the status: a session may have died there.
pub proof fn law_open_stage_with_artifact_is_drift(run: Run, flow: Flow, present: Seq<bool>, i: int)
    requires
        0 <= i < run.meta.stages@.len(),
        i < present.len(),
        present[i],
        run.meta.stages@[i].status == StageStatus::Pending || run.meta.stages@[i].status
            == StageStatus::InProgress,
        !run.meta.stages@[i].reopened,
        crate::drift::checked_artifact(run, flow, i) is Some,
    ensures
        crate::drift::drift_upto(run, flow, present, run.meta.stages@.len()).contains(
            (
                run.meta.stages@[i].name@,
                crate::drift::checked_artifact(run, flow, i)->0 + " exists but the stage is "@ + (
                if run.meta.stages@[i].status == StageStatus::Pending {
                    "pending"@
                } else {
                    "in progress"@
                }) + " — did a session die here?"@,
            ),
        ),
{
    lemma_drift_listed(run, flow, present, i, run.meta.stages@.len());
}

/// A stage the record calls done whose artifact is not on disk is reported
/// as drift, naming the missing artifact.
pub proof fn law_done_stage_without_artifact_is_drift(run: Run, flow: Flow, present: Seq<bool>, i: int)
    requires
        0 <= i < run.meta.stages@.len(),
        !(i < present.len() && present[i]),
        run.meta.stages@[i].status == StageStatus::Done,
        crate::drift::checked_artifact(run, flow, i) is Some,
    ensures
        crate::drift::drift_upto(run, flow, present, run.meta.stages@.len()).contains(
            (
                run.meta.stages@[i].name@,
                "marked done but "@ + crate::drift::checked_artifact(run, flow, i)->0
                    + " is missing"@,
            ),
        ),
{
    lemma_drift_listed(run, flow, present, i, run.meta.stages@.len());
}

/// The stage line of a prompt's introduction: where the stage stands in the
/// flow, and its name.
spec fn stage_line(index: int, total: nat, name: Seq<char>) -> Seq<char> {
    "\nStage "@ + crate::text::decimal((index + 1) as nat) + " of "@ + crate::text::decimal(total)
        + ": **"@ + name + "**"@
}

proof fn lemma_intro_has_stage_line(run: Run, index: int, total: nat, name: Seq<char>, description: Seq<char>)
    ensures
        crate::text::contains_seq(
            crate::agent::intro_part(run, index, total, name, description),
            stage_line(index, total, name),
        ),
{
    let p = "You are working on `"@ + run.meta.slug@ + "` ("@ + run.meta.title@ + ")"@ + (if run.meta.kind@.len() == 0 {
        Seq::<char>::empty()
    } else {
        ", a "@ + run.meta.kind@
    });
    let d1 = crate::text::decimal((index + 1) as nat);
    let d2 = crate::text::decimal(total);
    reveal_strlit(".\nStage ");
    reveal_strlit("\nStage ");
    reveal_strlit(".");
    reveal_strlit("** — ");
    reveal_strlit("**");
    reveal_strlit(" — ");
    let a = p + "."@;
    let b = " — "@ + description + "\n"@;
    let needle = stage_line(index, total, name);
    assert(crate::agent::intro_part(run, index, total, name, description) =~= a + needle + b);
    crate::text::lemma_occurs_between(a, needle, b);
}

/// The prompt for stage `index` of a flow of `n` stages tells the agent
/// where it stands: stage `index + 1` of `n`, with the stage's name.
pub proof fn law_prompt_numbers_the_stage(flow: Flow, run: Run, index: int, agent: Option<Seq<char>>)
    requires
        0 <= index < flow.stages@.len(),
    ensures
        crate::text::contains_seq(
            crate::agent::prompt_spec(flow, run, index, agent),
            "\nStage "@ + crate::text::decimal((index + 1) as nat) + " of "@ + crate::text::decimal(
                flow.stages@.len(),
            ) + ": **"@ + flow.stages@[index].name@ + "**"@,
        ),
{
    let stage = flow.stages@[index];
    let intro = crate::agent::intro_part(run, index, flow.stages@.len(), stage.name@, stage.description@);
    lemma_intro_has_stage_line(run, index, flow.stages@.len(), stage.name@, stage.description@);
    let before = crate::agent::command_part(stage.command_for_spec(agent));
    let after = crate::agent::handoff_part(run.handoff@) + crate::agent::recording_part(run.meta.slug@, stage);
    crate::text::lemma_contains_extend(intro, stage_line(index, flow.stages@.len(), stage.name@), before, after);
    assert(before + intro + after =~= crate::agent::prompt_spec(flow, run, index, agent));
}

/// Each stage record's list item stands on its run's card.
proof fn lemma_card_holds_items(run: Run, d: Seq<(Seq<char>, Seq<char>)>, i: int)
    requires
        0 <= i < run.meta.stages@.len(),
    ensures
        crate::text::contains_seq(crate::html::card_spec(run, d), crate::html::stage_items(run)[i]),
{
    let p = crate::html::stage_items(run)[i];
    let items = crate::text::join_seq(crate::html::stage_items(run), "\n"@);
    crate::text::lemma_join_contains(crate::html::stage_items(run), "\n"@, i);
    let before = "  <article class=\"card\">\n    <div class=\"kind\">"@ + escape_spec(
        crate::html::card_kind(run),
    ) + "</div>\n    <div class=\"title\">"@ + escape_spec(run.meta.title@)
        + "</div>\n    <div class=\"slug\">"@ + escape_spec(run.meta.slug@)
        + "</div>\n    <ol class=\"stages\">\n"@;
    crate::text::lemma_contains_prepend(before, items, p);
    let s1 = before + items;
    crate::text::lemma_contains_append(s1, "\n    </ol>\n"@, p);
    let s2 = s1 + "\n    </ol>\n"@;
    crate::text::lemma_contains_append(s2, crate::html::drift_html(d), p);
    let s3 = s2 + crate::html::drift_html(d);
    crate::text::lemma_contains_append(s3, crate::html::handoff_html(run.handoff@), p);
    let s4 = s3 + crate::html::handoff_html(run.handoff@);
    crate::text::lemma_contains_append(s4, "  </article>"@, p);
}

/// An item opening `<li class="` and a class, then a closing quote, opens
/// with the `done` class exactly when that class is `done`, and with the
/// `skipped` class exactly when it is `skipped`.
proof fn lemma_class_opening(c: Seq<char>, tail: Seq<char>)
    requires
        c == "done"@ || c == "skipped"@ || c == "current"@ || c == ""@,
        tail.len() > 0,
        tail[0] == '"',
    ensures
        has_prefix("      <li class=\""@ + c + tail, "      <li class=\"done\""@) <==> c == "done"@,
        has_prefix("      <li class=\""@ + c + tail, "      <li class=\"skipped\""@) <==> c == "skipped"@,
        has_prefix("      <li class=\""@ + c + tail, "      <li class=\"current\""@) <==> c == "current"@,
{
    let l = "      <li class=\""@;
    let item = l + c + tail;
    let pd = "      <li class=\"done\""@;
    let ps = "      <li class=\"skipped\""@;
    reveal_strlit("      <li class=\"");
    reveal_strlit("      <li class=\"done\"");
    reveal_strlit("      <li class=\"skipped\"");
    reveal_strlit("done");
    reveal_strlit("skipped");
    reveal_strlit("current");
    reveal_strlit("");
    assert(l.len() == 17);
    if c == "done"@ {
        assert(item.take(22) =~= pd);
    } else {
        assert(item[17] != pd[17]);
    }
    let pc = "      <li class=\"current\""@;
    reveal_strlit("      <li class=\"current\"");
    if c == "current"@ {
        assert(item.take(25) =~= pc);
    } else if c == ""@ {
        assert(item[17] != pc[17]);
    } else {
        assert(item[17] != pc[17]);
    }
    if c == "skipped"@ {
        assert(item.take(25) =~= ps);
    } else if c == ""@ {
        assert(item[17] == '"');
        assert(item[17] != ps[17]);
    } else if c == "done"@ {
        assert(item[18] != ps[18]);
    } else {
        assert(item[17] != ps[17]);
    }
}

/// On a card, every stage record is a list item of the card whose class
/// says how the stage stands: `done` for a done stage and for no other,
/// `skipped` for a skipped stage and for no other, `current` for the stage
/// the run is on and for no other.
pub proof fn law_card_classes_follow_status(run: Run, d: Seq<(Seq<char>, Seq<char>)>, i: int)
    requires
        0 <= i < run.meta.stages@.len(),
    ensures
        crate::text::contains_seq(crate::html::card_spec(run, d), crate::html::stage_items(run)[i]),
        has_prefix(crate::html::stage_items(run)[i], "      <li class=\"done\""@) <==> run.meta.stages@[i].status
            == StageStatus::Done,
        has_prefix(crate::html::stage_items(run)[i], "      <li class=\"skipped\""@)
            <==> run.meta.stages@[i].status == StageStatus::Skipped,
        has_prefix(crate::html::stage_items(run)[i], "      <li class=\"current\""@)
            <==> current_spec(run.meta.stages@) == Some(i),
{
    lemma_card_holds_items(run, d, i);
    let c = crate::html::stage_class(run, i);
    let tail = lemma_item_shape(run, i);
    lemma_class_opening(c, tail);
    lemma_class_of_status(run, i);
}

/// The class of a stage on a card, by how the stage stands.
proof fn lemma_class_of_status(run: Run, i: int)
    requires
        0 <= i < run.meta.stages@.len(),
    ensures
        crate::html::stage_class(run, i) == "done"@ || crate::html::stage_class(run, i) == "skipped"@
            || crate::html::stage_class(run, i) == "current"@ || crate::html::stage_class(run, i) == ""@,
        crate::html::stage_class(run, i) == "done"@ <==> run.meta.stages@[i].status == StageStatus::Done,
        crate::html::stage_class(run, i) == "skipped"@ <==> run.meta.stages@[i].status
            == StageStatus::Skipped,
        crate::html::stage_class(run, i) == "current"@ <==> current_spec(run.meta.stages@) == Some(i),
{
    crate::run::lemma_current_props(run.meta.stages@);
    reveal_strlit("done");
    reveal_strlit("skipped");
    reveal_strlit("current");
    reveal_strlit("");
    assert("done"@.len() == 4 && "skipped"@.len() == 7 && "current"@.len() == 7);
    assert("skipped"@[0] != "current"@[0]);
}

/// A stage's list item: `<li class="`, its class, then what follows, which
/// opens with the closing quote.
#[verifier::rlimit(40)]
proof fn lemma_item_shape(run: Run, i: int) -> (tail: Seq<char>)
    requires
        0 <= i < run.meta.stages@.len(),
    ensures
        tail.len() > 0,
        tail[0] == '"',
        crate::html::stage_items(run)[i] == "      <li class=\""@ + crate::html::stage_class(run, i) + tail,
{
    let m = "\"><span class=\"dot\"></span><span class=\"name\">"@;
    let tail = m + escape_spec(run.meta.stages@[i].name@) + "</span></li>"@;
    reveal_strlit("\"><span class=\"dot\"></span><span class=\"name\">");
    assert(m[0] == '"');
    assert(tail[0] == m[0]);
    assert(crate::html::stage_items(run)[i] == crate::html::stage_item(run, i));
    assert(crate::html::stage_item(run, i) =~= "      <li class=\""@ + crate::html::stage_class(run, i) + tail);
    tail
}

proof fn lemma_show_lines_hold(run: Run, i: int, n: nat)
    requires
        0 <= i < n,
    ensures
        crate::text::contains_seq(crate::lifecycle::show_lines(run, n), crate::lifecycle::show_line(run, i)),
    decreases n,
{
    let prev = crate::lifecycle::show_lines(run, (n - 1) as nat);
    if i == n - 1 {
        crate::text::lemma_occurs_between(prev, crate::lifecycle::show_line(run, i), Seq::empty());
        assert(prev + crate::lifecycle::show_line(run, i) + Seq::<char>::empty()
            =~= crate::lifecycle::show_lines(run, n));
    } else {
        lemma_show_lines_hold(run, i, (n - 1) as nat);
        crate::text::lemma_contains_append(prev, crate::lifecycle::show_line(run, n - 1), crate::lifecycle::show_line(run, i));
    }
}

/// Each stage record's line stands in what `flow show` prints.
proof fn lemma_show_holds_lines(run: Run, d: Seq<(Seq<char>, Seq<char>)>, i: int)
    requires
        0 <= i < run.meta.stages@.len(),
    ensures
        crate::text::contains_seq(crate::lifecycle::show_spec(run, d), crate::lifecycle::show_line(run, i)),
{
    let p = crate::lifecycle::show_line(run, i);
    let lines = crate::lifecycle::show_lines(run, run.meta.stages@.len());
    lemma_show_lines_hold(run, i, run.meta.stages@.len());
    let log = trim_seq(run.log@);
    let before = run.meta.title@ + " ("@ + run.meta.slug@ + ")\n"@ + (if run.meta.kind@.len() == 0 {
        "—"@
    } else {
        run.meta.kind@
    }) + " · flow `"@ + run.meta.flow@ + "` · "@ + crate::text::decimal(settled_count(run.meta.stages@))
        + "/"@ + crate::text::decimal(run.meta.stages@.len()) + " stages · "@ + (if run.meta.status
        == crate::run::RunStatus::Finished {
        "finished"@
    } else {
        "active"@
    }) + "\n"@ + "updated "@ + run.meta.updated@ + "\n\n"@;
    let dpart = if d.len() == 0 {
        Seq::<char>::empty()
    } else {
        "\ndrift:\n"@ + crate::lifecycle::drift_block(d, d.len())
    };
    let lpart = if log.len() == 0 {
        Seq::<char>::empty()
    } else {
        "\n## Log\n\n"@ + log + "\n"@
    };
    crate::text::lemma_contains_prepend(before, lines, p);
    let s1 = before + lines;
    crate::text::lemma_contains_append(s1, dpart, p);
    let s2 = s1 + dpart;
    crate::text::lemma_contains_append(s2, "\n## Where we are\n\n"@, p);
    let s3 = s2 + "\n## Where we are\n\n"@;
    crate::text::lemma_contains_append(s3, trim_seq(run.handoff@), p);
    let s4 = s3 + trim_seq(run.handoff@);
    crate::text::lemma_contains_append(s4, "\n"@, p);
    let s5 = s4 + "\n"@;
    crate::text::lemma_contains_append(s5, lpart, p);
}

/// A line opening with two spaces and a mark, then a space, opens with
/// `[x]` exactly when the mark is `[x]`, and with `[-]` exactly when it is
/// `[-]`.
proof fn lemma_mark_opening(m: Seq<char>, tail: Seq<char>)
    requires
        m == "[x]"@ || m == "[-]"@ || m == "[>]"@ || m == "[ ]"@,
        tail.len() > 0,
        tail[0] == ' ',
    ensures
        has_prefix("  "@ + m + tail, "  [x] "@) <==> m == "[x]"@,
        has_prefix("  "@ + m + tail, "  [-] "@) <==> m == "[-]"@,
        has_prefix("  "@ + m + tail, "  [>] "@) <==> m == "[>]"@,
{
    let line = "  "@ + m + tail;
    reveal_strlit("  ");
    reveal_strlit("  [x] ");
    reveal_strlit("  [-] ");
    reveal_strlit("[x]");
    reveal_strlit("[-]");
    reveal_strlit("[>]");
    reveal_strlit("[ ]");
    assert(line[3] == m[1]);
    if m == "[x]"@ {
        assert(line.take(6) =~= "  [x] "@);
    } else {
        assert(line[3] != "  [x] "@[3]);
    }
    if m == "[-]"@ {
        assert(line.take(6) =~= "  [-] "@);
    } else {
        assert(line[3] != "  [-] "@[3]);
    }
    reveal_strlit("  [>] ");
    if m == "[>]"@ {
        assert(line.take(6) =~= "  [>] "@);
    } else {
        assert(line[3] != "  [>] "@[3]);
    }
}

/// The mark of a stage in `flow show`, by how the stage stands.
proof fn lemma_mark_of_status(run: Run, i: int)
    requires
        0 <= i < run.meta.stages@.len(),
    ensures
        crate::lifecycle::show_mark(run, i) == "[x]"@ || crate::lifecycle::show_mark(run, i) == "[-]"@
            || crate::lifecycle::show_mark(run, i) == "[>]"@ || crate::lifecycle::show_mark(run, i) == "[ ]"@,
        crate::lifecycle::show_mark(run, i) == "[x]"@ <==> run.meta.stages@[i].status == StageStatus::Done,
        crate::lifecycle::show_mark(run, i) == "[-]"@ <==> run.meta.stages@[i].status
            == StageStatus::Skipped,
        crate::lifecycle::show_mark(run, i) == "[>]"@ <==> current_spec(run.meta.stages@) == Some(i),
{
    crate::run::lemma_current_props(run.meta.stages@);
    reveal_strlit("[x]");
    reveal_strlit("[-]");
    reveal_strlit("[>]");
    reveal_strlit("[ ]");
    assert("[x]"@[1] != "[-]"@[1] && "[x]"@[1] != "[>]"@[1] && "[x]"@[1] != "[ ]"@[1]);
    assert("[-]"@[1] != "[>]"@[1] && "[-]"@[1] != "[ ]"@[1]);
}

/// A stage's line in `flow show`: two spaces, its mark, then what follows,
/// which opens with a space.
#[verifier::rlimit(40)]
proof fn lemma_show_line_shape(run: Run, i: int) -> (tail: Seq<char>)
    requires
        0 <= i < run.meta.stages@.len(),
    ensures
        tail.len() > 0,
        tail[0] == ' ',
        crate::lifecycle::show_line(run, i) == "  "@ + crate::lifecycle::show_mark(run, i) + tail,
{
    let rec = run.meta.stages@[i];
    let tail = " "@ + rec.name@ + (match rec.artifact {
        Some(a) => "  → "@ + a@,
        None => Seq::<char>::empty(),
    }) + "\n"@;
    reveal_strlit(" ");
    assert(tail[0] == ' ');
    assert(crate::lifecycle::show_line(run, i) =~= "  "@ + crate::lifecycle::show_mark(run, i) + tail);
    tail
}

/// In what `flow show` prints, every stage record has its line, marked by
/// how the stage stands: `[x]` for a done stage and for no other, `[-]` for
/// a skipped stage and for no other, `[>]` for the stage the run is on and
/// for no other.
pub proof fn law_show_marks_follow_status(run: Run, d: Seq<(Seq<char>, Seq<char>)>, i: int)
    requires
        0 <= i < run.meta.stages@.len(),
    ensures
        crate::text::contains_seq(crate::lifecycle::show_spec(run, d), crate::lifecycle::show_line(run, i)),
        has_prefix(crate::lifecycle::show_line(run, i), "  [x] "@) <==> run.meta.stages@[i].status
            == StageStatus::Done,
        has_prefix(crate::lifecycle::show_line(run, i), "  [-] "@) <==> run.meta.stages@[i].status
            == StageStatus::Skipped,
        has_prefix(crate::lifecycle::show_line(run, i), "  [>] "@) <==> current_spec(run.meta.stages@)
            == Some(i),
{
    lemma_show_holds_lines(run, d, i);
    let tail = lemma_show_line_shape(run, i);
    lemma_mark_of_status(run, i);
    lemma_mark_opening(crate::lifecycle::show_mark(run, i), tail);
}

proof fn lemma_rows_hold(runs: Seq<Run>, current: Option<Seq<char>>, i: int, n: nat)
    requires
        0 <= i < n,
    ensures
        crate::text::contains_seq(
            crate::status::rows_spec(runs, current, n),
            crate::status::table_line(
                runs,
                crate::status::marker_for(runs[i], current),
                crate::status::row_cells(runs[i]),
            ),
        ),
    decreases n,
{
    let line = crate::status::table_line(
        runs,
        crate::status::marker_for(runs[i], current),
        crate::status::row_cells(runs[i]),
    );
    let prev = crate::status::rows_spec(runs, current, (n - 1) as nat);
    if i == n - 1 {
        crate::text::lemma_occurs_between(prev, line, "\n"@);
    } else {
        lemma_rows_hold(runs, current, i, (n - 1) as nat);
        let last = crate::status::table_line(
            runs,
            crate::status::marker_for(runs[n - 1], current),
            crate::status::row_cells(runs[n - 1]),
        );
        crate::text::lemma_contains_append(prev, last, line);
        crate::text::lemma_contains_append(prev + last, "\n"@, line);
    }
}

/// In `flow status`, every run listed has its row, and the row's stage
/// column says `finished` for a finished run; for an active run it names the
/// stage the run is on, or shows a dash once every stage is settled.
pub proof fn law_status_stage_column(
    runs: Seq<Run>,
    drifts: Seq<Vec<crate::run::Drift>>,
    current: Option<Seq<char>>,
    all: bool,
    i: int,
)
    requires
        0 <= i < runs.len(),
    ensures
        crate::text::contains_seq(
            crate::status::status_spec(runs, drifts, current, all),
            crate::status::table_line(
                runs,
                crate::status::marker_for(runs[i], current),
                crate::status::row_cells(runs[i]),
            ),
        ),
        crate::status::row_cells(runs[i]).len() == 4,
        runs[i].meta.status == crate::run::RunStatus::Finished ==> crate::status::row_cells(runs[i])[2]
            == "finished"@,
        runs[i].meta.status == crate::run::RunStatus::Active ==> crate::status::row_cells(runs[i])[2]
            == match current_spec(runs[i].meta.stages@) {
            Some(k) => runs[i].meta.stages@[k].name@,
            None => "—"@,
        },
{
    lemma_status_holds_rows(runs, drifts, current, all, i);
    lemma_stage_cell(runs[i]);
}

/// The stage cell of a run's row.
proof fn lemma_stage_cell(r: Run)
    ensures
        crate::status::row_cells(r).len() == 4,
        r.meta.status == crate::run::RunStatus::Finished ==> crate::status::row_cells(r)[2] == "finished"@,
        r.meta.status == crate::run::RunStatus::Active ==> crate::status::row_cells(r)[2]
            == match current_spec(r.meta.stages@) {
            Some(k) => r.meta.stages@[k].name@,
            None => "—"@,
        },
{
    reveal(crate::status::row_cells);
}

/// Each run's row stands in what `flow status` prints.
proof fn lemma_status_holds_rows(
    runs: Seq<Run>,
    drifts: Seq<Vec<crate::run::Drift>>,
    current: Option<Seq<char>>,
    all: bool,
    i: int,
)
    requires
        0 <= i < runs.len(),
    ensures
        crate::text::contains_seq(
            crate::status::status_spec(runs, drifts, current, all),
            crate::status::table_line(
                runs,
                crate::status::marker_for(runs[i], current),
                crate::status::row_cells(runs[i]),
            ),
        ),
{
    let line = crate::status::table_line(
        runs,
        crate::status::marker_for(runs[i], current),
        crate::status::row_cells(runs[i]),
    );
    lemma_rows_hold(runs, current, i, runs.len());
    let head = crate::status::table_line(runs, "  "@, crate::status::headers()) + "\n"@;
    crate::text::lemma_contains_prepend(head, crate::status::rows_spec(runs, current, runs.len()), line);
    let lines = crate::status::drift_lines(runs, drifts, runs.len());
    let rest = if lines.len() == 0 {
        Seq::<char>::empty()
    } else {
        "\ndrift:\n"@ + lines
    };
    crate::text::lemma_contains_append(crate::status::table_spec(runs, current), rest, line);
}

/// Whether `e` is drift that stage record `i` accounts for: the record says
/// done and its artifact is missing, or the record is still open — not
/// reopened on purpose — and its artifact is on disk; with the stage's name
/// and a message that names the artifact.
pub open spec fn drift_explained(run: Run, flow: Flow, present: Seq<bool>, i: int, e: (Seq<char>, Seq<char>)) -> bool {
    let rec = run.meta.stages@[i];
    let exists = i < present.len() && present[i];
    match crate::drift::checked_artifact(run, flow, i) {
        None => false,
        Some(a) => {
            ||| rec.status == StageStatus::Done && !exists && e == (rec.name@, "marked done but "@ + a
                + " is missing"@)
            ||| (rec.status == StageStatus::Pending || rec.status == StageStatus::InProgress) && exists
                && !rec.reopened && e == (
                rec.name@,
                a + " exists but the stage is "@ + (if rec.status == StageStatus::Pending {
                    "pending"@
                } else {
                    "in progress"@
                }) + " — did a session die here?"@,
            )
        },
    }
}

proof fn lemma_drift_explained_upto(run: Run, flow: Flow, present: Seq<bool>, n: nat, k: int)
    requires
        n <= run.meta.stages@.len(),
        0 <= k < crate::drift::drift_upto(run, flow, present, n).len(),
    ensures
        exists|i: int|
            0 <= i < n && #[trigger] drift_explained(
                run,
                flow,
                present,
                i,
                crate::drift::drift_upto(run, flow, present, n)[k],
            ),
    decreases n,
{
    let prev = crate::drift::drift_upto(run, flow, present, (n - 1) as nat);
    let all = crate::drift::drift_upto(run, flow, present, n);
    if k < prev.len() {
        lemma_drift_explained_upto(run, flow, present, (n - 1) as nat, k);
        assert(all[k] == prev[k]);
        let i = choose|i: int| 0 <= i < n - 1 && #[trigger] drift_explained(run, flow, present, i, prev[k]);
        assert(drift_explained(run, flow, present, i, all[k]));
    } else {
        let i = n - 1;
        assert(all[k] == crate::drift::drift_at(run, flow, present, i)->0);
        reveal_strlit("pending");
        reveal_strlit("in progress");
        assert(drift_explained(run, flow, present, i, all[k]));
    }
}

/// Drift is only ever of the two kinds: every entry reported is accounted
/// for by a stage record marked done whose artifact is missing, or by one
/// still open, not reopened on purpose, whose artifact is on disk.
pub proof fn law_drift_has_a_cause(run: Run, flow: Flow, present: Seq<bool>, k: int)
    requires
        0 <= k < crate::drift::drift_upto(run, flow, present, run.meta.stages@.len()).len(),
    ensures
        exists|i: int|
            0 <= i < run.meta.stages@.len() && #[trigger] drift_explained(
                run,
                flow,
                present,
                i,
                crate::drift::drift_upto(run, flow, present, run.meta.stages@.len())[k],
            ),
{
    lemma_drift_explained_upto(run, flow, present, run.meta.stages@.len(), k);
}

} // verus!
