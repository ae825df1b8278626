//! A run: one traversal of the flow by one piece of work, with its position,
//! its handoff and its log.
use crate::error::FlowError;
use crate::flow::{opt_string_view, runs_dir_spec, Flow};
use crate::path::join_seq;
use crate::text::{
    ascii_lower, chars_of, find, first_occurrence, is_alnum, is_ascii_alnum, is_blank, owned,
    push_char, push_str, string_of_range, to_ascii_lower, trim, trim_end, trim_end_seq, trim_seq,
};
use vstd::prelude::*;

verus! {

/// Where a stage stands.
#[derive(Debug, Clone, Copy, PartialEq, Eq, Structural)]
pub enum StageStatus {
    Pending,
    InProgress,
    Done,
    Skipped,
}

/// Whether a run is still on the board.
#[derive(Debug, Clone, Copy, PartialEq, Eq, Structural)]
pub enum RunStatus {
    Active,
    Finished,
}

/// One stage's record within a run.
#[derive(Debug, Clone)]
pub struct StageRecord {
    pub name: String,
    pub status: StageStatus,
    /// What the stage actually produced, when `flow done` was told.
    pub artifact: Option<String>,
    pub started: Option<String>,
    pub completed: Option<String>,
    /// Set when `flow back` unsettles a stage that had been settled, so that
    /// its artifact, already on disk, is not taken for a session that died;
    /// cleared when the stage is settled again.
    pub reopened: bool,
}

/// The frontmatter of a run file.
#[derive(Debug, Clone)]
pub struct RunMeta {
    pub slug: String,
    pub title: String,
    pub kind: String,
    pub flow: String,
    pub status: RunStatus,
    pub created: String,
    pub updated: String,
    pub stages: Vec<StageRecord>,
}

/// One traversal of the flow by one piece of work.
#[derive(Debug, Clone)]
pub struct Run {
    pub meta: RunMeta,
    /// The always-current block. Rewritten on every transition, never appended to.
    pub handoff: String,
    /// Append-only history. Never rewritten.
    pub log: String,
    pub path: String,
}

/// A stage whose recorded status disagrees with its artifact on disk.
#[derive(Debug, Clone)]
pub struct Drift {
    pub stage: String,
    pub message: String,
}

/// Whether a status is settled one way or another.
pub open spec fn settled(s: StageStatus) -> bool {
    s == StageStatus::Done || s == StageStatus::Skipped
}

/// Whether a status is still open: pending or in progress.
pub open spec fn unsettled(s: StageStatus) -> bool {
    s == StageStatus::Pending || s == StageStatus::InProgress
}

/// The first position in `s` whose stage has status `st`.
pub open spec fn first_with(s: Seq<StageRecord>, st: StageStatus) -> Option<int> {
    if exists|i: int| 0 <= i < s.len() && s[i].status == st {
        Some(
            choose|i: int|
                0 <= i < s.len() && s[i].status == st && forall|j: int|
                    0 <= j < i ==> s[j].status != st,
        )
    } else {
        None
    }
}

/// The stage a run is on: the first in progress, else the first pending.
pub open spec fn current_spec(s: Seq<StageRecord>) -> Option<int> {
    match first_with(s, StageStatus::InProgress) {
        Some(i) => Some(i),
        None => first_with(s, StageStatus::Pending),
    }
}

/// How many of the stages are settled.
pub open spec fn settled_count(s: Seq<StageRecord>) -> nat
    decreases s.len(),
{
    if s.len() == 0 {
        0
    } else {
        settled_count(s.drop_last()) + if settled(s.last().status) {
            1nat
        } else {
            0nat
        }
    }
}

pub proof fn lemma_first_with_is(s: Seq<StageRecord>, st: StageStatus, i: int)
    requires
        0 <= i < s.len(),
        s[i].status == st,
        forall|j: int| 0 <= j < i ==> s[j].status != st,
    ensures
        first_with(s, st) == Some(i),
{
    let k = choose|k: int|
        0 <= k < s.len() && s[k].status == st && forall|j: int| 0 <= j < k ==> s[j].status != st;
    assert(0 <= k < s.len() && s[k].status == st);
    if k < i {
        assert(s[k].status != st);
    }
    if i < k {
        assert(s[i].status != st);
    }
}

/// What `first_with` returns satisfies its defining property.
pub proof fn lemma_first_with_props(s: Seq<StageRecord>, st: StageStatus)
    ensures
        match first_with(s, st) {
            Some(i) => 0 <= i < s.len() && s[i].status == st && forall|j: int|
                0 <= j < i ==> s[j].status != st,
            None => forall|j: int| 0 <= j < s.len() ==> s[j].status != st,
        },
{
    if exists|i: int| 0 <= i < s.len() && s[i].status == st {
        let w = choose|w: int| 0 <= w < s.len() && s[w].status == st;
        lemma_least_with(s, st, w);
    }
}

proof fn lemma_least_with(s: Seq<StageRecord>, st: StageStatus, w: int)
    requires
        0 <= w < s.len(),
        s[w].status == st,
    ensures
        exists|i: int|
            0 <= i < s.len() && s[i].status == st && forall|j: int| 0 <= j < i ==> s[j].status != st,
    decreases w,
{
    if exists|j: int| 0 <= j < w && s[j].status == st {
        let j = choose|j: int| 0 <= j < w && s[j].status == st;
        lemma_least_with(s, st, j);
    } else {
        assert(forall|j: int| 0 <= j < w ==> s[j].status != st);
    }
}

/// What `current_spec` returns is in range.
pub proof fn lemma_current_props(s: Seq<StageRecord>)
    ensures
        current_spec(s) matches Some(i) ==> 0 <= i < s.len() && unsettled(s[i].status),
        current_spec(s) is None ==> forall|j: int| 0 <= j < s.len() ==> settled(#[trigger] s[j].status),
{
    lemma_first_with_props(s, StageStatus::InProgress);
    lemma_first_with_props(s, StageStatus::Pending);
    if current_spec(s) is None {
        assert forall|j: int| 0 <= j < s.len() implies settled(#[trigger] s[j].status) by {
            assert(s[j].status != StageStatus::InProgress);
            assert(s[j].status != StageStatus::Pending);
        }
    }
}

/// The first position at or after `from` whose stage has status `st`.
fn position_from(s: &Vec<StageRecord>, st: StageStatus) -> (r: Option<usize>)
    ensures
        match r {
            Some(i) => first_with(s@, st) == Some(i as int),
            None => first_with(s@, st) is None,
        },
{
    let mut i: usize = 0;
    while i < s.len()
        invariant
            i <= s.len(),
            forall|j: int| 0 <= j < i ==> s@[j].status != st,
        decreases s.len() - i,
    {
        if s[i].status == st {
            proof {
                lemma_first_with_is(s@, st, i as int);
            }
            return Some(i);
        }
        i = i + 1;
    }
    None
}

/// Whether `r` is the fresh record of the stage at position `i` of `flow`,
/// opened at `stamp` when `i` is the first.
pub open spec fn fresh_record(r: StageRecord, flow: Flow, i: int, stamp: Seq<char>) -> bool {
    &&& r.name@ == flow.stages@[i].name@
    &&& r.status == if i == 0 {
        StageStatus::InProgress
    } else {
        StageStatus::Pending
    }
    &&& r.artifact is None
    &&& opt_string_view(r.started) == if i == 0 {
        Some(stamp)
    } else {
        None::<Seq<char>>
    }
    &&& r.completed is None
    &&& !r.reopened
}

/// Whether `run` is a new run of `flow` called `slug`, made at `stamp`.
pub open spec fn fresh_run(
    run: Run,
    slug: Seq<char>,
    title: Seq<char>,
    kind: Seq<char>,
    flow: Flow,
    stamp: Seq<char>,
) -> bool {
    &&& run.meta.slug@ == slug
    &&& run.meta.title@ == title
    &&& run.meta.kind@ == kind
    &&& run.meta.flow@ == flow.name@
    &&& run.meta.status == RunStatus::Active
    &&& run.meta.created@ == stamp
    &&& run.meta.updated@ == stamp
    &&& run.meta.stages@.len() == flow.stages@.len()
    &&& forall|i: int|
        0 <= i < flow.stages@.len() ==> fresh_record(#[trigger] run.meta.stages@[i], flow, i, stamp)
    &&& run.handoff@.len() == 0
    &&& run.log@.len() == 0
    &&& run.path@.len() == 0
}

/// What character `i` of a time stamp `s` may be, counted from its end:
/// `YYYY-MM-DDTHH:MM:SS.mmmZ`, where the year has four digits or more and,
/// past the year 9999, a leading `+`.
pub open spec fn stamp_char_fits(s: Seq<char>, i: int) -> bool {
    let k = s.len() - i;
    let u = s[i] as u32;
    let digit = 0x30 <= u <= 0x39;
    if k == 1 {
        s[i] == 'Z'
    } else if k == 5 {
        s[i] == '.'
    } else if k == 8 || k == 11 {
        s[i] == ':'
    } else if k == 14 {
        s[i] == 'T'
    } else if k == 17 || k == 20 {
        s[i] == '-'
    } else if i == 0 {
        digit || s[i] == '+'
    } else {
        digit
    }
}

/// A UTC time stamp with millisecond precision, as `now` writes one.
pub open spec fn is_utc_stamp(s: Seq<char>) -> bool {
    &&& s.len() >= 24
    &&& forall|i: int| 0 <= i < s.len() ==> #[trigger] stamp_char_fits(s, i)
}

/// What the system clock reads: whole seconds since the Unix epoch and the
/// nanoseconds past the last of them.
///
/// Calls `SystemTime::now().duration_since(UNIX_EPOCH)`, which is an error
/// when the clock reads before the epoch; that gives `None`. `Duration`'s
/// `subsec_nanos` is documented to be under one billion. Which time it reads
/// is left unsaid: that is the clock's.
#[verifier::external_body]
fn clock() -> (r: Option<(u64, u32)>)
    ensures
        r matches Some((_, n)) ==> n < 1_000_000_000,
{
    match std::time::SystemTime::now().duration_since(std::time::UNIX_EPOCH) {
        Ok(d) => Some((d.as_secs(), d.subsec_nanos())),
        Err(_) => None,
    }
}

/// The text chrono writes, with `%Y-%m-%dT%H:%M:%S%.3fZ`, for the UTC time
/// `secs` seconds and `nanos` nanoseconds after the Unix epoch; `None` when
/// that time lies outside the dates chrono can hold.
pub uninterp spec fn utc_text(secs: i64, nanos: u32) -> Option<Seq<char>>;

/// The UTC time `secs` seconds and `nanos` nanoseconds after the Unix epoch,
/// written `YYYY-MM-DDTHH:MM:SS.mmmZ`.
///
/// Calls `chrono::DateTime::from_timestamp`, which returns `None` for a time
/// outside chrono's range of dates, and formats what it gives. The result
/// is named by `utc_text`. Its shape is stated for times from the epoch on:
/// chrono writes the year as four digits from 1970 to 9999 and as `+` and its
/// digits past 9999, each other field as two digits, and the milliseconds
/// as `.` and three digits.
#[verifier::external_body]
fn utc_stamp(secs: i64, nanos: u32) -> (r: Option<String>)
    ensures
        opt_string_view(r) == utc_text(secs, nanos),
        secs >= 0 && nanos < 1_000_000_000 ==> (r matches Some(s) ==> is_utc_stamp(s@)),
{
    match chrono::DateTime::from_timestamp(secs, nanos) {
        Some(t) => Some(t.format("%Y-%m-%dT%H:%M:%S%.3fZ").to_string()),
        None => None,
    }
}

/// The current time, UTC, with millisecond precision, as text; `None` when
/// the clock reads before 1970 or past any date a stamp can be written for.
pub fn now() -> (r: Option<String>)
    ensures
        r matches Some(s) ==> is_utc_stamp(s@),
{
    match clock() {
        Some((secs, nanos)) => {
            if secs <= 0x7fff_ffff_ffff_ffffu64 {
                utc_stamp(secs as i64, nanos)
            } else {
                None
            }
        },
        None => None,
    }
}

/// A copy of an optional string.
pub fn copy_opt(o: &Option<String>) -> (r: Option<String>)
    ensures
        r == *o,
{
    match o {
        Some(s) => Some(s.clone()),
        None => None,
    }
}

/// A copy of a stage record.
pub fn copy_record(r: &StageRecord) -> (c: StageRecord)
    ensures
        c == *r,
{
    StageRecord {
        name: r.name.clone(),
        status: r.status,
        artifact: copy_opt(&r.artifact),
        started: copy_opt(&r.started),
        completed: copy_opt(&r.completed),
        reopened: r.reopened,
    }
}

/// `<root>/.flow/runs/<slug>.md`.
pub open spec fn run_path_spec(root: Seq<char>, slug: Seq<char>) -> Seq<char> {
    join_seq(runs_dir_spec(root), slug + ".md"@)
}

/// `stamp` without its trailing `Z`s.
pub open spec fn strip_trailing_z(s: Seq<char>) -> Seq<char>
    decreases s.len(),
{
    if s.len() > 0 && s.last() == 'Z' {
        strip_trailing_z(s.drop_last())
    } else {
        s
    }
}

/// A timestamp trimmed to whole seconds: everything before its first `.`,
/// or, without one, the stamp less its trailing `Z`s.
pub open spec fn to_seconds_spec(stamp: Seq<char>) -> Seq<char> {
    match first_occurrence(stamp, "."@) {
        Some(i) => stamp.take(i),
        None => strip_trailing_z(stamp),
    }
}

/// The same instant trimmed to seconds, for log headings a human reads.
pub fn to_seconds(stamp: &str) -> (r: String)
    ensures
        r@ == to_seconds_spec(stamp@),
{
    let v = chars_of(stamp);
    proof {
        crate::text::lemma_first_occurrence_props(stamp@, "."@);
    }
    match find(stamp, ".") {
        Some(i) => {
            assert(v@.subrange(0, i as int) =~= v@.take(i as int));
            string_of_range(&v, 0, i)
        },
        None => {
            let mut n = v.len();
            assert(v@.take(n as int) =~= v@);
            while n > 0 && v[n - 1] == 'Z'
                invariant
                    n <= v.len(),
                    v@ == stamp@,
                    strip_trailing_z(stamp@) == strip_trailing_z(v@.take(n as int)),
                decreases n,
            {
                assert(v@.take(n as int).drop_last() =~= v@.take(n - 1));
                n = n - 1;
            }
            assert(v@.subrange(0, n as int) =~= v@.take(n as int));
            string_of_range(&v, 0, n)
        },
    }
}

/// The slug built so far from `s`, and whether a separator is owed before
/// the next letter or digit.
pub open spec fn slug_state(s: Seq<char>) -> (Seq<char>, bool)
    decreases s.len(),
{
    if s.len() == 0 {
        (Seq::empty(), false)
    } else {
        let (out, pending) = slug_state(s.drop_last());
        let c = s.last();
        if is_ascii_alnum(c) {
            (
                if pending && out.len() > 0 {
                    out + seq!['-']
                } else {
                    out
                }.push(ascii_lower(c)),
                false,
            )
        } else {
            (out, true)
        }
    }
}

/// The slug of a title: its ASCII letters and digits, lower-cased, with each
/// run of anything else between two of them collapsed to a single `-`.
pub open spec fn slugify_spec(title: Seq<char>) -> Seq<char> {
    slug_state(title).0
}

/// Lowercase, non-alphanumerics collapsed to single hyphens, trimmed.
pub fn slugify(title: &str) -> (r: String)
    ensures
        r@ == slugify_spec(title@),
{
    let v = chars_of(title);
    let mut out = String::new();
    let mut pending = false;
    let mut i: usize = 0;
    while i < v.len()
        invariant
            i <= v.len(),
            v@ == title@,
            (out@, pending) == slug_state(v@.take(i as int)),
        decreases v.len() - i,
    {
        assert(v@.take(i + 1).drop_last() =~= v@.take(i as int));
        let c = v[i];
        if is_alnum(c) {
            if pending && !out.as_str().is_empty() {
                push_char(&mut out, '-');
            }
            pending = false;
            push_char(&mut out, to_ascii_lower(c));
        } else {
            pending = true;
        }
        i = i + 1;
    }
    assert(v@.take(i as int) =~= v@);
    out
}

/// The note a transition records: what was given, trimmed, or nothing.
pub open spec fn note_text(note: Option<Seq<char>>) -> Seq<char> {
    match note {
        Some(n) => trim_seq(n),
        None => Seq::empty(),
    }
}

/// The handoff a transition leaves: its headline, then the note if there is one.
pub open spec fn handoff_text(headline: Seq<char>, note: Seq<char>) -> Seq<char> {
    if note.len() == 0 {
        headline
    } else {
        headline + "\n\n"@ + note
    }
}

/// The log entry a transition appends.
pub open spec fn log_entry(headline: Seq<char>, note: Seq<char>, stamp: Seq<char>) -> Seq<char> {
    "### "@ + to_seconds_spec(stamp) + "Z — "@ + headline + "\n"@ + if note.len() == 0 {
        Seq::<char>::empty()
    } else {
        "\n"@ + note + "\n"@
    }
}

/// The log with `entry` appended: the entry alone when the log is blank,
/// otherwise after a blank line.
pub open spec fn appended_log(log: Seq<char>, entry: Seq<char>) -> Seq<char> {
    if trim_seq(log).len() == 0 {
        entry
    } else {
        trim_end_seq(log) + "\n\n"@ + entry
    }
}

/// The run after recording `headline` and `note` at `stamp`: the handoff
/// replaced, one entry appended to the log, and nothing else touched.
pub open spec fn recorded(
    before: Run,
    after: Run,
    headline: Seq<char>,
    note: Option<Seq<char>>,
    stamp: Seq<char>,
) -> bool {
    &&& after.meta == before.meta
    &&& after.path == before.path
    &&& after.handoff@ == handoff_text(headline, note_text(note))
    &&& after.log@ == appended_log(before.log@, log_entry(headline, note_text(note), stamp))
}

impl Run {
    /// Replace the handoff wholesale and append one entry to the log, stamped
    /// `stamp`.
    pub fn record_at(&mut self, headline: &str, note: Option<&str>, stamp: &str)
        ensures
            recorded(*old(self), *final(self), headline@, crate::flow::opt_view(note), stamp@),
    {
        let note_s = match note {
            Some(n) => trim(n),
            None => String::new(),
        };
        let has_note = !note_s.as_str().is_empty();
        let mut handoff = owned(headline);
        if has_note {
            push_str(&mut handoff, "\n\n");
            push_str(&mut handoff, note_s.as_str());
        }
        assert(handoff@ =~= handoff_text(headline@, note_text(crate::flow::opt_view(note))));
        self.handoff = handoff;
        let mut entry = owned("### ");
        let secs = to_seconds(stamp);
        push_str(&mut entry, secs.as_str());
        push_str(&mut entry, "Z — ");
        push_str(&mut entry, headline);
        push_str(&mut entry, "\n");
        if has_note {
            push_str(&mut entry, "\n");
            push_str(&mut entry, note_s.as_str());
            push_str(&mut entry, "\n");
        }
        assert(entry@ =~= log_entry(headline@, note_text(crate::flow::opt_view(note)), stamp@));
        if is_blank(self.log.as_str()) {
            self.log = entry;
        } else {
            let mut log = trim_end(self.log.as_str());
            push_str(&mut log, "\n\n");
            push_str(&mut log, entry.as_str());
            self.log = log;
        }
    }

    /// Record `headline` and `note`, stamped now; refused, with the run as it
    /// was, when the clock cannot be read.
    pub fn record(&mut self, headline: &str, note: Option<&str>) -> (r: Result<(), FlowError>)
        ensures
            match r {
                Ok(()) => exists|stamp: Seq<char>|
                    is_utc_stamp(stamp) && recorded(
                        *old(self),
                        *final(self),
                        headline@,
                        crate::flow::opt_view(note),
                        stamp,
                    ),
                Err(e) => e == FlowError::ClockUnreadable && *final(self) == *old(self),
            },
    {
        match now() {
            Some(stamp) => {
                self.record_at(headline, note, stamp.as_str());
                assert(is_utc_stamp(stamp@) && recorded(
                    *old(self),
                    *self,
                    headline@,
                    crate::flow::opt_view(note),
                    stamp@,
                ));
                Ok(())
            },
            None => Err(FlowError::ClockUnreadable),
        }
    }
}

impl Run {
    /// Where the run called `slug` is kept.
    pub fn path_for(root: &str, slug: &str) -> (p: String)
        ensures
            p@ == run_path_spec(root@, slug@),
    {
        let dir = crate::flow::runs_dir(root);
        let mut name = owned(slug);
        push_str(&mut name, ".md");
        crate::path::join(dir.as_str(), name.as_str())
    }

    /// A new run of `flow`: its first stage in progress since `stamp`, every
    /// other stage pending, and nothing written yet.
    pub fn new_at(slug: String, title: String, kind: String, flow: &Flow, stamp: &str) -> (run: Run)
        ensures
            fresh_run(run, slug@, title@, kind@, *flow, stamp@),
    {
        let mut stages: Vec<StageRecord> = Vec::new();
        let mut i: usize = 0;
        while i < flow.stages.len()
            invariant
                i <= flow.stages.len(),
                stages@.len() == i,
                forall|j: int| 0 <= j < i ==> fresh_record(#[trigger] stages@[j], *flow, j, stamp@),
            decreases flow.stages.len() - i,
        {
            let rec = StageRecord {
                name: flow.stages[i].name.clone(),
                status: if i == 0 {
                    StageStatus::InProgress
                } else {
                    StageStatus::Pending
                },
                artifact: None,
                started: if i == 0 {
                    Some(owned(stamp))
                } else {
                    None
                },
                completed: None,
                reopened: false,
            };
            stages.push(rec);
            i = i + 1;
        }
        Run {
            meta: RunMeta {
                slug,
                title,
                kind,
                flow: flow.name.clone(),
                status: RunStatus::Active,
                created: owned(stamp),
                updated: owned(stamp),
                stages,
            },
            handoff: String::new(),
            log: String::new(),
            path: String::new(),
        }
    }

    /// A new run of `flow`, made now; refused when the clock cannot be read.
    pub fn new(slug: String, title: String, kind: String, flow: &Flow) -> (r: Result<Run, FlowError>)
        ensures
            match r {
                Ok(run) => fresh_run(run, slug@, title@, kind@, *flow, run.meta.created@)
                    && is_utc_stamp(run.meta.created@),
                Err(e) => e == FlowError::ClockUnreadable,
            },
    {
        match now() {
            Some(stamp) => Ok(Run::new_at(slug, title, kind, flow, stamp.as_str())),
            None => Err(FlowError::ClockUnreadable),
        }
    }

    /// The index of the stage this run is on: the first in-progress stage, else
    /// the first pending one. `None` once every stage is done or skipped.
    pub fn current_index(&self) -> (r: Option<usize>)
        ensures
            match r {
                Some(i) => current_spec(self.meta.stages@) == Some(i as int),
                None => current_spec(self.meta.stages@) is None,
            },
    {
        match position_from(&self.meta.stages, StageStatus::InProgress) {
            Some(i) => Some(i),
            None => position_from(&self.meta.stages, StageStatus::Pending),
        }
    }

    /// The name of the stage this run is on.
    pub fn current_stage_name(&self) -> (r: Option<&str>)
        ensures
            match current_spec(self.meta.stages@) {
                Some(i) => r matches Some(n) && n@ == self.meta.stages@[i].name@,
                None => r is None,
            },
    {
        proof {
            lemma_current_props(self.meta.stages@);
        }
        match self.current_index() {
            Some(i) => Some(self.meta.stages[i].name.as_str()),
            None => None,
        }
    }

    /// Stages settled one way or another, over the total.
    pub fn progress(&self) -> (r: (usize, usize))
        ensures
            r.0 == settled_count(self.meta.stages@),
            r.1 == self.meta.stages@.len(),
    {
        let mut done: usize = 0;
        let mut i: usize = 0;
        while i < self.meta.stages.len()
            invariant
                i <= self.meta.stages.len(),
                done == settled_count(self.meta.stages@.take(i as int)),
                done <= i,
            decreases self.meta.stages.len() - i,
        {
            assert(self.meta.stages@.take(i + 1).drop_last() =~= self.meta.stages@.take(i as int));
            let st = self.meta.stages[i].status;
            if st == StageStatus::Done || st == StageStatus::Skipped {
                done = done + 1;
            }
            i = i + 1;
        }
        assert(self.meta.stages@.take(i as int) =~= self.meta.stages@);
        (done, self.meta.stages.len())
    }

    /// Whether the run has been finished.
    pub fn is_finished(&self) -> (b: bool)
        ensures
            b == (self.meta.status == RunStatus::Finished),
    {
        self.meta.status == RunStatus::Finished
    }
}

} // verus!
