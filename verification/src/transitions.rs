//! Moving a run through its stages: completing, skipping, sending back,
//! finishing and reopening. Each move changes the stage records it is about,
//! then records a headline — the handoff replaced, one entry appended to the
//! log.
use crate::error::FlowError;
use crate::flow::{opt_string_view, opt_view, Flow, Stage};
use crate::run::{
    copy_record, current_spec, lemma_current_props, recorded, settled, unsettled, Run, RunMeta,
    RunStatus, StageRecord, StageStatus,
};
use crate::text::{first_in, lemma_first_in_is, lemma_first_in_props, owned, push_str, str_eq};
use vstd::prelude::*;

verus! {

/// The first open stage after `index`.
pub open spec fn next_open(s: Seq<StageRecord>, index: int) -> Option<int> {
    first_in(index + 1, s.len() as int, |j: int| unsettled(s[j].status))
}

/// What `next_open` returns is the first open stage after `index`.
pub proof fn lemma_next_open(s: Seq<StageRecord>, index: int)
    ensures
        match next_open(s, index) {
            Some(n) => index < n < s.len() && unsettled(s[n].status) && forall|j: int|
                index < j < n ==> !unsettled(#[trigger] s[j].status),
            None => forall|j: int| index < j < s.len() ==> !unsettled(#[trigger] s[j].status),
        },
{
    let p = |j: int| unsettled(s[j].status);
    lemma_first_in_props(index + 1, s.len() as int, p);
    match next_open(s, index) {
        Some(n) => {
            assert forall|j: int| index < j < n implies !unsettled(#[trigger] s[j].status) by {
                assert(!p(j));
            }
        },
        None => {
            assert forall|j: int| index < j < s.len() implies !unsettled(#[trigger] s[j].status) by {
                assert(!p(j));
            }
        },
    }
}

/// Opening looks only past `index`, so two stage lists that agree there open
/// the same stage.
proof fn lemma_next_open_same(s: Seq<StageRecord>, t: Seq<StageRecord>, index: int)
    requires
        s.len() == t.len(),
        forall|j: int| index < j < s.len() ==> s[j] == t[j],
    ensures
        next_open(s, index) == next_open(t, index),
{
    lemma_next_open(s, index);
    lemma_next_open(t, index);
    match next_open(s, index) {
        Some(n) => {
            match next_open(t, index) {
                Some(m) => {
                    if m < n {
                        assert(unsettled(t[m].status));
                        assert(s[m] == t[m]);
                    }
                    if n < m {
                        assert(unsettled(s[n].status));
                        assert(s[n] == t[n]);
                    }
                },
                None => {
                    assert(s[n] == t[n]);
                },
            }
        },
        None => {
            match next_open(t, index) {
                Some(m) => {
                    assert(s[m] == t[m]);
                },
                None => {},
            }
        },
    }
}

/// The first record called `name`.
pub open spec fn record_named(s: Seq<StageRecord>, name: Seq<char>) -> Option<int> {
    if exists|j: int| 0 <= j < s.len() && #[trigger] named_at(s, name, j) {
        Some(
            choose|j: int|
                0 <= j < s.len() && #[trigger] named_at(s, name, j) && forall|k: int|
                    0 <= k < j ==> !#[trigger] named_at(s, name, k),
        )
    } else {
        None
    }
}

/// Whether record `j` is called `name`.
pub open spec fn named_at(s: Seq<StageRecord>, name: Seq<char>, j: int) -> bool {
    s[j].name@ == name
}

proof fn lemma_least_named(s: Seq<StageRecord>, name: Seq<char>, w: int)
    requires
        0 <= w < s.len(),
        s[w].name@ == name,
    ensures
        exists|j: int|
            0 <= j < s.len() && #[trigger] named_at(s, name, j) && forall|k: int|
                0 <= k < j ==> !#[trigger] named_at(s, name, k),
    decreases w,
{
    if exists|k: int| 0 <= k < w && #[trigger] named_at(s, name, k) {
        let k = choose|k: int| 0 <= k < w && #[trigger] named_at(s, name, k);
        lemma_least_named(s, name, k);
    } else {
        assert(named_at(s, name, w));
    }
}

/// What `record_named` returns is the first record called `name`.
pub proof fn lemma_record_named_props(s: Seq<StageRecord>, name: Seq<char>)
    ensures
        match record_named(s, name) {
            Some(i) => 0 <= i < s.len() && s[i].name@ == name && forall|j: int|
                0 <= j < i ==> s[j].name@ != name,
            None => forall|j: int| 0 <= j < s.len() ==> s[j].name@ != name,
        },
{
    if exists|j: int| 0 <= j < s.len() && #[trigger] named_at(s, name, j) {
        let w = choose|w: int| 0 <= w < s.len() && #[trigger] named_at(s, name, w);
        lemma_least_named(s, name, w);
    }
    match record_named(s, name) {
        Some(i) => {
            assert(named_at(s, name, i));
            assert forall|j: int| 0 <= j < i implies s[j].name@ != name by {
                assert(!named_at(s, name, j));
            }
        },
        None => {
            assert forall|j: int| 0 <= j < s.len() implies s[j].name@ != name by {
                assert(!named_at(s, name, j));
            }
        },
    }
}

/// The first stage of a flow called `name`.
pub open spec fn stage_named(s: Seq<Stage>, name: Seq<char>) -> Option<int> {
    first_in(0, s.len() as int, |j: int| s[j].name@ == name)
}

/// Everything about a run but its stages, its status, its handoff and its log
/// is the same in `a` and `b`.
pub open spec fn same_identity(a: Run, b: Run) -> bool {
    &&& a.meta.slug == b.meta.slug
    &&& a.meta.title == b.meta.title
    &&& a.meta.kind == b.meta.kind
    &&& a.meta.flow == b.meta.flow
    &&& a.meta.created == b.meta.created
    &&& a.meta.updated == b.meta.updated
    &&& a.path == b.path
}

/// `after` is `before` settled with `status` at `stamp`, recording
/// `artifact` when one is given.
pub open spec fn settled_record(
    before: StageRecord,
    after: StageRecord,
    status: StageStatus,
    stamp: Seq<char>,
    artifact: Option<Seq<char>>,
) -> bool {
    &&& after.name == before.name
    &&& after.status == status
    &&& opt_string_view(after.artifact) == match artifact {
        Some(a) => Some(a),
        None => opt_string_view(before.artifact),
    }
    &&& after.started == before.started
    &&& opt_string_view(after.completed) == Some(stamp)
    &&& !after.reopened
}

/// `after` is `before` opened: in progress, started at `stamp` unless it had
/// been started before.
pub open spec fn opened_record(before: StageRecord, after: StageRecord, stamp: Seq<char>) -> bool {
    &&& after.name == before.name
    &&& after.status == StageStatus::InProgress
    &&& after.artifact == before.artifact
    &&& opt_string_view(after.started) == match before.started {
        Some(s) => Some(s@),
        None => Some(stamp),
    }
    &&& after.completed == before.completed
    &&& after.reopened == before.reopened
}

/// The stages after settling stage `index` with `status` and opening the next
/// open stage after it; every other stage is as it was.
pub open spec fn advanced(
    before: Seq<StageRecord>,
    after: Seq<StageRecord>,
    index: int,
    status: StageStatus,
    stamp: Seq<char>,
    artifact: Option<Seq<char>>,
) -> bool {
    &&& after.len() == before.len()
    &&& settled_record(before[index], after[index], status, stamp, artifact)
    &&& match next_open(before, index) {
        Some(n) => opened_record(before[n], after[n], stamp) && forall|j: int|
            0 <= j < before.len() && j != index && j != n ==> after[j] == before[j],
        None => forall|j: int| 0 <= j < before.len() && j != index ==> after[j] == before[j],
    }
}

/// The headline of settling the stage `name` with `verb`, naming the stage
/// that opens next, if any.
pub open spec fn advance_headline(name: Seq<char>, verb: Seq<char>, next: Option<Seq<char>>) -> Seq<
    char,
> {
    match next {
        Some(n) => "`"@ + name + "` "@ + verb + " → `"@ + n + "`"@,
        None => "`"@ + name + "` "@ + verb + " — every stage settled"@,
    }
}

/// The name of the stage that opens after `index`, if any.
pub open spec fn next_name(s: Seq<StageRecord>, index: int) -> Option<Seq<char>> {
    match next_open(s, index) {
        Some(n) => Some(s[n].name@),
        None => None,
    }
}

/// The stage `flow back` returns to, or why it refuses: the stage named, or
/// else the one before the current stage (the last stage when none is
/// current); it must lie before the current stage.
pub open spec fn back_target(s: Seq<StageRecord>, stage: Option<Seq<char>>) -> Option<int> {
    let anchor = match current_spec(s) {
        Some(i) => i,
        None => s.len() as int,
    };
    let target = match stage {
        Some(n) => record_named(s, n),
        None => if anchor == 0 {
            None
        } else {
            Some(anchor - 1)
        },
    };
    match target {
        Some(t) => if t < anchor {
            Some(t)
        } else {
            None
        },
        None => None,
    }
}

/// The record at position `j` after sending a run back to `target` at `stamp`.
pub open spec fn sent_back_record(
    before: StageRecord,
    after: StageRecord,
    j: int,
    target: int,
    stamp: Seq<char>,
) -> bool {
    if j < target {
        after == before
    } else {
        &&& after.name == before.name
        &&& after.status == if j == target {
            StageStatus::InProgress
        } else {
            StageStatus::Pending
        }
        &&& after.artifact == before.artifact
        &&& if j == target {
            opt_string_view(after.started) == Some(stamp)
        } else {
            after.started == before.started
        }
        &&& after.completed is None
        &&& after.reopened == (before.reopened || settled(before.status))
    }
}

/// The headline of sending a run back to the stage `name`.
pub open spec fn back_headline(name: Seq<char>) -> Seq<char> {
    "sent back to `"@ + name + "`"@
}

/// The position of the first record called `name`.
fn find_record(s: &Vec<StageRecord>, name: &str) -> (r: Option<usize>)
    ensures
        match r {
            Some(i) => record_named(s@, name@) == Some(i as int),
            None => record_named(s@, name@) is None,
        },
{
    let mut i: usize = 0;
    while i < s.len()
        invariant
            i <= s.len(),
            forall|j: int| 0 <= j < i ==> s@[j].name@ != name@,
        decreases s.len() - i,
    {
        if str_eq(s[i].name.as_str(), name) {
            proof {
                lemma_record_named_props(s@, name@);
                let k = record_named(s@, name@)->0;
                if k < i {
                    assert(s@[k].name@ != name@);
                }
                if i < k {
                    assert(s@[i as int].name@ != name@);
                }
            }
            return Some(i);
        }
        i = i + 1;
    }
    proof {
        lemma_record_named_props(s@, name@);
        if record_named(s@, name@) is Some {
            let k = record_named(s@, name@)->0;
            assert(s@[k].name@ != name@);
        }
    }
    None
}

/// The position of the first stage of a flow called `name`.
pub fn find_stage(s: &Vec<Stage>, name: &str) -> (r: Option<usize>)
    ensures
        match r {
            Some(i) => stage_named(s@, name@) == Some(i as int),
            None => stage_named(s@, name@) is None,
        },
{
    let ghost p = |j: int| s@[j].name@ == name@;
    let mut i: usize = 0;
    while i < s.len()
        invariant
            i <= s.len(),
            p == (|j: int| s@[j].name@ == name@),
            forall|j: int| 0 <= j < i ==> !#[trigger] p(j),
        decreases s.len() - i,
    {
        if str_eq(s[i].name.as_str(), name) {
            proof {
                lemma_first_in_is(0, s@.len() as int, p, i as int);
            }
            return Some(i);
        }
        i = i + 1;
    }
    proof {
        lemma_first_in_props(0, s@.len() as int, p);
    }
    None
}

impl Run {
    /// Open the next unsettled stage after `index`, returning its name.
    fn advance(&mut self, index: usize, stamp: &str) -> (r: Option<String>)
        requires
            index < old(self).meta.stages@.len(),
        ensures
            final(self).meta.stages@.len() == old(self).meta.stages@.len(),
            match next_open(old(self).meta.stages@, index as int) {
                Some(n) => opened_record(
                    old(self).meta.stages@[n],
                    final(self).meta.stages@[n],
                    stamp@,
                ) && (forall|j: int|
                    0 <= j < old(self).meta.stages@.len() && j != n ==> final(self).meta.stages@[j]
                        == old(self).meta.stages@[j]) && (r matches Some(name) && name@
                    == old(self).meta.stages@[n].name@),
                None => final(self).meta.stages@ == old(self).meta.stages@ && r is None,
            },
            final(self).meta.slug == old(self).meta.slug,
            final(self).meta.title == old(self).meta.title,
            final(self).meta.kind == old(self).meta.kind,
            final(self).meta.flow == old(self).meta.flow,
            final(self).meta.status == old(self).meta.status,
            final(self).meta.created == old(self).meta.created,
            final(self).meta.updated == old(self).meta.updated,
            final(self).path == old(self).path,
            final(self).handoff == old(self).handoff,
            final(self).log == old(self).log,
    {
        let ghost s = self.meta.stages@;
        let ghost p = |j: int| unsettled(s[j].status);
        assert(index < self.meta.stages.len());
        let mut j = index + 1;
        while j < self.meta.stages.len()
            invariant
                index < j <= self.meta.stages@.len(),
                *self == *old(self),
                self.meta.stages@ == s,
                p == (|j: int| unsettled(s[j].status)),
                forall|m: int| index + 1 <= m < j ==> !#[trigger] p(m),
            decreases self.meta.stages.len() - j,
        {
            let st = self.meta.stages[j].status;
            if st == StageStatus::Pending || st == StageStatus::InProgress {
                proof {
                    lemma_first_in_is(index + 1, s.len() as int, p, j as int);
                }
                let mut rec = copy_record(&self.meta.stages[j]);
                rec.status = StageStatus::InProgress;
                if rec.started.is_none() {
                    rec.started = Some(owned(stamp));
                }
                let name = rec.name.clone();
                self.meta.stages.set(j, rec);
                return Some(name);
            }
            j = j + 1;
        }
        proof {
            lemma_first_in_props(index + 1, s.len() as int, p);
        }
        None
    }

    /// Settle the current stage with `status` at `stamp`, recording
    /// `artifact` if given, and open the next one. Returns the name of the
    /// settled stage and of the one opened.
    #[verifier::rlimit(40)]
    fn settle_current(
        &mut self,
        index: usize,
        status: StageStatus,
        artifact: Option<&str>,
        stamp: &str,
    ) -> (r: (String, Option<String>))
        requires
            index < old(self).meta.stages@.len(),
        ensures
            advanced(
                old(self).meta.stages@,
                final(self).meta.stages@,
                index as int,
                status,
                stamp@,
                opt_view(artifact),
            ),
            r.0@ == old(self).meta.stages@[index as int].name@,
            opt_string_view(r.1) == next_name(old(self).meta.stages@, index as int),
            same_identity(*old(self), *final(self)),
            final(self).meta.status == old(self).meta.status,
            final(self).handoff == old(self).handoff,
            final(self).log == old(self).log,
    {
        let ghost s = self.meta.stages@;
        let mut rec = copy_record(&self.meta.stages[index]);
        rec.status = status;
        rec.completed = Some(owned(stamp));
        match artifact {
            Some(a) => {
                rec.artifact = Some(owned(a));
            },
            None => {},
        }
        rec.reopened = false;
        let name = rec.name.clone();
        self.meta.stages.set(index, rec);
        let ghost mid = self.meta.stages@;
        assert(settled_record(s[index as int], mid[index as int], status, stamp@, opt_view(artifact)));
        let next = self.advance(index, stamp);
        proof {
            // Opening only looks past `index`, so it sees the same stages as before.
            assert(mid == s.update(index as int, mid[index as int]));
            lemma_next_open_same(s, mid, index as int);
            lemma_next_open(s, index as int);
            match next_open(s, index as int) {
                Some(n) => {
                    assert(mid[n] == s[n]);
                },
                None => {},
            }
        }
        (name, next)
    }

    /// The stage in flight, or the refusal that every stage is settled.
    pub fn current_or_err(&self) -> (r: Result<usize, FlowError>)
        ensures
            match current_spec(self.meta.stages@) {
                Some(i) => r matches Ok(k) && k == i,
                None => r matches Err(FlowError::NothingInFlight { slug }) && slug == self.meta.slug,
            },
    {
        match self.current_index() {
            Some(i) => Ok(i),
            None => Err(FlowError::NothingInFlight { slug: self.meta.slug.clone() }),
        }
    }

    /// Mark the current stage done at `stamp` — recording `artifact` as what it
    /// produced, when given — open the next unsettled stage, and record the
    /// move with `message`. A finished run, or one with every stage settled,
    /// refuses and is left as it was.
    pub fn done(&mut self, message: Option<&str>, artifact: Option<&str>, stamp: &str) -> (r:
        Result<String, FlowError>)
        ensures
            old(self).meta.status == RunStatus::Finished ==> (r matches Err(
                FlowError::RunFinished { slug },
            ) && slug == old(self).meta.slug && *final(self) == *old(self)),
            old(self).meta.status == RunStatus::Active && current_spec(old(self).meta.stages@)
                is None ==> (r matches Err(FlowError::NothingInFlight { slug }) && slug == old(
                self,
            ).meta.slug && *final(self) == *old(self)),
            old(self).meta.status == RunStatus::Active ==> match current_spec(
                old(self).meta.stages@,
            ) {
                Some(c) => r matches Ok(h) && h@ == advance_headline(
                    old(self).meta.stages@[c].name@,
                    "done"@,
                    next_name(old(self).meta.stages@, c),
                ) && advanced(
                    old(self).meta.stages@,
                    final(self).meta.stages@,
                    c,
                    StageStatus::Done,
                    stamp@,
                    opt_view(artifact),
                ) && same_identity(*old(self), *final(self)) && final(self).meta.status
                    == RunStatus::Active && final(self).handoff@ == crate::run::handoff_text(
                    h@,
                    crate::run::note_text(opt_view(message)),
                ) && final(self).log@ == crate::run::appended_log(
                    old(self).log@,
                    crate::run::log_entry(h@, crate::run::note_text(opt_view(message)), stamp@),
                ),
                None => true,
            },
    {
        if self.is_finished() {
            return Err(FlowError::RunFinished { slug: self.meta.slug.clone() });
        }
        let index = match self.current_or_err() {
            Ok(i) => i,
            Err(e) => {
                return Err(e);
            },
        };
        proof {
            lemma_current_props(self.meta.stages@);
        }
        let (name, next) = self.settle_current(index, StageStatus::Done, artifact, stamp);
        let headline = headline_for(name.as_str(), "done", &next);
        self.record_at(headline.as_str(), message, stamp);
        Ok(headline)
    }

    /// Pass over the current stage at `stamp`, when `flow` marks it optional,
    /// and open the next unsettled stage; record the move with `message`.
    pub fn skip(&mut self, flow: &Flow, message: Option<&str>, stamp: &str) -> (r: Result<
        String,
        FlowError,
    >)
        ensures
            old(self).meta.status == RunStatus::Finished ==> (r matches Err(
                FlowError::RunFinished { slug },
            ) && slug == old(self).meta.slug && *final(self) == *old(self)),
            old(self).meta.status == RunStatus::Active && current_spec(old(self).meta.stages@)
                is None ==> (r matches Err(FlowError::NothingInFlight { slug }) && slug == old(
                self,
            ).meta.slug && *final(self) == *old(self)),
            old(self).meta.status == RunStatus::Active ==> match current_spec(
                old(self).meta.stages@,
            ) {
                Some(c) => match stage_named(flow.stages@, old(self).meta.stages@[c].name@) {
                    None => r matches Err(FlowError::NotAFlowStage { stage, flow: f }) && stage@
                        == old(self).meta.stages@[c].name@ && f == flow.name && *final(self) == *old(
                        self,
                    ),
                    Some(k) => if !flow.stages@[k].optional {
                        r matches Err(FlowError::NotOptional { stage }) && stage@ == old(
                            self,
                        ).meta.stages@[c].name@ && *final(self) == *old(self)
                    } else {
                        r matches Ok(h) && h@ == advance_headline(
                            old(self).meta.stages@[c].name@,
                            "skipped"@,
                            next_name(old(self).meta.stages@, c),
                        ) && advanced(
                            old(self).meta.stages@,
                            final(self).meta.stages@,
                            c,
                            StageStatus::Skipped,
                            stamp@,
                            None,
                        ) && same_identity(*old(self), *final(self)) && final(self).meta.status
                            == RunStatus::Active && final(self).handoff@
                            == crate::run::handoff_text(
                            h@,
                            crate::run::note_text(opt_view(message)),
                        ) && final(self).log@ == crate::run::appended_log(
                            old(self).log@,
                            crate::run::log_entry(
                                h@,
                                crate::run::note_text(opt_view(message)),
                                stamp@,
                            ),
                        )
                    },
                },
                None => true,
            },
    {
        if self.is_finished() {
            return Err(FlowError::RunFinished { slug: self.meta.slug.clone() });
        }
        let index = match self.current_or_err() {
            Ok(i) => i,
            Err(e) => {
                return Err(e);
            },
        };
        proof {
            lemma_current_props(self.meta.stages@);
        }
        let k = match find_stage(&flow.stages, self.meta.stages[index].name.as_str()) {
            Some(k) => k,
            None => {
                return Err(
                    FlowError::NotAFlowStage {
                        stage: self.meta.stages[index].name.clone(),
                        flow: flow.name.clone(),
                    },
                );
            },
        };
        proof {
            lemma_first_in_props(
                0,
                flow.stages@.len() as int,
                |j: int| flow.stages@[j].name@ == self.meta.stages@[index as int].name@,
            );
        }
        if !flow.stages[k].optional {
            return Err(FlowError::NotOptional { stage: self.meta.stages[index].name.clone() });
        }
        let (name, next) = self.settle_current(index, StageStatus::Skipped, None, stamp);
        let headline = headline_for(name.as_str(), "skipped", &next);
        self.record_at(headline.as_str(), message, stamp);
        Ok(headline)
    }
}

impl Run {
    /// Send the run back to an earlier stage at `stamp` — the one named by
    /// `stage`, or else the one before the current stage — unsettling it and
    /// everything after it, and record the move with `message`.
    #[verifier::rlimit(40)]
    pub fn back(&mut self, stage: Option<&str>, message: Option<&str>, stamp: &str) -> (r: Result<
        String,
        FlowError,
    >)
        ensures
            old(self).meta.status == RunStatus::Finished ==> (r matches Err(
                FlowError::RunFinished { slug },
            ) && slug == old(self).meta.slug && *final(self) == *old(self)),
            old(self).meta.status == RunStatus::Active ==> match back_target(
                old(self).meta.stages@,
                opt_view(stage),
            ) {
                Some(t) => (r matches Ok(h) && h@ == back_headline(old(self).meta.stages@[t].name@)
                    && final(self).meta.stages@.len() == old(self).meta.stages@.len() && (forall|
                    j: int|
                    0 <= j < old(self).meta.stages@.len() ==> sent_back_record(
                        #[trigger] old(self).meta.stages@[j],
                        final(self).meta.stages@[j],
                        j,
                        t,
                        stamp@,
                    )) && same_identity(*old(self), *final(self)) && final(self).meta.status
                    == RunStatus::Active && final(self).handoff@ == crate::run::handoff_text(
                    h@,
                    crate::run::note_text(opt_view(message)),
                ) && final(self).log@ == crate::run::appended_log(
                    old(self).log@,
                    crate::run::log_entry(h@, crate::run::note_text(opt_view(message)), stamp@),
                )),
                None => *final(self) == *old(self) && (r matches Err(e) && back_refusal(
                    old(self).meta,
                    opt_view(stage),
                    e,
                )),
            },
    {
        if self.is_finished() {
            return Err(FlowError::RunFinished { slug: self.meta.slug.clone() });
        }
        let target = match self.find_back_target(stage) {
            Ok(t) => t,
            Err(e) => {
                return Err(e);
            },
        };
        let ghost s = self.meta.stages@;
        self.unsettle_from(target, stamp);
        assert(sent_back_record(s[target as int], self.meta.stages@[target as int], target as int, target as int, stamp@));
        let name = self.meta.stages[target].name.clone();
        let mut headline = owned("sent back to `");
        push_str(&mut headline, name.as_str());
        push_str(&mut headline, "`");
        assert(headline@ == back_headline(s[target as int].name@));
        let ghost mid = self.meta;
        self.record_at(headline.as_str(), message, stamp);
        assert(self.meta == mid);
        Ok(headline)
    }

    /// The stage `back` returns to, or its refusal.
    #[verifier::rlimit(40)]
    fn find_back_target(&self, stage: Option<&str>) -> (r: Result<usize, FlowError>)
        ensures
            match r {
                Ok(t) => back_target(self.meta.stages@, opt_view(stage)) == Some(t as int) && t
                    < self.meta.stages@.len(),
                Err(e) => back_target(self.meta.stages@, opt_view(stage)) is None && back_refusal(
                    self.meta,
                    opt_view(stage),
                    e,
                ),
            },
    {
        let ghost s = self.meta.stages@;
        proof {
            lemma_current_props(s);
        }
        let anchor = match self.current_index() {
            Some(i) => i,
            None => self.meta.stages.len(),
        };
        let ghost a = match current_spec(s) {
            Some(i) => i,
            None => s.len() as int,
        };
        assert(anchor as int == a);
        let target = match stage {
            Some(name) => match find_record(&self.meta.stages, name) {
                Some(t) => t,
                None => {
                    return Err(FlowError::NotARunStage { stage: owned(name) });
                },
            },
            None => {
                if anchor == 0 {
                    return Err(FlowError::AtFirstStage { slug: self.meta.slug.clone() });
                }
                anchor - 1
            },
        };
        proof {
            match stage {
                Some(name) => {
                    lemma_record_named_props(s, name@);
                },
                None => {},
            }
        }
        if target >= anchor {
            return Err(FlowError::NotBehind { stage: self.meta.stages[target].name.clone() });
        }
        Ok(target)
    }

    /// Unsettle every stage from `target` on, opening `target` at `stamp`.
    fn unsettle_from(&mut self, target: usize, stamp: &str)
        requires
            target < old(self).meta.stages@.len(),
        ensures
            final(self).meta.stages@.len() == old(self).meta.stages@.len(),
            forall|j: int|
                0 <= j < old(self).meta.stages@.len() ==> sent_back_record(
                    #[trigger] old(self).meta.stages@[j],
                    final(self).meta.stages@[j],
                    j,
                    target as int,
                    stamp@,
                ),
            same_identity(*old(self), *final(self)),
            final(self).meta.status == old(self).meta.status,
            final(self).handoff == old(self).handoff,
            final(self).log == old(self).log,
    {
        let ghost s = self.meta.stages@;
        let mut j = target;
        while j < self.meta.stages.len()
            invariant
                target <= j <= self.meta.stages@.len(),
                target < s.len(),
                self.meta.stages@.len() == s.len(),
                same_identity(*old(self), *self),
                self.meta.status == old(self).meta.status,
                self.handoff == old(self).handoff,
                self.log == old(self).log,
                s == old(self).meta.stages@,
                forall|m: int|
                    0 <= m < j ==> sent_back_record(
                        #[trigger] s[m],
                        self.meta.stages@[m],
                        m,
                        target as int,
                        stamp@,
                    ),
                forall|m: int| j <= m < s.len() ==> self.meta.stages@[m] == s[m],
            decreases self.meta.stages.len() - j,
        {
            let mut rec = copy_record(&self.meta.stages[j]);
            let was_settled = rec.status == StageStatus::Done || rec.status
                == StageStatus::Skipped;
            rec.reopened = rec.reopened || was_settled;
            rec.completed = None;
            if j == target {
                rec.status = StageStatus::InProgress;
                rec.started = Some(owned(stamp));
            } else {
                rec.status = StageStatus::Pending;
            }
            self.meta.stages.set(j, rec);
            j = j + 1;
        }
    }

    /// Mark the run finished, so it drops off the board, and record it.
    pub fn finish(&mut self, message: Option<&str>, stamp: &str) -> (r: Result<(), FlowError>)
        ensures
            old(self).meta.status == RunStatus::Finished ==> (r matches Err(
                FlowError::AlreadyFinished { slug },
            ) && slug == old(self).meta.slug && *final(self) == *old(self)),
            old(self).meta.status == RunStatus::Active ==> r is Ok && status_moved(
                *old(self),
                *final(self),
                RunStatus::Finished,
                "Run finished."@,
                opt_view(message),
                stamp@,
            ),
    {
        if self.is_finished() {
            return Err(FlowError::AlreadyFinished { slug: self.meta.slug.clone() });
        }
        self.meta.status = RunStatus::Finished;
        self.record_at("Run finished.", message, stamp);
        Ok(())
    }

    /// Bring a finished run back onto the board, and record it.
    pub fn reopen(&mut self, message: Option<&str>, stamp: &str) -> (r: Result<(), FlowError>)
        ensures
            old(self).meta.status == RunStatus::Active ==> (r matches Err(
                FlowError::AlreadyActive { slug },
            ) && slug == old(self).meta.slug && *final(self) == *old(self)),
            old(self).meta.status == RunStatus::Finished ==> r is Ok && status_moved(
                *old(self),
                *final(self),
                RunStatus::Active,
                "Reopened."@,
                opt_view(message),
                stamp@,
            ),
    {
        if !self.is_finished() {
            return Err(FlowError::AlreadyActive { slug: self.meta.slug.clone() });
        }
        self.meta.status = RunStatus::Active;
        self.record_at("Reopened.", message, stamp);
        Ok(())
    }
}

/// `after` is `before` moved to `status` and recorded with `headline` and
/// `note` at `stamp`: its stages and identity untouched.
pub open spec fn status_moved(
    before: Run,
    after: Run,
    status: RunStatus,
    headline: Seq<char>,
    note: Option<Seq<char>>,
    stamp: Seq<char>,
) -> bool {
    &&& after.meta.status == status
    &&& after.meta.stages == before.meta.stages
    &&& same_identity(before, after)
    &&& after.handoff@ == crate::run::handoff_text(headline, crate::run::note_text(note))
    &&& after.log@ == crate::run::appended_log(
        before.log@,
        crate::run::log_entry(headline, crate::run::note_text(note), stamp),
    )
}

/// Which refusal `flow back` gives when it has no stage to return to: the
/// stage named is not in the run; or there is no stage before the current
/// one; or the stage named is not before the current one.
pub open spec fn back_refusal(
    meta: RunMeta,
    stage: Option<Seq<char>>,
    e: FlowError,
) -> bool {
    let s = meta.stages@;
    match stage {
        Some(n) => match record_named(s, n) {
            None => e matches FlowError::NotARunStage { stage } && stage@ == n,
            Some(t) => e matches FlowError::NotBehind { stage } && stage@ == s[t].name@,
        },
        None => e matches FlowError::AtFirstStage { slug } && slug == meta.slug,
    }
}

/// The headline of settling the stage `name` with `verb`.
fn headline_for(name: &str, verb: &str, next: &Option<String>) -> (h: String)
    ensures
        h@ == advance_headline(name@, verb@, opt_string_view(*next)),
{
    let mut h = owned("`");
    push_str(&mut h, name);
    push_str(&mut h, "` ");
    push_str(&mut h, verb);
    match next {
        Some(n) => {
            push_str(&mut h, " → `");
            push_str(&mut h, n.as_str());
            push_str(&mut h, "`");
        },
        None => {
            push_str(&mut h, " — every stage settled");
        },
    }
    h
}

} // verus!
