//! Drift: a stage whose recorded status disagrees with whether its artifact
//! is on disk. Reported, never resolved.
use crate::flow::{is_tracker_artifact, is_tracker_spec, opt_string_view, Flow};
use crate::run::{unsettled, Drift, Run, StageStatus};
use crate::text::{owned, push_str};
use crate::transitions::{find_stage, stage_named};
use vstd::prelude::*;

verus! {

/// How a status reads in a sentence.
pub open spec fn status_text(s: StageStatus) -> Seq<char> {
    match s {
        StageStatus::Pending => "pending"@,
        StageStatus::InProgress => "in progress"@,
        StageStatus::Done => "done"@,
        StageStatus::Skipped => "skipped"@,
    }
}

impl StageStatus {
    /// How the status reads in a sentence.
    pub fn label(&self) -> (r: &'static str)
        ensures
            r@ == status_text(*self),
    {
        match self {
            StageStatus::Pending => "pending",
            StageStatus::InProgress => "in progress",
            StageStatus::Done => "done",
            StageStatus::Skipped => "skipped",
        }
    }
}

/// The artifact stage record `i` of `run` is checked against on disk: what
/// the record says was produced, else what its stage in `flow` declares;
/// nothing for a stage the flow no longer has, for a stage that declares
/// nothing, or for an artifact on a tracker.
pub open spec fn checked_artifact(run: Run, flow: Flow, i: int) -> Option<Seq<char>> {
    let rec = run.meta.stages@[i];
    match stage_named(flow.stages@, rec.name@) {
        None => None,
        Some(k) => {
            let a = match rec.artifact {
                Some(x) => Some(x@),
                None => flow.stages@[k].artifact_for_spec(run.meta.slug@),
            };
            match a {
                Some(x) => if is_tracker_spec(x) {
                    None
                } else {
                    Some(x)
                },
                None => None,
            }
        },
    }
}

/// The drift of stage record `i`, given whether its artifact is present: a
/// done stage whose artifact is missing, or an open stage — not reopened on
/// purpose — whose artifact exists. The stage's name, and the message.
pub open spec fn drift_at(run: Run, flow: Flow, present: Seq<bool>, i: int) -> Option<
    (Seq<char>, Seq<char>),
> {
    match checked_artifact(run, flow, i) {
        None => None,
        Some(a) => {
            let exists = i < present.len() && present[i];
            let rec = run.meta.stages@[i];
            if rec.status == StageStatus::Done && !exists {
                Some((rec.name@, "marked done but "@ + a + " is missing"@))
            } else if unsettled(rec.status) && exists && !rec.reopened {
                Some(
                    (
                        rec.name@,
                        a + " exists but the stage is "@ + status_text(rec.status)
                            + " — did a session die here?"@,
                    ),
                )
            } else {
                None
            }
        },
    }
}

/// The drift of the first `n` stage records, in order.
pub open spec fn drift_upto(run: Run, flow: Flow, present: Seq<bool>, n: nat) -> Seq<
    (Seq<char>, Seq<char>),
>
    decreases n,
{
    if n == 0 {
        Seq::empty()
    } else {
        drift_upto(run, flow, present, (n - 1) as nat) + match drift_at(
            run,
            flow,
            present,
            n - 1,
        ) {
            Some(d) => seq![d],
            None => Seq::empty(),
        }
    }
}

/// The stage names and messages of a list of drift.
pub open spec fn drift_view(d: Seq<Drift>) -> Seq<(Seq<char>, Seq<char>)> {
    Seq::new(d.len(), |i: int| (d[i].stage@, d[i].message@))
}

impl Run {
    /// The artifact each stage record is checked against on disk, in record
    /// order.
    pub fn checked_artifacts(&self, flow: &Flow) -> (r: Vec<Option<String>>)
        ensures
            r@.len() == self.meta.stages@.len(),
            forall|i: int|
                0 <= i < r@.len() ==> opt_string_view(#[trigger] r@[i]) == checked_artifact(
                    *self,
                    *flow,
                    i,
                ),
    {
        let mut r: Vec<Option<String>> = Vec::new();
        let mut i: usize = 0;
        while i < self.meta.stages.len()
            invariant
                i <= self.meta.stages@.len(),
                r@.len() == i,
                forall|j: int|
                    0 <= j < i ==> opt_string_view(#[trigger] r@[j]) == checked_artifact(
                        *self,
                        *flow,
                        j,
                    ),
            decreases self.meta.stages.len() - i,
        {
            let a = self.checked_artifact_at(flow, i);
            r.push(a);
            i = i + 1;
        }
        r
    }

    /// The artifact stage record `i` is checked against on disk.
    fn checked_artifact_at(&self, flow: &Flow, i: usize) -> (r: Option<String>)
        requires
            i < self.meta.stages@.len(),
        ensures
            opt_string_view(r) == checked_artifact(*self, *flow, i as int),
    {
        let rec = &self.meta.stages[i];
        proof {
            crate::text::lemma_first_in_props(
                0,
                flow.stages@.len() as int,
                |j: int| flow.stages@[j].name@ == rec.name@,
            );
        }
        match find_stage(&flow.stages, rec.name.as_str()) {
            None => None,
            Some(k) => {
                let a = match &rec.artifact {
                    Some(x) => Some(x.clone()),
                    None => flow.stages[k].artifact_for(self.meta.slug.as_str()),
                };
                match a {
                    Some(x) => {
                        if is_tracker_artifact(x.as_str()) {
                            None
                        } else {
                            Some(x)
                        }
                    },
                    None => None,
                }
            },
        }
    }

    /// Compare each stage's recorded status against whether its artifact is
    /// on disk — `present[i]` says so for stage record `i` (see
    /// `checked_artifacts`); a missing entry reads as absent.
    pub fn drift(&self, flow: &Flow, present: &Vec<bool>) -> (r: Vec<Drift>)
        ensures
            drift_view(r@) == drift_upto(*self, *flow, present@, self.meta.stages@.len()),
    {
        let mut out: Vec<Drift> = Vec::new();
        let mut i: usize = 0;
        while i < self.meta.stages.len()
            invariant
                i <= self.meta.stages@.len(),
                drift_view(out@) == drift_upto(*self, *flow, present@, i as nat),
            decreases self.meta.stages.len() - i,
        {
            let ghost before = out@;
            let a = self.checked_artifact_at(flow, i);
            match a {
                Some(a) => {
                    let rec = &self.meta.stages[i];
                    let exists = i < present.len() && present[i];
                    if rec.status == StageStatus::Done && !exists {
                        let mut m = owned("marked done but ");
                        push_str(&mut m, a.as_str());
                        push_str(&mut m, " is missing");
                        out.push(Drift { stage: rec.name.clone(), message: m });
                    } else if (rec.status == StageStatus::Pending || rec.status
                        == StageStatus::InProgress) && exists && !rec.reopened {
                        let mut m = a.clone();
                        push_str(&mut m, " exists but the stage is ");
                        push_str(&mut m, rec.status.label());
                        push_str(&mut m, " — did a session die here?");
                        out.push(Drift { stage: rec.name.clone(), message: m });
                    }
                },
                None => {},
            }
            proof {
                match drift_at(*self, *flow, present@, i as int) {
                    Some(d) => {
                        assert(drift_view(out@) =~= drift_view(before) + seq![d]);
                    },
                    None => {
                        assert(drift_view(out@) =~= drift_view(before) + Seq::empty());
                    },
                }
            }
            i = i + 1;
        }
        out
    }
}

} // verus!
