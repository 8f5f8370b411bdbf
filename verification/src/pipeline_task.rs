//! The draft pipeline scheduled task: picks up autosaved atoms whose
//! content is durable but whose AI pipeline the foreground client has not
//! finalized.

use vstd::prelude::*;
use crate::text::{chars_of, is_digit, push_str};

verus! {

/// The draft pipeline scheduled task.
#[derive(Debug)]
pub struct DraftPipelineTask;

/// How often the task runs by default, in seconds.
pub const DEFAULT_INTERVAL_SECS: u64 = 60;

/// Whether the task is enabled when no setting says otherwise.
pub const DEFAULT_ENABLED: bool = true;

/// Minutes an atom must have been left untouched, by default.
pub const DEFAULT_QUIET_MINUTES: i64 = 1;

/// Why a run of the task did nothing.
#[derive(Debug, Clone, Copy, PartialEq, Eq, Structural)]
pub enum TaskSkip {
    Disabled,
    NotDue,
}

impl DraftPipelineTask {
    /// Identifier of the task.
    pub fn id(&self) -> (r: &'static str)
        ensures
            r@ == "draft_pipeline"@,
    {
        "draft_pipeline"
    }

    /// Name of the task shown to users.
    pub fn display_name(&self) -> (r: &'static str)
        ensures
            r@ == "Draft pipeline"@,
    {
        "Draft pipeline"
    }

    /// Default interval between runs, in seconds.
    pub fn default_interval(&self) -> (secs: u64)
        ensures
            secs == DEFAULT_INTERVAL_SECS,
    {
        DEFAULT_INTERVAL_SECS
    }

    /// Whether a run goes ahead: a disabled task is skipped first, then one
    /// that is not due yet.
    pub fn run_gate(&self, enabled: bool, due: bool) -> (r: Result<(), TaskSkip>)
        ensures
            r == (if !enabled {
                Err(TaskSkip::Disabled)
            } else if !due {
                Err(TaskSkip::NotDue)
            } else {
                Ok(())
            }),
    {
        if !enabled {
            return Err(TaskSkip::Disabled);
        }
        if !due {
            return Err(TaskSkip::NotDue);
        }
        Ok(())
    }
}

/// Value of a sequence of decimal digits.
pub open spec fn digits_value(ds: Seq<char>) -> int
    decreases ds.len(),
{
    if ds.len() == 0 {
        0
    } else {
        digits_value(ds.drop_last()) * 10 + (ds.last() as int - '0' as int)
    }
}

/// Every character is a decimal digit.
pub open spec fn all_digits(ds: Seq<char>) -> bool {
    forall|i: int| 0 <= i < ds.len() ==> is_digit(#[trigger] ds[i])
}

/// An `i64` read from text as `str::parse::<i64>` reads it: an optional `+`
/// or `-`, then one or more ASCII digits, within the range of `i64`.
pub open spec fn parse_i64_spec(s: Seq<char>) -> Option<i64> {
    if s.len() == 0 {
        None
    } else {
        let neg = s[0] == '-';
        let ds = if s[0] == '-' || s[0] == '+' {
            s.drop_first()
        } else {
            s
        };
        if ds.len() == 0 || !all_digits(ds) {
            None
        } else {
            let v = if neg {
                -digits_value(ds)
            } else {
                digits_value(ds)
            };
            if i64::MIN <= v <= i64::MAX {
                Some(v as i64)
            } else {
                None
            }
        }
    }
}

proof fn lemma_digits_value_prefix(ds: Seq<char>, k: int)
    requires
        all_digits(ds),
        0 <= k <= ds.len(),
    ensures
        0 <= digits_value(ds.take(k)) <= digits_value(ds),
    decreases ds.len(),
{
    if k < ds.len() {
        let d = ds.drop_last();
        assert(all_digits(d));
        assert(d.take(k) =~= ds.take(k));
        lemma_digits_value_prefix(d, k);
        assert(is_digit(ds[ds.len() - 1]));
    } else {
        assert(ds.take(k) =~= ds);
        if ds.len() > 0 {
            let d = ds.drop_last();
            assert(all_digits(d));
            lemma_digits_value_prefix(d, d.len() as int);
            assert(d.take(d.len() as int) =~= d);
            assert(is_digit(ds[ds.len() - 1]));
        }
    }
}

/// Parses text as an `i64` (the behaviour of `str::parse::<i64>`).
pub fn parse_i64(s: &str) -> (r: Option<i64>)
    ensures
        r == parse_i64_spec(s@),
{
    let cs = chars_of(s);
    if cs.len() == 0 {
        return None;
    }
    let neg = cs[0] == '-';
    let start: usize = if cs[0] == '-' || cs[0] == '+' {
        1
    } else {
        0
    };
    let ghost ds = if cs@[0] == '-' || cs@[0] == '+' {
        cs@.drop_first()
    } else {
        cs@
    };
    assert(ds =~= cs@.subrange(start as int, cs@.len() as int));
    if start == cs.len() {
        return None;
    }
    let limit: i128 = 0x8000_0000_0000_0000;
    let mut acc: i128 = 0;
    let mut j: usize = start;
    while j < cs.len()
        invariant
            start <= j <= cs.len(),
            cs@ == s@,
            cs@.len() > 0,
            neg == (cs@[0] == '-'),
            ds == (if cs@[0] == '-' || cs@[0] == '+' {
                cs@.drop_first()
            } else {
                cs@
            }),
            ds.len() > 0,
            ds == cs@.subrange(start as int, cs@.len() as int),
            all_digits(ds.take(j - start)),
            acc == digits_value(ds.take(j - start)),
            0 <= acc <= limit,
            limit == 0x8000_0000_0000_0000,
        decreases cs.len() - j,
    {
        let c = cs[j];
        if !('0' <= c && c <= '9') {
            assert(ds[j - start] == c);
            assert(!all_digits(ds));
            return None;
        }
        let d = (c as u32 - '0' as u32) as i128;
        assert(ds.take(j - start + 1).drop_last() =~= ds.take(j - start));
        assert(ds.take(j - start + 1).last() == c);
        acc = acc * 10 + d;
        j = j + 1;
        assert(all_digits(ds.take(j - start))) by {
            assert forall|i: int| 0 <= i < ds.take(j - start).len() implies is_digit(
                #[trigger] ds.take(j - start)[i],
            ) by {
                if i < j - 1 - start {
                    assert(ds.take(j - start)[i] == ds.take(j - 1 - start)[i]);
                }
            }
        }
        if acc > limit {
            // The value only grows with more digits, so it no longer fits.
            proof {
                if all_digits(ds) {
                    lemma_digits_value_prefix(ds, j - start);
                }
            }
            return None;
        }
    }
    assert(ds.take(j - start) =~= ds);
    if neg {
        Some((-acc) as i64)
    } else if acc <= 0x7FFF_FFFF_FFFF_FFFF {
        Some(acc as i64)
    } else {
        None
    }
}

/// Quiet period configured by a setting value: a positive whole number of
/// minutes, or the default (1) when the value is missing, unparsable or not
/// positive.
pub fn quiet_minutes_from_setting(value: Option<&str>) -> (m: i64)
    ensures
        m == (match value {
            Some(v) => match parse_i64_spec(v@) {
                Some(x) => if x > 0 {
                    x
                } else {
                    DEFAULT_QUIET_MINUTES
                },
                None => DEFAULT_QUIET_MINUTES,
            },
            None => DEFAULT_QUIET_MINUTES,
        }),
        m > 0,
{
    match value {
        Some(v) => match parse_i64(v) {
            Some(x) => if x > 0 {
                x
            } else {
                DEFAULT_QUIET_MINUTES
            },
            None => DEFAULT_QUIET_MINUTES,
        },
        None => DEFAULT_QUIET_MINUTES,
    }
}

/// Identifier of the database a run reports on: the file stem of its path,
/// or `default` when the path has none (or none in UTF-8).
pub fn db_id_from_stem(stem: Option<&str>) -> (r: String)
    ensures
        r@ == (match stem {
            Some(s) => s@,
            None => "default"@,
        }),
{
    let mut r = String::new();
    match stem {
        Some(s) => push_str(&mut r, s),
        None => push_str(&mut r, "default"),
    }
    r
}

/// Where a run of the draft pipeline task stands.
#[derive(Debug, Clone, Copy, PartialEq, Eq, Structural)]
pub enum DraftStage {
    /// Nothing done yet: whether to run is decided first.
    Begin,
    /// `Started` has been announced.
    Announced,
    /// Due pending embeddings are being queued.
    Embedding,
    /// Due pending tagging is being queued.
    Tagging,
    /// The time of this run is being recorded.
    Recording,
    /// `Completed` has been announced.
    Completed,
    /// The run is over.
    Stopped,
}

/// What happened since the last step.
#[derive(Debug, Clone, Copy, PartialEq, Eq, Structural)]
pub enum DraftEvent {
    /// Whether the task is enabled and due.
    Schedule { enabled: bool, due: bool },
    /// The last action succeeded.
    Succeeded,
    /// The last action failed.
    Failed,
}

/// What the runner does next.
#[derive(Debug, Clone, Copy, PartialEq, Eq, Structural)]
pub enum DraftAction {
    /// End the run without work, for this reason.
    Skip(TaskSkip),
    /// Announce `Started` for the database.
    EmitStarted,
    /// Queue the embeddings of atoms quiet since the cutoff.
    ProcessEmbeddings,
    /// Queue the tagging of atoms quiet since the cutoff.
    ProcessTagging,
    /// Record the time of this run.
    RecordLastRun,
    /// Announce `Completed` for the database.
    EmitCompleted,
    /// End the run with the failure of the last action (no `Completed`).
    Fail,
    /// End the run successfully.
    Finish,
    /// Nothing: the run is over.
    Idle,
}

/// The task's run as a state machine: the enabled and due checks first, then `Started`,
/// embeddings, tagging, the last-run record and `Completed`, in that order;
/// a failed action ends the run at once, without `Completed`.
pub open spec fn draft_next(stage: DraftStage, event: DraftEvent) -> (DraftStage, DraftAction) {
    match stage {
        DraftStage::Begin => match event {
            DraftEvent::Schedule { enabled, due } => if !enabled {
                (DraftStage::Stopped, DraftAction::Skip(TaskSkip::Disabled))
            } else if !due {
                (DraftStage::Stopped, DraftAction::Skip(TaskSkip::NotDue))
            } else {
                (DraftStage::Announced, DraftAction::EmitStarted)
            },
            _ => (DraftStage::Begin, DraftAction::Idle),
        },
        DraftStage::Announced => (DraftStage::Embedding, DraftAction::ProcessEmbeddings),
        DraftStage::Embedding => match event {
            DraftEvent::Succeeded => (DraftStage::Tagging, DraftAction::ProcessTagging),
            DraftEvent::Failed => (DraftStage::Stopped, DraftAction::Fail),
            _ => (DraftStage::Embedding, DraftAction::Idle),
        },
        DraftStage::Tagging => match event {
            DraftEvent::Succeeded => (DraftStage::Recording, DraftAction::RecordLastRun),
            DraftEvent::Failed => (DraftStage::Stopped, DraftAction::Fail),
            _ => (DraftStage::Tagging, DraftAction::Idle),
        },
        DraftStage::Recording => match event {
            DraftEvent::Succeeded => (DraftStage::Completed, DraftAction::EmitCompleted),
            DraftEvent::Failed => (DraftStage::Stopped, DraftAction::Fail),
            _ => (DraftStage::Recording, DraftAction::Idle),
        },
        DraftStage::Completed => (DraftStage::Stopped, DraftAction::Finish),
        DraftStage::Stopped => (DraftStage::Stopped, DraftAction::Idle),
    }
}

/// One step of a run: the next stage and the action to perform, from the
/// current stage and what happened.
pub fn draft_step(stage: DraftStage, event: DraftEvent) -> (r: (DraftStage, DraftAction))
    ensures
        r == draft_next(stage, event),
{
    match stage {
        DraftStage::Begin => match event {
            DraftEvent::Schedule { enabled, due } => if !enabled {
                (DraftStage::Stopped, DraftAction::Skip(TaskSkip::Disabled))
            } else if !due {
                (DraftStage::Stopped, DraftAction::Skip(TaskSkip::NotDue))
            } else {
                (DraftStage::Announced, DraftAction::EmitStarted)
            },
            _ => (DraftStage::Begin, DraftAction::Idle),
        },
        DraftStage::Announced => (DraftStage::Embedding, DraftAction::ProcessEmbeddings),
        DraftStage::Embedding => match event {
            DraftEvent::Succeeded => (DraftStage::Tagging, DraftAction::ProcessTagging),
            DraftEvent::Failed => (DraftStage::Stopped, DraftAction::Fail),
            _ => (DraftStage::Embedding, DraftAction::Idle),
        },
        DraftStage::Tagging => match event {
            DraftEvent::Succeeded => (DraftStage::Recording, DraftAction::RecordLastRun),
            DraftEvent::Failed => (DraftStage::Stopped, DraftAction::Fail),
            _ => (DraftStage::Tagging, DraftAction::Idle),
        },
        DraftStage::Recording => match event {
            DraftEvent::Succeeded => (DraftStage::Completed, DraftAction::EmitCompleted),
            DraftEvent::Failed => (DraftStage::Stopped, DraftAction::Fail),
            _ => (DraftStage::Recording, DraftAction::Idle),
        },
        DraftStage::Completed => (DraftStage::Stopped, DraftAction::Finish),
        DraftStage::Stopped => (DraftStage::Stopped, DraftAction::Idle),
    }
}

/// A failed action ends the run at once: after a failed embedding, tagging
/// or last-run record the run stops with the failure, so no later step
/// (tagging, the record, `Completed`) follows it.
pub proof fn failure_ends_the_run(stage: DraftStage)
    requires
        stage == DraftStage::Embedding || stage == DraftStage::Tagging || stage
            == DraftStage::Recording,
    ensures
        draft_next(stage, DraftEvent::Failed) == (DraftStage::Stopped, DraftAction::Fail),
{
}

/// Tagging is queued only after the embeddings were queued successfully,
/// and the last run is recorded only after tagging succeeded.
pub proof fn stages_follow_success(stage: DraftStage, event: DraftEvent)
    ensures
        draft_next(stage, event).1 == DraftAction::ProcessTagging ==> stage == DraftStage::Embedding
            && event == DraftEvent::Succeeded,
        draft_next(stage, event).1 == DraftAction::RecordLastRun ==> stage == DraftStage::Tagging
            && event == DraftEvent::Succeeded,
        draft_next(stage, event).1 == DraftAction::ProcessEmbeddings ==> stage
            == DraftStage::Announced,
{
}

/// `Completed` is announced only right after the last run was recorded
/// successfully, a failure never leads to it, and a stopped run stays
/// stopped and does nothing.
pub proof fn draft_completion_follows_recording(stage: DraftStage, event: DraftEvent)
    ensures
        draft_next(stage, event).1 == DraftAction::EmitCompleted ==> stage == DraftStage::Recording
            && event == DraftEvent::Succeeded,
        event == DraftEvent::Failed ==> draft_next(stage, event).1 != DraftAction::EmitCompleted,
        stage == DraftStage::Stopped ==> draft_next(stage, event) == (
            DraftStage::Stopped,
            DraftAction::Idle,
        ),
{
}

} // verus!
