//! The run lifecycle: Init → Validated → Archiving → Uploading → Sweeping →
//! Done, with Failed reachable from the non-terminal states. Fatal outcomes
//! (bad configuration, a container write failure, unresolvable credentials)
//! end the run; a failed segment upload does not — the remaining segments
//! are still attempted, the sweep still runs, and the run is merely reported
//! unsuccessful at the end.

use vstd::prelude::*;
use crate::errors::BackupError;

verus! {

/// Where a run stands.
#[derive(Clone, Copy, Debug, PartialEq, Eq, Structural)]
pub enum Phase {
    Init,
    Validated,
    Archiving,
    Uploading,
    Sweeping,
    Done,
    Failed,
}

/// What the surrounding driver reports back to the run: the outcome of the
/// step it just performed.
#[derive(Clone, Copy, Debug)]
pub enum RunEvent {
    /// The configuration was checked: whether the source path is an existing
    /// directory (failing otherwise with the filesystem error), and whether
    /// the credentials handle resolved (failing with the config error).
    Validate { source_is_dir: bool, credentials_ok: bool },
    /// Archiving starts.
    BeginArchive,
    /// Archiving ended, with its segment count on success.
    ArchiveDone { ok: bool, segments: usize },
    /// The credentials failed to parse; no upload was attempted.
    CredentialsRejected,
    /// Every segment's upload was attempted; so many succeeded, so many
    /// failed.
    UploadsDone { uploaded: usize, failed: usize },
    /// The retention sweep ended, having removed so many staged files.
    SweepDone { removed: usize },
}

/// One backup run's state.
pub struct Run {
    pub phase: Phase,
    pub segments_created: usize,
    pub segments_uploaded: usize,
    pub segments_failed: usize,
    pub files_removed: usize,
    pub error: Option<BackupError>,
}

/// The counts a run's state may ever show: no upload outcomes before
/// archiving finishes, and never more outcomes than segments.
pub open spec fn run_wf(run: Run) -> bool {
    match run.phase {
        Phase::Init | Phase::Validated | Phase::Archiving => run.segments_uploaded == 0
            && run.segments_failed == 0,
        _ => run.segments_uploaded + run.segments_failed <= run.segments_created,
    }
}

/// Which events a run in its current state accepts.
pub open spec fn allowed(run: Run, ev: RunEvent) -> bool {
    match ev {
        RunEvent::Validate { .. } => run.phase is Init,
        RunEvent::BeginArchive => run.phase is Validated,
        RunEvent::ArchiveDone { .. } => run.phase is Archiving,
        RunEvent::CredentialsRejected => run.phase is Uploading,
        RunEvent::UploadsDone { uploaded, failed } => run.phase is Uploading && uploaded + failed
            == run.segments_created,
        RunEvent::SweepDone { .. } => run.phase is Sweeping,
    }
}

/// The transition relation of the run lifecycle.
pub open spec fn next(pre: Run, ev: RunEvent, post: Run) -> bool {
    match ev {
        RunEvent::Validate { source_is_dir, credentials_ok } => if source_is_dir
            && credentials_ok {
            post == (Run { phase: Phase::Validated, ..pre })
        } else if !source_is_dir {
            post == (Run { phase: Phase::Failed, error: Some(BackupError::Filesystem), ..pre })
        } else {
            post == (Run { phase: Phase::Failed, error: Some(BackupError::Config), ..pre })
        },
        RunEvent::BeginArchive => post == (Run { phase: Phase::Archiving, ..pre }),
        RunEvent::ArchiveDone { ok, segments } => if ok {
            post == (Run { phase: Phase::Uploading, segments_created: segments, ..pre })
        } else {
            post == (Run { phase: Phase::Failed, error: Some(BackupError::Archive), ..pre })
        },
        RunEvent::CredentialsRejected => post == (Run {
            phase: Phase::Failed,
            error: Some(BackupError::Credential),
            ..pre
        }),
        RunEvent::UploadsDone { uploaded, failed } => post == (Run {
            phase: Phase::Sweeping,
            segments_uploaded: uploaded,
            segments_failed: failed,
            ..pre
        }),
        RunEvent::SweepDone { removed } => post == (Run {
            phase: Phase::Done,
            files_removed: removed,
            ..pre
        }),
    }
}

/// A run that ran through and lost no segment upload.
pub open spec fn run_succeeded(run: Run) -> bool {
    run.phase is Done && run.segments_failed == 0
}

/// A fresh run, before validation.
pub fn init_run() -> (run: Run)
    ensures
        run == (Run {
            phase: Phase::Init,
            segments_created: 0,
            segments_uploaded: 0,
            segments_failed: 0,
            files_removed: 0,
            error: None::<BackupError>,
        }),
{
    Run {
        phase: Phase::Init,
        segments_created: 0,
        segments_uploaded: 0,
        segments_failed: 0,
        files_removed: 0,
        error: None,
    }
}

/// Advance the run by one observed outcome, exactly along the transition
/// relation.
pub fn step(run: &mut Run, ev: RunEvent)
    requires
        run_wf(*old(run)),
        allowed(*old(run), ev),
    ensures
        next(*old(run), ev, *final(run)),
        run_wf(*final(run)),
{
    match ev {
        RunEvent::Validate { source_is_dir, credentials_ok } => {
            if source_is_dir && credentials_ok {
                run.phase = Phase::Validated;
            } else if !source_is_dir {
                run.phase = Phase::Failed;
                run.error = Some(BackupError::Filesystem);
            } else {
                run.phase = Phase::Failed;
                run.error = Some(BackupError::Config);
            }
        }
        RunEvent::BeginArchive => {
            run.phase = Phase::Archiving;
        }
        RunEvent::ArchiveDone { ok, segments } => {
            if ok {
                run.phase = Phase::Uploading;
                run.segments_created = segments;
            } else {
                run.phase = Phase::Failed;
                run.error = Some(BackupError::Archive);
            }
        }
        RunEvent::CredentialsRejected => {
            run.phase = Phase::Failed;
            run.error = Some(BackupError::Credential);
        }
        RunEvent::UploadsDone { uploaded, failed } => {
            run.phase = Phase::Sweeping;
            run.segments_uploaded = uploaded;
            run.segments_failed = failed;
        }
        RunEvent::SweepDone { removed } => {
            run.phase = Phase::Done;
            run.files_removed = removed;
        }
    }
}

/// The structured result of a run: the counts, and success exactly when the
/// run ran through with every segment uploaded.
pub struct RunReport {
    pub segments_created: usize,
    pub segments_uploaded: usize,
    pub segments_failed: usize,
    pub files_removed: usize,
    pub success: bool,
}

impl Run {
    /// Report the run's counts and overall outcome.
    pub fn report(&self) -> (r: RunReport)
        ensures
            r.segments_created == self.segments_created,
            r.segments_uploaded == self.segments_uploaded,
            r.segments_failed == self.segments_failed,
            r.files_removed == self.files_removed,
            r.success == run_succeeded(*self),
    {
        let success = match self.phase {
            Phase::Done => self.segments_failed == 0,
            _ => false,
        };
        RunReport {
            segments_created: self.segments_created,
            segments_uploaded: self.segments_uploaded,
            segments_failed: self.segments_failed,
            files_removed: self.files_removed,
            success,
        }
    }
}

/// How many of a run's upload attempts succeeded.
pub open spec fn count_true(s: Seq<bool>) -> nat
    decreases s.len(),
{
    if s.len() == 0 {
        0
    } else {
        count_true(s.drop_last()) + if s.last() {
            1nat
        } else {
            0nat
        }
    }
}

/// Tally per-segment upload outcomes into the counts the `UploadsDone`
/// event carries: successes, then failures, covering every attempt.
pub fn tally_uploads(results: &Vec<bool>) -> (t: (usize, usize))
    ensures
        t.0 == count_true(results@),
        t.0 + t.1 == results@.len(),
{
    let mut uploaded: usize = 0;
    let mut failed: usize = 0;
    let mut i: usize = 0;
    while i < results.len()
        invariant
            i <= results@.len(),
            uploaded == count_true(results@.take(i as int)),
            uploaded + failed == i,
        decreases results@.len() - i,
    {
        proof {
            assert(results@.take(i + 1).drop_last() =~= results@.take(i as int));
            assert(results@.take(i + 1).last() == results@[i as int]);
        }
        if results[i] {
            uploaded = uploaded + 1;
        } else {
            failed = failed + 1;
        }
        i = i + 1;
    }
    proof {
        assert(results@.take(results@.len() as int) =~= results@);
    }
    (uploaded, failed)
}

} // verus!
