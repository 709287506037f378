//! The conversion of one closed hour, as a sequence of decisions.
//!
//! The caller carries out one action at a time (list, run the converter,
//! move files) and tells how it went; `next_step` says what comes next.
//! Whatever happens once the scratch workspace exists, the workspace is
//! removed before the conversion is over.

use crate::hours::ConversionJob;
use vstd::prelude::*;

verus! {

/// How the conversion of an hour ended.
#[derive(Clone, Copy, Debug, PartialEq, Eq, Structural)]
pub enum Verdict {
    /// The hour has no segment files; nothing was done.
    Skipped,
    /// The products are in the archive.
    Converted,
    /// A step failed; the segment files are where they were.
    Failed,
}

/// Where the conversion of an hour stands: the step whose outcome is
/// awaited.
#[derive(Clone, Copy, Debug, PartialEq, Eq, Structural)]
pub enum Phase {
    /// Nothing has been asked for yet.
    Start,
    /// The hour's segment files are being listed.
    Listing,
    /// The scratch workspace is being created.
    CreatingWorkspace,
    /// The products in the data directory are being recorded.
    SnapshotBefore,
    /// The segment files are being merged into one input.
    Merging,
    /// The converter is writing observations.
    ConvertingObservation,
    /// The converter is writing navigation data.
    ConvertingNavigation,
    /// The workspace is being searched for products.
    Collecting,
    /// The data directory is being recorded again, to find what changed.
    SnapshotAfter,
    /// The products are being renamed to the hour's epoch.
    Normalizing,
    /// The products are being checked for completeness.
    Validating,
    /// The archive directory is being made ready.
    PreparingArchive,
    /// The products are being moved into the archive.
    Archiving,
    /// The segment files are being removed.
    RemovingInputs,
    /// The workspace is being removed; the verdict is settled.
    Cleaning(Verdict),
    /// The conversion is over.
    Done(Verdict),
}

/// How a step went.
#[derive(Clone, Copy, Debug, PartialEq, Eq, Structural)]
pub enum Outcome {
    /// It was done, and there was something to do it on.
    Succeeded,
    /// It was done, and found nothing.
    Empty,
    /// It could not be done.
    Failed,
}

/// What the caller is asked to do next.
#[derive(Clone, Copy, Debug, PartialEq, Eq, Structural)]
pub enum Action {
    ListSegments,
    CreateWorkspace,
    SnapshotDataDir,
    MergeSegments,
    RunObservation,
    RunNavigation,
    ListWorkspace,
    RenameProducts,
    Validate,
    PrepareArchive,
    MoveProducts,
    RemoveSegments,
    RemoveWorkspace,
    Finish(Verdict),
}

/// The workspace exists and has not been removed.
pub open spec fn workspace_live(p: Phase) -> bool {
    match p {
        Phase::SnapshotBefore => true,
        Phase::Merging => true,
        Phase::ConvertingObservation => true,
        Phase::ConvertingNavigation => true,
        Phase::Collecting => true,
        Phase::SnapshotAfter => true,
        Phase::Normalizing => true,
        Phase::Validating => true,
        Phase::PreparingArchive => true,
        Phase::Archiving => true,
        Phase::RemovingInputs => true,
        _ => false,
    }
}

/// What follows the successful end of the step of a phase.
pub open spec fn after_success(p: Phase, nav_requested: bool, keep_inputs: bool) -> (Phase, Action) {
    match p {
        Phase::Start => (Phase::Listing, Action::ListSegments),
        Phase::Listing => (Phase::CreatingWorkspace, Action::CreateWorkspace),
        Phase::CreatingWorkspace => (Phase::SnapshotBefore, Action::SnapshotDataDir),
        Phase::SnapshotBefore => (Phase::Merging, Action::MergeSegments),
        Phase::Merging => (Phase::ConvertingObservation, Action::RunObservation),
        Phase::ConvertingObservation => if nav_requested {
            (Phase::ConvertingNavigation, Action::RunNavigation)
        } else {
            (Phase::Collecting, Action::ListWorkspace)
        },
        Phase::ConvertingNavigation => (Phase::Collecting, Action::ListWorkspace),
        Phase::Collecting => (Phase::Normalizing, Action::RenameProducts),
        Phase::SnapshotAfter => (Phase::Normalizing, Action::RenameProducts),
        Phase::Normalizing => (Phase::Validating, Action::Validate),
        Phase::Validating => (Phase::PreparingArchive, Action::PrepareArchive),
        Phase::PreparingArchive => (Phase::Archiving, Action::MoveProducts),
        Phase::Archiving => if keep_inputs {
            (Phase::Cleaning(Verdict::Converted), Action::RemoveWorkspace)
        } else {
            (Phase::RemovingInputs, Action::RemoveSegments)
        },
        Phase::RemovingInputs => (Phase::Cleaning(Verdict::Converted), Action::RemoveWorkspace),
        Phase::Cleaning(v) => (Phase::Done(v), Action::Finish(v)),
        Phase::Done(v) => (Phase::Done(v), Action::Finish(v)),
    }
}

/// What follows the end of the step of a phase.
///
/// An hour without segment files is skipped. A workspace without products
/// sends the search to the data directory. A failure before the workspace
/// exists ends the conversion; a failure after that removes the workspace
/// first. The removal itself cannot change the verdict, however it goes.
pub open spec fn step(p: Phase, outcome: Outcome, nav_requested: bool, keep_inputs: bool) -> (
    Phase,
    Action,
) {
    match p {
        Phase::Start => after_success(p, nav_requested, keep_inputs),
        Phase::Cleaning(_) => after_success(p, nav_requested, keep_inputs),
        Phase::Done(_) => after_success(p, nav_requested, keep_inputs),
        _ => match outcome {
            Outcome::Failed => if workspace_live(p) {
                (Phase::Cleaning(Verdict::Failed), Action::RemoveWorkspace)
            } else {
                (Phase::Done(Verdict::Failed), Action::Finish(Verdict::Failed))
            },
            Outcome::Empty => match p {
                Phase::Listing => (Phase::Done(Verdict::Skipped), Action::Finish(Verdict::Skipped)),
                Phase::Collecting => (Phase::SnapshotAfter, Action::SnapshotDataDir),
                _ => after_success(p, nav_requested, keep_inputs),
            },
            Outcome::Succeeded => after_success(p, nav_requested, keep_inputs),
        },
    }
}

/// Tells whether the workspace exists and has not been removed.
pub fn is_workspace_live(p: Phase) -> (r: bool)
    ensures
        r == workspace_live(p),
{
    match p {
        Phase::SnapshotBefore => true,
        Phase::Merging => true,
        Phase::ConvertingObservation => true,
        Phase::ConvertingNavigation => true,
        Phase::Collecting => true,
        Phase::SnapshotAfter => true,
        Phase::Normalizing => true,
        Phase::Validating => true,
        Phase::PreparingArchive => true,
        Phase::Archiving => true,
        Phase::RemovingInputs => true,
        _ => false,
    }
}

/// Says what follows the successful end of a step.
fn next_after_success(p: Phase, nav_requested: bool, keep_inputs: bool) -> (r: (Phase, Action))
    ensures
        r == after_success(p, nav_requested, keep_inputs),
{
    match p {
        Phase::Start => (Phase::Listing, Action::ListSegments),
        Phase::Listing => (Phase::CreatingWorkspace, Action::CreateWorkspace),
        Phase::CreatingWorkspace => (Phase::SnapshotBefore, Action::SnapshotDataDir),
        Phase::SnapshotBefore => (Phase::Merging, Action::MergeSegments),
        Phase::Merging => (Phase::ConvertingObservation, Action::RunObservation),
        Phase::ConvertingObservation => if nav_requested {
            (Phase::ConvertingNavigation, Action::RunNavigation)
        } else {
            (Phase::Collecting, Action::ListWorkspace)
        },
        Phase::ConvertingNavigation => (Phase::Collecting, Action::ListWorkspace),
        Phase::Collecting => (Phase::Normalizing, Action::RenameProducts),
        Phase::SnapshotAfter => (Phase::Normalizing, Action::RenameProducts),
        Phase::Normalizing => (Phase::Validating, Action::Validate),
        Phase::Validating => (Phase::PreparingArchive, Action::PrepareArchive),
        Phase::PreparingArchive => (Phase::Archiving, Action::MoveProducts),
        Phase::Archiving => if keep_inputs {
            (Phase::Cleaning(Verdict::Converted), Action::RemoveWorkspace)
        } else {
            (Phase::RemovingInputs, Action::RemoveSegments)
        },
        Phase::RemovingInputs => (Phase::Cleaning(Verdict::Converted), Action::RemoveWorkspace),
        Phase::Cleaning(v) => (Phase::Done(v), Action::Finish(v)),
        Phase::Done(v) => (Phase::Done(v), Action::Finish(v)),
    }
}

/// Says what follows the end of a step: the phase to wait in and the action
/// to carry out. `nav_requested` tells whether navigation data is wanted,
/// `keep_inputs` whether the segment files stay after a conversion.
pub fn next_step(p: Phase, outcome: Outcome, nav_requested: bool, keep_inputs: bool) -> (r: (
    Phase,
    Action,
))
    ensures
        r == step(p, outcome, nav_requested, keep_inputs),
{
    match p {
        Phase::Start => next_after_success(p, nav_requested, keep_inputs),
        Phase::Cleaning(_) => next_after_success(p, nav_requested, keep_inputs),
        Phase::Done(_) => next_after_success(p, nav_requested, keep_inputs),
        _ => match outcome {
            Outcome::Failed => if is_workspace_live(p) {
                (Phase::Cleaning(Verdict::Failed), Action::RemoveWorkspace)
            } else {
                (Phase::Done(Verdict::Failed), Action::Finish(Verdict::Failed))
            },
            Outcome::Empty => match p {
                Phase::Listing => (Phase::Done(Verdict::Skipped), Action::Finish(Verdict::Skipped)),
                Phase::Collecting => (Phase::SnapshotAfter, Action::SnapshotDataDir),
                _ => next_after_success(p, nav_requested, keep_inputs),
            },
            Outcome::Succeeded => next_after_success(p, nav_requested, keep_inputs),
        },
    }
}

/// The phase reached from `p` after the steps whose outcomes are `outs`.
pub open spec fn run_end(p: Phase, outs: Seq<Outcome>, nav: bool, keep: bool) -> Phase
    decreases outs.len(),
{
    if outs.len() == 0 {
        p
    } else {
        run_end(step(p, outs[0], nav, keep).0, outs.drop_first(), nav, keep)
    }
}

/// How often the removal of the workspace is asked for on the way.
pub open spec fn run_removals(p: Phase, outs: Seq<Outcome>, nav: bool, keep: bool) -> nat
    decreases outs.len(),
{
    if outs.len() == 0 {
        0
    } else {
        let next = step(p, outs[0], nav, keep);
        run_removals(next.0, outs.drop_first(), nav, keep) + if next.1 == Action::RemoveWorkspace {
            1nat
        } else {
            0nat
        }
    }
}

/// Whether a workspace comes into being on the way.
pub open spec fn run_creates(p: Phase, outs: Seq<Outcome>, nav: bool, keep: bool) -> bool
    decreases outs.len(),
{
    if outs.len() == 0 {
        false
    } else {
        let next = step(p, outs[0], nav, keep);
        (!workspace_live(p) && workspace_live(next.0)) || run_creates(
            next.0,
            outs.drop_first(),
            nav,
            keep,
        )
    }
}

/// How many steps a phase is from the end at most.
pub open spec fn steps_left(p: Phase) -> nat {
    match p {
        Phase::Start => 15,
        Phase::Listing => 14,
        Phase::CreatingWorkspace => 13,
        Phase::SnapshotBefore => 12,
        Phase::Merging => 11,
        Phase::ConvertingObservation => 10,
        Phase::ConvertingNavigation => 9,
        Phase::Collecting => 8,
        Phase::SnapshotAfter => 7,
        Phase::Normalizing => 6,
        Phase::Validating => 5,
        Phase::PreparingArchive => 4,
        Phase::Archiving => 3,
        Phase::RemovingInputs => 2,
        Phase::Cleaning(_) => 1,
        Phase::Done(_) => 0,
    }
}

/// The rules of the workspace, step by step. The workspace comes into being
/// only when its creation succeeds. While it exists, no step ends the
/// conversion: the only way out is its removal. Its removal is asked for
/// only while it exists. And once the removal is asked for, the verdict
/// stands, however the removal goes.
pub proof fn lemma_workspace_step(p: Phase, outcome: Outcome, nav: bool, keep: bool)
    ensures
        ({
            let (q, action) = step(p, outcome, nav, keep);
            &&& (!workspace_live(p) && workspace_live(q)) ==> (p == Phase::CreatingWorkspace
                && outcome != Outcome::Failed)
            &&& (workspace_live(p) && !workspace_live(q)) ==> (action == Action::RemoveWorkspace
                && q is Cleaning)
            &&& action == Action::RemoveWorkspace ==> (workspace_live(p) && q is Cleaning)
            &&& q is Done ==> !workspace_live(p)
            &&& (p matches Phase::Cleaning(v) ==> q == Phase::Done(v) && action == Action::Finish(v))
            &&& steps_left(q) < steps_left(p) || p is Done
        }),
{
}

/// Every conversion ends: after fifteen steps at most it is over,
/// whatever the outcomes.
pub proof fn lemma_conversion_ends(p: Phase, outs: Seq<Outcome>, nav: bool, keep: bool)
    requires
        outs.len() >= steps_left(p),
    ensures
        run_end(p, outs, nav, keep) is Done,
    decreases outs.len(),
{
    if outs.len() > 0 {
        lemma_workspace_step(p, outs[0], nav, keep);
        lemma_conversion_ends(step(p, outs[0], nav, keep).0, outs.drop_first(), nav, keep);
    }
}

/// After its creation no second workspace comes into being.
proof fn lemma_no_second_workspace(p: Phase, outs: Seq<Outcome>, nav: bool, keep: bool)
    requires
        steps_left(p) < steps_left(Phase::CreatingWorkspace),
    ensures
        !run_creates(p, outs, nav, keep),
    decreases outs.len(),
{
    if outs.len() > 0 {
        lemma_workspace_step(p, outs[0], nav, keep);
        lemma_no_second_workspace(step(p, outs[0], nav, keep).0, outs.drop_first(), nav, keep);
    }
}

/// The workspace law. In every conversion that has come to its end, the
/// removal of the workspace was asked for exactly once if a workspace
/// existed at any time, and never otherwise: whether the conversion
/// succeeded or failed, and at whichever step.
pub proof fn lemma_workspace_removed_once(p: Phase, outs: Seq<Outcome>, nav: bool, keep: bool)
    requires
        run_end(p, outs, nav, keep) is Done,
    ensures
        run_removals(p, outs, nav, keep) == if workspace_live(p) || run_creates(
            p,
            outs,
            nav,
            keep,
        ) {
            1nat
        } else {
            0nat
        },
    decreases outs.len(),
{
    if outs.len() > 0 {
        let next = step(p, outs[0], nav, keep);
        lemma_workspace_step(p, outs[0], nav, keep);
        lemma_workspace_removed_once(next.0, outs.drop_first(), nav, keep);
        if workspace_live(p) || next.0 is Cleaning || next.0 is Done {
            lemma_no_second_workspace(next.0, outs.drop_first(), nav, keep);
        }
    }
}

/// Where the worker stands with one job.
#[derive(Clone, Copy, Debug, PartialEq, Eq, Structural)]
pub enum WorkerPhase {
    /// No job is in hand.
    Idle,
    /// The converter's lock is being taken.
    Locking,
    /// The converter is being looked for.
    Checking,
    /// The hour is being converted.
    Converting,
}

/// What became of a job.
#[derive(Clone, Copy, Debug, PartialEq, Eq, Structural)]
pub enum JobReport {
    /// Another conversion holds the lock; the job was passed over.
    LockUnavailable,
    /// The converter cannot be run; the job was passed over.
    ConverterUnavailable,
    /// The conversion failed; the logger goes on.
    ConversionFailed,
    /// The conversion came to its end.
    Finished,
}

/// What the worker is asked to do next.
#[derive(Clone, Copy, Debug, PartialEq, Eq, Structural)]
pub enum WorkerAction {
    AcquireLock,
    CheckConverter,
    ConvertHour,
    /// Say what became of the job; no lock is held.
    Report(JobReport),
    /// Give the lock back, then say what became of the job.
    ReleaseAndReport(JobReport),
}

/// The worker holds the converter's lock.
pub open spec fn lock_held(p: WorkerPhase) -> bool {
    p == WorkerPhase::Checking || p == WorkerPhase::Converting
}

/// What follows a step of the worker, `ok` telling whether the step went
/// well. A job that cannot take the lock, or finds no converter, is passed
/// over and not tried again; a failed conversion is reported and nothing
/// more. In every case the worker is ready for the next job.
pub open spec fn worker_step(p: WorkerPhase, ok: bool) -> (WorkerPhase, WorkerAction) {
    match p {
        WorkerPhase::Idle => (WorkerPhase::Locking, WorkerAction::AcquireLock),
        WorkerPhase::Locking => if ok {
            (WorkerPhase::Checking, WorkerAction::CheckConverter)
        } else {
            (WorkerPhase::Idle, WorkerAction::Report(JobReport::LockUnavailable))
        },
        WorkerPhase::Checking => if ok {
            (WorkerPhase::Converting, WorkerAction::ConvertHour)
        } else {
            (WorkerPhase::Idle, WorkerAction::ReleaseAndReport(JobReport::ConverterUnavailable))
        },
        WorkerPhase::Converting => if ok {
            (WorkerPhase::Idle, WorkerAction::ReleaseAndReport(JobReport::Finished))
        } else {
            (WorkerPhase::Idle, WorkerAction::ReleaseAndReport(JobReport::ConversionFailed))
        },
    }
}

/// Says what follows a step of the worker. From `Idle` the step is the
/// arrival of a job.
pub fn worker_next(p: WorkerPhase, ok: bool) -> (r: (WorkerPhase, WorkerAction))
    ensures
        r == worker_step(p, ok),
{
    match p {
        WorkerPhase::Idle => (WorkerPhase::Locking, WorkerAction::AcquireLock),
        WorkerPhase::Locking => if ok {
            (WorkerPhase::Checking, WorkerAction::CheckConverter)
        } else {
            (WorkerPhase::Idle, WorkerAction::Report(JobReport::LockUnavailable))
        },
        WorkerPhase::Checking => if ok {
            (WorkerPhase::Converting, WorkerAction::ConvertHour)
        } else {
            (WorkerPhase::Idle, WorkerAction::ReleaseAndReport(JobReport::ConverterUnavailable))
        },
        WorkerPhase::Converting => if ok {
            (WorkerPhase::Idle, WorkerAction::ReleaseAndReport(JobReport::Finished))
        } else {
            (WorkerPhase::Idle, WorkerAction::ReleaseAndReport(JobReport::ConversionFailed))
        },
    }
}

/// The rules of the lock. A conversion is started only by a worker that
/// holds the lock, so no two run at a time. The lock is given back exactly
/// when it is held and the job ends. A failure of any kind leaves the
/// worker ready for the next job.
pub proof fn lemma_worker_lock(p: WorkerPhase, ok: bool)
    ensures
        ({
            let (q, action) = worker_step(p, ok);
            &&& action == WorkerAction::ConvertHour ==> lock_held(p) && lock_held(q)
            &&& (action is ReleaseAndReport) <==> (lock_held(p) && !lock_held(q))
            &&& (!lock_held(p) && lock_held(q)) ==> (p == WorkerPhase::Locking && ok)
            &&& !ok ==> (q == WorkerPhase::Idle || p == WorkerPhase::Idle)
        }),
{
}

/// What the worker's queue gave within the polling interval.
#[derive(Clone, Copy, Debug, PartialEq, Eq, Structural)]
pub enum QueueEvent {
    /// A job.
    Job(ConversionJob),
    /// Nothing yet.
    Timeout,
    /// Nothing, and no sender is left.
    Disconnected,
}

/// What the worker does after a poll of its queue.
#[derive(Clone, Copy, Debug, PartialEq, Eq, Structural)]
pub enum QueueAction {
    /// Convert the hour, then poll again.
    Convert(ConversionJob),
    /// Poll again.
    Poll,
    /// Convert what is still queued, then stop.
    Drain,
}

/// What follows a poll: a job is converted; an empty queue is polled again
/// while the program runs; on shutdown, and when no sender is left, what is
/// still queued is converted and the worker stops.
pub open spec fn queue_step(event: QueueEvent, running: bool) -> QueueAction {
    match event {
        QueueEvent::Job(job) => QueueAction::Convert(job),
        QueueEvent::Timeout => if running {
            QueueAction::Poll
        } else {
            QueueAction::Drain
        },
        QueueEvent::Disconnected => QueueAction::Drain,
    }
}

/// Says what the worker does after a poll of its queue.
pub fn queue_next(event: QueueEvent, running: bool) -> (r: QueueAction)
    ensures
        r == queue_step(event, running),
{
    match event {
        QueueEvent::Job(job) => QueueAction::Convert(job),
        QueueEvent::Timeout => if running {
            QueueAction::Poll
        } else {
            QueueAction::Drain
        },
        QueueEvent::Disconnected => QueueAction::Drain,
    }
}

/// No job that reaches the worker is dropped: whatever the run flag says,
/// a job that the queue hands out is converted.
pub proof fn lemma_no_job_dropped(job: ConversionJob, running: bool)
    ensures
        queue_step(QueueEvent::Job(job), running) == QueueAction::Convert(job),
{
}

} // verus!
