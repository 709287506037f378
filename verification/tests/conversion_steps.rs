use gnss2tec_logger::hours::ConversionJob;
use gnss2tec_logger::workflow::{
    is_workspace_live, next_step, queue_next, worker_next, Action, JobReport, Outcome, Phase,
    QueueAction, QueueEvent, Verdict, WorkerAction, WorkerPhase,
};

fn run(outcomes: &[Outcome], nav: bool, keep: bool) -> (Phase, Vec<Action>) {
    let mut phase = Phase::Start;
    let mut actions = Vec::new();
    // The first step needs no outcome: nothing has been asked for yet.
    let (next, action) = next_step(phase, Outcome::Succeeded, nav, keep);
    phase = next;
    actions.push(action);
    for outcome in outcomes {
        let (next, action) = next_step(phase, *outcome, nav, keep);
        phase = next;
        actions.push(action);
    }
    (phase, actions)
}

fn removals(actions: &[Action]) -> usize {
    actions.iter().filter(|a| **a == Action::RemoveWorkspace).count()
}

#[test]
fn conversion_with_navigation_runs_every_step() {
    let (phase, actions) = run(&[Outcome::Succeeded; 13], true, false);
    assert_eq!(phase, Phase::Done(Verdict::Converted));
    assert_eq!(
        actions,
        vec![
            Action::ListSegments,
            Action::CreateWorkspace,
            Action::SnapshotDataDir,
            Action::MergeSegments,
            Action::RunObservation,
            Action::RunNavigation,
            Action::ListWorkspace,
            Action::RenameProducts,
            Action::Validate,
            Action::PrepareArchive,
            Action::MoveProducts,
            Action::RemoveSegments,
            Action::RemoveWorkspace,
            Action::Finish(Verdict::Converted),
        ]
    );
}

#[test]
fn conversion_without_navigation_that_keeps_its_inputs() {
    let (phase, actions) = run(&[Outcome::Succeeded; 11], false, true);
    assert_eq!(phase, Phase::Done(Verdict::Converted));
    assert_eq!(
        actions,
        vec![
            Action::ListSegments,
            Action::CreateWorkspace,
            Action::SnapshotDataDir,
            Action::MergeSegments,
            Action::RunObservation,
            Action::ListWorkspace,
            Action::RenameProducts,
            Action::Validate,
            Action::PrepareArchive,
            Action::MoveProducts,
            Action::RemoveWorkspace,
            Action::Finish(Verdict::Converted),
        ]
    );
}

#[test]
fn hour_without_segments_is_skipped() {
    let (phase, actions) = run(&[Outcome::Empty], true, false);
    assert_eq!(phase, Phase::Done(Verdict::Skipped));
    assert_eq!(actions, vec![Action::ListSegments, Action::Finish(Verdict::Skipped)]);
    assert_eq!(removals(&actions), 0);
}

#[test]
fn failure_before_the_workspace_exists_ends_at_once() {
    let (phase, actions) = run(&[Outcome::Failed], true, false);
    assert_eq!(phase, Phase::Done(Verdict::Failed));
    assert_eq!(actions, vec![Action::ListSegments, Action::Finish(Verdict::Failed)]);

    let (phase, actions) = run(&[Outcome::Succeeded, Outcome::Failed], true, false);
    assert_eq!(phase, Phase::Done(Verdict::Failed));
    assert_eq!(
        actions,
        vec![Action::ListSegments, Action::CreateWorkspace, Action::Finish(Verdict::Failed)]
    );
    assert_eq!(removals(&actions), 0);
}

#[test]
fn workspace_is_removed_after_a_failure_at_any_step() {
    for nav in [false, true] {
        for keep in [false, true] {
            for good in 2..14usize {
                let mut outcomes = vec![Outcome::Succeeded; good];
                outcomes.push(Outcome::Failed);
                outcomes.push(Outcome::Failed);
                outcomes.push(Outcome::Failed);
                let (phase, actions) = run(&outcomes, nav, keep);
                assert!(matches!(phase, Phase::Done(_)));
                assert_eq!(removals(&actions), 1);
                let at = actions.iter().position(|a| *a == Action::RemoveWorkspace).unwrap();
                assert!(matches!(actions[at + 1], Action::Finish(_)));
            }
        }
    }
}

#[test]
fn failed_validation_removes_the_workspace_and_fails() {
    let mut outcomes = vec![Outcome::Succeeded; 7];
    outcomes.push(Outcome::Failed);
    outcomes.push(Outcome::Succeeded);
    let (phase, actions) = run(&outcomes, false, false);
    assert_eq!(phase, Phase::Done(Verdict::Failed));
    assert_eq!(actions[7], Action::Validate);
    assert_eq!(actions[8], Action::RemoveWorkspace);
    assert_eq!(actions[9], Action::Finish(Verdict::Failed));
    assert!(!actions.contains(&Action::MoveProducts));
    assert!(!actions.contains(&Action::RemoveSegments));
}

#[test]
fn failed_cleanup_does_not_change_the_verdict() {
    assert_eq!(
        next_step(Phase::Cleaning(Verdict::Converted), Outcome::Failed, true, false),
        (Phase::Done(Verdict::Converted), Action::Finish(Verdict::Converted))
    );
    assert_eq!(
        next_step(Phase::Cleaning(Verdict::Failed), Outcome::Succeeded, true, false),
        (Phase::Done(Verdict::Failed), Action::Finish(Verdict::Failed))
    );
    assert_eq!(
        next_step(Phase::Done(Verdict::Skipped), Outcome::Failed, true, false),
        (Phase::Done(Verdict::Skipped), Action::Finish(Verdict::Skipped))
    );
}

#[test]
fn empty_workspace_sends_the_search_to_the_data_directory() {
    assert_eq!(
        next_step(Phase::Collecting, Outcome::Empty, true, false),
        (Phase::SnapshotAfter, Action::SnapshotDataDir)
    );
    assert_eq!(
        next_step(Phase::Collecting, Outcome::Succeeded, true, false),
        (Phase::Normalizing, Action::RenameProducts)
    );
    assert_eq!(
        next_step(Phase::SnapshotAfter, Outcome::Empty, true, false),
        (Phase::Normalizing, Action::RenameProducts)
    );
    assert_eq!(
        next_step(Phase::SnapshotAfter, Outcome::Failed, true, false),
        (Phase::Cleaning(Verdict::Failed), Action::RemoveWorkspace)
    );
}

#[test]
fn workspace_lives_between_creation_and_removal() {
    assert!(!is_workspace_live(Phase::Start));
    assert!(!is_workspace_live(Phase::Listing));
    assert!(!is_workspace_live(Phase::CreatingWorkspace));
    assert!(is_workspace_live(Phase::SnapshotBefore));
    assert!(is_workspace_live(Phase::Validating));
    assert!(is_workspace_live(Phase::RemovingInputs));
    assert!(!is_workspace_live(Phase::Cleaning(Verdict::Failed)));
    assert!(!is_workspace_live(Phase::Done(Verdict::Converted)));
}

#[test]
fn worker_converts_under_the_lock() {
    assert_eq!(worker_next(WorkerPhase::Idle, true), (WorkerPhase::Locking, WorkerAction::AcquireLock));
    assert_eq!(
        worker_next(WorkerPhase::Locking, true),
        (WorkerPhase::Checking, WorkerAction::CheckConverter)
    );
    assert_eq!(
        worker_next(WorkerPhase::Checking, true),
        (WorkerPhase::Converting, WorkerAction::ConvertHour)
    );
    assert_eq!(
        worker_next(WorkerPhase::Converting, true),
        (WorkerPhase::Idle, WorkerAction::ReleaseAndReport(JobReport::Finished))
    );
}

#[test]
fn worker_passes_over_a_job_it_cannot_do() {
    assert_eq!(
        worker_next(WorkerPhase::Locking, false),
        (WorkerPhase::Idle, WorkerAction::Report(JobReport::LockUnavailable))
    );
    assert_eq!(
        worker_next(WorkerPhase::Checking, false),
        (WorkerPhase::Idle, WorkerAction::ReleaseAndReport(JobReport::ConverterUnavailable))
    );
    assert_eq!(
        worker_next(WorkerPhase::Converting, false),
        (WorkerPhase::Idle, WorkerAction::ReleaseAndReport(JobReport::ConversionFailed))
    );
}

#[test]
fn queue_is_drained_on_shutdown() {
    let job = ConversionJob { hour_start: 1704099600 };
    assert_eq!(queue_next(QueueEvent::Job(job), true), QueueAction::Convert(job));
    assert_eq!(queue_next(QueueEvent::Job(job), false), QueueAction::Convert(job));
    assert_eq!(queue_next(QueueEvent::Timeout, true), QueueAction::Poll);
    assert_eq!(queue_next(QueueEvent::Timeout, false), QueueAction::Drain);
    assert_eq!(queue_next(QueueEvent::Disconnected, true), QueueAction::Drain);
    assert_eq!(queue_next(QueueEvent::Disconnected, false), QueueAction::Drain);
}
