use search_agent::scan::{ScanAction, ScanEvent, ScanPhase, ScanRun};

fn run(paths: &[&str], events: Vec<ScanEvent>) -> (ScanRun, Vec<ScanAction>) {
    let mut job = ScanRun::new(paths.iter().map(|s| s.to_string()).collect());
    let mut actions = Vec::new();
    for e in events {
        assert!(job.is_consistent());
        assert!(job.accepts(&e));
        actions.push(job.step(&e));
    }
    (job, actions)
}

#[test]
fn scan_counts_processed_and_failed() {
    let (job, actions) = run(
        &["a.txt", "b.txt"],
        vec![
            ScanEvent::Start,
            ScanEvent::Canceled(false),
            ScanEvent::Saved,
            ScanEvent::Indexed,
            ScanEvent::Saved,
            ScanEvent::Canceled(false),
            ScanEvent::Saved,
            ScanEvent::IndexFailed("boom".into()),
            ScanEvent::Saved,
            ScanEvent::Saved,
            ScanEvent::Saved,
        ],
    );
    assert_eq!(job.processed(), 1);
    assert_eq!(job.failed(), 1);
    assert_eq!(job.phase(), ScanPhase::Finished);
    assert!(matches!(actions[0], ScanAction::CheckCanceled));
    match &actions[1] {
        ScanAction::SaveProgress { processed, failed, current_file, status } => {
            assert_eq!((*processed, *failed), (0, 0));
            assert_eq!(current_file.as_deref(), Some("a.txt"));
            assert_eq!(status, "indexing");
        }
        other => panic!("unexpected {other:?}"),
    }
    assert!(matches!(&actions[2], ScanAction::IndexFile(p) if p == "a.txt"));
    match &actions[7] {
        ScanAction::SaveFailure { path, stage, message, retryable } => {
            assert_eq!(path, "b.txt");
            assert_eq!(stage, "index");
            assert_eq!(message, "boom");
            assert!(*retryable);
        }
        other => panic!("unexpected {other:?}"),
    }
    assert!(matches!(&actions[9], ScanAction::Complete(s) if s == "ready"));
    assert!(matches!(actions[10], ScanAction::Done));
}

#[test]
fn canceled_scan_completes_as_canceled() {
    let (job, actions) = run(
        &["a.txt"],
        vec![ScanEvent::Start, ScanEvent::Canceled(true), ScanEvent::Saved],
    );
    assert!(matches!(&actions[1], ScanAction::Complete(s) if s == "canceled"));
    assert_eq!(job.processed(), 0);
    assert_eq!(job.phase(), ScanPhase::Finished);
}

#[test]
fn empty_scan_is_ready_at_once() {
    let (_job, actions) = run(&[], vec![ScanEvent::Start]);
    assert!(matches!(&actions[0], ScanAction::Complete(s) if s == "ready"));
}
