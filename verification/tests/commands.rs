use search_agent::commands::{ScanStatusResponse, ServerStatusResponse};
use search_agent::lifecycle::ServerState;
use search_agent::models::{FailureEntry, ScanStatus};

#[test]
fn scan_status_response_carries_failures() {
    let status = ScanStatus {
        job_id: "j".into(),
        status: "indexing".into(),
        total_files: 3,
        processed_files: 1,
        failed_files: 1,
        current_file: Some("a.txt".into()),
    };
    let failures = vec![FailureEntry {
        path: "b.txt".into(),
        stage: "index".into(),
        message: "no text extracted".into(),
        retryable: true,
    }];
    let r = ScanStatusResponse::from_status(status, failures);
    assert_eq!(r.job_id, "j");
    assert_eq!(r.total_files, 3);
    assert_eq!(r.current_file.as_deref(), Some("a.txt"));
    assert_eq!(r.failures.len(), 1);
    assert_eq!(r.failures[0].path, "b.txt");
}

#[test]
fn server_status_response_from_fresh_state() {
    let s = ServerState::new();
    let r = ServerStatusResponse::from_snapshot(s.snapshot("http://127.0.0.1:11434"));
    assert_eq!(r.status, "stopped");
    assert_eq!(r.ownership, "none");
    assert_eq!(r.endpoint, "http://127.0.0.1:11434");
    assert_eq!(r.pid, None);
}
