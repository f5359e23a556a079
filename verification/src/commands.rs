//! What the user interface sends and receives.
use vstd::prelude::*;

use crate::lifecycle::{opt_chars, ServerStatusSnapshot};
use crate::models::{FailureEntry, ScanStatus};

verus! {

/// A request to rebuild the index, of a folder or of the last one scanned.
#[derive(Debug, Clone)]
pub struct RebuildRequest {
    pub root_path: Option<String>,
}

/// How much the index holds.
#[derive(Debug, Clone)]
pub struct IndexStatsResponse {
    pub indexed_files: i64,
    pub indexed_chunks: i64,
}

/// A request to scan a folder.
#[derive(Debug, Clone)]
pub struct StartScanRequest {
    pub root_path: String,
}

/// The job that a scan runs as.
#[derive(Debug, Clone)]
pub struct StartScanResponse {
    pub job_id: String,
}

/// A request about a scan job.
#[derive(Debug, Clone)]
pub struct ScanStatusRequest {
    pub job_id: String,
}

/// The progress of a scan job with the files that failed.
#[derive(Debug, Clone)]
pub struct ScanStatusResponse {
    pub job_id: String,
    pub status: String,
    pub total_files: i64,
    pub processed_files: i64,
    pub failed_files: i64,
    pub current_file: Option<String>,
    pub failures: Vec<FailureEntry>,
}

/// The server's state as the user interface shows it.
#[derive(Debug, Clone)]
pub struct ServerStatusResponse {
    pub status: String,
    pub ownership: String,
    pub endpoint: String,
    pub pid: Option<u32>,
    pub message: Option<String>,
}

impl ScanStatusResponse {
    /// The response for a job's status and failures.
    pub fn from_status(status: ScanStatus, failures: Vec<FailureEntry>) -> (r: ScanStatusResponse)
        ensures
            r.job_id == status.job_id,
            r.status == status.status,
            r.total_files == status.total_files,
            r.processed_files == status.processed_files,
            r.failed_files == status.failed_files,
            r.current_file == status.current_file,
            r.failures == failures,
    {
        ScanStatusResponse {
            job_id: status.job_id,
            status: status.status,
            total_files: status.total_files,
            processed_files: status.processed_files,
            failed_files: status.failed_files,
            current_file: status.current_file,
            failures,
        }
    }
}

impl ServerStatusResponse {
    /// The response for a snapshot of the server's state.
    pub fn from_snapshot(s: ServerStatusSnapshot) -> (r: ServerStatusResponse)
        ensures
            r.status == s.status,
            r.ownership == s.ownership,
            r.endpoint == s.endpoint,
            r.pid == s.pid,
            opt_chars(r.message) == opt_chars(s.message),
    {
        ServerStatusResponse {
            status: s.status,
            ownership: s.ownership,
            endpoint: s.endpoint,
            pid: s.pid,
            message: s.message,
        }
    }
}

} // verus!
