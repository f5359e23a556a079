//! The records that retrieval and indexing pass around.
use vstd::prelude::*;

verus! {

/// A chunk found for a question: where it comes from and what it says. (How well it matched is
/// a floating-point score that the caller keeps beside it.)
#[derive(Debug, Clone)]
pub struct RetrievedChunk {
    pub chunk_id: String,
    pub file: String,
    pub text: String,
    pub page_start: Option<i64>,
    pub page_end: Option<i64>,
}

/// A source shown with an answer.
#[derive(Debug, Clone)]
pub struct Citation {
    pub file: String,
    pub page_start: Option<i64>,
    pub page_end: Option<i64>,
    pub chunk_id: String,
    pub excerpt: String,
}

/// The progress of a scan job.
#[derive(Debug, Clone)]
pub struct ScanStatus {
    pub job_id: String,
    pub status: String,
    pub total_files: i64,
    pub processed_files: i64,
    pub failed_files: i64,
    pub current_file: Option<String>,
}

/// A file that could not be indexed.
#[derive(Debug, Clone)]
pub struct FailureEntry {
    pub path: String,
    pub stage: String,
    pub message: String,
    pub retryable: bool,
}

/// An indexed document.
#[derive(Debug, Clone)]
pub struct DocumentRecord {
    pub id: String,
    pub abs_path: String,
    pub rel_path: String,
    pub file_ext: String,
    pub file_hash: String,
    pub mtime_ms: i64,
    pub size_bytes: i64,
}

} // verus!
