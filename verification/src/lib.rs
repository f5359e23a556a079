//! A local-first retrieval library: what to index and how, how a question is answered from the
//! indexed documents, and how the local model server is started, reused and stopped.
use vstd::prelude::*;

pub mod text;
pub mod vector_store;
pub mod chunking;
pub mod commands;
pub mod config;
pub mod embeddings;
pub mod lifecycle;
pub mod extractive;
pub mod files;
pub mod incremental;
pub mod indexing;
pub mod jobs;
pub mod models;
pub mod prompt;
pub mod retrieval;
pub mod scan;

verus! {

} // verus!
