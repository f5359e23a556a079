//! Indexing one file: its text must not be blank, it is cut into chunks of about 220 tokens
//! that overlap by about 40, every chunk needs one embedding, and each chunk is stored under
//! the id `<document id>:<position>`.
use vstd::prelude::*;

use crate::chunking::{chunk_plan, chunk_text, is_chunk_of, Chunk};
use crate::lifecycle::opt_chars;
use crate::models::DocumentRecord;
use crate::prompt::{decimal, decimal_chars, digit};
use crate::text::{chars_of, lowercase, string_of, to_lowercase, trim, trim_chars};

verus! {

broadcast use vstd::string::group_string_axioms;

/// The size of a chunk, in approximate tokens.
pub const CHUNK_TARGET_TOKENS: usize = 220;

/// How much of the chunk before each chunk repeats, in approximate tokens.
pub const CHUNK_OVERLAP_TOKENS: usize = 40;

/// Why a file could not be indexed, once its text was read.
#[derive(Debug, Clone, Copy, PartialEq, Eq, Structural)]
pub enum IndexError {
    /// The text is empty or only white space.
    NoText,
    /// The embedding service answered with another number of vectors than chunks.
    EmbeddingCountMismatch,
}

impl IndexError {
    /// The error's message.
    pub fn message(&self) -> (r: String)
        ensures
            r@ == (match self {
                IndexError::NoText => "no text extracted"@,
                IndexError::EmbeddingCountMismatch => "embedding count mismatch"@,
            }),
    {
        match self {
            IndexError::NoText => String::from_str("no text extracted"),
            IndexError::EmbeddingCountMismatch => String::from_str("embedding count mismatch"),
        }
    }
}

/// The chunk plan of an extracted text, with the sizes used for indexing.
pub open spec fn index_plan(text: Seq<char>) -> Seq<(int, int, nat)> {
    chunk_plan(text, CHUNK_TARGET_TOKENS as nat, CHUNK_OVERLAP_TOKENS as nat)
}

/// The chunks of an extracted text: refused when the text is blank, else cut with the sizes
/// used for indexing.
pub fn chunks_for_text(text: &str) -> (r: Result<Vec<Chunk>, IndexError>)
    ensures
        r is Err <==> trim(text@).len() == 0,
        r matches Err(e) ==> e == IndexError::NoText,
        r matches Ok(cs) ==> cs@.len() == index_plan(text@).len() && forall|i: int|
            0 <= i < cs@.len() ==> is_chunk_of(#[trigger] cs@[i], i, text@, index_plan(text@)[i]),
{
    let chars = chars_of(text);
    let trimmed = trim_chars(chars.as_slice());
    if trimmed.len() == 0 {
        return Err(IndexError::NoText);
    }
    Ok(chunk_text(text, CHUNK_TARGET_TOKENS, CHUNK_OVERLAP_TOKENS))
}

/// Every chunk must have its embedding.
pub fn check_embedding_count(chunks: usize, embeddings: usize) -> (r: Result<(), IndexError>)
    ensures
        r is Ok <==> chunks == embeddings,
        r matches Err(e) ==> e == IndexError::EmbeddingCountMismatch,
{
    if embeddings != chunks {
        Err(IndexError::EmbeddingCountMismatch)
    } else {
        Ok(())
    }
}

/// The id of the chunk at position `idx` of a document.
pub open spec fn chunk_id_of(doc_id: Seq<char>, idx: nat) -> Seq<char> {
    doc_id + ":"@ + decimal(idx)
}

/// The id of the chunk at position `idx` of the document `doc_id`.
pub fn chunk_id(doc_id: &str, idx: usize) -> (r: String)
    ensures
        r@ == chunk_id_of(doc_id@, idx as nat),
{
    let digits = decimal_chars(idx);
    let suffix = string_of(digits.as_slice());
    let head = String::from_str(doc_id).concat(":");
    head.concat(suffix.as_str())
}

/// A chunk as it is stored, without its embedding (which the caller keeps beside it).
#[derive(Debug, Clone)]
pub struct ChunkRecord {
    pub chunk_id: String,
    pub document_id: String,
    pub abs_path: String,
    pub rel_path: String,
    pub page_start: Option<i64>,
    pub page_end: Option<i64>,
    pub section: Option<String>,
    pub text: String,
}

/// `r` is the record of the chunk `c` at position `i` of the document.
pub open spec fn is_record_of(
    r: ChunkRecord,
    c: Chunk,
    i: int,
    doc_id: Seq<char>,
    abs_path: Seq<char>,
    rel_path: Seq<char>,
) -> bool {
    &&& r.chunk_id@ == chunk_id_of(doc_id, i as nat)
    &&& r.document_id@ == doc_id
    &&& r.abs_path@ == abs_path
    &&& r.rel_path@ == rel_path
    &&& r.page_start == c.page_start
    &&& r.page_end == c.page_end
    &&& opt_chars(r.section) == opt_chars(c.section)
    &&& r.text@ == c.text@
}

/// The records of a document's chunks, in order.
pub fn chunk_records(doc_id: &str, abs_path: &str, rel_path: &str, chunks: Vec<Chunk>) -> (r: Vec<ChunkRecord>)
    ensures
        r@.len() == chunks@.len(),
        forall|i: int|
            0 <= i < r@.len() ==> is_record_of(
                #[trigger] r@[i],
                chunks@[i],
                i,
                doc_id@,
                abs_path@,
                rel_path@,
            ),
{
    let mut out: Vec<ChunkRecord> = Vec::new();
    let mut i: usize = 0;
    while i < chunks.len()
        invariant
            i <= chunks@.len(),
            out@.len() == i,
            forall|j: int|
                0 <= j < i ==> is_record_of(#[trigger] out@[j], chunks@[j], j, doc_id@, abs_path@, rel_path@),
        decreases chunks.len() - i,
    {
        let c = &chunks[i];
        let section = match &c.section {
            Some(s) => Some(s.clone()),
            None => None,
        };
        let rec = ChunkRecord {
            chunk_id: chunk_id(doc_id, i),
            document_id: String::from_str(doc_id),
            abs_path: String::from_str(abs_path),
            rel_path: String::from_str(rel_path),
            page_start: c.page_start,
            page_end: c.page_end,
            section,
            text: c.text.clone(),
        };
        out.push(rec);
        i = i + 1;
    }
    out
}

/// The ids of the records, in order.
pub fn record_ids(records: &[ChunkRecord]) -> (r: Vec<String>)
    ensures
        r@.len() == records@.len(),
        forall|i: int| 0 <= i < r@.len() ==> (#[trigger] r@[i])@ == records@[i].chunk_id@,
{
    let mut out: Vec<String> = Vec::new();
    let mut i: usize = 0;
    while i < records.len()
        invariant
            i <= records@.len(),
            out@.len() == i,
            forall|j: int| 0 <= j < i ==> (#[trigger] out@[j])@ == records@[j].chunk_id@,
        decreases records.len() - i,
    {
        out.push(records[i].chunk_id.clone());
        i = i + 1;
    }
    out
}

/// What the keyword index receives for the records: each chunk's id and text, in order.
pub fn keyword_docs(records: &[ChunkRecord]) -> (r: Vec<(String, String)>)
    ensures
        r@.len() == records@.len(),
        forall|i: int|
            0 <= i < r@.len() ==> (#[trigger] r@[i]).0@ == records@[i].chunk_id@ && r@[i].1@
                == records@[i].text@,
{
    let mut out: Vec<(String, String)> = Vec::new();
    let mut i: usize = 0;
    while i < records.len()
        invariant
            i <= records@.len(),
            out@.len() == i,
            forall|j: int|
                0 <= j < i ==> (#[trigger] out@[j]).0@ == records@[j].chunk_id@ && out@[j].1@
                    == records@[j].text@,
        decreases records.len() - i,
    {
        out.push((records[i].chunk_id.clone(), records[i].text.clone()));
        i = i + 1;
    }
    out
}

/// The id under which a file is indexed: the id of its document record when it was indexed
/// before, so that its new chunks replace the old ones, else a fresh id.
pub fn document_id_for(prior: Option<String>, fresh: String) -> (r: String)
    ensures
        r@ == (match prior {
            Some(p) => p@,
            None => fresh@,
        }),
{
    match prior {
        Some(p) => p,
        None => fresh,
    }
}

/// The record of an indexed file; its extension (empty when it has none) is kept lowercased.
pub fn document_record(
    id: String,
    abs_path: String,
    rel_path: String,
    extension: &str,
    file_hash: String,
    mtime_ms: i64,
    size_bytes: i64,
) -> (r: DocumentRecord)
    ensures
        r.id@ == id@,
        r.abs_path@ == abs_path@,
        r.rel_path@ == rel_path@,
        r.file_ext@ == lowercase(extension@),
        r.file_hash@ == file_hash@,
        r.mtime_ms == mtime_ms,
        r.size_bytes == size_bytes,
{
    DocumentRecord {
        id,
        abs_path,
        rel_path,
        file_ext: to_lowercase(extension),
        file_hash,
        mtime_ms,
        size_bytes,
    }
}

proof fn lemma_digit_injective(a: nat, b: nat)
    requires
        a < 10,
        b < 10,
        digit(a) == digit(b),
    ensures
        a == b,
{
}

proof fn lemma_decimal_len(n: nat)
    ensures
        decimal(n).len() >= 1,
        n >= 10 ==> decimal(n).len() >= 2,
    decreases n,
{
    if n >= 10 {
        lemma_decimal_len(n / 10);
    }
}

/// Writing numbers in decimal loses nothing: different numbers have different digits.
pub proof fn lemma_decimal_injective(a: nat, b: nat)
    requires
        decimal(a) == decimal(b),
    ensures
        a == b,
    decreases a,
{
    lemma_decimal_len(a);
    lemma_decimal_len(b);
    if a < 10 && b < 10 {
        assert(decimal(a)[0] == digit(a));
        assert(decimal(b)[0] == digit(b));
        lemma_digit_injective(a, b);
    } else if a < 10 || b < 10 {
        assert(decimal(a).len() != decimal(b).len());
    } else {
        let da = decimal(a);
        let db = decimal(b);
        assert(da.last() == digit(a % 10));
        assert(db.last() == digit(b % 10));
        lemma_digit_injective(a % 10, b % 10);
        assert(da.drop_last() == decimal(a / 10));
        assert(db.drop_last() == decimal(b / 10));
        lemma_decimal_injective(a / 10, b / 10);
    }
}

proof fn lemma_decimal_no_colon(n: nat)
    ensures
        forall|k: int| 0 <= k < decimal(n).len() ==> #[trigger] decimal(n)[k] != ':',
    decreases n,
{
    if n >= 10 {
        lemma_decimal_no_colon(n / 10);
        let d = decimal(n);
        assert forall|k: int| 0 <= k < d.len() implies #[trigger] d[k] != ':' by {
            if k < d.len() - 1 {
                assert(d[k] == decimal(n / 10)[k]);
            }
        }
    }
}

/// Chunk ids never collide: the id of a chunk tells its document and its position, so two
/// chunks share an id only when they are the same chunk of the same document.
pub proof fn lemma_chunk_ids_distinct(doc_id: Seq<char>, other: Seq<char>, i: nat, j: nat)
    requires
        chunk_id_of(doc_id, i) == chunk_id_of(other, j),
    ensures
        doc_id == other,
        i == j,
{
    reveal_strlit(":");
    let a = chunk_id_of(doc_id, i);
    let b = chunk_id_of(other, j);
    lemma_decimal_no_colon(i);
    lemma_decimal_no_colon(j);
    let n = doc_id.len() as int;
    let m = other.len() as int;
    assert(a.len() == n + 1 + decimal(i).len());
    assert(b.len() == m + 1 + decimal(j).len());
    if n < m {
        assert(b[m] == ':');
        assert(a[m] == decimal(i)[m - n - 1]);
    } else if m < n {
        assert(a[n] == ':');
        assert(b[n] == decimal(j)[n - m - 1]);
    }
    assert(a.subrange(0, n) =~= doc_id);
    assert(b.subrange(0, n) =~= other);
    assert(a.subrange(n + 1, a.len() as int) =~= decimal(i));
    assert(b.subrange(n + 1, a.len() as int) =~= decimal(j));
    lemma_decimal_injective(i, j);
}

} // verus!
