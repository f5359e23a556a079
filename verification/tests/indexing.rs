use search_agent::chunking::Chunk;
use search_agent::indexing::{
    check_embedding_count, chunk_id, document_id_for, chunk_records, chunks_for_text, document_record,
    keyword_docs, record_ids, IndexError, CHUNK_OVERLAP_TOKENS, CHUNK_TARGET_TOKENS,
};

#[test]
fn blank_text_is_refused() {
    assert_eq!(chunks_for_text("  \n\t ").unwrap_err(), IndexError::NoText);
    assert_eq!(chunks_for_text("").unwrap_err(), IndexError::NoText);
    assert_eq!(IndexError::NoText.message(), "no text extracted");
}

#[test]
fn text_is_cut_with_indexing_sizes() {
    assert_eq!(CHUNK_TARGET_TOKENS, 220);
    assert_eq!(CHUNK_OVERLAP_TOKENS, 40);
    let chunks = chunks_for_text("hello world\nsecond line").unwrap();
    assert_eq!(chunks.len(), 1);
    assert_eq!(chunks[0].text, "hello world\nsecond line");
    assert_eq!(chunks[0].token_count, 4);
}

#[test]
fn embedding_count_must_match() {
    assert!(check_embedding_count(3, 3).is_ok());
    assert_eq!(
        check_embedding_count(3, 2).unwrap_err(),
        IndexError::EmbeddingCountMismatch
    );
    assert_eq!(
        IndexError::EmbeddingCountMismatch.message(),
        "embedding count mismatch"
    );
}

#[test]
fn chunk_ids_are_document_and_position() {
    assert_eq!(chunk_id("doc1", 0), "doc1:0");
    assert_eq!(chunk_id("doc1", 12), "doc1:12");
    assert_eq!(chunk_id("d", 105), "d:105");
}

fn chunk(i: usize, text: &str) -> Chunk {
    Chunk {
        chunk_index: i,
        text: text.into(),
        token_count: 1,
        section: None,
        page_start: None,
        page_end: None,
    }
}

#[test]
fn records_carry_document_and_chunk() {
    let records = chunk_records(
        "doc1",
        "/tmp/doc1.txt",
        "doc1.txt",
        vec![chunk(0, "intro"), chunk(1, "search agent supports local first retrieval")],
    );
    assert_eq!(records.len(), 2);
    assert_eq!(records[0].chunk_id, "doc1:0");
    assert_eq!(records[1].chunk_id, "doc1:1");
    assert_eq!(records[1].document_id, "doc1");
    assert_eq!(records[1].abs_path, "/tmp/doc1.txt");
    assert_eq!(records[1].rel_path, "doc1.txt");
    assert_eq!(records[1].text, "search agent supports local first retrieval");
    assert_eq!(record_ids(&records), vec!["doc1:0", "doc1:1"]);
    let docs = keyword_docs(&records);
    assert_eq!(docs[0], ("doc1:0".to_string(), "intro".to_string()));
}

#[test]
fn document_extension_is_lowercased() {
    let d = document_record(
        "id".into(),
        "/a/B.PDF".into(),
        "B.PDF".into(),
        "PDF",
        "hash".into(),
        7,
        9,
    );
    assert_eq!(d.file_ext, "pdf");
    assert_eq!(d.mtime_ms, 7);
    assert_eq!(d.size_bytes, 9);
    assert_eq!(d.rel_path, "B.PDF");
}

#[test]
fn reindexed_file_keeps_its_document_id() {
    assert_eq!(document_id_for(Some("d0".into()), "fresh".into()), "d0");
    assert_eq!(document_id_for(None, "fresh".into()), "fresh");
}
