use search_agent::models::RetrievedChunk;
use search_agent::retrieval::{chat_model_or_default, chat_next, ChatReply, ChatSource, ChatStep};
use search_agent::retrieval::{
    answer_with_model, answer_without_model, citations, has_answer_text, keyword_additions, keyword_merge,
    keyword_placeholder, overlap_counts, overlap_counts_lowered, AskRequest,
};

fn chunk(id: &str, file: &str, text: &str) -> RetrievedChunk {
    RetrievedChunk {
        chunk_id: id.into(),
        file: file.into(),
        text: text.into(),
        page_start: Some(1),
        page_end: Some(2),
    }
}

#[test]
fn citation_quotes_at_most_220_chars() {
    let long = "x".repeat(300);
    let c = citations(&[chunk("c1", "f.txt", &long), chunk("c2", "g.txt", "short")]);
    assert_eq!(c.len(), 2);
    assert_eq!(c[0].excerpt.chars().count(), 220);
    assert_eq!(c[0].chunk_id, "c1");
    assert_eq!(c[0].file, "f.txt");
    assert_eq!(c[0].page_start, Some(1));
    assert_eq!(c[1].excerpt, "short");
}

#[test]
fn overlap_counts_question_words() {
    let counts = overlap_counts(
        "Where is the Config",
        &[chunk("a", "f", "the config file is here"), chunk("b", "f", "nothing")],
    );
    assert_eq!(counts, vec![3, 0]);
}

#[test]
fn hybrid_adds_unseen_keyword_hits_once() {
    let chunks = vec![chunk("a", "f", "t"), chunk("b", "f", "t")];
    let add = keyword_additions(
        &chunks,
        &["b".to_string(), "c".to_string(), "c".to_string(), "d".to_string()],
    );
    assert_eq!(add, vec!["c", "d"]);
    let p = keyword_placeholder("c".into());
    assert_eq!(p.file, "unknown");
    assert!(p.text.is_empty());
    assert_eq!(p.page_start, None);
}

#[test]
fn request_defaults() {
    let r = AskRequest { question: "q".into(), top_k: None, hybrid: None, rerank: None };
    assert_eq!(r.retrieval_count(), 6);
    assert!(r.uses_hybrid());
    assert!(r.uses_rerank());
    let r = AskRequest { question: "q".into(), top_k: Some(0), hybrid: Some(false), rerank: Some(false) };
    assert_eq!(r.retrieval_count(), 1);
    assert!(!r.uses_hybrid());
    assert!(!r.uses_rerank());
}

#[test]
fn blank_chunks_are_not_used() {
    assert!(!has_answer_text("  \n"));
    assert!(has_answer_text(" a "));
}

#[test]
fn nothing_retrieved_is_not_found() {
    let r = answer_without_model("anything?", &[], 5).unwrap();
    assert_eq!(r.answer, "Not found in indexed documents.");
    assert!(r.not_found);
    assert!(r.citations.is_empty());
    assert_eq!(r.latency_ms, 5);
}

#[test]
fn extractive_answer_cites_its_source() {
    let chunks = vec![
        chunk("c0", "a.txt", "unrelated text"),
        chunk("c1", "test.js", "const input = [\"zebra\", \"dog\"]"),
    ];
    let r = answer_without_model("what is the value of input?", &chunks, 1).unwrap();
    assert!(!r.not_found);
    assert!(r.answer.contains("zebra"));
    assert_eq!(r.citations.len(), 1);
    assert_eq!(r.citations[0].chunk_id, "c1");
}

#[test]
fn no_extractive_answer_asks_the_model() {
    let chunks = vec![chunk("c0", "a.txt", "the sky is blue")];
    assert!(answer_without_model("why is the sky blue", &chunks, 1).is_none());
}

#[test]
fn model_answer_and_citations() {
    let chunks: Vec<_> = (0..5).map(|i| chunk(&format!("c{i}"), "a.txt", "text")).collect();
    let r = answer_with_model("q", "It is blue.".into(), &chunks, 9);
    assert_eq!(r.answer, "It is blue.");
    assert!(!r.not_found);
    assert_eq!(r.citations.len(), 3);
    assert_eq!(r.citations[2].chunk_id, "c2");
    let r = answer_with_model("q", " Not found in indexed documents. ".into(), &chunks[..1], 9);
    assert!(r.not_found);
    assert_eq!(r.citations.len(), 1);
}

#[test]
fn no_keyword_hits_leaves_vector_hits_alone() {
    let chunks = vec![chunk("a", "f", "t")];
    assert!(keyword_merge(&chunks, &[]).is_none());
    assert_eq!(keyword_merge(&chunks, &["a".to_string(), "z".to_string()]).unwrap(), vec!["z"]);
}

#[test]
fn overlap_from_lowered_texts() {
    let counts = overlap_counts_lowered("where is the config", &["the config file is here".to_string(), "x".to_string()]);
    assert_eq!(counts, vec![3, 0]);
}

#[test]
fn chat_services_in_order() {
    assert_eq!(chat_model_or_default(None), "llama3:latest");
    assert_eq!(chat_model_or_default(Some("m".into())), "m");
    assert!(matches!(chat_next(ChatSource::OpenAi, ChatReply::Content("hi".into())), ChatStep::Answer(a) if a == "hi"));
    assert!(matches!(chat_next(ChatSource::OpenAi, ChatReply::NoContent), ChatStep::Ask(ChatSource::Ollama)));
    assert!(matches!(chat_next(ChatSource::OpenAi, ChatReply::Failed), ChatStep::Ask(ChatSource::Ollama)));
    assert!(matches!(chat_next(ChatSource::Ollama, ChatReply::Failed), ChatStep::Answer(a) if a == "Not found in indexed documents."));
    assert!(matches!(chat_next(ChatSource::Ollama, ChatReply::Unreadable), ChatStep::ReturnError));
}
