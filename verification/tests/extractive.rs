use search_agent::extractive::{
    answer_from_context, answer_possession_lowered, name_from_matches, value_from_matches,
    cleanup_js_value, cleanup_python_value, cut_balanced, cut_string_literal,
    infer_variable_name, normalize, topic_from_tokens,
};
use search_agent::models::RetrievedChunk;

fn chunk(file: &str, text: &str) -> RetrievedChunk {
    RetrievedChunk {
        chunk_id: "c1".into(),
        file: file.into(),
        text: text.into(),
        page_start: None,
        page_end: None,
    }
}

#[test]
fn extracts_js_value() {
    let chunks = vec![chunk("test.js", "const input = [\"zebra\", \"dog\"]")];
    let ans = answer_from_context("what is the value of input?", &chunks).unwrap();
    assert!(ans.answer.contains("zebra"));
    assert!(!ans.answer.contains("const output"));
}

#[test]
fn extracts_only_array_when_chunk_has_multiple_decls() {
    let chunks = vec![chunk(
        "test.js",
        "const input = [\"zebra\", \"dog\", \"duck\", \"dove\"] const output = [\"z\", \"dog\"]",
    )];
    let ans = answer_from_context("value of input", &chunks).unwrap();
    assert_eq!(ans.answer, "`input` = [\"zebra\", \"dog\", \"duck\", \"dove\"]");
}

#[test]
fn answers_possession_question_concisely() {
    let chunks = vec![chunk(
        "Ashvini JavaScript.pdf",
        "Statement of Achievement JavaScript Essentials 1",
    )];
    let ans = answer_from_context("Do i have javascript certificate?", &chunks).unwrap();
    assert!(ans.answer.to_lowercase().starts_with("yes"));
    assert!(ans.answer.to_lowercase().contains("javascript"));
}

#[test]
fn possession_reply_exact_text() {
    let chunks = vec![chunk("notes.txt", "my rust book"), chunk("x.pdf", "Rust programming guide")];
    let ans = answer_from_context("Did I read rust programming?", &chunks).unwrap();
    assert_eq!(ans.answer, "Yes, I found read rust programming in your indexed documents.");
    assert_eq!(ans.source_chunk_index, 1);
}

#[test]
fn python_value_and_source_chunk() {
    let chunks = vec![chunk("a.txt", "nothing here"), chunk("b.py", "limit = 42,\nother = 1")];
    let ans = answer_from_context("what's limit", &chunks).unwrap();
    assert_eq!(ans.answer, "`limit` = 42");
    assert_eq!(ans.source_chunk_index, 1);
}

#[test]
fn object_and_string_values() {
    let chunks = vec![chunk("c.js", "let cfg = { a: \"}\", b: 2 }; let x = 1")];
    let ans = answer_from_context("value of cfg", &chunks).unwrap();
    assert_eq!(ans.answer, "`cfg` = { a: \"}\", b: 2 }");
    let chunks = vec![chunk("d.js", "var greeting = 'it\\'s' + more")];
    let ans = answer_from_context("value of greeting", &chunks).unwrap();
    assert_eq!(ans.answer, "`greeting` = 'it\\'s'");
}

#[test]
fn no_answer_without_question_form() {
    let chunks = vec![chunk("a.txt", "const a = 1")];
    assert!(answer_from_context("tell me a story", &chunks).is_none());
    assert!(answer_from_context("do i have", &chunks).is_none());
}

#[test]
fn name_after_of_is_found() {
    assert_eq!(infer_variable_name("the size of buffer!").as_deref(), Some("buffer"));
    assert_eq!(infer_variable_name("What is Foo").as_deref(), Some("foo"));
    assert_eq!(infer_variable_name("of 9 items"), None);
}

#[test]
fn value_cleanup_helpers() {
    assert_eq!(normalize("a-b_c, d!"), "a b_c  d ");
    assert_eq!(cut_balanced("[1, [2], \"]\"] rest", '[', ']').as_deref(), Some("[1, [2], \"]\"]"));
    assert_eq!(cut_balanced("[1, 2", '[', ']'), None);
    assert_eq!(cut_string_literal("'a\\'b' + c").as_deref(), Some("'a\\'b'"));
    assert_eq!(cut_string_literal("'open"), None);
    assert_eq!(cleanup_js_value("  42, const y = 1"), "42");
    assert_eq!(cleanup_js_value("[1, 2] let z"), "[1, 2]");
    assert_eq!(cleanup_python_value(" 7,, "), "7");
    let toks: Vec<String> = ["javascript", "certificate", "essentials", "one", "two", "three"]
        .iter()
        .map(|s| s.to_string())
        .collect();
    assert_eq!(topic_from_tokens(&toks), "javascript essentials one two");
    assert_eq!(topic_from_tokens(&["certificate".to_string()]), "that");
}

#[test]
fn answers_from_the_call_results() {
    let groups = vec![None, Some(Some("limit".to_string())), None];
    assert_eq!(name_from_matches(&groups, "what is it").as_deref(), Some("limit"));
    assert_eq!(name_from_matches(&[None, Some(None)], "size of buf").as_deref(), Some("buf"));
    assert_eq!(name_from_matches(&[], "nothing here"), None);

    let js = vec![None, Some(Some(" [1, 2]; ".to_string()))];
    let py = vec![Some(Some("7".to_string())), None];
    let a = value_from_matches("x", &js, &py).unwrap();
    assert_eq!(a.answer, "`x` = 7");
    assert_eq!(a.source_chunk_index, 0);
    let a = value_from_matches("x", &js[1..], &[None]).unwrap();
    assert_eq!(a.answer, "`x` = [1, 2]");
    assert!(value_from_matches("x", &[Some(None)], &[Some(Some("1".to_string()))]).is_none());

    let hays = vec!["a.txt notes".to_string(), "cert.pdf rust essentials".to_string()];
    let a = answer_possession_lowered("do i have rust essentials", &hays).unwrap();
    assert_eq!(a.answer, "Yes, I found rust essentials in your indexed documents.");
    assert_eq!(a.source_chunk_index, 1);
    assert!(answer_possession_lowered("where is rust", &hays).is_none());
}
