use search_agent::chunking::{approx_tokens, chunk_text};

#[test]
fn chunking_uses_overlap() {
    let input = (0..120)
        .map(|i| format!("w{i}"))
        .collect::<Vec<_>>()
        .chunks(10)
        .map(|line| line.join(" "))
        .collect::<Vec<_>>()
        .join("\n");
    let chunks = chunk_text(&input, 50, 10);
    assert!(chunks.len() >= 3);
    assert!(chunks[0].token_count >= 40);
}

#[test]
fn chunking_exact_spans_with_overlap() {
    let input = (0..120)
        .map(|i| format!("w{i}"))
        .collect::<Vec<_>>()
        .chunks(10)
        .map(|line| line.join(" "))
        .collect::<Vec<_>>()
        .join("\n");
    let chunks = chunk_text(&input, 50, 10);
    assert_eq!(chunks.len(), 3);
    assert_eq!(chunks[0].token_count, 50);
    assert_eq!(chunks[1].token_count, 50);
    assert_eq!(chunks[2].token_count, 40);
    assert!(chunks[0].text.starts_with("w0 w1"));
    assert!(chunks[1].text.starts_with("w40 w41"));
    assert!(chunks[2].text.starts_with("w80 w81"));
    assert!(chunks[2].text.ends_with("w119"));
    for (i, c) in chunks.iter().enumerate() {
        assert_eq!(c.chunk_index, i);
        assert!(c.section.is_none());
        assert!(c.page_start.is_none() && c.page_end.is_none());
    }
}

#[test]
fn chunking_without_overlap_follows_on() {
    let input = "a b c\nd e\nf g h i\nj";
    let chunks = chunk_text(input, 5, 0);
    let texts: Vec<&str> = chunks.iter().map(|c| c.text.as_str()).collect();
    assert_eq!(texts, vec!["a b c\nd e", "f g h i\nj"]);
    assert_eq!(chunks[0].token_count, 5);
    assert_eq!(chunks[1].token_count, 5);
}

#[test]
fn chunking_empty_text_has_no_chunks() {
    assert!(chunk_text("", 10, 2).is_empty());
}

#[test]
fn chunking_long_line_stands_alone() {
    let input = "one two three four five six\nseven";
    let chunks = chunk_text(input, 3, 1);
    assert_eq!(chunks[0].text, "one two three four five six");
    assert_eq!(chunks[0].token_count, 6);
    assert_eq!(chunks.last().unwrap().text, "seven");
}

#[test]
fn chunking_blank_lines_count_one_token_and_crlf_is_a_line_end() {
    let input = "a\r\n\r\nb\n";
    let chunks = chunk_text(input, 0, 5);
    // target 0 works as 1, overlap is then 0: one line per chunk
    let texts: Vec<&str> = chunks.iter().map(|c| c.text.as_str()).collect();
    assert_eq!(texts, vec!["a", "", "b"]);
    assert!(chunks.iter().all(|c| c.token_count == 1));
}

#[test]
fn approx_tokens_counts_words() {
    assert_eq!(approx_tokens("a  b\tc"), 3);
    assert_eq!(approx_tokens("   "), 1);
}
