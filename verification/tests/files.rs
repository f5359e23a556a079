use search_agent::files::{doc_next, DocOutcome, DocStep, DocTool};
use search_agent::files::{
    choose_extractor, has_supported_extension, is_supported_extension, plain_text_of, Extractor,
    PlainText,
};

#[test]
fn supported_extensions() {
    assert!(is_supported_extension("pdf"));
    assert!(is_supported_extension("docx"));
    assert!(is_supported_extension("md"));
    assert!(is_supported_extension("log"));
    assert!(!is_supported_extension("png"));
    assert!(!is_supported_extension("PDF"));
    assert!(has_supported_extension("PDF"));
    assert!(!has_supported_extension("exe"));
}

#[test]
fn extractor_by_extension() {
    assert_eq!(choose_extractor("pdf"), Extractor::Pdf);
    assert_eq!(choose_extractor("DOCX"), Extractor::Docx);
    assert_eq!(choose_extractor("doc"), Extractor::Doc);
    assert_eq!(choose_extractor("txt"), Extractor::PlainText);
    assert_eq!(choose_extractor(""), Extractor::PlainText);
}

#[test]
fn plain_text_decoding() {
    match plain_text_of(Vec::new()) {
        PlainText::Text(t) => assert_eq!(t, ""),
        _ => panic!("empty file gives empty text"),
    }
    match plain_text_of("héllo\n".as_bytes().to_vec()) {
        PlainText::Text(t) => assert_eq!(t, "héllo\n"),
        _ => panic!("UTF-8 is decoded"),
    }
    match plain_text_of(vec![b'a', 0xff, b'\n', 0x01]) {
        PlainText::Lossy { text, printable, total } => {
            assert_eq!(text, "a\u{fffd}\n\u{1}");
            assert_eq!(total, 4);
            assert_eq!(printable, 3);
        }
        _ => panic!("invalid UTF-8 is decoded lossily"),
    }
}

#[test]
fn blank_pdf_text_goes_to_ocr() {
    assert!(search_agent::files::pdf_text_needs_ocr(" \n\u{c} "));
    assert!(!search_agent::files::pdf_text_needs_ocr(" x "));
}

#[test]
fn word_runs_are_followed_by_spaces() {
    let runs = vec!["Hello".to_string(), "world".to_string()];
    assert_eq!(search_agent::files::docx_text(&runs), "Hello world ");
    assert_eq!(search_agent::files::docx_text(&[]), "");
}

#[test]
fn word_xml_text_runs() {
    let xml = "<w:document><w:body><w:p><w:r><w:t>Hello &amp; bye</w:t></w:r><w:r><w:t> world </w:t></w:r></w:p></w:body></w:document>";
    assert_eq!(
        search_agent::files::docx_text_of_xml(xml).unwrap(),
        "Hello & bye world "
    );
    assert!(search_agent::files::docx_text_of_xml("<a></b>").is_err());
    let runs = search_agent::files::text_runs_of(&[None, Some("x".to_string()), None, Some("y".to_string())]);
    assert_eq!(runs, vec!["x", "y"]);
}

#[test]
fn doc_converters_in_order() {
    assert!(matches!(doc_next(DocTool::Antiword, DocOutcome::Text("t".into())), DocStep::Done(t) if t == "t"));
    assert!(matches!(doc_next(DocTool::Antiword, DocOutcome::Failed), DocStep::Run(DocTool::Soffice)));
    assert!(matches!(doc_next(DocTool::Soffice, DocOutcome::Failed), DocStep::Fail));
}
