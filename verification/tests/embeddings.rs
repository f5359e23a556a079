use search_agent::embeddings::{
    check_embedding_dims, embedding_failure_message, fake_embeddings_allowed, first_step,
    model_or_default, next_step, EmbedStep, EmbeddingError, EmbeddingSource, SourceOutcome,
};

#[test]
fn default_model_when_unset() {
    assert_eq!(model_or_default(None), "nomic-embed-text");
    assert_eq!(model_or_default(Some("bge".into())), "bge");
}

#[test]
fn fallback_setting_accepts_one_and_true() {
    assert!(fake_embeddings_allowed(Some("1")));
    assert!(fake_embeddings_allowed(Some("true")));
    assert!(fake_embeddings_allowed(Some("TrUe")));
    assert!(!fake_embeddings_allowed(Some("yes")));
    assert!(!fake_embeddings_allowed(Some("0")));
    assert!(!fake_embeddings_allowed(Some("truee")));
    assert!(!fake_embeddings_allowed(None));
}

#[test]
fn services_are_tried_in_order() {
    assert_eq!(first_step(0), None);
    assert_eq!(first_step(2), Some(EmbedStep::Ask(EmbeddingSource::OpenAi)));
    assert_eq!(
        next_step(EmbeddingSource::OpenAi, SourceOutcome::Failed, false),
        EmbedStep::Ask(EmbeddingSource::OllamaBatch)
    );
    assert_eq!(
        next_step(EmbeddingSource::OpenAi, SourceOutcome::Vectors(0), false),
        EmbedStep::Finalize
    );
    assert_eq!(
        next_step(EmbeddingSource::OpenAi, SourceOutcome::Unreadable, true),
        EmbedStep::ReturnError
    );
    assert_eq!(
        next_step(EmbeddingSource::OllamaBatch, SourceOutcome::Vectors(0), false),
        EmbedStep::Ask(EmbeddingSource::OllamaLegacy)
    );
    assert_eq!(
        next_step(EmbeddingSource::OllamaBatch, SourceOutcome::Vectors(3), false),
        EmbedStep::Finalize
    );
    assert_eq!(
        next_step(EmbeddingSource::OllamaLegacy, SourceOutcome::Failed, true),
        EmbedStep::UseFallback
    );
    assert_eq!(
        next_step(EmbeddingSource::OllamaLegacy, SourceOutcome::Unreadable, false),
        EmbedStep::Fail
    );
}

#[test]
fn vector_lengths_are_checked() {
    assert_eq!(check_embedding_dims(&[4, 4, 4]), Ok(4));
    assert_eq!(check_embedding_dims(&[]), Err(EmbeddingError::EmptyVectors));
    assert_eq!(check_embedding_dims(&[0, 0]), Err(EmbeddingError::EmptyVectors));
    assert_eq!(check_embedding_dims(&[3, 2]), Err(EmbeddingError::DimensionMismatch));
    assert_eq!(EmbeddingError::EmptyVectors.message(), "empty embedding vectors");
    assert_eq!(
        EmbeddingError::DimensionMismatch.message(),
        "embedding dimensions mismatch"
    );
}

#[test]
fn failure_message_names_the_model() {
    assert_eq!(
        embedding_failure_message("m1"),
        "embedding generation failed. Ensure Ollama is running and model 'm1' is available (try: ollama pull m1)."
    );
}
