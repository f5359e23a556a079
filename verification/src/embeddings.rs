//! The decisions around embedding texts: which service to ask next, when to fall back to the
//! deterministic vectors, and when a batch of vectors is usable.
use vstd::prelude::*;

use crate::text::{chars_of, str_equal};

verus! {

broadcast use vstd::string::group_string_axioms;

/// The embedding model used when none is configured.
pub open spec fn default_model() -> Seq<char> {
    "nomic-embed-text"@
}

/// The configured embedding model, or the default one.
pub fn model_or_default(configured: Option<String>) -> (r: String)
    ensures
        r@ == (match configured {
            Some(m) => m@,
            None => default_model(),
        }),
{
    match configured {
        Some(m) => m,
        None => String::from_str("nomic-embed-text"),
    }
}

/// The code of `c` with ASCII upper-case letters made lower-case.
pub open spec fn ascii_lower(c: char) -> u32 {
    if 65 <= (c as u32) && (c as u32) <= 90 {
        ((c as u32) + 32) as u32
    } else {
        c as u32
    }
}

/// `a` and `b` are equal ignoring ASCII case (`str::eq_ignore_ascii_case`).
pub open spec fn eq_ignore_ascii_case(a: Seq<char>, b: Seq<char>) -> bool {
    a.len() == b.len() && forall|i: int| 0 <= i < a.len() ==> ascii_lower(a[i]) == ascii_lower(b[i])
}

fn ascii_lower_exec(c: char) -> (r: u32)
    ensures
        r == ascii_lower(c),
{
    let u = c as u32;
    if 65 <= u && u <= 90 {
        u + 32
    } else {
        u
    }
}

/// A setting is on: `1`, or `true` in any ASCII case.
pub open spec fn flag_on(v: Seq<char>) -> bool {
    v == "1"@ || eq_ignore_ascii_case(v, "true"@)
}

/// Whether the setting that allows deterministic fallback vectors is on (`None` when unset).
pub fn fake_embeddings_allowed(setting: Option<&str>) -> (r: bool)
    ensures
        r == (match setting {
            Some(v) => flag_on(v@),
            None => false,
        }),
{
    match setting {
        None => false,
        Some(v) => {
            if str_equal(v, "1") {
                return true;
            }
            let a = chars_of(v);
            let b = chars_of("true");
            if a.len() != b.len() {
                return false;
            }
            let mut i: usize = 0;
            while i < a.len()
                invariant
                    i <= a@.len(),
                    setting == Some(v),
                    a@ == v@,
                    v@ != "1"@,
                    b@ == "true"@,
                    a@.len() == b@.len(),
                    forall|j: int| 0 <= j < i ==> ascii_lower(a@[j]) == ascii_lower(b@[j]),
                decreases a.len() - i,
            {
                if ascii_lower_exec(a[i]) != ascii_lower_exec(b[i]) {
                    assert(!eq_ignore_ascii_case(v@, "true"@)) by {
                        assert(ascii_lower(v@[i as int]) != ascii_lower("true"@[i as int]));
                    }
                    return false;
                }
                i = i + 1;
            }
            true
        },
    }
}

/// The services asked for embeddings, in the order they are tried.
#[derive(Debug, Clone, Copy, PartialEq, Eq, Structural)]
pub enum EmbeddingSource {
    /// The OpenAI-style `/v1/embeddings` endpoint.
    OpenAi,
    /// Ollama's batch `/api/embed` endpoint.
    OllamaBatch,
    /// Ollama's one-text-at-a-time `/api/embeddings` endpoint.
    OllamaLegacy,
}

/// What a service answered.
#[derive(Debug, Clone, Copy, PartialEq, Eq, Structural)]
pub enum SourceOutcome {
    /// It answered with this many vectors.
    Vectors(usize),
    /// It answered successfully but its body could not be read.
    Unreadable,
    /// The request failed or was refused.
    Failed,
}

/// What to do next.
#[derive(Debug, Clone, Copy, PartialEq, Eq, Structural)]
pub enum EmbedStep {
    /// Ask this service.
    Ask(EmbeddingSource),
    /// Check and normalize the vectors received.
    Finalize,
    /// Use the deterministic fallback vectors.
    UseFallback,
    /// Give up: no service could embed the texts.
    Fail,
    /// Return the error from reading the answer.
    ReturnError,
}

/// The first step for `count` texts: nothing to ask for no texts, else the first service.
pub fn first_step(count: usize) -> (r: Option<EmbedStep>)
    ensures
        r == (if count == 0 {
            None
        } else {
            Some(EmbedStep::Ask(EmbeddingSource::OpenAi))
        }),
{
    if count == 0 {
        None
    } else {
        Some(EmbedStep::Ask(EmbeddingSource::OpenAi))
    }
}

/// The step after a service answered: the first service's vectors are used as they are (an
/// unreadable answer is an error), the Ollama services' only when there are some; a failure
/// moves on to the next service, and after the last to the fallback vectors when they are
/// allowed, else to failure.
pub open spec fn embed_next(source: EmbeddingSource, outcome: SourceOutcome, fallback_allowed: bool) -> EmbedStep {
    match source {
        EmbeddingSource::OpenAi => match outcome {
            SourceOutcome::Vectors(_) => EmbedStep::Finalize,
            SourceOutcome::Unreadable => EmbedStep::ReturnError,
            SourceOutcome::Failed => EmbedStep::Ask(EmbeddingSource::OllamaBatch),
        },
        EmbeddingSource::OllamaBatch => match outcome {
            SourceOutcome::Vectors(n) => if n > 0 {
                EmbedStep::Finalize
            } else {
                EmbedStep::Ask(EmbeddingSource::OllamaLegacy)
            },
            _ => EmbedStep::Ask(EmbeddingSource::OllamaLegacy),
        },
        EmbeddingSource::OllamaLegacy => match outcome {
            SourceOutcome::Vectors(n) => if n > 0 {
                EmbedStep::Finalize
            } else if fallback_allowed {
                EmbedStep::UseFallback
            } else {
                EmbedStep::Fail
            },
            _ => if fallback_allowed {
                EmbedStep::UseFallback
            } else {
                EmbedStep::Fail
            },
        },
    }
}

/// The step after a service answered (see `embed_next`).
pub fn next_step(source: EmbeddingSource, outcome: SourceOutcome, fallback_allowed: bool) -> (r: EmbedStep)
    ensures
        r == embed_next(source, outcome, fallback_allowed),
{
    match source {
        EmbeddingSource::OpenAi => match outcome {
            SourceOutcome::Vectors(_) => EmbedStep::Finalize,
            SourceOutcome::Unreadable => EmbedStep::ReturnError,
            SourceOutcome::Failed => EmbedStep::Ask(EmbeddingSource::OllamaBatch),
        },
        EmbeddingSource::OllamaBatch => match outcome {
            SourceOutcome::Vectors(n) => if n > 0 {
                EmbedStep::Finalize
            } else {
                EmbedStep::Ask(EmbeddingSource::OllamaLegacy)
            },
            _ => EmbedStep::Ask(EmbeddingSource::OllamaLegacy),
        },
        EmbeddingSource::OllamaLegacy => match outcome {
            SourceOutcome::Vectors(n) => if n > 0 {
                EmbedStep::Finalize
            } else if fallback_allowed {
                EmbedStep::UseFallback
            } else {
                EmbedStep::Fail
            },
            _ => if fallback_allowed {
                EmbedStep::UseFallback
            } else {
                EmbedStep::Fail
            },
        },
    }
}

/// Why a batch of vectors cannot be used.
#[derive(Debug, Clone, Copy, PartialEq, Eq, Structural)]
pub enum EmbeddingError {
    /// There is no vector, or the first is empty.
    EmptyVectors,
    /// The vectors differ in length.
    DimensionMismatch,
}

impl EmbeddingError {
    /// The error's message.
    pub fn message(&self) -> (r: String)
        ensures
            r@ == (match self {
                EmbeddingError::EmptyVectors => "empty embedding vectors"@,
                EmbeddingError::DimensionMismatch => "embedding dimensions mismatch"@,
            }),
    {
        match self {
            EmbeddingError::EmptyVectors => String::from_str("empty embedding vectors"),
            EmbeddingError::DimensionMismatch => String::from_str("embedding dimensions mismatch"),
        }
    }
}

/// Whether vectors of the lengths `lens` can be used, and their common length: the first must
/// be non-empty and all must have its length.
pub open spec fn dims_outcome(lens: Seq<usize>) -> Result<usize, EmbeddingError> {
    if lens.len() == 0 || lens[0] == 0 {
        Err(EmbeddingError::EmptyVectors)
    } else if exists|i: int| 0 <= i < lens.len() && #[trigger] lens[i] != lens[0] {
        Err(EmbeddingError::DimensionMismatch)
    } else {
        Ok(lens[0])
    }
}

/// Checks the lengths of a batch of vectors before they are normalized (see `dims_outcome`).
pub fn check_embedding_dims(lens: &[usize]) -> (r: Result<usize, EmbeddingError>)
    ensures
        r == dims_outcome(lens@),
{
    if lens.len() == 0 || lens[0] == 0 {
        return Err(EmbeddingError::EmptyVectors);
    }
    let dim = lens[0];
    let mut i: usize = 0;
    while i < lens.len()
        invariant
            i <= lens@.len(),
            dim == lens@[0],
            dim != 0,
            lens@.len() > 0,
            forall|j: int| 0 <= j < i ==> lens@[j] == dim,
        decreases lens.len() - i,
    {
        if lens[i] != dim {
            assert(lens@[i as int] != lens@[0]);
            return Err(EmbeddingError::DimensionMismatch);
        }
        i = i + 1;
    }
    Ok(dim)
}

/// A usable batch has one common, non-zero length.
pub proof fn lemma_usable_vectors_share_dims(lens: Seq<usize>)
    ensures
        dims_outcome(lens) matches Ok(d) ==> d > 0 && forall|i: int|
            0 <= i < lens.len() ==> lens[i] == d,
{
}

/// Every answer moves forward: the services are asked in a fixed order, each at most once.
pub proof fn lemma_sources_in_order(s: EmbeddingSource, o: SourceOutcome, f: bool)
    ensures
        embed_next(s, o, f) == EmbedStep::Ask(EmbeddingSource::OpenAi) ==> false,
        embed_next(s, o, f) == EmbedStep::Ask(EmbeddingSource::OllamaBatch) ==> s
            == EmbeddingSource::OpenAi,
        embed_next(s, o, f) == EmbedStep::Ask(EmbeddingSource::OllamaLegacy) ==> s
            == EmbeddingSource::OllamaBatch,
        embed_next(s, o, f) == EmbedStep::UseFallback ==> f,
{
}

/// The message given when no service could embed the texts.
pub open spec fn failure_message(model: Seq<char>) -> Seq<char> {
    "embedding generation failed. Ensure Ollama is running and model '"@ + model
        + "' is available (try: ollama pull "@ + model + ")."@
}

/// The message given when no service could embed the texts (see `failure_message`).
pub fn embedding_failure_message(model: &str) -> (r: String)
    ensures
        r@ == failure_message(model@),
{
    String::from_str("embedding generation failed. Ensure Ollama is running and model '").concat(
        model,
    ).concat("' is available (try: ollama pull ").concat(model).concat(").")
}

/// Vectors that a service gives are used: whichever service answers with at least one vector,
/// the next step is to check and normalize them, whether or not fallback vectors are allowed.
pub proof fn lemma_vectors_are_used(s: EmbeddingSource, n: usize, f: bool)
    requires
        n > 0,
    ensures
        embed_next(s, SourceOutcome::Vectors(n), f) == EmbedStep::Finalize,
{
}

} // verus!
