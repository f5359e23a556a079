//! Retrieval: citations, the lexical part of re-ranking and hybrid merging, and the decisions
//! by which a question is answered.
use vstd::prelude::*;

use crate::extractive::{answer_from_context, extractive_answer, match_count, answer_view};
use crate::models::{Citation, RetrievedChunk};
use crate::text::{
    chars_of, contains_chars, lowercase, split_words, str_equal, string_of, to_lowercase, trim,
    trim_chars, views, words,
};

verus! {

broadcast use vstd::string::group_string_axioms;

/// The most characters of a chunk that a citation quotes.
pub const EXCERPT_CHARS: usize = 220;

/// The citation of a chunk: where it is from, and its first `EXCERPT_CHARS` characters.
pub open spec fn cites(cit: Citation, c: RetrievedChunk) -> bool {
    &&& cit.file@ == c.file@
    &&& cit.page_start == c.page_start
    &&& cit.page_end == c.page_end
    &&& cit.chunk_id@ == c.chunk_id@
    &&& cit.excerpt@ == crate::prompt::truncated(c.text@, EXCERPT_CHARS as nat)
}

/// The citation of one chunk.
pub fn citation_of(c: &RetrievedChunk) -> (r: Citation)
    ensures
        cites(r, *c),
{
    Citation {
        file: c.file.clone(),
        page_start: c.page_start,
        page_end: c.page_end,
        chunk_id: c.chunk_id.clone(),
        excerpt: crate::prompt::truncate_for_prompt(c.text.as_str(), EXCERPT_CHARS),
    }
}

/// One citation per chunk, in order.
pub fn citations(chunks: &[RetrievedChunk]) -> (r: Vec<Citation>)
    ensures
        r@.len() == chunks@.len(),
        forall|i: int| 0 <= i < chunks@.len() ==> cites(#[trigger] r@[i], chunks@[i]),
{
    let mut r: Vec<Citation> = Vec::new();
    let mut i: usize = 0;
    while i < chunks.len()
        invariant
            i <= chunks@.len(),
            r@.len() == i,
            forall|j: int| 0 <= j < i ==> cites(#[trigger] r@[j], chunks@[j]),
        decreases chunks.len() - i,
    {
        r.push(citation_of(&chunks[i]));
        i = i + 1;
    }
    r
}

/// How many of the words of the lowercased question occur in a chunk's lowercased text (each
/// occurrence of a repeated word counts again).
pub open spec fn question_overlap(question: Seq<char>, text: Seq<char>) -> nat {
    match_count(words(lowercase(question)), lowercase(text))
}

/// For each lowercased chunk text, how many words of the lowercased question it holds.
pub fn overlap_counts_lowered(question_lower: &str, texts_lower: &[String]) -> (r: Vec<usize>)
    ensures
        r@.len() == texts_lower@.len(),
        forall|i: int|
            0 <= i < texts_lower@.len() ==> #[trigger] r@[i] == match_count(
                words(question_lower@),
                texts_lower@[i]@,
            ),
{
    let qc = chars_of(question_lower);
    let terms = split_words(qc.as_slice());
    let ghost tv = words(question_lower@);
    proof {
        assert(views(terms@) =~= tv);
    }
    let mut r: Vec<usize> = Vec::new();
    let mut i: usize = 0;
    while i < texts_lower.len()
        invariant
            i <= texts_lower@.len(),
            views(terms@) == tv,
            tv == words(question_lower@),
            r@.len() == i,
            forall|j: int| 0 <= j < i ==> #[trigger] r@[j] == match_count(tv, texts_lower@[j]@),
        decreases texts_lower.len() - i,
    {
        let text = chars_of(texts_lower[i].as_str());
        let mut count: usize = 0;
        let mut k: usize = 0;
        while k < terms.len()
            invariant
                k <= terms@.len(),
                views(terms@) == tv,
                count == match_count(tv.take(k as int), text@),
                count <= k,
            decreases terms.len() - k,
        {
            proof {
                assert(tv.take(k + 1).drop_last() =~= tv.take(k as int));
                assert(tv.take(k + 1).last() == terms@[k as int]@);
            }
            if contains_chars(text.as_slice(), terms[k].as_slice()) {
                count = count + 1;
            }
            k = k + 1;
        }
        proof {
            assert(tv.take(terms@.len() as int) =~= tv);
        }
        r.push(count);
        i = i + 1;
    }
    r
}

/// For each chunk, how many words of the question its text holds: what re-ranking adds to the
/// score, a hundredth for each.
pub fn overlap_counts(question: &str, chunks: &[RetrievedChunk]) -> (r: Vec<usize>)
    ensures
        r@.len() == chunks@.len(),
        forall|i: int| 0 <= i < chunks@.len() ==> #[trigger] r@[i] == question_overlap(question@, chunks@[i].text@),
{
    let ql = to_lowercase(question);
    let mut texts: Vec<String> = Vec::new();
    let mut i: usize = 0;
    while i < chunks.len()
        invariant
            i <= chunks@.len(),
            texts@.len() == i,
            forall|j: int| 0 <= j < i ==> (#[trigger] texts@[j])@ == lowercase(chunks@[j].text@),
        decreases chunks.len() - i,
    {
        texts.push(to_lowercase(chunks[i].text.as_str()));
        i = i + 1;
    }
    overlap_counts_lowered(ql.as_str(), texts.as_slice())
}

/// `id` is the id of one of `ids`.
pub open spec fn has_id(ids: Seq<Seq<char>>, id: Seq<char>) -> bool {
    exists|j: int| 0 <= j < ids.len() && ids[j] == id
}

/// The keyword hits, from the first `n`, that hybrid merging appends: each id that neither the
/// vector hits nor an earlier appended hit hold, in order.
pub open spec fn new_ids(seen: Seq<Seq<char>>, hits: Seq<Seq<char>>, n: int) -> Seq<Seq<char>>
    decreases n,
{
    if n <= 0 {
        seq![]
    } else {
        let r = new_ids(seen, hits, n - 1);
        if has_id(seen, hits[n - 1]) || has_id(r, hits[n - 1]) {
            r
        } else {
            r.push(hits[n - 1])
        }
    }
}

/// Hybrid merging never returns a chunk twice: the keyword hits it appends are not among the
/// vector hits, are distinct, and every keyword hit ends up among the vector hits or the
/// appended ones.
pub proof fn lemma_hybrid_additions(seen: Seq<Seq<char>>, hits: Seq<Seq<char>>, n: int)
    requires
        0 <= n <= hits.len(),
    ensures
        forall|i: int| 0 <= i < new_ids(seen, hits, n).len() ==> !has_id(seen, #[trigger] new_ids(seen, hits, n)[i]),
        forall|a: int, b: int|
            0 <= a < b < new_ids(seen, hits, n).len() ==> #[trigger] new_ids(seen, hits, n)[a]
                != #[trigger] new_ids(seen, hits, n)[b],
        forall|i: int| 0 <= i < n ==> has_id(seen, #[trigger] hits[i]) || has_id(new_ids(seen, hits, n), hits[i]),
    decreases n,
{
    if n > 0 {
        lemma_hybrid_additions(seen, hits, n - 1);
        let r = new_ids(seen, hits, n - 1);
        let id = hits[n - 1];
        if !(has_id(seen, id) || has_id(r, id)) {
            let r2 = r.push(id);
            assert forall|i: int| 0 <= i < n implies has_id(seen, #[trigger] hits[i]) || has_id(r2, hits[i]) by {
                if i < n - 1 && has_id(r, hits[i]) {
                    let j = choose|j: int| 0 <= j < r.len() && r[j] == hits[i];
                    assert(r2[j] == hits[i]);
                }
                if i == n - 1 {
                    assert(r2[r.len() as int] == hits[i]);
                }
            }
            assert forall|a: int, b: int| 0 <= a < b < r2.len() implies #[trigger] r2[a] != #[trigger] r2[b] by {
                if b == r.len() {
                    assert(r2[a] == r[a]);
                    if r[a] == id {
                        assert(has_id(r, id));
                    }
                } else {
                    assert(r2[a] == r[a] && r2[b] == r[b]);
                }
            }
        }
    }
}

/// The character views of strings.
pub open spec fn string_views(v: Seq<String>) -> Seq<Seq<char>> {
    v.map_values(|s: String| s@)
}

fn contains_id(ids: &[String], id: &String) -> (r: bool)
    ensures
        r == has_id(string_views(ids@), id@),
{
    let mut j: usize = 0;
    while j < ids.len()
        invariant
            j <= ids@.len(),
            forall|k: int| 0 <= k < j ==> ids@[k]@ != id@,
        decreases ids.len() - j,
    {
        if ids[j].as_str().len() == id.as_str().len() && str_equal(ids[j].as_str(), id.as_str()) {
            proof {
                assert(string_views(ids@)[j as int] == id@);
            }
            return true;
        }
        proof {
            if ids@[j as int]@ == id@ {
                assert(ids@[j as int]@.len() == id@.len());
            }
        }
        j = j + 1;
    }
    proof {
        if has_id(string_views(ids@), id@) {
            let k = choose|k: int| 0 <= k < ids@.len() && string_views(ids@)[k] == id@;
            assert(ids@[k]@ == id@);
        }
    }
    false
}

/// The ids that hybrid merging adds to the vector hits `chunks` from the keyword hits (see
/// `new_ids`).
pub fn keyword_additions(chunks: &[RetrievedChunk], keyword_ids: &[String]) -> (r: Vec<String>)
    ensures
        string_views(r@) == new_ids(
            chunk_ids(chunks@),
            string_views(keyword_ids@),
            keyword_ids@.len() as int,
        ),
{
    let mut seen: Vec<String> = Vec::new();
    let mut i: usize = 0;
    while i < chunks.len()
        invariant
            i <= chunks@.len(),
            string_views(seen@) == chunk_ids(chunks@).take(i as int),
        decreases chunks.len() - i,
    {
        let cid = chunks[i].chunk_id.clone();
        assert(cid@ == chunks@[i as int].chunk_id@);
        let ghost before = seen@;
        seen.push(cid);
        proof {
            assert(string_views(seen@) =~= string_views(before).push(cid@));
            assert(string_views(seen@) =~= chunk_ids(chunks@).take(i + 1));
        }
        i = i + 1;
    }
    proof {
        assert(chunk_ids(chunks@).take(chunks@.len() as int) =~= chunk_ids(chunks@));
    }
    let ghost sv = chunk_ids(chunks@);
    let ghost hv = string_views(keyword_ids@);
    let mut out: Vec<String> = Vec::new();
    let mut k: usize = 0;
    while k < keyword_ids.len()
        invariant
            k <= keyword_ids@.len(),
            string_views(seen@) == sv,
            hv == string_views(keyword_ids@),
            string_views(out@) == new_ids(sv, hv, k as int),
        decreases keyword_ids.len() - k,
    {
        let id = &keyword_ids[k];
        if !contains_id(seen.as_slice(), id) && !contains_id(out.as_slice(), id) {
            out.push(id.clone());
            proof {
                assert(string_views(out@) =~= new_ids(sv, hv, (k + 1) as int));
            }
        }
        k = k + 1;
    }
    out
}

/// What hybrid merging does with the keyword hits `hits` for the vector hits with the ids
/// `seen`: nothing at all when there are none, so that the vector hits stay as they are (in
/// their order, untrimmed), as with hybrid retrieval off; else append the new ids.
pub open spec fn merge_additions(seen: Seq<Seq<char>>, hits: Seq<Seq<char>>) -> Option<Seq<Seq<char>>> {
    if hits.len() == 0 {
        None
    } else {
        Some(new_ids(seen, hits, hits.len() as int))
    }
}

/// How hybrid merging treats the keyword hits (see `merge_additions`).
pub fn keyword_merge(chunks: &[RetrievedChunk], keyword_ids: &[String]) -> (r: Option<Vec<String>>)
    ensures
        match r {
            None => merge_additions(chunk_ids(chunks@), string_views(keyword_ids@)) is None,
            Some(v) => merge_additions(chunk_ids(chunks@), string_views(keyword_ids@)) == Some(
                string_views(v@),
            ),
        },
{
    if keyword_ids.len() == 0 {
        None
    } else {
        Some(keyword_additions(chunks, keyword_ids))
    }
}

/// Keyword retrieval with no hits changes nothing: merging is then the same as not merging,
/// whatever the vector hits.
pub proof fn lemma_no_keyword_hits_changes_nothing(seen: Seq<Seq<char>>)
    ensures
        merge_additions(seen, Seq::<Seq<char>>::empty()) is None,
{
}

/// The ids of chunks.
pub open spec fn chunk_ids(chunks: Seq<RetrievedChunk>) -> Seq<Seq<char>> {
    chunks.map_values(|c: RetrievedChunk| c.chunk_id@)
}

/// The chunk that stands for a keyword hit that vector search did not return: its id, an
/// unknown file and no text.
pub fn keyword_placeholder(id: String) -> (r: RetrievedChunk)
    ensures
        r.chunk_id@ == id@,
        r.file@ == "unknown"@,
        r.text@ == Seq::<char>::empty(),
        r.page_start is None,
        r.page_end is None,
{
    RetrievedChunk {
        chunk_id: id,
        file: String::from_str("unknown"),
        text: String::new(),
        page_start: None,
        page_end: None,
    }
}


/// The answer given when the documents do not answer a question.
pub open spec fn not_found_text() -> Seq<char> {
    "Not found in indexed documents."@
}

/// A question put to the indexed documents.
#[derive(Debug, Clone)]
pub struct AskRequest {
    pub question: String,
    pub top_k: Option<usize>,
    pub hybrid: Option<bool>,
    pub rerank: Option<bool>,
}

/// The answer to a question, with its sources.
#[derive(Debug, Clone)]
pub struct AskResponse {
    pub answer: String,
    pub not_found: bool,
    pub citations: Vec<Citation>,
    pub latency_ms: i64,
}

impl AskRequest {
    /// How many chunks to retrieve: as asked, 6 by default, at least 1.
    pub fn retrieval_count(&self) -> (r: usize)
        ensures
            r == (match self.top_k {
                Some(k) => if k >= 1 {
                    k
                } else {
                    1
                },
                None => 6,
            }),
    {
        match self.top_k {
            Some(k) => if k >= 1 {
                k
            } else {
                1
            },
            None => 6,
        }
    }

    /// Whether keyword hits are merged in: as asked, yes by default.
    pub fn uses_hybrid(&self) -> (r: bool)
        ensures
            r == (match self.hybrid {
                Some(b) => b,
                None => true,
            }),
    {
        match self.hybrid {
            Some(b) => b,
            None => true,
        }
    }

    /// Whether hits are re-ranked by word overlap: as asked, yes by default.
    pub fn uses_rerank(&self) -> (r: bool)
        ensures
            r == (match self.rerank {
                Some(b) => b,
                None => true,
            }),
    {
        match self.rerank {
            Some(b) => b,
            None => true,
        }
    }
}

/// Whether a retrieved chunk has any text beyond white space (chunks without are not used).
pub fn has_answer_text(text: &str) -> (r: bool)
    ensures
        r == (trim(text@).len() > 0),
{
    let c = chars_of(text);
    let t = trim_chars(c.as_slice());
    t.len() > 0
}

/// `cits` cites the first `n` chunks of `chunks`, in order.
pub open spec fn cites_first(cits: Seq<Citation>, chunks: Seq<RetrievedChunk>, n: int) -> bool {
    &&& cits.len() == n
    &&& forall|i: int| 0 <= i < n ==> cites(#[trigger] cits[i], chunks[i])
}

/// The answer to a question before any model is asked: not found when no chunk is left; the
/// answer read out of the context, citing its source chunk, when there is one; else none.
pub fn answer_without_model(question: &str, filtered: &[RetrievedChunk], latency_ms: i64) -> (r: Option<
    AskResponse,
>)
    ensures
        filtered@.len() == 0 ==> (r matches Some(resp) && resp.answer@ == not_found_text()
            && resp.not_found && resp.citations@.len() == 0 && resp.latency_ms == latency_ms),
        filtered@.len() > 0 ==> match extractive_answer(question@, filtered@) {
            Some(a) => (r matches Some(resp) && resp.answer@ == a.0 && !resp.not_found
                && resp.citations@.len() == 1 && cites(resp.citations@[0], filtered@[a.1])
                && resp.latency_ms == latency_ms),
            None => r is None,
        },
{
    if filtered.len() == 0 {
        return Some(
            AskResponse {
                answer: String::from_str("Not found in indexed documents."),
                not_found: true,
                citations: Vec::new(),
                latency_ms,
            },
        );
    }
    match answer_from_context(question, filtered) {
        Some(ans) => {
            proof {
                crate::extractive::lemma_extractive_source_in_context(question@, filtered@);
            }
            let mut cits: Vec<Citation> = Vec::new();
            cits.push(citation_of(&filtered[ans.source_chunk_index]));
            Some(AskResponse { answer: ans.answer, not_found: false, citations: cits, latency_ms })
        },
        None => None,
    }
}

/// The answer once the model has answered: the model's answer, unless it says nothing was
/// found and an answer can be read out of the context; not found exactly when the answer
/// (trimmed) is the not-found sentence; citing the first three chunks (or fewer).
pub fn answer_with_model(question: &str, model_answer: String, filtered: &[RetrievedChunk], latency_ms: i64) -> (r:
    AskResponse)
    ensures
        r.answer@ == (if trim(model_answer@) == not_found_text() {
            match extractive_answer(question@, filtered@) {
                Some(a) => a.0,
                None => model_answer@,
            }
        } else {
            model_answer@
        }),
        r.not_found == (trim(r.answer@) == not_found_text()),
        cites_first(
            r.citations@,
            filtered@,
            if filtered@.len() < 3 {
                filtered@.len() as int
            } else {
                3
            },
        ),
        r.latency_ms == latency_ms,
{
    let mut answer = model_answer;
    let ma = chars_of(answer.as_str());
    let trimmed = string_of(trim_chars(ma.as_slice()).as_slice());
    if str_equal(trimmed.as_str(), "Not found in indexed documents.") {
        if let Some(ans) = answer_from_context(question, filtered) {
            answer = ans.answer;
        }
    }
    let ac = chars_of(answer.as_str());
    let at = string_of(trim_chars(ac.as_slice()).as_slice());
    let not_found = str_equal(at.as_str(), "Not found in indexed documents.");
    let n: usize = if filtered.len() < 3 { filtered.len() } else { 3 };
    let mut cits: Vec<Citation> = Vec::new();
    let mut i: usize = 0;
    while i < n
        invariant
            i <= n <= filtered@.len(),
            cites_first(cits@, filtered@, i as int),
        decreases n - i,
    {
        cits.push(citation_of(&filtered[i]));
        i = i + 1;
    }
    AskResponse { answer, not_found, citations: cits, latency_ms }
}

/// The chat model used when none is configured.
pub open spec fn default_chat_model() -> Seq<char> {
    "llama3:latest"@
}

/// The configured chat model, or the default one.
pub fn chat_model_or_default(configured: Option<String>) -> (r: String)
    ensures
        r@ == (match configured {
            Some(m) => m@,
            None => default_chat_model(),
        }),
{
    match configured {
        Some(m) => m,
        None => String::from_str("llama3:latest"),
    }
}

/// The chat services asked for an answer, in the order they are tried.
#[derive(Debug, Clone, Copy, PartialEq, Eq, Structural)]
pub enum ChatSource {
    /// The OpenAI-style `/v1/chat/completions` endpoint.
    OpenAi,
    /// Ollama's `/api/chat` endpoint.
    Ollama,
}

/// What a chat service answered.
#[derive(Debug, Clone)]
pub enum ChatReply {
    /// A successful answer with this message content.
    Content(String),
    /// A successful answer without message content.
    NoContent,
    /// The request failed or was refused.
    Failed,
    /// A successful answer whose body could not be read.
    Unreadable,
}

/// What to do after a chat service answered.
#[derive(Debug, Clone)]
pub enum ChatStep {
    /// Ask this service.
    Ask(ChatSource),
    /// This is the model's answer.
    Answer(String),
    /// Return the error from reading the answer.
    ReturnError,
}

/// The step after a chat service answered: its content is the answer; without content, or
/// when it fails, the OpenAI-style service gives way to Ollama, and Ollama's answer is the
/// not-found sentence; an unreadable body is an error.
pub fn chat_next(source: ChatSource, reply: ChatReply) -> (r: ChatStep)
    ensures
        reply matches ChatReply::Content(c) ==> (r matches ChatStep::Answer(a) && a@ == c@),
        (reply is NoContent || reply is Failed) && source == ChatSource::OpenAi ==> (r matches ChatStep::Ask(
            s,
        ) && s == ChatSource::Ollama),
        (reply is NoContent || reply is Failed) && source == ChatSource::Ollama ==> (r matches ChatStep::Answer(
            a,
        ) && a@ == not_found_text()),
        reply is Unreadable ==> r is ReturnError,
{
    match reply {
        ChatReply::Content(c) => ChatStep::Answer(c),
        ChatReply::Unreadable => ChatStep::ReturnError,
        _ => match source {
            ChatSource::OpenAi => ChatStep::Ask(ChatSource::Ollama),
            ChatSource::Ollama => ChatStep::Answer(String::from_str("Not found in indexed documents.")),
        },
    }
}

} // verus!
