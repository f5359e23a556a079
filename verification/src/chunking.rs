//! Token-aware chunking of extracted text into overlapping runs of whole lines.
use vstd::prelude::*;

use crate::text::{join, join_range, lines, split_lines, split_words, string_of, views, words, chars_of};

verus! {

/// One chunk of a document: a run of whole lines and its approximate token count.
#[derive(Debug, Clone)]
pub struct Chunk {
    pub chunk_index: usize,
    pub text: String,
    pub token_count: usize,
    pub section: Option<String>,
    pub page_start: Option<i64>,
    pub page_end: Option<i64>,
}

/// The approximate token count of a line: its number of words, and at least 1.
pub open spec fn line_tokens(line: Seq<char>) -> nat {
    if words(line).len() > 0 {
        words(line).len()
    } else {
        1
    }
}

/// The token count of each line.
pub open spec fn line_token_counts(ls: Seq<Seq<char>>) -> Seq<nat> {
    ls.map_values(|l: Seq<char>| line_tokens(l))
}

/// The target that chunking works with: at least one token.
pub open spec fn effective_target(target: nat) -> nat {
    if target >= 1 {
        target
    } else {
        1
    }
}

/// The overlap that chunking works with: below the effective target.
pub open spec fn effective_overlap(target: nat, overlap: nat) -> nat {
    let t = effective_target(target);
    if overlap <= t - 1 {
        overlap
    } else {
        (t - 1) as nat
    }
}

/// Greedy filling from line `e` with `acc` tokens so far: take lines while the chunk is empty
/// or the next line still fits within `target`. Gives the end line (exclusive) and the tokens.
pub open spec fn fill(t: Seq<nat>, e: int, acc: nat, target: nat) -> (int, nat)
    decreases t.len() - e,
{
    if e < 0 || e >= t.len() {
        (e, acc)
    } else if acc > 0 && acc + t[e] > target {
        (e, acc)
    } else {
        fill(t, e + 1, acc + t[e], target)
    }
}

/// Walking back from line `b` towards `start`, the line at which the tokens counted reach
/// `overlap` (or `start` when they never do).
pub open spec fn walk_back(t: Seq<nat>, start: int, b: int, count: nat, overlap: nat) -> int
    decreases b - start,
{
    if b <= start || b > t.len() {
        b
    } else {
        let c = count + t[b - 1];
        if c >= overlap {
            b - 1
        } else {
            walk_back(t, start, b - 1, c, overlap)
        }
    }
}

/// Where the chunk after `[start, end)` begins: `end` without overlap, else the line reached by
/// walking back about `overlap` tokens, unless that walk reaches `start`.
pub open spec fn next_start(t: Seq<nat>, start: int, end: int, overlap: nat) -> int {
    if overlap == 0 {
        end
    } else {
        let b = walk_back(t, start, end, 0, overlap);
        if b == start {
            end
        } else {
            b
        }
    }
}

/// The chunks, as `(start line, end line, tokens)`, from the one that begins at `start` on.
pub open spec fn spans_from(t: Seq<nat>, start: int, target: nat, overlap: nat) -> Seq<(int, int, nat)>
    decreases t.len() - start,
{
    if start < 0 || start >= t.len() {
        seq![]
    } else {
        let (end, tokens) = fill(t, start, 0, target);
        if end >= t.len() {
            seq![(start, end, tokens)]
        } else {
            let nx = next_start(t, start, end, overlap);
            if nx <= start || nx > t.len() {
                seq![(start, end, tokens)]
            } else {
                seq![(start, end, tokens)] + spans_from(t, nx, target, overlap)
            }
        }
    }
}

/// The chunks that `chunk_text` makes of `text`, as `(start line, end line, tokens)`.
pub open spec fn chunk_plan(text: Seq<char>, target: nat, overlap: nat) -> Seq<(int, int, nat)> {
    spans_from(
        line_token_counts(lines(text)),
        0,
        effective_target(target),
        effective_overlap(target, overlap),
    )
}

/// What the chunk made of `span` holds: the lines of the span joined by line feeds.
pub open spec fn chunk_text_of(text: Seq<char>, span: (int, int, nat)) -> Seq<char> {
    join(lines(text).subrange(span.0, span.1), seq!['\n'])
}

/// `c` is the chunk at position `i` made of the lines `span` of `text`.
pub open spec fn is_chunk_of(c: Chunk, i: int, text: Seq<char>, span: (int, int, nat)) -> bool {
    &&& c.chunk_index == i
    &&& c.token_count == span.2
    &&& c.text@ == chunk_text_of(text, span)
    &&& c.section is None
    &&& c.page_start is None
    &&& c.page_end is None
}

/// The approximate token count of a line: its number of words, at least 1.
pub fn approx_tokens_of_chars(line: &[char]) -> (n: usize)
    ensures
        n == line_tokens(line@),
{
    let w = split_words(line);
    if w.len() > 0 {
        w.len()
    } else {
        1
    }
}

/// The approximate token count of a line: its number of words, at least 1.
pub fn approx_tokens(line: &str) -> (n: usize)
    ensures
        n == line_tokens(line@),
{
    let c = chars_of(line);
    approx_tokens_of_chars(c.as_slice())
}

proof fn lemma_fill_progress(t: Seq<nat>, e: int, acc: nat, target: nat)
    requires
        0 <= e <= t.len(),
    ensures
        e <= fill(t, e, acc, target).0 <= t.len(),
        acc == 0 && e < t.len() ==> fill(t, e, acc, target).0 > e,
    decreases t.len() - e,
{
    if e < t.len() && !(acc > 0 && acc + t[e] > target) {
        lemma_fill_progress(t, e + 1, acc + t[e], target);
    }
}

proof fn lemma_walk_back_range(t: Seq<nat>, start: int, b: int, count: nat, overlap: nat)
    requires
        0 <= start <= b <= t.len(),
    ensures
        start <= walk_back(t, start, b, count, overlap) <= b,
    decreases b - start,
{
    if b > start && count + t[b - 1] < overlap {
        lemma_walk_back_range(t, start, b - 1, count + t[b - 1], overlap);
    }
}

/// Splits `text` into chunks of whole lines of about `target_tokens` tokens each, where each
/// chunk after the first repeats about `overlap_tokens` tokens of lines from the one before.
pub fn chunk_text(text: &str, target_tokens: usize, overlap_tokens: usize) -> (r: Vec<Chunk>)
    ensures
        r@.len() == chunk_plan(text@, target_tokens as nat, overlap_tokens as nat).len(),
        forall|i: int|
            0 <= i < r@.len() ==> is_chunk_of(#[trigger] r@[i], i, text@, chunk_plan(text@, target_tokens as nat, overlap_tokens as nat)[i]),
{
    let chars = chars_of(text);
    let ls = split_lines(chars.as_slice());
    let ghost lsv = lines(text@);
    let n = ls.len();
    let mut t: Vec<usize> = Vec::new();
    let mut k: usize = 0;
    while k < n
        invariant
            n == ls@.len(),
            views(ls@) == lsv,
            k <= n,
            t@.len() == k,
            forall|j: int| 0 <= j < k ==> t@[j] == line_tokens(lsv[j]),
        decreases n - k,
    {
        proof {
            assert(views(ls@)[k as int] == ls@[k as int]@);
        }
        let c = approx_tokens_of_chars(ls[k].as_slice());
        t.push(c);
        k = k + 1;
    }
    let ghost tv = line_token_counts(lsv);
    proof {
        assert(t@.map_values(|x: usize| x as nat) =~= tv);
    }
    let target: usize = if target_tokens >= 1 { target_tokens } else { 1 };
    let overlap: usize = if overlap_tokens <= target - 1 { overlap_tokens } else { target - 1 };
    let ghost plan = chunk_plan(text@, target_tokens as nat, overlap_tokens as nat);
    let mut chunks: Vec<Chunk> = Vec::new();
    if n == 0 {
        return chunks;
    }
    let ghost mut done: Seq<(int, int, nat)> = seq![];
    let mut start: usize = 0;
    let mut sep: Vec<char> = Vec::new();
    sep.push('\n');
    assert(sep@ =~= seq!['\n']);
    loop
        invariant_except_break
            n == ls@.len(),
            views(ls@) == lsv,
            t@.len() == n,
            forall|j: int| 0 <= j < n ==> t@[j] == tv[j],
            tv.len() == n,
            target as nat == effective_target(target_tokens as nat),
            overlap as nat == effective_overlap(target_tokens as nat, overlap_tokens as nat),
            start < n,
            lsv == lines(text@),
            sep@ == seq!['\n'],
            plan == done + spans_from(tv, start as int, target as nat, overlap as nat),
            chunks@.len() == done.len(),
            forall|i: int|
                0 <= i < chunks@.len() ==> is_chunk_of(#[trigger] chunks@[i], i, text@, done[i]),
        ensures
            chunks@.len() == plan.len(),
            forall|i: int|
                0 <= i < chunks@.len() ==> is_chunk_of(#[trigger] chunks@[i], i, text@, plan[i]),
        decreases n - start,
    {
        // Take lines while they fit.
        let mut end: usize = start;
        let mut tokens: usize = 0;
        while end < n
            invariant
                start <= end <= n,
                t@.len() == n,
                tv.len() == n,
                forall|j: int| 0 <= j < n ==> t@[j] == tv[j],
                fill(tv, start as int, 0, target as nat) == fill(tv, end as int, tokens as nat, target as nat),
            ensures
                start <= end <= n,
                fill(tv, start as int, 0, target as nat) == (end as int, tokens as nat),
            decreases n - end,
        {
            let next_tokens = t[end];
            if tokens > 0 && (tokens > target || next_tokens > target - tokens) {
                break;
            }
            tokens = tokens + next_tokens;
            end = end + 1;
        }
        proof {
            lemma_fill_progress(tv, start as int, 0, target as nat);
        }
        let ghost span = (start as int, end as int, tokens as nat);
        let joined = join_range(ls.as_slice(), start, end, sep.as_slice());
        let chunk_text = string_of(joined.as_slice());
        proof {
            assert(views(ls@.subrange(start as int, end as int)) =~= lsv.subrange(start as int, end as int));
        }
        let idx = chunks.len();
        let ghost old_chunks = chunks@;
        let ghost old_done = done;
        chunks.push(
            Chunk {
                chunk_index: idx,
                token_count: tokens,
                text: chunk_text,
                section: None,
                page_start: None,
                page_end: None,
            },
        );
        proof {
            done = done.push(span);
            assert forall|i: int| 0 <= i < chunks@.len() implies is_chunk_of(#[trigger] chunks@[i], i, text@, done[i]) by {
                if i < idx {
                    assert(is_chunk_of(old_chunks[i], i, text@, old_done[i]));
                    assert(chunks@[i] == old_chunks[i]);
                    assert(done[i] == old_done[i]);
                } else {
                    assert(done[i] == span);
                    assert(chunks@[i].text@ == joined@);
                    assert(joined@ == join(lsv.subrange(start as int, end as int), seq!['\n']));
                    assert(chunks@[i].text@ == chunk_text_of(text@, span));
                    assert(chunks@[i].chunk_index == i);
                    assert(chunks@[i].token_count == span.2);
                    assert(chunks@[i].section is None);
                }
            }
        }
        if end >= n {
            proof {
                assert(spans_from(tv, start as int, target as nat, overlap as nat) == seq![span]);
                assert(plan =~= done);
                assert forall|i: int| 0 <= i < chunks@.len() implies is_chunk_of(#[trigger] chunks@[i], i, text@, plan[i]) by {
                    assert(done[i] == plan[i]);
                }
            }
            break;
        }
        // Step back about `overlap` tokens of lines.
        let mut next: usize = end;
        if overlap > 0 {
            let mut back: usize = end;
            let mut count: usize = 0;
            while back > start
                invariant_except_break
                    start <= back <= end <= n,
                    count < overlap,
                    t@.len() == n,
                    tv.len() == n,
                    forall|j: int| 0 <= j < n ==> t@[j] == tv[j],
                    walk_back(tv, start as int, end as int, 0, overlap as nat) == walk_back(
                        tv,
                        start as int,
                        back as int,
                        count as nat,
                        overlap as nat,
                    ),
                ensures
                    start <= back <= end,
                    back as int == walk_back(tv, start as int, end as int, 0, overlap as nat),
                decreases back - start,
            {
                let prev = back - 1;
                if t[prev] >= overlap - count {
                    back = prev;
                    break;
                }
                count = count + t[prev];
                back = prev;
            }
            if back != start {
                next = back;
            }
        }
        proof {
            assert(next as int == next_start(tv, start as int, end as int, overlap as nat));
            assert(spans_from(tv, start as int, target as nat, overlap as nat) == seq![span]
                + spans_from(tv, next as int, target as nat, overlap as nat));
            assert(plan =~= done + spans_from(tv, next as int, target as nat, overlap as nat));
        }
        start = next;
    }
    chunks
}


/// The tokens of lines `[a, b)`.
pub open spec fn token_sum(t: Seq<nat>, a: int, b: int) -> nat
    decreases b - a,
{
    if a >= b {
        0
    } else {
        t[a] + token_sum(t, a + 1, b)
    }
}

proof fn lemma_token_sum_append(t: Seq<nat>, a: int, b: int)
    requires
        a <= b,
    ensures
        token_sum(t, a, b + 1) == token_sum(t, a, b) + t[b],
    decreases b - a,
{
    if a < b {
        lemma_token_sum_append(t, a + 1, b);
    } else {
        assert(token_sum(t, a + 1, b + 1) == 0);
    }
}

proof fn lemma_fill_facts(t: Seq<nat>, start: int, e: int, acc: nat, target: nat)
    requires
        0 <= start <= e <= t.len(),
        acc == token_sum(t, start, e),
        forall|j: int| 0 <= j < t.len() ==> t[j] >= 1,
        acc <= target || e == start + 1,
    ensures
        ({
            let (end, tokens) = fill(t, e, acc, target);
            &&& e <= end <= t.len()
            &&& tokens == token_sum(t, start, end)
            &&& tokens <= target || end == start + 1
        }),
    decreases t.len() - e,
{
    if e < t.len() && !(acc > 0 && acc + t[e] > target) {
        lemma_token_sum_append(t, start, e);
        if e > start {
            assert(token_sum(t, start, e) >= t[start]) by {
                assert(token_sum(t, start, e) == t[start] + token_sum(t, start + 1, e));
            }
        }
        lemma_fill_facts(t, start, e + 1, acc + t[e], target);
    }
}

proof fn lemma_walk_back_facts(t: Seq<nat>, start: int, b: int, count: nat, overlap: nat)
    requires
        0 <= start <= b <= t.len(),
        count < overlap,
    ensures
        ({
            let r = walk_back(t, start, b, count, overlap);
            &&& start <= r <= b
            &&& r > start ==> count + token_sum(t, r, b) >= overlap && count + token_sum(
                t,
                r + 1,
                b,
            ) < overlap
        }),
    decreases b - start,
{
    if b > start {
        let c = count + t[b - 1];
        if c >= overlap {
            assert(token_sum(t, b - 1, b) == t[b - 1] + token_sum(t, b, b));
        } else {
            lemma_walk_back_facts(t, start, b - 1, c, overlap);
            let r = walk_back(t, start, b - 1, c, overlap);
            if r > start {
                lemma_token_sum_append(t, r, b - 1);
                lemma_token_sum_append(t, r + 1, b - 1);
            }
        }
    }
}

/// The facts about every chunk from line `s` on that the chunking laws rest on.
proof fn lemma_spans_facts(t: Seq<nat>, s: int, target: nat, overlap: nat)
    requires
        0 <= s <= t.len(),
        forall|j: int| 0 <= j < t.len() ==> t[j] >= 1,
    ensures
        ({
            let sp = spans_from(t, s, target, overlap);
            &&& (sp.len() == 0 <==> s == t.len())
            &&& s < t.len() ==> sp[0].0 == s && sp.last().1 == t.len()
            &&& forall|i: int|
                0 <= i < sp.len() ==> s <= (#[trigger] sp[i]).0 < sp[i].1 <= t.len() && sp[i].2
                    == token_sum(t, sp[i].0, sp[i].1) && (sp[i].2 <= target || sp[i].1 == sp[i].0
                    + 1)
            &&& forall|i: int|
                0 <= i < sp.len() - 1 ==> {
                    &&& (#[trigger] sp[i]).0 < sp[i + 1].0 <= sp[i].1
                    &&& overlap == 0 ==> sp[i + 1].0 == sp[i].1
                    &&& sp[i + 1].0 < sp[i].1 ==> token_sum(t, sp[i + 1].0, sp[i].1) >= overlap
                        && token_sum(t, sp[i + 1].0 + 1, sp[i].1) < overlap
                }
        }),
    decreases t.len() - s,
{
    if s < t.len() {
        lemma_fill_facts(t, s, s, 0, target);
        lemma_fill_progress(t, s, 0, target);
        let (end, tokens) = fill(t, s, 0, target);
        if end < t.len() {
            let nx = next_start(t, s, end, overlap);
            if overlap > 0 {
                lemma_walk_back_facts(t, s, end, 0, overlap);
            }
            assert(s < nx <= end);
            lemma_spans_facts(t, nx, target, overlap);
            let rest = spans_from(t, nx, target, overlap);
            let sp = spans_from(t, s, target, overlap);
            assert(sp == seq![(s, end, tokens)] + rest);
            assert forall|i: int| 0 <= i < sp.len() - 1 implies {
                &&& (#[trigger] sp[i]).0 < sp[i + 1].0 <= sp[i].1
                &&& overlap == 0 ==> sp[i + 1].0 == sp[i].1
                &&& sp[i + 1].0 < sp[i].1 ==> token_sum(t, sp[i + 1].0, sp[i].1) >= overlap
                    && token_sum(t, sp[i + 1].0 + 1, sp[i].1) < overlap
            } by {
                if i > 0 {
                    assert(sp[i] == rest[i - 1]);
                    assert(sp[i + 1] == rest[i]);
                } else {
                    assert(sp[1] == rest[0]);
                }
            }
            assert forall|i: int| 0 <= i < sp.len() implies s <= (#[trigger] sp[i]).0 < sp[i].1
                <= t.len() && sp[i].2 == token_sum(t, sp[i].0, sp[i].1) && (sp[i].2 <= target
                || sp[i].1 == sp[i].0 + 1) by {
                if i > 0 {
                    assert(sp[i] == rest[i - 1]);
                }
            }
        }
    }
}

/// The chunking laws. Chunks cover the lines of the text from the first to the last, in order
/// and without gaps; each holds at least one line, and its token count is the tokens of its lines,
/// at most the target unless the chunk is a single line; each chunk begins after the one before
/// began and no later than it ended; with no overlap chunks follow each other exactly, and where
/// a chunk repeats lines of the one before, those lines hold at least the overlap in tokens and
/// all but the first of them less than the overlap.
pub proof fn lemma_chunk_plan_laws(text: Seq<char>, target: nat, overlap: nat)
    ensures
        ({
            let ls = lines(text);
            let t = line_token_counts(ls);
            let p = chunk_plan(text, target, overlap);
            let tg = effective_target(target);
            let ov = effective_overlap(target, overlap);
            &&& (p.len() == 0 <==> ls.len() == 0)
            &&& ls.len() > 0 ==> p[0].0 == 0 && p.last().1 == ls.len()
            &&& forall|i: int|
                0 <= i < p.len() ==> 0 <= (#[trigger] p[i]).0 < p[i].1 <= ls.len() && p[i].2
                    == token_sum(t, p[i].0, p[i].1) && (p[i].2 <= tg || p[i].1 == p[i].0 + 1)
            &&& forall|i: int|
                0 <= i < p.len() - 1 ==> {
                    &&& (#[trigger] p[i]).0 < p[i + 1].0 <= p[i].1
                    &&& ov == 0 ==> p[i + 1].0 == p[i].1
                    &&& p[i + 1].0 < p[i].1 ==> token_sum(t, p[i + 1].0, p[i].1) >= ov
                        && token_sum(t, p[i + 1].0 + 1, p[i].1) < ov
                }
        }),
{
    let ls = lines(text);
    let t = line_token_counts(ls);
    assert forall|j: int| 0 <= j < t.len() implies t[j] >= 1 by {
        assert(t[j] == line_tokens(ls[j]));
    }
    lemma_spans_facts(t, 0, effective_target(target), effective_overlap(target, overlap));
}

proof fn lemma_fill_greedy(t: Seq<nat>, e: int, acc: nat, target: nat)
    requires
        0 <= e,
    ensures
        fill(t, e, acc, target).0 < t.len() ==> fill(t, e, acc, target).1 + t[fill(t, e, acc, target).0]
            > target,
    decreases t.len() - e,
{
    if e < t.len() && !(acc > 0 && acc + t[e] > target) {
        lemma_fill_greedy(t, e + 1, acc + t[e], target);
    }
}

proof fn lemma_spans_greedy(t: Seq<nat>, start: int, target: nat, overlap: nat)
    requires
        0 <= start,
    ensures
        forall|i: int|
            0 <= i < spans_from(t, start, target, overlap).len() - 1 ==> (#[trigger] spans_from(
                t,
                start,
                target,
                overlap,
            )[i]).1 < t.len() && spans_from(t, start, target, overlap)[i].2 + t[spans_from(
                t,
                start,
                target,
                overlap,
            )[i].1] > target,
    decreases t.len() - start,
{
    if 0 <= start < t.len() {
        let (end, tokens) = fill(t, start, 0, target);
        lemma_fill_greedy(t, start, 0, target);
        if end < t.len() {
            let nx = next_start(t, start, end, overlap);
            if !(nx <= start || nx > t.len()) {
                lemma_spans_greedy(t, nx, target, overlap);
                let sp = spans_from(t, start, target, overlap);
                let rest = spans_from(t, nx, target, overlap);
                assert(sp == seq![(start, end, tokens)] + rest);
                assert forall|i: int| 0 <= i < sp.len() - 1 implies (#[trigger] sp[i]).1 < t.len()
                    && sp[i].2 + t[sp[i].1] > target by {
                    if i > 0 {
                        assert(sp[i] == rest[i - 1]);
                    }
                }
            }
        }
    }
}

/// Chunks are filled greedily: every chunk but the last is followed by a line that would not
/// fit in it, so its tokens and that line's tokens together exceed the target.
pub proof fn lemma_chunks_filled_greedily(text: Seq<char>, target: nat, overlap: nat)
    ensures
        ({
            let ls = lines(text);
            let p = chunk_plan(text, target, overlap);
            forall|i: int|
                0 <= i < p.len() - 1 ==> (#[trigger] p[i]).1 < ls.len() && p[i].2 + line_tokens(
                    ls[p[i].1],
                ) > effective_target(target)
        }),
{
    let ls = lines(text);
    let t = line_token_counts(ls);
    let p = chunk_plan(text, target, overlap);
    let sp = spans_from(t, 0, effective_target(target), effective_overlap(target, overlap));
    lemma_spans_greedy(t, 0, effective_target(target), effective_overlap(target, overlap));
    assert(p == sp);
    lemma_chunk_plan_laws(text, target, overlap);
    assert forall|i: int| 0 <= i < p.len() - 1 implies (#[trigger] p[i]).1 < ls.len() && p[i].2
        + line_tokens(ls[p[i].1]) > effective_target(target) by {
        assert(sp[i].1 < t.len());
        assert(0 <= p[i].0 < p[i].1);
        assert(t.len() == ls.len());
        assert(t[sp[i].1] == line_tokens(ls[sp[i].1]));
    }
}

} // verus!
