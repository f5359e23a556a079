//! Answers read straight out of the retrieved text, without a language model: the value of a
//! variable a question asks for, or whether the user's documents hold what they ask about.
use vstd::prelude::*;

use crate::text::{
    chars_equal, chars_of, find_chars, find_from, is_whitespace, is_ws, join, join_range,
    is_alphanumeric, alphanumeric, lemma_find_from_bound, lowercase, split_words, string_of,
    to_lowercase, trim, trim_chars, trim_end_char, trim_end_char_in_place, views, words,
    contains, contains_chars, occurs_at, starts_with, starts_with_chars,
};

verus! {

broadcast use vstd::string::group_string_axioms;

/// `c` is an ASCII letter or digit.
pub open spec fn is_ascii_alnum(c: char) -> bool {
    ('a' <= c && c <= 'z') || ('A' <= c && c <= 'Z') || ('0' <= c && c <= '9')
}

/// The character that normalizing keeps for `c`: letters, digits, white space and `_` stay,
/// anything else becomes a space.
pub open spec fn normalized_char(c: char) -> char {
    if is_ascii_alnum(c) || is_ws(c) || c == '_' {
        c
    } else {
        ' '
    }
}

/// `s` with every character but ASCII letters, digits, white space and `_` made a space.
pub open spec fn normalized(s: Seq<char>) -> Seq<char> {
    s.map_values(|c: char| normalized_char(c))
}

/// `s` normalized (see `normalized`).
pub fn normalize_chars(s: &[char]) -> (r: Vec<char>)
    ensures
        r@ == normalized(s@),
{
    let mut r: Vec<char> = Vec::new();
    let mut i: usize = 0;
    while i < s.len()
        invariant
            i <= s@.len(),
            r@ == normalized(s@.take(i as int)),
        decreases s.len() - i,
    {
        let c = s[i];
        let keep = ('a' <= c && c <= 'z') || ('A' <= c && c <= 'Z') || ('0' <= c && c <= '9')
            || is_whitespace(c) || c == '_';
        if keep {
            r.push(c);
        } else {
            r.push(' ');
        }
        proof {
            assert(r@ =~= normalized(s@.take(i + 1)));
        }
        i = i + 1;
    }
    proof {
        assert(s@.take(s@.len() as int) =~= s@);
    }
    r
}

/// The characters of `t` are exactly those of the text `lit`.
pub fn equals_text(t: &[char], lit: &str) -> (r: bool)
    ensures
        r == (t@ == lit@),
{
    let l = chars_of(lit);
    chars_equal(t, l.as_slice())
}

/// Words that a question about owning something carries without naming the thing.
pub open spec fn is_stop_word(t: Seq<char>) -> bool {
    ||| t == "do"@
    ||| t == "i"@
    ||| t == "have"@
    ||| t == "did"@
    ||| t == "own"@
    ||| t == "is"@
    ||| t == "the"@
    ||| t == "a"@
    ||| t == "an"@
    ||| t == "my"@
    ||| t == "me"@
    ||| t == "of"@
    ||| t == "in"@
    ||| t == "to"@
    ||| t == "for"@
    ||| t == "and"@
    ||| t == "or"@
    ||| t == "certificate"@
    ||| t == "certification"@
    ||| t == "any"@
    ||| t == "there"@
}

/// Whether `t` is one of the stop words.
pub fn stop_word(t: &[char]) -> (r: bool)
    ensures
        r == is_stop_word(t@),
{
    equals_text(t, "do") || equals_text(t, "i") || equals_text(t, "have") || equals_text(t, "did")
        || equals_text(t, "own") || equals_text(t, "is") || equals_text(t, "the") || equals_text(
        t,
        "a",
    ) || equals_text(t, "an") || equals_text(t, "my") || equals_text(t, "me") || equals_text(
        t,
        "of",
    ) || equals_text(t, "in") || equals_text(t, "to") || equals_text(t, "for") || equals_text(
        t,
        "and",
    ) || equals_text(t, "or") || equals_text(t, "certificate") || equals_text(t, "certification")
        || equals_text(t, "any") || equals_text(t, "there")
}

/// A word that may name the topic of a question.
pub open spec fn topic_word(t: Seq<char>) -> bool {
    t != "certificate"@ && t != "certification"@
}

/// The topic words of `ts`, in order.
pub open spec fn topic_words(ts: Seq<Seq<char>>) -> Seq<Seq<char>>
    decreases ts.len(),
{
    if ts.len() == 0 {
        seq![]
    } else {
        let r = topic_words(ts.drop_last());
        if topic_word(ts.last()) {
            r.push(ts.last())
        } else {
            r
        }
    }
}

/// At most the first `n` elements of `s`.
pub open spec fn first_n<A>(s: Seq<A>, n: nat) -> Seq<A> {
    if s.len() > n {
        s.take(n as int)
    } else {
        s
    }
}

/// The topic of a question: its first four topic words joined by spaces, or `that`.
pub open spec fn topic(ts: Seq<Seq<char>>) -> Seq<char> {
    let w = first_n(topic_words(ts), 4);
    if w.len() == 0 {
        "that"@
    } else {
        join(w, " "@)
    }
}

/// The topic of the question whose wanted words are `tokens`.
pub fn topic_from_token_chars(tokens: &[Vec<char>]) -> (r: Vec<char>)
    ensures
        r@ == topic(views(tokens@)),
{
    let ghost ts = views(tokens@);
    let mut words: Vec<Vec<char>> = Vec::new();
    let mut i: usize = 0;
    while i < tokens.len()
        invariant
            i <= tokens@.len(),
            ts == views(tokens@),
            views(words@) == first_n(topic_words(ts.take(i as int)), 4),
        decreases tokens.len() - i,
    {
        proof {
            assert(ts.take(i + 1).drop_last() =~= ts.take(i as int));
            assert(ts.take(i + 1).last() == tokens@[i as int]@);
        }
        let t = &tokens[i];
        let keep = !equals_text(t.as_slice(), "certificate") && !equals_text(
            t.as_slice(),
            "certification",
        );
        if keep && words.len() < 4 {
            let ghost before = words@;
            let tc = t.clone();
            assert(tc@ == t@);
            words.push(tc);
            proof {
                let k = topic_words(ts.take(i as int));
                assert(topic_words(ts.take(i + 1)) == k.push(t@));
                assert(first_n(k, 4) == k);
                assert(views(words@) =~= views(before).push(t@));
                assert(views(words@) =~= first_n(topic_words(ts.take(i + 1)), 4));
            }
        } else {
            proof {
                let k = topic_words(ts.take(i as int));
                if keep {
                    assert(first_n(k.push(tokens@[i as int]@), 4) =~= first_n(k, 4));
                }
            }
        }
        i = i + 1;
    }
    proof {
        assert(ts.take(tokens@.len() as int) =~= ts);
    }
    if words.len() == 0 {
        chars_of("that")
    } else {
        let mut sep: Vec<char> = Vec::new();
        sep.push(' ');
        proof {
            reveal_strlit(" ");
            assert(sep@ =~= " "@);
            assert(words@.subrange(0, words@.len() as int) =~= words@);
        }
        join_range(words.as_slice(), 0, words.len(), sep.as_slice())
    }
}


/// A character that opens or closes a string literal in JavaScript or Python.
pub open spec fn is_quote(c: char) -> bool {
    c == '"' || c == '\'' || c == '`'
}

/// Scanning `s` from position `k` with bracket depth `depth`, inside the string literal opened
/// by `in_str` (if any) and after a backslash (`escaped`): the position of the closing bracket
/// at which the depth outside string literals comes back to zero.
pub open spec fn balanced_end(
    s: Seq<char>,
    k: int,
    depth: nat,
    in_str: Option<char>,
    escaped: bool,
    open: char,
    close: char,
) -> Option<int>
    decreases s.len() - k,
{
    if k < 0 || k >= s.len() {
        None
    } else {
        let ch = s[k];
        match in_str {
            Some(q) => if escaped {
                balanced_end(s, k + 1, depth, in_str, false, open, close)
            } else if ch == '\\' {
                balanced_end(s, k + 1, depth, in_str, true, open, close)
            } else if ch == q {
                balanced_end(s, k + 1, depth, None, escaped, open, close)
            } else {
                balanced_end(s, k + 1, depth, in_str, escaped, open, close)
            },
            None => if is_quote(ch) {
                balanced_end(s, k + 1, depth, Some(ch), escaped, open, close)
            } else if ch == open {
                balanced_end(s, k + 1, depth + 1, None, escaped, open, close)
            } else if ch == close {
                let d: nat = if depth > 0 {
                    (depth - 1) as nat
                } else {
                    0
                };
                if d == 0 {
                    Some(k)
                } else {
                    balanced_end(s, k + 1, d, None, escaped, open, close)
                }
            } else {
                balanced_end(s, k + 1, depth, None, escaped, open, close)
            },
        }
    }
}

/// The bracketed literal at the start of `s` up to its matching closing bracket, trimmed, where
/// brackets inside string literals do not count.
pub open spec fn balanced_prefix(s: Seq<char>, open: char, close: char) -> Option<Seq<char>> {
    match balanced_end(s, 0, 0, None, false, open, close) {
        Some(k) => Some(trim(s.take(k + 1))),
        None => None,
    }
}

/// The prefix of `input` through the bracket that balances the first one (see `balanced_prefix`).
pub fn cut_balanced_chars(input: &[char], open: char, close: char) -> (r: Option<Vec<char>>)
    ensures
        match r {
            Some(v) => balanced_prefix(input@, open, close) == Some(v@),
            None => balanced_prefix(input@, open, close) is None,
        },
{
    let mut depth: usize = 0;
    let mut in_str: Option<char> = None;
    let mut escaped = false;
    let mut k: usize = 0;
    while k < input.len()
        invariant
            k <= input@.len(),
            depth <= k,
            balanced_end(input@, 0, 0, None, false, open, close) == balanced_end(
                input@,
                k as int,
                depth as nat,
                in_str,
                escaped,
                open,
                close,
            ),
        decreases input.len() - k,
    {
        let ch = input[k];
        match in_str {
            Some(q) => {
                if escaped {
                    escaped = false;
                } else if ch == '\\' {
                    escaped = true;
                } else if ch == q {
                    in_str = None;
                }
            },
            None => {
                if ch == '"' || ch == '\'' || ch == '`' {
                    in_str = Some(ch);
                } else if ch == open {
                    depth = depth + 1;
                } else if ch == close {
                    if depth > 0 {
                        depth = depth - 1;
                    }
                    if depth == 0 {
                        let prefix = slice_prefix(input, k + 1);
                        let t = trim_chars(prefix.as_slice());
                        return Some(t);
                    }
                }
            },
        }
        k = k + 1;
    }
    None
}

/// The first `n` characters of `s`.
pub fn slice_prefix(s: &[char], n: usize) -> (r: Vec<char>)
    requires
        n <= s@.len(),
    ensures
        r@ == s@.take(n as int),
{
    let mut r: Vec<char> = Vec::new();
    let mut i: usize = 0;
    while i < n
        invariant
            i <= n <= s@.len(),
            r@ == s@.take(i as int),
        decreases n - i,
    {
        r.push(s[i]);
        proof {
            assert(r@ =~= s@.take(i + 1));
        }
        i = i + 1;
    }
    r
}

/// Scanning `s` from position `k` inside a literal quoted by `q`: the position of the closing
/// quote, skipping characters escaped by a backslash.
pub open spec fn literal_end(s: Seq<char>, k: int, q: char, escaped: bool) -> Option<int>
    decreases s.len() - k,
{
    if k < 0 || k >= s.len() {
        None
    } else if escaped {
        literal_end(s, k + 1, q, false)
    } else if s[k] == '\\' {
        literal_end(s, k + 1, q, true)
    } else if s[k] == q {
        Some(k)
    } else {
        literal_end(s, k + 1, q, escaped)
    }
}

/// The string literal at the start of `s`, through its closing quote.
pub open spec fn literal_prefix(s: Seq<char>) -> Option<Seq<char>> {
    if s.len() == 0 {
        None
    } else {
        match literal_end(s, 1, s[0], false) {
            Some(k) => Some(s.take(k + 1)),
            None => None,
        }
    }
}

/// The string literal that `input` begins with (see `literal_prefix`).
pub fn cut_string_literal_chars(input: &[char]) -> (r: Option<Vec<char>>)
    ensures
        match r {
            Some(v) => literal_prefix(input@) == Some(v@),
            None => literal_prefix(input@) is None,
        },
{
    if input.len() == 0 {
        return None;
    }
    let quote = input[0];
    let mut escaped = false;
    let mut k: usize = 1;
    while k < input.len()
        invariant
            1 <= k <= input@.len(),
            quote == input@[0],
            literal_end(input@, 1, quote, false) == literal_end(input@, k as int, quote, escaped),
        decreases input.len() - k,
    {
        let ch = input[k];
        if escaped {
            escaped = false;
        } else if ch == '\\' {
            escaped = true;
        } else if ch == quote {
            return Some(slice_prefix(input, k + 1));
        }
        k = k + 1;
    }
    None
}

/// `s` cut before the first occurrence of `marker`, if any.
pub open spec fn cut_at(s: Seq<char>, marker: Seq<char>) -> Seq<char> {
    match find_from(s, marker, 0) {
        Some(p) => s.take(p),
        None => s,
    }
}

/// `s` cut before the start of a following declaration that a collapsed chunk may hold.
pub open spec fn cut_declarations(s: Seq<char>) -> Seq<char> {
    cut_at(
        cut_at(cut_at(cut_at(cut_at(s, " const "@), " let "@), " var "@), " function "@),
        " class "@,
    )
}

/// A value as written: trimmed, without trailing commas.
pub open spec fn plain_value(s: Seq<char>) -> Seq<char> {
    trim_end_char(trim(s), ',')
}

/// The value of a JavaScript declaration as read: cut before a following declaration; a
/// complete array, object or string literal where it begins with one; else trimmed, without
/// trailing commas.
pub open spec fn js_value(raw: Seq<char>) -> Seq<char> {
    let s = cut_declarations(trim(raw));
    if s.len() > 0 && s[0] == '[' && balanced_prefix(s, '[', ']') is Some {
        balanced_prefix(s, '[', ']')->0
    } else if s.len() > 0 && s[0] == '{' && balanced_prefix(s, '{', '}') is Some {
        balanced_prefix(s, '{', '}')->0
    } else if s.len() > 0 && is_quote(s[0]) && literal_prefix(s) is Some {
        literal_prefix(s)->0
    } else {
        plain_value(s)
    }
}

fn cut_at_exec(s: Vec<char>, marker: &str) -> (r: Vec<char>)
    ensures
        r@ == cut_at(s@, marker@),
{
    let m = chars_of(marker);
    match find_chars(s.as_slice(), m.as_slice(), 0) {
        Some(p) => {
            proof {
                lemma_find_from_bound(s@, m@, 0);
            }
            slice_prefix(s.as_slice(), p)
        },
        None => s,
    }
}

/// The value of a JavaScript declaration (see `js_value`).
pub fn cleanup_js_chars(raw: &[char]) -> (r: Vec<char>)
    ensures
        r@ == js_value(raw@),
{
    let t = trim_chars(raw);
    let s = cut_at_exec(t, " const ");
    let s = cut_at_exec(s, " let ");
    let s = cut_at_exec(s, " var ");
    let s = cut_at_exec(s, " function ");
    let s = cut_at_exec(s, " class ");
    if s.len() > 0 && s[0] == '[' {
        if let Some(v) = cut_balanced_chars(s.as_slice(), '[', ']') {
            return v;
        }
    } else if s.len() > 0 && s[0] == '{' {
        if let Some(v) = cut_balanced_chars(s.as_slice(), '{', '}') {
            return v;
        }
    } else if s.len() > 0 && (s[0] == '"' || s[0] == '\'' || s[0] == '`') {
        if let Some(v) = cut_string_literal_chars(s.as_slice()) {
            return v;
        }
    }
    cleanup_python_chars(s.as_slice())
}

/// The value of a Python assignment: trimmed, without trailing commas.
pub fn cleanup_python_chars(raw: &[char]) -> (r: Vec<char>)
    ensures
        r@ == plain_value(raw@),
{
    let mut t = trim_chars(raw);
    trim_end_char_in_place(&mut t, ',');
    t
}


#[verifier::external_type_specification]
#[verifier::external_body]
pub struct ExRegex(regex::Regex);

/// The characters that `regex::escape` precedes with a backslash.
pub open spec fn is_regex_meta(c: char) -> bool {
    c == '\\' || c == '.' || c == '+' || c == '*' || c == '?' || c == '(' || c == ')' || c == '|'
        || c == '[' || c == ']' || c == '{' || c == '}' || c == '^' || c == '$' || c == '#' || c
        == '&' || c == '-' || c == '~'
}

/// `s` with a backslash before each regular-expression meta character, as `regex::escape` gives it.
pub open spec fn regex_escaped(s: Seq<char>) -> Seq<char>
    decreases s.len(),
{
    if s.len() == 0 {
        seq![]
    } else if is_regex_meta(s.last()) {
        regex_escaped(s.drop_last()) + seq!['\\', s.last()]
    } else {
        regex_escaped(s.drop_last()) + seq![s.last()]
    }
}

/// `regex::escape`: the text with each meta character (`\\ . + * ? ( ) | [ ] { } ^ $ # & - ~`)
/// preceded by a backslash, as regex-syntax's `escape_into` writes it.
#[verifier::external_body]
fn regex_escape(s: &str) -> (r: String)
    ensures
        r@ == regex_escaped(s@),
{
    regex::escape(s)
}

/// Whether `regex::Regex::new` accepts a pattern.
pub uninterp spec fn regex_compiles(pattern: Seq<char>) -> bool;

/// What matching a pattern against a text gives: `None` without a match, else the text of the
/// pattern's first group in the leftmost-first match, when that group took part in it.
pub uninterp spec fn regex_group1(pattern: Seq<char>, haystack: Seq<char>) -> Option<Option<Seq<char>>>;

/// A compiled regular expression with the pattern it was compiled from.
pub struct CompiledPattern {
    pattern: String,
    re: regex::Regex,
}

impl View for CompiledPattern {
    type V = Seq<char>;

    closed spec fn view(&self) -> Seq<char> {
        self.pattern@
    }
}

/// `regex::Regex::new`: `Some` exactly when the pattern compiles (that answer is named
/// `regex_compiles`), holding the pattern.
#[verifier::external_body]
fn compile_pattern(pattern: &str) -> (r: Option<CompiledPattern>)
    ensures
        r is Some <==> regex_compiles(pattern@),
        r matches Some(c) ==> c@ == pattern@,
{
    match regex::Regex::new(pattern) {
        Ok(re) => Some(CompiledPattern { pattern: pattern.to_string(), re }),
        Err(_) => None,
    }
}

/// The view of a match's first group.
pub open spec fn group_view(r: Option<Option<String>>) -> Option<Option<Seq<char>>> {
    match r {
        None => None,
        Some(None) => Some(None),
        Some(Some(s)) => Some(Some(s@)),
    }
}

/// `regex::Regex::captures` and `Captures::get(1)`: the first group of the leftmost-first match
/// of the pattern in `haystack`; the answer is named `regex_group1` of the pattern and the text.
#[verifier::external_body]
fn capture_group1(p: &CompiledPattern, haystack: &str) -> (r: Option<Option<String>>)
    ensures
        group_view(r) == regex_group1(p@, haystack@),
{
    match p.re.captures(haystack) {
        None => None,
        Some(caps) => match caps.get(1) {
            None => Some(None),
            Some(m) => Some(Some(m.as_str().to_string())),
        },
    }
}

/// The patterns by which a question names a variable, tried in this order.
pub open spec fn name_patterns() -> Seq<Seq<char>> {
    seq![
        "value of ([a-zA-Z_][a-zA-Z0-9_]*)"@,
        "value of ([a-zA-Z_][a-zA-Z0-9_]*)\\?"@,
        "value of the ([a-zA-Z_][a-zA-Z0-9_]*)"@,
        "what is ([a-zA-Z_][a-zA-Z0-9_]*)"@,
        "what's ([a-zA-Z_][a-zA-Z0-9_]*)"@,
    ]
}

/// The first group that one of the patterns from `i` on finds in `q`.
pub open spec fn first_group(ps: Seq<Seq<char>>, q: Seq<char>, i: int) -> Option<Seq<char>>
    decreases ps.len() - i,
{
    if i < 0 || i >= ps.len() {
        None
    } else {
        match regex_group1(ps[i], q) {
            Some(Some(g)) => Some(g),
            _ => first_group(ps, q, i + 1),
        }
    }
}

/// The character kept for `c` when a question is split into name-like words.
pub open spec fn name_char(c: char) -> char {
    if alphanumeric(c) || c == '_' || is_ws(c) {
        c
    } else {
        ' '
    }
}

/// `c` may begin an identifier.
pub open spec fn ident_start(c: char) -> bool {
    ('a' <= c && c <= 'z') || ('A' <= c && c <= 'Z') || c == '_'
}

/// The first word after an `of`, from word `i` on, that may begin an identifier.
pub open spec fn of_candidate(tokens: Seq<Seq<char>>, i: int) -> Option<Seq<char>>
    decreases tokens.len() - i,
{
    if i < 0 || i + 1 >= tokens.len() {
        None
    } else if tokens[i] == "of"@ && tokens[i + 1].len() > 0 && ident_start(tokens[i + 1][0]) {
        Some(tokens[i + 1])
    } else {
        of_candidate(tokens, i + 1)
    }
}

/// The variable a question asks for: the first group of the first name pattern that matches the
/// lowercased question, else the word after an `of`; nothing when a pattern does not compile.
pub open spec fn inferred_name(question: Seq<char>) -> Option<Seq<char>> {
    let q = lowercase(question);
    let ps = name_patterns();
    if !(forall|i: int| 0 <= i < ps.len() ==> regex_compiles(#[trigger] ps[i])) {
        None
    } else {
        match first_group(ps, q, 0) {
            Some(g) => Some(g),
            None => of_candidate(words(q.map_values(|c: char| name_char(c))), 0),
        }
    }
}

fn compile_name_patterns() -> (r: Option<Vec<CompiledPattern>>)
    ensures
        r is Some <==> (forall|i: int|
            0 <= i < name_patterns().len() ==> regex_compiles(#[trigger] name_patterns()[i])),
        r matches Some(v) ==> v@.len() == name_patterns().len() && forall|i: int|
            0 <= i < v@.len() ==> (#[trigger] v@[i])@ == name_patterns()[i],
{
    let ps = [
        "value of ([a-zA-Z_][a-zA-Z0-9_]*)",
        "value of ([a-zA-Z_][a-zA-Z0-9_]*)\\?",
        "value of the ([a-zA-Z_][a-zA-Z0-9_]*)",
        "what is ([a-zA-Z_][a-zA-Z0-9_]*)",
        "what's ([a-zA-Z_][a-zA-Z0-9_]*)",
    ];
    let ghost spec_ps = name_patterns();
    assert(forall|i: int| 0 <= i < 5 ==> (#[trigger] ps@[i])@ == spec_ps[i]);
    let mut out: Vec<CompiledPattern> = Vec::new();
    let mut i: usize = 0;
    while i < 5
        invariant
            i <= 5,
            spec_ps == name_patterns(),
            spec_ps.len() == 5,
            ps@.len() == 5,
            forall|j: int| 0 <= j < 5 ==> (#[trigger] ps@[j])@ == spec_ps[j],
            out@.len() == i,
            forall|j: int| 0 <= j < i ==> (#[trigger] out@[j])@ == spec_ps[j] && regex_compiles(
                spec_ps[j],
            ),
        decreases 5 - i,
    {
        match compile_pattern(ps[i]) {
            Some(c) => out.push(c),
            None => {
                proof {
                    assert(!regex_compiles(name_patterns()[i as int]));
                }
                return None;
            },
        }
        i = i + 1;
    }
    proof {
        assert forall|j: int| 0 <= j < name_patterns().len() implies regex_compiles(
            #[trigger] name_patterns()[j],
        ) by {
            assert(out@[j]@ == spec_ps[j]);
        }
    }
    Some(out)
}

fn name_chars(q: &[char]) -> (r: Vec<char>)
    ensures
        r@ == q@.map_values(|c: char| name_char(c)),
{
    let mut r: Vec<char> = Vec::new();
    let mut i: usize = 0;
    while i < q.len()
        invariant
            i <= q@.len(),
            r@ == q@.take(i as int).map_values(|c: char| name_char(c)),
        decreases q.len() - i,
    {
        let c = q[i];
        if is_alphanumeric(c) || c == '_' || is_whitespace(c) {
            r.push(c);
        } else {
            r.push(' ');
        }
        proof {
            assert(r@ =~= q@.take(i + 1).map_values(|c: char| name_char(c)));
        }
        i = i + 1;
    }
    proof {
        assert(q@.take(q@.len() as int) =~= q@);
    }
    r
}

/// The first group found, from match `i` on.
pub open spec fn first_found(gs: Seq<Option<Option<Seq<char>>>>, i: int) -> Option<Seq<char>>
    decreases gs.len() - i,
{
    if i < 0 || i >= gs.len() {
        None
    } else {
        match gs[i] {
            Some(Some(g)) => Some(g),
            _ => first_found(gs, i + 1),
        }
    }
}

/// The variable a question asks for, given what each name pattern found in the lowercased
/// question (in order) and the question's name-like characters (see `name_char`): the first
/// group found, else the word after an `of`.
pub open spec fn name_from(gs: Seq<Option<Option<Seq<char>>>>, cleaned: Seq<char>) -> Option<Seq<char>> {
    match first_found(gs, 0) {
        Some(g) => Some(g),
        None => of_candidate(words(cleaned), 0),
    }
}

/// The views of the groups found.
pub open spec fn groups_view(gs: Seq<Option<Option<String>>>) -> Seq<Option<Option<Seq<char>>>> {
    gs.map_values(|g: Option<Option<String>>| group_view(g))
}

/// The variable a question asks for, from what the name patterns found and the question's
/// name-like characters (see `name_from`).
pub fn name_from_matches(groups: &[Option<Option<String>>], cleaned: &str) -> (r: Option<String>)
    ensures
        match r {
            Some(n) => name_from(groups_view(groups@), cleaned@) == Some(n@),
            None => name_from(groups_view(groups@), cleaned@) is None,
        },
{
    let ghost gv = groups_view(groups@);
    let mut i: usize = 0;
    while i < groups.len()
        invariant
            i <= groups@.len(),
            gv == groups_view(groups@),
            first_found(gv, 0) == first_found(gv, i as int),
        decreases groups.len() - i,
    {
        proof {
            assert(gv[i as int] == group_view(groups@[i as int]));
        }
        match &groups[i] {
            Some(Some(g)) => {
                return Some(g.clone());
            },
            _ => {},
        }
        i = i + 1;
    }
    let cc = chars_of(cleaned);
    let tokens = split_words(cc.as_slice());
    let ghost tv = words(cleaned@);
    assert(name_from(gv, cleaned@) == of_candidate(tv, 0));
    let mut k: usize = 0;
    while tokens.len() >= 1 && k < tokens.len() - 1
        invariant
            gv == groups_view(groups@),
            name_from(gv, cleaned@) == of_candidate(tv, k as int),
            tokens@.len() == tv.len(),
            forall|j: int| 0 <= j < tokens@.len() ==> #[trigger] tokens@[j]@ == tv[j],
        decreases tokens.len() - k,
    {
        let cand = &tokens[k + 1];
        if equals_text(tokens[k].as_slice(), "of") && cand.len() > 0 {
            let c = cand[0];
            if ('a' <= c && c <= 'z') || ('A' <= c && c <= 'Z') || c == '_' {
                proof {
                    assert(tokens@[k as int]@ == tv[k as int]);
                    assert(cand@ == tv[k + 1]);
                    assert(tv[k as int] == "of"@);
                    assert(ident_start(tv[k + 1][0]));
                    assert(of_candidate(tv, k as int) == Some(tv[k + 1]));
                }
                return Some(string_of(cand.as_slice()));
            }
        }
        k = k + 1;
    }
    None
}

proof fn lemma_first_group_found(ps: Seq<Seq<char>>, q: Seq<char>, gs: Seq<Option<Option<Seq<char>>>>, i: int)
    requires
        0 <= i,
        gs.len() == ps.len(),
        forall|j: int| 0 <= j < ps.len() ==> #[trigger] gs[j] == regex_group1(ps[j], q),
    ensures
        first_group(ps, q, i) == first_found(gs, i),
    decreases ps.len() - i,
{
    if i < ps.len() {
        lemma_first_group_found(ps, q, gs, i + 1);
    }
}

/// The variable that `question` asks the value of (see `inferred_name`): the question is
/// lowercased and matched against each name pattern.
pub fn infer_variable_name(question: &str) -> (r: Option<String>)
    ensures
        match r {
            Some(n) => inferred_name(question@) == Some(n@),
            None => inferred_name(question@) is None,
        },
{
    let q = to_lowercase(question);
    let patterns = match compile_name_patterns() {
        Some(v) => v,
        None => {
            return None;
        },
    };
    let ghost ps = name_patterns();
    let mut groups: Vec<Option<Option<String>>> = Vec::new();
    let mut i: usize = 0;
    while i < patterns.len()
        invariant
            i <= patterns@.len(),
            patterns@.len() == ps.len(),
            ps == name_patterns(),
            forall|j: int| 0 <= j < patterns@.len() ==> (#[trigger] patterns@[j])@ == ps[j],
            groups@.len() == i,
            forall|j: int| 0 <= j < i ==> #[trigger] groups_view(groups@)[j] == regex_group1(ps[j], q@),
        decreases patterns.len() - i,
    {
        let found = capture_group1(&patterns[i], q.as_str());
        proof {
            assert(patterns@[i as int]@ == ps[i as int]);
        }
        let ghost before = groups@;
        groups.push(found);
        proof {
            assert(groups_view(groups@) =~= groups_view(before).push(group_view(found)));
        }
        i = i + 1;
    }
    let qc = chars_of(q.as_str());
    let cleaned = string_of(name_chars(qc.as_slice()).as_slice());
    proof {
        lemma_first_group_found(ps, q@, groups_view(groups@), 0);
        assert(qc@ == q@);
    }
    name_from_matches(groups.as_slice(), cleaned.as_str())
}

/// The pattern of a JavaScript declaration of `name`, its value as first group.
pub open spec fn js_pattern(name: Seq<char>) -> Seq<char> {
    "(?m)\\b(?:const|let|var)\\s+"@ + regex_escaped(name) + "\\s*=\\s*([^;\\n]+)"@
}

/// The pattern of a Python assignment to `name`, its value as first group.
pub open spec fn py_pattern(name: Seq<char>) -> Seq<char> {
    "(?m)^\\s*"@ + regex_escaped(name) + "\\s*=\\s*([^\\n#]+)"@
}

/// How a found value is told: the name in backquotes, ` = ` and the value.
pub open spec fn value_answer(name: Seq<char>, value: Seq<char>) -> Seq<char> {
    "`"@ + name + "` = "@ + value
}

/// The answer found in chunk `i` or a later one: a JavaScript declaration of the variable first,
/// else a Python assignment; nothing when a match lacks its value group.
pub open spec fn value_from(
    name: Seq<char>,
    js: Seq<char>,
    py: Seq<char>,
    chunks: Seq<crate::models::RetrievedChunk>,
    i: int,
) -> Option<(Seq<char>, int)>
    decreases chunks.len() - i,
{
    if i < 0 || i >= chunks.len() {
        None
    } else {
        match regex_group1(js, chunks[i].text@) {
            Some(Some(v)) => Some((value_answer(name, js_value(trim(v))), i)),
            Some(None) => None,
            None => match regex_group1(py, chunks[i].text@) {
                Some(Some(v)) => Some((value_answer(name, plain_value(trim(v))), i)),
                Some(None) => None,
                None => value_from(name, js, py, chunks, i + 1),
            },
        }
    }
}

/// The answer to a question about a variable's value: the variable's name and value as the first
/// chunk that declares it gives them, with that chunk's position.
pub open spec fn variable_answer(question: Seq<char>, chunks: Seq<crate::models::RetrievedChunk>) -> Option<
    (Seq<char>, int),
> {
    match inferred_name(question) {
        None => None,
        Some(name) => if !regex_compiles(js_pattern(name)) || !regex_compiles(py_pattern(name)) {
            None
        } else {
            value_from(name, js_pattern(name), py_pattern(name), chunks, 0)
        },
    }
}

/// An answer read out of the context, and the position of the chunk it comes from.
#[derive(Debug, Clone)]
pub struct ExtractiveAnswer {
    pub answer: String,
    pub source_chunk_index: usize,
}

/// The view of an optional answer.
pub open spec fn answer_view(r: Option<ExtractiveAnswer>) -> Option<(Seq<char>, int)> {
    match r {
        Some(a) => Some((a.answer@, a.source_chunk_index as int)),
        None => None,
    }
}

fn value_answer_exec(name: &str, value: &[char]) -> (r: String)
    ensures
        r@ == value_answer(name@, value@),
{
    let v = string_of(value);
    String::from_str("`").concat(name).concat("` = ").concat(v.as_str())
}

/// The answer found from chunk `i` on, given what the JavaScript pattern (`js`) and the Python
/// pattern (`py`) found in each chunk's text: a JavaScript declaration first, else a Python
/// assignment; nothing when a match lacks its value group.
pub open spec fn value_from_groups(
    name: Seq<char>,
    js: Seq<Option<Option<Seq<char>>>>,
    py: Seq<Option<Option<Seq<char>>>>,
    i: int,
) -> Option<(Seq<char>, int)>
    decreases js.len() - i,
{
    if i < 0 || i >= js.len() {
        None
    } else {
        match js[i] {
            Some(Some(v)) => Some((value_answer(name, js_value(trim(v))), i)),
            Some(None) => None,
            None => match py[i] {
                Some(Some(v)) => Some((value_answer(name, plain_value(trim(v))), i)),
                Some(None) => None,
                None => value_from_groups(name, js, py, i + 1),
            },
        }
    }
}

/// The value of the variable `name`, from what its declaration patterns found in each chunk's
/// text (see `value_from_groups`).
pub fn value_from_matches(
    name: &str,
    js_groups: &[Option<Option<String>>],
    py_groups: &[Option<Option<String>>],
) -> (r: Option<ExtractiveAnswer>)
    requires
        js_groups@.len() == py_groups@.len(),
    ensures
        answer_view(r) == value_from_groups(name@, groups_view(js_groups@), groups_view(py_groups@), 0),
{
    let ghost jv = groups_view(js_groups@);
    let ghost pv = groups_view(py_groups@);
    let mut i: usize = 0;
    while i < js_groups.len()
        invariant
            i <= js_groups@.len(),
            js_groups@.len() == py_groups@.len(),
            jv == groups_view(js_groups@),
            pv == groups_view(py_groups@),
            value_from_groups(name@, jv, pv, 0) == value_from_groups(name@, jv, pv, i as int),
        decreases js_groups.len() - i,
    {
        proof {
            assert(jv[i as int] == group_view(js_groups@[i as int]));
            assert(pv[i as int] == group_view(py_groups@[i as int]));
        }
        match &js_groups[i] {
            Some(Some(v)) => {
                let vc = chars_of(v.as_str());
                let tv = trim_chars(vc.as_slice());
                let value = cleanup_js_chars(tv.as_slice());
                return Some(
                    ExtractiveAnswer { answer: value_answer_exec(name, value.as_slice()), source_chunk_index: i },
                );
            },
            Some(None) => {
                return None;
            },
            None => {},
        }
        match &py_groups[i] {
            Some(Some(v)) => {
                let vc = chars_of(v.as_str());
                let tv = trim_chars(vc.as_slice());
                let value = cleanup_python_chars(tv.as_slice());
                return Some(
                    ExtractiveAnswer { answer: value_answer_exec(name, value.as_slice()), source_chunk_index: i },
                );
            },
            Some(None) => {
                return None;
            },
            None => {},
        }
        i = i + 1;
    }
    None
}

proof fn lemma_value_from_groups(
    name: Seq<char>,
    js: Seq<char>,
    py: Seq<char>,
    chunks: Seq<crate::models::RetrievedChunk>,
    jg: Seq<Option<Option<Seq<char>>>>,
    pg: Seq<Option<Option<Seq<char>>>>,
    i: int,
)
    requires
        0 <= i,
        jg.len() == chunks.len(),
        pg.len() == chunks.len(),
        forall|k: int| 0 <= k < chunks.len() ==> #[trigger] jg[k] == regex_group1(js, chunks[k].text@),
        forall|k: int| 0 <= k < chunks.len() ==> #[trigger] pg[k] == regex_group1(py, chunks[k].text@),
    ensures
        value_from(name, js, py, chunks, i) == value_from_groups(name, jg, pg, i),
    decreases chunks.len() - i,
{
    if i < chunks.len() {
        assert(jg[i] == regex_group1(js, chunks[i].text@));
        assert(pg[i] == regex_group1(py, chunks[i].text@));
        lemma_value_from_groups(name, js, py, chunks, jg, pg, i + 1);
    }
}

/// The value of the variable that `question` asks for (see `variable_answer`): its declaration
/// patterns are matched against each chunk's text.
pub fn answer_variable_value(question: &str, chunks: &[crate::models::RetrievedChunk]) -> (r: Option<ExtractiveAnswer>)
    ensures
        answer_view(r) == variable_answer(question@, chunks@),
{
    let name = match infer_variable_name(question) {
        Some(n) => n,
        None => {
            return None;
        },
    };
    let escaped = regex_escape(name.as_str());
    let js_src = String::from_str("(?m)\\b(?:const|let|var)\\s+").concat(escaped.as_str()).concat(
        "\\s*=\\s*([^;\\n]+)",
    );
    let py_src = String::from_str("(?m)^\\s*").concat(escaped.as_str()).concat(
        "\\s*=\\s*([^\\n#]+)",
    );
    let js = match compile_pattern(js_src.as_str()) {
        Some(c) => c,
        None => {
            return None;
        },
    };
    let py = match compile_pattern(py_src.as_str()) {
        Some(c) => c,
        None => {
            return None;
        },
    };
    let ghost jsv = js_pattern(name@);
    let ghost pyv = py_pattern(name@);
    assert(js_src@ == jsv);
    assert(py_src@ == pyv);
    assert(variable_answer(question@, chunks@) == value_from(name@, jsv, pyv, chunks@, 0));
    let mut jg: Vec<Option<Option<String>>> = Vec::new();
    let mut pg: Vec<Option<Option<String>>> = Vec::new();
    let mut i: usize = 0;
    while i < chunks.len()
        invariant
            i <= chunks@.len(),
            js@ == jsv,
            py@ == pyv,
            jg@.len() == i,
            pg@.len() == i,
            forall|k: int| 0 <= k < i ==> #[trigger] groups_view(jg@)[k] == regex_group1(jsv, chunks@[k].text@),
            forall|k: int| 0 <= k < i ==> #[trigger] groups_view(pg@)[k] == regex_group1(pyv, chunks@[k].text@),
        decreases chunks.len() - i,
    {
        let text = chunks[i].text.as_str();
        let a = capture_group1(&js, text);
        let b = capture_group1(&py, text);
        let ghost jb = jg@;
        let ghost pb = pg@;
        jg.push(a);
        pg.push(b);
        proof {
            assert(groups_view(jg@) =~= groups_view(jb).push(group_view(a)));
            assert(groups_view(pg@) =~= groups_view(pb).push(group_view(b)));
        }
        i = i + 1;
    }
    proof {
        lemma_value_from_groups(name@, jsv, pyv, chunks@, groups_view(jg@), groups_view(pg@), 0);
    }
    value_from_matches(name.as_str(), jg.as_slice(), pg.as_slice())
}


/// A question of whether the user has something.
pub open spec fn asks_possession(ql: Seq<char>) -> bool {
    starts_with(ql, "do i have"@) || starts_with(ql, "have i"@) || starts_with(ql, "did i"@)
        || starts_with(ql, "do i own"@)
}

/// The words of a question that are not stop words, in order.
pub open spec fn wanted_words(ts: Seq<Seq<char>>) -> Seq<Seq<char>>
    decreases ts.len(),
{
    if ts.len() == 0 {
        seq![]
    } else {
        let r = wanted_words(ts.drop_last());
        if is_stop_word(ts.last()) {
            r
        } else {
            r.push(ts.last())
        }
    }
}

/// How many of the wanted words occur in `hay`.
pub open spec fn match_count(wanted: Seq<Seq<char>>, hay: Seq<char>) -> nat
    decreases wanted.len(),
{
    if wanted.len() == 0 {
        0
    } else {
        match_count(wanted.drop_last(), hay) + if contains(hay, wanted.last()) {
            1nat
        } else {
            0nat
        }
    }
}

/// The text a chunk is searched in: its file name and its normalized text, lowercased, with a
/// space between.
pub open spec fn haystack(c: crate::models::RetrievedChunk) -> Seq<char> {
    lowercase(c.file@) + " "@ + lowercase(normalized(c.text@))
}

/// How many wanted words a chunk must hold: all of them, but at most two.
pub open spec fn needed_matches(n: nat) -> nat {
    if n < 2 {
        n
    } else {
        2
    }
}

/// The reply to a question of possession that a chunk answers.
pub open spec fn possession_reply(ql: Seq<char>, hay: Seq<char>, wanted: Seq<Seq<char>>) -> Seq<char> {
    let t = topic(wanted);
    if contains(ql, "certificate"@) || contains(hay, "certificate"@) || contains(
        hay,
        "statement of achievement"@,
    ) {
        "Yes, you have a "@ + t + " certificate."@
    } else {
        "Yes, I found "@ + t + " in your indexed documents."@
    }
}

/// The texts the chunks are searched in (see `haystack`).
pub open spec fn haystacks(chunks: Seq<crate::models::RetrievedChunk>) -> Seq<Seq<char>> {
    chunks.map_values(|c: crate::models::RetrievedChunk| haystack(c))
}

/// The reply from the first searched text, from `i` on, that holds enough of the wanted words,
/// with its position.
pub open spec fn possession_from(
    ql: Seq<char>,
    wanted: Seq<Seq<char>>,
    hays: Seq<Seq<char>>,
    i: int,
) -> Option<(Seq<char>, int)>
    decreases hays.len() - i,
{
    if i < 0 || i >= hays.len() {
        None
    } else if match_count(wanted, hays[i]) >= needed_matches(wanted.len()) {
        Some((possession_reply(ql, hays[i], wanted), i))
    } else {
        possession_from(ql, wanted, hays, i + 1)
    }
}

/// The reply to a question of possession, given the question normalized and lowercased and
/// the texts the chunks are searched in: yes, from the first text that holds the question's
/// wanted words (all of them, or two when there are more).
pub open spec fn possession_reply_to(ql: Seq<char>, hays: Seq<Seq<char>>) -> Option<(Seq<char>, int)> {
    if !asks_possession(ql) {
        None
    } else {
        let wanted = wanted_words(words(ql));
        if wanted.len() == 0 {
            None
        } else {
            possession_from(ql, wanted, hays, 0)
        }
    }
}

/// The answer to a question of whether the user has something (see `possession_reply_to`).
pub open spec fn possession_answer(question: Seq<char>, chunks: Seq<crate::models::RetrievedChunk>) -> Option<
    (Seq<char>, int),
> {
    possession_reply_to(lowercase(normalized(question)), haystacks(chunks))
}

/// The answer read out of the context: a variable's value first, else a reply on possession.
pub open spec fn extractive_answer(question: Seq<char>, chunks: Seq<crate::models::RetrievedChunk>) -> Option<
    (Seq<char>, int),
> {
    match variable_answer(question, chunks) {
        Some(a) => Some(a),
        None => possession_answer(question, chunks),
    }
}

/// `s` normalized and lowercased.
fn lower_normalized(s: &str) -> (r: Vec<char>)
    ensures
        r@ == lowercase(normalized(s@)),
{
    let c = chars_of(s);
    let n = normalize_chars(c.as_slice());
    let ns = string_of(n.as_slice());
    let l = to_lowercase(ns.as_str());
    chars_of(l.as_str())
}

fn lower_chars(s: &str) -> (r: Vec<char>)
    ensures
        r@ == lowercase(s@),
{
    let l = to_lowercase(s);
    chars_of(l.as_str())
}

fn text_chars(s: &str) -> (r: Vec<char>)
    ensures
        r@ == s@,
{
    chars_of(s)
}

/// The reply to a question of possession, given the question normalized and lowercased and
/// the texts the chunks are searched in (see `possession_reply_to`).
pub fn answer_possession_lowered(question_lower: &str, haystacks: &[String]) -> (r: Option<ExtractiveAnswer>)
    ensures
        answer_view(r) == possession_reply_to(question_lower@, haystacks@.map_values(|s: String| s@)),
{
    let ghost hv = haystacks@.map_values(|s: String| s@);
    let ql = chars_of(question_lower);
    let is_possession = starts_with_chars(ql.as_slice(), text_chars("do i have").as_slice())
        || starts_with_chars(ql.as_slice(), text_chars("have i").as_slice()) || starts_with_chars(
        ql.as_slice(),
        text_chars("did i").as_slice(),
    ) || starts_with_chars(ql.as_slice(), text_chars("do i own").as_slice());
    if !is_possession {
        return None;
    }
    let tokens = split_words(ql.as_slice());
    let ghost tv = words(ql@);
    let mut wanted: Vec<Vec<char>> = Vec::new();
    let mut i: usize = 0;
    while i < tokens.len()
        invariant
            i <= tokens@.len(),
            tokens@.len() == tv.len(),
            forall|j: int| 0 <= j < tokens@.len() ==> #[trigger] tokens@[j]@ == tv[j],
            views(wanted@) == wanted_words(tv.take(i as int)),
        decreases tokens.len() - i,
    {
        proof {
            assert(tv.take(i + 1).drop_last() =~= tv.take(i as int));
            assert(tv.take(i + 1).last() == tokens@[i as int]@);
        }
        if !stop_word(tokens[i].as_slice()) {
            let t = tokens[i].clone();
            assert(t@ == tokens@[i as int]@);
            let ghost before = wanted@;
            wanted.push(t);
            proof {
                assert(views(wanted@) =~= views(before).push(t@));
            }
        }
        i = i + 1;
    }
    proof {
        assert(tv.take(tokens@.len() as int) =~= tv);
    }
    if wanted.len() == 0 {
        return None;
    }
    let ghost wv = views(wanted@);
    let needed: usize = if wanted.len() < 2 { wanted.len() } else { 2 };
    let mut idx: usize = 0;
    while idx < haystacks.len()
        invariant
            idx <= haystacks@.len(),
            hv == haystacks@.map_values(|s: String| s@),
            wv == views(wanted@),
            wv.len() > 0,
            needed == needed_matches(wv.len()),
            possession_reply_to(question_lower@, hv) == possession_from(ql@, wv, hv, idx as int),
        decreases haystacks.len() - idx,
    {
        let hay = chars_of(haystacks[idx].as_str());
        let mut count: usize = 0;
        let mut k: usize = 0;
        while k < wanted.len()
            invariant
                k <= wanted@.len(),
                wv == views(wanted@),
                count == match_count(wv.take(k as int), hay@),
                count <= k,
            decreases wanted.len() - k,
        {
            proof {
                assert(wv.take(k + 1).drop_last() =~= wv.take(k as int));
                assert(wv.take(k + 1).last() == wanted@[k as int]@);
            }
            if contains_chars(hay.as_slice(), wanted[k].as_slice()) {
                count = count + 1;
            }
            k = k + 1;
        }
        proof {
            assert(wv.take(wanted@.len() as int) =~= wv);
        }
        if count >= needed {
            let topic = topic_from_token_chars(wanted.as_slice());
            let topic_s = string_of(topic.as_slice());
            let certificate = contains_chars(ql.as_slice(), text_chars("certificate").as_slice())
                || contains_chars(hay.as_slice(), text_chars("certificate").as_slice())
                || contains_chars(hay.as_slice(), text_chars("statement of achievement").as_slice());
            let answer = if certificate {
                String::from_str("Yes, you have a ").concat(topic_s.as_str()).concat(" certificate.")
            } else {
                String::from_str("Yes, I found ").concat(topic_s.as_str()).concat(
                    " in your indexed documents.",
                )
            };
            return Some(ExtractiveAnswer { answer, source_chunk_index: idx });
        }
        idx = idx + 1;
    }
    None
}

/// The reply to a question of whether the user has something (see `possession_answer`): the
/// question and each chunk's file name and text are normalized and lowercased first.
pub fn answer_possession_question(question: &str, chunks: &[crate::models::RetrievedChunk]) -> (r: Option<
    ExtractiveAnswer,
>)
    ensures
        answer_view(r) == possession_answer(question@, chunks@),
{
    let ql = string_of(lower_normalized(question).as_slice());
    let mut hays: Vec<String> = Vec::new();
    let mut i: usize = 0;
    while i < chunks.len()
        invariant
            i <= chunks@.len(),
            hays@.len() == i,
            forall|j: int| 0 <= j < i ==> (#[trigger] hays@[j])@ == haystack(chunks@[j]),
        decreases chunks.len() - i,
    {
        let file_l = lower_chars(chunks[i].file.as_str());
        let text_l = lower_normalized(chunks[i].text.as_str());
        let mut hay = file_l;
        hay.push(' ');
        hay.extend_from_slice(text_l.as_slice());
        proof {
            reveal_strlit(" ");
            assert(hay@ =~= haystack(chunks@[i as int]));
        }
        hays.push(string_of(hay.as_slice()));
        i = i + 1;
    }
    proof {
        assert(hays@.map_values(|s: String| s@) =~= haystacks(chunks@));
    }
    answer_possession_lowered(ql.as_str(), hays.as_slice())
}

/// An answer read out of the context, without a language model (see `extractive_answer`).
pub fn answer_from_context(question: &str, chunks: &[crate::models::RetrievedChunk]) -> (r: Option<
    ExtractiveAnswer,
>)
    ensures
        answer_view(r) == extractive_answer(question@, chunks@),
{
    if let Some(ans) = answer_variable_value(question, chunks) {
        return Some(ans);
    }
    answer_possession_question(question, chunks)
}

proof fn lemma_value_from_in_range(
    name: Seq<char>,
    js: Seq<char>,
    py: Seq<char>,
    chunks: Seq<crate::models::RetrievedChunk>,
    i: int,
)
    requires
        0 <= i,
    ensures
        value_from(name, js, py, chunks, i) matches Some(a) ==> i <= a.1 < chunks.len(),
    decreases chunks.len() - i,
{
    if i < chunks.len() {
        lemma_value_from_in_range(name, js, py, chunks, i + 1);
    }
}

proof fn lemma_possession_from_in_range(
    ql: Seq<char>,
    wanted: Seq<Seq<char>>,
    hays: Seq<Seq<char>>,
    i: int,
)
    requires
        0 <= i,
    ensures
        possession_from(ql, wanted, hays, i) matches Some(a) ==> i <= a.1 < hays.len() && a.0
            == possession_reply(ql, hays[a.1], wanted),
    decreases hays.len() - i,
{
    if i < hays.len() {
        lemma_possession_from_in_range(ql, wanted, hays, i + 1);
    }
}

/// An answer read out of the context names a chunk of that context as its source, so its
/// citation can always be taken; and a reply on possession always says yes.
pub proof fn lemma_extractive_source_in_context(question: Seq<char>, chunks: Seq<crate::models::RetrievedChunk>)
    ensures
        extractive_answer(question, chunks) matches Some(a) ==> 0 <= a.1 < chunks.len(),
        possession_answer(question, chunks) matches Some(a) ==> starts_with(a.0, "Yes, "@),
{
    match inferred_name(question) {
        Some(name) => lemma_value_from_in_range(name, js_pattern(name), py_pattern(name), chunks, 0),
        None => {},
    }
    let ql = lowercase(normalized(question));
    let wanted = wanted_words(words(ql));
    lemma_possession_from_in_range(ql, wanted, haystacks(chunks), 0);
    reveal_strlit("Yes, ");
    reveal_strlit("Yes, you have a ");
    reveal_strlit("Yes, I found ");
    match possession_answer(question, chunks) {
        Some(a) => {
            let hay = haystacks(chunks)[a.1];
            assert(a.0 == possession_reply(ql, hay, wanted));
            assert(a.0.subrange(0, 5) =~= "Yes, "@);
        },
        None => {},
    }
}

/// The characters of each string.
pub open spec fn string_chars(v: Seq<String>) -> Seq<Seq<char>> {
    v.map_values(|s: String| s@)
}

/// `input` with every character other than an ASCII letter or digit, white space or `_`
/// replaced by a space (see `normalized`).
pub fn normalize(input: &str) -> (r: String)
    ensures
        r@ == normalized(input@),
{
    let c = chars_of(input);
    string_of(normalize_chars(c.as_slice()).as_slice())
}

/// The topic of the question whose wanted words are `tokens` (see `topic`).
pub fn topic_from_tokens(tokens: &[String]) -> (r: String)
    ensures
        r@ == topic(string_chars(tokens@)),
{
    let mut toks: Vec<Vec<char>> = Vec::new();
    let mut i: usize = 0;
    while i < tokens.len()
        invariant
            i <= tokens@.len(),
            views(toks@) =~= string_chars(tokens@).take(i as int),
        decreases tokens.len() - i,
    {
        let ghost before = toks@;
        let t = chars_of(tokens[i].as_str());
        toks.push(t);
        proof {
            assert(views(toks@) =~= views(before).push(tokens@[i as int]@));
            assert(string_chars(tokens@).take(i + 1) =~= string_chars(tokens@).take(i as int).push(
                tokens@[i as int]@,
            ));
        }
        i = i + 1;
    }
    proof {
        assert(string_chars(tokens@).take(tokens@.len() as int) =~= string_chars(tokens@));
    }
    string_of(topic_from_token_chars(toks.as_slice()).as_slice())
}

/// The bracketed literal at the start of `input` through its matching closing bracket, trimmed
/// (see `balanced_prefix`).
pub fn cut_balanced(input: &str, open: char, close: char) -> (r: Option<String>)
    ensures
        match r {
            Some(v) => balanced_prefix(input@, open, close) == Some(v@),
            None => balanced_prefix(input@, open, close) is None,
        },
{
    let c = chars_of(input);
    match cut_balanced_chars(c.as_slice(), open, close) {
        Some(v) => Some(string_of(v.as_slice())),
        None => None,
    }
}

/// The string literal at the start of `input`, through its closing quote (see
/// `literal_prefix`).
pub fn cut_string_literal(input: &str) -> (r: Option<String>)
    ensures
        match r {
            Some(v) => literal_prefix(input@) == Some(v@),
            None => literal_prefix(input@) is None,
        },
{
    let c = chars_of(input);
    match cut_string_literal_chars(c.as_slice()) {
        Some(v) => Some(string_of(v.as_slice())),
        None => None,
    }
}

/// A JavaScript value as the answer shows it (see `js_value`).
pub fn cleanup_js_value(raw: &str) -> (r: String)
    ensures
        r@ == js_value(raw@),
{
    let c = chars_of(raw);
    string_of(cleanup_js_chars(c.as_slice()).as_slice())
}

/// A Python value as the answer shows it: trimmed, without trailing commas.
pub fn cleanup_python_value(raw: &str) -> (r: String)
    ensures
        r@ == plain_value(raw@),
{
    let c = chars_of(raw);
    string_of(cleanup_python_chars(c.as_slice()).as_slice())
}

proof fn lemma_found_from_occurrence(hay: Seq<char>, w: Seq<char>, i: int, p: int)
    requires
        0 <= i <= p,
        occurs_at(hay, w, p),
    ensures
        find_from(hay, w, i) is Some,
    decreases p - i,
{
    if hay.subrange(i, i + w.len()) != w {
        lemma_found_from_occurrence(hay, w, i + 1, p);
    }
}

proof fn lemma_contains_in_prefix(a: Seq<char>, b: Seq<char>, w: Seq<char>)
    requires
        contains(a, w),
    ensures
        contains(a + b, w),
{
    lemma_find_from_bound(a, w, 0);
    let p = find_from(a, w, 0)->0;
    assert((a + b).subrange(p, p + w.len()) =~= a.subrange(p, p + w.len()));
    lemma_found_from_occurrence(a + b, w, 0, p);
}

proof fn lemma_match_count_all(wanted: Seq<Seq<char>>, hay: Seq<char>)
    requires
        forall|j: int| 0 <= j < wanted.len() ==> contains(hay, #[trigger] wanted[j]),
    ensures
        match_count(wanted, hay) == wanted.len(),
    decreases wanted.len(),
{
    if wanted.len() > 0 {
        assert(contains(hay, wanted[wanted.len() - 1]));
        lemma_match_count_all(wanted.drop_last(), hay);
    }
}

proof fn lemma_possession_found_by(ql: Seq<char>, wanted: Seq<Seq<char>>, hays: Seq<Seq<char>>, i: int, k: int)
    requires
        0 <= i <= k < hays.len(),
        match_count(wanted, hays[k]) >= needed_matches(wanted.len()),
    ensures
        possession_from(ql, wanted, hays, i) matches Some(a) && i <= a.1 <= k,
    decreases k - i,
{
    if i < k && match_count(wanted, hays[i]) < needed_matches(wanted.len()) {
        lemma_possession_found_by(ql, wanted, hays, i + 1, k);
    }
}

/// A question of possession is answered from a chunk's file name too: when a chunk's
/// lowercased file name holds every wanted word of the question, the answer is yes, from that
/// chunk or an earlier one.
pub proof fn lemma_possession_searches_file_name(
    question: Seq<char>,
    chunks: Seq<crate::models::RetrievedChunk>,
    k: int,
)
    requires
        0 <= k < chunks.len(),
        asks_possession(lowercase(normalized(question))),
        wanted_words(words(lowercase(normalized(question)))).len() > 0,
        forall|j: int|
            0 <= j < wanted_words(words(lowercase(normalized(question)))).len() ==> contains(
                lowercase(chunks[k].file@),
                #[trigger] wanted_words(words(lowercase(normalized(question))))[j],
            ),
    ensures
        possession_answer(question, chunks) matches Some(a) && 0 <= a.1 <= k,
{
    let ql = lowercase(normalized(question));
    let wanted = wanted_words(words(ql));
    let hays = haystacks(chunks);
    let file = lowercase(chunks[k].file@);
    let rest = " "@ + lowercase(normalized(chunks[k].text@));
    assert(hays[k] =~= file + rest);
    assert forall|j: int| 0 <= j < wanted.len() implies contains(hays[k], #[trigger] wanted[j]) by {
        lemma_contains_in_prefix(file, rest, wanted[j]);
    }
    lemma_match_count_all(wanted, hays[k]);
    lemma_possession_found_by(ql, wanted, hays, 0, k);
}

} // verus!
