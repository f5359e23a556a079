//! Characters, words and lines: the text model that the rest of the library is stated over.
use vstd::prelude::*;

verus! {

broadcast use vstd::string::group_string_axioms;

/// The characters of `s`, in order.
pub fn chars_of(s: &str) -> (v: Vec<char>)
    ensures
        v@ == s@,
{
    let mut v: Vec<char> = Vec::new();
    for c in it: s.chars()
        invariant
            v@ == it.seq().take(it.index()),
            it.seq() == s@,
    {
        v.push(c);
    }
    v
}

/// `String::push`: appends one character.
#[verifier::external_body]
pub(crate) fn push_char(s: &mut String, c: char)
    ensures
        final(s)@ == old(s)@.push(c),
{
    s.push(c);
}

/// The string made of the characters `v`, in order.
pub fn string_of(v: &[char]) -> (s: String)
    ensures
        s@ == v@,
{
    let mut s = String::new();
    let mut i: usize = 0;
    while i < v.len()
        invariant
            i <= v.len(),
            s@ == v@.take(i as int),
        decreases v.len() - i,
    {
        push_char(&mut s, v[i]);
        proof {
            assert(v@.take(i + 1) == v@.take(i as int).push(v@[i as int]));
        }
        i = i + 1;
    }
    proof {
        assert(v@.take(v@.len() as int) == v@);
    }
    s
}

/// The same characters in the same order.
pub fn chars_equal(a: &[char], b: &[char]) -> (r: bool)
    ensures
        r == (a@ == b@),
{
    if a.len() != b.len() {
        return false;
    }
    let mut i: usize = 0;
    while i < a.len()
        invariant
            i <= a.len(),
            a.len() == b.len(),
            forall|j: int| 0 <= j < i ==> a@[j] == b@[j],
        decreases a.len() - i,
    {
        if a[i] != b[i] {
            return false;
        }
        i = i + 1;
    }
    proof {
        assert(a@ =~= b@);
    }
    true
}

/// Two strings hold the same characters.
pub fn str_equal(a: &str, b: &str) -> (r: bool)
    ensures
        r == (a@ == b@),
{
    let x = chars_of(a);
    let y = chars_of(b);
    chars_equal(x.as_slice(), y.as_slice())
}

/// Unicode's White_Space property, which `char::is_whitespace` tests.
pub open spec fn is_ws(c: char) -> bool {
    ||| ('\u{9}' <= c && c <= '\u{d}')
    ||| c == ' '
    ||| c == '\u{85}'
    ||| c == '\u{a0}'
    ||| c == '\u{1680}'
    ||| ('\u{2000}' <= c && c <= '\u{200a}')
    ||| c == '\u{2028}'
    ||| c == '\u{2029}'
    ||| c == '\u{202f}'
    ||| c == '\u{205f}'
    ||| c == '\u{3000}'
}

/// Whether `c` is white space in Unicode's sense.
pub fn is_whitespace(c: char) -> (r: bool)
    ensures
        r == is_ws(c),
{
    ('\u{9}' <= c && c <= '\u{d}') || c == ' ' || c == '\u{85}' || c == '\u{a0}' || c == '\u{1680}'
        || ('\u{2000}' <= c && c <= '\u{200a}') || c == '\u{2028}' || c == '\u{2029}' || c
        == '\u{202f}' || c == '\u{205f}' || c == '\u{3000}'
}

/// The maximal runs of non-white-space characters of `s`, in order (`str::split_whitespace`).
pub open spec fn words(s: Seq<char>) -> Seq<Seq<char>>
    decreases s.len(),
{
    if s.len() == 0 {
        seq![]
    } else {
        let w = words(s.drop_last());
        let c = s.last();
        if is_ws(c) {
            w
        } else if s.len() >= 2 && !is_ws(s[s.len() - 2]) {
            w.update(w.len() - 1, w.last().push(c))
        } else {
            w.push(seq![c])
        }
    }
}

/// A string that ends in a non-white-space character has at least one word.
pub proof fn lemma_words_nonempty_prefix(s: Seq<char>)
    requires
        s.len() > 0,
        !is_ws(s.last()),
    ensures
        words(s).len() > 0,
    decreases s.len(),
{
    if s.len() >= 2 && !is_ws(s[s.len() - 2]) {
        lemma_words_nonempty_prefix(s.drop_last());
    }
}

/// The words of `s`, as `str::split_whitespace` yields them.
pub fn split_words(s: &[char]) -> (r: Vec<Vec<char>>)
    ensures
        r@.len() == words(s@).len(),
        forall|i: int| 0 <= i < r@.len() ==> #[trigger] r@[i]@ == words(s@)[i],
{
    let mut r: Vec<Vec<char>> = Vec::new();
    let mut i: usize = 0;
    while i < s.len()
        invariant
            i <= s.len(),
            r@.len() == words(s@.take(i as int)).len(),
            forall|k: int| 0 <= k < r@.len() ==> #[trigger] r@[k]@ == words(s@.take(i as int))[k],
        decreases s.len() - i,
    {
        let c = s[i];
        let ghost pre = s@.take(i as int);
        let ghost cur = s@.take(i + 1);
        proof {
            assert(cur.drop_last() == pre);
            assert(cur.last() == c);
        }
        if is_whitespace(c) {
        } else if i >= 1 && !is_whitespace(s[i - 1]) {
            proof {
                assert(cur[cur.len() - 2] == s@[i - 1]);
                lemma_words_nonempty_prefix(pre);
                assert(pre.last() == s@[i - 1]);
            }
            let last = r.len() - 1;
            let mut w = r.pop().unwrap();
            w.push(c);
            r.push(w);
            proof {
                assert(r@.len() == words(cur).len());
                assert forall|k: int| 0 <= k < r@.len() implies #[trigger] r@[k]@ == words(cur)[k] by {
                    if k < last {
                    } else {
                    }
                }
            }
        } else {
            let mut w: Vec<char> = Vec::new();
            w.push(c);
            r.push(w);
            proof {
                assert(w@ =~= seq![c]);
                if i >= 1 {
                    assert(cur[cur.len() - 2] == s@[i - 1]);
                }
                assert forall|k: int| 0 <= k < r@.len() implies #[trigger] r@[k]@ == words(cur)[k] by {
                }
            }
        }
        i = i + 1;
    }
    proof {
        assert(s@.take(s@.len() as int) == s@);
    }
    r
}


/// The character views of a sequence of character vectors.
pub open spec fn views(v: Seq<Vec<char>>) -> Seq<Seq<char>> {
    v.map_values(|x: Vec<char>| x@)
}

/// The pieces of `s` between its `'\n'` characters (`str::split('\n')`): never empty.
pub open spec fn split_nl(s: Seq<char>) -> Seq<Seq<char>>
    decreases s.len(),
{
    if s.len() == 0 {
        seq![seq![]]
    } else {
        let p = split_nl(s.drop_last());
        if s.last() == '\n' {
            p.push(seq![])
        } else {
            p.update(p.len() - 1, p.last().push(s.last()))
        }
    }
}

/// `s` without one trailing carriage return.
pub open spec fn strip_cr(s: Seq<char>) -> Seq<char> {
    if s.len() > 0 && s.last() == '\r' {
        s.drop_last()
    } else {
        s
    }
}

/// The lines of `s` as `str::lines` yields them: the pieces between line feeds, a carriage
/// return before a line feed dropped, and no empty last line after a final line feed.
pub open spec fn lines(s: Seq<char>) -> Seq<Seq<char>> {
    let p = split_nl(s);
    let body = p.drop_last().map_values(|x: Seq<char>| strip_cr(x));
    if p.last().len() == 0 {
        body
    } else {
        body.push(p.last())
    }
}

/// `split_nl` always yields at least one piece.
pub proof fn lemma_split_nl_len(s: Seq<char>)
    ensures
        split_nl(s).len() >= 1,
    decreases s.len(),
{
    if s.len() > 0 {
        lemma_split_nl_len(s.drop_last());
    }
}

fn strip_cr_exec(v: Vec<char>) -> (r: Vec<char>)
    ensures
        r@ == strip_cr(v@),
{
    let mut v = v;
    if v.len() > 0 && v[v.len() - 1] == '\r' {
        v.pop();
    }
    v
}

/// The lines of `s` (`str::lines`).
pub fn split_lines(s: &[char]) -> (r: Vec<Vec<char>>)
    ensures
        views(r@) == lines(s@),
{
    let mut done: Vec<Vec<char>> = Vec::new();
    let mut cur: Vec<char> = Vec::new();
    let mut i: usize = 0;
    while i < s.len()
        invariant
            i <= s.len(),
            split_nl(s@.take(i as int)).len() >= 1,
            views(done@) == split_nl(s@.take(i as int)).drop_last().map_values(
                |x: Seq<char>| strip_cr(x),
            ),
            cur@ == split_nl(s@.take(i as int)).last(),
        decreases s.len() - i,
    {
        let ghost pre = s@.take(i as int);
        let ghost cur_s = s@.take(i + 1);
        proof {
            assert(cur_s.drop_last() == pre);
            lemma_split_nl_len(pre);
        }
        let c = s[i];
        let ghost done_before = done@;
        let ghost cur_before = cur@;
        if c == '\n' {
            let piece = strip_cr_exec(cur);
            done.push(piece);
            cur = Vec::new();
            proof {
                assert(split_nl(cur_s) == split_nl(pre).push(seq![]));
                assert(split_nl(cur_s).drop_last() == split_nl(pre));
                let p = split_nl(pre);
                assert(p == p.drop_last().push(p.last()));
                assert(views(done@) =~= views(done_before).push(strip_cr(cur_before)));
                assert(p.map_values(|x: Seq<char>| strip_cr(x)) =~= p.drop_last().map_values(
                    |x: Seq<char>| strip_cr(x),
                ).push(strip_cr(p.last())));
                assert(views(done@) =~= split_nl(cur_s).drop_last().map_values(
                    |x: Seq<char>| strip_cr(x),
                ));
                assert(cur@ =~= seq![]);
            }
        } else {
            cur.push(c);
            proof {
                let p = split_nl(pre);
                assert(split_nl(cur_s) == p.update(p.len() - 1, p.last().push(c)));
                assert(split_nl(cur_s).drop_last() =~= p.drop_last());
            }
        }
        i = i + 1;
    }
    proof {
        assert(s@.take(s@.len() as int) == s@);
    }
    if cur.len() > 0 {
        done.push(cur);
        proof {
            let p = split_nl(s@);
            assert(views(done@) =~= p.drop_last().map_values(|x: Seq<char>| strip_cr(x)).push(
                p.last(),
            ));
        }
    }
    done
}

/// The strings of `ls` with `sep` between each two of them (`slice::join`).
pub open spec fn join(ls: Seq<Seq<char>>, sep: Seq<char>) -> Seq<char>
    decreases ls.len(),
{
    if ls.len() == 0 {
        seq![]
    } else if ls.len() == 1 {
        ls[0]
    } else {
        join(ls.drop_last(), sep) + sep + ls.last()
    }
}

/// `ls[from..to]` joined by `sep`.
pub fn join_range(ls: &[Vec<char>], from: usize, to: usize, sep: &[char]) -> (r: Vec<char>)
    requires
        from <= to <= ls@.len(),
    ensures
        r@ == join(views(ls@.subrange(from as int, to as int)), sep@),
{
    let mut r: Vec<char> = Vec::new();
    let mut i: usize = from;
    while i < to
        invariant
            from <= i <= to <= ls@.len(),
            r@ == join(views(ls@.subrange(from as int, i as int)), sep@),
        decreases to - i,
    {
        let ghost before = views(ls@.subrange(from as int, i as int));
        let ghost after = views(ls@.subrange(from as int, i + 1));
        proof {
            assert(after.drop_last() =~= before);
            assert(after.last() == ls@[i as int]@);
        }
        if i > from {
            r.extend_from_slice(sep);
        }
        r.extend_from_slice(ls[i].as_slice());
        proof {
            if i == from {
                assert(r@ =~= after[0]);
            } else {
                assert(r@ =~= join(before, sep@) + sep@ + after.last());
            }
        }
        i = i + 1;
    }
    r
}


/// `needle` occurs in `hay` at position `i`.
pub open spec fn occurs_at(hay: Seq<char>, needle: Seq<char>, i: int) -> bool {
    0 <= i && i + needle.len() <= hay.len() && hay.subrange(i, i + needle.len()) == needle
}

/// The first position at or after `i` where `needle` occurs in `hay`.
pub open spec fn find_from(hay: Seq<char>, needle: Seq<char>, i: int) -> Option<int>
    decreases hay.len() + 1 - i,
{
    if i < 0 || i + needle.len() > hay.len() {
        None
    } else if hay.subrange(i, i + needle.len()) == needle {
        Some(i)
    } else {
        find_from(hay, needle, i + 1)
    }
}

/// `needle` occurs somewhere in `hay` (`str::contains`).
pub open spec fn contains(hay: Seq<char>, needle: Seq<char>) -> bool {
    find_from(hay, needle, 0) is Some
}

/// `s` begins with `p` (`str::starts_with`).
pub open spec fn starts_with(s: Seq<char>, p: Seq<char>) -> bool {
    p.len() <= s.len() && s.subrange(0, p.len() as int) == p
}

/// The position of the first occurrence of `needle` in `hay` from position `from` on
/// (`str::find` on characters).
pub fn find_chars(hay: &[char], needle: &[char], from: usize) -> (r: Option<usize>)
    ensures
        match r {
            Some(i) => find_from(hay@, needle@, from as int) == Some(i as int),
            None => find_from(hay@, needle@, from as int) is None,
        },
{
    let mut i: usize = from;
    if needle.len() > hay.len() {
        proof {
            assert(find_from(hay@, needle@, from as int) is None);
        }
        return None;
    }
    let last = hay.len() - needle.len();
    if i > last {
        return None;
    }
    loop
        invariant
            from <= i <= last,
            hay@.len() <= usize::MAX,
            needle@.len() <= hay@.len(),
            last == hay@.len() - needle@.len(),
            find_from(hay@, needle@, from as int) == find_from(hay@, needle@, i as int),
        decreases last - i,
    {
        let mut k: usize = 0;
        let mut same = true;
        while k < needle.len()
            invariant
                i <= last,
                hay@.len() <= usize::MAX,
                needle@.len() <= hay@.len(),
                last == hay@.len() - needle@.len(),
                k <= needle@.len(),
                same == (forall|j: int| 0 <= j < k ==> hay@[i + j] == needle@[j]),
            decreases needle.len() - k,
        {
            if hay[i + k] != needle[k] {
                same = false;
            }
            k = k + 1;
        }
        proof {
            if same {
                assert(hay@.subrange(i as int, i + needle@.len()) =~= needle@);
            } else {
                let j = choose|j: int| 0 <= j < k && hay@[i + j] != needle@[j];
                assert(hay@.subrange(i as int, i + needle@.len())[j] != needle@[j]);
            }
        }
        if same {
            return Some(i);
        }
        if i == last {
            proof {
                assert(find_from(hay@, needle@, i + 1) is None);
            }
            return None;
        }
        i = i + 1;
    }
}

/// Whether `needle` occurs in `hay`.
pub fn contains_chars(hay: &[char], needle: &[char]) -> (r: bool)
    ensures
        r == contains(hay@, needle@),
{
    find_chars(hay, needle, 0).is_some()
}

/// Whether `s` begins with `p`.
pub fn starts_with_chars(s: &[char], p: &[char]) -> (r: bool)
    ensures
        r == starts_with(s@, p@),
{
    if p.len() > s.len() {
        return false;
    }
    let mut k: usize = 0;
    while k < p.len()
        invariant
            p@.len() <= s@.len(),
            k <= p@.len(),
            forall|j: int| 0 <= j < k ==> s@[j] == p@[j],
        decreases p.len() - k,
    {
        if s[k] != p[k] {
            proof {
                assert(s@.subrange(0, p@.len() as int)[k as int] != p@[k as int]);
            }
            return false;
        }
        k = k + 1;
    }
    proof {
        assert(s@.subrange(0, p@.len() as int) =~= p@);
    }
    true
}

/// `s` without its leading white space.
pub open spec fn trim_start(s: Seq<char>) -> Seq<char>
    decreases s.len(),
{
    if s.len() > 0 && is_ws(s[0]) {
        trim_start(s.drop_first())
    } else {
        s
    }
}

/// `s` without its trailing white space.
pub open spec fn trim_end(s: Seq<char>) -> Seq<char>
    decreases s.len(),
{
    if s.len() > 0 && is_ws(s.last()) {
        trim_end(s.drop_last())
    } else {
        s
    }
}

/// `s` without leading and trailing white space (`str::trim`).
pub open spec fn trim(s: Seq<char>) -> Seq<char> {
    trim_end(trim_start(s))
}

/// `s` without any of the characters `c` at its end (`str::trim_end_matches` with a character).
pub open spec fn trim_end_char(s: Seq<char>, c: char) -> Seq<char>
    decreases s.len(),
{
    if s.len() > 0 && s.last() == c {
        trim_end_char(s.drop_last(), c)
    } else {
        s
    }
}

/// `s` without its leading white space.
pub fn trim_start_chars(s: &[char]) -> (r: Vec<char>)
    ensures
        r@ == trim_start(s@),
{
    let mut i: usize = 0;
    assert(s@.subrange(0, s@.len() as int) =~= s@);
    while i < s.len() && is_whitespace(s[i])
        invariant
            i <= s@.len(),
            trim_start(s@) == trim_start(s@.subrange(i as int, s@.len() as int)),
        decreases s.len() - i,
    {
        proof {
            let rest = s@.subrange(i as int, s@.len() as int);
            assert(rest.drop_first() =~= s@.subrange(i + 1, s@.len() as int));
        }
        i = i + 1;
    }
    let mut r: Vec<char> = Vec::new();
    let mut k: usize = i;
    while k < s.len()
        invariant
            i <= k <= s@.len(),
            r@ == s@.subrange(i as int, k as int),
        decreases s.len() - k,
    {
        r.push(s[k]);
        proof {
            assert(r@ =~= s@.subrange(i as int, k + 1));
        }
        k = k + 1;
    }
    proof {
        assert(s@.subrange(i as int, s@.len() as int) == r@);
    }
    r
}

/// `v` without its trailing white space.
pub fn trim_end_in_place(v: &mut Vec<char>)
    ensures
        final(v)@ == trim_end(old(v)@),
{
    while v.len() > 0 && is_whitespace(v[v.len() - 1])
        invariant
            trim_end(v@) == trim_end(old(v)@),
        decreases v.len(),
    {
        let ghost prev = v@;
        v.pop();
        proof {
            assert(v@ == prev.drop_last());
        }
    }
}

/// `s` without leading and trailing white space.
pub fn trim_chars(s: &[char]) -> (r: Vec<char>)
    ensures
        r@ == trim(s@),
{
    let mut r = trim_start_chars(s);
    trim_end_in_place(&mut r);
    r
}

/// `v` without any trailing `c`.
pub fn trim_end_char_in_place(v: &mut Vec<char>, c: char)
    ensures
        final(v)@ == trim_end_char(old(v)@, c),
{
    while v.len() > 0 && v[v.len() - 1] == c
        invariant
            trim_end_char(v@, c) == trim_end_char(old(v)@, c),
        decreases v.len(),
    {
        v.pop();
    }
}

/// What `str::to_lowercase` gives for a string: Unicode's full lowercase mapping, with the
/// final-sigma rule.
pub uninterp spec fn lowercase(s: Seq<char>) -> Seq<char>;

/// `c` with an ASCII upper-case letter made lower-case.
pub open spec fn ascii_lower_char(c: char) -> char {
    if 'A' <= c && c <= 'Z' {
        ((c as u32) + 32) as char
    } else {
        c
    }
}

/// Every character of `s` is ASCII.
pub open spec fn is_ascii_text(s: Seq<char>) -> bool {
    forall|i: int| 0 <= i < s.len() ==> (#[trigger] s[i] as u32) < 128
}

/// `str::to_lowercase`; the result is named `lowercase` of the argument, Unicode's lowercase
/// mapping, which the library does not restate beyond ASCII: on ASCII text it lowers the
/// letters `A` to `Z` and keeps every other character.
#[verifier::external_body]
pub(crate) fn to_lowercase(s: &str) -> (r: String)
    ensures
        r@ == lowercase(s@),
        is_ascii_text(s@) ==> r@ == s@.map_values(|c: char| ascii_lower_char(c)),
{
    s.to_lowercase()
}


/// A position that `find_from` gives is where `needle` occurs, at or after the start.
pub proof fn lemma_find_from_bound(hay: Seq<char>, needle: Seq<char>, i: int)
    ensures
        find_from(hay, needle, i) matches Some(p) ==> i <= p && occurs_at(hay, needle, p),
    decreases hay.len() + 1 - i,
{
    if !(i < 0 || i + needle.len() > hay.len()) && hay.subrange(i, i + needle.len()) != needle {
        lemma_find_from_bound(hay, needle, i + 1);
    }
}


/// What `char::is_alphanumeric` answers: Unicode's Alphabetic or Numeric property.
pub uninterp spec fn alphanumeric(c: char) -> bool;

/// `char::is_alphanumeric`; the answer is named `alphanumeric`, Unicode's Alphabetic or Numeric
/// property of `c`, which the library does not restate.
#[verifier::external_body]
pub(crate) fn is_alphanumeric(c: char) -> (r: bool)
    ensures
        r == alphanumeric(c),
{
    c.is_alphanumeric()
}

/// No character of `s` is `c`.
pub open spec fn lacks(s: Seq<char>, c: char) -> bool {
    lacks_from(s, c, 0)
}

/// No character of `s` from position `k` on is `c`.
pub open spec fn lacks_from(s: Seq<char>, c: char, k: int) -> bool
    decreases s.len() - k,
{
    k < 0 || k >= s.len() || (s[k] != c && lacks_from(s, c, k + 1))
}

/// Nowhere in `s` does `a` come right before `b`.
pub open spec fn lacks_pair(s: Seq<char>, a: char, b: char) -> bool {
    lacks_pair_from(s, a, b, 0)
}

/// Nowhere in `s` from position `k` on does `a` come right before `b`.
pub open spec fn lacks_pair_from(s: Seq<char>, a: char, b: char, k: int) -> bool
    decreases s.len() - k,
{
    k < 0 || k + 1 >= s.len() || (!(s[k] == a && s[k + 1] == b) && lacks_pair_from(s, a, b, k + 1))
}

proof fn lemma_lacks(s: Seq<char>, c: char, k: int)
    requires
        0 <= k,
        lacks_from(s, c, k),
    ensures
        forall|j: int| k <= j < s.len() ==> #[trigger] s[j] != c,
    decreases s.len() - k,
{
    if k < s.len() {
        lemma_lacks(s, c, k + 1);
    }
}

proof fn lemma_lacks_pair(s: Seq<char>, a: char, b: char, k: int)
    requires
        0 <= k,
        lacks_pair_from(s, a, b, k),
    ensures
        forall|j: int| k <= j < s.len() - 1 ==> !(#[trigger] s[j] == a && s[j + 1] == b),
    decreases s.len() - k,
{
    if k + 1 < s.len() {
        lemma_lacks_pair(s, a, b, k + 1);
    }
}

/// A text that lacks one of the characters of `needle` does not contain it.
pub proof fn lemma_missing_char_not_contained(hay: Seq<char>, needle: Seq<char>, q: int)
    requires
        0 <= q < needle.len(),
        lacks(hay, needle[q]),
    ensures
        !contains(hay, needle),
{
    lemma_lacks(hay, needle[q], 0);
    lemma_not_found_from(hay, needle, q, 0);
}

proof fn lemma_not_found_from(hay: Seq<char>, needle: Seq<char>, q: int, i: int)
    requires
        0 <= q < needle.len(),
        forall|k: int| 0 <= k < hay.len() ==> #[trigger] hay[k] != needle[q],
    ensures
        find_from(hay, needle, i) is None,
    decreases hay.len() + 1 - i,
{
    if !(i < 0 || i + needle.len() > hay.len()) {
        assert(hay.subrange(i, i + needle.len())[q] == hay[i + q]);
        lemma_not_found_from(hay, needle, q, i + 1);
    }
}

/// A text in which the first two characters of `needle` never come together does not contain
/// it.
pub proof fn lemma_missing_pair_not_contained(hay: Seq<char>, needle: Seq<char>)
    requires
        needle.len() >= 2,
        lacks_pair(hay, needle[0], needle[1]),
    ensures
        !contains(hay, needle),
{
    lemma_lacks_pair(hay, needle[0], needle[1], 0);
    lemma_pair_not_found_from(hay, needle, 0);
}

proof fn lemma_pair_not_found_from(hay: Seq<char>, needle: Seq<char>, i: int)
    requires
        needle.len() >= 2,
        forall|k: int| 0 <= k < hay.len() - 1 ==> !(#[trigger] hay[k] == needle[0] && hay[k + 1] == needle[1]),
    ensures
        find_from(hay, needle, i) is None,
    decreases hay.len() + 1 - i,
{
    if !(i < 0 || i + needle.len() > hay.len()) {
        let sub = hay.subrange(i, i + needle.len());
        assert(sub[0] == hay[i] && sub[1] == hay[i + 1]);
        lemma_pair_not_found_from(hay, needle, i + 1);
    }
}

/// Every character of `s` from position `k` on is ASCII.
pub open spec fn ascii_from(s: Seq<char>, k: int) -> bool
    decreases s.len() - k,
{
    k < 0 || k >= s.len() || ((s[k] as u32) < 128 && ascii_from(s, k + 1))
}

/// Checking each character from the start shows that a text is ASCII.
pub proof fn lemma_ascii_from(s: Seq<char>, k: int)
    requires
        0 <= k,
        ascii_from(s, k),
    ensures
        forall|i: int| k <= i < s.len() ==> (#[trigger] s[i] as u32) < 128,
    decreases s.len() - k,
{
    if k < s.len() {
        lemma_ascii_from(s, k + 1);
    }
}

} // verus!
