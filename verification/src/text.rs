//! Text primitives over sequences of characters: white space, trimming,
//! splitting into lines and words, and substring search.
//!
//! Every executable function works on a slice of `char` and is specified by a
//! function on `Seq<char>` of the same meaning.

use vstd::prelude::*;

verus! {

/// Whether `c` has the Unicode property `White_Space`.
pub open spec fn is_whitespace(c: char) -> bool {
    ||| ('\u{9}' <= c && c <= '\u{d}')
    ||| c == ' '
    ||| c == '\u{85}'
    ||| c == '\u{a0}'
    ||| c == '\u{1680}'
    ||| ('\u{2000}' <= c && c <= '\u{200a}')
    ||| c == '\u{2028}'
    ||| c == '\u{2029}'
    ||| c == '\u{202f}'
    ||| c == '\u{205f}'
    ||| c == '\u{3000}'
}

/// A set of characters that text is trimmed of or split at.
#[derive(Clone, Copy, Debug)]
pub enum CharClass {
    /// The characters with the Unicode property `White_Space`.
    Whitespace,
    /// The two round brackets, `(` and `)`.
    Paren,
    /// The line feed.
    Newline,
}

impl CharClass {
    /// Whether `c` belongs to the class.
    pub open spec fn has(self, c: char) -> bool {
        match self {
            CharClass::Whitespace => is_whitespace(c),
            CharClass::Paren => c == '(' || c == ')',
            CharClass::Newline => c == '\n',
        }
    }

    /// Tests whether `c` belongs to the class.
    pub fn contains(self, c: char) -> (b: bool)
        ensures
            b == self.has(c),
    {
        match self {
            CharClass::Whitespace => {
                ('\u{9}' <= c && c <= '\u{d}') || c == ' ' || c == '\u{85}' || c == '\u{a0}'
                    || c == '\u{1680}' || ('\u{2000}' <= c && c <= '\u{200a}') || c == '\u{2028}'
                    || c == '\u{2029}' || c == '\u{202f}' || c == '\u{205f}' || c == '\u{3000}'
            },
            CharClass::Paren => c == '(' || c == ')',
            CharClass::Newline => c == '\n',
        }
    }
}

/// The views of a sequence of character vectors.
pub open spec fn seqs(v: Seq<Vec<char>>) -> Seq<Seq<char>> {
    v.map_values(|w: Vec<char>| w@)
}

/// The number of leading characters of `s` that lie outside `class`.
pub open spec fn span_outside(s: Seq<char>, class: CharClass) -> nat
    decreases s.len(),
{
    if s.len() == 0 || class.has(s[0]) {
        0
    } else {
        1 + span_outside(s.skip(1), class)
    }
}

/// `s` without its leading characters of `class`.
pub open spec fn trim_start(s: Seq<char>, class: CharClass) -> Seq<char>
    decreases s.len(),
{
    if s.len() > 0 && class.has(s[0]) {
        trim_start(s.skip(1), class)
    } else {
        s
    }
}

/// `s` without its trailing characters of `class`.
pub open spec fn trim_end(s: Seq<char>, class: CharClass) -> Seq<char>
    decreases s.len(),
{
    if s.len() > 0 && class.has(s.last()) {
        trim_end(s.drop_last(), class)
    } else {
        s
    }
}

/// `s` without its leading and trailing characters of `class`.
pub open spec fn trim_matches(s: Seq<char>, class: CharClass) -> Seq<char> {
    trim_end(trim_start(s, class), class)
}

/// `s` without leading and trailing white space.
pub open spec fn trim(s: Seq<char>) -> Seq<char> {
    trim_matches(s, CharClass::Whitespace)
}

/// A line without the carriage return that may end it.
pub open spec fn strip_cr(line: Seq<char>) -> Seq<char> {
    if line.len() > 0 && line.last() == '\r' {
        line.drop_last()
    } else {
        line
    }
}

/// The lines of `s`. A line ends at a line feed, which is left out together
/// with a carriage return just before it; the last line need not end in one.
pub open spec fn lines(s: Seq<char>) -> Seq<Seq<char>>
    decreases s.len(),
{
    if s.len() == 0 {
        Seq::empty()
    } else {
        let n = span_outside(s, CharClass::Newline) as int;
        if n >= s.len() {
            seq![s]
        } else {
            seq![strip_cr(s.take(n))] + lines(s.skip(n + 1))
        }
    }
}

/// The words of `s`: its maximal runs of characters that are not white space,
/// from left to right.
pub open spec fn words(s: Seq<char>) -> Seq<Seq<char>>
    decreases s.len(),
    via words_decreases
{
    if s.len() == 0 {
        Seq::empty()
    } else if is_whitespace(s[0]) {
        words(s.skip(1))
    } else {
        let n = span_outside(s, CharClass::Whitespace) as int;
        seq![s.take(n)] + words(s.skip(n))
    }
}

#[via_fn]
proof fn words_decreases(s: Seq<char>) {
    lemma_span_outside_bound(s, CharClass::Whitespace);
}

/// Whether `s` begins with `prefix`.
pub open spec fn starts_with(s: Seq<char>, prefix: Seq<char>) -> bool {
    prefix.len() <= s.len() && s.take(prefix.len() as int) == prefix
}

/// The index at which `pat` first occurs in `s`.
pub open spec fn find(s: Seq<char>, pat: Seq<char>) -> Option<int>
    decreases s.len(),
{
    if starts_with(s, pat) {
        Some(0)
    } else if s.len() == 0 {
        None
    } else {
        match find(s.skip(1), pat) {
            Some(i) => Some(i + 1),
            None => None,
        }
    }
}

/// Whether `pat` occurs in `s`.
pub open spec fn contains(s: Seq<char>, pat: Seq<char>) -> bool {
    find(s, pat) is Some
}

/// `s` without the occurrences of `pat`, which are looked for from left to
/// right and do not overlap. An empty `pat` removes nothing.
pub open spec fn remove_all(s: Seq<char>, pat: Seq<char>) -> Seq<char>
    decreases s.len(),
{
    if pat.len() == 0 || s.len() == 0 {
        s
    } else if starts_with(s, pat) {
        remove_all(s.skip(pat.len() as int), pat)
    } else {
        seq![s[0]] + remove_all(s.skip(1), pat)
    }
}

/// What stands between the first occurrence of `pat` in `s` and the next one
/// after it, or the end of `s`. Empty where `pat` does not occur.
pub open spec fn after_first(s: Seq<char>, pat: Seq<char>) -> Seq<char> {
    match find(s, pat) {
        None => Seq::empty(),
        Some(i) => {
            let rest = s.skip(i + pat.len());
            match find(rest, pat) {
                Some(j) => rest.take(j),
                None => rest,
            }
        },
    }
}

/// How often `pat` occurs in `s`, where `pat` is not empty. Occurrences that
/// overlap are counted each.
pub open spec fn occurrences(s: Seq<char>, pat: Seq<char>) -> nat
    decreases s.len(),
{
    if s.len() == 0 {
        0
    } else {
        (if starts_with(s, pat) {
            1nat
        } else {
            0nat
        }) + occurrences(s.skip(1), pat)
    }
}

/// A pattern that begins nowhere in a text occurs in it no times.
pub proof fn lemma_occurrences_nowhere(s: Seq<char>, pat: Seq<char>)
    requires
        forall|i: int| 0 <= i < s.len() ==> !starts_with(#[trigger] s.skip(i), pat),
    ensures
        occurrences(s, pat) == 0,
    decreases s.len(),
{
    if s.len() > 0 {
        assert(s.skip(0) =~= s);
        let t = s.skip(1);
        assert forall|i: int| 0 <= i < t.len() implies !starts_with(#[trigger] t.skip(i), pat) by {
            assert(t.skip(i) =~= s.skip(i + 1));
        }
        lemma_occurrences_nowhere(t, pat);
    }
}

/// A pattern that begins at one index of a text and nowhere else occurs in it
/// once.
pub proof fn lemma_occurrences_once(s: Seq<char>, pat: Seq<char>, k: int)
    requires
        0 <= k < s.len(),
        starts_with(s.skip(k), pat),
        forall|i: int| 0 <= i < s.len() && i != k ==> !starts_with(#[trigger] s.skip(i), pat),
    ensures
        occurrences(s, pat) == 1,
    decreases s.len(),
{
    assert(s.skip(0) =~= s);
    let t = s.skip(1);
    if k == 0 {
        assert forall|i: int| 0 <= i < t.len() implies !starts_with(#[trigger] t.skip(i), pat) by {
            assert(t.skip(i) =~= s.skip(i + 1));
        }
        lemma_occurrences_nowhere(t, pat);
    } else {
        assert(t.skip(k - 1) =~= s.skip(k));
        assert forall|i: int| 0 <= i < t.len() && i != k - 1 implies !starts_with(
            #[trigger] t.skip(i),
            pat,
        ) by {
            assert(t.skip(i) =~= s.skip(i + 1));
        }
        lemma_occurrences_once(t, pat, k - 1);
    }
}

/// A pattern whose first character is not in a text occurs in it no times.
pub proof fn lemma_occurrences_without_first(s: Seq<char>, pat: Seq<char>)
    requires
        pat.len() > 0,
        forall|i: int| 0 <= i < s.len() ==> #[trigger] s[i] != pat[0],
    ensures
        occurrences(s, pat) == 0,
{
    assert forall|i: int| 0 <= i < s.len() implies !starts_with(#[trigger] s.skip(i), pat) by {
        if starts_with(s.skip(i), pat) {
            assert(s.skip(i).take(pat.len() as int)[0] == pat[0]);
            assert(s[i] == pat[0]);
        }
    }
    lemma_occurrences_nowhere(s, pat);
}

/// The occurrences in two texts put together are those in the one and those
/// in the other, where none can begin so near the end of the first that it
/// would reach into the second.
pub proof fn lemma_occurrences_concat(a: Seq<char>, b: Seq<char>, pat: Seq<char>)
    requires
        pat.len() > 0,
        forall|i: int| 0 <= i < a.len() && a.len() - pat.len() < i ==> #[trigger] a[i] != pat[0],
    ensures
        occurrences(a + b, pat) == occurrences(a, pat) + occurrences(b, pat),
    decreases a.len(),
{
    if a.len() == 0 {
        assert(a + b =~= b);
    } else {
        let m = pat.len() as int;
        assert((a + b).skip(1) =~= a.skip(1) + b);
        assert forall|i: int| 0 <= i < a.skip(1).len() && a.skip(1).len() - pat.len() < i implies 
            #[trigger] a.skip(1)[i] != pat[0] by {
            assert(a.skip(1)[i] == a[i + 1]);
        }
        lemma_occurrences_concat(a.skip(1), b, pat);
        if a.len() >= m {
            assert((a + b).take(m) =~= a.take(m));
        } else {
            assert(a[0] != pat[0]);
            if starts_with(a + b, pat) {
                assert((a + b).take(m)[0] == pat[0]);
            }
        }
        assert(starts_with(a + b, pat) == starts_with(a, pat));
    }
}

/// Where `find` succeeds, the pattern stands at the index it gives.
pub proof fn lemma_find_bound(s: Seq<char>, pat: Seq<char>)
    ensures
        find(s, pat) matches Some(i) ==> 0 <= i && i + pat.len() <= s.len() && starts_with(
            s.skip(i),
            pat,
        ),
    decreases s.len(),
{
    if starts_with(s, pat) {
        assert(s.skip(0) =~= s);
    } else if s.len() == 0 {
    } else {
        lemma_find_bound(s.skip(1), pat);
        if let Some(i) = find(s.skip(1), pat) {
            assert(s.skip(1).skip(i) =~= s.skip(i + 1));
        }
    }
}

/// A span never runs past the end of the text.
pub proof fn lemma_span_outside_bound(s: Seq<char>, class: CharClass)
    ensures
        span_outside(s, class) <= s.len(),
        span_outside(s, class) < s.len() ==> class.has(s[span_outside(s, class) as int]),
        forall|i: int| 0 <= i < span_outside(s, class) ==> !class.has(#[trigger] s[i]),
    decreases s.len(),
{
    if s.len() == 0 || class.has(s[0]) {
    } else {
        let t = s.skip(1);
        lemma_span_outside_bound(t, class);
        assert forall|i: int| 0 <= i < span_outside(s, class) implies !class.has(#[trigger] s[i]) by {
            if i > 0 {
                assert(s[i] == t[i - 1]);
            }
        }
    }
}

/// A span ends where the first character of the class stands.
pub proof fn lemma_span_outside_prefix(a: Seq<char>, b: Seq<char>, class: CharClass)
    requires
        forall|i: int| 0 <= i < a.len() ==> !class.has(#[trigger] a[i]),
        b.len() == 0 || class.has(b[0]),
    ensures
        span_outside(a + b, class) == a.len(),
    decreases a.len(),
{
    if a.len() == 0 {
        assert(a + b =~= b);
    } else {
        assert((a + b).skip(1) =~= a.skip(1) + b);
        assert((a + b)[0] == a[0]);
        assert forall|i: int| 0 <= i < a.skip(1).len() implies !class.has(
            #[trigger] a.skip(1)[i],
        ) by {
            assert(a.skip(1)[i] == a[i + 1]);
        }
        lemma_span_outside_prefix(a.skip(1), b, class);
    }
}

/// A span that ends inside a text is not changed by what is appended to the
/// text.
pub proof fn lemma_span_outside_extend(s: Seq<char>, t: Seq<char>, class: CharClass)
    requires
        span_outside(s, class) < s.len(),
    ensures
        span_outside(s + t, class) == span_outside(s, class),
    decreases s.len(),
{
    assert((s + t)[0] == s[0]);
    if !class.has(s[0]) {
        assert((s + t).skip(1) =~= s.skip(1) + t);
        lemma_span_outside_extend(s.skip(1), t, class);
    }
}

/// Whether `line` can be a line of a text as it stands: it holds no line feed
/// and does not end in a carriage return.
pub open spec fn is_plain_line(line: Seq<char>) -> bool {
    &&& forall|i: int| 0 <= i < line.len() ==> #[trigger] line[i] != '\n'
    &&& !(line.len() > 0 && line.last() == '\r')
}

/// The text made of the lines `ls`, each followed by a line feed.
pub open spec fn unlines(ls: Seq<Seq<char>>) -> Seq<char>
    decreases ls.len(),
{
    if ls.len() == 0 {
        Seq::empty()
    } else {
        ls.first() + seq!['\n'] + unlines(ls.skip(1))
    }
}

/// The lines of a text made of plain lines are those lines.
pub proof fn lemma_lines_of_unlines(ls: Seq<Seq<char>>)
    requires
        forall|i: int| 0 <= i < ls.len() ==> is_plain_line(#[trigger] ls[i]),
    ensures
        lines(unlines(ls)) == ls,
    decreases ls.len(),
{
    if ls.len() > 0 {
        let first = ls.first();
        let rest = unlines(ls.skip(1));
        let text = unlines(ls);
        let tail = seq!['\n'] + rest;
        assert(text =~= first + tail);
        assert(is_plain_line(ls[0]));
        lemma_span_outside_prefix(first, tail, CharClass::Newline);
        assert(text.take(first.len() as int) =~= first);
        assert(text.skip(first.len() as int + 1) =~= rest);
        assert forall|i: int| 0 <= i < ls.skip(1).len() implies is_plain_line(
            #[trigger] ls.skip(1)[i],
        ) by {
            assert(ls.skip(1)[i] == ls[i + 1]);
        }
        lemma_lines_of_unlines(ls.skip(1));
        assert(seq![first] + ls.skip(1) =~= ls);
    }
}

/// Whether `word` can be a word of a text: it is not empty and holds no white
/// space.
pub open spec fn is_word(word: Seq<char>) -> bool {
    word.len() > 0 && forall|i: int| 0 <= i < word.len() ==> !is_whitespace(#[trigger] word[i])
}

/// The text made of the words `ws` with one space between two of them.
pub open spec fn unwords(ws: Seq<Seq<char>>) -> Seq<char>
    decreases ws.len(),
{
    if ws.len() == 0 {
        Seq::empty()
    } else if ws.len() == 1 {
        ws.first()
    } else {
        ws.first() + seq![' '] + unwords(ws.skip(1))
    }
}

/// The words of a text made of words are those words.
pub proof fn lemma_words_of_unwords(ws: Seq<Seq<char>>)
    requires
        forall|i: int| 0 <= i < ws.len() ==> is_word(#[trigger] ws[i]),
    ensures
        words(unwords(ws)) == ws,
    decreases ws.len(),
{
    if ws.len() > 0 {
        let first = ws.first();
        let text = unwords(ws);
        assert(is_word(ws[0]));
        let tail = if ws.len() == 1 {
            Seq::<char>::empty()
        } else {
            seq![' '] + unwords(ws.skip(1))
        };
        assert(text =~= first + tail);
        assert forall|i: int| 0 <= i < first.len() implies !CharClass::Whitespace.has(
            #[trigger] first[i],
        ) by {
            assert(!is_whitespace(first[i]));
        }
        lemma_span_outside_prefix(first, tail, CharClass::Whitespace);
        assert(text[0] == first[0]);
        assert(text.take(first.len() as int) =~= first);
        assert(text.skip(first.len() as int) =~= tail);
        if ws.len() == 1 {
            assert(words(tail) =~= Seq::<Seq<char>>::empty());
            assert(seq![first] + Seq::<Seq<char>>::empty() =~= ws);
        } else {
            let rest = ws.skip(1);
            assert forall|i: int| 0 <= i < rest.len() implies is_word(#[trigger] rest[i]) by {
                assert(rest[i] == ws[i + 1]);
            }
            lemma_words_of_unwords(rest);
            assert(tail.skip(1) =~= unwords(rest));
            assert(words(tail) == rest);
            assert(seq![first] + rest =~= ws);
        }
    }
}

/// A text made of words is a plain line.
pub proof fn lemma_unwords_is_plain(ws: Seq<Seq<char>>)
    requires
        forall|i: int| 0 <= i < ws.len() ==> is_word(#[trigger] ws[i]),
    ensures
        is_plain_line(unwords(ws)),
        forall|i: int|
            0 <= i < unwords(ws).len() ==> #[trigger] unwords(ws)[i] != '\n' && unwords(ws)[i]
                != '\r',
    decreases ws.len(),
{
    if ws.len() > 0 {
        let first = ws.first();
        assert(is_word(ws[0]));
        assert forall|i: int| 0 <= i < first.len() implies #[trigger] first[i] != '\n' && first[i]
            != '\r' by {
            assert(!is_whitespace(first[i]));
        }
        if ws.len() > 1 {
            let rest = ws.skip(1);
            assert forall|i: int| 0 <= i < rest.len() implies is_word(#[trigger] rest[i]) by {
                assert(rest[i] == ws[i + 1]);
            }
            lemma_unwords_is_plain(rest);
            let text = unwords(ws);
            assert(text =~= first + seq![' '] + unwords(rest));
            assert forall|i: int| 0 <= i < text.len() implies #[trigger] text[i] != '\n' && text[i]
                != '\r' by {
                if i < first.len() {
                    assert(text[i] == first[i]);
                } else if i > first.len() {
                    assert(text[i] == unwords(rest)[i - first.len() - 1]);
                }
            }
        }
    }
}

/// The line feed at the end of a text is optional: a text that ends in
/// neither a line feed nor a carriage return has the same lines with one.
pub proof fn lemma_final_feed_is_optional(s: Seq<char>)
    requires
        s.len() > 0,
        s.last() != '\n',
        s.last() != '\r',
    ensures
        lines(s + seq!['\n']) == lines(s),
    decreases s.len(),
{
    let fed = s + seq!['\n'];
    let n = span_outside(s, CharClass::Newline) as int;
    lemma_span_outside_bound(s, CharClass::Newline);
    if n >= s.len() {
        lemma_span_outside_prefix(s, seq!['\n'], CharClass::Newline);
        assert(fed.take(s.len() as int) =~= s);
        assert(fed.skip(s.len() as int + 1) =~= Seq::<char>::empty());
        assert(span_outside(fed, CharClass::Newline) == s.len());
        assert(strip_cr(s) == s);
        assert(lines(Seq::<char>::empty()) =~= Seq::<Seq<char>>::empty());
        assert(lines(fed) =~= seq![s] + Seq::<Seq<char>>::empty());
        assert(lines(s) =~= seq![s]);
    } else {
        lemma_span_outside_extend(s, seq!['\n'], CharClass::Newline);
        let rest = s.skip(n + 1);
        assert(rest.len() > 0);
        assert(rest.last() == s.last());
        assert(fed.take(n) =~= s.take(n));
        assert(fed.skip(n + 1) =~= rest + seq!['\n']);
        lemma_final_feed_is_optional(rest);
    }
}

/// Mapping and filtering a sequence goes piece by piece.
pub proof fn lemma_filter_map_concat<A, B>(a: Seq<A>, b: Seq<A>, f: spec_fn(A) -> Option<B>)
    ensures
        (a + b).filter_map(f) == a.filter_map(f) + b.filter_map(f),
    decreases b.len(),
{
    if b.len() == 0 {
        assert(a + b =~= a);
        assert(a.filter_map(f) + b.filter_map(f) =~= a.filter_map(f));
    } else {
        assert((a + b).drop_last() =~= a + b.drop_last());
        assert((a + b).last() == b.last());
        lemma_filter_map_concat(a, b.drop_last(), f);
        assert((a + b).filter_map(f) =~= a.filter_map(f) + b.filter_map(f));
    }
}

/// Where `f` keeps every element, the result has one element for each, in
/// the same order.
pub proof fn lemma_filter_map_keeps_all<A, B>(s: Seq<A>, f: spec_fn(A) -> Option<B>)
    requires
        forall|i: int| 0 <= i < s.len() ==> f(#[trigger] s[i]) is Some,
    ensures
        s.filter_map(f).len() == s.len(),
        forall|i: int| 0 <= i < s.len() ==> #[trigger] s.filter_map(f)[i] == f(s[i])->0,
    decreases s.len(),
{
    if s.len() > 0 {
        let front = s.drop_last();
        assert forall|i: int| 0 <= i < front.len() implies f(#[trigger] front[i]) is Some by {
            assert(front[i] == s[i]);
        }
        lemma_filter_map_keeps_all(front, f);
        assert(f(s[s.len() - 1]) is Some);
        assert forall|i: int| 0 <= i < s.len() implies #[trigger] s.filter_map(f)[i] == f(
            s[i],
        )->0 by {
            if i < front.len() {
                assert(front[i] == s[i]);
                assert(s.filter_map(f)[i] == front.filter_map(f)[i]);
            }
        }
    }
}

/// Copies the characters of `s` from index `from` up to `to`.
pub fn copy_range(s: &[char], from: usize, to: usize) -> (v: Vec<char>)
    requires
        from <= to <= s.len(),
    ensures
        v@ == s@.subrange(from as int, to as int),
{
    let mut v: Vec<char> = Vec::new();
    let mut i: usize = from;
    while i < to
        invariant
            from <= i <= to <= s.len(),
            v@ == s@.subrange(from as int, i as int),
        decreases to - i,
    {
        v.push(s[i]);
        i += 1;
    }
    v
}

/// Finds where the run of characters outside `class` that starts at `from`
/// ends.
pub fn scan_outside(s: &[char], from: usize, class: CharClass) -> (end: usize)
    requires
        from <= s.len(),
    ensures
        from <= end <= s.len(),
        end - from == span_outside(s@.skip(from as int), class),
{
    let mut i: usize = from;
    while i < s.len() && !class.contains(s[i])
        invariant
            from <= i <= s.len(),
            span_outside(s@.skip(from as int), class) == (i - from) + span_outside(
                s@.skip(i as int),
                class,
            ),
        decreases s.len() - i,
    {
        assert(s@.skip(i as int).skip(1) =~= s@.skip(i + 1));
        i += 1;
    }
    i
}

/// Finds the part of `s` that is left when the characters of `class` are
/// trimmed from both ends.
pub fn trim_range(s: &[char], class: CharClass) -> (r: (usize, usize))
    ensures
        r.0 <= r.1 <= s.len(),
        s@.subrange(r.0 as int, r.1 as int) == trim_matches(s@, class),
{
    let mut a: usize = 0;
    assert(s@.skip(0) =~= s@);
    while a < s.len() && class.contains(s[a])
        invariant
            a <= s.len(),
            trim_start(s@, class) == trim_start(s@.skip(a as int), class),
        decreases s.len() - a,
    {
        assert(s@.skip(a as int).skip(1) =~= s@.skip(a + 1));
        a += 1;
    }
    assert(trim_start(s@, class) == s@.skip(a as int));
    let mut b: usize = s.len();
    assert(s@.skip(a as int) =~= s@.subrange(a as int, b as int));
    while b > a && class.contains(s[b - 1])
        invariant
            a <= b <= s.len(),
            trim_matches(s@, class) == trim_end(s@.subrange(a as int, b as int), class),
        decreases b,
    {
        assert(s@.subrange(a as int, b as int).drop_last() =~= s@.subrange(a as int, b - 1));
        b -= 1;
    }
    (a, b)
}

/// `s` without its leading and trailing characters of `class`.
pub fn trimmed(s: &[char], class: CharClass) -> (v: Vec<char>)
    ensures
        v@ == trim_matches(s@, class),
{
    let (a, b) = trim_range(s, class);
    copy_range(s, a, b)
}

/// Splits `s` into its lines.
pub fn split_lines(s: &[char]) -> (out: Vec<Vec<char>>)
    ensures
        seqs(out@) == lines(s@),
{
    let mut out: Vec<Vec<char>> = Vec::new();
    let mut pos: usize = 0;
    assert(s@.skip(0) =~= s@);
    while pos < s.len()
        invariant
            pos <= s.len(),
            seqs(out@) + lines(s@.skip(pos as int)) == lines(s@),
        decreases s.len() - pos,
    {
        let ghost rest = s@.skip(pos as int);
        let ghost before = seqs(out@);
        let end = scan_outside(s, pos, CharClass::Newline);
        if end == s.len() {
            let line = copy_range(s, pos, end);
            assert(line@ =~= rest);
            out.push(line);
            assert(seqs(out@) =~= before.push(rest));
            assert(lines(rest) =~= seq![rest]);
            assert(lines(s@.skip(end as int)) =~= Seq::<Seq<char>>::empty());
            pos = end;
        } else {
            let stop = if end > pos && s[end - 1] == '\r' {
                end - 1
            } else {
                end
            };
            let line = copy_range(s, pos, stop);
            assert(rest.take(end - pos) =~= s@.subrange(pos as int, end as int));
            assert(line@ =~= strip_cr(rest.take(end - pos)));
            out.push(line);
            assert(seqs(out@) =~= before.push(line@));
            assert(rest.skip(end - pos + 1) =~= s@.skip(end + 1));
            pos = end + 1;
        }
    }
    assert(lines(s@.skip(pos as int)) =~= Seq::<Seq<char>>::empty());
    out
}

/// Splits `s` into its words.
pub fn split_words(s: &[char]) -> (out: Vec<Vec<char>>)
    ensures
        seqs(out@) == words(s@),
{
    let mut out: Vec<Vec<char>> = Vec::new();
    let mut pos: usize = 0;
    assert(s@.skip(0) =~= s@);
    while pos < s.len()
        invariant
            pos <= s.len(),
            seqs(out@) + words(s@.skip(pos as int)) == words(s@),
        decreases s.len() - pos,
    {
        let ghost rest = s@.skip(pos as int);
        let ghost before = seqs(out@);
        if CharClass::Whitespace.contains(s[pos]) {
            assert(rest.skip(1) =~= s@.skip(pos + 1));
            pos += 1;
        } else {
            let end = scan_outside(s, pos, CharClass::Whitespace);
            let word = copy_range(s, pos, end);
            assert(word@ =~= rest.take(end - pos));
            out.push(word);
            assert(seqs(out@) =~= before.push(word@));
            assert(rest.skip(end - pos) =~= s@.skip(end as int));
            pos = end;
        }
    }
    assert(words(s@.skip(pos as int)) =~= Seq::<Seq<char>>::empty());
    out
}

/// Tests whether `pat` stands in `s` at index `at`.
pub fn has_prefix_at(s: &[char], at: usize, pat: &[char]) -> (b: bool)
    requires
        at <= s.len(),
    ensures
        b == starts_with(s@.skip(at as int), pat@),
{
    if pat.len() > s.len() - at {
        return false;
    }
    let ghost rest = s@.skip(at as int);
    let mut k: usize = 0;
    while k < pat.len()
        invariant
            at <= s.len(),
            pat.len() <= s.len() - at,
            k <= pat.len(),
            rest == s@.skip(at as int),
            rest.take(k as int) == pat@.take(k as int),
        decreases pat.len() - k,
    {
        if s[at + k] != pat[k] {
            assert(rest.take(pat@.len() as int)[k as int] != pat@[k as int]);
            return false;
        }
        assert(rest.take(k + 1) =~= rest.take(k as int).push(rest[k as int]));
        assert(pat@.take(k + 1) =~= pat@.take(k as int).push(pat@[k as int]));
        k += 1;
    }
    assert(pat@.take(k as int) =~= pat@);
    true
}

/// Tests whether two texts are the same.
pub fn same_text(a: &[char], b: &[char]) -> (r: bool)
    ensures
        r == (a@ == b@),
{
    if a.len() != b.len() {
        return false;
    }
    assert(a@.skip(0) =~= a@);
    assert(a@.take(b@.len() as int) =~= a@);
    has_prefix_at(a, 0, b)
}

/// Looks for the first occurrence of `pat` in `s` at or after index `from`.
pub fn find_from(s: &[char], from: usize, pat: &[char]) -> (r: Option<usize>)
    requires
        from <= s.len(),
    ensures
        match r {
            Some(i) => from <= i <= s.len() && find(s@.skip(from as int), pat@) == Some(
                i - from,
            ),
            None => find(s@.skip(from as int), pat@) is None,
        },
{
    let mut i: usize = from;
    loop
        invariant
            from <= i <= s.len(),
            find(s@.skip(from as int), pat@) == match find(s@.skip(i as int), pat@) {
                Some(j) => Some(j + (i - from)),
                None => None,
            },
        decreases s.len() - i,
    {
        if has_prefix_at(s, i, pat) {
            return Some(i);
        }
        if i == s.len() {
            return None;
        }
        assert(s@.skip(i as int).skip(1) =~= s@.skip(i + 1));
        i += 1;
    }
}

/// Copies `s` without the occurrences of `pat`.
pub fn without(s: &[char], pat: &[char]) -> (v: Vec<char>)
    ensures
        v@ == remove_all(s@, pat@),
{
    let mut v: Vec<char> = Vec::new();
    let mut i: usize = 0;
    assert(s@.skip(0) =~= s@);
    while i < s.len()
        invariant
            i <= s.len(),
            v@ + remove_all(s@.skip(i as int), pat@) == remove_all(s@, pat@),
        decreases s.len() - i,
    {
        let ghost rest = s@.skip(i as int);
        if pat.len() == 0 {
            v.push(s[i]);
            assert(rest.skip(1) =~= s@.skip(i + 1));
            assert(rest =~= seq![rest[0]] + rest.skip(1));
            i += 1;
        } else if has_prefix_at(s, i, pat) {
            assert(rest.skip(pat@.len() as int) =~= s@.skip(i + pat@.len()));
            i += pat.len();
        } else {
            v.push(s[i]);
            assert(rest.skip(1) =~= s@.skip(i + 1));
            i += 1;
        }
    }
    v
}

/// The characters of a string.
pub fn chars_of(s: &str) -> (v: Vec<char>)
    ensures
        v@ == s@,
{
    let mut v: Vec<char> = Vec::new();
    for c in it: s.chars()
        invariant
            v@ == it.seq().take(it.index() as int),
            it.seq() == s@,
    {
        v.push(c);
    }
    v
}

/// Appends the characters of `s` to `out`.
pub fn push_chars(out: &mut Vec<char>, s: &[char])
    ensures
        final(out)@ == old(out)@ + s@,
{
    let mut i: usize = 0;
    while i < s.len()
        invariant
            i <= s.len(),
            out@ == old(out)@ + s@.take(i as int),
        decreases s.len() - i,
    {
        out.push(s[i]);
        assert(s@.take(i + 1) =~= s@.take(i as int).push(s@[i as int]));
        i += 1;
    }
    assert(s@.take(i as int) =~= s@);
}

/// Appends the characters of the string `s` to `out`.
pub fn push_text(out: &mut Vec<char>, s: &str)
    ensures
        final(out)@ == old(out)@ + s@,
{
    let chars = chars_of(s);
    push_chars(out, chars.as_slice());
}

/// `String::push` appends one character to the string.
pub assume_specification[ String::push ](s: &mut String, ch: char)
    ensures
        final(s)@ == old(s)@.push(ch),
;

/// The string made of the characters of `s`.
pub fn string_of(s: &[char]) -> (text: String)
    ensures
        text@ == s@,
{
    let mut text = String::new();
    let mut i: usize = 0;
    while i < s.len()
        invariant
            i <= s.len(),
            text@ == s@.take(i as int),
        decreases s.len() - i,
    {
        text.push(s[i]);
        i += 1;
    }
    text
}

} // verus!
