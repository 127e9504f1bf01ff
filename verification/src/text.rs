//! Characters, lines and whitespace-separated tokens.
//!
//! Everything here is stated over `Seq<char>`; the executable functions walk a
//! `Vec<char>` by index ranges, so that no line or token is copied before it is
//! known to be needed.

use vstd::prelude::*;

verus! {

/// Whether `c` separates tokens: the characters that Unicode classes as
/// `White_Space`.
pub open spec fn is_space(c: char) -> bool {
    ||| '\u{0009}' <= c <= '\u{000D}'
    ||| c == ' '
    ||| c == '\u{0085}'
    ||| c == '\u{00A0}'
    ||| c == '\u{1680}'
    ||| '\u{2000}' <= c <= '\u{200A}'
    ||| c == '\u{2028}'
    ||| c == '\u{2029}'
    ||| c == '\u{202F}'
    ||| c == '\u{205F}'
    ||| c == '\u{3000}'
}

/// Number of characters of `s` that stand before its first `sep`; the length
/// of `s` where it holds none.
pub open spec fn span_until(s: Seq<char>, sep: char) -> nat
    decreases s.len(),
{
    if s.len() == 0 || s[0] == sep {
        0
    } else {
        1 + span_until(s.skip(1), sep)
    }
}

/// The pieces of `s` between occurrences of `sep`, empty pieces included.
/// There is always at least one piece.
pub open spec fn split(s: Seq<char>, sep: char) -> Seq<Seq<char>>
    decreases s.len(),
{
    let n = span_until(s, sep) as int;
    if n >= s.len() {
        seq![s]
    } else {
        seq![s.take(n)] + split(s.skip(n + 1), sep)
    }
}

/// The lines of a text: its pieces between line feeds. A carriage return
/// before a line feed stays in the line, where it counts as whitespace.
pub open spec fn lines(text: Seq<char>) -> Seq<Seq<char>> {
    split(text, '\n')
}

/// Whether `s` holds no `sep`.
pub open spec fn free_of(s: Seq<char>, sep: char) -> bool {
    forall|j: int| 0 <= j < s.len() ==> s[j] != sep
}

/// The pieces put together again, with one `sep` between each two.
pub open spec fn join(pieces: Seq<Seq<char>>, sep: char) -> Seq<char>
    decreases pieces.len(),
{
    if pieces.len() == 0 {
        Seq::empty()
    } else if pieces.len() == 1 {
        pieces[0]
    } else {
        pieces[0] + seq![sep] + join(pieces.skip(1), sep)
    }
}

/// Number of characters at the start of `s` that are not whitespace.
pub open spec fn word_len(s: Seq<char>) -> nat
    decreases s.len(),
{
    if s.len() == 0 || is_space(s[0]) {
        0
    } else {
        1 + word_len(s.skip(1))
    }
}

/// The tokens of a line: its maximal runs of characters that are not
/// whitespace, in order.
pub open spec fn tokens(s: Seq<char>) -> Seq<Seq<char>>
    decreases s.len(),
{
    if s.len() == 0 {
        Seq::empty()
    } else if is_space(s[0]) {
        tokens(s.skip(1))
    } else {
        let n = word_len(s) as int;
        proof {
            lemma_word_len_bound(s);
        }
        seq![s.take(n)] + tokens(s.skip(n))
    }
}

/// The first word lies in `s`, and is not empty where `s` starts with a
/// character that is no whitespace.
pub proof fn lemma_word_len_bound(s: Seq<char>)
    ensures
        word_len(s) <= s.len(),
        s.len() > 0 && !is_space(s[0]) ==> word_len(s) >= 1,
    decreases s.len(),
{
    if s.len() > 0 && !is_space(s[0]) {
        lemma_word_len_bound(s.skip(1));
    }
}

/// `n` is the span before the first `sep` when no earlier character is `sep`
/// and the character at `n`, if there is one, is.
pub proof fn lemma_span_until(s: Seq<char>, sep: char, n: int)
    requires
        0 <= n <= s.len(),
        forall|j: int| 0 <= j < n ==> s[j] != sep,
        n == s.len() || s[n] == sep,
    ensures
        span_until(s, sep) == n,
    decreases n,
{
    if n > 0 {
        let t = s.skip(1);
        assert forall|j: int| 0 <= j < n - 1 implies t[j] != sep by {
            assert(t[j] == s[j + 1]);
        }
        lemma_span_until(t, sep, n - 1);
    }
}

/// The span before the first `sep` lies in `s`, holds no `sep`, and ends at
/// a `sep` or at the end of `s`.
pub proof fn lemma_span_until_ends(s: Seq<char>, sep: char)
    ensures
        span_until(s, sep) <= s.len(),
        free_of(s.take(span_until(s, sep) as int), sep),
        span_until(s, sep) < s.len() ==> s[span_until(s, sep) as int] == sep,
    decreases s.len(),
{
    if s.len() > 0 && s[0] != sep {
        let t = s.skip(1);
        lemma_span_until_ends(t, sep);
        let n = span_until(s, sep) as int;
        assert forall|j: int| 0 <= j < n implies s.take(n)[j] != sep by {
            if j > 0 {
                assert(t.take(n - 1)[j - 1] == s.take(n)[j]);
            }
        }
        if n < s.len() {
            assert(t[n - 1] == s[n]);
        }
    }
}

/// Splitting gives at least one piece, and no piece holds a `sep`.
pub proof fn lemma_split_pieces(s: Seq<char>, sep: char)
    ensures
        split(s, sep).len() >= 1,
        forall|i: int| 0 <= i < split(s, sep).len() ==> free_of(#[trigger] split(s, sep)[i], sep),
    decreases s.len(),
{
    let n = span_until(s, sep) as int;
    lemma_span_until_ends(s, sep);
    if n >= s.len() {
        assert(s.take(n) == s);
    } else {
        let rest = s.skip(n + 1);
        lemma_split_pieces(rest, sep);
        assert forall|i: int| 0 <= i < split(s, sep).len() implies free_of(
            #[trigger] split(s, sep)[i],
            sep,
        ) by {
            if i > 0 {
                assert(split(s, sep)[i] == split(rest, sep)[i - 1]);
            }
        }
    }
}

/// Joining the pieces of `s` gives `s` back.
pub proof fn lemma_join_split(s: Seq<char>, sep: char)
    ensures
        join(split(s, sep), sep) == s,
    decreases s.len(),
{
    let n = span_until(s, sep) as int;
    lemma_span_until_ends(s, sep);
    if n < s.len() {
        let rest = s.skip(n + 1);
        lemma_join_split(rest, sep);
        lemma_split_pieces(rest, sep);
        let pieces = split(s, sep);
        assert(pieces.skip(1) == split(rest, sep));
        assert(s.take(n) + seq![sep] + rest == s);
    }
}

/// Splitting what was joined gives the pieces back, where there is at least
/// one piece and none holds a `sep`.
pub proof fn lemma_split_join(pieces: Seq<Seq<char>>, sep: char)
    requires
        pieces.len() >= 1,
        forall|i: int| 0 <= i < pieces.len() ==> free_of(#[trigger] pieces[i], sep),
    ensures
        split(join(pieces, sep), sep) == pieces,
    decreases pieces.len(),
{
    let first = pieces[0];
    if pieces.len() == 1 {
        lemma_span_until(first, sep, first.len() as int);
        assert(seq![first] == pieces);
    } else {
        let rest = pieces.skip(1);
        assert forall|i: int| 0 <= i < rest.len() implies free_of(#[trigger] rest[i], sep) by {
            assert(rest[i] == pieces[i + 1]);
        }
        lemma_split_join(rest, sep);
        let s = join(pieces, sep);
        let n = first.len() as int;
        assert(s == first + seq![sep] + join(rest, sep));
        assert forall|j: int| 0 <= j < n implies s[j] != sep by {
            assert(s[j] == first[j]);
        }
        assert(s[n] == sep);
        lemma_span_until(s, sep, n);
        assert(s.take(n) == first);
        assert(s.skip(n + 1) == join(rest, sep));
        assert(seq![first] + rest == pieces);
    }
}

/// `n` is the length of the first word when no earlier character is
/// whitespace and the character at `n`, if there is one, is.
pub proof fn lemma_word_len(s: Seq<char>, n: int)
    requires
        0 <= n <= s.len(),
        forall|j: int| 0 <= j < n ==> !is_space(s[j]),
        n == s.len() || is_space(s[n]),
    ensures
        word_len(s) == n,
    decreases n,
{
    if n > 0 {
        let t = s.skip(1);
        assert forall|j: int| 0 <= j < n - 1 implies !is_space(t[j]) by {
            assert(t[j] == s[j + 1]);
        }
        lemma_word_len(t, n - 1);
    }
}

/// Tests whether a character separates tokens.
pub fn space(c: char) -> (r: bool)
    ensures
        r == is_space(c),
{
    ('\u{0009}' <= c && c <= '\u{000D}') || c == ' ' || c == '\u{0085}' || c == '\u{00A0}' || c
        == '\u{1680}' || ('\u{2000}' <= c && c <= '\u{200A}') || c == '\u{2028}' || c == '\u{2029}'
        || c == '\u{202F}' || c == '\u{205F}' || c == '\u{3000}'
}

/// A range of positions in a sequence of characters: `start` is inside, `end`
/// is not.
#[derive(Clone, Copy, Debug, PartialEq, Eq, Structural)]
pub struct Span {
    pub start: usize,
    pub end: usize,
}

impl Span {
    /// The characters of `s` that the span covers.
    pub open spec fn of(self, s: Seq<char>) -> Seq<char> {
        s.subrange(self.start as int, self.end as int)
    }

    /// Whether the span lies inside `from..to`.
    pub open spec fn within(self, from: int, to: int) -> bool {
        from <= self.start <= self.end <= to
    }

    /// Whether the span covers position `j`.
    pub open spec fn covers(self, j: int) -> bool {
        self.start <= j < self.end
    }
}

/// The characters of `text`, in order.
pub fn to_chars(text: &str) -> (r: Vec<char>)
    ensures
        r@ == text@,
{
    let mut out: Vec<char> = Vec::new();
    for c in it: text.chars()
        invariant
            out@ == it.seq().take(it.index()),
            it.seq() == text@,
    {
        out.push(c);
    }
    out
}

/// Appends `c` to `s` with `String::push`, which puts the character behind
/// those that the string holds and changes none of them.
#[verifier::external_body]
fn push_char(s: &mut String, c: char)
    ensures
        final(s)@ == old(s)@.push(c),
{
    s.push(c)
}

/// The characters in `from..to` of `chars`, as a string.
pub fn to_text(chars: &Vec<char>, from: usize, to: usize) -> (r: String)
    requires
        from <= to <= chars.len(),
    ensures
        r@ == chars@.subrange(from as int, to as int),
{
    let mut out = String::new();
    let mut i: usize = from;
    while i < to
        invariant
            from <= i <= to <= chars.len(),
            out@ == chars@.subrange(from as int, i as int),
        decreases to - i,
    {
        push_char(&mut out, chars[i]);
        assert(chars@.subrange(from as int, i as int).push(chars@[i as int]) == chars@.subrange(
            from as int,
            i + 1,
        ));
        i += 1;
    }
    out
}

/// Position of the first `sep` in `from..to` of `chars`; `to` where there is
/// none.
pub fn find(chars: &Vec<char>, from: usize, to: usize, sep: char) -> (end: usize)
    requires
        from <= to <= chars.len(),
    ensures
        from <= end <= to,
        end - from == span_until(chars@.subrange(from as int, to as int), sep),
{
    let mut i: usize = from;
    while i < to && chars[i] != sep
        invariant
            from <= i <= to <= chars.len(),
            forall|j: int| from <= j < i ==> chars@[j] != sep,
        decreases to - i,
    {
        i += 1;
    }
    proof {
        lemma_span_until(chars@.subrange(from as int, to as int), sep, i - from);
    }
    i
}

/// Position just behind the word that starts at `from`: the first whitespace
/// in `from..to` of `chars`, or `to`.
pub fn word_end(chars: &Vec<char>, from: usize, to: usize) -> (end: usize)
    requires
        from <= to <= chars.len(),
    ensures
        from <= end <= to,
        end - from == word_len(chars@.subrange(from as int, to as int)),
        forall|j: int| from <= j < end ==> !is_space(chars@[j]),
        end == to || is_space(chars@[end as int]),
{
    let mut i: usize = from;
    while i < to && !space(chars[i])
        invariant
            from <= i <= to <= chars.len(),
            forall|j: int| from <= j < i ==> !is_space(chars@[j]),
        decreases to - i,
    {
        i += 1;
    }
    proof {
        lemma_word_len(chars@.subrange(from as int, to as int), i - from);
    }
    i
}

/// The spans of the tokens that stand in `from..to` of `chars`, in order:
/// the maximal runs of characters that are not whitespace. Every such
/// character lies in one span, and whitespace parts each span from the next.
pub fn token_spans(chars: &Vec<char>, from: usize, to: usize) -> (spans: Vec<Span>)
    requires
        from <= to <= chars.len(),
    ensures
        spans@.len() == tokens(chars@.subrange(from as int, to as int)).len(),
        forall|k: int|
            0 <= k < spans@.len() ==> {
                &&& (#[trigger] spans@[k]).within(from as int, to as int)
                &&& spans@[k].start < spans@[k].end
                &&& spans@[k].of(chars@) == tokens(chars@.subrange(from as int, to as int))[k]
                &&& k > 0 ==> spans@[k - 1].end < spans@[k].start
            },
        forall|j: int|
            from <= j < to ==> (!is_space(#[trigger] chars@[j]) <==> exists|k: int|
                0 <= k < spans@.len() && (#[trigger] spans@[k]).covers(j)),
{
    let ghost line = chars@.subrange(from as int, to as int);
    let ghost mut done: Seq<Seq<char>> = Seq::empty();
    let mut spans: Vec<Span> = Vec::new();
    let mut i: usize = from;
    while i < to
        invariant
            from <= i <= to <= chars.len(),
            line == chars@.subrange(from as int, to as int),
            tokens(line) == done + tokens(chars@.subrange(i as int, to as int)),
            spans@.len() == done.len(),
            forall|k: int|
                0 <= k < spans@.len() ==> {
                    &&& (#[trigger] spans@[k]).within(from as int, i as int)
                    &&& spans@[k].start < spans@[k].end
                    &&& spans@[k].of(chars@) == done[k]
                    &&& k > 0 ==> spans@[k - 1].end < spans@[k].start
                },
            spans@.len() > 0 ==> spans@[spans@.len() - 1].end == i || is_space(chars@[i - 1]),
            spans@.len() > 0 && spans@[spans@.len() - 1].end == i && i < to ==> is_space(
                chars@[i as int],
            ),
            forall|j: int|
                from <= j < i ==> (!is_space(#[trigger] chars@[j]) <==> exists|k: int|
                    0 <= k < spans@.len() && (#[trigger] spans@[k]).covers(j)),
        decreases to - i,
    {
        let ghost rest = chars@.subrange(i as int, to as int);
        let ghost before = spans@;
        if space(chars[i]) {
            assert(rest.skip(1) == chars@.subrange(i + 1, to as int));
            assert forall|j: int| from <= j < i + 1 implies (!is_space(#[trigger] chars@[j])
                <==> exists|k: int| 0 <= k < spans@.len() && (#[trigger] spans@[k]).covers(j)) by {
                if j == i {
                    assert forall|k: int| 0 <= k < spans@.len() implies !(#[trigger] spans@[k]).covers(
                        j,
                    ) by {}
                }
            }
            i += 1;
        } else {
            let end = word_end(chars, i, to);
            proof {
                lemma_word_len_bound(rest);
                assert(rest.take(end - i) == chars@.subrange(i as int, end as int));
                assert(rest.skip(end - i) == chars@.subrange(end as int, to as int));
                assert(done + (seq![rest.take(end - i)] + tokens(rest.skip(end - i))) == done.push(
                    rest.take(end - i),
                ) + tokens(rest.skip(end - i)));
                done = done.push(rest.take(end - i));
            }
            let span = Span { start: i, end };
            spans.push(span);
            proof {
                let n = before.len() as int;
                assert(spans@[n] == span);
                assert forall|k: int| 0 <= k < n implies spans@[k] == before[k] by {}
                assert forall|j: int| from <= j < end implies (!is_space(#[trigger] chars@[j])
                    <==> exists|k: int| 0 <= k < spans@.len() && (#[trigger] spans@[k]).covers(j)) by {
                    if j < i {
                        if !is_space(chars@[j]) {
                            let k = choose|k: int| 0 <= k < n && (#[trigger] before[k]).covers(j);
                            assert(spans@[k].covers(j));
                        }
                        if exists|k: int| 0 <= k < spans@.len() && (#[trigger] spans@[k]).covers(j) {
                            let k = choose|k: int|
                                0 <= k < spans@.len() && (#[trigger] spans@[k]).covers(j);
                            assert(k < n);
                            assert(before[k].covers(j));
                        }
                    } else {
                        assert(spans@[n].covers(j));
                    }
                }
            }
            i = end;
        }
    }
    assert(chars@.subrange(to as int, to as int).len() == 0);
    assert(tokens(line) == done);
    spans
}

/// The tokens of `line`, in order.
pub fn split_tokens(line: &str) -> (r: Vec<String>)
    ensures
        r@.len() == tokens(line@).len(),
        forall|k: int| 0 <= k < r@.len() ==> (#[trigger] r@[k])@ == tokens(line@)[k],
{
    let chars = to_chars(line);
    assert(chars@.subrange(0, chars@.len() as int) == chars@);
    let spans = token_spans(&chars, 0, chars.len());
    let mut out: Vec<String> = Vec::new();
    let mut k: usize = 0;
    while k < spans.len()
        invariant
            k <= spans.len(),
            chars@ == line@,
            out@.len() == k,
            spans@.len() == tokens(line@).len(),
            forall|m: int|
                0 <= m < spans@.len() ==> {
                    &&& (#[trigger] spans@[m]).within(0, chars@.len() as int)
                    &&& spans@[m].of(chars@) == tokens(line@)[m]
                },
            forall|m: int| 0 <= m < k ==> (#[trigger] out@[m])@ == tokens(line@)[m],
        decreases spans.len() - k,
    {
        let span = spans[k];
        let token = to_text(&chars, span.start, span.end);
        out.push(token);
        k += 1;
    }
    out
}

} // verus!
