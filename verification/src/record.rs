//! One line of a geometry file, read as a record.
//!
//! The first token of a line is its tag. The tags `v`, `vt`, `vn` and `f`
//! announce a position, a texture coordinate, a normal and a triangle; a line
//! with any other tag, or with no token at all, is ignored.

use vstd::prelude::*;
use crate::error::{outcome_view, LoadError};
use crate::geometry::{Corner, FaceRef, Pair, Triple, Vec2, Vec3};
use crate::number::{float_at, index_at, index_outcome, index_value, is_float_literal};
use crate::text::{find, split, span_until, to_chars, to_text, token_spans, tokens, Span};

verus! {

/// The view of a record: what a line says, with indices that are not
/// bounded.
pub enum Entry {
    /// A `v` record.
    Position(Triple),
    /// A `vt` record.
    TexCoord(Pair),
    /// A `vn` record.
    Normal(Triple),
    /// An `f` record: the three corners of a triangle, in the order given.
    Face(Corner, Corner, Corner),
    /// A line that holds none of the four.
    Ignored,
}

impl Entry {
    /// The corners of a face, in the order given; nothing for another entry.
    pub open spec fn corners(self) -> Seq<Corner> {
        match self {
            Entry::Face(a, b, c) => seq![a, b, c],
            _ => Seq::empty(),
        }
    }

    /// Whether a machine word holds each index that the entry names.
    pub open spec fn fits(self) -> bool {
        match self {
            Entry::Face(a, b, c) => a.fits() && b.fits() && c.fits(),
            _ => true,
        }
    }
}

/// What a line says.
#[derive(Clone, Debug, PartialEq, Eq)]
pub enum Record {
    /// A `v` record.
    Position(Vec3),
    /// A `vt` record.
    TexCoord(Vec2),
    /// A `vn` record.
    Normal(Vec3),
    /// An `f` record: the three corners of a triangle, in the order given.
    Face(FaceRef, FaceRef, FaceRef),
    /// A line that holds none of the four.
    Ignored,
}

impl View for Record {
    type V = Entry;

    open spec fn view(&self) -> Entry {
        match self {
            Record::Position(p) => Entry::Position(p@),
            Record::TexCoord(t) => Entry::TexCoord(t@),
            Record::Normal(n) => Entry::Normal(n@),
            Record::Face(a, b, c) => Entry::Face(a@, b@, c@),
            Record::Ignored => Entry::Ignored,
        }
    }
}

/// The corner that a token of a face writes: three indices with a `/` between
/// them. `None` where the token is anything else.
pub open spec fn corner_of(token: Seq<char>) -> Option<Corner> {
    let parts = split(token, '/');
    if parts.len() == 3 && index_value(parts[0]) is Some && index_value(parts[1]) is Some
        && index_value(parts[2]) is Some {
        Some(
            Corner {
                position: index_value(parts[0]).unwrap(),
                texcoord: index_value(parts[1]).unwrap(),
                normal: index_value(parts[2]).unwrap(),
            },
        )
    } else {
        None
    }
}

/// The texture coordinate that the tokens behind a tag write: exactly two
/// literals of floating-point numbers.
pub open spec fn pair_of(payload: Seq<Seq<char>>) -> Option<Pair> {
    if payload.len() == 2 && is_float_literal(payload[0]) && is_float_literal(payload[1]) {
        Some(Pair { x: payload[0], y: payload[1] })
    } else {
        None
    }
}

/// The position or normal that the tokens behind a tag write: exactly three
/// literals of floating-point numbers.
pub open spec fn triple_of(payload: Seq<Seq<char>>) -> Option<Triple> {
    if payload.len() == 3 && is_float_literal(payload[0]) && is_float_literal(payload[1])
        && is_float_literal(payload[2]) {
        Some(Triple { x: payload[0], y: payload[1], z: payload[2] })
    } else {
        None
    }
}

/// The triangle that the tokens behind a tag write: exactly three corners.
pub open spec fn face_of(payload: Seq<Seq<char>>) -> Option<Entry> {
    if payload.len() == 3 && corner_of(payload[0]) is Some && corner_of(payload[1]) is Some
        && corner_of(payload[2]) is Some {
        Some(
            Entry::Face(
                corner_of(payload[0]).unwrap(),
                corner_of(payload[1]).unwrap(),
                corner_of(payload[2]).unwrap(),
            ),
        )
    } else {
        None
    }
}

/// What a line says; `None` where its tag is one of the four and what
/// follows is not what the tag asks for.
pub open spec fn entry_of(line: Seq<char>) -> Option<Entry> {
    let t = tokens(line);
    if t.len() == 0 {
        Some(Entry::Ignored)
    } else if t[0] == seq!['v'] {
        match triple_of(t.skip(1)) {
            Some(p) => Some(Entry::Position(p)),
            None => None,
        }
    } else if t[0] == seq!['v', 't'] {
        match pair_of(t.skip(1)) {
            Some(p) => Some(Entry::TexCoord(p)),
            None => None,
        }
    } else if t[0] == seq!['v', 'n'] {
        match triple_of(t.skip(1)) {
            Some(p) => Some(Entry::Normal(p)),
            None => None,
        }
    } else if t[0] == seq!['f'] {
        face_of(t.skip(1))
    } else {
        Some(Entry::Ignored)
    }
}

/// Whether a line is ignored: it is blank, or its tag is none of the four.
pub open spec fn is_ignored(line: Seq<char>) -> bool {
    entry_of(line) == Some(Entry::Ignored)
}

/// What reading a line gives on this machine: the entry, `MalformedRecord`
/// where there is none, and `IndexOutOfRange` for a face with an index
/// that a machine word does not hold, since no table is that long.
pub open spec fn record_outcome(line: Seq<char>) -> Result<Entry, LoadError> {
    match entry_of(line) {
        None => Err(LoadError::MalformedRecord),
        Some(e) => if e.fits() {
            Ok(e)
        } else {
            Err(LoadError::IndexOutOfRange)
        },
    }
}

/// What reading one corner gives on this machine, in the same way.
pub open spec fn corner_outcome(token: Seq<char>) -> Result<Corner, LoadError> {
    match corner_of(token) {
        None => Err(LoadError::MalformedRecord),
        Some(c) => if c.fits() {
            Ok(c)
        } else {
            Err(LoadError::IndexOutOfRange)
        },
    }
}

/// Tests whether a result is the error of a malformed record.
fn is_malformed<T>(r: &Result<T, LoadError>) -> (b: bool)
    ensures
        b == (*r == Err::<T, LoadError>(LoadError::MalformedRecord)),
{
    match r {
        Err(LoadError::MalformedRecord) => true,
        _ => false,
    }
}

/// Reads the corner that stands in `from..to` of `chars`.
pub fn corner_at(chars: &Vec<char>, from: usize, to: usize) -> (r: Result<FaceRef, LoadError>)
    requires
        from <= to <= chars.len(),
    ensures
        outcome_view(r) == corner_outcome(chars@.subrange(from as int, to as int)),
{
    let ghost s0 = chars@.subrange(from as int, to as int);
    let a = find(chars, from, to, '/');
    if a == to {
        return Err(LoadError::MalformedRecord);
    }
    let ghost s1 = chars@.subrange(a + 1, to as int);
    assert(s0.skip(a - from + 1) == s1);
    assert(s0.take(a - from) == chars@.subrange(from as int, a as int));
    let b = find(chars, a + 1, to, '/');
    if b == to {
        assert(split(s1, '/') == seq![s1]);
        assert(split(s0, '/').len() == 2);
        return Err(LoadError::MalformedRecord);
    }
    let ghost s2 = chars@.subrange(b + 1, to as int);
    assert(s1.skip(b - (a + 1) + 1) == s2);
    assert(s1.take(b - (a + 1)) == chars@.subrange(a + 1, b as int));
    let c = find(chars, b + 1, to, '/');
    if c != to {
        assert(split(s2, '/').len() >= 2) by {
            assert(split(s2.skip(c - (b + 1) + 1), '/').len() >= 1);
        }
        assert(split(s1, '/').len() >= 3);
        assert(split(s0, '/').len() >= 4);
        return Err(LoadError::MalformedRecord);
    }
    assert(split(s2, '/') == seq![s2]);
    assert(split(s1, '/') == seq![chars@.subrange(a + 1, b as int), s2]);
    assert(split(s0, '/') == seq![
        chars@.subrange(from as int, a as int),
        chars@.subrange(a + 1, b as int),
        s2,
    ]);
    let p = index_at(chars, from, a);
    let t = index_at(chars, a + 1, b);
    let n = index_at(chars, b + 1, to);
    if is_malformed(&p) || is_malformed(&t) || is_malformed(&n) {
        return Err(LoadError::MalformedRecord);
    }
    match (p, t, n) {
        (Ok(position), Ok(texcoord), Ok(normal)) => Ok(FaceRef { position, texcoord, normal }),
        _ => Err(LoadError::IndexOutOfRange),
    }
}

/// Tests whether the span is the one-letter tag `c`.
fn is_tag1(chars: &Vec<char>, span: Span, c: char) -> (r: bool)
    requires
        span.start <= span.end <= chars.len(),
    ensures
        r == (span.of(chars@) == seq![c]),
{
    let ghost s = span.of(chars@);
    if span.end - span.start == 1 && chars[span.start] == c {
        assert(s == seq![c]);
        true
    } else {
        if span.end - span.start == 1 {
            assert(s[0] == chars@[span.start as int]);
            assert(seq![c][0] == c);
        } else {
            assert(seq![c].len() == 1);
        }
        false
    }
}

/// Tests whether the span is the two-letter tag `c`, `d`.
fn is_tag2(chars: &Vec<char>, span: Span, c: char, d: char) -> (r: bool)
    requires
        span.start <= span.end <= chars.len(),
    ensures
        r == (span.of(chars@) == seq![c, d]),
{
    let ghost s = span.of(chars@);
    if span.end - span.start == 2 && chars[span.start] == c && chars[span.start + 1] == d {
        assert(s == seq![c, d]);
        true
    } else {
        if span.end - span.start == 2 {
            assert(s[0] == chars@[span.start as int]);
            assert(s[1] == chars@[span.start + 1]);
            assert(seq![c, d][0] == c);
            assert(seq![c, d][1] == d);
        } else {
            assert(seq![c, d].len() == 2);
        }
        false
    }
}

/// Reads three literals from the spans behind the tag.
fn triple_at(chars: &Vec<char>, spans: &Vec<Span>, Ghost(t): Ghost<Seq<Seq<char>>>) -> (r: Option<
    Vec3,
>)
    requires
        spans@.len() == t.len(),
        t.len() >= 1,
        forall|k: int|
            0 <= k < spans@.len() ==> {
                &&& (#[trigger] spans@[k]).start <= spans@[k].end <= chars.len()
                &&& spans@[k].of(chars@) == t[k]
            },
    ensures
        match triple_of(t.skip(1)) {
            Some(p) => r is Some && r.unwrap()@ == p,
            None => r is None,
        },
{
    if spans.len() != 4 {
        return None;
    }
    let (a, b, c) = (spans[1], spans[2], spans[3]);
    assert(t.skip(1)[0] == t[1] && t.skip(1)[1] == t[2] && t.skip(1)[2] == t[3]);
    if float_at(chars, a.start, a.end) && float_at(chars, b.start, b.end) && float_at(
        chars,
        c.start,
        c.end,
    ) {
        Some(
            Vec3 {
                x: to_text(chars, a.start, a.end),
                y: to_text(chars, b.start, b.end),
                z: to_text(chars, c.start, c.end),
            },
        )
    } else {
        None
    }
}

/// Reads two literals from the spans behind the tag.
fn pair_at(chars: &Vec<char>, spans: &Vec<Span>, Ghost(t): Ghost<Seq<Seq<char>>>) -> (r: Option<
    Vec2,
>)
    requires
        spans@.len() == t.len(),
        t.len() >= 1,
        forall|k: int|
            0 <= k < spans@.len() ==> {
                &&& (#[trigger] spans@[k]).start <= spans@[k].end <= chars.len()
                &&& spans@[k].of(chars@) == t[k]
            },
    ensures
        match pair_of(t.skip(1)) {
            Some(p) => r is Some && r.unwrap()@ == p,
            None => r is None,
        },
{
    if spans.len() != 3 {
        return None;
    }
    let (a, b) = (spans[1], spans[2]);
    assert(t.skip(1)[0] == t[1] && t.skip(1)[1] == t[2]);
    if float_at(chars, a.start, a.end) && float_at(chars, b.start, b.end) {
        Some(Vec2 { x: to_text(chars, a.start, a.end), y: to_text(chars, b.start, b.end) })
    } else {
        None
    }
}

/// Reads three corners from the spans behind the tag.
fn face_at(chars: &Vec<char>, spans: &Vec<Span>, Ghost(t): Ghost<Seq<Seq<char>>>) -> (r: Result<
    Record,
    LoadError,
>)
    requires
        spans@.len() == t.len(),
        t.len() >= 1,
        forall|k: int|
            0 <= k < spans@.len() ==> {
                &&& (#[trigger] spans@[k]).start <= spans@[k].end <= chars.len()
                &&& spans@[k].of(chars@) == t[k]
            },
    ensures
        outcome_view(r) == match face_of(t.skip(1)) {
            None => Err(LoadError::MalformedRecord),
            Some(e) => if e.fits() {
                Ok(e)
            } else {
                Err(LoadError::IndexOutOfRange)
            },
        },
{
    if spans.len() != 4 {
        return Err(LoadError::MalformedRecord);
    }
    let (a, b, c) = (spans[1], spans[2], spans[3]);
    assert(t.skip(1)[0] == t[1] && t.skip(1)[1] == t[2] && t.skip(1)[2] == t[3]);
    let ra = corner_at(chars, a.start, a.end);
    let rb = corner_at(chars, b.start, b.end);
    let rc = corner_at(chars, c.start, c.end);
    if is_malformed(&ra) || is_malformed(&rb) || is_malformed(&rc) {
        return Err(LoadError::MalformedRecord);
    }
    match (ra, rb, rc) {
        (Ok(x), Ok(y), Ok(z)) => Ok(Record::Face(x, y, z)),
        _ => Err(LoadError::IndexOutOfRange),
    }
}

/// Reads the line that stands in `from..to` of `chars`.
pub fn record_at(chars: &Vec<char>, from: usize, to: usize) -> (r: Result<Record, LoadError>)
    requires
        from <= to <= chars.len(),
    ensures
        outcome_view(r) == record_outcome(chars@.subrange(from as int, to as int)),
{
    let ghost line = chars@.subrange(from as int, to as int);
    let ghost t = tokens(line);
    let spans = token_spans(chars, from, to);
    if spans.len() == 0 {
        return Ok(Record::Ignored);
    }
    let tag = spans[0];
    if is_tag1(chars, tag, 'v') {
        match triple_at(chars, &spans, Ghost(t)) {
            Some(p) => Ok(Record::Position(p)),
            None => Err(LoadError::MalformedRecord),
        }
    } else if is_tag2(chars, tag, 'v', 't') {
        match pair_at(chars, &spans, Ghost(t)) {
            Some(p) => Ok(Record::TexCoord(p)),
            None => Err(LoadError::MalformedRecord),
        }
    } else if is_tag2(chars, tag, 'v', 'n') {
        match triple_at(chars, &spans, Ghost(t)) {
            Some(p) => Ok(Record::Normal(p)),
            None => Err(LoadError::MalformedRecord),
        }
    } else if is_tag1(chars, tag, 'f') {
        face_at(chars, &spans, Ghost(t))
    } else {
        Ok(Record::Ignored)
    }
}

/// Reads one line. The line is taken whole: a line feed in it is whitespace
/// like any other.
pub fn parse_record(line: &str) -> (r: Result<Record, LoadError>)
    ensures
        outcome_view(r) == record_outcome(line@),
{
    let chars = to_chars(line);
    assert(chars@.subrange(0, chars@.len() as int) == chars@);
    record_at(&chars, 0, chars.len())
}

} // verus!
