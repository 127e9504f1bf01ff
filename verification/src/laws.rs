//! What holds of every load, proved from the definitions in `object` and
//! `text`.
//!
//! The first proof functions speak of a text and of the text that a change
//! makes of it; the lemmas behind them speak of sequences of lines.

use vstd::prelude::*;
use crate::error::{LoadError, Policy};
use crate::geometry::{Attributes, Corner, Pair, Triple};
use crate::object::{
    all_in_range, corners_of, face_count, flatten, has_malformed, lemma_push_line,
    lemma_three_corners_per_face, loaded, loaded_lines, normals_of, positions_of, scanned,
    tables_of, texcoords_of,
};
use crate::record::{entry_of, is_ignored, Entry};
use crate::text::{
    free_of, join, lemma_join_split, lemma_split_join, lemma_split_pieces, lines,
};

verus! {

/// Whether a line holds a face.
pub open spec fn is_face(line: Seq<char>) -> bool {
    entry_of(line) matches Some(Entry::Face(_, _, _))
}

/// Where the elements of the face in line `i` start in each sequence of the
/// mesh: there are three for each face in an earlier line.
pub open spec fn face_start(ls: Seq<Seq<char>>, i: int) -> int {
    3 * (face_count(ls.take(i)) as int)
}

/// Whether every index of every corner of the face in `line` names an entry
/// of its table, for tables of the given lengths.
pub open spec fn face_in_range(
    line: Seq<char>,
    positions: nat,
    texcoords: nat,
    normals: nat,
) -> bool {
    forall|r: int|
        0 <= r < 3 ==> (#[trigger] entry_of(line).unwrap().corners()[r]).in_range(
            positions,
            texcoords,
            normals,
        )
}

/// The lines with those at `i` and `j` exchanged.
pub open spec fn exchanged(ls: Seq<Seq<char>>, i: int, j: int) -> Seq<Seq<char>> {
    ls.update(i, ls[j]).update(j, ls[i])
}

/// Where element `k` of a mesh comes from when the faces whose elements
/// start at `p` and at `q` are exchanged.
pub open spec fn source(k: int, p: int, q: int) -> int {
    if p <= k < p + 3 {
        k - p + q
    } else if q <= k < q + 3 {
        k - q + p
    } else {
        k
    }
}

/// Whether a load gave after an exchange what it gave before it, but for the
/// triangles that start at `p` and at `q`, which have changed places. A load
/// that failed has failed in the same way.
pub open spec fn triangles_exchanged(
    before: Result<Attributes, LoadError>,
    after: Result<Attributes, LoadError>,
    p: int,
    q: int,
) -> bool {
    match before {
        Err(e) => after == Err::<Attributes, LoadError>(e),
        Ok(mesh) => {
            &&& after matches Ok(other)
            &&& other.positions.len() == mesh.positions.len()
            &&& other.texcoords.len() == mesh.texcoords.len()
            &&& other.normals.len() == mesh.normals.len()
            &&& forall|k: int|
                0 <= k < mesh.positions.len() ==> {
                    &&& 0 <= source(k, p, q) < mesh.positions.len()
                    &&& #[trigger] other.positions[k] == mesh.positions[source(k, p, q)]
                    &&& other.texcoords[k] == mesh.texcoords[source(k, p, q)]
                    &&& other.normals[k] == mesh.normals[source(k, p, q)]
                }
        },
    }
}

/// A text is its lines, joined by line feeds.
pub proof fn text_is_its_lines_joined(text: Seq<char>)
    ensures
        join(lines(text), '\n') == text,
{
    lemma_join_split(text, '\n');
}

/// A mesh that was loaded holds three positions, three texture coordinates
/// and three normals for each face record of the text.
pub proof fn three_vertices_per_face(text: Seq<char>, policy: Policy)
    ensures
        loaded(text, policy) matches Ok(mesh) ==> mesh.is_triangles(face_count(lines(text))),
{
    lemma_three_corners_per_face(lines(text));
}

/// Where a mesh was loaded, the face in line `i` of the text gives the three
/// elements that follow those of the faces in earlier lines. Element `r` of
/// them is, in each sequence, the entry of the
/// table that corner `r` of the face names, as the text gives it: there is
/// such an entry, and no other is put in its place.
pub proof fn emitted_vertex_follows_face_reference(text: Seq<char>, policy: Policy, i: int, r: int)
    requires
        loaded(text, policy) is Ok,
        0 <= i < lines(text).len(),
        is_face(lines(text)[i]),
        0 <= r < 3,
    ensures
        ({
            let ls = lines(text);
            let mesh = loaded(text, policy).unwrap();
            let k = face_start(ls, i) + r;
            let corner = entry_of(ls[i]).unwrap().corners()[r];
            &&& k < mesh.positions.len() == mesh.texcoords.len() == mesh.normals.len()
            &&& corner.in_range(
                positions_of(ls).len(),
                texcoords_of(ls).len(),
                normals_of(ls).len(),
            )
            &&& mesh.positions[k] == positions_of(ls)[corner.position - 1]
            &&& mesh.texcoords[k] == texcoords_of(ls)[corner.texcoord - 1]
            &&& mesh.normals[k] == normals_of(ls)[corner.normal - 1]
        }),
{
    let ls = lines(text);
    lemma_face_position(ls, i);
    let k = face_start(ls, i) + r;
    assert(corners_of(ls)[k].in_range(
        positions_of(ls).len(),
        texcoords_of(ls).len(),
        normals_of(ls).len(),
    ));
}

/// A text in which two lines that hold faces change places loads as the text
/// did, with the two triangles exchanged in each sequence of the mesh and
/// every other element in its place. A load that fails, fails in the same way.
pub proof fn reordered_faces_reorder_triangles(text: Seq<char>, i: int, j: int, policy: Policy)
    requires
        0 <= i < j < lines(text).len(),
        is_face(lines(text)[i]),
        is_face(lines(text)[j]),
    ensures
        triangles_exchanged(
            loaded(text, policy),
            loaded(join(exchanged(lines(text), i, j), '\n'), policy),
            face_start(lines(text), i),
            face_start(lines(text), j),
        ),
{
    lemma_lines_exchanged(text, i, j);
    lemma_exchange_lines(lines(text), i, j, policy);
}

/// A text with one more ignored line, put before any of its lines or behind
/// the last, loads as the text without it does. Blank lines, comments and
/// records of other tags are such lines.
pub proof fn ignored_line_changes_nothing(text: Seq<char>, i: int, line: Seq<char>, policy: Policy)
    requires
        0 <= i <= lines(text).len(),
        is_ignored(line),
        free_of(line, '\n'),
    ensures
        loaded(join(lines(text).insert(i, line), '\n'), policy) == loaded(
            text,
            policy,
        ),
{
    let ls = lines(text);
    let longer = ls.insert(i, line);
    lemma_split_pieces(text, '\n');
    assert forall|k: int| 0 <= k < longer.len() implies free_of(
        #[trigger] longer[k],
        '\n',
    ) by {
        if k < i {
            assert(longer[k] == ls[k]);
        } else if k > i {
            assert(longer[k] == ls[k - 1]);
        }
    }
    lemma_split_join(longer, '\n');
    lemma_insert_ignored(ls, i, line, policy);
}

/// A face with an index of 0, or with an index behind the end of its table,
/// fails the load with `IndexOutOfRange`: so does a position index greater
/// than the number of `v` records. The tables are those of the whole text. Under the strict policy this is said
/// of texts without a malformed record, which is reported first.
pub proof fn out_of_range_index_fails(text: Seq<char>, policy: Policy, i: int)
    requires
        !(policy == Policy::Strict && has_malformed(lines(text))),
        0 <= i < lines(text).len(),
        is_face(lines(text)[i]),
        !face_in_range(
            lines(text)[i],
            positions_of(lines(text)).len(),
            texcoords_of(lines(text)).len(),
            normals_of(lines(text)).len(),
        ),
    ensures
        loaded(text, policy) == Err::<Attributes, LoadError>(LoadError::IndexOutOfRange),
{
    let ls = lines(text);
    lemma_face_position(ls, i);
    let r = choose|r: int|
        0 <= r < 3 && !(#[trigger] entry_of(ls[i]).unwrap().corners()[r]).in_range(
            positions_of(ls).len(),
            texcoords_of(ls).len(),
            normals_of(ls).len(),
        );
    let k = face_start(ls, i) + r;
    assert(corners_of(ls)[k] == entry_of(ls[i]).unwrap().corners()[r]);
}

/// A load fails with `IndexOutOfRange` only where a face names an index of 0
/// or one behind the end of its table.
pub proof fn index_error_names_a_face(text: Seq<char>, policy: Policy)
    requires
        loaded(text, policy) == Err::<Attributes, LoadError>(LoadError::IndexOutOfRange),
    ensures
        !(policy == Policy::Strict && has_malformed(lines(text))),
        exists|i: int|
            0 <= i < lines(text).len() && is_face(#[trigger] lines(text)[i]) && !face_in_range(
                lines(text)[i],
                positions_of(lines(text)).len(),
                texcoords_of(lines(text)).len(),
                normals_of(lines(text)).len(),
            ),
{
    let ls = lines(text);
    let cs = corners_of(ls);
    let t = tables_of(ls);
    let k = choose|k: int|
        0 <= k < cs.len() && !(#[trigger] cs[k]).in_range(
            t.positions.len(),
            t.texcoords.len(),
            t.normals.len(),
        );
    lemma_corner_origin(ls, k);
    let i = choose|i: int|
        0 <= i < ls.len() && is_face(#[trigger] ls[i]) && face_start(ls, i) <= k < face_start(ls, i)
            + 3;
    lemma_face_position(ls, i);
    let r = k - face_start(ls, i);
    assert(cs[face_start(ls, i) + r] == entry_of(ls[i]).unwrap().corners()[r]);
}

/// What two runs of lines give together is what the first gives, then what
/// the second gives.
pub proof fn lemma_concat(a: Seq<Seq<char>>, b: Seq<Seq<char>>)
    ensures
        positions_of(a + b) == positions_of(a) + positions_of(b),
        texcoords_of(a + b) == texcoords_of(a) + texcoords_of(b),
        normals_of(a + b) == normals_of(a) + normals_of(b),
        corners_of(a + b) == corners_of(a) + corners_of(b),
        face_count(a + b) == face_count(a) + face_count(b),
        has_malformed(a + b) == (has_malformed(a) || has_malformed(b)),
    decreases b.len(),
{
    if b.len() == 0 {
        assert(a + b == a);
        assert(positions_of(a) + positions_of(b) == positions_of(a));
        assert(texcoords_of(a) + texcoords_of(b) == texcoords_of(a));
        assert(normals_of(a) + normals_of(b) == normals_of(a));
        assert(corners_of(a) + corners_of(b) == corners_of(a));
    } else {
        let b0 = b.drop_last();
        let x = b.last();
        lemma_concat(a, b0);
        assert(a + b == (a + b0).push(x));
        assert(b == b0.push(x));
        lemma_push_line(a + b0, x);
        lemma_push_line(b0, x);
        match entry_of(x) {
            Some(Entry::Position(p)) => {
                assert((positions_of(a) + positions_of(b0)).push(p) == positions_of(a)
                    + positions_of(b0).push(p));
            },
            Some(Entry::TexCoord(p)) => {
                assert((texcoords_of(a) + texcoords_of(b0)).push(p) == texcoords_of(a)
                    + texcoords_of(b0).push(p));
            },
            Some(Entry::Normal(p)) => {
                assert((normals_of(a) + normals_of(b0)).push(p) == normals_of(a) + normals_of(
                    b0,
                ).push(p));
            },
            Some(Entry::Face(u, v, w)) => {
                assert((corners_of(a) + corners_of(b0)).push(u).push(v).push(w) == corners_of(a)
                    + corners_of(b0).push(u).push(v).push(w));
            },
            _ => {},
        }
    }
}

/// What a single line gives.
pub proof fn lemma_single(x: Seq<char>)
    ensures
        positions_of(seq![x]) == match entry_of(x) {
            Some(Entry::Position(p)) => seq![p],
            _ => Seq::empty(),
        },
        texcoords_of(seq![x]) == match entry_of(x) {
            Some(Entry::TexCoord(p)) => seq![p],
            _ => Seq::empty(),
        },
        normals_of(seq![x]) == match entry_of(x) {
            Some(Entry::Normal(p)) => seq![p],
            _ => Seq::empty(),
        },
        corners_of(seq![x]) == match entry_of(x) {
            Some(Entry::Face(a, b, c)) => seq![a, b, c],
            _ => Seq::empty(),
        },
        face_count(seq![x]) == match entry_of(x) {
            Some(Entry::Face(_, _, _)) => 1nat,
            _ => 0nat,
        },
        has_malformed(seq![x]) == (entry_of(x) is None),
{
    let e = Seq::<Seq<char>>::empty();
    assert(seq![x] == e.push(x));
    lemma_push_line(e, x);
    assert(!has_malformed(e));
}

/// Each face reference comes from a line that holds a face: it is one of the
/// three that the line gives.
pub proof fn lemma_corner_origin(ls: Seq<Seq<char>>, k: int)
    requires
        0 <= k < corners_of(ls).len(),
    ensures
        exists|i: int|
            0 <= i < ls.len() && is_face(#[trigger] ls[i]) && face_start(ls, i) <= k < face_start(
                ls,
                i,
            ) + 3,
    decreases ls.len(),
{
    let before = ls.drop_last();
    let last = ls.len() - 1;
    lemma_three_corners_per_face(before);
    assert(ls.take(last) == before);
    if k < corners_of(before).len() {
        lemma_corner_origin(before, k);
        let i = choose|i: int|
            0 <= i < before.len() && is_face(#[trigger] before[i]) && face_start(before, i) <= k
                < face_start(before, i) + 3;
        assert(ls[i] == before[i]);
        assert(ls.take(i) == before.take(i));
    } else {
        assert(is_face(ls[last]));
    }
}

/// In the list of face references, the three corners of the face in line `i`
/// stand behind those of the faces in earlier lines, in the order in which
/// the line gives them.
pub proof fn lemma_face_position(ls: Seq<Seq<char>>, i: int)
    requires
        0 <= i < ls.len(),
        is_face(ls[i]),
    ensures
        face_start(ls, i) + 3 <= corners_of(ls).len(),
        forall|r: int|
            0 <= r < 3 ==> corners_of(ls)[face_start(ls, i) + r] == entry_of(
                ls[i],
            ).unwrap().corners()[r],
{
    let a = ls.take(i);
    let x = ls[i];
    let c = ls.skip(i + 1);
    assert(ls == a + seq![x] + c);
    lemma_concat(a + seq![x], c);
    lemma_concat(a, seq![x]);
    lemma_single(x);
    lemma_three_corners_per_face(a);
    let cs = corners_of(ls);
    let p = face_start(ls, i);
    assert forall|r: int| 0 <= r < 3 implies cs[p + r] == entry_of(x).unwrap().corners()[r] by {
        assert(cs[p + r] == (corners_of(a) + corners_of(seq![x]))[p + r]);
    }
}

/// An ignored line changes nothing, wherever it is put among the lines.
pub proof fn lemma_insert_ignored(ls: Seq<Seq<char>>, i: int, line: Seq<char>, policy: Policy)
    requires
        0 <= i <= ls.len(),
        is_ignored(line),
    ensures
        scanned(ls.insert(i, line), policy) == scanned(ls, policy),
        loaded_lines(ls.insert(i, line), policy) == loaded_lines(ls, policy),
        face_count(ls.insert(i, line)) == face_count(ls),
{
    let a = ls.take(i);
    let b = ls.skip(i);
    assert(ls == a + b);
    assert(ls.insert(i, line) == a + seq![line] + b);
    lemma_concat(a, b);
    lemma_concat(a + seq![line], b);
    lemma_concat(a, seq![line]);
    lemma_single(line);
    assert(positions_of(a) + Seq::<Triple>::empty() == positions_of(a));
    assert(texcoords_of(a) + Seq::<Pair>::empty() == texcoords_of(a));
    assert(normals_of(a) + Seq::<Triple>::empty() == normals_of(a));
    assert(corners_of(a) + Seq::<Corner>::empty() == corners_of(a));
}

/// What lines give when a face `x` stands among them, between the lines `a`
/// and the lines `b`.
pub proof fn lemma_around_face(a: Seq<Seq<char>>, x: Seq<char>, b: Seq<Seq<char>>)
    requires
        is_face(x),
    ensures
        tables_of(a + seq![x] + b) == tables_of(a + b),
        has_malformed(a + seq![x] + b) == has_malformed(a + b),
        face_count(a + seq![x] + b) == face_count(a) + 1 + face_count(b),
        corners_of(a + seq![x] + b) == corners_of(a) + entry_of(x).unwrap().corners() + corners_of(
            b,
        ),
{
    lemma_single(x);
    lemma_concat(a, seq![x]);
    lemma_concat(a + seq![x], b);
    lemma_concat(a, b);
    assert(positions_of(a) + Seq::<Triple>::empty() == positions_of(a));
    assert(texcoords_of(a) + Seq::<Pair>::empty() == texcoords_of(a));
    assert(normals_of(a) + Seq::<Triple>::empty() == normals_of(a));
}

/// A face has three corners.
pub proof fn lemma_face_has_three_corners(e: Entry)
    requires
        e is Face,
    ensures
        e.corners().len() == 3,
{
}

/// What lines give when two faces `x` and `y` stand among them.
#[verifier::rlimit(40)]
pub proof fn lemma_around_two_faces(
    a: Seq<Seq<char>>,
    x: Seq<char>,
    b: Seq<Seq<char>>,
    y: Seq<char>,
    c: Seq<Seq<char>>,
)
    requires
        is_face(x),
        is_face(y),
    ensures
        tables_of(a + seq![x] + b + seq![y] + c) == tables_of(a + b + c),
        has_malformed(a + seq![x] + b + seq![y] + c) == has_malformed(a + b + c),
        face_count(a + seq![x] + b + seq![y] + c) == face_count(a + b + c) + 2,
        face_count(a + seq![x] + b) == face_count(a) + 1 + face_count(b),
        corners_of(a + seq![x] + b + seq![y] + c) == corners_of(a) + entry_of(
            x,
        ).unwrap().corners() + corners_of(b) + entry_of(y).unwrap().corners() + corners_of(c),
        corners_of(a).len() == 3 * face_count(a),
        corners_of(b).len() == 3 * face_count(b),
        entry_of(x).unwrap().corners().len() == 3,
        entry_of(y).unwrap().corners().len() == 3,
{
    let ab = a + b;
    let axb = a + seq![x] + b;
    lemma_around_face(a, x, b);
    lemma_around_face(axb, y, c);
    lemma_concat(axb, c);
    lemma_concat(ab, c);
    lemma_concat(a, b);
    lemma_face_has_three_corners(entry_of(x).unwrap());
    lemma_face_has_three_corners(entry_of(y).unwrap());
    lemma_three_corners_per_face(a);
    lemma_three_corners_per_face(b);
    assert(positions_of(axb + c) == positions_of(ab + c));
    assert(texcoords_of(axb + c) == texcoords_of(ab + c));
    assert(normals_of(axb + c) == normals_of(ab + c));
}

/// Exchanging two blocks of three in a sequence moves each element of the
/// one block to the place that it had in the other, and no other element.
pub proof fn lemma_exchange_blocks<T>(a: Seq<T>, x: Seq<T>, b: Seq<T>, y: Seq<T>, c: Seq<T>)
    requires
        x.len() == 3,
        y.len() == 3,
    ensures
        (a + y + b + x + c).len() == (a + x + b + y + c).len(),
        forall|k: int|
            0 <= k < (a + x + b + y + c).len() ==> #[trigger] (a + y + b + x + c)[k] == (a + x + b
                + y + c)[source(k, a.len() as int, (a.len() + 3 + b.len()) as int)],
{
    let s = a + x + b + y + c;
    let w = a + y + b + x + c;
    let p = a.len() as int;
    let q = (a.len() + 3 + b.len()) as int;
    assert forall|k: int| 0 <= k < s.len() implies #[trigger] w[k] == s[source(k, p, q)] by {
        if k < p {
            assert(w[k] == a[k]);
            assert(s[k] == a[k]);
        } else if k < p + 3 {
            assert(w[k] == y[k - p]);
            assert(s[k - p + q] == y[k - p]);
        } else if k < q {
            assert(w[k] == b[k - p - 3]);
            assert(s[k] == b[k - p - 3]);
        } else if k < q + 3 {
            assert(w[k] == x[k - q]);
            assert(s[k - q + p] == x[k - q]);
        } else {
            assert(w[k] == c[k - q - 3]);
            assert(s[k] == c[k - q - 3]);
        }
    }
}

/// The shape of a sequence around two of its elements, before and after the
/// two change places.
pub proof fn lemma_exchange_shape(ls: Seq<Seq<char>>, i: int, j: int)
    requires
        0 <= i < j < ls.len(),
    ensures
        ({
            let a = ls.take(i);
            let b = ls.subrange(i + 1, j);
            let c = ls.skip(j + 1);
            &&& ls == a + seq![ls[i]] + b + seq![ls[j]] + c
            &&& exchanged(ls, i, j) == a + seq![ls[j]] + b + seq![ls[i]] + c
            &&& ls.take(j) == a + seq![ls[i]] + b
            &&& exchanged(ls, i, j).take(j) == a + seq![ls[j]] + b
            &&& exchanged(ls, i, j).take(i) == a
        }),
{
}

/// Exchanging two faces among lines leaves the tables as they are and
/// exchanges the corners of the two faces in the list of face references.
#[verifier::rlimit(40)]
pub proof fn lemma_exchange_parts(
    a: Seq<Seq<char>>,
    x: Seq<char>,
    b: Seq<Seq<char>>,
    y: Seq<char>,
    c: Seq<Seq<char>>,
)
    requires
        is_face(x),
        is_face(y),
    ensures
        ({
            let s = a + seq![x] + b + seq![y] + c;
            let w = a + seq![y] + b + seq![x] + c;
            let p = 3 * (face_count(a) as int);
            let q = 3 * (face_count(a + seq![x] + b) as int);
            &&& tables_of(w) == tables_of(s)
            &&& has_malformed(w) == has_malformed(s)
            &&& face_count(w) == face_count(s)
            &&& face_count(a + seq![y] + b) == face_count(a + seq![x] + b)
            &&& corners_of(w).len() == corners_of(s).len()
            &&& p + 3 <= q
            &&& q + 3 <= corners_of(s).len()
            &&& forall|k: int|
                0 <= k < corners_of(s).len() ==> #[trigger] corners_of(w)[k] == corners_of(
                    s,
                )[source(k, p, q)]
        }),
{
    let s = a + seq![x] + b + seq![y] + c;
    let w = a + seq![y] + b + seq![x] + c;
    let ca = corners_of(a);
    let cb = corners_of(b);
    let cc = corners_of(c);
    let cx = entry_of(x).unwrap().corners();
    let cy = entry_of(y).unwrap().corners();
    lemma_around_two_faces(a, x, b, y, c);
    lemma_around_two_faces(a, y, b, x, c);
    lemma_exchange_blocks(ca, cx, cb, cy, cc);
    assert(corners_of(s) == ca + cx + cb + cy + cc);
    assert(corners_of(w) == ca + cy + cb + cx + cc);
    assert(tables_of(w) == tables_of(s));
}

/// Exchanging two lines that hold faces leaves the tables as they are and
/// exchanges the corners of the two faces in the list of face references.
pub proof fn lemma_exchange_faces(ls: Seq<Seq<char>>, i: int, j: int)
    requires
        0 <= i < j < ls.len(),
        is_face(ls[i]),
        is_face(ls[j]),
    ensures
        tables_of(exchanged(ls, i, j)) == tables_of(ls),
        has_malformed(exchanged(ls, i, j)) == has_malformed(ls),
        face_count(exchanged(ls, i, j)) == face_count(ls),
        face_start(exchanged(ls, i, j), i) == face_start(ls, i),
        face_start(exchanged(ls, i, j), j) == face_start(ls, j),
        corners_of(exchanged(ls, i, j)).len() == corners_of(ls).len(),
        face_start(ls, i) + 3 <= face_start(ls, j),
        face_start(ls, j) + 3 <= corners_of(ls).len(),
        forall|k: int|
            0 <= k < corners_of(ls).len() ==> #[trigger] corners_of(exchanged(ls, i, j))[k]
                == corners_of(ls)[source(k, face_start(ls, i), face_start(ls, j))],
{
    lemma_exchange_shape(ls, i, j);
    lemma_exchange_parts(ls.take(i), ls[i], ls.subrange(i + 1, j), ls[j], ls.skip(j + 1));
}

/// Exchanging two lines that hold faces exchanges the two triangles in the
/// mesh and changes nothing else; a load that fails, fails in the same way.
pub proof fn lemma_exchange_lines(ls: Seq<Seq<char>>, i: int, j: int, policy: Policy)
    requires
        0 <= i < j < ls.len(),
        is_face(ls[i]),
        is_face(ls[j]),
    ensures
        triangles_exchanged(
            loaded_lines(ls, policy),
            loaded_lines(exchanged(ls, i, j), policy),
            face_start(ls, i),
            face_start(ls, j),
        ),
{
    let sw = exchanged(ls, i, j);
    let p = face_start(ls, i);
    let q = face_start(ls, j);
    lemma_exchange_faces(ls, i, j);
    let t = tables_of(ls);
    let cs = corners_of(ls);
    let cw = corners_of(sw);
    if !(policy == Policy::Strict && has_malformed(ls)) {
        if all_in_range(cs, t) {
            assert forall|k: int| 0 <= k < cw.len() implies (#[trigger] cw[k]).in_range(
                t.positions.len(),
                t.texcoords.len(),
                t.normals.len(),
            ) by {
                assert(cw[k] == cs[source(k, p, q)]);
            }
            let mesh = flatten(t, cs);
            let other = flatten(t, cw);
            assert forall|k: int| 0 <= k < mesh.positions.len() implies {
                &&& 0 <= source(k, p, q) < mesh.positions.len()
                &&& #[trigger] other.positions[k] == mesh.positions[source(k, p, q)]
                &&& other.texcoords[k] == mesh.texcoords[source(k, p, q)]
                &&& other.normals[k] == mesh.normals[source(k, p, q)]
            } by {
                assert(cw[k] == cs[source(k, p, q)]);
            }
        } else {
            let k = choose|k: int|
                0 <= k < cs.len() && !(#[trigger] cs[k]).in_range(
                    t.positions.len(),
                    t.texcoords.len(),
                    t.normals.len(),
                );
            let k2 = source(k, p, q);
            assert(source(k2, p, q) == k);
            assert(cw[k2] == cs[k]);
        }
    }
}

/// The lines of a text stay lines when two of them change places.
pub proof fn lemma_lines_exchanged(text: Seq<char>, i: int, j: int)
    requires
        0 <= i < j < lines(text).len(),
    ensures
        lines(join(exchanged(lines(text), i, j), '\n')) == exchanged(lines(text), i, j),
{
    let ls = lines(text);
    let sw = exchanged(ls, i, j);
    lemma_split_pieces(text, '\n');
    assert forall|k: int| 0 <= k < sw.len() implies free_of(#[trigger] sw[k], '\n') by {
        if k == i {
            assert(sw[k] == ls[j]);
        } else if k == j {
            assert(sw[k] == ls[i]);
        } else {
            assert(sw[k] == ls[k]);
        }
    }
    lemma_split_join(sw, '\n');
}

} // verus!
