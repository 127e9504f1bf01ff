//! Loading a mesh from the text of a geometry file.
//!
//! The text is read once, line by line: each `v`, `vt` and `vn` record adds an
//! entry to its table, each `f` record adds three corners to the list of face
//! references. When the whole text is read, each corner is resolved against
//! the tables, in the order in which the corners were collected. A face may
//! therefore stand before the entries that it names.

use vstd::prelude::*;
use crate::error::{outcome_view, LoadError, Policy};
use crate::geometry::{
    corners, pairs, triples, Attributes, Corner, FaceRef, Mesh, Pair, Tables, Triple, Vec2, Vec3,
};
use crate::record::{entry_of, record_at, Entry, Record};
use crate::text::{find, lines, split, to_chars};

verus! {

/// The positions that the lines give, in their order.
pub open spec fn positions_of(ls: Seq<Seq<char>>) -> Seq<Triple>
    decreases ls.len(),
{
    if ls.len() == 0 {
        Seq::empty()
    } else {
        let before = positions_of(ls.drop_last());
        match entry_of(ls.last()) {
            Some(Entry::Position(p)) => before.push(p),
            _ => before,
        }
    }
}

/// The texture coordinates that the lines give, in their order.
pub open spec fn texcoords_of(ls: Seq<Seq<char>>) -> Seq<Pair>
    decreases ls.len(),
{
    if ls.len() == 0 {
        Seq::empty()
    } else {
        let before = texcoords_of(ls.drop_last());
        match entry_of(ls.last()) {
            Some(Entry::TexCoord(p)) => before.push(p),
            _ => before,
        }
    }
}

/// The normals that the lines give, in their order.
pub open spec fn normals_of(ls: Seq<Seq<char>>) -> Seq<Triple>
    decreases ls.len(),
{
    if ls.len() == 0 {
        Seq::empty()
    } else {
        let before = normals_of(ls.drop_last());
        match entry_of(ls.last()) {
            Some(Entry::Normal(p)) => before.push(p),
            _ => before,
        }
    }
}

/// The face references that the lines give: the three corners of each face,
/// face after face in the order of the lines.
pub open spec fn corners_of(ls: Seq<Seq<char>>) -> Seq<Corner>
    decreases ls.len(),
{
    if ls.len() == 0 {
        Seq::empty()
    } else {
        let before = corners_of(ls.drop_last());
        match entry_of(ls.last()) {
            Some(Entry::Face(a, b, c)) => before.push(a).push(b).push(c),
            _ => before,
        }
    }
}

/// Number of lines that hold a face.
pub open spec fn face_count(ls: Seq<Seq<char>>) -> nat
    decreases ls.len(),
{
    if ls.len() == 0 {
        0
    } else {
        let before = face_count(ls.drop_last());
        match entry_of(ls.last()) {
            Some(Entry::Face(_, _, _)) => before + 1,
            _ => before,
        }
    }
}

/// The raw attribute tables that the lines fill.
pub open spec fn tables_of(ls: Seq<Seq<char>>) -> Attributes {
    Attributes {
        positions: positions_of(ls),
        texcoords: texcoords_of(ls),
        normals: normals_of(ls),
    }
}

/// Whether one of the lines is a malformed record.
pub open spec fn has_malformed(ls: Seq<Seq<char>>) -> bool {
    exists|i: int| 0 <= i < ls.len() && entry_of(#[trigger] ls[i]) is None
}

/// Whether a machine word holds every index of every corner.
pub open spec fn all_fit(cs: Seq<Corner>) -> bool {
    forall|k: int| 0 <= k < cs.len() ==> (#[trigger] cs[k]).fits()
}

/// Whether every index of every corner names an entry of its table.
pub open spec fn all_in_range(cs: Seq<Corner>, t: Attributes) -> bool {
    forall|k: int|
        0 <= k < cs.len() ==> (#[trigger] cs[k]).in_range(
            t.positions.len(),
            t.texcoords.len(),
            t.normals.len(),
        )
}

/// The flattened mesh: for each corner, in order, the entry of each table
/// that the corner names.
pub open spec fn flatten(t: Attributes, cs: Seq<Corner>) -> Attributes {
    Attributes {
        positions: Seq::new(cs.len(), |k: int| t.positions[cs[k].position - 1]),
        texcoords: Seq::new(cs.len(), |k: int| t.texcoords[cs[k].texcoord - 1]),
        normals: Seq::new(cs.len(), |k: int| t.normals[cs[k].normal - 1]),
    }
}

/// What resolving the corners against the tables gives: the flattened mesh,
/// or `IndexOutOfRange` where an index names no entry.
pub open spec fn resolved(t: Attributes, cs: Seq<Corner>) -> Result<Attributes, LoadError> {
    if all_in_range(cs, t) {
        Ok(flatten(t, cs))
    } else {
        Err(LoadError::IndexOutOfRange)
    }
}

/// What reading the lines gives: the tables and the face references, or
/// `MalformedRecord` where the policy is strict and a line is malformed.
/// Under the lenient policy a malformed line adds nothing.
pub open spec fn scanned(ls: Seq<Seq<char>>, policy: Policy) -> Result<
    (Attributes, Seq<Corner>),
    LoadError,
> {
    if policy == Policy::Strict && has_malformed(ls) {
        Err(LoadError::MalformedRecord)
    } else {
        Ok((tables_of(ls), corners_of(ls)))
    }
}

/// What loading the lines gives.
pub open spec fn loaded_lines(ls: Seq<Seq<char>>, policy: Policy) -> Result<
    Attributes,
    LoadError,
> {
    match scanned(ls, policy) {
        Err(e) => Err(e),
        Ok((t, cs)) => resolved(t, cs),
    }
}

/// What loading a text gives: the flattened mesh of its lines, or the error.
/// A malformed record is reported before an index out of range, wherever the
/// two stand in the text.
pub open spec fn loaded(text: Seq<char>, policy: Policy) -> Result<Attributes, LoadError> {
    loaded_lines(lines(text), policy)
}

/// One more corner fits with the others when it fits and they do.
pub proof fn lemma_all_fit_push(cs: Seq<Corner>, c: Corner)
    ensures
        all_fit(cs.push(c)) == (all_fit(cs) && c.fits()),
{
    let ext = cs.push(c);
    if all_fit(cs) && c.fits() {
        assert forall|k: int| 0 <= k < ext.len() implies (#[trigger] ext[k]).fits() by {
            if k < cs.len() {
                assert(ext[k] == cs[k]);
            }
        }
    } else if !c.fits() {
        assert(ext[cs.len() as int] == c);
    } else {
        let k = choose|k: int| 0 <= k < cs.len() && !(#[trigger] cs[k]).fits();
        assert(ext[k] == cs[k]);
    }
}

/// What one more line adds to the tables, the face references and the count
/// of faces.
pub proof fn lemma_push_line(ls: Seq<Seq<char>>, line: Seq<char>)
    ensures
        positions_of(ls.push(line)) == match entry_of(line) {
            Some(Entry::Position(p)) => positions_of(ls).push(p),
            _ => positions_of(ls),
        },
        texcoords_of(ls.push(line)) == match entry_of(line) {
            Some(Entry::TexCoord(p)) => texcoords_of(ls).push(p),
            _ => texcoords_of(ls),
        },
        normals_of(ls.push(line)) == match entry_of(line) {
            Some(Entry::Normal(p)) => normals_of(ls).push(p),
            _ => normals_of(ls),
        },
        corners_of(ls.push(line)) == match entry_of(line) {
            Some(Entry::Face(a, b, c)) => corners_of(ls).push(a).push(b).push(c),
            _ => corners_of(ls),
        },
        face_count(ls.push(line)) == match entry_of(line) {
            Some(Entry::Face(_, _, _)) => face_count(ls) + 1,
            _ => face_count(ls),
        },
        has_malformed(ls.push(line)) == (has_malformed(ls) || entry_of(line) is None),
{
    let ext = ls.push(line);
    assert(ext.drop_last() == ls);
    assert(ext.last() == line);
    if has_malformed(ls) {
        let i = choose|i: int| 0 <= i < ls.len() && entry_of(#[trigger] ls[i]) is None;
        assert(ext[i] == ls[i]);
    }
    if entry_of(line) is None {
        assert(ext[ls.len() as int] == line);
    }
    if has_malformed(ext) {
        let i = choose|i: int| 0 <= i < ext.len() && entry_of(#[trigger] ext[i]) is None;
        if i < ls.len() {
            assert(ext[i] == ls[i]);
        }
    }
}

/// Each face gives three face references.
pub proof fn lemma_three_corners_per_face(ls: Seq<Seq<char>>)
    ensures
        corners_of(ls).len() == 3 * face_count(ls),
    decreases ls.len(),
{
    if ls.len() > 0 {
        lemma_three_corners_per_face(ls.drop_last());
    }
}

/// Reads the records of `text` into the raw attribute tables and the list of
/// face references. Nothing is resolved yet, so an index is not held against
/// its table here, with one exception: an index that a machine word does not
/// hold lies behind the end of every table, and fails the call with
/// `IndexOutOfRange` once the whole text is read without another error.
pub fn scan(text: &str, policy: Policy) -> (r: Result<(Tables, Vec<FaceRef>), LoadError>)
    ensures
        match scanned(lines(text@), policy) {
            Err(e) => r == Err::<(Tables, Vec<FaceRef>), LoadError>(e),
            Ok((t, cs)) => if all_fit(cs) {
                r is Ok && r.unwrap().0@ == t && corners(r.unwrap().1@) == cs
            } else {
                r == Err::<(Tables, Vec<FaceRef>), LoadError>(LoadError::IndexOutOfRange)
                    && !all_in_range(cs, t)
            },
        },
{
    let chars = to_chars(text);
    let n = chars.len();
    let mut positions: Vec<Vec3> = Vec::new();
    let mut texcoords: Vec<Vec2> = Vec::new();
    let mut normals: Vec<Vec3> = Vec::new();
    let mut refs: Vec<FaceRef> = Vec::new();
    let mut beyond = false;
    let mut from: usize = 0;
    let mut finished = false;
    let ghost mut done: Seq<Seq<char>> = Seq::empty();
    assert(chars@.subrange(0, n as int) == text@);
    while !finished
        invariant
            n == chars.len(),
            chars@ == text@,
            from <= n,
            finished ==> done == lines(text@),
            !finished ==> lines(text@) == done + split(chars@.subrange(from as int, n as int), '\n'),
            triples(positions@) == positions_of(done),
            pairs(texcoords@) == texcoords_of(done),
            triples(normals@) == normals_of(done),
            beyond == !all_fit(corners_of(done)),
            !beyond ==> corners(refs@) == corners_of(done),
            policy == Policy::Strict ==> !has_malformed(done),
        decreases n - from, if finished { 0int } else { 1int },
    {
        let ghost rest = chars@.subrange(from as int, n as int);
        let end = find(&chars, from, n, '\n');
        let ghost line = chars@.subrange(from as int, end as int);
        let record = record_at(&chars, from, end);
        proof {
            assert(rest.take(end - from) == line);
            lemma_push_line(done, line);
            if end < n {
                assert(rest.skip(end - from + 1) == chars@.subrange(end + 1, n as int));
                assert(done + (seq![line] + split(chars@.subrange(end + 1, n as int), '\n'))
                    == done.push(line) + split(chars@.subrange(end + 1, n as int), '\n'));
            } else {
                assert(rest == line);
                assert(done + seq![line] == done.push(line));
            }
        }
        match record {
            Ok(Record::Position(p)) => {
                assert(triples(positions@.push(p)) == triples(positions@).push(p@));
                positions.push(p);
            },
            Ok(Record::TexCoord(p)) => {
                assert(pairs(texcoords@.push(p)) == pairs(texcoords@).push(p@));
                texcoords.push(p);
            },
            Ok(Record::Normal(p)) => {
                assert(triples(normals@.push(p)) == triples(normals@).push(p@));
                normals.push(p);
            },
            Ok(Record::Face(a, b, c)) => {
                proof {
                    let cs = corners_of(done);
                    lemma_all_fit_push(cs, a@);
                    lemma_all_fit_push(cs.push(a@), b@);
                    lemma_all_fit_push(cs.push(a@).push(b@), c@);
                    assert(corners(refs@.push(a).push(b).push(c)) == corners(refs@).push(a@).push(
                        b@,
                    ).push(c@));
                }
                refs.push(a);
                refs.push(b);
                refs.push(c);
            },
            Ok(Record::Ignored) => {},
            Err(LoadError::MalformedRecord) => {
                if policy == Policy::Strict {
                    assert(lines(text@)[done.len() as int] == line);
                    return Err(LoadError::MalformedRecord);
                }
            },
            Err(_) => {
                proof {
                    let cs = corners_of(done);
                    let e = entry_of(line).unwrap();
                    assert(e is Face);
                    let a = e->Face_0;
                    let b = e->Face_1;
                    let c = e->Face_2;
                    lemma_all_fit_push(cs, a);
                    lemma_all_fit_push(cs.push(a), b);
                    lemma_all_fit_push(cs.push(a).push(b), c);
                }
                beyond = true;
            },
        }
        proof {
            done = done.push(line);
        }
        if end < n {
            from = end + 1;
        } else {
            finished = true;
        }
    }
    if beyond {
        proof {
            let cs = corners_of(done);
            let k = choose|k: int| 0 <= k < cs.len() && !(#[trigger] cs[k]).fits();
            assert(positions_of(done).len() == triples(positions@).len() == positions.len());
            assert(texcoords_of(done).len() == pairs(texcoords@).len() == texcoords.len());
            assert(normals_of(done).len() == triples(normals@).len() == normals.len());
            assert(!cs[k].in_range(
                positions_of(done).len(),
                texcoords_of(done).len(),
                normals_of(done).len(),
            ));
        }
        return Err(LoadError::IndexOutOfRange);
    }
    Ok((Tables { positions, texcoords, normals }, refs))
}

/// Resolves each face reference against the tables and flattens the result:
/// element `k` of each sequence of the mesh is the entry that corner `k`
/// names. An index of 0, or one behind the end of its table, fails the whole
/// call; no entry is put in its place.
pub fn resolve(tables: &Tables, refs: &Vec<FaceRef>) -> (r: Result<Mesh, LoadError>)
    ensures
        outcome_view(r) == resolved(tables@, corners(refs@)),
{
    let ghost t = tables@;
    let ghost cs = corners(refs@);
    let mut positions: Vec<Vec3> = Vec::new();
    let mut texcoords: Vec<Vec2> = Vec::new();
    let mut normals: Vec<Vec3> = Vec::new();
    let mut k: usize = 0;
    while k < refs.len()
        invariant
            k <= refs.len(),
            t == tables@,
            cs == corners(refs@),
            forall|j: int|
                0 <= j < k ==> (#[trigger] cs[j]).in_range(
                    t.positions.len(),
                    t.texcoords.len(),
                    t.normals.len(),
                ),
            triples(positions@) == Seq::new(k as nat, |j: int| t.positions[cs[j].position - 1]),
            pairs(texcoords@) == Seq::new(k as nat, |j: int| t.texcoords[cs[j].texcoord - 1]),
            triples(normals@) == Seq::new(k as nat, |j: int| t.normals[cs[j].normal - 1]),
        decreases refs.len() - k,
    {
        let c = refs[k];
        assert(cs[k as int] == c@);
        if c.position == 0 || c.position > tables.positions.len() || c.texcoord == 0 || c.texcoord
            > tables.texcoords.len() || c.normal == 0 || c.normal > tables.normals.len() {
            assert(!cs[k as int].in_range(
                t.positions.len(),
                t.texcoords.len(),
                t.normals.len(),
            ));
            return Err(LoadError::IndexOutOfRange);
        }
        let p = tables.positions[c.position - 1].copy();
        let u = tables.texcoords[c.texcoord - 1].copy();
        let m = tables.normals[c.normal - 1].copy();
        assert(p@ == t.positions[cs[k as int].position - 1]);
        assert(u@ == t.texcoords[cs[k as int].texcoord - 1]);
        assert(m@ == t.normals[cs[k as int].normal - 1]);
        assert(triples(positions@.push(p)) == triples(positions@).push(p@));
        assert(pairs(texcoords@.push(u)) == pairs(texcoords@).push(u@));
        assert(triples(normals@.push(m)) == triples(normals@).push(m@));
        assert(triples(positions@.push(p)) == Seq::new(
            (k + 1) as nat,
            |j: int| t.positions[cs[j].position - 1],
        ));
        assert(pairs(texcoords@.push(u)) == Seq::new(
            (k + 1) as nat,
            |j: int| t.texcoords[cs[j].texcoord - 1],
        ));
        assert(triples(normals@.push(m)) == Seq::new(
            (k + 1) as nat,
            |j: int| t.normals[cs[j].normal - 1],
        ));
        positions.push(p);
        texcoords.push(u);
        normals.push(m);
        k += 1;
    }
    let mesh = Mesh { positions, texcoords, normals };
    assert(mesh@ == flatten(t, cs));
    Ok(mesh)
}

/// Loads the mesh that `text` describes, under the given policy.
pub fn load_with(text: &str, policy: Policy) -> (r: Result<Mesh, LoadError>)
    ensures
        outcome_view(r) == loaded(text@, policy),
        r matches Ok(mesh) ==> mesh@.is_triangles(face_count(lines(text@))),
{
    proof {
        lemma_three_corners_per_face(lines(text@));
    }
    match scan(text, policy) {
        Err(e) => Err(e),
        Ok((tables, refs)) => resolve(&tables, &refs),
    }
}

/// Loads the mesh that `text` describes. A malformed record fails the load.
pub fn load(text: &str) -> (r: Result<Mesh, LoadError>)
    ensures
        outcome_view(r) == loaded(text@, Policy::Strict),
        r matches Ok(mesh) ==> mesh@.is_triangles(face_count(lines(text@))),
{
    load_with(text, Policy::Strict)
}

/// Loads the mesh from what a caller read of a file: the text, or `None`
/// where the file is missing or could not be read.
pub fn load_contents(contents: Option<&str>, policy: Policy) -> (r: Result<Mesh, LoadError>)
    ensures
        outcome_view(r) == match contents {
            None => Err(LoadError::Io),
            Some(text) => loaded(text@, policy),
        },
        r matches Ok(mesh) ==> contents matches Some(text) && mesh@.is_triangles(
            face_count(lines(text@)),
        ),
{
    match contents {
        None => Err(LoadError::Io),
        Some(text) => load_with(text, policy),
    }
}

} // verus!
