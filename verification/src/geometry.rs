//! The values that a mesh is made of.
//!
//! A coordinate is kept as the decimal literal that the file gave for it. The
//! executable types hold the literals as `String`; their views hold them as
//! `Seq<char>`, and the contracts speak of the views.

use vstd::prelude::*;

verus! {

/// The view of a texture coordinate: two literals.
pub struct Pair {
    pub x: Seq<char>,
    pub y: Seq<char>,
}

/// The view of a position or of a normal: three literals.
pub struct Triple {
    pub x: Seq<char>,
    pub y: Seq<char>,
    pub z: Seq<char>,
}

/// The view of one corner of a face: an index into each of the three tables,
/// counted from 1 and not bounded.
pub struct Corner {
    pub position: nat,
    pub texcoord: nat,
    pub normal: nat,
}

impl Corner {
    /// Whether a machine word holds each of the three indices.
    pub open spec fn fits(self) -> bool {
        self.position <= usize::MAX && self.texcoord <= usize::MAX && self.normal <= usize::MAX
    }

    /// Whether each index names an entry of a table of the given length.
    pub open spec fn in_range(self, positions: nat, texcoords: nat, normals: nat) -> bool {
        &&& 1 <= self.position <= positions
        &&& 1 <= self.texcoord <= texcoords
        &&& 1 <= self.normal <= normals
    }
}

/// A texture coordinate.
#[derive(Clone, Debug, PartialEq, Eq)]
pub struct Vec2 {
    pub x: String,
    pub y: String,
}

/// A position or a normal.
#[derive(Clone, Debug, PartialEq, Eq)]
pub struct Vec3 {
    pub x: String,
    pub y: String,
    pub z: String,
}

/// One corner of a face: an index into each of the three tables, counted
/// from 1.
#[derive(Clone, Copy, Debug, PartialEq, Eq, Structural)]
pub struct FaceRef {
    pub position: usize,
    pub texcoord: usize,
    pub normal: usize,
}

impl View for Vec2 {
    type V = Pair;

    open spec fn view(&self) -> Pair {
        Pair { x: self.x@, y: self.y@ }
    }
}

impl View for Vec3 {
    type V = Triple;

    open spec fn view(&self) -> Triple {
        Triple { x: self.x@, y: self.y@, z: self.z@ }
    }
}

impl View for FaceRef {
    type V = Corner;

    open spec fn view(&self) -> Corner {
        Corner {
            position: self.position as nat,
            texcoord: self.texcoord as nat,
            normal: self.normal as nat,
        }
    }
}

impl Vec2 {
    /// A copy with the same literals.
    pub fn copy(&self) -> (r: Vec2)
        ensures
            r@ == self@,
    {
        Vec2 { x: self.x.clone(), y: self.y.clone() }
    }
}

impl Vec3 {
    /// A copy with the same literals.
    pub fn copy(&self) -> (r: Vec3)
        ensures
            r@ == self@,
    {
        Vec3 { x: self.x.clone(), y: self.y.clone(), z: self.z.clone() }
    }
}

/// The views of a sequence of texture coordinates.
pub open spec fn pairs(s: Seq<Vec2>) -> Seq<Pair> {
    Seq::new(s.len(), |i: int| s[i]@)
}

/// The views of a sequence of positions or normals.
pub open spec fn triples(s: Seq<Vec3>) -> Seq<Triple> {
    Seq::new(s.len(), |i: int| s[i]@)
}

/// The views of a sequence of face corners.
pub open spec fn corners(s: Seq<FaceRef>) -> Seq<Corner> {
    Seq::new(s.len(), |i: int| s[i]@)
}

/// Three sequences of attributes: the view of the tables that a file fills,
/// and of the mesh that comes out.
pub struct Attributes {
    pub positions: Seq<Triple>,
    pub texcoords: Seq<Pair>,
    pub normals: Seq<Triple>,
}

impl Attributes {
    /// Whether the three sequences are those of `faces` triangles: each holds
    /// three elements for each of them.
    pub open spec fn is_triangles(self, faces: nat) -> bool {
        &&& self.positions.len() == 3 * faces
        &&& self.texcoords.len() == 3 * faces
        &&& self.normals.len() == 3 * faces
    }
}

/// The raw attribute tables: what the `v`, `vt` and `vn` records of a file
/// gave, each kind in the order of the file.
#[derive(Clone, Debug, PartialEq, Eq)]
pub struct Tables {
    pub positions: Vec<Vec3>,
    pub texcoords: Vec<Vec2>,
    pub normals: Vec<Vec3>,
}

/// A flattened mesh: one position, texture coordinate and normal for each
/// corner of each face. Three consecutive elements make one triangle.
#[derive(Clone, Debug, PartialEq, Eq)]
pub struct Mesh {
    pub positions: Vec<Vec3>,
    pub texcoords: Vec<Vec2>,
    pub normals: Vec<Vec3>,
}

impl View for Tables {
    type V = Attributes;

    open spec fn view(&self) -> Attributes {
        Attributes {
            positions: triples(self.positions@),
            texcoords: pairs(self.texcoords@),
            normals: triples(self.normals@),
        }
    }
}

impl View for Mesh {
    type V = Attributes;

    open spec fn view(&self) -> Attributes {
        Attributes {
            positions: triples(self.positions@),
            texcoords: pairs(self.texcoords@),
            normals: triples(self.normals@),
        }
    }
}

} // verus!
