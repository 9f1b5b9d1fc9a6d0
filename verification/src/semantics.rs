//! Flat mesh data: vertices and faces with no remaining hierarchy.

use vstd::prelude::*;

verus! {

/// A flat-mesh vertex: position and texture coordinates in micro-units.
#[derive(Debug, Clone, Copy, PartialEq)]
pub struct Vertex {
    pub position: (i64, i64, i64),
    pub uv: (i64, i64),
}

/// A face over a flat mesh's vertex table, with its material name.
#[derive(Debug, Clone, PartialEq)]
pub enum MeshFace {
    /// Exactly four vertex indices.
    Quad(u32, u32, u32, u32, String),
    /// Any number of vertex indices.
    Poly(Vec<u32>, String),
}

/// A mesh with every vertex already in world space and no hierarchy left.
#[derive(Debug, Clone)]
pub struct FlatMesh {
    pub vertices: Vec<Vertex>,
    pub faces: Vec<MeshFace>,
}

/// The index sequence of a face.
pub open spec fn face_indices(f: MeshFace) -> Seq<int> {
    match f {
        MeshFace::Quad(a, b, c, d, _) => seq![a as int, b as int, c as int, d as int],
        MeshFace::Poly(v, _) => v@.map_values(|k: u32| k as int),
    }
}

/// The material name of a face.
pub open spec fn face_mat(f: MeshFace) -> Seq<char> {
    match f {
        MeshFace::Quad(_, _, _, _, m) => m@,
        MeshFace::Poly(_, m) => m@,
    }
}

} // verus!
