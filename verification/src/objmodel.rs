//! Exporter-boundary data model: meshes, triangle faces and materials in
//! the shape a geometry/material writer consumes. Colors are micro-unit
//! scalars.

use vstd::prelude::*;

verus! {

/// A material record for the exporter: name, ambient, diffuse and specular
/// colors, and an optional texture name.
#[derive(Debug)]
pub struct Material {
    pub name: String,
    pub ka: (i64, i64, i64),
    pub kd: (i64, i64, i64),
    pub ks: (i64, i64, i64),
    pub texture: Option<String>,
}

/// A triangle face by vertex indices.
#[derive(Debug, Clone, Copy, PartialEq, Eq, Structural)]
pub struct Face {
    pub v1: usize,
    pub v2: usize,
    pub v3: usize,
}

/// One mesh for the exporter: vertices, triangle faces, materials and one
/// material index per face.
#[derive(Debug)]
pub struct Mesh {
    pub name: String,
    pub vertices: Vec<(i64, i64, i64)>,
    pub faces: Vec<Face>,
    pub materials: Vec<Material>,
    pub face_material_indices: Vec<usize>,
}

/// A whole model: its meshes.
#[derive(Debug)]
pub struct Model {
    pub meshes: Vec<Mesh>,
}

/// A mesh the exporter can write without reading outside any table: one
/// material index per face, all face indices inside the vertex table, all
/// material indices inside the material table.
pub open spec fn mesh_wf(m: Mesh) -> bool {
    &&& m.face_material_indices@.len() == m.faces@.len()
    &&& forall|i: int|
        0 <= i < m.faces@.len() ==> (#[trigger] m.faces@[i]).v1 < m.vertices@.len()
            && m.faces@[i].v2 < m.vertices@.len() && m.faces@[i].v3 < m.vertices@.len()
    &&& forall|i: int|
        0 <= i < m.face_material_indices@.len() ==> (#[trigger] m.face_material_indices@[i])
            < m.materials@.len()
}

impl Mesh {
    /// Check that every face and material reference resolves, so a writer
    /// needs no further bounds checks.
    pub fn well_formed(&self) -> (r: bool)
        ensures
            r == mesh_wf(*self),
    {
        if self.face_material_indices.len() != self.faces.len() {
            return false;
        }
        let nv = self.vertices.len();
        let nm = self.materials.len();
        let mut i: usize = 0;
        while i < self.faces.len()
            invariant
                i <= self.faces@.len(),
                nv == self.vertices@.len(),
                nm == self.materials@.len(),
                self.face_material_indices@.len() == self.faces@.len(),
                forall|j: int|
                    0 <= j < i ==> (#[trigger] self.faces@[j]).v1 < nv && self.faces@[j].v2 < nv
                        && self.faces@[j].v3 < nv,
                forall|j: int|
                    0 <= j < i ==> (#[trigger] self.face_material_indices@[j]) < nm,
            decreases self.faces@.len() - i,
        {
            let f = self.faces[i];
            if f.v1 >= nv || f.v2 >= nv || f.v3 >= nv {
                return false;
            }
            if self.face_material_indices[i] >= nm {
                return false;
            }
            i = i + 1;
        }
        proof {
            assert(forall|j: int|
                0 <= j < self.face_material_indices@.len()
                    ==> (#[trigger] self.face_material_indices@[j]) < nm);
        }
        true
    }
}

} // verus!
