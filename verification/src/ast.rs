//! Scene-tree data model: vertices, faces, meshes, materials, transforms and
//! objects, with their mathematical models.
//!
//! All scalars are micro-unit fixed-point numbers (see [`crate::fx`]).

use vstd::prelude::*;

verus! {

/// A vertex: position, and texture coordinates when the source gave them.
/// UV absence is distinct from UV zero.
#[derive(Debug, Clone, Copy, PartialEq)]
pub struct RwxVertex {
    pub x: i64,
    pub y: i64,
    pub z: i64,
    pub u: Option<i64>,
    pub v: Option<i64>,
}

/// A face: ordered vertex indices, local to the owning mesh.
#[derive(Debug, Clone)]
pub struct RwxFace {
    pub indices: Vec<u32>,
}

#[derive(Debug, Clone)]
pub struct RwxMesh {
    pub vertices: Vec<RwxVertex>,
    pub faces: Vec<RwxFace>,
}

/// Material state: texture name and optional color and surface parameters.
#[derive(Debug, Clone)]
pub struct RwxMaterial {
    pub texture: Option<String>,
    pub opacity: Option<i64>,
    pub ambient: Option<(i64, i64, i64)>,
    pub diffuse: Option<(i64, i64, i64)>,
    pub specular: Option<(i64, i64, i64)>,
    pub emissive: Option<(i64, i64, i64)>,
    pub shininess: Option<i64>,
}

/// A local transform: each absent component is the identity for that
/// component. Rotation is an angle in micro-degrees with an axis.
#[derive(Debug, Clone)]
pub struct RwxTransform {
    pub translate: Option<(i64, i64, i64)>,
    pub rotate: Option<(i64, i64, i64, i64)>,
    pub scale: Option<(i64, i64, i64)>,
}

/// A scene-tree node.
#[derive(Debug)]
pub struct RwxObject {
    pub name: String,
    pub mesh: Option<RwxMesh>,
    pub material: Option<RwxMaterial>,
    pub transform: Option<RwxTransform>,
    pub children: Vec<RwxObject>,
}

/// Model of a vertex.
pub ghost struct VertM {
    pub x: int,
    pub y: int,
    pub z: int,
    pub u: Option<int>,
    pub v: Option<int>,
}

/// Model of a mesh: vertices, and faces as index sequences.
pub ghost struct MeshM {
    pub vertices: Seq<VertM>,
    pub faces: Seq<Seq<int>>,
}

/// Model of a parsed object: its name and its mesh.
pub ghost struct ObjM {
    pub name: Seq<char>,
    pub mesh: MeshM,
}

pub open spec fn vert_model(v: RwxVertex) -> VertM {
    VertM {
        x: v.x as int,
        y: v.y as int,
        z: v.z as int,
        u: match v.u {
            Some(n) => Some(n as int),
            None => None,
        },
        v: match v.v {
            Some(n) => Some(n as int),
            None => None,
        },
    }
}

pub open spec fn face_model(f: RwxFace) -> Seq<int> {
    f.indices@.map_values(|k: u32| k as int)
}

pub open spec fn verts_model(vs: Seq<RwxVertex>) -> Seq<VertM> {
    vs.map_values(|v: RwxVertex| vert_model(v))
}

pub open spec fn faces_model(fs: Seq<RwxFace>) -> Seq<Seq<int>> {
    fs.map_values(|f: RwxFace| face_model(f))
}

pub open spec fn mesh_model(m: RwxMesh) -> MeshM {
    MeshM { vertices: verts_model(m.vertices@), faces: faces_model(m.faces@) }
}

/// Model of an object that carries only a name and a mesh, as the
/// structural parser produces them.
pub open spec fn obj_model(o: RwxObject) -> ObjM {
    ObjM {
        name: o.name@,
        mesh: match o.mesh {
            Some(m) => mesh_model(m),
            None => MeshM { vertices: Seq::empty(), faces: Seq::empty() },
        },
    }
}

pub open spec fn objs_model(os: Seq<RwxObject>) -> Seq<ObjM> {
    os.map_values(|o: RwxObject| obj_model(o))
}

/// A bare parsed object: mesh present, no material, no transform, no
/// children.
pub open spec fn obj_is_bare(o: RwxObject) -> bool {
    &&& o.mesh is Some
    &&& o.material is None
    &&& o.transform is None
    &&& o.children@.len() == 0
}

} // verus!
