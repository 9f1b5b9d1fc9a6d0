//! The core entry point: RWX text in, flattened and normalized world-space
//! geometry out.
//!
//! The stages run in order: lexing, structural parsing, scene flattening,
//! mesh normalization. Vertex coordinates are clamped into the scalar range
//! when the scene tree is built; tokens produced by the lexer are already
//! within it.

use vstd::prelude::*;

use crate::ast::{ObjM, RwxObject, VertM};
use crate::fx::{fx_ok, sat, FX_MAX};
use crate::lexer::{lex, lex_from, toks_view};
use crate::meshnorm::{
    dedup_verts, face_ok, first_bad_index, normalize, remap_idx, tris_model, MeshError,
    NormalizedMesh, TriM,
};
use crate::parser::{parse_spec, ParseError, Parser, PErrM};
use crate::scene::{
    apply_s, combine_s, flat_models, flatten_s, identity_s, node_model, node_wf, nodes_model,
    NodeM, RwxNode, RwxScene, RwxTransform,
};
use crate::semantics::{face_indices, face_mat, FlatMesh, MeshFace, Vertex};

verus! {

broadcast use vstd::seq::group_seq_axioms;

/// A fatal pipeline error.
#[derive(Debug, Clone)]
pub enum CoreError {
    /// The structural parser aborted.
    Parse(ParseError),
    /// A face referenced a vertex index outside its node's vertex table.
    Mesh(MeshError),
    /// A node carried more vertices than face indices can address.
    TooManyVertices,
}

/// A flattened node with a normalized mesh: world-space vertices,
/// triangle-only faces, and the composed transform that produced them.
#[derive(Debug, Clone)]
pub struct FlattenedNode {
    pub name: String,
    pub vertices: Vec<Vertex>,
    pub faces: Vec<MeshFace>,
    pub transform: RwxTransform,
}

/// A parsed vertex as a flat-mesh vertex: coordinates clamped into the
/// scalar range, absent texture coordinates read as zero.
pub open spec fn vert_flat(vm: VertM) -> Vertex {
    Vertex {
        position: (sat(vm.x) as i64, sat(vm.y) as i64, sat(vm.z) as i64),
        uv: (
            match vm.u {
                Some(n) => sat(n) as i64,
                None => 0,
            },
            match vm.v {
                Some(n) => sat(n) as i64,
                None => 0,
            },
        ),
    }
}

/// The flat-mesh vertex table of a parsed object.
pub open spec fn om_verts(om: ObjM) -> Seq<Vertex> {
    om.mesh.vertices.map_values(|vm: VertM| vert_flat(vm))
}

/// The triangles one face of a parsed object contributes, remapped onto
/// the deduplicated table; the material reference is empty.
pub open spec fn om_face_tris(idx: Seq<int>, vs: Seq<Vertex>) -> Seq<TriM> {
    Seq::new(
        (idx.len() - 2) as nat,
        |t: int|
            TriM {
                a: remap_idx(vs, idx[0]),
                b: remap_idx(vs, idx[t + 1]),
                c: remap_idx(vs, idx[t + 2]),
                mat: Seq::empty(),
            },
    )
}

/// The normalized face list of a parsed object from face `k` onward.
pub open spec fn om_norm_faces(fs: Seq<Seq<int>>, vs: Seq<Vertex>, k: int) -> Result<
    Seq<TriM>,
    MeshError,
>
    decreases fs.len() - k,
{
    if k < 0 || k >= fs.len() {
        Ok(Seq::empty())
    } else if fs[k].len() < 3 {
        om_norm_faces(fs, vs, k + 1)
    } else if !face_ok(fs[k], vs) {
        Err(MeshError { face: k as usize, index: first_bad_index(fs[k], vs) as u32 })
    } else {
        match om_norm_faces(fs, vs, k + 1) {
            Ok(rest) => Ok(om_face_tris(fs[k], vs) + rest),
            Err(e) => Err(e),
        }
    }
}

/// A parsed object flattens and normalizes without error.
pub open spec fn om_ok(om: ObjM) -> bool {
    &&& om.mesh.vertices.len() <= u32::MAX as int
    &&& om_norm_faces(om.mesh.faces, om_verts(om), 0) is Ok
}

/// The triangles of a parsed object's normalized mesh.
pub open spec fn om_tris(om: ObjM) -> Seq<TriM> {
    match om_norm_faces(om.mesh.faces, om_verts(om), 0) {
        Ok(trs) => trs,
        Err(_) => Seq::empty(),
    }
}

/// The parsed objects a text denotes, when it parses.
pub open spec fn parsed_objs(text: Seq<char>) -> Result<Seq<ObjM>, PErrM> {
    parse_spec(lex_from(text, 0))
}

/// Parse RWX text and hand back one flattened, normalized node per parsed
/// object: deduplicated world-space vertices, fan-triangulated faces, and
/// the identity transform objects carry out of the parser.
pub fn parse_and_flatten(text: &str) -> (r: Result<Vec<FlattenedNode>, CoreError>)
    ensures
        r is Ok <==> (parsed_objs(text@) matches Ok(oms) && (forall|k: int|
            0 <= k < oms.len() ==> om_ok(#[trigger] oms[k]))),
        (r matches Err(CoreError::Parse(pe)) ==> (parsed_objs(text@) matches Err(e) && pe@ == e)),
        (r matches Err(CoreError::Mesh(me)) ==> (parsed_objs(text@) matches Ok(oms) && exists|
            k: int,
        |
            0 <= k < oms.len() && (om_norm_faces(
                (#[trigger] oms[k]).mesh.faces,
                om_verts(oms[k]),
                0,
            ) matches Err(e2) && me == e2))),
        (r matches Err(CoreError::TooManyVertices) ==> (parsed_objs(text@) matches Ok(oms)
            && exists|k: int|
            0 <= k < oms.len() && (#[trigger] oms[k]).mesh.vertices.len() > u32::MAX as int)),
        (r matches Ok(nodes) ==> (parsed_objs(text@) matches Ok(oms) && nodes@.len() == oms.len()
            && (forall|k: int|
            0 <= k < oms.len() ==> {
                let om = #[trigger] oms[k];
                &&& nodes@[k].name@ == om.name
                &&& nodes@[k].vertices@ == dedup_verts(om_verts(om))
                &&& tris_model(nodes@[k].faces@) == om_tris(om)
                &&& nodes@[k].transform == identity_s()
            }))),
{
    let tokens = lex(text);
    let mut p = Parser::new(tokens);
    let objects = match p.parse() {
        Ok(os) => os,
        Err(e) => {
            return Err(CoreError::Parse(e));
        },
    };
    let ghost oms = crate::ast::objs_model(objects@);
    let mut out: Vec<FlattenedNode> = Vec::new();
    let mut k: usize = 0;
    while k < objects.len()
        invariant
            k <= objects@.len(),
            oms == crate::ast::objs_model(objects@),
            oms.len() == objects@.len(),
            parsed_objs(text@) matches Ok(o2) && o2 == oms,
            forall|j: int| 0 <= j < objects@.len() ==> crate::ast::obj_is_bare(#[trigger] objects@[j]),
            out@.len() == k,
            forall|j: int|
                0 <= j < k ==> om_ok(#[trigger] oms[j]),
            forall|j: int|
                0 <= j < k ==> {
                    let om = #[trigger] oms[j];
                    &&& out@[j].name@ == om.name
                    &&& out@[j].vertices@ == dedup_verts(om_verts(om))
                    &&& tris_model(out@[j].faces@) == om_tris(om)
                    &&& out@[j].transform == identity_s()
                },
        decreases objects@.len() - k,
    {
        proof {
            assert(crate::ast::objs_model(objects@)[k as int] == crate::ast::obj_model(
                objects@[k as int],
            ));
        }
        let node = flatten_one(&objects[k]);
        match node {
            Ok(fnode) => {
                out.push(fnode);
            },
            Err(e) => {
                proof {
                    match e {
                        CoreError::Mesh(me) => {
                            assert(om_norm_faces(
                                oms[k as int].mesh.faces,
                                om_verts(oms[k as int]),
                                0,
                            ) matches Err(e2) && me == e2);
                        },
                        _ => {},
                    }
                }
                return Err(e);
            },
        }
        k = k + 1;
    }
    Ok(out)
}

/// Flatten and normalize one parsed object.
fn flatten_one(obj: &RwxObject) -> (r: Result<FlattenedNode, CoreError>)
    requires
        crate::ast::obj_is_bare(*obj),
    ensures
        ({
            let om = crate::ast::obj_model(*obj);
            &&& (r is Ok <==> om_ok(om))
            &&& (r matches Ok(fnode) ==> fnode.name@ == om.name && fnode.vertices@ == dedup_verts(
                om_verts(om),
            ) && tris_model(fnode.faces@) == om_tris(om) && fnode.transform == identity_s())
            &&& (r matches Err(e) ==> (e matches CoreError::TooManyVertices
                && om.mesh.vertices.len() > u32::MAX as int) || (e matches CoreError::Mesh(me)
                && om.mesh.vertices.len() <= u32::MAX as int && (om_norm_faces(
                om.mesh.faces,
                om_verts(om),
                0,
            ) matches Err(e2) && me == e2)))
        }),
{
    let ghost om = crate::ast::obj_model(*obj);
    // build the scene node: clamped coordinates, an absent transform read
    // as the identity
    let mut rverts: Vec<crate::ast::RwxVertex> = Vec::new();
    let mut rfaces: Vec<crate::ast::RwxFace> = Vec::new();
    match &obj.mesh {
        Some(m) => {
            let mut i: usize = 0;
            proof {
                assert(rverts@ =~= om.mesh.vertices.map_values(|vm: VertM| vert_clamped(vm)).take(
                    0,
                ));
            }
            while i < m.vertices.len()
                invariant
                    i <= m.vertices@.len(),
                    om == crate::ast::obj_model(*obj),
                    obj.mesh matches Some(m2) && m2 == *m,
                    om.mesh.vertices.len() == m.vertices@.len(),
                    rverts@ == om.mesh.vertices.map_values(|vm: VertM| vert_clamped(vm)).take(
                        i as int,
                    ),
                decreases m.vertices@.len() - i,
            {
                let v = m.vertices[i];
                let rv = crate::ast::RwxVertex {
                    x: clamp_fx(v.x),
                    y: clamp_fx(v.y),
                    z: clamp_fx(v.z),
                    u: v.u,
                    v: v.v,
                };
                rverts.push(rv);
                proof {
                    assert(om.mesh.vertices[i as int] == crate::ast::vert_model(
                        m.vertices@[i as int],
                    ));
                    assert(rv == vert_clamped(om.mesh.vertices[i as int]));
                    assert(om.mesh.vertices.map_values(|vm: VertM| vert_clamped(vm)).take(i + 1)
                        =~= om.mesh.vertices.map_values(|vm: VertM| vert_clamped(vm)).take(
                        i as int,
                    ).push(vert_clamped(om.mesh.vertices[i as int])));
                }
                i = i + 1;
            }
            proof {
                assert(om.mesh.vertices.map_values(|vm: VertM| vert_clamped(vm)).take(
                    om.mesh.vertices.len() as int,
                ) =~= om.mesh.vertices.map_values(|vm: VertM| vert_clamped(vm)));
            }
            rfaces = crate::scene::copy_faces(&m.faces);
        },
        None => {
            proof {
                assert(false);
            }
        },
    }
    let ghost rvm = rverts@;
    let node = RwxNode {
        name: clone_name(&obj.name),
        vertices: rverts,
        faces: rfaces,
        transform: RwxTransform::identity(),
        children: Vec::new(),
    };
    proof {
        assert(nodes_model(node.children@) =~= Seq::<NodeM>::empty());
        assert(node_wf(node_model(node))) by {
            assert(crate::scene::kids_wf(Seq::<NodeM>::empty()));
            assert(forall|j: int|
                0 <= j < node_model(node).vertices.len() ==> crate::scene::vert_ok(
                    #[trigger] node_model(node).vertices[j],
                ));
        }
    }
    // flatten the one-node scene: the identity transform composed with
    // itself moves nothing
    let scene = RwxScene { root: node };
    let ghost rootm = node_model(scene.root);
    let flat_nodes = scene.flatten();
    proof {
        crate::scene::lemma_combine_identity();
        assert(crate::scene::flatten_kids(rootm.children, identity_s())
            =~= Seq::<crate::scene::FlatNM>::empty());
        assert(flatten_s(rootm, identity_s()).len() == 1);
        assert(flat_models(flat_nodes@).len() == flat_nodes@.len());
        assert(flat_nodes@.len() == 1);
        assert(flat_models(flat_nodes@)[0] == flatten_s(rootm, identity_s())[0]);
        assert forall|j: int| 0 <= j < rvm.len() implies rootm.vertices.map_values(
            |v: crate::ast::RwxVertex| apply_s(identity_s(), v),
        )[j] == rvm[j] by {
            crate::scene::lemma_apply_identity(rvm[j]);
        }
        assert(rootm.vertices.map_values(|v: crate::ast::RwxVertex| apply_s(identity_s(), v))
            =~= rvm);
        assert(flat_nodes@[0].vertices@ == rvm);
        assert(crate::ast::faces_model(flat_nodes@[0].faces@) == om.mesh.faces);
        assert(flat_nodes@[0].transform == identity_s());
    }
    let wnode = &flat_nodes[0];
    // bridge to the flat mesh the normalizer consumes
    let mut fverts: Vec<Vertex> = Vec::new();
    let mut ffaces: Vec<MeshFace> = Vec::new();
    let mut i: usize = 0;
    proof {
        assert(fverts@ =~= om_verts(om).take(0));
    }
    while i < wnode.vertices.len()
        invariant
            i <= wnode.vertices@.len(),
            om == crate::ast::obj_model(*obj),
            crate::ast::obj_is_bare(*obj),
            wnode.vertices@ == rvm,
            rvm == om.mesh.vertices.map_values(|vm: VertM| vert_clamped(vm)),
            om.mesh.vertices.len() == rvm.len(),
            fverts@ == om_verts(om).take(i as int),
        decreases wnode.vertices@.len() - i,
    {
        let v = wnode.vertices[i];
        let vu = match v.u {
            Some(n) => clamp_fx(n),
            None => 0,
        };
        let vv = match v.v {
            Some(n) => clamp_fx(n),
            None => 0,
        };
        fverts.push(Vertex { position: (v.x, v.y, v.z), uv: (vu, vv) });
        proof {
            let vm = om.mesh.vertices[i as int];
            assert(om.mesh == crate::ast::mesh_model(obj.mesh->Some_0));
            assert(vm == crate::ast::vert_model(obj.mesh->Some_0.vertices@[i as int]));
            assert(rvm[i as int] == vert_clamped(vm));
            assert(om_verts(om)[i as int] == vert_flat(vm));
            assert(om_verts(om).take(i + 1) =~= om_verts(om).take(i as int).push(
                om_verts(om)[i as int],
            ));
        }
        i = i + 1;
    }
    proof {
        assert(om_verts(om).take(om_verts(om).len() as int) =~= om_verts(om));
    }
    let mut fi: usize = 0;
    proof {
        assert(ffaces@ =~= Seq::<MeshFace>::empty());
    }
    while fi < wnode.faces.len()
        invariant
            fi <= wnode.faces@.len(),
            crate::ast::faces_model(wnode.faces@) == om.mesh.faces,
            om.mesh.faces.len() == wnode.faces@.len(),
            ffaces@.len() == fi,
            forall|j: int|
                0 <= j < fi ==> face_indices(#[trigger] ffaces@[j]) == om.mesh.faces[j]
                    && face_mat(ffaces@[j]).len() == 0 && (ffaces@[j] matches MeshFace::Poly(
                    _,
                    _,
                )),
        decreases wnode.faces@.len() - fi,
    {
        let mut idx: Vec<u32> = Vec::new();
        let mut q: usize = 0;
        proof {
            assert(om.mesh.faces[fi as int] == crate::ast::face_model(wnode.faces@[fi as int]));
            assert(idx@.map_values(|w: u32| w as int) =~= om.mesh.faces[fi as int].take(0));
        }
        while q < wnode.faces[fi].indices.len()
            invariant
                fi < wnode.faces@.len(),
                q <= wnode.faces@[fi as int].indices@.len(),
                om.mesh.faces[fi as int] == crate::ast::face_model(wnode.faces@[fi as int]),
                om.mesh.faces[fi as int].len() == wnode.faces@[fi as int].indices@.len(),
                idx@.map_values(|w: u32| w as int) == om.mesh.faces[fi as int].take(q as int),
            decreases wnode.faces@[fi as int].indices@.len() - q,
        {
            let w = wnode.faces[fi].indices[q];
            let ghost ib = idx@;
            idx.push(w);
            proof {
                assert(idx@.map_values(|w2: u32| w2 as int) =~= ib.map_values(
                    |w2: u32| w2 as int,
                ).push(wnode.faces@[fi as int].indices@[q as int] as int));
                assert(om.mesh.faces[fi as int].take(q + 1) =~= om.mesh.faces[fi as int].take(
                    q as int,
                ).push(om.mesh.faces[fi as int][q as int]));
            }
            q = q + 1;
        }
        proof {
            assert(om.mesh.faces[fi as int].take(om.mesh.faces[fi as int].len() as int)
                =~= om.mesh.faces[fi as int]);
        }
        let f = MeshFace::Poly(idx, String::new());
        ffaces.push(f);
        proof {
            assert(face_indices(f) =~= om.mesh.faces[fi as int]);
        }
        fi = fi + 1;
    }
    if fverts.len() > (u32::MAX as usize) {
        return Err(CoreError::TooManyVertices);
    }
    let flat = FlatMesh { vertices: fverts, faces: ffaces };
    proof {
        lemma_norm_faces_bridge(flat.faces@, om.mesh.faces, flat.vertices@, 0);
        assert(flat.vertices@ == om_verts(om));
    }
    let nm = match normalize(&flat) {
        Ok(nm) => nm,
        Err(me) => {
            return Err(CoreError::Mesh(me));
        },
    };
    let name = clone_name(&obj.name);
    let transform = wnode.transform;
    Ok(FlattenedNode { name, vertices: nm.vertices, faces: nm.faces, transform })
}

/// A parsed vertex as a scene vertex: position clamped into the scalar
/// range, texture coordinates kept as given.
pub open spec fn vert_clamped(vm: VertM) -> crate::ast::RwxVertex {
    crate::ast::RwxVertex {
        x: sat(vm.x) as i64,
        y: sat(vm.y) as i64,
        z: sat(vm.z) as i64,
        u: match vm.u {
            Some(n) => Some(n as i64),
            None => None,
        },
        v: match vm.v {
            Some(n) => Some(n as i64),
            None => None,
        },
    }
}

/// Clamp a coordinate into the scalar range.
fn clamp_fx(a: i64) -> (r: i64)
    ensures
        r as int == sat(a as int),
        fx_ok(r as int),
{
    if a > FX_MAX {
        FX_MAX
    } else if a < -FX_MAX {
        -FX_MAX
    } else {
        a
    }
}

fn clone_name(s: &String) -> (r: String)
    ensures
        r@ == s@,
{
    s.clone()
}

/// Faces built as empty-material polygons normalize exactly as the parsed
/// object's face model does.
proof fn lemma_norm_faces_bridge(cf: Seq<MeshFace>, fs: Seq<Seq<int>>, vs: Seq<Vertex>, k: int)
    requires
        cf.len() == fs.len(),
        forall|j: int|
            0 <= j < cf.len() ==> face_indices(#[trigger] cf[j]) == fs[j] && face_mat(
                cf[j],
            ).len() == 0 && (cf[j] matches MeshFace::Poly(_, _)),
    ensures
        crate::meshnorm::norm_faces(cf, vs, k) == om_norm_faces(fs, vs, k),
    decreases cf.len() - k,
{
    if 0 <= k < cf.len() {
        lemma_norm_faces_bridge(cf, fs, vs, k + 1);
        assert(face_mat(cf[k]) =~= Seq::<char>::empty());
        if fs[k].len() >= 3 && face_ok(fs[k], vs) {
            assert(crate::meshnorm::face_tris(cf[k], vs) =~= om_face_tris(fs[k], vs));
        }
    }
}

} // verus!
