//! Scene flattening: transform composition, vertex transformation by
//! scale, axis-angle rotation and translation, and depth-first pre-order
//! emission of world-space nodes.
//!
//! Composition is component-wise: translations add, scales multiply, and a
//! child's rotation overrides its parent's outright. A vertex is scaled,
//! then rotated by the Rodrigues formula about the normalized axis (a
//! zero-length axis leaves the vertex unrotated), then translated.

use vstd::prelude::*;

use crate::ast::{RwxFace, RwxVertex};
use crate::ast;
use crate::fx::{
    fx_add, fx_add_s, fx_mul, fx_mul_s, fx_neg, fx_ok, fx_scale_div, tdiv, SCALE,
};
use crate::trig::{cos_deg_s, is_isqrt, isqrt, isqrt_s, lemma_isqrt_unique, sin_cos_deg, sin_deg_s};

verus! {

broadcast use vstd::seq::group_seq_axioms;

/// A local transform: absent components are the identity. The rotation is
/// an angle in micro-degrees and an axis.
#[derive(Debug, Clone, Copy, PartialEq)]
pub struct RwxTransform {
    pub translate: Option<(i64, i64, i64)>,
    pub rotate: Option<(i64, i64, i64, i64)>,
    pub scale: Option<(i64, i64, i64)>,
}

/// All numeric components of a transform are well-formed scalars.
pub open spec fn tf_ok(t: RwxTransform) -> bool {
    &&& match t.translate {
        Some(v) => fx_ok(v.0 as int) && fx_ok(v.1 as int) && fx_ok(v.2 as int),
        None => true,
    }
    &&& match t.rotate {
        Some(v) => fx_ok(v.0 as int) && fx_ok(v.1 as int) && fx_ok(v.2 as int) && fx_ok(
            v.3 as int,
        ),
        None => true,
    }
    &&& match t.scale {
        Some(v) => fx_ok(v.0 as int) && fx_ok(v.1 as int) && fx_ok(v.2 as int),
        None => true,
    }
}

/// A vertex whose coordinates are well-formed scalars.
pub open spec fn vert_ok(v: RwxVertex) -> bool {
    fx_ok(v.x as int) && fx_ok(v.y as int) && fx_ok(v.z as int)
}

/// The identity transform: every component absent.
pub open spec fn identity_s() -> RwxTransform {
    RwxTransform { translate: None, rotate: None, scale: None }
}

/// Composition of two transforms, parent first: translations add, a
/// child's rotation overrides, scales multiply component-wise.
pub open spec fn combine_s(a: RwxTransform, b: RwxTransform) -> RwxTransform {
    RwxTransform {
        translate: match (a.translate, b.translate) {
            (Some(at), Some(bt)) => Some(
                (
                    fx_add_s(at.0 as int, bt.0 as int) as i64,
                    fx_add_s(at.1 as int, bt.1 as int) as i64,
                    fx_add_s(at.2 as int, bt.2 as int) as i64,
                ),
            ),
            (Some(at), None) => Some(at),
            (None, Some(bt)) => Some(bt),
            (None, None) => None,
        },
        rotate: match b.rotate {
            Some(br) => Some(br),
            None => a.rotate,
        },
        scale: match (a.scale, b.scale) {
            (Some(asv), Some(bsv)) => Some(
                (
                    fx_mul_s(asv.0 as int, bsv.0 as int) as i64,
                    fx_mul_s(asv.1 as int, bsv.1 as int) as i64,
                    fx_mul_s(asv.2 as int, bsv.2 as int) as i64,
                ),
            ),
            (Some(asv), None) => Some(asv),
            (None, Some(bsv)) => Some(bsv),
            (None, None) => None,
        },
    }
}

/// Rotation of a point about an axis by the Rodrigues formula in saturating
/// micro-unit arithmetic; a zero-length axis leaves the point unchanged.
pub open spec fn rot_apply_s(angle: int, ax: int, ay: int, az: int, p: (int, int, int)) -> (
    int,
    int,
    int,
) {
    let ls = ax * ax + ay * ay + az * az;
    let len = isqrt_s(ls);
    if len == 0 {
        p
    } else {
        let nx = tdiv(ax * SCALE as int, len);
        let ny = tdiv(ay * SCALE as int, len);
        let nz = tdiv(az * SCALE as int, len);
        let s = sin_deg_s(angle);
        let c = cos_deg_s(angle);
        let omc = SCALE as int - c;
        let dot = fx_add_s(fx_add_s(fx_mul_s(nx, p.0), fx_mul_s(ny, p.1)), fx_mul_s(nz, p.2));
        let rx = fx_add_s(
            fx_add_s(fx_mul_s(fx_mul_s(nx, dot), omc), fx_mul_s(p.0, c)),
            fx_mul_s(fx_add_s(fx_mul_s(-nz, p.1), fx_mul_s(ny, p.2)), s),
        );
        let ry = fx_add_s(
            fx_add_s(fx_mul_s(fx_mul_s(ny, dot), omc), fx_mul_s(p.1, c)),
            fx_mul_s(fx_add_s(fx_mul_s(nz, p.0), fx_mul_s(-nx, p.2)), s),
        );
        let rz = fx_add_s(
            fx_add_s(fx_mul_s(fx_mul_s(nz, dot), omc), fx_mul_s(p.2, c)),
            fx_mul_s(fx_add_s(fx_mul_s(-ny, p.0), fx_mul_s(nx, p.1)), s),
        );
        (rx, ry, rz)
    }
}

/// Application of a transform to a vertex: scale, then rotate, then
/// translate. Texture coordinates are untouched.
pub open spec fn apply_s(t: RwxTransform, v: RwxVertex) -> RwxVertex {
    let p0 = (v.x as int, v.y as int, v.z as int);
    let p1 = match t.scale {
        Some(sv) => (
            fx_mul_s(p0.0, sv.0 as int),
            fx_mul_s(p0.1, sv.1 as int),
            fx_mul_s(p0.2, sv.2 as int),
        ),
        None => p0,
    };
    let p2 = match t.rotate {
        Some(rv) => rot_apply_s(rv.0 as int, rv.1 as int, rv.2 as int, rv.3 as int, p1),
        None => p1,
    };
    let p3 = match t.translate {
        Some(tv) => (
            fx_add_s(p2.0, tv.0 as int),
            fx_add_s(p2.1, tv.1 as int),
            fx_add_s(p2.2, tv.2 as int),
        ),
        None => p2,
    };
    RwxVertex { x: p3.0 as i64, y: p3.1 as i64, z: p3.2 as i64, u: v.u, v: v.v }
}

impl RwxTransform {
    /// The identity transform.
    pub fn identity() -> (t: RwxTransform)
        ensures
            t == identity_s(),
            tf_ok(t),
    {
        RwxTransform { translate: None, rotate: None, scale: None }
    }

    /// Adopt a parsed transform unchanged.
    pub fn from_parser(src: &ast::RwxTransform) -> (t: RwxTransform)
        ensures
            t.translate == src.translate,
            t.rotate == src.rotate,
            t.scale == src.scale,
    {
        RwxTransform { translate: src.translate, rotate: src.rotate, scale: src.scale }
    }

    /// Apply this transform to one vertex: scale, rotate, translate.
    pub fn apply(&self, v: &RwxVertex) -> (r: RwxVertex)
        requires
            tf_ok(*self),
            vert_ok(*v),
        ensures
            r == apply_s(*self, *v),
            vert_ok(r),
    {
        let mut x = v.x;
        let mut y = v.y;
        let mut z = v.z;
        if let Some(sv) = self.scale {
            x = fx_mul(x, sv.0);
            y = fx_mul(y, sv.1);
            z = fx_mul(z, sv.2);
        }
        if let Some(rv) = self.rotate {
            let (angle, ax, ay, az) = rv;
            proof {
                assert(fx_ok(ax as int) && fx_ok(ay as int) && fx_ok(az as int));
                assert((ax as int) * (ax as int) <= (1_000_000_000_000_000int)
                    * 1_000_000_000_000_000 && 0 <= (ax as int) * (ax as int))
                    by (nonlinear_arith)
                    requires
                        fx_ok(ax as int),
                ;
                assert((ay as int) * (ay as int) <= (1_000_000_000_000_000int)
                    * 1_000_000_000_000_000 && 0 <= (ay as int) * (ay as int))
                    by (nonlinear_arith)
                    requires
                        fx_ok(ay as int),
                ;
                assert((az as int) * (az as int) <= (1_000_000_000_000_000int)
                    * 1_000_000_000_000_000 && 0 <= (az as int) * (az as int))
                    by (nonlinear_arith)
                    requires
                        fx_ok(az as int),
                ;
            }
            let lsq: u128 = ((ax as i128) * (ax as i128) + (ay as i128) * (ay as i128) + (
            az as i128) * (az as i128)) as u128;
            let len128 = isqrt(lsq);
            if len128 == 0 {
                // a zero-length axis: the rotation degenerates to the identity
            } else {
                proof {
                    assert((3_000_000_000_000_000_000_000_000_000_000int)
                        < (1_800_000_000_000_000int) * (1_800_000_000_000_000int) + 2
                        * 1_800_000_000_000_000 + 1) by (nonlinear_arith);
                    assert(lsq as int <= 3_000_000_000_000_000_000_000_000_000_000int)
                        by (nonlinear_arith)
                        requires
                            fx_ok(ax as int),
                            fx_ok(ay as int),
                            fx_ok(az as int),
                            lsq as int == (ax as int) * (ax as int) + (ay as int) * (ay as int) + (
                            az as int) * (az as int),
                    ;
                    if len128 as int > 1_800_000_000_000_000int {
                        assert((len128 as int) * (len128 as int)
                            > (1_800_000_000_000_000int) * (1_800_000_000_000_000int))
                            by (nonlinear_arith)
                            requires
                                len128 as int > 1_800_000_000_000_000int,
                        ;
                        assert(false);
                    }
                    assert((ax as int) * (ax as int) <= lsq as int && (ay as int) * (ay as int)
                        <= lsq as int && (az as int) * (az as int) <= lsq as int)
                        by (nonlinear_arith)
                        requires
                            lsq as int == (ax as int) * (ax as int) + (ay as int) * (ay as int) + (
                            az as int) * (az as int),
                    ;
                    lemma_axis_component_bounded(ax as int, len128 as int, lsq as int);
                    lemma_axis_component_bounded(ay as int, len128 as int, lsq as int);
                    lemma_axis_component_bounded(az as int, len128 as int, lsq as int);
                }
                let len: i64 = len128 as i64;
                let nx = fx_scale_div(ax, len);
                let ny = fx_scale_div(ay, len);
                let nz = fx_scale_div(az, len);
                let (s, c) = sin_cos_deg(angle);
                let omc = SCALE - c;
                let dot = fx_add(fx_add(fx_mul(nx, x), fx_mul(ny, y)), fx_mul(nz, z));
                let rx = fx_add(
                    fx_add(fx_mul(fx_mul(nx, dot), omc), fx_mul(x, c)),
                    fx_mul(fx_add(fx_mul(fx_neg(nz), y), fx_mul(ny, z)), s),
                );
                let ry = fx_add(
                    fx_add(fx_mul(fx_mul(ny, dot), omc), fx_mul(y, c)),
                    fx_mul(fx_add(fx_mul(nz, x), fx_mul(fx_neg(nx), z)), s),
                );
                let rz = fx_add(
                    fx_add(fx_mul(fx_mul(nz, dot), omc), fx_mul(z, c)),
                    fx_mul(fx_add(fx_mul(fx_neg(ny), x), fx_mul(nx, y)), s),
                );
                x = rx;
                y = ry;
                z = rz;
            }
        }
        if let Some(tv) = self.translate {
            x = fx_add(x, tv.0);
            y = fx_add(y, tv.1);
            z = fx_add(z, tv.2);
        }
        RwxVertex { x, y, z, u: v.u, v: v.v }
    }
}

/// A squared component never exceeds the squared length, so each component
/// is bounded by the integer square root of the squared length.
pub open spec fn axis_component_bounded(a: int, len: int, ls: int) -> bool {
    is_isqrt(ls, len) && a * a <= ls ==> -len <= a <= len
}

pub broadcast proof fn lemma_axis_component_bounded(a: int, len: int, ls: int)
    ensures
        #[trigger] axis_component_bounded(a, len, ls),
{
    if is_isqrt(ls, len) && a * a <= ls {
        if a > len {
            assert((len + 1) * (len + 1) <= a * a) by (nonlinear_arith)
                requires
                    0 <= len + 1 <= a,
            ;
            assert(false);
        }
        if a < -len {
            assert((len + 1) * (len + 1) <= a * a) by (nonlinear_arith)
                requires
                    a <= -(len + 1) <= 0,
            ;
            assert(false);
        }
    }
}

/// A scene node: geometry, a local transform and children.
#[derive(Debug)]
pub struct RwxNode {
    pub name: String,
    pub vertices: Vec<RwxVertex>,
    pub faces: Vec<RwxFace>,
    pub transform: RwxTransform,
    pub children: Vec<RwxNode>,
}

/// A scene: one root node.
#[derive(Debug)]
pub struct RwxScene {
    pub root: RwxNode,
}

/// Model of a scene node.
pub ghost struct NodeM {
    pub name: Seq<char>,
    pub vertices: Seq<RwxVertex>,
    pub faces: Seq<Seq<int>>,
    pub transform: RwxTransform,
    pub children: Seq<NodeM>,
}

/// Model of a flattened node: world-space vertices, no children left.
pub ghost struct FlatNM {
    pub name: Seq<char>,
    pub vertices: Seq<RwxVertex>,
    pub faces: Seq<Seq<int>>,
    pub transform: RwxTransform,
}

pub open spec fn node_model(n: RwxNode) -> NodeM
    decreases n,
{
    NodeM {
        name: n.name@,
        vertices: n.vertices@,
        faces: crate::ast::faces_model(n.faces@),
        transform: n.transform,
        children: nodes_model(n.children@),
    }
}

pub open spec fn nodes_model(ns: Seq<RwxNode>) -> Seq<NodeM>
    decreases ns,
{
    if ns.len() == 0 {
        Seq::empty()
    } else {
        nodes_model(ns.drop_last()).push(node_model(ns.last()))
    }
}

/// The transform a parsed object carries, or the identity.
pub open spec fn tf_of_obj(o: crate::ast::RwxObject) -> RwxTransform {
    match o.transform {
        Some(t) => RwxTransform { translate: t.translate, rotate: t.rotate, scale: t.scale },
        None => identity_s(),
    }
}

/// Conversion of a parsed object into a scene node, child for child.
pub open spec fn convert_s(o: crate::ast::RwxObject) -> NodeM
    decreases o,
{
    NodeM {
        name: o.name@,
        vertices: match o.mesh {
            Some(m) => m.vertices@,
            None => Seq::empty(),
        },
        faces: match o.mesh {
            Some(m) => crate::ast::faces_model(m.faces@),
            None => Seq::empty(),
        },
        transform: tf_of_obj(o),
        children: objs_to_nodes(o.children@),
    }
}

pub open spec fn objs_to_nodes(os: Seq<crate::ast::RwxObject>) -> Seq<NodeM>
    decreases os,
{
    if os.len() == 0 {
        Seq::empty()
    } else {
        objs_to_nodes(os.drop_last()).push(convert_s(os.last()))
    }
}

/// Every scalar in a node's transform and vertices is well formed, in the
/// node itself and all its descendants.
pub open spec fn node_wf(m: NodeM) -> bool
    decreases m,
{
    &&& tf_ok(m.transform)
    &&& (forall|i: int| 0 <= i < m.vertices.len() ==> vert_ok(#[trigger] m.vertices[i]))
    &&& kids_wf(m.children)
}

pub open spec fn kids_wf(ks: Seq<NodeM>) -> bool
    decreases ks,
{
    if ks.len() == 0 {
        true
    } else {
        kids_wf(ks.drop_last()) && node_wf(ks.last())
    }
}

/// Depth-first pre-order flattening of a node under an inherited
/// transform.
pub open spec fn flatten_s(m: NodeM, parent: RwxTransform) -> Seq<FlatNM>
    decreases m, 0int,
{
    let world = combine_s(parent, m.transform);
    let me = FlatNM {
        name: m.name,
        vertices: m.vertices.map_values(|v: RwxVertex| apply_s(world, v)),
        faces: m.faces,
        transform: world,
    };
    seq![me] + flatten_kids(m.children, world)
}

pub open spec fn flatten_kids(ks: Seq<NodeM>, parent: RwxTransform) -> Seq<FlatNM>
    decreases ks, 1int,
{
    if ks.len() == 0 {
        Seq::empty()
    } else {
        flatten_kids(ks.drop_last(), parent) + flatten_s(ks.last(), parent)
    }
}

/// The flattened model of an output node list.
pub open spec fn flat_models(ns: Seq<RwxNode>) -> Seq<FlatNM> {
    ns.map_values(
        |n: RwxNode|
            FlatNM {
                name: n.name@,
                vertices: n.vertices@,
                faces: crate::ast::faces_model(n.faces@),
                transform: n.transform,
            },
    )
}

proof fn lemma_nodes_model_index(ns: Seq<RwxNode>, i: int)
    requires
        0 <= i < ns.len(),
    ensures
        nodes_model(ns).len() == ns.len(),
        nodes_model(ns)[i] == node_model(ns[i]),
    decreases ns.len(),
{
    if ns.len() > 0 {
        if i < ns.len() - 1 {
            lemma_nodes_model_index(ns.drop_last(), i);
        } else {
            if ns.len() > 1 {
                lemma_nodes_model_index(ns.drop_last(), 0);
            }
        }
        assert(nodes_model(ns) == nodes_model(ns.drop_last()).push(node_model(ns.last())));
        lemma_nodes_model_len(ns.drop_last());
    }
}

proof fn lemma_nodes_model_len(ns: Seq<RwxNode>)
    ensures
        nodes_model(ns).len() == ns.len(),
    decreases ns.len(),
{
    if ns.len() > 0 {
        lemma_nodes_model_len(ns.drop_last());
    }
}

proof fn lemma_kids_wf_elem(ks: Seq<NodeM>, i: int)
    requires
        kids_wf(ks),
        0 <= i < ks.len(),
    ensures
        node_wf(ks[i]),
    decreases ks.len(),
{
    if i < ks.len() - 1 {
        lemma_kids_wf_elem(ks.drop_last(), i);
    }
}

/// Copy a vertex list.
fn copy_verts(src: &Vec<RwxVertex>) -> (r: Vec<RwxVertex>)
    ensures
        r@ == src@,
{
    let mut r: Vec<RwxVertex> = Vec::new();
    let mut i: usize = 0;
    proof {
        assert(r@ =~= src@.take(0));
    }
    while i < src.len()
        invariant
            i <= src@.len(),
            r@ == src@.take(i as int),
        decreases src@.len() - i,
    {
        r.push(src[i]);
        proof {
            assert(src@.take(i + 1) =~= src@.take(i as int).push(src@[i as int]));
        }
        i = i + 1;
    }
    proof {
        assert(src@.take(src@.len() as int) =~= src@);
    }
    r
}

/// Copy a face list, index for index.
pub(crate) fn copy_faces(src: &Vec<RwxFace>) -> (r: Vec<RwxFace>)
    ensures
        crate::ast::faces_model(r@) == crate::ast::faces_model(src@),
{
    let mut r: Vec<RwxFace> = Vec::new();
    let mut i: usize = 0;
    proof {
        assert(crate::ast::faces_model(r@) =~= crate::ast::faces_model(src@).take(0));
    }
    while i < src.len()
        invariant
            i <= src@.len(),
            crate::ast::faces_model(r@) == crate::ast::faces_model(src@).take(i as int),
        decreases src@.len() - i,
    {
        let mut idx: Vec<u32> = Vec::new();
        let mut q: usize = 0;
        proof {
            assert(idx@ =~= src@[i as int].indices@.take(0));
        }
        while q < src[i].indices.len()
            invariant
                i < src@.len(),
                q <= src@[i as int].indices@.len(),
                idx@ == src@[i as int].indices@.take(q as int),
            decreases src@[i as int].indices@.len() - q,
        {
            idx.push(src[i].indices[q]);
            proof {
                assert(src@[i as int].indices@.take(q + 1) =~= src@[i as int].indices@.take(
                    q as int,
                ).push(src@[i as int].indices@[q as int]));
            }
            q = q + 1;
        }
        proof {
            assert(src@[i as int].indices@.take(src@[i as int].indices@.len() as int)
                =~= src@[i as int].indices@);
        }
        let ghost rb = r@;
        let f = RwxFace { indices: idx };
        r.push(f);
        proof {
            assert(crate::ast::face_model(f) =~= crate::ast::face_model(src@[i as int]));
            assert(crate::ast::faces_model(rb.push(f)) =~= crate::ast::faces_model(rb).push(
                crate::ast::face_model(f),
            ));
            assert(crate::ast::faces_model(src@).take(i + 1) =~= crate::ast::faces_model(
                src@,
            ).take(i as int).push(crate::ast::face_model(src@[i as int])));
        }
        i = i + 1;
    }
    proof {
        assert(crate::ast::faces_model(src@).take(crate::ast::faces_model(src@).len() as int)
            =~= crate::ast::faces_model(src@));
    }
    r
}

/// Transform every vertex of a list.
fn apply_all(world: &RwxTransform, vs: &Vec<RwxVertex>) -> (r: Vec<RwxVertex>)
    requires
        tf_ok(*world),
        forall|i: int| 0 <= i < vs@.len() ==> vert_ok(#[trigger] vs@[i]),
    ensures
        r@ == vs@.map_values(|v: RwxVertex| apply_s(*world, v)),
{
    let mut r: Vec<RwxVertex> = Vec::new();
    let mut i: usize = 0;
    proof {
        assert(r@ =~= vs@.take(0).map_values(|v: RwxVertex| apply_s(*world, v)));
    }
    while i < vs.len()
        invariant
            i <= vs@.len(),
            tf_ok(*world),
            forall|j: int| 0 <= j < vs@.len() ==> vert_ok(#[trigger] vs@[j]),
            r@ == vs@.take(i as int).map_values(|v: RwxVertex| apply_s(*world, v)),
        decreases vs@.len() - i,
    {
        let w = world.apply(&vs[i]);
        r.push(w);
        proof {
            assert(vs@.take(i + 1).map_values(|v: RwxVertex| apply_s(*world, v)) =~= vs@.take(
                i as int,
            ).map_values(|v: RwxVertex| apply_s(*world, v)).push(apply_s(*world, vs@[i as int])));
        }
        i = i + 1;
    }
    proof {
        assert(vs@.take(vs@.len() as int) =~= vs@);
        assert(vs@.take(vs@.len() as int).map_values(|v: RwxVertex| apply_s(*world, v))
            =~= vs@.map_values(|v: RwxVertex| apply_s(*world, v)));
    }
    r
}

impl RwxScene {
    /// Build a scene from one parsed object.
    pub fn from_object(obj: crate::ast::RwxObject) -> (s: RwxScene)
        ensures
            node_model(s.root) == convert_s(obj),
    {
        let root = Self::convert_node(&obj);
        RwxScene { root }
    }

    /// Convert a parsed object into a scene node, child for child.
    fn convert_node(obj: &crate::ast::RwxObject) -> (n: RwxNode)
        ensures
            node_model(n) == convert_s(*obj),
        decreases *obj,
    {
        let (vertices, faces) = match &obj.mesh {
            Some(m) => (copy_verts(&m.vertices), copy_faces(&m.faces)),
            None => (Vec::new(), Vec::new()),
        };
        let transform = match &obj.transform {
            Some(t) => RwxTransform::from_parser(t),
            None => RwxTransform::identity(),
        };
        let mut children: Vec<RwxNode> = Vec::new();
        let mut i: usize = 0;
        proof {
            assert(nodes_model(children@) =~= objs_to_nodes(obj.children@.take(0)));
        }
        while i < obj.children.len()
            invariant
                i <= obj.children@.len(),
                nodes_model(children@) == objs_to_nodes(obj.children@.take(i as int)),
            decreases obj.children@.len() - i,
        {
            proof {
                broadcast use vstd::std_specs::vec::axiom_vec_index_decreases;

                assert(decreases_to!(*obj => obj.children));
                assert(decreases_to!(obj.children => obj.children[i as int]));
            }
            let c = Self::convert_node(&obj.children[i]);
            let ghost cb = children@;
            children.push(c);
            proof {
                assert(children@.drop_last() =~= cb);
                assert(obj.children@.take(i + 1).drop_last() =~= obj.children@.take(i as int));
                assert(obj.children@.take(i + 1).last() == obj.children@[i as int]);
            }
            i = i + 1;
        }
        proof {
            assert(obj.children@.take(obj.children@.len() as int) =~= obj.children@);
        }
        let n = RwxNode { name: obj.name.clone(), vertices, faces, transform, children };
        proof {
            assert(node_model(n).name == convert_s(*obj).name);
            assert(node_model(n).vertices == convert_s(*obj).vertices);
            assert(node_model(n).faces == convert_s(*obj).faces);
            assert(node_model(n).transform == convert_s(*obj).transform);
            assert(node_model(n).children == convert_s(*obj).children);
            assert(node_model(n) == convert_s(*obj));
        }
        n
    }

    /// Compose two transforms, the inherited one first.
    fn combine(a: &RwxTransform, b: &RwxTransform) -> (r: RwxTransform)
        requires
            tf_ok(*a),
            tf_ok(*b),
        ensures
            r == combine_s(*a, *b),
            tf_ok(r),
    {
        let translate = match (a.translate, b.translate) {
            (Some(at), Some(bt)) => Some(
                (fx_add(at.0, bt.0), fx_add(at.1, bt.1), fx_add(at.2, bt.2)),
            ),
            (Some(at), None) => Some(at),
            (None, Some(bt)) => Some(bt),
            (None, None) => None,
        };
        let rotate = match b.rotate {
            Some(br) => Some(br),
            None => a.rotate,
        };
        let scale = match (a.scale, b.scale) {
            (Some(asv), Some(bsv)) => Some(
                (fx_mul(asv.0, bsv.0), fx_mul(asv.1, bsv.1), fx_mul(asv.2, bsv.2)),
            ),
            (Some(asv), None) => Some(asv),
            (None, Some(bsv)) => Some(bsv),
            (None, None) => None,
        };
        RwxTransform { translate, rotate, scale }
    }

    /// Flatten the scene into a world-space node list, depth first,
    /// parents before children.
    pub fn flatten(&self) -> (out: Vec<RwxNode>)
        requires
            node_wf(node_model(self.root)),
        ensures
            flat_models(out@) == flatten_s(node_model(self.root), identity_s()),
            forall|k: int| 0 <= k < out@.len() ==> (#[trigger] out@[k]).children@.len() == 0,
    {
        let mut out: Vec<RwxNode> = Vec::new();
        let id = RwxTransform::identity();
        proof {
            assert(flat_models(out@) =~= Seq::<FlatNM>::empty());
        }
        Self::flatten_recursive(&self.root, &id, &mut out);
        proof {
            assert(Seq::<FlatNM>::empty() + flatten_s(node_model(self.root), identity_s())
                =~= flatten_s(node_model(self.root), identity_s()));
        }
        out
    }

    /// Emit this node in world space, then its children.
    fn flatten_recursive(node: &RwxNode, parent_tf: &RwxTransform, out: &mut Vec<RwxNode>)
        requires
            node_wf(node_model(*node)),
            tf_ok(*parent_tf),
        ensures
            flat_models(final(out)@) == flat_models(old(out)@) + flatten_s(
                node_model(*node),
                *parent_tf,
            ),
            forall|k: int|
                0 <= k < final(out)@.len() ==> ((#[trigger] final(out)@[k]).children@.len() == 0
                    || (k < old(out)@.len() && final(out)@[k] == old(out)@[k])),
        decreases *node,
    {
        let ghost m = node_model(*node);
        let world = Self::combine(parent_tf, &node.transform);
        let wverts = apply_all(&world, &node.vertices);
        let wfaces = copy_faces(&node.faces);
        let me = RwxNode {
            name: node.name.clone(),
            vertices: wverts,
            faces: wfaces,
            transform: world,
            children: Vec::new(),
        };
        let ghost ob = out@;
        let ghost mem = FlatNM {
            name: m.name,
            vertices: m.vertices.map_values(|v: RwxVertex| apply_s(world, v)),
            faces: m.faces,
            transform: world,
        };
        out.push(me);
        proof {
            assert(flat_models(out@) =~= flat_models(ob).push(mem));
        }
        let mut i: usize = 0;
        proof {
            assert(flat_models(out@) =~= flat_models(ob) + seq![mem] + flatten_kids(
                nodes_model(node.children@.take(0)),
                world,
            ));
        }
        while i < node.children.len()
            invariant
                i <= node.children@.len(),
                tf_ok(world),
                world == combine_s(*parent_tf, node.transform),
                m == node_model(*node),
                mem == (FlatNM {
                    name: m.name,
                    vertices: m.vertices.map_values(|v: RwxVertex| apply_s(world, v)),
                    faces: m.faces,
                    transform: world,
                }),
                ob == old(out)@,
                node_wf(m),
                flat_models(out@) == flat_models(ob) + seq![mem] + flatten_kids(
                    nodes_model(node.children@.take(i as int)),
                    world,
                ),
                forall|k: int|
                    0 <= k < out@.len() ==> ((#[trigger] out@[k]).children@.len() == 0 || (k
                        < ob.len() && out@[k] == ob[k])),
            decreases node.children@.len() - i,
        {
            proof {
                broadcast use vstd::std_specs::vec::axiom_vec_index_decreases;

                assert(decreases_to!(*node => node.children));
                assert(decreases_to!(node.children => node.children[i as int]));
                lemma_nodes_model_len(node.children@);
                lemma_nodes_model_index(node.children@, i as int);
                lemma_kids_wf_elem(nodes_model(node.children@), i as int);
            }
            let ghost before = out@;
            Self::flatten_recursive(&node.children[i], &world, out);
            proof {
                assert(nodes_model(node.children@.take(i + 1)).drop_last() =~= nodes_model(
                    node.children@.take(i as int),
                )) by {
                    assert(node.children@.take(i + 1).drop_last() =~= node.children@.take(
                        i as int,
                    ));
                    assert(nodes_model(node.children@.take(i + 1))
                        == nodes_model(node.children@.take(i + 1).drop_last()).push(
                        node_model(node.children@.take(i + 1).last()),
                    ));
                }
                assert(node.children@.take(i + 1).last() == node.children@[i as int]);
                assert(flatten_kids(nodes_model(node.children@.take(i + 1)), world)
                    == flatten_kids(nodes_model(node.children@.take(i as int)), world)
                    + flatten_s(node_model(node.children@[i as int]), world)) by {
                    assert(nodes_model(node.children@.take(i + 1)) == nodes_model(
                        node.children@.take(i as int),
                    ).push(node_model(node.children@[i as int])));
                    let ks = nodes_model(node.children@.take(i + 1));
                    assert(ks.len() > 0) by {
                        lemma_nodes_model_len(node.children@.take(i + 1));
                    }
                    assert(ks.drop_last() =~= nodes_model(node.children@.take(i as int)));
                    assert(ks.last() == node_model(node.children@[i as int]));
                }
                assert(flat_models(out@) =~= flat_models(ob) + seq![mem] + flatten_kids(
                    nodes_model(node.children@.take(i + 1)),
                    world,
                ));
            }
            i = i + 1;
        }
        proof {
            assert(node.children@.take(node.children@.len() as int) =~= node.children@);
            assert(flatten_s(m, *parent_tf) == seq![mem] + flatten_kids(
                nodes_model(node.children@),
                world,
            ));
            assert(flat_models(out@) =~= flat_models(ob) + flatten_s(m, *parent_tf));
        }
    }
}

/// Composing the identity with itself gives the identity.
pub proof fn lemma_combine_identity()
    ensures
        combine_s(identity_s(), identity_s()) == identity_s(),
{
}

/// The identity transform moves nothing.
pub proof fn lemma_apply_identity(v: RwxVertex)
    ensures
        apply_s(identity_s(), v) == v,
{
    assert(apply_s(identity_s(), v) == (RwxVertex {
        x: (v.x as int) as i64,
        y: (v.y as int) as i64,
        z: (v.z as int) as i64,
        u: v.u,
        v: v.v,
    }));
}

/// Along a three-level chain, flattening composes each level's transform
/// onto the inherited one exactly once, in visit order: the grandchild's
/// world transform is the composition of the chain, and its vertices are
/// transformed by that composition alone.
pub proof fn lemma_flatten_chain(a: NodeM, b: NodeM, c: NodeM, p: RwxTransform)
    requires
        a.children == seq![b],
        b.children == seq![c],
        c.children.len() == 0,
    ensures
        flatten_s(a, p).len() == 3,
        flatten_s(a, p)[0].transform == combine_s(p, a.transform),
        flatten_s(a, p)[1].transform == combine_s(combine_s(p, a.transform), b.transform),
        flatten_s(a, p)[2].transform == combine_s(
            combine_s(combine_s(p, a.transform), b.transform),
            c.transform,
        ),
        flatten_s(a, p)[0].vertices == a.vertices.map_values(
            |v: RwxVertex| apply_s(combine_s(p, a.transform), v),
        ),
        flatten_s(a, p)[1].vertices == b.vertices.map_values(
            |v: RwxVertex| apply_s(combine_s(combine_s(p, a.transform), b.transform), v),
        ),
        flatten_s(a, p)[2].vertices == c.vertices.map_values(
            |v: RwxVertex|
                apply_s(combine_s(combine_s(combine_s(p, a.transform), b.transform), c.transform), v),
        ),
{
    let wa = combine_s(p, a.transform);
    let wb = combine_s(wa, b.transform);
    let wc = combine_s(wb, c.transform);
    assert(c.children =~= Seq::<NodeM>::empty());
    assert(flatten_kids(c.children, wb) =~= Seq::<FlatNM>::empty());
    assert(flatten_s(c, wb) =~= seq![
        FlatNM {
            name: c.name,
            vertices: c.vertices.map_values(|v: RwxVertex| apply_s(wc, v)),
            faces: c.faces,
            transform: wc,
        },
    ]);
    assert(b.children.drop_last() =~= Seq::<NodeM>::empty());
    assert(b.children.last() == c);
    assert(a.children.drop_last() =~= Seq::<NodeM>::empty());
    assert(a.children.last() == b);
    assert(flatten_kids(a.children, wa) == flatten_kids(Seq::<NodeM>::empty(), wa) + flatten_s(
        b,
        wa,
    ));
    assert(flatten_kids(Seq::<NodeM>::empty(), wa) =~= Seq::<FlatNM>::empty());
    assert(Seq::<FlatNM>::empty() + flatten_s(b, wa) =~= flatten_s(b, wa));
    assert(flatten_s(b, wa) == seq![
        FlatNM {
            name: b.name,
            vertices: b.vertices.map_values(|v: RwxVertex| apply_s(wb, v)),
            faces: b.faces,
            transform: wb,
        },
    ] + flatten_kids(b.children, wb));
    assert(flatten_kids(b.children, wb) =~= flatten_s(c, wb)) by {
        assert(flatten_kids(b.children, wb) == flatten_kids(Seq::<NodeM>::empty(), wb)
            + flatten_s(c, wb));
        assert(flatten_kids(Seq::<NodeM>::empty(), wb) =~= Seq::<FlatNM>::empty());
        assert(Seq::<FlatNM>::empty() + flatten_s(c, wb) =~= flatten_s(c, wb));
    }
    assert(flatten_s(a, p) == seq![
        FlatNM {
            name: a.name,
            vertices: a.vertices.map_values(|v: RwxVertex| apply_s(wa, v)),
            faces: a.faces,
            transform: wa,
        },
    ] + flatten_kids(a.children, wa));
}

/// A transform holding only a uniform doubling scale exactly doubles every
/// coordinate of a vertex within range; nothing else moves.
pub proof fn lemma_scale_only_doubles(v: RwxVertex)
    requires
        vert_ok(v),
        fx_ok(2 * v.x),
        fx_ok(2 * v.y),
        fx_ok(2 * v.z),
    ensures
        apply_s(
            RwxTransform {
                translate: None,
                rotate: None,
                scale: Some((2_000_000, 2_000_000, 2_000_000)),
            },
            v,
        ) == (RwxVertex { x: (2 * v.x) as i64, y: (2 * v.y) as i64, z: (2 * v.z) as i64, u: v.u, v: v.v }),
{
    lemma_fx_mul_two(v.x as int);
    lemma_fx_mul_two(v.y as int);
    lemma_fx_mul_two(v.z as int);
}

proof fn lemma_fx_mul_two(x: int)
    requires
        fx_ok(x),
        fx_ok(2 * x),
    ensures
        fx_mul_s(x, 2_000_000) == 2 * x,
{
    assert(x * 2_000_000 == (2 * x) * 1_000_000) by (nonlinear_arith);
    if 2 * x >= 0 {
        assert(((2 * x) * 1_000_000) / 1_000_000 == 2 * x) by {
            vstd::arithmetic::div_mod::lemma_fundamental_div_mod_converse_div(
                (2 * x) * 1_000_000,
                1_000_000,
                2 * x,
                0,
            );
        }
        assert((2 * x) * 1_000_000 >= 0) by (nonlinear_arith)
            requires
                2 * x >= 0,
        ;
    } else {
        assert(-((2 * x) * 1_000_000) == (-(2 * x)) * 1_000_000) by (nonlinear_arith);
        assert(((-(2 * x)) * 1_000_000) / 1_000_000 == -(2 * x)) by {
            vstd::arithmetic::div_mod::lemma_fundamental_div_mod_converse_div(
                (-(2 * x)) * 1_000_000,
                1_000_000,
                -(2 * x),
                0,
            );
        }
        assert((2 * x) * 1_000_000 < 0) by (nonlinear_arith)
            requires
                2 * x < 0,
        ;
    }
}

/// A quarter turn about the z axis maps the unit x vertex exactly onto the
/// unit y vertex.
pub proof fn lemma_rotate_quarter_turn_z()
    ensures
        apply_s(
            RwxTransform {
                translate: None,
                rotate: Some((90_000_000, 0, 0, 1_000_000)),
                scale: None,
            },
            RwxVertex { x: 1_000_000, y: 0, z: 0, u: None, v: None },
        ) == (RwxVertex { x: 0, y: 1_000_000, z: 0, u: None, v: None }),
{
    let p = (1_000_000int, 0int, 0int);
    assert(0int * 0 == 0 && 1_000_000int * 1_000_000 == 1_000_000_000_000 && (1_000_000int + 1) * (
    1_000_000int + 1) == 1_000_002_000_001) by (nonlinear_arith);
    let ls = 0int * 0 + 0 * 0 + 1_000_000int * 1_000_000;
    assert(ls == 1_000_000_000_000int);
    assert(is_isqrt(ls, 1_000_000));
    lemma_isqrt_unique(ls, 1_000_000);
    let len = 1_000_000int;
    assert(tdiv(0int * 1_000_000, len) == 0) by {
        vstd::arithmetic::div_mod::lemma_fundamental_div_mod_converse_div(0, len, 0, 0);
    }
    assert(tdiv(1_000_000int * 1_000_000, len) == 1_000_000) by {
        assert(1_000_000int * 1_000_000 == 1_000_000_000_000) by (nonlinear_arith);
        vstd::arithmetic::div_mod::lemma_fundamental_div_mod_converse_div(
            1_000_000_000_000,
            1_000_000,
            1_000_000,
            0,
        );
    }
    // the angle: one quarter turn
    assert(emod360_quarter() == 90_000_000) by {
        vstd::arithmetic::div_mod::lemma_fundamental_div_mod_converse_mod(
            90_000_000,
            360_000_000,
            0,
            90_000_000,
        );
    }
    assert(90_000_000int / 90_000_000 == 1 && 90_000_000int % 90_000_000 == 0) by {
        vstd::arithmetic::div_mod::lemma_fundamental_div_mod_converse_div(
            90_000_000,
            90_000_000,
            1,
            0,
        );
        vstd::arithmetic::div_mod::lemma_fundamental_div_mod_converse_mod(
            90_000_000,
            90_000_000,
            1,
            0,
        );
    }
    crate::trig::lemma_sp_cp_zero();
    assert(sin_deg_s(90_000_000) == 1_000_000);
    assert(cos_deg_s(90_000_000) == 0);
    // all the fixed-point products involved
    lemma_fx_mul_zeros();
    let s = 1_000_000int;
    let c = 0int;
    let omc = 1_000_000int - 0;
    let dot = fx_add_s(
        fx_add_s(fx_mul_s(0, p.0), fx_mul_s(0, p.1)),
        fx_mul_s(1_000_000, p.2),
    );
    assert(dot == 0);
    let rx = fx_add_s(
        fx_add_s(fx_mul_s(fx_mul_s(0, dot), omc), fx_mul_s(p.0, c)),
        fx_mul_s(fx_add_s(fx_mul_s(-1_000_000, p.1), fx_mul_s(0, p.2)), s),
    );
    assert(rx == 0);
    let ry = fx_add_s(
        fx_add_s(fx_mul_s(fx_mul_s(0, dot), omc), fx_mul_s(p.1, c)),
        fx_mul_s(fx_add_s(fx_mul_s(1_000_000, p.0), fx_mul_s(0, p.2)), s),
    );
    assert(fx_mul_s(1_000_000, 1_000_000) == 1_000_000) by {
        assert(1_000_000int * 1_000_000 == 1_000_000_000_000) by (nonlinear_arith);
        vstd::arithmetic::div_mod::lemma_fundamental_div_mod_converse_div(
            1_000_000_000_000,
            1_000_000,
            1_000_000,
            0,
        );
    }
    assert(ry == 1_000_000);
    let rz = fx_add_s(
        fx_add_s(fx_mul_s(fx_mul_s(1_000_000, dot), omc), fx_mul_s(p.2, c)),
        fx_mul_s(fx_add_s(fx_mul_s(0, p.0), fx_mul_s(0, p.1)), s),
    );
    assert(rz == 0);
    assert(rot_apply_s(90_000_000, 0, 0, 1_000_000, p) == (rx, ry, rz));
}

/// The quarter-turn angle reduced by a full turn.
pub open spec fn emod360_quarter() -> int {
    crate::trig::emod360(90_000_000)
}

/// Products with a zero factor vanish in saturating micro-unit arithmetic.
proof fn lemma_fx_mul_zeros()
    ensures
        forall|b: int| #[trigger] fx_mul_s(0, b) == 0,
        forall|a: int| #[trigger] fx_mul_s(a, 0) == 0,
{
    assert forall|b: int| #[trigger] fx_mul_s(0, b) == 0 by {
        assert(0int * b == 0) by (nonlinear_arith);
        assert(tdiv(0int, 1_000_000) == 0) by {
            vstd::arithmetic::div_mod::lemma_fundamental_div_mod_converse_div(0, 1_000_000, 0, 0);
        }
    }
    assert forall|a: int| #[trigger] fx_mul_s(a, 0) == 0 by {
        assert(a * 0int == 0) by (nonlinear_arith);
        assert(tdiv(0int, 1_000_000) == 0) by {
            vstd::arithmetic::div_mod::lemma_fundamental_div_mod_converse_div(0, 1_000_000, 0, 0);
        }
    }
}

} // verus!
