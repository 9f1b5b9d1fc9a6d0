//! Mesh normalization: vertex deduplication and fan triangulation.
//!
//! Two vertices are the same exactly when position and texture coordinates
//! agree after quantization to four decimal digits (micro-units divided by
//! one hundred, truncated toward zero). The first-seen vertex of each key is
//! kept; every later duplicate is remapped to it. Quads and polygons become
//! fans of triangles from their first vertex; polygons with fewer than three
//! indices are dropped silently; a face index outside the vertex table is a
//! fatal error.

use vstd::prelude::*;

use crate::fx::{quant, quant_s};
use crate::semantics::{face_indices, face_mat, FlatMesh, MeshFace, Vertex};

verus! {

/// The quantized identity key of a vertex.
pub open spec fn vkey(v: Vertex) -> (i64, i64, i64, i64, i64) {
    (
        quant_s(v.position.0 as int) as i64,
        quant_s(v.position.1 as int) as i64,
        quant_s(v.position.2 as int) as i64,
        quant_s(v.uv.0 as int) as i64,
        quant_s(v.uv.1 as int) as i64,
    )
}

/// Whether some vertex in the sequence has the given key.
pub open spec fn has_key(s: Seq<Vertex>, k: (i64, i64, i64, i64, i64)) -> bool {
    exists|i: int| 0 <= i < s.len() && vkey(s[i]) == k
}

/// The deduplicated vertex table: the first-seen vertex of each key, in
/// first-seen order.
pub open spec fn dedup_verts(vs: Seq<Vertex>) -> Seq<Vertex>
    decreases vs.len(),
{
    if vs.len() == 0 {
        Seq::empty()
    } else {
        let pre = dedup_verts(vs.drop_last());
        if has_key(pre, vkey(vs.last())) {
            pre
        } else {
            pre.push(vs.last())
        }
    }
}

/// The index in a deduplicated table holding the given key.
pub open spec fn key_idx(s: Seq<Vertex>, k: (i64, i64, i64, i64, i64)) -> int {
    choose|i: int| 0 <= i < s.len() && vkey(s[i]) == k
}

/// Where a vertex of the original table lands in the deduplicated table.
pub open spec fn remap_idx(vs: Seq<Vertex>, idx: int) -> int {
    key_idx(dedup_verts(vs), vkey(vs[idx]))
}

/// All keys in the sequence are pairwise distinct.
pub open spec fn keys_distinct(s: Seq<Vertex>) -> bool {
    forall|i: int, j: int| 0 <= i < j < s.len() ==> vkey(s[i]) != vkey(s[j])
}

pub proof fn lemma_dedup_distinct(vs: Seq<Vertex>)
    ensures
        keys_distinct(dedup_verts(vs)),
        forall|k: (i64, i64, i64, i64, i64)|
            #[trigger] has_key(dedup_verts(vs), k) <==> has_key(vs, k),
    decreases vs.len(),
{
    if vs.len() > 0 {
        lemma_dedup_distinct(vs.drop_last());
        let pre = dedup_verts(vs.drop_last());
        let out = dedup_verts(vs);
        assert forall|k: (i64, i64, i64, i64, i64)| #[trigger]
            has_key(out, k) <==> has_key(vs, k) by {
            if has_key(out, k) {
                let i = choose|i: int| 0 <= i < out.len() && vkey(out[i]) == k;
                if i < pre.len() {
                    assert(has_key(pre, k));
                    let j = choose|j: int| 0 <= j < vs.drop_last().len() && vkey(
                        vs.drop_last()[j],
                    ) == k;
                    assert(vkey(vs[j]) == k);
                } else {
                    assert(out[i] == vs.last());
                    assert(vkey(vs[vs.len() - 1]) == k);
                }
            }
            if has_key(vs, k) {
                let j = choose|j: int| 0 <= j < vs.len() && vkey(vs[j]) == k;
                if j < vs.len() - 1 {
                    assert(vs.drop_last()[j] == vs[j]);
                    assert(has_key(vs.drop_last(), k));
                    assert(has_key(pre, k));
                    let i = choose|i: int| 0 <= i < pre.len() && vkey(pre[i]) == k;
                    if has_key(pre, vkey(vs.last())) {
                        assert(out[i] == pre[i]);
                    } else {
                        assert(out[i] == pre[i]);
                    }
                    assert(has_key(out, k));
                } else {
                    if has_key(pre, k) {
                        let i = choose|i: int| 0 <= i < pre.len() && vkey(pre[i]) == k;
                        assert(out[i] == pre[i]);
                        assert(has_key(out, k));
                    } else {
                        assert(out[out.len() - 1] == vs.last());
                        assert(has_key(out, k));
                    }
                }
            }
        }
    }
}

/// Every vertex of the original table has its key in the deduplicated one.
pub proof fn lemma_dedup_covers(vs: Seq<Vertex>, idx: int)
    requires
        0 <= idx < vs.len(),
    ensures
        has_key(dedup_verts(vs), vkey(vs[idx])),
{
    lemma_dedup_distinct(vs);
    assert(has_key(vs, vkey(vs[idx])));
}

/// In a table with pairwise distinct keys, `key_idx` is the one index
/// holding the key.
pub proof fn lemma_key_idx_unique(s: Seq<Vertex>, j: int)
    requires
        keys_distinct(s),
        0 <= j < s.len(),
    ensures
        key_idx(s, vkey(s[j])) == j,
{
    let k = vkey(s[j]);
    assert(0 <= j < s.len() && vkey(s[j]) == k);
    let i = choose|i: int| 0 <= i < s.len() && vkey(s[i]) == k;
    if i != j {
        if i < j {
            assert(vkey(s[i]) != vkey(s[j]));
        } else {
            assert(vkey(s[j]) != vkey(s[i]));
        }
    }
}

/// Deduplicating a table whose keys are already pairwise distinct keeps it
/// unchanged.
pub proof fn lemma_dedup_of_distinct(vs: Seq<Vertex>)
    requires
        keys_distinct(vs),
    ensures
        dedup_verts(vs) =~= vs,
    decreases vs.len(),
{
    if vs.len() > 0 {
        assert(keys_distinct(vs.drop_last())) by {
            assert(forall|i: int, j: int|
                0 <= i < j < vs.drop_last().len() ==> vkey(vs.drop_last()[i]) != vkey(
                    vs.drop_last()[j],
                ));
        }
        lemma_dedup_of_distinct(vs.drop_last());
        let pre = dedup_verts(vs.drop_last());
        if has_key(pre, vkey(vs.last())) {
            let i = choose|i: int| 0 <= i < pre.len() && vkey(pre[i]) == vkey(vs.last());
            assert(vs.drop_last()[i] == vs[i]);
            assert(vkey(vs[i]) != vkey(vs[vs.len() - 1]));
            assert(false);
        }
    }
}

/// Vertex deduplication is idempotent: deduplicating an already
/// deduplicated table keeps every vertex, and the remapping of the result
/// onto itself is the identity.
pub proof fn lemma_dedup_idempotent(vs: Seq<Vertex>)
    ensures
        dedup_verts(dedup_verts(vs)) == dedup_verts(vs),
        forall|i: int|
            0 <= i < dedup_verts(vs).len() ==> #[trigger] remap_idx(dedup_verts(vs), i) == i,
{
    lemma_dedup_distinct(vs);
    lemma_dedup_of_distinct(dedup_verts(vs));
    let out = dedup_verts(vs);
    assert forall|i: int| 0 <= i < out.len() implies #[trigger] remap_idx(out, i) == i by {
        lemma_key_idx_unique(out, i);
        assert(dedup_verts(out) == out);
    }
}

/// The fan decomposition of an index list: `n - 2` triangles all sharing
/// the first index.
pub open spec fn fan_split(idx: Seq<int>) -> Seq<(int, int, int)> {
    Seq::new((idx.len() - 2) as nat, |t: int| (idx[0], idx[t + 1], idx[t + 2]))
}

/// A triangle of the normalized mesh: three deduplicated-table indices and
/// a material name.
pub ghost struct TriM {
    pub a: int,
    pub b: int,
    pub c: int,
    pub mat: Seq<char>,
}

/// All indices of a face lie inside the vertex table.
pub open spec fn face_ok(idx: Seq<int>, vs: Seq<Vertex>) -> bool {
    forall|i: int| 0 <= i < idx.len() ==> 0 <= #[trigger] idx[i] < vs.len()
}

/// A face that is dropped silently: a polygon with fewer than three
/// indices.
pub open spec fn face_dropped(f: MeshFace) -> bool {
    (f matches MeshFace::Poly(v, _)) && face_indices(f).len() < 3
}

/// The triangles a single face contributes: its fan, remapped onto the
/// deduplicated table, its material copied to every triangle.
pub open spec fn face_tris(f: MeshFace, vs: Seq<Vertex>) -> Seq<TriM> {
    Seq::new(
        (face_indices(f).len() - 2) as nat,
        |t: int|
            TriM {
                a: remap_idx(vs, face_indices(f)[0]),
                b: remap_idx(vs, face_indices(f)[t + 1]),
                c: remap_idx(vs, face_indices(f)[t + 2]),
                mat: face_mat(f),
            },
    )
}

/// Error of mesh normalization: a face referenced a vertex index outside
/// the table.
#[derive(Debug, Clone, Copy, PartialEq, Eq, Structural)]
pub struct MeshError {
    pub face: usize,
    pub index: u32,
}

/// The first out-of-range index of a face, if any.
pub open spec fn first_bad_index(idx: Seq<int>, vs: Seq<Vertex>) -> int
    decreases idx.len(),
{
    if idx.len() == 0 {
        0
    } else if !(0 <= idx[0] < vs.len()) {
        idx[0]
    } else {
        first_bad_index(idx.drop_first(), vs)
    }
}

/// The normalized face list from face `k` onward: triangles of each face in
/// order, or the first resolution error.
pub open spec fn norm_faces(fs: Seq<MeshFace>, vs: Seq<Vertex>, k: int) -> Result<
    Seq<TriM>,
    MeshError,
>
    decreases fs.len() - k,
{
    if k < 0 || k >= fs.len() {
        Ok(Seq::empty())
    } else {
        let f = fs[k];
        if face_dropped(f) {
            norm_faces(fs, vs, k + 1)
        } else if !face_ok(face_indices(f), vs) {
            Err(
                MeshError {
                    face: k as usize,
                    index: first_bad_index(face_indices(f), vs) as u32,
                },
            )
        } else {
            match norm_faces(fs, vs, k + 1) {
                Ok(rest) => Ok(face_tris(f, vs) + rest),
                Err(e) => Err(e),
            }
        }
    }
}

/// A mesh with deduplicated vertices and triangle-only faces.
#[derive(Debug, Clone)]
pub struct NormalizedMesh {
    pub vertices: Vec<Vertex>,
    pub faces: Vec<MeshFace>,
}

/// The model of an output triangle list: every face is a three-index
/// polygon.
pub open spec fn tris_model(fs: Seq<MeshFace>) -> Seq<TriM> {
    fs.map_values(
        |f: MeshFace|
            TriM {
                a: face_indices(f)[0],
                b: face_indices(f)[1],
                c: face_indices(f)[2],
                mat: face_mat(f),
            },
    )
}

/// Every face is a polygon of exactly three indices.
pub open spec fn all_triangles(fs: Seq<MeshFace>) -> bool {
    forall|i: int|
        0 <= i < fs.len() ==> (((#[trigger] fs[i]) matches MeshFace::Poly(v, _)) && face_indices(
            fs[i],
        ).len() == 3)
}

/// The deduplicated table is never longer than the original.
pub proof fn lemma_dedup_len(vs: Seq<Vertex>)
    ensures
        dedup_verts(vs).len() <= vs.len(),
    decreases vs.len(),
{
    if vs.len() > 0 {
        lemma_dedup_len(vs.drop_last());
    }
}

/// A vertex-key lookup table for deduplication, backed by a hash map of the
/// hashbrown crate. The table itself is opaque to verification; its
/// contents are named by [`key_map_of`] and pinned by the wrappers below.
#[verifier::external_body]
pub struct KeyMap {
    inner: hashbrown::HashMap<(i64, i64, i64, i64, i64), usize>,
}

/// The contents of a [`KeyMap`].
pub uninterp spec fn key_map_of(m: KeyMap) -> Map<(i64, i64, i64, i64, i64), usize>;

/// Relies on hashbrown's `HashMap::new`: a newly created map is empty.
#[verifier::external_body]
fn key_map_new() -> (m: KeyMap)
    ensures
        (key_map_of(m) == Map::<(i64, i64, i64, i64, i64), usize>::empty()),
{
    KeyMap { inner: hashbrown::HashMap::new() }
}

/// Relies on hashbrown's `HashMap::insert`: the value is stored under the
/// key, every other entry is unchanged, and the value previously under the
/// key is handed back.
#[verifier::external_body]
fn key_map_insert(m: &mut KeyMap, k: (i64, i64, i64, i64, i64), v: usize) -> (prev: Option<usize>)
    ensures
        key_map_of(*final(m)) == key_map_of(*old(m)).insert(k, v),
        prev == if key_map_of(*old(m)).dom().contains(k) {
            Some(key_map_of(*old(m))[k])
        } else {
            None::<usize>
        },
{
    m.inner.insert(k, v)
}

/// Relies on hashbrown's `HashMap::get`: the value stored under the key,
/// if the key is present.
#[verifier::external_body]
fn key_map_get(m: &KeyMap, k: (i64, i64, i64, i64, i64)) -> (r: Option<usize>)
    ensures
        r == if key_map_of(*m).dom().contains(k) {
            Some(key_map_of(*m)[k])
        } else {
            None::<usize>
        },
{
    m.inner.get(&k).copied()
}

/// The quantized key of a vertex, as the deduplication table uses it.
fn vertex_key(v: &Vertex) -> (k: (i64, i64, i64, i64, i64))
    ensures
        k == vkey(*v),
{
    (quant(v.position.0), quant(v.position.1), quant(v.position.2), quant(v.uv.0), quant(v.uv.1))
}

/// A lookup table agrees with a deduplicated vertex table: it maps exactly
/// the keys of the table, each to its index there.
pub open spec fn map_matches(m: Map<(i64, i64, i64, i64, i64), usize>, out: Seq<Vertex>) -> bool {
    &&& forall|j: int|
        0 <= j < out.len() ==> m.dom().contains(#[trigger] vkey(out[j])) && m[vkey(out[j])] as int
            == j
    &&& forall|k: (i64, i64, i64, i64, i64)| #[trigger] m.dom().contains(k) ==> has_key(out, k)
}

/// The set of all indices occurring in a fan decomposition.
pub open spec fn tri_index_set(ts: Seq<(int, int, int)>) -> Set<int> {
    Set::new(
        |x: int|
            exists|t: int|
                0 <= t < ts.len() && ((#[trigger] ts[t]).0 == x || ts[t].1 == x || ts[t].2 == x),
    )
}

/// Fan triangulation of a quad: exactly the two triangles over its first,
/// second, third and its first, third, fourth index.
pub proof fn lemma_quad_fan(idx: Seq<int>)
    requires
        idx.len() == 4,
    ensures
        fan_split(idx) =~= seq![(idx[0], idx[1], idx[2]), (idx[0], idx[2], idx[3])],
{
}

/// Fan triangulation of a polygon of `n` indices gives `n - 2` triangles,
/// and the set of indices they use is exactly the polygon's index set.
pub proof fn lemma_fan_count_and_indices(idx: Seq<int>)
    requires
        idx.len() >= 3,
    ensures
        fan_split(idx).len() == idx.len() - 2,
        tri_index_set(fan_split(idx)) =~= idx.to_set(),
{
    let ts = fan_split(idx);
    assert forall|x: int| tri_index_set(ts).contains(x) implies idx.to_set().contains(x) by {
        let t = choose|t: int|
            0 <= t < ts.len() && ((#[trigger] ts[t]).0 == x || ts[t].1 == x || ts[t].2 == x);
        if ts[t].0 == x {
            assert(idx[0] == x);
        } else if ts[t].1 == x {
            assert(idx[t + 1] == x);
        } else {
            assert(idx[t + 2] == x);
        }
    }
    assert forall|x: int| idx.to_set().contains(x) implies tri_index_set(ts).contains(x) by {
        let j = choose|j: int| 0 <= j < idx.len() && idx[j] == x;
        if j == 0 {
            assert(ts[0].0 == x);
        } else if j <= idx.len() - 2 {
            assert(ts[j - 1].1 == x);
        } else {
            assert(ts[idx.len() - 3].2 == x);
        }
    }
}

/// A quad face contributes exactly two triangles: its first, second and
/// third index, and its first, third and fourth, each remapped onto the
/// deduplicated table, both carrying the quad's material.
pub proof fn lemma_quad_face_triangles(f: MeshFace, vs: Seq<Vertex>)
    requires
        f matches MeshFace::Quad(_, _, _, _, _),
    ensures
        face_tris(f, vs).len() == 2,
        face_tris(f, vs)[0] == (TriM {
            a: remap_idx(vs, face_indices(f)[0]),
            b: remap_idx(vs, face_indices(f)[1]),
            c: remap_idx(vs, face_indices(f)[2]),
            mat: face_mat(f),
        }),
        face_tris(f, vs)[1] == (TriM {
            a: remap_idx(vs, face_indices(f)[0]),
            b: remap_idx(vs, face_indices(f)[2]),
            c: remap_idx(vs, face_indices(f)[3]),
            mat: face_mat(f),
        }),
{
}

/// Every triangle a face contributes carries the face's material, and the
/// triangles follow the face's fan decomposition, remapped.
pub proof fn lemma_face_tris_fan(f: MeshFace, vs: Seq<Vertex>)
    requires
        face_indices(f).len() >= 3,
    ensures
        face_tris(f, vs).len() == fan_split(face_indices(f)).len(),
        forall|t: int|
            0 <= t < face_tris(f, vs).len() ==> (#[trigger] face_tris(f, vs)[t]).mat == face_mat(
                f,
            ) && face_tris(f, vs)[t].a == remap_idx(vs, fan_split(face_indices(f))[t].0)
                && face_tris(f, vs)[t].b == remap_idx(vs, fan_split(face_indices(f))[t].1)
                && face_tris(f, vs)[t].c == remap_idx(vs, fan_split(face_indices(f))[t].2),
{
}

/// Where one vertex index lands in the deduplicated table.
fn remap_vertex(original: u32, verts: &Vec<Vertex>, map: &KeyMap) -> (r: u32)
    requires
        (original as int) < verts@.len(),
        verts@.len() <= u32::MAX as int,
        map_matches(key_map_of(*map), dedup_verts(verts@)),
    ensures
        r as int == remap_idx(verts@, original as int),
        (r as int) < dedup_verts(verts@).len(),
{
    let ghost vs = verts@;
    let ghost out = dedup_verts(vs);
    let v = verts[original as usize];
    let k = vertex_key(&v);
    proof {
        lemma_dedup_covers(vs, original as int);
        lemma_dedup_distinct(vs);
        lemma_dedup_len(vs);
        let j = choose|j: int| 0 <= j < out.len() && vkey(out[j]) == vkey(vs[original as int]);
        assert(key_map_of(*map).dom().contains(vkey(out[j])));
    }
    match key_map_get(map, k) {
        Some(j) => {
            proof {
                let jj = choose|jj: int| 0 <= jj < out.len() && vkey(out[jj]) == k;
                assert(key_map_of(*map)[vkey(out[jj])] as int == jj);
                lemma_key_idx_unique(out, jj);
            }
            j as u32
        },
        None => {
            proof {
                let j = choose|j: int| 0 <= j < out.len() && vkey(out[j]) == k;
                assert(key_map_of(*map).dom().contains(vkey(out[j])));
                assert(false);
            }
            0
        },
    }
}

/// The indices of a face as mathematical integers.
pub open spec fn idx_ints(s: Seq<u32>) -> Seq<int> {
    s.map_values(|k: u32| k as int)
}

pub proof fn lemma_first_bad_at(idx: Seq<int>, vs: Seq<Vertex>, t: int)
    requires
        0 <= t < idx.len(),
        forall|q: int| 0 <= q < t ==> 0 <= #[trigger] idx[q] < vs.len(),
        !(0 <= idx[t] < vs.len()),
    ensures
        first_bad_index(idx, vs) == idx[t],
    decreases t,
{
    if t == 0 {
    } else {
        let d = idx.drop_first();
        assert(forall|q: int| 0 <= q < t - 1 ==> 0 <= #[trigger] d[q] < vs.len());
        assert(d[t - 1] == idx[t]);
        lemma_first_bad_at(d, vs, t - 1);
    }
}

/// Check a face's indices against the vertex table and remap each onto the
/// deduplicated table; the first out-of-range index is the error.
fn remap_checked(fi: usize, idx: &Vec<u32>, verts: &Vec<Vertex>, map: &KeyMap) -> (r: Result<
    Vec<u32>,
    MeshError,
>)
    requires
        verts@.len() <= u32::MAX as int,
        map_matches(key_map_of(*map), dedup_verts(verts@)),
    ensures
        match r {
            Ok(rs) => face_ok(idx_ints(idx@), verts@) && rs@.len() == idx@.len() && (forall|q: int|
                0 <= q < idx@.len() ==> (#[trigger] rs@[q]) as int == remap_idx(
                    verts@,
                    idx@[q] as int,
                )),
            Err(e) => !face_ok(idx_ints(idx@), verts@) && e == (MeshError {
                face: fi,
                index: first_bad_index(idx_ints(idx@), verts@) as u32,
            }),
        },
{
    let mut rs: Vec<u32> = Vec::new();
    let mut q: usize = 0;
    let nv = verts.len();
    while q < idx.len()
        invariant
            q <= idx@.len(),
            nv == verts@.len(),
            verts@.len() <= u32::MAX as int,
            map_matches(key_map_of(*map), dedup_verts(verts@)),
            rs@.len() == q,
            forall|p: int|
                0 <= p < q ==> 0 <= #[trigger] idx_ints(idx@)[p] < verts@.len(),
            forall|p: int|
                0 <= p < q ==> (#[trigger] rs@[p]) as int == remap_idx(verts@, idx@[p] as int),
        decreases idx@.len() - q,
    {
        let o = idx[q];
        if (o as usize) >= nv {
            proof {
                lemma_first_bad_at(idx_ints(idx@), verts@, q as int);
            }
            return Err(MeshError { face: fi, index: o });
        }
        let j = remap_vertex(o, verts, map);
        rs.push(j);
        q = q + 1;
    }
    Ok(rs)
}

proof fn lemma_tris_model_push(fs: Seq<MeshFace>, f: MeshFace)
    ensures
        tris_model(fs.push(f)) =~= tris_model(fs).push(
            TriM {
                a: face_indices(f)[0],
                b: face_indices(f)[1],
                c: face_indices(f)[2],
                mat: face_mat(f),
            },
        ),
{
}

/// Normalize a flat mesh: deduplicate its vertices and turn every face
/// into triangles by fans, remapping all indices onto the deduplicated
/// table. Fails exactly when some face references a vertex index outside
/// the table.
pub fn normalize(flat: &FlatMesh) -> (r: Result<NormalizedMesh, MeshError>)
    requires
        flat.vertices@.len() <= u32::MAX as int,
    ensures
        r is Ok <==> norm_faces(flat.faces@, flat.vertices@, 0) is Ok,
        (r matches Ok(nm) ==> nm.vertices@ == dedup_verts(flat.vertices@) && all_triangles(
            nm.faces@,
        ) && (norm_faces(flat.faces@, flat.vertices@, 0) matches Ok(tris) && tris_model(nm.faces@)
            == tris)),
        (r matches Err(e) ==> (norm_faces(flat.faces@, flat.vertices@, 0) matches Err(e2) && e
            == e2)),
{
    let ghost vs = flat.vertices@;
    let ghost fs = flat.faces@;
    let mut out_vertices: Vec<Vertex> = Vec::new();
    let mut km = key_map_new();
    let mut i: usize = 0;
    proof {
        assert(vs.take(0) =~= Seq::<Vertex>::empty());
    }
    while i < flat.vertices.len()
        invariant
            i <= vs.len(),
            vs == flat.vertices@,
            out_vertices@ == dedup_verts(vs.take(i as int)),
            map_matches(key_map_of(km), out_vertices@),
        decreases vs.len() - i,
    {
        let v = flat.vertices[i];
        let k = vertex_key(&v);
        proof {
            assert(vs.take(i + 1).drop_last() =~= vs.take(i as int));
            assert(vs.take(i + 1).last() == vs[i as int]);
        }
        match key_map_get(&km, k) {
            Some(_) => {
                proof {
                    assert(has_key(out_vertices@, k));
                }
            },
            None => {
                proof {
                    if has_key(out_vertices@, k) {
                        let j = choose|j: int|
                            0 <= j < out_vertices@.len() && vkey(out_vertices@[j]) == k;
                        assert(key_map_of(km).dom().contains(vkey(out_vertices@[j])));
                        assert(false);
                    }
                }
                let idx = out_vertices.len();
                let ghost ob = out_vertices@;
                out_vertices.push(v);
                key_map_insert(&mut km, k, idx);
                proof {
                    assert(out_vertices@ =~= ob.push(v));
                    assert forall|j: int| 0 <= j < out_vertices@.len() implies key_map_of(
                        km,
                    ).dom().contains(#[trigger] vkey(out_vertices@[j])) && key_map_of(km)[vkey(
                        out_vertices@[j],
                    )] as int == j by {
                        if j < ob.len() {
                            assert(out_vertices@[j] == ob[j]);
                            assert(vkey(ob[j]) != k);
                        } else {
                            assert(out_vertices@[j] == v);
                        }
                    }
                    assert forall|kk: (i64, i64, i64, i64, i64)| #[trigger] key_map_of(
                        km,
                    ).dom().contains(kk) implies has_key(out_vertices@, kk) by {
                        if kk == k {
                            assert(vkey(out_vertices@[ob.len() as int]) == kk);
                        } else {
                            assert(has_key(ob, kk));
                            let j = choose|j: int| 0 <= j < ob.len() && vkey(ob[j]) == kk;
                            assert(vkey(out_vertices@[j]) == kk);
                        }
                    }
                }
            },
        }
        i = i + 1;
    }
    proof {
        assert(vs.take(vs.len() as int) =~= vs);
    }
    let ghost outv = dedup_verts(vs);
    let mut out_faces: Vec<MeshFace> = Vec::new();
    let mut fi: usize = 0;
    proof {
        assert(tris_model(out_faces@) =~= Seq::<TriM>::empty());
        if norm_faces(fs, vs, 0) is Ok {
            assert(norm_faces(fs, vs, 0) == match norm_faces(fs, vs, 0int) {
                Ok(rest) => Ok::<Seq<TriM>, MeshError>(tris_model(out_faces@) + rest),
                Err(e) => Err(e),
            }) by {
                assert(tris_model(out_faces@) + norm_faces(fs, vs, 0)->Ok_0 =~= norm_faces(
                    fs,
                    vs,
                    0,
                )->Ok_0);
            }
        }
    }
    while fi < flat.faces.len()
        invariant
            fi <= fs.len(),
            vs == flat.vertices@,
            fs == flat.faces@,
            vs.len() <= u32::MAX as int,
            out_vertices@ == outv,
            outv == dedup_verts(vs),
            map_matches(key_map_of(km), outv),
            all_triangles(out_faces@),
            norm_faces(fs, vs, 0) == (match norm_faces(fs, vs, fi as int) {
                Ok(rest) => Ok::<Seq<TriM>, MeshError>(tris_model(out_faces@) + rest),
                Err(e) => Err(e),
            }),
        decreases fs.len() - fi,
    {
        let ghost f = fs[fi as int];
        match &flat.faces[fi] {
            MeshFace::Quad(a, b, c, d, m) => {
                let qidx: Vec<u32> = vec![*a, *b, *c, *d];
                proof {
                    assert(idx_ints(qidx@) =~= face_indices(f));
                }
                match remap_checked(fi, &qidx, &flat.vertices, &km) {
                    Ok(rs) => {
                        let ghost ob = out_faces@;
                        let t0 = MeshFace::Poly(vec![rs[0], rs[1], rs[2]], m.clone());
                        out_faces.push(t0);
                        let t1 = MeshFace::Poly(vec![rs[0], rs[2], rs[3]], m.clone());
                        out_faces.push(t1);
                        proof {
                            lemma_tris_model_push(ob, t0);
                            lemma_tris_model_push(ob.push(t0), t1);
                            assert(face_indices(t0) =~= seq![
                                rs@[0] as int,
                                rs@[1] as int,
                                rs@[2] as int,
                            ]);
                            assert(face_indices(t1) =~= seq![
                                rs@[0] as int,
                                rs@[2] as int,
                                rs@[3] as int,
                            ]);
                            assert(tris_model(out_faces@) =~= tris_model(ob) + face_tris(f, vs))
                                by {
                                assert(face_tris(f, vs).len() == 2);
                                assert(tris_model(out_faces@).len() == tris_model(ob).len() + 2);
                                assert(face_tris(f, vs)[0] == TriM {
                                    a: remap_idx(vs, face_indices(f)[0]),
                                    b: remap_idx(vs, face_indices(f)[1]),
                                    c: remap_idx(vs, face_indices(f)[2]),
                                    mat: face_mat(f),
                                });
                                assert(face_tris(f, vs)[1] == TriM {
                                    a: remap_idx(vs, face_indices(f)[0]),
                                    b: remap_idx(vs, face_indices(f)[2]),
                                    c: remap_idx(vs, face_indices(f)[3]),
                                    mat: face_mat(f),
                                });
                            }
                            assert(norm_faces(fs, vs, fi as int) == match norm_faces(
                                fs,
                                vs,
                                fi + 1,
                            ) {
                                Ok(rest) => Ok::<Seq<TriM>, MeshError>(face_tris(f, vs) + rest),
                                Err(e) => Err(e),
                            });
                            if norm_faces(fs, vs, fi + 1) is Ok {
                                assert((tris_model(ob) + face_tris(f, vs)) + norm_faces(
                                    fs,
                                    vs,
                                    fi + 1,
                                )->Ok_0 =~= tris_model(ob) + (face_tris(f, vs) + norm_faces(
                                    fs,
                                    vs,
                                    fi + 1,
                                )->Ok_0));
                            }
                        }
                    },
                    Err(e) => {
                        return Err(e);
                    },
                }
            },
            MeshFace::Poly(v, m) => {
                if v.len() < 3 {
                    proof {
                        assert(face_indices(f) =~= idx_ints(v@));
                        assert(face_dropped(f));
                    }
                } else {
                    proof {
                        assert(idx_ints(v@) =~= face_indices(f));
                    }
                    match remap_checked(fi, v, &flat.vertices, &km) {
                        Ok(rs) => {
                            let ghost ob = out_faces@;
                            let nn = rs.len();
                            let mut t: usize = 1;
                            proof {
                                assert(tris_model(out_faces@) =~= tris_model(ob) + face_tris(
                                    f,
                                    vs,
                                ).take(0));
                            }
                            while t + 1 < nn
                                invariant
                                    1 <= t,
                                    t + 1 <= nn,
                                    nn == rs@.len(),
                                    nn == face_indices(f).len(),
                                    nn >= 3,
                                    vs == flat.vertices@,
                                    f == fs[fi as int],
                                    face_mat(f) == m@,
                                    forall|p: int|
                                        0 <= p < nn ==> (#[trigger] rs@[p]) as int == remap_idx(
                                            vs,
                                            face_indices(f)[p],
                                        ),
                                    all_triangles(out_faces@),
                                    tris_model(out_faces@) =~= tris_model(ob) + face_tris(
                                        f,
                                        vs,
                                    ).take(t - 1),
                                decreases nn - t,
                            {
                                let ghost obb = out_faces@;
                                let tri = MeshFace::Poly(
                                    vec![rs[0], rs[t], rs[t + 1]],
                                    m.clone(),
                                );
                                out_faces.push(tri);
                                proof {
                                    lemma_tris_model_push(obb, tri);
                                    assert(face_indices(tri) =~= seq![
                                        rs@[0] as int,
                                        rs@[t as int] as int,
                                        rs@[t + 1] as int,
                                    ]);
                                    assert(face_tris(f, vs)[t - 1] == TriM {
                                        a: remap_idx(vs, face_indices(f)[0]),
                                        b: remap_idx(vs, face_indices(f)[t as int]),
                                        c: remap_idx(vs, face_indices(f)[t + 1]),
                                        mat: face_mat(f),
                                    });
                                    assert(face_mat(tri) == face_mat(f));
                                    assert(TriM {
                                        a: face_indices(tri)[0],
                                        b: face_indices(tri)[1],
                                        c: face_indices(tri)[2],
                                        mat: face_mat(tri),
                                    } == face_tris(f, vs)[t - 1]);
                                    assert(face_tris(f, vs).take(t as int) =~= face_tris(
                                        f,
                                        vs,
                                    ).take(t - 1).push(face_tris(f, vs)[t - 1]));
                                    assert(tris_model(out_faces@) =~= tris_model(ob) + face_tris(
                                        f,
                                        vs,
                                    ).take(t as int));
                                }
                                t = t + 1;
                            }
                            proof {
                                assert(face_tris(f, vs).take(t - 1) =~= face_tris(f, vs));
                                assert(norm_faces(fs, vs, fi as int) == match norm_faces(
                                    fs,
                                    vs,
                                    fi + 1,
                                ) {
                                    Ok(rest) => Ok::<Seq<TriM>, MeshError>(
                                        face_tris(f, vs) + rest,
                                    ),
                                    Err(e) => Err(e),
                                });
                                if norm_faces(fs, vs, fi + 1) is Ok {
                                    assert((tris_model(ob) + face_tris(f, vs)) + norm_faces(
                                        fs,
                                        vs,
                                        fi + 1,
                                    )->Ok_0 =~= tris_model(ob) + (face_tris(f, vs) + norm_faces(
                                        fs,
                                        vs,
                                        fi + 1,
                                    )->Ok_0));
                                }
                            }
                        },
                        Err(e) => {
                            return Err(e);
                        },
                    }
                }
            },
        }
        fi = fi + 1;
    }
    Ok(NormalizedMesh { vertices: out_vertices, faces: out_faces })
}

} // verus!
