use rwx_core::ast::RwxVertex;
use rwx_core::meshnorm::normalize;
use rwx_core::scene::{RwxNode, RwxScene, RwxTransform};
use rwx_core::semantics::{FlatMesh, MeshFace, Vertex};

fn v(x: i64, y: i64, z: i64) -> Vertex {
    Vertex { position: (x, y, z), uv: (0, 0) }
}

fn tri(f: &MeshFace) -> (u32, u32, u32, String) {
    match f {
        MeshFace::Poly(ix, m) => (ix[0], ix[1], ix[2], m.clone()),
        MeshFace::Quad(..) => panic!("normalized mesh should hold triangles only"),
    }
}

#[test]
fn quad_becomes_two_triangles_with_material() {
    let flat = FlatMesh {
        vertices: vec![v(0, 0, 0), v(1_000_000, 0, 0), v(1_000_000, 1_000_000, 0), v(0, 1_000_000, 0)],
        faces: vec![MeshFace::Quad(0, 1, 2, 3, "wood".to_string())],
    };
    let nm = normalize(&flat).expect("resolvable quad");
    assert_eq!(nm.vertices.len(), 4);
    assert_eq!(nm.faces.len(), 2);
    assert_eq!(tri(&nm.faces[0]), (0, 1, 2, "wood".to_string()));
    assert_eq!(tri(&nm.faces[1]), (0, 2, 3, "wood".to_string()));
}

#[test]
fn polygon_fans_into_n_minus_two_triangles() {
    let flat = FlatMesh {
        vertices: vec![
            v(0, 0, 0),
            v(1_000_000, 0, 0),
            v(2_000_000, 0, 0),
            v(3_000_000, 0, 0),
            v(4_000_000, 0, 0),
        ],
        faces: vec![MeshFace::Poly(vec![0, 1, 2, 3, 4], "m".to_string())],
    };
    let nm = normalize(&flat).expect("resolvable polygon");
    assert_eq!(nm.faces.len(), 3);
    let ts: Vec<(u32, u32, u32)> = nm.faces.iter().map(|f| {
        let (a, b, c, _) = tri(f);
        (a, b, c)
    }).collect();
    assert_eq!(ts, vec![(0, 1, 2), (0, 2, 3), (0, 3, 4)]);
    // the union of triangle indices is exactly the polygon's index set
    let mut used: Vec<u32> = ts.iter().flat_map(|t| vec![t.0, t.1, t.2]).collect();
    used.sort_unstable();
    used.dedup();
    assert_eq!(used, vec![0, 1, 2, 3, 4]);
}

#[test]
fn short_polygon_is_dropped_silently() {
    let flat = FlatMesh {
        vertices: vec![v(0, 0, 0), v(1_000_000, 0, 0)],
        faces: vec![MeshFace::Poly(vec![0, 1], "m".to_string())],
    };
    let nm = normalize(&flat).expect("short polygon drops");
    assert_eq!(nm.faces.len(), 0);
}

#[test]
fn deduplication_is_idempotent() {
    // two vertices agree after four-digit quantization, the third differs
    let flat = FlatMesh {
        vertices: vec![v(1_000_000, 0, 0), v(1_000_049, 0, 0), v(1_000_100, 0, 0)],
        faces: vec![MeshFace::Poly(vec![0, 1, 2], "m".to_string())],
    };
    let once = normalize(&flat).expect("first pass");
    assert_eq!(once.vertices.len(), 2);
    assert_eq!(tri(&once.faces[0]), (0, 0, 1, "m".to_string()));
    let again = normalize(
        &FlatMesh { vertices: once.vertices.clone(), faces: once.faces.clone() },
    ).expect("second pass");
    assert_eq!(again.vertices.len(), once.vertices.len());
    // the remapping of an already deduplicated table is the identity
    assert_eq!(tri(&again.faces[0]), (0, 0, 1, "m".to_string()));
}

#[test]
fn out_of_range_index_reports_face_and_index() {
    let flat = FlatMesh {
        vertices: vec![v(0, 0, 0)],
        faces: vec![MeshFace::Poly(vec![0, 0, 7], "m".to_string())],
    };
    let err = normalize(&flat).expect_err("unresolvable face");
    assert_eq!(err.face, 0);
    assert_eq!(err.index, 7);
}

fn leaf(name: &str, verts: Vec<RwxVertex>, t: RwxTransform, children: Vec<RwxNode>) -> RwxNode {
    RwxNode { name: name.to_string(), vertices: verts, faces: Vec::new(), transform: t, children }
}

fn rv(x: i64, y: i64, z: i64) -> RwxVertex {
    RwxVertex { x, y, z, u: None, v: None }
}

#[test]
fn scale_only_doubles_coordinates() {
    let t = RwxTransform {
        translate: None,
        rotate: None,
        scale: Some((2_000_000, 2_000_000, 2_000_000)),
    };
    let r = t.apply(&rv(1_000_000, -2_000_000, 3_500_000));
    assert_eq!((r.x, r.y, r.z), (2_000_000, -4_000_000, 7_000_000));
}

#[test]
fn quarter_turn_about_z_maps_x_to_y() {
    let t = RwxTransform {
        translate: None,
        rotate: Some((90_000_000, 0, 0, 1_000_000)),
        scale: None,
    };
    let r = t.apply(&rv(1_000_000, 0, 0));
    assert_eq!((r.x, r.y, r.z), (0, 1_000_000, 0));
}

#[test]
fn zero_axis_rotation_is_identity() {
    let t = RwxTransform { translate: None, rotate: Some((90_000_000, 0, 0, 0)), scale: None };
    let r = t.apply(&rv(1_000_000, 2_000_000, 3_000_000));
    assert_eq!((r.x, r.y, r.z), (1_000_000, 2_000_000, 3_000_000));
}

#[test]
fn three_level_chain_composes_each_translation_once() {
    let ta = RwxTransform { translate: Some((1_000_000, 0, 0)), rotate: None, scale: None };
    let tb = RwxTransform { translate: Some((10_000_000, 0, 0)), rotate: None, scale: None };
    let tc = RwxTransform { translate: Some((100_000_000, 0, 0)), rotate: None, scale: None };
    let c = leaf("c", vec![rv(0, 0, 0)], tc, Vec::new());
    let b = leaf("b", vec![rv(0, 0, 0)], tb, vec![c]);
    let a = leaf("a", vec![rv(0, 0, 0)], ta, vec![b]);
    let scene = RwxScene { root: a };
    let flat = scene.flatten();
    assert_eq!(flat.len(), 3);
    assert_eq!(flat[0].vertices[0].x, 1_000_000);
    assert_eq!(flat[1].vertices[0].x, 11_000_000);
    assert_eq!(flat[2].vertices[0].x, 111_000_000);
    assert!(flat.iter().all(|n| n.children.is_empty()));
    assert_eq!(flat[2].transform.translate, Some((111_000_000, 0, 0)));
}

#[test]
fn child_rotation_overrides_parent() {
    let ta = RwxTransform { translate: None, rotate: Some((90_000_000, 0, 0, 1_000_000)), scale: None };
    let tb = RwxTransform { translate: None, rotate: Some((180_000_000, 0, 1_000_000, 0)), scale: None };
    let b = leaf("b", Vec::new(), tb, Vec::new());
    let a = leaf("a", Vec::new(), ta, vec![b]);
    let flat = RwxScene { root: a }.flatten();
    assert_eq!(flat[0].transform.rotate, Some((90_000_000, 0, 0, 1_000_000)));
    assert_eq!(flat[1].transform.rotate, Some((180_000_000, 0, 1_000_000, 0)));
}
