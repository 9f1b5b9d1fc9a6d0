use rwx_core::canon::{normalize, Canon};
use rwx_core::fx::{fx_add, fx_mul, FX_MAX};
use rwx_core::lexer::lex;
use rwx_core::objmodel::{Face, Material, Mesh};
use rwx_core::trig::sin_cos_deg;
use rwx_core::unity::package_manifest;
use rwx_core::wordlex::{lex as word_lex, Token as WordToken};

#[test]
fn fixed_point_arithmetic() {
    assert_eq!(fx_add(1_500_000, 2_500_000), 4_000_000);
    assert_eq!(fx_mul(2_000_000, 3_000_000), 6_000_000);
    assert_eq!(fx_mul(500_000, 500_000), 250_000);
    assert_eq!(fx_add(FX_MAX, FX_MAX), FX_MAX);
    assert_eq!(fx_add(-FX_MAX, -FX_MAX), -FX_MAX);
    assert_eq!(fx_mul(FX_MAX, FX_MAX), FX_MAX);
    assert_eq!(fx_mul(-1_000_000, 7_000_000), -7_000_000);
}

#[test]
fn sine_and_cosine_are_exact_at_quarter_turns() {
    assert_eq!(sin_cos_deg(0), (0, 1_000_000));
    assert_eq!(sin_cos_deg(90_000_000), (1_000_000, 0));
    assert_eq!(sin_cos_deg(180_000_000), (0, -1_000_000));
    assert_eq!(sin_cos_deg(270_000_000), (-1_000_000, 0));
    assert_eq!(sin_cos_deg(360_000_000), (0, 1_000_000));
    assert_eq!(sin_cos_deg(-90_000_000), (-1_000_000, 0));
}

#[test]
fn sine_of_thirty_degrees_is_close() {
    let (s, c) = sin_cos_deg(30_000_000);
    // one half and half the square root of three, within a few micro-units
    assert!((s - 500_000).abs() < 10);
    assert!((c - 866_025).abs() < 10);
}

#[test]
fn canonical_vertex_dialects() {
    let toks = lex("Vertex 1 2 3 4 5 VertexList 2 1 0 0 0 1 0 Quad 1 2 3 4");
    let cs = normalize(&toks);
    assert_eq!(cs.len(), 4);
    match &cs[0] {
        Canon::Vertex(x, y, z, u, v) => {
            assert_eq!(
                (*x, *y, *z, *u, *v),
                (1_000_000, 2_000_000, 3_000_000, 4_000_000, 5_000_000)
            );
        }
        other => panic!("expected a vertex, got {:?}", other),
    }
    assert!(matches!(&cs[1], Canon::Vertex(1_000_000, 0, 0, 0, 0)));
    assert!(matches!(&cs[2], Canon::Vertex(0, 1_000_000, 0, 0, 0)));
    match &cs[3] {
        Canon::Face(ix) => assert_eq!(ix, &vec![0, 1, 2, 3]),
        other => panic!("expected a face, got {:?}", other),
    }
}

#[test]
fn material_snapshot_only_on_texture() {
    let toks = lex("Diffuse 1 0 0 Specular 0 1 0 Texture wood Diffuse 0 0 1 Texture tile");
    let cs = normalize(&toks);
    assert_eq!(cs.len(), 2);
    match &cs[0] {
        Canon::Material { texture, diffuse, specular } => {
            assert_eq!(texture.as_deref(), Some("wood"));
            assert_eq!(*diffuse, Some((1_000_000, 0, 0)));
            assert_eq!(*specular, Some((0, 1_000_000, 0)));
        }
        other => panic!("expected a material binding, got {:?}", other),
    }
    match &cs[1] {
        Canon::Material { texture, diffuse, .. } => {
            assert_eq!(texture.as_deref(), Some("tile"));
            assert_eq!(*diffuse, Some((0, 0, 1_000_000)));
        }
        other => panic!("expected a material binding, got {:?}", other),
    }
}

#[test]
fn begin_end_words_become_push_pop() {
    let toks = lex("ClumpBegin FooBegin BarEnd ClumpEnd");
    let cs = normalize(&toks);
    assert_eq!(cs.len(), 4);
    assert!(matches!(cs[0], Canon::PushTransform));
    assert!(matches!(cs[1], Canon::PushTransform));
    assert!(matches!(cs[2], Canon::PopTransform));
    assert!(matches!(cs[3], Canon::PopTransform));
}

#[test]
fn package_manifest_names_files() {
    let p = package_manifest("couch", vec!["a.png".to_string(), "b.jpg".to_string()]);
    assert_eq!(p.name, "couch");
    assert_eq!(p.obj, "couch.obj");
    assert_eq!(p.mtl, "couch.mtl");
    assert_eq!(p.textures, vec!["a.png".to_string(), "b.jpg".to_string()]);
}

fn material(name: &str) -> Material {
    Material {
        name: name.to_string(),
        ka: (0, 0, 0),
        kd: (800_000, 800_000, 800_000),
        ks: (0, 0, 0),
        texture: None,
    }
}

#[test]
fn mesh_well_formedness_check() {
    let good = Mesh {
        name: "m".to_string(),
        vertices: vec![(0, 0, 0), (1_000_000, 0, 0), (0, 1_000_000, 0)],
        faces: vec![Face { v1: 0, v2: 1, v3: 2 }],
        materials: vec![material("default")],
        face_material_indices: vec![0],
    };
    assert!(good.well_formed());
    let bad_face = Mesh {
        name: "m".to_string(),
        vertices: vec![(0, 0, 0)],
        faces: vec![Face { v1: 0, v2: 1, v3: 0 }],
        materials: vec![material("default")],
        face_material_indices: vec![0],
    };
    assert!(!bad_face.well_formed());
    let bad_material = Mesh {
        name: "m".to_string(),
        vertices: vec![(0, 0, 0)],
        faces: vec![Face { v1: 0, v2: 0, v3: 0 }],
        materials: Vec::new(),
        face_material_indices: vec![0],
    };
    assert!(!bad_material.well_formed());
}

#[test]
fn word_lexer_classifies_words() {
    let toks = word_lex("Vertex 1.5 couch2a\nQuad UV");
    assert_eq!(toks.len(), 5);
    assert!(matches!(toks[0], WordToken::Vertex));
    assert!(matches!(toks[1], WordToken::Number(1_500_000)));
    match &toks[2] {
        WordToken::Ident(s) => assert_eq!(s, "couch2a"),
        other => panic!("expected an identifier, got {:?}", other),
    }
    assert!(matches!(toks[3], WordToken::Quad));
    assert!(matches!(toks[4], WordToken::UV));
}
