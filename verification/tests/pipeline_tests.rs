use rwx_core::lexer::Token;
use rwx_core::parser::{ParseErrorKind, Parser};
use rwx_core::pipeline::{parse_and_flatten, CoreError};
use rwx_core::semantics::MeshFace;

fn tri(f: &MeshFace) -> (u32, u32, u32) {
    match f {
        MeshFace::Poly(v, _) => {
            assert_eq!(v.len(), 3);
            (v[0], v[1], v[2])
        }
        MeshFace::Quad(..) => panic!("normalized mesh should hold triangles only"),
    }
}

#[test]
fn end_to_end_box() {
    let text = "ModelBegin ProtoBegin \"Box\" Vertex 0 0 0 UV 0 0 Vertex 1 0 0 UV 1 0 \
                Vertex 1 1 0 UV 1 1 Quad 1 2 3 1 ProtoEnd ModelEnd";
    let nodes = parse_and_flatten(text).expect("well-formed model");
    assert_eq!(nodes.len(), 1);
    assert_eq!(nodes[0].name, "Box");
    assert_eq!(nodes[0].vertices.len(), 3);
    assert_eq!(nodes[0].faces.len(), 2);
    // the quad references 1-based indices 1 2 3 1: triangles fan from the
    // first index, the second one degenerate
    assert_eq!(tri(&nodes[0].faces[0]), (0, 1, 2));
    assert_eq!(tri(&nodes[0].faces[1]), (0, 2, 0));
    assert_eq!(nodes[0].vertices[1].position, (1_000_000, 0, 0));
    assert_eq!(nodes[0].vertices[2].uv, (1_000_000, 1_000_000));
}

#[test]
fn missing_z_is_fatal() {
    let text = "ModelBegin ProtoBegin \"B\" Vertex 1 2 ProtoEnd ModelEnd";
    match parse_and_flatten(text) {
        Err(CoreError::Parse(pe)) => {
            assert!(matches!(pe.kind, ParseErrorKind::ExpectedNumber));
        }
        other => panic!("expected a fatal parse error, got {:?}", other.is_ok()),
    }
}

#[test]
fn unknown_command_between_vertices_is_ignored() {
    let plain = "ModelBegin ProtoBegin \"Box\" Vertex 0 0 0 UV 0 0 Vertex 1 0 0 UV 1 0 \
                 Vertex 1 1 0 UV 1 1 Quad 1 2 3 1 ProtoEnd ModelEnd";
    let noisy = "ModelBegin ProtoBegin \"Box\" Vertex 0 0 0 UV 0 0 Hints 1 2 3 \
                 Vertex 1 0 0 UV 1 0 Vertex 1 1 0 UV 1 1 Quad 1 2 3 1 ProtoEnd ModelEnd";
    let a = parse_and_flatten(plain).expect("plain model");
    let b = parse_and_flatten(noisy).expect("noisy model");
    assert_eq!(a.len(), b.len());
    assert_eq!(a[0].vertices.len(), b[0].vertices.len());
    assert_eq!(a[0].faces.len(), b[0].faces.len());
}

#[test]
fn missing_model_begin() {
    match parse_and_flatten("Vertex 1 2 3") {
        Err(CoreError::Parse(pe)) => {
            assert!(matches!(pe.kind, ParseErrorKind::Expected(Token::ModelBeginKeyword)));
            assert_eq!(pe.position, 0);
        }
        _ => panic!("expected a parse error"),
    }
}

#[test]
fn empty_input_is_rejected() {
    assert!(matches!(parse_and_flatten(""), Err(CoreError::Parse(_))));
}

#[test]
fn unterminated_clump_is_fatal() {
    let text = "ModelBegin ClumpBegin Vertex 0 0 0 UV 0 0";
    match parse_and_flatten(text) {
        Err(CoreError::Parse(pe)) => {
            assert!(matches!(pe.kind, ParseErrorKind::UnexpectedEof));
        }
        _ => panic!("expected an unterminated-block error"),
    }
}

#[test]
fn face_index_out_of_range_is_fatal() {
    let text = "ModelBegin ProtoBegin \"B\" Vertex 0 0 0 UV 0 0 Quad 1 2 3 4 ProtoEnd ModelEnd";
    match parse_and_flatten(text) {
        Err(CoreError::Mesh(me)) => {
            assert_eq!(me.face, 0);
            assert_eq!(me.index, 1);
        }
        _ => panic!("expected a mesh resolution error"),
    }
}

#[test]
fn texture_without_name_is_fatal() {
    let text = "ModelBegin ProtoBegin \"B\" Texture 5 ProtoEnd ModelEnd";
    match parse_and_flatten(text) {
        Err(CoreError::Parse(pe)) => {
            assert!(matches!(pe.kind, ParseErrorKind::ExpectedName));
        }
        _ => panic!("expected a missing-name error"),
    }
}

#[test]
fn missing_model_end_is_tolerated() {
    let text = "ModelBegin ProtoBegin \"B\" Vertex 0 0 0 UV 0 0 ProtoEnd";
    let nodes = parse_and_flatten(text).expect("implicit close");
    assert_eq!(nodes.len(), 1);
    assert_eq!(nodes[0].vertices.len(), 1);
}

#[test]
fn transform_blocks_are_skipped_whole() {
    let text = "ModelBegin TransformBegin 1 0 0 0 0 1 0 0 0 0 1 0 0 0 0 1 TransformEnd \
                ProtoBegin \"B\" Vertex 2 0 0 UV 0 0 ProtoEnd ModelEnd";
    let nodes = parse_and_flatten(text).expect("transform block skipped");
    assert_eq!(nodes.len(), 1);
    assert_eq!(nodes[0].vertices[0].position, (2_000_000, 0, 0));
}

#[test]
fn clump_geometry_becomes_a_node() {
    let text = "ModelBegin ClumpBegin Vertex 0 0 0 UV 0 0 Vertex 3 0 0 UV 0 0 \
                Polygon 3 1 2 2 ClumpEnd ModelEnd";
    let nodes = parse_and_flatten(text).expect("clump model");
    assert_eq!(nodes.len(), 1);
    assert_eq!(nodes[0].name, "Clump_Geometry");
    assert_eq!(nodes[0].vertices.len(), 2);
    assert_eq!(nodes[0].faces.len(), 1);
    assert_eq!(tri(&nodes[0].faces[0]), (0, 1, 1));
}

#[test]
fn empty_clump_adds_no_node() {
    let text = "ModelBegin ClumpBegin ClumpEnd ModelEnd";
    let nodes = parse_and_flatten(text).expect("empty clump");
    assert_eq!(nodes.len(), 0);
}

#[test]
fn duplicate_vertices_are_merged_end_to_end() {
    let text = "ModelBegin ProtoBegin \"B\" Vertex 1 0 0 UV 0 0 Vertex 1 0 0 UV 0 0 \
                Vertex 0 1 0 UV 0 0 Polygon 3 1 2 3 ProtoEnd ModelEnd";
    let nodes = parse_and_flatten(text).expect("dup model");
    assert_eq!(nodes[0].vertices.len(), 2);
    assert_eq!(tri(&nodes[0].faces[0]), (0, 0, 1));
}

#[test]
fn parser_prototype_name_required() {
    let tokens = rwx_core::lexer::lex("ModelBegin ProtoBegin ProtoEnd ModelEnd");
    let mut p = Parser::new(tokens);
    match p.parse() {
        Err(pe) => assert!(matches!(pe.kind, ParseErrorKind::ExpectedName)),
        Ok(_) => panic!("expected a missing-name error"),
    }
}

#[test]
fn parser_collects_prototype_mesh() {
    let tokens = rwx_core::lexer::lex(
        "ModelBegin ProtoBegin cube Vertex 1 2 3 UV 4 5 Quad 1 1 1 1 ProtoEnd ModelEnd",
    );
    let mut p = Parser::new(tokens);
    let objs = p.parse().expect("prototype parses");
    assert_eq!(objs.len(), 1);
    assert_eq!(objs[0].name, "cube");
    let mesh = objs[0].mesh.as_ref().expect("mesh present");
    assert_eq!(mesh.vertices.len(), 1);
    assert_eq!(mesh.vertices[0].x, 1_000_000);
    assert_eq!(mesh.vertices[0].u, Some(4_000_000));
    assert_eq!(mesh.faces[0].indices, vec![0, 0, 0, 0]);
    assert!(objs[0].material.is_none());
    assert!(objs[0].transform.is_none());
    assert!(objs[0].children.is_empty());
}
