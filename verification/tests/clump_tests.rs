use rwx_core::clump::parse_rwx;

#[test]
fn reads_vertices_and_faces() {
    let text = "ClumpBegin\nVertex 1 2 3\nVertexExt 4 5 6 0.5 0.25\nQuad 1 2 3 4\nClumpEnd\n";
    let c = parse_rwx(text).expect("reading never fails");
    assert_eq!(c.vertices.len(), 2);
    assert_eq!(c.vertices[0].position, (1_000_000, 2_000_000, 3_000_000));
    assert_eq!(c.vertices[0].uv, (0, 0));
    assert_eq!(c.vertices[1].position, (4_000_000, 5_000_000, 6_000_000));
    assert_eq!(c.vertices[1].uv, (500_000, 250_000));
    assert_eq!(c.faces.len(), 1);
    // indices stay one-based as the file gives them
    assert_eq!(c.faces[0].vertices, vec![1, 2, 3, 4]);
}

#[test]
fn vertex_uv_needs_vertex_ext() {
    // a plain Vertex line ignores trailing texture coordinates
    let c = parse_rwx("Vertex 1 1 1 0.5 0.5\n").expect("reading never fails");
    assert_eq!(c.vertices.len(), 1);
    assert_eq!(c.vertices[0].uv, (0, 0));
}

#[test]
fn malformed_vertex_lines_are_skipped() {
    let text = "Vertex 1 2\nVertex a b c\nVertex 7 8 9\n";
    let c = parse_rwx(text).expect("reading never fails");
    assert_eq!(c.vertices.len(), 1);
    assert_eq!(c.vertices[0].position, (7_000_000, 8_000_000, 9_000_000));
}

#[test]
fn comment_lines_are_skipped() {
    let text = "// a comment line\nVertex 1 1 1\n";
    let c = parse_rwx(text).expect("reading never fails");
    assert_eq!(c.vertices.len(), 1);
}

#[test]
fn color_components_round_to_bytes() {
    let text = "Color 0.5 1 2\nQuad 1 2 3 4\n";
    let c = parse_rwx(text).expect("reading never fails");
    assert_eq!(c.materials.len(), 1);
    let m = &c.materials[0].1;
    // half rounds to 128 (half away from zero), one saturates the scale,
    // and anything above clamps to the byte ceiling
    assert_eq!(m.color, (128, 255, 255));
}

#[test]
fn materials_deduplicate_within_tolerance() {
    let text = "Ambient 0.5\nQuad 1 2 3 4\nAmbient 0.50005\nQuad 5 6 7 8\nAmbient 0.7\nQuad 9 10 11 12\n";
    let c = parse_rwx(text).expect("reading never fails");
    // the middle ambient differs by half a ten-thousandth: same material
    assert_eq!(c.materials.len(), 2);
    assert_eq!(c.materials[0].0, "mat_1");
    assert_eq!(c.materials[1].0, "mat_2");
    assert_eq!(c.faces[0].material_name, "mat_1");
    assert_eq!(c.faces[1].material_name, "mat_1");
    assert_eq!(c.faces[2].material_name, "mat_2");
}

#[test]
fn texture_change_makes_a_new_material() {
    let text = "Quad 1 2 3 4\nTexture couch2a\nQuad 1 2 3 4\n";
    let c = parse_rwx(text).expect("reading never fails");
    assert_eq!(c.materials.len(), 2);
    assert_eq!(c.materials[0].1.texture, "default");
    assert_eq!(c.materials[1].1.texture, "couch2a");
}

#[test]
fn face_with_bad_index_is_skipped() {
    let text = "Quad 1 2 x 4\nPolygon 1 2 3\n";
    let c = parse_rwx(text).expect("reading never fails");
    assert_eq!(c.faces.len(), 1);
    assert_eq!(c.faces[0].vertices, vec![1, 2, 3]);
}

#[test]
fn default_material_state() {
    let c = parse_rwx("Quad 1 2 3 4\n").expect("reading never fails");
    let m = &c.materials[0].1;
    assert_eq!(m.color, (0, 0, 0));
    assert_eq!(m.ambient, 500_000);
    assert_eq!(m.diffuse, 500_000);
    assert_eq!(m.specular, 500_000);
    assert_eq!(m.opacity, 1_000_000);
    assert_eq!(m.texture, "default");
}
