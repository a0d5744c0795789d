use rsview::mesh::Axis;
use rsview::mesh::MeshError;
use rsview::obj::ObjGeometry;
use rsview::obj::parse_obj;

fn parse_ok(text: &[u8]) -> ObjGeometry {
    parse_obj(&text.to_vec()).expect("parse should succeed")
}

#[test]
fn quad_face_yields_diagonal_split() {
    let g = parse_ok(b"v 0 0 0\nv 1 0 0\nv 1 1 0\nv 0 1 0\nf 1 2 3 4\n");
    assert_eq!(g.vertices.len(), 4);
    assert_eq!(g.indices, vec![0, 1, 2, 0, 2, 3]);
}

#[test]
fn ngon_face_yields_fan() {
    let g = parse_ok(b"v 0 0 0\nv 1 0 0\nv 2 1 0\nv 1 2 0\nv 0 1 0\nf 1 2 3 4 5\n");
    assert_eq!(g.indices, vec![0, 1, 2, 0, 2, 3, 0, 3, 4]);
}

#[test]
fn triangle_face_emitted_as_is() {
    let g = parse_ok(b"v 0 0 0\nv 1 0 0\nv 0 1 0\nf 1 2 3\n");
    assert_eq!(g.indices, vec![0, 1, 2]);
}

#[test]
fn bad_corner_drops_only_that_corner() {
    let g = parse_ok(b"v 0 0 0\nv 1 0 0\nv 1 1 0\nv 0 1 0\nf 1 x 2 3\n");
    assert_eq!(g.indices, vec![0, 1, 2]);
}

#[test]
fn face_below_three_corners_is_skipped() {
    let g = parse_ok(b"v 0 0 0\nv 1 0 0\nv 1 1 0\nf 1 x 2\n");
    assert_eq!(g.indices, Vec::<u32>::new());
}

#[test]
fn short_vertex_line_is_skipped() {
    let g = parse_ok(b"v 1.0 2.0\nv 1 2 3\n");
    assert_eq!(g.vertices.len(), 1);
    assert_eq!(g.vertices[0].x, b"1".to_vec());
}

#[test]
fn vertex_component_tokens_are_kept_verbatim() {
    let g = parse_ok(b"v 1.5 -2.5e1 +3.25\n");
    assert_eq!(g.vertices[0].x, b"1.5".to_vec());
    assert_eq!(g.vertices[0].y, b"-2.5e1".to_vec());
    assert_eq!(g.vertices[0].z, b"+3.25".to_vec());
    let y: f32 = std::str::from_utf8(&g.vertices[0].y).unwrap().parse().unwrap();
    assert_eq!(y, -25.0);
}

#[test]
fn invalid_vertex_component_names_axis_and_line() {
    let r = parse_obj(&b"v 0 0 0\nv 1.0 abc 3.0\n".to_vec());
    assert_eq!(
        r.err().unwrap(),
        MeshError::InvalidVertexComponent { axis: Axis::Y, normal: false, line: 1 }
    );
}

#[test]
fn invalid_normal_component_is_told_apart() {
    let r = parse_obj(&b"vn x 1 2\n".to_vec());
    assert_eq!(
        r.err().unwrap(),
        MeshError::InvalidVertexComponent { axis: Axis::X, normal: true, line: 0 }
    );
}

#[test]
fn normals_are_collected() {
    let g = parse_ok(b"v 0 0 0\nvn 0 1 0\nvn 0 0 1\n");
    assert_eq!(g.normals.len(), 2);
    assert_eq!(g.normals[1].z, b"1".to_vec());
}

#[test]
fn no_normals_means_empty_normals() {
    let g = parse_ok(b"v 0 0 0\n");
    assert!(g.normals.is_empty());
}

#[test]
fn slashed_corners_take_position_index_only() {
    let g = parse_ok(b"v 0 0 0\nv 1 0 0\nv 0 1 0\nf 1/2/3 2/1/1 3//2\n");
    assert_eq!(g.indices, vec![0, 1, 2]);
}

#[test]
fn zero_corner_index_is_dropped() {
    let g = parse_ok(b"v 0 0 0\nv 1 0 0\nv 0 1 0\nv 1 1 0\nf 0 1 2 3\n");
    assert_eq!(g.indices, vec![0, 1, 2]);
}

#[test]
fn overflowing_corner_index_is_dropped() {
    let g = parse_ok(b"v 0 0 0\nv 1 0 0\nv 0 1 0\nf 1 2 4294967296 3\n");
    assert_eq!(g.indices, vec![0, 1, 2]);
}

#[test]
fn plus_signed_corner_indices_parse() {
    let g = parse_ok(b"v 0 0 0\nv 1 0 0\nv 0 1 0\nf +1 +2 +3\n");
    assert_eq!(g.indices, vec![0, 1, 2]);
}

#[test]
fn unknown_records_are_skipped() {
    let g = parse_ok(b"# a comment\no name\nvt 0 1\ns off\nv 0 0 0\nusemtl m\n");
    assert_eq!(g.vertices.len(), 1);
    assert_eq!(g.indices.len(), 0);
}

#[test]
fn empty_input_yields_empty_geometry() {
    let g = parse_ok(b"");
    assert!(g.vertices.is_empty());
    assert!(g.indices.is_empty());
    assert!(g.normals.is_empty());
}

#[test]
fn crlf_lines_parse_like_lf_lines() {
    let g = parse_ok(b"v 0 0 0\r\nv 1 0 0\r\nv 0 1 0\r\nf 1 2 3\r\n");
    assert_eq!(g.vertices.len(), 3);
    assert_eq!(g.indices, vec![0, 1, 2]);
}

#[test]
fn index_count_is_always_a_multiple_of_three() {
    let g = parse_ok(
        b"v 0 0 0\nv 1 0 0\nv 1 1 0\nv 0 1 0\nv 2 2 0\nf 1 2 3\nf 1 2 3 4\nf 1 2 3 4 5\nf 1 2\n",
    );
    assert_eq!(g.indices.len() % 3, 0);
    assert!(g.indices.iter().all(|&i| (i as usize) < g.vertices.len()));
}

#[test]
fn nan_and_infinity_are_valid_components() {
    let g = parse_ok(b"v nan INF -infinity\n");
    assert_eq!(g.vertices.len(), 1);
    let x: f32 = std::str::from_utf8(&g.vertices[0].x).unwrap().parse().unwrap();
    assert!(x.is_nan());
}

#[test]
fn dotted_and_exponent_forms_are_accepted() {
    let g = parse_ok(b"v .5 3. 1e9\nv 1.25e-2 +inf -NAN\nv 1E+5 3.e2 0\n");
    assert_eq!(g.vertices.len(), 3);
    // whatever the validator accepted must also convert to a float
    for v in &g.vertices {
        for t in [&v.x, &v.y, &v.z] {
            assert!(std::str::from_utf8(t).unwrap().parse::<f32>().is_ok());
        }
    }
}

#[test]
fn malformed_numbers_are_rejected() {
    let cases: [(&[u8], Axis); 4] = [
        (b"v 1..2 0 0\n", Axis::X),
        (b"v 0 1e 0\n", Axis::Y),
        (b"v 0 0 .\n", Axis::Z),
        (b"v 0 0x1 0\n", Axis::Y),
    ];
    for (text, axis) in cases {
        match parse_obj(&text.to_vec()).err().unwrap() {
            MeshError::InvalidVertexComponent { axis: a, normal: false, line: 0 } => {
                assert_eq!(a, axis)
            }
            e => panic!("unexpected error {:?}", e),
        }
    }
}

#[test]
fn error_message_is_descriptive() {
    let e = MeshError::InvalidVertexComponent { axis: Axis::X, normal: false, line: 0 };
    assert_eq!(e.message(), "invalid vertex x");
}
