use rsview::gltf::Accessor;
use rsview::gltf::Buffer;
use rsview::gltf::BufferView;
use rsview::gltf::GltfFile;
use rsview::gltf::GltfMesh;
use rsview::gltf::Primitive;
use rsview::gltf::parse_gltf;
use rsview::mesh::MeshError;

fn doc(position: Option<usize>, indices: Option<usize>, accessors: Vec<Accessor>) -> GltfFile {
    GltfFile {
        buffers: vec![Buffer { uri: "mesh.bin".to_string(), byte_length: 0 }],
        buffer_views: vec![BufferView { buffer: 0, byte_offset: Some(0), byte_length: 0 }],
        accessors,
        meshes: vec![GltfMesh { primitives: vec![Primitive { position, indices }] }],
    }
}

fn index_accessor(component_type: u32, count: usize, byte_offset: Option<usize>) -> Accessor {
    Accessor {
        buffer_view: 0,
        byte_offset,
        component_type,
        count,
        accessor_type: "SCALAR".to_string(),
    }
}

#[test]
fn unsigned_short_indices_decode_little_endian() {
    let g = doc(None, Some(0), vec![index_accessor(5123, 3, None)]);
    let buf = vec![0u8, 0, 1, 0, 2, 0];
    let m = parse_gltf(&g, &buf).unwrap();
    assert_eq!(m.indices, vec![0, 1, 2]);
    assert!(m.vertices.is_empty());
    assert!(m.normals.is_none());
}

#[test]
fn unsigned_byte_indices_decode() {
    let g = doc(None, Some(0), vec![index_accessor(5121, 4, None)]);
    let buf = vec![3u8, 2, 1, 0];
    let m = parse_gltf(&g, &buf).unwrap();
    assert_eq!(m.indices, vec![3, 2, 1, 0]);
}

#[test]
fn unsigned_int_indices_decode_little_endian() {
    let g = doc(None, Some(0), vec![index_accessor(5125, 2, None)]);
    let buf = vec![1u8, 0, 0, 0, 0x78, 0x56, 0x34, 0x12];
    let m = parse_gltf(&g, &buf).unwrap();
    assert_eq!(m.indices, vec![1, 0x12345678]);
}

#[test]
fn unsupported_component_type_fails() {
    let g = doc(None, Some(0), vec![index_accessor(5126, 3, None)]);
    let buf = vec![0u8; 12];
    assert_eq!(parse_gltf(&g, &buf).err().unwrap(), MeshError::UnsupportedIndexType);
}

#[test]
fn positions_decode_as_float_bits() {
    let g = doc(Some(0), None, vec![index_accessor(5126, 2, None)]);
    let mut buf = Vec::new();
    for v in [1.0f32, -2.5, 0.25, 3.5, 100.0, -0.125] {
        buf.extend_from_slice(&v.to_le_bytes());
    }
    let m = parse_gltf(&g, &buf).unwrap();
    assert_eq!(m.vertices.len(), 2);
    assert_eq!(m.vertices[0].x, 1.0f32.to_bits());
    assert_eq!(m.vertices[0].y, (-2.5f32).to_bits());
    assert_eq!(m.vertices[0].z, 0.25f32.to_bits());
    assert_eq!(f32::from_bits(m.vertices[1].y), 100.0);
}

#[test]
fn view_and_accessor_offsets_add_up() {
    let g = GltfFile {
        buffers: vec![Buffer { uri: "b.bin".to_string(), byte_length: 10 }],
        buffer_views: vec![BufferView { buffer: 0, byte_offset: Some(2), byte_length: 8 }],
        accessors: vec![index_accessor(5121, 2, Some(3))],
        meshes: vec![GltfMesh { primitives: vec![Primitive { position: None, indices: Some(0) }] }],
    };
    let buf = vec![9u8, 9, 9, 9, 9, 7, 8, 9, 9, 9];
    let m = parse_gltf(&g, &buf).unwrap();
    assert_eq!(m.indices, vec![7, 8]);
}

#[test]
fn missing_offsets_default_to_zero() {
    let g = GltfFile {
        buffers: vec![Buffer { uri: "b.bin".to_string(), byte_length: 2 }],
        buffer_views: vec![BufferView { buffer: 0, byte_offset: None, byte_length: 2 }],
        accessors: vec![index_accessor(5121, 2, None)],
        meshes: vec![GltfMesh { primitives: vec![Primitive { position: None, indices: Some(0) }] }],
    };
    let m = parse_gltf(&g, &vec![5u8, 6]).unwrap();
    assert_eq!(m.indices, vec![5, 6]);
}

#[test]
fn absent_mesh_degrades_to_empty() {
    let g = GltfFile {
        buffers: vec![],
        buffer_views: vec![],
        accessors: vec![],
        meshes: vec![],
    };
    let m = parse_gltf(&g, &Vec::new()).unwrap();
    assert!(m.vertices.is_empty());
    assert!(m.indices.is_empty());
    assert!(m.normals.is_none());
}

#[test]
fn absent_primitive_degrades_to_empty() {
    let g = GltfFile {
        buffers: vec![],
        buffer_views: vec![],
        accessors: vec![],
        meshes: vec![GltfMesh { primitives: vec![] }],
    };
    let m = parse_gltf(&g, &Vec::new()).unwrap();
    assert!(m.vertices.is_empty());
    assert!(m.indices.is_empty());
}

#[test]
fn range_past_buffer_end_fails() {
    let g = doc(None, Some(0), vec![index_accessor(5123, 4, None)]);
    let buf = vec![0u8; 7];
    assert_eq!(parse_gltf(&g, &buf).err().unwrap(), MeshError::BufferRangeError);
}

#[test]
fn position_range_past_buffer_end_fails() {
    let g = doc(Some(0), None, vec![index_accessor(5126, 1, None)]);
    let buf = vec![0u8; 11];
    assert_eq!(parse_gltf(&g, &buf).err().unwrap(), MeshError::BufferRangeError);
}

#[test]
fn dangling_accessor_reference_fails() {
    let g = doc(Some(5), None, vec![index_accessor(5126, 1, None)]);
    assert_eq!(parse_gltf(&g, &vec![0u8; 12]).err().unwrap(), MeshError::InvalidGltfJson);
}

#[test]
fn dangling_buffer_view_reference_fails() {
    let mut acc = index_accessor(5121, 1, None);
    acc.buffer_view = 3;
    let g = doc(None, Some(0), vec![acc]);
    assert_eq!(parse_gltf(&g, &vec![0u8; 4]).err().unwrap(), MeshError::InvalidGltfJson);
}

#[test]
fn position_error_wins_over_index_error() {
    let g = doc(Some(1), Some(0), vec![index_accessor(5126, 3, None), index_accessor(5126, 9, None)]);
    let buf = vec![0u8; 4];
    assert_eq!(parse_gltf(&g, &buf).err().unwrap(), MeshError::BufferRangeError);
}
