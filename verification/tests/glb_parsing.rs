use roblox_studio_mcp::glb::extract_vec3;
use roblox_studio_mcp::glb::{
    locate_bin_chunk, locate_json_chunk, Accessor, Attributes, BufferView, GlbMesh, GlbParseError, GltfJson,
    Mesh, Primitive, CHUNK_TYPE_BIN, CHUNK_TYPE_JSON, GLB_MAGIC,
};

/// A minimal GLB holding one triangle (3 vertices, 3 u32 indices).
fn create_test_glb() -> Vec<u8> {
    let json = r#"{
            "asset": {"version": "2.0"},
            "buffers": [{"byteLength": 48}],
            "bufferViews": [
                {"buffer": 0, "byteOffset": 0, "byteLength": 36},
                {"buffer": 0, "byteOffset": 36, "byteLength": 12}
            ],
            "accessors": [
                {"bufferView": 0, "componentType": 5126, "count": 3, "type": "VEC3"},
                {"bufferView": 1, "componentType": 5125, "count": 3, "type": "SCALAR"}
            ],
            "meshes": [{"primitives": [{"attributes": {"POSITION": 0}, "indices": 1}]}]
        }"#;
    let json_bytes = json.as_bytes();
    let json_len = json_bytes.len();
    let json_padded_len = (json_len + 3) & !3;

    let mut bin_data = Vec::new();
    for v in [0.0_f32, 0.0, 0.0, 1.0, 0.0, 0.0, 0.0, 1.0, 0.0] {
        bin_data.extend_from_slice(&v.to_le_bytes());
    }
    for i in [0_u32, 1, 2] {
        bin_data.extend_from_slice(&i.to_le_bytes());
    }
    let bin_len = bin_data.len();
    let total_len = 12 + 8 + json_padded_len + 8 + bin_len;

    let mut glb = Vec::with_capacity(total_len);
    glb.extend_from_slice(&GLB_MAGIC.to_le_bytes());
    glb.extend_from_slice(&2_u32.to_le_bytes());
    glb.extend_from_slice(&(total_len as u32).to_le_bytes());
    glb.extend_from_slice(&(json_padded_len as u32).to_le_bytes());
    glb.extend_from_slice(&CHUNK_TYPE_JSON.to_le_bytes());
    glb.extend_from_slice(json_bytes);
    for _ in 0..(json_padded_len - json_len) {
        glb.push(b' ');
    }
    glb.extend_from_slice(&(bin_len as u32).to_le_bytes());
    glb.extend_from_slice(&CHUNK_TYPE_BIN.to_le_bytes());
    glb.extend_from_slice(&bin_data);
    glb
}

/// The JSON chunk of `create_test_glb`, as the caller's JSON reader gives it.
fn test_gltf() -> GltfJson {
    GltfJson {
        accessors: vec![
            Accessor { buffer_view: 0, byte_offset: None, component_type: 5126, count: 3 },
            Accessor { buffer_view: 1, byte_offset: None, component_type: 5125, count: 3 },
        ],
        buffer_views: vec![
            BufferView { byte_offset: 0, byte_stride: None },
            BufferView { byte_offset: 36, byte_stride: None },
        ],
        meshes: vec![Mesh {
            primitives: vec![Primitive {
                attributes: Attributes { position: 0, normal: None, texcoord_0: None },
                indices: Some(1),
            }],
        }],
    }
}

#[test]
fn test_parse_valid_glb() {
    let glb = create_test_glb();
    let (json_start, json_end) = locate_json_chunk(&glb).unwrap();
    assert_eq!(json_start, 20);
    let mesh = GlbMesh::from_container(&glb, json_end, &test_gltf()).unwrap();

    assert_eq!(mesh.vertex_count(), 3);
    assert_eq!(mesh.face_count(), 1);

    assert!((f32::from_bits(mesh.vertices[0].x_bits) - 0.0).abs() < 0.001);
    assert!((f32::from_bits(mesh.vertices[1].x_bits) - 1.0).abs() < 0.001);
    assert!((f32::from_bits(mesh.vertices[2].y_bits) - 1.0).abs() < 0.001);

    assert_eq!(mesh.faces[0].vertices, [0, 1, 2]);
}

#[test]
fn test_invalid_magic() {
    let mut data = vec![0u8; 20];
    data[0..4].copy_from_slice(&[0x00, 0x00, 0x00, 0x00]);
    let result = locate_json_chunk(&data);
    assert!(matches!(result, Err(GlbParseError::InvalidHeader(_))));
}

#[test]
fn test_unsupported_version() {
    let mut data = vec![0u8; 20];
    data[0..4].copy_from_slice(&GLB_MAGIC.to_le_bytes());
    data[4..8].copy_from_slice(&1_u32.to_le_bytes());
    let result = locate_json_chunk(&data);
    assert!(matches!(result, Err(GlbParseError::UnsupportedVersion(1))));
}

#[test]
fn test_file_too_small() {
    let data = vec![0u8; 8];
    let result = locate_json_chunk(&data);
    assert!(matches!(result, Err(GlbParseError::InvalidHeader(_))));
}

#[test]
fn test_glb_parse_error_display() {
    assert!(GlbParseError::InvalidHeader("test".to_string()).message().contains("Invalid GLB header"));
    assert!(GlbParseError::UnsupportedVersion(1).message().contains("Unsupported glTF version: 1"));
    assert!(GlbParseError::InvalidChunk("test".to_string()).message().contains("Invalid chunk"));
    assert!(GlbParseError::JsonError("test".to_string()).message().contains("JSON parse error"));
    assert!(GlbParseError::NoMeshFound.message().contains("No mesh found"));
    assert!(GlbParseError::UnsupportedIndexType(999).message().contains("Unsupported index type: 999"));
    assert!(GlbParseError::BufferOverflow("test".to_string()).message().contains("Buffer overflow"));
}

#[test]
fn test_vertex_count_empty() {
    let mesh = GlbMesh { vertices: vec![], faces: vec![], normals: vec![], tex_coords: vec![] };
    assert_eq!(mesh.vertex_count(), 0);
    assert_eq!(mesh.face_count(), 0);
}

#[test]
fn invalid_magic_reports_value_in_hex() {
    let mut data = vec![0u8; 20];
    data[0..4].copy_from_slice(&0xDEADBEEF_u32.to_le_bytes());
    match locate_json_chunk(&data) {
        Err(GlbParseError::InvalidHeader(m)) => assert_eq!(m, "Invalid magic number: 0xDEADBEEF"),
        other => panic!("unexpected {:?}", other),
    }
}

#[test]
fn json_chunk_errors() {
    let mut data = vec![0u8; 16];
    data[0..4].copy_from_slice(&GLB_MAGIC.to_le_bytes());
    data[4..8].copy_from_slice(&2_u32.to_le_bytes());
    assert!(matches!(locate_json_chunk(&data), Err(GlbParseError::InvalidChunk(ref m)) if m == "File too small for JSON chunk header"));

    let mut data = vec![0u8; 24];
    data[0..4].copy_from_slice(&GLB_MAGIC.to_le_bytes());
    data[4..8].copy_from_slice(&2_u32.to_le_bytes());
    data[12..16].copy_from_slice(&100_u32.to_le_bytes());
    data[16..20].copy_from_slice(&0x12345678_u32.to_le_bytes());
    assert!(matches!(locate_json_chunk(&data), Err(GlbParseError::InvalidChunk(ref m)) if m == "Expected JSON chunk, got 0x12345678"));

    data[16..20].copy_from_slice(&CHUNK_TYPE_JSON.to_le_bytes());
    assert!(matches!(locate_json_chunk(&data), Err(GlbParseError::InvalidChunk(ref m)) if m == "JSON chunk extends beyond file"));
}

#[test]
fn bin_chunk_missing_or_wrong() {
    let glb = create_test_glb();
    let (_, json_end) = locate_json_chunk(&glb).unwrap();
    let truncated = &glb[..json_end + 4];
    assert!(matches!(locate_bin_chunk(truncated, json_end), Err(GlbParseError::InvalidChunk(ref m)) if m == "Missing BIN chunk"));
    let short = &glb[..glb.len() - 1];
    assert!(matches!(locate_bin_chunk(short, json_end), Err(GlbParseError::InvalidChunk(ref m)) if m == "BIN chunk extends beyond file"));
    let (s, e) = locate_bin_chunk(&glb, json_end).unwrap();
    assert_eq!(e - s, 48);
}

#[test]
fn no_mesh_and_bad_index_type() {
    let glb = create_test_glb();
    let (_, json_end) = locate_json_chunk(&glb).unwrap();
    let mut g = test_gltf();
    g.meshes.clear();
    assert!(matches!(GlbMesh::from_container(&glb, json_end, &g), Err(GlbParseError::NoMeshFound)));

    let mut g = test_gltf();
    g.accessors[1].component_type = 999;
    assert!(matches!(GlbMesh::from_container(&glb, json_end, &g), Err(GlbParseError::UnsupportedIndexType(999))));

    let mut g = test_gltf();
    g.accessors[0].count = 10;
    assert!(matches!(GlbMesh::from_container(&glb, json_end, &g), Err(GlbParseError::BufferOverflow(_))));
}

#[test]
fn faces_without_indices_are_sequential() {
    let glb = create_test_glb();
    let (_, json_end) = locate_json_chunk(&glb).unwrap();
    let mut g = test_gltf();
    g.meshes[0].primitives[0].indices = None;
    let mesh = GlbMesh::from_container(&glb, json_end, &g).unwrap();
    assert_eq!(mesh.face_count(), 1);
    assert_eq!(mesh.faces[0].vertices, [0, 1, 2]);
    assert!(mesh.faces[0].normals.is_none());
}

fn index_gltf(component_type: u32, byte_offset: Option<usize>, count: usize) -> GltfJson {
    GltfJson {
        accessors: vec![Accessor { buffer_view: 0, byte_offset, component_type, count }],
        buffer_views: vec![BufferView { byte_offset: 1, byte_stride: None }],
        meshes: vec![],
    }
}

#[test]
fn extract_faces_reads_u16_triples_and_drops_partial() {
    // offset 1 (view) + 1 (accessor) = 2; seven u16 indices follow.
    let mut bin = vec![0xAA, 0xBB];
    for i in [0u16, 1, 2, 2, 3, 0x0102, 9] {
        bin.extend_from_slice(&i.to_le_bytes());
    }
    let faces = GlbMesh::extract_faces(&index_gltf(5123, Some(1), 7), &bin, 0, true, false).unwrap();
    assert_eq!(faces.len(), 2);
    assert_eq!(faces[0].vertices, [0, 1, 2]);
    assert_eq!(faces[1].vertices, [2, 3, 0x0102]);
    assert_eq!(faces[1].normals, Some([2, 3, 0x0102]));
    assert_eq!(faces[1].tex_coords, None);
}

#[test]
fn extract_faces_refuses_float_indices_and_overruns() {
    let bin = vec![0u8; 64];
    match GlbMesh::extract_faces(&index_gltf(5126, None, 3), &bin, 0, false, false) {
        Err(GlbParseError::UnsupportedIndexType(t)) => assert_eq!(t, 5126),
        other => panic!("unexpected {:?}", other),
    }
    match GlbMesh::extract_faces(&index_gltf(5125, None, 20), &bin, 0, false, false) {
        Err(GlbParseError::BufferOverflow(m)) => assert!(m.contains("exceeds buffer")),
        other => panic!("unexpected {:?}", other),
    }
    assert!(GlbMesh::extract_faces(&index_gltf(5121, None, 0), &[], 0, false, false).unwrap().is_empty());
}

#[test]
fn extract_vec3_reads_bit_patterns_with_stride() {
    let g = GltfJson {
        accessors: vec![Accessor { buffer_view: 0, byte_offset: Some(4), component_type: 5126, count: 2 }],
        buffer_views: vec![BufferView { byte_offset: 0, byte_stride: Some(16) }],
        meshes: vec![],
    };
    let mut bin = vec![0u8; 4];
    for v in [1.0f32, 2.0, 3.0, 0.0, -1.0, 0.5, 4.0] {
        bin.extend_from_slice(&v.to_le_bytes());
    }
    let out = extract_vec3(&g, &bin, 0).unwrap();
    assert_eq!(out.len(), 2);
    assert_eq!(out[0], (1.0f32.to_bits(), 2.0f32.to_bits(), 3.0f32.to_bits()));
    assert_eq!(out[1], ((-1.0f32).to_bits(), 0.5f32.to_bits(), 4.0f32.to_bits()));
    let short = &bin[..bin.len() - 1];
    assert!(matches!(extract_vec3(&g, short, 0), Err(GlbParseError::BufferOverflow(_))));
}
