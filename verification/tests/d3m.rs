use ffxi_dat::d3m::{material_table_offset, vertex_offset, D3m, D3M_VERTEX_OFFSET};
use ffxi_dat::DatError;

const D3M_MAGIC: u32 = 6;

fn build_body(num_triangles: u16, texture_name: &[u8; 16]) -> Vec<u8> {
    build_body_with_counts(num_triangles, 1, 0, texture_name)
}

fn build_body_with_counts(num_triangles: u16, mat_count: u8, extra_count: u8, texture_name: &[u8; 16]) -> Vec<u8> {
    let mut body = Vec::new();
    body.extend_from_slice(&D3M_MAGIC.to_le_bytes());
    body.push(mat_count);
    body.push(extra_count);
    body.extend_from_slice(&num_triangles.to_le_bytes());
    body.resize(material_table_offset(mat_count as usize, extra_count as usize), 0);
    for _ in 0..mat_count {
        body.extend_from_slice(texture_name);
    }
    assert_eq!(body.len(), vertex_offset(mat_count as usize, extra_count as usize));
    body
}

fn append_vertex(body: &mut Vec<u8>, pos: [f32; 3], rgba_u8: [u8; 4], uv: [f32; 2]) {
    for c in pos {
        body.extend_from_slice(&c.to_le_bytes());
    }
    for c in [0.0f32, 1.0, 0.0] {
        body.extend_from_slice(&c.to_le_bytes());
    }
    body.push(rgba_u8[2]);
    body.push(rgba_u8[1]);
    body.push(rgba_u8[0]);
    body.push(rgba_u8[3]);
    for c in uv {
        body.extend_from_slice(&c.to_le_bytes());
    }
}

fn pos(v: [u32; 3]) -> [f32; 3] {
    v.map(f32::from_bits)
}

/// The packed colour word as RGBA, each channel over 128 as the renderer reads it.
fn color(word: u32) -> [f32; 4] {
    let b = word.to_le_bytes();
    [b[2] as f32 / 128.0, b[1] as f32 / 128.0, b[0] as f32 / 128.0, b[3] as f32 / 128.0]
}

#[test]
fn parses_single_triangle() {
    let mut body = build_body(1, b"flame_a\0\0\0\0\0\0\0\0\0");
    append_vertex(&mut body, [0.0, 0.0, 0.0], [128, 64, 32, 255], [0.0, 0.0]);
    append_vertex(&mut body, [1.0, 0.0, 0.0], [128, 64, 32, 255], [1.0, 0.0]);
    append_vertex(&mut body, [0.5, 1.0, 0.0], [128, 64, 32, 255], [0.5, 1.0]);

    let d = D3m::parse(*b"d3m0", &body).unwrap();
    assert_eq!(d.num_triangles, 1);
    assert_eq!(d.texture_name_str(), "flame_a");
    assert_eq!(d.vertices.len(), 3);

    let v0 = d.vertices[0];
    assert_eq!(pos(v0.pos), [0.0, 0.0, 0.0]);
    let c = color(v0.color);
    assert!((c[0] - 1.0).abs() < 1e-5);
    assert!((c[1] - 0.5).abs() < 1e-5);
    assert!((c[2] - 0.25).abs() < 1e-5);
    assert!((c[3] - 255.0 / 128.0).abs() < 1e-5);
}

#[test]
fn rejects_wrong_magic() {
    let mut body = vec![0u8; D3M_VERTEX_OFFSET];
    body[0..4].copy_from_slice(&7u32.to_le_bytes());
    assert!(D3m::parse(*b"badm", &body).is_err());
}

#[test]
fn rejects_truncated_vertex_array() {
    let body = build_body(5, &[0u8; 16]);
    assert!(D3m::parse(*b"trun", &body).is_err());
}

#[test]
fn material_table_follows_the_entry_count_padding_rule() {
    assert_eq!(material_table_offset(0, 0), 8);
    assert_eq!(material_table_offset(1, 0), 14);
    assert_eq!(material_table_offset(0, 1), 14);
    assert_eq!(material_table_offset(1, 2), 14);
    assert_eq!(material_table_offset(1, 3), 16);
    assert_eq!(material_table_offset(2, 3), 22);
    assert_eq!(vertex_offset(1, 0), D3M_VERTEX_OFFSET);
    assert_eq!(vertex_offset(0, 1), 14);
    assert_eq!(vertex_offset(2, 3), 22 + 32);
}

#[test]
fn material_less_mesh_reads_vertices_at_the_table_end() {
    let mut body = build_body_with_counts(1, 0, 1, &[0u8; 16]);
    append_vertex(&mut body, [1.0, 2.0, 3.0], [128, 128, 128, 255], [0.5, 0.5]);
    append_vertex(&mut body, [4.0, 5.0, 6.0], [128, 128, 128, 255], [0.5, 0.5]);
    append_vertex(&mut body, [7.0, 8.0, 9.0], [128, 128, 128, 255], [0.5, 0.5]);
    let d = D3m::parse(*b"coll", &body).unwrap();
    assert_eq!(d.texture_name_str(), "");
    assert_eq!(pos(d.vertices[0].pos), [1.0, 2.0, 3.0]);
    assert_eq!(pos(d.vertices[2].pos), [7.0, 8.0, 9.0]);
}

#[test]
fn multi_entry_mesh_takes_its_texture_from_the_first_material() {
    for (mats, extra) in [(1u8, 3u8), (2, 3), (3, 2)] {
        let mut body = build_body_with_counts(1, mats, extra, b"kori\0\0\0\0\0\0\0\0\0\0\0\0");
        append_vertex(&mut body, [1.0, 0.0, 0.0], [128, 0, 0, 255], [0.0, 0.0]);
        append_vertex(&mut body, [0.0, 1.0, 0.0], [128, 0, 0, 255], [0.0, 0.0]);
        append_vertex(&mut body, [0.0, 0.0, 1.0], [128, 0, 0, 255], [0.0, 0.0]);
        let d = D3m::parse(*b"mult", &body).unwrap();
        assert_eq!(d.texture_name_str(), "kori", "mats={mats} extra={extra}");
        assert_eq!(pos(d.vertices[1].pos), [0.0, 1.0, 0.0], "mats={mats} extra={extra}");
    }
}

#[test]
fn accepts_marker_5_and_rejects_the_rewritten_marker_7() {
    let mut body = build_body(0, &[0u8; 16]);
    body[0] = 5;
    assert!(D3m::parse(*b"mk5 ", &body).is_ok());
    body[0] = 7;
    assert!(D3m::parse(*b"mk7 ", &body).is_err());
}

#[test]
fn texture_name_trims_padding() {
    let mut body = build_body(0, b"abc\0\0\0\0\0\0\0\0\0\0\0\0\0");
    assert_eq!(body.len(), D3M_VERTEX_OFFSET);
    let d = D3m::parse(*b"name", &body).unwrap();
    assert_eq!(d.texture_name_str(), "abc");
    body.clear();
}

#[test]
fn each_refusal_names_the_offset_it_stopped_at() {
    assert_eq!(
        D3m::parse(*b"shrt", &[6, 0, 0]).unwrap_err(),
        DatError::TruncatedChunk { offset: 0, needed: 8, available: 3 }
    );
    let mut body = build_body(2, &[0u8; 16]);
    let len = body.len();
    assert_eq!(
        D3m::parse(*b"trun", &body).unwrap_err(),
        DatError::TruncatedChunk { offset: D3M_VERTEX_OFFSET, needed: D3M_VERTEX_OFFSET + 6 * 36, available: len }
    );
    body.truncate(20);
    assert_eq!(
        D3m::parse(*b"trun", &body).unwrap_err(),
        DatError::TruncatedChunk { offset: 14, needed: D3M_VERTEX_OFFSET, available: 20 }
    );
}
