use ffxi_dat::sprite_sheet::{parse_sheet, SpriteSheetLayout};

fn header(num_mesh: u16, lens_flare: bool, category: &str, id: &str) -> Vec<u8> {
    let mut b = vec![0u8; 24];
    b[0..2].copy_from_slice(&0u16.to_le_bytes());
    b[2..4].copy_from_slice(&num_mesh.to_le_bytes());
    b[4] = lens_flare as u8;
    b[7] = 1;
    let mut tok = [b' '; 16];
    tok[..category.len()].copy_from_slice(category.as_bytes());
    tok[8..8 + id.len()].copy_from_slice(id.as_bytes());
    b[8..24].copy_from_slice(&tok);
    b
}

fn colored_quad(u0: f32, v0: f32, u1: f32, v1: f32, color: [u8; 4], half: f32) -> Vec<u8> {
    let corners = [
        (-half, -half, u0, v0),
        (half, -half, u1, v0),
        (half, half, u1, v1),
        (-half, -half, u0, v0),
        (half, half, u1, v1),
        (-half, half, u0, v1),
    ];
    let mut v = Vec::new();
    for (x, y, u, vv) in corners {
        v.extend_from_slice(&x.to_le_bytes());
        v.extend_from_slice(&y.to_le_bytes());
        v.extend_from_slice(&0f32.to_le_bytes());
        v.extend_from_slice(&color);
        v.extend_from_slice(&u.to_le_bytes());
        v.extend_from_slice(&vv.to_le_bytes());
    }
    v
}

fn mesh(num_quads: u8, flare_offset: Option<f32>, frame: (f32, f32, f32, f32)) -> Vec<u8> {
    let mut m = vec![0u8; 4];
    m[0..2].copy_from_slice(&1u16.to_le_bytes());
    m[2] = num_quads;
    if let Some(off) = flare_offset {
        m.extend_from_slice(&off.to_le_bytes());
        m.extend_from_slice(&[0u8; 12]);
    }
    let (u0, v0, u1, v1) = frame;
    for _ in 0..num_quads {
        m.extend(colored_quad(u0, v0, u1, v1, [0u8; 4], 0.0));
    }
    m
}

/// Each mesh's UV bounds, as the renderer folds them.
fn uv_bounds(s: &SpriteSheetLayout) -> Vec<[f32; 4]> {
    let scale = if s.texel_uvs { 1.0 / 256.0 } else { 1.0 };
    s.meshes
        .iter()
        .map(|m| {
            let mut r = [f32::MAX, f32::MAX, f32::MIN, f32::MIN];
            for v in &m.vertices {
                let u = f32::from_bits(v.uv_bits[0]) * scale;
                let w = f32::from_bits(v.uv_bits[1]) * scale;
                r = [r[0].min(u), r[1].min(w), r[2].max(u), r[3].max(w)];
            }
            r
        })
        .collect()
}

#[test]
fn parses_frame_uv_bounds() {
    let mut b = header(1, false, "moon", "moon");
    b.extend(mesh(1, None, (0.1, 0.2, 0.7, 0.8)));
    let s = parse_sheet(&b).unwrap();
    let frames = uv_bounds(&s);
    assert_eq!(frames.len(), 1);
    let f = frames[0];
    assert!((f[0] - 0.1).abs() < 1e-6 && (f[1] - 0.2).abs() < 1e-6);
    assert!((f[2] - 0.7).abs() < 1e-6 && (f[3] - 0.8).abs() < 1e-6);
    assert_eq!(&s.texture_name[..4], b"moon");
}

#[test]
fn lens_flare_captures_first_offset_float() {
    let mut b = header(2, true, "lf0a", "flar");
    b.extend(mesh(1, Some(0.25), (0.0, 0.0, 0.5, 0.5)));
    b.extend(mesh(1, Some(1.40), (0.5, 0.5, 1.0, 1.0)));
    let s = parse_sheet(&b).unwrap();
    let offsets: Vec<f32> = s.meshes.iter().map(|m| f32::from_bits(m.flare_offset_bits.unwrap())).collect();
    assert_eq!(offsets, vec![0.25, 1.40]);
}

#[test]
fn non_lens_flare_has_no_offsets() {
    let mut b = header(1, false, "moon", "moon");
    b.extend(mesh(1, None, (0.0, 0.0, 1.0, 1.0)));
    assert!(parse_sheet(&b).unwrap().meshes.iter().all(|m| m.flare_offset_bits.is_none()));
}

#[test]
fn vertex_colour_unpacks_the_d3dcolor_word_as_rgba() {
    const AUTHORED_ARGB: u32 = 0x6040_80C0;
    const EXPECTED_RGBA: [u8; 4] = [0x40, 0x80, 0xC0, 0x60];
    let mut b = header(1, false, "lf0a", "flar");
    let mut m = vec![0u8; 4];
    m[0..2].copy_from_slice(&1u16.to_le_bytes());
    m[2] = 1;
    m.extend(colored_quad(0.0, 0.0, 1.0, 1.0, AUTHORED_ARGB.to_le_bytes(), 1.0));
    b.extend(m);
    let s = parse_sheet(&b).unwrap();
    assert!(s.meshes[0].vertices.iter().all(|v| v.color == EXPECTED_RGBA));
    assert_eq!(s.meshes[0].vertices.len(), 6);
}

#[test]
fn a_mesh_that_runs_past_the_body_refuses_the_sheet() {
    let mut b = header(2, false, "moon", "moon");
    b.extend(mesh(1, None, (0.0, 0.0, 1.0, 1.0)));
    assert!(parse_sheet(&b).is_none(), "the second mesh is missing");
    let mut b = header(1, true, "lf0a", "flar");
    b.extend_from_slice(&[1, 0, 0, 0, 0, 0]);
    assert!(parse_sheet(&b).is_none(), "the flare block is cut short");
    assert!(parse_sheet(&[0u8; 23]).is_none());
    let s = parse_sheet(&header(0, false, "x", "y")).unwrap();
    assert!(s.meshes.is_empty() && !s.texel_uvs);
}

#[test]
fn texel_uvs_are_flagged_for_scaling() {
    let mut b = header(1, false, "moon", "moon");
    b[0] = 1;
    b[7] = 0;
    b.extend(mesh(1, None, (25.6, 51.2, 128.0, 256.0)));
    let s = parse_sheet(&b).unwrap();
    assert!(s.texel_uvs);
    let f = uv_bounds(&s)[0];
    assert!((f[0] - 0.1).abs() < 1e-6 && (f[3] - 1.0).abs() < 1e-6);
}
