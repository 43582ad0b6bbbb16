use ffxi_dat::datid::DatId;
use ffxi_dat::zone_interaction::{
    parse, ZoneInteraction, DATA_OFFSET_FIELD, DEST_ID_OFFSET, ELEVATOR_BOTTOM_OFFSET, ELEVATOR_TOP_OFFSET,
    ENTRY_LEN, ENTRY_TABLE_HEADER_LEN, MAP_ID_OFFSET, PARAM_OFFSET, POSITION_OFFSET, RECT_CLASS_HIT_CHECKED,
    RECT_CLASS_OFFSET, ROTATION_Y_OFFSET, ROTATION_Z_OFFSET, SIZE_OFFSET, SOURCE_ID_OFFSET, TERRAIN_FLAGS_OFFSET,
};
use ffxi_dat::DatError;

const TEST_DATA_OFFSET: usize = 0x30;

fn put_f32x3(buf: &mut [u8], off: usize, v: [f32; 3]) {
    for (i, f) in v.iter().enumerate() {
        buf[off + i * 4..off + i * 4 + 4].copy_from_slice(&f.to_le_bytes());
    }
}

#[allow(clippy::too_many_arguments)]
fn synth_entry(
    position: [f32; 3],
    rect_class: u32,
    orientation: [f32; 3],
    size: [f32; 3],
    source: &[u8; 4],
    dest: &[u8; 4],
    param: u32,
    terrain_flags: u16,
    map_id: u16,
    ev: [i16; 2],
) -> [u8; ENTRY_LEN] {
    let mut e = [0u8; ENTRY_LEN];
    put_f32x3(&mut e, POSITION_OFFSET, position);
    e[RECT_CLASS_OFFSET..RECT_CLASS_OFFSET + 4].copy_from_slice(&rect_class.to_le_bytes());
    e[ROTATION_Y_OFFSET..ROTATION_Y_OFFSET + 4].copy_from_slice(&orientation[1].to_le_bytes());
    e[ROTATION_Z_OFFSET..ROTATION_Z_OFFSET + 4].copy_from_slice(&orientation[2].to_le_bytes());
    put_f32x3(&mut e, SIZE_OFFSET, size);
    e[SOURCE_ID_OFFSET..SOURCE_ID_OFFSET + 4].copy_from_slice(source);
    e[DEST_ID_OFFSET..DEST_ID_OFFSET + 4].copy_from_slice(dest);
    e[PARAM_OFFSET..PARAM_OFFSET + 4].copy_from_slice(&param.to_le_bytes());
    e[TERRAIN_FLAGS_OFFSET..TERRAIN_FLAGS_OFFSET + 2].copy_from_slice(&terrain_flags.to_le_bytes());
    e[MAP_ID_OFFSET..MAP_ID_OFFSET + 2].copy_from_slice(&map_id.to_le_bytes());
    e[ELEVATOR_BOTTOM_OFFSET..ELEVATOR_BOTTOM_OFFSET + 2].copy_from_slice(&ev[0].to_le_bytes());
    e[ELEVATOR_TOP_OFFSET..ELEVATOR_TOP_OFFSET + 2].copy_from_slice(&ev[1].to_le_bytes());
    e
}

fn synth_body(entries: &[[u8; ENTRY_LEN]]) -> Vec<u8> {
    let mut body = vec![0u8; TEST_DATA_OFFSET + ENTRY_TABLE_HEADER_LEN];
    body[..4].copy_from_slice(b"RID\0");
    body[4..8].copy_from_slice(&6u32.to_le_bytes());
    body[DATA_OFFSET_FIELD..DATA_OFFSET_FIELD + 4].copy_from_slice(&(TEST_DATA_OFFSET as u32).to_le_bytes());
    body[TEST_DATA_OFFSET..TEST_DATA_OFFSET + 4].copy_from_slice(&(entries.len() as u32).to_le_bytes());
    for e in entries {
        body.extend_from_slice(e);
    }
    body
}

fn f3(v: [u32; 3]) -> [f32; 3] {
    v.map(f32::from_bits)
}

/// An elevator floor in world y: the box center's y plus the 1/256 offset.
fn floor_y(z: &ZoneInteraction, offset: i16) -> f32 {
    f32::from_bits(z.position_bits[1]) + offset as f32 / 256.0
}

#[test]
fn synthetic_body_roundtrips() {
    let trigger = synth_entry(
        [164.933, -5.547, 164.792],
        RECT_CLASS_HIT_CHECKED,
        [0.0, 3.93, 0.0],
        [12.0, 8.0, 2.0],
        b"zmr0",
        b"zmr1",
        253,
        0,
        1,
        [0, 0],
    );
    let marker = synth_entry(
        [162.591, -4.103, 162.423],
        RECT_CLASS_HIT_CHECKED,
        [0.0, 2.36, 0.0],
        [1.0, 4.0, 4.0],
        b"zmr1",
        &[0u8; 4],
        253,
        0x1,
        1,
        [0, 0],
    );
    let door = synth_entry(
        [0.0, -1.0, -8.0],
        RECT_CLASS_HIT_CHECKED,
        [0.0; 3],
        [2.0, 3.0, 1.0],
        b"_720",
        &[0x20, 0, 0, 0],
        0,
        0,
        0,
        [-128, 256],
    );

    let all = parse(&synth_body(&[trigger, marker, door])).unwrap();
    assert_eq!(all.len(), 3);

    let t = &all[0];
    assert_eq!(f3(t.position_bits), [164.933, -5.547, 164.792]);
    assert_eq!(f3(t.orientation_bits), [0.0, 3.93, 0.0]);
    assert_eq!(f3(t.size_bits), [12.0, 8.0, 2.0]);
    assert_eq!(t.source_id, DatId(*b"zmr0"));
    assert_eq!(t.dest_id, Some(DatId(*b"zmr1")));
    assert_eq!(t.param, 253);
    assert_eq!(t.map_id, 1);
    assert!(t.is_zone_line());
    assert!(t.is_mog_house_line());
    assert!(!t.is_zone_entrance());

    let m = &all[1];
    assert_eq!(m.dest_id, None, "all-zero dest is None");
    assert!(m.is_zone_entrance());
    assert!(!m.is_zone_line());
    assert_eq!(m.terrain_flags, 0x1);

    let d = &all[2];
    assert_eq!(d.dest_id, Some(DatId([0x20, 0, 0, 0])), "non-zero junk dest stays Some");
    assert!(d.is_door());
    assert!(!d.is_zone_line(), "non-'z' source is not a zone line");
    assert!((floor_y(d, d.elevator_bottom_offset) - (-1.0 + -128.0 / 256.0)).abs() < 1e-6);
    assert!((floor_y(d, d.elevator_top_offset) - (-1.0 + 1.0)).abs() < 1e-6);
}

#[test]
fn rect_class_is_an_integer_and_keeps_out_of_the_orientation() {
    const SUB_MAP_REGION_CLASS: u32 = 555;
    let e = synth_entry([0.0; 3], SUB_MAP_REGION_CLASS, [0.0, 1.5, 0.0], [1.0; 3], b"m6t1", &[0x20, 0, 0, 0], 0x1C6, 0, 0, [0, 0]);
    let parsed = parse(&synth_body(&[e])).unwrap()[0];
    assert_eq!(parsed.rect_class, SUB_MAP_REGION_CLASS);
    assert_eq!(f3(parsed.orientation_bits), [0.0, 1.5, 0.0]);
    assert!(parsed.is_sub_map_region());
    assert!(!parsed.is_sub_area_trigger());
    assert_eq!(parsed.sub_area_param(), None);
    assert_eq!(parsed.sub_area_id(), None);
}

#[test]
fn bad_magic_and_truncation_error() {
    let mut body = synth_body(&[]);
    body[0] = b'X';
    assert!(parse(&body).is_err());

    let body = synth_body(&[]);
    assert!(parse(&body[..DATA_OFFSET_FIELD]).is_err());

    let mut body = synth_body(&[]);
    body[TEST_DATA_OFFSET..TEST_DATA_OFFSET + 4].copy_from_slice(&1u32.to_le_bytes());
    assert!(parse(&body).is_err(), "entry count beyond body errors");
}

#[test]
fn rect_id_matches_lsb_zonelines_primary_key() {
    assert_eq!(u32::from_le_bytes(*b"zmr0"), 812805498);
    let e = synth_entry([0.0; 3], RECT_CLASS_HIT_CHECKED, [0.0; 3], [1.0; 3], b"zmr0", b"zmr1", 0, 0, 0, [0, 0]);
    let all = parse(&synth_body(&[e])).unwrap();
    assert_eq!(all[0].rect_id(), 812805498);
}

fn rid_message(body: &[u8]) -> String {
    match parse(body) {
        Err(DatError::Rid(m)) => m,
        other => panic!("expected a refusal, got {other:?}"),
    }
}

#[test]
fn each_refusal_says_what_it_found() {
    let mut body = synth_body(&[]);
    body[0] = b'X';
    assert_eq!(rid_message(&body), "bad magic [58, 49, 44]");
    let body = synth_body(&[]);
    assert_eq!(rid_message(&body[..DATA_OFFSET_FIELD]), "body too short for header: 16");
    let mut body = synth_body(&[]);
    body[DATA_OFFSET_FIELD..DATA_OFFSET_FIELD + 4].copy_from_slice(&0x40u32.to_le_bytes());
    assert_eq!(rid_message(&body), "data_offset 0x40 beyond body (64)");
    let mut body = synth_body(&[]);
    body[TEST_DATA_OFFSET + 8..TEST_DATA_OFFSET + 12].copy_from_slice(&0xABu32.to_le_bytes());
    assert_eq!(rid_message(&body), "expected zero u32 #2 after entry count, got 0xab");
    let mut body = synth_body(&[]);
    body[TEST_DATA_OFFSET..TEST_DATA_OFFSET + 4].copy_from_slice(&1u32.to_le_bytes());
    assert_eq!(rid_message(&body), "1 entries need 128 bytes, body has 64");
}

#[test]
fn sub_area_triggers_latch_their_parameter() {
    let leave = synth_entry([0.0; 3], RECT_CLASS_HIT_CHECKED, [0.0; 3], [1.0; 3], b"m001", b"m002", 0, 0, 0, [0, 0]);
    let enter = synth_entry([0.0; 3], RECT_CLASS_HIT_CHECKED, [0.0; 3], [1.0; 3], b"m003", b"m004", 7, 0, 0, [0, 0]);
    let fish = synth_entry([0.0; 3], 0, [0.0; 3], [1.0; 3], b"f001", &[0; 4], 0, 0, 0, [0, 0]);
    let lift = synth_entry([0.0; 3], 0, [0.0; 3], [1.0; 3], b"@ev0", &[0; 4], 0, 0, 0, [16, -16]);
    let all = parse(&synth_body(&[leave, enter, fish, lift])).unwrap();
    assert!(all[0].is_sub_area_trigger());
    assert_eq!(all[0].sub_area_param(), Some(0));
    assert_eq!(all[0].sub_area_id(), None);
    assert_eq!(all[1].sub_area_id(), Some(7));
    assert!(all[2].is_fishing_area() && !all[2].is_sub_area());
    assert!(all[3].is_elevator());
    assert_eq!((all[3].elevator_bottom_offset, all[3].elevator_top_offset), (16, -16));
}
