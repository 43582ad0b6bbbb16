use std::collections::BTreeMap;
use std::ops::Range;

use ffxi_dat::main_dll::{
    find_offset, parse_zone_map, scan_window, MainDll, DATA_SECTION_NAME, EQUIPMENT_RACE_STRIDE,
    EQUIPMENT_SLOT_STRIDE, SCAN_START, SCAN_STRIDE, SCAN_WORDS, WEAPON_SKILL_HINT,
    ZONE_MAP_FILE_TABLE_BASES, ZONE_MAP_NEXT_DIVISOR, ZONE_MAP_STRIDE,
};
use ffxi_dat::pol1::{
    section_name, PE_E_LFANEW_OFFSET, PE_NUMBER_OF_SECTIONS_OFFSET, PE_OPTIONAL_HEADER_OFFSET,
    SECTION_HEADER_SIZE, SECTION_NAME_LEN, SECTION_POINTER_TO_RAW_DATA_OFFSET,
    SECTION_SIZE_OF_RAW_DATA_OFFSET,
};

const FALLBACK_WINDOW: Range<usize> = SCAN_START..SCAN_START + SCAN_WORDS * SCAN_STRIDE;

#[test]
fn find_offset_matches_big_endian_marker_word_aligned() {
    let mut bytes = vec![0u8; SCAN_START + 0x40];
    let at = SCAN_START + 0x20;
    bytes[at..at + 4].copy_from_slice(&0xCB81_CB81u32.to_be_bytes());
    assert_eq!(find_offset(&bytes, &FALLBACK_WINDOW, WEAPON_SKILL_HINT), Some(at));
}

#[test]
fn find_offset_none_when_absent() {
    let bytes = vec![0u8; SCAN_START + 0x40];
    assert_eq!(find_offset(&bytes, &FALLBACK_WINDOW, WEAPON_SKILL_HINT), None);
}

#[test]
fn scan_window_falls_back_when_there_is_no_pe_header() {
    assert_eq!(scan_window(&[0u8; 0x100]), FALLBACK_WINDOW);
    assert_eq!(scan_window(&[]), FALLBACK_WINDOW);
    let mut bytes = vec![0u8; 0x200];
    bytes[PE_E_LFANEW_OFFSET..PE_E_LFANEW_OFFSET + 4].copy_from_slice(&0x80u32.to_le_bytes());
    bytes[0x80..0x84].copy_from_slice(b"NE\0\0");
    assert_eq!(scan_window(&bytes), FALLBACK_WINDOW);
}

fn synthetic_pe(data_ptr: u32, data_raw: u32, total: usize) -> Vec<u8> {
    let pe = 0x80usize;
    let mut bytes = vec![0u8; total];
    bytes[PE_E_LFANEW_OFFSET..PE_E_LFANEW_OFFSET + 4].copy_from_slice(&(pe as u32).to_le_bytes());
    bytes[pe..pe + 4].copy_from_slice(b"PE\0\0");
    bytes[pe + PE_NUMBER_OF_SECTIONS_OFFSET..pe + PE_NUMBER_OF_SECTIONS_OFFSET + 2]
        .copy_from_slice(&2u16.to_le_bytes());
    let table = pe + PE_OPTIONAL_HEADER_OFFSET;
    bytes[table..table + SECTION_NAME_LEN].copy_from_slice(&section_name(b".text"));
    bytes[table + SECTION_POINTER_TO_RAW_DATA_OFFSET..table + SECTION_POINTER_TO_RAW_DATA_OFFSET + 4]
        .copy_from_slice(&0x400u32.to_le_bytes());
    let data = table + SECTION_HEADER_SIZE;
    bytes[data..data + SECTION_NAME_LEN].copy_from_slice(&DATA_SECTION_NAME);
    bytes[data + SECTION_SIZE_OF_RAW_DATA_OFFSET..data + SECTION_SIZE_OF_RAW_DATA_OFFSET + 4]
        .copy_from_slice(&data_raw.to_le_bytes());
    bytes[data + SECTION_POINTER_TO_RAW_DATA_OFFSET..data + SECTION_POINTER_TO_RAW_DATA_OFFSET + 4]
        .copy_from_slice(&data_ptr.to_le_bytes());
    bytes
}

#[test]
fn scan_window_is_the_data_section_from_the_section_table() {
    let bytes = synthetic_pe(0x1000, 0x800, 0x2000);
    assert_eq!(scan_window(&bytes), 0x1000..0x1800);
}

#[test]
fn scan_window_clips_a_data_section_that_overruns_the_file() {
    let bytes = synthetic_pe(0x1000, 0x8000, 0x1400);
    assert_eq!(scan_window(&bytes), 0x1000..0x1400);
    let bytes = synthetic_pe(0x4000, 0x100, 0x1400);
    assert_eq!(scan_window(&bytes), FALLBACK_WINDOW, "a section past EOF is no window");
}

#[test]
fn find_offset_ignores_a_marker_outside_the_data_section() {
    let mut bytes = synthetic_pe(0x1000, 0x800, 0x2000);
    let outside = 0x800;
    let inside = 0x1400;
    bytes[outside..outside + 4].copy_from_slice(&WEAPON_SKILL_HINT.to_be_bytes());
    bytes[inside..inside + 4].copy_from_slice(&WEAPON_SKILL_HINT.to_be_bytes());
    let window = scan_window(&bytes);
    assert_eq!(find_offset(&bytes, &window, WEAPON_SKILL_HINT), Some(inside));
    let past = 0x1900;
    bytes[inside..inside + 4].fill(0);
    bytes[past..past + 4].copy_from_slice(&WEAPON_SKILL_HINT.to_be_bytes());
    assert_eq!(find_offset(&bytes, &window, WEAPON_SKILL_HINT), None);
}

fn blank(bytes: Vec<u8>) -> MainDll {
    MainDll {
        bytes,
        weapon_skill_base: 0,
        dance_skill_base: 0,
        emote_base: None,
        zone_map_base: None,
        race_config_base: None,
        action_anim_base: None,
        battle_anim_base: None,
        equipment_base: None,
    }
}

#[test]
fn read16_is_little_endian_per_race() {
    let mut bytes = vec![0u8; SCAN_START + 0x40];
    let base = SCAN_START + 0x20;
    bytes[base..base + 4].copy_from_slice(&WEAPON_SKILL_HINT.to_be_bytes());
    bytes[base + 2] = 0x34;
    bytes[base + 3] = 0x12;
    let dll = MainDll {
        weapon_skill_base: base,
        dance_skill_base: base,
        emote_base: Some(base),
        race_config_base: Some(base),
        action_anim_base: Some(base),
        battle_anim_base: Some(base),
        ..blank(bytes)
    };
    assert_eq!(dll.base_weapon_skill_index(1), Some(0x1234));
    assert_eq!(dll.base_emote_index(1), Some(0x1234));
    assert_eq!(dll.base_race_config_index(1), Some(0x1234));
    assert_eq!(dll.base_action_animation_index(1), Some(0x1234));
    assert_eq!(dll.base_battle_animation_index(1), Some(0x1234));
}

#[test]
fn missing_emote_marker_yields_none() {
    let dll = blank(vec![0u8; 4]);
    assert_eq!(dll.base_emote_index(1), None);
    assert_eq!(dll.base_race_config_index(1), None);
    assert_eq!(dll.base_action_animation_index(1), None);
    assert_eq!(dll.base_battle_animation_index(1), None);
    assert_eq!(dll.equipment_model_index(1, 0, 0), None);
}

fn equipment_dll(table_index: u8, slot: u8, bands: &[(u32, u32)]) -> MainDll {
    let row = EQUIPMENT_RACE_STRIDE * usize::from(table_index - 1)
        + EQUIPMENT_SLOT_STRIDE * usize::from(slot);
    let mut bytes = vec![0u8; row + EQUIPMENT_SLOT_STRIDE + EQUIPMENT_RACE_STRIDE];
    for (i, &(first, count)) in bands.iter().enumerate() {
        let at = row + i * 8;
        bytes[at..at + 4].copy_from_slice(&first.to_le_bytes());
        bytes[at + 4..at + 8].copy_from_slice(&count.to_le_bytes());
    }
    MainDll { equipment_base: Some(0), ..blank(bytes) }
}

#[test]
fn equipment_bands_partition_the_model_id_space_in_order() {
    let dll = equipment_dll(1, 1, &[(7112, 256), (63323, 48), (63371, 16)]);
    assert_eq!(dll.equipment_model_index(1, 1, 0), Some(7112));
    assert_eq!(dll.equipment_model_index(1, 1, 255), Some(7367));
    assert_eq!(dll.equipment_model_index(1, 1, 256), Some(63323));
    assert_eq!(dll.equipment_model_index(1, 1, 303), Some(63370));
    assert_eq!(dll.equipment_model_index(1, 1, 304), Some(63371));
    assert_eq!(dll.equipment_model_index(1, 1, 320), None);
}

#[test]
fn equipment_zero_band_is_skipped_without_consuming_model_ids() {
    let dll = equipment_dll(1, 1, &[(7112, 4), (0, 99), (63323, 4)]);
    assert_eq!(dll.equipment_model_index(1, 1, 4), Some(63323));
}

#[test]
fn zone_map_parses_record_and_stops_at_zero_divisor() {
    let base = 0usize;
    let mut bytes = vec![0u8; 64];
    bytes[0..2].copy_from_slice(&100u16.to_le_bytes());
    bytes[2] = 0;
    bytes[5] = 5;
    bytes[10..12].copy_from_slice(&10i16.to_le_bytes());
    bytes[12..14].copy_from_slice(&(-20i16).to_le_bytes());
    bytes[base + ZONE_MAP_NEXT_DIVISOR] = 1;
    let r1 = ZONE_MAP_STRIDE;
    bytes[r1..r1 + 2].copy_from_slice(&230u16.to_le_bytes());
    bytes[r1 + 5] = 8;

    let dll = MainDll { zone_map_base: Some(base), ..blank(bytes) };
    let rec = dll.zone_map(100, 0).expect("zone 100 record");
    assert_eq!(rec.size, 512);
    assert_eq!((rec.x_offset, rec.y_offset), (10, -20));
    assert_eq!(dll.zone_map(230, 0).map(|r| r.size), Some(320));
    assert_eq!(dll.zone_map(999, 0), None);
}

#[test]
fn zone_map_file_table_base_follows_the_low_nibble() {
    for (nibble, base) in ZONE_MAP_FILE_TABLE_BASES.iter().enumerate() {
        let mut rec = [0u8; ZONE_MAP_STRIDE];
        rec[4] = 0xF0 | nibble as u8;
        rec[5] = 4;
        rec[8..10].copy_from_slice(&7i16.to_le_bytes());
        assert_eq!(parse_zone_map(&rec).map(|r| r.file_id), Some(base + 7));
    }
    let mut rec = [0u8; ZONE_MAP_STRIDE];
    rec[4] = ZONE_MAP_FILE_TABLE_BASES.len() as u8;
    rec[5] = 4;
    assert_eq!(parse_zone_map(&rec), None, "a nibble past the table is no record");
}

#[test]
fn zone_map_counts_tallies_every_zone_and_skips_the_client_only_keys() {
    let mut bytes = vec![0u8; ZONE_MAP_STRIDE * 5];
    for (slot, zone, sub) in [(0usize, 238u16, 1u8), (1, 238, 2), (2, 100, 0), (3, 0xFF07, 0)] {
        let at = slot * ZONE_MAP_STRIDE;
        bytes[at..at + 2].copy_from_slice(&zone.to_le_bytes());
        bytes[at + 2] = sub;
        bytes[at + 5] = 4;
        bytes[at + ZONE_MAP_NEXT_DIVISOR] = 1;
    }
    bytes[3 * ZONE_MAP_STRIDE + ZONE_MAP_NEXT_DIVISOR] = 0;
    let dll = MainDll { zone_map_base: Some(0), ..blank(bytes) };

    assert_eq!(
        dll.zone_map_counts(),
        BTreeMap::from([(238, 2), (100, 1)]),
        "one pass tallies each zone's rows, and the negative key is not a zone"
    );
    assert_eq!(dll.zone_map_counts().get(&999), None);
}

#[test]
fn zone_maps_enumerates_a_zone_that_numbers_its_maps_from_one() {
    let mut bytes = vec![0u8; ZONE_MAP_STRIDE * 3];
    for (slot, sub) in [(0usize, 1u8), (1, 2)] {
        let at = slot * ZONE_MAP_STRIDE;
        bytes[at..at + 2].copy_from_slice(&238u16.to_le_bytes());
        bytes[at + 2] = sub;
        bytes[at + 5] = 4;
        bytes[at + 8..at + 10].copy_from_slice(&i16::from(sub).to_le_bytes());
        bytes[at + ZONE_MAP_NEXT_DIVISOR] = 1;
    }
    let dll = MainDll { zone_map_base: Some(0), ..blank(bytes) };

    assert_eq!(dll.zone_map(238, 0), None, "this zone has no sub-zone 0");
    let maps = dll.zone_maps(238);
    assert_eq!(
        maps.iter().map(|r| r.sub_zone_id).collect::<Vec<_>>(),
        vec![1, 2],
        "enumerating still finds both maps"
    );
    assert_eq!(
        maps.iter().map(|r| r.file_id).collect::<Vec<_>>(),
        vec![ZONE_MAP_FILE_TABLE_BASES[0] + 1, ZONE_MAP_FILE_TABLE_BASES[0] + 2],
        "each record names its own map DAT"
    );
}
