use ffxi_dat::archive::{appid_paths, DatRoot, FTable, RomTables, VTable};
use ffxi_dat::event_locate::{
    event_dat_file_id, event_dat_zones, EVENT_DAT_HI_OFFSET, EVENT_DAT_LO_OFFSET, ZONE_DAT_THRESHOLD,
};

#[test]
fn offsets_switch_at_the_zone_dat_threshold() {
    assert_eq!(event_dat_file_id(0), EVENT_DAT_LO_OFFSET);
    assert_eq!(
        event_dat_file_id(ZONE_DAT_THRESHOLD - 1),
        u32::from(ZONE_DAT_THRESHOLD - 1) + EVENT_DAT_LO_OFFSET
    );
    assert_eq!(
        event_dat_file_id(ZONE_DAT_THRESHOLD),
        u32::from(ZONE_DAT_THRESHOLD) + EVENT_DAT_HI_OFFSET
    );
}

#[test]
fn zones_whose_event_file_the_install_claims_are_listed_in_order() {
    let n = EVENT_DAT_LO_OFFSET as usize + 3;
    let mut vtable = vec![0u8; n];
    vtable[EVENT_DAT_LO_OFFSET as usize] = 1;
    vtable[EVENT_DAT_LO_OFFSET as usize + 2] = 1;
    let ftable = vec![0u8; 2 * n];
    let (_, vt, ft) = appid_paths("/install", 1);
    let root = DatRoot::open(
        "/install".to_string(),
        vec![RomTables { rom_index: 1, vtable: VTable::new(vt, vtable), ftable: FTable::from_bytes(ft, &ftable) }],
        Vec::new(),
    )
    .unwrap();
    assert_eq!(event_dat_zones(&root), vec![0, 2]);
}
