use ffxi_dat::sep::{activate_time_minutes, Sep, FLAGS_OFFSET};
use ffxi_dat::DatError;

#[test]
fn parses_se_id_at_offset_8() {
    let mut body = vec![0u8; 16];
    body[8..12].copy_from_slice(&12345u32.to_le_bytes());
    let s = Sep::parse(*b"snd0", &body).unwrap();
    assert_eq!(s.se_id, 12345);
    assert_eq!(s.name, *b"snd0");
    assert_eq!(s.relative_path(), ("se012".to_string(), "se012345.spw".to_string()));
}

#[test]
fn loop_flag_reads_from_field_3c_and_tolerates_a_short_body() {
    let mut body = vec![0u8; 16];
    body[FLAGS_OFFSET..FLAGS_OFFSET + 4].copy_from_slice(&0x8000_0104u32.to_le_bytes());
    assert!(Sep::parse(*b"2024", &body).unwrap().loops());

    body[FLAGS_OFFSET..FLAGS_OFFSET + 4].copy_from_slice(&0x0000_0048u32.to_le_bytes());
    assert!(!Sep::parse(*b"2081", &body).unwrap().loops());

    let short = vec![0u8; 12];
    let s = Sep::parse(*b"se01", &short).unwrap();
    assert_eq!(s.flags, 0);
    assert!(!s.loops());
}

#[test]
fn rejects_short_body() {
    let body = vec![0u8; 4];
    assert!(matches!(
        Sep::parse(*b"abcd", &body),
        Err(DatError::TruncatedChunk { needed: 12, available: 4, .. })
    ));
}

#[test]
fn se_zero_resolves_to_se000() {
    let mut body = vec![0u8; 12];
    body[8..12].copy_from_slice(&0u32.to_le_bytes());
    let s = Sep::parse(*b"zero", &body).unwrap();
    assert_eq!(s.relative_path(), ("se000".to_string(), "se000000.spw".to_string()));
}

#[test]
fn activate_time_accepts_only_retails_hhmm_domain() {
    assert_eq!(activate_time_minutes(b"0000"), Some(0));
    assert_eq!(activate_time_minutes(b"0600"), Some(360));
    assert_eq!(activate_time_minutes(b"1138"), Some(11 * 60 + 38));
    assert_eq!(activate_time_minutes(b"1959"), Some(19 * 60 + 59));
    assert_eq!(activate_time_minutes(b"0430"), Some(4 * 60 + 30));

    for reject in [
        b"2000", b"2020", b"2100", b"2309", b"1087", b"8071", b"thnd", b"torn", b"se01",
    ] {
        assert_eq!(activate_time_minutes(reject), None, "{}", String::from_utf8_lossy(reject));
    }
}
