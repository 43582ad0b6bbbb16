use ffxi_dat::datid::DatId;
use ffxi_dat::particle_gen::{AttachType, ParticleBillboard};

#[test]
fn billboard_flag_ladder_matches_xim() {
    for (flags, want) in [
        (0x0000u16, ParticleBillboard::Off),
        (0x00C0, ParticleBillboard::Camera),
        (0x00C1, ParticleBillboard::Camera),
        (0x0081, ParticleBillboard::Movement),
        (0x0080, ParticleBillboard::MovementHorizontal),
        (0x0040, ParticleBillboard::Movement),
        (0x4000, ParticleBillboard::Xz),
        (0x0001, ParticleBillboard::Xyz),
    ] {
        assert_eq!(ParticleBillboard::from_flags(flags), want, "flags 0x{flags:04X}");
    }
}

#[test]
fn attach_flags_outside_the_known_nibbles_name_no_type() {
    for unknown in [0x7u16, 0x8, 0xD, 0x10] {
        assert_eq!(AttachType::from_flag(unknown), None);
    }
    assert_eq!(AttachType::from_flag(0x2), Some(AttachType::TargetActor));
    assert_eq!(AttachType::from_flag(0x9), Some(AttachType::SourceActorWeapon));
    assert_eq!(AttachType::from_flag(0x0), Some(AttachType::Unattached));
    assert_eq!(AttachType::from_flag(0xF), Some(AttachType::Moon));
}

#[test]
fn ids_read_from_bytes_and_test_their_prefix() {
    let id = DatId::from(b"..sun0", 2);
    assert_eq!(id, DatId(*b"sun0"));
    assert!(id.starts_with("su"));
    assert!(!id.starts_with("sun01"));
    assert!(!id.starts_with("m"));
    assert!(!id.is_zero());
    assert!(DatId([0; 4]).is_zero());
}
