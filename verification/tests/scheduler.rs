use ffxi_dat::scheduler::{Scheduler, StageKind, SCHEDULER_HEADER_LEN, STAGE_LENGTH_MASK};

#[test]
fn motion_payload_recovers_loop_and_transition() {
    let mut body = vec![0u8; SCHEDULER_HEADER_LEN];
    body.extend_from_slice(&[0x05, 0x0A, 0, 0]);
    body.extend_from_slice(&0u16.to_le_bytes());
    body.extend_from_slice(&64u16.to_le_bytes());
    body.extend_from_slice(b"mae0");
    body.extend_from_slice(&0u32.to_le_bytes());
    body.extend_from_slice(&1.0f32.to_le_bytes());
    body.extend_from_slice(&1.0f32.to_le_bytes());
    body.extend_from_slice(&8u16.to_le_bytes());
    body.extend_from_slice(&0u16.to_le_bytes());
    body.extend_from_slice(&12u16.to_le_bytes());
    body.extend_from_slice(&3u16.to_le_bytes());
    body.extend_from_slice(&0u32.to_le_bytes());
    body.extend_from_slice(&0u32.to_le_bytes());

    let s = Scheduler::parse(*b"mae0", &body).unwrap();
    assert_eq!(s.stages.len(), 1);
    let st = s.stages[0].stage;
    assert_eq!(st.kind, StageKind::Motion);
    assert_eq!(&st.id, b"mae0");
    assert_eq!(st.transition_in, 8);
    assert_eq!(st.transition_out, 12);
    assert_eq!(st.max_loops, 3);
}

#[test]
fn short_motion_stage_has_zero_tail() {
    let mut body = vec![0u8; SCHEDULER_HEADER_LEN];
    body.extend_from_slice(&[0x05, 0x03, 0, 0]);
    body.extend_from_slice(&0u16.to_le_bytes());
    body.extend_from_slice(&20u16.to_le_bytes());
    body.extend_from_slice(b"mot0");
    let s = Scheduler::parse(*b"sdam", &body).unwrap();
    let st = s.stages[0].stage;
    assert_eq!(st.max_loops, 0);
    assert_eq!(st.transition_in, 0);
    assert_eq!(st.transition_out, 0);
}

#[test]
fn parses_motion_then_sound_caster() {
    let mut body = vec![0u8; SCHEDULER_HEADER_LEN];
    body.extend_from_slice(&[0x05, 0x03, 0, 0]);
    body.extend_from_slice(&30u16.to_le_bytes());
    body.extend_from_slice(&20u16.to_le_bytes());
    body.extend_from_slice(b"mot0");
    body.extend_from_slice(&[0x53, 0x03, 0, 0]);
    body.extend_from_slice(&15u16.to_le_bytes());
    body.extend_from_slice(&1u16.to_le_bytes());
    body.extend_from_slice(b"snd0");

    let s = Scheduler::parse(*b"sdam", &body).unwrap();
    assert_eq!(s.stages.len(), 2);
    assert_eq!(s.stages[0].stage.kind, StageKind::Motion);
    assert_eq!(s.stages[0].frame, 0, "first stage fires at 0 despite its own delay");
    assert_eq!(s.stages[0].stage.delay_frames, 30);
    assert_eq!(s.stages[1].stage.kind, StageKind::SoundOnCaster);
    assert_eq!(s.stages[1].frame, 30, "second stage fires after the first stage's delay");
    assert_eq!(&s.stages[1].stage.id, b"snd0");

    let snd = s.sound_events();
    assert_eq!(snd.len(), 1);
    assert!(snd[0].on_caster);
    assert_eq!(snd[0].frame, 30);
}

#[test]
fn opcode_0a_len8_is_sound_else_subroutine() {
    let mut body = vec![0u8; SCHEDULER_HEADER_LEN];
    body.extend_from_slice(&[0x0A, 0x08, 0, 0]);
    body.extend_from_slice(&0u16.to_le_bytes());
    body.extend_from_slice(&0u16.to_le_bytes());
    body.extend_from_slice(b"7047");
    body.extend(std::iter::repeat_n(0u8, 20));
    body.extend_from_slice(&[0x0A, 0x03, 0, 0]);
    body.extend_from_slice(&0u16.to_le_bytes());
    body.extend_from_slice(&0u16.to_le_bytes());
    body.extend_from_slice(b"sub0");

    let s = Scheduler::parse(*b"main", &body).unwrap();
    assert_eq!(s.stages[0].stage.kind, StageKind::SoundOnCaster);
    assert_eq!(&s.stages[0].stage.id, b"7047");
    assert_eq!(s.stages[1].stage.kind, StageKind::SubRoutine);
}

#[test]
fn lone_delayed_motion_fires_immediately() {
    let mut body = vec![0u8; SCHEDULER_HEADER_LEN];
    body.extend_from_slice(&[0x05, 0x03, 0, 0]);
    body.extend_from_slice(&152u16.to_le_bytes());
    body.extend_from_slice(&152u16.to_le_bytes());
    body.extend_from_slice(b"bow?");
    let s = Scheduler::parse(*b"em00", &body).unwrap();
    assert_eq!(s.stages[0].frame, 0);
    assert_eq!(s.stages[0].stage.duration_frames, 152);
}

#[test]
fn opcode_3c_is_blocking_subroutine_and_2d_is_stop_particle() {
    let mut body = vec![0u8; SCHEDULER_HEADER_LEN];
    body.extend_from_slice(&[0x3C, 0x04, 0, 0]);
    body.extend_from_slice(&0u16.to_le_bytes());
    body.extend_from_slice(&0u16.to_le_bytes());
    body.extend_from_slice(b"shbk");
    body.extend_from_slice(&0u32.to_le_bytes());
    body.extend_from_slice(&[0x3B, 0x04, 0, 0]);
    body.extend_from_slice(&0u16.to_le_bytes());
    body.extend_from_slice(&0u16.to_le_bytes());
    body.extend_from_slice(b"wash");
    body.extend_from_slice(&0u32.to_le_bytes());
    body.extend_from_slice(&[0x2D, 0x04, 0, 0]);
    body.extend_from_slice(&0u16.to_le_bytes());
    body.extend_from_slice(&0u16.to_le_bytes());
    body.extend_from_slice(b"gn13");
    body.extend_from_slice(&0u32.to_le_bytes());

    let s = Scheduler::parse(*b"main", &body).unwrap();
    assert_eq!(s.stages[0].stage.kind, StageKind::BlockingSubRoutine);
    assert_eq!(&s.stages[0].stage.id, b"shbk");
    assert_eq!(s.stages[1].stage.kind, StageKind::BlockingSubRoutine);
    assert_eq!(&s.stages[1].stage.id, b"wash");
    assert_eq!(s.stages[2].stage.kind, StageKind::StopParticle);
    assert_eq!(&s.stages[2].stage.id, b"gn13");
}

#[test]
fn damage_callback_and_blocking_subroutine_opcodes() {
    assert_eq!(StageKind::from_stage(0x2B, 3), StageKind::DamageCallback);
    assert_eq!(StageKind::from_stage(0x3C, 4), StageKind::BlockingSubRoutine);
    assert_eq!(StageKind::from_stage(0x3B, 4), StageKind::BlockingSubRoutine);
    assert_eq!(StageKind::from_stage(0x03, 3), StageKind::SubRoutine);
    assert_ne!(StageKind::from_stage(0x3C, 4), StageKind::from_stage(0x03, 3));
}

#[test]
fn unknown_type_is_preserved() {
    let mut body = vec![0u8; SCHEDULER_HEADER_LEN];
    body.extend_from_slice(&[0xAB, 0x03, 0, 0]);
    body.extend_from_slice(&5u16.to_le_bytes());
    body.extend_from_slice(&5u16.to_le_bytes());
    body.extend_from_slice(b"????");
    let s = Scheduler::parse(*b"sch0", &body).unwrap();
    assert_eq!(s.stages[0].stage.kind, StageKind::Unknown);
    assert_eq!(s.stages[0].stage.raw_type, 0xAB);
}

#[test]
fn truncated_stage_stops_scan_without_panic() {
    let mut body = vec![0u8; SCHEDULER_HEADER_LEN];
    body.extend_from_slice(&[0x05, STAGE_LENGTH_MASK as u8, 0, 0, 0, 0, 0, 0, 0, 0, 0, 0]);
    let s = Scheduler::parse(*b"trun", &body).unwrap();
    assert_eq!(s.stages.len(), 0);
}

#[test]
fn a_random_block_groups_its_stages_and_holds_the_clock() {
    let mut body = vec![0u8; SCHEDULER_HEADER_LEN];
    for (op, delay) in [(0x3Du8, 10u16), (0x0B, 7), (0x0B, 9), (0x3E, 0), (0x05, 4)] {
        body.extend_from_slice(&[op, 0x03, 0, 0]);
        body.extend_from_slice(&delay.to_le_bytes());
        body.extend_from_slice(&0u16.to_le_bytes());
        body.extend_from_slice(b"rnd0");
    }
    let s = Scheduler::parse(*b"vatk", &body).unwrap();
    let groups: Vec<_> = s.stages.iter().map(|t| t.stage.random_group).collect();
    assert_eq!(groups, [None, Some(0), Some(0), Some(0), None]);
    let frames: Vec<_> = s.stages.iter().map(|t| t.frame).collect();
    assert_eq!(frames, [0, 10, 10, 10, 10]);
}
