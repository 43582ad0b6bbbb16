use ffxi_dat::particle_gen::particle::{
    EmitCull as RawEmitCull, ParticleGeneratorDef, PositionVariance as RawPositionVariance,
    SpecularParams as RawSpecularParams, SphericalPositionVarianceFull as RawSpherical, DAYS_OF_WEEK,
    LINKED_DATA_SPRITE_SHEET, LINKED_DATA_STATIC_MESH, MOON_PHASES,
};
use ffxi_dat::particle_gen::sound::{SoundGeneratorDef, LINKED_DATA_SOUND};
use ffxi_dat::particle_gen::stream::{GEN_FLAGS_OFFSET, GEN_FLAG_AUTO_RUN, GEN_FLAG_CONTINUOUS, HEADER_LEN};
use ffxi_dat::particle_gen::{
    AssociationFollow, AttachType, DrawPriority, GeneratorOpcodeOutcome, GeneratorSection, ParticleBillboard,
    ParticleBlend, ParticleMeshKind,
};
use ffxi_dat::DatError;

const OPCODE_END: u8 = 0x00;
const SEC2_OPCODE_SPRITE_SHEET_INIT: u8 = 0x1D;
const SEC2_OPCODE_FOOT_MARK: u8 = 0x8E;
const SEC2_OPCODE_OSCILLATION_SETUP: u8 = 0x3D;
const ATTACH_JOINT0_SHIFT: u32 = 4;
const ATTACH_SOURCE_ORIENTED: u16 = 0x0001;
const TOD_COLOR_CHANNELS: usize = 4;
const SOUND_SETUP_OPCODE: u8 = 0x4C;
const SEC1_OPCODE_EMIT_CULL: u8 = 0x0A;
const SEC1_OPCODE_ASSOCIATION: u8 = 0x11;

fn f(bits: u32) -> f32 {
    f32::from_bits(bits)
}

fn f3(bits: [u32; 3]) -> [f32; 3] {
    bits.map(f32::from_bits)
}

fn f2(bits: [u32; 2]) -> [f32; 2] {
    bits.map(f32::from_bits)
}

fn unit(c: [u8; 4]) -> [f32; 4] {
    c.map(|x| x as f32 / 255.0)
}

/// The generator as a renderer reads it: bit patterns as `f32`, colour bytes over 255.
#[derive(Debug, Clone, Copy, PartialEq)]
struct PositionVariance {
    radius_variance: f32,
    base_radius: f32,
    axis_scale: [f32; 3],
}

#[derive(Debug, Clone, Copy, PartialEq)]
struct SphericalPositionVarianceFull {
    radius_variance: f32,
    base_radius: f32,
    axis_scale: [f32; 3],
    rotation_z: f32,
    rotation_y: f32,
    tilt: f32,
    tilt_variance: f32,
    camera_oriented: bool,
    azimuth_steps: u32,
}

#[derive(Debug, Clone, Copy, PartialEq)]
struct SpecularParams {
    vector: [f32; 3],
    texture: Option<[u8; 4]>,
    unknown_a: f32,
    unknown_b: f32,
    color_bgra: [u8; 4],
    flags: u32,
}

#[derive(Debug, Clone, Copy, PartialEq)]
struct EmitCull {
    max_distance: f32,
    min_distance: f32,
    unlink_out_of_range: bool,
}

#[derive(Debug, Clone, Copy, PartialEq)]
struct Def {
    frames_per_emission: f32,
    particles_per_emission: u32,
    emission_variance: f32,
    mesh_id: [u8; 4],
    mesh_kind: ParticleMeshKind,
    base_position: [f32; 3],
    max_life_frames: f32,
    camera_billboard: bool,
    billboard: ParticleBillboard,
    camera_relative: bool,
    follow_camera: bool,
    camera_attached_base: bool,
    position_variance: Option<PositionVariance>,
    spherical_full: Option<SphericalPositionVarianceFull>,
    continuous: bool,
    auto_run: bool,
    batched: bool,
    attach_type: AttachType,
    attach_joint_source: u8,
    attach_joint_target: u8,
    attach_source_oriented: bool,
    init_scale: [f32; 3],
    single_scale_variance: Option<f32>,
    scale_variance: Option<[f32; 3]>,
    init_color: [f32; 4],
    color_variance: Option<[f32; 4]>,
    color_transform: Option<[i16; 4]>,
    init_velocity: [f32; 3],
    velocity_variance: Option<[f32; 3]>,
    relative_velocity: Option<f32>,
    relative_velocity_variance: Option<f32>,
    reverse_displacement: Option<f32>,
    rotation_variance: Option<[f32; 3]>,
    init_rotation: [f32; 3],
    incremental_rotation: Option<[f32; 3]>,
    blend: ParticleBlend,
    blend_byte: u8,
    ignore_texture_alpha: bool,
    fog_enabled: bool,
    draw_priority: DrawPriority,
    sort_offset: f32,
    projection_bias: Option<[f32; 2]>,
    depth_write: bool,
    scale_x_track: Option<[u8; 4]>,
    scale_y_track: Option<[u8; 4]>,
    scale_z_track: Option<[u8; 4]>,
    alpha_track: Option<[u8; 4]>,
    color_r_track: Option<[u8; 4]>,
    color_g_track: Option<[u8; 4]>,
    color_b_track: Option<[u8; 4]>,
    day_of_week_color: Option<[[f32; 4]; DAYS_OF_WEEK]>,
    moon_phase_color: Option<[[f32; 4]; MOON_PHASES]>,
    tod_color_tracks: [Option<[u8; 4]>; TOD_COLOR_CHANNELS],
    tod_color_driven: [bool; TOD_COLOR_CHANNELS],
    moon_phase_sprite: bool,
    uv_scroll: [f32; 2],
    accel: Option<[f32; 3]>,
    emit_cull: Option<EmitCull>,
    association: Option<AssociationFollow>,
    foot_mark: bool,
    oscillation: bool,
    parent_position_copy: bool,
    parent_velocity: Option<f32>,
    child_generator: Option<[u8; 4]>,
    oscillation_accel_z: Option<[f32; 2]>,
    oscillation_accel_x: Option<[f32; 2]>,
    oscillation_accel_y: Option<[f32; 2]>,
    oscillation_applier_x: Option<[f32; 3]>,
    oscillation_applier_z: Option<[f32; 3]>,
    oscillation_applier_y: Option<[f32; 3]>,
    rotation_velocity: Option<[f32; 3]>,
    rotation_velocity_variance: Option<[f32; 3]>,
    rotation_updater: bool,
    scale_velocity: Option<[f32; 3]>,
    scale_updater: bool,
    scale_velocity_variance: Option<[f32; 3]>,
    relife_on_expiry: bool,
    specular_element: bool,
    specular: Option<SpecularParams>,
    specular_rot_y_track: Option<[u8; 4]>,
    camera_shake_track: Option<[u8; 4]>,
    haze_offset_x: Option<f32>,
    parent_rotate: bool,
    parent_color: bool,
    parent_scale: bool,
    velocity_dampener_track: Option<[u8; 4]>,
    fixed_point_position_variance: Option<[u8; 4]>,
    fixed_point_position_variance_2: Option<[u8; 4]>,
    child_generator_2: Option<[u8; 4]>,
    specular_rot_z_track: Option<[u8; 4]>,
    raw: ParticleGeneratorDef,
}

impl Def {
    fn is_singleton(&self) -> bool {
        self.raw.is_singleton()
    }
    fn spin(&self) -> Option<[f32; 3]> {
        self.raw.spin().map(f3)
    }
    fn scale_rate(&self) -> Option<[f32; 3]> {
        self.raw.scale_rate().map(f3)
    }
}

fn pv(p: RawPositionVariance) -> PositionVariance {
    PositionVariance { radius_variance: f(p.radius_variance_bits), base_radius: f(p.base_radius_bits), axis_scale: f3(p.axis_scale_bits) }
}

fn sph(s: RawSpherical) -> SphericalPositionVarianceFull {
    SphericalPositionVarianceFull {
        radius_variance: f(s.radius_variance_bits),
        base_radius: f(s.base_radius_bits),
        axis_scale: f3(s.axis_scale_bits),
        rotation_z: f(s.rotation_z_bits),
        rotation_y: f(s.rotation_y_bits),
        tilt: f(s.tilt_bits),
        tilt_variance: f(s.tilt_variance_bits),
        camera_oriented: s.camera_oriented,
        azimuth_steps: s.azimuth_steps,
    }
}

fn spec(s: RawSpecularParams) -> SpecularParams {
    SpecularParams {
        vector: f3(s.vector_bits),
        texture: s.texture,
        unknown_a: f(s.unknown_a_bits),
        unknown_b: f(s.unknown_b_bits),
        color_bgra: s.color_bgra,
        flags: s.flags,
    }
}

fn cull(e: RawEmitCull) -> EmitCull {
    EmitCull { max_distance: f(e.max_distance_bits), min_distance: f(e.min_distance_bits), unlink_out_of_range: e.unlink_out_of_range }
}

fn view(d: ParticleGeneratorDef) -> Def {
    Def {
        frames_per_emission: d.frames_per_emission as f32,
        particles_per_emission: d.particles_per_emission,
        emission_variance: d.emission_variance as f32,
        mesh_id: d.mesh_id,
        mesh_kind: d.mesh_kind,
        base_position: f3(d.base_position_bits),
        max_life_frames: d.max_life_frames as f32,
        camera_billboard: d.camera_billboard,
        billboard: d.billboard,
        camera_relative: d.camera_relative,
        follow_camera: d.follow_camera,
        camera_attached_base: d.camera_attached_base,
        position_variance: d.position_variance.map(pv),
        spherical_full: d.spherical_full.map(sph),
        continuous: d.continuous,
        auto_run: d.auto_run,
        batched: d.batched,
        attach_type: d.attach_type,
        attach_joint_source: d.attach_joint_source,
        attach_joint_target: d.attach_joint_target,
        attach_source_oriented: d.attach_source_oriented,
        init_scale: f3(d.init_scale_bits),
        single_scale_variance: d.single_scale_variance_bits.map(f),
        scale_variance: d.scale_variance_bits.map(f3),
        init_color: unit(d.init_color),
        color_variance: d.color_variance.map(unit),
        color_transform: d.color_transform,
        init_velocity: f3(d.init_velocity_bits),
        velocity_variance: d.velocity_variance_bits.map(f3),
        relative_velocity: d.relative_velocity_bits.map(f),
        relative_velocity_variance: d.relative_velocity_variance_bits.map(f),
        reverse_displacement: d.reverse_displacement_bits.map(f),
        rotation_variance: d.rotation_variance_bits.map(f3),
        init_rotation: f3(d.init_rotation_bits),
        incremental_rotation: d.incremental_rotation_bits.map(f3),
        blend: d.blend,
        blend_byte: d.blend_byte,
        ignore_texture_alpha: d.ignore_texture_alpha,
        fog_enabled: d.fog_enabled,
        draw_priority: d.draw_priority,
        sort_offset: f(d.sort_offset_bits),
        projection_bias: d.projection_bias_bits.map(f2),
        depth_write: d.depth_write,
        scale_x_track: d.scale_x_track,
        scale_y_track: d.scale_y_track,
        scale_z_track: d.scale_z_track,
        alpha_track: d.alpha_track,
        color_r_track: d.color_r_track,
        color_g_track: d.color_g_track,
        color_b_track: d.color_b_track,
        day_of_week_color: d.day_of_week_color.map(|q| q.map(unit)),
        moon_phase_color: d.moon_phase_color.map(|q| q.map(unit)),
        tod_color_tracks: d.tod_color_tracks,
        tod_color_driven: d.tod_color_driven,
        moon_phase_sprite: d.moon_phase_sprite,
        uv_scroll: f2(d.uv_scroll_bits),
        accel: d.accel_bits.map(f3),
        emit_cull: d.emit_cull.map(cull),
        association: d.association,
        foot_mark: d.foot_mark,
        oscillation: d.oscillation,
        parent_position_copy: d.parent_position_copy,
        parent_velocity: d.parent_velocity_bits.map(f),
        child_generator: d.child_generator,
        oscillation_accel_z: d.oscillation_accel_z_bits.map(f2),
        oscillation_accel_x: d.oscillation_accel_x_bits.map(f2),
        oscillation_accel_y: d.oscillation_accel_y_bits.map(f2),
        oscillation_applier_x: d.oscillation_applier_x_bits.map(f3),
        oscillation_applier_z: d.oscillation_applier_z_bits.map(f3),
        oscillation_applier_y: d.oscillation_applier_y_bits.map(f3),
        rotation_velocity: d.rotation_velocity_bits.map(f3),
        rotation_velocity_variance: d.rotation_velocity_variance_bits.map(f3),
        rotation_updater: d.rotation_updater,
        scale_velocity: d.scale_velocity_bits.map(f3),
        scale_updater: d.scale_updater,
        scale_velocity_variance: d.scale_velocity_variance_bits.map(f3),
        relife_on_expiry: d.relife_on_expiry,
        specular_element: d.specular_element,
        specular: d.specular.map(spec),
        specular_rot_y_track: d.specular_rot_y_track,
        camera_shake_track: d.camera_shake_track,
        haze_offset_x: d.haze_offset_x_bits.map(f),
        parent_rotate: d.parent_rotate,
        parent_color: d.parent_color,
        parent_scale: d.parent_scale,
        velocity_dampener_track: d.velocity_dampener_track,
        fixed_point_position_variance: d.fixed_point_position_variance,
        fixed_point_position_variance_2: d.fixed_point_position_variance_2,
        child_generator_2: d.child_generator_2,
        specular_rot_z_track: d.specular_rot_z_track,
        raw: d,
    }
}

fn parse_def(body: &[u8]) -> Result<Option<Def>, DatError> {
    ParticleGeneratorDef::parse(body).map(|o| o.map(view))
}

fn parse_reporting_def(body: &[u8]) -> (Def, Vec<(GeneratorSection, u8, GeneratorOpcodeOutcome)>) {
    let (d, reports) = ParticleGeneratorDef::parse_reporting(body).unwrap().unwrap();
    (view(d), reports)
}

#[derive(Debug, Clone, Copy, PartialEq)]
struct Sound {
    sep_id: [u8; 4],
    base_position: [f32; 3],
    far: f32,
    near: f32,
    frames_per_emission: f32,
    emission_variance: f32,
    auto_run: bool,
    continuous: bool,
    max_life_frames: f32,
    attach_type: AttachType,
    raw: SoundGeneratorDef,
}

impl Sound {
    fn is_placed(&self) -> bool {
        self.raw.is_placed()
    }
    fn is_singleton(&self) -> bool {
        self.raw.is_singleton()
    }
}

fn parse_sound(body: &[u8]) -> Result<Option<Sound>, DatError> {
    SoundGeneratorDef::parse(body).map(|o| {
        o.map(|d| Sound {
            sep_id: d.sep_id,
            base_position: f3(d.base_position_bits),
            far: f(d.far_bits),
            near: f(d.near_bits),
            frames_per_emission: d.frames_per_emission as f32,
            emission_variance: d.emission_variance as f32,
            auto_run: d.auto_run,
            continuous: d.continuous,
            max_life_frames: d.max_life_frames as f32,
            attach_type: d.attach_type,
            raw: d,
        })
    })
}

fn build(sec2: &[u8], frames_per_em: u16, flags: u32) -> Vec<u8> {
    build_attached(sec2, frames_per_em, flags, 0, 0)
}

fn build_attached(sec2: &[u8], frames_per_em: u16, flags: u32, attach_flags: u16, additional_attach: u16) -> Vec<u8> {
    let mut body = vec![0u8; HEADER_LEN];
    body[0x00..0x02].copy_from_slice(&attach_flags.to_le_bytes());
    body[0x02..0x04].copy_from_slice(&additional_attach.to_le_bytes());
    body[0x66..0x68].copy_from_slice(&(frames_per_em - 1).to_le_bytes());
    body[GEN_FLAGS_OFFSET..GEN_FLAGS_OFFSET + 4].copy_from_slice(&flags.to_le_bytes());
    let sec2_body_index = HEADER_LEN;
    body[0x74..0x78].copy_from_slice(&((sec2_body_index + 0x10) as u32).to_le_bytes());
    body.extend_from_slice(sec2);
    body
}

fn op(opcode: u8, size_words: u8, payload: &[u8]) -> Vec<u8> {
    let mut v = vec![opcode, size_words, 0, 0];
    v.extend_from_slice(payload);
    v.resize(size_words as usize * 4, 0);
    v
}

fn celestial_generator_body(moon_phase_sprite: bool, day_of_week: &[[u8; 4]; DAYS_OF_WEEK], moon_phase: &[[u8; 4]; MOON_PHASES]) -> Vec<u8> {
    let mut sec2 = op(0x01, 12, &[]);
    sec2[4 + 29] = LINKED_DATA_STATIC_MESH;
    let mut body = build(&sec2, 1, 1);
    body.extend_from_slice(&[0u8; 4]);
    let sec3_at = body.len();
    body[0x78..0x7C].copy_from_slice(&((sec3_at + 0x10) as u32).to_le_bytes());
    let table = |opcode: u8, quads: &[[u8; 4]]| {
        let mut p = vec![0u8; 4];
        p.extend(quads.iter().flatten());
        let size_words = (4 + p.len()).div_ceil(4) as u8;
        op(opcode, size_words, &p)
    };
    let mut sec3 = Vec::new();
    if moon_phase_sprite {
        sec3.extend(op(0x45, 1, &[]));
    }
    sec3.extend(table(0x4E, day_of_week));
    sec3.extend(table(0x4F, moon_phase));
    body.extend_from_slice(&sec3);
    body
}


#[test]
fn parses_particle_generator_header_and_setup() {
    let mut setup = op(0x01, 12, &[]);
    // billboard XYZ
    setup[4] = 0x01;
    // mesh id at payload+8 (payload = cursor+4 = setup index 4)
    setup[4 + 8..4 + 12].copy_from_slice(b"kir1");
    // base position y at payload+20
    setup[4 + 20..4 + 24].copy_from_slice(&0.2f32.to_le_bytes());
    // linked-data type at payload+29 = particle; max life u16 at payload+30
    setup[4 + 29] = LINKED_DATA_STATIC_MESH;
    setup[4 + 30..4 + 32].copy_from_slice(&36u16.to_le_bytes());

    let mut sec2 = setup;
    sec2.extend(op(0x0F, 4, &{
        let mut p = Vec::new();
        p.extend_from_slice(&0.05f32.to_le_bytes());
        p.extend_from_slice(&0.05f32.to_le_bytes());
        p.extend_from_slice(&1.0f32.to_le_bytes());
        p
    }));
    sec2.extend(op(0x16, 2, &[46, 46, 158, 255]));
    sec2.extend(op(0x02, 4, &{
        let mut p = Vec::new();
        p.extend_from_slice(&0.0f32.to_le_bytes());
        p.extend_from_slice(&(-0.005f32).to_le_bytes());
        p.extend_from_slice(&0.0f32.to_le_bytes());
        p
    }));
    sec2.extend(op(0x2D, 4, &{
        let mut p = Vec::new();
        p.extend_from_slice(&0u32.to_le_bytes());
        p.extend_from_slice(b"k1a0");
        p
    }));

    let body = build(&sec2, 5, 0);
    let def = parse_def(&body).unwrap().unwrap();
    assert_eq!(def.mesh_id, *b"kir1");
    assert!(def.camera_billboard);
    assert_eq!(def.frames_per_emission, 5.0);
    assert_eq!(def.particles_per_emission, 0);
    assert!((def.base_position[1] - 0.2).abs() < 1e-6);
    assert_eq!(def.max_life_frames, 36.0);
    assert!(!def.is_singleton());
    assert!((def.init_scale[0] - 0.05).abs() < 1e-6);
    assert!((def.init_color[2] - 158.0 / 255.0).abs() < 1e-6);
    assert!((def.init_velocity[1] + 0.005).abs() < 1e-6);
    assert_eq!(def.alpha_track, Some(*b"k1a0"));
    assert_eq!(def.scale_x_track, None);
}

#[test]
fn parses_section3_uv_scroll_and_accel() {
    // Minimal particle setup in section 2, terminated, then a section-3 stream at
    // body[0x78] with TextureCoordinateUpdater 0x27/0x28 and VelocityAccelerator 0x03.
    let mut setup = op(0x01, 12, &[]);
    setup[4 + 29] = LINKED_DATA_STATIC_MESH;
    let mut body = build(&setup, 1, 1);
    body.extend_from_slice(&[0u8; 4]); // terminate section 2
    let sec3_body_index = body.len();
    body[0x78..0x7C].copy_from_slice(&((sec3_body_index + 0x10) as u32).to_le_bytes());
    let mut sec3 = op(0x27, 2, &(-0.015f32).to_le_bytes());
    sec3.extend(op(0x28, 2, &0.001f32.to_le_bytes()));
    sec3.extend(op(0x03, 4, &{
        let mut p = Vec::new();
        p.extend_from_slice(&0.0f32.to_le_bytes());
        p.extend_from_slice(&(-0.02f32).to_le_bytes());
        p.extend_from_slice(&0.0f32.to_le_bytes());
        p
    }));
    body.extend_from_slice(&sec3);

    let def = parse_def(&body).unwrap().unwrap();
    assert!(
        (def.uv_scroll[0] + 0.015).abs() < 1e-9,
        "0x27 -> uv_scroll[0]"
    );
    assert!(
        (def.uv_scroll[1] - 0.001).abs() < 1e-9,
        "0x28 -> uv_scroll[1]"
    );
    assert_eq!(def.accel, Some([0.0, -0.02, 0.0]), "0x03 -> accel");
}

// The celestial opcodes live in the section-3 updater stream (body[0x78]), not the
// section-2 initializer stream, where 0x4E/0x4F mean FixedPointPositionVarianceSetup and
// 0x45 means ParentPositionCopyConfig. Reading them from the wrong stream yields None on
// every real DAT.
#[test]
fn celestial_updaters_come_from_section3_only() {
    let mut setup = op(0x01, 12, &[]);
    setup[4 + 29] = LINKED_DATA_STATIC_MESH;

    let dow = |base: u8| {
        let mut p = vec![0u8; 4];
        p.extend((0..DAYS_OF_WEEK as u8).flat_map(|i| [base + i, 0, 0, 255]));
        op(0x4E, 10, &p)
    };
    let phase = || {
        let mut p = vec![0u8; 4];
        p.extend((0..MOON_PHASES as u8).flat_map(|i| [0, 0, i, 255]));
        op(0x4F, 14, &p)
    };

    // In section 2 they must be ignored outright.
    let mut sec2 = setup.clone();
    sec2.extend(dow(0));
    sec2.extend(phase());
    sec2.extend(op(0x45, 1, &[]));
    let def = parse_def(&build(&sec2, 1, 1))
        .unwrap()
        .unwrap();
    assert_eq!(def.day_of_week_color, None);
    assert_eq!(def.moon_phase_color, None);
    assert!(!def.moon_phase_sprite);

    // In section 3 they decode.
    let mut body = build(&setup, 1, 1);
    body.extend_from_slice(&[0u8; 4]);
    let sec3_at = body.len();
    body[0x78..0x7C].copy_from_slice(&((sec3_at + 0x10) as u32).to_le_bytes());
    let mut sec3 = op(0x45, 1, &[]);
    sec3.extend(dow(16));
    sec3.extend(phase());
    body.extend_from_slice(&sec3);

    let def = parse_def(&body).unwrap().unwrap();
    assert!(def.moon_phase_sprite, "0x45 -> moon-phase sprite frame");
    let dow = def.day_of_week_color.expect("0x4E decodes");
    assert!((dow[0][0] - 16.0 / 255.0).abs() < 1e-6);
    assert!((dow[7][0] - 23.0 / 255.0).abs() < 1e-6);
    let mp = def.moon_phase_color.expect("0x4F decodes");
    assert!((mp[11][2] - 11.0 / 255.0).abs() < 1e-6);
}

// 0x60..0x63 are KeyFrameValueSetup (track id at payload+4, same shape as the 0x27/0x28/0x2D
// life tracks) naming the time-of-day RGBA curves; the section-3 ClockValueUpdater 0x3C..0x3F
// arms each channel.
#[test]
fn tod_color_tracks_pair_setup_with_updater() {
    let mut sec2 = op(0x01, 12, &[]);
    sec2[4 + 29] = LINKED_DATA_STATIC_MESH;
    for (opcode, id) in [(0x60u8, b"ksr1"), (0x61, b"ksg1"), (0x62, b"ksb1")] {
        let mut p = vec![0u8; 4];
        p.extend_from_slice(id);
        sec2.extend(op(opcode, 4, &p));
    }
    let mut body = build(&sec2, 1, 1);
    body.extend_from_slice(&[0u8; 4]);
    let sec3_at = body.len();
    body[0x78..0x7C].copy_from_slice(&((sec3_at + 0x10) as u32).to_le_bytes());
    // Arm red and blue only: an unarmed channel keeps its track but must not be applied.
    let mut sec3 = op(0x3C, 1, &[]);
    sec3.extend(op(0x3E, 1, &[]));
    body.extend_from_slice(&sec3);

    let def = parse_def(&body).unwrap().unwrap();
    assert_eq!(
        def.tod_color_tracks,
        [Some(*b"ksr1"), Some(*b"ksg1"), Some(*b"ksb1"), None]
    );
    assert_eq!(def.tod_color_driven, [true, false, true, false]);
}

#[test]
fn no_section3_leaves_defaults() {
    let mut setup = op(0x01, 12, &[]);
    setup[4 + 29] = LINKED_DATA_STATIC_MESH;
    let body = build(&setup, 1, 1);
    let def = parse_def(&body).unwrap().unwrap();
    assert_eq!(def.uv_scroll, [0.0, 0.0]);
    assert_eq!(def.accel, None);
}

#[test]
fn gen_flags_decode_auto_run_and_continuous() {
    let mut setup = op(0x01, 12, &[]);
    setup[4 + 29] = LINKED_DATA_STATIC_MESH;
    let body = build(&setup, 1, GEN_FLAG_AUTO_RUN | GEN_FLAG_CONTINUOUS | 1);
    let def = parse_def(&body).unwrap().unwrap();
    assert!(def.auto_run);
    assert!(def.continuous);
    assert!(!def.batched);
    assert_eq!(
        def.particles_per_emission, 1,
        "flag bits stay out of the count"
    );

    let def = parse_def(&build(&setup, 1, 1))
        .unwrap()
        .unwrap();
    assert!(!def.auto_run);
    assert!(!def.continuous);
}

// The count is 9 bits wide (CYyGenerator.cpp CYyGenerator::Idle v161 `flags & 0x1FF`), so its top bit is bit 0
// of the byte XIM calls genFlags. Reading either as a byte truncates the primary weather
// curtains: La Theine's `~1ra` authors 299 and an 8-bit read yields 43.
#[test]
fn particle_count_is_nine_bits_wide() {
    let mut setup = op(0x01, 12, &[]);
    setup[4 + 29] = LINKED_DATA_STATIC_MESH;
    let def = parse_def(&build(&setup, 30, 0x2000_112B))
        .unwrap()
        .unwrap();
    assert_eq!(def.particles_per_emission, 299);
    assert!(def.auto_run);
    assert!(def.batched, "0x2000_0000 is CheckFlag29");
    assert!(!def.continuous);
}

#[test]
fn non_particle_setup_is_none() {
    let mut setup = op(0x01, 12, &[]);
    setup[4 + 29] = 0x47; // point light, not particle
    let body = build(&setup, 1, 1);
    assert!(parse_def(&body).unwrap().is_none());

    // 0x57 Null particle type is likewise non-visual and rejected.
    let mut setup = op(0x01, 12, &[]);
    setup[4 + 29] = 0x57;
    let body = build(&setup, 1, 1);
    assert!(parse_def(&body).unwrap().is_none());
}

// Regression pin (Poison's venom cloud): a 0x0E SpriteSheet generator used to be dropped
// because only 0x0B was accepted. It must now parse to Some with mesh_kind == SpriteSheet.
#[test]
fn sprite_sheet_setup_parses_with_mesh_kind() {
    let mut setup = op(0x01, 12, &[]);
    setup[4 + 8..4 + 12].copy_from_slice(b"fir ");
    setup[4 + 29] = LINKED_DATA_SPRITE_SHEET;
    setup[4 + 30..4 + 32].copy_from_slice(&24u16.to_le_bytes());
    let body = build(&setup, 1, 1);
    let def = parse_def(&body).unwrap().unwrap();
    assert_eq!(def.mesh_kind, ParticleMeshKind::SpriteSheet);
    assert_eq!(def.mesh_id, *b"fir ");
    assert_eq!(def.max_life_frames, 24.0);
}

// 0x1D SpriteSheetInitializer: retail sets the flipbook interval from the CMoD3a resource's
// frame count, not the DAT, so the block carries no state — the parse must keep the stream
// aligned for the blocks after it.
#[test]
fn sprite_sheet_initializer_consumes_the_block_without_state() {
    let mut setup = op(0x01, 12, &[]);
    setup[4 + 29] = LINKED_DATA_SPRITE_SHEET;
    let mut sec2 = setup;
    sec2.extend(op(SEC2_OPCODE_SPRITE_SHEET_INIT, 2, &0u32.to_le_bytes()));
    let vel: [f32; 3] = [1.0, 2.0, 3.0];
    let mut vel_bytes = Vec::new();
    for f in vel {
        vel_bytes.extend_from_slice(&f.to_le_bytes());
    }
    sec2.extend(op(0x02, 4, &vel_bytes));
    sec2.extend(op(OPCODE_END, 0, &[]));
    let body = build(&sec2, 1, 1);
    let (def, outcomes) = parse_reporting_def(&body);
    assert_eq!(
        def.init_velocity, vel,
        "the 0x1D block must not desync the stream"
    );
    assert!(
        outcomes.iter().any(|(s, op, o)| {
            *s == GeneratorSection::Initializers
                && *op == SEC2_OPCODE_SPRITE_SHEET_INIT
                && *o == GeneratorOpcodeOutcome::Decoded
        }),
        "0x1D must report decoded: {outcomes:?}"
    );
}

// 0x8E FootMarkEffectSetup is a no-payload marker block; the shipped fmrk generator carries it
// as a one-dword block between its sprite-sheet initializer and the end of section 2.
#[test]
fn foot_mark_setup_sets_the_flag_without_payload() {
    let mut setup = op(0x01, 12, &[]);
    setup[4 + 29] = LINKED_DATA_SPRITE_SHEET;
    let mut sec2 = setup;
    sec2.extend(op(SEC2_OPCODE_FOOT_MARK, 1, &[]));
    let vel: [f32; 3] = [1.0, 2.0, 3.0];
    let mut vel_bytes = Vec::new();
    for f in vel {
        vel_bytes.extend_from_slice(&f.to_le_bytes());
    }
    sec2.extend(op(0x02, 4, &vel_bytes));
    sec2.extend(op(OPCODE_END, 0, &[]));
    let body = build(&sec2, 1, 1);
    let (def, outcomes) = parse_reporting_def(&body);
    assert!(def.foot_mark, "0x8E must set the foot-mark flag");
    assert_eq!(
        def.init_velocity, vel,
        "the no-payload block must not desync the stream"
    );
    assert!(
        outcomes.iter().any(|(s, op, o)| {
            *s == GeneratorSection::Initializers
                && *op == SEC2_OPCODE_FOOT_MARK
                && *o == GeneratorOpcodeOutcome::Decoded
        }),
        "0x8E must report decoded: {outcomes:?}"
    );
}

// 0x3D OscillationSetup is a no-payload marker; the shipped census is 441 blocks, all
// size_words=1, and every one precedes its 0x3E/0x40 acceleration setup in the section-2
// stream.
#[test]
fn oscillation_setup_sets_the_flag_without_payload() {
    let mut setup = op(0x01, 12, &[]);
    setup[4 + 29] = LINKED_DATA_SPRITE_SHEET;
    let mut sec2 = setup.clone();
    sec2.extend(op(SEC2_OPCODE_OSCILLATION_SETUP, 1, &[]));
    let vel: [f32; 3] = [1.0, 2.0, 3.0];
    let mut vel_bytes = Vec::new();
    for f in vel {
        vel_bytes.extend_from_slice(&f.to_le_bytes());
    }
    sec2.extend(op(0x02, 4, &vel_bytes));
    sec2.extend(op(OPCODE_END, 0, &[]));
    let body = build(&sec2, 1, 1);
    let (def, outcomes) = parse_reporting_def(&body);
    assert!(def.oscillation, "0x3D must set the oscillation flag");
    assert_eq!(
        def.init_velocity, vel,
        "the no-payload block must not desync the stream"
    );
    assert!(
        outcomes.iter().any(|(s, op, o)| {
            *s == GeneratorSection::Initializers
                && *op == SEC2_OPCODE_OSCILLATION_SETUP
                && *o == GeneratorOpcodeOutcome::Decoded
        }),
        "0x3D must report decoded: {outcomes:?}"
    );
    let plain = parse_def(&build(&setup, 1, 1))
        .unwrap()
        .unwrap();
    assert!(!plain.oscillation);
}

// 0x40 OscillationAccelerationSetup (Z): two floats, [acceleration, accelerationVariance].
// Shipped census: 347 blocks, all size_words=3, every one behind a 0x3D marker.
#[test]
fn oscillation_accel_z_reads_the_two_floats() {
    let mut setup = op(0x01, 12, &[]);
    setup[4 + 29] = LINKED_DATA_STATIC_MESH;
    let mut sec2 = setup.clone();
    sec2.extend(op(SEC2_OPCODE_OSCILLATION_SETUP, 1, &[]));
    let mut p = Vec::new();
    p.extend_from_slice(&2.0f32.to_le_bytes());
    p.extend_from_slice(&0.5f32.to_le_bytes());
    sec2.extend(op(0x40, 3, &p));
    sec2.extend(op(OPCODE_END, 0, &[]));
    let body = build(&sec2, 1, 1);
    let def = parse_def(&body).unwrap().unwrap();
    assert!(def.oscillation);
    assert_eq!(def.oscillation_accel_z, Some([2.0, 0.5]));
    let plain = parse_def(&build(&setup, 1, 1))
        .unwrap()
        .unwrap();
    assert_eq!(plain.oscillation_accel_z, None);
}

// 0x3E OscillationAccelerationSetup (X): the X-axis twin of 0x40. Shipped census: 113 blocks,
// all size_words=3, every one behind a 0x3D marker.
#[test]
fn oscillation_accel_x_reads_the_two_floats() {
    let mut setup = op(0x01, 12, &[]);
    setup[4 + 29] = LINKED_DATA_STATIC_MESH;
    let mut sec2 = setup.clone();
    sec2.extend(op(SEC2_OPCODE_OSCILLATION_SETUP, 1, &[]));
    let mut p = Vec::new();
    p.extend_from_slice(&(-1.5f32).to_le_bytes());
    p.extend_from_slice(&0.25f32.to_le_bytes());
    sec2.extend(op(0x3E, 3, &p));
    sec2.extend(op(OPCODE_END, 0, &[]));
    let body = build(&sec2, 1, 1);
    let def = parse_def(&body).unwrap().unwrap();
    assert!(def.oscillation);
    assert_eq!(def.oscillation_accel_x, Some([-1.5, 0.25]));
    let plain = parse_def(&build(&setup, 1, 1))
        .unwrap()
        .unwrap();
    assert_eq!(plain.oscillation_accel_x, None);
}

// 0x3F OscillationAccelerationSetup (Y): the Y-axis twin of 0x40. Shipped census: 34 blocks,
// all size_words=3, every one behind a 0x3D marker.
#[test]
fn oscillation_accel_y_reads_the_two_floats() {
    let mut setup = op(0x01, 12, &[]);
    setup[4 + 29] = LINKED_DATA_STATIC_MESH;
    let mut sec2 = setup.clone();
    sec2.extend(op(SEC2_OPCODE_OSCILLATION_SETUP, 1, &[]));
    let mut p = Vec::new();
    p.extend_from_slice(&0.44f32.to_le_bytes());
    p.extend_from_slice(&0.6f32.to_le_bytes());
    sec2.extend(op(0x3F, 3, &p));
    sec2.extend(op(OPCODE_END, 0, &[]));
    let body = build(&sec2, 1, 1);
    let def = parse_def(&body).unwrap().unwrap();
    assert!(def.oscillation);
    assert_eq!(def.oscillation_accel_y, Some([0.44, 0.6]));
    let plain = parse_def(&build(&setup, 1, 1))
        .unwrap()
        .unwrap();
    assert_eq!(plain.oscillation_accel_y, None);
}

// 0x29 OscillationApplier (X): [rate-divisor, base-offset, unused-in-xim] on the section-3
// stream; the integrator for the sec2 0x3E acceleration. Shipped census: 113 blocks, all
// size_words=4, every one in a generator carrying the 0x3D marker.
#[test]
fn oscillation_applier_x_reads_the_three_floats() {
    let mut setup = op(0x01, 12, &[]);
    setup[4 + 29] = LINKED_DATA_STATIC_MESH;
    let mut p = Vec::new();
    p.extend_from_slice(&0.44f32.to_le_bytes());
    p.extend_from_slice(&0.6f32.to_le_bytes());
    let mut sec2 = setup.clone();
    sec2.extend(op(SEC2_OPCODE_OSCILLATION_SETUP, 1, &[]));
    sec2.extend(op(0x3E, 3, &p));
    let mut body = build(&sec2, 1, 1);
    body.extend_from_slice(&[0u8; 4]); // terminate section 2
    let sec3_body_index = body.len();
    body[0x78..0x7C].copy_from_slice(&((sec3_body_index + 0x10) as u32).to_le_bytes());
    let mut ap = Vec::new();
    ap.extend_from_slice(&2.0f32.to_le_bytes());
    ap.extend_from_slice(&1.5f32.to_le_bytes());
    ap.extend_from_slice(&0.25f32.to_le_bytes());
    body.extend_from_slice(&op(0x29, 4, &ap));

    let def = parse_def(&body).unwrap().unwrap();
    assert!(def.oscillation);
    assert_eq!(def.oscillation_applier_x, Some([2.0, 1.5, 0.25]));

    // The same block on the section-2 stream is a KeyFrameValueSetup (scale.z track),
    // not an applier.
    let mut wrong = setup.clone();
    wrong.extend(op(0x29, 4, &ap));
    let plain = parse_def(&build(&wrong, 1, 1))
        .unwrap()
        .unwrap();
    assert_eq!(plain.oscillation_applier_x, None);
}

// 0x2B OscillationApplier (Z): the Z-axis twin of 0x29 on the section-3 stream, the integrator
// for the sec2 0x40 acceleration. Shipped census: 347 blocks, all size_words=4, every one in a
// generator carrying the 0x3D marker.
#[test]
fn oscillation_applier_z_reads_the_three_floats() {
    let mut setup = op(0x01, 12, &[]);
    setup[4 + 29] = LINKED_DATA_STATIC_MESH;
    let mut p = Vec::new();
    p.extend_from_slice(&0.9f32.to_le_bytes());
    p.extend_from_slice(&0.5f32.to_le_bytes());
    let mut sec2 = setup.clone();
    sec2.extend(op(SEC2_OPCODE_OSCILLATION_SETUP, 1, &[]));
    sec2.extend(op(0x40, 3, &p));
    let mut body = build(&sec2, 1, 1);
    body.extend_from_slice(&[0u8; 4]); // terminate section 2
    let sec3_body_index = body.len();
    body[0x78..0x7C].copy_from_slice(&((sec3_body_index + 0x10) as u32).to_le_bytes());
    let mut ap = Vec::new();
    ap.extend_from_slice(&3.0f32.to_le_bytes());
    ap.extend_from_slice(&1.0f32.to_le_bytes());
    ap.extend_from_slice(&0.0f32.to_le_bytes());
    body.extend_from_slice(&op(0x2B, 4, &ap));

    let def = parse_def(&body).unwrap().unwrap();
    assert!(def.oscillation);
    assert_eq!(def.oscillation_applier_z, Some([3.0, 1.0, 0.0]));

    // The same block on the section-2 stream is a KeyFrameValueSetup (color.g track),
    // not an applier.
    let mut wrong = setup.clone();
    wrong.extend(op(0x2B, 4, &ap));
    let plain = parse_def(&build(&wrong, 1, 1))
        .unwrap()
        .unwrap();
    assert_eq!(plain.oscillation_applier_z, None);
}

// 0x2A OscillationApplier (Y): the Y-axis twin of 0x29 on the section-3 stream, the integrator
// for the sec2 0x3F acceleration. Shipped census: 30 blocks, all size_words=4, every one in a
// generator carrying the 0x3D marker.
#[test]
fn oscillation_applier_y_reads_the_three_floats() {
    let mut setup = op(0x01, 12, &[]);
    setup[4 + 29] = LINKED_DATA_STATIC_MESH;
    let mut p = Vec::new();
    p.extend_from_slice(&0.44f32.to_le_bytes());
    p.extend_from_slice(&0.6f32.to_le_bytes());
    let mut sec2 = setup.clone();
    sec2.extend(op(SEC2_OPCODE_OSCILLATION_SETUP, 1, &[]));
    sec2.extend(op(0x3F, 3, &p));
    let mut body = build(&sec2, 1, 1);
    body.extend_from_slice(&[0u8; 4]); // terminate section 2
    let sec3_body_index = body.len();
    body[0x78..0x7C].copy_from_slice(&((sec3_body_index + 0x10) as u32).to_le_bytes());
    let mut ap = Vec::new();
    ap.extend_from_slice(&4.0f32.to_le_bytes());
    ap.extend_from_slice(&0.5f32.to_le_bytes());
    ap.extend_from_slice(&0.0f32.to_le_bytes());
    body.extend_from_slice(&op(0x2A, 4, &ap));

    let def = parse_def(&body).unwrap().unwrap();
    assert!(def.oscillation);
    assert_eq!(def.oscillation_applier_y, Some([4.0, 0.5, 0.0]));

    // The same block on the section-2 stream is a KeyFrameValueSetup (color.r track),
    // not an applier.
    let mut wrong = setup.clone();
    wrong.extend(op(0x2A, 4, &ap));
    let plain = parse_def(&build(&wrong, 1, 1))
        .unwrap()
        .unwrap();
    assert_eq!(plain.oscillation_applier_y, None);
}

// 0x03 VelocityVarianceSetup: the three floats are the per-axis bounds of the random velocity
// added to the 0x02 base per particle; the shipped census is 6311 blocks, all size_words=4,
// and every one sits after its generator's 0x02.
#[test]
fn velocity_variance_reads_the_three_axis_bounds() {
    let mut setup = op(0x01, 12, &[]);
    setup[4 + 29] = LINKED_DATA_STATIC_MESH;
    let mut sec2 = setup.clone();
    let axis = |values: [f32; 3], block: &mut Vec<u8>, opcode: u8| {
        let mut bytes = Vec::new();
        for f in values {
            bytes.extend_from_slice(&f.to_le_bytes());
        }
        block.extend(op(opcode, 4, &bytes));
    };
    let vel: [f32; 3] = [0.5, -0.25, 0.0];
    axis(vel, &mut sec2, 0x02);
    let var: [f32; 3] = [0.1, 0.2, 0.3];
    axis(var, &mut sec2, 0x03);
    sec2.extend(op(OPCODE_END, 0, &[]));
    let body = build(&sec2, 1, 1);
    let def = parse_def(&body).unwrap().unwrap();
    assert_eq!(def.init_velocity, vel);
    assert_eq!(def.velocity_variance, Some(var));
    let plain = parse_def(&build(&setup, 1, 1))
        .unwrap()
        .unwrap();
    assert_eq!(plain.velocity_variance, None);
}

// 0x08 RelativeVelocitySetup: a single float — the magnitude of the per-particle velocity
// along the spawn offset's direction. Shipped census: 12461 blocks, all size_words=2, every
// one after its generator's 0x02 base-velocity block.
#[test]
fn relative_velocity_reads_the_single_float() {
    let mut setup = op(0x01, 12, &[]);
    setup[4 + 29] = LINKED_DATA_STATIC_MESH;
    let mut sec2 = setup.clone();
    let mut base: Vec<u8> = Vec::new();
    for f in [0.5f32, -0.25, 0.0] {
        base.extend_from_slice(&f.to_le_bytes());
    }
    sec2.extend(op(0x02, 4, &base));
    sec2.extend(op(0x08, 2, &0.25f32.to_le_bytes()));
    sec2.extend(op(OPCODE_END, 0, &[]));
    let body = build(&sec2, 1, 1);
    let def = parse_def(&body).unwrap().unwrap();
    assert_eq!(def.relative_velocity, Some(0.25));
    let plain = parse_def(&build(&setup, 1, 1))
        .unwrap()
        .unwrap();
    assert_eq!(plain.relative_velocity, None);
}

// 0x41 RelativeVelocityVarianceSetup: a single float — the bound of the uniform random
// magnitude added to the 0x08 relative velocity along the spawn offset's direction. Shipped
// census: 9199 blocks, all size_words=2.
#[test]
fn relative_velocity_variance_reads_the_single_float() {
    let mut setup = op(0x01, 12, &[]);
    setup[4 + 29] = LINKED_DATA_STATIC_MESH;
    let mut sec2 = setup.clone();
    sec2.extend(op(0x41, 2, &0.2f32.to_le_bytes()));
    sec2.extend(op(OPCODE_END, 0, &[]));
    let body = build(&sec2, 1, 1);
    let def = parse_def(&body).unwrap().unwrap();
    assert_eq!(def.relative_velocity_variance, Some(0.2));
    let plain = parse_def(&build(&setup, 1, 1))
        .unwrap()
        .unwrap();
    assert_eq!(plain.relative_velocity_variance, None);
}

// 0x67 ReverseDisplacementSetup: a single float, never read by the effect — the block's
// presence arms the spawn-at-endpoint behavior. Shipped census: 307 blocks, all size_words=2,
// payload always 0.0.
#[test]
fn reverse_displacement_reads_the_single_float() {
    let mut setup = op(0x01, 12, &[]);
    setup[4 + 29] = LINKED_DATA_STATIC_MESH;
    let mut sec2 = setup.clone();
    sec2.extend(op(0x67, 2, &0.0f32.to_le_bytes()));
    sec2.extend(op(OPCODE_END, 0, &[]));
    let body = build(&sec2, 1, 1);
    let def = parse_def(&body).unwrap().unwrap();
    assert_eq!(def.reverse_displacement, Some(0.0));
    let plain = parse_def(&build(&setup, 1, 1))
        .unwrap()
        .unwrap();
    assert_eq!(plain.reverse_displacement, None);
}

// 0x29 KeyFrameValueSetup (scale.z): the same block shape as 0x27/0x28 — in-memory
// pointer, keyframe DAT id, cycle/interpolation config
// (CYyGenerator.cpp CYyGenerator::ElemGenerate case 0x29). Shipped census: 3684
// blocks, all size_words=4, first payload word always zero, config always single-cycle.
#[test]
fn scale_z_track_reads_the_keyframe_id() {
    let mut setup = op(0x01, 12, &[]);
    setup[4 + 29] = LINKED_DATA_STATIC_MESH;
    let mut sec2 = setup.clone();
    sec2.extend(op(0x29, 4, &[0, 0, 0, 0, b'k', b'1', b'z', b'0']));
    sec2.extend(op(OPCODE_END, 0, &[]));
    let body = build(&sec2, 1, 1);
    let def = parse_def(&body).unwrap().unwrap();
    assert_eq!(def.scale_z_track, Some(*b"k1z0"));
    assert_eq!(def.scale_x_track, None);
    let plain = parse_def(&build(&setup, 1, 1))
        .unwrap()
        .unwrap();
    assert_eq!(plain.scale_z_track, None);
}

// 0x5A KeyFrameValueSetup (specular rotation.y): the 0x27/0x28/0x29 track shape bound to the
// specular element's rotation y. Shipped census: 719 blocks, all size_words=4, first payload
// word always zero, 719/719 behind a 0x55 SpecularParams record in the same generator.
#[test]
fn specular_rot_y_track_reads_the_keyframe_id() {
    let mut setup = op(0x01, 12, &[]);
    setup[4 + 29] = LINKED_DATA_STATIC_MESH;
    let mut sec2 = setup.clone();
    sec2.extend(op(0x5A, 4, &[0, 0, 0, 0, b'n', b'0', b'r', b'y']));
    sec2.extend(op(OPCODE_END, 0, &[]));
    let body = build(&sec2, 1, 1);
    let def = parse_def(&body).unwrap().unwrap();
    assert_eq!(def.specular_rot_y_track, Some(*b"n0ry"));
    let plain = parse_def(&build(&setup, 1, 1))
        .unwrap()
        .unwrap();
    assert_eq!(plain.specular_rot_y_track, None);
}

// 0x82 CameraShakeSetup: [expectZero32, keyframe track id, unk0 u32, unk1 f32, unk2 u32].
// Shipped census: 4032 blocks, all size_words=6, first payload word always zero, 46 distinct
// track ids, and 4032/4032 generators also carry the section-3 0x5F CameraShakeUpdater.
#[test]
fn camera_shake_setup_reads_the_keyframe_id() {
    let mut setup = op(0x01, 12, &[]);
    setup[4 + 29] = LINKED_DATA_STATIC_MESH;
    let mut sec2 = setup.clone();
    let mut payload = [0u8; 20];
    payload[4..8].copy_from_slice(b"shak");
    sec2.extend(op(0x82, 6, &payload));
    sec2.extend(op(OPCODE_END, 0, &[]));
    let body = build(&sec2, 1, 1);
    let def = parse_def(&body).unwrap().unwrap();
    assert_eq!(def.camera_shake_track, Some(*b"shak"));
    let plain = parse_def(&build(&setup, 1, 1))
        .unwrap()
        .unwrap();
    assert_eq!(plain.camera_shake_track, None);
}

// 0x32 HazeOffsetInitializer: [unused f32, horizontal offset] — xim applies only the second
// float, as particle.hazeOffset.x. Shipped census: 1150 sec2 0x32 blocks in the parser-
// accepted corpus.
#[test]
fn haze_offset_reads_the_second_float() {
    let mut setup = op(0x01, 12, &[]);
    setup[4 + 29] = LINKED_DATA_STATIC_MESH;
    let mut sec2 = setup.clone();
    let mut payload = [0u8; 8];
    payload[0..4].copy_from_slice(&0.5f32.to_le_bytes());
    payload[4..8].copy_from_slice(&1.25f32.to_le_bytes());
    sec2.extend(op(0x32, 3, &payload));
    sec2.extend(op(OPCODE_END, 0, &[]));
    let body = build(&sec2, 1, 1);
    let def = parse_def(&body).unwrap().unwrap();
    assert_eq!(def.haze_offset_x, Some(1.25));
    let plain = parse_def(&build(&setup, 1, 1))
        .unwrap()
        .unwrap();
    assert_eq!(plain.haze_offset_x, None);
}

// 0x47 ParentRotateConfig: a no-payload marker. Shipped census: 543 sec2 0x47 blocks in the
// parser-accepted corpus.
#[test]
fn parent_rotate_is_a_no_payload_marker() {
    let mut setup = op(0x01, 12, &[]);
    setup[4 + 29] = LINKED_DATA_STATIC_MESH;
    let mut sec2 = setup.clone();
    sec2.extend(op(0x47, 1, &[]));
    sec2.extend(op(OPCODE_END, 0, &[]));
    let body = build(&sec2, 1, 1);
    let def = parse_def(&body).unwrap().unwrap();
    assert!(def.parent_rotate);
    let plain = parse_def(&build(&setup, 1, 1))
        .unwrap()
        .unwrap();
    assert!(!plain.parent_rotate);
}

// 0x48 ParentColorConfig: a no-payload marker. Shipped census: 37 sec2 0x48 blocks in the
// parser-accepted corpus.
#[test]
fn parent_color_is_a_no_payload_marker() {
    let mut setup = op(0x01, 12, &[]);
    setup[4 + 29] = LINKED_DATA_STATIC_MESH;
    let mut sec2 = setup.clone();
    sec2.extend(op(0x48, 1, &[]));
    sec2.extend(op(OPCODE_END, 0, &[]));
    let body = build(&sec2, 1, 1);
    let def = parse_def(&body).unwrap().unwrap();
    assert!(def.parent_color);
    let plain = parse_def(&build(&setup, 1, 1))
        .unwrap()
        .unwrap();
    assert!(!plain.parent_color);
}

// 0x49 ParentScaleConfig: a no-payload marker. Shipped census: 141 sec2 0x49 blocks in the
// parser-accepted corpus.
#[test]
fn parent_scale_is_a_no_payload_marker() {
    let mut setup = op(0x01, 12, &[]);
    setup[4 + 29] = LINKED_DATA_STATIC_MESH;
    let mut sec2 = setup.clone();
    sec2.extend(op(0x49, 1, &[]));
    sec2.extend(op(OPCODE_END, 0, &[]));
    let body = build(&sec2, 1, 1);
    let def = parse_def(&body).unwrap().unwrap();
    assert!(def.parent_scale);
    let plain = parse_def(&build(&setup, 1, 1))
        .unwrap()
        .unwrap();
    assert!(!plain.parent_scale);
}

// 0x69 KeyFrameValueSetup (velocity dampener): the 0x27/0x28/0x29 track shape bound to the
// element's velocity dampener. Shipped census: 2 sec2 0x69 blocks in the parser-accepted
// corpus.
#[test]
fn velocity_dampener_track_reads_the_keyframe_id() {
    let mut setup = op(0x01, 12, &[]);
    setup[4 + 29] = LINKED_DATA_STATIC_MESH;
    let mut sec2 = setup.clone();
    sec2.extend(op(0x69, 4, &[0, 0, 0, 0, b'v', b'd', b'm', b'0']));
    sec2.extend(op(OPCODE_END, 0, &[]));
    let body = build(&sec2, 1, 1);
    let def = parse_def(&body).unwrap().unwrap();
    assert_eq!(def.velocity_dampener_track, Some(*b"vdm0"));
    let plain = parse_def(&build(&setup, 1, 1))
        .unwrap()
        .unwrap();
    assert_eq!(plain.velocity_dampener_track, None);
}

// 0x4E FixedPointPositionVarianceSetup: [expectZero32, point list DAT id, expect32 (0, 1)].
// Shipped census: 46 sec2 0x4E blocks in the parser-accepted corpus.
#[test]
fn fixed_point_position_variance_reads_the_point_list_id() {
    let mut setup = op(0x01, 12, &[]);
    setup[4 + 29] = LINKED_DATA_STATIC_MESH;
    let mut sec2 = setup.clone();
    let mut payload = [0u8; 12];
    payload[4..8].copy_from_slice(b"pts0");
    payload[8..12].copy_from_slice(&1u32.to_le_bytes());
    sec2.extend(op(0x4E, 4, &payload));
    sec2.extend(op(OPCODE_END, 0, &[]));
    let body = build(&sec2, 1, 1);
    let def = parse_def(&body).unwrap().unwrap();
    assert_eq!(def.fixed_point_position_variance, Some(*b"pts0"));
    let plain = parse_def(&build(&setup, 1, 1))
        .unwrap()
        .unwrap();
    assert_eq!(plain.fixed_point_position_variance, None);
}

// 0x4F FixedPointPositionVarianceSetup: the twin of 0x4E — xim maps both opcodes to the same
// class. Shipped census: 442 sec2 0x4F blocks in the parser-accepted corpus.
#[test]
fn fixed_point_position_variance_twin_reads_the_point_list_id() {
    let mut setup = op(0x01, 12, &[]);
    setup[4 + 29] = LINKED_DATA_STATIC_MESH;
    let mut sec2 = setup.clone();
    let mut payload = [0u8; 12];
    payload[4..8].copy_from_slice(b"pts1");
    payload[8..12].copy_from_slice(&0u32.to_le_bytes());
    sec2.extend(op(0x4F, 4, &payload));
    sec2.extend(op(OPCODE_END, 0, &[]));
    let body = build(&sec2, 1, 1);
    let def = parse_def(&body).unwrap().unwrap();
    assert_eq!(def.fixed_point_position_variance_2, Some(*b"pts1"));
    assert_eq!(def.fixed_point_position_variance, None);
    let plain = parse_def(&build(&setup, 1, 1))
        .unwrap()
        .unwrap();
    assert_eq!(plain.fixed_point_position_variance_2, None);
}

// 0x53 ChildGeneratorSetup: the 0x44 shape — xim maps both opcodes to the same class. Shipped
// census: 392 sec2 0x53 blocks in the parser-accepted corpus.
#[test]
fn child_generator_twin_reads_the_child_id() {
    let mut setup = op(0x01, 12, &[]);
    setup[4 + 29] = LINKED_DATA_STATIC_MESH;
    let mut sec2 = setup.clone();
    sec2.extend(op(0x53, 3, &[0, 0, 0, 0, b'k', b'i', b'd', b'2']));
    sec2.extend(op(OPCODE_END, 0, &[]));
    let body = build(&sec2, 1, 1);
    let def = parse_def(&body).unwrap().unwrap();
    assert_eq!(def.child_generator_2, Some(*b"kid2"));
    assert_eq!(def.child_generator, None);
    let plain = parse_def(&build(&setup, 1, 1))
        .unwrap()
        .unwrap();
    assert_eq!(plain.child_generator_2, None);
}

// 0x5B KeyFrameValueSetup (specular rotation.z): the 0x5A shape bound to the specular
// element's rotation z. Shipped census: 214 sec2 0x5B blocks in the parser-accepted corpus.
#[test]
fn specular_rot_z_track_reads_the_keyframe_id() {
    let mut setup = op(0x01, 12, &[]);
    setup[4 + 29] = LINKED_DATA_STATIC_MESH;
    let mut sec2 = setup.clone();
    sec2.extend(op(0x5B, 4, &[0, 0, 0, 0, b'n', b'0', b'r', b'z']));
    sec2.extend(op(OPCODE_END, 0, &[]));
    let body = build(&sec2, 1, 1);
    let def = parse_def(&body).unwrap().unwrap();
    assert_eq!(def.specular_rot_z_track, Some(*b"n0rz"));
    let plain = parse_def(&build(&setup, 1, 1))
        .unwrap()
        .unwrap();
    assert_eq!(plain.specular_rot_z_track, None);
}

// 0x45 ParentPositionCopyConfig: a no-payload marker. Shipped census: 9698 sec2 0x45 blocks,
// all size_words=1; 1189 generators carry it, 164 of them referenced as a child by a sec2 0x44
// link in the corpus.
#[test]
fn parent_position_copy_is_a_no_payload_marker() {
    let mut setup = op(0x01, 12, &[]);
    setup[4 + 29] = LINKED_DATA_STATIC_MESH;
    let mut sec2 = setup.clone();
    sec2.extend(op(0x45, 1, &[]));
    sec2.extend(op(OPCODE_END, 0, &[]));
    let body = build(&sec2, 1, 1);
    let def = parse_def(&body).unwrap().unwrap();
    assert!(def.parent_position_copy);
    let plain = parse_def(&build(&setup, 1, 1))
        .unwrap()
        .unwrap();
    assert!(!plain.parent_position_copy);
}

// 0x46 ParentVelocityConfig: one float, the multiplier on the parent's total velocity. Shipped
// census: 252 sec2 0x46 blocks in the parser-accepted corpus.
#[test]
fn parent_velocity_reads_the_single_float() {
    let mut setup = op(0x01, 12, &[]);
    setup[4 + 29] = LINKED_DATA_STATIC_MESH;
    let mut sec2 = setup.clone();
    sec2.extend(op(0x46, 2, &2.5f32.to_le_bytes()));
    sec2.extend(op(OPCODE_END, 0, &[]));
    let body = build(&sec2, 1, 1);
    let def = parse_def(&body).unwrap().unwrap();
    assert_eq!(def.parent_velocity, Some(2.5));
    let plain = parse_def(&build(&setup, 1, 1))
        .unwrap()
        .unwrap();
    assert_eq!(plain.parent_velocity, None);
}

// 0x44 ChildGeneratorSetup: [expectZero32, child generator DAT id]. Shipped census: 1009 sec2
// 0x44 blocks in the parser-accepted corpus, 1041 in the raw probe walk.
#[test]
fn child_generator_setup_reads_the_child_id() {
    let mut setup = op(0x01, 12, &[]);
    setup[4 + 29] = LINKED_DATA_STATIC_MESH;
    let mut sec2 = setup.clone();
    sec2.extend(op(0x44, 3, &[0, 0, 0, 0, b'k', b'i', b'd', b'0']));
    sec2.extend(op(OPCODE_END, 0, &[]));
    let body = build(&sec2, 1, 1);
    let def = parse_def(&body).unwrap().unwrap();
    assert_eq!(def.child_generator, Some(*b"kid0"));
    let plain = parse_def(&build(&setup, 1, 1))
        .unwrap()
        .unwrap();
    assert_eq!(plain.child_generator, None);
}

// 0x2A KeyFrameValueSetup (color.r): the 0x27/0x28/0x29 track shape bound to the element's red
// channel. Shipped census: 4431 blocks, all size_words=4, first payload word always zero.
#[test]
fn color_r_track_reads_the_keyframe_id() {
    let mut setup = op(0x01, 12, &[]);
    setup[4 + 29] = LINKED_DATA_STATIC_MESH;
    let mut sec2 = setup.clone();
    sec2.extend(op(0x2A, 4, &[0, 0, 0, 0, b'c', b'r', b'0', b'1']));
    sec2.extend(op(OPCODE_END, 0, &[]));
    let body = build(&sec2, 1, 1);
    let def = parse_def(&body).unwrap().unwrap();
    assert_eq!(def.color_r_track, Some(*b"cr01"));
    let plain = parse_def(&build(&setup, 1, 1))
        .unwrap()
        .unwrap();
    assert_eq!(plain.color_r_track, None);
}

// 0x2B KeyFrameValueSetup (color.g): the 0x27/0x28/0x29 track shape bound to the element's
// green channel. Shipped census: 5933 blocks, all size_words=4, first payload word always
// zero.
#[test]
fn color_g_track_reads_the_keyframe_id() {
    let mut setup = op(0x01, 12, &[]);
    setup[4 + 29] = LINKED_DATA_STATIC_MESH;
    let mut sec2 = setup.clone();
    sec2.extend(op(0x2B, 4, &[0, 0, 0, 0, b'c', b'g', b'0', b'1']));
    sec2.extend(op(OPCODE_END, 0, &[]));
    let body = build(&sec2, 1, 1);
    let def = parse_def(&body).unwrap().unwrap();
    assert_eq!(def.color_g_track, Some(*b"cg01"));
    let plain = parse_def(&build(&setup, 1, 1))
        .unwrap()
        .unwrap();
    assert_eq!(plain.color_g_track, None);
}

// 0x2C KeyFrameValueSetup (color.b): the 0x27/0x28/0x29 track shape bound to the element's
// blue channel. Shipped census: 3302 blocks, all size_words=4, first payload word always zero.
#[test]
fn color_b_track_reads_the_keyframe_id() {
    let mut setup = op(0x01, 12, &[]);
    setup[4 + 29] = LINKED_DATA_STATIC_MESH;
    let mut sec2 = setup.clone();
    sec2.extend(op(0x2C, 4, &[0, 0, 0, 0, b'c', b'b', b'0', b'1']));
    sec2.extend(op(OPCODE_END, 0, &[]));
    let body = build(&sec2, 1, 1);
    let def = parse_def(&body).unwrap().unwrap();
    assert_eq!(def.color_b_track, Some(*b"cb01"));
    let plain = parse_def(&build(&setup, 1, 1))
        .unwrap()
        .unwrap();
    assert_eq!(plain.color_b_track, None);
}

// 0x3B IncrementalRotationApplier: three floats, the per-axis rotation increment. Shipped
// census: 19903 blocks, all size_words=4, payloads are radian angles, 1389 all-zero.
#[test]
fn incremental_rotation_reads_the_three_floats() {
    let mut setup = op(0x01, 12, &[]);
    setup[4 + 29] = LINKED_DATA_STATIC_MESH;
    let mut sec2 = setup.clone();
    sec2.extend(op(0x3B, 4, &{
        let mut p = Vec::new();
        p.extend_from_slice(&0.1f32.to_le_bytes());
        p.extend_from_slice(&(-0.2f32).to_le_bytes());
        p.extend_from_slice(&0.3f32.to_le_bytes());
        p
    }));
    sec2.extend(op(OPCODE_END, 0, &[]));
    let body = build(&sec2, 1, 1);
    let def = parse_def(&body).unwrap().unwrap();
    assert_eq!(def.incremental_rotation, Some([0.1, -0.2, 0.3]));
    let plain = parse_def(&build(&setup, 1, 1))
        .unwrap()
        .unwrap();
    assert_eq!(plain.incremental_rotation, None);
}

// 0x0A RotationVarianceInitializer: three floats, the per-axis bounds of the random rotation
// added to the 0x09 base per particle. Shipped census: 27736 blocks, all size_words=4,
// payloads are radian angles (±π, ±π/2, …); 2423 all-zero.
#[test]
fn rotation_variance_reads_the_three_axis_bounds() {
    let mut setup = op(0x01, 12, &[]);
    setup[4 + 29] = LINKED_DATA_STATIC_MESH;
    let mut sec2 = setup.clone();
    let mut base: Vec<u8> = Vec::new();
    for f in [0.1f32, 0.2, 0.3] {
        base.extend_from_slice(&f.to_le_bytes());
    }
    sec2.extend(op(0x09, 4, &base));
    let mut var: Vec<u8> = Vec::new();
    for f in [0.05f32, 0.1, 0.15] {
        var.extend_from_slice(&f.to_le_bytes());
    }
    sec2.extend(op(0x0A, 4, &var));
    sec2.extend(op(OPCODE_END, 0, &[]));
    let body = build(&sec2, 1, 1);
    let def = parse_def(&body).unwrap().unwrap();
    assert_eq!(def.init_rotation, [0.1, 0.2, 0.3]);
    assert_eq!(def.rotation_variance, Some([0.05, 0.1, 0.15]));
    let plain = parse_def(&build(&setup, 1, 1))
        .unwrap()
        .unwrap();
    assert_eq!(plain.rotation_variance, None);
}

// 0x0C VelocityVarianceSetup (rotation): three floats, the per-axis bounds of the random spin
// added to the 0x0B rate per particle.
#[test]
fn rotation_velocity_variance_reads_the_three_axis_bounds() {
    let mut setup = op(0x01, 12, &[]);
    setup[4 + 29] = LINKED_DATA_STATIC_MESH;
    let mut sec2 = setup.clone();
    let mut rate: Vec<u8> = Vec::new();
    for f in [0.0f32, 0.01, 0.0] {
        rate.extend_from_slice(&f.to_le_bytes());
    }
    sec2.extend(op(0x0B, 4, &rate));
    let mut var: Vec<u8> = Vec::new();
    for f in [0.0f32, 0.005, 0.0] {
        var.extend_from_slice(&f.to_le_bytes());
    }
    sec2.extend(op(0x0C, 4, &var));
    sec2.extend(op(OPCODE_END, 0, &[]));
    let body = build(&sec2, 1, 1);
    let def = parse_def(&body).unwrap().unwrap();
    assert_eq!(def.rotation_velocity, Some([0.0, 0.01, 0.0]));
    assert_eq!(def.rotation_velocity_variance, Some([0.0, 0.005, 0.0]));
    let plain = parse_def(&build(&setup, 1, 1))
        .unwrap()
        .unwrap();
    assert_eq!(plain.rotation_velocity_variance, None);
}

// 0x11 SingleScaleVarianceInitializer: one float, the ufrand bound shared by every scale axis
// per particle).
#[test]
fn single_scale_variance_reads_the_single_float() {
    let mut setup = op(0x01, 12, &[]);
    setup[4 + 29] = LINKED_DATA_STATIC_MESH;
    let mut sec2 = setup.clone();
    let mut base: Vec<u8> = Vec::new();
    for f in [0.1f32, 0.2, 0.3] {
        base.extend_from_slice(&f.to_le_bytes());
    }
    sec2.extend(op(0x0F, 4, &base));
    sec2.extend(op(0x11, 2, &0.05f32.to_le_bytes()));
    sec2.extend(op(OPCODE_END, 0, &[]));
    let body = build(&sec2, 1, 1);
    let def = parse_def(&body).unwrap().unwrap();
    assert_eq!(def.init_scale, [0.1, 0.2, 0.3]);
    assert_eq!(def.single_scale_variance, Some(0.05));
    let plain = parse_def(&build(&setup, 1, 1))
        .unwrap()
        .unwrap();
    assert_eq!(plain.single_scale_variance, None);
}

// 0x10 ScaleVarianceInitializer: three floats, the per-axis ufrand bound added to the 0x0F
// base scale per particle (CYyGenerator.cpp CYyGenerator::ElemGenerate case 0x10 —
// field_EC.x/y/z += ufrand(payload)). Shipped census: 2669 blocks, all size_words=4,
// [0, 2] per axis, every one behind a 0x0F base scale.
#[test]
fn scale_variance_reads_the_three_floats() {
    let mut setup = op(0x01, 12, &[]);
    setup[4 + 29] = LINKED_DATA_STATIC_MESH;
    let mut payload = Vec::new();
    for f in [0.5f32, 0.25, 0.125] {
        payload.extend_from_slice(&f.to_le_bytes());
    }
    setup.extend(op(0x10, 4, &payload));
    let body = build(&setup, 1, 1);
    let def = parse_def(&body).unwrap().unwrap();
    assert_eq!(def.scale_variance, Some([0.5, 0.25, 0.125]));
    let plain = parse_def(&build(&mesh_setup(), 1, 1))
        .unwrap()
        .unwrap();
    assert_eq!(plain.scale_variance, None);
}

// 0x1F SphericalPositionVarianceFull: nine floats, the camera flag u32, and the
// azimuth-step u16, which CYyGenerator.cpp CYyGenerator::ElemGenerate case 0x1F reads as
// 0 in the random-azimuth case and one higher than the step count otherwise.
#[test]
fn spherical_full_reads_the_payload_fields() {
    let payload = |camera: u32, raw_steps: u16| {
        let mut p: Vec<u8> = Vec::new();
        for f in [0.25f32, 0.5, 1.0, 1.5, 2.0, 0.1, 0.2, 0.3, 0.4] {
            p.extend_from_slice(&f.to_le_bytes());
        }
        p.extend_from_slice(&camera.to_le_bytes());
        p.extend_from_slice(&raw_steps.to_le_bytes());
        p
    };
    let mut sec2 = mesh_setup();
    sec2.extend(op(0x1F, 12, &payload(1, 4)));
    let def = parse_def(&build(&sec2, 1, 1))
        .unwrap()
        .unwrap();
    let sp = def.spherical_full.expect("sec2 0x1F block");
    assert_eq!(sp.radius_variance, 0.25);
    assert_eq!(sp.base_radius, 0.5);
    assert_eq!(sp.axis_scale, [1.0, 1.5, 2.0]);
    assert_eq!(sp.rotation_z, 0.1);
    assert_eq!(sp.rotation_y, 0.2);
    assert_eq!(sp.tilt, 0.3);
    assert_eq!(sp.tilt_variance, 0.4);
    assert!(sp.camera_oriented);
    assert_eq!(sp.azimuth_steps, 5);

    let mut sec2 = mesh_setup();
    sec2.extend(op(0x1F, 12, &payload(0, 0)));
    let def = parse_def(&build(&sec2, 1, 1))
        .unwrap()
        .unwrap();
    let sp = def.spherical_full.expect("sec2 0x1F block");
    assert!(!sp.camera_oriented);
    assert_eq!(sp.azimuth_steps, 0, "raw 0 is the random-azimuth case");

    let plain = parse_def(&build(&mesh_setup(), 1, 1))
        .unwrap()
        .unwrap();
    assert_eq!(plain.spherical_full, None);
}

// 0x12 ScaleVelocitySetup: three floats, the per-frame scale rate per axis; only the sec3 0x08
// ScaleUpdater integrates it.
#[test]
fn scale_velocity_reads_the_three_axis_rate() {
    let mut sec2 = mesh_setup();
    sec2.extend(op(0x12, 4, &vec3_payload([0.0, 0.01, 0.0])));
    let rate_only = parse_def(&build(&sec2, 120, 0x1400))
        .unwrap()
        .unwrap();
    assert_eq!(rate_only.scale_velocity, Some([0.0, 0.01, 0.0]));
    assert!(!rate_only.scale_updater);
    assert_eq!(rate_only.scale_rate(), None);

    let body = with_section(build(&sec2, 120, 0x1400), 0x78, &op(0x08, 1, &[]));
    let growing = parse_def(&body).unwrap().unwrap();
    assert!(growing.scale_updater);
    assert_eq!(growing.scale_rate(), Some([0.0, 0.01, 0.0]));
}

// 0x13 VelocityVarianceSetup (scale): three floats, the per-axis variance bound on the 0x12
// scale velocity to the transform's velocity).
#[test]
fn scale_velocity_variance_reads_the_three_floats() {
    let mut sec2 = mesh_setup();
    sec2.extend(op(0x13, 4, &vec3_payload([0.0, 0.005, 0.0])));
    let def = parse_def(&build(&sec2, 120, 0x1400))
        .unwrap()
        .unwrap();
    assert_eq!(def.scale_velocity_variance, Some([0.0, 0.005, 0.0]));
    let plain = parse_def(&build(&mesh_setup(), 120, 0x1400))
        .unwrap()
        .unwrap();
    assert_eq!(plain.scale_velocity_variance, None);
}

// Research/xim ParticleInitializers.kt — renderStateFlags is the u16 after the billboard
// flags; 0x1000 picks retail's NonZeroOneTSS element (CMoD3m.cpp CMoD3m::Draw).
#[test]
fn render_state_flag_selects_ignore_texture_alpha_element() {
    let element = |render_state: u16| {
        let mut setup = op(0x01, 12, &[]);
        setup[4 + 2..4 + 4].copy_from_slice(&render_state.to_le_bytes());
        setup[4 + 29] = LINKED_DATA_STATIC_MESH;
        let body = build(&setup, 1, 1);
        parse_def(&body)
            .unwrap()
            .unwrap()
            .ignore_texture_alpha
    };
    assert!(!element(0x0000));
    assert!(!element(0x0FFF), "only bit 0x1000 selects the element");
    assert!(element(0x1000));
    assert!(element(0x1200), "other render-state bits do not mask it");
}

// CMoElem.cpp CMoElem::PrepDX — fog is on unless the element sets 0x0200.
#[test]
fn render_state_flag_0x0200_disables_fog() {
    let fogged = |render_state: u16| {
        let mut setup = op(0x01, 12, &[]);
        setup[4 + 2..4 + 4].copy_from_slice(&render_state.to_le_bytes());
        setup[4 + 29] = LINKED_DATA_STATIC_MESH;
        let body = build(&setup, 1, 1);
        parse_def(&body)
            .unwrap()
            .unwrap()
            .fog_enabled
    };
    assert!(fogged(0x0000));
    assert!(fogged(0x1000));
    assert!(!fogged(0x0200));
    assert!(!fogged(0x1200));
}

// CMoElem.cpp CMoElem::OnDraw / CMoElem::PrepDX — Lower Jeuno's sea group as shipped in
// DAT 345: `down` is billboard 0x1000 / render-state 0x0800, `col1` and both sheets are
// render-state 0x0040.
#[test]
fn render_state_and_billboard_words_select_draw_priority_and_depth_write() {
    let parsed = |billboard: u16, render_state: u16| {
        let mut setup = op(0x01, 12, &[]);
        setup[4..4 + 2].copy_from_slice(&billboard.to_le_bytes());
        setup[4 + 2..4 + 4].copy_from_slice(&render_state.to_le_bytes());
        setup[4 + 29] = LINKED_DATA_STATIC_MESH;
        let body = build(&setup, 1, 1);
        let def = parse_def(&body).unwrap().unwrap();
        (def.draw_priority, def.depth_write)
    };
    assert_eq!(parsed(0x0000, 0x0000), (DrawPriority::Depth, false));
    assert_eq!(parsed(0x1000, 0x0800), (DrawPriority::Low, true));
    assert_eq!(parsed(0x0000, 0x0040), (DrawPriority::Pinned, false));
    assert_eq!(
        parsed(0x0000, 0x0840),
        (DrawPriority::Low, false),
        "low priority is tested after the pinned key and overrides it"
    );
}

// CYyGenerator.cpp CYyGenerator::ElemGenerate opcode 0x30 — one float, the sort offset.
#[test]
fn opcode_0x30_sets_the_sort_offset() {
    let mut setup = op(0x01, 12, &[]);
    setup[4 + 29] = LINKED_DATA_STATIC_MESH;
    setup.extend(op(0x30, 2, &7.5f32.to_le_bytes()));
    let body = build(&setup, 1, 1);
    let def = parse_def(&body).unwrap().unwrap();
    assert_eq!(def.sort_offset, 7.5);
    let mut plain = op(0x01, 12, &[]);
    plain[4 + 29] = LINKED_DATA_STATIC_MESH;
    let body = build(&plain, 1, 1);
    let def = parse_def(&body).unwrap().unwrap();
    assert_eq!(def.sort_offset, 0.0);
}

// 0x72 ProjectionBiasInitializer: two floats — param0 lands in sort_offset (the same field_128
// 0x30 writes), param1 is kept as the actor depth-scale factor. Shipped census: 24180 blocks,
// all size_words=3, param0 [-26, 1], param1 [-8.6, 2.5] (14388 zero), zero co-occurrence with
// 0x30.
#[test]
fn projection_bias_reads_the_two_floats() {
    let mut setup = op(0x01, 12, &[]);
    setup[4 + 29] = LINKED_DATA_STATIC_MESH;
    let mut payload = Vec::new();
    for f in [-0.5f32, 2.0] {
        payload.extend_from_slice(&f.to_le_bytes());
    }
    setup.extend(op(0x72, 3, &payload));
    let body = build(&setup, 1, 1);
    let def = parse_def(&body).unwrap().unwrap();
    assert_eq!(def.sort_offset, -0.5);
    assert_eq!(def.projection_bias, Some([-0.5, 2.0]));
    let plain = parse_def(&build(&mesh_setup(), 1, 1))
        .unwrap()
        .unwrap();
    assert_eq!(plain.sort_offset, 0.0);
    assert_eq!(plain.projection_bias, None);
}

// 0x17 ColorVarianceSetup: four bytes / 255, the per-channel upward variance bound. Shipped
// census: 7654 blocks, all size_words=2, alpha byte always 0, every one behind a 0x16 base
// color.
#[test]
fn color_variance_reads_the_four_bytes() {
    let mut setup = op(0x01, 12, &[]);
    setup[4 + 29] = LINKED_DATA_STATIC_MESH;
    setup.extend(op(0x17, 2, &[20u8, 10, 5, 0]));
    let body = build(&setup, 1, 1);
    let def = parse_def(&body).unwrap().unwrap();
    assert_eq!(
        def.color_variance,
        Some([20.0 / 255.0, 10.0 / 255.0, 5.0 / 255.0, 0.0])
    );
    let plain = parse_def(&build(&mesh_setup(), 1, 1))
        .unwrap()
        .unwrap();
    assert_eq!(plain.color_variance, None);
}

// 0x19 ColorTransformSetup: four i16s, parsed only — the retail decompile's ElemGenerate has
// no 0x19 case and xim's drawers never read the allocated transform. Shipped census: 15815
// blocks, all size_words=3, alpha always 0, every one behind a 0x16 base color.
#[test]
fn color_transform_reads_the_four_i16s() {
    let mut setup = op(0x01, 12, &[]);
    setup[4 + 29] = LINKED_DATA_STATIC_MESH;
    let mut payload = Vec::new();
    for v in [-160i16, -160, 0, 0] {
        payload.extend_from_slice(&v.to_le_bytes());
    }
    setup.extend(op(0x19, 3, &payload));
    let body = build(&setup, 1, 1);
    let def = parse_def(&body).unwrap().unwrap();
    assert_eq!(def.color_transform, Some([-160, -160, 0, 0]));
    let plain = parse_def(&build(&mesh_setup(), 1, 1))
        .unwrap()
        .unwrap();
    assert_eq!(plain.color_transform, None);
}

fn mesh_setup() -> Vec<u8> {
    let mut setup = op(0x01, 12, &[]);
    setup[4 + 29] = LINKED_DATA_STATIC_MESH;
    setup
}

fn vec3_payload(v: [f32; 3]) -> Vec<u8> {
    v.iter().flat_map(|f| f.to_le_bytes()).collect()
}

// Appends a section stream after the body and points the section word at it.
fn with_section(mut body: Vec<u8>, offset_word: usize, stream: &[u8]) -> Vec<u8> {
    body.extend_from_slice(&[0u8; 4]);
    let at = body.len();
    body[offset_word..offset_word + 4].copy_from_slice(&((at + 0x10) as u32).to_le_bytes());
    body.extend_from_slice(stream);
    body
}

// The Home Point crystal `bnd0`: sec2 0x0B (0, -0.0157, 0) with a sec3 0x05 updater turns;
// the same rate with no updater does not (effects.md "What MOVES an effect").
#[test]
fn rotation_velocity_spins_only_with_the_sec3_updater() {
    const BND0_YAW_PER_FRAME: f32 = -0.015_707_5;
    let mut sec2 = mesh_setup();
    sec2.extend(op(0x0B, 4, &vec3_payload([0.0, BND0_YAW_PER_FRAME, 0.0])));
    let rate_only = parse_def(&build(&sec2, 120, 0x1400))
        .unwrap()
        .unwrap();
    assert_eq!(
        rate_only.rotation_velocity,
        Some([0.0, BND0_YAW_PER_FRAME, 0.0])
    );
    assert!(!rate_only.rotation_updater);
    assert_eq!(rate_only.spin(), None);

    let body = with_section(build(&sec2, 120, 0x1400), 0x78, &op(0x05, 1, &[]));
    let spinning = parse_def(&body).unwrap().unwrap();
    assert!(spinning.rotation_updater);
    assert_eq!(spinning.spin(), Some([0.0, BND0_YAW_PER_FRAME, 0.0]));

    let updater_only = parse_def(&with_section(
        build(&mesh_setup(), 120, 0x1400),
        0x78,
        &op(0x05, 1, &[]),
    ))
    .unwrap()
    .unwrap();
    assert_eq!(
        updater_only.spin(),
        None,
        "an updater with no rate has nothing to add"
    );
}

// CYyGenerator.cpp CYyGenerator::ElemDie case 5 — the section-4 relife opcode every idle Home
// Point layer carries.
#[test]
fn section_4_relife_opcode_is_read() {
    let plain = parse_def(&build(&mesh_setup(), 120, 0x1400))
        .unwrap()
        .unwrap();
    assert!(!plain.relife_on_expiry);

    let body = with_section(build(&mesh_setup(), 120, 0x1400), 0x7C, &op(0x05, 1, &[]));
    let relife = parse_def(&body).unwrap().unwrap();
    assert!(relife.relife_on_expiry);

    let other = with_section(build(&mesh_setup(), 120, 0x1400), 0x7C, &op(0x04, 1, &[]));
    assert!(
        !parse_def(&other)
            .unwrap()
            .unwrap()
            .relife_on_expiry
    );
}

// `bnd0`'s StandardSetup dword is 0x01010000: the high u16 carries the specular selector.
#[test]
fn specular_selector_and_params_are_read() {
    let mut setup = mesh_setup();
    setup[4 + 2..4 + 4].copy_from_slice(&0x0101u16.to_le_bytes());
    let mut payload = vec3_payload([0.0349, -0.5410, 0.6108]);
    payload.extend_from_slice(b"nami");
    payload.extend_from_slice(&0u32.to_le_bytes());
    payload.extend_from_slice(&10.0f32.to_le_bytes());
    payload.extend_from_slice(&30.0f32.to_le_bytes());
    payload.extend_from_slice(&[0xAA, 0xAA, 0x8C, 0x80]);
    payload.extend_from_slice(&3u32.to_le_bytes());
    setup.extend(op(0x55, 10, &payload));
    let def = parse_def(&build(&setup, 120, 0x1400))
        .unwrap()
        .unwrap();
    assert!(def.specular_element);
    let spec = def.specular.expect("0x55 record");
    assert_eq!(spec.texture, Some(*b"nami"));
    assert_eq!(spec.vector, [0.0349, -0.5410, 0.6108]);
    assert_eq!((spec.unknown_a, spec.unknown_b), (10.0, 30.0));
    assert_eq!(spec.color_bgra, [0xAA, 0xAA, 0x8C, 0x80]);
    assert_eq!(spec.flags, 3);

    let common = parse_def(&build(&mesh_setup(), 120, 0x1400))
        .unwrap()
        .unwrap();
    assert!(!common.specular_element);
    assert_eq!(common.specular, None);
}

// CMoD3m.cpp CMoD3m::Draw keys the TEXTUREFACTOR-alpha promotion on the exact blend byte, which
// the ParticleBlend collapse (0x03/0x44/0x64 all -> Blend) cannot express.
#[test]
fn blend_byte_survives_the_blend_func_collapse() {
    let parsed = |p0: u8| {
        let mut setup = op(0x01, 12, &[]);
        setup[4 + 29] = LINKED_DATA_STATIC_MESH;
        setup.extend(op(0x1E, 2, &[p0, 0, 0, 0]));
        let body = build(&setup, 1, 1);
        let def = parse_def(&body).unwrap().unwrap();
        (def.blend, def.blend_byte)
    };
    assert_eq!(parsed(0x44), (ParticleBlend::Blend, 0x44));
    assert_eq!(parsed(0x64), (ParticleBlend::Blend, 0x64));
    assert_eq!(parsed(0x48), (ParticleBlend::Additive, 0x48));
}

#[test]
fn static_mesh_setup_reports_static_mesh_kind() {
    let mut setup = op(0x01, 12, &[]);
    setup[4 + 29] = LINKED_DATA_STATIC_MESH;
    let body = build(&setup, 1, 1);
    let def = parse_def(&body).unwrap().unwrap();
    assert_eq!(def.mesh_kind, ParticleMeshKind::StaticMesh);
}

#[test]
fn singleton_when_max_life_zero() {
    let mut setup = op(0x01, 12, &[]);
    setup[4 + 8..4 + 12].copy_from_slice(b"sea0");
    setup[4 + 29] = LINKED_DATA_STATIC_MESH;
    // max life left at 0
    let body = build(&setup, 1, 1);
    let def = parse_def(&body).unwrap().unwrap();
    assert!(def.is_singleton());
}

// Pins the XIM attachFlags bit layout (ParticleGeneratorParser.kt) against the
// ground-truth word 0x5402 read out of Poison's effect DAT (file 3020).
#[test]
fn attach_flags_split_type_and_joints() {
    let mut setup = op(0x01, 12, &[]);
    setup[4 + 29] = LINKED_DATA_STATIC_MESH;

    let body = build_attached(&setup, 1, 1, 0x5402, ATTACH_SOURCE_ORIENTED);
    let def = parse_def(&body).unwrap().unwrap();
    assert_eq!(def.attach_type, AttachType::TargetActor);
    assert_eq!(def.attach_joint_source, 0);
    assert_eq!(def.attach_joint_target, 21);
    assert!(def.attach_source_oriented);

    let body = build_attached(&setup, 1, 1, 0x5402, 0);
    let def = parse_def(&body).unwrap().unwrap();
    assert!(!def.attach_source_oriented);

    // Joint 0 lives in bits 4..10, joint 1 in bits 10..16, type in the low nibble.
    let body = build_attached(&setup, 1, 1, 0x0409 | (7 << ATTACH_JOINT0_SHIFT), 0);
    let def = parse_def(&body).unwrap().unwrap();
    assert_eq!(def.attach_type, AttachType::SourceActorWeapon);
    assert_eq!(def.attach_joint_source, 7);
    assert_eq!(def.attach_joint_target, 1);

    // 0x7 / 0x8 / 0xD are not AttachType flags; XIM warns and falls back to None.
    for unknown in [0x7u16, 0x8, 0xD] {
        assert_eq!(AttachType::from_flag(unknown), None);
        let body = build_attached(&setup, 1, 1, unknown, 0);
        let def = parse_def(&body).unwrap().unwrap();
        assert_eq!(def.attach_type, AttachType::Unattached);
    }
}

// CYyGenerator.cpp CYyGenerator::ElemGenerate assigns far from the FIRST 0x4C word and near from the
// second, and 25 shipped generators author near > far — swapping them would make those
// silent everywhere instead of loud everywhere inside far.
#[test]
fn sound_setup_reads_far_then_near_and_ignores_the_third_word() {
    let mut setup = op(0x01, 12, &[]);
    setup[4 + 8..4 + 12].copy_from_slice(b"2024");
    setup[4 + 29] = LINKED_DATA_SOUND;
    setup[4 + 16..4 + 20].copy_from_slice(&(-293.5f32).to_le_bytes());
    let mut p = Vec::new();
    p.extend_from_slice(&50.0f32.to_le_bytes());
    p.extend_from_slice(&30.0f32.to_le_bytes());
    p.extend_from_slice(&6.0f32.to_le_bytes());
    setup.extend(op(SOUND_SETUP_OPCODE, 4, &p));

    let body = build(&setup, 30, GEN_FLAG_AUTO_RUN);
    let def = parse_sound(&body).unwrap().unwrap();
    assert_eq!(def.sep_id, *b"2024");
    assert_eq!(def.far, 50.0);
    assert_eq!(def.near, 30.0);
    assert!(def.auto_run);
    assert!(def.is_placed());
    assert_eq!(def.frames_per_emission, 30.0);

    assert!(
        parse_def(&body).unwrap().is_none(),
        "a sound generator must never reach the particle sim"
    );
}

fn with_sec1(mut body: Vec<u8>, sec1: &[u8]) -> Vec<u8> {
    let at = body.len();
    body[0x70..0x74].copy_from_slice(&((at + 0x10) as u32).to_le_bytes());
    body.extend_from_slice(sec1);
    body
}

#[test]
fn emit_cull_reads_max_then_min_then_unlink_bit_from_section_1() {
    let mut setup = op(0x01, 12, &[]);
    setup[4 + 29] = LINKED_DATA_STATIC_MESH;
    let mut p = Vec::new();
    p.extend_from_slice(&40.0f32.to_le_bytes());
    p.extend_from_slice(&(-1.0f32).to_le_bytes());
    p.extend_from_slice(&1u32.to_le_bytes());
    let mut sec1 = op(0x04, 2, &[0, 0, 0, 0]);
    sec1.extend(op(SEC1_OPCODE_EMIT_CULL, 4, &p));
    sec1.extend(op(OPCODE_END, 0, &[]));

    let body = with_sec1(build(&setup, 1, GEN_FLAG_AUTO_RUN | 1), &sec1);
    let def = parse_def(&body).unwrap().unwrap();
    assert_eq!(
        def.emit_cull,
        Some(EmitCull {
            max_distance: 40.0,
            min_distance: -1.0,
            unlink_out_of_range: true,
        })
    );

    let plain = parse_def(&build(&setup, 1, GEN_FLAG_AUTO_RUN | 1))
        .unwrap()
        .unwrap();
    assert_eq!(plain.emit_cull, None, "no section 1: never culled");
}

// 0x11's config word is followPosition(0x1), followFacing(0x2), factor(>>2). The shipped census is 0x0003fd (follow
// position only, factor 255) and 0x0003ff (both, factor 255).
#[test]
fn association_follow_reads_the_flags_and_factor_from_section_1() {
    let mut setup = op(0x01, 12, &[]);
    setup[4 + 29] = LINKED_DATA_STATIC_MESH;
    let parse_cfg = |cfg: u32| {
        let mut sec1 = op(0x04, 2, &[0, 0, 0, 0]);
        sec1.extend(op(SEC1_OPCODE_ASSOCIATION, 2, &cfg.to_le_bytes()));
        sec1.extend(op(OPCODE_END, 0, &[]));
        let body = with_sec1(build(&setup, 1, GEN_FLAG_AUTO_RUN | 1), &sec1);
        parse_def(&body).unwrap().unwrap()
    };
    assert_eq!(
        parse_cfg(0x0003fd).association,
        Some(AssociationFollow {
            follow_position: true,
            follow_facing: false,
            factor: 0x3fd >> 2,
        })
    );
    assert_eq!(
        parse_cfg(0x0003ff).association,
        Some(AssociationFollow {
            follow_position: true,
            follow_facing: true,
            factor: 0x3ff >> 2,
        })
    );

    let plain = parse_def(&build(&setup, 1, GEN_FLAG_AUTO_RUN | 1))
        .unwrap()
        .unwrap();
    assert_eq!(plain.association, None, "no section 1: no follow");
}

#[test]
fn particle_setups_are_not_sound_generators() {
    let mut setup = op(0x01, 12, &[]);
    setup[4 + 29] = LINKED_DATA_STATIC_MESH;
    let body = build(&setup, 1, 1);
    assert!(parse_sound(&body).unwrap().is_none());
}
