//! Particle generators: the header, and the four opcode sections read into one
//! definition. Within a section the last readable block of an opcode wins, as
//! the client's sequential walk leaves it. `f32` fields are kept as their bit
//! patterns and colour bytes as stored.

use vstd::prelude::*;
use crate::bytes::{le16, le32, read_u16_le, read_u32_le};
use crate::error::DatError;
use crate::particle_gen::stream::{
    any_op, find_last, has_op, header_matches, last_fit, read_header, report, section_blocks,
    spec_section, GeneratorBlock, GeneratorHeader, SEC1_OFFSET, SEC2_OFFSET, SEC3_OFFSET, SEC4_OFFSET,
};
use crate::particle_gen::{
    spec_billboard, AssociationFollow, AttachType, DrawPriority, GeneratorOpcodeOutcome,
    GeneratorSection, ParticleBillboard, ParticleBlend, ParticleMeshKind,
};

verus! {

/// Setup link types that make a generator a particle emitter: a static mesh
/// billboard, or a sprite-sheet flipbook.
pub const LINKED_DATA_STATIC_MESH: u8 = 0x0B;
pub const LINKED_DATA_SPRITE_SHEET: u8 = 0x0E;
/// The bit pattern of `1.0f32`.
pub const ONE_BITS: u32 = 0x3F80_0000;
pub const DAYS_OF_WEEK: usize = 8;
pub const MOON_PHASES: usize = 12;
pub const TOD_COLOR_CHANNELS: usize = 4;

/// Where a particle spawns around the generator: a radius band, and per-axis
/// scales (ones for the short form).
#[derive(Debug, Clone, Copy, PartialEq, Eq)]
pub struct PositionVariance {
    pub radius_variance_bits: u32,
    pub base_radius_bits: u32,
    pub axis_scale_bits: [u32; 3],
}

/// The full spherical spawn shape: radius band, axis scales, orientation and
/// tilt, whether it follows the camera, and the azimuth steps (0 for random,
/// else one more than stored).
#[derive(Debug, Clone, Copy, PartialEq, Eq)]
pub struct SphericalPositionVarianceFull {
    pub radius_variance_bits: u32,
    pub base_radius_bits: u32,
    pub axis_scale_bits: [u32; 3],
    pub rotation_z_bits: u32,
    pub rotation_y_bits: u32,
    pub tilt_bits: u32,
    pub tilt_variance_bits: u32,
    pub camera_oriented: bool,
    pub azimuth_steps: u32,
}

/// The specular element's parameters; only the texture link is understood.
#[derive(Debug, Clone, Copy, PartialEq, Eq)]
pub struct SpecularParams {
    pub vector_bits: [u32; 3],
    pub texture: Option<[u8; 4]>,
    pub unknown_a_bits: u32,
    pub unknown_b_bits: u32,
    pub color_bgra: [u8; 4],
    pub flags: u32,
}

/// The distance band outside which the generator skips its update, and whether
/// it then unlinks for good. A zero maximum defers to the zone's draw distance.
#[derive(Debug, Clone, Copy, PartialEq, Eq)]
pub struct EmitCull {
    pub max_distance_bits: u32,
    pub min_distance_bits: u32,
    pub unlink_out_of_range: bool,
}

/// A particle emitter as its generator chunk describes it.
#[derive(Debug, Clone, Copy, PartialEq, Eq)]
pub struct ParticleGeneratorDef {
    pub frames_per_emission: u32,
    pub particles_per_emission: u32,
    pub emission_variance: u16,
    pub mesh_id: [u8; 4],
    pub mesh_kind: ParticleMeshKind,
    pub base_position_bits: [u32; 3],
    pub max_life_frames: u16,
    pub camera_billboard: bool,
    pub billboard: ParticleBillboard,
    pub camera_relative: bool,
    pub follow_camera: bool,
    pub camera_attached_base: bool,
    pub position_variance: Option<PositionVariance>,
    pub spherical_full: Option<SphericalPositionVarianceFull>,
    pub continuous: bool,
    pub auto_run: bool,
    pub batched: bool,
    pub attach_type: AttachType,
    pub attach_joint_source: u8,
    pub attach_joint_target: u8,
    pub attach_source_oriented: bool,
    /// Channel bytes over 255; all 255 when the generator sets none.
    pub init_color: [u8; 4],
    pub color_variance: Option<[u8; 4]>,
    pub color_transform: Option<[i16; 4]>,
    pub blend: ParticleBlend,
    pub blend_byte: u8,
    pub ignore_texture_alpha: bool,
    pub fog_enabled: bool,
    pub draw_priority: DrawPriority,
    pub sort_offset_bits: u32,
    pub depth_write: bool,
    pub day_of_week_color: Option<[[u8; 4]; 8]>,
    pub moon_phase_color: Option<[[u8; 4]; 12]>,
    pub tod_color_tracks: [Option<[u8; 4]>; 4],
    pub tod_color_driven: [bool; 4],
    pub uv_scroll_bits: [u32; 2],
    pub emit_cull: Option<EmitCull>,
    pub association: Option<AssociationFollow>,
    pub specular_element: bool,
    pub specular: Option<SpecularParams>,
    pub init_velocity_bits: [u32; 3],
    pub velocity_variance_bits: Option<[u32; 3]>,
    pub relative_velocity_bits: Option<u32>,
    pub init_rotation_bits: [u32; 3],
    pub rotation_variance_bits: Option<[u32; 3]>,
    pub rotation_velocity_bits: Option<[u32; 3]>,
    pub rotation_velocity_variance_bits: Option<[u32; 3]>,
    pub scale_velocity_variance_bits: Option<[u32; 3]>,
    pub incremental_rotation_bits: Option<[u32; 3]>,
    pub init_scale_bits: [u32; 3],
    pub scale_variance_bits: Option<[u32; 3]>,
    pub single_scale_variance_bits: Option<u32>,
    pub scale_velocity_bits: Option<[u32; 3]>,
    pub specular_rot_y_track: Option<[u8; 4]>,
    pub specular_rot_z_track: Option<[u8; 4]>,
    pub camera_shake_track: Option<[u8; 4]>,
    pub haze_offset_x_bits: Option<u32>,
    pub relative_velocity_variance_bits: Option<u32>,
    pub projection_bias_bits: Option<[u32; 2]>,
    pub scale_x_track: Option<[u8; 4]>,
    pub scale_y_track: Option<[u8; 4]>,
    pub scale_z_track: Option<[u8; 4]>,
    pub alpha_track: Option<[u8; 4]>,
    pub color_r_track: Option<[u8; 4]>,
    pub color_g_track: Option<[u8; 4]>,
    pub color_b_track: Option<[u8; 4]>,
    pub reverse_displacement_bits: Option<u32>,
    pub foot_mark: bool,
    pub oscillation: bool,
    pub parent_position_copy: bool,
    pub parent_velocity_bits: Option<u32>,
    pub child_generator: Option<[u8; 4]>,
    pub child_generator_2: Option<[u8; 4]>,
    pub parent_rotate: bool,
    pub parent_color: bool,
    pub parent_scale: bool,
    pub velocity_dampener_track: Option<[u8; 4]>,
    pub fixed_point_position_variance: Option<[u8; 4]>,
    pub fixed_point_position_variance_2: Option<[u8; 4]>,
    pub oscillation_accel_z_bits: Option<[u32; 2]>,
    pub oscillation_accel_x_bits: Option<[u32; 2]>,
    pub oscillation_accel_y_bits: Option<[u32; 2]>,
    pub rotation_updater: bool,
    pub scale_updater: bool,
    pub oscillation_applier_x_bits: Option<[u32; 3]>,
    pub oscillation_applier_z_bits: Option<[u32; 3]>,
    pub oscillation_applier_y_bits: Option<[u32; 3]>,
    pub accel_bits: Option<[u32; 3]>,
    pub moon_phase_sprite: bool,
    pub relife_on_expiry: bool,
}

/// `n` little-endian dwords from `o` on.
pub open spec fn words(b: Seq<u8>, o: int, n: nat) -> Seq<u32> {
    Seq::new(n, |k: int| le32(b, o + 4 * k) as u32)
}

pub open spec fn or3(v: [u32; 3], last: Option<GeneratorBlock>, b: Seq<u8>, dflt: u32) -> bool {
    match last {
        Some(bk) => v@ == words(b, bk.payload as int, 3),
        None => v@ == seq![dflt, dflt, dflt],
    }
}

pub open spec fn opt3(v: Option<[u32; 3]>, last: Option<GeneratorBlock>, b: Seq<u8>, off: int) -> bool {
    match last {
        Some(bk) => v matches Some(a) && a@ == words(b, bk.payload + off, 3),
        None => v is None,
    }
}

pub open spec fn opt2(v: Option<[u32; 2]>, last: Option<GeneratorBlock>, b: Seq<u8>) -> bool {
    match last {
        Some(bk) => v matches Some(a) && a@ == words(b, bk.payload as int, 2),
        None => v is None,
    }
}

pub open spec fn opt1(v: Option<u32>, last: Option<GeneratorBlock>, b: Seq<u8>, off: int) -> bool {
    match last {
        Some(bk) => v == Some(le32(b, bk.payload + off) as u32),
        None => v is None,
    }
}

/// The resource id at `o`, none when it is all zeros.
pub open spec fn id_at(v: Option<[u8; 4]>, b: Seq<u8>, o: int) -> bool {
    if b.subrange(o, o + 4) == seq![0u8, 0u8, 0u8, 0u8] {
        v is None
    } else {
        v matches Some(a) && a@ == b.subrange(o, o + 4)
    }
}

/// A keyframe-track block names its track id one word into the payload.
pub open spec fn opt_track(v: Option<[u8; 4]>, last: Option<GeneratorBlock>, b: Seq<u8>) -> bool {
    match last {
        Some(bk) => id_at(v, b, bk.payload + 4),
        None => v is None,
    }
}

/// The last block of `s` that is `op1` with `n1` payload bytes or `op2` with `n2`.
pub open spec fn last_fit2(s: Seq<GeneratorBlock>, len: int, op1: u8, n1: int, op2: u8, n2: int) -> Option<GeneratorBlock>
    decreases s.len(),
{
    if s.len() == 0 {
        None
    } else if (s.last().opcode == op1 && s.last().payload + n1 <= len) || (s.last().opcode == op2
        && s.last().payload + n2 <= len) {
        Some(s.last())
    } else {
        last_fit2(s.drop_last(), len, op1, n1, op2, n2)
    }
}

/// The 16-bit two's-complement reading of an unsigned value below `2^16`.
pub open spec fn signed16(v: int) -> int {
    if v >= 32768 {
        v - 65536
    } else {
        v
    }
}

/// The blend a blend-function byte selects: its high nibble's low bit makes it
/// opaque; else low nibble 8 adds, 1 and 2 subtract, anything else blends.
pub open spec fn blend_of(p0: u8) -> ParticleBlend {
    if (p0 / 16) % 2 == 1 {
        ParticleBlend::Blend
    } else if p0 % 16 == 8 {
        ParticleBlend::Additive
    } else if p0 % 16 == 1 || p0 % 16 == 2 {
        ParticleBlend::Subtract
    } else {
        ParticleBlend::Blend
    }
}

/// A generator is a particle emitter when its last readable standard setup
/// links a static mesh or a sprite sheet.
pub open spec fn is_particle(b: Seq<u8>) -> bool {
    match last_fit(spec_section(b, SEC2_OFFSET as int), b.len() as int, 0x01, 32) {
        Some(bk) => b[bk.payload + 29] == LINKED_DATA_STATIC_MESH || b[bk.payload + 29] == LINKED_DATA_SPRITE_SHEET,
        None => false,
    }
}

pub open spec fn header_of(d: ParticleGeneratorDef) -> GeneratorHeader {
    GeneratorHeader {
        attach_type: d.attach_type,
        attach_joint_source: d.attach_joint_source,
        attach_joint_target: d.attach_joint_target,
        attach_source_oriented: d.attach_source_oriented,
        frames_per_emission: d.frames_per_emission,
        emission_variance: d.emission_variance,
        particles_per_emission: d.particles_per_emission,
        continuous: d.continuous,
        auto_run: d.auto_run,
        batched: d.batched,
    }
}

/// What the standard setup block at `p` says of billboarding, render state,
/// mesh, base position and life.
pub open spec fn setup_matches(d: ParticleGeneratorDef, b: Seq<u8>, p: int) -> bool {
    let bb = le16(b, p);
    let rs = le16(b, p + 2);
    &&& d.billboard == spec_billboard(bb as u16)
    &&& d.camera_billboard == (bb % 2 == 1 || (bb / 64) % 4 == 3)
    &&& d.ignore_texture_alpha == ((rs / 0x1000) % 2 == 1)
    &&& d.fog_enabled == ((rs / 0x200) % 2 == 0)
    &&& d.draw_priority == if (rs / 0x800) % 2 == 1 {
        DrawPriority::Low
    } else if (rs / 0x40) % 2 == 1 {
        DrawPriority::Pinned
    } else {
        DrawPriority::Depth
    }
    &&& d.depth_write == ((bb / 0x1000) % 2 == 1)
    &&& d.follow_camera == ((bb / 4) % 2 == 1)
    &&& d.camera_attached_base == ((rs / 0x400) % 2 == 1)
    &&& d.specular_element == ((rs / 0x100) % 2 == 1)
    &&& d.camera_relative == (d.follow_camera || d.camera_attached_base)
    &&& d.mesh_id@ == b.subrange(p + 8, p + 12)
    &&& d.base_position_bits@ == words(b, p + 16, 3)
    &&& d.mesh_kind == if b[p + 29] == LINKED_DATA_STATIC_MESH {
        ParticleMeshKind::StaticMesh
    } else {
        ParticleMeshKind::SpriteSheet
    }
    &&& d.max_life_frames == le16(b, p + 30)
}

pub open spec fn pv_matches(v: Option<PositionVariance>, last: Option<GeneratorBlock>, b: Seq<u8>) -> bool {
    match last {
        Some(bk) => v matches Some(pv) && {
            let p = bk.payload as int;
            &&& pv.radius_variance_bits == le32(b, p)
            &&& pv.base_radius_bits == le32(b, p + 4)
            &&& pv.axis_scale_bits@ == if bk.opcode == 0x06 {
                seq![ONE_BITS, ONE_BITS, ONE_BITS]
            } else {
                words(b, p + 8, 3)
            }
        },
        None => v is None,
    }
}

pub open spec fn spherical_matches(v: Option<SphericalPositionVarianceFull>, last: Option<GeneratorBlock>, b: Seq<u8>) -> bool {
    match last {
        Some(bk) => v matches Some(s) && {
            let p = bk.payload as int;
            let steps = le16(b, p + 40);
            &&& s.radius_variance_bits == le32(b, p)
            &&& s.base_radius_bits == le32(b, p + 4)
            &&& s.axis_scale_bits@ == words(b, p + 8, 3)
            &&& s.rotation_z_bits == le32(b, p + 20)
            &&& s.rotation_y_bits == le32(b, p + 24)
            &&& s.tilt_bits == le32(b, p + 28)
            &&& s.tilt_variance_bits == le32(b, p + 32)
            &&& s.camera_oriented == (le32(b, p + 36) % 2 == 1)
            &&& s.azimuth_steps == if steps == 0 {
                0
            } else {
                steps + 1
            }
        },
        None => v is None,
    }
}

pub open spec fn specular_matches(v: Option<SpecularParams>, last: Option<GeneratorBlock>, b: Seq<u8>) -> bool {
    match last {
        Some(bk) => v matches Some(s) && {
            let p = bk.payload as int;
            &&& s.vector_bits@ == words(b, p, 3)
            &&& id_at(s.texture, b, p + 12)
            &&& s.unknown_a_bits == le32(b, p + 20)
            &&& s.unknown_b_bits == le32(b, p + 24)
            &&& s.color_bgra@ == b.subrange(p + 28, p + 32)
            &&& s.flags == le32(b, p + 32)
        },
        None => v is None,
    }
}

pub open spec fn bytes4_matches(v: Option<[u8; 4]>, last: Option<GeneratorBlock>, b: Seq<u8>) -> bool {
    match last {
        Some(bk) => v matches Some(c) && c@ == b.subrange(bk.payload as int, bk.payload + 4),
        None => v is None,
    }
}

pub open spec fn transform_matches(v: Option<[i16; 4]>, last: Option<GeneratorBlock>, b: Seq<u8>) -> bool {
    match last {
        Some(bk) => v matches Some(c) && forall|k: int|
            0 <= k < 4 ==> (#[trigger] c@[k]) as int == signed16(le16(b, bk.payload + 2 * k)),
        None => v is None,
    }
}

/// A run of `n` colour quads one word into the payload.
pub open spec fn quads_match(q: Seq<[u8; 4]>, b: Seq<u8>, p: int, n: int) -> bool {
    q.len() == n && forall|i: int|
        0 <= i < n ==> (#[trigger] q[i])@ == b.subrange(p + 4 + 4 * i, p + 8 + 4 * i)
}

pub open spec fn word_or_zero(last: Option<GeneratorBlock>, b: Seq<u8>) -> u32 {
    match last {
        Some(bk) => le32(b, bk.payload as int) as u32,
        None => 0,
    }
}

/// `d` is the particle emitter `b` describes.
pub open spec fn particle_matches(d: ParticleGeneratorDef, b: Seq<u8>) -> bool {
    let len = b.len() as int;
    let s1 = spec_section(b, SEC1_OFFSET as int);
    let s2 = spec_section(b, SEC2_OFFSET as int);
    let s3 = spec_section(b, SEC3_OFFSET as int);
    let s4 = spec_section(b, SEC4_OFFSET as int);
    let blend = last_fit(s2, len, 0x1E, 1);
    let dow = last_fit(s3, len, 0x4E, 36);
    let moon = last_fit(s3, len, 0x4F, 52);
    let cull = last_fit(s1, len, 0x0A, 12);
    let assoc = last_fit(s1, len, 0x11, 4);
    &&& header_matches(header_of(d), b)
    &&& setup_matches(d, b, last_fit(s2, len, 0x01, 32)->0.payload as int)
    &&& pv_matches(d.position_variance, last_fit2(s2, len, 0x06, 8, 0x07, 20), b)
    &&& spherical_matches(d.spherical_full, last_fit(s2, len, 0x1F, 42), b)
    &&& specular_matches(d.specular, last_fit(s2, len, 0x55, 36), b)
    &&& d.sort_offset_bits == word_or_zero(last_fit2(s2, len, 0x30, 4, 0x72, 8), b)
    &&& match last_fit(s2, len, 0x16, 4) {
        Some(bk) => d.init_color@ == b.subrange(bk.payload as int, bk.payload + 4),
        None => d.init_color@ == seq![255u8, 255u8, 255u8, 255u8],
    }
    &&& bytes4_matches(d.color_variance, last_fit(s2, len, 0x17, 4), b)
    &&& transform_matches(d.color_transform, last_fit(s2, len, 0x19, 8), b)
    &&& match blend {
        Some(bk) => d.blend == blend_of(b[bk.payload as int]) && d.blend_byte == b[bk.payload as int],
        None => d.blend == ParticleBlend::Additive && d.blend_byte == 0,
    }
    &&& opt_track(d.tod_color_tracks[0], last_fit(s2, len, 0x60, 8), b)
    &&& opt_track(d.tod_color_tracks[1], last_fit(s2, len, 0x61, 8), b)
    &&& opt_track(d.tod_color_tracks[2], last_fit(s2, len, 0x62, 8), b)
    &&& opt_track(d.tod_color_tracks[3], last_fit(s2, len, 0x63, 8), b)
    &&& d.tod_color_driven@ == seq![has_op(s3, 0x3C), has_op(s3, 0x3D), has_op(s3, 0x3E), has_op(s3, 0x3F)]
    &&& d.uv_scroll_bits@ == seq![word_or_zero(last_fit(s3, len, 0x27, 4), b), word_or_zero(last_fit(s3, len, 0x28, 4), b)]
    &&& match dow {
        Some(bk) => d.day_of_week_color matches Some(q) && quads_match(q@, b, bk.payload as int, 8),
        None => d.day_of_week_color is None,
    }
    &&& match moon {
        Some(bk) => d.moon_phase_color matches Some(q) && quads_match(q@, b, bk.payload as int, 12),
        None => d.moon_phase_color is None,
    }
    &&& match cull {
        Some(bk) => d.emit_cull matches Some(e) && e.max_distance_bits == le32(b, bk.payload as int)
            && e.min_distance_bits == le32(b, bk.payload + 4) && e.unlink_out_of_range == (le32(b, bk.payload + 8) % 2 == 1),
        None => d.emit_cull is None,
    }
    &&& match assoc {
        Some(bk) => d.association matches Some(a) && {
            let cfg = le32(b, bk.payload as int);
            &&& a.follow_position == (cfg % 2 == 1)
            &&& a.follow_facing == ((cfg / 2) % 2 == 1)
            &&& a.factor == cfg / 4
        },
        None => d.association is None,
    }
    &&& or3(d.init_velocity_bits, last_fit(s2, len, 0x02, 12), b, 0)
    &&& opt3(d.velocity_variance_bits, last_fit(s2, len, 0x03, 12), b, 0)
    &&& opt1(d.relative_velocity_bits, last_fit(s2, len, 0x08, 4), b, 0)
    &&& or3(d.init_rotation_bits, last_fit(s2, len, 0x09, 12), b, 0)
    &&& opt3(d.rotation_variance_bits, last_fit(s2, len, 0x0A, 12), b, 0)
    &&& opt3(d.rotation_velocity_bits, last_fit(s2, len, 0x0B, 12), b, 0)
    &&& opt3(d.rotation_velocity_variance_bits, last_fit(s2, len, 0x0C, 12), b, 0)
    &&& opt3(d.scale_velocity_variance_bits, last_fit(s2, len, 0x13, 12), b, 0)
    &&& opt3(d.incremental_rotation_bits, last_fit(s2, len, 0x3B, 12), b, 0)
    &&& or3(d.init_scale_bits, last_fit(s2, len, 0x0F, 12), b, ONE_BITS)
    &&& opt3(d.scale_variance_bits, last_fit(s2, len, 0x10, 12), b, 0)
    &&& opt1(d.single_scale_variance_bits, last_fit(s2, len, 0x11, 4), b, 0)
    &&& opt3(d.scale_velocity_bits, last_fit(s2, len, 0x12, 12), b, 0)
    &&& opt_track(d.specular_rot_y_track, last_fit(s2, len, 0x5A, 8), b)
    &&& opt_track(d.specular_rot_z_track, last_fit(s2, len, 0x5B, 8), b)
    &&& opt_track(d.camera_shake_track, last_fit(s2, len, 0x82, 8), b)
    &&& opt1(d.haze_offset_x_bits, last_fit(s2, len, 0x32, 8), b, 4)
    &&& opt1(d.relative_velocity_variance_bits, last_fit(s2, len, 0x41, 4), b, 0)
    &&& opt2(d.projection_bias_bits, last_fit(s2, len, 0x72, 8), b)
    &&& opt_track(d.scale_x_track, last_fit(s2, len, 0x27, 8), b)
    &&& opt_track(d.scale_y_track, last_fit(s2, len, 0x28, 8), b)
    &&& opt_track(d.scale_z_track, last_fit(s2, len, 0x29, 8), b)
    &&& opt_track(d.alpha_track, last_fit(s2, len, 0x2D, 8), b)
    &&& opt_track(d.color_r_track, last_fit(s2, len, 0x2A, 8), b)
    &&& opt_track(d.color_g_track, last_fit(s2, len, 0x2B, 8), b)
    &&& opt_track(d.color_b_track, last_fit(s2, len, 0x2C, 8), b)
    &&& opt1(d.reverse_displacement_bits, last_fit(s2, len, 0x67, 4), b, 0)
    &&& d.foot_mark == has_op(s2, 0x8E)
    &&& d.oscillation == has_op(s2, 0x3D)
    &&& d.parent_position_copy == has_op(s2, 0x45)
    &&& opt1(d.parent_velocity_bits, last_fit(s2, len, 0x46, 4), b, 0)
    &&& opt_track(d.child_generator, last_fit(s2, len, 0x44, 8), b)
    &&& opt_track(d.child_generator_2, last_fit(s2, len, 0x53, 8), b)
    &&& d.parent_rotate == has_op(s2, 0x47)
    &&& d.parent_color == has_op(s2, 0x48)
    &&& d.parent_scale == has_op(s2, 0x49)
    &&& opt_track(d.velocity_dampener_track, last_fit(s2, len, 0x69, 8), b)
    &&& opt_track(d.fixed_point_position_variance, last_fit(s2, len, 0x4E, 12), b)
    &&& opt_track(d.fixed_point_position_variance_2, last_fit(s2, len, 0x4F, 12), b)
    &&& opt2(d.oscillation_accel_z_bits, last_fit(s2, len, 0x40, 8), b)
    &&& opt2(d.oscillation_accel_x_bits, last_fit(s2, len, 0x3E, 8), b)
    &&& opt2(d.oscillation_accel_y_bits, last_fit(s2, len, 0x3F, 8), b)
    &&& d.rotation_updater == has_op(s3, 0x05)
    &&& d.scale_updater == has_op(s3, 0x08)
    &&& opt3(d.oscillation_applier_x_bits, last_fit(s3, len, 0x29, 12), b, 0)
    &&& opt3(d.oscillation_applier_z_bits, last_fit(s3, len, 0x2B, 12), b, 0)
    &&& opt3(d.oscillation_applier_y_bits, last_fit(s3, len, 0x2A, 12), b, 0)
    &&& opt3(d.accel_bits, last_fit(s3, len, 0x03, 12), b, 0)
    &&& d.moon_phase_sprite == has_op(s3, 0x45)
    &&& d.relife_on_expiry == has_op(s4, 0x05)
}

pub open spec fn s2_need(op: u8) -> Option<int> {
    match op {
        0x01 => Some(32int),
        0x02 => Some(12int),
        0x03 => Some(12int),
        0x06 => Some(8int),
        0x07 => Some(20int),
        0x08 => Some(4int),
        0x09 => Some(12int),
        0x0A => Some(12int),
        0x0B => Some(12int),
        0x0C => Some(12int),
        0x0F => Some(12int),
        0x10 => Some(12int),
        0x11 => Some(4int),
        0x12 => Some(12int),
        0x13 => Some(12int),
        0x16 => Some(4int),
        0x17 => Some(4int),
        0x19 => Some(8int),
        0x1D => Some(4int),
        0x1E => Some(1int),
        0x1F => Some(42int),
        0x27 => Some(8int),
        0x28 => Some(8int),
        0x29 => Some(8int),
        0x2A => Some(8int),
        0x2B => Some(8int),
        0x2C => Some(8int),
        0x2D => Some(8int),
        0x30 => Some(4int),
        0x32 => Some(8int),
        0x3B => Some(12int),
        0x3D => Some(0int),
        0x3E => Some(8int),
        0x3F => Some(8int),
        0x40 => Some(8int),
        0x41 => Some(4int),
        0x44 => Some(8int),
        0x45 => Some(0int),
        0x46 => Some(4int),
        0x47 => Some(0int),
        0x48 => Some(0int),
        0x49 => Some(0int),
        0x4E => Some(12int),
        0x4F => Some(12int),
        0x53 => Some(8int),
        0x55 => Some(36int),
        0x5A => Some(8int),
        0x5B => Some(8int),
        0x60 => Some(8int),
        0x61 => Some(8int),
        0x62 => Some(8int),
        0x63 => Some(8int),
        0x67 => Some(4int),
        0x69 => Some(8int),
        0x72 => Some(8int),
        0x82 => Some(8int),
        0x8E => Some(0int),
        _ => None,
    }
}

pub open spec fn s3_need(op: u8) -> Option<int> {
    match op {
        0x03 => Some(12int),
        0x05 => Some(0int),
        0x08 => Some(0int),
        0x27 => Some(4int),
        0x28 => Some(4int),
        0x29 => Some(12int),
        0x2A => Some(12int),
        0x2B => Some(12int),
        0x3C => Some(0int),
        0x3D => Some(0int),
        0x3E => Some(0int),
        0x3F => Some(0int),
        0x45 => Some(0int),
        0x4E => Some(36int),
        0x4F => Some(52int),
        _ => None,
    }
}

pub open spec fn s1_need(op: u8) -> Option<int> {
    match op {
        0x0A => Some(12int),
        0x11 => Some(4int),
        _ => None,
    }
}

pub open spec fn s4_need(op: u8) -> Option<int> {
    match op {
        0x05 => Some(0int),
        _ => None,
    }
}

/// The payload bytes an arm of `section` reads for `op`, none for an opcode no
/// arm handles.
pub open spec fn need_for(section: GeneratorSection, op: u8) -> Option<int> {
    match section {
        GeneratorSection::Setup => s1_need(op),
        GeneratorSection::Initializers => s2_need(op),
        GeneratorSection::Updaters => s3_need(op),
        GeneratorSection::ElementDie => s4_need(op),
        GeneratorSection::SoundSetup => None,
    }
}

/// Whether an arm reads the block.
pub open spec fn decoded(section: GeneratorSection, bk: GeneratorBlock, len: int) -> bool {
    match need_for(section, bk.opcode) {
        Some(n) => bk.payload + n <= len,
        None => false,
    }
}

pub open spec fn section_reports(section: GeneratorSection, s: Seq<GeneratorBlock>, len: int) -> Seq<(GeneratorSection, u8, GeneratorOpcodeOutcome)> {
    s.map_values(|bk: GeneratorBlock| report(section, bk, decoded(section, bk, len)))
}

/// The reports of a particle generator: its initializers, updaters, setup and
/// element-die blocks, each in stream order.
pub open spec fn particle_reports(b: Seq<u8>) -> Seq<(GeneratorSection, u8, GeneratorOpcodeOutcome)> {
    let len = b.len() as int;
    section_reports(GeneratorSection::Initializers, spec_section(b, SEC2_OFFSET as int), len)
        + section_reports(GeneratorSection::Updaters, spec_section(b, SEC3_OFFSET as int), len)
        + section_reports(GeneratorSection::Setup, spec_section(b, SEC1_OFFSET as int), len)
        + section_reports(GeneratorSection::ElementDie, spec_section(b, SEC4_OFFSET as int), len)
}

fn s2_need_of(op: u8) -> (r: Option<usize>)
    ensures
        match r {
            Some(n) => s2_need(op) == Some(n as int),
            None => s2_need(op) is None,
        },
{
    match op {
        0x01 => Some(32usize),
        0x02 => Some(12usize),
        0x03 => Some(12usize),
        0x06 => Some(8usize),
        0x07 => Some(20usize),
        0x08 => Some(4usize),
        0x09 => Some(12usize),
        0x0A => Some(12usize),
        0x0B => Some(12usize),
        0x0C => Some(12usize),
        0x0F => Some(12usize),
        0x10 => Some(12usize),
        0x11 => Some(4usize),
        0x12 => Some(12usize),
        0x13 => Some(12usize),
        0x16 => Some(4usize),
        0x17 => Some(4usize),
        0x19 => Some(8usize),
        0x1D => Some(4usize),
        0x1E => Some(1usize),
        0x1F => Some(42usize),
        0x27 => Some(8usize),
        0x28 => Some(8usize),
        0x29 => Some(8usize),
        0x2A => Some(8usize),
        0x2B => Some(8usize),
        0x2C => Some(8usize),
        0x2D => Some(8usize),
        0x30 => Some(4usize),
        0x32 => Some(8usize),
        0x3B => Some(12usize),
        0x3D => Some(0usize),
        0x3E => Some(8usize),
        0x3F => Some(8usize),
        0x40 => Some(8usize),
        0x41 => Some(4usize),
        0x44 => Some(8usize),
        0x45 => Some(0usize),
        0x46 => Some(4usize),
        0x47 => Some(0usize),
        0x48 => Some(0usize),
        0x49 => Some(0usize),
        0x4E => Some(12usize),
        0x4F => Some(12usize),
        0x53 => Some(8usize),
        0x55 => Some(36usize),
        0x5A => Some(8usize),
        0x5B => Some(8usize),
        0x60 => Some(8usize),
        0x61 => Some(8usize),
        0x62 => Some(8usize),
        0x63 => Some(8usize),
        0x67 => Some(4usize),
        0x69 => Some(8usize),
        0x72 => Some(8usize),
        0x82 => Some(8usize),
        0x8E => Some(0usize),
        _ => None,
    }
}

fn s3_need_of(op: u8) -> (r: Option<usize>)
    ensures
        match r {
            Some(n) => s3_need(op) == Some(n as int),
            None => s3_need(op) is None,
        },
{
    match op {
        0x03 => Some(12usize),
        0x05 => Some(0usize),
        0x08 => Some(0usize),
        0x27 => Some(4usize),
        0x28 => Some(4usize),
        0x29 => Some(12usize),
        0x2A => Some(12usize),
        0x2B => Some(12usize),
        0x3C => Some(0usize),
        0x3D => Some(0usize),
        0x3E => Some(0usize),
        0x3F => Some(0usize),
        0x45 => Some(0usize),
        0x4E => Some(36usize),
        0x4F => Some(52usize),
        _ => None,
    }
}

fn s1_need_of(op: u8) -> (r: Option<usize>)
    ensures
        match r {
            Some(n) => s1_need(op) == Some(n as int),
            None => s1_need(op) is None,
        },
{
    match op {
        0x0A => Some(12usize),
        0x11 => Some(4usize),
        _ => None,
    }
}

fn s4_need_of(op: u8) -> (r: Option<usize>)
    ensures
        match r {
            Some(n) => s4_need(op) == Some(n as int),
            None => s4_need(op) is None,
        },
{
    match op {
        0x05 => Some(0usize),
        _ => None,
    }
}

fn need_for_of(section: GeneratorSection, op: u8) -> (r: Option<usize>)
    ensures
        match r {
            Some(n) => need_for(section, op) == Some(n as int),
            None => need_for(section, op) is None,
        },
{
    match section {
        GeneratorSection::Setup => s1_need_of(op),
        GeneratorSection::Initializers => s2_need_of(op),
        GeneratorSection::Updaters => s3_need_of(op),
        GeneratorSection::ElementDie => s4_need_of(op),
        GeneratorSection::SoundSetup => None,
    }
}

fn push_reports(out: &mut Vec<(GeneratorSection, u8, GeneratorOpcodeOutcome)>, section: GeneratorSection, blocks: &Vec<GeneratorBlock>, len: usize)
    ensures
        final(out)@ == old(out)@ + section_reports(section, blocks@, len as int),
{
    let ghost start = out@;
    let mut i: usize = 0;
    while i < blocks.len()
        invariant
            i <= blocks@.len(),
            out@ == start + section_reports(section, blocks@.take(i as int), len as int),
        decreases blocks.len() - i,
    {
        let bk = blocks[i];
        let dec = match need_for_of(section, bk.opcode) {
            Some(n) => bk.payload <= len && len - bk.payload >= n,
            None => false,
        };
        out.push(
            (
                section,
                bk.opcode,
                if dec {
                    GeneratorOpcodeOutcome::Decoded
                } else {
                    GeneratorOpcodeOutcome::Dropped
                },
            ),
        );
        proof {
            assert(blocks@.take(i + 1) =~= blocks@.take(i as int).push(bk));
            assert(section_reports(section, blocks@.take(i + 1), len as int) =~= section_reports(
                section,
                blocks@.take(i as int),
                len as int,
            ).push(report(section, bk, decoded(section, bk, len as int))));
        }
        i += 1;
    }
    proof {
        assert(blocks@.take(i as int) =~= blocks@);
    }
}

fn dword(b: &[u8], o: usize) -> (r: u32)
    requires
        o + 4 <= b@.len(),
    ensures
        r == le32(b@, o as int),
{
    read_u32_le(b, o).unwrap()
}

fn half(b: &[u8], o: usize) -> (r: u16)
    requires
        o + 2 <= b@.len(),
    ensures
        r == le16(b@, o as int),
{
    read_u16_le(b, o).unwrap()
}

fn words3(b: &[u8], o: usize) -> (r: [u32; 3])
    requires
        o + 12 <= b@.len(),
    ensures
        r@ == words(b@, o as int, 3),
{
    let _ = b.len();
    let r = [dword(b, o), dword(b, o + 4), dword(b, o + 8)];
    assert(r@ =~= words(b@, o as int, 3));
    r
}

fn words2(b: &[u8], o: usize) -> (r: [u32; 2])
    requires
        o + 8 <= b@.len(),
    ensures
        r@ == words(b@, o as int, 2),
{
    let _ = b.len();
    let r = [dword(b, o), dword(b, o + 4)];
    assert(r@ =~= words(b@, o as int, 2));
    r
}

fn bytes4(b: &[u8], o: usize) -> (r: [u8; 4])
    requires
        o + 4 <= b@.len(),
    ensures
        r@ == b@.subrange(o as int, o + 4),
{
    let r = [b[o], b[o + 1], b[o + 2], b[o + 3]];
    assert(r@ =~= b@.subrange(o as int, o + 4));
    r
}

fn or3_of(b: &[u8], last: Option<GeneratorBlock>, dflt: u32) -> (r: [u32; 3])
    requires
        last matches Some(bk) ==> bk.payload + 12 <= b@.len(),
    ensures
        or3(r, last, b@, dflt),
{
    match last {
        Some(bk) => words3(b, bk.payload),
        None => {
            let r = [dflt, dflt, dflt];
            assert(r@ =~= seq![dflt, dflt, dflt]);
            r
        },
    }
}

fn opt3_of(b: &[u8], last: Option<GeneratorBlock>, off: usize) -> (r: Option<[u32; 3]>)
    requires
        last matches Some(bk) ==> bk.payload + off + 12 <= b@.len(),
    ensures
        opt3(r, last, b@, off as int),
{
    let _ = b.len();
    match last {
        Some(bk) => Some(words3(b, bk.payload + off)),
        None => None,
    }
}

fn opt2_of(b: &[u8], last: Option<GeneratorBlock>) -> (r: Option<[u32; 2]>)
    requires
        last matches Some(bk) ==> bk.payload + 8 <= b@.len(),
    ensures
        opt2(r, last, b@),
{
    match last {
        Some(bk) => Some(words2(b, bk.payload)),
        None => None,
    }
}

fn opt1_of(b: &[u8], last: Option<GeneratorBlock>, off: usize) -> (r: Option<u32>)
    requires
        last matches Some(bk) ==> bk.payload + off + 4 <= b@.len(),
    ensures
        opt1(r, last, b@, off as int),
{
    let _ = b.len();
    match last {
        Some(bk) => Some(dword(b, bk.payload + off)),
        None => None,
    }
}

fn id_of(b: &[u8], o: usize) -> (r: Option<[u8; 4]>)
    requires
        o + 4 <= b@.len(),
    ensures
        id_at(r, b@, o as int),
{
    let id = bytes4(b, o);
    if id[0] == 0 && id[1] == 0 && id[2] == 0 && id[3] == 0 {
        assert(id@ =~= seq![0u8, 0u8, 0u8, 0u8]);
        None
    } else {
        assert(id@ != seq![0u8, 0u8, 0u8, 0u8]) by {
            if id@ == seq![0u8, 0u8, 0u8, 0u8] {
                assert(id@[0] == 0 && id@[1] == 0 && id@[2] == 0 && id@[3] == 0);
            }
        }
        Some(id)
    }
}

fn track_of(b: &[u8], last: Option<GeneratorBlock>) -> (r: Option<[u8; 4]>)
    requires
        last matches Some(bk) ==> bk.payload + 8 <= b@.len(),
    ensures
        opt_track(r, last, b@),
{
    let _ = b.len();
    match last {
        Some(bk) => id_of(b, bk.payload + 4),
        None => None,
    }
}

fn find_last2(blocks: &Vec<GeneratorBlock>, len: usize, op1: u8, n1: usize, op2: u8, n2: usize) -> (r: Option<GeneratorBlock>)
    ensures
        r == last_fit2(blocks@, len as int, op1, n1 as int, op2, n2 as int),
        r matches Some(bk) ==> (bk.opcode == op1 && bk.payload + n1 <= len) || (bk.opcode == op2
            && bk.payload + n2 <= len),
{
    let mut i = blocks.len();
    assert(blocks@.take(i as int) =~= blocks@);
    while i > 0
        invariant
            i <= blocks@.len(),
            last_fit2(blocks@, len as int, op1, n1 as int, op2, n2 as int) == last_fit2(
                blocks@.take(i as int),
                len as int,
                op1,
                n1 as int,
                op2,
                n2 as int,
            ),
        decreases i,
    {
        let bk = blocks[i - 1];
        assert(blocks@.take(i as int).drop_last() =~= blocks@.take(i - 1));
        assert(blocks@.take(i as int).last() == bk);
        if (bk.opcode == op1 && bk.payload <= len && len - bk.payload >= n1) || (bk.opcode == op2
            && bk.payload <= len && len - bk.payload >= n2) {
            return Some(bk);
        }
        i -= 1;
    }
    None
}

fn to_i16(v: u16) -> (r: i16)
    ensures
        r as int == signed16(v as int),
{
    if v >= 32768 {
        (v as i32 - 65536) as i16
    } else {
        v as i16
    }
}

fn quads8(b: &[u8], p: usize) -> (r: [[u8; 4]; 8])
    requires
        p + 36 <= b@.len(),
    ensures
        quads_match(r@, b@, p as int, 8),
{
    let len = b.len();
    let mut q = [[0u8; 4]; 8];
    let mut i: usize = 0;
    while i < 8
        invariant
            i <= 8,
            len == b@.len(),
            p + 36 <= b@.len(),
            forall|k: int| 0 <= k < i ==> (#[trigger] q@[k])@ == b@.subrange(p + 4 + 4 * k, p + 8 + 4 * k),
        decreases 8 - i,
    {
        q[i] = bytes4(b, p + 4 + 4 * i);
        i += 1;
    }
    q
}

fn quads12(b: &[u8], p: usize) -> (r: [[u8; 4]; 12])
    requires
        p + 52 <= b@.len(),
    ensures
        quads_match(r@, b@, p as int, 12),
{
    let len = b.len();
    let mut q = [[0u8; 4]; 12];
    let mut i: usize = 0;
    while i < 12
        invariant
            i <= 12,
            len == b@.len(),
            p + 52 <= b@.len(),
            forall|k: int| 0 <= k < i ==> (#[trigger] q@[k])@ == b@.subrange(p + 4 + 4 * k, p + 8 + 4 * k),
        decreases 12 - i,
    {
        q[i] = bytes4(b, p + 4 + 4 * i);
        i += 1;
    }
    q
}

fn blend_from(p0: u8) -> (r: ParticleBlend)
    ensures
        r == blend_of(p0),
{
    if (p0 / 16) % 2 == 1 {
        ParticleBlend::Blend
    } else if p0 % 16 == 8 {
        ParticleBlend::Additive
    } else if p0 % 16 == 1 || p0 % 16 == 2 {
        ParticleBlend::Subtract
    } else {
        ParticleBlend::Blend
    }
}

impl ParticleGeneratorDef {
    /// Reads a generator as a particle emitter: an error for a body shorter than
    /// the header, `None` when its setup links no particle mesh, else the
    /// emitter and, section by section, what became of each block.
    #[verifier::rlimit(60)]
    #[verifier::spinoff_prover]
    pub fn parse_reporting(b: &[u8]) -> (r: Result<Option<(ParticleGeneratorDef, Vec<(GeneratorSection, u8, GeneratorOpcodeOutcome)>)>, DatError>)
        ensures
            b@.len() < 0x80 <==> r is Err,
            r is Err ==> r == Err::<Option<(ParticleGeneratorDef, Vec<(GeneratorSection, u8, GeneratorOpcodeOutcome)>)>, DatError>(
                DatError::TruncatedChunk { offset: 0, needed: 0x80, available: b@.len() as usize },
            ),
            r matches Ok(o) ==> (o is Some <==> is_particle(b@)),
            r matches Ok(Some(x)) ==> particle_matches(x.0, b@) && x.1@ == particle_reports(b@),
    {
        let h = match read_header(b) {
            Err(e) => return Err(e),
            Ok(h) => h,
        };
        let len = b.len();
        let s2 = section_blocks(b, SEC2_OFFSET);
        let setup = match find_last(&s2, len, 0x01, 32) {
            None => return Ok(None),
            Some(bk) => bk,
        };
        let p = setup.payload;
        let linked = b[p + 29];
        if linked != LINKED_DATA_STATIC_MESH && linked != LINKED_DATA_SPRITE_SHEET {
            return Ok(None);
        }
        let s3 = section_blocks(b, SEC3_OFFSET);
        let s1 = section_blocks(b, SEC1_OFFSET);
        let s4 = section_blocks(b, SEC4_OFFSET);
        let bb = half(b, p);
        let rs = half(b, p + 2);
        let follow_camera = (bb / 4) % 2 == 1;
        let camera_attached_base = (rs / 0x400) % 2 == 1;
        let position_variance = match find_last2(&s2, len, 0x06, 8, 0x07, 20) {
            Some(bk) => Some(
                PositionVariance {
                    radius_variance_bits: dword(b, bk.payload),
                    base_radius_bits: dword(b, bk.payload + 4),
                    axis_scale_bits: if bk.opcode == 0x06 {
                        let a = [ONE_BITS, ONE_BITS, ONE_BITS];
                        assert(a@ =~= seq![ONE_BITS, ONE_BITS, ONE_BITS]);
                        a
                    } else {
                        words3(b, bk.payload + 8)
                    },
                },
            ),
            None => None,
        };
        let spherical_full = match find_last(&s2, len, 0x1F, 42) {
            Some(bk) => {
                let q = bk.payload;
                let steps = half(b, q + 40);
                Some(
                    SphericalPositionVarianceFull {
                        radius_variance_bits: dword(b, q),
                        base_radius_bits: dword(b, q + 4),
                        axis_scale_bits: words3(b, q + 8),
                        rotation_z_bits: dword(b, q + 20),
                        rotation_y_bits: dword(b, q + 24),
                        tilt_bits: dword(b, q + 28),
                        tilt_variance_bits: dword(b, q + 32),
                        camera_oriented: dword(b, q + 36) % 2 == 1,
                        azimuth_steps: if steps == 0 {
                            0
                        } else {
                            steps as u32 + 1
                        },
                    },
                )
            },
            None => None,
        };
        let specular = match find_last(&s2, len, 0x55, 36) {
            Some(bk) => {
                let q = bk.payload;
                Some(
                    SpecularParams {
                        vector_bits: words3(b, q),
                        texture: id_of(b, q + 12),
                        unknown_a_bits: dword(b, q + 20),
                        unknown_b_bits: dword(b, q + 24),
                        color_bgra: bytes4(b, q + 28),
                        flags: dword(b, q + 32),
                    },
                )
            },
            None => None,
        };
        let sort_offset_bits = match find_last2(&s2, len, 0x30, 4, 0x72, 8) {
            Some(bk) => dword(b, bk.payload),
            None => 0,
        };
        let init_color = match find_last(&s2, len, 0x16, 4) {
            Some(bk) => bytes4(b, bk.payload),
            None => {
                let c = [255u8, 255u8, 255u8, 255u8];
                assert(c@ =~= seq![255u8, 255u8, 255u8, 255u8]);
                c
            },
        };
        let color_variance = match find_last(&s2, len, 0x17, 4) {
            Some(bk) => Some(bytes4(b, bk.payload)),
            None => None,
        };
        let color_transform = match find_last(&s2, len, 0x19, 8) {
            Some(bk) => {
                let q = bk.payload;
                let c = [to_i16(half(b, q)), to_i16(half(b, q + 2)), to_i16(half(b, q + 4)), to_i16(half(b, q + 6))];
                assert forall|k: int| 0 <= k < 4 implies (#[trigger] c@[k]) as int == signed16(le16(b@, q + 2 * k)) by {
                    if k == 0 {
                    } else if k == 1 {
                    } else if k == 2 {
                    } else {
                    }
                }
                Some(c)
            },
            None => None,
        };
        let (blend, blend_byte) = match find_last(&s2, len, 0x1E, 1) {
            Some(bk) => (blend_from(b[bk.payload]), b[bk.payload]),
            None => (ParticleBlend::Additive, 0u8),
        };
        let tod_color_tracks = [
            track_of(b, find_last(&s2, len, 0x60, 8)),
            track_of(b, find_last(&s2, len, 0x61, 8)),
            track_of(b, find_last(&s2, len, 0x62, 8)),
            track_of(b, find_last(&s2, len, 0x63, 8)),
        ];
        let tod_color_driven = [any_op(&s3, 0x3C), any_op(&s3, 0x3D), any_op(&s3, 0x3E), any_op(&s3, 0x3F)];
        let uv_scroll_bits = [
            match find_last(&s3, len, 0x27, 4) {
                Some(bk) => dword(b, bk.payload),
                None => 0,
            },
            match find_last(&s3, len, 0x28, 4) {
                Some(bk) => dword(b, bk.payload),
                None => 0,
            },
        ];
        let day_of_week_color = match find_last(&s3, len, 0x4E, 36) {
            Some(bk) => Some(quads8(b, bk.payload)),
            None => None,
        };
        let moon_phase_color = match find_last(&s3, len, 0x4F, 52) {
            Some(bk) => Some(quads12(b, bk.payload)),
            None => None,
        };
        let emit_cull = match find_last(&s1, len, 0x0A, 12) {
            Some(bk) => Some(
                EmitCull {
                    max_distance_bits: dword(b, bk.payload),
                    min_distance_bits: dword(b, bk.payload + 4),
                    unlink_out_of_range: dword(b, bk.payload + 8) % 2 == 1,
                },
            ),
            None => None,
        };
        let association = match find_last(&s1, len, 0x11, 4) {
            Some(bk) => {
                let cfg = dword(b, bk.payload);
                Some(AssociationFollow { follow_position: cfg % 2 == 1, follow_facing: (cfg / 2) % 2 == 1, factor: cfg / 4 })
            },
            None => None,
        };
    let init_velocity_bits = or3_of(b, find_last(&s2, len, 0x02, 12), 0);
    let velocity_variance_bits = opt3_of(b, find_last(&s2, len, 0x03, 12), 0);
    let relative_velocity_bits = opt1_of(b, find_last(&s2, len, 0x08, 4), 0);
    let init_rotation_bits = or3_of(b, find_last(&s2, len, 0x09, 12), 0);
    let rotation_variance_bits = opt3_of(b, find_last(&s2, len, 0x0A, 12), 0);
    let rotation_velocity_bits = opt3_of(b, find_last(&s2, len, 0x0B, 12), 0);
    let rotation_velocity_variance_bits = opt3_of(b, find_last(&s2, len, 0x0C, 12), 0);
    let scale_velocity_variance_bits = opt3_of(b, find_last(&s2, len, 0x13, 12), 0);
    let incremental_rotation_bits = opt3_of(b, find_last(&s2, len, 0x3B, 12), 0);
    let init_scale_bits = or3_of(b, find_last(&s2, len, 0x0F, 12), ONE_BITS);
    let scale_variance_bits = opt3_of(b, find_last(&s2, len, 0x10, 12), 0);
    let single_scale_variance_bits = opt1_of(b, find_last(&s2, len, 0x11, 4), 0);
    let scale_velocity_bits = opt3_of(b, find_last(&s2, len, 0x12, 12), 0);
    let specular_rot_y_track = track_of(b, find_last(&s2, len, 0x5A, 8));
    let specular_rot_z_track = track_of(b, find_last(&s2, len, 0x5B, 8));
    let camera_shake_track = track_of(b, find_last(&s2, len, 0x82, 8));
    let haze_offset_x_bits = opt1_of(b, find_last(&s2, len, 0x32, 8), 4);
    let relative_velocity_variance_bits = opt1_of(b, find_last(&s2, len, 0x41, 4), 0);
    let projection_bias_bits = opt2_of(b, find_last(&s2, len, 0x72, 8));
    let scale_x_track = track_of(b, find_last(&s2, len, 0x27, 8));
    let scale_y_track = track_of(b, find_last(&s2, len, 0x28, 8));
    let scale_z_track = track_of(b, find_last(&s2, len, 0x29, 8));
    let alpha_track = track_of(b, find_last(&s2, len, 0x2D, 8));
    let color_r_track = track_of(b, find_last(&s2, len, 0x2A, 8));
    let color_g_track = track_of(b, find_last(&s2, len, 0x2B, 8));
    let color_b_track = track_of(b, find_last(&s2, len, 0x2C, 8));
    let reverse_displacement_bits = opt1_of(b, find_last(&s2, len, 0x67, 4), 0);
    let foot_mark = any_op(&s2, 0x8E);
    let oscillation = any_op(&s2, 0x3D);
    let parent_position_copy = any_op(&s2, 0x45);
    let parent_velocity_bits = opt1_of(b, find_last(&s2, len, 0x46, 4), 0);
    let child_generator = track_of(b, find_last(&s2, len, 0x44, 8));
    let child_generator_2 = track_of(b, find_last(&s2, len, 0x53, 8));
    let parent_rotate = any_op(&s2, 0x47);
    let parent_color = any_op(&s2, 0x48);
    let parent_scale = any_op(&s2, 0x49);
    let velocity_dampener_track = track_of(b, find_last(&s2, len, 0x69, 8));
    let fixed_point_position_variance = track_of(b, find_last(&s2, len, 0x4E, 12));
    let fixed_point_position_variance_2 = track_of(b, find_last(&s2, len, 0x4F, 12));
    let oscillation_accel_z_bits = opt2_of(b, find_last(&s2, len, 0x40, 8));
    let oscillation_accel_x_bits = opt2_of(b, find_last(&s2, len, 0x3E, 8));
    let oscillation_accel_y_bits = opt2_of(b, find_last(&s2, len, 0x3F, 8));
    let rotation_updater = any_op(&s3, 0x05);
    let scale_updater = any_op(&s3, 0x08);
    let oscillation_applier_x_bits = opt3_of(b, find_last(&s3, len, 0x29, 12), 0);
    let oscillation_applier_z_bits = opt3_of(b, find_last(&s3, len, 0x2B, 12), 0);
    let oscillation_applier_y_bits = opt3_of(b, find_last(&s3, len, 0x2A, 12), 0);
    let accel_bits = opt3_of(b, find_last(&s3, len, 0x03, 12), 0);
    let moon_phase_sprite = any_op(&s3, 0x45);
    let relife_on_expiry = any_op(&s4, 0x05);
        let d = ParticleGeneratorDef {
            frames_per_emission: h.frames_per_emission,
            particles_per_emission: h.particles_per_emission,
            emission_variance: h.emission_variance,
            mesh_id: bytes4(b, p + 8),
            mesh_kind: if linked == LINKED_DATA_STATIC_MESH {
                ParticleMeshKind::StaticMesh
            } else {
                ParticleMeshKind::SpriteSheet
            },
            base_position_bits: words3(b, p + 16),
            max_life_frames: half(b, p + 30),
            camera_billboard: bb % 2 == 1 || (bb / 64) % 4 == 3,
            billboard: ParticleBillboard::from_flags(bb),
            camera_relative: follow_camera || camera_attached_base,
            follow_camera,
            camera_attached_base,
            position_variance,
            spherical_full,
            continuous: h.continuous,
            auto_run: h.auto_run,
            batched: h.batched,
            attach_type: h.attach_type,
            attach_joint_source: h.attach_joint_source,
            attach_joint_target: h.attach_joint_target,
            attach_source_oriented: h.attach_source_oriented,
            init_color,
            color_variance,
            color_transform,
            blend,
            blend_byte,
            ignore_texture_alpha: (rs / 0x1000) % 2 == 1,
            fog_enabled: (rs / 0x200) % 2 == 0,
            draw_priority: if (rs / 0x800) % 2 == 1 {
                DrawPriority::Low
            } else if (rs / 0x40) % 2 == 1 {
                DrawPriority::Pinned
            } else {
                DrawPriority::Depth
            },
            sort_offset_bits,
            depth_write: (bb / 0x1000) % 2 == 1,
            day_of_week_color,
            moon_phase_color,
            tod_color_tracks,
            tod_color_driven,
            uv_scroll_bits,
            emit_cull,
            association,
            specular_element: (rs / 0x100) % 2 == 1,
            specular,
        init_velocity_bits,
        velocity_variance_bits,
        relative_velocity_bits,
        init_rotation_bits,
        rotation_variance_bits,
        rotation_velocity_bits,
        rotation_velocity_variance_bits,
        scale_velocity_variance_bits,
        incremental_rotation_bits,
        init_scale_bits,
        scale_variance_bits,
        single_scale_variance_bits,
        scale_velocity_bits,
        specular_rot_y_track,
        specular_rot_z_track,
        camera_shake_track,
        haze_offset_x_bits,
        relative_velocity_variance_bits,
        projection_bias_bits,
        scale_x_track,
        scale_y_track,
        scale_z_track,
        alpha_track,
        color_r_track,
        color_g_track,
        color_b_track,
        reverse_displacement_bits,
        foot_mark,
        oscillation,
        parent_position_copy,
        parent_velocity_bits,
        child_generator,
        child_generator_2,
        parent_rotate,
        parent_color,
        parent_scale,
        velocity_dampener_track,
        fixed_point_position_variance,
        fixed_point_position_variance_2,
        oscillation_accel_z_bits,
        oscillation_accel_x_bits,
        oscillation_accel_y_bits,
        rotation_updater,
        scale_updater,
        oscillation_applier_x_bits,
        oscillation_applier_z_bits,
        oscillation_applier_y_bits,
        accel_bits,
        moon_phase_sprite,
        relife_on_expiry,
        };
        assert(d.tod_color_driven@ =~= seq![has_op(s3@, 0x3C), has_op(s3@, 0x3D), has_op(s3@, 0x3E), has_op(s3@, 0x3F)]);
        let mut reps: Vec<(GeneratorSection, u8, GeneratorOpcodeOutcome)> = Vec::new();
        push_reports(&mut reps, GeneratorSection::Initializers, &s2, len);
        push_reports(&mut reps, GeneratorSection::Updaters, &s3, len);
        push_reports(&mut reps, GeneratorSection::Setup, &s1, len);
        push_reports(&mut reps, GeneratorSection::ElementDie, &s4, len);
        proof {
            assert(reps@ =~= particle_reports(b@));
        }
        Ok(Some((d, reps)))
    }

    /// Reads a generator as a particle emitter, without the block reports.
    pub fn parse(b: &[u8]) -> (r: Result<Option<ParticleGeneratorDef>, DatError>)
        ensures
            b@.len() < 0x80 <==> r is Err,
            r matches Ok(o) ==> (o is Some <==> is_particle(b@)),
            r matches Ok(Some(d)) ==> particle_matches(d, b@),
    {
        match ParticleGeneratorDef::parse_reporting(b) {
            Err(e) => Err(e),
            Ok(None) => Ok(None),
            Ok(Some((d, _))) => Ok(Some(d)),
        }
    }

    /// The rotation rate the element turns by: only with a rotation updater.
    pub fn spin(&self) -> (r: Option<[u32; 3]>)
        ensures
            r == if self.rotation_updater {
                self.rotation_velocity_bits
            } else {
                None::<[u32; 3]>
            },
    {
        if self.rotation_updater {
            self.rotation_velocity_bits
        } else {
            None
        }
    }

    /// The scale rate the element changes by: only with a scale updater.
    pub fn scale_rate(&self) -> (r: Option<[u32; 3]>)
        ensures
            r == if self.scale_updater {
                self.scale_velocity_bits
            } else {
                None::<[u32; 3]>
            },
    {
        if self.scale_updater {
            self.scale_velocity_bits
        } else {
            None
        }
    }

    /// A zero life: one live element, re-emitted only once it is gone.
    pub fn is_singleton(&self) -> (r: bool)
        ensures
            r == (self.max_life_frames == 0),
    {
        self.max_life_frames == 0
    }
}

} // verus!
