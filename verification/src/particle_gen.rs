//! Particle-generator chunk vocabulary: which actor a generator is attached to,
//! how its particles face the camera, and the small enumerations its opcode
//! streams are reported with.

pub mod keyframe;
pub mod particle;
pub mod sound;
pub mod stream;

use vstd::prelude::*;
pub use crate::datid::DatId;

verus! {

/// The generator opcode streams a block can belong to.
#[derive(Clone, Copy, PartialEq, Eq, Debug, Hash, PartialOrd, Ord)]
pub enum GeneratorSection {
    /// Generator-level per-frame updaters.
    Setup,
    /// Particle initializers.
    Initializers,
    /// Per-frame particle updaters.
    Updaters,
    /// The element-die script.
    ElementDie,
    /// A sound generator's setup section.
    SoundSetup,
}

#[derive(Clone, Copy, PartialEq, Eq, Debug, Hash, PartialOrd, Ord)]
pub enum GeneratorOpcodeOutcome {
    /// A section arm read the block's payload.
    Decoded,
    /// No arm matched, or its length guard failed: the payload is discarded.
    Dropped,
}

/// The particle's mesh source.
#[derive(Debug, Clone, Copy, PartialEq, Eq, Default)]
pub enum ParticleMeshKind {
    #[default]
    StaticMesh,
    SpriteSheet,
}

/// Which actor (and whose facing) a generator's emission origin is bound to.
#[derive(Debug, Clone, Copy, PartialEq, Eq, Default)]
pub enum AttachType {
    /// Bound to no actor.
    #[default]
    Unattached,
    SourceActor,
    TargetActor,
    SourceToTargetBasis,
    TargetActorSourceFacing,
    SourceActorTargetFacing,
    TargetToSourceBasis,
    SourceActorWeapon,
    ZoneActorA,
    ZoneActorB,
    ZoneActorC,
    Sun,
    Moon,
}

/// The attach type a flag nibble names; 7, 8, 0xD and anything above 0xF name none.
pub open spec fn spec_attach_type(flag: u16) -> Option<AttachType> {
    if flag == 0x0 {
        Some(AttachType::Unattached)
    } else if flag == 0x1 {
        Some(AttachType::SourceActor)
    } else if flag == 0x2 {
        Some(AttachType::TargetActor)
    } else if flag == 0x3 {
        Some(AttachType::SourceToTargetBasis)
    } else if flag == 0x4 {
        Some(AttachType::TargetActorSourceFacing)
    } else if flag == 0x5 {
        Some(AttachType::SourceActorTargetFacing)
    } else if flag == 0x6 {
        Some(AttachType::TargetToSourceBasis)
    } else if flag == 0x9 {
        Some(AttachType::SourceActorWeapon)
    } else if flag == 0xA {
        Some(AttachType::ZoneActorA)
    } else if flag == 0xB {
        Some(AttachType::ZoneActorB)
    } else if flag == 0xC {
        Some(AttachType::ZoneActorC)
    } else if flag == 0xE {
        Some(AttachType::Sun)
    } else if flag == 0xF {
        Some(AttachType::Moon)
    } else {
        None
    }
}

impl AttachType {
    pub fn from_flag(flag: u16) -> (r: Option<AttachType>)
        ensures
            r == spec_attach_type(flag),
    {
        match flag {
            0x0 => Some(AttachType::Unattached),
            0x1 => Some(AttachType::SourceActor),
            0x2 => Some(AttachType::TargetActor),
            0x3 => Some(AttachType::SourceToTargetBasis),
            0x4 => Some(AttachType::TargetActorSourceFacing),
            0x5 => Some(AttachType::SourceActorTargetFacing),
            0x6 => Some(AttachType::TargetToSourceBasis),
            0x9 => Some(AttachType::SourceActorWeapon),
            0xA => Some(AttachType::ZoneActorA),
            0xB => Some(AttachType::ZoneActorB),
            0xC => Some(AttachType::ZoneActorC),
            0xE => Some(AttachType::Sun),
            0xF => Some(AttachType::Moon),
            _ => None,
        }
    }
}

/// Where an element ranks among translucent draws.
#[derive(Debug, Clone, Copy, PartialEq, Eq, Default)]
pub enum DrawPriority {
    /// Sorted back to front by view depth with everything else.
    #[default]
    Depth,
    /// Pinned at the near end of the table, after the depth-sorted set.
    Pinned,
    /// Drawn as if far behind everything else.
    Low,
}

pub const BILLBOARD_CAMERA_MASK: u16 = 0x00C0;
pub const BILLBOARD_MOVEMENT_MASK: u16 = 0x0081;
pub const BILLBOARD_MOVEMENT_HORIZONTAL: u16 = 0x0080;
pub const BILLBOARD_MOVEMENT: u16 = 0x0040;
pub const BILLBOARD_XZ: u16 = 0x4000;
pub const BILLBOARD_XYZ: u16 = 0x0001;
/// Orthogonal to the billboard type in the same word.
pub const BILLBOARD_FOLLOW_CAMERA: u16 = 0x0004;

/// How a particle faces the camera.
#[derive(Debug, Clone, Copy, PartialEq, Eq, Default)]
pub enum ParticleBillboard {
    /// Not billboarded.
    #[default]
    Off,
    Camera,
    Movement,
    MovementHorizontal,
    Xz,
    Xyz,
}

/// The billboard type of a flags word, the bits tested in this order: both of
/// 0x00C0 is `Camera`; both of 0x0081 `Movement`; 0x0080 `MovementHorizontal`;
/// 0x0040 `Movement`; 0x4000 `Xz`; 0x0001 `Xyz`; else `Off`.
pub open spec fn spec_billboard(bb: u16) -> ParticleBillboard {
    if bb & BILLBOARD_CAMERA_MASK == BILLBOARD_CAMERA_MASK {
        ParticleBillboard::Camera
    } else if bb & BILLBOARD_MOVEMENT_MASK == BILLBOARD_MOVEMENT_MASK {
        ParticleBillboard::Movement
    } else if bb & BILLBOARD_MOVEMENT_HORIZONTAL != 0 {
        ParticleBillboard::MovementHorizontal
    } else if bb & BILLBOARD_MOVEMENT != 0 {
        ParticleBillboard::Movement
    } else if bb & BILLBOARD_XZ != 0 {
        ParticleBillboard::Xz
    } else if bb & BILLBOARD_XYZ != 0 {
        ParticleBillboard::Xyz
    } else {
        ParticleBillboard::Off
    }
}

impl ParticleBillboard {
    pub fn from_flags(bb: u16) -> (r: ParticleBillboard)
        ensures
            r == spec_billboard(bb),
    {
        if bb & BILLBOARD_CAMERA_MASK == BILLBOARD_CAMERA_MASK {
            ParticleBillboard::Camera
        } else if bb & BILLBOARD_MOVEMENT_MASK == BILLBOARD_MOVEMENT_MASK {
            ParticleBillboard::Movement
        } else if bb & BILLBOARD_MOVEMENT_HORIZONTAL != 0 {
            ParticleBillboard::MovementHorizontal
        } else if bb & BILLBOARD_MOVEMENT != 0 {
            ParticleBillboard::Movement
        } else if bb & BILLBOARD_XZ != 0 {
            ParticleBillboard::Xz
        } else if bb & BILLBOARD_XYZ != 0 {
            ParticleBillboard::Xyz
        } else {
            ParticleBillboard::Off
        }
    }
}

#[derive(Debug, Clone, Copy, PartialEq, Eq, Default)]
pub enum ParticleBlend {
    #[default]
    Additive,
    Blend,
    Subtract,
}

/// Bit 0 re-snaps the generator's associated position to the attach actor every
/// frame, bit 1 its facing; the high word is a follow-rate factor.
#[derive(Debug, Clone, Copy, PartialEq, Eq, Default)]
pub struct AssociationFollow {
    pub follow_position: bool,
    pub follow_facing: bool,
    pub factor: u32,
}

} // verus!
