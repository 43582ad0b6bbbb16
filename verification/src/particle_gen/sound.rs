//! Generators whose setup links a sound (`Sep`) resource: placed sound
//! emitters rather than particles.

use vstd::prelude::*;
use crate::bytes::le32;
use crate::error::DatError;
use crate::particle_gen::stream::{
    find_last, last_fit, read_header, report, section_blocks, spec_section, GeneratorBlock,
    GeneratorHeader, header_matches, SEC2_OFFSET,
};
use crate::particle_gen::{AttachType, GeneratorOpcodeOutcome, GeneratorSection};

verus! {

/// The setup's linked-data type that makes a generator a sound emitter.
pub const LINKED_DATA_SOUND: u8 = 0x3D;
/// The sound elem's setup: far then near distance; a third word is ignored.
pub const SOUND_SETUP_OPCODE: u8 = 0x4C;
/// The standard setup block every generator kind opens with.
pub const OPCODE_STANDARD_SETUP: u8 = 0x01;

/// A placed sound emitter. `f32` fields are kept as their bit patterns.
#[derive(Debug, Clone, Copy, PartialEq, Eq)]
pub struct SoundGeneratorDef {
    pub sep_id: [u8; 4],
    pub base_position_bits: [u32; 3],
    /// Zero is not silence: the class defaults stand in for it.
    pub far_bits: u32,
    pub near_bits: u32,
    /// The re-emission period is this plus a random share of the variance.
    pub frames_per_emission: u32,
    pub emission_variance: u16,
    pub auto_run: bool,
    /// A continuous generator never runs the timed emission loop.
    pub continuous: bool,
    pub max_life_frames: u16,
    pub attach_type: AttachType,
}

/// Whether a sound-setup block is read by an arm.
pub open spec fn sound_decoded(bk: GeneratorBlock, len: int) -> bool {
    (bk.opcode == OPCODE_STANDARD_SETUP && bk.payload + 32 <= len) || (bk.opcode == SOUND_SETUP_OPCODE
        && bk.payload + 8 <= len)
}

/// The generator is a sound emitter: its last readable setup links a sound.
pub open spec fn is_sound(b: Seq<u8>) -> bool {
    match last_fit(spec_section(b, SEC2_OFFSET as int), b.len() as int, OPCODE_STANDARD_SETUP, 32) {
        Some(bk) => b[bk.payload + 29] == LINKED_DATA_SOUND,
        None => false,
    }
}

/// `d` is the sound emitter `b` describes.
pub open spec fn sound_matches(d: SoundGeneratorDef, b: Seq<u8>) -> bool {
    let s = spec_section(b, SEC2_OFFSET as int);
    let setup = last_fit(s, b.len() as int, OPCODE_STANDARD_SETUP, 32);
    let dist = last_fit(s, b.len() as int, SOUND_SETUP_OPCODE, 8);
    &&& setup matches Some(bk) && {
        &&& d.sep_id@ == b.subrange(bk.payload + 8, bk.payload + 12)
        &&& d.base_position_bits@ == seq![
            le32(b, bk.payload + 16) as u32,
            le32(b, bk.payload + 20) as u32,
            le32(b, bk.payload + 24) as u32,
        ]
        &&& d.max_life_frames == b[bk.payload + 30] + 256 * b[bk.payload + 31]
    }
    &&& match dist {
        Some(bk) => d.far_bits == le32(b, bk.payload as int) && d.near_bits == le32(b, bk.payload + 4),
        None => d.far_bits == 0 && d.near_bits == 0,
    }
}

fn dword(b: &[u8], o: usize) -> (r: u32)
    requires
        o + 4 <= b@.len(),
    ensures
        r == le32(b@, o as int),
{
    crate::bytes::read_u32_le(b, o).unwrap()
}

fn reports(blocks: &Vec<GeneratorBlock>, len: usize) -> (r: Vec<(GeneratorSection, u8, GeneratorOpcodeOutcome)>)
    ensures
        r@.len() == blocks@.len(),
        forall|i: int|
            0 <= i < r@.len() ==> #[trigger] r@[i] == report(
                GeneratorSection::SoundSetup,
                blocks@[i],
                sound_decoded(blocks@[i], len as int),
            ),
{
    let mut out: Vec<(GeneratorSection, u8, GeneratorOpcodeOutcome)> = Vec::new();
    let mut i: usize = 0;
    while i < blocks.len()
        invariant
            i <= blocks@.len(),
            out@.len() == i,
            forall|k: int|
                0 <= k < i ==> #[trigger] out@[k] == report(
                    GeneratorSection::SoundSetup,
                    blocks@[k],
                    sound_decoded(blocks@[k], len as int),
                ),
        decreases blocks.len() - i,
    {
        let bk = blocks[i];
        let decoded = (bk.opcode == OPCODE_STANDARD_SETUP && bk.payload <= len && len - bk.payload >= 32)
            || (bk.opcode == SOUND_SETUP_OPCODE && bk.payload <= len && len - bk.payload >= 8);
        out.push(
            (
                GeneratorSection::SoundSetup,
                bk.opcode,
                if decoded {
                    GeneratorOpcodeOutcome::Decoded
                } else {
                    GeneratorOpcodeOutcome::Dropped
                },
            ),
        );
        i += 1;
    }
    out
}

impl SoundGeneratorDef {
    /// Reads a generator as a sound emitter: an error for a body shorter than the
    /// header, `None` when it is not one (its setup links no sound), else the
    /// emitter and, in stream order, what became of each setup block.
    pub fn parse_reporting(body: &[u8]) -> (r: Result<Option<(SoundGeneratorDef, Vec<(GeneratorSection, u8, GeneratorOpcodeOutcome)>)>, DatError>)
        ensures
            body@.len() < 0x80 <==> r is Err,
            r is Err ==> r == Err::<Option<(SoundGeneratorDef, Vec<(GeneratorSection, u8, GeneratorOpcodeOutcome)>)>, DatError>(
                DatError::TruncatedChunk { offset: 0, needed: 0x80, available: body@.len() as usize },
            ),
            r matches Ok(o) ==> (o is Some <==> is_sound(body@)),
            r matches Ok(Some(x)) ==> {
                let (d, reps) = x;
                let s = spec_section(body@, SEC2_OFFSET as int);
                &&& sound_matches(d, body@)
                &&& exists|h: GeneratorHeader| {
                    &&& header_matches(h, body@)
                    &&& d.frames_per_emission == h.frames_per_emission
                    &&& d.emission_variance == h.emission_variance
                    &&& d.auto_run == h.auto_run
                    &&& d.continuous == h.continuous
                    &&& d.attach_type == h.attach_type
                }
                &&& reps@.len() == s.len()
                &&& forall|i: int|
                    0 <= i < s.len() ==> #[trigger] reps@[i] == report(
                        GeneratorSection::SoundSetup,
                        s[i],
                        sound_decoded(s[i], body@.len() as int),
                    )
            },
    {
        let h = match read_header(body) {
            Err(e) => return Err(e),
            Ok(h) => h,
        };
        let len = body.len();
        let blocks = section_blocks(body, SEC2_OFFSET);
        let setup = match find_last(&blocks, len, OPCODE_STANDARD_SETUP, 32) {
            None => return Ok(None),
            Some(bk) => bk,
        };
        let p = setup.payload;
        if body[p + 29] != LINKED_DATA_SOUND {
            return Ok(None);
        }
        let (far_bits, near_bits) = match find_last(&blocks, len, SOUND_SETUP_OPCODE, 8) {
            Some(bk) => (dword(body, bk.payload), dword(body, bk.payload + 4)),
            None => (0, 0),
        };
        let d = SoundGeneratorDef {
            sep_id: [body[p + 8], body[p + 9], body[p + 10], body[p + 11]],
            base_position_bits: [dword(body, p + 16), dword(body, p + 20), dword(body, p + 24)],
            far_bits,
            near_bits,
            frames_per_emission: h.frames_per_emission,
            emission_variance: h.emission_variance,
            auto_run: h.auto_run,
            continuous: h.continuous,
            max_life_frames: body[p + 30] as u16 + 256 * body[p + 31] as u16,
            attach_type: h.attach_type,
        };
        assert(d.sep_id@ =~= body@.subrange(p + 8, p + 12));
        assert(d.base_position_bits@ =~= seq![
            le32(body@, p + 16) as u32,
            le32(body@, p + 20) as u32,
            le32(body@, p + 24) as u32,
        ]);
        let reps = reports(&blocks, len);
        Ok(Some((d, reps)))
    }

    /// Reads a generator as a sound emitter, without the block reports.
    pub fn parse(body: &[u8]) -> (r: Result<Option<SoundGeneratorDef>, DatError>)
        ensures
            body@.len() < 0x80 <==> r is Err,
            r matches Ok(o) ==> (o is Some <==> is_sound(body@)),
            r matches Ok(Some(d)) ==> sound_matches(d, body@),
    {
        match SoundGeneratorDef::parse_reporting(body) {
            Err(e) => Err(e),
            Ok(None) => Ok(None),
            Ok(Some((d, _))) => Ok(Some(d)),
        }
    }

    /// Placed somewhere: some position component is not zero (of either sign).
    pub fn is_placed(&self) -> (r: bool)
        ensures
            r == (self.base_position_bits[0] % 0x8000_0000 != 0 || self.base_position_bits[1]
                % 0x8000_0000 != 0 || self.base_position_bits[2] % 0x8000_0000 != 0),
    {
        self.base_position_bits[0] % 0x8000_0000 != 0 || self.base_position_bits[1] % 0x8000_0000
            != 0 || self.base_position_bits[2] % 0x8000_0000 != 0
    }

    /// Holds one live elem and re-emits only once it is gone.
    pub fn is_singleton(&self) -> (r: bool)
        ensures
            r == (self.continuous || self.max_life_frames == 0),
    {
        self.continuous || self.max_life_frames == 0
    }
}

} // verus!
