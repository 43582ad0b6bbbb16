//! The block framing every generator section shares: a stream of config words,
//! each giving an opcode (low byte) and a block length in words (bits 8..13),
//! ended by a zero opcode, a zero length, or a block that would run past the body.

use vstd::prelude::*;
use crate::bytes::{le16, le32, read_u16_le, read_u32_le};
use crate::error::DatError;
use crate::particle_gen::{AttachType, GeneratorOpcodeOutcome, GeneratorSection, spec_attach_type};

verus! {

/// A generator body starts with this many header bytes, the four section
/// offsets last among them.
pub const HEADER_LEN: usize = 0x80;
/// Section offsets count from the 16-byte chunk header the body excludes.
pub const CHUNK_HEADER_LEN: usize = 0x10;
pub const SEC1_OFFSET: usize = 0x70;
pub const SEC2_OFFSET: usize = 0x74;
pub const SEC3_OFFSET: usize = 0x78;
pub const SEC4_OFFSET: usize = 0x7C;
pub const GEN_FLAGS_OFFSET: usize = 0x68;
pub const PARTICLE_COUNT_MASK: u32 = 0x1FF;
pub const GEN_FLAG_CONTINUOUS: u32 = 0x0400;
pub const GEN_FLAG_AUTO_RUN: u32 = 0x1000;
pub const GEN_FLAG_BATCHED: u32 = 0x2000_0000;

/// One block of a section: its opcode, where its payload starts (just past the
/// config word) and its whole length in bytes.
#[derive(Debug, Clone, Copy, PartialEq, Eq)]
pub struct GeneratorBlock {
    pub opcode: u8,
    pub payload: usize,
    pub len: usize,
}

/// The blocks of the stream from `cursor` on.
pub open spec fn spec_stream(b: Seq<u8>, cursor: int) -> Seq<GeneratorBlock>
    decreases b.len() - cursor,
{
    if cursor < 0 || cursor + 4 > b.len() {
        Seq::empty()
    } else {
        let cfg = le32(b, cursor);
        let op = cfg % 256;
        let words = (cfg / 256) % 32;
        if op == 0 || words == 0 || cursor + 4 * words > b.len() {
            Seq::empty()
        } else {
            seq![GeneratorBlock { opcode: op as u8, payload: (cursor + 4) as usize, len: (4 * words) as usize }]
                + spec_stream(b, cursor + 4 * words)
        }
    }
}

/// The blocks of the section whose offset word sits at `word`: none when the
/// offset does not point into the body.
pub open spec fn spec_section(b: Seq<u8>, word: int) -> Seq<GeneratorBlock> {
    let raw = le32(b, word);
    if raw < CHUNK_HEADER_LEN || raw - CHUNK_HEADER_LEN >= b.len() {
        Seq::empty()
    } else {
        spec_stream(b, raw - CHUNK_HEADER_LEN)
    }
}

/// Reads the blocks of the section whose offset word sits at `word`.
pub fn section_blocks(b: &[u8], word: usize) -> (r: Vec<GeneratorBlock>)
    requires
        word + 4 <= b@.len(),
    ensures
        r@ == spec_section(b@, word as int),
{
    let len = b.len();
    let raw = read_u32_le(b, word).unwrap() as usize;
    if raw < CHUNK_HEADER_LEN || raw - CHUNK_HEADER_LEN >= len {
        return Vec::new();
    }
    let start = raw - CHUNK_HEADER_LEN;
    let mut out: Vec<GeneratorBlock> = Vec::new();
    let mut cursor = start;
    assert(out@ + spec_stream(b@, cursor as int) =~= spec_stream(b@, start as int));
    loop
        invariant_except_break
            out@ + spec_stream(b@, cursor as int) == spec_stream(b@, start as int),
        invariant
            len == b@.len(),
            cursor <= len,
        ensures
            out@ == spec_stream(b@, start as int),
        decreases len - cursor,
    {
        if len - cursor < 4 {
            assert(out@ + Seq::<GeneratorBlock>::empty() =~= out@);
            break;
        }
        let cfg = read_u32_le(b, cursor).unwrap();
        let op = (cfg % 256) as u8;
        let words = ((cfg / 256) % 32) as usize;
        if op == 0 || words == 0 || len - cursor < 4 * words {
            assert(out@ + Seq::<GeneratorBlock>::empty() =~= out@);
            break;
        }
        let ghost before = out@;
        out.push(GeneratorBlock { opcode: op, payload: cursor + 4, len: 4 * words });
        proof {
            let rest = spec_stream(b@, cursor + 4 * words);
            assert(before + (seq![GeneratorBlock { opcode: op, payload: (cursor + 4) as usize, len: (4 * words) as usize }]
                + rest) =~= out@ + rest);
        }
        cursor = cursor + 4 * words;
    }
    out
}

/// The last block of `s` with opcode `op` whose payload has `need` bytes
/// before the body's end `len`.
pub open spec fn last_fit(s: Seq<GeneratorBlock>, len: int, op: u8, need: int) -> Option<GeneratorBlock>
    decreases s.len(),
{
    if s.len() == 0 {
        None
    } else if s.last().opcode == op && s.last().payload + need <= len {
        Some(s.last())
    } else {
        last_fit(s.drop_last(), len, op, need)
    }
}

/// Some block of `s` has opcode `op`.
pub open spec fn has_op(s: Seq<GeneratorBlock>, op: u8) -> bool {
    exists|i: int| 0 <= i < s.len() && (#[trigger] s[i]).opcode == op
}

proof fn lemma_last_fit_in(s: Seq<GeneratorBlock>, len: int, op: u8, need: int)
    ensures
        last_fit(s, len, op, need) matches Some(bk) ==> bk.opcode == op && bk.payload + need <= len
            && exists|i: int| 0 <= i < s.len() && s[i] == bk,
    decreases s.len(),
{
    if s.len() > 0 && !(s.last().opcode == op && s.last().payload + need <= len) {
        lemma_last_fit_in(s.drop_last(), len, op, need);
        if let Some(bk) = last_fit(s, len, op, need) {
            let i = choose|i: int| 0 <= i < s.drop_last().len() && s.drop_last()[i] == bk;
            assert(s[i] == bk);
        }
    } else if s.len() > 0 {
        assert(s[s.len() - 1] == s.last());
    }
}

/// Where the last block of `op` with `need` payload bytes sits in `blocks`.
pub fn find_last(blocks: &Vec<GeneratorBlock>, len: usize, op: u8, need: usize) -> (r: Option<GeneratorBlock>)
    ensures
        r == last_fit(blocks@, len as int, op, need as int),
        r matches Some(bk) ==> bk.opcode == op && bk.payload + need <= len,
{
    proof {
        lemma_last_fit_in(blocks@, len as int, op, need as int);
    }
    let mut i = blocks.len();
    assert(blocks@.take(i as int) =~= blocks@);
    while i > 0
        invariant
            i <= blocks@.len(),
            last_fit(blocks@, len as int, op, need as int) == last_fit(blocks@.take(i as int), len as int, op, need as int),
        decreases i,
    {
        let bk = blocks[i - 1];
        assert(blocks@.take(i as int).drop_last() =~= blocks@.take(i - 1));
        assert(blocks@.take(i as int).last() == bk);
        if bk.opcode == op && bk.payload <= len && len - bk.payload >= need {
            return Some(bk);
        }
        i -= 1;
    }
    None
}

/// Whether some block has opcode `op`.
pub fn any_op(blocks: &Vec<GeneratorBlock>, op: u8) -> (r: bool)
    ensures
        r == has_op(blocks@, op),
{
    let mut i: usize = 0;
    while i < blocks.len()
        invariant
            i <= blocks@.len(),
            forall|k: int| 0 <= k < i ==> (#[trigger] blocks@[k]).opcode != op,
        decreases blocks.len() - i,
    {
        if blocks[i].opcode == op {
            assert(blocks@[i as int].opcode == op);
            return true;
        }
        i += 1;
    }
    false
}

/// The header fields every generator kind reads: the attach word's type and
/// joints, the source-oriented bit, the emission timing and the flags word.
#[derive(Debug, Clone, Copy, PartialEq, Eq)]
pub struct GeneratorHeader {
    pub attach_type: AttachType,
    pub attach_joint_source: u8,
    pub attach_joint_target: u8,
    pub attach_source_oriented: bool,
    /// One more than the stored value: frames between emissions.
    pub frames_per_emission: u32,
    pub emission_variance: u16,
    pub particles_per_emission: u32,
    pub continuous: bool,
    pub auto_run: bool,
    pub batched: bool,
}

/// What the first 0x80 bytes of `b` say.
pub open spec fn header_matches(h: GeneratorHeader, b: Seq<u8>) -> bool {
    let attach = le16(b, 0);
    let flags = le32(b, GEN_FLAGS_OFFSET as int);
    &&& h.attach_type == match spec_attach_type((attach % 16) as u16) {
        Some(t) => t,
        None => AttachType::Unattached,
    }
    &&& h.attach_joint_source == (attach / 16) % 64
    &&& h.attach_joint_target == attach / 1024
    &&& h.attach_source_oriented == (le16(b, 2) % 2 == 1)
    &&& h.frames_per_emission == le16(b, 0x66) + 1
    &&& h.emission_variance == le16(b, 0x64)
    &&& h.particles_per_emission == flags % 512
    &&& h.continuous == ((flags / 0x400) % 2 == 1)
    &&& h.auto_run == ((flags / 0x1000) % 2 == 1)
    &&& h.batched == ((flags / 0x2000_0000) % 2 == 1)
}

/// Reads the header; a body shorter than the header is refused.
pub fn read_header(b: &[u8]) -> (r: Result<GeneratorHeader, DatError>)
    ensures
        b@.len() < HEADER_LEN <==> r is Err,
        r is Err ==> r == Err::<GeneratorHeader, DatError>(
            DatError::TruncatedChunk { offset: 0, needed: HEADER_LEN, available: b@.len() as usize },
        ),
        r matches Ok(h) ==> header_matches(h, b@),
{
    if b.len() < HEADER_LEN {
        return Err(DatError::TruncatedChunk { offset: 0, needed: HEADER_LEN, available: b.len() });
    }
    let attach = read_u16_le(b, 0).unwrap();
    let extra = read_u16_le(b, 2).unwrap();
    let flags = read_u32_le(b, GEN_FLAGS_OFFSET).unwrap();
    let attach_type = match AttachType::from_flag(attach % 16) {
        Some(t) => t,
        None => AttachType::Unattached,
    };
    Ok(
        GeneratorHeader {
            attach_type,
            attach_joint_source: ((attach / 16) % 64) as u8,
            attach_joint_target: (attach / 1024) as u8,
            attach_source_oriented: extra % 2 == 1,
            frames_per_emission: read_u16_le(b, 0x66).unwrap() as u32 + 1,
            emission_variance: read_u16_le(b, 0x64).unwrap(),
            particles_per_emission: flags % 512,
            continuous: (flags / 0x400) % 2 == 1,
            auto_run: (flags / 0x1000) % 2 == 1,
            batched: (flags / 0x2000_0000) % 2 == 1,
        },
    )
}

/// A block's report: its section, opcode and whether an arm read it.
pub open spec fn report(section: GeneratorSection, bk: GeneratorBlock, decoded: bool) -> (GeneratorSection, u8, GeneratorOpcodeOutcome) {
    (section, bk.opcode, if decoded {
        GeneratorOpcodeOutcome::Decoded
    } else {
        GeneratorOpcodeOutcome::Dropped
    })
}

} // verus!
