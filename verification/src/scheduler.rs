//! Scheduler ("effect routine") chunks: a header with section offsets, then a
//! flat list of stages, each an opcode dword followed by its payload, run on a
//! frame clock that each stage's delay advances for the stages after it.

use vstd::prelude::*;
use crate::bytes::{le16, le32, read_u16_le, read_u32_le};
use crate::error::DatError;

verus! {

/// Where the effect list starts when the section table reads implausibly.
pub const SCHEDULER_HEADER_LEN: usize = 64;
/// After four zero dwords the header holds the section offsets, each measured from
/// the chunk header, which begins `CHUNK_HEADER_LEN` bytes before the body.
pub const SECTION_TABLE_OFFSET: usize = 0x10;
pub const SECTION2_SLOT: usize = SECTION_TABLE_OFFSET + 4;
pub const CHUNK_HEADER_LEN: usize = 0x10;
pub const SECTION_TABLE_LEN: usize = 0x10;
/// A stage spans `length & 0x1F` dwords, counting the opcode dword.
pub const STAGE_LENGTH_MASK: u16 = 0x1F;
pub const END_ROUTINE_OPCODE: u8 = 0x00;
pub const RANDOM_BLOCK_OPEN: u8 = 0x3D;
pub const RANDOM_BLOCK_CLOSE: u8 = 0x3E;
/// A 32-byte 0x0A stage is a caster sound emitter; any other length is a sub-routine.
pub const SOUND_EMITTER_LENGTH_WORDS: usize = 8;

#[derive(Debug, Clone, Copy, PartialEq, Eq)]
pub enum StageKind {
    Motion,
    SoundOnTarget,
    SoundOnCaster,
    Particle,
    SubRoutine,
    /// A sub-routine whose source actor is the primary target.
    SubRoutineOnTarget,
    /// A sub-routine call the parent waits for.
    BlockingSubRoutine,
    StopParticle,
    DamageCallback,
    Unknown,
}

#[derive(Debug, Clone, Copy, PartialEq, Eq)]
pub struct SchedulerStage {
    pub kind: StageKind,
    pub raw_type: u8,
    pub delay_frames: u16,
    pub duration_frames: u16,
    pub id: [u8; 4],
    /// Motion payload (opcode 0x05, stages of at least 32 bytes); zero otherwise.
    pub max_loops: u16,
    pub transition_in: u16,
    pub transition_out: u16,
    /// Stages between a 0x3D and its 0x3E share a group: retail runs one of them.
    pub random_group: Option<u16>,
}

#[derive(Debug, Clone, Copy, PartialEq, Eq)]
pub struct TimedStage {
    pub frame: u32,
    pub stage: SchedulerStage,
}

#[derive(Debug, Clone)]
pub struct Scheduler {
    pub name: [u8; 4],
    pub stages: Vec<TimedStage>,
}

#[derive(Debug, Clone, Copy, PartialEq, Eq)]
pub struct SoundEvent {
    pub frame: u32,
    pub id: [u8; 4],
    pub on_caster: bool,
}

/// The stage kind an opcode names; opcode 0x0A is a caster sound at eight words and
/// a sub-routine link at any other length.
pub open spec fn spec_stage_kind(b: u8, length_words: int) -> StageKind {
    if b == 0x02 {
        StageKind::Particle
    } else if b == 0x03 {
        StageKind::SubRoutine
    } else if b == 0x05 {
        StageKind::Motion
    } else if b == 0x09 {
        StageKind::SubRoutineOnTarget
    } else if b == 0x0A {
        if length_words == 8 {
            StageKind::SoundOnCaster
        } else {
            StageKind::SubRoutine
        }
    } else if b == 0x0B {
        StageKind::SoundOnTarget
    } else if b == 0x2D {
        StageKind::StopParticle
    } else if b == 0x2B {
        StageKind::DamageCallback
    } else if b == 0x3B || b == 0x3C {
        StageKind::BlockingSubRoutine
    } else if b == 0x53 {
        StageKind::SoundOnCaster
    } else if b == 0x57 {
        StageKind::SubRoutine
    } else {
        StageKind::Unknown
    }
}

impl StageKind {
    pub fn from_stage(b: u8, length_words: usize) -> (k: StageKind)
        ensures
            k == spec_stage_kind(b, length_words as int),
    {
        match b {
            0x02 => StageKind::Particle,
            0x03 => StageKind::SubRoutine,
            0x05 => StageKind::Motion,
            0x09 => StageKind::SubRoutineOnTarget,
            0x0A => if length_words == SOUND_EMITTER_LENGTH_WORDS {
                StageKind::SoundOnCaster
            } else {
                StageKind::SubRoutine
            },
            0x0B => StageKind::SoundOnTarget,
            0x2D => StageKind::StopParticle,
            0x2B => StageKind::DamageCallback,
            0x3B | 0x3C => StageKind::BlockingSubRoutine,
            0x53 => StageKind::SoundOnCaster,
            0x57 => StageKind::SubRoutine,
            _ => StageKind::Unknown,
        }
    }
}

/// Where the effect list starts: section 2's offset less the chunk header, when the
/// offset lies past the section table and inside the body; the fixed header length
/// otherwise.
pub open spec fn spec_effect_section_start(body: Seq<u8>) -> int {
    if body.len() < SECTION2_SLOT + 4 {
        SCHEDULER_HEADER_LEN as int
    } else {
        let raw = le32(body, SECTION2_SLOT as int);
        let start = if raw >= CHUNK_HEADER_LEN {
            raw - CHUNK_HEADER_LEN
        } else {
            0
        };
        if raw >= CHUNK_HEADER_LEN + SECTION_TABLE_OFFSET + SECTION_TABLE_LEN && start < body.len() {
            start
        } else {
            SCHEDULER_HEADER_LEN as int
        }
    }
}

pub open spec fn sat_add_u32(a: u32, b: int) -> u32 {
    if a + b > u32::MAX {
        u32::MAX
    } else {
        (a + b) as u32
    }
}

pub open spec fn sat_add_u16(a: u16, b: int) -> u16 {
    if a + b > u16::MAX {
        u16::MAX
    } else {
        (a + b) as u16
    }
}

/// The stage decoded at `cursor`, with the clock and random-group state it runs under.
pub open spec fn spec_stage_at(body: Seq<u8>, cursor: int, open: Option<u16>) -> SchedulerStage {
    let raw_type = body[cursor];
    let length_words = le16(body, cursor + 1) % 32;
    let kind = spec_stage_kind(raw_type, length_words);
    let motion = kind == StageKind::Motion && length_words * 4 >= 32;
    SchedulerStage {
        kind,
        raw_type,
        delay_frames: le16(body, cursor + 4) as u16,
        duration_frames: le16(body, cursor + 6) as u16,
        id: arbitrary(),
        max_loops: if motion {
            le16(body, cursor + 30) as u16
        } else {
            0
        },
        transition_in: if motion {
            le16(body, cursor + 24) as u16
        } else {
            0
        },
        transition_out: if motion {
            le16(body, cursor + 28) as u16
        } else {
            0
        },
        random_group: open,
    }
}

/// A stage as parsed against the one [`spec_stage_at`] describes, its id bytes
/// taken from offsets 8..12.
pub open spec fn stage_matches(s: SchedulerStage, body: Seq<u8>, cursor: int, open: Option<u16>) -> bool {
    let e = spec_stage_at(body, cursor, open);
    &&& s.kind == e.kind
    &&& s.raw_type == e.raw_type
    &&& s.delay_frames == e.delay_frames
    &&& s.duration_frames == e.duration_frames
    &&& s.max_loops == e.max_loops
    &&& s.transition_in == e.transition_in
    &&& s.transition_out == e.transition_out
    &&& s.random_group == e.random_group
    &&& s.id@ == body.subrange(cursor + 8, cursor + 12)
}

/// One step of the stage walk: `None` when the walk stops at `cursor` without a
/// stage, else the byte length of the stage there.
pub open spec fn spec_stage_len(body: Seq<u8>, cursor: int) -> Option<int> {
    if cursor < 0 || cursor + 4 > body.len() {
        None
    } else {
        let n = (le16(body, cursor + 1) % 32) * 4;
        if n < 4 || cursor + n > body.len() {
            None
        } else {
            Some(n)
        }
    }
}

/// The state after the stage at `cursor`: next frame, open group, next group index.
pub open spec fn spec_next_state(body: Seq<u8>, cursor: int, frame: u32, open: Option<u16>, next: u16) -> (
    u32,
    Option<u16>,
    u16,
) {
    let n = spec_stage_len(body, cursor).unwrap();
    let raw_type = body[cursor];
    let delay = le16(body, cursor + 4);
    let frame2 = if n >= 12 && open is None {
        sat_add_u32(frame, delay)
    } else {
        frame
    };
    if raw_type == RANDOM_BLOCK_OPEN {
        (frame2, Some(next), sat_add_u16(next, 1))
    } else if raw_type == RANDOM_BLOCK_CLOSE {
        (frame2, None, next)
    } else {
        (frame2, open, next)
    }
}

/// Whether the walk reaches the stage at `cursor` with the given state, starting at
/// `from` with frame 0, no open group and group index 0 — expressed as the sequence
/// of (cursor, frame, open group) of every emitted stage from `cursor` on.
pub open spec fn spec_walk(body: Seq<u8>, cursor: int, frame: u32, open: Option<u16>, next: u16) -> Seq<
    (int, u32, Option<u16>),
>
    decreases body.len() - cursor,
{
    match spec_stage_len(body, cursor) {
        None => Seq::empty(),
        Some(n) => {
            let here = if n >= 12 {
                seq![(cursor, frame, open)]
            } else {
                Seq::empty()
            };
            let st = spec_next_state(body, cursor, frame, open, next);
            if body[cursor] == END_ROUTINE_OPCODE {
                here
            } else {
                here + spec_walk(body, cursor + n, st.0, st.1, st.2)
            }
        },
    }
}

/// The stages `Scheduler::parse` yields for `body`, each given as its position and
/// the clock and random group it runs under.
pub open spec fn spec_schedule(body: Seq<u8>) -> Seq<(int, u32, Option<u16>)> {
    spec_walk(body, spec_effect_section_start(body), 0, None, 0)
}

/// `stages` are the parsed form of the walk `w`.
pub open spec fn stages_match(stages: Seq<TimedStage>, body: Seq<u8>, w: Seq<(int, u32, Option<u16>)>) -> bool {
    &&& stages.len() == w.len()
    &&& forall|i: int|
        0 <= i < w.len() ==> {
            &&& (#[trigger] stages[i]).frame == w[i].1
            &&& stage_matches(stages[i].stage, body, w[i].0, w[i].2)
        }
}

fn effect_section_start(body: &[u8]) -> (r: usize)
    ensures
        r as int == spec_effect_section_start(body@),
{
    let raw = match read_u32_le(body, SECTION2_SLOT) {
        Some(v) => v as usize,
        None => return SCHEDULER_HEADER_LEN,
    };
    let start = raw.saturating_sub(CHUNK_HEADER_LEN);
    let first_body_offset = SECTION_TABLE_OFFSET + SECTION_TABLE_LEN;
    if raw >= CHUNK_HEADER_LEN + first_body_offset && start < body.len() {
        start
    } else {
        SCHEDULER_HEADER_LEN
    }
}

impl Scheduler {
    /// Walks the effect list from its section start. A stage shorter than one dword or
    /// running past the body ends the walk, as does the end-of-routine opcode (after its
    /// own stage); stages of at least three dwords are kept. Each kept stage fires at the
    /// sum of the delays of the kept stages before it that sit outside a random block.
    pub fn parse(name: [u8; 4], body: &[u8]) -> (r: Result<Scheduler, DatError>)
        ensures
            body@.len() < SCHEDULER_HEADER_LEN <==> r is Err,
            r matches Err(e) ==> e == (DatError::TruncatedChunk {
                offset: 0,
                needed: SCHEDULER_HEADER_LEN,
                available: body@.len() as usize,
            }),
            r matches Ok(s) ==> s.name == name && stages_match(
                s.stages@,
                body@,
                spec_schedule(body@),
            ),
    {
        if body.len() < SCHEDULER_HEADER_LEN {
            return Err(
                DatError::TruncatedChunk {
                    offset: 0,
                    needed: SCHEDULER_HEADER_LEN,
                    available: body.len(),
                },
            );
        }
        let n = body.len();
        let ghost b = body@;
        let mut stages: Vec<TimedStage> = Vec::new();
        let mut cursor = effect_section_start(body);
        let mut running_frame: u32 = 0;
        let mut open_group: Option<u16> = None;
        let mut next_group: u16 = 0;
        let ghost mut done: Seq<(int, u32, Option<u16>)> = Seq::empty();
        loop
            invariant_except_break
                done + spec_walk(b, cursor as int, running_frame, open_group, next_group)
                    == spec_schedule(b),
            invariant
                b == body@,
                n == b.len(),
                stages_match(stages@, b, done),
            ensures
                done == spec_schedule(b),
            decreases n - cursor,
        {
            if cursor > n || n - cursor < 4 {
                assert(done + Seq::<(int, u32, Option<u16>)>::empty() =~= done);
                break;
            }
            let raw_type = body[cursor];
            let length_words = (read_u16_le(body, cursor + 1).unwrap() % 32) as usize;
            let stage_bytes = length_words * 4;
            if stage_bytes < 4 || n - cursor < stage_bytes {
                assert(done + Seq::<(int, u32, Option<u16>)>::empty() =~= done);
                break;
            }
            let ghost old_state = (cursor as int, running_frame, open_group, next_group);
            let ghost here: Seq<(int, u32, Option<u16>)> = if stage_bytes >= 12 {
                seq![(cursor as int, running_frame, open_group)]
            } else {
                Seq::empty()
            };
            if stage_bytes >= 12 {
                let delay = read_u16_le(body, cursor + 4).unwrap();
                let duration = read_u16_le(body, cursor + 6).unwrap();
                let id = [body[cursor + 8], body[cursor + 9], body[cursor + 10], body[cursor + 11]];
                let kind = StageKind::from_stage(raw_type, length_words);
                let motion = match kind {
                    StageKind::Motion => stage_bytes >= 32,
                    _ => false,
                };
                let (max_loops, transition_in, transition_out) = if motion {
                    (
                        read_u16_le(body, cursor + 30).unwrap(),
                        read_u16_le(body, cursor + 24).unwrap(),
                        read_u16_le(body, cursor + 28).unwrap(),
                    )
                } else {
                    (0, 0, 0)
                };
                let stage = SchedulerStage {
                    kind,
                    raw_type,
                    delay_frames: delay,
                    duration_frames: duration,
                    id,
                    max_loops,
                    transition_in,
                    transition_out,
                    random_group: open_group,
                };
                proof {
                    assert(stage.id@ =~= b.subrange(cursor + 8, cursor + 12));
                }
                stages.push(TimedStage { frame: running_frame, stage });
                if open_group.is_none() {
                    running_frame = running_frame.saturating_add(delay as u32);
                }
            }
            proof {
                done = done + here;
                assert(stages_match(stages@, b, done)) by {
                    assert forall|i: int| 0 <= i < done.len() implies {
                        &&& (#[trigger] stages@[i]).frame == done[i].1
                        &&& stage_matches(stages@[i].stage, b, done[i].0, done[i].2)
                    } by {
                        if i < done.len() - here.len() {
                        }
                    }
                }
            }
            if raw_type == RANDOM_BLOCK_OPEN {
                open_group = Some(next_group);
                next_group = next_group.saturating_add(1);
            } else if raw_type == RANDOM_BLOCK_CLOSE {
                open_group = None;
            }
            cursor += stage_bytes;
            if raw_type == END_ROUTINE_OPCODE {
                break;
            }
        }
        Ok(Scheduler { name, stages })
    }

    /// The sound stages, in timeline order, with the frame they fire at and whether
    /// they play on the caster.
    pub fn sound_events(&self) -> (r: Vec<SoundEvent>)
        ensures
            r@ == self.stages@.filter(|t: TimedStage| is_sound_stage(t)).map_values(
                |t: TimedStage| spec_sound_event(t),
            ),
    {
        let mut out: Vec<SoundEvent> = Vec::new();
        for i in 0..self.stages.len()
            invariant
                out@ == self.stages@.take(i as int).filter(|t: TimedStage| is_sound_stage(t)).map_values(
                    |t: TimedStage| spec_sound_event(t),
                ),
        {
            let t = self.stages[i];
            proof {
                self.stages@.take(i as int).lemma_filter_push(t, |t: TimedStage| is_sound_stage(t));
                assert(self.stages@.take(i + 1) =~= self.stages@.take(i as int).push(t));
            }
            let ghost before = out@;
            match t.stage.kind {
                StageKind::SoundOnCaster => {
                    out.push(SoundEvent { frame: t.frame, id: t.stage.id, on_caster: true });
                },
                StageKind::SoundOnTarget => {
                    out.push(SoundEvent { frame: t.frame, id: t.stage.id, on_caster: false });
                },
                _ => {},
            }
            proof {
                let f = self.stages@.take(i + 1).filter(|t: TimedStage| is_sound_stage(t));
                assert(out@ =~= f.map_values(|t: TimedStage| spec_sound_event(t)));
            }
        }
        proof {
            assert(self.stages@.take(self.stages@.len() as int) =~= self.stages@);
        }
        out
    }
}

pub open spec fn is_sound_stage(t: TimedStage) -> bool {
    t.stage.kind == StageKind::SoundOnCaster || t.stage.kind == StageKind::SoundOnTarget
}

pub open spec fn spec_sound_event(t: TimedStage) -> SoundEvent {
    SoundEvent {
        frame: t.frame,
        id: t.stage.id,
        on_caster: t.stage.kind == StageKind::SoundOnCaster,
    }
}


/// The frame the stage after the emitted stage `e` runs at: `e`'s frame, plus
/// its delay when it sits outside a random block.
pub open spec fn frame_after(body: Seq<u8>, e: (int, u32, Option<u16>)) -> u32 {
    if e.2 is None {
        sat_add_u32(e.1, le16(body, e.0 + 4))
    } else {
        e.1
    }
}

proof fn lemma_walk_frames(body: Seq<u8>, cursor: int, frame: u32, open: Option<u16>, next: u16)
    ensures
        ({
            let w = spec_walk(body, cursor, frame, open, next);
            &&& w.len() > 0 ==> w[0].1 == frame
            &&& forall|k: int| 0 <= k && k + 1 < w.len() ==> #[trigger] w[k + 1].1 == frame_after(body, w[k])
        }),
    decreases body.len() - cursor,
{
    match spec_stage_len(body, cursor) {
        None => {},
        Some(n) => {
            let st = spec_next_state(body, cursor, frame, open, next);
            if body[cursor] != END_ROUTINE_OPCODE {
                lemma_walk_frames(body, cursor + n, st.0, st.1, st.2);
                let rest = spec_walk(body, cursor + n, st.0, st.1, st.2);
                let w = spec_walk(body, cursor, frame, open, next);
                if n >= 12 {
                    assert(w == seq![(cursor, frame, open)] + rest);
                    assert forall|k: int| 0 <= k && k + 1 < w.len() implies #[trigger] w[k + 1].1 == frame_after(
                        body,
                        w[k],
                    ) by {
                        assert(w[0] == (cursor, frame, open));
                        if k == 0 {
                            assert(w[1] == rest[0]);
                            assert(rest[0].1 == st.0);
                        } else {
                            let k1 = k - 1;
                            assert(w[k] == rest[k1] && w[k + 1] == rest[k1 + 1]);
                            assert(rest[k1 + 1].1 == frame_after(body, rest[k1]));
                        }
                    }
                } else {
                    assert(w =~= rest);
                }
            }
        },
    }
}

/// Each stage `Scheduler::parse` keeps fires at the sum of the delays of the
/// kept stages before it that sit outside a random block: the first at frame
/// zero, each later one at the frame before it plus that stage's delay unless
/// it belongs to a random group (the sum saturates at `u32::MAX`).
pub proof fn law_stages_fire_at_the_sum_of_earlier_delays(body: Seq<u8>, stages: Seq<TimedStage>)
    requires
        stages_match(stages, body, spec_schedule(body)),
    ensures
        stages.len() > 0 ==> stages[0].frame == 0,
        forall|k: int|
            0 <= k && k + 1 < stages.len() ==> (#[trigger] stages[k + 1]).frame == if stages[k].stage.random_group
                is None {
                sat_add_u32(stages[k].frame, stages[k].stage.delay_frames as int)
            } else {
                stages[k].frame
            },
{
    let w = spec_schedule(body);
    lemma_walk_frames(body, spec_effect_section_start(body), 0, None, 0);
    assert forall|k: int| 0 <= k && k + 1 < stages.len() implies (#[trigger] stages[k + 1]).frame == if stages[k].stage.random_group
        is None {
        sat_add_u32(stages[k].frame, stages[k].stage.delay_frames as int)
    } else {
        stages[k].frame
    } by {
        assert(stages[k].frame == w[k].1);
        assert(stages[k + 1].frame == w[k + 1].1);
        assert(stage_matches(stages[k].stage, body, w[k].0, w[k].2));
        assert(w[k + 1].1 == frame_after(body, w[k]));
        assert(le16(body, w[k].0 + 4) < 0x10000);
    }
}
} // verus!
