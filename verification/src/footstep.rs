//! Zone-local footstep sound tables (`fses` walk, `fser` run): a step's sound is
//! named by a four-character id composed from the terrain under the foot and two
//! bytes of the feet equipment.

use std::collections::HashMap;
use vstd::prelude::*;
use crate::bytes::{le32, read_u32_le};

verus! {

/// Walk table directory name.
pub const WALK_TABLE: [u8; 4] = [0x66, 0x73, 0x65, 0x73];
/// Run table directory name.
pub const RUN_TABLE: [u8; 4] = [0x66, 0x73, 0x65, 0x72];
/// The sentinel an item without footstep data carries.
pub const FOOTSTEP_NONE: u8 = 0xFF;
pub const MATERIAL_MIN: u8 = 1;
pub const MATERIAL_MAX: u8 = 27;
/// Terrain 0 is the generic surface and ships no entry.
pub const TERRAIN_MIN: u8 = 1;
pub const TERRAIN_MAX: u8 = 10;
/// The last character is `size + 1`.
pub const SIZE_MAX: u8 = 2;
pub const SIZE_CHAR_BIAS: u8 = 1;

/// The lowercase base-36 digit of `v` (`v < 36`).
pub open spec fn spec_digit36(v: u8) -> u8 {
    if v < 10 {
        (v + 48) as u8
    } else {
        (v - 10 + 97) as u8
    }
}

fn digit36(v: u8) -> (r: u8)
    requires
        v < 36,
    ensures
        r == spec_digit36(v),
{
    if v < 10 {
        v + 48
    } else {
        v - 10 + 97
    }
}

/// The table entry name for a step: `'0'`, the terrain and the material as
/// base-36 digits, and `size + 1`; none when a component lies outside what the
/// tables author (the no-footstep sentinel among them).
pub open spec fn spec_footstep_dat_id(terrain: u8, material: u8, size: u8) -> Option<Seq<u8>> {
    if TERRAIN_MIN <= terrain <= TERRAIN_MAX && MATERIAL_MIN <= material <= MATERIAL_MAX && size
        <= SIZE_MAX {
        Some(seq![48u8, spec_digit36(terrain), spec_digit36(material), (48 + size + 1) as u8])
    } else {
        None
    }
}

pub fn footstep_dat_id(terrain: u8, material: u8, size: u8) -> (r: Option<[u8; 4]>)
    ensures
        r is Some <==> spec_footstep_dat_id(terrain, material, size) is Some,
        r matches Some(id) ==> id@ == spec_footstep_dat_id(terrain, material, size)->0,
{
    if !(TERRAIN_MIN <= terrain && terrain <= TERRAIN_MAX) || !(MATERIAL_MIN <= material
        && material <= MATERIAL_MAX) || size > SIZE_MAX {
        return None;
    }
    let id = [48u8, digit36(terrain), digit36(material), 48u8 + size + SIZE_CHAR_BIAS];
    assert(id@ =~= spec_footstep_dat_id(terrain, material, size)->0);
    Some(id)
}

/// The key a step name is filed under in the tables: its four bytes read as a
/// little-endian word.
pub open spec fn step_key(id: Seq<u8>) -> u32 {
    le32(id, 0) as u32
}

/// The key [`FootstepTables`] files the step name `id` under.
pub fn step_key_of(id: &[u8; 4]) -> (r: u32)
    ensures
        r == step_key(id@),
{
    let s: &[u8] = id;
    read_u32_le(s, 0).unwrap()
}

/// The sound id `t` holds for a key.
pub open spec fn table_get(t: Map<u32, u32>, k: u32) -> Option<u32> {
    if t.contains_key(k) {
        Some(t[k])
    } else {
        None
    }
}

/// One zone's footstep sound pointers, keyed by [`step_key`] of the step name
/// [`footstep_dat_id`] composes.
#[derive(Debug, Clone)]
pub struct FootstepTables {
    pub walk: HashMap<u32, u32>,
    pub run: HashMap<u32, u32>,
}

fn lookup(t: &HashMap<u32, u32>, k: u32) -> (r: Option<u32>)
    ensures
        r == table_get(t@, k),
{
    broadcast use vstd::std_specs::hash::group_hash_axioms;

    match t.get(&k) {
        Some(v) => Some(*v),
        None => None,
    }
}

impl FootstepTables {
    /// Tables with no entries.
    pub fn new() -> (r: FootstepTables)
        ensures
            r.walk@ == Map::<u32, u32>::empty(),
            r.run@ == Map::<u32, u32>::empty(),
    {
        broadcast use vstd::std_specs::hash::group_hash_axioms;

        FootstepTables { walk: HashMap::new(), run: HashMap::new() }
    }

    pub fn is_empty(&self) -> (r: bool)
        ensures
            r == (self.walk@.is_empty() && self.run@.is_empty()),
    {
        self.walk.is_empty() && self.run.is_empty()
    }

    /// The sound id of a step; a run falls back to the walk table when the run
    /// table lacks the entry.
    pub fn sound_id(&self, id: &[u8; 4], running: bool) -> (r: Option<u32>)
        ensures
            r == if running {
                match table_get(self.run@, step_key(id@)) {
                    Some(s) => Some(s),
                    None => table_get(self.walk@, step_key(id@)),
                }
            } else {
                table_get(self.walk@, step_key(id@))
            },
    {
        let k = step_key_of(id);
        if running {
            match lookup(&self.run, k) {
                Some(s) => Some(s),
                None => lookup(&self.walk, k),
            }
        } else {
            lookup(&self.walk, k)
        }
    }
}

} // verus!
