//! Tables located inside `FFXiMain.dll` by scanning its `.data` section for the
//! big-endian marker words they begin with: per-race animation and skill file
//! ids, the equipment model bands, and the zone-map calibration records.

use vstd::prelude::*;
use std::collections::BTreeMap;
use std::ops::Range;
use crate::bytes::{be32, be64, le16, le32, read_u16_le, read_u32_be, read_u32_le, read_u64_be};
use crate::error::DatError;
use crate::pol1::{find_section, same_fields, spec_find_section, PeSection};

verus! {

broadcast use vstd::laws_cmp::group_laws_cmp;

/// The fallback scan window, for an image whose section table does not parse.
pub const SCAN_START: usize = 0x30000;
pub const SCAN_WORDS: usize = 0xC000;
/// Every marker is 4-byte aligned, so the scan steps by a word.
pub const SCAN_STRIDE: usize = 4;

/// `.data` padded to a section-table name.
pub const DATA_SECTION_NAME: [u8; 8] = [0x2e, 0x64, 0x61, 0x74, 0x61, 0, 0, 0];

pub const WEAPON_SKILL_HINT: u32 = 0xCB81_CB81;
pub const DANCE_SKILL_HINT: u32 = 0xB9E2_B9E2;
pub const EMOTE_HINT: u32 = 0x4827_4827;
pub const RACE_CONFIG_HINT: u32 = 0xA01B_A01B;
pub const ACTION_ANIM_HINT: u32 = 0xCB96_CB96;
pub const BATTLE_ANIM_HINT: u32 = 0xC825_C825;
/// The equipment table's own first `(file_id, count)` pair.
pub const EQUIPMENT_HINT: u32 = 0xA81B_0000;

/// Per-race stride of the equipment lookup table, and the per-slot stride within a race.
pub const EQUIPMENT_RACE_STRIDE: usize = 0x1B0;
pub const EQUIPMENT_SLOT_STRIDE: usize = 0x30;
/// Each slot row is six `(first_file_id, entry_count)` pairs; a zero file id is skipped.
pub const EQUIPMENT_SLOT_BANDS: usize = 6;

pub const ACTION_ANIM_MOUNT_OFFSET: u16 = 0x05;
pub const ACTION_ANIM_FISHING_OFFSET: u16 = 0x01;

pub const ZONE_MAP_HINT: u64 = 0x6400_0001_0001_0100;
pub const ZONE_MAP_STRIDE: usize = 0x0E;
pub const ZONE_MAP_NEXT_DIVISOR: usize = 0x13;
pub const ZONE_MAP_SIZE_NUMERATOR: u16 = 2560;
/// The file-table base each value of a record's low nibble at byte 4 counts from.
pub const ZONE_MAP_FILE_TABLE_BASES: [u32; 4] = [0x14C0, 0xD02F, 0xD147, 0x1592];

/// Largest distance past a table base any reader of [`MainDll`] addresses.
pub const BASE_REACH: usize = 0x20000;

#[derive(Debug, Clone, Copy, PartialEq, Eq)]
pub struct ZoneMapRecord {
    pub zone_id: u16,
    pub sub_zone_id: u8,
    /// The map image's own DAT file id.
    pub file_id: u32,
    pub size: u16,
    pub x_offset: i16,
    pub y_offset: i16,
}

/// The DLL bytes with the table bases found in them.
pub struct MainDll {
    pub bytes: Vec<u8>,
    pub weapon_skill_base: usize,
    pub dance_skill_base: usize,
    pub emote_base: Option<usize>,
    pub zone_map_base: Option<usize>,
    pub race_config_base: Option<usize>,
    pub action_anim_base: Option<usize>,
    pub battle_anim_base: Option<usize>,
    pub equipment_base: Option<usize>,
}

// ------------------------------------------------------------------ scanning

/// The `.data` section's raw span clipped to the image, when it is non-empty.
pub open spec fn spec_data_span(b: Seq<u8>) -> Option<(int, int)> {
    match spec_find_section(b, DATA_SECTION_NAME@) {
        None => None,
        Some(s) => {
            let ptr = s.pointer_to_raw_data as int;
            let sum = ptr + s.size_of_raw_data;
            if sum > usize::MAX {
                None
            } else {
                let end = if sum < b.len() {
                    sum
                } else {
                    b.len() as int
                };
                if ptr < end {
                    Some((ptr, end))
                } else {
                    None
                }
            }
        },
    }
}

/// The window scanned for markers: `.data`, else the fixed fallback.
pub open spec fn spec_scan_window(b: Seq<u8>) -> (int, int) {
    match spec_data_span(b) {
        Some(w) => w,
        None => (SCAN_START as int, (SCAN_START + SCAN_WORDS * SCAN_STRIDE) as int),
    }
}

/// First word-aligned position from `pos` (stepping by four, below `end`) whose
/// big-endian word is `hint`.
pub open spec fn spec_find_be32(b: Seq<u8>, pos: int, end: int, hint: u32) -> Option<int>
    decreases end - pos,
{
    if pos >= end {
        None
    } else if pos + 4 <= b.len() && be32(b, pos) == hint {
        Some(pos)
    } else if pos + 4 >= end {
        None
    } else {
        spec_find_be32(b, pos + 4, end, hint)
    }
}

/// As [`spec_find_be32`] for a big-endian 64-bit marker.
pub open spec fn spec_find_be64(b: Seq<u8>, pos: int, end: int, hint: u64) -> Option<int>
    decreases end - pos,
{
    if pos >= end {
        None
    } else if pos + 8 <= b.len() && be64(b, pos) == hint {
        Some(pos)
    } else if pos + 4 >= end {
        None
    } else {
        spec_find_be64(b, pos + 4, end, hint)
    }
}

fn data_section_span(bytes: &[u8]) -> (r: Option<Range<usize>>)
    ensures
        match spec_data_span(bytes@) {
            None => r is None,
            Some(w) => r matches Some(x) && x.start == w.0 && x.end == w.1,
        },
{
    let data = match find_section(bytes, &DATA_SECTION_NAME) {
        Some(s) => s,
        None => return None,
    };
    let ptr = data.pointer_to_raw_data as usize;
    let sum = match ptr.checked_add(data.size_of_raw_data as usize) {
        Some(s) => s,
        None => return None,
    };
    let end = if sum < bytes.len() {
        sum
    } else {
        bytes.len()
    };
    if ptr < end {
        Some(ptr..end)
    } else {
        None
    }
}

/// The `.data` raw span from the PE section table, or the fixed fallback window when
/// the image has no parseable section table or no non-empty `.data`.
pub fn scan_window(bytes: &[u8]) -> (r: Range<usize>)
    ensures
        r.start == spec_scan_window(bytes@).0,
        r.end == spec_scan_window(bytes@).1,
{
    match data_section_span(bytes) {
        Some(w) => w,
        None => SCAN_START..SCAN_START + SCAN_WORDS * SCAN_STRIDE,
    }
}

/// First word-aligned offset in `window` holding `hint` big-endian.
pub fn find_offset(bytes: &[u8], window: &Range<usize>, hint: u32) -> (r: Option<usize>)
    ensures
        r is None <==> spec_find_be32(bytes@, window.start as int, window.end as int, hint) is None,
        r matches Some(x) ==> spec_find_be32(bytes@, window.start as int, window.end as int, hint)
            == Some(x as int),
{
    let mut pos = window.start;
    while pos < window.end
        invariant
            window.start <= pos,
            spec_find_be32(bytes@, pos as int, window.end as int, hint) == spec_find_be32(
                bytes@,
                window.start as int,
                window.end as int,
                hint,
            ),
        decreases window.end - pos,
    {
        if let Some(v) = read_u32_be(bytes, pos) {
            if v == hint {
                return Some(pos);
            }
        }
        if window.end - pos <= SCAN_STRIDE {
            return None;
        }
        pos += SCAN_STRIDE;
    }
    None
}

/// First word-aligned offset in `window` holding `hint` as a big-endian 64-bit value.
pub fn find_offset_u64(bytes: &[u8], window: &Range<usize>, hint: u64) -> (r: Option<usize>)
    ensures
        r is None <==> spec_find_be64(bytes@, window.start as int, window.end as int, hint) is None,
        r matches Some(x) ==> spec_find_be64(bytes@, window.start as int, window.end as int, hint)
            == Some(x as int),
{
    let mut pos = window.start;
    while pos < window.end
        invariant
            window.start <= pos,
            spec_find_be64(bytes@, pos as int, window.end as int, hint) == spec_find_be64(
                bytes@,
                window.start as int,
                window.end as int,
                hint,
            ),
        decreases window.end - pos,
    {
        if let Some(v) = read_u64_be(bytes, pos) {
            if v == hint {
                return Some(pos);
            }
        }
        if window.end - pos <= SCAN_STRIDE {
            return None;
        }
        pos += SCAN_STRIDE;
    }
    None
}

// ---------------------------------------------------------------- zone maps

/// A signed 16-bit little-endian value at `off`.
pub open spec fn le16_signed(s: Seq<u8>, off: int) -> int {
    if le16(s, off) >= 32768 {
        le16(s, off) - 65536
    } else {
        le16(s, off)
    }
}

/// One `ZONE_MAP_STRIDE`-byte row; `None` when the divisor at byte 5 is zero (a zone
/// with no drawable map) or the low nibble of byte 4 names no file-table base.
pub open spec fn spec_parse_zone_map(r: Seq<u8>) -> Option<ZoneMapRecord> {
    let divisor = r[5];
    let idx = r[4] % 16;
    if divisor == 0 || idx >= 4 {
        None
    } else {
        Some(
            ZoneMapRecord {
                zone_id: le16(r, 0) as u16,
                sub_zone_id: r[2],
                file_id: ((ZONE_MAP_FILE_TABLE_BASES@[idx as int] + le16_signed(r, 8))
                    % 4294967296) as u32,
                size: (2560int / (divisor as int)) as u16,
                x_offset: le16_signed(r, 10) as i16,
                y_offset: le16_signed(r, 12) as i16,
            },
        )
    }
}

/// The records of the flat zone-map run starting at `base`: a row exists while all
/// its bytes do, and the walk goes on while the byte 19 past the row start is
/// present and non-zero. Rows that parse to nothing are skipped.
pub open spec fn spec_zone_walk(b: Seq<u8>, base: int) -> Seq<ZoneMapRecord>
    decreases b.len() - base,
{
    if base < 0 || base + ZONE_MAP_STRIDE > b.len() {
        Seq::empty()
    } else {
        let here = match spec_parse_zone_map(b.subrange(base, base + ZONE_MAP_STRIDE as int)) {
            Some(r) => seq![r],
            None => Seq::empty(),
        };
        if base + ZONE_MAP_NEXT_DIVISOR < b.len() && b[base + ZONE_MAP_NEXT_DIVISOR] != 0 {
            here + spec_zone_walk(b, base + ZONE_MAP_STRIDE)
        } else {
            here
        }
    }
}

pub open spec fn is_zone(zone: u16) -> spec_fn(ZoneMapRecord) -> bool {
    |r: ZoneMapRecord| r.zone_id == zone
}

/// The first record of `s` from index `i` on whose sub-zone is `sub`.
pub open spec fn spec_first_sub(s: Seq<ZoneMapRecord>, sub: u8, i: int) -> Option<ZoneMapRecord>
    decreases s.len() - i,
{
    if i < 0 || i >= s.len() {
        None
    } else if s[i].sub_zone_id == sub {
        Some(s[i])
    } else {
        spec_first_sub(s, sub, i + 1)
    }
}

pub fn parse_zone_map(rec: &[u8]) -> (r: Option<ZoneMapRecord>)
    requires
        rec@.len() >= ZONE_MAP_STRIDE,
    ensures
        r == spec_parse_zone_map(rec@),
{
    let divisor = rec[5];
    let table_index = (rec[4] % 16) as usize;
    if divisor == 0 || table_index >= 4 {
        return None;
    }
    let base = ZONE_MAP_FILE_TABLE_BASES[table_index];
    let raw = read_u16_le(rec, 8).unwrap();
    let off: i32 = if raw >= 32768 {
        raw as i32 - 65536
    } else {
        raw as i32
    };
    let x_raw = read_u16_le(rec, 10).unwrap();
    let y_raw = read_u16_le(rec, 12).unwrap();
    let x_offset: i16 = if x_raw >= 32768 {
        (x_raw as i32 - 65536) as i16
    } else {
        x_raw as i16
    };
    let y_offset: i16 = if y_raw >= 32768 {
        (y_raw as i32 - 65536) as i16
    } else {
        y_raw as i16
    };
    let file_id = base.wrapping_add_signed(off);
    Some(
        ZoneMapRecord {
            zone_id: read_u16_le(rec, 0).unwrap(),
            sub_zone_id: rec[2],
            file_id,
            size: ZONE_MAP_SIZE_NUMERATOR / (divisor as u16),
            x_offset,
            y_offset,
        },
    )
}

// ---------------------------------------------------------------- equipment

/// The model DAT for `model` walking the row's bands from `band` on, with `passed`
/// model ids consumed by the bands before it.
pub open spec fn spec_equipment_from(b: Seq<u8>, row: int, band: int, passed: int, model: int) -> Option<
    int,
>
    decreases 6 - band,
{
    if band >= 6 || band < 0 {
        None
    } else {
        let off = row + band * 8;
        if off + 8 > b.len() {
            None
        } else {
            let first = le32(b, off);
            let count = le32(b, off + 4);
            if first == 0 {
                spec_equipment_from(b, row, band + 1, passed, model)
            } else if model < passed + count {
                Some(first + model - passed)
            } else {
                spec_equipment_from(b, row, band + 1, passed + count, model)
            }
        }
    }
}

/// The walk in [`spec_equipment_from`] never exceeds `u32` in its running total or
/// in the id it returns.
pub open spec fn spec_equipment_fits(b: Seq<u8>, row: int, band: int, passed: int, model: int) -> bool
    decreases 6 - band,
{
    if band >= 6 || band < 0 {
        true
    } else {
        let off = row + band * 8;
        if off + 8 > b.len() {
            true
        } else {
            let first = le32(b, off);
            let count = le32(b, off + 4);
            if first == 0 {
                spec_equipment_fits(b, row, band + 1, passed, model)
            } else if passed + count > u32::MAX {
                false
            } else if model < passed + count {
                first + model <= u32::MAX
            } else {
                spec_equipment_fits(b, row, band + 1, passed + count, model)
            }
        }
    }
}

/// Row offset of one race's slot in the equipment table.
pub open spec fn spec_equipment_row(base: int, table_index: u8, slot: u8) -> int {
    base + EQUIPMENT_RACE_STRIDE * (table_index - 1) + EQUIPMENT_SLOT_STRIDE * slot
}

impl MainDll {
    /// Scans the image for every table marker. The weapon-skill and dance-skill tables
    /// are required; every other table is optional.
    pub fn from_bytes(bytes: Vec<u8>) -> (r: Result<MainDll, DatError>)
        ensures
            ({
                let w = spec_scan_window(bytes@);
                match r {
                    Ok(d) => {
                        &&& d.bytes@ == bytes@
                        &&& spec_find_be32(bytes@, w.0, w.1, WEAPON_SKILL_HINT) == Some(
                            d.weapon_skill_base as int,
                        )
                        &&& spec_find_be32(bytes@, w.0, w.1, DANCE_SKILL_HINT) == Some(
                            d.dance_skill_base as int,
                        )
                        &&& opt_usize(spec_find_be32(bytes@, w.0, w.1, EMOTE_HINT)) == d.emote_base
                        &&& opt_usize(spec_find_be64(bytes@, w.0, w.1, ZONE_MAP_HINT))
                            == d.zone_map_base
                        &&& opt_usize(spec_find_be32(bytes@, w.0, w.1, RACE_CONFIG_HINT))
                            == d.race_config_base
                        &&& opt_usize(spec_find_be32(bytes@, w.0, w.1, ACTION_ANIM_HINT))
                            == d.action_anim_base
                        &&& opt_usize(spec_find_be32(bytes@, w.0, w.1, BATTLE_ANIM_HINT))
                            == d.battle_anim_base
                        &&& opt_usize(spec_find_be32(bytes@, w.0, w.1, EQUIPMENT_HINT))
                            == d.equipment_base
                    },
                    Err(e) => if spec_find_be32(bytes@, w.0, w.1, WEAPON_SKILL_HINT) is None {
                        e == DatError::DllMarkerNotFound { hint: WEAPON_SKILL_HINT }
                    } else {
                        &&& spec_find_be32(bytes@, w.0, w.1, DANCE_SKILL_HINT) is None
                        &&& e == DatError::DllMarkerNotFound { hint: DANCE_SKILL_HINT }
                    },
                }
            }),
    {
        let window = scan_window(bytes.as_slice());
        let weapon_skill_base = match find_offset(bytes.as_slice(), &window, WEAPON_SKILL_HINT) {
            Some(p) => p,
            None => return Err(DatError::DllMarkerNotFound { hint: WEAPON_SKILL_HINT }),
        };
        let dance_skill_base = match find_offset(bytes.as_slice(), &window, DANCE_SKILL_HINT) {
            Some(p) => p,
            None => return Err(DatError::DllMarkerNotFound { hint: DANCE_SKILL_HINT }),
        };
        let emote_base = find_offset(bytes.as_slice(), &window, EMOTE_HINT);
        let zone_map_base = find_offset_u64(bytes.as_slice(), &window, ZONE_MAP_HINT);
        let race_config_base = find_offset(bytes.as_slice(), &window, RACE_CONFIG_HINT);
        let action_anim_base = find_offset(bytes.as_slice(), &window, ACTION_ANIM_HINT);
        let battle_anim_base = find_offset(bytes.as_slice(), &window, BATTLE_ANIM_HINT);
        let equipment_base = find_offset(bytes.as_slice(), &window, EQUIPMENT_HINT);
        Ok(
            MainDll {
                bytes,
                weapon_skill_base,
                dance_skill_base,
                emote_base,
                zone_map_base,
                race_config_base,
                action_anim_base,
                battle_anim_base,
                equipment_base,
            },
        )
    }

    /// The equipment lookup's offsets stay addressable and its running total and
    /// result stay within `u32`.
    pub open spec fn equipment_lookup_fits(&self, table_index: u8, slot: u8, model_id: u16) -> bool {
        match self.equipment_base {
            Some(b) => table_index >= 1 ==> {
                &&& spec_equipment_row(b as int, table_index, slot) + 48 <= usize::MAX
                &&& spec_equipment_fits(
                    self.bytes@,
                    spec_equipment_row(b as int, table_index, slot),
                    0,
                    0,
                    model_id as int,
                )
            },
            None => true,
        }
    }

    /// Every record of the zone-map table, in table order.
    pub open spec fn zone_records(&self) -> Seq<ZoneMapRecord> {
        match self.zone_map_base {
            None => Seq::empty(),
            Some(base) => spec_zone_walk(self.bytes@, base as int),
        }
    }

    fn zone_map_records(&self) -> (r: Vec<ZoneMapRecord>)
        ensures
            r@ == self.zone_records(),
    {
        let mut out: Vec<ZoneMapRecord> = Vec::new();
        let mut base = match self.zone_map_base {
            Some(b) => b,
            None => return out,
        };
        let n = self.bytes.len();
        loop
            invariant_except_break
                out@ + spec_zone_walk(self.bytes@, base as int) == self.zone_records(),
            invariant
                n == self.bytes@.len(),
                self.zone_map_base is Some,
            ensures
                out@ == self.zone_records(),
            decreases n - base,
        {
            if base > n || n - base < ZONE_MAP_STRIDE {
                assert(out@ + Seq::<ZoneMapRecord>::empty() =~= out@);
                break;
            }
            let rec = &self.bytes.as_slice()[base..base + ZONE_MAP_STRIDE];
            let ghost before = out@;
            let parsed = parse_zone_map(rec);
            if let Some(p) = parsed {
                out.push(p);
            }
            let more = n - base > ZONE_MAP_NEXT_DIVISOR && self.bytes[base + ZONE_MAP_NEXT_DIVISOR] != 0;
            proof {
                let here = match spec_parse_zone_map(rec@) {
                    Some(r) => seq![r],
                    None => Seq::empty(),
                };
                assert(out@ =~= before + here);
            }
            if !more {
                proof {
                    assert(out@ + Seq::<ZoneMapRecord>::empty() =~= out@);
                }
                break;
            }
            proof {
                let here = match spec_parse_zone_map(rec@) {
                    Some(r) => seq![r],
                    None => Seq::empty(),
                };
                assert(before + (here + spec_zone_walk(self.bytes@, base + ZONE_MAP_STRIDE))
                    =~= out@ + spec_zone_walk(self.bytes@, base + ZONE_MAP_STRIDE));
            }
            base = base + ZONE_MAP_STRIDE;
        }
        out
    }

    /// Every map the zone ships, in table order.
    pub fn zone_maps(&self, zone_id: u16) -> (r: Vec<ZoneMapRecord>)
        ensures
            r@ == self.zone_records().filter(is_zone(zone_id)),
    {
        let all = self.zone_map_records();
        let mut out: Vec<ZoneMapRecord> = Vec::new();
        for i in 0..all.len()
            invariant
                all@ == self.zone_records(),
                out@ == all@.take(i as int).filter(is_zone(zone_id)),
        {
            proof {
                all@.take(i as int).lemma_filter_push(all@[i as int], is_zone(zone_id));
                assert(all@.take(i + 1) =~= all@.take(i as int).push(all@[i as int]));
            }
            if all[i].zone_id == zone_id {
                out.push(all[i]);
            }
        }
        proof {
            assert(all@.take(all@.len() as int) =~= all@);
        }
        out
    }

    /// The zone's map numbered `sub_zone_id`, when it ships one.
    pub fn zone_map(&self, zone_id: u16, sub_zone_id: u8) -> (r: Option<ZoneMapRecord>)
        ensures
            r == spec_first_sub(self.zone_records().filter(is_zone(zone_id)), sub_zone_id, 0),
    {
        let maps = self.zone_maps(zone_id);
        let mut i: usize = 0;
        while i < maps.len()
            invariant
                maps@ == self.zone_records().filter(is_zone(zone_id)),
                i <= maps@.len(),
                spec_first_sub(maps@, sub_zone_id, i as int) == spec_first_sub(
                    maps@,
                    sub_zone_id,
                    0,
                ),
            decreases maps@.len() - i,
        {
            if maps[i].sub_zone_id == sub_zone_id {
                return Some(maps[i]);
            }
            i += 1;
        }
        None
    }

    /// How many maps each zone ships, for every zone whose key is not negative as a
    /// signed 16-bit value (the negative band is keyed by client map ids, not zones).
    pub fn zone_map_counts(&self) -> (r: BTreeMap<u16, usize>)
        ensures
            forall|z: u16|
                #![trigger r@.contains_key(z)]
                r@.contains_key(z) <==> (z < 0x8000 && self.zone_records().filter(
                    is_zone(z),
                ).len() > 0),
            forall|z: u16|
                r@.contains_key(z) ==> r@[z] as int == self.zone_records().filter(
                    is_zone(z),
                ).len(),
    {
        let all = self.zone_map_records();
        let mut counts: BTreeMap<u16, usize> = BTreeMap::new();
        for i in 0..all.len()
            invariant
                all@ == self.zone_records(),
                all@.len() <= usize::MAX,
                forall|z: u16|
                    #![trigger counts@.contains_key(z)]
                    counts@.contains_key(z) <==> (z < 0x8000 && all@.take(i as int).filter(
                        is_zone(z),
                    ).len() > 0),
                forall|z: u16|
                    counts@.contains_key(z) ==> counts@[z] as int == all@.take(i as int).filter(
                        is_zone(z),
                    ).len(),
        {
            let z = all[i].zone_id;
            proof {
                assert(all@.take(i + 1) =~= all@.take(i as int).push(all@[i as int]));
                assert forall|y: u16| true implies all@.take(i + 1).filter(is_zone(y))
                    == if all@[i as int].zone_id == y {
                    all@.take(i as int).filter(is_zone(y)).push(all@[i as int])
                } else {
                    all@.take(i as int).filter(is_zone(y))
                } by {
                    all@.take(i as int).lemma_filter_push(all@[i as int], is_zone(y));
                }
                assert forall|y: u16| true implies all@.take(i as int).filter(is_zone(y)).len()
                    <= i by {
                    all@.take(i as int).lemma_filter_len(is_zone(y));
                }
            }
            if z < 0x8000 {
                let old = match counts.get(&z) {
                    Some(c) => *c,
                    None => 0,
                };
                counts.insert(z, old + 1);
            }
        }
        proof {
            assert(all@.take(all@.len() as int) =~= all@);
        }
        counts
    }

    fn read16(&self, off: usize) -> (r: Option<u16>)
        ensures
            r is Some <==> off + 2 <= self.bytes@.len(),
            r matches Some(v) ==> v as int == le16(self.bytes@, off as int),
    {
        read_u16_le(self.bytes.as_slice(), off)
    }

    fn read32(&self, off: usize) -> (r: Option<u32>)
        ensures
            r is Some <==> off + 4 <= self.bytes@.len(),
            r matches Some(v) ==> v as int == le32(self.bytes@, off as int),
    {
        read_u32_le(self.bytes.as_slice(), off)
    }

    pub fn base_weapon_skill_index(&self, race_index: u8) -> (r: Option<u16>)
        requires
            self.weapon_skill_base + 2 * race_index + 2 <= usize::MAX,
        ensures
            r == spec_table16(self.bytes@, Some(self.weapon_skill_base), race_index),
    {
        self.read16(self.weapon_skill_base + race_index as usize * 2)
    }

    pub fn base_dance_skill_index(&self, race_index: u8) -> (r: Option<u16>)
        requires
            self.dance_skill_base + 2 * race_index + 2 <= usize::MAX,
        ensures
            r == spec_table16(self.bytes@, Some(self.dance_skill_base), race_index),
    {
        self.read16(self.dance_skill_base + race_index as usize * 2)
    }

    /// First emote-animation file id for a race.
    pub fn base_emote_index(&self, race_index: u8) -> (r: Option<u16>)
        requires
            table_reachable(self.emote_base, race_index),
        ensures
            r == spec_table16(self.bytes@, self.emote_base, race_index),
    {
        match self.emote_base {
            Some(b) => self.read16(b + race_index as usize * 2),
            None => None,
        }
    }

    /// The race's config DAT (skeleton plus shared idle/walk/run clips).
    pub fn base_race_config_index(&self, race_index: u8) -> (r: Option<u16>)
        requires
            table_reachable(self.race_config_base, race_index),
        ensures
            r == spec_table16(self.bytes@, self.race_config_base, race_index),
    {
        match self.race_config_base {
            Some(b) => self.read16(b + race_index as usize * 2),
            None => None,
        }
    }

    /// First file of the race's action-animation block.
    pub fn base_action_animation_index(&self, race_index: u8) -> (r: Option<u16>)
        requires
            table_reachable(self.action_anim_base, race_index),
        ensures
            r == spec_table16(self.bytes@, self.action_anim_base, race_index),
    {
        match self.action_anim_base {
            Some(b) => self.read16(b + race_index as usize * 2),
            None => None,
        }
    }

    /// First file of the race's battle-animation block.
    pub fn base_battle_animation_index(&self, race_index: u8) -> (r: Option<u16>)
        requires
            table_reachable(self.battle_anim_base, race_index),
        ensures
            r == spec_table16(self.bytes@, self.battle_anim_base, race_index),
    {
        match self.battle_anim_base {
            Some(b) => self.read16(b + race_index as usize * 2),
            None => None,
        }
    }

    /// Model DAT for one equipment slot of one equipment-table row. The row is a run of
    /// `(first_file_id, entry_count)` bands partitioning the model id space in order;
    /// a zero file id is a band that takes no ids.
    pub fn equipment_model_index(&self, table_index: u8, slot: u8, model_id: u16) -> (r: Option<
        u32,
    >)
        requires
            self.equipment_lookup_fits(table_index, slot, model_id),
        ensures
            r == (match self.equipment_base {
                None => None,
                Some(b) => if table_index == 0 {
                    None
                } else {
                    match spec_equipment_from(
                        self.bytes@,
                        spec_equipment_row(b as int, table_index, slot),
                        0,
                        0,
                        model_id as int,
                    ) {
                        Some(v) => Some(v as u32),
                        None => None,
                    }
                },
            }),
    {
        let base = match self.equipment_base {
            Some(b) => b,
            None => return None,
        };
        if table_index == 0 {
            return None;
        }
        proof {
            assert(self.equipment_lookup_fits(table_index, slot, model_id));
        }
        let row = base + EQUIPMENT_RACE_STRIDE * ((table_index - 1) as usize)
            + EQUIPMENT_SLOT_STRIDE * slot as usize;
        let ghost b = self.bytes@;
        let ghost model = model_id as int;
        let mut passed: u32 = 0;
        let mut band: usize = 0;
        while band < EQUIPMENT_SLOT_BANDS
            invariant
                b == self.bytes@,
                model == model_id as int,
                self.equipment_base == Some(base),
                table_index >= 1,
                row as int == spec_equipment_row(base as int, table_index, slot),
                row + 48 <= usize::MAX,
                band <= 6,
                passed as int <= model,
                spec_equipment_from(b, row as int, band as int, passed as int, model)
                    == spec_equipment_from(b, row as int, 0, 0, model),
                spec_equipment_fits(b, row as int, band as int, passed as int, model),
            decreases 6 - band,
        {
            let first = match self.read32(row + band * 8) {
                Some(v) => v,
                None => return None,
            };
            let count = match self.read32(row + band * 8 + 4) {
                Some(v) => v,
                None => return None,
            };
            if first == 0 {
                band += 1;
                continue;
            }
            if (model_id as u32) < passed + count {
                return Some(first + model_id as u32 - passed);
            }
            passed += count;
            band += 1;
        }
        None
    }
}

/// An optional base as an offset.
pub open spec fn opt_usize(o: Option<int>) -> Option<usize> {
    match o {
        Some(v) => Some(v as usize),
        None => None,
    }
}

/// A per-race table read stays addressable from its base.
pub open spec fn table_reachable(base: Option<usize>, race_index: u8) -> bool {
    base matches Some(b) ==> b + 2 * race_index + 2 <= usize::MAX
}

/// The little-endian `u16` of race `race_index` in a per-race table at `base`.
pub open spec fn spec_table16(b: Seq<u8>, base: Option<usize>, race_index: u8) -> Option<u16> {
    match base {
        None => None,
        Some(off) => {
            let at = off + 2 * race_index;
            if at + 2 <= b.len() {
                Some(le16(b, at) as u16)
            } else {
                None
            }
        },
    }
}

} // verus!
