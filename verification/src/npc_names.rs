//! Per-zone NPC name tables: fixed 32-byte records, a NUL-padded 28-byte name
//! followed by the entity id the record belongs to.

use vstd::prelude::*;
use std::collections::BTreeMap;
use crate::bytes::{le32, read_u32_le};
use crate::text::{latin1, lemma_ascii_utf8, printable_ascii, string_from_chars, utf8_str};

verus! {

broadcast use vstd::laws_cmp::group_laws_cmp;

pub const NPC_LIST_FILE_ID_BASE: u32 = 6720;
pub const RECORD_SIZE: usize = 0x20;
pub const NAME_LEN: usize = 0x1C;
pub const ID_OFFSET: usize = NAME_LEN;
/// The top byte every zone-static entity id carries.
pub const ID_MARKER: u32 = 0x0100_0000;
const MAX_ZONE_ID: u16 = 0x0FFF;

/// A zone's NPC name table and the index from embedded entity id to record.
#[derive(Debug)]
pub struct NpcNameTable {
    zone_id: u16,
    source: String,
    bytes: Vec<u8>,
    by_id: BTreeMap<u32, usize>,
}

// ------------------------------------------------------------------ records

/// The entity id embedded in record `index`, when the whole record is present.
pub open spec fn spec_record_id(b: Seq<u8>, index: int) -> Option<u32> {
    let off = index * RECORD_SIZE;
    if index >= 0 && off + RECORD_SIZE <= b.len() {
        Some(le32(b, off + ID_OFFSET) as u32)
    } else {
        None
    }
}

/// Position of the first zero byte of `s`, or its length.
pub open spec fn first_nul(s: Seq<u8>, i: int) -> int
    decreases s.len() - i,
{
    if i >= s.len() {
        s.len() as int
    } else if s[i] == 0 {
        i
    } else {
        first_nul(s, i + 1)
    }
}

/// The name stored in record `index`: the bytes before the first NUL of its 28-byte
/// name field, when they are non-empty printable ASCII.
pub open spec fn spec_record_name(b: Seq<u8>, index: int) -> Option<Seq<char>> {
    let off = index * RECORD_SIZE;
    if index < 0 || off + NAME_LEN > b.len() {
        None
    } else {
        let field = b.subrange(off, off + NAME_LEN);
        let trimmed = field.subrange(0, first_nul(field, 0));
        if trimmed.len() == 0 || !printable_ascii(trimmed) {
            None
        } else {
            Some(latin1(trimmed))
        }
    }
}

/// First record in `[i, end)` carrying the non-zero id `id` (and a name, when
/// `named`).
pub open spec fn spec_first_with(b: Seq<u8>, id: u32, named: bool, i: int, end: int) -> Option<
    int,
>
    decreases end - i,
{
    if i >= end {
        None
    } else if spec_record_id(b, i) == Some(id) && (!named || spec_record_name(b, i) is Some) {
        Some(i)
    } else {
        spec_first_with(b, id, named, i + 1, end)
    }
}

/// The record an embedded id addresses among the first `end` records: the first
/// named record carrying it, else the first record carrying it at all.
pub open spec fn spec_pick(b: Seq<u8>, id: u32, end: int) -> Option<int> {
    match spec_first_with(b, id, true, 0, end) {
        Some(i) => Some(i),
        None => spec_first_with(b, id, false, 0, end),
    }
}

pub open spec fn spec_len(b: Seq<u8>) -> int {
    (b.len() as int) / (RECORD_SIZE as int)
}

/// Record `i` embeds a non-zero id.
pub open spec fn has_nonzero_id(b: Seq<u8>, i: int) -> bool {
    spec_record_id(b, i) is Some && spec_record_id(b, i).unwrap() != 0
}

/// Some record of the table carries a non-zero embedded id.
pub open spec fn spec_has_ids(b: Seq<u8>) -> bool {
    exists|i: int| 0 <= i < spec_len(b) && has_nonzero_id(b, i)
}

/// The name `lookup_by_slot` returns.
pub open spec fn spec_lookup_by_slot(b: Seq<u8>, slot: u16) -> Option<Seq<char>> {
    if slot == 0 {
        None
    } else {
        spec_record_name(b, slot as int)
    }
}

/// The name `lookup_by_id` returns for a table of `zone`.
pub open spec fn spec_lookup_by_id(b: Seq<u8>, zone: u16, npc_id: u32) -> Option<Seq<char>> {
    if npc_id / 0x0100_0000 != 1 || (npc_id / 4096) % 4096 != zone {
        None
    } else if npc_id != 0 && spec_pick(b, npc_id, spec_len(b)) is Some {
        spec_record_name(b, spec_pick(b, npc_id, spec_len(b)).unwrap())
    } else if !spec_has_ids(b) {
        spec_lookup_by_slot(b, (npc_id % 4096) as u16)
    } else {
        None
    }
}

proof fn lemma_first_with_extend(b: Seq<u8>, id: u32, named: bool, i: int, end: int)
    requires
        0 <= i <= end,
    ensures
        spec_first_with(b, id, named, i, end + 1) == match spec_first_with(b, id, named, i, end) {
            Some(j) => Some(j),
            None => if spec_record_id(b, end) == Some(id) && (!named || spec_record_name(
                b,
                end,
            ) is Some) {
                Some(end)
            } else {
                None
            },
        },
    decreases end - i,
{
    reveal_with_fuel(spec_first_with, 2);
    if i < end {
        lemma_first_with_extend(b, id, named, i + 1, end);
    }
}

proof fn lemma_first_with_found(b: Seq<u8>, id: u32, named: bool, i: int, end: int)
    ensures
        spec_first_with(b, id, named, i, end) matches Some(j) ==> i <= j < end
            && spec_record_id(b, j) == Some(id) && (named ==> spec_record_name(b, j) is Some),
    decreases end - i,
{
    if i < end {
        lemma_first_with_found(b, id, named, i + 1, end);
    }
}

fn record_id(bytes: &[u8], index: usize) -> (r: Option<u32>)
    ensures
        r == spec_record_id(bytes@, index as int),
{
    let n = bytes.len();
    let off = match index.checked_mul(RECORD_SIZE) {
        Some(o) => o,
        None => return None,
    };
    if off > n || n - off < RECORD_SIZE {
        return None;
    }
    read_u32_le(bytes, off + ID_OFFSET)
}

#[verifier::loop_isolation(false)]
fn record_name(bytes: &[u8], index: usize) -> (r: Option<&str>)
    ensures
        match spec_record_name(bytes@, index as int) {
            None => r is None,
            Some(name) => r matches Some(s) && s@ == name,
        },
{
    let n = bytes.len();
    let off = match index.checked_mul(RECORD_SIZE) {
        Some(o) => o,
        None => return None,
    };
    if off > n || n - off < NAME_LEN {
        return None;
    }
    let field = &bytes[off..off + NAME_LEN];
    let mut end: usize = 0;
    while end < NAME_LEN && field[end] != 0
        invariant
            field@.len() == NAME_LEN,
            end <= NAME_LEN,
            first_nul(field@, end as int) == first_nul(field@, 0),
        decreases NAME_LEN - end,
    {
        end += 1;
    }
    assert(first_nul(field@, end as int) == end as int);
    assert(field@ == bytes@.subrange(off as int, off + NAME_LEN));
    let trimmed = &field[0..end];
    if end == 0 {
        return None;
    }
    let mut k: usize = 0;
    while k < end
        invariant
            trimmed@.len() == end,
            k <= end,
            forall|j: int| 0 <= j < k ==> 0x20 <= #[trigger] trimmed@[j] <= 0x7E,
        decreases end - k,
    {
        if trimmed[k] < 0x20 || trimmed[k] > 0x7E {
            assert(!printable_ascii(trimmed@));
            return None;
        }
        k += 1;
    }
    proof {
        lemma_ascii_utf8(trimmed@);
    }
    utf8_str(trimmed)
}

fn index_by_embedded_id(bytes: &[u8]) -> (m: BTreeMap<u32, usize>)
    ensures
        forall|id: u32|
            #![trigger m@.contains_key(id)]
            m@.contains_key(id) <==> id != 0 && spec_pick(bytes@, id, spec_len(bytes@)) is Some,
        forall|id: u32|
            m@.contains_key(id) ==> Some(m@[id] as int) == spec_pick(
                bytes@,
                id,
                spec_len(bytes@),
            ),
{
    let mut map: BTreeMap<u32, usize> = BTreeMap::new();
    let count = bytes.len() / RECORD_SIZE;
    let mut index: usize = 0;
    while index < count
        invariant
            count as int == spec_len(bytes@),
            index <= count,
            forall|id: u32|
                #![trigger map@.contains_key(id)]
                map@.contains_key(id) <==> id != 0 && spec_pick(bytes@, id, index as int) is Some,
            forall|id: u32|
                map@.contains_key(id) ==> Some(map@[id] as int) == spec_pick(
                    bytes@,
                    id,
                    index as int,
                ),
        decreases count - index,
    {
        let ghost b = bytes@;
        let ghost i = index as int;
        proof {
            assert forall|id: u32| true implies spec_pick(b, id, i + 1) == if spec_pick(b, id, i) is Some
                && !(spec_record_name(b, spec_pick(b, id, i).unwrap()) is None
                && spec_record_id(b, i) == Some(id) && spec_record_name(b, i) is Some) {
                spec_pick(b, id, i)
            } else if spec_record_id(b, i) == Some(id) {
                Some(i)
            } else {
                None
            } by {
                lemma_first_with_extend(b, id, true, 0, i);
                lemma_first_with_extend(b, id, false, 0, i);
                lemma_first_with_found(b, id, true, 0, i);
                lemma_first_with_found(b, id, false, 0, i);
                if spec_first_with(b, id, true, 0, i) is None && spec_first_with(b, id, false, 0, i) is Some {
                    lemma_first_not_named(b, id, 0, i, spec_first_with(b, id, false, 0, i).unwrap());
                }
            }
        }
        let id = match record_id(bytes, index) {
            Some(id) => id,
            None => {
                index += 1;
                continue;
            },
        };
        if id == 0 {
            index += 1;
            continue;
        }
        match map.get(&id) {
            None => {
                map.insert(id, index);
            },
            Some(slot_ref) => {
                let slot = *slot_ref;
                if record_name(bytes, slot).is_none() && record_name(bytes, index).is_some() {
                    map.insert(id, index);
                }
            },
        }
        index += 1;
    }
    map
}

/// When no named record carries `id` before `end` but `j` is the first record that
/// carries it, record `j` has no name.
proof fn lemma_first_not_named(b: Seq<u8>, id: u32, i: int, end: int, j: int)
    requires
        spec_first_with(b, id, true, i, end) is None,
        spec_first_with(b, id, false, i, end) == Some(j),
    ensures
        spec_record_name(b, j) is None,
    decreases end - i,
{
    if i < end && !(spec_record_id(b, i) == Some(id)) {
        lemma_first_not_named(b, id, i + 1, end, j);
    }
}

/// The entity id `compose_id` builds: the marker byte, the zone shifted past the
/// 12-bit slot field, and the slot's low twelve bits.
pub open spec fn spec_compose_id(zone_id: u16, slot: u16) -> u32 {
    0x0100_0000u32 | ((zone_id as u32) << 12u32) | ((slot as u32) & 0xFFFu32)
}

/// The zone and slot `split_id` reads out of an entity id.
pub open spec fn spec_split_id(npc_id: u32) -> Option<(u16, u16)> {
    if npc_id / 0x0100_0000 == 1 {
        Some((((npc_id / 4096) % 4096) as u16, (npc_id % 4096) as u16))
    } else {
        None
    }
}

/// The entity id of a zone-static entity's 12-bit slot in a zone.
pub fn compose_id(zone_id: u16, slot: u16) -> (r: u32)
    ensures
        r == spec_compose_id(zone_id, slot),
        zone_id < 4096 ==> r == 0x0100_0000 + (zone_id as int) * 4096 + (slot as int) % 4096,
{
    let z = zone_id as u32;
    let s = slot as u32;
    assert(z < 65536 ==> ((s & 0xFFFu32) == s % 4096 && (z < 4096 ==> 0x0100_0000u32 | (z << 12u32) | (s
        & 0xFFFu32) == 0x0100_0000u32 + z * 4096 + (s & 0xFFFu32)))) by (bit_vector);
    ID_MARKER | (z << 12u32) | (s & 0xFFF)
}

/// Zone and slot of an entity id, when its top byte marks a zone-static entity.
pub fn split_id(npc_id: u32) -> (r: Option<(u16, u16)>)
    ensures
        r == spec_split_id(npc_id),
{
    assert((npc_id & 0xFF00_0000u32) == ID_MARKER <==> npc_id / 0x0100_0000 == 1) by (bit_vector);
    assert(((npc_id >> 12u32) & 0xFFFu32) == (npc_id / 4096) % 4096) by (bit_vector);
    assert((npc_id & 0xFFFu32) == npc_id % 4096) by (bit_vector);
    if (npc_id & 0xFF00_0000) != ID_MARKER {
        return None;
    }
    let zone = ((npc_id >> 12) & 0xFFF) as u16;
    if zone > MAX_ZONE_ID {
        return None;
    }
    let slot = (npc_id & 0xFFF) as u16;
    Some((zone, slot))
}

/// Splitting a composed id gives back its zone and the slot's low twelve bits, for
/// every zone id that fits the twelve-bit zone field.
pub proof fn law_split_inverts_compose(zone_id: u16, slot: u16)
    requires
        zone_id < 4096,
    ensures
        spec_split_id(spec_compose_id(zone_id, slot)) == Some((zone_id, (slot % 4096) as u16)),
{
    let z = zone_id as u32;
    let s = slot as u32;
    assert(z < 4096 ==> 0x0100_0000u32 | (z << 12u32) | (s & 0xFFFu32) == 0x0100_0000u32 + z * 4096
        + s % 4096) by (bit_vector);
    let id = spec_compose_id(zone_id, slot) as int;
    assert(id == 0x0100_0000 + (zone_id as int) * 4096 + (slot as int) % 4096);
    assert(id / 0x0100_0000 == 1);
    assert((id / 4096) % 4096 == zone_id as int);
    assert(id % 4096 == (slot as int) % 4096);
}

impl NpcNameTable {
    pub closed spec fn spec_bytes(&self) -> Seq<u8> {
        self.bytes@
    }

    pub closed spec fn spec_zone(&self) -> u16 {
        self.zone_id
    }

    pub closed spec fn spec_source(&self) -> Seq<char> {
        self.source@
    }

    pub closed spec fn wf(&self) -> bool {
        &&& forall|id: u32|
            #![trigger self.by_id@.contains_key(id)]
            self.by_id@.contains_key(id) <==> id != 0 && spec_pick(
                self.bytes@,
                id,
                spec_len(self.bytes@),
            ) is Some
        &&& forall|id: u32|
            self.by_id@.contains_key(id) ==> Some(self.by_id@[id] as int) == spec_pick(
                self.bytes@,
                id,
                spec_len(self.bytes@),
            )
    }

    /// A table over `bytes`, its source recorded as the given name.
    pub fn new(zone_id: u16, source: String, bytes: Vec<u8>) -> (t: NpcNameTable)
        ensures
            t.wf(),
            t.spec_zone() == zone_id,
            t.spec_bytes() == bytes@,
            t.spec_source() == source@,
    {
        let by_id = index_by_embedded_id(bytes.as_slice());
        NpcNameTable { zone_id, source, bytes, by_id }
    }

    /// A table over bytes already in memory.
    pub fn from_bytes(zone_id: u16, bytes: Vec<u8>) -> (t: NpcNameTable)
        ensures
            t.wf(),
            t.spec_zone() == zone_id,
            t.spec_bytes() == bytes@,
            t.spec_source() == seq!['<', 'i', 'n', '-', 'm', 'e', 'm', 'o', 'r', 'y', '>'],
    {
        let mut name: Vec<char> = Vec::new();
        name.push('<');
        name.push('i');
        name.push('n');
        name.push('-');
        name.push('m');
        name.push('e');
        name.push('m');
        name.push('o');
        name.push('r');
        name.push('y');
        name.push('>');
        assert(name@ =~= seq!['<', 'i', 'n', '-', 'm', 'e', 'm', 'o', 'r', 'y', '>']);
        Self::new(zone_id, string_from_chars(name), bytes)
    }

    pub fn zone_id(&self) -> (r: u16)
        ensures
            r == self.spec_zone(),
    {
        self.zone_id
    }

    /// Where the bytes came from.
    pub fn source(&self) -> (r: &str)
        ensures
            r@ == self.spec_source(),
    {
        self.source.as_str()
    }

    /// Number of whole records.
    pub fn len(&self) -> (r: usize)
        ensures
            r as int == spec_len(self.spec_bytes()),
    {
        self.bytes.len() / RECORD_SIZE
    }

    pub fn is_empty(&self) -> (r: bool)
        ensures
            r == (spec_len(self.spec_bytes()) == 0),
    {
        self.len() == 0
    }

    /// The entity id embedded in record `index`.
    pub fn record_id(&self, index: usize) -> (r: Option<u32>)
        ensures
            r == spec_record_id(self.spec_bytes(), index as int),
    {
        record_id(self.bytes.as_slice(), index)
    }

    /// The name in record `slot`; slot 0 never names anyone.
    pub fn lookup_by_slot(&self, slot: u16) -> (r: Option<&str>)
        ensures
            match spec_lookup_by_slot(self.spec_bytes(), slot) {
                None => r is None,
                Some(name) => r matches Some(s) && s@ == name,
            },
    {
        if slot == 0 {
            return None;
        }
        record_name(self.bytes.as_slice(), slot as usize)
    }

    /// The name of an entity id of this table's zone: the record that embeds the id
    /// (the first named one when several do), or, in a table where no record embeds
    /// any id, the record at the id's slot.
    pub fn lookup_by_id(&self, npc_id: u32) -> (r: Option<&str>)
        requires
            self.wf(),
        ensures
            match spec_lookup_by_id(self.spec_bytes(), self.spec_zone(), npc_id) {
                None => r is None,
                Some(name) => r matches Some(s) && s@ == name,
            },
    {
        assert((npc_id & 0xFF00_0000u32) == ID_MARKER <==> npc_id / 0x0100_0000 == 1) by (bit_vector);
        assert(((npc_id >> 12u32) & 0xFFFu32) == (npc_id / 4096) % 4096) by (bit_vector);
        assert((npc_id & 0xFFFu32) == npc_id % 4096) by (bit_vector);
        if (npc_id & 0xFF00_0000) != ID_MARKER {
            return None;
        }
        let zone_bits = ((npc_id >> 12) & 0xFFF) as u16;
        if zone_bits != self.zone_id {
            return None;
        }
        if let Some(index_ref) = self.by_id.get(&npc_id) {
            return record_name(self.bytes.as_slice(), *index_ref);
        }
        if self.by_id.is_empty() {
            proof {
                if spec_has_ids(self.bytes@) {
                    let i = choose|i: int|
                        0 <= i < spec_len(self.bytes@) && has_nonzero_id(self.bytes@, i);
                    let id = spec_record_id(self.bytes@, i).unwrap();
                    lemma_first_with_some(self.bytes@, id, 0, spec_len(self.bytes@), i);
                    assert(self.by_id@.contains_key(id));
                }
            }
            return self.lookup_by_slot((npc_id & 0xFFF) as u16);
        }
        proof {
            assert(!(npc_id != 0 && spec_pick(self.bytes@, npc_id, spec_len(self.bytes@)) is Some));
            let k = choose|k: u32| self.by_id@.contains_key(k);
            assert(self.by_id@.contains_key(k));
            lemma_first_with_found(self.bytes@, k, true, 0, spec_len(self.bytes@));
            lemma_first_with_found(self.bytes@, k, false, 0, spec_len(self.bytes@));
            let j = spec_pick(self.bytes@, k, spec_len(self.bytes@)).unwrap();
            assert(has_nonzero_id(self.bytes@, j));
        }
        None
    }
}

proof fn lemma_first_with_some(b: Seq<u8>, id: u32, i: int, end: int, w: int)
    requires
        i <= w < end,
        spec_record_id(b, w) == Some(id),
    ensures
        spec_first_with(b, id, false, i, end) is Some,
    decreases end - i,
{
    if i < w {
        lemma_first_with_some(b, id, i + 1, end, w);
    }
}

} // verus!
