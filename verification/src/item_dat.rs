//! Item DAT blocks: the fixed-size records the client keeps per item id, each
//! byte rotated, decoded into the item's names, flags and equipment tail.
//! A file is a gap-free ascending array of blocks, so block `id - base` holds
//! item `id`, where `base` is the id stored in the first block.

use vstd::prelude::*;
use crate::bytes::{le16, le32, read_u16_le, read_u32_le};
use crate::key_item::{rotate_right, rotr};
use crate::text::{latin1, string_from_chars};

verus! {

/// The per-type item DATs under an install root, in lookup order.
pub const ITEM_DAT_ROM_PATHS: [&'static str; 7] = [
    "ROM/118/106.DAT",
    "ROM/118/107.DAT",
    "ROM/118/108.DAT",
    "ROM/118/109.DAT",
    "ROM/174/48.DAT",
    "ROM/286/73.DAT",
    "ROM/301/115.DAT",
];

/// Where a block's icon starts; the string table lives before it.
pub const ITEM_ICON_OFFSET: usize = 0x280;
/// Every stored byte is the plain byte rotated left by this many bits.
pub const ITEM_BYTE_SHIFT: u32 = 5;
pub const ITEM_FLAG_RARE: u16 = 0x8000;
pub const ITEM_FLAG_EX: u16 = 0x4000;
pub const ITEM_FLAGS_OFFSET: usize = 0x04;
/// The item type in the oldest layout; later layouts shift the header run.
pub const ITEM_TYPE_OFFSET: usize = 0x08;
/// The equipment tail (level, slots, races, jobs) in the oldest layout.
pub const ITEM_EQUIPMENT_TAIL_OFFSET: usize = 0x0E;
/// Where the string-table probe starts.
pub const STRING_TABLE_PROBE_START: usize = 0x10;
pub const STRING_TABLE_MAX_ENTRIES: u32 = 9;
pub const STRING_TABLE_META_LEN: usize = 8;
pub const STRING_TABLE_COUNT_LEN: usize = 4;

/// What a block layout fixes: the block size, how far the header run after
/// the flags is shifted from the oldest layout, and the gap before the job mask.
#[derive(Debug, Clone, Copy, PartialEq, Eq)]
pub struct ItemBlockShape {
    pub stride: usize,
    pub header_shift: u8,
    pub races_gap: u8,
}

#[derive(Debug, Clone, PartialEq, Eq)]
pub struct ItemStatic {
    pub name: String,
    /// The chat-log name, its own string in the block; the display name when
    /// the block carries none.
    pub log_name: String,
    pub log_name_plural: String,
    pub description: String,
    pub slot_mask: u16,
    pub jobs_mask: u32,
    pub races_mask: u16,
    pub level: u8,
    pub flags: u16,
    pub max_charges: u8,
    pub recast_base: u32,
    pub item_type: u8,
}

impl ItemStatic {
    pub fn is_rare(&self) -> (r: bool)
        ensures
            r == (self.flags >= 0x8000),
    {
        self.flags >= ITEM_FLAG_RARE
    }

    pub fn is_ex(&self) -> (r: bool)
        ensures
            r == ((self.flags / 0x4000) % 2 == 1),
    {
        (self.flags / ITEM_FLAG_EX) % 2 == 1
    }
}

pub open spec fn is_equipment(id: int) -> bool {
    0x2800 <= id <= 0x6FFF
}

pub open spec fn is_weapon(id: int) -> bool {
    0x4000 <= id <= 0x59FF
}

/// The stored bytes `s` decoded: each rotated right by the item shift.
pub open spec fn unrotate(s: Seq<u8>) -> Seq<u8> {
    s.map_values(|x: u8| rotr(x, ITEM_BYTE_SHIFT))
}

/// The first position from `i` on holding a zero byte, or the length.
pub open spec fn text_end(b: Seq<u8>, i: int) -> int
    decreases b.len() - i,
{
    if i >= b.len() || b[i] == 0 {
        i
    } else {
        text_end(b, i + 1)
    }
}

/// A string stored at `at`: a one, six zero words, then its bytes up to the
/// first zero (or the block's end), one character per byte.
pub open spec fn inline_string(b: Seq<u8>, at: int) -> Option<Seq<char>> {
    if at + 28 <= b.len() && le32(b, at) == 1 && le32(b, at + 4) == 0 && le32(b, at + 8) == 0
        && le32(b, at + 12) == 0 && le32(b, at + 16) == 0 && le32(b, at + 20) == 0 && le32(
        b,
        at + 24,
    ) == 0 {
        Some(latin1(b.subrange(at + 28, text_end(b, at + 28))))
    } else {
        None
    }
}

/// The string entry `i` of the table at `t` points at.
pub open spec fn table_string(b: Seq<u8>, t: int, i: int) -> Option<Seq<char>> {
    inline_string(b, t + le32(b, t + 4 + 8 * i))
}

pub open spec fn or_empty(o: Option<Seq<char>>) -> Seq<char> {
    match o {
        Some(s) => s,
        None => Seq::empty(),
    }
}

/// A block's strings: display name, log name, plural log name, description.
pub type ItemText = (Seq<char>, Seq<char>, Seq<char>, Seq<char>);

/// The strings of the `count`-entry table at `t`: a five-entry table names the
/// log forms at entries 2 and 3 and the description at 4, a two-entry one the
/// description at 1; empty log forms fall back to the name, and a table whose
/// descriptors do not fit, or whose name is missing or empty, gives nothing.
pub open spec fn string_table(b: Seq<u8>, t: int, count: int) -> Option<ItemText> {
    if t + 4 + 8 * count > b.len() {
        None
    } else {
        match table_string(b, t, 0) {
            None => None,
            Some(name) => {
                let log = if count == 5 {
                    or_empty(table_string(b, t, 2))
                } else {
                    Seq::empty()
                };
                let plural = if count == 5 {
                    or_empty(table_string(b, t, 3))
                } else {
                    Seq::empty()
                };
                let desc = if count == 5 {
                    or_empty(table_string(b, t, 4))
                } else if count == 2 {
                    or_empty(table_string(b, t, 1))
                } else {
                    Seq::empty()
                };
                if name.len() == 0 {
                    None
                } else {
                    Some(
                        (
                            name,
                            if log.len() == 0 {
                                name
                            } else {
                                log
                            },
                            if plural.len() == 0 {
                                name
                            } else {
                                plural
                            },
                            desc,
                        ),
                    )
                }
            },
        }
    }
}

/// The probe for the string table from `p` on, a word at a time below the
/// icon: a count of 1 to 9 whose first descriptor points just past the
/// descriptors, with the descriptors before the icon, is a candidate; the first
/// candidate that reads wins. A word that does not fit ends the probe empty.
pub open spec fn probe_strings(b: Seq<u8>, p: int) -> Option<ItemText>
    decreases ITEM_ICON_OFFSET - p,
{
    if p < 0 || p + 4 > ITEM_ICON_OFFSET || p + 4 > b.len() {
        None
    } else {
        let count = le32(b, p);
        if 1 <= count <= 9 {
            if p + 8 > b.len() {
                None
            } else if le32(b, p + 4) == 4 + 8 * count && p + 4 + 8 * count <= ITEM_ICON_OFFSET {
                match string_table(b, p, count) {
                    Some(s) => Some(s),
                    None => probe_strings(b, p + 4),
                }
            } else {
                probe_strings(b, p + 4)
            }
        } else {
            probe_strings(b, p + 4)
        }
    }
}

/// The equipment tail of a block holding `id`: slots, races, jobs, level,
/// charges and recast, read from where the layout puts them; zeros for other
/// items; nothing when a field falls past the block.
pub open spec fn spec_tail(b: Seq<u8>, hs: int, rg: int) -> Option<(int, int, int, int, int, int)> {
    let id = le32(b, 0);
    if !is_equipment(id) {
        Some((0, 0, 0, 0, 0, 0))
    } else {
        let off = ITEM_EQUIPMENT_TAIL_OFFSET + hs;
        let jobs_at = off + 6 + rg;
        let charges_at = jobs_at + 8 + if is_weapon(id) {
            12int
        } else {
            0int
        };
        let recast_at = charges_at + 4;
        if recast_at + 4 > b.len() {
            None
        } else {
            let level = le16(b, off);
            Some(
                (
                    le16(b, off + 2),
                    le16(b, off + 4),
                    le32(b, jobs_at),
                    if level > 255 {
                        255
                    } else {
                        level
                    },
                    b[charges_at] as int,
                    le32(b, recast_at),
                ),
            )
        }
    }
}

/// Whether a decoded block reads at all under a layout.
pub open spec fn block_reads(b: Seq<u8>, hs: int, rg: int) -> bool {
    ITEM_TYPE_OFFSET + hs + 2 <= b.len() && spec_tail(b, hs, rg) is Some
}

/// `it` is what the decoded block `b` holds under a layout.
pub open spec fn item_matches(it: ItemStatic, b: Seq<u8>, hs: int, rg: int) -> bool {
    let tail = spec_tail(b, hs, rg)->0;
    let ty = le16(b, ITEM_TYPE_OFFSET + hs);
    let text = match probe_strings(b, STRING_TABLE_PROBE_START as int) {
        Some(t) => t,
        None => (Seq::empty(), Seq::empty(), Seq::empty(), Seq::empty()),
    };
    &&& it.flags == le16(b, ITEM_FLAGS_OFFSET as int)
    &&& it.item_type == if ty > 255 {
        255
    } else {
        ty
    }
    &&& it.slot_mask == tail.0
    &&& it.races_mask == tail.1
    &&& it.jobs_mask == tail.2
    &&& it.level == tail.3
    &&& it.max_charges == tail.4
    &&& it.recast_base == tail.5
    &&& it.name@ == text.0
    &&& it.log_name@ == text.1
    &&& it.log_name_plural@ == text.2
    &&& it.description@ == text.3
}

fn u32_at(b: &[u8], o: usize) -> (r: u32)
    requires
        o + 4 <= b@.len(),
    ensures
        r == le32(b@, o as int),
{
    read_u32_le(b, o).unwrap()
}

fn u16_at(b: &[u8], o: usize) -> (r: u16)
    requires
        o + 2 <= b@.len(),
    ensures
        r == le16(b@, o as int),
{
    read_u16_le(b, o).unwrap()
}

fn read_inline_string(b: &[u8], at: usize) -> (r: Option<Vec<char>>)
    ensures
        match inline_string(b@, at as int) {
            Some(s) => r matches Some(v) && v@ == s,
            None => r is None,
        },
{
    let len = b.len();
    if at > len || len - at < 28 {
        return None;
    }
    if u32_at(b, at) != 1 {
        return None;
    }
    if u32_at(b, at + 4) != 0 || u32_at(b, at + 8) != 0 || u32_at(b, at + 12) != 0 || u32_at(b, at + 16)
        != 0 || u32_at(b, at + 20) != 0 || u32_at(b, at + 24) != 0 {
        return None;
    }
    let start = at + 28;
    let mut end = start;
    let mut out: Vec<char> = Vec::new();
    while end < len && b[end] != 0
        invariant
            len == b@.len(),
            start <= end <= len,
            text_end(b@, start as int) == text_end(b@, end as int),
            out@ == latin1(b@.subrange(start as int, end as int)),
        decreases len - end,
    {
        out.push(b[end] as char);
        end += 1;
        proof {
            assert(b@.subrange(start as int, end as int) =~= b@.subrange(start as int, end - 1).push(
                b@[end - 1],
            ));
            assert(out@ =~= latin1(b@.subrange(start as int, end as int)));
        }
    }
    Some(out)
}

fn table_string_at(b: &[u8], t: usize, i: usize) -> (r: Option<Vec<char>>)
    requires
        t + 4 + 8 * i + 8 <= b@.len(),
    ensures
        match table_string(b@, t as int, i as int) {
            Some(s) => r matches Some(v) && v@ == s,
            None => r is None,
        },
{
    let _ = b.len();
    let rel = u32_at(b, t + 4 + 8 * i) as usize;
    if rel > b.len() - t {
        proof {
            assert(inline_string(b@, t + le32(b@, t + 4 + 8 * i)) is None);
        }
        return None;
    }
    read_inline_string(b, t + rel)
}

fn or_empty_vec(o: Option<Vec<char>>) -> (r: Vec<char>)
    ensures
        r@ == match o {
            Some(v) => v@,
            None => Seq::<char>::empty(),
        },
{
    match o {
        Some(v) => v,
        None => Vec::new(),
    }
}

struct ItemStrings {
    name: Vec<char>,
    log_name: Vec<char>,
    log_name_plural: Vec<char>,
    description: Vec<char>,
}

spec fn strings_are(s: ItemStrings, t: ItemText) -> bool {
    s.name@ == t.0 && s.log_name@ == t.1 && s.log_name_plural@ == t.2 && s.description@ == t.3
}

fn parse_string_table(b: &[u8], t: usize, count: usize) -> (r: Option<ItemStrings>)
    requires
        1 <= count <= 9,
        t + 4 <= ITEM_ICON_OFFSET,
    ensures
        match string_table(b@, t as int, count as int) {
            Some(s) => r matches Some(v) && strings_are(v, s),
            None => r is None,
        },
{
    let len = b.len();
    if len < t + 4 + 8 * count {
        return None;
    }
    let name = match table_string_at(b, t, 0) {
        None => return None,
        Some(n) => n,
    };
    let log = if count == 5 {
        or_empty_vec(table_string_at(b, t, 2))
    } else {
        Vec::new()
    };
    let plural = if count == 5 {
        or_empty_vec(table_string_at(b, t, 3))
    } else {
        Vec::new()
    };
    let description = if count == 5 {
        or_empty_vec(table_string_at(b, t, 4))
    } else if count == 2 {
        or_empty_vec(table_string_at(b, t, 1))
    } else {
        Vec::new()
    };
    if name.len() == 0 {
        return None;
    }
    let log_name = if log.len() == 0 {
        name.clone()
    } else {
        log
    };
    let log_name_plural = if plural.len() == 0 {
        name.clone()
    } else {
        plural
    };
    proof {
        assert(name@.len() > 0);
    }
    Some(ItemStrings { name, log_name, log_name_plural, description })
}

fn read_item_strings(b: &[u8]) -> (r: Option<ItemStrings>)
    ensures
        match probe_strings(b@, STRING_TABLE_PROBE_START as int) {
            Some(s) => r matches Some(v) && strings_are(v, s),
            None => r is None,
        },
{
    let len = b.len();
    let mut p: usize = STRING_TABLE_PROBE_START;
    while p + 4 <= ITEM_ICON_OFFSET
        invariant
            STRING_TABLE_PROBE_START <= p <= ITEM_ICON_OFFSET,
            len == b@.len(),
            probe_strings(b@, STRING_TABLE_PROBE_START as int) == probe_strings(b@, p as int),
        decreases ITEM_ICON_OFFSET - p,
    {
        if len < p + 4 {
            return None;
        }
        let count = u32_at(b, p);
        if 1 <= count && count <= STRING_TABLE_MAX_ENTRIES {
            if len < p + 8 {
                return None;
            }
            let n = count as usize;
            let first_rel = u32_at(b, p + 4) as usize;
            if first_rel == 4 + 8 * n && p + 4 + 8 * n <= ITEM_ICON_OFFSET {
                match parse_string_table(b, p, n) {
                    Some(s) => return Some(s),
                    None => {},
                }
            }
        }
        p += 4;
    }
    None
}

/// Decodes one plain block under a layout: `None` when the item type or a
/// field of the equipment tail falls past the block.
pub fn decode_item_static(block: &[u8], header_shift: u8, races_gap: u8) -> (r: Option<ItemStatic>)
    ensures
        r is Some <==> block_reads(block@, header_shift as int, races_gap as int),
        r matches Some(it) ==> item_matches(it, block@, header_shift as int, races_gap as int),
{
    let len = block.len();
    let hs = header_shift as usize;
    let rg = races_gap as usize;
    if len < ITEM_TYPE_OFFSET + hs + 2 {
        return None;
    }
    let stored_id = u32_at(block, 0);
    let flags = u16_at(block, ITEM_FLAGS_OFFSET);
    let ty = u16_at(block, ITEM_TYPE_OFFSET + hs);
    let equipment = 0x2800 <= stored_id && stored_id <= 0x6FFF;
    let mut slot_mask: u16 = 0;
    let mut races_mask: u16 = 0;
    let mut jobs_mask: u32 = 0;
    let mut level: u8 = 0;
    let mut max_charges: u8 = 0;
    let mut recast_base: u32 = 0;
    if equipment {
        let off = ITEM_EQUIPMENT_TAIL_OFFSET + hs;
        let jobs_at = off + 6 + rg;
        let weapon = 0x4000 <= stored_id && stored_id <= 0x59FF;
        let charges_at = jobs_at + 8 + if weapon {
            12
        } else {
            0
        };
        let recast_at = charges_at + 4;
        if len < recast_at + 4 {
            return None;
        }
        let raw_level = u16_at(block, off);
        slot_mask = u16_at(block, off + 2);
        races_mask = u16_at(block, off + 4);
        jobs_mask = u32_at(block, jobs_at);
        level = if raw_level > 255 {
            255
        } else {
            raw_level as u8
        };
        max_charges = block[charges_at];
        recast_base = u32_at(block, recast_at);
    }
    let strings = match read_item_strings(block) {
        Some(s) => s,
        None => ItemStrings {
            name: Vec::new(),
            log_name: Vec::new(),
            log_name_plural: Vec::new(),
            description: Vec::new(),
        },
    };
    Some(
        ItemStatic {
            name: string_from_chars(strings.name),
            log_name: string_from_chars(strings.log_name),
            log_name_plural: string_from_chars(strings.log_name_plural),
            description: string_from_chars(strings.description),
            slot_mask,
            jobs_mask,
            races_mask,
            level,
            flags,
            max_charges,
            recast_base,
            item_type: if ty > 255 {
                255
            } else {
                ty as u8
            },
        },
    )
}

/// The stored bytes `s[lo..hi]` decoded.
fn unrotate_range(s: &[u8], lo: usize, hi: usize) -> (r: Vec<u8>)
    requires
        lo <= hi <= s@.len(),
    ensures
        r@ == unrotate(s@.subrange(lo as int, hi as int)),
{
    let mut out: Vec<u8> = Vec::new();
    let mut i = lo;
    while i < hi
        invariant
            lo <= i <= hi <= s@.len(),
            out@ == unrotate(s@.subrange(lo as int, i as int)),
        decreases hi - i,
    {
        out.push(rotate_right(s[i], ITEM_BYTE_SHIFT));
        i += 1;
        proof {
            assert(s@.subrange(lo as int, i as int) =~= s@.subrange(lo as int, i - 1).push(s@[i - 1]));
            assert(out@ =~= unrotate(s@.subrange(lo as int, i as int)));
        }
    }
    out
}

/// The decoded block of item `id` in a whole item DAT laid out with blocks of
/// `stride` bytes: block `id - base`, where `base` is the id the first block
/// stores, when it is there and stores `id`.
pub open spec fn spec_block(dat: Seq<u8>, id: int, stride: int) -> Option<Seq<u8>> {
    if dat.len() < 4 {
        None
    } else {
        let base = le32(unrotate(dat.subrange(0, 4)), 0);
        if base > id {
            None
        } else {
            let start = (id - base) * stride;
            if start + stride > dat.len() {
                None
            } else {
                let blk = unrotate(dat.subrange(start, start + stride));
                if blk.len() < 4 || le32(blk, 0) != id {
                    None
                } else {
                    Some(blk)
                }
            }
        }
    }
}

fn block_of(dat: &[u8], item_id: u16, stride: usize) -> (r: Option<Vec<u8>>)
    ensures
        match spec_block(dat@, item_id as int, stride as int) {
            Some(blk) => r matches Some(v) && v@ == blk,
            None => r is None,
        },
{
    let len = dat.len();
    if len < 4 {
        return None;
    }
    let head = unrotate_range(dat, 0, 4);
    let base = u32_at(head.as_slice(), 0);
    if base > item_id as u32 {
        return None;
    }
    let index = (item_id as u32 - base) as u128;
    let st = stride as u128;
    assert(index * st <= 65535 * 0xFFFF_FFFF_FFFF_FFFFu128) by (nonlinear_arith)
        requires
            index <= 65535,
            st <= 0xFFFF_FFFF_FFFF_FFFFu128,
    ;
    let start_wide = index * st;
    if start_wide + st > len as u128 {
        return None;
    }
    let start = start_wide as usize;
    let block = unrotate_range(dat, start, start + stride);
    if block.len() < 4 || u32_at(block.as_slice(), 0) != item_id as u32 {
        return None;
    }
    Some(block)
}

/// Item `item_id` from a whole item DAT of the given layout.
pub fn lookup(dat_bytes: &[u8], item_id: u16, shape: &ItemBlockShape) -> (r: Option<ItemStatic>)
    ensures
        match spec_block(dat_bytes@, item_id as int, shape.stride as int) {
            Some(blk) => {
                &&& (r is Some <==> block_reads(blk, shape.header_shift as int, shape.races_gap as int))
                &&& r matches Some(it) ==> item_matches(
                    it,
                    blk,
                    shape.header_shift as int,
                    shape.races_gap as int,
                )
            },
            None => r is None,
        },
{
    match block_of(dat_bytes, item_id, shape.stride) {
        None => None,
        Some(block) => decode_item_static(block.as_slice(), shape.header_shift, shape.races_gap),
    }
}


/// Why a present item DAT could not be used.
#[derive(Debug, Clone, PartialEq, Eq)]
pub enum ItemDatError {
    /// No known layout ends the first block on the trailer byte.
    LayoutUndetected { path: String },
    /// The file is empty, or not a whole number of blocks of its layout.
    UnalignedLength { path: String, len: usize, stride: usize },
    /// The first block's id could not be read.
    HeaderUnreadable { path: String },
}

/// One opened item DAT: items `base .. base + blocks`, one block each.
#[derive(Debug, Clone)]
pub struct ItemDatFile {
    pub path: String,
    pub base: u16,
    pub blocks: usize,
    pub shape: ItemBlockShape,
}

/// The id a block stores, from its first four stored bytes.
pub open spec fn head_id(head: Seq<u8>) -> int {
    le32(unrotate(head), 0)
}

/// Whether the file holds the block of item `id`.
pub open spec fn covers(f: ItemDatFile, id: int) -> bool {
    f.base <= id && id - f.base < f.blocks
}

/// Distinct elements of `s`, each where it first occurs.
pub open spec fn first_occurrences<T>(s: Seq<T>) -> Seq<T>
    decreases s.len(),
{
    if s.len() == 0 {
        Seq::empty()
    } else {
        let d = first_occurrences(s.drop_last());
        if d.contains(s.last()) {
            d
        } else {
            d.push(s.last())
        }
    }
}

/// The retail item database across the per-type DATs. Each file is a
/// gap-free ascending array of fixed-size blocks, so a lookup picks the file
/// whose `[base, base + blocks)` covers the id and reads block `id - base`.
pub struct ItemTable {
    files: Vec<ItemDatFile>,
    skipped: Vec<ItemDatError>,
}

fn head_id_of(h: &[u8; 4]) -> (r: u32)
    ensures
        r == head_id(h@),
{
    let s: &[u8] = h;
    let d = unrotate_range(s, 0, 4);
    proof {
        assert(s@.subrange(0, 4) =~= h@);
    }
    u32_at(d.as_slice(), 0)
}

impl ItemTable {
    /// Every file's blocks fit in the address space, as the file's own length does.
    #[verifier::type_invariant]
    spec fn fits(self) -> bool {
        forall|i: int|
            0 <= i < self.files@.len() ==> (#[trigger] self.files@[i]).blocks * self.files@[i].shape.stride
                <= usize::MAX
    }

    pub closed spec fn spec_files(&self) -> Seq<ItemDatFile> {
        self.files@
    }

    pub closed spec fn spec_skipped(&self) -> Seq<ItemDatError> {
        self.skipped@
    }

    /// A table with no files yet.
    pub fn new() -> (r: ItemTable)
        ensures
            r.spec_files().len() == 0,
            r.spec_skipped().len() == 0,
    {
        ItemTable { files: Vec::new(), skipped: Vec::new() }
    }

    /// Takes in the present item DAT at `path`, `len` bytes long, whose layout
    /// probe gave `shape`, and whose stored bytes at offset 0 and at one
    /// stride read `first_head` and `second_head` (`None` where unreadable).
    /// A usable file is added; an unusable one is recorded as skipped. A file
    /// whose second block stores id 0 holds a single real block.
    pub fn add_file(
        &mut self,
        path: String,
        len: usize,
        shape: Option<ItemBlockShape>,
        first_head: Option<[u8; 4]>,
        second_head: Option<[u8; 4]>,
    )
        ensures
            match shape {
                None => {
                    &&& final(self).spec_files() == old(self).spec_files()
                    &&& final(self).spec_skipped() == old(self).spec_skipped().push(
                        ItemDatError::LayoutUndetected { path },
                    )
                },
                Some(s) => if len == 0 || s.stride == 0 || len % s.stride != 0 {
                    &&& final(self).spec_files() == old(self).spec_files()
                    &&& final(self).spec_skipped() == old(self).spec_skipped().push(
                        ItemDatError::UnalignedLength { path, len, stride: s.stride },
                    )
                } else {
                    match first_head {
                        None => {
                            &&& final(self).spec_files() == old(self).spec_files()
                            &&& final(self).spec_skipped() == old(self).spec_skipped().push(
                                ItemDatError::HeaderUnreadable { path },
                            )
                        },
                        Some(h) => {
                            &&& final(self).spec_skipped() == old(self).spec_skipped()
                            &&& final(self).spec_files() == old(self).spec_files().push(
                                ItemDatFile {
                                    path,
                                    base: head_id(h@) as u16,
                                    blocks: if second_head matches Some(h2) && head_id(h2@) == 0 {
                                        1
                                    } else {
                                        (len / s.stride) as usize
                                    },
                                    shape: s,
                                },
                            )
                        },
                    }
                },
            },
    {
        proof {
            use_type_invariant(&*self);
        }
        let s = match shape {
            None => {
                self.record_skip(ItemDatError::LayoutUndetected { path });
                return;
            },
            Some(s) => s,
        };
        let stride = s.stride;
        if len == 0 || stride == 0 || len % stride != 0 {
            self.record_skip(ItemDatError::UnalignedLength { path, len, stride });
            return;
        }
        let base = match first_head {
            None => {
                self.record_skip(ItemDatError::HeaderUnreadable { path });
                return;
            },
            Some(h) => head_id_of(&h),
        };
        let single = match second_head {
            Some(h2) => head_id_of(&h2) == 0,
            None => false,
        };
        let blocks = if single {
            1
        } else {
            len / stride
        };
        assert(blocks * stride <= len) by (nonlinear_arith)
            requires
                stride > 0,
                blocks == 1 || blocks == len / stride,
                len % stride == 0,
                len > 0,
        {
            if blocks == 1 {
                assert(len == stride * (len / stride) + len % stride);
                assert(len / stride >= 1);
            }
        }
        let mut files: Vec<ItemDatFile> = Vec::new();
        std::mem::swap(&mut files, &mut self.files);
        files.push(ItemDatFile { path, base: base as u16, blocks, shape: s });
        self.files = files;
    }

    fn record_skip(&mut self, e: ItemDatError)
        ensures
            final(self).spec_files() == old(self).spec_files(),
            final(self).spec_skipped() == old(self).spec_skipped().push(e),
    {
        proof {
            use_type_invariant(&*self);
        }
        let mut skipped: Vec<ItemDatError> = Vec::new();
        std::mem::swap(&mut skipped, &mut self.skipped);
        skipped.push(e);
        self.skipped = skipped;
    }

    pub fn is_empty(&self) -> (r: bool)
        ensures
            r == (self.spec_files().len() == 0),
    {
        self.files.len() == 0
    }

    /// The present files that could not be used, in the order they were taken in.
    pub fn skipped(&self) -> (r: &[ItemDatError])
        ensures
            r@ == self.spec_skipped(),
    {
        self.skipped.as_slice()
    }

    /// The usable files, in the order they were taken in.
    pub fn files(&self) -> (r: &[ItemDatFile])
        ensures
            r@ == self.spec_files(),
    {
        self.files.as_slice()
    }

    /// The layouts of the opened files, each once, in file order.
    pub fn layouts(&self) -> (r: Vec<ItemBlockShape>)
        ensures
            r@ == first_occurrences(self.spec_files().map_values(|f: ItemDatFile| f.shape)),
    {
        let mut out: Vec<ItemBlockShape> = Vec::new();
        let mut i: usize = 0;
        while i < self.files.len()
            invariant
                i <= self.files@.len(),
                out@ == first_occurrences(self.files@.take(i as int).map_values(|f: ItemDatFile| f.shape)),
            decreases self.files.len() - i,
        {
            let sh = self.files[i].shape;
            let mut seen = false;
            let mut k: usize = 0;
            while k < out.len()
                invariant
                    k <= out@.len(),
                    seen <==> exists|j: int| 0 <= j < k && out@[j] == sh,
                decreases out.len() - k,
            {
                let o = out[k];
                if o.stride == sh.stride && o.header_shift == sh.header_shift && o.races_gap == sh.races_gap {
                    seen = true;
                }
                k += 1;
            }
            let ghost prev = self.files@.take(i as int).map_values(|f: ItemDatFile| f.shape);
            proof {
                let nxt = self.files@.take(i + 1).map_values(|f: ItemDatFile| f.shape);
                assert(nxt.drop_last() =~= prev);
                assert(nxt.last() == sh);
                if seen {
                    let j = choose|j: int| 0 <= j < out@.len() && out@[j] == sh;
                    assert(out@.contains(sh));
                } else {
                    assert(!out@.contains(sh));
                }
            }
            if !seen {
                out.push(sh);
            }
            i += 1;
        }
        proof {
            assert(self.files@.take(i as int) =~= self.files@);
        }
        out
    }

    /// Where item `item_id`'s block lies: the first file covering the id, and
    /// the block's byte offset in it.
    pub fn locate(&self, item_id: u16) -> (r: Option<(usize, usize)>)
        ensures
            match r {
                None => forall|j: int| 0 <= j < self.spec_files().len() ==> !covers(#[trigger] self.spec_files()[j], item_id as int),
                Some((i, off)) => {
                    &&& i < self.spec_files().len()
                    &&& covers(self.spec_files()[i as int], item_id as int)
                    &&& forall|j: int| 0 <= j < i ==> !covers(#[trigger] self.spec_files()[j], item_id as int)
                    &&& off == (item_id - self.spec_files()[i as int].base) * self.spec_files()[i as int].shape.stride
                },
            },
    {
        proof {
            use_type_invariant(self);
        }
        let mut i: usize = 0;
        while i < self.files.len()
            invariant
                i <= self.files@.len(),
                forall|j: int| 0 <= j < i ==> !covers(#[trigger] self.files@[j], item_id as int),
            decreases self.files.len() - i,
        {
            proof {
                use_type_invariant(self);
            }
            let f = &self.files[i];
            if item_id >= f.base && ((item_id - f.base) as usize) < f.blocks {
                let idx = (item_id - f.base) as usize;
                let stride = f.shape.stride;
                assert(self.files@[i as int].blocks * self.files@[i as int].shape.stride <= usize::MAX);
                assert(idx * stride <= usize::MAX) by (nonlinear_arith)
                    requires
                        idx < f.blocks,
                        f.blocks * stride <= usize::MAX,
                ;
                return Some((i, idx * stride));
            }
            i += 1;
        }
        None
    }

    /// Item `item_id` from `raw`, the stored bytes read at the offset
    /// [`ItemTable::locate`] gives, one block long: nothing when no file covers
    /// the id, when `raw` is not one block, or when the block stores another id.
    pub fn lookup_read(&self, item_id: u16, raw: &[u8]) -> (r: Option<ItemStatic>)
        ensures
            ({
                let files = self.spec_files();
                let blk = unrotate(raw@);
                if exists|j: int| 0 <= j < files.len() && covers(#[trigger] files[j], item_id as int) {
                    let i = choose|i: int|
                        0 <= i < files.len() && covers(#[trigger] files[i], item_id as int) && forall|j: int|
                            0 <= j < i ==> !covers(#[trigger] files[j], item_id as int);
                    let f = files[i];
                    if raw@.len() != f.shape.stride || raw@.len() < 4 || le32(blk, 0) != item_id {
                        r is None
                    } else {
                        &&& (r is Some <==> block_reads(blk, f.shape.header_shift as int, f.shape.races_gap as int))
                        &&& r matches Some(it) ==> item_matches(
                            it,
                            blk,
                            f.shape.header_shift as int,
                            f.shape.races_gap as int,
                        )
                    }
                } else {
                    r is None
                }
            }),
    {
        match self.locate(item_id) {
            None => None,
            Some((i, _)) => {
                let ghost files = self.spec_files();
                proof {
                    let c = choose|c: int|
                        0 <= c < files.len() && covers(#[trigger] files[c], item_id as int) && forall|j: int|
                            0 <= j < c ==> !covers(#[trigger] files[j], item_id as int);
                    if c < i {
                    } else if c > i {
                        assert(!covers(files[i as int], item_id as int));
                    }
                    assert(c == i);
                }
                let shape = self.files[i].shape;
                if raw.len() != shape.stride || raw.len() < 4 {
                    return None;
                }
                let block = unrotate_range(raw, 0, raw.len());
                proof {
                    assert(raw@.subrange(0, raw@.len() as int) =~= raw@);
                }
                if u32_at(block.as_slice(), 0) != item_id as u32 {
                    return None;
                }
                decode_item_static(block.as_slice(), shape.header_shift, shape.races_gap)
            },
        }
    }
}


proof fn lemma_block_fits(k: int, stride: int, len: int)
    requires
        stride > 0,
        len >= 0,
        len % stride == 0,
        k >= 0,
    ensures
        k < len / stride <==> k * stride + stride <= len,
{
    assert(len == (len / stride) * stride) by (nonlinear_arith)
        requires
            stride > 0,
            len % stride == 0,
    {
        assert(len == stride * (len / stride) + len % stride);
    }
    let q = len / stride;
    assert(k < q ==> k * stride + stride <= q * stride) by (nonlinear_arith)
        requires
            stride > 0,
    ;
    assert(k >= q ==> k * stride + stride > q * stride) by (nonlinear_arith)
        requires
            stride > 0,
    ;
}

/// Reading an item through the table finds the block the whole-file lookup
/// decodes. For a file of several real blocks taken in from its bytes `dat`
/// (its base the id its first block stores, which fits an item id), the file
/// covers item `id` exactly when the lookup can place the block, and the
/// block read at the offset [`ItemTable::locate`] gives is the one the lookup
/// checks and decodes; where the file does not cover `id`, the lookup finds
/// nothing either.
pub proof fn law_table_reads_match_the_file(f: ItemDatFile, dat: Seq<u8>, id: u16)
    requires
        f.shape.stride > 0,
        dat.len() >= 4,
        dat.len() % (f.shape.stride as nat) == 0,
        head_id(dat.subrange(0, 4)) < 0x10000,
        f.base == head_id(dat.subrange(0, 4)),
        f.blocks == dat.len() / (f.shape.stride as nat),
    ensures
        ({
            let stride = f.shape.stride as int;
            let off = (id - f.base) * stride;
            let raw = dat.subrange(off, off + stride);
            if covers(f, id as int) {
                spec_block(dat, id as int, stride) == if raw.len() < 4 || le32(unrotate(raw), 0) != id {
                    None
                } else {
                    Some(unrotate(raw))
                }
            } else {
                spec_block(dat, id as int, stride) is None
            }
        }),
{
    let stride = f.shape.stride as int;
    let base = le32(unrotate(dat.subrange(0, 4)), 0);
    assert(base == f.base);
    if id as int >= base {
        lemma_block_fits(id - base, stride, dat.len() as int);
    }
}


/// Where an equipment block keeps its charges and recast: after the slots,
/// races, jobs and eight bytes more, and for a weapon (ids `0x4000` to
/// `0x59FF`) after its twelve weapon bytes too; the recast is the dword four
/// bytes after the charge count.
pub proof fn law_charges_and_recast_follow_the_weapon_bytes(it: ItemStatic, b: Seq<u8>, hs: int, rg: int)
    requires
        block_reads(b, hs, rg),
        item_matches(it, b, hs, rg),
        0x2800 <= le32(b, 0) <= 0x6FFF,
    ensures
        ({
            let at = 0x0E + hs + 6 + rg + 8 + if 0x4000 <= le32(b, 0) <= 0x59FF {
                12int
            } else {
                0int
            };
            &&& it.max_charges == b[at]
            &&& it.recast_base == b[at + 4] + 256 * b[at + 5] + 65536 * b[at + 6] + 16777216 * b[at + 7]
        }),
{
}

} // verus!
