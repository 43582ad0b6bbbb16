//! Zone-interaction ("RID") chunk bodies: the oriented trigger boxes a zone DAT
//! declares for zone lines, doors, sub-areas, fishing areas and elevators.
//! The boxes' floating-point fields are carried as their IEEE-754 bit patterns;
//! the geometry that reads them as numbers lives with the caller.

use vstd::prelude::*;
use vstd::string::StringSliceAdditionalSpecFns;
use crate::bytes::{le16, le32, read_u16_le, read_u32_le};
use crate::datid::{id_starts_with, DatId};
use crate::error::DatError;
use crate::text::{dec, hex, push_dec_str, push_hex, push_str, string_from_chars, zero_pad};

verus! {

/// Where the body's header stores the entry table's offset.
pub const DATA_OFFSET_FIELD: usize = 0x10;
/// Entry count, then three zero words.
pub const ENTRY_TABLE_HEADER_LEN: usize = 16;
pub const ENTRY_LEN: usize = 64;

pub const POSITION_OFFSET: usize = 0x00;
/// An integer class where a rotation's x component would stand.
pub const RECT_CLASS_OFFSET: usize = 0x0C;
pub const ROTATION_Y_OFFSET: usize = 0x10;
pub const ROTATION_Z_OFFSET: usize = 0x14;
pub const SIZE_OFFSET: usize = 0x18;
pub const SOURCE_ID_OFFSET: usize = 0x24;
pub const DEST_ID_OFFSET: usize = 0x28;
pub const PARAM_OFFSET: usize = 0x2C;
pub const TERRAIN_FLAGS_OFFSET: usize = 0x30;
pub const MAP_ID_OFFSET: usize = 0x32;
pub const ELEVATOR_BOTTOM_OFFSET: usize = 0x34;
pub const ELEVATOR_TOP_OFFSET: usize = 0x36;

/// Mog House residence zone-line tag prefixes: classic cities, then the later
/// expansions' cities.
pub const MOG_HOUSE_PREFIX_CLASSIC: &'static str = "zmr";
pub const MOG_HOUSE_PREFIX_WOTG: &'static str = "zms";

/// The rect class kept for hit checks among `m`-prefixed rects.
pub const RECT_CLASS_HIT_CHECKED: u32 = 0;

/// One 64-byte RID entry: an oriented trigger box in zone space.
#[derive(Debug, Clone, Copy, PartialEq, Eq)]
pub struct ZoneInteraction {
    /// Box center, three `f32` bit patterns.
    pub position_bits: [u32; 3],
    /// Which record class the entry belongs to.
    pub rect_class: u32,
    /// Euler radians as `f32` bit patterns, applied ZYX; component 0 is always
    /// `0.0`, its bytes being the rect class.
    pub orientation_bits: [u32; 3],
    /// Full extents as `f32` bit patterns: x and z horizontal, y vertical.
    pub size_bits: [u32; 3],
    pub source_id: DatId,
    /// `None` exactly when all four bytes are zero.
    pub dest_id: Option<DatId>,
    pub param: u32,
    pub terrain_flags: u16,
    pub map_id: u16,
    /// An elevator's floors as fixed-point 1/256 offsets from the box center's y.
    pub elevator_bottom_offset: i16,
    pub elevator_top_offset: i16,
}

/// The 16-bit two's-complement reading of an unsigned value below `2^16`.
pub open spec fn signed16(v: int) -> int {
    if v >= 32768 {
        v - 65536
    } else {
        v
    }
}

/// `z` is what the 64 bytes `e` of one entry hold.
pub open spec fn entry_matches(z: ZoneInteraction, e: Seq<u8>) -> bool {
    &&& z.position_bits@ == seq![le32(e, 0x00) as u32, le32(e, 0x04) as u32, le32(e, 0x08) as u32]
    &&& z.rect_class == le32(e, 0x0C)
    &&& z.orientation_bits@ == seq![0u32, le32(e, 0x10) as u32, le32(e, 0x14) as u32]
    &&& z.size_bits@ == seq![le32(e, 0x18) as u32, le32(e, 0x1C) as u32, le32(e, 0x20) as u32]
    &&& z.source_id.0@ == e.subrange(0x24, 0x28)
    &&& if e.subrange(0x28, 0x2C) == seq![0u8, 0u8, 0u8, 0u8] {
        z.dest_id is None
    } else {
        z.dest_id matches Some(d) && d.0@ == e.subrange(0x28, 0x2C)
    }
    &&& z.param == le32(e, 0x2C)
    &&& z.terrain_flags == le16(e, 0x30)
    &&& z.map_id == le16(e, 0x32)
    &&& z.elevator_bottom_offset == signed16(le16(e, 0x34))
    &&& z.elevator_top_offset == signed16(le16(e, 0x36))
}

/// A byte as two upper-case hexadecimal digits.
pub open spec fn hex2(b: u8) -> Seq<char> {
    zero_pad(hex(b as nat, true), 2)
}

/// Three bytes as a bracketed, comma-separated list of `hex2` renderings.
pub open spec fn byte_list3(s: Seq<u8>) -> Seq<char> {
    "["@ + hex2(s[0]) + ", "@ + hex2(s[1]) + ", "@ + hex2(s[2]) + "]"@
}

/// The complaint about the `i`th pad word after the entry count holding `z`.
pub open spec fn pad_message(i: nat, z: nat) -> Seq<char> {
    "expected zero u32 #"@ + dec(i) + " after entry count, got 0x"@ + hex(z, false)
}

/// Where the entry table starts, as the header says.
pub open spec fn table_offset(b: Seq<u8>) -> int {
    le32(b, DATA_OFFSET_FIELD as int)
}

/// How many entries the table header announces.
pub open spec fn entry_count(b: Seq<u8>) -> int {
    le32(b, table_offset(b))
}

/// Where entry `i` starts.
pub open spec fn entry_start(b: Seq<u8>, i: int) -> int {
    table_offset(b) + ENTRY_TABLE_HEADER_LEN + ENTRY_LEN * i
}

/// Why the body `b` is refused, or `None` when it parses.
pub open spec fn rid_error(b: Seq<u8>) -> Option<Seq<char>> {
    if b.len() < DATA_OFFSET_FIELD + 4 {
        Some("body too short for header: "@ + dec(b.len()))
    } else if b.subrange(0, 3) != seq![0x52u8, 0x49u8, 0x44u8] {
        Some("bad magic "@ + byte_list3(b.subrange(0, 3)))
    } else if b.len() < table_offset(b) + ENTRY_TABLE_HEADER_LEN {
        Some(
            "data_offset 0x"@ + hex(table_offset(b) as nat, false) + " beyond body ("@ + dec(
                b.len(),
            ) + ")"@,
        )
    } else if le32(b, table_offset(b) + 4) != 0 {
        Some(pad_message(1, le32(b, table_offset(b) + 4) as nat))
    } else if le32(b, table_offset(b) + 8) != 0 {
        Some(pad_message(2, le32(b, table_offset(b) + 8) as nat))
    } else if le32(b, table_offset(b) + 12) != 0 {
        Some(pad_message(3, le32(b, table_offset(b) + 12) as nat))
    } else if b.len() < entry_start(b, entry_count(b)) {
        Some(
            dec(entry_count(b) as nat) + " entries need "@ + dec(
                entry_start(b, entry_count(b)) as nat,
            ) + " bytes, body has "@ + dec(b.len()),
        )
    } else {
        None
    }
}

/// `v` holds, in order, every entry the table of `b` announces.
pub open spec fn entries_match(v: Seq<ZoneInteraction>, b: Seq<u8>) -> bool {
    &&& v.len() == entry_count(b)
    &&& forall|i: int|
        0 <= i < v.len() ==> entry_matches(
            #[trigger] v[i],
            b.subrange(entry_start(b, i), entry_start(b, i) + ENTRY_LEN),
        )
}

fn to_i16(v: u16) -> (r: i16)
    ensures
        r as int == signed16(v as int),
{
    if v >= 32768 {
        (v as i32 - 65536) as i16
    } else {
        v as i16
    }
}

fn u32_at(e: &[u8], off: usize) -> (r: u32)
    requires
        off + 4 <= e@.len(),
    ensures
        r as int == le32(e@, off as int),
{
    read_u32_le(e, off).unwrap()
}

fn u16_at(e: &[u8], off: usize) -> (r: u16)
    requires
        off + 2 <= e@.len(),
    ensures
        r as int == le16(e@, off as int),
{
    read_u16_le(e, off).unwrap()
}

fn parse_entry(e: &[u8]) -> (r: ZoneInteraction)
    requires
        e@.len() == ENTRY_LEN,
    ensures
        entry_matches(r, e@),
{
    let position_bits = [u32_at(e, 0x00), u32_at(e, 0x04), u32_at(e, 0x08)];
    let orientation_bits = [0u32, u32_at(e, ROTATION_Y_OFFSET), u32_at(e, ROTATION_Z_OFFSET)];
    let size_bits = [u32_at(e, SIZE_OFFSET), u32_at(e, SIZE_OFFSET + 4), u32_at(e, SIZE_OFFSET + 8)];
    let dest = DatId::from(e, DEST_ID_OFFSET);
    let dest_id = if dest.is_zero() {
        None
    } else {
        Some(dest)
    };
    let z = ZoneInteraction {
        position_bits,
        rect_class: u32_at(e, RECT_CLASS_OFFSET),
        orientation_bits,
        size_bits,
        source_id: DatId::from(e, SOURCE_ID_OFFSET),
        dest_id,
        param: u32_at(e, PARAM_OFFSET),
        terrain_flags: u16_at(e, TERRAIN_FLAGS_OFFSET),
        map_id: u16_at(e, MAP_ID_OFFSET),
        elevator_bottom_offset: to_i16(u16_at(e, ELEVATOR_BOTTOM_OFFSET)),
        elevator_top_offset: to_i16(u16_at(e, ELEVATOR_TOP_OFFSET)),
    };
    assert(z.position_bits@ =~= seq![le32(e@, 0x00) as u32, le32(e@, 0x04) as u32, le32(e@, 0x08) as u32]);
    assert(z.orientation_bits@ =~= seq![0u32, le32(e@, 0x10) as u32, le32(e@, 0x14) as u32]);
    assert(z.size_bits@ =~= seq![le32(e@, 0x18) as u32, le32(e@, 0x1C) as u32, le32(e@, 0x20) as u32]);
    z
}

fn push_hex2(out: &mut Vec<char>, b: u8)
    ensures
        final(out)@ == old(out)@ + hex2(b),
{
    if b < 16 {
        out.push('0');
    }
    let ghost mid = out@;
    push_hex(out, b as u64, true);
    proof {
        reveal_with_fuel(hex, 2);
        if b < 16 {
            assert(hex(b as nat, true).len() == 1);
            assert(Seq::new(1, |_i: int| '0') =~= seq!['0']);
        } else {
            assert(hex(b as nat, true).len() == 2);
        }
        assert(out@ =~= old(out)@ + hex2(b));
    }
}

fn rid(chars: Vec<char>) -> (r: Result<Vec<ZoneInteraction>, DatError>)
    ensures
        r matches Err(DatError::Rid(s)) && s@ == chars@,
{
    Err(DatError::Rid(string_from_chars(chars)))
}

/// Parses one RID chunk body. The entry table's offset (at `0x10`) is
/// relative to the body's start.
pub fn parse(body: &[u8]) -> (r: Result<Vec<ZoneInteraction>, DatError>)
    ensures
        match rid_error(body@) {
            Some(m) => r matches Err(DatError::Rid(s)) && s@ == m,
            None => r matches Ok(v) && entries_match(v@, body@),
        },
{
    let len = body.len();
    let mut msg: Vec<char> = Vec::new();
    if len < DATA_OFFSET_FIELD + 4 {
        push_str(&mut msg, "body too short for header: ");
        push_dec_str(&mut msg, len as u64);
        return rid(msg);
    }
    if body[0] != 0x52 || body[1] != 0x49 || body[2] != 0x44 {
        proof {
            let m = body@.subrange(0, 3);
            if m == seq![0x52u8, 0x49u8, 0x44u8] {
                assert(m[0] == 0x52 && m[1] == 0x49 && m[2] == 0x44);
            }
        }
        push_str(&mut msg, "bad magic ");
        push_str(&mut msg, "[");
        push_hex2(&mut msg, body[0]);
        push_str(&mut msg, ", ");
        push_hex2(&mut msg, body[1]);
        push_str(&mut msg, ", ");
        push_hex2(&mut msg, body[2]);
        push_str(&mut msg, "]");
        proof {
            let m = body@.subrange(0, 3);
            assert(m[0] == body@[0] && m[1] == body@[1] && m[2] == body@[2]);
            assert(msg@ =~= "bad magic "@ + byte_list3(m));
        }
        return rid(msg);
    }
    assert(body@.subrange(0, 3) =~= seq![0x52u8, 0x49u8, 0x44u8]);
    let data_offset = u32_at(body, DATA_OFFSET_FIELD);
    if (len as u64) < data_offset as u64 + 16 {
        push_str(&mut msg, "data_offset 0x");
        push_hex(&mut msg, data_offset as u64, false);
        push_str(&mut msg, " beyond body (");
        push_dec_str(&mut msg, len as u64);
        push_str(&mut msg, ")");
        proof {
            assert(msg@ =~= "data_offset 0x"@ + hex(table_offset(body@) as nat, false)
                + " beyond body ("@ + dec(body@.len()) + ")"@);
        }
        return rid(msg);
    }
    let d = data_offset as usize;
    let count = u32_at(body, d);
    let mut k: usize = 1;
    while k < 4
        invariant
            1 <= k <= 4,
            len == body@.len(),
            len >= DATA_OFFSET_FIELD + 4,
            body@.subrange(0, 3) == seq![0x52u8, 0x49u8, 0x44u8],
            d == table_offset(body@),
            d + 16 <= len,
            msg@ == Seq::<char>::empty(),
            k >= 2 ==> le32(body@, d + 4) == 0,
            k >= 3 ==> le32(body@, d + 8) == 0,
            k >= 4 ==> le32(body@, d + 12) == 0,
        decreases 4 - k,
    {
        let zero = u32_at(body, d + k * 4);
        if zero != 0 {
            push_str(&mut msg, "expected zero u32 #");
            push_dec_str(&mut msg, k as u64);
            push_str(&mut msg, " after entry count, got 0x");
            push_hex(&mut msg, zero as u64, false);
            proof {
                assert(msg@ =~= pad_message(k as nat, zero as nat));
            }
            return rid(msg);
        }
        k += 1;
    }
    let start = d + ENTRY_TABLE_HEADER_LEN;
    let end: u64 = start as u64 + count as u64 * 64;
    if (len as u64) < end {
        push_dec_str(&mut msg, count as u64);
        push_str(&mut msg, " entries need ");
        push_dec_str(&mut msg, end);
        push_str(&mut msg, " bytes, body has ");
        push_dec_str(&mut msg, len as u64);
        return rid(msg);
    }
    let n = count as usize;
    let mut out: Vec<ZoneInteraction> = Vec::new();
    let mut i: usize = 0;
    while i < n
        invariant
            i <= n,
            n == entry_count(body@),
            start == table_offset(body@) + ENTRY_TABLE_HEADER_LEN,
            start + 64 * n <= len,
            len == body@.len(),
            out@.len() == i,
            forall|j: int|
                0 <= j < i ==> entry_matches(
                    #[trigger] out@[j],
                    body@.subrange(entry_start(body@, j), entry_start(body@, j) + ENTRY_LEN),
                ),
        decreases n - i,
    {
        let off = start + i * 64;
        let e = vstd::slice::slice_subrange(body, off, off + 64);
        out.push(parse_entry(e));
        i += 1;
    }
    Ok(out)
}

/// The source id begins with the bytes `p`.
pub open spec fn source_starts(z: ZoneInteraction, p: Seq<u8>) -> bool {
    id_starts_with(z.source_id.0@, p)
}

proof fn lemma_ascii_bytes(s: &str)
    requires
        vstd::utf8::is_ascii_chars(s@),
    ensures
        s.spec_bytes() == Seq::new(s@.len(), |i: int| s@[i] as u8),
{
    broadcast use vstd::string::is_ascii_spec_bytes;

    assert(vstd::string::is_ascii(s));
}

impl ZoneInteraction {
    /// A zone line: a `z` source with a destination.
    pub fn is_zone_line(&self) -> (r: bool)
        ensures
            r == (source_starts(*self, seq![0x7Au8]) && self.dest_id is Some),
    {
        proof {
            reveal_strlit("z");
            lemma_ascii_bytes("z");
            assert("z".spec_bytes() =~= seq![0x7Au8]);
        }
        self.source_id.starts_with("z") && self.dest_id.is_some()
    }

    /// Where a zone line lands: a `z` source without a destination.
    pub fn is_zone_entrance(&self) -> (r: bool)
        ensures
            r == (source_starts(*self, seq![0x7Au8]) && self.dest_id is None),
    {
        proof {
            reveal_strlit("z");
            lemma_ascii_bytes("z");
            assert("z".spec_bytes() =~= seq![0x7Au8]);
        }
        self.source_id.starts_with("z") && self.dest_id.is_none()
    }

    pub fn is_door(&self) -> (r: bool)
        ensures
            r == source_starts(*self, seq![0x5Fu8]),
    {
        proof {
            reveal_strlit("_");
            lemma_ascii_bytes("_");
            assert("_".spec_bytes() =~= seq![0x5Fu8]);
        }
        self.source_id.starts_with("_")
    }

    pub fn is_sub_area(&self) -> (r: bool)
        ensures
            r == source_starts(*self, seq![0x6Du8]),
    {
        proof {
            reveal_strlit("m");
            lemma_ascii_bytes("m");
            assert("m".spec_bytes() =~= seq![0x6Du8]);
        }
        self.source_id.starts_with("m")
    }

    pub fn is_fishing_area(&self) -> (r: bool)
        ensures
            r == source_starts(*self, seq![0x66u8]),
    {
        proof {
            reveal_strlit("f");
            lemma_ascii_bytes("f");
            assert("f".spec_bytes() =~= seq![0x66u8]);
        }
        self.source_id.starts_with("f")
    }

    /// A lift shaft: the box a rider is carried inside between the two floors.
    pub fn is_elevator(&self) -> (r: bool)
        ensures
            r == source_starts(*self, seq![0x40u8]),
    {
        proof {
            reveal_strlit("@");
            lemma_ascii_bytes("@");
            assert("@".spec_bytes() =~= seq![0x40u8]);
        }
        self.source_id.starts_with("@")
    }

    /// A zone line into a Mog House: its source starts `zmr` or `zms`.
    pub fn is_mog_house_line(&self) -> (r: bool)
        ensures
            r == (source_starts(*self, seq![0x7Au8]) && self.dest_id is Some && (source_starts(
                *self,
                seq![0x7Au8, 0x6Du8, 0x72u8],
            ) || source_starts(*self, seq![0x7Au8, 0x6Du8, 0x73u8]))),
    {
        proof {
            reveal_strlit("zmr");
            reveal_strlit("zms");
            lemma_ascii_bytes(MOG_HOUSE_PREFIX_CLASSIC);
            lemma_ascii_bytes(MOG_HOUSE_PREFIX_WOTG);
            assert(MOG_HOUSE_PREFIX_CLASSIC.spec_bytes() =~= seq![0x7Au8, 0x6Du8, 0x72u8]);
            assert(MOG_HOUSE_PREFIX_WOTG.spec_bytes() =~= seq![0x7Au8, 0x6Du8, 0x73u8]);
        }
        self.is_zone_line() && (self.source_id.starts_with(MOG_HOUSE_PREFIX_CLASSIC)
            || self.source_id.starts_with(MOG_HOUSE_PREFIX_WOTG))
    }

    /// A trigger volume that latches a sub-area: an `m` rect with a destination,
    /// in the hit-checked class.
    pub fn is_sub_area_trigger(&self) -> (r: bool)
        ensures
            r == (source_starts(*self, seq![0x6Du8]) && self.dest_id is Some && self.rect_class
                == RECT_CLASS_HIT_CHECKED),
    {
        self.is_sub_area() && self.dest_id.is_some() && self.rect_class == RECT_CLASS_HIT_CHECKED
    }

    /// The `m` rects of the other classes: coarse sub-map regions.
    pub fn is_sub_map_region(&self) -> (r: bool)
        ensures
            r == (source_starts(*self, seq![0x6Du8]) && self.dest_id is Some && self.rect_class
                != RECT_CLASS_HIT_CHECKED),
    {
        self.is_sub_area() && self.dest_id.is_some() && self.rect_class != RECT_CLASS_HIT_CHECKED
    }

    /// What a sub-area trigger latches, `None` when the rect is not one; `0` is
    /// the signal to leave the active sub-area.
    pub fn sub_area_param(&self) -> (r: Option<u32>)
        ensures
            r == (if source_starts(*self, seq![0x6Du8]) && self.dest_id is Some && self.rect_class
                == RECT_CLASS_HIT_CHECKED {
                Some(self.param)
            } else {
                None::<u32>
            }),
    {
        if self.is_sub_area_trigger() {
            Some(self.param)
        } else {
            None
        }
    }

    /// The interior a sub-area trigger declares: its non-zero parameter.
    pub fn sub_area_id(&self) -> (r: Option<u32>)
        ensures
            r == (if source_starts(*self, seq![0x6Du8]) && self.dest_id is Some && self.rect_class
                == RECT_CLASS_HIT_CHECKED && self.param != 0 {
                Some(self.param)
            } else {
                None::<u32>
            }),
    {
        match self.sub_area_param() {
            Some(p) => if p != 0 {
                Some(p)
            } else {
                None
            },
            None => None,
        }
    }

    /// The source id read as a little-endian `u32`.
    pub fn rect_id(&self) -> (r: u32)
        ensures
            r as int == le32(self.source_id.0@, 0),
    {
        let b = self.source_id.0;
        b[0] as u32 + (b[1] as u32) * 256 + (b[2] as u32) * 65536 + (b[3] as u32) * 16777216
    }
}

} // verus!
