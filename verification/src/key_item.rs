//! The English key-item names of the menu DAT: a `sc_item_` section whose
//! entries point into a blob of rotated text runs.

use std::collections::BTreeMap;
use vstd::prelude::*;
use crate::bytes::{le32, read_u32_le};
use crate::text::string_from_chars;

verus! {

broadcast use vstd::laws_cmp::group_laws_cmp;

/// The file id of the English key-item text.
pub const KEY_ITEM_TEXT_FILE_ID: u32 = 82;
/// Where that file sat before file ids were resolved through the tables.
pub const KEY_ITEM_TEXT_ERA_ROM_PATH: &'static str = "ROM/118/115.DAT";
pub const KEY_ITEM_SECTION_KIND: u8 = 0x51;
pub const KEY_ITEM_CHUNK_NAME: [u8; 4] = [0x73, 0x63, 0x5f, 0x69];
/// The section's full resource id: `menu    sc_item_`.
pub const SECTION_RESOURCE_ID: [u8; 16] = [
    0x6d, 0x65, 0x6e, 0x75, 0x20, 0x20, 0x20, 0x20, 0x73, 0x63, 0x5f, 0x69, 0x74, 0x65, 0x6d, 0x5f,
];
pub const ENTRY_COUNT_OFFSET: usize = 20;
pub const ENTRIES_OFFSET: usize = 24;
/// Five dwords per entry; the third is the name's offset into the section.
pub const ENTRY_LEN: usize = 20;
pub const ENTRY_NAME_WORD: usize = 2;
/// The first row holds column headers under id 0, which is no key item.
pub const COLUMN_HEADER_ROW_ID: u32 = 0;
/// No rotation: what a run too short to key on, or one opening on two zero
/// bytes, gets.
pub const TEXT_SHIFT_NONE: u32 = 0;
/// The chunk header: name, kind in the low seven bits of the next dword and the
/// chunk's length in 16-byte units above them.
pub const CHUNK_HEADER_LEN: usize = 16;

#[derive(Debug, Clone, PartialEq, Eq)]
pub enum KeyItemTableError {
    SectionMissing,
    NotTheEnglishSection { found: String },
    EntryCountOutOfRange { count: u32, len: usize },
}

/// The number of set bits of `b`.
pub open spec fn popcount(b: u8) -> int {
    ((b & 1u8) + ((b >> 1u8) & 1u8) + ((b >> 2u8) & 1u8) + ((b >> 3u8) & 1u8) + ((b >> 4u8) & 1u8)
        + ((b >> 5u8) & 1u8) + ((b >> 6u8) & 1u8) + ((b >> 7u8) & 1u8)) as int
}

/// The rotation a run was stored with, keyed on how the set-bit counts of its
/// first two bytes differ: `[1, 7, 2, 6, 3]` indexed by that difference's size
/// modulo five; none for a run of fewer than two bytes or one opening on two zeros.
pub open spec fn spec_text_shift(e: Seq<u8>) -> u32 {
    if e.len() < 2 || (e[0] == 0 && e[1] == 0) {
        TEXT_SHIFT_NONE
    } else {
        let d = popcount(e[1]) - popcount(e[0]);
        let a = if d < 0 {
            -d
        } else {
            d
        };
        let i = a % 5;
        if i == 0 {
            1
        } else if i == 1 {
            7
        } else if i == 2 {
            2
        } else if i == 3 {
            6
        } else {
            3
        }
    }
}

/// `b` rotated right by `s` bits (`s < 8`).
pub open spec fn rotr(b: u8, s: u32) -> u8 {
    if s == 0 {
        b
    } else {
        ((b >> (s as u8)) | (b << ((8 - s) as u8))) as u8
    }
}

/// `b` rotated left by `s` bits (`s < 8`).
pub open spec fn rotl(b: u8, s: u32) -> u8 {
    if s == 0 {
        b
    } else {
        ((b << (s as u8)) | (b >> ((8 - s) as u8))) as u8
    }
}

/// A stored text run decoded: every byte rotated back by the run's shift, one
/// character per byte.
pub open spec fn spec_decode_text(e: Seq<u8>) -> Seq<char> {
    e.map_values(|b: u8| rotr(b, spec_text_shift(e)) as char)
}

fn popcount_u8(b: u8) -> (r: u32)
    ensures
        r == popcount(b),
{
    assert((b & 1u8) <= 1 && ((b >> 1u8) & 1u8) <= 1 && ((b >> 2u8) & 1u8) <= 1 && ((b >> 3u8) & 1u8)
        <= 1 && ((b >> 4u8) & 1u8) <= 1 && ((b >> 5u8) & 1u8) <= 1 && ((b >> 6u8) & 1u8) <= 1 && ((b
        >> 7u8) & 1u8) <= 1) by (bit_vector);
    ((b & 1u8) as u32) + (((b >> 1u8) & 1u8) as u32) + (((b >> 2u8) & 1u8) as u32) + (((b >> 3u8)
        & 1u8) as u32) + (((b >> 4u8) & 1u8) as u32) + (((b >> 5u8) & 1u8) as u32) + (((b >> 6u8)
        & 1u8) as u32) + (((b >> 7u8) & 1u8) as u32)
}

/// The rotation a stored text run was written with.
pub fn text_shift(encoded: &[u8]) -> (r: u32)
    ensures
        r == spec_text_shift(encoded@),
{
    if encoded.len() < 2 {
        return TEXT_SHIFT_NONE;
    }
    let first = encoded[0];
    let second = encoded[1];
    if first == 0 && second == 0 {
        return TEXT_SHIFT_NONE;
    }
    let pf = popcount_u8(first);
    let ps = popcount_u8(second);
    let a = if ps >= pf {
        ps - pf
    } else {
        pf - ps
    };
    let table: [u32; 5] = [1, 7, 2, 6, 3];
    table[(a % 5) as usize]
}

pub(crate) fn rotate_right(b: u8, s: u32) -> (r: u8)
    requires
        s < 8,
    ensures
        r == rotr(b, s),
{
    if s == 0 {
        b
    } else {
        (b >> (s as u8)) | (b << ((8 - s) as u8))
    }
}

/// Decodes a stored text run.
pub fn decode_text(encoded: &[u8]) -> (r: String)
    ensures
        r@ == spec_decode_text(encoded@),
{
    let shift = text_shift(encoded);
    let mut chars: Vec<char> = Vec::new();
    let mut i: usize = 0;
    while i < encoded.len()
        invariant
            shift == spec_text_shift(encoded@),
            shift < 8,
            i <= encoded@.len(),
            chars@ == encoded@.take(i as int).map_values(|b: u8| rotr(b, shift) as char),
        decreases encoded.len() - i,
    {
        chars.push(rotate_right(encoded[i], shift) as char);
        i += 1;
        proof {
            assert(chars@ =~= encoded@.take(i as int).map_values(|b: u8| rotr(b, shift) as char));
        }
    }
    proof {
        assert(encoded@.take(i as int) =~= encoded@);
    }
    string_from_chars(chars)
}

proof fn lemma_rotation_keeps_popcount(b: u8, s: u32)
    requires
        s < 8,
    ensures
        popcount(rotl(b, s)) == popcount(b),
        rotr(rotl(b, s), s) == b,
        (rotl(b, s) == 0) == (b == 0),
{
    if s == 1 {
        let r = ((b << 1u8) | (b >> 7u8)) as u8;
        assert(((r & 1u8) + ((r >> 1u8) & 1u8) + ((r >> 2u8) & 1u8) + ((r >> 3u8) & 1u8) + ((r >> 4u8) & 1u8) + ((r >> 5u8) & 1u8) + ((r >> 6u8) & 1u8) + ((r >> 7u8) & 1u8)) == ((b & 1u8) + ((b >> 1u8) & 1u8) + ((b >> 2u8) & 1u8) + ((b >> 3u8) & 1u8) + ((b >> 4u8) & 1u8) + ((b >> 5u8) & 1u8) + ((b >> 6u8) & 1u8) + ((b >> 7u8) & 1u8))) by (bit_vector)
            requires r == ((b << 1u8) | (b >> 7u8)) as u8;
        assert((((r >> 1u8) | (r << 7u8)) as u8 == b) && ((r == 0) == (b == 0))) by (bit_vector)
            requires r == ((b << 1u8) | (b >> 7u8)) as u8;
    } else if s == 2 {
        let r = ((b << 2u8) | (b >> 6u8)) as u8;
        assert(((r & 1u8) + ((r >> 1u8) & 1u8) + ((r >> 2u8) & 1u8) + ((r >> 3u8) & 1u8) + ((r >> 4u8) & 1u8) + ((r >> 5u8) & 1u8) + ((r >> 6u8) & 1u8) + ((r >> 7u8) & 1u8)) == ((b & 1u8) + ((b >> 1u8) & 1u8) + ((b >> 2u8) & 1u8) + ((b >> 3u8) & 1u8) + ((b >> 4u8) & 1u8) + ((b >> 5u8) & 1u8) + ((b >> 6u8) & 1u8) + ((b >> 7u8) & 1u8))) by (bit_vector)
            requires r == ((b << 2u8) | (b >> 6u8)) as u8;
        assert((((r >> 2u8) | (r << 6u8)) as u8 == b) && ((r == 0) == (b == 0))) by (bit_vector)
            requires r == ((b << 2u8) | (b >> 6u8)) as u8;
    } else if s == 3 {
        let r = ((b << 3u8) | (b >> 5u8)) as u8;
        assert(((r & 1u8) + ((r >> 1u8) & 1u8) + ((r >> 2u8) & 1u8) + ((r >> 3u8) & 1u8) + ((r >> 4u8) & 1u8) + ((r >> 5u8) & 1u8) + ((r >> 6u8) & 1u8) + ((r >> 7u8) & 1u8)) == ((b & 1u8) + ((b >> 1u8) & 1u8) + ((b >> 2u8) & 1u8) + ((b >> 3u8) & 1u8) + ((b >> 4u8) & 1u8) + ((b >> 5u8) & 1u8) + ((b >> 6u8) & 1u8) + ((b >> 7u8) & 1u8))) by (bit_vector)
            requires r == ((b << 3u8) | (b >> 5u8)) as u8;
        assert((((r >> 3u8) | (r << 5u8)) as u8 == b) && ((r == 0) == (b == 0))) by (bit_vector)
            requires r == ((b << 3u8) | (b >> 5u8)) as u8;
    } else if s == 4 {
        let r = ((b << 4u8) | (b >> 4u8)) as u8;
        assert(((r & 1u8) + ((r >> 1u8) & 1u8) + ((r >> 2u8) & 1u8) + ((r >> 3u8) & 1u8) + ((r >> 4u8) & 1u8) + ((r >> 5u8) & 1u8) + ((r >> 6u8) & 1u8) + ((r >> 7u8) & 1u8)) == ((b & 1u8) + ((b >> 1u8) & 1u8) + ((b >> 2u8) & 1u8) + ((b >> 3u8) & 1u8) + ((b >> 4u8) & 1u8) + ((b >> 5u8) & 1u8) + ((b >> 6u8) & 1u8) + ((b >> 7u8) & 1u8))) by (bit_vector)
            requires r == ((b << 4u8) | (b >> 4u8)) as u8;
        assert((((r >> 4u8) | (r << 4u8)) as u8 == b) && ((r == 0) == (b == 0))) by (bit_vector)
            requires r == ((b << 4u8) | (b >> 4u8)) as u8;
    } else if s == 5 {
        let r = ((b << 5u8) | (b >> 3u8)) as u8;
        assert(((r & 1u8) + ((r >> 1u8) & 1u8) + ((r >> 2u8) & 1u8) + ((r >> 3u8) & 1u8) + ((r >> 4u8) & 1u8) + ((r >> 5u8) & 1u8) + ((r >> 6u8) & 1u8) + ((r >> 7u8) & 1u8)) == ((b & 1u8) + ((b >> 1u8) & 1u8) + ((b >> 2u8) & 1u8) + ((b >> 3u8) & 1u8) + ((b >> 4u8) & 1u8) + ((b >> 5u8) & 1u8) + ((b >> 6u8) & 1u8) + ((b >> 7u8) & 1u8))) by (bit_vector)
            requires r == ((b << 5u8) | (b >> 3u8)) as u8;
        assert((((r >> 5u8) | (r << 3u8)) as u8 == b) && ((r == 0) == (b == 0))) by (bit_vector)
            requires r == ((b << 5u8) | (b >> 3u8)) as u8;
    } else if s == 6 {
        let r = ((b << 6u8) | (b >> 2u8)) as u8;
        assert(((r & 1u8) + ((r >> 1u8) & 1u8) + ((r >> 2u8) & 1u8) + ((r >> 3u8) & 1u8) + ((r >> 4u8) & 1u8) + ((r >> 5u8) & 1u8) + ((r >> 6u8) & 1u8) + ((r >> 7u8) & 1u8)) == ((b & 1u8) + ((b >> 1u8) & 1u8) + ((b >> 2u8) & 1u8) + ((b >> 3u8) & 1u8) + ((b >> 4u8) & 1u8) + ((b >> 5u8) & 1u8) + ((b >> 6u8) & 1u8) + ((b >> 7u8) & 1u8))) by (bit_vector)
            requires r == ((b << 6u8) | (b >> 2u8)) as u8;
        assert((((r >> 6u8) | (r << 2u8)) as u8 == b) && ((r == 0) == (b == 0))) by (bit_vector)
            requires r == ((b << 6u8) | (b >> 2u8)) as u8;
    } else if s == 7 {
        let r = ((b << 7u8) | (b >> 1u8)) as u8;
        assert(((r & 1u8) + ((r >> 1u8) & 1u8) + ((r >> 2u8) & 1u8) + ((r >> 3u8) & 1u8) + ((r >> 4u8) & 1u8) + ((r >> 5u8) & 1u8) + ((r >> 6u8) & 1u8) + ((r >> 7u8) & 1u8)) == ((b & 1u8) + ((b >> 1u8) & 1u8) + ((b >> 2u8) & 1u8) + ((b >> 3u8) & 1u8) + ((b >> 4u8) & 1u8) + ((b >> 5u8) & 1u8) + ((b >> 6u8) & 1u8) + ((b >> 7u8) & 1u8))) by (bit_vector)
            requires r == ((b << 7u8) | (b >> 1u8)) as u8;
        assert((((r >> 7u8) | (r << 1u8)) as u8 == b) && ((r == 0) == (b == 0))) by (bit_vector)
            requires r == ((b << 7u8) | (b >> 1u8)) as u8;
    }
}

/// Storing a run rotated left by the shift its own plain bytes select keys back
/// to that same shift (rotation keeps every byte's set-bit count and zero-ness),
/// so decoding gives back the plain bytes, one character each.
pub proof fn law_every_selected_shift_round_trips(plain: Seq<u8>)
    ensures
        spec_text_shift(plain.map_values(|b: u8| rotl(b, spec_text_shift(plain)))) == spec_text_shift(plain),
        spec_decode_text(plain.map_values(|b: u8| rotl(b, spec_text_shift(plain)))) == plain.map_values(
            |b: u8| b as char,
        ),
{
    let s = spec_text_shift(plain);
    let e = plain.map_values(|b: u8| rotl(b, s));
    assert(s < 8);
    if plain.len() >= 2 {
        lemma_rotation_keeps_popcount(plain[0], s);
        lemma_rotation_keeps_popcount(plain[1], s);
    }
    assert(spec_text_shift(e) == s);
    assert forall|i: int| 0 <= i < plain.len() implies spec_decode_text(e)[i] == plain[i] as char by {
        lemma_rotation_keeps_popcount(plain[i], s);
    }
    assert(spec_decode_text(e) =~= plain.map_values(|b: u8| b as char));
}

/// The kind a chunk header at `o` declares: the low seven bits of its second dword.
pub open spec fn chunk_kind(d: Seq<u8>, o: int) -> int {
    le32(d, o + 4) % 128
}

/// The byte length a chunk header at `o` declares, header included: 16 times the
/// 19 bits above the kind.
pub open spec fn chunk_len(d: Seq<u8>, o: int) -> int {
    16 * ((le32(d, o + 4) / 128) % 524288)
}

/// Where the first chunk of `kind` named `name` starts, walking the chunks from
/// `o` one after another; the walk stops at a header that does not fit or a
/// length that is shorter than a header or runs past the end.
pub open spec fn spec_find_chunk(d: Seq<u8>, o: int, kind: int, name: Seq<u8>) -> Option<int>
    decreases d.len() - o,
{
    if o < 0 || o + 16 > d.len() {
        None
    } else {
        let n = chunk_len(d, o);
        if n < 16 || o + n > d.len() {
            None
        } else if chunk_kind(d, o) == kind && d.subrange(o, o + 4) == name {
            Some(o)
        } else {
            spec_find_chunk(d, o + n, kind, name)
        }
    }
}

/// The first zero at or after `o`.
pub open spec fn zero_from(s: Seq<u8>, o: int) -> Option<int>
    decreases s.len() - o,
{
    if o < 0 || o >= s.len() {
        None
    } else if s[o] == 0 {
        Some(o)
    } else {
        zero_from(s, o + 1)
    }
}

/// The text run stored at `off`: up to the next zero, decoded; none when `off`
/// lies past the section or no zero follows it.
pub open spec fn spec_text_at(s: Seq<u8>, off: int) -> Option<Seq<char>> {
    if off > s.len() {
        None
    } else {
        match zero_from(s, off) {
            Some(z) => Some(spec_decode_text(s.subrange(off, z))),
            None => None,
        }
    }
}

/// The names the first `k` entries of a section give: each entry with an id from
/// 1 to 65535 whose name run decodes to a non-empty text sets that id's name, a
/// later entry overriding an earlier one.
pub open spec fn spec_key_names(s: Seq<u8>, k: int) -> Map<u16, Seq<char>>
    decreases k,
{
    if k <= 0 {
        Map::empty()
    } else {
        let m = spec_key_names(s, k - 1);
        let at = ENTRIES_OFFSET + (k - 1) * ENTRY_LEN;
        let id = le32(s, at);
        if id == COLUMN_HEADER_ROW_ID || id > 65535 {
            m
        } else {
            match spec_text_at(s, le32(s, at + 8)) {
                Some(t) => if t.len() > 0 {
                    m.insert(id as u16, t)
                } else {
                    m
                },
                None => m,
            }
        }
    }
}

/// What parsing a key-item section gives: refused when it is shorter than its
/// resource id, when that id is not the English one, or when its entries run
/// past its end; else the names of all its entries.
pub open spec fn spec_section(s: Seq<u8>) -> Result<Map<u16, Seq<char>>, KeyItemTableError> {
    if s.len() < 16 {
        Err(KeyItemTableError::SectionMissing)
    } else if s.subrange(0, 16) != SECTION_RESOURCE_ID@ {
        Err(KeyItemTableError::NotTheEnglishSection { found: arbitrary() })
    } else {
        let count = if s.len() >= 24 {
            le32(s, ENTRY_COUNT_OFFSET as int)
        } else {
            0
        };
        if ENTRIES_OFFSET + count * ENTRY_LEN > s.len() {
            Err(KeyItemTableError::EntryCountOutOfRange { count: count as u32, len: s.len() as usize })
        } else {
            Ok(spec_key_names(s, count))
        }
    }
}

/// `m` holds the names `spec` describes, each as a string.
pub open spec fn names_match(m: Map<u16, String>, spec: Map<u16, Seq<char>>) -> bool {
    &&& m.dom() == spec.dom()
    &&& forall|k: u16| #[trigger] m.contains_key(k) ==> m[k]@ == spec[k]
}

/// `r` is what parsing the section `s` gives.
pub open spec fn section_result_matches(r: Result<BTreeMap<u16, String>, KeyItemTableError>, s: Seq<u8>) -> bool {
    match spec_section(s) {
        Ok(names) => r matches Ok(m) && names_match(m@, names),
        Err(KeyItemTableError::NotTheEnglishSection { .. }) => r matches Err(
            KeyItemTableError::NotTheEnglishSection { found },
        ) && found@ == crate::text::utf8_lossy(s.subrange(0, 16)),
        Err(e) => r == Err::<BTreeMap<u16, String>, KeyItemTableError>(e),
    }
}

fn find_zero(s: &[u8], off: usize) -> (r: Option<usize>)
    requires
        off <= s@.len(),
    ensures
        r is None <==> zero_from(s@, off as int) is None,
        r matches Some(z) ==> off <= z < s@.len() && zero_from(s@, off as int) == Some(z as int),
{
    let mut i = off;
    while i < s.len()
        invariant
            off <= i <= s@.len(),
            zero_from(s@, off as int) == zero_from(s@, i as int),
        decreases s.len() - i,
    {
        if s[i] == 0 {
            return Some(i);
        }
        i += 1;
    }
    None
}

fn read_text_at(section: &[u8], offset: usize) -> (r: Option<String>)
    ensures
        match spec_text_at(section@, offset as int) {
            Some(t) => r matches Some(x) && x@ == t,
            None => r is None,
        },
{
    if offset > section.len() {
        return None;
    }
    match find_zero(section, offset) {
        Some(z) => {
            let run = vstd::slice::slice_subrange(section, offset, z);
            Some(decode_text(run))
        },
        None => None,
    }
}

/// Reads the names of a key-item section.
pub fn parse_key_item_section(section: &[u8]) -> (r: Result<BTreeMap<u16, String>, KeyItemTableError>)
    ensures
        section_result_matches(r, section@),
{
    let len = section.len();
    if len < 16 {
        return Err(KeyItemTableError::SectionMissing);
    }
    let resource_id = vstd::slice::slice_subrange(section, 0, 16);
    let mut same = true;
    let mut i: usize = 0;
    while i < 16
        invariant
            i <= 16,
            section@.len() >= 16,
            resource_id@.len() == 16,
            resource_id@ == section@.subrange(0, 16),
            same <==> forall|k: int| 0 <= k < i ==> resource_id@[k] == SECTION_RESOURCE_ID@[k],
        decreases 16 - i,
    {
        if resource_id[i] != SECTION_RESOURCE_ID[i] {
            same = false;
        }
        i += 1;
    }
    if !same {
        assert(section@.subrange(0, 16) != SECTION_RESOURCE_ID@);
        return Err(KeyItemTableError::NotTheEnglishSection { found: crate::text::string_from_utf8_lossy(resource_id) });
    }
    assert(section@.subrange(0, 16) =~= SECTION_RESOURCE_ID@);
    let count: u32 = match read_u32_le(section, ENTRY_COUNT_OFFSET) {
        Some(c) => c,
        None => 0,
    };
    let count_us = count as usize;
    let lim: usize = (usize::MAX - ENTRIES_OFFSET) / ENTRY_LEN;
    if count_us > lim || ENTRIES_OFFSET + count_us * ENTRY_LEN > len {
        proof {
            if count_us > lim {
                assert(count_us * 20 > usize::MAX - 24) by (nonlinear_arith)
                    requires
                        count_us > lim,
                        lim == (usize::MAX - 24) / 20,
                ;
            }
        }
        return Err(KeyItemTableError::EntryCountOutOfRange { count, len });
    }
    let mut names: BTreeMap<u16, String> = BTreeMap::new();
    let mut k: usize = 0;
    while k < count_us
        invariant
            len == section@.len(),
            ENTRIES_OFFSET + count_us * ENTRY_LEN <= len,
            k <= count_us,
            names_match(names@, spec_key_names(section@, k as int)),
        decreases count_us - k,
    {
        assert(ENTRIES_OFFSET + k * ENTRY_LEN + ENTRY_LEN <= ENTRIES_OFFSET + count_us * ENTRY_LEN) by (nonlinear_arith)
            requires
                k < count_us,
        ;
        let at = ENTRIES_OFFSET + k * ENTRY_LEN;
        let id = read_u32_le(section, at).unwrap();
        if id != COLUMN_HEADER_ROW_ID && id <= 65535 {
            let name_offset = read_u32_le(section, at + 8).unwrap() as usize;
            match read_text_at(section, name_offset) {
                Some(name) => {
                    if !name.as_str().is_empty() {
                        let ghost before = names@;
                        names.insert(id as u16, name);
                        proof {
                            assert(names@ == before.insert(id as u16, name));
                        }
                    }
                },
                None => {},
            }
        }
        k += 1;
    }
    Ok(names)
}

/// Finds the English key-item section among the chunks of a menu DAT and reads
/// its names.
pub fn parse_key_item_names(dat_bytes: &[u8]) -> (r: Result<BTreeMap<u16, String>, KeyItemTableError>)
    ensures
        match spec_find_chunk(dat_bytes@, 0, KEY_ITEM_SECTION_KIND as int, KEY_ITEM_CHUNK_NAME@) {
            None => r == Err::<BTreeMap<u16, String>, KeyItemTableError>(KeyItemTableError::SectionMissing),
            Some(o) => section_result_matches(
                r,
                dat_bytes@.subrange(o + 16, o + chunk_len(dat_bytes@, o)),
            ),
        },
{
    let len = dat_bytes.len();
    let mut o: usize = 0;
    while o <= len && len - o >= CHUNK_HEADER_LEN
        invariant
            len == dat_bytes@.len(),
            spec_find_chunk(dat_bytes@, o as int, KEY_ITEM_SECTION_KIND as int, KEY_ITEM_CHUNK_NAME@)
                == spec_find_chunk(dat_bytes@, 0, KEY_ITEM_SECTION_KIND as int, KEY_ITEM_CHUNK_NAME@),
        decreases len - o,
    {
        let value = read_u32_le(dat_bytes, o + 4).unwrap();
        let n = ((value / 128) % 524288) as usize * 16;
        if n < CHUNK_HEADER_LEN || n > len - o {
            return Err(KeyItemTableError::SectionMissing);
        }
        let kind = value % 128;
        let is_name = dat_bytes[o] == KEY_ITEM_CHUNK_NAME[0] && dat_bytes[o + 1] == KEY_ITEM_CHUNK_NAME[1]
            && dat_bytes[o + 2] == KEY_ITEM_CHUNK_NAME[2] && dat_bytes[o + 3] == KEY_ITEM_CHUNK_NAME[3];
        proof {
            if is_name {
                assert(dat_bytes@.subrange(o as int, o + 4) =~= KEY_ITEM_CHUNK_NAME@);
            } else if dat_bytes@.subrange(o as int, o + 4) == KEY_ITEM_CHUNK_NAME@ {
                assert(dat_bytes@.subrange(o as int, o + 4)[0] == KEY_ITEM_CHUNK_NAME@[0]);
                assert(dat_bytes@.subrange(o as int, o + 4)[1] == KEY_ITEM_CHUNK_NAME@[1]);
                assert(dat_bytes@.subrange(o as int, o + 4)[2] == KEY_ITEM_CHUNK_NAME@[2]);
                assert(dat_bytes@.subrange(o as int, o + 4)[3] == KEY_ITEM_CHUNK_NAME@[3]);
            }
        }
        if kind == KEY_ITEM_SECTION_KIND as u32 && is_name {
            let section = vstd::slice::slice_subrange(dat_bytes, o + CHUNK_HEADER_LEN, o + n);
            return parse_key_item_section(section);
        }
        o += n;
    }
    Err(KeyItemTableError::SectionMissing)
}

/// The installed client's key-item names by key-item id.
#[derive(Debug)]
pub struct KeyItemTable {
    names: BTreeMap<u16, String>,
}

impl Default for KeyItemTable {
    fn default() -> (r: KeyItemTable)
        ensures
            r.spec_names() == Map::<u16, String>::empty(),
    {
        KeyItemTable { names: BTreeMap::new() }
    }
}

impl KeyItemTable {
    pub closed spec fn spec_names(&self) -> Map<u16, String> {
        self.names@
    }

    /// The table a menu DAT gives: its key-item names, or none when the DAT
    /// holds no usable English section.
    pub fn from_bytes(dat_bytes: &[u8]) -> (r: KeyItemTable)
        ensures
            match spec_find_chunk(dat_bytes@, 0, KEY_ITEM_SECTION_KIND as int, KEY_ITEM_CHUNK_NAME@) {
                None => r.spec_names() == Map::<u16, String>::empty(),
                Some(o) => match spec_section(dat_bytes@.subrange(o + 16, o + chunk_len(dat_bytes@, o))) {
                    Ok(names) => names_match(r.spec_names(), names),
                    Err(_) => r.spec_names() == Map::<u16, String>::empty(),
                },
            },
    {
        match parse_key_item_names(dat_bytes) {
            Ok(names) => KeyItemTable { names },
            Err(_) => KeyItemTable::default(),
        }
    }

    pub fn is_empty(&self) -> (r: bool)
        ensures
            r == (self.spec_names().len() == 0),
    {
        self.names.is_empty()
    }

    pub fn len(&self) -> (r: usize)
        ensures
            r == self.spec_names().len(),
    {
        self.names.len()
    }

    /// The name of a key item.
    pub fn lookup(&self, key_item_id: u16) -> (r: Option<&str>)
        ensures
            match r {
                Some(s) => self.spec_names().contains_key(key_item_id) && s@ == self.spec_names()[key_item_id]@,
                None => !self.spec_names().contains_key(key_item_id),
            },
    {
        match self.names.get(&key_item_id) {
            Some(s) => Some(s.as_str()),
            None => None,
        }
    }
}


/// A stored run of at least two bytes, not opening on two zeros, is rotated by
/// `[1, 7, 2, 6, 3]` at the distance between the set-bit counts of its first
/// two bytes, modulo five; decoding rotates every byte back by that much.
pub proof fn law_text_shift_follows_the_popcount_table(e: Seq<u8>)
    requires
        e.len() >= 2,
        !(e[0] == 0 && e[1] == 0),
    ensures
        spec_text_shift(e) == seq![1u32, 7u32, 2u32, 6u32, 3u32][(if popcount(e[1]) >= popcount(e[0]) {
            popcount(e[1]) - popcount(e[0])
        } else {
            popcount(e[0]) - popcount(e[1])
        }) % 5],
        forall|k: int| 0 <= k < e.len() ==> rotl(#[trigger] (spec_decode_text(e)[k] as u8), spec_text_shift(e)) == e[k],
{
    let s = spec_text_shift(e);
    assert(s < 8);
    assert forall|k: int| 0 <= k < e.len() implies rotl(#[trigger] (spec_decode_text(e)[k] as u8), s) == e[k] by {
        let b = e[k];
        let r = rotr(b, s);
        assert(spec_decode_text(e)[k] == r as char);
        assert((r as char) as u8 == r);
        if s == 1 {
            assert((((b >> 1u8) | (b << 7u8)) as u8 == r) ==> ((((r << 1u8) | (r >> 7u8)) as u8) == b)) by (bit_vector);
        } else if s == 2 {
            assert((((b >> 2u8) | (b << 6u8)) as u8 == r) ==> ((((r << 2u8) | (r >> 6u8)) as u8) == b)) by (bit_vector);
        } else if s == 3 {
            assert((((b >> 3u8) | (b << 5u8)) as u8 == r) ==> ((((r << 3u8) | (r >> 5u8)) as u8) == b)) by (bit_vector);
        } else if s == 6 {
            assert((((b >> 6u8) | (b << 2u8)) as u8 == r) ==> ((((r << 6u8) | (r >> 2u8)) as u8) == b)) by (bit_vector);
        } else if s == 7 {
            assert((((b >> 7u8) | (b << 1u8)) as u8 == r) ==> ((((r << 7u8) | (r >> 1u8)) as u8) == b)) by (bit_vector);
        }
    }
}

} // verus!
