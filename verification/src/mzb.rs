//! Zone block (MZB) bodies: the two-pass in-place decryption, the packed
//! 0x20-byte header, and the matching of placement names to MMB asset names.

pub mod placement;

use vstd::prelude::*;
pub use placement::{parse_mmb_placements, parse_placements, MmbPlacement, MzbPlacement};
use crate::bytes::{le16, le32, read_u16_le, read_u32_le};
use crate::error::DatError;
use crate::text::{chars_eq, bytes_end_with, chars_of, ends_with, push_all, trim_end_chars, trim_end_ws, utf8_bytes};
use vstd::utf8::{encode_utf8, is_char_boundary};

verus! {

/// Why an MZB body could not be read.
#[derive(Debug, Clone, Copy, PartialEq, Eq)]
pub enum MzbError {
    TooSmall { needed: usize, actual: usize },
    CollisionDataOutOfRange { offset: usize, len: usize },
    PlacementTableOutOfRange { end: usize, len: usize },
    MeshDataOutOfRange { offset: usize, len: usize },
    CrossedOffsets { pos: usize, verts: usize, normals: usize, tris: usize },
}

pub const MZB_HEADER_LEN: usize = 0x20;
/// Only format version 27 and later carry the pass-1 inversion.
pub const ENCRYPTED_MIN_VERSION: u8 = 27;
/// The first eight bytes are never encrypted.
pub const ENCRYPTED_REGION_START: usize = 8;
/// One 0x64-byte placement record per node, starting right after the header.
pub const PLACEMENT_RECORD_LEN: usize = 0x64;
/// Pass 2 XORs the 16-byte name of every placement record with 0x55.
pub const PLACEMENT_NAME_LEN: usize = 16;
pub const PLACEMENT_NAME_XOR: u8 = 0x55;
/// World units spanned by one placement-grid sub-block.
pub const MZB_SUB_BLOCK_SIZE: u32 = 4;
/// From this version on the 0x10 dword is the quadtree offset, below it the group count.
pub const QUADTREE_MIN_VERSION: u8 = 21;
/// The lighting section and per-placement light references exist from this version on.
pub const LIGHT_BINDING_MIN_VERSION: u8 = 18;
/// Collision-object records carry their flags tail only above this version.
pub const LEGACY_COLLISION_OBJECT_MAX_VERSION: u8 = 0x19;

/// The low 24 bits of the little-endian dword at `off`.
pub open spec fn le24(d: Seq<u8>, off: int) -> int {
    le16(d, off) + 65536 * d[off + 2]
}

/// Byte length of the pass-1 piece that `key` opens: 16 plus bits 4..7 of the key.
pub open spec fn piece_len(key: i32) -> int {
    (key as int / 16) % 8 + 16
}

/// Whether the piece that `key` opens is inverted: the key's low bit.
pub open spec fn piece_inverted(key: i32) -> bool {
    key as int % 2 == 1
}

/// Whether pass 1, walking pieces from `pos` with the key state (`key`, `kc`),
/// inverts byte `i` of a `len`-byte body whose header declares `count` encrypted bytes.
/// A piece is inverted only when its key's low bit is set and it ends strictly
/// before `count` (so no later piece is either); the inverted bytes are clipped
/// to the body.
pub open spec fn pass1_hit(count: int, len: int, pos: int, key: i32, kc: i32, i: int) -> bool
    decreases count - pos,
{
    let n = piece_len(key);
    if pos < 0 || pos + n >= count {
        false
    } else {
        let kc2 = kc.wrapping_add(1);
        proof {
            lemma_piece_len_bounds(key);
        }
        (piece_inverted(key) && 8 + pos <= i && i < 8 + pos + n && i < len) || pass1_hit(
            count,
            len,
            pos + n,
            key.wrapping_add(kc2),
            kc2,
            i,
        )
    }
}

/// Whether pass 2 XORs byte `j`: it lies in the name of one of the first `nodes`
/// placement records, and that whole name lies inside the body (the pass stops
/// at the first record whose name would run past the end).
pub open spec fn pass2_hit(nodes: int, len: int, j: int) -> bool {
    let k = (j - 0x20) / 0x64;
    &&& j >= 0x20
    &&& k < nodes
    &&& (j - 0x20) % 0x64 < 16
    &&& 0x20 + k * 0x64 + 16 <= len
}

/// The pass-1 starting key: the key table entry at the complement of byte 7.
pub open spec fn initial_key(d: Seq<u8>, keys: Seq<u8>) -> i32 {
    keys[255 - d[7]] as i32
}

/// The mask pass 1 applies to byte `j` of `d`.
pub open spec fn pass1_mask(d: Seq<u8>, keys: Seq<u8>, j: int) -> u8 {
    if d[3] >= ENCRYPTED_MIN_VERSION && pass1_hit(le24(d, 0), d.len() as int, 0, initial_key(d, keys), 0, j) {
        0xFF
    } else {
        0
    }
}

/// The mask pass 2 applies to byte `j` of `d`.
pub open spec fn pass2_mask(d: Seq<u8>, j: int) -> u8 {
    if pass2_hit(le24(d, 4), d.len() as int, j) {
        PLACEMENT_NAME_XOR
    } else {
        0
    }
}

/// The decrypted body: each byte XORed with the pass-1 mask, then the pass-2 mask.
/// Both masks depend only on the first eight bytes and the length.
pub open spec fn spec_decrypt(d: Seq<u8>, keys: Seq<u8>) -> Seq<u8> {
    Seq::new(d.len(), |j: int| (d[j] ^ pass1_mask(d, keys, j)) ^ pass2_mask(d, j))
}

pub proof fn lemma_piece_len_bounds(key: i32)
    ensures
        16 <= piece_len(key) <= 23,
{
    let k = key as int;
    assert(0 <= (k / 16) % 8 < 8);
}

proof fn lemma_pass1_from(count: int, len: int, pos: int, key: i32, kc: i32, i: int)
    requires
        pass1_hit(count, len, pos, key, kc, i),
    ensures
        8 + pos <= i < len,
    decreases count - pos,
{
    let n = piece_len(key);
    let kc2 = kc.wrapping_add(1);
    lemma_piece_len_bounds(key);
    if !(piece_inverted(key) && 8 + pos <= i && i < 8 + pos + n && i < len) {
        lemma_pass1_from(count, len, pos + n, key.wrapping_add(kc2), kc2, i);
    }
}

proof fn lemma_xor_facts(x: u8)
    ensures
        x ^ 0u8 == x,
        x ^ 0u8 ^ 0xFFu8 == x ^ 0xFFu8,
        x ^ 0u8 ^ 0x55u8 == x ^ 0x55u8,
        x ^ 0xFFu8 ^ 0xFFu8 == x,
        x ^ 0x55u8 ^ 0x55u8 == x,
{
    assert(x ^ 0u8 == x) by (bit_vector);
    assert(x ^ 0u8 ^ 0xFFu8 == x ^ 0xFFu8) by (bit_vector);
    assert(x ^ 0u8 ^ 0x55u8 == x ^ 0x55u8) by (bit_vector);
    assert(x ^ 0xFFu8 ^ 0xFFu8 == x) by (bit_vector);
    assert(x ^ 0x55u8 ^ 0x55u8 == x) by (bit_vector);
}

proof fn lemma_piece_bits(key: i32)
    ensures
        ((key >> 4u32) & 7i32) as int == piece_len(key) - 16,
        ((key & 1i32) == 1i32) == piece_inverted(key),
{
    assert(((key >> 4u32) & 7i32) as int == (key as int / 16) % 8) by (bit_vector);
    assert(((key & 1i32) == 1i32) == (key as int % 2 == 1)) by (bit_vector);
}

/// Inverts `data[start..end)` with `mask`.
fn xor_range(data: &mut [u8], start: usize, end: usize, mask: u8)
    requires
        start <= end <= old(data)@.len(),
    ensures
        final(data)@.len() == old(data)@.len(),
        forall|i: int|
            0 <= i < old(data)@.len() ==> #[trigger] final(data)@[i] == if start <= i < end {
                old(data)@[i] ^ mask
            } else {
                old(data)@[i]
            },
{
    let ghost before = data@;
    let mut k = start;
    while k < end
        invariant
            start <= k <= end <= data@.len(),
            data@.len() == before.len(),
            forall|i: int|
                0 <= i < before.len() ==> #[trigger] data@[i] == if start <= i < k {
                    before[i] ^ mask
                } else {
                    before[i]
                },
        decreases end - k,
    {
        let v = data[k] ^ mask;
        data[k] = v;
        k += 1;
    }
}

/// Decrypts an MZB body in place. Pass 1 (format version 27 on) walks pieces of
/// 16 to 23 bytes over the region after the first eight bytes, inverting those
/// the evolving key selects; the key starts at `keys[!byte7]`. Pass 2 XORs each
/// placement record's name with 0x55. A body shorter than eight bytes is refused
/// and left as it was.
pub fn decrypt_in_place(data: &mut [u8], keys: &[u8; 256]) -> (r: Result<(), DatError>)
    ensures
        old(data)@.len() < ENCRYPTED_REGION_START <==> r is Err,
        r is Err ==> final(data)@ == old(data)@ && r == Err::<(), DatError>(
            DatError::Mzb(
                MzbError::TooSmall {
                    needed: ENCRYPTED_REGION_START,
                    actual: old(data)@.len() as usize,
                },
            ),
        ),
        r is Ok ==> final(data)@ == spec_decrypt(old(data)@, keys@),
{
    let len = data.len();
    if len < ENCRYPTED_REGION_START {
        return Err(DatError::Mzb(MzbError::TooSmall { needed: ENCRYPTED_REGION_START, actual: len }));
    }
    let ghost orig = data@;
    let count: usize = data[0] as usize + data[1] as usize * 256 + data[2] as usize * 65536;
    let node_count: usize = data[4] as usize + data[5] as usize * 256 + data[6] as usize * 65536;
    let version = data[3];
    let decrypt_index = data[7];
    assert(count == le24(orig, 0));
    assert(node_count == le24(orig, 4));

    if version >= ENCRYPTED_MIN_VERSION {
        let ghost key0: i32 = initial_key(orig, keys@);
        let mut key: i32 = keys[(255 - decrypt_index) as usize] as i32;
        let mut kc: i32 = 0;
        let mut position: usize = 0;
        assert forall|i: int| 0 <= i < len implies #[trigger] data@[i] == orig[i] ^ (if i < 8 + position
            && pass1_hit(count as int, len as int, 0, key0, 0, i) {
            0xFFu8
        } else {
            0u8
        }) by {
            lemma_xor_facts(orig[i]);
            if pass1_hit(count as int, len as int, 0, key0, 0, i) {
                lemma_pass1_from(count as int, len as int, 0, key0, 0, i);
            }
        }
        while position < count
            invariant
                len == data@.len(),
                len == orig.len(),
                len >= 8,
                count <= 0xFFFFFF,
                position <= count + 23,
                forall|i: int|
                    0 <= i < len ==> #[trigger] data@[i] == orig[i] ^ (if i < 8 + position
                        && pass1_hit(count as int, len as int, 0, key0, 0, i) {
                        0xFFu8
                    } else {
                        0u8
                    }),
                forall|i: int|
                    8 + position <= i ==> #[trigger] pass1_hit(count as int, len as int, 0, key0, 0, i)
                        == pass1_hit(count as int, len as int, position as int, key, kc, i),
            decreases count + 23 - position,
        {
            proof {
                lemma_piece_bits(key);
                lemma_piece_len_bounds(key);
            }
            let piece_len = (((key >> 4u32) & 7i32) as usize) + 16;
            let ghost pos = position as int;
            let ghost kb = key;
            let ghost kcb = kc;
            let ghost before = data@;
            let ghost here = piece_inverted(kb) && pos + piece_len < count;
            let start = ENCRYPTED_REGION_START + position;
            let end = if start + piece_len < len {
                start + piece_len
            } else {
                len
            };
            if (key & 1i32) == 1i32 && position + piece_len < count {
                if start < end {
                    xor_range(data, start, end, 0xFF);
                }
            }
            kc = kc.wrapping_add(1);
            key = key.wrapping_add(kc);
            position = position + piece_len;
            proof {
                assert forall|i: int| 8 + position <= i implies #[trigger] pass1_hit(
                    count as int,
                    len as int,
                    0,
                    key0,
                    0,
                    i,
                ) == pass1_hit(count as int, len as int, position as int, key, kc, i) by {
                    assert(pass1_hit(count as int, len as int, 0, key0, 0, i) == pass1_hit(
                        count as int,
                        len as int,
                        pos,
                        kb,
                        kcb,
                        i,
                    ));
                }
                assert forall|i: int| 0 <= i < len implies #[trigger] data@[i] == orig[i] ^ (
                if i < 8 + position && pass1_hit(count as int, len as int, 0, key0, 0, i) {
                    0xFFu8
                } else {
                    0u8
                }) by {
                    lemma_xor_facts(orig[i]);
                    if 8 + pos <= i {
                        assert(pass1_hit(count as int, len as int, 0, key0, 0, i) == pass1_hit(
                            count as int,
                            len as int,
                            pos,
                            kb,
                            kcb,
                            i,
                        ));
                        if pass1_hit(count as int, len as int, position as int, key, kc, i) {
                            lemma_pass1_from(count as int, len as int, position as int, key, kc, i);
                        }
                    }
                }
            }
        }
        proof {
            assert forall|i: int| 0 <= i < len implies #[trigger] data@[i] == orig[i] ^ pass1_mask(
                orig,
                keys@,
                i,
            ) by {
                if 8 + position <= i {
                    assert(!pass1_hit(count as int, len as int, position as int, key, kc, i));
                }
            }
        }
    }
    let ghost mid = data@;
    assert forall|j: int| 0 <= j < len implies #[trigger] mid[j] == orig[j] ^ pass1_mask(orig, keys@, j) by {
        lemma_xor_facts(orig[j]);
    }

    let mut i: usize = 0;
    assert forall|j: int| 0 <= j < len implies #[trigger] data@[j] == mid[j] ^ (if pass2_hit(i as int, len as int, j) {
        0x55u8
    } else {
        0u8
    }) by {
        lemma_xor_facts(mid[j]);
    }
    while i < node_count
        invariant
            len == data@.len(),
            len == mid.len(),
            i <= node_count,
            node_count <= 0xFFFFFF,
            forall|j: int|
                0 <= j < len ==> #[trigger] data@[j] == mid[j] ^ (if pass2_hit(i as int, len as int, j) {
                    0x55u8
                } else {
                    0u8
                }),
        ensures
            forall|j: int|
                0 <= j < len ==> #[trigger] data@[j] == mid[j] ^ (if pass2_hit(node_count as int, len as int, j) {
                    0x55u8
                } else {
                    0u8
                }),
        decreases node_count - i,
    {
        let base = MZB_HEADER_LEN + i * PLACEMENT_RECORD_LEN;
        let end = base + PLACEMENT_NAME_LEN;
        if end > len {
            proof {
                assert forall|j: int| 0 <= j < len implies pass2_hit(node_count as int, len as int, j)
                    == pass2_hit(i as int, len as int, j) by {
                    let k = (j - 0x20) / 0x64;
                    if j >= 0x20 && k >= i {
                        assert(k * 0x64 >= i * 0x64) by (nonlinear_arith)
                            requires
                                k >= i,
                        ;
                    }
                }
            }
            break;
        }
        let ghost before = data@;
        xor_range(data, base, end, PLACEMENT_NAME_XOR);
        i += 1;
        proof {
            assert forall|j: int| 0 <= j < len implies #[trigger] data@[j] == mid[j] ^ (if pass2_hit(
                i as int,
                len as int,
                j,
            ) {
                0x55u8
            } else {
                0u8
            }) by {
                let k = (j - 0x20) / 0x64;
                let r = (j - 0x20) % 0x64;
                if j >= 0x20 {
                    assert(j - 0x20 == k * 0x64 + r);
                }
                if base <= j < end {
                    assert(k == i - 1 && r == j - base);
                    assert(!pass2_hit((i - 1) as int, len as int, j));
                    lemma_xor_facts(mid[j]);
                } else {
                    assert(pass2_hit(i as int, len as int, j) == pass2_hit((i - 1) as int, len as int, j));
                }
            }
        }
    }
    proof {
        assert forall|j: int| 0 <= j < len implies #[trigger] data@[j] == spec_decrypt(orig, keys@)[j] by {
            let m1 = pass1_mask(orig, keys@, j);
            let o = orig[j];
            if pass2_hit(node_count as int, len as int, j) {
                assert(data@[j] == (o ^ m1) ^ 0x55u8);
            } else {
                assert(data@[j] == (o ^ m1) ^ 0u8);
            }
        }
        assert(data@ =~= spec_decrypt(orig, keys@));
    }
    Ok(())
}

/// Decrypts a copy of `data`, leaving `data` as it is.
pub fn decrypt(data: &[u8], keys: &[u8; 256]) -> (r: Result<Vec<u8>, DatError>)
    ensures
        data@.len() < ENCRYPTED_REGION_START <==> r is Err,
        r is Err ==> r == Err::<Vec<u8>, DatError>(
            DatError::Mzb(
                MzbError::TooSmall { needed: ENCRYPTED_REGION_START, actual: data@.len() as usize },
            ),
        ),
        r matches Ok(v) ==> v@ == spec_decrypt(data@, keys@),
{
    let mut buf = vstd::slice::slice_to_vec(data);
    match decrypt_in_place(buf.as_mut_slice(), keys) {
        Ok(()) => Ok(buf),
        Err(e) => Err(e),
    }
}

/// Decryption undoes itself: both passes XOR masks that depend only on the
/// untouched first eight bytes and the length, so decrypting a decrypted body
/// gives back the original.
pub proof fn law_decrypt_is_an_involution(d: Seq<u8>, keys: Seq<u8>)
    requires
        d.len() >= ENCRYPTED_REGION_START,
        keys.len() == 256,
    ensures
        spec_decrypt(spec_decrypt(d, keys), keys) == d,
{
    let e = spec_decrypt(d, keys);
    assert forall|j: int| 0 <= j < 8 implies e[j] == d[j] by {
        if pass1_hit(le24(d, 0), d.len() as int, 0, initial_key(d, keys), 0, j) {
            lemma_pass1_from(le24(d, 0), d.len() as int, 0, initial_key(d, keys), 0, j);
        }
        lemma_xor_facts(d[j]);
    }
    assert forall|j: int| 0 <= j < d.len() implies #[trigger] spec_decrypt(e, keys)[j] == d[j] by {
        assert(pass1_mask(e, keys, j) == pass1_mask(d, keys, j));
        assert(pass2_mask(e, j) == pass2_mask(d, j));
        let x = d[j];
        let a = pass1_mask(d, keys, j);
        let b = pass2_mask(d, j);
        assert(((x ^ a) ^ b) ^ a ^ b == x) by (bit_vector);
    }
    assert(spec_decrypt(e, keys) =~= d);
}

/// The packed 0x20-byte zone block header.
#[derive(Debug, Clone, Copy, PartialEq, Eq)]
pub struct MzbHeader {
    pub decode_length: u32,
    pub node_count: u32,
    pub version: u8,
    pub key_index: u8,
    pub zone_blocks_x: u8,
    pub zone_blocks_z: u8,
    pub block_width: u8,
    pub block_length: u8,
    /// Zero is legal: the zone ships no collision section.
    pub collision_data_offset: u32,
    /// The quadtree offset from version 21 on, the group-list count below it.
    pub quadtree_or_group_count: u32,
    pub group_list_offset: u32,
    pub lighting_offset: u32,
    /// `ZoneType = SubstructureType + 1`.
    pub substructure_type: u8,
    pub collision_flags: u8,
}

/// The header a body of at least 0x20 bytes declares.
pub open spec fn spec_header(b: Seq<u8>) -> MzbHeader {
    MzbHeader {
        decode_length: le24(b, 0) as u32,
        node_count: le24(b, 4) as u32,
        version: b[3],
        key_index: b[7],
        zone_blocks_x: b[0x0C],
        zone_blocks_z: b[0x0D],
        block_width: b[0x0E],
        block_length: b[0x0F],
        collision_data_offset: le32(b, 0x08) as u32,
        quadtree_or_group_count: le32(b, 0x10) as u32,
        group_list_offset: le32(b, 0x14) as u32,
        lighting_offset: le32(b, 0x18) as u32,
        substructure_type: b[0x1C],
        collision_flags: b[0x1D],
    }
}

impl MzbHeader {
    /// Reads the header; a body shorter than 0x20 bytes is refused.
    pub fn parse(body: &[u8]) -> (r: Result<MzbHeader, DatError>)
        ensures
            body@.len() < MZB_HEADER_LEN <==> r is Err,
            r is Err ==> r == Err::<MzbHeader, DatError>(
                DatError::Mzb(MzbError::TooSmall { needed: MZB_HEADER_LEN, actual: body@.len() as usize }),
            ),
            r matches Ok(h) ==> h == spec_header(body@),
    {
        if body.len() < MZB_HEADER_LEN {
            return Err(DatError::Mzb(MzbError::TooSmall { needed: MZB_HEADER_LEN, actual: body.len() }));
        }
        Ok(MzbHeader {
            decode_length: body[0] as u32 + body[1] as u32 * 256 + body[2] as u32 * 65536,
            node_count: body[4] as u32 + body[5] as u32 * 256 + body[6] as u32 * 65536,
            version: body[3],
            key_index: body[7],
            zone_blocks_x: body[0x0C],
            zone_blocks_z: body[0x0D],
            block_width: body[0x0E],
            block_length: body[0x0F],
            collision_data_offset: read_u32_le(body, 0x08).unwrap(),
            quadtree_or_group_count: read_u32_le(body, 0x10).unwrap(),
            group_list_offset: read_u32_le(body, 0x14).unwrap(),
            lighting_offset: read_u32_le(body, 0x18).unwrap(),
            substructure_type: body[0x1C],
            collision_flags: body[0x1D],
        })
    }

    /// Placement-grid columns: zone blocks times sub-blocks per block.
    pub fn grid_cells_x(&self) -> (r: usize)
        ensures
            r == self.zone_blocks_x as int * (self.block_width as int / 4),
    {
        let per = (self.block_width as u32 / MZB_SUB_BLOCK_SIZE) as usize;
        assert(self.zone_blocks_x as int * per <= 255 * 63) by (nonlinear_arith)
            requires
                self.zone_blocks_x <= 255,
                per <= 63,
        ;
        (self.zone_blocks_x as usize) * per
    }

    /// Placement-grid rows: zone blocks times sub-blocks per block.
    pub fn grid_cells_z(&self) -> (r: usize)
        ensures
            r == self.zone_blocks_z as int * (self.block_length as int / 4),
    {
        let per = (self.block_length as u32 / MZB_SUB_BLOCK_SIZE) as usize;
        assert(self.zone_blocks_z as int * per <= 255 * 63) by (nonlinear_arith)
            requires
                self.zone_blocks_z <= 255,
                per <= 63,
        ;
        (self.zone_blocks_z as usize) * per
    }

    pub fn has_collision_data(&self) -> (r: bool)
        ensures
            r == (self.collision_data_offset != 0),
    {
        self.collision_data_offset != 0
    }

    /// The 0x10 dword read as the quadtree offset, which it is from version 21 on.
    pub fn quadtree_offset(&self) -> (r: Option<u32>)
        ensures
            r == if self.version >= QUADTREE_MIN_VERSION {
                Some(self.quadtree_or_group_count)
            } else {
                None::<u32>
            },
    {
        if self.version >= QUADTREE_MIN_VERSION {
            Some(self.quadtree_or_group_count)
        } else {
            None
        }
    }

    /// The 0x10 dword read as the group-list count, which it is below version 21.
    pub fn group_list_count(&self) -> (r: Option<u32>)
        ensures
            r == if self.version < QUADTREE_MIN_VERSION {
                Some(self.quadtree_or_group_count)
            } else {
                None::<u32>
            },
    {
        if self.version < QUADTREE_MIN_VERSION {
            Some(self.quadtree_or_group_count)
        } else {
            None
        }
    }

    /// Light bindings exist when the header has a lighting section and the format
    /// is version 18 or later.
    pub fn has_light_bindings(&self) -> (r: bool)
        ensures
            r == (self.lighting_offset != 0 && self.version >= LIGHT_BINDING_MIN_VERSION),
    {
        self.lighting_offset != 0 && self.version >= LIGHT_BINDING_MIN_VERSION
    }

    /// Whether collision-object records carry their flags tail (and the water height in it).
    pub fn has_collision_object_tail(&self) -> (r: bool)
        ensures
            r == (self.version > LEGACY_COLLISION_OBJECT_MAX_VERSION),
    {
        self.version > LEGACY_COLLISION_OBJECT_MAX_VERSION
    }
}

/// Whether a camera or line-of-sight query passes through a triangle: the mesh's
/// whole flags word is non-zero and the triangle is camera-transparent. Movement
/// never consults this.
pub fn double_sided_skip(mesh_flags: u16, camera_transparent: bool) -> (r: bool)
    ensures
        r == (mesh_flags != 0 && camera_transparent),
{
    mesh_flags != 0 && camera_transparent
}

/// Per-triangle attributes packed into the top bits of the index words.
#[derive(Debug, Clone, Copy, PartialEq, Eq, Default)]
pub struct MzbTriangleInfo {
    /// The top bits of the four index words, first word lowest.
    pub material: u8,
    /// Bit 14 of the second index word.
    pub is_invalid: bool,
    /// Bit 14 of the third index word; feeds [`double_sided_skip`].
    pub camera_transparent: bool,
}

/// One collision mesh. Vertex positions and normals are kept as the IEEE-754
/// bit patterns of their three `f32` components, as the file stores them.
#[derive(Debug, Clone)]
pub struct MzbMesh {
    pub vertex_bits: Vec<[u32; 3]>,
    pub normal_bits: Vec<[u32; 3]>,
    /// Vertex indices: the first masked to 15 bits, the other two to 14.
    pub triangles: Vec<[u32; 3]>,
    /// The fourth index word masked to 15 bits.
    pub triangle_normals: Vec<u32>,
    pub tri_info: Vec<MzbTriangleInfo>,
    pub flags: u16,
}

/// A collision mesh record is read through its flags word.
pub const MESH_RECORD_LEN: usize = 16;
/// Four `u16` index words per triangle.
pub const MESH_TRIANGLE_LEN: usize = 8;
/// Three `f32` per vertex or normal.
pub const VEC3_LEN: usize = 12;
/// The collision-data header is read through its grid-data offset at 0x10.
pub const COLL_HEADER_READ_LEN: usize = 0x14;

/// The three little-endian dwords at `o`.
pub open spec fn vec3_at(b: Seq<u8>, o: int) -> Seq<u32> {
    seq![le32(b, o) as u32, le32(b, o + 4) as u32, le32(b, o + 8) as u32]
}

/// The triangle whose four index words start at `o`: its vertex indices, its
/// normal index and its attributes.
pub open spec fn spec_triangle(b: Seq<u8>, o: int) -> (Seq<u32>, u32, MzbTriangleInfo) {
    let w0 = le16(b, o);
    let w1 = le16(b, o + 2);
    let w2 = le16(b, o + 4);
    let w3 = le16(b, o + 6);
    (
        seq![(w0 % 32768) as u32, (w1 % 16384) as u32, (w2 % 16384) as u32],
        (w3 % 32768) as u32,
        MzbTriangleInfo {
            material: (w0 / 32768 + 2 * (w1 / 32768) + 4 * (w2 / 32768) + 8 * (w3 / 32768)) as u8,
            is_invalid: (w1 / 16384) % 2 == 1,
            camera_transparent: (w2 / 16384) % 2 == 1,
        },
    )
}

/// How a mesh record at `pos` fails, if it does: too close to the end, an array
/// offset outside the body (reported as the largest of the three), or arrays
/// out of order.
pub open spec fn spec_mesh_error(b: Seq<u8>, pos: int) -> Option<MzbError> {
    let len = b.len() as int;
    if pos + 16 > len {
        Some(MzbError::MeshDataOutOfRange { offset: pos as usize, len: len as usize })
    } else {
        let v = le32(b, pos);
        let n = le32(b, pos + 4);
        let t = le32(b, pos + 8);
        if v >= len || n >= len || t >= len {
            let m = if v >= n && v >= t {
                v
            } else if n >= t {
                n
            } else {
                t
            };
            Some(MzbError::MeshDataOutOfRange { offset: m as usize, len: len as usize })
        } else if !(v <= n && n <= t) {
            Some(
                MzbError::CrossedOffsets {
                    pos: pos as usize,
                    verts: v as usize,
                    normals: n as usize,
                    tris: t as usize,
                },
            )
        } else {
            None
        }
    }
}

/// `m` is the mesh whose record (valid per [`spec_mesh_error`]) sits at `pos`:
/// `(normals - verts) / 12` vertices, `(tris - normals) / 12` normals, and as many
/// of the declared triangles as fit before the end of the body.
#[verifier::opaque]
pub open spec fn mesh_matches(m: MzbMesh, b: Seq<u8>, pos: int) -> bool {
    let v = le32(b, pos);
    let n = le32(b, pos + 4);
    let t = le32(b, pos + 8);
    let declared = le16(b, pos + 12);
    let fitting = (b.len() - t) / 8;
    let tris = if declared <= fitting {
        declared
    } else {
        fitting
    };
    &&& m.flags as int == le16(b, pos + 14)
    &&& m.vertex_bits@.len() == (n - v) / 12
    &&& forall|i: int| 0 <= i < m.vertex_bits@.len() ==> #[trigger] m.vertex_bits@[i]@ == vec3_at(b, v + 12 * i)
    &&& m.normal_bits@.len() == (t - n) / 12
    &&& forall|i: int| 0 <= i < m.normal_bits@.len() ==> #[trigger] m.normal_bits@[i]@ == vec3_at(b, n + 12 * i)
    &&& m.triangles@.len() == tris
    &&& m.triangle_normals@.len() == tris
    &&& m.tri_info@.len() == tris
    &&& forall|i: int|
        0 <= i < tris ==> {
            let e = spec_triangle(b, t + 8 * i);
            &&& (#[trigger] m.triangles@[i])@ == e.0
            &&& m.triangle_normals@[i] == e.1
            &&& m.tri_info@[i] == e.2
        }
}

fn read_vec3(body: &[u8], o: usize) -> (r: [u32; 3])
    requires
        o + 12 <= body@.len(),
    ensures
        r@ == vec3_at(body@, o as int),
{
    let _ = body.len();
    let r = [
        read_u32_le(body, o).unwrap(),
        read_u32_le(body, o + 4).unwrap(),
        read_u32_le(body, o + 8).unwrap(),
    ];
    assert(r@ =~= vec3_at(body@, o as int));
    r
}

fn read_vec3_array(body: &[u8], start: usize, count: usize) -> (r: Vec<[u32; 3]>)
    requires
        start + 12 * count <= body@.len(),
    ensures
        r@.len() == count,
        forall|i: int| 0 <= i < count ==> #[trigger] r@[i]@ == vec3_at(body@, start + 12 * i),
{
    let blen = body.len();
    let mut out: Vec<[u32; 3]> = Vec::new();
    let mut i: usize = 0;
    while i < count
        invariant
            blen == body@.len(),
            i <= count,
            start + 12 * count <= body@.len(),
            out@.len() == i,
            forall|k: int| 0 <= k < i ==> #[trigger] out@[k]@ == vec3_at(body@, start + 12 * k),
        decreases count - i,
    {
        assert(start + 12 * i + 12 <= start + 12 * count) by (nonlinear_arith)
            requires
                i < count,
        ;
        out.push(read_vec3(body, start + i * VEC3_LEN));
        i += 1;
    }
    out
}

fn decode_triangle(body: &[u8], o: usize) -> (r: ([u32; 3], u32, MzbTriangleInfo))
    requires
        o + 8 <= body@.len(),
    ensures
        r.0@ == spec_triangle(body@, o as int).0,
        r.1 == spec_triangle(body@, o as int).1,
        r.2 == spec_triangle(body@, o as int).2,
{
    let _ = body.len();
    let w0 = read_u16_le(body, o).unwrap();
    let w1 = read_u16_le(body, o + 2).unwrap();
    let w2 = read_u16_le(body, o + 4).unwrap();
    let w3 = read_u16_le(body, o + 6).unwrap();
    let material = (w0 / 32768 + 2 * (w1 / 32768) + 4 * (w2 / 32768) + 8 * (w3 / 32768)) as u8;
    let tri = [(w0 % 32768) as u32, (w1 % 16384) as u32, (w2 % 16384) as u32];
    assert(tri@ =~= spec_triangle(body@, o as int).0);
    (
        tri,
        (w3 % 32768) as u32,
        MzbTriangleInfo {
            material,
            is_invalid: (w1 / 16384) % 2 == 1,
            camera_transparent: (w2 / 16384) % 2 == 1,
        },
    )
}

/// Reads the collision mesh whose record starts at `pos`.
#[verifier::spinoff_prover]
pub fn parse_mesh_at(body: &[u8], pos: usize) -> (r: Result<MzbMesh, DatError>)
    ensures
        spec_mesh_error(body@, pos as int) is Some <==> r is Err,
        r matches Err(e) ==> e == DatError::Mzb(spec_mesh_error(body@, pos as int)->0),
        r matches Ok(m) ==> mesh_matches(m, body@, pos as int),
{
    let len = body.len();
    if pos > len || len - pos < MESH_RECORD_LEN {
        return Err(DatError::Mzb(MzbError::MeshDataOutOfRange { offset: pos, len }));
    }
    let v = read_u32_le(body, pos).unwrap() as usize;
    let n = read_u32_le(body, pos + 4).unwrap() as usize;
    let t = read_u32_le(body, pos + 8).unwrap() as usize;
    let declared = read_u16_le(body, pos + 12).unwrap() as usize;
    let flags = read_u16_le(body, pos + 14).unwrap();
    if v >= len || n >= len || t >= len {
        let m = if v >= n && v >= t {
            v
        } else if n >= t {
            n
        } else {
            t
        };
        return Err(DatError::Mzb(MzbError::MeshDataOutOfRange { offset: m, len }));
    }
    if !(v <= n && n <= t) {
        return Err(DatError::Mzb(MzbError::CrossedOffsets { pos, verts: v, normals: n, tris: t }));
    }
    let vert_count = (n - v) / VEC3_LEN;
    let norm_count = (t - n) / VEC3_LEN;
    let vertex_bits = read_vec3_array(body, v, vert_count);
    let normal_bits = read_vec3_array(body, n, norm_count);

    let mut triangles: Vec<[u32; 3]> = Vec::new();
    let mut triangle_normals: Vec<u32> = Vec::new();
    let mut tri_info: Vec<MzbTriangleInfo> = Vec::new();
    let fitting = (len - t) / MESH_TRIANGLE_LEN;
    let tris = if declared <= fitting {
        declared
    } else {
        fitting
    };
    let mut i: usize = 0;
    while i < tris
        invariant
            len == body@.len(),
            t < len,
            i <= tris,
            tris <= (len - t) / 8,
            triangles@.len() == i,
            triangle_normals@.len() == i,
            tri_info@.len() == i,
            forall|k: int|
                0 <= k < i ==> {
                    let e = spec_triangle(body@, t + 8 * k);
                    &&& (#[trigger] triangles@[k])@ == e.0
                    &&& triangle_normals@[k] == e.1
                    &&& tri_info@[k] == e.2
                },
        decreases tris - i,
    {
        assert(8 * i + 8 <= 8 * tris);
        assert(8 * ((len - t) / 8) <= len - t);
        let (tri, nrm, info) = decode_triangle(body, t + i * MESH_TRIANGLE_LEN);
        triangles.push(tri);
        triangle_normals.push(nrm);
        tri_info.push(info);
        i += 1;
    }
    let m = MzbMesh { vertex_bits, normal_bits, triangles, triangle_normals, tri_info, flags };
    assert(m.flags as int == le16(body@, pos + 14));
    assert(m.vertex_bits@.len() == (n - v) / 12);
    assert(m.normal_bits@.len() == (t - n) / 12);
    assert(m.triangles@.len() == tris);
    assert(forall|i: int| 0 <= i < m.vertex_bits@.len() ==> #[trigger] m.vertex_bits@[i]@ == vec3_at(body@, v + 12 * i));
    assert(forall|i: int| 0 <= i < m.normal_bits@.len() ==> #[trigger] m.normal_bits@[i]@ == vec3_at(body@, n + 12 * i));
    assert(forall|i: int|
        0 <= i < tris ==> {
            let e = spec_triangle(body@, t + 8 * i);
            &&& (#[trigger] m.triangles@[i])@ == e.0
            &&& m.triangle_normals@[i] == e.1
            &&& m.tri_info@[i] == e.2
        });
    assert(m.triangle_normals@.len() == tris);
    assert(m.tri_info@.len() == tris);
    assert(tris == (if le16(body@, pos + 12) <= (body@.len() - le32(body@, pos + 8)) / 8 { le16(body@, pos + 12) } else { (body@.len() - le32(body@, pos + 8)) / 8 }));
    assert(mesh_matches(m, body@, pos as int)) by {
        reveal(mesh_matches);
    }
    Ok(m)
}

/// Decrypts a zone block body, then reads its header and collision meshes.
pub fn parse_all(encrypted_body: &[u8], keys: &[u8; 256]) -> (r: Result<(MzbHeader, Vec<MzbMesh>), DatError>)
    ensures
        encrypted_body@.len() < ENCRYPTED_REGION_START ==> r == Err::<(MzbHeader, Vec<MzbMesh>), DatError>(
            DatError::Mzb(MzbError::TooSmall { needed: ENCRYPTED_REGION_START, actual: encrypted_body@.len() as usize }),
        ),
        encrypted_body@.len() >= ENCRYPTED_REGION_START ==> {
            let d = spec_decrypt(encrypted_body@, keys@);
            let h = spec_header(d);
            let ms = spec_meshes(d, h.collision_data_offset as int);
            &&& d.len() < MZB_HEADER_LEN ==> r == Err::<(MzbHeader, Vec<MzbMesh>), DatError>(
                DatError::Mzb(MzbError::TooSmall { needed: MZB_HEADER_LEN, actual: d.len() as usize }),
            )
            &&& d.len() >= MZB_HEADER_LEN ==> {
                &&& (ms is Err <==> r is Err)
                &&& r matches Err(e) ==> e == DatError::Mzb(ms->Err_0)
                &&& r matches Ok(x) ==> {
                    &&& x.0 == h
                    &&& x.1@.len() == ms->Ok_0.len()
                    &&& forall|k: int| 0 <= k < ms->Ok_0.len() ==> mesh_matches(#[trigger] x.1@[k], d, ms->Ok_0[k])
                }
            }
        },
{
    let plain = match decrypt(encrypted_body, keys) {
        Err(e) => return Err(e),
        Ok(p) => p,
    };
    let header = match MzbHeader::parse(plain.as_slice()) {
        Err(e) => return Err(e),
        Ok(h) => h,
    };
    match parse_meshes(plain.as_slice(), &header) {
        Err(e) => Err(e),
        Ok(meshes) => Ok((header, meshes)),
    }
}

/// Where the collision-data header starts: `None` when the header declares no
/// collision section, an error when the section's header would run past the body.
pub fn collision_header(body: &[u8], header: &MzbHeader) -> (r: Result<Option<usize>, DatError>)
    ensures
        header.collision_data_offset == 0 ==> r == Ok::<Option<usize>, DatError>(None),
        header.collision_data_offset != 0 && header.collision_data_offset + COLL_HEADER_READ_LEN
            > body@.len() ==> r == Err::<Option<usize>, DatError>(
            DatError::Mzb(
                MzbError::CollisionDataOutOfRange {
                    offset: header.collision_data_offset as usize,
                    len: body@.len() as usize,
                },
            ),
        ),
        header.collision_data_offset != 0 && header.collision_data_offset + COLL_HEADER_READ_LEN
            <= body@.len() ==> r == Ok::<Option<usize>, DatError>(
            Some(header.collision_data_offset as usize),
        ),
{
    if !header.has_collision_data() {
        return Ok(None);
    }
    let off = header.collision_data_offset as usize;
    let len = body.len();
    if off > len || len - off < COLL_HEADER_READ_LEN {
        return Err(DatError::Mzb(MzbError::CollisionDataOutOfRange { offset: off, len }));
    }
    Ok(Some(off))
}

/// The record positions the mesh walk visits from `pos`, at most `left` of them:
/// it stops before a record too close to the end, fails on the first invalid
/// record, and after each record moves to the end of that record's triangle
/// array unless that does not move forward or runs off the body.
pub open spec fn spec_mesh_walk(b: Seq<u8>, pos: int, left: nat) -> Result<Seq<int>, MzbError>
    decreases left,
{
    if left == 0 || pos + 16 > b.len() {
        Ok(Seq::empty())
    } else {
        match spec_mesh_error(b, pos) {
            Some(e) => Err(e),
            None => {
                let next = le32(b, pos + 8) + 8 * le16(b, pos + 12);
                if next <= pos || next >= b.len() {
                    Ok(seq![pos])
                } else {
                    match spec_mesh_walk(b, next, (left - 1) as nat) {
                        Ok(rest) => Ok(seq![pos] + rest),
                        Err(e) => Err(e),
                    }
                }
            },
        }
    }
}

/// What reading the collision meshes of `b` gives: no meshes without a collision
/// section, an error when its header or the mesh array offset lies outside the
/// body, else the walk from the mesh array over at most the declared mesh count.
pub open spec fn spec_meshes(b: Seq<u8>, cdo: int) -> Result<Seq<int>, MzbError> {
    if cdo == 0 {
        Ok(Seq::empty())
    } else if cdo + COLL_HEADER_READ_LEN > b.len() {
        Err(MzbError::CollisionDataOutOfRange { offset: cdo as usize, len: b.len() as usize })
    } else {
        let count = le32(b, cdo);
        let start = le32(b, cdo + 4);
        if start >= b.len() {
            Err(MzbError::MeshDataOutOfRange { offset: start as usize, len: b.len() as usize })
        } else {
            spec_mesh_walk(b, start, count as nat)
        }
    }
}

/// `r` with `d` in front of its positions; an error stays as it is.
pub open spec fn prepend(d: Seq<int>, r: Result<Seq<int>, MzbError>) -> Result<Seq<int>, MzbError> {
    match r {
        Ok(rest) => Ok(d + rest),
        Err(e) => Err(e),
    }
}

proof fn lemma_prepend_push(d: Seq<int>, pos: int, x: Result<Seq<int>, MzbError>)
    ensures
        prepend(d, prepend(seq![pos], x)) == prepend(d.push(pos), x),
{
    if let Ok(rest) = x {
        assert(d + (seq![pos] + rest) =~= d.push(pos) + rest);
    }
}

/// Reads every collision mesh the header's collision section lists.
#[verifier::spinoff_prover]
pub fn parse_meshes(body: &[u8], header: &MzbHeader) -> (r: Result<Vec<MzbMesh>, DatError>)
    ensures
        spec_meshes(body@, header.collision_data_offset as int) is Err <==> r is Err,
        r matches Err(e) ==> e == DatError::Mzb(spec_meshes(body@, header.collision_data_offset as int)->Err_0),
        r matches Ok(v) ==> {
            let ps = spec_meshes(body@, header.collision_data_offset as int)->Ok_0;
            &&& v@.len() == ps.len()
            &&& forall|k: int| 0 <= k < ps.len() ==> mesh_matches(#[trigger] v@[k], body@, ps[k])
        },
{
    let len = body.len();
    let mt = match collision_header(body, header) {
        Err(e) => return Err(e),
        Ok(None) => return Ok(Vec::new()),
        Ok(Some(mt)) => mt,
    };
    let mesh_count = read_u32_le(body, mt).unwrap() as usize;
    let start = read_u32_le(body, mt + 4).unwrap() as usize;
    if start >= len {
        return Err(DatError::Mzb(MzbError::MeshDataOutOfRange { offset: start, len }));
    }
    let ghost target = spec_mesh_walk(body@, start as int, mesh_count as nat);
    assert(target == spec_meshes(body@, header.collision_data_offset as int));
    let mut out: Vec<MzbMesh> = Vec::new();
    let mut pos = start;
    let mut k: usize = 0;
    let ghost mut done: Seq<int> = Seq::empty();
    assert(prepend(done, target) == target) by {
        if let Ok(rest) = target {
            assert(done + rest =~= rest);
        }
    }
    while k < mesh_count
        invariant_except_break
            k <= mesh_count,
            pos < len,
            prepend(done, spec_mesh_walk(body@, pos as int, (mesh_count - k) as nat)) == target,
        invariant
            len == body@.len(),
            target == spec_meshes(body@, header.collision_data_offset as int),
            out@.len() == done.len(),
            forall|j: int| 0 <= j < done.len() ==> mesh_matches(#[trigger] out@[j], body@, done[j]),
        ensures
            target == Ok::<Seq<int>, MzbError>(done),
        decreases mesh_count - k,
    {
        let ghost left = (mesh_count - k) as nat;
        if len - pos < MESH_RECORD_LEN {
            assert(done + Seq::<int>::empty() =~= done);
            break;
        }
        let mesh = match parse_mesh_at(body, pos) {
            Ok(m) => m,
            Err(e) => {
                assert(spec_mesh_walk(body@, pos as int, left) == Err::<Seq<int>, MzbError>(
                    spec_mesh_error(body@, pos as int)->0,
                ));
                return Err(e);
            },
        };
        let tri_off = read_u32_le(body, pos + 8).unwrap() as usize;
        let tri_count = read_u16_le(body, pos + 12).unwrap() as usize;
        out.push(mesh);
        let ghost old_done = done;
        proof {
            done = done.push(pos as int);
        }
        k += 1;
        if tri_off >= len || len - tri_off <= tri_count * MESH_TRIANGLE_LEN {
            proof {
                lemma_prepend_push(old_done, pos as int, Ok(Seq::empty()));
                assert(done + Seq::<int>::empty() =~= done);
                assert(seq![pos as int] + Seq::<int>::empty() =~= seq![pos as int]);
            }
            break;
        }
        let next = tri_off + tri_count * MESH_TRIANGLE_LEN;
        if next <= pos {
            proof {
                lemma_prepend_push(old_done, pos as int, Ok(Seq::empty()));
                assert(done + Seq::<int>::empty() =~= done);
                assert(seq![pos as int] + Seq::<int>::empty() =~= seq![pos as int]);
            }
            break;
        }
        proof {
            lemma_prepend_push(old_done, pos as int, spec_mesh_walk(body@, next as int, (mesh_count - k) as nat));
        }
        pos = next;
    }
    Ok(out)
}

/// The indices at which `h` holds `true`, in order.
pub open spec fn true_indices(h: Seq<bool>) -> Seq<usize>
    decreases h.len(),
{
    if h.len() == 0 {
        Seq::empty()
    } else {
        let r = true_indices(h.drop_last());
        if h.last() {
            r.push((h.len() - 1) as usize)
        } else {
            r
        }
    }
}

fn indices_of_true(h: &Vec<bool>) -> (r: Vec<usize>)
    ensures
        r@ == true_indices(h@),
{
    let mut out: Vec<usize> = Vec::new();
    let mut i: usize = 0;
    while i < h.len()
        invariant
            i <= h@.len(),
            out@ == true_indices(h@.take(i as int)),
        decreases h.len() - i,
    {
        proof {
            assert(h@.take(i + 1).drop_last() =~= h@.take(i as int));
        }
        if h[i] {
            out.push(i);
        }
        i += 1;
    }
    proof {
        assert(h@.take(i as int) =~= h@);
    }
    out
}

/// The asset names as character sequences.
pub open spec fn name_views(names: Seq<String>) -> Seq<Seq<char>> {
    names.map_values(|n: String| n@)
}

/// Which MMB assets a placement name refers to, tried in turn until one finds
/// any: asset names (trailing white space dropped) equal to the placement name;
/// equal to the zone prefix followed by the placement name; for names of at
/// least eight bytes, ending in the name's first eight bytes; and, for names of
/// at least three bytes, ending in the whole name.
pub open spec fn spec_resolve(id: Seq<char>, pre: Seq<char>, ns: Seq<Seq<char>>) -> Seq<usize> {
    let idb = encode_utf8(id);
    let exact = true_indices(Seq::new(ns.len(), |i: int| trim_end_ws(ns[i]) == id));
    let prefixed = true_indices(Seq::new(ns.len(), |i: int| trim_end_ws(ns[i]) == pre + id));
    let tail = true_indices(
        Seq::new(ns.len(), |i: int| ends_with(encode_utf8(trim_end_ws(ns[i])), idb.take(8))),
    );
    let suffix = true_indices(
        Seq::new(ns.len(), |i: int| ends_with(encode_utf8(trim_end_ws(ns[i])), idb)),
    );
    if exact.len() > 0 {
        exact
    } else if prefixed.len() > 0 {
        prefixed
    } else if idb.len() >= 8 && tail.len() > 0 {
        tail
    } else if idb.len() < 3 {
        Seq::empty()
    } else {
        suffix
    }
}

/// Every MMB asset a placement name refers to; see [`spec_resolve`].
pub fn resolve_mmb_indices(placement_id: &str, zone_prefix: &str, mmb_asset_names: &[String]) -> (r: Vec<usize>)
    ensures
        r@ == spec_resolve(placement_id@, zone_prefix@, name_views(mmb_asset_names@)),
{
    let ghost ns = name_views(mmb_asset_names@);
    let n = mmb_asset_names.len();
    let id = chars_of(placement_id);
    let mut pre = chars_of(zone_prefix);
    push_all(&mut pre, &id);
    let mut trimmed: Vec<Vec<char>> = Vec::new();
    let mut i: usize = 0;
    while i < n
        invariant
            n == mmb_asset_names@.len(),
            ns == name_views(mmb_asset_names@),
            i <= n,
            trimmed@.len() == i,
            forall|k: int| 0 <= k < i ==> (#[trigger] trimmed@[k])@ == trim_end_ws(ns[k]),
        decreases n - i,
    {
        let t = trim_end_chars(chars_of(mmb_asset_names[i].as_str()));
        trimmed.push(t);
        i += 1;
    }
    let mut exact: Vec<bool> = Vec::new();
    let mut prefixed: Vec<bool> = Vec::new();
    let mut i: usize = 0;
    while i < n
        invariant
            n == ns.len(),
            trimmed@.len() == n,
            forall|k: int| 0 <= k < n ==> (#[trigger] trimmed@[k])@ == trim_end_ws(ns[k]),
            i <= n,
            exact@ =~= Seq::new(i as nat, |k: int| trim_end_ws(ns[k]) == id@),
            prefixed@ =~= Seq::new(i as nat, |k: int| trim_end_ws(ns[k]) == pre@),
        decreases n - i,
    {
        exact.push(chars_eq(&trimmed[i], &id));
        prefixed.push(chars_eq(&trimmed[i], &pre));
        i += 1;
    }
    let e = indices_of_true(&exact);
    if e.len() > 0 {
        return e;
    }
    let p = indices_of_true(&prefixed);
    if p.len() > 0 {
        return p;
    }
    let idb = placement_id.as_bytes();
    let idlen = idb.len();
    let mut tail: Vec<bool> = Vec::new();
    let mut suffix: Vec<bool> = Vec::new();
    let needle = vstd::slice::slice_subrange(idb, 0, if idlen >= 8 { 8 } else { idlen });
    let mut i: usize = 0;
    while i < n
        invariant
            n == ns.len(),
            idb@ == encode_utf8(placement_id@),
            needle@ == idb@.take(if idb@.len() >= 8 { 8 } else { idb@.len() as int }),
            trimmed@.len() == n,
            forall|k: int| 0 <= k < n ==> (#[trigger] trimmed@[k])@ == trim_end_ws(ns[k]),
            i <= n,
            tail@ =~= Seq::new(i as nat, |k: int| ends_with(encode_utf8(trim_end_ws(ns[k])), needle@)),
            suffix@ =~= Seq::new(i as nat, |k: int| ends_with(encode_utf8(trim_end_ws(ns[k])), idb@)),
        decreases n - i,
    {
        let tb = utf8_bytes(trimmed[i].clone());
        tail.push(bytes_end_with(tb.as_slice(), needle));
        suffix.push(bytes_end_with(tb.as_slice(), idb));
        i += 1;
    }
    if idlen >= 8 {
        let v = indices_of_true(&tail);
        if v.len() > 0 {
            return v;
        }
    }
    if idlen < 3 {
        return Vec::new();
    }
    indices_of_true(&suffix)
}

/// The first MMB asset a placement name refers to, if any.
pub fn resolve_mmb_index(placement_id: &str, zone_prefix: &str, mmb_asset_names: &[String]) -> (r: Option<usize>)
    ensures
        r == (if spec_resolve(placement_id@, zone_prefix@, name_views(mmb_asset_names@)).len() > 0 {
            Some(spec_resolve(placement_id@, zone_prefix@, name_views(mmb_asset_names@))[0])
        } else {
            None::<usize>
        }),
{
    let v = resolve_mmb_indices(placement_id, zone_prefix, mmb_asset_names);
    if v.len() > 0 {
        Some(v[0])
    } else {
        None
    }
}

/// The length of the longest common prefix of `a` and `b` from index `j` on,
/// counted from the start.
pub open spec fn common_from(a: Seq<u8>, b: Seq<u8>, j: int) -> int
    decreases a.len() - j,
{
    if j < 0 || j >= a.len() || j >= b.len() || a[j] != b[j] {
        j
    } else {
        common_from(a, b, j + 1)
    }
}

/// The length of the longest common prefix of `a` and `b`.
pub open spec fn common_prefix_len(a: Seq<u8>, b: Seq<u8>) -> int {
    common_from(a, b, 0)
}

proof fn lemma_common_from_ge(a: Seq<u8>, b: Seq<u8>, j: int)
    requires
        0 <= j,
    ensures
        common_from(a, b, j) >= j,
    decreases a.len() - j,
{
    if !(j >= a.len() || j >= b.len() || a[j] != b[j]) {
        lemma_common_from_ge(a, b, j + 1);
    }
}

/// The zone prefix the first name shares with the others: at most eight bytes,
/// cut to the common byte prefix of the first name with each later one.
pub open spec fn spec_prefix_len(first: Seq<u8>, rest: Seq<Seq<u8>>) -> int
    decreases rest.len(),
{
    if rest.len() == 0 {
        if first.len() < 8 {
            first.len() as int
        } else {
            8
        }
    } else {
        let p = spec_prefix_len(first, rest.drop_last());
        let c = common_prefix_len(first, rest.last());
        if c < p {
            c
        } else {
            p
        }
    }
}

/// The names' encodings.
pub open spec fn name_bytes(names: Seq<String>) -> Seq<Seq<u8>> {
    names.map_values(|n: String| encode_utf8(n@))
}

/// The byte length of the zone prefix [`infer_zone_prefix`] returns.
pub open spec fn spec_zone_prefix_len(names: Seq<String>) -> int {
    let bs = name_bytes(names);
    spec_prefix_len(bs[0], bs.drop_first())
}

fn common_prefix(a: &[u8], b: &[u8], cap: usize) -> (r: usize)
    ensures
        r == if common_prefix_len(a@, b@) < cap {
            common_prefix_len(a@, b@)
        } else {
            cap as int
        },
{
    let mut j: usize = 0;
    proof {
        lemma_common_from_ge(a@, b@, 0);
    }
    while j < cap && j < a.len() && j < b.len() && a[j] == b[j]
        invariant
            j <= cap,
            common_from(a@, b@, j as int) == common_prefix_len(a@, b@),
        decreases cap - j,
    {
        j += 1;
    }
    proof {
        lemma_common_from_ge(a@, b@, j as int);
    }
    j
}

/// The leading bytes every asset name shares with the first, at most eight of
/// them; empty for no names. The prefix must end on a character boundary of the
/// first name (slicing there would otherwise fail).
pub fn infer_zone_prefix(mmb_asset_names: &[String]) -> (r: String)
    requires
        mmb_asset_names@.len() > 0 ==> is_char_boundary(
            encode_utf8(mmb_asset_names@[0]@),
            spec_zone_prefix_len(mmb_asset_names@),
        ),
    ensures
        mmb_asset_names@.len() == 0 ==> r@ == Seq::<char>::empty(),
        mmb_asset_names@.len() > 0 ==> encode_utf8(r@) == encode_utf8(mmb_asset_names@[0]@).take(
            spec_zone_prefix_len(mmb_asset_names@),
        ),
{
    let n = mmb_asset_names.len();
    if n == 0 {
        return String::new();
    }
    let ghost bs = name_bytes(mmb_asset_names@);
    let first = mmb_asset_names[0].as_str();
    let fb = first.as_bytes();
    let mut prefix_len: usize = if fb.len() < 8 {
        fb.len()
    } else {
        8
    };
    let mut i: usize = 1;
    while i < n
        invariant
            n == mmb_asset_names@.len(),
            bs == name_bytes(mmb_asset_names@),
            fb@ == bs[0],
            1 <= i <= n,
            prefix_len == spec_prefix_len(bs[0], bs.drop_first().take(i - 1)),
        decreases n - i,
    {
        let nb = mmb_asset_names[i].as_str().as_bytes();
        let cap = if nb.len() < prefix_len {
            nb.len()
        } else {
            prefix_len
        };
        let common = common_prefix(fb, nb, cap);
        proof {
            let rest = bs.drop_first().take(i as int);
            assert(rest.drop_last() =~= bs.drop_first().take(i - 1));
            assert(rest.last() == bs[i as int]);
            assert(common_prefix_len(bs[0], bs[i as int]) <= nb@.len()) by {
                lemma_common_from_ge(bs[0], bs[i as int], 0);
                lemma_common_le(bs[0], bs[i as int], 0);
            }
        }
        if common < prefix_len {
            prefix_len = common;
        }
        i += 1;
    }
    proof {
        assert(bs.drop_first().take(n - 1) =~= bs.drop_first());
    }
    let (head, _) = first.split_at(prefix_len);
    head.to_owned()
}

proof fn lemma_common_le(a: Seq<u8>, b: Seq<u8>, j: int)
    requires
        0 <= j <= b.len(),
    ensures
        common_from(a, b, j) <= b.len(),
    decreases a.len() - j,
{
    if !(j >= a.len() || j >= b.len() || a[j] != b[j]) {
        lemma_common_le(a, b, j + 1);
    }
}

} // verus!
