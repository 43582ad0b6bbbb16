//! Sprite-sheet mesh chunks: a 24-byte header (flags, mesh count, lens-flare
//! flag, UV normalisation flag, 16-byte texture name), then per mesh a 4-byte
//! record with its quad count, the lens-flare offset block when the flag is set,
//! and six 24-byte vertices per quad. Positions and UVs are kept as `f32` bit
//! patterns; the bounds and scaling a renderer derives from them are its own.

use vstd::prelude::*;
use crate::bytes::{le16, le32, read_u16_le, read_u32_le};

verus! {

pub const SHEET_HEADER_LEN: usize = 24;
pub const SHEET_VERTEX_LEN: usize = 24;
/// The lens-flare block: the offset fraction, then three discarded floats.
pub const FLARE_BLOCK_LEN: usize = 16;
/// Six vertices per quad.
pub const QUAD_BYTES: usize = 144;
/// Moon sprite sheets carry one frame per phase.
pub const MOON_PHASE_FRAMES: usize = 12;

/// One vertex: position, colour as red, green, blue, alpha, and UV.
#[derive(Debug, Clone, Copy, PartialEq, Eq)]
pub struct SheetVertex {
    pub pos_bits: [u32; 3],
    pub color: [u8; 4],
    pub uv_bits: [u32; 2],
}

/// One mesh of the sheet: its lens-flare offset fraction when the sheet is a
/// flare chain, and its vertices, six per quad.
#[derive(Debug, Clone, PartialEq, Eq)]
pub struct SheetMesh {
    pub flare_offset_bits: Option<u32>,
    pub vertices: Vec<SheetVertex>,
}

/// A parsed sprite sheet.
#[derive(Debug, Clone, PartialEq, Eq)]
pub struct SpriteSheetLayout {
    /// UVs are in texels (of a 256-texel texture) rather than normalised.
    pub texel_uvs: bool,
    pub lens_flare: bool,
    pub mesh_count: u16,
    /// The two 8-byte tokens naming the texture: category, then id.
    pub texture_name: [u8; 16],
    pub meshes: Vec<SheetMesh>,
}

pub open spec fn flare_len(flare: bool) -> int {
    if flare {
        FLARE_BLOCK_LEN as int
    } else {
        0
    }
}

/// Where the mesh record at `p` ends.
pub open spec fn mesh_end(b: Seq<u8>, p: int, flare: bool) -> int {
    p + 4 + flare_len(flare) + QUAD_BYTES * b[p + 2]
}

/// The starts of `k` consecutive meshes from `p`, or nothing when one of them
/// runs past the body.
pub open spec fn mesh_starts(b: Seq<u8>, p: int, k: nat, flare: bool) -> Option<Seq<int>>
    decreases k,
{
    if k == 0 {
        Some(Seq::empty())
    } else if p + 4 > b.len() || mesh_end(b, p, flare) > b.len() {
        None
    } else {
        match mesh_starts(b, mesh_end(b, p, flare), (k - 1) as nat, flare) {
            Some(rest) => Some(seq![p] + rest),
            None => None,
        }
    }
}

/// The vertex stored at `q`; its colour bytes are stored blue, green, red, alpha.
pub open spec fn vertex_matches(v: SheetVertex, b: Seq<u8>, q: int) -> bool {
    &&& v.pos_bits@ == seq![le32(b, q) as u32, le32(b, q + 4) as u32, le32(b, q + 8) as u32]
    &&& v.color@ == seq![b[q + 14], b[q + 13], b[q + 12], b[q + 15]]
    &&& v.uv_bits@ == seq![le32(b, q + 16) as u32, le32(b, q + 20) as u32]
}

/// The mesh record at `p`.
pub open spec fn mesh_matches(m: SheetMesh, b: Seq<u8>, p: int, flare: bool) -> bool {
    let v0 = p + 4 + flare_len(flare);
    &&& m.flare_offset_bits == if flare {
        Some(le32(b, p + 4) as u32)
    } else {
        None::<u32>
    }
    &&& m.vertices@.len() == 6 * b[p + 2]
    &&& forall|i: int| 0 <= i < m.vertices@.len() ==> vertex_matches(#[trigger] m.vertices@[i], b, v0 + 24 * i)
}

/// The sheet `b` holds: `None` for a body shorter than the header or one whose
/// meshes run past it.
pub open spec fn sheet_ok(b: Seq<u8>) -> bool {
    b.len() >= SHEET_HEADER_LEN && mesh_starts(b, SHEET_HEADER_LEN as int, le16(b, 2) as nat, b[4] == 1) is Some
}

pub open spec fn sheet_matches(s: SpriteSheetLayout, b: Seq<u8>) -> bool {
    let flare = b[4] == 1;
    let starts = mesh_starts(b, SHEET_HEADER_LEN as int, le16(b, 2) as nat, flare)->0;
    &&& s.texel_uvs == (le16(b, 0) == 1 && b[7] == 0)
    &&& s.lens_flare == flare
    &&& s.mesh_count == le16(b, 2)
    &&& s.texture_name@ == b.subrange(8, 24)
    &&& s.meshes@.len() == starts.len()
    &&& forall|k: int| 0 <= k < starts.len() ==> mesh_matches(#[trigger] s.meshes@[k], b, starts[k], flare)
}

fn read_vertex(b: &[u8], q: usize) -> (r: SheetVertex)
    requires
        q + 24 <= b@.len(),
    ensures
        vertex_matches(r, b@, q as int),
{
    let _ = b.len();
    let v = SheetVertex {
        pos_bits: [read_u32_le(b, q).unwrap(), read_u32_le(b, q + 4).unwrap(), read_u32_le(b, q + 8).unwrap()],
        color: [b[q + 14], b[q + 13], b[q + 12], b[q + 15]],
        uv_bits: [read_u32_le(b, q + 16).unwrap(), read_u32_le(b, q + 20).unwrap()],
    };
    assert(v.pos_bits@ =~= seq![le32(b@, q as int) as u32, le32(b@, q + 4) as u32, le32(b@, q + 8) as u32]);
    assert(v.color@ =~= seq![b@[q + 14], b@[q + 13], b@[q + 12], b@[q + 15]]);
    assert(v.uv_bits@ =~= seq![le32(b@, q + 16) as u32, le32(b@, q + 20) as u32]);
    v
}

fn read_mesh(b: &[u8], p: usize, flare: bool) -> (r: SheetMesh)
    requires
        p + 4 <= b@.len(),
        mesh_end(b@, p as int, flare) <= b@.len(),
    ensures
        mesh_matches(r, b@, p as int, flare),
{
    let len = b.len();
    let fl: usize = if flare {
        FLARE_BLOCK_LEN
    } else {
        0
    };
    let flare_offset_bits = if flare {
        Some(read_u32_le(b, p + 4).unwrap())
    } else {
        None
    };
    let n = 6 * (b[p + 2] as usize);
    let v0 = p + 4 + fl;
    let mut vertices: Vec<SheetVertex> = Vec::new();
    let mut i: usize = 0;
    while i < n
        invariant
            len == b@.len(),
            i <= n,
            n == 6 * b@[p + 2],
            v0 == p + 4 + flare_len(flare),
            v0 + 24 * n <= len,
            vertices@.len() == i,
            forall|k: int| 0 <= k < i ==> vertex_matches(#[trigger] vertices@[k], b@, v0 + 24 * k),
        decreases n - i,
    {
        vertices.push(read_vertex(b, v0 + 24 * i));
        i += 1;
    }
    SheetMesh { flare_offset_bits, vertices }
}

/// Reads the sheet, every mesh with its vertices; `None` when the body is
/// shorter than the header or a mesh runs past it.
pub fn parse_sheet(b: &[u8]) -> (r: Option<SpriteSheetLayout>)
    ensures
        r is Some <==> sheet_ok(b@),
        r matches Some(s) ==> sheet_matches(s, b@),
{
    let len = b.len();
    if len < SHEET_HEADER_LEN {
        return None;
    }
    let unk = read_u16_le(b, 0).unwrap();
    let count = read_u16_le(b, 2).unwrap();
    let flare = b[4] == 1;
    let mut name = [0u8; 16];
    let mut k: usize = 0;
    while k < 16
        invariant
            k <= 16,
            len == b@.len(),
            len >= 24,
            forall|j: int| 0 <= j < k ==> name@[j] == b@[8 + j],
        decreases 16 - k,
    {
        name[k] = b[8 + k];
        k += 1;
    }
    assert(name@ =~= b@.subrange(8, 24));
    let ghost all = mesh_starts(b@, SHEET_HEADER_LEN as int, count as nat, flare);
    let mut meshes: Vec<SheetMesh> = Vec::new();
    let mut p: usize = SHEET_HEADER_LEN;
    let mut m: usize = 0;
    let ghost mut done: Seq<int> = Seq::empty();
    assert(done + mesh_starts(b@, p as int, count as nat, flare)->0 =~= mesh_starts(b@, p as int, count as nat, flare)->0);
    while m < count as usize
        invariant
            len == b@.len(),
            m <= count,
            p <= len,
            all == mesh_starts(b@, SHEET_HEADER_LEN as int, count as nat, flare),
            count as int == le16(b@, 2),
            flare == (b@[4] == 1),
            len >= SHEET_HEADER_LEN,
            all is Some <==> mesh_starts(b@, p as int, (count - m) as nat, flare) is Some,
            all is Some ==> all->0 == done + mesh_starts(b@, p as int, (count - m) as nat, flare)->0,
            meshes@.len() == done.len(),
            forall|j: int| 0 <= j < done.len() ==> mesh_matches(#[trigger] meshes@[j], b@, done[j], flare),
        decreases count - m,
    {
        if len - p < 4 {
            assert(mesh_starts(b@, p as int, (count - m) as nat, flare) is None);
            return None;
        }
        let fl: usize = if flare {
            FLARE_BLOCK_LEN
        } else {
            0
        };
        let quads = b[p + 2] as usize;
        if len - p - 4 < fl || (len - p - 4 - fl) / QUAD_BYTES < quads {
            proof {
                if len - p - 4 >= fl {
                    assert(144 * quads > len - p - 4 - fl) by (nonlinear_arith)
                        requires
                            (len - p - 4 - fl) / 144 < quads,
                    ;
                }
                assert(mesh_end(b@, p as int, flare) > len);
                assert(mesh_starts(b@, p as int, (count - m) as nat, flare) is None);
            }
            return None;
        }
        assert(mesh_end(b@, p as int, flare) <= len) by (nonlinear_arith)
            requires
                (len - p - 4 - fl) / 144 >= quads,
                len - p - 4 >= fl,
                fl == flare_len(flare),
                quads == b@[p + 2],
                mesh_end(b@, p as int, flare) == p + 4 + fl + 144 * quads,
        ;
        let mesh = read_mesh(b, p, flare);
        meshes.push(mesh);
        proof {
            let rest = mesh_starts(b@, mesh_end(b@, p as int, flare), (count - m - 1) as nat, flare);
            if let Some(r) = rest {
                assert(done + (seq![p as int] + r) =~= done.push(p as int) + r);
            }
            done = done.push(p as int);
        }
        p = p + 4 + fl + QUAD_BYTES * quads;
        m += 1;
    }
    proof {
        assert(done + Seq::<int>::empty() =~= done);
    }
    Some(
        SpriteSheetLayout {
            texel_uvs: unk == 1 && b[7] == 0,
            lens_flare: flare,
            mesh_count: count,
            texture_name: name,
            meshes,
        },
    )
}

} // verus!
