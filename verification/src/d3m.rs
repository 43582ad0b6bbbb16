//! Effect meshes (D3m): a small header, a padded per-entry triangle-count table,
//! the material table, then 36-byte vertices. Vertex floats are kept as their
//! bit patterns and the colour as its packed D3DCOLOR word.

use vstd::prelude::*;
use crate::bytes::{le16, le32, read_u16_le, read_u32_le};
use crate::error::DatError;
use crate::text::{string_from_chars, trim_end_chars, trim_end_ws};

verus! {

/// The expected layout marker, reported when a body carries another.
pub const D3M_MAGIC: u32 = 6;
pub const D3M_VERTEX_STRIDE: usize = 36;
pub const D3M_MATERIAL_LEN: usize = 16;
pub const D3M_MAT_COUNT_OFFSET: usize = 0x04;
pub const D3M_EXTRA_COUNT_OFFSET: usize = 0x05;
pub const D3M_TRI_COUNT_OFFSET: usize = 0x06;
pub const D3M_COUNT_TABLE_OFFSET: usize = 0x08;
/// Where the vertices of the usual one-material layout start.
pub const D3M_VERTEX_OFFSET: usize = 0x1E;

/// The per-entry count table is padded by rounding the entry count down to a
/// multiple of four and adding three (a multiple of four stays as it is).
pub open spec fn spec_material_table_offset(mat_count: int, extra_count: int) -> int {
    let n = mat_count + extra_count;
    let shorts = if n % 4 == 0 {
        n
    } else {
        n - n % 4 + 3
    };
    D3M_COUNT_TABLE_OFFSET + 2 * shorts
}

pub open spec fn spec_vertex_offset(mat_count: int, extra_count: int) -> int {
    spec_material_table_offset(mat_count, extra_count) + D3M_MATERIAL_LEN * mat_count
}

/// Where the material table starts.
pub fn material_table_offset(mat_count: usize, extra_count: usize) -> (r: usize)
    requires
        mat_count + extra_count <= usize::MAX,
        spec_material_table_offset(mat_count as int, extra_count as int) <= usize::MAX,
    ensures
        r == spec_material_table_offset(mat_count as int, extra_count as int),
{
    let n = mat_count + extra_count;
    let shorts = if n % 4 == 0 {
        n
    } else {
        n - n % 4 + 3
    };
    D3M_COUNT_TABLE_OFFSET + 2 * shorts
}

/// Where the vertices start: after the material table's 16-byte entries.
pub fn vertex_offset(mat_count: usize, extra_count: usize) -> (r: usize)
    requires
        mat_count + extra_count <= usize::MAX,
        spec_vertex_offset(mat_count as int, extra_count as int) <= usize::MAX,
    ensures
        r == spec_vertex_offset(mat_count as int, extra_count as int),
{
    material_table_offset(mat_count, extra_count) + D3M_MATERIAL_LEN * mat_count
}

/// One vertex as stored: position, normal and UV as `f32` bit patterns, and the
/// packed colour word (alpha, red, green, blue from high byte to low).
#[derive(Debug, Clone, Copy, PartialEq, Eq)]
pub struct D3mVertex {
    pub pos: [u32; 3],
    pub normal: [u32; 3],
    pub color: u32,
    pub uv: [u32; 2],
}

#[derive(Debug, Clone)]
pub struct D3m {
    pub name: [u8; 4],
    pub num_triangles: u16,
    pub texture_name: [u8; 16],
    pub vertices: Vec<D3mVertex>,
}

/// `v` is the vertex stored at `o`.
pub open spec fn vertex_matches(v: D3mVertex, b: Seq<u8>, o: int) -> bool {
    &&& v.pos@ == seq![le32(b, o) as u32, le32(b, o + 4) as u32, le32(b, o + 8) as u32]
    &&& v.normal@ == seq![le32(b, o + 12) as u32, le32(b, o + 16) as u32, le32(b, o + 20) as u32]
    &&& v.color == le32(b, o + 24)
    &&& v.uv@ == seq![le32(b, o + 28) as u32, le32(b, o + 32) as u32]
}

/// How reading `b` fails, if it does: a body shorter than the count table, a
/// layout marker (low nibble of the first word) other than 5 or 6, a body that
/// ends inside the material table, or one that ends inside the vertices.
pub open spec fn spec_d3m_error(b: Seq<u8>) -> Option<DatError> {
    if b.len() < D3M_COUNT_TABLE_OFFSET {
        Some(DatError::TruncatedChunk { offset: 0, needed: D3M_COUNT_TABLE_OFFSET, available: b.len() as usize })
    } else if !(le16(b, 0) % 16 == 5 || le16(b, 0) % 16 == 6) {
        Some(DatError::TruncatedChunk { offset: 0, needed: D3M_MAGIC as usize, available: (le16(b, 0) % 16) as usize })
    } else {
        let m = b[4] as int;
        let e = b[5] as int;
        let tris = le16(b, 6);
        let mat_at = spec_material_table_offset(m, e);
        let vert_at = spec_vertex_offset(m, e);
        let needed = vert_at + 3 * tris * D3M_VERTEX_STRIDE;
        if b.len() < vert_at {
            Some(DatError::TruncatedChunk { offset: mat_at as usize, needed: vert_at as usize, available: b.len() as usize })
        } else if b.len() < needed {
            Some(DatError::TruncatedChunk { offset: vert_at as usize, needed: needed as usize, available: b.len() as usize })
        } else {
            None
        }
    }
}

/// `d` is the mesh `b` holds under `name`: the first material's 16-byte name
/// when there is a material (zeros otherwise) and three vertices per triangle.
pub open spec fn d3m_matches(d: D3m, name: [u8; 4], b: Seq<u8>) -> bool {
    let m = b[4] as int;
    let e = b[5] as int;
    let mat_at = spec_material_table_offset(m, e);
    let vert_at = spec_vertex_offset(m, e);
    &&& d.name == name
    &&& d.num_triangles == le16(b, 6)
    &&& d.texture_name@ == if m > 0 {
        b.subrange(mat_at, mat_at + 16)
    } else {
        Seq::new(16, |_i: int| 0u8)
    }
    &&& d.vertices@.len() == 3 * le16(b, 6)
    &&& forall|i: int|
        0 <= i < d.vertices@.len() ==> vertex_matches(#[trigger] d.vertices@[i], b, vert_at + 36 * i)
}

fn read_vertex(body: &[u8], o: usize) -> (r: D3mVertex)
    requires
        o + 36 <= body@.len(),
    ensures
        vertex_matches(r, body@, o as int),
{
    let _ = body.len();
    let pos = [read_u32_le(body, o).unwrap(), read_u32_le(body, o + 4).unwrap(), read_u32_le(body, o + 8).unwrap()];
    let normal = [read_u32_le(body, o + 12).unwrap(), read_u32_le(body, o + 16).unwrap(), read_u32_le(body, o + 20).unwrap()];
    let uv = [read_u32_le(body, o + 28).unwrap(), read_u32_le(body, o + 32).unwrap()];
    let v = D3mVertex { pos, normal, color: read_u32_le(body, o + 24).unwrap(), uv };
    assert(v.pos@ =~= seq![le32(body@, o as int) as u32, le32(body@, o + 4) as u32, le32(body@, o + 8) as u32]);
    assert(v.normal@ =~= seq![le32(body@, o + 12) as u32, le32(body@, o + 16) as u32, le32(body@, o + 20) as u32]);
    assert(v.uv@ =~= seq![le32(body@, o + 28) as u32, le32(body@, o + 32) as u32]);
    v
}

impl D3m {
    pub fn parse(name: [u8; 4], body: &[u8]) -> (r: Result<D3m, DatError>)
        ensures
            spec_d3m_error(body@) is Some <==> r is Err,
            r matches Err(e) ==> e == spec_d3m_error(body@)->0,
            r matches Ok(d) ==> d3m_matches(d, name, body@),
    {
        let len = body.len();
        if len < D3M_COUNT_TABLE_OFFSET {
            return Err(DatError::TruncatedChunk { offset: 0, needed: D3M_COUNT_TABLE_OFFSET, available: len });
        }
        let marker = read_u16_le(body, 0).unwrap() % 16;
        if !(marker == 5 || marker == 6) {
            return Err(DatError::TruncatedChunk { offset: 0, needed: D3M_MAGIC as usize, available: marker as usize });
        }
        let mat_count = body[D3M_MAT_COUNT_OFFSET] as usize;
        let extra_count = body[D3M_EXTRA_COUNT_OFFSET] as usize;
        let num_triangles = read_u16_le(body, D3M_TRI_COUNT_OFFSET).unwrap();
        let materials_at = material_table_offset(mat_count, extra_count);
        let vertices_at = vertex_offset(mat_count, extra_count);
        if len < vertices_at {
            return Err(DatError::TruncatedChunk { offset: materials_at, needed: vertices_at, available: len });
        }
        let mut texture_name = [0u8; 16];
        if mat_count > 0 {
            let mut k: usize = 0;
            while k < 16
                invariant
                    k <= 16,
                    materials_at + 16 <= vertices_at <= len == body@.len(),
                    forall|q: int| 0 <= q < k ==> texture_name@[q] == body@[materials_at + q],
                decreases 16 - k,
            {
                texture_name[k] = body[materials_at + k];
                k += 1;
            }
            assert(texture_name@ =~= body@.subrange(materials_at as int, materials_at + 16));
        } else {
            assert(texture_name@ =~= Seq::new(16, |_i: int| 0u8));
        }
        let vertex_count = num_triangles as usize * 3;
        let needed = vertices_at + vertex_count * D3M_VERTEX_STRIDE;
        if len < needed {
            return Err(DatError::TruncatedChunk { offset: vertices_at, needed, available: len });
        }
        let mut vertices: Vec<D3mVertex> = Vec::new();
        let mut i: usize = 0;
        while i < vertex_count
            invariant
                len == body@.len(),
                vertices_at + vertex_count * 36 <= len,
                i <= vertex_count,
                vertices@.len() == i,
                forall|k: int|
                    0 <= k < i ==> vertex_matches(#[trigger] vertices@[k], body@, vertices_at + 36 * k),
            decreases vertex_count - i,
        {
            assert(vertices_at + 36 * i + 36 <= vertices_at + vertex_count * 36) by (nonlinear_arith)
                requires
                    i < vertex_count,
            ;
            vertices.push(read_vertex(body, vertices_at + i * D3M_VERTEX_STRIDE));
            i += 1;
        }
        Ok(D3m { name, num_triangles, texture_name, vertices })
    }

    /// The texture name: its bytes up to the first zero, one character each,
    /// without trailing white space.
    pub fn texture_name_str(&self) -> (r: String)
        ensures
            r@ == trim_end_ws(name_chars(self.texture_name@)),
    {
        let mut chars: Vec<char> = Vec::new();
        let mut i: usize = 0;
        while i < 16 && self.texture_name[i] != 0
            invariant
                i <= 16,
                chars@ == name_chars(self.texture_name@.take(i as int)),
                forall|k: int| 0 <= k < i ==> self.texture_name@[k] != 0,
            decreases 16 - i,
        {
            chars.push(self.texture_name[i] as char);
            i += 1;
            proof {
                lemma_name_chars_push(self.texture_name@, i as int);
            }
        }
        proof {
            lemma_name_chars_stop(self.texture_name@, i as int);
        }
        string_from_chars(trim_end_chars(chars))
    }
}

/// The bytes of `b` before its first zero, one character each.
pub open spec fn name_chars(b: Seq<u8>) -> Seq<char>
    decreases b.len(),
{
    if b.len() == 0 {
        Seq::empty()
    } else if b[0] == 0 {
        Seq::empty()
    } else {
        seq![b[0] as char] + name_chars(b.drop_first())
    }
}

proof fn lemma_name_chars_push(b: Seq<u8>, i: int)
    requires
        1 <= i <= b.len(),
        forall|k: int| 0 <= k < i ==> b[k] != 0,
    ensures
        name_chars(b.take(i)) == name_chars(b.take(i - 1)).push(b[i - 1] as char),
    decreases i,
{
    if i == 1 {
        assert(b.take(1).drop_first() =~= Seq::<u8>::empty());
        assert(b.take(0) =~= Seq::<u8>::empty());
    } else {
        let t = b.drop_first();
        lemma_name_chars_push(t, i - 1);
        assert(b.take(i).drop_first() =~= t.take(i - 1));
        assert(b.take(i - 1).drop_first() =~= t.take(i - 2));
    }
}

proof fn lemma_name_chars_stop(b: Seq<u8>, i: int)
    requires
        0 <= i <= b.len(),
        forall|k: int| 0 <= k < i ==> b[k] != 0,
        i == b.len() || b[i] == 0,
    ensures
        name_chars(b) == name_chars(b.take(i)),
    decreases i,
{
    if i == 0 {
        assert(b.take(0) =~= Seq::<u8>::empty());
    } else {
        lemma_name_chars_stop(b.drop_first(), i - 1);
        assert(b.take(i).drop_first() =~= b.drop_first().take(i - 1));
    }
}

} // verus!
