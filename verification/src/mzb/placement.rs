//! Where a zone block places things: the collision-object records its placement
//! grid lists, and the fixed-size MMB placement records after the header.
//! Matrix and vector components are carried as their `f32` bit patterns.

use vstd::prelude::*;
use crate::bytes::{le16, le32, read_u16_le, read_u32_le};
use crate::error::DatError;
use crate::mzb::{
    collision_header, MzbError, MzbHeader, COLL_HEADER_READ_LEN, LEGACY_COLLISION_OBJECT_MAX_VERSION,
    LIGHT_BINDING_MIN_VERSION, MESH_RECORD_LEN, MZB_HEADER_LEN, PLACEMENT_NAME_LEN, PLACEMENT_RECORD_LEN,
};
use crate::text::utf8_str;
use vstd::utf8::{decode_utf8, valid_utf8};

verus! {

/// The collision-data header's dword holding the placement grid's offset.
pub const COLL_GRID_DATA_OFFSET: usize = 0x10;
/// A collision object starts with its 4x4 transform.
pub const COLL_OBJECT_MATRIX_LEN: usize = 64;
/// The flags dword after the transform, its inverse and the 3x3 normal matrix.
pub const COLL_OBJECT_FLAGS: usize = 164;
/// The mesh record's flags word.
pub const MESH_FLAGS: usize = 0x0E;
/// At most this many dwords are read from one grid cell's list.
pub const CELL_LIST_MAX: usize = 4096;

pub const PL_TRANSLATION: usize = 0x10;
pub const PL_ROTATION: usize = 0x1C;
pub const PL_SCALING: usize = 0x28;
pub const PL_BLOCK_ID: usize = 0x34;
pub const PL_LOD_NEAR: usize = 0x38;
pub const PL_LOD_MID: usize = 0x3C;
pub const PL_LOD_FAR: usize = 0x40;
pub const PL_AREA_RESOURCE_ID: usize = 0x4C;
pub const PL_SUB_AREA_LINK: usize = 0x50;
pub const PL_LIGHT_REFERENCES: usize = 0x54;
pub const LIGHT_REFERENCE_COUNT: usize = 4;

/// One collision object a grid cell lists.
#[derive(Debug, Clone, Copy, PartialEq, Eq)]
pub struct MzbPlacement {
    /// Where the object's collision mesh record starts.
    pub geometry_offset: u32,
    /// The object's 4x4 transform as stored, sixteen `f32` bit patterns.
    pub transform_bits: [u32; 16],
    /// Bit 0 of the mesh record's flags word.
    pub doesnt_block_los: bool,
    pub grid_x: u16,
    pub grid_y: u16,
    /// The water surface as a signed count of 1/1024 units, `None` when zero or
    /// when the record predates the flags tail.
    pub water_height_raw: Option<i32>,
}

/// The non-zero dwords from `off` on, at most `left` of them, stopping at a
/// zero dword or where four bytes no longer fit.
pub open spec fn spec_cell_list(b: Seq<u8>, off: int, left: nat) -> Seq<u32>
    decreases left,
{
    if left == 0 || off + 4 > b.len() || le32(b, off) == 0 {
        Seq::empty()
    } else {
        seq![le32(b, off) as u32] + spec_cell_list(b, off + 4, (left - 1) as nat)
    }
}

/// A (transform, mesh record) pair names a placement when both offsets are
/// non-zero and both records fit in the body.
pub open spec fn object_fits(b: Seq<u8>, mat: int, geo: int) -> bool {
    mat != 0 && geo != 0 && mat + COLL_OBJECT_MATRIX_LEN <= b.len() && geo + MESH_RECORD_LEN
        <= b.len()
}

/// The placements a cell list names from position `i`, as (transform offset,
/// mesh offset) pairs read two dwords at a time.
pub open spec fn spec_pairs(b: Seq<u8>, es: Seq<u32>, i: int) -> Seq<(int, int)>
    decreases es.len() - i,
{
    if i < 0 || i + 1 >= es.len() {
        Seq::empty()
    } else {
        let mat = es[i] as int;
        let geo = es[i + 1] as int;
        (if object_fits(b, mat, geo) {
            seq![(mat, geo)]
        } else {
            Seq::empty()
        }) + spec_pairs(b, es, i + 2)
    }
}

/// The placements of grid cell `c`, whose pointer sits at `grid + 4c`; the
/// list's first dword is not part of any pair.
pub open spec fn spec_cell(b: Seq<u8>, grid: int, c: int) -> Seq<(int, int)> {
    let cp = grid + 4 * c;
    if cp + 4 > b.len() {
        Seq::empty()
    } else {
        let eo = le32(b, cp);
        if eo == 0 || eo >= b.len() {
            Seq::empty()
        } else {
            spec_pairs(b, spec_cell_list(b, eo, CELL_LIST_MAX as nat), 1)
        }
    }
}

/// The placements of the first `c` cells, row by row, each tagged with its
/// cell index.
pub open spec fn spec_cells(b: Seq<u8>, grid: int, c: int) -> Seq<(int, int, int)>
    decreases c,
{
    if c <= 0 {
        Seq::empty()
    } else {
        spec_cells(b, grid, c - 1) + spec_cell(b, grid, c - 1).map_values(
            |p: (int, int)| (p.0, p.1, c - 1),
        )
    }
}

/// The water height of the object at `mat`: bits 4..26 of its flags dword,
/// sign-extended, when the format has the tail and it fits; zero means none.
pub open spec fn spec_water(b: Seq<u8>, version: u8, mat: int) -> Option<i32> {
    let w = mat + COLL_OBJECT_FLAGS;
    if version > LEGACY_COLLISION_OBJECT_MAX_VERSION && w + 4 <= b.len() {
        let bits = (le32(b, w) / 16) % 4194304;
        let s = if bits >= 2097152 {
            bits - 4194304
        } else {
            bits
        };
        if s == 0 {
            None
        } else {
            Some(s as i32)
        }
    } else {
        None
    }
}

/// `p` is the object at transform `mat` and mesh record `geo`, in cell `c` of
/// a grid `gw` cells wide.
pub open spec fn placement_matches(p: MzbPlacement, b: Seq<u8>, version: u8, mat: int, geo: int, c: int, gw: int) -> bool {
    &&& p.geometry_offset == geo
    &&& p.transform_bits@ == Seq::new(16, |k: int| le32(b, mat + 4 * k) as u32)
    &&& p.doesnt_block_los == (le16(b, geo + MESH_FLAGS) % 2 == 1)
    &&& p.grid_x == c % gw
    &&& p.grid_y == c / gw
    &&& p.water_height_raw == spec_water(b, version, mat)
}

/// What reading the placements of `b` gives: none without a collision section,
/// a placement grid, or grid cells; an error when the collision header runs
/// past the body; else every cell's objects in row order.
pub open spec fn spec_placements(b: Seq<u8>, h: MzbHeader) -> Result<Seq<(int, int, int)>, MzbError> {
    let cdo = h.collision_data_offset as int;
    let gw = h.zone_blocks_x as int * (h.block_width as int / 4);
    let gh = h.zone_blocks_z as int * (h.block_length as int / 4);
    if cdo == 0 {
        Ok(Seq::empty())
    } else if cdo + COLL_HEADER_READ_LEN > b.len() {
        Err(MzbError::CollisionDataOutOfRange { offset: cdo as usize, len: b.len() as usize })
    } else {
        let grid = le32(b, cdo + COLL_GRID_DATA_OFFSET);
        if grid == 0 || grid >= b.len() || gw == 0 || gh == 0 {
            Ok(Seq::empty())
        } else {
            Ok(spec_cells(b, grid, gw * gh))
        }
    }
}

fn cell_list(body: &[u8], start: usize) -> (r: Vec<u32>)
    ensures
        r@ == spec_cell_list(body@, start as int, CELL_LIST_MAX as nat),
{
    let len = body.len();
    let mut out: Vec<u32> = Vec::new();
    let mut cur = start;
    let mut n: usize = 0;
    assert(out@ + spec_cell_list(body@, cur as int, (CELL_LIST_MAX - n) as nat) =~= spec_cell_list(
        body@,
        start as int,
        CELL_LIST_MAX as nat,
    ));
    while n < CELL_LIST_MAX
        invariant_except_break
            n <= CELL_LIST_MAX,
            out@ + spec_cell_list(body@, cur as int, (CELL_LIST_MAX - n) as nat) == spec_cell_list(
                body@,
                start as int,
                CELL_LIST_MAX as nat,
            ),
        invariant
            len == body@.len(),
            cur == start + 4 * n,
        ensures
            out@ == spec_cell_list(body@, start as int, CELL_LIST_MAX as nat),
        decreases CELL_LIST_MAX - n,
    {
        if cur > len || len - cur < 4 {
            assert(out@ + Seq::<u32>::empty() =~= out@);
            break;
        }
        let v = read_u32_le(body, cur).unwrap();
        if v == 0 {
            assert(out@ + Seq::<u32>::empty() =~= out@);
            break;
        }
        let ghost before = out@;
        out.push(v);
        proof {
            assert(before + (seq![v] + spec_cell_list(body@, cur + 4, (CELL_LIST_MAX - n - 1) as nat))
                =~= out@ + spec_cell_list(body@, cur + 4, (CELL_LIST_MAX - n - 1) as nat));
        }
        cur = cur + 4;
        n = n + 1;
    }
    proof {
        if n == CELL_LIST_MAX {
            assert(out@ + Seq::<u32>::empty() =~= out@);
        }
    }
    out
}

fn read_placement(body: &[u8], version: u8, mat: usize, geo: usize, c: usize, gw: usize) -> (r: MzbPlacement)
    requires
        object_fits(body@, mat as int, geo as int),
        geo <= u32::MAX,
        gw > 0,
        c / gw < 65536,
        gw < 65536,
    ensures
        placement_matches(r, body@, version, mat as int, geo as int, c as int, gw as int),
{
    let len = body.len();
    let mut m = [0u32; 16];
    let mut k: usize = 0;
    while k < 16
        invariant
            k <= 16,
            len == body@.len(),
            mat + 64 <= len,
            forall|j: int| 0 <= j < k ==> m@[j] == le32(body@, mat + 4 * j) as u32,
        decreases 16 - k,
    {
        m[k] = read_u32_le(body, mat + 4 * k).unwrap();
        k += 1;
    }
    assert(m@ =~= Seq::new(16, |j: int| le32(body@, mat + 4 * j) as u32));
    let flags = read_u16_le(body, geo + MESH_FLAGS).unwrap();
    let water = if version > LEGACY_COLLISION_OBJECT_MAX_VERSION && len - mat >= COLL_OBJECT_FLAGS + 4 {
        let raw = read_u32_le(body, mat + COLL_OBJECT_FLAGS).unwrap();
        let bits = (raw / 16) % 4194304;
        let s: i32 = if bits >= 2097152 {
            bits as i32 - 4194304
        } else {
            bits as i32
        };
        if s == 0 {
            None
        } else {
            Some(s)
        }
    } else {
        None
    };
    MzbPlacement {
        geometry_offset: geo as u32,
        transform_bits: m,
        doesnt_block_los: flags % 2 == 1,
        grid_x: (c % gw) as u16,
        grid_y: (c / gw) as u16,
        water_height_raw: water,
    }
}

/// Reads every collision object the placement grid lists, cell by cell in row
/// order, skipping cells and pairs whose offsets are zero or fall outside the body.
pub fn parse_placements(body: &[u8], header: &MzbHeader) -> (r: Result<Vec<MzbPlacement>, DatError>)
    ensures
        spec_placements(body@, *header) is Err <==> r is Err,
        r matches Err(e) ==> e == DatError::Mzb(spec_placements(body@, *header)->Err_0),
        r matches Ok(v) ==> {
            let recs = spec_placements(body@, *header)->Ok_0;
            let gw = header.zone_blocks_x as int * (header.block_width as int / 4);
            &&& v@.len() == recs.len()
            &&& forall|k: int|
                0 <= k < recs.len() ==> placement_matches(
                    #[trigger] v@[k],
                    body@,
                    header.version,
                    recs[k].0,
                    recs[k].1,
                    recs[k].2,
                    gw,
                )
        },
{
    let len = body.len();
    let mt = match collision_header(body, header) {
        Err(e) => return Err(e),
        Ok(None) => return Ok(Vec::new()),
        Ok(Some(mt)) => mt,
    };
    let grid = read_u32_le(body, mt + COLL_GRID_DATA_OFFSET).unwrap() as usize;
    let gw = header.grid_cells_x();
    let gh = header.grid_cells_z();
    if grid == 0 || grid >= len || gw == 0 || gh == 0 {
        return Ok(Vec::new());
    }
    assert(gw <= 16065) by (nonlinear_arith)
        requires
            gw == header.zone_blocks_x as int * (header.block_width as int / 4),
            header.zone_blocks_x <= 255,
            header.block_width as int / 4 <= 63,
    ;
    assert(gh <= 16065) by (nonlinear_arith)
        requires
            gh == header.zone_blocks_z as int * (header.block_length as int / 4),
            header.zone_blocks_z <= 255,
            header.block_length as int / 4 <= 63,
    ;
    assert(gw * gh <= 16065 * 16065) by (nonlinear_arith)
        requires
            gw <= 16065,
            gh <= 16065,
    ;
    let cells = gw * gh;
    let mut out: Vec<MzbPlacement> = Vec::new();
    let mut c: usize = 0;
    while c < cells
        invariant
            c <= cells,
            cells == gw * gh,
            0 < gw <= 16065,
            0 < gh <= 16065,
            len == body@.len(),
            grid < len,
            gw == header.zone_blocks_x as int * (header.block_width as int / 4),
            out@.len() == spec_cells(body@, grid as int, c as int).len(),
            forall|k: int|
                0 <= k < out@.len() ==> {
                    let rec = #[trigger] spec_cells(body@, grid as int, c as int)[k];
                    placement_matches(out@[k], body@, header.version, rec.0, rec.1, rec.2, gw as int)
                },
        decreases cells - c,
    {
        assert(c / gw < gh) by (nonlinear_arith)
            requires
                c < gw * gh,
                gw > 0,
        ;
        let ghost before = spec_cells(body@, grid as int, c as int);
        let ghost cell = spec_cell(body@, grid as int, c as int);
        let ghost tagged = cell.map_values(|p: (int, int)| (p.0, p.1, c as int));
        assert(spec_cells(body@, grid as int, c + 1) == before + tagged);
        if c < (len - grid) / 4 {
            let eo = read_u32_le(body, grid + 4 * c).unwrap() as usize;
            if eo != 0 && eo < len {
                let es = cell_list(body, eo);
                let ghost pairs = spec_pairs(body@, es@, 1);
                assert(cell == pairs);
                let mut i: usize = 1;
                let ghost mut done: Seq<(int, int)> = Seq::empty();
                let ghost start_len = out@.len();
                while i < es.len() && es.len() - i >= 2
                    invariant
                        1 <= i,
                        i <= es@.len() + 1,
                        len == body@.len(),
                        0 < gw,
                        c / gw < 65536,
                        gw <= 16065,
                        done + spec_pairs(body@, es@, i as int) == pairs,
                        out@.len() == start_len + done.len(),
                        start_len == before.len(),
                        forall|k: int|
                            0 <= k < start_len ==> {
                                let rec = #[trigger] before[k];
                                placement_matches(out@[k], body@, header.version, rec.0, rec.1, rec.2, gw as int)
                            },
                        forall|k: int|
                            0 <= k < done.len() ==> placement_matches(
                                #[trigger] out@[start_len + k],
                                body@,
                                header.version,
                                done[k].0,
                                done[k].1,
                                c as int,
                                gw as int,
                            ),
                    decreases es.len() + 1 - i,
                {
                    let mat = es[i] as usize;
                    let geo = es[i + 1] as usize;
                    let ghost next = spec_pairs(body@, es@, i + 2);
                    if mat != 0 && geo != 0 && mat <= len && len - mat >= COLL_OBJECT_MATRIX_LEN && geo
                        <= len && len - geo >= MESH_RECORD_LEN {
                        assert(geo == es@[i + 1]);
                        let p = read_placement(body, header.version, mat, geo, c, gw);
                        out.push(p);
                        proof {
                            assert(spec_pairs(body@, es@, i as int) == seq![(mat as int, geo as int)] + next);
                            assert(done + (seq![(mat as int, geo as int)] + next) =~= done.push(
                                (mat as int, geo as int),
                            ) + next);
                            done = done.push((mat as int, geo as int));
                        }
                    } else {
                        proof {
                            assert(!object_fits(body@, mat as int, geo as int));
                            assert(spec_pairs(body@, es@, i as int) =~= next);
                        }
                    }
                    i = i + 2;
                }
                proof {
                    assert(spec_pairs(body@, es@, i as int) =~= Seq::<(int, int)>::empty());
                    assert(done =~= pairs);
                    let all = spec_cells(body@, grid as int, c + 1);
                    assert forall|k: int| 0 <= k < out@.len() implies {
                        let rec = #[trigger] spec_cells(body@, grid as int, c + 1)[k];
                        placement_matches(out@[k], body@, header.version, rec.0, rec.1, rec.2, gw as int)
                    } by {
                        if k < start_len {
                            assert(all[k] == before[k]);
                        } else {
                            let j = k - start_len;
                            assert(all[k] == tagged[j]);
                            assert(tagged[j] == (done[j].0, done[j].1, c as int));
                            assert(out@[start_len + j] == out@[k]);
                        }
                    }
                }
            } else {
                assert(cell =~= Seq::<(int, int)>::empty());
                assert(tagged =~= Seq::<(int, int, int)>::empty());
                assert(spec_cells(body@, grid as int, c + 1) =~= before);
            }
        } else {
            assert(cell =~= Seq::<(int, int)>::empty());
            assert(tagged =~= Seq::<(int, int, int)>::empty());
            assert(spec_cells(body@, grid as int, c + 1) =~= before);
        }
        c = c + 1;
    }
    Ok(out)
}

/// One placed MMB: its name, its transform components as `f32` bit patterns,
/// and the ids and light references that decide how it is drawn.
#[derive(Debug, Clone, Copy, PartialEq, Eq)]
pub struct MmbPlacement {
    pub id: [u8; 16],
    pub trans: [u32; 3],
    pub rot: [u32; 3],
    pub scale: [u32; 3],
    /// A non-zero block id keeps the chunk out of the normal draw pass.
    pub block_id: u32,
    /// Squared against the camera distance to pick the mesh variant; `lod_far`
    /// is also the draw distance.
    pub lod_near: u32,
    pub lod_mid: u32,
    pub lod_far: u32,
    /// The area this chunk belongs to, for per-area fog and weather lights.
    pub area_resource_id: u32,
    /// The sub-area whose geometry replaces this placeholder, 0 when none.
    pub sub_area_link: u32,
    /// One-based indices into the light-binding table, 0 when unused; all zero
    /// below the light-binding format version.
    pub light_references: [u32; 4],
}

/// `p` is the placement record at `o`, read for format `version`.
pub open spec fn mmb_matches(p: MmbPlacement, b: Seq<u8>, version: u8, o: int) -> bool {
    let d = |k: int| le32(b, o + k) as u32;
    &&& p.id@ == b.subrange(o, o + 16)
    &&& p.trans@ == seq![d(0x10), d(0x14), d(0x18)]
    &&& p.rot@ == seq![d(0x1C), d(0x20), d(0x24)]
    &&& p.scale@ == seq![d(0x28), d(0x2C), d(0x30)]
    &&& p.block_id == d(0x34)
    &&& p.lod_near == d(0x38)
    &&& p.lod_mid == d(0x3C)
    &&& p.lod_far == d(0x40)
    &&& p.area_resource_id == d(0x4C)
    &&& p.sub_area_link == d(0x50)
    &&& p.light_references@ == if version >= LIGHT_BINDING_MIN_VERSION {
        seq![d(0x54), d(0x58), d(0x5C), d(0x60)]
    } else {
        seq![0u32, 0u32, 0u32, 0u32]
    }
}

fn dword(b: &[u8], o: usize) -> (r: u32)
    requires
        o + 4 <= b@.len(),
    ensures
        r == le32(b@, o as int) as u32,
{
    read_u32_le(b, o).unwrap()
}

fn read_mmb(body: &[u8], version: u8, o: usize) -> (r: MmbPlacement)
    requires
        o + PLACEMENT_RECORD_LEN <= body@.len(),
    ensures
        mmb_matches(r, body@, version, o as int),
{
    let len = body.len();
    let mut id = [0u8; 16];
    let mut k: usize = 0;
    while k < 16
        invariant
            k <= 16,
            len == body@.len(),
            o + 100 <= body@.len(),
            forall|j: int| 0 <= j < k ==> id@[j] == body@[o + j],
        decreases 16 - k,
    {
        id[k] = body[o + k];
        k += 1;
    }
    assert(id@ =~= body@.subrange(o as int, o + 16));
    let lights = if version >= LIGHT_BINDING_MIN_VERSION {
        [dword(body, o + 0x54), dword(body, o + 0x58), dword(body, o + 0x5C), dword(body, o + 0x60)]
    } else {
        [0u32; 4]
    };
    let p = MmbPlacement {
        id,
        trans: [dword(body, o + 0x10), dword(body, o + 0x14), dword(body, o + 0x18)],
        rot: [dword(body, o + 0x1C), dword(body, o + 0x20), dword(body, o + 0x24)],
        scale: [dword(body, o + 0x28), dword(body, o + 0x2C), dword(body, o + 0x30)],
        block_id: dword(body, o + PL_BLOCK_ID),
        lod_near: dword(body, o + PL_LOD_NEAR),
        lod_mid: dword(body, o + PL_LOD_MID),
        lod_far: dword(body, o + PL_LOD_FAR),
        area_resource_id: dword(body, o + PL_AREA_RESOURCE_ID),
        sub_area_link: dword(body, o + PL_SUB_AREA_LINK),
        light_references: lights,
    };
    let ghost d = |k: int| le32(body@, o + k) as u32;
    assert(p.trans@ =~= seq![d(0x10), d(0x14), d(0x18)]);
    assert(p.rot@ =~= seq![d(0x1C), d(0x20), d(0x24)]);
    assert(p.scale@ =~= seq![d(0x28), d(0x2C), d(0x30)]);
    assert(p.light_references@ =~= if version >= LIGHT_BINDING_MIN_VERSION {
        seq![d(0x54), d(0x58), d(0x5C), d(0x60)]
    } else {
        seq![0u32, 0u32, 0u32, 0u32]
    });
    p
}

/// Reads the header's `node_count` placement records; none when the count is
/// zero, an error when the table runs past the body.
pub fn parse_mmb_placements(body: &[u8], header: &MzbHeader) -> (r: Result<Vec<MmbPlacement>, DatError>)
    ensures
        ({
            let end = MZB_HEADER_LEN + PLACEMENT_RECORD_LEN * header.node_count;
            &&& (header.node_count != 0 && end > body@.len()) <==> r is Err
            &&& r is Err ==> r == Err::<Vec<MmbPlacement>, DatError>(
                DatError::Mzb(MzbError::PlacementTableOutOfRange { end: end as usize, len: body@.len() as usize }),
            )
            &&& r matches Ok(v) ==> {
                &&& v@.len() == header.node_count
                &&& forall|i: int|
                    0 <= i < v@.len() ==> mmb_matches(
                        #[trigger] v@[i],
                        body@,
                        header.version,
                        MZB_HEADER_LEN + PLACEMENT_RECORD_LEN * i,
                    )
            }
        }),
{
    let count = header.node_count;
    if count == 0 {
        return Ok(Vec::new());
    }
    let end: u64 = MZB_HEADER_LEN as u64 + PLACEMENT_RECORD_LEN as u64 * count as u64;
    if end > body.len() as u64 {
        return Err(DatError::Mzb(MzbError::PlacementTableOutOfRange { end: end as usize, len: body.len() }));
    }
    let n = count as usize;
    let len = body.len();
    let mut out: Vec<MmbPlacement> = Vec::new();
    let mut i: usize = 0;
    while i < n
        invariant
            i <= n,
            len == body@.len(),
            n == header.node_count,
            MZB_HEADER_LEN + PLACEMENT_RECORD_LEN * n <= body@.len(),
            out@.len() == i,
            forall|k: int|
                0 <= k < i ==> mmb_matches(
                    #[trigger] out@[k],
                    body@,
                    header.version,
                    MZB_HEADER_LEN + PLACEMENT_RECORD_LEN * k,
                ),
        decreases n - i,
    {
        out.push(read_mmb(body, header.version, MZB_HEADER_LEN + PLACEMENT_RECORD_LEN * i));
        i += 1;
    }
    Ok(out)
}

/// The placement's name: its bytes before the first zero, as UTF-8.
pub open spec fn name_prefix(id: Seq<u8>) -> Seq<u8> {
    match first_zero(id) {
        Some(k) => id.subrange(0, k),
        None => id,
    }
}

/// The position of the first zero byte.
pub open spec fn first_zero(s: Seq<u8>) -> Option<int>
    decreases s.len(),
{
    if s.len() == 0 {
        None
    } else {
        match first_zero(s.drop_last()) {
            Some(k) => Some(k),
            None => if s.last() == 0 {
                Some(s.len() - 1)
            } else {
                None
            },
        }
    }
}

proof fn lemma_first_zero_take(s: Seq<u8>, i: int)
    requires
        0 <= i < s.len(),
        first_zero(s.take(i)) is None,
    ensures
        first_zero(s.take(i + 1)) == if s[i] == 0 {
            Some(i)
        } else {
            None::<int>
        },
{
    assert(s.take(i + 1).drop_last() =~= s.take(i));
}

impl MmbPlacement {
    /// The name before the first zero byte; empty when it is not UTF-8.
    pub fn id_str(&self) -> (r: &str)
        ensures
            r@ == if valid_utf8(name_prefix(self.id@)) {
                decode_utf8(name_prefix(self.id@))
            } else {
                Seq::<char>::empty()
            },
    {
        let mut end: usize = 0;
        assert(self.id@.take(0) =~= Seq::<u8>::empty());
        while end < 16 && self.id[end] != 0
            invariant
                end <= 16,
                first_zero(self.id@.take(end as int)) is None,
            decreases 16 - end,
        {
            proof {
                lemma_first_zero_take(self.id@, end as int);
            }
            end += 1;
        }
        proof {
            if end < 16 {
                lemma_first_zero_take(self.id@, end as int);
                lemma_first_zero_extend(self.id@, end as int + 1);
            } else {
                assert(self.id@.take(16) =~= self.id@);
            }
        }
        let name = vstd::slice::slice_subrange(self.id.as_slice(), 0, end);
        assert(name@ =~= name_prefix(self.id@));
        match utf8_str(name) {
            Some(s) => s,
            None => {
                proof {
                    reveal_strlit("");
                }
                ""
            },
        }
    }
}

proof fn lemma_first_zero_extend(s: Seq<u8>, i: int)
    requires
        0 < i <= s.len(),
        first_zero(s.take(i)) is Some,
    ensures
        first_zero(s) == first_zero(s.take(i)),
    decreases s.len() - i,
{
    if i < s.len() {
        assert(s.take(i + 1).drop_last() =~= s.take(i));
        lemma_first_zero_extend(s, i + 1);
    } else {
        assert(s.take(i) =~= s);
    }
}

} // verus!
