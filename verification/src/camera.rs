//! Camera route chunks: the paths a scheduler routine drives the camera along.
//! Control-point coordinates are kept as the bit patterns of their `f32` values.

use vstd::prelude::*;
use crate::bytes::{le16, le32, read_u16_le, read_u32_le};
use crate::error::DatError;

verus! {

pub const ATTACHMENT_INFO_OFFSET: usize = 0;
pub const CAMERA_HEADER_OFFSET: usize = 16;
pub const CONTROL_POINT_COUNT_OFFSET: usize = 16;
pub const INTERP_FACTOR_OFFSET: usize = 17;
pub const FLAGS_OFFSET: usize = 18;
pub const SMOOTHING_TYPE_OFFSET: usize = 20;
/// Control points start after the 16-byte camera header.
pub const POINTS_OFFSET: usize = 32;
/// One packed spline control point.
pub const CONTROL_POINT_LEN: usize = 48;
pub const POSITION_OFFSET: usize = 0;
pub const FOCAL_LENGTH_OFFSET: usize = 12;
pub const TARGET_OFFSET: usize = 16;
pub const ROLL_OFFSET: usize = 28;
pub const PARAM_OFFSET: usize = 32;

/// The smoothing curve of a route; values above the five curves name keyframe
/// resources.
#[derive(Debug, Clone, Copy, PartialEq, Eq)]
pub enum CameraSmoothType {
    Linear,
    Decelerate,
    Accelerate,
    DecelerateToMidpointThenAccelerate,
    AccelerateAndDecelerate,
    /// A keyframe resource FourCC; the curve is not in this file.
    Keyframe(u32),
}

pub open spec fn spec_smooth_type(raw: u32) -> CameraSmoothType {
    if raw == 0 {
        CameraSmoothType::Linear
    } else if raw == 1 {
        CameraSmoothType::Decelerate
    } else if raw == 2 {
        CameraSmoothType::Accelerate
    } else if raw == 3 {
        CameraSmoothType::DecelerateToMidpointThenAccelerate
    } else if raw == 4 {
        CameraSmoothType::AccelerateAndDecelerate
    } else {
        CameraSmoothType::Keyframe(raw)
    }
}

impl CameraSmoothType {
    pub fn from_u32(raw: u32) -> (r: CameraSmoothType)
        ensures
            r == spec_smooth_type(raw),
    {
        match raw {
            0 => CameraSmoothType::Linear,
            1 => CameraSmoothType::Decelerate,
            2 => CameraSmoothType::Accelerate,
            3 => CameraSmoothType::DecelerateToMidpointThenAccelerate,
            4 => CameraSmoothType::AccelerateAndDecelerate,
            other => CameraSmoothType::Keyframe(other),
        }
    }
}

/// The first endpoint is the camera's current state.
pub const START_AT_CURRENT_POS: u16 = 0x08;
/// The last endpoint is the default camera state at the end of the task.
pub const END_AT_CURRENT_POS: u16 = 0x10;
/// The keyframe spline value wins over the plain frame value.
pub const SOMETHING: u16 = 0x20;

/// The flags word of a camera header.
#[derive(Debug, Clone, Copy, PartialEq, Eq)]
pub struct CameraFlags(pub u16);

impl CameraFlags {
    pub fn from_u16(raw: u16) -> (r: CameraFlags)
        ensures
            r.0 == raw,
    {
        CameraFlags(raw)
    }

    pub fn raw(self) -> (r: u16)
        ensures
            r == self.0,
    {
        self.0
    }

    pub fn starts_at_current_pos(self) -> (r: bool)
        ensures
            r == ((self.0 / 8) % 2 == 1),
    {
        let v = self.0;
        assert((v & 8u16 != 0) == ((v / 8) % 2 == 1)) by (bit_vector);
        v & START_AT_CURRENT_POS != 0
    }

    pub fn ends_at_current_pos(self) -> (r: bool)
        ensures
            r == ((self.0 / 16) % 2 == 1),
    {
        let v = self.0;
        assert((v & 16u16 != 0) == ((v / 16) % 2 == 1)) by (bit_vector);
        v & END_AT_CURRENT_POS != 0
    }
}

/// How the camera travels between its points.
#[derive(Debug, Clone, Copy, PartialEq, Eq)]
pub enum CameraPathMode {
    /// One effective point: apply it directly.
    Locked,
    /// Two effective points: interpolate between them.
    Straight,
    /// More than two: the spline through all of them.
    Spline,
}

/// One control point, each `f32` kept as its bit pattern.
#[derive(Debug, Clone, Copy, PartialEq, Eq)]
pub struct CameraControlPoint {
    pub position: [u32; 3],
    /// The projection focal length this point holds.
    pub focal_length: u32,
    pub target: [u32; 3],
    pub roll: u32,
    /// `param[0]` is the normalized time of the point along the path.
    pub param: [u32; 3],
}

/// A parsed camera route chunk.
#[derive(Debug, Clone)]
pub struct CameraResource {
    pub name: [u8; 4],
    /// Zero is world space; otherwise the points are relative to an attach matrix.
    pub attachment_info: u32,
    pub interp_factor: u8,
    pub flags: CameraFlags,
    pub smoothing: CameraSmoothType,
    pub points: Vec<CameraControlPoint>,
}

/// The dwords at `o`, `o + 4` and `o + 8`.
pub open spec fn dwords3(b: Seq<u8>, o: int) -> Seq<u32> {
    seq![le32(b, o) as u32, le32(b, o + 4) as u32, le32(b, o + 8) as u32]
}

/// `p` is the control point stored at `o`.
pub open spec fn point_matches(p: CameraControlPoint, b: Seq<u8>, o: int) -> bool {
    &&& p.position@ == dwords3(b, o + POSITION_OFFSET)
    &&& p.focal_length == le32(b, o + FOCAL_LENGTH_OFFSET)
    &&& p.target@ == dwords3(b, o + TARGET_OFFSET)
    &&& p.roll == le32(b, o + ROLL_OFFSET)
    &&& p.param@ == dwords3(b, o + PARAM_OFFSET)
}

/// `c` is the route `body` holds under `name`.
pub open spec fn camera_matches(c: CameraResource, name: [u8; 4], body: Seq<u8>) -> bool {
    &&& c.name == name
    &&& c.attachment_info == le32(body, 0)
    &&& c.interp_factor == body[17]
    &&& c.flags.0 == le16(body, 18)
    &&& c.smoothing == spec_smooth_type(le32(body, 20) as u32)
    &&& c.points@.len() == body[16]
    &&& forall|i: int|
        0 <= i < c.points@.len() ==> point_matches(
            #[trigger] c.points@[i],
            body,
            POINTS_OFFSET + CONTROL_POINT_LEN * i,
        )
}

fn read3(body: &[u8], o: usize) -> (r: [u32; 3])
    requires
        o + 12 <= body@.len(),
    ensures
        r@ == dwords3(body@, o as int),
{
    let _ = body.len();
    let r = [read_u32_le(body, o).unwrap(), read_u32_le(body, o + 4).unwrap(), read_u32_le(body, o + 8).unwrap()];
    assert(r@ =~= dwords3(body@, o as int));
    r
}

impl CameraResource {
    /// Reads a camera route: a body shorter than the header is truncated at 0, and
    /// one shorter than its declared control points is truncated at the points.
    pub fn parse(name: [u8; 4], body: &[u8]) -> (r: Result<CameraResource, DatError>)
        ensures
            body@.len() < POINTS_OFFSET ==> r == Err::<CameraResource, DatError>(
                DatError::TruncatedChunk { offset: 0, needed: POINTS_OFFSET, available: body@.len() as usize },
            ),
            body@.len() >= POINTS_OFFSET && body@.len() < POINTS_OFFSET + CONTROL_POINT_LEN * body@[16]
                ==> r == Err::<CameraResource, DatError>(
                DatError::TruncatedChunk {
                    offset: POINTS_OFFSET,
                    needed: (POINTS_OFFSET + CONTROL_POINT_LEN * body@[16]) as usize,
                    available: body@.len() as usize,
                },
            ),
            body@.len() >= POINTS_OFFSET + CONTROL_POINT_LEN * body@[16] ==> (r matches Ok(c)
                && camera_matches(c, name, body@)),
    {
        let len = body.len();
        if len < POINTS_OFFSET {
            return Err(DatError::TruncatedChunk { offset: 0, needed: POINTS_OFFSET, available: len });
        }
        let attachment_info = read_u32_le(body, ATTACHMENT_INFO_OFFSET).unwrap();
        let count = body[CONTROL_POINT_COUNT_OFFSET] as usize;
        let interp_factor = body[INTERP_FACTOR_OFFSET];
        let flags = CameraFlags::from_u16(read_u16_le(body, FLAGS_OFFSET).unwrap());
        let smoothing = CameraSmoothType::from_u32(read_u32_le(body, SMOOTHING_TYPE_OFFSET).unwrap());
        let needed = POINTS_OFFSET + count * CONTROL_POINT_LEN;
        if len < needed {
            return Err(DatError::TruncatedChunk { offset: POINTS_OFFSET, needed, available: len });
        }
        let mut points: Vec<CameraControlPoint> = Vec::new();
        let mut i: usize = 0;
        while i < count
            invariant
                len == body@.len(),
                count == body@[16],
                POINTS_OFFSET + count * CONTROL_POINT_LEN <= len,
                i <= count,
                points@.len() == i,
                forall|k: int|
                    0 <= k < i ==> point_matches(#[trigger] points@[k], body@, POINTS_OFFSET + CONTROL_POINT_LEN * k),
            decreases count - i,
        {
            let base = POINTS_OFFSET + i * CONTROL_POINT_LEN;
            points.push(
                CameraControlPoint {
                    position: read3(body, base + POSITION_OFFSET),
                    focal_length: read_u32_le(body, base + FOCAL_LENGTH_OFFSET).unwrap(),
                    target: read3(body, base + TARGET_OFFSET),
                    roll: read_u32_le(body, base + ROLL_OFFSET).unwrap(),
                    param: read3(body, base + PARAM_OFFSET),
                },
            );
            i += 1;
        }
        Ok(CameraResource { name, attachment_info, interp_factor, flags, smoothing, points })
    }

    /// The effective point count: the authored points plus one virtual endpoint
    /// per flag that stands in the camera's current state.
    pub fn control_point_count(&self) -> (r: u32)
        requires
            self.points@.len() + 2 <= u32::MAX,
        ensures
            r == self.points@.len() + (if (self.flags.0 / 8) % 2 == 1 { 1int } else { 0 }) + (if (
            self.flags.0 / 16) % 2 == 1 {
                1int
            } else {
                0
            }),
    {
        let mut n = self.points.len() as u32;
        if self.flags.starts_at_current_pos() {
            n += 1;
        }
        if self.flags.ends_at_current_pos() {
            n += 1;
        }
        n
    }

    /// More than two effective points is a spline, exactly two a straight path,
    /// fewer a locked camera.
    pub fn path_mode(&self) -> (r: CameraPathMode)
        requires
            self.points@.len() + 2 <= u32::MAX,
        ensures
            ({
                let n = self.points@.len() + (if (self.flags.0 / 8) % 2 == 1 { 1int } else { 0 }) + (
                if (self.flags.0 / 16) % 2 == 1 {
                    1int
                } else {
                    0
                });
                r == if n <= 1 {
                    CameraPathMode::Locked
                } else if n == 2 {
                    CameraPathMode::Straight
                } else {
                    CameraPathMode::Spline
                }
            }),
    {
        let n = self.control_point_count();
        if n <= 1 {
            CameraPathMode::Locked
        } else if n == 2 {
            CameraPathMode::Straight
        } else {
            CameraPathMode::Spline
        }
    }
}

} // verus!
