//! Keyframe-track chunks: (time, value) `f32` pairs, read up to and including
//! the first whose time is at least one. The pairs are kept as bit patterns;
//! sampling the curve is the renderer's.

use vstd::prelude::*;
use crate::bytes::{le32, read_u32_le};

verus! {

/// The bit pattern of `1.0f32`.
pub const ONE_BITS: u32 = 0x3F80_0000;
/// The bit pattern of positive infinity.
pub const INFINITY_BITS: u32 = 0x7F80_0000;

/// An `f32` with these bits compares at least one: positive values from one up
/// to infinity; every negative value and every NaN compares below or unordered.
pub open spec fn at_least_one(bits: u32) -> bool {
    ONE_BITS <= bits <= INFINITY_BITS
}

/// The pairs from `o` on: each whole pair is taken, and a pair whose time is at
/// least one ends the track.
pub open spec fn spec_points(b: Seq<u8>, o: int) -> Seq<(u32, u32)>
    decreases b.len() - o,
{
    if o < 0 || o + 8 > b.len() {
        Seq::empty()
    } else {
        let t = le32(b, o) as u32;
        seq![(t, le32(b, o + 4) as u32)] + if at_least_one(t) {
            Seq::empty()
        } else {
            spec_points(b, o + 8)
        }
    }
}

#[derive(Debug, Clone, PartialEq, Eq)]
pub struct KeyFrameTrack {
    /// (time, value) bit patterns in track order.
    pub points: Vec<(u32, u32)>,
}

impl KeyFrameTrack {
    pub fn parse(body: &[u8]) -> (r: KeyFrameTrack)
        ensures
            r.points@ == spec_points(body@, 0),
    {
        let len = body.len();
        let mut points: Vec<(u32, u32)> = Vec::new();
        let mut o: usize = 0;
        assert(points@ + spec_points(body@, 0) =~= spec_points(body@, 0));
        loop
            invariant_except_break
                points@ + spec_points(body@, o as int) == spec_points(body@, 0),
            invariant
                len == body@.len(),
                o <= len,
            ensures
                points@ == spec_points(body@, 0),
            decreases len - o,
        {
            if len - o < 8 {
                assert(points@ + Seq::<(u32, u32)>::empty() =~= points@);
                break;
            }
            let t = read_u32_le(body, o).unwrap();
            let v = read_u32_le(body, o + 4).unwrap();
            let ghost before = points@;
            points.push((t, v));
            if ONE_BITS <= t && t <= INFINITY_BITS {
                assert(before + (seq![(t, v)] + Seq::<(u32, u32)>::empty()) =~= points@);
                break;
            }
            assert(before + (seq![(t, v)] + spec_points(body@, o + 8)) =~= points@ + spec_points(
                body@,
                o + 8,
            ));
            o = o + 8;
        }
        KeyFrameTrack { points }
    }
}

} // verus!
