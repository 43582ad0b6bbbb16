//! Sound-effect pointers (`Sep` chunks): the se id a cue plays and whether it
//! loops, plus the four-digit time-of-day bucket names their parents use.

use vstd::prelude::*;
use crate::bytes::{le32, read_u32_le};
use crate::error::DatError;
use crate::text::{dec, zero_pad, push_decimal, string_from_chars};

verus! {

/// Offset of the se id in a Sep body.
pub const SE_ID_OFFSET: usize = 8;
/// Offset of the flags word; a body that ends before it reads as flags 0.
pub const FLAGS_OFFSET: usize = 0x0C;
/// The flags bit that makes a cue loop rather than play once.
pub const SEP_FLAG_LOOP: u32 = 0x8000_0000;

#[derive(Debug, Clone, Copy, PartialEq, Eq)]
pub struct Sep {
    pub name: [u8; 4],
    pub se_id: u32,
    pub flags: u32,
}

/// `"se"` followed by the given characters.
pub open spec fn se_prefixed(s: Seq<char>) -> Seq<char> {
    seq!['s', 'e'] + s
}

pub open spec fn is_ascii_digit(b: u8) -> bool {
    48 <= b <= 57
}

/// The minutes after midnight an `HHMM` bucket name stands for, when it is one:
/// four ASCII digits whose hour tens digit is at most 1 and whose minute tens
/// digit is at most 5.
pub open spec fn spec_activate_time(name: Seq<u8>) -> Option<u32> {
    if name.len() == 4 && is_ascii_digit(name[0]) && is_ascii_digit(name[1])
        && is_ascii_digit(name[2]) && is_ascii_digit(name[3]) && name[0] <= 49
        && name[2] <= 53 {
        Some(
            (((name[1] - 48) + 10 * (name[0] - 48)) * 60 + (name[3] - 48) + 10 * (name[2]
                - 48)) as u32,
        )
    } else {
        None
    }
}

impl Sep {
    /// Reads the se id at offset 8 and the flags at offset 12 (zero when the body stops
    /// before them). A body too short for the se id is a truncated chunk.
    pub fn parse(name: [u8; 4], body: &[u8]) -> (r: Result<Sep, DatError>)
        ensures
            body@.len() < 12 <==> r is Err,
            r matches Err(e) ==> e == (DatError::TruncatedChunk {
                offset: 0,
                needed: 12,
                available: body@.len() as usize,
            }),
            r matches Ok(s) ==> {
                &&& s.name == name
                &&& s.se_id as int == le32(body@, 8)
                &&& s.flags as int == if body@.len() >= 16 {
                    le32(body@, 12)
                } else {
                    0
                }
            },
    {
        let se_id = match read_u32_le(body, SE_ID_OFFSET) {
            Some(v) => v,
            None => {
                return Err(
                    DatError::TruncatedChunk {
                        offset: 0,
                        needed: SE_ID_OFFSET + 4,
                        available: body.len(),
                    },
                );
            },
        };
        let flags = match read_u32_le(body, FLAGS_OFFSET) {
            Some(v) => v,
            None => 0,
        };
        Ok(Sep { name, se_id, flags })
    }

    /// Whether the cue loops: the top bit of the flags word.
    pub fn loops(&self) -> (r: bool)
        ensures
            r == (self.flags >= 0x8000_0000),
    {
        let f = self.flags;
        assert(f & 0x8000_0000u32 != 0 <==> f >= 0x8000_0000u32) by (bit_vector);
        f & SEP_FLAG_LOOP != 0
    }

    /// The sound file's directory and name: `se<id / 1000>` padded to three digits,
    /// and `se<id>.spw` padded to six.
    pub fn relative_path(&self) -> (r: (String, String))
        ensures
            r.0@ == se_prefixed(zero_pad(dec((self.se_id / 1000) as nat), 3)),
            r.1@ == se_prefixed(zero_pad(dec(self.se_id as nat), 6)) + seq![
                '.',
                's',
                'p',
                'w',
            ],
    {
        let mut dir: Vec<char> = Vec::new();
        dir.push('s');
        dir.push('e');
        push_decimal(&mut dir, (self.se_id / 1000) as u64, 3);
        let mut file: Vec<char> = Vec::new();
        file.push('s');
        file.push('e');
        push_decimal(&mut file, self.se_id as u64, 6);
        file.push('.');
        file.push('s');
        file.push('p');
        file.push('w');
        proof {
            assert(dir@ =~= se_prefixed(zero_pad(dec((self.se_id / 1000) as nat), 3)));
            assert(file@ =~= se_prefixed(zero_pad(dec(self.se_id as nat), 6)) + seq![
                '.',
                's',
                'p',
                'w',
            ]);
        }
        (string_from_chars(dir), string_from_chars(file))
    }
}

/// Minutes after midnight for a time-bucket name, `None` for any name outside the
/// `HHMM` domain (such names are other sound payloads or se-id labels).
pub fn activate_time_minutes(name: &[u8; 4]) -> (r: Option<u32>)
    ensures
        r == spec_activate_time(name@),
        r matches Some(m) ==> m < 20 * 60,
{
    let (a, b, c, d) = (name[0], name[1], name[2], name[3]);
    if !(48 <= a && a <= 57 && 48 <= b && b <= 57 && 48 <= c && c <= 57 && 48 <= d && d <= 57) {
        return None;
    }
    if a > 49 || b > 57 || c > 53 || d > 57 {
        return None;
    }
    let digit = |x: u8| -> (v: u32)
        requires
            48 <= x <= 57,
        ensures
            v == x - 48,
        { (x - 48) as u32 };
    Some((digit(b) + 10 * digit(a)) * 60 + digit(d) + 10 * digit(c))
}

} // verus!
