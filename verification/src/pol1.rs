//! `FFXiMain.dll` ships its code LZSS-packed in a `POL1` section: `.text` has a
//! zero raw size and the entry-point stub inflates it at load. This module finds
//! PE sections by name and inflates the packed stream.

use vstd::prelude::*;
use crate::bytes::{le16, le32, read_u16_le, read_u32_le};

verus! {

pub const SECTION_NAME_LEN: usize = 8;
pub const TEXT_SECTION_NAME: &'static str = ".text";
pub const POL1_SECTION_NAME: &'static str = "POL1";

pub const PE_E_LFANEW_OFFSET: usize = 0x3C;
pub const PE_NUMBER_OF_SECTIONS_OFFSET: usize = 6;
pub const PE_SIZE_OF_OPTIONAL_HEADER_OFFSET: usize = 20;
/// The optional header follows the `PE\0\0` signature and the COFF header; the
/// section table follows the optional header, whose size the COFF header gives.
pub const PE_OPTIONAL_HEADER_OFFSET: usize = 24;
pub const OPTIONAL_HEADER_ENTRY_POINT_OFFSET: usize = 16;
pub const SECTION_HEADER_SIZE: usize = 40;
pub const SECTION_VIRTUAL_SIZE_OFFSET: usize = 8;
pub const SECTION_VIRTUAL_ADDRESS_OFFSET: usize = 12;
pub const SECTION_SIZE_OF_RAW_DATA_OFFSET: usize = 16;
pub const SECTION_POINTER_TO_RAW_DATA_OFFSET: usize = 20;

/// A set control bit copies one literal byte; a clear one reads a big-endian word
/// whose low twelve bits are the lookback distance (zero ends the stream) and
/// whose top nibble is the copy length minus three.
pub const CONTROL_LITERAL_BIT: u8 = 0x80;
pub const BACKREF_DISTANCE_MASK: u16 = 0x0FFF;
pub const BACKREF_LENGTH_SHIFT: u16 = 12;
pub const BACKREF_MIN_LENGTH: usize = 3;

#[derive(Debug, Clone, PartialEq, Eq)]
pub enum Pol1Error {
    /// No `PE\0\0` signature at `e_lfanew`.
    NotPe,
    /// The section table names no section of this name.
    MissingSection { name: &'static str },
    /// The section's raw span does not lie inside the image.
    SectionOutsideImage { name: &'static str, start: usize, end: usize, len: usize },
    /// A back-reference reaches before the first output byte.
    BackReferenceBeforeStart { at: usize, distance: usize },
    /// The stream ended before the declared length was produced.
    Truncated { produced: usize, expected: usize },
    /// The requested span is not inside the unpacked `.text`.
    RvaOutOfRange { rva: u32, len: usize, base_rva: u32, size: usize },
}

#[derive(Debug, Clone, Copy, PartialEq, Eq)]
pub struct PeSection {
    pub name: [u8; 8],
    pub virtual_address: u32,
    pub virtual_size: u32,
    pub pointer_to_raw_data: u32,
    pub size_of_raw_data: u32,
}

/// The unpacked `.text` bytes with the RVA they start at.
#[derive(Debug, Clone, PartialEq, Eq)]
pub struct TextImage {
    pub base_rva: u32,
    pub bytes: Vec<u8>,
}

// ---------------------------------------------------------------- PE headers

/// `e_lfanew`, when it points at a `PE\0\0` signature inside the image.
pub open spec fn spec_pe_offset(b: Seq<u8>) -> Option<int> {
    if PE_E_LFANEW_OFFSET + 4 <= b.len() {
        let pe = le32(b, PE_E_LFANEW_OFFSET as int);
        if pe + 4 <= b.len() && b[pe] == 0x50 && b[pe + 1] == 0x45 && b[pe + 2] == 0
            && b[pe + 3] == 0 {
            Some(pe)
        } else {
            None
        }
    } else {
        None
    }
}

/// The section header at `at`, when its fields all lie inside the image.
pub open spec fn spec_section_at(b: Seq<u8>, at: int, name: Seq<u8>) -> Option<PeSection> {
    if at + SECTION_POINTER_TO_RAW_DATA_OFFSET + 4 <= b.len() {
        Some(
            PeSection {
                name: arbitrary(),
                virtual_size: le32(b, at + SECTION_VIRTUAL_SIZE_OFFSET) as u32,
                virtual_address: le32(b, at + SECTION_VIRTUAL_ADDRESS_OFFSET) as u32,
                size_of_raw_data: le32(b, at + SECTION_SIZE_OF_RAW_DATA_OFFSET) as u32,
                pointer_to_raw_data: le32(b, at + SECTION_POINTER_TO_RAW_DATA_OFFSET) as u32,
            },
        )
    } else {
        None
    }
}

/// Walks the section table from row `i`: the first row whose name matches decides,
/// and a row whose name runs past the image ends the walk with nothing.
pub open spec fn spec_find_from(b: Seq<u8>, table: int, count: int, name: Seq<u8>, i: int) -> Option<
    PeSection,
>
    decreases count - i,
{
    if i >= count {
        None
    } else {
        let at = table + i * SECTION_HEADER_SIZE;
        if at + SECTION_NAME_LEN > b.len() {
            None
        } else if b.subrange(at, at + SECTION_NAME_LEN as int) != name {
            spec_find_from(b, table, count, name, i + 1)
        } else {
            spec_section_at(b, at, name)
        }
    }
}

/// The section named `name` (eight bytes, zero padded) in the image's section table.
pub open spec fn spec_find_section(b: Seq<u8>, name: Seq<u8>) -> Option<PeSection> {
    match spec_pe_offset(b) {
        None => None,
        Some(pe) => if pe + PE_SIZE_OF_OPTIONAL_HEADER_OFFSET + 2 > b.len() {
            None
        } else {
            spec_find_from(
                b,
                pe + PE_OPTIONAL_HEADER_OFFSET + le16(b, pe + PE_SIZE_OF_OPTIONAL_HEADER_OFFSET),
                le16(b, pe + PE_NUMBER_OF_SECTIONS_OFFSET),
                name,
                0,
            )
        },
    }
}

/// A section's header fields, ignoring the stored name bytes.
pub open spec fn same_fields(a: PeSection, b: PeSection) -> bool {
    &&& a.virtual_address == b.virtual_address
    &&& a.virtual_size == b.virtual_size
    &&& a.pointer_to_raw_data == b.pointer_to_raw_data
    &&& a.size_of_raw_data == b.size_of_raw_data
}

pub open spec fn spec_section_name(name: Seq<u8>) -> Seq<u8> {
    Seq::new(8, |i: int| if i < name.len() { name[i] } else { 0u8 })
}

fn pe_signature_offset(dll_bytes: &[u8]) -> (r: Option<usize>)
    ensures
        r matches Some(pe) ==> spec_pe_offset(dll_bytes@) == Some(pe as int),
        r is None ==> spec_pe_offset(dll_bytes@) is None,
{
    let pe = match read_u32_le(dll_bytes, PE_E_LFANEW_OFFSET) {
        Some(v) => v as usize,
        None => return None,
    };
    if pe > dll_bytes.len() || dll_bytes.len() - pe < 4 {
        return None;
    }
    if dll_bytes[pe] == 0x50 && dll_bytes[pe + 1] == 0x45 && dll_bytes[pe + 2] == 0
        && dll_bytes[pe + 3] == 0 {
        Some(pe)
    } else {
        None
    }
}

/// `AddressOfEntryPoint`, which on a packed image is the POL1 unpacker stub.
pub fn entry_point_rva(dll_bytes: &[u8]) -> (r: Option<u32>)
    ensures
        r == (match spec_pe_offset(dll_bytes@) {
            None => None,
            Some(pe) => if pe + PE_OPTIONAL_HEADER_OFFSET + OPTIONAL_HEADER_ENTRY_POINT_OFFSET + 4
                <= dll_bytes@.len() {
                Some(
                    le32(
                        dll_bytes@,
                        pe + PE_OPTIONAL_HEADER_OFFSET + OPTIONAL_HEADER_ENTRY_POINT_OFFSET,
                    ) as u32,
                )
            } else {
                None
            },
        }),
{
    let n = dll_bytes.len();
    let pe = match pe_signature_offset(dll_bytes) {
        Some(pe) => pe,
        None => return None,
    };
    match pe.checked_add(PE_OPTIONAL_HEADER_OFFSET + OPTIONAL_HEADER_ENTRY_POINT_OFFSET) {
        Some(at) => read_u32_le(dll_bytes, at),
        None => None,
    }
}

/// A section name padded with zeros to the eight bytes the section table stores.
pub fn section_name(name: &[u8]) -> (r: [u8; 8])
    requires
        name@.len() <= 8,
    ensures
        r@ == spec_section_name(name@),
{
    let mut padded = [0u8;8];
    let mut i: usize = 0;
    while i < name.len()
        invariant
            name@.len() <= 8,
            0 <= i <= name@.len(),
            padded@.len() == 8,
            forall|j: int| 0 <= j < 8 ==> padded@[j] == if j < i { name@[j] } else { 0u8 },
        decreases name@.len() - i,
    {
        padded[i] = name[i];
        i += 1;
    }
    assert(padded@ =~= spec_section_name(name@));
    padded
}

/// Whether the eight bytes at `at` are `name`.
fn name_at(b: &[u8], at: usize, name: &[u8; 8]) -> (r: bool)
    requires
        at + 8 <= b@.len(),
    ensures
        r == (b@.subrange(at as int, at + 8) == name@),
{
    let _n = b.len();
    let mut k: usize = 0;
    while k < SECTION_NAME_LEN
        invariant
            at + 8 <= b@.len(),
            _n == b@.len(),
            k <= 8,
            forall|j: int| 0 <= j < k ==> b@[at + j] == name@[j],
        decreases 8 - k,
    {
        if b[at + k] != name[k] {
            assert(b@.subrange(at as int, at + 8)[k as int] != name@[k as int]);
            return false;
        }
        k += 1;
    }
    assert(b@.subrange(at as int, at + 8) =~= name@);
    true
}

/// The header fields of the section row at `at`.
fn section_at(b: &[u8], at: usize, name: &[u8; 8]) -> (r: Option<PeSection>)
    ensures
        r is Some <==> spec_section_at(b@, at as int, name@) is Some,
        r matches Some(s) ==> s.name == *name && same_fields(
            s,
            spec_section_at(b@, at as int, name@).unwrap(),
        ),
{
    let n = b.len();
    if at > n || n - at < SECTION_POINTER_TO_RAW_DATA_OFFSET + 4 {
        return None;
    }
    Some(
        PeSection {
            name: *name,
            virtual_size: read_u32_le(b, at + SECTION_VIRTUAL_SIZE_OFFSET).unwrap(),
            virtual_address: read_u32_le(b, at + SECTION_VIRTUAL_ADDRESS_OFFSET).unwrap(),
            size_of_raw_data: read_u32_le(b, at + SECTION_SIZE_OF_RAW_DATA_OFFSET).unwrap(),
            pointer_to_raw_data: read_u32_le(b, at + SECTION_POINTER_TO_RAW_DATA_OFFSET).unwrap(),
        },
    )
}

/// The section whose stored name equals `name`, read from the PE section table.
pub fn find_section(dll_bytes: &[u8], name: &[u8; 8]) -> (r: Option<PeSection>)
    ensures
        r is Some <==> spec_find_section(dll_bytes@, name@) is Some,
        r matches Some(s) ==> s.name == *name && same_fields(
            s,
            spec_find_section(dll_bytes@, name@).unwrap(),
        ),
{
    let n = dll_bytes.len();
    let pe = match pe_signature_offset(dll_bytes) {
        Some(pe) => pe,
        None => return None,
    };
    if pe > n || n - pe < PE_SIZE_OF_OPTIONAL_HEADER_OFFSET + 2 {
        return None;
    }
    let count = read_u16_le(dll_bytes, pe + PE_NUMBER_OF_SECTIONS_OFFSET).unwrap() as usize;
    let optional = read_u16_le(dll_bytes, pe + PE_SIZE_OF_OPTIONAL_HEADER_OFFSET).unwrap() as usize;
    let ghost b = dll_bytes@;
    let table = match (pe + PE_SIZE_OF_OPTIONAL_HEADER_OFFSET + 2).checked_add(optional + 2) {
        Some(t) => t,
        None => {
            proof {
                let tbl = pe + PE_OPTIONAL_HEADER_OFFSET + optional;
                if count > 0 {
                    assert(spec_find_from(b, tbl, count as int, name@, 0) is None);
                }
            }
            return None;
        },
    };
    let mut i: usize = 0;
    while i < count
        invariant
            b == dll_bytes@,
            n == b.len(),
            count as int == le16(b, pe + PE_NUMBER_OF_SECTIONS_OFFSET),
            table as int == pe + PE_OPTIONAL_HEADER_OFFSET + le16(
                b,
                pe + PE_SIZE_OF_OPTIONAL_HEADER_OFFSET,
            ),
            pe + PE_SIZE_OF_OPTIONAL_HEADER_OFFSET + 2 <= b.len(),
            spec_pe_offset(b) == Some(pe as int),
            i <= count,
            spec_find_from(b, table as int, count as int, name@, i as int) == spec_find_section(
                b,
                name@,
            ),
        decreases count - i,
    {
        let at = match i.checked_mul(SECTION_HEADER_SIZE) {
            Some(off) => match table.checked_add(off) {
                Some(at) => at,
                None => return None,
            },
            None => return None,
        };
        if at > n || n - at < SECTION_NAME_LEN {
            return None;
        }
        if !name_at(dll_bytes, at, name) {
            i += 1;
            continue;
        }
        return section_at(dll_bytes, at, name);
    }
    None
}

// ------------------------------------------------------------ LZSS stream

/// `out` extended by `run` bytes, each copied from `distance` bytes before the
/// current end (so a run may overlap the bytes it produces).
pub open spec fn spec_backcopy(out: Seq<u8>, distance: int, run: nat) -> Seq<u8>
    decreases run,
{
    if run == 0 {
        out
    } else {
        spec_backcopy(out.push(out[out.len() - distance]), distance, (run - 1) as nat)
    }
}

/// The stream's result once decoding stops with `out`.
pub open spec fn spec_lz_finish(out: Seq<u8>, n: nat) -> Result<Seq<u8>, Pol1Error> {
    if out.len() == n {
        Ok(out)
    } else {
        Err(Pol1Error::Truncated { produced: out.len() as usize, expected: n as usize })
    }
}

/// Decoding of `p` towards `n` output bytes from the state: next input byte `at`,
/// output so far `out`, current control byte `ctl` with `bits` flags left in it.
pub open spec fn spec_lz(p: Seq<u8>, n: nat, at: int, out: Seq<u8>, ctl: u8, bits: int) -> Result<
    Seq<u8>,
    Pol1Error,
>
    decreases p.len() - at,
{
    if at < 0 || at > p.len() {
        spec_lz_finish(out, n)
    } else if bits <= 0 {
        if at < p.len() && out.len() < n {
            spec_lz(p, n, at + 1, out, p[at], 8)
        } else {
            spec_lz_finish(out, n)
        }
    } else if out.len() >= n {
        spec_lz_finish(out, n)
    } else if ctl & CONTROL_LITERAL_BIT != 0 {
        if at >= p.len() {
            spec_lz_finish(out, n)
        } else {
            spec_lz(p, n, at + 1, out.push(p[at]), ctl << 1u8, bits - 1)
        }
    } else if at + 2 > p.len() {
        spec_lz_finish(out, n)
    } else {
        let word = 256 * p[at] + p[at + 1];
        let distance = word % 4096;
        if distance == 0 {
            spec_lz_finish(out, n)
        } else if distance > out.len() {
            Err(
                Pol1Error::BackReferenceBeforeStart {
                    at: out.len() as usize,
                    distance: distance as usize,
                },
            )
        } else {
            let want = word / 4096 + 3;
            let run = if want < n - out.len() {
                want
            } else {
                n - out.len()
            };
            spec_lz(p, n, at + 2, spec_backcopy(out, distance, run as nat), ctl << 1u8, bits - 1)
        }
    }
}

/// Inflates `packed` to exactly `unpacked_len` bytes.
pub open spec fn spec_lzss(packed: Seq<u8>, unpacked_len: nat) -> Result<Seq<u8>, Pol1Error> {
    spec_lz(packed, unpacked_len, 0, Seq::empty(), 0, 0)
}

proof fn lemma_backcopy_len(out: Seq<u8>, distance: int, run: nat)
    ensures
        spec_backcopy(out, distance, run).len() == out.len() + run,
    decreases run,
{
    if run > 0 {
        lemma_backcopy_len(out.push(out[out.len() - distance]), distance, (run - 1) as nat);
    }
}

/// Inflates a POL1 stream: every control byte carries eight flags, most
/// significant first; decoding stops at a zero distance, at the end of the input,
/// or once `unpacked_len` bytes exist. Anything but exactly `unpacked_len` bytes
/// is an error.
pub fn lzss_decompress(packed: &[u8], unpacked_len: usize) -> (r: Result<Vec<u8>, Pol1Error>)
    ensures
        match r {
            Ok(v) => spec_lzss(packed@, unpacked_len as nat) == Ok::<Seq<u8>, Pol1Error>(v@),
            Err(e) => spec_lzss(packed@, unpacked_len as nat) == Err::<Seq<u8>, Pol1Error>(e),
        },
{
    let ghost p = packed@;
    let ghost n = unpacked_len as nat;
    let mut out: Vec<u8> = Vec::new();
    let mut at: usize = 0;
    let mut ctl: u8 = 0;
    let mut bits: usize = 0;
    let plen = packed.len();
    loop
        invariant
            p == packed@,
            n == unpacked_len as nat,
            plen == p.len(),
            at <= plen,
            out@.len() <= unpacked_len,
            bits <= 8,
            spec_lz(p, n, at as int, out@, ctl, bits as int) == spec_lzss(p, n),
        ensures
            spec_lz_finish(out@, n) == spec_lzss(p, n),
        decreases plen - at,
    {
        if bits == 0 {
            if at < plen && out.len() < unpacked_len {
                ctl = packed[at];
                at += 1;
                bits = 8;
                continue;
            }
            break;
        }
        if out.len() >= unpacked_len {
            break;
        }
        if ctl & CONTROL_LITERAL_BIT != 0 {
            if at >= plen {
                break;
            }
            proof {
                assert(spec_lz(p, n, at as int, out@, ctl, bits as int) == spec_lz(
                    p,
                    n,
                    at + 1,
                    out@.push(p[at as int]),
                    ctl << 1u8,
                    bits - 1,
                ));
            }
            out.push(packed[at]);
            at += 1;
            ctl = ctl << 1u8;
            bits -= 1;
            continue;
        }
        if plen - at < 2 {
            break;
        }
        let word: u16 = (packed[at] as u16) * 256 + packed[at + 1] as u16;
        let distance = (word % 4096) as usize;
        if distance == 0 {
            break;
        }
        if distance > out.len() {
            return Err(Pol1Error::BackReferenceBeforeStart { at: out.len(), distance });
        }
        at += 2;
        let want = (word / 4096) as usize + BACKREF_MIN_LENGTH;
        let room = unpacked_len - out.len();
        let run = if want < room {
            want
        } else {
            room
        };
        let ghost start = out@;
        let mut k: usize = 0;
        while k < run
            invariant
                k <= run,
                run <= room,
                room == unpacked_len - start.len(),
                distance <= start.len(),
                distance >= 1,
                out@.len() == start.len() + k,
                spec_backcopy(out@, distance as int, (run - k) as nat) == spec_backcopy(
                    start,
                    distance as int,
                    run as nat,
                ),
            decreases run - k,
        {
            let x = out[out.len() - distance];
            out.push(x);
            k += 1;
        }
        ctl = ctl << 1u8;
        bits -= 1;
    }
    if out.len() != unpacked_len {
        return Err(Pol1Error::Truncated { produced: out.len(), expected: unpacked_len });
    }
    Ok(out)
}

/// `.text` padded to a section-table name.
pub const TEXT_SECTION_KEY: [u8; 8] = [0x2e, 0x74, 0x65, 0x78, 0x74, 0, 0, 0];
/// `POL1` padded to a section-table name.
pub const POL1_SECTION_KEY: [u8; 8] = [0x50, 0x4f, 0x4c, 0x31, 0, 0, 0, 0];

/// The section stored under `key`, or why there is none.
pub open spec fn spec_require_section(b: Seq<u8>, name: &'static str, key: Seq<u8>) -> Result<
    PeSection,
    Pol1Error,
> {
    if spec_pe_offset(b) is None {
        Err(Pol1Error::NotPe)
    } else {
        match spec_find_section(b, key) {
            Some(s) => Ok(s),
            None => Err(Pol1Error::MissingSection { name }),
        }
    }
}

fn require_section(dll_bytes: &[u8], name: &'static str, key: &[u8; 8]) -> (r: Result<
    PeSection,
    Pol1Error,
>)
    ensures
        r is Ok <==> spec_require_section(dll_bytes@, name, key@) is Ok,
        r matches Err(e) ==> spec_require_section(dll_bytes@, name, key@) == Err::<
            PeSection,
            Pol1Error,
        >(e),
        r matches Ok(s) ==> same_fields(s, spec_require_section(dll_bytes@, name, key@)->Ok_0),
{
    if pe_signature_offset(dll_bytes).is_none() {
        return Err(Pol1Error::NotPe);
    }
    match find_section(dll_bytes, key) {
        Some(s) => Ok(s),
        None => Err(Pol1Error::MissingSection { name }),
    }
}

/// What unpacking an image yields: `.text`'s base RVA and its inflated bytes.
pub open spec fn spec_unpack(b: Seq<u8>) -> Result<(u32, Seq<u8>), Pol1Error> {
    match spec_require_section(b, TEXT_SECTION_NAME, TEXT_SECTION_KEY@) {
        Err(e) => Err(e),
        Ok(text) => match spec_require_section(b, POL1_SECTION_NAME, POL1_SECTION_KEY@) {
            Err(e) => Err(e),
            Ok(pol1) => {
                let start = pol1.pointer_to_raw_data as int;
                let sum = start + pol1.size_of_raw_data;
                let end = if sum > usize::MAX {
                    usize::MAX as int
                } else {
                    sum
                };
                if end > b.len() {
                    Err(
                        Pol1Error::SectionOutsideImage {
                            name: POL1_SECTION_NAME,
                            start: start as usize,
                            end: end as usize,
                            len: b.len() as usize,
                        },
                    )
                } else {
                    match spec_lzss(b.subrange(start, end), text.virtual_size as nat) {
                        Ok(v) => Ok((text.virtual_address, v)),
                        Err(e) => Err(e),
                    }
                }
            },
        },
    }
}

impl TextImage {
    /// Inflates the `POL1` section into the length `.text` declares.
    pub fn unpack(dll_bytes: &[u8]) -> (r: Result<TextImage, Pol1Error>)
        ensures
            match r {
                Ok(img) => spec_unpack(dll_bytes@) == Ok::<(u32, Seq<u8>), Pol1Error>(
                    (img.base_rva, img.bytes@),
                ),
                Err(e) => spec_unpack(dll_bytes@) == Err::<(u32, Seq<u8>), Pol1Error>(e),
            },
    {
        let text = match require_section(dll_bytes, TEXT_SECTION_NAME, &TEXT_SECTION_KEY) {
            Ok(s) => s,
            Err(e) => return Err(e),
        };
        let pol1 = match require_section(dll_bytes, POL1_SECTION_NAME, &POL1_SECTION_KEY) {
            Ok(s) => s,
            Err(e) => return Err(e),
        };
        let start = pol1.pointer_to_raw_data as usize;
        let end = start.saturating_add(pol1.size_of_raw_data as usize);
        if end > dll_bytes.len() {
            return Err(
                Pol1Error::SectionOutsideImage {
                    name: POL1_SECTION_NAME,
                    start,
                    end,
                    len: dll_bytes.len(),
                },
            );
        }
        let packed = &dll_bytes[start..end];
        match lzss_decompress(packed, text.virtual_size as usize) {
            Ok(bytes) => Ok(TextImage { base_rva: text.virtual_address, bytes }),
            Err(e) => Err(e),
        }
    }

    /// The `len` unpacked bytes starting at `rva`.
    pub fn at_rva(&self, rva: u32, len: usize) -> (r: Result<&[u8], Pol1Error>)
        ensures
            r is Ok <==> (rva >= self.base_rva && (rva - self.base_rva) + len
                <= self.bytes@.len()),
            r matches Ok(s) ==> s@ == self.bytes@.subrange(
                rva - self.base_rva,
                rva - self.base_rva + len,
            ),
            r matches Err(e) ==> e == (Pol1Error::RvaOutOfRange {
                rva,
                len,
                base_rva: self.base_rva,
                size: self.bytes@.len() as usize,
            }),
    {
        let err = Pol1Error::RvaOutOfRange {
            rva,
            len,
            base_rva: self.base_rva,
            size: self.bytes.len(),
        };
        if rva < self.base_rva {
            return Err(err);
        }
        let off = (rva - self.base_rva) as usize;
        if off > self.bytes.len() || self.bytes.len() - off < len {
            return Err(err);
        }
        Ok(&self.bytes.as_slice()[off..off + len])
    }
}

/// The inflated `.text` bytes alone.
pub fn unpack_text(dll_bytes: &[u8]) -> (r: Result<Vec<u8>, Pol1Error>)
    ensures
        match r {
            Ok(v) => spec_unpack(dll_bytes@) is Ok && v@ == spec_unpack(dll_bytes@)->Ok_0.1,
            Err(e) => spec_unpack(dll_bytes@) == Err::<(u32, Seq<u8>), Pol1Error>(e),
        },
{
    match TextImage::unpack(dll_bytes) {
        Ok(image) => Ok(image.bytes),
        Err(e) => Err(e),
    }
}

} // verus!
