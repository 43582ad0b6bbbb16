//! The lobby's expansion bits (the `excode_client` mask a client reports) and
//! the fold from an install's ROM inventory to that mask.

use vstd::prelude::*;

verus! {

pub const BASE_GAME: u16 = 0x0001;
pub const RISE_OF_ZILART: u16 = 0x0002;
pub const CHAINS_OF_PROMATHIA: u16 = 0x0004;
pub const TREASURES_OF_AHT_URGHAN: u16 = 0x0008;
pub const WINGS_OF_THE_GODDESS: u16 = 0x0010;
pub const A_CRYSTALLINE_PROPHECY: u16 = 0x0020;
pub const A_MOOGLE_KUPOD_ETAT: u16 = 0x0040;
pub const A_SHANTOTTO_ASCENSION: u16 = 0x0080;
pub const VISIONS_OF_ABYSSEA: u16 = 0x0100;
pub const SCARS_OF_ABYSSEA: u16 = 0x0200;
pub const HEROES_OF_ABYSSEA: u16 = 0x0400;
pub const SEEKERS_OF_ADOULIN: u16 = 0x0800;
pub const UNUSED_EXPANSION_1: u16 = 0x1000;
pub const UNUSED_EXPANSION_2: u16 = 0x2000;
pub const UNUSED_EXPANSION_3: u16 = 0x4000;
pub const UNUSED_EXPANSION_4: u16 = 0x8000;
/// Every expansion with a name.
pub const ALL_KNOWN: u16 = 0x0FFF;

/// The three Abyssea add-ons ship no ROM of their own; they come on together
/// once the fold holds both Rise of the Zilart and Wings of the Goddess.
pub const ABYSSEA_BITS: u16 = 0x0700;
pub const ABYSSEA_REQUIRES: u16 = 0x0012;

/// The first and last ROM indices that carry an expansion bit.
pub const FIRST_EXPANSION_ROM: u8 = 2;
pub const LAST_EXPANSION_ROM: u8 = 13;

/// The expansion ROM `r` adds (`2 <= r <= 13`), and the bit it needs already
/// folded in: the three add-on ROMs count only with Rise of the Zilart.
pub open spec fn spec_rom_expansion(r: int) -> (u16, Option<u16>) {
    if r == 2 {
        (RISE_OF_ZILART, None)
    } else if r == 3 {
        (CHAINS_OF_PROMATHIA, None)
    } else if r == 4 {
        (TREASURES_OF_AHT_URGHAN, None)
    } else if r == 5 {
        (WINGS_OF_THE_GODDESS, None)
    } else if r == 6 {
        (A_CRYSTALLINE_PROPHECY, Some(RISE_OF_ZILART))
    } else if r == 7 {
        (A_MOOGLE_KUPOD_ETAT, Some(RISE_OF_ZILART))
    } else if r == 8 {
        (A_SHANTOTTO_ASCENSION, Some(RISE_OF_ZILART))
    } else if r == 9 {
        (SEEKERS_OF_ADOULIN, None)
    } else if r == 10 {
        (UNUSED_EXPANSION_1, None)
    } else if r == 11 {
        (UNUSED_EXPANSION_2, None)
    } else if r == 12 {
        (UNUSED_EXPANSION_3, None)
    } else {
        (UNUSED_EXPANSION_4, None)
    }
}

pub fn rom_expansion(r: u8) -> (e: (u16, Option<u16>))
    requires
        FIRST_EXPANSION_ROM <= r <= LAST_EXPANSION_ROM,
    ensures
        e == spec_rom_expansion(r as int),
{
    match r {
        2 => (RISE_OF_ZILART, None),
        3 => (CHAINS_OF_PROMATHIA, None),
        4 => (TREASURES_OF_AHT_URGHAN, None),
        5 => (WINGS_OF_THE_GODDESS, None),
        6 => (A_CRYSTALLINE_PROPHECY, Some(RISE_OF_ZILART)),
        7 => (A_MOOGLE_KUPOD_ETAT, Some(RISE_OF_ZILART)),
        8 => (A_SHANTOTTO_ASCENSION, Some(RISE_OF_ZILART)),
        9 => (SEEKERS_OF_ADOULIN, None),
        10 => (UNUSED_EXPANSION_1, None),
        11 => (UNUSED_EXPANSION_2, None),
        12 => (UNUSED_EXPANSION_3, None),
        _ => (UNUSED_EXPANSION_4, None),
    }
}

/// The mask after folding ROMs 2 through `r`, in index order, over the ROM
/// indices `present` holds: each present ROM adds its bit unless its gate is
/// not yet met.
pub open spec fn spec_fold(present: Seq<u8>, r: int) -> u16
    decreases r,
{
    if r < 2 {
        BASE_GAME
    } else {
        let m = spec_fold(present, r - 1);
        let (bit, req) = spec_rom_expansion(r);
        if present.contains(r as u8) && (req matches Some(q) ==> m & q == q) {
            m | bit
        } else {
            m
        }
    }
}

/// The lobby mask a ROM inventory describes: the base game, every expansion
/// ROM folded in index order (whatever order `present` lists them in), and the
/// Abyssea bundle once both of its prerequisites are in.
pub open spec fn spec_excode(present: Seq<u8>) -> u16 {
    let m = spec_fold(present, LAST_EXPANSION_ROM as int);
    if m & ABYSSEA_REQUIRES == ABYSSEA_REQUIRES {
        m | ABYSSEA_BITS
    } else {
        m
    }
}

fn holds(present: &[u8], r: u8) -> (b: bool)
    ensures
        b == present@.contains(r),
{
    let mut i: usize = 0;
    while i < present.len()
        invariant
            i <= present@.len(),
            forall|k: int| 0 <= k < i ==> present@[k] != r,
        decreases present.len() - i,
    {
        if present[i] == r {
            assert(present@[i as int] == r);
            return true;
        }
        i += 1;
    }
    false
}

/// The `excode_client` mask the ROM inventory `present` describes.
pub fn excode_client_from_rom_indices(present: &[u8]) -> (m: u16)
    ensures
        m == spec_excode(present@),
{
    let mut mask = BASE_GAME;
    let mut r: u8 = FIRST_EXPANSION_ROM;
    while r <= LAST_EXPANSION_ROM
        invariant
            FIRST_EXPANSION_ROM <= r <= LAST_EXPANSION_ROM + 1,
            mask == spec_fold(present@, r - 1),
        decreases LAST_EXPANSION_ROM + 1 - r,
    {
        let (bit, req) = rom_expansion(r);
        let gate_open = match req {
            Some(q) => mask & q == q,
            None => true,
        };
        if holds(present, r) && gate_open {
            mask = mask | bit;
        }
        r += 1;
    }
    if mask & ABYSSEA_REQUIRES == ABYSSEA_REQUIRES {
        mask = mask | ABYSSEA_BITS;
    }
    mask
}

/// The fold up to `r` reads only whether each expansion ROM up to `r` is held.
pub proof fn lemma_fold_same_expansions(a: Seq<u8>, b: Seq<u8>, r: int)
    requires
        r <= 255,
        forall|x: u8| FIRST_EXPANSION_ROM <= x <= r ==> (#[trigger] a.contains(x) <==> b.contains(x)),
    ensures
        spec_fold(a, r) == spec_fold(b, r),
    decreases r,
{
    if r >= 2 {
        lemma_fold_same_expansions(a, b, r - 1);
        assert(a.contains(r as u8) == b.contains(r as u8));
    }
}

/// The mask depends only on which expansion ROMs the inventory holds: not on
/// how it lists them (order, repeats), nor on the base ROM or any ROM past the
/// last one retail probes.
pub proof fn law_excode_depends_only_on_the_inventory(a: Seq<u8>, b: Seq<u8>)
    requires
        forall|x: u8|
            FIRST_EXPANSION_ROM <= x <= LAST_EXPANSION_ROM ==> (#[trigger] a.contains(x) <==> b.contains(x)),
    ensures
        spec_excode(a) == spec_excode(b),
{
    lemma_fold_same_expansions(a, b, LAST_EXPANSION_ROM as int);
}

/// Each expansion ROM's bit is the one retail computes by shifting:
/// `1 << (r - 1)` below ROM9 and `1 << (r + 2)` from ROM9 up; only ROMs 6 to 8
/// are gated, on Rise of the Zilart; and no two ROMs, nor the Abyssea bundle,
/// share a bit.
pub proof fn law_rom_bits_follow_the_shift_rule(r: int)
    requires
        FIRST_EXPANSION_ROM <= r <= LAST_EXPANSION_ROM,
    ensures
        spec_rom_expansion(r).0 == (if r < 9 {
            1u16 << ((r - 1) as u16)
        } else {
            1u16 << ((r + 2) as u16)
        }),
        (spec_rom_expansion(r).1 is Some) <==> (6 <= r <= 8),
        spec_rom_expansion(r).1 is Some ==> spec_rom_expansion(r).1 == Some(RISE_OF_ZILART),
        spec_rom_expansion(r).0 & ABYSSEA_BITS == 0,
        spec_rom_expansion(r).0 & BASE_GAME == 0,
{
    assert({
        &&& 1u16 << 1u16 == 2 && 1u16 << 2u16 == 4 && 1u16 << 3u16 == 8 && 1u16 << 4u16 == 16
        &&& 1u16 << 5u16 == 32 && 1u16 << 6u16 == 64 && 1u16 << 7u16 == 128
        &&& 1u16 << 11u16 == 2048 && 1u16 << 12u16 == 4096 && 1u16 << 13u16 == 8192
        &&& 1u16 << 14u16 == 16384 && 1u16 << 15u16 == 32768
        &&& 2u16 & 0x0700u16 == 0 && 4u16 & 0x0700u16 == 0 && 8u16 & 0x0700u16 == 0
        &&& 16u16 & 0x0700u16 == 0 && 32u16 & 0x0700u16 == 0 && 64u16 & 0x0700u16 == 0
        &&& 128u16 & 0x0700u16 == 0 && 2048u16 & 0x0700u16 == 0 && 4096u16 & 0x0700u16 == 0
        &&& 8192u16 & 0x0700u16 == 0 && 16384u16 & 0x0700u16 == 0 && 32768u16 & 0x0700u16 == 0
        &&& 2u16 & 1u16 == 0 && 4u16 & 1u16 == 0 && 8u16 & 1u16 == 0 && 16u16 & 1u16 == 0
        &&& 32u16 & 1u16 == 0 && 64u16 & 1u16 == 0 && 128u16 & 1u16 == 0 && 2048u16 & 1u16 == 0
        &&& 4096u16 & 1u16 == 0 && 8192u16 & 1u16 == 0 && 16384u16 & 1u16 == 0 && 32768u16 & 1u16 == 0
    }) by (bit_vector);
}

} // verus!
