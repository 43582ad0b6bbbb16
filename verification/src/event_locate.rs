//! Zone id to the file id of the zone's event-bytecode DAT.

use vstd::prelude::*;
use crate::archive::{owner, DatRoot};

verus! {

/// Zone ids from here up live in the expansion block of file ids.
pub const ZONE_DAT_THRESHOLD: u16 = 256;
/// Added to a zone id below [`ZONE_DAT_THRESHOLD`].
pub const EVENT_DAT_LO_OFFSET: u32 = 5820;
/// Added to a zone id from [`ZONE_DAT_THRESHOLD`] up.
pub const EVENT_DAT_HI_OFFSET: u32 = 84735;
/// Highest zone id carrying an event-bytecode DAT on the known installs.
pub const EVENT_DAT_ZONE_ID_MAX: u16 = 299;

pub open spec fn spec_event_dat_file_id(zone_id: u16) -> u32 {
    if zone_id < ZONE_DAT_THRESHOLD {
        (zone_id + EVENT_DAT_LO_OFFSET) as u32
    } else {
        (zone_id + EVENT_DAT_HI_OFFSET) as u32
    }
}

/// The file id of a zone's event-bytecode DAT.
pub fn event_dat_file_id(zone_id: u16) -> (r: u32)
    ensures
        r == spec_event_dat_file_id(zone_id),
{
    let id = zone_id as u32;
    if zone_id < ZONE_DAT_THRESHOLD {
        id + EVENT_DAT_LO_OFFSET
    } else {
        id + EVENT_DAT_HI_OFFSET
    }
}

/// Whether `root` carries the event DAT of `zone`: some ROM claims its file id.
pub open spec fn carries_event_dat(root: DatRoot, zone: u16) -> bool {
    owner(root.spec_apps(), spec_event_dat_file_id(zone), root.spec_apps().len() as int) is Some
}

/// The zone ids up to [`EVENT_DAT_ZONE_ID_MAX`] whose event DAT `root` carries,
/// ascending.
pub fn event_dat_zones(root: &DatRoot) -> (r: Vec<u16>)
    ensures
        r@ == Seq::new((EVENT_DAT_ZONE_ID_MAX + 1) as nat, |z: int| z as u16).filter(
            |z: u16| carries_event_dat(*root, z),
        ),
{
    let ghost all = Seq::new((EVENT_DAT_ZONE_ID_MAX + 1) as nat, |z: int| z as u16);
    let mut out: Vec<u16> = Vec::new();
    let mut zone: u16 = 0;
    while zone <= EVENT_DAT_ZONE_ID_MAX
        invariant
            zone <= EVENT_DAT_ZONE_ID_MAX + 1,
            all == Seq::new((EVENT_DAT_ZONE_ID_MAX + 1) as nat, |z: int| z as u16),
            out@ == all.take(zone as int).filter(|z: u16| carries_event_dat(*root, z)),
        decreases EVENT_DAT_ZONE_ID_MAX + 1 - zone,
    {
        proof {
            assert(all.take(zone + 1) =~= all.take(zone as int).push(zone));
            all.take(zone as int).lemma_filter_push(zone, |z: u16| carries_event_dat(*root, z));
        }
        if root.resolve(event_dat_file_id(zone)).is_ok() {
            out.push(zone);
        }
        zone += 1;
    }
    proof {
        assert(all.take(zone as int) =~= all);
    }
    out
}


/// A zone below 256 has its event DAT at file id `zone + 5820`, any other at
/// `zone + 84735`; so distinct zones never share an event DAT.
pub proof fn law_event_dat_ids_follow_the_zone(z: u16, y: u16)
    ensures
        spec_event_dat_file_id(z) as int == if z < 256 {
            z as int + 5820
        } else {
            z as int + 84735
        },
        z != y ==> spec_event_dat_file_id(z) != spec_event_dat_file_id(y),
{
}

} // verus!
