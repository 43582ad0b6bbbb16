//! Readers for the FINAL FANTASY XI client's data files: the ROM archive
//! tables, the packed `FFXiMain.dll`, zone block headers, NPC name tables,
//! scheduler routines and the small fixed-layout records around them.

pub mod bytes;
pub mod datid;
pub mod error;
pub mod text;
pub mod sep;
pub mod pol1;
pub mod main_dll;
pub mod npc_names;
pub mod scheduler;
pub mod mzb;
pub mod archive;
pub mod expansion;
pub mod event_locate;
pub mod footstep;
pub mod camera;
pub mod d3m;
pub mod particle_gen;
pub mod key_item;
pub mod sysmes;
pub mod install;
pub mod zone_interaction;
pub mod item_dat;
pub mod sprite_sheet;

pub use error::DatError;
