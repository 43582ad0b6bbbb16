# ffxi_dat

Readers for the FINAL FANTASY XI client's data files, written in Verus: the
ROM archive tables and the file each id resolves to, the packed
`FFXiMain.dll` tables, zone collision and placement blocks, NPC and key-item
name tables, item DAT blocks, scheduler, camera, mesh, particle and sound
generator chunks, zone interaction rects, and the install registry's rules.

- `src/` is the verified library. Every public function states what it
  returns in its contract; floats are carried as their IEEE-754 bit patterns.
  The `law_*` proof functions state properties that span several calls.
- `tests/` runs the library on concrete inputs.
- `app/` is the unverified edge: reading files and the environment, the
  DAT-root lock, error types with `Display`, and the `f32` geometry built on
  the bit patterns the library returns.

## What the library does not cover

Some readers build on parts of the client's format that this crate does not
model, so they are absent: locating chunks in a zone DAT by kind (zone rects
and footstep tables are read from chunk bodies the caller extracts), decoding
item icons and sprite-sheet textures, resolving texture names, detecting an
item DAT's block layout (the caller names it), and parsing the string-table
container of the system-message DAT (`SysMesDat` is built from its entries).
The key-item inline tag of system messages is not recognised; any tag marker
other than the item marker writes a number.
