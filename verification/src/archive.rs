//! The ROM archive: each ROM's VTABLE (which ROM claims each file id) and
//! FTABLE (where in that ROM the file sits), merged so that the highest ROM
//! claiming a file id owns it; the overlay search order; the expansion mask an
//! inventory of ROMs describes; and XI-Pivot's overlay configuration.

use vstd::prelude::*;
use crate::error::DatError;
use crate::text::{
    chars_of, dec, eq_ignore_ascii_case, eq_ignore_case, find_char, first_index, parse_u32_chars,
    push_all, push_decimal, spec_parse_u32, string_from_chars, sub_chars, trim_chars, trim_ws,
    zero_pad,
};

verus! {

/// The last ROM index the retail client probes, and so the last one with an
/// expansion bit.
pub const RETAIL_INDEX_ROM_MAX: u8 = 13;
/// ROM directories are probed up to this index, past retail's.
pub const MAX_ROM_INDEX: u8 = 19;
/// The base install's own tables, the ones with no ROM index in their name.
pub const BASE_ROM_INDEX: u8 = 1;
pub const DAT_PATH_ENV: &'static str = "FFXI_DAT_PATH";
/// The DAT root's path inside an install directory.
pub const INSTALL_SUBDIR: &'static str = "SquareEnix/FINAL FANTASY XI";
/// Overlay roots searched before the base install, separated by the platform
/// path separator.
pub const OVERLAY_ENV: &'static str = "FFXI_DAT_OVERLAYS";
/// XI-Pivot's config, relative to the game directory that contains the install.
pub const PIVOT_INI: &'static str = "config/pivot/pivot.ini";
/// Where XI-Pivot keeps the overlay directories, relative to the same place.
pub const PIVOT_DAT_DIR: &'static str = "polplugins/DATs";
/// Two bytes of FTABLE per file id.
pub const FTABLE_BYTES_PER_FILE_ID: usize = 2;

/// Where a file sits inside its ROM directory: `<dir>/<file>.DAT`.
#[derive(Debug, Clone, Copy, PartialEq, Eq)]
pub struct SubPath {
    pub dir: u16,
    pub file: u16,
}

/// The location an FTABLE word encodes: the directory in its upper nine bits,
/// the file in its lower seven.
pub open spec fn spec_sub_path(w: u16) -> SubPath {
    SubPath { dir: (w / 128) as u16, file: (w % 128) as u16 }
}

/// A ROM's VTABLE: one byte per file id, the index of the ROM that holds it.
#[derive(Debug, Clone)]
pub struct VTable {
    /// The file it was read from.
    pub source: String,
    pub rom_of: Vec<u8>,
}

/// A ROM's FTABLE: one little-endian word per file id.
#[derive(Debug, Clone)]
pub struct FTable {
    pub source: String,
    pub words: Vec<u16>,
}

impl VTable {
    pub fn new(source: String, bytes: Vec<u8>) -> (r: VTable)
        ensures
            r.source@ == source@,
            r.rom_of@ == bytes@,
    {
        VTable { source, rom_of: bytes }
    }

    /// Number of file ids the table covers, saturated to `u32`.
    pub fn len(&self) -> (r: u32)
        ensures
            r as int == if self.rom_of@.len() <= u32::MAX {
                self.rom_of@.len() as int
            } else {
                u32::MAX as int
            },
    {
        if self.rom_of.len() as u64 <= u32::MAX as u64 {
            self.rom_of.len() as u32
        } else {
            u32::MAX
        }
    }

    /// Whether ROM `rom_index` holds `file_id` by this table.
    pub fn contains(&self, file_id: u32, rom_index: u8) -> (r: bool)
        ensures
            r == (file_id < self.rom_of@.len() && self.rom_of@[file_id as int] == rom_index),
    {
        (file_id as usize) < self.rom_of.len() && self.rom_of[file_id as usize] == rom_index
    }

    pub fn source(&self) -> (r: &str)
        ensures
            r@ == self.source@,
    {
        self.source.as_str()
    }
}

impl FTable {
    /// Reads the words of an FTABLE file; an odd trailing byte is ignored.
    pub fn from_bytes(source: String, bytes: &[u8]) -> (r: FTable)
        ensures
            r.source@ == source@,
            r.words@.len() == bytes@.len() / 2,
            forall|i: int|
                0 <= i < r.words@.len() ==> #[trigger] r.words@[i] as int == bytes@[2 * i] + 256
                    * bytes@[2 * i + 1],
    {
        let blen = bytes.len();
        let n = blen / 2;
        let mut words: Vec<u16> = Vec::new();
        let mut i: usize = 0;
        while i < n
            invariant
                blen == bytes@.len(),
                n == bytes@.len() / 2,
                i <= n,
                words@.len() == i,
                forall|k: int|
                    0 <= k < i ==> #[trigger] words@[k] as int == bytes@[2 * k] + 256 * bytes@[2 * k
                        + 1],
            decreases n - i,
        {
            words.push(bytes[2 * i] as u16 + (bytes[2 * i + 1] as u16) * 256);
            i += 1;
        }
        FTable { source, words }
    }

    /// Number of file ids the table covers, saturated to `u32`.
    pub fn len(&self) -> (r: u32)
        ensures
            r as int == if self.words@.len() <= u32::MAX {
                self.words@.len() as int
            } else {
                u32::MAX as int
            },
    {
        if self.words.len() as u64 <= u32::MAX as u64 {
            self.words.len() as u32
        } else {
            u32::MAX
        }
    }

    /// Where `file_id` sits, when the table covers it.
    pub fn sub_path(&self, file_id: u32) -> (r: Option<SubPath>)
        ensures
            r == if file_id < self.words@.len() {
                Some(spec_sub_path(self.words@[file_id as int]))
            } else {
                None::<SubPath>
            },
    {
        if (file_id as usize) < self.words.len() {
            let w = self.words[file_id as usize];
            Some(SubPath { dir: w / 128, file: w % 128 })
        } else {
            None
        }
    }

    pub fn source(&self) -> (r: &str)
        ensures
            r@ == self.source@,
    {
        self.source.as_str()
    }
}

/// A file's place in the install: its ROM directory and the path inside it.
#[derive(Debug, Clone, PartialEq, Eq)]
pub struct DatLocation {
    pub rom_dir: String,
    pub sub_path: SubPath,
}

/// The path `b` under `a`, as `Path::join` forms it: `b` itself when it is
/// absolute or `a` is empty, `a` then `b` when `a` already ends in a slash,
/// and `a`, a slash, then `b` otherwise.
pub open spec fn join(a: Seq<char>, b: Seq<char>) -> Seq<char> {
    if b.len() > 0 && b[0] == '/' {
        b
    } else if a.len() == 0 {
        b
    } else if a.last() == '/' {
        a + b
    } else {
        a + seq!['/'] + b
    }
}

/// `<root>/<rom_dir>/<dir>/<file>.<ext>`.
pub open spec fn spec_join_under(loc: DatLocation, root: Seq<char>, ext: Seq<char>) -> Seq<char> {
    join(
        join(join(root, loc.rom_dir@), dec(loc.sub_path.dir as nat)),
        dec(loc.sub_path.file as nat) + seq!['.'] + ext,
    )
}

pub(crate) fn join_chars(a: &Vec<char>, b: &Vec<char>) -> (r: Vec<char>)
    ensures
        r@ == join(a@, b@),
{
    let mut out: Vec<char> = Vec::new();
    if b.len() > 0 && b[0] == '/' {
        push_all(&mut out, b);
        proof {
            assert(out@ =~= join(a@, b@));
        }
        return out;
    }
    push_all(&mut out, a);
    if a.len() > 0 && a[a.len() - 1] != '/' {
        out.push('/');
    }
    push_all(&mut out, b);
    proof {
        assert(out@ =~= join(a@, b@));
    }
    out
}

fn decimal(n: u64) -> (r: Vec<char>)
    ensures
        r@ == dec(n as nat),
{
    let mut out: Vec<char> = Vec::new();
    push_decimal(&mut out, n, 0);
    proof {
        assert(out@ =~= dec(n as nat));
    }
    out
}

impl DatLocation {
    /// Where this file lives under `root`, overlays first, given which of its
    /// candidate paths name a file (see [`DatRoot::path_of`]).
    pub fn path_under(&self, root: &DatRoot, exists: &[bool]) -> (r: String)
        requires
            exists@.len() == 2 * root.spec_overlays().len() + 2,
        ensures
            r@ == match first_true(exists@) {
                Some(k) => spec_candidate(*root, *self, k),
                None => spec_join_under(*self, root.spec_root(), seq!['D', 'A', 'T']),
            },
    {
        root.path_of(self, exists)
    }

    /// The raw `<root>/<ROMn>/<dir>/<file>.DAT` path, with no overlay search.
    pub fn join_under(&self, root: &str) -> (r: String)
        ensures
            r@ == spec_join_under(*self, root@, seq!['D', 'A', 'T']),
    {
        proof {
            reveal_strlit("DAT");
        }
        self.join_under_ext(root, "DAT")
    }

    /// `<root>/<ROMn>/<dir>/<file>.<ext>`.
    pub fn join_under_ext(&self, root: &str, ext: &str) -> (r: String)
        ensures
            r@ == spec_join_under(*self, root@, ext@),
    {
        let a = join_chars(&chars_of(root), &chars_of(self.rom_dir.as_str()));
        let b = join_chars(&a, &decimal(self.sub_path.dir as u64));
        let mut f = decimal(self.sub_path.file as u64);
        f.push('.');
        push_all(&mut f, &chars_of(ext));
        let r = join_chars(&b, &f);
        proof {
            assert(f@ =~= dec(self.sub_path.file as nat) + seq!['.'] + ext@);
        }
        string_from_chars(r)
    }
}

/// A ROM left out of the merge because a table is not the size the base tables
/// dictate.
#[derive(Debug, Clone, PartialEq, Eq)]
pub struct TableSizeMismatch {
    pub rom_dir: String,
    pub path: String,
    pub len: u64,
    pub expected: u64,
}

/// Why the tables of `rom_dir` do not fit an id space of `count`: a VTABLE of
/// another length, or an FTABLE not two bytes per VTABLE entry.
pub open spec fn spec_table_check(vt: VTable, ft: FTable, count: int) -> Option<(Seq<char>, int, int)> {
    let vlen = if vt.rom_of@.len() <= u32::MAX { vt.rom_of@.len() as int } else { u32::MAX as int };
    let flen = if ft.words@.len() <= u32::MAX { ft.words@.len() as int } else { u32::MAX as int };
    if vlen != count {
        Some((vt.source@, vlen, count))
    } else if 2 * flen != 2 * vlen {
        Some((ft.source@, 2 * flen, 2 * vlen))
    } else {
        None
    }
}

/// Checks a ROM's tables against the id space the base tables dictate.
pub fn check_table_sizes(rom_dir: &str, vtable: &VTable, ftable: &FTable, file_id_count: u32) -> (r: Result<(), TableSizeMismatch>)
    ensures
        spec_table_check(*vtable, *ftable, file_id_count as int) is None <==> r is Ok,
        r matches Err(m) ==> {
            let e = spec_table_check(*vtable, *ftable, file_id_count as int)->0;
            &&& m.rom_dir@ == rom_dir@
            &&& m.path@ == e.0
            &&& m.len == e.1
            &&& m.expected == e.2
        },
{
    let vlen = vtable.len();
    if vlen != file_id_count {
        return Err(
            TableSizeMismatch {
                rom_dir: string_from_chars(chars_of(rom_dir)),
                path: string_from_chars(chars_of(vtable.source())),
                len: vlen as u64,
                expected: file_id_count as u64,
            },
        );
    }
    let flen: u64 = ftable.len() as u64;
    let ftable_bytes: u64 = flen * 2;
    let expected_ftable_bytes: u64 = vlen as u64 * 2;
    if ftable_bytes != expected_ftable_bytes {
        return Err(
            TableSizeMismatch {
                rom_dir: string_from_chars(chars_of(rom_dir)),
                path: string_from_chars(chars_of(ftable.source())),
                len: ftable_bytes,
                expected: expected_ftable_bytes,
            },
        );
    }
    Ok(())
}

/// A ROM's tables as read from the install, in probe order.
#[derive(Debug, Clone)]
pub struct RomTables {
    pub rom_index: u8,
    pub vtable: VTable,
    pub ftable: FTable,
}

/// A ROM whose tables the merge accepted.
#[derive(Debug, Clone)]
pub struct AppTables {
    pub rom_index: u8,
    pub rom_dir: String,
    pub vtable: VTable,
    pub ftable: FTable,
}

/// The directory name of ROM `i`: `ROM` for the base install, `ROM<i>` otherwise.
pub open spec fn spec_rom_dir(i: u8) -> Seq<char> {
    if i == BASE_ROM_INDEX {
        seq!['R', 'O', 'M']
    } else {
        seq!['R', 'O', 'M'] + dec(i as nat)
    }
}

/// A table's length as the archive reports it: saturated to `u32`.
pub open spec fn sat_len(n: nat) -> int {
    if n <= u32::MAX {
        n as int
    } else {
        u32::MAX as int
    }
}

/// The merge of `ts`, in order: the indices it accepts and, for the rest, the
/// index and the mismatch. A ROM is checked against the id space of the first
/// ROM accepted, or against its own VTABLE when none is yet.
pub open spec fn spec_merge(ts: Seq<RomTables>) -> (Seq<int>, Seq<(int, (Seq<char>, int, int))>)
    decreases ts.len(),
{
    if ts.len() == 0 {
        (Seq::empty(), Seq::empty())
    } else {
        let (acc, rej) = spec_merge(ts.drop_last());
        let t = ts.last();
        let count = if acc.len() == 0 {
            sat_len(t.vtable.rom_of@.len())
        } else {
            sat_len(ts[acc[0]].vtable.rom_of@.len())
        };
        match spec_table_check(t.vtable, t.ftable, count) {
            None => (acc.push(ts.len() - 1), rej),
            Some(m) => (acc, rej.push((ts.len() - 1, m))),
        }
    }
}

/// Whether ROM table set `a` claims `file_id`.
pub open spec fn claims(a: AppTables, file_id: u32) -> bool {
    file_id < a.vtable.rom_of@.len() && a.vtable.rom_of@[file_id as int] == a.rom_index
}

/// The last of the first `n` accepted ROMs that claims `file_id`.
pub open spec fn owner(apps: Seq<AppTables>, file_id: u32, n: int) -> Option<int>
    decreases n,
{
    if n <= 0 {
        None
    } else if claims(apps[n - 1], file_id) {
        Some(n - 1)
    } else {
        owner(apps, file_id, n - 1)
    }
}

/// The accepted ROMs hold together: at least one, ascending ROM indices, and
/// every FTABLE as long as its VTABLE.
pub open spec fn apps_wf(apps: Seq<AppTables>) -> bool {
    &&& apps.len() > 0
    &&& forall|k: int| 0 <= k < apps.len() ==> (#[trigger] apps[k]).vtable.rom_of@.len() <= u32::MAX
    &&& forall|j: int, k: int| 0 <= j < k < apps.len() ==> apps[j].rom_index < apps[k].rom_index
    &&& forall|k: int|
        0 <= k < apps.len() ==> sat_len((#[trigger] apps[k]).ftable.words@.len()) == sat_len(
            apps[k].vtable.rom_of@.len(),
        )
}

/// An opened install: the accepted ROMs' tables, the ROMs left out, and the
/// overlay roots searched before the base install.
#[derive(Debug)]
pub struct DatRoot {
    root: String,
    apps: Vec<AppTables>,
    skipped: Vec<TableSizeMismatch>,
    overlays: Vec<String>,
}

impl DatRoot {
    #[verifier::type_invariant]
    spec fn inv(&self) -> bool {
        apps_wf(self.apps@)
    }

    pub closed spec fn spec_root(&self) -> Seq<char> {
        self.root@
    }

    pub closed spec fn spec_apps(&self) -> Seq<AppTables> {
        self.apps@
    }

    pub closed spec fn spec_skipped(&self) -> Seq<TableSizeMismatch> {
        self.skipped@
    }

    pub closed spec fn spec_overlays(&self) -> Seq<Seq<char>> {
        self.overlays@.map_values(|o: String| o@)
    }
}

fn rom_dir_name(i: u8) -> (r: String)
    ensures
        r@ == spec_rom_dir(i),
{
    let mut out: Vec<char> = vec!['R', 'O', 'M'];
    if i != BASE_ROM_INDEX {
        push_decimal(&mut out, i as u64, 0);
        proof {
            assert(zero_pad(dec(i as nat), 0) == dec(i as nat));
        }
    }
    proof {
        if i == BASE_ROM_INDEX {
            assert(out@ =~= seq!['R', 'O', 'M']);
        } else {
            assert(out@ =~= seq!['R', 'O', 'M'] + dec(i as nat));
        }
    }
    string_from_chars(out)
}

fn copy_strings(v: &Vec<String>) -> (r: Vec<String>)
    ensures
        r@.map_values(|o: String| o@) == v@.map_values(|o: String| o@),
{
    let mut out: Vec<String> = Vec::new();
    let mut i: usize = 0;
    while i < v.len()
        invariant
            i <= v@.len(),
            out@.len() == i,
            forall|k: int| 0 <= k < i ==> (#[trigger] out@[k])@ == v@[k]@,
        decreases v.len() - i,
    {
        out.push(v[i].clone());
        i += 1;
    }
    assert(out@.map_values(|o: String| o@) =~= v@.map_values(|o: String| o@));
    out
}

/// Why an install with no usable ROM tables is refused.
/// What follows the root in the refusal of an install being updated.
pub const BEING_UPDATED: &'static str = " is being updated: ";
pub const NO_TABLES_REASON: &'static str = "no VTABLE.DAT or VTABLEN.DAT found under root";
pub const BASE_VTABLE: &'static str = "VTABLE.DAT";

/// `apps` are the tables of `ts` the indices `acc` pick, with their directory names.
pub open spec fn apps_match(apps: Seq<AppTables>, ts: Seq<RomTables>, acc: Seq<int>) -> bool {
    &&& apps.len() == acc.len()
    &&& forall|k: int|
        0 <= k < acc.len() ==> {
            let t = ts[acc[k]];
            let a = #[trigger] apps[k];
            &&& a.rom_index == t.rom_index
            &&& a.rom_dir@ == spec_rom_dir(t.rom_index)
            &&& a.vtable == t.vtable
            &&& a.ftable == t.ftable
        }
}

/// `skipped` reports the rejections `rej` of `ts`.
pub open spec fn skipped_match(
    skipped: Seq<TableSizeMismatch>,
    ts: Seq<RomTables>,
    rej: Seq<(int, (Seq<char>, int, int))>,
) -> bool {
    &&& skipped.len() == rej.len()
    &&& forall|k: int|
        0 <= k < rej.len() ==> {
            let m = #[trigger] skipped[k];
            &&& m.rom_dir@ == spec_rom_dir(ts[rej[k].0].rom_index)
            &&& m.path@ == rej[k].1.0
            &&& m.len == rej[k].1.1
            &&& m.expected == rej[k].1.2
        }
}

proof fn lemma_merge_indices(ts: Seq<RomTables>)
    ensures
        forall|k: int| 0 <= k < spec_merge(ts).0.len() ==> 0 <= #[trigger] spec_merge(ts).0[k] < ts.len(),
        forall|k: int| 0 <= k < spec_merge(ts).1.len() ==> 0 <= #[trigger] spec_merge(ts).1[k].0 < ts.len(),
    decreases ts.len(),
{
    if ts.len() > 0 {
        let pre = ts.drop_last();
        lemma_merge_indices(pre);
        let (acc, rej) = spec_merge(pre);
        let t = ts.last();
        let count = if acc.len() == 0 {
            sat_len(t.vtable.rom_of@.len())
        } else {
            sat_len(ts[acc[0]].vtable.rom_of@.len())
        };
        match spec_table_check(t.vtable, t.ftable, count) {
            None => {
                assert(spec_merge(ts) == (acc.push(ts.len() - 1), rej));
            },
            Some(m) => {
                assert(spec_merge(ts) == (acc, rej.push((ts.len() - 1, m))));
            },
        }
    }
}

/// A ROM's VTABLE length as the archive reports it.
pub open spec fn vlen(t: RomTables) -> int {
    sat_len(t.vtable.rom_of@.len())
}

/// The first ROM whose two tables agree with each other: its VTABLE sets the
/// id space every later ROM must fit.
pub open spec fn first_fit(ts: Seq<RomTables>) -> Option<int>
    decreases ts.len(),
{
    if ts.len() == 0 {
        None
    } else {
        match first_fit(ts.drop_last()) {
            Some(f) => Some(f),
            None => if spec_table_check(ts.last().vtable, ts.last().ftable, vlen(ts.last())) is None {
                Some(ts.len() - 1)
            } else {
                None
            },
        }
    }
}

/// Why ROM `i` is left out, if it is: a ROM after the first fitting one is
/// checked against that ROM's id space, any other against its own VTABLE.
pub open spec fn mismatch(ts: Seq<RomTables>, i: int) -> Option<(Seq<char>, int, int)> {
    match first_fit(ts) {
        Some(f) => if i > f {
            spec_table_check(ts[i].vtable, ts[i].ftable, vlen(ts[f]))
        } else {
            spec_table_check(ts[i].vtable, ts[i].ftable, vlen(ts[i]))
        },
        None => spec_table_check(ts[i].vtable, ts[i].ftable, vlen(ts[i])),
    }
}

proof fn lemma_first_fit_is_first(ts: Seq<RomTables>, i: int)
    requires
        0 <= i < ts.len(),
        spec_table_check(ts[i].vtable, ts[i].ftable, vlen(ts[i])) is None,
    ensures
        first_fit(ts) matches Some(f) && 0 <= f <= i,
    decreases ts.len(),
{
    let pre = ts.drop_last();
    lemma_first_fit_bound(pre);
    if i < ts.len() - 1 {
        assert(pre[i] == ts[i]);
        lemma_first_fit_is_first(pre, i);
    } else {
        assert(ts.last() == ts[i]);
    }
}

proof fn lemma_first_fit_bound(ts: Seq<RomTables>)
    ensures
        first_fit(ts) matches Some(f) ==> 0 <= f < ts.len(),
    decreases ts.len(),
{
    if ts.len() > 0 {
        lemma_first_fit_bound(ts.drop_last());
    }
}

proof fn lemma_merge_verdicts(ts: Seq<RomTables>)
    ensures
        ({
            let (acc, rej) = spec_merge(ts);
            &&& (acc.len() > 0) == (first_fit(ts) is Some)
            &&& acc.len() > 0 ==> first_fit(ts) == Some(acc[0])
            &&& forall|k: int| 0 <= k < acc.len() ==> 0 <= #[trigger] acc[k] < ts.len()
            &&& forall|i: int| 0 <= i < ts.len() ==> (acc.contains(i) <==> #[trigger] mismatch(ts, i) is None)
            &&& forall|k: int|
                0 <= k < rej.len() ==> 0 <= (#[trigger] rej[k]).0 < ts.len() && mismatch(ts, rej[k].0) == Some(
                    rej[k].1,
                )
            &&& forall|i: int|
                0 <= i < ts.len() && #[trigger] mismatch(ts, i) is Some ==> exists|k: int|
                    0 <= k < rej.len() && (#[trigger] rej[k]).0 == i
        }),
    decreases ts.len(),
{
    if ts.len() > 0 {
        let pre = ts.drop_last();
        lemma_merge_verdicts(pre);
        let (acc, rej) = spec_merge(pre);
        let n = ts.len() - 1;
        let t = ts.last();
        assert(forall|i: int| 0 <= i < n ==> ts[i] == pre[i]);
        assert(first_fit(pre) is Some ==> first_fit(ts) == first_fit(pre));
        assert forall|i: int| 0 <= i < n implies mismatch(ts, i) == mismatch(pre, i) by {
            assert(ts[i] == pre[i]);
            if first_fit(pre) is Some {
                assert(ts[first_fit(pre)->0] == pre[first_fit(pre)->0]);
            }
        }
        let count = if acc.len() == 0 {
            vlen(t)
        } else {
            vlen(ts[acc[0]])
        };
        if acc.len() > 0 {
            assert(ts[acc[0]] == pre[acc[0]]);
        }
        assert(mismatch(ts, n) == spec_table_check(t.vtable, t.ftable, count));
        match spec_table_check(t.vtable, t.ftable, count) {
            None => {
                let acc2 = acc.push(n);
                assert(spec_merge(ts) == (acc2, rej));
                assert forall|i: int| 0 <= i < ts.len() implies (acc2.contains(i) <==> #[trigger] mismatch(
                    ts,
                    i,
                ) is None) by {
                    if i < n {
                        if acc.contains(i) {
                            let k = choose|k: int| 0 <= k < acc.len() && acc[k] == i;
                            assert(acc2[k] == i);
                        }
                        if acc2.contains(i) {
                            let k = choose|k: int| 0 <= k < acc2.len() && acc2[k] == i;
                            assert(k < acc.len());
                            assert(acc.contains(i));
                        }
                    } else {
                        assert(acc2[acc.len() as int] == n);
                    }
                }
                assert forall|i: int|
                    0 <= i < ts.len() && #[trigger] mismatch(ts, i) is Some implies exists|k: int|
                        0 <= k < rej.len() && (#[trigger] rej[k]).0 == i by {
                    assert(i < n);
                }
            },
            Some(m) => {
                let rej2 = rej.push((n, m));
                assert(spec_merge(ts) == (acc, rej2));
                assert forall|i: int| 0 <= i < ts.len() implies (acc.contains(i) <==> #[trigger] mismatch(
                    ts,
                    i,
                ) is None) by {
                    if i == n && acc.contains(i) {
                        let k = choose|k: int| 0 <= k < acc.len() && acc[k] == i;
                    }
                }
                assert forall|k: int| 0 <= k < rej2.len() implies 0 <= (#[trigger] rej2[k]).0 < ts.len()
                    && mismatch(ts, rej2[k].0) == Some(rej2[k].1) by {
                    if k < rej.len() {
                        assert(rej2[k] == rej[k]);
                    }
                }
                assert forall|i: int|
                    0 <= i < ts.len() && #[trigger] mismatch(ts, i) is Some implies exists|k: int|
                        0 <= k < rej2.len() && (#[trigger] rej2[k]).0 == i by {
                    if i == n {
                        assert(rej2[rej.len() as int].0 == i);
                    } else {
                        let k = choose|k: int| 0 <= k < rej.len() && (#[trigger] rej[k]).0 == i;
                        assert(rej2[k] == rej[k]);
                    }
                }
            },
        }
    }
}

/// `m` reports ROM `i` as left out: its directory, the table that did not
/// fit, that table's size and the size it should have had.
pub open spec fn reports(m: TableSizeMismatch, ts: Seq<RomTables>, i: int) -> bool {
    &&& m.rom_dir@ == spec_rom_dir(ts[i].rom_index)
    &&& match mismatch(ts, i) {
        Some((path, len, expected)) => m.path@ == path && m.len == len && m.expected == expected,
        None => false,
    }
}

/// `m` reports one of the ROMs of `ts` as left out.
pub open spec fn reports_some(m: TableSizeMismatch, ts: Seq<RomTables>) -> bool {
    exists|i: int| 0 <= i < ts.len() && #[trigger] reports(m, ts, i)
}

/// What an opened install keeps of the ROM tables it read: the first ROM whose
/// two tables agree sets the id space (`file_id_count`), every accepted ROM
/// has a VTABLE of that length and an FTABLE of two bytes per id, a ROM is
/// accepted exactly when [`mismatch`] finds nothing wrong with it, and every
/// ROM left out is reported once with the table that did not fit, its size
/// and the size it should have had. A ROM left out is no accepted ROM, so it
/// claims no file id in [`DatRoot::resolve`].
pub proof fn law_open_keeps_exactly_the_tables_that_fit(tables: Seq<RomTables>, d: DatRoot)
    requires
        forall|j: int, k: int| 0 <= j < k < tables.len() ==> tables[j].rom_index < tables[k].rom_index,
        apps_match(d.spec_apps(), tables, spec_merge(tables).0),
        skipped_match(d.spec_skipped(), tables, spec_merge(tables).1),
        d.spec_apps().len() > 0,
    ensures
        first_fit(tables) is Some,
        sat_len(d.spec_apps()[0].vtable.rom_of@.len()) == vlen(tables[first_fit(tables)->0]),
        forall|j: int|
            0 <= j < d.spec_apps().len() ==> sat_len((#[trigger] d.spec_apps()[j]).vtable.rom_of@.len()) == vlen(
                tables[first_fit(tables)->0],
            ) && sat_len(d.spec_apps()[j].ftable.words@.len()) == vlen(tables[first_fit(tables)->0]),
        forall|i: int|
            0 <= i < tables.len() ==> ((exists|j: int|
                0 <= j < d.spec_apps().len() && (#[trigger] d.spec_apps()[j]).rom_index == tables[i].rom_index)
                <==> #[trigger] mismatch(tables, i) is None),
        forall|i: int|
            0 <= i < tables.len() && #[trigger] mismatch(tables, i) is Some ==> exists|k: int|
                0 <= k < d.spec_skipped().len() && #[trigger] reports(d.spec_skipped()[k], tables, i),
        forall|k: int| 0 <= k < d.spec_skipped().len() ==> reports_some(#[trigger] d.spec_skipped()[k], tables),
{
    lemma_merge_verdicts(tables);
    let (acc, rej) = spec_merge(tables);
    let apps = d.spec_apps();
    let sk = d.spec_skipped();
    let f = first_fit(tables)->0;
    assert(acc[0] == f);
    assert forall|j: int| 0 <= j < apps.len() implies sat_len((#[trigger] apps[j]).vtable.rom_of@.len()) == vlen(
        tables[f],
    ) && sat_len(apps[j].ftable.words@.len()) == vlen(tables[f]) by {
        let i = acc[j];
        assert(acc.contains(i));
        assert(mismatch(tables, i) is None);
        if i < f {
            lemma_first_fit_is_first(tables, i);
        }
        assert(apps[j].vtable == tables[i].vtable);
        assert(apps[j].ftable == tables[i].ftable);
    }
    assert forall|i: int| 0 <= i < tables.len() implies ((exists|j: int|
        0 <= j < apps.len() && (#[trigger] apps[j]).rom_index == tables[i].rom_index) <==> #[trigger] mismatch(
        tables,
        i,
    ) is None) by {
        if mismatch(tables, i) is None {
            assert(acc.contains(i));
            let j = choose|j: int| 0 <= j < acc.len() && acc[j] == i;
            assert(apps[j].rom_index == tables[i].rom_index);
        }
        if exists|j: int| 0 <= j < apps.len() && (#[trigger] apps[j]).rom_index == tables[i].rom_index {
            let j = choose|j: int| 0 <= j < apps.len() && (#[trigger] apps[j]).rom_index == tables[i].rom_index;
            let i2 = acc[j];
            assert(tables[i2].rom_index == tables[i].rom_index);
            assert(i2 == i);
            assert(acc.contains(i));
        }
    }
    assert forall|i: int| 0 <= i < tables.len() && #[trigger] mismatch(tables, i) is Some implies exists|k: int|
        0 <= k < sk.len() && #[trigger] reports(sk[k], tables, i) by {
        let k = choose|k: int| 0 <= k < rej.len() && (#[trigger] rej[k]).0 == i;
        assert(sk[k].rom_dir@ == spec_rom_dir(tables[i].rom_index));
        assert(reports(sk[k], tables, i));
    }
    assert forall|k: int| 0 <= k < d.spec_skipped().len() implies reports_some(
        #[trigger] d.spec_skipped()[k],
        tables,
    ) by {
        let i = rej[k].0;
        assert(0 <= i < tables.len());
        assert(mismatch(tables, i) == Some(rej[k].1));
        assert(d.spec_skipped()[k].rom_dir@ == spec_rom_dir(tables[i].rom_index));
        assert(reports(d.spec_skipped()[k], tables, i));
    }
}

impl DatRoot {
    /// Why the install at `root` may not be opened, given how taking its lock
/// failed: an updater holding it refuses the install; any other failure (a
/// read-only root) only loses the lock, and the install opens.
    pub fn refusal_while_updating(root: &str, lock_failure: &crate::install::lock::LockError) -> (r: Option<DatError>)
    ensures
        r is Some <==> lock_failure is Held,
        r matches Some(e) ==> (e matches DatError::NoInstall { reason } && reason@ == root@ + BEING_UPDATED@
            + crate::install::lock::spec_lock_message(*lock_failure)),
{
    if !lock_failure.is_held() {
        return None;
    }
    let mut out = chars_of(root);
    push_all(&mut out, &chars_of(BEING_UPDATED));
    push_all(&mut out, &chars_of(lock_failure.message().as_str()));
    Some(DatError::NoInstall { reason: string_from_chars(out) })
}

/// Merges the ROM tables read from the install at `root`, given in probe
    /// order (ascending ROM index): a ROM whose tables do not fit the id space of
    /// the first accepted one is left out and reported. Refused when no ROM is
    /// accepted.
    pub fn open(root: String, tables: Vec<RomTables>, overlays: Vec<String>) -> (r: Result<DatRoot, DatError>)
        requires
            forall|j: int, k: int| 0 <= j < k < tables@.len() ==> tables@[j].rom_index < tables@[k].rom_index,
            forall|k: int| 0 <= k < tables@.len() ==> (#[trigger] tables@[k]).vtable.rom_of@.len() <= u32::MAX,
        ensures
            r is Err <==> spec_merge(tables@).0.len() == 0,
            r matches Err(e) ==> e matches DatError::Io { path, reason } && path@ == join(root@, BASE_VTABLE@)
                && reason@ == NO_TABLES_REASON@,
            r matches Ok(d) ==> {
                &&& d.spec_root() == root@
                &&& d.spec_overlays() == overlays@.map_values(|o: String| o@)
                &&& apps_match(d.spec_apps(), tables@, spec_merge(tables@).0)
                &&& skipped_match(d.spec_skipped(), tables@, spec_merge(tables@).1)
            },
    {
        let ghost ts = tables@;
        let n = tables.len();
        let mut rest = tables;
        let mut apps: Vec<AppTables> = Vec::new();
        let mut skipped: Vec<TableSizeMismatch> = Vec::new();
        let mut k: usize = 0;
        assert(ts.take(0) =~= Seq::<RomTables>::empty());
        while k < n
            invariant
                n == ts.len(),
                k <= n,
                rest@ == ts.subrange(k as int, n as int),
                forall|j: int, l: int| 0 <= j < l < ts.len() ==> ts[j].rom_index < ts[l].rom_index,
                forall|j: int| 0 <= j < ts.len() ==> (#[trigger] ts[j]).vtable.rom_of@.len() <= u32::MAX,
                forall|j: int| 0 <= j < apps@.len() ==> (#[trigger] apps@[j]).vtable.rom_of@.len() <= u32::MAX,
                apps_match(apps@, ts, spec_merge(ts.take(k as int)).0),
                skipped_match(skipped@, ts, spec_merge(ts.take(k as int)).1),
                forall|j: int, i: int|
                    0 <= j < apps@.len() && k <= i < n ==> (#[trigger] apps@[j]).rom_index < (#[trigger] ts[i]).rom_index,
                forall|j: int, l: int| 0 <= j < l < apps@.len() ==> apps@[j].rom_index < apps@[l].rom_index,
                forall|j: int|
                    0 <= j < apps@.len() ==> sat_len((#[trigger] apps@[j]).ftable.words@.len()) == sat_len(
                        apps@[j].vtable.rom_of@.len(),
                    ),
            decreases n - k,
        {
            let t = rest.remove(0);
            assert(t == ts[k as int]);
            proof {
                let pre = ts.take(k as int);
                assert(ts.take(k + 1).drop_last() =~= pre);
                assert(ts.take(k + 1).last() == ts[k as int]);
                lemma_merge_indices(pre);
                let acc = spec_merge(pre).0;
                if acc.len() > 0 {
                    assert(ts.take(k + 1)[acc[0]] == ts[acc[0]]);
                }
            }
            let RomTables { rom_index, vtable, ftable } = t;
            let rom_dir = rom_dir_name(rom_index);
            let count = if apps.len() == 0 {
                vtable.len()
            } else {
                apps[0].vtable.len()
            };
            match check_table_sizes(rom_dir.as_str(), &vtable, &ftable, count) {
                Ok(()) => {
                    apps.push(AppTables { rom_index, rom_dir, vtable, ftable });
                },
                Err(m) => {
                    skipped.push(m);
                },
            }
            k += 1;
            proof {
                assert(rest@ =~= ts.subrange(k as int, n as int));
            }
        }
        assert(ts.take(n as int) =~= ts);
        if apps.len() == 0 {
            let path = string_from_chars(join_chars(&chars_of(root.as_str()), &chars_of(BASE_VTABLE)));
            let reason = string_from_chars(chars_of(NO_TABLES_REASON));
            return Err(DatError::Io { path, reason });
        }
        let d = DatRoot { root, apps, skipped, overlays };
        proof {
            assert(d.spec_overlays() == overlays@.map_values(|o: String| o@));
        }
        Ok(d)
    }

    /// Replaces the overlay search path.
    pub fn with_overlays(self, overlays: Vec<String>) -> (r: DatRoot)
        ensures
            r.spec_root() == self.spec_root(),
            r.spec_apps() == self.spec_apps(),
            r.spec_skipped() == self.spec_skipped(),
            r.spec_overlays() == overlays@.map_values(|o: String| o@),
    {
        let mut s = self;
        s.set_overlays(overlays);
        s
    }

    /// Swaps the overlay search path on a live root; only later lookups see it.
    pub fn set_overlays(&mut self, overlays: Vec<String>)
        ensures
            final(self).spec_root() == old(self).spec_root(),
            final(self).spec_apps() == old(self).spec_apps(),
            final(self).spec_skipped() == old(self).spec_skipped(),
            final(self).spec_overlays() == overlays@.map_values(|o: String| o@),
    {
        proof {
            use_type_invariant(&*self);
        }
        self.overlays = overlays;
    }

    /// The overlay roots, in search order.
    pub fn overlays(&self) -> (r: Vec<String>)
        ensures
            r@.map_values(|o: String| o@) == self.spec_overlays(),
    {
        copy_strings(&self.overlays)
    }

    /// Where a location may live, in the order a reader should try them: under
    /// each overlay and then the base install, each with `.DAT` before `.dat`.
    pub fn candidate_paths(&self, loc: &DatLocation) -> (r: Vec<String>)
        ensures
            r@.len() == 2 * self.spec_overlays().len() + 2,
            forall|j: int|
                0 <= j < 2 * self.spec_overlays().len() ==> (#[trigger] r@[j])@ == spec_join_under(
                    *loc,
                    self.spec_overlays()[j / 2],
                    if j % 2 == 0 { seq!['D', 'A', 'T'] } else { seq!['d', 'a', 't'] },
                ),
            r@[2 * self.spec_overlays().len() as int]@ == spec_join_under(*loc, self.spec_root(), seq!['D', 'A', 'T']),
            r@[2 * self.spec_overlays().len() as int + 1]@ == spec_join_under(*loc, self.spec_root(), seq!['d', 'a', 't']),
    {
        proof {
            reveal_strlit("DAT");
            reveal_strlit("dat");
        }
        let mut out: Vec<String> = Vec::new();
        let mut i: usize = 0;
        while i < self.overlays.len()
            invariant
                i <= self.overlays@.len(),
                out@.len() == 2 * i,
                "DAT"@ == seq!['D', 'A', 'T'],
                "dat"@ == seq!['d', 'a', 't'],
                forall|j: int|
                    0 <= j < 2 * i ==> (#[trigger] out@[j])@ == spec_join_under(
                        *loc,
                        self.overlays@[j / 2]@,
                        if j % 2 == 0 { seq!['D', 'A', 'T'] } else { seq!['d', 'a', 't'] },
                    ),
            decreases self.overlays.len() - i,
        {
            out.push(loc.join_under_ext(self.overlays[i].as_str(), "DAT"));
            out.push(loc.join_under_ext(self.overlays[i].as_str(), "dat"));
            i += 1;
        }
        out.push(loc.join_under_ext(self.root.as_str(), "DAT"));
        out.push(loc.join_under_ext(self.root.as_str(), "dat"));
        out
    }
}

/// The index of the first `true`.
pub open spec fn first_true(s: Seq<bool>) -> Option<int>
    decreases s.len(),
{
    if s.len() == 0 {
        None
    } else {
        match first_true(s.drop_last()) {
            Some(k) => Some(k),
            None => if s.last() {
                Some(s.len() - 1)
            } else {
                None
            },
        }
    }
}

proof fn lemma_first_true_take(s: Seq<bool>, i: int)
    requires
        0 <= i < s.len(),
        first_true(s.take(i)) is None,
    ensures
        first_true(s.take(i + 1)) == if s[i] {
            Some(i)
        } else {
            None::<int>
        },
{
    assert(s.take(i + 1).drop_last() =~= s.take(i));
}

proof fn lemma_first_true_extend(s: Seq<bool>, i: int)
    requires
        0 < i <= s.len(),
        first_true(s.take(i)) is Some,
    ensures
        first_true(s) == first_true(s.take(i)),
    decreases s.len() - i,
{
    if i < s.len() {
        assert(s.take(i + 1).drop_last() =~= s.take(i));
        lemma_first_true_extend(s, i + 1);
    } else {
        assert(s.take(i) =~= s);
    }
}

/// Candidate `j` of a location under a root: the overlays' spellings in order,
/// then the base install's.
pub open spec fn spec_candidate(root: DatRoot, loc: DatLocation, j: int) -> Seq<char> {
    let n = root.spec_overlays().len();
    if j < 2 * n {
        spec_join_under(loc, root.spec_overlays()[j / 2], if j % 2 == 0 { seq!['D', 'A', 'T'] } else { seq!['d', 'a', 't'] })
    } else {
        spec_join_under(loc, root.spec_root(), if j % 2 == 0 { seq!['D', 'A', 'T'] } else { seq!['d', 'a', 't'] })
    }
}

impl DatRoot {
    /// Where a location resolves, given which of its candidate paths (in the
    /// order [`DatRoot::candidate_paths`] gives them) name a file: the first that
    /// does, else the raw `.DAT` join under the base install, so a missing file
    /// surfaces as a read error at the path the caller expects.
    pub fn path_of(&self, loc: &DatLocation, exists: &[bool]) -> (r: String)
        requires
            exists@.len() == 2 * self.spec_overlays().len() + 2,
        ensures
            r@ == match first_true(exists@) {
                Some(k) => spec_candidate(*self, *loc, k),
                None => spec_join_under(*loc, self.spec_root(), seq!['D', 'A', 'T']),
            },
    {
        let mut cands = self.candidate_paths(loc);
        let n = exists.len();
        let ghost all = cands@;
        let mut i: usize = 0;
        assert(exists@.take(0) =~= Seq::<bool>::empty());
        while i < n
            invariant
                i <= n,
                n == exists@.len(),
                n == 2 * self.spec_overlays().len() + 2,
                cands@ == all,
                all.len() == n,
                forall|j: int| 0 <= j < n ==> (#[trigger] all[j])@ == spec_candidate(*self, *loc, j),
                first_true(exists@.take(i as int)) is None,
            decreases n - i,
        {
            proof {
                lemma_first_true_take(exists@, i as int);
            }
            if exists[i] {
                proof {
                    lemma_first_true_extend(exists@, i + 1);
                }
                return cands.remove(i);
            }
            i += 1;
        }
        proof {
            assert(exists@.take(n as int) =~= exists@);
        }
        loc.join_under(self.root.as_str())
    }
}

impl DatRoot {
    pub fn root(&self) -> (r: &str)
        ensures
            r@ == self.spec_root(),
    {
        self.root.as_str()
    }

    /// Each accepted ROM's directory with its VTABLE and FTABLE lengths.
    pub fn app_summary(&self) -> (r: Vec<(String, u32, u32)>)
        ensures
            r@.len() == self.spec_apps().len(),
            forall|k: int|
                0 <= k < r@.len() ==> {
                    let a = self.spec_apps()[k];
                    &&& (#[trigger] r@[k]).0@ == a.rom_dir@
                    &&& r@[k].1 == sat_len(a.vtable.rom_of@.len())
                    &&& r@[k].2 == sat_len(a.ftable.words@.len())
                },
    {
        let mut out: Vec<(String, u32, u32)> = Vec::new();
        let mut i: usize = 0;
        while i < self.apps.len()
            invariant
                i <= self.apps@.len(),
                out@.len() == i,
                forall|k: int|
                    0 <= k < i ==> {
                        let a = self.apps@[k];
                        &&& (#[trigger] out@[k]).0@ == a.rom_dir@
                        &&& out@[k].1 == sat_len(a.vtable.rom_of@.len())
                        &&& out@[k].2 == sat_len(a.ftable.words@.len())
                    },
            decreases self.apps.len() - i,
        {
            let a = &self.apps[i];
            out.push((a.rom_dir.clone(), a.vtable.len(), a.ftable.len()));
            i += 1;
        }
        out
    }

    /// The lobby's `excode_client` mask this install's accepted ROMs describe.
    pub fn excode_client(&self) -> (m: u16)
        ensures
            m == crate::expansion::spec_excode(rom_indices(self.spec_apps())),
    {
        let mut present: Vec<u8> = Vec::new();
        let mut i: usize = 0;
        while i < self.apps.len()
            invariant
                i <= self.apps@.len(),
                present@ == self.apps@.take(i as int).map_values(|a: AppTables| a.rom_index),
            decreases self.apps.len() - i,
        {
            present.push(self.apps[i].rom_index);
            i += 1;
            proof {
                assert(present@ =~= self.apps@.take(i as int).map_values(|a: AppTables| a.rom_index));
            }
        }
        proof {
            assert(self.apps@.take(i as int) =~= self.apps@);
        }
        crate::expansion::excode_client_from_rom_indices(present.as_slice())
    }

    /// The ROMs whose tables were left out at open.
    pub fn skipped_tables(&self) -> (r: &[TableSizeMismatch])
        ensures
            r@ == self.spec_skipped(),
    {
        self.skipped.as_slice()
    }

    /// Size of the file-id space: the first accepted VTABLE's length, which every
    /// accepted table matches.
    pub fn file_id_count(&self) -> (r: u32)
        ensures
            r == sat_len(self.spec_apps()[0].vtable.rom_of@.len()),
    {
        proof {
            use_type_invariant(self);
        }
        self.apps[0].vtable.len()
    }

    /// Where `file_id` lives: the last-merged (highest) ROM claiming it owns it,
    /// shadowing any earlier claim; not present when no ROM claims it.
    pub fn resolve(&self, file_id: u32) -> (r: Result<DatLocation, DatError>)
        ensures
            r is Ok <==> owner(self.spec_apps(), file_id, self.spec_apps().len() as int) is Some,
            r matches Err(e) ==> e == (DatError::FileNotPresent { file_id }),
            r matches Ok(loc) ==> {
                let k = owner(self.spec_apps(), file_id, self.spec_apps().len() as int)->0;
                let a = self.spec_apps()[k];
                &&& 0 <= k < self.spec_apps().len()
                &&& claims(a, file_id)
                &&& forall|j: int| k < j < self.spec_apps().len() ==> !claims(#[trigger] self.spec_apps()[j], file_id)
                &&& forall|j: int|
                    0 <= j < self.spec_apps().len() && claims(#[trigger] self.spec_apps()[j], file_id)
                        ==> self.spec_apps()[j].rom_index <= a.rom_index
                &&& loc.rom_dir@ == a.rom_dir@
                &&& loc.sub_path == spec_sub_path(a.ftable.words@[file_id as int])
            },
    {
        proof {
            use_type_invariant(self);
        }
        let mut i = self.apps.len();
        while i > 0
            invariant
                i <= self.apps@.len(),
                apps_wf(self.apps@),
                owner(self.apps@, file_id, self.apps@.len() as int) == owner(self.apps@, file_id, i as int),
                forall|j: int| i <= j < self.apps@.len() ==> !claims(#[trigger] self.apps@[j], file_id),
            decreases i,
        {
            let app = &self.apps[i - 1];
            if app.vtable.contains(file_id, app.rom_index) {
                let sub = app.ftable.sub_path(file_id);
                proof {
                    let a = self.apps@[i - 1];
                    assert(a.vtable.rom_of@.len() <= u32::MAX);
                    assert(sat_len(a.ftable.words@.len()) == sat_len(a.vtable.rom_of@.len()));
                    assert(owner(self.apps@, file_id, i as int) == Some((i - 1) as int));
                    assert forall|j: int|
                        0 <= j < self.apps@.len() && claims(#[trigger] self.apps@[j], file_id) implies self.apps@[j].rom_index
                        <= a.rom_index by {
                        if j > i - 1 {
                        }
                    }
                }
                return Ok(DatLocation { rom_dir: app.rom_dir.clone(), sub_path: sub.unwrap() });
            }
            i -= 1;
        }
        Err(DatError::FileNotPresent { file_id })
    }
}

/// `<root>/VTABLE.DAT` and `<root>/FTABLE.DAT` for the base ROM,
/// `<root>/ROM<i>/VTABLE<i>.DAT` and `<root>/ROM<i>/FTABLE<i>.DAT` otherwise,
/// with the ROM's directory name.
pub open spec fn spec_appid_paths(root: Seq<char>, i: u8) -> (Seq<char>, Seq<char>, Seq<char>) {
    if i == BASE_ROM_INDEX {
        (
            spec_rom_dir(i),
            join(root, seq!['V', 'T', 'A', 'B', 'L', 'E', '.', 'D', 'A', 'T']),
            join(root, seq!['F', 'T', 'A', 'B', 'L', 'E', '.', 'D', 'A', 'T']),
        )
    } else {
        let rd = spec_rom_dir(i);
        (
            rd,
            join(join(root, rd), seq!['V', 'T', 'A', 'B', 'L', 'E'] + dec(i as nat) + seq!['.', 'D', 'A', 'T']),
            join(join(root, rd), seq!['F', 'T', 'A', 'B', 'L', 'E'] + dec(i as nat) + seq!['.', 'D', 'A', 'T']),
        )
    }
}

fn table_file_name(kind: char, i: u8, numbered: bool) -> (r: Vec<char>)
    ensures
        r@ == seq![kind, 'T', 'A', 'B', 'L', 'E'] + (if numbered { dec(i as nat) } else { Seq::empty() })
            + seq!['.', 'D', 'A', 'T'],
{
    let mut out: Vec<char> = vec![kind, 'T', 'A', 'B', 'L', 'E'];
    let ghost head = out@;
    if numbered {
        push_decimal(&mut out, i as u64, 0);
        proof {
            assert(zero_pad(dec(i as nat), 0) == dec(i as nat));
        }
    }
    let ghost mid = out@;
    out.push('.');
    out.push('D');
    out.push('A');
    out.push('T');
    proof {
        if numbered {
            assert(mid =~= head + dec(i as nat));
        } else {
            assert(mid =~= head + Seq::<char>::empty());
        }
        assert(out@ =~= mid + seq!['.', 'D', 'A', 'T']);
    }
    out
}

/// The ROM directory and the VTABLE and FTABLE paths of ROM `i` under `root`.
pub fn appid_paths(root: &str, i: u8) -> (r: (String, String, String))
    ensures
        r.0@ == spec_appid_paths(root@, i).0,
        r.1@ == spec_appid_paths(root@, i).1,
        r.2@ == spec_appid_paths(root@, i).2,
{
    let rd = rom_dir_name(i);
    let base = chars_of(root);
    if i == BASE_ROM_INDEX {
        let vt = join_chars(&base, &table_file_name('V', i, false));
        let ft = join_chars(&base, &table_file_name('F', i, false));
        proof {
            assert(seq!['V', 'T', 'A', 'B', 'L', 'E'] + Seq::<char>::empty() + seq!['.', 'D', 'A', 'T'] =~= seq!['V', 'T', 'A', 'B', 'L', 'E', '.', 'D', 'A', 'T']);
            assert(seq!['F', 'T', 'A', 'B', 'L', 'E'] + Seq::<char>::empty() + seq!['.', 'D', 'A', 'T'] =~= seq!['F', 'T', 'A', 'B', 'L', 'E', '.', 'D', 'A', 'T']);
        }
        (rd, string_from_chars(vt), string_from_chars(ft))
    } else {
        let dir = join_chars(&base, &chars_of(rd.as_str()));
        let vt = join_chars(&dir, &table_file_name('V', i, true));
        let ft = join_chars(&dir, &table_file_name('F', i, true));
        (rd, string_from_chars(vt), string_from_chars(ft))
    }
}

/// `s` split at every `'\n'` (an empty text is one empty line).
pub open spec fn split_nl(s: Seq<char>) -> Seq<Seq<char>>
    decreases s.len(),
{
    if s.len() == 0 {
        seq![Seq::empty()]
    } else {
        let rest = split_nl(s.drop_last());
        if s.last() == '\n' {
            rest.push(Seq::empty())
        } else {
            rest.update(rest.len() - 1, rest.last().push(s.last()))
        }
    }
}

pub open spec fn overlays_section() -> Seq<char> {
    seq!['[', 'o', 'v', 'e', 'r', 'l', 'a', 'y', 's', ']']
}

pub open spec fn root_path_key() -> Seq<char> {
    seq!['r', 'o', 'o', 't', '_', 'p', 'a', 't', 'h']
}

/// What reading `pivot.ini` keeps: the root path, the overlay entries in file
/// order, and whether the current section is `[overlays]`.
pub type PivotState = (Option<Seq<char>>, Seq<(u32, Seq<char>)>, bool);

/// One line of `pivot.ini`, trimmed: blank lines and `;` or `#` comments are
/// skipped; a `[section]` line switches sections; a `key=value` line (split at
/// the first `=`, both sides trimmed) adds an overlay when the section is
/// `[overlays]` and the key is a number, and sets the root path outside it when
/// the key is `root_path` in any case.
pub open spec fn pivot_step(st: PivotState, raw: Seq<char>) -> PivotState {
    let line = trim_ws(raw);
    if line.len() == 0 || line[0] == ';' || line[0] == '#' {
        st
    } else if line[0] == '[' {
        (st.0, st.1, eq_ignore_ascii_case(line, overlays_section()))
    } else {
        match first_index(line, '=') {
            None => st,
            Some(k) => {
                let key = trim_ws(line.subrange(0, k));
                let value = trim_ws(line.subrange(k + 1, line.len() as int));
                if st.2 {
                    match spec_parse_u32(key) {
                        Some(ix) => (st.0, st.1.push((ix, value)), st.2),
                        None => st,
                    }
                } else if eq_ignore_ascii_case(key, root_path_key()) {
                    (Some(value), st.1, st.2)
                } else {
                    st
                }
            },
        }
    }
}

pub open spec fn pivot_fold(lines: Seq<Seq<char>>) -> PivotState
    decreases lines.len(),
{
    if lines.len() == 0 {
        (None, Seq::empty(), false)
    } else {
        pivot_step(pivot_fold(lines.drop_last()), lines.last())
    }
}

/// Where a stable sort by index puts `e` among the sorted `s`: after every
/// entry whose index is not greater.
pub open spec fn ins_pos(s: Seq<(u32, Seq<char>)>, e: (u32, Seq<char>)) -> int
    decreases s.len(),
{
    if s.len() == 0 {
        0
    } else if s.last().0 <= e.0 {
        s.len() as int
    } else {
        ins_pos(s.drop_last(), e)
    }
}

/// `es` stably sorted by index.
pub open spec fn stable_sort(es: Seq<(u32, Seq<char>)>) -> Seq<(u32, Seq<char>)>
    decreases es.len(),
{
    if es.len() == 0 {
        Seq::empty()
    } else {
        let s = stable_sort(es.drop_last());
        let p = ins_pos(s, es.last());
        s.take(p) + seq![es.last()] + s.skip(p)
    }
}

/// Entries whose indices never decrease.
pub open spec fn index_sorted(s: Seq<(u32, Seq<char>)>) -> bool {
    forall|i: int, j: int| 0 <= i < j < s.len() ==> #[trigger] s[i].0 <= #[trigger] s[j].0
}

proof fn lemma_ins_pos(s: Seq<(u32, Seq<char>)>, e: (u32, Seq<char>))
    requires
        index_sorted(s),
    ensures
        0 <= ins_pos(s, e) <= s.len(),
        forall|i: int| 0 <= i < ins_pos(s, e) ==> (#[trigger] s[i]).0 <= e.0,
        forall|i: int| ins_pos(s, e) <= i < s.len() ==> (#[trigger] s[i]).0 > e.0,
    decreases s.len(),
{
    if s.len() > 0 && s.last().0 > e.0 {
        let d = s.drop_last();
        assert(index_sorted(d)) by {
            assert forall|i: int, j: int| 0 <= i < j < d.len() implies #[trigger] d[i].0 <= #[trigger] d[j].0 by {
                assert(d[i] == s[i] && d[j] == s[j]);
            }
        }
        lemma_ins_pos(d, e);
        assert forall|i: int| ins_pos(s, e) <= i < s.len() implies (#[trigger] s[i]).0 > e.0 by {
            if i < d.len() {
                assert(d[i] == s[i]);
            }
        }
        assert forall|i: int| 0 <= i < ins_pos(s, e) implies (#[trigger] s[i]).0 <= e.0 by {
            assert(d[i] == s[i]);
        }
    } else if s.len() > 0 {
        assert forall|i: int| 0 <= i < ins_pos(s, e) implies (#[trigger] s[i]).0 <= e.0 by {
            if i < s.len() - 1 {
                assert(s[i].0 <= s[s.len() - 1].0);
            }
        }
    }
}

/// The entries with index `k`.
pub open spec fn with_index(k: u32) -> spec_fn((u32, Seq<char>)) -> bool {
    |e: (u32, Seq<char>)| e.0 == k
}

proof fn lemma_filter_none(s: Seq<(u32, Seq<char>)>, k: u32)
    requires
        forall|i: int| 0 <= i < s.len() ==> (#[trigger] s[i]).0 != k,
    ensures
        s.filter(with_index(k)) =~= Seq::<(u32, Seq<char>)>::empty(),
    decreases s.len(),
{
    if s.len() == 0 {
        assert(s.filter(with_index(k)) =~= Seq::<(u32, Seq<char>)>::empty()) by {
            reveal(Seq::filter);
        }
    } else {
        let d = s.drop_last();
        assert forall|i: int| 0 <= i < d.len() implies (#[trigger] d[i]).0 != k by {
            assert(d[i] == s[i]);
        }
        lemma_filter_none(d, k);
        d.lemma_filter_push(s.last(), with_index(k));
        assert(s =~= d.push(s.last()));
    }
}

/// A `pivot.ini`'s overlays come in the order of their `[overlays]` indices,
/// and are exactly the entries it lists, with entries of equal index in the
/// order the file gives them: sorting keeps every entry, the sorted indices
/// never decrease, and the entries of each index keep their file order.
pub proof fn law_pivot_entries_come_in_index_order(es: Seq<(u32, Seq<char>)>)
    ensures
        index_sorted(stable_sort(es)),
        stable_sort(es).to_multiset() == es.to_multiset(),
        forall|k: u32| #[trigger] stable_sort(es).filter(with_index(k)) == es.filter(with_index(k)),
    decreases es.len(),
{
    broadcast use vstd::seq_lib::to_multiset_build, vstd::seq_lib::to_multiset_insert;

    if es.len() == 0 {
        assert(stable_sort(es) =~= es);
    } else {
        let d = es.drop_last();
        let e = es.last();
        law_pivot_entries_come_in_index_order(d);
        let s = stable_sort(d);
        lemma_ins_pos(s, e);
        let p = ins_pos(s, e);
        let r = stable_sort(es);
        assert(r =~= s.insert(p, e));
        assert(es =~= d.push(e));
        assert(r.to_multiset() == s.to_multiset().insert(e));
        assert(es.to_multiset() == d.to_multiset().insert(e));
        assert forall|i: int, j: int| 0 <= i < j < r.len() implies #[trigger] r[i].0 <= #[trigger] r[j].0 by {
            if j < p {
                assert(r[i] == s[i] && r[j] == s[j]);
            } else if j == p {
                assert(r[i] == s[i]);
            } else if i < p {
                assert(r[i] == s[i] && r[j] == s[j - 1]);
            } else if i == p {
                assert(r[j] == s[j - 1]);
            } else {
                assert(r[i] == s[i - 1] && r[j] == s[j - 1]);
            }
        }
        assert forall|k: u32| #[trigger] r.filter(with_index(k)) == es.filter(with_index(k)) by {
            let pr = with_index(k);
            let head = s.take(p);
            let tail = s.skip(p);
            assert(r =~= head + seq![e] + tail);
            assert(s =~= head + tail);
            Seq::filter_distributes_over_add(head + seq![e], tail, pr);
            Seq::filter_distributes_over_add(head, seq![e], pr);
            Seq::filter_distributes_over_add(head, tail, pr);
            d.lemma_filter_push(e, pr);
            Seq::<(u32, Seq<char>)>::empty().lemma_filter_push(e, pr);
            assert(seq![e] =~= Seq::<(u32, Seq<char>)>::empty().push(e));
            assert(Seq::<(u32, Seq<char>)>::empty().filter(pr) =~= Seq::<(u32, Seq<char>)>::empty());
            if e.0 == k {
                assert forall|i: int| 0 <= i < tail.len() implies (#[trigger] tail[i]).0 != k by {
                    assert(tail[i] == s[p + i]);
                }
                lemma_filter_none(tail, k);
            }
        }
    }
}

/// What `parse_pivot_ini` returns for `ini`: the root path, and the overlay
/// names in index order (entries with equal indices in file order).
pub open spec fn spec_pivot(ini: Seq<char>) -> (Option<Seq<char>>, Seq<Seq<char>>) {
    let st = pivot_fold(split_nl(ini));
    (st.0, stable_sort(st.1).map_values(|e: (u32, Seq<char>)| e.1))
}

pub open spec fn opt_str(o: Option<String>) -> Option<Seq<char>> {
    match o {
        Some(s) => Some(s@),
        None => None,
    }
}

pub open spec fn entry_views(v: Seq<(u32, String)>) -> Seq<(u32, Seq<char>)> {
    v.map_values(|e: (u32, String)| (e.0, e.1@))
}

struct PivotReader {
    root_path: Option<String>,
    entries: Vec<(u32, String)>,
    in_overlays: bool,
}

impl PivotReader {
    spec fn state(&self) -> PivotState {
        (opt_str(self.root_path), entry_views(self.entries@), self.in_overlays)
    }

    fn step(&mut self, raw: &Vec<char>)
        ensures
            final(self).state() == pivot_step(old(self).state(), raw@),
    {
        let line = trim_chars(raw.clone());
        if line.len() == 0 || line[0] == ';' || line[0] == '#' {
            return;
        }
        if line[0] == '[' {
            let section: Vec<char> = vec!['[', 'o', 'v', 'e', 'r', 'l', 'a', 'y', 's', ']'];
            proof {
                assert(section@ =~= overlays_section());
            }
            self.in_overlays = eq_ignore_case(&line, &section);
            return;
        }
        let k = match find_char(&line, '=') {
            None => return,
            Some(k) => k,
        };
        let key = trim_chars(sub_chars(&line, 0, k));
        let value = trim_chars(sub_chars(&line, k + 1, line.len()));
        assert(line@ == trim_ws(raw@));
        assert(first_index(line@, '=') == Some(k as int));
        if self.in_overlays {
            match parse_u32_chars(&key) {
                Some(ix) => {
                    let ghost before = self.entries@;
                    self.entries.push((ix, string_from_chars(value)));
                    proof {
                        assert(entry_views(self.entries@) =~= entry_views(before).push((ix, trim_ws(line@.subrange(k + 1, line@.len() as int)))));
                    }
                },
                None => {},
            }
        } else {
            let rp: Vec<char> = vec!['r', 'o', 'o', 't', '_', 'p', 'a', 't', 'h'];
            proof {
                assert(rp@ =~= root_path_key());
            }
            if eq_ignore_case(&key, &rp) {
                self.root_path = Some(string_from_chars(value));
            }
        }
    }
}

proof fn lemma_split_step(s: Seq<char>, i: int, done: Seq<Seq<char>>, cur: Seq<char>)
    requires
        0 <= i < s.len(),
        split_nl(s.take(i)) == done.push(cur),
    ensures
        s[i] == '\n' ==> split_nl(s.take(i + 1)) == done.push(cur).push(Seq::empty()),
        s[i] != '\n' ==> split_nl(s.take(i + 1)) == done.push(cur.push(s[i])),
{
    assert(s.take(i + 1).drop_last() =~= s.take(i));
    assert(s.take(i + 1).last() == s[i]);
    if s[i] != '\n' {
        assert(done.push(cur).update(done.len() as int, cur.push(s[i])) =~= done.push(cur.push(s[i])));
    }
}

/// The root path and the overlay names a `pivot.ini` holds; the names come in
/// the order of their `[overlays]` indices, equal indices in file order.
pub fn parse_pivot_ini(ini: &str) -> (r: (Option<String>, Vec<String>))
    ensures
        opt_str(r.0) == spec_pivot(ini@).0,
        r.1@.map_values(|n: String| n@) == spec_pivot(ini@).1,
{
    let cs = chars_of(ini);
    let mut st = PivotReader { root_path: None, entries: Vec::new(), in_overlays: false };
    let mut cur: Vec<char> = Vec::new();
    let ghost mut done: Seq<Seq<char>> = Seq::empty();
    let mut i: usize = 0;
    proof {
        assert(cs@.take(0) =~= Seq::<char>::empty());
        assert(split_nl(Seq::<char>::empty()) =~= done.push(cur@));
        assert(entry_views(st.entries@) =~= Seq::<(u32, Seq<char>)>::empty());
    }
    while i < cs.len()
        invariant
            i <= cs@.len(),
            split_nl(cs@.take(i as int)) == done.push(cur@),
            st.state() == pivot_fold(done),
        decreases cs.len() - i,
    {
        let c = cs[i];
        proof {
            lemma_split_step(cs@, i as int, done, cur@);
        }
        if c == '\n' {
            st.step(&cur);
            proof {
                assert(done.push(cur@).drop_last() =~= done);
                done = done.push(cur@);
            }
            cur = Vec::new();
        } else {
            cur.push(c);
        }
        i += 1;
    }
    st.step(&cur);
    proof {
        assert(cs@.take(i as int) =~= cs@);
        assert(done.push(cur@).drop_last() =~= done);
    }
    let ghost all = entry_views(st.entries@);
    let PivotReader { root_path, entries, in_overlays: _ } = st;
    let mut rest = entries;
    let n = rest.len();
    let mut sorted: Vec<(u32, String)> = Vec::new();
    let mut k: usize = 0;
    assert(all.take(0) =~= Seq::<(u32, Seq<char>)>::empty());
    while k < n
        invariant
            n == all.len(),
            k <= n,
            entry_views(rest@) == all.subrange(k as int, n as int),
            entry_views(sorted@) == stable_sort(all.take(k as int)),
        decreases n - k,
    {
        let ghost old_rest = rest@;
        assert(old_rest.len() == entry_views(old_rest).len());
        assert(entry_views(old_rest)[0] == all[k as int]);
        let e = rest.remove(0);
        let ghost ev = (e.0, e.1@);
        assert(ev == entry_views(old_rest)[0]);
        let ghost sv = entry_views(sorted@);
        let mut p = sorted.len();
        assert(sv.take(p as int) =~= sv);
        while p > 0 && sorted[p - 1].0 > e.0
            invariant
                p <= sorted@.len(),
                sv == entry_views(sorted@),
                ins_pos(sv.take(p as int), ev) == ins_pos(sv, ev),
                ev.0 == e.0,
            decreases p,
        {
            proof {
                assert(sv.take(p as int).drop_last() =~= sv.take(p - 1));
            }
            p -= 1;
        }
        proof {
            if p > 0 {
                assert(sv.take(p as int).last() == sv[p - 1]);
            }
            assert(ins_pos(sv.take(p as int), ev) == p);
            assert(all.take(k + 1).drop_last() =~= all.take(k as int));
            assert(all.take(k + 1).last() == ev);
        }
        sorted.insert(p, e);
        proof {
            assert(entry_views(sorted@) =~= sv.take(p as int) + seq![ev] + sv.skip(p as int));
            assert(rest@ =~= old_rest.subrange(1, old_rest.len() as int));
            assert forall|q: int| 0 <= q < rest@.len() implies entry_views(rest@)[q] == all.subrange(k + 1, n as int)[q] by {
                assert(rest@[q] == old_rest[q + 1]);
                assert(entry_views(old_rest)[q + 1] == all.subrange(k as int, n as int)[q + 1]);
            }
            assert(entry_views(rest@) =~= all.subrange(k + 1, n as int));
        }
        k += 1;
    }
    assert(all.take(n as int) =~= all);
    let mut names: Vec<String> = Vec::new();
    let mut j: usize = 0;
    while j < sorted.len()
        invariant
            j <= sorted@.len(),
            names@.len() == j,
            forall|q: int| 0 <= q < j ==> (#[trigger] names@[q])@ == sorted@[q].1@,
        decreases sorted.len() - j,
    {
        names.push(sorted[j].1.clone());
        j += 1;
    }
    proof {
        assert(names@.map_values(|nm: String| nm@) =~= stable_sort(all).map_values(|e: (u32, Seq<char>)| e.1));
    }
    (root_path, names)
}


/// Whether the flags `present` mark ROM `i` (an index past the end marks nothing).
pub open spec fn marked(present: Seq<bool>, i: int) -> bool {
    0 <= i < present.len() && present[i]
}

/// The ROM indices after the base, up to `hi`, that `present` marks, ascending.
pub open spec fn marked_roms(present: Seq<bool>, hi: int) -> Seq<u8>
    decreases hi,
{
    if hi <= BASE_ROM_INDEX {
        Seq::empty()
    } else if marked(present, hi) {
        marked_roms(present, hi - 1).push(hi as u8)
    } else {
        marked_roms(present, hi - 1)
    }
}

/// The ROM indices of the accepted tables, in order.
pub open spec fn rom_indices(apps: Seq<AppTables>) -> Seq<u8> {
    apps.map_values(|a: AppTables| a.rom_index)
}

proof fn lemma_marked_roms_contains(present: Seq<bool>, hi: int, x: u8)
    requires
        hi <= 255,
    ensures
        marked_roms(present, hi).contains(x) <==> (BASE_ROM_INDEX < x <= hi && marked(present, x as int)),
    decreases hi,
{
    if hi > BASE_ROM_INDEX {
        lemma_marked_roms_contains(present, hi - 1, x);
        let rest = marked_roms(present, hi - 1);
        if marked(present, hi) {
            let s2 = rest.push(hi as u8);
            assert(s2.contains(x) <==> (rest.contains(x) || x == hi as u8)) by {
                if s2.contains(x) {
                    let j = choose|j: int| 0 <= j < s2.len() && #[trigger] s2[j] == x;
                    if j < rest.len() {
                        assert(rest[j] == x);
                    }
                }
                if rest.contains(x) {
                    let j = choose|j: int| 0 <= j < rest.len() && #[trigger] rest[j] == x;
                    assert(s2[j] == x);
                }
                if x == hi as u8 {
                    assert(s2[rest.len() as int] == x);
                }
            }
        }
    }
}

/// An opened install and the table files on its disk describe the same
/// `excode_client` mask, whenever the expansion ROMs whose tables the install
/// accepted are exactly those whose FTABLE `ftable_present` marks.
pub proof fn law_root_and_probe_agree(root: DatRoot, ftable_present: Seq<bool>)
    requires
        forall|x: u8|
            crate::expansion::FIRST_EXPANSION_ROM <= x <= crate::expansion::LAST_EXPANSION_ROM ==> (
            #[trigger] rom_indices(root.spec_apps()).contains(x) <==> marked(ftable_present, x as int)),
    ensures
        crate::expansion::spec_excode(rom_indices(root.spec_apps()))
            == crate::expansion::spec_excode(marked_roms(ftable_present, RETAIL_INDEX_ROM_MAX as int)),
{
    let a = rom_indices(root.spec_apps());
    let b = marked_roms(ftable_present, RETAIL_INDEX_ROM_MAX as int);
    assert forall|x: u8|
        crate::expansion::FIRST_EXPANSION_ROM <= x <= crate::expansion::LAST_EXPANSION_ROM implies (
        #[trigger] a.contains(x) <==> b.contains(x)) by {
        lemma_marked_roms_contains(ftable_present, RETAIL_INDEX_ROM_MAX as int, x);
    }
    crate::expansion::law_excode_depends_only_on_the_inventory(a, b);
}

/// The lobby's `excode_client` mask of an install, read from which ROM
/// tables it has: `ftable_present[i]` tells whether the FTABLE of ROM `i`
/// ([`appid_paths`]) exists. Nothing when the base ROM's is missing.
pub fn excode_client_at(ftable_present: &[bool]) -> (r: Option<u16>)
    ensures
        r == if marked(ftable_present@, BASE_ROM_INDEX as int) {
            Some(crate::expansion::spec_excode(marked_roms(ftable_present@, RETAIL_INDEX_ROM_MAX as int)))
        } else {
            None
        },
{
    let base = BASE_ROM_INDEX as usize;
    if base >= ftable_present.len() || !ftable_present[base] {
        return None;
    }
    let mut present: Vec<u8> = Vec::new();
    let mut i: u8 = BASE_ROM_INDEX + 1;
    while i <= RETAIL_INDEX_ROM_MAX
        invariant
            BASE_ROM_INDEX + 1 <= i <= RETAIL_INDEX_ROM_MAX + 1,
            present@ == marked_roms(ftable_present@, i - 1),
        decreases RETAIL_INDEX_ROM_MAX + 1 - i,
    {
        let k = i as usize;
        if k < ftable_present.len() && ftable_present[k] {
            present.push(i);
        }
        i += 1;
    }
    Some(crate::expansion::excode_client_from_rom_indices(present.as_slice()))
}


/// An FTABLE word packs a file's place as `dir * 128 + file`: the file number
/// is its low seven bits, the directory the nine above them.
pub proof fn law_sub_path_unpacks_the_word(w: u16)
    ensures
        spec_sub_path(w).dir as int * 128 + spec_sub_path(w).file as int == w as int,
        spec_sub_path(w).file < 128,
{
}

} // verus!
