//! The install registry: every install has a name under the user data
//! directory, a one-line `default` file names the one that loads, and
//! `FFXI_DAT_PATH` overrides it for one run. The file system is read by the
//! caller; this module decides what the readings mean.

pub mod lock;

use vstd::prelude::*;
use crate::archive::join;
use crate::text::{chars_of, push_all, string_from_chars, trim_chars, trim_ws};
use vstd::utf8::encode_utf8;
use vstd::string::StringSliceAdditionalSpecFns;

verus! {

pub const APP_DIR: &'static str = "kuluu";
pub const INSTALLS_DIR: &'static str = "installs";
/// The registry's directory name before it became the only one.
pub const LEGACY_CLIENTS_DIR: &'static str = "clients";
/// One line holding the name of the install that loads.
pub const DEFAULT_POINTER: &'static str = "default";
/// The DAT root's path inside an install directory.
pub const INSTALL_SUBDIR: &'static str = "SquareEnix/FINAL FANTASY XI";
/// The base VTABLE an install directory must hold, beside its `ROM/` directory.
pub const VTABLE_MARKER: &'static str = "VTABLE.DAT";

pub const NOT_AN_INSTALL: &'static str = " is not a FINAL FANTASY XI install (VTABLE.DAT or ROM/ missing)";
pub const NO_DATA_DIR: &'static str = "no user data directory on this system; set FFXI_DAT_PATH";
pub const NOTHING_SELECTED: &'static str = "no install selected: ";
pub const NAMES_NOTHING: &'static str = " names nothing (kuluu install use NAME, or kuluu install get)";
pub const NAMES: &'static str = " names `";
pub const BUT: &'static str = "` but ";
pub const HOLDS_NO_INSTALL: &'static str = " holds no install";
pub const INSTALL_NAME: &'static str = "install name `";
pub const MUST_BE_A_DIR_NAME: &'static str = "` must be [A-Za-z0-9_-]+ (it becomes a directory name)";
pub const ALREADY_EXISTS: &'static str = " already exists; pick another name";
pub const DOES_NOT_VALIDATE: &'static str = " was created but does not validate";
pub const NO_INSTALL_NAMED: &'static str = "no install named `";
pub const UNDER: &'static str = "` under ";
pub const SEE_THE_LIST: &'static str = " (kuluu install list)";

pub open spec fn name_byte_ok(b: u8) -> bool {
    (0x30 <= b <= 0x39) || (0x41 <= b <= 0x5A) || (0x61 <= b <= 0x7A) || b == 0x2D || b == 0x5F
}

/// A name becomes a directory name: non-empty, ASCII letters, digits, `-` and
/// `_` only, and never the pointer file's name.
pub open spec fn spec_valid_name(name: Seq<u8>) -> bool {
    &&& name.len() > 0
    &&& name != DEFAULT_POINTER@.map_values(|c: char| c as u8)
    &&& forall|i: int| 0 <= i < name.len() ==> name_byte_ok(#[trigger] name[i])
}

pub fn valid_name(name: &str) -> (r: bool)
    ensures
        r == spec_valid_name(name.spec_bytes()),
{
    proof {
        reveal_strlit("default");
    }
    let b = name.as_bytes();
    if b.len() == 0 {
        return false;
    }
    let mut i: usize = 0;
    while i < b.len()
        invariant
            i <= b@.len(),
            b@ == name.spec_bytes(),
            forall|k: int| 0 <= k < i ==> name_byte_ok(#[trigger] b@[k]),
        decreases b.len() - i,
    {
        let c = b[i];
        if !((0x30 <= c && c <= 0x39) || (0x41 <= c && c <= 0x5A) || (0x61 <= c && c <= 0x7A) || c
            == 0x2D || c == 0x5F) {
            assert(!name_byte_ok(b@[i as int]));
            return false;
        }
        i += 1;
    }
    let is_pointer = b.len() == 7 && b[0] == 0x64 && b[1] == 0x65 && b[2] == 0x66 && b[3] == 0x61
        && b[4] == 0x75 && b[5] == 0x6C && b[6] == 0x74;
    proof {
        let d = DEFAULT_POINTER@.map_values(|c: char| c as u8);
        assert(d =~= seq![0x64u8, 0x65, 0x66, 0x61, 0x75, 0x6C, 0x74]);
        if is_pointer {
            assert(b@ =~= d);
        } else if b@ == d {
            assert(b@[0] == d[0] && b@[1] == d[1] && b@[2] == d[2] && b@[3] == d[3] && b@[4] == d[4]
                && b@[5] == d[5] && b@[6] == d[6]);
        }
    }
    !is_pointer
}

/// `<dir>/<name>/SquareEnix/FINAL FANTASY XI`.
pub open spec fn spec_install_root_in(dir: Seq<char>, name: Seq<char>) -> Seq<char> {
    join(join(dir, name), INSTALL_SUBDIR@)
}

fn join_strs(a: &str, b: &str) -> (r: Vec<char>)
    ensures
        r@ == join(a@, b@),
{
    crate::archive::join_chars(&chars_of(a), &chars_of(b))
}

/// The DAT root a named install would have, validated or not.
pub fn install_root_in(dir: &str, name: &str) -> (r: String)
    ensures
        r@ == spec_install_root_in(dir@, name@),
{
    let a = string_from_chars(join_strs(dir, name));
    string_from_chars(join_strs(a.as_str(), INSTALL_SUBDIR))
}

/// A registered install: its name and DAT root.
#[derive(Debug, Clone, PartialEq, Eq)]
pub struct Install {
    pub name: String,
    pub path: String,
}

/// Where a resolved install came from.
#[derive(Debug, Clone, PartialEq, Eq)]
pub enum Source {
    EnvPath,
    Default(String),
}

#[derive(Debug, Clone, PartialEq, Eq)]
pub struct Resolved {
    pub path: String,
    pub source: Source,
}

#[derive(Debug, Clone, PartialEq, Eq)]
pub struct Unresolved {
    pub source: Option<Source>,
    pub reason: String,
}

/// The install a `default` pointer file names: its text trimmed, when anything
/// is left.
pub open spec fn spec_default_name(raw: Seq<char>) -> Option<Seq<char>> {
    if trim_ws(raw).len() == 0 {
        None
    } else {
        Some(trim_ws(raw))
    }
}

pub fn default_name(raw: &str) -> (r: Option<String>)
    ensures
        match spec_default_name(raw@) {
            Some(n) => r matches Some(s) && s@ == n,
            None => r is None,
        },
{
    let t = trim_chars(chars_of(raw));
    if t.len() == 0 {
        None
    } else {
        Some(string_from_chars(t))
    }
}

/// The name the pointer file's text gives, if it was read and names anything.
pub open spec fn pointer_name(pointer: Option<Seq<char>>) -> Option<Seq<char>> {
    match pointer {
        Some(raw) => spec_default_name(raw),
        None => None,
    }
}

/// `r` is what resolving the install gives, from what the caller read: the
/// environment's path wins, an error when it is no install; else the registry
/// directory must exist, the pointer file must name something, and the named
/// install (a valid name whose root is an install) loads.
pub open spec fn resolve_outcome(
    r: Result<Resolved, Unresolved>,
    dir: Option<Seq<char>>,
    env_path: Option<Seq<char>>,
    env_path_is_install: bool,
    pointer: Option<Seq<char>>,
    named_root_is_install: bool,
) -> bool {
    match env_path {
        Some(p) => if env_path_is_install {
            r matches Ok(res) && res.path@ == p && res.source == Source::EnvPath
        } else {
            r matches Err(u) && u.source == Some(Source::EnvPath) && u.reason@ == p + NOT_AN_INSTALL@
        },
        None => match dir {
            None => r matches Err(u) && u.source is None && u.reason@ == NO_DATA_DIR@,
            Some(d) => {
                let ptr = join(d, DEFAULT_POINTER@);
                match pointer_name(pointer) {
                    None => r matches Err(u) && u.source is None && u.reason@ == NOTHING_SELECTED@ + ptr
                        + NAMES_NOTHING@,
                    Some(name) => if spec_valid_name(encode_utf8(name)) && named_root_is_install {
                        r matches Ok(res) && res.path@ == spec_install_root_in(d, name) && (
                        res.source matches Source::Default(n) && n@ == name)
                    } else {
                        r matches Err(u) && (u.source matches Some(Source::Default(n)) && n@ == name)
                            && u.reason@ == ptr + NAMES@ + name + BUT@ + spec_install_root_in(d, name)
                            + HOLDS_NO_INSTALL@
                    },
                }
            },
        },
    }
}

pub open spec fn opt_view(o: Option<&str>) -> Option<Seq<char>> {
    match o {
        Some(s) => Some(s@),
        None => None,
    }
}

fn cat(a: &str, b: &str) -> (r: String)
    ensures
        r@ == a@ + b@,
{
    let mut out = chars_of(a);
    push_all(&mut out, &chars_of(b));
    string_from_chars(out)
}

/// Resolves the install to load from what the caller read: `dir`, the registry
/// directory when the system has one; `env_path`, a non-empty `FFXI_DAT_PATH`,
/// and whether it is an install; `default_pointer`, the pointer file's text when
/// it could be read; and whether the root of the install that text names is an
/// install. A set but unusable `FFXI_DAT_PATH` is an error, never a fall-through.
pub fn resolve_in(
    dir: Option<&str>,
    env_path: Option<&str>,
    env_path_is_install: bool,
    default_pointer: Option<&str>,
    named_root_is_install: bool,
) -> (r: Result<Resolved, Unresolved>)
    ensures
        resolve_outcome(
            r,
            opt_view(dir),
            opt_view(env_path),
            env_path_is_install,
            opt_view(default_pointer),
            named_root_is_install,
        ),
{
    if let Some(path) = env_path {
        if !env_path_is_install {
            let reason = cat(path, NOT_AN_INSTALL);
            return Err(Unresolved { source: Some(Source::EnvPath), reason });
        }
        return Ok(Resolved { path: string_from_chars(chars_of(path)), source: Source::EnvPath });
    }
    let d = match dir {
        None => {
            return Err(Unresolved { source: None, reason: string_from_chars(chars_of(NO_DATA_DIR)) });
        },
        Some(d) => d,
    };
    let ptr = string_from_chars(join_strs(d, DEFAULT_POINTER));
    let name = match default_pointer {
        Some(raw) => default_name(raw),
        None => None,
    };
    let name = match name {
        None => {
            let head = cat(NOTHING_SELECTED, ptr.as_str());
            let reason = cat(head.as_str(), NAMES_NOTHING);
            return Err(Unresolved { source: None, reason });
        },
        Some(n) => n,
    };
    let root = install_root_in(d, name.as_str());
    if valid_name(name.as_str()) && named_root_is_install {
        return Ok(Resolved { path: root, source: Source::Default(name) });
    }
    let r1 = cat(ptr.as_str(), NAMES);
    let r2 = cat(r1.as_str(), name.as_str());
    let r3 = cat(r2.as_str(), BUT);
    let r4 = cat(r3.as_str(), root.as_str());
    let reason = cat(r4.as_str(), HOLDS_NO_INSTALL);
    Err(Unresolved { source: Some(Source::Default(name)), reason })
}


/// Why an install cannot be linked in.
#[derive(Debug, Clone, PartialEq, Eq)]
pub enum LinkRefusal {
    /// The name cannot be a directory name.
    InvalidName { message: String },
    /// The source is no install.
    NotAnInstall { message: String },
    /// Something already sits where the install would go.
    Taken { message: String },
}

/// Decides whether the install at `source_root` may be linked in under `name`
/// in the registry `dir`, from what the caller read: whether the source is an
/// install, and whether anything (a link too) already sits at the install
/// root the name gives. On success, that root, where the link is made.
pub fn link_target(
    dir: &str,
    name: &str,
    source_root: &str,
    source_is_install: bool,
    dest_taken: bool,
) -> (r: Result<String, LinkRefusal>)
    ensures
        !spec_valid_name(encode_utf8(name@)) ==> (r matches Err(LinkRefusal::InvalidName { message }) && message@
            == INSTALL_NAME@ + name@ + MUST_BE_A_DIR_NAME@),
        spec_valid_name(encode_utf8(name@)) && !source_is_install ==> (r matches Err(
            LinkRefusal::NotAnInstall { message },
        ) && message@ == source_root@ + NOT_AN_INSTALL@),
        spec_valid_name(encode_utf8(name@)) && source_is_install && dest_taken ==> (r matches Err(
            LinkRefusal::Taken { message },
        ) && message@ == spec_install_root_in(dir@, name@) + ALREADY_EXISTS@),
        spec_valid_name(encode_utf8(name@)) && source_is_install && !dest_taken ==> (r matches Ok(dest)
            && dest@ == spec_install_root_in(dir@, name@)),
{
    if !valid_name(name) {
        let head = cat(INSTALL_NAME, name);
        return Err(LinkRefusal::InvalidName { message: cat(head.as_str(), MUST_BE_A_DIR_NAME) });
    }
    if !source_is_install {
        return Err(LinkRefusal::NotAnInstall { message: cat(source_root, NOT_AN_INSTALL) });
    }
    let dest = install_root_in(dir, name);
    if dest_taken {
        return Err(LinkRefusal::Taken { message: cat(dest.as_str(), ALREADY_EXISTS) });
    }
    Ok(dest)
}

/// The error a freshly made link that is no install reports.
pub fn not_validated_message(dest: &str) -> (r: String)
    ensures
        r@ == dest@ + DOES_NOT_VALIDATE@,
{
    cat(dest, DOES_NOT_VALIDATE)
}

/// Decides whether `name` may become the default install of the registry
/// `dir`, from whether the caller found it registered there. On success, the
/// pointer file's text: the name on a line of its own.
pub fn default_pointer_text(dir: &str, name: &str, registered: bool) -> (r: Result<String, String>)
    ensures
        registered ==> (r matches Ok(text) && text@ == name@.push('\n')),
        !registered ==> (r matches Err(message) && message@ == NO_INSTALL_NAMED@ + name@ + UNDER@ + dir@
            + SEE_THE_LIST@),
{
    if !registered {
        let a = cat(NO_INSTALL_NAMED, name);
        let b = cat(a.as_str(), UNDER);
        let c = cat(b.as_str(), dir);
        return Err(cat(c.as_str(), SEE_THE_LIST));
    }
    let mut out = chars_of(name);
    out.push('\n');
    Ok(string_from_chars(out))
}

} // verus!
