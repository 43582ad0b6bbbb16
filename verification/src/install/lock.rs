//! The file lock on a DAT root: a reader holds it shared, the updater wants it
//! exclusive. The lock itself is taken by the caller; this module names the lock
//! file, reads the holder's note and classifies refusals.

use vstd::prelude::*;
use crate::archive::join;
use crate::text::{
    all_digits, chars_of, dec, digits_value, find_char, first_index, is_digit, is_white_space, parse_u32_chars, push_all,
    push_dec_str, spec_parse_u32, string_from_chars, sub_chars, trim_chars, trim_end_ws, trim_start_ws, trim_ws,
    unsigned_digits,
};

verus! {

/// Sits at the DAT root, so a root named by the shell is covered too.
pub const LOCK_FILE: &'static str = ".kuluu-lock";

pub fn lock_path(root: &str) -> (r: String)
    ensures
        r@ == join(root@, LOCK_FILE@),
{
    string_from_chars(crate::archive::join_chars(&chars_of(root), &chars_of(LOCK_FILE)))
}

/// The most recent reader's note about itself: process id and executable name.
#[derive(Debug, Clone, PartialEq, Eq)]
pub struct Holder {
    pub pid: u32,
    pub exe: String,
}

/// The note `<pid> <exe>` on one line: the trimmed text split at its first
/// space, the part before it a number.
pub open spec fn spec_holder(line: Seq<char>) -> Option<(u32, Seq<char>)> {
    let t = trim_ws(line);
    match first_index(t, ' ') {
        None => None,
        Some(k) => match spec_parse_u32(t.subrange(0, k)) {
            None => None,
            Some(pid) => Some((pid, t.subrange(k + 1, t.len() as int))),
        },
    }
}

/// The note a reader writes about itself: its process id, a space, its
/// executable name, and a line end.
pub open spec fn spec_note(pid: u32, exe: Seq<char>) -> Seq<char> {
    dec(pid as nat) + seq![' '] + exe + seq!['\n']
}

impl Holder {
    /// This holder's note, as a reader writes it into the lock file.
    pub fn note(&self) -> (r: String)
        ensures
            r@ == spec_note(self.pid, self.exe@),
    {
        let mut out: Vec<char> = Vec::new();
        push_dec_str(&mut out, self.pid as u64);
        out.push(' ');
        push_all(&mut out, &chars_of(self.exe.as_str()));
        out.push('\n');
        proof {
            assert(out@ =~= spec_note(self.pid, self.exe@));
        }
        string_from_chars(out)
    }

    pub fn parse(line: &str) -> (r: Option<Holder>)
        ensures
            match spec_holder(line@) {
                None => r is None,
                Some((pid, exe)) => r matches Some(h) && h.pid == pid && h.exe@ == exe,
            },
    {
        let t = trim_chars(chars_of(line));
        let k = match find_char(&t, ' ') {
            None => return None,
            Some(k) => k,
        };
        let pid = match parse_u32_chars(&sub_chars(&t, 0, k)) {
            None => return None,
            Some(p) => p,
        };
        let n = t.len();
        let exe = sub_chars(&t, k + 1, n);
        Some(Holder { pid, exe: string_from_chars(exe) })
    }
}

proof fn lemma_dec_digits(n: nat)
    ensures
        dec(n).len() > 0,
        all_digits(dec(n)),
        digits_value(dec(n)) == n,
    decreases n,
{
    if n < 10 {
        assert((dec(n)[0] as u32) == n + 48);
        assert(dec(n).drop_last() =~= Seq::<char>::empty());
        assert(dec(n).last() == dec(n)[0]);
        assert(digits_value(dec(n)) == 10 * digits_value(dec(n).drop_last()) + ((dec(n).last() as u32) - 48) as nat);
        assert(digits_value(dec(n)) == n);
    } else {
        lemma_dec_digits(n / 10);
        let d = dec(n);
        assert(d.drop_last() =~= dec(n / 10));
        assert(d.last() == ((n % 10) + 48) as char);
        assert((d.last() as u32) == (n % 10) + 48);
        assert(digits_value(d) == 10 * digits_value(dec(n / 10)) + (n % 10));
        assert(n == 10 * (n / 10) + n % 10);
        assert(digits_value(dec(n)) == n);
        assert(forall|i: int| 0 <= i < d.len() - 1 ==> d[i] == dec(n / 10)[i]);
    }
}

proof fn lemma_no_space_no_index(s: Seq<char>)
    requires
        all_digits(s),
    ensures
        first_index(s, ' ') is None,
    decreases s.len(),
{
    if s.len() > 0 {
        assert(is_digit(s.last()));
        lemma_no_space_no_index(s.drop_last());
    }
}

/// A reader's note reads back as the reader that wrote it, whenever its
/// executable name is not empty and neither starts nor ends with white space
/// (the note's text is trimmed before it is split).
pub proof fn law_a_note_reads_back(pid: u32, exe: Seq<char>)
    requires
        exe.len() > 0,
        !is_white_space(exe[0]),
        !is_white_space(exe.last()),
    ensures
        spec_holder(spec_note(pid, exe)) == Some((pid, exe)),
{
    let d = dec(pid as nat);
    lemma_dec_digits(pid as nat);
    let body = d + seq![' '] + exe;
    let note = spec_note(pid, exe);
    assert(note =~= body.push('\n'));
    assert(note.drop_last() =~= body);
    assert(is_white_space(note.last()));
    assert(trim_end_ws(note) == trim_end_ws(body));
    assert(body.last() == exe.last());
    assert(trim_end_ws(body) == body);
    assert(body[0] == d[0]);
    assert(is_digit(d[0]));
    assert(trim_start_ws(body) == body);
    assert(trim_ws(note) == body);
    lemma_no_space_no_index(d);
    let k = d.len() as int;
    assert(body.take(k + 1).drop_last() =~= d);
    assert(body.take(k + 1).last() == ' ');
    assert(first_index(body.take(k + 1), ' ') == Some(k));
    crate::text::lemma_first_index_prefix(body, ' ', k + 1);
    assert(body.subrange(0, k) =~= d);
    assert(unsigned_digits(d) == d);
    assert(body.subrange(k + 1, body.len() as int) =~= exe);
}

/// Why a lock was refused: a lock of the opposing kind is held (with the last
/// reader's note when there is one), or the lock file could not be used.
#[derive(Debug, Clone, PartialEq, Eq)]
pub enum LockError {
    Held { path: String, holder: Option<Holder> },
    Io { path: String, reason: String },
}

/// A refusal in words: who holds the install, or why the lock file failed.
pub open spec fn spec_lock_message(e: LockError) -> Seq<char> {
    match e {
        LockError::Held { path, holder: Some(h) } => h.exe@ + seq![' ', '(', 'p', 'i', 'd', ' '] + dec(h.pid as nat)
            + HAS_IT_OPEN@ + path@ + seq![')'],
        LockError::Held { path, holder: None } => ANOTHER_PROCESS_HOLDS@ + path@,
        LockError::Io { path, reason } => path@ + seq![':', ' '] + reason@,
    }
}

pub const HAS_IT_OPEN: &'static str = ") has this install open (";
pub const ANOTHER_PROCESS_HOLDS: &'static str = "another process holds ";

impl LockError {
    /// This refusal in words.
    pub fn message(&self) -> (r: String)
        ensures
            r@ == spec_lock_message(*self),
    {
        let mut out: Vec<char> = Vec::new();
        match self {
            LockError::Held { path, holder: Some(h) } => {
                push_all(&mut out, &chars_of(h.exe.as_str()));
                push_all(&mut out, &chars_of(" (pid "));
                crate::text::push_dec_str(&mut out, h.pid as u64);
                push_all(&mut out, &chars_of(HAS_IT_OPEN));
                push_all(&mut out, &chars_of(path.as_str()));
                out.push(')');
                proof {
                    reveal_strlit(" (pid ");
                }
            },
            LockError::Held { path, holder: None } => {
                push_all(&mut out, &chars_of(ANOTHER_PROCESS_HOLDS));
                push_all(&mut out, &chars_of(path.as_str()));
            },
            LockError::Io { path, reason } => {
                push_all(&mut out, &chars_of(path.as_str()));
                out.push(':');
                out.push(' ');
                push_all(&mut out, &chars_of(reason.as_str()));
            },
        }
        proof {
            assert(out@ =~= spec_lock_message(*self));
        }
        string_from_chars(out)
    }

    pub fn is_held(&self) -> (r: bool)
        ensures
            r == (self is Held),
    {
        match self {
            LockError::Held { .. } => true,
            LockError::Io { .. } => false,
        }
    }
}

} // verus!
