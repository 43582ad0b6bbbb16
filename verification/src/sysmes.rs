//! System-message pieces: the spans a composed message is made of, the article
//! an item name takes, and how gil amounts are written.

pub mod compose;

pub use compose::{compose, SysMesDat};

use vstd::prelude::*;
use crate::text::{ascii_lower, chars_of, dec, push_all, string_from_chars};

verus! {

/// Substitution slots addressable by a parameter byte.
pub const PARAM_SLOTS: usize = 8;
/// Gil amounts are written with a separator every three digits.
pub const GIL_GROUP_DIGITS: usize = 3;
pub const GIL_UNIT: &'static str = "gil";

/// Indices of the treasure-pool messages in the system-message table.
pub const TREASURE_OTHER_INELIGIBLE: usize = 15;
pub const TREASURE_FIND_ON: usize = 16;
pub const TREASURE_LOT: usize = 17;
pub const TREASURE_OBTAINS_ITEM: usize = 18;
pub const TREASURE_OBTAINS_GIL: usize = 19;
pub const TREASURE_YOU_INELIGIBLE: usize = 31;
pub const TREASURE_YOU_CAST_LOTS: usize = 130;
pub const TREASURE_YOU_OBTAIN: usize = 131;
pub const TREASURE_WAS_LOST: usize = 164;
pub const TREASURE_FIND_IN: usize = 218;

/// Which colour a composed span takes: only the item-name family is coloured
/// apart from the line's log-mode colour.
#[derive(Debug, Clone, Copy, PartialEq, Eq)]
pub enum SpanKind {
    Text,
    Item,
    KeyItem,
}

#[derive(Debug, Clone, PartialEq, Eq)]
pub struct Span {
    pub text: String,
    pub kind: SpanKind,
}

/// One composed system message: its chat-log mode and one span list per log line.
#[derive(Debug, Clone, PartialEq, Eq)]
pub struct SysMesLine {
    pub log_mode: Option<u8>,
    pub lines: Vec<Vec<Span>>,
}

/// Values substituted into an entry's slots, indexed by parameter byte.
#[derive(Debug, Default, Clone)]
pub struct SysMesParams<'a> {
    pub strings: [Option<&'a str>; 8],
    pub numbers: [i64; 8],
    pub items: [Option<&'a str>; 8],
    pub key_items: [Option<&'a str>; 8],
    /// Fills the target-name slot.
    pub target_name: Option<&'a str>,
    /// Keep the leading article of a `[the /]` alternative; cleared for a named
    /// entity, which takes no "the".
    pub target_article: bool,
}

/// The text of one line: its spans' texts run together.
pub open spec fn line_text(spans: Seq<Span>) -> Seq<char>
    decreases spans.len(),
{
    if spans.len() == 0 {
        Seq::empty()
    } else {
        line_text(spans.drop_last()) + spans.last().text@
    }
}

/// The lines' texts joined by `'\n'`.
pub open spec fn plain_text(lines: Seq<Seq<Span>>) -> Seq<char>
    decreases lines.len(),
{
    if lines.len() == 0 {
        Seq::empty()
    } else if lines.len() == 1 {
        line_text(lines[0])
    } else {
        plain_text(lines.drop_last()) + seq!['\n'] + line_text(lines.last())
    }
}

impl SysMesLine {
    pub open spec fn spec_lines(&self) -> Seq<Seq<Span>> {
        self.lines@.map_values(|l: Vec<Span>| l@)
    }

    /// The whole message as plain text, log lines joined by newlines.
    pub fn to_plain(&self) -> (r: String)
        ensures
            r@ == plain_text(self.spec_lines()),
    {
        let mut out: Vec<char> = Vec::new();
        let mut i: usize = 0;
        while i < self.lines.len()
            invariant
                i <= self.lines@.len(),
                out@ == plain_text(self.spec_lines().take(i as int)),
            decreases self.lines.len() - i,
        {
            let ghost before = out@;
            if i > 0 {
                out.push('\n');
            }
            let line = &self.lines[i];
            let mut j: usize = 0;
            let ghost head = out@;
            while j < line.len()
                invariant
                    j <= line@.len(),
                    out@ == head + line_text(line@.take(j as int)),
                decreases line.len() - j,
            {
                push_all(&mut out, &chars_of(line[j].text.as_str()));
                proof {
                    assert(line@.take(j + 1).drop_last() =~= line@.take(j as int));
                }
                j += 1;
                proof {
                    assert(out@ =~= head + line_text(line@.take(j as int)));
                }
            }
            proof {
                assert(line@.take(j as int) =~= line@);
                let ls = self.spec_lines().take(i + 1);
                assert(ls.drop_last() =~= self.spec_lines().take(i as int));
                assert(ls.last() == line@);
                if i == 0 {
                    assert(ls.len() == 1);
                    assert(before =~= Seq::<char>::empty());
                    assert(out@ =~= line_text(ls[0]));
                } else {
                    assert(out@ =~= before + seq!['\n'] + line_text(ls.last()));
                }
            }
            i += 1;
        }
        proof {
            assert(self.spec_lines().take(i as int) =~= self.spec_lines());
        }
        string_from_chars(out)
    }
}

pub open spec fn is_vowel(c: char) -> bool {
    c == 'a' || c == 'e' || c == 'i' || c == 'o' || c == 'u'
}

/// "an" before a name whose first letter is a vowel, in either case; "a"
/// otherwise, the empty name included.
pub open spec fn spec_article(name: Seq<char>) -> Seq<char> {
    if name.len() > 0 && is_vowel(ascii_lower(name[0])) {
        seq!['a', 'n']
    } else {
        seq!['a']
    }
}

/// The article an item name takes.
pub fn article_for(item_name: &str) -> (r: &'static str)
    ensures
        r@ == spec_article(item_name@),
{
    proof {
        reveal_strlit("an");
        reveal_strlit("a");
    }
    let cs = chars_of(item_name);
    if cs.len() > 0 {
        let c = cs[0];
        let l = if 'A' <= c && c <= 'Z' {
            ((c as u32) + 32) as u32
        } else {
            c as u32
        };
        assert(l == ascii_lower(c) as u32);
        if l == 'a' as u32 || l == 'e' as u32 || l == 'i' as u32 || l == 'o' as u32 || l == 'u' as u32 {
            return "an";
        }
    }
    "a"
}

/// The first `k` digits of `d` with a `','` before every position (but the
/// first) that leaves a multiple of three digits of `d` after it.
pub open spec fn group_prefix(d: Seq<char>, k: int) -> Seq<char>
    decreases k,
{
    if k <= 0 {
        Seq::empty()
    } else {
        let i = k - 1;
        let sep = if i > 0 && (d.len() - i) % 3 == 0 {
            seq![',']
        } else {
            Seq::empty()
        };
        group_prefix(d, i) + sep + seq![d[i]]
    }
}

/// A gil amount as written: its sign, its digits grouped in thousands, and the unit.
pub open spec fn spec_gil(amount: int) -> Seq<char> {
    let digits = dec((if amount < 0 { -amount } else { amount }) as nat);
    (if amount < 0 { seq!['-'] } else { Seq::empty() }) + group_prefix(digits, digits.len() as int)
        + seq![' ', 'g', 'i', 'l']
}

pub fn format_gil(amount: i64) -> (r: String)
    requires
        amount > i64::MIN,
    ensures
        r@ == spec_gil(amount as int),
{
    let mag: u64 = if amount < 0 {
        (-amount) as u64
    } else {
        amount as u64
    };
    let mut digits: Vec<char> = Vec::new();
    crate::text::push_decimal(&mut digits, mag, 0);
    proof {
        assert(crate::text::zero_pad(dec(mag as nat), 0) == dec(mag as nat));
        assert(digits@ =~= dec(mag as nat));
    }
    let mut out: Vec<char> = Vec::new();
    if amount < 0 {
        out.push('-');
    }
    let ghost head = out@;
    let n = digits.len();
    let mut i: usize = 0;
    while i < n
        invariant
            n == digits@.len(),
            i <= n,
            out@ == head + group_prefix(digits@, i as int),
        decreases n - i,
    {
        if i > 0 && (n - i) % 3 == 0 {
            out.push(',');
        }
        out.push(digits[i]);
        i += 1;
        proof {
            let pre = group_prefix(digits@, (i - 1) as int);
            assert(out@ =~= head + group_prefix(digits@, i as int));
        }
    }
    out.push(' ');
    out.push('g');
    out.push('i');
    out.push('l');
    proof {
        assert((if amount < 0 { -(amount as int) } else { amount as int }) == mag as int);
        assert(out@ =~= spec_gil(amount as int));
    }
    string_from_chars(out)
}


/// An item name takes "an" exactly when its first character is a vowel
/// (a, e, i, o or u, in either case), and "a" otherwise, the empty name too.
pub proof fn law_article_follows_the_first_vowel(name: Seq<char>)
    ensures
        spec_article(name) == if name.len() > 0 && (name[0] == 'a' || name[0] == 'A' || name[0] == 'e' || name[0]
            == 'E' || name[0] == 'i' || name[0] == 'I' || name[0] == 'o' || name[0] == 'O' || name[0] == 'u'
            || name[0] == 'U') {
            seq!['a', 'n']
        } else {
            seq!['a']
        },
{
}

} // verus!
