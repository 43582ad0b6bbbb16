//! Text built in verified code as a sequence of characters, with the decimal
//! rendering of integers stated as a spec function.

use vstd::prelude::*;
use vstd::utf8::{
    decode_utf8, encode_utf8, encode_utf8_decode_utf8, encode_utf8_valid_utf8, is_ascii_chars,
    is_ascii_chars_encode_utf8, valid_utf8,
};

verus! {

/// The ASCII digit for `d` (`0 <= d < 10`).
pub open spec fn digit_char(d: int) -> char {
    (d + 48) as char
}

/// The shortest decimal rendering of `n`: `"0"` for zero, no leading zeros otherwise.
pub open spec fn dec(n: nat) -> Seq<char>
    decreases n,
{
    if n < 10 {
        seq![digit_char(n as int)]
    } else {
        dec(n / 10).push(digit_char((n % 10) as int))
    }
}

/// `s` left-padded with `'0'` to at least `width` characters.
pub open spec fn zero_pad(s: Seq<char>, width: nat) -> Seq<char> {
    if s.len() < width {
        Seq::new((width - s.len()) as nat, |_i: int| '0') + s
    } else {
        s
    }
}

/// The characters of `b` read one byte per character (Latin-1).
pub open spec fn latin1(b: Seq<u8>) -> Seq<char> {
    b.map_values(|x: u8| x as char)
}

pub open spec fn pow10(k: nat) -> nat
    decreases k,
{
    if k == 0 {
        1
    } else {
        10 * pow10((k - 1) as nat)
    }
}

/// A number below `10^k` renders in at most `k` digits, and every rendering is non-empty.
pub proof fn lemma_dec_len_bound(n: nat, k: nat)
    requires
        1 <= k,
        n < pow10(k),
    ensures
        1 <= dec(n).len() <= k,
    decreases k,
{
    if n >= 10 {
        assert(k >= 2) by {
            if k == 1 {
                assert(pow10(1) == 10 * pow10(0));
            }
        }
        let p = pow10((k - 1) as nat);
        assert(pow10(k) == 10 * p);
        assert(n / 10 < p) by (nonlinear_arith)
            requires
                n < 10 * p,
        ;
        lemma_dec_len_bound(n / 10, (k - 1) as nat);
    }
}

proof fn lemma_u64_dec_len(n: u64)
    ensures
        1 <= dec(n as nat).len() <= 20,
{
    reveal_with_fuel(pow10, 21);
    assert(pow10(20) == 100000000000000000000);
    lemma_dec_len_bound(n as nat, 20);
}

fn digit(d: u64) -> (c: char)
    requires
        d < 10,
    ensures
        c == digit_char(d as int),
{
    let b: u8 = 48u8 + d as u8;
    b as char
}

/// Number of characters in the decimal rendering of `n`.
fn dec_len(n: u64) -> (len: usize)
    ensures
        len as nat == dec(n as nat).len(),
    decreases n,
{
    proof {
        lemma_u64_dec_len(n);
    }
    if n < 10 {
        1
    } else {
        dec_len(n / 10) + 1
    }
}

fn push_dec(out: &mut Vec<char>, n: u64)
    ensures
        final(out)@ == old(out)@ + dec(n as nat),
    decreases n,
{
    if n >= 10 {
        push_dec(out, n / 10);
    }
    out.push(digit(n % 10));
}

/// Appends the decimal rendering of `n`, zero-padded to `width` characters.
pub fn push_decimal(out: &mut Vec<char>, n: u64, width: usize)
    ensures
        final(out)@ == old(out)@ + zero_pad(dec(n as nat), width as nat),
{
    let len = dec_len(n);
    let ghost start = out@;
    let mut i = len;
    while i < width
        invariant
            len <= i <= width || i == len,
            len as nat == dec(n as nat).len(),
            out@ == start + Seq::new((i - len) as nat, |_j: int| '0'),
        decreases width - i,
    {
        out.push('0');
        i = i + 1;
        proof {
            assert(out@ =~= start + Seq::new((i - len) as nat, |_j: int| '0'));
        }
    }
    let ghost padded = out@;
    push_dec(out, n);
    proof {
        if len < width {
            assert(out@ =~= start + zero_pad(dec(n as nat), width as nat));
        } else {
            assert(padded =~= start);
        }
    }
}

/// The hexadecimal digit for `d` (`0 <= d < 16`), in upper or lower case.
pub open spec fn hex_digit(d: int, upper: bool) -> char {
    if d < 10 {
        (d + 48) as char
    } else if upper {
        (d + 55) as char
    } else {
        (d + 87) as char
    }
}

/// The shortest hexadecimal rendering of `n`, without a prefix.
pub open spec fn hex(n: nat, upper: bool) -> Seq<char>
    decreases n,
{
    if n < 16 {
        seq![hex_digit(n as int, upper)]
    } else {
        hex(n / 16, upper).push(hex_digit((n % 16) as int, upper))
    }
}

fn hex_char(d: u64, upper: bool) -> (c: char)
    requires
        d < 16,
    ensures
        c == hex_digit(d as int, upper),
{
    let b: u8 = if d < 10 {
        48u8 + d as u8
    } else if upper {
        55u8 + d as u8
    } else {
        87u8 + d as u8
    };
    b as char
}

/// Appends the hexadecimal rendering of `n`.
pub fn push_hex(out: &mut Vec<char>, n: u64, upper: bool)
    ensures
        final(out)@ == old(out)@ + hex(n as nat, upper),
    decreases n,
{
    if n >= 16 {
        push_hex(out, n / 16, upper);
    }
    out.push(hex_char(n % 16, upper));
}

/// Appends the decimal rendering of `n`.
pub fn push_dec_str(out: &mut Vec<char>, n: u64)
    ensures
        final(out)@ == old(out)@ + dec(n as nat),
{
    push_dec(out, n);
}

/// Appends the characters of `s`.
pub fn push_str(out: &mut Vec<char>, s: &str)
    ensures
        final(out)@ == old(out)@ + s@,
{
    let c = chars_of(s);
    push_all(out, &c);
}

/// Appends every character of `s`.
pub fn push_all(out: &mut Vec<char>, s: &Vec<char>)
    ensures
        final(out)@ == old(out)@ + s@,
{
    let ghost start = out@;
    for i in 0..s.len()
        invariant
            out@ == start + s@.take(i as int),
    {
        out.push(s[i]);
        proof {
            assert(s@.take(i + 1) =~= s@.take(i as int).push(s@[i as int]));
        }
    }
    proof {
        assert(s@.take(s@.len() as int) =~= s@);
    }
}

/// `std::string::String::from_iter`: collects the characters, in order, into a string.
#[verifier::external_body]
pub(crate) fn string_from_chars(chars: Vec<char>) -> (s: String)
    ensures
        s@ == chars@,
{
    String::from_iter(chars)
}

/// Every byte is printable ASCII (`0x20..=0x7E`).
pub open spec fn printable_ascii(b: Seq<u8>) -> bool {
    forall|i: int| 0 <= i < b.len() ==> 0x20 <= #[trigger] b[i] <= 0x7E
}

/// ASCII bytes are their own UTF-8 encoding, one character each.
pub proof fn lemma_ascii_utf8(b: Seq<u8>)
    requires
        forall|i: int| 0 <= i < b.len() ==> #[trigger] b[i] < 128,
    ensures
        valid_utf8(b),
        decode_utf8(b) == latin1(b),
{
    let chars = latin1(b);
    assert forall|i: int| 0 <= i < chars.len() implies ((#[trigger] chars[i]) as u32) < 128 by {
        assert(chars[i] == b[i] as char);
    }
    assert(is_ascii_chars(chars));
    is_ascii_chars_encode_utf8(chars);
    assert(encode_utf8(chars) =~= b) by {
        assert forall|i: int| 0 <= i < b.len() implies encode_utf8(chars)[i] == b[i] by {
            assert(chars[i] == b[i] as char);
        }
    }
    encode_utf8_valid_utf8(chars);
    encode_utf8_decode_utf8(chars);
}

/// `std::str::from_utf8`: the bytes as a string slice when they are valid UTF-8.
#[verifier::external_body]
pub(crate) fn utf8_str(b: &[u8]) -> (r: Option<&str>)
    ensures
        r is Some <==> valid_utf8(b@),
        r matches Some(s) ==> s@ == decode_utf8(b@),
{
    std::str::from_utf8(b).ok()
}

/// The characters of `s`, in order.
pub fn chars_of(s: &str) -> (r: Vec<char>)
    ensures
        r@ == s@,
{
    broadcast use vstd::string::axiom_spec_iter, vstd::string::next_postcondition;

    let mut out: Vec<char> = Vec::new();
    for c in it: s.chars()
        invariant
            it.seq() == s@,
            out@ == it.seq().take(it.index() as int),
        ensures
            out@ == s@,
    {
        out.push(c);
        proof {
            assert(it.seq().take(it.index() + 1) =~= it.seq().take(it.index() as int).push(c));
        }
    }
    out
}

/// The Unicode `White_Space` property, which `char::is_whitespace` tests and
/// `str::trim_end` strips.
pub open spec fn is_white_space(c: char) -> bool {
    let u = c as u32;
    ||| 0x09 <= u <= 0x0D
    ||| u == 0x20
    ||| u == 0x85
    ||| u == 0xA0
    ||| u == 0x1680
    ||| 0x2000 <= u <= 0x200A
    ||| u == 0x2028
    ||| u == 0x2029
    ||| u == 0x202F
    ||| u == 0x205F
    ||| u == 0x3000
}

pub fn white_space(c: char) -> (r: bool)
    ensures
        r == is_white_space(c),
{
    let u = c as u32;
    (0x09 <= u && u <= 0x0D) || u == 0x20 || u == 0x85 || u == 0xA0 || u == 0x1680 || (0x2000
        <= u && u <= 0x200A) || u == 0x2028 || u == 0x2029 || u == 0x202F || u == 0x205F || u
        == 0x3000
}

/// `s` without its trailing white space.
pub open spec fn trim_end_ws(s: Seq<char>) -> Seq<char>
    decreases s.len(),
{
    if s.len() > 0 && is_white_space(s.last()) {
        trim_end_ws(s.drop_last())
    } else {
        s
    }
}

/// `s` without its leading white space.
pub open spec fn trim_start_ws(s: Seq<char>) -> Seq<char>
    decreases s.len(),
{
    if s.len() > 0 && is_white_space(s[0]) {
        trim_start_ws(s.drop_first())
    } else {
        s
    }
}

/// Drops the trailing white space of `v`.
pub fn trim_end_chars(v: Vec<char>) -> (r: Vec<char>)
    ensures
        r@ == trim_end_ws(v@),
{
    let mut v = v;
    let ghost orig = v@;
    while v.len() > 0 && white_space(v[v.len() - 1])
        invariant
            trim_end_ws(v@) == trim_end_ws(orig),
        decreases v.len(),
    {
        let _ = v.pop();
    }
    v
}

/// Drops the leading white space of `v`.
pub fn trim_start_chars(v: &Vec<char>) -> (r: Vec<char>)
    ensures
        r@ == trim_start_ws(v@),
{
    let mut i: usize = 0;
    assert(v@.subrange(0, v@.len() as int) =~= v@);
    while i < v.len() && white_space(v[i])
        invariant
            i <= v@.len(),
            trim_start_ws(v@.subrange(i as int, v@.len() as int)) == trim_start_ws(v@),
        decreases v.len() - i,
    {
        proof {
            assert(v@.subrange(i as int, v@.len() as int).drop_first() =~= v@.subrange(
                i + 1,
                v@.len() as int,
            ));
        }
        i += 1;
    }
    let mut out: Vec<char> = Vec::new();
    let mut j = i;
    while j < v.len()
        invariant
            i <= j <= v@.len(),
            out@ == v@.subrange(i as int, j as int),
        decreases v.len() - j,
    {
        out.push(v[j]);
        j += 1;
        proof {
            assert(out@ =~= v@.subrange(i as int, j as int));
        }
    }
    out
}

/// Whether `a` and `b` hold the same characters.
pub fn chars_eq(a: &Vec<char>, b: &Vec<char>) -> (r: bool)
    ensures
        r == (a@ == b@),
{
    if a.len() != b.len() {
        return false;
    }
    let mut i: usize = 0;
    while i < a.len()
        invariant
            a@.len() == b@.len(),
            i <= a@.len(),
            a@.take(i as int) == b@.take(i as int),
        decreases a.len() - i,
    {
        if a[i] != b[i] {
            assert(a@[i as int] != b@[i as int]);
            return false;
        }
        proof {
            assert(a@.take(i + 1) =~= a@.take(i as int).push(a@[i as int]));
            assert(b@.take(i + 1) =~= b@.take(i as int).push(b@[i as int]));
        }
        i += 1;
    }
    proof {
        assert(a@ =~= a@.take(i as int));
        assert(b@ =~= b@.take(i as int));
    }
    true
}

/// `t` ends with `n`.
pub open spec fn ends_with<T>(t: Seq<T>, n: Seq<T>) -> bool {
    t.len() >= n.len() && t.subrange(t.len() - n.len(), t.len() as int) == n
}

/// Whether the bytes `t` end with the bytes `n`.
pub fn bytes_end_with(t: &[u8], n: &[u8]) -> (r: bool)
    ensures
        r == ends_with(t@, n@),
{
    if t.len() < n.len() {
        return false;
    }
    let off = t.len() - n.len();
    let mut i: usize = 0;
    while i < n.len()
        invariant
            off + n@.len() == t@.len(),
            t@.len() <= usize::MAX,
            i <= n@.len(),
            forall|k: int| 0 <= k < i ==> t@[off + k] == n@[k],
        decreases n.len() - i,
    {
        if t[off + i] != n[i] {
            proof {
                let tail = t@.subrange(off as int, t@.len() as int);
                assert(tail[i as int] != n@[i as int]);
            }
            return false;
        }
        i += 1;
    }
    proof {
        assert(t@.subrange(off as int, t@.len() as int) =~= n@);
    }
    true
}

/// The bytes that encode `chars` as UTF-8.
pub fn utf8_bytes(chars: Vec<char>) -> (r: Vec<u8>)
    ensures
        r@ == encode_utf8(chars@),
{
    let s = string_from_chars(chars);
    let b = s.as_str().as_bytes();
    vstd::slice::slice_to_vec(b)
}

/// What `String::from_utf8_lossy` makes of `b`: the text with every invalid
/// sequence replaced by U+FFFD.
pub uninterp spec fn utf8_lossy(b: Seq<u8>) -> Seq<char>;

/// `std::string::String::from_utf8_lossy`: the bytes as text, invalid sequences
/// replaced; valid UTF-8 is decoded as it is.
#[verifier::external_body]
pub(crate) fn string_from_utf8_lossy(b: &[u8]) -> (r: String)
    ensures
        r@ == utf8_lossy(b@),
        valid_utf8(b@) ==> r@ == decode_utf8(b@),
{
    String::from_utf8_lossy(b).into_owned()
}

/// `s` without white space at either end.
pub open spec fn trim_ws(s: Seq<char>) -> Seq<char> {
    trim_start_ws(trim_end_ws(s))
}

pub open spec fn ascii_lower(c: char) -> char {
    if 'A' <= c <= 'Z' {
        ((c as u32) + 32) as char
    } else {
        c
    }
}

/// Equal up to the case of ASCII letters.
pub open spec fn eq_ignore_ascii_case(a: Seq<char>, b: Seq<char>) -> bool {
    a.len() == b.len() && forall|i: int| 0 <= i < a.len() ==> ascii_lower(#[trigger] a[i]) == ascii_lower(b[i])
}

pub open spec fn is_digit(c: char) -> bool {
    '0' <= c <= '9'
}

/// The number the decimal digits `d` spell.
pub open spec fn digits_value(d: Seq<char>) -> nat
    decreases d.len(),
{
    if d.len() == 0 {
        0
    } else {
        10 * digits_value(d.drop_last()) + ((d.last() as u32) - 48) as nat
    }
}

/// The characters after an optional leading `+`.
pub open spec fn unsigned_digits(s: Seq<char>) -> Seq<char> {
    if s.len() > 0 && s[0] == '+' {
        s.drop_first()
    } else {
        s
    }
}

pub open spec fn all_digits(d: Seq<char>) -> bool {
    forall|i: int| 0 <= i < d.len() ==> is_digit(#[trigger] d[i])
}

/// `str::parse::<u32>`: an optional `+`, then at least one decimal digit and
/// nothing else, with a value that fits.
pub open spec fn spec_parse_u32(s: Seq<char>) -> Option<u32> {
    let d = unsigned_digits(s);
    if d.len() == 0 || !all_digits(d) {
        None
    } else if digits_value(d) > u32::MAX {
        None
    } else {
        Some(digits_value(d) as u32)
    }
}

/// The first position of `c` in `s`.
pub open spec fn first_index(s: Seq<char>, c: char) -> Option<int>
    decreases s.len(),
{
    if s.len() == 0 {
        None
    } else {
        match first_index(s.drop_last(), c) {
            Some(i) => Some(i),
            None => if s.last() == c {
                Some(s.len() - 1)
            } else {
                None
            },
        }
    }
}

pub fn sub_chars(v: &Vec<char>, lo: usize, hi: usize) -> (r: Vec<char>)
    requires
        lo <= hi <= v@.len(),
    ensures
        r@ == v@.subrange(lo as int, hi as int),
{
    let mut out: Vec<char> = Vec::new();
    let mut j = lo;
    while j < hi
        invariant
            lo <= j <= hi <= v@.len(),
            out@ == v@.subrange(lo as int, j as int),
        decreases hi - j,
    {
        out.push(v[j]);
        j += 1;
        proof {
            assert(out@ =~= v@.subrange(lo as int, j as int));
        }
    }
    out
}

pub fn trim_chars(v: Vec<char>) -> (r: Vec<char>)
    ensures
        r@ == trim_ws(v@),
{
    let t = trim_end_chars(v);
    trim_start_chars(&t)
}

pub fn eq_ignore_case(a: &Vec<char>, b: &Vec<char>) -> (r: bool)
    ensures
        r == eq_ignore_ascii_case(a@, b@),
{
    if a.len() != b.len() {
        return false;
    }
    let mut i: usize = 0;
    while i < a.len()
        invariant
            a@.len() == b@.len(),
            i <= a@.len(),
            forall|k: int| 0 <= k < i ==> ascii_lower(#[trigger] a@[k]) == ascii_lower(b@[k]),
        decreases a.len() - i,
    {
        let x = a[i];
        let y = b[i];
        let lx = if 'A' <= x && x <= 'Z' {
            ((x as u32) + 32) as u32
        } else {
            x as u32
        };
        let ly = if 'A' <= y && y <= 'Z' {
            ((y as u32) + 32) as u32
        } else {
            y as u32
        };
        if lx != ly {
            assert(ascii_lower(a@[i as int]) as u32 == lx);
            assert(ascii_lower(b@[i as int]) as u32 == ly);
            return false;
        }
        assert(ascii_lower(a@[i as int]) as u32 == ascii_lower(b@[i as int]) as u32);
        i += 1;
    }
    true
}

pub fn parse_u32_chars(s: &Vec<char>) -> (r: Option<u32>)
    ensures
        r == spec_parse_u32(s@),
{
    let ghost d = unsigned_digits(s@);
    let start: usize = if s.len() > 0 && s[0] == '+' {
        1
    } else {
        0
    };
    assert(d =~= s@.subrange(start as int, s@.len() as int));
    if start == s.len() {
        return None;
    }
    let mut acc: u64 = 0;
    let mut over = false;
    let mut i = start;
    while i < s.len()
        invariant
            start <= i <= s@.len(),
            d == unsigned_digits(s@),
            d == s@.subrange(start as int, s@.len() as int),
            forall|k: int| 0 <= k < i - start ==> is_digit(#[trigger] d[k]),
            !over ==> acc == digits_value(d.take(i - start)),
            !over ==> acc <= u32::MAX,
            over ==> digits_value(d.take(i - start)) > u32::MAX,
        decreases s.len() - i,
    {
        let c = s[i];
        if !('0' <= c && c <= '9') {
            proof {
                let w = i - start;
                assert(d[w] == c);
                assert(0 <= w < d.len() && !is_digit(d[w]));
                assert(!all_digits(d));
            }
            return None;
        }
        proof {
            assert(d.take(i - start + 1).drop_last() =~= d.take(i - start));
            assert(d.take(i - start + 1).last() == c);
        }
        if !over {
            acc = acc * 10 + ((c as u32) - 48) as u64;
            if acc > u32::MAX as u64 {
                over = true;
            }
        }
        i += 1;
    }
    proof {
        assert(d.take(d.len() as int) =~= d);
    }
    if over {
        None
    } else {
        Some(acc as u32)
    }
}

pub proof fn lemma_first_index_prefix(s: Seq<char>, c: char, j: int)
    requires
        0 <= j <= s.len(),
        first_index(s.take(j), c) is Some,
    ensures
        first_index(s, c) == first_index(s.take(j), c),
    decreases s.len() - j,
{
    if j < s.len() {
        assert(s.take(j + 1).drop_last() =~= s.take(j));
        lemma_first_index_prefix(s, c, j + 1);
    } else {
        assert(s.take(j) =~= s);
    }
}

pub fn find_char(v: &Vec<char>, c: char) -> (r: Option<usize>)
    ensures
        r is None <==> first_index(v@, c) is None,
        r matches Some(k) ==> k < v@.len() && first_index(v@, c) == Some(k as int),
{
    let mut i: usize = 0;
    assert(v@.take(0) =~= Seq::<char>::empty());
    while i < v.len()
        invariant
            i <= v@.len(),
            first_index(v@.take(i as int), c) is None,
        decreases v.len() - i,
    {
        proof {
            assert(v@.take(i + 1).drop_last() =~= v@.take(i as int));
        }
        if v[i] == c {
            proof {
                lemma_first_index_prefix(v@, c, i + 1);
            }
            return Some(i);
        }
        i += 1;
    }
    proof {
        assert(v@.take(i as int) =~= v@);
    }
    None
}

} // verus!
