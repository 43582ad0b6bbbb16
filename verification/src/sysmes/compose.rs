//! Composing a system-message entry into spans. An entry is bytes: printable
//! ASCII is text, and control codes substitute the caller's parameters:
//!
//! - `0x1F <mode>` sets the chat-log mode; `0x07` starts a new log line.
//! - `0x0A <n>` and `0x12 <n>` write number `n`; `0x1C <n>` writes string `n`.
//! - `0x01 0x01 0x01` writes the article of the item named next; `0x01 0x01
//!   0x11` writes the target's name.
//! - `0x01 <len> <len bytes>` is an inline tag: its second byte is the marker
//!   (`0x82` names an item, which becomes a span of its own; any other marker
//!   writes a number) and its third byte, less its high bit, the slot.
//! - `0x7F <kind> <n>` is an auto code: `0x80` capitalises the next
//!   substitution, `0x88` makes the next `[a/b]` keep `a` only for an unnamed
//!   target, `0x86`/`0x92` make it keep `a` only when number `n` is one,
//!   `0xB4` writes number `n` as gil, `0x31` ends the message, and the
//!   caster-emphasis pair `0xFC`/`0xFB` takes no parameter byte.
//! - A Shift-JIS lead byte and its trail byte become U+FFFD; any other byte is
//!   dropped.
//!
//! A slot the caller left unset writes nothing (a string or item) or `0` (a number).

use vstd::prelude::*;
use crate::text::{chars_of, dec, latin1, push_all, push_dec_str, string_from_chars};
use super::{article_for, format_gil, spec_article, spec_gil, Span, SpanKind, SysMesLine, SysMesParams, PARAM_SLOTS};

verus! {

pub const CC_INLINE_TAG: u8 = 0x01;
pub const CC_NEWLINE: u8 = 0x07;
pub const CC_NUM: u8 = 0x0A;
pub const CC_NUM2: u8 = 0x12;
pub const CC_TEXT_PARAM: u8 = 0x1C;
pub const CC_LOG_MODE: u8 = 0x1F;
pub const CC_AUTO: u8 = 0x7F;
/// `[`, `/` and `]`: an alternative `[first/second]`.
pub const ALT_OPEN: u8 = 0x5B;
pub const ALT_SPLIT: u8 = 0x2F;
pub const ALT_CLOSE: u8 = 0x5D;
pub const SLOT_ARTICLE: u8 = 0x01;
pub const SLOT_TARGET_NAME: u8 = 0x11;
pub const AUTO_END: u8 = 0x31;
pub const AUTO_CAPITALIZE: u8 = 0x80;
pub const AUTO_PLURAL_WORD: u8 = 0x86;
pub const AUTO_TARGET_ARTICLE: u8 = 0x88;
pub const AUTO_PLURAL_SUFFIX: u8 = 0x92;
pub const AUTO_GIL: u8 = 0xB4;
pub const AUTO_CASTER_CLOSE: u8 = 0xFB;
pub const AUTO_CASTER_OPEN: u8 = 0xFC;
pub const MARKER_ITEM: u8 = 0x82;
pub const REPLACEMENT: char = '\u{FFFD}';

/// What `char::to_uppercase` yields for `c`.
pub uninterp spec fn to_upper(c: char) -> Seq<char>;

/// `std::char::to_uppercase`, collected: one or more characters, and for an
/// ASCII lowercase letter its uppercase letter.
#[verifier::external_body]
fn char_uppercase(c: char) -> (r: String)
    ensures
        r@ == to_upper(c),
        r@.len() >= 1,
        'a' <= c <= 'z' ==> r@ == seq![((c as u32) - 32) as char],
{
    c.to_uppercase().collect::<String>()
}

/// Which `[a/b]` alternative the pending auto code selects.
#[derive(Debug, Clone, Copy, PartialEq, Eq, Structural)]
pub enum Alt {
    Nothing,
    /// `[the /]`: keep the first branch for an unnamed target.
    Article,
    /// `[singular/plural]`: keep the first branch when number `n` is one.
    Plural(usize),
}

/// A span as text and colour.
pub type SpanView = (Seq<char>, SpanKind);

/// The composer's state: the log lines so far (the last one open), text not
/// yet closed into a span, the pending alternative, whether the next
/// substitution is capitalised, the log mode, and whether a gil amount was
/// `i64::MIN`, which has no magnitude to write.
pub type ComposeState = (Seq<Seq<SpanView>>, Seq<char>, Alt, bool, Option<u8>, bool);

pub open spec fn initial_state() -> ComposeState {
    (seq![Seq::<SpanView>::empty()], Seq::empty(), Alt::Nothing, false, None, false)
}

pub open spec fn opt_text(o: Option<&str>) -> Seq<char> {
    match o {
        Some(s) => s@,
        None => Seq::empty(),
    }
}

/// String slot `k`; nothing when unset or out of range.
pub open spec fn slot_text(a: [Option<&str>; 8], k: int) -> Seq<char> {
    if 0 <= k < 8 {
        opt_text(a@[k])
    } else {
        Seq::empty()
    }
}

/// Number slot `k`; zero when out of range.
pub open spec fn slot_number(a: [i64; 8], k: int) -> int {
    if 0 <= k < 8 {
        a@[k] as int
    } else {
        0
    }
}

/// The byte at `i`, zero past the end.
pub open spec fn byte_or_zero(e: Seq<u8>, i: int) -> int {
    if 0 <= i < e.len() {
        e[i] as int
    } else {
        0
    }
}

/// A number as `i64::to_string` writes it.
pub open spec fn idec(n: int) -> Seq<char> {
    if n < 0 {
        seq!['-'] + dec((-n) as nat)
    } else {
        dec(n as nat)
    }
}

/// The inline tag at `i`: its marker, slot and total length.
pub open spec fn tag_at(e: Seq<u8>, i: int) -> Option<(u8, int, int)> {
    if 0 <= i && i + 2 <= e.len() && e[i] == CC_INLINE_TAG && e[i + 1] >= 3 && i + 2 + e[i + 1] <= e.len() {
        Some((e[i + 3], (e[i + 4] & 0x7Fu8) as int, 2 + e[i + 1]))
    } else {
        None
    }
}

/// The item named by the first item tag from `j` on (tags are stepped over
/// whole); nothing when there is none or its slot is unset.
pub open spec fn next_item(e: Seq<u8>, items: [Option<&str>; 8], j: int) -> Seq<char>
    decreases e.len() - j,
{
    if j < 0 || j >= e.len() {
        Seq::empty()
    } else {
        match tag_at(e, j) {
            Some((m, k, len)) => if m == MARKER_ITEM {
                slot_text(items, k)
            } else {
                next_item(e, items, j + len)
            },
            None => next_item(e, items, j + 1),
        }
    }
}

/// The first position from `j` on holding `b`.
pub open spec fn byte_from(e: Seq<u8>, j: int, b: u8) -> Option<int>
    decreases e.len() - j,
{
    if j < 0 || j >= e.len() {
        None
    } else if e[j] == b {
        Some(j)
    } else {
        byte_from(e, j + 1, b)
    }
}

/// The alternative `[first/second]` opening at `i`: both branches and its
/// length; nothing without a `/` before the closing `]`.
pub open spec fn alt_at(e: Seq<u8>, i: int) -> Option<(Seq<char>, Seq<char>, int)> {
    match byte_from(e, i + 1, ALT_CLOSE) {
        None => None,
        Some(c) => match byte_from(e, i + 1, ALT_SPLIT) {
            Some(s) => if s < c {
                Some((latin1(e.subrange(i + 1, s)), latin1(e.subrange(s + 1, c)), c + 1 - i))
            } else {
                None
            },
            None => None,
        },
    }
}

pub open spec fn is_sjis_lead(b: u8) -> bool {
    (0x81 <= b <= 0x9F) || (0xE0 <= b <= 0xFC)
}

/// `s` with its first character uppercased when `cap` is set.
pub open spec fn capitalized(cap: bool, s: Seq<char>) -> Seq<char> {
    if cap && s.len() > 0 {
        to_upper(s[0]) + s.drop_first()
    } else {
        s
    }
}

/// Plain text joins the open text; it takes (and clears) a pending capital.
pub open spec fn push_text(st: ComposeState, s: Seq<char>) -> ComposeState {
    (st.0, st.1 + capitalized(st.3, s), st.2, false, st.4, st.5)
}

/// The open text, if any, becomes a text span of the open line.
pub open spec fn flush(st: ComposeState) -> ComposeState {
    if st.1.len() > 0 {
        let n = st.0.len() - 1;
        (st.0.update(n, st.0[n].push((st.1, SpanKind::Text))), Seq::empty(), st.2, st.3, st.4, st.5)
    } else {
        st
    }
}

/// A non-empty substitution of its own colour closes the open text and
/// becomes a span of its own; an empty one changes nothing.
pub open spec fn push_span(st: ComposeState, s: Seq<char>, kind: SpanKind) -> ComposeState {
    if s.len() == 0 {
        st
    } else {
        let f = flush(st);
        let n = f.0.len() - 1;
        (f.0.update(n, f.0[n].push((capitalized(st.3, s), kind))), f.1, f.2, false, f.4, f.5)
    }
}

pub open spec fn newline(st: ComposeState) -> ComposeState {
    let f = flush(st);
    (f.0.push(Seq::empty()), f.1, f.2, f.3, f.4, f.5)
}

/// One step of composition at `i`: where the next step starts (the end, to
/// stop) and the state after this one.
pub open spec fn compose_step(e: Seq<u8>, p: SysMesParams, i: int, st: ComposeState) -> (int, ComposeState) {
    let b = e[i];
    if b == CC_LOG_MODE {
        (i + 2, (st.0, st.1, st.2, st.3, if i + 1 < e.len() { Some(e[i + 1]) } else { None }, st.5))
    } else if b == CC_AUTO {
        if i + 1 >= e.len() {
            (e.len() as int, st)
        } else {
            let kind = e[i + 1];
            let param = byte_or_zero(e, i + 2);
            if kind == AUTO_END {
                (e.len() as int, st)
            } else if kind == AUTO_CASTER_OPEN || kind == AUTO_CASTER_CLOSE {
                (i + 2, st)
            } else if kind == AUTO_CAPITALIZE {
                (i + 3, (st.0, st.1, st.2, true, st.4, st.5))
            } else if kind == AUTO_TARGET_ARTICLE {
                (i + 3, (st.0, st.1, Alt::Article, st.3, st.4, st.5))
            } else if kind == AUTO_PLURAL_WORD || kind == AUTO_PLURAL_SUFFIX {
                (i + 3, (st.0, st.1, Alt::Plural(param as usize), st.3, st.4, st.5))
            } else if kind == AUTO_GIL {
                let n = slot_number(p.numbers, param);
                let t = push_text(st, spec_gil(n));
                (i + 3, (t.0, t.1, t.2, t.3, t.4, t.5 || n == i64::MIN))
            } else {
                (i + 3, st)
            }
        }
    } else if b == CC_INLINE_TAG && i + 2 < e.len() && e[i + 1] == CC_INLINE_TAG && (e[i + 2] == SLOT_ARTICLE
        || e[i + 2] == SLOT_TARGET_NAME) {
        if e[i + 2] == SLOT_ARTICLE {
            (i + 3, push_text(st, spec_article(next_item(e, p.items, i))))
        } else {
            (i + 3, push_text(st, opt_text(p.target_name)))
        }
    } else if b == CC_INLINE_TAG {
        match tag_at(e, i) {
            Some((m, k, len)) => (i + len, if m == MARKER_ITEM {
                push_span(st, slot_text(p.items, k), SpanKind::Item)
            } else {
                push_text(st, idec(slot_number(p.numbers, k)))
            }),
            None => (i + 1, st),
        }
    } else if b == CC_NUM || b == CC_NUM2 {
        (i + 2, push_text(st, idec(slot_number(p.numbers, byte_or_zero(e, i + 1)))))
    } else if b == CC_TEXT_PARAM {
        (i + 2, push_text(st, slot_text(p.strings, byte_or_zero(e, i + 1))))
    } else if b == ALT_OPEN && st.2 != Alt::Nothing && alt_at(e, i) is Some {
        let (first, second, len) = alt_at(e, i)->0;
        let keep_first = match st.2 {
            Alt::Article => p.target_article,
            Alt::Plural(k) => slot_number(p.numbers, k as int) == 1,
            Alt::Nothing => true,
        };
        let t = push_text(st, if keep_first { first } else { second });
        (i + len, (t.0, t.1, Alt::Nothing, t.3, t.4, t.5))
    } else if b == CC_NEWLINE {
        (i + 1, newline(st))
    } else if 0x20 <= b <= 0x7E {
        (i + 1, push_text(st, seq![b as char]))
    } else if is_sjis_lead(b) {
        (i + 2, push_text(st, seq![REPLACEMENT]))
    } else {
        (i + 1, st)
    }
}

/// Composition from position `i` on.
pub open spec fn compose_from(e: Seq<u8>, p: SysMesParams, i: int, st: ComposeState) -> ComposeState
    decreases e.len() - i,
{
    if i < 0 || i >= e.len() {
        st
    } else {
        let (j, next) = compose_step(e, p, i, st);
        if j <= i || j >= e.len() {
            next
        } else {
            compose_from(e, p, j, next)
        }
    }
}

/// The lines that hold any span.
pub open spec fn nonempty_lines(ls: Seq<Seq<SpanView>>) -> Seq<Seq<SpanView>>
    decreases ls.len(),
{
    if ls.len() == 0 {
        Seq::empty()
    } else if ls.last().len() == 0 {
        nonempty_lines(ls.drop_last())
    } else {
        nonempty_lines(ls.drop_last()).push(ls.last())
    }
}

/// The composed entry: its log mode, and its log lines with the open text
/// closed and empty lines dropped.
pub open spec fn spec_compose(e: Seq<u8>, p: SysMesParams) -> (Option<u8>, Seq<Seq<SpanView>>) {
    let st = flush(compose_from(e, p, 0, initial_state()));
    (st.4, nonempty_lines(st.0))
}

/// Whether composing the entry writes a gil amount of `i64::MIN`.
pub open spec fn gil_out_of_range(e: Seq<u8>, p: SysMesParams) -> bool {
    compose_from(e, p, 0, initial_state()).5
}



/// Every span of the line has text.
pub open spec fn span_texts_nonempty(l: Seq<SpanView>) -> bool {
    forall|k: int| 0 <= k < l.len() ==> (#[trigger] l[k]).0.len() > 0
}

/// No two text spans of the line stand next to each other.
pub open spec fn no_adjacent_text(l: Seq<SpanView>) -> bool {
    forall|j: int, k: int|
        0 <= j && k == j + 1 && k < l.len() ==> !((#[trigger] l[j]).1 == SpanKind::Text && (#[trigger] l[k]).1
            == SpanKind::Text)
}

pub open spec fn line_ok(l: Seq<SpanView>) -> bool {
    span_texts_nonempty(l) && no_adjacent_text(l)
}

/// Composed lines as a renderer expects them: none empty, no empty span, and
/// text runs merged into single spans.
pub open spec fn lines_well_formed(ls: Seq<Seq<SpanView>>) -> bool {
    forall|i: int| 0 <= i < ls.len() ==> (#[trigger] ls[i]).len() > 0 && line_ok(ls[i])
}

/// Between steps: at least one line, every line well formed, and the open
/// line not ending in a text span (the open text would join it).
pub open spec fn open_ok(st: ComposeState) -> bool {
    &&& st.0.len() >= 1
    &&& forall|i: int| 0 <= i < st.0.len() ==> line_ok(#[trigger] st.0[i])
    &&& (st.0.last().len() == 0 || st.0.last().last().1 != SpanKind::Text)
}

proof fn lemma_flush_ok(st: ComposeState)
    requires
        open_ok(st),
    ensures
        flush(st).0.len() == st.0.len(),
        forall|i: int| 0 <= i < flush(st).0.len() ==> line_ok(#[trigger] flush(st).0[i]),
{
    if st.1.len() > 0 {
        let n = st.0.len() - 1;
        let l = st.0[n];
        let l2 = l.push((st.1, SpanKind::Text));
        assert(line_ok(l));
        assert forall|k: int| 0 <= k < l2.len() implies (#[trigger] l2[k]).0.len() > 0 by {
            if k < l.len() {
                assert(l2[k] == l[k]);
            }
        }
        assert forall|j: int, k: int| 0 <= j && k == j + 1 && k < l2.len() implies !((#[trigger] l2[j]).1
            == SpanKind::Text && (#[trigger] l2[k]).1 == SpanKind::Text) by {
            if k < l.len() {
                assert(l2[j] == l[j] && l2[k] == l[k]);
            } else {
                assert(l2[j] == l.last());
            }
        }
        assert forall|i: int| 0 <= i < flush(st).0.len() implies line_ok(#[trigger] flush(st).0[i]) by {
            if i != n {
                assert(flush(st).0[i] == st.0[i]);
            }
        }
    }
}

proof fn lemma_push_span_ok(st: ComposeState, s: Seq<char>, kind: SpanKind)
    requires
        open_ok(st),
        s.len() > 0,
        capitalized(st.3, s).len() > 0,
        kind != SpanKind::Text,
    ensures
        open_ok(push_span(st, s, kind)),
{
    lemma_flush_ok(st);
    let f = flush(st);
    let n = f.0.len() - 1;
    let l = f.0[n];
    let sp = (capitalized(st.3, s), kind);
    let l2 = l.push(sp);
    let r = push_span(st, s, kind);
    assert(r.0 == f.0.update(n, l2));
    assert(line_ok(l));
    assert forall|k: int| 0 <= k < l2.len() implies (#[trigger] l2[k]).0.len() > 0 by {
        if k < l.len() {
            assert(l2[k] == l[k]);
        }
    }
    assert forall|j: int, k: int| 0 <= j && k == j + 1 && k < l2.len() implies !((#[trigger] l2[j]).1
        == SpanKind::Text && (#[trigger] l2[k]).1 == SpanKind::Text) by {
        if k < l.len() {
            assert(l2[j] == l[j] && l2[k] == l[k]);
        }
    }
    assert forall|i: int| 0 <= i < r.0.len() implies line_ok(#[trigger] r.0[i]) by {
        if i != n {
            assert(r.0[i] == f.0[i]);
        }
    }
}

proof fn lemma_newline_ok(st: ComposeState)
    requires
        open_ok(st),
    ensures
        open_ok(newline(st)),
{
    lemma_flush_ok(st);
    let f = flush(st);
    let r = newline(st);
    assert forall|i: int| 0 <= i < r.0.len() implies line_ok(#[trigger] r.0[i]) by {
        if i < f.0.len() {
            assert(r.0[i] == f.0[i]);
        }
    }
}

proof fn lemma_nonempty_lines_ok(ls: Seq<Seq<SpanView>>)
    requires
        forall|i: int| 0 <= i < ls.len() ==> line_ok(#[trigger] ls[i]),
    ensures
        lines_well_formed(nonempty_lines(ls)),
    decreases ls.len(),
{
    if ls.len() > 0 {
        let d = ls.drop_last();
        assert forall|i: int| 0 <= i < d.len() implies line_ok(#[trigger] d[i]) by {
            assert(d[i] == ls[i]);
        }
        lemma_nonempty_lines_ok(d);
        if ls.last().len() > 0 {
            let r = nonempty_lines(ls);
            let rd = nonempty_lines(d);
            assert forall|i: int| 0 <= i < r.len() implies (#[trigger] r[i]).len() > 0 && line_ok(r[i]) by {
                if i < rd.len() {
                    assert(r[i] == rd[i]);
                } else {
                    assert(line_ok(ls[ls.len() - 1]));
                }
            }
        }
    }
}

proof fn lemma_flag_sticks(e: Seq<u8>, p: SysMesParams, i: int, st: ComposeState)
    requires
        st.5,
    ensures
        compose_from(e, p, i, st).5,
    decreases e.len() - i,
{
    if 0 <= i < e.len() {
        let (j, next) = compose_step(e, p, i, st);
        assert(next.5);
        if j > i && j < e.len() {
            lemma_flag_sticks(e, p, j, next);
        }
    }
}

fn number_text(n: i64) -> (r: Vec<char>)
    ensures
        r@ == idec(n as int),
{
    let mut out: Vec<char> = Vec::new();
    if n < 0 {
        out.push('-');
        let m: u64 = ((-(n + 1)) as u64) + 1;
        assert(m as int == -(n as int));
        push_dec_str(&mut out, m);
    } else {
        push_dec_str(&mut out, n as u64);
    }
    out
}

fn slot_text_of(a: &[Option<&str>; 8], k: usize) -> (r: Vec<char>)
    ensures
        r@ == slot_text(*a, k as int),
{
    if k < PARAM_SLOTS {
        match a[k] {
            Some(s) => chars_of(s),
            None => Vec::new(),
        }
    } else {
        Vec::new()
    }
}

fn slot_number_of(a: &[i64; 8], k: usize) -> (r: i64)
    ensures
        r as int == slot_number(*a, k as int),
{
    if k < PARAM_SLOTS {
        a[k]
    } else {
        0
    }
}

fn byte_or_zero_of(e: &[u8], i: usize) -> (r: usize)
    ensures
        r as int == byte_or_zero(e@, i as int),
{
    if i < e.len() {
        e[i] as usize
    } else {
        0
    }
}

fn tag_of(e: &[u8], i: usize) -> (r: Option<(u8, usize, usize)>)
    ensures
        r is None <==> tag_at(e@, i as int) is None,
        r matches Some((m, k, len)) ==> tag_at(e@, i as int) == Some((m, k as int, len as int)) && len >= 5 && i
            + len <= e@.len(),
{
    let n = e.len();
    if i < n && n - i >= 2 && e[i] == CC_INLINE_TAG && e[i + 1] >= 3 && (e[i + 1] as usize) <= n - i - 2 {
        Some((e[i + 3], (e[i + 4] & 0x7F) as usize, 2 + e[i + 1] as usize))
    } else {
        None
    }
}

fn next_item_of(e: &[u8], items: &[Option<&str>; 8], from: usize) -> (r: Vec<char>)
    requires
        from <= e@.len(),
    ensures
        r@ == next_item(e@, *items, from as int),
{
    let mut j = from;
    while j < e.len()
        invariant
            j <= e@.len(),
            next_item(e@, *items, j as int) == next_item(e@, *items, from as int),
        decreases e.len() - j,
    {
        match tag_of(e, j) {
            Some((m, k, len)) => {
                if m == MARKER_ITEM {
                    return slot_text_of(items, k);
                }
                j = j + len;
            },
            None => {
                j = j + 1;
            },
        }
    }
    Vec::new()
}

fn byte_from_of(e: &[u8], j: usize, b: u8) -> (r: Option<usize>)
    requires
        j <= e@.len(),
    ensures
        r is None <==> byte_from(e@, j as int, b) is None,
        r matches Some(k) ==> j <= k < e@.len() && byte_from(e@, j as int, b) == Some(k as int),
{
    let mut k = j;
    while k < e.len()
        invariant
            j <= k <= e@.len(),
            byte_from(e@, k as int, b) == byte_from(e@, j as int, b),
        decreases e.len() - k,
    {
        if e[k] == b {
            return Some(k);
        }
        k += 1;
    }
    None
}

fn latin1_of(e: &[u8], lo: usize, hi: usize) -> (r: Vec<char>)
    requires
        lo <= hi <= e@.len(),
    ensures
        r@ == latin1(e@.subrange(lo as int, hi as int)),
{
    let mut out: Vec<char> = Vec::new();
    let mut k = lo;
    while k < hi
        invariant
            lo <= k <= hi <= e@.len(),
            out@ == latin1(e@.subrange(lo as int, k as int)),
        decreases hi - k,
    {
        out.push(e[k] as char);
        k += 1;
        proof {
            assert(out@ =~= latin1(e@.subrange(lo as int, k as int)));
        }
    }
    out
}

fn alt_of(e: &[u8], i: usize) -> (r: Option<(Vec<char>, Vec<char>, usize)>)
    requires
        i < e@.len(),
    ensures
        match alt_at(e@, i as int) {
            Some((f, s, len)) => r matches Some((f2, s2, len2)) && f2@ == f && s2@ == s && len2 == len,
            None => r is None,
        },
        r matches Some((_, _, len)) ==> len >= 2,
{
    let _n = e.len();
    let c = match byte_from_of(e, i + 1, ALT_CLOSE) {
        None => return None,
        Some(c) => c,
    };
    let s = match byte_from_of(e, i + 1, ALT_SPLIT) {
        None => return None,
        Some(s) => s,
    };
    assert(byte_from(e@, i + 1, ALT_CLOSE) == Some(c as int));
    assert(byte_from(e@, i + 1, ALT_SPLIT) == Some(s as int));
    if s >= c {
        return None;
    }
    assert(alt_at(e@, i as int) == Some(
        (latin1(e@.subrange(i + 1, s as int)), latin1(e@.subrange(s + 1, c as int)), c + 1 - i),
    ));
    Some((latin1_of(e, i + 1, s), latin1_of(e, s + 1, c), c + 1 - i))
}

fn capitalized_of(cap: bool, s: Vec<char>) -> (r: Vec<char>)
    ensures
        r@ == capitalized(cap, s@),
        s@.len() > 0 ==> r@.len() > 0,
{
    if cap && s.len() > 0 {
        let up = char_uppercase(s[0]);
        let mut out = chars_of(up.as_str());
        let mut k: usize = 1;
        let ghost head = out@;
        while k < s.len()
            invariant
                1 <= k <= s@.len(),
                out@ == head + s@.subrange(1, k as int),
            decreases s.len() - k,
        {
            out.push(s[k]);
            k += 1;
            proof {
                assert(out@ =~= head + s@.subrange(1, k as int));
            }
        }
        proof {
            assert(s@.subrange(1, k as int) =~= s@.drop_first());
        }
        out
    } else {
        s
    }
}

/// The spans of each line as text and colour.
pub open spec fn lines_view(ls: Seq<Vec<Span>>) -> Seq<Seq<SpanView>> {
    ls.map_values(|l: Vec<Span>| l@.map_values(|s: Span| (s.text@, s.kind)))
}

struct Composer {
    lines: Vec<Vec<Span>>,
    pending: Vec<char>,
    alt: Alt,
    capitalize: bool,
    log_mode: Option<u8>,
}

impl Composer {
    spec fn state(&self) -> ComposeState {
        (lines_view(self.lines@), self.pending@, self.alt, self.capitalize, self.log_mode, false)
    }

    spec fn wf(&self) -> bool {
        self.lines@.len() >= 1
    }

    fn new() -> (r: Composer)
        ensures
            r.wf(),
            r.state() == initial_state(),
            open_ok(r.state()),
    {
        let mut lines: Vec<Vec<Span>> = Vec::new();
        lines.push(Vec::new());
        let r = Composer { lines, pending: Vec::new(), alt: Alt::Nothing, capitalize: false, log_mode: None };
        proof {
            assert(lines_view(r.lines@)[0] =~= Seq::<SpanView>::empty());
            assert(lines_view(r.lines@) =~= seq![Seq::<SpanView>::empty()]);
        }
        r
    }

    fn push_to_last(&mut self, sp: Span)
        requires
            old(self).wf(),
        ensures
            final(self).wf(),
            final(self).pending == old(self).pending,
            final(self).alt == old(self).alt,
            final(self).capitalize == old(self).capitalize,
            final(self).log_mode == old(self).log_mode,
            lines_view(final(self).lines@) == lines_view(old(self).lines@).update(
                old(self).lines@.len() - 1,
                lines_view(old(self).lines@)[old(self).lines@.len() - 1].push((sp.text@, sp.kind)),
            ),
    {
        let ghost before = lines_view(self.lines@);
        let mut cur = self.lines.pop().unwrap();
        let ghost n = self.lines@.len();
        let ghost old_cur = cur@;
        cur.push(sp);
        self.lines.push(cur);
        proof {
            let after = lines_view(self.lines@);
            let want = before.update(n as int, before[n as int].push((sp.text@, sp.kind)));
            assert(after.len() == want.len());
            assert forall|k: int| 0 <= k < after.len() implies after[k] == want[k] by {
                if k == n {
                    assert(after[k] =~= want[k]);
                }
            }
            assert(after =~= want);
        }
    }

    fn flush(&mut self)
        requires
            old(self).wf(),
        ensures
            final(self).wf(),
            final(self).state() == flush(old(self).state()),
    {
        if self.pending.len() > 0 {
            let mut text: Vec<char> = Vec::new();
            std::mem::swap(&mut text, &mut self.pending);
            let ghost t = text@;
            self.push_to_last(Span { text: string_from_chars(text), kind: SpanKind::Text });
            assert(self.pending@ =~= Seq::<char>::empty());
        }
    }

    fn push_text(&mut self, s: Vec<char>)
        requires
            old(self).wf(),
        ensures
            final(self).wf(),
            final(self).state() == push_text(old(self).state(), s@),
            open_ok(old(self).state()) ==> open_ok(final(self).state()),
    {
        let t = capitalized_of(self.capitalize, s);
        push_all(&mut self.pending, &t);
        self.capitalize = false;
    }

    fn push_span(&mut self, s: Vec<char>, kind: SpanKind)
        requires
            old(self).wf(),
        ensures
            final(self).wf(),
            final(self).state() == push_span(old(self).state(), s@, kind),
            open_ok(old(self).state()) && kind != SpanKind::Text ==> open_ok(final(self).state()),
    {
        if s.len() == 0 {
            return;
        }
        let cap = self.capitalize;
        let ghost sv = s@;
        let ghost st0 = self.state();
        let t = capitalized_of(cap, s);
        proof {
            if open_ok(st0) && kind != SpanKind::Text {
                lemma_push_span_ok(st0, sv, kind);
            }
        }
        self.flush();
        self.push_to_last(Span { text: string_from_chars(t), kind });
        self.capitalize = false;
    }

    fn newline(&mut self)
        requires
            old(self).wf(),
        ensures
            final(self).wf(),
            final(self).state() == newline(old(self).state()),
            open_ok(old(self).state()) ==> open_ok(final(self).state()),
    {
        proof {
            if open_ok(self.state()) {
                lemma_newline_ok(self.state());
            }
        }
        self.flush();
        let ghost before = lines_view(self.lines@);
        self.lines.push(Vec::new());
        proof {
            let after = lines_view(self.lines@);
            assert(after[before.len() as int] =~= Seq::<SpanView>::empty());
            assert forall|k: int| 0 <= k < before.len() implies after[k] == before[k] by {}
            assert(after =~= before.push(Seq::empty()));
        }
    }
}


/// Where a step lands: `j`, or the end when `j` runs past it.
pub open spec fn clamp(j: int, n: int) -> int {
    if j >= n {
        n
    } else {
        j
    }
}

fn advance(i: usize, by: usize, n: usize) -> (r: usize)
    requires
        i < n,
    ensures
        r == clamp(i + by, n as int),
{
    if by >= n - i {
        n
    } else {
        i + by
    }
}

impl Composer {
    fn step(&mut self, e: &[u8], p: &SysMesParams, i: usize) -> (j: usize)
        requires
            old(self).wf(),
            i < e@.len(),
            !compose_step(e@, *p, i as int, old(self).state()).1.5,
        ensures
            final(self).wf(),
            final(self).state() == compose_step(e@, *p, i as int, old(self).state()).1,
            j == clamp(compose_step(e@, *p, i as int, old(self).state()).0, e@.len() as int),
            j > i,
            open_ok(old(self).state()) ==> open_ok(final(self).state()),
    {
        let n = e.len();
        let b = e[i];
        if b == CC_LOG_MODE {
            self.log_mode = if i + 1 < n {
                Some(e[i + 1])
            } else {
                None
            };
            return advance(i, 2, n);
        }
        if b == CC_AUTO {
            if i + 1 >= n {
                return n;
            }
            let kind = e[i + 1];
            let param = byte_or_zero_of(e, i + 2);
            if kind == AUTO_END {
                return n;
            }
            if kind == AUTO_CASTER_OPEN || kind == AUTO_CASTER_CLOSE {
                return advance(i, 2, n);
            }
            if kind == AUTO_CAPITALIZE {
                self.capitalize = true;
            } else if kind == AUTO_TARGET_ARTICLE {
                self.alt = Alt::Article;
            } else if kind == AUTO_PLURAL_WORD || kind == AUTO_PLURAL_SUFFIX {
                self.alt = Alt::Plural(param);
            } else if kind == AUTO_GIL {
                let v = slot_number_of(&p.numbers, param);
                let g = format_gil(v);
                self.push_text(chars_of(g.as_str()));
            }
            return advance(i, 3, n);
        }
        if b == CC_INLINE_TAG && n - i > 2 && e[i + 1] == CC_INLINE_TAG && (e[i + 2] == SLOT_ARTICLE || e[i + 2]
            == SLOT_TARGET_NAME) {
            if e[i + 2] == SLOT_ARTICLE {
                let name = string_from_chars(next_item_of(e, &p.items, i));
                let a = article_for(name.as_str());
                self.push_text(chars_of(a));
            } else {
                let t = match p.target_name {
                    Some(s) => chars_of(s),
                    None => Vec::new(),
                };
                self.push_text(t);
            }
            return advance(i, 3, n);
        }
        if b == CC_INLINE_TAG {
            match tag_of(e, i) {
                Some((m, k, len)) => {
                    if m == MARKER_ITEM {
                        self.push_span(slot_text_of(&p.items, k), SpanKind::Item);
                    } else {
                        self.push_text(number_text(slot_number_of(&p.numbers, k)));
                    }
                    return advance(i, len, n);
                },
                None => {
                    return i + 1;
                },
            }
        }
        if b == CC_NUM || b == CC_NUM2 {
            let k = byte_or_zero_of(e, i + 1);
            self.push_text(number_text(slot_number_of(&p.numbers, k)));
            return advance(i, 2, n);
        }
        if b == CC_TEXT_PARAM {
            let k = byte_or_zero_of(e, i + 1);
            self.push_text(slot_text_of(&p.strings, k));
            return advance(i, 2, n);
        }
        if b == ALT_OPEN && self.alt != Alt::Nothing {
            match alt_of(e, i) {
                Some((first, second, len)) => {
                    let keep_first = match self.alt {
                        Alt::Article => p.target_article,
                        Alt::Plural(k) => slot_number_of(&p.numbers, k) == 1,
                        Alt::Nothing => true,
                    };
                    self.push_text(if keep_first {
                        first
                    } else {
                        second
                    });
                    self.alt = Alt::Nothing;
                    return advance(i, len, n);
                },
                None => {},
            }
        }
        if b == CC_NEWLINE {
            self.newline();
            return i + 1;
        }
        if 0x20 <= b && b <= 0x7E {
            let mut v: Vec<char> = Vec::new();
            v.push(b as char);
            self.push_text(v);
            return i + 1;
        }
        if (0x81 <= b && b <= 0x9F) || (0xE0 <= b && b <= 0xFC) {
            let mut v: Vec<char> = Vec::new();
            v.push(REPLACEMENT);
            self.push_text(v);
            return advance(i, 2, n);
        }
        i + 1
    }

    fn finish(self) -> (r: SysMesLine)
        requires
            self.wf(),
        ensures
            r.log_mode == flush(self.state()).4,
            lines_view(r.lines@) == nonempty_lines(flush(self.state()).0),
            open_ok(self.state()) ==> lines_well_formed(lines_view(r.lines@)),
    {
        proof {
            if open_ok(self.state()) {
                lemma_flush_ok(self.state());
                lemma_nonempty_lines_ok(flush(self.state()).0);
            }
        }
        let mut c = self;
        c.flush();
        let ghost all = c.lines@;
        let log_mode = c.log_mode;
        let mut rest = c.lines;
        let n = rest.len();
        let mut out: Vec<Vec<Span>> = Vec::new();
        let mut k: usize = 0;
        assert(lines_view(all.take(0)) =~= Seq::<Seq<SpanView>>::empty());
        while k < n
            invariant
                n == all.len(),
                k <= n,
                rest@ == all.subrange(k as int, n as int),
                lines_view(out@) == nonempty_lines(lines_view(all.take(k as int))),
            decreases n - k,
        {
            let l = rest.remove(0);
            assert(l == all[k as int]);
            let ghost before = out@;
            proof {
                let v = lines_view(all.take(k + 1));
                assert(v.drop_last() =~= lines_view(all.take(k as int)));
                assert(v.last() == l@.map_values(|s: Span| (s.text@, s.kind)));
            }
            if l.len() > 0 {
                out.push(l);
                proof {
                    assert(lines_view(out@) =~= lines_view(before).push(l@.map_values(|s: Span| (s.text@, s.kind))));
                }
            }
            k += 1;
            proof {
                assert(rest@ =~= all.subrange(k as int, n as int));
            }
        }
        assert(all.take(n as int) =~= all);
        SysMesLine { log_mode, lines: out }
    }
}

/// The entry composed into spans: see the module documentation for what each
/// byte does. Requires that no gil code writes `i64::MIN`, which has no
/// magnitude to group.
pub fn compose(entry: &[u8], params: &SysMesParams) -> (r: SysMesLine)
    requires
        !gil_out_of_range(entry@, *params),
    ensures
        r.log_mode == spec_compose(entry@, *params).0,
        lines_view(r.lines@) == spec_compose(entry@, *params).1,
        lines_well_formed(lines_view(r.lines@)),
{
    let mut c = Composer::new();
    let mut i: usize = 0;
    while i < entry.len()
        invariant
            i <= entry@.len(),
            c.wf(),
            open_ok(c.state()),
            compose_from(entry@, *params, i as int, c.state()) == compose_from(entry@, *params, 0, initial_state()),
            !compose_from(entry@, *params, 0, initial_state()).5,
        decreases entry.len() - i,
    {
        proof {
            let (j, next) = compose_step(entry@, *params, i as int, c.state());
            if next.5 && j > i && j < entry@.len() {
                lemma_flag_sticks(entry@, *params, j, next);
            }
        }
        i = c.step(entry, params, i);
    }
    c.finish()
}

/// The entry a real system-message table holds the untranslated placeholder
/// `sysmes262` at, which tells it from any other string table.
pub const SHAPE_PROBE_INDEX: usize = 262;
pub const SHAPE_PROBE_TEXT: [u8; 6] = [0x73, 0x79, 0x73, 0x6d, 0x65, 0x73];

/// Whether `needle` occurs in `hay`.
pub open spec fn contains_bytes(hay: Seq<u8>, needle: Seq<u8>) -> bool {
    exists|k: int| 0 <= k && k + needle.len() <= hay.len() && #[trigger] hay.subrange(k, k + needle.len()) == needle
}

fn contains_probe(hay: &Vec<u8>) -> (r: bool)
    ensures
        r == contains_bytes(hay@, SHAPE_PROBE_TEXT@),
{
    let n = hay.len();
    let m: usize = 6;
    if n < m {
        proof {
            assert forall|k: int| 0 <= k && k + 6 <= hay@.len() implies #[trigger] hay@.subrange(k, k + 6)
                != SHAPE_PROBE_TEXT@ by {}
        }
        return false;
    }
    let mut k: usize = 0;
    while k <= n - m
        invariant
            m == 6,
            n >= 6,
            n == hay@.len(),
            forall|j: int| 0 <= j < k ==> #[trigger] hay@.subrange(j, j + 6) != SHAPE_PROBE_TEXT@,
        decreases n - k,
    {
        if hay[k] == 0x73 && hay[k + 1] == 0x79 && hay[k + 2] == 0x73 && hay[k + 3] == 0x6d && hay[k + 4] == 0x65
            && hay[k + 5] == 0x73 {
            assert(hay@.subrange(k as int, k + 6) =~= SHAPE_PROBE_TEXT@);
            return true;
        }
        assert(hay@.subrange(k as int, k + 6) != SHAPE_PROBE_TEXT@) by {
            if hay@.subrange(k as int, k + 6) == SHAPE_PROBE_TEXT@ {
                assert(hay@.subrange(k as int, k + 6)[0] == hay@[k as int]);
                assert(hay@.subrange(k as int, k + 6)[5] == hay@[k + 5]);
            }
        }
        k += 1;
    }
    proof {
        assert forall|j: int| 0 <= j && j + 6 <= hay@.len() implies #[trigger] hay@.subrange(j, j + 6)
            != SHAPE_PROBE_TEXT@ by {
            assert(j < k);
        }
    }
    false
}

/// The client's system-message table: its entries as stored bytes.
pub struct SysMesDat {
    entries: Vec<Vec<u8>>,
}

impl SysMesDat {
    pub closed spec fn spec_entries(&self) -> Seq<Seq<u8>> {
        self.entries@.map_values(|v: Vec<u8>| v@)
    }

    /// A table over `entries` when it has the shape of the system-message
    /// table: entry 262 holds `sysmes`.
    pub fn from_entries(entries: Vec<Vec<u8>>) -> (r: Option<SysMesDat>)
        ensures
            r is Some <==> (entries@.len() > SHAPE_PROBE_INDEX && contains_bytes(
                entries@[SHAPE_PROBE_INDEX as int]@,
                SHAPE_PROBE_TEXT@,
            )),
            r matches Some(d) ==> d.spec_entries() == entries@.map_values(|v: Vec<u8>| v@),
    {
        if entries.len() <= SHAPE_PROBE_INDEX {
            return None;
        }
        if !contains_probe(&entries[SHAPE_PROBE_INDEX]) {
            return None;
        }
        Some(SysMesDat { entries })
    }

    pub fn len(&self) -> (r: usize)
        ensures
            r == self.spec_entries().len(),
    {
        self.entries.len()
    }

    pub fn is_empty(&self) -> (r: bool)
        ensures
            r == (self.spec_entries().len() == 0),
    {
        self.entries.len() == 0
    }

    /// Entry `index` composed with `params`; nothing past the end.
    pub fn message(&self, index: usize, params: &SysMesParams) -> (r: Option<SysMesLine>)
        requires
            index < self.spec_entries().len() ==> !gil_out_of_range(self.spec_entries()[index as int], *params),
        ensures
            r is Some <==> index < self.spec_entries().len(),
            r matches Some(line) ==> line.log_mode == spec_compose(self.spec_entries()[index as int], *params).0
                && lines_view(line.lines@) == spec_compose(self.spec_entries()[index as int], *params).1
                && lines_well_formed(lines_view(line.lines@)),
    {
        if index >= self.entries.len() {
            return None;
        }
        Some(compose(self.entries[index].as_slice(), params))
    }
}
} // verus!
