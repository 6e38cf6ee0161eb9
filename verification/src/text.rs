//! What the output of `cat` is, as mathematics over sequences of bytes.

use vstd::prelude::*;

verus! {

/// Line feed: the byte that ends a line.
pub const LF: u8 = 10;

/// Horizontal tab.
pub const TAB: u8 = 9;

/// ` `
pub const SPACE: u8 = 32;

/// `$`
pub const DOLLAR: u8 = 36;

/// `-`
pub const HYPHEN: u8 = 45;

/// `0`
pub const ZERO: u8 = 48;

/// `?`
pub const QUESTION: u8 = 63;

/// `I`
pub const CAPITAL_I: u8 = 73;

/// `M`
pub const CAPITAL_M: u8 = 77;

/// `^`
pub const CARET: u8 = 94;

/// Width to which a line number is padded with spaces on its left.
pub const NUMBER_WIDTH: usize = 6;

/// Which output lines carry a number.
#[derive(Clone, Copy, Debug, PartialEq, Eq, Structural)]
pub enum NumberingMode {
    /// No line is numbered.
    NumberNone,
    /// Only lines that are not empty are numbered.
    NumberNonEmpty,
    /// Every line is numbered.
    NumberAll,
}

/// How the bytes of a line are shown.
pub enum Show {
    /// Every byte as it is.
    Plain,
    /// TAB as the given bytes, every other byte as it is.
    Tabs(Seq<u8>),
    /// `^` and `M-` notation, with the given bytes in the place of TAB.
    Notation(Seq<u8>),
}

/// Everything about the options that the output depends on.
pub struct Style {
    pub number: NumberingMode,
    pub squeeze_blank: bool,
    pub show: Show,
    pub end_of_line: Seq<u8>,
}

/// The bytes of `^I`.
pub open spec fn caret_i() -> Seq<u8> {
    seq![CARET, CAPITAL_I]
}

/// Caret notation of a byte below 128: a control byte as `^` and the byte 64
/// above it, DEL as `^?`, any other byte as itself.
pub open spec fn caret(b: u8) -> Seq<u8> {
    if b < 32 {
        seq![CARET, (b + 64) as u8]
    } else if b < 127 {
        seq![b]
    } else {
        seq![CARET, QUESTION]
    }
}

/// `^` and `M-` notation: `M-` stands for 128 added to what follows. TAB is
/// shown as `tab`.
pub open spec fn notation(b: u8, tab: Seq<u8>) -> Seq<u8> {
    if b == TAB {
        tab
    } else if b < 128 {
        caret(b)
    } else {
        seq![CAPITAL_M, HYPHEN] + caret((b - 128) as u8)
    }
}

/// What is shown for one byte of a line.
pub open spec fn shown(show: Show, b: u8) -> Seq<u8> {
    match show {
        Show::Plain => seq![b],
        Show::Tabs(tab) => if b == TAB {
            tab
        } else {
            seq![b]
        },
        Show::Notation(tab) => notation(b, tab),
    }
}

/// What is shown for each byte of `s`, one after the other.
pub open spec fn shown_all(show: Show, s: Seq<u8>) -> Seq<u8>
    decreases s.len(),
{
    if s.len() == 0 {
        Seq::empty()
    } else {
        shown_all(show, s.drop_last()) + shown(show, s.last())
    }
}

/// How many bytes stand before the first LF of `s`: all of them, if there is none.
pub open spec fn line_len(s: Seq<u8>) -> nat
    decreases s.len(),
{
    if s.len() == 0 || s[0] == LF {
        0
    } else {
        1 + line_len(s.drop_first())
    }
}

/// The decimal digits of `n`, without leading zeros.
pub open spec fn decimal(n: nat) -> Seq<u8>
    decreases n,
{
    if n < 10 {
        seq![(ZERO + n) as u8]
    } else {
        decimal(n / 10).push((ZERO + n % 10) as u8)
    }
}

/// `s` with spaces on its left, so that it is at least `width` long.
pub open spec fn padded(s: Seq<u8>, width: nat) -> Seq<u8> {
    if s.len() < width {
        Seq::new((width - s.len()) as nat, |i: int| SPACE) + s
    } else {
        s
    }
}

/// What stands before a numbered line.
pub open spec fn line_number(n: nat) -> Seq<u8> {
    padded(decimal(n), NUMBER_WIDTH as nat).push(TAB)
}

/// Where the output stands between two bytes of the input.
pub struct Pen {
    /// The number that the next numbered line gets.
    pub number: nat,
    /// Whether the next byte starts a line.
    pub at_start: bool,
    /// Whether an empty line was just put out, so that another one repeats it.
    pub kept: bool,
}

/// Whether `b` would be the LF of an empty line that only repeats the one before.
pub open spec fn squeezed(style: Style, p: Pen, b: u8) -> bool {
    b == LF && p.at_start && style.squeeze_blank && p.kept
}

/// Whether the line that starts with `b` gets a number at this place.
pub open spec fn numbered(style: Style, p: Pen, b: u8) -> bool {
    p.at_start && match style.number {
        NumberingMode::NumberNone => false,
        NumberingMode::NumberNonEmpty => b != LF,
        NumberingMode::NumberAll => true,
    }
}

/// The number before `b`, where there is one.
pub open spec fn prefix(style: Style, p: Pen, b: u8) -> Seq<u8> {
    if numbered(style, p, b) {
        line_number(p.number)
    } else {
        Seq::empty()
    }
}

/// The number that the line after this one gets.
pub open spec fn next_number(style: Style, p: Pen, b: u8) -> nat {
    if numbered(style, p, b) {
        p.number + 1
    } else {
        p.number
    }
}

/// What one byte of input puts out.
pub open spec fn ink(style: Style, p: Pen, b: u8) -> Seq<u8> {
    if squeezed(style, p, b) {
        Seq::empty()
    } else if b == LF {
        prefix(style, p, b) + style.end_of_line
    } else {
        prefix(style, p, b) + shown(style.show, b)
    }
}

/// Where the output stands after one byte of input.
pub open spec fn moved(style: Style, p: Pen, b: u8) -> Pen {
    if squeezed(style, p, b) {
        p
    } else {
        Pen {
            number: next_number(style, p, b),
            at_start: b == LF,
            kept: b == LF && p.at_start,
        }
    }
}

/// What `s` puts out, byte by byte.
pub open spec fn text(style: Style, p: Pen, s: Seq<u8>) -> Seq<u8>
    decreases s.len(),
{
    if s.len() == 0 {
        Seq::empty()
    } else {
        text(style, p, s.drop_last()) + ink(style, pen(style, p, s.drop_last()), s.last())
    }
}

/// Where the output stands after `s`.
pub open spec fn pen(style: Style, p: Pen, s: Seq<u8>) -> Pen
    decreases s.len(),
{
    if s.len() == 0 {
        p
    } else {
        moved(style, pen(style, p, s.drop_last()), s.last())
    }
}

/// Where the output stands before anything is put out.
pub open spec fn first_pen() -> Pen {
    Pen { number: 1, at_start: true, kept: false }
}

/// Sequences of bytes, one after the other.
pub open spec fn joined(parts: Seq<Seq<u8>>) -> Seq<u8>
    decreases parts.len(),
{
    if parts.len() == 0 {
        Seq::empty()
    } else {
        joined(parts.drop_last()) + parts.last()
    }
}

/// The pieces in which a line is written where TAB is shown as `tab`: what
/// stands before each TAB, then `tab`, and what stands after the last.
pub open spec fn tab_pieces(tab: Seq<u8>, line: Seq<u8>) -> Seq<Seq<u8>>
    decreases line.len(),
{
    if line.len() == 0 {
        seq![Seq::empty()]
    } else {
        let front = tab_pieces(tab, line.drop_last());
        if line.last() == TAB {
            front.push(tab).push(Seq::empty())
        } else {
            front.drop_last().push(front.last().push(line.last()))
        }
    }
}

/// The pieces in which a line is written: the whole of it where it is shown
/// plainly, one for each byte in `^` and `M-` notation.
pub open spec fn pieces(show: Show, line: Seq<u8>) -> Seq<Seq<u8>> {
    match show {
        Show::Plain => seq![line],
        Show::Tabs(tab) => tab_pieces(tab, line),
        Show::Notation(tab) => Seq::new(line.len(), |i: int| notation(line[i], tab)),
    }
}

/// `line_len` stops at the first LF and nowhere before it.
pub proof fn lemma_line_len(s: Seq<u8>)
    ensures
        line_len(s) <= s.len(),
        forall|i: int| 0 <= i < line_len(s) ==> s[i] != LF,
        line_len(s) < s.len() ==> s[line_len(s) as int] == LF,
    decreases s.len(),
{
    if s.len() > 0 && s[0] != LF {
        let rest = s.drop_first();
        lemma_line_len(rest);
        assert forall|i: int| 0 <= i < line_len(s) implies s[i] != LF by {
            if i > 0 {
                assert(s[i] == rest[i - 1]);
            }
        }
    }
}

/// The first LF of `s` is at `n`, or `s` has none and `n` is its length.
pub proof fn lemma_line_len_is(s: Seq<u8>, n: int)
    requires
        0 <= n <= s.len(),
        forall|i: int| 0 <= i < n ==> s[i] != LF,
        n < s.len() ==> s[n] == LF,
    ensures
        line_len(s) == n,
{
    lemma_line_len(s);
    if line_len(s) < n {
        assert(s[line_len(s) as int] != LF);
    }
    if n < line_len(s) {
        assert(s[n] != LF);
    }
}

/// Shown plainly, bytes are what they are.
pub proof fn lemma_shown_plain(s: Seq<u8>)
    ensures
        shown_all(Show::Plain, s) == s,
    decreases s.len(),
{
    if s.len() > 0 {
        lemma_shown_plain(s.drop_last());
        assert(s.drop_last().push(s.last()) =~= s);
    }
}

/// Output goes on where it stands: what `a + b` puts out is what `a` puts out,
/// then what `b` puts out from there.
pub proof fn lemma_text_append(style: Style, p: Pen, a: Seq<u8>, b: Seq<u8>)
    ensures
        text(style, p, a + b) == text(style, p, a) + text(style, pen(style, p, a), b),
        pen(style, p, a + b) == pen(style, pen(style, p, a), b),
    decreases b.len(),
{
    if b.len() == 0 {
        assert(a + b =~= a);
    } else {
        assert((a + b).drop_last() =~= a + b.drop_last());
        lemma_text_append(style, p, a, b.drop_last());
    }
}

/// What `s` puts out is what its first byte puts out, then the rest from there.
pub proof fn lemma_text_first(style: Style, p: Pen, s: Seq<u8>)
    requires
        s.len() > 0,
    ensures
        text(style, p, s) == ink(style, p, s[0]) + text(style, moved(style, p, s[0]), s.drop_first()),
        pen(style, p, s) == pen(style, moved(style, p, s[0]), s.drop_first()),
{
    let first = seq![s[0]];
    assert(first + s.drop_first() =~= s);
    lemma_text_append(style, p, first, s.drop_first());
    assert(first.drop_last() =~= Seq::<u8>::empty());
    assert(text(style, p, first.drop_last()) =~= Seq::<u8>::empty());
    assert(text(style, p, first) =~= ink(style, p, s[0]));
    assert(pen(style, p, first) == moved(style, p, s[0]));
}

/// Bytes of one line put out the line's number, if it has one, and themselves
/// as they are shown.
pub proof fn lemma_text_line(style: Style, p: Pen, line: Seq<u8>)
    requires
        line.len() > 0,
        forall|i: int| 0 <= i < line.len() ==> line[i] != LF,
    ensures
        text(style, p, line) == prefix(style, p, line[0]) + shown_all(style.show, line),
        pen(style, p, line) == (Pen {
            number: next_number(style, p, line[0]),
            at_start: false,
            kept: false,
        }),
    decreases line.len(),
{
    let front = line.drop_last();
    if front.len() == 0 {
        reveal_with_fuel(shown_all, 2);
        reveal_with_fuel(text, 2);
        reveal_with_fuel(pen, 2);
        assert(shown_all(style.show, line) =~= shown(style.show, line[0]));
        assert(text(style, p, line) =~= ink(style, p, line[0]));
    } else {
        lemma_text_line(style, p, front);
        assert(text(style, p, line) =~= prefix(style, p, line[0]) + shown_all(style.show, line));
    }
}

/// A number is used at most once per byte, and never goes down.
pub proof fn lemma_pen_number(style: Style, p: Pen, s: Seq<u8>)
    ensures
        p.number <= pen(style, p, s).number <= p.number + s.len(),
    decreases s.len(),
{
    if s.len() > 0 {
        lemma_pen_number(style, p, s.drop_last());
    }
}

/// Parts one after the other, and one more.
pub proof fn lemma_joined_push(parts: Seq<Seq<u8>>, part: Seq<u8>)
    ensures
        joined(parts.push(part)) == joined(parts) + part,
{
    assert(parts.push(part).drop_last() =~= parts);
}

/// The pieces in which a line is written are, one after the other, what is shown
/// of it. A line that is not empty has at least one.
pub proof fn lemma_pieces_joined(show: Show, line: Seq<u8>)
    ensures
        joined(pieces(show, line)) == shown_all(show, line),
        line.len() > 0 ==> pieces(show, line).len() > 0,
    decreases line.len(),
{
    match show {
        Show::Plain => {
            lemma_shown_plain(line);
            lemma_joined_push(Seq::empty(), line);
            assert(Seq::empty().push(line) =~= pieces(show, line));
            assert(joined(pieces(show, line)) =~= line);
        },
        Show::Tabs(tab) => lemma_tab_pieces_joined(tab, line),
        Show::Notation(tab) => {
            if line.len() > 0 {
                let front = line.drop_last();
                lemma_pieces_joined(show, front);
                assert(pieces(show, line).drop_last() =~= pieces(show, front));
            }
        },
    }
}

proof fn lemma_tab_pieces_joined(tab: Seq<u8>, line: Seq<u8>)
    ensures
        tab_pieces(tab, line).len() > 0,
        joined(tab_pieces(tab, line)) == shown_all(Show::Tabs(tab), line),
    decreases line.len(),
{
    if line.len() == 0 {
        reveal_with_fuel(joined, 2);
        assert(joined(tab_pieces(tab, line)) =~= Seq::<u8>::empty());
    } else {
        let front = tab_pieces(tab, line.drop_last());
        lemma_tab_pieces_joined(tab, line.drop_last());
        if line.last() == TAB {
            lemma_joined_push(front, tab);
            lemma_joined_push(front.push(tab), Seq::empty());
        } else {
            lemma_joined_push(front.drop_last(), front.last().push(line.last()));
        }
        assert(joined(tab_pieces(tab, line)) =~= shown_all(Show::Tabs(tab), line));
    }
}

} // verus!
