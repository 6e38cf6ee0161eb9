//! What holds of the output whatever is read: laws over the functions that say
//! what each byte puts out.

use vstd::prelude::*;

#[allow(unused_imports)]
use crate::line::{end_offset, line_of};
#[allow(unused_imports)]
use crate::lines::{
    after_line, blank_deeds, deed_bytes, lemma_block_line, lemma_deeds_assoc,
    lemma_number_written,
    lemma_pieces_written, lemma_written_append, line_deeds, number_deeds, open_line_deeds,
    piece_deeds, script, written, Deed,
};
#[allow(unused_imports)]
use crate::options::{Flags, OutputOptions};
#[allow(unused_imports)]
use crate::text::{
    decimal, first_pen, ink, joined, lemma_joined_push, lemma_line_len, lemma_line_len_is,
    lemma_pieces_joined, lemma_text_append, lemma_text_first, lemma_text_line, line_len, line_number, moved, notation,
    numbered, padded, pen, pieces, prefix, shown, shown_all, squeezed, tab_pieces, text,
    NumberingMode, Pen, Show, Style, LF, TAB,
};

verus! {

/// Whether a line is left open is told by the last byte alone.
pub proof fn law_line_start(style: Style, p: Pen, s: Seq<u8>)
    ensures
        pen(style, p, s).at_start == if s.len() == 0 {
            p.at_start
        } else {
            s.last() == LF
        },
{
}

/// It does not matter to the output where a read ends: what `a` and then `b` put
/// out is what `a + b` puts out in one piece.
pub proof fn law_cut(style: Style, p: Pen, a: Seq<u8>, b: Seq<u8>)
    ensures
        text(style, p, a + b) == text(style, p, a) + text(style, pen(style, p, a), b),
        pen(style, p, a + b) == pen(style, pen(style, p, a), b),
{
    lemma_text_append(style, p, a, b);
}

/// Options that ask for nothing put every byte out as it is: writing line by
/// line and copying come to the same.
pub proof fn law_plain_copies(options: OutputOptions<'_>, p: Pen, s: Seq<u8>)
    requires
        options.plain(),
    ensures
        text(options.full_style(), p, s) == s,
    decreases s.len(),
{
    if s.len() > 0 {
        law_plain_copies(options, p, s.drop_last());
        assert(text(options.full_style(), p, s) =~= s);
    }
}

/// Whether byte `i` of `s` starts a line, where the first one does if `at_start`.
pub open spec fn starts_line(at_start: bool, s: Seq<u8>, i: int) -> bool {
    if i == 0 {
        at_start
    } else {
        s[i - 1] == LF
    }
}

/// How many lines start in `s`; those that are not empty, if `nonempty` asks for it.
pub open spec fn lines_started(at_start: bool, nonempty: bool, s: Seq<u8>) -> nat
    decreases s.len(),
{
    if s.len() == 0 {
        0
    } else {
        lines_started(at_start, nonempty, s.drop_last()) + if starts_line(
            at_start,
            s,
            s.len() - 1,
        ) && (nonempty ==> s.last() != LF) {
            1nat
        } else {
            0nat
        }
    }
}

/// Numbers go up by one from line to line: by as many as lines of the input are
/// numbered. Where empty lines are squeezed and numbered, see [`law_numbers`].
pub proof fn law_numbering(style: Style, p: Pen, s: Seq<u8>)
    ensures
        style.number is NumberNone ==> pen(style, p, s).number == p.number,
        style.number is NumberNonEmpty ==> pen(style, p, s).number == p.number + lines_started(
            p.at_start,
            true,
            s,
        ),
        style.number is NumberAll && !style.squeeze_blank ==> pen(style, p, s).number == p.number
            + lines_started(p.at_start, false, s),
    decreases s.len(),
{
    if s.len() > 0 {
        let front = s.drop_last();
        law_numbering(style, p, front);
        law_line_start(style, p, front);
        if front.len() > 0 {
            assert(front.last() == s[s.len() - 2]);
        }
    }
}

/// A line of the output, its number left aside.
pub struct OutputLine {
    /// What was put out for it, its end included.
    pub bytes: Seq<u8>,
    /// Whether there is nothing in it but its end.
    pub empty: bool,
    /// Whether it was begun here, and not gone on with.
    pub begun: bool,
}

/// The same style, with no line numbered.
pub open spec fn unnumbered(style: Style) -> Style {
    Style { number: NumberingMode::NumberNone, ..style }
}

/// A line of the output with more put out for it.
pub open spec fn longer(line: OutputLine, bytes: Seq<u8>) -> OutputLine {
    OutputLine { bytes: line.bytes + bytes, ..line }
}

/// The lines that `s` puts out, their numbers left aside. The first goes on with
/// a line that was left open, if one was; the last may be left open in its turn.
pub open spec fn output_lines(style: Style, p: Pen, s: Seq<u8>) -> Seq<OutputLine>
    decreases s.len(),
{
    if s.len() == 0 {
        if p.at_start {
            Seq::empty()
        } else {
            seq![OutputLine { bytes: Seq::empty(), empty: false, begun: false }]
        }
    } else {
        let lines = output_lines(style, p, s.drop_last());
        let q = pen(unnumbered(style), p, s.drop_last());
        let bytes = ink(unnumbered(style), q, s.last());
        if squeezed(style, q, s.last()) {
            lines
        } else if q.at_start {
            lines.push(OutputLine { bytes, empty: s.last() == LF, begun: true })
        } else {
            lines.drop_last().push(longer(lines.last(), bytes))
        }
    }
}

/// What stands in lines of the output.
pub open spec fn line_bytes(lines: Seq<OutputLine>) -> Seq<Seq<u8>> {
    lines.map_values(|line: OutputLine| line.bytes)
}

/// Whether a line is counted where lines are numbered in this way.
pub open spec fn counted(number: NumberingMode, line: OutputLine) -> bool {
    line.begun && match number {
        NumberingMode::NumberNone => false,
        NumberingMode::NumberNonEmpty => !line.empty,
        NumberingMode::NumberAll => true,
    }
}

/// How many lines are counted.
pub open spec fn count(number: NumberingMode, lines: Seq<OutputLine>) -> nat
    decreases lines.len(),
{
    if lines.len() == 0 {
        0
    } else {
        count(number, lines.drop_last()) + if counted(number, lines.last()) {
            1nat
        } else {
            0nat
        }
    }
}

/// The line at place `i` with its number before it, if it is counted. The first
/// line that is counted has the number `first`.
pub open spec fn with_number(
    number: NumberingMode,
    first: nat,
    lines: Seq<OutputLine>,
    i: int,
) -> Seq<u8> {
    if counted(number, lines[i]) {
        line_number(first + count(number, lines.take(i))) + lines[i].bytes
    } else {
        lines[i].bytes
    }
}

/// Lines of the output with their numbers.
pub open spec fn with_numbers(number: NumberingMode, first: nat, lines: Seq<OutputLine>) -> Seq<
    Seq<u8>,
> {
    Seq::new(lines.len(), |i: int| with_number(number, first, lines, i))
}

/// Numbering puts numbers before the lines that are counted and does nothing
/// else: the output is that without numbers, with the first number before the
/// first counted line, the next before the next, and so on.
pub proof fn law_numbers(style: Style, p: Pen, s: Seq<u8>)
    ensures
        text(unnumbered(style), p, s) == joined(line_bytes(output_lines(style, p, s))),
        text(style, p, s) == joined(
            with_numbers(style.number, p.number, output_lines(style, p, s)),
        ),
        pen(style, p, s).number == p.number + count(style.number, output_lines(style, p, s)),
    decreases s.len(),
{
    let none = unnumbered(style);
    let lines = output_lines(style, p, s);
    if s.len() == 0 {
        reveal_with_fuel(joined, 2);
        reveal_with_fuel(count, 2);
        assert(joined(line_bytes(lines)) =~= Seq::<u8>::empty());
        assert(joined(with_numbers(style.number, p.number, lines)) =~= Seq::<u8>::empty());
    } else {
        let front = s.drop_last();
        let b = s.last();
        let before = output_lines(style, p, front);
        let q = pen(style, p, front);
        let r = pen(none, p, front);
        let bytes = ink(none, r, b);
        law_numbers(style, p, front);
        lemma_same_place(style, p, front);
        lemma_last_line(style, p, front);
        if squeezed(style, r, b) {
            assert(text(style, p, s) =~= text(style, p, front));
            assert(text(none, p, s) =~= text(none, p, front));
        } else {
            assert(ink(style, q, b) =~= prefix(style, q, b) + bytes);
            if r.at_start {
                let line = OutputLine { bytes, empty: b == LF, begun: true };
                lemma_lines_push(style.number, p.number, before, line);
                assert(counted(style.number, line) == numbered(style, q, b));
                assert(text(style, p, s) =~= text(style, p, front) + prefix(style, q, b) + bytes);
            } else {
                lemma_lines_longer(style.number, p.number, before, bytes);
                assert(ink(style, q, b) =~= bytes);
            }
        }
    }
}

/// One more line at the end.
proof fn lemma_lines_push(
    number: NumberingMode,
    first: nat,
    lines: Seq<OutputLine>,
    line: OutputLine,
)
    ensures
        ({
            let all = lines.push(line);
            let prefix = if counted(number, line) {
                line_number(first + count(number, lines))
            } else {
                Seq::empty()
            };
            &&& joined(line_bytes(all)) == joined(line_bytes(lines)) + line.bytes
            &&& joined(with_numbers(number, first, all)) == joined(
                with_numbers(number, first, lines),
            ) + prefix + line.bytes
            &&& count(number, all) == count(number, lines) + if counted(number, line) {
                1nat
            } else {
                0nat
            }
        }),
{
    let all = lines.push(line);
    let last = with_number(number, first, all, lines.len() as int);
    assert(all.drop_last() =~= lines);
    assert(all.take(lines.len() as int) =~= lines);
    assert(line_bytes(all) =~= line_bytes(lines).push(line.bytes));
    lemma_joined_push(line_bytes(lines), line.bytes);
    assert forall|i: int| 0 <= i < lines.len() implies with_number(number, first, all, i)
        == with_number(number, first, lines, i) by {
        assert(all.take(i) =~= lines.take(i));
    }
    assert(with_numbers(number, first, all) =~= with_numbers(number, first, lines).push(last));
    lemma_joined_push(with_numbers(number, first, lines), last);
    assert(joined(with_numbers(number, first, all)) =~= joined(with_numbers(number, first, lines))
        + (if counted(number, line) {
        line_number(first + count(number, lines))
    } else {
        Seq::empty()
    }) + line.bytes);
}

/// More put out for the last line.
proof fn lemma_lines_longer(
    number: NumberingMode,
    first: nat,
    lines: Seq<OutputLine>,
    bytes: Seq<u8>,
)
    requires
        lines.len() > 0,
    ensures
        ({
            let all = lines.drop_last().push(longer(lines.last(), bytes));
            &&& joined(line_bytes(all)) == joined(line_bytes(lines)) + bytes
            &&& joined(with_numbers(number, first, all)) == joined(
                with_numbers(number, first, lines),
            ) + bytes
            &&& count(number, all) == count(number, lines)
        }),
{
    let rest = lines.drop_last();
    let all = rest.push(longer(lines.last(), bytes));
    assert(rest.push(lines.last()) =~= lines);
    lemma_lines_push(number, first, rest, lines.last());
    lemma_lines_push(number, first, rest, longer(lines.last(), bytes));
    assert(joined(line_bytes(all)) =~= joined(line_bytes(lines)) + bytes);
    assert(joined(with_numbers(number, first, all)) =~= joined(with_numbers(number, first, lines))
        + bytes);
}

/// Numbers have no bearing on where lines start and which of them are squeezed.
proof fn lemma_same_place(style: Style, p: Pen, s: Seq<u8>)
    ensures
        pen(style, p, s).at_start == pen(unnumbered(style), p, s).at_start,
        pen(style, p, s).kept == pen(unnumbered(style), p, s).kept,
    decreases s.len(),
{
    if s.len() > 0 {
        lemma_same_place(style, p, s.drop_last());
    }
}

/// There is a line to go on with, unless the next byte starts one.
proof fn lemma_last_line(style: Style, p: Pen, s: Seq<u8>)
    ensures
        !pen(unnumbered(style), p, s).at_start ==> output_lines(style, p, s).len() > 0
            && !output_lines(style, p, s).last().empty,
    decreases s.len(),
{
    if s.len() > 0 {
        lemma_last_line(style, p, s.drop_last());
    }
}

/// Whether byte `i` of `s` is the LF of an empty line right after an empty line.
pub open spec fn repeats_blank(p: Pen, s: Seq<u8>, i: int) -> bool {
    s[i] == LF && starts_line(p.at_start, s, i) && if i == 0 {
        p.kept
    } else {
        starts_line(p.at_start, s, i - 1)
    }
}

/// `s` without the empty lines that repeat an empty line.
pub open spec fn without_repeats(p: Pen, s: Seq<u8>) -> Seq<u8>
    decreases s.len(),
{
    if s.len() == 0 {
        Seq::empty()
    } else if repeats_blank(p, s, s.len() - 1) {
        without_repeats(p, s.drop_last())
    } else {
        without_repeats(p, s.drop_last()).push(s.last())
    }
}

/// The same style, with every empty line put out.
pub open spec fn unsqueezed(style: Style) -> Style {
    Style { squeeze_blank: false, ..style }
}

/// An empty line was just put out only where the next byte starts a line.
pub open spec fn sound(p: Pen) -> bool {
    p.kept ==> p.at_start
}

/// The state is sound before anything is put out, and whatever is read keeps it
/// sound.
pub proof fn law_sound(style: Style, p: Pen, s: Seq<u8>)
    requires
        sound(p),
    ensures
        sound(first_pen()),
        sound(pen(style, p, s)),
    decreases s.len(),
{
    if s.len() > 0 {
        law_sound(style, p, s.drop_last());
    }
}

/// Squeezing suppresses repeated empty lines and does nothing else: the output
/// is that of the same input without them.
pub proof fn law_squeeze(style: Style, p: Pen, s: Seq<u8>)
    requires
        style.squeeze_blank,
        sound(p),
    ensures
        text(style, p, s) == text(unsqueezed(style), p, without_repeats(p, s)),
        pen(style, p, s) == pen(unsqueezed(style), p, without_repeats(p, s)),
    decreases s.len(),
{
    if s.len() > 0 {
        let front = s.drop_last();
        let b = s.last();
        let left = without_repeats(p, front);
        law_squeeze(style, p, front);
        lemma_squeezed_pen(style, p, front);
        law_line_start(style, p, front);
        assert(starts_line(p.at_start, s, s.len() - 1) == pen(style, p, front).at_start);
        if front.len() > 0 {
            assert(starts_line(p.at_start, s, s.len() - 2) == starts_line(
                p.at_start,
                front,
                front.len() - 1,
            ));
        }
        assert(squeezed(style, pen(style, p, front), b) == repeats_blank(p, s, s.len() - 1));
        if repeats_blank(p, s, s.len() - 1) {
            assert(text(style, p, s) =~= text(style, p, front));
        } else {
            assert(left.push(b).drop_last() =~= left);
            assert(ink(style, pen(style, p, front), b) =~= ink(
                unsqueezed(style),
                pen(style, p, front),
                b,
            ));
        }
    }
}

/// Where empty lines are squeezed, one was just put out if and only if the last
/// line is empty.
proof fn lemma_squeezed_pen(style: Style, p: Pen, s: Seq<u8>)
    requires
        sound(p),
        style.squeeze_blank,
    ensures
        pen(style, p, s).kept == if s.len() == 0 {
            p.kept
        } else {
            s.last() == LF && starts_line(p.at_start, s, s.len() - 1)
        },
    decreases s.len(),
{
    if s.len() > 0 {
        let front = s.drop_last();
        lemma_squeezed_pen(style, p, front);
        law_line_start(style, p, front);
        if front.len() > 0 {
            assert(front.last() == s[s.len() - 2]);
        }
    }
}

/// Lines of the output with each run of empty lines replaced by a single one;
/// by none, for a run at the start where an empty line was `kept` before it.
pub open spec fn runs_merged(kept: bool, lines: Seq<OutputLine>) -> Seq<OutputLine>
    decreases lines.len(),
{
    if lines.len() == 0 {
        Seq::empty()
    } else if lines.last().empty && (if lines.len() == 1 {
        kept
    } else {
        lines[lines.len() - 2].empty
    }) {
        runs_merged(kept, lines.drop_last())
    } else {
        runs_merged(kept, lines.drop_last()).push(lines.last())
    }
}

/// Squeezed output is the output as it is otherwise, with each run of empty
/// lines replaced by a single one.
pub proof fn law_squeeze_lines(style: Style, p: Pen, s: Seq<u8>)
    requires
        style.squeeze_blank,
        sound(p),
    ensures
        output_lines(style, p, s) == runs_merged(p.kept, output_lines(unsqueezed(style), p, s)),
{
    lemma_squeeze_lines(style, p, s);
}

/// Whether the last line is empty, or an empty line was `kept` before there was any.
spec fn ends_empty(kept: bool, lines: Seq<OutputLine>) -> bool {
    if lines.len() == 0 {
        kept
    } else {
        lines.last().empty
    }
}

proof fn lemma_squeeze_lines(style: Style, p: Pen, s: Seq<u8>)
    requires
        style.squeeze_blank,
        sound(p),
    ensures
        output_lines(style, p, s) == runs_merged(p.kept, output_lines(unsqueezed(style), p, s)),
        pen(unnumbered(style), p, s).at_start == pen(
            unnumbered(unsqueezed(style)),
            p,
            s,
        ).at_start,
        pen(unnumbered(style), p, s).kept == ends_empty(
            p.kept,
            output_lines(unsqueezed(style), p, s),
        ),
        ends_empty(p.kept, output_lines(unsqueezed(style), p, s)) ==> pen(
            unnumbered(style),
            p,
            s,
        ).at_start,
    decreases s.len(),
{
    let loose = unsqueezed(style);
    let all = output_lines(loose, p, s);
    if s.len() == 0 {
        reveal_with_fuel(runs_merged, 2);
        assert(output_lines(style, p, s) =~= runs_merged(p.kept, all));
    } else {
        let front = s.drop_last();
        let b = s.last();
        let before = output_lines(loose, p, front);
        let q = pen(unnumbered(style), p, front);
        let r = pen(unnumbered(loose), p, front);
        lemma_squeeze_lines(style, p, front);
        lemma_last_line(loose, p, front);
        lemma_last_line(style, p, front);
        let bytes = ink(unnumbered(loose), r, b);
        if q.at_start {
            assert(all.drop_last() =~= before);
            if before.len() > 0 {
                assert(all[all.len() - 2] == before.last());
            }
            assert(ink(unnumbered(loose), q, b) =~= bytes);
        } else {
            let rest = before.drop_last();
            assert(rest.push(before.last()) =~= before);
            assert(all.drop_last() =~= rest);
            assert(runs_merged(p.kept, before) == runs_merged(p.kept, rest).push(before.last()));
            assert(runs_merged(p.kept, all) == runs_merged(p.kept, rest).push(all.last()));
            assert(runs_merged(p.kept, before).drop_last() =~= runs_merged(p.kept, rest));
            assert(ink(unnumbered(style), q, b) =~= bytes);
        }
        assert(output_lines(style, p, s) =~= runs_merged(p.kept, all));
    }
}

/// No two empty lines stand next to each other in squeezed output, and none at
/// its start where one stands before it.
pub proof fn law_no_repeats(style: Style, p: Pen, s: Seq<u8>, i: int)
    requires
        style.squeeze_blank,
        sound(p),
        0 <= i < output_lines(style, p, s).len(),
        output_lines(style, p, s)[i].empty,
    ensures
        i == 0 ==> !p.kept,
        i > 0 ==> !output_lines(style, p, s)[i - 1].empty,
{
    law_squeeze_lines(style, p, s);
    lemma_merged_apart(p.kept, output_lines(unsqueezed(style), p, s), i);
}

proof fn lemma_merged_apart(kept: bool, lines: Seq<OutputLine>, i: int)
    requires
        0 <= i < runs_merged(kept, lines).len(),
        runs_merged(kept, lines)[i].empty,
    ensures
        i == 0 ==> !kept,
        i > 0 ==> !runs_merged(kept, lines)[i - 1].empty,
    decreases lines.len(),
{
    let front = lines.drop_last();
    let merged = runs_merged(kept, front);
    lemma_merged_end(kept, front);
    if i < merged.len() {
        lemma_merged_apart(kept, front, i);
    }
}

/// Merging runs keeps whether the last line is empty.
proof fn lemma_merged_end(kept: bool, lines: Seq<OutputLine>)
    ensures
        ends_empty(kept, runs_merged(kept, lines)) == ends_empty(kept, lines),
    decreases lines.len(),
{
    if lines.len() > 0 {
        lemma_merged_end(kept, lines.drop_last());
        if lines.len() > 1 {
            assert(lines.drop_last().last() == lines[lines.len() - 2]);
        }
    }
}

/// A byte that can be printed.
pub open spec fn printable(b: u8) -> bool {
    32 <= b <= 126
}

/// `^` and `M-` notation holds nothing but bytes that can be printed, TAB left
/// aside, which is shown as `tab`.
pub proof fn law_notation_printable(b: u8, tab: Seq<u8>)
    requires
        b != TAB,
    ensures
        notation(b, tab).len() > 0,
        forall|i: int| 0 <= i < notation(b, tab).len() ==> printable(#[trigger] notation(b, tab)[i]),
{
}

/// `-A` is equivalent to `-vET`, `-e` to `-vE`, `-t` to `-vT`.
pub proof fn law_equivalent_switches(flags: Flags)
    ensures
        (Flags { show_all: true, ..flags }).asked_options() == (Flags {
            show_all: false,
            show_nonprinting: true,
            show_ends: true,
            show_tabs: true,
            ..flags
        }).asked_options(),
        (Flags { e: true, ..flags }).asked_options() == (Flags {
            e: false,
            show_nonprinting: true,
            show_ends: true,
            ..flags
        }).asked_options(),
        (Flags { t: true, ..flags }).asked_options() == (Flags {
            t: false,
            show_nonprinting: true,
            show_tabs: true,
            ..flags
        }).asked_options(),
{
}

/// `-b` overrides `-n`.
pub proof fn law_nonblank_overrides(flags: Flags)
    ensures
        (Flags { number_nonblank: true, number: true, ..flags }).asked_options() == (Flags {
            number_nonblank: true,
            number: false,
            ..flags
        }).asked_options(),
{
}

/// Each switch acts whatever the others are. Empty lines are squeezed if and only
/// if `-s` stands. Ends of lines are shown if and only if one of `-A`, `-E` and
/// `-e` does, TABs for `-A`, `-T` and `-t`, notation for `-A`, `-v`, `-e` and
/// `-t`. Lines are numbered if and only if `-n` or `-b` stands: those that are not
/// empty for `-b`, all of them for `-n` alone.
pub proof fn law_switches(flags: Flags)
    ensures
        ({
            let options = flags.asked_options();
            &&& options.squeeze_blank <==> flags.squeeze_blank
            &&& options.show_ends <==> flags.show_all || flags.show_ends || flags.e
            &&& options.show_tabs <==> flags.show_all || flags.show_tabs || flags.t
            &&& options.show_nonprint <==> flags.show_all || flags.show_nonprinting || flags.e
                || flags.t
            &&& options.number !is NumberNone <==> flags.number || flags.number_nonblank
            &&& options.number is NumberNonEmpty <==> flags.number_nonblank
        }),
{
}

/// Options that come from switches reach the output as they are: the numbering,
/// the squeezing, `$` before the end of a line where ends are shown, `^I` for a
/// TAB where TABs are shown. Files are copied as they are only where nothing of
/// that is asked for.
pub proof fn law_full_style(options: OutputOptions<'_>)
    ensures
        ({
            let style = options.full_style();
            &&& style.number == options.number
            &&& style.squeeze_blank == options.squeeze_blank
            &&& options.show_ends ==> style.end_of_line == seq![36u8, 10]
            &&& !options.show_ends ==> style.end_of_line == seq![10u8]
            &&& options.show_nonprint && options.show_tabs ==> style.show == Show::Notation(
                seq![94u8, 73],
            )
            &&& options.show_nonprint && !options.show_tabs ==> style.show == Show::Notation(
                seq![9u8],
            )
            &&& !options.show_nonprint && options.show_tabs ==> style.show == Show::Tabs(
                seq![94u8, 73],
            )
            &&& !options.show_nonprint && !options.show_tabs ==> style.show == Show::Plain
            &&& options.plain() <==> style.number is NumberNone && !style.squeeze_blank
                && style.show == Show::Plain && style.end_of_line == seq![10u8]
        }),
{
    if options.show_ends {
        assert(options.full_style().end_of_line.len() == 2);
        assert(seq![10u8].len() == 1);
    }
}

/// Options reach the output as they are, with their own texts for TAB and for the
/// end of a line.
pub proof fn law_style(options: OutputOptions<'_>)
    ensures
        ({
            let style = options.style();
            let tab = vstd::utf8::encode_utf8(options.tab@);
            &&& style.number == options.number
            &&& style.squeeze_blank == options.squeeze_blank
            &&& style.end_of_line == vstd::utf8::encode_utf8(options.end_of_line@)
            &&& options.show_nonprint && options.show_tabs ==> style.show == Show::Notation(tab)
            &&& options.show_nonprint && !options.show_tabs ==> style.show == Show::Notation(
                seq![9u8],
            )
            &&& !options.show_nonprint && options.show_tabs ==> style.show == Show::Tabs(tab)
            &&& !options.show_nonprint && !options.show_tabs ==> style.show == Show::Plain
        }),
{
}

/// Where someone watches, what is put out up to the end of a line is flushed: if
/// a block ends a line, the last of its operations, if it has any, is to flush.
pub proof fn law_watched(style: Style, p: Pen, block: Seq<u8>)
    requires
        block.len() > 0,
        block.last() == LF,
        script(style, true, p, block).len() > 0,
    ensures
        script(style, true, p, block).last() is Flush,
    decreases block.len(),
{
    if squeezed(style, p, block[0]) {
        let rest = block.drop_first();
        assert(script(style, true, p, block) == script(style, true, p, rest));
        assert(rest.len() == 0 ==> script(style, true, p, rest).len() == 0);
        law_watched(style, p, rest);
    } else if block[0] == LF {
        let rest = block.drop_first();
        let q = moved(style, p, LF);
        if script(style, true, q, rest).len() > 0 {
            law_watched(style, q, rest);
        } else {
            assert(blank_deeds(style, true, p) + script(style, true, q, rest) =~= blank_deeds(
                style,
                true,
                p,
            ));
        }
    } else {
        lemma_line_len(block);
        let n = line_len(block) as int;
        let line = block.take(n);
        let rest = block.skip(n + 1);
        let q = after_line(style, p, block[0]);
        if script(style, true, q, rest).len() > 0 {
            assert(rest.last() == block.last());
            law_watched(style, q, rest);
        } else {
            assert(line_deeds(style, true, p, line) + script(style, true, q, rest) =~= line_deeds(
                style,
                true,
                p,
                line,
            ));
        }
    }
}

/// Where writing a line in `^` and `M-` notation fails at its byte `k`, the
/// number of the line and the notation of the bytes before it have been written,
/// and nothing else.
pub proof fn law_partial_line(style: Style, p: Pen, line: Seq<u8>, k: int)
    requires
        style.show is Notation,
        0 <= k < line.len(),
    ensures
        ({
            let numbers = number_deeds(style, p, line[0]);
            let all = open_line_deeds(style, p, line);
            &&& all.len() == numbers.len() + line.len()
            &&& deed_bytes(all[numbers.len() + k]) == shown(style.show, line[k])
            &&& written(all.take(numbers.len() + k)) == prefix(style, p, line[0]) + shown_all(
                style.show,
                line.take(k),
            )
        }),
{
    let numbers = number_deeds(style, p, line[0]);
    let all = open_line_deeds(style, p, line);
    let parts = pieces(style.show, line);
    let done = pieces(style.show, line.take(k));
    assert(parts.take(k) =~= done);
    assert(all.take(numbers.len() + k) =~= numbers + piece_deeds(style, p, line[0], done));
    lemma_number_written(style, p, line[0]);
    lemma_pieces_written(style, p, line[0], done);
    lemma_pieces_joined(style.show, line.take(k));
    lemma_written_append(numbers, piece_deeds(style, p, line[0], done));
}

/// The digits of a number, read back one after the other, have its value.
proof fn lemma_decimal_value(n: nat, step: spec_fn(int, u8) -> int)
    requires
        forall|v: int, b: u8| #[trigger] step(v, b) == 10 * v + (b - 48),
    ensures
        decimal(n).len() > 0,
        forall|i: int| 0 <= i < decimal(n).len() ==> 48 <= #[trigger] decimal(n)[i] <= 57,
        decimal(n)[0] == 48 ==> decimal(n).len() == 1,
        decimal(n).fold_left(0, step) == n,
    decreases n,
{
    reveal_with_fuel(Seq::fold_left, 2);
    if n < 10 {
        assert(decimal(n).drop_last() =~= Seq::<u8>::empty());
    } else {
        lemma_decimal_value(n / 10, step);
        assert(decimal(n).drop_last() =~= decimal(n / 10));
        if decimal(n / 10)[0] == 48 {
            assert(decimal(n / 10).len() == 1);
            assert(n / 10 >= 10 ==> decimal(n / 10).len() == decimal((n / 10) / 10).len() + 1);
            if n / 10 >= 10 {
                lemma_decimal_value((n / 10) / 10, step);
            }
        }
    }
}

/// Digits say which number they stand for: they are decimal digits, without a
/// leading zero unless there is no other digit, and their value is the number.
pub proof fn law_digits(n: nat)
    ensures
        decimal(n).len() > 0,
        forall|i: int| 0 <= i < decimal(n).len() ==> 48 <= #[trigger] decimal(n)[i] <= 57,
        decimal(n)[0] == 48 ==> decimal(n).len() == 1,
        decimal(n).fold_left(0int, |v: int, b: u8| 10 * v + (b - 48)) == n,
{
    lemma_decimal_value(n, |v: int, b: u8| 10 * v + (b - 48));
}

/// What stands before a numbered line says which number it has: `spaces` spaces,
/// then decimal digits without a leading zero, whose value is the number, then
/// one TAB. It is seven bytes long, or longer where the digits alone are.
pub proof fn law_number_text(n: nat) -> (spaces: int)
    ensures
        ({
            let before = line_number(n);
            let end = before.len() - 1;
            &&& 0 <= spaces < end
            &&& before[end] == 9
            &&& forall|i: int| 0 <= i < spaces ==> before[i] == 32
            &&& forall|i: int| spaces <= i < end ==> 48 <= #[trigger] before[i] <= 57
            &&& before[spaces] == 48 ==> end == spaces + 1
            &&& before.subrange(spaces, end).fold_left(0int, |v: int, b: u8| 10 * v + (b - 48))
                == n
            &&& end >= 6
            &&& spaces > 0 ==> end == 6
        }),
{
    law_digits(n);
    let before = line_number(n);
    let digits = decimal(n);
    let end = before.len() - 1;
    let spaces = end - digits.len();
    assert(before.subrange(spaces, end) =~= digits);
    assert forall|i: int| spaces <= i < end implies 48 <= #[trigger] before[i] <= 57 by {
        assert(before[i] == digits[i - spaces]);
    }
    assert(before[spaces] == digits[0]);
    spaces
}

/// No two numbers look the same before a line.
pub proof fn law_numbers_differ(m: nat, n: nat)
    requires
        line_number(m) == line_number(n),
    ensures
        m == n,
{
    let i = law_number_text(m);
    let j = law_number_text(n);
    let before = line_number(m);
    if i < j {
        assert(before[i] == 32);
    }
    if j < i {
        assert(before[j] == 32);
    }
}

/// `^` and `M-` notation says which byte stands there. A byte that can be printed
/// is shown as itself. A control byte and DEL are shown as `^` and the byte that
/// differs from it in bit 6 alone, which is one of `@` to `_`, or `?`. A byte
/// with its top bit set is shown as `M-`, then as the byte without it would be.
/// TAB alone is shown as `tab`.
pub proof fn law_notation(b: u8, tab: Seq<u8>)
    ensures
        b == 9 ==> notation(b, tab) == tab,
        32 <= b <= 126 ==> notation(b, tab) == seq![b],
        (b < 32 && b != 9) || b == 127 ==> {
            let c = notation(b, tab)[1];
            &&& notation(b, tab) == seq![94u8, c]
            &&& c ^ 64 == b
            &&& 64 <= c <= 95 || c == 63
        },
        160 <= b <= 254 ==> notation(b, tab) == seq![77u8, 45u8, (b - 128) as u8],
        128 <= b < 160 || b == 255 ==> {
            let c = notation(b, tab)[3];
            &&& notation(b, tab) == seq![77u8, 45u8, 94u8, c]
            &&& c ^ 64 == b - 128
            &&& 64 <= c <= 95 || c == 63
        },
{
    if b < 32 {
        assert(((b + 64) as u8) ^ 64 == b) by (bit_vector)
            requires
                b < 32,
        ;
    }
    assert(63u8 ^ 64 == 127) by (bit_vector);
    if 128 <= b < 160 {
        let low = (b - 128) as u8;
        assert(((low + 64) as u8) ^ 64 == low) by (bit_vector)
            requires
                low < 32,
        ;
        assert(notation(b, tab) =~= seq![77u8, 45u8, 94u8, (low + 64) as u8]);
    } else if b == 255 {
        assert(notation(b, tab) =~= seq![77u8, 45u8, 94u8, 63u8]);
    } else if b >= 160 {
        assert(notation(b, tab) =~= seq![77u8, 45u8, (b - 128) as u8]);
    }
}

/// No two bytes look the same in `^` and `M-` notation, TAB left aside.
pub proof fn law_notation_differs(a: u8, b: u8, tab: Seq<u8>)
    requires
        a != 9,
        b != 9,
        notation(a, tab) == notation(b, tab),
    ensures
        a == b,
{
    law_notation(a, tab);
    law_notation(b, tab);
    let x = notation(a, tab);
    let y = notation(b, tab);
    if x.len() == 1 {
        assert(x[0] == a && y[0] == b);
    } else if x.len() == 2 {
        assert(x[1] ^ 64 == a && y[1] ^ 64 == b);
    } else if x.len() == 3 {
        assert(x[2] == a - 128 && y[2] == b - 128);
    } else {
        assert(x[3] ^ 64 == a - 128 && y[3] ^ 64 == b - 128);
    }
}

/// A byte of a line puts out itself where it is shown plainly, the text for TAB
/// where it is a TAB and TABs are shown, its notation where notation is asked
/// for. What the line already holds has no bearing on it.
pub proof fn law_byte(style: Style, p: Pen, b: u8)
    requires
        b != 10,
        !p.at_start || style.number is NumberNone,
    ensures
        ({
            let out = text(style, p, seq![b]);
            match style.show {
                Show::Plain => out == seq![b],
                Show::Tabs(tab) => (b == 9 ==> out == tab) && (b != 9 ==> out == seq![b]),
                Show::Notation(tab) => out == notation(b, tab),
            }
        }),
{
    lemma_one_byte(style, p, b);
}

/// What a single byte puts out.
proof fn lemma_one_byte(style: Style, p: Pen, b: u8)
    ensures
        text(style, p, seq![b]) == ink(style, p, b),
        pen(style, p, seq![b]) == moved(style, p, b),
{
    let one = seq![b];
    assert(one.drop_last() =~= Seq::<u8>::empty());
    assert(one.last() == b);
    reveal_with_fuel(text, 2);
    reveal_with_fuel(pen, 2);
    assert(text(style, p, one) =~= ink(style, p, b));
}

/// A line that is not empty puts out its number, if lines are numbered and it is
/// begun here, then what it puts out where lines are not numbered. The number is
/// used up then, and the line is left open.
pub proof fn law_line(style: Style, p: Pen, line: Seq<u8>)
    requires
        line.len() > 0,
        forall|i: int| 0 <= i < line.len() ==> line[i] != 10,
    ensures
        ({
            let bare = Style { number: NumberingMode::NumberNone, ..style };
            let number = p.at_start && style.number !is NumberNone;
            &&& number ==> text(style, p, line) == line_number(p.number) + text(bare, p, line)
            &&& !number ==> text(style, p, line) == text(bare, p, line)
            &&& pen(style, p, line).number == p.number + if number {
                1int
            } else {
                0int
            }
            &&& !pen(style, p, line).at_start
            &&& !pen(style, p, line).kept
        }),
{
    let bare = Style { number: NumberingMode::NumberNone, ..style };
    lemma_text_line(style, p, line);
    lemma_text_line(bare, p, line);
    assert(text(bare, p, line) =~= shown_all(style.show, line));
    assert(text(style, p, line) =~= prefix(style, p, line[0]) + shown_all(style.show, line));
}

/// The end of a line that was left open puts out the end of a line and nothing
/// else, and makes no empty line.
pub proof fn law_line_end(style: Style, p: Pen)
    requires
        !p.at_start,
    ensures
        text(style, p, seq![10u8]) == style.end_of_line,
        pen(style, p, seq![10u8]) == (Pen { number: p.number, at_start: true, kept: false }),
{
    lemma_one_byte(style, p, 10);
    assert(text(style, p, seq![10u8]) =~= style.end_of_line);
}

/// An empty line puts nothing out where empty lines are squeezed and one was just
/// put out, and is not counted. Otherwise it puts out the end of a line, with the
/// next number before it where all lines are numbered.
pub proof fn law_empty_line(style: Style, p: Pen)
    requires
        p.at_start,
    ensures
        style.squeeze_blank && p.kept ==> text(style, p, seq![10u8]).len() == 0 && pen(
            style,
            p,
            seq![10u8],
        ) == p,
        !(style.squeeze_blank && p.kept) && style.number is NumberAll ==> text(
            style,
            p,
            seq![10u8],
        ) == line_number(p.number) + style.end_of_line && pen(style, p, seq![10u8]) == (Pen {
            number: p.number + 1,
            at_start: true,
            kept: true,
        }),
        !(style.squeeze_blank && p.kept) && style.number !is NumberAll ==> text(
            style,
            p,
            seq![10u8],
        ) == style.end_of_line && pen(style, p, seq![10u8]) == (Pen {
            number: p.number,
            at_start: true,
            kept: true,
        }),
{
    lemma_one_byte(style, p, 10);
    assert(ink(style, p, 10) =~= if style.squeeze_blank && p.kept {
        Seq::empty()
    } else {
        prefix(style, p, 10) + style.end_of_line
    });
    assert(Seq::<u8>::empty() + style.end_of_line =~= style.end_of_line);
}

/// Nothing read puts nothing out. Before anything is read the next number is 1,
/// a line starts, and no empty line was put out.
pub proof fn law_nothing(style: Style, p: Pen)
    ensures
        text(style, p, Seq::empty()).len() == 0,
        pen(style, p, Seq::empty()) == p,
        first_pen() == (Pen { number: 1, at_start: true, kept: false }),
{
}

/// Where empty lines are squeezed, a third LF in a row changes nothing, wherever
/// it stands.
pub proof fn law_squeeze_run(style: Style, p: Pen, a: Seq<u8>, b: Seq<u8>)
    requires
        style.squeeze_blank,
    ensures
        text(style, p, a + seq![10u8, 10, 10] + b) == text(style, p, a + seq![10u8, 10] + b),
        pen(style, p, a + seq![10u8, 10, 10] + b) == pen(style, p, a + seq![10u8, 10] + b),
{
    let two = a + seq![10u8, 10];
    let three = a + seq![10u8, 10, 10];
    let one = seq![10u8];
    assert(two + one =~= three);
    assert((a + one) + one =~= two);
    lemma_text_append(style, p, a, one);
    lemma_text_append(style, p, a + one, one);
    lemma_text_append(style, p, two, one);
    lemma_one_byte(style, pen(style, p, a), 10);
    lemma_one_byte(style, pen(style, p, a + one), 10);
    lemma_one_byte(style, pen(style, p, two), 10);
    assert(text(style, p, three) =~= text(style, p, two));
    lemma_text_append(style, p, two, b);
    lemma_text_append(style, p, three, b);
}

/// Where no empty line follows an empty line, squeezing changes nothing.
pub proof fn law_squeeze_spares(style: Style, p: Pen, s: Seq<u8>)
    requires
        p.kept ==> p.at_start,
        s.len() > 0 && p.kept ==> s[0] != 10,
        s.len() > 1 && p.at_start ==> !(s[0] == 10 && s[1] == 10),
        forall|i: int|
            0 <= i < s.len() - 2 ==> !(#[trigger] s[i] == 10 && s[i + 1] == 10 && s[i + 2] == 10),
    ensures
        text(Style { squeeze_blank: true, ..style }, p, s) == text(
            Style { squeeze_blank: false, ..style },
            p,
            s,
        ),
        pen(Style { squeeze_blank: true, ..style }, p, s) == pen(
            Style { squeeze_blank: false, ..style },
            p,
            s,
        ),
    decreases s.len(),
{
    if s.len() > 0 {
        let front = s.drop_last();
        let tight = Style { squeeze_blank: true, ..style };
        let loose = Style { squeeze_blank: false, ..style };
        assert forall|i: int| 0 <= i < front.len() - 2 implies !(#[trigger] front[i] == 10
            && front[i + 1] == 10 && front[i + 2] == 10) by {
            assert(front[i] == s[i]);
        }
        law_squeeze_spares(style, p, front);
        lemma_squeezed_pen(tight, p, front);
        law_line_start(tight, p, front);
        if front.len() > 1 {
            assert(s[s.len() - 3] == front[front.len() - 2]);
        }
        if front.len() > 0 {
            assert(front.last() == s[s.len() - 2]);
        }
        assert(!squeezed(tight, pen(tight, p, front), s.last()));
    }
}

/// The offset that is returned for a line is 0 if and only if no LF is there;
/// otherwise it is just past the first one. The line is what stands before it.
pub proof fn law_offset(in_buf: Seq<u8>)
    ensures
        end_offset(in_buf) <= in_buf.len(),
        end_offset(in_buf) == 0 <==> !in_buf.contains(10),
        end_offset(in_buf) == 0 ==> line_of(in_buf) == in_buf,
        end_offset(in_buf) > 0 ==> {
            &&& in_buf[end_offset(in_buf) - 1] == 10
            &&& line_of(in_buf) == in_buf.take(end_offset(in_buf) - 1)
            &&& !line_of(in_buf).contains(10)
        },
{
    lemma_line_len(in_buf);
    assert(in_buf.take(in_buf.len() as int) =~= in_buf);
    if end_offset(in_buf) > 0 {
        assert(in_buf.contains(in_buf[end_offset(in_buf) - 1]));
    }
}

/// A line that is shown plainly is written in one piece; in notation, each of its
/// bytes is a piece. Where TABs are shown, a TAB is a piece of its own, and what
/// stands between two of them is one.
pub proof fn law_pieces(tab: Seq<u8>, a: Seq<u8>, b: Seq<u8>)
    ensures
        pieces(Show::Plain, a) == seq![a],
        pieces(Show::Notation(tab), a).len() == a.len(),
        forall|i: int|
            0 <= i < a.len() ==> #[trigger] pieces(Show::Notation(tab), a)[i] == notation(a[i], tab),
        !a.contains(9) ==> pieces(Show::Tabs(tab), a) == seq![a],
        pieces(Show::Tabs(tab), a + seq![9u8] + b) == pieces(Show::Tabs(tab), a) + seq![tab]
            + pieces(Show::Tabs(tab), b),
{
    if !a.contains(9) {
        lemma_no_tab_pieces(tab, a);
    }
    lemma_tab_pieces_cut(tab, a, b);
}

proof fn lemma_no_tab_pieces(tab: Seq<u8>, a: Seq<u8>)
    requires
        !a.contains(9),
    ensures
        tab_pieces(tab, a) == seq![a],
    decreases a.len(),
{
    if a.len() == 0 {
        assert(a =~= Seq::<u8>::empty());
    } else {
        let front = a.drop_last();
        assert(a.contains(a[a.len() - 1]));
        assert forall|i: int| 0 <= i < front.len() implies front[i] != 9 by {
            assert(a.contains(a[i]));
        }
        lemma_no_tab_pieces(tab, front);
        assert(front.push(a.last()) =~= a);
        assert(tab_pieces(tab, a) =~= seq![a]);
    }
}

proof fn lemma_tab_pieces_cut(tab: Seq<u8>, a: Seq<u8>, b: Seq<u8>)
    ensures
        tab_pieces(tab, b).len() > 0,
        tab_pieces(tab, a + seq![9u8] + b) == tab_pieces(tab, a) + seq![tab] + tab_pieces(tab, b),
    decreases b.len(),
{
    let all = a + seq![9u8] + b;
    if b.len() == 0 {
        assert(all.drop_last() =~= a);
        assert(tab_pieces(tab, all) =~= tab_pieces(tab, a) + seq![tab] + tab_pieces(tab, b));
    } else {
        let front = b.drop_last();
        lemma_tab_pieces_cut(tab, a, front);
        assert(all.drop_last() =~= a + seq![9u8] + front);
        assert(tab_pieces(tab, all) =~= tab_pieces(tab, a) + seq![tab] + tab_pieces(tab, b));
    }
}

/// What operations write: each write its bytes, a flush nothing, and one list
/// after another what the one writes, then what the other does.
pub proof fn law_written(a: Seq<Deed>, b: Seq<Deed>, bytes: Seq<u8>, names_file: bool, state: Pen)
    ensures
        written(a + b) == written(a) + written(b),
        written(seq![Deed::Write { bytes, names_file, state }]) == bytes,
        written(seq![Deed::Flush { names_file, state }]).len() == 0,
{
    lemma_written_append(a, b);
    reveal_with_fuel(written, 2);
    assert(written(seq![Deed::Write { bytes, names_file, state }]) =~= bytes);
}

/// The operations for a block are those for its lines, one after the other: a
/// block that is cut where a line ends has those of the one part, then those of
/// the other.
pub proof fn law_lines_apart(style: Style, interactive: bool, p: Pen, a: Seq<u8>, b: Seq<u8>)
    requires
        a.len() == 0 || a.last() == 10,
    ensures
        script(style, interactive, p, a + b) == script(style, interactive, p, a) + script(
            style,
            interactive,
            pen(style, p, a),
            b,
        ),
    decreases a.len(),
{
    let all = a + b;
    let last = script(style, interactive, pen(style, p, a), b);
    if a.len() == 0 {
        assert(all =~= b);
        assert(Seq::<Deed>::empty() + last =~= last);
    } else if a[0] == LF {
        let rest = a.drop_first();
        assert(all.drop_first() =~= rest + b);
        lemma_text_first(style, p, a);
        let q = moved(style, p, LF);
        law_lines_apart(style, interactive, q, rest, b);
        if !squeezed(style, p, LF) {
            lemma_deeds_assoc(
                blank_deeds(style, interactive, p),
                script(style, interactive, q, rest),
                last,
            );
        }
    } else {
        let n = line_len(a) as int;
        lemma_first_line_same(a, b);
        lemma_block_line(style, p, a);
        let rest = a.skip(n + 1);
        let q = after_line(style, p, a[0]);
        law_lines_apart(style, interactive, q, rest, b);
        lemma_deeds_assoc(
            line_deeds(style, interactive, p, a.take(n)),
            script(style, interactive, q, rest),
            last,
        );
    }
}

/// The first line of a block that ends a line does not depend on what follows it.
proof fn lemma_first_line_same(a: Seq<u8>, b: Seq<u8>)
    requires
        a.len() > 0,
        a[0] != LF,
        a.last() == LF,
    ensures
        0 < line_len(a) < a.len(),
        line_len(a + b) == line_len(a),
        (a + b).take(line_len(a) as int) == a.take(line_len(a) as int),
        (a + b).skip(line_len(a) as int + 1) == a.skip(line_len(a) as int + 1) + b,
        a.skip(line_len(a) as int + 1).len() == 0 || a.skip(line_len(a) as int + 1).last() == LF,
{
    let all = a + b;
    lemma_line_len(a);
    let n = line_len(a) as int;
    assert(a[a.len() - 1] == LF);
    assert forall|i: int| 0 <= i < n implies all[i] != LF by {
        assert(all[i] == a[i]);
    }
    assert(all[n] == a[n]);
    lemma_line_len_is(all, n);
    assert(all.take(n) =~= a.take(n));
    assert(all.skip(n + 1) =~= a.skip(n + 1) + b);
}

/// The operations for the bytes of one line: its number is written, if it is
/// begun here and lines are numbered, then its pieces. None of them names the
/// file. Where one fails, the number counts as used if it was written, and the
/// line as not begun if it was not.
pub proof fn law_line_operations(style: Style, interactive: bool, p: Pen, line: Seq<u8>, i: int)
    requires
        line.len() > 0,
        !line.contains(10),
        0 <= i < pieces(style.show, line).len(),
    ensures
        ({
            let all = script(style, interactive, p, line);
            let parts = pieces(style.show, line);
            let number = p.at_start && style.number !is NumberNone;
            &&& number ==> {
                &&& all.len() == 1 + parts.len()
                &&& all[0] == (Deed::Write {
                    bytes: line_number(p.number),
                    names_file: false,
                    state: p,
                })
                &&& all[1 + i] == (Deed::Write {
                    bytes: parts[i],
                    names_file: false,
                    state: Pen { number: p.number + 1, at_start: p.at_start, kept: false },
                })
            }
            &&& !number ==> {
                &&& all.len() == parts.len()
                &&& all[i] == (Deed::Write {
                    bytes: parts[i],
                    names_file: false,
                    state: Pen {
                        number: p.number,
                        at_start: p.at_start,
                        kept: p.kept && i == 0,
                    },
                })
            }
        }),
{
    assert forall|k: int| 0 <= k < line.len() implies line[k] != LF by {
        assert(line.contains(line[k]));
    }
    lemma_line_len_is(line, line.len() as int);
}

/// The end of a line that is not empty is one more write, and a flush where
/// someone watches. Neither names the file.
pub proof fn law_line_end_operations(style: Style, interactive: bool, p: Pen, line: Seq<u8>)
    requires
        line.len() > 0,
        !line.contains(10),
    ensures
        ({
            let before = script(style, interactive, p, line);
            let all = script(style, interactive, p, line.push(10));
            let state = Pen {
                number: pen(style, p, line).number,
                at_start: p.at_start,
                kept: false,
            };
            let end = Deed::Write { bytes: style.end_of_line, names_file: false, state };
            &&& interactive ==> all == before.push(end).push(
                Deed::Flush { names_file: false, state },
            )
            &&& !interactive ==> all == before.push(end)
        }),
{
    let whole = line.push(10);
    let n = line.len() as int;
    assert forall|k: int| 0 <= k < n implies line[k] != LF && whole[k] != LF by {
        assert(line.contains(line[k]));
    }
    lemma_line_len_is(line, n);
    lemma_line_len_is(whole, n);
    lemma_text_line(style, p, line);
    assert(whole.take(n) =~= line);
    assert(whole.skip(n + 1) =~= Seq::<u8>::empty());
    assert(whole[0] == line[0]);
    let q = after_line(style, p, whole[0]);
    assert(script(style, interactive, q, whole.skip(n + 1)) =~= Seq::<Deed>::empty());
    let state = Pen { number: pen(style, p, line).number, at_start: p.at_start, kept: false };
    let end = Deed::Write { bytes: style.end_of_line, names_file: false, state };
    let before = script(style, interactive, p, line);
    if interactive {
        assert(script(style, interactive, p, whole) =~= before.push(end).push(
            Deed::Flush { names_file: false, state },
        ));
    } else {
        assert(script(style, interactive, p, whole) =~= before.push(end));
    }
}

/// The operations for a LF at the start of a line or of a block: none, where it
/// would repeat an empty line and those are squeezed. Otherwise the number is
/// written, where the line is empty and all lines are numbered, then the end of
/// the line, which is flushed where someone watches. The flush alone names the
/// file.
pub proof fn law_blank_operations(style: Style, interactive: bool, p: Pen)
    ensures
        ({
            let all = script(style, interactive, p, seq![10u8]);
            let number = p.at_start && style.number is NumberAll;
            let n = if number {
                1int
            } else {
                0int
            };
            let state = Pen {
                number: (p.number + n) as nat,
                at_start: p.at_start,
                kept: p.kept && !number,
            };
            let flushed = Pen { kept: p.at_start, ..state };
            if p.at_start && p.kept && style.squeeze_blank {
                all.len() == 0
            } else {
                &&& all.len() == n + 1 + if interactive {
                    1int
                } else {
                    0int
                }
                &&& number ==> all[0] == (Deed::Write {
                    bytes: line_number(p.number),
                    names_file: false,
                    state: p,
                })
                &&& all[n] == (Deed::Write { bytes: style.end_of_line, names_file: false, state })
                &&& interactive ==> all[n + 1] == (Deed::Flush { names_file: true, state: flushed })
            }
        }),
{
    let one = seq![10u8];
    assert(one.drop_first() =~= Seq::<u8>::empty());
    reveal_with_fuel(script, 2);
}

} // verus!
