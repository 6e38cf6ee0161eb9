//! Writing a file line by line: what is written and flushed for one block of it.

use vstd::prelude::*;
use vstd::slice::slice_subrange;

#[allow(unused_imports)]
use crate::line::{end_offset, line_of};
use crate::line::{number_prefix, write_nonprint_to_end, write_tab_to_end, write_to_end, Writer};
use crate::options::OutputOptions;
use crate::text::{NumberingMode, LF, TAB};
#[allow(unused_imports)]
use crate::text::{
    first_pen, ink, joined, lemma_line_len, lemma_pen_number, lemma_pieces_joined,
    lemma_text_append, lemma_text_first, lemma_text_line, line_len, line_number, moved,
    next_number, numbered, pen, pieces, prefix, shown_all, squeezed, text, Pen, Style,
};

verus! {

/// State that persists between output of each file.
#[derive(Clone, Copy, Debug, PartialEq, Eq, Structural)]
pub struct OutputState {
    /// The current line number.
    pub line_number: usize,
    /// Whether the output cursor is at the beginning of a new line.
    pub at_line_start: bool,
    /// Whether an empty line was just put out, so that another one repeats it.
    pub one_blank_kept: bool,
}

impl View for OutputState {
    type V = Pen;

    open spec fn view(&self) -> Pen {
        Pen {
            number: self.line_number as nat,
            at_start: self.at_line_start,
            kept: self.one_blank_kept,
        }
    }
}

impl OutputState {
    /// The state before the first file.
    pub fn new() -> (state: OutputState)
        ensures
            state@ == first_pen(),
    {
        OutputState { line_number: 1, at_line_start: true, one_blank_kept: false }
    }
}

/// Something to do to the output.
#[derive(Debug)]
pub enum Task {
    /// Write these bytes.
    Write(Vec<u8>),
    /// Flush what has been written.
    Flush,
}

/// One operation on the output.
#[derive(Debug)]
pub struct Op {
    /// What to do.
    pub task: Task,
    /// Whether a failure is reported with the path of the file being read.
    pub names_file: bool,
    /// The state that remains if the operation fails.
    pub state: OutputState,
}

/// What an [`Op`] says, over sequences and numbers.
pub enum Deed {
    Write { bytes: Seq<u8>, names_file: bool, state: Pen },
    Flush { names_file: bool, state: Pen },
}

impl View for Op {
    type V = Deed;

    open spec fn view(&self) -> Deed {
        match self.task {
            Task::Write(bytes) => Deed::Write {
                bytes: bytes@,
                names_file: self.names_file,
                state: self.state@,
            },
            Task::Flush => Deed::Flush { names_file: self.names_file, state: self.state@ },
        }
    }
}

/// Whether a failure of the operation is reported with the path of the file.
pub open spec fn names_file(deed: Deed) -> bool {
    match deed {
        Deed::Write { names_file, .. } => names_file,
        Deed::Flush { names_file, .. } => names_file,
    }
}

/// Where the output stands if the operation fails.
pub open spec fn remaining_state(deed: Deed) -> Pen {
    match deed {
        Deed::Write { state, .. } => state,
        Deed::Flush { state, .. } => state,
    }
}

/// The operations of a list, each by what it says.
pub open spec fn deeds(ops: Seq<Op>) -> Seq<Deed> {
    ops.map_values(|op: Op| op@)
}

/// What an operation writes.
pub open spec fn deed_bytes(deed: Deed) -> Seq<u8> {
    match deed {
        Deed::Write { bytes, .. } => bytes,
        Deed::Flush { .. } => Seq::empty(),
    }
}

/// All that a list of operations writes.
pub open spec fn written(deeds: Seq<Deed>) -> Seq<u8>
    decreases deeds.len(),
{
    if deeds.len() == 0 {
        Seq::empty()
    } else {
        written(deeds.drop_last()) + deed_bytes(deeds.last())
    }
}

/// Where the output stands once the number of the line that starts with `b`, if
/// it gets one, has been written. With something written, no empty line is the
/// last thing that was put out.
pub open spec fn after_number(style: Style, p: Pen, b: u8) -> Pen {
    Pen {
        number: next_number(style, p, b),
        at_start: p.at_start,
        kept: p.kept && !numbered(style, p, b),
    }
}

/// Where the output stands within the line that starts with `b`.
pub open spec fn within_line(style: Style, p: Pen, b: u8) -> Pen {
    Pen { number: next_number(style, p, b), at_start: p.at_start, kept: false }
}

/// Writing the number of the line that starts with `b`, where it gets one.
pub open spec fn number_deeds(style: Style, p: Pen, b: u8) -> Seq<Deed> {
    if numbered(style, p, b) {
        seq![Deed::Write { bytes: line_number(p.number), names_file: false, state: p }]
    } else {
        Seq::empty()
    }
}

/// Writing the pieces of a line, one after the other.
pub open spec fn piece_deeds(style: Style, p: Pen, b: u8, parts: Seq<Seq<u8>>) -> Seq<Deed> {
    Seq::new(
        parts.len(),
        |i: int|
            Deed::Write {
                bytes: parts[i],
                names_file: false,
                state: if i == 0 {
                    after_number(style, p, b)
                } else {
                    within_line(style, p, b)
                },
            },
    )
}

/// Flushing after the end of a line, where someone watches.
pub open spec fn flush_deeds(interactive: bool, names_file: bool, state: Pen) -> Seq<Deed> {
    if interactive {
        seq![Deed::Flush { names_file, state }]
    } else {
        Seq::empty()
    }
}

/// The operations for a LF that is found at the start of a line or of a block.
pub open spec fn blank_deeds(style: Style, interactive: bool, p: Pen) -> Seq<Deed> {
    number_deeds(style, p, LF).push(
        Deed::Write {
            bytes: style.end_of_line,
            names_file: false,
            state: after_number(style, p, LF),
        },
    ) + flush_deeds(
        interactive,
        true,
        Pen { kept: p.at_start, ..after_number(style, p, LF) },
    )
}

/// The operations for the bytes of a line up to its end, which is not reached.
pub open spec fn open_line_deeds(style: Style, p: Pen, line: Seq<u8>) -> Seq<Deed> {
    number_deeds(style, p, line[0]) + piece_deeds(style, p, line[0], pieces(style.show, line))
}

/// The operations for the bytes of a line and its end.
pub open spec fn line_deeds(style: Style, interactive: bool, p: Pen, line: Seq<u8>) -> Seq<Deed> {
    open_line_deeds(style, p, line).push(
        Deed::Write {
            bytes: style.end_of_line,
            names_file: false,
            state: within_line(style, p, line[0]),
        },
    ) + flush_deeds(interactive, false, within_line(style, p, line[0]))
}

/// The operations for a block that was read in one piece.
pub open spec fn script(style: Style, interactive: bool, p: Pen, block: Seq<u8>) -> Seq<Deed>
    decreases block.len(),
    via script_decreases
{
    if block.len() == 0 {
        Seq::empty()
    } else if squeezed(style, p, block[0]) {
        script(style, interactive, p, block.drop_first())
    } else if block[0] == LF {
        blank_deeds(style, interactive, p) + script(
            style,
            interactive,
            moved(style, p, LF),
            block.drop_first(),
        )
    } else {
        let n = line_len(block) as int;
        if n == block.len() {
            open_line_deeds(style, p, block)
        } else {
            line_deeds(style, interactive, p, block.take(n)) + script(
                style,
                interactive,
                after_line(style, p, block[0]),
                block.skip(n + 1),
            )
        }
    }
}

#[via_fn]
proof fn script_decreases(style: Style, interactive: bool, p: Pen, block: Seq<u8>) {
    lemma_line_len(block);
}

/// Where the output stands after a line that starts with `b` has ended.
pub open spec fn after_line(style: Style, p: Pen, b: u8) -> Pen {
    Pen { number: next_number(style, p, b), at_start: true, kept: false }
}

/// What two lists of operations write, one after the other.
pub proof fn lemma_written_append(a: Seq<Deed>, b: Seq<Deed>)
    ensures
        written(a + b) == written(a) + written(b),
    decreases b.len(),
{
    if b.len() == 0 {
        assert(a + b =~= a);
    } else {
        assert((a + b).drop_last() =~= a + b.drop_last());
        lemma_written_append(a, b.drop_last());
        assert(written(a + b) =~= written(a) + written(b));
    }
}

/// What a list of operations writes with one more at its end.
proof fn lemma_written_push(a: Seq<Deed>, d: Deed)
    ensures
        written(a.push(d)) == written(a) + deed_bytes(d),
{
    assert(a.push(d).drop_last() =~= a);
}

/// A block that is part of one line.
proof fn lemma_block_open_line(style: Style, p: Pen, block: Seq<u8>)
    requires
        block.len() > 0,
        line_len(block) == block.len(),
    ensures
        text(style, p, block) == prefix(style, p, block[0]) + shown_all(style.show, block),
        pen(style, p, block) == (Pen {
            number: next_number(style, p, block[0]),
            at_start: false,
            kept: false,
        }),
{
    lemma_line_len(block);
    lemma_text_line(style, p, block);
}

/// A block that starts with a line that is not empty and its end.
pub(crate) proof fn lemma_block_line(style: Style, p: Pen, block: Seq<u8>)
    requires
        block.len() > 0,
        0 < line_len(block) < block.len(),
    ensures
        text(style, p, block) == prefix(style, p, block[0]) + shown_all(
            style.show,
            block.take(line_len(block) as int),
        ) + style.end_of_line + text(
            style,
            after_line(style, p, block[0]),
            block.skip(line_len(block) as int + 1),
        ),
        pen(style, p, block) == pen(
            style,
            after_line(style, p, block[0]),
            block.skip(line_len(block) as int + 1),
        ),
{
    let n = line_len(block) as int;
    lemma_line_len(block);
    let line = block.take(n);
    let rest = block.skip(n);
    assert(line + rest =~= block);
    lemma_text_line(style, p, line);
    lemma_text_append(style, p, line, rest);
    lemma_text_first(style, pen(style, p, line), rest);
    assert(rest.drop_first() =~= block.skip(n + 1));
    assert(ink(style, pen(style, p, line), LF) =~= style.end_of_line);
    assert(block[0] != LF);
    assert(text(style, p, block) =~= prefix(style, p, block[0]) + shown_all(style.show, line)
        + style.end_of_line + text(style, after_line(style, p, block[0]), block.skip(n + 1)));
}

/// All that the operations for a block write is what the block puts out.
pub proof fn lemma_script_text(style: Style, interactive: bool, p: Pen, block: Seq<u8>)
    ensures
        written(script(style, interactive, p, block)) == text(style, p, block),
    decreases block.len(),
{
    if block.len() == 0 {
    } else if squeezed(style, p, block[0]) {
        lemma_text_first(style, p, block);
        lemma_script_text(style, interactive, p, block.drop_first());
        assert(text(style, p, block) =~= text(style, p, block.drop_first()));
    } else if block[0] == LF {
        let q = moved(style, p, LF);
        lemma_text_first(style, p, block);
        lemma_script_text(style, interactive, q, block.drop_first());
        lemma_blank_written(style, interactive, p);
        lemma_written_append(
            blank_deeds(style, interactive, p),
            script(style, interactive, q, block.drop_first()),
        );
    } else {
        lemma_line_len(block);
        let n = line_len(block) as int;
        if n == block.len() {
            lemma_block_open_line(style, p, block);
            lemma_open_line_written(style, p, block);
        } else {
            let line = block.take(n);
            let q = after_line(style, p, block[0]);
            lemma_block_line(style, p, block);
            lemma_script_text(style, interactive, q, block.skip(n + 1));
            lemma_line_written(style, interactive, p, line);
            lemma_written_append(
                line_deeds(style, interactive, p, line),
                script(style, interactive, q, block.skip(n + 1)),
            );
        }
    }
}

pub(crate) proof fn lemma_number_written(style: Style, p: Pen, b: u8)
    ensures
        written(number_deeds(style, p, b)) == prefix(style, p, b),
{
    reveal_with_fuel(written, 2);
    assert(written(number_deeds(style, p, b)) =~= prefix(style, p, b));
}

proof fn lemma_flush_written(interactive: bool, names_file: bool, state: Pen)
    ensures
        written(flush_deeds(interactive, names_file, state)) == Seq::<u8>::empty(),
{
    reveal_with_fuel(written, 2);
    assert(written(flush_deeds(interactive, names_file, state)) =~= Seq::<u8>::empty());
}

pub(crate) proof fn lemma_pieces_written(style: Style, p: Pen, b: u8, parts: Seq<Seq<u8>>)
    ensures
        written(piece_deeds(style, p, b, parts)) == joined(parts),
    decreases parts.len(),
{
    if parts.len() > 0 {
        lemma_pieces_written(style, p, b, parts.drop_last());
        assert(piece_deeds(style, p, b, parts).drop_last() =~= piece_deeds(
            style,
            p,
            b,
            parts.drop_last(),
        ));
    }
}

proof fn lemma_blank_written(style: Style, interactive: bool, p: Pen)
    ensures
        written(blank_deeds(style, interactive, p)) == prefix(style, p, LF) + style.end_of_line,
{
    let end = Deed::Write {
        bytes: style.end_of_line,
        names_file: false,
        state: after_number(style, p, LF),
    };
    let state = Pen { kept: p.at_start, ..after_number(style, p, LF) };
    lemma_number_written(style, p, LF);
    lemma_written_push(number_deeds(style, p, LF), end);
    lemma_flush_written(interactive, true, state);
    lemma_written_append(
        number_deeds(style, p, LF).push(end),
        flush_deeds(interactive, true, state),
    );
    assert(written(blank_deeds(style, interactive, p)) =~= prefix(style, p, LF)
        + style.end_of_line);
}

proof fn lemma_open_line_written(style: Style, p: Pen, line: Seq<u8>)
    ensures
        written(open_line_deeds(style, p, line)) == prefix(style, p, line[0]) + shown_all(
            style.show,
            line,
        ),
{
    lemma_number_written(style, p, line[0]);
    lemma_pieces_joined(style.show, line);
    lemma_pieces_written(style, p, line[0], pieces(style.show, line));
    lemma_written_append(
        number_deeds(style, p, line[0]),
        piece_deeds(style, p, line[0], pieces(style.show, line)),
    );
}

proof fn lemma_line_written(style: Style, interactive: bool, p: Pen, line: Seq<u8>)
    ensures
        written(line_deeds(style, interactive, p, line)) == prefix(style, p, line[0]) + shown_all(
            style.show,
            line,
        ) + style.end_of_line,
{
    let state = within_line(style, p, line[0]);
    let end = Deed::Write { bytes: style.end_of_line, names_file: false, state };
    lemma_open_line_written(style, p, line);
    lemma_written_push(open_line_deeds(style, p, line), end);
    lemma_flush_written(interactive, false, state);
    lemma_written_append(
        open_line_deeds(style, p, line).push(end),
        flush_deeds(interactive, false, state),
    );
    assert(written(line_deeds(style, interactive, p, line)) =~= prefix(style, p, line[0])
        + shown_all(style.show, line) + style.end_of_line);
}

/// Adds an operation to a list.
fn push_op(ops: &mut Vec<Op>, task: Task, names_file: bool, state: &OutputState)
    ensures
        deeds(final(ops)@) == deeds(old(ops)@).push((Op { task, names_file, state: *state })@),
{
    ops.push(Op { task, names_file, state: *state });
    assert(deeds(ops@) =~= deeds(old(ops)@).push((Op { task, names_file, state: *state })@));
}

/// Adds the writing of some bytes. Once they are written, no empty line is the
/// last thing that was put out.
fn push_write(ops: &mut Vec<Op>, bytes: Vec<u8>, state: &mut OutputState)
    ensures
        deeds(final(ops)@) == deeds(old(ops)@).push(
            Deed::Write { bytes: bytes@, names_file: false, state: old(state)@ },
        ),
        final(state)@ == (Pen { kept: false, ..old(state)@ }),
{
    push_op(ops, Task::Write(bytes), false, state);
    state.one_blank_kept = false;
}

/// Adds the writing of the current line number, and uses that number up.
fn push_number(ops: &mut Vec<Op>, state: &mut OutputState)
    requires
        old(state).line_number < usize::MAX,
    ensures
        deeds(final(ops)@) == deeds(old(ops)@).push(
            Deed::Write {
                bytes: line_number(old(state).line_number as nat),
                names_file: false,
                state: old(state)@,
            },
        ),
        final(state)@ == (Pen { number: old(state)@.number + 1, kept: false, ..old(state)@ }),
{
    push_write(ops, number_prefix(state.line_number), state);
    state.line_number = state.line_number + 1;
}

/// The bytes that end a line.
fn line_end(options: &OutputOptions<'_>) -> (bytes: Vec<u8>)
    ensures
        bytes@ == options.style().end_of_line,
{
    let mut bytes: Vec<u8> = Vec::new();
    bytes.extend_from_slice(options.end_of_line.as_bytes());
    assert(bytes@ =~= options.style().end_of_line);
    bytes
}

/// The bytes that TAB is displayed as.
fn tab_text(options: &OutputOptions<'_>) -> (bytes: Vec<u8>)
    ensures
        bytes@ == options.shown_tab(),
{
    let mut bytes: Vec<u8> = Vec::new();
    if options.show_tabs {
        bytes.extend_from_slice(options.tab.as_bytes());
    } else {
        bytes.push(TAB);
    }
    assert(bytes@ =~= options.shown_tab());
    bytes
}

/// The operations for a LF that is found at the start of a line or of a block.
fn write_blank(
    ops: &mut Vec<Op>,
    interactive: bool,
    options: &OutputOptions<'_>,
    state: &mut OutputState,
)
    requires
        !squeezed(options.style(), old(state)@, LF),
        next_number(options.style(), old(state)@, LF) <= usize::MAX,
    ensures
        deeds(final(ops)@) == deeds(old(ops)@) + blank_deeds(
            options.style(),
            interactive,
            old(state)@,
        ),
        final(state)@ == moved(options.style(), old(state)@, LF),
{
    let ghost style = options.style();
    let ghost p = state@;
    let ghost done = deeds(ops@);
    if state.at_line_start && options.number == NumberingMode::NumberAll {
        push_number(ops, state);
    }
    assert(deeds(ops@) =~= done + number_deeds(style, p, LF));
    push_write(ops, line_end(options), state);
    state.one_blank_kept = state.at_line_start;
    if interactive {
        push_op(ops, Task::Flush, true, state);
    }
    state.at_line_start = true;
    assert(deeds(ops@) =~= done + blank_deeds(style, interactive, p));
}

/// Adds the writing of the pieces of a line, one after the other.
fn push_pieces(
    ops: &mut Vec<Op>,
    writer: Writer,
    state: &mut OutputState,
    Ghost(style): Ghost<Style>,
    Ghost(p): Ghost<Pen>,
    Ghost(b): Ghost<u8>,
)
    requires
        writer@.len() > 0,
        old(state)@ == after_number(style, p, b),
    ensures
        deeds(final(ops)@) == deeds(old(ops)@) + piece_deeds(style, p, b, writer@),
        final(state)@ == within_line(style, p, b),
{
    let ghost done = deeds(ops@);
    let ghost parts = writer@;
    let writes = writer.writes;
    assert(deeds(ops@) =~= done + piece_deeds(style, p, b, parts).take(0));
    for bytes in it: writes
        invariant
            parts.len() > 0,
            it.seq().len() == parts.len(),
            forall|i: int| 0 <= i < parts.len() ==> (#[trigger] it.seq()[i])@ == parts[i],
            deeds(ops@) == done + piece_deeds(style, p, b, parts).take(it.index() as int),
            state@ == if it.index() == 0 {
                after_number(style, p, b)
            } else {
                within_line(style, p, b)
            },
    {
        let ghost k = it.index() as int;
        assert(bytes@ == parts[k]);
        push_write(ops, bytes, state);
        assert(deeds(ops@) =~= done + piece_deeds(style, p, b, parts).take(k + 1));
    }
    assert(piece_deeds(style, p, b, parts).take(parts.len() as int) =~= piece_deeds(
        style,
        p,
        b,
        parts,
    ));
}

/// The operations for the bytes of a line, up to its end or to the end of
/// `tail`. Returns how far they go, or 0 if the line does not end in `tail`.
fn write_line(
    ops: &mut Vec<Op>,
    tail: &[u8],
    interactive: bool,
    options: &OutputOptions<'_>,
    state: &mut OutputState,
) -> (offset: usize)
    requires
        tail@.len() > 0,
        tail@[0] != LF,
        next_number(options.style(), old(state)@, tail@[0]) <= usize::MAX,
    ensures
        offset == end_offset(tail@),
        offset == 0 ==> {
            &&& deeds(final(ops)@) == deeds(old(ops)@) + open_line_deeds(
                options.style(),
                old(state)@,
                tail@,
            )
            &&& final(state)@ == (Pen {
                number: next_number(options.style(), old(state)@, tail@[0]),
                at_start: false,
                kept: false,
            })
        },
        offset != 0 ==> {
            &&& deeds(final(ops)@) == deeds(old(ops)@) + line_deeds(
                options.style(),
                interactive,
                old(state)@,
                line_of(tail@),
            )
            &&& final(state)@ == after_line(options.style(), old(state)@, tail@[0])
        },
{
    let ghost style = options.style();
    let ghost p = state@;
    let ghost done = deeds(ops@);
    let ghost line = line_of(tail@);
    proof {
        lemma_line_len(tail@);
        assert(line[0] == tail@[0]);
        lemma_pieces_joined(style.show, line);
    }
    if state.at_line_start && options.number != NumberingMode::NumberNone {
        push_number(ops, state);
    }
    assert(deeds(ops@) =~= done + number_deeds(style, p, line[0]));
    let mut writer = Writer::new();
    let offset = if options.show_nonprint {
        write_nonprint_to_end(tail, &mut writer, tab_text(options).as_slice())
    } else if options.show_tabs {
        write_tab_to_end(tail, &mut writer, tab_text(options).as_slice())
    } else {
        write_to_end(tail, &mut writer)
    };
    assert(writer@ =~= pieces(style.show, line));
    push_pieces(ops, writer, state, Ghost(style), Ghost(p), Ghost(line[0]));
    assert(deeds(ops@) =~= done + open_line_deeds(style, p, line));
    if offset == 0 {
        assert(line =~= tail@);
        state.at_line_start = false;
    } else {
        push_write(ops, line_end(options), state);
        if interactive {
            push_op(ops, Task::Flush, false, state);
        }
        assert(deeds(ops@) =~= done + line_deeds(style, interactive, p, line));
        state.at_line_start = true;
    }
    offset
}

/// A list of operations that stands before two others stands before the two as one.
pub(crate) proof fn lemma_deeds_assoc(a: Seq<Deed>, b: Seq<Deed>, c: Seq<Deed>)
    ensures
        (a + b) + c == a + (b + c),
{
    assert((a + b) + c =~= a + (b + c));
}

/// The operations for a block of a file, in the order in which they are
/// performed. `state` goes on to what it is once all of them have succeeded;
/// where one fails, no later one is performed and the state it holds remains.
pub fn write_file_lines(
    in_buf: &[u8],
    interactive: bool,
    options: &OutputOptions<'_>,
    state: &mut OutputState,
) -> (ops: Vec<Op>)
    requires
        pen(options.style(), old(state)@, in_buf@).number <= usize::MAX,
    ensures
        deeds(ops@) == script(options.style(), interactive, old(state)@, in_buf@),
        written(deeds(ops@)) == text(options.style(), old(state)@, in_buf@),
        final(state)@ == pen(options.style(), old(state)@, in_buf@),
{
    let ghost style = options.style();
    let ghost p0 = state@;
    let n = in_buf.len();
    let mut ops: Vec<Op> = Vec::new();
    let mut pos: usize = 0;
    assert(in_buf@.skip(0) =~= in_buf@);
    assert(deeds(ops@) + script(style, interactive, p0, in_buf@) =~= script(
        style,
        interactive,
        p0,
        in_buf@,
    ));
    while pos < n
        invariant
            n == in_buf.len(),
            pos <= n,
            style == options.style(),
            deeds(ops@) + script(style, interactive, state@, in_buf@.skip(pos as int)) == script(
                style,
                interactive,
                p0,
                in_buf@,
            ),
            pen(style, state@, in_buf@.skip(pos as int)) == pen(style, p0, in_buf@),
            pen(style, p0, in_buf@).number <= usize::MAX,
        decreases n - pos,
    {
        let ghost p = state@;
        let ghost rest = in_buf@.skip(pos as int);
        let ghost done = deeds(ops@);
        assert(rest.len() > 0 && rest[0] == in_buf@[pos as int]);
        if in_buf[pos] == LF {
            proof {
                assert(rest.drop_first() =~= in_buf@.skip(pos + 1));
                lemma_text_first(style, p, rest);
                lemma_pen_number(style, moved(style, p, LF), rest.drop_first());
            }
            if !state.at_line_start || !options.squeeze_blank || !state.one_blank_kept {
                write_blank(&mut ops, interactive, options, state);
                proof {
                    lemma_deeds_assoc(
                        done,
                        blank_deeds(style, interactive, p),
                        script(style, interactive, moved(style, p, LF), rest.drop_first()),
                    );
                }
            }
            pos = pos + 1;
        } else {
            let ghost len = line_len(rest) as int;
            proof {
                lemma_line_len(rest);
                if len == rest.len() {
                    lemma_block_open_line(style, p, rest);
                } else {
                    lemma_block_line(style, p, rest);
                    lemma_pen_number(style, after_line(style, p, rest[0]), rest.skip(len + 1));
                    assert(rest.skip(len + 1) =~= in_buf@.skip(pos + len + 1));
                }
            }
            let tail = slice_subrange(in_buf, pos, n);
            assert(tail@ =~= rest);
            let offset = write_line(&mut ops, tail, interactive, options, state);
            // The buffer ends before the line does where the offset is 0.
            pos = if offset == 0 {
                n
            } else {
                pos + offset
            };
            proof {
                if offset == 0 {
                    assert(in_buf@.skip(pos as int) =~= Seq::<u8>::empty());
                    assert(deeds(ops@) + Seq::<Deed>::empty() =~= deeds(ops@));
                } else {
                    lemma_deeds_assoc(
                        done,
                        line_deeds(style, interactive, p, rest.take(len)),
                        script(
                            style,
                            interactive,
                            after_line(style, p, rest[0]),
                            rest.skip(len + 1),
                        ),
                    );
                }
            }
        }
    }
    proof {
        assert(in_buf@.skip(n as int) =~= Seq::<u8>::empty());
        assert(deeds(ops@) =~= script(style, interactive, p0, in_buf@));
        lemma_script_text(style, interactive, p0, in_buf@);
    }
    ops
}

/// A list of operations says of each of them what is done, with which bytes,
/// whether a failure names the file, and which state remains after one.
pub proof fn law_op(ops: Seq<Op>, i: int)
    requires
        0 <= i < ops.len(),
    ensures
        ({
            let names_file = ops[i].names_file;
            let state = Pen {
                number: ops[i].state.line_number as nat,
                at_start: ops[i].state.at_line_start,
                kept: ops[i].state.one_blank_kept,
            };
            &&& deeds(ops).len() == ops.len()
            &&& match ops[i].task {
                Task::Write(bytes) => deeds(ops)[i] == (Deed::Write {
                    bytes: bytes@,
                    names_file,
                    state,
                }),
                Task::Flush => deeds(ops)[i] == (Deed::Flush { names_file, state }),
            }
        }),
{
}

} // verus!
