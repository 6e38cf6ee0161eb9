//! Putting the bytes of a line out, up to its end or to the end of the buffer.
//!
//! Each function returns how many bytes of the buffer are done with, the LF
//! counted, or 0 if the buffer ends before the line does.

use vstd::prelude::*;
use vstd::slice::slice_subrange;

use crate::text::{CAPITAL_M, CARET, HYPHEN, LF, NUMBER_WIDTH, QUESTION, SPACE, TAB, ZERO};
#[allow(unused_imports)]
use crate::text::{
    decimal, lemma_line_len_is, line_len, line_number, notation, pieces, tab_pieces, Show,
};

verus! {

/// What is to be written, one part for each write.
#[derive(Debug)]
pub struct Writer {
    pub writes: Vec<Vec<u8>>,
}

impl View for Writer {
    type V = Seq<Seq<u8>>;

    open spec fn view(&self) -> Seq<Seq<u8>> {
        self.writes@.map_values(|bytes: Vec<u8>| bytes@)
    }
}

impl Writer {
    /// Nothing to write.
    pub fn new() -> (writer: Writer)
        ensures
            writer@ == Seq::<Seq<u8>>::empty(),
    {
        let writer = Writer { writes: Vec::new() };
        assert(writer@ =~= Seq::<Seq<u8>>::empty());
        writer
    }

    /// One more write, of all of `buf`.
    pub fn write_all(&mut self, buf: &[u8])
        ensures
            final(self)@ == old(self)@.push(buf@),
    {
        let mut bytes: Vec<u8> = Vec::new();
        bytes.extend_from_slice(buf);
        assert(bytes@ =~= buf@);
        self.push(bytes);
    }

    fn push(&mut self, bytes: Vec<u8>)
        ensures
            final(self)@ == old(self)@.push(bytes@),
    {
        self.writes.push(bytes);
        assert(self@ =~= old(self)@.push(bytes@));
    }
}

/// The value that the functions of this module return for a buffer.
pub open spec fn end_offset(in_buf: Seq<u8>) -> nat {
    if line_len(in_buf) == in_buf.len() {
        0
    } else {
        line_len(in_buf) + 1
    }
}

/// The line that a buffer starts with, without its LF.
pub open spec fn line_of(in_buf: Seq<u8>) -> Seq<u8> {
    in_buf.take(line_len(in_buf) as int)
}

/// Writes the line as it is, in one piece.
pub fn write_to_end(in_buf: &[u8], writer: &mut Writer) -> (offset: usize)
    ensures
        offset == end_offset(in_buf@),
        final(writer)@ == old(writer)@ + pieces(Show::Plain, line_of(in_buf@)),
{
    let mut p: usize = 0;
    while p < in_buf.len() && in_buf[p] != LF
        invariant
            p <= in_buf.len(),
            forall|i: int| 0 <= i < p ==> in_buf@[i] != LF,
        decreases in_buf.len() - p,
    {
        p = p + 1;
    }
    proof {
        lemma_line_len_is(in_buf@, p as int);
    }
    writer.write_all(slice_subrange(in_buf, 0, p));
    assert(writer@ =~= old(writer)@ + pieces(Show::Plain, line_of(in_buf@)));
    if p < in_buf.len() {
        p + 1
    } else {
        0
    }
}

/// Bytes without a TAB go on with the last piece.
proof fn lemma_tab_pieces_run(tab: Seq<u8>, s: Seq<u8>, run: Seq<u8>)
    requires
        forall|i: int| 0 <= i < run.len() ==> run[i] != TAB,
    ensures
        tab_pieces(tab, s).len() > 0,
        tab_pieces(tab, s + run) == tab_pieces(tab, s).drop_last().push(
            tab_pieces(tab, s).last() + run,
        ),
    decreases s.len() + run.len(),
{
    if run.len() > 0 {
        let front = run.drop_last();
        lemma_tab_pieces_run(tab, s, front);
        assert((s + run).drop_last() =~= s + front);
        let before = tab_pieces(tab, s);
        let so_far = before.drop_last().push(before.last() + front);
        assert(so_far.drop_last() =~= before.drop_last());
        assert((before.last() + front).push(run.last()) =~= before.last() + run);
    } else {
        assert(s + run =~= s);
        if s.len() > 0 {
            lemma_tab_pieces_run(tab, s.drop_last(), run);
        }
        let before = tab_pieces(tab, s);
        assert(before.last() + run =~= before.last());
        assert(before.drop_last().push(before.last()) =~= before);
    }
}

/// Writes the line with each TAB shown as `tab`: what stands before a TAB, then
/// `tab`, and so on, each in a write of its own.
pub fn write_tab_to_end(in_buf: &[u8], writer: &mut Writer, tab: &[u8]) -> (offset: usize)
    ensures
        offset == end_offset(in_buf@),
        final(writer)@ == old(writer)@ + pieces(Show::Tabs(tab@), line_of(in_buf@)),
{
    let mut start: usize = 0;
    let ghost before = writer@;
    assert(writer@ =~= before + tab_pieces(tab@, in_buf@.take(0)).drop_last());
    loop
        invariant
            start <= in_buf.len(),
            forall|i: int| 0 <= i < start ==> in_buf@[i] != LF,
            writer@ == before + tab_pieces(tab@, in_buf@.take(start as int)).drop_last(),
            tab_pieces(tab@, in_buf@.take(start as int)).len() > 0,
            tab_pieces(tab@, in_buf@.take(start as int)).last() == Seq::<u8>::empty(),
            before == old(writer)@,
        decreases in_buf.len() - start,
    {
        let mut p: usize = start;
        while p < in_buf.len() && in_buf[p] != LF && in_buf[p] != TAB
            invariant
                start <= p <= in_buf.len(),
                forall|i: int| start <= i < p ==> in_buf@[i] != LF && in_buf@[i] != TAB,
            decreases in_buf.len() - p,
        {
            p = p + 1;
        }
        let ghost done = tab_pieces(tab@, in_buf@.take(start as int));
        let ghost run = in_buf@.subrange(start as int, p as int);
        writer.write_all(slice_subrange(in_buf, start, p));
        proof {
            lemma_tab_pieces_run(tab@, in_buf@.take(start as int), run);
            assert(in_buf@.take(start as int) + run =~= in_buf@.take(p as int));
            assert(done.last() + run =~= run);
            assert(writer@ =~= before + tab_pieces(tab@, in_buf@.take(p as int)));
        }
        if p == in_buf.len() || in_buf[p] == LF {
            proof {
                lemma_line_len_is(in_buf@, p as int);
            }
            if p == in_buf.len() {
                return 0;
            }
            return p + 1;
        }
        writer.write_all(tab);
        start = p + 1;
        proof {
            let next = in_buf@.take(start as int);
            assert(next.drop_last() =~= in_buf@.take(p as int));
            assert(tab_pieces(tab@, next).drop_last() =~= tab_pieces(
                tab@,
                in_buf@.take(p as int),
            ).push(tab@));
            assert(writer@ =~= before + tab_pieces(tab@, next).drop_last());
        }
    }
}

/// One byte in `^` and `M-` notation, TAB as `tab`.
fn encoded(byte: u8, tab: &[u8]) -> (bytes: Vec<u8>)
    ensures
        bytes@ == notation(byte, tab@),
{
    let mut bytes: Vec<u8> = Vec::new();
    match byte {
        9 => bytes.extend_from_slice(tab),
        0..=8 | 10..=31 => {
            bytes.push(CARET);
            bytes.push(byte + 64);
        },
        32..=126 => bytes.push(byte),
        127 => {
            bytes.push(CARET);
            bytes.push(byte - 64);
        },
        128..=159 => {
            bytes.push(CAPITAL_M);
            bytes.push(HYPHEN);
            bytes.push(CARET);
            bytes.push(byte - 64);
        },
        160..=254 => {
            bytes.push(CAPITAL_M);
            bytes.push(HYPHEN);
            bytes.push(byte - 128);
        },
        _ => {
            bytes.push(CAPITAL_M);
            bytes.push(HYPHEN);
            bytes.push(CARET);
            bytes.push(QUESTION);
        },
    }
    assert(bytes@ =~= notation(byte, tab@));
    bytes
}

/// Writes the line in `^` and `M-` notation, with each TAB shown as `tab`. Each
/// byte of the line is a write of its own.
pub fn write_nonprint_to_end(in_buf: &[u8], writer: &mut Writer, tab: &[u8]) -> (offset: usize)
    ensures
        offset == end_offset(in_buf@),
        final(writer)@ == old(writer)@ + pieces(Show::Notation(tab@), line_of(in_buf@)),
{
    let mut count: usize = 0;
    let ghost before = writer@;
    assert(writer@ =~= before + pieces(Show::Notation(tab@), in_buf@.take(0)));
    while count < in_buf.len() && in_buf[count] != LF
        invariant
            count <= in_buf.len(),
            forall|i: int| 0 <= i < count ==> in_buf@[i] != LF,
            before == old(writer)@,
            writer@ == before + pieces(Show::Notation(tab@), in_buf@.take(count as int)),
        decreases in_buf.len() - count,
    {
        writer.push(encoded(in_buf[count], tab));
        count = count + 1;
        assert(writer@ =~= before + pieces(Show::Notation(tab@), in_buf@.take(count as int)));
    }
    proof {
        lemma_line_len_is(in_buf@, count as int);
    }
    if count != in_buf.len() {
        count + 1
    } else {
        0
    }
}

/// The decimal digits of `n`.
pub fn digits(n: usize) -> (out: Vec<u8>)
    ensures
        out@ == decimal(n as nat),
    decreases n,
{
    if n < 10 {
        let mut out: Vec<u8> = Vec::new();
        out.push(ZERO + n as u8);
        out
    } else {
        let mut out = digits(n / 10);
        out.push(ZERO + (n % 10) as u8);
        out
    }
}

/// What is put before line `n`: the number, padded with spaces to a width of
/// six, and a TAB.
pub fn number_prefix(n: usize) -> (out: Vec<u8>)
    ensures
        out@ == line_number(n as nat),
{
    let number = digits(n);
    let mut out: Vec<u8> = Vec::new();
    while out.len() + number.len() < NUMBER_WIDTH
        invariant
            out.len() == 0 || out.len() + number.len() <= NUMBER_WIDTH,
            out@ =~= Seq::new(out@.len(), |i: int| SPACE),
        decreases NUMBER_WIDTH - out.len(),
    {
        out.push(SPACE);
    }
    out.extend_from_slice(number.as_slice());
    out.push(TAB);
    assert(out@ =~= line_number(n as nat));
    out
}

/// What a writer holds is its writes, each with all its bytes.
pub proof fn law_writer(writer: Writer, i: int)
    requires
        0 <= i < writer.writes@.len(),
    ensures
        writer@.len() == writer.writes@.len(),
        writer@[i] == writer.writes@[i]@,
{
}

} // verus!
