//! What holds of a whole run, from its first action to its last.

use vstd::prelude::*;

#[allow(unused_imports)]
use crate::error::Fault;
#[allow(unused_imports)]
use crate::input::{access, names_stdin, type_of_kind, FileKind, InputType};
#[allow(unused_imports)]
use crate::laws::{
    law_cut, law_numbers, law_plain_copies, law_squeeze, law_squeeze_lines, line_bytes,
    law_sound, output_lines, runs_merged, sound, unnumbered, unsqueezed, with_numbers,
    without_repeats,
};
#[allow(unused_imports)]
use crate::lines::{
    after_line, blank_deeds, line_deeds, lemma_script_text, open_line_deeds, remaining_state,
    script, written, Deed,
};
#[allow(unused_imports)]
use crate::options::OutputOptions;
#[allow(unused_imports)]
use crate::session::{awaits, fresh, next, outcome, turn_to_file, News, Order, Run, Stage};
#[allow(unused_imports)]
use crate::text::{
    first_pen, joined, lemma_line_len, lemma_pen_number, line_len, moved, pen, squeezed, text, Pen,
    Style, LF,
};

verus! {

/// Where a run stands after some news.
pub open spec fn follow<E>(run: Run, news: Seq<News<E>>) -> Run
    decreases news.len(),
{
    if news.len() == 0 {
        run
    } else {
        next(follow(run, news.drop_last()), news.last()).0
    }
}

/// What a run orders on some news, one order for each of them.
pub open spec fn orders<E>(run: Run, news: Seq<News<E>>) -> Seq<Order<E>>
    decreases news.len(),
{
    if news.len() == 0 {
        Seq::empty()
    } else {
        orders(run, news.drop_last()).push(next(follow(run, news.drop_last()), news.last()).1)
    }
}

/// Whether each of the news is awaited when it comes.
pub open spec fn all_awaited<E>(run: Run, news: Seq<News<E>>) -> bool
    decreases news.len(),
{
    news.len() == 0 || (all_awaited(run, news.drop_last()) && awaits(
        follow(run, news.drop_last()),
        news.last(),
    ))
}

/// What such news tells of the output: the bytes of the operations that were performed.
pub open spec fn told<E>(stage: Stage, news: News<E>) -> Seq<u8> {
    match (stage, news) {
        (Stage::Performing { deeds, .. }, News::Done) => written(deeds),
        (Stage::Performing { deeds, .. }, News::OpFailed(i, _)) => written(deeds.take(i as int)),
        _ => Seq::empty(),
    }
}

/// What a run has put out after some news.
pub open spec fn output<E>(run: Run, news: Seq<News<E>>) -> Seq<u8>
    decreases news.len(),
{
    if news.len() == 0 {
        Seq::empty()
    } else {
        output(run, news.drop_last()) + told(follow(run, news.drop_last()).stage, news.last())
    }
}

/// News that comes after news.
proof fn lemma_follow_append<E>(run: Run, a: Seq<News<E>>, b: Seq<News<E>>)
    ensures
        follow(run, a + b) == follow(follow(run, a), b),
        output(run, a + b) == output(run, a) + output(follow(run, a), b),
        all_awaited(run, a + b) == (all_awaited(run, a) && all_awaited(follow(run, a), b)),
    decreases b.len(),
{
    if b.len() == 0 {
        assert(a + b =~= a);
    } else {
        assert((a + b).drop_last() =~= a + b.drop_last());
        lemma_follow_append(run, a, b.drop_last());
        assert(output(run, a + b) =~= output(run, a) + output(follow(run, a), b));
    }
}

/// One more piece of news.
proof fn lemma_follow_push<E>(run: Run, news: Seq<News<E>>, last: News<E>)
    ensures
        follow(run, news.push(last)) == next(follow(run, news), last).0,
        output(run, news.push(last)) == output(run, news) + told(follow(run, news).stage, last),
        all_awaited(run, news.push(last)) == (all_awaited(run, news) && awaits(
            follow(run, news),
            last,
        )),
        orders(run, news.push(last)) == orders(run, news).push(next(follow(run, news), last).1),
{
    assert(news.push(last).drop_last() =~= news);
}

/// The files that were turned to, in the order in which they were.
pub open spec fn turned_to<E>(orders: Seq<Order<E>>) -> Seq<nat>
    decreases orders.len(),
{
    if orders.len() == 0 {
        Seq::empty()
    } else {
        match orders.last() {
            Order::UseStdin(i) => turned_to(orders.drop_last()).push(i),
            Order::Inspect(i) => turned_to(orders.drop_last()).push(i),
            _ => turned_to(orders.drop_last()),
        }
    }
}

/// How many errors were to be told.
pub open spec fn reports<E>(orders: Seq<Order<E>>) -> nat
    decreases orders.len(),
{
    if orders.len() == 0 {
        0
    } else {
        reports(orders.drop_last()) + if orders.last() is Report {
            1nat
        } else {
            0nat
        }
    }
}

/// The first `n` numbers.
pub open spec fn first_numbers(n: nat) -> Seq<nat> {
    Seq::new(n, |i: int| i as nat)
}

/// What a run has ordered, by where it stands.
spec fn tallied<E>(run: Run, orders: Seq<Order<E>>) -> bool {
    let cut_short = run.stage is Finished && run.at < run.files.len();
    &&& run.wf()
    &&& run.stage !is Idle
    &&& orders.len() > 0
    &&& turned_to(orders) == first_numbers(
        if run.at == run.files.len() {
            run.at
        } else {
            run.at + 1
        },
    )
    &&& reports(orders) == run.errors + if run.stage is Reporting || cut_short {
        1nat
    } else {
        0nat
    }
    &&& orders.last() is Finish == run.stage is Finished
    &&& run.stage is Finished && !cut_short ==> orders.last() == Order::<E>::Finish(
        outcome(run.errors),
    )
    &&& cut_short ==> (orders.last() matches Order::Finish(Err(fault))
        && fault !is EncounteredErrors)
}

/// Turning to the next file keeps the tally.
proof fn lemma_tally_turn<E>(run: Run, before: Seq<Order<E>>)
    requires
        run.errors <= run.at <= run.files.len(),
        turned_to(before) == first_numbers(run.at),
        reports(before) == run.errors,
    ensures
        tallied(turn_to_file::<E>(run).0, before.push(turn_to_file::<E>(run).1)),
{
    let (after, order) = turn_to_file::<E>(run);
    assert(before.push(order).drop_last() =~= before);
    assert(first_numbers(run.at).push(run.at) =~= first_numbers(run.at + 1));
}

/// News that is awaited keeps the tally.
proof fn lemma_tally_next<E>(run: Run, before: Seq<Order<E>>, news: News<E>)
    requires
        tallied(run, before),
        awaits(run, news),
    ensures
        tallied(next(run, news).0, before.push(next(run, news).1)),
{
    let (after, order) = next(run, news);
    assert(before.push(order).drop_last() =~= before);
    match (run.stage, news) {
        (Stage::Reading { .. }, News::Data(data)) => {
            if data.len() == 0 && run.style is None {
                lemma_tally_turn(run.past_file(), before);
            }
        },
        (Stage::Performing { last, .. }, News::Done) => {
            if last {
                lemma_tally_turn(run.past_file(), before);
            }
        },
        (Stage::Reporting, News::Done) => {
            lemma_tally_turn(Run { errors: run.errors + 1, ..run }.past_file(), before);
        },
        _ => {},
    }
}

proof fn lemma_tally<E>(run: Run, first: Order<E>, news: Seq<News<E>>)
    requires
        tallied(run, seq![first]),
        all_awaited(run, news),
    ensures
        tallied(follow(run, news), seq![first] + orders(run, news)),
    decreases news.len(),
{
    if news.len() == 0 {
        assert(seq![first] + orders(run, news) =~= seq![first]);
    } else {
        let front = news.drop_last();
        lemma_tally(run, first, front);
        lemma_tally_next(follow(run, front), seq![first] + orders(run, front), news.last());
        assert(seq![first] + orders(run, news) =~= (seq![first] + orders(run, front)).push(
            next(follow(run, front), news.last()).1,
        ));
    }
}

/// All that a run orders from its very start: its first order, then one for
/// each piece of news.
pub open spec fn all_orders<E>(style: Option<Style>, files: Seq<Seq<char>>, news: Seq<News<E>>) -> Seq<
    Order<E>,
> {
    let (run, first) = turn_to_file::<E>(fresh(style, files));
    seq![first] + orders(run, news)
}

/// Whatever comes, a run turns to its files one after the other, each of them
/// once. Where it ends well, no error was told and every file was turned to.
/// Where it ends with a number of errors, so many were told, at least one, and
/// every file was turned to. It ends otherwise only where an error could not be
/// told.
pub proof fn law_run<E>(style: Option<Style>, files: Seq<Seq<char>>, news: Seq<News<E>>)
    requires
        all_awaited(turn_to_file::<E>(fresh(style, files)).0, news),
    ensures
        ({
            let all = all_orders(style, files, news);
            let turned = turned_to(all);
            &&& turned == first_numbers(turned.len())
            &&& turned.len() <= files.len()
            &&& all.last() matches Order::Finish(result) ==> match result {
                Ok(()) => reports(all) == 0 && turned.len() == files.len(),
                Err(Fault::EncounteredErrors(n)) => n == reports(all) && n > 0 && turned.len()
                    == files.len(),
                Err(_) => news.len() > 0 && news.last() is Failed && reports(all) > 0,
            }
        }),
{
    let start = fresh(style, files);
    let (run, first) = turn_to_file::<E>(start);
    let none = Seq::<Order<E>>::empty();
    assert(turned_to(none) =~= first_numbers(0));
    lemma_tally_turn(start, none);
    assert(none.push(first) =~= seq![first]);
    lemma_tally(run, first, news);
    let all = all_orders(style, files, news);
    let end = follow(run, news);
    assert(first_numbers(end.at).len() == end.at);
    lemma_files_fixed(run, news);
    if all.last() is Finish && news.len() > 0 {
        let front = news.drop_last();
        assert(all.last() == next(follow(run, front), news.last()).1);
        assert(awaits(follow(run, front), news.last()));
    }
}

/// The list of files and the style stay what they are.
proof fn lemma_files_fixed<E>(run: Run, news: Seq<News<E>>)
    requires
        all_awaited(run, news),
    ensures
        follow(run, news).files == run.files,
        follow(run, news).style == run.style,
    decreases news.len(),
{
    if news.len() > 0 {
        lemma_files_fixed(run, news.drop_last());
    }
}

/// What blocks put out that are read one after the other.
pub open spec fn blocks_text(style: Style, p: Pen, blocks: Seq<Seq<u8>>) -> Seq<u8>
    decreases blocks.len(),
{
    if blocks.len() == 0 {
        Seq::empty()
    } else {
        blocks_text(style, p, blocks.drop_last()) + text(
            style,
            blocks_pen(style, p, blocks.drop_last()),
            blocks.last(),
        )
    }
}

/// Where the output stands after blocks that are read one after the other.
pub open spec fn blocks_pen(style: Style, p: Pen, blocks: Seq<Seq<u8>>) -> Pen
    decreases blocks.len(),
{
    if blocks.len() == 0 {
        p
    } else {
        pen(style, blocks_pen(style, p, blocks.drop_last()), blocks.last())
    }
}

/// It does not matter how often a file is read and how much each time: the
/// output is that of the whole file in one piece.
pub proof fn law_reads(style: Style, p: Pen, blocks: Seq<Seq<u8>>)
    ensures
        blocks_text(style, p, blocks) == text(style, p, joined(blocks)),
        blocks_pen(style, p, blocks) == pen(style, p, joined(blocks)),
    decreases blocks.len(),
{
    if blocks.len() > 0 {
        let front = blocks.drop_last();
        law_reads(style, p, front);
        law_cut(style, p, joined(front), blocks.last());
    }
}

/// A file that can be read to its end.
pub struct Supply {
    /// Whether it is at a terminal.
    pub interactive: bool,
    /// What the file system says of it.
    pub kind: FileKind,
    /// What is read of it, block by block.
    pub blocks: Seq<Seq<u8>>,
}

/// Whether a file at this path is opened, and read in blocks that are not empty.
pub open spec fn readable(path: Seq<char>, supply: Supply) -> bool {
    &&& names_stdin(path) || access::<()>(path, Ok(supply.kind)) is Ok
    &&& forall|i: int| 0 <= i < supply.blocks.len() ==> (#[trigger] supply.blocks[i]).len() > 0
}

/// The news of a file that is opened.
pub open spec fn opening_news<E>(path: Seq<char>, supply: Supply) -> Seq<News<E>> {
    if names_stdin(path) {
        seq![News::Opened(supply.interactive)]
    } else {
        seq![News::Kind(supply.kind), News::Opened(supply.interactive)]
    }
}

/// The news of blocks that are read, and of which all is written.
pub open spec fn block_news<E>(blocks: Seq<Seq<u8>>) -> Seq<News<E>>
    decreases blocks.len(),
{
    if blocks.len() == 0 {
        Seq::empty()
    } else {
        block_news(blocks.drop_last()).push(News::Data(blocks.last())).push(News::Done)
    }
}

/// The news of a file that comes to its end: nothing more is read and, where it
/// is written line by line, what was written is flushed.
pub open spec fn end_news<E>(style: Option<Style>) -> Seq<News<E>> {
    if style is None {
        seq![News::Data(Seq::empty())]
    } else {
        seq![News::Data(Seq::empty()), News::Done]
    }
}

/// The news of a file that is opened, read to its end and written.
pub open spec fn file_news<E>(style: Option<Style>, path: Seq<char>, supply: Supply) -> Seq<
    News<E>,
> {
    opening_news(path, supply) + block_news(supply.blocks) + end_news(style)
}

/// The news of files, one after the other.
pub open spec fn files_news<E>(
    style: Option<Style>,
    files: Seq<Seq<char>>,
    supplies: Seq<Supply>,
) -> Seq<News<E>>
    decreases supplies.len(),
{
    if supplies.len() == 0 {
        Seq::empty()
    } else {
        files_news(style, files, supplies.drop_last()) + file_news(
            style,
            files[supplies.len() - 1],
            supplies.last(),
        )
    }
}

/// Where the output stands after files that are written line by line.
pub open spec fn files_pen(style: Style, supplies: Seq<Supply>) -> Pen
    decreases supplies.len(),
{
    if supplies.len() == 0 {
        first_pen()
    } else {
        blocks_pen(style, files_pen(style, supplies.drop_last()), supplies.last().blocks)
    }
}

/// What files put out that are written line by line, one after the other.
pub open spec fn files_text(style: Style, supplies: Seq<Supply>) -> Seq<u8>
    decreases supplies.len(),
{
    if supplies.len() == 0 {
        Seq::empty()
    } else {
        files_text(style, supplies.drop_last()) + blocks_text(
            style,
            files_pen(style, supplies.drop_last()),
            supplies.last().blocks,
        )
    }
}

/// The contents of files.
pub open spec fn contents(supplies: Seq<Supply>) -> Seq<Seq<u8>> {
    supplies.map_values(|supply: Supply| joined(supply.blocks))
}

/// Files that are written line by line put out what their contents, one after
/// the other, put out in one piece: lines, numbers and empty lines go on from
/// file to file.
pub proof fn law_files_are_one(style: Style, supplies: Seq<Supply>)
    ensures
        files_text(style, supplies) == text(style, first_pen(), joined(contents(supplies))),
        files_pen(style, supplies) == pen(style, first_pen(), joined(contents(supplies))),
    decreases supplies.len(),
{
    let all = contents(supplies);
    if supplies.len() == 0 {
        assert(all =~= Seq::<Seq<u8>>::empty());
    } else {
        let front = supplies.drop_last();
        law_files_are_one(style, front);
        law_reads(style, files_pen(style, front), supplies.last().blocks);
        assert(all.drop_last() =~= contents(front));
        law_cut(style, first_pen(), joined(contents(front)), joined(supplies.last().blocks));
    }
}

/// Numbers never go down from block to block.
proof fn lemma_blocks_number(style: Style, p: Pen, blocks: Seq<Seq<u8>>)
    ensures
        p.number <= blocks_pen(style, p, blocks).number,
{
    law_reads(style, p, blocks);
    lemma_pen_number(style, p, joined(blocks));
}

/// Blocks that are read and written line by line.
proof fn lemma_blocks_lines<E>(run: Run, interactive: bool, blocks: Seq<Seq<u8>>)
    requires
        run.stage == (Stage::Reading { interactive }),
        run.style is Some,
        forall|i: int| 0 <= i < blocks.len() ==> (#[trigger] blocks[i]).len() > 0,
        blocks_pen(run.style->0, run.pen, blocks).number <= usize::MAX,
    ensures
        ({
            let news = block_news::<E>(blocks);
            &&& all_awaited(run, news)
            &&& output(run, news) == blocks_text(run.style->0, run.pen, blocks)
            &&& follow(run, news) == (Run {
                pen: blocks_pen(run.style->0, run.pen, blocks),
                ..run
            })
        }),
    decreases blocks.len(),
{
    if blocks.len() > 0 {
        let style = run.style->0;
        let front = blocks.drop_last();
        let block = blocks.last();
        let p = blocks_pen(style, run.pen, front);
        lemma_pen_number(style, p, block);
        assert forall|i: int| 0 <= i < front.len() implies (#[trigger] front[i]).len() > 0 by {
            assert(front[i] == blocks[i]);
        }
        lemma_blocks_lines::<E>(run, interactive, front);
        let news = block_news::<E>(front);
        assert(block == blocks[blocks.len() - 1]);
        lemma_follow_push(run, news, News::Data(block));
        lemma_follow_push(run, news.push(News::Data(block)), News::Done);
        lemma_script_text(style, interactive, p, block);
        assert(output(run, block_news::<E>(blocks)) =~= blocks_text(style, run.pen, blocks));
    }
}

/// Blocks that are read and copied.
proof fn lemma_blocks_fast<E>(run: Run, blocks: Seq<Seq<u8>>)
    requires
        run.stage is Reading,
        run.style is None,
        forall|i: int| 0 <= i < blocks.len() ==> (#[trigger] blocks[i]).len() > 0,
    ensures
        all_awaited(run, block_news::<E>(blocks)),
        output(run, block_news::<E>(blocks)) == joined(blocks),
        follow(run, block_news::<E>(blocks)) == run,
    decreases blocks.len(),
{
    if blocks.len() > 0 {
        let front = blocks.drop_last();
        let block = blocks.last();
        assert forall|i: int| 0 <= i < front.len() implies (#[trigger] front[i]).len() > 0 by {
            assert(front[i] == blocks[i]);
        }
        lemma_blocks_fast::<E>(run, front);
        let news = block_news::<E>(front);
        assert(block == blocks[blocks.len() - 1]);
        lemma_follow_push(run, news, News::Data(block));
        lemma_follow_push(run, news.push(News::Data(block)), News::Done);
        reveal_with_fuel(written, 2);
        let after = next(run, News::<E>::Data(block)).0;
        assert(written(after.stage->Performing_deeds) =~= block);
        assert(output(run, block_news::<E>(blocks)) =~= joined(blocks));
    }
}

/// Where a run stands after a file that was read and written.
spec fn past_supply(run: Run, supply: Supply) -> Run {
    match run.style {
        None => run.past_file(),
        Some(style) => Run {
            pen: blocks_pen(style, run.pen, supply.blocks),
            ..run
        }.past_file(),
    }
}

/// What a file puts out.
spec fn supply_text(run: Run, supply: Supply) -> Seq<u8> {
    match run.style {
        None => joined(supply.blocks),
        Some(style) => blocks_text(style, run.pen, supply.blocks),
    }
}

/// Whether the line numbers of a file fit.
spec fn supply_fits(run: Run, supply: Supply) -> bool {
    run.style matches Some(style) ==> blocks_pen(style, run.pen, supply.blocks).number
        <= usize::MAX
}

/// A file is opened.
proof fn lemma_opening<E>(run: Run, supply: Supply)
    requires
        run.at < run.files.len(),
        readable(run.path(), supply),
    ensures
        ({
            let start = turn_to_file::<E>(run).0;
            let news = opening_news::<E>(run.path(), supply);
            &&& all_awaited(start, news)
            &&& output(start, news) == Seq::<u8>::empty()
            &&& follow(start, news) == run.to(
                Stage::Reading { interactive: supply.interactive && names_stdin(run.path()) },
            )
        }),
{
    let start = turn_to_file::<E>(run).0;
    let news = opening_news::<E>(run.path(), supply);
    let none = Seq::<News<E>>::empty();
    if names_stdin(run.path()) {
        assert(news =~= none.push(News::Opened(supply.interactive)));
        lemma_follow_push(start, none, News::Opened(supply.interactive));
    } else {
        assert(news =~= none.push(News::Kind(supply.kind)).push(News::Opened(supply.interactive)));
        lemma_follow_push(start, none, News::Kind(supply.kind));
        lemma_follow_push(
            start,
            none.push(News::Kind(supply.kind)),
            News::Opened(supply.interactive),
        );
        assert(access::<E>(run.path(), Ok(supply.kind)) is Ok);
    }
    assert(output(start, news) =~= Seq::<u8>::empty());
}

/// A file comes to its end.
proof fn lemma_end<E>(run: Run)
    requires
        run.at < run.files.len(),
        run.stage is Reading,
        run.style is Some ==> run.pen.number <= usize::MAX,
    ensures
        ({
            let news = end_news::<E>(run.style);
            &&& all_awaited(run, news)
            &&& output(run, news) == Seq::<u8>::empty()
            &&& follow(run, news) == turn_to_file::<E>(run.past_file()).0
            &&& orders(run, news).last() == turn_to_file::<E>(run.past_file()).1
        }),
{
    let news = end_news::<E>(run.style);
    let none = Seq::<News<E>>::empty();
    let end = News::<E>::Data(Seq::empty());
    lemma_follow_push(run, none, end);
    if run.style is None {
        assert(news =~= none.push(end));
    } else {
        assert(news =~= none.push(end).push(News::Done));
        lemma_follow_push(run, none.push(end), News::Done);
        reveal_with_fuel(written, 2);
        let flushing = next(run, end).0;
        assert(written(flushing.stage->Performing_deeds) =~= Seq::<u8>::empty());
        assert(flushing.past_file().to(Stage::Finished) == run.past_file().to(Stage::Finished));
        assert(flushing.past_file().to(Stage::Opening) == run.past_file().to(Stage::Opening));
        assert(flushing.past_file().to(Stage::Inspecting) == run.past_file().to(Stage::Inspecting));
    }
    assert(output(run, news) =~= Seq::<u8>::empty());
}

/// A file is opened, read to its end and written.
proof fn lemma_file<E>(run: Run, supply: Supply)
    requires
        run.at < run.files.len(),
        readable(run.path(), supply),
        supply_fits(run, supply),
    ensures
        ({
            let start = turn_to_file::<E>(run).0;
            let news = file_news::<E>(run.style, run.path(), supply);
            &&& all_awaited(start, news)
            &&& output(start, news) == supply_text(run, supply)
            &&& follow(start, news) == turn_to_file::<E>(past_supply(run, supply)).0
            &&& news.len() > 0
            &&& orders(start, news).last() == turn_to_file::<E>(past_supply(run, supply)).1
        }),
{
    let start = turn_to_file::<E>(run).0;
    let opening = opening_news::<E>(run.path(), supply);
    let reading = block_news::<E>(supply.blocks);
    let ending = end_news::<E>(run.style);
    lemma_opening::<E>(run, supply);
    let opened = follow(start, opening);
    match run.style {
        None => lemma_blocks_fast::<E>(opened, supply.blocks),
        Some(style) => lemma_blocks_lines::<E>(
            opened,
            opened.stage->Reading_interactive,
            supply.blocks,
        ),
    }
    lemma_follow_append(start, opening, reading);
    let done = follow(start, opening + reading);
    lemma_end::<E>(done);
    lemma_follow_append(start, opening + reading, ending);
    lemma_orders_append(start, opening + reading, ending);
    lemma_orders_append(done, Seq::empty(), ending);
    assert(output(start, file_news::<E>(run.style, run.path(), supply)) =~= supply_text(
        run,
        supply,
    ));
    let wanted = past_supply(run, supply);
    assert(done.past_file().to(Stage::Idle) == wanted.to(Stage::Idle));
    assert(done.past_file().path() == wanted.path());
}

/// Where a run stands when it comes to the file after some that were written.
spec fn past_supplies(style: Option<Style>, files: Seq<Seq<char>>, supplies: Seq<Supply>) -> Run {
    let run = fresh(style, files);
    match style {
        None => Run { at: supplies.len(), ..run },
        Some(style) => Run { at: supplies.len(), pen: files_pen(style, supplies), ..run },
    }
}

/// What files put out: their lines as the style says, or they themselves.
pub open spec fn run_text(style: Option<Style>, supplies: Seq<Supply>) -> Seq<u8> {
    match style {
        None => joined(contents(supplies)),
        Some(style) => files_text(style, supplies),
    }
}

/// Whether the line numbers of files fit.
pub open spec fn run_fits(style: Option<Style>, supplies: Seq<Supply>) -> bool {
    style matches Some(style) ==> files_pen(style, supplies).number <= usize::MAX
}

proof fn lemma_files<E>(style: Option<Style>, files: Seq<Seq<char>>, supplies: Seq<Supply>)
    requires
        supplies.len() <= files.len(),
        forall|i: int| 0 <= i < supplies.len() ==> readable(files[i], #[trigger] supplies[i]),
        run_fits(style, supplies),
    ensures
        ({
            let start = turn_to_file::<E>(fresh(style, files)).0;
            let news = files_news::<E>(style, files, supplies);
            let end = past_supplies(style, files, supplies);
            &&& all_awaited(start, news)
            &&& output(start, news) == run_text(style, supplies)
            &&& follow(start, news) == turn_to_file::<E>(end).0
            &&& all_orders(style, files, news).last() == turn_to_file::<E>(end).1
        }),
    decreases supplies.len(),
{
    let start = turn_to_file::<E>(fresh(style, files)).0;
    let news = files_news::<E>(style, files, supplies);
    if supplies.len() == 0 {
        assert(contents(supplies) =~= Seq::<Seq<u8>>::empty());
        assert(past_supplies(style, files, supplies) == fresh(style, files));
        assert(all_orders(style, files, news) =~= seq![turn_to_file::<E>(fresh(style, files)).1]);
    } else {
        let front = supplies.drop_last();
        let supply = supplies.last();
        let i = supplies.len() - 1;
        assert forall|j: int| 0 <= j < front.len() implies readable(
            files[j],
            #[trigger] front[j],
        ) by {
            assert(front[j] == supplies[j]);
        }
        if let Some(style) = style {
            lemma_blocks_number(style, files_pen(style, front), supply.blocks);
        }
        lemma_files::<E>(style, files, front);
        let run = past_supplies(style, files, front);
        assert(supply == supplies[i]);
        assert(run.path() == files[i]);
        lemma_file::<E>(run, supply);
        let before = files_news::<E>(style, files, front);
        let last = file_news::<E>(style, files[i], supply);
        lemma_follow_append(start, before, last);
        lemma_orders_append(start, before, last);
        assert(contents(supplies).drop_last() =~= contents(front));
        assert(output(start, news) =~= run_text(style, supplies));
        assert(past_supply(run, supply) == past_supplies(style, files, supplies));
        lemma_orders_append(turn_to_file::<E>(run).0, Seq::empty(), last);
    }
}

/// Orders on news that comes after news.
proof fn lemma_orders_append<E>(run: Run, a: Seq<News<E>>, b: Seq<News<E>>)
    ensures
        orders(run, a + b) == orders(run, a) + orders(follow(run, a), b),
        orders(run, b).len() == b.len(),
    decreases b.len(),
{
    if b.len() == 0 {
        assert(a + b =~= a);
    } else {
        assert((a + b).drop_last() =~= a + b.drop_last());
        lemma_orders_append(run, a, b.drop_last());
        lemma_follow_append(run, a, b.drop_last());
        assert(orders(run, a + b) =~= orders(run, a) + orders(follow(run, a), b));
    }
}

/// All data that some news brings, in the order in which it was read.
pub open spec fn data_read<E>(news: Seq<News<E>>) -> Seq<u8>
    decreases news.len(),
{
    if news.len() == 0 {
        Seq::empty()
    } else {
        match news.last() {
            News::Data(data) => data_read(news.drop_last()) + data,
            _ => data_read(news.drop_last()),
        }
    }
}

/// Whether no operation on the output failed.
pub open spec fn all_performed<E>(news: Seq<News<E>>) -> bool {
    forall|i: int| 0 <= i < news.len() ==> (#[trigger] news[i]) !is OpFailed
}

/// What the operations that are waited for will still write.
pub open spec fn unwritten(stage: Stage) -> Seq<u8> {
    match stage {
        Stage::Performing { deeds, .. } => written(deeds),
        _ => Seq::empty(),
    }
}

/// What data puts out: its lines as the style says, or the data itself.
pub open spec fn data_text(style: Option<Style>, p: Pen, data: Seq<u8>) -> Seq<u8> {
    match style {
        None => data,
        Some(style) => text(style, p, data),
    }
}

/// Where the output stands after data.
pub open spec fn data_pen(style: Option<Style>, p: Pen, data: Seq<u8>) -> Pen {
    match style {
        None => p,
        Some(style) => pen(style, p, data),
    }
}

/// From wherever a run stands, as long as no operation fails, what was put out
/// and what is still to be written are what was still to be written at first,
/// then the text of all data read since, in one piece. This holds whichever files
/// cannot be opened, or not be read to their end.
pub proof fn law_output_from<E>(run: Run, news: Seq<News<E>>)
    requires
        all_awaited(run, news),
        all_performed(news),
    ensures
        output(run, news) + unwritten(follow(run, news).stage) == unwritten(run.stage) + data_text(
            run.style,
            run.pen,
            data_read(news),
        ),
        follow(run, news).pen == data_pen(run.style, run.pen, data_read(news)),
    decreases news.len(),
{
    let after = follow(run, news);
    if news.len() == 0 {
        assert(output(run, news) + unwritten(after.stage) =~= unwritten(run.stage) + data_text(
            run.style,
            run.pen,
            data_read(news),
        ));
    } else {
        let front = news.drop_last();
        let last = news.last();
        let before = follow(run, front);
        let data = data_read(front);
        assert forall|i: int| 0 <= i < front.len() implies (#[trigger] front[i]) !is OpFailed by {
            assert(front[i] == news[i]);
        }
        assert(last == news[news.len() - 1]);
        law_output_from(run, front);
        lemma_files_fixed(run, front);
        if let News::Data(block) = last {
            let interactive = before.stage->Reading_interactive;
            reveal_with_fuel(written, 2);
            match run.style {
                None => {
                    assert(unwritten(after.stage) =~= block);
                },
                Some(style) => {
                    law_cut(style, run.pen, data, block);
                    if block.len() == 0 {
                        assert(data + block =~= data);
                    } else {
                        lemma_script_text(style, interactive, before.pen, block);
                    }
                    assert(unwritten(after.stage) =~= text(style, before.pen, block));
                },
            }
        } else {
            assert(unwritten(after.stage) =~= Seq::<u8>::empty());
        }
        assert(output(run, news) + unwritten(after.stage) =~= unwritten(run.stage) + data_text(
            run.style,
            run.pen,
            data_read(news),
        ));
    }
}

/// A file that fails does not stop the others: as long as no operation fails,
/// what a run has put out and what is still to be written are, together, the text
/// of all data read so far from all files, in the order in which it was read.
pub proof fn law_output<E>(style: Option<Style>, files: Seq<Seq<char>>, news: Seq<News<E>>)
    requires
        all_awaited(turn_to_file::<E>(fresh(style, files)).0, news),
        all_performed(news),
    ensures
        ({
            let start = turn_to_file::<E>(fresh(style, files)).0;
            let end = follow(start, news);
            let data = data_read(news);
            &&& output(start, news) + unwritten(end.stage) == data_text(style, first_pen(), data)
            &&& end.pen == data_pen(style, first_pen(), data)
            &&& end.stage is Finished ==> output(start, news) == data_text(
                style,
                first_pen(),
                data,
            )
        }),
{
    let start = turn_to_file::<E>(fresh(style, files)).0;
    let end = follow(start, news);
    law_output_from(start, news);
    assert(unwritten(start.stage) + data_text(style, first_pen(), data_read(news)) =~= data_text(
        style,
        first_pen(),
        data_read(news),
    ));
    if end.stage is Finished {
        assert(output(start, news) + unwritten(end.stage) =~= output(start, news));
    }
}

/// Files that can all be opened, read and written are put out one after the
/// other, and the run ends well.
pub proof fn law_concatenation<E>(
    style: Option<Style>,
    files: Seq<Seq<char>>,
    supplies: Seq<Supply>,
)
    requires
        supplies.len() == files.len(),
        forall|i: int| 0 <= i < files.len() ==> readable(files[i], #[trigger] supplies[i]),
        run_fits(style, supplies),
    ensures
        ({
            let start = turn_to_file::<E>(fresh(style, files)).0;
            let news = files_news::<E>(style, files, supplies);
            &&& all_awaited(start, news)
            &&& output(start, news) == run_text(style, supplies)
            &&& all_orders(style, files, news).last() == Order::<E>::Finish(Ok(()))
        }),
{
    lemma_files::<E>(style, files, supplies);
}

/// Copying the files as they are is only a quicker way: options that allow it
/// put the same out line by line.
pub proof fn law_fast_is_quicker(options: OutputOptions<'_>, supplies: Seq<Supply>)
    requires
        options.plain(),
    ensures
        run_text(None, supplies) == run_text(Some(options.full_style()), supplies),
{
    law_files_are_one(options.full_style(), supplies);
    law_plain_copies(options, first_pen(), joined(contents(supplies)));
}

/// Over all files, numbering puts 1 before the first counted line of the output,
/// 2 before the next, and so on, and does nothing else.
pub proof fn law_run_numbers(style: Style, supplies: Seq<Supply>)
    ensures
        ({
            let lines = output_lines(style, first_pen(), joined(contents(supplies)));
            &&& run_text(Some(unnumbered(style)), supplies) == joined(line_bytes(lines))
            &&& run_text(Some(style), supplies) == joined(with_numbers(style.number, 1, lines))
        }),
{
    law_files_are_one(style, supplies);
    law_files_are_one(unnumbered(style), supplies);
    law_numbers(style, first_pen(), joined(contents(supplies)));
}

/// Over all files, squeezing suppresses the empty lines that repeat an empty
/// line, also where two files meet, and does nothing else: of each run of empty
/// lines in the output as it is otherwise, a single one is left.
pub proof fn law_run_squeeze(style: Style, supplies: Seq<Supply>)
    requires
        style.squeeze_blank,
    ensures
        ({
            let all = joined(contents(supplies));
            let lines = output_lines(unsqueezed(style), first_pen(), all);
            &&& run_text(Some(style), supplies) == text(
                unsqueezed(style),
                first_pen(),
                without_repeats(first_pen(), all),
            )
            &&& run_text(Some(style), supplies) == joined(
                with_numbers(style.number, 1, runs_merged(false, lines)),
            )
        }),
{
    law_files_are_one(style, supplies);
    law_squeeze(style, first_pen(), joined(contents(supplies)));
    law_squeeze_lines(style, first_pen(), joined(contents(supplies)));
    law_run_numbers(style, supplies);
}

/// Whether the state that remains is sound, whichever of the operations fails.
pub open spec fn all_sound(deeds: Seq<Deed>) -> bool {
    forall|i: int| 0 <= i < deeds.len() ==> sound(remaining_state(#[trigger] deeds[i]))
}

/// Whichever of the operations for a block fails, the state that remains is sound.
proof fn lemma_script_sound(style: Style, interactive: bool, p: Pen, block: Seq<u8>)
    requires
        sound(p),
    ensures
        all_sound(script(style, interactive, p, block)),
    decreases block.len(),
{
    if block.len() == 0 {
    } else if squeezed(style, p, block[0]) {
        lemma_script_sound(style, interactive, p, block.drop_first());
    } else if block[0] == LF {
        assert(all_sound(blank_deeds(style, interactive, p)));
        lemma_script_sound(style, interactive, moved(style, p, LF), block.drop_first());
    } else {
        lemma_line_len(block);
        let n = line_len(block) as int;
        if n == block.len() {
            assert(all_sound(open_line_deeds(style, p, block)));
        } else {
            assert(all_sound(line_deeds(style, interactive, p, block.take(n))));
            lemma_script_sound(
                style,
                interactive,
                after_line(style, p, block[0]),
                block.skip(n + 1),
            );
        }
    }
}

/// Whatever comes, and whatever fails, the state of a run stays sound.
pub proof fn law_run_sound<E>(style: Option<Style>, files: Seq<Seq<char>>, news: Seq<News<E>>)
    requires
        all_awaited(turn_to_file::<E>(fresh(style, files)).0, news),
    ensures
        sound(follow(turn_to_file::<E>(fresh(style, files)).0, news).pen),
{
    lemma_run_sound(turn_to_file::<E>(fresh(style, files)).0, news);
}

/// Whether the state is sound, and will be if an operation that is waited for fails.
spec fn stays_sound(run: Run) -> bool {
    &&& sound(run.pen)
    &&& run.stage matches Stage::Performing { deeds, .. } ==> all_sound(deeds)
}

proof fn lemma_run_sound<E>(run: Run, news: Seq<News<E>>)
    requires
        stays_sound(run),
        all_awaited(run, news),
    ensures
        stays_sound(follow(run, news)),
    decreases news.len(),
{
    if news.len() > 0 {
        let before = follow(run, news.drop_last());
        lemma_run_sound(run, news.drop_last());
        match (before.stage, before.style, news.last()) {
            (Stage::Reading { interactive }, Some(style), News::Data(data)) => {
                law_sound(style, before.pen, data);
                lemma_script_sound(style, interactive, before.pen, data);
            },
            _ => {},
        }
    }
}

/// A directory is told of as one, and not opened.
pub proof fn law_directory<E>(run: Run, kind: FileKind)
    requires
        run.stage is Inspecting,
        !names_stdin(run.path()),
        type_of_kind(kind) == Some(InputType::Directory),
    ensures
        next(run, News::<E>::Kind(kind)).1 == Order::<E>::Report(Fault::IsDirectory(run.path())),
{
}

/// A read that fails is an error of the file, told with its path.
pub proof fn law_failed_read<E>(run: Run, err: E)
    requires
        run.stage is Reading,
    ensures
        next(run, News::Failed(err)).1 == Order::Report(Fault::Input(err, run.path())),
{
}

/// A file that is written line by line and read to its end is not done with
/// before what was written is flushed, and an error of that flush is told.
pub proof fn law_flushed<E>(run: Run, err: E)
    requires
        run.stage is Reading,
        run.style is Some,
    ensures
        ({
            let (flushing, order) = next(run, News::<E>::Data(Seq::empty()));
            &&& order == Order::<E>::Perform
            &&& flushing.stage matches Stage::Performing { deeds, .. }
            &&& deeds.len() == 1 && deeds[0] is Flush
            &&& flushing.at == run.at
            &&& next(flushing, News::OpFailed(0, err)).1 == Order::Report(Fault::Output(err))
            &&& next(flushing, News::<E>::Done) == turn_to_file::<E>(flushing.past_file())
        }),
{
}

/// A run starts with its first file, no error, and nothing put out.
pub proof fn law_fresh(style: Option<Style>, files: Seq<Seq<char>>)
    ensures
        fresh(style, files) == (Run {
            style,
            files,
            at: 0,
            errors: 0,
            pen: Pen { number: 1, at_start: true, kept: false },
            stage: Stage::Idle,
        }),
{
}

/// A run that has a file left turns to it: to standard input, if its path is `-`,
/// and otherwise to the file system. A run that has none left ends, with the
/// number of its errors if there were any.
pub proof fn law_turn<E>(run: Run)
    ensures
        ({
            let (after, order) = turn_to_file::<E>(run);
            if run.at < run.files.len() {
                if run.files[run.at as int] == seq!['-'] {
                    order == Order::<E>::UseStdin(run.at) && after == (Run {
                        stage: Stage::Opening,
                        ..run
                    })
                } else {
                    order == Order::<E>::Inspect(run.at) && after == (Run {
                        stage: Stage::Inspecting,
                        ..run
                    })
                }
            } else {
                &&& after == (Run { stage: Stage::Finished, ..run })
                &&& run.errors == 0 ==> order == Order::<E>::Finish(Ok(()))
                &&& run.errors > 0 ==> order == Order::<E>::Finish(
                    Err(Fault::EncounteredErrors(run.errors)),
                )
            }
        }),
{
}

/// A file that the file system knows is opened, or connected to if it is a
/// socket. A directory, and a file of no known type, are told of instead.
pub proof fn law_inspected<E>(run: Run, kind: FileKind, err: E)
    requires
        run.stage is Inspecting,
        run.files[run.at as int] != seq!['-'],
    ensures
        ({
            let path = run.files[run.at as int];
            let (after, order) = next(run, News::<E>::Kind(kind));
            let opening = after == (Run { stage: Stage::Opening, ..run });
            let reporting = after == (Run { stage: Stage::Reporting, ..run });
            let device = kind.block_device || kind.char_device || kind.fifo;
            if device || (!kind.socket && !kind.dir && (kind.file || kind.symlink)) {
                opening && order == Order::<E>::Open(run.at)
            } else if kind.socket {
                opening && order == Order::<E>::Connect(run.at)
            } else if kind.dir {
                reporting && order == Order::<E>::Report(Fault::IsDirectory(path))
            } else {
                reporting && order == Order::<E>::Report(Fault::UnknownFiletype(path))
            }
        }),
        next(run, News::Failed(err)) == (
            Run { stage: Stage::Reporting, ..run },
            Order::Report(Fault::Input(err, run.files[run.at as int])),
        ),
{
}

/// A file that is opened is read, and is watched only if it is standard input at
/// a terminal. One that cannot be opened is told of with its path.
pub proof fn law_opened<E>(run: Run, interactive: bool, err: E)
    requires
        run.stage is Opening,
    ensures
        ({
            let path = run.files[run.at as int];
            let (after, order) = next(run, News::<E>::Opened(interactive));
            &&& after == (Run {
                stage: Stage::Reading { interactive: interactive && path == seq!['-'] },
                ..run
            })
            &&& order is Read
            &&& next(run, News::Failed(err)) == (
                Run { stage: Stage::Reporting, ..run },
                Order::Report(Fault::Input(err, path)),
            )
        }),
{
}

/// Every order to read, whatever it follows, asks for a whole block: 65536 bytes
/// where files are copied, 31744 where they are written line by line. No order
/// asks for nothing.
pub proof fn law_read_orders<E>(run: Run, news: News<E>)
    requires
        awaits(run, news),
    ensures
        next(run, news).1 matches Order::Read(n) ==> {
            &&& n > 0
            &&& run.style is None ==> n == 65536
            &&& run.style is Some ==> n == 31744
        },
{
}

/// What is read of a file is to be written, all of it and at once: as it is where
/// files are copied, in lines as the style says otherwise. A failed copy names
/// the file.
pub proof fn law_block<E>(run: Run, interactive: bool, data: Seq<u8>)
    requires
        run.stage == (Stage::Reading { interactive }),
        data.len() > 0,
    ensures
        ({
            let (after, order) = next(run, News::<E>::Data(data));
            let pen = match run.style {
                None => run.pen,
                Some(style) => pen(style, run.pen, data),
            };
            &&& order == Order::<E>::Perform
            &&& after == (Run { pen, stage: after.stage, ..run })
            &&& after.stage matches Stage::Performing { interactive: watched, last, deeds }
            &&& watched == interactive
            &&& !last
            &&& match run.style {
                None => deeds == seq![
                    Deed::Write { bytes: data, names_file: true, state: run.pen },
                ],
                Some(style) => deeds == script(style, interactive, run.pen, data),
            }
        }),
{
}

/// A file that is read to its end gives way to the next, once it is flushed where
/// it was written line by line.
pub proof fn law_end<E>(run: Run, interactive: bool)
    requires
        run.stage == (Stage::Reading { interactive }),
    ensures
        run.style is None ==> next(run, News::<E>::Data(Seq::empty())) == turn_to_file::<E>(
            Run { at: run.at + 1, ..run },
        ),
        run.style is Some ==> next(run, News::<E>::Data(Seq::empty())) == (
            Run {
                stage: Stage::Performing {
                    interactive,
                    last: true,
                    deeds: seq![Deed::Flush { names_file: false, state: run.pen }],
                },
                ..run
            },
            Order::<E>::Perform,
        ),
{
}

/// Once operations are performed the file is read further, or gives way to the
/// next if it has come to its end. Where one of them fails, the file is given up,
/// the state is the one that the operation leaves, and the error is told, with
/// the path if the operation names the file.
pub proof fn law_performed<E>(run: Run, i: nat, err: E)
    requires
        run.stage matches Stage::Performing { deeds, .. } && i < deeds.len(),
    ensures
        run.stage matches Stage::Performing { interactive, last, deeds } ==> {
            let path = run.files[run.at as int];
            let (after, order) = next(run, News::<E>::Done);
            let (failed, told) = next(run, News::OpFailed(i, err));
            let (names_file, state) = match deeds[i as int] {
                Deed::Write { names_file, state, .. } => (names_file, state),
                Deed::Flush { names_file, state } => (names_file, state),
            };
            &&& last ==> (after, order) == turn_to_file::<E>(Run { at: run.at + 1, ..run })
            &&& !last ==> order is Read && after == (Run {
                stage: Stage::Reading { interactive },
                ..run
            })
            &&& failed == (Run { pen: state, stage: Stage::Reporting, ..run })
            &&& names_file ==> told == Order::Report(Fault::Input(err, path))
            &&& !names_file ==> told == Order::Report(Fault::Output(err))
        },
{
}

/// An error that was told counts once, and the next file comes. One that cannot be
/// told ends the run with the error of telling it, with the path where files are
/// written line by line.
pub proof fn law_reported<E>(run: Run, err: E)
    requires
        run.stage is Reporting,
    ensures
        next(run, News::<E>::Done) == turn_to_file::<E>(
            Run { at: run.at + 1, errors: run.errors + 1, ..run },
        ),
        next(run, News::Failed(err)).0 == (Run { stage: Stage::Finished, ..run }),
        run.style is None ==> next(run, News::Failed(err)).1 == Order::Finish(
            Err(Fault::Output(err)),
        ),
        run.style is Some ==> next(run, News::Failed(err)).1 == Order::Finish(
            Err(Fault::Input(err, run.files[run.at as int])),
        ),
{
}

/// A run takes whatever can come of what it ordered: any kind, any failure, and
/// any data, as long as line numbers fit. Standard input needs no opening and
/// cannot fail to open.
pub proof fn law_awaited<E>(run: Run, kind: FileKind, yes: bool, data: Seq<u8>, i: nat, err: E)
    ensures
        run.stage is Inspecting ==> awaits(run, News::<E>::Kind(kind)) && awaits(
            run,
            News::Failed(err),
        ),
        run.stage is Opening ==> awaits(run, News::<E>::Opened(yes)),
        run.stage is Opening && run.files[run.at as int] != seq!['-'] ==> awaits(
            run,
            News::Failed(err),
        ),
        run.stage is Reading ==> awaits(run, News::Failed(err)),
        run.stage is Reading && (run.style matches Some(style) ==> pen(
            style,
            run.pen,
            data,
        ).number <= usize::MAX) ==> awaits(run, News::<E>::Data(data)),
        run.stage matches Stage::Performing { deeds, .. } ==> awaits(run, News::<E>::Done) && (i
            < deeds.len() ==> awaits(run, News::OpFailed(i, err))),
        run.stage is Reporting ==> awaits(run, News::<E>::Done) && awaits(run, News::Failed(err)),
{
}

/// Whether news is what comes of an order where `rest` is what is left of a file:
/// a read brings bytes of it, at most as many as were asked for, and none only if
/// none were asked for or none are left. Operations on the output succeed.
pub open spec fn file_answers<E>(order: Order<E>, news: News<E>, rest: Seq<u8>) -> bool {
    match order {
        Order::Read(n) => news matches News::Data(data) && data.len() <= n && data.len()
            <= rest.len() && data == rest.take(data.len() as int) && (data.len() == 0 ==> n == 0
            || rest.len() == 0),
        Order::Perform => news is Done,
        _ => false,
    }
}

/// The order that the next news answers, after `first` and some news.
pub open spec fn last_order<E>(first: Order<E>, run: Run, news: Seq<News<E>>) -> Order<E> {
    if news.len() == 0 {
        first
    } else {
        orders(run, news).last()
    }
}

/// Whether all news comes from a file with this content, from its first byte on.
pub open spec fn from_file<E>(
    first: Order<E>,
    run: Run,
    news: Seq<News<E>>,
    content: Seq<u8>,
) -> bool
    decreases news.len(),
{
    news.len() == 0 || {
        let front = news.drop_last();
        &&& from_file(first, run, front, content)
        &&& file_answers(
            last_order(first, run, front),
            news.last(),
            content.skip(data_read(front).len() as int),
        )
    }
}

/// Where a run stands within a file of which `k` bytes were read.
spec fn within_file<E>(
    run: Run,
    end: Run,
    order: Order<E>,
    steps: nat,
    k: nat,
    total: nat,
) -> bool {
    &&& end.style == run.style
    &&& end.files == run.files
    &&& end.errors == run.errors
    &&& k <= total
    &&& match end.stage {
        Stage::Reading { .. } => end.at == run.at && order == Order::<E>::Read(run.block_size())
            && steps <= 2 * k,
        Stage::Performing { last, .. } => end.at == run.at && order is Perform && if last {
            k == total && steps <= 2 * k + 1
        } else {
            steps + 1 <= 2 * k
        },
        _ => end.at == run.at + 1 && k == total && order !is Read && order !is Perform,
    }
}

/// One more step within a file.
proof fn lemma_file_step<E>(
    run: Run,
    before: Run,
    order: Order<E>,
    steps: nat,
    k: nat,
    total: nat,
    news: News<E>,
    rest: Seq<u8>,
)
    requires
        run.at < run.files.len(),
        within_file(run, before, order, steps, k, total),
        file_answers(order, news, rest),
        rest.len() == total - k,
        news matches News::Data(data) ==> (run.style matches Some(style) ==> pen(
            style,
            before.pen,
            data,
        ).number <= usize::MAX),
    ensures
        awaits(before, news),
        news !is OpFailed,
        within_file(
            run,
            next(before, news).0,
            next(before, news).1,
            steps + 1,
            k + match news {
                News::Data(data) => data.len(),
                _ => 0,
            },
            total,
        ),
{
    match before.stage {
        Stage::Reading { .. } => {
            assert(news is Data);
        },
        Stage::Performing { last, .. } => {
            assert(news is Done);
        },
        _ => {},
    }
}

/// A prefix of the content of a file, and the next part of it.
proof fn lemma_next_part(style: Option<Style>, p: Pen, content: Seq<u8>, k: int, data: Seq<u8>)
    requires
        0 <= k <= content.len(),
        data.len() <= content.len() - k,
        data == content.skip(k).take(data.len() as int),
        style matches Some(style) ==> pen(style, p, content).number <= usize::MAX,
    ensures
        content.take(k) + data == content.take(k + data.len()),
        style matches Some(style) ==> pen(style, pen(style, p, content.take(k)), data).number
            <= usize::MAX,
{
    let more = content.take(k + data.len());
    let rest = content.skip(k + data.len());
    assert(content.take(k) + data =~= more);
    assert(more + rest =~= content);
    if let Some(style) = style {
        law_cut(style, p, content.take(k), data);
        law_cut(style, p, more, rest);
        lemma_pen_number(style, pen(style, p, more), rest);
    }
}

proof fn lemma_within_file<E>(first: Order<E>, run: Run, news: Seq<News<E>>, content: Seq<u8>)
    requires
        run.wf(),
        run.stage is Reading,
        first == Order::<E>::Read(run.block_size()),
        run.style matches Some(style) ==> pen(style, run.pen, content).number <= usize::MAX,
        from_file(first, run, news, content),
    ensures
        all_awaited(run, news),
        all_performed(news),
        data_read(news).len() <= content.len(),
        data_read(news) == content.take(data_read(news).len() as int),
        within_file(
            run,
            follow(run, news),
            last_order(first, run, news),
            news.len(),
            data_read(news).len(),
            content.len(),
        ),
    decreases news.len(),
{
    if news.len() == 0 {
        assert(content.take(0) =~= data_read(news));
    } else {
        let front = news.drop_last();
        let last = news.last();
        let before = follow(run, front);
        let order = last_order(first, run, front);
        let k = data_read(front).len();
        lemma_within_file(first, run, front, content);
        law_output_from(run, front);
        if let News::Data(data) = last {
            assert(order is Read);
            lemma_next_part(run.style, run.pen, content, k as int, data);
        }
        lemma_file_step(
            run,
            before,
            order,
            front.len(),
            k,
            content.len(),
            last,
            content.skip(k as int),
        );
        assert forall|i: int| 0 <= i < news.len() implies (#[trigger] news[i]) !is OpFailed by {
            if i < front.len() {
                assert(news[i] == front[i]);
            }
        }
    }
}

/// A file is put out whole, however large it is and however little each read
/// brings of it: the run does not turn away from it before the text of its whole
/// content is put out. It goes on reading and writing until then, and comes to
/// the end after at most two steps for each byte, and two more.
pub proof fn law_whole_file<E>(run: Run, interactive: bool, news: Seq<News<E>>, content: Seq<u8>)
    requires
        run.wf(),
        run.stage is Opening,
        run.style matches Some(style) ==> pen(style, run.pen, content).number <= usize::MAX,
        from_file(
            next(run, News::<E>::Opened(interactive)).1,
            next(run, News::<E>::Opened(interactive)).0,
            news,
            content,
        ),
    ensures
        ({
            let (opened, first) = next(run, News::<E>::Opened(interactive));
            let end = follow(opened, news);
            let order = last_order(first, opened, news);
            &&& all_awaited(opened, news)
            &&& end.errors == run.errors
            &&& order is Read || order is Perform ==> end.at == run.at && news.len() <= 2
                * content.len() + 1
            &&& order !is Read && order !is Perform ==> {
                &&& (end, order) == turn_to_file::<E>(
                    Run { at: run.at + 1, pen: end.pen, ..run },
                )
                &&& output(opened, news) == data_text(run.style, run.pen, content)
                &&& end.pen == data_pen(run.style, run.pen, content)
            }
        }),
{
    let (opened, first) = next(run, News::<E>::Opened(interactive));
    let end = follow(opened, news);
    let order = last_order(first, opened, news);
    lemma_within_file(first, opened, news, content);
    law_output_from(opened, news);
    assert(content.take(content.len() as int) =~= content);
    if order !is Read && order !is Perform {
        let front = news.drop_last();
        let before = follow(opened, front);
        lemma_within_file(first, opened, front, content);
        lemma_follow_push(opened, front, news.last());
        assert(front.push(news.last()) =~= news);
        assert(output(opened, news) + unwritten(end.stage) =~= output(opened, news));
        assert(unwritten(opened.stage) + data_text(run.style, run.pen, content) =~= data_text(
            run.style,
            run.pen,
            content,
        ));
    }
}

/// Whether a file of this kind can be read: it is known, and no directory.
pub open spec fn can_be_read(kind: FileKind) -> bool {
    kind.block_device || kind.char_device || kind.fifo || kind.socket || (!kind.dir && (kind.file
        || kind.symlink))
}

/// Whether all news comes from files with these contents, which can all be found,
/// opened and read, each from its first byte on.
pub open spec fn from_files<E>(
    style: Option<Style>,
    files: Seq<Seq<char>>,
    contents: Seq<Seq<u8>>,
    news: Seq<News<E>>,
) -> bool
    decreases news.len(),
{
    news.len() == 0 || {
        let (run, first) = turn_to_file::<E>(fresh(style, files));
        let front = news.drop_last();
        let at = follow(run, front).at as int;
        let read = data_read(front).len() - joined(contents.take(at)).len();
        &&& from_files(style, files, contents, front)
        &&& match last_order(first, run, front) {
            Order::UseStdin(_) => news.last() is Opened,
            Order::Open(_) => news.last() is Opened,
            Order::Connect(_) => news.last() is Opened,
            Order::Inspect(_) => news.last() matches News::Kind(kind) && can_be_read(kind),
            order => file_answers(order, news.last(), contents[at].skip(read)),
        }
    }
}

/// Where a run over such files stands when `k` bytes of the current one, of
/// `total`, were read, and the run turned to it after at most `base` steps.
spec fn within_run<E>(end: Run, order: Order<E>, steps: nat, base: nat, k: nat, total: nat) -> bool {
    &&& end.wf()
    &&& end.errors == 0
    &&& k <= total
    &&& match end.stage {
        Stage::Inspecting => order is Inspect && end.path() != seq!['-'] && k == 0 && steps <= base,
        Stage::Opening => (order is UseStdin || order is Open || order is Connect) && k == 0
            && steps <= base + 1,
        Stage::Reading { .. } => order == Order::<E>::Read(end.block_size()) && steps <= base + 2
            + 2 * k,
        Stage::Performing { last, .. } => order is Perform && if last {
            k == total && steps <= base + 3 + 2 * k
        } else {
            steps <= base + 1 + 2 * k
        },
        Stage::Finished => end.at == end.files.len() && order == Order::<E>::Finish(Ok(()))
            && k == 0,
        _ => false,
    }
}

/// One more step over such files: within the current one, or on to the next.
proof fn lemma_run_step<E>(
    before: Run,
    order: Order<E>,
    steps: nat,
    base: nat,
    k: nat,
    total: nat,
    news: News<E>,
    rest: Seq<u8>,
    next_total: nat,
)
    requires
        within_run(before, order, steps, base, k, total),
        match order {
            Order::UseStdin(_) => news is Opened,
            Order::Open(_) => news is Opened,
            Order::Connect(_) => news is Opened,
            Order::Inspect(_) => news matches News::Kind(kind) && can_be_read(kind),
            _ => file_answers(order, news, rest),
        },
        rest.len() == total - k,
        news matches News::Data(data) ==> (before.style matches Some(style) ==> pen(
            style,
            before.pen,
            data,
        ).number <= usize::MAX),
    ensures
        awaits(before, news),
        news !is OpFailed,
        ({
            let (end, order) = next(before, news);
            let more = match news {
                News::Data(data) => data.len(),
                _ => 0,
            };
            if end.at == before.at {
                within_run(end, order, steps + 1, base, k + more, total)
            } else {
                &&& end.at == before.at + 1
                &&& more == 0
                &&& k == total
                &&& within_run(end, order, steps + 1, base + 4 + 2 * total, 0, next_total)
            }
        }),
{
    match before.stage {
        Stage::Inspecting => {
            assert(news is Kind);
        },
        Stage::Opening => {
            assert(news is Opened);
        },
        Stage::Reading { .. } => {
            assert(news is Data);
        },
        Stage::Performing { .. } => {
            assert(news is Done);
        },
        _ => {},
    }
}

/// The contents of one more file.
proof fn lemma_joined_next(contents: Seq<Seq<u8>>, i: int)
    requires
        0 <= i < contents.len(),
    ensures
        joined(contents.take(i + 1)) == joined(contents.take(i)) + contents[i],
{
    assert(contents.take(i + 1).drop_last() =~= contents.take(i));
}

/// Numbers are no higher after some of the files than after all.
proof fn lemma_first_files_number(style: Style, p: Pen, contents: Seq<Seq<u8>>, i: int)
    requires
        0 <= i <= contents.len(),
    ensures
        pen(style, p, joined(contents.take(i))).number <= pen(style, p, joined(contents)).number,
    decreases contents.len(),
{
    if i == contents.len() {
        assert(contents.take(i) =~= contents);
    } else {
        let front = contents.drop_last();
        assert(front.take(i) =~= contents.take(i));
        lemma_first_files_number(style, p, front, i);
        law_cut(style, p, joined(front), contents.last());
        lemma_pen_number(style, pen(style, p, joined(front)), contents.last());
    }
}

/// How many bytes the current file has; none, where there is no file left.
spec fn total_of(contents: Seq<Seq<u8>>, at: nat) -> nat {
    if at < contents.len() {
        contents[at as int].len()
    } else {
        0
    }
}

/// What was read of such files: all of those before the current one, and the
/// first `k` bytes of that one.
spec fn read_so_far(contents: Seq<Seq<u8>>, at: nat, data: Seq<u8>) -> bool {
    let before = joined(contents.take(at as int));
    let k = data.len() - before.len();
    &&& at <= contents.len()
    &&& 0 <= k <= total_of(contents, at)
    &&& at < contents.len() ==> data == before + contents[at as int].take(k)
    &&& at == contents.len() ==> data == before
}

/// More was read of the current file.
proof fn lemma_read_more(contents: Seq<Seq<u8>>, at: nat, data: Seq<u8>, part: Seq<u8>)
    requires
        at < contents.len(),
        read_so_far(contents, at, data),
        ({
            let rest = contents[at as int].skip(data.len() - joined(contents.take(at as int)).len());
            part.len() <= rest.len() && part == rest.take(part.len() as int)
        }),
    ensures
        read_so_far(contents, at, data + part),
        ({
            let content = joined(contents.take(at as int + 1));
            &&& data.len() + part.len() <= content.len()
            &&& content.take(data.len() as int) == data
            &&& part == content.skip(data.len() as int).take(part.len() as int)
        }),
{
    let before = joined(contents.take(at as int));
    let k = data.len() - before.len();
    let content = joined(contents.take(at as int + 1));
    lemma_joined_next(contents, at as int);
    assert(content.take(data.len() as int) =~= data);
    assert(content.skip(data.len() as int) =~= contents[at as int].skip(k));
    assert(data + part =~= before + contents[at as int].take(k + part.len()));
}

/// All of the current file was read.
proof fn lemma_read_all(contents: Seq<Seq<u8>>, at: nat, data: Seq<u8>)
    requires
        at < contents.len(),
        read_so_far(contents, at, data),
        data.len() == joined(contents.take(at as int)).len() + contents[at as int].len(),
    ensures
        read_so_far(contents, at + 1, data),
        data == joined(contents.take(at as int + 1)),
{
    lemma_joined_next(contents, at as int);
    let file = contents[at as int];
    assert(file.take(file.len() as int) =~= file);
    if at + 1 < contents.len() {
        assert(data + contents[at as int + 1].take(0) =~= data);
    }
}

/// Where a run over such files stands, given all that was read.
spec fn on_track<E>(
    contents: Seq<Seq<u8>>,
    end: Run,
    order: Order<E>,
    steps: nat,
    data: Seq<u8>,
) -> bool {
    let before = joined(contents.take(end.at as int)).len();
    &&& read_so_far(contents, end.at, data)
    &&& within_run(
        end,
        order,
        steps,
        2 * before + 4 * end.at,
        (data.len() - before) as nat,
        total_of(contents, end.at),
    )
}

/// What some news brings.
spec fn part_of<E>(news: News<E>) -> Seq<u8> {
    match news {
        News::Data(data) => data,
        _ => Seq::empty(),
    }
}

/// One more step over such files keeps the run on track.
proof fn lemma_track_step<E>(
    contents: Seq<Seq<u8>>,
    now: Run,
    order: Order<E>,
    steps: nat,
    data: Seq<u8>,
    news: News<E>,
)
    requires
        now.files.len() == contents.len(),
        now.style matches Some(style) ==> pen(style, first_pen(), joined(contents)).number
            <= usize::MAX,
        now.pen == data_pen(now.style, first_pen(), data),
        on_track(contents, now, order, steps, data),
        match order {
            Order::UseStdin(_) => news is Opened,
            Order::Open(_) => news is Opened,
            Order::Connect(_) => news is Opened,
            Order::Inspect(_) => news matches News::Kind(kind) && can_be_read(kind),
            order => file_answers(
                order,
                news,
                contents[now.at as int].skip(
                    data.len() - joined(contents.take(now.at as int)).len(),
                ),
            ),
        },
    ensures
        awaits(now, news),
        news !is OpFailed,
        on_track(
            contents,
            next(now, news).0,
            next(now, news).1,
            steps + 1,
            data + part_of(news),
        ),
{
    let at = now.at as int;
    let before = joined(contents.take(at));
    let k = data.len() - before.len();
    assert(at < contents.len());
    let rest = contents[at].skip(k);
    assert(data + Seq::<u8>::empty() =~= data);
    if let News::Data(part) = news {
        assert(order is Read);
        lemma_read_more(contents, now.at, data, part);
        if let Some(style) = now.style {
            lemma_first_files_number(style, first_pen(), contents, at + 1);
        }
        lemma_next_part(
            now.style,
            first_pen(),
            joined(contents.take(at + 1)),
            data.len() as int,
            part,
        );
    }
    lemma_run_step(
        now,
        order,
        steps,
        2 * before.len() + 4 * now.at,
        k as nat,
        contents[at].len(),
        news,
        rest,
        total_of(contents, now.at + 1),
    );
    if next(now, news).0.at != now.at {
        lemma_read_all(contents, now.at, data);
        lemma_joined_next(contents, at);
        assert(data + part_of(news) =~= data);
    }
}

proof fn lemma_from_files<E>(
    style: Option<Style>,
    files: Seq<Seq<char>>,
    contents: Seq<Seq<u8>>,
    news: Seq<News<E>>,
)
    requires
        files.len() == contents.len(),
        style matches Some(style) ==> pen(style, first_pen(), joined(contents)).number
            <= usize::MAX,
        from_files(style, files, contents, news),
    ensures
        ({
            let (run, first) = turn_to_file::<E>(fresh(style, files));
            let end = follow(run, news);
            &&& all_awaited(run, news)
            &&& all_performed(news)
            &&& end.style == style
            &&& end.files == files
            &&& on_track(contents, end, last_order(first, run, news), news.len(), data_read(news))
        }),
    decreases news.len(),
{
    let (run, first) = turn_to_file::<E>(fresh(style, files));
    if news.len() == 0 {
        assert(contents.take(0) =~= Seq::<Seq<u8>>::empty());
        assert(joined(contents.take(0)) =~= Seq::<u8>::empty());
        if contents.len() > 0 {
            assert(joined(contents.take(0)) + contents[0].take(0) =~= Seq::<u8>::empty());
        }
    } else {
        let front = news.drop_last();
        let last = news.last();
        lemma_from_files(style, files, contents, front);
        law_output(style, files, front);
        lemma_track_step(
            contents,
            follow(run, front),
            last_order(first, run, front),
            front.len(),
            data_read(front),
            last,
        );
        assert(data_read(news) =~= data_read(front) + part_of(last));
        assert(all_awaited(run, news));
        lemma_files_fixed(run, news);
        assert forall|i: int| 0 <= i < news.len() implies (#[trigger] news[i]) !is OpFailed by {
            if i < front.len() {
                assert(news[i] == front[i]);
            }
        }
    }
}

/// All files are put out whole and in their order, however many and however large
/// they are and however little each read brings: a run over files that can be
/// found, opened and read ends only when the text of all their contents, one after
/// the other, is put out, and it ends well. No error is told, and it ends after at
/// most two steps for each byte and four for each file.
pub proof fn law_whole_run<E>(
    style: Option<Style>,
    files: Seq<Seq<char>>,
    contents: Seq<Seq<u8>>,
    news: Seq<News<E>>,
)
    requires
        files.len() == contents.len(),
        style matches Some(style) ==> pen(style, first_pen(), joined(contents)).number
            <= usize::MAX,
        from_files(style, files, contents, news),
    ensures
        ({
            let (run, first) = turn_to_file::<E>(fresh(style, files));
            let order = last_order(first, run, news);
            &&& all_awaited(run, news)
            &&& order !is Report
            &&& order matches Order::Finish(result) ==> {
                &&& result is Ok
                &&& output(run, news) == data_text(style, first_pen(), joined(contents))
            }
            &&& news.len() > 2 * joined(contents).len() + 4 * files.len() ==> order is Finish
        }),
{
    let (run, first) = turn_to_file::<E>(fresh(style, files));
    let end = follow(run, news);
    lemma_from_files(style, files, contents, news);
    law_output(style, files, news);
    assert(contents.take(contents.len() as int) =~= contents);
    let order = last_order(first, run, news);
    if order !is Finish {
        lemma_joined_next(contents, end.at as int);
        lemma_joined_len(contents, end.at as int + 1);
    }
}

/// Some of the files have no more bytes than all.
proof fn lemma_joined_len(contents: Seq<Seq<u8>>, i: int)
    requires
        0 <= i <= contents.len(),
    ensures
        joined(contents.take(i)).len() <= joined(contents).len(),
    decreases contents.len(),
{
    if i == contents.len() {
        assert(contents.take(i) =~= contents);
    } else {
        let front = contents.drop_last();
        assert(front.take(i) =~= contents.take(i));
        lemma_joined_len(front, i);
    }
}

} // verus!
