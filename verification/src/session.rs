//! A run over all its files: what to do next, given what came of the last thing
//! that was done.

use vstd::prelude::*;

use crate::error::CatError;
#[allow(unused_imports)]
use crate::error::Fault;
#[allow(unused_imports)]
use crate::input::{access, names_stdin};
use crate::input::{choose_access, is_stdin, Access, FileKind};
#[allow(unused_imports)]
use crate::lines::{deeds, names_file, remaining_state, script, Deed};
use crate::lines::{write_file_lines, Op, OutputState, Task};
use crate::options::OutputOptions;
#[allow(unused_imports)]
use crate::text::{first_pen, pen, Pen, Style};

verus! {

/// How many bytes are asked for at once where files are copied as they are.
pub const FAST_BLOCK: usize = 65536;

/// How many bytes are asked for at once where files are written line by line.
pub const LINE_BLOCK: usize = 31744;

/// What to do next. A file is given by its place in the list of files.
#[derive(Debug)]
pub enum Action<E> {
    /// Read the file from standard input; answer [`Event::Opened`].
    UseStdin(usize),
    /// Ask the file system what the file is; answer [`Event::Kind`] or [`Event::Failed`].
    Inspect(usize),
    /// Connect to the file, which is a socket, and shut the writing half down;
    /// answer [`Event::Opened`] or [`Event::Failed`].
    Connect(usize),
    /// Open the file; answer [`Event::Opened`] or [`Event::Failed`].
    Open(usize),
    /// Read at most this many bytes; answer [`Event::Data`] or [`Event::Failed`].
    Read(usize),
    /// Perform the operations of [`Session::pending`] in order, up to the first
    /// that fails; answer [`Event::Done`] or [`Event::OpFailed`].
    Perform,
    /// Tell of the error; answer [`Event::Done`] or [`Event::Failed`].
    Report(CatError<E>),
    /// Nothing: the run is over.
    Finish(Result<(), CatError<E>>),
}

/// What came of an [`Action`]. `E` is the error of a failed operation.
#[derive(Debug)]
pub enum Event<E> {
    /// The file can be read. Tells whether it is standard input at a terminal.
    Opened(bool),
    /// What the file system says of the file.
    Kind(FileKind),
    /// What was read; nothing, at the end of the file.
    Data(Vec<u8>),
    /// It was done. Of operations that end with a flush, this says that all that
    /// was written is out.
    Done,
    /// It failed.
    Failed(E),
    /// The operation at this place of the list failed; those before it were performed.
    OpFailed(usize, E),
}

/// What an [`Action`] says.
pub enum Order<E> {
    UseStdin(nat),
    Inspect(nat),
    Connect(nat),
    Open(nat),
    Read(nat),
    Perform,
    Report(Fault<E>),
    Finish(Result<(), Fault<E>>),
}

/// What an [`Event`] says.
pub enum News<E> {
    Opened(bool),
    Kind(FileKind),
    Data(Seq<u8>),
    Done,
    Failed(E),
    OpFailed(nat, E),
}

impl<E> View for Action<E> {
    type V = Order<E>;

    open spec fn view(&self) -> Order<E> {
        match *self {
            Action::UseStdin(i) => Order::UseStdin(i as nat),
            Action::Inspect(i) => Order::Inspect(i as nat),
            Action::Connect(i) => Order::Connect(i as nat),
            Action::Open(i) => Order::Open(i as nat),
            Action::Read(n) => Order::Read(n as nat),
            Action::Perform => Order::Perform,
            Action::Report(error) => Order::Report(error@),
            Action::Finish(Ok(())) => Order::Finish(Ok(())),
            Action::Finish(Err(error)) => Order::Finish(Err(error@)),
        }
    }
}

impl<E> View for Event<E> {
    type V = News<E>;

    open spec fn view(&self) -> News<E> {
        match *self {
            Event::Opened(interactive) => News::Opened(interactive),
            Event::Kind(kind) => News::Kind(kind),
            Event::Data(data) => News::Data(data@),
            Event::Done => News::Done,
            Event::Failed(err) => News::Failed(err),
            Event::OpFailed(i, err) => News::OpFailed(i as nat, err),
        }
    }
}

/// What a run is waiting for.
pub enum Stage {
    /// Nothing: no run has begun.
    Idle,
    /// What the file system says of the file.
    Inspecting,
    /// That the file can be read.
    Opening,
    /// Bytes of the file.
    Reading { interactive: bool },
    /// That the operations are performed; with `last`, the file comes to its end
    /// with them.
    Performing { interactive: bool, last: bool, deeds: Seq<Deed> },
    /// That the error of the file is told.
    Reporting,
    /// Nothing: the run is over.
    Finished,
}

/// Where a run stands.
pub struct Run {
    /// How lines are written, or `None` where the files are copied as they are.
    pub style: Option<Style>,
    /// The paths of the files.
    pub files: Seq<Seq<char>>,
    /// The place of the current file.
    pub at: nat,
    /// How many files have failed.
    pub errors: nat,
    /// Where the output stands.
    pub pen: Pen,
    /// What is waited for.
    pub stage: Stage,
}

impl Run {
    /// What holds of every run.
    pub open spec fn wf(self) -> bool {
        &&& self.errors <= self.at <= self.files.len()
        &&& self.stage !is Idle && self.stage !is Finished ==> self.at < self.files.len()
    }

    /// The path of the current file.
    pub open spec fn path(self) -> Seq<char> {
        self.files[self.at as int]
    }

    /// The same run, waiting for something else.
    pub open spec fn to(self, stage: Stage) -> Run {
        Run { stage, ..self }
    }

    /// The same run, with the next file to come.
    pub open spec fn past_file(self) -> Run {
        Run { at: self.at + 1, ..self }
    }

    /// How many bytes are asked for at once.
    pub open spec fn block_size(self) -> nat {
        if self.style is None {
            FAST_BLOCK as nat
        } else {
            LINE_BLOCK as nat
        }
    }
}

/// A run at its very start: at the first file, with no error and no output.
pub open spec fn fresh(style: Option<Style>, files: Seq<Seq<char>>) -> Run {
    Run { style, files, at: 0, errors: 0, pen: first_pen(), stage: Stage::Idle }
}

/// What a run answers once all files are through: the number of failed files,
/// where there are any.
pub open spec fn outcome<E>(errors: nat) -> Result<(), Fault<E>> {
    if errors == 0 {
        Ok(())
    } else {
        Err(Fault::EncounteredErrors(errors))
    }
}

/// Turning to the current file, or ending the run where there is none left.
pub open spec fn turn_to_file<E>(run: Run) -> (Run, Order<E>) {
    if run.at >= run.files.len() {
        (run.to(Stage::Finished), Order::Finish(outcome(run.errors)))
    } else if names_stdin(run.path()) {
        (run.to(Stage::Opening), Order::UseStdin(run.at))
    } else {
        (run.to(Stage::Inspecting), Order::Inspect(run.at))
    }
}

/// Giving the current file up.
pub open spec fn give_up<E>(run: Run, fault: Fault<E>) -> (Run, Order<E>) {
    (run.to(Stage::Reporting), Order::Report(fault))
}

/// Whether the run is waiting for such news. A line number that no machine
/// integer holds is ruled out.
pub open spec fn awaits<E>(run: Run, news: News<E>) -> bool {
    match (run.stage, news) {
        (Stage::Inspecting, News::Kind(_)) => true,
        (Stage::Inspecting, News::Failed(_)) => true,
        (Stage::Opening, News::Opened(_)) => true,
        (Stage::Opening, News::Failed(_)) => !names_stdin(run.path()),
        (Stage::Reading { .. }, News::Data(data)) => match run.style {
            None => true,
            Some(style) => pen(style, run.pen, data).number <= usize::MAX,
        },
        (Stage::Reading { .. }, News::Failed(_)) => true,
        (Stage::Performing { .. }, News::Done) => true,
        (Stage::Performing { deeds, .. }, News::OpFailed(i, _)) => i < deeds.len(),
        (Stage::Reporting, News::Done) => true,
        (Stage::Reporting, News::Failed(_)) => true,
        _ => false,
    }
}

/// The current file was inspected.
pub open spec fn after_inspection<E>(run: Run, answer: Result<FileKind, E>) -> (Run, Order<E>) {
    match access(run.path(), answer) {
        Err(fault) => give_up(run, fault),
        Ok(Access::Connect) => (run.to(Stage::Opening), Order::Connect(run.at)),
        Ok(Access::Open) => (run.to(Stage::Opening), Order::Open(run.at)),
    }
}

/// The current file can be read. Only standard input is ever watched.
pub open spec fn after_opening<E>(run: Run, interactive: bool) -> (Run, Order<E>) {
    (
        run.to(Stage::Reading { interactive: interactive && names_stdin(run.path()) }),
        Order::Read(run.block_size()),
    )
}

/// A block that is not empty was read from the current file.
pub open spec fn after_block<E>(run: Run, interactive: bool, block: Seq<u8>) -> (Run, Order<E>) {
    match run.style {
        None => (
            run.to(
                Stage::Performing {
                    interactive,
                    last: false,
                    deeds: seq![Deed::Write { bytes: block, names_file: true, state: run.pen }],
                },
            ),
            Order::Perform,
        ),
        Some(style) => (
            Run {
                pen: pen(style, run.pen, block),
                stage: Stage::Performing {
                    interactive,
                    last: false,
                    deeds: script(style, interactive, run.pen, block),
                },
                ..run
            },
            Order::Perform,
        ),
    }
}

/// The current file was read to its end. Where it was written line by line, what
/// was written is flushed before the next file comes.
pub open spec fn after_end<E>(run: Run, interactive: bool) -> (Run, Order<E>) {
    if run.style is None {
        turn_to_file(run.past_file())
    } else {
        (
            run.to(
                Stage::Performing {
                    interactive,
                    last: true,
                    deeds: seq![Deed::Flush { names_file: false, state: run.pen }],
                },
            ),
            Order::Perform,
        )
    }
}

/// The operations were performed: more of the file is read, or the next one comes.
pub open spec fn after_deeds<E>(run: Run, interactive: bool, last: bool) -> (Run, Order<E>) {
    if last {
        turn_to_file(run.past_file())
    } else {
        (run.to(Stage::Reading { interactive }), Order::Read(run.block_size()))
    }
}

/// An operation failed: the file is given up, and the state is that of the operation.
pub open spec fn after_failed_deed<E>(run: Run, deed: Deed, err: E) -> (Run, Order<E>) {
    give_up(
        Run { pen: remaining_state(deed), ..run },
        if names_file(deed) {
            Fault::Input(err, run.path())
        } else {
            Fault::Output(err)
        },
    )
}

/// The error of the current file was told: it counts, and the next file comes.
pub open spec fn after_report<E>(run: Run) -> (Run, Order<E>) {
    turn_to_file(Run { errors: run.errors + 1, ..run }.past_file())
}

/// The error of the current file could not be told: the run ends there.
pub open spec fn after_failed_report<E>(run: Run, err: E) -> (Run, Order<E>) {
    (
        run.to(Stage::Finished),
        Order::Finish(
            Err(
                if run.style is None {
                    Fault::Output(err)
                } else {
                    Fault::Input(err, run.path())
                },
            ),
        ),
    )
}

/// What a run does next on news that it awaits, and where it stands then.
pub open spec fn next<E>(run: Run, news: News<E>) -> (Run, Order<E>) {
    match (run.stage, news) {
        (Stage::Inspecting, News::Kind(kind)) => after_inspection(run, Ok(kind)),
        (Stage::Inspecting, News::Failed(err)) => after_inspection(run, Err(err)),
        (Stage::Opening, News::Opened(interactive)) => after_opening(run, interactive),
        (Stage::Opening, News::Failed(err)) => give_up(run, Fault::Input(err, run.path())),
        (Stage::Reading { interactive }, News::Data(data)) => if data.len() == 0 {
            after_end(run, interactive)
        } else {
            after_block(run, interactive, data)
        },
        (Stage::Reading { .. }, News::Failed(err)) => give_up(run, Fault::Input(err, run.path())),
        (Stage::Performing { interactive, last, .. }, News::Done) => after_deeds(
            run,
            interactive,
            last,
        ),
        (Stage::Performing { deeds, .. }, News::OpFailed(i, err)) => after_failed_deed(
            run,
            deeds[i as int],
            err,
        ),
        (Stage::Reporting, News::Done) => after_report(run),
        (Stage::Reporting, News::Failed(err)) => after_failed_report(run, err),
        _ => arbitrary(),
    }
}

/// What a [`Session`] is waiting for.
#[derive(Clone, Copy, PartialEq, Eq, Structural)]
enum Phase {
    Idle,
    Inspecting,
    Opening,
    Reading,
    Performing,
    Reporting,
    Finished,
}

/// A run over a list of files.
pub struct Session<'a> {
    options: Option<OutputOptions<'a>>,
    files: Vec<String>,
    at: usize,
    errors: usize,
    state: OutputState,
    phase: Phase,
    interactive: bool,
    last: bool,
    ops: Vec<Op>,
}

/// The paths of a list, each as a sequence of characters.
pub open spec fn paths(files: Seq<String>) -> Seq<Seq<char>> {
    files.map_values(|file: String| file@)
}

/// The style of options, where there are any.
pub open spec fn style_of(options: Option<OutputOptions<'_>>) -> Option<Style> {
    match options {
        None => None,
        Some(options) => Some(options.style()),
    }
}

impl<'a> View for Session<'a> {
    type V = Run;

    closed spec fn view(&self) -> Run {
        Run {
            style: style_of(self.options),
            files: paths(self.files@),
            at: self.at as nat,
            errors: self.errors as nat,
            pen: self.state@,
            stage: match self.phase {
                Phase::Idle => Stage::Idle,
                Phase::Inspecting => Stage::Inspecting,
                Phase::Opening => Stage::Opening,
                Phase::Reading => Stage::Reading { interactive: self.interactive },
                Phase::Performing => Stage::Performing {
                    interactive: self.interactive,
                    last: self.last,
                    deeds: deeds(self.ops@),
                },
                Phase::Reporting => Stage::Reporting,
                Phase::Finished => Stage::Finished,
            },
        }
    }
}

impl<'a> Session<'a> {
    /// A run that has not begun. With `options` it writes line by line, without
    /// it copies the files as they are.
    pub fn new(options: Option<OutputOptions<'a>>, files: Vec<String>) -> (session: Session<'a>)
        ensures
            session@ == fresh(style_of(options), paths(files@)),
            session@.wf(),
            session@.files.len() == files@.len(),
            forall|i: int| 0 <= i < files@.len() ==> #[trigger] session@.files[i] == files@[i]@,
            options is None ==> session@.style is None,
            options matches Some(options) ==> session@.style == Some(options.style()),
    {
        Session {
            options,
            files,
            at: 0,
            errors: 0,
            state: OutputState::new(),
            phase: Phase::Idle,
            interactive: false,
            last: false,
            ops: Vec::new(),
        }
    }

    /// Begins the run.
    pub fn begin<E>(&mut self) -> (action: Action<E>)
        requires
            old(self)@.wf(),
            old(self)@.stage is Idle,
        ensures
            (final(self)@, action@) == turn_to_file::<E>(old(self)@),
            final(self)@.wf(),
    {
        self.turn_to_file()
    }

    fn turn_to_file<E>(&mut self) -> (action: Action<E>)
        requires
            old(self)@.errors <= old(self)@.at <= old(self)@.files.len(),
        ensures
            (final(self)@, action@) == turn_to_file::<E>(old(self)@),
            final(self)@.wf(),
    {
        if self.at >= self.files.len() {
            self.phase = Phase::Finished;
            if self.errors == 0 {
                Action::Finish(Ok(()))
            } else {
                Action::Finish(Err(CatError::EncounteredErrors(self.errors)))
            }
        } else if is_stdin(self.files[self.at].as_str()) {
            self.phase = Phase::Opening;
            Action::UseStdin(self.at)
        } else {
            self.phase = Phase::Inspecting;
            Action::Inspect(self.at)
        }
    }

    /// The operations to perform, while the last action is [`Action::Perform`].
    pub fn pending(&self) -> (ops: &Vec<Op>)
        ensures
            self@.stage matches Stage::Performing { deeds: listed, .. } ==> deeds(ops@) == listed,
            self@.stage matches Stage::Performing { deeds: listed, .. } ==> ops@.len()
                == listed.len() && forall|i: int|
                0 <= i < ops@.len() ==> match (#[trigger] ops@[i]).task {
                    Task::Write(bytes) => listed[i] matches Deed::Write {
                        bytes: told,
                        names_file,
                        state,
                    } && told == bytes@ && names_file == ops@[i].names_file && state
                        == ops@[i].state@,
                    Task::Flush => listed[i] matches Deed::Flush { names_file, state }
                        && names_file == ops@[i].names_file && state == ops@[i].state@,
                },
    {
        &self.ops
    }

    /// Whether the files are copied as they are, and not written line by line.
    pub fn copies(&self) -> (copies: bool)
        ensures
            copies == (self@.style is None),
    {
        self.options.is_none()
    }

    /// Where the output stands.
    pub fn state(&self) -> (state: OutputState)
        ensures
            state@ == self@.pen,
            state.line_number == self@.pen.number,
            state.at_line_start == self@.pen.at_start,
            state.one_blank_kept == self@.pen.kept,
    {
        self.state
    }

    fn path(&self) -> (path: String)
        requires
            self@.at < self@.files.len(),
        ensures
            path@ == self@.path(),
    {
        self.files[self.at].clone()
    }

    fn give_up<E>(&mut self, error: CatError<E>) -> (action: Action<E>)
        ensures
            (final(self)@, action@) == give_up::<E>(old(self)@, error@),
    {
        self.phase = Phase::Reporting;
        Action::Report(error)
    }

    fn input_failed<E>(&mut self, err: E) -> (action: Action<E>)
        requires
            old(self)@.at < old(self)@.files.len(),
        ensures
            (final(self)@, action@) == give_up::<E>(
                old(self)@,
                Fault::Input(err, old(self)@.path()),
            ),
    {
        let error = CatError::Input(err, self.path());
        self.give_up(error)
    }

    fn read<E>(&mut self) -> (action: Action<E>)
        ensures
            final(self)@ == old(self)@.to(
                Stage::Reading { interactive: old(self).interactive },
            ),
            action@ == Order::<E>::Read(old(self)@.block_size()),
    {
        self.phase = Phase::Reading;
        match self.options {
            None => Action::Read(FAST_BLOCK),
            Some(_) => Action::Read(LINE_BLOCK),
        }
    }

    fn inspected<E>(&mut self, answer: Result<FileKind, E>) -> (action: Action<E>)
        requires
            old(self)@.at < old(self)@.files.len(),
        ensures
            (final(self)@, action@) == after_inspection::<E>(old(self)@, answer),
    {
        match choose_access(self.files[self.at].as_str(), answer) {
            Err(error) => self.give_up(error),
            Ok(Access::Connect) => {
                self.phase = Phase::Opening;
                Action::Connect(self.at)
            },
            Ok(Access::Open) => {
                self.phase = Phase::Opening;
                Action::Open(self.at)
            },
        }
    }

    fn opened<E>(&mut self, interactive: bool) -> (action: Action<E>)
        requires
            old(self)@.at < old(self)@.files.len(),
        ensures
            (final(self)@, action@) == after_opening::<E>(old(self)@, interactive),
    {
        self.interactive = interactive && is_stdin(self.files[self.at].as_str());
        self.read()
    }

    fn next_file<E>(&mut self) -> (action: Action<E>)
        requires
            old(self)@.errors <= old(self)@.at < old(self)@.files.len(),
        ensures
            (final(self)@, action@) == turn_to_file::<E>(old(self)@.past_file()),
            final(self)@.wf(),
    {
        assert(self.at < self.files.len());
        self.at = self.at + 1;
        self.turn_to_file()
    }

    fn ended<E>(&mut self) -> (action: Action<E>)
        requires
            old(self)@.wf(),
            old(self)@.stage is Reading,
        ensures
            (final(self)@, action@) == after_end::<E>(
                old(self)@,
                old(self)@.stage->Reading_interactive,
            ),
            final(self)@.wf(),
    {
        if self.options.is_none() {
            return self.next_file();
        }
        let mut ops: Vec<Op> = Vec::new();
        ops.push(Op { task: Task::Flush, names_file: false, state: self.state });
        self.ops = ops;
        assert(deeds(self.ops@) =~= seq![
            Deed::Flush { names_file: false, state: self.state@ },
        ]);
        self.last = true;
        self.phase = Phase::Performing;
        Action::Perform
    }

    fn received<E>(&mut self, data: Vec<u8>) -> (action: Action<E>)
        requires
            old(self)@.wf(),
            old(self)@.stage is Reading,
            awaits(old(self)@, News::<E>::Data(data@)),
        ensures
            (final(self)@, action@) == next::<E>(old(self)@, News::Data(data@)),
            final(self)@.wf(),
    {
        if data.len() == 0 {
            return self.ended();
        }
        match self.options {
            None => {
                let mut ops: Vec<Op> = Vec::new();
                ops.push(Op { task: Task::Write(data), names_file: true, state: self.state });
                self.ops = ops;
                assert(deeds(self.ops@) =~= seq![
                    Deed::Write { bytes: data@, names_file: true, state: self.state@ },
                ]);
            },
            Some(options) => {
                let mut state = self.state;
                self.ops = write_file_lines(
                    data.as_slice(),
                    self.interactive,
                    &options,
                    &mut state,
                );
                self.state = state;
            },
        }
        self.last = false;
        self.phase = Phase::Performing;
        Action::Perform
    }

    fn op_failed<E>(&mut self, i: usize, err: E) -> (action: Action<E>)
        requires
            old(self)@.wf(),
            old(self)@.stage is Performing,
            awaits(old(self)@, News::OpFailed(i as nat, err)),
        ensures
            (final(self)@, action@) == next::<E>(old(self)@, News::OpFailed(i as nat, err)),
            final(self)@.wf(),
    {
        let named = self.ops[i].names_file;
        self.state = self.ops[i].state;
        let error = if named {
            CatError::Input(err, self.path())
        } else {
            CatError::Output(err)
        };
        self.give_up(error)
    }

    fn report_failed<E>(&mut self, err: E) -> (action: Action<E>)
        requires
            old(self)@.wf(),
            old(self)@.stage is Reporting,
        ensures
            (final(self)@, action@) == after_failed_report::<E>(old(self)@, err),
            final(self)@.wf(),
    {
        self.phase = Phase::Finished;
        match self.options {
            None => Action::Finish(Err(CatError::Output(err))),
            Some(_) => Action::Finish(Err(CatError::Input(err, self.path()))),
        }
    }

    /// Goes on with the run, given what came of the last action.
    pub fn resume<E>(&mut self, event: Event<E>) -> (action: Action<E>)
        requires
            old(self)@.wf(),
            awaits(old(self)@, event@),
        ensures
            (final(self)@, action@) == next::<E>(old(self)@, event@),
            final(self)@.wf(),
    {
        match (self.phase, event) {
            (Phase::Inspecting, Event::Kind(kind)) => self.inspected(Ok(kind)),
            (Phase::Inspecting, Event::Failed(err)) => self.inspected(Err(err)),
            (Phase::Opening, Event::Opened(interactive)) => self.opened(interactive),
            (Phase::Opening, Event::Failed(err)) => self.input_failed(err),
            (Phase::Reading, Event::Data(data)) => self.received(data),
            (Phase::Reading, Event::Failed(err)) => self.input_failed(err),
            (Phase::Performing, Event::Done) => if self.last {
                self.next_file()
            } else {
                self.read()
            },
            (Phase::Performing, Event::OpFailed(i, err)) => self.op_failed(i, err),
            (Phase::Reporting, Event::Done) => {
                assert(self.at < self.files.len());
                self.errors = self.errors + 1;
                self.at = self.at + 1;
                self.turn_to_file()
            },
            (Phase::Reporting, Event::Failed(err)) => self.report_failed(err),
            _ => vstd::pervasive::unreached(),
        }
    }
}

/// An action says what is to be done, and of which file or of how many bytes.
pub proof fn law_action<E>(action: Action<E>)
    ensures
        match action {
            Action::UseStdin(i) => action@ == Order::<E>::UseStdin(i as nat),
            Action::Inspect(i) => action@ == Order::<E>::Inspect(i as nat),
            Action::Connect(i) => action@ == Order::<E>::Connect(i as nat),
            Action::Open(i) => action@ == Order::<E>::Open(i as nat),
            Action::Read(n) => action@ == Order::<E>::Read(n as nat),
            Action::Perform => action@ == Order::<E>::Perform,
            Action::Report(error) => action@ == Order::Report(error@),
            Action::Finish(Ok(())) => action@ == Order::<E>::Finish(Ok(())),
            Action::Finish(Err(error)) => action@ == Order::<E>::Finish(Err(error@)),
        },
{
}

/// An event says what came of an action: all bytes that were read, and which
/// operation failed.
pub proof fn law_event<E>(event: Event<E>)
    ensures
        match event {
            Event::Opened(interactive) => event@ == News::<E>::Opened(interactive),
            Event::Kind(kind) => event@ == News::<E>::Kind(kind),
            Event::Data(data) => event@ == News::<E>::Data(data@),
            Event::Done => event@ == News::<E>::Done,
            Event::Failed(err) => event@ == News::Failed(err),
            Event::OpFailed(i, err) => event@ == News::OpFailed(i as nat, err),
        },
{
}

} // verus!
