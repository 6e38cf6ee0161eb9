use cat::cat::{run, Cat};
use cat::error::CatError;
use cat::input::FileKind;
use cat::lines::{OutputState, Task};
use cat::options::OutputOptions;
use cat::session::{Action, Event, Session, FAST_BLOCK, LINE_BLOCK};
use cat::text::NumberingMode;

/// What is found when a file is turned to.
#[derive(Clone)]
enum Found {
    /// A file with these blocks.
    File(Vec<Vec<u8>>),
    /// A file of which reading fails after these blocks.
    Torn(Vec<Vec<u8>>),
    Socket(Vec<Vec<u8>>),
    Directory,
    Unknown,
    Missing,
    Forbidden,
}

fn nothing() -> FileKind {
    FileKind {
        block_device: false,
        char_device: false,
        fifo: false,
        socket: false,
        dir: false,
        file: false,
        symlink: false,
    }
}

/// A stage on which a run is played: output, reports and how many writes succeed.
struct Stage {
    found: Vec<Found>,
    watched: bool,
    writes: usize,
    reports: usize,
    out: Vec<u8>,
    flushes: usize,
    told: Vec<String>,
    opened: Vec<usize>,
    states: Vec<OutputState>,
}

impl Stage {
    fn new(found: Vec<Found>) -> Stage {
        Stage {
            found,
            watched: false,
            writes: usize::MAX,
            reports: usize::MAX,
            out: Vec::new(),
            flushes: 0,
            told: Vec::new(),
            opened: Vec::new(),
            states: Vec::new(),
        }
    }

    fn perform(&mut self, session: &Session) -> Event<&'static str> {
        for (i, op) in session.pending().iter().enumerate() {
            if self.writes == 0 {
                return Event::OpFailed(i, "full");
            }
            self.writes -= 1;
            match &op.task {
                Task::Write(bytes) => self.out.extend_from_slice(bytes),
                Task::Flush => self.flushes += 1,
            }
        }
        Event::Done
    }

    /// Plays a run to its end.
    fn play(
        &mut self,
        session: &mut Session,
        first: Action<&'static str>,
    ) -> Result<(), CatError<&'static str>> {
        let mut blocks: Vec<Vec<u8>> = Vec::new();
        let mut torn = false;
        let mut action = first;
        loop {
            let event = match action {
                Action::UseStdin(i) | Action::Open(i) | Action::Connect(i) => {
                    self.opened.push(i);
                    torn = false;
                    match self.found[i].clone() {
                        Found::File(b) | Found::Socket(b) => {
                            blocks = b;
                            Event::Opened(self.watched)
                        }
                        Found::Torn(b) => {
                            blocks = b;
                            torn = true;
                            Event::Opened(self.watched)
                        }
                        _ => Event::Failed("forbidden"),
                    }
                }
                Action::Inspect(i) => match self.found[i] {
                    Found::File(_) | Found::Torn(_) | Found::Forbidden => {
                        Event::Kind(FileKind { file: true, ..nothing() })
                    }
                    Found::Socket(_) => Event::Kind(FileKind { socket: true, ..nothing() }),
                    Found::Directory => Event::Kind(FileKind { dir: true, ..nothing() }),
                    Found::Unknown => Event::Kind(nothing()),
                    Found::Missing => Event::Failed("missing"),
                },
                Action::Read(_) => {
                    if !blocks.is_empty() {
                        Event::Data(blocks.remove(0))
                    } else if torn {
                        Event::Failed("torn")
                    } else {
                        Event::Data(Vec::new())
                    }
                }
                Action::Perform => self.perform(session),
                Action::Report(error) => {
                    self.states.push(session.state());
                    if self.reports == 0 {
                        Event::Failed("silent")
                    } else {
                        self.reports -= 1;
                        let cause = error.cause().map_or("", |c| *c);
                        self.told.push(error.message(cause));
                        Event::Done
                    }
                }
                Action::Finish(result) => return result,
            };
            action = session.resume(event);
        }
    }
}

fn file(text: &[u8]) -> Found {
    Found::File(vec![text.to_vec()])
}

fn names(list: &[&str]) -> Vec<String> {
    list.iter().map(|name| name.to_string()).collect()
}

/// Plays a run over files on a stage.
fn play(
    stage: &mut Stage,
    files: &[&str],
    options: OutputOptions<'static>,
) -> Result<(), CatError<&'static str>> {
    let (mut cat, action) = run((), names(files), options);
    stage.play(&mut cat.session, action)
}

fn numbered() -> OutputOptions<'static> {
    OutputOptions { number: NumberingMode::NumberAll, ..OutputOptions::default() }
}

#[test]
fn files_are_concatenated() {
    let mut stage = Stage::new(vec![file(b"a\nb"), file(b""), file(b"\xffc\n")]);
    stage.found[1] = Found::File(vec![]);
    assert!(play(&mut stage, &["x", "y", "z"], OutputOptions::default()).is_ok());
    assert_eq!(stage.out, b"a\nb\xffc\n");
    assert_eq!(stage.opened, vec![0, 1, 2]);
}

#[test]
fn no_file_at_all() {
    let mut stage = Stage::new(vec![]);
    assert!(play(&mut stage, &[], OutputOptions::default()).is_ok());
    assert!(stage.out.is_empty());
}

#[test]
fn numbers_go_on_from_file_to_file() {
    let mut stage = Stage::new(vec![file(b"a\n"), file(b"b\nc"), file(b"d\n")]);
    assert!(play(&mut stage, &["x", "y", "z"], numbered()).is_ok());
    assert_eq!(stage.out, b"     1\ta\n     2\tb\n     3\tcd\n");
}

#[test]
fn empty_lines_are_squeezed_where_files_meet() {
    let options = OutputOptions { squeeze_blank: true, ..OutputOptions::default() };
    let mut stage = Stage::new(vec![file(b"a\n\n"), file(b"\nb\n")]);
    assert!(play(&mut stage, &["x", "y"], options).is_ok());
    assert_eq!(stage.out, b"a\n\nb\n");
    let mut stage = Stage::new(vec![file(b"a"), file(b"\n\nb\n")]);
    assert!(play(&mut stage, &["x", "y"], options).is_ok());
    assert_eq!(stage.out, b"a\n\nb\n");
}

#[test]
fn squeezed_lines_are_not_counted_over_all_files() {
    let options = OutputOptions { squeeze_blank: true, ..numbered() };
    let mut stage = Stage::new(vec![file(b"a\n\n"), file(b"\n\nb\n")]);
    assert!(play(&mut stage, &["x", "y"], options).is_ok());
    assert_eq!(stage.out, b"     1\ta\n     2\t\n     3\tb\n");
}

#[test]
fn the_fast_way_and_lines_put_the_same_out() {
    let found = vec![
        Found::File(vec![b"a\n\n".to_vec(), b"\n\tb".to_vec()]),
        file(b"\nc\x80\n"),
    ];
    let mut fast = Stage::new(found.clone());
    let mut cat = Cat::new(());
    let action = cat.write_fast(names(&["x", "y"]));
    assert!(cat.session.copies());
    assert!(fast.play(&mut cat.session, action).is_ok());
    let mut lines = Stage::new(found);
    let options = OutputOptions::default().with_texts();
    let action = cat.write_lines(names(&["x", "y"]), &options);
    assert!(!cat.session.copies());
    assert!(lines.play(&mut cat.session, action).is_ok());
    assert_eq!(fast.out, b"a\n\n\n\tb\nc\x80\n");
    assert_eq!(fast.out, lines.out);
}

#[test]
fn setup_is_kept() {
    let mut cat = Cat::new(17);
    assert_eq!(cat.setup, 17);
    let _: Action<u8> = cat.write_fast(names(&["x"]));
    assert_eq!(cat.setup, 17);
    let (cat, _): (Cat<i32>, Action<u8>) = run(18, names(&[]), numbered());
    assert_eq!(cat.setup, 18);
}

#[test]
fn first_actions_and_block_sizes() {
    let mut cat = Cat::new(());
    let first: Action<u8> = cat.write_fast(names(&["-"]));
    assert!(matches!(first, Action::UseStdin(0)));
    let next: Action<u8> = cat.session.resume(Event::Opened(true));
    assert!(matches!(next, Action::Read(FAST_BLOCK)));
    assert_eq!(FAST_BLOCK, 64 * 1024);
    let first: Action<u8> = cat.write_lines(names(&["x"]), &OutputOptions::default());
    assert!(matches!(first, Action::Inspect(0)));
    let next: Action<u8> = cat.session.resume(Event::Kind(FileKind { socket: true, ..nothing() }));
    assert!(matches!(next, Action::Connect(0)));
    let next: Action<u8> = cat.session.resume(Event::Opened(false));
    assert!(matches!(next, Action::Read(LINE_BLOCK)));
    assert_eq!(LINE_BLOCK, 31 * 1024);
    let first: Action<u8> = cat.write_fast(names(&[]));
    assert!(matches!(first, Action::Finish(Ok(()))));
}

#[test]
fn errors_do_not_stop_the_run() {
    let mut stage = Stage::new(vec![
        Found::Missing,
        file(b"a"),
        Found::Directory,
        Found::Unknown,
        Found::Forbidden,
        Found::Socket(vec![b"b".to_vec()]),
    ]);
    let result = play(&mut stage, &["m", "f", "d", "u", "n", "s"], OutputOptions::default());
    assert!(matches!(result, Err(CatError::EncounteredErrors(4))));
    assert_eq!(stage.out, b"ab");
    assert_eq!(
        stage.told,
        vec!["m: missing", "d: Is a directory", "u: unknown filetype", "n: forbidden"]
    );
}

#[test]
fn a_failed_read_is_an_error() {
    let mut stage = Stage::new(vec![Found::Torn(vec![b"ab".to_vec()])]);
    let result = play(&mut stage, &["-"], OutputOptions::default());
    assert!(matches!(result, Err(CatError::EncounteredErrors(1))));
    assert_eq!(stage.out, b"ab");
    assert_eq!(stage.told, vec!["-: torn"]);
    let mut stage = Stage::new(vec![Found::Torn(vec![b"a".to_vec()]), file(b"b")]);
    let result = play(&mut stage, &["x", "y"], numbered());
    assert!(matches!(result, Err(CatError::EncounteredErrors(1))));
    assert_eq!(stage.out, b"     1\tab");
    assert_eq!(stage.told, vec!["x: torn"]);
}

#[test]
fn what_was_written_is_flushed_at_the_end_of_a_file() {
    let mut stage = Stage::new(vec![file(b"a"), file(b"b")]);
    assert!(play(&mut stage, &["x", "y"], numbered()).is_ok());
    assert_eq!(stage.flushes, 2);
    let mut stage = Stage::new(vec![file(b"a"), file(b"b")]);
    stage.writes = 2;
    let result = play(&mut stage, &["x", "y"], numbered());
    assert!(matches!(result, Err(CatError::EncounteredErrors(2))));
    assert_eq!(stage.out, b"     1\ta");
    assert_eq!(stage.told, vec!["full", "full"]);
    let mut stage = Stage::new(vec![file(b"a")]);
    assert!(play(&mut stage, &["x"], OutputOptions::default()).is_ok());
    assert_eq!(stage.flushes, 0);
}

#[test]
fn a_failure_inside_a_line_leaves_what_came_before_it() {
    let options = OutputOptions { show_nonprint: true, ..OutputOptions::default() };
    let mut stage = Stage::new(vec![file(b"\x01b\xff\n")]);
    stage.writes = 2;
    assert!(play(&mut stage, &["x"], options).is_err());
    assert_eq!(stage.out, b"^Ab");
    assert_eq!(stage.told, vec!["full"]);
}

#[test]
fn a_failed_copy_names_the_file() {
    let mut stage = Stage::new(vec![file(b"a"), file(b"b")]);
    stage.writes = 1;
    let result = play(&mut stage, &["x", "y"], OutputOptions::default());
    assert!(matches!(result, Err(CatError::EncounteredErrors(1))));
    assert_eq!(stage.told, vec!["y: full"]);
}

#[test]
fn a_failed_write_of_a_line_does_not_name_the_file() {
    let mut stage = Stage::new(vec![file(b"a\nb\n")]);
    stage.writes = 4;
    let result = play(&mut stage, &["x"], numbered());
    assert!(matches!(result, Err(CatError::EncounteredErrors(1))));
    assert_eq!(stage.told, vec!["full"]);
    assert_eq!(stage.out, b"     1\ta\n     2\t");
    assert_eq!(stage.states, vec![OutputState { line_number: 3, at_line_start: true, one_blank_kept: false }]);
}

#[test]
fn a_failed_flush_names_the_file_after_an_empty_line_only() {
    let options = OutputOptions { show_ends: true, ..OutputOptions::default() };
    let mut stage = Stage::new(vec![file(b"\na\n")]);
    stage.watched = true;
    stage.writes = 1;
    assert!(play(&mut stage, &["-"], options).is_err());
    assert_eq!(stage.told, vec!["-: full"]);
    let mut stage = Stage::new(vec![file(b"\na\n")]);
    stage.watched = true;
    stage.writes = 4;
    assert!(play(&mut stage, &["-"], options).is_err());
    assert_eq!(stage.told, vec!["full"]);
    assert_eq!(stage.flushes, 1);
}

#[test]
fn only_standard_input_is_watched() {
    let options = OutputOptions { show_ends: true, ..OutputOptions::default() };
    let mut stage = Stage::new(vec![file(b"a\n\n"), file(b"b\n")]);
    stage.watched = true;
    assert!(play(&mut stage, &["-", "x"], options).is_ok());
    // Two lines of standard input, and the end of each file.
    assert_eq!(stage.flushes, 4);
    assert_eq!(stage.out, b"a$\n$\nb$\n");
}

#[test]
fn an_error_that_cannot_be_told_ends_the_run() {
    let found = vec![Found::Missing, file(b"a")];
    let mut stage = Stage::new(found.clone());
    stage.reports = 0;
    let result = play(&mut stage, &["x", "y"], OutputOptions::default());
    assert!(matches!(result, Err(CatError::Output("silent"))));
    assert!(stage.out.is_empty());
    let mut stage = Stage::new(found);
    stage.reports = 0;
    match play(&mut stage, &["x", "y"], numbered()) {
        Err(CatError::Input("silent", path)) => assert_eq!(path, "x"),
        other => panic!("{:?}", other),
    }
}

#[test]
fn an_empty_line_is_kept_only_at_the_start_of_a_line() {
    let options = OutputOptions { squeeze_blank: true, show_nonprint: true, ..numbered() };
    for writes in 0..12 {
        let mut stage = Stage::new(vec![file(b"a"), file(b"\n\n\nb\x01"), file(b"\n\n")]);
        stage.watched = true;
        stage.writes = writes;
        assert!(play(&mut stage, &["-", "-", "-"], options).is_err());
        assert!(!stage.states.is_empty());
        assert!(stage.states.iter().all(|s| !s.one_blank_kept || s.at_line_start));
    }
}

#[test]
fn failed_files_leave_the_text_of_what_was_read() {
    let options = OutputOptions { squeeze_blank: true, ..numbered() };
    let mut stage = Stage::new(vec![
        Found::Torn(vec![b"a\n".to_vec(), b"\n".to_vec()]),
        Found::Missing,
        file(b"\nb"),
        Found::Directory,
        Found::Torn(vec![b"c".to_vec()]),
        file(b"\n\n\n"),
    ]);
    let result = play(&mut stage, &["t", "m", "f", "d", "u", "g"], options);
    assert!(matches!(result, Err(CatError::EncounteredErrors(4))));
    assert_eq!(stage.out, b"     1\ta\n     2\t\n     3\tbc\n     4\t\n");
    assert_eq!(stage.told, vec!["t: torn", "m: missing", "d: Is a directory", "u: torn"]);
    assert_eq!(stage.opened, vec![0, 2, 4, 5]);
}

#[test]
fn what_was_read_is_written_or_still_to_be_written() {
    let (mut cat, first) = run::<(), &str>((), names(&["-", "-"]), numbered());
    assert!(matches!(first, Action::UseStdin(0)));
    assert!(matches!(cat.session.resume(Event::<&str>::Opened(false)), Action::Read(_)));
    let read = cat.session.resume(Event::<&str>::Data(b"a\nb".to_vec()));
    assert!(matches!(read, Action::Perform));
    let mut stage = Stage::new(vec![]);
    stage.perform(&cat.session);
    assert_eq!(stage.out, b"     1\ta\n     2\tb");
    assert!(matches!(cat.session.resume(Event::<&str>::Done), Action::Read(_)));
    assert!(matches!(cat.session.resume(Event::Failed("torn")), Action::Report(_)));
    assert!(matches!(cat.session.resume(Event::<&str>::Done), Action::UseStdin(1)));
    let state = OutputState { line_number: 3, at_line_start: false, one_blank_kept: false };
    assert_eq!(cat.session.state(), state);
}
