use cat::args::{files, files_or_stdin, flags};
use cat::cat::{execute, Cat};
use cat::options::Flags;
use cat::session::{Action, Event, FAST_BLOCK, LINE_BLOCK};
use clap::{App, Arg, ArgMatches};

fn matches(line: &[&str]) -> ArgMatches<'static> {
    let mut app = App::new("cat").arg(Arg::with_name("FILES").index(1).multiple(true));
    let switches = [
        ("show-all", "A"),
        ("number-nonblank", "b"),
        ("e", "e"),
        ("show-ends", "E"),
        ("number", "n"),
        ("squeeze-blank", "s"),
        ("t", "t"),
        ("show-tabs", "T"),
        ("show-nonprinting", "v"),
    ];
    for (name, short) in switches.iter() {
        app = app.arg(Arg::with_name(name).short(short));
    }
    let mut args = vec!["cat"];
    args.extend_from_slice(line);
    app.get_matches_from_safe(args).unwrap()
}

fn no_flags() -> Flags {
    Flags {
        show_all: false,
        number_nonblank: false,
        e: false,
        show_ends: false,
        number: false,
        squeeze_blank: false,
        t: false,
        show_tabs: false,
        show_nonprinting: false,
    }
}

#[test]
fn no_switch_is_seen_where_none_stands() {
    assert_eq!(flags(&matches(&["x"])), no_flags());
}

#[test]
fn each_switch_is_seen() {
    let seen = |switch: &str| flags(&matches(&[switch]));
    assert_eq!(seen("-A"), Flags { show_all: true, ..no_flags() });
    assert_eq!(seen("-b"), Flags { number_nonblank: true, ..no_flags() });
    assert_eq!(seen("-e"), Flags { e: true, ..no_flags() });
    assert_eq!(seen("-E"), Flags { show_ends: true, ..no_flags() });
    assert_eq!(seen("-n"), Flags { number: true, ..no_flags() });
    assert_eq!(seen("-s"), Flags { squeeze_blank: true, ..no_flags() });
    assert_eq!(seen("-t"), Flags { t: true, ..no_flags() });
    assert_eq!(seen("-T"), Flags { show_tabs: true, ..no_flags() });
    assert_eq!(seen("-v"), Flags { show_nonprinting: true, ..no_flags() });
    let two = Flags { squeeze_blank: true, number: true, ..no_flags() };
    assert_eq!(seen("-sn"), two);
}

#[test]
fn files_in_their_order() {
    assert_eq!(files(&matches(&["b", "-n", "a", "-"])), vec!["b", "a", "-"]);
}

#[test]
fn standard_input_where_no_file_is_named() {
    assert_eq!(files(&matches(&["-n"])), vec!["-"]);
    assert_eq!(files_or_stdin(None), vec!["-"]);
    assert_eq!(files_or_stdin(Some(vec!["x".to_string()])), vec!["x"]);
}

#[test]
fn a_command_line_begins_its_run() {
    let (mut cat, first): (Cat<u8>, Action<u8>) = execute(5, &matches(&[]));
    assert_eq!(cat.setup, 5);
    assert!(matches!(first, Action::UseStdin(0)));
    let next: Action<u8> = cat.session.resume(Event::Opened(false));
    assert!(matches!(next, Action::Read(FAST_BLOCK)));

    let (mut cat, first): (Cat<u8>, Action<u8>) = execute(5, &matches(&["-E", "-", "x"]));
    assert!(matches!(first, Action::UseStdin(0)));
    let next: Action<u8> = cat.session.resume(Event::Opened(false));
    assert!(matches!(next, Action::Read(LINE_BLOCK)));
    let next: Action<u8> = cat.session.resume(Event::Data(b"a\n".to_vec()));
    assert!(matches!(next, Action::Perform));
    assert_eq!(cat.session.pending().len(), 2);

    let (_, first): (Cat<u8>, Action<u8>) = execute(5, &matches(&["x"]));
    assert!(matches!(first, Action::Inspect(0)));
}
