use cat::lines::{write_file_lines, Op, OutputState, Task};
use cat::options::OutputOptions;
use cat::text::NumberingMode;

fn plain() -> OutputOptions<'static> {
    OutputOptions::default().with_texts()
}

fn bytes(ops: &[Op]) -> Vec<u8> {
    let mut out = Vec::new();
    for op in ops {
        if let Task::Write(bytes) = &op.task {
            out.extend_from_slice(bytes);
        }
    }
    out
}

fn at(line_number: usize, at_line_start: bool, one_blank_kept: bool) -> OutputState {
    OutputState { line_number, at_line_start, one_blank_kept }
}

/// The output of blocks that are read one after the other, and the state after them.
fn output(blocks: &[&[u8]], options: &OutputOptions) -> (Vec<u8>, OutputState) {
    let mut state = OutputState::new();
    let mut out = Vec::new();
    for block in blocks {
        out.extend(bytes(&write_file_lines(block, false, options, &mut state)));
    }
    (out, state)
}

#[test]
fn plain_lines_are_copied() {
    let (out, state) = output(&[b"a\n\n\nb\t\xff\nlast"], &plain());
    assert_eq!(out, b"a\n\n\nb\t\xff\nlast");
    assert_eq!(state, at(1, false, false));
}

#[test]
fn all_lines_are_numbered() {
    let options = OutputOptions { number: NumberingMode::NumberAll, ..plain() };
    let (out, state) = output(&[b"a\n\nb"], &options);
    assert_eq!(out, b"     1\ta\n     2\t\n     3\tb");
    assert_eq!(state, at(4, false, false));
}

#[test]
fn nonempty_lines_are_numbered() {
    let options = OutputOptions { number: NumberingMode::NumberNonEmpty, ..plain() };
    let (out, state) = output(&[b"a\n\nb\n"], &options);
    assert_eq!(out, b"     1\ta\n\n     2\tb\n");
    assert_eq!(state, at(3, true, false));
}

#[test]
fn a_line_cut_in_two_gets_one_number() {
    let options = OutputOptions { number: NumberingMode::NumberAll, ..plain() };
    let (out, _) = output(&[b"ab", b"cd\n", b"e"], &options);
    assert_eq!(out, b"     1\tabcd\n     2\te");
    assert_eq!(out, output(&[b"abcd\ne"], &options).0);
}

#[test]
fn repeated_empty_lines_are_squeezed() {
    let options = OutputOptions { squeeze_blank: true, ..plain() };
    assert_eq!(output(&[b"\n\n\na\n\n\n\nb\n"], &options).0, b"\na\n\nb\n");
    assert_eq!(output(&[b"a\n\n", b"\n\nb\n"], &options).0, b"a\n\nb\n");
}

#[test]
fn squeezed_lines_get_no_number() {
    let options = OutputOptions {
        squeeze_blank: true,
        number: NumberingMode::NumberAll,
        ..plain()
    };
    let (out, state) = output(&[b"a\n\n\nb\n"], &options);
    assert_eq!(out, b"     1\ta\n     2\t\n     3\tb\n");
    assert_eq!(state.line_number, 4);
}

#[test]
fn the_end_of_an_open_line_is_no_empty_line() {
    let options = OutputOptions { squeeze_blank: true, ..plain() };
    assert_eq!(output(&[b"a", b"\n\nb"], &options).0, b"a\n\nb");
    assert_eq!(output(&[b"a", b"\n\n\nb"], &options).0, b"a\n\nb");
    assert_eq!(output(&[b"a", b"\nb"], &options).0, b"a\nb");
}

#[test]
fn it_does_not_matter_where_a_read_ends() {
    let options = OutputOptions {
        squeeze_blank: true,
        number: NumberingMode::NumberAll,
        ..plain()
    };
    let whole = b"\n\na\tb\n\n\n\nc\n\nd";
    let in_one = output(&[whole], &options);
    for i in 0..whole.len() {
        for j in i..whole.len() {
            let cut = output(&[&whole[..i], &whole[i..j], &whole[j..]], &options);
            assert_eq!(cut, in_one);
        }
    }
}

#[test]
fn tab_is_displayed_as_asked() {
    let options = OutputOptions { show_tabs: true, tab: "X", ..plain() };
    assert_eq!(output(&[b"a\tb\n"], &options).0, b"aXb\n");
    let options = OutputOptions { show_nonprint: true, ..options };
    assert_eq!(output(&[b"a\tb\x01\n"], &options).0, b"aXb^A\n");
    let options = OutputOptions { show_tabs: false, ..options };
    assert_eq!(output(&[b"a\tb\x01\n"], &options).0, b"a\tb^A\n");
}

#[test]
fn lines_are_written_piece_by_piece() {
    let notation = OutputOptions { show_nonprint: true, ..plain() };
    let mut state = at(7, true, true);
    let ops = write_file_lines(b"a\x01b", false, &notation, &mut state);
    let pieces: Vec<Vec<u8>> = ops.iter().map(|op| bytes(std::slice::from_ref(op))).collect();
    assert_eq!(pieces, vec![b"a".to_vec(), b"^A".to_vec(), b"b".to_vec()]);
    let states: Vec<OutputState> = ops.iter().map(|op| op.state).collect();
    assert_eq!(states, vec![at(7, true, true), at(7, true, false), at(7, true, false)]);
    assert_eq!(state, at(7, false, false));
}

#[test]
fn ends_tabs_and_notation() {
    let ends = OutputOptions { show_ends: true, ..OutputOptions::default() }.with_texts();
    assert_eq!(output(&[b"a\tb\n\n"], &ends).0, b"a\tb$\n$\n");
    let tabs = OutputOptions { show_tabs: true, ..OutputOptions::default() }.with_texts();
    assert_eq!(output(&[b"a\tb\nc\td\n"], &tabs).0, b"a^Ib\nc^Id\n");
    let notation = OutputOptions { show_nonprint: true, ..OutputOptions::default() }.with_texts();
    assert_eq!(output(&[b"a\tb\x01\xe9\n"], &notation).0, b"a\tb^AM-i\n");
    let all = OutputOptions {
        show_nonprint: true,
        show_tabs: true,
        show_ends: true,
        ..OutputOptions::default()
    }
    .with_texts();
    assert_eq!(output(&[b"a\tb\x01\xe9\n"], &all).0, b"a^Ib^AM-i$\n");
}

#[test]
fn operations_in_their_order() {
    let options = OutputOptions { number: NumberingMode::NumberAll, ..plain() };
    let mut state = OutputState::new();
    let ops = write_file_lines(b"a\n\n", true, &options, &mut state);
    let seen: Vec<(Option<&[u8]>, bool, OutputState)> = ops
        .iter()
        .map(|op| match &op.task {
            Task::Write(bytes) => (Some(&bytes[..]), op.names_file, op.state),
            Task::Flush => (None, op.names_file, op.state),
        })
        .collect();
    let expected: Vec<(Option<&[u8]>, bool, OutputState)> = vec![
        (Some(b"     1\t"), false, at(1, true, false)),
        (Some(b"a"), false, at(2, true, false)),
        (Some(b"\n"), false, at(2, true, false)),
        (None, false, at(2, true, false)),
        (Some(b"     2\t"), false, at(2, true, false)),
        (Some(b"\n"), false, at(3, true, false)),
        (None, true, at(3, true, true)),
    ];
    assert_eq!(seen, expected);
    assert_eq!(state, at(3, true, true));
}

#[test]
fn nothing_is_flushed_where_nobody_watches() {
    let mut state = OutputState::new();
    let ops = write_file_lines(b"a\n\nb\n", false, &plain(), &mut state);
    assert!(ops.iter().all(|op| matches!(op.task, Task::Write(_))));
    assert_eq!(state, at(1, true, false));
}

#[test]
fn state_during_a_line_that_is_continued() {
    let options = OutputOptions { number: NumberingMode::NumberAll, ..plain() };
    let mut state = at(9, false, false);
    let ops = write_file_lines(b"x\n", false, &options, &mut state);
    assert_eq!(bytes(&ops), b"x\n");
    assert!(ops.iter().all(|op| op.state == at(9, false, false)));
    assert_eq!(state, at(9, true, false));
}
