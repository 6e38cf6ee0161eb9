use cat::line::{
    digits, number_prefix, write_nonprint_to_end, write_tab_to_end, write_to_end, Writer,
};

/// The writes of a writer, each as text.
fn writes(w: &Writer) -> Vec<&[u8]> {
    w.writes.iter().map(|bytes| &bytes[..]).collect()
}

#[test]
fn plain_line_up_to_its_end() {
    let mut w = Writer::new();
    w.write_all(b"<");
    assert_eq!(write_to_end(b"ab\nc", &mut w), 3);
    assert_eq!(writes(&w), vec![&b"<"[..], b"ab"]);
}

#[test]
fn plain_line_that_does_not_end() {
    let mut w = Writer::new();
    assert_eq!(write_to_end(b"ab\tc", &mut w), 0);
    assert_eq!(writes(&w), vec![&b"ab\tc"[..]]);
}

#[test]
fn plain_line_that_is_empty() {
    let mut w = Writer::new();
    assert_eq!(write_to_end(b"\nx", &mut w), 1);
    assert_eq!(write_to_end(b"", &mut w), 0);
    assert_eq!(writes(&w), vec![&b""[..], b""]);
}

#[test]
fn tabs_are_shown_and_the_whole_line_is_counted() {
    let mut w = Writer::new();
    assert_eq!(write_tab_to_end(b"a\tb\nrest", &mut w, b"^I"), 4);
    assert_eq!(writes(&w), vec![&b"a"[..], b"^I", b"b"]);
}

#[test]
fn tabs_in_a_row_and_at_the_ends() {
    let mut w = Writer::new();
    assert_eq!(write_tab_to_end(b"\t\tx\t\n", &mut w, b"^I"), 5);
    assert_eq!(writes(&w), vec![&b""[..], b"^I", b"", b"^I", b"x", b"^I", b""]);
    assert_eq!(w.writes.concat(), b"^I^Ix^I");
}

#[test]
fn tabs_in_a_line_that_does_not_end() {
    let mut w = Writer::new();
    assert_eq!(write_tab_to_end(b"a\tb\x01", &mut w, b"<TAB>"), 0);
    assert_eq!(writes(&w), vec![&b"a"[..], b"<TAB>", b"b\x01"]);
}

#[test]
fn notation_of_each_range() {
    let mut w = Writer::new();
    let line = [
        0, 8, 9, 11, 31, 32, 65, 126, 127, 128, 137, 138, 159, 160, 193, 254, 255,
    ];
    assert_eq!(write_nonprint_to_end(&line, &mut w, b"<TAB>"), 0);
    let expected: &[u8] =
        b"^@^H<TAB>^K^_ A~^?M-^@M-^IM-^JM-^_M- M-AM-~M-^?";
    assert_eq!(w.writes.concat(), expected);
    assert_eq!(w.writes.len(), line.len());
}

#[test]
fn notation_stops_at_the_end_of_the_line() {
    let mut w = Writer::new();
    assert_eq!(write_nonprint_to_end(b"\x01b\n\x02", &mut w, b"\t"), 3);
    assert_eq!(writes(&w), vec![&b"^A"[..], b"b"]);
}

#[test]
fn notation_is_printable() {
    for b in 0u8..=255 {
        if b == 9 || b == 10 {
            continue;
        }
        let mut w = Writer::new();
        write_nonprint_to_end(&[b], &mut w, b"\t");
        let shown = w.writes.concat();
        assert!(!shown.is_empty());
        assert!(shown.iter().all(|c| 32 <= *c && *c <= 126));
    }
}

#[test]
fn digits_of_numbers() {
    assert_eq!(digits(0), b"0");
    assert_eq!(digits(9), b"9");
    assert_eq!(digits(10), b"10");
    assert_eq!(digits(1203), b"1203");
    assert_eq!(digits(usize::MAX), usize::MAX.to_string().into_bytes());
}

#[test]
fn numbers_are_padded_to_six() {
    assert_eq!(number_prefix(1), b"     1\t");
    assert_eq!(number_prefix(42), b"    42\t");
    assert_eq!(number_prefix(999999), b"999999\t");
    assert_eq!(number_prefix(1000000), b"1000000\t");
}
