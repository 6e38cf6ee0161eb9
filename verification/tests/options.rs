use cat::options::{Flags, OutputOptions};
use cat::text::NumberingMode;

fn none() -> Flags {
    Flags {
        show_all: false,
        number_nonblank: false,
        e: false,
        show_ends: false,
        number: false,
        squeeze_blank: false,
        t: false,
        show_tabs: false,
        show_nonprinting: false,
    }
}

fn switches(o: &OutputOptions) -> (NumberingMode, bool, bool, bool, bool) {
    (o.number, o.squeeze_blank, o.show_ends, o.show_tabs, o.show_nonprint)
}

#[test]
fn default_options_ask_for_nothing() {
    let o = OutputOptions::default();
    assert_eq!(switches(&o), (NumberingMode::NumberNone, false, false, false, false));
    assert_eq!((o.tab, o.end_of_line), ("", ""));
    assert!(o.can_write_fast());
}

#[test]
fn each_option_rules_the_fast_way_out() {
    let o = OutputOptions::default();
    assert!(!OutputOptions { show_tabs: true, ..o }.can_write_fast());
    assert!(!OutputOptions { show_nonprint: true, ..o }.can_write_fast());
    assert!(!OutputOptions { show_ends: true, ..o }.can_write_fast());
    assert!(!OutputOptions { squeeze_blank: true, ..o }.can_write_fast());
    assert!(!OutputOptions { number: NumberingMode::NumberAll, ..o }.can_write_fast());
    assert!(!OutputOptions { number: NumberingMode::NumberNonEmpty, ..o }.can_write_fast());
}

#[test]
fn texts_follow_the_switches() {
    let o = OutputOptions::default();
    let plain = o.with_texts();
    assert_eq!((plain.tab, plain.end_of_line), ("\t", "\n"));
    let both = OutputOptions { show_tabs: true, show_ends: true, ..o }.with_texts();
    assert_eq!((both.tab, both.end_of_line), ("^I", "$\n"));
    assert_eq!(switches(&both), (NumberingMode::NumberNone, false, true, true, false));
}

#[test]
fn switches_become_options() {
    let n = NumberingMode::NumberNone;
    assert_eq!(switches(&none().options()), (n, false, false, false, false));
    let f = Flags { squeeze_blank: true, ..none() };
    assert_eq!(switches(&f.options()), (n, true, false, false, false));
    let f = Flags { show_ends: true, ..none() };
    assert_eq!(switches(&f.options()), (n, false, true, false, false));
    let f = Flags { show_tabs: true, ..none() };
    assert_eq!(switches(&f.options()), (n, false, false, true, false));
    let f = Flags { show_nonprinting: true, ..none() };
    assert_eq!(switches(&f.options()), (n, false, false, false, true));
    let f = Flags { number: true, ..none() };
    assert_eq!(switches(&f.options()), (NumberingMode::NumberAll, false, false, false, false));
}

#[test]
fn equivalent_switches() {
    let v = Flags { show_nonprinting: true, ..none() };
    let vet = Flags { show_ends: true, show_tabs: true, ..v };
    let a = Flags { show_all: true, ..none() };
    assert_eq!(switches(&a.options()), switches(&vet.options()));
    let e = Flags { e: true, ..none() };
    let ve = Flags { show_ends: true, ..v };
    assert_eq!(switches(&e.options()), switches(&ve.options()));
    let t = Flags { t: true, ..none() };
    let vt = Flags { show_tabs: true, ..v };
    assert_eq!(switches(&t.options()), switches(&vt.options()));
}

#[test]
fn nonblank_overrides_number() {
    let both = Flags { number_nonblank: true, number: true, ..none() };
    assert_eq!(both.options().number, NumberingMode::NumberNonEmpty);
}
