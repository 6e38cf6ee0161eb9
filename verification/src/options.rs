//! How a run shows what it reads, and how the command line asks for it.

use vstd::prelude::*;

use crate::text::NumberingMode;
#[allow(unused_imports)]
use crate::text::{caret_i, Show, Style, DOLLAR, LF, TAB};
#[allow(unused_imports)]
use vstd::string::{is_ascii, is_ascii_spec_bytes};

verus! {

/// Options of a run that writes line by line.
#[derive(Clone, Copy)]
pub struct OutputOptions<'a> {
    /// Line numbering mode.
    pub number: NumberingMode,
    /// Suppress repeated empty output lines.
    pub squeeze_blank: bool,
    /// Display newlines as `end_of_line`.
    pub show_ends: bool,
    /// Display TAB characters as `tab`.
    pub show_tabs: bool,
    /// What is printed in the place of TAB where `show_tabs` is set.
    pub tab: &'a str,
    /// What is printed at the end of each line.
    pub end_of_line: &'a str,
    /// Use `^` and `M-` notation, except for LF and TAB.
    pub show_nonprint: bool,
}

impl<'a> OutputOptions<'a> {
    /// What TAB is displayed as: `tab` where that is asked for, itself otherwise.
    pub open spec fn shown_tab(&self) -> Seq<u8> {
        if self.show_tabs {
            vstd::utf8::encode_utf8(self.tab@)
        } else {
            seq![TAB]
        }
    }

    /// What the output depends on.
    pub open spec fn style(&self) -> Style {
        Style {
            number: self.number,
            squeeze_blank: self.squeeze_blank,
            show: if self.show_nonprint {
                Show::Notation(self.shown_tab())
            } else if self.show_tabs {
                Show::Tabs(self.shown_tab())
            } else {
                Show::Plain
            },
            end_of_line: vstd::utf8::encode_utf8(self.end_of_line@),
        }
    }

    /// What the output depends on once the texts for TAB and for the end of a
    /// line are those that the switches ask for.
    pub open spec fn full_style(&self) -> Style {
        Style {
            number: self.number,
            squeeze_blank: self.squeeze_blank,
            show: if self.show_nonprint {
                Show::Notation(
                    if self.show_tabs {
                        caret_i()
                    } else {
                        seq![TAB]
                    },
                )
            } else if self.show_tabs {
                Show::Tabs(caret_i())
            } else {
                Show::Plain
            },
            end_of_line: if self.show_ends {
                seq![DOLLAR, LF]
            } else {
                seq![LF]
            },
        }
    }

    /// Whether nothing is asked for but the bytes as they are.
    pub open spec fn plain(&self) -> bool {
        &&& !self.show_tabs
        &&& !self.show_nonprint
        &&& !self.show_ends
        &&& !self.squeeze_blank
        &&& self.number == NumberingMode::NumberNone
    }

    /// Whether the files can be copied without looking at their lines.
    pub fn can_write_fast(&self) -> (fast: bool)
        ensures
            fast == self.plain(),
            fast == (!self.show_tabs && !self.show_nonprint && !self.show_ends
                && !self.squeeze_blank && self.number is NumberNone),
    {
        !(self.show_tabs || self.show_nonprint || self.show_ends || self.squeeze_blank
            || self.number != NumberingMode::NumberNone)
    }

    /// The options with the texts for TAB and for the end of a line that their
    /// switches ask for.
    pub fn with_texts(self) -> (options: OutputOptions<'a>)
        ensures
            options == (OutputOptions {
                tab: options.tab,
                end_of_line: options.end_of_line,
                ..self
            }),
            options.tab@ == if self.show_tabs {
                "^I"@
            } else {
                "\t"@
            },
            options.end_of_line@ == if self.show_ends {
                "$\n"@
            } else {
                "\n"@
            },
            options.style() == self.full_style(),
    {
        let mut options = self;
        options.tab = if options.show_tabs {
            "^I"
        } else {
            "\t"
        };
        options.end_of_line = if options.show_ends {
            "$\n"
        } else {
            "\n"
        };
        proof {
            reveal_strlit("^I");
            reveal_strlit("\t");
            reveal_strlit("$\n");
            reveal_strlit("\n");
            is_ascii_spec_bytes(options.tab);
            is_ascii_spec_bytes(options.end_of_line);
            assert(is_ascii(options.tab));
            assert(is_ascii(options.end_of_line));
            assert(vstd::utf8::encode_utf8(options.tab@) =~= if self.show_tabs {
                caret_i()
            } else {
                seq![TAB]
            });
            assert(vstd::utf8::encode_utf8(options.end_of_line@) =~= if self.show_ends {
                seq![DOLLAR, LF]
            } else {
                seq![LF]
            });
        }
        options
    }
}

impl<'a> Default for OutputOptions<'a> {
    fn default() -> (options: Self)
        ensures
            options == (OutputOptions {
                number: NumberingMode::NumberNone,
                squeeze_blank: false,
                show_ends: false,
                show_tabs: false,
                tab: "",
                end_of_line: "",
                show_nonprint: false,
            }),
    {
        OutputOptions {
            number: NumberingMode::NumberNone,
            squeeze_blank: false,
            show_ends: false,
            show_tabs: false,
            tab: "",
            end_of_line: "",
            show_nonprint: false,
        }
    }
}

/// Which switches stand on the command line.
#[derive(Clone, Copy, Debug, PartialEq, Eq, Structural)]
pub struct Flags {
    /// `-A`, `--show-all`: equivalent to `-vET`.
    pub show_all: bool,
    /// `-b`, `--number-nonblank`: number nonempty output lines, overrides `-n`.
    pub number_nonblank: bool,
    /// `-e`: equivalent to `-vE`.
    pub e: bool,
    /// `-E`, `--show-ends`: display `$` at the end of each line.
    pub show_ends: bool,
    /// `-n`, `--number`: number all output lines.
    pub number: bool,
    /// `-s`, `--squeeze-blank`: suppress repeated empty output lines.
    pub squeeze_blank: bool,
    /// `-t`: equivalent to `-vT`.
    pub t: bool,
    /// `-T`, `--show-tabs`: display TAB characters as `^I`.
    pub show_tabs: bool,
    /// `-v`, `--show-nonprinting`: use `^` and `M-` notation, except for LF and TAB.
    pub show_nonprinting: bool,
}

impl Flags {
    /// Which lines the switches ask to number.
    pub open spec fn numbering(&self) -> NumberingMode {
        if self.number_nonblank {
            NumberingMode::NumberNonEmpty
        } else if self.number {
            NumberingMode::NumberAll
        } else {
            NumberingMode::NumberNone
        }
    }

    /// The options that the switches ask for, before their texts are chosen.
    pub open spec fn asked_options(&self) -> OutputOptions<'static> {
        OutputOptions {
            number: self.numbering(),
            squeeze_blank: self.squeeze_blank,
            show_ends: self.show_all || self.show_ends || self.e,
            show_tabs: self.show_all || self.show_tabs || self.t,
            tab: "",
            end_of_line: "",
            show_nonprint: self.show_all || self.show_nonprinting || self.e || self.t,
        }
    }

    /// The options that the switches ask for, before their texts are chosen.
    pub fn options(&self) -> (options: OutputOptions<'static>)
        ensures
            options == self.asked_options(),
            options.squeeze_blank == self.squeeze_blank,
            options.show_ends == (self.show_all || self.show_ends || self.e),
            options.show_tabs == (self.show_all || self.show_tabs || self.t),
            options.show_nonprint == (self.show_all || self.show_nonprinting || self.e || self.t),
            options.number is NumberNonEmpty == self.number_nonblank,
            options.number is NumberAll == (self.number && !self.number_nonblank),
    {
        let mut options = OutputOptions::default();
        options.number = if self.number_nonblank {
            NumberingMode::NumberNonEmpty
        } else if self.number {
            NumberingMode::NumberAll
        } else {
            NumberingMode::NumberNone
        };
        options.show_nonprint = self.show_all || self.show_nonprinting || self.e || self.t;
        options.show_ends = self.show_all || self.show_ends || self.e;
        options.show_tabs = self.show_all || self.show_tabs || self.t;
        options.squeeze_blank = self.squeeze_blank;
        options
    }
}

} // verus!
