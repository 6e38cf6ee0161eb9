//! Starting a run.

use vstd::prelude::*;

#[allow(unused_imports)]
use crate::args::{files_of, flags_of, lossy_values, present_names};
use crate::args::{files, flags};
use crate::options::OutputOptions;
#[allow(unused_imports)]
use crate::session::{fresh, paths, turn_to_file, Run};
use crate::session::{Action, Session};
#[allow(unused_imports)]
use crate::text::Show;

verus! {

/// A run together with the streams it works on. The streams are whatever the
/// caller performs the actions with; nothing here touches them.
pub struct Cat<'a, S> {
    /// The streams.
    pub setup: S,
    /// The run.
    pub session: Session<'a>,
}

impl<'a, S> Cat<'a, S> {
    /// A run over no files, which has not begun.
    pub fn new(setup: S) -> (cat: Self)
        ensures
            cat.setup == setup,
            cat.session@ == fresh(None, Seq::empty()),
    {
        let files: Vec<String> = Vec::new();
        assert(paths(files@) =~= Seq::<Seq<char>>::empty());
        Cat { setup, session: Session::new(None, files) }
    }

    /// Begins to write files with no configuration. This allows a simple memory
    /// copy. There is no short circuit when an error is encountered.
    pub fn write_fast<E>(&mut self, files: Vec<String>) -> (action: Action<E>)
        ensures
            final(self).setup == old(self).setup,
            (final(self).session@, action@) == turn_to_file::<E>(fresh(None, paths(files@))),
            final(self).session@.wf(),
            final(self).session@.style is None,
            final(self).session@.files.len() == files@.len(),
            forall|i: int|
                0 <= i < files@.len() ==> #[trigger] final(self).session@.files[i] == files@[i]@,
    {
        let mut session = Session::new(None, files);
        let action = session.begin();
        self.session = session;
        action
    }

    /// Begins to write files with `options` as configuration. There is no short
    /// circuit when an error is encountered.
    pub fn write_lines<E>(&mut self, files: Vec<String>, options: &OutputOptions<'a>) -> (action:
        Action<E>)
        ensures
            final(self).setup == old(self).setup,
            (final(self).session@, action@) == turn_to_file::<E>(
                fresh(Some(options.style()), paths(files@)),
            ),
            final(self).session@.wf(),
            final(self).session@.style == Some(options.style()),
            final(self).session@.files.len() == files@.len(),
            forall|i: int|
                0 <= i < files@.len() ==> #[trigger] final(self).session@.files[i] == files@[i]@,
    {
        let mut session = Session::new(Some(*options), files);
        let action = session.begin();
        self.session = session;
        action
    }
}

/// A run over `files` with such options, at its very start.
pub open spec fn planned(files: Seq<Seq<char>>, options: OutputOptions<'_>) -> Run {
    fresh(
        if options.plain() {
            None
        } else {
            Some(options.full_style())
        },
        files,
    )
}

/// Begins a run over `files`: a fast one where the options allow it, one that
/// writes line by line otherwise.
pub fn run<'a, S, E>(setup: S, files: Vec<String>, options: OutputOptions<'a>) -> (started: (
    Cat<'a, S>,
    Action<E>,
))
    ensures
        started.0.setup == setup,
        (started.0.session@, started.1@) == turn_to_file::<E>(planned(paths(files@), options)),
        started.0.session@.wf(),
        started.0.session@.files.len() == files@.len(),
        forall|i: int|
            0 <= i < files@.len() ==> #[trigger] started.0.session@.files[i] == files@[i]@,
        started.0.session@.style is None <==> !options.show_tabs && !options.show_nonprint
            && !options.show_ends && !options.squeeze_blank && options.number is NumberNone,
        started.0.session@.style matches Some(style) ==> {
            &&& style.number == options.number
            &&& style.squeeze_blank == options.squeeze_blank
            &&& style.end_of_line == if options.show_ends {
                seq![36u8, 10]
            } else {
                seq![10u8]
            }
            &&& style.show == if options.show_nonprint {
                Show::Notation(
                    if options.show_tabs {
                        seq![94u8, 73]
                    } else {
                        seq![9u8]
                    },
                )
            } else if options.show_tabs {
                Show::Tabs(seq![94u8, 73])
            } else {
                Show::Plain
            }
        },
{
    let can_write_fast = options.can_write_fast();
    let mut util = Cat::new(setup);
    let action = if can_write_fast {
        util.write_fast(files)
    } else {
        util.write_lines(files, &options.with_texts())
    };
    (util, action)
}

/// Begins the run that a command line asks for.
pub fn execute<S, E>(setup: S, matches: &clap::ArgMatches<'_>) -> (started: (
    Cat<'static, S>,
    Action<E>,
))
    ensures
        started.0.setup == setup,
        (started.0.session@, started.1@) == turn_to_file::<E>(
            planned(
                files_of(lossy_values(matches)),
                flags_of(present_names(matches)).asked_options(),
            ),
        ),
        started.0.session@.wf(),
        ({
            let values = lossy_values(matches);
            let files = started.0.session@.files;
            &&& values.dom().contains("FILES"@) ==> {
                &&& files.len() == values["FILES"@].len()
                &&& forall|i: int|
                    0 <= i < files.len() ==> #[trigger] files[i] == values["FILES"@][i]
            }
            &&& !values.dom().contains("FILES"@) ==> files.len() == 1 && files[0] == seq!['-']
        }),
        ({
            let names = present_names(matches);
            let ends = names.contains("show-all"@) || names.contains("show-ends"@)
                || names.contains("e"@);
            let tabs = names.contains("show-all"@) || names.contains("show-tabs"@)
                || names.contains("t"@);
            let notation = names.contains("show-all"@) || names.contains("show-nonprinting"@)
                || names.contains("e"@) || names.contains("t"@);
            let squeeze = names.contains("squeeze-blank"@);
            let all = names.contains("number"@);
            let nonblank = names.contains("number-nonblank"@);
            match started.0.session@.style {
                None => !ends && !tabs && !notation && !squeeze && !all && !nonblank,
                Some(style) => {
                    &&& ends || tabs || notation || squeeze || all || nonblank
                    &&& style.squeeze_blank == squeeze
                    &&& style.number is NumberNonEmpty <==> nonblank
                    &&& style.number is NumberAll <==> all && !nonblank
                    &&& style.end_of_line == if ends {
                        seq![36u8, 10]
                    } else {
                        seq![10u8]
                    }
                    &&& style.show == if notation {
                        Show::Notation(
                            if tabs {
                                seq![94u8, 73]
                            } else {
                                seq![9u8]
                            },
                        )
                    } else if tabs {
                        Show::Tabs(seq![94u8, 73])
                    } else {
                        Show::Plain
                    }
                },
            }
        }),
{
    let options = flags(matches).options();
    run(setup, files(matches), options)
}

} // verus!
