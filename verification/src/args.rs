//! What the command line asks for, as the argument parser has matched it.

use vstd::prelude::*;

use crate::options::Flags;

verus! {

/// The arguments that were matched on a command line.
#[verifier::external_type_specification]
#[verifier::external_body]
pub struct ExArgMatches<'a>(clap::ArgMatches<'a>);

/// The names that count as present among matched arguments.
pub uninterp spec fn present_names(matches: &clap::ArgMatches<'_>) -> Set<Seq<char>>;

/// The values of the matched arguments by their names. Where a value is not
/// valid UTF-8, the replacement character stands for what is not.
pub uninterp spec fn lossy_values(matches: &clap::ArgMatches<'_>) -> Map<
    Seq<char>,
    Seq<Seq<char>>,
>;

/// `clap::ArgMatches::is_present`: whether an argument of this name was matched.
#[verifier::external_body]
fn is_present(matches: &clap::ArgMatches<'_>, name: &str) -> (present: bool)
    ensures
        present == present_names(matches).contains(name@),
{
    matches.is_present(name)
}

/// `clap::ArgMatches::values_of_lossy`: the values of the argument of this name
/// in their order, or `None` if it was not matched.
#[verifier::external_body]
fn values_of_lossy(matches: &clap::ArgMatches<'_>, name: &str) -> (values: Option<Vec<String>>)
    ensures
        values is Some <==> lossy_values(matches).dom().contains(name@),
        values matches Some(values) ==> values@.map_values(|value: String| value@)
            == lossy_values(matches)[name@],
{
    matches.values_of_lossy(name)
}

/// The switches that stand on a command line with these names present.
pub open spec fn flags_of(names: Set<Seq<char>>) -> Flags {
    Flags {
        show_all: names.contains("show-all"@),
        number_nonblank: names.contains("number-nonblank"@),
        e: names.contains("e"@),
        show_ends: names.contains("show-ends"@),
        number: names.contains("number"@),
        squeeze_blank: names.contains("squeeze-blank"@),
        t: names.contains("t"@),
        show_tabs: names.contains("show-tabs"@),
        show_nonprinting: names.contains("show-nonprinting"@),
    }
}

/// The files that a command line with these values names: standard input, where
/// it names none.
pub open spec fn files_of(values: Map<Seq<char>, Seq<Seq<char>>>) -> Seq<Seq<char>> {
    if values.dom().contains("FILES"@) {
        values["FILES"@]
    } else {
        seq!["-"@]
    }
}

/// All the values of `FILES` are the paths, in their order and however many there
/// are. Where it has none, `-` is the only path.
pub proof fn law_files(values: Map<Seq<char>, Seq<Seq<char>>>)
    ensures
        values.dom().contains("FILES"@) ==> {
            &&& files_of(values).len() == values["FILES"@].len()
            &&& forall|i: int|
                0 <= i < values["FILES"@].len() ==> #[trigger] files_of(values)[i]
                    == values["FILES"@][i]
        },
        !values.dom().contains("FILES"@) ==> files_of(values).len() == 1 && files_of(values)[0]
            == seq!['-'],
{
    reveal_strlit("-");
    assert("-"@ =~= seq!['-']);
}

/// A switch stands if and only if its name is present, whatever else is.
pub proof fn law_flags(names: Set<Seq<char>>)
    ensures
        ({
            let flags = flags_of(names);
            &&& flags.show_all <==> names.contains("show-all"@)
            &&& flags.number_nonblank <==> names.contains("number-nonblank"@)
            &&& flags.e <==> names.contains("e"@)
            &&& flags.show_ends <==> names.contains("show-ends"@)
            &&& flags.number <==> names.contains("number"@)
            &&& flags.squeeze_blank <==> names.contains("squeeze-blank"@)
            &&& flags.t <==> names.contains("t"@)
            &&& flags.show_tabs <==> names.contains("show-tabs"@)
            &&& flags.show_nonprinting <==> names.contains("show-nonprinting"@)
        }),
{
}

/// The switches among matched arguments.
pub fn flags(matches: &clap::ArgMatches<'_>) -> (flags: Flags)
    ensures
        flags == flags_of(present_names(matches)),
        flags.show_all == present_names(matches).contains("show-all"@),
        flags.number_nonblank == present_names(matches).contains("number-nonblank"@),
        flags.e == present_names(matches).contains("e"@),
        flags.show_ends == present_names(matches).contains("show-ends"@),
        flags.number == present_names(matches).contains("number"@),
        flags.squeeze_blank == present_names(matches).contains("squeeze-blank"@),
        flags.t == present_names(matches).contains("t"@),
        flags.show_tabs == present_names(matches).contains("show-tabs"@),
        flags.show_nonprinting == present_names(matches).contains("show-nonprinting"@),
{
    Flags {
        show_all: is_present(matches, "show-all"),
        number_nonblank: is_present(matches, "number-nonblank"),
        e: is_present(matches, "e"),
        show_ends: is_present(matches, "show-ends"),
        number: is_present(matches, "number"),
        squeeze_blank: is_present(matches, "squeeze-blank"),
        t: is_present(matches, "t"),
        show_tabs: is_present(matches, "show-tabs"),
        show_nonprinting: is_present(matches, "show-nonprinting"),
    }
}

/// The paths to read: those given, or standard input where none are.
pub fn files_or_stdin(given: Option<Vec<String>>) -> (files: Vec<String>)
    ensures
        match given {
            Some(given) => files == given,
            None => files@.map_values(|file: String| file@) == seq!["-"@],
        },
{
    match given {
        Some(files) => files,
        None => {
            let mut files: Vec<String> = Vec::new();
            files.push("-".to_owned());
            assert(files@.map_values(|file: String| file@) =~= seq!["-"@]);
            files
        },
    }
}

/// The paths to read, by the matched arguments.
pub fn files(matches: &clap::ArgMatches<'_>) -> (files: Vec<String>)
    ensures
        files@.map_values(|file: String| file@) == files_of(lossy_values(matches)),
        lossy_values(matches).dom().contains("FILES"@) ==> {
            &&& files@.len() == lossy_values(matches)["FILES"@].len()
            &&& forall|i: int|
                0 <= i < files@.len() ==> (#[trigger] files@[i])@ == lossy_values(
                    matches,
                )["FILES"@][i]
        },
        !lossy_values(matches).dom().contains("FILES"@) ==> files@.len() == 1 && files@[0]@ == seq![
            '-',
        ],
{
    proof {
        law_files(lossy_values(matches));
        assert(forall|given: Seq<String>, i: int|
            0 <= i < given.len() ==> (#[trigger] given[i])@ == given.map_values(
                |file: String| file@,
            )[i]);
    }
    files_or_stdin(values_of_lossy(matches, "FILES"))
}

} // verus!
