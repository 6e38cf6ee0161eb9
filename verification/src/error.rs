//! What can go wrong, and how it is told.

use vstd::prelude::*;
use vstd::string::StringExecFns;

#[allow(unused_imports)]
use crate::laws::law_digits;
#[allow(unused_imports)]
use crate::text::{decimal, ZERO};

verus! {

/// An error of a run. `E` is the error of a failed input or output operation.
#[derive(Debug)]
pub enum CatError<E> {
    /// An operation on the file at a path failed.
    Input(E, String),
    /// An operation failed that belongs to no path.
    Output(E),
    /// The file at the path is of no known type.
    UnknownFiletype(String),
    /// At least one error was encountered in reading or writing.
    EncounteredErrors(usize),
    /// The path is that of a directory.
    IsDirectory(String),
}

/// What a [`CatError`] says, with its texts as sequences of characters.
pub enum Fault<E> {
    Input(E, Seq<char>),
    Output(E),
    UnknownFiletype(Seq<char>),
    EncounteredErrors(nat),
    IsDirectory(Seq<char>),
}

impl<E> View for CatError<E> {
    type V = Fault<E>;

    open spec fn view(&self) -> Fault<E> {
        match *self {
            CatError::Input(err, path) => Fault::Input(err, path@),
            CatError::Output(err) => Fault::Output(err),
            CatError::UnknownFiletype(path) => Fault::UnknownFiletype(path@),
            CatError::EncounteredErrors(count) => Fault::EncounteredErrors(count as nat),
            CatError::IsDirectory(path) => Fault::IsDirectory(path@),
        }
    }
}

/// The decimal digits of `n` as characters.
pub open spec fn decimal_chars(n: nat) -> Seq<char> {
    decimal(n).map_values(|b: u8| b as char)
}

/// The message for a fault, where `cause` is the text of the error it holds.
pub open spec fn message<E>(fault: Fault<E>, cause: Seq<char>) -> Seq<char> {
    match fault {
        Fault::Input(err, path) => path + ": "@ + cause,
        Fault::Output(err) => cause,
        Fault::UnknownFiletype(path) => path + ": unknown filetype"@,
        Fault::EncounteredErrors(count) => "encountered "@ + decimal_chars(count) + " error(s)"@,
        Fault::IsDirectory(path) => path + ": Is a directory"@,
    }
}

/// The text of one decimal digit.
fn digit(d: usize) -> (text: &'static str)
    requires
        d < 10,
    ensures
        text@ == seq![(ZERO + d) as u8 as char],
{
    proof {
        reveal_strlit("0");
        reveal_strlit("1");
        reveal_strlit("2");
        reveal_strlit("3");
        reveal_strlit("4");
        reveal_strlit("5");
        reveal_strlit("6");
        reveal_strlit("7");
        reveal_strlit("8");
        reveal_strlit("9");
    }
    let text = match d {
        0 => "0",
        1 => "1",
        2 => "2",
        3 => "3",
        4 => "4",
        5 => "5",
        6 => "6",
        7 => "7",
        8 => "8",
        _ => "9",
    };
    assert(text@ =~= seq![(ZERO + d) as u8 as char]);
    text
}

/// Appends the decimal digits of `n`.
fn append_decimal(out: &mut String, n: usize)
    ensures
        final(out)@ == old(out)@ + decimal_chars(n as nat),
    decreases n,
{
    if n >= 10 {
        append_decimal(out, n / 10);
    }
    out.append(digit(n % 10));
    assert(out@ =~= old(out)@ + decimal_chars(n as nat));
}

impl<E> CatError<E> {
    /// The error of the failed operation, where there is one.
    pub fn cause(&self) -> (cause: Option<&E>)
        ensures
            cause == match *self {
                CatError::Input(err, path) => Some(&err),
                CatError::Output(err) => Some(&err),
                _ => None,
            },
    {
        match self {
            CatError::Input(err, _) => Some(err),
            CatError::Output(err) => Some(err),
            _ => None,
        }
    }

    /// The message that tells of this error. `cause` is the text of the error
    /// that [`CatError::cause`] gives; it is not used where there is none.
    pub fn message(&self, cause: &str) -> (text: String)
        ensures
            text@ == message(self@, cause@),
    {
        match self {
            CatError::Input(_, path) => {
                let mut text = path.clone();
                text.append(": ");
                text.append(cause);
                text
            },
            CatError::Output(_) => cause.to_owned(),
            CatError::UnknownFiletype(path) => {
                let mut text = path.clone();
                text.append(": unknown filetype");
                text
            },
            CatError::EncounteredErrors(count) => {
                let mut text = "encountered ".to_owned();
                append_decimal(&mut text, *count);
                text.append(" error(s)");
                text
            },
            CatError::IsDirectory(path) => {
                let mut text = path.clone();
                text.append(": Is a directory");
                text
            },
        }
    }
}

/// An error says what it is made of.
pub proof fn law_fault<E>(error: CatError<E>)
    ensures
        match error {
            CatError::Input(err, path) => error@ == Fault::Input(err, path@),
            CatError::Output(err) => error@ == Fault::Output(err),
            CatError::UnknownFiletype(path) => error@ == Fault::<E>::UnknownFiletype(path@),
            CatError::EncounteredErrors(n) => error@ == Fault::<E>::EncounteredErrors(n as nat),
            CatError::IsDirectory(path) => error@ == Fault::<E>::IsDirectory(path@),
        },
{
}

/// The message for an error of a file starts with the path of the file and says,
/// after a colon, what is wrong: the cause, that the type is unknown, or that it
/// is a directory. The message for any other failed operation is its cause.
pub proof fn law_message<E>(err: E, path: Seq<char>, cause: Seq<char>)
    ensures
        message(Fault::Input(err, path), cause) == path + ": "@ + cause,
        message(Fault::Output(err), cause) == cause,
        message(Fault::<E>::UnknownFiletype(path), cause) == path + ": unknown filetype"@,
        message(Fault::<E>::IsDirectory(path), cause) == path + ": Is a directory"@,
{
}

/// The message for a number of errors has the number in it: what stands between
/// its first word and its last are decimal digits without a leading zero, and
/// their value is the number.
pub proof fn law_count_message<E>(n: nat, cause: Seq<char>)
    ensures
        ({
            let all = message(Fault::<E>::EncounteredErrors(n), cause);
            let digits = all.subrange(12, all.len() - 9);
            &&& all.len() > 21
            &&& all.take(12) == "encountered "@
            &&& all.skip(all.len() - 9) == " error(s)"@
            &&& forall|i: int| 0 <= i < digits.len() ==> '0' <= #[trigger] digits[i] <= '9'
            &&& digits[0] == '0' ==> digits.len() == 1
            &&& digits.fold_left(0int, |v: int, c: char| 10 * v + (c as int - 48)) == n
        }),
{
    reveal_strlit("encountered ");
    reveal_strlit(" error(s)");
    let all = message(Fault::<E>::EncounteredErrors(n), cause);
    let digits = decimal_chars(n);
    law_digits(n);
    assert(all.take(12) =~= "encountered "@);
    assert(all.skip(all.len() - 9) =~= " error(s)"@);
    assert(all.subrange(12, all.len() - 9) =~= digits);
    assert forall|i: int| 0 <= i < digits.len() implies '0' <= #[trigger] digits[i] <= '9' by {
        assert(digits[i] == decimal(n)[i] as char);
    }
    assert(digits[0] == decimal(n)[0] as char);
    lemma_chars_value(
        decimal(n),
        |v: int, b: u8| 10 * v + (b - 48),
        |v: int, c: char| 10 * v + (c as int - 48),
    );
}

/// Digits have the same value as bytes and as characters.
proof fn lemma_chars_value(
    digits: Seq<u8>,
    step: spec_fn(int, u8) -> int,
    char_step: spec_fn(int, char) -> int,
)
    requires
        forall|i: int| 0 <= i < digits.len() ==> 48 <= #[trigger] digits[i] <= 57,
        forall|v: int, b: u8| b < 128 ==> #[trigger] step(v, b) == char_step(v, b as char),
    ensures
        digits.map_values(|b: u8| b as char).fold_left(0, char_step) == digits.fold_left(0, step),
    decreases digits.len(),
{
    let chars = digits.map_values(|b: u8| b as char);
    if digits.len() > 0 {
        let front = digits.drop_last();
        assert forall|i: int| 0 <= i < front.len() implies 48 <= #[trigger] front[i] <= 57 by {
            assert(front[i] == digits[i]);
        }
        lemma_chars_value(front, step, char_step);
        assert(chars.drop_last() =~= front.map_values(|b: u8| b as char));
        let last = digits[digits.len() - 1];
        assert(step(front.fold_left(0, step), last) == char_step(
            front.fold_left(0, step),
            last as char,
        ));
    }
}

} // verus!
