//! Which file is opened, and how.

use vstd::prelude::*;
use vstd::string::StrSliceExecFns;

use crate::error::CatError;
#[allow(unused_imports)]
use crate::error::Fault;

verus! {

/// What the file system says of a file, one answer for each question.
#[derive(Clone, Copy, Debug, PartialEq, Eq, Structural)]
pub struct FileKind {
    pub block_device: bool,
    pub char_device: bool,
    pub fifo: bool,
    pub socket: bool,
    pub dir: bool,
    pub file: bool,
    pub symlink: bool,
}

/// Recognized file types.
#[derive(Clone, Copy, Debug, PartialEq, Eq, Structural)]
pub enum InputType {
    Directory,
    File,
    StdIn,
    SymLink,
    BlockDevice,
    CharacterDevice,
    Fifo,
    Socket,
}

/// How a file is opened for reading.
#[derive(Clone, Copy, Debug, PartialEq, Eq, Structural)]
pub enum Access {
    /// Connect to the socket and shut its writing half down.
    Connect,
    /// Open the file.
    Open,
}

/// Whether a path stands for standard input.
pub open spec fn names_stdin(path: Seq<char>) -> bool {
    path == seq!['-']
}

/// The type of a file by what the file system says of it. Where more than one
/// answer is yes, the first of them counts.
pub open spec fn type_of_kind(kind: FileKind) -> Option<InputType> {
    if kind.block_device {
        Some(InputType::BlockDevice)
    } else if kind.char_device {
        Some(InputType::CharacterDevice)
    } else if kind.fifo {
        Some(InputType::Fifo)
    } else if kind.socket {
        Some(InputType::Socket)
    } else if kind.dir {
        Some(InputType::Directory)
    } else if kind.file {
        Some(InputType::File)
    } else if kind.symlink {
        Some(InputType::SymLink)
    } else {
        None
    }
}

/// The type of the file at `path`, or what is wrong with it. `answer` is what
/// the file system says when it is asked.
pub open spec fn input_type<E>(path: Seq<char>, answer: Result<FileKind, E>) -> Result<
    InputType,
    Fault<E>,
> {
    if names_stdin(path) {
        Ok(InputType::StdIn)
    } else {
        match answer {
            Err(err) => Err(Fault::Input(err, path)),
            Ok(kind) => match type_of_kind(kind) {
                Some(kind) => Ok(kind),
                None => Err(Fault::UnknownFiletype(path)),
            },
        }
    }
}

/// How the file at `path` is opened, or what is wrong with it.
pub open spec fn access<E>(path: Seq<char>, answer: Result<FileKind, E>) -> Result<
    Access,
    Fault<E>,
> {
    match input_type(path, answer) {
        Err(fault) => Err(fault),
        Ok(InputType::Directory) => Err(Fault::IsDirectory(path)),
        Ok(InputType::Socket) => Ok(Access::Connect),
        Ok(_) => Ok(Access::Open),
    }
}

/// Whether a path stands for standard input: whether it is `-`.
pub fn is_stdin(path: &str) -> (yes: bool)
    ensures
        yes == names_stdin(path@),
        yes == (path@ == seq!['-']),
{
    let yes = path.unicode_len() == 1 && path.get_char(0) == '-';
    assert(yes == (path@ =~= seq!['-']));
    yes
}

/// Classifies the file at `path`. `answer` is what the file system says of it,
/// or the error it gave instead; it is not used where `path` is standard input.
pub fn get_input_type<E>(path: &str, answer: Result<FileKind, E>) -> (result: Result<
    InputType,
    CatError<E>,
>)
    ensures
        match input_type(path@, answer) {
            Ok(kind) => result == Ok::<InputType, CatError<E>>(kind),
            Err(fault) => result is Err && result->Err_0@ == fault,
        },
{
    if is_stdin(path) {
        return Ok(InputType::StdIn);
    }
    match answer {
        Err(err) => Err(CatError::Input(err, path.to_owned())),
        Ok(kind) => if kind.block_device {
            Ok(InputType::BlockDevice)
        } else if kind.char_device {
            Ok(InputType::CharacterDevice)
        } else if kind.fifo {
            Ok(InputType::Fifo)
        } else if kind.socket {
            Ok(InputType::Socket)
        } else if kind.dir {
            Ok(InputType::Directory)
        } else if kind.file {
            Ok(InputType::File)
        } else if kind.symlink {
            Ok(InputType::SymLink)
        } else {
            Err(CatError::UnknownFiletype(path.to_owned()))
        },
    }
}

/// Decides how the file at `path` is opened; see [`get_input_type`] for `answer`.
pub fn choose_access<E>(path: &str, answer: Result<FileKind, E>) -> (result: Result<
    Access,
    CatError<E>,
>)
    ensures
        match access(path@, answer) {
            Ok(way) => result == Ok::<Access, CatError<E>>(way),
            Err(fault) => result is Err && result->Err_0@ == fault,
        },
{
    match get_input_type(path, answer) {
        Err(error) => Err(error),
        Ok(InputType::Directory) => Err(CatError::IsDirectory(path.to_owned())),
        Ok(InputType::Socket) => Ok(Access::Connect),
        Ok(_) => Ok(Access::Open),
    }
}

/// The path `-` stands for standard input, and no other does.
pub proof fn law_stdin(path: Seq<char>)
    ensures
        names_stdin(path) <==> path.len() == 1 && path[0] == '-',
{
    assert(path.len() == 1 && path[0] == '-' ==> path =~= seq!['-']);
}

/// What a file is goes by the first question that is answered with yes, in the
/// order block device, character device, pipe, socket, directory, file, symbolic
/// link. A file of which none is true, and one that cannot be asked about, have
/// no type and are told of with their path. Of standard input nothing is asked.
pub proof fn law_input_type<E>(path: Seq<char>, kind: FileKind, err: E)
    ensures
        path == seq!['-'] ==> input_type::<E>(path, Ok(kind)) == Ok::<InputType, Fault<E>>(
            InputType::StdIn,
        ) && input_type(path, Err(err)) == Ok::<InputType, Fault<E>>(InputType::StdIn),
        path != seq!['-'] ==> {
            let found = input_type::<E>(path, Ok(kind));
            let special = kind.block_device || kind.char_device || kind.fifo || kind.socket;
            &&& input_type(path, Err(err)) == Err::<InputType, Fault<E>>(Fault::Input(err, path))
            &&& found == Ok::<InputType, Fault<E>>(InputType::BlockDevice) <==> kind.block_device
            &&& found == Ok::<InputType, Fault<E>>(InputType::CharacterDevice) <==> kind.char_device
                && !kind.block_device
            &&& found == Ok::<InputType, Fault<E>>(InputType::Fifo) <==> kind.fifo
                && !kind.block_device && !kind.char_device
            &&& found == Ok::<InputType, Fault<E>>(InputType::Socket) <==> kind.socket
                && !kind.block_device && !kind.char_device && !kind.fifo
            &&& found == Ok::<InputType, Fault<E>>(InputType::Directory) <==> kind.dir && !special
            &&& found == Ok::<InputType, Fault<E>>(InputType::File) <==> kind.file && !kind.dir
                && !special
            &&& found == Ok::<InputType, Fault<E>>(InputType::SymLink) <==> kind.symlink
                && !kind.file && !kind.dir && !special
            &&& found == Err::<InputType, Fault<E>>(Fault::UnknownFiletype(path)) <==> !special
                && !kind.dir && !kind.file && !kind.symlink
        },
{
}

/// Every file is opened, but a socket, which is connected to, and a directory,
/// which is told of with its path. What has no type is not opened either.
pub proof fn law_access<E>(path: Seq<char>, answer: Result<FileKind, E>)
    ensures
        match input_type(path, answer) {
            Err(fault) => access(path, answer) == Err::<Access, Fault<E>>(fault),
            Ok(found) => {
                &&& access(path, answer) == Err::<Access, Fault<E>>(Fault::IsDirectory(path))
                    <==> found is Directory
                &&& access(path, answer) == Ok::<Access, Fault<E>>(Access::Connect)
                    <==> found is Socket
                &&& access(path, answer) == Ok::<Access, Fault<E>>(Access::Open)
                    <==> found !is Directory && found !is Socket
            },
        },
{
}

} // verus!
