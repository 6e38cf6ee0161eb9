use cat::error::CatError;
use cat::input::{choose_access, get_input_type, is_stdin, Access, FileKind, InputType};

fn nothing() -> FileKind {
    FileKind {
        block_device: false,
        char_device: false,
        fifo: false,
        socket: false,
        dir: false,
        file: false,
        symlink: false,
    }
}

fn classified(kind: FileKind) -> InputType {
    get_input_type::<u8>("x", Ok(kind)).unwrap()
}

#[test]
fn only_a_hyphen_is_standard_input() {
    assert!(is_stdin("-"));
    assert!(!is_stdin(""));
    assert!(!is_stdin("--"));
    assert!(!is_stdin("x"));
    assert!(!is_stdin("\u{2010}"));
}

#[test]
fn each_kind_has_its_type() {
    assert_eq!(
        classified(FileKind { block_device: true, ..nothing() }),
        InputType::BlockDevice
    );
    assert_eq!(
        classified(FileKind { char_device: true, ..nothing() }),
        InputType::CharacterDevice
    );
    assert_eq!(classified(FileKind { fifo: true, ..nothing() }), InputType::Fifo);
    assert_eq!(classified(FileKind { socket: true, ..nothing() }), InputType::Socket);
    assert_eq!(classified(FileKind { dir: true, ..nothing() }), InputType::Directory);
    assert_eq!(classified(FileKind { file: true, ..nothing() }), InputType::File);
    assert_eq!(classified(FileKind { symlink: true, ..nothing() }), InputType::SymLink);
}

#[test]
fn the_first_kind_counts() {
    let kind = FileKind { fifo: true, socket: true, file: true, ..nothing() };
    assert_eq!(classified(kind), InputType::Fifo);
}

#[test]
fn standard_input_is_not_asked_about() {
    assert!(matches!(get_input_type("-", Err(5)), Ok(InputType::StdIn)));
}

#[test]
fn unknown_and_failed_lookups() {
    match get_input_type::<u8>("x", Ok(nothing())) {
        Err(CatError::UnknownFiletype(path)) => assert_eq!(path, "x"),
        other => panic!("{:?}", other),
    }
    match get_input_type("y", Err(5)) {
        Err(CatError::Input(5, path)) => assert_eq!(path, "y"),
        other => panic!("{:?}", other),
    }
}

#[test]
fn how_files_are_opened() {
    let open = |kind: FileKind| choose_access::<u8>("x", Ok(kind));
    assert!(matches!(open(FileKind { file: true, ..nothing() }), Ok(Access::Open)));
    assert!(matches!(open(FileKind { fifo: true, ..nothing() }), Ok(Access::Open)));
    assert!(matches!(open(FileKind { symlink: true, ..nothing() }), Ok(Access::Open)));
    assert!(matches!(open(FileKind { socket: true, ..nothing() }), Ok(Access::Connect)));
    match open(FileKind { dir: true, ..nothing() }) {
        Err(CatError::IsDirectory(path)) => assert_eq!(path, "x"),
        other => panic!("{:?}", other),
    }
    match open(nothing()) {
        Err(CatError::UnknownFiletype(path)) => assert_eq!(path, "x"),
        other => panic!("{:?}", other),
    }
}
