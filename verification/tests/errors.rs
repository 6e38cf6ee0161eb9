use cat::error::CatError;

#[test]
fn message_of_input() {
    let error = CatError::Input(7, "some/file".to_string());
    assert_eq!(error.message("No such file"), "some/file: No such file");
    assert_eq!(error.cause(), Some(&7));
}

#[test]
fn message_of_output() {
    let error: CatError<u8> = CatError::Output(3);
    assert_eq!(error.message("Broken pipe"), "Broken pipe");
    assert_eq!(error.cause(), Some(&3));
}

#[test]
fn message_of_unknown_filetype() {
    let error: CatError<u8> = CatError::UnknownFiletype("x".to_string());
    assert_eq!(error.message("unused"), "x: unknown filetype");
    assert_eq!(error.cause(), None);
}

#[test]
fn message_of_encountered_errors() {
    let error: CatError<u8> = CatError::EncounteredErrors(1);
    assert_eq!(error.message(""), "encountered 1 error(s)");
    let error: CatError<u8> = CatError::EncounteredErrors(1203);
    assert_eq!(error.message("unused"), "encountered 1203 error(s)");
    assert_eq!(error.cause(), None);
}

#[test]
fn message_of_is_directory() {
    let error: CatError<u8> = CatError::IsDirectory("tmp".to_string());
    assert_eq!(error.message(""), "tmp: Is a directory");
    assert_eq!(error.cause(), None);
}
