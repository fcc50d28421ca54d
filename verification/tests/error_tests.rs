use strum2midi::AppError;

#[test]
fn errors_show_their_messages() {
    let io = AppError::Io { path: "song.strum".to_string(), message: "No such file or directory".to_string() };
    assert_eq!(io.to_string(), "song.strum: No such file or directory");
    assert_eq!(AppError::Usage("usage".to_string()).to_string(), "usage");
    assert_eq!(AppError::Parse("Line 1: x".to_string()).to_string(), "Line 1: x");
    assert_eq!(AppError::Validation("missing tempo".to_string()).to_string(), "missing tempo");
    assert_eq!(AppError::Encoding("too long".to_string()).to_string(), "too long");
}
