use squish::error::ShellError;

#[test]
fn error_messages() {
    assert_eq!(ShellError::Io("disk full".to_string()).message(), "disk full");
    assert_eq!(ShellError::LineEditor("eof".to_string()).message(), "eof");
    assert_eq!(
        ShellError::CommandNotFound { program: "nope".to_string() }.message(),
        "command not found: nope"
    );
    assert_eq!(
        ShellError::ExecFailed { program: "x".to_string(), message: "denied".to_string() }.message(),
        "x: denied"
    );
    assert_eq!(ShellError::Other("empty command".to_string()).message(), "empty command");
}

#[test]
fn error_spawn_status() {
    assert_eq!(ShellError::CommandNotFound { program: "n".to_string() }.spawn_status(), 127);
    assert_eq!(
        ShellError::ExecFailed { program: "x".to_string(), message: "m".to_string() }.spawn_status(),
        126
    );
    assert_eq!(ShellError::Io("e".to_string()).spawn_status(), 1);
    assert_eq!(ShellError::LineEditor("e".to_string()).spawn_status(), 1);
    assert_eq!(ShellError::Other("e".to_string()).spawn_status(), 1);
}

#[test]
fn error_other_and_duplicate() {
    let e = ShellError::other("x");
    assert_eq!(e, ShellError::Other("x".to_string()));
    let f = ShellError::ExecFailed { program: "p".to_string(), message: "m".to_string() };
    assert_eq!(f.duplicate(), f);
}
