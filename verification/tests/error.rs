use quark::CommandError;

#[test]
fn test_error_display() {
    let err = CommandError::NotFound("spawn".to_string());
    assert_eq!(err.to_string(), "Command not found: spawn");

    let err = CommandError::ArgumentCountMismatch {
        expected: 2,
        got: 3,
    };
    assert_eq!(
        err.to_string(),
        "Argument count mismatch: expected 2, got 3"
    );

    let err = CommandError::TypeConversionError {
        arg: "abc".to_string(),
        target_type: "usize",
    };
    assert_eq!(
        err.to_string(),
        "Type conversion error: could not convert 'abc' to usize"
    );
}

#[test]
fn test_error_is_send_sync() {
    fn assert_send_sync<T: Send + Sync>() {}
    assert_send_sync::<CommandError>();
}

#[test]
fn remaining_error_messages() {
    assert_eq!(CommandError::ParseError("bad".to_string()).to_string(), "Parse error: bad");
    assert_eq!(CommandError::ExecutionError("boom".to_string()).to_string(), "Execution error: boom");
    assert_eq!(
        CommandError::RequiresAsyncRuntime.to_string(),
        "This command requires an async runtime - use run_async() instead of run()"
    );
    assert_eq!(
        CommandError::SyncCommandInAsyncContext.to_string(),
        "This command is synchronous - use run() instead of run_async()"
    );
}

#[test]
fn counts_are_written_in_decimal() {
    let err = CommandError::ArgumentCountMismatch { expected: 0, got: 10 };
    assert_eq!(err.to_string(), "Argument count mismatch: expected 0, got 10");
    let err = CommandError::ArgumentCountMismatch { expected: 1234567890, got: usize::MAX };
    assert_eq!(err.to_string(), format!("Argument count mismatch: expected 1234567890, got {}", usize::MAX));
}

#[test]
fn decimal_string_matches_std_formatting() {
    for n in [0usize, 1, 9, 10, 11, 99, 100, 101, 4096, 65535, 1_000_000, usize::MAX - 1, usize::MAX] {
        assert_eq!(quark::error::decimal_string(n), n.to_string());
    }
}
