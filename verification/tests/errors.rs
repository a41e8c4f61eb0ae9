use hexler::error::{HexlerError, Result};

#[test]
fn test_invalid_bytes_per_line_error_message() {
    let error = HexlerError::InvalidBytesPerLine(5);
    let message = error.to_string();
    assert!(message.contains("bytes per line must be a multiple of 8"));
    assert!(message.contains("got 5"));
}

#[test]
fn test_terminal_size_error_message() {
    let error = HexlerError::TerminalSizeError;
    let message = error.to_string();
    assert!(message.contains("failed to determine terminal width"));
}

#[test]
fn test_io_error_conversion() {
    let io_error = std::io::Error::new(std::io::ErrorKind::NotFound, "file not found");
    let hexler_error: HexlerError = io_error.into();

    let message = hexler_error.to_string();
    assert!(message.contains("IO error"));
    assert!(message.contains("file not found"));
}

#[test]
fn test_error_debug_formatting() {
    let error = HexlerError::InvalidBytesPerLine(12);
    let debug_str = format!("{:?}", error);
    assert!(debug_str.contains("InvalidBytesPerLine"));
    assert!(debug_str.contains("12"));
}

#[test]
fn test_result_type_alias() {
    fn returns_result() -> Result<i32> {
        Ok(42)
    }

    let result = returns_result();
    assert!(result.is_ok());
    assert_eq!(result.unwrap(), 42);
}

#[test]
fn test_result_with_error() {
    fn returns_error() -> Result<i32> {
        Err(HexlerError::TerminalSizeError)
    }

    let result = returns_error();
    assert!(result.is_err());
}

#[test]
fn messages_are_exact() {
    assert_eq!(
        HexlerError::InvalidBytesPerLine(1234567890).to_string(),
        "bytes per line must be a multiple of 8 with a minimum of 8, got 1234567890"
    );
    assert_eq!(
        HexlerError::InvalidBytesPerLine(0).to_string(),
        "bytes per line must be a multiple of 8 with a minimum of 8, got 0"
    );
    assert_eq!(
        HexlerError::TerminalSizeError.to_string(),
        "failed to determine terminal width"
    );
    let io_error = std::io::Error::new(std::io::ErrorKind::Other, "disk on fire");
    assert_eq!(
        HexlerError::from(io_error).to_string(),
        "IO error: disk on fire"
    );
}

#[test]
fn pager_errors_are_converted() {
    let error = HexlerError::from(minus::error::MinusError::Conversion);
    assert!(matches!(error, HexlerError::Pager(_)));
    assert_eq!(
        error.to_string(),
        "pager error: Failed to convert between some primitives"
    );
}

#[test]
fn messages_wrap_the_detail() {
    assert_eq!(hexler::error::io_message("gone"), "IO error: gone");
    assert_eq!(hexler::error::pager_message("gone"), "pager error: gone");
}
