use rslinker::error::LinkerError;
use rslinker::text::{hex_string, latin1_string, nul_position, str_eq};

#[test]
fn error_messages_name_their_kind() {
    assert_eq!(LinkerError::Io("boom".to_string()).message(), "IO error: boom");
    assert_eq!(LinkerError::InvalidFormat("x".to_string()).message(), "Invalid format: x");
    assert_eq!(LinkerError::UndefinedSymbol("_f".to_string()).message(), "Undefined symbol: _f");
    assert_eq!(LinkerError::DuplicateSymbol("_g".to_string()).message(), "Duplicate symbol: _g");
    assert_eq!(
        LinkerError::EntryPointNotFound("_main".to_string()).message(),
        "Entry point not found: _main"
    );
    assert_eq!(LinkerError::InvalidAlignment("3".to_string()).message(), "Invalid alignment: 3");
    assert_eq!(LinkerError::InvalidArgument("-q".to_string()).message(), "Invalid argument: -q");
}

#[test]
fn hex_is_zero_padded_lowercase() {
    assert_eq!(hex_string(0x10b, 4), "0x010b");
    assert_eq!(hex_string(0xDEADBEEF, 8), "0xdeadbeef");
    assert_eq!(hex_string(0x1000, 8), "0x00001000");
}

#[test]
fn text_helpers() {
    assert_eq!(nul_position(b"ab\0cd"), 2);
    assert_eq!(nul_position(b"abc"), 3);
    assert_eq!(latin1_string(&[0x41, 0xE9]), "A\u{e9}");
    assert!(str_eq("abc", "abc"));
    assert!(!str_eq("abc", "abd"));
}
