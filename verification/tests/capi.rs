use lib::capi::{json_string, utf8_source, CApiResult, Status, TsvmResult, TSVM_ABI_VERSION};
use lib::interop::InteropError;
use lib::prepared::ExecuteError;

#[test]
fn json_strings_escape_quotes_backslashes_and_controls() {
    assert_eq!(json_string("plain"), "\"plain\"");
    assert_eq!(json_string("a\"b\\c"), "\"a\\\"b\\\\c\"");
    assert_eq!(json_string("\n\r\t\u{08}\u{0C}"), "\"\\n\\r\\t\\b\\f\"");
    assert_eq!(json_string("\u{01}\u{7f}\u{9f}"), "\"\\u0001\\u007f\\u009f\"");
    assert_eq!(json_string("é"), "\"é\"");
}

#[test]
fn error_results_name_the_status_and_carry_the_message() {
    let result = CApiResult::error(Status::InternalError, "TSVM C ABI execution panicked");

    assert_eq!(result.status, Status::InternalError);
    assert_eq!(
        result.json,
        "{\"generated_javascript\":false,\"status\":\"internal_error\",\"message\":\"TSVM C ABI execution panicked\"}"
    );
    assert_eq!(Status::Success.name(), "ok");
    assert_eq!(TSVM_ABI_VERSION, 2);
}

#[test]
fn execution_errors_map_to_statuses() {
    assert_eq!(Status::from_execute_error(&ExecuteError::Module(Vec::new())), Status::CompileError);
    assert_eq!(Status::from_execute_error(&ExecuteError::Compile(Vec::new())), Status::CompileError);
    assert_eq!(Status::from_execute_error(&ExecuteError::Verify(Vec::new())), Status::VerifyError);
    assert_eq!(
        Status::from_execute_error(&ExecuteError::Interop(InteropError::new("x"))),
        Status::RuntimeError
    );
    assert_eq!(Status::from_execute_error(&ExecuteError::Runtime("x".into())), Status::RuntimeError);
}

#[test]
fn invalid_utf8_is_reported_with_its_status() {
    assert_eq!(utf8_source(b"console.log(1);"), Ok("console.log(1);".into()));
    let err = utf8_source(&[0x63, 0xff]).expect_err("invalid UTF-8 should fail");
    assert_eq!(err.status, Status::InvalidUtf8);
    assert!(err.json.starts_with("{\"generated_javascript\":false,\"status\":\"invalid_utf8\",\"message\":\""));
}

#[test]
fn results_hold_their_json_bytes() {
    let result = TsvmResult::new(b"{}".to_vec());

    assert_eq!(result.bytes(), &b"{}".to_vec());
}
