use lib::error::LiabError;

#[test]
fn test_compile_error_display() {
    let err = LiabError::CompileError {
        message: "Variable not found".to_string(),
        line: 1,
        column: 5,
    };
    assert_eq!(
        err.to_string(),
        "Compile Error at [1:5]: Variable not found"
    );
}

#[test]
fn test_runtime_error_display() {
    let err = LiabError::RuntimeError {
        message: "division by zero".into(),
        ip: 5,
        frame_name: "<script>".into(),
    };
    assert_eq!(
        err.to_string(),
        "Runtime Error in '<script>' at IP 0005: division by zero"
    );
}

#[test]
fn test_runtime_error_in_function() {
    let err = LiabError::RuntimeError {
        message: "stack underflow".into(),
        ip: 2,
        frame_name: "factorial".into(),
    };
    assert!(err.to_string().contains("factorial"));
    assert!(err.to_string().contains("IP 0002"));
}

#[test]
fn syntax_error_display() {
    let err = LiabError::SyntaxError("Unterminated string literal".into());
    assert_eq!(err.to_string(), "Syntax Error: Unterminated string literal");
}

#[test]
fn runtime_error_ip_wider_than_four_digits() {
    let err = LiabError::RuntimeError {
        message: "m".into(),
        ip: 123456,
        frame_name: "f".into(),
    };
    assert_eq!(err.to_string(), "Runtime Error in 'f' at IP 123456: m");
}
